//! The dock's model: the windows that are open, the application each belongs
//! to, the order in which applications were first opened, and the items the
//! dock shows for them and for the pinned launchers.

use std::collections::HashMap;
use vstd::prelude::*;
use vstd::std_specs::iter::IteratorSpec;
use crate::desktop::{entry_with_id, find_app, DesktopEntryStore, EntryView};
use crate::text::{lowercase, string_from, strings, to_lowercase, trim_suffixes, trim_suffixes_chars, chars_of, string_of};
use crate::toplevel::{ToplevelId, ToplevelInfo, ToplevelView};

verus! {

/// One icon of the dock: a pinned launcher or a running application.
#[derive(Debug, Clone)]
pub struct DockItem {
    pub key: String,
    pub name: String,
    pub icon_name: Option<String>,
    pub launch_desktop_id: Option<String>,
    pub windows: Vec<ToplevelId>,
}

/// The mathematical value of a [`DockItem`].
pub struct DockItemView {
    pub key: Seq<char>,
    pub name: Seq<char>,
    pub icon_name: Option<Seq<char>>,
    pub launch_desktop_id: Option<Seq<char>>,
    pub windows: Seq<ToplevelId>,
}

impl View for DockItem {
    type V = DockItemView;

    open spec fn view(&self) -> DockItemView {
        DockItemView {
            key: self.key@,
            name: self.name@,
            icon_name: self.icon_name.deep_view(),
            launch_desktop_id: self.launch_desktop_id.deep_view(),
            windows: self.windows@,
        }
    }
}

/// The views of a sequence of dock items.
pub open spec fn item_views(v: Seq<DockItem>) -> Seq<DockItemView> {
    v.map_values(|i: DockItem| i@)
}

/// The mathematical value of a [`DockModel`]: the open windows and the application key of
/// each, by window id, and the application keys in the order they were first opened.
pub struct DockModelView {
    pub windows: Map<ToplevelId, ToplevelView>,
    pub keys: Map<ToplevelId, Seq<char>>,
    pub open_order: Seq<Seq<char>>,
}

/// Ids ascend strictly along `s`.
pub open spec fn strictly_ascending(s: Seq<ToplevelId>) -> bool {
    forall|i: int, j: int| 0 <= i < j < s.len() ==> #[trigger] s[i] < #[trigger] s[j]
}

/// The members of `ids` below `n`, in ascending order.
pub open spec fn ascending_below(ids: Set<ToplevelId>, n: nat) -> Seq<ToplevelId>
    decreases n,
{
    if n == 0 {
        Seq::empty()
    } else {
        let before = ascending_below(ids, (n - 1) as nat);
        if ids.contains((n - 1) as ToplevelId) {
            before.push((n - 1) as ToplevelId)
        } else {
            before
        }
    }
}

/// The members of `ids`, in ascending order.
pub open spec fn ascending_members(ids: Set<ToplevelId>) -> Seq<ToplevelId> {
    ascending_below(ids, 0x1_0000_0000nat)
}

/// The windows that belong to application `k`.
pub open spec fn windows_of(keys: Map<ToplevelId, Seq<char>>, k: Seq<char>) -> Set<ToplevelId> {
    keys.dom().filter(|id: ToplevelId| keys[id] == k)
}

/// The windows that belong to application `k`, in ascending id order.
pub open spec fn ids_for_key(keys: Map<ToplevelId, Seq<char>>, k: Seq<char>) -> Seq<ToplevelId> {
    ascending_members(windows_of(keys, k))
}

/// `s` without any occurrence of `k`.
pub open spec fn without(s: Seq<Seq<char>>, k: Seq<char>) -> Seq<Seq<char>>
    decreases s.len(),
{
    if s.len() == 0 {
        Seq::empty()
    } else {
        let before = without(s.drop_last(), k);
        if s.last() == k {
            before
        } else {
            before.push(s.last())
        }
    }
}

/// The application key of a window with application id `app_id`: the id of its desktop entry,
/// else the lower-cased application id.
pub open spec fn app_key(store: Seq<EntryView>, app_id: Seq<char>) -> Seq<char> {
    match find_app(store, app_id) {
        Some(e) => e.id,
        None => lowercase(app_id),
    }
}

/// Whether window `w` is on the dock's output `dock_output` (any output when the dock's or
/// the window's outputs are unknown).
pub open spec fn on_output(w: ToplevelView, dock_output: Option<Seq<char>>) -> bool {
    match dock_output {
        None => true,
        Some(name) => w.outputs.len() == 0 || w.outputs.contains(name),
    }
}

/// The item of the pinned launcher `p`.
pub open spec fn pinned_item(m: DockModelView, store: Seq<EntryView>, p: Seq<char>) -> DockItemView {
    let entry = entry_with_id(store, p);
    DockItemView {
        key: p,
        name: match entry {
            Some(e) => e.name,
            None => p,
        },
        icon_name: match entry {
            Some(e) => match e.icon {
                Some(i) => Some(i),
                None => Some(trim_suffixes(p, ".desktop"@)),
            },
            None => Some(trim_suffixes(p, ".desktop"@)),
        },
        launch_desktop_id: match entry {
            Some(e) => Some(e.id),
            None => None,
        },
        windows: ids_for_key(m.keys, p),
    }
}

/// The application id of the first window of application `k`, when that window is known.
pub open spec fn first_app_id(m: DockModelView, k: Seq<char>) -> Option<Seq<char>> {
    let first = ids_for_key(m.keys, k)[0];
    if m.windows.contains_key(first) {
        Some(m.windows[first].app_id)
    } else {
        None
    }
}

/// The item of the running application `k`, which is not pinned and has windows.
pub open spec fn running_item(m: DockModelView, store: Seq<EntryView>, k: Seq<char>) -> DockItemView {
    let entry = entry_with_id(store, k);
    let raw = first_app_id(m, k);
    DockItemView {
        key: k,
        name: match entry {
            Some(e) => e.name,
            None => match raw {
                Some(a) => a,
                None => k,
            },
        },
        icon_name: match entry {
            Some(e) => match e.icon {
                Some(i) => Some(i),
                None => raw,
            },
            None => raw,
        },
        launch_desktop_id: match entry {
            Some(e) => Some(e.id),
            None => None,
        },
        windows: ids_for_key(m.keys, k),
    }
}

/// The items of the applications of `order` that are not pinned and have windows, in order.
pub open spec fn running_items(m: DockModelView, store: Seq<EntryView>, pinned: Seq<Seq<char>>, order: Seq<Seq<char>>) -> Seq<DockItemView>
    decreases order.len(),
{
    if order.len() == 0 {
        Seq::empty()
    } else {
        let before = running_items(m, store, pinned, order.drop_last());
        let k = order.last();
        if pinned.contains(k) || ids_for_key(m.keys, k).len() == 0 {
            before
        } else {
            before.push(running_item(m, store, k))
        }
    }
}

/// The items of the pinned launchers `pinned`, in order.
pub open spec fn pinned_items(m: DockModelView, store: Seq<EntryView>, pinned: Seq<Seq<char>>) -> Seq<DockItemView>
    decreases pinned.len(),
{
    if pinned.len() == 0 {
        Seq::empty()
    } else {
        pinned_items(m, store, pinned.drop_last()).push(pinned_item(m, store, pinned.last()))
    }
}

/// The dock's items: the pinned launchers, then the running applications in the order they
/// were first opened.
pub open spec fn dock_items(m: DockModelView, store: Seq<EntryView>, pinned: Seq<Seq<char>>) -> Seq<DockItemView> {
    pinned_items(m, store, pinned) + running_items(m, store, pinned, m.open_order)
}

/// `m1` is `m0` after the window `info` is recorded: the window and its application key
/// (see `app_key`) are stored under its id, and the key joins the end of the opening order
/// unless already there.
pub open spec fn upserted(m0: DockModelView, m1: DockModelView, info: ToplevelView, store: Seq<EntryView>) -> bool {
    let k = app_key(store, info.app_id);
    &&& m1.windows == m0.windows.insert(info.id, info)
    &&& m1.keys == m0.keys.insert(info.id, k)
    &&& m1.open_order == if m0.open_order.contains(k) {
        m0.open_order
    } else {
        m0.open_order.push(k)
    }
}

/// `m1` is `m0` after the window `id` is forgotten: its application key leaves the opening
/// order when no other window has it.
pub open spec fn removed(m0: DockModelView, m1: DockModelView, id: ToplevelId) -> bool {
    &&& m1.windows == m0.windows.remove(id)
    &&& m1.keys == m0.keys.remove(id)
    &&& m1.open_order == if m0.keys.contains_key(id) && !m1.keys.values().contains(m0.keys[id]) {
        without(m0.open_order, m0.keys[id])
    } else {
        m0.open_order
    }
}

impl DockModelView {
    /// The model's invariant: a key for each open window and none for another, each window
    /// stored under its own id, each application key at most once in the opening order, and
    /// the key of every open window in it.
    pub open spec fn wf(self) -> bool {
        &&& self.keys.dom() == self.windows.dom()
        &&& forall|id: ToplevelId| #[trigger] self.windows.contains_key(id) ==> self.windows[id].id == id
        &&& self.open_order.no_duplicates()
        &&& forall|id: ToplevelId| #[trigger] self.keys.contains_key(id) ==> self.open_order.contains(self.keys[id])
    }

    /// Whether window `id` is open and active.
    pub open spec fn is_activated(self, id: ToplevelId) -> bool {
        self.windows.contains_key(id) && self.windows[id].activated
    }

    /// Whether an active window that is maximized or fullscreen is on the dock's output.
    pub open spec fn should_dodge(self, dock_output: Option<Seq<char>>) -> bool {
        exists|id: ToplevelId|
            #[trigger] self.windows.contains_key(id) && {
                let w = self.windows[id];
                w.activated && (w.maximized || w.fullscreen) && on_output(w, dock_output)
            }
    }
}

/// `ascending_below(ids, n)` ascends strictly and holds the members of `ids` below `n`.
pub proof fn lemma_ascending_below(ids: Set<ToplevelId>, n: nat)
    requires
        n <= 0x1_0000_0000,
    ensures
        strictly_ascending(ascending_below(ids, n)),
        forall|x: ToplevelId| #[trigger] ascending_below(ids, n).contains(x) <==> ids.contains(x) && x < n,
    decreases n,
{
    if n > 0 {
        let before = ascending_below(ids, (n - 1) as nat);
        lemma_ascending_below(ids, (n - 1) as nat);
        let x = (n - 1) as ToplevelId;
        assert(x == n - 1);
        if ids.contains(x) {
            let after = before.push(x);
            assert forall|i: int, j: int| 0 <= i < j < after.len() implies #[trigger] after[i] < #[trigger] after[j] by {
                if j == before.len() {
                    assert(before.contains(before[i]));
                } else {
                    assert(before[i] < before[j]);
                }
            }
            assert forall|y: ToplevelId| #[trigger] after.contains(y) <==> ids.contains(y) && y < n by {
                if after.contains(y) {
                    let k = choose|k: int| 0 <= k < after.len() && after[k] == y;
                    if k < before.len() {
                        assert(before.contains(y));
                    }
                }
                if ids.contains(y) && y < n {
                    if y == x {
                        assert(after[before.len() as int] == y);
                    } else {
                        assert(before.contains(y));
                        let k = choose|k: int| 0 <= k < before.len() && before[k] == y;
                        assert(after[k] == y);
                    }
                }
            }
        }
    }
}

/// The members of a set of ids, in ascending order, are its only strictly ascending listing.
pub proof fn lemma_ascending_members(ids: Set<ToplevelId>, s: Seq<ToplevelId>)
    requires
        strictly_ascending(s),
        forall|x: ToplevelId| #[trigger] s.contains(x) <==> ids.contains(x),
    ensures
        s == ascending_members(ids),
{
    lemma_ascending_below(ids, 0x1_0000_0000nat);
    let t = ascending_members(ids);
    assert forall|x: ToplevelId| #[trigger] s.contains(x) <==> t.contains(x) by {}
    lemma_ascending_unique(s, t);
}

/// Two strictly ascending sequences with the same members are equal.
pub proof fn lemma_ascending_unique(a: Seq<ToplevelId>, b: Seq<ToplevelId>)
    requires
        strictly_ascending(a),
        strictly_ascending(b),
        forall|x: ToplevelId| #[trigger] a.contains(x) <==> b.contains(x),
    ensures
        a == b,
    decreases a.len(),
{
    if a.len() == 0 {
        if b.len() > 0 {
            assert(b.contains(b[0]));
            assert(a.contains(b[0]));
        }
        assert(a =~= b);
    } else {
        assert(a.contains(a[0]));
        assert(b.len() > 0);
        assert(b.contains(b[0]));
        assert(a.contains(b[0]));
        assert(b.contains(a[0]));
        let j = choose|j: int| 0 <= j < b.len() && b[j] == a[0];
        let i = choose|i: int| 0 <= i < a.len() && a[i] == b[0];
        if j > 0 {
            assert(b[0] < b[j]);
        }
        if i > 0 {
            assert(a[0] < a[i]);
        }
        assert(a[0] == b[0]);
        let a1 = a.drop_first();
        let b1 = b.drop_first();
        assert forall|x: ToplevelId| #[trigger] a1.contains(x) <==> b1.contains(x) by {
            if a1.contains(x) {
                let p = choose|p: int| 0 <= p < a1.len() && a1[p] == x;
                assert(a[p + 1] == x);
                assert(a[0] < a[p + 1]);
                assert(a.contains(x));
                assert(b.contains(x));
                let q = choose|q: int| 0 <= q < b.len() && b[q] == x;
                assert(q != 0);
                assert(b1[q - 1] == x);
            }
            if b1.contains(x) {
                let p = choose|p: int| 0 <= p < b1.len() && b1[p] == x;
                assert(b[p + 1] == x);
                assert(b[0] < b[p + 1]);
                assert(b.contains(x));
                assert(a.contains(x));
                let q = choose|q: int| 0 <= q < a.len() && a[q] == x;
                assert(q != 0);
                assert(a1[q - 1] == x);
            }
        }
        lemma_ascending_unique(a1, b1);
        assert forall|i: int| 0 < i < a.len() implies a[i] == b[i] by {
            assert(a[i] == a1[i - 1]);
            assert(b[i] == b1[i - 1]);
        }
        assert(a =~= b);
    }
}

/// The windows of application `k` ascend, and they are exactly its open windows.
pub proof fn lemma_ids_for_key(keys: Map<ToplevelId, Seq<char>>, k: Seq<char>)
    ensures
        strictly_ascending(ids_for_key(keys, k)),
        forall|id: ToplevelId| #[trigger] ids_for_key(keys, k).contains(id) <==> keys.contains_key(id) && keys[id] == k,
{
    lemma_ascending_below(windows_of(keys, k), 0x1_0000_0000nat);
}

/// Whether one of the first `n` (key, value) pairs of `s` satisfies `p`.
spec fn seen<V>(s: Seq<(&ToplevelId, &V)>, n: int, p: spec_fn(ToplevelId, V) -> bool) -> bool {
    exists|j: int| 0 <= j < n && #[trigger] p(*s[j].0, *s[j].1)
}

/// Inserts `id`, which it does not hold, into the strictly ascending `out`.
fn insert_ascending(out: &mut Vec<ToplevelId>, id: ToplevelId)
    requires
        strictly_ascending(old(out)@),
        !old(out)@.contains(id),
    ensures
        strictly_ascending(final(out)@),
        forall|x: ToplevelId| #[trigger] final(out)@.contains(x) <==> old(out)@.contains(x) || x == id,
{
    let mut p: usize = 0;
    while p < out.len() && out[p] < id
        invariant
            p <= out.len(),
            forall|j: int| 0 <= j < p ==> #[trigger] out@[j] < id,
        decreases out.len() - p,
    {
        p += 1;
    }
    let ghost before = out@;
    if p < out.len() {
        assert(before[p as int] != id) by {
            if before[p as int] == id {
                assert(before.contains(id));
            }
        }
    }
    out.insert(p, id);
    proof {
        let after = out@;
        assert forall|i: int| 0 <= i < after.len() implies #[trigger] after[i] == if i < p {
            before[i]
        } else if i == p {
            id
        } else {
            before[i - 1]
        } by {}
        assert forall|i: int, j: int| 0 <= i < j < after.len() implies #[trigger] after[i] < #[trigger] after[j] by {
            if j < p {
                assert(before[i] < before[j]);
            } else if j == p {
                assert(before[i] < id);
            } else if i < p {
                assert(before[i] < id);
                assert(id < before[p as int]);
                if j - 1 > p {
                    assert(before[p as int] < before[j - 1]);
                }
            } else if i == p {
                assert(id < before[p as int]);
                if j - 1 > p {
                    assert(before[p as int] < before[j - 1]);
                }
            } else {
                assert(before[i - 1] < before[j - 1]);
            }
        }
        assert forall|x: ToplevelId| #[trigger] after.contains(x) <==> before.contains(x) || x == id by {
            if after.contains(x) {
                let k = choose|k: int| 0 <= k < after.len() && after[k] == x;
                if k < p {
                    assert(before[k] == x);
                } else if k > p {
                    assert(before[k - 1] == x);
                }
            }
            if before.contains(x) {
                let k = choose|k: int| 0 <= k < before.len() && before[k] == x;
                if k < p {
                    assert(after[k] == x);
                } else {
                    assert(after[k + 1] == x);
                }
            }
            if x == id {
                assert(after[p as int] == x);
            }
        }
    }
}

/// The model held by `windows`, `window_key` and `open_order`.
spec fn model_of(
    windows: HashMap<ToplevelId, ToplevelInfo>,
    window_key: HashMap<ToplevelId, String>,
    open_order: Vec<String>,
) -> DockModelView {
    DockModelView {
        windows: windows@.map_values(|w: ToplevelInfo| w@),
        keys: window_key@.map_values(|k: String| k@),
        open_order: strings(open_order@),
    }
}

/// The dock's model of open windows and the order in which applications were opened.
pub struct DockModel {
    windows: HashMap<ToplevelId, ToplevelInfo>,
    window_key: HashMap<ToplevelId, String>,
    open_order: Vec<String>,
}

impl View for DockModel {
    type V = DockModelView;

    closed spec fn view(&self) -> DockModelView {
        model_of(self.windows, self.window_key, self.open_order)
    }
}

/// Whether `key` is in the opening order `order`.
fn opened(order: &Vec<String>, key: &String) -> (r: bool)
    ensures
        r == strings(order@).contains(key@),
{
    let mut i: usize = 0;
    while i < order.len()
        invariant
            i <= order.len(),
            forall|j: int| 0 <= j < i ==> strings(order@)[j] != key@,
        decreases order.len() - i,
    {
        if order[i] == *key {
            assert(strings(order@)[i as int] == key@);
            return true;
        }
        i += 1;
    }
    false
}

/// Whether some window of `window_key` belongs to `key`.
fn key_in_use(window_key: &HashMap<ToplevelId, String>, key: &String) -> (r: bool)
    ensures
        r == window_key@.map_values(|k: String| k@).values().contains(key@),
{
    let ghost m = window_key@;
    let ghost keys = window_key@.map_values(|k: String| k@);
    let ghost p = |i: ToplevelId, k: String| k@ == key@;
    for (id, k) in it: window_key.iter()
        invariant
            m == window_key@,
            keys == window_key@.map_values(|k: String| k@),
            p == (|i: ToplevelId, k: String| k@ == key@),
            it.seq() == vstd::std_specs::hash::spec_hash_map_iter(window_key).remaining(),
            !seen(it.seq(), it.index(), p),
    {
        let ghost i = it.index();
        let ghost s = it.seq();
        if *k == *key {
            assert(m.contains_key(*s[i].0));
            assert(keys[*id] == key@);
            assert(keys.contains_key(*id));
            return true;
        }
        assert(!seen(s, i + 1, p)) by {
            if seen(s, i + 1, p) {
                let j = choose|j: int| 0 <= j < i + 1 && #[trigger] p(*s[j].0, *s[j].1);
                assert(j != i);
                assert(seen(s, i, p));
            }
        }
    }
    let ghost s = vstd::std_specs::hash::spec_hash_map_iter(window_key).remaining();
    assert forall|x: ToplevelId| #[trigger] keys.contains_key(x) implies keys[x] != key@ by {
        assert(s.contains((&x, &m[x])));
        let j = choose|j: int| 0 <= j < s.len() && s[j] == (&x, &m[x]);
        assert(!p(*s[j].0, *s[j].1));
    }
    false
}

impl DockModel {
    /// The model's invariant, kept by every operation (see `DockModelView::wf`).
    #[verifier::type_invariant]
    spec fn inv(self) -> bool {
        self@.wf()
    }

    /// A model with no windows.
    pub fn new() -> (m: Self)
        ensures
            m@.wf(),
            m@.windows == Map::<ToplevelId, ToplevelView>::empty(),
            m@.keys == Map::<ToplevelId, Seq<char>>::empty(),
            m@.open_order.len() == 0,
    {
        let windows: HashMap<ToplevelId, ToplevelInfo> = HashMap::new();
        let window_key: HashMap<ToplevelId, String> = HashMap::new();
        let open_order: Vec<String> = Vec::new();
        assert(model_of(windows, window_key, open_order).windows =~= Map::<ToplevelId, ToplevelView>::empty());
        assert(model_of(windows, window_key, open_order).keys =~= Map::<ToplevelId, Seq<char>>::empty());
        assert(model_of(windows, window_key, open_order).open_order =~= Seq::<Seq<char>>::empty());
        DockModel { windows, window_key, open_order }
    }

    /// Takes the model's parts out, leaving an empty model behind.
    fn take_parts(&mut self) -> (r: (HashMap<ToplevelId, ToplevelInfo>, HashMap<ToplevelId, String>, Vec<String>))
        ensures
            model_of(r.0, r.1, r.2) == old(self)@,
            old(self)@.wf(),
    {
        proof {
            use_type_invariant(&*self);
        }
        let mut taken = DockModel::new();
        std::mem::swap(self, &mut taken);
        let DockModel { windows, window_key, open_order } = taken;
        (windows, window_key, open_order)
    }

    /// Records the window `info` (new or changed), keyed by the application it belongs to.
    pub fn upsert_window(&mut self, info: ToplevelInfo, desktop: &DesktopEntryStore)
        ensures
            final(self)@.wf(),
            upserted(old(self)@, final(self)@, info@, desktop@),
    {
        let (mut windows, mut window_key, mut open_order) = self.take_parts();
        let ghost m0 = old(self)@;
        let key = match desktop.find_by_app_id(info.app_id.as_str()) {
            Some(e) => e.id.clone(),
            None => to_lowercase(info.app_id.as_str()),
        };
        let ghost k = key@;
        assert(k == app_key(desktop@, info@.app_id));
        if !opened(&open_order, &key) {
            let ghost before = strings(open_order@);
            open_order.push(key.clone());
            assert(strings(open_order@) =~= before.push(k));
            proof {
                let order = strings(open_order@);
                assert forall|a: int, b: int| 0 <= a < b < order.len() implies order[a] != order[b] by {
                    if b == before.len() {
                        assert(before.contains(before[a]));
                    }
                }
            }
        }
        let ghost order = strings(open_order@);
        assert(order.contains(k)) by {
            if m0.open_order.contains(k) {
                assert(order == m0.open_order);
            } else {
                assert(order[order.len() - 1] == k);
            }
        }
        assert forall|x: Seq<char>| m0.open_order.contains(x) implies order.contains(x) by {
            let j = choose|j: int| 0 <= j < m0.open_order.len() && m0.open_order[j] == x;
            assert(order[j] == x);
        }
        let id = info.id;
        let ghost v = info@;
        window_key.insert(id, key);
        windows.insert(id, info);
        let ghost m1 = model_of(windows, window_key, open_order);
        assert(m1.windows =~= m0.windows.insert(id, v));
        assert(m1.keys =~= m0.keys.insert(id, k));
        *self = DockModel { windows, window_key, open_order };
    }

    /// Forgets the window `id`; its application leaves the opening order once it has no
    /// other window.
    pub fn remove_window(&mut self, id: ToplevelId)
        ensures
            final(self)@.wf(),
            removed(old(self)@, final(self)@, id),
    {
        let (mut windows, mut window_key, mut open_order) = self.take_parts();
        let ghost m0 = old(self)@;
        windows.remove(&id);
        let taken = window_key.remove(&id);
        let ghost keys = window_key@.map_values(|k: String| k@);
        assert(windows@.map_values(|w: ToplevelInfo| w@) =~= m0.windows.remove(id));
        assert(keys =~= m0.keys.remove(id));
        match taken {
            Some(key) => {
                let ghost k = key@;
                assert(m0.keys[id] == k);
                if !key_in_use(&window_key, &key) {
                    let ghost order = strings(open_order@);
                    let mut kept: Vec<String> = Vec::new();
                    let mut i: usize = 0;
                    assert(order.take(0) =~= Seq::<Seq<char>>::empty());
                    assert(strings(kept@) =~= Seq::<Seq<char>>::empty());
                    while i < open_order.len()
                        invariant
                            i <= open_order.len(),
                            order == strings(open_order@),
                            strings(kept@) == without(order.take(i as int), k),
                            key@ == k,
                        decreases open_order.len() - i,
                    {
                        let ghost pre = order.take(i + 1);
                        assert(pre.drop_last() =~= order.take(i as int));
                        assert(pre.last() == order[i as int]);
                        if open_order[i] != key {
                            let ghost before = strings(kept@);
                            let c = open_order[i].clone();
                            kept.push(c);
                            assert(strings(kept@) =~= before.push(order[i as int]));
                        }
                        i += 1;
                    }
                    assert(order.take(order.len() as int) =~= order);
                    open_order = kept;
                    proof {
                        lemma_without(order, k);
                        assert forall|j: ToplevelId| #[trigger] keys.contains_key(j) implies strings(open_order@).contains(keys[j]) by {
                            assert(keys.values().contains(keys[j]));
                            assert(m0.keys.contains_key(j));
                        }
                    }
                } else {
                    proof {
                        assert forall|j: ToplevelId| #[trigger] keys.contains_key(j) implies strings(open_order@).contains(keys[j]) by {
                            assert(m0.keys.contains_key(j));
                        }
                    }
                }
            },
            None => {
                proof {
                    assert forall|j: ToplevelId| #[trigger] keys.contains_key(j) implies strings(open_order@).contains(keys[j]) by {
                        assert(m0.keys.contains_key(j));
                    }
                }
            },
        }
        *self = DockModel { windows, window_key, open_order };
    }

    /// The ids of the open windows of application `key`, in ascending order.
    pub fn windows_for_key(&self, key: &str) -> (r: Vec<ToplevelId>)
        ensures
            r@ == ids_for_key(self@.keys, key@),
    {
        let want = string_from(key);
        let ghost m = self.window_key@;
        let ghost p = |i: ToplevelId, k: String| k@ == key@;
        let mut out: Vec<ToplevelId> = Vec::new();
        for (id, k) in it: self.window_key.iter()
            invariant
                m == self.window_key@,
                want@ == key@,
                p == (|i: ToplevelId, k: String| k@ == key@),
                it.seq() == vstd::std_specs::hash::spec_hash_map_iter(&self.window_key).remaining(),
                it.seq().no_duplicates(),
                strictly_ascending(out@),
                forall|x: ToplevelId| #[trigger] out@.contains(x) <==> exists|j: int| 0 <= j < it.index() && *it.seq()[j].0 == x && p(x, *it.seq()[j].1),
        {
            let ghost i = it.index();
            let ghost s = it.seq();
            let ghost before = out@;
            if *k == want {
                assert(!before.contains(*id)) by {
                    if before.contains(*id) {
                        let j = choose|j: int| 0 <= j < i && *s[j].0 == *id && p(*id, *s[j].1);
                        assert(m[*s[j].0] == *s[j].1);
                        assert(m[*s[i].0] == *s[i].1);
                        assert(s[j] == s[i]);
                    }
                }
                insert_ascending(&mut out, *id);
                assert forall|x: ToplevelId| #[trigger] out@.contains(x) <==> exists|j: int| 0 <= j < i + 1 && *s[j].0 == x && p(x, *s[j].1) by {
                    if out@.contains(x) && x == *id {
                        assert(*s[i].0 == x && p(x, *s[i].1));
                    }
                    if exists|j: int| 0 <= j < i + 1 && *s[j].0 == x && p(x, *s[j].1) {
                        let j = choose|j: int| 0 <= j < i + 1 && *s[j].0 == x && p(x, *s[j].1);
                        if j < i {
                            assert(before.contains(x));
                        }
                    }
                }
            } else {
                assert forall|x: ToplevelId| #[trigger] out@.contains(x) <==> exists|j: int| 0 <= j < i + 1 && *s[j].0 == x && p(x, *s[j].1) by {
                    if exists|j: int| 0 <= j < i + 1 && *s[j].0 == x && p(x, *s[j].1) {
                        let j = choose|j: int| 0 <= j < i + 1 && *s[j].0 == x && p(x, *s[j].1);
                        assert(j != i);
                    }
                }
            }
        }
        let ghost s = vstd::std_specs::hash::spec_hash_map_iter(&self.window_key).remaining();
        assert forall|x: ToplevelId| #[trigger] out@.contains(x) <==> windows_of(self@.keys, key@).contains(x) by {
            if out@.contains(x) {
                let j = choose|j: int| 0 <= j < s.len() && *s[j].0 == x && p(x, *s[j].1);
                assert(m.contains_key(*s[j].0));
            }
            if windows_of(self@.keys, key@).contains(x) {
                assert(s.contains((&x, &m[x])));
                let j = choose|j: int| 0 <= j < s.len() && s[j] == (&x, &m[x]);
                assert(*s[j].0 == x && p(x, *s[j].1));
            }
        }
        proof {
            lemma_ascending_members(windows_of(self@.keys, key@), out@);
        }
        out
    }

    /// The dock's items for the pinned launchers `pinned`: one per pinned launcher, in order,
    /// then one per other application with open windows, in the order they were first opened.
    pub fn build_items(&self, pinned: &[String], desktop: &DesktopEntryStore) -> (r: Vec<DockItem>)
        ensures
            item_views(r@) == dock_items(self@, desktop@, strings(pinned@)),
    {
        let ghost pins = strings(pinned@);
        let dot_desktop = chars_of(".desktop");
        let mut items: Vec<DockItem> = Vec::new();
        let mut i: usize = 0;
        assert(pins.take(0) =~= Seq::<Seq<char>>::empty());
        assert(item_views(items@) =~= Seq::<DockItemView>::empty());
        while i < pinned.len()
            invariant
                i <= pinned.len(),
                pins == strings(pinned@),
                dot_desktop@ == ".desktop"@,
                item_views(items@) == pinned_items(self@, desktop@, pins.take(i as int)),
            decreases pinned.len() - i,
        {
            let ghost pre = pins.take(i + 1);
            assert(pre.drop_last() =~= pins.take(i as int));
            assert(pre.last() == pinned@[i as int]@);
            let p = &pinned[i];
            let entry = desktop.get(p.as_str());
            let windows = self.windows_for_key(p.as_str());
            let stem = string_of(&trim_suffixes_chars(&chars_of(p.as_str()), &dot_desktop));
            let icon_name = match entry {
                Some(e) => match &e.icon {
                    Some(icon) => Some(icon.clone()),
                    None => Some(stem),
                },
                None => Some(stem),
            };
            let name = match entry {
                Some(e) => e.name.clone(),
                None => p.clone(),
            };
            let launch_desktop_id = match entry {
                Some(e) => Some(e.id.clone()),
                None => None,
            };
            let item = DockItem { key: p.clone(), name, icon_name, launch_desktop_id, windows };
            assert(item@ == pinned_item(self@, desktop@, p@));
            let ghost before = item_views(items@);
            items.push(item);
            assert(item_views(items@) =~= before.push(item@));
            i += 1;
        }
        assert(pins.take(pinned.len() as int) =~= pins);
        let ghost head = item_views(items@);
        let ghost order = self@.open_order;
        let mut j: usize = 0;
        assert(order.take(0) =~= Seq::<Seq<char>>::empty());
        assert(item_views(items@) =~= head + running_items(self@, desktop@, pins, order.take(0)));
        while j < self.open_order.len()
            invariant
                j <= self.open_order.len(),
                pins == strings(pinned@),
                order == self@.open_order,
                head == pinned_items(self@, desktop@, pins),
                item_views(items@) == head + running_items(self@, desktop@, pins, order.take(j as int)),
            decreases self.open_order.len() - j,
        {
            let ghost pre = order.take(j + 1);
            assert(pre.drop_last() =~= order.take(j as int));
            assert(pre.last() == order[j as int]);
            let k = &self.open_order[j];
            assert(k@ == order[j as int]);
            let mut is_pinned = false;
            let mut x: usize = 0;
            while x < pinned.len()
                invariant
                    x <= pinned.len(),
                    pins == strings(pinned@),
                    is_pinned == exists|y: int| 0 <= y < x && pins[y] == k@,
                decreases pinned.len() - x,
            {
                if pinned[x] == *k {
                    assert(pins[x as int] == k@);
                    is_pinned = true;
                }
                x += 1;
            }
            assert(is_pinned == pins.contains(k@));
            if !is_pinned {
                let windows = self.windows_for_key(k.as_str());
                if windows.len() > 0 {
                    let raw = match self.windows.get(&windows[0]) {
                        Some(w) => Some(w.app_id.clone()),
                        None => None,
                    };
                    assert(raw.deep_view() == first_app_id(self@, k@));
                    let entry = desktop.get(k.as_str());
                    let name = match entry {
                        Some(e) => e.name.clone(),
                        None => match &raw {
                            Some(a) => a.clone(),
                            None => k.clone(),
                        },
                    };
                    let icon_name = match entry {
                        Some(e) => match &e.icon {
                            Some(icon) => Some(icon.clone()),
                            None => raw,
                        },
                        None => raw,
                    };
                    let launch_desktop_id = match entry {
                        Some(e) => Some(e.id.clone()),
                        None => None,
                    };
                    let item = DockItem { key: k.clone(), name, icon_name, launch_desktop_id, windows };
                    assert(item@ == running_item(self@, desktop@, k@));
                    let ghost before = item_views(items@);
                    items.push(item);
                    assert(item_views(items@) =~= before.push(item@));
                    assert(head + running_items(self@, desktop@, pins, pre) =~= (head
                        + running_items(self@, desktop@, pins, order.take(j as int))).push(item@));
                }
            }
            j += 1;
        }
        assert(order.take(order.len() as int) =~= order);
        items
    }

    /// Whether window `id` is open and active.
    pub fn is_activated(&self, id: ToplevelId) -> (r: bool)
        ensures
            r == self@.is_activated(id),
    {
        match self.windows.get(&id) {
            Some(w) => w.activated,
            None => false,
        }
    }

    /// Whether any of the windows `windows` is active.
    pub fn any_activated(&self, windows: &[ToplevelId]) -> (r: bool)
        ensures
            r == exists|i: int| 0 <= i < windows@.len() && self@.is_activated(#[trigger] windows@[i]),
    {
        let mut i: usize = 0;
        while i < windows.len()
            invariant
                i <= windows.len(),
                forall|j: int| 0 <= j < i ==> !self@.is_activated(#[trigger] windows@[j]),
            decreases windows.len() - i,
        {
            if self.is_activated(windows[i]) {
                return true;
            }
            i += 1;
        }
        false
    }

    /// The title of window `id`, when it is open and has a non-empty title.
    pub fn window_title(&self, id: ToplevelId) -> (r: Option<&str>)
        ensures
            match r {
                Some(t) => self@.windows.contains_key(id) && t@ == self@.windows[id].title && t@.len() > 0,
                None => !self@.windows.contains_key(id) || self@.windows[id].title.len() == 0,
            },
    {
        match self.windows.get(&id) {
            Some(w) => {
                let t = w.title.as_str();
                if t.is_empty() {
                    None
                } else {
                    Some(t)
                }
            },
            None => None,
        }
    }

    /// Whether window `w` is on the dock's output.
    fn on_dock_output(w: &ToplevelInfo, dock_output: Option<&str>) -> (r: bool)
        ensures
            r == on_output(w@, match dock_output {
                Some(o) => Some(o@),
                None => None,
            }),
    {
        match dock_output {
            None => true,
            Some(name) => {
                if w.outputs.len() == 0 {
                    return true;
                }
                let want = string_from(name);
                let mut i: usize = 0;
                while i < w.outputs.len()
                    invariant
                        i <= w.outputs.len(),
                        want@ == name@,
                        dock_output == Some(name),
                        forall|j: int| 0 <= j < i ==> strings(w.outputs@)[j] != name@,
                    decreases w.outputs.len() - i,
                {
                    if w.outputs[i] == want {
                        assert(strings(w.outputs@)[i as int] == w.outputs@[i as int]@);
                        assert(w@.outputs[i as int] == name@);
                        return true;
                    }
                    i += 1;
                }
                false
            },
        }
    }

    /// Whether the dock should get out of the way: an active window that is maximized or
    /// fullscreen is on the dock's output (`dock_output`, when known).
    pub fn should_dodge(&self, dock_output: Option<&str>) -> (r: bool)
        ensures
            r == self@.should_dodge(match dock_output {
                Some(o) => Some(o@),
                None => None,
            }),
    {
        let ghost out = match dock_output {
            Some(o) => Some(o@),
            None => None::<Seq<char>>,
        };
        let ghost m = self.windows@;
        let ghost p = |i: ToplevelId, w: ToplevelInfo| w.activated && (w.maximized || w.fullscreen) && on_output(w@, out);
        for (id, w) in it: self.windows.iter()
            invariant
                m == self.windows@,
                out == match dock_output {
                    Some(o) => Some(o@),
                    None => None::<Seq<char>>,
                },
                p == (|i: ToplevelId, w: ToplevelInfo| w.activated && (w.maximized || w.fullscreen) && on_output(w@, out)),
                it.seq() == vstd::std_specs::hash::spec_hash_map_iter(&self.windows).remaining(),
                !seen(it.seq(), it.index(), p),
        {
            let ghost i = it.index();
            let ghost s = it.seq();
            if w.activated && (w.maximized || w.fullscreen) && Self::on_dock_output(w, dock_output) {
                assert(m.contains_key(*s[i].0));
                assert(self@.windows.contains_key(*id));
                assert(self@.windows[*id] == w@);
                return true;
            }
            assert(!seen(s, i + 1, p)) by {
                if seen(s, i + 1, p) {
                    let j = choose|j: int| 0 <= j < i + 1 && #[trigger] p(*s[j].0, *s[j].1);
                    assert(j != i);
                    assert(seen(s, i, p));
                }
            }
        }
        let ghost s = vstd::std_specs::hash::spec_hash_map_iter(&self.windows).remaining();
        assert forall|x: ToplevelId| #[trigger] self@.windows.contains_key(x) implies !({
            let w = self@.windows[x];
            w.activated && (w.maximized || w.fullscreen) && on_output(w, out)
        }) by {
            assert(s.contains((&x, &m[x])));
            let j = choose|j: int| 0 <= j < s.len() && s[j] == (&x, &m[x]);
            assert(!p(*s[j].0, *s[j].1));
        }
        false
    }
}

/// Removing every `k` from a sequence without duplicates.
pub proof fn lemma_without(s: Seq<Seq<char>>, k: Seq<char>)
    requires
        s.no_duplicates(),
    ensures
        without(s, k).no_duplicates(),
        !without(s, k).contains(k),
        forall|x: Seq<char>| x != k ==> (without(s, k).contains(x) <==> s.contains(x)),
    decreases s.len(),
{
    if s.len() > 0 {
        let t = s.drop_last();
        assert(t.no_duplicates()) by {
            assert forall|a: int, b: int| 0 <= a < t.len() && 0 <= b < t.len() && a != b implies t[a] != t[b] by {
                assert(s[a] != s[b]);
            }
        }
        lemma_without(t, k);
        assert forall|x: Seq<char>| #[trigger] s.contains(x) <==> (t.contains(x) || x == s.last()) by {
            if s.contains(x) {
                let i = choose|i: int| 0 <= i < s.len() && s[i] == x;
                if i < t.len() {
                    assert(t[i] == x);
                }
            }
            if t.contains(x) {
                let i = choose|i: int| 0 <= i < t.len() && t[i] == x;
                assert(s[i] == x);
            }
        }
        if s.last() != k {
            let w = without(t, k);
            assert(!t.contains(s.last())) by {
                if t.contains(s.last()) {
                    let i = choose|i: int| 0 <= i < t.len() && t[i] == s.last();
                    assert(s[i] == s[s.len() - 1]);
                }
            }
            assert forall|x: Seq<char>| #[trigger] w.push(s.last()).contains(x) <==> (w.contains(x) || x == s.last()) by {
                if w.push(s.last()).contains(x) {
                    let i = choose|i: int| 0 <= i < w.len() + 1 && w.push(s.last())[i] == x;
                    if i < w.len() {
                        assert(w[i] == x);
                    }
                }
                if w.contains(x) {
                    let i = choose|i: int| 0 <= i < w.len() && w[i] == x;
                    assert(w.push(s.last())[i] == x);
                }
                if x == s.last() {
                    assert(w.push(s.last())[w.len() as int] == x);
                }
            }
            assert forall|a: int, b: int| 0 <= a < w.len() + 1 && 0 <= b < w.len() + 1 && a != b implies w.push(s.last())[a] != w.push(s.last())[b] by {
                if a == w.len() {
                    assert(w.contains(w[b]));
                } else if b == w.len() {
                    assert(w.contains(w[a]));
                }
            }
        }
    }
}

// ---------------------------------------------------------------------------
// Laws of the model
// ---------------------------------------------------------------------------

/// The pinned part of the items has one item per pinned launcher, in order.
pub proof fn lemma_pinned_items(m: DockModelView, store: Seq<EntryView>, pinned: Seq<Seq<char>>)
    ensures
        pinned_items(m, store, pinned).len() == pinned.len(),
        forall|i: int| 0 <= i < pinned.len() ==> #[trigger] pinned_items(m, store, pinned)[i] == pinned_item(m, store, pinned[i]),
    decreases pinned.len(),
{
    if pinned.len() > 0 {
        lemma_pinned_items(m, store, pinned.drop_last());
        assert forall|i: int| 0 <= i < pinned.len() implies #[trigger] pinned_items(m, store, pinned)[i] == pinned_item(m, store, pinned[i]) by {
            if i < pinned.len() - 1 {
                assert(pinned.drop_last()[i] == pinned[i]);
            }
        }
    }
}

/// Pinned launchers come first on the dock, in the order they were pinned.
pub proof fn law_pinned_first(m: DockModelView, store: Seq<EntryView>, pinned: Seq<Seq<char>>)
    ensures
        dock_items(m, store, pinned).len() >= pinned.len(),
        forall|i: int| 0 <= i < pinned.len() ==> (#[trigger] dock_items(m, store, pinned)[i]).key == pinned[i],
{
    lemma_pinned_items(m, store, pinned);
    assert forall|i: int| 0 <= i < pinned.len() implies (#[trigger] dock_items(m, store, pinned)[i]).key == pinned[i] by {
        assert(dock_items(m, store, pinned)[i] == pinned_item(m, store, pinned[i]));
    }
}

/// The windows an item lists for application `k` are its open windows, each once, in
/// ascending id order.
pub proof fn law_windows_ascending(keys: Map<ToplevelId, Seq<char>>, k: Seq<char>)
    ensures
        forall|a: int, b: int| 0 <= a < b < ids_for_key(keys, k).len() ==> #[trigger] ids_for_key(keys, k)[a] < #[trigger] ids_for_key(keys, k)[b],
        forall|id: ToplevelId| #[trigger] ids_for_key(keys, k).contains(id) <==> keys.contains_key(id) && keys[id] == k,
{
    lemma_ids_for_key(keys, k);
}

/// The running items list the applications of `order` that are not pinned and have windows,
/// each once when `order` has no duplicates.
pub proof fn lemma_running_items(m: DockModelView, store: Seq<EntryView>, pinned: Seq<Seq<char>>, order: Seq<Seq<char>>)
    ensures
        forall|a: int| 0 <= a < running_items(m, store, pinned, order).len() ==> {
            let it = #[trigger] running_items(m, store, pinned, order)[a];
            &&& order.contains(it.key)
            &&& !pinned.contains(it.key)
            &&& it == running_item(m, store, it.key)
            &&& it.windows.len() > 0
        },
        forall|q: int| 0 <= q < order.len() && !pinned.contains(#[trigger] order[q]) && ids_for_key(m.keys, order[q]).len() > 0
            ==> running_items(m, store, pinned, order).contains(running_item(m, store, order[q])),
        order.no_duplicates() ==> forall|a: int, b: int| 0 <= a < b < running_items(m, store, pinned, order).len()
            ==> (#[trigger] running_items(m, store, pinned, order)[a]).key != (#[trigger] running_items(m, store, pinned, order)[b]).key,
    decreases order.len(),
{
    if order.len() > 0 {
        let o = order.drop_last();
        lemma_running_items(m, store, pinned, o);
        let r0 = running_items(m, store, pinned, o);
        let r = running_items(m, store, pinned, order);
        assert forall|x: Seq<char>| o.contains(x) implies order.contains(x) by {
            let j = choose|j: int| 0 <= j < o.len() && o[j] == x;
            assert(order[j] == x);
        }
        assert forall|a: int| 0 <= a < r.len() implies {
            let it = #[trigger] r[a];
            &&& order.contains(it.key)
            &&& !pinned.contains(it.key)
            &&& it == running_item(m, store, it.key)
            &&& it.windows.len() > 0
        } by {
            if a < r0.len() {
                assert(r[a] == r0[a]);
            } else {
                assert(order[order.len() - 1] == order.last());
            }
        }
        assert forall|q: int| 0 <= q < order.len() && !pinned.contains(#[trigger] order[q]) && ids_for_key(m.keys, order[q]).len() > 0
            implies r.contains(running_item(m, store, order[q])) by {
            if q < order.len() - 1 {
                assert(o[q] == order[q]);
                assert(r0.contains(running_item(m, store, o[q])));
                let x = choose|x: int| 0 <= x < r0.len() && r0[x] == running_item(m, store, o[q]);
                assert(r[x] == r0[x]);
            } else {
                assert(r[r0.len() as int] == running_item(m, store, order[q]));
            }
        }
        if order.no_duplicates() {
            assert(o.no_duplicates()) by {
                assert forall|a: int, b: int| 0 <= a < o.len() && 0 <= b < o.len() && a != b implies o[a] != o[b] by {
                    assert(order[a] != order[b]);
                }
            }
            assert forall|a: int, b: int| 0 <= a < b < r.len() implies (#[trigger] r[a]).key != (#[trigger] r[b]).key by {
                if b >= r0.len() {
                    assert(r[a] == r0[a]);
                    assert(o.contains(r0[a].key));
                    let j = choose|j: int| 0 <= j < o.len() && o[j] == r0[a].key;
                    assert(order[j] != order[order.len() - 1]);
                } else {
                    assert(r[a] == r0[a]);
                    assert(r[b] == r0[b]);
                }
            }
        }
    }
}

/// Every open window is shown by some item of the dock.
pub proof fn law_every_window_shown(m: DockModelView, store: Seq<EntryView>, pinned: Seq<Seq<char>>, id: ToplevelId)
    requires
        m.wf(),
        m.windows.contains_key(id),
    ensures
        exists|j: int| 0 <= j < dock_items(m, store, pinned).len()
            && (#[trigger] dock_items(m, store, pinned)[j]).windows.contains(id),
{
    let k = m.keys[id];
    let items = dock_items(m, store, pinned);
    lemma_ids_for_key(m.keys, k);
    assert(ids_for_key(m.keys, k).contains(id));
    lemma_pinned_items(m, store, pinned);
    if pinned.contains(k) {
        let j = choose|j: int| 0 <= j < pinned.len() && pinned[j] == k;
        assert(items[j] == pinned_item(m, store, k));
        assert(items[j].windows.contains(id));
    } else {
        assert(m.open_order.contains(k));
        let q = choose|q: int| 0 <= q < m.open_order.len() && m.open_order[q] == k;
        lemma_running_items(m, store, pinned, m.open_order);
        let r = running_items(m, store, pinned, m.open_order);
        assert(r.contains(running_item(m, store, m.open_order[q])));
        let y = choose|y: int| 0 <= y < r.len() && r[y] == running_item(m, store, k);
        let j = pinned.len() + y;
        assert(items[j] == r[y]);
        assert(items[j].windows.contains(id));
    }
}

/// No two items of the dock share a key when no launcher is pinned twice; every item that
/// is not a pinned launcher has windows.
pub proof fn law_items_distinct(m: DockModelView, store: Seq<EntryView>, pinned: Seq<Seq<char>>)
    requires
        m.wf(),
        pinned.no_duplicates(),
    ensures
        forall|a: int, b: int| 0 <= a < b < dock_items(m, store, pinned).len()
            ==> (#[trigger] dock_items(m, store, pinned)[a]).key != (#[trigger] dock_items(m, store, pinned)[b]).key,
        forall|a: int| pinned.len() <= a < dock_items(m, store, pinned).len()
            ==> (#[trigger] dock_items(m, store, pinned)[a]).windows.len() > 0,
{
    let items = dock_items(m, store, pinned);
    let n = pinned.len() as int;
    lemma_pinned_items(m, store, pinned);
    lemma_running_items(m, store, pinned, m.open_order);
    let r = running_items(m, store, pinned, m.open_order);
    assert forall|a: int, b: int| 0 <= a < b < items.len() implies (#[trigger] items[a]).key != (#[trigger] items[b]).key by {
        if b < n {
            assert(items[a].key == pinned[a]);
            assert(items[b].key == pinned[b]);
        } else if a < n {
            assert(items[a].key == pinned[a]);
            assert(items[b] == r[b - n]);
            assert(!pinned.contains(r[b - n].key));
        } else {
            assert(items[a] == r[a - n]);
            assert(items[b] == r[b - n]);
        }
    }
    assert forall|a: int| n <= a < items.len() implies (#[trigger] items[a]).windows.len() > 0 by {
        assert(items[a] == r[a - n]);
    }
}

/// Removing an absent key changes nothing; removing a key just appended undoes the append.
pub proof fn lemma_without_absent(s: Seq<Seq<char>>, k: Seq<char>)
    requires
        !s.contains(k),
    ensures
        without(s, k) == s,
        without(s.push(k), k) == s,
    decreases s.len(),
{
    if s.len() > 0 {
        let t = s.drop_last();
        assert(!t.contains(k)) by {
            if t.contains(k) {
                let j = choose|j: int| 0 <= j < t.len() && t[j] == k;
                assert(s[j] == k);
            }
        }
        lemma_without_absent(t, k);
        assert(s.last() != k) by {
            assert(s[s.len() - 1] == s.last());
        }
        assert(t.push(s.last()) =~= s);
    }
    assert(s.push(k).drop_last() =~= s);
}

/// Closing a window that was just opened restores the windows and their keys; the opening
/// order is restored too, unless the application's key was already in it with no window.
pub proof fn law_open_then_close(m0: DockModelView, m1: DockModelView, m2: DockModelView, info: ToplevelView, store: Seq<EntryView>)
    requires
        m0.wf(),
        !m0.windows.contains_key(info.id),
        upserted(m0, m1, info, store),
        removed(m1, m2, info.id),
    ensures
        m2.windows == m0.windows,
        m2.keys == m0.keys,
        !m0.open_order.contains(app_key(store, info.app_id)) || m0.keys.values().contains(app_key(store, info.app_id))
            ==> m2.open_order == m0.open_order,
{
    let k = app_key(store, info.app_id);
    assert(m2.windows =~= m0.windows);
    assert(!m0.keys.contains_key(info.id));
    assert(m2.keys =~= m0.keys);
    assert(m1.keys.contains_key(info.id));
    assert(m1.keys[info.id] == k);
    if !m0.open_order.contains(k) {
        assert(!m0.keys.values().contains(k)) by {
            if m0.keys.values().contains(k) {
                let j = choose|j: ToplevelId| #[trigger] m0.keys.contains_key(j) && m0.keys[j] == k;
                assert(m0.open_order.contains(m0.keys[j]));
            }
        }
        lemma_without_absent(m0.open_order, k);
    }
}


/// Recording the same window twice is the same as recording it once.
pub proof fn law_upsert_idempotent(m0: DockModelView, m1: DockModelView, m2: DockModelView, info: ToplevelView, store: Seq<EntryView>)
    requires
        upserted(m0, m1, info, store),
        upserted(m1, m2, info, store),
    ensures
        m2.windows == m1.windows,
        m2.keys == m1.keys,
        m2.open_order == m1.open_order,
{
    let k = app_key(store, info.app_id);
    assert(m2.windows =~= m1.windows);
    assert(m2.keys =~= m1.keys);
    assert(m1.open_order.contains(k)) by {
        if !m0.open_order.contains(k) {
            assert(m1.open_order[m1.open_order.len() - 1] == k);
        }
    }
}

/// Forgetting a window that is not open changes nothing.
pub proof fn law_remove_unknown(m0: DockModelView, m1: DockModelView, id: ToplevelId)
    requires
        m0.wf(),
        !m0.windows.contains_key(id),
        removed(m0, m1, id),
    ensures
        m1.windows == m0.windows,
        m1.keys == m0.keys,
        m1.open_order == m0.open_order,
{
    assert(m1.windows =~= m0.windows);
    assert(!m0.keys.contains_key(id));
    assert(m1.keys =~= m0.keys);
}


/// The items of two models with the same windows and keys are the same for the same
/// pinned launchers and opening order.
proof fn lemma_items_same_maps(ma: DockModelView, mb: DockModelView, store: Seq<EntryView>, pinned: Seq<Seq<char>>, order: Seq<Seq<char>>)
    requires
        ma.windows == mb.windows,
        ma.keys == mb.keys,
    ensures
        pinned_items(ma, store, pinned) == pinned_items(mb, store, pinned),
        running_items(ma, store, pinned, order) == running_items(mb, store, pinned, order),
    decreases pinned.len() + order.len(),
{
    if pinned.len() > 0 {
        lemma_items_same_maps(ma, mb, store, pinned.drop_last(), order);
    }
    if order.len() > 0 {
        lemma_items_same_maps(ma, mb, store, pinned, order.drop_last());
    }
}

/// Dropping from the opening order a key that shows no running item leaves the running
/// items as they are.
proof fn lemma_running_without(m: DockModelView, store: Seq<EntryView>, pinned: Seq<Seq<char>>, order: Seq<Seq<char>>, k: Seq<char>)
    requires
        pinned.contains(k) || ids_for_key(m.keys, k).len() == 0,
    ensures
        running_items(m, store, pinned, without(order, k)) == running_items(m, store, pinned, order),
    decreases order.len(),
{
    if order.len() > 0 {
        let o = order.drop_last();
        lemma_running_without(m, store, pinned, o, k);
        let w = without(o, k);
        if order.last() != k {
            assert(w.push(order.last()).drop_last() =~= w);
            assert(w.push(order.last()).last() == order.last());
        }
    }
}

/// Opening a window the dock did not track and closing it again leaves the dock's items
/// (for any pinned launchers and any desktop entries), its windows and every answer about
/// them as they were.
pub proof fn law_open_then_close_items(
    m0: DockModelView,
    m1: DockModelView,
    m2: DockModelView,
    info: ToplevelView,
    store: Seq<EntryView>,
    items_store: Seq<EntryView>,
    pinned: Seq<Seq<char>>,
)
    requires
        m0.wf(),
        !m0.windows.contains_key(info.id),
        upserted(m0, m1, info, store),
        removed(m1, m2, info.id),
    ensures
        dock_items(m2, items_store, pinned) == dock_items(m0, items_store, pinned),
        m2.windows == m0.windows,
        m2.keys == m0.keys,
        forall|id: ToplevelId| #[trigger] m2.is_activated(id) == m0.is_activated(id),
        forall|out: Option<Seq<char>>| #[trigger] m2.should_dodge(out) == m0.should_dodge(out),
{
    law_open_then_close(m0, m1, m2, info, store);
    let k = app_key(store, info.app_id);
    lemma_items_same_maps(m2, m0, items_store, pinned, m2.open_order);
    if m2.open_order != m0.open_order {
        assert(m0.open_order.contains(k));
        assert(!m0.keys.values().contains(k));
        assert(m1.open_order == m0.open_order);
        assert(m1.keys.contains_key(info.id) && m1.keys[info.id] == k);
        assert(!m2.keys.values().contains(k));
        assert(m2.open_order == without(m0.open_order, k));
        lemma_ids_for_key(m0.keys, k);
        assert(ids_for_key(m0.keys, k).len() == 0) by {
            if ids_for_key(m0.keys, k).len() > 0 {
                let x = ids_for_key(m0.keys, k)[0];
                assert(ids_for_key(m0.keys, k).contains(x));
                assert(m0.keys.contains_key(x) && m0.keys[x] == k);
            }
        }
        lemma_running_without(m0, items_store, pinned, m0.open_order, k);
    }
}


/// Each item is named after the desktop entry whose id is its key, and launches that
/// entry. Without such an entry, a pinned launcher is named by its key, and a running
/// application by the application id of its lowest-numbered window.
pub proof fn law_items_named_by_entry(m: DockModelView, store: Seq<EntryView>, pinned: Seq<Seq<char>>)
    requires
        m.wf(),
    ensures
        forall|a: int| 0 <= a < dock_items(m, store, pinned).len() ==> {
            let it = #[trigger] dock_items(m, store, pinned)[a];
            match entry_with_id(store, it.key) {
                Some(e) => it.name == e.name && it.launch_desktop_id == Some(e.id),
                None => it.launch_desktop_id is None && if a < pinned.len() {
                    it.name == it.key
                } else {
                    it.windows.len() > 0 && m.windows.contains_key(it.windows[0])
                        && it.name == m.windows[it.windows[0]].app_id
                },
            }
        },
        forall|a: int| 0 <= a < pinned.len() ==> (#[trigger] dock_items(m, store, pinned)[a]).key == pinned[a],
{
    law_pinned_first(m, store, pinned);
    lemma_pinned_items(m, store, pinned);
    lemma_running_items(m, store, pinned, m.open_order);
    let items = dock_items(m, store, pinned);
    let r = running_items(m, store, pinned, m.open_order);
    let n = pinned.len() as int;
    assert forall|a: int| 0 <= a < items.len() implies {
        let it = #[trigger] items[a];
        match entry_with_id(store, it.key) {
            Some(e) => it.name == e.name && it.launch_desktop_id == Some(e.id),
            None => it.launch_desktop_id is None && if a < pinned.len() {
                it.name == it.key
            } else {
                it.windows.len() > 0 && m.windows.contains_key(it.windows[0])
                    && it.name == m.windows[it.windows[0]].app_id
            },
        }
    } by {
        if a < n {
            assert(items[a] == pinned_item(m, store, pinned[a]));
        } else {
            assert(items[a] == r[a - n]);
            let k = r[a - n].key;
            assert(r[a - n] == running_item(m, store, k));
            lemma_ids_for_key(m.keys, k);
            let ids = ids_for_key(m.keys, k);
            assert(ids.len() > 0);
            assert(ids.contains(ids[0]));
            assert(m.keys.contains_key(ids[0]));
            assert(m.windows.contains_key(ids[0]));
        }
    }
}

}
