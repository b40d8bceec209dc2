//! What the dock does in answer to the user and to the compositor: clicks on
//! icons, the context menu, pinning, tooltips, running indicators, and when the
//! dock hides.

use vstd::prelude::*;
use crate::config::HideMode;
use crate::desktop::{entry_with_id, DesktopEntryStore, EntryView};
use crate::model::{dock_items, item_views, removed, upserted, DockItem, DockItemView, DockModel, DockModelView};
use crate::text::{string_from, strings};
use crate::toplevel::{Command, ToplevelEvent, ToplevelEventView, ToplevelId};

verus! {

/// The first item of `items` with key `key`.
pub open spec fn first_item(items: Seq<DockItemView>, key: Seq<char>) -> Option<DockItemView>
    decreases items.len(),
{
    if items.len() == 0 {
        None
    } else if items[0].key == key {
        Some(items[0])
    } else {
        first_item(items.drop_first(), key)
    }
}

/// The first of `ws` that is not active.
pub open spec fn first_inactive(m: DockModelView, ws: Seq<ToplevelId>) -> Option<ToplevelId>
    decreases ws.len(),
{
    if ws.len() == 0 {
        None
    } else if !m.is_activated(ws[0]) {
        Some(ws[0])
    } else {
        first_inactive(m, ws.drop_first())
    }
}

/// The window a click brings forward: the first that is not active, else the first.
pub open spec fn click_target(m: DockModelView, ws: Seq<ToplevelId>) -> ToplevelId {
    match first_inactive(m, ws) {
        Some(id) => id,
        None => ws[0],
    }
}

/// What a click on an icon does.
#[derive(Debug, Clone)]
pub enum ClickAction {
    Nothing,
    /// Launch the desktop entry with this id.
    Launch(String),
    /// Send this command to the compositor.
    Send(Command),
}

/// The mathematical value of a [`ClickAction`].
pub enum ClickActionView {
    Nothing,
    Launch(Seq<char>),
    Send(Command),
}

impl View for ClickAction {
    type V = ClickActionView;

    open spec fn view(&self) -> ClickActionView {
        match self {
            ClickAction::Nothing => ClickActionView::Nothing,
            ClickAction::Launch(id) => ClickActionView::Launch(id@),
            ClickAction::Send(c) => ClickActionView::Send(*c),
        }
    }
}

/// What clicking the icon with key `key` (launching `launch_id`) does: launch the entry
/// when the application has no window; when one of its windows is active, bring forward
/// another of them, or minimize it when it is the only one; otherwise bring forward its
/// first inactive window.
pub open spec fn click_outcome(m: DockModelView, store: Seq<EntryView>, pinned: Seq<Seq<char>>, key: Seq<char>, launch_id: Option<Seq<char>>) -> ClickActionView {
    match first_item(dock_items(m, store, pinned), key) {
        None => ClickActionView::Nothing,
        Some(item) => {
            let ws = item.windows;
            if ws.len() == 0 {
                match launch_id {
                    Some(id) => if entry_with_id(store, id) is Some {
                        ClickActionView::Launch(id)
                    } else {
                        ClickActionView::Nothing
                    },
                    None => ClickActionView::Nothing,
                }
            } else if exists|j: int| 0 <= j < ws.len() && m.is_activated(#[trigger] ws[j]) {
                if ws.len() > 1 {
                    ClickActionView::Send(Command::Activate(click_target(m, ws)))
                } else {
                    ClickActionView::Send(Command::Minimize(ws[0]))
                }
            } else {
                ClickActionView::Send(Command::Activate(click_target(m, ws)))
            }
        },
    }
}

/// Brings the facts about `first_inactive` over a window list step by step.
proof fn lemma_first_inactive_step(m: DockModelView, ws: Seq<ToplevelId>, i: int)
    requires
        0 <= i < ws.len(),
    ensures
        first_inactive(m, ws.skip(i)) == if !m.is_activated(ws[i]) {
            Some(ws[i])
        } else {
            first_inactive(m, ws.skip(i + 1))
        },
{
    assert(ws.skip(i)[0] == ws[i]);
    assert(ws.skip(i).drop_first() =~= ws.skip(i + 1));
}

/// Brings the facts about `first_item` over an item list step by step.
proof fn lemma_first_item_step(items: Seq<DockItemView>, key: Seq<char>, i: int)
    requires
        0 <= i < items.len(),
    ensures
        first_item(items.skip(i), key) == if items[i].key == key {
            Some(items[i])
        } else {
            first_item(items.skip(i + 1), key)
        },
{
    assert(items.skip(i)[0] == items[i]);
    assert(items.skip(i).drop_first() =~= items.skip(i + 1));
}

/// What clicking the icon with key `key` does; `launch_desktop_id` is the entry the icon
/// launches.
pub fn click_action(model: &DockModel, pinned: &[String], desktop: &DesktopEntryStore, key: &str, launch_desktop_id: Option<&str>) -> (r: ClickAction)
    ensures
        r@ == click_outcome(model@, desktop@, strings(pinned@), key@, match launch_desktop_id {
            Some(id) => Some(id@),
            None => None,
        }),
{
    let items = model.build_items(pinned, desktop);
    let ghost all = item_views(items@);
    let want = string_from(key);
    let mut i: usize = 0;
    assert(all.skip(0) =~= all);
    while i < items.len() && !(items[i].key == want)
        invariant
            i <= items.len(),
            all == item_views(items@),
            want@ == key@,
            first_item(all, key@) == first_item(all.skip(i as int), key@),
        decreases items.len() - i,
    {
        proof {
            lemma_first_item_step(all, key@, i as int);
        }
        assert(all[i as int] == items@[i as int]@);
        i += 1;
    }
    if i == items.len() {
        assert(all.skip(i as int) =~= Seq::<DockItemView>::empty());
        return ClickAction::Nothing;
    }
    proof {
        lemma_first_item_step(all, key@, i as int);
    }
    let item = &items[i];
    let ghost iv = item@;
    assert(all[i as int] == iv);
    assert(first_item(all, key@) == Some(iv));
    if item.windows.len() == 0 {
        match launch_desktop_id {
            Some(id) => {
                if desktop.get(id).is_some() {
                    return ClickAction::Launch(string_from(id));
                }
                return ClickAction::Nothing;
            },
            None => return ClickAction::Nothing,
        }
    }
    let ws = &item.windows;
    let mut j: usize = 0;
    assert(ws@.skip(0) =~= ws@);
    while j < ws.len() && model.is_activated(ws[j])
        invariant
            j <= ws.len(),
            first_inactive(model@, ws@) == first_inactive(model@, ws@.skip(j as int)),
        decreases ws.len() - j,
    {
        proof {
            lemma_first_inactive_step(model@, ws@, j as int);
        }
        j += 1;
    }
    let pick = if j < ws.len() {
        proof {
            lemma_first_inactive_step(model@, ws@, j as int);
        }
        ws[j]
    } else {
        assert(ws@.skip(j as int) =~= Seq::<ToplevelId>::empty());
        ws[0]
    };
    assert(pick == click_target(model@, ws@));
    if model.any_activated(ws.as_slice()) {
        if ws.len() > 1 {
            ClickAction::Send(Command::Activate(pick))
        } else {
            ClickAction::Send(Command::Minimize(ws[0]))
        }
    } else {
        ClickAction::Send(Command::Activate(pick))
    }
}

/// The position of the first `k` in `p`.
pub open spec fn position_of(p: Seq<Seq<char>>, k: Seq<char>) -> Option<int>
    decreases p.len(),
{
    if p.len() == 0 {
        None
    } else if p[0] == k {
        Some(0)
    } else {
        match position_of(p.drop_first(), k) {
            Some(i) => Some(i + 1),
            None => None,
        }
    }
}

/// The pinned launchers after the pin of `k` is toggled: its first occurrence removed, or
/// `k` appended when it was not pinned.
pub open spec fn toggled(p: Seq<Seq<char>>, k: Seq<char>) -> Seq<Seq<char>> {
    match position_of(p, k) {
        Some(i) => p.remove(i),
        None => p.push(k),
    }
}

/// `position_of` is the first position that holds `k`.
pub proof fn lemma_position_of(p: Seq<Seq<char>>, k: Seq<char>)
    ensures
        match position_of(p, k) {
            Some(i) => 0 <= i < p.len() && p[i] == k && forall|j: int| 0 <= j < i ==> p[j] != k,
            None => !p.contains(k),
        },
    decreases p.len(),
{
    if p.len() > 0 && p[0] != k {
        let t = p.drop_first();
        lemma_position_of(t, k);
        match position_of(t, k) {
            Some(i) => {
                assert(p[i + 1] == t[i]);
                assert forall|j: int| 0 <= j < i + 1 implies p[j] != k by {
                    if j > 0 {
                        assert(p[j] == t[j - 1]);
                    }
                }
            },
            None => {
                assert forall|j: int| 0 <= j < p.len() implies p[j] != k by {
                    if j > 0 {
                        assert(p[j] == t[j - 1]);
                        assert(!t.contains(k));
                    }
                }
            },
        }
    }
}

/// Pins `key` when it is not pinned; unpins its first occurrence otherwise.
pub fn toggle_pin(pinned: &mut Vec<String>, key: &str)
    ensures
        strings(final(pinned)@) == toggled(strings(old(pinned)@), key@),
{
    let ghost p = strings(pinned@);
    proof {
        lemma_position_of(p, key@);
    }
    let want = string_from(key);
    let mut i: usize = 0;
    while i < pinned.len()
        invariant
            i <= pinned.len(),
            p == strings(pinned@),
            p == strings(old(pinned)@),
            want@ == key@,
            forall|j: int| 0 <= j < i ==> p[j] != key@,
        decreases pinned.len() - i,
    {
        if pinned[i] == want {
            assert(p[i as int] == key@);
            proof {
                lemma_position_of(p, key@);
                assert(p.contains(key@));
                let x = position_of(p, key@)->0;
                assert(p[x] == key@);
                if x > i {
                    assert(p[i as int] != key@);
                }
                assert(x == i);
            }
            pinned.remove(i);
            assert(strings(pinned@) =~= p.remove(i as int));
            return;
        }
        i += 1;
    }
    pinned.push(want);
    assert(strings(pinned@) =~= p.push(key@));
}

/// A row of an icon's context menu.
#[derive(Debug, Clone, Copy, PartialEq, Eq, Structural)]
pub enum MenuRow {
    /// Run action `i` of the icon's desktop entry.
    Action(usize),
    Separator,
    Pin,
    Unpin,
    /// Close all of the icon's windows.
    Close,
}

/// The rows of the context menu of the icon with key `key`: the desktop entry's actions
/// followed by a separator (when it has any), then Pin or Unpin, then Close when the icon
/// has windows.
pub open spec fn menu_plan(store: Seq<EntryView>, launch_id: Option<Seq<char>>, key: Seq<char>, pinned: Seq<Seq<char>>, has_windows: bool) -> Seq<MenuRow> {
    let entry = match launch_id {
        Some(id) => entry_with_id(store, id),
        None => None,
    };
    let actions = match entry {
        Some(e) => if e.actions.len() > 0 {
            Seq::new(e.actions.len(), |i: int| MenuRow::Action(i as usize)).push(MenuRow::Separator)
        } else {
            Seq::empty()
        },
        None => Seq::empty(),
    };
    let pin = if pinned.contains(key) {
        MenuRow::Unpin
    } else {
        MenuRow::Pin
    };
    let close = if has_windows {
        seq![MenuRow::Close]
    } else {
        Seq::empty()
    };
    actions.push(pin) + close
}

/// The rows of the context menu of the icon with key `key`, which launches
/// `launch_desktop_id` and has the windows `windows`.
pub fn menu_rows(desktop: &DesktopEntryStore, launch_desktop_id: Option<&str>, key: &str, pinned: &[String], windows: &[ToplevelId]) -> (r: Vec<MenuRow>)
    ensures
        r@ == menu_plan(desktop@, match launch_desktop_id {
            Some(id) => Some(id@),
            None => None,
        }, key@, strings(pinned@), windows@.len() > 0),
{
    let mut rows: Vec<MenuRow> = Vec::new();
    let entry = match launch_desktop_id {
        Some(id) => desktop.get(id),
        None => None,
    };
    match entry {
        Some(e) => {
            if e.actions.len() > 0 {
                let mut i: usize = 0;
                while i < e.actions.len()
                    invariant
                        i <= e.actions.len(),
                        rows@ == Seq::new(i as nat, |x: int| MenuRow::Action(x as usize)),
                    decreases e.actions.len() - i,
                {
                    rows.push(MenuRow::Action(i));
                    i += 1;
                    assert(rows@ =~= Seq::new(i as nat, |x: int| MenuRow::Action(x as usize)));
                }
                assert(e@.actions.len() == e.actions.len());
                rows.push(MenuRow::Separator);
            }
        },
        None => {},
    }
    let ghost actions = rows@;
    let want = string_from(key);
    let mut is_pinned = false;
    let mut x: usize = 0;
    while x < pinned.len()
        invariant
            x <= pinned.len(),
            want@ == key@,
            is_pinned == exists|y: int| 0 <= y < x && strings(pinned@)[y] == key@,
        decreases pinned.len() - x,
    {
        if pinned[x] == want {
            assert(strings(pinned@)[x as int] == key@);
            is_pinned = true;
        }
        x += 1;
    }
    assert(is_pinned == strings(pinned@).contains(key@));
    rows.push(if is_pinned { MenuRow::Unpin } else { MenuRow::Pin });
    let ghost with_pin = rows@;
    if windows.len() > 0 {
        rows.push(MenuRow::Close);
        assert(rows@ =~= with_pin + seq![MenuRow::Close]);
    } else {
        assert(rows@ =~= with_pin + Seq::<MenuRow>::empty());
    }
    rows
}

/// The tooltip of an icon: the title of its only window, when that has one; else its name.
pub open spec fn tooltip_of(m: DockModelView, item: DockItemView) -> Seq<char> {
    if item.windows.len() == 1 && m.windows.contains_key(item.windows[0]) && m.windows[item.windows[0]].title.len() > 0 {
        m.windows[item.windows[0]].title
    } else {
        item.name
    }
}

/// The tooltip of `item`.
pub fn tooltip_text(model: &DockModel, item: &DockItem) -> (r: String)
    ensures
        r@ == tooltip_of(model@, item@),
{
    if item.windows.len() == 1 {
        match model.window_title(item.windows[0]) {
            Some(t) => return string_from(t),
            None => {},
        }
    }
    item.name.clone()
}

/// Whether an icon's running indicator shows (it has windows) and is highlighted (one of them
/// is active).
pub fn indicator_state(model: &DockModel, item: &DockItem) -> (r: (bool, bool))
    ensures
        r.0 == (item.windows@.len() > 0),
        r.1 == exists|i: int| 0 <= i < item.windows@.len() && model@.is_activated(#[trigger] item.windows@[i]),
{
    (item.windows.len() > 0, model.any_activated(item.windows.as_slice()))
}

/// The keys of `items`, in order.
pub fn item_keys(items: &Vec<DockItem>) -> (r: Vec<String>)
    ensures
        strings(r@) == item_views(items@).map_values(|i: DockItemView| i.key),
{
    let mut out: Vec<String> = Vec::new();
    let mut i: usize = 0;
    while i < items.len()
        invariant
            i <= items.len(),
            strings(out@) == item_views(items@).take(i as int).map_values(|x: DockItemView| x.key),
        decreases items.len() - i,
    {
        let ghost before = strings(out@);
        let k = items[i].key.clone();
        assert(k@ == item_views(items@)[i as int].key);
        out.push(k);
        assert(strings(out@) =~= before.push(k@));
        assert(item_views(items@).take(i + 1).map_values(|x: DockItemView| x.key) =~= item_views(
            items@,
        ).take(i as int).map_values(|x: DockItemView| x.key).push(k@));
        i += 1;
    }
    assert(item_views(items@).take(items.len() as int) =~= item_views(items@));
    out
}

/// Whether two lists of strings are equal.
pub fn same_strings(a: &Vec<String>, b: &Vec<String>) -> (r: bool)
    ensures
        r == (strings(a@) == strings(b@)),
{
    if a.len() != b.len() {
        assert(strings(a@).len() != strings(b@).len());
        return false;
    }
    let mut i: usize = 0;
    while i < a.len()
        invariant
            a.len() == b.len(),
            i <= a.len(),
            forall|j: int| 0 <= j < i ==> strings(a@)[j] == strings(b@)[j],
        decreases a.len() - i,
    {
        if a[i] != b[i] {
            assert(strings(a@)[i as int] != strings(b@)[i as int]);
            return false;
        }
        i += 1;
    }
    assert(strings(a@) =~= strings(b@));
    true
}

/// Takes a report of the window tracker into the model.
pub fn apply_event(model: &mut DockModel, event: ToplevelEvent, desktop: &DesktopEntryStore)
    ensures
        final(model)@.wf(),
        match event@ {
            ToplevelEventView::Updated(info) => upserted(old(model)@, final(model)@, info, desktop@),
            ToplevelEventView::Closed(id) => removed(old(model)@, final(model)@, id),
        },
{
    match event {
        ToplevelEvent::Updated(info) => model.upsert_window(info, desktop),
        ToplevelEvent::Closed(id) => model.remove_window(id),
    }
}

/// Whether the dock hides shortly after the pointer leaves it: once started, with no menu
/// open, in Timed mode or in Maximized mode while dodging.
pub fn should_schedule_hide(started: bool, menu_visible: bool, hide_mode: HideMode, dodging: bool) -> (r: bool)
    ensures
        r == (started && !menu_visible && (hide_mode == HideMode::Timed || (hide_mode
            == HideMode::Maximized && dodging))),
{
    if !started || menu_visible {
        return false;
    }
    match hide_mode {
        HideMode::Disabled => false,
        HideMode::Maximized => dodging,
        HideMode::Timed => true,
    }
}

/// Whether the dock hides once it has started up.
pub fn hides_at_startup(hide_mode: HideMode, dodging: bool) -> (r: bool)
    ensures
        r == (hide_mode == HideMode::Timed || (hide_mode == HideMode::Maximized && dodging)),
{
    match hide_mode {
        HideMode::Disabled => false,
        HideMode::Maximized => dodging,
        HideMode::Timed => true,
    }
}

/// What to do when the dodge condition is evaluated again.
#[derive(Debug, Clone, Copy, PartialEq, Eq, Structural)]
pub enum DodgeAction {
    /// Nothing changes.
    Keep,
    /// Remember the new condition only (the dock has not started yet).
    Record,
    /// Remember it, raise the dock above windows and hide it.
    Hide,
    /// Remember it, show the dock and put it back below overlays.
    Show,
}

/// What to do when the dodge condition becomes `now` while it was `dodging`: only the
/// Maximized mode dodges; a change before start-up is only remembered.
pub fn dodge_action(hide_mode: HideMode, dodging: bool, now: bool, started: bool) -> (r: DodgeAction)
    ensures
        r == if hide_mode != HideMode::Maximized || now == dodging {
            DodgeAction::Keep
        } else if !started {
            DodgeAction::Record
        } else if now {
            DodgeAction::Hide
        } else {
            DodgeAction::Show
        },
{
    if hide_mode != HideMode::Maximized || now == dodging {
        DodgeAction::Keep
    } else if !started {
        DodgeAction::Record
    } else if now {
        DodgeAction::Hide
    } else {
        DodgeAction::Show
    }
}

// ---------------------------------------------------------------------------
// Laws of the dock's behaviour
// ---------------------------------------------------------------------------

/// Pinning a launcher and unpinning it again leaves the pinned list as it was.
pub proof fn law_pin_then_unpin(p: Seq<Seq<char>>, k: Seq<char>)
    requires
        !p.contains(k),
    ensures
        toggled(toggled(p, k), k) == p,
{
    lemma_position_of(p, k);
    let q = p.push(k);
    lemma_position_of(q, k);
    match position_of(q, k) {
        Some(x) => {
            if x < p.len() {
                assert(q[x] == p[x]);
            }
            assert(x == p.len());
            assert(q.remove(x) =~= p);
        },
        None => {
            assert(q[p.len() as int] == k);
        },
    }
}

/// Toggling a pin pins an unpinned launcher and unpins a pinned one.
pub proof fn law_toggle_flips(p: Seq<Seq<char>>, k: Seq<char>)
    requires
        p.no_duplicates(),
    ensures
        toggled(p, k).contains(k) == !p.contains(k),
{
    lemma_position_of(p, k);
    match position_of(p, k) {
        Some(x) => {
            let r = p.remove(x);
            if r.contains(k) {
                let j = choose|j: int| 0 <= j < r.len() && r[j] == k;
                if j < x {
                    assert(p[j] == k);
                } else {
                    assert(p[j + 1] == k);
                    assert(p[x] == p[j + 1]);
                }
            }
        },
        None => {
            assert(p.push(k)[p.len() as int] == k);
        },
    }
}

/// The window `first_inactive` picks is one of the listed windows.
proof fn lemma_first_inactive_member(m: DockModelView, ws: Seq<ToplevelId>)
    ensures
        first_inactive(m, ws) matches Some(id) ==> ws.contains(id),
    decreases ws.len(),
{
    if ws.len() > 0 && m.is_activated(ws[0]) {
        let t = ws.drop_first();
        lemma_first_inactive_member(m, t);
        if first_inactive(m, t) is Some {
            let id = first_inactive(m, t)->0;
            let j = choose|j: int| 0 <= j < t.len() && t[j] == id;
            assert(ws[j + 1] == id);
        }
    } else if ws.len() > 0 {
        assert(ws.contains(ws[0]));
    }
}

/// A click only ever acts on windows of the icon that was clicked.
pub proof fn law_click_targets_own_windows(m: DockModelView, store: Seq<EntryView>, pinned: Seq<Seq<char>>, key: Seq<char>, launch_id: Option<Seq<char>>)
    ensures
        click_outcome(m, store, pinned, key, launch_id) matches ClickActionView::Send(c) ==> ({
            let item = first_item(dock_items(m, store, pinned), key)->0;
            let id = match c {
                Command::Activate(i) => i,
                Command::Minimize(i) => i,
                Command::Close(i) => i,
            };
            item.windows.contains(id)
        }),
{
    match first_item(dock_items(m, store, pinned), key) {
        Some(item) => {
            let ws = item.windows;
            if ws.len() > 0 {
                lemma_first_inactive_member(m, ws);
                assert(ws.contains(ws[0]));
            }
        },
        None => {},
    }
}

/// The commands that close each of `windows`, in order.
pub fn close_commands(windows: &[ToplevelId]) -> (r: Vec<Command>)
    ensures
        r@ == windows@.map_values(|id: ToplevelId| Command::Close(id)),
{
    let mut out: Vec<Command> = Vec::new();
    let mut i: usize = 0;
    while i < windows.len()
        invariant
            i <= windows.len(),
            out@ == windows@.take(i as int).map_values(|id: ToplevelId| Command::Close(id)),
        decreases windows.len() - i,
    {
        out.push(Command::Close(windows[i]));
        i += 1;
        assert(out@ =~= windows@.take(i as int).map_values(|id: ToplevelId| Command::Close(id)));
    }
    assert(windows@.take(windows.len() as int) =~= windows@);
    out
}

/// Whether a process command line (arguments separated by NUL bytes) holds the argument
/// `--config`, which marks the settings window.
pub open spec fn has_config_flag(cmdline: Seq<u8>) -> bool {
    exists|a: int| #[trigger] config_flag_at(cmdline, a)
}

/// Whether the argument that starts at byte `a` of `cmdline` is `--config`.
pub open spec fn config_flag_at(cmdline: Seq<u8>, a: int) -> bool {
    &&& 0 <= a
    &&& a + 8 <= cmdline.len()
    &&& a == 0 || cmdline[a - 1] == 0u8
    &&& a + 8 == cmdline.len() || cmdline[a + 8] == 0u8
    &&& cmdline.subrange(a, a + 8) == seq![45u8, 45u8, 99u8, 111u8, 110u8, 102u8, 105u8, 103u8]
}

/// Whether a process command line marks the settings window.
pub fn is_config_cmdline(cmdline: &[u8]) -> (r: bool)
    ensures
        r == has_config_flag(cmdline@),
{
    let flag: [u8; 8] = [45u8, 45u8, 99u8, 111u8, 110u8, 102u8, 105u8, 103u8];
    let ghost f = seq![45u8, 45u8, 99u8, 111u8, 110u8, 102u8, 105u8, 103u8];
    assert(flag@ =~= f);
    let n = cmdline.len();
    let mut a: usize = 0;
    while n >= 8 && a <= n - 8
        invariant
            n == cmdline@.len(),
            flag@ == f,
            f == seq![45u8, 45u8, 99u8, 111u8, 110u8, 102u8, 105u8, 103u8],
            forall|x: int| 0 <= x < a ==> !#[trigger] config_flag_at(cmdline@, x),
        decreases n - a,
    {
        let starts = a == 0 || cmdline[a - 1] == 0;
        let ends = a + 8 == n || cmdline[a + 8] == 0;
        if starts && ends {
            let mut j: usize = 0;
            while j < 8 && cmdline[a + j] == flag[j]
                invariant
                    j <= 8,
                    a + 8 <= n == cmdline@.len(),
                    a == 0 || cmdline@[a - 1] == 0u8,
                    a + 8 == n || cmdline@[a + 8] == 0u8,
                    flag@ == f,
                    forall|y: int| 0 <= y < j ==> cmdline@[a + y] == f[y],
                decreases 8 - j,
            {
                j += 1;
            }
            if j == 8 {
                assert(cmdline@.subrange(a as int, a + 8) =~= f);
                assert(config_flag_at(cmdline@, a as int));
                return true;
            } else {
                assert(cmdline@.subrange(a as int, a + 8)[j as int] != f[j as int]);
            }
        }
        assert(!config_flag_at(cmdline@, a as int));
        a += 1;
    }
    proof {
        assert forall|x: int| !#[trigger] config_flag_at(cmdline@, x) by {
            if x >= a && config_flag_at(cmdline@, x) {
                assert(x + 8 <= n);
            }
        }
    }
    false
}


/// The context menu lists every action of the icon's desktop entry, in order, each once
/// (followed by a separator when there is any), then Pin or Unpin, then Close exactly when
/// the icon has windows.
pub proof fn law_menu_lists_every_action(store: Seq<EntryView>, launch_id: Option<Seq<char>>, key: Seq<char>, pinned: Seq<Seq<char>>, has_windows: bool)
    ensures
        ({
            let rows = menu_plan(store, launch_id, key, pinned, has_windows);
            let n: int = match launch_id {
                Some(id) => match entry_with_id(store, id) {
                    Some(e) => e.actions.len() as int,
                    None => 0,
                },
                None => 0,
            };
            let sep: int = if n > 0 { 1 } else { 0 };
            &&& rows.len() == n + sep + 1 + if has_windows { 1int } else { 0 }
            &&& forall|i: int| 0 <= i < n ==> rows[i] == MenuRow::Action(i as usize)
            &&& n > 0 ==> rows[n] == MenuRow::Separator
            &&& rows[n + sep] == if pinned.contains(key) { MenuRow::Unpin } else { MenuRow::Pin }
            &&& has_windows ==> rows[n + sep + 1] == MenuRow::Close
            &&& forall|i: int| 0 <= i < rows.len() && (rows[i] is Action) ==> i < n
        }),
{
}


/// When some listed window is not active, `first_inactive` finds one that is not active.
proof fn lemma_first_inactive_found(m: DockModelView, ws: Seq<ToplevelId>)
    ensures
        (exists|j: int| 0 <= j < ws.len() && !m.is_activated(#[trigger] ws[j])) ==> (first_inactive(m, ws) matches Some(x)
            && !m.is_activated(x) && ws.contains(x)),
    decreases ws.len(),
{
    if ws.len() > 0 {
        if !m.is_activated(ws[0]) {
            assert(ws.contains(ws[0]));
        } else {
            let t = ws.drop_first();
            lemma_first_inactive_found(m, t);
            if exists|j: int| 0 <= j < ws.len() && !m.is_activated(#[trigger] ws[j]) {
                let j = choose|j: int| 0 <= j < ws.len() && !m.is_activated(#[trigger] ws[j]);
                assert(j > 0);
                assert(t[j - 1] == ws[j]);
                let x = first_inactive(m, t)->0;
                let k = choose|k: int| 0 <= k < t.len() && t[k] == x;
                assert(ws[k + 1] == x);
            }
        }
    }
}

/// A click never minimizes unless the icon has a single window and that window is active;
/// when none of the icon's windows is active, the click brings one of them forward; when
/// the click brings a window forward and some of the icon's windows are not active, the
/// window it brings forward is one that is not active.
pub proof fn law_click_activates_unfocused(m: DockModelView, store: Seq<EntryView>, pinned: Seq<Seq<char>>, key: Seq<char>, launch_id: Option<Seq<char>>)
    ensures
        ({
            let outcome = click_outcome(m, store, pinned, key, launch_id);
            let found = first_item(dock_items(m, store, pinned), key);
            &&& outcome matches ClickActionView::Send(Command::Minimize(x)) ==> (found matches Some(item)
                && item.windows.len() == 1 && item.windows[0] == x && m.is_activated(x))
            &&& (found matches Some(item) && item.windows.len() > 0
                && forall|j: int| 0 <= j < item.windows.len() ==> !m.is_activated(#[trigger] item.windows[j]))
                ==> (outcome matches ClickActionView::Send(Command::Activate(x)) && found->0.windows.contains(x))
            &&& (outcome matches ClickActionView::Send(Command::Activate(x)) && found matches Some(item)
                && exists|j: int| 0 <= j < item.windows.len() && !m.is_activated(#[trigger] item.windows[j]))
                ==> !m.is_activated(outcome->Send_0->Activate_0)
        }),
{
    match first_item(dock_items(m, store, pinned), key) {
        Some(item) => {
            let ws = item.windows;
            lemma_first_inactive_found(m, ws);
            lemma_first_inactive_member(m, ws);
            if ws.len() > 0 {
                assert(ws.contains(ws[0]));
                if forall|j: int| 0 <= j < ws.len() ==> !m.is_activated(#[trigger] ws[j]) {
                    assert(!m.is_activated(ws[0]));
                }
            }
        },
        None => {},
    }
}

}
