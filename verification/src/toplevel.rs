//! Windows reported by the compositor (wlr-foreign-toplevel-management): the
//! information the dock keeps about each, the events that reach the dock, the
//! commands it sends back, and the bookkeeping that turns the protocol's
//! per-property events into whole window updates.

use std::collections::HashMap;
use vstd::prelude::*;
use crate::text::strings;

verus! {

/// The compositor's id of a window.
pub type ToplevelId = u32;

/// What the dock knows of one window.
#[derive(Debug, Clone)]
pub struct ToplevelInfo {
    pub id: ToplevelId,
    pub app_id: String,
    pub title: String,
    pub activated: bool,
    pub maximized: bool,
    pub fullscreen: bool,
    /// Names of the outputs the window is shown on (empty when unknown).
    pub outputs: Vec<String>,
}

/// The mathematical value of a [`ToplevelInfo`].
pub struct ToplevelView {
    pub id: ToplevelId,
    pub app_id: Seq<char>,
    pub title: Seq<char>,
    pub activated: bool,
    pub maximized: bool,
    pub fullscreen: bool,
    pub outputs: Seq<Seq<char>>,
}

impl View for ToplevelInfo {
    type V = ToplevelView;

    open spec fn view(&self) -> ToplevelView {
        ToplevelView {
            id: self.id,
            app_id: self.app_id@,
            title: self.title@,
            activated: self.activated,
            maximized: self.maximized,
            fullscreen: self.fullscreen,
            outputs: strings(self.outputs@),
        }
    }
}

/// What the window tracker tells the dock.
#[derive(Debug, Clone)]
pub enum ToplevelEvent {
    /// A window appeared or changed.
    Updated(ToplevelInfo),
    /// A window went away.
    Closed(ToplevelId),
}

/// What the dock asks the compositor to do with a window.
#[derive(Debug, Clone, Copy, PartialEq, Eq, Structural)]
pub enum Command {
    Activate(ToplevelId),
    Minimize(ToplevelId),
    Close(ToplevelId),
}

/// The state flags of a window.
#[derive(Debug, Clone, Copy, PartialEq, Eq, Structural)]
pub struct StateFlags {
    pub maximized: bool,
    pub activated: bool,
    pub fullscreen: bool,
}

/// The flags that a state array holding `values` sets: wire value 0 is maximized, 2 activated
/// and 3 fullscreen; other values (1 is minimized) are ignored.
pub open spec fn flags_of(values: Seq<u32>) -> StateFlags {
    StateFlags {
        maximized: values.contains(0u32),
        activated: values.contains(2u32),
        fullscreen: values.contains(3u32),
    }
}

/// The flags set by a window's state array.
pub fn state_flags(values: &Vec<u32>) -> (r: StateFlags)
    ensures
        r == flags_of(values@),
{
    let mut maximized = false;
    let mut activated = false;
    let mut fullscreen = false;
    let mut i: usize = 0;
    while i < values.len()
        invariant
            i <= values.len(),
            maximized == values@.take(i as int).contains(0u32),
            activated == values@.take(i as int).contains(2u32),
            fullscreen == values@.take(i as int).contains(3u32),
        decreases values.len() - i,
    {
        let v = values[i];
        proof {
            let pre = values@.take(i as int);
            let post = values@.take(i + 1);
            assert(post =~= pre.push(v));
            assert forall|x: u32| post.contains(x) <==> pre.contains(x) || x == v by {
                if post.contains(x) {
                    let k = choose|k: int| 0 <= k < post.len() && post[k] == x;
                    if k < pre.len() {
                        assert(pre[k] == x);
                    }
                }
                if pre.contains(x) {
                    let k = choose|k: int| 0 <= k < pre.len() && pre[k] == x;
                    assert(post[k] == x);
                }
                if x == v {
                    assert(post[i as int] == x);
                }
            }
        }
        if v == 0 {
            maximized = true;
        } else if v == 2 {
            activated = true;
        } else if v == 3 {
            fullscreen = true;
        }
        i += 1;
    }
    assert(values@.take(values.len() as int) =~= values@);
    StateFlags { maximized, activated, fullscreen }
}

/// The little-endian value of four bytes.
pub open spec fn u32_le(b: Seq<u8>) -> int {
    b[0] + 256 * b[1] + 65536 * b[2] + 16777216 * b[3]
}

/// The big-endian value of four bytes.
pub open spec fn u32_be(b: Seq<u8>) -> int {
    b[3] + 256 * b[2] + 65536 * b[1] + 16777216 * b[0]
}

/// Calls `u32::from_ne_bytes`, which reads four bytes in the byte order of the machine. The
/// contract says the result is their little-endian or their big-endian value; which one
/// depends on the machine and is left unsaid.
#[verifier::external_body]
fn native_u32(bytes: [u8; 4]) -> (r: u32)
    ensures
        r == u32_le(bytes@) || r == u32_be(bytes@),
{
    u32::from_ne_bytes(bytes)
}

/// The values of a window's state array (whole 4-byte words in the machine's byte order; a
/// trailing partial word is ignored).
pub fn state_values(raw: &[u8]) -> (r: Vec<u32>)
    ensures
        r.len() == raw.len() / 4,
        forall|k: int| 0 <= k < r.len() ==> {
            let b = raw@.subrange(4 * k, 4 * k + 4);
            #[trigger] r@[k] == u32_le(b) || r@[k] == u32_be(b)
        },
{
    let mut out: Vec<u32> = Vec::new();
    let n = raw.len() / 4;
    let mut k: usize = 0;
    while k < n
        invariant
            n == raw.len() / 4,
            k <= n,
            out.len() == k,
            forall|j: int| 0 <= j < k ==> {
                let b = raw@.subrange(4 * j, 4 * j + 4);
                #[trigger] out@[j] == u32_le(b) || out@[j] == u32_be(b)
            },
        decreases n - k,
    {
        let bytes: [u8; 4] = [raw[4 * k], raw[4 * k + 1], raw[4 * k + 2], raw[4 * k + 3]];
        let v = native_u32(bytes);
        assert(bytes@ =~= raw@.subrange(4 * k as int, 4 * k + 4));
        out.push(v);
        k += 1;
    }
    out
}

/// What the compositor says of one window, one property at a time.
#[derive(Debug, Clone)]
pub enum HandleEvent {
    Title(String),
    AppId(String),
    State(StateFlags),
    /// The properties sent so far form a consistent state.
    Done,
    Closed,
}

/// Properties of a window gathered before its next `Done`.
#[derive(Debug, Clone)]
pub struct PendingToplevel {
    pub app_id: String,
    pub title: String,
    pub activated: bool,
    pub maximized: bool,
    pub fullscreen: bool,
}

/// The mathematical value of a [`PendingToplevel`].
pub struct PendingView {
    pub app_id: Seq<char>,
    pub title: Seq<char>,
    pub activated: bool,
    pub maximized: bool,
    pub fullscreen: bool,
}

impl View for PendingToplevel {
    type V = PendingView;

    open spec fn view(&self) -> PendingView {
        PendingView {
            app_id: self.app_id@,
            title: self.title@,
            activated: self.activated,
            maximized: self.maximized,
            fullscreen: self.fullscreen,
        }
    }
}

/// The properties of a window of which nothing was heard yet.
pub open spec fn empty_pending() -> PendingView {
    PendingView {
        app_id: Seq::empty(),
        title: Seq::empty(),
        activated: false,
        maximized: false,
        fullscreen: false,
    }
}

/// The properties known of window `id` in `m`, or none yet.
pub open spec fn pending_or_empty(m: Map<ToplevelId, PendingView>, id: ToplevelId) -> PendingView {
    if m.contains_key(id) {
        m[id]
    } else {
        empty_pending()
    }
}

/// The state of the tracker after `ev` for window `id`.
pub open spec fn tracker_next(m: Map<ToplevelId, PendingView>, id: ToplevelId, ev: HandleEventView) -> Map<ToplevelId, PendingView> {
    let p = pending_or_empty(m, id);
    match ev {
        HandleEventView::Title(t) => m.insert(id, PendingView { title: t, ..p }),
        HandleEventView::AppId(a) => m.insert(id, PendingView { app_id: a, ..p }),
        HandleEventView::State(f) => m.insert(
            id,
            PendingView {
                maximized: f.maximized,
                activated: f.activated,
                fullscreen: f.fullscreen,
                ..p
            },
        ),
        HandleEventView::Done => m,
        HandleEventView::Closed => m.remove(id),
    }
}

/// The mathematical value of a [`HandleEvent`].
pub enum HandleEventView {
    Title(Seq<char>),
    AppId(Seq<char>),
    State(StateFlags),
    Done,
    Closed,
}

impl View for HandleEvent {
    type V = HandleEventView;

    open spec fn view(&self) -> HandleEventView {
        match self {
            HandleEvent::Title(t) => HandleEventView::Title(t@),
            HandleEvent::AppId(a) => HandleEventView::AppId(a@),
            HandleEvent::State(f) => HandleEventView::State(*f),
            HandleEvent::Done => HandleEventView::Done,
            HandleEvent::Closed => HandleEventView::Closed,
        }
    }
}

/// The window described by the gathered properties `p`.
pub open spec fn info_of(id: ToplevelId, p: PendingView) -> ToplevelView {
    ToplevelView {
        id,
        app_id: p.app_id,
        title: p.title,
        activated: p.activated,
        maximized: p.maximized,
        fullscreen: p.fullscreen,
        outputs: Seq::empty(),
    }
}

/// The mathematical value of a [`ToplevelEvent`].
pub enum ToplevelEventView {
    Updated(ToplevelView),
    Closed(ToplevelId),
}

impl View for ToplevelEvent {
    type V = ToplevelEventView;

    open spec fn view(&self) -> ToplevelEventView {
        match self {
            ToplevelEvent::Updated(i) => ToplevelEventView::Updated(i@),
            ToplevelEvent::Closed(id) => ToplevelEventView::Closed(*id),
        }
    }
}

/// What the dock is told after `ev` for window `id`: the gathered properties on `Done` (when
/// any were gathered), the window's end on `Closed`, nothing otherwise.
pub open spec fn tracker_output(m: Map<ToplevelId, PendingView>, id: ToplevelId, ev: HandleEventView) -> Option<ToplevelEventView> {
    match ev {
        HandleEventView::Done => if m.contains_key(id) {
            Some(ToplevelEventView::Updated(info_of(id, m[id])))
        } else {
            None
        },
        HandleEventView::Closed => Some(ToplevelEventView::Closed(id)),
        _ => None,
    }
}

/// Gathers the properties the compositor sends of each window and reports whole windows.
pub struct ToplevelTracker {
    pending: HashMap<ToplevelId, PendingToplevel>,
}

impl View for ToplevelTracker {
    type V = Map<ToplevelId, PendingView>;

    closed spec fn view(&self) -> Map<ToplevelId, PendingView> {
        self.pending@.map_values(|p: PendingToplevel| p@)
    }
}

impl ToplevelTracker {
    /// A tracker that knows no window.
    pub fn new() -> (t: Self)
        ensures
            t@ == Map::<ToplevelId, PendingView>::empty(),
    {
        let t = ToplevelTracker { pending: HashMap::new() };
        assert(t@ =~= Map::<ToplevelId, PendingView>::empty());
        t
    }

    /// Takes in one event of window `id` and says what the dock should learn from it.
    pub fn handle(&mut self, id: ToplevelId, event: HandleEvent) -> (r: Option<ToplevelEvent>)
        ensures
            final(self)@ == tracker_next(old(self)@, id, event@),
            match r {
                Some(e) => tracker_output(old(self)@, id, event@) == Some(e@),
                None => tracker_output(old(self)@, id, event@) is None,
            },
    {
        match event {
            HandleEvent::Done => {
                match self.pending.get(&id) {
                    Some(p) => {
                        let info = ToplevelInfo {
                            id,
                            app_id: p.app_id.clone(),
                            title: p.title.clone(),
                            activated: p.activated,
                            maximized: p.maximized,
                            fullscreen: p.fullscreen,
                            outputs: Vec::new(),
                        };
                        assert(info@.outputs =~= Seq::<Seq<char>>::empty());
                        Some(ToplevelEvent::Updated(info))
                    },
                    None => None,
                }
            },
            HandleEvent::Closed => {
                self.pending.remove(&id);
                assert(self@ =~= old(self)@.remove(id));
                Some(ToplevelEvent::Closed(id))
            },
            _ => {
                let mut p = match self.pending.get(&id) {
                    Some(q) => PendingToplevel {
                        app_id: q.app_id.clone(),
                        title: q.title.clone(),
                        activated: q.activated,
                        maximized: q.maximized,
                        fullscreen: q.fullscreen,
                    },
                    None => PendingToplevel {
                        app_id: String::new(),
                        title: String::new(),
                        activated: false,
                        maximized: false,
                        fullscreen: false,
                    },
                };
                assert(p@ == pending_or_empty(old(self)@, id));
                match event {
                    HandleEvent::Title(t) => {
                        p.title = t;
                    },
                    HandleEvent::AppId(a) => {
                        p.app_id = a;
                    },
                    HandleEvent::State(f) => {
                        p.maximized = f.maximized;
                        p.activated = f.activated;
                        p.fullscreen = f.fullscreen;
                    },
                    _ => {},
                }
                let ghost updated = p@;
                self.pending.insert(id, p);
                assert(self@ =~= old(self)@.insert(id, updated));
                None
            },
        }
    }
}

/// A window that closed is forgotten, and the dock is told so.
pub proof fn law_closed_forgets(m: Map<ToplevelId, PendingView>, id: ToplevelId)
    ensures
        !tracker_next(m, id, HandleEventView::Closed).contains_key(id),
        tracker_output(m, id, HandleEventView::Closed) == Some(ToplevelEventView::Closed(id)),
{
}

/// The update reported on `Done` carries the title last sent, with the other properties
/// gathered before.
pub proof fn law_done_reports_title(m: Map<ToplevelId, PendingView>, id: ToplevelId, t: Seq<char>)
    ensures
        tracker_output(tracker_next(m, id, HandleEventView::Title(t)), id, HandleEventView::Done)
            == Some(ToplevelEventView::Updated(info_of(id, PendingView { title: t, ..pending_or_empty(m, id) }))),
{
}


/// After a `State` event, the next `Done` reports exactly the flags that event carried,
/// whatever was reported of the window before, and keeps its title and application id.
pub proof fn law_state_then_done_reports_flags(m: Map<ToplevelId, PendingView>, id: ToplevelId, f: StateFlags)
    ensures
        tracker_output(tracker_next(m, id, HandleEventView::State(f)), id, HandleEventView::Done) matches Some(
            ToplevelEventView::Updated(info),
        ) && info.id == id && info.maximized == f.maximized && info.activated == f.activated
            && info.fullscreen == f.fullscreen && (m.contains_key(id) ==> info.title == m[id].title
            && info.app_id == m[id].app_id),
{
}

}
