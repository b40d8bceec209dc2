//! Desktop entries (`*.desktop` files): parsing, the store of known entries,
//! lookup of the entry that belongs to a running application, and the
//! command line that launches an entry.

use vstd::prelude::*;
use crate::text::{
    after_last, after_last_chars, str_is, string_from, strings, lowercase, lowercase_chars, trim_suffixes, trim_suffixes_chars,
    ascii_case_eq, char_vecs, chars_eq, chars_of, concat_chars, eq_ignore_ascii_case, find_char,
    first_index_of, split_chars, split_on, string_of, sub_chars, trim, trim_chars,
};

verus! {

/// An action of a desktop entry (a `[Desktop Action <id>]` group).
#[derive(Debug, Clone)]
pub struct DesktopAction {
    pub name: String,
    pub exec_line: Option<String>,
}

/// An installed application, as described by its desktop entry.
#[derive(Debug, Clone)]
pub struct DesktopEntry {
    pub id: String,
    pub name: String,
    pub icon: Option<String>,
    pub exec_line: Option<String>,
    pub terminal: bool,
    pub startup_wm_class: Option<String>,
    pub actions: Vec<DesktopAction>,
}

/// The mathematical value of a [`DesktopAction`].
pub struct ActionView {
    pub name: Seq<char>,
    pub exec_line: Option<Seq<char>>,
}

/// The mathematical value of a [`DesktopEntry`].
pub struct EntryView {
    pub id: Seq<char>,
    pub name: Seq<char>,
    pub icon: Option<Seq<char>>,
    pub exec_line: Option<Seq<char>>,
    pub terminal: bool,
    pub startup_wm_class: Option<Seq<char>>,
    pub actions: Seq<ActionView>,
}

impl View for DesktopAction {
    type V = ActionView;

    open spec fn view(&self) -> ActionView {
        ActionView { name: self.name@, exec_line: self.exec_line.deep_view() }
    }
}

impl View for DesktopEntry {
    type V = EntryView;

    open spec fn view(&self) -> EntryView {
        EntryView {
            id: self.id@,
            name: self.name@,
            icon: self.icon.deep_view(),
            exec_line: self.exec_line.deep_view(),
            terminal: self.terminal,
            startup_wm_class: self.startup_wm_class.deep_view(),
            actions: self.actions@.map_values(|a: DesktopAction| a@),
        }
    }
}

// ---------------------------------------------------------------------------
// The desktop-entry file format
// ---------------------------------------------------------------------------

/// What one line of a desktop file says.
pub enum LineKind {
    /// Blank, a comment, or a line without `=`.
    Ignored,
    /// `[name]`: starts the group `name`.
    Group(Seq<char>),
    /// `key=value`, both trimmed.
    Assign(Seq<char>, Seq<char>),
}

/// The meaning of one line of a desktop file.
pub open spec fn classify_line(line: Seq<char>) -> LineKind {
    let t = trim(line);
    if t.len() == 0 || t[0] == '#' {
        LineKind::Ignored
    } else if t.len() >= 2 && t[0] == '[' && t.last() == ']' {
        LineKind::Group(t.subrange(1, t.len() - 1))
    } else {
        match first_index_of(t, '=') {
            Some(i) => LineKind::Assign(
                trim(t.subrange(0, i)),
                trim(t.subrange(i + 1, t.len() as int)),
            ),
            None => LineKind::Ignored,
        }
    }
}

/// The assignments `(group, key, value)` made by `lines`, in order, when the group in
/// force before the first line is `group`. Assignments before any group header are dropped.
pub open spec fn assignments_from(lines: Seq<Seq<char>>, group: Option<Seq<char>>) -> Seq<
    (Seq<char>, Seq<char>, Seq<char>),
>
    decreases lines.len(),
{
    if lines.len() == 0 {
        Seq::empty()
    } else {
        let rest = lines.drop_first();
        match classify_line(lines[0]) {
            LineKind::Ignored => assignments_from(rest, group),
            LineKind::Group(name) => assignments_from(rest, Some(name)),
            LineKind::Assign(k, v) => match group {
                Some(g) => seq![(g, k, v)] + assignments_from(rest, group),
                None => assignments_from(rest, group),
            },
        }
    }
}

/// The assignments made by the text of a desktop file.
pub open spec fn assignments(raw: Seq<char>) -> Seq<(Seq<char>, Seq<char>, Seq<char>)> {
    assignments_from(split_on(raw, '\n'), None)
}

/// The value of `key` in `group`: the last assignment to it wins.
pub open spec fn lookup(recs: Seq<(Seq<char>, Seq<char>, Seq<char>)>, group: Seq<char>, key: Seq<char>) -> Option<Seq<char>>
    decreases recs.len(),
{
    if recs.len() == 0 {
        None
    } else if recs.last().0 == group && recs.last().1 == key {
        Some(recs.last().2)
    } else {
        lookup(recs.drop_last(), group, key)
    }
}

/// The actions named by `ids` that have a group with a `Name`, in order.
pub open spec fn actions_of(recs: Seq<(Seq<char>, Seq<char>, Seq<char>)>, ids: Seq<Seq<char>>) -> Seq<ActionView>
    decreases ids.len(),
{
    if ids.len() == 0 {
        Seq::empty()
    } else {
        let before = actions_of(recs, ids.drop_last());
        let id = ids.last();
        let group = "Desktop Action "@ + id;
        if id.len() == 0 {
            before
        } else {
            match lookup(recs, group, "Name"@) {
                Some(name) => before.push(ActionView { name, exec_line: lookup(recs, group, "Exec"@) }),
                None => before,
            }
        }
    }
}

/// The entry that the desktop file `raw` describes under the id `id`: `None` unless its
/// `[Desktop Entry]` group has `Type=Application` and a `Name`.
pub open spec fn parse_entry(raw: Seq<char>, id: Seq<char>) -> Option<EntryView> {
    let recs = assignments(raw);
    let main = "Desktop Entry"@;
    if lookup(recs, main, "Type"@) != Some("Application"@) {
        None
    } else {
        match lookup(recs, main, "Name"@) {
            None => None,
            Some(name) => Some(
                EntryView {
                    id,
                    name,
                    icon: lookup(recs, main, "Icon"@),
                    exec_line: lookup(recs, main, "Exec"@),
                    terminal: match lookup(recs, main, "Terminal"@) {
                        Some(v) => eq_ignore_ascii_case(v, "true"@),
                        None => false,
                    },
                    startup_wm_class: lookup(recs, main, "StartupWMClass"@),
                    actions: match lookup(recs, main, "Actions"@) {
                        Some(list) => actions_of(recs, split_on(list, ';')),
                        None => Seq::empty(),
                    },
                },
            ),
        }
    }
}

/// One assignment of a desktop file, with its group.
struct Assignment {
    group: Vec<char>,
    key: Vec<char>,
    value: Vec<char>,
}

spec fn opt_chars(o: Option<Vec<char>>) -> Option<Seq<char>> {
    match o {
        Some(v) => Some(v@),
        None => None,
    }
}

spec fn assignment_views(v: Seq<Assignment>) -> Seq<(Seq<char>, Seq<char>, Seq<char>)> {
    v.map_values(|a: Assignment| (a.group@, a.key@, a.value@))
}

/// Reads the assignments of a desktop file, line by line.
fn collect_assignments(lines: &Vec<Vec<char>>) -> (r: Vec<Assignment>)
    ensures
        assignment_views(r@) == assignments_from(char_vecs(lines@), None),
{
    let ghost all = char_vecs(lines@);
    let mut out: Vec<Assignment> = Vec::new();
    let mut group: Option<Vec<char>> = None;
    let mut i: usize = 0;
    assert(all.skip(0) =~= all);
    while i < lines.len()
        invariant
            i <= lines.len(),
            all == char_vecs(lines@),
            assignment_views(out@) + assignments_from(all.skip(i as int), opt_chars(group))
                == assignments_from(all, None),
        decreases lines.len() - i,
    {
        let ghost rest = all.skip(i as int);
        assert(rest[0] == lines@[i as int]@);
        assert(rest.drop_first() =~= all.skip(i + 1));
        let t = trim_chars(&lines[i]);
        let n = t.len();
        let ghost before = assignment_views(out@);
        let ghost next = all.skip(i + 1);
        let ghost g0 = opt_chars(group);
        assert(rest.len() > 0);
        if n == 0 || t[0] == '#' {
            assert(classify_line(rest[0]) == LineKind::Ignored);
        } else if n >= 2 && t[0] == '[' && t[n - 1] == ']' {
            let name = sub_chars(&t, 1, n - 1);
            assert(classify_line(rest[0]) == LineKind::Group(name@));
            group = Some(name);
        } else {
            match find_char(&t, '=') {
                Some(eq) => {
                    let key = trim_chars(&sub_chars(&t, 0, eq));
                    let value = trim_chars(&sub_chars(&t, eq + 1, n));
                    assert(classify_line(rest[0]) == LineKind::Assign(key@, value@));
                    match &group {
                        Some(g) => {
                            let gc = sub_chars(g, 0, g.len());
                            assert(gc@ =~= g@);
                            out.push(Assignment { group: gc, key, value });
                            assert(assignment_views(out@) =~= before.push((g@, key@, value@)));
                            assert(before + (seq![(g@, key@, value@)] + assignments_from(next, opt_chars(group)))
                                =~= before.push((g@, key@, value@)) + assignments_from(next, opt_chars(group)));
                        },
                        None => {},
                    }
                },
                None => {
                    assert(classify_line(rest[0]) == LineKind::Ignored);
                },
            }
        }
        assert(assignment_views(out@) + assignments_from(next, opt_chars(group)) == before
            + assignments_from(rest, g0));
        i += 1;
    }
    assert(all.skip(lines.len() as int) =~= Seq::<Seq<char>>::empty());
    assert(assignment_views(out@) + Seq::empty() =~= assignment_views(out@));
    out
}

/// Finds the value of `key` in `group`; the last assignment wins.
fn lookup_value<'a>(recs: &'a Vec<Assignment>, group: &Vec<char>, key: &Vec<char>) -> (r: Option<&'a Vec<char>>)
    ensures
        match r {
            Some(v) => lookup(assignment_views(recs@), group@, key@) == Some(v@),
            None => lookup(assignment_views(recs@), group@, key@) is None,
        },
{
    let ghost all = assignment_views(recs@);
    let mut i = recs.len();
    assert(all.take(i as int) =~= all);
    while i > 0
        invariant
            i <= recs.len(),
            all == assignment_views(recs@),
            lookup(all, group@, key@) == lookup(all.take(i as int), group@, key@),
        decreases i,
    {
        let ghost pre = all.take(i as int);
        assert(pre.last() == all[i - 1]);
        assert(pre.drop_last() =~= all.take(i - 1));
        if chars_eq(&recs[i - 1].group, group) && chars_eq(&recs[i - 1].key, key) {
            return Some(&recs[i - 1].value);
        }
        i -= 1;
    }
    None
}

fn lookup_string(recs: &Vec<Assignment>, group: &Vec<char>, key: &str) -> (r: Option<String>)
    ensures
        r.deep_view() == lookup(assignment_views(recs@), group@, key@),
{
    let k = chars_of(key);
    match lookup_value(recs, group, &k) {
        Some(v) => Some(string_of(v)),
        None => None,
    }
}

/// The actions named in `ids`.
fn collect_actions(recs: &Vec<Assignment>, ids: &Vec<Vec<char>>) -> (r: Vec<DesktopAction>)
    ensures
        r@.map_values(|a: DesktopAction| a@) == actions_of(assignment_views(recs@), char_vecs(ids@)),
{
    let ghost all = char_vecs(ids@);
    let prefix = chars_of("Desktop Action ");
    let mut out: Vec<DesktopAction> = Vec::new();
    let mut i: usize = 0;
    assert(all.take(0) =~= Seq::<Seq<char>>::empty());
    assert(out@.map_values(|a: DesktopAction| a@) =~= Seq::<ActionView>::empty());
    while i < ids.len()
        invariant
            i <= ids.len(),
            all == char_vecs(ids@),
            prefix@ == "Desktop Action "@,
            out@.map_values(|a: DesktopAction| a@) == actions_of(assignment_views(recs@), all.take(i as int)),
        decreases ids.len() - i,
    {
        let ghost pre = all.take(i + 1);
        assert(pre.drop_last() =~= all.take(i as int));
        assert(pre.last() == ids@[i as int]@);
        let id = &ids[i];
        if id.len() > 0 {
            let group = concat_chars(&prefix, id);
            match lookup_string(recs, &group, "Name") {
                Some(name) => {
                    let exec_line = lookup_string(recs, &group, "Exec");
                    let ghost before = out@.map_values(|a: DesktopAction| a@);
                    let action = DesktopAction { name, exec_line };
                    out.push(action);
                    assert(out@.map_values(|a: DesktopAction| a@) =~= before.push(action@));
                },
                None => {},
            }
        }
        i += 1;
    }
    assert(all.take(ids.len() as int) =~= all);
    out
}

/// Parses the text of a desktop file found under the id `id`.
pub fn parse_desktop_file(raw: &str, id: String) -> (r: Option<DesktopEntry>)
    ensures
        match r {
            Some(e) => parse_entry(raw@, id@) == Some(e@),
            None => parse_entry(raw@, id@) is None,
        },
{
    let text = chars_of(raw);
    let lines = split_chars(&text, '\n');
    let recs = collect_assignments(&lines);
    let ghost rv = assignment_views(recs@);
    assert(rv == assignments(raw@));
    let main = chars_of("Desktop Entry");
    let kind = lookup_string(&recs, &main, "Type");
    let application = chars_of("Application");
    let is_app = match &kind {
        Some(k) => {
            let kc = chars_of(k.as_str());
            chars_eq(&kc, &application)
        },
        None => false,
    };
    if !is_app {
        return None;
    }
    let name = match lookup_string(&recs, &main, "Name") {
        Some(n) => n,
        None => return None,
    };
    let icon = lookup_string(&recs, &main, "Icon");
    let exec_line = lookup_string(&recs, &main, "Exec");
    let terminal = match lookup_string(&recs, &main, "Terminal") {
        Some(v) => {
            let vc = chars_of(v.as_str());
            let truth = chars_of("true");
            ascii_case_eq(&vc, &truth)
        },
        None => false,
    };
    let startup_wm_class = lookup_string(&recs, &main, "StartupWMClass");
    let actions = match lookup_string(&recs, &main, "Actions") {
        Some(list) => {
            let lc = chars_of(list.as_str());
            let ids = split_chars(&lc, ';');
            collect_actions(&recs, &ids)
        },
        None => {
            let v: Vec<DesktopAction> = Vec::new();
            assert(v@.map_values(|a: DesktopAction| a@) =~= Seq::<ActionView>::empty());
            v
        },
    };
    let entry = DesktopEntry { id, name, icon, exec_line, terminal, startup_wm_class, actions };
    Some(entry)
}


// ---------------------------------------------------------------------------
// The store of desktop entries
// ---------------------------------------------------------------------------

/// The first entry of `s` that satisfies `p`.
pub open spec fn first_where(s: Seq<EntryView>, p: spec_fn(EntryView) -> bool) -> Option<EntryView>
    decreases s.len(),
{
    if s.len() == 0 {
        None
    } else if p(s[0]) {
        Some(s[0])
    } else {
        first_where(s.drop_first(), p)
    }
}

/// Whether some entry of `s` has the id `id`.
pub open spec fn has_id(s: Seq<EntryView>, id: Seq<char>) -> bool {
    exists|i: int| 0 <= i < s.len() && #[trigger] s[i].id == id
}

/// The entry of `s` with the id `id`.
pub open spec fn entry_with_id(s: Seq<EntryView>, id: Seq<char>) -> Option<EntryView> {
    first_where(s, |e: EntryView| e.id == id)
}

/// No two entries of `s` share an id.
pub open spec fn unique_ids(s: Seq<EntryView>) -> bool {
    forall|i: int, j: int| 0 <= i < s.len() && 0 <= j < s.len() && i != j ==> #[trigger] s[i].id != #[trigger] s[j].id
}

/// The entries that scanning the files `files` (pairs of id and text, in the order they were
/// found) yields: the first file found under an id that parses provides the entry for that id.
pub open spec fn scan_files(files: Seq<(Seq<char>, Seq<char>)>) -> Seq<EntryView>
    decreases files.len(),
{
    if files.len() == 0 {
        Seq::empty()
    } else {
        let before = scan_files(files.drop_last());
        let id = files.last().0;
        if has_id(before, id) {
            before
        } else {
            match parse_entry(files.last().1, id) {
                Some(e) => before.push(e),
                None => before,
            }
        }
    }
}

/// The key that `find_by_app_id` compares against: the id without its `.desktop`
/// suffixes, in lower case.
pub open spec fn id_stem(id: Seq<char>) -> Seq<char> {
    lowercase(trim_suffixes(id, ".desktop"@))
}

/// The ways `find_by_app_id` matches an entry once the exact id has not been found.
pub enum MatchRule {
    /// `StartupWMClass` equals the application id, ignoring case.
    WmClass,
    /// The id stem equals the application id, ignoring case.
    Stem,
    /// The id stem, or its last dot-separated part, equals the last dot-separated part of
    /// the application id, ignoring case.
    StemTail,
}

/// Whether `e` matches under `rule`, for the lower-cased application id `needle`
/// whose last dot-separated part is `last`.
pub open spec fn rule_matches(rule: MatchRule, needle: Seq<char>, last: Seq<char>, e: EntryView) -> bool {
    match rule {
        MatchRule::WmClass => e.startup_wm_class is Some && lowercase(e.startup_wm_class->0) == needle,
        MatchRule::Stem => id_stem(e.id) == needle,
        MatchRule::StemTail => id_stem(e.id) == last || after_last(id_stem(e.id), '.') == last,
    }
}

/// The entry that belongs to the application id `app_id`: the entry `<app_id>.desktop`;
/// else the first whose `StartupWMClass` equals it ignoring case; else the first whose
/// stem equals it ignoring case; else the first whose stem, or the stem's last
/// dot-separated part, equals the last dot-separated part of the lower-cased `app_id`.
pub open spec fn find_app(s: Seq<EntryView>, app_id: Seq<char>) -> Option<EntryView> {
    let needle = lowercase(app_id);
    let last = after_last(needle, '.');
    match entry_with_id(s, app_id + ".desktop"@) {
        Some(e) => Some(e),
        None => match first_where(s, |e: EntryView| rule_matches(MatchRule::WmClass, needle, last, e)) {
            Some(e) => Some(e),
            None => match first_where(s, |e: EntryView| rule_matches(MatchRule::Stem, needle, last, e)) {
                Some(e) => Some(e),
                None => first_where(s, |e: EntryView| rule_matches(MatchRule::StemTail, needle, last, e)),
            },
        },
    }
}

/// Skipping entries that fail `p` does not change the first that satisfies it.
pub proof fn lemma_first_where_step(s: Seq<EntryView>, p: spec_fn(EntryView) -> bool, i: int)
    requires
        0 <= i < s.len(),
    ensures
        first_where(s.skip(i), p) == if p(s[i]) {
            Some(s[i])
        } else {
            first_where(s.skip(i + 1), p)
        },
{
    assert(s.skip(i)[0] == s[i]);
    assert(s.skip(i).drop_first() =~= s.skip(i + 1));
}

/// The entries of installed applications, keyed by desktop-file id.
pub struct DesktopEntryStore {
    entries: Vec<DesktopEntry>,
}

impl View for DesktopEntryStore {
    type V = Seq<EntryView>;

    closed spec fn view(&self) -> Seq<EntryView> {
        self.entries@.map_values(|e: DesktopEntry| e@)
    }
}

impl DesktopEntryStore {
    /// The store's invariant: ids are unique.
    pub open spec fn wf(&self) -> bool {
        unique_ids(self@)
    }

    /// Builds the store from the desktop files found, in the order found; each pair holds
    /// the file's id and its text.
    pub fn scan(files: Vec<(String, String)>) -> (store: Self)
        ensures
            store.wf(),
            store@ == scan_files(files@.map_values(|f: (String, String)| (f.0@, f.1@))),
    {
        let ghost all = files@.map_values(|f: (String, String)| (f.0@, f.1@));
        let mut store = DesktopEntryStore { entries: Vec::new() };
        assert(store@ =~= Seq::<EntryView>::empty());
        assert(all.take(0) =~= Seq::<(Seq<char>, Seq<char>)>::empty());
        let mut i: usize = 0;
        while i < files.len()
            invariant
                i <= files.len(),
                all == files@.map_values(|f: (String, String)| (f.0@, f.1@)),
                store.wf(),
                store@ == scan_files(all.take(i as int)),
            decreases files.len() - i,
        {
            let ghost pre = all.take(i + 1);
            assert(pre.drop_last() =~= all.take(i as int));
            assert(pre.last() == all[i as int]);
            let id = &files[i].0;
            if !store.contains_id(id.as_str()) {
                match parse_desktop_file(files[i].1.as_str(), id.clone()) {
                    Some(e) => {
                        let ghost before = store@;
                        store.entries.push(e);
                        assert(store@ =~= before.push(e@));
                    },
                    None => {},
                }
            }
            i += 1;
        }
        assert(all.take(files.len() as int) =~= all);
        store
    }

    /// Whether the store holds an entry with id `id`.
    fn contains_id(&self, id: &str) -> (r: bool)
        ensures
            r == has_id(self@, id@),
    {
        let want = chars_of(id);
        let mut i: usize = 0;
        while i < self.entries.len()
            invariant
                i <= self.entries.len(),
                want@ == id@,
                forall|j: int| 0 <= j < i ==> self@[j].id != id@,
            decreases self.entries.len() - i,
        {
            let have = chars_of(self.entries[i].id.as_str());
            if chars_eq(&have, &want) {
                assert(self@[i as int].id == id@);
                return true;
            }
            i += 1;
        }
        false
    }

    /// The entry with the desktop-file id `id`.
    pub fn get(&self, id: &str) -> (r: Option<&DesktopEntry>)
        ensures
            match r {
                Some(e) => entry_with_id(self@, id@) == Some(e@),
                None => entry_with_id(self@, id@) is None,
            },
    {
        let want = chars_of(id);
        let ghost p = |e: EntryView| e.id == id@;
        let mut i: usize = 0;
        assert(self@.skip(0) =~= self@);
        while i < self.entries.len()
            invariant
                i <= self.entries.len(),
                want@ == id@,
                p == (|e: EntryView| e.id == id@),
                first_where(self@, p) == first_where(self@.skip(i as int), p),
            decreases self.entries.len() - i,
        {
            proof {
                lemma_first_where_step(self@, p, i as int);
            }
            let have = chars_of(self.entries[i].id.as_str());
            if chars_eq(&have, &want) {
                return Some(&self.entries[i]);
            }
            i += 1;
        }
        assert(self@.skip(i as int) =~= Seq::<EntryView>::empty());
        None
    }

    /// Whether `e` matches under `rule`.
    fn entry_matches(e: &DesktopEntry, rule: &MatchRule, needle: &Vec<char>, last: &Vec<char>) -> (r: bool)
        ensures
            r == rule_matches(*rule, needle@, last@, e@),
    {
        let dot_desktop = chars_of(".desktop");
        match rule {
            MatchRule::WmClass => match &e.startup_wm_class {
                Some(c) => {
                    let lc = lowercase_chars(&chars_of(c.as_str()));
                    chars_eq(&lc, needle)
                },
                None => false,
            },
            MatchRule::Stem => {
                let stem = lowercase_chars(&trim_suffixes_chars(&chars_of(e.id.as_str()), &dot_desktop));
                chars_eq(&stem, needle)
            },
            MatchRule::StemTail => {
                let stem = lowercase_chars(&trim_suffixes_chars(&chars_of(e.id.as_str()), &dot_desktop));
                if chars_eq(&stem, last) {
                    true
                } else {
                    let tail = after_last_chars(&stem, '.');
                    chars_eq(&tail, last)
                }
            },
        }
    }

    /// The first entry that matches under `rule`.
    fn first_matching(&self, rule: MatchRule, needle: &Vec<char>, last: &Vec<char>) -> (r: Option<&DesktopEntry>)
        ensures
            match r {
                Some(e) => first_where(self@, |x: EntryView| rule_matches(rule, needle@, last@, x)) == Some(e@),
                None => first_where(self@, |x: EntryView| rule_matches(rule, needle@, last@, x)) is None,
            },
    {
        let ghost p = |x: EntryView| rule_matches(rule, needle@, last@, x);
        let mut i: usize = 0;
        assert(self@.skip(0) =~= self@);
        while i < self.entries.len()
            invariant
                i <= self.entries.len(),
                p == (|x: EntryView| rule_matches(rule, needle@, last@, x)),
                first_where(self@, p) == first_where(self@.skip(i as int), p),
            decreases self.entries.len() - i,
        {
            proof {
                lemma_first_where_step(self@, p, i as int);
            }
            if Self::entry_matches(&self.entries[i], &rule, needle, last) {
                return Some(&self.entries[i]);
            }
            i += 1;
        }
        assert(self@.skip(i as int) =~= Seq::<EntryView>::empty());
        None
    }

    /// The entry that belongs to the running application with id `app_id`.
    pub fn find_by_app_id(&self, app_id: &str) -> (r: Option<&DesktopEntry>)
        ensures
            match r {
                Some(e) => find_app(self@, app_id@) == Some(e@),
                None => find_app(self@, app_id@) is None,
            },
    {
        let app = chars_of(app_id);
        let needle = lowercase_chars(&app);
        let last = after_last_chars(&needle, '.');
        let full = string_of(&concat_chars(&app, &chars_of(".desktop")));
        match self.get(full.as_str()) {
            Some(e) => return Some(e),
            None => {},
        }
        match self.first_matching(MatchRule::WmClass, &needle, &last) {
            Some(e) => return Some(e),
            None => {},
        }
        match self.first_matching(MatchRule::Stem, &needle, &last) {
            Some(e) => return Some(e),
            None => {},
        }
        self.first_matching(MatchRule::StemTail, &needle, &last)
    }
}


// ---------------------------------------------------------------------------
// Launching
// ---------------------------------------------------------------------------

/// The words of a command line, split with POSIX shell syntax, as `shlex::split` returns
/// them (`None` for unbalanced quotes or a trailing backslash).
pub uninterp spec fn shell_words(line: Seq<char>) -> Option<Seq<Seq<char>>>;

/// Calls `shlex::split`, which splits `line` into words with POSIX shell quoting rules and
/// returns `None` when the line is erroneous. The contract names that result
/// `shell_words(line@)` and says nothing more of it.
#[verifier::external_body]
fn split_shell_words(line: &str) -> (r: Option<Vec<String>>)
    ensures
        match r {
            Some(v) => shell_words(line@) == Some(strings(v@)),
            None => shell_words(line@) is None,
        },
{
    shlex::split(line)
}

/// Why an entry could not be launched.
#[derive(Debug, Clone, Copy, PartialEq, Eq, Structural)]
pub enum LaunchError {
    /// The entry (or action) has no `Exec` line.
    NoExec,
    /// The `Exec` line is not valid shell syntax.
    Unparsable,
    /// Nothing is left of the `Exec` line once field codes are removed.
    NoCommand,
}

impl LaunchError {
    /// The message that describes the error.
    pub fn message(&self) -> (r: &'static str)
        ensures
            r@ == match self {
                LaunchError::NoExec => "desktop entry has no Exec line"@,
                LaunchError::Unparsable => "could not parse Exec line"@,
                LaunchError::NoCommand => "Exec line had no command after stripping field codes"@,
            },
    {
        match self {
            LaunchError::NoExec => "desktop entry has no Exec line",
            LaunchError::Unparsable => "could not parse Exec line",
            LaunchError::NoCommand => "Exec line had no command after stripping field codes",
        }
    }
}

/// The field codes that expand to nothing in a launch without files or URLs.
pub open spec fn is_dropped_code(t: Seq<char>) -> bool {
    ||| t == "%f"@
    ||| t == "%F"@
    ||| t == "%u"@
    ||| t == "%U"@
    ||| t == "%d"@
    ||| t == "%D"@
    ||| t == "%n"@
    ||| t == "%N"@
    ||| t == "%v"@
    ||| t == "%m"@
}

/// What one word of an `Exec` line expands to for the entry `e`.
pub open spec fn expand_code(t: Seq<char>, e: EntryView) -> Seq<char> {
    if t == "%i"@ {
        match e.icon {
            Some(i) => "--icon "@ + i,
            None => Seq::empty(),
        }
    } else if t == "%c"@ {
        e.name
    } else if t == "%k"@ {
        Seq::empty()
    } else if t == "%%"@ {
        "%"@
    } else {
        t
    }
}

/// The arguments that the words `ts` of an `Exec` line give for the entry `e`: field codes
/// expanded, and words that expand to nothing dropped.
pub open spec fn expand_words(ts: Seq<Seq<char>>, e: EntryView) -> Seq<Seq<char>>
    decreases ts.len(),
{
    if ts.len() == 0 {
        Seq::empty()
    } else {
        let before = expand_words(ts.drop_last(), e);
        let t = ts.last();
        if is_dropped_code(t) || expand_code(t, e).len() == 0 {
            before
        } else {
            before.push(expand_code(t, e))
        }
    }
}

/// The command line that runs `args`: in a terminal emulator (the `TERMINAL` variable, else
/// `x-terminal-emulator`, with `-e`) when `terminal`; an error when `args` is empty.
pub open spec fn command_for(args: Seq<Seq<char>>, terminal: bool, terminal_env: Option<Seq<char>>) -> Result<Seq<Seq<char>>, LaunchError> {
    if args.len() == 0 {
        Err(LaunchError::NoCommand)
    } else if terminal {
        let term = match terminal_env {
            Some(t) => t,
            None => "x-terminal-emulator"@,
        };
        Ok(seq![term, "-e"@] + args)
    } else {
        Ok(args)
    }
}

/// The command line that an `Exec` line gives for the entry `e`.
pub open spec fn exec_command(exec_line: Option<Seq<char>>, e: EntryView, terminal_env: Option<Seq<char>>) -> Result<Seq<Seq<char>>, LaunchError> {
    match exec_line {
        None => Err(LaunchError::NoExec),
        Some(line) => match shell_words(line) {
            None => Err(LaunchError::Unparsable),
            Some(words) => command_for(expand_words(words, e), e.terminal, terminal_env),
        },
    }
}

/// The views of a launch result.
pub open spec fn command_view(r: Result<Vec<String>, LaunchError>) -> Result<Seq<Seq<char>>, LaunchError> {
    match r {
        Ok(v) => Ok(strings(v@)),
        Err(e) => Err(e),
    }
}

/// Expands the field codes of the words of an `Exec` line for `entry`.
pub fn expand_field_codes(words: &Vec<String>, entry: &DesktopEntry) -> (r: Vec<String>)
    ensures
        strings(r@) == expand_words(strings(words@), entry@),
{
    let ghost all = strings(words@);
    let mut out: Vec<String> = Vec::new();
    let mut i: usize = 0;
    assert(all.take(0) =~= Seq::<Seq<char>>::empty());
    assert(strings(out@) =~= Seq::<Seq<char>>::empty());
    while i < words.len()
        invariant
            i <= words.len(),
            all == strings(words@),
            strings(out@) == expand_words(all.take(i as int), entry@),
        decreases words.len() - i,
    {
        let ghost pre = all.take(i + 1);
        assert(pre.drop_last() =~= all.take(i as int));
        assert(pre.last() == words@[i as int]@);
        let t = words[i].as_str();
        let dropped = str_is(t, "%f") || str_is(t, "%F") || str_is(t, "%u") || str_is(t, "%U")
            || str_is(t, "%d") || str_is(t, "%D") || str_is(t, "%n") || str_is(t, "%N") || str_is(
            t,
            "%v",
        ) || str_is(t, "%m");
        if !dropped {
            let x: String = if str_is(t, "%i") {
                match &entry.icon {
                    Some(icon) => {
                        let mut s = string_from("--icon ");
                        s.append(icon.as_str());
                        s
                    },
                    None => String::new(),
                }
            } else if str_is(t, "%c") {
                entry.name.clone()
            } else if str_is(t, "%k") {
                String::new()
            } else if str_is(t, "%%") {
                string_from("%")
            } else {
                words[i].clone()
            };
            assert(x@ == expand_code(t@, entry@));
            if !x.as_str().is_empty() {
                let ghost before = strings(out@);
                out.push(x);
                assert(strings(out@) =~= before.push(x@));
            }
        }
        i += 1;
    }
    assert(all.take(words.len() as int) =~= all);
    out
}

/// Prefixes `args` with the terminal emulator when `terminal`.
pub fn command_line(args: Vec<String>, terminal: bool, terminal_env: Option<&str>) -> (r: Result<Vec<String>, LaunchError>)
    ensures
        command_view(r) == command_for(strings(args@), terminal, match terminal_env {
            Some(t) => Some(t@),
            None => None,
        }),
{
    if args.len() == 0 {
        return Err(LaunchError::NoCommand);
    }
    if terminal {
        let term = match terminal_env {
            Some(t) => string_from(t),
            None => string_from("x-terminal-emulator"),
        };
        let mut cmd: Vec<String> = Vec::new();
        cmd.push(term);
        cmd.push(string_from("-e"));
        let mut i: usize = 0;
        let ghost head = strings(cmd@);
        while i < args.len()
            invariant
                i <= args.len(),
                head.len() == 2,
                strings(cmd@) == head + strings(args@).take(i as int),
            decreases args.len() - i,
        {
            let ghost before = strings(cmd@);
            let a = args[i].clone();
            assert(a@ == strings(args@)[i as int]);
            cmd.push(a);
            assert(strings(cmd@) =~= before.push(a@));
            assert(strings(args@).take(i + 1) =~= strings(args@).take(i as int).push(a@));
            i += 1;
            assert(strings(cmd@) =~= head + strings(args@).take(i as int));
        }
        assert(strings(args@).take(args.len() as int) =~= strings(args@));
        assert(head =~= seq![head[0], head[1]]);
        Ok(cmd)
    } else {
        Ok(args)
    }
}

fn run_exec(exec_line: &Option<String>, entry: &DesktopEntry, terminal_env: Option<&str>) -> (r: Result<Vec<String>, LaunchError>)
    ensures
        command_view(r) == exec_command(exec_line.deep_view(), entry@, match terminal_env {
            Some(t) => Some(t@),
            None => None,
        }),
{
    let line = match exec_line {
        Some(l) => l,
        None => return Err(LaunchError::NoExec),
    };
    let words = match split_shell_words(line.as_str()) {
        Some(w) => w,
        None => return Err(LaunchError::Unparsable),
    };
    let args = expand_field_codes(&words, entry);
    command_line(args, entry.terminal, terminal_env)
}

/// The command line that launches `entry`; `terminal_env` is the value of the `TERMINAL`
/// environment variable, if set.
pub fn launch(entry: &DesktopEntry, terminal_env: Option<&str>) -> (r: Result<Vec<String>, LaunchError>)
    ensures
        command_view(r) == exec_command(entry@.exec_line, entry@, match terminal_env {
            Some(t) => Some(t@),
            None => None,
        }),
{
    run_exec(&entry.exec_line, entry, terminal_env)
}

/// The command line that runs the action `action` of `entry`.
pub fn launch_action(entry: &DesktopEntry, action: &DesktopAction, terminal_env: Option<&str>) -> (r: Result<Vec<String>, LaunchError>)
    ensures
        command_view(r) == exec_command(action@.exec_line, entry@, match terminal_env {
            Some(t) => Some(t@),
            None => None,
        }),
{
    run_exec(&action.exec_line, entry, terminal_env)
}

// ---------------------------------------------------------------------------
// Laws of the desktop-entry store
// ---------------------------------------------------------------------------

/// `first_where` gives the first entry that satisfies `p`.
pub proof fn lemma_first_where(s: Seq<EntryView>, p: spec_fn(EntryView) -> bool, i: int)
    requires
        0 <= i < s.len(),
        p(s[i]),
        forall|j: int| 0 <= j < i ==> !p(#[trigger] s[j]),
    ensures
        first_where(s, p) == Some(s[i]),
    decreases i,
{
    if i > 0 {
        let t = s.drop_first();
        assert forall|j: int| 0 <= j < i - 1 implies !p(#[trigger] t[j]) by {
            assert(t[j] == s[j + 1]);
        }
        assert(t[i - 1] == s[i]);
        lemma_first_where(t, p, i - 1);
    }
}

/// In a store without duplicate ids, looking up the id of any entry finds that entry.
pub proof fn law_get_finds_each_entry(s: Seq<EntryView>, i: int)
    requires
        unique_ids(s),
        0 <= i < s.len(),
    ensures
        entry_with_id(s, s[i].id) == Some(s[i]),
{
    let p = |e: EntryView| e.id == s[i].id;
    assert forall|j: int| 0 <= j < i implies !p(#[trigger] s[j]) by {
        assert(s[j].id != s[i].id);
    }
    lemma_first_where(s, p, i);
}

/// A desktop file found later never replaces an entry already found under its id.
pub proof fn law_scan_first_wins(files: Seq<(Seq<char>, Seq<char>)>, f: (Seq<char>, Seq<char>))
    requires
        has_id(scan_files(files), f.0),
    ensures
        scan_files(files.push(f)) == scan_files(files),
{
    assert(files.push(f).drop_last() =~= files);
}

/// Every entry of the store comes from a file found under its id, whose text describes it.
pub proof fn law_scan_entries_parsed(files: Seq<(Seq<char>, Seq<char>)>)
    ensures
        forall|a: int| 0 <= a < scan_files(files).len() ==> exists|j: int|
            0 <= j < files.len() && files[j].0 == (#[trigger] scan_files(files)[a]).id
                && parse_entry(files[j].1, files[j].0) == Some(scan_files(files)[a]),
    decreases files.len(),
{
    if files.len() > 0 {
        let t = files.drop_last();
        law_scan_entries_parsed(t);
        let before = scan_files(t);
        let after = scan_files(files);
        assert forall|a: int| 0 <= a < after.len() implies exists|j: int|
            0 <= j < files.len() && files[j].0 == (#[trigger] after[a]).id
                && parse_entry(files[j].1, files[j].0) == Some(after[a]) by {
            if a < before.len() {
                assert(after[a] == before[a]);
                let j = choose|j: int| 0 <= j < t.len() && t[j].0 == before[a].id && parse_entry(t[j].1, t[j].0) == Some(before[a]);
                assert(files[j] == t[j]);
            } else {
                let j = files.len() - 1;
                assert(files[j] == files.last());
            }
        }
    }
}

/// An entry named `<app_id>.desktop` always belongs to the application `app_id`.
pub proof fn law_exact_id_wins(s: Seq<EntryView>, app_id: Seq<char>, e: EntryView)
    requires
        entry_with_id(s, app_id + ".desktop"@) == Some(e),
    ensures
        find_app(s, app_id) == Some(e),
{
}

/// A launch never passes an empty argument.
pub proof fn law_expanded_args_nonempty(ts: Seq<Seq<char>>, e: EntryView)
    ensures
        forall|i: int| 0 <= i < expand_words(ts, e).len() ==> (#[trigger] expand_words(ts, e)[i]).len() > 0,
    decreases ts.len(),
{
    if ts.len() > 0 {
        law_expanded_args_nonempty(ts.drop_last(), e);
        let before = expand_words(ts.drop_last(), e);
        assert forall|i: int| 0 <= i < expand_words(ts, e).len() implies (#[trigger] expand_words(ts, e)[i]).len() > 0 by {
            if i < before.len() {
                assert(expand_words(ts, e)[i] == before[i]);
            }
        }
    }
}


/// The file and URL field codes of an `Exec` line never reach the launched program: an
/// argument that reads like one of them can only be the entry's name, put there by `%c`.
pub proof fn law_file_codes_dropped(ts: Seq<Seq<char>>, e: EntryView)
    ensures
        forall|i: int| 0 <= i < expand_words(ts, e).len() ==> {
            let a = #[trigger] expand_words(ts, e)[i];
            (a == "%f"@ || a == "%F"@ || a == "%u"@ || a == "%U"@ || a == "%d"@ || a == "%D"@
                || a == "%n"@ || a == "%N"@ || a == "%v"@ || a == "%m"@) ==> a == e.name
        },
    decreases ts.len(),
{
    reveal_strlit("%f");
    reveal_strlit("%F");
    reveal_strlit("%u");
    reveal_strlit("%U");
    reveal_strlit("%d");
    reveal_strlit("%D");
    reveal_strlit("%n");
    reveal_strlit("%N");
    reveal_strlit("%v");
    reveal_strlit("%m");
    reveal_strlit("%");
    reveal_strlit("%%");
    reveal_strlit("%i");
    reveal_strlit("%c");
    reveal_strlit("%k");
    reveal_strlit("--icon ");
    if ts.len() > 0 {
        law_file_codes_dropped(ts.drop_last(), e);
        let before = expand_words(ts.drop_last(), e);
        let t = ts.last();
        let x = expand_code(t, e);
        if !(is_dropped_code(t) || x.len() == 0) {
            assert(expand_words(ts, e) == before.push(x));
            if t == "%i"@ {
                assert(x.len() >= 7);
            }
            assert forall|i: int| 0 <= i < expand_words(ts, e).len() implies {
                let a = #[trigger] expand_words(ts, e)[i];
                (a == "%f"@ || a == "%F"@ || a == "%u"@ || a == "%U"@ || a == "%d"@ || a == "%D"@
                    || a == "%n"@ || a == "%N"@ || a == "%v"@ || a == "%m"@) ==> a == e.name
            } by {
                if i < before.len() {
                    assert(expand_words(ts, e)[i] == before[i]);
                }
            }
        }
    }
}

/// A launch without a terminal runs exactly the expanded words, so none of them is a file
/// or URL field code (unless the entry's name reads like one and `%c` put it there).
pub proof fn law_launch_drops_file_codes(line: Seq<char>, e: EntryView, terminal_env: Option<Seq<char>>)
    requires
        !e.terminal,
    ensures
        exec_command(Some(line), e, terminal_env) matches Ok(cmd) ==> forall|i: int| 0 <= i < cmd.len() ==> {
            let a = #[trigger] cmd[i];
            (a == "%f"@ || a == "%F"@ || a == "%u"@ || a == "%U"@ || a == "%d"@ || a == "%D"@
                || a == "%n"@ || a == "%N"@ || a == "%v"@ || a == "%m"@) ==> a == e.name
        },
{
    match shell_words(line) {
        Some(words) => {
            law_file_codes_dropped(words, e);
        },
        None => {},
    }
}

}
