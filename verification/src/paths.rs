//! File-system locations the dock reads, worked out from the environment's values.

use vstd::prelude::*;
use crate::text::{chars_of, concat_chars, split_chars, split_on, string_of, strings, char_vecs};

verus! {

/// `base` joined with the relative component `comp` (what `Path::join` gives for a
/// relative, non-empty component): a `/` is put between them unless `base` is empty or
/// already ends with one.
pub open spec fn join(base: Seq<char>, comp: Seq<char>) -> Seq<char> {
    if base.len() == 0 || base.last() == '/' {
        base + comp
    } else {
        base + seq!['/'] + comp
    }
}

/// Joins `base` and the relative component `comp`.
pub fn join_path(base: &str, comp: &str) -> (r: String)
    ensures
        r@ == join(base@, comp@),
{
    let b = chars_of(base);
    let c = chars_of(comp);
    if b.len() == 0 || b[b.len() - 1] == '/' {
        string_of(&concat_chars(&b, &c))
    } else {
        let mut bs = b;
        bs.push('/');
        let r = string_of(&concat_chars(&bs, &c));
        r
    }
}

/// The user's data directory for desktop files: `XDG_DATA_HOME` when set and not empty,
/// else the platform's data directory, if any.
pub open spec fn data_home_of(xdg_data_home: Option<Seq<char>>, platform: Option<Seq<char>>) -> Option<Seq<char>> {
    match xdg_data_home {
        Some(x) if x.len() > 0 => Some(x),
        _ => platform,
    }
}

/// The user's data directory for desktop files, from the value of `XDG_DATA_HOME` and the
/// platform's data directory.
pub fn data_home(xdg_data_home: Option<&str>, platform: Option<&str>) -> (r: Option<String>)
    ensures
        r.deep_view() == data_home_of(
            match xdg_data_home { Some(x) => Some(x@), None => None },
            match platform { Some(p) => Some(p@), None => None },
        ),
{
    match xdg_data_home {
        Some(x) => {
            if x.is_empty() {
                match platform {
                    Some(p) => Some(string_of(&chars_of(p))),
                    None => None,
                }
            } else {
                Some(string_of(&chars_of(x)))
            }
        },
        None => match platform {
            Some(p) => Some(string_of(&chars_of(p))),
            None => None,
        },
    }
}

/// The data directories searched for applications when `XDG_DATA_DIRS` is not set.
pub open spec fn default_data_dirs() -> Seq<char> {
    "/usr/local/share:/usr/share"@
}

/// The non-empty pieces of `s`, in order.
pub open spec fn non_empty(s: Seq<Seq<char>>) -> Seq<Seq<char>>
    decreases s.len(),
{
    if s.len() == 0 {
        Seq::empty()
    } else if s.last().len() == 0 {
        non_empty(s.drop_last())
    } else {
        non_empty(s.drop_last()).push(s.last())
    }
}

/// The directories searched for desktop files, in order: `applications` under the user's
/// data directory, then under each non-empty entry of `XDG_DATA_DIRS` (or its default).
pub open spec fn application_dirs_of(data_home: Option<Seq<char>>, xdg_data_dirs: Option<Seq<char>>) -> Seq<Seq<char>> {
    let home = match data_home {
        Some(h) => seq![join(h, "applications"@)],
        None => Seq::empty(),
    };
    let dirs = match xdg_data_dirs {
        Some(d) => d,
        None => default_data_dirs(),
    };
    home + non_empty(split_on(dirs, ':')).map_values(|d: Seq<char>| join(d, "applications"@))
}

/// The directories searched for desktop files, from the user's data directory and the value
/// of `XDG_DATA_DIRS`.
pub fn application_dirs(data_home: Option<&str>, xdg_data_dirs: Option<&str>) -> (r: Vec<String>)
    ensures
        strings(r@) == application_dirs_of(
            match data_home { Some(h) => Some(h@), None => None },
            match xdg_data_dirs { Some(d) => Some(d@), None => None },
        ),
{
    let mut out: Vec<String> = Vec::new();
    match data_home {
        Some(h) => {
            out.push(join_path(h, "applications"));
        },
        None => {},
    }
    let ghost home = strings(out@);
    let dirs = match xdg_data_dirs {
        Some(d) => chars_of(d),
        None => chars_of("/usr/local/share:/usr/share"),
    };
    let pieces = split_chars(&dirs, ':');
    let ghost all = char_vecs(pieces@);
    let ghost f = |d: Seq<char>| join(d, "applications"@);
    let mut i: usize = 0;
    assert(all.take(0) =~= Seq::<Seq<char>>::empty());
    assert(strings(out@) =~= home + non_empty(all.take(0)).map_values(f));
    while i < pieces.len()
        invariant
            i <= pieces.len(),
            all == char_vecs(pieces@),
            f == (|d: Seq<char>| join(d, "applications"@)),
            strings(out@) == home + non_empty(all.take(i as int)).map_values(f),
        decreases pieces.len() - i,
    {
        let ghost pre = all.take(i + 1);
        assert(pre.drop_last() =~= all.take(i as int));
        assert(pre.last() == pieces@[i as int]@);
        if pieces[i].len() > 0 {
            let d = string_of(&pieces[i]);
            let ghost before = strings(out@);
            out.push(join_path(d.as_str(), "applications"));
            assert(non_empty(pre) == non_empty(all.take(i as int)).push(d@));
            assert(non_empty(pre).map_values(f) =~= non_empty(all.take(i as int)).map_values(f).push(f(d@)));
            assert(strings(out@) =~= before.push(f(d@)));
        }
        i += 1;
    }
    assert(all.take(pieces.len() as int) =~= all);
    out
}

/// The id of the desktop file at `rel_path` under an applications directory: the relative
/// path with each `/` replaced by `-`.
pub open spec fn desktop_id_of(rel_path: Seq<char>) -> Seq<char> {
    rel_path.map_values(|c: char| if c == '/' { '-' } else { c })
}

/// The id of the desktop file at `rel_path` under an applications directory.
pub fn desktop_file_id(rel_path: &str) -> (r: String)
    ensures
        r@ == desktop_id_of(rel_path@),
{
    let v = chars_of(rel_path);
    let mut out: Vec<char> = Vec::new();
    let mut i: usize = 0;
    while i < v.len()
        invariant
            i <= v.len(),
            out@ == v@.take(i as int).map_values(|c: char| if c == '/' { '-' } else { c }),
        decreases v.len() - i,
    {
        let c = v[i];
        out.push(if c == '/' { '-' } else { c });
        i += 1;
        assert(out@ =~= v@.take(i as int).map_values(|c: char| if c == '/' { '-' } else { c }));
    }
    assert(v@.take(v.len() as int) =~= v@);
    string_of(&out)
}

}
