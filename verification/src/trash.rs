//! The trash launcher: where the trash lives, its icon, and the commands that
//! open and empty it.

use vstd::prelude::*;
use crate::paths::{join, join_path};
use crate::text::{string_from, strings};

verus! {

/// The data directory that holds the trash: `XDG_DATA_HOME` when set and not empty, else
/// the platform's data directory, else the current directory.
pub open spec fn trash_home_of(xdg_data_home: Option<Seq<char>>, platform: Option<Seq<char>>) -> Seq<char> {
    match xdg_data_home {
        Some(x) if x.len() > 0 => x,
        _ => match platform {
            Some(p) => p,
            None => "."@,
        },
    }
}

/// The data directory that holds the trash.
pub fn data_home(xdg_data_home: Option<&str>, platform: Option<&str>) -> (r: String)
    ensures
        r@ == trash_home_of(
            match xdg_data_home { Some(x) => Some(x@), None => None },
            match platform { Some(p) => Some(p@), None => None },
        ),
{
    match xdg_data_home {
        Some(x) if !x.is_empty() => string_from(x),
        _ => match platform {
            Some(p) => string_from(p),
            None => string_from("."),
        },
    }
}

/// The trash directory under the data directory `home`.
pub fn trash_root(home: &str) -> (r: String)
    ensures
        r@ == join(home@, "Trash"@),
{
    join_path(home, "Trash")
}

/// The directory of trashed files under the data directory `home`.
pub fn files_dir(home: &str) -> (r: String)
    ensures
        r@ == join(join(home@, "Trash"@), "files"@),
{
    let root = trash_root(home);
    join_path(root.as_str(), "files")
}

/// The trash icon: empty or full.
pub fn icon_name(trash_is_empty: bool) -> (r: &'static str)
    ensures
        r@ == if trash_is_empty {
            "user-trash"@
        } else {
            "user-trash-full"@
        },
{
    if trash_is_empty {
        "user-trash"
    } else {
        "user-trash-full"
    }
}

/// The directory to watch for changes of the trash: the first that exists of the files
/// directory, the trash directory and the data directory `home`.
pub fn monitor_dir(home: &str, files_exists: bool, root_exists: bool, home_exists: bool) -> (r: Option<String>)
    ensures
        r.deep_view() == if files_exists {
            Some(join(join(home@, "Trash"@), "files"@))
        } else if root_exists {
            Some(join(home@, "Trash"@))
        } else if home_exists {
            Some(home@)
        } else {
            None
        },
{
    if files_exists {
        Some(files_dir(home))
    } else if root_exists {
        Some(trash_root(home))
    } else if home_exists {
        Some(string_from(home))
    } else {
        None
    }
}

/// The command that shows the trash.
pub fn open() -> (r: Vec<String>)
    ensures
        strings(r@) == seq!["xdg-open"@, "trash:///"@],
{
    let mut r: Vec<String> = Vec::new();
    r.push(string_from("xdg-open"));
    r.push(string_from("trash:///"));
    assert(strings(r@) =~= seq!["xdg-open"@, "trash:///"@]);
    r
}

/// The command that empties the trash.
pub fn empty() -> (r: Vec<String>)
    ensures
        strings(r@) == seq!["gio"@, "trash"@, "--empty"@],
{
    let mut r: Vec<String> = Vec::new();
    r.push(string_from("gio"));
    r.push(string_from("trash"));
    r.push(string_from("--empty"));
    assert(strings(r@) =~= seq!["gio"@, "trash"@, "--empty"@]);
    r
}

}
