//! Icon lookup: the names tried, in order, for an icon.

use vstd::prelude::*;
use crate::text::{chars_of, chars_eq, lowercase, lowercase_chars, strings, string_of, sub_chars, ends_with};

verus! {

/// `name` without a trailing `.png`, `.svg` or `.xpm` (the first that matches), else `name`.
pub open spec fn strip_image_ext(name: Seq<char>) -> Seq<char> {
    if ends_with(name, ".png"@) || ends_with(name, ".svg"@) || ends_with(name, ".xpm"@) {
        name.subrange(0, name.len() - 4)
    } else {
        name
    }
}

/// The icon names to try for `name`: the name itself; then the name without its image
/// extension, when it had one; then that in lower case, unless already listed.
pub open spec fn candidates(name: Seq<char>) -> Seq<Seq<char>> {
    let no_ext = strip_image_ext(name);
    let first = if no_ext != name {
        seq![name, no_ext]
    } else {
        seq![name]
    };
    let lower = lowercase(no_ext);
    if first.contains(lower) {
        first
    } else {
        first.push(lower)
    }
}

/// Whether `v` ends with the four characters of `ext`.
fn has_ext(v: &Vec<char>, ext: &str) -> (r: bool)
    requires
        ext@.len() == 4,
    ensures
        r == ends_with(v@, ext@),
{
    let e = chars_of(ext);
    if v.len() < 4 {
        return false;
    }
    let tail = sub_chars(v, v.len() - 4, v.len());
    chars_eq(&tail, &e)
}

/// The icon names to try for `name`, in order.
pub fn icon_candidates(name: &str) -> (r: Vec<String>)
    ensures
        strings(r@) == candidates(name@),
{
    let v = chars_of(name);
    proof {
        reveal_strlit(".png");
        reveal_strlit(".svg");
        reveal_strlit(".xpm");
    }
    let stripped = if has_ext(&v, ".png") || has_ext(&v, ".svg") || has_ext(&v, ".xpm") {
        sub_chars(&v, 0, v.len() - 4)
    } else {
        sub_chars(&v, 0, v.len())
    };
    assert(stripped@ == strip_image_ext(name@)) by {
        assert(v@.subrange(0, v@.len() as int) =~= v@);
    }
    let mut out: Vec<String> = Vec::new();
    out.push(string_of(&v));
    let differs = !chars_eq(&stripped, &v);
    if differs {
        out.push(string_of(&stripped));
    }
    let ghost first = strings(out@);
    assert(first =~= if strip_image_ext(name@) != name@ {
        seq![name@, strip_image_ext(name@)]
    } else {
        seq![name@]
    });
    let lower = lowercase_chars(&stripped);
    let mut listed = false;
    let mut i: usize = 0;
    while i < out.len()
        invariant
            i <= out.len(),
            first == strings(out@),
            listed == exists|j: int| 0 <= j < i && first[j] == lower@,
        decreases out.len() - i,
    {
        let c = chars_of(out[i].as_str());
        assert(c@ == first[i as int]);
        if chars_eq(&c, &lower) {
            listed = true;
        }
        i += 1;
    }
    assert(listed == first.contains(lower@));
    if !listed {
        out.push(string_of(&lower));
        assert(strings(out@) =~= first.push(lower@));
    }
    out
}

/// Whether `name` is a file path rather than an icon-theme name.
pub fn is_icon_path(name: &str) -> (r: bool)
    ensures
        r == (name@.len() > 0 && name@[0] == '/'),
{
    let v = chars_of(name);
    v.len() > 0 && v[0] == '/'
}

/// The icon shown when no other is found.
pub fn fallback_icon_name() -> (r: &'static str)
    ensures
        r@ == "application-x-executable"@,
{
    "application-x-executable"
}

}
