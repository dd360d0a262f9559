//! Paths held as strings, joined the way `Path::join` joins them on Unix.

use vstd::prelude::*;

use crate::text::chars_of;

verus! {

/// `base` joined with `child`: an absolute `child` replaces `base`;
/// otherwise a '/' is put between them unless `base` is empty or already
/// ends with one.
pub open spec fn path_join(base: Seq<char>, child: Seq<char>) -> Seq<char> {
    if child.len() > 0 && child[0] == '/' {
        child
    } else if base.len() == 0 || base.last() == '/' {
        base + child
    } else {
        base + "/"@ + child
    }
}

/// Joins `child` onto `base`.
pub fn join(base: &str, child: &str) -> (r: String)
    ensures
        r@ == path_join(base@, child@),
{
    let b = chars_of(base);
    let c = chars_of(child);
    if c.len() > 0 && c[0] == '/' {
        return String::from_str(child);
    }
    let mut r = String::from_str(base);
    if !(b.len() == 0 || b[b.len() - 1] == '/') {
        r.append("/");
    }
    r.append(child);
    r
}

} // verus!
