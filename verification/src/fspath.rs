//! Paths of the file system.

use vstd::prelude::*;

use crate::text::{cat, cat3, chars_of};

verus! {

/// A path behind a directory; an absolute path stands for itself.
pub open spec fn joined_path(dir: Seq<char>, path: Seq<char>) -> Seq<char> {
    if is_absolute(path) {
        path
    } else if dir.len() == 0 || dir.last() == '/' {
        dir + path
    } else {
        dir + "/"@ + path
    }
}

/// A path that starts at the root.
pub open spec fn is_absolute(path: Seq<char>) -> bool {
    path.len() > 0 && path[0] == '/'
}

/// Whether a path starts at the root.
pub fn is_absolute_path(path: &str) -> (r: bool)
    ensures
        r == is_absolute(path@),
{
    let cs = chars_of(path);
    cs.len() > 0 && cs[0] == '/'
}

/// A path behind a directory.
pub fn join_path(dir: &str, path: &str) -> (r: String)
    ensures
        r@ == joined_path(dir@, path@),
{
    if is_absolute_path(path) {
        return path.to_owned();
    }
    let cs = chars_of(dir);
    let n = cs.len();
    if n == 0 || cs[n - 1] == '/' {
        cat(dir, path)
    } else {
        cat3(dir, "/", path)
    }
}

} // verus!
