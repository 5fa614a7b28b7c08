//! Repository paths, as the protocol takes them: relative, and never leading out of
//! the repository.

use vstd::prelude::*;

use crate::error::{invalid_path, result_view, ErrorView, SvnError};
use crate::text::{chars_of, strip_leading, trim, trimmed, without_leading};

verus! {

/// Between `i` and `i + 2` stands `..`, as a whole part of the path.
pub open spec fn parent_part_at(s: Seq<char>, i: int) -> bool {
    &&& 0 <= i
    &&& i + 2 <= s.len()
    &&& s[i] == '.'
    &&& s[i + 1] == '.'
    &&& i == 0 || s[i - 1] == '/'
    &&& i + 2 == s.len() || s[i + 2] == '/'
}

/// One of the parts of the path is `..`.
pub open spec fn has_parent_part(s: Seq<char>) -> bool {
    exists|i: int| parent_part_at(s, i)
}

/// The path without white space around it and without leading slashes.
pub open spec fn clean(path: Seq<char>) -> Seq<char> {
    strip_leading(trim(path), '/')
}

/// The path that names an entry of the repository.
pub open spec fn rel_path(path: Seq<char>) -> Result<Seq<char>, ErrorView> {
    if clean(path).len() == 0 {
        Err(ErrorView::InvalidPath("empty path"@))
    } else if has_parent_part(clean(path)) {
        Err(ErrorView::InvalidPath("unsafe path"@))
    } else {
        Ok(clean(path))
    }
}

/// The path that names a directory of the repository; the root is the empty path.
pub open spec fn rel_dir_path(path: Seq<char>) -> Result<Seq<char>, ErrorView> {
    if clean(path).len() == 0 {
        Ok(Seq::empty())
    } else if has_parent_part(clean(path)) {
        Err(ErrorView::InvalidPath("unsafe path"@))
    } else {
        Ok(clean(path))
    }
}

/// Whether one of the parts of the path is `..`.
pub fn contains_parent_part(path: &str) -> (r: bool)
    ensures
        r == has_parent_part(path@),
{
    let cs = chars_of(path);
    let mut i: usize = 0;
    while i < cs.len()
        invariant
            i <= cs.len(),
            cs@ == path@,
            forall|k: int| 0 <= k < i ==> !parent_part_at(path@, k),
        decreases cs.len() - i,
    {
        if cs.len() - i >= 2 && cs[i] == '.' && cs[i + 1] == '.' && (i == 0 || cs[i - 1] == '/')
            && (cs.len() - i == 2 || cs[i + 2] == '/') {
            assert(parent_part_at(path@, i as int));
            return true;
        }
        assert(!parent_part_at(path@, i as int));
        i = i + 1;
    }
    false
}

/// Checks and normalises the path of an entry of the repository.
pub fn validate_rel_path(path: &str) -> (r: Result<String, SvnError>)
    ensures
        result_view(r) == rel_path(path@),
{
    let cleaned = without_leading(&trimmed(path), '/');
    if cleaned.as_str().is_empty() {
        return Err(invalid_path("empty path"));
    }
    if contains_parent_part(&cleaned) {
        return Err(invalid_path("unsafe path"));
    }
    Ok(cleaned)
}

/// Checks and normalises the path of a directory of the repository.
pub fn validate_rel_dir_path(path: &str) -> (r: Result<String, SvnError>)
    ensures
        result_view(r) == rel_dir_path(path@),
{
    let cleaned = without_leading(&trimmed(path), '/');
    if cleaned.as_str().is_empty() {
        assert(cleaned@ =~= Seq::<char>::empty());
        return Ok(cleaned);
    }
    if contains_parent_part(&cleaned) {
        return Err(invalid_path("unsafe path"));
    }
    Ok(cleaned)
}

/// A text that begins with neither is kept when leading copies of `c` are taken off.
proof fn lemma_strip_leading(s: Seq<char>, c: char)
    ensures
        strip_leading(s, c).len() == 0 || strip_leading(s, c)[0] != c,
        strip_leading(s, c).len() <= s.len(),
        strip_leading(s, c) == s.skip(s.len() - strip_leading(s, c).len()),
    decreases s.len(),
{
    if s.len() > 0 && s[0] == c {
        lemma_strip_leading(s.drop_first(), c);
        let t = strip_leading(s, c);
        assert(s.drop_first().skip(s.len() - 1 - t.len()) =~= s.skip(s.len() - t.len()));
    } else {
        assert(s.skip(0) =~= s);
    }
}

/// A path that was accepted never begins with a slash and has no part `..`, so that it
/// leads neither to the root of a file system nor out of the directory that it is
/// joined to.
pub proof fn accepted_paths_stay_inside(path: Seq<char>)
    ensures
        rel_path(path) matches Ok(p) ==> p.len() > 0 && p[0] != '/' && !has_parent_part(p),
        rel_dir_path(path) matches Ok(p) ==> (p.len() == 0 || p[0] != '/') && !has_parent_part(p),
        rel_path(path) is Ok ==> rel_dir_path(path) == rel_path(path),
{
    lemma_strip_leading(trim(path), '/');
    assert(!has_parent_part(Seq::<char>::empty()));
}

} // verus!
