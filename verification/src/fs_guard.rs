//! What an export may do to what it finds in the file system.

use vstd::prelude::*;

use crate::commit_drive::prefixes_from;
use crate::error::{invalid_path, result_view, ErrorView, SvnError};
use crate::fspath::{join_path, joined_path};
use crate::text::{cat3, chars_of, find_char, has_prefix, slice_text, starts_with, str_eq};

verus! {

/// What stands at a path, symbolic links not followed.
#[derive(Clone, Copy, Debug, PartialEq, Eq, Structural)]
pub enum FsNode {
    Missing,
    Link,
    Dir,
    File,
    Other,
}

/// The way through a node is open: whether to look at the next one.
pub open spec fn way_through(node: FsNode) -> Result<bool, ErrorView> {
    match node {
        FsNode::Link => Err(
            ErrorView::InvalidPath("refusing to write through a symlink/reparse point"@),
        ),
        FsNode::Missing => Ok(false),
        _ => Ok(true),
    }
}

/// What a decision says.
pub open spec fn decided<T>(r: Result<T, SvnError>, v: Result<T, ErrorView>) -> bool {
    match r {
        Ok(x) => v == Ok::<T, ErrorView>(x),
        Err(e) => v == Err::<T, ErrorView>(e.deep_view()),
    }
}

/// Whether to look at the next node on the way to a file; a symbolic link is refused,
/// and behind a missing node there is nothing to look at.
pub fn guard_step(node: FsNode) -> (r: Result<bool, SvnError>)
    ensures
        decided(r, way_through(node)),
{
    match node {
        FsNode::Link => Err(invalid_path("refusing to write through a symlink/reparse point")),
        FsNode::Missing => Ok(false),
        _ => Ok(true),
    }
}

/// What to do about a directory on the way.
#[derive(Clone, Copy, Debug, PartialEq, Eq, Structural)]
pub enum DirStep {
    /// It is there.
    Next,
    /// It is to be made, and looked at again.
    Create,
}

/// What to do about a directory on the way, where `tried` says that it was made already.
pub open spec fn dir_on_the_way(node: FsNode, tried: bool) -> Result<DirStep, ErrorView> {
    match node {
        FsNode::Link => Err(
            ErrorView::InvalidPath("refusing to write through a symlink/reparse point"@),
        ),
        FsNode::Dir => Ok(DirStep::Next),
        FsNode::Missing if !tried => Ok(DirStep::Create),
        _ => Err(
            ErrorView::InvalidPath("refusing to create a directory over a non-directory"@),
        ),
    }
}

/// What to do about a directory on the way.
pub fn make_dir_step(node: FsNode, tried: bool) -> (r: Result<DirStep, SvnError>)
    ensures
        decided(r, dir_on_the_way(node, tried)),
{
    match node {
        FsNode::Link => Err(invalid_path("refusing to write through a symlink/reparse point")),
        FsNode::Dir => Ok(DirStep::Next),
        FsNode::Missing if !tried => Ok(DirStep::Create),
        _ => Err(invalid_path("refusing to create a directory over a non-directory")),
    }
}

/// How a node is removed.
#[derive(Clone, Copy, Debug, PartialEq, Eq, Structural)]
pub enum Removal {
    /// Not at all: it is not there.
    Nothing,
    /// As a file; a symbolic link is not followed.
    File,
    /// As a directory, with all that is in it.
    Tree,
}

/// How a node is removed.
pub fn removal_of(node: FsNode) -> (r: Removal)
    ensures
        r == (match node {
            FsNode::Missing => Removal::Nothing,
            FsNode::Dir => Removal::Tree,
            _ => Removal::File,
        }),
{
    match node {
        FsNode::Missing => Removal::Nothing,
        FsNode::Dir => Removal::Tree,
        _ => Removal::File,
    }
}

/// Why a delta is not applied to a link, where reparse points count as links or do not.
pub open spec fn delta_refusal(reparse_points: bool) -> Seq<char> {
    if reparse_points {
        "refusing to apply textdelta to a symlink/reparse point"@
    } else {
        "refusing to apply textdelta to a symlink"@
    }
}

/// A delta can be applied to what stands at a path.
pub fn check_delta_target(node: FsNode, reparse_points: bool) -> (r: Result<(), SvnError>)
    ensures
        result_view(r) == (if node == FsNode::Link {
            Err::<(), ErrorView>(ErrorView::InvalidPath(delta_refusal(reparse_points)))
        } else {
            Ok(())
        }),
{
    match node {
        FsNode::Link => {
            if reparse_points {
                Err(invalid_path("refusing to apply textdelta to a symlink/reparse point"))
            } else {
                Err(invalid_path("refusing to apply textdelta to a symlink"))
            }
        },
        _ => Ok(()),
    }
}

/// A path is a directory, or lies below it.
pub open spec fn at_or_below(path: Seq<char>, dir: Seq<char>) -> bool {
    path == dir || has_prefix(path, joined_path(dir, Seq::empty()))
}

/// Whether a directory can be copied to another: not into itself.
pub fn check_copy(src: &str, dest: &str) -> (r: Result<(), SvnError>)
    ensures
        result_view(r) == (if at_or_below(dest@, src@) {
            Err::<(), ErrorView>(
                ErrorView::InvalidPath("refusing to copy a directory into its own subtree"@),
            )
        } else {
            Ok(())
        }),
{
    let below = join_path(src, "");
    proof {
        reveal_strlit("");
        assert(""@ =~= Seq::<char>::empty());
    }
    if str_eq(dest, src) || starts_with(dest, &below) {
        return Err(invalid_path("refusing to copy a directory into its own subtree"));
    }
    Ok(())
}

/// Whether something can be copied into a directory.
pub fn check_copy_into(node: FsNode) -> (r: Result<(), SvnError>)
    ensures
        result_view(r) == (if node == FsNode::Link {
            Err::<(), ErrorView>(
                ErrorView::InvalidPath("refusing to copy into a symlink/reparse point"@),
            )
        } else {
            Ok(())
        }),
{
    match node {
        FsNode::Link => Err(invalid_path("refusing to copy into a symlink/reparse point")),
        _ => Ok(()),
    }
}

/// What to do about an entry of a directory that is copied.
#[derive(Clone, Copy, Debug, PartialEq, Eq, Structural)]
pub enum CopyStep {
    /// Go down into it, and copy what is missing there.
    Descend,
    /// Copy it whole.
    CopyTree,
    /// Copy it as a file.
    CopyFile,
    /// Leave what is there.
    Skip,
}

/// What to do about an entry, where `src` is what it is, `dest` is what stands in its
/// place, and `only_missing` says that what is there stays.
pub open spec fn entry_copied(src: FsNode, dest: FsNode, only_missing: bool) -> Result<
    CopyStep,
    ErrorView,
> {
    if src == FsNode::Link {
        Err(ErrorView::InvalidPath("refusing to copy a symlink/reparse point"@))
    } else if dest == FsNode::Link && (only_missing || src == FsNode::File) {
        Err(ErrorView::InvalidPath("refusing to copy a file over a symlink/reparse point"@))
    } else if only_missing && dest != FsNode::Missing {
        Ok(
            if src == FsNode::Dir && dest == FsNode::Dir {
                CopyStep::Descend
            } else {
                CopyStep::Skip
            },
        )
    } else {
        match src {
            FsNode::Dir => Ok(
                if only_missing {
                    CopyStep::CopyTree
                } else {
                    CopyStep::Descend
                },
            ),
            FsNode::File => Ok(CopyStep::CopyFile),
            _ => Err(ErrorView::InvalidPath("refusing to copy an unknown file type"@)),
        }
    }
}

/// What to do about an entry of a directory that is copied.
pub fn copy_step(src: FsNode, dest: FsNode, only_missing: bool) -> (r: Result<CopyStep, SvnError>)
    ensures
        decided(r, entry_copied(src, dest, only_missing)),
{
    if src == FsNode::Link {
        return Err(invalid_path("refusing to copy a symlink/reparse point"));
    }
    if dest == FsNode::Link && (only_missing || src == FsNode::File) {
        return Err(invalid_path("refusing to copy a file over a symlink/reparse point"));
    }
    if only_missing && dest != FsNode::Missing {
        if src == FsNode::Dir && dest == FsNode::Dir {
            return Ok(CopyStep::Descend);
        }
        return Ok(CopyStep::Skip);
    }
    match src {
        FsNode::Dir => {
            if only_missing {
                Ok(CopyStep::CopyTree)
            } else {
                Ok(CopyStep::Descend)
            }
        },
        FsNode::File => Ok(CopyStep::CopyFile),
        _ => Err(invalid_path("refusing to copy an unknown file type")),
    }
}

/// What to do about a file that is closed without a delta: whether it is copied from its
/// source. It must be there, or its source must be.
pub open spec fn file_required(dest: FsNode, source: Option<FsNode>) -> Result<bool, ErrorView> {
    if dest != FsNode::Missing {
        Ok(false)
    } else {
        match source {
            Some(s) if s != FsNode::Missing => Ok(true),
            _ => Err(ErrorView::Protocol("close-file for missing file without textdelta"@)),
        }
    }
}

/// What to do about a file that is closed without a delta.
pub fn require_file(dest: FsNode, source: Option<FsNode>) -> (r: Result<bool, SvnError>)
    ensures
        decided(r, file_required(dest, source)),
{
    if dest != FsNode::Missing {
        return Ok(false);
    }
    match source {
        Some(s) if s != FsNode::Missing => Ok(true),
        _ => Err(
            SvnError::Protocol("close-file for missing file without textdelta".to_owned()),
        ),
    }
}

/// The permissions of a file that is to be executable, or not.
pub fn executable_mode(mode: u32, on: bool) -> (r: u32)
    ensures
        r == (if on {
            mode | 0o111u32
        } else {
            mode & !0o111u32
        }),
{
    if on {
        mode | 0o111u32
    } else {
        mode & !0o111u32
    }
}

/// The nodes on the way from the root to a path, the path last.
pub open spec fn way_down(root: Seq<char>, path: Seq<char>) -> Result<Seq<Seq<char>>, ErrorView> {
    let dir = joined_path(root, Seq::empty());
    if path == root {
        Ok(Seq::empty())
    } else if !has_prefix(path, dir) {
        Err(ErrorView::InvalidPath("unsafe path"@))
    } else {
        Ok(
            prefixes_from(path.skip(dir.len() as int), 0, Seq::empty(), Seq::empty()).map_values(
                |d: Seq<char>| joined_path(root, d),
            ),
        )
    }
}

fn parts_below(rest: &str) -> (r: Vec<String>)
    ensures
        r.deep_view() == prefixes_from(rest@, 0, Seq::empty(), Seq::empty()),
{
    let mut out: Vec<String> = Vec::new();
    assert(out.deep_view() =~= Seq::<Seq<char>>::empty());
    let cs = chars_of(rest);
    let n = cs.len();
    let mut current = String::new();
    assert(current@ =~= Seq::<char>::empty());
    let mut i: usize = 0;
    let mut more = true;
    while more
        invariant
            n == cs.len(),
            cs@ == rest@,
            i <= n,
            more ==> prefixes_from(rest@, i as int, current@, out.deep_view()) == prefixes_from(
                rest@,
                0,
                Seq::empty(),
                Seq::empty(),
            ),
            !more ==> out.deep_view() == prefixes_from(rest@, 0, Seq::empty(), Seq::empty()),
        decreases (if more {
            n - i + 1
        } else {
            0
        }),
    {
        let k = find_char(&cs, '/', i);
        let part = slice_text(&cs, i, k);
        proof {
            if k >= n {
                assert(part@ =~= rest@.skip(i as int));
            }
        }
        if !part.as_str().is_empty() {
            let ghost before = out.deep_view();
            if current.as_str().is_empty() {
                current = part;
            } else {
                current = cat3(&current, "/", &part);
            }
            out.push(current.clone());
            assert(out.deep_view() =~= before.push(current@));
        }
        if k < n {
            i = k + 1;
        } else {
            more = false;
        }
    }
    out
}

/// What listing the way to a path gives.
pub open spec fn way_is(
    r: Result<Vec<String>, SvnError>,
    v: Result<Seq<Seq<char>>, ErrorView>,
) -> bool {
    match r {
        Ok(p) => v == Ok::<Seq<Seq<char>>, ErrorView>(p.deep_view()),
        Err(e) => v == Err::<Seq<Seq<char>>, ErrorView>(e.deep_view()),
    }
}

/// The nodes on the way from the root to a path, the path last.
pub fn steps_below(root: &str, path: &str) -> (r: Result<Vec<String>, SvnError>)
    ensures
        way_is(r, way_down(root@, path@)),
{
    let mut out: Vec<String> = Vec::new();
    assert(out.deep_view() =~= Seq::<Seq<char>>::empty());
    if str_eq(path, root) {
        return Ok(out);
    }
    let dir = join_path(root, "");
    proof {
        reveal_strlit("");
        assert(""@ =~= Seq::<char>::empty());
    }
    if !starts_with(path, &dir) {
        return Err(invalid_path("unsafe path"));
    }
    let cs = chars_of(path);
    let n = cs.len();
    let m = chars_of(&dir).len();
    let rest = slice_text(&cs, m, n);
    assert(rest@ =~= path@.skip(dir@.len() as int));
    let parts = parts_below(&rest);
    let ghost all = parts.deep_view();
    let mut i: usize = 0;
    while i < parts.len()
        invariant
            i <= parts.len(),
            all == parts.deep_view(),
            out@.len() == i,
            forall|k: int| 0 <= k < i ==> (#[trigger] out@[k])@ == joined_path(root@, all[k]),
        decreases parts.len() - i,
    {
        assert(all[i as int] == parts@[i as int]@);
        out.push(join_path(root, &parts[i]));
        i = i + 1;
    }
    assert(out.deep_view() =~= all.map_values(|d: Seq<char>| joined_path(root@, d)));
    Ok(out)
}

} // verus!
