//! What an export leaves on disk: the directories that were added, the files with their
//! texts, and nothing of what was deleted.

use vstd::prelude::*;

use crate::answer_laws::{bare, behind_slashes};
use crate::editor::EditView;
use crate::error::ErrorView;
use crate::export::tmp_path;
use crate::export_laws::{
    deltas_leave_the_decoded_text, delta_events, took_event, took_events, DiskView,
};
use crate::export_plan::{lookup, ExportUpdateView, ExportView, FsActionView, PendingView};
use crate::keymap::in_order;
use crate::path_laws::{
    a_path_is_exported_to_its_place, exportable, exported_part, is_prefix, placed_in, tight,
};
use crate::text::is_space;
use crate::textdelta::apply_delta;

verus! {

/// Something stands below a directory.
pub open spec fn stands_below(path: Seq<char>, dir: Seq<char>) -> bool {
    path.len() > dir.len() && path.take(dir.len() as int) == dir && (path[dir.len() as int] == '/'
        || dir.len() > 0 && dir.last() == '/')
}

/// A path is another one, or stands below it.
pub open spec fn is_in(path: Seq<char>, dir: Seq<char>) -> bool {
    path == dir || stands_below(path, dir)
}

/// The same path below another directory.
pub open spec fn moved(path: Seq<char>, from: Seq<char>, to: Seq<char>) -> Seq<char> {
    to + path.skip(from.len() as int)
}

/// A file system: its directories, its files with the deltas that are being applied, and
/// which files are executable.
#[verifier::ext_equal]
pub struct TreeView {
    pub dirs: Set<Seq<char>>,
    pub disk: DiskView,
    pub runs: Set<Seq<char>>,
}

impl TreeView {
    /// A file stands at this path, or a directory does.
    pub open spec fn has(self, path: Seq<char>) -> bool {
        self.dirs.contains(path) || self.disk.files.dom().contains(path)
    }

    /// The tree with a directory, and with those above it.
    pub open spec fn with_dir(self, path: Seq<char>) -> TreeView {
        TreeView {
            dirs: Set::new(|d: Seq<char>| self.dirs.contains(d) || is_in(path, d)),
            ..self
        }
    }

    /// The tree with the directories above a path.
    pub open spec fn with_parents(self, path: Seq<char>) -> TreeView {
        TreeView {
            dirs: Set::new(|d: Seq<char>| self.dirs.contains(d) || stands_below(path, d)),
            ..self
        }
    }

    /// The tree with these files.
    pub open spec fn with_files(self, files: Map<Seq<char>, Seq<u8>>) -> TreeView {
        TreeView { disk: DiskView { files, ..self.disk }, ..self }
    }

    /// The tree without a path and without all that stands below it.
    pub open spec fn without(self, path: Seq<char>) -> TreeView {
        TreeView {
            dirs: Set::new(|d: Seq<char>| self.dirs.contains(d) && !is_in(d, path)),
            ..self.with_files(
                Map::new(
                    |f: Seq<char>| self.disk.files.dom().contains(f) && !is_in(f, path),
                    |f: Seq<char>| self.disk.files[f],
                ),
            )
        }
    }

    /// What stands at a path once a directory has been copied: what stood there, or else
    /// what stands at the same path below the source.
    pub open spec fn copied_file(self, src: Seq<char>, dest: Seq<char>, f: Seq<char>) -> Option<
        Seq<u8>,
    > {
        if self.disk.files.dom().contains(f) {
            Some(self.disk.files[f])
        } else if stands_below(f, dest) {
            lookup(self.disk.files, moved(f, dest, src))
        } else {
            None
        }
    }

    /// The tree once a directory has been copied, where that is there.
    pub open spec fn with_copy(self, src: Seq<char>, dest: Seq<char>) -> TreeView {
        if !self.dirs.contains(src) {
            self
        } else {
            TreeView {
                dirs: Set::new(
                    |d: Seq<char>|
                        self.dirs.contains(d) || stands_below(d, dest) && self.dirs.contains(
                            moved(d, dest, src),
                        ),
                ),
                ..self.with_files(
                    Map::new(
                        |f: Seq<char>| self.copied_file(src, dest, f) is Some,
                        |f: Seq<char>| self.copied_file(src, dest, f)->0,
                    ),
                )
            }
        }
    }

    /// What an action does, if it does not fail, to the tree below `root`.
    pub open spec fn after(self, root: Seq<char>, a: FsActionView) -> Option<TreeView> {
        match a {
            FsActionView::MakeRoot => Some(self.with_dir(root)),
            FsActionView::MakeDirs { path } => Some(self.with_dir(path)),
            FsActionView::MakeParents { path } => Some(self.with_parents(path)),
            FsActionView::CopyDir { src, dest } => Some(self.with_copy(src, dest)),
            FsActionView::Remove { path } => Some(self.without(path)),
            FsActionView::CheckWay { .. } => Some(self),
            FsActionView::RequireFile { dest, source } => if self.has(dest) {
                Some(self)
            } else {
                match source {
                    Some(s) => match lookup(self.disk.files, s) {
                        Some(b) => Some(self.with_files(self.disk.files.insert(dest, b))),
                        None => None,
                    },
                    None => None,
                }
            },
            FsActionView::DropTmp { path } => Some(self.with_files(self.disk.files.remove(path))),
            FsActionView::FinishText { dest, executable, .. } => match self.disk.after(a) {
                Some(disk) => Some(
                    TreeView {
                        disk,
                        runs: match executable {
                            Some(true) => self.runs.insert(dest),
                            Some(false) => self.runs.remove(dest),
                            None => self.runs,
                        },
                        ..self
                    },
                ),
                None => None,
            },
            _ => match self.disk.after(a) {
                Some(disk) => Some(TreeView { disk, ..self }),
                None => None,
            },
        }
    }

    /// What the first `n` actions do.
    pub open spec fn after_all(
        self,
        root: Seq<char>,
        actions: Seq<FsActionView>,
        n: int,
    ) -> Option<TreeView>
        decreases n,
    {
        if n <= 0 || n > actions.len() {
            Some(self)
        } else {
            match self.after_all(root, actions, n - 1) {
                Some(t) => t.after(root, actions[n - 1]),
                None => None,
            }
        }
    }
}

/// What an export knows, and what stands on disk, after an event that is planned, done and
/// confirmed without failing.
pub open spec fn tree_after(v: ExportView, tree: TreeView, e: EditView) -> Option<
    (ExportView, TreeView),
> {
    let p = v.plan(e);
    match tree.after_all(v.root, p.actions, p.actions.len() as int) {
        Some(t) => match p.outcome {
            Ok(u) => Some(
                (v.planned(e).acted_all(p.actions, p.actions.len() as int).updated(u), t),
            ),
            Err(_) => None,
        },
        None => None,
    }
}

/// What is known, and what stands on disk, after events.
pub open spec fn tree_after_all(v: ExportView, tree: TreeView, events: Seq<EditView>) -> Option<
    (ExportView, TreeView),
>
    decreases events.len(),
{
    if events.len() == 0 {
        Some((v, tree))
    } else {
        match tree_after(v, tree, events[0]) {
            Some((w, t)) => tree_after_all(w, t, events.drop_first()),
            None => None,
        }
    }
}

/// A path of a drive is exported to this place below the root: to the place that it has
/// below the prefix that is stripped, if it stands below that, or else in the repository.
pub open spec fn goes_to(
    root: Seq<char>,
    prefix: Option<Seq<char>>,
    given: Seq<char>,
    place: Seq<char>,
) -> bool {
    &&& prefix matches Some(q) ==> is_prefix(q)
    &&& exists|n: nat, path: Seq<char>, p: Seq<char>| #[trigger]
        goes_as(root, prefix, given, place, n, path, p)
}

/// The path is given with so many slashes, and this part of it is exported.
pub open spec fn goes_as(
    root: Seq<char>,
    prefix: Option<Seq<char>>,
    given: Seq<char>,
    place: Seq<char>,
    n: nat,
    path: Seq<char>,
    p: Seq<char>,
) -> bool {
    &&& given == behind_slashes(n, path)
    &&& bare(path)
    &&& path.len() > 0 ==> !is_space(path.last())
    &&& n == 0 ==> tight(path)
    &&& exported_part(prefix, path, p)
    &&& exportable(p) || p.len() == 0
    &&& place == placed_in(root, p)
}

proof fn lemma_goes(v: ExportView, given: Seq<char>, place: Seq<char>)
    requires
        goes_to(v.root, v.strip_prefix, given, place),
    ensures
        v.at(given, true) == Ok::<Seq<char>, ErrorView>(place),
        v.at(given, false) matches Ok(x) ==> x == place,
{
    let (n, path, p) = choose|n: nat, path: Seq<char>, p: Seq<char>| #[trigger]
        goes_as(v.root, v.strip_prefix, given, place, n, path, p);
    a_path_is_exported_to_its_place(v.root, v.strip_prefix, n, path, p, true);
    a_path_is_exported_to_its_place(v.root, v.strip_prefix, n, path, p, false);
}

/// The directory that an event enters, and what it is copied from.
pub open spec fn dir_of(e: EditView) -> Option<(Seq<char>, Option<(Seq<char>, u64)>)> {
    match e {
        EditView::AddDir { path, copy_from, .. } => Some((path, copy_from)),
        EditView::OpenDir { path, .. } => Some((path, None)),
        _ => None,
    }
}

/// A directory that a drive adds or opens stands on disk, at its place, with those above it;
/// what was there stays.
pub proof fn a_directory_that_is_added_is_there(
    v: ExportView,
    tree: TreeView,
    e: EditView,
    place: Seq<char>,
)
    requires
        dir_of(e) matches Some((path, from)) && (from is None || !v.copies) && goes_to(
            v.root,
            v.strip_prefix,
            path,
            place,
        ),
    ensures
        tree_after(v, tree, e) matches Some((w, t)) && {
            &&& t.dirs.contains(place)
            &&& forall|d: Seq<char>| #[trigger]
                t.dirs.contains(d) <==> tree.dirs.contains(d) || is_in(place, d)
            &&& t.disk == tree.disk
            &&& t.runs == tree.runs
            &&& w == v
        },
{
    let (path, from) = dir_of(e)->0;
    lemma_goes(v, path, place);
    reveal_with_fuel(TreeView::after_all, 2);
    reveal_with_fuel(ExportView::acted_all, 2);
}

/// A directory that is copied, where copies count, holds all files of its source that are
/// not there already, each with its text.
pub proof fn a_directory_that_is_copied_holds_its_source(
    v: ExportView,
    tree: TreeView,
    e: EditView,
    place: Seq<char>,
    src: Seq<char>,
    f: Seq<char>,
)
    requires
        v.copies,
        dir_of(e) matches Some((path, Some((from, rev)))) && goes_to(
            v.root,
            v.strip_prefix,
            path,
            place,
        ) && goes_to(v.root, v.strip_prefix, from, src),
        tree.dirs.contains(src),
        stands_below(f, src),
        f[src.len() as int] == '/',
        tree.disk.files.dom().contains(f),
    ensures
        tree_after(v, tree, e) matches Some((w, t)) && {
            &&& t.dirs.contains(place)
            &&& t.disk.files.dom().contains(moved(f, src, place))
            &&& !tree.disk.files.dom().contains(moved(f, src, place)) ==> t.disk.files[moved(
                f,
                src,
                place,
            )] == tree.disk.files[f]
            &&& forall|x: Seq<char>| #[trigger]
                tree.disk.files.dom().contains(x) ==> t.disk.files.dom().contains(x)
                    && t.disk.files[x] == tree.disk.files[x]
        },
{
    let (path, from) = dir_of(e)->0;
    let (s, rev) = from->0;
    lemma_goes(v, path, place);
    lemma_goes(v, s, src);
    reveal_with_fuel(TreeView::after_all, 3);
    reveal_with_fuel(ExportView::acted_all, 3);
    let g = moved(f, src, place);
    let first = tree.with_dir(place);
    assert(first.dirs.contains(src));
    lemma_moved(f, src, place);
    assert(stands_below(g, place));
    assert(first.copied_file(src, place, g) is Some);
    let t = first.with_copy(src, place);
    assert(tree.after_all(v.root, v.plan(e).actions, 1) == Some(first));
    assert(tree.after_all(v.root, v.plan(e).actions, 2) == Some(t));
}

proof fn lemma_moved(f: Seq<char>, src: Seq<char>, dest: Seq<char>)
    requires
        stands_below(f, src),
    ensures
        moved(f, src, dest).take(dest.len() as int) == dest,
        moved(f, src, dest).len() > dest.len(),
        moved(f, src, dest)[dest.len() as int] == f[src.len() as int],
        moved(moved(f, src, dest), dest, src) == f,
{
    let g = moved(f, src, dest);
    assert(g.take(dest.len() as int) =~= dest);
    assert(moved(g, dest, src) =~= f) by {
        assert(f =~= f.take(src.len() as int) + f.skip(src.len() as int));
        assert(g.skip(dest.len() as int) =~= f.skip(src.len() as int));
    }
}

/// Nothing that a drive deletes stays on disk, nor anything below it; all else stays as it
/// was.
pub proof fn what_is_deleted_is_gone(
    v: ExportView,
    tree: TreeView,
    path: Seq<char>,
    rev: u64,
    dir_token: Seq<char>,
    place: Seq<char>,
)
    requires
        goes_to(v.root, v.strip_prefix, path, place),
        v.at(path, false) is Ok,
    ensures
        tree_after(v, tree, EditView::DeleteEntry { path, rev, dir_token }) matches Some((w, t))
            && {
            &&& w == v
            &&& !t.has(place)
            &&& forall|x: Seq<char>| is_in(x, place) ==> !#[trigger] t.has(x)
            &&& forall|x: Seq<char>|
                !is_in(x, place) ==> (#[trigger] t.dirs.contains(x) <==> tree.dirs.contains(x))
            &&& forall|x: Seq<char>|
                !is_in(x, place) ==> #[trigger] lookup(t.disk.files, x) == lookup(
                    tree.disk.files,
                    x,
                )
        },
{
    lemma_goes(v, path, place);
    reveal_with_fuel(TreeView::after_all, 2);
    reveal_with_fuel(ExportView::acted_all, 2);
}

/// The file that an event opens: its path, its token, and what it is copied from.
pub open spec fn file_of(e: EditView) -> Option<(Seq<char>, Seq<char>, Option<(Seq<char>, u64)>)> {
    match e {
        EditView::AddFile { path, file_token, copy_from, .. } => Some(
            (path, file_token, copy_from),
        ),
        EditView::OpenFile { path, file_token, .. } => Some((path, file_token, None)),
        _ => None,
    }
}

/// From the event that opens it on, a token stands for the place of its file, and, where
/// copies count, for the place of what it is copied from. The directories above the file
/// are there; nothing else changes.
pub proof fn a_token_stands_for_its_file(
    v: ExportView,
    tree: TreeView,
    e: EditView,
    place: Seq<char>,
    src: Option<Seq<char>>,
)
    requires
        file_of(e) matches Some((path, token, from)) && goes_to(
            v.root,
            v.strip_prefix,
            path,
            place,
        ) && v.at(path, false) is Ok && match from {
            Some((s, _)) if v.copies => src matches Some(x) && goes_to(
                v.root,
                v.strip_prefix,
                s,
                x,
            ) && v.at(s, false) is Ok,
            _ => src is None,
        },
    ensures
        tree_after(v, tree, e) matches Some((w, t)) && ({
            let (path, token, from) = file_of(e)->0;
            &&& w.files == v.files.insert(token, place)
            &&& src matches Some(x) ==> w.sources == v.sources.insert(token, x)
            &&& src is None ==> w.sources == v.sources
            &&& w.root == v.root && w.strip_prefix == v.strip_prefix && w.copies == v.copies
            &&& w.pending == v.pending && w.executable == v.executable
            &&& w.next_tmp_id == v.next_tmp_id
            &&& forall|d: Seq<char>| #[trigger]
                t.dirs.contains(d) <==> tree.dirs.contains(d) || stands_below(place, d)
            &&& t.disk == tree.disk
            &&& t.runs == tree.runs
        }),
{
    let (path, token, from) = file_of(e)->0;
    lemma_goes(v, path, place);
    reveal_with_fuel(TreeView::after_all, 3);
    reveal_with_fuel(ExportView::acted_all, 3);
    if let Some((s, _)) = from {
        if v.copies {
            lemma_goes(v, s, src->0);
        }
    }
}

/// An event whose actions the two models of the disk agree on.
proof fn lemma_same_disk(v: ExportView, tree: TreeView, e: EditView)
    requires
        e is ApplyTextDelta || e is TextDeltaChunk || e is TextDeltaEnd,
    ensures
        tree_after(v, tree, e) is Some <==> took_event(v, tree.disk, e) is Some,
        took_event(v, tree.disk, e) matches Some((w, d)) ==> tree_after(v, tree, e) == Some(
            (w, TreeView { disk: d, ..tree }),
        ),
{
    reveal_with_fuel(TreeView::after_all, 3);
    reveal_with_fuel(DiskView::after_all, 3);
}

proof fn lemma_same_events(v: ExportView, tree: TreeView, events: Seq<EditView>)
    requires
        forall|k: int|
            0 <= k < events.len() ==> (#[trigger] events[k]) is ApplyTextDelta || events[k]
                is TextDeltaChunk || events[k] is TextDeltaEnd,
    ensures
        took_events(v, tree.disk, events) matches Some((w, d)) ==> tree_after_all(v, tree, events)
            == Some((w, TreeView { disk: d, ..tree })),
    decreases events.len(),
{
    if events.len() > 0 {
        assert(events[0] is ApplyTextDelta || events[0] is TextDeltaChunk || events[0]
            is TextDeltaEnd);
        lemma_same_disk(v, tree, events[0]);
        if let Some((w, d)) = took_event(v, tree.disk, events[0]) {
            let rest = events.drop_first();
            assert forall|k: int| 0 <= k < rest.len() implies (#[trigger] rest[k])
                is ApplyTextDelta || rest[k] is TextDeltaChunk || rest[k] is TextDeltaEnd by {
                assert(rest[k] == events[k + 1]);
            }
            lemma_same_events(w, TreeView { disk: d, ..tree }, rest);
        }
    }
}

proof fn lemma_delta_keeps(
    v: ExportView,
    tree: TreeView,
    token: Seq<char>,
    base_checksum: Option<Seq<char>>,
    chunks: Seq<Seq<u8>>,
)
    ensures
        tree_after_all(v, tree, delta_events(token, base_checksum, chunks)) matches Some((w, t))
            ==> w.executable == v.executable && w.root == v.root && w.strip_prefix
            == v.strip_prefix && w.copies == v.copies && w.files == v.files,
{
    let events = delta_events(token, base_checksum, chunks);
    assert forall|k: int| 0 <= k < events.len() implies (#[trigger] events[k]) is ApplyTextDelta
        || events[k] is TextDeltaChunk || events[k] is TextDeltaEnd by {}
    lemma_quiet(v, tree, events);
}

proof fn lemma_quiet(v: ExportView, tree: TreeView, events: Seq<EditView>)
    requires
        forall|k: int|
            0 <= k < events.len() ==> (#[trigger] events[k]) is ApplyTextDelta || events[k]
                is TextDeltaChunk || events[k] is TextDeltaEnd,
    ensures
        tree_after_all(v, tree, events) matches Some((w, t)) ==> w.executable == v.executable
            && w.root == v.root && w.strip_prefix == v.strip_prefix && w.copies == v.copies
            && w.files == v.files && t.dirs == tree.dirs && t.runs == tree.runs,
    decreases events.len(),
{
    if events.len() > 0 {
        reveal_with_fuel(TreeView::after_all, 3);
        reveal_with_fuel(ExportView::acted_all, 3);
        assert(events[0] is ApplyTextDelta || events[0] is TextDeltaChunk || events[0]
            is TextDeltaEnd);
        if let Some((w, t)) = tree_after(v, tree, events[0]) {
            let rest = events.drop_first();
            assert forall|k: int| 0 <= k < rest.len() implies (#[trigger] rest[k])
                is ApplyTextDelta || rest[k] is TextDeltaChunk || rest[k] is TextDeltaEnd by {
                assert(rest[k] == events[k + 1]);
            }
            lemma_quiet(w, t, rest);
        }
    }
}

/// A file whose delta is sent and that is then closed stands on disk at its place, with the
/// text that the delta gives from what stood there, or, where nothing stood there, from what
/// it is copied from. It is executable if that was said of its token, and not if the
/// opposite was said. No other file changes.
#[verifier::rlimit(60)]
pub proof fn a_file_that_is_sent_is_there(
    v: ExportView,
    tree: TreeView,
    token: Seq<char>,
    base_checksum: Option<Seq<char>>,
    text_checksum: Option<Seq<char>>,
    chunks: Seq<Seq<u8>>,
    out: Seq<u8>,
)
    requires
        v.files.dom().contains(token),
        !tree.disk.files.dom().contains(tmp_path(v.files[token], token, v.tmp_id())),
        apply_delta(tree.disk.base(v.files[token], lookup(v.sources, token)), chunks) == (
            out,
            Ok::<(), ErrorView>(()),
        ),
    ensures
        tree_after_all(v, tree, delta_events(token, base_checksum, chunks)) matches Some((w, t))
            && (tree_after(
            w,
            t,
            EditView::CloseFile { file_token: token, text_checksum },
        ) matches Some((x, u)) && {
            &&& u.disk.files == tree.disk.files.insert(v.files[token], out)
            &&& u.dirs == tree.dirs
            &&& forall|f: Seq<char>| #[trigger]
                u.runs.contains(f) <==> (if f == v.files[token] && v.executable.dom().contains(
                    token,
                ) {
                    v.executable[token]
                } else {
                    tree.runs.contains(f)
                })
            &&& !x.files.dom().contains(token)
            &&& !x.pending.dom().contains(token)
        }),
{
    let dest = v.files[token];
    let events = delta_events(token, base_checksum, chunks);
    let close = EditView::CloseFile { file_token: token, text_checksum };
    deltas_leave_the_decoded_text(
        v,
        tree.disk,
        token,
        base_checksum,
        text_checksum,
        chunks,
        out,
    );
    assert forall|k: int| 0 <= k < events.len() implies (#[trigger] events[k]) is ApplyTextDelta
        || events[k] is TextDeltaChunk || events[k] is TextDeltaEnd by {}
    lemma_same_events(v, tree, events);
    lemma_delta_keeps(v, tree, token, base_checksum, chunks);
    let (w, d) = took_events(v, tree.disk, events)->0;
    let t = TreeView { disk: d, ..tree };
    lemma_pending_after(v, tree.disk, token, base_checksum, chunks);
    lemma_finished(w, t, token, text_checksum);
}

/// Closing a file whose delta has ended does what it does to the files, and makes the file
/// executable or not.
proof fn lemma_finished(
    w: ExportView,
    t: TreeView,
    token: Seq<char>,
    text_checksum: Option<Seq<char>>,
)
    requires
        w.pending.dom().contains(token),
        took_event(
            w,
            t.disk,
            EditView::CloseFile { file_token: token, text_checksum },
        ) is Some,
    ensures
        ({
            let close = EditView::CloseFile { file_token: token, text_checksum };
            let dest = w.pending[token].dest;
            tree_after(w, t, close) matches Some((x, u)) && {
                &&& took_event(w, t.disk, close) == Some((x, u.disk))
                &&& u.dirs == t.dirs
                &&& u.runs == (match lookup(w.executable, token) {
                    Some(true) => t.runs.insert(dest),
                    Some(false) => t.runs.remove(dest),
                    None => t.runs,
                })
                &&& !x.files.dom().contains(token)
                &&& !x.pending.dom().contains(token)
            }
        }),
{
    let close = EditView::CloseFile { file_token: token, text_checksum };
    let p = w.plan(close);
    reveal_with_fuel(TreeView::after_all, 2);
    reveal_with_fuel(DiskView::after_all, 2);
    reveal_with_fuel(ExportView::acted_all, 2);
    assert(p.outcome is Ok);
    assert(p.actions.len() == 1);
    assert(p.actions[0] is FinishText);
}

/// After the events that send a delta, the file of the token is pending.
proof fn lemma_pending_after(
    v: ExportView,
    disk: DiskView,
    token: Seq<char>,
    base_checksum: Option<Seq<char>>,
    chunks: Seq<Seq<u8>>,
)
    requires
        v.files.dom().contains(token),
        took_events(v, disk, delta_events(token, base_checksum, chunks)) is Some,
    ensures
        took_events(v, disk, delta_events(token, base_checksum, chunks)) matches Some((w, d))
            && w.pending.dom().contains(token) && w.pending[token].dest == v.files[token],
{
    let events = delta_events(token, base_checksum, chunks);
    let begin = EditView::ApplyTextDelta { file_token: token, base_checksum };
    assert(events[0] == begin);
    reveal_with_fuel(DiskView::after_all, 3);
    reveal_with_fuel(ExportView::acted_all, 3);
    let (w, d) = took_event(v, disk, begin)->0;
    let rest = events.drop_first();
    assert forall|k: int| 0 <= k < rest.len() implies ((#[trigger] rest[k]) is TextDeltaChunk
        || rest[k] is TextDeltaEnd) by {
        assert(rest[k] == events[k + 1]);
    }
    lemma_pending_stays(w, d, token, rest);
}

proof fn lemma_pending_stays(
    v: ExportView,
    disk: DiskView,
    token: Seq<char>,
    events: Seq<EditView>,
)
    requires
        v.pending.dom().contains(token),
        forall|k: int|
            0 <= k < events.len() ==> ((#[trigger] events[k]) is TextDeltaChunk || events[k]
                is TextDeltaEnd),
    ensures
        took_events(v, disk, events) matches Some((w, d)) ==> w.pending.dom().contains(token)
            && w.pending[token].dest == v.pending[token].dest,
    decreases events.len(),
{
    if events.len() > 0 {
        reveal_with_fuel(DiskView::after_all, 2);
        reveal_with_fuel(ExportView::acted_all, 2);
        assert(events[0] is TextDeltaChunk || events[0] is TextDeltaEnd);
        if let Some((w, d)) = took_event(v, disk, events[0]) {
            let rest = events.drop_first();
            assert forall|k: int| 0 <= k < rest.len() implies ((#[trigger] rest[k])
                is TextDeltaChunk || rest[k] is TextDeltaEnd) by {
                assert(rest[k] == events[k + 1]);
            }
            lemma_pending_stays(w, d, token, rest);
        }
    }
}

/// A file that is added under a path, sent and closed stands on disk at the place of the
/// path, with the text that its delta gives.
pub proof fn an_added_file_is_exported(
    v: ExportView,
    tree: TreeView,
    e: EditView,
    place: Seq<char>,
    base_checksum: Option<Seq<char>>,
    text_checksum: Option<Seq<char>>,
    chunks: Seq<Seq<u8>>,
    out: Seq<u8>,
)
    requires
        file_of(e) matches Some((path, token, None)) && goes_to(
            v.root,
            v.strip_prefix,
            path,
            place,
        ) && v.at(path, false) is Ok && !v.sources.dom().contains(token)
            && !tree.disk.files.dom().contains(tmp_path(place, token, v.tmp_id()))
            && !tree.disk.files.dom().contains(place) && apply_delta(Seq::empty(), chunks) == (
            out,
            Ok::<(), ErrorView>(()),
        ),
    ensures
        ({
            let (path, token, from) = file_of(e)->0;
            let close = EditView::CloseFile { file_token: token, text_checksum };
            tree_after(v, tree, e) matches Some((a, s)) && (tree_after_all(
                a,
                s,
                delta_events(token, base_checksum, chunks),
            ) matches Some((w, t)) && (tree_after(w, t, close) matches Some((x, u))
                && u.disk.files == tree.disk.files.insert(place, out)))
        }),
{
    let (path, token, from) = file_of(e)->0;
    a_token_stands_for_its_file(v, tree, e, place, None);
    let (a, s) = tree_after(v, tree, e)->0;
    assert(s.disk.base(place, lookup(a.sources, token)) =~= Seq::empty());
    a_file_that_is_sent_is_there(a, s, token, base_checksum, text_checksum, chunks, out);
}

/// What is said of a file's being executable is kept under its token, until the file is
/// closed; other properties change nothing.
pub proof fn whether_a_file_runs_is_kept(
    v: ExportView,
    tree: TreeView,
    token: Seq<char>,
    name: Seq<char>,
    value: Option<Seq<u8>>,
)
    ensures
        tree_after(
            v,
            tree,
            EditView::ChangeFileProp { file_token: token, name, value },
        ) matches Some((w, t)) && {
            &&& t == tree
            &&& name == "svn:executable"@ ==> w == (ExportView {
                executable: v.executable.insert(token, value is Some),
                ..v
            })
            &&& name != "svn:executable"@ ==> w == v
        },
{
    reveal_with_fuel(TreeView::after_all, 2);
}

/// A file that is closed without a delta must be there, or be copied from what it is copied
/// from.
pub proof fn a_file_without_a_delta_is_there(
    v: ExportView,
    tree: TreeView,
    token: Seq<char>,
    text_checksum: Option<Seq<char>>,
)
    requires
        v.files.dom().contains(token),
        !v.pending.dom().contains(token),
    ensures
        ({
            let dest = v.files[token];
            let close = EditView::CloseFile { file_token: token, text_checksum };
            match tree_after(v, tree, close) {
                Some((w, t)) => {
                    &&& t.has(dest)
                    &&& tree.has(dest) ==> t == tree
                    &&& !tree.has(dest) ==> v.sources.dom().contains(token)
                        && tree.disk.files.dom().contains(v.sources[token]) && t.disk.files
                        == tree.disk.files.insert(dest, tree.disk.files[v.sources[token]])
                    &&& !w.files.dom().contains(token)
                },
                None => !tree.has(dest),
            }
        }),
{
    reveal_with_fuel(TreeView::after_all, 2);
    reveal_with_fuel(ExportView::acted_all, 2);
}

/// An edit that is aborted leaves no temporary file, and one that is closed has none.
pub proof fn no_temporary_file_remains(v: ExportView, tree: TreeView, token: Seq<char>)
    requires
        v.pending.dom().contains(token),
        in_order(v.pending.dom()).to_set() == v.pending.dom(),
    ensures
        tree_after(v, tree, EditView::AbortEdit) matches Some((w, t))
            && !t.disk.files.dom().contains(v.pending[token].tmp) && w.pending
            == Map::<Seq<char>, PendingView>::empty(),
        v.pending.dom().finite() ==> tree_after(v, tree, EditView::CloseEdit) is None,
{
    let actions = v.drop_tmps();
    let keys = in_order(v.pending.dom());
    assert(keys.to_set().contains(token));
    let k = choose|k: int| 0 <= k < keys.len() && keys[k] == token;
    assert(actions[k] == (FsActionView::DropTmp { path: v.pending[token].tmp }));
    lemma_dropped(tree, v.root, actions, actions.len() as int);
    if v.pending.dom().finite() {
        if v.pending.dom().len() == 0 {
            v.pending.dom().lemma_len0_is_empty();
        }
    }
}

proof fn lemma_dropped(tree: TreeView, root: Seq<char>, actions: Seq<FsActionView>, n: int)
    requires
        0 <= n <= actions.len(),
        forall|k: int| 0 <= k < actions.len() ==> (#[trigger] actions[k]) is DropTmp,
    ensures
        tree.after_all(root, actions, n) matches Some(t) && forall|k: int|
            0 <= k < n ==> !t.disk.files.dom().contains((#[trigger] actions[k])->DropTmp_path),
    decreases n,
{
    if n > 0 {
        lemma_dropped(tree, root, actions, n - 1);
        assert(actions[n - 1] is DropTmp);
    }
}

/// No event but a deletion takes a directory away.
proof fn lemma_dirs_stay(v: ExportView, tree: TreeView, e: EditView)
    requires
        e !is DeleteEntry,
    ensures
        tree_after(v, tree, e) matches Some((w, t)) ==> (forall|d: Seq<char>|
            tree.dirs.contains(d) ==> #[trigger] t.dirs.contains(d)) && w.root == v.root
            && w.strip_prefix == v.strip_prefix && w.copies == v.copies,
{
    reveal_with_fuel(TreeView::after_all, 3);
    reveal_with_fuel(ExportView::acted_all, 3);
    if e is AbortEdit {
        lemma_tmps_only(tree, v.root, v.drop_tmps(), v.drop_tmps().len() as int);
        lemma_known_stays(v, v.drop_tmps(), v.drop_tmps().len() as int);
    }
}

proof fn lemma_known_stays(v: ExportView, actions: Seq<FsActionView>, n: int)
    ensures
        v.acted_all(actions, n).root == v.root,
        v.acted_all(actions, n).strip_prefix == v.strip_prefix,
        v.acted_all(actions, n).copies == v.copies,
        (forall|k: int| 0 <= k < actions.len() ==> (#[trigger] actions[k]) is DropTmp)
            ==> v.acted_all(actions, n) == v,
    decreases n,
{
    if 0 < n <= actions.len() {
        lemma_known_stays(v, actions, n - 1);
    }
}

proof fn lemma_tmps_only(tree: TreeView, root: Seq<char>, actions: Seq<FsActionView>, n: int)
    requires
        0 <= n <= actions.len(),
        forall|k: int| 0 <= k < actions.len() ==> (#[trigger] actions[k]) is DropTmp,
    ensures
        tree.after_all(root, actions, n) matches Some(t) && t.dirs == tree.dirs,
    decreases n,
{
    if n > 0 {
        lemma_tmps_only(tree, root, actions, n - 1);
        assert(actions[n - 1] is DropTmp);
    }
}

/// Every directory that a drive adds or opens stands on disk at the end of the drive, at its
/// place below the root, unless the drive deletes something.
pub proof fn all_directories_that_are_added_are_there(
    v: ExportView,
    tree: TreeView,
    events: Seq<EditView>,
    k: int,
    place: Seq<char>,
)
    requires
        0 <= k < events.len(),
        forall|j: int| 0 <= j < events.len() ==> (#[trigger] events[j]) !is DeleteEntry,
        dir_of(events[k]) matches Some((path, from)) && goes_to(
            v.root,
            v.strip_prefix,
            path,
            place,
        ),
    ensures
        tree_after_all(v, tree, events) matches Some((w, t)) ==> t.dirs.contains(place),
    decreases events.len(),
{
    if let Some((w, t)) = tree_after(v, tree, events[0]) {
        assert(events[0] !is DeleteEntry);
        lemma_dirs_stay(v, tree, events[0]);
        let rest = events.drop_first();
        assert forall|j: int| 0 <= j < rest.len() implies (#[trigger] rest[j]) !is DeleteEntry by {
            assert(rest[j] == events[j + 1]);
        }
        if k > 0 {
            assert(rest[k - 1] == events[k]);
            all_directories_that_are_added_are_there(w, t, rest, k - 1, place);
        } else {
            let (path, from) = dir_of(events[0])->0;
            lemma_goes(v, path, place);
            reveal_with_fuel(TreeView::after_all, 3);
            lemma_all_stay(w, t, rest);
        }
    }
}

proof fn lemma_all_stay(v: ExportView, tree: TreeView, events: Seq<EditView>)
    requires
        forall|j: int| 0 <= j < events.len() ==> (#[trigger] events[j]) !is DeleteEntry,
    ensures
        tree_after_all(v, tree, events) matches Some((w, t)) ==> forall|d: Seq<char>|
            tree.dirs.contains(d) ==> #[trigger] t.dirs.contains(d),
    decreases events.len(),
{
    if events.len() > 0 {
        if let Some((w, t)) = tree_after(v, tree, events[0]) {
            assert(events[0] !is DeleteEntry);
            lemma_dirs_stay(v, tree, events[0]);
            let rest = events.drop_first();
            assert forall|j: int| 0 <= j < rest.len() implies (#[trigger] rest[j])
                !is DeleteEntry by {
                assert(rest[j] == events[j + 1]);
            }
            lemma_all_stay(w, t, rest);
        }
    }
}

/// What comes out of turn is refused, and nothing is done for it: a delta for a file that is
/// not open, a part of a delta that has not begun or has ended, a second end, and the end of
/// the drive before that of every delta. A file is not closed before its delta has ended.
pub proof fn what_comes_out_of_turn_is_refused(
    v: ExportView,
    token: Seq<char>,
    chunk: Seq<u8>,
    base: Option<Seq<char>>,
    sum: Option<Seq<char>>,
)
    ensures
        !v.files.dom().contains(token) ==> refuses(
            v,
            EditView::ApplyTextDelta { file_token: token, base_checksum: base },
        ),
        !v.pending.dom().contains(token) || !v.pending[token].open ==> refuses(
            v,
            EditView::TextDeltaChunk { file_token: token, chunk },
        ) && refuses(v, EditView::TextDeltaEnd { file_token: token }),
        v.pending.dom().contains(token) && v.pending[token].open ==> v.plan(
            EditView::TextDeltaChunk { file_token: token, chunk },
        ).outcome is Ok && v.plan(EditView::TextDeltaEnd { file_token: token }).outcome is Ok,
        v.pending.dom().contains(token) ==> (v.plan(
            EditView::CloseFile { file_token: token, text_checksum: sum },
        ).outcome is Err <==> v.pending[token].open || !v.pending[token].ended),
        v.pending.dom().len() > 0 ==> refuses(v, EditView::CloseEdit),
        v.pending.dom().len() == 0 ==> v.plan(EditView::CloseEdit).outcome is Ok,
{
}

/// An event is refused as a breach of the protocol, and nothing is done.
pub open spec fn refuses(v: ExportView, e: EditView) -> bool {
    let p = v.plan(e);
    p.actions.len() == 0 && (p.outcome matches Err(x) && x is Protocol)
}

/// What an export knows follows what happened: an open file stands under its token until it
/// is closed, a delta is pending from its beginning until its file is closed, and the end of
/// the drive leaves nothing pending. Nothing else is touched.
pub proof fn what_is_known_follows_what_happened(
    v: ExportView,
    token: Seq<char>,
    other: Seq<char>,
    dest: Seq<char>,
    tmp: Seq<char>,
    source: Option<Seq<char>>,
    flag: bool,
)
    requires
        other != token,
    ensures
        ({
            let t = v.updated(ExportUpdateView::TrackFile { token, dest, source });
            &&& lookup(t.files, token) == Some(dest)
            &&& lookup(t.files, other) == lookup(v.files, other)
            &&& source is Some ==> lookup(t.sources, token) == source
            &&& source is None ==> t.sources == v.sources
            &&& lookup(t.sources, other) == lookup(v.sources, other)
            &&& t.pending == v.pending && t.executable == v.executable
        }),
        ({
            let t = v.updated(ExportUpdateView::BeginFile { token, dest, tmp });
            &&& lookup(t.pending, token) matches Some(p) && p.dest == dest && p.tmp == tmp && p.open
                && !p.ended
            &&& lookup(t.pending, other) == lookup(v.pending, other)
            &&& t.files == v.files && t.sources == v.sources && t.executable == v.executable
        }),
        ({
            let t = v.updated(ExportUpdateView::EndText { token });
            &&& v.pending.dom().contains(token) ==> (lookup(t.pending, token) matches Some(p)
                && p.ended && p.dest == v.pending[token].dest && p.tmp == v.pending[token].tmp
                && p.open == v.pending[token].open)
            &&& !v.pending.dom().contains(token) ==> t == v
            &&& lookup(t.pending, other) == lookup(v.pending, other)
        }),
        ({
            let t = v.updated(ExportUpdateView::Executable { token, on: flag });
            &&& lookup(t.executable, token) == Some(flag)
            &&& lookup(t.executable, other) == lookup(v.executable, other)
            &&& t.files == v.files && t.sources == v.sources && t.pending == v.pending
        }),
        ({
            let t = v.updated(ExportUpdateView::CloseFile { token, finished: flag });
            &&& lookup(t.files, token) is None && lookup(t.sources, token) is None
            &&& lookup(t.files, other) == lookup(v.files, other)
            &&& lookup(t.sources, other) == lookup(v.sources, other)
            &&& flag ==> lookup(t.executable, token) is None
            &&& lookup(t.executable, other) == lookup(v.executable, other)
        }),
        ({
            let t = v.updated(ExportUpdateView::Reset);
            &&& lookup(t.pending, token) is None
            &&& v.copies ==> lookup(t.files, token) is None && lookup(t.sources, token) is None
                && lookup(t.executable, token) is None
            &&& t.root == v.root && t.strip_prefix == v.strip_prefix && t.copies == v.copies
        }),
        ({
            let t = v.planned(
                EditView::CloseFile { file_token: token, text_checksum: source },
            );
            lookup(t.pending, token) is None && lookup(t.pending, other) == lookup(v.pending, other)
        }),
        ({
            let t = v.planned(EditView::TextDeltaEnd { file_token: token });
            (v.pending.dom().contains(token) ==> !t.pending[token].open) && lookup(t.pending, other)
                == lookup(v.pending, other)
        }),
{
}

} // verus!
