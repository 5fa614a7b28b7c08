//! A commit does nothing but what it was asked for.

use vstd::prelude::*;

use crate::change_laws::{finite, lemma_resolved_finite, lemma_sorted_finite};
use crate::commit::{
    copy_rev, sorted_changes, BuilderView, ChangeView, ChangesView, CopyOpView, DirActionView,
    DirOpView, FileActionView, FileOpView,
};
use crate::commit_drive::{
    chunks_sent, closed_to, common, dir_opened, dir_props_sent, dirs_opened, file_opening,
    file_props_sent, gone_to, task_done, tasks_done, text_sent, whole_drive, DirPlanView,
    DriveView, Encoding, FileTextView, PropView, TaskView, CHUNK_SIZE,
};
use crate::commit_driver::{built, copies_resolved, files_answered, fresh_plan, rev_for};
use crate::commit_laws::lemma_found;
use crate::commit_plan::{lemma_tasks, PlanView};
use crate::commit_stream::{later_task, StreamBuilderView, StreamPlanView};
use crate::editor::EditView;
use crate::error::ErrorView;
use crate::keymap::{in_order, lemma_finite_in_order};
use crate::path::{rel_dir_path, rel_path};
use crate::refusal_laws::{a_streamed_file_is_put_by_what_is_there, by_kind, lemma_by_kind};
use crate::stream_driver::{
    dirs_taken, files_taken, no_files, stream_from_dirs, stream_from_files, streamed,
};
use crate::task_order::{drive_order, lemma_same_tasks};
use crate::types::NodeKind;

verus! {

/// One of the changes writes this text to this path.
pub open spec fn put_is_asked(changes: Seq<ChangeView>, p: Seq<char>, contents: Seq<u8>) -> bool {
    exists|k: int|
        0 <= k < changes.len() && (#[trigger] changes[k] matches ChangeView::PutFile {
            path,
            contents: c,
        } && rel_path(path) == Ok::<Seq<char>, ErrorView>(p) && c == contents)
}

/// One of the changes copies this node to this path.
pub open spec fn copy_is_asked(
    changes: Seq<ChangeView>,
    base_rev: u64,
    p: Seq<char>,
    f: Seq<char>,
    r: u64,
) -> bool {
    exists|k: int|
        0 <= k < changes.len() && (#[trigger] changes[k] matches ChangeView::Copy {
            from_path,
            from_rev,
            to_path,
        } && rel_path(from_path) == Ok::<Seq<char>, ErrorView>(f) && rel_path(to_path) == Ok::<
            Seq<char>,
            ErrorView,
        >(p) && r == (match from_rev {
            Some(n) => n,
            None => base_rev,
        }))
}

/// One of the changes gives a file this property.
pub open spec fn file_prop_is_asked(changes: Seq<ChangeView>, p: Seq<char>, x: PropView) -> bool {
    exists|k: int|
        0 <= k < changes.len() && (#[trigger] changes[k] matches ChangeView::FileProp {
            path,
            name,
            value,
        } && rel_path(path) == Ok::<Seq<char>, ErrorView>(p) && name == x.name && value == x.value)
}

/// One of the changes gives a directory this property.
pub open spec fn dir_prop_is_asked(changes: Seq<ChangeView>, p: Seq<char>, x: PropView) -> bool {
    exists|k: int|
        0 <= k < changes.len() && (#[trigger] changes[k] matches ChangeView::DirProp {
            path,
            name,
            value,
        } && rel_dir_path(path) == Ok::<Seq<char>, ErrorView>(p) && name == x.name && value
            == x.value)
}

/// One of the changes deletes this path.
pub open spec fn delete_is_asked(changes: Seq<ChangeView>, p: Seq<char>) -> bool {
    exists|k: int|
        0 <= k < changes.len() && (#[trigger] changes[k] matches ChangeView::Delete { path }
            && rel_path(path) == Ok::<Seq<char>, ErrorView>(p))
}

/// What happens to a file was asked for.
pub(crate) open spec fn file_stems(
    changes: Seq<ChangeView>,
    base_rev: u64,
    p: Seq<char>,
    op: FileOpView,
) -> bool {
    &&& match op.action {
        Some(FileActionView::Put(b)) => put_is_asked(changes, p, b),
        Some(FileActionView::Copy { from_path, from_rev }) => copy_is_asked(
            changes,
            base_rev,
            p,
            from_path,
            from_rev,
        ),
        None => op.props.len() > 0,
    }
    &&& forall|i: int|
        0 <= i < op.props.len() ==> file_prop_is_asked(changes, p, #[trigger] op.props[i])
}

spec fn dir_stems(
    changes: Seq<ChangeView>,
    base_rev: u64,
    p: Seq<char>,
    op: DirOpView,
) -> bool {
    &&& op.action matches Some(DirActionView::Copy { from_path, from_rev }) ==> copy_is_asked(
        changes,
        base_rev,
        p,
        from_path,
        from_rev,
    )
    &&& forall|i: int|
        0 <= i < op.props.len() ==> dir_prop_is_asked(changes, p, #[trigger] op.props[i])
}

spec fn copy_stems(changes: Seq<ChangeView>, base_rev: u64, x: CopyOpView) -> bool {
    copy_is_asked(changes, base_rev, x.to_path, x.from_path, copy_rev(x, base_rev))
}

/// Everything that happens was asked for.
pub(crate) closed spec fn all_stems(
    changes: Seq<ChangeView>,
    base_rev: u64,
    v: ChangesView,
) -> bool {
    &&& forall|p: Seq<char>| #[trigger]
        v.files.dom().contains(p) ==> file_stems(changes, base_rev, p, v.files[p])
    &&& forall|p: Seq<char>| #[trigger]
        v.dirs.dom().contains(p) ==> dir_stems(changes, base_rev, p, v.dirs[p])
    &&& forall|p: Seq<char>| #[trigger] v.deletes.contains(p) ==> delete_is_asked(changes, p)
    &&& forall|i: int|
        0 <= i < v.copies.len() ==> copy_stems(changes, base_rev, #[trigger] v.copies[i])
}

proof fn lemma_sorted_stems(changes: Seq<ChangeView>, n: int, base_rev: u64)
    requires
        0 <= n <= changes.len(),
    ensures
        sorted_changes(changes, n) matches Ok(v) ==> all_stems(changes, base_rev, v),
    decreases n,
{
    if n > 0 {
        lemma_sorted_stems(changes, n - 1, base_rev);
        if let Ok(w) = sorted_changes(changes, n) {
            let v = sorted_changes(changes, n - 1)->Ok_0;
            let c = changes[n - 1];
            match c {
                ChangeView::PutFile { path, contents } => {
                    let p = rel_path(path)->Ok_0;
                    assert(put_is_asked(changes, p, contents));
                    assert(file_stems(changes, base_rev, p, w.files[p]));
                },
                ChangeView::MkdirP { path } => {
                    let p = rel_dir_path(path)->Ok_0;
                    assert(dir_stems(changes, base_rev, p, w.dirs[p]));
                },
                ChangeView::Delete { path } => {
                    let p = rel_path(path)->Ok_0;
                    assert(delete_is_asked(changes, p));
                },
                ChangeView::Copy { from_path, from_rev, to_path } => {
                    let x = w.copies.last();
                    assert(copy_stems(changes, base_rev, x));
                },
                ChangeView::FileProp { path, name, value } => {
                    let p = rel_path(path)->Ok_0;
                    assert(file_prop_is_asked(changes, p, PropView { name, value }));
                    assert(file_stems(changes, base_rev, p, w.files[p]));
                },
                ChangeView::DirProp { path, name, value } => {
                    let p = rel_dir_path(path)->Ok_0;
                    assert(dir_prop_is_asked(changes, p, PropView { name, value }));
                    assert(dir_stems(changes, base_rev, p, w.dirs[p]));
                },
            }
        }
    }
}

proof fn lemma_resolved_stems(
    changes: Seq<ChangeView>,
    v: ChangesView,
    base_rev: u64,
    kinds: spec_fn(Seq<char>, u64) -> NodeKind,
)
    requires
        all_stems(changes, base_rev, v),
    ensures
        copies_resolved(v, base_rev, kinds) matches Ok(w) ==> all_stems(changes, base_rev, w),
    decreases v.copies.len(),
{
    if v.copies.len() > 0 && copies_resolved(v, base_rev, kinds) is Ok {
        let x = v.copies[0];
        let (path, rev) = v.copy_asks(base_rev)->Ok_0;
        let u = v.copy_answered(base_rev, kinds(path, rev))->Ok_0;
        assert(copy_stems(changes, base_rev, x));
        if kinds(path, rev) is File {
            assert(file_stems(changes, base_rev, x.to_path, u.files[x.to_path]));
        } else {
            assert(dir_stems(changes, base_rev, x.to_path, u.dirs[x.to_path]));
        }
        assert(all_stems(changes, base_rev, u)) by {
            assert forall|i: int| 0 <= i < u.copies.len() implies copy_stems(
                changes,
                base_rev,
                #[trigger] u.copies[i],
            ) by {
                assert(u.copies[i] == v.copies[i + 1]);
            }
        }
        lemma_resolved_stems(changes, u, base_rev, kinds);
    }
}

/// What happens in a commit was asked for.
pub(crate) proof fn lemma_stems(
    changes: Seq<ChangeView>,
    n: int,
    base_rev: u64,
    kinds: spec_fn(Seq<char>, u64) -> NodeKind,
)
    requires
        n == changes.len(),
        sorted_changes(changes, n) is Ok,
        copies_resolved(sorted_changes(changes, n)->Ok_0, base_rev, kinds) is Ok,
    ensures
        ({
            let v = copies_resolved(sorted_changes(changes, n)->Ok_0, base_rev, kinds)->Ok_0;
            &&& all_stems(changes, base_rev, v)
            &&& forall|p: Seq<char>| #[trigger]
                v.files.dom().contains(p) ==> file_stems(changes, base_rev, p, v.files[p])
        }),
{
    lemma_sorted_stems(changes, n, base_rev);
    lemma_resolved_stems(changes, sorted_changes(changes, n)->Ok_0, base_rev, kinds);
}

/// A task with this property.
spec fn has_prop(t: TaskView, file: bool, x: PropView) -> bool {
    match t {
        TaskView::Dir { props, .. } => !file && props.contains(x),
        TaskView::File { props, .. } => file && props.contains(x),
        TaskView::Delete { .. } => false,
    }
}

/// A command belongs to one of the tasks, or leads to it as planned.
spec fn due(
    c: EditView,
    tasks: Seq<TaskView>,
    plans: Map<Seq<char>, DirPlanView>,
    rev: u64,
) -> bool {
    match c {
        EditView::OpenRoot { rev: r, .. } => r == Some(rev),
        EditView::DeleteEntry { path, rev: r, .. } => r == rev && tasks.contains(
            TaskView::Delete { path },
        ),
        EditView::AddDir { path, copy_from, .. } => plans.dom().contains(path) && plans[path] == (
        DirPlanView::Add { copy_from }),
        EditView::OpenDir { path, rev: r, .. } => r == rev && plans.dom().contains(path)
            && plans[path] is Open,
        EditView::AddFile { path, copy_from, .. } => exists|i: int|
            0 <= i < tasks.len() && (#[trigger] tasks[i] matches TaskView::File {
                path: p,
                exists,
                copy_from: f,
                ..
            } && p == path && f == copy_from && (f is None ==> !exists)),
        EditView::OpenFile { path, rev: r, .. } => r == rev && exists|i: int|
            0 <= i < tasks.len() && (#[trigger] tasks[i] matches TaskView::File {
                path: p,
                exists,
                copy_from: f,
                ..
            } && p == path && f is None && exists),
        EditView::ApplyTextDelta { base_checksum, .. } => base_checksum is None && exists|i: int|
            0 <= i < tasks.len() && (#[trigger] tasks[i] matches TaskView::File { text, .. }
                && !(text is Keep)),
        EditView::ChangeFileProp { name, value, .. } => exists|i: int|
            0 <= i < tasks.len() && has_prop(#[trigger] tasks[i], true, PropView { name, value }),
        EditView::ChangeDirProp { name, value, .. } => exists|i: int|
            0 <= i < tasks.len() && has_prop(#[trigger] tasks[i], false, PropView { name, value }),
        EditView::CloseDir { .. } => true,
        EditView::CloseFile { text_checksum, .. } => text_checksum is None,
        EditView::TextDeltaChunk { .. } => true,
        EditView::TextDeltaEnd { .. } => true,
        EditView::CloseEdit => true,
        _ => false,
    }
}

spec fn all_due(
    out: Seq<EditView>,
    tasks: Seq<TaskView>,
    plans: Map<Seq<char>, DirPlanView>,
    rev: u64,
) -> bool {
    forall|i: int| 0 <= i < out.len() ==> due(#[trigger] out[i], tasks, plans, rev)
}

proof fn lemma_closed_due(
    s: DriveView,
    n: int,
    tasks: Seq<TaskView>,
    plans: Map<Seq<char>, DirPlanView>,
    rev: u64,
)
    requires
        all_due(s.out, tasks, plans, rev),
    ensures
        all_due(closed_to(s, n).out, tasks, plans, rev),
    decreases s.dirs.len(),
{
    if s.dirs.len() > n && s.dirs.len() > 0 {
        let c = EditView::CloseDir { dir_token: s.here() };
        let t = DriveView { dirs: s.dirs.drop_last(), ..s.send(c) };
        lemma_closed_due(t, n, tasks, plans, rev);
    }
}

proof fn lemma_opened_due(
    s: DriveView,
    targets: Seq<Seq<char>>,
    k: int,
    tasks: Seq<TaskView>,
    plans: Map<Seq<char>, DirPlanView>,
    rev: u64,
)
    requires
        all_due(s.out, tasks, plans, rev),
    ensures
        dirs_opened(s, targets, k, plans, rev) matches Ok(t) ==> all_due(t.out, tasks, plans, rev),
    decreases targets.len() - k,
{
    if 0 <= k < targets.len() && plans.dom().contains(targets[k]) {
        let t = dir_opened(s, targets[k], plans[targets[k]], rev);
        assert(due(t.out.last(), tasks, plans, rev));
        lemma_opened_due(t, targets, k + 1, tasks, plans, rev);
    }
}

proof fn lemma_dir_props_due(
    s: DriveView,
    props: Seq<PropView>,
    n: int,
    m: int,
    tasks: Seq<TaskView>,
    plans: Map<Seq<char>, DirPlanView>,
    rev: u64,
)
    requires
        0 <= n <= props.len(),
        all_due(s.out, tasks, plans, rev),
        0 <= m < tasks.len(),
        tasks[m] matches TaskView::Dir { props: q, .. } && q == props,
    ensures
        all_due(dir_props_sent(s, props, n).out, tasks, plans, rev),
    decreases n,
{
    if n > 0 {
        lemma_dir_props_due(s, props, n - 1, m, tasks, plans, rev);
        let x = props[n - 1];
        assert(props.contains(x));
        assert(has_prop(tasks[m], false, PropView { name: x.name, value: x.value }));
    }
}

proof fn lemma_file_props_due(
    s: DriveView,
    token: Seq<char>,
    props: Seq<PropView>,
    n: int,
    m: int,
    tasks: Seq<TaskView>,
    plans: Map<Seq<char>, DirPlanView>,
    rev: u64,
)
    requires
        0 <= n <= props.len(),
        all_due(s.out, tasks, plans, rev),
        0 <= m < tasks.len(),
        tasks[m] matches TaskView::File { props: q, .. } && q == props,
    ensures
        all_due(file_props_sent(s, token, props, n).out, tasks, plans, rev),
    decreases n,
{
    if n > 0 {
        lemma_file_props_due(s, token, props, n - 1, m, tasks, plans, rev);
        let x = props[n - 1];
        assert(props.contains(x));
        assert(has_prop(tasks[m], true, PropView { name: x.name, value: x.value }));
    }
}

proof fn lemma_chunks_due(
    s: DriveView,
    token: Seq<char>,
    delta: Seq<u8>,
    tasks: Seq<TaskView>,
    plans: Map<Seq<char>, DirPlanView>,
    rev: u64,
)
    requires
        all_due(s.out, tasks, plans, rev),
    ensures
        all_due(chunks_sent(s, token, delta).out, tasks, plans, rev),
    decreases delta.len(),
{
    if delta.len() > 0 {
        let n: int = if delta.len() < CHUNK_SIZE {
            delta.len() as int
        } else {
            CHUNK_SIZE as int
        };
        lemma_chunks_due(
            s.send(EditView::TextDeltaChunk { file_token: token, chunk: delta.take(n) }),
            token,
            delta.skip(n),
            tasks,
            plans,
            rev,
        );
    }
}

proof fn lemma_task_due(
    s: DriveView,
    m: int,
    tasks: Seq<TaskView>,
    plans: Map<Seq<char>, DirPlanView>,
    rev: u64,
    enc: Encoding,
)
    requires
        all_due(s.out, tasks, plans, rev),
        0 <= m < tasks.len(),
    ensures
        task_done(s, tasks[m], rev, enc) matches Ok(t) ==> all_due(t.out, tasks, plans, rev),
{
    match tasks[m] {
        TaskView::Dir { props, .. } => {
            lemma_dir_props_due(s, props, props.len() as int, m, tasks, plans, rev);
        },
        TaskView::Delete { path } => {
            assert(tasks.contains(tasks[m]));
        },
        TaskView::File { path, exists, copy_from, text, props } => {
            let token = s.file_token();
            let c = file_opening(s, path, exists, copy_from, rev);
            let t = DriveView { next_file: s.next_file + 1, ..s.send(c) };
            assert(due(c, tasks, plans, rev));
            assert(all_due(t.out, tasks, plans, rev));
            let a = EditView::ApplyTextDelta { file_token: token, base_checksum: None };
            let u = t.send(a);
            if let FileTextView::Bytes(b) = text {
                assert(due(a, tasks, plans, rev));
                if let Ok(delta) = crate::fulltext::fulltext_delta(
                    enc.version,
                    b,
                    enc.level,
                    enc.window_size as nat,
                ) {
                    lemma_chunks_due(u, token, delta, tasks, plans, rev);
                }
            }
            if text is Later {
                assert(due(a, tasks, plans, rev));
            }
            if let Ok(w) = text_sent(t, token, text, enc) {
                assert(all_due(w.out, tasks, plans, rev));
                lemma_file_props_due(w, token, props, props.len() as int, m, tasks, plans, rev);
            }
        },
    }
}

proof fn lemma_tasks_due(
    tasks: Seq<TaskView>,
    n: int,
    plans: Map<Seq<char>, DirPlanView>,
    rev: u64,
    enc: Encoding,
)
    requires
        0 <= n <= tasks.len(),
    ensures
        tasks_done(tasks, n, plans, rev, enc) matches Ok(s) ==> all_due(s.out, tasks, plans, rev),
    decreases n,
{
    if n > 0 {
        lemma_tasks_due(tasks, n - 1, plans, rev, enc);
        if let Ok(s) = tasks_done(tasks, n - 1, plans, rev, enc) {
            let dirs = tasks[n - 1].dirs();
            let k = common(s.dirs, dirs, 0);
            lemma_closed_due(s, k + 1, tasks, plans, rev);
            lemma_opened_due(closed_to(s, k + 1), dirs, k, tasks, plans, rev);
            if let Ok(t) = gone_to(s, dirs, plans, rev) {
                lemma_task_due(t, n - 1, tasks, plans, rev, enc);
            }
        }
    }
}

proof fn lemma_drive_due(
    tasks: Seq<TaskView>,
    plans: Map<Seq<char>, DirPlanView>,
    rev: u64,
    enc: Encoding,
)
    ensures
        whole_drive(tasks, plans, rev, enc) matches Ok(out) ==> all_due(out, tasks, plans, rev),
{
    let n = tasks.len() as int;
    lemma_tasks_due(tasks, n, plans, rev, enc);
    if let Ok(s) = tasks_done(tasks, n, plans, rev, enc) {
        lemma_closed_due(s, 1, tasks, plans, rev);
    }
}

/// A command was asked for by one of the changes, or leads to where they are made.
pub open spec fn was_asked(
    c: EditView,
    changes: Seq<ChangeView>,
    rev: u64,
    kinds: spec_fn(Seq<char>, u64) -> NodeKind,
) -> bool {
    match c {
        EditView::OpenRoot { rev: r, .. } => r == Some(rev),
        EditView::DeleteEntry { path, rev: r, .. } => r == rev && delete_is_asked(changes, path),
        EditView::AddDir { path, copy_from, .. } => kinds(path, rev) is Missing && (
        copy_from matches Some((f, r)) ==> copy_is_asked(changes, rev, path, f, r)),
        EditView::OpenDir { path, rev: r, .. } => r == rev && kinds(path, rev) is Dir,
        EditView::AddFile { path, copy_from, .. } => kinds(path, rev) is Missing
            && match copy_from {
            Some((f, r)) => copy_is_asked(changes, rev, path, f, r),
            None => exists|b: Seq<u8>| #[trigger] put_is_asked(changes, path, b),
        },
        EditView::OpenFile { path, rev: r, .. } => r == rev && kinds(path, rev) is File && ({
            ||| exists|b: Seq<u8>| #[trigger] put_is_asked(changes, path, b)
            ||| exists|x: PropView| #[trigger] file_prop_is_asked(changes, path, x)
        }),
        EditView::ApplyTextDelta { .. } => exists|p: Seq<char>, b: Seq<u8>| #[trigger]
            put_is_asked(changes, p, b),
        EditView::ChangeFileProp { name, value, .. } => exists|p: Seq<char>| #[trigger]
            file_prop_is_asked(changes, p, PropView { name, value }),
        EditView::ChangeDirProp { name, value, .. } => exists|p: Seq<char>| #[trigger]
            dir_prop_is_asked(changes, p, PropView { name, value }),
        EditView::CloseDir { .. } => true,
        EditView::CloseFile { .. } => true,
        EditView::TextDeltaChunk { .. } => true,
        EditView::TextDeltaEnd { .. } => true,
        EditView::CloseEdit => true,
        _ => false,
    }
}

/// The files of a plan are there as the repository says.
spec fn files_by_kind(
    p: PlanView,
    i: int,
    rev: u64,
    kinds: spec_fn(Seq<char>, u64) -> NodeKind,
) -> bool {
    let files = in_order(p.changes.files.dom());
    forall|k: int|
        0 <= k < i && k < files.len() ==> p.exists.dom().contains(#[trigger] files[k])
            && p.exists[files[k]] == (kinds(files[k], rev) is File) && (kinds(files[k], rev) is File
            || kinds(files[k], rev) is Missing) && (p.changes.file_op(files[k]).action matches Some(
            FileActionView::Copy { .. },
        ) ==> kinds(files[k], rev) is Missing) && (p.changes.file_op(files[k]).action is None
            ==> kinds(files[k], rev) is File)
}

proof fn lemma_files_by_kind(
    p: PlanView,
    i: int,
    rev: u64,
    kinds: spec_fn(Seq<char>, u64) -> NodeKind,
)
    requires
        0 <= i,
        files_by_kind(p, i, rev, kinds),
    ensures
        files_answered(p, i, rev, kinds) matches Ok(q) ==> q.changes == p.changes && q.plans
            == p.plans && files_by_kind(
            q,
            in_order(q.changes.files.dom()).len() as int,
            rev,
            kinds,
        ),
    decreases in_order(p.changes.files.dom()).len() - i,
{
    let files = in_order(p.changes.files.dom());
    if i < files.len() {
        if let Ok(q) = p.file_answered(files[i], kinds(files[i], rev)) {
            assert(q.changes == p.changes);
            assert(files_by_kind(q, i + 1, rev, kinds)) by {
                assert forall|k: int|
                    0 <= k < i + 1 && k < files.len() implies q.exists.dom().contains(
                    #[trigger] files[k],
                ) && q.exists[files[k]] == (kinds(files[k], rev) is File) && (kinds(files[k], rev)
                    is File || kinds(files[k], rev) is Missing) && (q.changes.file_op(
                    files[k],
                ).action matches Some(FileActionView::Copy { .. }) ==> kinds(files[k], rev)
                    is Missing) && (q.changes.file_op(files[k]).action is None ==> kinds(
                    files[k],
                    rev,
                ) is File) by {
                    if k < i {
                        assert(p.exists.dom().contains(files[k]));
                    }
                }
            }
            lemma_files_by_kind(q, i + 1, rev, kinds);
        }
    }
}

/// A task of a plan is that of a change.
proof fn lemma_task_of(p: PlanView, t: TaskView)
    requires
        finite(p.changes),
        drive_order(p.tasks()).contains(t),
    ensures
        match t {
            TaskView::Dir { path, .. } => p.changes.dirs.dom().contains(path) && t == p.dir_task(
                path,
            ),
            TaskView::File { path, .. } => p.changes.files.dom().contains(path) && t
                == p.file_task(path),
            TaskView::Delete { path } => p.changes.deletes.contains(path),
        },
{
    let all = p.tasks();
    let nd = in_order(p.changes.dirs.dom());
    let nf = in_order(p.changes.files.dom());
    let nx = in_order(p.changes.deletes);
    lemma_finite_in_order(p.changes.dirs.dom());
    lemma_finite_in_order(p.changes.files.dom());
    lemma_finite_in_order(p.changes.deletes);
    lemma_tasks(p, nd, nf, nx);
    lemma_same_tasks(all, t);
    let k = choose|k: int| 0 <= k < all.len() && all[k] == t;
    if k < nd.len() {
        assert(nd.contains(nd[k]));
    } else if k < nd.len() + nf.len() {
        assert(nf.contains(nf[k - nd.len()]));
    } else {
        assert(nx.contains(nx[k - nd.len() - nf.len()]));
    }
}

/// Every command of a commit was asked for: nothing is deleted, written, copied or given a
/// property but what the changes say, and a directory is added only where there is none.
pub proof fn nothing_else_is_changed(
    b: BuilderView,
    svndiff1: bool,
    svndiff2: bool,
    latest: u64,
    kinds: spec_fn(Seq<char>, u64) -> NodeKind,
    i: int,
)
    ensures
        built(b, svndiff1, svndiff2, latest, kinds) matches Ok(commands) ==> (0 <= i
            < commands.len() ==> was_asked(commands[i], b.changes, rev_for(b, latest), kinds)),
{
    if let Ok(commands) = built(b, svndiff1, svndiff2, latest, kinds) {
        if 0 <= i < commands.len() {
            let f = lemma_found(b, svndiff1, svndiff2, latest, kinds);
            let rev = rev_for(b, latest);
            let n = b.changes.len() as int;
            lemma_sorted_finite(b.changes, n);
            lemma_resolved_finite(f.changes, rev, kinds);
            lemma_stems(b.changes, n, rev, kinds);
            let v = f.resolved;
            assert(by_kind(fresh_plan(v), rev, kinds));
            lemma_by_kind(fresh_plan(v), 0, rev, kinds);
            lemma_files_by_kind(f.dirs, 0, rev, kinds);
            let p = f.files;
            assert(p.changes == v);
            assert(by_kind(p, rev, kinds));
            let tasks = drive_order(p.tasks());
            lemma_drive_due(tasks, p.plans, rev, f.enc);
            lemma_asked(commands[i], b.changes, p, rev, kinds);
        }
    }
}

proof fn lemma_asked(
    c: EditView,
    changes: Seq<ChangeView>,
    p: PlanView,
    rev: u64,
    kinds: spec_fn(Seq<char>, u64) -> NodeKind,
)
    requires
        finite(p.changes),
        all_stems(changes, rev, p.changes),
        by_kind(p, rev, kinds),
        files_by_kind(p, in_order(p.changes.files.dom()).len() as int, rev, kinds),
        due(c, drive_order(p.tasks()), p.plans, rev),
    ensures
        was_asked(c, changes, rev, kinds),
{
    let tasks = drive_order(p.tasks());
    let v = p.changes;
    let files = in_order(v.files.dom());
    lemma_finite_in_order(v.files.dom());
    match c {
        EditView::DeleteEntry { path, .. } => {
            lemma_task_of(p, TaskView::Delete { path });
            assert(v.deletes.contains(path));
            assert(delete_is_asked(changes, path));
        },
        EditView::AddDir { path, copy_from, .. } => {
            assert(p.plans.dom().contains(path));
            if let Some((f, r)) = copy_from {
                assert(v.dirs.dom().contains(path));
                assert(dir_stems(changes, rev, path, v.dirs[path]));
            }
        },
        EditView::OpenDir { path, .. } => {
            assert(p.plans.dom().contains(path));
        },
        EditView::AddFile { path, copy_from, .. } => {
            let k = choose|k: int|
                0 <= k < tasks.len() && (#[trigger] tasks[k] matches TaskView::File {
                    path: q,
                    exists,
                    copy_from: f,
                    ..
                } && q == path && f == copy_from && (f is None ==> !exists));
            assert(tasks.contains(tasks[k]));
            lemma_file_task(changes, p, rev, kinds, tasks[k]);
            assert(file_stems(changes, rev, path, v.files[path]));
            assert(was_asked(c, changes, rev, kinds));
        },
        EditView::OpenFile { path, .. } => {
            let k = choose|k: int|
                0 <= k < tasks.len() && (#[trigger] tasks[k] matches TaskView::File {
                    path: q,
                    exists,
                    copy_from: f,
                    ..
                } && q == path && f is None && exists);
            lemma_file_task(changes, p, rev, kinds, tasks[k]);
            let op = v.files[path];
            if op.action is None {
                assert(file_prop_is_asked(changes, path, op.props[0]));
            }
            assert(was_asked(c, changes, rev, kinds));
        },
        EditView::ApplyTextDelta { .. } => {
            let k = choose|k: int|
                0 <= k < tasks.len() && (#[trigger] tasks[k] matches TaskView::File { text, .. }
                    && !(text is Keep));
            lemma_file_task(changes, p, rev, kinds, tasks[k]);
            assert(was_asked(c, changes, rev, kinds));
        },
        EditView::ChangeFileProp { name, value, .. } => {
            let x = PropView { name, value };
            let k = choose|k: int| 0 <= k < tasks.len() && has_prop(#[trigger] tasks[k], true, x);
            lemma_file_task(changes, p, rev, kinds, tasks[k]);
            let path = tasks[k].path();
            let props = v.files[path].props;
            let j = choose|j: int| 0 <= j < props.len() && props[j] == x;
            assert(file_prop_is_asked(changes, path, props[j]));
        },
        EditView::ChangeDirProp { name, value, .. } => {
            let x = PropView { name, value };
            let k = choose|k: int| 0 <= k < tasks.len() && has_prop(#[trigger] tasks[k], false, x);
            assert(tasks.contains(tasks[k]));
            lemma_task_of(p, tasks[k]);
            let path = tasks[k].path();
            assert(dir_stems(changes, rev, path, v.dirs[path]));
            let props = v.dirs[path].props;
            let j = choose|j: int| 0 <= j < props.len() && props[j] == x;
            assert(dir_prop_is_asked(changes, path, props[j]));
        },
        _ => {},
    }
}

proof fn lemma_file_task(
    changes: Seq<ChangeView>,
    p: PlanView,
    rev: u64,
    kinds: spec_fn(Seq<char>, u64) -> NodeKind,
    t: TaskView,
)
    requires
        finite(p.changes),
        all_stems(changes, rev, p.changes),
        files_by_kind(p, in_order(p.changes.files.dom()).len() as int, rev, kinds),
        drive_order(p.tasks()).contains(t),
        t is File,
    ensures
        ({
            let path = t.path();
            let op = p.changes.files[path];
            &&& t == p.file_task(path)
            &&& p.changes.files.dom().contains(path)
            &&& file_stems(changes, rev, path, op)
            &&& p.exists[path] == (kinds(path, rev) is File)
            &&& kinds(path, rev) is File || kinds(path, rev) is Missing
            &&& op.action matches Some(FileActionView::Copy { .. }) ==> kinds(path, rev) is Missing
            &&& op.action is None ==> kinds(path, rev) is File
        }),
{
    lemma_task_of(p, t);
    let files = in_order(p.changes.files.dom());
    lemma_finite_in_order(p.changes.files.dom());
    let path = t.path();
    assert(files.contains(path));
    let k = choose|k: int| 0 <= k < files.len() && files[k] == path;
    assert(p.exists.dom().contains(files[k]));
}

/// The files and directories of a streamed commit are there as the repository says.
spec fn streamed_by_kind(
    p: StreamPlanView,
    rev: u64,
    kinds: spec_fn(Seq<char>, u64) -> NodeKind,
) -> bool {
    &&& forall|k: int|
        0 <= k < p.tasks.len() ==> (#[trigger] p.tasks[k] matches TaskView::File {
            path,
            exists,
            copy_from,
            props,
            ..
        } && copy_from is None && props.len() == 0 && exists == (kinds(path, rev) is File) && (
        kinds(path, rev) is File || kinds(path, rev) is Missing))
    &&& forall|d: Seq<char>| #[trigger]
        p.plans.dom().contains(d) ==> match p.plans[d] {
            DirPlanView::Open => kinds(d, rev) is Dir,
            DirPlanView::Add { copy_from } => kinds(d, rev) is Missing && copy_from is None,
        }
}

proof fn lemma_files_taken(
    p: StreamPlanView,
    paths: Seq<Seq<char>>,
    i: int,
    rev: u64,
    kinds: spec_fn(Seq<char>, u64) -> NodeKind,
)
    requires
        streamed_by_kind(p, rev, kinds),
    ensures
        files_taken(p, paths, i, rev, kinds) matches Ok(q) ==> streamed_by_kind(q, rev, kinds),
    decreases paths.len() - i,
{
    if 0 <= i < paths.len() {
        if let Ok(path) = rel_path(paths[i]) {
            let kind = kinds(path, rev);
            if let Ok(q) = p.with_file(paths[i], kind) {
                a_streamed_file_is_put_by_what_is_there(p, paths[i], path, kind);
                let t = later_task(path, kind is File);
                let at = choose|at: int|
                    0 <= at <= p.tasks.len() && q.tasks == #[trigger] p.tasks.insert(at, t);
                assert forall|k: int| 0 <= k < q.tasks.len() implies (
                #[trigger] q.tasks[k] matches TaskView::File { path, exists, copy_from, props, .. }
                    && copy_from is None && props.len() == 0 && exists == (kinds(path, rev) is File)
                    && (kinds(path, rev) is File || kinds(path, rev) is Missing)) by {
                    if k < at {
                        assert(q.tasks[k] == p.tasks[k]);
                    } else if k > at {
                        assert(q.tasks[k] == p.tasks[k - 1]);
                    } else {
                        assert(q.tasks[k] == t);
                    }
                }
                lemma_files_taken(q, paths, i + 1, rev, kinds);
            }
        }
    }
}

proof fn lemma_dirs_taken(
    p: StreamPlanView,
    needed: Seq<Seq<char>>,
    i: int,
    rev: u64,
    kinds: spec_fn(Seq<char>, u64) -> NodeKind,
)
    requires
        streamed_by_kind(p, rev, kinds),
    ensures
        dirs_taken(p, needed, i, rev, kinds) matches Ok(q) ==> streamed_by_kind(q, rev, kinds),
    decreases needed.len() - i,
{
    if 0 <= i < needed.len() {
        if let Ok(dir) = rel_dir_path(needed[i]) {
            if let Ok(q) = p.dir_answered(needed[i], kinds(dir, rev)) {
                lemma_dirs_taken(q, needed, i + 1, rev, kinds);
            }
        }
    }
}

/// A streamed commit is made against the revision that was set, or the latest one. It opens
/// the files that are there and adds those that are missing, and so with the directories on
/// the way; it copies and deletes nothing and changes no property.
pub proof fn a_streamed_commit_only_writes_files(
    b: StreamBuilderView,
    svndiff1: bool,
    svndiff2: bool,
    latest: u64,
    kinds: spec_fn(Seq<char>, u64) -> NodeKind,
    i: int,
)
    ensures
        streamed(b, svndiff1, svndiff2, latest, kinds) matches Ok(v) ==> (0 <= i < v.commands.len()
            ==> ({
            let rev = match b.base_rev {
                Some(r) => r,
                None => latest,
            };
            match v.commands[i] {
                EditView::OpenRoot { rev: r, .. } => r == Some(rev),
                EditView::OpenFile { path, rev: r, .. } => r == rev && kinds(path, rev) is File,
                EditView::AddFile { path, copy_from, .. } => copy_from is None && kinds(path, rev)
                    is Missing,
                EditView::OpenDir { path, rev: r, .. } => r == rev && kinds(path, rev) is Dir,
                EditView::AddDir { path, copy_from, .. } => copy_from is None && kinds(path, rev)
                    is Missing,
                EditView::DeleteEntry { .. } => false,
                EditView::ChangeDirProp { .. } => false,
                EditView::ChangeFileProp { .. } => false,
                EditView::AbsentDir { .. } => false,
                EditView::AbsentFile { .. } => false,
                EditView::AbortEdit => false,
                _ => true,
            }
        })),
{
    if let Ok(v) = streamed(b, svndiff1, svndiff2, latest, kinds) {
        if 0 <= i < v.commands.len() {
            reveal(stream_from_files);
            reveal(stream_from_dirs);
            let rev = match b.base_rev {
                Some(r) => r,
                None => latest,
            };
            assert(streamed_by_kind(no_files(), rev, kinds));
            lemma_files_taken(no_files(), b.paths, 0, rev, kinds);
            let p = files_taken(no_files(), b.paths, 0, rev, kinds)->Ok_0;
            let needed = in_order(p.needed_dirs());
            lemma_dirs_taken(p, needed, 0, rev, kinds);
            let q = dirs_taken(p, needed, 0, rev, kinds)->Ok_0;
            lemma_drive_due(q.tasks, q.plans, rev, v.enc);
            let c = v.commands[i];
            assert(due(c, q.tasks, q.plans, rev));
            if let EditView::DeleteEntry { path, .. } = c {
                let k = choose|k: int|
                    0 <= k < q.tasks.len() && q.tasks[k] == (TaskView::Delete { path });
                assert(q.tasks[k] is File);
            }
            if let EditView::ChangeDirProp { name, value, .. } = c {
                let k = choose|k: int|
                    0 <= k < q.tasks.len() && has_prop(
                        #[trigger] q.tasks[k],
                        false,
                        PropView { name, value },
                    );
                assert(q.tasks[k] is File);
            }
            if let EditView::ChangeFileProp { name, value, .. } = c {
                let k = choose|k: int|
                    0 <= k < q.tasks.len() && has_prop(
                        #[trigger] q.tasks[k],
                        true,
                        PropView { name, value },
                    );
                assert(q.tasks[k] is File);
            }
        }
    }
}

} // verus!
