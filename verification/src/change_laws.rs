//! Every change that is asked for is carried out by the commands of the commit.

use vstd::prelude::*;

use crate::commit::{
    copy_rev, sorted_changes, version_for, BuilderView, ChangeView, ChangesView, CopyOpView,
    DirActionView, FileActionView,
};
use crate::commit_drive::{
    begun, chunks_sent, closed_to, common, dir_opened, dir_props_sent, dirs_opened, file_opening,
    file_props_sent, gone_to, prefixes, task_done, tasks_done, text_sent, whole_drive,
    DirPlanView, DriveView, Encoding, FileTextView, PropView, TaskView, CHUNK_SIZE,
};
use crate::commit_driver::{
    built, copies_resolved, dirs_answered, files_answered, fresh_plan, rev_for,
};
use crate::commit_laws::{
    file_put, grows, lemma_drive_grows, lemma_found, lemma_gone_grows, lemma_put_in_drive,
    lemma_tasks_grow,
};
use crate::commit_plan::{lemma_tasks, PlanView};
use crate::drive_laws::{enters, rooted, stands_at};
use crate::editor::EditView;
use crate::error::ErrorView;
use crate::fulltext::fulltext_delta;
use crate::keymap::{in_order, lemma_finite_in_order};
use crate::path::{rel_dir_path, rel_path};
use crate::task_order::{drive_order, lemma_chain_dir, lemma_same_tasks, lemma_task_chain};
use crate::types::NodeKind;

verus! {

/// A command opens or adds this file under this token.
pub open spec fn opens_as(c: EditView, path: Seq<char>, token: Seq<char>) -> bool {
    match c {
        EditView::AddFile { path: p, file_token, .. } => p == path && file_token == token,
        EditView::OpenFile { path: p, file_token, .. } => p == path && file_token == token,
        _ => false,
    }
}

/// A command enters this directory under this token; the root is entered when it is
/// opened.
pub open spec fn enters_as(c: EditView, path: Seq<char>, token: Seq<char>) -> bool {
    match c {
        EditView::AddDir { path: p, child_token, .. } => p == path && child_token == token,
        EditView::OpenDir { path: p, child_token, .. } => p == path && child_token == token,
        EditView::OpenRoot { token: t, .. } => path.len() == 0 && t == token,
        _ => false,
    }
}

/// A file is copied.
pub open spec fn copies_file(
    c: EditView,
    path: Seq<char>,
    copy_from: Option<(Seq<char>, u64)>,
) -> bool {
    c matches EditView::AddFile { path: p, copy_from: f, .. } && p == path && f == copy_from
}

/// A directory is copied.
pub open spec fn copies_dir(
    c: EditView,
    path: Seq<char>,
    copy_from: Option<(Seq<char>, u64)>,
) -> bool {
    c matches EditView::AddDir { path: p, copy_from: f, .. } && p == path && f == copy_from
}

/// A path goes by its own name: it is a directory on the way to itself.
pub open spec fn names_itself(path: Seq<char>) -> bool {
    prefixes(path).contains(path)
}

/// The innermost directory of a path; the root for the empty path.
pub open spec fn innermost(path: Seq<char>) -> Seq<char> {
    if prefixes(path).len() == 0 {
        Seq::empty()
    } else {
        prefixes(path).last()
    }
}

/// A property of a file is changed: behind a command that opens the file, and under its
/// token.
pub open spec fn file_prop_at(
    commands: Seq<EditView>,
    i: int,
    j: int,
    token: Seq<char>,
    path: Seq<char>,
    name: Seq<char>,
    value: Option<Seq<u8>>,
) -> bool {
    &&& 0 <= i < j < commands.len()
    &&& opens_as(commands[i], path, token)
    &&& commands[j] == (EditView::ChangeFileProp { file_token: token, name, value })
}

/// A property of a directory is changed: behind a command that enters the directory, and
/// under its token.
pub open spec fn dir_prop_at(
    commands: Seq<EditView>,
    i: int,
    j: int,
    token: Seq<char>,
    path: Seq<char>,
    name: Seq<char>,
    value: Option<Seq<u8>>,
) -> bool {
    &&& 0 <= i < j < commands.len()
    &&& enters_as(commands[i], path, token)
    &&& commands[j] == (EditView::ChangeDirProp { dir_token: token, name, value })
}

/// Commands carry a change out, against `rev` and with texts encoded so, where `kinds` says
/// what stands in the repository.
pub open spec fn carried_out(
    c: ChangeView,
    commands: Seq<EditView>,
    rev: u64,
    enc: Encoding,
    kinds: spec_fn(Seq<char>, u64) -> NodeKind,
) -> bool {
    match c {
        ChangeView::PutFile { path, contents } => rel_path(path) matches Ok(p) && fulltext_delta(
            enc.version,
            contents,
            enc.level,
            enc.window_size as nat,
        ) matches Ok(delta) && exists|exists: bool| #[trigger]
            file_put(commands, p, exists, rev, delta),
        ChangeView::MkdirP { path } => rel_dir_path(path) matches Ok(p) && forall|d: Seq<char>|
            #[trigger]
            prefixes(p).contains(d) ==> exists|i: int|
                0 <= i < commands.len() && enters(#[trigger] commands[i]) == Some(d),
        ChangeView::Delete { path } => rel_path(path) matches Ok(p) && exists|i: int|
            0 <= i < commands.len() && (#[trigger] commands[i] matches EditView::DeleteEntry {
                path: q,
                rev: r,
                ..
            } && q == p && r == rev),
        ChangeView::Copy { from_path, from_rev, to_path } => rel_path(from_path) matches Ok(f)
            && rel_path(to_path) matches Ok(t) && ({
            let r = match from_rev {
                Some(r) => r,
                None => rev,
            };
            if kinds(f, r) == NodeKind::File {
                exists|i: int|
                    0 <= i < commands.len() && copies_file(
                        #[trigger] commands[i],
                        t,
                        Some((f, r)),
                    )
            } else {
                names_itself(t) ==> exists|i: int|
                    0 <= i < commands.len() && copies_dir(#[trigger] commands[i], t, Some((f, r)))
            }
        }),
        ChangeView::FileProp { path, name, value } => rel_path(path) matches Ok(p) && exists|
            i: int,
            j: int,
            token: Seq<char>,
        | #[trigger]
            file_prop_at(commands, i, j, token, p, name, value),
        ChangeView::DirProp { path, name, value } => rel_dir_path(path) matches Ok(p) && exists|
            i: int,
            j: int,
            token: Seq<char>,
        | #[trigger]
            dir_prop_at(commands, i, j, token, innermost(p), name, value),
    }
}

/// A change has been taken into account.
pub(crate) open spec fn recorded(c: ChangeView, v: ChangesView) -> bool {
    match c {
        ChangeView::PutFile { path, contents } => rel_path(path) matches Ok(p)
            && v.files.dom().contains(p) && v.files[p].action == Some(
            FileActionView::Put(contents),
        ),
        ChangeView::MkdirP { path } => rel_dir_path(path) matches Ok(p) && v.dirs.dom().contains(p),
        ChangeView::Delete { path } => rel_path(path) matches Ok(p) && v.deletes.contains(p),
        ChangeView::Copy { from_path, from_rev, to_path } => rel_path(from_path) matches Ok(f)
            && rel_path(to_path) matches Ok(t) && v.copies.contains(
            CopyOpView { from_path: f, from_rev, to_path: t },
        ),
        ChangeView::FileProp { path, name, value } => rel_path(path) matches Ok(p)
            && v.files.dom().contains(p) && v.files[p].props.contains(PropView { name, value }),
        ChangeView::DirProp { path, name, value } => rel_dir_path(path) matches Ok(p)
            && v.dirs.dom().contains(p) && v.dirs[p].props.contains(PropView { name, value }),
    }
}

proof fn lemma_push_keeps<A>(s: Seq<A>, x: A, y: A)
    ensures
        s.push(x).contains(x),
        s.contains(y) ==> s.push(x).contains(y),
{
    assert(s.push(x)[s.len() as int] == x);
    if s.contains(y) {
        let i = choose|i: int| 0 <= i < s.len() && s[i] == y;
        assert(s.push(x)[i] == y);
    }
}

/// Taking one more change into account loses none.
proof fn lemma_with_keeps(v: ChangesView, c: ChangeView, d: ChangeView)
    ensures
        v.with(c) matches Ok(w) ==> recorded(c, w) && (recorded(d, v) ==> recorded(d, w)),
{
    if let Ok(w) = v.with(c) {
        match c {
            ChangeView::FileProp { path, name, value } => {
                let p = rel_path(path)->Ok_0;
                let x = PropView { name, value };
                lemma_push_keeps(v.file_op(p).props, x, x);
                if let ChangeView::FileProp { path: q, name: n, value: u } = d {
                    lemma_push_keeps(v.file_op(p).props, x, PropView { name: n, value: u });
                }
            },
            ChangeView::DirProp { path, name, value } => {
                let p = rel_dir_path(path)->Ok_0;
                let x = PropView { name, value };
                lemma_push_keeps(v.dir_op(p).props, x, x);
                if let ChangeView::DirProp { path: q, name: n, value: u } = d {
                    lemma_push_keeps(v.dir_op(p).props, x, PropView { name: n, value: u });
                }
            },
            ChangeView::Copy { from_path, from_rev, to_path } => {
                let x = CopyOpView {
                    from_path: rel_path(from_path)->Ok_0,
                    from_rev,
                    to_path: rel_path(to_path)->Ok_0,
                };
                lemma_push_keeps(v.copies, x, x);
                if let ChangeView::Copy { from_path: f, from_rev: r, to_path: t } = d {
                    if rel_path(f) is Ok && rel_path(t) is Ok {
                        let y = CopyOpView {
                            from_path: rel_path(f)->Ok_0,
                            from_rev: r,
                            to_path: rel_path(t)->Ok_0,
                        };
                        lemma_push_keeps(v.copies, x, y);
                    }
                }
            },
            _ => {},
        }
    }
}

pub(crate) proof fn lemma_all_recorded(changes: Seq<ChangeView>, n: int, k: int)
    requires
        0 <= k < n <= changes.len(),
    ensures
        sorted_changes(changes, n) matches Ok(v) ==> recorded(changes[k], v),
    decreases n,
{
    if let Ok(v) = sorted_changes(changes, n - 1) {
        lemma_with_keeps(v, changes[n - 1], changes[k]);
        if k < n - 1 {
            lemma_all_recorded(changes, n - 1, k);
        }
    }
}

/// The paths that are changed are finitely many.
pub(crate) open spec fn finite(v: ChangesView) -> bool {
    v.files.dom().finite() && v.dirs.dom().finite() && v.deletes.finite()
}

pub(crate) proof fn lemma_sorted_finite(changes: Seq<ChangeView>, n: int)
    requires
        0 <= n <= changes.len(),
    ensures
        sorted_changes(changes, n) matches Ok(v) ==> finite(v),
    decreases n,
{
    if n > 0 {
        lemma_sorted_finite(changes, n - 1);
    }
}

/// A copy has been resolved.
pub(crate) open spec fn settled(
    x: CopyOpView,
    v: ChangesView,
    base_rev: u64,
    kinds: spec_fn(Seq<char>, u64) -> NodeKind,
) -> bool {
    let from_rev = copy_rev(x, base_rev);
    if kinds(x.from_path, from_rev) == NodeKind::File {
        v.files.dom().contains(x.to_path) && v.files[x.to_path].action == Some(
            FileActionView::Copy { from_path: x.from_path, from_rev },
        )
    } else {
        v.dirs.dom().contains(x.to_path) && v.dirs[x.to_path].action == Some(
            DirActionView::Copy { from_path: x.from_path, from_rev },
        )
    }
}

/// Resolving copies settles them all, and loses no other change.
pub(crate) proof fn lemma_resolved(
    v: ChangesView,
    base_rev: u64,
    kinds: spec_fn(Seq<char>, u64) -> NodeKind,
    x: CopyOpView,
    c: ChangeView,
)
    requires
        finite(v),
    ensures
        copies_resolved(v, base_rev, kinds) matches Ok(w) ==> finite(w) && (v.copies.contains(x)
            || settled(x, v, base_rev, kinds) ==> settled(x, w, base_rev, kinds)) && (c !is Copy
            && recorded(c, v) ==> recorded(c, w)),
    decreases v.copies.len(),
{
    if v.copies.len() > 0 && copies_resolved(v, base_rev, kinds) is Ok {
        let (path, rev) = v.copy_asks(base_rev)->Ok_0;
        let u = v.copy_answered(base_rev, kinds(path, rev))->Ok_0;
        lemma_resolved(u, base_rev, kinds, x, c);
        if v.copies.contains(x) {
            let i = choose|i: int| 0 <= i < v.copies.len() && v.copies[i] == x;
            if i > 0 {
                assert(u.copies[i - 1] == x);
                assert(u.copies.contains(x));
            } else {
                assert(settled(x, u, base_rev, kinds));
            }
        }
        if settled(x, v, base_rev, kinds) {
            assert(settled(x, u, base_rev, kinds));
        }
        if c !is Copy && recorded(c, v) {
            assert(recorded(c, u));
        }
    }
}

pub(crate) proof fn lemma_resolved_finite(
    v: ChangesView,
    base_rev: u64,
    kinds: spec_fn(Seq<char>, u64) -> NodeKind,
)
    requires
        finite(v),
    ensures
        copies_resolved(v, base_rev, kinds) matches Ok(w) ==> finite(w),
    decreases v.copies.len(),
{
    if v.copies.len() > 0 && copies_resolved(v, base_rev, kinds) is Ok {
        let (path, rev) = v.copy_asks(base_rev)->Ok_0;
        let u = v.copy_answered(base_rev, kinds(path, rev))->Ok_0;
        lemma_resolved_finite(u, base_rev, kinds);
    }
}

/// Directories that are copied are planned to be copied.
spec fn copies_planned(p: PlanView) -> bool {
    forall|d: Seq<char>| #[trigger]
        p.plans.dom().contains(d) ==> (p.changes.dir_op(d).action matches Some(
            DirActionView::Copy { from_path, from_rev },
        ) ==> p.plans[d] == (DirPlanView::Add { copy_from: Some((from_path, from_rev)) }))
}

proof fn lemma_copies_planned(
    p: PlanView,
    i: int,
    base_rev: u64,
    kinds: spec_fn(Seq<char>, u64) -> NodeKind,
)
    requires
        copies_planned(p),
    ensures
        dirs_answered(p, i, base_rev, kinds) matches Ok(q) ==> copies_planned(q) && q.changes
            == p.changes,
    decreases in_order(p.changes.needed_dirs()).len() - i,
{
    let needed = in_order(p.changes.needed_dirs());
    if 0 <= i < needed.len() {
        if let Ok(dir) = rel_dir_path(needed[i]) {
            if let Ok(q) = p.dir_answered(needed[i], kinds(dir, base_rev)) {
                assert(copies_planned(q));
                lemma_copies_planned(q, i + 1, base_rev, kinds);
            }
        }
    }
}

pub(crate) proof fn lemma_files_keep(
    p: PlanView,
    i: int,
    base_rev: u64,
    kinds: spec_fn(Seq<char>, u64) -> NodeKind,
)
    ensures
        files_answered(p, i, base_rev, kinds) matches Ok(q) ==> q.changes == p.changes && q.plans
            == p.plans,
    decreases in_order(p.changes.files.dom()).len() - i,
{
    let files = in_order(p.changes.files.dom());
    if 0 <= i < files.len() {
        if let Ok(q) = p.file_answered(files[i], kinds(files[i], base_rev)) {
            lemma_files_keep(q, i + 1, base_rev, kinds);
        }
    }
}

/// What is changed has a task.
proof fn lemma_has_task(p: PlanView, t: TaskView)
    requires
        finite(p.changes),
        ({
            ||| exists|d: Seq<char>| #[trigger]
                p.changes.dirs.dom().contains(d) && t == p.dir_task(d)
            ||| exists|f: Seq<char>| #[trigger]
                p.changes.files.dom().contains(f) && t == p.file_task(f)
            ||| exists|x: Seq<char>| #[trigger]
                p.changes.deletes.contains(x) && t == (TaskView::Delete { path: x })
        }),
    ensures
        drive_order(p.tasks()).contains(t),
{
    let all = p.tasks();
    let nd = in_order(p.changes.dirs.dom());
    let nf = in_order(p.changes.files.dom());
    let nx = in_order(p.changes.deletes);
    lemma_finite_in_order(p.changes.dirs.dom());
    lemma_finite_in_order(p.changes.files.dom());
    lemma_finite_in_order(p.changes.deletes);
    lemma_tasks(p, nd, nf, nx);
    assert(all.contains(t)) by {
        if exists|d: Seq<char>| #[trigger] p.changes.dirs.dom().contains(d) && t == p.dir_task(d) {
            let d = choose|d: Seq<char>| #[trigger]
                p.changes.dirs.dom().contains(d) && t == p.dir_task(d);
            let k = choose|k: int| 0 <= k < nd.len() && nd[k] == d;
            assert(all[k] == t);
        } else if exists|f: Seq<char>| #[trigger]
            p.changes.files.dom().contains(f) && t == p.file_task(f) {
            let f = choose|f: Seq<char>| #[trigger]
                p.changes.files.dom().contains(f) && t == p.file_task(f);
            let k = choose|k: int| 0 <= k < nf.len() && nf[k] == f;
            assert(all[nd.len() + k] == t);
        } else {
            let x = choose|x: Seq<char>| #[trigger]
                p.changes.deletes.contains(x) && t == (TaskView::Delete { path: x });
            let k = choose|k: int| 0 <= k < nx.len() && nx[k] == x;
            assert(all[nd.len() + nf.len() + k] == t);
        }
    }
    lemma_same_tasks(all, t);
}

/// A command has entered this directory under this token.
spec fn entered_by(out: Seq<EditView>, path: Seq<char>, token: Seq<char>) -> bool {
    exists|i: int| 0 <= i < out.len() && enters_as(#[trigger] out[i], path, token)
}

/// Every directory that is open was entered, and every directory was entered as planned.
spec fn on_plan(s: DriveView, plans: Map<Seq<char>, DirPlanView>) -> bool {
    &&& forall|k: int|
        0 <= k < s.dirs.len() ==> entered_by(s.out, (#[trigger] s.dirs[k]).0, s.dirs[k].1)
    &&& forall|i: int|
        0 <= i < s.out.len() ==> (enters(#[trigger] s.out[i]) matches Some(d) ==> (
        plans.dom().contains(d) && (plans[d] matches DirPlanView::Add { copy_from } ==> copies_dir(
            s.out[i],
            d,
            copy_from,
        ))))
}

/// More commands came that enter nothing.
spec fn quiet(s: DriveView, t: DriveView) -> bool {
    &&& grows(s, t)
    &&& t.dirs.len() <= s.dirs.len()
    &&& forall|k: int| 0 <= k < t.dirs.len() ==> #[trigger] t.dirs[k] == s.dirs[k]
    &&& forall|i: int| s.out.len() <= i < t.out.len() ==> enters(#[trigger] t.out[i]) is None
}

proof fn lemma_quiet(s: DriveView, t: DriveView, plans: Map<Seq<char>, DirPlanView>)
    requires
        on_plan(s, plans),
        quiet(s, t),
    ensures
        on_plan(t, plans),
{
    assert forall|k: int| 0 <= k < t.dirs.len() implies entered_by(
        t.out,
        (#[trigger] t.dirs[k]).0,
        t.dirs[k].1,
    ) by {
        assert(t.dirs[k] == s.dirs[k]);
        let i = choose|i: int|
            0 <= i < s.out.len() && enters_as(#[trigger] s.out[i], s.dirs[k].0, s.dirs[k].1);
        assert(t.out[i] == s.out[i]);
    }
    assert forall|i: int| 0 <= i < t.out.len() implies (enters(#[trigger] t.out[i]) matches Some(
        d,
    ) ==> (plans.dom().contains(d) && (plans[d] matches DirPlanView::Add { copy_from }
        ==> copies_dir(t.out[i], d, copy_from)))) by {
        if i < s.out.len() {
            assert(t.out[i] == s.out[i]);
        }
    }
}

proof fn lemma_closed_quiet(s: DriveView, n: int)
    ensures
        quiet(s, closed_to(s, n)),
    decreases s.dirs.len(),
{
    if s.dirs.len() > n && s.dirs.len() > 0 {
        let c = EditView::CloseDir { dir_token: s.here() };
        let t = DriveView { dirs: s.dirs.drop_last(), ..s.send(c) };
        lemma_closed_quiet(t, n);
        let u = closed_to(t, n);
        assert forall|k: int| 0 <= k < u.dirs.len() implies #[trigger] u.dirs[k] == s.dirs[k] by {
            assert(u.dirs[k] == t.dirs[k]);
        }
        assert forall|i: int| 0 <= i < s.out.len() implies #[trigger] u.out[i] == s.out[i] by {
            assert(u.out[i] == t.out[i]);
        }
        assert forall|i: int| s.out.len() <= i < u.out.len() implies enters(
            #[trigger] u.out[i],
        ) is None by {
            if i == s.out.len() {
                assert(u.out[i] == t.out[i]);
            }
        }
    }
}

proof fn lemma_opened_on_plan(
    s: DriveView,
    targets: Seq<Seq<char>>,
    k: int,
    plans: Map<Seq<char>, DirPlanView>,
    rev: u64,
)
    requires
        on_plan(s, plans),
    ensures
        dirs_opened(s, targets, k, plans, rev) matches Ok(t) ==> on_plan(t, plans),
    decreases targets.len() - k,
{
    if 0 <= k < targets.len() && plans.dom().contains(targets[k]) {
        let t = dir_opened(s, targets[k], plans[targets[k]], rev);
        let c = t.out.last();
        assert(t.out =~= s.out.push(c));
        assert forall|m: int| 0 <= m < t.dirs.len() implies entered_by(
            t.out,
            (#[trigger] t.dirs[m]).0,
            t.dirs[m].1,
        ) by {
            if m < s.dirs.len() {
                assert(t.dirs[m] == s.dirs[m]);
                let i = choose|i: int|
                    0 <= i < s.out.len() && enters_as(
                        #[trigger] s.out[i],
                        s.dirs[m].0,
                        s.dirs[m].1,
                    );
                assert(t.out[i] == s.out[i]);
            } else {
                assert(enters_as(t.out[s.out.len() as int], t.dirs[m].0, t.dirs[m].1));
            }
        }
        assert forall|i: int| 0 <= i < t.out.len() implies (enters(
            #[trigger] t.out[i],
        ) matches Some(d) ==> (plans.dom().contains(d) && (plans[d] matches DirPlanView::Add {
            copy_from,
        } ==> copies_dir(t.out[i], d, copy_from)))) by {
            if i < s.out.len() {
                assert(t.out[i] == s.out[i]);
            }
        }
        lemma_opened_on_plan(t, targets, k + 1, plans, rev);
    }
}

/// The properties of a directory are sent one behind the other.
proof fn lemma_dir_props(s: DriveView, props: Seq<PropView>, n: int)
    requires
        0 <= n <= props.len(),
    ensures
        quiet(s, dir_props_sent(s, props, n)),
        dir_props_sent(s, props, n).dirs == s.dirs,
        dir_props_sent(s, props, n).out.len() == s.out.len() + n,
        forall|k: int|
            0 <= k < n ==> dir_props_sent(s, props, n).out[s.out.len() + k] == (
            EditView::ChangeDirProp {
                dir_token: s.here(),
                name: (#[trigger] props[k]).name,
                value: props[k].value,
            }),
    decreases n,
{
    if n > 0 {
        lemma_dir_props(s, props, n - 1);
    }
}

/// The properties of a file are sent one behind the other.
proof fn lemma_file_props(s: DriveView, token: Seq<char>, props: Seq<PropView>, n: int)
    requires
        0 <= n <= props.len(),
    ensures
        quiet(s, file_props_sent(s, token, props, n)),
        file_props_sent(s, token, props, n).dirs == s.dirs,
        file_props_sent(s, token, props, n).out.len() == s.out.len() + n,
        forall|k: int|
            0 <= k < n ==> file_props_sent(s, token, props, n).out[s.out.len() + k] == (
            EditView::ChangeFileProp {
                file_token: token,
                name: (#[trigger] props[k]).name,
                value: props[k].value,
            }),
    decreases n,
{
    if n > 0 {
        lemma_file_props(s, token, props, n - 1);
    }
}

proof fn lemma_chunks_quiet(s: DriveView, token: Seq<char>, delta: Seq<u8>)
    ensures
        quiet(s, chunks_sent(s, token, delta)),
        chunks_sent(s, token, delta).dirs == s.dirs,
    decreases delta.len(),
{
    if delta.len() > 0 {
        let n: int = if delta.len() < CHUNK_SIZE {
            delta.len() as int
        } else {
            CHUNK_SIZE as int
        };
        let t = s.send(EditView::TextDeltaChunk { file_token: token, chunk: delta.take(n) });
        lemma_chunks_quiet(t, token, delta.skip(n));
        let u = chunks_sent(t, token, delta.skip(n));
        assert forall|i: int| 0 <= i < s.out.len() implies #[trigger] u.out[i] == s.out[i] by {
            assert(u.out[i] == t.out[i]);
        }
        assert forall|i: int| s.out.len() <= i < u.out.len() implies enters(
            #[trigger] u.out[i],
        ) is None by {
            if i == s.out.len() {
                assert(u.out[i] == t.out[i]);
            }
        }
    }
}

proof fn lemma_text_quiet(s: DriveView, token: Seq<char>, text: FileTextView, enc: Encoding)
    ensures
        text_sent(s, token, text, enc) matches Ok(t) ==> quiet(s, t) && t.dirs == s.dirs,
{
    let t = s.send(EditView::ApplyTextDelta { file_token: token, base_checksum: None });
    if let FileTextView::Bytes(b) = text {
        if let Ok(delta) = fulltext_delta(enc.version, b, enc.level, enc.window_size as nat) {
            lemma_chunks_quiet(t, token, delta);
            let u = chunks_sent(t, token, delta);
            assert forall|i: int| 0 <= i < s.out.len() implies #[trigger] u.out[i] == s.out[i] by {
                assert(u.out[i] == t.out[i]);
            }
            assert forall|i: int| s.out.len() <= i < u.out.len() implies enters(
                #[trigger] u.out[i],
            ) is None by {
                if i == s.out.len() {
                    assert(u.out[i] == t.out[i]);
                }
            }
        }
    }
}

/// What a task sends stands in the commands: the file is opened, the properties are
/// changed, those of a directory behind the first `m` commands, the entry is deleted.
spec fn task_sent(
    out: Seq<EditView>,
    m: int,
    task: TaskView,
    here: Seq<char>,
    rev: u64,
) -> bool {
    match task {
        TaskView::Dir { props, .. } => forall|k: int|
            0 <= k < props.len() ==> exists|j: int|
                m <= j < out.len() && #[trigger] out[j] == (EditView::ChangeDirProp {
                    dir_token: here,
                    name: (#[trigger] props[k]).name,
                    value: props[k].value,
                }),
        TaskView::Delete { path } => exists|i: int|
            0 <= i < out.len() && #[trigger] out[i] == (EditView::DeleteEntry {
                path,
                rev,
                dir_token: here,
            }),
        TaskView::File { path, copy_from, props, .. } => exists|i: int, token: Seq<char>|
            0 <= i < out.len() && #[trigger] opens_as(out[i], path, token) && (copy_from is Some
                ==> copies_file(out[i], path, copy_from)) && forall|k: int|
                0 <= k < props.len() ==> exists|j: int|
                    i < j < out.len() && #[trigger] out[j] == (EditView::ChangeFileProp {
                        file_token: token,
                        name: (#[trigger] props[k]).name,
                        value: props[k].value,
                    }),
    }
}

proof fn lemma_task_sent(s: DriveView, task: TaskView, rev: u64, enc: Encoding)
    ensures
        task_done(s, task, rev, enc) matches Ok(t) ==> quiet(s, t) && t.dirs == s.dirs
            && task_sent(t.out, s.out.len() as int, task, s.here(), rev),
{
    if let Ok(z) = task_done(s, task, rev, enc) {
        match task {
            TaskView::Dir { props, .. } => {
                lemma_dir_props(s, props, props.len() as int);
                let m = s.out.len() as int;
                assert forall|k: int| 0 <= k < props.len() implies exists|j: int|
                    m <= j < z.out.len() && #[trigger] z.out[j] == (EditView::ChangeDirProp {
                        dir_token: s.here(),
                        name: (#[trigger] props[k]).name,
                        value: props[k].value,
                    }) by {
                    let j = s.out.len() + k;
                    assert(z.out[j] == (EditView::ChangeDirProp {
                        dir_token: s.here(),
                        name: props[k].name,
                        value: props[k].value,
                    }));
                }
            },
            TaskView::Delete { path } => {
                let i = s.out.len() as int;
                assert(z.out[i] == (EditView::DeleteEntry { path, rev, dir_token: s.here() }));
            },
            TaskView::File { path, exists, copy_from, text, props } => {
                let token = s.file_token();
                let open = file_opening(s, path, exists, copy_from, rev);
                let t = DriveView { next_file: s.next_file + 1, ..s.send(open) };
                lemma_text_quiet(t, token, text, enc);
                let u = text_sent(t, token, text, enc)->Ok_0;
                lemma_file_props(u, token, props, props.len() as int);
                let w = file_props_sent(u, token, props, props.len() as int);
                let i = s.out.len() as int;
                assert forall|m: int| 0 <= m < u.out.len() implies #[trigger] z.out[m]
                    == u.out[m] by {
                    assert(z.out[m] == w.out[m]);
                }
                assert forall|m: int| 0 <= m < s.out.len() implies #[trigger] z.out[m]
                    == s.out[m] by {
                    assert(z.out[m] == u.out[m]);
                    assert(u.out[m] == t.out[m]);
                }
                assert(z.out[i] == u.out[i] && u.out[i] == t.out[i]);
                assert(opens_as(z.out[i], path, token));
                assert forall|k: int| 0 <= k < props.len() implies exists|j: int|
                    i < j < z.out.len() && #[trigger] z.out[j] == (EditView::ChangeFileProp {
                        file_token: token,
                        name: (#[trigger] props[k]).name,
                        value: props[k].value,
                    }) by {
                    let j = u.out.len() + k;
                    assert(z.out[j] == w.out[j]);
                    assert(w.out[j] == (EditView::ChangeFileProp {
                        file_token: token,
                        name: props[k].name,
                        value: props[k].value,
                    }));
                }
                assert forall|m: int| s.out.len() <= m < z.out.len() implies enters(
                    #[trigger] z.out[m],
                ) is None by {
                    if m < u.out.len() {
                        assert(z.out[m] == u.out[m]);
                        if m == i {
                            assert(u.out[m] == t.out[m]);
                        }
                    } else if m < w.out.len() {
                        assert(z.out[m] == w.out[m]);
                    }
                }
            },
        }
    }
}

proof fn lemma_tasks_on_plan(
    tasks: Seq<TaskView>,
    n: int,
    plans: Map<Seq<char>, DirPlanView>,
    rev: u64,
    enc: Encoding,
)
    requires
        0 <= n <= tasks.len(),
    ensures
        tasks_done(tasks, n, plans, rev, enc) matches Ok(s) ==> on_plan(s, plans),
    decreases n,
{
    if n > 0 {
        lemma_tasks_on_plan(tasks, n - 1, plans, rev, enc);
        if let Ok(s) = tasks_done(tasks, n - 1, plans, rev, enc) {
            let targets = tasks[n - 1].dirs();
            let k = common(s.dirs, targets, 0);
            lemma_closed_quiet(s, k + 1);
            lemma_quiet(s, closed_to(s, k + 1), plans);
            lemma_opened_on_plan(closed_to(s, k + 1), targets, k, plans, rev);
            if let Ok(t) = gone_to(s, targets, plans, rev) {
                lemma_task_sent(t, tasks[n - 1], rev, enc);
                if let Ok(u) = task_done(t, tasks[n - 1], rev, enc) {
                    lemma_quiet(t, u, plans);
                }
            }
        }
    } else {
        let s = begun(rev);
        assert(enters_as(s.out[0], s.dirs[0].0, s.dirs[0].1));
    }
}

/// The innermost of directories; the root where there are none.
spec fn end_of(dirs: Seq<Seq<char>>) -> Seq<char> {
    if dirs.len() == 0 {
        Seq::empty()
    } else {
        dirs.last()
    }
}

/// What a task asks for stands in the commands of the whole drive: its directories are
/// entered as planned, and then what it sends is sent.
spec fn task_carried_out(
    commands: Seq<EditView>,
    task: TaskView,
    plans: Map<Seq<char>, DirPlanView>,
    rev: u64,
) -> bool {
    &&& forall|d: Seq<char>| #[trigger]
        task.dirs().contains(d) ==> exists|i: int|
            0 <= i < commands.len() && enters(#[trigger] commands[i]) == Some(d) && (
            plans[d] matches DirPlanView::Add { copy_from } ==> copies_dir(
                commands[i],
                d,
                copy_from,
            ))
    &&& exists|m: int, i: int, token: Seq<char>|
        0 <= i < m <= commands.len() && #[trigger] enters_as(
            commands[i],
            end_of(task.dirs()),
            token,
        ) && #[trigger] task_sent(commands, m, task, token, rev)
}

/// What is sent stays when more commands come.
proof fn lemma_sent_stays(
    out: Seq<EditView>,
    more: Seq<EditView>,
    m: int,
    task: TaskView,
    here: Seq<char>,
    rev: u64,
)
    requires
        0 <= m,
        task_sent(out, m, task, here, rev),
        out.len() <= more.len(),
        forall|k: int| 0 <= k < out.len() ==> #[trigger] more[k] == out[k],
    ensures
        task_sent(more, m, task, here, rev),
{
    match task {
        TaskView::Dir { props, .. } => {
            assert forall|k: int| 0 <= k < props.len() implies exists|j: int|
                m <= j < more.len() && #[trigger] more[j] == (EditView::ChangeDirProp {
                    dir_token: here,
                    name: (#[trigger] props[k]).name,
                    value: props[k].value,
                }) by {
                let j = choose|j: int|
                    m <= j < out.len() && #[trigger] out[j] == (EditView::ChangeDirProp {
                        dir_token: here,
                        name: props[k].name,
                        value: props[k].value,
                    });
                assert(more[j] == out[j]);
            }
        },
        TaskView::Delete { path } => {
            let i = choose|i: int|
                0 <= i < out.len() && #[trigger] out[i] == (EditView::DeleteEntry {
                    path,
                    rev,
                    dir_token: here,
                });
            assert(more[i] == out[i]);
        },
        TaskView::File { path, copy_from, props, .. } => {
            let (i, token) = choose|i: int, token: Seq<char>|
                0 <= i < out.len() && #[trigger] opens_as(out[i], path, token) && (copy_from is Some
                    ==> copies_file(out[i], path, copy_from)) && forall|k: int|
                    0 <= k < props.len() ==> exists|j: int|
                        i < j < out.len() && #[trigger] out[j] == (EditView::ChangeFileProp {
                            file_token: token,
                            name: (#[trigger] props[k]).name,
                            value: props[k].value,
                        });
            assert(more[i] == out[i]);
            assert(opens_as(more[i], path, token));
            assert forall|k: int| 0 <= k < props.len() implies exists|j: int|
                i < j < more.len() && #[trigger] more[j] == (EditView::ChangeFileProp {
                    file_token: token,
                    name: (#[trigger] props[k]).name,
                    value: props[k].value,
                }) by {
                let j = choose|j: int|
                    i < j < out.len() && #[trigger] out[j] == (EditView::ChangeFileProp {
                        file_token: token,
                        name: props[k].name,
                        value: props[k].value,
                    });
                assert(more[j] == out[j]);
            }
        },
    }
}

proof fn lemma_carried_out(
    tasks: Seq<TaskView>,
    m: int,
    plans: Map<Seq<char>, DirPlanView>,
    rev: u64,
    enc: Encoding,
)
    requires
        0 <= m < tasks.len(),
    ensures
        whole_drive(tasks, plans, rev, enc) matches Ok(commands) ==> task_carried_out(
            commands,
            tasks[m],
            plans,
            rev,
        ),
{
    if let Ok(commands) = whole_drive(tasks, plans, rev, enc) {
        let task = tasks[m];
        let dirs = task.dirs();
        lemma_drive_grows(tasks, 0, plans, rev, enc);
        lemma_drive_grows(tasks, m, plans, rev, enc);
        lemma_drive_grows(tasks, m + 1, plans, rev, enc);
        let s = tasks_done(tasks, m, plans, rev, enc)->Ok_0;
        let t = gone_to(s, dirs, plans, rev)->Ok_0;
        let u = tasks_done(tasks, m + 1, plans, rev, enc)->Ok_0;
        assert(task_done(t, task, rev, enc) == Ok::<DriveView, ErrorView>(u));
        lemma_task_sent(t, task, rev, enc);
        lemma_tasks_on_plan(tasks, m + 1, plans, rev, enc);
        crate::drive_laws::lemma_tasks(tasks, m + 1, plans, rev, enc);
        assert(stands_at(u, dirs));
        lemma_task_chain(task);
        lemma_gone_grows(s, dirs, plans, rev);
        lemma_tasks_grow(tasks, 0, m, plans, rev, enc);
        lemma_sent_stays(u.out, commands, t.out.len() as int, task, t.here(), rev);
        assert forall|d: Seq<char>| #[trigger] dirs.contains(d) implies exists|i: int|
            0 <= i < commands.len() && enters(#[trigger] commands[i]) == Some(d) && (
            plans[d] matches DirPlanView::Add { copy_from } ==> copies_dir(
                commands[i],
                d,
                copy_from,
            )) by {
            let k = choose|k: int| 0 <= k < dirs.len() && dirs[k] == d;
            lemma_chain_dir(dirs, k);
            assert(u.dirs[k + 1].0 == d);
            let token = u.dirs[k + 1].1;
            assert(entered_by(u.out, d, token));
            let i = choose|i: int| 0 <= i < u.out.len() && enters_as(#[trigger] u.out[i], d, token);
            assert(commands[i] == u.out[i]);
            assert(enters(u.out[i]) == Some(d));
        }
        let here = t.here();
        let last = u.dirs.len() - 1;
        assert(here == u.dirs[last].1);
        if dirs.len() == 0 {
            let b = begun(rev);
            assert(commands[0] == b.out[0]);
            assert(rooted(u));
            assert(enters_as(commands[0], end_of(dirs), here));
            assert(t.out.len() > 0);
        } else {
            lemma_chain_dir(dirs, dirs.len() - 1);
            assert(u.dirs[dirs.len() - 1 + 1].0 == dirs[dirs.len() - 1]);
            assert(entered_by(u.out, dirs.last(), here));
            let i = choose|i: int|
                0 <= i < u.out.len() && enters_as(#[trigger] u.out[i], dirs.last(), here);
            assert(commands[i] == u.out[i]);
            assert(enters(u.out[i]) is Some);
            assert(i < t.out.len());
            assert(enters_as(commands[i], end_of(dirs), here));
        }
    }
}

/// A change that has been taken into account is carried out.
proof fn lemma_change(
    c: ChangeView,
    v: ChangesView,
    x: CopyOpView,
    p: PlanView,
    rev: u64,
    enc: Encoding,
    kinds: spec_fn(Seq<char>, u64) -> NodeKind,
    commands: Seq<EditView>,
)
    requires
        finite(v),
        p.changes == v,
        copies_planned(p),
        p.commands(rev, enc) == Ok::<Seq<EditView>, ErrorView>(commands),
        c !is Copy ==> recorded(c, v),
        c matches ChangeView::Copy { from_path, from_rev, to_path } ==> rel_path(
            from_path,
        ) matches Ok(f) && rel_path(to_path) matches Ok(t) && x == (CopyOpView {
            from_path: f,
            from_rev,
            to_path: t,
        }) && settled(x, v, rev, kinds),
    ensures
        carried_out(c, commands, rev, enc, kinds),
{
    let all = p.tasks();
    let sorted = drive_order(all);
    let t = match c {
        ChangeView::PutFile { path, .. } => p.file_task(rel_path(path)->Ok_0),
        ChangeView::MkdirP { path } => p.dir_task(rel_dir_path(path)->Ok_0),
        ChangeView::Delete { path } => TaskView::Delete { path: rel_path(path)->Ok_0 },
        ChangeView::FileProp { path, .. } => p.file_task(rel_path(path)->Ok_0),
        ChangeView::DirProp { path, .. } => p.dir_task(rel_dir_path(path)->Ok_0),
        ChangeView::Copy { .. } => if kinds(x.from_path, copy_rev(x, rev)) == NodeKind::File {
            p.file_task(x.to_path)
        } else {
            p.dir_task(x.to_path)
        },
    };
    lemma_has_task(p, t);
    let m = choose|m: int| 0 <= m < sorted.len() && sorted[m] == t;
    lemma_carried_out(sorted, m, p.plans, rev, enc);
    assert(task_carried_out(commands, t, p.plans, rev));
    match c {
        ChangeView::PutFile { path, contents } => {
            let q = rel_path(path)->Ok_0;
            lemma_put_in_drive(
                sorted,
                m,
                q,
                p.exists[q],
                contents,
                v.files[q].props,
                p.plans,
                rev,
                enc,
            );
        },
        ChangeView::MkdirP { path } => {
            let q = rel_dir_path(path)->Ok_0;
            assert forall|d: Seq<char>| #[trigger] prefixes(q).contains(d) implies exists|i: int|
                0 <= i < commands.len() && enters(#[trigger] commands[i]) == Some(d) by {
                assert(t.dirs().contains(d));
            }
        },
        ChangeView::Delete { path } => {
            let (a, i, token) = lemma_sent_of(commands, t, p.plans, rev);
        },
        ChangeView::FileProp { path, name, value } => {
            let q = rel_path(path)->Ok_0;
            let (a, i, token) = lemma_sent_of(commands, t, p.plans, rev);
            lemma_file_prop(commands, a, t, token, rev, q, PropView { name, value });
        },
        ChangeView::DirProp { path, name, value } => {
            let q = rel_dir_path(path)->Ok_0;
            let (a, i, token) = lemma_sent_of(commands, t, p.plans, rev);
            let props = v.dirs[q].props;
            let k = choose|k: int| 0 <= k < props.len() && props[k] == (PropView { name, value });
            assert(t->Dir_props == props);
            assert(props[k].name == name && props[k].value == value);
            let j = choose|j: int|
                a <= j < commands.len() && #[trigger] commands[j] == (EditView::ChangeDirProp {
                    dir_token: token,
                    name: props[k].name,
                    value: props[k].value,
                });
            assert(end_of(t.dirs()) == innermost(q));
            assert(dir_prop_at(commands, i, j, token, innermost(q), name, value));
        },
        ChangeView::Copy { from_path, from_rev, to_path } => {
            let from = Some((x.from_path, copy_rev(x, rev)));
            if t is File {
                let (a, i, token) = lemma_sent_of(commands, t, p.plans, rev);
                lemma_copied_file(commands, a, t, token, rev, x.to_path, from);
            } else if names_itself(x.to_path) {
                assert(t.dirs().contains(x.to_path));
                let i = choose|i: int|
                    0 <= i < commands.len() && enters(#[trigger] commands[i]) == Some(x.to_path)
                        && (p.plans[x.to_path] matches DirPlanView::Add { copy_from }
                        ==> copies_dir(commands[i], x.to_path, copy_from));
                lemma_planned(sorted, m, p.plans, rev, enc, x.to_path);
                assert(p.plans.dom().contains(x.to_path));
                assert(copies_dir(commands[i], x.to_path, from));
            }
        },
    }
}

proof fn lemma_sent_of(
    commands: Seq<EditView>,
    t: TaskView,
    plans: Map<Seq<char>, DirPlanView>,
    rev: u64,
) -> (r: (int, int, Seq<char>))
    requires
        task_carried_out(commands, t, plans, rev),
    ensures
        0 <= r.1 < r.0 <= commands.len(),
        enters_as(commands[r.1], end_of(t.dirs()), r.2),
        task_sent(commands, r.0, t, r.2, rev),
{
    choose|m: int, i: int, token: Seq<char>|
        0 <= i < m <= commands.len() && #[trigger] enters_as(
            commands[i],
            end_of(t.dirs()),
            token,
        ) && #[trigger] task_sent(commands, m, t, token, rev)
}

proof fn lemma_file_prop(
    commands: Seq<EditView>,
    m: int,
    t: TaskView,
    here: Seq<char>,
    rev: u64,
    path: Seq<char>,
    prop: PropView,
)
    requires
        task_sent(commands, m, t, here, rev),
        t matches TaskView::File { path: q, props, .. } && q == path && props.contains(prop),
    ensures
        exists|i: int, j: int, token: Seq<char>| #[trigger]
            file_prop_at(commands, i, j, token, path, prop.name, prop.value),
{
    if let TaskView::File { copy_from, props, .. } = t {
        let (i, token) = choose|i: int, token: Seq<char>|
            0 <= i < commands.len() && #[trigger] opens_as(commands[i], path, token) && (
            copy_from is Some ==> copies_file(commands[i], path, copy_from)) && forall|k: int|
                0 <= k < props.len() ==> exists|j: int|
                    i < j < commands.len() && #[trigger] commands[j] == (
                    EditView::ChangeFileProp {
                        file_token: token,
                        name: (#[trigger] props[k]).name,
                        value: props[k].value,
                    });
        let k = choose|k: int| 0 <= k < props.len() && props[k] == prop;
        assert(props[k] == prop);
        let j = choose|j: int|
            i < j < commands.len() && #[trigger] commands[j] == (EditView::ChangeFileProp {
                file_token: token,
                name: props[k].name,
                value: props[k].value,
            });
        assert(file_prop_at(commands, i, j, token, path, prop.name, prop.value));
    }
}

proof fn lemma_copied_file(
    commands: Seq<EditView>,
    m: int,
    t: TaskView,
    here: Seq<char>,
    rev: u64,
    path: Seq<char>,
    from: Option<(Seq<char>, u64)>,
)
    requires
        task_sent(commands, m, t, here, rev),
        t matches TaskView::File { path: q, copy_from, .. } && q == path && copy_from == from,
        from is Some,
    ensures
        exists|i: int| 0 <= i < commands.len() && copies_file(#[trigger] commands[i], path, from),
{
    if let TaskView::File { copy_from, props, .. } = t {
        let (i, token) = choose|i: int, token: Seq<char>|
            0 <= i < commands.len() && #[trigger] opens_as(commands[i], path, token) && (
            copy_from is Some ==> copies_file(commands[i], path, copy_from)) && forall|k: int|
                0 <= k < props.len() ==> exists|j: int|
                    i < j < commands.len() && #[trigger] commands[j] == (
                    EditView::ChangeFileProp {
                        file_token: token,
                        name: (#[trigger] props[k]).name,
                        value: props[k].value,
                    });
        assert(copies_file(commands[i], path, from));
    }
}

/// A directory that is entered for a task has a plan.
proof fn lemma_planned(
    tasks: Seq<TaskView>,
    m: int,
    plans: Map<Seq<char>, DirPlanView>,
    rev: u64,
    enc: Encoding,
    d: Seq<char>,
)
    requires
        0 <= m < tasks.len(),
        whole_drive(tasks, plans, rev, enc) is Ok,
        tasks[m].dirs().contains(d),
    ensures
        plans.dom().contains(d),
{
    lemma_drive_grows(tasks, m + 1, plans, rev, enc);
    let u = tasks_done(tasks, m + 1, plans, rev, enc)->Ok_0;
    let dirs = tasks[m].dirs();
    lemma_tasks_on_plan(tasks, m + 1, plans, rev, enc);
    crate::drive_laws::lemma_tasks(tasks, m + 1, plans, rev, enc);
    assert(stands_at(u, dirs));
    lemma_task_chain(tasks[m]);
    let k = choose|k: int| 0 <= k < dirs.len() && dirs[k] == d;
    lemma_chain_dir(dirs, k);
    assert(u.dirs[k + 1].0 == d);
    let token = u.dirs[k + 1].1;
    assert(entered_by(u.out, d, token));
    let i = choose|i: int| 0 <= i < u.out.len() && enters_as(#[trigger] u.out[i], d, token);
    assert(enters(u.out[i]) == Some(d));
}

/// Everything that is asked for is done or refused: where the commands of a commit can be
/// built, they carry out every change. That a directory is copied is said of destinations
/// that go by their own names.
pub proof fn every_change_is_carried_out(
    b: BuilderView,
    svndiff1: bool,
    svndiff2: bool,
    latest: u64,
    kinds: spec_fn(Seq<char>, u64) -> NodeKind,
    k: int,
)
    requires
        0 <= k < b.changes.len(),
    ensures
        built(b, svndiff1, svndiff2, latest, kinds) matches Ok(commands) ==> version_for(
            b.svndiff,
            svndiff1,
            svndiff2,
        ) matches Ok(version) && carried_out(
            b.changes[k],
            commands,
            rev_for(b, latest),
            Encoding { version, level: b.zlib_level, window_size: b.window_size },
            kinds,
        ),
{
    if let Ok(commands) = built(b, svndiff1, svndiff2, latest, kinds) {
        let f = lemma_found(b, svndiff1, svndiff2, latest, kinds);
        let rev = rev_for(b, latest);
        let c = b.changes[k];
        let n = b.changes.len() as int;
        lemma_all_recorded(b.changes, n, k);
        lemma_sorted_finite(b.changes, n);
        let x = match c {
            ChangeView::Copy { from_path, from_rev, to_path } => CopyOpView {
                from_path: rel_path(from_path)->Ok_0,
                from_rev,
                to_path: rel_path(to_path)->Ok_0,
            },
            _ => f.changes.copies[0],
        };
        lemma_resolved(f.changes, rev, kinds, x, c);
        lemma_copies_planned(fresh_plan(f.resolved), 0, rev, kinds);
        lemma_files_keep(f.dirs, 0, rev, kinds);
        let enc = Encoding {
            version: f.enc.version,
            level: b.zlib_level,
            window_size: b.window_size,
        };
        assert(f.enc == enc);
        lemma_change(c, f.resolved, x, f.files, rev, enc, kinds, commands);
    }
}

} // verus!
