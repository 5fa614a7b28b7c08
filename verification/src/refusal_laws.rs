//! What cannot be committed together is refused, and so is what does not fit what stands in
//! the repository.

use vstd::prelude::*;

use crate::asked_laws::{file_stems, lemma_stems};
use crate::change_laws::{
    finite, lemma_all_recorded, lemma_files_keep, lemma_resolved, lemma_sorted_finite, settled,
};
use crate::commit::{
    copy_rev, sorted_changes, BuilderView, ChangeView, ChangesView, CopyOpView, DirActionView,
    FileActionView,
};
use crate::commit_drive::{DirPlanView, FileTextView, TaskView};
use crate::commit_driver::{
    built, copies_resolved, deletes_answered, dirs_answered, files_answered, fresh_plan, rev_for,
};
use crate::commit_laws::lemma_found;
use crate::commit_plan::{lies_below, PlanView};
use crate::commit_stream::StreamPlanView;
use crate::error::ErrorView;
use crate::keymap::{in_order, lemma_finite_in_order};
use crate::path::{rel_dir_path, rel_path};
use crate::task_order::{lemma_place, place_for, OrderRule};
use crate::types::NodeKind;

verus! {

/// The path that a change changes.
pub open spec fn changed_at(c: ChangeView) -> Option<Seq<char>> {
    match c {
        ChangeView::PutFile { path, .. } => ok_path(rel_path(path)),
        ChangeView::FileProp { path, .. } => ok_path(rel_path(path)),
        ChangeView::MkdirP { path } => ok_path(rel_dir_path(path)),
        ChangeView::DirProp { path, .. } => ok_path(rel_dir_path(path)),
        ChangeView::Copy { to_path, .. } => ok_path(rel_path(to_path)),
        ChangeView::Delete { .. } => None,
    }
}


/// A path, if there is one.
pub open spec fn ok_path(r: Result<Seq<char>, ErrorView>) -> Option<Seq<char>> {
    match r {
        Ok(p) => Some(p),
        Err(_) => None,
    }
}

/// The path is the other one, or stands below it.
pub open spec fn at_or_below(q: Seq<char>, p: Seq<char>) -> bool {
    q == p || (q.len() > p.len() && q.take(p.len() as int) == p && q[p.len() as int] == '/')
}

/// Copies that could be resolved have sources that are there.
proof fn lemma_sources(
    v: ChangesView,
    base_rev: u64,
    kinds: spec_fn(Seq<char>, u64) -> NodeKind,
    x: CopyOpView,
)
    requires
        copies_resolved(v, base_rev, kinds) is Ok,
        v.copies.contains(x),
    ensures
        kinds(x.from_path, copy_rev(x, base_rev)) is File || kinds(
            x.from_path,
            copy_rev(x, base_rev),
        ) is Dir,
    decreases v.copies.len(),
{
    let (path, rev) = v.copy_asks(base_rev)->Ok_0;
    let u = v.copy_answered(base_rev, kinds(path, rev))->Ok_0;
    let i = choose|i: int| 0 <= i < v.copies.len() && v.copies[i] == x;
    if i > 0 {
        assert(u.copies[i - 1] == x);
        lemma_sources(u, base_rev, kinds, x);
    }
}

/// What a commit holds once its copies are resolved.
proof fn lemma_holds(
    b: BuilderView,
    svndiff1: bool,
    svndiff2: bool,
    latest: u64,
    kinds: spec_fn(Seq<char>, u64) -> NodeKind,
    k: int,
) -> (v: ChangesView)
    requires
        0 <= k < b.changes.len(),
        built(b, svndiff1, svndiff2, latest, kinds) is Ok,
    ensures
        finite(v),
        v.deletes_checked(in_order(v.deletes).len() as int) is Ok,
        b.changes[k] !is Delete ==> changed_at(b.changes[k]) is Some,
        changed_at(b.changes[k]) matches Some(q) ==> v.files.dom().contains(q)
            || v.dirs.dom().contains(q),
        b.changes[k] matches ChangeView::Delete { path } ==> (rel_path(path) matches Ok(p)
            && v.deletes.contains(p)),
        sorted_changes(b.changes, b.changes.len() as int) is Ok,
        copies_resolved(
            sorted_changes(b.changes, b.changes.len() as int)->Ok_0,
            rev_for(b, latest),
            kinds,
        ) == Ok::<ChangesView, ErrorView>(v),
{
    let f = lemma_found(b, svndiff1, svndiff2, latest, kinds);
    let rev = rev_for(b, latest);
    let c = b.changes[k];
    let n = b.changes.len() as int;
    lemma_all_recorded(b.changes, n, k);
    lemma_sorted_finite(b.changes, n);
    let x = match c {
        ChangeView::Copy { from_path, from_rev, to_path } => CopyOpView {
            from_path: rel_path(from_path)->Ok_0,
            from_rev,
            to_path: rel_path(to_path)->Ok_0,
        },
        _ => f.changes.copies[0],
    };
    lemma_resolved(f.changes, rev, kinds, x, c);
    f.resolved
}

proof fn lemma_checked(v: ChangesView, n: int, p: Seq<char>)
    requires
        v.deletes_checked(n) is Ok,
        0 <= n <= in_order(v.deletes).len(),
        in_order(v.deletes).take(n).contains(p),
    ensures
        v.delete_checked(p) is Ok,
    decreases n,
{
    let all = in_order(v.deletes);
    let now = all.take(n);
    let i = choose|i: int| 0 <= i < now.len() && now[i] == p;
    if i < n - 1 {
        assert(all.take(n - 1)[i] == p);
        lemma_checked(v, n - 1, p);
    }
}

/// What is deleted is not changed, and nothing below it is: such a commit is refused.
pub proof fn what_is_deleted_is_not_changed(
    b: BuilderView,
    svndiff1: bool,
    svndiff2: bool,
    latest: u64,
    kinds: spec_fn(Seq<char>, u64) -> NodeKind,
    i: int,
    j: int,
    p: Seq<char>,
    q: Seq<char>,
)
    requires
        0 <= i < b.changes.len(),
        0 <= j < b.changes.len(),
        b.changes[i] matches ChangeView::Delete { path } && rel_path(path) == Ok::<
            Seq<char>,
            ErrorView,
        >(p),
        changed_at(b.changes[j]) == Some(q),
        at_or_below(q, p),
    ensures
        built(b, svndiff1, svndiff2, latest, kinds) is Err,
{
    if built(b, svndiff1, svndiff2, latest, kinds) is Ok {
        let v = lemma_holds(b, svndiff1, svndiff2, latest, kinds, i);
        let w = lemma_holds(b, svndiff1, svndiff2, latest, kinds, j);
        assert(v == w);
        let all = in_order(v.deletes);
        lemma_finite_in_order(v.deletes);
        assert(all.take(all.len() as int) =~= all);
        lemma_checked(v, all.len() as int, p);
        if q != p {
            reveal_strlit("/");
            assert(q.take(p.len() as int + 1) =~= p + "/"@);
            assert(lies_below(q, p));
        }
    }
}

/// A file gets its contents once: two texts for one file, or a text and a copied file at one
/// place, are refused.
pub proof fn a_file_gets_its_contents_once(
    b: BuilderView,
    svndiff1: bool,
    svndiff2: bool,
    latest: u64,
    kinds: spec_fn(Seq<char>, u64) -> NodeKind,
    i: int,
    j: int,
    p: Seq<char>,
)
    requires
        0 <= i < b.changes.len(),
        0 <= j < b.changes.len(),
        i != j,
        b.changes[i] is PutFile,
        changed_at(b.changes[i]) == Some(p),
        changed_at(b.changes[j]) == Some(p),
        b.changes[j] is PutFile || (b.changes[j] matches ChangeView::Copy {
            from_path,
            from_rev,
            ..
        } && rel_path(from_path) is Ok && kinds(
            rel_path(from_path)->Ok_0,
            match from_rev {
                Some(r) => r,
                None => rev_for(b, latest),
            },
        ) is File),
    ensures
        built(b, svndiff1, svndiff2, latest, kinds) is Err,
{
    if built(b, svndiff1, svndiff2, latest, kinds) is Ok {
        let f = lemma_found(b, svndiff1, svndiff2, latest, kinds);
        let rev = rev_for(b, latest);
        let n = b.changes.len() as int;
        if b.changes[j] is PutFile {
            if i < j {
                lemma_one_text(b.changes, n, i, j);
            } else {
                lemma_one_text(b.changes, n, j, i);
            }
        } else if let ChangeView::Copy { from_path, from_rev, to_path } = b.changes[j] {
            let x = CopyOpView { from_path: rel_path(from_path)->Ok_0, from_rev, to_path: p };
            lemma_all_recorded(b.changes, n, i);
            lemma_all_recorded(b.changes, n, j);
            lemma_sorted_finite(b.changes, n);
            lemma_resolved(f.changes, rev, kinds, x, b.changes[i]);
            assert(settled(x, f.resolved, rev, kinds));
        }
    }
}

proof fn lemma_one_text(changes: Seq<ChangeView>, n: int, i: int, j: int)
    requires
        0 <= i < j < n <= changes.len(),
        changes[i] is PutFile,
        changes[j] is PutFile,
        changed_at(changes[i]) is Some,
        changed_at(changes[i]) == changed_at(changes[j]),
    ensures
        sorted_changes(changes, n) is Err,
    decreases n,
{
    if n - 1 > j {
        lemma_one_text(changes, n - 1, i, j);
    } else {
        lemma_all_recorded(changes, j, i);
    }
}

proof fn lemma_files_there(
    p: PlanView,
    i: int,
    k: int,
    base_rev: u64,
    kinds: spec_fn(Seq<char>, u64) -> NodeKind,
)
    requires
        0 <= i <= k < in_order(p.changes.files.dom()).len(),
        files_answered(p, i, base_rev, kinds) is Ok,
    ensures
        ({
            let f = in_order(p.changes.files.dom())[k];
            let kind = kinds(f, base_rev);
            let action = p.changes.file_op(f).action;
            &&& kind is File || kind is Missing
            &&& action is None ==> kind is File
            &&& action matches Some(FileActionView::Copy { .. }) ==> kind is Missing
        }),
    decreases in_order(p.changes.files.dom()).len() - i,
{
    let files = in_order(p.changes.files.dom());
    if i < k {
        let q = p.file_answered(files[i], kinds(files[i], base_rev))->Ok_0;
        lemma_files_there(q, i + 1, k, base_rev, kinds);
    }
}

proof fn lemma_deletes_there(
    p: PlanView,
    i: int,
    k: int,
    base_rev: u64,
    kinds: spec_fn(Seq<char>, u64) -> NodeKind,
)
    requires
        0 <= i <= k < in_order(p.changes.deletes).len(),
        deletes_answered(p, i, base_rev, kinds) is Ok,
    ensures
        ({
            let kind = kinds(in_order(p.changes.deletes)[k], base_rev);
            kind is File || kind is Dir
        }),
    decreases in_order(p.changes.deletes).len() - i,
{
    if i < k {
        lemma_deletes_there(p, i + 1, k, base_rev, kinds);
    }
}

/// Every directory that is entered is opened where it is there, and added where it is
/// missing.
pub(crate) open spec fn by_kind(
    p: PlanView,
    base_rev: u64,
    kinds: spec_fn(Seq<char>, u64) -> NodeKind,
) -> bool {
    forall|d: Seq<char>| #[trigger]
        p.plans.dom().contains(d) ==> match kinds(d, base_rev) {
            NodeKind::Dir => p.plans[d] is Open,
            NodeKind::Missing => match p.plans[d] {
                DirPlanView::Open => false,
                DirPlanView::Add { copy_from: Some((f, r)) } => p.changes.dir_op(d).action == Some(
                    DirActionView::Copy { from_path: f, from_rev: r },
                ),
                DirPlanView::Add { copy_from: None } => !(p.changes.dir_op(d).action matches Some(
                    DirActionView::Copy { .. },
                )),
            },
            _ => false,
        }
}

pub(crate) proof fn lemma_by_kind(
    p: PlanView,
    i: int,
    base_rev: u64,
    kinds: spec_fn(Seq<char>, u64) -> NodeKind,
)
    requires
        by_kind(p, base_rev, kinds),
    ensures
        dirs_answered(p, i, base_rev, kinds) matches Ok(q) ==> by_kind(q, base_rev, kinds)
            && q.changes == p.changes && q.exists == p.exists,
    decreases in_order(p.changes.needed_dirs()).len() - i,
{
    let needed = in_order(p.changes.needed_dirs());
    if 0 <= i < needed.len() {
        if let Ok(dir) = rel_dir_path(needed[i]) {
            if let Ok(q) = p.dir_answered(needed[i], kinds(dir, base_rev)) {
                assert(by_kind(q, base_rev, kinds)) by {
                    assert forall|d: Seq<char>| #[trigger]
                        q.plans.dom().contains(d) implies match kinds(d, base_rev) {
                        NodeKind::Dir => q.plans[d] is Open,
                        NodeKind::Missing => match q.plans[d] {
                            DirPlanView::Open => false,
                            DirPlanView::Add { copy_from: Some((f, r)) } => q.changes.dir_op(
                                d,
                            ).action == Some(DirActionView::Copy { from_path: f, from_rev: r }),
                            DirPlanView::Add { copy_from: None } => !(q.changes.dir_op(
                                d,
                            ).action matches Some(DirActionView::Copy { .. })),
                        },
                        _ => false,
                    } by {
                        if d != dir {
                            assert(p.plans.dom().contains(d));
                        }
                    }
                }
                lemma_by_kind(q, i + 1, base_rev, kinds);
            }
        }
    }
}

/// A commit fits what stands in the repository, or it is refused: what is deleted is there;
/// where a file is written, there is a file or nothing; where one is copied to, there is
/// nothing, and its source is there; and a file that only gets properties is there.
pub proof fn a_commit_fits_what_is_there(
    b: BuilderView,
    svndiff1: bool,
    svndiff2: bool,
    latest: u64,
    kinds: spec_fn(Seq<char>, u64) -> NodeKind,
    k: int,
)
    requires
        0 <= k < b.changes.len(),
        built(b, svndiff1, svndiff2, latest, kinds) is Ok,
    ensures
        ({
            let rev = rev_for(b, latest);
            match b.changes[k] {
                ChangeView::Delete { path } => rel_path(path) matches Ok(p) && (kinds(p, rev)
                    is File || kinds(p, rev) is Dir),
                ChangeView::PutFile { path, .. } => rel_path(path) matches Ok(p) && (kinds(p, rev)
                    is File || kinds(p, rev) is Missing),
                ChangeView::FileProp { path, .. } => rel_path(path) matches Ok(p) && (kinds(p, rev)
                    is File || kinds(p, rev) is Missing) && (kinds(p, rev) is Missing ==> exists|
                    j: int,
                |
                    0 <= j < b.changes.len() && brings_file(#[trigger] b.changes[j], p)),
                ChangeView::Copy { from_path, from_rev, to_path } => rel_path(from_path) matches Ok(
                    f,
                ) && rel_path(to_path) matches Ok(t) && ({
                    let r = match from_rev {
                        Some(r) => r,
                        None => rev,
                    };
                    &&& kinds(f, r) is File || kinds(f, r) is Dir
                    &&& kinds(f, r) is File ==> kinds(t, rev) is Missing
                }),
                _ => changed_at(b.changes[k]) is Some,
            }
        }),
{
    let rev = rev_for(b, latest);
    let c = b.changes[k];
    let f = lemma_found(b, svndiff1, svndiff2, latest, kinds);
    let v = lemma_holds(b, svndiff1, svndiff2, latest, kinds, k);
    let n = b.changes.len() as int;
    assert(v == f.resolved);
    assert(by_kind(fresh_plan(v), rev, kinds));
    lemma_by_kind(fresh_plan(v), 0, rev, kinds);
    assert(f.dirs.changes == v);
    lemma_files_keep(f.dirs, 0, rev, kinds);
    assert(f.files.changes == v);
    lemma_all_recorded(b.changes, n, k);
    lemma_sorted_finite(b.changes, n);
    lemma_finite_in_order(v.files.dom());
    lemma_finite_in_order(v.deletes);
    let files = in_order(v.files.dom());
    let deletes = in_order(v.deletes);
    match c {
        ChangeView::Delete { path } => {
            let p = rel_path(path)->Ok_0;
            assert(deletes.contains(p));
            let m = choose|m: int| 0 <= m < deletes.len() && deletes[m] == p;
            lemma_deletes_there(f.files, 0, m, rev, kinds);
        },
        ChangeView::PutFile { path, contents } => {
            let p = rel_path(path)->Ok_0;
            lemma_resolved(f.changes, rev, kinds, f.changes.copies[0], c);
            assert(files.contains(p));
            let m = choose|m: int| 0 <= m < files.len() && files[m] == p;
            lemma_files_there(f.dirs, 0, m, rev, kinds);
        },
        ChangeView::FileProp { path, name, value } => {
            let p = rel_path(path)->Ok_0;
            lemma_resolved(f.changes, rev, kinds, f.changes.copies[0], c);
            assert(files.contains(p));
            let m = choose|m: int| 0 <= m < files.len() && files[m] == p;
            lemma_files_there(f.dirs, 0, m, rev, kinds);
            if kinds(p, rev) is Missing {
                lemma_stems(b.changes, n, rev, kinds);
                assert(v.files[p].action is Some);
                assert(file_stems(b.changes, rev, p, v.files[p]));
            }
        },
        ChangeView::Copy { from_path, from_rev, to_path } => {
            let x = CopyOpView {
                from_path: rel_path(from_path)->Ok_0,
                from_rev,
                to_path: rel_path(to_path)->Ok_0,
            };
            lemma_sources(f.changes, rev, kinds, x);
            lemma_resolved(f.changes, rev, kinds, x, c);
            if kinds(x.from_path, copy_rev(x, rev)) is File {
                assert(files.contains(x.to_path));
                let m = choose|m: int| 0 <= m < files.len() && files[m] == x.to_path;
                lemma_files_there(f.dirs, 0, m, rev, kinds);
            }
        },
        _ => {},
    }
}

/// A change writes or copies a file to this path.
pub open spec fn brings_file(c: ChangeView, p: Seq<char>) -> bool {
    (c is PutFile || c is Copy) && changed_at(c) == Some(p)
}

/// A file whose text is sent later is opened where it is there and added where it is missing,
/// and refused where something else is; no other file is touched by it.
pub proof fn a_streamed_file_is_put_by_what_is_there(
    s: StreamPlanView,
    path: Seq<char>,
    p: Seq<char>,
    kind: NodeKind,
)
    requires
        rel_path(path) == Ok::<Seq<char>, ErrorView>(p),
    ensures
        kind is Dir || kind is Unknown ==> s.with_file(path, kind) is Err,
        kind is File || kind is Missing ==> (s.with_file(path, kind) matches Ok(t) && t.plans
            == s.plans && exists|at: int|
            0 <= at <= s.tasks.len() && t.tasks == #[trigger] s.tasks.insert(
                at,
                TaskView::File {
                    path: p,
                    exists: kind is File,
                    copy_from: None,
                    text: FileTextView::Later,
                    props: Seq::empty(),
                },
            ) && t.order == s.order.insert(at, s.order.len() as usize)),
{
    let t = TaskView::File {
        path: p,
        exists: kind is File,
        copy_from: None,
        text: FileTextView::Later,
        props: Seq::empty(),
    };
    let n = s.tasks.len() as int;
    lemma_place(OrderRule::Path, s.tasks, t, n);
    if kind is File || kind is Missing {
        let at = place_for(OrderRule::Path, s.tasks, t, n);
        let u = s.with_file(path, kind)->Ok_0;
        assert(u.tasks == s.tasks.insert(at, t));
    }
}

/// On the way to a file whose text is sent later, a directory is opened where it is there
/// and added where it is missing, and nothing else is accepted.
pub proof fn the_way_to_a_streamed_file_is_what_is_there(
    s: StreamPlanView,
    dir: Seq<char>,
    d: Seq<char>,
    kind: NodeKind,
)
    requires
        rel_dir_path(dir) == Ok::<Seq<char>, ErrorView>(d),
    ensures
        match s.dir_answered(dir, kind) {
            Ok(t) => {
                &&& kind is Dir || kind is Missing
                &&& t.tasks == s.tasks
                &&& t.order == s.order
                &&& t.plans.dom() == s.plans.dom().insert(d)
                &&& t.plans[d] is Open <==> kind is Dir
                &&& t.plans[d] matches DirPlanView::Add { copy_from } ==> copy_from is None
                &&& forall|x: Seq<char>| x != d ==> #[trigger] t.plans[x] == s.plans[x]
            },
            Err(e) => e is Protocol && (kind is File || kind is Unknown),
        },
{
}

/// The place of a copy is taken: something is written there already.
spec fn is_taken(
    v: ChangesView,
    x: CopyOpView,
    base_rev: u64,
    kinds: spec_fn(Seq<char>, u64) -> NodeKind,
) -> bool {
    let kind = kinds(x.from_path, copy_rev(x, base_rev));
    ||| kind is File && v.file_op(x.to_path).action is Some
    ||| kind is Dir && v.dir_op(x.to_path).action is Some
}

proof fn lemma_taken(
    v: ChangesView,
    base_rev: u64,
    kinds: spec_fn(Seq<char>, u64) -> NodeKind,
    x: CopyOpView,
)
    requires
        v.copies.contains(x),
        is_taken(v, x, base_rev, kinds),
    ensures
        copies_resolved(v, base_rev, kinds) is Err,
    decreases v.copies.len(),
{
    if copies_resolved(v, base_rev, kinds) is Ok {
        let (path, rev) = v.copy_asks(base_rev)->Ok_0;
        let u = v.copy_answered(base_rev, kinds(path, rev))->Ok_0;
        let i = choose|i: int| 0 <= i < v.copies.len() && v.copies[i] == x;
        if i > 0 {
            assert(u.copies[i - 1] == x);
            assert(u.copies.contains(x));
            assert(is_taken(u, x, base_rev, kinds));
            lemma_taken(u, base_rev, kinds, x);
        }
    }
}

proof fn lemma_two_copies(
    v: ChangesView,
    base_rev: u64,
    kinds: spec_fn(Seq<char>, u64) -> NodeKind,
    i: int,
    j: int,
)
    requires
        0 <= i < j < v.copies.len(),
        v.copies[i].to_path == v.copies[j].to_path,
        kinds(v.copies[i].from_path, copy_rev(v.copies[i], base_rev)) == kinds(
            v.copies[j].from_path,
            copy_rev(v.copies[j], base_rev),
        ),
    ensures
        copies_resolved(v, base_rev, kinds) is Err,
    decreases v.copies.len(),
{
    if copies_resolved(v, base_rev, kinds) is Ok {
        let (path, rev) = v.copy_asks(base_rev)->Ok_0;
        let u = v.copy_answered(base_rev, kinds(path, rev))->Ok_0;
        assert(u.copies[j - 1] == v.copies[j]);
        if i == 0 {
            assert(u.copies.contains(v.copies[j]));
            assert(is_taken(u, v.copies[j], base_rev, kinds));
            lemma_taken(u, base_rev, kinds, v.copies[j]);
        } else {
            assert(u.copies[i - 1] == v.copies[i]);
            lemma_two_copies(u, base_rev, kinds, i - 1, j - 1);
        }
    }
}

/// What a copy is once its paths are read.
pub open spec fn copy_of(c: ChangeView) -> CopyOpView {
    match c {
        ChangeView::Copy { from_path, from_rev, to_path } => CopyOpView {
            from_path: rel_path(from_path)->Ok_0,
            from_rev,
            to_path: rel_path(to_path)->Ok_0,
        },
        _ => CopyOpView { from_path: Seq::empty(), from_rev: None, to_path: Seq::empty() },
    }
}

/// Two copies stand in the order in which they were asked for.
proof fn lemma_copy_places(changes: Seq<ChangeView>, n: int, i: int, j: int) -> (r: (int, int))
    requires
        0 <= i < j < n <= changes.len(),
        changes[i] is Copy,
        changes[j] is Copy,
        sorted_changes(changes, n) is Ok,
    ensures
        ({
            let v = sorted_changes(changes, n)->Ok_0;
            &&& 0 <= r.0 < r.1 < v.copies.len()
            &&& v.copies[r.0] == copy_of(changes[i])
            &&& v.copies[r.1] == copy_of(changes[j])
        }),
    decreases n,
{
    let v = sorted_changes(changes, n)->Ok_0;
    let w = sorted_changes(changes, n - 1)->Ok_0;
    if j < n - 1 {
        let (a, b) = lemma_copy_places(changes, n - 1, i, j);
        assert(v.copies[a] == w.copies[a]);
        assert(v.copies[b] == w.copies[b]);
        (a, b)
    } else {
        lemma_all_recorded(changes, n - 1, i);
        let a = choose|a: int| 0 <= a < w.copies.len() && w.copies[a] == copy_of(changes[i]);
        assert(v.copies[a] == w.copies[a]);
        (a, w.copies.len() as int)
    }
}

/// A directory that is to be made stays one that is to be made while changes are sorted.
proof fn lemma_made(changes: Seq<ChangeView>, n: int, k: int)
    requires
        0 <= k < n <= changes.len(),
        changes[k] is MkdirP,
        sorted_changes(changes, n) is Ok,
    ensures
        ({
            let v = sorted_changes(changes, n)->Ok_0;
            changed_at(changes[k]) matches Some(p) && v.dir_op(p).action is Some
        }),
    decreases n,
{
    if k < n - 1 {
        lemma_made(changes, n - 1, k);
    }
}

/// A place is filled once: two copies of files or of directories to one place are refused,
/// and so is a copy of a directory to one that is to be made.
pub proof fn a_place_is_filled_once(
    b: BuilderView,
    svndiff1: bool,
    svndiff2: bool,
    latest: u64,
    kinds: spec_fn(Seq<char>, u64) -> NodeKind,
    i: int,
    j: int,
    p: Seq<char>,
)
    requires
        0 <= i < b.changes.len(),
        0 <= j < b.changes.len(),
        i != j,
        changed_at(b.changes[i]) == Some(p),
        changed_at(b.changes[j]) == Some(p),
        b.changes[j] is Copy,
        ({
            let rev = rev_for(b, latest);
            let x = copy_of(b.changes[j]);
            let kind = kinds(x.from_path, copy_rev(x, rev));
            ||| b.changes[i] is MkdirP && kind is Dir
            ||| b.changes[i] is Copy && kinds(
                copy_of(b.changes[i]).from_path,
                copy_rev(copy_of(b.changes[i]), rev),
            ) == kind
        }),
    ensures
        built(b, svndiff1, svndiff2, latest, kinds) is Err,
{
    if built(b, svndiff1, svndiff2, latest, kinds) is Ok {
        let f = lemma_found(b, svndiff1, svndiff2, latest, kinds);
        let rev = rev_for(b, latest);
        let n = b.changes.len() as int;
        lemma_all_recorded(b.changes, n, j);
        if b.changes[i] is MkdirP {
            lemma_made(b.changes, n, i);
            lemma_taken(f.changes, rev, kinds, copy_of(b.changes[j]));
        } else if i < j {
            lemma_all_recorded(b.changes, n, i);
            let (x, y) = lemma_copy_places(b.changes, n, i, j);
            lemma_two_copies(f.changes, rev, kinds, x, y);
        } else {
            lemma_all_recorded(b.changes, n, i);
            let (x, y) = lemma_copy_places(b.changes, n, j, i);
            lemma_two_copies(f.changes, rev, kinds, x, y);
        }
    }
}

} // verus!
