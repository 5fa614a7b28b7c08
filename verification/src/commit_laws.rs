//! What holds of the commands that are built for a commit.

use vstd::prelude::*;

use crate::commit::{
    copy_rev, no_changes, sorted_changes, version_for, BuilderView, ChangeView, ChangesView,
    CopyOpView, DirOpView, FileActionView, FileOpView,
};
use crate::commit_drive::{
    begun, chunks_of, chunks_sent, closed_to, common, dir_opened, dir_props_sent, dirs_opened,
    file_opening, file_props_sent, gone_to, parent_of, prefixes, task_done, tasks_done,
    text_commands, text_sent, whole_drive, DirPlanView, DriveView, Encoding, FileTextView,
    PropView, TaskView, CHUNK_SIZE,
};
use crate::commit_driver::{
    built, copies_resolved, deletes_answered, dirs_answered, files_answered, fresh_plan,
    from_copies, from_deletes, from_dirs, from_files, rev_for,
};
use crate::commit_plan::{lemma_dirs_open, lemma_tasks, PlanView};
use crate::editor::EditView;
use crate::error::ErrorView;
use crate::fulltext::fulltext_delta;
use crate::keymap::{in_order, lemma_finite_in_order, lemma_in_order};
use crate::path::{rel_dir_path, rel_path};
use crate::svndiff::SvndiffVersion;
use crate::task_order::{drive_order, in_turn, OrderRule};
use crate::types::{kind_word, NodeKind};

verus! {

/// The commands of `t` begin with those of `s`.
pub(crate) open spec fn grows(s: DriveView, t: DriveView) -> bool {
    &&& s.out.len() <= t.out.len()
    &&& forall|k: int| 0 <= k < s.out.len() ==> #[trigger] t.out[k] == s.out[k]
}

proof fn lemma_closed_grows(s: DriveView, n: int)
    ensures
        grows(s, closed_to(s, n)),
    decreases s.dirs.len(),
{
    if s.dirs.len() > n && s.dirs.len() > 0 {
        let t = DriveView {
            dirs: s.dirs.drop_last(),
            ..s.send(EditView::CloseDir { dir_token: s.here() })
        };
        lemma_closed_grows(t, n);
        assert(grows(s, t));
    }
}

pub(crate) proof fn lemma_opened_grows(
    s: DriveView,
    targets: Seq<Seq<char>>,
    k: int,
    plans: Map<Seq<char>, DirPlanView>,
    rev: u64,
)
    ensures
        dirs_opened(s, targets, k, plans, rev) matches Ok(t) ==> grows(s, t),
    decreases targets.len() - k,
{
    if 0 <= k < targets.len() && plans.dom().contains(targets[k]) {
        let t = dir_opened(s, targets[k], plans[targets[k]], rev);
        lemma_opened_grows(t, targets, k + 1, plans, rev);
        assert(grows(s, t));
    }
}

pub(crate) proof fn lemma_gone_grows(
    s: DriveView,
    targets: Seq<Seq<char>>,
    plans: Map<Seq<char>, DirPlanView>,
    rev: u64,
)
    ensures
        gone_to(s, targets, plans, rev) matches Ok(t) ==> grows(s, t),
{
    let k = common(s.dirs, targets, 0);
    let c = closed_to(s, k + 1);
    lemma_closed_grows(s, k + 1);
    lemma_opened_grows(c, targets, k, plans, rev);
}

pub(crate) proof fn lemma_dir_props_grow(s: DriveView, props: Seq<PropView>, n: int)
    ensures
        grows(s, dir_props_sent(s, props, n)),
    decreases n,
{
    if 0 < n <= props.len() {
        lemma_dir_props_grow(s, props, n - 1);
    }
}

proof fn lemma_file_props_grow(s: DriveView, token: Seq<char>, props: Seq<PropView>, n: int)
    ensures
        grows(s, file_props_sent(s, token, props, n)),
    decreases n,
{
    if 0 < n <= props.len() {
        lemma_file_props_grow(s, token, props, n - 1);
    }
}

proof fn lemma_chunks_grow(s: DriveView, token: Seq<char>, delta: Seq<u8>)
    ensures
        grows(s, chunks_sent(s, token, delta)),
    decreases delta.len(),
{
    if delta.len() > 0 {
        let n: int = if delta.len() < CHUNK_SIZE {
            delta.len() as int
        } else {
            CHUNK_SIZE as int
        };
        let t = s.send(EditView::TextDeltaChunk { file_token: token, chunk: delta.take(n) });
        lemma_chunks_grow(t, token, delta.skip(n));
        assert(grows(s, t));
    }
}

proof fn lemma_text_grows(s: DriveView, token: Seq<char>, text: FileTextView, enc: Encoding)
    ensures
        text_sent(s, token, text, enc) matches Ok(t) ==> grows(s, t),
{
    let t = s.send(EditView::ApplyTextDelta { file_token: token, base_checksum: None });
    if let FileTextView::Bytes(b) = text {
        if let Ok(delta) = fulltext_delta(enc.version, b, enc.level, enc.window_size as nat) {
            lemma_chunks_grow(t, token, delta);
            assert(grows(s, t));
        }
    }
}

proof fn lemma_task_grows(s: DriveView, task: TaskView, rev: u64, enc: Encoding)
    ensures
        task_done(s, task, rev, enc) matches Ok(t) ==> grows(s, t),
{
    match task {
        TaskView::Dir { props, .. } => {
            lemma_dir_props_grow(s, props, props.len() as int);
        },
        TaskView::Delete { .. } => {},
        TaskView::File { path, exists, copy_from, text, props } => {
            let token = s.file_token();
            let t = DriveView {
                next_file: s.next_file + 1,
                ..s.send(file_opening(s, path, exists, copy_from, rev))
            };
            assert(grows(s, t));
            lemma_text_grows(t, token, text, enc);
            if let Ok(u) = text_sent(t, token, text, enc) {
                lemma_file_props_grow(u, token, props, props.len() as int);
            }
        },
    }
}

/// The commands for the first tasks stay when more tasks are done.
pub(crate) proof fn lemma_tasks_grow(
    tasks: Seq<TaskView>,
    m: int,
    n: int,
    plans: Map<Seq<char>, DirPlanView>,
    rev: u64,
    enc: Encoding,
)
    requires
        0 <= m <= n <= tasks.len(),
    ensures
        tasks_done(tasks, n, plans, rev, enc) matches Ok(t) ==> tasks_done(
            tasks,
            m,
            plans,
            rev,
            enc,
        ) matches Ok(s) && grows(s, t),
    decreases n,
{
    if m < n {
        lemma_tasks_grow(tasks, m, n - 1, plans, rev, enc);
        if let Ok(s) = tasks_done(tasks, n - 1, plans, rev, enc) {
            lemma_gone_grows(s, tasks[n - 1].dirs(), plans, rev);
            if let Ok(t) = gone_to(s, tasks[n - 1].dirs(), plans, rev) {
                lemma_task_grows(t, tasks[n - 1], rev, enc);
            }
        }
    }
}

/// The commands for the first tasks stand in the whole drive.
pub(crate) proof fn lemma_drive_grows(
    tasks: Seq<TaskView>,
    m: int,
    plans: Map<Seq<char>, DirPlanView>,
    rev: u64,
    enc: Encoding,
)
    requires
        0 <= m <= tasks.len(),
    ensures
        whole_drive(tasks, plans, rev, enc) matches Ok(commands) ==> tasks_done(
            tasks,
            m,
            plans,
            rev,
            enc,
        ) matches Ok(s) && s.out.len() <= commands.len() && forall|k: int|
            0 <= k < s.out.len() ==> #[trigger] commands[k] == s.out[k],
{
    lemma_tasks_grow(tasks, m, tasks.len() as int, plans, rev, enc);
    if let Ok(t) = tasks_done(tasks, tasks.len() as int, plans, rev, enc) {
        lemma_closed_grows(t, 1);
    }
}

/// What was found out on the way to the commands of a commit.
pub(crate) struct Found {
    pub(crate) enc: Encoding,
    pub(crate) changes: ChangesView,
    pub(crate) resolved: ChangesView,
    pub(crate) dirs: PlanView,
    pub(crate) files: PlanView,
}

/// The commands of a commit come from what was found out.
pub(crate) open spec fn comes_from(
    f: Found,
    b: BuilderView,
    svndiff1: bool,
    svndiff2: bool,
    rev: u64,
    kinds: spec_fn(Seq<char>, u64) -> NodeKind,
    commands: Seq<EditView>,
) -> bool {
    &&& b.checked() is Ok
    &&& version_for(b.svndiff, svndiff1, svndiff2) == Ok::<SvndiffVersion, ErrorView>(
        f.enc.version,
    )
    &&& f.enc.level == b.zlib_level
    &&& f.enc.window_size == b.window_size
    &&& sorted_changes(b.changes, b.changes.len() as int) == Ok::<ChangesView, ErrorView>(
        f.changes,
    )
    &&& copies_resolved(f.changes, rev, kinds) == Ok::<ChangesView, ErrorView>(f.resolved)
    &&& f.resolved.deletes_checked(in_order(f.resolved.deletes).len() as int) is Ok
    &&& dirs_answered(fresh_plan(f.resolved), 0, rev, kinds) == Ok::<PlanView, ErrorView>(f.dirs)
    &&& files_answered(f.dirs, 0, rev, kinds) == Ok::<PlanView, ErrorView>(f.files)
    &&& deletes_answered(f.files, 0, rev, kinds) is Ok
    &&& f.files.commands(rev, f.enc) == Ok::<Seq<EditView>, ErrorView>(commands)
}

pub(crate) proof fn lemma_found(
    b: BuilderView,
    svndiff1: bool,
    svndiff2: bool,
    latest: u64,
    kinds: spec_fn(Seq<char>, u64) -> NodeKind,
) -> (f: Found)
    requires
        built(b, svndiff1, svndiff2, latest, kinds) is Ok,
    ensures
        comes_from(
            f,
            b,
            svndiff1,
            svndiff2,
            rev_for(b, latest),
            kinds,
            built(b, svndiff1, svndiff2, latest, kinds)->Ok_0,
        ),
{
    reveal(from_copies);
    reveal(from_dirs);
    reveal(from_files);
    reveal(from_deletes);
    let rev = rev_for(b, latest);
    let version = version_for(b.svndiff, svndiff1, svndiff2)->Ok_0;
    let enc = Encoding { version, level: b.zlib_level, window_size: b.window_size };
    let changes = sorted_changes(b.changes, b.changes.len() as int)->Ok_0;
    let resolved = copies_resolved(changes, rev, kinds)->Ok_0;
    let dirs = dirs_answered(fresh_plan(resolved), 0, rev, kinds)->Ok_0;
    let files = files_answered(dirs, 0, rev, kinds)->Ok_0;
    Found { enc, changes, resolved, dirs, files }
}

/// A revision that was set is the one that counts: setting another one replaces it, the
/// latest revision does not matter, and the drive opens the root at it.
pub proof fn a_set_revision_is_used(
    b: BuilderView,
    other: u64,
    rev: u64,
    svndiff1: bool,
    svndiff2: bool,
    latest: u64,
    later: u64,
    kinds: spec_fn(Seq<char>, u64) -> NodeKind,
)
    ensures
        b.at(other).at(rev) == b.at(rev),
        built(b.at(rev), svndiff1, svndiff2, latest, kinds) == built(
            b.at(rev),
            svndiff1,
            svndiff2,
            later,
            kinds,
        ),
        built(b.at(rev), svndiff1, svndiff2, latest, kinds) matches Ok(commands) ==> commands.len()
            > 0 && commands[0] == (EditView::OpenRoot { rev: Some(rev), token: "r"@ }),
{
    let c = b.at(rev);
    if built(c, svndiff1, svndiff2, latest, kinds) is Ok {
        let f = lemma_found(c, svndiff1, svndiff2, latest, kinds);
        let all = f.files.tasks();
        lemma_drive_grows(drive_order(all), 0, f.files.plans, rev, f.enc);
    }
}

/// Two copies from the same place to the same place, where `base_rev` stands for a
/// revision that was not named.
spec fn alike(a: CopyOpView, b: CopyOpView, base_rev: u64) -> bool {
    &&& a.from_path == b.from_path
    &&& a.to_path == b.to_path
    &&& copy_rev(a, base_rev) == copy_rev(b, base_rev)
}

proof fn lemma_alike(
    v: ChangesView,
    w: ChangesView,
    base_rev: u64,
    kinds: spec_fn(Seq<char>, u64) -> NodeKind,
)
    requires
        v.files == w.files,
        v.dirs == w.dirs,
        v.deletes == w.deletes,
        v.copies.len() == w.copies.len(),
        forall|k: int|
            0 <= k < v.copies.len() ==> alike(#[trigger] v.copies[k], w.copies[k], base_rev),
    ensures
        copies_resolved(v, base_rev, kinds) == copies_resolved(w, base_rev, kinds),
    decreases v.copies.len(),
{
    if v.copies.len() == 0 {
        assert(v =~= w);
    } else {
        assert(alike(v.copies[0], w.copies[0], base_rev));
        if let Ok((path, rev)) = v.copy_asks(base_rev) {
            let kind = kinds(path, rev);
            if let Ok(x) = v.copy_answered(base_rev, kind) {
                let y = w.copy_answered(base_rev, kind)->Ok_0;
                assert forall|k: int| 0 <= k < x.copies.len() implies alike(
                    #[trigger] x.copies[k],
                    y.copies[k],
                    base_rev,
                ) by {
                    assert(alike(v.copies[k + 1], w.copies[k + 1], base_rev));
                }
                lemma_alike(x, y, base_rev, kinds);
            }
        }
    }
}

proof fn lemma_sorted_prefix(a: Seq<ChangeView>, b: Seq<ChangeView>, n: int)
    requires
        0 <= n <= a.len(),
        n <= b.len(),
        a.take(n) == b.take(n),
    ensures
        sorted_changes(a, n) == sorted_changes(b, n),
    decreases n,
{
    if n > 0 {
        assert(a.take(n - 1) =~= a.take(n).take(n - 1));
        assert(b.take(n - 1) =~= b.take(n).take(n - 1));
        lemma_sorted_prefix(a, b, n - 1);
        assert(a.take(n)[n - 1] == a[n - 1] && b.take(n)[n - 1] == b[n - 1]);
    }
}

/// A copy takes its source at the base revision, unless another revision is named: to
/// name the base revision changes nothing.
pub proof fn copies_are_from_the_base_revision(
    b: BuilderView,
    rev: u64,
    from_path: Seq<char>,
    to_path: Seq<char>,
    svndiff1: bool,
    svndiff2: bool,
    latest: u64,
    kinds: spec_fn(Seq<char>, u64) -> NodeKind,
)
    requires
        b.base_rev == Some(rev),
    ensures
        built(
            b.with(ChangeView::Copy { from_path, from_rev: None, to_path }),
            svndiff1,
            svndiff2,
            latest,
            kinds,
        ) == built(
            b.with(ChangeView::Copy { from_path, from_rev: Some(rev), to_path }),
            svndiff1,
            svndiff2,
            latest,
            kinds,
        ),
{
    let x = b.with(ChangeView::Copy { from_path, from_rev: None, to_path });
    let y = b.with(ChangeView::Copy { from_path, from_rev: Some(rev), to_path });
    let n = b.changes.len() as int;
    assert(x.changes.take(n) =~= b.changes);
    assert(y.changes.take(n) =~= b.changes);
    lemma_sorted_prefix(x.changes, y.changes, n);
    let v = sorted_changes(x.changes, n + 1);
    let w = sorted_changes(y.changes, n + 1);
    if v is Ok {
        lemma_alike(v->Ok_0, w->Ok_0, rev, kinds);
        reveal(from_copies);
    }
}

/// Chunks of a delta go behind the commands before.
proof fn lemma_chunks_out(s: DriveView, token: Seq<char>, delta: Seq<u8>)
    ensures
        chunks_sent(s, token, delta).out == s.out + chunks_of(delta).map_values(
            |chunk: Seq<u8>| EditView::TextDeltaChunk { file_token: token, chunk },
        ),
    decreases delta.len(),
{
    let f = |chunk: Seq<u8>| EditView::TextDeltaChunk { file_token: token, chunk };
    if delta.len() > 0 {
        let n: int = if delta.len() < CHUNK_SIZE {
            delta.len() as int
        } else {
            CHUNK_SIZE as int
        };
        let c = EditView::TextDeltaChunk { file_token: token, chunk: delta.take(n) };
        lemma_chunks_out(s.send(c), token, delta.skip(n));
        let rest = chunks_of(delta.skip(n));
        assert(chunks_of(delta).map_values(f) =~= seq![c] + rest.map_values(f));
        assert(s.out.push(c) + rest.map_values(f) =~= s.out + (seq![c] + rest.map_values(f)));
    } else {
        assert(s.out + chunks_of(delta).map_values(f) =~= s.out);
    }
}

/// The commands of a text go behind the commands before.
proof fn lemma_text_out(s: DriveView, token: Seq<char>, b: Seq<u8>, enc: Encoding)
    ensures
        match fulltext_delta(enc.version, b, enc.level, enc.window_size as nat) {
            Ok(delta) => text_sent(s, token, FileTextView::Bytes(b), enc) matches Ok(t) && t.out
                == s.out + text_commands(token, delta),
            Err(e) => text_sent(s, token, FileTextView::Bytes(b), enc) == Err::<
                DriveView,
                ErrorView,
            >(e),
        },
{
    if let Ok(delta) = fulltext_delta(enc.version, b, enc.level, enc.window_size as nat) {
        let begin = EditView::ApplyTextDelta { file_token: token, base_checksum: None };
        let end = EditView::TextDeltaEnd { file_token: token };
        lemma_chunks_out(s.send(begin), token, delta);
        let f = |chunk: Seq<u8>| EditView::TextDeltaChunk { file_token: token, chunk };
        let cs = chunks_of(delta).map_values(f);
        assert((s.out.push(begin) + cs).push(end) =~= s.out + (seq![begin] + cs.push(end)));
    }
}

/// From index `i` on, commands open or add a file and send a delta for it.
pub open spec fn file_put_at(
    commands: Seq<EditView>,
    i: int,
    dir_token: Seq<char>,
    file_token: Seq<char>,
    path: Seq<char>,
    exists: bool,
    rev: u64,
    delta: Seq<u8>,
) -> bool {
    let n = text_commands(file_token, delta).len();
    &&& 0 <= i
    &&& i + 1 + n <= commands.len()
    &&& commands[i] == (if exists {
        EditView::OpenFile { path, dir_token, file_token, rev }
    } else {
        EditView::AddFile { path, dir_token, file_token, copy_from: None }
    })
    &&& commands.subrange(i + 1, i + 1 + n) == text_commands(file_token, delta)
}

/// Commands open or add a file and send a delta for it.
pub open spec fn file_put(
    commands: Seq<EditView>,
    path: Seq<char>,
    exists: bool,
    rev: u64,
    delta: Seq<u8>,
) -> bool {
    exists|i: int, dir_token: Seq<char>, file_token: Seq<char>| #[trigger]
        file_put_at(commands, i, dir_token, file_token, path, exists, rev, delta)
}

/// A task that puts a file does so in the whole drive.
pub(crate) proof fn lemma_put_in_drive(
    tasks: Seq<TaskView>,
    m: int,
    path: Seq<char>,
    exists: bool,
    b: Seq<u8>,
    props: Seq<PropView>,
    plans: Map<Seq<char>, DirPlanView>,
    rev: u64,
    enc: Encoding,
)
    requires
        0 <= m < tasks.len(),
        tasks[m] == (TaskView::File {
            path,
            exists,
            copy_from: None,
            text: FileTextView::Bytes(b),
            props,
        }),
    ensures
        whole_drive(tasks, plans, rev, enc) matches Ok(commands) ==> fulltext_delta(
            enc.version,
            b,
            enc.level,
            enc.window_size as nat,
        ) matches Ok(delta) && file_put(commands, path, exists, rev, delta),
{
    lemma_drive_grows(tasks, m + 1, plans, rev, enc);
    lemma_drive_grows(tasks, m, plans, rev, enc);
    if let Ok(commands) = whole_drive(tasks, plans, rev, enc) {
        let s = tasks_done(tasks, m, plans, rev, enc)->Ok_0;
        let t = gone_to(s, tasks[m].dirs(), plans, rev)->Ok_0;
        let token = t.file_token();
        let open = file_opening(t, path, exists, None, rev);
        let u = DriveView { next_file: t.next_file + 1, ..t.send(open) };
        lemma_text_out(u, token, b, enc);
        let delta = fulltext_delta(enc.version, b, enc.level, enc.window_size as nat)->Ok_0;
        let w = text_sent(u, token, FileTextView::Bytes(b), enc)->Ok_0;
        lemma_file_props_grow(w, token, props, props.len() as int);
        let i = t.out.len() as int;
        let text = text_commands(token, delta);
        let x = tasks_done(tasks, m + 1, plans, rev, enc)->Ok_0;
        assert forall|k: int| 0 <= k < w.out.len() implies #[trigger] commands[k] == w.out[k] by {
            let y = file_props_sent(w, token, props, props.len() as int);
            assert(x.out[k] == y.out[k]);
        }
        assert(commands[i] == w.out[i]);
        assert(commands.subrange(i + 1, i + 1 + text.len()) =~= text) by {
            assert forall|k: int| 0 <= k < text.len() implies commands[i + 1 + k] == text[k] by {
                assert(commands[i + 1 + k] == w.out[i + 1 + k]);
            }
        }
        assert(file_put_at(commands, i, t.here(), token, path, exists, rev, delta));
    }
}

/// The directories that are asked for can all be entered.
proof fn lemma_dirs_known(
    p: PlanView,
    i: int,
    rev: u64,
    kinds: spec_fn(Seq<char>, u64) -> NodeKind,
)
    requires
        0 <= i,
        p.changes.dirs == Map::<Seq<char>, DirOpView>::empty(),
        forall|d: Seq<char>| #[trigger]
            in_order(p.changes.needed_dirs()).contains(d) ==> rel_dir_path(d) == Ok::<
                Seq<char>,
                ErrorView,
            >(d) && (kinds(d, rev) == NodeKind::Dir || kinds(d, rev) == NodeKind::Missing),
    ensures
        dirs_answered(p, i, rev, kinds) matches Ok(q) && q.changes == p.changes && q.exists
            == p.exists && (forall|d: Seq<char>| #[trigger]
            p.plans.dom().contains(d) ==> q.plans.dom().contains(d)) && (forall|k: int|
            i <= k < in_order(p.changes.needed_dirs()).len() ==> q.plans.dom().contains(
                #[trigger] in_order(p.changes.needed_dirs())[k],
            )),
    decreases in_order(p.changes.needed_dirs()).len() - i,
{
    let needed = in_order(p.changes.needed_dirs());
    if i < needed.len() {
        assert(needed.contains(needed[i]));
        let q = p.dir_answered(needed[i], kinds(needed[i], rev))->Ok_0;
        lemma_dirs_known(q, i + 1, rev, kinds);
        let z = dirs_answered(q, i + 1, rev, kinds)->Ok_0;
        assert(q.plans.dom().contains(needed[i]));
        assert forall|d: Seq<char>| #[trigger]
            p.plans.dom().contains(d) implies z.plans.dom().contains(d) by {
            assert(q.plans.dom().contains(d));
        }
        assert forall|k: int| i <= k < needed.len() implies z.plans.dom().contains(
            #[trigger] needed[k],
        ) by {
            if k > i {
                assert(in_order(q.changes.needed_dirs())[k] == needed[k]);
            }
        }
    }
}

proof fn lemma_empty_in_order()
    ensures
        in_order(Set::<Seq<char>>::empty()) == Seq::<Seq<char>>::empty(),
{
    let none = Seq::<Seq<char>>::empty();
    assert(none.to_set() =~= Set::<Seq<char>>::empty());
    lemma_in_order(none, Set::empty());
}

proof fn lemma_one_in_order(t: Seq<char>)
    ensures
        in_order(Set::<Seq<char>>::empty().insert(t)) == seq![t],
{
    let one = seq![t];
    assert(one.to_set() =~= Set::<Seq<char>>::empty().insert(t)) by {
        assert(one[0] == t);
        assert forall|x: Seq<char>| one.to_set().contains(x) <==> x == t by {
            if x == t {
                assert(one.contains(x));
            }
        }
    }
    lemma_in_order(one, Set::<Seq<char>>::empty().insert(t));
}

/// The changes that put one file.
spec fn one_put(p: Seq<char>, contents: Seq<u8>) -> ChangesView {
    ChangesView {
        files: Map::<Seq<char>, FileOpView>::empty().insert(
            p,
            FileOpView { action: Some(FileActionView::Put(contents)), props: Seq::empty() },
        ),
        ..no_changes()
    }
}

proof fn lemma_one_put(
    p: Seq<char>,
    contents: Seq<u8>,
    rev: u64,
    enc: Encoding,
    kinds: spec_fn(Seq<char>, u64) -> NodeKind,
)
    requires
        forall|d: Seq<char>| #[trigger]
            prefixes(parent_of(p)).contains(d) ==> rel_dir_path(d) == Ok::<
                Seq<char>,
                ErrorView,
            >(d) && (kinds(d, rev) == NodeKind::Dir || kinds(d, rev) == NodeKind::Missing),
    ensures
        ({
            let r = from_copies(one_put(p, contents), rev, enc, kinds);
            let kind = kinds(p, rev);
            if kind == NodeKind::Dir || kind == NodeKind::Unknown {
                r == Err::<Seq<EditView>, ErrorView>(
                    ErrorView::Protocol(
                        "expected file or none at "@ + p + " (got "@ + kind_word(kind) + ")"@,
                    ),
                )
            } else {
                match fulltext_delta(enc.version, contents, enc.level, enc.window_size as nat) {
                    Err(e) => r == Err::<Seq<EditView>, ErrorView>(e),
                    Ok(delta) => r matches Ok(commands) && file_put(
                        commands,
                        p,
                        kind == NodeKind::File,
                        rev,
                        delta,
                    ),
                }
            }
        }),
{
    reveal(from_copies);
    reveal(from_dirs);
    reveal(from_files);
    reveal(from_deletes);
    let v = one_put(p, contents);
    lemma_empty_in_order();
    lemma_one_in_order(p);
    assert(v.files.dom() =~= Set::<Seq<char>>::empty().insert(p));
    assert(v.dirs.dom() =~= Set::<Seq<char>>::empty());
    let way = prefixes(parent_of(p));
    assert forall|d: Seq<char>| v.needed_dirs().contains(d) <==> way.to_set().contains(d) by {
        assert(v.files.dom().contains(p));
    }
    assert(v.needed_dirs() =~= way.to_set());
    vstd::seq_lib::seq_to_set_is_finite(way);
    lemma_finite_in_order(v.needed_dirs());
    let needed = in_order(v.needed_dirs());
    assert forall|d: Seq<char>| #[trigger] needed.contains(d) implies way.contains(d) by {
        assert(v.needed_dirs().contains(d));
    }
    lemma_dirs_known(fresh_plan(v), 0, rev, kinds);
    let q = dirs_answered(fresh_plan(v), 0, rev, kinds)->Ok_0;
    let kind = kinds(p, rev);
    reveal_with_fuel(files_answered, 2);
    assert(in_order(q.changes.files.dom()) == seq![p]);
    if kind == NodeKind::File || kind == NodeKind::Missing {
        let w = PlanView { exists: q.exists.insert(p, kind == NodeKind::File), ..q };
        assert(files_answered(q, 0, rev, kinds) == Ok::<PlanView, ErrorView>(w));
        let t = w.file_task(p);
        lemma_tasks(w, Seq::empty(), seq![p], Seq::empty());
        assert(w.tasks() =~= seq![t]);
        reveal_with_fuel(in_turn, 2);
        assert(in_turn(OrderRule::Path, w.tasks(), 1) =~= seq![t]);
        assert(drive_order(w.tasks()) == seq![t]);
        assert forall|d: Seq<char>| #[trigger] t.dirs().contains(d) implies w.plans.dom().contains(
            d,
        ) by {
            assert(way.to_set().contains(d));
            assert(v.needed_dirs().contains(d));
            let k = choose|k: int| 0 <= k < needed.len() && needed[k] == d;
            assert(q.plans.dom().contains(needed[k]));
        }
        reveal_with_fuel(tasks_done, 2);
        let s = begun(rev);
        let k = common(s.dirs, t.dirs(), 0);
        lemma_dirs_open(closed_to(s, k + 1), t.dirs(), k, w.plans, rev);
        let x = gone_to(s, t.dirs(), w.plans, rev)->Ok_0;
        let u = DriveView {
            next_file: x.next_file + 1,
            ..x.send(file_opening(x, p, kind == NodeKind::File, None, rev))
        };
        lemma_text_out(u, x.file_token(), contents, enc);
        lemma_put_in_drive(
            seq![t],
            0,
            p,
            kind == NodeKind::File,
            contents,
            Seq::empty(),
            w.plans,
            rev,
            enc,
        );
    }
}

/// A commit that puts one file and does nothing else adds the file where nothing is,
/// opens it where a file is, and sends a delta of the contents either way; where a
/// directory is, it is refused. The directories on the way must be there or missing, and
/// go by their own names.
pub proof fn a_file_is_put_by_what_is_there(
    b: BuilderView,
    path: Seq<char>,
    contents: Seq<u8>,
    p: Seq<char>,
    version: SvndiffVersion,
    svndiff1: bool,
    svndiff2: bool,
    latest: u64,
    kinds: spec_fn(Seq<char>, u64) -> NodeKind,
)
    requires
        b.changes == seq![ChangeView::PutFile { path, contents }],
        b.zlib_level <= 9,
        version_for(b.svndiff, svndiff1, svndiff2) == Ok::<SvndiffVersion, ErrorView>(version),
        rel_path(path) == Ok::<Seq<char>, ErrorView>(p),
        forall|d: Seq<char>| #[trigger]
            prefixes(parent_of(p)).contains(d) ==> rel_dir_path(d) == Ok::<
                Seq<char>,
                ErrorView,
            >(d) && (kinds(d, rev_for(b, latest)) == NodeKind::Dir || kinds(d, rev_for(b, latest))
                == NodeKind::Missing),
    ensures
        ({
            let r = built(b, svndiff1, svndiff2, latest, kinds);
            let rev = rev_for(b, latest);
            let kind = kinds(p, rev);
            if kind == NodeKind::Dir || kind == NodeKind::Unknown {
                r == Err::<Seq<EditView>, ErrorView>(
                    ErrorView::Protocol(
                        "expected file or none at "@ + p + " (got "@ + kind_word(kind) + ")"@,
                    ),
                )
            } else {
                match fulltext_delta(version, contents, b.zlib_level, b.window_size as nat) {
                    Err(e) => r == Err::<Seq<EditView>, ErrorView>(e),
                    Ok(delta) => r matches Ok(commands) && file_put(
                        commands,
                        p,
                        kind == NodeKind::File,
                        rev,
                        delta,
                    ),
                }
            }
        }),
{
    reveal_with_fuel(sorted_changes, 2);
    let v = sorted_changes(b.changes, 1)->Ok_0;
    assert(v =~= one_put(p, contents));
    let enc = Encoding { version, level: b.zlib_level, window_size: b.window_size };
    lemma_one_put(p, contents, rev_for(b, latest), enc, kinds);
}

} // verus!
