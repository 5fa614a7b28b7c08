//! A commit of files whose texts are sent as they are read, from the files to the last
//! command. What stands in the repository is asked step by step, and so are the parts of
//! the texts.

use vstd::prelude::*;

use crate::commit::{settings_checked, version_for};
use crate::commit_drive::{
    begun, closed_to, common, dir_opened, dirs_opened, file_opening, gone_to, task_done,
    tasks_done, text_sent, whole_drive, DirPlanView, DriveView, Encoding, FileTextView, TaskView,
};
use crate::commit_stream::{
    chunk_commands, is_later, later_task, CommitStreamBuilder, StreamBuilderView, StreamPlan,
    StreamPlanView, TextSender, TextView,
};
use crate::drive_laws::{commit_drives_are_in_order, entered_once, is_complete};
use crate::editor::{EditView, EditorCommand};
use crate::error::{ErrorView, SvnError};
use crate::fulltext::delta_gives;
use crate::keymap::{in_order, text_lt};
use crate::path::{rel_dir_path, rel_path, validate_rel_dir_path, validate_rel_path};
use crate::task_order::{
    ascends, is_plain, lemma_insert_ascends, lemma_place, place_for,
    plain_entries_come_in_path_order, task_lt, together, OrderRule,
};
use crate::textdelta::joined;
use crate::token_laws::tokens_once;
use crate::types::NodeKind;

verus! {

/// A plan with the files from the `i`-th on, where `kinds` says what stands in the
/// repository at a path and a revision.
pub open spec fn files_taken(
    p: StreamPlanView,
    paths: Seq<Seq<char>>,
    i: int,
    base_rev: u64,
    kinds: spec_fn(Seq<char>, u64) -> NodeKind,
) -> Result<StreamPlanView, ErrorView>
    decreases paths.len() - i,
{
    if i < 0 || i >= paths.len() {
        Ok(p)
    } else {
        match rel_path(paths[i]) {
            Err(e) => Err(e),
            Ok(path) => match p.with_file(paths[i], kinds(path, base_rev)) {
                Err(e) => Err(e),
                Ok(q) => files_taken(q, paths, i + 1, base_rev, kinds),
            },
        }
    }
}

/// A plan that knows of the directories that it enters, from the `i`-th on.
pub open spec fn dirs_taken(
    p: StreamPlanView,
    needed: Seq<Seq<char>>,
    i: int,
    base_rev: u64,
    kinds: spec_fn(Seq<char>, u64) -> NodeKind,
) -> Result<StreamPlanView, ErrorView>
    decreases needed.len() - i,
{
    if i < 0 || i >= needed.len() {
        Ok(p)
    } else {
        match rel_dir_path(needed[i]) {
            Err(e) => Err(e),
            Ok(dir) => match p.dir_answered(needed[i], kinds(dir, base_rev)) {
                Err(e) => Err(e),
                Ok(q) => dirs_taken(q, needed, i + 1, base_rev, kinds),
            },
        }
    }
}

/// A commit whose commands are known: the commands, and, for each text in the order in
/// which the texts are sent, the place of its file among the files as they came.
pub struct StreamView {
    pub commands: Seq<EditView>,
    pub order: Seq<usize>,
    pub enc: Encoding,
}

/// What a plan comes to.
pub open spec fn plan_ended(p: StreamPlanView, base_rev: u64, enc: Encoding) -> Result<
    StreamView,
    ErrorView,
> {
    match whole_drive(p.tasks, p.plans, base_rev, enc) {
        Err(e) => Err(e),
        Ok(commands) => Ok(StreamView { commands, order: p.order, enc }),
    }
}

/// What a commit comes to whose directories, from the `i`-th on, are still to be looked
/// at.
#[verifier::opaque]
pub open spec fn stream_from_dirs(
    p: StreamPlanView,
    needed: Seq<Seq<char>>,
    i: int,
    base_rev: u64,
    enc: Encoding,
    kinds: spec_fn(Seq<char>, u64) -> NodeKind,
) -> Result<StreamView, ErrorView> {
    match dirs_taken(p, needed, i, base_rev, kinds) {
        Err(e) => Err(e),
        Ok(q) => plan_ended(q, base_rev, enc),
    }
}

/// What a commit comes to whose files, from the `i`-th on, are still to be looked at.
#[verifier::opaque]
pub open spec fn stream_from_files(
    p: StreamPlanView,
    paths: Seq<Seq<char>>,
    i: int,
    base_rev: u64,
    enc: Encoding,
    kinds: spec_fn(Seq<char>, u64) -> NodeKind,
) -> Result<StreamView, ErrorView> {
    match files_taken(p, paths, i, base_rev, kinds) {
        Err(e) => Err(e),
        Ok(q) => stream_from_dirs(q, in_order(q.needed_dirs()), 0, base_rev, enc, kinds),
    }
}

/// A plan without files.
pub open spec fn no_files() -> StreamPlanView {
    StreamPlanView { tasks: Seq::empty(), order: Seq::empty(), plans: Map::empty() }
}

/// What a commit against `base_rev` comes to, where the server does or does not
/// understand the versions 1 and 2 of the delta format, and `kinds` says what stands in
/// the repository at a path and a revision.
pub open spec fn streamed_at(
    b: StreamBuilderView,
    svndiff1: bool,
    svndiff2: bool,
    base_rev: u64,
    kinds: spec_fn(Seq<char>, u64) -> NodeKind,
) -> Result<StreamView, ErrorView> {
    match version_for(b.svndiff, svndiff1, svndiff2) {
        Err(e) => Err(e),
        Ok(version) => stream_from_files(
            no_files(),
            b.paths,
            0,
            base_rev,
            Encoding {
                version,
                level: b.zlib_level,
                window_size: b.window(),
            },
            kinds,
        ),
    }
}

/// What a commit comes to, where `latest` is the latest revision.
pub open spec fn streamed(
    b: StreamBuilderView,
    svndiff1: bool,
    svndiff2: bool,
    latest: u64,
    kinds: spec_fn(Seq<char>, u64) -> NodeKind,
) -> Result<StreamView, ErrorView> {
    match settings_checked(b.paths.len(), b.zlib_level) {
        Err(e) => Err(e),
        Ok(_) => streamed_at(
            b,
            svndiff1,
            svndiff2,
            match b.base_rev {
                Some(rev) => rev,
                None => latest,
            },
            kinds,
        ),
    }
}

/// How far a commit has come, and which answer comes next.
pub enum StreamStageView {
    Files { plan: StreamPlanView, paths: Seq<Seq<char>>, i: int },
    Dirs { plan: StreamPlanView, needed: Seq<Seq<char>>, i: int },
}

/// Where a commit stands: it waits for an answer, or everything is known.
pub enum StreamNextView {
    Asks(StreamStageView),
    Send(StreamView),
}

impl StreamStageView {
    /// What is asked for next: a path. None is where something is wrong already, or where
    /// everything is known.
    pub open spec fn asks(self) -> Option<Seq<char>> {
        match self {
            StreamStageView::Files { paths, i, .. } => if 0 <= i < paths.len() {
                match rel_path(paths[i]) {
                    Ok(p) => Some(p),
                    Err(_) => None,
                }
            } else {
                None
            },
            StreamStageView::Dirs { needed, i, .. } => if 0 <= i < needed.len() {
                match rel_dir_path(needed[i]) {
                    Ok(p) => Some(p),
                    Err(_) => None,
                }
            } else {
                None
            },
        }
    }

    /// Whether directories are still to be looked at behind the files.
    pub open spec fn part(self) -> nat {
        match self {
            StreamStageView::Files { .. } => 1,
            StreamStageView::Dirs { .. } => 0,
        }
    }

    /// How many of the files or directories that are being looked at are left.
    pub open spec fn left(self) -> int {
        match self {
            StreamStageView::Files { paths, i, .. } => paths.len() - i,
            StreamStageView::Dirs { needed, i, .. } => needed.len() - i,
        }
    }

    /// Another stage is nearer to the end.
    pub open spec fn before(self, other: StreamStageView) -> bool {
        ||| other.part() < self.part()
        ||| other.part() == self.part() && 0 <= other.left() < self.left()
    }

    /// The stage behind the answer that is waited for, or why the commit is refused.
    pub open spec fn answered(self, kind: NodeKind) -> Result<StreamStageView, ErrorView> {
        match self {
            StreamStageView::Files { plan, paths, i } => match plan.with_file(paths[i], kind) {
                Ok(q) => Ok(StreamStageView::Files { plan: q, paths, i: i + 1 }),
                Err(e) => Err(e),
            },
            StreamStageView::Dirs { plan, needed, i } => match plan.dir_answered(
                needed[i],
                kind,
            ) {
                Ok(q) => Ok(StreamStageView::Dirs { plan: q, needed, i: i + 1 }),
                Err(e) => Err(e),
            },
        }
    }

    /// Where the commit stands without a further answer: at this stage where it asks for
    /// something, and otherwise at the next one that does, or at the end.
    pub open spec fn settled(self, base_rev: u64, enc: Encoding) -> Result<
        StreamNextView,
        ErrorView,
    >
        decreases self.part(),
    {
        match self {
            StreamStageView::Files { plan, paths, i } => if 0 <= i < paths.len() {
                match rel_path(paths[i]) {
                    Ok(_) => Ok(StreamNextView::Asks(self)),
                    Err(e) => Err(e),
                }
            } else {
                let needed = in_order(plan.needed_dirs());
                (StreamStageView::Dirs { plan, needed, i: 0 }).settled(base_rev, enc)
            },
            StreamStageView::Dirs { plan, needed, i } => if 0 <= i < needed.len() {
                match rel_dir_path(needed[i]) {
                    Ok(_) => Ok(StreamNextView::Asks(self)),
                    Err(e) => Err(e),
                }
            } else {
                match plan_ended(plan, base_rev, enc) {
                    Ok(v) => Ok(StreamNextView::Send(v)),
                    Err(e) => Err(e),
                }
            },
        }
    }

    /// Where the commit stands after the answer that is waited for.
    pub open spec fn next(self, base_rev: u64, enc: Encoding, kind: NodeKind) -> Result<
        StreamNextView,
        ErrorView,
    > {
        match self.answered(kind) {
            Ok(s) => s.settled(base_rev, enc),
            Err(e) => Err(e),
        }
    }

    /// What the commit comes to.
    pub open spec fn outcome(
        self,
        base_rev: u64,
        enc: Encoding,
        kinds: spec_fn(Seq<char>, u64) -> NodeKind,
    ) -> Result<StreamView, ErrorView> {
        match self {
            StreamStageView::Files { plan, paths, i } => stream_from_files(
                plan,
                paths,
                i,
                base_rev,
                enc,
                kinds,
            ),
            StreamStageView::Dirs { plan, needed, i } => stream_from_dirs(
                plan,
                needed,
                i,
                base_rev,
                enc,
                kinds,
            ),
        }
    }
}

/// How texts are encoded, and where a commit against `base_rev` stands at first.
pub open spec fn stream_started(
    b: StreamBuilderView,
    svndiff1: bool,
    svndiff2: bool,
    base_rev: u64,
) -> Result<(Encoding, StreamNextView), ErrorView> {
    match version_for(b.svndiff, svndiff1, svndiff2) {
        Err(e) => Err(e),
        Ok(version) => {
            let enc = Encoding { version, level: b.zlib_level, window_size: b.window() };
            let first = StreamStageView::Files { plan: no_files(), paths: b.paths, i: 0 };
            match first.settled(base_rev, enc) {
                Err(e) => Err(e),
                Ok(n) => Ok((enc, n)),
            }
        },
    }
}

/// A commit that waits asks for something, at this stage or at a later one.
pub(crate) proof fn lemma_settled(s: StreamStageView, base_rev: u64, enc: Encoding)
    ensures
        s.settled(base_rev, enc) matches Ok(StreamNextView::Asks(t)) ==> t.asks() is Some && (t
            == s || t.part() < s.part()),
        s.asks() is Some ==> s.settled(base_rev, enc) == Ok::<StreamNextView, ErrorView>(
            StreamNextView::Asks(s),
        ),
    decreases s.part(),
{
    if let StreamStageView::Files { plan, .. } = s {
        lemma_settled(
            StreamStageView::Dirs { plan, needed: in_order(plan.needed_dirs()), i: 0 },
            base_rev,
            enc,
        );
    }
}

/// Every answer brings a streamed commit nearer to its end: what is then waited for comes
/// later.
pub proof fn stream_answers_come_nearer(
    s: StreamStageView,
    base_rev: u64,
    enc: Encoding,
    kind: NodeKind,
)
    requires
        s.asks() is Some,
    ensures
        s.next(base_rev, enc, kind) matches Ok(StreamNextView::Asks(t)) ==> s.before(t)
            && t.asks() is Some,
{
    if let Ok(t) = s.answered(kind) {
        lemma_settled(t, base_rev, enc);
    }
}

/// One answer more is known of the directories.
proof fn lemma_from_dirs(
    p: StreamPlanView,
    needed: Seq<Seq<char>>,
    i: int,
    base_rev: u64,
    enc: Encoding,
)
    ensures
        forall|kinds: spec_fn(Seq<char>, u64) -> NodeKind| #[trigger]
            (StreamStageView::Dirs { plan: p, needed, i }).outcome(base_rev, enc, kinds) == (if 0
                <= i < needed.len() {
                match rel_dir_path(needed[i]) {
                    Err(e) => Err(e),
                    Ok(dir) => match p.dir_answered(needed[i], kinds(dir, base_rev)) {
                        Err(e) => Err(e),
                        Ok(q) => (StreamStageView::Dirs { plan: q, needed, i: i + 1 }).outcome(
                            base_rev,
                            enc,
                            kinds,
                        ),
                    },
                }
            } else {
                plan_ended(p, base_rev, enc)
            }),
{
    reveal(stream_from_dirs);
}

/// One answer more is known of the files.
proof fn lemma_from_files(
    p: StreamPlanView,
    paths: Seq<Seq<char>>,
    i: int,
    base_rev: u64,
    enc: Encoding,
)
    ensures
        forall|kinds: spec_fn(Seq<char>, u64) -> NodeKind| #[trigger]
            (StreamStageView::Files { plan: p, paths, i }).outcome(base_rev, enc, kinds) == (if 0
                <= i < paths.len() {
                match rel_path(paths[i]) {
                    Err(e) => Err(e),
                    Ok(path) => match p.with_file(paths[i], kinds(path, base_rev)) {
                        Err(e) => Err(e),
                        Ok(q) => (StreamStageView::Files { plan: q, paths, i: i + 1 }).outcome(
                            base_rev,
                            enc,
                            kinds,
                        ),
                    },
                }
            } else {
                (StreamStageView::Dirs {
                    plan: p,
                    needed: in_order(p.needed_dirs()),
                    i: 0,
                }).outcome(base_rev, enc, kinds)
            }),
{
    reveal(stream_from_files);
}

/// A command begins a text.
pub open spec fn begins_text(c: EditView) -> bool {
    c is ApplyTextDelta
}

/// How many texts the commands begin.
pub open spec fn count_texts(commands: Seq<EditView>) -> nat
    decreases commands.len(),
{
    if commands.len() == 0 {
        0
    } else if begins_text(commands.last()) {
        count_texts(commands.drop_last()) + 1
    } else {
        count_texts(commands.drop_last())
    }
}

/// The file that a command opens or adds.
pub open spec fn opens_file(c: EditView) -> Option<Seq<char>> {
    match c {
        EditView::AddFile { path, .. } => Some(path),
        EditView::OpenFile { path, .. } => Some(path),
        _ => None,
    }
}

/// The `k`-th text that the commands begin is that of the `k`-th task.
pub open spec fn texts_follow(commands: Seq<EditView>, tasks: Seq<TaskView>) -> bool {
    forall|i: int|
        0 <= i < commands.len() && begins_text(#[trigger] commands[i]) ==> 0 < i && ({
            let k = count_texts(commands.take(i));
            k < tasks.len() && opens_file(commands[i - 1]) == Some(tasks[k as int].path()) && (
            commands[i - 1] is OpenFile <==> tasks[k as int]->exists)
        })
}

/// So far, the commands begin the texts of the first `n` tasks.
spec fn texts_begun(s: DriveView, tasks: Seq<TaskView>, n: int) -> bool {
    count_texts(s.out) == n && texts_follow(s.out, tasks)
}

proof fn lemma_quiet(s: DriveView, out: Seq<EditView>, c: EditView, tasks: Seq<TaskView>, n: int)
    requires
        texts_begun(s, tasks, n),
        out == s.out.push(c),
        !begins_text(c),
    ensures
        count_texts(out) == n,
        texts_follow(out, tasks),
{
    assert(out.drop_last() =~= s.out);
    assert forall|i: int| 0 <= i < out.len() && begins_text(#[trigger] out[i]) implies 0 < i && ({
        let k = count_texts(out.take(i));
        k < tasks.len() && opens_file(out[i - 1]) == Some(tasks[k as int].path()) && (out[i - 1]
            is OpenFile <==> tasks[k as int]->exists)
    }) by {
        assert(out[i] == s.out[i]);
        assert(out.take(i) =~= s.out.take(i));
    }
}

proof fn lemma_closed_quiet(s: DriveView, n: int, tasks: Seq<TaskView>, m: int)
    requires
        texts_begun(s, tasks, m),
    ensures
        texts_begun(closed_to(s, n), tasks, m),
    decreases s.dirs.len(),
{
    if s.dirs.len() > n && s.dirs.len() > 0 {
        let c = EditView::CloseDir { dir_token: s.here() };
        let t = DriveView { dirs: s.dirs.drop_last(), ..s.send(c) };
        lemma_quiet(s, t.out, c, tasks, m);
        lemma_closed_quiet(t, n, tasks, m);
    }
}

proof fn lemma_opened_quiet(
    s: DriveView,
    targets: Seq<Seq<char>>,
    k: int,
    plans: Map<Seq<char>, DirPlanView>,
    rev: u64,
    tasks: Seq<TaskView>,
    m: int,
)
    requires
        texts_begun(s, tasks, m),
    ensures
        dirs_opened(s, targets, k, plans, rev) matches Ok(t) ==> texts_begun(t, tasks, m),
    decreases targets.len() - k,
{
    if 0 <= k < targets.len() && plans.dom().contains(targets[k]) {
        let t = dir_opened(s, targets[k], plans[targets[k]], rev);
        let c = t.out.last();
        assert(t.out =~= s.out.push(c));
        lemma_quiet(s, t.out, c, tasks, m);
        lemma_opened_quiet(t, targets, k + 1, plans, rev, tasks, m);
    }
}

proof fn lemma_texts(
    tasks: Seq<TaskView>,
    n: int,
    plans: Map<Seq<char>, DirPlanView>,
    rev: u64,
    enc: Encoding,
)
    requires
        0 <= n <= tasks.len(),
        forall|k: int| 0 <= k < tasks.len() ==> is_later(#[trigger] tasks[k]),
    ensures
        tasks_done(tasks, n, plans, rev, enc) matches Ok(s) ==> texts_begun(s, tasks, n),
    decreases n,
{
    if n > 0 {
        lemma_texts(tasks, n - 1, plans, rev, enc);
        if let Ok(s) = tasks_done(tasks, n - 1, plans, rev, enc) {
            let task = tasks[n - 1];
            let targets = task.dirs();
            let k = common(s.dirs, targets, 0);
            lemma_closed_quiet(s, k + 1, tasks, n - 1);
            lemma_opened_quiet(closed_to(s, k + 1), targets, k, plans, rev, tasks, n - 1);
            if let Ok(t) = gone_to(s, targets, plans, rev) {
                assert(is_later(task));
                let token = t.file_token();
                let open = file_opening(t, task->File_path, task->exists, task->copy_from, rev);
                let u = DriveView { next_file: t.next_file + 1, ..t.send(open) };
                lemma_quiet(t, u.out, open, tasks, n - 1);
                let begin = EditView::ApplyTextDelta { file_token: token, base_checksum: None };
                let v = u.send(begin);
                assert(v.out.drop_last() =~= u.out);
                assert(texts_follow(v.out, tasks)) by {
                    let out = v.out;
                    assert forall|i: int|
                        0 <= i < out.len() && begins_text(#[trigger] out[i]) implies 0 < i && ({
                        let k = count_texts(out.take(i));
                        k < tasks.len() && opens_file(out[i - 1]) == Some(tasks[k as int].path())
                            && (out[i - 1] is OpenFile <==> tasks[k as int]->exists)
                    }) by {
                        assert(out.take(i) =~= u.out.take(i));
                        if i < u.out.len() {
                            assert(out[i] == u.out[i]);
                        } else {
                            assert(out.take(i) =~= u.out);
                            assert(out[i - 1] == open);
                        }
                    }
                }
                let end = EditView::TextDeltaEnd { file_token: token };
                lemma_quiet(v, v.out.push(end), end, tasks, n);
                let w = v.send(end);
                assert(text_sent(u, token, FileTextView::Later, enc) == Ok::<
                    DriveView,
                    ErrorView,
                >(w));
                let close = EditView::CloseFile { file_token: token, text_checksum: None };
                lemma_quiet(w, w.out.push(close), close, tasks, n);
                assert(task_done(t, task, rev, enc)->Ok_0.out == w.out.push(close));
            }
        }
    } else {
        let s = begun(rev);
        reveal_with_fuel(count_texts, 2);
        assert(s.out.drop_last() =~= Seq::<EditView>::empty());
    }
}

/// The drive of files whose texts are sent later begins one text for each file, behind
/// the command that opens or adds the file, in the order of the files.
pub proof fn texts_go_with_their_files(
    tasks: Seq<TaskView>,
    plans: Map<Seq<char>, DirPlanView>,
    rev: u64,
    enc: Encoding,
)
    requires
        forall|k: int| 0 <= k < tasks.len() ==> is_later(#[trigger] tasks[k]),
    ensures
        whole_drive(tasks, plans, rev, enc) matches Ok(commands) ==> count_texts(commands)
            == tasks.len() && texts_follow(commands, tasks),
{
    let n = tasks.len() as int;
    lemma_texts(tasks, n, plans, rev, enc);
    if let Ok(s) = tasks_done(tasks, n, plans, rev, enc) {
        lemma_closed_quiet(s, 1, tasks, n);
        let t = closed_to(s, 1);
        let close = EditView::CloseDir { dir_token: "r"@ };
        lemma_quiet(t, t.out.push(close), close, tasks, n);
        let u = t.send(close);
        lemma_quiet(u, u.out.push(EditView::CloseEdit), EditView::CloseEdit, tasks, n);
    }
}

/// The task for one of the paths, as its place says.
pub open spec fn task_at(
    paths: Seq<Seq<char>>,
    place: usize,
    base_rev: u64,
    kinds: spec_fn(Seq<char>, u64) -> NodeKind,
) -> TaskView {
    let p = rel_path(paths[place as int])->Ok_0;
    later_task(p, kinds(p, base_rev) == NodeKind::File)
}

/// The files of a plan are the first `n` paths, each at its place.
pub open spec fn places_kept(
    p: StreamPlanView,
    paths: Seq<Seq<char>>,
    n: int,
    base_rev: u64,
    kinds: spec_fn(Seq<char>, u64) -> NodeKind,
) -> bool {
    &&& p.tasks.len() == n
    &&& p.order.len() == n
    &&& forall|k: int|
        #![trigger p.order[k]]
        #![trigger p.tasks[k]]
        0 <= k < n ==> p.order[k] < n && rel_path(paths[p.order[k] as int]) is Ok && p.tasks[k]
            == task_at(paths, p.order[k], base_rev, kinds)
    &&& forall|j: int, k: int|
        #![trigger p.order[j], p.order[k]]
        0 <= j < k < n ==> p.order[j] != p.order[k]
}

proof fn lemma_places(
    p: StreamPlanView,
    paths: Seq<Seq<char>>,
    i: int,
    base_rev: u64,
    kinds: spec_fn(Seq<char>, u64) -> NodeKind,
)
    requires
        0 <= i <= paths.len() <= usize::MAX,
        places_kept(p, paths, i, base_rev, kinds),
        p.all_later(),
        ascends(OrderRule::Path, p.tasks),
    ensures
        files_taken(p, paths, i, base_rev, kinds) matches Ok(q) ==> places_kept(
            q,
            paths,
            paths.len() as int,
            base_rev,
            kinds,
        ) && q.all_later() && ascends(OrderRule::Path, q.tasks),
    decreases paths.len() - i,
{
    if i < paths.len() {
        if let Ok(path) = rel_path(paths[i]) {
            let kind = kinds(path, base_rev);
            if let Ok(q) = p.with_file(paths[i], kind) {
                let t = later_task(path, kind == NodeKind::File);
                let at = place_for(OrderRule::Path, p.tasks, t, p.tasks.len() as int);
                lemma_place(OrderRule::Path, p.tasks, t, p.tasks.len() as int);
                lemma_insert_ascends(OrderRule::Path, p.tasks, t);
                assert forall|k: int|
                    #![trigger q.order[k]]
                    #![trigger q.tasks[k]]
                    0 <= k < i + 1 implies q.order[k] < i + 1 && rel_path(
                    paths[q.order[k] as int],
                ) is Ok && q.tasks[k] == task_at(paths, q.order[k], base_rev, kinds) by {
                    if k < at {
                        assert(q.order[k] == p.order[k] && q.tasks[k] == p.tasks[k]);
                    } else if k > at {
                        assert(q.order[k] == p.order[k - 1] && q.tasks[k] == p.tasks[k - 1]);
                    }
                }
                assert forall|j: int, k: int|
                    #![trigger q.order[j], q.order[k]]
                    0 <= j < k < i + 1 implies q.order[j] != q.order[k] by {
                    let x = if j < at {
                        j
                    } else {
                        j - 1
                    };
                    let y = if k < at {
                        k
                    } else {
                        k - 1
                    };
                    if j != at {
                        assert(q.order[j] == p.order[x]);
                    }
                    if k != at {
                        assert(q.order[k] == p.order[y]);
                    }
                }
                assert forall|k: int| 0 <= k < q.tasks.len() implies is_later(
                    #[trigger] q.tasks[k],
                ) by {
                    if k < at {
                        assert(q.tasks[k] == p.tasks[k]);
                    } else if k > at {
                        assert(q.tasks[k] == p.tasks[k - 1]);
                    }
                }
                lemma_places(q, paths, i + 1, base_rev, kinds);
            }
        }
    }
}

proof fn lemma_dirs_keep(
    p: StreamPlanView,
    needed: Seq<Seq<char>>,
    i: int,
    base_rev: u64,
    kinds: spec_fn(Seq<char>, u64) -> NodeKind,
)
    ensures
        dirs_taken(p, needed, i, base_rev, kinds) matches Ok(q) ==> q.tasks == p.tasks && q.order
            == p.order,
    decreases needed.len() - i,
{
    if 0 <= i < needed.len() {
        if let Ok(dir) = rel_dir_path(needed[i]) {
            if let Ok(q) = p.dir_answered(needed[i], kinds(dir, base_rev)) {
                lemma_dirs_keep(q, needed, i + 1, base_rev, kinds);
            }
        }
    }
}

/// What a streamed commit sends, and where the texts come from: every file that was given
/// has one text; the texts are sent in the order of their paths; each one goes behind the
/// command that opens its file, if a file is there, or else adds it.
pub open spec fn texts_are_those_of(
    v: StreamView,
    paths: Seq<Seq<char>>,
    base_rev: u64,
    kinds: spec_fn(Seq<char>, u64) -> NodeKind,
) -> bool {
    &&& v.order.len() == paths.len()
    &&& count_texts(v.commands) == paths.len()
    &&& forall|j: int, k: int|
        #![trigger v.order[j], v.order[k]]
        0 <= j < k < v.order.len() ==> v.order[j] != v.order[k] && !text_lt(
            rel_path(paths[v.order[k] as int])->Ok_0,
            rel_path(paths[v.order[j] as int])->Ok_0,
        )
    &&& forall|i: int|
        0 <= i < v.commands.len() && begins_text(#[trigger] v.commands[i]) ==> 0 < i && ({
            let k = count_texts(v.commands.take(i)) as int;
            &&& k < v.order.len()
            &&& v.order[k] < paths.len()
            &&& rel_path(paths[v.order[k] as int]) matches Ok(p)
            &&& opens_file(v.commands[i - 1]) == Some(p)
            &&& v.commands[i - 1] is OpenFile <==> kinds(p, base_rev) == NodeKind::File
        })
}

/// Each text of a streamed commit goes with its own file, and the commands of the commit
/// form a complete drive. It enters no directory twice where the files of a directory
/// stand together in the order of their paths, as they do where no path has an empty part
/// or stands in a blank directory.
pub proof fn streamed_texts_go_with_their_files(
    b: StreamBuilderView,
    svndiff1: bool,
    svndiff2: bool,
    base_rev: u64,
    kinds: spec_fn(Seq<char>, u64) -> NodeKind,
)
    requires
        b.paths.len() <= usize::MAX,
    ensures
        streamed_at(b, svndiff1, svndiff2, base_rev, kinds) matches Ok(v) ==> texts_are_those_of(
            v,
            b.paths,
            base_rev,
            kinds,
        ) && is_complete(v.commands) && ((forall|k: int|
            0 <= k < b.paths.len() ==> is_plain(rel_path(#[trigger] b.paths[k])->Ok_0))
            ==> entered_once(v.commands)) && (files_taken(
            no_files(),
            b.paths,
            0,
            base_rev,
            kinds,
        ) matches Ok(p) && (together(p.tasks) ==> entered_once(v.commands))),
{
    if let Ok(v) = streamed_at(b, svndiff1, svndiff2, base_rev, kinds) {
        reveal(stream_from_files);
        reveal(stream_from_dirs);
        lemma_places(no_files(), b.paths, 0, base_rev, kinds);
        let p = files_taken(no_files(), b.paths, 0, base_rev, kinds)->Ok_0;
        let needed = in_order(p.needed_dirs());
        lemma_dirs_keep(p, needed, 0, base_rev, kinds);
        let q = dirs_taken(p, needed, 0, base_rev, kinds)->Ok_0;
        texts_go_with_their_files(q.tasks, q.plans, base_rev, v.enc);
        commit_drives_are_in_order(q.tasks, q.plans, base_rev, v.enc);
        assert forall|j: int, k: int|
            #![trigger v.order[j], v.order[k]]
            0 <= j < k < v.order.len() implies v.order[j] != v.order[k] && !text_lt(
            rel_path(b.paths[v.order[k] as int])->Ok_0,
            rel_path(b.paths[v.order[j] as int])->Ok_0,
        ) by {
            assert(!task_lt(OrderRule::Path, p.tasks[k], p.tasks[j]));
        }
        if forall|k: int|
            0 <= k < b.paths.len() ==> is_plain(rel_path(#[trigger] b.paths[k])->Ok_0) {
            assert forall|k: int| 0 <= k < p.tasks.len() implies (
            #[trigger] p.tasks[k]) !is Dir && is_plain(p.tasks[k].path()) by {
                assert(is_plain(rel_path(b.paths[p.order[k] as int])->Ok_0));
            }
            plain_entries_come_in_path_order(p.tasks);
        }
        assert forall|i: int|
            0 <= i < v.commands.len() && begins_text(#[trigger] v.commands[i]) implies 0 < i && ({
            let k = count_texts(v.commands.take(i)) as int;
            &&& k < v.order.len()
            &&& v.order[k] < b.paths.len()
            &&& rel_path(b.paths[v.order[k] as int]) matches Ok(p)
            &&& opens_file(v.commands[i - 1]) == Some(p)
            &&& v.commands[i - 1] is OpenFile <==> kinds(p, base_rev) == NodeKind::File
        }) by {
            let k = count_texts(v.commands.take(i)) as int;
            assert(p.tasks[k] == q.tasks[k]);
        }
    }
}

/// How far a commit has come.
enum StreamStage<'a> {
    Files(StreamPlan, &'a Vec<String>, usize),
    Dirs(StreamPlan, Vec<String>, usize),
}

impl<'a> StreamStage<'a> {
    spec fn said(self) -> StreamStageView {
        match self {
            StreamStage::Files(plan, paths, i) => StreamStageView::Files {
                plan: plan@,
                paths: paths.deep_view(),
                i: i as int,
            },
            StreamStage::Dirs(plan, needed, i) => StreamStageView::Dirs {
                plan: plan@,
                needed: needed.deep_view(),
                i: i as int,
            },
        }
    }

    spec fn wf(self) -> bool {
        match self {
            StreamStage::Files(plan, _, _) => plan.wf(),
            StreamStage::Dirs(plan, _, _) => plan.wf(),
        }
    }
}

/// A commit that waits for the number of the latest revision.
pub struct StreamAwaitsRev<'a> {
    builder: &'a CommitStreamBuilder,
    svndiff1: bool,
    svndiff2: bool,
}

impl<'a> StreamAwaitsRev<'a> {
    /// What is committed, and which versions of the delta format the server understands.
    pub closed spec fn said(self) -> (StreamBuilderView, bool, bool) {
        (self.builder@, self.svndiff1, self.svndiff2)
    }
}

/// A commit that waits for the kind of a node.
pub struct StreamAwaitsKind<'a> {
    path: String,
    base_rev: u64,
    enc: Encoding,
    stage: StreamStage<'a>,
}

impl<'a> StreamAwaitsKind<'a> {
    /// How far the commit has come.
    pub closed spec fn stage(self) -> StreamStageView {
        self.stage.said()
    }

    /// The revision that the commit is made against.
    pub closed spec fn base_rev(self) -> u64 {
        self.base_rev
    }

    /// How texts are encoded.
    pub closed spec fn enc(self) -> Encoding {
        self.enc
    }

    /// The node that is asked for is the next one.
    pub closed spec fn kept(self) -> bool {
        &&& self.stage.wf()
        &&& self.stage.said().asks() == Some(self.path@)
    }

    /// There is something to ask for, and it is what comes next.
    pub open spec fn wf(self) -> bool {
        self.kept() && self.stage().asks() is Some
    }

    /// What the commit comes to.
    pub open spec fn outcome(self, kinds: spec_fn(Seq<char>, u64) -> NodeKind) -> Result<
        StreamView,
        ErrorView,
    > {
        self.stage().outcome(self.base_rev(), self.enc(), kinds)
    }

    /// The path that is asked for.
    pub open spec fn asks(self) -> Seq<char> {
        self.stage().asks()->0
    }
}

/// Where the sending of a commit stands: how many of its commands have been sent, and the
/// text that is on its way.
pub struct SendingView {
    pub commit: StreamView,
    pub at: int,
    pub text: Option<TextView>,
}

impl SendingView {
    /// How many texts have been begun.
    pub open spec fn texts(self) -> nat {
        count_texts(self.commit.commands.take(self.at))
    }

    /// The next command has been sent: where it begins a text, the text is on its way.
    pub open spec fn sent(self) -> SendingView {
        SendingView {
            at: self.at + 1,
            text: match self.commit.commands[self.at] {
                EditView::ApplyTextDelta { file_token, .. } => Some(
                    TextView {
                        token: file_token,
                        enc: self.commit.enc,
                        parts: Seq::empty(),
                        chunks: Seq::empty(),
                    },
                ),
                _ => None,
            },
            ..self
        }
    }
}

/// A commit that is being sent.
pub struct StreamSending {
    commands: Vec<EditorCommand>,
    order: Vec<usize>,
    enc: Encoding,
    at: usize,
    texts: usize,
    text: Option<TextSender>,
}

/// What to do next.
pub enum StreamAction<'a> {
    /// This command is sent.
    Send(&'a EditorCommand),
    /// The next part of a text is read: that of the file with this place among the files
    /// as they came.
    Read(usize),
    /// Everything has been sent.
    Done,
}

impl View for StreamSending {
    type V = SendingView;

    closed spec fn view(&self) -> SendingView {
        SendingView {
            commit: StreamView {
                commands: self.commands.deep_view(),
                order: self.order@,
                enc: self.enc,
            },
            at: self.at as int,
            text: match self.text {
                Some(t) => Some(t@),
                None => None,
            },
        }
    }
}

/// What taking a part of a text did: the commands that send it. A part without bytes ends
/// the text, whose chunks are then a delta that gives all that was read.
pub open spec fn part_took(
    r: Result<Vec<EditorCommand>, SvnError>,
    before: SendingView,
    after: SendingView,
    data: Seq<u8>,
) -> bool {
    let t = before.text->0;
    match r {
        Ok(c) => if data.len() > 0 {
            t.with_part(data) matches Ok(v) && after == (SendingView { text: Some(v), ..before })
                && c.deep_view() == chunk_commands(t.token, v.chunks.skip(t.chunks.len() as int))
        } else {
            t.ended() matches Ok(v) && after == (SendingView { text: None, ..before })
                && c.deep_view() == chunk_commands(t.token, v.chunks.skip(t.chunks.len() as int))
                && v.chunks_fit() && (t.parts_fit() ==> delta_gives(
                joined(v.chunks),
                joined(t.parts),
            ))
        },
        Err(e) => if data.len() > 0 {
            t.with_part(data) == Err::<TextView, ErrorView>(e.deep_view()) && after == before
        } else {
            t.ended() == Err::<TextView, ErrorView>(e.deep_view()) && after == (SendingView {
                text: None,
                ..before
            })
        },
    }
}

impl StreamSending {
    /// There is a file for every text, and a text is on its way behind the command that
    /// begins it only.
    pub closed spec fn wf(self) -> bool {
        &&& 0 <= self.at <= self.commands@.len()
        &&& self.texts == self@.texts()
        &&& count_texts(self@.commit.commands) == self.order@.len()
        &&& self.text matches Some(t) ==> t.wf() && self.at > 0 && begins_text(
            self@.commit.commands[self.at - 1],
        )
    }

    fn new(commands: Vec<EditorCommand>, order: Vec<usize>, enc: Encoding) -> (r: StreamSending)
        requires
            count_texts(commands.deep_view()) == order@.len(),
        ensures
            r.wf(),
            r@ == (SendingView {
                commit: StreamView { commands: commands.deep_view(), order: order@, enc },
                at: 0,
                text: None,
            }),
    {
        let r = StreamSending { commands, order, enc, at: 0, texts: 0, text: None };
        assert(r@.commit.commands.take(0) =~= Seq::<EditView>::empty());
        r
    }

    /// What to do next.
    pub fn next(&self) -> (r: StreamAction<'_>)
        requires
            self.wf(),
        ensures
            match r {
                StreamAction::Send(c) => self@.text is None && 0 <= self@.at
                    < self@.commit.commands.len() && c.deep_view()
                    == self@.commit.commands[self@.at],
                StreamAction::Read(file) => self@.text is Some && 0 < self@.texts()
                    <= self@.commit.order.len() && file == self@.commit.order[self@.texts() - 1],
                StreamAction::Done => self@.text is None && self@.at
                    == self@.commit.commands.len(),
            },
    {
        proof {
            lemma_count_monotone(self@.commit.commands, self.at as int);
            if self.at > 0 {
                let c = self@.commit.commands;
                assert(c.take(self.at as int).drop_last() =~= c.take(self.at - 1));
                assert(c.take(self.at as int).last() == c[self.at - 1]);
            }
            assert(self@.commit.commands.len() == self.commands@.len());
        }
        if self.text.is_some() {
            return StreamAction::Read(self.order[self.texts - 1]);
        }
        if self.at < self.commands.len() {
            StreamAction::Send(&self.commands[self.at])
        } else {
            StreamAction::Done
        }
    }

    /// The next command has been sent.
    pub fn sent(&mut self)
        requires
            old(self).wf(),
            old(self)@.text is None,
            old(self)@.at < old(self)@.commit.commands.len(),
        ensures
            final(self).wf(),
            final(self)@ == old(self)@.sent(),
    {
        let ghost c = self@.commit.commands;
        let _count = self.commands.len();
        proof {
            assert(c.len() == self.commands@.len());
            assert(c[self.at as int] == self.commands@[self.at as int].deep_view());
            assert(c.take(self.at + 1).drop_last() =~= c.take(self.at as int));
            assert(c.take(self.at + 1).last() == c[self.at as int]);
            lemma_count_monotone(c, self.at + 1);
        }
        let token = match &self.commands[self.at] {
            EditorCommand::ApplyTextDelta { file_token, .. } => Some(file_token.clone()),
            _ => None,
        };
        self.at = self.at + 1;
        match token {
            Some(token) => {
                let _files = self.order.len();
                self.texts = self.texts + 1;
                self.text = Some(TextSender::new(&token, self.enc));
            },
            None => {},
        }
    }

    /// Takes the next part of the text that is read; one without bytes ends the text.
    pub fn part(&mut self, data: &[u8]) -> (r: Result<Vec<EditorCommand>, SvnError>)
        requires
            old(self).wf(),
            old(self)@.text is Some,
        ensures
            final(self).wf(),
            part_took(r, old(self)@, final(self)@, data@),
    {
        let mut text: Option<TextSender> = None;
        std::mem::swap(&mut text, &mut self.text);
        match text {
            Some(t) => {
                if data.len() == 0 {
                    return t.finish();
                }
                let mut t = t;
                let r = t.part(data);
                self.text = Some(t);
                r
            },
            None => Ok(Vec::new()),
        }
    }
}

/// A part of the commands begins no more texts than all of them.
proof fn lemma_count_monotone(c: Seq<EditView>, n: int)
    requires
        0 <= n <= c.len(),
    ensures
        count_texts(c.take(n)) <= count_texts(c),
    decreases c.len(),
{
    if n < c.len() {
        assert(c.drop_last().take(n) =~= c.take(n));
        lemma_count_monotone(c.drop_last(), n);
    } else {
        assert(c.take(n) =~= c);
    }
}

/// The next step of a streamed commit.
pub enum StreamStep<'a> {
    /// The number of the latest revision is needed.
    LatestRev(StreamAwaitsRev<'a>),
    /// The kind of a node is needed.
    CheckPath(StreamAwaitsKind<'a>),
    /// Everything is known, and the commit is sent.
    Send(StreamSending),
}

impl<'a> StreamStep<'a> {
    /// The commit waits for what comes next, or nothing of it has been sent and its
    /// commands form a valid edit.
    pub open spec fn wf(self) -> bool {
        match self {
            StreamStep::LatestRev(a) => a.said().0.base_rev is None,
            StreamStep::CheckPath(a) => a.wf(),
            StreamStep::Send(s) => s.wf() && s@.at == 0 && s@.text is None && is_complete(
                s@.commit.commands,
            ) && tokens_once(s@.commit.commands),
        }
    }

    /// What the commit comes to, where `latest` is the latest revision and `kinds` says
    /// what stands in the repository.
    pub open spec fn outcome(
        self,
        latest: u64,
        kinds: spec_fn(Seq<char>, u64) -> NodeKind,
    ) -> Result<StreamView, ErrorView> {
        match self {
            StreamStep::LatestRev(a) => streamed_at(
                a.said().0,
                a.said().1,
                a.said().2,
                latest,
                kinds,
            ),
            StreamStep::CheckPath(a) => a.outcome(kinds),
            StreamStep::Send(s) => Ok(s@.commit),
        }
    }

    /// The step is where the commit stands, against `base_rev` and with texts encoded so.
    pub open spec fn is_at(self, n: StreamNextView, base_rev: u64, enc: Encoding) -> bool {
        match self {
            StreamStep::LatestRev(_) => false,
            StreamStep::CheckPath(a) => n == StreamNextView::Asks(a.stage()) && a.base_rev()
                == base_rev && a.enc() == enc,
            StreamStep::Send(s) => n == StreamNextView::Send(s@.commit),
        }
    }
}

/// A step is where the commit stands, or the commit is refused.
pub open spec fn stream_stands(
    r: Result<StreamStep, SvnError>,
    v: Result<StreamNextView, ErrorView>,
    base_rev: u64,
    enc: Encoding,
) -> bool {
    match r {
        Ok(step) => step.wf() && (v matches Ok(n) && step.is_at(n, base_rev, enc)),
        Err(e) => v == Err::<StreamNextView, ErrorView>(e.deep_view()),
    }
}

/// The first step is where the commit stands at first, or the commit is refused.
pub open spec fn stream_stands_first(
    r: Result<StreamStep, SvnError>,
    v: Result<(Encoding, StreamNextView), ErrorView>,
    base_rev: u64,
) -> bool {
    match r {
        Ok(step) => step.wf() && (v matches Ok((enc, n)) && step.is_at(n, base_rev, enc)),
        Err(e) => v == Err::<(Encoding, StreamNextView), ErrorView>(e.deep_view()),
    }
}

/// A step that goes on from `stage`, or why the commit is refused there.
spec fn goes_on(
    r: Result<StreamStep, SvnError>,
    stage: StreamStageView,
    base_rev: u64,
    enc: Encoding,
) -> bool {
    &&& stream_stands(r, stage.settled(base_rev, enc), base_rev, enc)
    &&& match r {
        Ok(step) => forall|
            latest: u64,
            kinds: spec_fn(Seq<char>, u64) -> NodeKind,
        | #[trigger]
            step.outcome(latest, kinds) == stage.outcome(base_rev, enc, kinds),
        Err(e) => forall|kinds: spec_fn(Seq<char>, u64) -> NodeKind| #[trigger]
            stage.outcome(base_rev, enc, kinds) == Err::<StreamView, ErrorView>(e.deep_view()),
    }
}

fn ask<'a>(path: String, base_rev: u64, enc: Encoding, stage: StreamStage<'a>) -> (r: StreamStep<
    'a,
>)
    requires
        stage.wf(),
        stage.said().asks() == Some(path@),
    ensures
        r.wf(),
        r.is_at(StreamNextView::Asks(stage.said()), base_rev, enc),
        forall|latest: u64, kinds: spec_fn(Seq<char>, u64) -> NodeKind| #[trigger]
            r.outcome(latest, kinds) == stage.said().outcome(base_rev, enc, kinds),
{
    StreamStep::CheckPath(StreamAwaitsKind { path, base_rev, enc, stage })
}

fn next_dir<'a>(
    plan: StreamPlan,
    needed: Vec<String>,
    i: usize,
    base_rev: u64,
    enc: Encoding,
) -> (r: Result<StreamStep<'a>, SvnError>)
    requires
        plan.wf(),
    ensures
        goes_on(
            r,
            StreamStageView::Dirs { plan: plan@, needed: needed.deep_view(), i: i as int },
            base_rev,
            enc,
        ),
{
    proof {
        lemma_from_dirs(plan@, needed.deep_view(), i as int, base_rev, enc);
        assert(needed.deep_view().len() == needed@.len());
    }
    if i < needed.len() {
        assert(needed.deep_view()[i as int] == needed@[i as int]@);
        return match validate_rel_dir_path(&needed[i]) {
            Ok(path) => Ok(ask(path, base_rev, enc, StreamStage::Dirs(plan, needed, i))),
            Err(e) => Err(e),
        };
    }
    match plan.commands(base_rev, enc) {
        Ok(commands) => {
            proof {
                plan.lemma_wf();
                texts_go_with_their_files(plan@.tasks, plan@.plans, base_rev, enc);
            }
            Ok(StreamStep::Send(StreamSending::new(commands, plan.into_order(), enc)))
        },
        Err(e) => Err(e),
    }
}

fn next_file<'a>(
    plan: StreamPlan,
    paths: &'a Vec<String>,
    i: usize,
    base_rev: u64,
    enc: Encoding,
) -> (r: Result<StreamStep<'a>, SvnError>)
    requires
        plan.wf(),
    ensures
        goes_on(
            r,
            StreamStageView::Files { plan: plan@, paths: paths.deep_view(), i: i as int },
            base_rev,
            enc,
        ),
{
    proof {
        lemma_from_files(plan@, paths.deep_view(), i as int, base_rev, enc);
        assert(paths.deep_view().len() == paths@.len());
    }
    if i < paths.len() {
        assert(paths.deep_view()[i as int] == paths@[i as int]@);
        return match validate_rel_path(&paths[i]) {
            Ok(path) => Ok(ask(path, base_rev, enc, StreamStage::Files(plan, paths, i))),
            Err(e) => Err(e),
        };
    }
    let needed = plan.needed_dirs();
    next_dir(plan, needed, 0, base_rev, enc)
}

fn begin_at<'a>(
    builder: &'a CommitStreamBuilder,
    svndiff1: bool,
    svndiff2: bool,
    base_rev: u64,
) -> (r: Result<StreamStep<'a>, SvnError>)
    ensures
        stream_stands_first(r, stream_started(builder@, svndiff1, svndiff2, base_rev), base_rev),
        match r {
            Ok(step) => forall|
                latest: u64,
                kinds: spec_fn(Seq<char>, u64) -> NodeKind,
            | #[trigger]
                step.outcome(latest, kinds) == streamed_at(
                    builder@,
                    svndiff1,
                    svndiff2,
                    base_rev,
                    kinds,
                ),
            Err(e) => forall|kinds: spec_fn(Seq<char>, u64) -> NodeKind| #[trigger]
                streamed_at(builder@, svndiff1, svndiff2, base_rev, kinds) == Err::<
                    StreamView,
                    ErrorView,
                >(e.deep_view()),
        },
{
    match builder.encoding(svndiff1, svndiff2) {
        Ok(enc) => {
            let plan = StreamPlan::new();
            let ghost stage = StreamStageView::Files { plan: plan@, paths: builder@.paths, i: 0 };
            assert forall|kinds: spec_fn(Seq<char>, u64) -> NodeKind| #[trigger]
                streamed_at(builder@, svndiff1, svndiff2, base_rev, kinds) == stage.outcome(
                    base_rev,
                    enc,
                    kinds,
                ) by {}
            next_file(plan, builder.paths(), 0, base_rev, enc)
        },
        Err(e) => Err(e),
    }
}

impl CommitStreamBuilder {
    /// Begins the commit, for a server that does or does not understand the versions 1
    /// and 2 of the delta format. The latest revision is asked for only where no revision
    /// was set.
    pub fn commit(&self, svndiff1: bool, svndiff2: bool) -> (r: Result<StreamStep<'_>, SvnError>)
        ensures
            match settings_checked(self@.paths.len(), self@.zlib_level) {
                Err(e) => r matches Err(x) && x.deep_view() == e,
                Ok(_) => match self@.base_rev {
                    None => r matches Ok(StreamStep::LatestRev(a)) && a.said() == (
                        self@,
                        svndiff1,
                        svndiff2,
                    ),
                    Some(rev) => stream_stands_first(
                        r,
                        stream_started(self@, svndiff1, svndiff2, rev),
                        rev,
                    ),
                },
            },
            match r {
                Ok(step) => step.wf() && forall|
                    latest: u64,
                    kinds: spec_fn(Seq<char>, u64) -> NodeKind,
                | #[trigger]
                    step.outcome(latest, kinds) == streamed(
                        self@,
                        svndiff1,
                        svndiff2,
                        latest,
                        kinds,
                    ),
                Err(e) => forall|latest: u64, kinds: spec_fn(Seq<char>, u64) -> NodeKind| #[trigger]
                    streamed(self@, svndiff1, svndiff2, latest, kinds) == Err::<
                        StreamView,
                        ErrorView,
                    >(e.deep_view()),
            },
    {
        match self.check() {
            Ok(_) => {},
            Err(e) => {
                return Err(e);
            },
        }
        match self.base_rev() {
            Some(rev) => begin_at(self, svndiff1, svndiff2, rev),
            None => Ok(
                StreamStep::LatestRev(StreamAwaitsRev { builder: self, svndiff1, svndiff2 }),
            ),
        }
    }
}

impl<'a> StreamAwaitsRev<'a> {
    /// Takes the number of the latest revision.
    pub fn answer(self, latest: u64) -> (r: Result<StreamStep<'a>, SvnError>)
        ensures
            stream_stands_first(
                r,
                stream_started(self.said().0, self.said().1, self.said().2, latest),
                latest,
            ),
            match r {
                Ok(step) => forall|
                    later: u64,
                    kinds: spec_fn(Seq<char>, u64) -> NodeKind,
                | #[trigger]
                    step.outcome(later, kinds) == streamed_at(
                        self.said().0,
                        self.said().1,
                        self.said().2,
                        latest,
                        kinds,
                    ),
                Err(e) => forall|kinds: spec_fn(Seq<char>, u64) -> NodeKind| #[trigger]
                    streamed_at(self.said().0, self.said().1, self.said().2, latest, kinds)
                        == Err::<StreamView, ErrorView>(e.deep_view()),
            },
    {
        begin_at(self.builder, self.svndiff1, self.svndiff2, latest)
    }
}

impl<'a> StreamAwaitsKind<'a> {
    /// The path of the node.
    pub fn path(&self) -> (r: &str)
        requires
            self.wf(),
        ensures
            r@ == self.asks(),
    {
        self.path.as_str()
    }

    /// The revision of the node.
    pub fn rev(&self) -> (r: u64)
        ensures
            r == self.base_rev(),
    {
        self.base_rev
    }

    /// Takes the kind of the node, and goes on to the next one that is asked for. What the
    /// commit comes to does not change, whatever stands in the repository elsewhere.
    pub fn answer(self, kind: NodeKind) -> (r: Result<StreamStep<'a>, SvnError>)
        requires
            self.wf(),
        ensures
            stream_stands(
                r,
                self.stage().next(self.base_rev(), self.enc(), kind),
                self.base_rev(),
                self.enc(),
            ),
            r matches Ok(StreamStep::CheckPath(a)) ==> self.stage().before(a.stage()),
            match r {
                Ok(step) => forall|
                    latest: u64,
                    kinds: spec_fn(Seq<char>, u64) -> NodeKind,
                |
                    kinds(self.asks(), self.base_rev()) == kind ==> #[trigger] step.outcome(
                        latest,
                        kinds,
                    ) == self.outcome(kinds),
                Err(e) => forall|kinds: spec_fn(Seq<char>, u64) -> NodeKind|
                    kinds(self.asks(), self.base_rev()) == kind ==> #[trigger] self.outcome(kinds)
                        == Err::<StreamView, ErrorView>(e.deep_view()),
            },
    {
        let base_rev = self.base_rev;
        let enc = self.enc;
        proof {
            stream_answers_come_nearer(self.stage(), base_rev, enc, kind);
        }
        match self.stage {
            StreamStage::Files(plan, paths, i) => {
                let mut plan = plan;
                let _count = paths.len();
                proof {
                    lemma_from_files(plan@, paths.deep_view(), i as int, base_rev, enc);
                    assert(paths.deep_view().len() == paths@.len());
                    assert(paths.deep_view()[i as int] == paths@[i as int]@);
                }
                match plan.add_file(&paths[i], kind) {
                    Ok(_) => next_file(plan, paths, i + 1, base_rev, enc),
                    Err(e) => Err(e),
                }
            },
            StreamStage::Dirs(plan, needed, i) => {
                let mut plan = plan;
                let _count = needed.len();
                proof {
                    lemma_from_dirs(plan@, needed.deep_view(), i as int, base_rev, enc);
                    assert(needed.deep_view().len() == needed@.len());
                    assert(needed.deep_view()[i as int] == needed@[i as int]@);
                }
                match plan.resolve_dir(&needed[i], kind) {
                    Ok(_) => next_dir(plan, needed, i + 1, base_rev, enc),
                    Err(e) => Err(e),
                }
            },
        }
    }
}

} // verus!
