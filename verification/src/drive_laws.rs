//! What an editor drive must look like, and that the drive of a commit does.

use vstd::prelude::*;

use crate::commit_drive::{
    begun, chunks_sent, closed_to, common, dir_opened, dir_props_sent, dirs_opened,
    file_opening, file_props_sent, gone_to, task_done, tasks_done, text_sent,
    whole_drive,
    DirPlanView, DriveView, Encoding, FileTextView, PropView, TaskView, CHUNK_SIZE,
};
use crate::editor::EditView;
use crate::fulltext::fulltext_delta;
use crate::task_order::{is_chain, lemma_one_way, lemma_task_chain, together};

verus! {

/// What an editor knows in the course of a drive: the tokens of the directories that
/// are open, outermost first; the token of the file that is open, and whether a text is
/// being sent for it; and whether the drive is complete.
pub struct EditorState {
    pub dirs: Seq<Seq<char>>,
    pub file: Option<(Seq<char>, bool)>,
    pub done: bool,
}

/// The directory that a command enters.
pub open spec fn enters(c: EditView) -> Option<Seq<char>> {
    match c {
        EditView::AddDir { path, .. } => Some(path),
        EditView::OpenDir { path, .. } => Some(path),
        _ => None,
    }
}

/// No directory is entered twice.
pub open spec fn entered_once(commands: Seq<EditView>) -> bool {
    forall|i: int, j: int|
        #![trigger commands[i], commands[j]]
        0 <= i < j < commands.len() && enters(commands[i]) is Some ==> enters(commands[i])
            != enters(commands[j])
}

impl EditorState {
    /// A command may speak of the directory `token`: it is open innermost.
    pub open spec fn at(self, token: Seq<char>) -> bool {
        &&& !self.done
        &&& self.file is None
        &&& self.dirs.len() > 0
        &&& self.dirs.last() == token
    }

    /// What the editor knows after a command, if the command may come now.
    pub open spec fn after(self, c: EditView) -> Option<EditorState> {
        match c {
            EditView::AddDir { parent_token, child_token, .. } => if self.at(parent_token) {
                Some(EditorState { dirs: self.dirs.push(child_token), ..self })
            } else {
                None
            },
            EditView::OpenDir { parent_token, child_token, .. } => if self.at(parent_token) {
                Some(EditorState { dirs: self.dirs.push(child_token), ..self })
            } else {
                None
            },
            EditView::DeleteEntry { dir_token, .. } => if self.at(dir_token) {
                Some(self)
            } else {
                None
            },
            EditView::ChangeDirProp { dir_token, .. } => if self.at(dir_token) {
                Some(self)
            } else {
                None
            },
            EditView::CloseDir { dir_token } => if self.at(dir_token) {
                Some(EditorState { dirs: self.dirs.drop_last(), ..self })
            } else {
                None
            },
            EditView::AddFile { dir_token, file_token, .. } => if self.at(dir_token) {
                Some(EditorState { file: Some((file_token, false)), ..self })
            } else {
                None
            },
            EditView::OpenFile { dir_token, file_token, .. } => if self.at(dir_token) {
                Some(EditorState { file: Some((file_token, false)), ..self })
            } else {
                None
            },
            EditView::ApplyTextDelta { file_token, .. } => if self.file == Some(
                (file_token, false),
            ) {
                Some(EditorState { file: Some((file_token, true)), ..self })
            } else {
                None
            },
            EditView::TextDeltaChunk { file_token, .. } => if self.file == Some(
                (file_token, true),
            ) {
                Some(self)
            } else {
                None
            },
            EditView::TextDeltaEnd { file_token } => if self.file == Some((file_token, true)) {
                Some(EditorState { file: Some((file_token, false)), ..self })
            } else {
                None
            },
            EditView::ChangeFileProp { file_token, .. } => if self.file == Some(
                (file_token, false),
            ) {
                Some(self)
            } else {
                None
            },
            EditView::CloseFile { file_token, .. } => if self.file == Some((file_token, false)) {
                Some(EditorState { file: None, ..self })
            } else {
                None
            },
            EditView::CloseEdit => if !self.done && self.file is None && self.dirs.len() == 0 {
                Some(EditorState { done: true, ..self })
            } else {
                None
            },
            _ => None,
        }
    }
}

/// What an editor knows after commands of which the first opens the root, if each may
/// come when it does.
pub open spec fn editor_after(commands: Seq<EditView>) -> Option<EditorState>
    decreases commands.len(),
{
    if commands.len() == 0 {
        None
    } else if commands.len() == 1 {
        match commands[0] {
            EditView::OpenRoot { token, .. } => Some(
                EditorState {
                    dirs: seq![token],
                    file: None,
                    done: false,
                },
            ),
            _ => None,
        }
    } else {
        match editor_after(commands.drop_last()) {
            Some(s) => s.after(commands.last()),
            None => None,
        }
    }
}

/// A drive is complete: each command comes when it may, everything that was opened is
/// closed, and the edit is closed last.
pub open spec fn is_complete(commands: Seq<EditView>) -> bool {
    editor_after(commands) matches Some(s) && s.done && s.dirs.len() == 0 && s.file is None
}

/// The tokens of the open directories.
spec fn tokens(dirs: Seq<(Seq<char>, Seq<char>)>) -> Seq<Seq<char>> {
    dirs.map_values(|d: (Seq<char>, Seq<char>)| d.1)
}

/// The editor knows what the drive has done, with this file open.
pub(crate) closed spec fn in_step(s: DriveView, file: Option<(Seq<char>, bool)>) -> bool {
    &&& s.out.len() > 0
    &&& editor_after(s.out) matches Some(e)
    &&& e.dirs == tokens(s.dirs)
    &&& e.file == file
    &&& !e.done
}

/// The directories that the drive has entered.
#[verifier::opaque]
pub(crate) closed spec fn seen(s: DriveView) -> Set<Seq<char>> {
    Set::new(|d: Seq<char>| exists|i: int| 0 <= i < s.out.len() && enters(s.out[i]) == Some(d))
}

/// The drive has entered no directory twice.
#[verifier::opaque]
pub(crate) closed spec fn once(s: DriveView) -> bool {
    entered_once(s.out)
}

/// What was sent says what was entered.
proof fn lemma_same_out(s: DriveView, t: DriveView)
    requires
        s.out == t.out,
    ensures
        seen(s) == seen(t),
        once(s) == once(t),
{
    reveal(seen);
    reveal(once);
}

/// The drive stands at the end of these directories.
pub(crate) open spec fn stands_at(s: DriveView, dirs: Seq<Seq<char>>) -> bool {
    &&& s.dirs.len() == dirs.len() + 1
    &&& forall|k: int| 0 <= k < dirs.len() ==> (#[trigger] s.dirs[k + 1]).0 == dirs[k]
}

proof fn lemma_send(s: DriveView, c: EditView)
    requires
        s.out.len() > 0,
    ensures
        editor_after(s.send(c).out) == (match editor_after(s.out) {
            Some(e) => e.after(c),
            None => None,
        }),
        enters(c) is None ==> seen(s.send(c)) == seen(s) && once(s.send(c)) == once(s),
        enters(c) matches Some(d) ==> seen(s.send(c)) == seen(s).insert(d) && (once(s)
            && !seen(s).contains(d) ==> once(s.send(c))),
{
    let t = s.send(c);
    assert(t.out.drop_last() =~= s.out);
    reveal(seen);
    reveal(once);
    assert(t.out == s.out.push(c));
    assert forall|d: Seq<char>| seen(t).contains(d) implies seen(s).contains(d) || enters(c)
        == Some(d) by {
        let i = choose|i: int| 0 <= i < t.out.len() && enters(t.out[i]) == Some(d);
        if i < s.out.len() {
            assert(t.out[i] == s.out[i]);
        }
    }
    assert forall|d: Seq<char>| seen(s).contains(d) || enters(c) == Some(d) implies seen(
        t,
    ).contains(d) by {
        if seen(s).contains(d) {
            let i = choose|i: int| 0 <= i < s.out.len() && enters(s.out[i]) == Some(d);
            assert(t.out[i] == s.out[i]);
        } else {
            assert(t.out[s.out.len() as int] == c);
        }
    }
    if enters(c) is None {
        assert(seen(t) =~= seen(s));
        if once(t) {
            assert forall|i: int, j: int|
                #![trigger s.out[i], s.out[j]]
                0 <= i < j < s.out.len() && enters(s.out[i]) is Some implies enters(s.out[i])
                != enters(s.out[j]) by {
                assert(t.out[i] == s.out[i] && t.out[j] == s.out[j]);
            }
        }
    } else {
        assert(seen(t) =~= seen(s).insert(enters(c)->0));
    }
    if once(s) && (enters(c) matches Some(d) ==> !seen(s).contains(d)) {
        assert forall|i: int, j: int|
            #![trigger t.out[i], t.out[j]]
            0 <= i < j < t.out.len() && enters(t.out[i]) is Some implies enters(t.out[i])
            != enters(t.out[j]) by {
            assert(t.out[i] == s.out[i]);
            if j < s.out.len() {
                assert(t.out[j] == s.out[j]);
            }
        }
    }
}

proof fn lemma_closed(s: DriveView, n: int)
    requires
        in_step(s, None),
        n > 0,
    ensures
        in_step(closed_to(s, n), None),
        seen(closed_to(s, n)) == seen(s),
        once(closed_to(s, n)) == once(s),
        s.dirs.len() > 0 ==> closed_to(s, n).dirs.len() > 0,
        s.dirs.len() >= n ==> closed_to(s, n).dirs == s.dirs.take(n),
    decreases s.dirs.len(),
{
    if s.dirs.len() > n {
        let c = EditView::CloseDir { dir_token: s.here() };
        lemma_send(s, c);
        let t = DriveView { dirs: s.dirs.drop_last(), ..s.send(c) };
        lemma_same_out(t, s.send(c));
        assert(tokens(t.dirs) =~= tokens(s.dirs).drop_last());
        lemma_closed(t, n);
        assert(s.dirs.drop_last().take(n) =~= s.dirs.take(n));
    } else {
        assert(s.dirs.len() >= n ==> s.dirs.take(n) =~= s.dirs);
    }
}

proof fn lemma_opened(
    s: DriveView,
    targets: Seq<Seq<char>>,
    k: int,
    plans: Map<Seq<char>, DirPlanView>,
    rev: u64,
    fresh: bool,
)
    requires
        in_step(s, None),
        0 <= k <= targets.len(),
        stands_at(s, targets.take(k)),
        is_chain(targets),
        fresh ==> once(s) && forall|m: int|
            k <= m < targets.len() ==> !seen(s).contains(#[trigger] targets[m]),
    ensures
        dirs_opened(s, targets, k, plans, rev) matches Ok(t) ==> in_step(t, None) && stands_at(
            t,
            targets,
        ) && (fresh ==> once(t)) && forall|d: Seq<char>| #[trigger]
            seen(t).contains(d) ==> seen(s).contains(d) || targets.contains(d),
    decreases targets.len() - k,
{
    if k < targets.len() {
        if plans.dom().contains(targets[k]) {
            let plan = plans[targets[k]];
            let t = dir_opened(s, targets[k], plan, rev);
            let c = t.out.last();
            assert(t.out =~= s.send(c).out);
            lemma_send(s, c);
            lemma_same_out(t, s.send(c));
            assert(tokens(t.dirs) =~= tokens(s.dirs).push(s.dir_token()));
            assert(seen(t) == seen(s).insert(targets[k]));
            assert forall|m: int| fresh && k + 1 <= m < targets.len() implies !seen(t).contains(
                #[trigger] targets[m],
            ) by {
                if targets[m] == targets[k] {
                    lemma_one_way(targets, m, targets, k);
                }
            }
            assert(stands_at(t, targets.take(k + 1))) by {
                assert forall|m: int| 0 <= m < k + 1 implies (#[trigger] t.dirs[m + 1]).0
                    == targets.take(k + 1)[m] by {
                    if m < k {
                        assert(t.dirs[m + 1] == s.dirs[m + 1]);
                        assert(targets.take(k)[m] == targets[m]);
                    }
                }
            }
            assert(targets.contains(targets[k]));
            lemma_opened(t, targets, k + 1, plans, rev, fresh);
        }
    } else {
        assert(targets.take(k) =~= targets);
    }
}

proof fn lemma_common(s: DriveView, here: Seq<Seq<char>>, targets: Seq<Seq<char>>, k: int)
    requires
        stands_at(s, here),
        0 <= k <= here.len(),
        k <= targets.len(),
        here.take(k) == targets.take(k),
    ensures
        ({
            let n = common(s.dirs, targets, k);
            &&& k <= n <= here.len()
            &&& n <= targets.len()
            &&& here.take(n) == targets.take(n)
            &&& n < here.len() && n < targets.len() ==> here[n] != targets[n]
        }),
    decreases targets.len() - k,
{
    if k < targets.len() && k + 1 < s.dirs.len() && s.dirs[k + 1].0 == targets[k] {
        assert(here.take(k + 1) =~= here.take(k).push(here[k]));
        assert(targets.take(k + 1) =~= targets.take(k).push(targets[k]));
        lemma_common(s, here, targets, k + 1);
    } else if k < here.len() && k < targets.len() {
        assert(s.dirs[k + 1].0 == here[k]);
    }
}

proof fn lemma_dir_props(s: DriveView, props: Seq<PropView>, n: int)
    requires
        in_step(s, None),
        s.dirs.len() > 0,
    ensures
        in_step(dir_props_sent(s, props, n), None),
        dir_props_sent(s, props, n).dirs == s.dirs,
        seen(dir_props_sent(s, props, n)) == seen(s),
        once(dir_props_sent(s, props, n)) == once(s),
    decreases n,
{
    if 0 < n <= props.len() {
        lemma_dir_props(s, props, n - 1);
        let t = dir_props_sent(s, props, n - 1);
        let c = EditView::ChangeDirProp {
            dir_token: s.here(),
            name: props[n - 1].name,
            value: props[n - 1].value,
        };
        lemma_send(t, c);
    }
}

proof fn lemma_file_props(s: DriveView, token: Seq<char>, props: Seq<PropView>, n: int)
    requires
        in_step(s, Some((token, false))),
    ensures
        in_step(file_props_sent(s, token, props, n), Some((token, false))),
        file_props_sent(s, token, props, n).dirs == s.dirs,
        seen(file_props_sent(s, token, props, n)) == seen(s),
        once(file_props_sent(s, token, props, n)) == once(s),
    decreases n,
{
    if 0 < n <= props.len() {
        lemma_file_props(s, token, props, n - 1);
        let t = file_props_sent(s, token, props, n - 1);
        let c = EditView::ChangeFileProp {
            file_token: token,
            name: props[n - 1].name,
            value: props[n - 1].value,
        };
        lemma_send(t, c);
    }
}

proof fn lemma_chunks(s: DriveView, token: Seq<char>, delta: Seq<u8>)
    requires
        in_step(s, Some((token, true))),
    ensures
        in_step(chunks_sent(s, token, delta), Some((token, true))),
        chunks_sent(s, token, delta).dirs == s.dirs,
        seen(chunks_sent(s, token, delta)) == seen(s),
        once(chunks_sent(s, token, delta)) == once(s),
    decreases delta.len(),
{
    if delta.len() > 0 {
        let n: int = if delta.len() < CHUNK_SIZE {
            delta.len() as int
        } else {
            CHUNK_SIZE as int
        };
        let c = EditView::TextDeltaChunk { file_token: token, chunk: delta.take(n) };
        lemma_send(s, c);
        lemma_chunks(s.send(c), token, delta.skip(n));
    }
}

proof fn lemma_text(s: DriveView, token: Seq<char>, text: FileTextView, enc: Encoding)
    requires
        in_step(s, Some((token, false))),
    ensures
        text_sent(s, token, text, enc) matches Ok(t) ==> in_step(t, Some((token, false)))
            && t.dirs == s.dirs && seen(t) == seen(s) && once(t) == once(s),
{
    let begin = EditView::ApplyTextDelta { file_token: token, base_checksum: None };
    let end = EditView::TextDeltaEnd { file_token: token };
    let t = s.send(begin);
    lemma_send(s, begin);
    match text {
        FileTextView::Keep => {},
        FileTextView::Later => {
            lemma_send(t, end);
        },
        FileTextView::Bytes(b) => {
            if let Ok(delta) = fulltext_delta(enc.version, b, enc.level, enc.window_size as nat) {
                lemma_chunks(t, token, delta);
                lemma_send(chunks_sent(t, token, delta), end);
            }
        },
    }
}

proof fn lemma_task(s: DriveView, task: TaskView, rev: u64, enc: Encoding)
    requires
        in_step(s, None),
        s.dirs.len() > 0,
    ensures
        task_done(s, task, rev, enc) matches Ok(t) ==> in_step(t, None) && t.dirs == s.dirs
            && seen(t) == seen(s) && once(t) == once(s),
{
    match task {
        TaskView::Dir { props, .. } => {
            lemma_dir_props(s, props, props.len() as int);
        },
        TaskView::Delete { path } => {
            lemma_send(s, EditView::DeleteEntry { path, rev, dir_token: s.here() });
        },
        TaskView::File { path, exists, copy_from, text, props } => {
            let token = s.file_token();
            let c = file_opening(s, path, exists, copy_from, rev);
            let t = DriveView { next_file: s.next_file + 1, ..s.send(c) };
            lemma_send(s, c);
            lemma_same_out(t, s.send(c));
            assert(in_step(t, Some((token, false))));
            lemma_text(t, token, text, enc);
            if let Ok(u) = text_sent(t, token, text, enc) {
                lemma_file_props(u, token, props, props.len() as int);
                lemma_send(
                    file_props_sent(u, token, props, props.len() as int),
                    EditView::CloseFile { file_token: token, text_checksum: None },
                );
            }
        },
    }
}

/// The root stays open at the bottom.
pub(crate) open spec fn rooted(s: DriveView) -> bool {
    s.dirs.len() > 0 && s.dirs[0].1 == "r"@
}

proof fn lemma_opened_rooted(
    s: DriveView,
    targets: Seq<Seq<char>>,
    k: int,
    plans: Map<Seq<char>, DirPlanView>,
    rev: u64,
)
    requires
        rooted(s),
    ensures
        dirs_opened(s, targets, k, plans, rev) matches Ok(t) ==> rooted(t),
    decreases targets.len() - k,
{
    if 0 <= k < targets.len() && plans.dom().contains(targets[k]) {
        lemma_opened_rooted(
            dir_opened(s, targets[k], plans[targets[k]], rev),
            targets,
            k + 1,
            plans,
            rev,
        );
    }
}

/// Where the drive stands after the first `n` tasks.
pub(crate) open spec fn last_dirs(tasks: Seq<TaskView>, n: int) -> Seq<Seq<char>> {
    if 0 < n <= tasks.len() {
        tasks[n - 1].dirs()
    } else {
        Seq::empty()
    }
}

/// A directory that the next task enters has not been entered for an earlier one, unless
/// it is still open.
proof fn lemma_not_seen(tasks: Seq<TaskView>, n: int, k: int, m: int, i: int)
    requires
        together(tasks),
        0 <= i < n < tasks.len(),
        0 <= k <= m < tasks[n].dirs().len(),
        k <= last_dirs(tasks, n).len(),
        k < last_dirs(tasks, n).len() ==> last_dirs(tasks, n)[k] != tasks[n].dirs()[k],
    ensures
        !tasks[i].dirs().contains(tasks[n].dirs()[m]),
{
    let a = tasks[i].dirs();
    let b = tasks[n - 1].dirs();
    let c = tasks[n].dirs();
    if a.contains(c[m]) {
        lemma_task_chain(tasks[n - 1]);
        lemma_task_chain(tasks[n]);
        assert(c.contains(c[m]));
        assert(b.contains(c[m]));
        let x = choose|x: int| 0 <= x < b.len() && b[x] == c[m];
        lemma_one_way(b, x, c, m);
        assert(b.take(m + 1)[k] == c.take(m + 1)[k]);
    }
}

pub(crate) proof fn lemma_tasks(
    tasks: Seq<TaskView>,
    n: int,
    plans: Map<Seq<char>, DirPlanView>,
    rev: u64,
    enc: Encoding,
)
    requires
        0 <= n <= tasks.len(),
    ensures
        tasks_done(tasks, n, plans, rev, enc) matches Ok(t) ==> in_step(t, None) && rooted(t)
            && stands_at(t, last_dirs(tasks, n)) && (together(tasks) ==> once(t)) && forall|
            d: Seq<char>,
        | #[trigger]
            seen(t).contains(d) ==> exists|i: int|
                0 <= i < n && (#[trigger] tasks[i]).dirs().contains(d),
    decreases n,
{
    if n > 0 {
        lemma_tasks(tasks, n - 1, plans, rev, enc);
        if let Ok(s) = tasks_done(tasks, n - 1, plans, rev, enc) {
            let here = last_dirs(tasks, n - 1);
            let targets = tasks[n - 1].dirs();
            let k = common(s.dirs, targets, 0);
            assert(here.take(0) =~= targets.take(0));
            lemma_common(s, here, targets, 0);
            lemma_closed(s, k + 1);
            let c = closed_to(s, k + 1);
            lemma_unclosed(s, k + 1);
            lemma_task_chain(tasks[n - 1]);
            let fresh = together(tasks);
            assert forall|m: int| fresh && k <= m < targets.len() implies !seen(c).contains(
                #[trigger] targets[m],
            ) by {
                if seen(c).contains(targets[m]) {
                    let i = choose|i: int|
                        0 <= i < n - 1 && (#[trigger] tasks[i]).dirs().contains(targets[m]);
                    lemma_not_seen(tasks, n - 1, k, m, i);
                }
            }
            assert(stands_at(c, targets.take(k))) by {
                assert forall|m: int| 0 <= m < k implies (#[trigger] c.dirs[m + 1]).0
                    == targets.take(k)[m] by {
                    assert(c.dirs[m + 1] == s.dirs[m + 1]);
                    assert(here.take(k)[m] == here[m]);
                }
            }
            lemma_opened(c, targets, k, plans, rev, fresh);
            lemma_opened_rooted(c, targets, k, plans, rev);
            if let Ok(t) = gone_to(s, targets, plans, rev) {
                lemma_task(t, tasks[n - 1], rev, enc);
                if let Ok(u) = task_done(t, tasks[n - 1], rev, enc) {
                    assert forall|d: Seq<char>| #[trigger] seen(u).contains(d) implies exists|
                        i: int,
                    |
                        0 <= i < n && (#[trigger] tasks[i]).dirs().contains(d) by {
                        if seen(s).contains(d) {
                            let i = choose|i: int|
                                0 <= i < n - 1 && (#[trigger] tasks[i]).dirs().contains(d);
                            assert(tasks[i].dirs().contains(d));
                        } else {
                            assert(tasks[n - 1].dirs().contains(d));
                        }
                    }
                }
            }
        }
    } else {
        let s = begun(rev);
        assert(tokens(s.dirs) =~= seq!["r"@]);
        reveal(seen);
        reveal(once);
    }
}

/// Closing keeps the root.
proof fn lemma_unclosed(s: DriveView, n: int)
    requires
        rooted(s),
        n > 0,
    ensures
        rooted(closed_to(s, n)),
    decreases s.dirs.len(),
{
    if s.dirs.len() > n {
        let c = EditView::CloseDir { dir_token: s.here() };
        lemma_unclosed(DriveView { dirs: s.dirs.drop_last(), ..s.send(c) }, n);
    }
}

/// The drive of tasks is complete and in order: it opens the root first; every directory
/// and file is opened inside the directory that is open innermost; changes speak of what
/// is open innermost; everything that is opened is closed, innermost first; and the drive
/// ends with closing the edit. Where the order of the tasks does not ask for it, no
/// directory is entered twice.
pub proof fn commit_drives_are_in_order(
    tasks: Seq<TaskView>,
    plans: Map<Seq<char>, DirPlanView>,
    rev: u64,
    enc: Encoding,
)
    ensures
        whole_drive(tasks, plans, rev, enc) matches Ok(commands) ==> is_complete(commands) && (
        together(tasks) ==> entered_once(commands)),
{
    lemma_tasks(tasks, tasks.len() as int, plans, rev, enc);
    if let Ok(s) = tasks_done(tasks, tasks.len() as int, plans, rev, enc) {
        lemma_closed(s, 1);
        lemma_unclosed(s, 1);
        let c = closed_to(s, 1);
        assert(c.dirs.len() == 1);
        assert(c.here() == "r"@);
        let close = EditView::CloseDir { dir_token: "r"@ };
        lemma_send(c, close);
        assert(tokens(c.dirs).drop_last() =~= Seq::<Seq<char>>::empty());
        lemma_send(c.send(close), EditView::CloseEdit);
        reveal(once);
    }
}

} // verus!
