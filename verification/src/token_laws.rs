//! The tokens of a drive: no two commands introduce the same one.

use vstd::prelude::*;

use crate::commit_drive::{
    begun, chunks_sent, closed_to, common, dir_opened, dir_props_sent, dirs_opened,
    file_opening, file_props_sent, gone_to, task_done, tasks_done, text_sent, whole_drive,
    DirPlanView, DriveView, Encoding, FileTextView, PropView, TaskView, CHUNK_SIZE,
};
use crate::editor::EditView;
use crate::fulltext::fulltext_delta;
use crate::text::{decimal, lemma_decimal};

verus! {

/// The token that a command introduces.
pub open spec fn introduces(c: EditView) -> Option<Seq<char>> {
    match c {
        EditView::OpenRoot { token, .. } => Some(token),
        EditView::AddDir { child_token, .. } => Some(child_token),
        EditView::OpenDir { child_token, .. } => Some(child_token),
        EditView::AddFile { file_token, .. } => Some(file_token),
        EditView::OpenFile { file_token, .. } => Some(file_token),
        _ => None,
    }
}

/// No two commands introduce the same token.
pub open spec fn tokens_once(commands: Seq<EditView>) -> bool {
    forall|i: int, j: int|
        #![trigger commands[i], commands[j]]
        0 <= i < j < commands.len() && introduces(commands[i]) is Some ==> introduces(commands[i])
            != introduces(commands[j])
}

/// The token of the `k`-th directory.
spec fn nth_dir(k: nat) -> Seq<char> {
    "d"@ + decimal(k)
}

/// The token of the `k`-th file.
spec fn nth_file(k: nat) -> Seq<char> {
    "f"@ + decimal(k)
}

/// A token has been given out.
spec fn given(s: DriveView, t: Seq<char>) -> bool {
    ||| t == "r"@
    ||| exists|k: nat| k <= s.next_dir && t == #[trigger] nth_dir(k)
    ||| exists|k: nat| k <= s.next_file && t == #[trigger] nth_file(k)
}

/// The tokens that were introduced are those that have been given out, each once.
#[verifier::opaque]
spec fn numbered(s: DriveView) -> bool {
    &&& tokens_once(s.out)
    &&& forall|i: int|
        0 <= i < s.out.len() ==> (introduces(#[trigger] s.out[i]) matches Some(t) ==> given(s, t))
}

/// Different numbers have different decimal forms.
proof fn lemma_another(a: nat, b: nat)
    requires
        a != b,
    ensures
        nth_dir(a) != nth_dir(b),
        nth_file(a) != nth_file(b),
{
    lemma_decimal(a);
    lemma_decimal(b);
    reveal_strlit("d");
    reveal_strlit("f");
    assert(nth_dir(a).skip(1) =~= decimal(a));
    assert(nth_dir(b).skip(1) =~= decimal(b));
    assert(nth_file(a).skip(1) =~= decimal(a));
    assert(nth_file(b).skip(1) =~= decimal(b));
}

/// The token of the next directory and that of the next file are new.
proof fn lemma_new(s: DriveView)
    ensures
        !given(s, s.dir_token()),
        !given(s, s.file_token()),
{
    reveal_strlit("r");
    reveal_strlit("d");
    reveal_strlit("f");
    let d = s.dir_token();
    let f = s.file_token();
    assert(d == nth_dir(s.next_dir + 1));
    assert(f == nth_file(s.next_file + 1));
    assert(d[0] == 'd' && f[0] == 'f' && "r"@[0] == 'r');
    assert forall|k: nat| k <= s.next_dir implies d != #[trigger] nth_dir(k) && f != nth_dir(k) by {
        lemma_another(k, s.next_dir + 1);
        assert(nth_dir(k)[0] == 'd');
    }
    assert forall|k: nat| k <= s.next_file implies d != #[trigger] nth_file(k) && f != nth_file(
        k,
    ) by {
        lemma_another(k, s.next_file + 1);
        assert(nth_file(k)[0] == 'f');
    }
}

/// A command comes that introduces a token that has just been given out, or none.
proof fn lemma_sent(s: DriveView, t: DriveView, c: EditView)
    requires
        numbered(s),
        t.out == s.out.push(c),
        s.next_dir <= t.next_dir,
        s.next_file <= t.next_file,
        introduces(c) matches Some(x) ==> !given(s, x) && given(t, x),
    ensures
        numbered(t),
{
    reveal(numbered);
    assert forall|i: int| 0 <= i < t.out.len() implies (introduces(
        #[trigger] t.out[i],
    ) matches Some(x) ==> given(t, x)) by {
        if i < s.out.len() {
            assert(t.out[i] == s.out[i]);
        }
    }
    assert forall|i: int, j: int|
        #![trigger t.out[i], t.out[j]]
        0 <= i < j < t.out.len() && introduces(t.out[i]) is Some implies introduces(t.out[i])
        != introduces(t.out[j]) by {
        assert(t.out[i] == s.out[i]);
        if j < s.out.len() {
            assert(t.out[j] == s.out[j]);
        }
    }
}

proof fn lemma_closed(s: DriveView, n: int)
    requires
        numbered(s),
    ensures
        numbered(closed_to(s, n)),
    decreases s.dirs.len(),
{
    if s.dirs.len() > n && s.dirs.len() > 0 {
        let c = EditView::CloseDir { dir_token: s.here() };
        let t = DriveView { dirs: s.dirs.drop_last(), ..s.send(c) };
        lemma_sent(s, t, c);
        lemma_closed(t, n);
    }
}

proof fn lemma_opened(
    s: DriveView,
    targets: Seq<Seq<char>>,
    k: int,
    plans: Map<Seq<char>, DirPlanView>,
    rev: u64,
)
    requires
        numbered(s),
    ensures
        dirs_opened(s, targets, k, plans, rev) matches Ok(t) ==> numbered(t),
    decreases targets.len() - k,
{
    if 0 <= k < targets.len() && plans.dom().contains(targets[k]) {
        let t = dir_opened(s, targets[k], plans[targets[k]], rev);
        let c = t.out.last();
        lemma_new(s);
        assert(t.out =~= s.out.push(c));
        assert(given(t, s.dir_token())) by {
            assert(s.dir_token() == nth_dir(t.next_dir));
        }
        lemma_sent(s, t, c);
        lemma_opened(t, targets, k + 1, plans, rev);
    }
}

proof fn lemma_dir_props(s: DriveView, props: Seq<PropView>, n: int)
    requires
        numbered(s),
    ensures
        numbered(dir_props_sent(s, props, n)),
    decreases n,
{
    if 0 < n <= props.len() {
        lemma_dir_props(s, props, n - 1);
        let t = dir_props_sent(s, props, n);
        lemma_sent(dir_props_sent(s, props, n - 1), t, t.out.last());
    }
}

proof fn lemma_file_props(s: DriveView, token: Seq<char>, props: Seq<PropView>, n: int)
    requires
        numbered(s),
    ensures
        numbered(file_props_sent(s, token, props, n)),
    decreases n,
{
    if 0 < n <= props.len() {
        lemma_file_props(s, token, props, n - 1);
        let t = file_props_sent(s, token, props, n);
        lemma_sent(file_props_sent(s, token, props, n - 1), t, t.out.last());
    }
}

proof fn lemma_chunks(s: DriveView, token: Seq<char>, delta: Seq<u8>)
    requires
        numbered(s),
    ensures
        numbered(chunks_sent(s, token, delta)),
    decreases delta.len(),
{
    if delta.len() > 0 {
        let n: int = if delta.len() < CHUNK_SIZE {
            delta.len() as int
        } else {
            CHUNK_SIZE as int
        };
        let c = EditView::TextDeltaChunk { file_token: token, chunk: delta.take(n) };
        lemma_sent(s, s.send(c), c);
        lemma_chunks(s.send(c), token, delta.skip(n));
    }
}

proof fn lemma_text(s: DriveView, token: Seq<char>, text: FileTextView, enc: Encoding)
    requires
        numbered(s),
    ensures
        text_sent(s, token, text, enc) matches Ok(t) ==> numbered(t),
{
    let begin = EditView::ApplyTextDelta { file_token: token, base_checksum: None };
    let end = EditView::TextDeltaEnd { file_token: token };
    let t = s.send(begin);
    lemma_sent(s, t, begin);
    lemma_sent(t, t.send(end), end);
    if let FileTextView::Bytes(b) = text {
        if let Ok(delta) = fulltext_delta(enc.version, b, enc.level, enc.window_size as nat) {
            lemma_chunks(t, token, delta);
            let u = chunks_sent(t, token, delta);
            lemma_sent(u, u.send(end), end);
        }
    }
}

proof fn lemma_task(s: DriveView, task: TaskView, rev: u64, enc: Encoding)
    requires
        numbered(s),
    ensures
        task_done(s, task, rev, enc) matches Ok(t) ==> numbered(t),
{
    match task {
        TaskView::Dir { props, .. } => {
            lemma_dir_props(s, props, props.len() as int);
        },
        TaskView::Delete { path } => {
            let c = EditView::DeleteEntry { path, rev, dir_token: s.here() };
            lemma_sent(s, s.send(c), c);
        },
        TaskView::File { path, exists, copy_from, text, props } => {
            let token = s.file_token();
            let c = file_opening(s, path, exists, copy_from, rev);
            let t = DriveView { next_file: s.next_file + 1, ..s.send(c) };
            lemma_new(s);
            assert(given(t, token)) by {
                assert(token == nth_file(t.next_file));
            }
            lemma_sent(s, t, c);
            lemma_text(t, token, text, enc);
            if let Ok(u) = text_sent(t, token, text, enc) {
                lemma_file_props(u, token, props, props.len() as int);
                let v = file_props_sent(u, token, props, props.len() as int);
                let close = EditView::CloseFile { file_token: token, text_checksum: None };
                lemma_sent(v, v.send(close), close);
            }
        },
    }
}

proof fn lemma_tasks(
    tasks: Seq<TaskView>,
    n: int,
    plans: Map<Seq<char>, DirPlanView>,
    rev: u64,
    enc: Encoding,
)
    ensures
        tasks_done(tasks, n, plans, rev, enc) matches Ok(t) ==> numbered(t),
    decreases n,
{
    if 0 < n <= tasks.len() {
        lemma_tasks(tasks, n - 1, plans, rev, enc);
        if let Ok(s) = tasks_done(tasks, n - 1, plans, rev, enc) {
            let targets = tasks[n - 1].dirs();
            let k = common(s.dirs, targets, 0);
            lemma_closed(s, k + 1);
            lemma_opened(closed_to(s, k + 1), targets, k, plans, rev);
            if let Ok(t) = gone_to(s, targets, plans, rev) {
                lemma_task(t, tasks[n - 1], rev, enc);
            }
        }
    } else {
        reveal(numbered);
        let s = begun(rev);
        assert(s.out.len() == 1);
    }
}

/// No two commands of a commit introduce the same token, for the root, a directory or a
/// file.
pub proof fn tokens_are_given_once(
    tasks: Seq<TaskView>,
    plans: Map<Seq<char>, DirPlanView>,
    rev: u64,
    enc: Encoding,
)
    ensures
        whole_drive(tasks, plans, rev, enc) matches Ok(commands) ==> tokens_once(commands),
{
    lemma_tasks(tasks, tasks.len() as int, plans, rev, enc);
    if let Ok(s) = tasks_done(tasks, tasks.len() as int, plans, rev, enc) {
        lemma_closed(s, 1);
        let t = closed_to(s, 1);
        let close = EditView::CloseDir { dir_token: "r"@ };
        lemma_sent(t, t.send(close), close);
        let u = t.send(close);
        lemma_sent(u, u.send(EditView::CloseEdit), EditView::CloseEdit);
        reveal(numbered);
    }
}

} // verus!
