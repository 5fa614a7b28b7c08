//! The editor drive of a commit: which directories are entered and left, and in what
//! order the changes are sent.

use vstd::prelude::*;

use crate::editor::{copy_view, EditView, EditorCommand};
use crate::error::{ErrorView, SvnError};
use crate::fulltext::{encode_fulltext_with_options, fulltext_delta};
use crate::keymap::KeyMap;
use crate::svndiff::SvndiffVersion;
use crate::text::{
    cat, cat3, chars_of, decimal, decimal_string, find, find_char, rfind, rfind_char, slice_text,
    str_eq, trim, trimmed,
};
use crate::types::opt_bytes;

verus! {

/// The most bytes that one command carries.
pub const CHUNK_SIZE: usize = 65536;

/// A property that is set or deleted.
#[derive(Clone, Debug, PartialEq, Eq)]
pub struct PropChange {
    pub name: String,
    pub value: Option<Vec<u8>>,
}

/// What a `PropChange` says.
pub struct PropView {
    pub name: Seq<char>,
    pub value: Option<Seq<u8>>,
}

impl DeepView for PropChange {
    type V = PropView;

    open spec fn deep_view(&self) -> PropView {
        PropView { name: self.name@, value: opt_bytes(self.value) }
    }
}

/// Whether a directory is opened or added.
#[derive(Clone, Debug, PartialEq, Eq)]
pub enum DirPlanKind {
    Open,
    Add { copy_from: Option<(String, u64)> },
}

/// What a `DirPlanKind` says.
pub enum DirPlanView {
    Open,
    Add { copy_from: Option<(Seq<char>, u64)> },
}

impl DeepView for DirPlanKind {
    type V = DirPlanView;

    open spec fn deep_view(&self) -> DirPlanView {
        match *self {
            DirPlanKind::Open => DirPlanView::Open,
            DirPlanKind::Add { copy_from } => DirPlanView::Add { copy_from: copy_view(copy_from) },
        }
    }
}

/// What the plans for the directories say.
pub open spec fn plans_view(m: Map<Seq<char>, DirPlanKind>) -> Map<Seq<char>, DirPlanView> {
    m.map_values(|p: DirPlanKind| p.deep_view())
}

/// The text that a file gets.
#[derive(Clone, Debug, PartialEq, Eq)]
pub enum FileText {
    /// It keeps its text.
    Keep,
    /// It gets this text.
    Bytes(Vec<u8>),
    /// It gets a text that is sent while the drive runs.
    Later,
}

/// What a `FileText` says.
pub enum FileTextView {
    Keep,
    Bytes(Seq<u8>),
    Later,
}

impl DeepView for FileText {
    type V = FileTextView;

    open spec fn deep_view(&self) -> FileTextView {
        match self {
            FileText::Keep => FileTextView::Keep,
            FileText::Bytes(b) => FileTextView::Bytes(b@),
            FileText::Later => FileTextView::Later,
        }
    }
}

/// A change that a drive sends.
#[derive(Clone, Debug, PartialEq, Eq)]
pub enum Task {
    /// A directory is entered, and its properties change.
    Dir { path: String, props: Vec<PropChange> },
    /// A file is opened or added, and gets a text and properties.
    File {
        path: String,
        exists: bool,
        copy_from: Option<(String, u64)>,
        text: FileText,
        props: Vec<PropChange>,
    },
    /// An entry is deleted.
    Delete { path: String },
}

/// What a `Task` says.
#[allow(inconsistent_fields)]
pub enum TaskView {
    Dir { path: Seq<char>, props: Seq<PropView> },
    File {
        path: Seq<char>,
        exists: bool,
        copy_from: Option<(Seq<char>, u64)>,
        text: FileTextView,
        props: Seq<PropView>,
    },
    Delete { path: Seq<char> },
}

impl DeepView for Task {
    type V = TaskView;

    open spec fn deep_view(&self) -> TaskView {
        match *self {
            Task::Dir { path, props } => TaskView::Dir { path: path@, props: props.deep_view() },
            Task::File { path, exists, copy_from, text, props } => TaskView::File {
                path: path@,
                exists,
                copy_from: copy_view(copy_from),
                text: text.deep_view(),
                props: props.deep_view(),
            },
            Task::Delete { path } => TaskView::Delete { path: path@ },
        }
    }
}

impl TaskView {
    /// The path that the task is about.
    pub open spec fn path(self) -> Seq<char> {
        match self {
            TaskView::Dir { path, .. } => path,
            TaskView::File { path, .. } => path,
            TaskView::Delete { path } => path,
        }
    }

    /// The directories that are entered for the task.
    pub open spec fn dirs(self) -> Seq<Seq<char>> {
        match self {
            TaskView::Dir { path, .. } => prefixes(path),
            TaskView::File { path, .. } => prefixes(parent_of(path)),
            TaskView::Delete { path } => prefixes(parent_of(path)),
        }
    }
}

impl Task {
    /// The path that the task is about.
    pub fn path(&self) -> (r: &str)
        ensures
            r@ == self.deep_view().path(),
    {
        match self {
            Task::Dir { path, .. } => path.as_str(),
            Task::File { path, .. } => path.as_str(),
            Task::Delete { path } => path.as_str(),
        }
    }

    /// The directories that are entered for the task.
    pub fn dirs(&self) -> (r: Vec<String>)
        ensures
            r.deep_view() == self.deep_view().dirs(),
    {
        match self {
            Task::Dir { path, .. } => dir_prefixes(path),
            Task::File { path, .. } => dir_prefixes(&parent_dir(path)),
            Task::Delete { path } => dir_prefixes(&parent_dir(path)),
        }
    }
}

/// The path of the directory that an entry stands in; the root is the empty path.
pub open spec fn parent_of(path: Seq<char>) -> Seq<char> {
    let i = rfind(path, '/', path.len() as int);
    if i < 0 {
        Seq::empty()
    } else {
        path.take(i)
    }
}

/// The path of the directory that an entry stands in.
pub fn parent_dir(path: &str) -> (r: String)
    ensures
        r@ == parent_of(path@),
{
    let cs = chars_of(path);
    match rfind_char(&cs, '/') {
        Some(i) => {
            assert(cs@.subrange(0, i as int) =~= path@.take(i as int));
            slice_text(&cs, 0, i)
        },
        None => {
            let s = String::new();
            assert(s@ =~= Seq::<char>::empty());
            s
        },
    }
}

/// A part behind a path; an empty part adds nothing.
pub open spec fn under(dir: Seq<char>, part: Seq<char>) -> Seq<char> {
    if dir.len() == 0 {
        part
    } else {
        dir + "/"@ + part
    }
}

/// The directories on the way down the parts of `dir` from index `i` on, below
/// `current`, behind those that came before.
pub open spec fn prefixes_from(
    dir: Seq<char>,
    i: int,
    current: Seq<char>,
    before: Seq<Seq<char>>,
) -> Seq<Seq<char>>
    decreases dir.len() - i,
{
    let k = find(dir, '/', i);
    let last = i < 0 || k < i || k >= dir.len();
    let part = if last {
        dir.skip(i)
    } else {
        dir.subrange(i, k)
    };
    let now = if part.len() == 0 {
        before
    } else {
        before.push(under(current, part))
    };
    if last {
        now
    } else {
        prefixes_from(
            dir,
            k + 1,
            if part.len() == 0 {
                current
            } else {
                under(current, part)
            },
            now,
        )
    }
}

/// The directories on the way down to `dir`, with `dir` itself.
pub open spec fn prefixes(dir: Seq<char>) -> Seq<Seq<char>> {
    if trim(dir).len() == 0 {
        Seq::empty()
    } else {
        prefixes_from(dir, 0, Seq::empty(), Seq::empty())
    }
}

/// The directories on the way down to `dir`, with `dir` itself.
pub fn dir_prefixes(dir: &str) -> (r: Vec<String>)
    ensures
        r.deep_view() == prefixes(dir@),
{
    let mut out: Vec<String> = Vec::new();
    assert(out.deep_view() =~= Seq::<Seq<char>>::empty());
    if trimmed(dir).as_str().is_empty() {
        return out;
    }
    let cs = chars_of(dir);
    let n = cs.len();
    let mut current = String::new();
    assert(current@ =~= Seq::<char>::empty());
    let mut i: usize = 0;
    let mut more = true;
    while more
        invariant
            n == cs.len(),
            cs@ == dir@,
            i <= n,
            more ==> prefixes_from(dir@, i as int, current@, out.deep_view()) == prefixes(dir@),
            !more ==> out.deep_view() == prefixes(dir@),
        decreases (if more {
            n - i + 1
        } else {
            0
        }),
    {
        let k = find_char(&cs, '/', i);
        let part = slice_text(&cs, i, k);
        proof {
            if k >= n {
                assert(part@ =~= dir@.skip(i as int));
            }
        }
        if !part.as_str().is_empty() {
            let ghost before = out.deep_view();
            if current.as_str().is_empty() {
                current = part;
            } else {
                current = cat3(&current, "/", &part);
            }
            out.push(current.clone());
            assert(out.deep_view() =~= before.push(current@));
        }
        if k < n {
            i = k + 1;
        } else {
            more = false;
        }
    }
    out
}

/// Where a drive stands: the open directories with their tokens, how many tokens have
/// been given out, and the commands so far.
pub struct DriveView {
    pub dirs: Seq<(Seq<char>, Seq<char>)>,
    pub next_dir: nat,
    pub next_file: nat,
    pub out: Seq<EditView>,
}

impl DriveView {
    /// One more command.
    pub open spec fn send(self, c: EditView) -> DriveView {
        DriveView { out: self.out.push(c), ..self }
    }

    /// The token of the directory that is open innermost.
    pub open spec fn here(self) -> Seq<char> {
        self.dirs.last().1
    }

    /// The token of the next directory.
    pub open spec fn dir_token(self) -> Seq<char> {
        "d"@ + decimal(self.next_dir + 1)
    }

    /// The token of the next file.
    pub open spec fn file_token(self) -> Seq<char> {
        "f"@ + decimal(self.next_file + 1)
    }
}

/// A drive that has opened the root.
pub open spec fn begun(rev: u64) -> DriveView {
    DriveView {
        dirs: seq![(Seq::empty(), "r"@)],
        next_dir: 0,
        next_file: 0,
        out: seq![EditView::OpenRoot { rev: Some(rev), token: "r"@ }],
    }
}

/// How many of the directories are open already, if the first `k` are.
pub open spec fn common(
    dirs: Seq<(Seq<char>, Seq<char>)>,
    targets: Seq<Seq<char>>,
    k: int,
) -> int
    decreases targets.len() - k,
{
    if 0 <= k < targets.len() && k + 1 < dirs.len() && dirs[k + 1].0 == targets[k] {
        common(dirs, targets, k + 1)
    } else {
        k
    }
}

/// The innermost directories are closed until `n` are left.
pub open spec fn closed_to(s: DriveView, n: int) -> DriveView
    decreases s.dirs.len(),
{
    if s.dirs.len() <= n || s.dirs.len() == 0 {
        s
    } else {
        closed_to(
            DriveView { dirs: s.dirs.drop_last(), ..s.send(
                EditView::CloseDir { dir_token: s.here() },
            ) },
            n,
        )
    }
}

/// A directory is entered as planned.
pub open spec fn dir_opened(
    s: DriveView,
    path: Seq<char>,
    plan: DirPlanView,
    rev: u64,
) -> DriveView {
    let c = match plan {
        DirPlanView::Open => EditView::OpenDir {
            path,
            parent_token: s.here(),
            child_token: s.dir_token(),
            rev,
        },
        DirPlanView::Add { copy_from } => EditView::AddDir {
            path,
            parent_token: s.here(),
            child_token: s.dir_token(),
            copy_from,
        },
    };
    DriveView {
        dirs: s.dirs.push((path, s.dir_token())),
        next_dir: s.next_dir + 1,
        ..s.send(c)
    }
}

/// The directories from index `k` on are entered as planned.
pub open spec fn dirs_opened(
    s: DriveView,
    targets: Seq<Seq<char>>,
    k: int,
    plans: Map<Seq<char>, DirPlanView>,
    rev: u64,
) -> Result<DriveView, ErrorView>
    decreases targets.len() - k,
{
    if k < 0 || k >= targets.len() {
        Ok(s)
    } else if !plans.dom().contains(targets[k]) {
        Err(ErrorView::Protocol("missing directory plan for '"@ + targets[k] + "'"@))
    } else {
        dirs_opened(
            dir_opened(s, targets[k], plans[targets[k]], rev),
            targets,
            k + 1,
            plans,
            rev,
        )
    }
}

/// The drive goes to a directory: those that do not lead to it are left, and the others
/// on the way are entered.
pub open spec fn gone_to(
    s: DriveView,
    targets: Seq<Seq<char>>,
    plans: Map<Seq<char>, DirPlanView>,
    rev: u64,
) -> Result<DriveView, ErrorView> {
    let k = common(s.dirs, targets, 0);
    dirs_opened(closed_to(s, k + 1), targets, k, plans, rev)
}

/// The properties of a directory before index `n` are sent.
pub open spec fn dir_props_sent(s: DriveView, props: Seq<PropView>, n: int) -> DriveView
    decreases n,
{
    if n <= 0 || n > props.len() {
        s
    } else {
        dir_props_sent(s, props, n - 1).send(
            EditView::ChangeDirProp {
                dir_token: s.here(),
                name: props[n - 1].name,
                value: props[n - 1].value,
            },
        )
    }
}

/// The properties of a file before index `n` are sent.
pub open spec fn file_props_sent(
    s: DriveView,
    token: Seq<char>,
    props: Seq<PropView>,
    n: int,
) -> DriveView
    decreases n,
{
    if n <= 0 || n > props.len() {
        s
    } else {
        file_props_sent(s, token, props, n - 1).send(
            EditView::ChangeFileProp {
                file_token: token,
                name: props[n - 1].name,
                value: props[n - 1].value,
            },
        )
    }
}

/// A delta, cut into chunks.
pub open spec fn chunks_of(delta: Seq<u8>) -> Seq<Seq<u8>>
    decreases delta.len(),
{
    if delta.len() == 0 {
        Seq::empty()
    } else {
        let n: int = if delta.len() < CHUNK_SIZE {
            delta.len() as int
        } else {
            CHUNK_SIZE as int
        };
        seq![delta.take(n)] + chunks_of(delta.skip(n))
    }
}

/// The commands that send a text: a delta between its beginning and its end.
pub open spec fn text_commands(token: Seq<char>, delta: Seq<u8>) -> Seq<EditView> {
    seq![EditView::ApplyTextDelta { file_token: token, base_checksum: None }] + chunks_of(
        delta,
    ).map_values(|chunk: Seq<u8>| EditView::TextDeltaChunk { file_token: token, chunk }).push(
        EditView::TextDeltaEnd { file_token: token },
    )
}

/// A delta is sent in chunks.
pub open spec fn chunks_sent(s: DriveView, token: Seq<char>, delta: Seq<u8>) -> DriveView
    decreases delta.len(),
{
    if delta.len() == 0 {
        s
    } else {
        let n: int = if delta.len() < CHUNK_SIZE {
            delta.len() as int
        } else {
            CHUNK_SIZE as int
        };
        chunks_sent(
            s.send(EditView::TextDeltaChunk { file_token: token, chunk: delta.take(n) }),
            token,
            delta.skip(n),
        )
    }
}

/// How texts are encoded.
#[derive(Clone, Copy, Debug)]
pub struct Encoding {
    pub version: SvndiffVersion,
    pub level: u32,
    pub window_size: usize,
}

/// A text is sent.
pub open spec fn text_sent(
    s: DriveView,
    token: Seq<char>,
    text: FileTextView,
    enc: Encoding,
) -> Result<DriveView, ErrorView> {
    let t = s.send(EditView::ApplyTextDelta { file_token: token, base_checksum: None });
    match text {
        FileTextView::Keep => Ok(s),
        FileTextView::Later => Ok(t.send(EditView::TextDeltaEnd { file_token: token })),
        FileTextView::Bytes(b) => match fulltext_delta(
            enc.version,
            b,
            enc.level,
            enc.window_size as nat,
        ) {
            Ok(delta) => Ok(
                chunks_sent(t, token, delta).send(EditView::TextDeltaEnd { file_token: token }),
            ),
            Err(e) => Err(e),
        },
    }
}

/// The command that opens or adds a file.
pub open spec fn file_opening(
    s: DriveView,
    path: Seq<char>,
    exists: bool,
    copy_from: Option<(Seq<char>, u64)>,
    rev: u64,
) -> EditView {
    if copy_from is None && exists {
        EditView::OpenFile { path, dir_token: s.here(), file_token: s.file_token(), rev }
    } else {
        EditView::AddFile { path, dir_token: s.here(), file_token: s.file_token(), copy_from }
    }
}

/// A task is done in the directory where the drive stands.
pub open spec fn task_done(s: DriveView, task: TaskView, rev: u64, enc: Encoding) -> Result<
    DriveView,
    ErrorView,
> {
    match task {
        TaskView::Dir { props, .. } => Ok(dir_props_sent(s, props, props.len() as int)),
        TaskView::Delete { path } => Ok(
            s.send(EditView::DeleteEntry { path, rev, dir_token: s.here() }),
        ),
        TaskView::File { path, exists, copy_from, text, props } => {
            let token = s.file_token();
            let t = DriveView {
                next_file: s.next_file + 1,
                ..s.send(file_opening(s, path, exists, copy_from, rev))
            };
            match text_sent(t, token, text, enc) {
                Ok(u) => Ok(
                    file_props_sent(u, token, props, props.len() as int).send(
                        EditView::CloseFile { file_token: token, text_checksum: None },
                    ),
                ),
                Err(e) => Err(e),
            }
        },
    }
}

/// The tasks before index `n` are done.
pub open spec fn tasks_done(
    tasks: Seq<TaskView>,
    n: int,
    plans: Map<Seq<char>, DirPlanView>,
    rev: u64,
    enc: Encoding,
) -> Result<DriveView, ErrorView>
    decreases n,
{
    if n <= 0 || n > tasks.len() {
        Ok(begun(rev))
    } else {
        match tasks_done(tasks, n - 1, plans, rev, enc) {
            Err(e) => Err(e),
            Ok(s) => match gone_to(s, tasks[n - 1].dirs(), plans, rev) {
                Err(e) => Err(e),
                Ok(t) => task_done(t, tasks[n - 1], rev, enc),
            },
        }
    }
}

/// The commands of a whole drive.
pub open spec fn whole_drive(
    tasks: Seq<TaskView>,
    plans: Map<Seq<char>, DirPlanView>,
    rev: u64,
    enc: Encoding,
) -> Result<Seq<EditView>, ErrorView> {
    match tasks_done(tasks, tasks.len() as int, plans, rev, enc) {
        Ok(s) => Ok(
            closed_to(s, 1).send(EditView::CloseDir { dir_token: "r"@ }).send(
                EditView::CloseEdit,
            ).out,
        ),
        Err(e) => Err(e),
    }
}

/// A drive that is being put together.
pub struct Drive {
    dirs: Vec<(String, String)>,
    next_dir: u64,
    next_file: u64,
    out: Vec<EditorCommand>,
}

/// What the open directories say.
spec fn dirs_view(dirs: Seq<(String, String)>) -> Seq<(Seq<char>, Seq<char>)> {
    dirs.map_values(|d: (String, String)| (d.0@, d.1@))
}

impl View for Drive {
    type V = DriveView;

    closed spec fn view(&self) -> DriveView {
        DriveView {
            dirs: dirs_view(self.dirs@),
            next_dir: self.next_dir as nat,
            next_file: self.next_file as nat,
            out: self.out.deep_view(),
        }
    }
}

fn clone_copy(c: &Option<(String, u64)>) -> (r: Option<(String, u64)>)
    ensures
        copy_view(r) == copy_view(*c),
{
    match c {
        Some((p, rev)) => Some((p.clone(), *rev)),
        None => None,
    }
}

/// A copy of an optional byte string.
pub fn clone_opt_bytes(b: &Option<Vec<u8>>) -> (r: Option<Vec<u8>>)
    ensures
        opt_bytes(r) == opt_bytes(*b),
{
    match b {
        Some(v) => Some(crate::raw::copy_bytes(v)),
        None => None,
    }
}

impl Drive {
    /// Something is open, and every token that was given out has been sent.
    pub open spec fn wf(self) -> bool {
        &&& self@.dirs.len() > 0
        &&& self@.next_dir < self@.out.len()
        &&& self@.next_file < self@.out.len()
    }

    /// A drive that has opened the root.
    pub fn new(rev: u64) -> (r: Drive)
        ensures
            r@ == begun(rev),
            r.wf(),
    {
        let dirs = vec![(String::new(), "r".to_owned())];
        let out = vec![EditorCommand::OpenRoot { rev: Some(rev), token: "r".to_owned() }];
        assert(dirs@[0].0@ =~= Seq::<char>::empty());
        assert(dirs_view(dirs@) =~= begun(rev).dirs);
        assert(out.deep_view() =~= begun(rev).out);
        Drive { dirs, next_dir: 0, next_file: 0, out }
    }

    fn send(&mut self, c: EditorCommand)
        ensures
            final(self)@ == old(self)@.send(c.deep_view()),
            old(self).wf() ==> final(self).wf(),
    {
        let ghost before = self.out.deep_view();
        let ghost said = c.deep_view();
        self.out.push(c);
        assert(self.out.deep_view() =~= before.push(said));
    }

    fn here(&self) -> (r: String)
        requires
            self@.dirs.len() > 0,
        ensures
            r@ == self@.here(),
    {
        let n = self.dirs.len();
        self.dirs[n - 1].1.clone()
    }

    fn common_with(&self, targets: &[String]) -> (r: usize)
        requires
            self@.dirs.len() > 0,
        ensures
            r == common(self@.dirs, targets.deep_view(), 0),
            r <= targets@.len(),
            r < self@.dirs.len(),
    {
        let ghost want = targets.deep_view();
        let mut k: usize = 0;
        while k < targets.len() && self.dirs.len() - k > 1 && str_eq(
            &self.dirs[k + 1].0,
            &targets[k],
        )
            invariant
                k <= targets.len(),
                k < self.dirs@.len(),
                want == targets.deep_view(),
                common(self@.dirs, want, 0) == common(self@.dirs, want, k as int),
            decreases targets.len() - k,
        {
            assert(self@.dirs[k + 1].0 == want[k as int]);
            k = k + 1;
        }
        proof {
            if k < targets.len() && k + 1 < self.dirs@.len() {
                assert(self@.dirs[k + 1].0 == self.dirs@[k + 1].0@);
                assert(want[k as int] == targets@[k as int]@);
            }
        }
        k
    }

    fn close_to(&mut self, n: usize)
        requires
            old(self).wf(),
            n > 0,
        ensures
            final(self).wf(),
            final(self)@ == closed_to(old(self)@, n as int),
    {
        while self.dirs.len() > n
            invariant
                n > 0,
                self.wf(),
                closed_to(self@, n as int) == closed_to(old(self)@, n as int),
            decreases self.dirs.len(),
        {
            let ghost s = self@;
            match self.dirs.pop() {
                Some((_, token)) => {
                    assert(token@ == s.here());
                    assert(dirs_view(self.dirs@) =~= s.dirs.drop_last());
                    self.send(EditorCommand::CloseDir { dir_token: token });
                },
                None => {},
            }
        }
    }

    fn open_dir(&mut self, path: &str, plan: &DirPlanKind, rev: u64)
        requires
            old(self).wf(),
        ensures
            final(self).wf(),
            final(self)@ == dir_opened(old(self)@, path@, plan.deep_view(), rev),
    {
        let ghost s = self@;
        let _sent = self.out.len();
        let parent_token = self.here();
        self.next_dir = self.next_dir + 1;
        let token = cat("d", &decimal_string(self.next_dir));
        self.dirs.push((path.to_owned(), token.clone()));
        assert(dirs_view(self.dirs@) =~= s.dirs.push((path@, token@)));
        match plan {
            DirPlanKind::Open => {
                self.send(
                    EditorCommand::OpenDir {
                        path: path.to_owned(),
                        parent_token,
                        child_token: token,
                        rev,
                    },
                );
            },
            DirPlanKind::Add { copy_from } => {
                self.send(
                    EditorCommand::AddDir {
                        path: path.to_owned(),
                        parent_token,
                        child_token: token,
                        copy_from: clone_copy(copy_from),
                    },
                );
            },
        }
    }

    /// Goes to a directory.
    pub fn go_to(&mut self, targets: &[String], plans: &KeyMap<DirPlanKind>, rev: u64) -> (r: Result<
        (),
        SvnError,
    >)
        requires
            old(self).wf(),
            plans.wf(),
        ensures
            final(self).wf(),
            match r {
                Ok(_) => gone_to(old(self)@, targets.deep_view(), plans_view(plans@), rev) == Ok::<
                    DriveView,
                    ErrorView,
                >(final(self)@),
                Err(e) => gone_to(
                    old(self)@,
                    targets.deep_view(),
                    plans_view(plans@),
                    rev,
                ) == Err::<
                    DriveView,
                    ErrorView,
                >(e.deep_view()),
            },
    {
        let ghost want = targets.deep_view();
        let ghost whole = gone_to(old(self)@, want, plans_view(plans@), rev);
        let mut k = self.common_with(targets);
        let _open = self.dirs.len();
        self.close_to(k + 1);
        while k < targets.len()
            invariant
                k <= targets.len(),
                self.wf(),
                plans.wf(),
                want == targets.deep_view(),
                whole == gone_to(old(self)@, targets.deep_view(), plans_view(plans@), rev),
                whole == dirs_opened(self@, want, k as int, plans_view(plans@), rev),
            decreases targets.len() - k,
        {
            assert(want[k as int] == targets@[k as int]@);
            match plans.get(&targets[k]) {
                Some(plan) => {
                    self.open_dir(&targets[k], plan, rev);
                },
                None => {
                    return Err(
                        SvnError::Protocol(cat3("missing directory plan for '", &targets[k], "'")),
                    );
                },
            }
            k = k + 1;
        }
        Ok(())
    }

    fn send_dir_props(&mut self, props: &[PropChange])
        requires
            old(self).wf(),
        ensures
            final(self).wf(),
            final(self)@ == dir_props_sent(
                old(self)@,
                props.deep_view(),
                props.deep_view().len() as int,
            ),
    {
        let token = self.here();
        let ghost all = props.deep_view();
        let ghost s = self@;
        let mut n: usize = 0;
        while n < props.len()
            invariant
                n <= props.len(),
                self.wf(),
                all == props.deep_view(),
                token@ == s.here(),
                self@ == dir_props_sent(s, all, n as int),
            decreases props.len() - n,
        {
            assert(all[n as int] == props@[n as int].deep_view());
            self.send(
                EditorCommand::ChangeDirProp {
                    dir_token: token.clone(),
                    name: props[n].name.clone(),
                    value: clone_opt_bytes(&props[n].value),
                },
            );
            n = n + 1;
        }
    }

    fn send_file_props(&mut self, token: &str, props: &[PropChange])
        requires
            old(self).wf(),
        ensures
            final(self).wf(),
            final(self)@ == file_props_sent(
                old(self)@,
                token@,
                props.deep_view(),
                props.deep_view().len() as int,
            ),
    {
        let ghost all = props.deep_view();
        let ghost s = self@;
        let mut n: usize = 0;
        while n < props.len()
            invariant
                n <= props.len(),
                self.wf(),
                all == props.deep_view(),
                self@ == file_props_sent(s, token@, all, n as int),
            decreases props.len() - n,
        {
            assert(all[n as int] == props@[n as int].deep_view());
            self.send(
                EditorCommand::ChangeFileProp {
                    file_token: token.to_owned(),
                    name: props[n].name.clone(),
                    value: clone_opt_bytes(&props[n].value),
                },
            );
            n = n + 1;
        }
    }

    fn send_chunks(&mut self, token: &str, delta: &[u8])
        requires
            old(self).wf(),
        ensures
            final(self).wf(),
            final(self)@ == chunks_sent(old(self)@, token@, delta@),
    {
        let mut i: usize = 0;
        let n = delta.len();
        let ghost whole = chunks_sent(self@, token@, delta@);
        assert(delta@.skip(0) =~= delta@);
        while i < n
            invariant
                i <= n,
                n == delta@.len(),
                self.wf(),
                whole == chunks_sent(self@, token@, delta@.skip(i as int)),
            decreases n - i,
        {
            let m = if n - i < CHUNK_SIZE {
                n - i
            } else {
                CHUNK_SIZE
            };
            let ghost rest = delta@.skip(i as int);
            let chunk = crate::raw::copy_bytes(vstd::slice::slice_subrange(delta, i, i + m));
            assert(chunk@ =~= rest.take(m as int));
            self.send(EditorCommand::TextDeltaChunk { file_token: token.to_owned(), chunk });
            assert(rest.skip(m as int) =~= delta@.skip(i + m));
            i = i + m;
        }
    }

    fn send_text(&mut self, token: &str, text: &FileText, enc: Encoding) -> (r: Result<
        (),
        SvnError,
    >)
        requires
            old(self).wf(),
        ensures
            final(self).wf(),
            match r {
                Ok(_) => text_sent(old(self)@, token@, text.deep_view(), enc) == Ok::<
                    DriveView,
                    ErrorView,
                >(final(self)@),
                Err(e) => text_sent(old(self)@, token@, text.deep_view(), enc) == Err::<
                    DriveView,
                    ErrorView,
                >(e.deep_view()),
            },
    {
        match text {
            FileText::Keep => Ok(()),
            FileText::Later => {
                self.send(
                    EditorCommand::ApplyTextDelta {
                        file_token: token.to_owned(),
                        base_checksum: None,
                    },
                );
                self.send(EditorCommand::TextDeltaEnd { file_token: token.to_owned() });
                Ok(())
            },
            FileText::Bytes(b) => {
                self.send(
                    EditorCommand::ApplyTextDelta {
                        file_token: token.to_owned(),
                        base_checksum: None,
                    },
                );
                match encode_fulltext_with_options(enc.version, b, enc.level, enc.window_size) {
                    Ok(delta) => {
                        self.send_chunks(token, &delta);
                        self.send(EditorCommand::TextDeltaEnd { file_token: token.to_owned() });
                        Ok(())
                    },
                    Err(e) => Err(e),
                }
            },
        }
    }

    /// Does a task in the directory where the drive stands.
    pub fn do_task(&mut self, task: &Task, rev: u64, enc: Encoding) -> (r: Result<(), SvnError>)
        requires
            old(self).wf(),
        ensures
            final(self).wf(),
            match r {
                Ok(_) => task_done(old(self)@, task.deep_view(), rev, enc) == Ok::<
                    DriveView,
                    ErrorView,
                >(final(self)@),
                Err(e) => task_done(old(self)@, task.deep_view(), rev, enc) == Err::<
                    DriveView,
                    ErrorView,
                >(e.deep_view()),
            },
    {
        match task {
            Task::Dir { props, .. } => {
                self.send_dir_props(props);
                Ok(())
            },
            Task::Delete { path } => {
                let dir_token = self.here();
                self.send(EditorCommand::DeleteEntry { path: path.clone(), rev, dir_token });
                Ok(())
            },
            Task::File { path, exists, copy_from, text, props } => {
                let _sent = self.out.len();
                let dir_token = self.here();
                self.next_file = self.next_file + 1;
                let token = cat("f", &decimal_string(self.next_file));
                if *exists && copy_from.is_none() {
                    self.send(
                        EditorCommand::OpenFile {
                            path: path.clone(),
                            dir_token,
                            file_token: token.clone(),
                            rev,
                        },
                    );
                } else {
                    self.send(
                        EditorCommand::AddFile {
                            path: path.clone(),
                            dir_token,
                            file_token: token.clone(),
                            copy_from: clone_copy(copy_from),
                        },
                    );
                }
                match self.send_text(&token, text, enc) {
                    Ok(_) => {},
                    Err(e) => {
                        return Err(e);
                    },
                }
                self.send_file_props(&token, props);
                self.send(EditorCommand::CloseFile { file_token: token, text_checksum: None });
                Ok(())
            },
        }
    }

    fn finish(self) -> (r: Vec<EditorCommand>)
        requires
            self.wf(),
        ensures
            r.deep_view() == closed_to(self@, 1).send(
                EditView::CloseDir { dir_token: "r"@ },
            ).send(EditView::CloseEdit).out,
    {
        let mut s = self;
        s.close_to(1);
        s.send(EditorCommand::CloseDir { dir_token: "r".to_owned() });
        s.send(EditorCommand::CloseEdit);
        s.out
    }
}

/// What running a drive gives.
pub open spec fn commands_are(
    r: Result<Vec<EditorCommand>, SvnError>,
    v: Result<Seq<EditView>, ErrorView>,
) -> bool {
    match r {
        Ok(c) => v == Ok::<Seq<EditView>, ErrorView>(c.deep_view()),
        Err(e) => v == Err::<Seq<EditView>, ErrorView>(e.deep_view()),
    }
}

/// The commands of a whole drive.
pub fn run_tasks(tasks: &[Task], plans: &KeyMap<DirPlanKind>, rev: u64, enc: Encoding) -> (r: Result<
    Vec<EditorCommand>,
    SvnError,
>)
    requires
        plans.wf(),
    ensures
        commands_are(r, whole_drive(tasks.deep_view(), plans_view(plans@), rev, enc)),
{
    let mut drive = Drive::new(rev);
    let ghost all = tasks.deep_view();
    let ghost p = plans_view(plans@);
    let mut n: usize = 0;
    while n < tasks.len()
        invariant
            n <= tasks.len(),
            all == tasks.deep_view(),
            p == plans_view(plans@),
            plans.wf(),
            drive.wf(),
            tasks_done(all, n as int, p, rev, enc) == Ok::<DriveView, ErrorView>(drive@),
        decreases tasks.len() - n,
    {
        assert(all[n as int] == tasks@[n as int].deep_view());
        let targets = tasks[n].dirs();
        match drive.go_to(&targets, plans, rev) {
            Ok(_) => {},
            Err(e) => {
                proof {
                    lemma_error_stays(all, n + 1, p, rev, enc);
                }
                return Err(e);
            },
        }
        match drive.do_task(&tasks[n], rev, enc) {
            Ok(_) => {},
            Err(e) => {
                proof {
                    lemma_error_stays(all, n + 1, p, rev, enc);
                }
                return Err(e);
            },
        }
        n = n + 1;
    }
    Ok(drive.finish())
}

/// A drive that has failed does not go on.
proof fn lemma_error_stays(
    tasks: Seq<TaskView>,
    n: int,
    plans: Map<Seq<char>, DirPlanView>,
    rev: u64,
    enc: Encoding,
)
    requires
        0 <= n <= tasks.len(),
        tasks_done(tasks, n, plans, rev, enc) is Err,
    ensures
        tasks_done(tasks, tasks.len() as int, plans, rev, enc) == tasks_done(
            tasks,
            n,
            plans,
            rev,
            enc,
        ),
    decreases tasks.len() - n,
{
    if n < tasks.len() {
        lemma_error_stays(tasks, n + 1, plans, rev, enc);
    }
}

} // verus!
