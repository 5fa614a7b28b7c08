//! Planning what an editor drive does to a directory.

use vstd::prelude::*;

use crate::editor::{copy_view, EditView, EditorEvent, Report, ReportCommand, ReportView};
use crate::error::{protocol, result_view, ErrorView, SvnError};
use crate::export::{
    exported_paths_stay_inside, fs_path, map_repo_path_to_fs, new_tmp_path, tmp_path,
};
use crate::fspath::joined_path;
use crate::keymap::{in_order, keys_of, lemma_entry, lemma_keys_in_order, KeyMap};
use crate::path::has_parent_part;
use crate::text::str_eq;
use crate::types::Depth;

verus! {

/// Something to do to the file system.
#[allow(inconsistent_fields)]
#[derive(Debug)]
pub enum FsAction {
    /// Make the root, with the directories above it.
    MakeRoot,
    /// Make a directory, with those above it.
    MakeDirs { path: String },
    /// Copy what is in a directory, if it is there.
    CopyDir { src: String, dest: String },
    /// Remove a file, or a directory with all that is in it, if it is there.
    Remove { path: String },
    /// Make the directory that a file stands in, with those above it.
    MakeParents { path: String },
    /// Refuse to go on if the way to a file leads through a symbolic link.
    CheckWay { path: String },
    /// Open the file that a delta is against, or a source where there is no such file.
    OpenBase { token: String, dest: String, source: Option<String> },
    /// Make the temporary file that the text of a delta goes to.
    BeginText { token: String, dest: String, tmp: String },
    /// Apply a chunk of a delta.
    PushText { token: String, chunk: Vec<u8> },
    /// End a delta.
    EndText { token: String },
    /// Put a temporary file in the place of a file, and make it executable or not.
    FinishText { token: String, dest: String, tmp: String, executable: Option<bool> },
    /// Refuse to go on if there is no such file, nor a source to copy it from.
    RequireFile { dest: String, source: Option<String> },
    /// Remove a temporary file.
    DropTmp { path: String },
}

/// What an `FsAction` says.
#[allow(inconsistent_fields)]
pub enum FsActionView {
    MakeRoot,
    MakeDirs { path: Seq<char> },
    CopyDir { src: Seq<char>, dest: Seq<char> },
    Remove { path: Seq<char> },
    MakeParents { path: Seq<char> },
    CheckWay { path: Seq<char> },
    OpenBase { token: Seq<char>, dest: Seq<char>, source: Option<Seq<char>> },
    BeginText { token: Seq<char>, dest: Seq<char>, tmp: Seq<char> },
    PushText { token: Seq<char>, chunk: Seq<u8> },
    EndText { token: Seq<char> },
    FinishText { token: Seq<char>, dest: Seq<char>, tmp: Seq<char>, executable: Option<bool> },
    RequireFile { dest: Seq<char>, source: Option<Seq<char>> },
    DropTmp { path: Seq<char> },
}

impl DeepView for FsAction {
    type V = FsActionView;

    open spec fn deep_view(&self) -> FsActionView {
        match *self {
            FsAction::MakeRoot => FsActionView::MakeRoot,
            FsAction::MakeDirs { path } => FsActionView::MakeDirs {
                path: path@,
            },
            FsAction::CopyDir { src, dest } => FsActionView::CopyDir {
                src: src@,
                dest: dest@,
            },
            FsAction::Remove { path } => FsActionView::Remove {
                path: path@,
            },
            FsAction::MakeParents { path } => FsActionView::MakeParents {
                path: path@,
            },
            FsAction::CheckWay { path } => FsActionView::CheckWay {
                path: path@,
            },
            FsAction::OpenBase { token, dest, source } => FsActionView::OpenBase {
                token: token@,
                dest: dest@,
                source: source.deep_view(),
            },
            FsAction::BeginText { token, dest, tmp } => FsActionView::BeginText {
                token: token@,
                dest: dest@,
                tmp: tmp@,
            },
            FsAction::PushText { token, chunk } => FsActionView::PushText {
                token: token@,
                chunk: chunk@,
            },
            FsAction::EndText { token } => FsActionView::EndText {
                token: token@,
            },
            FsAction::FinishText { token, dest, tmp, executable } => FsActionView::FinishText {
                token: token@,
                dest: dest@,
                tmp: tmp@,
                executable: executable,
            },
            FsAction::RequireFile { dest, source } => FsActionView::RequireFile {
                dest: dest@,
                source: source.deep_view(),
            },
            FsAction::DropTmp { path } => FsActionView::DropTmp {
                path: path@,
            },
        }
    }
}

/// What is known once the actions are done.
#[allow(inconsistent_fields)]
#[derive(Debug)]
pub enum ExportUpdate {
    /// Nothing more.
    Nothing,
    /// Which file a token stands for, and what it was copied from.
    TrackFile { token: String, dest: String, source: Option<String> },
    /// A delta is being applied.
    BeginFile { token: String, dest: String, tmp: String },
    /// A delta is complete.
    EndText { token: String },
    /// A file is to be executable or not.
    Executable { token: String, on: bool },
    /// A file is complete, after a delta or without one.
    CloseFile { token: String, finished: bool },
    /// The drive is over.
    Reset,
}

/// What an `ExportUpdate` says.
#[allow(inconsistent_fields)]
pub enum ExportUpdateView {
    Nothing,
    TrackFile { token: Seq<char>, dest: Seq<char>, source: Option<Seq<char>> },
    BeginFile { token: Seq<char>, dest: Seq<char>, tmp: Seq<char> },
    EndText { token: Seq<char> },
    Executable { token: Seq<char>, on: bool },
    CloseFile { token: Seq<char>, finished: bool },
    Reset,
}

impl DeepView for ExportUpdate {
    type V = ExportUpdateView;

    open spec fn deep_view(&self) -> ExportUpdateView {
        match *self {
            ExportUpdate::Nothing => ExportUpdateView::Nothing,
            ExportUpdate::TrackFile { token, dest, source } => ExportUpdateView::TrackFile {
                token: token@,
                dest: dest@,
                source: source.deep_view(),
            },
            ExportUpdate::BeginFile { token, dest, tmp } => ExportUpdateView::BeginFile {
                token: token@,
                dest: dest@,
                tmp: tmp@,
            },
            ExportUpdate::EndText { token } => ExportUpdateView::EndText {
                token: token@,
            },
            ExportUpdate::Executable { token, on } => ExportUpdateView::Executable {
                token: token@,
                on: on,
            },
            ExportUpdate::CloseFile { token, finished } => ExportUpdateView::CloseFile {
                token: token@,
                finished,
            },
            ExportUpdate::Reset => ExportUpdateView::Reset,
        }
    }
}

/// A file that gets its text from a delta: whether the delta still takes chunks, and
/// whether it has ended well.
#[derive(Debug)]
pub struct PendingFile {
    pub dest: String,
    pub tmp: String,
    pub open: bool,
    pub ended: bool,
}

/// What a `PendingFile` says.
pub struct PendingView {
    pub dest: Seq<char>,
    pub tmp: Seq<char>,
    pub open: bool,
    pub ended: bool,
}

impl DeepView for PendingFile {
    type V = PendingView;

    open spec fn deep_view(&self) -> PendingView {
        PendingView { dest: self.dest@, tmp: self.tmp@, open: self.open, ended: self.ended }
    }
}

/// What an export knows.
#[derive(Debug)]
pub struct ExportState {
    root: String,
    strip_prefix: Option<String>,
    copies: bool,
    files: KeyMap<String>,
    sources: KeyMap<String>,
    executable: KeyMap<bool>,
    pending: KeyMap<PendingFile>,
    next_tmp_id: u64,
}

/// What an `ExportState` says: where it exports to, what is stripped from paths, whether
/// sources of copies count, which files the tokens stand for, their sources, which are
/// to be executable, whose deltas are being applied, and how many temporary files there
/// have been.
#[verifier::ext_equal]
pub struct ExportView {
    pub root: Seq<char>,
    pub strip_prefix: Option<Seq<char>>,
    pub copies: bool,
    pub files: Map<Seq<char>, Seq<char>>,
    pub sources: Map<Seq<char>, Seq<char>>,
    pub executable: Map<Seq<char>, bool>,
    pub pending: Map<Seq<char>, PendingView>,
    pub next_tmp_id: u64,
}

spec fn texts_view(m: Map<Seq<char>, String>) -> Map<Seq<char>, Seq<char>> {
    m.map_values(|s: String| s@)
}

spec fn pending_view(m: Map<Seq<char>, PendingFile>) -> Map<Seq<char>, PendingView> {
    m.map_values(|p: PendingFile| p.deep_view())
}

impl View for ExportState {
    type V = ExportView;

    closed spec fn view(&self) -> ExportView {
        ExportView {
            root: self.root@,
            strip_prefix: self.strip_prefix.deep_view(),
            copies: self.copies,
            files: texts_view(self.files@),
            sources: texts_view(self.sources@),
            executable: self.executable@,
            pending: pending_view(self.pending@),
            next_tmp_id: self.next_tmp_id,
        }
    }
}

/// What a plan says: the actions, and what then is known, or why the drive fails.
#[verifier::ext_equal]
pub struct PlanView {
    pub actions: Seq<FsActionView>,
    pub outcome: Result<ExportUpdateView, ErrorView>,
}

/// The value of a key, if there is one.
pub open spec fn lookup<V>(m: Map<Seq<char>, V>, k: Seq<char>) -> Option<V> {
    if m.dom().contains(k) {
        Some(m[k])
    } else {
        None
    }
}

/// A plan of these actions, after which this is known.
pub open spec fn plan_ok(actions: Seq<FsActionView>, u: ExportUpdateView) -> PlanView {
    PlanView { actions, outcome: Ok(u) }
}

/// A plan of these actions, after which the drive fails.
pub open spec fn plan_err(actions: Seq<FsActionView>, e: ErrorView) -> PlanView {
    PlanView { actions, outcome: Err(e) }
}

impl ExportView {
    /// The file that a path stands for.
    pub open spec fn at(self, path: Seq<char>, allow_empty: bool) -> Result<Seq<char>, ErrorView> {
        fs_path(self.root, self.strip_prefix, path, allow_empty)
    }

    /// A directory is entered.
    pub open spec fn plan_dir(
        self,
        path: Seq<char>,
        copy_from: Option<(Seq<char>, u64)>,
    ) -> PlanView {
        match self.at(path, true) {
            Err(e) => plan_err(Seq::empty(), e),
            Ok(dir) => {
                let first = seq![FsActionView::MakeDirs { path: dir }];
                match copy_from {
                    Some((src, _)) if self.copies => match self.at(src, true) {
                        Err(e) => plan_err(first, e),
                        Ok(s) => plan_ok(
                            first.push(FsActionView::CopyDir { src: s, dest: dir }),
                            ExportUpdateView::Nothing,
                        ),
                    },
                    _ => plan_ok(first, ExportUpdateView::Nothing),
                }
            },
        }
    }

    /// A file is opened.
    pub open spec fn plan_file(
        self,
        path: Seq<char>,
        token: Seq<char>,
        copy_from: Option<(Seq<char>, u64)>,
    ) -> PlanView {
        match self.at(path, false) {
            Err(e) => plan_err(Seq::empty(), e),
            Ok(dest) => {
                let first = seq![FsActionView::MakeParents { path: dest }];
                match copy_from {
                    Some((src, _)) if self.copies => match self.at(src, false) {
                        Err(e) => plan_err(first, e),
                        Ok(s) => plan_ok(
                            first.push(FsActionView::CheckWay { path: s }),
                            ExportUpdateView::TrackFile { token, dest, source: Some(s) },
                        ),
                    },
                    _ => plan_ok(
                        first,
                        ExportUpdateView::TrackFile { token, dest, source: None },
                    ),
                }
            },
        }
    }

    /// The number of the next temporary file.
    pub open spec fn tmp_id(self) -> u64 {
        if self.next_tmp_id == u64::MAX {
            0
        } else {
            (self.next_tmp_id + 1) as u64
        }
    }

    /// A delta begins.
    pub open spec fn plan_apply(self, token: Seq<char>) -> PlanView {
        match lookup(self.files, token) {
            None => plan_err(
                Seq::empty(),
                ErrorView::Protocol("apply-textdelta for unknown file token"@),
            ),
            Some(dest) => {
                let tmp = tmp_path(dest, token, self.tmp_id());
                plan_ok(
                    seq![
                        FsActionView::OpenBase {
                            token,
                            dest,
                            source: lookup(self.sources, token),
                        },
                    ].push(FsActionView::BeginText { token, dest, tmp }),
                    ExportUpdateView::BeginFile { token, dest, tmp },
                )
            },
        }
    }

    /// A chunk of a delta comes.
    pub open spec fn plan_chunk(self, token: Seq<char>, chunk: Seq<u8>) -> PlanView {
        match lookup(self.pending, token) {
            None => plan_err(
                Seq::empty(),
                ErrorView::Protocol("textdelta-chunk without apply-textdelta"@),
            ),
            Some(p) => if !p.open {
                plan_err(
                    Seq::empty(),
                    ErrorView::Protocol("textdelta-chunk after textdelta-end"@),
                )
            } else {
                plan_ok(
                    seq![FsActionView::PushText { token, chunk }],
                    ExportUpdateView::Nothing,
                )
            },
        }
    }

    /// A delta ends.
    pub open spec fn plan_end(self, token: Seq<char>) -> PlanView {
        match lookup(self.pending, token) {
            None => plan_err(
                Seq::empty(),
                ErrorView::Protocol("textdelta-end without apply-textdelta"@),
            ),
            Some(p) => if !p.open {
                plan_err(Seq::empty(), ErrorView::Protocol("duplicate textdelta-end"@))
            } else {
                plan_ok(
                    seq![FsActionView::EndText { token }],
                    ExportUpdateView::EndText { token },
                )
            },
        }
    }

    /// A file is closed.
    pub open spec fn plan_close(self, token: Seq<char>) -> PlanView {
        let closed = ExportUpdateView::CloseFile {
            token,
            finished: self.pending.dom().contains(token),
        };
        match lookup(self.pending, token) {
            Some(p) => if p.open || !p.ended {
                plan_err(
                    if self.copies {
                        seq![FsActionView::CheckWay { path: p.dest }]
                    } else {
                        Seq::empty()
                    },
                    ErrorView::Protocol("close-file before textdelta-end"@),
                )
            } else {
                plan_ok(
                    seq![
                        FsActionView::FinishText {
                            token,
                            dest: p.dest,
                            tmp: p.tmp,
                            executable: lookup(self.executable, token),
                        },
                    ],
                    closed,
                )
            },
            None => match lookup(self.files, token) {
                Some(dest) => plan_ok(
                    seq![
                        FsActionView::RequireFile { dest, source: lookup(self.sources, token) },
                    ],
                    closed,
                ),
                None => plan_ok(Seq::empty(), closed),
            },
        }
    }

    /// The temporary files, in the order of their tokens.
    pub open spec fn drop_tmps(self) -> Seq<FsActionView> {
        in_order(self.pending.dom()).map_values(
            |k: Seq<char>| FsActionView::DropTmp { path: self.pending[k].tmp },
        )
    }

    /// What an event leads to.
    pub open spec fn plan(self, e: EditView) -> PlanView {
        let nothing = plan_ok(Seq::empty(), ExportUpdateView::Nothing);
        match e {
            EditView::OpenRoot { .. } => plan_ok(
                seq![FsActionView::MakeRoot],
                ExportUpdateView::Nothing,
            ),
            EditView::AddDir { path, copy_from, .. } => self.plan_dir(path, copy_from),
            EditView::OpenDir { path, .. } => self.plan_dir(path, None),
            EditView::DeleteEntry { path, .. } => match self.at(path, false) {
                Err(x) => plan_err(Seq::empty(), x),
                Ok(p) => plan_ok(
                    seq![FsActionView::Remove { path: p }],
                    ExportUpdateView::Nothing,
                ),
            },
            EditView::AddFile { path, file_token, copy_from, .. } => self.plan_file(
                path,
                file_token,
                copy_from,
            ),
            EditView::OpenFile { path, file_token, .. } => self.plan_file(path, file_token, None),
            EditView::ApplyTextDelta { file_token, .. } => self.plan_apply(file_token),
            EditView::TextDeltaChunk { file_token, chunk } => self.plan_chunk(file_token, chunk),
            EditView::TextDeltaEnd { file_token } => self.plan_end(file_token),
            EditView::ChangeFileProp { file_token, name, value } => if name
                == "svn:executable"@ {
                plan_ok(
                    Seq::empty(),
                    ExportUpdateView::Executable { token: file_token, on: value is Some },
                )
            } else {
                nothing
            },
            EditView::CloseFile { file_token, .. } => self.plan_close(file_token),
            EditView::CloseEdit => if self.pending.dom().len() > 0 {
                plan_err(Seq::empty(), ErrorView::Protocol("close-edit with pending textdeltas"@))
            } else {
                plan_ok(Seq::empty(), ExportUpdateView::Reset)
            },
            EditView::AbortEdit => plan_ok(self.drop_tmps(), ExportUpdateView::Reset),
            _ => nothing,
        }
    }

    /// What is known when an event has been planned, whatever becomes of its actions: a
    /// delta that is being ended takes nothing more, and a file that is being closed is no
    /// longer pending.
    pub open spec fn planned(self, e: EditView) -> ExportView {
        match e {
            EditView::TextDeltaEnd { file_token } => if self.pending.dom().contains(file_token) {
                ExportView {
                    pending: self.pending.insert(
                        file_token,
                        PendingView { open: false, ..self.pending[file_token] },
                    ),
                    ..self
                }
            } else {
                self
            },
            EditView::CloseFile { file_token, .. } => ExportView {
                pending: self.pending.remove(file_token),
                ..self
            },
            _ => self,
        }
    }

    /// What is known when an action has been done, whatever becomes of the next one: once
    /// the base of a delta is open, the number of the next temporary file is used up.
    pub open spec fn acted(self, a: FsActionView) -> ExportView {
        match a {
            FsActionView::OpenBase { .. } => ExportView { next_tmp_id: self.tmp_id(), ..self },
            _ => self,
        }
    }

    /// What is known when the first `n` actions have been done.
    pub open spec fn acted_all(self, actions: Seq<FsActionView>, n: int) -> ExportView
        decreases n,
    {
        if n <= 0 || n > actions.len() {
            self
        } else {
            self.acted_all(actions, n - 1).acted(actions[n - 1])
        }
    }

    /// What is known when all actions have been done. Where sources of copies do not
    /// count, a drive that ends leaves its tokens, and a file that is closed without a
    /// delta leaves its executable mark.
    pub open spec fn updated(self, u: ExportUpdateView) -> ExportView {
        match u {
            ExportUpdateView::Nothing => self,
            ExportUpdateView::TrackFile { token, dest, source } => ExportView {
                files: self.files.insert(token, dest),
                sources: match source {
                    Some(s) => self.sources.insert(token, s),
                    None => self.sources,
                },
                ..self
            },
            ExportUpdateView::BeginFile { token, dest, tmp } => ExportView {
                pending: self.pending.insert(
                    token,
                    PendingView { dest, tmp, open: true, ended: false },
                ),
                ..self
            },
            ExportUpdateView::EndText { token } => if self.pending.dom().contains(token) {
                ExportView {
                    pending: self.pending.insert(
                        token,
                        PendingView { ended: true, ..self.pending[token] },
                    ),
                    ..self
                }
            } else {
                self
            },
            ExportUpdateView::Executable { token, on } => ExportView {
                executable: self.executable.insert(token, on),
                ..self
            },
            ExportUpdateView::CloseFile { token, finished } => ExportView {
                files: self.files.remove(token),
                sources: self.sources.remove(token),
                executable: if self.copies || finished {
                    self.executable.remove(token)
                } else {
                    self.executable
                },
                ..self
            },
            ExportUpdateView::Reset => if self.copies {
                ExportView {
                    files: Map::empty(),
                    sources: Map::empty(),
                    executable: Map::empty(),
                    pending: Map::empty(),
                    ..self
                }
            } else {
                ExportView { pending: Map::empty(), ..self }
            },
        }
    }
}

/// An export to a directory that has seen nothing yet.
pub open spec fn new_export(root: Seq<char>, copies: bool) -> ExportView {
    ExportView {
        root,
        strip_prefix: None,
        copies,
        files: Map::empty(),
        sources: Map::empty(),
        executable: Map::empty(),
        pending: Map::empty(),
        next_tmp_id: 0,
    }
}

/// What an event leads to.
#[derive(Debug)]
pub struct ExportPlan {
    /// What is to be done, in this order.
    pub actions: Vec<FsAction>,
    /// What then is known, or why the drive fails.
    pub outcome: Result<ExportUpdate, SvnError>,
}

impl DeepView for ExportPlan {
    type V = PlanView;

    open spec fn deep_view(&self) -> PlanView {
        PlanView { actions: self.actions.deep_view(), outcome: result_view(self.outcome) }
    }
}

fn no_actions(outcome: Result<ExportUpdate, SvnError>) -> (r: ExportPlan)
    ensures
        r.deep_view() == (PlanView { actions: Seq::empty(), outcome: result_view(outcome) }),
{
    let r = ExportPlan { actions: Vec::new(), outcome };
    assert(r.deep_view().actions =~= Seq::<FsActionView>::empty());
    r
}

fn one_action(a: FsAction, outcome: Result<ExportUpdate, SvnError>) -> (r: ExportPlan)
    ensures
        r.deep_view() == (PlanView {
            actions: seq![a.deep_view()],
            outcome: result_view(outcome),
        }),
{
    let ghost said = a.deep_view();
    let r = ExportPlan { actions: vec![a], outcome };
    assert(r.deep_view().actions =~= seq![said]);
    r
}

fn two_actions(a: FsAction, b: FsAction, outcome: Result<ExportUpdate, SvnError>) -> (r: ExportPlan)
    ensures
        r.deep_view() == (PlanView {
            actions: seq![a.deep_view()].push(b.deep_view()),
            outcome: result_view(outcome),
        }),
{
    let ghost x = a.deep_view();
    let ghost y = b.deep_view();
    let r = ExportPlan { actions: vec![a, b], outcome };
    assert(r.deep_view().actions =~= seq![x].push(y));
    r
}

fn text_of(m: &KeyMap<String>, k: &str) -> (r: Option<String>)
    requires
        m.wf(),
    ensures
        r.deep_view() == lookup(texts_view(m@), k@),
{
    match m.get(k) {
        Some(s) => Some(s.clone()),
        None => None,
    }
}

impl ExportState {
    /// The maps are in order.
    pub closed spec fn wf(self) -> bool {
        &&& self.files.wf()
        &&& self.sources.wf()
        &&& self.executable.wf()
        &&& self.pending.wf()
    }

    /// An export to a directory, in which sources of copies count or do not.
    pub fn new(root: &str, copies: bool) -> (r: ExportState)
        ensures
            r.wf(),
            r@ == new_export(root@, copies),
    {
        let r = ExportState {
            root: root.to_owned(),
            strip_prefix: None,
            copies,
            files: KeyMap::new(),
            sources: KeyMap::new(),
            executable: KeyMap::new(),
            pending: KeyMap::new(),
            next_tmp_id: 0,
        };
        assert(r@.files =~= Map::<Seq<char>, Seq<char>>::empty());
        assert(r@.sources =~= Map::<Seq<char>, Seq<char>>::empty());
        assert(r@.pending =~= Map::<Seq<char>, PendingView>::empty());
        r
    }

    /// The directory that is exported to.
    pub fn root(&self) -> (r: &str)
        ensures
            r@ == self@.root,
    {
        self.root.as_str()
    }

    /// Strips a prefix from the paths of the drive.
    pub fn with_strip_prefix(self, prefix: &str) -> (r: ExportState)
        requires
            self.wf(),
        ensures
            r.wf(),
            r@ == (ExportView { strip_prefix: Some(prefix@), ..self@ }),
    {
        let mut s = self;
        s.strip_prefix = Some(prefix.to_owned());
        s
    }

    /// The file that a path stands for.
    pub fn repo_path_to_fs(&self, path: &str, allow_empty: bool) -> (r: Result<String, SvnError>)
        ensures
            result_view(r) == self@.at(path@, allow_empty),
    {
        map_repo_path_to_fs(&self.root, &self.strip_prefix, path, allow_empty)
    }

    fn plan_dir(&self, path: &str, copy_from: &Option<(String, u64)>) -> (r: ExportPlan)
        ensures
            r.deep_view() == self@.plan_dir(path@, copy_view(*copy_from)),
    {
        let dir = match self.repo_path_to_fs(path, true) {
            Ok(d) => d,
            Err(e) => {
                return no_actions(Err(e));
            },
        };
        let first = FsAction::MakeDirs { path: dir.clone() };
        if self.copies {
            if let Some((src, _)) = copy_from {
                return match self.repo_path_to_fs(src, true) {
                    Ok(s) => two_actions(
                        first,
                        FsAction::CopyDir { src: s, dest: dir },
                        Ok(ExportUpdate::Nothing),
                    ),
                    Err(e) => one_action(first, Err(e)),
                };
            }
        }
        one_action(first, Ok(ExportUpdate::Nothing))
    }

    fn plan_file(&self, path: &str, token: &str, copy_from: &Option<(String, u64)>) -> (r:
        ExportPlan)
        ensures
            r.deep_view() == self@.plan_file(path@, token@, copy_view(*copy_from)),
    {
        let dest = match self.repo_path_to_fs(path, false) {
            Ok(d) => d,
            Err(e) => {
                return no_actions(Err(e));
            },
        };
        let first = FsAction::MakeParents { path: dest.clone() };
        if self.copies {
            if let Some((src, _)) = copy_from {
                return match self.repo_path_to_fs(src, false) {
                    Ok(s) => two_actions(
                        first,
                        FsAction::CheckWay { path: s.clone() },
                        Ok(
                            ExportUpdate::TrackFile {
                                token: token.to_owned(),
                                dest,
                                source: Some(s),
                            },
                        ),
                    ),
                    Err(e) => one_action(first, Err(e)),
                };
            }
        }
        one_action(
            first,
            Ok(ExportUpdate::TrackFile { token: token.to_owned(), dest, source: None }),
        )
    }

    fn tmp_id(&self) -> (r: u64)
        ensures
            r == self@.tmp_id(),
    {
        if self.next_tmp_id == u64::MAX {
            0
        } else {
            self.next_tmp_id + 1
        }
    }

    fn plan_apply(&self, token: &str) -> (r: ExportPlan)
        requires
            self.wf(),
        ensures
            r.deep_view() == self@.plan_apply(token@),
    {
        let dest = match text_of(&self.files, token) {
            Some(d) => d,
            None => {
                return no_actions(Err(protocol("apply-textdelta for unknown file token")));
            },
        };
        let source = text_of(&self.sources, token);
        let tmp = new_tmp_path(&dest, token, self.tmp_id());
        two_actions(
            FsAction::OpenBase { token: token.to_owned(), dest: dest.clone(), source },
            FsAction::BeginText {
                token: token.to_owned(),
                dest: dest.clone(),
                tmp: tmp.clone(),
            },
            Ok(ExportUpdate::BeginFile { token: token.to_owned(), dest, tmp }),
        )
    }

    fn plan_chunk(&self, token: &str, chunk: Vec<u8>) -> (r: ExportPlan)
        requires
            self.wf(),
        ensures
            r.deep_view() == self@.plan_chunk(token@, chunk@),
    {
        match self.pending.get(token) {
            None => no_actions(Err(protocol("textdelta-chunk without apply-textdelta"))),
            Some(p) => {
                if !p.open {
                    return no_actions(Err(protocol("textdelta-chunk after textdelta-end")));
                }
                one_action(
                    FsAction::PushText { token: token.to_owned(), chunk },
                    Ok(ExportUpdate::Nothing),
                )
            },
        }
    }

    fn plan_end(&mut self, token: &str) -> (r: ExportPlan)
        requires
            old(self).wf(),
        ensures
            final(self).wf(),
            r.deep_view() == old(self)@.plan_end(token@),
            final(self)@ == old(self)@.planned(EditView::TextDeltaEnd { file_token: token@ }),
    {
        let ghost before = self@;
        match self.pending.remove(token) {
            None => {
                assert(self@.pending =~= before.pending);
                no_actions(Err(protocol("textdelta-end without apply-textdelta")))
            },
            Some(p) => {
                let open = p.open;
                let q = PendingFile { dest: p.dest, tmp: p.tmp, open: false, ended: p.ended };
                let ghost said = q.deep_view();
                self.pending.insert(token.to_owned(), q);
                assert(self@.pending =~= before.pending.insert(token@, said));
                if !open {
                    return no_actions(Err(protocol("duplicate textdelta-end")));
                }
                one_action(
                    FsAction::EndText { token: token.to_owned() },
                    Ok(ExportUpdate::EndText { token: token.to_owned() }),
                )
            },
        }
    }

    fn plan_close(&mut self, token: &str) -> (r: ExportPlan)
        requires
            old(self).wf(),
        ensures
            final(self).wf(),
            r.deep_view() == old(self)@.plan_close(token@),
            final(self)@ == (ExportView {
                pending: old(self)@.pending.remove(token@),
                ..old(self)@
            }),
    {
        let ghost before = self@;
        let pending = self.pending.remove(token);
        assert(self@.pending =~= before.pending.remove(token@));
        let closed = ExportUpdate::CloseFile {
            token: token.to_owned(),
            finished: pending.is_some(),
        };
        match pending {
            Some(p) => {
                if p.open || !p.ended {
                    let e = protocol("close-file before textdelta-end");
                    return if self.copies {
                        one_action(FsAction::CheckWay { path: p.dest }, Err(e))
                    } else {
                        no_actions(Err(e))
                    };
                }
                let executable = match self.executable.get(token) {
                    Some(b) => Some(*b),
                    None => None,
                };
                one_action(
                    FsAction::FinishText {
                        token: token.to_owned(),
                        dest: p.dest,
                        tmp: p.tmp,
                        executable,
                    },
                    Ok(closed),
                )
            },
            None => match text_of(&self.files, token) {
                Some(dest) => one_action(
                    FsAction::RequireFile { dest, source: text_of(&self.sources, token) },
                    Ok(closed),
                ),
                None => no_actions(Ok(closed)),
            },
        }
    }

    fn plan_abort(&self) -> (r: ExportPlan)
        requires
            self.wf(),
        ensures
            r.deep_view() == plan_ok(self@.drop_tmps(), ExportUpdateView::Reset),
    {
        let mut actions: Vec<FsAction> = Vec::new();
        let ghost pairs = self.pending.pairs();
        let ghost keys = in_order(self@.pending.dom());
        proof {
            lemma_keys_in_order(self.pending);
            assert(self@.pending.dom() =~= self.pending@.dom());
        }
        let n = self.pending.len();
        let mut i: usize = 0;
        while i < n
            invariant
                i <= n,
                n == pairs.len(),
                pairs == self.pending.pairs(),
                self.wf(),
                keys == keys_of(pairs),
                actions@.len() == i,
                forall|k: int|
                    0 <= k < i ==> (#[trigger] actions@[k]).deep_view() == (
                    FsActionView::DropTmp { path: self@.pending[keys[k]].tmp }),
            decreases n - i,
        {
            proof {
                lemma_entry(pairs, i as int);
                assert(keys[i as int] == pairs[i as int].0);
            }
            let p = self.pending.value_at(i);
            actions.push(FsAction::DropTmp { path: p.tmp.clone() });
            i = i + 1;
        }
        assert(actions.deep_view() =~= self@.drop_tmps());
        ExportPlan { actions, outcome: Ok(ExportUpdate::Reset) }
    }

    /// Plans an event.
    pub fn plan(&mut self, event: EditorEvent) -> (r: ExportPlan)
        requires
            old(self).wf(),
        ensures
            final(self).wf(),
            r.deep_view() == old(self)@.plan(event.deep_view()),
            final(self)@ == old(self)@.planned(event.deep_view()),
    {
        match event {
            EditorEvent::OpenRoot { .. } => one_action(
                FsAction::MakeRoot,
                Ok(ExportUpdate::Nothing),
            ),
            EditorEvent::AddDir { path, copy_from, .. } => self.plan_dir(&path, &copy_from),
            EditorEvent::OpenDir { path, .. } => self.plan_dir(&path, &None),
            EditorEvent::DeleteEntry { path, .. } => match self.repo_path_to_fs(&path, false) {
                Ok(p) => one_action(FsAction::Remove { path: p }, Ok(ExportUpdate::Nothing)),
                Err(e) => no_actions(Err(e)),
            },
            EditorEvent::AddFile { path, file_token, copy_from, .. } => self.plan_file(
                &path,
                &file_token,
                &copy_from,
            ),
            EditorEvent::OpenFile { path, file_token, .. } => self.plan_file(
                &path,
                &file_token,
                &None,
            ),
            EditorEvent::ApplyTextDelta { file_token, .. } => self.plan_apply(&file_token),
            EditorEvent::TextDeltaChunk { file_token, chunk } => self.plan_chunk(
                &file_token,
                chunk,
            ),
            EditorEvent::TextDeltaEnd { file_token } => self.plan_end(&file_token),
            EditorEvent::ChangeFileProp { file_token, name, value } => {
                if str_eq(&name, "svn:executable") {
                    no_actions(
                        Ok(ExportUpdate::Executable { token: file_token, on: value.is_some() }),
                    )
                } else {
                    no_actions(Ok(ExportUpdate::Nothing))
                }
            },
            EditorEvent::CloseFile { file_token, .. } => self.plan_close(&file_token),
            EditorEvent::CloseEdit => {
                proof {
                    lemma_keys_in_order(self.pending);
                    assert(self@.pending.dom() =~= self.pending@.dom());
                    lemma_some_pending(self@.pending.dom(), self.pending.pairs());
                }
                if !self.pending.is_empty() {
                    no_actions(Err(protocol("close-edit with pending textdeltas")))
                } else {
                    no_actions(Ok(ExportUpdate::Reset))
                }
            },
            EditorEvent::AbortEdit => self.plan_abort(),
            _ => no_actions(Ok(ExportUpdate::Nothing)),
        }
    }

    fn track(&mut self, token: String, dest: String, source: Option<String>)
        requires
            old(self).wf(),
        ensures
            final(self).wf(),
            final(self)@ == old(self)@.updated(
                ExportUpdateView::TrackFile {
                    token: token@,
                    dest: dest@,
                    source: source.deep_view(),
                },
            ),
    {
        let ghost before = self@;
        let ghost t = token@;
        let ghost d = dest@;
        let ghost s = source.deep_view();
        if let Some(x) = source {
            self.sources.insert(token.clone(), x);
        }
        self.files.insert(token, dest);
        assert(self@.files =~= before.files.insert(t, d));
        assert(s is Some ==> self@.sources =~= before.sources.insert(t, s->0));
    }

    fn begin(&mut self, token: String, dest: String, tmp: String)
        requires
            old(self).wf(),
        ensures
            final(self).wf(),
            final(self)@ == old(self)@.updated(
                ExportUpdateView::BeginFile { token: token@, dest: dest@, tmp: tmp@ },
            ),
    {
        let ghost before = self@;
        let ghost t = token@;
        let p = PendingFile { dest, tmp, open: true, ended: false };
        let ghost said = p.deep_view();
        self.pending.insert(token, p);
        assert(self@.pending =~= before.pending.insert(t, said));
    }

    fn end_text(&mut self, token: String)
        requires
            old(self).wf(),
        ensures
            final(self).wf(),
            final(self)@ == old(self)@.updated(ExportUpdateView::EndText { token: token@ }),
    {
        let ghost before = self@;
        let ghost t = token@;
        match self.pending.remove(&token) {
            Some(p) => {
                let q = PendingFile { dest: p.dest, tmp: p.tmp, open: p.open, ended: true };
                let ghost said = q.deep_view();
                self.pending.insert(token, q);
                assert(self@.pending =~= before.pending.insert(t, said));
            },
            None => {
                assert(self@.pending =~= before.pending);
            },
        }
    }

    fn close_file(&mut self, token: &str, finished: bool)
        requires
            old(self).wf(),
        ensures
            final(self).wf(),
            final(self)@ == old(self)@.updated(
                ExportUpdateView::CloseFile { token: token@, finished },
            ),
    {
        let ghost before = self@;
        let _ = self.sources.remove(token);
        let _ = self.files.remove(token);
        if self.copies || finished {
            let _ = self.executable.remove(token);
        }
        assert(self@.files =~= before.files.remove(token@));
        assert(self@.sources =~= before.sources.remove(token@));
    }

    fn reset(&mut self)
        requires
            old(self).wf(),
        ensures
            final(self).wf(),
            final(self)@ == old(self)@.updated(ExportUpdateView::Reset),
    {
        if self.copies {
            self.files.clear();
            self.sources.clear();
            self.executable.clear();
            assert(self@.files =~= Map::<Seq<char>, Seq<char>>::empty());
            assert(self@.sources =~= Map::<Seq<char>, Seq<char>>::empty());
        }
        self.pending.clear();
        assert(self@.pending =~= Map::<Seq<char>, PendingView>::empty());
    }

    /// Takes note of an action that has been done.
    pub fn note(&mut self, action: &FsAction)
        requires
            old(self).wf(),
        ensures
            final(self).wf(),
            final(self)@ == old(self)@.acted(action.deep_view()),
    {
        if let FsAction::OpenBase { .. } = action {
            self.next_tmp_id = self.tmp_id();
        }
    }

    /// Takes what is known once the actions of a plan have been done.
    pub fn confirm(&mut self, update: ExportUpdate)
        requires
            old(self).wf(),
        ensures
            final(self).wf(),
            final(self)@ == old(self)@.updated(update.deep_view()),
    {
        match update {
            ExportUpdate::Nothing => {},
            ExportUpdate::TrackFile { token, dest, source } => {
                self.track(token, dest, source);
            },
            ExportUpdate::BeginFile { token, dest, tmp } => {
                self.begin(token, dest, tmp);
            },
            ExportUpdate::EndText { token } => {
                self.end_text(token);
            },
            ExportUpdate::Executable { token, on } => {
                self.executable.insert(token, on);
            },
            ExportUpdate::CloseFile { token, finished } => {
                self.close_file(&token, finished);
            },
            ExportUpdate::Reset => {
                self.reset();
            },
        }
    }
}

/// A map has entries exactly if its keys are not empty.
proof fn lemma_some_pending<V>(dom: Set<Seq<char>>, pairs: Seq<(Seq<char>, V)>)
    requires
        keys_of(pairs) == in_order(dom),
        forall|t: Seq<char>| #[trigger] dom.contains(t) <==> in_order(dom).contains(t),
    ensures
        pairs.len() > 0 <==> dom.len() > 0,
{
    let k = keys_of(pairs);
    assert(dom =~= k.to_set());
    vstd::seq_lib::seq_to_set_is_finite(k);
    if pairs.len() > 0 {
        assert(k.contains(k[0]));
        assert(dom.contains(k[0]));
        if dom.len() == 0 {
            dom.lemma_len0_is_empty();
        }
    } else {
        assert(dom =~= Set::empty());
    }
}

/// Exports with blocking input and output.
#[derive(Debug)]
pub struct FsEditor {
    state: ExportState,
}

impl View for FsEditor {
    type V = ExportView;

    closed spec fn view(&self) -> ExportView {
        self.state@
    }
}

impl Default for FsEditor {
    fn default() -> (r: FsEditor)
        ensures
            r.wf(),
            r@ == new_export("."@, false),
    {
        FsEditor::new(".")
    }
}

impl FsEditor {
    /// The state is in order.
    pub closed spec fn wf(self) -> bool {
        self.state.wf()
    }

    /// An export to a directory.
    pub fn new(root: &str) -> (r: FsEditor)
        ensures
            r.wf(),
            r@ == new_export(root@, false),
    {
        FsEditor { state: ExportState::new(root, false) }
    }

    /// The directory that is exported to.
    pub fn root(&self) -> (r: &str)
        ensures
            r@ == self@.root,
    {
        self.state.root()
    }

    /// Strips a prefix from the paths of the drive.
    pub fn with_strip_prefix(self, prefix: &str) -> (r: FsEditor)
        requires
            self.wf(),
        ensures
            r.wf(),
            r@ == (ExportView { strip_prefix: Some(prefix@), ..self@ }),
    {
        FsEditor { state: self.state.with_strip_prefix(prefix) }
    }

    /// The file that a path stands for.
    pub fn repo_path_to_fs(&self, path: &str, allow_empty: bool) -> (r: Result<String, SvnError>)
        ensures
            result_view(r) == self@.at(path@, allow_empty),
    {
        self.state.repo_path_to_fs(path, allow_empty)
    }

    /// Plans an event.
    pub fn on_event(&mut self, event: EditorEvent) -> (r: ExportPlan)
        requires
            old(self).wf(),
        ensures
            final(self).wf(),
            r.deep_view() == old(self)@.plan(event.deep_view()),
            final(self)@ == old(self)@.planned(event.deep_view()),
    {
        self.state.plan(event)
    }

    /// Takes note of an action that has been done.
    pub fn note(&mut self, action: &FsAction)
        requires
            old(self).wf(),
        ensures
            final(self).wf(),
            final(self)@ == old(self)@.acted(action.deep_view()),
    {
        self.state.note(action);
    }

    /// Takes what is known once the actions of a plan have been done.
    pub fn confirm(&mut self, update: ExportUpdate)
        requires
            old(self).wf(),
        ensures
            final(self).wf(),
            final(self)@ == old(self)@.updated(update.deep_view()),
    {
        self.state.confirm(update);
    }
}

/// Exports with asynchronous input and output. Sources of copies count.
#[derive(Debug)]
pub struct TokioFsEditor {
    state: ExportState,
}

impl View for TokioFsEditor {
    type V = ExportView;

    closed spec fn view(&self) -> ExportView {
        self.state@
    }
}

impl Default for TokioFsEditor {
    fn default() -> (r: TokioFsEditor)
        ensures
            r.wf(),
            r@ == new_export("."@, true),
    {
        TokioFsEditor::new(".")
    }
}

impl TokioFsEditor {
    /// The state is in order.
    pub closed spec fn wf(self) -> bool {
        self.state.wf()
    }

    /// An export to a directory.
    pub fn new(root: &str) -> (r: TokioFsEditor)
        ensures
            r.wf(),
            r@ == new_export(root@, true),
    {
        TokioFsEditor { state: ExportState::new(root, true) }
    }

    /// The directory that is exported to.
    pub fn root(&self) -> (r: &str)
        ensures
            r@ == self@.root,
    {
        self.state.root()
    }

    /// Strips a prefix from the paths of the drive.
    pub fn with_strip_prefix(self, prefix: &str) -> (r: TokioFsEditor)
        requires
            self.wf(),
        ensures
            r.wf(),
            r@ == (ExportView { strip_prefix: Some(prefix@), ..self@ }),
    {
        TokioFsEditor { state: self.state.with_strip_prefix(prefix) }
    }

    /// The file that a path stands for.
    pub fn repo_path_to_fs(&self, path: &str, allow_empty: bool) -> (r: Result<String, SvnError>)
        ensures
            result_view(r) == self@.at(path@, allow_empty),
    {
        self.state.repo_path_to_fs(path, allow_empty)
    }

    /// Plans an event.
    pub fn on_event(&mut self, event: EditorEvent) -> (r: ExportPlan)
        requires
            old(self).wf(),
        ensures
            final(self).wf(),
            r.deep_view() == old(self)@.plan(event.deep_view()),
            final(self)@ == old(self)@.planned(event.deep_view()),
    {
        self.state.plan(event)
    }

    /// Takes note of an action that has been done.
    pub fn note(&mut self, action: &FsAction)
        requires
            old(self).wf(),
        ensures
            final(self).wf(),
            final(self)@ == old(self)@.acted(action.deep_view()),
    {
        self.state.note(action);
    }

    /// Takes what is known once the actions of a plan have been done.
    pub fn confirm(&mut self, update: ExportUpdate)
        requires
            old(self).wf(),
        ensures
            final(self).wf(),
            final(self)@ == old(self)@.updated(update.deep_view()),
    {
        self.state.confirm(update);
    }
}

/// The report of a client that has nothing.
pub fn export_report(depth: Depth) -> (r: Report)
    ensures
        r.commands.deep_view() == seq![
            ReportView::SetPath {
                path: Seq::empty(),
                rev: 0,
                start_empty: true,
                lock_token: None,
                depth,
            },
            ReportView::FinishReport,
        ],
{
    let path = String::new();
    assert(path@ =~= Seq::<char>::empty());
    let commands = vec![
        ReportCommand::SetPath { path, rev: 0, start_empty: true, lock_token: None, depth },
        ReportCommand::FinishReport,
    ];
    assert(commands.deep_view() =~= seq![
        ReportView::SetPath {
            path: Seq::empty(),
            rev: 0,
            start_empty: true,
            lock_token: None,
            depth,
        },
        ReportView::FinishReport,
    ]);
    Report { commands }
}

/// A path is the root, or leads from it to something below.
pub open spec fn inside(root: Seq<char>, p: Seq<char>) -> bool {
    ||| p == root
    ||| exists|t: Seq<char>| #[trigger]
        joined_path(root, t) == p && t.len() > 0 && t[0] != '/' && !has_parent_part(t)
}

/// A path that may be missing is the root, or leads from it to something below.
pub open spec fn opt_inside(root: Seq<char>, p: Option<Seq<char>>) -> bool {
    p matches Some(x) ==> inside(root, x)
}

/// A file is the temporary file of another one.
pub open spec fn is_tmp_of(tmp: Seq<char>, dest: Seq<char>) -> bool {
    exists|token: Seq<char>, id: u64| tmp == #[trigger] tmp_path(dest, token, id)
}

/// A delta is being applied to a file below the root, by way of its temporary file.
pub open spec fn pending_inside(root: Seq<char>, p: PendingView) -> bool {
    inside(root, p.dest) && is_tmp_of(p.tmp, p.dest)
}

/// An action touches nothing outside the root.
pub open spec fn action_inside(root: Seq<char>, a: FsActionView) -> bool {
    match a {
        FsActionView::MakeRoot => true,
        FsActionView::MakeDirs { path } => inside(root, path),
        FsActionView::CopyDir { src, dest } => inside(root, src) && inside(root, dest),
        FsActionView::Remove { path } => inside(root, path),
        FsActionView::MakeParents { path } => inside(root, path),
        FsActionView::CheckWay { path } => inside(root, path),
        FsActionView::OpenBase { dest, source, .. } => inside(root, dest) && opt_inside(
            root,
            source,
        ),
        FsActionView::BeginText { dest, tmp, .. } => inside(root, dest) && is_tmp_of(tmp, dest),
        FsActionView::PushText { .. } => true,
        FsActionView::EndText { .. } => true,
        FsActionView::FinishText { dest, tmp, .. } => inside(root, dest) && is_tmp_of(tmp, dest),
        FsActionView::RequireFile { dest, source } => inside(root, dest) && opt_inside(
            root,
            source,
        ),
        FsActionView::DropTmp { path } => exists|dest: Seq<char>| #[trigger]
            inside(root, dest) && is_tmp_of(path, dest),
    }
}

impl ExportView {
    /// All files that are known lie below the root.
    pub open spec fn all_inside(self) -> bool {
        &&& forall|k: Seq<char>| #[trigger]
            self.files.dom().contains(k) ==> inside(self.root, self.files[k])
        &&& forall|k: Seq<char>| #[trigger]
            self.sources.dom().contains(k) ==> inside(self.root, self.sources[k])
        &&& forall|k: Seq<char>| #[trigger]
            self.pending.dom().contains(k) ==> pending_inside(self.root, self.pending[k])
    }
}

proof fn lemma_at_inside(v: ExportView, path: Seq<char>, allow_empty: bool)
    ensures
        v.at(path, allow_empty) matches Ok(p) ==> inside(v.root, p),
{
    exported_paths_stay_inside(v.root, v.strip_prefix, path, allow_empty);
}

proof fn lemma_opened_inside(
    v: ExportView,
    path: Seq<char>,
    token: Seq<char>,
    copy_from: Option<(Seq<char>, u64)>,
)
    requires
        v.all_inside(),
    ensures
        plan_inside(v, v.plan_dir(path, copy_from)),
        plan_inside(v, v.plan_file(path, token, copy_from)),
{
    lemma_at_inside(v, path, true);
    lemma_at_inside(v, path, false);
    if let Some((src, _)) = copy_from {
        lemma_at_inside(v, src, true);
        lemma_at_inside(v, src, false);
    }
}

/// Actions change nothing that is known but the number of the next temporary file.
proof fn lemma_acted(v: ExportView, actions: Seq<FsActionView>, n: int)
    ensures
        v.acted_all(actions, n) == (ExportView {
            next_tmp_id: v.acted_all(actions, n).next_tmp_id,
            ..v
        }),
    decreases n,
{
    if 0 < n <= actions.len() {
        lemma_acted(v, actions, n - 1);
    }
}

/// A plan touches nothing outside the root, and leaves nothing outside it known.
pub open spec fn plan_inside(v: ExportView, p: PlanView) -> bool {
    &&& forall|i: int| 0 <= i < p.actions.len() ==> action_inside(v.root, #[trigger] p.actions[i])
    &&& p.outcome matches Ok(u) ==> v.updated(u).all_inside()
}

proof fn lemma_plan_inside(v: ExportView, e: EditView)
    requires
        v.all_inside(),
        in_order(v.pending.dom()).to_set() == v.pending.dom(),
    ensures
        v.planned(e).all_inside(),
        v.planned(e).root == v.root,
        plan_inside(v, v.plan(e)),
        v.plan(e).outcome matches Ok(u) ==> v.planned(e).updated(u).all_inside(),
{
    match e {
        EditView::AddDir { path, copy_from, .. } => {
            lemma_opened_inside(v, path, Seq::empty(), copy_from);
        },
        EditView::OpenDir { path, .. } => {
            lemma_opened_inside(v, path, Seq::empty(), None);
        },
        EditView::DeleteEntry { path, .. } => {
            lemma_at_inside(v, path, false);
        },
        EditView::AddFile { path, file_token, copy_from, .. } => {
            lemma_opened_inside(v, path, file_token, copy_from);
        },
        EditView::OpenFile { path, file_token, .. } => {
            lemma_opened_inside(v, path, file_token, None);
        },
        EditView::ApplyTextDelta { file_token, .. } => {
            if v.files.dom().contains(file_token) {
                let dest = v.files[file_token];
                let tmp = tmp_path(dest, file_token, v.tmp_id());
                assert(is_tmp_of(tmp, dest));
            }
        },
        EditView::CloseFile { file_token, .. } => {
            if v.pending.dom().contains(file_token) {
                assert(pending_inside(v.root, v.pending[file_token]));
            }
        },
        EditView::AbortEdit => {
            let keys = in_order(v.pending.dom());
            assert forall|i: int| 0 <= i < v.drop_tmps().len() implies action_inside(
                v.root,
                #[trigger] v.drop_tmps()[i],
            ) by {
                assert(keys.to_set().contains(keys[i]));
                assert(v.pending.dom().contains(keys[i]));
                assert(inside(v.root, v.pending[keys[i]].dest));
            }
        },
        EditView::TextDeltaEnd { file_token } => {
            if v.pending.dom().contains(file_token) {
                assert(pending_inside(v.root, v.pending[file_token]));
            }
        },
        _ => {},
    }
}

/// An export touches nothing outside its root, whatever events come and however many of
/// the actions `n` are done, from a state in which all known files lie below the root, and
/// leads to such a state again. A new export is in such a state.
pub proof fn exports_stay_inside(v: ExportView, e: EditView, n: int)
    requires
        v.all_inside(),
        in_order(v.pending.dom()).to_set() == v.pending.dom(),
    ensures
        v.planned(e).acted_all(v.plan(e).actions, n).all_inside(),
        v.planned(e).acted_all(v.plan(e).actions, n).root == v.root,
        plan_inside(v, v.plan(e)),
        v.plan(e).outcome matches Ok(u) ==> v.planned(e).acted_all(
            v.plan(e).actions,
            n,
        ).updated(u).all_inside(),
{
    let w = v.planned(e);
    lemma_plan_inside(v, e);
    lemma_acted(w, v.plan(e).actions, n);
    let x = w.acted_all(v.plan(e).actions, n);
    if let Ok(u) = v.plan(e).outcome {
        assert(x.updated(u) == (ExportView {
            next_tmp_id: x.updated(u).next_tmp_id,
            ..w.updated(u)
        }));
    }
}

} // verus!
