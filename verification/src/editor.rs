//! Editor drives: the commands that build a change, the events that report one, and
//! the reports that say what a client has.

use vstd::prelude::*;

use crate::error::SvnError;
use crate::types::{opt_bytes, props_view, Depth, PropertyList};

verus! {

/// What an editor drive tells its consumer.
#[allow(inconsistent_fields)]
#[derive(Clone, Debug, PartialEq, Eq)]
pub enum EditorEvent {
    TargetRev { rev: u64 },
    OpenRoot { rev: Option<u64>, token: String },
    DeleteEntry { path: String, rev: u64, dir_token: String },
    AddDir {
        path: String,
        parent_token: String,
        child_token: String,
        copy_from: Option<(String, u64)>,
    },
    OpenDir { path: String, parent_token: String, child_token: String, rev: u64 },
    ChangeDirProp { dir_token: String, name: String, value: Option<Vec<u8>> },
    CloseDir { dir_token: String },
    AbsentDir { path: String, parent_token: String },
    AddFile {
        path: String,
        dir_token: String,
        file_token: String,
        copy_from: Option<(String, u64)>,
    },
    OpenFile { path: String, dir_token: String, file_token: String, rev: u64 },
    ApplyTextDelta { file_token: String, base_checksum: Option<String> },
    TextDeltaChunk { file_token: String, chunk: Vec<u8> },
    TextDeltaEnd { file_token: String },
    ChangeFileProp { file_token: String, name: String, value: Option<Vec<u8>> },
    CloseFile { file_token: String, text_checksum: Option<String> },
    AbsentFile { path: String, parent_token: String },
    CloseEdit,
    AbortEdit,
    FinishReplay,
    RevProps { props: PropertyList },
}

/// A step of an editor drive that a client sends.
#[allow(inconsistent_fields)]
#[derive(Clone, Debug, PartialEq, Eq)]
pub enum EditorCommand {
    OpenRoot { rev: Option<u64>, token: String },
    DeleteEntry { path: String, rev: u64, dir_token: String },
    AddDir {
        path: String,
        parent_token: String,
        child_token: String,
        copy_from: Option<(String, u64)>,
    },
    OpenDir { path: String, parent_token: String, child_token: String, rev: u64 },
    ChangeDirProp { dir_token: String, name: String, value: Option<Vec<u8>> },
    CloseDir { dir_token: String },
    AbsentDir { path: String, parent_token: String },
    AddFile {
        path: String,
        dir_token: String,
        file_token: String,
        copy_from: Option<(String, u64)>,
    },
    OpenFile { path: String, dir_token: String, file_token: String, rev: u64 },
    ApplyTextDelta { file_token: String, base_checksum: Option<String> },
    TextDeltaChunk { file_token: String, chunk: Vec<u8> },
    TextDeltaEnd { file_token: String },
    ChangeFileProp { file_token: String, name: String, value: Option<Vec<u8>> },
    CloseFile { file_token: String, text_checksum: Option<String> },
    AbsentFile { path: String, parent_token: String },
    CloseEdit,
    AbortEdit,
}

/// What a step of an editor drive says, whether it is sent or received.
#[allow(inconsistent_fields)]
pub enum EditView {
    TargetRev { rev: u64 },
    OpenRoot { rev: Option<u64>, token: Seq<char> },
    DeleteEntry { path: Seq<char>, rev: u64, dir_token: Seq<char> },
    AddDir {
        path: Seq<char>,
        parent_token: Seq<char>,
        child_token: Seq<char>,
        copy_from: Option<(Seq<char>, u64)>,
    },
    OpenDir { path: Seq<char>, parent_token: Seq<char>, child_token: Seq<char>, rev: u64 },
    ChangeDirProp { dir_token: Seq<char>, name: Seq<char>, value: Option<Seq<u8>> },
    CloseDir { dir_token: Seq<char> },
    AbsentDir { path: Seq<char>, parent_token: Seq<char> },
    AddFile {
        path: Seq<char>,
        dir_token: Seq<char>,
        file_token: Seq<char>,
        copy_from: Option<(Seq<char>, u64)>,
    },
    OpenFile { path: Seq<char>, dir_token: Seq<char>, file_token: Seq<char>, rev: u64 },
    ApplyTextDelta { file_token: Seq<char>, base_checksum: Option<Seq<char>> },
    TextDeltaChunk { file_token: Seq<char>, chunk: Seq<u8> },
    TextDeltaEnd { file_token: Seq<char> },
    ChangeFileProp { file_token: Seq<char>, name: Seq<char>, value: Option<Seq<u8>> },
    CloseFile { file_token: Seq<char>, text_checksum: Option<Seq<char>> },
    AbsentFile { path: Seq<char>, parent_token: Seq<char> },
    CloseEdit,
    AbortEdit,
    FinishReplay,
    RevProps { props: Map<Seq<char>, Seq<u8>> },
}

/// What a copy source says.
pub open spec fn copy_view(c: Option<(String, u64)>) -> Option<(Seq<char>, u64)> {
    match c {
        Some((p, r)) => Some((p@, r)),
        None => None,
    }
}

impl DeepView for EditorEvent {
    type V = EditView;

    open spec fn deep_view(&self) -> EditView {
        match *self {
            EditorEvent::TargetRev { rev } => EditView::TargetRev { rev },
            EditorEvent::OpenRoot { rev, token } => EditView::OpenRoot { rev, token: token@ },
            EditorEvent::DeleteEntry { path, rev, dir_token } => EditView::DeleteEntry {
                path: path@,
                rev,
                dir_token: dir_token@,
            },
            EditorEvent::AddDir { path, parent_token, child_token, copy_from } => EditView::AddDir {
                path: path@,
                parent_token: parent_token@,
                child_token: child_token@,
                copy_from: copy_view(copy_from),
            },
            EditorEvent::OpenDir { path, parent_token, child_token, rev } => EditView::OpenDir {
                path: path@,
                parent_token: parent_token@,
                child_token: child_token@,
                rev,
            },
            EditorEvent::ChangeDirProp { dir_token, name, value } => EditView::ChangeDirProp {
                dir_token: dir_token@,
                name: name@,
                value: opt_bytes(value),
            },
            EditorEvent::CloseDir { dir_token } => EditView::CloseDir { dir_token: dir_token@ },
            EditorEvent::AbsentDir { path, parent_token } => EditView::AbsentDir {
                path: path@,
                parent_token: parent_token@,
            },
            EditorEvent::AddFile { path, dir_token, file_token, copy_from } => EditView::AddFile {
                path: path@,
                dir_token: dir_token@,
                file_token: file_token@,
                copy_from: copy_view(copy_from),
            },
            EditorEvent::OpenFile { path, dir_token, file_token, rev } => EditView::OpenFile {
                path: path@,
                dir_token: dir_token@,
                file_token: file_token@,
                rev,
            },
            EditorEvent::ApplyTextDelta { file_token, base_checksum } => EditView::ApplyTextDelta {
                file_token: file_token@,
                base_checksum: base_checksum.deep_view(),
            },
            EditorEvent::TextDeltaChunk { file_token, chunk } => EditView::TextDeltaChunk {
                file_token: file_token@,
                chunk: chunk@,
            },
            EditorEvent::TextDeltaEnd { file_token } => EditView::TextDeltaEnd {
                file_token: file_token@,
            },
            EditorEvent::ChangeFileProp { file_token, name, value } => EditView::ChangeFileProp {
                file_token: file_token@,
                name: name@,
                value: opt_bytes(value),
            },
            EditorEvent::CloseFile { file_token, text_checksum } => EditView::CloseFile {
                file_token: file_token@,
                text_checksum: text_checksum.deep_view(),
            },
            EditorEvent::AbsentFile { path, parent_token } => EditView::AbsentFile {
                path: path@,
                parent_token: parent_token@,
            },
            EditorEvent::CloseEdit => EditView::CloseEdit,
            EditorEvent::AbortEdit => EditView::AbortEdit,
            EditorEvent::FinishReplay => EditView::FinishReplay,
            EditorEvent::RevProps { props } => EditView::RevProps { props: props_view(props) },
        }
    }
}

impl DeepView for EditorCommand {
    type V = EditView;

    open spec fn deep_view(&self) -> EditView {
        match *self {
            EditorCommand::OpenRoot { rev, token } => EditView::OpenRoot { rev, token: token@ },
            EditorCommand::DeleteEntry { path, rev, dir_token } => EditView::DeleteEntry {
                path: path@,
                rev,
                dir_token: dir_token@,
            },
            EditorCommand::AddDir { path, parent_token, child_token, copy_from } =>
                EditView::AddDir {
                path: path@,
                parent_token: parent_token@,
                child_token: child_token@,
                copy_from: copy_view(copy_from),
            },
            EditorCommand::OpenDir { path, parent_token, child_token, rev } => EditView::OpenDir {
                path: path@,
                parent_token: parent_token@,
                child_token: child_token@,
                rev,
            },
            EditorCommand::ChangeDirProp { dir_token, name, value } => EditView::ChangeDirProp {
                dir_token: dir_token@,
                name: name@,
                value: opt_bytes(value),
            },
            EditorCommand::CloseDir { dir_token } => EditView::CloseDir { dir_token: dir_token@ },
            EditorCommand::AbsentDir { path, parent_token } => EditView::AbsentDir {
                path: path@,
                parent_token: parent_token@,
            },
            EditorCommand::AddFile { path, dir_token, file_token, copy_from } =>
                EditView::AddFile {
                path: path@,
                dir_token: dir_token@,
                file_token: file_token@,
                copy_from: copy_view(copy_from),
            },
            EditorCommand::OpenFile { path, dir_token, file_token, rev } => EditView::OpenFile {
                path: path@,
                dir_token: dir_token@,
                file_token: file_token@,
                rev,
            },
            EditorCommand::ApplyTextDelta { file_token, base_checksum } =>
                EditView::ApplyTextDelta {
                file_token: file_token@,
                base_checksum: base_checksum.deep_view(),
            },
            EditorCommand::TextDeltaChunk { file_token, chunk } => EditView::TextDeltaChunk {
                file_token: file_token@,
                chunk: chunk@,
            },
            EditorCommand::TextDeltaEnd { file_token } => EditView::TextDeltaEnd {
                file_token: file_token@,
            },
            EditorCommand::ChangeFileProp { file_token, name, value } =>
                EditView::ChangeFileProp {
                file_token: file_token@,
                name: name@,
                value: opt_bytes(value),
            },
            EditorCommand::CloseFile { file_token, text_checksum } => EditView::CloseFile {
                file_token: file_token@,
                text_checksum: text_checksum.deep_view(),
            },
            EditorCommand::AbsentFile { path, parent_token } => EditView::AbsentFile {
                path: path@,
                parent_token: parent_token@,
            },
            EditorCommand::CloseEdit => EditView::CloseEdit,
            EditorCommand::AbortEdit => EditView::AbortEdit,
        }
    }
}

/// A consumer of an editor drive. What it answers decides whether the drive goes on.
pub trait EditorEventHandler {
    /// Takes one event.
    fn on_event(&mut self, event: EditorEvent) -> Result<(), SvnError>;
}

/// A step of a report, which tells the server what the client has.
#[derive(Clone, Debug, PartialEq, Eq)]
pub enum ReportCommand {
    SetPath {
        path: String,
        rev: u64,
        start_empty: bool,
        lock_token: Option<String>,
        depth: Depth,
    },
    DeletePath { path: String },
    LinkPath {
        path: String,
        url: String,
        rev: u64,
        start_empty: bool,
        lock_token: Option<String>,
        depth: Depth,
    },
    FinishReport,
    AbortReport,
}

/// What a step of a report says.
pub enum ReportView {
    SetPath {
        path: Seq<char>,
        rev: u64,
        start_empty: bool,
        lock_token: Option<Seq<char>>,
        depth: Depth,
    },
    DeletePath { path: Seq<char> },
    LinkPath {
        path: Seq<char>,
        url: Seq<char>,
        rev: u64,
        start_empty: bool,
        lock_token: Option<Seq<char>>,
        depth: Depth,
    },
    FinishReport,
    AbortReport,
}

impl DeepView for ReportCommand {
    type V = ReportView;

    open spec fn deep_view(&self) -> ReportView {
        match *self {
            ReportCommand::SetPath { path, rev, start_empty, lock_token, depth } =>
                ReportView::SetPath {
                path: path@,
                rev,
                start_empty,
                lock_token: lock_token.deep_view(),
                depth,
            },
            ReportCommand::DeletePath { path } => ReportView::DeletePath { path: path@ },
            ReportCommand::LinkPath { path, url, rev, start_empty, lock_token, depth } =>
                ReportView::LinkPath {
                path: path@,
                url: url@,
                rev,
                start_empty,
                lock_token: lock_token.deep_view(),
                depth,
            },
            ReportCommand::FinishReport => ReportView::FinishReport,
            ReportCommand::AbortReport => ReportView::AbortReport,
        }
    }
}

/// A report: what the client has, path by path.
#[derive(Clone, Debug, PartialEq, Eq)]
pub struct Report {
    pub commands: Vec<ReportCommand>,
}

impl DeepView for Report {
    type V = Seq<ReportView>;

    open spec fn deep_view(&self) -> Seq<ReportView> {
        self.commands.deep_view()
    }
}

impl Report {
    /// An empty report.
    pub fn new() -> (r: Report)
        ensures
            r.deep_view() == Seq::<ReportView>::empty(),
    {
        let r = Report { commands: Vec::new() };
        assert(r.deep_view() =~= Seq::<ReportView>::empty());
        r
    }

    /// Adds a step.
    pub fn push(&mut self, command: ReportCommand)
        ensures
            final(self).deep_view() == old(self).deep_view().push(command.deep_view()),
    {
        let ghost before = self.deep_view();
        self.commands.push(command);
        assert(self.deep_view() =~= before.push(command.deep_view()));
    }

    /// Ends the report.
    pub fn finish(&mut self)
        ensures
            final(self).deep_view() == old(self).deep_view().push(ReportView::FinishReport),
    {
        self.push(ReportCommand::FinishReport);
    }
}

} // verus!
