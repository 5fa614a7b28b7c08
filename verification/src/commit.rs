//! Building a commit: the changes that are wanted, what they come to against the
//! repository, and the editor drive that sends them.
//!
//! What stands in the repository is asked path by path: the changes and the plan say
//! which node to ask for next, and take the answers.

use vstd::prelude::*;

use crate::commit_drive::{clone_opt_bytes, Encoding, PropChange, PropView};
use crate::error::{protocol, result_view, ErrorView, SvnError};
use crate::keymap::KeyMap;
use crate::path::{rel_dir_path, rel_path, validate_rel_dir_path, validate_rel_path};
use crate::raw::copy_bytes;
use crate::svndiff::SvndiffVersion;
use crate::text::{cat, cat3, decimal, decimal_string};
use crate::types::{opt_bytes, NodeKind};

verus! {

/// Which version of the delta format a commit uses.
#[derive(Clone, Copy, Debug, PartialEq, Eq, Structural)]
pub enum SvndiffMode {
    /// The newest that the server understands.
    Auto,
    V0,
    V1,
    V2,
}

impl Default for SvndiffMode {
    fn default() -> (r: SvndiffMode)
        ensures
            r == SvndiffMode::Auto,
    {
        SvndiffMode::Auto
    }
}

/// The version that a mode stands for, where the server does or does not understand the
/// versions 1 and 2.
pub open spec fn version_for(mode: SvndiffMode, svndiff1: bool, svndiff2: bool) -> Result<
    SvndiffVersion,
    ErrorView,
> {
    match mode {
        SvndiffMode::Auto => Ok(
            if svndiff2 {
                SvndiffVersion::V2
            } else if svndiff1 {
                SvndiffVersion::V1
            } else {
                SvndiffVersion::V0
            },
        ),
        SvndiffMode::V0 => Ok(SvndiffVersion::V0),
        SvndiffMode::V1 => if svndiff1 {
            Ok(SvndiffVersion::V1)
        } else {
            Err(ErrorView::Protocol("server does not support svndiff1"@))
        },
        SvndiffMode::V2 => if svndiff2 {
            Ok(SvndiffVersion::V2)
        } else {
            Err(ErrorView::Protocol("server does not support svndiff2"@))
        },
    }
}

/// A version, or why there is none.
pub open spec fn version_is(
    r: Result<SvndiffVersion, SvnError>,
    v: Result<SvndiffVersion, ErrorView>,
) -> bool {
    match r {
        Ok(x) => v == Ok::<SvndiffVersion, ErrorView>(x),
        Err(e) => v == Err::<SvndiffVersion, ErrorView>(e.deep_view()),
    }
}

/// The version that a mode stands for.
pub fn select_svndiff_version(mode: SvndiffMode, svndiff1: bool, svndiff2: bool) -> (r: Result<
    SvndiffVersion,
    SvnError,
>)
    ensures
        version_is(r, version_for(mode, svndiff1, svndiff2)),
{
    match mode {
        SvndiffMode::Auto => {
            if svndiff2 {
                Ok(SvndiffVersion::V2)
            } else if svndiff1 {
                Ok(SvndiffVersion::V1)
            } else {
                Ok(SvndiffVersion::V0)
            }
        },
        SvndiffMode::V0 => Ok(SvndiffVersion::V0),
        SvndiffMode::V1 => {
            if svndiff1 {
                Ok(SvndiffVersion::V1)
            } else {
                Err(protocol("server does not support svndiff1"))
            }
        },
        SvndiffMode::V2 => {
            if svndiff2 {
                Ok(SvndiffVersion::V2)
            } else {
                Err(protocol("server does not support svndiff2"))
            }
        },
    }
}

/// A change that is wanted.
#[derive(Clone, Debug)]
pub enum Change {
    PutFile { path: String, contents: Vec<u8> },
    MkdirP { path: String },
    Delete { path: String },
    Copy { from_path: String, from_rev: Option<u64>, to_path: String },
    FileProp { path: String, name: String, value: Option<Vec<u8>> },
    DirProp { path: String, name: String, value: Option<Vec<u8>> },
}

/// What a `Change` says.
pub enum ChangeView {
    PutFile { path: Seq<char>, contents: Seq<u8> },
    MkdirP { path: Seq<char> },
    Delete { path: Seq<char> },
    Copy { from_path: Seq<char>, from_rev: Option<u64>, to_path: Seq<char> },
    FileProp { path: Seq<char>, name: Seq<char>, value: Option<Seq<u8>> },
    DirProp { path: Seq<char>, name: Seq<char>, value: Option<Seq<u8>> },
}

impl DeepView for Change {
    type V = ChangeView;

    open spec fn deep_view(&self) -> ChangeView {
        match *self {
            Change::PutFile { path, contents } => ChangeView::PutFile {
                path: path@,
                contents: contents@,
            },
            Change::MkdirP { path } => ChangeView::MkdirP { path: path@ },
            Change::Delete { path } => ChangeView::Delete { path: path@ },
            Change::Copy { from_path, from_rev, to_path } => ChangeView::Copy {
                from_path: from_path@,
                from_rev,
                to_path: to_path@,
            },
            Change::FileProp { path, name, value } => ChangeView::FileProp {
                path: path@,
                name: name@,
                value: opt_bytes(value),
            },
            Change::DirProp { path, name, value } => ChangeView::DirProp {
                path: path@,
                name: name@,
                value: opt_bytes(value),
            },
        }
    }
}

/// What happens to the text of a file.
#[derive(Debug)]
pub enum FileAction {
    Put(Vec<u8>),
    Copy { from_path: String, from_rev: u64 },
}

/// What a `FileAction` says.
pub enum FileActionView {
    Put(Seq<u8>),
    Copy { from_path: Seq<char>, from_rev: u64 },
}

impl DeepView for FileAction {
    type V = FileActionView;

    open spec fn deep_view(&self) -> FileActionView {
        match *self {
            FileAction::Put(b) => FileActionView::Put(b@),
            FileAction::Copy { from_path, from_rev } => FileActionView::Copy {
                from_path: from_path@,
                from_rev,
            },
        }
    }
}

/// What happens to a file.
#[derive(Debug)]
pub struct FileOp {
    pub action: Option<FileAction>,
    pub props: Vec<PropChange>,
}

/// What a `FileOp` says.
pub struct FileOpView {
    pub action: Option<FileActionView>,
    pub props: Seq<PropView>,
}

impl DeepView for FileOp {
    type V = FileOpView;

    open spec fn deep_view(&self) -> FileOpView {
        FileOpView { action: self.action.deep_view(), props: self.props.deep_view() }
    }
}

/// How a directory comes to be there.
#[derive(Debug)]
pub enum DirAction {
    Mkdir,
    Copy { from_path: String, from_rev: u64 },
}

/// What a `DirAction` says.
pub enum DirActionView {
    Mkdir,
    Copy { from_path: Seq<char>, from_rev: u64 },
}

impl DeepView for DirAction {
    type V = DirActionView;

    open spec fn deep_view(&self) -> DirActionView {
        match *self {
            DirAction::Mkdir => DirActionView::Mkdir,
            DirAction::Copy { from_path, from_rev } => DirActionView::Copy {
                from_path: from_path@,
                from_rev,
            },
        }
    }
}

/// What happens to a directory.
#[derive(Debug)]
pub struct DirOp {
    pub action: Option<DirAction>,
    pub props: Vec<PropChange>,
}

/// What a `DirOp` says.
pub struct DirOpView {
    pub action: Option<DirActionView>,
    pub props: Seq<PropView>,
}

impl DeepView for DirOp {
    type V = DirOpView;

    open spec fn deep_view(&self) -> DirOpView {
        DirOpView { action: self.action.deep_view(), props: self.props.deep_view() }
    }
}

/// A copy whose source has not been looked at yet.
#[derive(Debug)]
pub struct CopyOp {
    pub from_path: String,
    pub from_rev: Option<u64>,
    pub to_path: String,
}

/// What a `CopyOp` says.
pub struct CopyOpView {
    pub from_path: Seq<char>,
    pub from_rev: Option<u64>,
    pub to_path: Seq<char>,
}

impl DeepView for CopyOp {
    type V = CopyOpView;

    open spec fn deep_view(&self) -> CopyOpView {
        CopyOpView {
            from_path: self.from_path@,
            from_rev: self.from_rev,
            to_path: self.to_path@,
        }
    }
}

/// The changes of a commit, sorted by what they are about.
pub struct CommitChanges {
    pub files: KeyMap<FileOp>,
    pub dirs: KeyMap<DirOp>,
    pub deletes: KeyMap<bool>,
    pub copies: Vec<CopyOp>,
}

/// What `CommitChanges` say.
#[verifier::ext_equal]
pub struct ChangesView {
    pub files: Map<Seq<char>, FileOpView>,
    pub dirs: Map<Seq<char>, DirOpView>,
    pub deletes: Set<Seq<char>>,
    pub copies: Seq<CopyOpView>,
}

/// What the changes of files say.
pub open spec fn files_view(m: Map<Seq<char>, FileOp>) -> Map<Seq<char>, FileOpView> {
    m.map_values(|o: FileOp| o.deep_view())
}

/// What the changes of directories say.
pub open spec fn dirs_view(m: Map<Seq<char>, DirOp>) -> Map<Seq<char>, DirOpView> {
    m.map_values(|o: DirOp| o.deep_view())
}

impl View for CommitChanges {
    type V = ChangesView;

    open spec fn view(&self) -> ChangesView {
        ChangesView {
            files: files_view(self.files@),
            dirs: dirs_view(self.dirs@),
            deletes: self.deletes@.dom(),
            copies: self.copies.deep_view(),
        }
    }
}

impl ChangesView {
    /// What happens to a file so far.
    pub open spec fn file_op(self, path: Seq<char>) -> FileOpView {
        if self.files.dom().contains(path) {
            self.files[path]
        } else {
            FileOpView { action: None, props: Seq::empty() }
        }
    }

    /// What happens to a directory so far.
    pub open spec fn dir_op(self, path: Seq<char>) -> DirOpView {
        if self.dirs.dom().contains(path) {
            self.dirs[path]
        } else {
            DirOpView { action: None, props: Seq::empty() }
        }
    }

    /// A file gets a text, if it does not have one yet.
    pub open spec fn with_file_action(self, path: Seq<char>, action: FileActionView) -> Result<
        ChangesView,
        ErrorView,
    > {
        let op = self.file_op(path);
        if op.action is Some {
            Err(
                ErrorView::Protocol(
                    "commit builder has multiple content actions for the same file"@,
                ),
            )
        } else {
            Ok(
                ChangesView {
                    files: self.files.insert(
                        path,
                        FileOpView { action: Some(action), props: op.props },
                    ),
                    ..self
                },
            )
        }
    }

    /// A file gets a property.
    pub open spec fn with_file_prop(self, path: Seq<char>, prop: PropView) -> ChangesView {
        let op = self.file_op(path);
        ChangesView {
            files: self.files.insert(
                path,
                FileOpView { action: op.action, props: op.props.push(prop) },
            ),
            ..self
        }
    }

    /// A directory is to be there, or comes from elsewhere.
    pub open spec fn with_dir_action(self, path: Seq<char>, action: DirActionView) -> ChangesView {
        let op = self.dir_op(path);
        ChangesView {
            dirs: self.dirs.insert(path, DirOpView { action: Some(action), props: op.props }),
            ..self
        }
    }

    /// A directory gets a property.
    pub open spec fn with_dir_prop(self, path: Seq<char>, prop: PropView) -> ChangesView {
        let op = self.dir_op(path);
        ChangesView {
            dirs: self.dirs.insert(
                path,
                DirOpView { action: op.action, props: op.props.push(prop) },
            ),
            ..self
        }
    }

    /// One more change.
    pub open spec fn with(self, c: ChangeView) -> Result<ChangesView, ErrorView> {
        match c {
            ChangeView::PutFile { path, contents } => match rel_path(path) {
                Err(e) => Err(e),
                Ok(p) => if self.deletes.contains(p) {
                    Err(ErrorView::Protocol("put-file conflicts with delete at "@ + p))
                } else {
                    self.with_file_action(p, FileActionView::Put(contents))
                },
            },
            ChangeView::MkdirP { path } => match rel_dir_path(path) {
                Err(e) => Err(e),
                Ok(p) => if p.len() > 0 && self.deletes.contains(p) {
                    Err(ErrorView::Protocol("mkdir-p conflicts with delete at "@ + p))
                } else if self.dir_op(p).action matches Some(DirActionView::Copy { .. }) {
                    Err(ErrorView::Protocol("cannot combine mkdir-p with copy"@))
                } else {
                    Ok(self.with_dir_action(p, DirActionView::Mkdir))
                },
            },
            ChangeView::Delete { path } => match rel_path(path) {
                Err(e) => Err(e),
                Ok(p) => Ok(ChangesView { deletes: self.deletes.insert(p), ..self }),
            },
            ChangeView::Copy { from_path, from_rev, to_path } => match rel_path(from_path) {
                Err(e) => Err(e),
                Ok(f) => match rel_path(to_path) {
                    Err(e) => Err(e),
                    Ok(t) => Ok(
                        ChangesView {
                            copies: self.copies.push(
                                CopyOpView { from_path: f, from_rev, to_path: t },
                            ),
                            ..self
                        },
                    ),
                },
            },
            ChangeView::FileProp { path, name, value } => match rel_path(path) {
                Err(e) => Err(e),
                Ok(p) => if self.deletes.contains(p) {
                    Err(ErrorView::Protocol("file-prop conflicts with delete at "@ + p))
                } else {
                    Ok(self.with_file_prop(p, PropView { name, value }))
                },
            },
            ChangeView::DirProp { path, name, value } => match rel_dir_path(path) {
                Err(e) => Err(e),
                Ok(p) => if p.len() > 0 && self.deletes.contains(p) {
                    Err(ErrorView::Protocol("dir-prop conflicts with delete at "@ + p))
                } else {
                    Ok(self.with_dir_prop(p, PropView { name, value }))
                },
            },
        }
    }
}

/// No changes.
pub open spec fn no_changes() -> ChangesView {
    ChangesView {
        files: Map::empty(),
        dirs: Map::empty(),
        deletes: Set::empty(),
        copies: Seq::empty(),
    }
}

/// The changes before index `n`, sorted by what they are about.
pub open spec fn sorted_changes(changes: Seq<ChangeView>, n: int) -> Result<ChangesView, ErrorView>
    decreases n,
{
    if n <= 0 || n > changes.len() {
        Ok(no_changes())
    } else {
        match sorted_changes(changes, n - 1) {
            Ok(v) => v.with(changes[n - 1]),
            Err(e) => Err(e),
        }
    }
}

/// What became of changes that took `v` on.
pub open spec fn changed_to(
    r: Result<(), SvnError>,
    before: ChangesView,
    after: ChangesView,
    v: Result<ChangesView, ErrorView>,
) -> bool {
    match r {
        Ok(_) => v == Ok::<ChangesView, ErrorView>(after),
        Err(e) => v == Err::<ChangesView, ErrorView>(e.deep_view()) && after == before,
    }
}

impl CommitChanges {
    /// The maps are in order.
    pub open spec fn wf(self) -> bool {
        self.files.wf() && self.dirs.wf() && self.deletes.wf()
    }

    fn new() -> (r: CommitChanges)
        ensures
            r.wf(),
            r@ == no_changes(),
    {
        let r = CommitChanges {
            files: KeyMap::new(),
            dirs: KeyMap::new(),
            deletes: KeyMap::new(),
            copies: Vec::new(),
        };
        assert(r@ =~= no_changes());
        r
    }

    fn take_file(&mut self, path: &str) -> (r: FileOp)
        requires
            old(self).wf(),
        ensures
            final(self).wf(),
            r.deep_view() == old(self)@.file_op(path@),
            final(self)@ == (ChangesView { files: old(self)@.files.remove(path@), ..old(self)@ }),
    {
        let ghost before = self@;
        let r = match self.files.remove(path) {
            Some(op) => op,
            None => FileOp { action: None, props: Vec::new() },
        };
        assert(self@.files =~= before.files.remove(path@));
        assert(r.deep_view().props =~= before.file_op(path@).props);
        r
    }

    fn put_file(&mut self, path: String, op: FileOp)
        requires
            old(self).wf(),
        ensures
            final(self).wf(),
            final(self)@ == (ChangesView {
                files: old(self)@.files.insert(path@, op.deep_view()),
                ..old(self)@
            }),
    {
        let ghost before = self@;
        let ghost p = path@;
        let ghost o = op.deep_view();
        self.files.insert(path, op);
        assert(self@.files =~= before.files.insert(p, o));
    }

    fn take_dir(&mut self, path: &str) -> (r: DirOp)
        requires
            old(self).wf(),
        ensures
            final(self).wf(),
            r.deep_view() == old(self)@.dir_op(path@),
            final(self)@ == (ChangesView { dirs: old(self)@.dirs.remove(path@), ..old(self)@ }),
    {
        let ghost before = self@;
        let r = match self.dirs.remove(path) {
            Some(op) => op,
            None => DirOp { action: None, props: Vec::new() },
        };
        assert(self@.dirs =~= before.dirs.remove(path@));
        assert(r.deep_view().props =~= before.dir_op(path@).props);
        r
    }

    fn put_dir(&mut self, path: String, op: DirOp)
        requires
            old(self).wf(),
        ensures
            final(self).wf(),
            final(self)@ == (ChangesView {
                dirs: old(self)@.dirs.insert(path@, op.deep_view()),
                ..old(self)@
            }),
    {
        let ghost before = self@;
        let ghost p = path@;
        let ghost o = op.deep_view();
        self.dirs.insert(path, op);
        assert(self@.dirs =~= before.dirs.insert(p, o));
    }

    fn set_file_action(&mut self, path: String, action: FileAction) -> (r: Result<(), SvnError>)
        requires
            old(self).wf(),
        ensures
            final(self).wf(),
            changed_to(
                r,
                old(self)@,
                final(self)@,
                old(self)@.with_file_action(path@, action.deep_view()),
            ),
    {
        let ghost before = self@;
        let ghost p = path@;
        let op = self.take_file(&path);
        if op.action.is_some() {
            self.put_file(path, op);
            assert(self@.files =~= before.files);
            return Err(protocol("commit builder has multiple content actions for the same file"));
        }
        self.put_file(path, FileOp { action: Some(action), props: op.props });
        assert(before.files.remove(p).insert(p, self@.files[p]) =~= before.files.insert(
            p,
            self@.files[p],
        ));
        Ok(())
    }

    fn add_file_prop(&mut self, path: String, prop: PropChange)
        requires
            old(self).wf(),
        ensures
            final(self).wf(),
            final(self)@ == old(self)@.with_file_prop(path@, prop.deep_view()),
    {
        let ghost before = self@;
        let ghost p = path@;
        let ghost x = prop.deep_view();
        let mut op = self.take_file(&path);
        op.props.push(prop);
        assert(op.deep_view().props =~= before.file_op(p).props.push(x));
        self.put_file(path, op);
        assert(self@.files =~= before.with_file_prop(p, x).files);
    }

    fn set_dir_action(&mut self, path: String, action: DirAction)
        requires
            old(self).wf(),
        ensures
            final(self).wf(),
            final(self)@ == old(self)@.with_dir_action(path@, action.deep_view()),
    {
        let ghost before = self@;
        let ghost p = path@;
        let ghost a = action.deep_view();
        let op = self.take_dir(&path);
        self.put_dir(path, DirOp { action: Some(action), props: op.props });
        assert(self@.dirs =~= before.with_dir_action(p, a).dirs);
    }

    fn add_dir_prop(&mut self, path: String, prop: PropChange)
        requires
            old(self).wf(),
        ensures
            final(self).wf(),
            final(self)@ == old(self)@.with_dir_prop(path@, prop.deep_view()),
    {
        let ghost before = self@;
        let ghost p = path@;
        let ghost x = prop.deep_view();
        let mut op = self.take_dir(&path);
        op.props.push(prop);
        assert(op.deep_view().props =~= before.dir_op(p).props.push(x));
        self.put_dir(path, op);
        assert(self@.dirs =~= before.with_dir_prop(p, x).dirs);
    }

    fn dir_is_copy(&self, path: &str) -> (r: bool)
        requires
            self.wf(),
        ensures
            r == (self@.dir_op(path@).action matches Some(DirActionView::Copy { .. })),
    {
        match self.dirs.get(path) {
            Some(op) => match &op.action {
                Some(DirAction::Copy { .. }) => true,
                _ => false,
            },
            None => false,
        }
    }

    fn dir_is_made(&self, path: &str) -> (r: bool)
        requires
            self.wf(),
        ensures
            r == (self@.dir_op(path@).action == Some(DirActionView::Mkdir)),
    {
        match self.dirs.get(path) {
            Some(op) => match &op.action {
                Some(DirAction::Mkdir) => true,
                _ => false,
            },
            None => false,
        }
    }

    fn add_put(&mut self, path: &str, contents: &[u8]) -> (r: Result<(), SvnError>)
        requires
            old(self).wf(),
        ensures
            final(self).wf(),
            changed_to(
                r,
                old(self)@,
                final(self)@,
                old(self)@.with(ChangeView::PutFile { path: path@, contents: contents@ }),
            ),
    {
        let p = match validate_rel_path(path) {
            Ok(p) => p,
            Err(e) => {
                return Err(e);
            },
        };
        if self.deletes.contains_key(&p) {
            return Err(SvnError::Protocol(cat("put-file conflicts with delete at ", &p)));
        }
        self.set_file_action(p, FileAction::Put(copy_bytes(contents)))
    }

    fn add_mkdir(&mut self, path: &str) -> (r: Result<(), SvnError>)
        requires
            old(self).wf(),
        ensures
            final(self).wf(),
            changed_to(
                r,
                old(self)@,
                final(self)@,
                old(self)@.with(ChangeView::MkdirP { path: path@ }),
            ),
    {
        let p = match validate_rel_dir_path(path) {
            Ok(p) => p,
            Err(e) => {
                return Err(e);
            },
        };
        if !p.as_str().is_empty() && self.deletes.contains_key(&p) {
            return Err(SvnError::Protocol(cat("mkdir-p conflicts with delete at ", &p)));
        }
        if self.dir_is_copy(&p) {
            return Err(protocol("cannot combine mkdir-p with copy"));
        }
        self.set_dir_action(p, DirAction::Mkdir);
        Ok(())
    }

    fn add_delete(&mut self, path: &str) -> (r: Result<(), SvnError>)
        requires
            old(self).wf(),
        ensures
            final(self).wf(),
            changed_to(
                r,
                old(self)@,
                final(self)@,
                old(self)@.with(ChangeView::Delete { path: path@ }),
            ),
    {
        let ghost before = self@;
        let p = match validate_rel_path(path) {
            Ok(p) => p,
            Err(e) => {
                return Err(e);
            },
        };
        let ghost x = p@;
        self.deletes.insert(p, true);
        assert(self@.deletes =~= before.deletes.insert(x));
        Ok(())
    }

    fn add_copy(&mut self, from_path: &str, from_rev: Option<u64>, to_path: &str) -> (r: Result<
        (),
        SvnError,
    >)
        requires
            old(self).wf(),
        ensures
            final(self).wf(),
            changed_to(
                r,
                old(self)@,
                final(self)@,
                old(self)@.with(
                    ChangeView::Copy { from_path: from_path@, from_rev, to_path: to_path@ },
                ),
            ),
    {
        let ghost before = self@;
        let f = match validate_rel_path(from_path) {
            Ok(p) => p,
            Err(e) => {
                return Err(e);
            },
        };
        let t = match validate_rel_path(to_path) {
            Ok(p) => p,
            Err(e) => {
                return Err(e);
            },
        };
        let c = CopyOp { from_path: f, from_rev, to_path: t };
        let ghost x = c.deep_view();
        self.copies.push(c);
        assert(self@.copies =~= before.copies.push(x));
        Ok(())
    }

    fn add_file_change(&mut self, path: &str, name: &str, value: &Option<Vec<u8>>) -> (r: Result<
        (),
        SvnError,
    >)
        requires
            old(self).wf(),
        ensures
            final(self).wf(),
            changed_to(
                r,
                old(self)@,
                final(self)@,
                old(self)@.with(
                    ChangeView::FileProp { path: path@, name: name@, value: opt_bytes(*value) },
                ),
            ),
    {
        let p = match validate_rel_path(path) {
            Ok(p) => p,
            Err(e) => {
                return Err(e);
            },
        };
        if self.deletes.contains_key(&p) {
            return Err(SvnError::Protocol(cat("file-prop conflicts with delete at ", &p)));
        }
        self.add_file_prop(p, PropChange { name: name.to_owned(), value: clone_opt_bytes(value) });
        Ok(())
    }

    fn add_dir_change(&mut self, path: &str, name: &str, value: &Option<Vec<u8>>) -> (r: Result<
        (),
        SvnError,
    >)
        requires
            old(self).wf(),
        ensures
            final(self).wf(),
            changed_to(
                r,
                old(self)@,
                final(self)@,
                old(self)@.with(
                    ChangeView::DirProp { path: path@, name: name@, value: opt_bytes(*value) },
                ),
            ),
    {
        let p = match validate_rel_dir_path(path) {
            Ok(p) => p,
            Err(e) => {
                return Err(e);
            },
        };
        if !p.as_str().is_empty() && self.deletes.contains_key(&p) {
            return Err(SvnError::Protocol(cat("dir-prop conflicts with delete at ", &p)));
        }
        self.add_dir_prop(p, PropChange { name: name.to_owned(), value: clone_opt_bytes(value) });
        Ok(())
    }

    /// One more change.
    pub fn add(&mut self, c: &Change) -> (r: Result<(), SvnError>)
        requires
            old(self).wf(),
        ensures
            final(self).wf(),
            changed_to(r, old(self)@, final(self)@, old(self)@.with(c.deep_view())),
    {
        match c {
            Change::PutFile { path, contents } => self.add_put(path, contents),
            Change::MkdirP { path } => self.add_mkdir(path),
            Change::Delete { path } => self.add_delete(path),
            Change::Copy { from_path, from_rev, to_path } => self.add_copy(
                from_path,
                *from_rev,
                to_path,
            ),
            Change::FileProp { path, name, value } => self.add_file_change(path, name, value),
            Change::DirProp { path, name, value } => self.add_dir_change(path, name, value),
        }
    }
}

/// Collects the changes of a commit.
#[derive(Clone, Debug)]
pub struct CommitBuilder {
    base_rev: Option<u64>,
    svndiff: SvndiffMode,
    zlib_level: u32,
    window_size: usize,
    changes: Vec<Change>,
}

/// What a `CommitBuilder` says.
pub struct BuilderView {
    pub base_rev: Option<u64>,
    pub svndiff: SvndiffMode,
    pub zlib_level: u32,
    pub window_size: usize,
    pub changes: Seq<ChangeView>,
}

impl BuilderView {
    /// One more change.
    pub open spec fn with(self, c: ChangeView) -> BuilderView {
        BuilderView { changes: self.changes.push(c), ..self }
    }

    /// The same changes, against this revision.
    pub open spec fn at(self, rev: u64) -> BuilderView {
        BuilderView { base_rev: Some(rev), ..self }
    }

    /// There is something to commit, and a way to encode it.
    pub open spec fn checked(self) -> Result<(), ErrorView> {
        settings_checked(self.changes.len(), self.zlib_level)
    }
}

/// There is something to commit, and a way to encode it.
pub open spec fn settings_checked(count: nat, zlib_level: u32) -> Result<(), ErrorView> {
    if count == 0 {
        Err(ErrorView::Protocol("commit has no changes"@))
    } else if zlib_level > 9 {
        Err(ErrorView::Protocol("zlib level must be 0..=9"@))
    } else {
        Ok(())
    }
}

/// Whether there is something to commit, and a way to encode it.
pub fn check_settings(count: usize, zlib_level: u32) -> (r: Result<(), SvnError>)
    ensures
        result_view(r) == settings_checked(count as nat, zlib_level),
{
    if count == 0 {
        return Err(protocol("commit has no changes"));
    }
    if zlib_level > 9 {
        return Err(protocol("zlib level must be 0..=9"));
    }
    Ok(())
}

impl View for CommitBuilder {
    type V = BuilderView;

    closed spec fn view(&self) -> BuilderView {
        BuilderView {
            base_rev: self.base_rev,
            svndiff: self.svndiff,
            zlib_level: self.zlib_level,
            window_size: self.window_size,
            changes: self.changes.deep_view(),
        }
    }
}

/// How texts are encoded, or why they cannot be.
pub open spec fn encoding_is(
    r: Result<Encoding, SvnError>,
    version: Result<SvndiffVersion, ErrorView>,
    level: u32,
    window_size: usize,
) -> bool {
    match r {
        Ok(enc) => version == Ok::<SvndiffVersion, ErrorView>(enc.version) && enc.level == level
            && enc.window_size == window_size,
        Err(e) => version == Err::<SvndiffVersion, ErrorView>(e.deep_view()),
    }
}

/// What sorting changes gives.
pub open spec fn changes_are(
    r: Result<CommitChanges, SvnError>,
    v: Result<ChangesView, ErrorView>,
) -> bool {
    match r {
        Ok(c) => v == Ok::<ChangesView, ErrorView>(c@) && c.wf(),
        Err(e) => v == Err::<ChangesView, ErrorView>(e.deep_view()),
    }
}

impl Default for CommitBuilder {
    fn default() -> (r: CommitBuilder)
        ensures
            r@ == (BuilderView {
                base_rev: None,
                svndiff: SvndiffMode::Auto,
                zlib_level: 5,
                window_size: 65536,
                changes: Seq::empty(),
            }),
    {
        CommitBuilder::new()
    }
}

impl CommitBuilder {
    /// No changes yet.
    pub fn new() -> (r: CommitBuilder)
        ensures
            r@ == (BuilderView {
                base_rev: None,
                svndiff: SvndiffMode::Auto,
                zlib_level: 5,
                window_size: 65536,
                changes: Seq::empty(),
            }),
    {
        let changes: Vec<Change> = Vec::new();
        assert(changes.deep_view() =~= Seq::<ChangeView>::empty());
        CommitBuilder {
            base_rev: None,
            svndiff: SvndiffMode::Auto,
            zlib_level: 5,
            window_size: 65536,
            changes,
        }
    }

    /// Sets the revision that the changes are made against.
    pub fn with_base_rev(self, base_rev: u64) -> (r: CommitBuilder)
        ensures
            r@ == self@.at(base_rev),
    {
        let mut s = self;
        s.base_rev = Some(base_rev);
        s
    }

    /// Sets the version of the delta format.
    pub fn with_svndiff(self, svndiff: SvndiffMode) -> (r: CommitBuilder)
        ensures
            r@ == (BuilderView { svndiff, ..self@ }),
    {
        let mut s = self;
        s.svndiff = svndiff;
        s
    }

    /// Sets the level of compression, from 0 to 9.
    pub fn with_zlib_level(self, level: u32) -> (r: CommitBuilder)
        ensures
            r@ == (BuilderView { zlib_level: level, ..self@ }),
    {
        let mut s = self;
        s.zlib_level = level;
        s
    }

    /// Sets the most data that one window of a delta holds.
    pub fn with_window_size(self, window_size: usize) -> (r: CommitBuilder)
        ensures
            r@ == (BuilderView { window_size, ..self@ }),
    {
        let mut s = self;
        s.window_size = window_size;
        s
    }

    /// The revision that was set.
    pub fn base_rev(&self) -> (r: Option<u64>)
        ensures
            r == self@.base_rev,
    {
        self.base_rev
    }

    /// The version of the delta format that was set.
    pub fn svndiff(&self) -> (r: SvndiffMode)
        ensures
            r == self@.svndiff,
    {
        self.svndiff
    }

    /// The level of compression.
    pub fn zlib_level(&self) -> (r: u32)
        ensures
            r == self@.zlib_level,
    {
        self.zlib_level
    }

    /// The most data that one window of a delta holds.
    pub fn window_size(&self) -> (r: usize)
        ensures
            r == self@.window_size,
    {
        self.window_size
    }

    /// The changes, in the order in which they were asked for.
    pub fn changes(&self) -> (r: &Vec<Change>)
        ensures
            r.deep_view() == self@.changes,
    {
        &self.changes
    }

    /// One more change.
    pub fn with_change(self, c: Change) -> (r: CommitBuilder)
        ensures
            r@ == self@.with(c.deep_view()),
    {
        let mut s = self;
        let ghost before = s.changes.deep_view();
        let ghost x = c.deep_view();
        s.changes.push(c);
        assert(s.changes.deep_view() =~= before.push(x));
        s
    }

    /// Gives a file this text, and adds the file where there is none.
    pub fn put_file(self, path: &str, contents: Vec<u8>) -> (r: CommitBuilder)
        ensures
            r@ == self@.with(ChangeView::PutFile { path: path@, contents: contents@ }),
    {
        self.with_change(Change::PutFile { path: path.to_owned(), contents })
    }

    /// Makes a directory, and those above it, where there is none.
    pub fn mkdir_p(self, path: &str) -> (r: CommitBuilder)
        ensures
            r@ == self@.with(ChangeView::MkdirP { path: path@ }),
    {
        self.with_change(Change::MkdirP { path: path.to_owned() })
    }

    /// Deletes a file or a directory.
    pub fn delete(self, path: &str) -> (r: CommitBuilder)
        ensures
            r@ == self@.with(ChangeView::Delete { path: path@ }),
    {
        self.with_change(Change::Delete { path: path.to_owned() })
    }

    /// Copies from the base revision.
    pub fn copy(self, from_path: &str, to_path: &str) -> (r: CommitBuilder)
        ensures
            r@ == self@.with(
                ChangeView::Copy { from_path: from_path@, from_rev: None, to_path: to_path@ },
            ),
    {
        self.with_change(
            Change::Copy {
                from_path: from_path.to_owned(),
                from_rev: None,
                to_path: to_path.to_owned(),
            },
        )
    }

    /// Copies from a revision.
    pub fn copy_from_rev(self, from_path: &str, from_rev: u64, to_path: &str) -> (r: CommitBuilder)
        ensures
            r@ == self@.with(
                ChangeView::Copy {
                    from_path: from_path@,
                    from_rev: Some(from_rev),
                    to_path: to_path@,
                },
            ),
    {
        self.with_change(
            Change::Copy {
                from_path: from_path.to_owned(),
                from_rev: Some(from_rev),
                to_path: to_path.to_owned(),
            },
        )
    }

    /// Moves from the base revision: a copy, and a deletion of its source.
    pub fn move_path(self, from_path: &str, to_path: &str) -> (r: CommitBuilder)
        ensures
            r@ == self@.with(
                ChangeView::Copy { from_path: from_path@, from_rev: None, to_path: to_path@ },
            ).with(ChangeView::Delete { path: from_path@ }),
    {
        self.copy(from_path, to_path).delete(from_path)
    }

    /// Moves from a revision: a copy, and a deletion of its source.
    pub fn move_path_from_rev(self, from_path: &str, from_rev: u64, to_path: &str) -> (r:
        CommitBuilder)
        ensures
            r@ == self@.with(
                ChangeView::Copy {
                    from_path: from_path@,
                    from_rev: Some(from_rev),
                    to_path: to_path@,
                },
            ).with(ChangeView::Delete { path: from_path@ }),
    {
        self.copy_from_rev(from_path, from_rev, to_path).delete(from_path)
    }

    /// Sets or deletes a property of a file.
    pub fn file_prop(self, path: &str, name: &str, value: Option<Vec<u8>>) -> (r: CommitBuilder)
        ensures
            r@ == self@.with(
                ChangeView::FileProp { path: path@, name: name@, value: opt_bytes(value) },
            ),
    {
        self.with_change(Change::FileProp { path: path.to_owned(), name: name.to_owned(), value })
    }

    /// Sets a property of a file.
    pub fn set_file_prop(self, path: &str, name: &str, value: Vec<u8>) -> (r: CommitBuilder)
        ensures
            r@ == self@.with(
                ChangeView::FileProp { path: path@, name: name@, value: Some(value@) },
            ),
    {
        self.file_prop(path, name, Some(value))
    }

    /// Deletes a property of a file.
    pub fn delete_file_prop(self, path: &str, name: &str) -> (r: CommitBuilder)
        ensures
            r@ == self@.with(ChangeView::FileProp { path: path@, name: name@, value: None }),
    {
        self.file_prop(path, name, None)
    }

    /// Sets or deletes a property of a directory.
    pub fn dir_prop(self, path: &str, name: &str, value: Option<Vec<u8>>) -> (r: CommitBuilder)
        ensures
            r@ == self@.with(
                ChangeView::DirProp { path: path@, name: name@, value: opt_bytes(value) },
            ),
    {
        self.with_change(Change::DirProp { path: path.to_owned(), name: name.to_owned(), value })
    }

    /// Sets a property of a directory.
    pub fn set_dir_prop(self, path: &str, name: &str, value: Vec<u8>) -> (r: CommitBuilder)
        ensures
            r@ == self@.with(
                ChangeView::DirProp { path: path@, name: name@, value: Some(value@) },
            ),
    {
        self.dir_prop(path, name, Some(value))
    }

    /// Deletes a property of a directory.
    pub fn delete_dir_prop(self, path: &str, name: &str) -> (r: CommitBuilder)
        ensures
            r@ == self@.with(ChangeView::DirProp { path: path@, name: name@, value: None }),
    {
        self.dir_prop(path, name, None)
    }

    /// Whether there is something to commit, and a way to encode it.
    pub fn check(&self) -> (r: Result<(), SvnError>)
        ensures
            result_view(r) == self@.checked(),
    {
        check_settings(self.changes.len(), self.zlib_level)
    }

    /// How texts are encoded, where the server does or does not understand the versions 1
    /// and 2 of the delta format.
    pub fn encoding(&self, svndiff1: bool, svndiff2: bool) -> (r: Result<Encoding, SvnError>)
        ensures
            encoding_is(
                r,
                version_for(self@.svndiff, svndiff1, svndiff2),
                self@.zlib_level,
                self@.window_size,
            ),
    {
        match select_svndiff_version(self.svndiff, svndiff1, svndiff2) {
            Ok(version) => Ok(
                Encoding { version, level: self.zlib_level, window_size: self.window_size },
            ),
            Err(e) => Err(e),
        }
    }

    /// The changes, sorted by what they are about.
    pub fn sort_changes(&self) -> (r: Result<CommitChanges, SvnError>)
        ensures
            changes_are(r, sorted_changes(self@.changes, self@.changes.len() as int)),
    {
        let mut v = CommitChanges::new();
        let ghost all = self.changes.deep_view();
        let mut n: usize = 0;
        while n < self.changes.len()
            invariant
                n <= self.changes.len(),
                all == self.changes.deep_view(),
                all == self@.changes,
                v.wf(),
                sorted_changes(all, n as int) == Ok::<ChangesView, ErrorView>(v@),
            decreases self.changes.len() - n,
        {
            assert(all[n as int] == self.changes@[n as int].deep_view());
            match v.add(&self.changes[n]) {
                Ok(_) => {},
                Err(e) => {
                    proof {
                        lemma_bad_change_stays(all, n + 1);
                    }
                    return Err(e);
                },
            }
            n = n + 1;
        }
        Ok(v)
    }
}

/// Changes that cannot be combined stay so when more come.
proof fn lemma_bad_change_stays(changes: Seq<ChangeView>, n: int)
    requires
        0 <= n <= changes.len(),
        sorted_changes(changes, n) is Err,
    ensures
        sorted_changes(changes, changes.len() as int) == sorted_changes(changes, n),
    decreases changes.len() - n,
{
    if n < changes.len() {
        lemma_bad_change_stays(changes, n + 1);
    }
}

/// The revision of a copy source.
pub open spec fn copy_rev(c: CopyOpView, base_rev: u64) -> u64 {
    match c.from_rev {
        Some(r) => r,
        None => base_rev,
    }
}

impl ChangesView {
    /// The node to ask for to resolve the next copy.
    pub open spec fn copy_asks(self, base_rev: u64) -> Result<(Seq<char>, u64), ErrorView>
        recommends
            self.copies.len() > 0,
    {
        let c = self.copies[0];
        if self.deletes.contains(c.to_path) {
            Err(ErrorView::Protocol("copy destination conflicts with delete at "@ + c.to_path))
        } else {
            Ok((c.from_path, copy_rev(c, base_rev)))
        }
    }

    /// The next copy is resolved: its source is of this kind.
    pub open spec fn copy_answered(self, base_rev: u64, kind: NodeKind) -> Result<
        ChangesView,
        ErrorView,
    >
        recommends
            self.copies.len() > 0,
    {
        let c = self.copies[0];
        let rest = ChangesView { copies: self.copies.drop_first(), ..self };
        let from_rev = copy_rev(c, base_rev);
        let place = c.from_path + "@"@ + decimal(from_rev as nat);
        match kind {
            NodeKind::File => rest.with_file_action(
                c.to_path,
                FileActionView::Copy { from_path: c.from_path, from_rev },
            ),
            NodeKind::Dir => match self.dir_op(c.to_path).action {
                Some(DirActionView::Mkdir) => Err(
                    ErrorView::Protocol("cannot combine copy with mkdir-p"@),
                ),
                Some(DirActionView::Copy { .. }) => Err(
                    ErrorView::Protocol(
                        "commit builder has multiple copy actions for the same directory"@,
                    ),
                ),
                None => Ok(
                    rest.with_dir_action(
                        c.to_path,
                        DirActionView::Copy { from_path: c.from_path, from_rev },
                    ),
                ),
            },
            NodeKind::Missing => Err(
                ErrorView::Protocol("copy source does not exist at "@ + place),
            ),
            NodeKind::Unknown => Err(
                ErrorView::Protocol("copy source has unknown kind at "@ + place),
            ),
        }
    }
}

/// A node to ask for, or why there is none.
pub open spec fn node_is(
    r: Result<(String, u64), SvnError>,
    v: Result<(Seq<char>, u64), ErrorView>,
) -> bool {
    match r {
        Ok((path, rev)) => v == Ok::<(Seq<char>, u64), ErrorView>((path@, rev)),
        Err(e) => v == Err::<(Seq<char>, u64), ErrorView>(e.deep_view()),
    }
}

impl CommitChanges {
    /// How many copies there are to resolve.
    pub(crate) fn copy_count(&self) -> (r: usize)
        ensures
            r == self@.copies.len(),
    {
        self.copies.len()
    }

    /// The node to ask for to resolve the next copy.
    pub(crate) fn copy_query(&self, base_rev: u64) -> (r: Result<(String, u64), SvnError>)
        requires
            self.wf(),
            self@.copies.len() > 0,
        ensures
            node_is(r, self@.copy_asks(base_rev)),
    {
        let c = &self.copies[0];
        if self.deletes.contains_key(&c.to_path) {
            return Err(
                SvnError::Protocol(cat("copy destination conflicts with delete at ", &c.to_path)),
            );
        }
        let rev = match c.from_rev {
            Some(r) => r,
            None => base_rev,
        };
        Ok((c.from_path.clone(), rev))
    }

    fn drop_copy(&mut self)
        requires
            old(self).wf(),
            old(self)@.copies.len() > 0,
        ensures
            final(self).wf(),
            final(self)@ == (ChangesView { copies: old(self)@.copies.drop_first(), ..old(self)@ }),
    {
        let ghost before = self@;
        self.copies.remove(0);
        assert(self@.copies =~= before.copies.drop_first());
    }

    /// Resolves the next copy: its source is of this kind.
    pub(crate) fn resolve_copy(&mut self, base_rev: u64, kind: NodeKind) -> (r: Result<(), SvnError>)
        requires
            old(self).wf(),
            old(self)@.copies.len() > 0,
        ensures
            final(self).wf(),
            changed_to(
                r,
                old(self)@,
                final(self)@,
                old(self)@.copy_answered(base_rev, kind),
            ),
    {
        let from_path = self.copies[0].from_path.clone();
        let to_path = self.copies[0].to_path.clone();
        let from_rev = match self.copies[0].from_rev {
            Some(r) => r,
            None => base_rev,
        };
        match kind {
            NodeKind::File => {
                match self.set_file_action(to_path, FileAction::Copy { from_path, from_rev }) {
                    Ok(_) => {},
                    Err(e) => {
                        return Err(e);
                    },
                }
                self.drop_copy();
                Ok(())
            },
            NodeKind::Dir => {
                if self.dir_is_made(&to_path) {
                    return Err(protocol("cannot combine copy with mkdir-p"));
                }
                if self.dir_is_copy(&to_path) {
                    return Err(
                        protocol("commit builder has multiple copy actions for the same directory"),
                    );
                }
                self.set_dir_action(to_path, DirAction::Copy { from_path, from_rev });
                self.drop_copy();
                Ok(())
            },
            NodeKind::Missing => Err(
                SvnError::Protocol(
                    cat(
                        "copy source does not exist at ",
                        &cat3(&from_path, "@", &decimal_string(from_rev)),
                    ),
                ),
            ),
            NodeKind::Unknown => Err(
                SvnError::Protocol(
                    cat(
                        "copy source has unknown kind at ",
                        &cat3(&from_path, "@", &decimal_string(from_rev)),
                    ),
                ),
            ),
        }
    }
}

} // verus!
