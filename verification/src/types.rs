//! Small vocabularies of the protocol, and the values that its commands return.

use vstd::prelude::*;

use crate::keymap::KeyMap;
use crate::text::str_eq;

verus! {

/// Properties of a node or a revision: bytes by name.
pub type PropertyList = KeyMap<Vec<u8>>;

/// What a property list says.
pub open spec fn props_view(p: PropertyList) -> Map<Seq<char>, Seq<u8>> {
    p@.map_values(|v: Vec<u8>| v@)
}

/// What an optional byte string says.
pub open spec fn opt_bytes(b: Option<Vec<u8>>) -> Option<Seq<u8>> {
    match b {
        Some(v) => Some(v@),
        None => None,
    }
}

/// How deep an operation goes.
#[derive(Clone, Copy, Debug, PartialEq, Eq, Structural)]
pub enum Depth {
    Empty,
    Files,
    Immediates,
    Infinity,
}

/// The word for a depth.
pub open spec fn depth_word(d: Depth) -> Seq<char> {
    match d {
        Depth::Empty => "empty"@,
        Depth::Files => "files"@,
        Depth::Immediates => "immediates"@,
        Depth::Infinity => "infinity"@,
    }
}

/// Servers that know no depths should recurse.
pub open spec fn recurses(d: Depth) -> bool {
    d == Depth::Immediates || d == Depth::Infinity
}

impl Depth {
    /// The word for the depth.
    pub fn as_word(&self) -> (r: &'static str)
        ensures
            r@ == depth_word(*self),
    {
        match self {
            Depth::Empty => "empty",
            Depth::Files => "files",
            Depth::Immediates => "immediates",
            Depth::Infinity => "infinity",
        }
    }

    /// Whether servers that know no depths should recurse.
    pub fn recurses(&self) -> (r: bool)
        ensures
            r == recurses(*self),
    {
        match self {
            Depth::Immediates => true,
            Depth::Infinity => true,
            _ => false,
        }
    }
}

/// What kind of node a path names.
#[derive(Clone, Copy, Debug, PartialEq, Eq, Structural)]
pub enum NodeKind {
    /// There is no such node.
    Missing,
    File,
    Dir,
    /// The server named a kind that this client does not know.
    Unknown,
}

/// The word for a kind of node.
pub open spec fn kind_word(k: NodeKind) -> Seq<char> {
    match k {
        NodeKind::Missing => "none"@,
        NodeKind::File => "file"@,
        NodeKind::Dir => "dir"@,
        NodeKind::Unknown => "unknown"@,
    }
}

/// The kind that a word names.
pub open spec fn kind_from_word(w: Seq<char>) -> NodeKind {
    if w == "none"@ {
        NodeKind::Missing
    } else if w == "file"@ {
        NodeKind::File
    } else if w == "dir"@ {
        NodeKind::Dir
    } else {
        NodeKind::Unknown
    }
}

impl NodeKind {
    /// The word for the kind.
    pub fn as_word(self) -> (r: &'static str)
        ensures
            r@ == kind_word(self),
    {
        match self {
            NodeKind::Missing => "none",
            NodeKind::File => "file",
            NodeKind::Dir => "dir",
            NodeKind::Unknown => "unknown",
        }
    }

    /// The kind that a word names.
    pub fn from_word(word: &str) -> (r: NodeKind)
        ensures
            r == kind_from_word(word@),
    {
        if str_eq(word, "none") {
            NodeKind::Missing
        } else if str_eq(word, "file") {
            NodeKind::File
        } else if str_eq(word, "dir") {
            NodeKind::Dir
        } else {
            NodeKind::Unknown
        }
    }
}

/// What a server or a repository can do.
#[derive(Clone, Copy, Debug, PartialEq, Eq, Structural)]
pub enum Capability {
    EditPipeline,
    Svndiff1,
    AcceptsSvndiff2,
    AbsentEntries,
    CommitRevProps,
    MergeInfo,
    Depth,
    AtomicRevProps,
    InheritedProps,
    LogRevProps,
    PartialReplay,
    EphemeralTxnProps,
    FileRevsReverse,
    List,
}

/// The word for a capability.
pub open spec fn capability_word(c: Capability) -> Seq<char> {
    match c {
        Capability::EditPipeline => "edit-pipeline"@,
        Capability::Svndiff1 => "svndiff1"@,
        Capability::AcceptsSvndiff2 => "accepts-svndiff2"@,
        Capability::AbsentEntries => "absent-entries"@,
        Capability::CommitRevProps => "commit-revprops"@,
        Capability::MergeInfo => "mergeinfo"@,
        Capability::Depth => "depth"@,
        Capability::AtomicRevProps => "atomic-revprops"@,
        Capability::InheritedProps => "inherited-props"@,
        Capability::LogRevProps => "log-revprops"@,
        Capability::PartialReplay => "partial-replay"@,
        Capability::EphemeralTxnProps => "ephemeral-txnprops"@,
        Capability::FileRevsReverse => "file-revs-reverse"@,
        Capability::List => "list"@,
    }
}

impl Capability {
    /// The word for the capability.
    pub fn as_wire_word(&self) -> (r: &'static str)
        ensures
            r@ == capability_word(*self),
    {
        match self {
            Capability::EditPipeline => "edit-pipeline",
            Capability::Svndiff1 => "svndiff1",
            Capability::AcceptsSvndiff2 => "accepts-svndiff2",
            Capability::AbsentEntries => "absent-entries",
            Capability::CommitRevProps => "commit-revprops",
            Capability::MergeInfo => "mergeinfo",
            Capability::Depth => "depth",
            Capability::AtomicRevProps => "atomic-revprops",
            Capability::InheritedProps => "inherited-props",
            Capability::LogRevProps => "log-revprops",
            Capability::PartialReplay => "partial-replay",
            Capability::EphemeralTxnProps => "ephemeral-txnprops",
            Capability::FileRevsReverse => "file-revs-reverse",
            Capability::List => "list",
        }
    }
}

/// A field of a directory entry that can be asked for.
#[derive(Clone, Copy, Debug, PartialEq, Eq, Structural)]
pub enum DirentField {
    Kind,
    Size,
    HasProps,
    CreatedRev,
    Time,
    LastAuthor,
}

/// The word for a field.
pub open spec fn field_word(f: DirentField) -> Seq<char> {
    match f {
        DirentField::Kind => "kind"@,
        DirentField::Size => "size"@,
        DirentField::HasProps => "has-props"@,
        DirentField::CreatedRev => "created-rev"@,
        DirentField::Time => "time"@,
        DirentField::LastAuthor => "last-author"@,
    }
}

impl DirentField {
    /// The word for the field.
    pub fn as_word(&self) -> (r: &'static str)
        ensures
            r@ == field_word(*self),
    {
        match self {
            DirentField::Kind => "kind",
            DirentField::Size => "size",
            DirentField::HasProps => "has-props",
            DirentField::CreatedRev => "created-rev",
            DirentField::Time => "time",
            DirentField::LastAuthor => "last-author",
        }
    }
}

/// What a server says about the repository.
#[derive(Clone, Debug, PartialEq, Eq)]
pub struct RepositoryInfo {
    pub uuid: String,
    /// The URL of the root, empty if the server does not tell it.
    pub root_url: String,
    pub capabilities: Vec<String>,
}

/// What a `RepositoryInfo` says.
pub struct RepositoryView {
    pub uuid: Seq<char>,
    pub root_url: Seq<char>,
    pub capabilities: Seq<Seq<char>>,
}

impl DeepView for RepositoryInfo {
    type V = RepositoryView;

    open spec fn deep_view(&self) -> RepositoryView {
        RepositoryView {
            uuid: self.uuid@,
            root_url: self.root_url@,
            capabilities: self.capabilities.deep_view(),
        }
    }
}

/// What the handshake tells about the server.
#[derive(Clone, Debug, PartialEq, Eq)]
pub struct ServerInfo {
    pub server_caps: Vec<String>,
    pub repository: RepositoryInfo,
}

/// What a `ServerInfo` says.
pub struct ServerView {
    pub server_caps: Seq<Seq<char>>,
    pub repository: RepositoryView,
}

impl DeepView for ServerInfo {
    type V = ServerView;

    open spec fn deep_view(&self) -> ServerView {
        ServerView {
            server_caps: self.server_caps.deep_view(),
            repository: self.repository.deep_view(),
        }
    }
}

/// Whether merge information of parents counts.
#[derive(Clone, Copy, Debug, PartialEq, Eq, Structural)]
pub enum MergeInfoInheritance {
    Explicit,
    Inherited,
    NearestAncestor,
}

/// The word for a kind of inheritance.
pub open spec fn inheritance_word(i: MergeInfoInheritance) -> Seq<char> {
    match i {
        MergeInfoInheritance::Explicit => "explicit"@,
        MergeInfoInheritance::Inherited => "inherited"@,
        MergeInfoInheritance::NearestAncestor => "nearest-ancestor"@,
    }
}

impl MergeInfoInheritance {
    /// The word for the kind of inheritance.
    pub fn as_word(&self) -> (r: &'static str)
        ensures
            r@ == inheritance_word(*self),
    {
        match self {
            MergeInfoInheritance::Explicit => "explicit",
            MergeInfoInheritance::Inherited => "inherited",
            MergeInfoInheritance::NearestAncestor => "nearest-ancestor",
        }
    }
}

} // verus!
