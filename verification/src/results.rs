//! What the operations of a session give.

use vstd::prelude::*;

use crate::editor::copy_view;
use crate::keymap::KeyMap;
use crate::textdelta::chunks_view;
use crate::types::{opt_bytes, props_view, NodeKind, PropertyList};

verus! {

/// Merge information, by path.
pub type MergeInfoCatalog = KeyMap<String>;

/// What merge information says.
pub open spec fn catalog_view(c: MergeInfoCatalog) -> Map<Seq<char>, Seq<char>> {
    c@.map_values(|v: String| v@)
}

/// A lock on a path.
#[derive(Clone, Debug, PartialEq, Eq)]
pub struct LockDesc {
    /// The path, without a leading slash.
    pub path: String,
    pub token: String,
    pub owner: String,
    pub comment: Option<String>,
    pub created: String,
    pub expires: Option<String>,
}

/// What a `LockDesc` says.
#[verifier::ext_equal]
pub struct LockDescView {
    pub path: Seq<char>,
    pub token: Seq<char>,
    pub owner: Seq<char>,
    pub comment: Option<Seq<char>>,
    pub created: Seq<char>,
    pub expires: Option<Seq<char>>,
}

impl DeepView for LockDesc {
    type V = LockDescView;

    open spec fn deep_view(&self) -> LockDescView {
        LockDescView {
            path: self.path@,
            token: self.token@,
            owner: self.owner@,
            comment: self.comment.deep_view(),
            created: self.created@,
            expires: self.expires.deep_view(),
        }
    }
}

/// Where a node was in a revision.
#[derive(Clone, Debug, PartialEq, Eq)]
pub struct LocationEntry {
    pub rev: u64,
    /// The path, without a leading slash.
    pub path: String,
}

/// What a `LocationEntry` says.
#[verifier::ext_equal]
pub struct LocationEntryView {
    pub rev: u64,
    pub path: Seq<char>,
}

impl DeepView for LocationEntry {
    type V = LocationEntryView;

    open spec fn deep_view(&self) -> LocationEntryView {
        LocationEntryView {
            rev: self.rev,
            path: self.path@,
        }
    }
}

/// Where a node was over a range of revisions; no path means that it was nowhere.
#[derive(Clone, Debug, PartialEq, Eq)]
pub struct LocationSegment {
    pub range_start: u64,
    pub range_end: u64,
    pub path: Option<String>,
}

/// What a `LocationSegment` says.
#[verifier::ext_equal]
pub struct LocationSegmentView {
    pub range_start: u64,
    pub range_end: u64,
    pub path: Option<Seq<char>>,
}

impl DeepView for LocationSegment {
    type V = LocationSegmentView;

    open spec fn deep_view(&self) -> LocationSegmentView {
        LocationSegmentView {
            range_start: self.range_start,
            range_end: self.range_end,
            path: self.path.deep_view(),
        }
    }
}

/// Properties that a node has from above.
#[derive(Clone, Debug, PartialEq, Eq)]
pub struct InheritedProps {
    pub path: String,
    pub props: PropertyList,
}

/// What an `InheritedProps` says.
#[verifier::ext_equal]
pub struct InheritedPropsView {
    pub path: Seq<char>,
    pub props: Map<Seq<char>, Seq<u8>>,
}

impl DeepView for InheritedProps {
    type V = InheritedPropsView;

    open spec fn deep_view(&self) -> InheritedPropsView {
        InheritedPropsView {
            path: self.path@,
            props: props_view(self.props),
        }
    }
}

/// A property that is set or deleted.
#[derive(Clone, Debug, PartialEq, Eq)]
pub struct PropDelta {
    pub name: String,
    pub value: Option<Vec<u8>>,
}

/// What a `PropDelta` says.
#[verifier::ext_equal]
pub struct PropDeltaView {
    pub name: Seq<char>,
    pub value: Option<Seq<u8>>,
}

impl DeepView for PropDelta {
    type V = PropDeltaView;

    open spec fn deep_view(&self) -> PropDeltaView {
        PropDeltaView {
            name: self.name@,
            value: opt_bytes(self.value),
        }
    }
}

/// A revision of a file.
#[derive(Clone, Debug, PartialEq, Eq)]
pub struct FileRev {
    /// The path, without a leading slash.
    pub path: String,
    pub rev: u64,
    /// The properties of the revision.
    pub rev_props: PropertyList,
    /// What changed in the properties of the file.
    pub prop_deltas: Vec<PropDelta>,
    /// The revision came by a merge.
    pub merged_revision: bool,
    /// The delta against the revision before.
    pub delta_chunks: Vec<Vec<u8>>,
}

/// What a `FileRev` says.
#[verifier::ext_equal]
pub struct FileRevView {
    pub path: Seq<char>,
    pub rev: u64,
    pub rev_props: Map<Seq<char>, Seq<u8>>,
    pub prop_deltas: Seq<PropDeltaView>,
    pub merged_revision: bool,
    pub delta_chunks: Seq<Seq<u8>>,
}

impl DeepView for FileRev {
    type V = FileRevView;

    open spec fn deep_view(&self) -> FileRevView {
        FileRevView {
            path: self.path@,
            rev: self.rev,
            rev_props: props_view(self.rev_props),
            prop_deltas: self.prop_deltas.deep_view(),
            merged_revision: self.merged_revision,
            delta_chunks: chunks_view(self.delta_chunks@),
        }
    }
}

/// A path that a revision changed.
#[derive(Clone, Debug, PartialEq, Eq)]
pub struct ChangedPath {
    pub path: String,
    /// `A`, `D`, `M` or `R`.
    pub action: String,
    pub copy_from: Option<(String, u64)>,
    pub node_kind: Option<NodeKind>,
    pub text_modified: Option<bool>,
    pub props_modified: Option<bool>,
}

/// What a `ChangedPath` says.
#[verifier::ext_equal]
pub struct ChangedPathView {
    pub path: Seq<char>,
    pub action: Seq<char>,
    pub copy_from: Option<(Seq<char>, u64)>,
    pub node_kind: Option<NodeKind>,
    pub text_modified: Option<bool>,
    pub props_modified: Option<bool>,
}

impl DeepView for ChangedPath {
    type V = ChangedPathView;

    open spec fn deep_view(&self) -> ChangedPathView {
        ChangedPathView {
            path: self.path@,
            action: self.action@,
            copy_from: copy_view(self.copy_from),
            node_kind: self.node_kind,
            text_modified: self.text_modified,
            props_modified: self.props_modified,
        }
    }
}

/// A revision, as the log gives it.
#[derive(Clone, Debug, PartialEq, Eq)]
pub struct LogEntry {
    pub rev: u64,
    pub changed_paths: Vec<ChangedPath>,
    pub author: Option<String>,
    pub date: Option<String>,
    pub message: Option<String>,
    pub rev_props: PropertyList,
    pub has_children: bool,
    pub invalid_revnum: bool,
    pub subtractive_merge: bool,
}

/// What a `LogEntry` says.
#[verifier::ext_equal]
pub struct LogEntryView {
    pub rev: u64,
    pub changed_paths: Seq<ChangedPathView>,
    pub author: Option<Seq<char>>,
    pub date: Option<Seq<char>>,
    pub message: Option<Seq<char>>,
    pub rev_props: Map<Seq<char>, Seq<u8>>,
    pub has_children: bool,
    pub invalid_revnum: bool,
    pub subtractive_merge: bool,
}

impl DeepView for LogEntry {
    type V = LogEntryView;

    open spec fn deep_view(&self) -> LogEntryView {
        LogEntryView {
            rev: self.rev,
            changed_paths: self.changed_paths.deep_view(),
            author: self.author.deep_view(),
            date: self.date.deep_view(),
            message: self.message.deep_view(),
            rev_props: props_view(self.rev_props),
            has_children: self.has_children,
            invalid_revnum: self.invalid_revnum,
            subtractive_merge: self.subtractive_merge,
        }
    }
}

/// An entry of a directory.
#[derive(Clone, Debug, PartialEq, Eq)]
pub struct DirEntry {
    pub name: String,
    pub path: String,
    pub kind: NodeKind,
    pub size: Option<u64>,
    pub has_props: Option<bool>,
    pub created_rev: Option<u64>,
    pub created_date: Option<String>,
    pub last_author: Option<String>,
}

/// What a `DirEntry` says.
#[verifier::ext_equal]
pub struct DirEntryView {
    pub name: Seq<char>,
    pub path: Seq<char>,
    pub kind: NodeKind,
    pub size: Option<u64>,
    pub has_props: Option<bool>,
    pub created_rev: Option<u64>,
    pub created_date: Option<Seq<char>>,
    pub last_author: Option<Seq<char>>,
}

impl DeepView for DirEntry {
    type V = DirEntryView;

    open spec fn deep_view(&self) -> DirEntryView {
        DirEntryView {
            name: self.name@,
            path: self.path@,
            kind: self.kind,
            size: self.size,
            has_props: self.has_props,
            created_rev: self.created_rev,
            created_date: self.created_date.deep_view(),
            last_author: self.last_author.deep_view(),
        }
    }
}

/// A directory.
#[derive(Clone, Debug, PartialEq, Eq)]
pub struct DirListing {
    pub rev: u64,
    pub entries: Vec<DirEntry>,
}

/// What a `DirListing` says.
#[verifier::ext_equal]
pub struct DirListingView {
    pub rev: u64,
    pub entries: Seq<DirEntryView>,
}

impl DeepView for DirListing {
    type V = DirListingView;

    open spec fn deep_view(&self) -> DirListingView {
        DirListingView {
            rev: self.rev,
            entries: self.entries.deep_view(),
        }
    }
}

/// A node.
#[derive(Clone, Debug, PartialEq, Eq)]
pub struct StatEntry {
    pub kind: NodeKind,
    pub size: Option<u64>,
    pub has_props: Option<bool>,
    pub created_rev: Option<u64>,
    pub created_date: Option<String>,
    pub last_author: Option<String>,
}

/// What a `StatEntry` says.
#[verifier::ext_equal]
pub struct StatEntryView {
    pub kind: NodeKind,
    pub size: Option<u64>,
    pub has_props: Option<bool>,
    pub created_rev: Option<u64>,
    pub created_date: Option<Seq<char>>,
    pub last_author: Option<Seq<char>>,
}

impl DeepView for StatEntry {
    type V = StatEntryView;

    open spec fn deep_view(&self) -> StatEntryView {
        StatEntryView {
            kind: self.kind,
            size: self.size,
            has_props: self.has_props,
            created_rev: self.created_rev,
            created_date: self.created_date.deep_view(),
            last_author: self.last_author.deep_view(),
        }
    }
}

/// What a commit made.
#[derive(Clone, Debug, PartialEq, Eq)]
pub struct CommitInfo {
    pub new_rev: u64,
    pub date: Option<String>,
    pub author: Option<String>,
    pub post_commit_err: Option<String>,
}

/// What a `CommitInfo` says.
#[verifier::ext_equal]
pub struct CommitInfoView {
    pub new_rev: u64,
    pub date: Option<Seq<char>>,
    pub author: Option<Seq<char>>,
    pub post_commit_err: Option<Seq<char>>,
}

impl DeepView for CommitInfo {
    type V = CommitInfoView;

    open spec fn deep_view(&self) -> CommitInfoView {
        CommitInfoView {
            new_rev: self.new_rev,
            date: self.date.deep_view(),
            author: self.author.deep_view(),
            post_commit_err: self.post_commit_err.deep_view(),
        }
    }
}

/// What comes before the text of a file.
#[derive(Clone, Debug, PartialEq, Eq)]
pub struct FileMeta {
    pub rev: u64,
    pub checksum: Option<String>,
    pub props: PropertyList,
    pub inherited_props: Vec<InheritedProps>,
}

/// What a `FileMeta` says.
#[verifier::ext_equal]
pub struct FileMetaView {
    pub rev: u64,
    pub checksum: Option<Seq<char>>,
    pub props: Map<Seq<char>, Seq<u8>>,
    pub inherited_props: Seq<InheritedPropsView>,
}

impl DeepView for FileMeta {
    type V = FileMetaView;

    open spec fn deep_view(&self) -> FileMetaView {
        FileMetaView {
            rev: self.rev,
            checksum: self.checksum.deep_view(),
            props: props_view(self.props),
            inherited_props: self.inherited_props.deep_view(),
        }
    }
}

/// A file that was fetched.
#[derive(Clone, Debug, PartialEq, Eq)]
pub struct GetFileResult {
    pub rev: u64,
    pub checksum: Option<String>,
    pub props: PropertyList,
    pub inherited_props: Vec<InheritedProps>,
    pub bytes_written: u64,
}

/// What a `GetFileResult` says.
#[verifier::ext_equal]
pub struct GetFileResultView {
    pub rev: u64,
    pub checksum: Option<Seq<char>>,
    pub props: Map<Seq<char>, Seq<u8>>,
    pub inherited_props: Seq<InheritedPropsView>,
    pub bytes_written: u64,
}

impl DeepView for GetFileResult {
    type V = GetFileResultView;

    open spec fn deep_view(&self) -> GetFileResultView {
        GetFileResultView {
            rev: self.rev,
            checksum: self.checksum.deep_view(),
            props: props_view(self.props),
            inherited_props: self.inherited_props.deep_view(),
            bytes_written: self.bytes_written,
        }
    }
}

/// The properties of all entries are in order.
pub open spec fn iprops_wf(v: Seq<InheritedProps>) -> bool {
    forall|i: int| 0 <= i < v.len() ==> (#[trigger] v[i]).props.wf()
}

/// The properties of all entries are in order.
pub open spec fn log_wf(v: Seq<LogEntry>) -> bool {
    forall|i: int| 0 <= i < v.len() ==> (#[trigger] v[i]).rev_props.wf()
}

/// The properties of all revisions are in order.
pub open spec fn file_revs_wf(v: Seq<FileRev>) -> bool {
    forall|i: int| 0 <= i < v.len() ==> (#[trigger] v[i]).rev_props.wf()
}

} // verus!
