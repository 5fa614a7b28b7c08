//! What the operations of a session are asked for.

use vstd::prelude::*;

use crate::types::{props_view, Depth, DirentField, PropertyList};
use crate::keymap::KeyMap;

verus! {

/// An update.
#[derive(Clone, Debug, PartialEq, Eq)]
pub struct UpdateOptions {
    pub rev: Option<u64>,
    /// What to update; the empty path is everything.
    pub target: String,
    pub depth: Depth,
    pub send_copyfrom_args: bool,
    pub ignore_ancestry: bool,
}

/// What an `UpdateOptions` says.
#[verifier::ext_equal]
pub struct UpdateOptionsView {
    pub rev: Option<u64>,
    pub target: Seq<char>,
    pub depth: Depth,
    pub send_copyfrom_args: bool,
    pub ignore_ancestry: bool,
}

impl DeepView for UpdateOptions {
    type V = UpdateOptionsView;

    open spec fn deep_view(&self) -> UpdateOptionsView {
        UpdateOptionsView {
            rev: self.rev,
            target: self.target@,
            depth: self.depth,
            send_copyfrom_args: self.send_copyfrom_args,
            ignore_ancestry: self.ignore_ancestry,
        }
    }
}

impl UpdateOptions {
    /// An update to the newest revision.
    pub fn new(target: &str, depth: Depth) -> (r: UpdateOptions)
        ensures
            r.deep_view() == (UpdateOptionsView {
                rev: None,
                target: target@,
                depth,
                send_copyfrom_args: true,
                ignore_ancestry: false,
            }),
    {
        UpdateOptions {
            rev: None,
            target: target.to_owned(),
            depth,
            send_copyfrom_args: true,
            ignore_ancestry: false,
        }
    }

    /// To this revision.
    pub fn with_rev(self, rev: u64) -> (r: UpdateOptions)
        ensures
            r.deep_view() == (UpdateOptionsView { rev: Some(rev), ..self.deep_view() }),
    {
        let mut s = self;
        s.rev = Some(rev);
        s
    }

    /// Copies are sent without their source.
    pub fn without_copyfrom_args(self) -> (r: UpdateOptions)
        ensures
            r.deep_view() == (UpdateOptionsView { send_copyfrom_args: false, ..self.deep_view() }),
    {
        let mut s = self;
        s.send_copyfrom_args = false;
        s
    }

    /// Ancestry does not count.
    pub fn ignore_ancestry(self) -> (r: UpdateOptions)
        ensures
            r.deep_view() == (UpdateOptionsView { ignore_ancestry: true, ..self.deep_view() }),
    {
        let mut s = self;
        s.ignore_ancestry = true;
        s
    }
}

/// A switch to another URL.
#[derive(Clone, Debug, PartialEq, Eq)]
pub struct SwitchOptions {
    pub rev: Option<u64>,
    pub target: String,
    pub switch_url: String,
    pub depth: Depth,
    pub send_copyfrom_args: bool,
    pub ignore_ancestry: bool,
}

/// What a `SwitchOptions` says.
#[verifier::ext_equal]
pub struct SwitchOptionsView {
    pub rev: Option<u64>,
    pub target: Seq<char>,
    pub switch_url: Seq<char>,
    pub depth: Depth,
    pub send_copyfrom_args: bool,
    pub ignore_ancestry: bool,
}

impl DeepView for SwitchOptions {
    type V = SwitchOptionsView;

    open spec fn deep_view(&self) -> SwitchOptionsView {
        SwitchOptionsView {
            rev: self.rev,
            target: self.target@,
            switch_url: self.switch_url@,
            depth: self.depth,
            send_copyfrom_args: self.send_copyfrom_args,
            ignore_ancestry: self.ignore_ancestry,
        }
    }
}

impl SwitchOptions {
    /// A switch to the newest revision.
    pub fn new(target: &str, switch_url: &str, depth: Depth) -> (r: SwitchOptions)
        ensures
            r.deep_view() == (SwitchOptionsView {
                rev: None,
                target: target@,
                switch_url: switch_url@,
                depth,
                send_copyfrom_args: true,
                ignore_ancestry: false,
            }),
    {
        SwitchOptions {
            rev: None,
            target: target.to_owned(),
            switch_url: switch_url.to_owned(),
            depth,
            send_copyfrom_args: true,
            ignore_ancestry: false,
        }
    }

    /// To this revision.
    pub fn with_rev(self, rev: u64) -> (r: SwitchOptions)
        ensures
            r.deep_view() == (SwitchOptionsView { rev: Some(rev), ..self.deep_view() }),
    {
        let mut s = self;
        s.rev = Some(rev);
        s
    }

    /// Copies are sent without their source.
    pub fn without_copyfrom_args(self) -> (r: SwitchOptions)
        ensures
            r.deep_view() == (SwitchOptionsView { send_copyfrom_args: false, ..self.deep_view() }),
    {
        let mut s = self;
        s.send_copyfrom_args = false;
        s
    }

    /// Ancestry does not count.
    pub fn ignore_ancestry(self) -> (r: SwitchOptions)
        ensures
            r.deep_view() == (SwitchOptionsView { ignore_ancestry: true, ..self.deep_view() }),
    {
        let mut s = self;
        s.ignore_ancestry = true;
        s
    }
}

/// A status.
#[derive(Clone, Debug, PartialEq, Eq)]
pub struct StatusOptions {
    pub rev: Option<u64>,
    pub target: String,
    pub depth: Depth,
}

/// What a `StatusOptions` says.
#[verifier::ext_equal]
pub struct StatusOptionsView {
    pub rev: Option<u64>,
    pub target: Seq<char>,
    pub depth: Depth,
}

impl DeepView for StatusOptions {
    type V = StatusOptionsView;

    open spec fn deep_view(&self) -> StatusOptionsView {
        StatusOptionsView {
            rev: self.rev,
            target: self.target@,
            depth: self.depth,
        }
    }
}

impl StatusOptions {
    /// A status against the newest revision.
    pub fn new(target: &str, depth: Depth) -> (r: StatusOptions)
        ensures
            r.deep_view() == (StatusOptionsView { rev: None, target: target@, depth }),
    {
        StatusOptions { rev: None, target: target.to_owned(), depth }
    }

    /// To this revision.
    pub fn with_rev(self, rev: u64) -> (r: StatusOptions)
        ensures
            r.deep_view() == (StatusOptionsView { rev: Some(rev), ..self.deep_view() }),
    {
        let mut s = self;
        s.rev = Some(rev);
        s
    }
}

/// A diff against another URL.
#[derive(Clone, Debug, PartialEq, Eq)]
pub struct DiffOptions {
    pub rev: Option<u64>,
    pub target: String,
    pub versus_url: String,
    pub depth: Depth,
    pub ignore_ancestry: bool,
    pub text_deltas: bool,
}

/// What a `DiffOptions` says.
#[verifier::ext_equal]
pub struct DiffOptionsView {
    pub rev: Option<u64>,
    pub target: Seq<char>,
    pub versus_url: Seq<char>,
    pub depth: Depth,
    pub ignore_ancestry: bool,
    pub text_deltas: bool,
}

impl DeepView for DiffOptions {
    type V = DiffOptionsView;

    open spec fn deep_view(&self) -> DiffOptionsView {
        DiffOptionsView {
            rev: self.rev,
            target: self.target@,
            versus_url: self.versus_url@,
            depth: self.depth,
            ignore_ancestry: self.ignore_ancestry,
            text_deltas: self.text_deltas,
        }
    }
}

impl DiffOptions {
    /// A diff against the newest revision, with texts.
    pub fn new(target: &str, versus_url: &str, depth: Depth) -> (r: DiffOptions)
        ensures
            r.deep_view() == (DiffOptionsView {
                rev: None,
                target: target@,
                versus_url: versus_url@,
                depth,
                ignore_ancestry: false,
                text_deltas: true,
}),
    {
        DiffOptions {
            rev: None,
            target: target.to_owned(),
            versus_url: versus_url.to_owned(),
            depth,
            ignore_ancestry: false,
            text_deltas: true,
        }
    }

    /// To this revision.
    pub fn with_rev(self, rev: u64) -> (r: DiffOptions)
        ensures
            r.deep_view() == (DiffOptionsView { rev: Some(rev), ..self.deep_view() }),
    {
        let mut s = self;
        s.rev = Some(rev);
        s
    }

    /// Ancestry does not count.
    pub fn ignore_ancestry(self) -> (r: DiffOptions)
        ensures
            r.deep_view() == (DiffOptionsView { ignore_ancestry: true, ..self.deep_view() }),
    {
        let mut s = self;
        s.ignore_ancestry = true;
        s
    }

    /// Texts are not sent.
    pub fn without_text_deltas(self) -> (r: DiffOptions)
        ensures
            r.deep_view() == (DiffOptionsView { text_deltas: false, ..self.deep_view() }),
    {
        let mut s = self;
        s.text_deltas = false;
        s
    }
}

/// A replay of a revision.
#[derive(Clone, Debug, PartialEq, Eq)]
pub struct ReplayOptions {
    pub revision: u64,
    pub low_water_mark: u64,
    pub send_deltas: bool,
}

/// What a `ReplayOptions` says.
#[verifier::ext_equal]
pub struct ReplayOptionsView {
    pub revision: u64,
    pub low_water_mark: u64,
    pub send_deltas: bool,
}

impl DeepView for ReplayOptions {
    type V = ReplayOptionsView;

    open spec fn deep_view(&self) -> ReplayOptionsView {
        ReplayOptionsView {
            revision: self.revision,
            low_water_mark: self.low_water_mark,
            send_deltas: self.send_deltas,
        }
    }
}

impl ReplayOptions {
    /// A replay with texts.
    pub fn new(revision: u64) -> (r: ReplayOptions)
        ensures
            r.deep_view() == (ReplayOptionsView { revision, low_water_mark: 0, send_deltas: true }),
    {
        ReplayOptions { revision, low_water_mark: 0, send_deltas: true }
    }
}

/// A replay of revisions.
#[derive(Clone, Debug, PartialEq, Eq)]
pub struct ReplayRangeOptions {
    pub start_rev: u64,
    pub end_rev: u64,
    pub low_water_mark: u64,
    pub send_deltas: bool,
}

/// What a `ReplayRangeOptions` says.
#[verifier::ext_equal]
pub struct ReplayRangeOptionsView {
    pub start_rev: u64,
    pub end_rev: u64,
    pub low_water_mark: u64,
    pub send_deltas: bool,
}

impl DeepView for ReplayRangeOptions {
    type V = ReplayRangeOptionsView;

    open spec fn deep_view(&self) -> ReplayRangeOptionsView {
        ReplayRangeOptionsView {
            start_rev: self.start_rev,
            end_rev: self.end_rev,
            low_water_mark: self.low_water_mark,
            send_deltas: self.send_deltas,
        }
    }
}

impl ReplayRangeOptions {
    /// A replay with texts.
    pub fn new(start_rev: u64, end_rev: u64) -> (r: ReplayRangeOptions)
        ensures
            r.deep_view() == (ReplayRangeOptionsView {
                start_rev,
                end_rev,
                low_water_mark: 0,
                send_deltas: true,
            }),
    {
        ReplayRangeOptions { start_rev, end_rev, low_water_mark: 0, send_deltas: true }
    }
}

/// A file to fetch.
#[derive(Clone, Debug, PartialEq, Eq)]
pub struct GetFileOptions {
    pub rev: u64,
    pub want_props: bool,
    pub want_iprops: bool,
    /// The longest text that is taken.
    pub max_bytes: u64,
}

/// What a `GetFileOptions` says.
#[verifier::ext_equal]
pub struct GetFileOptionsView {
    pub rev: u64,
    pub want_props: bool,
    pub want_iprops: bool,
    pub max_bytes: u64,
}

impl DeepView for GetFileOptions {
    type V = GetFileOptionsView;

    open spec fn deep_view(&self) -> GetFileOptionsView {
        GetFileOptionsView {
            rev: self.rev,
            want_props: self.want_props,
            want_iprops: self.want_iprops,
            max_bytes: self.max_bytes,
        }
    }
}

/// A lock to take.
#[derive(Clone, Debug, PartialEq, Eq)]
pub struct LockOptions {
    pub comment: Option<String>,
    pub steal_lock: bool,
    pub current_rev: Option<u64>,
}

/// What a `LockOptions` says.
#[verifier::ext_equal]
pub struct LockOptionsView {
    pub comment: Option<Seq<char>>,
    pub steal_lock: bool,
    pub current_rev: Option<u64>,
}

impl DeepView for LockOptions {
    type V = LockOptionsView;

    open spec fn deep_view(&self) -> LockOptionsView {
        LockOptionsView {
            comment: self.comment.deep_view(),
            steal_lock: self.steal_lock,
            current_rev: self.current_rev,
        }
    }
}

impl LockOptions {
    /// A lock without a comment.
    pub fn new() -> (r: LockOptions)
        ensures
            r.deep_view() == (LockOptionsView {
                comment: None,
                steal_lock: false,
                current_rev: None,
            }),
    {
        LockOptions { comment: None, steal_lock: false, current_rev: None }
    }

    /// With a comment.
    pub fn with_comment(self, comment: &str) -> (r: LockOptions)
        ensures
            r.deep_view() == (LockOptionsView { comment: Some(comment@), ..self.deep_view() }),
    {
        let mut s = self;
        s.comment = Some(comment.to_owned());
        s
    }

    /// A lock that another has is taken over.
    pub fn steal_lock(self) -> (r: LockOptions)
        ensures
            r.deep_view() == (LockOptionsView { steal_lock: true, ..self.deep_view() }),
    {
        let mut s = self;
        s.steal_lock = true;
        s
    }

    /// The revision that the client has.
    pub fn with_current_rev(self, rev: u64) -> (r: LockOptions)
        ensures
            r.deep_view() == (LockOptionsView { current_rev: Some(rev), ..self.deep_view() }),
    {
        let mut s = self;
        s.current_rev = Some(rev);
        s
    }
}

/// Locks to take.
#[derive(Clone, Debug, PartialEq, Eq)]
pub struct LockManyOptions {
    pub comment: Option<String>,
    pub steal_lock: bool,
}

/// What a `LockManyOptions` says.
#[verifier::ext_equal]
pub struct LockManyOptionsView {
    pub comment: Option<Seq<char>>,
    pub steal_lock: bool,
}

impl DeepView for LockManyOptions {
    type V = LockManyOptionsView;

    open spec fn deep_view(&self) -> LockManyOptionsView {
        LockManyOptionsView {
            comment: self.comment.deep_view(),
            steal_lock: self.steal_lock,
        }
    }
}

impl LockManyOptions {
    /// Locks without a comment.
    pub fn new() -> (r: LockManyOptions)
        ensures
            r.deep_view() == (LockManyOptionsView { comment: None, steal_lock: false }),
    {
        LockManyOptions { comment: None, steal_lock: false }
    }

    /// With a comment.
    pub fn with_comment(self, comment: &str) -> (r: LockManyOptions)
        ensures
            r.deep_view() == (LockManyOptionsView { comment: Some(comment@), ..self.deep_view() }),
    {
        let mut s = self;
        s.comment = Some(comment.to_owned());
        s
    }

    /// A lock that another has is taken over.
    pub fn steal_lock(self) -> (r: LockManyOptions)
        ensures
            r.deep_view() == (LockManyOptionsView { steal_lock: true, ..self.deep_view() }),
    {
        let mut s = self;
        s.steal_lock = true;
        s
    }
}

/// A path to lock.
#[derive(Clone, Debug, PartialEq, Eq)]
pub struct LockTarget {
    pub path: String,
    pub current_rev: Option<u64>,
}

/// What a `LockTarget` says.
#[verifier::ext_equal]
pub struct LockTargetView {
    pub path: Seq<char>,
    pub current_rev: Option<u64>,
}

impl DeepView for LockTarget {
    type V = LockTargetView;

    open spec fn deep_view(&self) -> LockTargetView {
        LockTargetView {
            path: self.path@,
            current_rev: self.current_rev,
        }
    }
}

impl LockTarget {
    /// A path to lock.
    pub fn new(path: &str) -> (r: LockTarget)
        ensures
            r.deep_view() == (LockTargetView { path: path@, current_rev: None }),
    {
        LockTarget { path: path.to_owned(), current_rev: None }
    }

    /// The revision that the client has.
    pub fn with_current_rev(self, rev: u64) -> (r: LockTarget)
        ensures
            r.deep_view() == (LockTargetView { current_rev: Some(rev), ..self.deep_view() }),
    {
        let mut s = self;
        s.current_rev = Some(rev);
        s
    }
}

/// A lock to release.
#[derive(Clone, Debug, PartialEq, Eq)]
pub struct UnlockOptions {
    pub token: Option<String>,
    pub break_lock: bool,
}

/// What an `UnlockOptions` says.
#[verifier::ext_equal]
pub struct UnlockOptionsView {
    pub token: Option<Seq<char>>,
    pub break_lock: bool,
}

impl DeepView for UnlockOptions {
    type V = UnlockOptionsView;

    open spec fn deep_view(&self) -> UnlockOptionsView {
        UnlockOptionsView {
            token: self.token.deep_view(),
            break_lock: self.break_lock,
        }
    }
}

impl UnlockOptions {
    /// A lock without a token.
    pub fn new() -> (r: UnlockOptions)
        ensures
            r.deep_view() == (UnlockOptionsView { token: None, break_lock: false }),
    {
        UnlockOptions { token: None, break_lock: false }
    }

    /// The token of the lock.
    pub fn with_token(self, token: &str) -> (r: UnlockOptions)
        ensures
            r.deep_view() == (UnlockOptionsView { token: Some(token@), ..self.deep_view() }),
    {
        let mut s = self;
        s.token = Some(token.to_owned());
        s
    }

    /// A lock that another has is broken.
    pub fn break_lock(self) -> (r: UnlockOptions)
        ensures
            r.deep_view() == (UnlockOptionsView { break_lock: true, ..self.deep_view() }),
    {
        let mut s = self;
        s.break_lock = true;
        s
    }
}

/// Locks to release.
#[derive(Clone, Debug, PartialEq, Eq)]
pub struct UnlockManyOptions {
    pub break_lock: bool,
}

/// What an `UnlockManyOptions` says.
#[verifier::ext_equal]
pub struct UnlockManyOptionsView {
    pub break_lock: bool,
}

impl DeepView for UnlockManyOptions {
    type V = UnlockManyOptionsView;

    open spec fn deep_view(&self) -> UnlockManyOptionsView {
        UnlockManyOptionsView {
            break_lock: self.break_lock,
        }
    }
}

impl UnlockManyOptions {
    /// Locks that are not broken.
    pub fn new() -> (r: UnlockManyOptions)
        ensures
            r.deep_view() == (UnlockManyOptionsView { break_lock: false }),
    {
        UnlockManyOptions { break_lock: false }
    }

    /// Locks that others have are broken.
    pub fn break_lock(self) -> (r: UnlockManyOptions)
        ensures
            r.deep_view() == (UnlockManyOptionsView { break_lock: true }),
    {
        UnlockManyOptions { break_lock: true }
    }
}

/// A path to unlock.
#[derive(Clone, Debug, PartialEq, Eq)]
pub struct UnlockTarget {
    pub path: String,
    pub token: Option<String>,
}

/// What an `UnlockTarget` says.
#[verifier::ext_equal]
pub struct UnlockTargetView {
    pub path: Seq<char>,
    pub token: Option<Seq<char>>,
}

impl DeepView for UnlockTarget {
    type V = UnlockTargetView;

    open spec fn deep_view(&self) -> UnlockTargetView {
        UnlockTargetView {
            path: self.path@,
            token: self.token.deep_view(),
        }
    }
}

impl UnlockTarget {
    /// A path to unlock.
    pub fn new(path: &str) -> (r: UnlockTarget)
        ensures
            r.deep_view() == (UnlockTargetView { path: path@, token: None }),
    {
        UnlockTarget { path: path.to_owned(), token: None }
    }

    /// The token of the lock.
    pub fn with_token(self, token: &str) -> (r: UnlockTarget)
        ensures
            r.deep_view() == (UnlockTargetView { token: Some(token@), ..self.deep_view() }),
    {
        let mut s = self;
        s.token = Some(token.to_owned());
        s
    }
}

/// Which properties of revisions the log gives.
#[derive(Clone, Debug, PartialEq, Eq)]
pub enum LogRevProps {
    All,
    /// Those with these names.
    Custom(Vec<String>),
}

/// What a `LogRevProps` says.
pub enum LogRevPropsView {
    All,
    Custom(Seq<Seq<char>>),
}

impl DeepView for LogRevProps {
    type V = LogRevPropsView;

    open spec fn deep_view(&self) -> LogRevPropsView {
        match self {
            LogRevProps::All => LogRevPropsView::All,
            LogRevProps::Custom(names) => LogRevPropsView::Custom(names.deep_view()),
        }
    }
}

/// A part of the log.
#[derive(Clone, Debug, PartialEq, Eq)]
pub struct LogOptions {
    pub target_paths: Vec<String>,
    pub start_rev: Option<u64>,
    pub end_rev: Option<u64>,
    pub changed_paths: bool,
    pub strict_node: bool,
    /// The most entries that are sent; zero means all.
    pub limit: u64,
    pub include_merged_revisions: bool,
    pub revprops: LogRevProps,
}

/// What a `LogOptions` says.
#[verifier::ext_equal]
pub struct LogOptionsView {
    pub target_paths: Seq<Seq<char>>,
    pub start_rev: Option<u64>,
    pub end_rev: Option<u64>,
    pub changed_paths: bool,
    pub strict_node: bool,
    pub limit: u64,
    pub include_merged_revisions: bool,
    pub revprops: LogRevPropsView,
}

impl DeepView for LogOptions {
    type V = LogOptionsView;

    open spec fn deep_view(&self) -> LogOptionsView {
        LogOptionsView {
            target_paths: self.target_paths.deep_view(),
            start_rev: self.start_rev,
            end_rev: self.end_rev,
            changed_paths: self.changed_paths,
            strict_node: self.strict_node,
            limit: self.limit,
            include_merged_revisions: self.include_merged_revisions,
            revprops: self.revprops.deep_view(),
        }
    }
}

impl LogOptions {
    /// The log from one revision to another, with the paths that were changed and the
    /// usual properties.
    pub fn between(start_rev: u64, end_rev: u64) -> (r: LogOptions)
        ensures
            r.deep_view() == (LogOptionsView {
                target_paths: seq![""@],
                start_rev: Some(start_rev),
                end_rev: Some(end_rev),
                changed_paths: true,
                strict_node: false,
                limit: 0,
                include_merged_revisions: false,
                revprops: LogRevPropsView::Custom(seq!["svn:author"@, "svn:date"@, "svn:log"@]),
            }),
    {
        let target_paths = vec!["".to_owned()];
        let names = vec!["svn:author".to_owned(), "svn:date".to_owned(), "svn:log".to_owned()];
        assert(target_paths.deep_view() =~= seq![""@]);
        assert(names.deep_view() =~= seq!["svn:author"@, "svn:date"@, "svn:log"@]);
        LogOptions {
            target_paths,
            start_rev: Some(start_rev),
            end_rev: Some(end_rev),
            changed_paths: true,
            strict_node: false,
            limit: 0,
            include_merged_revisions: false,
            revprops: LogRevProps::Custom(names),
        }
    }
}

/// A part of the tree.
#[derive(Clone, Debug, PartialEq, Eq)]
pub struct ListOptions {
    pub path: String,
    pub rev: Option<u64>,
    pub depth: Depth,
    pub fields: Vec<DirentField>,
    pub patterns: Vec<String>,
}

/// What a `ListOptions` says.
#[verifier::ext_equal]
pub struct ListOptionsView {
    pub path: Seq<char>,
    pub rev: Option<u64>,
    pub depth: Depth,
    pub fields: Seq<DirentField>,
    pub patterns: Seq<Seq<char>>,
}

impl DeepView for ListOptions {
    type V = ListOptionsView;

    open spec fn deep_view(&self) -> ListOptionsView {
        ListOptionsView {
            path: self.path@,
            rev: self.rev,
            depth: self.depth,
            fields: self.fields@,
            patterns: self.patterns.deep_view(),
        }
    }
}

/// A lock that a commit holds.
#[derive(Clone, Debug, PartialEq, Eq)]
pub struct CommitLockToken {
    pub path: String,
    pub token: String,
}

/// What a `CommitLockToken` says.
#[verifier::ext_equal]
pub struct CommitLockTokenView {
    pub path: Seq<char>,
    pub token: Seq<char>,
}

impl DeepView for CommitLockToken {
    type V = CommitLockTokenView;

    open spec fn deep_view(&self) -> CommitLockTokenView {
        CommitLockTokenView {
            path: self.path@,
            token: self.token@,
        }
    }
}

/// How a commit is made.
#[derive(Clone, Debug, PartialEq, Eq)]
pub struct CommitOptions {
    pub log_message: String,
    pub lock_tokens: Vec<CommitLockToken>,
    pub keep_locks: bool,
    /// More properties of the new revision.
    pub rev_props: PropertyList,
}

/// What a `CommitOptions` says.
#[verifier::ext_equal]
pub struct CommitOptionsView {
    pub log_message: Seq<char>,
    pub lock_tokens: Seq<CommitLockTokenView>,
    pub keep_locks: bool,
    pub rev_props: Map<Seq<char>, Seq<u8>>,
}

impl DeepView for CommitOptions {
    type V = CommitOptionsView;

    open spec fn deep_view(&self) -> CommitOptionsView {
        CommitOptionsView {
            log_message: self.log_message@,
            lock_tokens: self.lock_tokens.deep_view(),
            keep_locks: self.keep_locks,
            rev_props: props_view(self.rev_props),
        }
    }
}

impl CommitOptions {
    /// A commit with a message, and nothing else.
    pub fn new(log_message: &str) -> (r: CommitOptions)
        ensures
            r.rev_props.wf(),
            r.deep_view() == (CommitOptionsView {
                log_message: log_message@,
                lock_tokens: Seq::empty(),
                keep_locks: false,
                rev_props: Map::empty(),
            }),
    {
        let r = CommitOptions {
            log_message: log_message.to_owned(),
            lock_tokens: Vec::new(),
            keep_locks: false,
            rev_props: KeyMap::new(),
        };
        assert(r.deep_view().lock_tokens =~= Seq::<CommitLockTokenView>::empty());
        assert(r.deep_view().rev_props =~= Map::<Seq<char>, Seq<u8>>::empty());
        r
    }
}

} // verus!
