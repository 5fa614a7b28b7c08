//! From the changes of a commit to its editor commands. What stands in the repository is
//! asked step by step: each step says what to ask for, and takes the answer.

use vstd::prelude::*;

use crate::commit::{
    sorted_changes, version_for, BuilderView, ChangesView, CommitBuilder, CommitChanges,
};
use crate::commit_drive::Encoding;
use crate::commit_plan::{delete_answered, CommitPlan, PlanView};
use crate::drive_laws::{entered_once, is_complete};
use crate::editor::{EditView, EditorCommand};
use crate::error::{ErrorView, SvnError};
use crate::keymap::in_order;
use crate::path::rel_dir_path;
use crate::token_laws::tokens_once;
use crate::types::NodeKind;

verus! {

/// The changes with all copies resolved, where `kinds` says what stands in the repository
/// at a path and a revision.
pub open spec fn copies_resolved(
    v: ChangesView,
    base_rev: u64,
    kinds: spec_fn(Seq<char>, u64) -> NodeKind,
) -> Result<ChangesView, ErrorView>
    decreases v.copies.len(),
{
    if v.copies.len() == 0 {
        Ok(v)
    } else {
        match v.copy_asks(base_rev) {
            Err(e) => Err(e),
            Ok((path, rev)) => match v.copy_answered(base_rev, kinds(path, rev)) {
                Err(e) => Err(e),
                Ok(w) => copies_resolved(w, base_rev, kinds),
            },
        }
    }
}

/// A plan that knows of the directories that it enters, from the `i`-th on.
pub open spec fn dirs_answered(
    p: PlanView,
    i: int,
    base_rev: u64,
    kinds: spec_fn(Seq<char>, u64) -> NodeKind,
) -> Result<PlanView, ErrorView>
    decreases in_order(p.changes.needed_dirs()).len() - i,
{
    let needed = in_order(p.changes.needed_dirs());
    if i < 0 || i >= needed.len() {
        Ok(p)
    } else {
        match rel_dir_path(needed[i]) {
            Err(e) => Err(e),
            Ok(dir) => match p.dir_answered(needed[i], kinds(dir, base_rev)) {
                Err(e) => Err(e),
                Ok(q) => dirs_answered(q, i + 1, base_rev, kinds),
            },
        }
    }
}

/// A plan that knows of the files that it changes, from the `i`-th on.
pub open spec fn files_answered(
    p: PlanView,
    i: int,
    base_rev: u64,
    kinds: spec_fn(Seq<char>, u64) -> NodeKind,
) -> Result<PlanView, ErrorView>
    decreases in_order(p.changes.files.dom()).len() - i,
{
    let files = in_order(p.changes.files.dom());
    if i < 0 || i >= files.len() {
        Ok(p)
    } else {
        match p.file_answered(files[i], kinds(files[i], base_rev)) {
            Err(e) => Err(e),
            Ok(q) => files_answered(q, i + 1, base_rev, kinds),
        }
    }
}

/// The paths that a plan deletes, from the `i`-th on, are there.
pub open spec fn deletes_answered(
    p: PlanView,
    i: int,
    base_rev: u64,
    kinds: spec_fn(Seq<char>, u64) -> NodeKind,
) -> Result<(), ErrorView>
    decreases in_order(p.changes.deletes).len() - i,
{
    let deletes = in_order(p.changes.deletes);
    if i < 0 || i >= deletes.len() {
        Ok(())
    } else {
        match delete_answered(deletes[i], kinds(deletes[i], base_rev)) {
            Err(e) => Err(e),
            Ok(_) => deletes_answered(p, i + 1, base_rev, kinds),
        }
    }
}

/// How far a commit has come: what has been found out, and which answer comes next.
pub enum StageView {
    Copies { changes: ChangesView },
    Dirs { plan: PlanView, i: int },
    Files { plan: PlanView, i: int },
    Deletes { plan: PlanView, i: int },
}

/// Where a commit stands: it waits for an answer, or its commands are known.
pub enum NextView {
    Asks(StageView),
    Done(Seq<EditView>),
}

/// The plan for changes whose copies are resolved.
pub open spec fn fresh_plan(v: ChangesView) -> PlanView {
    PlanView { changes: v, plans: Map::empty(), exists: Map::empty() }
}

impl StageView {
    /// What is asked for next: a path and a revision. No more is asked where something is
    /// wrong already, or where everything is known.
    pub open spec fn asks(self, base_rev: u64) -> Option<(Seq<char>, u64)> {
        match self {
            StageView::Copies { changes } => if changes.copies.len() == 0 {
                None
            } else {
                match changes.copy_asks(base_rev) {
                    Ok(x) => Some(x),
                    Err(_) => None,
                }
            },
            StageView::Dirs { plan, i } => {
                let needed = in_order(plan.changes.needed_dirs());
                if 0 <= i < needed.len() {
                    match rel_dir_path(needed[i]) {
                        Ok(dir) => Some((dir, base_rev)),
                        Err(_) => None,
                    }
                } else {
                    None
                }
            },
            StageView::Files { plan, i } => {
                let files = in_order(plan.changes.files.dom());
                if 0 <= i < files.len() {
                    Some((files[i], base_rev))
                } else {
                    None
                }
            },
            StageView::Deletes { plan, i } => {
                let deletes = in_order(plan.changes.deletes);
                if 0 <= i < deletes.len() {
                    Some((deletes[i], base_rev))
                } else {
                    None
                }
            },
        }
    }

    /// How many kinds of changes are still to be looked at behind those that are being
    /// looked at.
    pub open spec fn part(self) -> nat {
        match self {
            StageView::Copies { .. } => 3,
            StageView::Dirs { .. } => 2,
            StageView::Files { .. } => 1,
            StageView::Deletes { .. } => 0,
        }
    }

    /// How many of the changes that are being looked at are left.
    pub open spec fn left(self) -> int {
        match self {
            StageView::Copies { changes } => changes.copies.len() as int,
            StageView::Dirs { plan, i } => in_order(plan.changes.needed_dirs()).len() - i,
            StageView::Files { plan, i } => in_order(plan.changes.files.dom()).len() - i,
            StageView::Deletes { plan, i } => in_order(plan.changes.deletes).len() - i,
        }
    }

    /// Another stage is nearer to the end.
    pub open spec fn before(self, other: StageView) -> bool {
        ||| other.part() < self.part()
        ||| other.part() == self.part() && 0 <= other.left() < self.left()
    }

    /// The stage behind the answer that is waited for, or why the commit is refused.
    pub open spec fn answered(self, base_rev: u64, kind: NodeKind) -> Result<
        StageView,
        ErrorView,
    > {
        match self {
            StageView::Copies { changes } => match changes.copy_answered(base_rev, kind) {
                Ok(w) => Ok(StageView::Copies { changes: w }),
                Err(e) => Err(e),
            },
            StageView::Dirs { plan, i } => match plan.dir_answered(
                in_order(plan.changes.needed_dirs())[i],
                kind,
            ) {
                Ok(q) => Ok(StageView::Dirs { plan: q, i: i + 1 }),
                Err(e) => Err(e),
            },
            StageView::Files { plan, i } => match plan.file_answered(
                in_order(plan.changes.files.dom())[i],
                kind,
            ) {
                Ok(q) => Ok(StageView::Files { plan: q, i: i + 1 }),
                Err(e) => Err(e),
            },
            StageView::Deletes { plan, i } => match delete_answered(
                in_order(plan.changes.deletes)[i],
                kind,
            ) {
                Ok(_) => Ok(StageView::Deletes { plan, i: i + 1 }),
                Err(e) => Err(e),
            },
        }
    }

    /// Where the commit stands without a further answer: at this stage where it asks for
    /// something, and otherwise at the next one that does, or at the end.
    pub open spec fn settled(self, base_rev: u64, enc: Encoding) -> Result<NextView, ErrorView>
        decreases self.part(),
    {
        match self {
            StageView::Copies { changes } => if changes.copies.len() > 0 {
                match changes.copy_asks(base_rev) {
                    Ok(_) => Ok(NextView::Asks(self)),
                    Err(e) => Err(e),
                }
            } else {
                match changes.deletes_checked(in_order(changes.deletes).len() as int) {
                    Ok(_) => (StageView::Dirs { plan: fresh_plan(changes), i: 0 }).settled(
                        base_rev,
                        enc,
                    ),
                    Err(e) => Err(e),
                }
            },
            StageView::Dirs { plan, i } => {
                let needed = in_order(plan.changes.needed_dirs());
                if 0 <= i < needed.len() {
                    match rel_dir_path(needed[i]) {
                        Ok(_) => Ok(NextView::Asks(self)),
                        Err(e) => Err(e),
                    }
                } else {
                    (StageView::Files { plan, i: 0 }).settled(base_rev, enc)
                }
            },
            StageView::Files { plan, i } => if 0 <= i < in_order(plan.changes.files.dom()).len() {
                Ok(NextView::Asks(self))
            } else {
                (StageView::Deletes { plan, i: 0 }).settled(base_rev, enc)
            },
            StageView::Deletes { plan, i } => if 0 <= i < in_order(plan.changes.deletes).len() {
                Ok(NextView::Asks(self))
            } else {
                match plan.commands(base_rev, enc) {
                    Ok(commands) => Ok(NextView::Done(commands)),
                    Err(e) => Err(e),
                }
            },
        }
    }

    /// Where the commit stands after the answer that is waited for.
    pub open spec fn next(self, base_rev: u64, enc: Encoding, kind: NodeKind) -> Result<
        NextView,
        ErrorView,
    > {
        match self.answered(base_rev, kind) {
            Ok(s) => s.settled(base_rev, enc),
            Err(e) => Err(e),
        }
    }

    /// What the commit comes to.
    pub open spec fn outcome(
        self,
        base_rev: u64,
        enc: Encoding,
        kinds: spec_fn(Seq<char>, u64) -> NodeKind,
    ) -> Result<Seq<EditView>, ErrorView> {
        match self {
            StageView::Copies { changes } => from_copies(changes, base_rev, enc, kinds),
            StageView::Dirs { plan, i } => from_dirs(plan, i, base_rev, enc, kinds),
            StageView::Files { plan, i } => from_files(plan, i, base_rev, enc, kinds),
            StageView::Deletes { plan, i } => from_deletes(plan, i, base_rev, enc, kinds),
        }
    }
}

/// What a commit comes to whose deletions, from the `i`-th on, are still to be looked at.
#[verifier::opaque]
pub open spec fn from_deletes(
    p: PlanView,
    i: int,
    base_rev: u64,
    enc: Encoding,
    kinds: spec_fn(Seq<char>, u64) -> NodeKind,
) -> Result<Seq<EditView>, ErrorView> {
    match deletes_answered(p, i, base_rev, kinds) {
        Err(e) => Err(e),
        Ok(_) => p.commands(base_rev, enc),
    }
}

/// What a commit comes to whose files, from the `i`-th on, are still to be looked at.
#[verifier::opaque]
pub open spec fn from_files(
    p: PlanView,
    i: int,
    base_rev: u64,
    enc: Encoding,
    kinds: spec_fn(Seq<char>, u64) -> NodeKind,
) -> Result<Seq<EditView>, ErrorView> {
    match files_answered(p, i, base_rev, kinds) {
        Err(e) => Err(e),
        Ok(q) => from_deletes(q, 0, base_rev, enc, kinds),
    }
}

/// What a commit comes to whose directories, from the `i`-th on, are still to be looked
/// at.
#[verifier::opaque]
pub open spec fn from_dirs(
    p: PlanView,
    i: int,
    base_rev: u64,
    enc: Encoding,
    kinds: spec_fn(Seq<char>, u64) -> NodeKind,
) -> Result<Seq<EditView>, ErrorView> {
    match dirs_answered(p, i, base_rev, kinds) {
        Err(e) => Err(e),
        Ok(q) => from_files(q, 0, base_rev, enc, kinds),
    }
}

/// What a commit comes to whose copies are still to be looked at.
#[verifier::opaque]
pub open spec fn from_copies(
    v: ChangesView,
    base_rev: u64,
    enc: Encoding,
    kinds: spec_fn(Seq<char>, u64) -> NodeKind,
) -> Result<Seq<EditView>, ErrorView> {
    match copies_resolved(v, base_rev, kinds) {
        Err(e) => Err(e),
        Ok(w) => match w.deletes_checked(in_order(w.deletes).len() as int) {
            Err(e) => Err(e),
            Ok(_) => from_dirs(fresh_plan(w), 0, base_rev, enc, kinds),
        },
    }
}

/// The editor commands of a commit against `base_rev`, where the server does or does not
/// understand the versions 1 and 2 of the delta format, and `kinds` says what stands in
/// the repository at a path and a revision.
pub open spec fn built_at(
    b: BuilderView,
    svndiff1: bool,
    svndiff2: bool,
    base_rev: u64,
    kinds: spec_fn(Seq<char>, u64) -> NodeKind,
) -> Result<Seq<EditView>, ErrorView> {
    match version_for(b.svndiff, svndiff1, svndiff2) {
        Err(e) => Err(e),
        Ok(version) => match sorted_changes(b.changes, b.changes.len() as int) {
            Err(e) => Err(e),
            Ok(changes) => (StageView::Copies { changes }).outcome(
                base_rev,
                Encoding { version, level: b.zlib_level, window_size: b.window_size },
                kinds,
            ),
        },
    }
}

/// How texts are encoded, and where a commit against `base_rev` stands at first.
pub open spec fn started(
    b: BuilderView,
    svndiff1: bool,
    svndiff2: bool,
    base_rev: u64,
) -> Result<(Encoding, NextView), ErrorView> {
    match version_for(b.svndiff, svndiff1, svndiff2) {
        Err(e) => Err(e),
        Ok(version) => match sorted_changes(b.changes, b.changes.len() as int) {
            Err(e) => Err(e),
            Ok(changes) => {
                let enc = Encoding { version, level: b.zlib_level, window_size: b.window_size };
                match (StageView::Copies { changes }).settled(base_rev, enc) {
                    Err(e) => Err(e),
                    Ok(n) => Ok((enc, n)),
                }
            },
        },
    }
}

/// The revision that a commit is made against, where `latest` is the latest one.
pub open spec fn rev_for(b: BuilderView, latest: u64) -> u64 {
    match b.base_rev {
        Some(rev) => rev,
        None => latest,
    }
}

/// The editor commands of a commit, where `latest` is the latest revision.
pub open spec fn built(
    b: BuilderView,
    svndiff1: bool,
    svndiff2: bool,
    latest: u64,
    kinds: spec_fn(Seq<char>, u64) -> NodeKind,
) -> Result<Seq<EditView>, ErrorView> {
    match b.checked() {
        Err(e) => Err(e),
        Ok(_) => built_at(b, svndiff1, svndiff2, rev_for(b, latest), kinds),
    }
}

/// A commit that waits asks for something, at this stage or at a later one.
pub(crate) proof fn lemma_settled(s: StageView, base_rev: u64, enc: Encoding)
    ensures
        s.settled(base_rev, enc) matches Ok(NextView::Asks(t)) ==> t.asks(base_rev) is Some && (t
            == s || t.part() < s.part()),
        s.asks(base_rev) is Some ==> s.settled(base_rev, enc) == Ok::<NextView, ErrorView>(
            NextView::Asks(s),
        ),
    decreases s.part(),
{
    match s {
        StageView::Copies { changes } => {
            if changes.copies.len() == 0 {
                lemma_settled(StageView::Dirs { plan: fresh_plan(changes), i: 0 }, base_rev, enc);
            }
        },
        StageView::Dirs { plan, .. } => {
            lemma_settled(StageView::Files { plan, i: 0 }, base_rev, enc);
        },
        StageView::Files { plan, .. } => {
            lemma_settled(StageView::Deletes { plan, i: 0 }, base_rev, enc);
        },
        StageView::Deletes { .. } => {},
    }
}

/// Every answer brings a commit nearer to its end: what is then waited for comes later.
pub proof fn answers_come_nearer(s: StageView, base_rev: u64, enc: Encoding, kind: NodeKind)
    requires
        s.asks(base_rev) is Some,
    ensures
        s.next(base_rev, enc, kind) matches Ok(NextView::Asks(t)) ==> s.before(t) && t.asks(
            base_rev,
        ) is Some,
{
    if let Ok(t) = s.answered(base_rev, kind) {
        lemma_settled(t, base_rev, enc);
    }
}

/// One answer more is known of the deletions.
proof fn lemma_from_deletes(p: PlanView, i: int, base_rev: u64, enc: Encoding)
    ensures
        forall|kinds: spec_fn(Seq<char>, u64) -> NodeKind| #[trigger]
            (StageView::Deletes { plan: p, i: i }).outcome(base_rev, enc, kinds) == ({
                let deletes = in_order(p.changes.deletes);
                if 0 <= i < deletes.len() {
                    match delete_answered(deletes[i], kinds(deletes[i], base_rev)) {
                        Err(e) => Err(e),
                        Ok(_) => (StageView::Deletes { plan: p, i: i + 1 }).outcome(
                            base_rev,
                            enc,
                            kinds,
                        ),
                    }
                } else {
                    p.commands(base_rev, enc)
                }
            }),
{
    reveal(from_deletes);
}

/// One answer more is known of the files.
proof fn lemma_from_files(p: PlanView, i: int, base_rev: u64, enc: Encoding)
    ensures
        forall|kinds: spec_fn(Seq<char>, u64) -> NodeKind| #[trigger]
            (StageView::Files { plan: p, i: i }).outcome(base_rev, enc, kinds) == ({
                let files = in_order(p.changes.files.dom());
                if 0 <= i < files.len() {
                    match p.file_answered(files[i], kinds(files[i], base_rev)) {
                        Err(e) => Err(e),
                        Ok(q) => (StageView::Files { plan: q, i: i + 1 }).outcome(
                            base_rev,
                            enc,
                            kinds,
                        ),
                    }
                } else {
                    (StageView::Deletes { plan: p, i: 0 }).outcome(base_rev, enc, kinds)
                }
            }),
{
    reveal(from_files);
}

/// One answer more is known of the directories.
proof fn lemma_from_dirs(p: PlanView, i: int, base_rev: u64, enc: Encoding)
    ensures
        forall|kinds: spec_fn(Seq<char>, u64) -> NodeKind| #[trigger]
            (StageView::Dirs { plan: p, i: i }).outcome(base_rev, enc, kinds) == ({
                let needed = in_order(p.changes.needed_dirs());
                if 0 <= i < needed.len() {
                    match rel_dir_path(needed[i]) {
                        Err(e) => Err(e),
                        Ok(dir) => match p.dir_answered(needed[i], kinds(dir, base_rev)) {
                            Err(e) => Err(e),
                            Ok(q) => (StageView::Dirs { plan: q, i: i + 1 }).outcome(
                                base_rev,
                                enc,
                                kinds,
                            ),
                        },
                    }
                } else {
                    (StageView::Files { plan: p, i: 0 }).outcome(base_rev, enc, kinds)
                }
            }),
{
    reveal(from_dirs);
}

/// One answer more is known of the copies.
proof fn lemma_from_copies(v: ChangesView, base_rev: u64, enc: Encoding)
    ensures
        forall|kinds: spec_fn(Seq<char>, u64) -> NodeKind| #[trigger]
            (StageView::Copies { changes: v }).outcome(
                base_rev,
                enc,
                kinds,
            ) == (if v.copies.len() > 0 {
                match v.copy_asks(base_rev) {
                    Err(e) => Err(e),
                    Ok((path, rev)) => match v.copy_answered(base_rev, kinds(path, rev)) {
                        Err(e) => Err(e),
                        Ok(w) => (StageView::Copies { changes: w }).outcome(base_rev, enc, kinds),
                    },
                }
            } else {
                match v.deletes_checked(in_order(v.deletes).len() as int) {
                    Err(e) => Err(e),
                    Ok(_) => (StageView::Dirs { plan: fresh_plan(v), i: 0 }).outcome(
                        base_rev,
                        enc,
                        kinds,
                    ),
                }
            }),
{
    reveal(from_copies);
}

/// How far a commit has come.
enum Stage {
    Copies(CommitChanges),
    Dirs(CommitPlan, usize),
    Files(CommitPlan, usize),
    Deletes(CommitPlan, usize),
}

impl Stage {
    spec fn said(self) -> StageView {
        match self {
            Stage::Copies(changes) => StageView::Copies { changes: changes@ },
            Stage::Dirs(plan, i) => StageView::Dirs { plan: plan@, i: i as int },
            Stage::Files(plan, i) => StageView::Files { plan: plan@, i: i as int },
            Stage::Deletes(plan, i) => StageView::Deletes { plan: plan@, i: i as int },
        }
    }

    spec fn wf(self) -> bool {
        match self {
            Stage::Copies(changes) => changes.wf(),
            Stage::Dirs(plan, _) => plan.wf(),
            Stage::Files(plan, _) => plan.wf(),
            Stage::Deletes(plan, _) => plan.wf(),
        }
    }
}

/// A commit that waits for the number of the latest revision.
pub struct AwaitsRev<'a> {
    builder: &'a CommitBuilder,
    svndiff1: bool,
    svndiff2: bool,
}

impl<'a> AwaitsRev<'a> {
    /// What is committed, and which versions of the delta format the server understands.
    pub closed spec fn said(self) -> (BuilderView, bool, bool) {
        (self.builder@, self.svndiff1, self.svndiff2)
    }
}

/// A commit that waits for the kind of a node.
pub struct AwaitsKind {
    path: String,
    rev: u64,
    base_rev: u64,
    enc: Encoding,
    stage: Stage,
}

impl AwaitsKind {
    /// How far the commit has come.
    pub closed spec fn stage(self) -> StageView {
        self.stage.said()
    }

    /// The revision that the commit is made against.
    pub closed spec fn base_rev(self) -> u64 {
        self.base_rev
    }

    /// How texts are encoded.
    pub closed spec fn enc(self) -> Encoding {
        self.enc
    }

    /// The node that is asked for is the next one.
    pub closed spec fn kept(self) -> bool {
        &&& self.stage.wf()
        &&& self.stage.said().asks(self.base_rev) == Some((self.path@, self.rev))
    }

    /// There is something to ask for, and it is what comes next.
    pub open spec fn wf(self) -> bool {
        self.kept() && self.stage().asks(self.base_rev()) is Some
    }

    /// What the commit comes to.
    pub open spec fn outcome(self, kinds: spec_fn(Seq<char>, u64) -> NodeKind) -> Result<
        Seq<EditView>,
        ErrorView,
    > {
        self.stage().outcome(self.base_rev(), self.enc(), kinds)
    }

    /// What is asked for: a path and a revision.
    pub open spec fn asks(self) -> (Seq<char>, u64) {
        self.stage().asks(self.base_rev())->0
    }
}

/// The next step of a commit.
pub enum CommitStep<'a> {
    /// The number of the latest revision is needed.
    LatestRev(AwaitsRev<'a>),
    /// The kind of a node is needed.
    CheckPath(AwaitsKind),
    /// Everything is known: these commands make the commit.
    Done(Vec<EditorCommand>),
}

impl<'a> CommitStep<'a> {
    /// The commit waits for what comes next, or its commands form a valid edit.
    pub open spec fn wf(self) -> bool {
        match self {
            CommitStep::LatestRev(a) => a.said().0.checked() is Ok && a.said().0.base_rev is None,
            CommitStep::CheckPath(a) => a.wf(),
            CommitStep::Done(c) => is_complete(c.deep_view()) && entered_once(c.deep_view())
                && tokens_once(c.deep_view()),
        }
    }

    /// What the commit comes to, where `latest` is the latest revision and `kinds` says
    /// what stands in the repository.
    pub open spec fn outcome(
        self,
        latest: u64,
        kinds: spec_fn(Seq<char>, u64) -> NodeKind,
    ) -> Result<Seq<EditView>, ErrorView> {
        match self {
            CommitStep::LatestRev(a) => built_at(
                a.said().0,
                a.said().1,
                a.said().2,
                latest,
                kinds,
            ),
            CommitStep::CheckPath(a) => a.outcome(kinds),
            CommitStep::Done(c) => Ok(c.deep_view()),
        }
    }

    /// The step is where the commit stands, against `base_rev` and with texts encoded so.
    pub open spec fn is_at(self, n: NextView, base_rev: u64, enc: Encoding) -> bool {
        match self {
            CommitStep::LatestRev(_) => false,
            CommitStep::CheckPath(a) => n == NextView::Asks(a.stage()) && a.base_rev() == base_rev
                && a.enc() == enc,
            CommitStep::Done(c) => n == NextView::Done(c.deep_view()),
        }
    }
}

/// A step is where the commit stands, or the commit is refused.
pub open spec fn stands(
    r: Result<CommitStep, SvnError>,
    v: Result<NextView, ErrorView>,
    base_rev: u64,
    enc: Encoding,
) -> bool {
    match r {
        Ok(step) => step.wf() && (v matches Ok(n) && step.is_at(n, base_rev, enc)),
        Err(e) => v == Err::<NextView, ErrorView>(e.deep_view()),
    }
}

/// The first step is where the commit stands at first, or the commit is refused.
pub open spec fn stands_first(
    r: Result<CommitStep, SvnError>,
    v: Result<(Encoding, NextView), ErrorView>,
    base_rev: u64,
) -> bool {
    match r {
        Ok(step) => step.wf() && (v matches Ok((enc, n)) && step.is_at(n, base_rev, enc)),
        Err(e) => v == Err::<(Encoding, NextView), ErrorView>(e.deep_view()),
    }
}

/// A step that goes on from `stage`, or why the commit is refused there.
spec fn goes_on(
    r: Result<CommitStep, SvnError>,
    stage: StageView,
    base_rev: u64,
    enc: Encoding,
) -> bool {
    &&& stands(r, stage.settled(base_rev, enc), base_rev, enc)
    &&& match r {
        Ok(step) => forall|
            latest: u64,
            kinds: spec_fn(Seq<char>, u64) -> NodeKind,
        | #[trigger]
            step.outcome(latest, kinds) == stage.outcome(base_rev, enc, kinds),
        Err(e) => forall|kinds: spec_fn(Seq<char>, u64) -> NodeKind| #[trigger]
            stage.outcome(base_rev, enc, kinds) == Err::<Seq<EditView>, ErrorView>(
                e.deep_view(),
            ),
    }
}

fn ask<'a>(path: String, rev: u64, base_rev: u64, enc: Encoding, stage: Stage) -> (r: CommitStep<
    'a,
>)
    requires
        stage.wf(),
        stage.said().asks(base_rev) == Some((path@, rev)),
    ensures
        r.wf(),
        r.is_at(NextView::Asks(stage.said()), base_rev, enc),
        forall|latest: u64, kinds: spec_fn(Seq<char>, u64) -> NodeKind| #[trigger]
            r.outcome(latest, kinds) == stage.said().outcome(base_rev, enc, kinds),
{
    CommitStep::CheckPath(AwaitsKind { path, rev, base_rev, enc, stage })
}

fn next_delete<'a>(plan: CommitPlan, i: usize, base_rev: u64, enc: Encoding) -> (r: Result<
    CommitStep<'a>,
    SvnError,
>)
    requires
        plan.wf(),
    ensures
        goes_on(r, StageView::Deletes { plan: plan@, i: i as int }, base_rev, enc),
{
    proof {
        lemma_from_deletes(plan@, i as int, base_rev, enc);
    }
    if i < plan.delete_count() {
        let path = plan.delete_query(i).clone();
        return Ok(ask(path, base_rev, base_rev, enc, Stage::Deletes(plan, i)));
    }
    match plan.commands(base_rev, enc) {
        Ok(c) => Ok(CommitStep::Done(c)),
        Err(e) => Err(e),
    }
}

fn next_file<'a>(plan: CommitPlan, i: usize, base_rev: u64, enc: Encoding) -> (r: Result<
    CommitStep<'a>,
    SvnError,
>)
    requires
        plan.wf(),
    ensures
        goes_on(r, StageView::Files { plan: plan@, i: i as int }, base_rev, enc),
{
    proof {
        lemma_from_files(plan@, i as int, base_rev, enc);
    }
    if i < plan.file_count() {
        let path = plan.file_query(i).clone();
        return Ok(ask(path, base_rev, base_rev, enc, Stage::Files(plan, i)));
    }
    next_delete(plan, 0, base_rev, enc)
}

fn next_dir<'a>(plan: CommitPlan, i: usize, base_rev: u64, enc: Encoding) -> (r: Result<
    CommitStep<'a>,
    SvnError,
>)
    requires
        plan.wf(),
    ensures
        goes_on(r, StageView::Dirs { plan: plan@, i: i as int }, base_rev, enc),
{
    proof {
        lemma_from_dirs(plan@, i as int, base_rev, enc);
    }
    if i < plan.dir_count() {
        return match plan.dir_query(i) {
            Ok(path) => Ok(ask(path, base_rev, base_rev, enc, Stage::Dirs(plan, i))),
            Err(e) => Err(e),
        };
    }
    next_file(plan, 0, base_rev, enc)
}

fn next_copy<'a>(changes: CommitChanges, base_rev: u64, enc: Encoding) -> (r: Result<
    CommitStep<'a>,
    SvnError,
>)
    requires
        changes.wf(),
    ensures
        goes_on(r, StageView::Copies { changes: changes@ }, base_rev, enc),
{
    proof {
        lemma_from_copies(changes@, base_rev, enc);
    }
    if changes.copy_count() > 0 {
        return match changes.copy_query(base_rev) {
            Ok((path, rev)) => Ok(ask(path, rev, base_rev, enc, Stage::Copies(changes))),
            Err(e) => Err(e),
        };
    }
    match changes.plan() {
        Ok(plan) => next_dir(plan, 0, base_rev, enc),
        Err(e) => Err(e),
    }
}

fn begin_at<'a>(
    builder: &CommitBuilder,
    svndiff1: bool,
    svndiff2: bool,
    base_rev: u64,
) -> (r: Result<CommitStep<'a>, SvnError>)
    ensures
        stands_first(r, started(builder@, svndiff1, svndiff2, base_rev), base_rev),
        match r {
            Ok(step) => forall|
                latest: u64,
                kinds: spec_fn(Seq<char>, u64) -> NodeKind,
            | #[trigger]
                step.outcome(latest, kinds) == built_at(
                    builder@,
                    svndiff1,
                    svndiff2,
                    base_rev,
                    kinds,
                ),
            Err(e) => forall|kinds: spec_fn(Seq<char>, u64) -> NodeKind| #[trigger]
                built_at(builder@, svndiff1, svndiff2, base_rev, kinds) == Err::<
                    Seq<EditView>,
                    ErrorView,
                >(e.deep_view()),
        },
{
    let enc = match builder.encoding(svndiff1, svndiff2) {
        Ok(enc) => enc,
        Err(e) => {
            return Err(e);
        },
    };
    match builder.sort_changes() {
        Ok(changes) => next_copy(changes, base_rev, enc),
        Err(e) => Err(e),
    }
}

impl CommitBuilder {
    /// Begins to build the commands of the commit, for a server that does or does not
    /// understand the versions 1 and 2 of the delta format. The latest revision is asked
    /// for only where no revision was set.
    pub fn build_editor_commands(&self, svndiff1: bool, svndiff2: bool) -> (r: Result<
        CommitStep<'_>,
        SvnError,
    >)
        ensures
            match self@.checked() {
                Err(e) => r matches Err(x) && x.deep_view() == e,
                Ok(_) => match self@.base_rev {
                    None => r matches Ok(CommitStep::LatestRev(a)) && a.said() == (
                        self@,
                        svndiff1,
                        svndiff2,
                    ),
                    Some(rev) => stands_first(r, started(self@, svndiff1, svndiff2, rev), rev),
                },
            },
            match r {
                Ok(step) => step.wf() && forall|
                    latest: u64,
                    kinds: spec_fn(Seq<char>, u64) -> NodeKind,
                | #[trigger]
                    step.outcome(latest, kinds) == built(
                        self@,
                        svndiff1,
                        svndiff2,
                        latest,
                        kinds,
                    ),
                Err(e) => forall|latest: u64, kinds: spec_fn(Seq<char>, u64) -> NodeKind| #[trigger]
                    built(self@, svndiff1, svndiff2, latest, kinds) == Err::<
                        Seq<EditView>,
                        ErrorView,
                    >(e.deep_view()),
            },
    {
        match self.check() {
            Ok(_) => {},
            Err(e) => {
                return Err(e);
            },
        }
        match self.base_rev() {
            Some(rev) => begin_at(self, svndiff1, svndiff2, rev),
            None => Ok(CommitStep::LatestRev(AwaitsRev { builder: self, svndiff1, svndiff2 })),
        }
    }
}

impl<'a> AwaitsRev<'a> {
    /// Takes the number of the latest revision.
    pub fn answer(self, latest: u64) -> (r: Result<CommitStep<'a>, SvnError>)
        ensures
            stands_first(
                r,
                started(self.said().0, self.said().1, self.said().2, latest),
                latest,
            ),
            match r {
                Ok(step) => forall|
                    later: u64,
                    kinds: spec_fn(Seq<char>, u64) -> NodeKind,
                | #[trigger]
                    step.outcome(later, kinds) == built_at(
                        self.said().0,
                        self.said().1,
                        self.said().2,
                        latest,
                        kinds,
                    ),
                Err(e) => forall|kinds: spec_fn(Seq<char>, u64) -> NodeKind| #[trigger]
                    built_at(self.said().0, self.said().1, self.said().2, latest, kinds) == Err::<
                        Seq<EditView>,
                        ErrorView,
                    >(e.deep_view()),
            },
    {
        begin_at(self.builder, self.svndiff1, self.svndiff2, latest)
    }
}

impl AwaitsKind {
    /// The path of the node.
    pub fn path(&self) -> (r: &str)
        requires
            self.wf(),
        ensures
            r@ == self.asks().0,
    {
        self.path.as_str()
    }

    /// The revision of the node.
    pub fn rev(&self) -> (r: u64)
        requires
            self.wf(),
        ensures
            r == self.asks().1,
    {
        self.rev
    }

    /// Takes the kind of the node, and goes on to the next one that is asked for. What the
    /// commit comes to does not change, whatever stands in the repository elsewhere.
    pub fn answer<'a>(self, kind: NodeKind) -> (r: Result<CommitStep<'a>, SvnError>)
        requires
            self.wf(),
        ensures
            stands(
                r,
                self.stage().next(self.base_rev(), self.enc(), kind),
                self.base_rev(),
                self.enc(),
            ),
            r matches Ok(CommitStep::CheckPath(a)) ==> self.stage().before(a.stage()),
            match r {
                Ok(step) => forall|
                    latest: u64,
                    kinds: spec_fn(Seq<char>, u64) -> NodeKind,
                |
                    kinds(self.asks().0, self.asks().1) == kind ==> #[trigger] step.outcome(
                        latest,
                        kinds,
                    ) == self.outcome(kinds),
                Err(e) => forall|kinds: spec_fn(Seq<char>, u64) -> NodeKind|
                    kinds(self.asks().0, self.asks().1) == kind ==> #[trigger] self.outcome(kinds)
                        == Err::<Seq<EditView>, ErrorView>(e.deep_view()),
            },
    {
        let base_rev = self.base_rev;
        let enc = self.enc;
        proof {
            answers_come_nearer(self.stage(), base_rev, enc, kind);
        }
        match self.stage {
            Stage::Copies(changes) => {
                let mut changes = changes;
                proof {
                    lemma_from_copies(changes@, base_rev, enc);
                }
                match changes.resolve_copy(base_rev, kind) {
                    Ok(_) => next_copy(changes, base_rev, enc),
                    Err(e) => Err(e),
                }
            },
            Stage::Dirs(plan, i) => {
                let mut plan = plan;
                let _count = plan.dir_count();
                proof {
                    lemma_from_dirs(plan@, i as int, base_rev, enc);
                }
                match plan.resolve_dir(i, kind) {
                    Ok(_) => next_dir(plan, i + 1, base_rev, enc),
                    Err(e) => Err(e),
                }
            },
            Stage::Files(plan, i) => {
                let mut plan = plan;
                let _count = plan.file_count();
                proof {
                    lemma_from_files(plan@, i as int, base_rev, enc);
                }
                match plan.resolve_file(i, kind) {
                    Ok(_) => next_file(plan, i + 1, base_rev, enc),
                    Err(e) => Err(e),
                }
            },
            Stage::Deletes(plan, i) => {
                let _count = plan.delete_count();
                proof {
                    lemma_from_deletes(plan@, i as int, base_rev, enc);
                }
                match plan.resolve_delete(i, kind) {
                    Ok(_) => next_delete(plan, i + 1, base_rev, enc),
                    Err(e) => Err(e),
                }
            },
        }
    }
}

} // verus!
