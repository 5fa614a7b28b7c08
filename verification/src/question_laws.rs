//! What a commit asks for before its commands are known: everything once, and then no more.

use vstd::prelude::*;

use crate::change_laws::{finite, lemma_resolved_finite, lemma_sorted_finite};
use crate::commit::{
    copy_rev, sorted_changes, version_for, BuilderView, ChangesView, CopyOpView,
};
use crate::commit_drive::{parent_of, prefixes, Encoding};
use crate::commit_driver::{
    answers_come_nearer, built_at, copies_resolved, fresh_plan, from_copies, from_deletes,
    from_dirs, from_files, lemma_settled, started, NextView, StageView,
};
use crate::commit_plan::way_to;
use crate::commit_stream::StreamBuilderView;
use crate::editor::EditView;
use crate::error::ErrorView;
use crate::keymap::{in_order, lemma_finite_in_order, texts_ascend};
use crate::path::{rel_dir_path, rel_path};
use crate::stream_driver::{
    files_taken, no_files, stream_answers_come_nearer, stream_from_dirs, stream_from_files,
    stream_started, streamed_at, StreamNextView, StreamStageView, StreamView,
};
use crate::types::NodeKind;

verus! {

/// Questions for what stands at these paths, at a revision.
pub open spec fn asked_at(paths: Seq<Seq<char>>, rev: u64) -> Seq<(Seq<char>, u64)> {
    paths.map_values(|p: Seq<char>| (p, rev))
}

/// Questions for the sources of copies.
pub open spec fn sources_asked(copies: Seq<CopyOpView>, base_rev: u64) -> Seq<(Seq<char>, u64)> {
    copies.map_values(|c: CopyOpView| (c.from_path, copy_rev(c, base_rev)))
}

/// The paths of directories.
pub open spec fn dir_paths(needed: Seq<Seq<char>>) -> Seq<Seq<char>> {
    needed.map_values(|d: Seq<char>| rel_dir_path(d)->Ok_0)
}

/// Questions for the directories that changes enter, for the files that they change, and
/// for what they delete, each in order.
pub open spec fn changes_asked(v: ChangesView, base_rev: u64) -> Seq<(Seq<char>, u64)> {
    asked_at(dir_paths(in_order(v.needed_dirs())), base_rev) + asked_at(
        in_order(v.files.dom()),
        base_rev,
    ) + asked_at(in_order(v.deletes), base_rev)
}

impl StageView {
    /// What is left to ask for, if nothing is wrong: the sources of copies as they came,
    /// and, once these are known, all that the changes touch.
    pub open spec fn rest(
        self,
        base_rev: u64,
        kinds: spec_fn(Seq<char>, u64) -> NodeKind,
    ) -> Seq<(Seq<char>, u64)> {
        match self {
            StageView::Copies { changes } => sources_asked(changes.copies, base_rev) + (
            match copies_resolved(changes, base_rev, kinds) {
                Ok(w) => changes_asked(w, base_rev),
                Err(_) => Seq::empty(),
            }),
            StageView::Dirs { plan, i } => changes_asked(plan.changes, base_rev).skip(i),
            StageView::Files { plan, i } => changes_asked(plan.changes, base_rev).skip(
                in_order(plan.changes.needed_dirs()).len() + i,
            ),
            StageView::Deletes { plan, i } => changes_asked(plan.changes, base_rev).skip(
                in_order(plan.changes.needed_dirs()).len() + in_order(
                    plan.changes.files.dom(),
                ).len() + i,
            ),
        }
    }

    /// What a commit that waits at this stage asks for until it ends, where `kinds` says
    /// what stands in the repository.
    pub open spec fn questions(
        self,
        base_rev: u64,
        enc: Encoding,
        kinds: spec_fn(Seq<char>, u64) -> NodeKind,
    ) -> Seq<(Seq<char>, u64)>
        decreases self.part(), self.left(),
        via StageView::questions_end
    {
        match self.asks(base_rev) {
            None => Seq::empty(),
            Some(q) => match self.next(base_rev, enc, kinds(q.0, q.1)) {
                Ok(NextView::Asks(t)) => seq![q] + t.questions(base_rev, enc, kinds),
                _ => seq![q],
            },
        }
    }

    #[via_fn]
    proof fn questions_end(
        self,
        base_rev: u64,
        enc: Encoding,
        kinds: spec_fn(Seq<char>, u64) -> NodeKind,
    ) {
        if let Some(q) = self.asks(base_rev) {
            answers_come_nearer(self, base_rev, enc, kinds(q.0, q.1));
        }
    }

    /// Where a commit that waits at this stage stands after `n` answers.
    pub open spec fn after_answers(
        self,
        n: nat,
        base_rev: u64,
        enc: Encoding,
        kinds: spec_fn(Seq<char>, u64) -> NodeKind,
    ) -> Result<NextView, ErrorView>
        decreases n,
    {
        if n == 0 {
            Ok(NextView::Asks(self))
        } else {
            match self.asks(base_rev) {
                None => Ok(NextView::Asks(self)),
                Some(q) => match self.next(base_rev, enc, kinds(q.0, q.1)) {
                    Ok(NextView::Asks(t)) => t.after_answers(
                        (n - 1) as nat,
                        base_rev,
                        enc,
                        kinds,
                    ),
                    r => r,
                },
            }
        }
    }
}

/// What a commit comes to, as where it stands.
pub open spec fn ended(r: Result<Seq<EditView>, ErrorView>) -> Result<NextView, ErrorView> {
    match r {
        Ok(commands) => Ok(NextView::Done(commands)),
        Err(e) => Err(e),
    }
}

/// What a commit comes to does not depend on whether the stage is settled.
proof fn lemma_settled_outcome(
    s: StageView,
    base_rev: u64,
    enc: Encoding,
    kinds: spec_fn(Seq<char>, u64) -> NodeKind,
)
    ensures
        match s.settled(base_rev, enc) {
            Ok(NextView::Asks(t)) => t.outcome(base_rev, enc, kinds) == s.outcome(
                base_rev,
                enc,
                kinds,
            ),
            Ok(NextView::Done(c)) => s.outcome(base_rev, enc, kinds) == Ok::<
                Seq<EditView>,
                ErrorView,
            >(c),
            Err(e) => s.outcome(base_rev, enc, kinds) == Err::<Seq<EditView>, ErrorView>(e),
        },
    decreases s.part(),
{
    reveal(from_copies);
    reveal(from_dirs);
    reveal(from_files);
    reveal(from_deletes);
    match s {
        StageView::Copies { changes } => {
            if changes.copies.len() == 0 {
                let t = StageView::Dirs { plan: fresh_plan(changes), i: 0 };
                lemma_settled_outcome(t, base_rev, enc, kinds);
            }
        },
        StageView::Dirs { plan, .. } => {
            lemma_settled_outcome(StageView::Files { plan, i: 0 }, base_rev, enc, kinds);
        },
        StageView::Files { plan, .. } => {
            lemma_settled_outcome(StageView::Deletes { plan, i: 0 }, base_rev, enc, kinds);
        },
        StageView::Deletes { .. } => {},
    }
}

/// What a commit comes to does not depend on whether an answer was given.
proof fn lemma_answered_outcome(
    s: StageView,
    base_rev: u64,
    enc: Encoding,
    kinds: spec_fn(Seq<char>, u64) -> NodeKind,
)
    requires
        s.asks(base_rev) is Some,
    ensures
        ({
            let q = s.asks(base_rev)->0;
            match s.answered(base_rev, kinds(q.0, q.1)) {
                Ok(t) => t.outcome(base_rev, enc, kinds) == s.outcome(base_rev, enc, kinds),
                Err(e) => s.outcome(base_rev, enc, kinds) == Err::<Seq<EditView>, ErrorView>(e),
            }
        }),
{
    reveal(from_copies);
    reveal(from_dirs);
    reveal(from_files);
    reveal(from_deletes);
}

/// The questions of a commit come to an end: after as many answers as there are questions
/// the commands are known, or the commit is refused, as what stands in the repository
/// says; before that, each step asks the next question.
pub proof fn the_questions_of_a_commit_end(
    s: StageView,
    base_rev: u64,
    enc: Encoding,
    kinds: spec_fn(Seq<char>, u64) -> NodeKind,
)
    requires
        s.asks(base_rev) is Some,
    ensures
        s.after_answers(s.questions(base_rev, enc, kinds).len(), base_rev, enc, kinds) == ended(
            s.outcome(base_rev, enc, kinds),
        ),
        forall|n: nat|
            n < s.questions(base_rev, enc, kinds).len() ==> (#[trigger] s.after_answers(
                n,
                base_rev,
                enc,
                kinds,
            ) matches Ok(NextView::Asks(t)) && t.asks(base_rev) == Some(
                s.questions(base_rev, enc, kinds)[n as int],
            )),
    decreases s.part(), s.left(),
{
    let q = s.asks(base_rev)->0;
    let kind = kinds(q.0, q.1);
    let all = s.questions(base_rev, enc, kinds);
    answers_come_nearer(s, base_rev, enc, kind);
    lemma_answered_outcome(s, base_rev, enc, kinds);
    if let Ok(t) = s.answered(base_rev, kind) {
        lemma_settled_outcome(t, base_rev, enc, kinds);
    }
    match s.next(base_rev, enc, kind) {
        Ok(NextView::Asks(t)) => {
            the_questions_of_a_commit_end(t, base_rev, enc, kinds);
            let more = t.questions(base_rev, enc, kinds);
            assert(all.len() == more.len() + 1);
            assert forall|n: nat| n < all.len() implies (#[trigger] s.after_answers(
                n,
                base_rev,
                enc,
                kinds,
            ) matches Ok(NextView::Asks(u)) && u.asks(base_rev) == Some(all[n as int])) by {
                if n > 0 {
                    let m = (n - 1) as nat;
                    let x = t.after_answers(m, base_rev, enc, kinds);
                    assert(s.after_answers(n, base_rev, enc, kinds) == x);
                    assert(all[n as int] == more[m as int]);
                }
            }
        },
        _ => {
            assert(s.after_answers(1, base_rev, enc, kinds) == s.next(base_rev, enc, kind));
        },
    }
}

/// A stage that asks has all of its questions left.
proof fn lemma_rest_asks(
    s: StageView,
    base_rev: u64,
    kinds: spec_fn(Seq<char>, u64) -> NodeKind,
)
    requires
        s.asks(base_rev) is Some,
    ensures
        ({
            let q = s.asks(base_rev)->0;
            &&& s.rest(base_rev, kinds).len() > 0
            &&& s.rest(base_rev, kinds)[0] == q
            &&& s.answered(base_rev, kinds(q.0, q.1)) matches Ok(t) ==> s.rest(base_rev, kinds)
                == seq![q] + t.rest(base_rev, kinds)
        }),
{
    let q = s.asks(base_rev)->0;
    let kind = kinds(q.0, q.1);
    match s {
        StageView::Copies { changes } => {
            let all = sources_asked(changes.copies, base_rev);
            assert(all[0] == q);
            if let Ok(StageView::Copies { changes: w }) = s.answered(base_rev, kind) {
                assert(w.copies =~= changes.copies.drop_first());
                assert(all =~= seq![q] + sources_asked(w.copies, base_rev));
                assert(copies_resolved(changes, base_rev, kinds) == copies_resolved(
                    w,
                    base_rev,
                    kinds,
                ));
                assert(s.rest(base_rev, kinds) =~= seq![q] + (StageView::Copies {
                    changes: w,
                }).rest(base_rev, kinds));
            }
        },
        StageView::Dirs { plan, i } => {
            let all = changes_asked(plan.changes, base_rev);
            assert(all[i] == q);
            if let Ok(t) = s.answered(base_rev, kind) {
                assert(s.rest(base_rev, kinds) =~= seq![q] + all.skip(i + 1));
            }
        },
        StageView::Files { plan, i } => {
            let all = changes_asked(plan.changes, base_rev);
            let n = in_order(plan.changes.needed_dirs()).len() + i;
            assert(all[n] == q);
            if let Ok(t) = s.answered(base_rev, kind) {
                assert(s.rest(base_rev, kinds) =~= seq![q] + all.skip(n + 1));
            }
        },
        StageView::Deletes { plan, i } => {
            let all = changes_asked(plan.changes, base_rev);
            let n = in_order(plan.changes.needed_dirs()).len() + in_order(
                plan.changes.files.dom(),
            ).len() + i;
            assert(all[n] == q);
            if let Ok(t) = s.answered(base_rev, kind) {
                assert(s.rest(base_rev, kinds) =~= seq![q] + all.skip(n + 1));
            }
        },
    }
}

/// No more has been asked for than there is.
spec fn in_range(s: StageView) -> bool {
    0 <= s.left() && match s {
        StageView::Copies { .. } => true,
        StageView::Dirs { i, .. } => 0 <= i,
        StageView::Files { i, .. } => 0 <= i,
        StageView::Deletes { i, .. } => 0 <= i,
    }
}

/// Settling a stage skips no question.
proof fn lemma_rest_settled(
    s: StageView,
    base_rev: u64,
    enc: Encoding,
    kinds: spec_fn(Seq<char>, u64) -> NodeKind,
)
    requires
        in_range(s),
    ensures
        s.settled(base_rev, enc) matches Ok(NextView::Asks(t)) ==> t.rest(base_rev, kinds)
            == s.rest(base_rev, kinds) && in_range(t),
        s.settled(base_rev, enc) is Ok && s.settled(base_rev, enc)->Ok_0 is Done ==> s.rest(
            base_rev,
            kinds,
        ).len() == 0,
    decreases s.part(),
{
    match s {
        StageView::Copies { changes } => {
            if changes.copies.len() == 0 {
                let t = StageView::Dirs { plan: fresh_plan(changes), i: 0 };
                assert(s.rest(base_rev, kinds) =~= t.rest(base_rev, kinds));
                lemma_rest_settled(t, base_rev, enc, kinds);
            }
        },
        StageView::Dirs { plan, .. } => {
            lemma_rest_settled(StageView::Files { plan, i: 0 }, base_rev, enc, kinds);
        },
        StageView::Files { plan, .. } => {
            lemma_rest_settled(StageView::Deletes { plan, i: 0 }, base_rev, enc, kinds);
        },
        StageView::Deletes { .. } => {},
    }
}

/// No question is asked but those that are left, in their order; where the commit is not
/// refused, all of them are.
proof fn lemma_questions(
    s: StageView,
    base_rev: u64,
    enc: Encoding,
    kinds: spec_fn(Seq<char>, u64) -> NodeKind,
)
    requires
        s.asks(base_rev) is Some,
        in_range(s),
    ensures
        s.questions(base_rev, enc, kinds).is_prefix_of(s.rest(base_rev, kinds)),
        s.outcome(base_rev, enc, kinds) is Ok ==> s.questions(base_rev, enc, kinds) == s.rest(
            base_rev,
            kinds,
        ),
    decreases s.part(), s.left(),
{
    let q = s.asks(base_rev)->0;
    let kind = kinds(q.0, q.1);
    let all = s.questions(base_rev, enc, kinds);
    let rest = s.rest(base_rev, kinds);
    answers_come_nearer(s, base_rev, enc, kind);
    lemma_answered_outcome(s, base_rev, enc, kinds);
    lemma_rest_asks(s, base_rev, kinds);
    if let Ok(t) = s.answered(base_rev, kind) {
        lemma_settled_outcome(t, base_rev, enc, kinds);
        lemma_rest_settled(t, base_rev, enc, kinds);
    }
    match s.next(base_rev, enc, kind) {
        Ok(NextView::Asks(t)) => {
            lemma_questions(t, base_rev, enc, kinds);
            let more = t.questions(base_rev, enc, kinds);
            let left = t.rest(base_rev, kinds);
            assert(rest =~= seq![q] + left);
            assert(all == seq![q] + more);
            assert forall|k: int| 0 <= k < all.len() implies all[k] == rest[k] by {
                if k > 0 {
                    assert(all[k] == more[k - 1]);
                    assert(rest[k] == left[k - 1]);
                }
            }
            assert(all =~= rest.subrange(0, all.len() as int));
        },
        _ => {
            assert(all =~= rest.subrange(0, 1));
        },
    }
}

/// What the changes of a commit touch is asked for once: where the commands can be built,
/// the questions are those for the source of each copy, as the copies came, and then for
/// each directory that is entered, each file that is changed and each path that is
/// deleted, none of them twice. Where the commit is refused, they break off.
pub proof fn everything_is_asked_for_once(
    b: BuilderView,
    svndiff1: bool,
    svndiff2: bool,
    base_rev: u64,
    kinds: spec_fn(Seq<char>, u64) -> NodeKind,
)
    ensures
        match started(b, svndiff1, svndiff2, base_rev) {
            Err(e) => built_at(b, svndiff1, svndiff2, base_rev, kinds) == Err::<
                Seq<EditView>,
                ErrorView,
            >(e),
            Ok((enc, NextView::Done(c))) => built_at(b, svndiff1, svndiff2, base_rev, kinds)
                == Ok::<Seq<EditView>, ErrorView>(c),
            Ok((enc, NextView::Asks(s))) => {
                let all = s.questions(base_rev, enc, kinds);
                &&& s.asks(base_rev) is Some
                &&& s.outcome(base_rev, enc, kinds) == built_at(
                    b,
                    svndiff1,
                    svndiff2,
                    base_rev,
                    kinds,
                )
                &&& sorted_changes(b.changes, b.changes.len() as int) matches Ok(v)
                &&& all.is_prefix_of((StageView::Copies { changes: v }).rest(base_rev, kinds))
                &&& built_at(b, svndiff1, svndiff2, base_rev, kinds) is Ok ==> (copies_resolved(
                    v,
                    base_rev,
                    kinds,
                ) matches Ok(w) && all == sources_asked(v.copies, base_rev) + changes_asked(
                    w,
                    base_rev,
                ) && texts_ascend(in_order(w.needed_dirs())) && texts_ascend(
                    in_order(w.files.dom()),
                ) && texts_ascend(in_order(w.deletes)))
            },
        },
{
    if let Ok(v) = sorted_changes(b.changes, b.changes.len() as int) {
        let first = StageView::Copies { changes: v };
        if let Ok((enc, n)) = started(b, svndiff1, svndiff2, base_rev) {
            lemma_settled(first, base_rev, enc);
            lemma_settled_outcome(first, base_rev, enc, kinds);
            lemma_rest_settled(first, base_rev, enc, kinds);
            if let NextView::Asks(s) = n {
                lemma_questions(s, base_rev, enc, kinds);
                if let Ok(_) = built_at(b, svndiff1, svndiff2, base_rev, kinds) {
                    reveal(from_copies);
                    lemma_sorted_finite(b.changes, b.changes.len() as int);
                    lemma_resolved_finite(v, base_rev, kinds);
                    let w = copies_resolved(v, base_rev, kinds)->Ok_0;
                    lemma_needed_finite(w);
                    lemma_finite_in_order(w.needed_dirs());
                    lemma_finite_in_order(w.files.dom());
                    lemma_finite_in_order(w.deletes);
                }
            }
        } else if let Ok(version) = version_for(b.svndiff, svndiff1, svndiff2) {
            let enc = Encoding { version, level: b.zlib_level, window_size: b.window_size };
            lemma_settled_outcome(first, base_rev, enc, kinds);
        }
    }
}

/// The directories on the ways to paths.
spec fn ways(paths: Set<Seq<char>>, above: bool) -> Set<Seq<char>> {
    Set::new(
        |d: Seq<char>|
            exists|p: Seq<char>| #[trigger] paths.contains(p) && way_to(p, above).contains(d),
    )
}

proof fn lemma_ways_finite(paths: Set<Seq<char>>, above: bool)
    requires
        paths.finite(),
    ensures
        ways(paths, above).finite(),
    decreases paths.len(),
{
    if paths.len() == 0 {
        assert(ways(paths, above) =~= Set::empty());
    } else {
        let p = paths.choose();
        let less = paths.remove(p);
        lemma_ways_finite(less, above);
        let here = way_to(p, above);
        vstd::seq_lib::seq_to_set_is_finite(here);
        assert(ways(paths, above) =~= ways(less, above).union(here.to_set())) by {
            assert forall|d: Seq<char>| ways(paths, above).contains(d) implies ways(
                less,
                above,
            ).union(here.to_set()).contains(d) by {
                let x = choose|x: Seq<char>| #[trigger]
                    paths.contains(x) && way_to(x, above).contains(d);
                if x != p {
                    assert(less.contains(x));
                }
            }
            assert forall|d: Seq<char>| ways(less, above).union(here.to_set()).contains(
                d,
            ) implies ways(paths, above).contains(d) by {
                if ways(less, above).contains(d) {
                    let x = choose|x: Seq<char>| #[trigger]
                        less.contains(x) && way_to(x, above).contains(d);
                    assert(paths.contains(x));
                } else {
                    assert(paths.contains(p));
                }
            }
        }
    }
}

proof fn lemma_needed_finite(v: ChangesView)
    requires
        finite(v),
    ensures
        v.needed_dirs().finite(),
{
    lemma_ways_finite(v.dirs.dom(), false);
    lemma_ways_finite(v.files.dom(), true);
    lemma_ways_finite(v.deletes, true);
    let a = ways(v.dirs.dom(), false);
    let b = ways(v.files.dom(), true);
    let c = ways(v.deletes, true);
    assert(v.needed_dirs() =~= a.union(b).union(c)) by {
        assert forall|d: Seq<char>| v.needed_dirs().contains(d) <==> a.union(b).union(c).contains(
            d,
        ) by {
            assert(v.needs_dir(d) <==> a.contains(d) || b.contains(d) || c.contains(d)) by {
                assert(forall|p: Seq<char>| way_to(p, true) == #[trigger] prefixes(parent_of(p)));
            }
        }
    }
}

/// The paths of files.
pub open spec fn file_paths(paths: Seq<Seq<char>>) -> Seq<Seq<char>> {
    paths.map_values(|p: Seq<char>| rel_path(p)->Ok_0)
}

impl StreamStageView {
    /// What is left to ask for, if nothing is wrong: the files as they came, and, once these
    /// are known, the directories that they stand in.
    pub open spec fn rest(
        self,
        base_rev: u64,
        kinds: spec_fn(Seq<char>, u64) -> NodeKind,
    ) -> Seq<Seq<char>> {
        match self {
            StreamStageView::Files { plan, paths, i } => file_paths(paths.skip(i)) + (
            match files_taken(plan, paths, i, base_rev, kinds) {
                Ok(q) => dir_paths(in_order(q.needed_dirs())),
                Err(_) => Seq::empty(),
            }),
            StreamStageView::Dirs { needed, i, .. } => dir_paths(needed.skip(i)),
        }
    }

    /// What a commit that waits at this stage asks for until it ends, where `kinds` says
    /// what stands in the repository.
    pub open spec fn questions(
        self,
        base_rev: u64,
        enc: Encoding,
        kinds: spec_fn(Seq<char>, u64) -> NodeKind,
    ) -> Seq<Seq<char>>
        decreases self.part(), self.left(),
        via StreamStageView::questions_end
    {
        match self.asks() {
            None => Seq::empty(),
            Some(q) => match self.next(base_rev, enc, kinds(q, base_rev)) {
                Ok(StreamNextView::Asks(t)) => seq![q] + t.questions(base_rev, enc, kinds),
                _ => seq![q],
            },
        }
    }

    #[via_fn]
    proof fn questions_end(
        self,
        base_rev: u64,
        enc: Encoding,
        kinds: spec_fn(Seq<char>, u64) -> NodeKind,
    ) {
        if let Some(q) = self.asks() {
            stream_answers_come_nearer(self, base_rev, enc, kinds(q, base_rev));
        }
    }

    /// Where a commit that waits at this stage stands after `n` answers.
    pub open spec fn after_answers(
        self,
        n: nat,
        base_rev: u64,
        enc: Encoding,
        kinds: spec_fn(Seq<char>, u64) -> NodeKind,
    ) -> Result<StreamNextView, ErrorView>
        decreases n,
    {
        if n == 0 {
            Ok(StreamNextView::Asks(self))
        } else {
            match self.asks() {
                None => Ok(StreamNextView::Asks(self)),
                Some(q) => match self.next(base_rev, enc, kinds(q, base_rev)) {
                    Ok(StreamNextView::Asks(t)) => t.after_answers(
                        (n - 1) as nat,
                        base_rev,
                        enc,
                        kinds,
                    ),
                    r => r,
                },
            }
        }
    }
}

/// What a streamed commit comes to, as where it stands.
pub open spec fn stream_ended(r: Result<StreamView, ErrorView>) -> Result<
    StreamNextView,
    ErrorView,
> {
    match r {
        Ok(v) => Ok(StreamNextView::Send(v)),
        Err(e) => Err(e),
    }
}

proof fn lemma_stream_settled_outcome(
    s: StreamStageView,
    base_rev: u64,
    enc: Encoding,
    kinds: spec_fn(Seq<char>, u64) -> NodeKind,
)
    ensures
        match s.settled(base_rev, enc) {
            Ok(StreamNextView::Asks(t)) => t.outcome(base_rev, enc, kinds) == s.outcome(
                base_rev,
                enc,
                kinds,
            ),
            Ok(StreamNextView::Send(v)) => s.outcome(base_rev, enc, kinds) == Ok::<
                StreamView,
                ErrorView,
            >(v),
            Err(e) => s.outcome(base_rev, enc, kinds) == Err::<StreamView, ErrorView>(e),
        },
    decreases s.part(),
{
    reveal(stream_from_files);
    reveal(stream_from_dirs);
    if let StreamStageView::Files { plan, .. } = s {
        lemma_stream_settled_outcome(
            StreamStageView::Dirs { plan, needed: in_order(plan.needed_dirs()), i: 0 },
            base_rev,
            enc,
            kinds,
        );
    }
}

proof fn lemma_stream_answered_outcome(
    s: StreamStageView,
    base_rev: u64,
    enc: Encoding,
    kinds: spec_fn(Seq<char>, u64) -> NodeKind,
)
    requires
        s.asks() is Some,
    ensures
        match s.answered(kinds(s.asks()->0, base_rev)) {
            Ok(t) => t.outcome(base_rev, enc, kinds) == s.outcome(base_rev, enc, kinds),
            Err(e) => s.outcome(base_rev, enc, kinds) == Err::<StreamView, ErrorView>(e),
        },
{
    reveal(stream_from_files);
    reveal(stream_from_dirs);
}

/// The questions of a streamed commit come to an end: after as many answers as there are
/// questions the commit is sent, or it is refused, as what stands in the repository says;
/// before that, each step asks the next question.
pub proof fn the_questions_of_a_streamed_commit_end(
    s: StreamStageView,
    base_rev: u64,
    enc: Encoding,
    kinds: spec_fn(Seq<char>, u64) -> NodeKind,
)
    requires
        s.asks() is Some,
    ensures
        s.after_answers(s.questions(base_rev, enc, kinds).len(), base_rev, enc, kinds)
            == stream_ended(s.outcome(base_rev, enc, kinds)),
        forall|n: nat|
            n < s.questions(base_rev, enc, kinds).len() ==> (#[trigger] s.after_answers(
                n,
                base_rev,
                enc,
                kinds,
            ) matches Ok(StreamNextView::Asks(t)) && t.asks() == Some(
                s.questions(base_rev, enc, kinds)[n as int],
            )),
    decreases s.part(), s.left(),
{
    let q = s.asks()->0;
    let kind = kinds(q, base_rev);
    let all = s.questions(base_rev, enc, kinds);
    stream_answers_come_nearer(s, base_rev, enc, kind);
    lemma_stream_answered_outcome(s, base_rev, enc, kinds);
    if let Ok(t) = s.answered(kind) {
        lemma_stream_settled_outcome(t, base_rev, enc, kinds);
    }
    match s.next(base_rev, enc, kind) {
        Ok(StreamNextView::Asks(t)) => {
            the_questions_of_a_streamed_commit_end(t, base_rev, enc, kinds);
            let more = t.questions(base_rev, enc, kinds);
            assert(all.len() == more.len() + 1);
            assert forall|n: nat| n < all.len() implies (#[trigger] s.after_answers(
                n,
                base_rev,
                enc,
                kinds,
            ) matches Ok(StreamNextView::Asks(u)) && u.asks() == Some(all[n as int])) by {
                if n > 0 {
                    let m = (n - 1) as nat;
                    let x = t.after_answers(m, base_rev, enc, kinds);
                    assert(s.after_answers(n, base_rev, enc, kinds) == x);
                    assert(all[n as int] == more[m as int]);
                }
            }
        },
        _ => {
            assert(s.after_answers(1, base_rev, enc, kinds) == s.next(base_rev, enc, kind));
        },
    }
}

proof fn lemma_stream_rest_asks(
    s: StreamStageView,
    base_rev: u64,
    kinds: spec_fn(Seq<char>, u64) -> NodeKind,
)
    requires
        s.asks() is Some,
    ensures
        ({
            let q = s.asks()->0;
            &&& s.rest(base_rev, kinds).len() > 0
            &&& s.rest(base_rev, kinds)[0] == q
            &&& s.answered(kinds(q, base_rev)) matches Ok(t) ==> s.rest(base_rev, kinds) == seq![q]
                + t.rest(base_rev, kinds)
        }),
{
    let q = s.asks()->0;
    match s {
        StreamStageView::Files { plan, paths, i } => {
            assert(paths.skip(i) =~= seq![paths[i]] + paths.skip(i + 1));
            assert(file_paths(paths.skip(i)) =~= seq![q] + file_paths(paths.skip(i + 1)));
            if let Ok(t) = s.answered(kinds(q, base_rev)) {
                assert(s.rest(base_rev, kinds) =~= seq![q] + t.rest(base_rev, kinds));
            }
        },
        StreamStageView::Dirs { plan, needed, i } => {
            assert(needed.skip(i) =~= seq![needed[i]] + needed.skip(i + 1));
            assert(dir_paths(needed.skip(i)) =~= seq![q] + dir_paths(needed.skip(i + 1)));
        },
    }
}

/// No more has been asked for than there is.
spec fn stream_in_range(s: StreamStageView) -> bool {
    match s {
        StreamStageView::Files { paths, i, .. } => 0 <= i <= paths.len(),
        StreamStageView::Dirs { needed, i, .. } => 0 <= i <= needed.len(),
    }
}

proof fn lemma_stream_rest_settled(
    s: StreamStageView,
    base_rev: u64,
    enc: Encoding,
    kinds: spec_fn(Seq<char>, u64) -> NodeKind,
)
    requires
        stream_in_range(s),
    ensures
        s.settled(base_rev, enc) matches Ok(StreamNextView::Asks(t)) ==> t.rest(base_rev, kinds)
            == s.rest(base_rev, kinds) && stream_in_range(t),
        s.settled(base_rev, enc) is Ok && s.settled(base_rev, enc)->Ok_0 is Send ==> s.rest(
            base_rev,
            kinds,
        ).len() == 0,
    decreases s.part(),
{
    if let StreamStageView::Files { plan, paths, i } = s {
        let t = StreamStageView::Dirs { plan, needed: in_order(plan.needed_dirs()), i: 0 };
        lemma_stream_rest_settled(t, base_rev, enc, kinds);
        if i == paths.len() {
            let needed = in_order(plan.needed_dirs());
            assert(needed.skip(0) =~= needed);
            assert(s.rest(base_rev, kinds) =~= t.rest(base_rev, kinds));
        }
    }
}

proof fn lemma_stream_questions(
    s: StreamStageView,
    base_rev: u64,
    enc: Encoding,
    kinds: spec_fn(Seq<char>, u64) -> NodeKind,
)
    requires
        s.asks() is Some,
        stream_in_range(s),
    ensures
        s.questions(base_rev, enc, kinds).is_prefix_of(s.rest(base_rev, kinds)),
        s.outcome(base_rev, enc, kinds) is Ok ==> s.questions(base_rev, enc, kinds) == s.rest(
            base_rev,
            kinds,
        ),
    decreases s.part(), s.left(),
{
    let q = s.asks()->0;
    let kind = kinds(q, base_rev);
    let all = s.questions(base_rev, enc, kinds);
    let rest = s.rest(base_rev, kinds);
    stream_answers_come_nearer(s, base_rev, enc, kind);
    lemma_stream_answered_outcome(s, base_rev, enc, kinds);
    lemma_stream_rest_asks(s, base_rev, kinds);
    if let Ok(t) = s.answered(kind) {
        lemma_stream_settled_outcome(t, base_rev, enc, kinds);
        lemma_stream_rest_settled(t, base_rev, enc, kinds);
    }
    match s.next(base_rev, enc, kind) {
        Ok(StreamNextView::Asks(t)) => {
            lemma_stream_questions(t, base_rev, enc, kinds);
            let more = t.questions(base_rev, enc, kinds);
            let left = t.rest(base_rev, kinds);
            assert(rest =~= seq![q] + left);
            assert(all == seq![q] + more);
            assert forall|k: int| 0 <= k < all.len() implies all[k] == rest[k] by {
                if k > 0 {
                    assert(all[k] == more[k - 1]);
                    assert(rest[k] == left[k - 1]);
                }
            }
            assert(all =~= rest.subrange(0, all.len() as int));
        },
        _ => {
            assert(all =~= rest.subrange(0, 1));
        },
    }
}

/// What a streamed commit touches is asked for once: where the commit can be sent, the
/// questions are those for each file, as the files came, and then for each directory that
/// is entered, none of them twice. Where the commit is refused, they break off.
pub proof fn everything_streamed_is_asked_for_once(
    b: StreamBuilderView,
    svndiff1: bool,
    svndiff2: bool,
    base_rev: u64,
    kinds: spec_fn(Seq<char>, u64) -> NodeKind,
)
    ensures
        match stream_started(b, svndiff1, svndiff2, base_rev) {
            Err(e) => streamed_at(b, svndiff1, svndiff2, base_rev, kinds) == Err::<
                StreamView,
                ErrorView,
            >(e),
            Ok((enc, StreamNextView::Send(v))) => streamed_at(
                b,
                svndiff1,
                svndiff2,
                base_rev,
                kinds,
            ) == Ok::<StreamView, ErrorView>(v),
            Ok((enc, StreamNextView::Asks(s))) => {
                let first = StreamStageView::Files { plan: no_files(), paths: b.paths, i: 0 };
                let all = s.questions(base_rev, enc, kinds);
                &&& s.asks() is Some
                &&& s.outcome(base_rev, enc, kinds) == streamed_at(
                    b,
                    svndiff1,
                    svndiff2,
                    base_rev,
                    kinds,
                )
                &&& all.is_prefix_of(first.rest(base_rev, kinds))
                &&& streamed_at(b, svndiff1, svndiff2, base_rev, kinds) is Ok ==> (files_taken(
                    no_files(),
                    b.paths,
                    0,
                    base_rev,
                    kinds,
                ) matches Ok(p) && all == file_paths(b.paths) + dir_paths(
                    in_order(p.needed_dirs()),
                ) && texts_ascend(in_order(p.needed_dirs())))
            },
        },
{
    if let Ok(version) = version_for(b.svndiff, svndiff1, svndiff2) {
        let enc = Encoding { version, level: b.zlib_level, window_size: b.window() };
        let first = StreamStageView::Files { plan: no_files(), paths: b.paths, i: 0 };
        crate::stream_driver::lemma_settled(first, base_rev, enc);
        lemma_stream_settled_outcome(first, base_rev, enc, kinds);
        lemma_stream_rest_settled(first, base_rev, enc, kinds);
        if let Ok((_, StreamNextView::Asks(s))) = stream_started(b, svndiff1, svndiff2, base_rev) {
            lemma_stream_questions(s, base_rev, enc, kinds);
            if let Ok(_) = streamed_at(b, svndiff1, svndiff2, base_rev, kinds) {
                reveal(stream_from_files);
                let p = files_taken(no_files(), b.paths, 0, base_rev, kinds)->Ok_0;
                let paths = Seq::new(p.tasks.len(), |k: int| p.tasks[k].path());
                vstd::seq_lib::seq_to_set_is_finite(paths);
                lemma_ways_finite(paths.to_set(), true);
                assert(p.needed_dirs() =~= ways(paths.to_set(), true)) by {
                    assert forall|d: Seq<char>| p.needs_dir(d) implies ways(
                        paths.to_set(),
                        true,
                    ).contains(d) by {
                        let k = choose|k: int|
                            0 <= k < p.tasks.len() && prefixes(
                                parent_of(#[trigger] p.tasks[k].path()),
                            ).contains(d);
                        assert(paths[k] == p.tasks[k].path());
                        assert(paths.to_set().contains(paths[k]));
                    }
                    assert forall|d: Seq<char>| ways(paths.to_set(), true).contains(
                        d,
                    ) implies p.needs_dir(d) by {
                        let x = choose|x: Seq<char>| #[trigger]
                            paths.to_set().contains(x) && way_to(x, true).contains(d);
                        let k = choose|k: int| 0 <= k < paths.len() && paths[k] == x;
                        assert(p.tasks[k].path() == x);
                    }
                }
                lemma_finite_in_order(p.needed_dirs());
                assert(b.paths.skip(0) =~= b.paths);
            }
        }
    }
}

} // verus!
