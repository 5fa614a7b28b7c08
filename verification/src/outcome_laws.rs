//! What is handed out is what was found: a value where there is one, and otherwise the error.

use vstd::prelude::*;

use crate::answers::{kind_is, number_is, opt_bytes_is, opt_number_is};
use crate::client::{walk_is, ListWalk};
use crate::commit::{
    changed_to, changes_are, encoding_is, node_is, version_is, ChangesView, CommitChanges,
};
use crate::commit_drive::{commands_are, Encoding};
use crate::commit_plan::{plan_is, planned_to, CommitPlan, PlanView};
use crate::commit_send::{batch_took, BatchView};
use crate::commit_stream::{streamed_to, text_moved, StreamPlanView, TextView};
use crate::edit::command_params;
use crate::editor::{EditView, EditorCommand};
use crate::error::{result_view, ErrorView, SvnError};
use crate::fs_guard::{decided, way_is};
use crate::keymap::in_order;
use crate::parse::props_result_is;
use crate::path::rel_dir_path;
use crate::pool::{new_config_is, SessionPoolConfig};
use crate::raw::{ItemView, SvnItem};
use crate::replies::mergeinfo_is;
use crate::requests::paths_are;
use crate::results::{catalog_view, MergeInfoCatalog};
use crate::streams::{
    entry_is, file_revs_took, many_is, many_took, text_taken, text_took, took, FileRevsView,
    ManyStep,
};
use crate::svndiff::{bytes_result_is, SvndiffVersion};
use crate::textdelta::unit_result_is;
use crate::types::{props_view, NodeKind, PropertyList};
use crate::wire::{outcome_is, Parse, ReadOutcome};

verus! {

/// A result says what a value does: it is a value where there is one, and the same error
/// where there is none.
pub open spec fn says_result<T, V>(
    r: Result<T, SvnError>,
    v: Result<V, ErrorView>,
    same: spec_fn(T, V) -> bool,
) -> bool {
    match v {
        Ok(y) => r matches Ok(x) && same(x, y),
        Err(e) => r matches Err(d) && d.deep_view() == e,
    }
}

/// A result hands out a value as it is, and an error as it is.
pub proof fn a_result_says_what_it_holds<T: DeepView>(
    r: Result<T, SvnError>,
    v: Result<T::V, ErrorView>,
)
    ensures
        result_view(r) == v <==> says_result(r, v, |x: T, y: T::V| x.deep_view() == y),
{
}

/// A number, a kind, bytes and texts are handed out as they are found.
pub proof fn plain_values_are_handed_out(
    n: Result<u64, SvnError>,
    vn: Result<u64, ErrorView>,
    on: Result<Option<u64>, SvnError>,
    von: Result<Option<u64>, ErrorView>,
    k: Result<NodeKind, SvnError>,
    vk: Result<NodeKind, ErrorView>,
    b: Result<Vec<u8>, SvnError>,
    vb: Result<Seq<u8>, ErrorView>,
    u: Result<(), SvnError>,
    vu: Result<(), ErrorView>,
    t: Result<Vec<String>, SvnError>,
    vt: Result<Seq<Seq<char>>, ErrorView>,
)
    ensures
        number_is(n, vn) ==> says_result(n, vn, |x: u64, y: u64| x == y),
        decided(n, vn) ==> says_result(n, vn, |x: u64, y: u64| x == y),
        opt_number_is(on, von) ==> says_result(on, von, |x: Option<u64>, y: Option<u64>| x == y),
        kind_is(k, vk) ==> says_result(k, vk, |x: NodeKind, y: NodeKind| x == y),
        bytes_result_is(b, vb) ==> says_result(b, vb, |x: Vec<u8>, y: Seq<u8>| x@ == y),
        unit_result_is(u, vu) ==> says_result(u, vu, |x: (), y: ()| true),
        way_is(t, vt) ==> says_result(
            t,
            vt,
            |x: Vec<String>, y: Seq<Seq<char>>| x.deep_view() == y,
        ),
        paths_are(t, vt) ==> says_result(
            t,
            vt,
            |x: Vec<String>, y: Seq<Seq<char>>| x.deep_view() == y,
        ),
{
}

/// Bytes that may be missing are handed out as they are found.
pub proof fn bytes_that_may_be_missing_are_handed_out(
    b: Result<Option<Vec<u8>>, SvnError>,
    v: Result<Option<Seq<u8>>, ErrorView>,
)
    ensures
        opt_bytes_is(b, v) ==> match v {
            Ok(Some(y)) => b matches Ok(Some(x)) && x@ == y,
            Ok(None) => b matches Ok(None),
            Err(e) => b matches Err(d) && d.deep_view() == e,
        },
{
}

/// Properties and merge information are handed out as they are found.
pub proof fn maps_are_handed_out(
    p: Result<PropertyList, SvnError>,
    vp: Result<Map<Seq<char>, Seq<u8>>, ErrorView>,
    m: Result<MergeInfoCatalog, SvnError>,
    vm: Result<Map<Seq<char>, Seq<char>>, ErrorView>,
)
    ensures
        props_result_is(p, vp) ==> says_result(
            p,
            vp,
            |x: PropertyList, y: Map<Seq<char>, Seq<u8>>| x.wf() && props_view(x) == y,
        ),
        mergeinfo_is(m, vm) ==> says_result(
            m,
            vm,
            |x: MergeInfoCatalog, y: Map<Seq<char>, Seq<char>>| x.wf() && catalog_view(x) == y,
        ),
{
}

/// What properties say is what stands under their names.
pub proof fn properties_say_what_they_hold(p: PropertyList, name: Seq<char>)
    ensures
        props_view(p).dom().contains(name) <==> p@.dom().contains(name),
        p@.dom().contains(name) ==> props_view(p)[name] == p@[name]@,
{
}

/// Entries are gathered as they are found: one more, or the end of them; an error leaves
/// what was gathered.
pub proof fn gathering_goes_on_as_found<V>(
    r: Result<bool, SvnError>,
    before: Seq<V>,
    after: Seq<V>,
    v: Result<Option<Seq<V>>, ErrorView>,
)
    ensures
        took(r, before, after, v) ==> match v {
            Ok(Some(x)) => r matches Ok(end) && !end && after == x,
            Ok(None) => r matches Ok(end) && end && after == before,
            Err(e) => r matches Err(d) && d.deep_view() == e && after == before,
        },
{
}

/// Revisions of a file are gathered as they are found.
pub proof fn file_revisions_are_gathered_as_found(
    r: Result<bool, SvnError>,
    before: FileRevsView,
    after: FileRevsView,
    v: Result<Option<FileRevsView>, ErrorView>,
)
    ensures
        file_revs_took(r, before, after, v) ==> match v {
            Ok(Some(x)) => r matches Ok(end) && !end && after == x,
            Ok(None) => r matches Ok(end) && end && after == before,
            Err(e) => r matches Err(d) && d.deep_view() == e && after == before,
        },
{
}

/// Outcomes are gathered as they are found.
pub proof fn outcomes_are_gathered_as_found<V>(
    r: Result<ManyStep, SvnError>,
    before: Seq<Result<V, ErrorView>>,
    after: Seq<Result<V, ErrorView>>,
    v: Result<(Seq<Result<V, ErrorView>>, ManyStep), ErrorView>,
)
    ensures
        many_took(r, before, after, v) ==> match v {
            Ok((x, step)) => r matches Ok(s) && s == step && after == x,
            Err(e) => r matches Err(d) && d.deep_view() == e && after == before,
        },
{
}

/// The outcomes that are handed out are those that were gathered, one for one.
pub proof fn outcomes_are_handed_out<T: DeepView>(
    r: Result<Vec<Result<T, SvnError>>, SvnError>,
    v: Result<Seq<Result<T::V, ErrorView>>, ErrorView>,
    k: int,
)
    ensures
        many_is(r, v) ==> match v {
            Ok(y) => r matches Ok(x) && x@.len() == y.len() && (0 <= k < y.len() ==> says_result(
                x@[k],
                y[k],
                |a: T, b: T::V| a.deep_view() == b,
            )),
            Err(e) => r matches Err(d) && d.deep_view() == e,
        },
{
}

/// A part of a file's text is handed out as it comes, and what was written counts it.
pub proof fn parts_of_a_text_are_handed_out(
    r: Result<Option<Vec<u8>>, SvnError>,
    before: (u64, u64),
    after: (u64, u64),
    item: ItemView,
)
    ensures
        text_took(r, before, after, item) ==> after.1 == before.1 && match text_taken(
            before.0,
            before.1,
            item,
        ) {
            Ok(Some((n, b))) => r matches Ok(Some(x)) && x@ == b && after.0 == n,
            Ok(None) => r matches Ok(None) && after.0 == before.0,
            Err(e) => r matches Err(d) && d.deep_view() == e && after.0 == before.0,
        },
{
}

/// An entry is handed out as it comes.
pub proof fn an_entry_is_handed_out(
    r: Result<Option<&Vec<SvnItem>>, SvnError>,
    v: Result<Option<Seq<ItemView>>, ErrorView>,
)
    ensures
        entry_is(r, v) ==> match v {
            Ok(Some(y)) => r matches Ok(Some(x)) && x.deep_view() == y,
            Ok(None) => r matches Ok(None),
            Err(e) => r matches Err(d) && d.deep_view() == e,
        },
{
}

/// What is read of the bytes of a connection is what stands in them.
pub proof fn an_item_is_handed_out(r: ReadOutcome, p: Parse<ItemView>)
    ensures
        outcome_is(r, p) ==> match r {
            ReadOutcome::NeedMore => p is More,
            ReadOutcome::Item(x, n) => p == Parse::Done(x.deep_view(), n as int),
            ReadOutcome::Failed(e) => p matches Parse::Fail(m) && e.deep_view()
                == ErrorView::Protocol(m),
        },
{
}

/// A commit takes a change, or a copy that is resolved, as it is; an error leaves what there
/// was.
pub proof fn changes_are_taken(
    r: Result<(), SvnError>,
    before: ChangesView,
    after: ChangesView,
    v: Result<ChangesView, ErrorView>,
    all: Result<CommitChanges, SvnError>,
    node: Result<(String, u64), SvnError>,
    asked: Result<(Seq<char>, u64), ErrorView>,
)
    ensures
        changed_to(r, before, after, v) ==> match v {
            Ok(x) => r is Ok && after == x,
            Err(e) => r matches Err(d) && d.deep_view() == e && after == before,
        },
        changes_are(all, v) ==> says_result(all, v, |x: CommitChanges, y: ChangesView| x@ == y),
        node_is(node, asked) ==> says_result(
            node,
            asked,
            |x: (String, u64), y: (Seq<char>, u64)| x.0@ == y.0 && x.1 == y.1,
        ),
{
}

/// A plan takes an answer as it is; an error leaves what there was. It begins with the
/// changes and nothing else, and not at all if something that is deleted is changed.
pub proof fn plans_take_answers(
    r: Result<(), SvnError>,
    before: PlanView,
    after: PlanView,
    v: Result<PlanView, ErrorView>,
    plan: Result<CommitPlan, SvnError>,
    changes: ChangesView,
)
    ensures
        planned_to(r, before, after, v) ==> match v {
            Ok(x) => r is Ok && after == x,
            Err(e) => r matches Err(d) && d.deep_view() == e && after == before,
        },
        plan_is(plan, changes) ==> match changes.deletes_checked(
            in_order(changes.deletes).len() as int,
        ) {
            Ok(_) => plan matches Ok(p) && p@.changes == changes && p@.plans.dom().len() == 0
                && p@.exists.dom().len() == 0,
            Err(e) => plan matches Err(d) && d.deep_view() == e,
        },
{
    assert(Map::<Seq<char>, crate::commit_drive::DirPlanView>::empty().dom().len() == 0);
    assert(Map::<Seq<char>, bool>::empty().dom().len() == 0);
}

/// A plan of files whose texts are sent later takes an answer as it is.
pub proof fn streamed_plans_take_answers(
    r: Result<(), SvnError>,
    before: StreamPlanView,
    after: StreamPlanView,
    v: Result<StreamPlanView, ErrorView>,
)
    ensures
        streamed_to(r, before, after, v) ==> match v {
            Ok(x) => r is Ok && after == x,
            Err(e) => r matches Err(d) && d.deep_view() == e && after == before,
        },
{
}

/// A part of a text that is sent is sent in full: the commands carry the chunks that are
/// new, in order, for the file.
pub proof fn parts_are_sent_in_full(
    r: Result<Vec<EditorCommand>, SvnError>,
    before: TextView,
    after: TextView,
    v: Result<TextView, ErrorView>,
    k: int,
)
    ensures
        text_moved(r, before, after, v) ==> match v {
            Ok(x) => r matches Ok(c) && after == x && (x.chunks.len() >= before.chunks.len()
                ==> c.deep_view().len() == x.chunks.len() - before.chunks.len() && (0 <= k
                < c.deep_view().len() ==> c.deep_view()[k] == (EditView::TextDeltaChunk {
                file_token: before.token,
                chunk: x.chunks[before.chunks.len() + k],
            }))),
            Err(e) => r matches Err(d) && d.deep_view() == e && after == before,
        },
{
}

/// A command goes into a batch, or is refused; a refused one leaves the batch.
pub proof fn a_batch_takes_a_command(
    r: Result<Vec<u8>, SvnError>,
    before: BatchView,
    after: BatchView,
    c: EditView,
)
    ensures
        batch_took(r, before, after, c) ==> match command_params(c) {
            Ok(_) => r matches Ok(sent) && sent@ == before.with(c).0 && after == before.with(c).1,
            Err(e) => r matches Err(d) && d.deep_view() == e && after == before,
        },
{
}

/// The commands of a commit, and how its texts are encoded, are handed out as they are found.
pub proof fn commands_are_handed_out(
    c: Result<Vec<EditorCommand>, SvnError>,
    vc: Result<Seq<EditView>, ErrorView>,
    x: Result<SvndiffVersion, SvnError>,
    vx: Result<SvndiffVersion, ErrorView>,
    enc: Result<Encoding, SvnError>,
    level: u32,
    window_size: usize,
)
    ensures
        commands_are(c, vc) ==> says_result(
            c,
            vc,
            |x: Vec<EditorCommand>, y: Seq<EditView>| x.deep_view() == y,
        ),
        version_is(x, vx) ==> says_result(x, vx, |a: SvndiffVersion, b: SvndiffVersion| a == b),
        encoding_is(enc, vx, level, window_size) ==> says_result(
            enc,
            vx,
            |a: Encoding, b: SvndiffVersion|
                a.version == b && a.level == level && a.window_size == window_size,
        ),
{
}

/// A walk begins at its path, with nothing gathered; a pool has at least one session, and
/// nothing else is settled for it.
pub proof fn walks_and_pools_begin_as_asked(
    w: Result<ListWalk, SvnError>,
    path: Seq<char>,
    c: Result<SessionPoolConfig, SvnError>,
    max_sessions: usize,
)
    ensures
        walk_is(w, path) ==> match rel_dir_path(path) {
            Ok(p) => w matches Ok(x) && x@.stack == seq![p] && x@.out.len() == 0,
            Err(e) => w matches Err(d) && d.deep_view() == e,
        },
        new_config_is(c, max_sessions) ==> (if max_sessions == 0 {
            c matches Err(d) && d.deep_view() is Protocol
        } else {
            c matches Ok(x) && x@.max_sessions == max_sessions && x@.acquire_timeout is None
                && x@.idle_timeout is None && x@.prewarm_sessions == 0 && x@.health_check is Never
        }),
{
}

/// A part of a text that is sent goes behind those before it. A text that ends without any
/// part is sent as one empty part, so that the server gets a delta for it too.
pub proof fn parts_go_one_behind_the_other(t: TextView, data: Seq<u8>)
    ensures
        t.with_part(data) matches Ok(u) ==> u.token == t.token && u.enc == t.enc && u.parts
            == t.parts.push(data) && u.chunks.len() >= t.chunks.len() && u.chunks.take(
            t.chunks.len() as int,
        ) == t.chunks,
        t.parts.len() > 0 ==> t.ended() == Ok::<TextView, ErrorView>(t),
        t.parts.len() == 0 ==> (t.ended() matches Ok(u) ==> u.parts.len() == 1
            && u.parts[0].len() == 0 && u.chunks.len() > t.chunks.len()),
        t.enc.level > 9 ==> t.with_part(data) is Err,
{
    if let Ok(u) = t.with_part(data) {
        assert(u.chunks.take(t.chunks.len() as int) =~= t.chunks);
    }
}

} // verus!
