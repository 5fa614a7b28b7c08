//! What is not in the form of the protocol is refused, and nothing is made up for it.

use vstd::prelude::*;
use vstd::utf8::*;

use crate::answers::{
    dir_props, iprops_answer, lock_on_path, locks_below, locks_from, mergeinfo_answer, node_kind,
    number_answer, rev_prop_value, rev_props, taken_lock,
};
use crate::conn::{repos_info, response_of, ResponseView};
use crate::commit_drive::under;
use crate::edit::{drive_step_of, lemma_names_differ, nth_tuple_bytes, parse_event, DriveStepView};
use crate::error::ErrorView;
use crate::event_laws::lemma_revprops_differs;
use crate::history::{changed_from, changed_path, file_rev, log_entry, prop_deltas_from};
use crate::parse::{proplist, props_from};
use crate::raw::ItemView;
use crate::replies::{
    commit_info, dir_listing, entries_from, entry_fields, file_meta, iproplist, iprops_from,
    list_dirent, location_entry, location_segment, lockdesc, mergeinfo, mergeinfo_from, no_slash,
    stat_entry,
};
use crate::results::{
    ChangedPathView, DirEntryView, InheritedPropsView, LockDescView, PropDeltaView,
};
use crate::server::{says_bytes, says_text};
use crate::streams::{entry_of, locked, text_taken, unlocked};

verus! {

/// Something is refused as a breach of the protocol.
pub open spec fn refused<T>(r: Result<T, ErrorView>) -> bool {
    r matches Err(e) && e is Protocol
}

/// An item is a text.
pub open spec fn is_text(i: ItemView) -> bool {
    i matches ItemView::String(b) && valid_utf8(b)
}

/// A text stands at this place.
pub open spec fn text_at(v: Seq<ItemView>, i: int) -> bool {
    0 <= i < v.len() && is_text(v[i])
}

/// A number stands at this place.
pub open spec fn number_at(v: Seq<ItemView>, i: int) -> bool {
    0 <= i < v.len() && v[i] is Number
}

/// A word stands at this place.
pub open spec fn word_at(v: Seq<ItemView>, i: int) -> bool {
    0 <= i < v.len() && v[i] is Word
}

/// A list stands at this place.
pub open spec fn list_at(v: Seq<ItemView>, i: int) -> bool {
    0 <= i < v.len() && v[i] is List
}

/// Bytes stand at this place.
pub open spec fn bytes_at(v: Seq<ItemView>, i: int) -> bool {
    0 <= i < v.len() && v[i] is String
}

/// An item is a property: a name and a value.
pub open spec fn is_prop(i: ItemView) -> bool {
    i matches ItemView::List(v) && text_at(v, 0) && bytes_at(v, 1)
}

/// An item lists properties.
pub open spec fn lists_props(i: ItemView) -> bool {
    i matches ItemView::List(v) && forall|k: int| 0 <= k < v.len() ==> is_prop(#[trigger] v[k])
}

proof fn lemma_props(v: Seq<ItemView>, i: int, m: Map<Seq<char>, Seq<u8>>)
    requires
        0 <= i <= v.len(),
    ensures
        props_from(v, i, m) is Ok <==> forall|k: int| i <= k < v.len() ==> is_prop(#[trigger] v[k]),
        props_from(v, i, m) is Err ==> refused(props_from(v, i, m)),
    decreases v.len() - i,
{
    if i < v.len() && is_prop(v[i]) {
        let pair = v[i]->List_0;
        let name = decode_utf8(pair[0]->String_0);
        lemma_props(v, i + 1, m.insert(name, pair[1]->String_0));
    }
}

/// Properties are read exactly where each of them is a name and a value.
pub proof fn properties_must_be_names_and_values(i: ItemView)
    ensures
        proplist(i) is Ok <==> lists_props(i),
        proplist(i) is Err ==> refused(proplist(i)),
{
    if let ItemView::List(v) = i {
        lemma_props(v, 0, Map::empty());
    }
}

/// A lock is read exactly where it has a path, a token, an owner and a date.
pub open spec fn is_lock(i: ItemView) -> bool {
    i matches ItemView::List(v) && text_at(v, 0) && text_at(v, 1) && text_at(v, 2) && text_at(v, 4)
}

/// Locks, locations, segments, commits and entries are read exactly where they hold what
/// they must.
pub proof fn entries_must_hold_what_they_must(i: ItemView, v: Seq<ItemView>)
    ensures
        lockdesc(i) is Ok <==> is_lock(i),
        lockdesc(i) is Err ==> refused(lockdesc(i)),
        location_entry(v) is Ok <==> number_at(v, 0) && text_at(v, 1),
        location_entry(v) is Err ==> refused(location_entry(v)),
        location_segment(v) is Ok <==> number_at(v, 0) && number_at(v, 1),
        location_segment(v) is Err ==> refused(location_segment(v)),
        commit_info(i) is Ok <==> (i matches ItemView::List(x) && number_at(x, 0)),
        commit_info(i) is Err ==> refused(commit_info(i)),
        stat_entry(v) is Some <==> list_at(v, 0) && word_at(v[0]->List_0, 0),
        list_dirent(v) is Ok <==> text_at(v, 0),
        list_dirent(v) is Err ==> refused(list_dirent(v)),
        changed_path(v) is Ok <==> text_at(v, 0) && word_at(v, 1),
        changed_path(v) is Err ==> refused(changed_path(v)),
        repos_info(v) is Ok <==> text_at(v, 0),
        repos_info(v) is Err ==> refused(repos_info(v)),
{
}

/// An item is an entry of a directory: its name comes first.
pub open spec fn is_entry(i: ItemView) -> bool {
    i matches ItemView::List(v) && text_at(v, 0)
}

proof fn lemma_entries(
    dir: Seq<char>,
    v: Seq<ItemView>,
    i: int,
    before: Seq<DirEntryView>,
)
    requires
        0 <= i <= v.len(),
    ensures
        entries_from(dir, v, i, before) is Ok <==> forall|k: int|
            i <= k < v.len() ==> is_entry(#[trigger] v[k]),
        entries_from(dir, v, i, before) is Err ==> refused(entries_from(dir, v, i, before)),
        entries_from(dir, v, i, before) matches Ok(e) ==> e.len() == before.len() + v.len() - i,
    decreases v.len() - i,
{
    if i < v.len() && is_entry(v[i]) {
        let x = v[i]->List_0;
        let name = decode_utf8(x[0]->String_0);
        let e = entry_fields(name, under(dir, name), x);
        lemma_entries(dir, v, i + 1, before.push(e));
    }
}

/// A listing is read exactly where it has a revision and every entry has a name; there is
/// one entry for each that was sent.
pub proof fn a_listing_must_name_its_entries(dir: Seq<char>, v: Seq<ItemView>)
    ensures
        dir_listing(dir, v) is Ok <==> number_at(v, 0) && list_at(v, 2) && forall|k: int|
            0 <= k < v[2]->List_0.len() ==> is_entry(#[trigger] v[2]->List_0[k]),
        dir_listing(dir, v) is Err ==> refused(dir_listing(dir, v)),
        dir_listing(dir, v) matches Ok(l) ==> l.entries.len() == v[2]->List_0.len(),
{
    if list_at(v, 2) {
        lemma_entries(dir, v[2]->List_0, 0, Seq::empty());
    }
}

/// An item tells what is inherited: a path and properties.
pub open spec fn is_inherited(i: ItemView) -> bool {
    i matches ItemView::List(v) && text_at(v, 0) && v.len() > 1 && lists_props(v[1])
}

proof fn lemma_iprops(
    v: Seq<ItemView>,
    i: int,
    before: Seq<InheritedPropsView>,
)
    requires
        0 <= i <= v.len(),
    ensures
        iprops_from(v, i, before) is Ok <==> forall|k: int|
            i <= k < v.len() ==> is_inherited(#[trigger] v[k]),
        iprops_from(v, i, before) is Err ==> refused(iprops_from(v, i, before)),
    decreases v.len() - i,
{
    if i < v.len() {
        if let ItemView::List(x) = v[i] {
            if x.len() > 1 {
                properties_must_be_names_and_values(x[1]);
            }
            if is_inherited(v[i]) {
                let e = InheritedPropsView {
                    path: decode_utf8(x[0]->String_0),
                    props: proplist(x[1])->Ok_0,
                };
                lemma_iprops(v, i + 1, before.push(e));
            }
        }
    }
}

/// What a file inherits, and a file itself, are read exactly where they hold what they must.
pub proof fn a_file_must_have_a_revision_and_properties(i: ItemView, v: Seq<ItemView>)
    ensures
        iproplist(i) is Ok <==> (i matches ItemView::List(x) && forall|k: int|
            0 <= k < x.len() ==> is_inherited(#[trigger] x[k])),
        iproplist(i) is Err ==> refused(iproplist(i)),
        file_meta(v) is Ok <==> number_at(v, 1) && v.len() > 2 && lists_props(v[2]) && (list_at(
            v,
            3,
        ) ==> forall|k: int|
            0 <= k < v[3]->List_0.len() ==> is_inherited(#[trigger] v[3]->List_0[k])),
        file_meta(v) is Err ==> refused(file_meta(v)),
{
    if let ItemView::List(x) = i {
        lemma_iprops(x, 0, Seq::empty());
    }
    if v.len() > 2 {
        properties_must_be_names_and_values(v[2]);
    }
    if list_at(v, 3) {
        lemma_iprops(v[3]->List_0, 0, Seq::empty());
    }
}

/// An item is what was merged into a path.
pub open spec fn is_merged(i: ItemView) -> bool {
    i matches ItemView::List(v) && text_at(v, 0) && text_at(v, 1)
}

proof fn lemma_mergeinfo(v: Seq<ItemView>, i: int, before: Map<Seq<char>, Seq<char>>)
    requires
        0 <= i <= v.len(),
    ensures
        mergeinfo_from(v, i, before) is Ok <==> forall|k: int|
            i <= k < v.len() ==> is_merged(#[trigger] v[k]),
        mergeinfo_from(v, i, before) is Err ==> refused(mergeinfo_from(v, i, before)),
    decreases v.len() - i,
{
    if i < v.len() && is_merged(v[i]) {
        let x = v[i]->List_0;
        lemma_mergeinfo(
            v,
            i + 1,
            before.insert(
                no_slash(decode_utf8(x[0]->String_0)),
                decode_utf8(x[1]->String_0),
            ),
        );
    }
}

/// Merge information is read exactly where each path comes with what was merged into it.
pub proof fn merge_information_must_be_paths_and_texts(v: Seq<ItemView>)
    ensures
        mergeinfo(v) is Ok <==> list_at(v, 0) && forall|k: int|
            0 <= k < v[0]->List_0.len() ==> is_merged(#[trigger] v[0]->List_0[k]),
        mergeinfo(v) is Err ==> refused(mergeinfo(v)),
{
    if list_at(v, 0) {
        lemma_mergeinfo(v[0]->List_0, 0, Map::empty());
    }
}

/// An item is a path that was changed: the path, then what was done.
pub open spec fn is_changed(i: ItemView) -> bool {
    i matches ItemView::List(v) && text_at(v, 0) && word_at(v, 1)
}

proof fn lemma_changed(
    v: Seq<ItemView>,
    i: int,
    before: Seq<ChangedPathView>,
)
    requires
        0 <= i <= v.len(),
    ensures
        changed_from(v, i, before) is Ok <==> forall|k: int|
            i <= k < v.len() ==> is_changed(#[trigger] v[k]),
        changed_from(v, i, before) is Err ==> refused(changed_from(v, i, before)),
    decreases v.len() - i,
{
    if i < v.len() && is_changed(v[i]) {
        lemma_changed(v, i + 1, before.push(changed_path(v[i]->List_0)->Ok_0));
    }
}

/// An entry of the log is read exactly where it has changed paths and a revision, and its
/// properties are properties where they are wanted.
pub proof fn a_log_entry_must_have_a_revision(v: Seq<ItemView>, want_custom: bool)
    ensures
        log_entry(v, want_custom) is Ok <==> list_at(v, 0) && number_at(v, 1) && (forall|k: int|
            0 <= k < v[0]->List_0.len() ==> is_changed(#[trigger] v[0]->List_0[k])) && (want_custom
            && v.len() > 8 ==> lists_props(v[8])),
        log_entry(v, want_custom) is Err ==> refused(log_entry(v, want_custom)),
{
    if list_at(v, 0) {
        lemma_changed(v[0]->List_0, 0, Seq::empty());
    }
    if v.len() > 8 {
        properties_must_be_names_and_values(v[8]);
    }
}

proof fn lemma_prop_deltas(
    v: Seq<ItemView>,
    i: int,
    before: Seq<PropDeltaView>,
)
    requires
        0 <= i <= v.len(),
    ensures
        prop_deltas_from(v, i, before) is Ok <==> forall|k: int|
            i <= k < v.len() ==> is_entry(#[trigger] v[k]),
        prop_deltas_from(v, i, before) is Err ==> refused(prop_deltas_from(v, i, before)),
    decreases v.len() - i,
{
    if i < v.len() && is_entry(v[i]) {
        let x = v[i]->List_0;
        let d = PropDeltaView {
            name: decode_utf8(x[0]->String_0),
            value: nth_tuple_bytes(x, 1),
        };
        lemma_prop_deltas(v, i + 1, before.push(d));
    }
}

/// A revision of a file is read exactly where it has a path, a revision, the properties of
/// the revision, and changes of properties with names.
pub proof fn a_file_revision_must_have_a_path_and_a_revision(v: Seq<ItemView>)
    ensures
        file_rev(v) is Ok <==> text_at(v, 0) && number_at(v, 1) && v.len() > 2 && lists_props(v[2])
            && list_at(v, 3) && forall|k: int|
            0 <= k < v[3]->List_0.len() ==> is_entry(#[trigger] v[3]->List_0[k]),
        file_rev(v) is Err ==> refused(file_rev(v)),
{
    if v.len() > 2 {
        properties_must_be_names_and_values(v[2]);
    }
    if list_at(v, 3) {
        lemma_prop_deltas(v[3]->List_0, 0, Seq::empty());
    }
}

/// An answer is a success or a failure, and anything else is refused.
pub proof fn an_answer_is_a_success_or_a_failure(i: ItemView)
    ensures
        response_of(i) matches Ok(r) ==> (i matches ItemView::List(v) && v.len() > 0 && v[0]
            == ItemView::Word(
            if r.success {
                "success"@
            } else {
                "failure"@
            },
        )),
        response_of(i) is Err ==> refused(response_of(i)) && !(i matches ItemView::List(v)
            && v.len() > 0 && (v[0] == ItemView::Word("success"@) || v[0] == ItemView::Word(
            "failure"@,
        ))),
{
}

/// A success without the value that was asked for is refused, and no value is made up. That
/// there is no lock or no property is told by an empty tuple, or by nothing.
pub proof fn a_success_must_bring_its_value(
    r: ResponseView,
    dir: Seq<char>,
    ctx: Seq<char>,
    missing: Seq<char>,
)
    requires
        r.success,
    ensures
        !number_at(r.params, 0) ==> refused(number_answer(r, ctx, missing)),
        r.params.len() == 0 ==> refused(rev_props(r)),
        r.params.len() < 2 ==> refused(dir_props(r)),
        r.params.len() == 0 ==> refused(iprops_answer(r)),
        r.params.len() == 0 ==> refused(mergeinfo_answer(r)),
        r.params.len() == 0 ==> refused(locks_below(r)),
        r.params.len() == 0 ==> refused(taken_lock(r)),
        r.params.len() == 0 ==> refused(node_kind(r)),
        r.params.len() == 0 ==> lock_on_path(r) == Ok::<
            Option<LockDescView>,
            ErrorView,
        >(None),
        r.params.len() == 0 ==> rev_prop_value(r) == Ok::<Option<Seq<u8>>, ErrorView>(None),
        r.params.len() > 0 && !(r.params[0] is List) ==> refused(lock_on_path(r)) && refused(
            rev_prop_value(r),
        ),
        r.params.len() > 0 && !is_lock(r.params[0]) ==> refused(taken_lock(r)),
{
    if r.params.len() > 0 {
        entries_must_hold_what_they_must(r.params[0], r.params);
    }
}

proof fn lemma_locks(
    v: Seq<ItemView>,
    i: int,
    before: Seq<LockDescView>,
)
    requires
        0 <= i <= v.len(),
    ensures
        locks_from(v, i, before) is Ok <==> forall|k: int|
            i <= k < v.len() ==> is_lock(#[trigger] v[k]),
    decreases v.len() - i,
{
    if i < v.len() {
        entries_must_hold_what_they_must(v[i], v);
        if is_lock(v[i]) {
            lemma_locks(v, i + 1, before.push(lockdesc(v[i])->Ok_0));
        }
    }
}

/// Locks are read exactly where each of them is a lock.
pub proof fn all_locks_must_be_locks(r: ResponseView)
    requires
        r.success,
    ensures
        locks_below(r) is Ok <==> list_at(r.params, 0) && forall|k: int|
            0 <= k < r.params[0]->List_0.len() ==> is_lock(#[trigger] r.params[0]->List_0[k]),
{
    if list_at(r.params, 0) {
        lemma_locks(r.params[0]->List_0, 0, Seq::empty());
    }
}

/// Among entries that come one by one stand lists and nothing else, until a word says that
/// all have come; and a part of a text is a string.
pub proof fn entries_come_one_by_one(i: ItemView, what: Seq<char>, written: u64, max: u64)
    ensures
        entry_of(i, what) matches Ok(Some(v)) ==> i == ItemView::List(v),
        entry_of(i, what) == Ok::<Option<Seq<ItemView>>, ErrorView>(None) <==> i == ItemView::Word(
            "done"@,
        ),
        entry_of(i, what) is Err ==> refused(entry_of(i, what)) && !(i is List),
        !(i is String) ==> refused(text_taken(written, max, i)),
{
}

/// The outcome for one of many is a success or a failure, and a success says what it is of.
pub proof fn an_outcome_must_say_what_it_is_of(v: Seq<ItemView>)
    ensures
        v.len() == 0 ==> refused(locked(v)),
        v.len() > 0 && !is_lock(v[0]) ==> (locked(v) matches Ok(r) && refused(r)),
        !text_at(v, 0) ==> refused(unlocked(v)),
{
    if v.len() > 0 {
        entries_must_hold_what_they_must(v[0], v);
    }
}

/// A command of an editor holds what it must.
pub open spec fn holds_its_values(cmd: Seq<char>, p: Seq<ItemView>) -> bool {
    if cmd == "target-rev"@ {
        number_at(p, 0)
    } else if cmd == "open-root"@ {
        text_at(p, 1)
    } else if cmd == "delete-entry"@ {
        text_at(p, 0) && number_at(p, 1) && text_at(p, 2)
    } else if cmd == "add-dir"@ || cmd == "add-file"@ {
        text_at(p, 0) && text_at(p, 1) && text_at(p, 2)
    } else if cmd == "open-dir"@ || cmd == "open-file"@ {
        text_at(p, 0) && text_at(p, 1) && text_at(p, 2) && number_at(p, 3)
    } else if cmd == "change-dir-prop"@ || cmd == "change-file-prop"@ || cmd == "absent-dir"@ || cmd
        == "absent-file"@ {
        text_at(p, 0) && text_at(p, 1)
    } else if cmd == "textdelta-chunk"@ {
        text_at(p, 0) && bytes_at(p, 1)
    } else if cmd == "apply-textdelta"@ || cmd == "close-file"@ || cmd == "close-dir"@ || cmd
        == "textdelta-end"@ {
        text_at(p, 0)
    } else if cmd == "revprops"@ {
        forall|k: int| 0 <= k < p.len() ==> is_prop(#[trigger] p[k])
    } else {
        false
    }
}

/// A command of an editor is read exactly where it is a command of the protocol and holds
/// what it must.
#[verifier::rlimit(60)]
pub proof fn a_command_must_hold_its_values(cmd: Seq<char>, p: Seq<ItemView>)
    ensures
        parse_event(cmd, p) is Ok <==> holds_its_values(cmd, p),
        parse_event(cmd, p) is Err ==> refused(parse_event(cmd, p)),
{
    lemma_names_differ();
    lemma_revprops_differs();
    lemma_props(p, 0, Map::empty());
}

/// What drives an editor is a command; its end comes with its own commands, and that of a
/// replay only in a replay. A command that is not in order is answered with a refusal.
pub proof fn a_drive_is_made_of_commands(i: ItemView, for_replay: bool)
    ensures
        !(i matches ItemView::List(v) && word_at(v, 0)) ==> refused(drive_step_of(i, for_replay)),
        i matches ItemView::List(v) ==> (word_at(v, 0) ==> {
            let name = v[0]->Word_0;
            let p = if list_at(v, 1) {
                v[1]->List_0
            } else {
                Seq::empty()
            };
            &&& name == "finish-replay"@ && !for_replay ==> refused(drive_step_of(i, for_replay))
            &&& name != "failure"@ && name != "finish-replay"@ && name != "close-edit"@ && name
                != "abort-edit"@ && !holds_its_values(name, p) ==> (drive_step_of(
                i,
                for_replay,
            ) matches Ok(DriveStepView::Refuse(e)) && e is Protocol)
        }),
{
    reveal_strlit("failure");
    reveal_strlit("finish-replay");
    assert("failure"@.len() == 7 && "finish-replay"@.len() == 13);
    if let ItemView::List(v) = i {
        if word_at(v, 0) {
            let p = if list_at(v, 1) {
                v[1]->List_0
            } else {
                Seq::empty()
            };
            a_command_must_hold_its_values(v[0]->Word_0, p);
        }
    }
}

proof fn lemma_one_more_prop(
    v: Seq<ItemView>,
    i: int,
    m: Map<Seq<char>, Seq<u8>>,
    name: Seq<char>,
    value: Seq<u8>,
    x: ItemView,
)
    requires
        0 <= i <= v.len(),
        is_prop(x),
        says_text(x->List_0[0], name),
        says_bytes(x->List_0[1], value),
    ensures
        match props_from(v, i, m) {
            Ok(p) => props_from(v.push(x), i, m) == Ok::<Map<Seq<char>, Seq<u8>>, ErrorView>(
                p.insert(name, value),
            ),
            Err(e) => props_from(v.push(x), i, m) == Err::<Map<Seq<char>, Seq<u8>>, ErrorView>(e),
        },
    decreases v.len() - i,
{
    let w = v.push(x);
    if i < v.len() {
        assert(w[i] == v[i]);
        if is_prop(v[i]) {
            let pair = v[i]->List_0;
            let n = decode_utf8(pair[0]->String_0);
            lemma_one_more_prop(v, i + 1, m.insert(n, pair[1]->String_0), name, value, x);
        }
    } else {
        assert(w[i] == x);
        assert(props_from(w, i + 1, m.insert(name, value)) == Ok::<
            Map<Seq<char>, Seq<u8>>,
            ErrorView,
        >(m.insert(name, value)));
    }
}

/// Where a name comes more than once, its last value counts; and no other value is touched
/// by it.
pub proof fn the_last_value_of_a_property_counts(
    v: Seq<ItemView>,
    name: Seq<char>,
    value: Seq<u8>,
    x: ItemView,
)
    requires
        is_prop(x),
        says_text(x->List_0[0], name),
        says_bytes(x->List_0[1], value),
        lists_props(ItemView::List(v)),
    ensures
        proplist(ItemView::List(v)) matches Ok(p) && proplist(ItemView::List(v.push(x))) == Ok::<
            Map<Seq<char>, Seq<u8>>,
            ErrorView,
        >(p.insert(name, value)),
        proplist(ItemView::List(Seq::empty())) == Ok::<Map<Seq<char>, Seq<u8>>, ErrorView>(
            Map::empty(),
        ),
{
    lemma_props(v, 0, Map::empty());
    lemma_one_more_prop(v, 0, Map::empty(), name, value, x);
}

} // verus!
