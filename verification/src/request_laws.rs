//! What a server reads from a request is what was asked for.

use vstd::prelude::*;
use vstd::utf8::*;

use crate::commit_send::{commit_item, compat_version};
use crate::edit::report_params;
use crate::editor::ReportView;
use crate::error::ErrorView;
use crate::keymap::{in_order, lemma_finite_in_order, lemma_lt_irreflexive};
use crate::options::{
    CommitOptionsView, DiffOptionsView, LockManyOptionsView, LockOptionsView, LockTargetView,
    LogOptionsView, LogRevPropsView, ReplayOptionsView, ReplayRangeOptionsView,
    StatusOptionsView, SwitchOptionsView, UnlockManyOptionsView, UnlockOptionsView,
    UnlockTargetView, UpdateOptionsView,
};
use crate::params::{opt_text_item, text_items};
use crate::path::{rel_dir_path, rel_path};
use crate::raw::{text_item, ItemView};
use crate::requests::{
    change_rev_prop2_item, change_rev_prop_item, check_path_item, diff_item, get_dated_rev_item,
    get_deleted_rev_item, get_dir_props_item, get_file_item, get_file_props_item,
    get_file_revs_item, get_latest_rev_item, get_location_segments_item, get_locations_item,
    get_lock_item, get_locks_item, get_mergeinfo_item, inherited_props_item, list_dir_item,
    list_item, lock_item, lock_many_item, lock_many_started, lock_targets, log_item, rel_dir_paths,
    reparent_item, replay_item, replay_range_item, rev_prop_item, rev_proplist_item, single_locks,
    single_unlocks, stat_item, status_item, switch_item, unlock_item, unlock_many_item,
    unlock_many_started, unlock_targets, update_item,
};
use crate::server::{
    arg, calls, lemma_utf8, may_say_bytes, may_say_number, may_say_text, says_bool, says_bytes,
    says_depth, says_fields, says_inheritance, says_number, says_numbers, says_prop, says_props,
    says_props_as, says_recurse, says_text, says_texts, says_word,
};
use crate::types::{Depth, DirentField, MergeInfoInheritance};
use crate::url::UrlView;

verus! {

/// The request stands or falls with its path.
pub open spec fn stands_by(
    r: Result<ItemView, ErrorView>,
    path: Result<Seq<char>, ErrorView>,
) -> bool {
    match path {
        Ok(_) => r is Ok,
        Err(e) => r == Err::<ItemView, ErrorView>(e),
    }
}

proof fn lemma_texts(v: Seq<Seq<char>>)
    ensures
        says_texts(text_items(v), v),
{
    let items = text_items(v)->List_0;
    assert forall|k: int| 0 <= k < v.len() implies says_text(#[trigger] items[k], v[k]) by {
        lemma_utf8(v[k]);
    }
}

proof fn lemma_may_text(s: Option<Seq<char>>)
    ensures
        may_say_text(opt_text_item(s), s),
{
    if let Some(t) = s {
        lemma_utf8(t);
    }
}

/// An update asks for the revision, the target, the depth and the flags that its options
/// name.
pub proof fn an_update_asks_for_its_options(o: UpdateOptionsView)
    ensures
        stands_by(update_item(o), rel_dir_path(o.target)),
        update_item(o) matches Ok(i) ==> {
            &&& calls(i, "update"@, 6)
            &&& may_say_number(arg(i, 0), o.rev)
            &&& says_text(arg(i, 1), rel_dir_path(o.target)->Ok_0)
            &&& says_recurse(arg(i, 2), o.depth)
            &&& says_depth(arg(i, 3), o.depth)
            &&& says_bool(arg(i, 4), o.send_copyfrom_args)
            &&& says_bool(arg(i, 5), o.ignore_ancestry)
        },
{
    if let Ok(p) = rel_dir_path(o.target) {
        lemma_utf8(p);
    }
}

/// A switch asks for the revision, the target, the URL to switch to, the depth and the
/// flags that its options name.
pub proof fn a_switch_asks_for_its_options(o: SwitchOptionsView)
    ensures
        stands_by(switch_item(o), rel_dir_path(o.target)),
        switch_item(o) matches Ok(i) ==> {
            &&& calls(i, "switch"@, 7)
            &&& may_say_number(arg(i, 0), o.rev)
            &&& says_text(arg(i, 1), rel_dir_path(o.target)->Ok_0)
            &&& says_recurse(arg(i, 2), o.depth)
            &&& says_text(arg(i, 3), o.switch_url)
            &&& says_depth(arg(i, 4), o.depth)
            &&& says_bool(arg(i, 5), o.send_copyfrom_args)
            &&& says_bool(arg(i, 6), o.ignore_ancestry)
        },
{
    if let Ok(p) = rel_dir_path(o.target) {
        lemma_utf8(p);
    }
    lemma_utf8(o.switch_url);
}

/// A status asks for the target, the revision and the depth that its options name.
pub proof fn a_status_asks_for_its_options(o: StatusOptionsView)
    ensures
        stands_by(status_item(o), rel_dir_path(o.target)),
        status_item(o) matches Ok(i) ==> {
            &&& calls(i, "status"@, 4)
            &&& says_text(arg(i, 0), rel_dir_path(o.target)->Ok_0)
            &&& says_recurse(arg(i, 1), o.depth)
            &&& may_say_number(arg(i, 2), o.rev)
            &&& says_depth(arg(i, 3), o.depth)
        },
{
    if let Ok(p) = rel_dir_path(o.target) {
        lemma_utf8(p);
    }
}

/// A diff asks for the revision, the target, the URL to compare with, the depth and the
/// flags that its options name.
pub proof fn a_diff_asks_for_its_options(o: DiffOptionsView)
    ensures
        stands_by(diff_item(o), rel_dir_path(o.target)),
        diff_item(o) matches Ok(i) ==> {
            &&& calls(i, "diff"@, 7)
            &&& may_say_number(arg(i, 0), o.rev)
            &&& says_text(arg(i, 1), rel_dir_path(o.target)->Ok_0)
            &&& says_recurse(arg(i, 2), o.depth)
            &&& says_bool(arg(i, 3), o.ignore_ancestry)
            &&& says_text(arg(i, 4), o.versus_url)
            &&& says_bool(arg(i, 5), o.text_deltas)
            &&& says_depth(arg(i, 6), o.depth)
        },
{
    if let Ok(p) = rel_dir_path(o.target) {
        lemma_utf8(p);
    }
    lemma_utf8(o.versus_url);
}

/// A replay asks for the revision, the oldest revision that the client has, and whether
/// texts are wanted. A replay of a range asks for both of its ends, and is refused where it
/// ends before it begins.
pub proof fn a_replay_asks_for_its_options(o: ReplayOptionsView, r: ReplayRangeOptionsView)
    ensures
        calls(replay_item(o), "replay"@, 3),
        says_number(arg(replay_item(o), 0), o.revision),
        says_number(arg(replay_item(o), 1), o.low_water_mark),
        says_bool(arg(replay_item(o), 2), o.send_deltas),
        replay_range_item(r) is Ok <==> r.start_rev <= r.end_rev,
        replay_range_item(r) matches Err(e) ==> e is Protocol,
        replay_range_item(r) matches Ok(i) ==> {
            &&& calls(i, "replay-range"@, 4)
            &&& says_number(arg(i, 0), r.start_rev)
            &&& says_number(arg(i, 1), r.end_rev)
            &&& says_number(arg(i, 2), r.low_water_mark)
            &&& says_bool(arg(i, 3), r.send_deltas)
        },
{
}

/// The newest revision is asked for without parameters, and that of a date with the date.
pub proof fn revisions_are_asked_for(
    date: Seq<char>,
    path: Seq<char>,
    peg_rev: u64,
    end_rev: u64,
)
    ensures
        calls(get_latest_rev_item(), "get-latest-rev"@, 0),
        calls(get_dated_rev_item(date), "get-dated-rev"@, 1),
        says_text(arg(get_dated_rev_item(date), 0), date),
        stands_by(get_deleted_rev_item(path, peg_rev, end_rev), rel_path(path)),
        get_deleted_rev_item(path, peg_rev, end_rev) matches Ok(i) ==> {
            &&& calls(i, "get-deleted-rev"@, 3)
            &&& says_text(arg(i, 0), rel_path(path)->Ok_0)
            &&& says_number(arg(i, 1), peg_rev)
            &&& says_number(arg(i, 2), end_rev)
        },
{
    lemma_utf8(date);
    if let Ok(p) = rel_path(path) {
        lemma_utf8(p);
    }
}

/// A file is asked for at its revision, with its text, and with its properties where they
/// are wanted; the properties alone are asked for without the text. Inherited properties
/// are never asked for so.
pub proof fn a_file_is_asked_for(
    path: Seq<char>,
    rev: u64,
    want_props: bool,
    maybe_rev: Option<u64>,
)
    ensures
        stands_by(get_file_item(path, rev, want_props), rel_path(path)),
        get_file_item(path, rev, want_props) matches Ok(i) ==> {
            &&& calls(i, "get-file"@, 5)
            &&& says_text(arg(i, 0), rel_path(path)->Ok_0)
            &&& may_say_number(arg(i, 1), Some(rev))
            &&& says_bool(arg(i, 2), want_props)
            &&& says_bool(arg(i, 3), true)
            &&& says_bool(arg(i, 4), false)
        },
        stands_by(get_file_props_item(path, maybe_rev), rel_path(path)),
        get_file_props_item(path, maybe_rev) matches Ok(i) ==> {
            &&& calls(i, "get-file"@, 5)
            &&& says_text(arg(i, 0), rel_path(path)->Ok_0)
            &&& may_say_number(arg(i, 1), maybe_rev)
            &&& says_bool(arg(i, 2), true)
            &&& says_bool(arg(i, 3), false)
            &&& says_bool(arg(i, 4), false)
        },
{
    if let Ok(p) = rel_path(path) {
        lemma_utf8(p);
    }
}

/// The fields that are wanted: those that are named, or the kind where none is.
pub open spec fn fields_wanted(i: ItemView, fields: Seq<DirentField>) -> bool {
    if fields.len() == 0 {
        says_fields(i, seq![DirentField::Kind])
    } else {
        says_fields(i, fields)
    }
}

/// A directory is asked for at its revision: its entries with the fields that are wanted,
/// or its properties alone.
pub proof fn a_directory_is_asked_for(
    path: Seq<char>,
    rev: Option<u64>,
    fields: Seq<DirentField>,
)
    ensures
        stands_by(list_dir_item(path, rev, fields), rel_dir_path(path)),
        list_dir_item(path, rev, fields) matches Ok(i) ==> {
            &&& calls(i, "get-dir"@, 6)
            &&& says_text(arg(i, 0), rel_dir_path(path)->Ok_0)
            &&& may_say_number(arg(i, 1), rev)
            &&& says_bool(arg(i, 2), false)
            &&& says_bool(arg(i, 3), true)
            &&& fields_wanted(arg(i, 4), fields)
            &&& says_bool(arg(i, 5), false)
        },
        stands_by(get_dir_props_item(path, rev), rel_dir_path(path)),
        get_dir_props_item(path, rev) matches Ok(i) ==> {
            &&& calls(i, "get-dir"@, 6)
            &&& says_text(arg(i, 0), rel_dir_path(path)->Ok_0)
            &&& may_say_number(arg(i, 1), rev)
            &&& says_bool(arg(i, 2), true)
            &&& says_bool(arg(i, 3), false)
            &&& says_fields(arg(i, 4), Seq::empty())
            &&& says_bool(arg(i, 5), false)
        },
{
    if let Ok(p) = rel_dir_path(path) {
        lemma_utf8(p);
    }
}

/// A listing asks for what stands below a directory, down to the depth that is named, with
/// the fields that are wanted, and by the patterns that are named, if there are any.
pub proof fn a_listing_asks_for_its_options(
    path: Seq<char>,
    rev: Option<u64>,
    depth: Depth,
    fields: Seq<DirentField>,
    patterns: Seq<Seq<char>>,
)
    ensures
        stands_by(list_item(path, rev, depth, fields, patterns), rel_dir_path(path)),
        list_item(path, rev, depth, fields, patterns) matches Ok(i) ==> {
            &&& calls(
                i,
                "list"@,
                if patterns.len() == 0 {
                    4
                } else {
                    5
                },
            )
            &&& says_text(arg(i, 0), rel_dir_path(path)->Ok_0)
            &&& may_say_number(arg(i, 1), rev)
            &&& says_depth(arg(i, 2), depth)
            &&& fields_wanted(arg(i, 3), fields)
            &&& patterns.len() > 0 ==> says_texts(arg(i, 4), patterns)
        },
{
    if let Ok(p) = rel_dir_path(path) {
        lemma_utf8(p);
    }
    lemma_texts(patterns);
}

/// Properties of revisions are asked for by revision and name, and set with their value, or
/// removed where none is given. Where the old value counts, it is named.
pub proof fn revision_properties_are_asked_for(
    rev: u64,
    name: Seq<char>,
    value: Option<Seq<u8>>,
    dont_care: bool,
    previous: Option<Seq<u8>>,
)
    ensures
        calls(rev_proplist_item(rev), "rev-proplist"@, 1),
        says_number(arg(rev_proplist_item(rev), 0), rev),
        calls(rev_prop_item(rev, name), "rev-prop"@, 2),
        says_number(arg(rev_prop_item(rev, name), 0), rev),
        says_text(arg(rev_prop_item(rev, name), 1), name),
        ({
            let i = change_rev_prop_item(rev, name, value);
            &&& calls(
                i,
                "change-rev-prop"@,
                if value is Some {
                    3
                } else {
                    2
                },
            )
            &&& says_number(arg(i, 0), rev)
            &&& says_text(arg(i, 1), name)
            &&& value matches Some(v) ==> says_bytes(arg(i, 2), v)
        }),
        change_rev_prop2_item(rev, name, value, dont_care, previous) is Ok <==> !(dont_care
            && previous is Some),
        change_rev_prop2_item(rev, name, value, dont_care, previous) matches Err(e) ==> e
            is Protocol,
        change_rev_prop2_item(rev, name, value, dont_care, previous) matches Ok(i) ==> {
            &&& calls(i, "change-rev-prop2"@, 4)
            &&& says_number(arg(i, 0), rev)
            &&& says_text(arg(i, 1), name)
            &&& may_say_bytes(arg(i, 2), value)
            &&& arg(i, 3) matches ItemView::List(c) && says_bool(c[0], dont_care) && (
            match previous {
                Some(v) => c.len() == 2 && says_bytes(c[1], v),
                None => c.len() == 1,
            })
        },
{
    lemma_utf8(name);
}

/// What a node is, what is known of it and what it inherits is asked for by path and
/// revision.
pub proof fn a_node_is_asked_for(path: Seq<char>, rev: Option<u64>)
    ensures
        stands_by(check_path_item(path, rev), rel_dir_path(path)),
        check_path_item(path, rev) matches Ok(i) ==> {
            &&& calls(i, "check-path"@, 2)
            &&& says_text(arg(i, 0), rel_dir_path(path)->Ok_0)
            &&& may_say_number(arg(i, 1), rev)
        },
        stands_by(stat_item(path, rev), rel_dir_path(path)),
        stat_item(path, rev) matches Ok(i) ==> {
            &&& calls(i, "stat"@, 2)
            &&& says_text(arg(i, 0), rel_dir_path(path)->Ok_0)
            &&& may_say_number(arg(i, 1), rev)
        },
        stands_by(inherited_props_item(path, rev), rel_dir_path(path)),
        inherited_props_item(path, rev) matches Ok(i) ==> {
            &&& calls(i, "get-iprops"@, 2)
            &&& says_text(arg(i, 0), rel_dir_path(path)->Ok_0)
            &&& may_say_number(arg(i, 1), rev)
        },
{
    if let Ok(p) = rel_dir_path(path) {
        lemma_utf8(p);
    }
}

/// Where a node was is asked for by its path, the revision that the path is from, and the
/// revisions that are wanted; its history as a file by the ends of the range.
pub proof fn a_history_is_asked_for(
    path: Seq<char>,
    peg_rev: u64,
    revs: Seq<u64>,
    start_rev: Option<u64>,
    end_rev: Option<u64>,
    merged: bool,
)
    ensures
        stands_by(get_locations_item(path, peg_rev, revs), rel_path(path)),
        get_locations_item(path, peg_rev, revs) matches Ok(i) ==> {
            &&& calls(i, "get-locations"@, 3)
            &&& says_text(arg(i, 0), rel_path(path)->Ok_0)
            &&& says_number(arg(i, 1), peg_rev)
            &&& says_numbers(arg(i, 2), revs)
        },
        stands_by(get_location_segments_item(path, peg_rev, start_rev, end_rev), rel_path(path)),
        get_location_segments_item(path, peg_rev, start_rev, end_rev) matches Ok(i) ==> {
            &&& calls(i, "get-location-segments"@, 4)
            &&& says_text(arg(i, 0), rel_path(path)->Ok_0)
            &&& may_say_number(arg(i, 1), Some(peg_rev))
            &&& may_say_number(arg(i, 2), start_rev)
            &&& may_say_number(arg(i, 3), end_rev)
        },
        stands_by(get_file_revs_item(path, start_rev, end_rev, merged), rel_path(path)),
        get_file_revs_item(path, start_rev, end_rev, merged) matches Ok(i) ==> {
            &&& calls(i, "get-file-revs"@, 4)
            &&& says_text(arg(i, 0), rel_path(path)->Ok_0)
            &&& may_say_number(arg(i, 1), start_rev)
            &&& may_say_number(arg(i, 2), end_rev)
            &&& says_bool(arg(i, 3), merged)
        },
{
    if let Ok(p) = rel_path(path) {
        lemma_utf8(p);
    }
}

/// The log is asked for by its targets, the ends of the range, the limit, the flags, and
/// the properties that are wanted: all of them, or those that are named.
pub proof fn a_log_asks_for_its_options(o: LogOptionsView)
    ensures
        ({
            let i = log_item(o);
            &&& calls(
                i,
                "log"@,
                if o.revprops is All {
                    8
                } else {
                    9
                },
            )
            &&& says_texts(arg(i, 0), o.target_paths)
            &&& may_say_number(arg(i, 1), o.start_rev)
            &&& may_say_number(arg(i, 2), o.end_rev)
            &&& says_bool(arg(i, 3), o.changed_paths)
            &&& says_bool(arg(i, 4), o.strict_node)
            &&& says_number(arg(i, 5), o.limit)
            &&& says_bool(arg(i, 6), o.include_merged_revisions)
            &&& match o.revprops {
                LogRevPropsView::All => says_word(arg(i, 7), "all-revprops"@),
                LogRevPropsView::Custom(names) => says_word(arg(i, 7), "revprops"@)
                    && says_texts(arg(i, 8), names),
            }
        }),
{
    lemma_texts(o.target_paths);
    if let LogRevPropsView::Custom(names) = o.revprops {
        lemma_texts(names);
    }
}

/// All of these paths name directories, and these are the names.
pub open spec fn name_dirs(paths: Seq<Seq<char>>, names: Seq<Seq<char>>) -> bool {
    names.len() == paths.len() && forall|k: int|
        0 <= k < paths.len() ==> rel_dir_path(#[trigger] paths[k]) == Ok::<
            Seq<char>,
            ErrorView,
        >(names[k])
}

proof fn lemma_dirs_named(paths: Seq<Seq<char>>, n: int)
    requires
        0 <= n <= paths.len(),
    ensures
        rel_dir_paths(paths, n) matches Ok(names) ==> name_dirs(paths.take(n), names),
        rel_dir_paths(paths, n) matches Err(e) ==> exists|k: int|
            0 <= k < n && rel_dir_path(#[trigger] paths[k]) == Err::<Seq<char>, ErrorView>(e)
                && forall|m: int| 0 <= m < k ==> rel_dir_path(#[trigger] paths[m]) is Ok,
    decreases n,
{
    if n > 0 {
        lemma_dirs_named(paths, n - 1);
        if let Ok(before) = rel_dir_paths(paths, n - 1) {
            assert forall|m: int| 0 <= m < n - 1 implies rel_dir_path(
                #[trigger] paths[m],
            ) is Ok by {
                assert(paths.take(n - 1)[m] == paths[m]);
            }
            if let Ok(names) = rel_dir_paths(paths, n) {
                assert forall|k: int| 0 <= k < n implies rel_dir_path(#[trigger] paths.take(n)[k])
                    == Ok::<Seq<char>, ErrorView>(names[k]) by {
                    if k < n - 1 {
                        assert(paths.take(n - 1)[k] == paths[k]);
                        assert(names[k] == before[k]);
                    }
                }
            }
        }
    }
}

/// Merge information is asked for by all of the paths, in their order, at the revision and
/// with the inheritance that are named. The first path that is not one is refused.
pub proof fn merge_information_is_asked_for(
    paths: Seq<Seq<char>>,
    rev: Option<u64>,
    inherit: MergeInfoInheritance,
    descendants: bool,
)
    ensures
        get_mergeinfo_item(paths, rev, inherit, descendants) matches Ok(i) ==> {
            &&& calls(i, "get-mergeinfo"@, 4)
            &&& exists|names: Seq<Seq<char>>| #[trigger]
                name_dirs(paths, names) && says_texts(arg(i, 0), names)
            &&& may_say_number(arg(i, 1), rev)
            &&& says_inheritance(arg(i, 2), inherit)
            &&& says_bool(arg(i, 3), descendants)
        },
        get_mergeinfo_item(paths, rev, inherit, descendants) matches Err(e) ==> exists|k: int|
            0 <= k < paths.len() && rel_dir_path(#[trigger] paths[k]) == Err::<
                Seq<char>,
                ErrorView,
            >(e) && forall|m: int| 0 <= m < k ==> rel_dir_path(#[trigger] paths[m]) is Ok,
{
    let n = paths.len() as int;
    lemma_dirs_named(paths, n);
    assert(paths.take(n) =~= paths);
    if let Ok(names) = rel_dir_paths(paths, n) {
        lemma_texts(names);
        assert(name_dirs(paths, names));
    }
}

/// A session goes over to another URL of the same host and port, and to no other.
pub proof fn a_reparent_asks_for_its_url(current: UrlView, new: UrlView)
    ensures
        reparent_item(current, new) is Ok <==> new.host == current.host && new.port
            == current.port,
        reparent_item(current, new) matches Err(e) ==> e is InvalidUrl,
        reparent_item(current, new) matches Ok(i) ==> calls(i, "reparent"@, 1) && says_text(
            arg(i, 0),
            new.url,
        ),
{
    lemma_utf8(new.url);
}

/// Locks are asked for, taken and released by path, with the comment, the token, the
/// revision and the flags that are named.
pub proof fn a_lock_asks_for_its_options(
    path: Seq<char>,
    depth: Depth,
    o: LockOptionsView,
    u: UnlockOptionsView,
)
    ensures
        stands_by(get_lock_item(path), rel_path(path)),
        get_lock_item(path) matches Ok(i) ==> calls(i, "get-lock"@, 1) && says_text(
            arg(i, 0),
            rel_path(path)->Ok_0,
        ),
        stands_by(get_locks_item(path, depth), rel_dir_path(path)),
        get_locks_item(path, depth) matches Ok(i) ==> {
            &&& calls(i, "get-locks"@, 2)
            &&& says_text(arg(i, 0), rel_dir_path(path)->Ok_0)
            &&& arg(i, 1) matches ItemView::List(d) && d.len() == 1 && says_depth(d[0], depth)
        },
        stands_by(lock_item(path, o), rel_path(path)),
        lock_item(path, o) matches Ok(i) ==> {
            &&& calls(i, "lock"@, 4)
            &&& says_text(arg(i, 0), rel_path(path)->Ok_0)
            &&& may_say_text(arg(i, 1), o.comment)
            &&& says_bool(arg(i, 2), o.steal_lock)
            &&& may_say_number(arg(i, 3), o.current_rev)
        },
        stands_by(unlock_item(path, u), rel_path(path)),
        unlock_item(path, u) matches Ok(i) ==> {
            &&& calls(i, "unlock"@, 3)
            &&& says_text(arg(i, 0), rel_path(path)->Ok_0)
            &&& may_say_text(arg(i, 1), u.token)
            &&& says_bool(arg(i, 2), u.break_lock)
        },
{
    if let Ok(p) = rel_path(path) {
        lemma_utf8(p);
    }
    if let Ok(p) = rel_dir_path(path) {
        lemma_utf8(p);
    }
    lemma_may_text(o.comment);
    lemma_may_text(u.token);
}

/// An item that names a path to lock, and the revision that the client has.
pub open spec fn says_lock_target(i: ItemView, t: LockTargetView) -> bool {
    i matches ItemView::List(v) && v.len() == 2 && (rel_path(t.path) matches Ok(p) && says_text(
        v[0],
        p,
    )) && may_say_number(v[1], t.current_rev)
}

/// An item that names a path to release, and the token of its lock.
pub open spec fn says_unlock_target(i: ItemView, t: UnlockTargetView) -> bool {
    i matches ItemView::List(v) && v.len() == 2 && (rel_path(t.path) matches Ok(p) && says_text(
        v[0],
        p,
    )) && may_say_text(v[1], t.token)
}

proof fn lemma_lock_targets(targets: Seq<LockTargetView>, n: int)
    requires
        0 <= n <= targets.len(),
    ensures
        lock_targets(targets, n) matches Ok(v) ==> v.len() == n && forall|k: int|
            0 <= k < n ==> says_lock_target(#[trigger] v[k], targets[k]),
        lock_targets(targets, n) matches Err(e) ==> exists|k: int|
            0 <= k < n && rel_path((#[trigger] targets[k]).path) == Err::<Seq<char>, ErrorView>(
                e,
            ),
    decreases n,
{
    if n > 0 {
        lemma_lock_targets(targets, n - 1);
        if let Ok(before) = lock_targets(targets, n - 1) {
            if let Ok(p) = rel_path(targets[n - 1].path) {
                lemma_utf8(p);
                let v = lock_targets(targets, n)->Ok_0;
                assert forall|k: int| 0 <= k < n implies says_lock_target(
                    #[trigger] v[k],
                    targets[k],
                ) by {
                    if k < n - 1 {
                        assert(v[k] == before[k]);
                    }
                }
            }
        }
    }
}

proof fn lemma_unlock_targets(targets: Seq<UnlockTargetView>, n: int)
    requires
        0 <= n <= targets.len(),
    ensures
        unlock_targets(targets, n) matches Ok(v) ==> v.len() == n && forall|k: int|
            0 <= k < n ==> says_unlock_target(#[trigger] v[k], targets[k]),
        unlock_targets(targets, n) matches Err(e) ==> exists|k: int|
            0 <= k < n && rel_path((#[trigger] targets[k]).path) == Err::<Seq<char>, ErrorView>(
                e,
            ),
    decreases n,
{
    if n > 0 {
        lemma_unlock_targets(targets, n - 1);
        if let Ok(before) = unlock_targets(targets, n - 1) {
            if let Ok(p) = rel_path(targets[n - 1].path) {
                lemma_utf8(p);
                lemma_may_text(targets[n - 1].token);
                let v = unlock_targets(targets, n)->Ok_0;
                assert forall|k: int| 0 <= k < n implies says_unlock_target(
                    #[trigger] v[k],
                    targets[k],
                ) by {
                    if k < n - 1 {
                        assert(v[k] == before[k]);
                    }
                }
            }
        }
    }
}

/// Many locks are taken with one comment and one flag: the request names every target, in
/// order, with its revision. It is refused where a target is no path; where there is no
/// target, nothing is sent.
pub proof fn many_locks_ask_for_every_target(
    o: LockManyOptionsView,
    targets: Seq<LockTargetView>,
)
    ensures
        lock_many_started(o, targets) == Ok::<Option<ItemView>, ErrorView>(None) <==> targets.len()
            == 0,
        lock_many_started(o, targets) matches Ok(Some(i)) ==> lock_many_item(o, targets) == Ok::<
            ItemView,
            ErrorView,
        >(i),
        lock_many_started(o, targets) matches Err(e) ==> exists|k: int|
            0 <= k < targets.len() && rel_path((#[trigger] targets[k]).path) == Err::<
                Seq<char>,
                ErrorView,
            >(e),
        lock_many_item(o, targets) matches Ok(i) ==> {
            &&& calls(i, "lock-many"@, 3)
            &&& may_say_text(arg(i, 0), o.comment)
            &&& says_bool(arg(i, 1), o.steal_lock)
            &&& arg(i, 2) matches ItemView::List(v) && v.len() == targets.len() && forall|k: int|
                0 <= k < targets.len() ==> says_lock_target(#[trigger] v[k], targets[k])
        },
{
    lemma_lock_targets(targets, targets.len() as int);
    lemma_may_text(o.comment);
}

/// Many locks are released with one flag: the request names every target, in order, with
/// its token.
pub proof fn many_unlocks_ask_for_every_target(
    o: UnlockManyOptionsView,
    targets: Seq<UnlockTargetView>,
)
    ensures
        unlock_many_started(o, targets) == Ok::<Option<ItemView>, ErrorView>(None)
            <==> targets.len() == 0,
        unlock_many_started(o, targets) matches Ok(Some(i)) ==> unlock_many_item(o, targets)
            == Ok::<ItemView, ErrorView>(i),
        unlock_many_started(o, targets) matches Err(e) ==> exists|k: int|
            0 <= k < targets.len() && rel_path((#[trigger] targets[k]).path) == Err::<
                Seq<char>,
                ErrorView,
            >(e),
        unlock_many_item(o, targets) matches Ok(i) ==> {
            &&& calls(i, "unlock-many"@, 2)
            &&& says_bool(arg(i, 0), o.break_lock)
            &&& arg(i, 1) matches ItemView::List(v) && v.len() == targets.len() && forall|k: int|
                0 <= k < targets.len() ==> says_unlock_target(#[trigger] v[k], targets[k])
        },
{
    lemma_unlock_targets(targets, targets.len() as int);
}

/// Taking locks one by one asks for the same as taking them at once: each target in order,
/// at its revision, with the same comment and flag.
pub proof fn locks_one_by_one_are_the_same(o: LockManyOptionsView, targets: Seq<LockTargetView>)
    ensures
        single_locks(o, targets).len() == targets.len(),
        forall|k: int|
            0 <= k < targets.len() ==> {
                let (path, one) = #[trigger] single_locks(o, targets)[k];
                &&& path == targets[k].path
                &&& one.comment == o.comment
                &&& one.steal_lock == o.steal_lock
                &&& one.current_rev == targets[k].current_rev
            },
{
}

proof fn lemma_single_unlocks(
    o: UnlockManyOptionsView,
    targets: Seq<UnlockTargetView>,
    i: int,
    before: Seq<(Seq<char>, UnlockOptionsView)>,
)
    requires
        0 <= i <= targets.len(),
        before.len() == i,
        forall|k: int|
            0 <= k < i ==> rel_path((#[trigger] targets[k]).path) == Ok::<Seq<char>, ErrorView>(
                before[k].0,
            ) && before[k].1.token == targets[k].token && before[k].1.break_lock == o.break_lock,
    ensures
        single_unlocks(o, targets, i, before) matches Ok(v) ==> v.len() == targets.len()
            && forall|k: int|
            0 <= k < targets.len() ==> rel_path((#[trigger] targets[k]).path) == Ok::<
                Seq<char>,
                ErrorView,
            >(v[k].0) && v[k].1.token == targets[k].token && v[k].1.break_lock == o.break_lock,
        single_unlocks(o, targets, i, before) matches Err(e) ==> exists|k: int|
            0 <= k < targets.len() && rel_path((#[trigger] targets[k]).path) == Err::<
                Seq<char>,
                ErrorView,
            >(e),
    decreases targets.len() - i,
{
    if i < targets.len() {
        if let Ok(p) = rel_path(targets[i].path) {
            let next = before.push(
                (p, UnlockOptionsView { token: targets[i].token, break_lock: o.break_lock }),
            );
            assert forall|k: int| 0 <= k < i + 1 implies rel_path((#[trigger] targets[k]).path)
                == Ok::<Seq<char>, ErrorView>(next[k].0) && next[k].1.token == targets[k].token
                && next[k].1.break_lock == o.break_lock by {
                if k < i {
                    assert(next[k] == before[k]);
                }
            }
            lemma_single_unlocks(o, targets, i + 1, next);
        }
    }
}

/// Releasing locks one by one asks for the same as releasing them at once: each target in
/// order, by its token, with the same flag. It is refused where a target is no path.
pub proof fn unlocks_one_by_one_are_the_same(
    o: UnlockManyOptionsView,
    targets: Seq<UnlockTargetView>,
)
    ensures
        single_unlocks(o, targets, 0, Seq::empty()) matches Ok(v) ==> v.len() == targets.len()
            && forall|k: int|
            0 <= k < targets.len() ==> rel_path((#[trigger] targets[k]).path) == Ok::<
                Seq<char>,
                ErrorView,
            >(v[k].0) && v[k].1.token == targets[k].token && v[k].1.break_lock == o.break_lock,
        single_unlocks(o, targets, 0, Seq::empty()) matches Err(e) ==> exists|k: int|
            0 <= k < targets.len() && rel_path((#[trigger] targets[k]).path) == Err::<
                Seq<char>,
                ErrorView,
            >(e),
{
    lemma_single_unlocks(o, targets, 0, Seq::empty());
}

/// A name that the library sets by itself.
pub open spec fn set_by_itself(name: Seq<char>, ephemeral: bool) -> bool {
    ||| name == "svn:log"@
    ||| ephemeral && (name == "svn:txn-client-compat-version"@ || name == "svn:txn-user-agent"@)
}

/// The item names the lock on a path by its token.
pub open spec fn says_lock_token(i: ItemView, path: Seq<char>, token: Seq<char>) -> bool {
    i matches ItemView::List(v) && v.len() == 2 && (rel_path(path) matches Ok(p) && says_text(
        v[0],
        p,
    )) && says_text(v[1], token)
}

/// A commit is opened with these properties: every property that the caller set, with its
/// value; the log message; where the server takes them, the names of the client; and no
/// other.
pub open spec fn props_of_commit(
    m: Map<Seq<char>, Seq<u8>>,
    o: CommitOptionsView,
    ra_client: Seq<char>,
    ephemeral: bool,
) -> bool {
    &&& forall|k: Seq<char>| #[trigger]
        m.dom().contains(k) <==> set_by_itself(k, ephemeral) || o.rev_props.dom().contains(k)
    &&& forall|k: Seq<char>| #[trigger]
        o.rev_props.dom().contains(k) && !set_by_itself(k, ephemeral) ==> m[k] == o.rev_props[k]
    &&& says_text(ItemView::String(m["svn:log"@]), o.log_message)
    &&& ephemeral ==> says_text(ItemView::String(m["svn:txn-user-agent"@]), ra_client)
    &&& ephemeral ==> says_text(
        ItemView::String(m["svn:txn-client-compat-version"@]),
        compat_version(ra_client),
    )
}

proof fn lemma_proplist(props: Map<Seq<char>, Seq<u8>>)
    requires
        props.dom().finite(),
    ensures
        says_props(crate::commit_send::proplist_item(props), props),
{
    let names = in_order(props.dom());
    let i = crate::commit_send::proplist_item(props);
    lemma_finite_in_order(props.dom());
    assert(names.no_duplicates()) by {
        assert forall|a: int, b: int| 0 <= a < names.len() && 0 <= b < names.len() && a
            != b implies names[a] != names[b] by {
            lemma_lt_irreflexive(names[a]);
        }
    }
    assert(names.to_set() =~= props.dom());
    let v = i->List_0;
    assert forall|k: int| 0 <= k < names.len() implies says_prop(
        #[trigger] v[k],
        names[k],
        props[names[k]],
    ) by {
        lemma_utf8(names[k]);
    }
    assert(says_props_as(i, names, props));
}

proof fn lemma_tokens(
    tokens: Seq<crate::options::CommitLockTokenView>,
    i: int,
    before: Seq<ItemView>,
)
    requires
        0 <= i <= tokens.len(),
        before.len() == i,
        forall|k: int|
            0 <= k < i ==> says_lock_token(#[trigger] before[k], tokens[k].path, tokens[k].token),
    ensures
        crate::commit_send::lock_tokens_from(tokens, i, before) matches Ok(v) ==> v.len()
            == tokens.len() && forall|k: int|
            0 <= k < tokens.len() ==> says_lock_token(
                #[trigger] v[k],
                tokens[k].path,
                tokens[k].token,
            ),
        crate::commit_send::lock_tokens_from(tokens, i, before) matches Err(e) ==> exists|k: int|
            0 <= k < tokens.len() && rel_path((#[trigger] tokens[k]).path) == Err::<
                Seq<char>,
                ErrorView,
            >(e),
    decreases tokens.len() - i,
{
    if i < tokens.len() {
        if let Ok(p) = rel_path(tokens[i].path) {
            lemma_utf8(p);
            lemma_utf8(tokens[i].token);
            let item = ItemView::List(seq![text_item(p), text_item(tokens[i].token)]);
            let next = before.push(item);
            assert forall|k: int| 0 <= k < i + 1 implies says_lock_token(
                #[trigger] next[k],
                tokens[k].path,
                tokens[k].token,
            ) by {
                if k < i {
                    assert(next[k] == before[k]);
                }
            }
            lemma_tokens(tokens, i + 1, next);
        }
    }
}

/// A commit is opened with its log message, with every lock that it holds, by path and
/// token, with the wish to keep the locks, and with every revision property that was set:
/// each under its name with its value, beside the log message. It is refused where a lock
/// is on no path, and where the server takes no properties but there are some beside the
/// log message.
pub proof fn a_commit_is_opened_as_asked(
    o: CommitOptionsView,
    ra_client: Seq<char>,
    takes_revprops: bool,
    takes_ephemeral: bool,
)
    requires
        o.rev_props.dom().finite(),
    ensures
        match commit_item(o, ra_client, takes_revprops, takes_ephemeral) {
            Ok(i) => {
                &&& calls(i, "commit"@, 4)
                &&& says_text(arg(i, 0), o.log_message)
                &&& arg(i, 1) matches ItemView::List(v) && v.len() == o.lock_tokens.len()
                    && forall|k: int|
                    0 <= k < o.lock_tokens.len() ==> says_lock_token(
                        #[trigger] v[k],
                        o.lock_tokens[k].path,
                        o.lock_tokens[k].token,
                    )
                &&& says_bool(arg(i, 2), o.keep_locks)
                &&& exists|m: Map<Seq<char>, Seq<u8>>| #[trigger]
                    says_props(arg(i, 3), m) && props_of_commit(
                        m,
                        o,
                        ra_client,
                        takes_revprops && takes_ephemeral,
                    )
                &&& takes_revprops || forall|k: Seq<char>| #[trigger]
                    o.rev_props.dom().contains(k) ==> k == "svn:log"@
            },
            Err(e) => {
                ||| e is Protocol && !takes_revprops && exists|k: Seq<char>| #[trigger]
                    o.rev_props.dom().contains(k) && k != "svn:log"@
                ||| exists|k: int|
                    0 <= k < o.lock_tokens.len() && rel_path((#[trigger] o.lock_tokens[k]).path)
                        == Err::<Seq<char>, ErrorView>(e)
            },
        },
{
    lemma_tokens(o.lock_tokens, 0, Seq::empty());
    lemma_utf8(o.log_message);
    lemma_utf8(ra_client);
    lemma_utf8(compat_version(ra_client));
    let ephemeral = takes_revprops && takes_ephemeral;
    let m = crate::commit_send::commit_props(o, ra_client, ephemeral);
    reveal_strlit("svn:log");
    reveal_strlit("svn:txn-client-compat-version");
    reveal_strlit("svn:txn-user-agent");
    assert("svn:log"@.len() != "svn:txn-client-compat-version"@.len());
    assert("svn:log"@.len() != "svn:txn-user-agent"@.len());
    assert("svn:txn-client-compat-version"@.len() != "svn:txn-user-agent"@.len());
    lemma_proplist(m);
    if let Ok(i) = commit_item(o, ra_client, takes_revprops, takes_ephemeral) {
        assert(says_props(arg(i, 3), m));
        assert(props_of_commit(m, o, ra_client, ephemeral));
    }
}

/// A report tells the server what the client has: each step names its path, with the
/// revision, the depth, the lock and the URL that the client has there.
pub proof fn a_report_tells_what_is_there(c: ReportView)
    ensures
        ({
            let (name, p) = report_params(c);
            match c {
                ReportView::SetPath { path, rev, start_empty, lock_token, depth } => {
                    &&& name == "set-path"@
                    &&& p.len() == 5
                    &&& says_text(p[0], path)
                    &&& says_number(p[1], rev)
                    &&& says_bool(p[2], start_empty)
                    &&& may_say_text(p[3], lock_token)
                    &&& says_depth(p[4], depth)
                },
                ReportView::DeletePath { path } => name == "delete-path"@ && p.len() == 1
                    && says_text(p[0], path),
                ReportView::LinkPath { path, url, rev, start_empty, lock_token, depth } => {
                    &&& name == "link-path"@
                    &&& p.len() == 6
                    &&& says_text(p[0], path)
                    &&& says_text(p[1], url)
                    &&& says_number(p[2], rev)
                    &&& says_bool(p[3], start_empty)
                    &&& may_say_text(p[4], lock_token)
                    &&& says_depth(p[5], depth)
                },
                ReportView::FinishReport => name == "finish-report"@ && p.len() == 0,
                ReportView::AbortReport => name == "abort-report"@ && p.len() == 0,
            }
        }),
{
    match c {
        ReportView::SetPath { path, lock_token, .. } => {
            lemma_utf8(path);
            lemma_may_text(lock_token);
        },
        ReportView::DeletePath { path } => {
            lemma_utf8(path);
        },
        ReportView::LinkPath { path, url, lock_token, .. } => {
            lemma_utf8(path);
            lemma_utf8(url);
            lemma_may_text(lock_token);
        },
        _ => {},
    }
}

} // verus!
