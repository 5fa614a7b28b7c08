//! Answers that come in one item.

use vstd::prelude::*;

use crate::conn::{response_failure, response_params, CommandResponse, ResponseView};
use crate::edit::parse_failure;
use crate::error::{protocol, result_view, summary, ErrorView, SvnError};
use crate::parse::{
    bytes_at, item_at, list_at, nth, nth_bytes, nth_list, nth_number, nth_word, number_at,
    opt_tuple_wordish, parse_proplist, proplist, props_result_is, server_error, tuple_word,
    word_at,
};
use crate::raw::{list_of, ItemView, SvnItem};
use crate::replies::{
    dir_listing, file_meta, iproplist, lockdesc, mergeinfo, mergeinfo_is, parse_get_dir_listing,
    parse_get_file_response_params, parse_iproplist, parse_lockdesc, parse_mergeinfo_catalog,
    parse_stat_params, stat_entry,
};
use crate::results::{
    iprops_wf, DirListing, DirListingView, FileMeta, FileMetaView, InheritedProps,
    InheritedPropsView, LockDesc, LockDescView, MergeInfoCatalog, StatEntry, StatEntryView,
};
use crate::text::{cat3, contains_text, has_part, lower_text, str_eq, to_lower};
use crate::types::{kind_from_word, opt_bytes, props_view, NodeKind, PropertyList};

verus! {

/// The number that an answer begins with.
pub open spec fn number_answer(
    r: ResponseView,
    ctx: Seq<char>,
    missing: Seq<char>,
) -> Result<u64, ErrorView> {
    match response_params(r, ctx) {
        Err(e) => Err(e),
        Ok(p) => match nth_number(p, 0) {
            Some(n) => Ok(n),
            None => Err(ErrorView::Protocol(missing)),
        },
    }
}

/// What reading a number gave.
pub open spec fn number_is(r: Result<u64, SvnError>, v: Result<u64, ErrorView>) -> bool {
    match r {
        Ok(n) => v == Ok::<u64, ErrorView>(n),
        Err(e) => v == Err::<u64, ErrorView>(e.deep_view()),
    }
}

fn read_number(r: &CommandResponse, ctx: &str, missing: &str) -> (n: Result<u64, SvnError>)
    ensures
        number_is(n, number_answer(r.deep_view(), ctx@, missing@)),
{
    match r.success_params(ctx) {
        Err(e) => Err(e),
        Ok(p) => match number_at(p, 0) {
            Some(n) => Ok(n),
            None => Err(protocol(missing)),
        },
    }
}

/// The newest revision.
pub fn get_latest_rev_answer(r: &CommandResponse) -> (n: Result<u64, SvnError>)
    ensures
        number_is(n, number_answer(r.deep_view(), "get-latest-rev"@, "missing latest rev"@)),
{
    read_number(r, "get-latest-rev", "missing latest rev")
}

/// The revision at a date.
pub fn get_dated_rev_answer(r: &CommandResponse) -> (n: Result<u64, SvnError>)
    ensures
        number_is(n, number_answer(r.deep_view(), "get-dated-rev"@, "missing dated rev"@)),
{
    read_number(r, "get-dated-rev", "missing dated rev")
}

/// The revision that deleted a path; a failure that speaks of a missing revision means
/// that there is none.
pub open spec fn deleted_rev(r: ResponseView) -> Result<Option<u64>, ErrorView> {
    if !r.success && has_part(
        lower_text(summary(server_error(r.errors).chain)),
        "missing revision"@,
    ) {
        Ok(None)
    } else {
        match number_answer(r, "get-deleted-rev"@, "missing deleted rev"@) {
            Ok(n) => Ok(Some(n)),
            Err(e) => Err(e),
        }
    }
}

/// What reading a revision that may be missing gave.
pub open spec fn opt_number_is(
    r: Result<Option<u64>, SvnError>,
    v: Result<Option<u64>, ErrorView>,
) -> bool {
    match r {
        Ok(n) => v == Ok::<Option<u64>, ErrorView>(n),
        Err(e) => v == Err::<Option<u64>, ErrorView>(e.deep_view()),
    }
}

/// The revision that deleted a path.
pub fn get_deleted_rev_answer(r: &CommandResponse) -> (n: Result<Option<u64>, SvnError>)
    ensures
        opt_number_is(n, deleted_rev(r.deep_view())),
{
    if r.is_failure() {
        let message = to_lower(&r.failure_message());
        if contains_text(&message, "missing revision") {
            return Ok(None);
        }
    }
    match read_number(r, "get-deleted-rev", "missing deleted rev") {
        Ok(n) => Ok(Some(n)),
        Err(e) => Err(e),
    }
}

/// A command succeeded, or why it did not.
pub open spec fn unit_answer(r: ResponseView, ctx: Seq<char>) -> Result<(), ErrorView> {
    if r.success {
        Ok(())
    } else {
        Err(response_failure(r, ctx))
    }
}

/// Whether a command succeeded.
pub fn succeeded(r: &CommandResponse, ctx: &str) -> (u: Result<(), SvnError>)
    ensures
        result_view(u) == unit_answer(r.deep_view(), ctx@),
{
    r.ensure_success(ctx)
}

/// The properties that an answer begins with.
pub open spec fn rev_props(r: ResponseView) -> Result<Map<Seq<char>, Seq<u8>>, ErrorView> {
    match response_params(r, "rev-proplist"@) {
        Err(e) => Err(e),
        Ok(p) => match nth(p, 0) {
            None => Err(ErrorView::Protocol("rev-proplist response missing proplist"@)),
            Some(x) => proplist(x),
        },
    }
}

/// The properties of a revision.
pub fn rev_proplist_answer(r: &CommandResponse) -> (x: Result<PropertyList, SvnError>)
    ensures
        props_result_is(x, rev_props(r.deep_view())),
{
    match r.success_params("rev-proplist") {
        Err(e) => Err(e),
        Ok(p) => match item_at(p, 0) {
            None => Err(protocol("rev-proplist response missing proplist")),
            Some(x) => parse_proplist(x),
        },
    }
}

/// The value of a property of a revision, if it has the property.
pub open spec fn rev_prop_value(r: ResponseView) -> Result<Option<Seq<u8>>, ErrorView> {
    match response_params(r, "rev-prop"@) {
        Err(e) => Err(e),
        Ok(p) => match nth(p, 0) {
            None => Ok(None),
            Some(x) => match list_of(x) {
                None => Err(ErrorView::Protocol("rev-prop value tuple not a list"@)),
                Some(v) => if v.len() == 0 {
                    Ok(None)
                } else {
                    match nth_bytes(v, 0) {
                        None => Err(ErrorView::Protocol("rev-prop value not a string"@)),
                        Some(b) => Ok(Some(b)),
                    }
                },
            },
        },
    }
}

/// What reading bytes that may be missing gave.
pub open spec fn opt_bytes_is(
    r: Result<Option<Vec<u8>>, SvnError>,
    v: Result<Option<Seq<u8>>, ErrorView>,
) -> bool {
    match r {
        Ok(b) => v == Ok::<Option<Seq<u8>>, ErrorView>(opt_bytes(b)),
        Err(e) => v == Err::<Option<Seq<u8>>, ErrorView>(e.deep_view()),
    }
}

/// The value of a property of a revision.
pub fn rev_prop_answer(r: &CommandResponse) -> (x: Result<Option<Vec<u8>>, SvnError>)
    ensures
        opt_bytes_is(x, rev_prop_value(r.deep_view())),
{
    match r.success_params("rev-prop") {
        Err(e) => Err(e),
        Ok(p) => match item_at(p, 0) {
            None => Ok(None),
            Some(x) => match x.as_list() {
                None => Err(protocol("rev-prop value tuple not a list")),
                Some(v) => {
                    if v.len() == 0 {
                        return Ok(None);
                    }
                    match bytes_at(v, 0) {
                        None => Err(protocol("rev-prop value not a string")),
                        Some(b) => Ok(Some(b)),
                    }
                },
            },
        },
    }
}

/// What comes before the text of a file.
pub open spec fn file_answer(r: ResponseView) -> Result<FileMetaView, ErrorView> {
    match response_params(r, "get-file"@) {
        Err(e) => Err(e),
        Ok(p) => file_meta(p),
    }
}

/// What comes before the text of a file.
pub fn get_file_answer(r: &CommandResponse) -> (x: Result<FileMeta, SvnError>)
    ensures
        result_view(x) == file_answer(r.deep_view()),
        x matches Ok(m) ==> m.props.wf() && iprops_wf(m.inherited_props@),
{
    match r.success_params("get-file") {
        Err(e) => Err(e),
        Ok(p) => parse_get_file_response_params(p),
    }
}

/// The properties of a file.
pub open spec fn file_props(r: ResponseView) -> Result<Map<Seq<char>, Seq<u8>>, ErrorView> {
    match file_answer(r) {
        Ok(m) => Ok(m.props),
        Err(e) => Err(e),
    }
}

/// The properties of a file.
pub fn get_file_props_answer(r: &CommandResponse) -> (x: Result<PropertyList, SvnError>)
    ensures
        props_result_is(x, file_props(r.deep_view())),
{
    match get_file_answer(r) {
        Ok(m) => Ok(m.props),
        Err(e) => Err(e),
    }
}

/// The properties of a directory.
pub open spec fn dir_props(r: ResponseView) -> Result<Map<Seq<char>, Seq<u8>>, ErrorView> {
    match response_params(r, "get-dir"@) {
        Err(e) => Err(e),
        Ok(p) => match nth(p, 1) {
            None => Err(ErrorView::Protocol("get-dir response missing props"@)),
            Some(x) => proplist(x),
        },
    }
}

/// The properties of a directory.
pub fn get_dir_props_answer(r: &CommandResponse) -> (x: Result<PropertyList, SvnError>)
    ensures
        props_result_is(x, dir_props(r.deep_view())),
{
    match r.success_params("get-dir") {
        Err(e) => Err(e),
        Ok(p) => match item_at(p, 1) {
            None => Err(protocol("get-dir response missing props")),
            Some(x) => parse_proplist(x),
        },
    }
}

/// The entries of a directory.
pub open spec fn listing_answer(dir: Seq<char>, r: ResponseView) -> Result<
    DirListingView,
    ErrorView,
> {
    match response_params(r, "get-dir"@) {
        Err(e) => Err(e),
        Ok(p) => dir_listing(dir, p),
    }
}

/// The entries of a directory.
pub fn list_dir_answer(dir: &str, r: &CommandResponse) -> (x: Result<DirListing, SvnError>)
    ensures
        result_view(x) == listing_answer(dir@, r.deep_view()),
{
    match r.success_params("get-dir") {
        Err(e) => Err(e),
        Ok(p) => parse_get_dir_listing(dir, p),
    }
}

/// Inherited properties.
pub open spec fn iprops_answer(r: ResponseView) -> Result<Seq<InheritedPropsView>, ErrorView> {
    match response_params(r, "get-iprops"@) {
        Err(e) => Err(e),
        Ok(p) => match nth(p, 0) {
            None => Err(ErrorView::Protocol("get-iprops response missing iproplist"@)),
            Some(x) => iproplist(x),
        },
    }
}

/// Inherited properties.
pub fn inherited_props_answer(r: &CommandResponse) -> (x: Result<Vec<InheritedProps>, SvnError>)
    ensures
        result_view(x) == iprops_answer(r.deep_view()),
        x matches Ok(v) ==> iprops_wf(v@),
{
    match r.success_params("get-iprops") {
        Err(e) => Err(e),
        Ok(p) => match item_at(p, 0) {
            None => Err(protocol("get-iprops response missing iproplist")),
            Some(x) => parse_iproplist(x),
        },
    }
}

/// Merge information.
pub open spec fn mergeinfo_answer(r: ResponseView) -> Result<Map<Seq<char>, Seq<char>>, ErrorView> {
    match response_params(r, "get-mergeinfo"@) {
        Err(e) => Err(e),
        Ok(p) => mergeinfo(p),
    }
}

/// Merge information.
pub fn get_mergeinfo_answer(r: &CommandResponse) -> (x: Result<MergeInfoCatalog, SvnError>)
    ensures
        mergeinfo_is(x, mergeinfo_answer(r.deep_view())),
{
    match r.success_params("get-mergeinfo") {
        Err(e) => Err(e),
        Ok(p) => parse_mergeinfo_catalog(p),
    }
}

/// The lock on a path, if there is one.
pub open spec fn lock_on_path(r: ResponseView) -> Result<Option<LockDescView>, ErrorView> {
    match response_params(r, "get-lock"@) {
        Err(e) => Err(e),
        Ok(p) => match nth(p, 0) {
            None => Ok(None),
            Some(x) => match list_of(x) {
                None => Err(ErrorView::Protocol("get-lock tuple not a list"@)),
                Some(v) => match nth(v, 0) {
                    None => Ok(None),
                    Some(item) => match lockdesc(item) {
                        Ok(l) => Ok(Some(l)),
                        Err(e) => Err(e),
                    },
                },
            },
        },
    }
}

/// The lock on a path.
pub fn get_lock_answer(r: &CommandResponse) -> (x: Result<Option<LockDesc>, SvnError>)
    ensures
        result_view(x) == lock_on_path(r.deep_view()),
{
    match r.success_params("get-lock") {
        Err(e) => Err(e),
        Ok(p) => match item_at(p, 0) {
            None => Ok(None),
            Some(x) => match x.as_list() {
                None => Err(protocol("get-lock tuple not a list")),
                Some(v) => match item_at(v, 0) {
                    None => Ok(None),
                    Some(item) => match parse_lockdesc(item) {
                        Ok(l) => Ok(Some(l)),
                        Err(e) => Err(e),
                    },
                },
            },
        },
    }
}

/// The locks from index `i` on, behind those that were read before.
pub open spec fn locks_from(items: Seq<ItemView>, i: int, before: Seq<LockDescView>) -> Result<
    Seq<LockDescView>,
    ErrorView,
>
    decreases items.len() - i,
{
    if i < 0 || i >= items.len() {
        Ok(before)
    } else {
        match lockdesc(items[i]) {
            Err(e) => Err(e),
            Ok(l) => locks_from(items, i + 1, before.push(l)),
        }
    }
}

/// The locks below a path.
pub open spec fn locks_below(r: ResponseView) -> Result<Seq<LockDescView>, ErrorView> {
    match response_params(r, "get-locks"@) {
        Err(e) => Err(e),
        Ok(p) => match nth_list(p, 0) {
            None => Err(ErrorView::Protocol("get-locks response not a list"@)),
            Some(items) => locks_from(items, 0, Seq::empty()),
        },
    }
}

/// The locks below a path.
pub fn get_locks_answer(r: &CommandResponse) -> (x: Result<Vec<LockDesc>, SvnError>)
    ensures
        result_view(x) == locks_below(r.deep_view()),
{
    let p = match r.success_params("get-locks") {
        Err(e) => {
            return Err(e);
        },
        Ok(p) => p,
    };
    let items = match list_at(p, 0) {
        Some(v) => v,
        None => {
            return Err(protocol("get-locks response not a list"));
        },
    };
    let ghost all = items.deep_view();
    let mut out: Vec<LockDesc> = Vec::new();
    let mut i: usize = 0;
    assert(out.deep_view() =~= Seq::<LockDescView>::empty());
    while i < items.len()
        invariant
            i <= items.len(),
            all == items.deep_view(),
            locks_below(r.deep_view()) == locks_from(all, 0, Seq::empty()),
            locks_from(all, i as int, out.deep_view()) == locks_from(all, 0, Seq::empty()),
        decreases items.len() - i,
    {
        assert(all[i as int] == items@[i as int].deep_view());
        let ghost before = out.deep_view();
        match parse_lockdesc(&items[i]) {
            Ok(l) => {
                let ghost said = l.deep_view();
                out.push(l);
                assert(out.deep_view() =~= before.push(said));
            },
            Err(e) => {
                return Err(e);
            },
        }
        i = i + 1;
    }
    Ok(out)
}

/// A lock that was taken.
pub open spec fn taken_lock(r: ResponseView) -> Result<LockDescView, ErrorView> {
    match response_params(r, "lock"@) {
        Err(e) => Err(e),
        Ok(p) => match nth(p, 0) {
            None => Err(ErrorView::Protocol("lock response missing lockdesc"@)),
            Some(x) => lockdesc(x),
        },
    }
}

/// A lock that was taken.
pub fn lock_answer(r: &CommandResponse) -> (x: Result<LockDesc, SvnError>)
    ensures
        result_view(x) == taken_lock(r.deep_view()),
{
    match r.success_params("lock") {
        Err(e) => Err(e),
        Ok(p) => match item_at(p, 0) {
            None => Err(protocol("lock response missing lockdesc")),
            Some(x) => parse_lockdesc(x),
        },
    }
}

/// The kind of a node.
pub open spec fn node_kind(r: ResponseView) -> Result<NodeKind, ErrorView> {
    match response_params(r, "check-path"@) {
        Err(e) => Err(e),
        Ok(p) => match nth(p, 0) {
            None => Err(ErrorView::Protocol("check-path response missing kind"@)),
            Some(x) => match tuple_word(x) {
                None => Err(ErrorView::Protocol("check-path response missing kind"@)),
                Some(w) => Ok(kind_from_word(w)),
            },
        },
    }
}

/// What reading a kind gave.
pub open spec fn kind_is(r: Result<NodeKind, SvnError>, v: Result<NodeKind, ErrorView>) -> bool {
    match r {
        Ok(k) => v == Ok::<NodeKind, ErrorView>(k),
        Err(e) => v == Err::<NodeKind, ErrorView>(e.deep_view()),
    }
}

/// The kind of a node.
pub fn check_path_answer(r: &CommandResponse) -> (x: Result<NodeKind, SvnError>)
    ensures
        kind_is(x, node_kind(r.deep_view())),
{
    match r.success_params("check-path") {
        Err(e) => Err(e),
        Ok(p) => match item_at(p, 0) {
            None => Err(protocol("check-path response missing kind")),
            Some(x) => match opt_tuple_wordish(x) {
                None => Err(protocol("check-path response missing kind")),
                Some(w) => Ok(NodeKind::from_word(&w)),
            },
        },
    }
}

/// A node, if the answer says anything of it.
pub open spec fn stat_of(r: ResponseView) -> Result<Option<StatEntryView>, ErrorView> {
    match response_params(r, "stat"@) {
        Err(e) => Err(e),
        Ok(p) => Ok(stat_entry(p)),
    }
}

/// A node, if the answer says anything of it. If not, its kind is to be asked for.
pub fn stat_answer(r: &CommandResponse) -> (x: Result<Option<StatEntry>, SvnError>)
    ensures
        result_view(x) == stat_of(r.deep_view()),
{
    match r.success_params("stat") {
        Err(e) => Err(e),
        Ok(p) => Ok(parse_stat_params(p)),
    }
}

/// What is known of a node by its kind alone.
pub open spec fn stat_by_kind(kind: NodeKind) -> Option<StatEntryView> {
    if kind == NodeKind::Missing {
        None
    } else {
        Some(
            StatEntryView {
                kind,
                size: None,
                has_props: None,
                created_rev: None,
                created_date: None,
                last_author: None,
            },
        )
    }
}

/// What is known of a node by its kind alone.
pub fn stat_from_kind(kind: NodeKind) -> (r: Option<StatEntry>)
    ensures
        r.deep_view() == stat_by_kind(kind),
{
    match kind {
        NodeKind::Missing => None,
        _ => Some(
            StatEntry {
                kind,
                size: None,
                has_props: None,
                created_rev: None,
                created_date: None,
                last_author: None,
            },
        ),
    }
}

/// The properties that come before the drive of a revision.
pub open spec fn replayed_props(item: ItemView) -> Result<Map<Seq<char>, Seq<u8>>, ErrorView> {
    match list_of(item) {
        None => Err(ErrorView::Protocol("expected revprops tuple"@)),
        Some(parts) => if parts.len() == 0 {
            Err(ErrorView::Protocol("empty revprops tuple"@))
        } else {
            match nth_word(parts, 0) {
                None => Err(ErrorView::Protocol("revprops tuple word not a word"@)),
                Some(w) => if w == "revprops"@ {
                    match nth(parts, 1) {
                        Some(p) => proplist(p),
                        None => Ok(Map::empty()),
                    }
                } else if w == "failure"@ {
                    Err(
                        ErrorView::Server(
                            server_error(
                                match nth_list(parts, 1) {
                                    Some(v) => v,
                                    None => Seq::empty(),
                                },
                            ),
                        ),
                    )
                } else {
                    Err(ErrorView::Protocol("expected revprops, found '"@ + w + "'"@))
                },
            }
        },
    }
}

/// The properties that come before the drive of a revision.
pub fn replay_props(item: &SvnItem) -> (x: Result<PropertyList, SvnError>)
    ensures
        props_result_is(x, replayed_props(item.deep_view())),
{
    let parts = match item.as_list() {
        Some(v) => v,
        None => {
            return Err(protocol("expected revprops tuple"));
        },
    };
    if parts.len() == 0 {
        return Err(protocol("empty revprops tuple"));
    }
    let w = match word_at(parts, 0) {
        Some(w) => w,
        None => {
            return Err(protocol("revprops tuple word not a word"));
        },
    };
    if str_eq(&w, "revprops") {
        return match item_at(parts, 1) {
            Some(p) => parse_proplist(p),
            None => {
                let empty: PropertyList = crate::keymap::KeyMap::new();
                assert(props_view(empty) =~= Map::<Seq<char>, Seq<u8>>::empty());
                Ok(empty)
            },
        };
    }
    if str_eq(&w, "failure") {
        return match list_at(parts, 1) {
            Some(v) => Err(parse_failure(v)),
            None => {
                let none: Vec<SvnItem> = Vec::new();
                assert(none.deep_view() =~= Seq::<ItemView>::empty());
                Err(parse_failure(&none))
            },
        };
    }
    Err(SvnError::Protocol(cat3("expected revprops, found '", &w, "'")))
}

} // verus!
