//! The commands that a session sends.

use vstd::prelude::*;

use crate::error::{protocol, result_view, ErrorView, SvnError};
use crate::options::{
    DiffOptions, DiffOptionsView, LockManyOptions, LockManyOptionsView, LockOptions,
    LockOptionsView, LockTarget, LockTargetView, LogOptions, LogOptionsView, LogRevProps,
    LogRevPropsView, ReplayOptions, ReplayOptionsView, ReplayRangeOptions, ReplayRangeOptionsView,
    StatusOptions, StatusOptionsView, SwitchOptions, SwitchOptionsView, UnlockManyOptions,
    UnlockManyOptionsView, UnlockOptions, UnlockOptionsView, UnlockTarget, UnlockTargetView,
    UpdateOptions, UpdateOptionsView,
};
use crate::params::{
    command0, command1, command2, command3, command4, command5, command6, command7, just, list,
    nothing, opt_bytes_item, opt_item, opt_number, opt_number_item, opt_raw, opt_text,
    opt_text_item, text, text_items, texts, word,
};
use crate::path::{rel_dir_path, rel_path, validate_rel_dir_path, validate_rel_path};
use crate::raw::{copy_bytes, text_item, ItemView, SvnItem};
use crate::text::clone_text;
use crate::types::{
    depth_word, field_word, inheritance_word, opt_bytes, recurses, Depth, DirentField,
    MergeInfoInheritance,
};
use crate::url::{SvnUrl, UrlView};
use crate::wire::{command, command_item};

verus! {

/// The word for a depth as an item.
fn depth_item(d: Depth) -> (r: SvnItem)
    ensures
        r.deep_view() == ItemView::Word(depth_word(d)),
{
    word(d.as_word())
}

/// Numbers as a list.
pub open spec fn number_items(v: Seq<u64>) -> ItemView {
    ItemView::List(v.map_values(|n: u64| ItemView::Number(n)))
}

fn numbers(v: &[u64]) -> (r: SvnItem)
    ensures
        r.deep_view() == number_items(v@),
{
    let mut items: Vec<SvnItem> = Vec::new();
    let mut i: usize = 0;
    while i < v.len()
        invariant
            i <= v.len(),
            items@.len() == i,
            forall|k: int|
                0 <= k < i ==> (#[trigger] items@[k]).deep_view() == ItemView::Number(v@[k]),
        decreases v.len() - i,
    {
        items.push(SvnItem::Number(v[i]));
        i = i + 1;
    }
    assert(items.deep_view() =~= v@.map_values(|n: u64| ItemView::Number(n)));
    list(items)
}

/// The words for fields as a list; where no field is named, the kind is wanted.
pub open spec fn field_items(v: Seq<DirentField>) -> ItemView {
    let wanted = if v.len() == 0 {
        seq![DirentField::Kind]
    } else {
        v
    };
    ItemView::List(wanted.map_values(|f: DirentField| ItemView::Word(field_word(f))))
}

fn fields_item(v: &[DirentField]) -> (r: SvnItem)
    ensures
        r.deep_view() == field_items(v@),
{
    let mut items: Vec<SvnItem> = Vec::new();
    if v.len() == 0 {
        items.push(word(DirentField::Kind.as_word()));
        assert(items.deep_view() =~= seq![DirentField::Kind].map_values(
            |f: DirentField| ItemView::Word(field_word(f)),
        ));
        return list(items);
    }
    let mut i: usize = 0;
    while i < v.len()
        invariant
            i <= v.len(),
            items@.len() == i,
            forall|k: int|
                0 <= k < i ==> (#[trigger] items@[k]).deep_view() == ItemView::Word(
                    field_word(v@[k]),
                ),
        decreases v.len() - i,
    {
        items.push(word(v[i].as_word()));
        i = i + 1;
    }
    assert(items.deep_view() =~= v@.map_values(
        |f: DirentField| ItemView::Word(field_word(f)),
    ));
    list(items)
}

/// The fields that a listing usually gives.
pub open spec fn usual_fields() -> Seq<DirentField> {
    seq![
        DirentField::Kind,
        DirentField::Size,
        DirentField::HasProps,
        DirentField::CreatedRev,
        DirentField::Time,
        DirentField::LastAuthor,
    ]
}

/// The fields that a listing usually gives.
pub fn listing_fields() -> (r: Vec<DirentField>)
    ensures
        r@ == usual_fields(),
{
    vec![
        DirentField::Kind,
        DirentField::Size,
        DirentField::HasProps,
        DirentField::CreatedRev,
        DirentField::Time,
        DirentField::LastAuthor,
    ]
}

/// Asks for the newest revision.
pub open spec fn get_latest_rev_item() -> ItemView {
    command_item("get-latest-rev"@, Seq::empty())
}

/// Asks for the newest revision.
pub fn get_latest_rev_request() -> (r: SvnItem)
    ensures
        r.deep_view() == get_latest_rev_item(),
{
    command0("get-latest-rev")
}

/// Asks for the revision at a date.
pub open spec fn get_dated_rev_item(date: Seq<char>) -> ItemView {
    command_item("get-dated-rev"@, seq![text_item(date)])
}

/// Asks for the revision at a date.
pub fn get_dated_rev_request(date: &str) -> (r: SvnItem)
    ensures
        r.deep_view() == get_dated_rev_item(date@),
{
    command1("get-dated-rev", text(date))
}

/// Asks for an update.
pub open spec fn update_item(o: UpdateOptionsView) -> Result<ItemView, ErrorView> {
    match rel_dir_path(o.target) {
        Err(e) => Err(e),
        Ok(p) => Ok(
            command_item(
                "update"@,
                seq![
                    opt_number_item(o.rev),
                    text_item(p),
                    ItemView::Bool(recurses(o.depth)),
                    ItemView::Word(depth_word(o.depth)),
                    ItemView::Bool(o.send_copyfrom_args),
                    ItemView::Bool(o.ignore_ancestry),
                ],
            ),
        ),
    }
}

/// Asks for an update.
pub fn update_request(o: &UpdateOptions) -> (r: Result<SvnItem, SvnError>)
    ensures
        result_view(r) == update_item(o.deep_view()),
{
    let p = match validate_rel_dir_path(&o.target) {
        Ok(p) => p,
        Err(e) => {
            return Err(e);
        },
    };
    Ok(
        command6(
            "update",
            opt_number(o.rev),
            text(&p),
            SvnItem::Bool(o.depth.recurses()),
            depth_item(o.depth),
            SvnItem::Bool(o.send_copyfrom_args),
            SvnItem::Bool(o.ignore_ancestry),
        ),
    )
}

/// Asks for a switch.
pub open spec fn switch_item(o: SwitchOptionsView) -> Result<ItemView, ErrorView> {
    match rel_dir_path(o.target) {
        Err(e) => Err(e),
        Ok(p) => Ok(
            command_item(
                "switch"@,
                seq![
                    opt_number_item(o.rev),
                    text_item(p),
                    ItemView::Bool(recurses(o.depth)),
                    text_item(o.switch_url),
                    ItemView::Word(depth_word(o.depth)),
                    ItemView::Bool(o.send_copyfrom_args),
                    ItemView::Bool(o.ignore_ancestry),
                ],
            ),
        ),
    }
}

/// Asks for a switch.
pub fn switch_request(o: &SwitchOptions) -> (r: Result<SvnItem, SvnError>)
    ensures
        result_view(r) == switch_item(o.deep_view()),
{
    let p = match validate_rel_dir_path(&o.target) {
        Ok(p) => p,
        Err(e) => {
            return Err(e);
        },
    };
    Ok(
        command7(
            "switch",
            opt_number(o.rev),
            text(&p),
            SvnItem::Bool(o.depth.recurses()),
            text(&o.switch_url),
            depth_item(o.depth),
            SvnItem::Bool(o.send_copyfrom_args),
            SvnItem::Bool(o.ignore_ancestry),
        ),
    )
}

/// Asks for a status.
pub open spec fn status_item(o: StatusOptionsView) -> Result<ItemView, ErrorView> {
    match rel_dir_path(o.target) {
        Err(e) => Err(e),
        Ok(p) => Ok(
            command_item(
                "status"@,
                seq![
                    text_item(p),
                    ItemView::Bool(recurses(o.depth)),
                    opt_number_item(o.rev),
                    ItemView::Word(depth_word(o.depth)),
                ],
            ),
        ),
    }
}

/// Asks for a status.
pub fn status_request(o: &StatusOptions) -> (r: Result<SvnItem, SvnError>)
    ensures
        result_view(r) == status_item(o.deep_view()),
{
    let p = match validate_rel_dir_path(&o.target) {
        Ok(p) => p,
        Err(e) => {
            return Err(e);
        },
    };
    Ok(
        command4(
            "status",
            text(&p),
            SvnItem::Bool(o.depth.recurses()),
            opt_number(o.rev),
            depth_item(o.depth),
        ),
    )
}

/// Asks for a diff.
pub open spec fn diff_item(o: DiffOptionsView) -> Result<ItemView, ErrorView> {
    match rel_dir_path(o.target) {
        Err(e) => Err(e),
        Ok(p) => Ok(
            command_item(
                "diff"@,
                seq![
                    opt_number_item(o.rev),
                    text_item(p),
                    ItemView::Bool(recurses(o.depth)),
                    ItemView::Bool(o.ignore_ancestry),
                    text_item(o.versus_url),
                    ItemView::Bool(o.text_deltas),
                    ItemView::Word(depth_word(o.depth)),
                ],
            ),
        ),
    }
}

/// Asks for a diff.
pub fn diff_request(o: &DiffOptions) -> (r: Result<SvnItem, SvnError>)
    ensures
        result_view(r) == diff_item(o.deep_view()),
{
    let p = match validate_rel_dir_path(&o.target) {
        Ok(p) => p,
        Err(e) => {
            return Err(e);
        },
    };
    Ok(
        command7(
            "diff",
            opt_number(o.rev),
            text(&p),
            SvnItem::Bool(o.depth.recurses()),
            SvnItem::Bool(o.ignore_ancestry),
            text(&o.versus_url),
            SvnItem::Bool(o.text_deltas),
            depth_item(o.depth),
        ),
    )
}

/// Asks for a replay.
pub open spec fn replay_item(o: ReplayOptionsView) -> ItemView {
    command_item(
        "replay"@,
        seq![
            ItemView::Number(o.revision),
            ItemView::Number(o.low_water_mark),
            ItemView::Bool(o.send_deltas),
        ],
    )
}

/// Asks for a replay.
pub fn replay_request(o: &ReplayOptions) -> (r: SvnItem)
    ensures
        r.deep_view() == replay_item(o.deep_view()),
{
    command3(
        "replay",
        SvnItem::Number(o.revision),
        SvnItem::Number(o.low_water_mark),
        SvnItem::Bool(o.send_deltas),
    )
}

/// Asks for a replay of revisions.
pub open spec fn replay_range_item(o: ReplayRangeOptionsView) -> Result<ItemView, ErrorView> {
    if o.end_rev < o.start_rev {
        Err(ErrorView::Protocol("end_rev must be greater than or equal to start_rev"@))
    } else {
        Ok(
            command_item(
                "replay-range"@,
                seq![
                    ItemView::Number(o.start_rev),
                    ItemView::Number(o.end_rev),
                    ItemView::Number(o.low_water_mark),
                    ItemView::Bool(o.send_deltas),
                ],
            ),
        )
    }
}

/// Asks for a replay of revisions.
pub fn replay_range_request(o: &ReplayRangeOptions) -> (r: Result<SvnItem, SvnError>)
    ensures
        result_view(r) == replay_range_item(o.deep_view()),
{
    if o.end_rev < o.start_rev {
        return Err(protocol("end_rev must be greater than or equal to start_rev"));
    }
    Ok(
        command4(
            "replay-range",
            SvnItem::Number(o.start_rev),
            SvnItem::Number(o.end_rev),
            SvnItem::Number(o.low_water_mark),
            SvnItem::Bool(o.send_deltas),
        ),
    )
}

/// Asks when a path was deleted.
pub open spec fn get_deleted_rev_item(
    path: Seq<char>,
    peg_rev: u64,
    end_rev: u64,
) -> Result<ItemView, ErrorView> {
    match rel_path(path) {
        Err(e) => Err(e),
        Ok(p) => Ok(
            command_item(
                "get-deleted-rev"@,
                seq![text_item(p), ItemView::Number(peg_rev), ItemView::Number(end_rev)],
            ),
        ),
    }
}

/// Asks when a path was deleted.
pub fn get_deleted_rev_request(
    path: &str,
    peg_rev: u64,
    end_rev: u64,
) -> (r: Result<SvnItem, SvnError>)
    ensures
        result_view(r) == get_deleted_rev_item(path@, peg_rev, end_rev),
{
    let p = match validate_rel_path(path) {
        Ok(p) => p,
        Err(e) => {
            return Err(e);
        },
    };
    Ok(command3("get-deleted-rev", text(&p), SvnItem::Number(peg_rev), SvnItem::Number(end_rev)))
}

/// Asks for a file with its text.
pub open spec fn get_file_item(
    path: Seq<char>,
    rev: u64,
    want_props: bool,
) -> Result<ItemView, ErrorView> {
    match rel_path(path) {
        Err(e) => Err(e),
        Ok(p) => Ok(
            command_item(
                "get-file"@,
                seq![
                    text_item(p),
                    opt_item(Some(ItemView::Number(rev))),
                    ItemView::Bool(want_props),
                    ItemView::Bool(true),
                    ItemView::Bool(false),
                ],
            ),
        ),
    }
}

/// Asks for a file with its text.
pub fn get_file_request(path: &str, rev: u64, want_props: bool) -> (r: Result<SvnItem, SvnError>)
    ensures
        result_view(r) == get_file_item(path@, rev, want_props),
{
    let p = match validate_rel_path(path) {
        Ok(p) => p,
        Err(e) => {
            return Err(e);
        },
    };
    Ok(
        command5(
            "get-file",
            text(&p),
            just(SvnItem::Number(rev)),
            SvnItem::Bool(want_props),
            SvnItem::Bool(true),
            SvnItem::Bool(false),
        ),
    )
}

/// Asks for the properties of a file.
pub open spec fn get_file_props_item(
    path: Seq<char>,
    rev: Option<u64>,
) -> Result<ItemView, ErrorView> {
    match rel_path(path) {
        Err(e) => Err(e),
        Ok(p) => Ok(
            command_item(
                "get-file"@,
                seq![
                    text_item(p),
                    opt_number_item(rev),
                    ItemView::Bool(true),
                    ItemView::Bool(false),
                    ItemView::Bool(false),
                ],
            ),
        ),
    }
}

/// Asks for the properties of a file.
pub fn get_file_props_request(path: &str, rev: Option<u64>) -> (r: Result<SvnItem, SvnError>)
    ensures
        result_view(r) == get_file_props_item(path@, rev),
{
    let p = match validate_rel_path(path) {
        Ok(p) => p,
        Err(e) => {
            return Err(e);
        },
    };
    Ok(
        command5(
            "get-file",
            text(&p),
            opt_number(rev),
            SvnItem::Bool(true),
            SvnItem::Bool(false),
            SvnItem::Bool(false),
        ),
    )
}

/// Asks for the properties of a directory.
pub open spec fn get_dir_props_item(
    path: Seq<char>,
    rev: Option<u64>,
) -> Result<ItemView, ErrorView> {
    match rel_dir_path(path) {
        Err(e) => Err(e),
        Ok(p) => Ok(
            command_item(
                "get-dir"@,
                seq![
                    text_item(p),
                    opt_number_item(rev),
                    ItemView::Bool(true),
                    ItemView::Bool(false),
                    opt_item(None),
                    ItemView::Bool(false),
                ],
            ),
        ),
    }
}

/// Asks for the properties of a directory.
pub fn get_dir_props_request(path: &str, rev: Option<u64>) -> (r: Result<SvnItem, SvnError>)
    ensures
        result_view(r) == get_dir_props_item(path@, rev),
{
    let p = match validate_rel_dir_path(path) {
        Ok(p) => p,
        Err(e) => {
            return Err(e);
        },
    };
    Ok(
        command6(
            "get-dir",
            text(&p),
            opt_number(rev),
            SvnItem::Bool(true),
            SvnItem::Bool(false),
            nothing(),
            SvnItem::Bool(false),
        ),
    )
}

/// Asks for the entries of a directory.
pub open spec fn list_dir_item(
    path: Seq<char>,
    rev: Option<u64>,
    fields: Seq<DirentField>,
) -> Result<ItemView, ErrorView> {
    match rel_dir_path(path) {
        Err(e) => Err(e),
        Ok(p) => Ok(
            command_item(
                "get-dir"@,
                seq![
                    text_item(p),
                    opt_number_item(rev),
                    ItemView::Bool(false),
                    ItemView::Bool(true),
                    field_items(fields),
                    ItemView::Bool(false),
                ],
            ),
        ),
    }
}

/// Asks for the entries of a directory.
pub fn list_dir_request(
    path: &str,
    rev: Option<u64>,
    fields: &[DirentField],
) -> (r: Result<SvnItem, SvnError>)
    ensures
        result_view(r) == list_dir_item(path@, rev, fields@),
{
    let p = match validate_rel_dir_path(path) {
        Ok(p) => p,
        Err(e) => {
            return Err(e);
        },
    };
    Ok(
        command6(
            "get-dir",
            text(&p),
            opt_number(rev),
            SvnItem::Bool(false),
            SvnItem::Bool(true),
            fields_item(fields),
            SvnItem::Bool(false),
        ),
    )
}

/// Asks for the properties of a revision.
pub open spec fn rev_proplist_item(rev: u64) -> ItemView {
    command_item("rev-proplist"@, seq![ItemView::Number(rev)])
}

/// Asks for the properties of a revision.
pub fn rev_proplist_request(rev: u64) -> (r: SvnItem)
    ensures
        r.deep_view() == rev_proplist_item(rev),
{
    command1("rev-proplist", SvnItem::Number(rev))
}

/// Asks for a property of a revision.
pub open spec fn rev_prop_item(rev: u64, name: Seq<char>) -> ItemView {
    command_item("rev-prop"@, seq![ItemView::Number(rev), text_item(name)])
}

/// Asks for a property of a revision.
pub fn rev_prop_request(rev: u64, name: &str) -> (r: SvnItem)
    ensures
        r.deep_view() == rev_prop_item(rev, name@),
{
    command2("rev-prop", SvnItem::Number(rev), text(name))
}

/// Asks for the properties that a node has from above.
pub open spec fn inherited_props_item(
    path: Seq<char>,
    rev: Option<u64>,
) -> Result<ItemView, ErrorView> {
    match rel_dir_path(path) {
        Err(e) => Err(e),
        Ok(p) => Ok(command_item("get-iprops"@, seq![text_item(p), opt_number_item(rev)])),
    }
}

/// Asks for the properties that a node has from above.
pub fn inherited_props_request(path: &str, rev: Option<u64>) -> (r: Result<SvnItem, SvnError>)
    ensures
        result_view(r) == inherited_props_item(path@, rev),
{
    let p = match validate_rel_dir_path(path) {
        Ok(p) => p,
        Err(e) => {
            return Err(e);
        },
    };
    Ok(command2("get-iprops", text(&p), opt_number(rev)))
}

/// Asks where a node was in revisions.
pub open spec fn get_locations_item(
    path: Seq<char>,
    peg_rev: u64,
    revs: Seq<u64>,
) -> Result<ItemView, ErrorView> {
    match rel_path(path) {
        Err(e) => Err(e),
        Ok(p) => Ok(
            command_item(
                "get-locations"@,
                seq![text_item(p), ItemView::Number(peg_rev), number_items(revs)],
            ),
        ),
    }
}

/// Asks where a node was in revisions.
pub fn get_locations_request(
    path: &str,
    peg_rev: u64,
    revs: &[u64],
) -> (r: Result<SvnItem, SvnError>)
    ensures
        result_view(r) == get_locations_item(path@, peg_rev, revs@),
{
    let p = match validate_rel_path(path) {
        Ok(p) => p,
        Err(e) => {
            return Err(e);
        },
    };
    Ok(command3("get-locations", text(&p), SvnItem::Number(peg_rev), numbers(revs)))
}

/// Asks where a node was over a range of revisions.
pub open spec fn get_location_segments_item(
    path: Seq<char>,
    peg_rev: u64,
    start_rev: Option<u64>,
    end_rev: Option<u64>,
) -> Result<ItemView, ErrorView> {
    match rel_path(path) {
        Err(e) => Err(e),
        Ok(p) => Ok(
            command_item(
                "get-location-segments"@,
                seq![
                    text_item(p),
                    opt_item(Some(ItemView::Number(peg_rev))),
                    opt_number_item(start_rev),
                    opt_number_item(end_rev),
                ],
            ),
        ),
    }
}

/// Asks where a node was over a range of revisions.
pub fn get_location_segments_request(
    path: &str,
    peg_rev: u64,
    start_rev: Option<u64>,
    end_rev: Option<u64>,
) -> (r: Result<SvnItem, SvnError>)
    ensures
        result_view(r) == get_location_segments_item(path@, peg_rev, start_rev, end_rev),
{
    let p = match validate_rel_path(path) {
        Ok(p) => p,
        Err(e) => {
            return Err(e);
        },
    };
    Ok(
        command4(
            "get-location-segments",
            text(&p),
            just(SvnItem::Number(peg_rev)),
            opt_number(start_rev),
            opt_number(end_rev),
        ),
    )
}

/// Asks for the revisions of a file.
pub open spec fn get_file_revs_item(
    path: Seq<char>,
    start_rev: Option<u64>,
    end_rev: Option<u64>,
    merged: bool,
) -> Result<ItemView, ErrorView> {
    match rel_path(path) {
        Err(e) => Err(e),
        Ok(p) => Ok(
            command_item(
                "get-file-revs"@,
                seq![
                    text_item(p),
                    opt_number_item(start_rev),
                    opt_number_item(end_rev),
                    ItemView::Bool(merged),
                ],
            ),
        ),
    }
}

/// Asks for the revisions of a file.
pub fn get_file_revs_request(
    path: &str,
    start_rev: Option<u64>,
    end_rev: Option<u64>,
    merged: bool,
) -> (r: Result<SvnItem, SvnError>)
    ensures
        result_view(r) == get_file_revs_item(path@, start_rev, end_rev, merged),
{
    let p = match validate_rel_path(path) {
        Ok(p) => p,
        Err(e) => {
            return Err(e);
        },
    };
    Ok(
        command4(
            "get-file-revs",
            text(&p),
            opt_number(start_rev),
            opt_number(end_rev),
            SvnItem::Bool(merged),
        ),
    )
}

/// Asks for the lock on a path.
pub open spec fn get_lock_item(path: Seq<char>) -> Result<ItemView, ErrorView> {
    match rel_path(path) {
        Err(e) => Err(e),
        Ok(p) => Ok(command_item("get-lock"@, seq![text_item(p)])),
    }
}

/// Asks for the lock on a path.
pub fn get_lock_request(path: &str) -> (r: Result<SvnItem, SvnError>)
    ensures
        result_view(r) == get_lock_item(path@),
{
    let p = match validate_rel_path(path) {
        Ok(p) => p,
        Err(e) => {
            return Err(e);
        },
    };
    Ok(command1("get-lock", text(&p)))
}

/// Asks for the locks below a path.
pub open spec fn get_locks_item(path: Seq<char>, depth: Depth) -> Result<ItemView, ErrorView> {
    match rel_dir_path(path) {
        Err(e) => Err(e),
        Ok(p) => Ok(
            command_item(
                "get-locks"@,
                seq![text_item(p), opt_item(Some(ItemView::Word(depth_word(depth))))],
            ),
        ),
    }
}

/// Asks for the locks below a path.
pub fn get_locks_request(path: &str, depth: Depth) -> (r: Result<SvnItem, SvnError>)
    ensures
        result_view(r) == get_locks_item(path@, depth),
{
    let p = match validate_rel_dir_path(path) {
        Ok(p) => p,
        Err(e) => {
            return Err(e);
        },
    };
    Ok(command2("get-locks", text(&p), just(depth_item(depth))))
}

/// Takes a lock.
pub open spec fn lock_item(path: Seq<char>, o: LockOptionsView) -> Result<ItemView, ErrorView> {
    match rel_path(path) {
        Err(e) => Err(e),
        Ok(p) => Ok(
            command_item(
                "lock"@,
                seq![
                    text_item(p),
                    opt_text_item(o.comment),
                    ItemView::Bool(o.steal_lock),
                    opt_number_item(o.current_rev),
                ],
            ),
        ),
    }
}

/// Takes a lock.
pub fn lock_request(path: &str, o: &LockOptions) -> (r: Result<SvnItem, SvnError>)
    ensures
        result_view(r) == lock_item(path@, o.deep_view()),
{
    let p = match validate_rel_path(path) {
        Ok(p) => p,
        Err(e) => {
            return Err(e);
        },
    };
    Ok(
        command4(
            "lock",
            text(&p),
            opt_text(&o.comment),
            SvnItem::Bool(o.steal_lock),
            opt_number(o.current_rev),
        ),
    )
}

/// Releases a lock.
pub open spec fn unlock_item(path: Seq<char>, o: UnlockOptionsView) -> Result<ItemView, ErrorView> {
    match rel_path(path) {
        Err(e) => Err(e),
        Ok(p) => Ok(
            command_item(
                "unlock"@,
                seq![text_item(p), opt_text_item(o.token), ItemView::Bool(o.break_lock)],
            ),
        ),
    }
}

/// Releases a lock.
pub fn unlock_request(path: &str, o: &UnlockOptions) -> (r: Result<SvnItem, SvnError>)
    ensures
        result_view(r) == unlock_item(path@, o.deep_view()),
{
    let p = match validate_rel_path(path) {
        Ok(p) => p,
        Err(e) => {
            return Err(e);
        },
    };
    Ok(command3("unlock", text(&p), opt_text(&o.token), SvnItem::Bool(o.break_lock)))
}

/// Asks of what kind a node is.
pub open spec fn check_path_item(path: Seq<char>, rev: Option<u64>) -> Result<ItemView, ErrorView> {
    match rel_dir_path(path) {
        Err(e) => Err(e),
        Ok(p) => Ok(command_item("check-path"@, seq![text_item(p), opt_number_item(rev)])),
    }
}

/// Asks of what kind a node is.
pub fn check_path_request(path: &str, rev: Option<u64>) -> (r: Result<SvnItem, SvnError>)
    ensures
        result_view(r) == check_path_item(path@, rev),
{
    let p = match validate_rel_dir_path(path) {
        Ok(p) => p,
        Err(e) => {
            return Err(e);
        },
    };
    Ok(command2("check-path", text(&p), opt_number(rev)))
}

/// Asks for a node.
pub open spec fn stat_item(path: Seq<char>, rev: Option<u64>) -> Result<ItemView, ErrorView> {
    match rel_dir_path(path) {
        Err(e) => Err(e),
        Ok(p) => Ok(command_item("stat"@, seq![text_item(p), opt_number_item(rev)])),
    }
}

/// Asks for a node.
pub fn stat_request(path: &str, rev: Option<u64>) -> (r: Result<SvnItem, SvnError>)
    ensures
        result_view(r) == stat_item(path@, rev),
{
    let p = match validate_rel_dir_path(path) {
        Ok(p) => p,
        Err(e) => {
            return Err(e);
        },
    };
    Ok(command2("stat", text(&p), opt_number(rev)))
}

/// Sets or deletes a property of a revision, if it has the value that is expected.
pub open spec fn change_rev_prop2_item(
    rev: u64,
    name: Seq<char>,
    value: Option<Seq<u8>>,
    dont_care: bool,
    previous: Option<Seq<u8>>,
) -> Result<ItemView, ErrorView> {
    if dont_care && previous is Some {
        Err(
            ErrorView::Protocol(
                "change-rev-prop2 previous_value must be None when dont_care is true"@,
            ),
        )
    } else {
        Ok(
            command_item(
                "change-rev-prop2"@,
                seq![
                    ItemView::Number(rev),
                    text_item(name),
                    opt_bytes_item(value),
                    condition_item(dont_care, previous),
                ],
            ),
        )
    }
}

/// Sets or deletes a property of a revision, if it has the value that is expected.
pub fn change_rev_prop2_request(
    rev: u64,
    name: &str,
    value: &Option<Vec<u8>>,
    dont_care: bool,
    previous: &Option<Vec<u8>>,
) -> (r: Result<SvnItem, SvnError>)
    ensures
        result_view(r) == change_rev_prop2_item(
            rev,
            name@,
            opt_bytes(*value),
            dont_care,
            opt_bytes(*previous),
        ),
{
    if dont_care && previous.is_some() {
        return Err(protocol("change-rev-prop2 previous_value must be None when dont_care is true"));
    }
    Ok(
        command4(
            "change-rev-prop2",
            SvnItem::Number(rev),
            text(name),
            opt_raw(value),
            condition(dont_care, previous),
        ),
    )
}

/// What must hold of a property before it is changed.
pub open spec fn condition_item(dont_care: bool, previous: Option<Seq<u8>>) -> ItemView {
    ItemView::List(
        match previous {
            Some(v) => seq![ItemView::Bool(dont_care), ItemView::String(v)],
            None => seq![ItemView::Bool(dont_care)],
        },
    )
}

fn condition(dont_care: bool, previous: &Option<Vec<u8>>) -> (r: SvnItem)
    ensures
        r.deep_view() == condition_item(dont_care, opt_bytes(*previous)),
{
    let mut items = vec![SvnItem::Bool(dont_care)];
    match previous {
        Some(v) => {
            items.push(SvnItem::String(copy_bytes(v)));
            assert(items.deep_view() =~= seq![ItemView::Bool(dont_care), ItemView::String(v@)]);
        },
        None => {
            assert(items.deep_view() =~= seq![ItemView::Bool(dont_care)]);
        },
    }
    list(items)
}

/// Sets or deletes a property of a revision.
pub open spec fn change_rev_prop_item(
    rev: u64,
    name: Seq<char>,
    value: Option<Seq<u8>>,
) -> ItemView {
    command_item(
        "change-rev-prop"@,
        match value {
            Some(v) => seq![ItemView::Number(rev), text_item(name), ItemView::String(v)],
            None => seq![ItemView::Number(rev), text_item(name)],
        },
    )
}

/// Sets or deletes a property of a revision.
pub fn change_rev_prop_request(rev: u64, name: &str, value: &Option<Vec<u8>>) -> (r: SvnItem)
    ensures
        r.deep_view() == change_rev_prop_item(rev, name@, opt_bytes(*value)),
{
    match value {
        Some(v) => command3(
            "change-rev-prop",
            SvnItem::Number(rev),
            text(name),
            SvnItem::String(copy_bytes(v)),
        ),
        None => command2("change-rev-prop", SvnItem::Number(rev), text(name)),
    }
}

/// Moves the session to another URL of the same server.
pub open spec fn reparent_item(current: UrlView, new: UrlView) -> Result<ItemView, ErrorView> {
    if new.host != current.host || new.port != current.port {
        Err(ErrorView::InvalidUrl("reparent requires same host and port"@))
    } else {
        Ok(command_item("reparent"@, seq![text_item(new.url)]))
    }
}

/// Moves the session to another URL of the same server.
pub fn reparent_request(current: &SvnUrl, new: &SvnUrl) -> (r: Result<SvnItem, SvnError>)
    ensures
        result_view(r) == reparent_item(current.deep_view(), new.deep_view()),
{
    if !crate::text::str_eq(&new.host, &current.host) || new.port != current.port {
        return Err(SvnError::InvalidUrl("reparent requires same host and port".to_owned()));
    }
    Ok(command1("reparent", text(&new.url)))
}

/// The first `n` paths, as the protocol takes them.
pub open spec fn rel_dir_paths(paths: Seq<Seq<char>>, n: int) -> Result<Seq<Seq<char>>, ErrorView>
    decreases n,
{
    if n <= 0 || n > paths.len() {
        Ok(Seq::empty())
    } else {
        match rel_dir_paths(paths, n - 1) {
            Err(e) => Err(e),
            Ok(v) => match rel_dir_path(paths[n - 1]) {
                Err(e) => Err(e),
                Ok(p) => Ok(v.push(p)),
            },
        }
    }
}

proof fn lemma_bad_path_stays(paths: Seq<Seq<char>>, n: int)
    requires
        0 <= n <= paths.len(),
        rel_dir_paths(paths, n) is Err,
    ensures
        rel_dir_paths(paths, paths.len() as int) == rel_dir_paths(paths, n),
    decreases paths.len() - n,
{
    if n < paths.len() {
        lemma_bad_path_stays(paths, n + 1);
    }
}

/// What checking paths gives.
pub open spec fn paths_are(
    r: Result<Vec<String>, SvnError>,
    v: Result<Seq<Seq<char>>, ErrorView>,
) -> bool {
    match r {
        Ok(p) => v == Ok::<Seq<Seq<char>>, ErrorView>(p.deep_view()),
        Err(e) => v == Err::<Seq<Seq<char>>, ErrorView>(e.deep_view()),
    }
}

fn check_dir_paths(paths: &[String]) -> (r: Result<Vec<String>, SvnError>)
    ensures
        paths_are(r, rel_dir_paths(paths.deep_view(), paths.deep_view().len() as int)),
{
    let mut out: Vec<String> = Vec::new();
    let ghost all = paths.deep_view();
    let mut n: usize = 0;
    assert(out.deep_view() =~= Seq::<Seq<char>>::empty());
    while n < paths.len()
        invariant
            n <= paths.len(),
            all == paths.deep_view(),
            rel_dir_paths(all, n as int) == Ok::<Seq<Seq<char>>, ErrorView>(out.deep_view()),
        decreases paths.len() - n,
    {
        assert(all[n as int] == paths@[n as int]@);
        let ghost before = out.deep_view();
        match validate_rel_dir_path(&paths[n]) {
            Ok(p) => {
                let ghost said = p@;
                out.push(p);
                assert(out.deep_view() =~= before.push(said));
            },
            Err(e) => {
                proof {
                    lemma_bad_path_stays(all, n + 1);
                }
                return Err(e);
            },
        }
        n = n + 1;
    }
    Ok(out)
}

/// Asks for the merge information of paths.
pub open spec fn get_mergeinfo_item(
    paths: Seq<Seq<char>>,
    rev: Option<u64>,
    inherit: MergeInfoInheritance,
    descendants: bool,
) -> Result<ItemView, ErrorView> {
    match rel_dir_paths(paths, paths.len() as int) {
        Err(e) => Err(e),
        Ok(v) => Ok(
            command_item(
                "get-mergeinfo"@,
                seq![
                    text_items(v),
                    opt_number_item(rev),
                    ItemView::Word(inheritance_word(inherit)),
                    ItemView::Bool(descendants),
                ],
            ),
        ),
    }
}

/// Asks for the merge information of paths.
pub fn get_mergeinfo_request(
    paths: &[String],
    rev: Option<u64>,
    inherit: MergeInfoInheritance,
    descendants: bool,
) -> (r: Result<SvnItem, SvnError>)
    ensures
        result_view(r) == get_mergeinfo_item(paths.deep_view(), rev, inherit, descendants),
{
    match check_dir_paths(paths) {
        Ok(v) => Ok(
            command4(
                "get-mergeinfo",
                texts(&v),
                opt_number(rev),
                word(inherit.as_word()),
                SvnItem::Bool(descendants),
            ),
        ),
        Err(e) => Err(e),
    }
}

/// Asks for the entries below a path that match one of the patterns; no patterns match
/// everything.
pub open spec fn list_item(
    path: Seq<char>,
    rev: Option<u64>,
    depth: Depth,
    fields: Seq<DirentField>,
    patterns: Seq<Seq<char>>,
) -> Result<ItemView, ErrorView> {
    match rel_dir_path(path) {
        Err(e) => Err(e),
        Ok(p) => {
            let first = seq![
                text_item(p),
                opt_number_item(rev),
                ItemView::Word(depth_word(depth)),
                field_items(fields),
            ];
            Ok(
                command_item(
                    "list"@,
                    if patterns.len() == 0 {
                        first
                    } else {
                        first.push(text_items(patterns))
                    },
                ),
            )
        },
    }
}

/// Asks for the entries below a path that match one of the patterns.
pub fn list_request(
    path: &str,
    rev: Option<u64>,
    depth: Depth,
    fields: &[DirentField],
    patterns: &[String],
) -> (r: Result<SvnItem, SvnError>)
    ensures
        result_view(r) == list_item(path@, rev, depth, fields@, patterns.deep_view()),
{
    let p = match validate_rel_dir_path(path) {
        Ok(p) => p,
        Err(e) => {
            return Err(e);
        },
    };
    let ghost first = seq![
        text_item(p@),
        opt_number_item(rev),
        ItemView::Word(depth_word(depth)),
        field_items(fields@),
    ];
    if patterns.len() == 0 {
        Ok(command4("list", text(&p), opt_number(rev), depth_item(depth), fields_item(fields)))
    } else {
        let r = command5(
            "list",
            text(&p),
            opt_number(rev),
            depth_item(depth),
            fields_item(fields),
            texts(patterns),
        );
        assert(first.push(text_items(patterns.deep_view())) =~= seq![
            text_item(p@),
            opt_number_item(rev),
            ItemView::Word(depth_word(depth)),
            field_items(fields@),
            text_items(patterns.deep_view()),
        ]);
        Ok(r)
    }
}

/// Asks for a part of the log.
pub open spec fn log_item(o: LogOptionsView) -> ItemView {
    let first = seq![
        text_items(o.target_paths),
        opt_number_item(o.start_rev),
        opt_number_item(o.end_rev),
        ItemView::Bool(o.changed_paths),
        ItemView::Bool(o.strict_node),
        ItemView::Number(o.limit),
        ItemView::Bool(o.include_merged_revisions),
    ];
    command_item(
        "log"@,
        match o.revprops {
            LogRevPropsView::All => first.push(ItemView::Word("all-revprops"@)),
            LogRevPropsView::Custom(names) => first.push(ItemView::Word("revprops"@)).push(
                text_items(names),
            ),
        },
    )
}

/// Asks for a part of the log.
pub fn log_request(o: &LogOptions) -> (r: SvnItem)
    ensures
        r.deep_view() == log_item(o.deep_view()),
{
    let mut params = vec![
        texts(&o.target_paths),
        opt_number(o.start_rev),
        opt_number(o.end_rev),
        SvnItem::Bool(o.changed_paths),
        SvnItem::Bool(o.strict_node),
        SvnItem::Number(o.limit),
        SvnItem::Bool(o.include_merged_revisions),
    ];
    let ghost first = params.deep_view();
    assert(first =~= seq![
        text_items(o.deep_view().target_paths),
        opt_number_item(o.start_rev),
        opt_number_item(o.end_rev),
        ItemView::Bool(o.changed_paths),
        ItemView::Bool(o.strict_node),
        ItemView::Number(o.limit),
        ItemView::Bool(o.include_merged_revisions),
    ]);
    match &o.revprops {
        LogRevProps::All => {
            params.push(word("all-revprops"));
            assert(params.deep_view() =~= first.push(ItemView::Word("all-revprops"@)));
        },
        LogRevProps::Custom(names) => {
            params.push(word("revprops"));
            params.push(texts(names));
            assert(params.deep_view() =~= first.push(ItemView::Word("revprops"@)).push(
                text_items(names.deep_view()),
            ));
        },
    }
    command("log", params)
}

/// The first `n` targets of locks as items.
pub open spec fn lock_targets(targets: Seq<LockTargetView>, n: int) -> Result<
    Seq<ItemView>,
    ErrorView,
>
    decreases n,
{
    if n <= 0 || n > targets.len() {
        Ok(Seq::empty())
    } else {
        match lock_targets(targets, n - 1) {
            Err(e) => Err(e),
            Ok(v) => match rel_path(targets[n - 1].path) {
                Err(e) => Err(e),
                Ok(p) => Ok(
                    v.push(
                        ItemView::List(
                            seq![text_item(p), opt_number_item(targets[n - 1].current_rev)],
                        ),
                    ),
                ),
            },
        }
    }
}

proof fn lemma_bad_lock_stays(targets: Seq<LockTargetView>, n: int)
    requires
        0 <= n <= targets.len(),
        lock_targets(targets, n) is Err,
    ensures
        lock_targets(targets, targets.len() as int) == lock_targets(targets, n),
    decreases targets.len() - n,
{
    if n < targets.len() {
        lemma_bad_lock_stays(targets, n + 1);
    }
}

/// Takes locks.
pub open spec fn lock_many_item(o: LockManyOptionsView, targets: Seq<LockTargetView>) -> Result<
    ItemView,
    ErrorView,
> {
    match lock_targets(targets, targets.len() as int) {
        Err(e) => Err(e),
        Ok(items) => Ok(
            command_item(
                "lock-many"@,
                seq![opt_text_item(o.comment), ItemView::Bool(o.steal_lock), ItemView::List(items)],
            ),
        ),
    }
}

/// A pair as an item.
fn pair(a: SvnItem, b: SvnItem) -> (r: SvnItem)
    ensures
        r.deep_view() == ItemView::List(seq![a.deep_view(), b.deep_view()]),
{
    let v = vec![a, b];
    assert(v.deep_view() =~= seq![a.deep_view(), b.deep_view()]);
    list(v)
}

/// Takes locks.
pub fn lock_many_request(o: &LockManyOptions, targets: &[LockTarget]) -> (r: Result<
    SvnItem,
    SvnError,
>)
    ensures
        result_view(r) == lock_many_item(o.deep_view(), targets.deep_view()),
{
    let mut items: Vec<SvnItem> = Vec::new();
    let ghost all = targets.deep_view();
    let mut n: usize = 0;
    assert(items.deep_view() =~= Seq::<ItemView>::empty());
    while n < targets.len()
        invariant
            n <= targets.len(),
            all == targets.deep_view(),
            lock_targets(all, n as int) == Ok::<Seq<ItemView>, ErrorView>(items.deep_view()),
        decreases targets.len() - n,
    {
        assert(all[n as int] == targets@[n as int].deep_view());
        let ghost before = items.deep_view();
        match validate_rel_path(&targets[n].path) {
            Ok(p) => {
                let item = pair(text(&p), opt_number(targets[n].current_rev));
                let ghost said = item.deep_view();
                items.push(item);
                assert(items.deep_view() =~= before.push(said));
            },
            Err(e) => {
                proof {
                    lemma_bad_lock_stays(all, n + 1);
                }
                return Err(e);
            },
        }
        n = n + 1;
    }
    Ok(command3("lock-many", opt_text(&o.comment), SvnItem::Bool(o.steal_lock), list(items)))
}

/// What is sent to take locks: nothing where there are none, and the answer is then
/// empty.
pub open spec fn lock_many_started(o: LockManyOptionsView, targets: Seq<LockTargetView>) -> Result<
    Option<ItemView>,
    ErrorView,
> {
    if targets.len() == 0 {
        Ok(None)
    } else {
        match lock_many_item(o, targets) {
            Ok(i) => Ok(Some(i)),
            Err(e) => Err(e),
        }
    }
}

/// What is sent to take locks: nothing where there are none, and the answer is then
/// empty.
pub fn lock_many_start(o: &LockManyOptions, targets: &[LockTarget]) -> (r: Result<
    Option<SvnItem>,
    SvnError,
>)
    ensures
        result_view(r) == lock_many_started(o.deep_view(), targets.deep_view()),
{
    if targets.len() == 0 {
        return Ok(None);
    }
    match lock_many_request(o, targets) {
        Ok(i) => Ok(Some(i)),
        Err(e) => Err(e),
    }
}

/// The first `n` targets of releases as items.
pub open spec fn unlock_targets(targets: Seq<UnlockTargetView>, n: int) -> Result<
    Seq<ItemView>,
    ErrorView,
>
    decreases n,
{
    if n <= 0 || n > targets.len() {
        Ok(Seq::empty())
    } else {
        match unlock_targets(targets, n - 1) {
            Err(e) => Err(e),
            Ok(v) => match rel_path(targets[n - 1].path) {
                Err(e) => Err(e),
                Ok(p) => Ok(
                    v.push(
                        ItemView::List(seq![text_item(p), opt_text_item(targets[n - 1].token)]),
                    ),
                ),
            },
        }
    }
}

proof fn lemma_bad_unlock_stays(targets: Seq<UnlockTargetView>, n: int)
    requires
        0 <= n <= targets.len(),
        unlock_targets(targets, n) is Err,
    ensures
        unlock_targets(targets, targets.len() as int) == unlock_targets(targets, n),
    decreases targets.len() - n,
{
    if n < targets.len() {
        lemma_bad_unlock_stays(targets, n + 1);
    }
}

/// Releases locks.
pub open spec fn unlock_many_item(
    o: UnlockManyOptionsView,
    targets: Seq<UnlockTargetView>,
) -> Result<ItemView, ErrorView> {
    match unlock_targets(targets, targets.len() as int) {
        Err(e) => Err(e),
        Ok(items) => Ok(
            command_item(
                "unlock-many"@,
                seq![ItemView::Bool(o.break_lock), ItemView::List(items)],
            ),
        ),
    }
}

/// Releases locks.
pub fn unlock_many_request(o: &UnlockManyOptions, targets: &[UnlockTarget]) -> (r: Result<
    SvnItem,
    SvnError,
>)
    ensures
        result_view(r) == unlock_many_item(o.deep_view(), targets.deep_view()),
{
    let mut items: Vec<SvnItem> = Vec::new();
    let ghost all = targets.deep_view();
    let mut n: usize = 0;
    assert(items.deep_view() =~= Seq::<ItemView>::empty());
    while n < targets.len()
        invariant
            n <= targets.len(),
            all == targets.deep_view(),
            unlock_targets(all, n as int) == Ok::<Seq<ItemView>, ErrorView>(items.deep_view()),
        decreases targets.len() - n,
    {
        assert(all[n as int] == targets@[n as int].deep_view());
        let ghost before = items.deep_view();
        match validate_rel_path(&targets[n].path) {
            Ok(p) => {
                let item = pair(text(&p), opt_text(&targets[n].token));
                let ghost said = item.deep_view();
                items.push(item);
                assert(items.deep_view() =~= before.push(said));
            },
            Err(e) => {
                proof {
                    lemma_bad_unlock_stays(all, n + 1);
                }
                return Err(e);
            },
        }
        n = n + 1;
    }
    Ok(command2("unlock-many", SvnItem::Bool(o.break_lock), list(items)))
}

/// What is sent to release locks: nothing where there are none, and the answer is then
/// empty.
pub open spec fn unlock_many_started(
    o: UnlockManyOptionsView,
    targets: Seq<UnlockTargetView>,
) -> Result<Option<ItemView>, ErrorView> {
    if targets.len() == 0 {
        Ok(None)
    } else {
        match unlock_many_item(o, targets) {
            Ok(i) => Ok(Some(i)),
            Err(e) => Err(e),
        }
    }
}

/// What is sent to release locks: nothing where there are none, and the answer is then
/// empty.
pub fn unlock_many_start(o: &UnlockManyOptions, targets: &[UnlockTarget]) -> (r: Result<
    Option<SvnItem>,
    SvnError,
>)
    ensures
        result_view(r) == unlock_many_started(o.deep_view(), targets.deep_view()),
{
    if targets.len() == 0 {
        return Ok(None);
    }
    match unlock_many_request(o, targets) {
        Ok(i) => Ok(Some(i)),
        Err(e) => Err(e),
    }
}

/// Locks on many paths as locks on one path each.
pub open spec fn single_locks(o: LockManyOptionsView, targets: Seq<LockTargetView>) -> Seq<
    (Seq<char>, LockOptionsView),
> {
    targets.map_values(
        |t: LockTargetView|
            (
                t.path,
                LockOptionsView {
                    comment: o.comment,
                    steal_lock: o.steal_lock,
                    current_rev: t.current_rev,
                },
            ),
    )
}

/// The locks to take one by one where the server cannot take many at once.
pub fn lock_one_by_one(o: &LockManyOptions, targets: &[LockTarget]) -> (r: Vec<
    (String, LockOptions),
>)
    ensures
        r.deep_view() == single_locks(o.deep_view(), targets.deep_view()),
{
    let mut out: Vec<(String, LockOptions)> = Vec::new();
    let ghost all = single_locks(o.deep_view(), targets.deep_view());
    let mut n: usize = 0;
    assert(out.deep_view() =~= all.take(0));
    while n < targets.len()
        invariant
            n <= targets.len(),
            all == single_locks(o.deep_view(), targets.deep_view()),
            out.deep_view() == all.take(n as int),
        decreases targets.len() - n,
    {
        let t = &targets[n];
        assert(targets.deep_view()[n as int] == t.deep_view());
        let one = LockOptions {
            comment: clone_text(&o.comment),
            steal_lock: o.steal_lock,
            current_rev: t.current_rev,
        };
        let ghost before = out.deep_view();
        let entry = (t.path.clone(), one);
        let ghost said = entry.deep_view();
        out.push(entry);
        n = n + 1;
        assert(out.deep_view() =~= before.push(said));
        assert(said == all[n - 1]);
        assert(all.take(n as int) =~= all.take(n - 1).push(all[n - 1]));
    }
    assert(all.take(n as int) =~= all);
    out
}

/// Releases of the locks on many paths as releases of one lock each, from the target
/// `i` on.
pub open spec fn single_unlocks(
    o: UnlockManyOptionsView,
    targets: Seq<UnlockTargetView>,
    i: int,
    before: Seq<(Seq<char>, UnlockOptionsView)>,
) -> Result<Seq<(Seq<char>, UnlockOptionsView)>, ErrorView>
    decreases targets.len() - i,
{
    if i < 0 || i >= targets.len() {
        Ok(before)
    } else {
        match rel_path(targets[i].path) {
            Err(e) => Err(e),
            Ok(p) => single_unlocks(
                o,
                targets,
                i + 1,
                before.push(
                    (p, UnlockOptionsView { token: targets[i].token, break_lock: o.break_lock }),
                ),
            ),
        }
    }
}

/// The locks to release one by one where the server cannot release many at once. A
/// release that succeeds gives its path.
pub fn unlock_one_by_one(o: &UnlockManyOptions, targets: &[UnlockTarget]) -> (r: Result<
    Vec<(String, UnlockOptions)>,
    SvnError,
>)
    ensures
        result_view(r) == single_unlocks(o.deep_view(), targets.deep_view(), 0, Seq::empty()),
{
    let mut out: Vec<(String, UnlockOptions)> = Vec::new();
    let ghost all = targets.deep_view();
    let mut n: usize = 0;
    assert(out.deep_view() =~= Seq::<(Seq<char>, UnlockOptionsView)>::empty());
    while n < targets.len()
        invariant
            n <= targets.len(),
            all == targets.deep_view(),
            single_unlocks(o.deep_view(), all, n as int, out.deep_view()) == single_unlocks(
                o.deep_view(),
                all,
                0,
                Seq::empty(),
            ),
        decreases targets.len() - n,
    {
        let t = &targets[n];
        assert(all[n as int] == t.deep_view());
        match validate_rel_path(&t.path) {
            Err(e) => {
                return Err(e);
            },
            Ok(p) => {
                let one = UnlockOptions { token: clone_text(&t.token), break_lock: o.break_lock };
                let ghost before = out.deep_view();
                let entry = (p, one);
                let ghost said = entry.deep_view();
                out.push(entry);
                assert(out.deep_view() =~= before.push(said));
            },
        }
        n = n + 1;
    }
    Ok(out)
}

} // verus!
