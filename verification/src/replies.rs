//! Reading what a server answers.

use vstd::prelude::*;

use crate::commit_drive::under;
use crate::edit::nth_tuple_string;
use crate::error::{protocol, result_view, ErrorView, SvnError};
use crate::keymap::KeyMap;
use crate::parse::{
    bool_at, item_at, list_at, nth, nth_bool, nth_list, nth_number, nth_string, nth_word,
    number_at, opt_tuple_string, opt_tuple_u64, opt_tuple_wordish, parse_proplist, proplist,
    string_at, tuple_number, tuple_word, word_at,
};
use crate::raw::{bool_of, list_of, ItemView, SvnItem};
use crate::results::{
    catalog_view, iprops_wf, CommitInfo, CommitInfoView, DirEntry, DirEntryView, DirListing,
    DirListingView, FileMeta, FileMetaView, InheritedProps, InheritedPropsView, LocationEntry,
    LocationEntryView, LocationSegment, LocationSegmentView, LockDesc, LockDescView,
    MergeInfoCatalog, StatEntry, StatEntryView,
};
use crate::text::{cat3, chars_of, rfind, rfind_char, slice_text, strip_leading, without_leading};
use crate::types::{kind_from_word, NodeKind};

verus! {

/// The number that the `i`-th item is, or that is the first of a list.
pub open spec fn nth_tuple_number(items: Seq<ItemView>, i: int) -> Option<u64> {
    match nth(items, i) {
        Some(x) => tuple_number(x),
        None => None,
    }
}

/// The truth value that the `i`-th item is, or that is the first of a list.
pub open spec fn nth_tuple_bool(items: Seq<ItemView>, i: int) -> Option<bool> {
    match nth(items, i) {
        Some(ItemView::List(v)) => nth_bool(v, 0),
        Some(x) => bool_of(x),
        None => None,
    }
}

/// The word that the `i`-th item is, or that is the first of a list.
pub open spec fn nth_tuple_word(items: Seq<ItemView>, i: int) -> Option<Seq<char>> {
    match nth(items, i) {
        Some(x) => tuple_word(x),
        None => None,
    }
}

fn opt_number_at(items: &[SvnItem], i: usize) -> (r: Option<u64>)
    ensures
        r == nth_tuple_number(items.deep_view(), i as int),
{
    match item_at(items, i) {
        Some(x) => opt_tuple_u64(x),
        None => None,
    }
}

fn opt_bool_at(items: &[SvnItem], i: usize) -> (r: Option<bool>)
    ensures
        r == nth_tuple_bool(items.deep_view(), i as int),
{
    match item_at(items, i) {
        Some(x) => match x.as_list() {
            Some(v) => bool_at(v, 0),
            None => x.as_bool(),
        },
        None => None,
    }
}

fn opt_word_at(items: &[SvnItem], i: usize) -> (r: Option<String>)
    ensures
        r.deep_view() == nth_tuple_word(items.deep_view(), i as int),
{
    match item_at(items, i) {
        Some(x) => opt_tuple_wordish(x),
        None => None,
    }
}

fn opt_string_at(items: &[SvnItem], i: usize) -> (r: Option<String>)
    ensures
        r.deep_view() == nth_tuple_string(items.deep_view(), i as int),
{
    match item_at(items, i) {
        Some(x) => opt_tuple_string(x),
        None => None,
    }
}

/// A path without leading slashes.
pub open spec fn no_slash(s: Seq<char>) -> Seq<char> {
    strip_leading(s, '/')
}

/// A truth value that is false where it is missing.
pub open spec fn or_false(b: Option<bool>) -> bool {
    match b {
        Some(x) => x,
        None => false,
    }
}

/// A lock.
pub open spec fn lockdesc(item: ItemView) -> Result<LockDescView, ErrorView> {
    match list_of(item) {
        None => Err(ErrorView::Protocol("lockdesc not a list"@)),
        Some(v) => match nth_string(v, 0) {
            None => Err(ErrorView::Protocol("lockdesc path not a string"@)),
            Some(path) => match nth_string(v, 1) {
                None => Err(ErrorView::Protocol("lockdesc token not a string"@)),
                Some(token) => match nth_string(v, 2) {
                    None => Err(ErrorView::Protocol("lockdesc owner not a string"@)),
                    Some(owner) => match nth_string(v, 4) {
                        None => Err(ErrorView::Protocol("lockdesc created not a string"@)),
                        Some(created) => Ok(
                            LockDescView {
                                path: no_slash(path),
                                token,
                                owner,
                                comment: nth_tuple_string(v, 3),
                                created,
                                expires: nth_tuple_string(v, 5),
                            },
                        ),
                    },
                },
            },
        },
    }
}

/// Reads a lock.
pub fn parse_lockdesc(item: &SvnItem) -> (r: Result<LockDesc, SvnError>)
    ensures
        result_view(r) == lockdesc(item.deep_view()),
{
    let v = match item.as_list() {
        Some(v) => v,
        None => {
            return Err(protocol("lockdesc not a list"));
        },
    };
    let path = match string_at(v, 0) {
        Some(s) => s,
        None => {
            return Err(protocol("lockdesc path not a string"));
        },
    };
    let token = match string_at(v, 1) {
        Some(s) => s,
        None => {
            return Err(protocol("lockdesc token not a string"));
        },
    };
    let owner = match string_at(v, 2) {
        Some(s) => s,
        None => {
            return Err(protocol("lockdesc owner not a string"));
        },
    };
    let created = match string_at(v, 4) {
        Some(s) => s,
        None => {
            return Err(protocol("lockdesc created not a string"));
        },
    };
    Ok(
        LockDesc {
            path: without_leading(&path, '/'),
            token,
            owner,
            comment: opt_string_at(v, 3),
            created,
            expires: opt_string_at(v, 5),
        },
    )
}

/// A place where a node was.
pub open spec fn location_entry(v: Seq<ItemView>) -> Result<LocationEntryView, ErrorView> {
    match nth_number(v, 0) {
        None => Err(ErrorView::Protocol("location entry rev not a number"@)),
        Some(rev) => match nth_string(v, 1) {
            None => Err(ErrorView::Protocol("location entry path not a string"@)),
            Some(path) => Ok(LocationEntryView { rev, path: no_slash(path) }),
        },
    }
}

/// Reads a place where a node was.
pub fn parse_location_entry(v: &[SvnItem]) -> (r: Result<LocationEntry, SvnError>)
    ensures
        result_view(r) == location_entry(v.deep_view()),
{
    match number_at(v, 0) {
        None => Err(protocol("location entry rev not a number")),
        Some(rev) => match string_at(v, 1) {
            None => Err(protocol("location entry path not a string")),
            Some(path) => Ok(LocationEntry { rev, path: without_leading(&path, '/') }),
        },
    }
}

/// A place where a node was over a range of revisions.
pub open spec fn location_segment(v: Seq<ItemView>) -> Result<LocationSegmentView, ErrorView> {
    match nth_number(v, 0) {
        None => Err(ErrorView::Protocol("location segment start not a number"@)),
        Some(range_start) => match nth_number(v, 1) {
            None => Err(ErrorView::Protocol("location segment end not a number"@)),
            Some(range_end) => Ok(
                LocationSegmentView { range_start, range_end, path: nth_tuple_string(v, 2) },
            ),
        },
    }
}

/// Reads a place where a node was over a range of revisions.
pub fn parse_location_segment(v: &[SvnItem]) -> (r: Result<LocationSegment, SvnError>)
    ensures
        result_view(r) == location_segment(v.deep_view()),
{
    match number_at(v, 0) {
        None => Err(protocol("location segment start not a number")),
        Some(range_start) => match number_at(v, 1) {
            None => Err(protocol("location segment end not a number")),
            Some(range_end) => Ok(
                LocationSegment { range_start, range_end, path: opt_string_at(v, 2) },
            ),
        },
    }
}

/// What a commit made.
pub open spec fn commit_info(item: ItemView) -> Result<CommitInfoView, ErrorView> {
    match list_of(item) {
        None => Err(ErrorView::Protocol("commit info not a list"@)),
        Some(v) => match nth_number(v, 0) {
            None => Err(ErrorView::Protocol("commit info rev not a number"@)),
            Some(new_rev) => Ok(
                CommitInfoView {
                    new_rev,
                    date: nth_tuple_string(v, 1),
                    author: nth_tuple_string(v, 2),
                    post_commit_err: nth_tuple_string(v, 3),
                },
            ),
        },
    }
}

/// Reads what a commit made.
pub fn parse_commit_info(item: &SvnItem) -> (r: Result<CommitInfo, SvnError>)
    ensures
        result_view(r) == commit_info(item.deep_view()),
{
    match item.as_list() {
        None => Err(protocol("commit info not a list")),
        Some(v) => match number_at(v, 0) {
            None => Err(protocol("commit info rev not a number")),
            Some(new_rev) => Ok(
                CommitInfo {
                    new_rev,
                    date: opt_string_at(v, 1),
                    author: opt_string_at(v, 2),
                    post_commit_err: opt_string_at(v, 3),
                },
            ),
        },
    }
}

/// The kind that the `i`-th item names.
pub open spec fn nth_kind(v: Seq<ItemView>, i: int) -> NodeKind {
    match nth_tuple_word(v, i) {
        Some(w) => kind_from_word(w),
        None => NodeKind::Unknown,
    }
}

fn kind_at(v: &[SvnItem], i: usize) -> (r: NodeKind)
    ensures
        r == nth_kind(v.deep_view(), i as int),
{
    match opt_word_at(v, i) {
        Some(w) => NodeKind::from_word(&w),
        None => NodeKind::Unknown,
    }
}

/// What an answer says of a node, if it says anything.
pub open spec fn stat_entry(params: Seq<ItemView>) -> Option<StatEntryView> {
    match nth_list(params, 0) {
        None => None,
        Some(v) => match nth_word(v, 0) {
            None => None,
            Some(kind) => Some(
                StatEntryView {
                    kind: kind_from_word(kind),
                    size: nth_tuple_number(v, 1),
                    has_props: nth_tuple_bool(v, 2),
                    created_rev: nth_tuple_number(v, 3),
                    created_date: nth_tuple_string(v, 4),
                    last_author: nth_tuple_string(v, 5),
                },
            ),
        },
    }
}

/// Reads what an answer says of a node.
pub fn parse_stat_params(params: &[SvnItem]) -> (r: Option<StatEntry>)
    ensures
        r.deep_view() == stat_entry(params.deep_view()),
{
    match list_at(params, 0) {
        None => None,
        Some(v) => match word_at(v, 0) {
            None => None,
            Some(kind) => Some(
                StatEntry {
                    kind: NodeKind::from_word(&kind),
                    size: opt_number_at(v, 1),
                    has_props: opt_bool_at(v, 2),
                    created_rev: opt_number_at(v, 3),
                    created_date: opt_string_at(v, 4),
                    last_author: opt_string_at(v, 5),
                },
            ),
        },
    }
}

/// The last part of a path.
pub open spec fn last_part(path: Seq<char>) -> Seq<char> {
    path.skip(rfind(path, '/', path.len() as int) + 1)
}

fn name_of(path: &str) -> (r: String)
    ensures
        r@ == last_part(path@),
{
    let cs = chars_of(path);
    let n = cs.len();
    match rfind_char(&cs, '/') {
        Some(i) => {
            assert(cs@.subrange(i + 1, n as int) =~= path@.skip(i + 1));
            slice_text(&cs, i + 1, n)
        },
        None => {
            proof {
                lemma_rfind_none(path@, '/', path@.len() as int);
            }
            assert(path@.skip(0) =~= path@);
            path.to_owned()
        },
    }
}

proof fn lemma_rfind_none(s: Seq<char>, c: char, i: int)
    ensures
        rfind(s, c, i) >= -1,
    decreases i,
{
    if 0 < i <= s.len() {
        lemma_rfind_none(s, c, i - 1);
    }
}

/// An entry with the fields that come behind its name.
pub open spec fn entry_fields(name: Seq<char>, path: Seq<char>, v: Seq<ItemView>) -> DirEntryView {
    DirEntryView {
        name,
        path,
        kind: nth_kind(v, 1),
        size: nth_tuple_number(v, 2),
        has_props: nth_tuple_bool(v, 3),
        created_rev: nth_tuple_number(v, 4),
        created_date: nth_tuple_string(v, 5),
        last_author: nth_tuple_string(v, 6),
    }
}

fn read_entry(name: String, path: String, v: &[SvnItem]) -> (r: DirEntry)
    ensures
        r.deep_view() == entry_fields(name@, path@, v.deep_view()),
{
    DirEntry {
        name,
        path,
        kind: kind_at(v, 1),
        size: opt_number_at(v, 2),
        has_props: opt_bool_at(v, 3),
        created_rev: opt_number_at(v, 4),
        created_date: opt_string_at(v, 5),
        last_author: opt_string_at(v, 6),
    }
}

/// An entry of a listing that names whole paths.
pub open spec fn list_dirent(v: Seq<ItemView>) -> Result<DirEntryView, ErrorView> {
    match nth_string(v, 0) {
        None => Err(ErrorView::Protocol("list dirent path not a string"@)),
        Some(path) => Ok(entry_fields(last_part(no_slash(path)), no_slash(path), v)),
    }
}

/// Reads an entry of a listing that names whole paths.
pub fn parse_list_dirent(v: &[SvnItem]) -> (r: Result<DirEntry, SvnError>)
    ensures
        result_view(r) == list_dirent(v.deep_view()),
{
    match string_at(v, 0) {
        None => Err(protocol("list dirent path not a string")),
        Some(path) => {
            let p = without_leading(&path, '/');
            Ok(read_entry(name_of(&p), p, v))
        },
    }
}

/// The entries of a directory from index `i` on, behind those that were read before.
pub open spec fn entries_from(
    dir: Seq<char>,
    items: Seq<ItemView>,
    i: int,
    before: Seq<DirEntryView>,
) -> Result<Seq<DirEntryView>, ErrorView>
    decreases items.len() - i,
{
    if i < 0 || i >= items.len() {
        Ok(before)
    } else {
        match list_of(items[i]) {
            None => Err(ErrorView::Protocol("dirent not a list"@)),
            Some(v) => match nth_string(v, 0) {
                None => Err(ErrorView::Protocol("dirent name not a string"@)),
                Some(name) => entries_from(
                    dir,
                    items,
                    i + 1,
                    before.push(entry_fields(name, under(dir, name), v)),
                ),
            },
        }
    }
}

/// A directory.
pub open spec fn dir_listing(dir: Seq<char>, params: Seq<ItemView>) -> Result<
    DirListingView,
    ErrorView,
> {
    match nth_number(params, 0) {
        None => Err(ErrorView::Protocol("get-dir response missing rev"@)),
        Some(rev) => match nth_list(params, 2) {
            None => Err(ErrorView::Protocol("get-dir response missing entries"@)),
            Some(items) => match entries_from(dir, items, 0, Seq::empty()) {
                Ok(entries) => Ok(DirListingView { rev, entries }),
                Err(e) => Err(e),
            },
        },
    }
}

/// Reads a directory.
pub fn parse_get_dir_listing(dir: &str, params: &[SvnItem]) -> (r: Result<DirListing, SvnError>)
    ensures
        result_view(r) == dir_listing(dir@, params.deep_view()),
{
    let rev = match number_at(params, 0) {
        Some(n) => n,
        None => {
            return Err(protocol("get-dir response missing rev"));
        },
    };
    let items = match list_at(params, 2) {
        Some(v) => v,
        None => {
            return Err(protocol("get-dir response missing entries"));
        },
    };
    let ghost all = items.deep_view();
    let mut entries: Vec<DirEntry> = Vec::new();
    let mut i: usize = 0;
    assert(entries.deep_view() =~= Seq::<DirEntryView>::empty());
    while i < items.len()
        invariant
            i <= items.len(),
            all == items.deep_view(),
            nth_number(params.deep_view(), 0) == Some(rev),
            nth_list(params.deep_view(), 2) == Some(all),
            entries_from(dir@, all, i as int, entries.deep_view()) == entries_from(
                dir@,
                all,
                0,
                Seq::empty(),
            ),
        decreases items.len() - i,
    {
        assert(all[i as int] == items@[i as int].deep_view());
        let v = match items[i].as_list() {
            Some(v) => v,
            None => {
                return Err(protocol("dirent not a list"));
            },
        };
        let name = match string_at(v, 0) {
            Some(s) => s,
            None => {
                return Err(protocol("dirent name not a string"));
            },
        };
        let path = if dir.is_empty() {
            name.clone()
        } else {
            cat3(dir, "/", &name)
        };
        let ghost before = entries.deep_view();
        let e = read_entry(name, path, v);
        let ghost said = e.deep_view();
        entries.push(e);
        assert(entries.deep_view() =~= before.push(said));
        i = i + 1;
    }
    Ok(DirListing { rev, entries })
}

/// The inherited properties from index `i` on, behind those that were read before.
pub open spec fn iprops_from(
    items: Seq<ItemView>,
    i: int,
    before: Seq<InheritedPropsView>,
) -> Result<Seq<InheritedPropsView>, ErrorView>
    decreases items.len() - i,
{
    if i < 0 || i >= items.len() {
        Ok(before)
    } else {
        match list_of(items[i]) {
            None => Err(ErrorView::Protocol("iproplist entry not a list"@)),
            Some(v) => match nth_string(v, 0) {
                None => Err(ErrorView::Protocol("iproplist path not a string"@)),
                Some(path) => match nth(v, 1) {
                    None => Err(ErrorView::Protocol("iproplist entry missing proplist"@)),
                    Some(p) => match proplist(p) {
                        Err(e) => Err(e),
                        Ok(props) => iprops_from(
                            items,
                            i + 1,
                            before.push(InheritedPropsView { path, props }),
                        ),
                    },
                },
            },
        }
    }
}

/// Inherited properties.
pub open spec fn iproplist(item: ItemView) -> Result<Seq<InheritedPropsView>, ErrorView> {
    match list_of(item) {
        None => Err(ErrorView::Protocol("iproplist not a list"@)),
        Some(items) => iprops_from(items, 0, Seq::empty()),
    }
}

/// Reads inherited properties.
pub fn parse_iproplist(item: &SvnItem) -> (r: Result<Vec<InheritedProps>, SvnError>)
    ensures
        result_view(r) == iproplist(item.deep_view()),
        r matches Ok(v) ==> iprops_wf(v@),
{
    let items = match item.as_list() {
        Some(v) => v,
        None => {
            return Err(protocol("iproplist not a list"));
        },
    };
    let ghost all = items.deep_view();
    let mut out: Vec<InheritedProps> = Vec::new();
    let mut i: usize = 0;
    assert(out.deep_view() =~= Seq::<InheritedPropsView>::empty());
    while i < items.len()
        invariant
            i <= items.len(),
            all == items.deep_view(),
            list_of(item.deep_view()) == Some(all),
            iprops_from(all, i as int, out.deep_view()) == iprops_from(all, 0, Seq::empty()),
            iprops_wf(out@),
        decreases items.len() - i,
    {
        assert(all[i as int] == items@[i as int].deep_view());
        let v = match items[i].as_list() {
            Some(v) => v,
            None => {
                return Err(protocol("iproplist entry not a list"));
            },
        };
        let path = match string_at(v, 0) {
            Some(s) => s,
            None => {
                return Err(protocol("iproplist path not a string"));
            },
        };
        let p = match item_at(v, 1) {
            Some(x) => x,
            None => {
                return Err(protocol("iproplist entry missing proplist"));
            },
        };
        let props = match parse_proplist(p) {
            Ok(x) => x,
            Err(e) => {
                return Err(e);
            },
        };
        let ghost before = out.deep_view();
        let e = InheritedProps { path, props };
        let ghost said = e.deep_view();
        out.push(e);
        assert(out.deep_view() =~= before.push(said));
        i = i + 1;
    }
    Ok(out)
}

/// What comes before the text of a file.
pub open spec fn file_meta(params: Seq<ItemView>) -> Result<FileMetaView, ErrorView> {
    match nth_number(params, 1) {
        None => Err(ErrorView::Protocol("get-file response missing rev"@)),
        Some(rev) => match nth(params, 2) {
            None => Err(ErrorView::Protocol("get-file response missing props"@)),
            Some(p) => match proplist(p) {
                Err(e) => Err(e),
                Ok(props) => {
                    let iprops = match nth_list(params, 3) {
                        Some(items) => iprops_from(items, 0, Seq::empty()),
                        None => Ok(Seq::empty()),
                    };
                    match iprops {
                        Err(e) => Err(e),
                        Ok(inherited_props) => Ok(
                            FileMetaView {
                                rev,
                                checksum: nth_tuple_string(params, 0),
                                props,
                                inherited_props,
                            },
                        ),
                    }
                },
            },
        },
    }
}

/// Reads what comes before the text of a file.
pub fn parse_get_file_response_params(params: &[SvnItem]) -> (r: Result<FileMeta, SvnError>)
    ensures
        result_view(r) == file_meta(params.deep_view()),
        r matches Ok(m) ==> m.props.wf() && iprops_wf(m.inherited_props@),
{
    let rev = match number_at(params, 1) {
        Some(n) => n,
        None => {
            return Err(protocol("get-file response missing rev"));
        },
    };
    let p = match item_at(params, 2) {
        Some(x) => x,
        None => {
            return Err(protocol("get-file response missing props"));
        },
    };
    let props = match parse_proplist(p) {
        Ok(x) => x,
        Err(e) => {
            return Err(e);
        },
    };
    let mut inherited_props: Vec<InheritedProps> = Vec::new();
    assert(inherited_props.deep_view() =~= Seq::<InheritedPropsView>::empty());
    if let Some(x) = item_at(params, 3) {
        if x.as_list().is_some() {
            match parse_iproplist(x) {
                Ok(v) => {
                    inherited_props = v;
                },
                Err(e) => {
                    return Err(e);
                },
            }
        }
    }
    Ok(FileMeta { rev, checksum: opt_string_at(params, 0), props, inherited_props })
}

/// What merge information says, from index `i` on.
pub open spec fn mergeinfo_from(
    items: Seq<ItemView>,
    i: int,
    before: Map<Seq<char>, Seq<char>>,
) -> Result<Map<Seq<char>, Seq<char>>, ErrorView>
    decreases items.len() - i,
{
    if i < 0 || i >= items.len() {
        Ok(before)
    } else {
        match list_of(items[i]) {
            None => Err(ErrorView::Protocol("mergeinfo entry not a list"@)),
            Some(v) => match nth_string(v, 0) {
                None => Err(ErrorView::Protocol("mergeinfo path not a string"@)),
                Some(path) => match nth_string(v, 1) {
                    None => Err(ErrorView::Protocol("mergeinfo value not a string"@)),
                    Some(info) => mergeinfo_from(
                        items,
                        i + 1,
                        before.insert(no_slash(path), info),
                    ),
                },
            },
        }
    }
}

/// Merge information.
pub open spec fn mergeinfo(params: Seq<ItemView>) -> Result<
    Map<Seq<char>, Seq<char>>,
    ErrorView,
> {
    match nth_list(params, 0) {
        None => Err(ErrorView::Protocol("get-mergeinfo response not a list"@)),
        Some(items) => mergeinfo_from(items, 0, Map::empty()),
    }
}

/// What reading merge information gives.
pub open spec fn mergeinfo_is(
    r: Result<MergeInfoCatalog, SvnError>,
    v: Result<Map<Seq<char>, Seq<char>>, ErrorView>,
) -> bool {
    match r {
        Ok(c) => c.wf() && v == Ok::<Map<Seq<char>, Seq<char>>, ErrorView>(catalog_view(c)),
        Err(e) => v == Err::<Map<Seq<char>, Seq<char>>, ErrorView>(e.deep_view()),
    }
}

/// Reads merge information.
pub fn parse_mergeinfo_catalog(params: &[SvnItem]) -> (r: Result<MergeInfoCatalog, SvnError>)
    ensures
        mergeinfo_is(r, mergeinfo(params.deep_view())),
{
    let items = match list_at(params, 0) {
        Some(v) => v,
        None => {
            return Err(protocol("get-mergeinfo response not a list"));
        },
    };
    let ghost all = items.deep_view();
    let mut out: MergeInfoCatalog = KeyMap::new();
    let mut i: usize = 0;
    assert(catalog_view(out) =~= Map::<Seq<char>, Seq<char>>::empty());
    while i < items.len()
        invariant
            i <= items.len(),
            all == items.deep_view(),
            out.wf(),
            nth_list(params.deep_view(), 0) == Some(all),
            mergeinfo_from(all, i as int, catalog_view(out)) == mergeinfo_from(
                all,
                0,
                Map::empty(),
            ),
        decreases items.len() - i,
    {
        assert(all[i as int] == items@[i as int].deep_view());
        let v = match items[i].as_list() {
            Some(v) => v,
            None => {
                return Err(protocol("mergeinfo entry not a list"));
            },
        };
        let path = match string_at(v, 0) {
            Some(s) => s,
            None => {
                return Err(protocol("mergeinfo path not a string"));
            },
        };
        let info = match string_at(v, 1) {
            Some(s) => s,
            None => {
                return Err(protocol("mergeinfo value not a string"));
            },
        };
        let ghost before = catalog_view(out);
        let key = without_leading(&path, '/');
        let ghost said = (key@, info@);
        out.insert(key, info);
        assert(catalog_view(out) =~= before.insert(said.0, said.1));
        i = i + 1;
    }
    Ok(out)
}

} // verus!
