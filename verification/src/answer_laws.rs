//! What is read from an answer is what the server sent.

use vstd::prelude::*;
use vstd::utf8::*;

use crate::answers::{
    deleted_rev, dir_props, file_answer, file_props, iprops_answer, listing_answer, lock_on_path,
    locks_below, locks_from, mergeinfo_answer, node_kind, number_answer, replayed_props,
    rev_prop_value, rev_props, stat_by_kind, stat_of, taken_lock, unit_answer,
};
use crate::conn::{response_of, response_params};
use crate::error::{ErrorView, ServerErrorItemView, ServerErrorView};
use crate::history::{
    changed_from, changed_path, file_rev, log_entry, prop_deltas_from, with_usual_props, LogWants,
};
use crate::parse::{error_chain, proplist, props_from, server_error};
use crate::raw::ItemView;
use crate::replies::{
    commit_info, dir_listing, entries_from, file_meta, iproplist, iprops_from, list_dirent,
    location_entry, location_segment, lockdesc, mergeinfo, mergeinfo_from, stat_entry,
};
use crate::results::{
    ChangedPathView, CommitInfoView, DirEntryView, FileMetaView, FileRevView, InheritedPropsView,
    LocationEntryView, LocationSegmentView, LockDescView, LogEntryView, PropDeltaView,
    StatEntryView,
};
use crate::server::{
    lemma_utf8, may_say_bool, may_say_bytes, may_say_number, may_say_text, says_bool, says_number,
    says_prop, says_props, says_props_as, says_text, says_word, word_for,
};
use crate::streams::wanted_entry;
use crate::text::strip_leading;
use crate::types::NodeKind;

verus! {

/// A path of the repository, as the library names it: with nothing in front of it.
pub open spec fn bare(path: Seq<char>) -> bool {
    path.len() > 0 ==> path[0] != '/'
}

/// A path with so many slashes in front of it.
pub open spec fn behind_slashes(n: nat, path: Seq<char>) -> Seq<char> {
    Seq::new(n, |k: int| '/') + path
}

/// The item names this path, with any number of slashes in front of it.
pub open spec fn says_path(i: ItemView, path: Seq<char>) -> bool {
    bare(path) && exists|n: nat| says_text(i, #[trigger] behind_slashes(n, path))
}

/// Leading slashes are taken off a path that does not begin with one.
pub(crate) proof fn lemma_slashes(n: nat, path: Seq<char>)
    requires
        bare(path),
    ensures
        strip_leading(behind_slashes(n, path), '/') == path,
    decreases n,
{
    let s = behind_slashes(n, path);
    if n > 0 {
        let t = behind_slashes((n - 1) as nat, path);
        assert(s.drop_first() =~= t);
        lemma_slashes((n - 1) as nat, path);
    } else {
        assert(s =~= path);
    }
}

/// A path is read without the slashes before it.
pub(crate) proof fn lemma_path(i: ItemView, path: Seq<char>)
    requires
        says_path(i, path),
    ensures
        i matches ItemView::String(b) && valid_utf8(b) && strip_leading(decode_utf8(b), '/')
            == path,
{
    let n = choose|n: nat| says_text(i, #[trigger] behind_slashes(n, path));
    lemma_slashes(n, path);
}

/// The word for a kind of node is read back.
proof fn lemma_kind(k: NodeKind)
    ensures
        crate::types::kind_from_word(word_for(k)) == k,
        crate::types::kind_word(k) == word_for(k),
{
    reveal_strlit("none");
    reveal_strlit("file");
    reveal_strlit("dir");
    reveal_strlit("unknown");
    assert("none"@[0] == 'n' && "file"@[0] == 'f' && "dir"@[0] == 'd' && "unknown"@[0] == 'u');
}

/// The properties among the first `n` names.
spec fn known(
    names: Seq<Seq<char>>,
    props: Map<Seq<char>, Seq<u8>>,
    n: int,
) -> Map<Seq<char>, Seq<u8>> {
    props.restrict(names.take(n).to_set())
}

proof fn lemma_props(
    i: ItemView,
    names: Seq<Seq<char>>,
    props: Map<Seq<char>, Seq<u8>>,
    n: int,
)
    requires
        says_props_as(i, names, props),
        0 <= n <= names.len(),
    ensures
        props_from(i->List_0, n, known(names, props, n)) == Ok::<
            Map<Seq<char>, Seq<u8>>,
            ErrorView,
        >(props),
    decreases names.len() - n,
{
    let v = i->List_0;
    if n < names.len() {
        lemma_props(i, names, props, n + 1);
        assert(says_prop(v[n], names[n], props[names[n]]));
        assert(names.to_set().contains(names[n]));
        let more = known(names, props, n).insert(names[n], props[names[n]]);
        assert(names.take(n + 1) =~= names.take(n).push(names[n]));
        assert(more =~= known(names, props, n + 1)) by {
            assert forall|k: Seq<char>| more.dom().contains(k) <==> known(
                names,
                props,
                n + 1,
            ).dom().contains(k) by {
                if names.take(n).contains(k) {
                    let then = names.take(n);
                    let j = choose|j: int| 0 <= j < then.len() && then[j] == k;
                    assert(names.take(n + 1)[j] == k);
                }
                if names.take(n + 1).contains(k) {
                    let now = names.take(n + 1);
                    let j = choose|j: int| 0 <= j < now.len() && now[j] == k;
                    if j < n {
                        assert(names.take(n)[j] == k);
                    }
                }
                assert(names.take(n + 1)[n] == names[n]);
            }
        }
    } else {
        assert(names.take(n) =~= names);
        assert(known(names, props, n) =~= props);
    }
}

/// Properties that a server sends, in whatever order, are the properties that are read:
/// each name with its value, and no other.
pub proof fn properties_are_read_as_sent(i: ItemView, props: Map<Seq<char>, Seq<u8>>)
    requires
        says_props(i, props),
    ensures
        proplist(i) == Ok::<Map<Seq<char>, Seq<u8>>, ErrorView>(props),
{
    let names = choose|names: Seq<Seq<char>>| #[trigger] says_props_as(i, names, props);
    lemma_props(i, names, props, 0);
    assert(known(names, props, 0) =~= Map::empty());
}

/// A lock, as a server sends it.
pub open spec fn says_lock(i: ItemView, l: LockDescView) -> bool {
    i matches ItemView::List(v) && v.len() == 6 && {
        &&& says_path(v[0], l.path)
        &&& says_text(v[1], l.token)
        &&& says_text(v[2], l.owner)
        &&& may_say_text(v[3], l.comment)
        &&& says_text(v[4], l.created)
        &&& may_say_text(v[5], l.expires)
    }
}

/// A lock that a server sends is the lock that is read.
pub proof fn a_lock_is_read_as_sent(i: ItemView, l: LockDescView)
    requires
        says_lock(i, l),
    ensures
        lockdesc(i) == Ok::<LockDescView, ErrorView>(l),
{
    lemma_path(i->List_0[0], l.path);
}

/// A place where a node was, as a server sends it, is the place that is read.
pub proof fn a_location_is_read_as_sent(v: Seq<ItemView>, l: LocationEntryView)
    requires
        v.len() == 2,
        says_number(v[0], l.rev),
        says_path(v[1], l.path),
    ensures
        location_entry(v) == Ok::<LocationEntryView, ErrorView>(l),
{
    lemma_path(v[1], l.path);
}

/// A stretch of the history of a node, as a server sends it, is the stretch that is read.
pub proof fn a_segment_is_read_as_sent(v: Seq<ItemView>, s: LocationSegmentView)
    requires
        v.len() == 3,
        says_number(v[0], s.range_start),
        says_number(v[1], s.range_end),
        may_say_text(v[2], s.path),
    ensures
        location_segment(v) == Ok::<LocationSegmentView, ErrorView>(s),
{
}

/// What a server says of a commit is what is read.
pub proof fn a_commit_is_read_as_sent(i: ItemView, c: CommitInfoView)
    requires
        i matches ItemView::List(v) && v.len() == 4 && says_number(v[0], c.new_rev)
            && may_say_text(v[1], c.date) && may_say_text(v[2], c.author) && may_say_text(
            v[3],
            c.post_commit_err,
        ),
    ensures
        commit_info(i) == Ok::<CommitInfoView, ErrorView>(c),
{
}

/// What a server says of a node: its kind, its size, whether it has properties, and by
/// which revision, when and by whom it was changed last.
pub open spec fn says_stat(i: ItemView, s: StatEntryView) -> bool {
    i matches ItemView::List(v) && v.len() == 6 && {
        &&& says_word(v[0], word_for(s.kind))
        &&& s.size matches Some(n) && says_number(v[1], n)
        &&& s.has_props matches Some(b) && says_bool(v[2], b)
        &&& s.created_rev matches Some(n) && says_number(v[3], n)
        &&& may_say_text(v[4], s.created_date)
        &&& may_say_text(v[5], s.last_author)
    }
}

/// What a server says of a node is what is read.
pub proof fn a_stat_is_read_as_sent(p: Seq<ItemView>, s: StatEntryView)
    requires
        p.len() > 0,
        says_stat(p[0], s),
    ensures
        stat_entry(p) == Some(s),
{
    lemma_kind(s.kind);
}

/// Where a server answers in a way of its own, what is known of a node is its kind, and
/// that it is there.
pub proof fn a_kind_alone_says_what_is_there(kind: NodeKind)
    ensures
        stat_by_kind(kind) is None <==> kind is Missing,
        stat_by_kind(kind) matches Some(s) ==> s.kind == kind && s.size is None && s.has_props
            is None && s.created_rev is None && s.created_date is None && s.last_author is None,
{
}

/// What a server says of an entry, behind its name.
pub open spec fn says_fields_of(v: Seq<ItemView>, e: DirEntryView) -> bool {
    &&& says_word(v[1], word_for(e.kind))
    &&& e.size matches Some(n) && says_number(v[2], n)
    &&& e.has_props matches Some(b) && says_bool(v[3], b)
    &&& e.created_rev matches Some(n) && says_number(v[4], n)
    &&& may_say_text(v[5], e.created_date)
    &&& may_say_text(v[6], e.last_author)
}

/// An entry of a listing of one directory, as a server sends it: it is sent under its name,
/// and stands in the directory.
pub open spec fn says_entry_in(dir: Seq<char>, i: ItemView, e: DirEntryView) -> bool {
    i matches ItemView::List(v) && v.len() == 7 && {
        &&& says_text(v[0], e.name)
        &&& says_fields_of(v, e)
        &&& e.path == (if dir.len() == 0 {
            e.name
        } else {
            dir + seq!['/'] + e.name
        })
    }
}

proof fn lemma_entries(
    dir: Seq<char>,
    items: Seq<ItemView>,
    i: int,
    entries: Seq<DirEntryView>,
)
    requires
        0 <= i <= items.len(),
        items.len() == entries.len(),
        forall|k: int| 0 <= k < items.len() ==> says_entry_in(dir, #[trigger] items[k], entries[k]),
    ensures
        entries_from(dir, items, i, entries.take(i)) == Ok::<Seq<DirEntryView>, ErrorView>(
            entries,
        ),
    decreases items.len() - i,
{
    if i < items.len() {
        lemma_entries(dir, items, i + 1, entries);
        assert(says_entry_in(dir, items[i], entries[i]));
        lemma_kind(entries[i].kind);
        reveal_strlit("/");
        assert("/"@ =~= seq!['/']);
        assert(entries.take(i + 1) =~= entries.take(i).push(entries[i]));
    } else {
        assert(entries.take(i) =~= entries);
    }
}

/// A listing of a directory is read as the server sends it: the revision, and every entry,
/// in order, under the path that it has in the directory.
pub proof fn a_listing_is_read_as_sent(
    dir: Seq<char>,
    p: Seq<ItemView>,
    rev: u64,
    entries: Seq<DirEntryView>,
)
    requires
        p.len() >= 3,
        says_number(p[0], rev),
        p[2] matches ItemView::List(items) && items.len() == entries.len() && forall|k: int|
            0 <= k < items.len() ==> says_entry_in(dir, #[trigger] items[k], entries[k]),
    ensures
        dir_listing(dir, p) matches Ok(l) && l.rev == rev && l.entries == entries,
{
    lemma_entries(dir, p[2]->List_0, 0, entries);
    assert(entries.take(0) =~= Seq::empty());
}

/// An entry of a deep listing, as a server sends it: under its path, of which its name is
/// the last part.
pub open spec fn says_deep_entry(v: Seq<ItemView>, e: DirEntryView) -> bool {
    &&& v.len() == 7
    &&& says_path(v[0], e.path)
    &&& v[1] matches ItemView::List(_) ==> false
    &&& says_word(v[1], word_for(e.kind))
    &&& may_say_number(v[2], e.size)
    &&& may_say_bool(v[3], e.has_props)
    &&& may_say_number(v[4], e.created_rev)
    &&& may_say_text(v[5], e.created_date)
    &&& may_say_text(v[6], e.last_author)
    &&& !e.name.contains('/')
    &&& e.path == e.name || exists|dir: Seq<char>| e.path == #[trigger] (dir + seq!['/'] + e.name)
}

/// An entry of a deep listing is read as the server sends it.
pub proof fn a_deep_entry_is_read_as_sent(v: Seq<ItemView>, e: DirEntryView)
    requires
        says_deep_entry(v, e),
    ensures
        list_dirent(v) == Ok::<DirEntryView, ErrorView>(e),
{
    lemma_path(v[0], e.path);
    lemma_kind(e.kind);
    assert(crate::replies::last_part(e.path) == e.name) by {
        if e.path == e.name {
            crate::task_order::lemma_rfind_none(e.path, e.path.len() as int);
            assert(e.path.skip(0) =~= e.path);
        } else {
            let dir = choose|dir: Seq<char>| e.path == #[trigger] (dir + seq!['/'] + e.name);
            assert forall|k: int| dir.len() < k < e.path.len() implies e.path[k] != '/' by {
                assert(e.path[k] == e.name[k - dir.len() - 1]);
                assert(e.name.contains(e.name[k - dir.len() - 1]));
            }
            crate::task_order::lemma_rfind_at(e.path, e.path.len() as int, dir.len() as int);
            assert(e.path.skip(dir.len() + 1int) =~= e.name);
        }
    }
}

/// Properties that a node inherits from a path, as a server sends them.
pub open spec fn says_inherited(i: ItemView, x: InheritedPropsView) -> bool {
    i matches ItemView::List(v) && v.len() == 2 && says_text(v[0], x.path) && says_props(
        v[1],
        x.props,
    )
}

proof fn lemma_inherited(items: Seq<ItemView>, i: int, all: Seq<InheritedPropsView>)
    requires
        0 <= i <= items.len(),
        items.len() == all.len(),
        forall|k: int| 0 <= k < items.len() ==> says_inherited(#[trigger] items[k], all[k]),
    ensures
        iprops_from(items, i, all.take(i)) == Ok::<Seq<InheritedPropsView>, ErrorView>(all),
    decreases items.len() - i,
{
    if i < items.len() {
        lemma_inherited(items, i + 1, all);
        assert(says_inherited(items[i], all[i]));
        properties_are_read_as_sent(items[i]->List_0[1], all[i].props);
        assert(all.take(i + 1) =~= all.take(i).push(all[i]));
    } else {
        assert(all.take(i) =~= all);
    }
}

/// Inherited properties are read as the server sends them: every path in order, each with
/// its properties.
pub proof fn inherited_properties_are_read_as_sent(
    i: ItemView,
    all: Seq<InheritedPropsView>,
)
    requires
        i matches ItemView::List(items) && items.len() == all.len() && forall|k: int|
            0 <= k < items.len() ==> says_inherited(#[trigger] items[k], all[k]),
    ensures
        iproplist(i) == Ok::<Seq<InheritedPropsView>, ErrorView>(all),
{
    lemma_inherited(i->List_0, 0, all);
    assert(all.take(0) =~= Seq::empty());
}

/// What a server says of a file, before its text, is what is read: its revision, its
/// checksum and its properties.
pub proof fn a_file_is_read_as_sent(p: Seq<ItemView>, m: FileMetaView)
    requires
        p.len() >= 3,
        may_say_text(p[0], m.checksum),
        says_number(p[1], m.rev),
        says_props(p[2], m.props),
        if p.len() == 3 {
            m.inherited_props.len() == 0
        } else {
            p[3] matches ItemView::List(items) && items.len() == m.inherited_props.len()
                && forall|k: int|
                0 <= k < items.len() ==> says_inherited(#[trigger] items[k], m.inherited_props[k])
        },
    ensures
        file_meta(p) == Ok::<FileMetaView, ErrorView>(m),
{
    properties_are_read_as_sent(p[2], m.props);
    if p.len() > 3 {
        lemma_inherited(p[3]->List_0, 0, m.inherited_props);
        assert(m.inherited_props.take(0) =~= Seq::empty());
    } else {
        assert(m.inherited_props =~= Seq::empty());
    }
}

/// The merge information of a path, as a server sends it.
pub open spec fn says_merged(i: ItemView, path: Seq<char>, info: Seq<char>) -> bool {
    i matches ItemView::List(v) && v.len() == 2 && says_path(v[0], path) && says_text(v[1], info)
}

proof fn lemma_merged(
    items: Seq<ItemView>,
    paths: Seq<Seq<char>>,
    m: Map<Seq<char>, Seq<char>>,
    n: int,
)
    requires
        0 <= n <= items.len(),
        items.len() == paths.len(),
        paths.to_set() == m.dom(),
        forall|k: int|
            0 <= k < items.len() ==> says_merged(#[trigger] items[k], paths[k], m[paths[k]]),
    ensures
        mergeinfo_from(items, n, m.restrict(paths.take(n).to_set())) == Ok::<
            Map<Seq<char>, Seq<char>>,
            ErrorView,
        >(m),
    decreases items.len() - n,
{
    let now = m.restrict(paths.take(n).to_set());
    if n < items.len() {
        lemma_merged(items, paths, m, n + 1);
        assert(says_merged(items[n], paths[n], m[paths[n]]));
        lemma_path(items[n]->List_0[0], paths[n]);
        assert(paths.to_set().contains(paths[n]));
        let next = m.restrict(paths.take(n + 1).to_set());
        let more = now.insert(paths[n], m[paths[n]]);
        assert(more =~= next) by {
            assert forall|k: Seq<char>| more.dom().contains(k) <==> next.dom().contains(k) by {
                if paths.take(n).contains(k) {
                    let then = paths.take(n);
                    let j = choose|j: int| 0 <= j < then.len() && then[j] == k;
                    assert(paths.take(n + 1)[j] == k);
                }
                if paths.take(n + 1).contains(k) {
                    let now = paths.take(n + 1);
                    let j = choose|j: int| 0 <= j < now.len() && now[j] == k;
                    if j < n {
                        assert(paths.take(n)[j] == k);
                    }
                }
                assert(paths.take(n + 1)[n] == paths[n]);
            }
        }
    } else {
        assert(paths.take(n) =~= paths);
        assert(now =~= m);
    }
}

/// Merge information is read as the server sends it: that of each path, under the path.
pub proof fn merge_information_is_read_as_sent(
    p: Seq<ItemView>,
    paths: Seq<Seq<char>>,
    m: Map<Seq<char>, Seq<char>>,
)
    requires
        p.len() > 0,
        paths.to_set() == m.dom(),
        p[0] matches ItemView::List(items) && items.len() == paths.len() && forall|k: int|
            0 <= k < items.len() ==> says_merged(#[trigger] items[k], paths[k], m[paths[k]]),
    ensures
        mergeinfo(p) == Ok::<Map<Seq<char>, Seq<char>>, ErrorView>(m),
{
    lemma_merged(p[0]->List_0, paths, m, 0);
    assert(m.restrict(paths.take(0).to_set()) =~= Map::empty());
}

/// A change of a property, as a server sends it: the new value, or none where the property
/// is removed.
pub open spec fn says_prop_delta(i: ItemView, d: PropDeltaView) -> bool {
    i matches ItemView::List(v) && v.len() == 2 && says_text(v[0], d.name) && may_say_bytes(
        v[1],
        d.value,
    )
}

proof fn lemma_prop_deltas(items: Seq<ItemView>, i: int, all: Seq<PropDeltaView>)
    requires
        0 <= i <= items.len(),
        items.len() == all.len(),
        forall|k: int| 0 <= k < items.len() ==> says_prop_delta(#[trigger] items[k], all[k]),
    ensures
        prop_deltas_from(items, i, all.take(i)) == Ok::<Seq<PropDeltaView>, ErrorView>(all),
    decreases items.len() - i,
{
    if i < items.len() {
        lemma_prop_deltas(items, i + 1, all);
        assert(says_prop_delta(items[i], all[i]));
        assert(all.take(i + 1) =~= all.take(i).push(all[i]));
    } else {
        assert(all.take(i) =~= all);
    }
}

/// A revision of a file is read as the server sends it: its path, its number, its
/// properties, the changes of the file's properties, and whether it was merged.
pub proof fn a_file_revision_is_read_as_sent(v: Seq<ItemView>, f: FileRevView)
    requires
        v.len() == 5,
        says_path(v[0], f.path),
        says_number(v[1], f.rev),
        says_props(v[2], f.rev_props),
        v[3] matches ItemView::List(items) && items.len() == f.prop_deltas.len() && forall|k: int|
            0 <= k < items.len() ==> says_prop_delta(#[trigger] items[k], f.prop_deltas[k]),
        says_bool(v[4], f.merged_revision),
        f.delta_chunks.len() == 0,
    ensures
        file_rev(v) == Ok::<FileRevView, ErrorView>(f),
{
    lemma_path(v[0], f.path);
    properties_are_read_as_sent(v[2], f.rev_props);
    lemma_prop_deltas(v[3]->List_0, 0, f.prop_deltas);
    assert(f.prop_deltas.take(0) =~= Seq::empty());
    assert(f.delta_chunks =~= Seq::empty());
}

/// A path that a revision changed, as a server sends it: how it was changed, what it was
/// copied from, and, where the server says so, its kind and what was modified.
pub open spec fn says_changed(i: ItemView, c: ChangedPathView) -> bool {
    i matches ItemView::List(v) && v.len() == 4 && {
        &&& says_text(v[0], c.path)
        &&& says_word(v[1], c.action)
        &&& v[2] matches ItemView::List(from) && match c.copy_from {
            Some((path, rev)) => from.len() == 2 && says_path(from[0], path) && says_number(
                from[1],
                rev,
            ),
            None => from.len() == 0,
        }
        &&& v[3] matches ItemView::List(d) && match c.node_kind {
            Some(kind) => d.len() == 3 && says_text(d[0], word_for(kind)) && (
            c.text_modified matches Some(b) && says_bool(d[1], b)) && (
            c.props_modified matches Some(b) && says_bool(d[2], b)),
            None => d.len() == 0 && c.text_modified is None && c.props_modified is None,
        }
    }
}

proof fn lemma_changed(items: Seq<ItemView>, i: int, all: Seq<ChangedPathView>)
    requires
        0 <= i <= items.len(),
        items.len() == all.len(),
        forall|k: int| 0 <= k < items.len() ==> says_changed(#[trigger] items[k], all[k]),
    ensures
        changed_from(items, i, all.take(i)) == Ok::<Seq<ChangedPathView>, ErrorView>(all),
    decreases items.len() - i,
{
    if i < items.len() {
        lemma_changed(items, i + 1, all);
        assert(says_changed(items[i], all[i]));
        let v = items[i]->List_0;
        if let Some((path, rev)) = all[i].copy_from {
            lemma_path(v[2]->List_0[0], path);
        }
        if let Some(kind) = all[i].node_kind {
            lemma_kind(kind);
        }
        assert(changed_path(v) == Ok::<ChangedPathView, ErrorView>(all[i]));
        assert(all.take(i + 1) =~= all.take(i).push(all[i]));
    } else {
        assert(all.take(i) =~= all);
    }
}

/// A revision, as the log of a server gives it.
pub open spec fn says_log_entry(v: Seq<ItemView>, e: LogEntryView) -> bool {
    &&& v.len() == 10
    &&& v[0] matches ItemView::List(items) && items.len() == e.changed_paths.len() && forall|
        k: int,
    |
        0 <= k < items.len() ==> says_changed(#[trigger] items[k], e.changed_paths[k])
    &&& says_number(v[1], e.rev)
    &&& may_say_text(v[2], e.author)
    &&& may_say_text(v[3], e.date)
    &&& may_say_text(v[4], e.message)
    &&& says_bool(v[5], e.has_children)
    &&& says_bool(v[6], e.invalid_revnum)
    &&& says_props(v[8], e.rev_props)
    &&& says_bool(v[9], e.subtractive_merge)
}

/// A revision of the log is read as the server sends it: every path that it changed, its
/// author, its date, its message, its flags, and its other properties where they are
/// wanted.
pub proof fn a_log_entry_is_read_as_sent(v: Seq<ItemView>, e: LogEntryView, want_custom: bool)
    requires
        says_log_entry(v, e),
    ensures
        log_entry(v, want_custom) == Ok::<LogEntryView, ErrorView>(
            LogEntryView {
                rev_props: if want_custom {
                    e.rev_props
                } else {
                    Map::empty()
                },
                ..e
            },
        ),
{
    lemma_changed(v[0]->List_0, 0, e.changed_paths);
    assert(e.changed_paths.take(0) =~= Seq::empty());
    properties_are_read_as_sent(v[8], e.rev_props);
}

/// A property that may be asked for by name stands among the others under its name, with
/// the text that the entry gives, if it is wanted and there; otherwise it is as it was.
pub open spec fn holds_text(
    after: Map<Seq<char>, Seq<u8>>,
    before: Map<Seq<char>, Seq<u8>>,
    wanted: bool,
    name: Seq<char>,
    text: Option<Seq<char>>,
) -> bool {
    match text {
        Some(t) if wanted => after.dom().contains(name) && says_text(
            ItemView::String(after[name]),
            t,
        ),
        _ => (after.dom().contains(name) <==> before.dom().contains(name)) && (
        before.dom().contains(name) ==> after[name] == before[name]),
    }
}

/// The author, the date and the message of a revision stand among its properties as
/// `svn:author`, `svn:date` and `svn:log`, where they are wanted; all else is as it was.
pub proof fn the_usual_properties_are_those_of_the_entry(e: LogEntryView, w: LogWants)
    ensures
        ({
            let r = with_usual_props(e, w);
            &&& holds_text(r.rev_props, e.rev_props, w.author, "svn:author"@, e.author)
            &&& holds_text(r.rev_props, e.rev_props, w.date, "svn:date"@, e.date)
            &&& holds_text(r.rev_props, e.rev_props, w.message, "svn:log"@, e.message)
            &&& forall|k: Seq<char>|
                k != "svn:author"@ && k != "svn:date"@ && k != "svn:log"@ ==> (
                #[trigger] r.rev_props.dom().contains(k) <==> e.rev_props.dom().contains(k)) && (
                e.rev_props.dom().contains(k) ==> r.rev_props[k] == e.rev_props[k])
            &&& r.rev == e.rev
            &&& r.changed_paths == e.changed_paths
            &&& r.author == e.author
            &&& r.date == e.date
            &&& r.message == e.message
            &&& r.has_children == e.has_children
            &&& r.invalid_revnum == e.invalid_revnum
            &&& r.subtractive_merge == e.subtractive_merge
        }),
{
    reveal_strlit("svn:author");
    reveal_strlit("svn:date");
    reveal_strlit("svn:log");
    assert("svn:author"@.len() != "svn:date"@.len());
    assert("svn:author"@.len() != "svn:log"@.len());
    assert("svn:date"@.len() != "svn:log"@.len());
    if let Some(t) = e.author {
        lemma_utf8(t);
    }
    if let Some(t) = e.date {
        lemma_utf8(t);
    }
    if let Some(t) = e.message {
        lemma_utf8(t);
    }
}

/// A revision of the log, as it is handed out, holds what the server sent, with the author,
/// the date and the message among its properties where they are wanted, and the other
/// properties where others are.
pub proof fn the_log_hands_out_what_was_sent(v: Seq<ItemView>, e: LogEntryView, w: LogWants)
    requires
        says_log_entry(v, e),
    ensures
        wanted_entry(v, w) matches Ok(r) && {
            &&& r.rev == e.rev
            &&& r.changed_paths == e.changed_paths
            &&& r.author == e.author
            &&& r.date == e.date
            &&& r.message == e.message
            &&& r.has_children == e.has_children
            &&& r.invalid_revnum == e.invalid_revnum
            &&& r.subtractive_merge == e.subtractive_merge
            &&& w.author ==> (e.author matches Some(t) ==> r.rev_props.dom().contains("svn:author"@)
                && says_text(ItemView::String(r.rev_props["svn:author"@]), t))
            &&& w.date ==> (e.date matches Some(t) ==> r.rev_props.dom().contains("svn:date"@)
                && says_text(ItemView::String(r.rev_props["svn:date"@]), t))
            &&& w.message ==> (e.message matches Some(t) ==> r.rev_props.dom().contains("svn:log"@)
                && says_text(ItemView::String(r.rev_props["svn:log"@]), t))
            &&& w.custom ==> forall|k: Seq<char>|
                k != "svn:author"@ && k != "svn:date"@ && k != "svn:log"@ ==> (
                #[trigger] r.rev_props.dom().contains(k) <==> e.rev_props.dom().contains(k)) && (
                e.rev_props.dom().contains(k) ==> r.rev_props[k] == e.rev_props[k])
        },
{
    a_log_entry_is_read_as_sent(v, e, w.custom);
    the_usual_properties_are_those_of_the_entry(log_entry(v, w.custom)->Ok_0, w);
}

/// An answer of a server that succeeded, with these parameters.
pub open spec fn succeeds(i: ItemView, params: Seq<ItemView>) -> bool {
    i matches ItemView::List(v) && v.len() == 2 && says_word(v[0], "success"@) && (
    v[1] matches ItemView::List(p) && p == params)
}

/// What went wrong, as a server says it: a code, a message, and where that was.
pub open spec fn says_error(i: ItemView, e: ServerErrorItemView) -> bool {
    i matches ItemView::List(v) && v.len() == 4 && {
        &&& says_number(v[0], e.code)
        &&& match e.message {
            Some(m) => m.len() > 0 && says_text(v[1], m),
            None => says_text(v[1], Seq::empty()),
        }
        &&& match e.file {
            Some(m) => m.len() > 0 && says_text(v[2], m),
            None => says_text(v[2], Seq::empty()),
        }
        &&& e.line matches Some(n) && says_number(v[3], n)
    }
}

/// The items say these errors, in this order.
pub open spec fn says_errors(items: Seq<ItemView>, chain: Seq<ServerErrorItemView>) -> bool {
    items.len() == chain.len() && forall|k: int|
        0 <= k < items.len() ==> says_error(#[trigger] items[k], chain[k])
}

/// An answer of a server that failed, with these errors.
pub open spec fn fails(i: ItemView, chain: Seq<ServerErrorItemView>) -> bool {
    i matches ItemView::List(v) && v.len() == 2 && says_word(v[0], "failure"@) && (
    v[1] matches ItemView::List(items) && says_errors(items, chain))
}

/// Errors are read as they are sent.
pub(crate) proof fn lemma_errors(items: Seq<ItemView>, chain: Seq<ServerErrorItemView>)
    requires
        says_errors(items, chain),
    ensures
        error_chain(items) == chain,
    decreases items.len(),
{
    if items.len() > 0 {
        let before = items.drop_last();
        let known = chain.drop_last();
        assert forall|k: int| 0 <= k < before.len() implies says_error(
            #[trigger] before[k],
            known[k],
        ) by {
            assert(items[k] == before[k]);
        }
        lemma_errors(before, known);
        let n = items.len() - 1;
        assert(says_error(items[n], chain[n]));
        assert(known.push(chain[n]) =~= chain);
    } else {
        assert(chain =~= Seq::empty());
    }
}

/// A server that failed is a failure of the command, with every error that the server
/// named, in order: its code, its message, and where it was.
pub proof fn a_failure_is_read_as_sent(
    i: ItemView,
    chain: Seq<ServerErrorItemView>,
    ctx: Seq<char>,
)
    requires
        fails(i, chain),
    ensures
        response_of(i) matches Ok(r) && !r.success && server_error(r.errors).chain == chain
            && response_params(r, ctx) == Err::<Seq<ItemView>, ErrorView>(
            ErrorView::Server(ServerErrorView { context: Some(ctx), chain }),
        ) && unit_answer(r, ctx) == Err::<(), ErrorView>(
            ErrorView::Server(ServerErrorView { context: Some(ctx), chain }),
        ),
{
    reveal_strlit("success");
    reveal_strlit("failure");
    assert("success"@[0] == 's' && "failure"@[0] == 'f');
    lemma_errors(i->List_0[1]->List_0, chain);
}

/// A server that succeeded is a success, with the values that it sent.
pub proof fn a_success_is_read_as_sent(i: ItemView, params: Seq<ItemView>, ctx: Seq<char>)
    requires
        succeeds(i, params),
    ensures
        response_of(i) matches Ok(r) && r.success && r.params == params && response_params(r, ctx)
            == Ok::<Seq<ItemView>, ErrorView>(params) && unit_answer(r, ctx) == Ok::<
            (),
            ErrorView,
        >(()),
{
}

/// The failure of the command `ctx`.
pub open spec fn failed(ctx: Seq<char>, chain: Seq<ServerErrorItemView>) -> ErrorView {
    ErrorView::Server(ServerErrorView { context: Some(ctx), chain })
}

/// Where a server fails, every command fails, under its own name, with the errors of the
/// server.
pub proof fn failures_are_handed_on(
    i: ItemView,
    chain: Seq<ServerErrorItemView>,
    dir: Seq<char>,
    ctx: Seq<char>,
    missing: Seq<char>,
)
    requires
        fails(i, chain),
    ensures
        response_of(i) matches Ok(r) && {
            &&& number_answer(r, ctx, missing) == Err::<u64, ErrorView>(failed(ctx, chain))
            &&& rev_props(r) matches Err(e) && e == failed("rev-proplist"@, chain)
            &&& rev_prop_value(r) matches Err(e) && e == failed("rev-prop"@, chain)
            &&& file_answer(r) matches Err(e) && e == failed("get-file"@, chain)
            &&& file_props(r) matches Err(e) && e == failed("get-file"@, chain)
            &&& dir_props(r) matches Err(e) && e == failed("get-dir"@, chain)
            &&& listing_answer(dir, r) matches Err(e) && e == failed("get-dir"@, chain)
            &&& iprops_answer(r) matches Err(e) && e == failed("get-iprops"@, chain)
            &&& mergeinfo_answer(r) matches Err(e) && e == failed("get-mergeinfo"@, chain)
            &&& lock_on_path(r) matches Err(e) && e == failed("get-lock"@, chain)
            &&& locks_below(r) matches Err(e) && e == failed("get-locks"@, chain)
            &&& taken_lock(r) matches Err(e) && e == failed("lock"@, chain)
            &&& node_kind(r) matches Err(e) && e == failed("check-path"@, chain)
            &&& stat_of(r) matches Err(e) && e == failed("stat"@, chain)
        },
{
    a_failure_is_read_as_sent(i, chain, ctx);
    a_failure_is_read_as_sent(i, chain, "rev-proplist"@);
}

proof fn lemma_locks(items: Seq<ItemView>, i: int, all: Seq<LockDescView>)
    requires
        0 <= i <= items.len(),
        items.len() == all.len(),
        forall|k: int| 0 <= k < items.len() ==> says_lock(#[trigger] items[k], all[k]),
    ensures
        locks_from(items, i, all.take(i)) == Ok::<Seq<LockDescView>, ErrorView>(all),
    decreases items.len() - i,
{
    if i < items.len() {
        lemma_locks(items, i + 1, all);
        a_lock_is_read_as_sent(items[i], all[i]);
        assert(all.take(i + 1) =~= all.take(i).push(all[i]));
    } else {
        assert(all.take(i) =~= all);
    }
}

/// A number that a server answers with is the number that is read: the newest revision, or
/// that of a date, or that in which a path was deleted.
pub proof fn a_revision_is_read_as_sent(
    i: ItemView,
    p: Seq<ItemView>,
    n: u64,
    ctx: Seq<char>,
    missing: Seq<char>,
)
    requires
        succeeds(i, p),
        p.len() > 0,
        says_number(p[0], n),
    ensures
        response_of(i) matches Ok(r) && number_answer(r, ctx, missing) == Ok::<u64, ErrorView>(n)
            && deleted_rev(r) == Ok::<Option<u64>, ErrorView>(Some(n)),
{
    a_success_is_read_as_sent(i, p, ctx);
}

/// Properties that a server answers with are the properties that are read, for a revision,
/// a file or a directory; and so is the value of one property, or that there is none.
pub proof fn properties_are_answered(
    i: ItemView,
    p: Seq<ItemView>,
    props: Map<Seq<char>, Seq<u8>>,
    value: Option<Seq<u8>>,
)
    requires
        succeeds(i, p),
    ensures
        response_of(i) matches Ok(r) && {
            &&& p.len() == 1 && says_props(p[0], props) ==> (rev_props(r) matches Ok(m) && m
                == props)
            &&& p.len() == 1 && may_say_bytes(p[0], value) ==> rev_prop_value(r) == Ok::<
                Option<Seq<u8>>,
                ErrorView,
            >(value)
            &&& p.len() >= 2 && says_props(p[1], props) ==> (dir_props(r) matches Ok(m) && m
                == props)
            &&& p.len() == 3 && p[0] is List && p[1] is Number && says_props(p[2], props) ==> (
            file_props(r) matches Ok(m) && m == props)
        },
{
    a_success_is_read_as_sent(i, p, "rev-proplist"@);
    if p.len() == 1 && says_props(p[0], props) {
        properties_are_read_as_sent(p[0], props);
    }
    if p.len() >= 2 && says_props(p[1], props) {
        properties_are_read_as_sent(p[1], props);
    }
    if p.len() == 3 && says_props(p[2], props) {
        properties_are_read_as_sent(p[2], props);
    }
}

/// The kind of a node that a server answers with is the kind that is read, and what it says
/// of the node is what is read.
pub proof fn a_node_is_answered(i: ItemView, p: Seq<ItemView>, kind: NodeKind, s: StatEntryView)
    requires
        succeeds(i, p),
        p.len() == 1,
    ensures
        response_of(i) matches Ok(r) && {
            &&& says_word(p[0], word_for(kind)) ==> node_kind(r) == Ok::<NodeKind, ErrorView>(kind)
            &&& says_stat(p[0], s) ==> stat_of(r) == Ok::<Option<StatEntryView>, ErrorView>(
                Some(s),
            )
        },
{
    a_success_is_read_as_sent(i, p, "stat"@);
    lemma_kind(kind);
    if says_stat(p[0], s) {
        a_stat_is_read_as_sent(p, s);
    }
}

/// Locks that a server answers with are the locks that are read: the one that was taken,
/// the one on a path, if there is one, and all of those below a path, in order.
pub proof fn locks_are_answered(
    i: ItemView,
    p: Seq<ItemView>,
    l: LockDescView,
    all: Seq<LockDescView>,
)
    requires
        succeeds(i, p),
        p.len() == 1,
    ensures
        response_of(i) matches Ok(r) && {
            &&& says_lock(p[0], l) ==> taken_lock(r) == Ok::<LockDescView, ErrorView>(l)
            &&& p[0] == ItemView::List(Seq::empty()) ==> lock_on_path(r) == Ok::<
                Option<LockDescView>,
                ErrorView,
            >(None)
            &&& (p[0] matches ItemView::List(v) && v.len() == 1 && says_lock(v[0], l))
                ==> lock_on_path(r) == Ok::<Option<LockDescView>, ErrorView>(Some(l))
            &&& (p[0] matches ItemView::List(v) && v.len() == all.len() && forall|k: int|
                0 <= k < v.len() ==> says_lock(#[trigger] v[k], all[k])) ==> locks_below(r)
                == Ok::<Seq<LockDescView>, ErrorView>(all)
        },
{
    a_success_is_read_as_sent(i, p, "lock"@);
    if says_lock(p[0], l) {
        a_lock_is_read_as_sent(p[0], l);
    }
    if let ItemView::List(v) = p[0] {
        if v.len() == 1 && says_lock(v[0], l) {
            a_lock_is_read_as_sent(v[0], l);
        }
        if v.len() == all.len() && forall|k: int|
            0 <= k < v.len() ==> says_lock(#[trigger] v[k], all[k]) {
            lemma_locks(v, 0, all);
            assert(all.take(0) =~= Seq::empty());
        }
    }
}

/// The properties of a revision that is replayed are read as the server sends them, and a
/// failure in their place is handed on.
pub proof fn replayed_properties_are_read_as_sent(
    i: ItemView,
    props: Map<Seq<char>, Seq<u8>>,
    chain: Seq<ServerErrorItemView>,
)
    ensures
        (i matches ItemView::List(v) && v.len() == 2 && says_word(v[0], "revprops"@) && says_props(
            v[1],
            props,
        )) ==> (replayed_props(i) matches Ok(m) && m == props),
        fails(i, chain) ==> (replayed_props(i) matches Err(ErrorView::Server(e)) && e.chain
            == chain),
{
    reveal_strlit("revprops");
    reveal_strlit("failure");
    assert("revprops"@[0] == 'r' && "failure"@[0] == 'f');
    if let ItemView::List(v) = i {
        if v.len() == 2 && says_props(v[1], props) {
            properties_are_read_as_sent(v[1], props);
        }
        if fails(i, chain) {
            lemma_errors(v[1]->List_0, chain);
        }
    }
}

} // verus!
