//! What is gathered from answers that come piece by piece: everything that was sent, in
//! order.

use vstd::prelude::*;

use crate::answer_laws::{
    a_lock_is_read_as_sent, fails, lemma_errors, lemma_path, says_lock, says_log_entry, says_path,
    the_log_hands_out_what_was_sent,
};
use crate::conn::ResponseView;
use crate::editor::EditView;
use crate::error::{ErrorView, ServerErrorItemView};
use crate::history::{wants, LogWants};
use crate::options::LogRevPropsView;
use crate::raw::ItemView;
use crate::recorder::{record, PendingView, RecorderView};
use crate::results::{FileMetaView, FileRevView, LockDescView, LogEntryView};
use crate::server::{says_bytes, says_text, says_word};
use crate::streams::{
    collected, file_fetched, finished, locked, many_collected, many_finished, many_item,
    text_taken, unlocked, wanted_entry, FileRevsView, ManyItem, ManyStep,
};

verus! {

/// Entries are gathered in the order in which they come, each as it is read, until the
/// server says that it is done; what is neither is refused, and so is an entry that cannot
/// be read.
pub proof fn entries_are_gathered_in_order<V>(
    before: Seq<V>,
    item: ItemView,
    what: Seq<char>,
    read: spec_fn(Seq<ItemView>) -> Result<V, ErrorView>,
)
    ensures
        match item {
            ItemView::List(v) => match read(v) {
                Ok(x) => collected(before, item, what, read) matches Ok(Some(after))
                    && after.len() == before.len() + 1 && after.last() == x && after.drop_last()
                    == before,
                Err(e) => collected(before, item, what, read) == Err::<Option<Seq<V>>, ErrorView>(
                    e,
                ),
            },
            ItemView::Word(w) => if w == "done"@ {
                collected(before, item, what, read) == Ok::<Option<Seq<V>>, ErrorView>(None)
            } else {
                collected(before, item, what, read) is Err
            },
            _ => collected(before, item, what, read) matches Err(e) && e is Protocol,
        },
{
    if let ItemView::List(v) = item {
        if let Ok(x) = read(v) {
            assert(before.push(x).drop_last() =~= before);
        }
    }
}

/// What was gathered is handed out where the command succeeded, all of it; where it failed,
/// its failure is.
pub proof fn what_was_gathered_is_handed_out<V>(
    entries: Seq<V>,
    r: ResponseView,
    ctx: Seq<char>,
)
    ensures
        r.success ==> finished(entries, r, ctx) == Ok::<Seq<V>, ErrorView>(entries),
        !r.success ==> (finished(entries, r, ctx) matches Err(ErrorView::Server(e)) && e.context
            == Some(ctx)),
{
}

/// The properties that are named for the log are those that are wanted: the author, the
/// date and the message by their names, and the others if any other is named.
pub proof fn the_log_wants_what_is_named(names: Seq<Seq<char>>)
    ensures
        ({
            let w = wants(LogRevPropsView::Custom(names));
            &&& w.author <==> names.contains("svn:author"@)
            &&& w.date <==> names.contains("svn:date"@)
            &&& w.message <==> names.contains("svn:log"@)
            &&& w.custom <==> exists|k: int|
                0 <= k < names.len() && #[trigger] names[k] != "svn:author"@ && names[k]
                    != "svn:date"@ && names[k] != "svn:log"@
        }),
        wants(LogRevPropsView::All) == (LogWants {
            author: true,
            date: true,
            message: true,
            custom: true,
        }),
{
    let w = wants(LogRevPropsView::Custom(names));
    if exists|k: int|
        0 <= k < names.len() && #[trigger] names[k] != "svn:author"@ && names[k] != "svn:date"@
            && names[k] != "svn:log"@ {
        let k = choose|k: int|
            0 <= k < names.len() && #[trigger] names[k] != "svn:author"@ && names[k]
                != "svn:date"@ && names[k] != "svn:log"@;
        assert(crate::history::unusual(names[k]));
    }
}

/// A property of a revision that is asked for by name is handed out with the entry, as the
/// server sent it: the author, the date and the message as they stand in the entry, and any
/// other as it stands among the properties.
pub proof fn a_property_that_is_named_is_handed_out(
    v: Seq<ItemView>,
    e: LogEntryView,
    names: Seq<Seq<char>>,
    name: Seq<char>,
)
    requires
        says_log_entry(v, e),
        names.contains(name),
    ensures
        wanted_entry(v, wants(LogRevPropsView::Custom(names))) matches Ok(r) && {
            &&& name == "svn:author"@ ==> (e.author matches Some(t) ==> r.rev_props.dom().contains(
                name,
            ) && says_text(ItemView::String(r.rev_props[name]), t))
            &&& name == "svn:date"@ ==> (e.date matches Some(t) ==> r.rev_props.dom().contains(name)
                && says_text(ItemView::String(r.rev_props[name]), t))
            &&& name == "svn:log"@ ==> (e.message matches Some(t) ==> r.rev_props.dom().contains(
                name,
            ) && says_text(ItemView::String(r.rev_props[name]), t))
            &&& name != "svn:author"@ && name != "svn:date"@ && name != "svn:log"@ ==> (
            e.rev_props.dom().contains(name) ==> r.rev_props.dom().contains(name)
                && r.rev_props[name] == e.rev_props[name])
        },
{
    let w = wants(LogRevPropsView::Custom(names));
    the_log_wants_what_is_named(names);
    the_log_hands_out_what_was_sent(v, e, w);
    if name != "svn:author"@ && name != "svn:date"@ && name != "svn:log"@ {
        let k = choose|k: int| 0 <= k < names.len() && names[k] == name;
        assert(names[k] != "svn:author"@);
        let r = wanted_entry(v, w)->Ok_0;
        assert(r.rev_props.dom().contains(name) <==> e.rev_props.dom().contains(name));
    }
}

/// A revision of a file and the delta that follows it belong together: the revision is
/// read, its chunks are added in order, and an empty chunk completes it.
pub proof fn a_file_revision_keeps_its_delta(
    s: FileRevsView,
    v: Seq<ItemView>,
    f: FileRevView,
    open: FileRevView,
    i: ItemView,
    chunk: Seq<u8>,
)
    requires
        crate::history::file_rev(v) == Ok::<FileRevView, ErrorView>(f),
        says_bytes(i, chunk),
    ensures
        s.open is None ==> s.after(ItemView::List(v)) == Ok::<Option<FileRevsView>, ErrorView>(
            Some(FileRevsView { entries: s.entries, open: Some(f) }),
        ),
        s.open is None ==> s.after(ItemView::Word("done"@)) == Ok::<
            Option<FileRevsView>,
            ErrorView,
        >(None),
        s.open == Some(open) && chunk.len() > 0 ==> (s.after(i) matches Ok(Some(t)) && t.entries
            == s.entries && (t.open matches Some(g) && g.delta_chunks == open.delta_chunks.push(
            chunk,
        ) && g.path == open.path && g.rev == open.rev && g.rev_props == open.rev_props
            && g.prop_deltas == open.prop_deltas && g.merged_revision == open.merged_revision)),
        s.open == Some(open) && chunk.len() == 0 ==> s.after(i) == Ok::<
            Option<FileRevsView>,
            ErrorView,
        >(Some(FileRevsView { entries: s.entries.push(open), open: None })),
{
}

/// The revisions of a file are handed out where the command succeeded and there is at least
/// one.
pub proof fn file_revisions_are_handed_out(s: FileRevsView, r: ResponseView)
    ensures
        r.success && s.entries.len() > 0 ==> s.finished(r) == Ok::<Seq<FileRevView>, ErrorView>(
            s.entries,
        ),
        r.success && s.entries.len() == 0 ==> (s.finished(r) matches Err(e) && e is Protocol),
        !r.success ==> (s.finished(r) matches Err(e) && e is Server),
{
}

/// A piece of the text of a file is handed out as it came, and counted, up to the limit; the
/// text ends with an empty piece.
pub proof fn the_text_of_a_file_is_handed_out(written: u64, max_bytes: u64, i: ItemView, b: Seq<u8>)
    requires
        says_bytes(i, b),
        written + b.len() <= u64::MAX,
    ensures
        b.len() == 0 ==> text_taken(written, max_bytes, i) == Ok::<
            Option<(u64, Seq<u8>)>,
            ErrorView,
        >(None),
        b.len() > 0 && written + b.len() <= max_bytes ==> text_taken(written, max_bytes, i) == Ok::<
            Option<(u64, Seq<u8>)>,
            ErrorView,
        >(Some(((written + b.len()) as u64, b))),
        b.len() > 0 && written + b.len() > max_bytes ==> (text_taken(
            written,
            max_bytes,
            i,
        ) matches Err(e) && e is Protocol),
{
}

/// What is said of a file that was fetched is what the server said of it before the text,
/// and how much of the text came; a failure behind the text counts.
pub proof fn a_fetched_file_is_what_was_sent(m: FileMetaView, written: u64, r: ResponseView)
    ensures
        r.success ==> (file_fetched(m, written, r) matches Ok(f) && f.rev == m.rev && f.checksum
            == m.checksum && f.props == m.props && f.inherited_props == m.inherited_props
            && f.bytes_written == written),
        !r.success ==> (file_fetched(m, written, r) matches Err(e) && e is Server),
{
}

/// The outcome for one of many locks is the lock that the server names, or the failure that
/// it names; a server that does not know the command says so before any other outcome.
pub proof fn the_outcome_for_a_lock_is_what_was_sent(
    i: ItemView,
    l: LockDescView,
    chain: Seq<ServerErrorItemView>,
    first: bool,
)
    ensures
        (i matches ItemView::List(v) && v.len() == 2 && says_word(v[0], "success"@) && (
        v[1] matches ItemView::List(p) && p.len() == 1 && says_lock(p[0], l))) ==> many_item(
            i,
            "lock-many"@,
            first,
            |p: Seq<ItemView>| locked(p),
        ) == Ok::<ManyItem<LockDescView>, ErrorView>(ManyItem::Result(Ok(l))),
        fails(i, chain) && !first ==> (many_item(
            i,
            "lock-many"@,
            first,
            |p: Seq<ItemView>| locked(p),
        ) matches Ok(ManyItem::Result(Err(ErrorView::Server(e)))) && e.chain == chain),
        says_word(i, "done"@) ==> many_item(
            i,
            "lock-many"@,
            first,
            |p: Seq<ItemView>| locked(p),
        ) == Ok::<ManyItem<LockDescView>, ErrorView>(ManyItem::Step(ManyStep::Done)),
{
    reveal_strlit("success");
    reveal_strlit("failure");
    assert("success"@[0] == 's' && "failure"@[0] == 'f');
    if let ItemView::List(v) = i {
        if v.len() == 2 {
            if let ItemView::List(p) = v[1] {
                if p.len() == 1 && says_lock(p[0], l) {
                    a_lock_is_read_as_sent(p[0], l);
                }
                if fails(i, chain) {
                    lemma_errors(p, chain);
                }
            }
        }
    }
}

/// The outcome for one of many releases is the path that the server names.
pub proof fn the_outcome_for_a_release_is_what_was_sent(
    i: ItemView,
    path: Seq<char>,
    chain: Seq<ServerErrorItemView>,
    first: bool,
)
    ensures
        (i matches ItemView::List(v) && v.len() == 2 && says_word(v[0], "success"@) && (
        v[1] matches ItemView::List(p) && p.len() == 1 && says_path(p[0], path))) ==> many_item(
            i,
            "unlock-many"@,
            first,
            |p: Seq<ItemView>| unlocked(p),
        ) == Ok::<ManyItem<Seq<char>>, ErrorView>(ManyItem::Result(Ok(path))),
        fails(i, chain) && !first ==> (many_item(
            i,
            "unlock-many"@,
            first,
            |p: Seq<ItemView>| unlocked(p),
        ) matches Ok(ManyItem::Result(Err(ErrorView::Server(e)))) && e.chain == chain),
{
    reveal_strlit("success");
    reveal_strlit("failure");
    assert("success"@[0] == 's' && "failure"@[0] == 'f');
    if let ItemView::List(v) = i {
        if v.len() == 2 {
            if let ItemView::List(p) = v[1] {
                if p.len() == 1 && says_path(p[0], path) {
                    lemma_path(p[0], path);
                }
                if fails(i, chain) {
                    lemma_errors(p, chain);
                }
            }
        }
    }
}

/// The outcomes for many targets are gathered in the order of the targets; there is one for
/// each target, neither more nor fewer.
pub proof fn there_is_an_outcome_for_each_target<V>(
    before: Seq<Result<V, ErrorView>>,
    x: Result<V, ErrorView>,
    count: nat,
    cmd: Seq<char>,
    r: ResponseView,
)
    ensures
        before.len() < count ==> many_collected(
            before,
            count,
            Ok::<ManyItem<V>, ErrorView>(ManyItem::Result(x)),
            cmd,
        ) == Ok::<(Seq<Result<V, ErrorView>>, ManyStep), ErrorView>(
            (before.push(x), ManyStep::More),
        ),
        before.len() >= count ==> (many_collected(
            before,
            count,
            Ok::<ManyItem<V>, ErrorView>(ManyItem::Result(x)),
            cmd,
        ) matches Err(e) && e is Protocol),
        many_finished(before, count, r, cmd) is Ok <==> r.success && before.len() == count,
        many_finished(before, count, r, cmd) matches Ok(all) ==> all == before,
{
}

/// A delta that is recorded is the one that was sent: under the path of its file, with its
/// chunks in order, its checksums and its token. Deltas are recorded in the order in which
/// they end.
pub proof fn deltas_are_recorded_as_sent(
    s: RecorderView,
    path: Seq<char>,
    dir_token: Seq<char>,
    token: Seq<char>,
    copy_from: Option<(Seq<char>, u64)>,
    rev: u64,
    base_checksum: Option<Seq<char>>,
    chunk: Seq<u8>,
    text_checksum: Seq<char>,
)
    requires
        s.completed.len() < usize::MAX,
    ensures
        record(s, EditView::AddFile { path, dir_token, file_token: token, copy_from }) matches Ok(t)
            && t.file_paths == s.file_paths.insert(token, path) && t.pending == s.pending
            && t.completed == s.completed,
        record(s, EditView::OpenFile { path, dir_token, file_token: token, rev }) matches Ok(t)
            && t.file_paths == s.file_paths.insert(token, path) && t.pending == s.pending
            && t.completed == s.completed,
        !s.pending.dom().contains(token) ==> (record(
            s,
            EditView::ApplyTextDelta { file_token: token, base_checksum },
        ) matches Ok(t) && t.completed == s.completed && t.pending.dom().contains(token)
            && t.pending[token].chunks.len() == 0 && t.pending[token].base_checksum
            == base_checksum && t.pending[token].path == (if s.file_paths.dom().contains(token) {
            Some(s.file_paths[token])
        } else {
            None
        })),
        s.pending.dom().contains(token) ==> (record(
            s,
            EditView::ApplyTextDelta { file_token: token, base_checksum },
        ) is Err),
        s.pending.dom().contains(token) ==> (record(
            s,
            EditView::TextDeltaChunk { file_token: token, chunk },
        ) matches Ok(t) && t.completed == s.completed && t.pending.dom().contains(token)
            && t.pending[token].chunks == s.pending[token].chunks.push(chunk)
            && t.pending[token].path == s.pending[token].path && t.pending[token].base_checksum
            == s.pending[token].base_checksum),
        s.pending.dom().contains(token) ==> (record(
            s,
            EditView::TextDeltaEnd { file_token: token },
        ) matches Ok(t) && !t.pending.dom().contains(token) && t.completed.len()
            == s.completed.len() + 1 && t.completed.drop_last() == s.completed
            && t.completed.last().chunks == s.pending[token].chunks && t.completed.last().path
            == s.pending[token].path && t.completed.last().base_checksum
            == s.pending[token].base_checksum && t.completed.last().file_token == token && (record(
            t,
            EditView::CloseFile { file_token: token, text_checksum: Some(text_checksum) },
        ) matches Ok(u) && u.completed.len() == t.completed.len()
            && u.completed.last().text_checksum == Some(text_checksum)
            && u.completed.last().chunks == s.pending[token].chunks && u.completed.drop_last()
            == s.completed)),
        !s.pending.dom().contains(token) ==> record(
            s,
            EditView::TextDeltaChunk { file_token: token, chunk },
        ) is Err && record(s, EditView::TextDeltaEnd { file_token: token }) is Err,
        s.pending.dom().contains(token) ==> record(s, EditView::CloseEdit) is Err && record(
            s,
            EditView::AbortEdit,
        ) is Err,
{
    if s.pending.dom().contains(token) {
        let t = record(s, EditView::TextDeltaEnd { file_token: token })->Ok_0;
        assert(t.completed.drop_last() =~= s.completed);
        let u = record(
            t,
            EditView::CloseFile { file_token: token, text_checksum: Some(text_checksum) },
        )->Ok_0;
        assert(u.completed.drop_last() =~= s.completed);
        assert(s.pending != Map::<Seq<char>, PendingView>::empty()) by {
            assert(!Map::<Seq<char>, PendingView>::empty().dom().contains(token));
        }
    }
}

} // verus!
