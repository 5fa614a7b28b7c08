//! What a session decides: when a connection is given up, what is asked for next, which
//! format is used, and what is never done to a file system.

use vstd::prelude::*;

use crate::client::{
    dirs_among, drops_connection, lost_connection, proplist_asked, report_finished, revs_between,
    ProplistView, SessionView,
};
use crate::commit::{copy_rev, settings_checked, version_for, CopyOpView, SvndiffMode};
use crate::commit_send::compat_version;
use crate::editor::ReportView;
use crate::error::ErrorView;
use crate::fs_guard::{
    at_or_below, dir_on_the_way, entry_copied, file_required, way_through, CopyStep, FsNode,
};
use crate::path::{rel_dir_path, rel_path};
use crate::path_laws::blank;
use crate::pool::{SessionPoolHealthCheck, idle_nanos, last_live, PoolConfigView};
use crate::results::DirEntryView;
use crate::server::{arg, calls, may_say_number, says_bool, says_text};
use crate::svndiff::SvndiffVersion;
use crate::text::{has_part, is_space};
use crate::time::Duration;
use crate::types::{Capability, NodeKind};

verus! {

/// A connection is given up after an error of the protocol or of the transport, and kept
/// after what the server refused and after what was wrong with a request. It was lost where
/// the transport says so, or where it ended in the middle of something.
pub proof fn a_connection_is_given_up_when_it_cannot_be_trusted(e: ErrorView)
    ensures
        drops_connection(e) <==> e is Protocol || e is Io,
        lost_connection(e) ==> drops_connection(e),
        e matches ErrorView::Io(k, _) ==> (lost_connection(e) <==> k is ConnectionAborted || k
            is ConnectionReset || k is BrokenPipe || k is UnexpectedEof),
        e matches ErrorView::Protocol(m) ==> (lost_connection(e) <==> exists|i: int|
            0 <= i <= m.len() - 14 && #[trigger] m.subrange(i, i + 14) == "unexpected EOF"@),
{
    if let ErrorView::Protocol(m) = e {
        reveal_strlit("unexpected EOF");
        let pat = "unexpected EOF"@;
        assert(pat.len() == 14);
        lemma_has_part(m, pat);
    }
}

/// A part stands somewhere in a text.
proof fn lemma_has_part(m: Seq<char>, pat: Seq<char>)
    ensures
        has_part(m, pat) <==> exists|i: int|
            0 <= i <= m.len() - pat.len() && #[trigger] m.subrange(i, i + pat.len()) == pat,
{
}

/// A session has a capability exactly if the server or its repository named it.
pub proof fn a_capability_is_one_that_was_named(s: SessionView, c: Capability)
    ensures
        s.server_info is None ==> !s.has(c),
        s.server_info matches Some(info) ==> (s.has(c) <==> info.server_caps.contains(
            crate::types::capability_word(c),
        ) || info.repository.capabilities.contains(crate::types::capability_word(c))),
{
}

/// The properties of a node are asked for as those of what it is: a file or a directory, by
/// its path and at the revision. Nothing is asked for where there is no such node, and
/// nothing is known where its kind is not.
pub proof fn properties_are_asked_for_by_kind(path: Seq<char>, rev: Option<u64>, kind: NodeKind)
    ensures
        rel_dir_path(path) matches Err(e) ==> proplist_asked(path, rev, kind) == Err::<
            ProplistView,
            ErrorView,
        >(e),
        rel_dir_path(path) matches Ok(p) ==> match kind {
            NodeKind::Missing => proplist_asked(path, rev, kind) == Ok::<ProplistView, ErrorView>(
                ProplistView::Missing,
            ),
            NodeKind::Unknown => proplist_asked(path, rev, kind) matches Err(e) && e is Protocol,
            NodeKind::File => match rel_path(p) {
                Ok(q) => proplist_asked(path, rev, kind) matches Ok(ProplistView::File(i))
                    && calls(i, "get-file"@, 5) && says_text(arg(i, 0), q) && may_say_number(
                    arg(i, 1),
                    rev,
                ) && says_bool(arg(i, 2), true) && says_bool(arg(i, 3), false),
                Err(e) => proplist_asked(path, rev, kind) == Err::<ProplistView, ErrorView>(e),
            },
            NodeKind::Dir => proplist_asked(path, rev, kind) matches Ok(ProplistView::Dir(i))
                && calls(i, "get-dir"@, 6) && says_text(arg(i, 0), p) && may_say_number(
                arg(i, 1),
                rev,
            ) && says_bool(arg(i, 2), true) && says_bool(arg(i, 3), false),
        },
{
    if let Ok(p) = rel_dir_path(path) {
        crate::request_laws::a_file_is_asked_for(p, 0, false, rev);
        crate::request_laws::a_directory_is_asked_for(path, rev, Seq::empty());
    }
}

/// A report must end: with its finish, or with its being aborted.
pub proof fn a_report_must_end(report: Seq<ReportView>)
    ensures
        report_finished(report) is Ok <==> report.len() > 0 && (report[report.len() - 1]
            is FinishReport || report[report.len() - 1] is AbortReport),
        report_finished(report) matches Err(e) ==> e is Protocol,
{
}

/// A walk down a tree visits every directory that it finds, and nothing else.
pub proof fn a_walk_visits_every_directory(entries: Seq<DirEntryView>, p: Seq<char>)
    ensures
        dirs_among(entries, entries.len() as int).contains(p) <==> exists|k: int|
            0 <= k < entries.len() && (#[trigger] entries[k]).kind is Dir && entries[k].path == p,
{
    lemma_dirs_among(entries, entries.len() as int, p);
}

proof fn lemma_dirs_among(entries: Seq<DirEntryView>, n: int, p: Seq<char>)
    requires
        0 <= n <= entries.len(),
    ensures
        dirs_among(entries, n).contains(p) <==> exists|k: int|
            0 <= k < n && (#[trigger] entries[k]).kind is Dir && entries[k].path == p,
    decreases n,
{
    if n > 0 {
        lemma_dirs_among(entries, n - 1, p);
        let before = dirs_among(entries, n - 1);
        let now = dirs_among(entries, n);
        if before.contains(p) {
            let k = choose|k: int| 0 <= k < before.len() && before[k] == p;
            assert(now[k] == p);
        }
        if now.contains(p) && !before.contains(p) {
            let k = choose|k: int| 0 <= k < now.len() && now[k] == p;
            if k < before.len() {
                assert(before[k] == p);
            }
            assert(entries[n - 1].path == p);
        }
        if exists|k: int|
            0 <= k < n && (#[trigger] entries[k]).kind is Dir && entries[k].path == p {
            let k = choose|k: int|
                0 <= k < n && (#[trigger] entries[k]).kind is Dir && entries[k].path == p;
            if k == n - 1 {
                assert(now.last() == p);
            } else {
                assert(entries[k].kind is Dir);
            }
        }
    }
}

/// A range of revisions is replayed from its first to its last, one by one.
pub proof fn a_range_is_replayed_in_order(start: u64, end: u64)
    ensures
        start <= end ==> revs_between(start, end).len() == end - start + 1,
        start > end ==> revs_between(start, end).len() == 0,
        forall|k: int|
            0 <= k < revs_between(start, end).len() ==> #[trigger] revs_between(start, end)[k]
                == start + k,
{
}

/// The format of a delta is the newest that the server understands, or the one that was
/// asked for, which the server must understand.
pub proof fn the_format_is_one_that_the_server_understands(
    mode: SvndiffMode,
    svndiff1: bool,
    svndiff2: bool,
)
    ensures
        version_for(mode, svndiff1, svndiff2) matches Ok(v) ==> (v is V1 ==> svndiff1) && (v is V2
            ==> svndiff2),
        mode is Auto ==> (version_for(mode, svndiff1, svndiff2) matches Ok(v) && (v is V2
            <==> svndiff2) && (v is V1 <==> svndiff1 && !svndiff2)),
        mode is V0 ==> version_for(mode, svndiff1, svndiff2) == Ok::<SvndiffVersion, ErrorView>(
            SvndiffVersion::V0,
        ),
        mode is V1 ==> (version_for(mode, svndiff1, svndiff2) is Ok <==> svndiff1),
        mode is V2 ==> (version_for(mode, svndiff1, svndiff2) is Ok <==> svndiff2),
        version_for(mode, svndiff1, svndiff2) matches Ok(v) ==> (mode is V1 ==> v is V1) && (mode
            is V2 ==> v is V2),
        version_for(mode, svndiff1, svndiff2) matches Err(e) ==> e is Protocol,
{
}

/// There must be something to commit, and the level of compression must be one.
pub proof fn there_must_be_something_to_commit(count: nat, level: u32)
    ensures
        settings_checked(count, level) is Ok <==> count > 0 && level <= 9,
        settings_checked(count, level) matches Err(e) ==> e is Protocol,
{
}

/// A copy is made from the revision that was named, or else from the one that the commit is
/// made against.
pub proof fn a_copy_is_from_its_revision(c: CopyOpView, base_rev: u64)
    ensures
        c.from_rev matches Some(r) ==> copy_rev(c, base_rev) == r,
        c.from_rev is None ==> copy_rev(c, base_rev) == base_rev,
{
}

/// The version that a client names itself by is the word behind `SVN/`; a client without
/// such a name goes by the version of the library.
pub proof fn the_version_of_a_client_is_its_word(
    spaces: Seq<char>,
    word: Seq<char>,
    tail: Seq<char>,
    other: Seq<char>,
)
    requires
        blank(spaces),
        word.len() > 0,
        forall|k: int| 0 <= k < word.len() ==> !is_space(#[trigger] word[k]),
        tail.len() > 0 ==> is_space(tail[0]),
        other.len() < 4 || other.take(4) != "SVN/"@,
    ensures
        compat_version("SVN/"@ + spaces + word + tail) == word,
        compat_version(other) == "0.1.0"@,
{
    reveal_strlit("SVN/");
    let s = "SVN/"@ + spaces + word + tail;
    assert(s.take(4) =~= "SVN/"@);
    let rest = s.skip(4);
    assert(rest =~= spaces + (word + tail));
    assert((word + tail)[0] == word[0]);
    crate::path_laws::lemma_trim_start(spaces, word + tail);
    lemma_word_ends(word + tail, word.len() as int, 0);
    assert((word + tail).take(word.len() as int) =~= word);
}

proof fn lemma_word_ends(t: Seq<char>, n: int, i: int)
    requires
        0 <= i <= n <= t.len(),
        forall|k: int| 0 <= k < n ==> !is_space(#[trigger] t[k]),
        n < t.len() ==> is_space(t[n]),
    ensures
        crate::commit_send::space_from(t, i) == n,
    decreases n - i,
{
    if i < n {
        assert(!is_space(t[i]));
        lemma_word_ends(t, n, i + 1);
    }
}

/// Nothing is written through a symbolic link, nothing is copied from one or over one, and
/// no directory is made over anything else. A file is copied, a directory is gone into, and
/// where only what is missing is copied, what is there stays.
pub proof fn links_are_never_followed(node: FsNode, src: FsNode, dest: FsNode, only_missing: bool)
    ensures
        way_through(node) is Err <==> node is Link,
        way_through(node) matches Ok(go_on) ==> (go_on <==> !(node is Missing)),
        dir_on_the_way(node, false) matches Ok(s) ==> (s is Create <==> node is Missing) && (s
            is Next <==> node is Dir),
        dir_on_the_way(node, false) is Ok <==> node is Missing || node is Dir,
        dir_on_the_way(node, true) is Ok <==> node is Dir,
        src is Link ==> entry_copied(src, dest, only_missing) is Err,
        src is File && dest is Link ==> entry_copied(src, dest, only_missing) is Err,
        only_missing && dest is Link ==> entry_copied(src, dest, only_missing) is Err,
        src is File && dest is Missing ==> entry_copied(src, dest, only_missing) == Ok::<
            CopyStep,
            ErrorView,
        >(CopyStep::CopyFile),
        only_missing && !(dest is Missing) ==> entry_copied(src, dest, only_missing) != Ok::<
            CopyStep,
            ErrorView,
        >(CopyStep::CopyFile) && entry_copied(src, dest, only_missing) != Ok::<
            CopyStep,
            ErrorView,
        >(CopyStep::CopyTree),
        src is Dir && dest is Dir ==> entry_copied(src, dest, only_missing) == Ok::<
            CopyStep,
            ErrorView,
        >(CopyStep::Descend),
        src is Dir && dest is Missing ==> (entry_copied(src, dest, only_missing) matches Ok(s) && (s
            is CopyTree || s is Descend)),
        file_required(dest, None) is Ok <==> !(dest is Missing),
        file_required(dest, Some(src)) is Ok <==> !(dest is Missing && src is Missing),
        file_required(dest, Some(src)) matches Ok(copy) ==> (copy <==> dest is Missing),
{
}

/// A directory is not copied into itself: what is the directory or stands below it is told
/// from what is not.
pub proof fn below_is_told_from_beside(dir: Seq<char>, name: Seq<char>)
    requires
        dir.len() > 0,
        dir.last() != '/',
        name.len() > 0,
    ensures
        at_or_below(dir, dir),
        at_or_below(dir + seq!['/'] + name, dir),
        name[0] != '/' ==> !at_or_below(dir + name, dir),
{
    reveal_strlit("/");
    let d = dir + "/"@ + Seq::<char>::empty();
    assert("/"@ =~= seq!['/']);
    assert(d =~= dir + seq!['/']);
    let a = dir + seq!['/'] + name;
    assert(a.take(d.len() as int) =~= d);
    let b = dir + name;
    if name[0] != '/' {
        if b.len() >= d.len() && b.take(d.len() as int) == d {
            assert(b.take(d.len() as int)[dir.len() as int] == name[0]);
            assert(d[dir.len() as int] == '/');
        }
    }
}

/// The session that is taken from a pool is the one that was put back last among those that
/// have not been idle for too long; there is none where all have been.
pub proof fn a_pool_gives_the_freshest_session<S>(
    entries: Seq<(S, Duration)>,
    now: Duration,
    config: PoolConfigView,
)
    ensures
        ({
            let k = last_live(entries, entries.len() as int, now, config);
            &&& -1 <= k < entries.len()
            &&& forall|j: int|
                k < j < entries.len() ==> too_long((#[trigger] entries[j]).1, now, config)
            &&& k >= 0 ==> !too_long(entries[k].1, now, config)
        }),
{
    lemma_last_live(entries, entries.len() as int, now, config);
}

/// Since `since` a session has been idle for too long.
pub open spec fn too_long(since: Duration, now: Duration, config: PoolConfigView) -> bool {
    config.idle_timeout matches Some(t) && (if now.total() >= since.total() {
        now.total() - since.total()
    } else {
        0
    }) >= t.total()
}

proof fn lemma_last_live<S>(
    entries: Seq<(S, Duration)>,
    n: int,
    now: Duration,
    config: PoolConfigView,
)
    requires
        0 <= n <= entries.len(),
    ensures
        ({
            let k = last_live(entries, n, now, config);
            &&& -1 <= k < n
            &&& forall|j: int| k < j < n ==> too_long((#[trigger] entries[j]).1, now, config)
            &&& k >= 0 ==> !too_long(entries[k].1, now, config)
        }),
    decreases n,
{
    if n > 0 && config.expired(idle_nanos(now, entries[n - 1].1)) {
        lemma_last_live(entries, n - 1, now, config);
    }
}

/// A session is checked before it is used again as the pool says: never, always, or once it
/// has been idle for so long.
pub proof fn a_session_is_checked_as_the_pool_says(config: PoolConfigView, idle: nat)
    ensures
        match config.health_check {
            SessionPoolHealthCheck::Never => !config.checks(idle),
            SessionPoolHealthCheck::OnCheckout => config.checks(idle),
            SessionPoolHealthCheck::OnCheckoutIfIdleFor(t) => config.checks(idle) <==> idle
                >= t.secs * 1_000_000_000 + t.nanos,
        },
{
}

/// What is copied into a tree replaces the files that are there; where only what is missing
/// is copied, it replaces nothing, and whole trees are copied where none was. What is neither
/// a file nor a directory is never copied.
pub proof fn a_copy_replaces_files_or_fills_in(src: FsNode, dest: FsNode)
    ensures
        src is File && !(dest is Link) ==> entry_copied(src, dest, false) == Ok::<
            CopyStep,
            ErrorView,
        >(CopyStep::CopyFile),
        src is Dir ==> entry_copied(src, dest, false) == Ok::<CopyStep, ErrorView>(
            CopyStep::Descend,
        ),
        src is Dir && dest is Missing ==> entry_copied(src, dest, true) == Ok::<
            CopyStep,
            ErrorView,
        >(CopyStep::CopyTree),
        !(src is Link) && !(dest is Link) && !(dest is Missing) && !(src is Dir && dest is Dir)
            ==> entry_copied(src, dest, true) == Ok::<CopyStep, ErrorView>(CopyStep::Skip),
        !(src is File) && !(src is Dir) ==> entry_copied(src, dest, false) is Err && (dest
            is Missing ==> entry_copied(src, dest, true) is Err),
        entry_copied(src, dest, true) matches Err(e) ==> e is InvalidPath,
        entry_copied(src, dest, false) matches Err(e) ==> e is InvalidPath,
{
}

} // verus!
