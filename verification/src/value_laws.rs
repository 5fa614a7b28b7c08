//! What single values stand for, and what values begin with.

use vstd::prelude::*;
use vstd::utf8::*;

use crate::answer_laws::{a_failure_is_read_as_sent, fails};
use crate::conn::{choices_view, response_failure, response_of, ConnView};
use crate::delta_laws::only_three_versions_are_known;
use crate::edit::{
    command_name, command_of, ends_report, failure_view, report_ends, req_number, req_path,
    req_raw, req_text, success_view, tuple_copy,
};
use crate::editor::{EditView, EditorCommand, ReportView};
use crate::error::{error_text, ErrorView, ServerErrorItemView, ServerErrorView, SvnError};
use crate::event_laws::tells_error;
use crate::export_plan::{new_export, ExportView, FsActionView};
use crate::form_laws::{is_text, refused};
use crate::parse::{
    nth, nth_bool, nth_bytes, nth_list, nth_number, nth_string, nth_word, tuple_bytes,
    tuple_number, tuple_string, tuple_word,
};
use crate::raw::{
    bool_of, bytes_string_of, kind_of, list_of, number_of, string_of, word_of, ItemView,
};
use crate::sasl::{sasl_challenge, sasl_final};
use crate::sasl_laws::says_under;
use crate::server::{arg, calls, lemma_utf8, says_bytes, says_text};
use crate::ssh::{plain_settings, SshAuthView};
use crate::ssh_config::{block_matches, no_params};
use crate::ssh_parser::{continued, fresh_parser, has_wildcard, line_step, run, run_all, ParserView};
use crate::stream_driver::{part_took, SendingView};
use crate::svndiff::unpacked;
use crate::textdelta::StreamView;
use crate::types::opt_bytes;

verus! {

/// An item is what it is, and nothing else: a word, a number, a truth value, a string or a
/// list. A string is a text where it is well-formed.
pub proof fn an_item_is_what_it_is(
    i: ItemView,
    w: Seq<char>,
    n: u64,
    b: bool,
    s: Seq<u8>,
    v: Seq<ItemView>,
)
    ensures
        word_of(i) == Some(w) <==> i == ItemView::Word(w),
        number_of(i) == Some(n) <==> i == ItemView::Number(n),
        bool_of(i) == Some(b) <==> i == ItemView::Bool(b),
        bytes_string_of(i) == Some(s) <==> i == ItemView::String(s),
        list_of(i) == Some(v) <==> i == ItemView::List(v),
        string_of(i) == Some(w) <==> says_text(i, w),
        kind_of(i) == (match i {
            ItemView::Word(_) => "word"@,
            ItemView::Number(_) => "number"@,
            ItemView::Bool(_) => "bool"@,
            ItemView::String(_) => "string"@,
            ItemView::List(_) => "list"@,
        }),
{
}

/// What stands at a place of a list is found there, and nothing behind its end.
pub proof fn what_stands_at_a_place_is_found_there(
    items: Seq<ItemView>,
    i: int,
    w: Seq<char>,
    n: u64,
    b: bool,
    s: Seq<u8>,
    v: Seq<ItemView>,
)
    ensures
        0 <= i < items.len() ==> nth(items, i) == Some(items[i]),
        i < 0 || i >= items.len() ==> nth(items, i) is None && nth_word(items, i) is None
            && nth_number(items, i) is None && nth_bool(items, i) is None && nth_bytes(items, i)
            is None && nth_list(items, i) is None && nth_string(items, i) is None,
        0 <= i < items.len() ==> {
            &&& nth_word(items, i) == Some(w) <==> items[i] == ItemView::Word(w)
            &&& nth_number(items, i) == Some(n) <==> items[i] == ItemView::Number(n)
            &&& nth_bool(items, i) == Some(b) <==> items[i] == ItemView::Bool(b)
            &&& nth_bytes(items, i) == Some(s) <==> items[i] == ItemView::String(s)
            &&& nth_list(items, i) == Some(v) <==> items[i] == ItemView::List(v)
            &&& nth_string(items, i) == Some(w) <==> says_text(items[i], w)
        },
{
}

/// A value may stand by itself or in a tuple, and an empty tuple holds none.
pub proof fn a_value_may_stand_in_a_tuple(
    more: Seq<ItemView>,
    w: Seq<char>,
    n: u64,
    s: Seq<u8>,
    i: ItemView,
)
    requires
        says_text(i, w),
    ensures
        tuple_number(ItemView::Number(n)) == Some(n),
        tuple_number(ItemView::List(seq![ItemView::Number(n)] + more)) == Some(n),
        tuple_word(ItemView::Word(w)) == Some(w),
        tuple_word(ItemView::List(seq![ItemView::Word(w)] + more)) == Some(w),
        tuple_bytes(ItemView::String(s)) == Some(s),
        tuple_bytes(ItemView::List(seq![ItemView::String(s)] + more)) == Some(s),
        tuple_string(i) == Some(w),
        tuple_string(ItemView::List(seq![i] + more)) == Some(w),
        tuple_number(ItemView::List(Seq::empty())) is None,
        tuple_word(ItemView::List(Seq::empty())) is None,
        tuple_bytes(ItemView::List(Seq::empty())) is None,
        tuple_string(ItemView::List(Seq::empty())) is None,
        tuple_copy(ItemView::List(Seq::empty())) is None,
{
    assert((seq![ItemView::Number(n)] + more)[0] == ItemView::Number(n));
    assert((seq![ItemView::Word(w)] + more)[0] == ItemView::Word(w));
    assert((seq![ItemView::String(s)] + more)[0] == ItemView::String(s));
    assert((seq![i] + more)[0] == i);
}

/// A value that must be there is there, or the message is refused.
pub proof fn a_value_that_must_be_there_is_there(
    i: ItemView,
    what: Seq<char>,
    w: Seq<char>,
    n: u64,
    s: Seq<u8>,
)
    ensures
        req_text(i, what) == Ok::<Seq<char>, ErrorView>(w) <==> says_text(i, w),
        !is_text(i) ==> refused(req_text(i, what)) && refused(req_path(i, what)),
        req_number(i, what) == Ok::<u64, ErrorView>(n) <==> i == ItemView::Number(n),
        !(i is Number) ==> refused(req_number(i, what)),
        req_raw(i, what) == Ok::<Seq<u8>, ErrorView>(s) <==> says_bytes(i, s),
        !(i is String) ==> refused(req_raw(i, what)),
{
}

/// A command has a name and parameters; one without parameters has none. Success is told by
/// a word and no values, and a failure by one error.
pub proof fn a_command_has_a_name(
    i: ItemView,
    name: Seq<char>,
    p: Seq<ItemView>,
    e: ErrorView,
)
    ensures
        i == ItemView::List(seq![ItemView::Word(name), ItemView::List(p)]) ==> command_of(i)
            == Ok::<(Seq<char>, Seq<ItemView>), ErrorView>((name, p)) && command_name(i) == Some(
            name,
        ),
        i == ItemView::List(seq![ItemView::Word(name)]) ==> command_of(i) == Ok::<
            (Seq<char>, Seq<ItemView>),
            ErrorView,
        >((name, Seq::empty())),
        command_of(i) matches Ok((x, _)) ==> (i matches ItemView::List(v) && v.len() > 0 && v[0]
            == ItemView::Word(x)),
        command_of(i) is Err ==> refused(command_of(i)) && command_name(i) is None,
        calls(success_view(), "success"@, 0),
        calls(failure_view(e), "failure"@, 1) && tells_error(
            arg(failure_view(e), 0),
            error_text(e),
        ),
{
    lemma_utf8(error_text(e));
}

/// A report ends if one of its steps finishes or aborts it.
pub proof fn a_report_ends_with_a_step(report: Seq<ReportView>)
    ensures
        report_ends(report) <==> exists|i: int|
            0 <= i < report.len() && (#[trigger] report[i] is FinishReport || report[i]
                is AbortReport),
{
    if report_ends(report) {
        let i = choose|i: int|
            0 <= i < report.len() && ends_report(#[trigger] report[i]);
        assert(report[i] is FinishReport || report[i] is AbortReport);
    }
    if exists|i: int|
        0 <= i < report.len() && (#[trigger] report[i] is FinishReport || report[i]
            is AbortReport) {
        let i = choose|i: int|
            0 <= i < report.len() && (#[trigger] report[i] is FinishReport || report[i]
                is AbortReport);
        assert(ends_report(report[i]));
    }
}

/// A failure of a command is an error of the server, with the command and all that the server
/// told of it.
pub proof fn a_failure_names_its_command(
    i: ItemView,
    chain: Seq<ServerErrorItemView>,
    ctx: Seq<char>,
)
    requires
        fails(i, chain),
    ensures
        response_of(i) matches Ok(r) && response_failure(r, ctx) == ErrorView::Server(
            ServerErrorView { context: Some(ctx), chain },
        ),
{
    a_failure_is_read_as_sent(i, chain, ctx);
}

/// A connection keeps all but what is set anew.
pub proof fn a_connection_keeps_the_rest(
    c: ConnView,
    unread: Seq<u8>,
    caps: Seq<Seq<char>>,
    url: Seq<char>,
)
    ensures
        c.with_unread(unread).unread == unread,
        c.with_caps(caps).server_caps == caps,
        c.with_url(url).url == url,
        c.with_unread(unread).with_unread(c.unread) == c,
        c.with_caps(caps).with_caps(c.server_caps) == c,
        c.with_url(url).with_url(c.url) == c,
{
}

/// Bytes that may be missing, and choices of mechanisms, say what they hold.
pub proof fn values_say_what_they_hold(
    b: Option<Vec<u8>>,
    v: Seq<(String, Option<Vec<u8>>)>,
    k: int,
)
    ensures
        b matches Some(x) ==> opt_bytes(b) == Some(x@),
        b is None ==> opt_bytes(b) is None,
        choices_view(v).len() == v.len(),
        0 <= k < v.len() ==> choices_view(v)[k].0 == v[k].0@ && choices_view(v)[k].1 == opt_bytes(
            v[k].1,
        ),
{
}

/// A challenge is a step, a success or a failure, and the server's last word a success or a
/// failure; anything else is refused.
pub proof fn a_challenge_must_be_one(i: ItemView, word: Seq<char>, value: ItemView)
    requires
        says_under(i, word, value),
    ensures
        word != "step"@ && word != "success"@ && word != "failure"@ ==> refused(sasl_challenge(i)),
        (word == "step"@ || word == "success"@) && !(value is String) && word != "failure"@
            ==> refused(sasl_challenge(i)),
        sasl_final(i) is Ok <==> word == "success"@,
{
    reveal_strlit("success");
    reveal_strlit("failure");
    assert("success"@[0] == 's' && "failure"@[0] == 'f');
}

/// An export begins with nothing open and nothing pending, in its directory and with no
/// prefix taken off. A number for a temporary file is used once.
pub proof fn an_export_begins_with_nothing(
    root: Seq<char>,
    copies: bool,
    v: ExportView,
    a: FsActionView,
    token: Seq<char>,
)
    ensures
        new_export(root, copies).root == root,
        new_export(root, copies).copies == copies,
        new_export(root, copies).strip_prefix is None,
        !new_export(root, copies).files.dom().contains(token),
        !new_export(root, copies).sources.dom().contains(token),
        !new_export(root, copies).executable.dom().contains(token),
        !new_export(root, copies).pending.dom().contains(token),
        v.acted(a).files == v.files && v.acted(a).sources == v.sources && v.acted(a).pending
            == v.pending && v.acted(a).executable == v.executable && v.acted(a).root == v.root,
        a is OpenBase && v.next_tmp_id < u64::MAX ==> v.acted(a).next_tmp_id > v.next_tmp_id,
        !(a is OpenBase) ==> v.acted(a) == v,
{
}

/// Settings for a tunnel log in as they say and in no other way, check the key of the server,
/// and run the server's program.
pub proof fn settings_begin_with_one_login(auth: SshAuthView)
    ensures
        ({
            let s = plain_settings(auth);
            &&& s.auth == auth
            &&& s.username is None
            &&& s.host_key is KnownHosts
            &&& s.command == "svnserve -t"@
            &&& s.use_openssh_config
            &&& !s.try_ssh_agent
            &&& !s.try_default_identities
            &&& !s.accept_new_host_keys
        }),
{
}

/// What stands before the first block of a file of settings is for every host. An empty file
/// changes nothing, and lines are read one after the other.
pub proof fn settings_begin_for_every_host(host: Seq<char>, s: ParserView)
    ensures
        fresh_parser().blocks.len() == 1,
        fresh_parser().current == 0,
        !fresh_parser().skip,
        block_matches(fresh_parser().blocks[0].patterns, host),
        fresh_parser().blocks[0].params == no_params(),
        run_all(s, Seq::empty(), 0) == s,
{
}

/// The lines of a file are all read, also those behind a line that names other files.
pub proof fn all_lines_are_read(s: ParserView, lines: Seq<Seq<char>>, i: int)
    requires
        0 <= i < lines.len(),
    ensures
        ({
            let stop = run(s, lines, i, Seq::empty());
            &&& i < stop.next <= lines.len()
            &&& run_all(s, lines, i) == (if stop.next < lines.len() {
                run_all(stop.state, lines, stop.next)
            } else {
                stop.state
            })
        }),
{
    lemma_run_on(s, lines, i, Seq::empty());
}

proof fn lemma_run_on(s: ParserView, lines: Seq<Seq<char>>, i: int, before: Seq<char>)
    requires
        0 <= i < lines.len(),
    ensures
        i < run(s, lines, i, before).next <= lines.len(),
    decreases lines.len() - i,
{
    reveal_with_fuel(run, 2);
    let line = continued(before, lines[i]);
    if i + 1 < lines.len() {
        lemma_run_on(s, lines, i + 1, line.drop_last());
        let (t, _) = line_step(s, line);
        lemma_run_on(t, lines, i + 1, Seq::empty());
    }
}

/// A path names several files if it holds a star, a question mark or a bracket.
pub proof fn a_wildcard_is_a_star_a_mark_or_a_bracket(path: Seq<char>)
    ensures
        has_wildcard(path) <==> exists|k: int|
            0 <= k < path.len() && (#[trigger] path[k] == '*' || path[k] == '?' || path[k] == '['),
{
    if has_wildcard(path) {
        let c = if path.contains('*') {
            '*'
        } else if path.contains('?') {
            '?'
        } else {
            '['
        };
        let k = choose|k: int| 0 <= k < path.len() && path[k] == c;
        assert(path[k] == c);
    }
    if exists|k: int|
        0 <= k < path.len() && (#[trigger] path[k] == '*' || path[k] == '?' || path[k] == '[') {
        let k = choose|k: int|
            0 <= k < path.len() && (#[trigger] path[k] == '*' || path[k] == '?' || path[k] == '[');
        assert(path.contains(path[k]));
    }
}

/// A part of a streamed text goes behind those before it, and its commands are for its file;
/// a part without bytes ends the text, and another one follows. Nothing else changes.
pub proof fn a_part_of_a_streamed_text_is_sent(
    r: Result<Vec<EditorCommand>, SvnError>,
    before: SendingView,
    after: SendingView,
    data: Seq<u8>,
    k: int,
)
    requires
        before.text is Some,
        part_took(r, before, after, data),
        r is Ok,
    ensures
        after.commit == before.commit && after.at == before.at,
        data.len() > 0 ==> (after.text matches Some(t) && t.parts == before.text->0.parts.push(data)
            && t.token == before.text->0.token),
        data.len() == 0 ==> after.text is None,
        0 <= k < r->Ok_0.deep_view().len() ==> (
        r->Ok_0.deep_view()[k] matches EditView::TextDeltaChunk { file_token, .. } && file_token
            == before.text->0.token),
{
}

/// What is unpacked has the size that was told; anything else is refused, and so is what
/// cannot be unpacked.
pub proof fn what_is_unpacked_has_its_size(
    d: Result<Seq<u8>, Seq<char>>,
    size: nat,
    failed: Seq<char>,
    mismatch: Seq<char>,
)
    ensures
        match d {
            Ok(data) => data.len() == size ==> unpacked(d, size, failed, mismatch) == Ok::<
                Seq<u8>,
                ErrorView,
            >(data),
            Err(_) => refused(unpacked(d, size, failed, mismatch)),
        },
        d matches Ok(data) ==> (data.len() != size ==> refused(
            unpacked(d, size, failed, mismatch),
        )),
{
}

/// A header is bad as soon as its four bytes announce no version.
pub proof fn a_header_is_bad_if_it_announces_no_version(s: StreamView, chunk: Seq<u8>)
    requires
        s.header.len() < 4,
    ensures
        s.header.len() + chunk.len() < 4 ==> !s.bad_header(chunk),
        s.header.len() + chunk.len() >= 4 ==> (s.bad_header(chunk) <==> !({
            let h = s.header + chunk;
            h[0] == 83 && h[1] == 86 && h[2] == 78 && h[3] <= 2
        })),
{
    let h = s.header + chunk;
    if h.len() >= 4 {
        only_three_versions_are_known(h.take(4));
        if h[0] == 83 && h[1] == 86 && h[2] == 78 && h[3] <= 2 {
            assert(h.take(4) =~= seq![83u8, 86u8, 78u8, h[3]]);
            assert(h[3] == 0 || h[3] == 1 || h[3] == 2);
        }
    }
}

} // verus!
