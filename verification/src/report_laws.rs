//! What errors say, and what is passed over.

use vstd::prelude::*;

use crate::answer_laws::{a_failure_is_read_as_sent, fails};
use crate::answers::deleted_rev;
use crate::auth::{garbage_after, garbage_step, greeting_at, GarbageView};
use crate::commit_send::commands_checked;
use crate::conn::response_of;
use crate::editor::EditView;
use crate::error::{error_text, summary, ErrorView, ServerErrorItemView, ServerErrorView};
use crate::raw::ItemView;
use crate::requests::usual_fields;
use crate::streams::unknown_command;
use crate::text::{has_part, lower_text};
use crate::types::DirentField;
use crate::wire::is_ws;

verus! {

/// A failure of the server is told by its messages, in the order in which the server gave
/// them; what has no message adds nothing.
pub proof fn a_failure_is_told_by_its_messages(
    chain: Seq<ServerErrorItemView>,
    e: ServerErrorItemView,
    m: Seq<char>,
)
    ensures
        summary(Seq::empty()) == Seq::<char>::empty(),
        e.message == Some(m) && m.len() > 0 && summary(chain).len() == 0 ==> summary(chain.push(e))
            == m,
        e.message == Some(m) && m.len() > 0 && summary(chain).len() > 0 ==> summary(chain.push(e))
            == summary(chain) + "; "@ + m,
        e.message is None || e.message == Some(Seq::<char>::empty()) ==> summary(chain.push(e))
            == summary(chain),
{
    assert(chain.push(e).drop_last() =~= chain);
}

/// An error says what kind of error it is, and then what is wrong.
pub proof fn an_error_says_what_it_is(
    m: Seq<char>,
    ctx: Seq<char>,
    e: ServerErrorItemView,
    kind: ErrorView,
)
    requires
        e.message == Some(m),
    ensures
        error_text(ErrorView::InvalidUrl(m)) == "invalid url: "@ + m,
        error_text(ErrorView::InvalidPath(m)) == "invalid path: "@ + m,
        error_text(ErrorView::Protocol(m)) == "protocol error: "@ + m,
        error_text(ErrorView::AuthFailed(m)) == "authentication failed: "@ + m,
        error_text(ErrorView::AuthUnavailable) == "no supported authentication mechanism"@,
        kind matches ErrorView::Io(_, n) ==> error_text(kind) == "io error: "@ + n,
        error_text(
            ErrorView::Server(ServerErrorView { context: None, chain: seq![e] }),
        ) == "server error: "@ + m,
        error_text(
            ErrorView::Server(ServerErrorView { context: Some(ctx), chain: seq![e] }),
        ) == "server error: "@ + ctx + ": "@ + m,
{
    lemma_one_message(e, m);
}

/// A path that was never deleted is answered by a failure that speaks of a missing revision:
/// it is no error. Any other failure is handed on.
pub proof fn a_missing_revision_is_no_error(
    i: ItemView,
    e: ServerErrorItemView,
    m: Seq<char>,
    a: Seq<char>,
    b: Seq<char>,
)
    requires
        fails(i, seq![e]),
        e.message == Some(m),
    ensures
        lower_text(m) == a + "missing revision"@ + b ==> (response_of(i) matches Ok(r)
            && deleted_rev(r) == Ok::<Option<u64>, ErrorView>(None)),
        (forall|k: int|
            0 <= k <= m.len() - 16 ==> #[trigger] lower_text(m).subrange(k, k + 16)
                != "missing revision"@) ==> (response_of(i) matches Ok(r) && deleted_rev(r)
            == Err::<Option<u64>, ErrorView>(
            ErrorView::Server(
                ServerErrorView { context: Some("get-deleted-rev"@), chain: seq![e] },
            ),
        )),
{
    reveal_strlit("missing revision");
    let pat = "missing revision"@;
    assert(pat.len() == 16);
    a_failure_is_read_as_sent(i, seq![e], "get-deleted-rev"@);
    lemma_one_message(e, m);
    let low = lower_text(m);
    if low == a + pat + b {
        let k = a.len() as int;
        assert(low.subrange(k, k + pat.len()) =~= pat);
        assert(has_part(low, pat));
    }
}

/// Letters count in either case: each capital letter is taken as the small one, and nothing
/// else is changed.
pub proof fn letters_count_in_either_case(s: Seq<char>, k: int)
    requires
        0 <= k < s.len(),
    ensures
        lower_text(s).len() == s.len(),
        'A' <= s[k] <= 'Z' ==> lower_text(s)[k] as u32 == s[k] as u32 + 32,
        !('A' <= s[k] <= 'Z') ==> lower_text(s)[k] == s[k],
{
}

proof fn lemma_greeting_at(b: Seq<u8>, i: int, saw: bool, n: int)
    requires
        0 <= i <= n <= b.len(),
        saw && i < n ==> !is_ws(b[i]),
        forall|k: int| i <= k < n - 1 ==> !(#[trigger] b[k] == 40 && is_ws(b[k + 1])),
        n < b.len() ==> is_ws(b[n]) && (if i == n {
            saw
        } else {
            b[n - 1] == 40
        }),
    ensures
        greeting_at(b, i, saw) == n,
    decreases n - i,
{
    if i < n {
        assert(i < n - 1 ==> !(b[i] == 40 && is_ws(b[i + 1])));
        lemma_greeting_at(b, i + 1, b[i] == 40, n);
    }
}

/// What comes before the greeting is passed over: the greeting begins with the first opening
/// parenthesis that a space or the end of a line follows, and nothing behind it is lost.
pub proof fn what_comes_before_the_greeting_is_passed_over(
    s: GarbageView,
    junk: Seq<u8>,
    space: u8,
    rest: Seq<u8>,
)
    requires
        space == 32 || space == 10,
        s.saw_lparen ==> junk.len() > 0 && !is_ws(junk[0]),
        forall|k: int| 0 <= k < junk.len() - 1 ==> !(#[trigger] junk[k] == 40 && is_ws(
            junk[k + 1],
        )),
        0 <= s.discarded,
        s.discarded + junk.len() + rest.len() + 2 <= 65536,
    ensures
        garbage_step(s, junk + seq![40u8, space] + rest) == Ok::<Option<Seq<u8>>, ErrorView>(
            Some(seq![40u8, space] + rest),
        ),
{
    let chunk = junk + seq![40u8, space] + rest;
    let n = junk.len() as int + 1;
    assert(chunk[n] == space);
    assert(chunk[n - 1] == 40);
    assert forall|k: int| 0 <= k < n - 1 implies !(#[trigger] chunk[k] == 40 && is_ws(
        chunk[k + 1],
    )) by {
        assert(chunk[k] == junk[k]);
        if k < junk.len() - 1 {
            assert(chunk[k + 1] == junk[k + 1]);
        }
    }
    lemma_greeting_at(chunk, 0, s.saw_lparen, n);
    assert(seq![40u8] + chunk.skip(n) =~= seq![40u8, space] + rest);
}

/// Without a greeting nothing is found; and with more than 65536 bytes nothing is looked for
/// any longer.
pub proof fn without_a_greeting_nothing_is_found(s: GarbageView, junk: Seq<u8>)
    requires
        s.saw_lparen && junk.len() > 0 ==> !is_ws(junk[0]),
        forall|k: int| 0 <= k < junk.len() - 1 ==> !(#[trigger] junk[k] == 40 && is_ws(
            junk[k + 1],
        )),
        0 <= s.discarded,
        s.discarded + junk.len() <= usize::MAX,
    ensures
        s.discarded + junk.len() <= 65536 ==> garbage_step(s, junk) == Ok::<
            Option<Seq<u8>>,
            ErrorView,
        >(None),
        s.discarded + junk.len() > 65536 ==> (garbage_step(s, junk) matches Err(e) && e
            is Protocol),
{
    lemma_greeting_at(junk, 0, s.saw_lparen, junk.len() as int);
}

/// Commands are committed only if the last of them closes the edit, and nothing before it
/// closes or aborts it.
pub proof fn only_whole_drives_are_committed(commands: Seq<EditView>)
    ensures
        commands_checked(commands) is Ok <==> commands.len() > 0 && commands.last() is CloseEdit
            && forall|i: int|
            0 <= i < commands.len() - 1 ==> !(#[trigger] commands[i] is CloseEdit)
                && !(commands[i] is AbortEdit),
        commands_checked(commands) matches Err(e) ==> e is Protocol,
{
}

/// A listing usually tells every field of an entry.
pub proof fn a_listing_usually_tells_every_field(f: DirentField)
    ensures
        usual_fields().contains(f),
{
    let u = usual_fields();
    assert(u[0] is Kind && u[1] is Size && u[2] is HasProps);
    assert(u[3] is CreatedRev && u[4] is Time && u[5] is LastAuthor);
}

proof fn lemma_greeting_in_two(a: Seq<u8>, b: Seq<u8>, i: int, saw: bool)
    requires
        0 <= i < a.len(),
        greeting_at(a, i, saw) == a.len(),
    ensures
        greeting_at(a + b, i, saw) == a.len() + greeting_at(b, 0, a.last() == 40),
    decreases a.len() - i,
{
    let all = a + b;
    assert(all[i] == a[i]);
    if i + 1 < a.len() {
        lemma_greeting_in_two(a, b, i + 1, a[i] == 40);
    } else {
        lemma_greeting_behind(a, b, 0, a.last() == 40);
    }
}

proof fn lemma_greeting_behind(a: Seq<u8>, b: Seq<u8>, i: int, saw: bool)
    requires
        0 <= i <= b.len(),
    ensures
        greeting_at(a + b, a.len() + i, saw) == a.len() + greeting_at(b, i, saw),
    decreases b.len() - i,
{
    if i < b.len() {
        assert((a + b)[a.len() + i] == b[i]);
        lemma_greeting_behind(a, b, i + 1, b[i] == 40);
    }
}

/// It does not matter how what comes before the greeting is cut: a greeting that is found in
/// the second part is found in both together.
pub proof fn the_greeting_is_found_however_it_is_cut(s: GarbageView, a: Seq<u8>, b: Seq<u8>)
    requires
        a.len() > 0,
        0 <= s.discarded,
        s.discarded + a.len() + b.len() <= 65536,
        garbage_step(s, a) == Ok::<Option<Seq<u8>>, ErrorView>(None),
    ensures
        garbage_step(s, a + b) == garbage_step(garbage_after(s, a), b),
{
    lemma_greeting_at_most(a, 0, s.saw_lparen);
    lemma_greeting_in_two(a, b, 0, s.saw_lparen);
    let k = greeting_at(b, 0, a.last() == 40);
    lemma_greeting_at_most(b, 0, a.last() == 40);
    if k < b.len() {
        assert((a + b).skip(a.len() + k) =~= b.skip(k));
    }
}

proof fn lemma_greeting_at_most(b: Seq<u8>, i: int, saw: bool)
    requires
        0 <= i <= b.len(),
    ensures
        i <= greeting_at(b, i, saw) <= b.len(),
    decreases b.len() - i,
{
    if i < b.len() {
        lemma_greeting_at_most(b, i + 1, b[i] == 40);
    }
}

/// The messages of one error are its message.
proof fn lemma_one_message(e: ServerErrorItemView, m: Seq<char>)
    requires
        e.message == Some(m),
    ensures
        summary(seq![e]) == m,
{
    let none = Seq::<ServerErrorItemView>::empty();
    assert(seq![e].drop_last() =~= none);
    assert(seq![e].last() == e);
    assert(summary(none) == Seq::<char>::empty());
    if m.len() == 0 {
        assert(m =~= Seq::empty());
    }
}

/// A text stands somewhere in another.
pub open spec fn stands_somewhere(m: Seq<char>, part: Seq<char>) -> bool {
    exists|a: Seq<char>, b: Seq<char>| m == #[trigger] ((a + part) + b)
}

proof fn lemma_somewhere(m: Seq<char>, part: Seq<char>)
    ensures
        has_part(m, part) <==> stands_somewhere(m, part),
{
    if has_part(m, part) {
        let i = choose|i: int|
            0 <= i <= m.len() - part.len() && #[trigger] m.subrange(i, i + part.len()) == part;
        let a = m.take(i);
        let b = m.skip(i + part.len());
        assert(m =~= (a + m.subrange(i, i + part.len())) + b);
        assert(m == (a + part) + b);
    }
    if stands_somewhere(m, part) {
        let (a, b) = choose|a: Seq<char>, b: Seq<char>| m == #[trigger] ((a + part) + b);
        let i = a.len() as int;
        assert(m.subrange(i, i + part.len()) =~= part);
    }
}

/// That a server does not know a command is told by its message, in either of two wordings
/// and in either case of letters; no other error tells it.
pub proof fn an_unknown_command_is_told_by_its_message(
    e: ErrorView,
    i: ServerErrorItemView,
    ctx: Option<Seq<char>>,
    m: Seq<char>,
)
    requires
        i.message == Some(m),
    ensures
        ({
            let low = lower_text(m);
            let told = stands_somewhere(low, "unknown command"@) || stands_somewhere(
                low,
                "unknown cmd"@,
            );
            &&& unknown_command(ErrorView::Protocol(m)) <==> told
            &&& unknown_command(
                ErrorView::Server(ServerErrorView { context: ctx, chain: seq![i] }),
            ) <==> told
        }),
        !(e is Protocol) && !(e is Server) ==> !unknown_command(e),
{
    lemma_one_message(i, m);
    lemma_somewhere(lower_text(m), "unknown command"@);
    lemma_somewhere(lower_text(m), "unknown cmd"@);
}

} // verus!
