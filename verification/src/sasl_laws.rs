//! What a mechanism of the security library is told, and what its messages lead to.

use vstd::prelude::*;

use crate::error::ErrorView;
use crate::raw::ItemView;
use crate::sasl::{
    coding_of, may_log_in_otherwise, mech_list, sasl_step, SaslActionView, SaslState, TokenCoding,
};
use crate::server::{lemma_utf8, says_bytes, says_text, says_word};

verus! {

/// A message of the server that gives one value under a word.
pub open spec fn says_under(i: ItemView, word: Seq<char>, value: ItemView) -> bool {
    i matches ItemView::List(v) && v.len() == 2 && says_word(v[0], word) && v[1]
        == ItemView::List(seq![value])
}

/// The token of a step goes to the mechanism, and its answer back to the server; the token
/// that comes with success goes to the mechanism, and nothing goes back; a failure ends the
/// login, with the reason that the server gives.
pub proof fn a_message_goes_to_the_mechanism(
    s: SaslState,
    i: ItemView,
    value: ItemView,
    token: Seq<u8>,
    reason: Seq<char>,
)
    requires
        s.wants_more,
    ensures
        says_under(i, "step"@, value) && says_bytes(value, token) ==> (sasl_step(s, i) matches Ok(
            (t, a),
        ) && !t.accepted && t.coding == s.coding && t.wants_more && a == SaslActionView::Step {
            token,
            coding: s.coding,
            answer: true,
        }),
        says_under(i, "success"@, value) && says_bytes(value, token) ==> (sasl_step(
            s,
            i,
        ) matches Ok((t, a)) && t.accepted && t.coding == s.coding && t.wants_more && a
            == SaslActionView::Step { token, coding: s.coding, answer: false }),
        says_under(i, "failure"@, value) && says_text(value, reason) ==> sasl_step(s, i) == Err::<
            (SaslState, SaslActionView),
            ErrorView,
        >(ErrorView::AuthFailed(reason)),
{
    lemma_kinds();
    lemma_utf8(reason);
}

/// Where the mechanism wants no more, the server has the last word: success ends the login,
/// a failure refuses it, and another token breaks the protocol.
pub proof fn the_server_has_the_last_word(
    s: SaslState,
    i: ItemView,
    word: Seq<char>,
    value: ItemView,
    reason: Seq<char>,
)
    requires
        !s.wants_more,
        says_under(i, word, value),
    ensures
        word == "success"@ ==> (sasl_step(s, i) matches Ok((t, a)) && t.accepted && t.coding
            == s.coding && !t.wants_more && a is Done),
        word == "failure"@ && says_text(value, reason) ==> sasl_step(s, i) == Err::<
            (SaslState, SaslActionView),
            ErrorView,
        >(ErrorView::AuthFailed(reason)),
        word != "success"@ && word != "failure"@ ==> (sasl_step(s, i) matches Err(e) && e
            is Protocol),
{
    lemma_kinds();
    lemma_utf8(reason);
}

proof fn lemma_kinds()
    ensures
        "step"@ != "success"@,
        "step"@ != "failure"@,
        "success"@ != "failure"@,
{
    reveal_strlit("step");
    reveal_strlit("success");
    reveal_strlit("failure");
    assert("step"@.len() == 4 && "success"@.len() == 7 && "failure"@.len() == 7);
    assert("success"@[0] == 's' && "failure"@[0] == 'f');
}

/// The mechanism that needs no password comes before all others: EXTERNAL, then ANONYMOUS.
/// Where the server offers neither, the library may choose among all that it offers, and
/// their names are handed over in the server's order with a space between two of them.
pub proof fn the_library_may_choose_among_what_is_offered(
    mechs: Seq<Seq<char>>,
    more: Seq<char>,
)
    ensures
        mechs.contains("EXTERNAL"@) ==> mech_list(mechs) == "EXTERNAL"@,
        !mechs.contains("EXTERNAL"@) && mechs.contains("ANONYMOUS"@) ==> mech_list(mechs)
            == "ANONYMOUS"@,
        !mechs.push(more).contains("EXTERNAL"@) && !mechs.push(more).contains("ANONYMOUS"@) ==> (
        mech_list(mechs.push(more)) == if mechs.len() == 0 {
            more
        } else {
            mech_list(mechs) + " "@ + more
        }),
        mech_list(Seq::empty()) == Seq::<char>::empty(),
{
    let all = mechs.push(more);
    assert(all.drop_last() =~= mechs);
    if mechs.contains("EXTERNAL"@) {
        let k = mechs.index_of("EXTERNAL"@);
        assert(all[k] == "EXTERNAL"@);
    }
    if mechs.contains("ANONYMOUS"@) {
        let k = mechs.index_of("ANONYMOUS"@);
        assert(all[k] == "ANONYMOUS"@);
    }
}

/// Tokens travel in base 64, but for those of CRAM-MD5, which travel as they are.
pub proof fn tokens_travel_in_base_64(mech: Seq<char>)
    ensures
        coding_of(mech) == TokenCoding::Plain <==> mech == "CRAM-MD5"@,
        coding_of(mech) == TokenCoding::Base64 <==> mech != "CRAM-MD5"@,
{
}

/// Another way to log in is tried after a refusal, and after nothing else.
pub proof fn another_login_follows_a_refusal(reason: Seq<char>, e: ErrorView)
    ensures
        may_log_in_otherwise(ErrorView::AuthFailed(reason)),
        may_log_in_otherwise(ErrorView::AuthUnavailable),
        e is Protocol || e is Io || e is Server || e is InvalidUrl || e is InvalidPath
            ==> !may_log_in_otherwise(e),
{
}

} // verus!
