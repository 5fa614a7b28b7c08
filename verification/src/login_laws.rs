//! How a session begins: what is agreed on, and who logs in how.

use vstd::prelude::*;
use vstd::utf8::*;

use crate::answer_laws::succeeds;
use crate::auth::{auth_step, offered_mechs, opening_item, AuthActionView, AuthView};
use crate::conn::{
    client_greeting, greeting_caps, greeting_result, has_user, hex_text, hmac_md5, mech_choices,
    merged_caps, plain_token, repos_info, response_of, server_info, step_reply, words_of, ConnView,
};
use crate::error::ErrorView;
use crate::raw::ItemView;
use crate::server::{lemma_utf8, may_say_bytes, says_number, says_text, says_word};
use crate::text::trim;
use crate::types::{capability_word, Capability};

verus! {

/// The item is a list of these words, in this order.
pub open spec fn says_words(i: ItemView, w: Seq<Seq<char>>) -> bool {
    i matches ItemView::List(v) && v.len() == w.len() && forall|k: int|
        0 <= k < w.len() ==> says_word(#[trigger] v[k], w[k])
}

proof fn lemma_words(items: Seq<ItemView>, w: Seq<Seq<char>>)
    requires
        items.len() == w.len(),
        forall|k: int| 0 <= k < w.len() ==> says_word(#[trigger] items[k], w[k]),
    ensures
        words_of(items) == w,
    decreases items.len(),
{
    if items.len() > 0 {
        let n = items.len() - 1;
        let before = items.drop_last();
        let known = w.drop_last();
        assert forall|k: int| 0 <= k < known.len() implies says_word(
            #[trigger] before[k],
            known[k],
        ) by {
            assert(before[k] == items[k]);
        }
        lemma_words(before, known);
        assert(says_word(items[n], w[n]));
        assert(known.push(w[n]) =~= w);
    } else {
        assert(w =~= Seq::empty());
    }
}

/// The words for capabilities are those of the protocol.
pub proof fn capabilities_have_the_names_of_the_protocol(c: Capability)
    ensures
        capability_word(c) == (match c {
            Capability::EditPipeline => "edit-pipeline"@,
            Capability::Svndiff1 => "svndiff1"@,
            Capability::AcceptsSvndiff2 => "accepts-svndiff2"@,
            Capability::AbsentEntries => "absent-entries"@,
            Capability::CommitRevProps => "commit-revprops"@,
            Capability::MergeInfo => "mergeinfo"@,
            Capability::Depth => "depth"@,
            Capability::AtomicRevProps => "atomic-revprops"@,
            Capability::InheritedProps => "inherited-props"@,
            Capability::LogRevProps => "log-revprops"@,
            Capability::PartialReplay => "partial-replay"@,
            Capability::EphemeralTxnProps => "ephemeral-txnprops"@,
            Capability::FileRevsReverse => "file-revs-reverse"@,
            Capability::List => "list"@,
        }),
{
}

/// A greeting is accepted exactly if the server speaks the second version of the protocol
/// and takes edits without waiting; what is then known are all of its capabilities, in
/// order.
pub proof fn a_greeting_is_read_as_sent(
    p: Seq<ItemView>,
    minver: u64,
    maxver: u64,
    caps: Seq<Seq<char>>,
)
    requires
        p.len() >= 4,
        says_number(p[0], minver),
        says_number(p[1], maxver),
        says_words(p[3], caps),
    ensures
        greeting_caps(p) == Some(caps),
        greeting_result(p) is Ok <==> minver <= 2 && 2 <= maxver && caps.contains(
            "edit-pipeline"@,
        ),
        greeting_result(p) matches Ok(known) ==> known == caps,
        greeting_result(p) matches Err(e) ==> e is Protocol,
{
    lemma_words(p[3]->List_0, caps);
}

/// The client answers with the version of the protocol, what it can do, the URL that it
/// asks for, and its name.
pub proof fn the_client_greets_with_its_url(url: Seq<char>, ra_client: Seq<char>)
    ensures
        client_greeting(url, ra_client) matches ItemView::List(v) && v.len() == 5 && says_number(
            v[0],
            2,
        ) && says_words(
            v[1],
            seq![
                "edit-pipeline"@,
                "svndiff1"@,
                "accepts-svndiff2"@,
                "absent-entries"@,
                "depth"@,
                "mergeinfo"@,
                "log-revprops"@,
            ],
        ) && says_text(v[2], url) && says_text(v[3], ra_client) && v[4] == ItemView::List(
            Seq::empty(),
        ),
{
    lemma_utf8(url);
    lemma_utf8(ra_client);
}

/// What a server says of its repository is what is read: its identity, its root, and what
/// it can do; and all that the server can do is what it said of itself and of the
/// repository.
pub proof fn a_repository_is_read_as_sent(
    p: Seq<ItemView>,
    uuid: Seq<char>,
    root_url: Seq<char>,
    caps: Seq<Seq<char>>,
    known: Seq<Seq<char>>,
)
    requires
        p.len() == 3,
        says_text(p[0], uuid),
        says_text(p[1], root_url),
        says_words(p[2], caps),
    ensures
        repos_info(p) matches Ok(r) && r.uuid == uuid && r.root_url == root_url && r.capabilities
            == caps,
        server_info(known, p) matches Ok(s) && s.repository == repos_info(p)->Ok_0 && forall|
            c: Seq<char>,
        | #[trigger]
            s.server_caps.contains(c) <==> known.contains(c) || caps.contains(c),
{
    lemma_words(p[2]->List_0, caps);
    assert forall|c: Seq<char>| #[trigger]
        merged_caps(known, caps).contains(c) <==> known.contains(c) || caps.contains(c) by {
        lemma_merged(known, caps, c);
    }
}

proof fn lemma_merged(caps: Seq<Seq<char>>, more: Seq<Seq<char>>, c: Seq<char>)
    ensures
        merged_caps(caps, more).contains(c) <==> caps.contains(c) || more.contains(c),
    decreases more.len(),
{
    if more.len() > 0 {
        let less = more.drop_last();
        lemma_merged(caps, less, c);
        let before = merged_caps(caps, less);
        let all = merged_caps(caps, more);
        if before.contains(c) {
            let k = choose|k: int| 0 <= k < before.len() && before[k] == c;
            assert(all[k] == c);
        }
        if less.contains(c) {
            let k = choose|k: int| 0 <= k < less.len() && less[k] == c;
            assert(more[k] == c);
        }
        if more.contains(c) && !less.contains(c) {
            let k = choose|k: int| 0 <= k < more.len() && more[k] == c;
            if k < less.len() {
                assert(less[k] == c);
            }
            assert(more.last() == c);
            if !before.contains(c) {
                assert(all.last() == c);
            }
        }
        if all.contains(c) && !before.contains(c) {
            let k = choose|k: int| 0 <= k < all.len() && all[k] == c;
            if k < before.len() {
                assert(before[k] == c);
            }
            assert(more[more.len() - 1] == c);
        }
        assert(more[more.len() - 1] == more.last());
    }
}

/// A mechanism is among those to try.
pub open spec fn is_tried(
    choices: Seq<(Seq<char>, Option<Seq<u8>>)>,
    mech: Seq<char>,
    token: Option<Seq<u8>>,
) -> bool {
    choices.contains((mech, token))
}

/// The bytes hold a user name and a password, each behind a zero byte.
pub open spec fn says_plain(b: Seq<u8>, user: Seq<char>, pass: Seq<char>) -> bool {
    b == seq![0u8] + encode_utf8(user) + seq![0u8] + encode_utf8(pass)
}

/// One mechanism comes before another one, where both are tried.
pub open spec fn comes_first(
    choices: Seq<(Seq<char>, Option<Seq<u8>>)>,
    a: Seq<char>,
    b: Seq<char>,
) -> bool {
    forall|i: int, j: int|
        0 <= i < choices.len() && 0 <= j < choices.len() && (#[trigger] choices[i]).0 == a && (
        #[trigger] choices[j]).0 == b ==> i < j
}

/// Mechanisms are chosen by what the server offers and what the client has. Nothing is tried
/// that the server does not offer. A tunnel is trusted first; then the user name and the
/// password are used, and sent only where both are there, in a digest before they are sent
/// as they are; then nobody logs in; and a tunnel is tried last where there is nothing else.
#[verifier::rlimit(40)]
pub proof fn mechanisms_are_chosen_by_what_is_there(c: ConnView, mechs: Seq<Seq<char>>)
    ensures
        ({
            let choices = mech_choices(c, mechs);
            let creds = c.username is Some && trim(c.username->0).len() > 0 && c.password is Some;
            let cram = creds && mechs.contains("CRAM-MD5"@);
            let plain = creds && mechs.contains("PLAIN"@);
            let anonymous = mechs.contains("ANONYMOUS"@);
            let external = mechs.contains("EXTERNAL"@) && (c.is_tunneled || !cram && !plain
                && !anonymous);
            &&& forall|k: int|
                0 <= k < choices.len() ==> {
                    let (mech, token) = #[trigger] choices[k];
                    ||| mech == "EXTERNAL"@ && external && token == Some(Seq::<u8>::empty())
                    ||| mech == "CRAM-MD5"@ && cram && token is None
                    ||| mech == "PLAIN"@ && plain && (token matches Some(b) && says_plain(
                        b,
                        c.username->0,
                        c.password->0,
                    ))
                    ||| mech == "ANONYMOUS"@ && anonymous && token == Some(Seq::<u8>::empty())
                }
            &&& external ==> is_tried(choices, "EXTERNAL"@, Some(Seq::empty()))
            &&& cram ==> is_tried(choices, "CRAM-MD5"@, None)
            &&& plain ==> exists|b: Seq<u8>| #[trigger]
                says_plain(b, c.username->0, c.password->0) && is_tried(
                    choices,
                    "PLAIN"@,
                    Some(b),
                )
            &&& anonymous ==> is_tried(choices, "ANONYMOUS"@, Some(Seq::empty()))
            &&& comes_first(choices, "EXTERNAL"@, "CRAM-MD5"@)
            &&& comes_first(choices, "CRAM-MD5"@, "PLAIN"@)
            &&& comes_first(choices, "PLAIN"@, "ANONYMOUS"@)
            &&& comes_first(choices, "EXTERNAL"@, "ANONYMOUS"@)
        }),
{
    reveal_strlit("EXTERNAL");
    reveal_strlit("CRAM-MD5");
    reveal_strlit("PLAIN");
    reveal_strlit("ANONYMOUS");
    assert("EXTERNAL"@[0] == 'E' && "CRAM-MD5"@[0] == 'C' && "PLAIN"@[0] == 'P' && "ANONYMOUS"@[0]
        == 'A');
    let choices = mech_choices(c, mechs);
    let creds = has_user(c) && c.password is Some;
    let external = mechs.contains("EXTERNAL"@);
    let a: int = if c.is_tunneled && external {
        1
    } else {
        0
    };
    let b: int = if creds && mechs.contains("CRAM-MD5"@) {
        1
    } else {
        0
    };
    let d: int = if creds && mechs.contains("PLAIN"@) {
        1
    } else {
        0
    };
    let e: int = if mechs.contains("ANONYMOUS"@) {
        1
    } else {
        0
    };
    if a + b + d + e > 0 {
        assert(choices.len() == a + b + d + e);
        if a == 1 {
            assert(choices[0] == ("EXTERNAL"@, Some(Seq::<u8>::empty())));
        }
        if b == 1 {
            assert(choices[a] == ("CRAM-MD5"@, None::<Seq<u8>>));
        }
        if d == 1 {
            let t = plain_token(c.username->0, c.password->0);
            assert(choices[a + b] == ("PLAIN"@, Some(t)));
            assert(says_plain(t, c.username->0, c.password->0));
        }
        if e == 1 {
            assert(choices[a + b + d] == ("ANONYMOUS"@, Some(Seq::<u8>::empty())));
        }
    } else if external {
        assert(choices.len() == 1);
        assert(choices[0] == ("EXTERNAL"@, Some(Seq::<u8>::empty())));
    }
}

/// The lower-case hexadecimal digit for a number below sixteen.
pub open spec fn hex_of(n: int) -> char {
    seq!['0', '1', '2', '3', '4', '5', '6', '7', '8', '9', 'a', 'b', 'c', 'd', 'e', 'f'][n]
}

/// The text is that of the bytes, two hexadecimal digits each.
pub open spec fn says_hex(s: Seq<char>, b: Seq<u8>) -> bool {
    s.len() == 2 * b.len() && forall|k: int|
        0 <= k < b.len() ==> s[2 * k] == hex_of((#[trigger] b[k]) as int / 16) && s[2 * k + 1]
            == hex_of(b[k] as int % 16)
}

proof fn lemma_hex(b: Seq<u8>)
    ensures
        says_hex(hex_text(b), b),
    decreases b.len(),
{
    if b.len() > 0 {
        let before = b.drop_last();
        lemma_hex(before);
        let s = hex_text(b);
        let t = hex_text(before);
        assert forall|k: int| 0 <= k < b.len() implies s[2 * k] == hex_of(
            (#[trigger] b[k]) as int / 16,
        ) && s[2 * k + 1] == hex_of(b[k] as int % 16) by {
            if k < before.len() {
                assert(before[k] == b[k]);
                assert(s[2 * k] == t[2 * k]);
                assert(s[2 * k + 1] == t[2 * k + 1]);
            }
        }
    }
}

/// A challenge of CRAM-MD5 is answered with the user name and, behind a space, the digest of
/// the challenge under the password, in hexadecimal digits. No other mechanism is
/// challenged.
pub proof fn a_challenge_is_answered_with_a_digest(
    c: ConnView,
    mech: Seq<char>,
    challenge: Seq<u8>,
)
    ensures
        mech == "CRAM-MD5"@ ==> (step_reply(c, mech, challenge) is Ok <==> c.username is Some
            && c.password is Some),
        mech == "CRAM-MD5"@ ==> (step_reply(c, mech, challenge) matches Err(e) ==> e
            is AuthFailed),
        mech == "CRAM-MD5"@ ==> (step_reply(c, mech, challenge) matches Ok(b) ==> exists|
            h: Seq<char>,
        | #[trigger]
            says_hex(h, hmac_md5(encode_utf8(c.password->0), challenge)) && says_text(
                ItemView::String(b),
                c.username->0 + seq![' '] + h,
            )),
        mech != "CRAM-MD5"@ ==> (step_reply(c, mech, challenge) matches Err(e) && e is Protocol),
{
    if mech == "CRAM-MD5"@ && c.username is Some && c.password is Some {
        let d = hmac_md5(encode_utf8(c.password->0), challenge);
        lemma_hex(d);
        reveal_strlit(" ");
        assert(" "@ =~= seq![' ']);
        lemma_utf8(c.username->0 + seq![' '] + hex_text(d));
    }
}

/// The mechanisms that a server offers are those that are read; none is needed where it
/// offers none.
pub proof fn offered_mechanisms_are_read_as_sent(
    i: ItemView,
    p: Seq<ItemView>,
    mechs: Seq<Seq<char>>,
)
    requires
        succeeds(i, p),
        p.len() == 2,
        says_words(p[0], mechs),
    ensures
        response_of(i) matches Ok(r) && offered_mechs(r) == Ok::<
            Option<Seq<Seq<char>>>,
            ErrorView,
        >(
            if mechs.len() == 0 {
                None
            } else {
                Some(mechs)
            },
        ),
{
    lemma_words(p[0]->List_0, mechs);
}

/// A mechanism is opened with its name and with what it sends at once, if anything. A server
/// that is satisfied ends the login; a challenge is answered as the mechanism says; a refusal
/// leads to the next mechanism, or, at the last one, to the reason that the server gave.
pub proof fn a_login_goes_on_as_the_server_says(
    c: ConnView,
    s: AuthView,
    i: ItemView,
    token: Seq<u8>,
    reason: Seq<char>,
)
    requires
        0 <= s.at < s.choices.len(),
    ensures
        opening_item(s.choices[s.at]) matches ItemView::List(v) && v.len() == 2 && says_word(
            v[0],
            s.choices[s.at].0,
        ) && may_say_bytes(v[1], s.choices[s.at].1),
        (i matches ItemView::List(v) && v.len() == 2 && says_word(v[0], "success"@)) ==> auth_step(
            c,
            s,
            i,
        ) == Ok::<(AuthView, AuthActionView), ErrorView>((s, AuthActionView::Done)),
        (i matches ItemView::List(v) && v.len() == 2 && says_word(v[0], "step"@) && may_say_bytes(
            v[1],
            Some(token),
        )) ==> match step_reply(c, s.choices[s.at].0, token) {
            Ok(b) => auth_step(c, s, i) == Ok::<(AuthView, AuthActionView), ErrorView>(
                (s, AuthActionView::Send(ItemView::String(b))),
            ),
            Err(e) => auth_step(c, s, i) == Err::<(AuthView, AuthActionView), ErrorView>(e),
        },
        (i matches ItemView::List(v) && v.len() == 2 && says_word(v[0], "failure"@) && (
        v[1] matches ItemView::List(m) && m.len() == 1 && says_text(m[0], reason))) ==> if s.at + 1
            < s.choices.len() {
            auth_step(c, s, i) matches Ok((t, AuthActionView::Send(x))) && t.choices == s.choices
                && t.at == s.at + 1 && x == opening_item(s.choices[s.at + 1])
        } else {
            auth_step(c, s, i) == Err::<(AuthView, AuthActionView), ErrorView>(
                ErrorView::AuthFailed(reason),
            )
        },
{
    reveal_strlit("success");
    reveal_strlit("step");
    reveal_strlit("failure");
    assert("success"@.len() == 7 && "step"@.len() == 4 && "failure"@.len() == 7);
    assert("success"@[0] == 's' && "failure"@[0] == 'f');
}

} // verus!
