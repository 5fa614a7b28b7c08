//! Authentication through a SASL library, and the security layer that it may set up:
//! what to ask the library, and what the server's messages mean.

use vstd::prelude::*;

use crate::auth::{challenge_bytes, challenge_message, failure_reason};
use crate::conn::holds_text;
use crate::error::{protocol, result_view, ErrorView, SvnError};
use crate::params::list;
use crate::parse::{bytes_at, list_at, nth_word, word_at};
use crate::raw::{copy_bytes, list_of, ItemView, SvnItem};
use crate::text::{cat, cat3, chars_of, find_char, str_eq};
use crate::types::opt_bytes;

verus! {

/// Texts with a space between them.
pub open spec fn spaced(v: Seq<Seq<char>>) -> Seq<char>
    decreases v.len(),
{
    if v.len() == 0 {
        Seq::empty()
    } else if v.len() == 1 {
        v[0]
    } else {
        spaced(v.drop_last()) + " "@ + v.last()
    }
}

/// The mechanisms to hand to the library: EXTERNAL or ANONYMOUS alone where the server
/// offers them, and otherwise all.
pub open spec fn mech_list(mechs: Seq<Seq<char>>) -> Seq<char> {
    if mechs.contains("EXTERNAL"@) {
        "EXTERNAL"@
    } else if mechs.contains("ANONYMOUS"@) {
        "ANONYMOUS"@
    } else {
        spaced(mechs)
    }
}

fn join_spaced(v: &[String]) -> (r: String)
    ensures
        r@ == spaced(v.deep_view()),
{
    let mut out = String::new();
    let mut i: usize = 0;
    let ghost all = v.deep_view();
    assert(all.take(0) =~= Seq::<Seq<char>>::empty());
    while i < v.len()
        invariant
            i <= v.len(),
            all == v.deep_view(),
            out@ == spaced(all.take(i as int)),
        decreases v.len() - i,
    {
        proof {
            assert(all.take(i + 1).drop_last() =~= all.take(i as int));
            assert(all.take(i + 1).last() == v@[i as int]@);
        }
        if i == 0 {
            out = v[i].clone();
        } else {
            out = cat3(&out, " ", &v[i]);
        }
        i = i + 1;
    }
    assert(all.take(i as int) =~= all);
    out
}

/// The mechanisms to hand to the library, which takes no zero byte in them.
pub fn sasl_mech_list(mechs: &[String]) -> (r: Result<String, SvnError>)
    ensures
        match r {
            Ok(s) => s@ == mech_list(mechs.deep_view()) && !s@.contains('\0'),
            Err(e) => mech_list(mechs.deep_view()).contains('\0') && e.deep_view()
                == ErrorView::Protocol("SASL mech list contains NUL byte"@),
        },
{
    let s = if holds_text(mechs, "EXTERNAL") {
        "EXTERNAL".to_owned()
    } else if holds_text(mechs, "ANONYMOUS") {
        "ANONYMOUS".to_owned()
    } else {
        join_spaced(mechs)
    };
    let cs = chars_of(&s);
    let k = find_char(&cs, '\0', 0);
    if k < cs.len() {
        assert(s@[k as int] == '\0');
        Err(protocol("SASL mech list contains NUL byte"))
    } else {
        Ok(s)
    }
}

/// The form in which a token travels.
#[derive(Clone, Copy, Debug, PartialEq, Eq, Structural)]
pub enum TokenCoding {
    /// In base64.
    Base64,
    /// As it is.
    Plain,
}

/// The form in which the tokens of a mechanism travel, but for the first one.
pub open spec fn coding_of(mech: Seq<char>) -> TokenCoding {
    if mech == "CRAM-MD5"@ {
        TokenCoding::Plain
    } else {
        TokenCoding::Base64
    }
}

/// The form in which the tokens of a mechanism travel, but for the first one.
pub fn sasl_coding(mech: &str) -> (r: TokenCoding)
    ensures
        r == coding_of(mech@),
{
    if str_eq(mech, "CRAM-MD5") {
        TokenCoding::Plain
    } else {
        TokenCoding::Base64
    }
}

/// The first token of an exchange, before it is coded, and the form in which it travels.
#[derive(Debug)]
pub struct FirstToken {
    pub token: Vec<u8>,
    pub coding: TokenCoding,
}

/// What to send along with the name of the mechanism that the library chose: what the
/// library gave, and nothing at all only if it gave nothing and the mechanism is not
/// EXTERNAL. The first token travels in base64, whatever the mechanism is.
pub fn sasl_initial_token(mech: &str, initial: Option<Vec<u8>>) -> (r: Option<FirstToken>)
    ensures
        match r {
            Some(t) => t.coding == TokenCoding::Base64 && t.token@ == (match initial {
                Some(v) => v@,
                None => Seq::empty(),
            }) && (initial is Some || mech@ == "EXTERNAL"@),
            None => initial is None && mech@ != "EXTERNAL"@,
        },
{
    let coding = TokenCoding::Base64;
    match initial {
        Some(token) => Some(FirstToken { token, coding }),
        None => {
            if str_eq(mech, "EXTERNAL") {
                let token: Vec<u8> = Vec::new();
                assert(token@ =~= Seq::<u8>::empty());
                Some(FirstToken { token, coding })
            } else {
                None
            }
        },
    }
}

/// The message that opens an exchange: the mechanism, and the first token in the form in
/// which it travels.
pub open spec fn opening_item(mech: Seq<char>, coded: Option<Seq<u8>>) -> ItemView {
    let token = match coded {
        Some(v) => seq![ItemView::String(v)],
        None => Seq::empty(),
    };
    ItemView::List(seq![ItemView::Word(mech), ItemView::List(token)])
}

/// The message that opens an exchange.
pub fn sasl_opening(mech: &str, coded: Option<Vec<u8>>) -> (r: SvnItem)
    ensures
        r.deep_view() == opening_item(mech@, opt_bytes(coded)),
{
    let token: Vec<SvnItem> = match coded {
        Some(v) => {
            let one = vec![SvnItem::String(v)];
            assert(one.deep_view() =~= seq![ItemView::String(v@)]);
            one
        },
        None => {
            let none: Vec<SvnItem> = Vec::new();
            assert(none.deep_view() =~= Seq::<ItemView>::empty());
            none
        },
    };
    let ghost t = token.deep_view();
    let first = list(token);
    let parts = vec![SvnItem::Word(mech.to_owned()), first];
    assert(parts.deep_view() =~= seq![ItemView::Word(mech@), ItemView::List(t)]);
    list(parts)
}

/// A message of the server while the library wants more: the token for the library, and
/// whether the server has accepted the client.
pub open spec fn sasl_challenge(item: ItemView) -> Result<(Seq<u8>, bool), ErrorView> {
    match list_of(item) {
        None => Err(ErrorView::Protocol("invalid SASL challenge"@)),
        Some(parts) => match nth_word(parts, 0) {
            None => Err(ErrorView::Protocol("invalid SASL challenge kind"@)),
            Some(kind) => if kind == "failure"@ {
                Err(ErrorView::AuthFailed(challenge_message(parts)))
            } else if kind == "success"@ || kind == "step"@ {
                match challenge_bytes(parts) {
                    None => Err(ErrorView::Protocol("SASL step missing token"@)),
                    Some(token) => Ok((token, kind == "success"@)),
                }
            } else {
                Err(ErrorView::Protocol("unexpected SASL challenge: "@ + kind))
            },
        },
    }
}

/// A message of the server while the library wants more.
pub fn parse_sasl_challenge(item: &SvnItem) -> (r: Result<(Vec<u8>, bool), SvnError>)
    ensures
        match r {
            Ok((token, accepted)) => sasl_challenge(item.deep_view()) == Ok::<
                (Seq<u8>, bool),
                ErrorView,
            >((token@, accepted)),
            Err(e) => sasl_challenge(item.deep_view()) == Err::<(Seq<u8>, bool), ErrorView>(
                e.deep_view(),
            ),
        },
{
    let parts = match item.as_list() {
        Some(p) => p,
        None => {
            return Err(protocol("invalid SASL challenge"));
        },
    };
    let kind = match word_at(parts, 0) {
        Some(k) => k,
        None => {
            return Err(protocol("invalid SASL challenge kind"));
        },
    };
    if str_eq(&kind, "failure") {
        return Err(SvnError::AuthFailed(failure_reason(parts)));
    }
    let accepted = str_eq(&kind, "success");
    if !accepted && !str_eq(&kind, "step") {
        return Err(SvnError::Protocol(cat("unexpected SASL challenge: ", &kind)));
    }
    match list_at(parts, 1) {
        Some(l) => match bytes_at(l, 0) {
            Some(token) => Ok((token, accepted)),
            None => Err(protocol("SASL step missing token")),
        },
        None => Err(protocol("SASL step missing token")),
    }
}

/// The last message of the server, where none has accepted the client yet.
pub open spec fn sasl_final(item: ItemView) -> Result<(), ErrorView> {
    match list_of(item) {
        None => Err(ErrorView::Protocol("invalid SASL final response"@)),
        Some(parts) => match nth_word(parts, 0) {
            None => Err(ErrorView::Protocol("invalid SASL final kind"@)),
            Some(kind) => if kind == "success"@ {
                Ok(())
            } else if kind == "failure"@ {
                Err(ErrorView::AuthFailed(challenge_message(parts)))
            } else {
                Err(ErrorView::Protocol("unexpected SASL final response: "@ + kind))
            },
        },
    }
}

/// The last message of the server, where none has accepted the client yet.
pub fn parse_sasl_final(item: &SvnItem) -> (r: Result<(), SvnError>)
    ensures
        match r {
            Ok(_) => sasl_final(item.deep_view()) is Ok,
            Err(e) => sasl_final(item.deep_view()) == Err::<(), ErrorView>(e.deep_view()),
        },
{
    let parts = match item.as_list() {
        Some(p) => p,
        None => {
            return Err(protocol("invalid SASL final response"));
        },
    };
    let kind = match word_at(parts, 0) {
        Some(k) => k,
        None => {
            return Err(protocol("invalid SASL final kind"));
        },
    };
    if str_eq(&kind, "success") {
        Ok(())
    } else if str_eq(&kind, "failure") {
        Err(SvnError::AuthFailed(failure_reason(parts)))
    } else {
        Err(SvnError::Protocol(cat("unexpected SASL final response: ", &kind)))
    }
}

/// Where an exchange through the library stands: the form in which its tokens travel,
/// whether the library wants more, and whether the server has accepted the client.
#[derive(Clone, Copy, Debug, PartialEq, Eq, Structural)]
pub struct SaslState {
    pub coding: TokenCoding,
    pub wants_more: bool,
    pub accepted: bool,
}

/// What to do next in such an exchange.
#[derive(Debug)]
pub enum SaslAction {
    /// Hand a token to the library, once it is no longer in the form in which it
    /// travelled. The library's answer goes to the server, in the same form, unless the
    /// server has accepted the client.
    Step { token: Vec<u8>, coding: TokenCoding, answer: bool },
    /// The exchange has succeeded.
    Done,
}

/// What an action says.
pub enum SaslActionView {
    Step { token: Seq<u8>, coding: TokenCoding, answer: bool },
    Done,
}

impl DeepView for SaslAction {
    type V = SaslActionView;

    open spec fn deep_view(&self) -> SaslActionView {
        match *self {
            SaslAction::Step { token, coding, answer } => SaslActionView::Step {
                token: token@,
                coding,
                answer,
            },
            SaslAction::Done => SaslActionView::Done,
        }
    }
}

/// What a message of the server leads to. While the library wants more, the message
/// brings a token for it; otherwise it is the server's last word.
pub open spec fn sasl_step(s: SaslState, item: ItemView) -> Result<
    (SaslState, SaslActionView),
    ErrorView,
> {
    if s.wants_more {
        match sasl_challenge(item) {
            Err(e) => Err(e),
            Ok((token, accepted)) => Ok(
                (
                    SaslState { accepted, ..s },
                    SaslActionView::Step { token, coding: s.coding, answer: !accepted },
                ),
            ),
        }
    } else {
        match sasl_final(item) {
            Err(e) => Err(e),
            Ok(_) => Ok((SaslState { accepted: true, ..s }, SaslActionView::Done)),
        }
    }
}

impl SaslState {
    /// The state after the library has chosen a mechanism.
    pub fn start(mech: &str, wants_more: bool) -> (r: SaslState)
        ensures
            r == (SaslState { coding: coding_of(mech@), wants_more, accepted: false }),
    {
        SaslState { coding: sasl_coding(mech), wants_more, accepted: false }
    }

    /// Takes a message of the server.
    pub fn message(&mut self, item: &SvnItem) -> (r: Result<SaslAction, SvnError>)
        ensures
            match r {
                Ok(a) => sasl_step(*old(self), item.deep_view()) == Ok::<
                    (SaslState, SaslActionView),
                    ErrorView,
                >((*final(self), a.deep_view())),
                Err(e) => sasl_step(*old(self), item.deep_view()) == Err::<
                    (SaslState, SaslActionView),
                    ErrorView,
                >(e.deep_view()) && *final(self) == *old(self),
            },
    {
        if self.wants_more {
            match parse_sasl_challenge(item) {
                Err(e) => Err(e),
                Ok((token, accepted)) => {
                    self.accepted = accepted;
                    Ok(SaslAction::Step { token, coding: self.coding, answer: !accepted })
                },
            }
        } else {
            match parse_sasl_final(item) {
                Err(e) => Err(e),
                Ok(_) => {
                    self.accepted = true;
                    Ok(SaslAction::Done)
                },
            }
        }
    }

    /// Takes the library's word on whether it wants more, and says whether the exchange
    /// has to wait for another message.
    pub fn library_stepped(&mut self, wants_more: bool) -> (r: bool)
        ensures
            *final(self) == (SaslState {
                wants_more: wants_more && !old(self).accepted,
                ..*old(self)
            }),
            r == !old(self).accepted,
    {
        self.wants_more = wants_more && !self.accepted;
        !self.accepted
    }
}

/// A way to log in.
#[derive(Clone, Copy, Debug, PartialEq, Eq, Structural)]
pub enum Login {
    /// Through the SASL library.
    Library,
    /// With the mechanisms that this client has itself.
    BuiltIn,
}

/// The ways to log in, in the order in which they are tried: the library comes first
/// where there is one.
pub fn login_order(has_library: bool) -> (r: Vec<Login>)
    ensures
        r@ == (if has_library {
            seq![Login::Library, Login::BuiltIn]
        } else {
            seq![Login::BuiltIn]
        }),
{
    if has_library {
        vec![Login::Library, Login::BuiltIn]
    } else {
        vec![Login::BuiltIn]
    }
}

/// An error after which another way to log in is tried: the connection is still in
/// order.
pub open spec fn may_log_in_otherwise(e: ErrorView) -> bool {
    e == ErrorView::AuthUnavailable || e is AuthFailed
}

/// Whether another way to log in is tried after an error.
pub fn tries_next_login(err: &SvnError) -> (r: bool)
    ensures
        r == may_log_in_otherwise(err.deep_view()),
{
    match err {
        SvnError::AuthUnavailable => true,
        SvnError::AuthFailed(_) => true,
        _ => false,
    }
}

/// What came of logging in one way, then another: where the second way could not even
/// be tried, the error of the first stands.
pub fn login_outcome(first: SvnError, second: Result<(), SvnError>) -> (r: Result<(), SvnError>)
    ensures
        result_view(r) == (match second {
            Ok(_) => Ok::<(), ErrorView>(()),
            Err(e) => if e.deep_view() == ErrorView::AuthUnavailable {
                Err(first.deep_view())
            } else {
                Err(e.deep_view())
            },
        }),
{
    match second {
        Ok(_) => Ok(()),
        Err(SvnError::AuthUnavailable) => Err(first),
        Err(e) => Err(e),
    }
}

/// How many of `left` bytes go into one message of a security layer that takes at most
/// `max` bytes, zero meaning any number.
pub open spec fn chunk_len(left: nat, max: nat) -> nat {
    if max == 0 || left < max {
        left
    } else {
        max
    }
}

/// Bytes cut into messages of a security layer.
pub open spec fn security_chunks(b: Seq<u8>, max: nat) -> Seq<Seq<u8>>
    decreases b.len(),
{
    if b.len() == 0 {
        Seq::empty()
    } else {
        let n = chunk_len(b.len(), max) as int;
        seq![b.take(n)] + security_chunks(b.skip(n), max)
    }
}

/// Cuts bytes into messages of a security layer that takes at most `max` bytes, zero
/// meaning any number.
pub fn split_for_security_layer(b: &[u8], max: usize) -> (r: Vec<Vec<u8>>)
    ensures
        crate::textdelta::chunks_view(r@) == security_chunks(b@, max as nat),
{
    let mut out: Vec<Vec<u8>> = Vec::new();
    let mut i: usize = 0;
    let ghost all = security_chunks(b@, max as nat);
    proof {
        assert(b@.skip(0) =~= b@);
        assert(crate::textdelta::chunks_view(out@) =~= Seq::<Seq<u8>>::empty());
        assert(Seq::<Seq<u8>>::empty() + all =~= all);
    }
    while i < b.len()
        invariant
            i <= b.len(),
            all == security_chunks(b@, max as nat),
            all == crate::textdelta::chunks_view(out@) + security_chunks(
                b@.skip(i as int),
                max as nat,
            ),
        decreases b.len() - i,
    {
        let left: usize = b.len() - i;
        let n: usize = if max == 0 || left < max {
            left
        } else {
            max
        };
        let part = copy_bytes(vstd::slice::slice_subrange(b, i, i + n));
        let ghost before = crate::textdelta::chunks_view(out@);
        let ghost rest = b@.skip(i as int);
        proof {
            assert(part@ =~= rest.take(n as int));
            assert(rest.skip(n as int) =~= b@.skip(i + n));
        }
        out.push(part);
        proof {
            assert(crate::textdelta::chunks_view(out@) =~= before + seq![rest.take(n as int)]);
            let more = security_chunks(b@.skip(i + n), max as nat);
            assert(before + (seq![rest.take(n as int)] + more) =~= (before + seq![
                rest.take(n as int),
            ]) + more);
        }
        i = i + n;
    }
    assert(security_chunks(b@.skip(i as int), max as nat) =~= Seq::<Seq<u8>>::empty());
    assert(crate::textdelta::chunks_view(out@) + Seq::<Seq<u8>>::empty()
        =~= crate::textdelta::chunks_view(out@));
    out
}

/// Nothing is lost or added by cutting: the messages together are the bytes, and none
/// is empty or longer than the security layer takes.
pub proof fn security_chunks_join(b: Seq<u8>, max: nat)
    ensures
        crate::textdelta::joined(security_chunks(b, max)) == b,
        forall|i: int|
            0 <= i < security_chunks(b, max).len() ==> 0 < (#[trigger] security_chunks(
                b,
                max,
            )[i]).len() && (max > 0 ==> security_chunks(b, max)[i].len() <= max),
    decreases b.len(),
{
    if b.len() > 0 {
        let n = chunk_len(b.len(), max) as int;
        let rest = security_chunks(b.skip(n), max);
        let all = security_chunks(b, max);
        security_chunks_join(b.skip(n), max);
        assert(all.drop_first() =~= rest);
        assert(b.take(n) + b.skip(n) =~= b);
        assert forall|i: int| 0 <= i < all.len() implies 0 < (#[trigger] all[i]).len() && (max > 0
            ==> all[i].len() <= max) by {
            if i > 0 {
                assert(all[i] == rest[i - 1]);
            }
        }
    }
}

} // verus!
