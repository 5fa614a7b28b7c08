//! Authentication, message by message, and what may stand before the greeting.

use vstd::prelude::*;

use crate::conn::{
    choices_view, collect_words, mech_choices, response_params, step_reply, words_of,
    AuthMechanismChoice, CommandResponse, ConnView, RaSvnConnection, ResponseView,
};
use crate::error::{protocol, result_view, ErrorView, SvnError};
use crate::params::{list, opt_bytes_item, opt_raw, word};
use crate::parse::{
    bytes_at, list_at, nth_bytes, nth_list, nth_string, nth_word, string_at, word_at,
};
use crate::raw::{list_of, ItemView, SvnItem};
use crate::text::{cat, str_eq};
use crate::wire::{byte_is_ws, is_ws};

verus! {

/// The mechanisms that an auth request offers: none if no authentication is needed.
pub open spec fn offered_mechs(r: ResponseView) -> Result<Option<Seq<Seq<char>>>, ErrorView> {
    match response_params(r, "auth-request"@) {
        Err(e) => Err(e),
        Ok(params) => if params.len() < 2 {
            Err(ErrorView::Protocol("auth-request params too short"@))
        } else {
            match list_of(params[0]) {
                None => Err(ErrorView::Protocol("auth mechs not a list"@)),
                Some(mechs) => if mechs.len() == 0 {
                    Ok(None)
                } else {
                    Ok(Some(words_of(mechs)))
                },
            }
        },
    }
}

/// The mechanisms that an auth request offers: none if no authentication is needed.
pub fn auth_request_mechs(response: &CommandResponse) -> (r: Result<
    Option<Vec<String>>,
    SvnError,
>)
    ensures
        result_view(r) == offered_mechs(response.deep_view()),
{
    let params = match response.success_params("auth-request") {
        Ok(p) => p,
        Err(e) => {
            return Err(e);
        },
    };
    if params.len() < 2 {
        return Err(protocol("auth-request params too short"));
    }
    match params[0].as_list() {
        None => Err(protocol("auth mechs not a list")),
        Some(mechs) => {
            if mechs.len() == 0 {
                Ok(None)
            } else {
                Ok(Some(collect_words(mechs)))
            }
        },
    }
}

/// What names a mechanism to the server.
pub open spec fn opening_item(choice: (Seq<char>, Option<Seq<u8>>)) -> ItemView {
    ItemView::List(seq![ItemView::Word(choice.0), opt_bytes_item(choice.1)])
}

/// Where an authentication stands: the mechanisms to try, and which one is being tried.
pub struct AuthView {
    pub choices: Seq<(Seq<char>, Option<Seq<u8>>)>,
    pub at: int,
}

/// What to do next.
pub enum AuthActionView {
    Send(ItemView),
    Done,
}

/// The first item of the list that stands at index 1.
pub open spec fn challenge_bytes(parts: Seq<ItemView>) -> Option<Seq<u8>> {
    match nth_list(parts, 1) {
        Some(l) => nth_bytes(l, 0),
        None => None,
    }
}

/// The text that a failure gives as its reason.
pub open spec fn challenge_message(parts: Seq<ItemView>) -> Seq<char> {
    match nth_list(parts, 1) {
        Some(l) => match nth_string(l, 0) {
            Some(m) => m,
            None => "auth failed"@,
        },
        None => "auth failed"@,
    }
}

/// What a message of the server leads to: an answer, the next mechanism, success, or
/// an error. A mechanism that fails is followed by the next, and the last failure ends
/// the authentication.
pub open spec fn auth_step(c: ConnView, s: AuthView, challenge: ItemView) -> Result<
    (AuthView, AuthActionView),
    ErrorView,
> {
    match list_of(challenge) {
        None => Err(ErrorView::Protocol("invalid auth challenge"@)),
        Some(parts) => match nth_word(parts, 0) {
            None => Err(ErrorView::Protocol("invalid auth challenge kind"@)),
            Some(kind) => if kind == "step"@ {
                match challenge_bytes(parts) {
                    None => Err(ErrorView::Protocol("auth step missing token"@)),
                    Some(token) => match step_reply(c, s.choices[s.at].0, token) {
                        Err(e) => Err(e),
                        Ok(reply) => Ok((s, AuthActionView::Send(ItemView::String(reply)))),
                    },
                }
            } else if kind == "success"@ {
                Ok((s, AuthActionView::Done))
            } else if kind == "failure"@ {
                if s.at + 1 < s.choices.len() {
                    Ok(
                        (
                            AuthView { choices: s.choices, at: s.at + 1 },
                            AuthActionView::Send(opening_item(s.choices[s.at + 1])),
                        ),
                    )
                } else {
                    Err(ErrorView::AuthFailed(challenge_message(parts)))
                }
            } else {
                Err(ErrorView::Protocol("unexpected auth challenge: "@ + kind))
            },
        },
    }
}

/// An authentication in progress.
#[derive(Debug)]
pub struct AuthExchange {
    choices: Vec<AuthMechanismChoice>,
    at: usize,
}

/// What to do next.
#[derive(Debug)]
pub enum AuthAction {
    /// Send an item and wait for the next message.
    Send(SvnItem),
    /// The server has accepted the client.
    Done,
}

impl View for AuthExchange {
    type V = AuthView;

    closed spec fn view(&self) -> AuthView {
        AuthView { choices: choices_view(self.choices@), at: self.at as int }
    }
}

impl DeepView for AuthAction {
    type V = AuthActionView;

    open spec fn deep_view(&self) -> AuthActionView {
        match self {
            AuthAction::Send(item) => AuthActionView::Send(item.deep_view()),
            AuthAction::Done => AuthActionView::Done,
        }
    }
}

impl AuthExchange {
    /// There is a mechanism being tried.
    pub closed spec fn wf(self) -> bool {
        self.at < self.choices@.len()
    }

    /// Begins an authentication with the first mechanism to try.
    pub fn start(conn: &RaSvnConnection, mechs: &[String]) -> (r: Result<AuthExchange, SvnError>)
        ensures
            match r {
                Ok(x) => x.wf() && x@ == (AuthView {
                    choices: mech_choices(conn@, mechs.deep_view()),
                    at: 0,
                }) && x@.choices.len() > 0,
                Err(e) => e.deep_view() == ErrorView::AuthUnavailable && mech_choices(
                    conn@,
                    mechs.deep_view(),
                ).len() == 0,
            },
    {
        match conn.select_mechs(mechs) {
            Ok(choices) => Ok(AuthExchange { choices, at: 0 }),
            Err(e) => Err(e),
        }
    }

    /// What names the mechanism that is being tried to the server.
    pub fn opening(&self) -> (r: SvnItem)
        requires
            self.wf(),
        ensures
            r.deep_view() == opening_item(self@.choices[self@.at]),
    {
        let choice = &self.choices[self.at];
        let items = vec![word(&choice.0), opt_raw(&choice.1)];
        assert(items.deep_view() =~= opening_item(self@.choices[self@.at])->List_0);
        list(items)
    }

    /// Takes a message of the server.
    pub fn step(&mut self, conn: &RaSvnConnection, challenge: &SvnItem) -> (r: Result<
        AuthAction,
        SvnError,
    >)
        requires
            old(self).wf(),
        ensures
            final(self).wf(),
            match r {
                Ok(a) => auth_step(conn@, old(self)@, challenge.deep_view()) == Ok::<
                    (AuthView, AuthActionView),
                    ErrorView,
                >((final(self)@, a.deep_view())),
                Err(e) => auth_step(conn@, old(self)@, challenge.deep_view()) == Err::<
                    (AuthView, AuthActionView),
                    ErrorView,
                >(e.deep_view()) && final(self)@ == old(self)@,
            },
    {
        let parts = match challenge.as_list() {
            Some(p) => p,
            None => {
                return Err(protocol("invalid auth challenge"));
            },
        };
        let kind = match word_at(parts, 0) {
            Some(k) => k,
            None => {
                return Err(protocol("invalid auth challenge kind"));
            },
        };
        if str_eq(&kind, "step") {
            let token = match list_at(parts, 1) {
                Some(l) => match bytes_at(l, 0) {
                    Some(t) => t,
                    None => {
                        return Err(protocol("auth step missing token"));
                    },
                },
                None => {
                    return Err(protocol("auth step missing token"));
                },
            };
            let mech = &self.choices[self.at].0;
            assert(mech@ == self@.choices[self@.at].0);
            match conn.auth_step_reply(mech, token) {
                Ok(reply) => Ok(AuthAction::Send(SvnItem::String(reply))),
                Err(e) => Err(e),
            }
        } else if str_eq(&kind, "success") {
            Ok(AuthAction::Done)
        } else if str_eq(&kind, "failure") {
            if self.choices.len() - self.at > 1 {
                self.at = self.at + 1;
                Ok(AuthAction::Send(self.opening()))
            } else {
                Err(SvnError::AuthFailed(failure_reason(parts)))
            }
        } else {
            Err(SvnError::Protocol(cat("unexpected auth challenge: ", &kind)))
        }
    }
}

/// A message of the server that refuses a mechanism.
pub open spec fn is_refusal(item: ItemView) -> bool {
    list_of(item) matches Some(parts) && nth_word(parts, 0) == Some("failure"@)
}

/// The state after the first `n` messages, if none of them ended the authentication.
pub open spec fn auth_after(c: ConnView, s: AuthView, messages: Seq<ItemView>, n: int) -> Result<
    AuthView,
    ErrorView,
>
    decreases n,
{
    if n <= 0 || n > messages.len() {
        Ok(s)
    } else {
        match auth_after(c, s, messages, n - 1) {
            Err(e) => Err(e),
            Ok(t) => match auth_step(c, t, messages[n - 1]) {
                Err(e) => Err(e),
                Ok((next, _)) => Ok(next),
            },
        }
    }
}

/// A server that refuses every mechanism is offered each of the client's choices once, in
/// order; the reason of the last refusal is the error.
pub proof fn mechanisms_are_tried_in_order(
    c: ConnView,
    choices: Seq<(Seq<char>, Option<Seq<u8>>)>,
    messages: Seq<ItemView>,
    n: int,
)
    requires
        0 <= n <= messages.len() <= choices.len(),
        choices.len() > 0,
        forall|i: int| 0 <= i < messages.len() ==> is_refusal(#[trigger] messages[i]),
    ensures
        n < choices.len() ==> auth_after(c, AuthView { choices, at: 0 }, messages, n) == Ok::<
            AuthView,
            ErrorView,
        >(AuthView { choices, at: n }),
        n == choices.len() ==> auth_after(c, AuthView { choices, at: 0 }, messages, n) == Err::<
            AuthView,
            ErrorView,
        >(ErrorView::AuthFailed(challenge_message(list_of(messages[n - 1])->0))),
    decreases n,
{
    reveal_strlit("failure");
    reveal_strlit("step");
    reveal_strlit("success");
    if n > 0 {
        mechanisms_are_tried_in_order(c, choices, messages, n - 1);
        assert(is_refusal(messages[n - 1]));
        assert("failure"@.len() != "step"@.len());
        assert("failure"@[0] != "success"@[0]);
    }
}

/// The text that a failure gives as its reason.
pub fn failure_reason(parts: &[SvnItem]) -> (r: String)
    ensures
        r@ == challenge_message(parts.deep_view()),
{
    match list_at(parts, 1) {
        Some(l) => match string_at(l, 0) {
            Some(m) => m,
            None => "auth failed".to_owned(),
        },
        None => "auth failed".to_owned(),
    }
}

/// The first index from `i` on at which white space follows a `(`; before `i` stands a
/// `(` if `saw` says so. The length if there is none.
pub open spec fn greeting_at(b: Seq<u8>, i: int, saw: bool) -> int
    decreases b.len() - i,
{
    if i < 0 || i >= b.len() {
        b.len() as int
    } else if saw && is_ws(b[i]) {
        i
    } else {
        greeting_at(b, i + 1, b[i] == 40)
    }
}

/// What has passed before the greeting: how many bytes, how they began, and whether the
/// last one was a `(`.
pub struct GarbageView {
    pub discarded: int,
    pub preview: Seq<u8>,
    pub saw_lparen: bool,
}

/// Most bytes that may stand before the greeting.
pub const MAX_GARBAGE: usize = 65536;

/// Most bytes of it that an error shows.
pub const PREVIEW_MAX: usize = 1024;

/// What bytes that are no UTF-8 text are shown as.
pub uninterp spec fn utf8_lossy(bytes: Seq<u8>) -> Seq<char>;

/// A text between quotation marks, with escapes, as debugging output shows it.
pub uninterp spec fn quoted(s: Seq<char>) -> Seq<char>;

/// Reads bytes as text with `String::from_utf8_lossy`, which replaces what is not UTF-8.
/// The result, here called `utf8_lossy`, is a function of the bytes.
#[verifier::external_body]
fn lossy_text(bytes: &[u8]) -> (r: String)
    ensures
        r@ == utf8_lossy(bytes@),
{
    String::from_utf8_lossy(bytes).to_string()
}

/// Shows a text as its `Debug` impl does. The result, here called `quoted`, is a
/// function of the text.
#[verifier::external_body]
fn quote(s: &str) -> (r: String)
    ensures
        r@ == quoted(s@),
{
    format!("{:?}", s)
}

/// The error for too much output before the greeting.
pub open spec fn garbage_error(preview: Seq<u8>) -> ErrorView {
    ErrorView::Protocol(
        "tunnel produced non-svn output before greeting; discarded >65536 bytes; start of output: "@
            + quoted(utf8_lossy(preview)),
    )
}

/// The state after another chunk.
pub open spec fn garbage_after(s: GarbageView, chunk: Seq<u8>) -> GarbageView {
    GarbageView {
        discarded: if s.discarded + chunk.len() > usize::MAX {
            usize::MAX as int
        } else {
            s.discarded + chunk.len()
        },
        preview: if s.preview.len() < PREVIEW_MAX {
            (s.preview + chunk).take(
                if s.preview.len() + chunk.len() < PREVIEW_MAX {
                    (s.preview.len() + chunk.len()) as int
                } else {
                    PREVIEW_MAX as int
                },
            )
        } else {
            s.preview
        },
        saw_lparen: if chunk.len() == 0 {
            s.saw_lparen
        } else {
            chunk.last() == 40
        },
    }
}

/// What a chunk that arrives before the greeting leads to: an error if it is too much,
/// the beginning of the greeting if it is there, and otherwise nothing.
pub open spec fn garbage_step(s: GarbageView, chunk: Seq<u8>) -> Result<
    Option<Seq<u8>>,
    ErrorView,
> {
    let next = garbage_after(s, chunk);
    let at = greeting_at(chunk, 0, s.saw_lparen);
    if next.discarded > MAX_GARBAGE {
        Err(garbage_error(next.preview))
    } else if at < chunk.len() {
        Ok(Some(seq![40u8] + chunk.skip(at)))
    } else {
        Ok(None)
    }
}

/// The error for too much output before the greeting, given how it begins, quoted.
pub fn too_much_output(shown: &str) -> (r: SvnError)
    ensures
        r.deep_view() == ErrorView::Protocol(
            "tunnel produced non-svn output before greeting; discarded >65536 bytes; start of output: "@
                + shown@,
        ),
{
    SvnError::Protocol(
        cat(
            "tunnel produced non-svn output before greeting; discarded >65536 bytes; start of output: ",
            shown,
        ),
    )
}

/// Looks for the greeting in what a tunnel puts out.
#[derive(Debug)]
pub struct GarbageFilter {
    discarded: usize,
    preview: Vec<u8>,
    saw_lparen: bool,
}

impl View for GarbageFilter {
    type V = GarbageView;

    closed spec fn view(&self) -> GarbageView {
        GarbageView {
            discarded: self.discarded as int,
            preview: self.preview@,
            saw_lparen: self.saw_lparen,
        }
    }
}

impl GarbageFilter {
    /// Nothing has passed yet.
    pub fn new() -> (r: GarbageFilter)
        ensures
            r@ == (GarbageView { discarded: 0, preview: Seq::empty(), saw_lparen: false }),
    {
        let r = GarbageFilter { discarded: 0, preview: Vec::new(), saw_lparen: false };
        assert(r@.preview =~= Seq::<u8>::empty());
        r
    }

    /// Takes a chunk. Once the greeting begins, gives its beginning: the `(`, and what
    /// follows it in this chunk.
    pub fn feed(&mut self, chunk: &[u8]) -> (r: Result<Option<Vec<u8>>, SvnError>)
        ensures
            match r {
                Ok(Some(b)) => garbage_step(old(self)@, chunk@) == Ok::<
                    Option<Seq<u8>>,
                    ErrorView,
                >(Some(b@)),
                Ok(None) => garbage_step(old(self)@, chunk@) == Ok::<Option<Seq<u8>>, ErrorView>(
                    None,
                ) && final(self)@ == garbage_after(old(self)@, chunk@),
                Err(e) => garbage_step(old(self)@, chunk@) == Err::<Option<Seq<u8>>, ErrorView>(
                    e.deep_view(),
                ),
            },
    {
        let mut i: usize = 0;
        while i < chunk.len() && self.preview.len() < PREVIEW_MAX
            invariant
                i <= chunk.len(),
                self.discarded == old(self).discarded,
                self.saw_lparen == old(self).saw_lparen,
                self.preview@ == old(self).preview@ + chunk@.take(i as int),
                i > 0 ==> self.preview@.len() <= PREVIEW_MAX,
            decreases chunk.len() - i,
        {
            self.preview.push(chunk[i]);
            i = i + 1;
            assert(self.preview@ =~= old(self).preview@ + chunk@.take(i as int));
        }
        assert(self.preview@ =~= garbage_after(old(self)@, chunk@).preview);
        self.discarded = self.discarded.saturating_add(chunk.len());
        if self.discarded > MAX_GARBAGE {
            let shown = quote(&lossy_text(&self.preview));
            return Err(too_much_output(&shown));
        }
        let mut j: usize = 0;
        let ghost saw = self.saw_lparen;
        while j < chunk.len()
            invariant
                j <= chunk.len(),
                self.discarded == garbage_after(old(self)@, chunk@).discarded,
                self.discarded <= MAX_GARBAGE,
                self.preview@ == garbage_after(old(self)@, chunk@).preview,
                saw == old(self)@.saw_lparen,
                greeting_at(chunk@, j as int, self.saw_lparen) == greeting_at(chunk@, 0, saw),
                j == 0 ==> self.saw_lparen == saw,
                j > 0 ==> self.saw_lparen == (chunk@[j - 1] == 40),
            decreases chunk.len() - j,
        {
            let b = chunk[j];
            if self.saw_lparen && byte_is_ws(b) {
                let mut out: Vec<u8> = Vec::new();
                out.push(40);
                let mut k: usize = j;
                while k < chunk.len()
                    invariant
                        j <= k <= chunk.len(),
                        out@ == seq![40u8] + chunk@.subrange(j as int, k as int),
                    decreases chunk.len() - k,
                {
                    out.push(chunk[k]);
                    k = k + 1;
                    assert(out@ =~= seq![40u8] + chunk@.subrange(j as int, k as int));
                }
                assert(out@ =~= seq![40u8] + chunk@.skip(j as int));
                return Ok(Some(out));
            }
            self.saw_lparen = b == 40;
            j = j + 1;
        }
        Ok(None)
    }
}

} // verus!
