//! The connection without its transport: bytes that have arrived become items, and
//! the handshake and the authentication are decided here, message by message.

use vstd::prelude::*;
use vstd::utf8::*;

use crate::error::{protocol, result_view, summary, ErrorView, ServerError, SvnError};
use crate::params::{list, nothing, text, word};
use crate::parse::{
    list_at, nth_list, nth_number, nth_string, number_at, parse_server_error, server_error,
    string_at,
};
use crate::raw::{clone_items, copy_bytes, list_of, text_item, word_of, ItemView, SvnItem};
use crate::text::{bytes_of, cat, cat3, decimal, decimal_string, str_eq, trim, trimmed};
use crate::time::Duration;
use crate::types::{opt_bytes, RepositoryInfo, RepositoryView, ServerInfo, ServerView};
use crate::wire::{read, read_item, skip_white, skip_ws, Parse, ReadOutcome};

verus! {

/// A reply to a command: the values of a success, or the errors of a failure.
#[derive(Debug)]
pub struct CommandResponse {
    pub success: bool,
    pub params: Vec<SvnItem>,
    pub errors: Vec<SvnItem>,
}

/// What a reply says.
pub struct ResponseView {
    pub success: bool,
    pub params: Seq<ItemView>,
    pub errors: Seq<ItemView>,
}

impl DeepView for CommandResponse {
    type V = ResponseView;

    open spec fn deep_view(&self) -> ResponseView {
        ResponseView {
            success: self.success,
            params: self.params.deep_view(),
            errors: self.errors.deep_view(),
        }
    }
}

/// The items of a list, or none.
pub open spec fn or_no_items(x: Option<Seq<ItemView>>) -> Seq<ItemView> {
    match x {
        Some(v) => v,
        None => Seq::empty(),
    }
}

/// The reply that an item is.
pub open spec fn response_of(item: ItemView) -> Result<ResponseView, ErrorView> {
    match list_of(item) {
        None => Err(ErrorView::Protocol("command response not a list"@)),
        Some(parts) => if parts.len() == 0 {
            Err(ErrorView::Protocol("empty command response"@))
        } else {
            match word_of(parts[0]) {
                None => Err(ErrorView::Protocol("command response kind not a word"@)),
                Some(kind) => if kind == "success"@ {
                    Ok(
                        ResponseView {
                            success: true,
                            params: or_no_items(nth_list(parts, 1)),
                            errors: Seq::empty(),
                        },
                    )
                } else if kind == "failure"@ {
                    Ok(
                        ResponseView {
                            success: false,
                            params: Seq::empty(),
                            errors: or_no_items(nth_list(parts, 1)),
                        },
                    )
                } else {
                    Err(ErrorView::Protocol("unexpected command response kind: "@ + kind))
                },
            }
        },
    }
}

/// The error that a reply stands for when it is a failure of the command `ctx`.
pub open spec fn response_failure(r: ResponseView, ctx: Seq<char>) -> ErrorView {
    ErrorView::Server(server_error(r.errors).with_context(ctx))
}

/// The values of a success, or the error of a failure.
pub open spec fn response_params(r: ResponseView, ctx: Seq<char>) -> Result<
    Seq<ItemView>,
    ErrorView,
> {
    if r.success {
        Ok(r.params)
    } else {
        Err(response_failure(r, ctx))
    }
}

/// Copies of the items of a list, or none.
fn items_at(parts: &[SvnItem], i: usize) -> (r: Vec<SvnItem>)
    ensures
        r.deep_view() == or_no_items(nth_list(parts.deep_view(), i as int)),
{
    match list_at(parts, i) {
        Some(v) => clone_items(v),
        None => {
            let v: Vec<SvnItem> = Vec::new();
            assert(v.deep_view() =~= Seq::<ItemView>::empty());
            v
        },
    }
}

/// The reply that an item is.
pub fn parse_command_response(item: &SvnItem) -> (r: Result<CommandResponse, SvnError>)
    ensures
        result_view(r) == response_of(item.deep_view()),
{
    let parts = match item.as_list() {
        Some(p) => p,
        None => {
            return Err(protocol("command response not a list"));
        },
    };
    if parts.len() == 0 {
        return Err(protocol("empty command response"));
    }
    let kind = match parts[0].as_word() {
        Some(w) => w,
        None => {
            return Err(protocol("command response kind not a word"));
        },
    };
    let none: Vec<SvnItem> = Vec::new();
    assert(none.deep_view() =~= Seq::<ItemView>::empty());
    if str_eq(&kind, "success") {
        Ok(CommandResponse { success: true, params: items_at(parts, 1), errors: none })
    } else if str_eq(&kind, "failure") {
        Ok(CommandResponse { success: false, params: none, errors: items_at(parts, 1) })
    } else {
        Err(SvnError::Protocol(cat("unexpected command response kind: ", &kind)))
    }
}

impl CommandResponse {
    /// The reply is a failure.
    pub fn is_failure(&self) -> (r: bool)
        ensures
            r == !self.deep_view().success,
    {
        !self.success
    }

    /// The values of a success; a failure is an error of the command `ctx`.
    pub fn success_params(&self, ctx: &str) -> (r: Result<&Vec<SvnItem>, SvnError>)
        ensures
            match r {
                Ok(p) => response_params(self.deep_view(), ctx@) == Ok::<Seq<ItemView>, ErrorView>(
                    p.deep_view(),
                ),
                Err(e) => response_params(self.deep_view(), ctx@) == Err::<
                    Seq<ItemView>,
                    ErrorView,
                >(e.deep_view()),
            },
    {
        if self.success {
            Ok(&self.params)
        } else {
            Err(self.failure(ctx))
        }
    }

    /// A failure is an error of the command `ctx`.
    pub fn ensure_success(&self, ctx: &str) -> (r: Result<(), SvnError>)
        ensures
            match r {
                Ok(_) => self.deep_view().success,
                Err(e) => !self.deep_view().success && e.deep_view() == response_failure(
                    self.deep_view(),
                    ctx@,
                ),
            },
    {
        match self.success_params(ctx) {
            Ok(_) => Ok(()),
            Err(e) => Err(e),
        }
    }

    /// The error that the reply stands for.
    pub fn failure(&self, ctx: &str) -> (r: SvnError)
        ensures
            r.deep_view() == response_failure(self.deep_view(), ctx@),
    {
        SvnError::Server(self.failure_server_error().with_context(ctx.to_owned()))
    }

    /// The failure that the server reports.
    pub fn failure_server_error(&self) -> (r: ServerError)
        ensures
            r.deep_view() == server_error(self.deep_view().errors),
    {
        parse_server_error(&self.errors)
    }

    /// The messages of the failure.
    pub fn failure_message(&self) -> (r: String)
        ensures
            r@ == summary(server_error(self.deep_view().errors).chain),
    {
        self.failure_server_error().message_summary()
    }
}

/// What a connection is set up with.
#[derive(Debug)]
pub struct RaSvnConnectionConfig {
    pub username: Option<String>,
    pub password: Option<String>,
    pub is_tunneled: bool,
    pub url: String,
    pub ra_client: String,
    pub read_timeout: Duration,
    pub write_timeout: Duration,
}

/// A connection, without the streams that it reads from and writes to.
#[derive(Debug)]
pub struct RaSvnConnection {
    buf: Vec<u8>,
    pos: usize,
    username: Option<String>,
    password: Option<String>,
    is_tunneled: bool,
    url: String,
    ra_client: String,
    read_timeout: Duration,
    write_timeout: Duration,
    server_caps: Vec<String>,
}

/// The state of a connection: the bytes that have arrived and were not taken, who the
/// client is, and what the server can do.
pub struct ConnView {
    pub unread: Seq<u8>,
    pub username: Option<Seq<char>>,
    pub password: Option<Seq<char>>,
    pub is_tunneled: bool,
    pub url: Seq<char>,
    pub ra_client: Seq<char>,
    pub read_timeout: Duration,
    pub write_timeout: Duration,
    pub server_caps: Seq<Seq<char>>,
}

impl View for RaSvnConnection {
    type V = ConnView;

    closed spec fn view(&self) -> ConnView {
        ConnView {
            unread: self.buf@.skip(self.pos as int),
            username: self.username.deep_view(),
            password: self.password.deep_view(),
            is_tunneled: self.is_tunneled,
            url: self.url@,
            ra_client: self.ra_client@,
            read_timeout: self.read_timeout,
            write_timeout: self.write_timeout,
            server_caps: self.server_caps.deep_view(),
        }
    }
}

/// Whether `v` holds the text `s`.
pub fn holds_text(v: &[String], s: &str) -> (r: bool)
    ensures
        r == v.deep_view().contains(s@),
{
    let mut i: usize = 0;
    while i < v.len()
        invariant
            i <= v.len(),
            forall|k: int| 0 <= k < i ==> v@[k]@ != s@,
        decreases v.len() - i,
    {
        if str_eq(&v[i], s) {
            assert(v.deep_view()[i as int] == s@);
            return true;
        }
        i = i + 1;
    }
    assert forall|k: int| 0 <= k < v.deep_view().len() implies v.deep_view()[k] != s@ by {
        assert(v.deep_view()[k] == v@[k]@);
    }
    false
}

impl ConnView {
    /// The state with other unread bytes.
    pub open spec fn with_unread(self, unread: Seq<u8>) -> ConnView {
        ConnView { unread, ..self }
    }

    /// The state with other capabilities of the server.
    pub open spec fn with_caps(self, server_caps: Seq<Seq<char>>) -> ConnView {
        ConnView { server_caps, ..self }
    }

    /// The state with another URL.
    pub open spec fn with_url(self, url: Seq<char>) -> ConnView {
        ConnView { url, ..self }
    }
}

impl RaSvnConnection {
    /// The bytes that were taken are among those that have arrived.
    pub closed spec fn wf(self) -> bool {
        self.pos <= self.buf@.len()
    }

    /// A connection on which nothing has arrived.
    pub fn new(config: RaSvnConnectionConfig) -> (r: RaSvnConnection)
        ensures
            r.wf(),
            r@ == (ConnView {
                unread: Seq::empty(),
                username: config.username.deep_view(),
                password: config.password.deep_view(),
                is_tunneled: config.is_tunneled,
                url: config.url@,
                ra_client: config.ra_client@,
                read_timeout: config.read_timeout,
                write_timeout: config.write_timeout,
                server_caps: Seq::empty(),
            }),
    {
        let r = RaSvnConnection {
            buf: Vec::new(),
            pos: 0,
            username: config.username,
            password: config.password,
            is_tunneled: config.is_tunneled,
            url: config.url,
            ra_client: config.ra_client,
            read_timeout: config.read_timeout,
            write_timeout: config.write_timeout,
            server_caps: Vec::new(),
        };
        assert(r@.unread =~= Seq::<u8>::empty());
        assert(r@.server_caps =~= Seq::<Seq<char>>::empty());
        r
    }

    /// How long reading may take.
    pub fn read_timeout(&self) -> (r: Duration)
        ensures
            r == self@.read_timeout,
    {
        self.read_timeout
    }

    /// How long writing may take.
    pub fn write_timeout(&self) -> (r: Duration)
        ensures
            r == self@.write_timeout,
    {
        self.write_timeout
    }

    /// Whether the server has a capability.
    pub fn server_has_cap(&self, cap: &str) -> (r: bool)
        ensures
            r == self@.server_caps.contains(cap@),
    {
        holds_text(&self.server_caps, cap)
    }

    /// Sets the URL of the session.
    pub fn set_session_url(&mut self, url: String)
        ensures
            final(self)@ == old(self)@.with_url(url@),
            final(self).wf() == old(self).wf(),
    {
        self.url = url;
    }

    /// Takes bytes that have arrived.
    pub fn receive(&mut self, bytes: &[u8])
        requires
            old(self).wf(),
        ensures
            final(self).wf(),
            final(self)@ == old(self)@.with_unread(old(self)@.unread + bytes@),
    {
        let mut kept: Vec<u8> = Vec::new();
        let mut i: usize = self.pos;
        while i < self.buf.len()
            invariant
                self.pos <= i <= self.buf.len(),
                *self == *old(self),
                kept@ == self.buf@.subrange(self.pos as int, i as int),
            decreases self.buf.len() - i,
        {
            kept.push(self.buf[i]);
            i = i + 1;
            assert(kept@ =~= self.buf@.subrange(self.pos as int, i as int));
        }
        let mut j: usize = 0;
        while j < bytes.len()
            invariant
                j <= bytes.len(),
                *self == *old(self),
                kept@ == old(self)@.unread + bytes@.take(j as int),
            decreases bytes.len() - j,
        {
            kept.push(bytes[j]);
            j = j + 1;
            assert(kept@ =~= old(self)@.unread + bytes@.take(j as int));
        }
        assert(bytes@.take(j as int) =~= bytes@);
        self.buf = kept;
        self.pos = 0;
        assert(self@.unread =~= kept@);
    }

    /// Gives up the bytes that have arrived and were not taken.
    pub fn take_unread(&mut self) -> (r: Vec<u8>)
        requires
            old(self).wf(),
        ensures
            final(self).wf(),
            r@ == old(self)@.unread,
            final(self)@ == old(self)@.with_unread(Seq::empty()),
    {
        let n = self.buf.len();
        let unread = vstd::slice::slice_subrange(self.buf.as_slice(), self.pos, n);
        let r = copy_bytes(unread);
        assert(r@ =~= self@.unread);
        self.buf = Vec::new();
        self.pos = 0;
        assert(self@.unread =~= Seq::<u8>::empty());
        r
    }

    /// The next item, if it has arrived as a whole.
    pub fn next_item(&mut self) -> (r: Result<Option<SvnItem>, SvnError>)
        requires
            old(self).wf(),
        ensures
            final(self).wf(),
            match read(old(self)@.unread, 0) {
                Parse::More => r matches Ok(None) && final(self)@ == old(self)@,
                Parse::Fail(m) => r matches Err(e) && e.deep_view() == ErrorView::Protocol(m)
                    && final(self)@ == old(self)@,
                Parse::Done(item, n) => r matches Ok(Some(x)) && x.deep_view() == item
                    && final(self)@ == old(self)@.with_unread(old(self)@.unread.skip(n)),
            },
    {
        let n = self.buf.len();
        let unread = vstd::slice::slice_subrange(self.buf.as_slice(), self.pos, n);
        assert(unread@ =~= self@.unread);
        match read_item(unread, 0) {
            ReadOutcome::NeedMore => Ok(None),
            ReadOutcome::Failed(e) => Err(e),
            ReadOutcome::Item(x, k) => {
                proof {
                    crate::wire::lemma_read_bounds(self@.unread, 0);
                }
                self.pos = self.pos + k;
                assert(self@.unread =~= old(self)@.unread.skip(k as int));
                Ok(Some(x))
            },
        }
    }

    /// Whether something other than white space has arrived; white space is dropped.
    pub fn has_data(&mut self) -> (r: bool)
        requires
            old(self).wf(),
        ensures
            final(self).wf(),
            final(self)@ == old(self)@.with_unread(
                old(self)@.unread.skip(skip_ws(old(self)@.unread, 0)),
            ),
            r == (final(self)@.unread.len() > 0),
    {
        let n = self.buf.len();
        let unread = vstd::slice::slice_subrange(self.buf.as_slice(), self.pos, n);
        assert(unread@ =~= self@.unread);
        let k = skip_white(unread, 0);
        self.pos = self.pos + k;
        assert(self@.unread =~= old(self)@.unread.skip(k as int));
        self.pos < self.buf.len()
    }
}

/// The words among items, in order.
pub open spec fn words_of(items: Seq<ItemView>) -> Seq<Seq<char>>
    decreases items.len(),
{
    if items.len() == 0 {
        Seq::empty()
    } else {
        match word_of(items.last()) {
            Some(w) => words_of(items.drop_last()).push(w),
            None => words_of(items.drop_last()),
        }
    }
}

/// The words among items, in order.
pub fn collect_words(items: &[SvnItem]) -> (r: Vec<String>)
    ensures
        r.deep_view() == words_of(items.deep_view()),
{
    let mut out: Vec<String> = Vec::new();
    let mut i: usize = 0;
    let ghost all = items.deep_view();
    assert(out.deep_view() =~= Seq::<Seq<char>>::empty());
    while i < items.len()
        invariant
            i <= items.len(),
            all == items.deep_view(),
            out.deep_view() == words_of(all.take(i as int)),
        decreases items.len() - i,
    {
        let ghost before = out.deep_view();
        proof {
            assert(all.take(i + 1).drop_last() =~= all.take(i as int));
            assert(all.take(i + 1).last() == items@[i as int].deep_view());
        }
        match items[i].as_word() {
            Some(w) => {
                let ghost said = w@;
                out.push(w);
                assert(out.deep_view() =~= before.push(said));
            },
            None => {},
        }
        i = i + 1;
    }
    assert(all.take(i as int) =~= all);
    out
}

/// A copy of a vector of texts.
pub fn clone_texts(v: &[String]) -> (r: Vec<String>)
    ensures
        r.deep_view() == v.deep_view(),
{
    let mut out: Vec<String> = Vec::new();
    let mut i: usize = 0;
    while i < v.len()
        invariant
            i <= v.len(),
            out@.len() == i,
            forall|k: int| 0 <= k < i ==> (#[trigger] out@[k])@ == v@[k]@,
        decreases v.len() - i,
    {
        out.push(v[i].clone());
        i = i + 1;
    }
    assert(out.deep_view() =~= v.deep_view());
    out
}

/// What a greeting leads to: the capabilities of the server, or the reason why this
/// client cannot talk to it.
pub open spec fn greeting_result(params: Seq<ItemView>) -> Result<Seq<Seq<char>>, ErrorView> {
    if params.len() < 4 {
        Err(ErrorView::Protocol("greeting params too short"@))
    } else {
        match nth_number(params, 0) {
            None => Err(ErrorView::Protocol("invalid greeting minver"@)),
            Some(minver) => match nth_number(params, 1) {
                None => Err(ErrorView::Protocol("invalid greeting maxver"@)),
                Some(maxver) => {
                    let caps = words_of(or_no_items(nth_list(params, 3)));
                    if !(minver <= 2 <= maxver) {
                        Err(
                            ErrorView::Protocol(
                                "server does not support protocol v2 (min="@ + decimal(
                                    minver as nat,
                                ) + ", max="@ + decimal(maxver as nat) + ")"@,
                            ),
                        )
                    } else if !caps.contains("edit-pipeline"@) {
                        Err(ErrorView::Protocol("server does not support edit pipelining"@))
                    } else {
                        Ok(caps)
                    }
                },
            },
        }
    }
}

/// The capabilities that a greeting announces, once its versions can be read.
pub open spec fn greeting_caps(params: Seq<ItemView>) -> Option<Seq<Seq<char>>> {
    if params.len() >= 4 && nth_number(params, 0) is Some && nth_number(params, 1) is Some {
        Some(words_of(or_no_items(nth_list(params, 3))))
    } else {
        None
    }
}

/// What the client answers to a greeting: the version, its capabilities, the URL, and
/// its name.
pub open spec fn client_greeting(url: Seq<char>, ra_client: Seq<char>) -> ItemView {
    ItemView::List(
        seq![
            ItemView::Number(2),
            ItemView::List(
                seq![
                    ItemView::Word("edit-pipeline"@),
                    ItemView::Word("svndiff1"@),
                    ItemView::Word("accepts-svndiff2"@),
                    ItemView::Word("absent-entries"@),
                    ItemView::Word("depth"@),
                    ItemView::Word("mergeinfo"@),
                    ItemView::Word("log-revprops"@),
                ],
            ),
            text_item(url),
            text_item(ra_client),
            ItemView::List(Seq::empty()),
        ],
    )
}

fn client_greeting_item(url: &str, ra_client: &str) -> (r: SvnItem)
    ensures
        r.deep_view() == client_greeting(url@, ra_client@),
{
    let caps = vec![
        word("edit-pipeline"),
        word("svndiff1"),
        word("accepts-svndiff2"),
        word("absent-entries"),
        word("depth"),
        word("mergeinfo"),
        word("log-revprops"),
    ];
    assert(caps.deep_view() =~= client_greeting(url@, ra_client@)->List_0[1]->List_0);
    let items = vec![SvnItem::Number(2), list(caps), text(url), text(ra_client), nothing()];
    assert(items.deep_view() =~= client_greeting(url@, ra_client@)->List_0);
    list(items)
}

/// What a server says about the repository: its UUID, the URL of its root, and its
/// capabilities.
pub open spec fn repos_info(params: Seq<ItemView>) -> Result<RepositoryView, ErrorView> {
    match nth_string(params, 0) {
        None => Err(ErrorView::Protocol("repos-info missing uuid"@)),
        Some(uuid) => Ok(
            RepositoryView {
                uuid,
                root_url: match nth_string(params, 1) {
                    Some(u) => u,
                    None => Seq::empty(),
                },
                capabilities: words_of(or_no_items(nth_list(params, 2))),
            },
        ),
    }
}

/// What a server says about the repository.
pub fn parse_repos_info(params: &[SvnItem]) -> (r: Result<RepositoryInfo, SvnError>)
    ensures
        result_view(r) == repos_info(params.deep_view()),
{
    let uuid = match string_at(params, 0) {
        Some(s) => s,
        None => {
            return Err(protocol("repos-info missing uuid"));
        },
    };
    let root_url = match string_at(params, 1) {
        Some(s) => s,
        None => String::new(),
    };
    let caps = items_at(params, 2);
    Ok(RepositoryInfo { uuid, root_url, capabilities: collect_words(&caps) })
}

/// The capabilities, with those of `more` behind them that are not among them yet.
pub open spec fn merged_caps(caps: Seq<Seq<char>>, more: Seq<Seq<char>>) -> Seq<Seq<char>>
    decreases more.len(),
{
    if more.len() == 0 {
        caps
    } else {
        let before = merged_caps(caps, more.drop_last());
        if before.contains(more.last()) {
            before
        } else {
            before.push(more.last())
        }
    }
}

fn merge_caps(caps: &mut Vec<String>, more: &[String])
    ensures
        final(caps).deep_view() == merged_caps(old(caps).deep_view(), more.deep_view()),
{
    let mut i: usize = 0;
    let ghost all = more.deep_view();
    while i < more.len()
        invariant
            i <= more.len(),
            all == more.deep_view(),
            caps.deep_view() == merged_caps(old(caps).deep_view(), all.take(i as int)),
        decreases more.len() - i,
    {
        let ghost before = caps.deep_view();
        proof {
            assert(all.take(i + 1).drop_last() =~= all.take(i as int));
            assert(all.take(i + 1).last() == more@[i as int]@);
        }
        if !holds_text(caps, &more[i]) {
            caps.push(more[i].clone());
            assert(caps.deep_view() =~= before.push(more@[i as int]@));
        }
        i = i + 1;
    }
    assert(all.take(i as int) =~= all);
}

/// What the end of the handshake tells about the server.
pub open spec fn server_info(caps: Seq<Seq<char>>, params: Seq<ItemView>) -> Result<
    ServerView,
    ErrorView,
> {
    match repos_info(params) {
        Err(e) => Err(e),
        Ok(repository) => Ok(
            ServerView { server_caps: merged_caps(caps, repository.capabilities), repository },
        ),
    }
}

impl RaSvnConnection {
    /// Takes the greeting of the server, remembers its capabilities, and gives what to
    /// answer.
    pub fn accept_greeting(&mut self, greeting: &CommandResponse) -> (r: Result<SvnItem, SvnError>)
        requires
            old(self).wf(),
        ensures
            final(self).wf(),
            match response_params(greeting.deep_view(), "greeting"@) {
                Err(e) => r matches Err(x) && x.deep_view() == e && final(self)@ == old(self)@,
                Ok(params) => {
                    &&& final(self)@ == (match greeting_caps(params) {
                        Some(caps) => old(self)@.with_caps(caps),
                        None => old(self)@,
                    })
                    &&& match greeting_result(params) {
                        Err(e) => r matches Err(x) && x.deep_view() == e,
                        Ok(_) => r matches Ok(item) && item.deep_view() == client_greeting(
                            old(self)@.url,
                            old(self)@.ra_client,
                        ),
                    }
                },
            },
    {
        let params = match greeting.success_params("greeting") {
            Ok(p) => p,
            Err(e) => {
                return Err(e);
            },
        };
        if params.len() < 4 {
            return Err(protocol("greeting params too short"));
        }
        let minver = match number_at(params, 0) {
            Some(n) => n,
            None => {
                return Err(protocol("invalid greeting minver"));
            },
        };
        let maxver = match number_at(params, 1) {
            Some(n) => n,
            None => {
                return Err(protocol("invalid greeting maxver"));
            },
        };
        let cap_items = items_at(params, 3);
        self.server_caps = collect_words(&cap_items);
        if !(minver <= 2 && 2 <= maxver) {
            let front = cat3(
                "server does not support protocol v2 (min=",
                &decimal_string(minver),
                ", max=",
            );
            return Err(SvnError::Protocol(cat3(&front, &decimal_string(maxver), ")")));
        }
        if !self.server_has_cap("edit-pipeline") {
            return Err(protocol("server does not support edit pipelining"));
        }
        Ok(client_greeting_item(&self.url, &self.ra_client))
    }

    /// Takes what the server says about the repository, which ends the handshake.
    pub fn finish_handshake(&mut self, response: &CommandResponse) -> (r: Result<
        ServerInfo,
        SvnError,
    >)
        requires
            old(self).wf(),
        ensures
            final(self).wf(),
            match response_params(response.deep_view(), "repos-info"@) {
                Err(e) => r matches Err(x) && x.deep_view() == e && final(self)@ == old(self)@,
                Ok(params) => match server_info(old(self)@.server_caps, params) {
                    Err(e) => r matches Err(x) && x.deep_view() == e && final(self)@ == old(self)@,
                    Ok(info) => r matches Ok(x) && x.deep_view() == info && final(self)@ == old(
                        self)@.with_caps(info.server_caps),
                },
            },
    {
        let params = match response.success_params("repos-info") {
            Ok(p) => p,
            Err(e) => {
                return Err(e);
            },
        };
        let repository = match parse_repos_info(params) {
            Ok(x) => x,
            Err(e) => {
                return Err(e);
            },
        };
        merge_caps(&mut self.server_caps, &repository.capabilities);
        Ok(ServerInfo { server_caps: clone_texts(&self.server_caps), repository })
    }
}

/// The HMAC-MD5 of `data` under `key`.
pub uninterp spec fn hmac_md5(key: Seq<u8>, data: Seq<u8>) -> Seq<u8>;

/// Computes an HMAC with `hmac::Hmac` over `md5::Md5`: keys of every length are taken,
/// and the result, here called `hmac_md5`, is a function of the key and the data.
#[verifier::external_body]
fn hmac_md5_of(key: &[u8], data: &[u8]) -> (r: Option<Vec<u8>>)
    ensures
        r is Some,
        r matches Some(d) ==> d@ == hmac_md5(key@, data@),
{
    let mac: Result<hmac::Hmac<md5::Md5>, _> = hmac::Mac::new_from_slice(key);
    match mac {
        Ok(mut mac) => {
            hmac::Mac::update(&mut mac, data);
            Some(hmac::Mac::finalize(mac).into_bytes().to_vec())
        },
        Err(_) => None,
    }
}

/// The hexadecimal digit for a number below sixteen.
pub open spec fn hex_digit(n: int) -> char {
    if n < 10 {
        (n + 48) as char
    } else {
        (n + 87) as char
    }
}

/// Bytes in hexadecimal notation, two digits each, with lower-case letters.
pub open spec fn hex_text(b: Seq<u8>) -> Seq<char>
    decreases b.len(),
{
    if b.len() == 0 {
        Seq::empty()
    } else {
        hex_text(b.drop_last()) + seq![
            hex_digit(b.last() as int / 16),
            hex_digit(b.last() as int % 16),
        ]
    }
}

/// Writes bytes in hexadecimal notation with `hex::encode`: two digits for each byte,
/// with lower-case letters.
#[verifier::external_body]
fn hex_of(data: &[u8]) -> (r: String)
    ensures
        r@ == hex_text(data@),
{
    hex::encode(data)
}

/// The client has a user name that is not blank.
pub open spec fn has_user(c: ConnView) -> bool {
    match c.username {
        Some(u) => trim(u).len() > 0,
        None => false,
    }
}

/// A mechanism, and what to send along with its name.
pub type AuthMechanismChoice = (String, Option<Vec<u8>>);

/// What choices of mechanisms say.
pub open spec fn choices_view(v: Seq<(String, Option<Vec<u8>>)>) -> Seq<
    (Seq<char>, Option<Seq<u8>>),
> {
    v.map_values(|c: (String, Option<Vec<u8>>)| (c.0@, opt_bytes(c.1)))
}

/// What PLAIN sends: the user name and the password, each behind a zero byte.
pub open spec fn plain_token(user: Seq<char>, pass: Seq<char>) -> Seq<u8> {
    seq![0u8] + encode_utf8(user) + seq![0u8] + encode_utf8(pass)
}

/// One choice, if it is to be made.
pub open spec fn choice_if(take: bool, mech: Seq<char>, token: Option<Seq<u8>>) -> Seq<
    (Seq<char>, Option<Seq<u8>>),
> {
    if take {
        seq![(mech, token)]
    } else {
        Seq::empty()
    }
}

/// The mechanisms to try, in this order: EXTERNAL on a tunnel, CRAM-MD5 and PLAIN with
/// credentials, ANONYMOUS; and EXTERNAL if there is nothing else.
pub open spec fn mech_choices(c: ConnView, mechs: Seq<Seq<char>>) -> Seq<
    (Seq<char>, Option<Seq<u8>>),
> {
    let creds = has_user(c) && c.password is Some;
    let external = mechs.contains("EXTERNAL"@);
    let first = choice_if(c.is_tunneled && external, "EXTERNAL"@, Some(Seq::empty())) + choice_if(
        creds && mechs.contains("CRAM-MD5"@),
        "CRAM-MD5"@,
        None,
    ) + choice_if(
        creds && mechs.contains("PLAIN"@),
        "PLAIN"@,
        Some(plain_token(c.username->0, c.password->0)),
    ) + choice_if(mechs.contains("ANONYMOUS"@), "ANONYMOUS"@, Some(Seq::empty()));
    if first.len() == 0 {
        choice_if(external, "EXTERNAL"@, Some(Seq::empty()))
    } else {
        first
    }
}

/// What to answer to a challenge of a mechanism.
pub open spec fn step_reply(c: ConnView, mech: Seq<char>, challenge: Seq<u8>) -> Result<
    Seq<u8>,
    ErrorView,
> {
    if mech == "CRAM-MD5"@ {
        match c.username {
            None => Err(ErrorView::AuthFailed("missing username"@)),
            Some(user) => match c.password {
                None => Err(ErrorView::AuthFailed("missing password"@)),
                Some(pass) => Ok(
                    encode_utf8(
                        user + " "@ + hex_text(hmac_md5(encode_utf8(pass), challenge)),
                    ),
                ),
            },
        }
    } else if mech == "PLAIN"@ || mech == "ANONYMOUS"@ || mech == "EXTERNAL"@ {
        Err(ErrorView::Protocol("unexpected auth step for "@ + mech))
    } else {
        Err(ErrorView::Protocol("auth step not implemented for "@ + mech))
    }
}

/// What CRAM-MD5 answers, given the digest of the challenge: the user name and the
/// digest in hexadecimal notation.
pub fn cram_md5_reply(user: &str, digest: &[u8]) -> (r: Vec<u8>)
    ensures
        r@ == encode_utf8(user@ + " "@ + hex_text(digest@)),
{
    bytes_of(&cat3(user, " ", &hex_of(digest)))
}

fn push_choice(out: &mut Vec<AuthMechanismChoice>, mech: &str, token: Option<Vec<u8>>)
    ensures
        choices_view(final(out)@) == choices_view(old(out)@) + seq![(mech@, opt_bytes(token))],
{
    out.push((mech.to_owned(), token));
    assert(choices_view(out@) =~= choices_view(old(out)@) + seq![(mech@, opt_bytes(token))]);
}

fn empty_token() -> (r: Option<Vec<u8>>)
    ensures
        opt_bytes(r) == Some(Seq::<u8>::empty()),
{
    let v: Vec<u8> = Vec::new();
    assert(v@ =~= Seq::<u8>::empty());
    Some(v)
}

fn plain_token_of(user: &str, pass: &str) -> (r: Vec<u8>)
    ensures
        r@ == plain_token(user@, pass@),
{
    let mut out: Vec<u8> = Vec::new();
    out.push(0);
    let mut u = bytes_of(user);
    out.append(&mut u);
    out.push(0);
    let mut p = bytes_of(pass);
    out.append(&mut p);
    assert(out@ =~= plain_token(user@, pass@));
    out
}

impl RaSvnConnection {
    /// The mechanisms to try, of those that the server offers.
    pub fn select_mechs(&self, mechs: &[String]) -> (r: Result<Vec<AuthMechanismChoice>, SvnError>)
        ensures
            match r {
                Ok(v) => choices_view(v@) == mech_choices(self@, mechs.deep_view()) && v@.len() > 0,
                Err(e) => e.deep_view() == ErrorView::AuthUnavailable && mech_choices(
                    self@,
                    mechs.deep_view(),
                ).len() == 0,
            },
    {
        let user_given = match &self.username {
            Some(u) => !trimmed(u).as_str().is_empty(),
            None => false,
        };
        let creds = user_given && self.password.is_some();
        let external = holds_text(mechs, "EXTERNAL");
        let mut out: Vec<AuthMechanismChoice> = Vec::new();
        assert(choices_view(out@) =~= Seq::<(Seq<char>, Option<Seq<u8>>)>::empty());
        let ghost none = Seq::<(Seq<char>, Option<Seq<u8>>)>::empty();
        if self.is_tunneled && external {
            push_choice(&mut out, "EXTERNAL", empty_token());
        }
        let ghost a = choices_view(out@);
        assert(a =~= choice_if(self@.is_tunneled && external, "EXTERNAL"@, Some(Seq::empty())));
        if creds && holds_text(mechs, "CRAM-MD5") {
            push_choice(&mut out, "CRAM-MD5", None);
        } else {
            assert(a + none =~= a);
        }
        let ghost b = choices_view(out@);
        if creds && holds_text(mechs, "PLAIN") {
            match &self.username {
                Some(u) => match &self.password {
                    Some(p) => {
                        push_choice(&mut out, "PLAIN", Some(plain_token_of(u, p)));
                    },
                    None => {},
                },
                None => {},
            }
        } else {
            assert(b + none =~= b);
        }
        let ghost c = choices_view(out@);
        if holds_text(mechs, "ANONYMOUS") {
            push_choice(&mut out, "ANONYMOUS", empty_token());
        } else {
            assert(c + none =~= c);
        }
        if out.len() == 0 && external {
            push_choice(&mut out, "EXTERNAL", empty_token());
            assert(choices_view(out@) =~= seq![("EXTERNAL"@, Some(Seq::<u8>::empty()))]);
        }
        if out.len() == 0 {
            Err(SvnError::AuthUnavailable)
        } else {
            Ok(out)
        }
    }

    /// The mechanism to try first.
    pub fn select_mech(&self, mechs: &[String]) -> (r: Result<AuthMechanismChoice, SvnError>)
        ensures
            match r {
                Ok(c) => mech_choices(self@, mechs.deep_view()).len() > 0 && mech_choices(
                    self@,
                    mechs.deep_view(),
                )[0] == (c.0@, opt_bytes(c.1)),
                Err(e) => e.deep_view() == ErrorView::AuthUnavailable && mech_choices(
                    self@,
                    mechs.deep_view(),
                ).len() == 0,
            },
    {
        match self.select_mechs(mechs) {
            Ok(mut v) => {
                let c = v.remove(0);
                Ok(c)
            },
            Err(e) => Err(e),
        }
    }

    /// What to answer to a challenge of a mechanism.
    pub fn auth_step_reply(&self, mech: &str, challenge: Vec<u8>) -> (r: Result<Vec<u8>, SvnError>)
        ensures
            match r {
                Ok(b) => step_reply(self@, mech@, challenge@) == Ok::<Seq<u8>, ErrorView>(b@),
                Err(e) => step_reply(self@, mech@, challenge@) == Err::<Seq<u8>, ErrorView>(
                    e.deep_view(),
                ),
            },
    {
        if str_eq(mech, "CRAM-MD5") {
            let user = match &self.username {
                Some(u) => u,
                None => {
                    return Err(SvnError::AuthFailed("missing username".to_owned()));
                },
            };
            let pass = match &self.password {
                Some(p) => p,
                None => {
                    return Err(SvnError::AuthFailed("missing password".to_owned()));
                },
            };
            match hmac_md5_of(pass.as_str().as_bytes(), &challenge) {
                Some(digest) => Ok(cram_md5_reply(user, &digest)),
                None => Err(protocol("failed to create HMAC-MD5")),
            }
        } else if str_eq(mech, "PLAIN") || str_eq(mech, "ANONYMOUS") || str_eq(mech, "EXTERNAL") {
            Err(SvnError::Protocol(cat("unexpected auth step for ", mech)))
        } else {
            Err(SvnError::Protocol(cat("auth step not implemented for ", mech)))
        }
    }
}

} // verus!
