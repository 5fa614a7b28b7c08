//! What can go wrong, as values.

use vstd::prelude::*;

use crate::text::{cat3, cat};

verus! {

/// The kinds of I/O failure that the client's decisions tell apart.
#[derive(Clone, Copy, Debug, PartialEq, Eq, Structural)]
pub enum IoErrorKind {
    ConnectionAborted,
    ConnectionReset,
    BrokenPipe,
    UnexpectedEof,
    TimedOut,
    NotFound,
    AlreadyExists,
    Other,
}

/// One entry of the error chain that a server reports.
#[derive(Clone, Debug, PartialEq, Eq)]
pub struct ServerErrorItem {
    pub code: u64,
    pub message: Option<String>,
    pub file: Option<String>,
    pub line: Option<u64>,
}

/// What a `ServerErrorItem` says.
pub struct ServerErrorItemView {
    pub code: u64,
    pub message: Option<Seq<char>>,
    pub file: Option<Seq<char>>,
    pub line: Option<u64>,
}

impl DeepView for ServerErrorItem {
    type V = ServerErrorItemView;

    open spec fn deep_view(&self) -> ServerErrorItemView {
        ServerErrorItemView {
            code: self.code,
            message: self.message.deep_view(),
            file: self.file.deep_view(),
            line: self.line,
        }
    }
}

/// A failure that the server reported: the chain of its messages, and the
/// command during which it came.
#[derive(Clone, Debug, PartialEq, Eq)]
pub struct ServerError {
    pub context: Option<String>,
    pub chain: Vec<ServerErrorItem>,
}

/// What a `ServerError` says.
pub struct ServerErrorView {
    pub context: Option<Seq<char>>,
    pub chain: Seq<ServerErrorItemView>,
}

impl DeepView for ServerError {
    type V = ServerErrorView;

    open spec fn deep_view(&self) -> ServerErrorView {
        ServerErrorView { context: self.context.deep_view(), chain: self.chain.deep_view() }
    }
}

/// The errors of this crate.
#[derive(Debug)]
pub enum SvnError {
    /// A URL that cannot be used.
    InvalidUrl(String),
    /// A repository path that cannot be used.
    InvalidPath(String),
    /// The peer, or the caller, did not keep to the protocol.
    Protocol(String),
    /// Reading or writing failed.
    Io(IoErrorKind, String),
    /// The server reported a failure.
    Server(ServerError),
    /// The server offers no mechanism that this client can use.
    AuthUnavailable,
    /// The server refused the credentials, or they are missing.
    AuthFailed(String),
}

/// What an `SvnError` says.
pub enum ErrorView {
    InvalidUrl(Seq<char>),
    InvalidPath(Seq<char>),
    Protocol(Seq<char>),
    Io(IoErrorKind, Seq<char>),
    Server(ServerErrorView),
    AuthUnavailable,
    AuthFailed(Seq<char>),
}

impl DeepView for SvnError {
    type V = ErrorView;

    open spec fn deep_view(&self) -> ErrorView {
        match self {
            SvnError::InvalidUrl(m) => ErrorView::InvalidUrl(m@),
            SvnError::InvalidPath(m) => ErrorView::InvalidPath(m@),
            SvnError::Protocol(m) => ErrorView::Protocol(m@),
            SvnError::Io(k, m) => ErrorView::Io(*k, m@),
            SvnError::Server(s) => ErrorView::Server(s.deep_view()),
            SvnError::AuthUnavailable => ErrorView::AuthUnavailable,
            SvnError::AuthFailed(m) => ErrorView::AuthFailed(m@),
        }
    }
}

/// What a result says: what its value says, or what its error says.
pub open spec fn result_view<T: DeepView>(r: Result<T, SvnError>) -> Result<T::V, ErrorView> {
    match r {
        Ok(t) => Ok(t.deep_view()),
        Err(e) => Err(e.deep_view()),
    }
}

/// A protocol error with the given text.
pub fn protocol(message: &str) -> (r: SvnError)
    ensures
        r.deep_view() == ErrorView::Protocol(message@),
{
    SvnError::Protocol(message.to_owned())
}

/// A path error with the given text.
pub fn invalid_path(message: &str) -> (r: SvnError)
    ensures
        r.deep_view() == ErrorView::InvalidPath(message@),
{
    SvnError::InvalidPath(message.to_owned())
}

/// A URL error with the given text.
pub fn invalid_url(message: &str) -> (r: SvnError)
    ensures
        r.deep_view() == ErrorView::InvalidUrl(message@),
{
    SvnError::InvalidUrl(message.to_owned())
}

/// The messages of an error chain, in order, with `"; "` between them; an entry
/// without a message, or with an empty one, is passed over.
pub open spec fn summary(chain: Seq<ServerErrorItemView>) -> Seq<char>
    decreases chain.len(),
{
    if chain.len() == 0 {
        Seq::empty()
    } else {
        let before = summary(chain.drop_last());
        match chain.last().message {
            Some(m) => if m.len() == 0 {
                before
            } else if before.len() == 0 {
                m
            } else {
                before + "; "@ + m
            },
            None => before,
        }
    }
}

impl ServerErrorView {
    /// The same failure, reported for the command `context`.
    pub open spec fn with_context(self, context: Seq<char>) -> ServerErrorView {
        ServerErrorView { context: Some(context), chain: self.chain }
    }
}

impl ServerError {
    /// The same failure, reported for the command `context`.
    pub fn with_context(self, context: String) -> (r: ServerError)
        ensures
            r.deep_view() == self.deep_view().with_context(context@),
    {
        ServerError { context: Some(context), chain: self.chain }
    }

    /// The messages of the chain, joined with `"; "`.
    pub fn message_summary(&self) -> (r: String)
        ensures
            r@ == summary(self.deep_view().chain),
    {
        let mut out = String::new();
        let mut i: usize = 0;
        let ghost chain = self.deep_view().chain;
        while i < self.chain.len()
            invariant
                i <= self.chain.len(),
                chain == self.chain.deep_view(),
                out@ == summary(chain.take(i as int)),
            decreases self.chain.len() - i,
        {
            assert(chain.take(i + 1).drop_last() == chain.take(i as int));
            assert(chain.take(i + 1).last() == self.chain[i as int].deep_view());
            match &self.chain[i].message {
                Some(m) => {
                    if m.as_str().is_empty() {
                    } else if out.as_str().is_empty() {
                        out = m.clone();
                    } else {
                        out = cat3(&out, "; ", m);
                    }
                },
                None => {},
            }
            i = i + 1;
        }
        assert(chain.take(i as int) == chain);
        out
    }
}

/// The text of an error, after what kind of error it is.
pub open spec fn error_text(e: ErrorView) -> Seq<char> {
    match e {
        ErrorView::InvalidUrl(m) => "invalid url: "@ + m,
        ErrorView::InvalidPath(m) => "invalid path: "@ + m,
        ErrorView::Protocol(m) => "protocol error: "@ + m,
        ErrorView::Io(_, m) => "io error: "@ + m,
        ErrorView::Server(s) => match s.context {
            Some(c) => "server error: "@ + c + ": "@ + summary(s.chain),
            None => "server error: "@ + summary(s.chain),
        },
        ErrorView::AuthUnavailable => "no supported authentication mechanism"@,
        ErrorView::AuthFailed(m) => "authentication failed: "@ + m,
    }
}

impl SvnError {
    /// The error as a line of text.
    pub fn to_text(&self) -> (r: String)
        ensures
            r@ == error_text(self.deep_view()),
    {
        match self {
            SvnError::InvalidUrl(m) => cat("invalid url: ", m),
            SvnError::InvalidPath(m) => cat("invalid path: ", m),
            SvnError::Protocol(m) => cat("protocol error: ", m),
            SvnError::Io(_, m) => cat("io error: ", m),
            SvnError::Server(s) => match &s.context {
                Some(c) => cat3(&cat("server error: ", c), ": ", &s.message_summary()),
                None => cat("server error: ", &s.message_summary()),
            },
            SvnError::AuthUnavailable => "no supported authentication mechanism".to_owned(),
            SvnError::AuthFailed(m) => cat("authentication failed: ", m),
        }
    }
}

} // verus!
