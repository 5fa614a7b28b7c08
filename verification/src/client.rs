//! Clients and sessions: what a connection is opened with, and what a session decides.

use vstd::prelude::*;

use crate::conn::{holds_text, RaSvnConnectionConfig};
use crate::editor::{Report, ReportCommand, ReportView};
use crate::error::{protocol, result_view, ErrorView, IoErrorKind, SvnError};
use crate::options::ReplayRangeOptions;
use crate::path::{rel_dir_path, validate_rel_dir_path};
use crate::raw::{ItemView, SvnItem};
use crate::requests::{
    get_dir_props_item, get_dir_props_request, get_file_props_item, get_file_props_request,
};
use crate::results::{DirEntry, DirEntryView, DirListing};
use crate::ssh::{SshConfig, SshConfigView};
use crate::text::{clone_text, contains_text, has_part, trim, trimmed};
use crate::time::Duration;
use crate::types::{capability_word, Capability, NodeKind, ServerInfo, ServerView};
use crate::url::{SvnUrl, UrlView};

verus! {

/// What sessions are opened with.
#[derive(Debug)]
pub struct RaSvnClient {
    base_url: SvnUrl,
    username: Option<String>,
    password: Option<String>,
    connect_timeout: Duration,
    read_timeout: Duration,
    write_timeout: Duration,
    ra_client: String,
    ssh: Option<SshConfig>,
}

/// What a `RaSvnClient` says.
pub struct ClientView {
    pub base_url: UrlView,
    pub username: Option<Seq<char>>,
    pub password: Option<Seq<char>>,
    pub connect_timeout: Duration,
    pub read_timeout: Duration,
    pub write_timeout: Duration,
    pub ra_client: Seq<char>,
    pub ssh: Option<SshConfigView>,
}

/// What settings that may be missing say.
pub open spec fn ssh_view(s: Option<SshConfig>) -> Option<SshConfigView> {
    match s {
        Some(c) => Some(c@),
        None => None,
    }
}

impl View for RaSvnClient {
    type V = ClientView;

    closed spec fn view(&self) -> ClientView {
        ClientView {
            base_url: self.base_url.deep_view(),
            username: self.username.deep_view(),
            password: self.password.deep_view(),
            connect_timeout: self.connect_timeout,
            read_timeout: self.read_timeout,
            write_timeout: self.write_timeout,
            ra_client: self.ra_client@,
            ssh: ssh_view(self.ssh),
        }
    }
}

impl Clone for RaSvnClient {
    fn clone(&self) -> (r: RaSvnClient)
        ensures
            r@ == self@,
    {
        let ssh = match &self.ssh {
            Some(s) => Some(s.clone()),
            None => None,
        };
        RaSvnClient {
            base_url: self.base_url.clone(),
            username: clone_text(&self.username),
            password: clone_text(&self.password),
            connect_timeout: self.connect_timeout,
            read_timeout: self.read_timeout,
            write_timeout: self.write_timeout,
            ra_client: self.ra_client.clone(),
            ssh,
        }
    }
}

impl RaSvnClient {
    /// A client for a URL, with a name and a password where they are known.
    pub fn new(base_url: SvnUrl, username: Option<String>, password: Option<String>) -> (r:
        RaSvnClient)
        ensures
            r@ == (ClientView {
                base_url: base_url.deep_view(),
                username: username.deep_view(),
                password: password.deep_view(),
                connect_timeout: Duration { secs: 10, nanos: 0 },
                read_timeout: Duration { secs: 60, nanos: 0 },
                write_timeout: Duration { secs: 60, nanos: 0 },
                ra_client: "prototype-ra_svn"@,
                ssh: None,
            }),
    {
        RaSvnClient {
            base_url,
            username,
            password,
            connect_timeout: Duration::from_secs(10),
            read_timeout: Duration::from_secs(60),
            write_timeout: Duration::from_secs(60),
            ra_client: "prototype-ra_svn".to_owned(),
            ssh: None,
        }
    }

    /// The URL.
    pub fn base_url(&self) -> (r: &SvnUrl)
        ensures
            r.deep_view() == self@.base_url,
    {
        &self.base_url
    }

    /// The user's name.
    pub fn username(&self) -> (r: Option<&str>)
        ensures
            match r {
                Some(s) => self@.username == Some(s@),
                None => self@.username is None,
            },
    {
        match &self.username {
            Some(s) => Some(s.as_str()),
            None => None,
        }
    }

    /// The user's password.
    pub fn password(&self) -> (r: Option<&str>)
        ensures
            match r {
                Some(s) => self@.password == Some(s@),
                None => self@.password is None,
            },
    {
        match &self.password {
            Some(s) => Some(s.as_str()),
            None => None,
        }
    }

    /// How long connecting may take.
    pub fn connect_timeout(&self) -> (r: Duration)
        ensures
            r == self@.connect_timeout,
    {
        self.connect_timeout
    }

    /// How long reading may take.
    pub fn read_timeout(&self) -> (r: Duration)
        ensures
            r == self@.read_timeout,
    {
        self.read_timeout
    }

    /// How long writing may take.
    pub fn write_timeout(&self) -> (r: Duration)
        ensures
            r == self@.write_timeout,
    {
        self.write_timeout
    }

    /// What the client calls itself.
    pub fn ra_client(&self) -> (r: &str)
        ensures
            r@ == self@.ra_client,
    {
        self.ra_client.as_str()
    }

    /// The settings for `svn+ssh://` URLs that were set.
    pub fn ssh_config(&self) -> (r: Option<&SshConfig>)
        ensures
            match r {
                Some(s) => self@.ssh == Some(s@),
                None => self@.ssh is None,
            },
    {
        match &self.ssh {
            Some(s) => Some(s),
            None => None,
        }
    }

    /// Sets how long connecting may take.
    pub fn with_connect_timeout(self, connect_timeout: Duration) -> (r: RaSvnClient)
        ensures
            r@ == (ClientView { connect_timeout, ..self@ }),
    {
        let mut s = self;
        s.connect_timeout = connect_timeout;
        s
    }

    /// Sets how long reading may take.
    pub fn with_read_timeout(self, read_timeout: Duration) -> (r: RaSvnClient)
        ensures
            r@ == (ClientView { read_timeout, ..self@ }),
    {
        let mut s = self;
        s.read_timeout = read_timeout;
        s
    }

    /// Sets how long writing may take.
    pub fn with_write_timeout(self, write_timeout: Duration) -> (r: RaSvnClient)
        ensures
            r@ == (ClientView { write_timeout, ..self@ }),
    {
        let mut s = self;
        s.write_timeout = write_timeout;
        s
    }

    /// Sets what the client calls itself.
    pub fn with_ra_client(self, ra_client: &str) -> (r: RaSvnClient)
        ensures
            r@ == (ClientView { ra_client: ra_client@, ..self@ }),
    {
        let mut s = self;
        s.ra_client = ra_client.to_owned();
        s
    }

    /// Sets the settings for `svn+ssh://` URLs.
    pub fn with_ssh_config(self, ssh: SshConfig) -> (r: RaSvnClient)
        ensures
            r@ == (ClientView { ssh: Some(ssh@), ..self@ }),
    {
        let mut s = self;
        s.ssh = Some(ssh);
        s
    }

    /// What a connection is opened with.
    pub fn connection_config(&self, is_tunneled: bool) -> (r: RaSvnConnectionConfig)
        ensures
            r.username.deep_view() == self@.username,
            r.password.deep_view() == self@.password,
            r.is_tunneled == is_tunneled,
            r.url@ == self@.base_url.url,
            r.ra_client@ == self@.ra_client,
            r.read_timeout == self@.read_timeout,
            r.write_timeout == self@.write_timeout,
    {
        RaSvnConnectionConfig {
            username: clone_text(&self.username),
            password: clone_text(&self.password),
            is_tunneled,
            url: self.base_url.url.clone(),
            ra_client: self.ra_client.clone(),
            read_timeout: self.read_timeout,
            write_timeout: self.write_timeout,
        }
    }
}

/// An error leaves the connection in a state that cannot be trusted.
pub open spec fn drops_connection(e: ErrorView) -> bool {
    e is Protocol || e is Io
}

/// Whether an error leaves the connection in a state that cannot be trusted.
pub fn should_drop_connection(err: &SvnError) -> (r: bool)
    ensures
        r == drops_connection(err.deep_view()),
{
    match err {
        SvnError::Protocol(_) => true,
        SvnError::Io(_, _) => true,
        _ => false,
    }
}

/// An error says that the connection was lost.
pub open spec fn lost_connection(e: ErrorView) -> bool {
    match e {
        ErrorView::Protocol(m) => has_part(m, "unexpected EOF"@),
        ErrorView::Io(k, _) => k == IoErrorKind::ConnectionAborted || k
            == IoErrorKind::ConnectionReset || k == IoErrorKind::BrokenPipe || k
            == IoErrorKind::UnexpectedEof,
        _ => false,
    }
}

/// Whether an error says that the connection was lost.
pub fn is_retryable_error(err: &SvnError) -> (r: bool)
    ensures
        r == lost_connection(err.deep_view()),
{
    match err {
        SvnError::Protocol(m) => contains_text(m, "unexpected EOF"),
        SvnError::Io(k, _) => match k {
            IoErrorKind::ConnectionAborted => true,
            IoErrorKind::ConnectionReset => true,
            IoErrorKind::BrokenPipe => true,
            IoErrorKind::UnexpectedEof => true,
            _ => false,
        },
        _ => false,
    }
}

/// A session, without its connection.
#[derive(Debug)]
pub struct RaSvnSession {
    client: RaSvnClient,
    connected: bool,
    server_info: Option<ServerInfo>,
    allow_reconnect: bool,
}

/// What a `RaSvnSession` says.
pub struct SessionView {
    pub client: ClientView,
    pub connected: bool,
    pub server_info: Option<ServerView>,
    pub allow_reconnect: bool,
}

impl View for RaSvnSession {
    type V = SessionView;

    closed spec fn view(&self) -> SessionView {
        SessionView {
            client: self.client@,
            connected: self.connected,
            server_info: self.server_info.deep_view(),
            allow_reconnect: self.allow_reconnect,
        }
    }
}

impl SessionView {
    /// The server can do something.
    pub open spec fn has(self, capability: Capability) -> bool {
        match self.server_info {
            Some(info) => info.server_caps.contains(capability_word(capability))
                || info.repository.capabilities.contains(capability_word(capability)),
            None => false,
        }
    }
}

impl RaSvnSession {
    /// A session that is not connected yet, and that may or may not connect by itself.
    pub fn new(client: RaSvnClient, allow_reconnect: bool) -> (r: RaSvnSession)
        ensures
            r@ == (SessionView {
                client: client@,
                connected: false,
                server_info: None,
                allow_reconnect,
            }),
    {
        RaSvnSession { client, connected: false, server_info: None, allow_reconnect }
    }

    /// What the session was opened with.
    pub fn client(&self) -> (r: &RaSvnClient)
        ensures
            r@ == self@.client,
    {
        &self.client
    }

    /// What the server said of itself.
    pub fn server_info(&self) -> (r: Option<&ServerInfo>)
        ensures
            match r {
                Some(i) => self@.server_info == Some(i.deep_view()),
                None => self@.server_info is None,
            },
    {
        match &self.server_info {
            Some(i) => Some(i),
            None => None,
        }
    }

    /// The UUID of the repository.
    pub fn repos_uuid(&self) -> (r: Option<&str>)
        ensures
            match r {
                Some(s) => self@.server_info matches Some(i) && s@ == i.repository.uuid,
                None => self@.server_info is None,
            },
    {
        match &self.server_info {
            Some(i) => Some(i.repository.uuid.as_str()),
            None => None,
        }
    }

    /// The URL of the root of the repository, if it is not blank.
    pub fn repos_root_url(&self) -> (r: Option<&str>)
        ensures
            match r {
                Some(s) => self@.server_info matches Some(i) && s@ == i.repository.root_url && trim(
                    s@,
                ).len() > 0,
                None => self@.server_info matches Some(i) ==> trim(i.repository.root_url).len()
                    == 0,
            },
    {
        match &self.server_info {
            Some(i) => {
                let root = i.repository.root_url.as_str();
                if trimmed(root).as_str().is_empty() {
                    None
                } else {
                    Some(root)
                }
            },
            None => None,
        }
    }

    /// Whether the server can do something.
    pub fn has_capability(&self, capability: Capability) -> (r: bool)
        ensures
            r == self@.has(capability),
    {
        match &self.server_info {
            Some(i) => {
                let cap = capability.as_wire_word();
                holds_text(&i.server_caps, cap) || holds_text(&i.repository.capabilities, cap)
            },
            None => false,
        }
    }

    /// Whether there is a connection.
    pub fn is_connected(&self) -> (r: bool)
        ensures
            r == self@.connected,
    {
        self.connected
    }

    /// Whether the session may connect by itself.
    pub fn check_reconnect(&self) -> (r: Result<(), SvnError>)
        ensures
            result_view(r) == (if self@.allow_reconnect {
                Ok::<(), ErrorView>(())
            } else {
                Err(ErrorView::Protocol("reconnect not supported for this session"@))
            }),
    {
        if self.allow_reconnect {
            Ok(())
        } else {
            Err(protocol("reconnect not supported for this session"))
        }
    }

    /// The session is connected to a server that says this of itself.
    pub fn connect(&mut self, info: ServerInfo)
        ensures
            final(self)@ == (SessionView {
                connected: true,
                server_info: Some(info.deep_view()),
                ..old(self)@
            }),
    {
        self.connected = true;
        self.server_info = Some(info);
    }

    /// The connection is given up.
    pub fn disconnect(&mut self)
        ensures
            final(self)@ == (SessionView { connected: false, ..old(self)@ }),
    {
        self.connected = false;
    }

    /// The session has moved to another URL.
    pub fn set_base_url(&mut self, url: SvnUrl)
        ensures
            final(self)@ == (SessionView {
                client: ClientView { base_url: url.deep_view(), ..old(self)@.client },
                ..old(self)@
            }),
    {
        self.client.base_url = url;
    }

    /// Whether an operation that failed at this attempt is tried again on a new
    /// connection: once, if the connection was lost and the session may connect by
    /// itself.
    pub fn retries(&self, attempt: usize, err: &SvnError) -> (r: bool)
        ensures
            r == (attempt == 0 && self@.allow_reconnect && lost_connection(err.deep_view())),
    {
        attempt == 0 && self.allow_reconnect && is_retryable_error(err)
    }

    /// Whether a file may be fetched again on a new connection: once, if the connection was
    /// lost before any of the text had come.
    pub fn retries_file(&self, attempt: usize, written: u64, err: &SvnError) -> (r: bool)
        ensures
            r == (attempt == 0 && written == 0 && lost_connection(err.deep_view())),
    {
        attempt == 0 && written == 0 && is_retryable_error(err)
    }

    /// Whether the properties that a file inherits are asked for: only of a server that
    /// knows them.
    pub fn asks_inherited(&self, wanted: bool) -> (r: bool)
        ensures
            r == (wanted && self@.has(Capability::InheritedProps)),
    {
        wanted && self.has_capability(Capability::InheritedProps)
    }

    /// An operation failed: the connection is given up if it cannot be trusted.
    pub fn note_failure(&mut self, err: &SvnError)
        ensures
            final(self)@ == (SessionView {
                connected: old(self)@.connected && !drops_connection(err.deep_view()),
                ..old(self)@
            }),
    {
        if should_drop_connection(err) {
            self.connected = false;
        }
    }
}

/// A report is complete: it ends with being finished or aborted.
pub open spec fn report_finished(report: Seq<ReportView>) -> Result<(), ErrorView> {
    if report.len() > 0 && (report.last() is FinishReport || report.last() is AbortReport) {
        Ok(())
    } else {
        Err(ErrorView::Protocol("report must end with finish-report"@))
    }
}

/// Whether a report is complete.
pub fn require_finish_report(report: &Report) -> (r: Result<(), SvnError>)
    ensures
        result_view(r) == report_finished(report.commands.deep_view()),
{
    let n = report.commands.len();
    if n > 0 {
        assert(report.commands.deep_view().last() == report.commands@[n - 1].deep_view());
        match &report.commands[n - 1] {
            ReportCommand::FinishReport | ReportCommand::AbortReport => {
                return Ok(());
            },
            _ => {},
        }
    }
    Err(protocol("report must end with finish-report"))
}

/// Whether a property of a revision can be changed only if it has an expected value:
/// only a server that says that it can is asked to.
pub fn check_atomic_revprops(server_known: bool, supported: bool) -> (r: Result<(), SvnError>)
    ensures
        result_view(r) == (if server_known && !supported {
            Err::<(), ErrorView>(
                ErrorView::Protocol("server does not support atomic revision property changes"@),
            )
        } else {
            Ok(())
        }),
{
    if server_known && !supported {
        return Err(protocol("server does not support atomic revision property changes"));
    }
    Ok(())
}

/// How the properties of a node are asked for.
pub enum ProplistPlan {
    /// There is no such node.
    Missing,
    /// As those of a file.
    File(SvnItem),
    /// As those of a directory.
    Dir(SvnItem),
}

/// What a `ProplistPlan` says.
pub enum ProplistView {
    Missing,
    File(ItemView),
    Dir(ItemView),
}

impl DeepView for ProplistPlan {
    type V = ProplistView;

    open spec fn deep_view(&self) -> ProplistView {
        match self {
            ProplistPlan::Missing => ProplistView::Missing,
            ProplistPlan::File(i) => ProplistView::File(i.deep_view()),
            ProplistPlan::Dir(i) => ProplistView::Dir(i.deep_view()),
        }
    }
}

/// How the properties of a node of this kind are asked for. The path is taken for that of
/// a directory first, whatever the node is.
pub open spec fn proplist_asked(path: Seq<char>, rev: Option<u64>, kind: NodeKind) -> Result<
    ProplistView,
    ErrorView,
> {
    match rel_dir_path(path) {
        Err(e) => Err(e),
        Ok(p) => match kind {
            NodeKind::Missing => Ok(ProplistView::Missing),
            NodeKind::Unknown => Err(ErrorView::Protocol("node kind unknown"@)),
            NodeKind::File => match get_file_props_item(p, rev) {
                Ok(i) => Ok(ProplistView::File(i)),
                Err(e) => Err(e),
            },
            NodeKind::Dir => match get_dir_props_item(path, rev) {
                Ok(i) => Ok(ProplistView::Dir(i)),
                Err(e) => Err(e),
            },
        },
    }
}

/// How the properties of a node of this kind are asked for.
pub fn plan_proplist(path: &str, rev: Option<u64>, kind: NodeKind) -> (r: Result<
    ProplistPlan,
    SvnError,
>)
    ensures
        result_view(r) == proplist_asked(path@, rev, kind),
{
    let p = match validate_rel_dir_path(path) {
        Ok(p) => p,
        Err(e) => {
            return Err(e);
        },
    };
    match kind {
        NodeKind::Missing => Ok(ProplistPlan::Missing),
        NodeKind::Unknown => Err(protocol("node kind unknown")),
        NodeKind::File => match get_file_props_request(&p, rev) {
            Ok(i) => Ok(ProplistPlan::File(i)),
            Err(e) => Err(e),
        },
        NodeKind::Dir => match get_dir_props_request(path, rev) {
            Ok(i) => Ok(ProplistPlan::Dir(i)),
            Err(e) => Err(e),
        },
    }
}

/// A walk down a tree, directory by directory.
pub struct ListWalk {
    stack: Vec<String>,
    out: Vec<DirEntry>,
}

/// Where a walk stands: the directories that are still to be listed, the next one last,
/// and the entries so far.
#[verifier::ext_equal]
pub struct WalkView {
    pub stack: Seq<Seq<char>>,
    pub out: Seq<DirEntryView>,
}

impl View for ListWalk {
    type V = WalkView;

    closed spec fn view(&self) -> WalkView {
        WalkView { stack: self.stack.deep_view(), out: self.out.deep_view() }
    }
}

/// The paths of the directories among the first `n` entries.
pub open spec fn dirs_among(entries: Seq<DirEntryView>, n: int) -> Seq<Seq<char>>
    decreases n,
{
    if n <= 0 || n > entries.len() {
        Seq::empty()
    } else if entries[n - 1].kind == NodeKind::Dir {
        dirs_among(entries, n - 1).push(entries[n - 1].path)
    } else {
        dirs_among(entries, n - 1)
    }
}

/// What starting a walk gives.
pub open spec fn walk_is(r: Result<ListWalk, SvnError>, path: Seq<char>) -> bool {
    match r {
        Ok(w) => rel_dir_path(path) matches Ok(p) && w@ == (WalkView {
            stack: seq![p],
            out: Seq::empty(),
        }),
        Err(e) => rel_dir_path(path) == Err::<Seq<char>, ErrorView>(e.deep_view()),
    }
}

impl ListWalk {
    /// A walk that starts at a directory.
    pub fn start(path: &str) -> (r: Result<ListWalk, SvnError>)
        ensures
            walk_is(r, path@),
    {
        match validate_rel_dir_path(path) {
            Ok(p) => {
                let ghost said = p@;
                let w = ListWalk { stack: vec![p], out: Vec::new() };
                assert(w@.stack =~= seq![said]);
                assert(w@.out =~= Seq::<DirEntryView>::empty());
                Ok(w)
            },
            Err(e) => Err(e),
        }
    }

    /// The next directory to list, if any is left.
    pub fn next(&mut self) -> (r: Option<String>)
        ensures
            match r {
                Some(d) => old(self)@.stack.len() > 0 && d@ == old(self)@.stack.last()
                    && final(self)@ == (WalkView {
                    stack: old(self)@.stack.drop_last(),
                    ..old(self)@
                }),
                None => old(self)@.stack.len() == 0 && final(self)@ == old(self)@,
            },
    {
        let ghost before = self@;
        assert(before.stack.len() == self.stack@.len());
        let r = self.stack.pop();
        assert(r is Some ==> self@.stack =~= before.stack.drop_last());
        r
    }

    /// Takes the listing of a directory: its directories are to be listed too.
    pub fn take(&mut self, listing: DirListing)
        ensures
            final(self)@ == (WalkView {
                stack: old(self)@.stack + dirs_among(
                    listing.deep_view().entries,
                    listing.deep_view().entries.len() as int,
                ),
                out: old(self)@.out + listing.deep_view().entries,
            }),
    {
        let ghost before = self@;
        let ghost all = listing.entries.deep_view();
        let mut i: usize = 0;
        assert(before.stack + dirs_among(all, 0) =~= before.stack);
        while i < listing.entries.len()
            invariant
                i <= listing.entries.len(),
                all == listing.entries.deep_view(),
                self@.out == before.out,
                self@.stack == before.stack + dirs_among(all, i as int),
            decreases listing.entries.len() - i,
        {
            let ghost now = self@.stack;
            let e = &listing.entries[i];
            assert(all[i as int] == e.deep_view());
            if let NodeKind::Dir = e.kind {
                self.stack.push(e.path.clone());
                assert(self@.stack =~= now.push(e.path@));
                assert(self@.stack =~= before.stack + dirs_among(all, i + 1));
            }
            i = i + 1;
        }
        let mut entries = listing.entries;
        self.out.append(&mut entries);
        assert(self@.out =~= before.out + all);
    }

    /// The entries.
    pub fn finish(self) -> (r: Vec<DirEntry>)
        ensures
            r.deep_view() == self@.out,
    {
        self.out
    }
}

/// The revisions of a range, in order.
pub open spec fn revs_between(start: u64, end: u64) -> Seq<u64> {
    if start <= end {
        Seq::new((end - start + 1) as nat, |i: int| (start + i) as u64)
    } else {
        Seq::empty()
    }
}

/// The replay of a range of revisions, one by one.
pub struct ReplayWalk {
    next: u64,
    end: u64,
    done: bool,
}

impl View for ReplayWalk {
    /// The revisions that are still to come.
    type V = Seq<u64>;

    closed spec fn view(&self) -> Seq<u64> {
        if self.done {
            Seq::empty()
        } else {
            revs_between(self.next, self.end)
        }
    }
}

impl ReplayWalk {
    /// All revisions of the range are still to come.
    pub fn start(options: &ReplayRangeOptions) -> (r: ReplayWalk)
        ensures
            r@ == revs_between(options.start_rev, options.end_rev),
    {
        let r = ReplayWalk {
            next: options.start_rev,
            end: options.end_rev,
            done: options.start_rev > options.end_rev,
        };
        assert(r@ =~= revs_between(options.start_rev, options.end_rev));
        r
    }

    /// Whether another revision comes; if none does, the answer to the command comes.
    pub fn has_next(&self) -> (r: bool)
        ensures
            r == (self@.len() > 0),
    {
        !self.done && self.next <= self.end
    }

    /// The drive of a revision is over: the next one comes, unless the drive was broken
    /// off.
    pub fn finish_rev(&mut self, aborted: bool) -> (r: Result<(), SvnError>)
        requires
            old(self)@.len() > 0,
        ensures
            result_view(r) == (if aborted {
                Err::<(), ErrorView>(ErrorView::Protocol("error while replaying commit"@))
            } else {
                Ok(())
            }),
            final(self)@ == (if aborted {
                old(self)@
            } else {
                old(self)@.drop_first()
            }),
    {
        if aborted {
            return Err(protocol("error while replaying commit"));
        }
        let ghost before = self@;
        if self.next < self.end {
            self.next = self.next + 1;
        } else {
            self.done = true;
        }
        assert(self@ =~= before.drop_first());
        Ok(())
    }
}

} // verus!
