//! Reaching a repository through SSH: settings, and what they resolve to.

use vstd::prelude::*;

use crate::error::{result_view, ErrorView, SvnError};
use crate::fspath::{is_absolute, is_absolute_path, join_path, joined_path};
use crate::ssh_config::{HostParams, HostParamsView};
use crate::text::{
    clone_text, chars_of, find, find_char, has_prefix, lower_text, rfind, rfind_char, slice_text,
    starts_with, str_eq, to_lower, trim, trimmed,
};
use crate::time::Duration;
use crate::url::{SvnUrl, UrlView};

verus! {

/// How to log in.
#[derive(Debug)]
pub enum SshAuth {
    /// With a password.
    Password(String),
    /// With a private key from a file; a leading `~` stands for the home directory.
    KeyFile { path: String, passphrase: Option<String> },
    /// With the method "none".
    NoAuth,
}

/// What an `SshAuth` says.
pub enum SshAuthView {
    Password(Seq<char>),
    KeyFile { path: Seq<char>, passphrase: Option<Seq<char>> },
    NoAuth,
}

impl DeepView for SshAuth {
    type V = SshAuthView;

    open spec fn deep_view(&self) -> SshAuthView {
        match self {
            SshAuth::Password(p) => SshAuthView::Password(p@),
            SshAuth::KeyFile { path, passphrase } => SshAuthView::KeyFile {
                path: path@,
                passphrase: passphrase.deep_view(),
            },
            SshAuth::NoAuth => SshAuthView::NoAuth,
        }
    }
}

impl Clone for SshAuth {
    fn clone(&self) -> (r: SshAuth)
        ensures
            r.deep_view() == self.deep_view(),
    {
        match self {
            SshAuth::Password(p) => SshAuth::Password(p.clone()),
            SshAuth::KeyFile { path, passphrase } => SshAuth::KeyFile {
                path: path.clone(),
                passphrase: clone_text(passphrase),
            },
            SshAuth::NoAuth => SshAuth::NoAuth,
        }
    }
}

/// How the key of the server is verified.
#[derive(Debug)]
pub enum SshHostKeyPolicy {
    /// Any key is accepted.
    AcceptAny,
    /// The key must stand in the user's `known_hosts` file.
    KnownHosts,
    /// The key must stand in this file.
    KnownHostsFile(String),
}

/// What an `SshHostKeyPolicy` says.
pub enum HostKeyView {
    AcceptAny,
    KnownHosts,
    KnownHostsFile(Seq<char>),
}

impl DeepView for SshHostKeyPolicy {
    type V = HostKeyView;

    open spec fn deep_view(&self) -> HostKeyView {
        match self {
            SshHostKeyPolicy::AcceptAny => HostKeyView::AcceptAny,
            SshHostKeyPolicy::KnownHosts => HostKeyView::KnownHosts,
            SshHostKeyPolicy::KnownHostsFile(p) => HostKeyView::KnownHostsFile(p@),
        }
    }
}

impl Clone for SshHostKeyPolicy {
    fn clone(&self) -> (r: SshHostKeyPolicy)
        ensures
            r.deep_view() == self.deep_view(),
    {
        match self {
            SshHostKeyPolicy::AcceptAny => SshHostKeyPolicy::AcceptAny,
            SshHostKeyPolicy::KnownHosts => SshHostKeyPolicy::KnownHosts,
            SshHostKeyPolicy::KnownHostsFile(p) => SshHostKeyPolicy::KnownHostsFile(p.clone()),
        }
    }
}

/// Settings for `svn+ssh://` URLs.
#[derive(Debug)]
pub struct SshConfig {
    username: Option<String>,
    auth: SshAuth,
    host_key: SshHostKeyPolicy,
    command: String,
    use_openssh_config: bool,
    try_ssh_agent: bool,
    try_default_identities: bool,
    accept_new_host_keys: bool,
}

/// What an `SshConfig` says.
pub struct SshConfigView {
    pub username: Option<Seq<char>>,
    pub auth: SshAuthView,
    pub host_key: HostKeyView,
    pub command: Seq<char>,
    pub use_openssh_config: bool,
    pub try_ssh_agent: bool,
    pub try_default_identities: bool,
    pub accept_new_host_keys: bool,
}

impl View for SshConfig {
    type V = SshConfigView;

    closed spec fn view(&self) -> SshConfigView {
        SshConfigView {
            username: self.username.deep_view(),
            auth: self.auth.deep_view(),
            host_key: self.host_key.deep_view(),
            command: self.command@,
            use_openssh_config: self.use_openssh_config,
            try_ssh_agent: self.try_ssh_agent,
            try_default_identities: self.try_default_identities,
            accept_new_host_keys: self.accept_new_host_keys,
        }
    }
}

impl Clone for SshConfig {
    fn clone(&self) -> (r: SshConfig)
        ensures
            r@ == self@,
    {
        SshConfig {
            username: clone_text(&self.username),
            auth: self.auth.clone(),
            host_key: self.host_key.clone(),
            command: self.command.clone(),
            use_openssh_config: self.use_openssh_config,
            try_ssh_agent: self.try_ssh_agent,
            try_default_identities: self.try_default_identities,
            accept_new_host_keys: self.accept_new_host_keys,
        }
    }
}

/// Settings that log in as `auth` says and in no other way: the key of the server must
/// be known, the configuration of OpenSSH is read, and `svnserve -t` is run.
pub open spec fn plain_settings(auth: SshAuthView) -> SshConfigView {
    SshConfigView {
        username: None,
        auth,
        host_key: HostKeyView::KnownHosts,
        command: "svnserve -t"@,
        use_openssh_config: true,
        try_ssh_agent: false,
        try_default_identities: false,
        accept_new_host_keys: false,
    }
}

impl Default for SshConfig {
    /// Settings that log in with the agent's keys and the default key files.
    fn default() -> (r: SshConfig)
        ensures
            r@ == (SshConfigView {
                try_ssh_agent: true,
                try_default_identities: true,
                ..plain_settings(SshAuthView::NoAuth)
            }),
    {
        SshConfig {
            username: None,
            auth: SshAuth::NoAuth,
            host_key: SshHostKeyPolicy::KnownHosts,
            command: "svnserve -t".to_owned(),
            use_openssh_config: true,
            try_ssh_agent: true,
            try_default_identities: true,
            accept_new_host_keys: false,
        }
    }
}

impl SshConfig {
    /// Settings that log in as `auth` says and in no other way.
    pub fn new(auth: SshAuth) -> (r: SshConfig)
        ensures
            r@ == plain_settings(auth.deep_view()),
    {
        SshConfig {
            username: None,
            auth,
            host_key: SshHostKeyPolicy::KnownHosts,
            command: "svnserve -t".to_owned(),
            use_openssh_config: true,
            try_ssh_agent: false,
            try_default_identities: false,
            accept_new_host_keys: false,
        }
    }

    /// Sets the user name, which counts before one in the URL.
    pub fn with_username(self, username: &str) -> (r: SshConfig)
        ensures
            r@ == (SshConfigView { username: Some(username@), ..self@ }),
    {
        let mut s = self;
        s.username = Some(username.to_owned());
        s
    }

    /// Accepts any key of the server.
    pub fn accept_any_host_key(self) -> (r: SshConfig)
        ensures
            r@ == (SshConfigView { host_key: HostKeyView::AcceptAny, ..self@ }),
    {
        let mut s = self;
        s.host_key = SshHostKeyPolicy::AcceptAny;
        s
    }

    /// Verifies the key of the server against this file.
    pub fn with_known_hosts_file(self, path: &str) -> (r: SshConfig)
        ensures
            r@ == (SshConfigView { host_key: HostKeyView::KnownHostsFile(path@), ..self@ }),
    {
        let mut s = self;
        s.host_key = SshHostKeyPolicy::KnownHostsFile(path.to_owned());
        s
    }

    /// Sets the command that is run on the server.
    pub fn with_command(self, command: &str) -> (r: SshConfig)
        ensures
            r@ == (SshConfigView { command: command@, ..self@ }),
    {
        let mut s = self;
        s.command = command.to_owned();
        s
    }

    /// Says whether the configuration of OpenSSH is read.
    pub fn with_openssh_config(self, enabled: bool) -> (r: SshConfig)
        ensures
            r@ == (SshConfigView { use_openssh_config: enabled, ..self@ }),
    {
        let mut s = self;
        s.use_openssh_config = enabled;
        s
    }

    /// Tries the keys of the SSH agent.
    pub fn with_ssh_agent(self) -> (r: SshConfig)
        ensures
            r@ == (SshConfigView { try_ssh_agent: true, ..self@ }),
    {
        let mut s = self;
        s.try_ssh_agent = true;
        s
    }

    /// Tries the default key files.
    pub fn with_default_identities(self) -> (r: SshConfig)
        ensures
            r@ == (SshConfigView { try_default_identities: true, ..self@ }),
    {
        let mut s = self;
        s.try_default_identities = true;
        s
    }

    /// Accepts and records the key of a server that is not known yet. A key that has
    /// changed is still rejected.
    pub fn accept_new_host_keys(self) -> (r: SshConfig)
        ensures
            r@ == (SshConfigView { accept_new_host_keys: true, ..self@ }),
    {
        let mut s = self;
        s.accept_new_host_keys = true;
        s
    }

    /// The user name that was set.
    pub fn username_override(&self) -> (r: Option<String>)
        ensures
            r.deep_view() == self@.username,
    {
        clone_text(&self.username)
    }

    /// The command that is run on the server.
    pub fn command(&self) -> (r: &str)
        ensures
            r@ == self@.command,
    {
        self.command.as_str()
    }

    /// Whether the configuration of OpenSSH is read.
    pub fn reads_openssh_config(&self) -> (r: bool)
        ensures
            r == self@.use_openssh_config,
    {
        self.use_openssh_config
    }
}

/// What the library needs to know of the process's environment.
#[derive(Debug)]
pub struct SshEnv {
    /// The user's name.
    pub user: Option<String>,
    /// The user's home directory.
    pub home: Option<String>,
}

/// What an `SshEnv` says.
pub struct SshEnvView {
    pub user: Option<Seq<char>>,
    pub home: Option<Seq<char>>,
}

impl DeepView for SshEnv {
    type V = SshEnvView;

    open spec fn deep_view(&self) -> SshEnvView {
        SshEnvView { user: self.user.deep_view(), home: self.home.deep_view() }
    }
}

/// The user's name, from the variables `USER` and `USERNAME`: the first that is set
/// counts, if it is not blank.
pub open spec fn user_of(user: Option<Seq<char>>, username: Option<Seq<char>>) -> Option<
    Seq<char>,
> {
    let u = if user is Some {
        user
    } else {
        username
    };
    match u {
        Some(t) => if trim(t).len() == 0 {
            None
        } else {
            Some(t)
        },
        None => None,
    }
}

/// The user's name, from the variables `USER` and `USERNAME`.
pub fn default_ssh_username(user: Option<String>, username: Option<String>) -> (r: Option<String>)
    ensures
        r.deep_view() == user_of(user.deep_view(), username.deep_view()),
{
    let u = match user {
        Some(t) => Some(t),
        None => username,
    };
    match u {
        Some(t) => {
            if trimmed(&t).as_str().is_empty() {
                None
            } else {
                Some(t)
            }
        },
        None => None,
    }
}

/// A text that is not empty.
pub open spec fn not_empty(s: Option<Seq<char>>) -> Option<Seq<char>> {
    match s {
        Some(t) => if t.len() == 0 {
            None
        } else {
            Some(t)
        },
        None => None,
    }
}

/// The home directory, from the variables `HOME`, `USERPROFILE`, `HOMEDRIVE` and
/// `HOMEPATH`: the first that is set and not empty counts, and the last two together.
pub open spec fn home_of(
    home: Option<Seq<char>>,
    profile: Option<Seq<char>>,
    drive: Option<Seq<char>>,
    path: Option<Seq<char>>,
) -> Option<Seq<char>> {
    if not_empty(home) is Some {
        home
    } else if not_empty(profile) is Some {
        profile
    } else if not_empty(drive) is Some && not_empty(path) is Some {
        Some(joined_path(drive->0, path->0))
    } else {
        None
    }
}

fn is_set(s: &Option<String>) -> (r: bool)
    ensures
        r == (not_empty(s.deep_view()) is Some),
{
    match s {
        Some(t) => !t.as_str().is_empty(),
        None => false,
    }
}

/// The home directory, from the variables `HOME`, `USERPROFILE`, `HOMEDRIVE` and
/// `HOMEPATH`.
pub fn home_dir(
    home: Option<String>,
    profile: Option<String>,
    drive: Option<String>,
    path: Option<String>,
) -> (r: Option<String>)
    ensures
        r.deep_view() == home_of(
            home.deep_view(),
            profile.deep_view(),
            drive.deep_view(),
            path.deep_view(),
        ),
{
    if is_set(&home) {
        return home;
    }
    if is_set(&profile) {
        return profile;
    }
    if is_set(&drive) && is_set(&path) {
        if let Some(d) = &drive {
            if let Some(p) = &path {
                return Some(join_path(d, p));
            }
        }
    }
    None
}

/// The user that a `svn+ssh://` URL names, if the name is not blank.
pub open spec fn user_in_url(url: Seq<char>) -> Option<Seq<char>> {
    if !has_prefix(url, "svn+ssh://"@) {
        None
    } else {
        let rest = url.skip(10);
        let authority = rest.take(find(rest, '/', 0));
        let at = rfind(authority, '@', authority.len() as int);
        if at < 0 || trim(authority.take(at)).len() == 0 {
            None
        } else {
            Some(authority.take(at))
        }
    }
}

/// The user that a `svn+ssh://` URL names.
pub fn url_username(url: &SvnUrl) -> (r: Option<String>)
    ensures
        r.deep_view() == user_in_url(url.url@),
{
    if !starts_with(&url.url, "svn+ssh://") {
        return None;
    }
    proof {
        reveal_strlit("svn+ssh://");
    }
    let cs = chars_of(&url.url);
    let n = cs.len();
    let rest = chars_of(&slice_text(&cs, 10, n));
    assert(rest@ =~= url.url@.skip(10));
    let end = find_char(&rest, '/', 0);
    let authority = chars_of(&slice_text(&rest, 0, end));
    assert(authority@ =~= rest@.take(end as int));
    match rfind_char(&authority, '@') {
        Some(at) => {
            let user = slice_text(&authority, 0, at);
            assert(user@ =~= authority@.take(at as int));
            if trimmed(&user).as_str().is_empty() {
                None
            } else {
                Some(user)
            }
        },
        None => None,
    }
}

/// A path with a leading `~` replaced by the home directory.
pub open spec fn with_home(s: Seq<char>, home: Option<Seq<char>>) -> Seq<char> {
    match home {
        Some(h) => if s == "~"@ {
            h
        } else if has_prefix(s, "~/"@) || has_prefix(s, "~\\"@) {
            joined_path(h, s.skip(2))
        } else {
            s
        },
        None => s,
    }
}

/// A path with a leading `~` replaced by the home directory.
pub fn expand_tilde_str(s: &str, home: &Option<String>) -> (r: String)
    ensures
        r@ == with_home(s@, home.deep_view()),
{
    match home {
        Some(h) => {
            if str_eq(s, "~") {
                return h.clone();
            }
            if starts_with(s, "~/") || starts_with(s, "~\\") {
                proof {
                    reveal_strlit("~/");
                    reveal_strlit("~\\");
                }
                let cs = chars_of(s);
                let n = cs.len();
                let rest = slice_text(&cs, 2, n);
                assert(rest@ =~= s@.skip(2));
                return join_path(h, &rest);
            }
            s.to_owned()
        },
        None => s.to_owned(),
    }
}

/// A part of a path behind a directory; empty parts and `.` add nothing.
pub open spec fn with_part(dir: Seq<char>, part: Seq<char>) -> Seq<char> {
    if part.len() == 0 || part == "."@ {
        dir
    } else {
        joined_path(dir, part)
    }
}

/// The parts of a path from index `i` on behind a directory.
pub open spec fn with_parts(dir: Seq<char>, path: Seq<char>, i: int) -> Seq<char>
    decreases path.len() - i,
{
    if i < 0 || i >= path.len() {
        dir
    } else {
        let k = find(path, '/', i);
        if k < i || k >= path.len() {
            with_part(dir, path.skip(i))
        } else {
            with_parts(with_part(dir, path.subrange(i, k)), path, k + 1)
        }
    }
}

/// A path whose first part is `~`, taken behind the home directory part by part.
pub open spec fn path_with_home(path: Seq<char>, home: Option<Seq<char>>) -> Seq<char> {
    if home is Some && path.take(find(path, '/', 0)) == "~"@ {
        with_parts(home->0, path, 1)
    } else {
        path
    }
}

fn add_part(dir: String, part: &str) -> (r: String)
    ensures
        r@ == with_part(dir@, part@),
{
    if part.is_empty() || str_eq(part, ".") {
        dir
    } else {
        join_path(&dir, part)
    }
}

/// A path whose first part is `~`, taken behind the home directory.
pub fn expand_tilde_path(path: &str, home: &Option<String>) -> (r: String)
    ensures
        r@ == path_with_home(path@, home.deep_view()),
{
    let cs = chars_of(path);
    let n = cs.len();
    let first = find_char(&cs, '/', 0);
    let head = slice_text(&cs, 0, first);
    assert(head@ =~= path@.take(first as int));
    if !str_eq(&head, "~") {
        return path.to_owned();
    }
    match home {
        Some(h) => {
            proof {
                reveal_strlit("~");
            }
            let mut out = h.clone();
            let mut i: usize = 1;
            while i < n
                invariant
                    n == cs.len(),
                    cs@ == path@,
                    1 <= i,
                    with_parts(out@, path@, i as int) == with_parts(h@, path@, 1),
                decreases n - i,
            {
                let k = find_char(&cs, '/', i);
                let part = slice_text(&cs, i, k);
                let ghost dir = out@;
                out = add_part(out, &part);
                if k < n {
                    i = k + 1;
                } else {
                    assert(path@.subrange(i as int, k as int) =~= path@.skip(i as int));
                    i = n;
                }
            }
            out
        },
        None => path.to_owned(),
    }
}

/// The path of a key file: a leading `~`, and a path that is not absolute, start at the
/// home directory.
pub open spec fn key_file_path(path: Seq<char>, home: Option<Seq<char>>) -> Seq<char> {
    let p = path_with_home(path, home);
    if home is Some && !is_absolute(p) {
        joined_path(home->0, p)
    } else {
        p
    }
}

/// The path of a key file.
pub fn normalize_identity_file_path(path: &str, home: &Option<String>) -> (r: String)
    ensures
        r@ == key_file_path(path@, home.deep_view()),
{
    let p = expand_tilde_path(path, home);
    if !is_absolute_path(&p) {
        if let Some(h) = home {
            return join_path(h, &p);
        }
    }
    p
}

/// The names of the default key files, in the order in which they are tried.
pub open spec fn default_key_names() -> Seq<Seq<char>> {
    seq![
        "id_ed25519"@,
        "id_ed25519_sk"@,
        "id_ecdsa"@,
        "id_ecdsa_sk"@,
        "id_rsa"@,
        "id_dsa"@,
    ]
}

/// The default key files.
pub open spec fn default_key_files(home: Option<Seq<char>>) -> Seq<Seq<char>> {
    match home {
        Some(h) => default_key_names().map_values(
            |name: Seq<char>| joined_path(joined_path(h, ".ssh"@), name),
        ),
        None => Seq::empty(),
    }
}

/// The default key files.
pub fn default_identity_files(home: &Option<String>) -> (r: Vec<String>)
    ensures
        r.deep_view() == default_key_files(home.deep_view()),
{
    match home {
        Some(h) => {
            let ssh = join_path(h, ".ssh");
            let out = vec![
                join_path(&ssh, "id_ed25519"),
                join_path(&ssh, "id_ed25519_sk"),
                join_path(&ssh, "id_ecdsa"),
                join_path(&ssh, "id_ecdsa_sk"),
                join_path(&ssh, "id_rsa"),
                join_path(&ssh, "id_dsa"),
            ];
            assert(out.deep_view() =~= default_key_files(home.deep_view()));
            out
        },
        None => {
            let out: Vec<String> = Vec::new();
            assert(out.deep_view() =~= Seq::<Seq<char>>::empty());
            out
        },
    }
}

/// What the settings, the URL and the configuration of OpenSSH come to.
#[derive(Debug)]
pub struct ResolvedSshSettings {
    pub connect_host: String,
    pub connect_port: u16,
    pub known_hosts_host: String,
    pub username: String,
    pub identity_files: Vec<String>,
    pub identity_agent: Option<String>,
    pub identities_only: bool,
    pub host_key: SshHostKeyPolicy,
    pub accept_new_host_keys: bool,
    pub connect_timeout: Duration,
}

/// What `ResolvedSshSettings` say.
pub struct ResolvedView {
    pub connect_host: Seq<char>,
    pub connect_port: u16,
    pub known_hosts_host: Seq<char>,
    pub username: Seq<char>,
    pub identity_files: Seq<Seq<char>>,
    pub identity_agent: Option<Seq<char>>,
    pub identities_only: bool,
    pub host_key: HostKeyView,
    pub accept_new_host_keys: bool,
    pub connect_timeout: Duration,
}

impl DeepView for ResolvedSshSettings {
    type V = ResolvedView;

    open spec fn deep_view(&self) -> ResolvedView {
        ResolvedView {
            connect_host: self.connect_host@,
            connect_port: self.connect_port,
            known_hosts_host: self.known_hosts_host@,
            username: self.username@,
            identity_files: self.identity_files.deep_view(),
            identity_agent: self.identity_agent.deep_view(),
            identities_only: self.identities_only,
            host_key: self.host_key.deep_view(),
            accept_new_host_keys: self.accept_new_host_keys,
            connect_timeout: self.connect_timeout,
        }
    }
}

/// A text, or another one in its place.
pub open spec fn text_or(t: Option<Seq<char>>, other: Seq<char>) -> Seq<char> {
    match t {
        Some(x) => x,
        None => other,
    }
}

fn or_text(t: &Option<String>, other: &str) -> (r: String)
    ensures
        r@ == text_or(t.deep_view(), other@),
{
    match t {
        Some(x) => x.clone(),
        None => other.to_owned(),
    }
}

/// The user: as set, as in the URL, as configured, or as the environment says.
pub open spec fn chosen_user(
    url: UrlView,
    ssh: SshConfigView,
    p: HostParamsView,
    env: SshEnvView,
) -> Option<Seq<char>> {
    if ssh.username is Some {
        ssh.username
    } else if user_in_url(url.url) is Some {
        user_in_url(url.url)
    } else if p.user is Some {
        p.user
    } else {
        env.user
    }
}

/// What `StrictHostKeyChecking` is set to.
pub open spec fn strictness(p: HostParamsView) -> Option<Seq<char>> {
    match p.strict_host_key_checking {
        Some(v) => Some(lower_text(trim(v))),
        None => None,
    }
}

/// How the key of the server is verified: as set, except that a configured file stands
/// in for the user's, and that the configuration can switch verification off.
pub open spec fn chosen_host_key(
    ssh: SshConfigView,
    p: HostParamsView,
    home: Option<Seq<char>>,
) -> HostKeyView {
    if strictness(p) == Some("no"@) {
        HostKeyView::AcceptAny
    } else if ssh.host_key is KnownHosts && p.user_known_hosts_file is Some {
        HostKeyView::KnownHostsFile(with_home(p.user_known_hosts_file->0, home))
    } else {
        ssh.host_key
    }
}

/// Whether the key of an unknown server is accepted and recorded.
pub open spec fn chosen_accept_new(ssh: SshConfigView, p: HostParamsView) -> bool {
    if strictness(p) == Some("no"@) {
        false
    } else {
        strictness(p) == Some("accept-new"@) || ssh.accept_new_host_keys
    }
}

/// The key files that are configured.
pub open spec fn chosen_key_files(p: HostParamsView, home: Option<Seq<char>>) -> Seq<Seq<char>> {
    match p.identity_file {
        Some(files) => files.map_values(|f: Seq<char>| key_file_path(f, home)),
        None => Seq::empty(),
    }
}

/// What the settings, the URL and the configuration come to.
pub open spec fn resolved(
    url: UrlView,
    ssh: SshConfigView,
    connect_timeout: Duration,
    p: HostParamsView,
    env: SshEnvView,
) -> Result<ResolvedView, ErrorView> {
    match chosen_user(url, ssh, p, env) {
        Some(username) => Ok(
            ResolvedView {
                connect_host: text_or(p.host_name, url.host),
                connect_port: if url.port == 22 && p.port is Some {
                    p.port->0
                } else {
                    url.port
                },
                known_hosts_host: text_or(p.host_key_alias, url.host),
                username,
                identity_files: chosen_key_files(p, env.home),
                identity_agent: p.identity_agent,
                identities_only: p.identities_only == Some(true),
                host_key: chosen_host_key(ssh, p, env.home),
                accept_new_host_keys: chosen_accept_new(ssh, p),
                connect_timeout: match p.connect_timeout {
                    Some(t) => if t.total() <= connect_timeout.total() {
                        t
                    } else {
                        connect_timeout
                    },
                    None => connect_timeout,
                },
            },
        ),
        None => Err(
            ErrorView::InvalidUrl(
                "svn+ssh requires an SSH username (set SshConfig::with_username, include it in the URL, or configure User in ~/.ssh/config)"@,
            ),
        ),
    }
}

fn choose_key_files(p: &HostParams, home: &Option<String>) -> (r: Vec<String>)
    ensures
        r.deep_view() == chosen_key_files(p.deep_view(), home.deep_view()),
{
    let mut out: Vec<String> = Vec::new();
    match &p.identity_file {
        Some(files) => {
            let mut i: usize = 0;
            while i < files.len()
                invariant
                    i <= files.len(),
                    out@.len() == i,
                    forall|k: int|
                        0 <= k < i ==> (#[trigger] out@[k])@ == key_file_path(
                            files@[k]@,
                            home.deep_view(),
                        ),
                decreases files.len() - i,
            {
                out.push(normalize_identity_file_path(&files[i], home));
                i = i + 1;
            }
        },
        None => {},
    }
    assert(out.deep_view() =~= chosen_key_files(p.deep_view(), home.deep_view()));
    out
}

fn choose_user(url: &SvnUrl, ssh: &SshConfig, p: &HostParams, env: &SshEnv) -> (r: Option<String>)
    ensures
        r.deep_view() == chosen_user(url.deep_view(), ssh@, p.deep_view(), env.deep_view()),
{
    let set = ssh.username_override();
    if set.is_some() {
        return set;
    }
    let named = url_username(url);
    if named.is_some() {
        return named;
    }
    if p.user.is_some() {
        return clone_text(&p.user);
    }
    clone_text(&env.user)
}

fn choose_host_key(ssh: &SshConfig, p: &HostParams, home: &Option<String>) -> (r: (
    SshHostKeyPolicy,
    bool,
))
    ensures
        r.0.deep_view() == chosen_host_key(ssh@, p.deep_view(), home.deep_view()),
        r.1 == chosen_accept_new(ssh@, p.deep_view()),
{
    let mut host_key = ssh.host_key.clone();
    let mut accept_new = ssh.accept_new_host_keys;
    if let SshHostKeyPolicy::KnownHosts = &ssh.host_key {
        if let Some(path) = &p.user_known_hosts_file {
            host_key = SshHostKeyPolicy::KnownHostsFile(expand_tilde_str(path, home));
        }
    }
    if let Some(value) = &p.strict_host_key_checking {
        let w = to_lower(&trimmed(value));
        if str_eq(&w, "no") {
            host_key = SshHostKeyPolicy::AcceptAny;
            accept_new = false;
        } else if str_eq(&w, "accept-new") {
            proof {
                reveal_strlit("no");
                reveal_strlit("accept-new");
            }
            accept_new = true;
        }
    }
    (host_key, accept_new)
}

/// What the settings, the URL, the configuration of OpenSSH and the environment come to.
pub fn resolve_ssh_settings(
    url: &SvnUrl,
    ssh: &SshConfig,
    connect_timeout: Duration,
    openssh: Option<&HostParams>,
    env: &SshEnv,
) -> (r: Result<ResolvedSshSettings, SvnError>)
    ensures
        result_view(r) == resolved(
            url.deep_view(),
            ssh@,
            connect_timeout,
            match openssh {
                Some(p) => p.deep_view(),
                None => crate::ssh_config::no_params(),
            },
            env.deep_view(),
        ),
{
    let nothing = HostParams::new();
    let p: &HostParams = match openssh {
        Some(q) => q,
        None => &nothing,
    };
    let username = match choose_user(url, ssh, p, env) {
        Some(u) => u,
        None => {
            return Err(
                SvnError::InvalidUrl(
                    "svn+ssh requires an SSH username (set SshConfig::with_username, include it in the URL, or configure User in ~/.ssh/config)".to_owned(),
                ),
            );
        },
    };
    let mut connect_port = url.port;
    if url.port == 22 {
        if let Some(port) = p.port {
            connect_port = port;
        }
    }
    let timeout = match p.connect_timeout {
        Some(t) => t.min(connect_timeout),
        None => connect_timeout,
    };
    let identities_only = match p.identities_only {
        Some(b) => b,
        None => false,
    };
    let (host_key, accept_new_host_keys) = choose_host_key(ssh, p, &env.home);
    Ok(
        ResolvedSshSettings {
            connect_host: or_text(&p.host_name, &url.host),
            connect_port,
            known_hosts_host: or_text(&p.host_key_alias, &url.host),
            username,
            identity_files: choose_key_files(p, &env.home),
            identity_agent: clone_text(&p.identity_agent),
            identities_only,
            host_key,
            accept_new_host_keys,
            connect_timeout: timeout,
        },
    )
}

/// Where the SSH agent listens.
#[derive(Debug)]
pub enum AgentChoice {
    /// No agent is asked.
    Off,
    /// Where the environment says.
    FromEnv,
    /// At this socket.
    Socket(String),
}

/// What an `AgentChoice` says.
pub enum AgentView {
    Off,
    FromEnv,
    Socket(Seq<char>),
}

impl DeepView for AgentChoice {
    type V = AgentView;

    open spec fn deep_view(&self) -> AgentView {
        match self {
            AgentChoice::Off => AgentView::Off,
            AgentChoice::FromEnv => AgentView::FromEnv,
            AgentChoice::Socket(p) => AgentView::Socket(p@),
        }
    }
}

/// Where the agent listens, as `IdentityAgent` is set.
pub open spec fn agent_at(identity_agent: Option<Seq<char>>) -> AgentView {
    match identity_agent {
        Some(v) => {
            let t = trim(v);
            if t == "none"@ {
                AgentView::Off
            } else if t.len() == 0 || t == "SSH_AUTH_SOCK"@ {
                AgentView::FromEnv
            } else {
                AgentView::Socket(t)
            }
        },
        None => AgentView::FromEnv,
    }
}

/// Where the agent listens, as `IdentityAgent` is set.
pub fn agent_choice(identity_agent: &Option<String>) -> (r: AgentChoice)
    ensures
        r.deep_view() == agent_at(identity_agent.deep_view()),
{
    match identity_agent {
        Some(v) => {
            let t = trimmed(v);
            if str_eq(&t, "none") {
                AgentChoice::Off
            } else if t.as_str().is_empty() || str_eq(&t, "SSH_AUTH_SOCK") {
                AgentChoice::FromEnv
            } else {
                AgentChoice::Socket(t)
            }
        },
        None => AgentChoice::FromEnv,
    }
}

/// One way to log in. They are tried in order until one succeeds or fails with an error.
#[derive(Debug)]
pub enum AuthAttempt {
    /// With each key of the agent.
    Agent(AgentChoice),
    /// With a password.
    Password(String),
    /// With a key file. If `strict`, a file that cannot be read is an error; otherwise it
    /// is passed over.
    KeyFile { path: String, passphrase: Option<String>, strict: bool },
    /// With the method "none".
    NoAuth,
}

/// What an `AuthAttempt` says.
pub enum AttemptView {
    Agent(AgentView),
    Password(Seq<char>),
    KeyFile { path: Seq<char>, passphrase: Option<Seq<char>>, strict: bool },
    NoAuth,
}

impl DeepView for AuthAttempt {
    type V = AttemptView;

    open spec fn deep_view(&self) -> AttemptView {
        match self {
            AuthAttempt::Agent(a) => AttemptView::Agent(a.deep_view()),
            AuthAttempt::Password(p) => AttemptView::Password(p@),
            AuthAttempt::KeyFile { path, passphrase, strict } => AttemptView::KeyFile {
                path: path@,
                passphrase: passphrase.deep_view(),
                strict: *strict,
            },
            AuthAttempt::NoAuth => AttemptView::NoAuth,
        }
    }
}

/// A key file that is passed over if it cannot be read.
pub open spec fn optional_key(path: Seq<char>) -> AttemptView {
    AttemptView::KeyFile { path, passphrase: None, strict: false }
}

/// The ways to log in: first the agent, then the one that is set; where none is set, the
/// configured and the default key files, and last the method "none".
pub open spec fn login_plan(
    ssh: SshConfigView,
    settings: ResolvedView,
    home: Option<Seq<char>>,
) -> Seq<AttemptView> {
    let agent = agent_at(settings.identity_agent);
    let first = if ssh.try_ssh_agent && !settings.identities_only && agent !is Off {
        seq![AttemptView::Agent(agent)]
    } else {
        Seq::empty()
    };
    first + match ssh.auth {
        SshAuthView::Password(p) => seq![AttemptView::Password(p)],
        SshAuthView::KeyFile { path, passphrase } => seq![
            AttemptView::KeyFile { path: path_with_home(path, home), passphrase, strict: true },
        ],
        SshAuthView::NoAuth => (if ssh.try_default_identities {
            (settings.identity_files + default_key_files(home)).map_values(
                |p: Seq<char>| optional_key(p),
            )
        } else {
            Seq::empty()
        }).push(AttemptView::NoAuth),
    }
}

fn add_keys(out: &mut Vec<AuthAttempt>, paths: &[String])
    ensures
        final(out).deep_view() == old(out).deep_view() + paths.deep_view().map_values(
            |p: Seq<char>| optional_key(p),
        ),
{
    let ghost before = out.deep_view();
    let ghost keys = paths.deep_view().map_values(|p: Seq<char>| optional_key(p));
    let mut i: usize = 0;
    assert(before + keys.take(0) =~= before);
    while i < paths.len()
        invariant
            i <= paths.len(),
            keys == paths.deep_view().map_values(|p: Seq<char>| optional_key(p)),
            out.deep_view() == before + keys.take(i as int),
        decreases paths.len() - i,
    {
        let ghost now = out.deep_view();
        out.push(
            AuthAttempt::KeyFile { path: paths[i].clone(), passphrase: None, strict: false },
        );
        assert(out.deep_view() =~= now.push(optional_key(paths@[i as int]@)));
        i = i + 1;
        assert(out.deep_view() =~= before + keys.take(i as int));
    }
    assert(keys.take(i as int) =~= keys);
}

/// The ways to log in, in the order in which they are tried.
pub fn auth_plan(ssh: &SshConfig, settings: &ResolvedSshSettings, home: &Option<String>) -> (r: Vec<
    AuthAttempt,
>)
    ensures
        r.deep_view() == login_plan(ssh@, settings.deep_view(), home.deep_view()),
{
    let mut out: Vec<AuthAttempt> = Vec::new();
    assert(out.deep_view() =~= Seq::<AttemptView>::empty());
    let agent = agent_choice(&settings.identity_agent);
    let ghost agent_view = agent.deep_view();
    let off = match &agent {
        AgentChoice::Off => true,
        _ => false,
    };
    if ssh.try_ssh_agent && !settings.identities_only && !off {
        out.push(AuthAttempt::Agent(agent));
        assert(out.deep_view() =~= seq![AttemptView::Agent(agent_view)]);
    }
    let ghost first = out.deep_view();
    match &ssh.auth {
        SshAuth::Password(p) => {
            out.push(AuthAttempt::Password(p.clone()));
        },
        SshAuth::KeyFile { path, passphrase } => {
            out.push(
                AuthAttempt::KeyFile {
                    path: expand_tilde_path(path, home),
                    passphrase: clone_text(passphrase),
                    strict: true,
                },
            );
        },
        SshAuth::NoAuth => {
            if ssh.try_default_identities {
                let defaults = default_identity_files(home);
                add_keys(&mut out, &settings.identity_files);
                add_keys(&mut out, &defaults);
                assert(out.deep_view() =~= first + (settings.identity_files.deep_view()
                    + default_key_files(home.deep_view())).map_values(
                    |p: Seq<char>| optional_key(p),
                ));
            }
            let ghost before = out.deep_view();
            out.push(AuthAttempt::NoAuth);
            assert(out.deep_view() =~= before.push(AttemptView::NoAuth));
        },
    }
    assert(out.deep_view() =~= login_plan(ssh@, settings.deep_view(), home.deep_view()));
    out
}

/// What to do about the key of the server.
#[derive(Clone, Copy, Debug, PartialEq, Eq, Structural)]
pub enum HostKeyVerdict {
    /// Go on.
    Accept,
    /// Record the key, and go on.
    Learn,
    /// Give up.
    Reject,
}

/// What to do about the key of the server, where `known` says whether it stands in the
/// file that the policy names.
pub fn host_key_verdict(policy: &SshHostKeyPolicy, accept_new: bool, known: bool) -> (r:
    HostKeyVerdict)
    ensures
        r == (if policy is AcceptAny || known {
            HostKeyVerdict::Accept
        } else if accept_new {
            HostKeyVerdict::Learn
        } else {
            HostKeyVerdict::Reject
        }),
{
    match policy {
        SshHostKeyPolicy::AcceptAny => HostKeyVerdict::Accept,
        _ => {
            if known {
                HostKeyVerdict::Accept
            } else if accept_new {
                HostKeyVerdict::Learn
            } else {
                HostKeyVerdict::Reject
            }
        },
    }
}

} // verus!
