//! Pools of sessions: how many there may be, which are used again, and which pool a
//! client's sessions come from.

use vstd::prelude::*;

use crate::client::{ClientView, RaSvnClient};
use crate::error::{protocol, ErrorView, SvnError};
use crate::text::{clone_text, str_eq};
use crate::time::Duration;

verus! {

/// When a session that was idle is tried before it is used again.
#[derive(Clone, Copy, Debug, PartialEq, Eq, Structural)]
pub enum SessionPoolHealthCheck {
    Never,
    OnCheckout,
    /// If it was idle for at least so long.
    OnCheckoutIfIdleFor(Duration),
}

/// Settings of a pool.
#[derive(Debug)]
pub struct SessionPoolConfig {
    max_sessions: usize,
    acquire_timeout: Option<Duration>,
    idle_timeout: Option<Duration>,
    health_check: SessionPoolHealthCheck,
    prewarm_sessions: usize,
}

/// What a `SessionPoolConfig` says.
pub struct PoolConfigView {
    pub max_sessions: usize,
    pub acquire_timeout: Option<Duration>,
    pub idle_timeout: Option<Duration>,
    pub health_check: SessionPoolHealthCheck,
    pub prewarm_sessions: usize,
}

impl View for SessionPoolConfig {
    type V = PoolConfigView;

    closed spec fn view(&self) -> PoolConfigView {
        PoolConfigView {
            max_sessions: self.max_sessions,
            acquire_timeout: self.acquire_timeout,
            idle_timeout: self.idle_timeout,
            health_check: self.health_check,
            prewarm_sessions: self.prewarm_sessions,
        }
    }
}

impl Clone for SessionPoolConfig {
    fn clone(&self) -> (r: SessionPoolConfig)
        ensures
            r@ == self@,
    {
        SessionPoolConfig {
            max_sessions: self.max_sessions,
            acquire_timeout: self.acquire_timeout,
            idle_timeout: self.idle_timeout,
            health_check: self.health_check,
            prewarm_sessions: self.prewarm_sessions,
        }
    }
}

/// What making settings gives: a pool of no sessions is refused.
pub open spec fn new_config_is(
    r: Result<SessionPoolConfig, SvnError>,
    max_sessions: usize,
) -> bool {
    match r {
        Ok(c) => max_sessions > 0 && c@ == (PoolConfigView {
            max_sessions,
            acquire_timeout: None,
            idle_timeout: None,
            health_check: SessionPoolHealthCheck::Never,
            prewarm_sessions: 0,
        }),
        Err(e) => max_sessions == 0 && e.deep_view() == ErrorView::Protocol(
            "max_sessions must be > 0"@,
        ),
    }
}

impl SessionPoolConfig {
    /// A pool of so many sessions, without limits of time.
    pub fn new(max_sessions: usize) -> (r: Result<SessionPoolConfig, SvnError>)
        ensures
            new_config_is(r, max_sessions),
    {
        if max_sessions == 0 {
            return Err(protocol("max_sessions must be > 0"));
        }
        Ok(
            SessionPoolConfig {
                max_sessions,
                acquire_timeout: None,
                idle_timeout: None,
                health_check: SessionPoolHealthCheck::Never,
                prewarm_sessions: 0,
            },
        )
    }

    /// How many sessions there may be.
    pub fn max_sessions(&self) -> (r: usize)
        ensures
            r == self@.max_sessions,
    {
        self.max_sessions
    }

    /// How long a caller waits for a session.
    pub fn acquire_timeout(&self) -> (r: Option<Duration>)
        ensures
            r == self@.acquire_timeout,
    {
        self.acquire_timeout
    }

    /// How many idle sessions are opened ahead.
    pub fn prewarm_sessions(&self) -> (r: usize)
        ensures
            r == self@.prewarm_sessions,
    {
        self.prewarm_sessions
    }

    /// Sets how long a caller waits for a session.
    pub fn with_acquire_timeout(self, timeout: Duration) -> (r: SessionPoolConfig)
        ensures
            r@ == (PoolConfigView { acquire_timeout: Some(timeout), ..self@ }),
    {
        let mut s = self;
        s.acquire_timeout = Some(timeout);
        s
    }

    /// Sets how long a session may be idle before it is given up.
    pub fn with_idle_timeout(self, timeout: Duration) -> (r: SessionPoolConfig)
        ensures
            r@ == (PoolConfigView { idle_timeout: Some(timeout), ..self@ }),
    {
        let mut s = self;
        s.idle_timeout = Some(timeout);
        s
    }

    /// Sets when a session that was idle is tried.
    pub fn with_health_check(self, health_check: SessionPoolHealthCheck) -> (r: SessionPoolConfig)
        ensures
            r@ == (PoolConfigView { health_check, ..self@ }),
    {
        let mut s = self;
        s.health_check = health_check;
        s
    }

    /// Sets how many idle sessions are opened ahead.
    pub fn with_prewarm_sessions(self, sessions: usize) -> (r: SessionPoolConfig)
        ensures
            r@ == (PoolConfigView { prewarm_sessions: sessions, ..self@ }),
    {
        let mut s = self;
        s.prewarm_sessions = sessions;
        s
    }

    /// How many more sessions are opened ahead, where so many are wanted and so many are
    /// idle: never more than there may be.
    pub fn warm_up_count(&self, wanted: usize, idle: usize) -> (r: usize)
        ensures
            r == (if wanted <= self@.max_sessions {
                if idle < wanted {
                    wanted - idle
                } else {
                    0
                }
            } else if idle < self@.max_sessions {
                self@.max_sessions - idle
            } else {
                0
            }),
            r + idle <= self@.max_sessions || r == 0,
    {
        let target = if wanted <= self.max_sessions {
            wanted
        } else {
            self.max_sessions
        };
        if idle < target {
            target - idle
        } else {
            0
        }
    }
}

impl PoolConfigView {
    /// A session that was idle for so many nanoseconds is given up.
    pub open spec fn expired(self, idle: nat) -> bool {
        self.idle_timeout matches Some(t) && idle >= t.total()
    }

    /// A session that was idle for so many nanoseconds is tried before it is used.
    pub open spec fn checks(self, idle: nat) -> bool {
        match self.health_check {
            SessionPoolHealthCheck::Never => false,
            SessionPoolHealthCheck::OnCheckout => true,
            SessionPoolHealthCheck::OnCheckoutIfIdleFor(t) => idle >= t.total(),
        }
    }
}

/// For how many nanoseconds a session has been idle.
pub open spec fn idle_nanos(now: Duration, since: Duration) -> nat {
    if now.total() >= since.total() {
        (now.total() - since.total()) as nat
    } else {
        0
    }
}

/// For how many nanoseconds a session has been idle; none, if the clock went back.
fn idle_for(now: Duration, since: Duration) -> (r: u128)
    ensures
        r == idle_nanos(now, since),
{
    if now.total_nanos() >= since.total_nanos() {
        now.total_nanos() - since.total_nanos()
    } else {
        0
    }
}

/// Sessions that are idle, the one that was used last at the end. Times are spans since
/// some fixed moment.
pub struct IdleSessions<S> {
    entries: Vec<(S, Duration)>,
}

impl<S> View for IdleSessions<S> {
    type V = Seq<(S, Duration)>;

    closed spec fn view(&self) -> Seq<(S, Duration)> {
        self.entries@
    }
}

/// The index of the last of the first `n` sessions that is not to be given up, or `-1`.
pub open spec fn last_live<S>(
    entries: Seq<(S, Duration)>,
    n: int,
    now: Duration,
    config: PoolConfigView,
) -> int
    decreases n,
{
    if n <= 0 || n > entries.len() {
        -1
    } else if config.expired(idle_nanos(now, entries[n - 1].1)) {
        last_live(entries, n - 1, now, config)
    } else {
        n - 1
    }
}

/// What a caller gets.
pub enum Checkout<S> {
    /// A session is to be opened.
    Open,
    /// A session that was idle.
    Ready(S),
    /// A session that was idle, and that is to be tried first.
    Check(S),
}

impl<S> IdleSessions<S> {
    /// No sessions.
    pub fn new() -> (r: IdleSessions<S>)
        ensures
            r@ == Seq::<(S, Duration)>::empty(),
    {
        IdleSessions { entries: Vec::new() }
    }

    /// How many sessions are idle.
    pub fn len(&self) -> (r: usize)
        ensures
            r == self@.len(),
    {
        self.entries.len()
    }

    /// A session is idle from now on.
    pub fn push(&mut self, session: S, now: Duration)
        ensures
            final(self)@ == old(self)@.push((session, now)),
    {
        self.entries.push((session, now));
    }

    /// The session to use: the one that was used last, among those that have not been
    /// idle for too long. Those that were used later and have, are given up.
    pub fn checkout(&mut self, now: Duration, config: &SessionPoolConfig) -> (r: Checkout<S>)
        ensures
            ({
                let i = last_live(old(self)@, old(self)@.len() as int, now, config@);
                if i < 0 {
                    r is Open && final(self)@ == Seq::<(S, Duration)>::empty()
                } else {
                    let e = old(self)@[i];
                    final(self)@ == old(self)@.take(i) && r == (if config@.checks(
                        idle_nanos(now, e.1),
                    ) {
                        Checkout::Check(e.0)
                    } else {
                        Checkout::Ready(e.0)
                    })
                }
            }),
    {
        let ghost all = self@;
        assert(all.take(all.len() as int) =~= all);
        while self.entries.len() > 0
            invariant
                all == old(self)@,
                self@.len() <= all.len(),
                self@ == all.take(self@.len() as int),
                last_live(all, all.len() as int, now, config@) == last_live(
                    all,
                    self@.len() as int,
                    now,
                    config@,
                ),
            decreases self.entries.len(),
        {
            let ghost n = self@.len() as int;
            match self.entries.pop() {
                Some((session, since)) => {
                    assert(all[n - 1] == (session, since));
                    assert(self@ =~= all.take(n - 1));
                    let idle: u128 = idle_for(now, since);
                    let gone = match config.idle_timeout {
                        Some(t) => idle >= t.total_nanos(),
                        None => false,
                    };
                    if !gone {
                        let check = match config.health_check {
                            SessionPoolHealthCheck::Never => false,
                            SessionPoolHealthCheck::OnCheckout => true,
                            SessionPoolHealthCheck::OnCheckoutIfIdleFor(t) => idle >= t.total_nanos(),
                        };
                        if check {
                            return Checkout::Check(session);
                        }
                        return Checkout::Ready(session);
                    }
                },
                None => {},
            }
        }
        assert(self@ =~= Seq::<(S, Duration)>::empty());
        Checkout::Open
    }
}

/// Which pool a client's sessions come from: clients that differ only in the path of
/// their URL share one. A key holds a password: what may be shown of it is a `ShownKey`.
pub struct SessionPoolKey {
    host: String,
    port: u16,
    username: Option<String>,
    password: Option<String>,
    connect_timeout: Duration,
    read_timeout: Duration,
    write_timeout: Duration,
    ra_client: String,
    custom: Option<String>,
}

/// What a `SessionPoolKey` says.
pub struct PoolKeyView {
    pub host: Seq<char>,
    pub port: u16,
    pub username: Option<Seq<char>>,
    pub password: Option<Seq<char>>,
    pub connect_timeout: Duration,
    pub read_timeout: Duration,
    pub write_timeout: Duration,
    pub ra_client: Seq<char>,
    pub custom: Option<Seq<char>>,
}

impl View for SessionPoolKey {
    type V = PoolKeyView;

    closed spec fn view(&self) -> PoolKeyView {
        PoolKeyView {
            host: self.host@,
            port: self.port,
            username: self.username.deep_view(),
            password: self.password.deep_view(),
            connect_timeout: self.connect_timeout,
            read_timeout: self.read_timeout,
            write_timeout: self.write_timeout,
            ra_client: self.ra_client@,
            custom: self.custom.deep_view(),
        }
    }
}

/// The key of a client.
pub open spec fn key_of(c: ClientView) -> PoolKeyView {
    PoolKeyView {
        host: c.base_url.host,
        port: c.base_url.port,
        username: c.username,
        password: c.password,
        connect_timeout: c.connect_timeout,
        read_timeout: c.read_timeout,
        write_timeout: c.write_timeout,
        ra_client: c.ra_client,
        custom: None,
    }
}

fn owned(s: Option<&str>) -> (r: Option<String>)
    ensures
        match s {
            Some(t) => r.deep_view() == Some(t@),
            None => r is None,
        },
{
    match s {
        Some(t) => Some(t.to_owned()),
        None => None,
    }
}

fn same_text(a: &Option<String>, b: &Option<String>) -> (r: bool)
    ensures
        r == (a.deep_view() == b.deep_view()),
{
    match (a, b) {
        (Some(x), Some(y)) => str_eq(x, y),
        (None, None) => true,
        _ => false,
    }
}

impl SessionPoolKey {
    /// The key of a client.
    pub fn for_client(client: &RaSvnClient) -> (r: SessionPoolKey)
        ensures
            r@ == key_of(client@),
    {
        let url = client.base_url();
        SessionPoolKey {
            host: url.host.clone(),
            port: url.port,
            username: owned(client.username()),
            password: owned(client.password()),
            connect_timeout: client.connect_timeout(),
            read_timeout: client.read_timeout(),
            write_timeout: client.write_timeout(),
            ra_client: client.ra_client().to_owned(),
            custom: None,
        }
    }

    /// The key with a name of the caller's own.
    pub fn with_custom(self, custom: &str) -> (r: SessionPoolKey)
        ensures
            r@ == (PoolKeyView { custom: Some(custom@), ..self@ }),
    {
        let mut s = self;
        s.custom = Some(custom.to_owned());
        s
    }

    /// Whether two keys are the same.
    pub fn same_as(&self, other: &SessionPoolKey) -> (r: bool)
        ensures
            r == (self@ == other@),
    {
        str_eq(&self.host, &other.host) && self.port == other.port && same_text(
            &self.username,
            &other.username,
        ) && same_text(&self.password, &other.password) && self.connect_timeout
            == other.connect_timeout && self.read_timeout == other.read_timeout
            && self.write_timeout == other.write_timeout && str_eq(
            &self.ra_client,
            &other.ra_client,
        ) && same_text(&self.custom, &other.custom)
    }
}

/// What may be shown of a key.
#[derive(Clone, Debug, PartialEq, Eq)]
pub struct ShownKey {
    pub host: String,
    pub port: u16,
    pub username: Option<String>,
    /// A word in the place of the password, if there is one.
    pub password: Option<String>,
    pub connect_timeout: Duration,
    pub read_timeout: Duration,
    pub write_timeout: Duration,
    pub ra_client: String,
    pub custom: Option<String>,
}

impl DeepView for ShownKey {
    type V = PoolKeyView;

    open spec fn deep_view(&self) -> PoolKeyView {
        PoolKeyView {
            host: self.host@,
            port: self.port,
            username: self.username.deep_view(),
            password: self.password.deep_view(),
            connect_timeout: self.connect_timeout,
            read_timeout: self.read_timeout,
            write_timeout: self.write_timeout,
            ra_client: self.ra_client@,
            custom: self.custom.deep_view(),
        }
    }
}

impl PoolKeyView {
    /// What may be shown of a key: all but the password.
    pub open spec fn shown(self) -> PoolKeyView {
        PoolKeyView {
            password: match self.password {
                Some(_) => Some("<redacted>"@),
                None => None,
            },
            ..self
        }
    }
}

impl SessionPoolKey {
    /// What may be shown of the key.
    pub fn shown(&self) -> (r: ShownKey)
        ensures
            r.deep_view() == self@.shown(),
    {
        ShownKey {
            host: self.host.clone(),
            port: self.port,
            username: clone_text(&self.username),
            password: match &self.password {
                Some(_) => Some("<redacted>".to_owned()),
                None => None,
            },
            connect_timeout: self.connect_timeout,
            read_timeout: self.read_timeout,
            write_timeout: self.write_timeout,
            ra_client: self.ra_client.clone(),
            custom: clone_text(&self.custom),
        }
    }
}

/// Pools by their keys.
pub struct PoolMap<P> {
    entries: Vec<(SessionPoolKey, P)>,
}

impl<P> View for PoolMap<P> {
    type V = Seq<(PoolKeyView, P)>;

    closed spec fn view(&self) -> Seq<(PoolKeyView, P)> {
        self.entries@.map_values(|e: (SessionPoolKey, P)| (e.0@, e.1))
    }
}

impl<P> PoolMap<P> {
    /// No key has two pools.
    pub open spec fn wf(self) -> bool {
        forall|i: int, j: int|
            #![trigger self@[i], self@[j]]
            0 <= i < j < self@.len() ==> self@[i].0 != self@[j].0
    }

    /// A pool has the key `k`.
    pub open spec fn has(self, k: PoolKeyView) -> bool {
        exists|i: int| 0 <= i < self@.len() && (#[trigger] self@[i]).0 == k
    }

    /// No pools.
    pub fn new() -> (r: PoolMap<P>)
        ensures
            r@ == Seq::<(PoolKeyView, P)>::empty(),
            r.wf(),
    {
        let r = PoolMap { entries: Vec::new() };
        assert(r@ =~= Seq::<(PoolKeyView, P)>::empty());
        r
    }

    /// The pool with a key.
    pub fn get(&self, key: &SessionPoolKey) -> (r: Option<&P>)
        requires
            self.wf(),
        ensures
            match r {
                Some(p) => exists|i: int|
                    0 <= i < self@.len() && (#[trigger] self@[i]).0 == key@ && self@[i].1 == *p,
                None => !self.has(key@),
            },
    {
        let mut i: usize = 0;
        while i < self.entries.len()
            invariant
                i <= self.entries.len(),
                self@.len() == self.entries@.len(),
                forall|k: int| 0 <= k < i ==> (#[trigger] self@[k]).0 != key@,
            decreases self.entries.len() - i,
        {
            assert(self@[i as int].0 == self.entries@[i as int].0@);
            if self.entries[i].0.same_as(key) {
                assert(self@[i as int].1 == self.entries@[i as int].1);
                return Some(&self.entries[i].1);
            }
            i = i + 1;
        }
        None
    }

    /// Adds a pool with a key that has none.
    pub fn insert(&mut self, key: SessionPoolKey, pool: P)
        requires
            old(self).wf(),
            !old(self).has(key@),
        ensures
            final(self).wf(),
            final(self)@ == old(self)@.push((key@, pool)),
    {
        let ghost before = self@;
        let ghost k = key@;
        self.entries.push((key, pool));
        assert(self@ =~= before.push((k, pool)));
        assert forall|i: int, j: int|
            #![trigger self@[i], self@[j]]
            0 <= i < j < self@.len() implies self@[i].0 != self@[j].0 by {
            if j == before.len() {
                assert(before[i].0 != k);
            } else {
                assert(before[i].0 != before[j].0);
            }
        }
    }
}

/// Whether a session has to move to the URL that a caller wants.
pub fn needs_reparent(current: &str, wanted: &str) -> (r: bool)
    ensures
        r == (current@ != wanted@),
{
    !str_eq(current, wanted)
}

/// Clients whose URLs name the same server, and that are alike in all else, share a
/// pool; clients with different names or passwords do not.
pub proof fn pools_are_shared_by_server(a: ClientView, b: ClientView)
    ensures
        key_of(a) == key_of(b) <==> a.base_url.host == b.base_url.host && a.base_url.port
            == b.base_url.port && a.username == b.username && a.password == b.password
            && a.connect_timeout == b.connect_timeout && a.read_timeout == b.read_timeout
            && a.write_timeout == b.write_timeout && a.ra_client == b.ra_client,
{
}

/// No session that was idle for too long is ever used again, and among the others the one
/// that was used last is taken.
pub proof fn expired_sessions_are_not_used<S>(
    entries: Seq<(S, Duration)>,
    n: int,
    now: Duration,
    config: PoolConfigView,
)
    requires
        0 <= n <= entries.len(),
    ensures
        -1 <= last_live(entries, n, now, config) < n || n == 0,
        last_live(entries, n, now, config) >= 0 ==> !config.expired(
            idle_nanos(now, entries[last_live(entries, n, now, config)].1),
        ),
        forall|j: int|
            last_live(entries, n, now, config) < j < n ==> config.expired(
                idle_nanos(now, (#[trigger] entries[j]).1),
            ),
    decreases n,
{
    if n > 0 && config.expired(idle_nanos(now, entries[n - 1].1)) {
        expired_sessions_are_not_used(entries, n - 1, now, config);
    }
}

/// What is shown of a key does not depend on the password, only on whether there is one.
pub proof fn shown_keys_hide_passwords(k: PoolKeyView, a: Seq<char>, b: Seq<char>)
    ensures
        (PoolKeyView { password: Some(a), ..k }).shown() == (PoolKeyView {
            password: Some(b),
            ..k
        }).shown(),
{
}

} // verus!
