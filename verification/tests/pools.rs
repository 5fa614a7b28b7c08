use svn::pool::{needs_reparent, Checkout, IdleSessions, PoolMap};
use svn::time::Duration;
use svn::{
    RaSvnClient, SessionPoolConfig, SessionPoolHealthCheck, SessionPoolKey, SvnError, SvnUrl,
};

fn client(url: &str) -> RaSvnClient {
    RaSvnClient::new(SvnUrl::parse(url).unwrap(), None, None)
}

fn at(millis: u64) -> Duration {
    Duration::from_millis(millis)
}

#[test]
fn idle_sessions_are_used_again_last_first() {
    let config = SessionPoolConfig::new(2).unwrap();
    let mut idle = IdleSessions::new();
    assert!(matches!(idle.checkout(at(0), &config), Checkout::Open));
    idle.push("a", at(1));
    idle.push("b", at(2));
    assert!(matches!(idle.checkout(at(3), &config), Checkout::Ready("b")));
    assert!(matches!(idle.checkout(at(3), &config), Checkout::Ready("a")));
    assert_eq!(idle.len(), 0);
}

#[test]
fn session_pool_drops_idle_sessions_after_timeout() {
    let config = SessionPoolConfig::new(1)
        .unwrap()
        .with_idle_timeout(Duration::from_millis(20));
    let mut idle = IdleSessions::new();
    let mut opened = 0;
    for now in [0, 30] {
        if matches!(idle.checkout(at(now), &config), Checkout::Open) {
            opened += 1;
        }
        idle.push("s", at(now));
    }
    assert_eq!(opened, 2);

    assert!(matches!(idle.checkout(at(49), &config), Checkout::Ready("s")));
}

#[test]
fn session_pool_warm_up_opens_expected_number_of_connections() {
    let config = SessionPoolConfig::new(4).unwrap().with_prewarm_sessions(3);
    assert_eq!(config.warm_up_count(config.prewarm_sessions(), 0), 3);
    assert_eq!(config.warm_up_count(3, 1), 2);
    assert_eq!(config.warm_up_count(3, 3), 0);
    assert_eq!(config.warm_up_count(10, 1), 3);
}

#[test]
fn session_pool_health_checks_idle_sessions_on_checkout() {
    let config = SessionPoolConfig::new(1)
        .unwrap()
        .with_health_check(SessionPoolHealthCheck::OnCheckout);
    let mut idle = IdleSessions::new();
    let mut checks = 0;
    for _ in 0..2 {
        if matches!(idle.checkout(at(0), &config), Checkout::Check(_)) {
            checks += 1;
        }
        idle.push("s", at(0));
    }
    assert_eq!(checks, 1);
}

#[test]
fn sessions_that_were_idle_for_long_are_checked() {
    let config = SessionPoolConfig::new(1)
        .unwrap()
        .with_health_check(SessionPoolHealthCheck::OnCheckoutIfIdleFor(at(10)));
    let mut idle = IdleSessions::new();
    idle.push("s", at(0));
    assert!(matches!(idle.checkout(at(9), &config), Checkout::Ready(_)));
    idle.push("s", at(0));
    assert!(matches!(idle.checkout(at(10), &config), Checkout::Check(_)));
}

#[test]
fn session_pools_partitions_by_custom_key() {
    let client = client("svn://127.0.0.1:3691/repo");
    let mut pools = PoolMap::new();
    let mut opened = 0;
    for key in ["a", "b", "a"] {
        let key = SessionPoolKey::for_client(&client).with_custom(key);
        if pools.get(&key).is_none() {
            opened += 1;
            pools.insert(key, opened);
        }
    }
    assert_eq!(opened, 2);
}

#[test]
fn clients_of_one_server_share_a_pool() {
    let a = SessionPoolKey::for_client(&client("svn://example.com/repo/a"));
    let b = SessionPoolKey::for_client(&client("svn://example.com:3690/repo/b"));
    let c = SessionPoolKey::for_client(&client("svn://example.org/repo/a"));
    assert!(a.same_as(&b));
    assert!(!a.same_as(&c));
    assert!(needs_reparent("svn://h:1/a", "svn://h:1/b"));
    assert!(!needs_reparent("svn://h:1/a", "svn://h:1/a"));
}

#[test]
fn a_pool_holds_at_least_one_session() {
    match SessionPoolConfig::new(0) {
        Err(SvnError::Protocol(m)) => assert_eq!(m, "max_sessions must be > 0"),
        other => panic!("{other:?}"),
    }
    let config = SessionPoolConfig::new(3).unwrap().with_acquire_timeout(at(5));
    assert_eq!(config.max_sessions(), 3);
    assert_eq!(config.acquire_timeout(), Some(at(5)));
}

#[test]
fn shown_keys_hide_passwords() {
    let url = SvnUrl::parse("svn://example.com/repo").unwrap();
    let client = RaSvnClient::new(url, Some("alice".to_string()), Some("s3cret".to_string()));
    let shown = SessionPoolKey::for_client(&client).shown();
    assert_eq!(shown.username.as_deref(), Some("alice"));
    assert_eq!(shown.password.as_deref(), Some("<redacted>"));
    assert!(!format!("{shown:?}").contains("s3cret"));
}
