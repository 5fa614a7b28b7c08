use svn::ssh::{
    auth_plan, default_identity_files, default_ssh_username, expand_tilde_str, home_dir,
    host_key_verdict, resolve_ssh_settings, AuthAttempt, HostKeyVerdict, SshEnv,
};
use svn::ssh_config::{parse_config_line_tokens, tokenize_ssh_config_line, OpenSshConfig};
use svn::ssh_parser::{
    is_wildcard_path, matching_names, may_enter, split_lines, OpenSshParser, ParseStop,
};
use svn::time::Duration;
use svn::wildcard::wildcard_match;
use svn::{SshAuth, SshConfig, SshHostKeyPolicy, SvnUrl};

fn local() -> SshEnv {
    SshEnv { user: Some("me".to_string()), home: Some("/home/me".to_string()) }
}

#[test]
fn resolve_ssh_username_prefers_override() {
    let url = SvnUrl::parse("svn+ssh://alice@example.com/repo").unwrap();
    let ssh = SshConfig::new(SshAuth::NoAuth).with_username("bob");
    let settings = resolve_ssh_settings(&url, &ssh, Duration::from_secs(1), None, &local()).unwrap();
    assert_eq!(settings.username, "bob");
}

#[test]
fn resolve_ssh_username_uses_url_user() {
    let url = SvnUrl::parse("svn+ssh://alice@example.com/repo").unwrap();
    let ssh = SshConfig::new(SshAuth::NoAuth);
    let settings = resolve_ssh_settings(&url, &ssh, Duration::from_secs(1), None, &local()).unwrap();
    assert_eq!(settings.username, "alice");
}

#[test]
fn openssh_config_can_override_host_user_and_port() {
    let cfg = OpenSshConfig::parse_str(
        "Host example.com\n  HostName real.example.com\n  User alice\n  Port 2222\n",
    );
    let params = cfg.query("example.com");

    let url = SvnUrl::parse("svn+ssh://example.com/repo").unwrap();
    let ssh = SshConfig::new(SshAuth::NoAuth);
    let settings =
        resolve_ssh_settings(&url, &ssh, Duration::from_secs(30), Some(&params), &local()).unwrap();
    assert_eq!(settings.connect_host, "real.example.com");
    assert_eq!(settings.connect_port, 2222);
    assert_eq!(settings.username, "alice");
}

#[test]
fn openssh_config_does_not_override_explicit_url_port() {
    let cfg = OpenSshConfig::parse_str("Host example.com\n  Port 2222\n");
    let params = cfg.query("example.com");

    let url = SvnUrl::parse("svn+ssh://example.com:2200/repo").unwrap();
    let ssh = SshConfig::new(SshAuth::NoAuth);
    let settings =
        resolve_ssh_settings(&url, &ssh, Duration::from_secs(30), Some(&params), &local()).unwrap();
    assert_eq!(settings.connect_port, 2200);
}

#[test]
fn openssh_config_host_key_alias_is_used_for_known_hosts_lookup() {
    let cfg = OpenSshConfig::parse_str("Host example.com\n  HostKeyAlias alias\n");
    let params = cfg.query("example.com");

    let url = SvnUrl::parse("svn+ssh://example.com/repo").unwrap();
    let ssh = SshConfig::new(SshAuth::NoAuth);
    let settings =
        resolve_ssh_settings(&url, &ssh, Duration::from_secs(30), Some(&params), &local()).unwrap();
    assert_eq!(settings.known_hosts_host, "alias");
}

#[test]
fn openssh_config_strict_host_key_checking_no_disables_verification() {
    let cfg = OpenSshConfig::parse_str("Host example.com\n  StrictHostKeyChecking no\n");
    let params = cfg.query("example.com");

    let url = SvnUrl::parse("svn+ssh://example.com/repo").unwrap();
    let ssh = SshConfig::new(SshAuth::NoAuth);
    let settings =
        resolve_ssh_settings(&url, &ssh, Duration::from_secs(30), Some(&params), &local()).unwrap();
    assert!(matches!(settings.host_key, SshHostKeyPolicy::AcceptAny));
    assert!(!settings.accept_new_host_keys);
}

#[test]
fn openssh_config_strict_host_key_checking_accept_new_enables_learning() {
    let cfg =
        OpenSshConfig::parse_str("Host example.com\n  StrictHostKeyChecking accept-new\n");
    let params = cfg.query("example.com");

    let url = SvnUrl::parse("svn+ssh://example.com/repo").unwrap();
    let ssh = SshConfig::new(SshAuth::NoAuth);
    let settings =
        resolve_ssh_settings(&url, &ssh, Duration::from_secs(30), Some(&params), &local()).unwrap();
    assert!(settings.accept_new_host_keys);
}

fn strings(v: &[&str]) -> Vec<String> {
    v.iter().map(|s| s.to_string()).collect()
}

#[test]
fn an_unknown_user_is_an_error() {
    let url = SvnUrl::parse("svn+ssh://example.com/repo").unwrap();
    let ssh = SshConfig::new(SshAuth::NoAuth);
    let nobody = SshEnv {
        user: None,
        home: None,
    };
    assert!(resolve_ssh_settings(&url, &ssh, Duration::from_secs(1), None, &nobody).is_err());
    let settings =
        resolve_ssh_settings(&url, &ssh, Duration::from_secs(1), None, &local()).unwrap();
    assert_eq!(settings.username, "me");
    assert_eq!(settings.connect_port, 22);
}

#[test]
fn lines_are_cut_into_words() {
    assert_eq!(
        tokenize_ssh_config_line("Host \"a b\" c # rest"),
        strings(&["Host", "a b", "c"])
    );
    let (key, values) = parse_config_line_tokens("Port=22").unwrap();
    assert_eq!(key.to_lowercase(), "port");
    assert_eq!(values, strings(&["22"]));
    assert!(parse_config_line_tokens("  # nothing").is_none());
}

#[test]
fn the_first_value_of_an_option_counts() {
    let cfg = OpenSshConfig::parse_str(
        "User first\nHost *.example.com !bad.example.com\n  User second\n  Port 99\n",
    );
    let good = cfg.query("www.example.com");
    assert_eq!(good.user.as_deref(), Some("first"));
    assert_eq!(good.port, Some(99));
    assert_eq!(cfg.query("bad.example.com").port, None);
}

#[test]
fn patterns_mean_globs() {
    assert!(wildcard_match("*.example.com", "www.example.com"));
    assert!(wildcard_match("h?st", "host"));
    assert!(!wildcard_match("h?st", "hst"));
    assert!(wildcard_match("*", ""));
    assert!(!wildcard_match("a*b", "abc"));
}

#[test]
fn included_files_are_asked_for() {
    let lines = split_lines("Host a\nInclude conf.d/*.conf\nPort 5\n");
    let mut parser = OpenSshParser::new();
    match parser.parse_lines(&lines, 0) {
        ParseStop::Files { patterns, next } => {
            assert_eq!(patterns, strings(&["conf.d/*.conf"]));
            assert!(matches!(parser.parse_lines(&lines, next), ParseStop::Finished));
        }
        ParseStop::Finished => panic!("the file was not asked for"),
    }
    assert_eq!(parser.finish().query("a").port, Some(5));
    assert_eq!(
        matching_names("*.conf", &strings(&["b.conf", "x", "a.conf"])),
        strings(&["a.conf", "b.conf"])
    );
    assert!(is_wildcard_path("conf.d/*.conf"));
    assert!(!may_enter(&strings(&["/a"]), "/a", 0));
    assert!(may_enter(&strings(&["/a"]), "/b", 1));
}

#[test]
fn homes_and_keys_are_found() {
    let home = Some("/home/me".to_string());
    assert_eq!(expand_tilde_str("~/.ssh/id", &home), "/home/me/.ssh/id");
    assert_eq!(expand_tilde_str("~/.ssh/id", &None), "~/.ssh/id");
    assert_eq!(
        default_identity_files(&home)[0],
        "/home/me/.ssh/id_ed25519".to_string()
    );
    assert!(default_identity_files(&None).is_empty());
    assert_eq!(
        default_ssh_username(None, Some("bob".to_string())).as_deref(),
        Some("bob")
    );
    assert_eq!(
        home_dir(home.clone(), None, None, None).as_deref(),
        Some("/home/me")
    );
}

#[test]
fn attempts_come_in_order() {
    let url = SvnUrl::parse("svn+ssh://example.com/repo").unwrap();
    let ssh = SshConfig::new(SshAuth::NoAuth)
        .with_ssh_agent()
        .with_default_identities();
    let settings =
        resolve_ssh_settings(&url, &ssh, Duration::from_secs(1), None, &local()).unwrap();
    let plan = auth_plan(&ssh, &settings, &Some("/home/me".to_string()));
    assert!(matches!(plan[0], AuthAttempt::Agent(_)));
    assert!(matches!(plan[1], AuthAttempt::KeyFile { strict: false, .. }));
    assert!(matches!(plan[plan.len() - 1], AuthAttempt::NoAuth));

    let ssh = SshConfig::new(SshAuth::Password("pw".to_string()));
    let plan = auth_plan(&ssh, &settings, &None);
    assert_eq!(plan.len(), 1);
    assert!(matches!(&plan[0], AuthAttempt::Password(p) if p == "pw"));
}

#[test]
fn unknown_host_keys_are_learned_or_rejected() {
    let policy = SshHostKeyPolicy::KnownHosts;
    assert_eq!(host_key_verdict(&policy, false, true), HostKeyVerdict::Accept);
    assert_eq!(host_key_verdict(&policy, true, false), HostKeyVerdict::Learn);
    assert_eq!(host_key_verdict(&policy, false, false), HostKeyVerdict::Reject);
    let any = SshHostKeyPolicy::AcceptAny;
    assert_eq!(host_key_verdict(&any, false, false), HostKeyVerdict::Accept);
}
