use svn::{SvnError, SvnUrl};

#[test]
fn svn_url_parse_supports_svn_only() {
    let err = SvnUrl::parse("http://example.com/repo").unwrap_err();
    assert!(matches!(err, SvnError::InvalidUrl(_)));
}

#[test]
fn svn_url_parse_defaults_port_and_preserves_path() {
    let parsed = SvnUrl::parse("svn://example.com/repo").unwrap();
    assert_eq!(parsed.host, "example.com");
    assert_eq!(parsed.port, 3690);
    assert_eq!(parsed.url, "svn://example.com:3690/repo");

    let parsed = SvnUrl::parse("svn://example.com").unwrap();
    assert_eq!(parsed.url, "svn://example.com:3690/");
}

#[test]
fn svn_url_parse_accepts_explicit_port() {
    let parsed = SvnUrl::parse("svn://example.com:1234/repo").unwrap();
    assert_eq!(parsed.host, "example.com");
    assert_eq!(parsed.port, 1234);
    assert_eq!(parsed.url, "svn://example.com:1234/repo");
}

#[test]
fn svn_url_parse_rejects_invalid_port() {
    let err = SvnUrl::parse("svn://example.com:abc/repo").unwrap_err();
    assert!(matches!(err, SvnError::InvalidUrl(_)));
    let err = SvnUrl::parse("svn://example.com:70000/repo").unwrap_err();
    assert!(matches!(err, SvnError::InvalidUrl(_)));
}

#[test]
fn svn_url_parse_rejects_missing_host() {
    let err = SvnUrl::parse("svn:///repo").unwrap_err();
    assert!(matches!(err, SvnError::InvalidUrl(_)));
}

#[test]
fn svn_url_parse_trims_and_accepts_uppercase_scheme() {
    let parsed = SvnUrl::parse("  SVN://example.com/repo  ").unwrap();
    assert_eq!(parsed.url, "svn://example.com:3690/repo");
}

#[test]
fn svn_url_parse_supports_ipv6_in_brackets() {
    let parsed = SvnUrl::parse("svn://[::1]/repo").unwrap();
    assert_eq!(parsed.host, "::1");
    assert_eq!(parsed.port, 3690);
    assert_eq!(parsed.url, "svn://[::1]:3690/repo");
    assert_eq!(parsed.socket_addr(), "[::1]:3690");

    let parsed = SvnUrl::parse("svn://[::1]:1234/repo").unwrap();
    assert_eq!(parsed.host, "::1");
    assert_eq!(parsed.port, 1234);
    assert_eq!(parsed.url, "svn://[::1]:1234/repo");
    assert_eq!(parsed.socket_addr(), "[::1]:1234");
}

#[test]
fn svn_url_parse_rejects_unbracketed_ipv6() {
    let err = SvnUrl::parse("svn://::1/repo").unwrap_err();
    assert!(matches!(err, SvnError::InvalidUrl(_)));
}

#[test]
fn svn_url_from_str_uses_parse_and_display_uses_normalized_url() {
    let url: SvnUrl = "svn://example.com/repo".parse().unwrap();
    assert_eq!(url.url, "svn://example.com:3690/repo");
    assert_eq!(url.to_text(), url.url);
    assert_eq!(url.socket_addr(), "example.com:3690");
}

#[test]
fn svn_url_parse_accepts_tunnels_with_a_user() {
    let url = SvnUrl::parse("svn+ssh://alice@example.com/repo").unwrap();
    assert_eq!(url.host, "example.com");
    assert_eq!(url.port, 22);
    assert_eq!(url.url, "svn+ssh://alice@example.com:22/repo");
}

#[test]
fn normalised_urls_are_kept() {
    for s in [
        "  SVN://example.com/repo  ",
        "svn://[::1]/repo",
        "svn+ssh://a@b@Example.com:2200",
    ] {
        let once = SvnUrl::parse(s).unwrap();
        let twice = SvnUrl::parse(&once.url).unwrap();
        assert_eq!(once, twice);
    }
}

#[test]
fn url_errors_say_what_is_wrong() {
    match SvnUrl::parse("http://example.com/repo") {
        Err(SvnError::InvalidUrl(m)) => assert_eq!(m, "only svn:// URLs are supported"),
        other => panic!("{other:?}"),
    }
    match SvnUrl::parse("svn:///repo") {
        Err(SvnError::InvalidUrl(m)) => assert_eq!(m, "missing host in url: svn:///repo"),
        other => panic!("{other:?}"),
    }
}
