use svn::auth::{auth_request_mechs, AuthAction, AuthExchange, GarbageFilter};
use svn::conn::{parse_command_response, RaSvnConnection, RaSvnConnectionConfig};
use svn::edit::failure_item;
use svn::raw::SvnItem;
use svn::sasl::{
    login_order, login_outcome, parse_sasl_challenge, sasl_initial_token, sasl_mech_list,
    sasl_opening, split_for_security_layer, tries_next_login, Login, SaslAction, SaslState,
    TokenCoding,
};
use svn::time::Duration;
use svn::wire::{encode_item, encode_item_line, read_item, ReadOutcome};
use svn::SvnError;

fn conn_at(
    url: &str,
    is_tunneled: bool,
    username: Option<&str>,
    password: Option<&str>,
) -> RaSvnConnection {
    RaSvnConnection::new(RaSvnConnectionConfig {
        username: username.map(|s| s.to_string()),
        password: password.map(|s| s.to_string()),
        is_tunneled,
        url: url.to_string(),
        ra_client: "test-ra_svn".to_string(),
        read_timeout: Duration::from_secs(60),
        write_timeout: Duration::from_secs(60),
    })
}

fn connected_conn(username: Option<&str>, password: Option<&str>) -> RaSvnConnection {
    conn_at("svn://example.com:3690/repo", false, username, password)
}

fn connected_conn_tunneled(username: Option<&str>, password: Option<&str>) -> RaSvnConnection {
    conn_at("svn+ssh://example.com:22/repo", true, username, password)
}

fn word(s: &str) -> SvnItem {
    SvnItem::Word(s.to_string())
}

fn text(s: &str) -> SvnItem {
    SvnItem::String(s.as_bytes().to_vec())
}

fn list(items: Vec<SvnItem>) -> SvnItem {
    SvnItem::List(items)
}

fn line(item: &SvnItem) -> Vec<u8> {
    let mut out = Vec::new();
    encode_item_line(item, &mut out);
    out
}

fn names(v: &[&str]) -> Vec<String> {
    v.iter().map(|s| s.to_string()).collect()
}

/// Hands the bytes of an item to the connection and takes the item from it.
fn pass(conn: &mut RaSvnConnection, item: &SvnItem) -> SvnItem {
    conn.receive(&line(item));
    conn.next_item().unwrap().unwrap()
}

fn plain_token() -> Vec<u8> {
    let mut token = Vec::new();
    token.push(0);
    token.extend_from_slice(b"alice");
    token.push(0);
    token.extend_from_slice(b"secret");
    token
}

fn greeting(minver: u64, maxver: u64, caps: &[&str]) -> SvnItem {
    list(vec![
        word("success"),
        list(vec![
            SvnItem::Number(minver),
            SvnItem::Number(maxver),
            list(Vec::new()),
            list(caps.iter().map(|c| word(c)).collect()),
        ]),
    ])
}

fn expected_greeting(url: &str) -> SvnItem {
    list(vec![
        SvnItem::Number(2),
        list(vec![
            word("edit-pipeline"),
            word("svndiff1"),
            word("accepts-svndiff2"),
            word("absent-entries"),
            word("depth"),
            word("mergeinfo"),
            word("log-revprops"),
        ]),
        text(url),
        text("test-ra_svn"),
        list(Vec::new()),
    ])
}

fn auth_request(mechs: &[&str]) -> SvnItem {
    list(vec![
        word("success"),
        list(vec![list(mechs.iter().map(|m| word(m)).collect()), text("realm")]),
    ])
}

fn repos_info() -> SvnItem {
    list(vec![
        word("success"),
        list(vec![
            text("uuid"),
            text("svn://example.com/repo"),
            list(vec![word("mergeinfo")]),
        ]),
    ])
}

fn invert_bytes(bytes: &[u8]) -> Vec<u8> {
    bytes.iter().map(|b| b ^ 0xFF).collect()
}

fn chunk_sizes(total: usize, max: usize) -> Vec<usize> {
    if total == 0 {
        return Vec::new();
    }
    if max == 0 {
        return vec![total];
    }
    let mut out = Vec::new();
    let mut remaining = total;
    while remaining > 0 {
        let take = remaining.min(max);
        out.push(take);
        remaining -= take;
    }
    out
}

#[test]
fn select_mech_prefers_plain_over_anonymous() {
    let conn = connected_conn(Some("alice"), Some("secret"));
    let mechs = vec!["ANONYMOUS".to_string(), "PLAIN".to_string()];
    let (mech, token) = conn.select_mech(&mechs).unwrap();
    assert_eq!(mech, "PLAIN");
    assert_eq!(token.unwrap(), plain_token());
}

#[test]
fn select_mech_uses_cram_md5_when_plain_missing() {
    let conn = connected_conn(Some("alice"), Some("secret"));
    let mechs = vec!["CRAM-MD5".to_string(), "ANONYMOUS".to_string()];
    let (mech, token) = conn.select_mech(&mechs).unwrap();
    assert_eq!(mech, "CRAM-MD5");
    assert!(token.is_none());
}

#[test]
fn select_mech_falls_back_to_anonymous_without_creds() {
    let conn = connected_conn(None, None);
    let mechs = vec!["ANONYMOUS".to_string()];
    let (mech, token) = conn.select_mech(&mechs).unwrap();
    assert_eq!(mech, "ANONYMOUS");
    assert_eq!(token.unwrap(), Vec::<u8>::new());
}

#[test]
fn select_mech_prefers_external_when_tunneled() {
    let conn = connected_conn_tunneled(None, None);
    let mechs = vec!["ANONYMOUS".to_string(), "EXTERNAL".to_string()];
    let (mech, token) = conn.select_mech(&mechs).unwrap();
    assert_eq!(mech, "EXTERNAL");
    assert_eq!(token.unwrap(), Vec::<u8>::new());
}

#[test]
fn select_mech_reports_unavailable_when_no_supported_mechs() {
    let conn = connected_conn(None, None);
    let mechs = vec!["PLAIN".to_string(), "CRAM-MD5".to_string()];
    let err = conn.select_mech(&mechs).unwrap_err();
    assert!(matches!(err, SvnError::AuthUnavailable));
}

#[test]
fn auth_request_retries_with_next_mechanism_on_failure() {
    let mut conn = connected_conn(Some("alice"), Some("secret"));
    let request = pass(&mut conn, &auth_request(&["CRAM-MD5", "PLAIN"]));
    let request = parse_command_response(&request).unwrap();
    let mechs = auth_request_mechs(&request).unwrap().unwrap();

    let mut exchange = AuthExchange::start(&conn, &mechs).unwrap();
    let expected_first = list(vec![word("CRAM-MD5"), list(Vec::new())]);
    assert_eq!(line(&exchange.opening()), line(&expected_first));

    let failure = pass(&mut conn, &list(vec![word("failure"), list(vec![text("bad")])]));
    let expected_second = list(vec![
        word("PLAIN"),
        list(vec![SvnItem::String(plain_token())]),
    ]);
    match exchange.step(&conn, &failure).unwrap() {
        AuthAction::Send(item) => assert_eq!(line(&item), line(&expected_second)),
        other => panic!("{other:?}"),
    }

    let success = pass(&mut conn, &list(vec![word("success")]));
    assert!(matches!(exchange.step(&conn, &success), Ok(AuthAction::Done)));
}

#[test]
fn auth_fails_with_the_reason_after_the_last_mechanism() {
    let conn = connected_conn(Some("alice"), Some("secret"));
    let mut exchange = AuthExchange::start(&conn, &names(&["PLAIN"])).unwrap();
    let failure = list(vec![word("failure"), list(vec![text("bad")])]);
    match exchange.step(&conn, &failure) {
        Err(SvnError::AuthFailed(m)) => assert_eq!(m, "bad"),
        other => panic!("{other:?}"),
    }
}

#[test]
fn auth_steps_answer_the_challenge() {
    let conn = connected_conn(Some("alice"), Some("key"));
    let mut exchange = AuthExchange::start(&conn, &names(&["CRAM-MD5"])).unwrap();
    let step = list(vec![
        word("step"),
        list(vec![text("The quick brown fox jumps over the lazy dog")]),
    ]);
    match exchange.step(&conn, &step).unwrap() {
        AuthAction::Send(SvnItem::String(b)) => {
            assert_eq!(b, b"alice 80070713463e7749b90c2dc24911e275")
        }
        other => panic!("{other:?}"),
    }
}

#[test]
fn auth_step_reply_cram_md5_matches_known_vector() {
    let conn = connected_conn(Some("alice"), Some("key"));
    let reply = conn
        .auth_step_reply(
            "CRAM-MD5",
            b"The quick brown fox jumps over the lazy dog".to_vec(),
        )
        .unwrap();
    let reply = String::from_utf8(reply).unwrap();
    assert_eq!(reply, "alice 80070713463e7749b90c2dc24911e275");
}

#[test]
fn auth_step_reply_cram_md5_requires_creds() {
    let conn = connected_conn(None, Some("key"));
    let err = conn
        .auth_step_reply("CRAM-MD5", b"challenge".to_vec())
        .unwrap_err();
    assert!(matches!(err, SvnError::AuthFailed(_)));

    let conn = connected_conn(Some("alice"), None);
    let err = conn
        .auth_step_reply("CRAM-MD5", b"challenge".to_vec())
        .unwrap_err();
    assert!(matches!(err, SvnError::AuthFailed(_)));
}

#[test]
fn read_item_roundtrips_encoded_values() {
    let mut conn = connected_conn(None, None);
    let item = list(vec![
        word("word"),
        SvnItem::Number(22),
        SvnItem::Bool(true),
        text("bytes"),
        list(vec![word("nested")]),
    ]);
    conn.receive(&line(&item));
    let parsed = conn.next_item().unwrap().unwrap();
    assert_eq!(parsed, item);
}

#[test]
fn read_item_rejects_invalid_word_tokens() {
    let mut conn = connected_conn(None, None);
    conn.receive(b"wo(rd ");
    let err = conn.next_item().unwrap_err();
    assert!(matches!(err, SvnError::Protocol(_)));
}

#[test]
fn read_item_rejects_number_overflow() {
    let mut conn = connected_conn(None, None);
    conn.receive(b"18446744073709551616 \n");
    let err = conn.next_item().unwrap_err();
    assert!(matches!(err, SvnError::Protocol(_)));
}

#[test]
fn read_item_requires_whitespace_after_strings() {
    let mut conn = connected_conn(None, None);
    conn.receive(b"4:testX \n");
    let err = conn.next_item().unwrap_err();
    assert!(matches!(err, SvnError::Protocol(msg) if msg == "expected whitespace"));
}

#[test]
fn items_are_written_as_the_protocol_says() {
    let item = list(vec![
        word("get-file"),
        list(vec![text("a b"), list(vec![SvnItem::Number(7)]), SvnItem::Bool(false)]),
    ]);
    let mut out = Vec::new();
    encode_item(&item, &mut out);
    assert_eq!(out, b"( get-file ( 3:a b ( 7 ) false ) ) ");
    assert_eq!(line(&item), b"( get-file ( 3:a b ( 7 ) false ) ) \n");
}

#[test]
fn items_come_back_whatever_they_hold() {
    let nested = list(vec![list(vec![]), list(vec![SvnItem::String(vec![0, 10, 255])])]);
    let items = vec![
        SvnItem::Number(u64::MAX),
        SvnItem::Bool(false),
        SvnItem::String(Vec::new()),
        nested,
    ];
    let mut bytes = Vec::new();
    for item in &items {
        bytes.extend_from_slice(&line(item));
    }
    let mut conn = connected_conn(None, None);
    for b in &bytes {
        conn.receive(&[*b]);
    }
    for item in &items {
        assert_eq!(&conn.next_item().unwrap().unwrap(), item);
    }
    assert!(conn.next_item().unwrap().is_none());
    assert!(!conn.has_data());
}

#[test]
fn an_item_that_has_not_arrived_is_waited_for() {
    let bytes = line(&list(vec![word("success"), list(vec![text("abc")])]));
    // The newline at the end is not part of the item, nor is the space before it needed
    // for the list to be complete.
    for n in 0..bytes.len() - 2 {
        assert!(matches!(read_item(&bytes[..n], 0), ReadOutcome::NeedMore));
    }
    assert!(matches!(read_item(&bytes, 0), ReadOutcome::Item(_, _)));
}

#[test]
fn handshake_writes_expected_client_greeting() {
    let mut conn = connected_conn(None, None);
    let item = pass(&mut conn, &greeting(2, 2, &["edit-pipeline", "svndiff1"]));
    let client_greeting = conn
        .accept_greeting(&parse_command_response(&item).unwrap())
        .unwrap();
    assert_eq!(
        line(&client_greeting),
        line(&expected_greeting("svn://example.com:3690/repo"))
    );

    let item = pass(&mut conn, &auth_request(&[]));
    let mechs = auth_request_mechs(&parse_command_response(&item).unwrap()).unwrap();
    assert!(mechs.is_none());

    let item = pass(&mut conn, &repos_info());
    let info = conn
        .finish_handshake(&parse_command_response(&item).unwrap())
        .unwrap();
    assert!(conn.server_has_cap("edit-pipeline"));
    assert!(conn.server_has_cap("svndiff1"));
    assert_eq!(info.repository.uuid, "uuid");
    assert_eq!(info.repository.root_url, "svn://example.com/repo");
    assert!(
        info.repository
            .capabilities
            .iter()
            .any(|c| c == "mergeinfo")
    );
    assert!(conn.server_has_cap("mergeinfo"));
}

#[test]
fn handshake_skips_leading_garbage_for_tunneled_connections() {
    let mut conn = connected_conn_tunneled(None, None);
    let mut filter = GarbageFilter::new();
    assert!(filter
        .feed(b"Last login: Thu Jan 01 00:00:00 1970\\n")
        .unwrap()
        .is_none());
    let begin = filter
        .feed(&line(&greeting(2, 2, &["edit-pipeline", "svndiff1"])))
        .unwrap()
        .unwrap();
    conn.receive(&begin);
    let item = conn.next_item().unwrap().unwrap();
    let client_greeting = conn
        .accept_greeting(&parse_command_response(&item).unwrap())
        .unwrap();
    assert_eq!(
        line(&client_greeting),
        line(&expected_greeting("svn+ssh://example.com:22/repo"))
    );

    let item = pass(&mut conn, &auth_request(&[]));
    let mechs = auth_request_mechs(&parse_command_response(&item).unwrap()).unwrap();
    assert!(mechs.is_none());

    let item = pass(&mut conn, &repos_info());
    let info = conn
        .finish_handshake(&parse_command_response(&item).unwrap())
        .unwrap();
    assert_eq!(info.repository.uuid, "uuid");
}

#[test]
fn a_greeting_is_found_across_chunks() {
    let mut filter = GarbageFilter::new();
    assert!(filter.feed(b"banner (").unwrap().is_none());
    assert_eq!(filter.feed(b" success").unwrap().unwrap(), b"( success");
}

#[test]
fn endless_garbage_is_refused_and_shown() {
    let mut filter = GarbageFilter::new();
    let mut chunk = b"it's \"me\"\n\xff".to_vec();
    chunk.resize(70_000, b'x');
    match filter.feed(&chunk) {
        Err(SvnError::Protocol(m)) => {
            assert!(m.starts_with(
                "tunnel produced non-svn output before greeting; discarded >65536 bytes; \
                 start of output: \"it's \\\"me\\\"\\n\u{fffd}xxx"
            ));
        }
        other => panic!("{other:?}"),
    }
}

#[test]
fn handshake_rejects_servers_without_v2_support() {
    let mut conn = connected_conn(None, None);
    let item = pass(&mut conn, &greeting(3, 4, &[]));
    let err = conn
        .accept_greeting(&parse_command_response(&item).unwrap())
        .unwrap_err();
    assert!(matches!(err, SvnError::Protocol(_)));
}

#[test]
fn handshake_rejects_servers_without_pipelining() {
    let mut conn = connected_conn(None, None);
    let response = parse_command_response(&greeting(1, 2, &["svndiff1"])).unwrap();
    match conn.accept_greeting(&response) {
        Err(SvnError::Protocol(m)) => assert_eq!(m, "server does not support edit pipelining"),
        other => panic!("{other:?}"),
    }
}

#[test]
fn write_item_applies_security_layer_and_chunks() {
    let item = list(vec![word("test"), SvnItem::String(vec![b'x'; 25])]);
    let plain = line(&item);
    let chunks = split_for_security_layer(&plain, 8);
    let got: Vec<u8> = chunks.iter().flat_map(|c| invert_bytes(c)).collect();
    assert_eq!(got, invert_bytes(&plain));
    let sizes: Vec<usize> = chunks.iter().map(|c| c.len()).collect();
    assert_eq!(sizes, chunk_sizes(plain.len(), 8));
}

#[test]
fn write_item_security_layer_skips_chunking_when_max_outbuf_zero() {
    let item = SvnItem::String(vec![b'a'; 10]);
    let plain = line(&item);
    let chunks = split_for_security_layer(&plain, 0);
    let got: Vec<u8> = chunks.iter().flat_map(|c| invert_bytes(c)).collect();
    assert_eq!(got, invert_bytes(&plain));
    let sizes: Vec<usize> = chunks.iter().map(|c| c.len()).collect();
    assert_eq!(sizes, vec![plain.len()]);
}

#[test]
fn read_item_decodes_with_security_layer() {
    let mut conn = connected_conn(None, None);
    let item = list(vec![word("hello"), SvnItem::Number(1), text("world")]);
    let wire = invert_bytes(&line(&item));

    let decoded = invert_bytes(&wire);
    conn.receive(&decoded);
    let parsed = conn.next_item().unwrap().unwrap();
    assert_eq!(parsed, item);
    assert_eq!(decoded.len(), wire.len());
}

#[test]
fn write_cmd_failure_early_applies_security_layer_and_chunks() {
    let err = SvnError::Protocol("boom".into());
    let item = list(vec![
        word("failure"),
        list(vec![list(vec![
            SvnItem::Number(1),
            SvnItem::String(err.to_text().into_bytes()),
            SvnItem::String(Vec::new()),
            SvnItem::Number(0),
        ])]),
    ]);
    let plain = line(&failure_item(&err));
    assert_eq!(plain, line(&item));

    let chunks = split_for_security_layer(&plain, 7);
    let got: Vec<u8> = chunks.iter().flat_map(|c| invert_bytes(c)).collect();
    assert_eq!(got, invert_bytes(&plain));
    let sizes: Vec<usize> = chunks.iter().map(|c| c.len()).collect();
    assert_eq!(sizes, chunk_sizes(plain.len(), 7));
}

#[test]
fn command_responses_say_how_a_command_went() {
    let ok = parse_command_response(&list(vec![word("success"), list(vec![text("x")])])).unwrap();
    assert!(!ok.is_failure());
    ok.ensure_success("ctx").unwrap();
    assert_eq!(ok.success_params("ctx").unwrap(), &vec![text("x")]);

    let failure = list(vec![
        word("failure"),
        list(vec![list(vec![
            SvnItem::Number(123),
            text("lock denied"),
            text("file"),
            SvnItem::Number(1),
        ])]),
    ]);
    let bad = parse_command_response(&failure).unwrap();
    assert!(bad.is_failure());
    assert!(bad.failure_message().contains("lock denied"));
    match bad.ensure_success("lock") {
        Err(SvnError::Server(e)) => {
            assert_eq!(e.context.as_deref(), Some("lock"));
            assert_eq!(e.chain[0].code, 123);
        }
        other => panic!("{other:?}"),
    }
}

#[test]
fn sasl_passes_the_offered_mechanisms_on() {
    assert_eq!(
        sasl_mech_list(&names(&["DIGEST-MD5", "PLAIN"])).unwrap(),
        "DIGEST-MD5 PLAIN"
    );
    let first = sasl_initial_token("EXTERNAL", None).unwrap();
    assert_eq!(first.token, b"");
    assert_eq!(first.coding, TokenCoding::Base64);
    let first = sasl_initial_token("CRAM-MD5", Some(b"x".to_vec())).unwrap();
    assert_eq!(first.token, b"x");
    assert_eq!(first.coding, TokenCoding::Base64);
    assert!(sasl_initial_token("PLAIN", None).is_none());
    assert_eq!(
        sasl_opening("PLAIN", Some(b"AA==".to_vec())),
        SvnItem::List(vec![
            SvnItem::Word("PLAIN".to_string()),
            SvnItem::List(vec![SvnItem::String(b"AA==".to_vec())]),
        ])
    );
    assert_eq!(SaslState::start("CRAM-MD5", true).coding, TokenCoding::Plain);
    assert_eq!(SaslState::start("PLAIN", true).coding, TokenCoding::Base64);
}

#[test]
fn sasl_steps_until_the_server_is_content() {
    let step = list(vec![word("step"), list(vec![text("abc")])]);
    let success = list(vec![word("success"), list(vec![])]);
    let (bytes, done) = parse_sasl_challenge(&step).unwrap();
    assert_eq!(bytes, b"abc");
    assert!(!done);

    let mut state = SaslState::start("CRAM-MD5", true);
    assert!(matches!(
        state.message(&step),
        Ok(SaslAction::Step {
            coding: TokenCoding::Plain,
            answer: true,
            ..
        })
    ));
    state.library_stepped(false);
    assert!(matches!(state.message(&success), Ok(SaslAction::Done)));
}

#[test]
fn the_library_is_tried_first() {
    assert_eq!(login_order(true), vec![Login::Library, Login::BuiltIn]);
    assert_eq!(login_order(false), vec![Login::BuiltIn]);
    assert!(tries_next_login(&SvnError::AuthUnavailable));
    assert!(tries_next_login(&SvnError::AuthFailed("no".to_string())));
    assert!(!tries_next_login(&SvnError::Protocol("x".to_string())));

    let first = SvnError::AuthFailed("no".to_string());
    match login_outcome(first, Err(SvnError::AuthUnavailable)) {
        Err(SvnError::AuthFailed(m)) => assert_eq!(m, "no"),
        other => panic!("{other:?}"),
    }
    login_outcome(SvnError::AuthUnavailable, Ok(())).unwrap();
}
