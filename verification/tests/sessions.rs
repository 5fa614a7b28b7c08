use svn::answers::{
    check_path_answer, get_dated_rev_answer, get_deleted_rev_answer, get_dir_props_answer,
    get_file_answer, get_file_props_answer, get_latest_rev_answer, get_lock_answer,
    get_locks_answer, get_mergeinfo_answer, inherited_props_answer, list_dir_answer, lock_answer,
    replay_props, rev_prop_answer, rev_proplist_answer, stat_answer, stat_from_kind, succeeded,
};
use svn::auth::auth_request_mechs;
use svn::client::{
    check_atomic_revprops, is_retryable_error, plan_proplist, require_finish_report,
    should_drop_connection, ListWalk, ProplistPlan, ReplayWalk,
};
use svn::commit_send::{check_commit_commands, commit_request, CommitBatch};
use svn::conn::{parse_command_response, CommandResponse, RaSvnConnection};
use svn::edit::{after_event, drive_step, encode_report, DriveAction, DriveStep};
use svn::error::IoErrorKind;
use svn::history::log_wants;
use svn::raw::SvnItem;
use svn::replies::parse_commit_info;
use svn::requests::{
    change_rev_prop2_request, change_rev_prop_request, check_path_request, diff_request,
    get_dated_rev_request, get_deleted_rev_request, get_file_request, get_file_revs_request,
    get_latest_rev_request, get_location_segments_request, get_locations_request,
    get_lock_request, get_locks_request, get_mergeinfo_request, inherited_props_request,
    list_dir_request, list_request, listing_fields, lock_many_request, lock_many_start,
    lock_one_by_one,
    lock_request, log_request, reparent_request, replay_range_request, replay_request,
    rev_prop_request, rev_proplist_request, stat_request, status_request, switch_request,
    unlock_many_request, unlock_many_start, unlock_one_by_one, unlock_request, update_request,
};
use svn::streams::{
    is_unknown_command_error, FileRevCollector, FileTextCollector, ListCollector,
    LocationCollector, LockManyCollector, LogCollector, ManyStep, SegmentCollector,
    UnlockManyCollector,
};
use svn::time::Duration;
use svn::wire::{encode_item_line, read_item, ReadOutcome};
use svn::{
    Capability, CommitOptions, Depth, DiffOptions, DirentField, EditorCommand, EditorEvent,
    LockManyOptions, LockOptions, LockTarget, LogOptions, LogRevProps, MergeInfoInheritance,
    NodeKind, RaSvnClient, RaSvnSession, ReplayOptions, ReplayRangeOptions, Report, ReportCommand,
    ServerError, StatusOptions, SvnError, SvnUrl, SwitchOptions, UnlockManyOptions, UnlockOptions,
    UnlockTarget, UpdateOptions,
};

fn word(s: &str) -> SvnItem {
    SvnItem::Word(s.to_string())
}

fn text(s: &str) -> SvnItem {
    SvnItem::String(s.as_bytes().to_vec())
}

fn number(n: u64) -> SvnItem {
    SvnItem::Number(n)
}

fn flag(b: bool) -> SvnItem {
    SvnItem::Bool(b)
}

fn list(items: Vec<SvnItem>) -> SvnItem {
    SvnItem::List(items)
}

fn none() -> SvnItem {
    SvnItem::List(Vec::new())
}

fn encode_line(item: &SvnItem) -> Vec<u8> {
    let mut out = Vec::new();
    encode_item_line(item, &mut out);
    out
}

fn command(name: &str, params: Vec<SvnItem>) -> SvnItem {
    list(vec![word(name), list(params)])
}

fn success(params: Vec<SvnItem>) -> SvnItem {
    command("success", params)
}

/// The item, after a way over the wire.
fn sent(item: &SvnItem) -> SvnItem {
    match read_item(&encode_line(item), 0) {
        ReadOutcome::Item(x, _) => x,
        other => panic!("{other:?}"),
    }
}

fn response(item: &SvnItem) -> CommandResponse {
    parse_command_response(&sent(item)).unwrap()
}

fn failure(code: u64, message: &str, file: &str, line: u64) -> SvnItem {
    list(vec![
        word("failure"),
        list(vec![list(vec![number(code), text(message), text(file), number(line)])]),
    ])
}

fn wrote(request: Result<SvnItem, SvnError>, expected: &SvnItem) {
    assert_eq!(encode_line(&request.unwrap()), encode_line(expected));
}

fn client() -> RaSvnClient {
    let url = SvnUrl::parse("svn://example.com/repo").unwrap();
    RaSvnClient::new(url, None, None)
        .with_ra_client("test-ra_svn")
        .with_read_timeout(Duration::from_secs(1))
        .with_write_timeout(Duration::from_secs(1))
}

/// A connection whose server has the given capabilities.
fn connection(caps: &[&str]) -> RaSvnConnection {
    let mut conn = RaSvnConnection::new(client().connection_config(false));
    let mut all = vec![word("edit-pipeline")];
    for cap in caps {
        all.push(word(cap));
    }
    let greeting = success(vec![number(2), number(2), none(), list(all)]);
    conn.accept_greeting(&response(&greeting)).unwrap();
    conn
}

/// A session that is connected to a server with the given capabilities.
fn connected_session(caps: &[&str]) -> RaSvnSession {
    let mut conn = connection(caps);
    let info = conn
        .finish_handshake(&response(&success(vec![
            text("uuid"),
            text("svn://example.com/repo"),
            none(),
        ])))
        .unwrap();
    let mut session = RaSvnSession::new(client(), true);
    session.connect(info);
    session
}

fn whole_tree_report() -> Report {
    Report {
        commands: vec![
            ReportCommand::SetPath {
                path: "".to_string(),
                rev: 0,
                start_empty: true,
                lock_token: None,
                depth: Depth::Infinity,
            },
            ReportCommand::FinishReport,
        ],
    }
}

/// The report is written as expected, and a drive that only closes is answered.
fn reports_and_closes() {
    let report = whole_tree_report();
    require_finish_report(&report).unwrap();
    let mut written = Vec::new();
    encode_report(&report, &mut written).unwrap();
    let mut expected = encode_line(&command(
        "set-path",
        vec![text(""), number(0), flag(true), none(), word("infinity")],
    ));
    expected.extend_from_slice(&encode_line(&command("finish-report", vec![])));
    assert_eq!(written, expected);
    closes(false);
}

fn closes(for_replay: bool) {
    let step = drive_step(&sent(&command("close-edit", vec![])), for_replay).unwrap();
    match step {
        DriveStep::Deliver(event, end) => {
            assert_eq!(event, EditorEvent::CloseEdit);
            match after_event(end, &Ok(())) {
                DriveAction::SendAndFinish(item) => {
                    assert_eq!(encode_line(&item), encode_line(&success(vec![])))
                }
                other => panic!("{other:?}"),
            }
        }
        other => panic!("{other:?}"),
    }
}

#[test]
fn open_session_with_stream_runs_handshake_and_disables_reconnect() {
    let mut conn = RaSvnConnection::new(client().connection_config(false));
    let greeting = success(vec![
        number(2),
        number(2),
        none(),
        list(vec![word("edit-pipeline"), word("svndiff1")]),
    ]);
    let expected = list(vec![
        number(2),
        list(vec![
            word("edit-pipeline"),
            word("svndiff1"),
            word("accepts-svndiff2"),
            word("absent-entries"),
            word("depth"),
            word("mergeinfo"),
            word("log-revprops"),
        ]),
        text("svn://example.com:3690/repo"),
        text("test-ra_svn"),
        none(),
    ]);
    wrote(conn.accept_greeting(&response(&greeting)), &expected);

    let auth_request = success(vec![none(), text("realm")]);
    assert!(auth_request_mechs(&response(&auth_request)).unwrap().is_none());

    let repos_info = success(vec![
        text("uuid"),
        text("svn://example.com/repo"),
        list(vec![word("mergeinfo")]),
    ]);
    let info = conn.finish_handshake(&response(&repos_info)).unwrap();

    let mut session = RaSvnSession::new(client(), false);
    session.connect(info);
    assert!(session.server_info().is_some());
    assert!(session.is_connected());

    let err = session.check_reconnect().unwrap_err();
    assert!(matches!(err, SvnError::Protocol(_)));
}

#[test]
fn update_drives_report_and_editor() {
    let options = UpdateOptions::new("", Depth::Infinity).without_copyfrom_args();
    let expected = command(
        "update",
        vec![none(), text(""), flag(true), word("infinity"), flag(false), flag(false)],
    );
    wrote(update_request(&options), &expected);
    reports_and_closes();
    succeeded(&response(&success(vec![])), "update").unwrap();
}

#[test]
fn switch_drives_report_and_editor() {
    let switch_url = SvnUrl::parse("svn://example.com/repo/branch").unwrap();
    let options = SwitchOptions::new("", &switch_url.url, Depth::Infinity).without_copyfrom_args();
    let expected = command(
        "switch",
        vec![
            none(),
            text(""),
            flag(true),
            text(&switch_url.url),
            word("infinity"),
            flag(false),
            flag(false),
        ],
    );
    wrote(switch_request(&options), &expected);
    reports_and_closes();
    succeeded(&response(&success(vec![])), "switch").unwrap();
}

#[test]
fn status_drives_report_and_editor() {
    let options = StatusOptions::new("", Depth::Infinity);
    let expected = command(
        "status",
        vec![text(""), flag(true), none(), word("infinity")],
    );
    wrote(status_request(&options), &expected);
    reports_and_closes();
    succeeded(&response(&success(vec![])), "status").unwrap();
}

#[test]
fn diff_drives_report_and_editor() {
    let versus_url = SvnUrl::parse("svn://example.com/repo/branch").unwrap().url;
    let options = DiffOptions::new("", &versus_url, Depth::Infinity);
    let expected = command(
        "diff",
        vec![
            none(),
            text(""),
            flag(true),
            flag(false),
            text(&versus_url),
            flag(true),
            word("infinity"),
        ],
    );
    wrote(diff_request(&options), &expected);
    reports_and_closes();
    succeeded(&response(&success(vec![])), "diff").unwrap();
}

#[test]
fn reports_must_be_finished() {
    let mut aborted = Report::new();
    aborted.push(ReportCommand::AbortReport);
    require_finish_report(&aborted).unwrap();
    let mut written = Vec::new();
    encode_report(&aborted, &mut written).unwrap();
    assert_eq!(written, encode_line(&command("abort-report", vec![])));
    assert!(matches!(
        require_finish_report(&Report::new()),
        Err(SvnError::Protocol(_))
    ));
}

#[test]
fn replay_range_emits_revprops_and_finish_replay() {
    let options = ReplayRangeOptions::new(1, 2);
    let expected = command(
        "replay-range",
        vec![number(1), number(2), number(0), flag(true)],
    );
    wrote(replay_range_request(&options), &expected);

    for author in ["alice", "bob"] {
        let revprops = command("revprops", vec![list(vec![text("svn:author"), text(author)])]);
        let props = replay_props(&sent(&revprops)).unwrap();
        assert_eq!(
            props.get("svn:author").map(|v| v.as_slice()),
            Some(author.as_bytes())
        );

        match drive_step(&sent(&command("finish-replay", vec![])), true).unwrap() {
            DriveStep::Deliver(event, end) => {
                assert_eq!(event, EditorEvent::FinishReplay);
                assert!(matches!(after_event(end, &Ok(())), DriveAction::Finish));
            }
            other => panic!("{other:?}"),
        }
    }
    succeeded(&response(&success(vec![])), "replay-range").unwrap();
}

#[test]
fn get_file_with_iprops_uses_get_iprops_command() {
    let expected_get_file = command(
        "get-file",
        vec![
            text("trunk/file.txt"),
            list(vec![number(5)]),
            flag(false), // want-props
            flag(true),  // want-contents
            flag(false), // want-iprops (always false; use get-iprops)
        ],
    );
    wrote(get_file_request("trunk/file.txt", 5, false), &expected_get_file);
    let meta = get_file_answer(&response(&success(vec![none(), number(5), none()]))).unwrap();
    assert_eq!(meta.rev, 5);

    let mut collector = FileTextCollector::new(1024);
    let chunk = collector.take(&sent(&text("data"))).unwrap();
    assert_eq!(chunk, Some(b"data".to_vec()));
    assert_eq!(collector.take(&sent(&text(""))).unwrap(), None);
    assert_eq!(collector.written(), 4);
    let result = collector.finish(meta, &response(&success(vec![]))).unwrap();
    assert_eq!(result.rev, 5);
    assert_eq!(result.bytes_written, 4);

    let session = connected_session(&["inherited-props"]);
    assert!(session.has_capability(Capability::InheritedProps));
    assert!(session.asks_inherited(true));
    assert!(!session.asks_inherited(false));
    assert!(!connected_session(&[]).asks_inherited(true));
    let expected_get_iprops = command(
        "get-iprops",
        vec![text("trunk/file.txt"), list(vec![number(5)])],
    );
    wrote(
        inherited_props_request("trunk/file.txt", Some(5)),
        &expected_get_iprops,
    );
    let props = inherited_props_answer(&response(&success(vec![list(vec![list(vec![
        text("/"),
        list(vec![list(vec![text("p"), text("v")])]),
    ])])])))
    .unwrap();
    assert_eq!(props.len(), 1);
    assert_eq!(props[0].path, "/");
    assert_eq!(props[0].props.get("p").unwrap(), b"v");
}

#[test]
fn files_beyond_the_limit_are_refused() {
    let mut collector = FileTextCollector::new(5);
    collector.take(&text("data")).unwrap();
    match collector.take(&text("12")) {
        Err(SvnError::Protocol(m)) => assert_eq!(m, "downloaded file exceeds limit 5"),
        other => panic!("{other:?}"),
    }
}

#[test]
fn get_latest_rev_sends_command_and_parses_response() {
    wrote(Ok(get_latest_rev_request()), &command("get-latest-rev", vec![]));
    let rev = get_latest_rev_answer(&response(&success(vec![number(42)]))).unwrap();
    assert_eq!(rev, 42);
}

#[test]
fn get_dated_rev_sends_command_and_parses_response() {
    wrote(
        Ok(get_dated_rev_request("2025-01-01T00:00:00Z")),
        &command("get-dated-rev", vec![text("2025-01-01T00:00:00Z")]),
    );
    let rev = get_dated_rev_answer(&response(&success(vec![number(7)]))).unwrap();
    assert_eq!(rev, 7);
}

#[test]
fn rev_proplist_and_rev_prop_round_trip() {
    wrote(
        Ok(rev_proplist_request(5)),
        &command("rev-proplist", vec![number(5)]),
    );
    let props = rev_proplist_answer(&response(&success(vec![list(vec![list(vec![
        text("p"),
        text("v"),
    ])])])))
    .unwrap();
    assert_eq!(props.get("p").unwrap().as_slice(), b"v");

    wrote(
        Ok(rev_prop_request(5, "svn:log")),
        &command("rev-prop", vec![number(5), text("svn:log")]),
    );
    let value = rev_prop_answer(&response(&success(vec![list(vec![text("hello")])]))).unwrap();
    assert_eq!(value.as_deref(), Some(b"hello".as_slice()));

    let value = rev_prop_answer(&response(&success(vec![none()]))).unwrap();
    assert_eq!(value, None);
}

#[test]
fn check_path_sends_command_and_parses_kind() {
    wrote(
        check_path_request("trunk/file.txt", Some(2)),
        &command("check-path", vec![text("trunk/file.txt"), list(vec![number(2)])]),
    );
    let kind = check_path_answer(&response(&success(vec![word("file")]))).unwrap();
    assert_eq!(kind, NodeKind::File);
}

fn all_fields() -> SvnItem {
    list(vec![
        word("kind"),
        word("size"),
        word("has-props"),
        word("created-rev"),
        word("time"),
        word("last-author"),
    ])
}

fn expected_get_dir(path: &str) -> SvnItem {
    command(
        "get-dir",
        vec![
            text(path),
            none(),
            flag(false), // want-props
            flag(true),  // want-contents
            all_fields(),
            flag(false), // want-iprops (always false; use get-iprops)
        ],
    )
}

#[test]
fn list_dir_sends_expected_get_dir_params_and_parses_entries() {
    wrote(
        list_dir_request("trunk", None, &listing_fields()),
        &expected_get_dir("trunk"),
    );
    let listing = list_dir_answer(
        "trunk",
        &response(&success(vec![
            number(9),
            none(),
            list(vec![list(vec![
                text("file.txt"),
                word("file"),
                number(3),
                flag(false),
                number(9),
            ])]),
        ])),
    )
    .unwrap();
    assert_eq!(listing.rev, 9);
    assert_eq!(listing.entries.len(), 1);
    assert_eq!(listing.entries[0].name, "file.txt");
    assert_eq!(listing.entries[0].path, "trunk/file.txt");
    assert_eq!(listing.entries[0].kind, NodeKind::File);
    assert_eq!(listing.entries[0].size, Some(3));
}

#[test]
fn list_sends_patterns_and_reads_dirents_until_done() {
    let expected = command(
        "list",
        vec![
            text("trunk"),
            none(),
            word("infinity"),
            list(vec![word("kind")]),
            list(vec![text("*.rs")]),
        ],
    );
    let patterns = vec![String::from("*.rs")];
    let fields = [DirentField::Kind];
    wrote(
        list_request("trunk", None, Depth::Infinity, &fields, &patterns),
        &expected,
    );

    let mut collector = ListCollector::new();
    let dirent = list(vec![text("trunk/main.rs"), word("file")]);
    assert!(!collector.take(&sent(&dirent)).unwrap());
    assert!(collector.take(&sent(&word("done"))).unwrap());
    let entries = collector.finish(&response(&success(vec![]))).unwrap();
    assert_eq!(entries.len(), 1);
    assert_eq!(entries[0].path, "trunk/main.rs");
    assert_eq!(entries[0].name, "main.rs");
    assert_eq!(entries[0].kind, NodeKind::File);
}

#[test]
fn list_recursive_falls_back_to_get_dir_when_list_cap_missing() {
    let conn = connection(&[]);
    assert!(!conn.server_has_cap("list"));

    let entry = |name: &str, kind: &str, size: u64| {
        list(vec![text(name), word(kind), number(size), flag(false), number(9)])
    };
    let mut walk = ListWalk::start("trunk").unwrap();

    let dir = walk.next().unwrap();
    wrote(
        list_dir_request(&dir, None, &listing_fields()),
        &expected_get_dir("trunk"),
    );
    let answer = success(vec![
        number(9),
        none(),
        list(vec![entry("sub", "dir", 0), entry("a.txt", "file", 1)]),
    ]);
    walk.take(list_dir_answer(&dir, &response(&answer)).unwrap());

    let dir = walk.next().unwrap();
    wrote(
        list_dir_request(&dir, None, &listing_fields()),
        &expected_get_dir("trunk/sub"),
    );
    let answer = success(vec![number(9), none(), list(vec![entry("b.txt", "file", 2)])]);
    walk.take(list_dir_answer(&dir, &response(&answer)).unwrap());

    assert!(walk.next().is_none());
    let mut entries = walk.finish();
    entries.sort_by(|a, b| a.path.cmp(&b.path));
    assert_eq!(entries.len(), 3);
    assert_eq!(entries[0].path, "trunk/a.txt");
    assert_eq!(entries[1].path, "trunk/sub");
    assert_eq!(entries[2].path, "trunk/sub/b.txt");
}

#[test]
fn list_recursive_uses_list_capability_when_available() {
    let conn = connection(&["list"]);
    assert!(conn.server_has_cap("list"));

    let expected = command(
        "list",
        vec![text("trunk"), none(), word("infinity"), all_fields()],
    );
    wrote(
        list_request("trunk", None, Depth::Infinity, &listing_fields(), &[]),
        &expected,
    );

    let mut collector = ListCollector::new();
    let dirent = list(vec![
        text("trunk/main.rs"),
        word("file"),
        number(3),
        flag(false),
        number(9),
    ]);
    assert!(!collector.take(&sent(&dirent)).unwrap());
    assert!(collector.take(&sent(&word("done"))).unwrap());
    let entries = collector.finish(&response(&success(vec![]))).unwrap();
    assert_eq!(entries.len(), 1);
    assert_eq!(entries[0].path, "trunk/main.rs");
    assert_eq!(entries[0].kind, NodeKind::File);
}

#[test]
fn stat_returns_none_when_check_path_reports_none() {
    wrote(
        stat_request("trunk/missing.txt", None),
        &command("stat", vec![text("trunk/missing.txt"), none()]),
    );
    let stat = stat_answer(&response(&success(vec![]))).unwrap();
    assert_eq!(stat, None);

    wrote(
        check_path_request("trunk/missing.txt", None),
        &command("check-path", vec![text("trunk/missing.txt"), none()]),
    );
    let kind = check_path_answer(&response(&success(vec![word("none")]))).unwrap();
    assert_eq!(stat_from_kind(kind), None);
    assert_eq!(stat_from_kind(NodeKind::Dir).unwrap().kind, NodeKind::Dir);
}

#[test]
fn get_mergeinfo_sends_command_and_parses_catalog() {
    let paths = vec![String::from("trunk")];
    wrote(
        get_mergeinfo_request(&paths, None, MergeInfoInheritance::Explicit, false),
        &command(
            "get-mergeinfo",
            vec![list(vec![text("trunk")]), none(), word("explicit"), flag(false)],
        ),
    );
    let out = get_mergeinfo_answer(&response(&success(vec![list(vec![list(vec![
        text("/trunk"),
        text("/trunk:1-2"),
    ])])])))
    .unwrap();
    assert_eq!(out.get("trunk").map(String::as_str), Some("/trunk:1-2"));
}

#[test]
fn get_locations_reads_entries_until_done() {
    let revs = [1u64, 2u64];
    wrote(
        get_locations_request("trunk/file.txt", 9, &revs),
        &command(
            "get-locations",
            vec![text("trunk/file.txt"), number(9), list(vec![number(1), number(2)])],
        ),
    );
    let mut collector = LocationCollector::new();
    let entry = list(vec![number(1), text("/trunk/file.txt")]);
    assert!(!collector.take(&sent(&entry)).unwrap());
    assert!(collector.take(&sent(&word("done"))).unwrap());
    let entries = collector.finish(&response(&success(vec![]))).unwrap();
    assert_eq!(entries.len(), 1);
    assert_eq!(entries[0].rev, 1);
    assert_eq!(entries[0].path, "trunk/file.txt");
}

#[test]
fn get_location_segments_reads_entries_until_done() {
    wrote(
        get_location_segments_request("trunk/file.txt", 9, None, None),
        &command(
            "get-location-segments",
            vec![text("trunk/file.txt"), list(vec![number(9)]), none(), none()],
        ),
    );
    let mut collector = SegmentCollector::new();
    let entry = list(vec![number(1), number(2), text("/trunk/file.txt")]);
    assert!(!collector.take(&sent(&entry)).unwrap());
    assert!(collector.take(&sent(&word("done"))).unwrap());
    let segments = collector.finish(&response(&success(vec![]))).unwrap();
    assert_eq!(segments.len(), 1);
    assert_eq!(segments[0].range_start, 1);
    assert_eq!(segments[0].range_end, 2);
    assert_eq!(segments[0].path.as_deref(), Some("/trunk/file.txt"));
}

#[test]
fn get_file_revs_reads_entries_and_delta_chunks() {
    wrote(
        get_file_revs_request("trunk/file.txt", Some(1), Some(2), false),
        &command(
            "get-file-revs",
            vec![
                text("trunk/file.txt"),
                list(vec![number(1)]),
                list(vec![number(2)]),
                flag(false),
            ],
        ),
    );
    let mut collector = FileRevCollector::new();
    let entry = list(vec![
        text("/trunk/file.txt"),
        number(2),
        list(vec![list(vec![text("svn:author"), text("alice")])]),
        none(),
    ]);
    assert!(!collector.take(&sent(&entry)).unwrap());
    assert!(!collector.take(&sent(&text("delta"))).unwrap());
    assert!(!collector.take(&sent(&text(""))).unwrap());
    assert!(collector.take(&sent(&word("done"))).unwrap());
    let revs = collector.finish(&response(&success(vec![]))).unwrap();
    assert_eq!(revs.len(), 1);
    assert_eq!(revs[0].path, "trunk/file.txt");
    assert_eq!(revs[0].rev, 2);
    assert_eq!(revs[0].rev_props.get("svn:author").unwrap(), b"alice");
    assert_eq!(revs[0].delta_chunks, vec![b"delta".to_vec()]);
}

#[test]
fn get_deleted_rev_returns_none_on_missing_revision_failure() {
    wrote(
        get_deleted_rev_request("trunk/file.txt", 5, 7),
        &command(
            "get-deleted-rev",
            vec![text("trunk/file.txt"), number(5), number(7)],
        ),
    );
    let missing = failure(123, "missing revision", "", 0);
    assert_eq!(get_deleted_rev_answer(&response(&missing)).unwrap(), None);

    let found = success(vec![number(9)]);
    assert_eq!(get_deleted_rev_answer(&response(&found)).unwrap(), Some(9));
}

#[test]
fn get_lock_and_get_locks_parse_lockdesc() {
    let lockdesc = list(vec![
        text("/trunk/file.txt"),
        text("token"),
        text("alice"),
        none(),
        text("2025-01-01"),
    ]);

    wrote(
        get_lock_request("trunk/file.txt"),
        &command("get-lock", vec![text("trunk/file.txt")]),
    );
    let lock = get_lock_answer(&response(&success(vec![list(vec![lockdesc.clone()])])))
        .unwrap()
        .unwrap();
    assert_eq!(lock.path, "trunk/file.txt");
    assert_eq!(lock.owner, "alice");
    assert_eq!(lock.token, "token");

    wrote(
        get_locks_request("trunk", Depth::Infinity),
        &command("get-locks", vec![text("trunk"), list(vec![word("infinity")])]),
    );
    let locks = get_locks_answer(&response(&success(vec![list(vec![lockdesc])]))).unwrap();
    assert_eq!(locks.len(), 1);
    assert_eq!(locks[0].path, "trunk/file.txt");
}

#[test]
fn replay_sends_command_and_drives_editor() {
    let options = ReplayOptions::new(5);
    wrote(
        Ok(replay_request(&options)),
        &command("replay", vec![number(5), number(0), flag(true)]),
    );
    closes(true);
    succeeded(&response(&success(vec![])), "replay").unwrap();
}

#[test]
fn reparent_sends_command_and_updates_base_url() {
    let mut session = connected_session(&[]);
    let new_url = SvnUrl::parse("svn://example.com/repo/branch").unwrap();
    wrote(
        reparent_request(session.client().base_url(), &new_url),
        &command("reparent", vec![text(&new_url.url)]),
    );
    succeeded(&response(&success(vec![])), "reparent").unwrap();
    session.set_base_url(new_url.clone());
    assert_eq!(session.client().base_url(), &new_url);
}

#[test]
fn proplist_file_uses_get_file_without_extra_params() {
    wrote(
        check_path_request("trunk/file.txt", Some(5)),
        &command("check-path", vec![text("trunk/file.txt"), list(vec![number(5)])]),
    );
    let kind = check_path_answer(&response(&success(vec![word("file")]))).unwrap();
    let expected_get_file = command(
        "get-file",
        vec![
            text("trunk/file.txt"),
            list(vec![number(5)]),
            flag(true),  // want-props
            flag(false), // want-contents
            flag(false), // want-iprops (always false; use get-iprops)
        ],
    );
    match plan_proplist("trunk/file.txt", Some(5), kind).unwrap() {
        ProplistPlan::File(item) => wrote(Ok(item), &expected_get_file),
        _ => panic!("not asked for as a file"),
    }
    let props = get_file_props_answer(&response(&success(vec![
        none(),
        number(5),
        list(vec![list(vec![text("p"), text("v")])]),
    ])))
    .unwrap();
    assert_eq!(props.get("p").unwrap().as_slice(), b"v");
}

#[test]
fn proplist_dir_sends_dirent_fields_placeholder() {
    wrote(
        check_path_request("trunk", Some(5)),
        &command("check-path", vec![text("trunk"), list(vec![number(5)])]),
    );
    let kind = check_path_answer(&response(&success(vec![word("dir")]))).unwrap();
    let expected_get_dir = command(
        "get-dir",
        vec![
            text("trunk"),
            list(vec![number(5)]),
            flag(true),  // want-props
            flag(false), // want-contents
            none(),
            flag(false), // want-iprops (always false; use get-iprops)
        ],
    );
    match plan_proplist("trunk", Some(5), kind).unwrap() {
        ProplistPlan::Dir(item) => wrote(Ok(item), &expected_get_dir),
        _ => panic!("not asked for as a directory"),
    }
    let props = get_dir_props_answer(&response(&success(vec![
        number(5),
        list(vec![list(vec![text("p"), text("v")])]),
        none(),
    ])))
    .unwrap();
    assert_eq!(props.get("p").unwrap().as_slice(), b"v");
}

#[test]
fn the_path_of_a_proplist_is_that_of_a_directory_first() {
    let asked = |path: &str, kind: NodeKind| match plan_proplist(path, None, kind) {
        Ok(ProplistPlan::File(item)) | Ok(ProplistPlan::Dir(item)) => item,
        _ => panic!("not asked"),
    };
    wrote(
        Ok(asked("/ a", NodeKind::File)),
        &command(
            "get-file",
            vec![text("a"), none(), flag(true), flag(false), flag(false)],
        ),
    );
    wrote(
        Ok(asked("/ a", NodeKind::Dir)),
        &command(
            "get-dir",
            vec![text(" a"), none(), flag(true), flag(false), none(), flag(false)],
        ),
    );
    assert!(matches!(
        plan_proplist("a/../b", None, NodeKind::Missing),
        Err(SvnError::InvalidPath(_))
    ));
    assert!(matches!(
        plan_proplist("/", None, NodeKind::File),
        Err(SvnError::InvalidPath(_))
    ));
    assert!(matches!(
        plan_proplist("a", None, NodeKind::Missing),
        Ok(ProplistPlan::Missing)
    ));
}

#[test]
fn get_file_revs_errors_on_empty_result() {
    wrote(
        get_file_revs_request("trunk/file.txt", None, None, false),
        &command(
            "get-file-revs",
            vec![text("trunk/file.txt"), none(), none(), flag(false)],
        ),
    );
    let mut collector = FileRevCollector::new();
    assert!(collector.take(&sent(&word("done"))).unwrap());
    let err = collector.finish(&response(&success(vec![]))).unwrap_err();
    assert!(
        matches!(err, SvnError::Protocol(msg) if msg == "The get-file-revs command didn't return any revisions")
    );
}

#[test]
fn log_merges_requested_revprops_into_map() {
    let options = LogOptions {
        target_paths: vec!["trunk".to_string()],
        start_rev: Some(1),
        end_rev: Some(2),
        changed_paths: false,
        strict_node: true,
        limit: 0,
        include_merged_revisions: false,
        revprops: LogRevProps::Custom(vec!["svn:author".to_string(), "svn:custom".to_string()]),
    };
    let expected = command(
        "log",
        vec![
            list(vec![text("trunk")]),
            list(vec![number(1)]),
            list(vec![number(2)]),
            flag(false),
            flag(true),
            number(0),
            flag(false),
            word("revprops"),
            list(vec![text("svn:author"), text("svn:custom")]),
        ],
    );
    wrote(Ok(log_request(&options)), &expected);

    let log_entry_item = list(vec![
        none(),
        number(10),
        list(vec![text("alice")]),
        list(vec![text("2025-01-01")]),
        list(vec![text("msg")]),
        flag(false),
        flag(false),
        number(1),
        list(vec![list(vec![text("svn:custom"), text("x")])]),
        flag(false),
    ]);
    let mut collector = LogCollector::new(log_wants(&options.revprops));
    assert!(!collector.take(&sent(&log_entry_item)).unwrap());
    assert!(collector.take(&sent(&word("done"))).unwrap());
    let entries = collector.finish(&response(&success(vec![]))).unwrap();
    assert_eq!(entries.len(), 1);
    let entry = &entries[0];
    assert_eq!(entry.rev, 10);
    assert_eq!(entry.author.as_deref(), Some("alice"));
    assert_eq!(entry.date.as_deref(), Some("2025-01-01"));
    assert_eq!(entry.message.as_deref(), Some("msg"));
    assert_eq!(entry.rev_props.get("svn:custom").unwrap(), b"x");
    assert_eq!(entry.rev_props.get("svn:author").unwrap(), b"alice");
    assert!(entry.rev_props.get("svn:date").is_none());
    assert!(entry.rev_props.get("svn:log").is_none());
}

#[test]
fn change_rev_prop_encodes_optional_value() {
    wrote(
        Ok(change_rev_prop_request(9, "svn:log", &Some(b"msg".to_vec()))),
        &command("change-rev-prop", vec![number(9), text("svn:log"), text("msg")]),
    );
    wrote(
        Ok(change_rev_prop_request(9, "svn:log", &None)),
        &command("change-rev-prop", vec![number(9), text("svn:log")]),
    );
    succeeded(&response(&success(vec![])), "change-rev-prop").unwrap();
}

#[test]
fn change_rev_prop2_encodes_value_tuple_and_conditional() {
    wrote(
        change_rev_prop2_request(
            9,
            "svn:log",
            &Some(b"new".to_vec()),
            false,
            &Some(b"old".to_vec()),
        ),
        &command(
            "change-rev-prop2",
            vec![
                number(9),
                text("svn:log"),
                list(vec![text("new")]),
                list(vec![flag(false), text("old")]),
            ],
        ),
    );
    succeeded(&response(&success(vec![])), "change-rev-prop2").unwrap();
}

#[test]
fn atomic_changes_need_a_server_that_knows_them() {
    check_atomic_revprops(false, false).unwrap();
    check_atomic_revprops(true, true).unwrap();
    assert!(matches!(
        check_atomic_revprops(true, false),
        Err(SvnError::Protocol(_))
    ));
}

#[test]
fn lock_does_not_drop_connection_on_server_failure() {
    let mut session = connected_session(&[]);
    wrote(
        lock_request("trunk/a.txt", &LockOptions::new()),
        &command("lock", vec![text("trunk/a.txt"), none(), flag(false), none()]),
    );
    let err = lock_answer(&response(&failure(123, "lock denied", "file", 1))).unwrap_err();
    assert!(matches!(err, SvnError::Server(_)));
    session.note_failure(&err);
    assert!(session.is_connected());

    session.note_failure(&SvnError::Protocol("garbled".to_string()));
    assert!(!session.is_connected());
}

#[test]
fn lock_and_unlock_round_trip() {
    wrote(
        lock_request(
            "trunk/a.txt",
            &LockOptions::new().with_comment("hi").with_current_rev(12),
        ),
        &command(
            "lock",
            vec![
                text("trunk/a.txt"),
                list(vec![text("hi")]),
                flag(false),
                list(vec![number(12)]),
            ],
        ),
    );
    let lockdesc = list(vec![
        text("/trunk/a.txt"),
        text("t0"),
        text("alice"),
        list(vec![text("hi")]),
        text("2025-01-01"),
        none(),
    ]);
    let lock = lock_answer(&response(&success(vec![lockdesc]))).unwrap();
    assert_eq!(lock.path, "trunk/a.txt");
    assert_eq!(lock.token, "t0");
    assert_eq!(lock.owner, "alice");
    assert_eq!(lock.comment.as_deref(), Some("hi"));

    wrote(
        unlock_request("trunk/a.txt", &UnlockOptions::new().with_token("t0")),
        &command(
            "unlock",
            vec![text("trunk/a.txt"), list(vec![text("t0")]), flag(false)],
        ),
    );
    succeeded(&response(&success(vec![])), "unlock").unwrap();
}

fn lock_of(path: &str, token: &str) -> SvnItem {
    list(vec![text(path), text(token), text("alice"), none(), text("2025-01-01")])
}

#[test]
fn lock_many_and_unlock_many_stream_results() {
    let targets = [
        LockTarget::new("trunk/a.txt").with_current_rev(1),
        LockTarget::new("trunk/b.txt"),
    ];
    wrote(
        lock_many_request(&LockManyOptions::new().steal_lock(), &targets),
        &command(
            "lock-many",
            vec![
                none(),
                flag(true),
                list(vec![
                    list(vec![text("trunk/a.txt"), list(vec![number(1)])]),
                    list(vec![text("trunk/b.txt"), none()]),
                ]),
            ],
        ),
    );
    let denied = failure(123, "lock denied", "file", 1);
    let mut collector = LockManyCollector::new(2);
    let locked = success(vec![lock_of("trunk/a.txt", "t1")]);
    assert_eq!(collector.take(&sent(&locked)).unwrap(), ManyStep::More);
    assert_eq!(collector.take(&sent(&denied)).unwrap(), ManyStep::More);
    assert_eq!(collector.take(&sent(&word("done"))).unwrap(), ManyStep::Done);
    let lock_results = collector.finish(&response(&success(vec![]))).unwrap();
    assert_eq!(lock_results.len(), 2);
    assert_eq!(lock_results[0].as_ref().unwrap().token, "t1");
    assert!(matches!(lock_results[1], Err(SvnError::Server(_))));

    let targets = [
        UnlockTarget::new("trunk/a.txt").with_token("t1"),
        UnlockTarget::new("trunk/b.txt"),
    ];
    wrote(
        unlock_many_request(&UnlockManyOptions::new(), &targets),
        &command(
            "unlock-many",
            vec![
                flag(false),
                list(vec![
                    list(vec![text("trunk/a.txt"), list(vec![text("t1")])]),
                    list(vec![text("trunk/b.txt"), none()]),
                ]),
            ],
        ),
    );
    let mut collector = UnlockManyCollector::new(2);
    let unlocked = success(vec![text("/trunk/a.txt")]);
    assert_eq!(collector.take(&sent(&unlocked)).unwrap(), ManyStep::More);
    assert_eq!(collector.take(&sent(&denied)).unwrap(), ManyStep::More);
    assert_eq!(collector.take(&sent(&word("done"))).unwrap(), ManyStep::Done);
    let unlock_results = collector.finish(&response(&success(vec![]))).unwrap();
    assert_eq!(unlock_results.len(), 2);
    assert_eq!(unlock_results[0].as_ref().unwrap(), "trunk/a.txt");
    assert!(matches!(unlock_results[1], Err(SvnError::Server(_))));
}

#[test]
fn lock_many_falls_back_to_lock_when_unsupported() {
    let options = LockManyOptions::new().with_comment("hi").steal_lock();
    let targets = [
        LockTarget::new("trunk/a.txt").with_current_rev(1),
        LockTarget::new("trunk/b.txt"),
    ];
    wrote(
        lock_many_request(&options, &targets),
        &command(
            "lock-many",
            vec![
                list(vec![text("hi")]),
                flag(true),
                list(vec![
                    list(vec![text("trunk/a.txt"), list(vec![number(1)])]),
                    list(vec![text("trunk/b.txt"), none()]),
                ]),
            ],
        ),
    );
    let unknown = failure(999, "Unknown command", "file", 1);
    let mut collector = LockManyCollector::new(2);
    assert_eq!(
        collector.take(&sent(&unknown)).unwrap(),
        ManyStep::Unsupported
    );

    let singles = lock_one_by_one(&options, &targets);
    assert_eq!(singles.len(), 2);
    wrote(
        lock_request(&singles[0].0, &singles[0].1),
        &command(
            "lock",
            vec![
                text("trunk/a.txt"),
                list(vec![text("hi")]),
                flag(true),
                list(vec![number(1)]),
            ],
        ),
    );
    let lock = lock_answer(&response(&success(vec![lock_of("trunk/a.txt", "t1")]))).unwrap();
    assert_eq!(lock.token, "t1");
    wrote(
        lock_request(&singles[1].0, &singles[1].1),
        &command(
            "lock",
            vec![text("trunk/b.txt"), list(vec![text("hi")]), flag(true), none()],
        ),
    );
    let lock = lock_answer(&response(&success(vec![lock_of("trunk/b.txt", "t2")]))).unwrap();
    assert_eq!(lock.token, "t2");
}

#[test]
fn unlock_many_falls_back_to_unlock_when_unsupported() {
    let options = UnlockManyOptions::new().break_lock();
    let targets = [
        UnlockTarget::new("trunk/a.txt").with_token("t1"),
        UnlockTarget::new("trunk/b.txt"),
    ];
    wrote(
        unlock_many_request(&options, &targets),
        &command(
            "unlock-many",
            vec![
                flag(true),
                list(vec![
                    list(vec![text("trunk/a.txt"), list(vec![text("t1")])]),
                    list(vec![text("trunk/b.txt"), none()]),
                ]),
            ],
        ),
    );
    let unknown = failure(999, "Unknown command", "file", 1);
    let mut collector = UnlockManyCollector::new(2);
    assert_eq!(
        collector.take(&sent(&unknown)).unwrap(),
        ManyStep::Unsupported
    );

    let singles = unlock_one_by_one(&options, &targets).unwrap();
    assert_eq!(singles.len(), 2);
    assert_eq!(singles[0].0, "trunk/a.txt");
    wrote(
        unlock_request(&singles[0].0, &singles[0].1),
        &command(
            "unlock",
            vec![text("trunk/a.txt"), list(vec![text("t1")]), flag(true)],
        ),
    );
    assert_eq!(singles[1].0, "trunk/b.txt");
    wrote(
        unlock_request(&singles[1].0, &singles[1].1),
        &command("unlock", vec![text("trunk/b.txt"), none(), flag(true)]),
    );
    succeeded(&response(&success(vec![])), "unlock").unwrap();
}

#[test]
fn too_many_and_too_few_results_are_refused() {
    let locked = success(vec![lock_of("trunk/a.txt", "t1")]);
    let mut collector = LockManyCollector::new(1);
    assert_eq!(collector.take(&locked).unwrap(), ManyStep::More);
    match collector.take(&locked) {
        Err(SvnError::Protocol(m)) => {
            assert_eq!(m, "lock-many returned more results than targets")
        }
        other => panic!("{other:?}"),
    }

    let mut collector = UnlockManyCollector::new(2);
    assert_eq!(
        collector.take(&success(vec![text("a")])).unwrap(),
        ManyStep::More
    );
    assert_eq!(collector.take(&word("done")).unwrap(), ManyStep::Done);
    match collector.finish(&response(&success(vec![]))) {
        Err(SvnError::Protocol(m)) => {
            assert_eq!(m, "unlock-many returned 1 results for 2 targets")
        }
        other => panic!("{other:?}"),
    }
}

#[test]
fn only_a_first_unknown_command_means_unsupported() {
    let unknown = failure(999, "Unknown command", "file", 1);
    let err = lock_answer(&response(&unknown)).unwrap_err();
    assert!(is_unknown_command_error(&err));

    let mut collector = LockManyCollector::new(2);
    let locked = success(vec![lock_of("trunk/a.txt", "t1")]);
    assert_eq!(collector.take(&locked).unwrap(), ManyStep::More);
    assert_eq!(collector.take(&unknown).unwrap(), ManyStep::More);
}

#[test]
fn commit_sends_editor_commands_and_parses_commit_info() {
    let options = CommitOptions::new("msg");
    let commands = vec![
        EditorCommand::OpenRoot {
            rev: Some(1),
            token: "root".to_string(),
        },
        EditorCommand::CloseEdit,
    ];
    check_commit_commands(&commands).unwrap();
    let expected_commit = command(
        "commit",
        vec![
            text("msg"),
            none(),
            flag(false),
            list(vec![list(vec![text("svn:log"), text("msg")])]),
        ],
    );
    wrote(
        commit_request(&options, "test-ra_svn", false, false),
        &expected_commit,
    );

    let mut batch = CommitBatch::new();
    let mut written = Vec::new();
    for c in &commands {
        written.extend_from_slice(&batch.add(c).unwrap());
    }
    written.extend_from_slice(&batch.finish());
    let mut expected = encode_line(&command(
        "open-root",
        vec![list(vec![number(1)]), text("root")],
    ));
    expected.extend_from_slice(&encode_line(&command("close-edit", vec![])));
    assert_eq!(written, expected);

    let commit_info = list(vec![
        number(5),
        list(vec![text("2025-01-01")]),
        list(vec![text("alice")]),
    ]);
    let info = parse_commit_info(&sent(&commit_info)).unwrap();
    assert_eq!(info.new_rev, 5);
    assert_eq!(info.date.as_deref(), Some("2025-01-01"));
    assert_eq!(info.author.as_deref(), Some("alice"));
    assert_eq!(info.post_commit_err.as_deref(), None);
}

#[test]
fn commits_must_end_with_close_edit() {
    assert!(matches!(check_commit_commands(&[]), Err(SvnError::Protocol(_))));
    let open = EditorCommand::OpenRoot {
        rev: None,
        token: "d0".to_string(),
    };
    assert!(matches!(
        check_commit_commands(&[open]),
        Err(SvnError::Protocol(_))
    ));
}

#[test]
fn sessions_try_again_after_broken_connections_only() {
    let broken = SvnError::Io(IoErrorKind::ConnectionReset, "reset".to_string());
    let server = SvnError::Server(ServerError {
        context: None,
        chain: Vec::new(),
    });
    assert!(should_drop_connection(&broken));
    assert!(is_retryable_error(&broken));
    assert!(!should_drop_connection(&server));
    assert!(!is_retryable_error(&server));

    let session = connected_session(&[]);
    assert!(session.retries(0, &broken));
    assert!(!session.retries(1, &broken));
    assert!(!session.retries(0, &server));
    assert!(session.retries_file(0, 0, &broken));
    assert!(!session.retries_file(1, 0, &broken));
    assert!(!session.retries_file(0, 4, &broken));
    assert!(!session.retries_file(0, 0, &server));
    assert_eq!(session.repos_uuid(), Some("uuid"));
    assert_eq!(session.repos_root_url(), Some("svn://example.com/repo"));
}

#[test]
fn no_locks_mean_nothing_to_send() {
    assert_eq!(lock_many_start(&LockManyOptions::new(), &[]).unwrap(), None);
    assert_eq!(unlock_many_start(&UnlockManyOptions::new(), &[]).unwrap(), None);
    let target = UnlockTarget::new("/a");
    let request = unlock_many_request(&UnlockManyOptions::new(), &[target.clone()]).unwrap();
    assert_eq!(
        unlock_many_start(&UnlockManyOptions::new(), &[target]).unwrap(),
        Some(request)
    );
    let bad = LockTarget::new("../a");
    assert!(lock_many_start(&LockManyOptions::new(), &[bad]).is_err());
}

#[test]
fn every_revision_of_a_range_is_replayed() {
    let mut walk = ReplayWalk::start(&ReplayRangeOptions::new(5, 7));
    for _rev in 0..3 {
        assert!(walk.has_next());
        walk.finish_rev(false).unwrap();
    }
    assert!(!walk.has_next());
    let mut last = ReplayWalk::start(&ReplayRangeOptions::new(u64::MAX, u64::MAX));
    match last.finish_rev(true) {
        Err(SvnError::Protocol(m)) => assert_eq!(m, "error while replaying commit"),
        other => panic!("{other:?}"),
    }
    assert!(last.has_next());
    last.finish_rev(false).unwrap();
    assert!(!last.has_next());
    assert!(!ReplayWalk::start(&ReplayRangeOptions::new(2, 1)).has_next());
}

#[test]
fn a_file_whose_answer_is_a_failure_is_refused() {
    let meta = get_file_answer(&response(&success(vec![none(), number(5), none()]))).unwrap();
    let collector = FileTextCollector::new(10);
    let r = collector.finish(meta, &response(&failure(160013, "gone", "", 0)));
    assert!(matches!(r, Err(SvnError::Server(_))));
}

#[test]
fn a_revision_is_replayed_only_with_its_properties() {
    match replay_props(&command("nothing", vec![])) {
        Err(SvnError::Protocol(m)) => assert_eq!(m, "expected revprops, found 'nothing'"),
        other => panic!("{other:?}"),
    }
    assert!(matches!(
        replay_props(&failure(1, "no", "", 0)),
        Err(SvnError::Server(_))
    ));
    assert!(matches!(
        replay_range_request(&ReplayRangeOptions::new(3, 2)),
        Err(SvnError::Protocol(_))
    ));
}
