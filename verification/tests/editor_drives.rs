use svn::edit::{
    after_event, drive_step, editor_command_item, encode_editor_command, encode_report, ends_drain,
    ends_drain_quietly, failure_item, is_abort_edit, parse_editor_event, DriveAction, DriveStep,
};
use svn::keymap::KeyMap;
use svn::raw::SvnItem;
use svn::types::Depth;
use svn::wire::encode_item_line;
use svn::{EditorCommand, EditorEvent, EditorEventHandler, Report, ReportCommand, SvnError};

fn word(s: &str) -> SvnItem {
    SvnItem::Word(s.to_string())
}

fn text(s: &str) -> SvnItem {
    SvnItem::String(s.as_bytes().to_vec())
}

fn list(items: Vec<SvnItem>) -> SvnItem {
    SvnItem::List(items)
}

fn encode_line(item: &SvnItem) -> Vec<u8> {
    let mut out = Vec::new();
    encode_item_line(item, &mut out);
    out
}

/// Takes the commands of a server one by one: what is sent back, and whether the drive
/// was broken off.
fn drive(
    from_server: Vec<SvnItem>,
    handler: &mut dyn EditorEventHandler,
    for_replay: bool,
) -> Result<(Vec<SvnItem>, bool), SvnError> {
    let mut sent = Vec::new();
    let mut left = from_server.into_iter();
    loop {
        let item = left.next().unwrap();
        let action = match drive_step(&item, for_replay)? {
            DriveStep::Refuse(e) => DriveAction::SendAndBreakOff {
                item: failure_item(&e),
                drain: true,
            },
            DriveStep::Deliver(event, end) => after_event(end, &handler.on_event(event)),
        };
        match action {
            DriveAction::Continue => {}
            DriveAction::Finish => return Ok((sent, false)),
            DriveAction::SendAndFinish(item) => {
                sent.push(item);
                return Ok((sent, false));
            }
            DriveAction::SendAndBreakOff { item, drain } => {
                sent.push(item);
                if drain {
                    while !ends_drain(&left.next().unwrap()) {}
                }
                return Ok((sent, true));
            }
        }
    }
}

struct Collector {
    events: Vec<EditorEvent>,
}

impl EditorEventHandler for Collector {
    fn on_event(&mut self, event: EditorEvent) -> Result<(), SvnError> {
        self.events.push(event);
        Ok(())
    }
}

struct Failer {
    at: EditorEvent,
}

impl EditorEventHandler for Failer {
    fn on_event(&mut self, event: EditorEvent) -> Result<(), SvnError> {
        if event == self.at {
            return Err(SvnError::Protocol("boom".into()));
        }
        Ok(())
    }
}

fn expected_failure() -> SvnItem {
    list(vec![
        word("failure"),
        list(vec![list(vec![
            SvnItem::Number(1),
            text("protocol error: boom"),
            SvnItem::String(Vec::new()),
            SvnItem::Number(0),
        ])]),
    ])
}

#[test]
fn send_report_writes_expected_commands() {
    let mut report = Report::new();
    report.push(ReportCommand::SetPath {
        path: "trunk".to_string(),
        rev: 10,
        start_empty: true,
        lock_token: None,
        depth: Depth::Infinity,
    });
    report.finish();

    let mut written = Vec::new();
    encode_report(&report, &mut written).unwrap();

    let expected_set_path = list(vec![
        word("set-path"),
        list(vec![
            text("trunk"),
            SvnItem::Number(10),
            SvnItem::Bool(true),
            list(Vec::new()),
            word("infinity"),
        ]),
    ]);
    let expected_finish = list(vec![word("finish-report"), list(Vec::new())]);

    let mut expected = encode_line(&expected_set_path);
    expected.extend_from_slice(&encode_line(&expected_finish));
    assert_eq!(written, expected);
}

#[test]
fn send_report_requires_terminator() {
    let report = Report {
        commands: vec![ReportCommand::DeletePath {
            path: "trunk/file.txt".to_string(),
        }],
    };
    let mut written = Vec::new();
    let err = encode_report(&report, &mut written).unwrap_err();
    assert!(matches!(err, SvnError::Protocol(_)));
}

#[test]
fn drive_editor_sends_success_on_close_edit() {
    let mut handler = Collector { events: Vec::new() };
    let (sent, aborted) = drive(
        vec![
            list(vec![word("target-rev"), list(vec![SvnItem::Number(42)])]),
            list(vec![word("close-edit"), list(Vec::new())]),
        ],
        &mut handler,
        false,
    )
    .unwrap();
    assert!(!aborted);

    let expected_response = list(vec![word("success"), list(Vec::new())]);
    assert_eq!(sent.len(), 1);
    assert_eq!(encode_line(&sent[0]), encode_line(&expected_response));
    assert_eq!(
        handler.events,
        vec![EditorEvent::TargetRev { rev: 42 }, EditorEvent::CloseEdit]
    );
}

#[test]
fn drive_editor_sends_failure_and_drains_on_handler_error() {
    let mut handler = Failer {
        at: EditorEvent::TargetRev { rev: 1 },
    };
    let (sent, aborted) = drive(
        vec![
            list(vec![word("target-rev"), list(vec![SvnItem::Number(1)])]),
            list(vec![word("abort-edit"), list(Vec::new())]),
        ],
        &mut handler,
        false,
    )
    .unwrap();
    assert!(aborted);
    assert_eq!(sent.len(), 1);
    assert_eq!(encode_line(&sent[0]), encode_line(&expected_failure()));
}

#[test]
fn drive_editor_sends_failure_instead_of_success_on_close_edit_handler_error() {
    let mut handler = Failer {
        at: EditorEvent::CloseEdit,
    };
    let (sent, aborted) = drive(
        vec![list(vec![word("close-edit"), list(Vec::new())])],
        &mut handler,
        false,
    )
    .unwrap();
    assert!(aborted);
    assert_eq!(sent.len(), 1);
    assert_eq!(encode_line(&sent[0]), encode_line(&expected_failure()));
}

#[test]
fn unknown_commands_are_refused_and_drained() {
    let mut handler = Collector { events: Vec::new() };
    let (sent, aborted) = drive(
        vec![
            list(vec![word("no-such-command"), list(Vec::new())]),
            list(vec![word("close-file"), list(Vec::new())]),
            list(vec![word("success"), list(Vec::new())]),
        ],
        &mut handler,
        false,
    )
    .unwrap();
    assert!(aborted);
    assert_eq!(sent.len(), 1);
    assert!(handler.events.is_empty());
}

#[test]
fn finish_replay_is_for_replays_only() {
    let finish = list(vec![word("finish-replay"), list(Vec::new())]);
    let mut handler = Collector { events: Vec::new() };
    let (sent, aborted) = drive(vec![finish.clone()], &mut handler, true).unwrap();
    assert!(sent.is_empty());
    assert!(!aborted);
    assert_eq!(handler.events, vec![EditorEvent::FinishReplay]);

    match drive(vec![finish], &mut handler, false) {
        Err(SvnError::Protocol(m)) => assert_eq!(m, "finish-replay is only valid during replay"),
        other => panic!("{other:?}"),
    }
}

#[test]
fn a_failure_of_the_server_ends_the_drive() {
    let failure = list(vec![
        word("failure"),
        list(vec![list(vec![
            SvnItem::Number(5),
            text("no"),
            text(""),
            SvnItem::Number(0),
        ])]),
    ]);
    let mut handler = Collector { events: Vec::new() };
    assert!(matches!(
        drive(vec![failure], &mut handler, false),
        Err(SvnError::Server(_))
    ));
}

#[test]
fn a_hung_up_server_ends_the_drain_quietly() {
    assert!(ends_drain_quietly(&SvnError::Protocol("unexpected EOF".into())));
    assert!(!ends_drain_quietly(&SvnError::Protocol("boom".into())));
    assert!(is_abort_edit(&list(vec![word("abort-edit"), list(vec![])])));
    assert!(!is_abort_edit(&list(vec![word("success"), list(vec![])])));
}

fn some_commands() -> Vec<(EditorCommand, EditorEvent)> {
    vec![
        (
            EditorCommand::OpenRoot {
                rev: Some(3),
                token: "d0".to_string(),
            },
            EditorEvent::OpenRoot {
                rev: Some(3),
                token: "d0".to_string(),
            },
        ),
        (
            EditorCommand::AddDir {
                path: "/a".to_string(),
                parent_token: "d0".to_string(),
                child_token: "d1".to_string(),
                copy_from: Some(("svn://h:1/r/b".to_string(), 2)),
            },
            EditorEvent::AddDir {
                path: "a".to_string(),
                parent_token: "d0".to_string(),
                child_token: "d1".to_string(),
                copy_from: Some(("svn://h:1/r/b".to_string(), 2)),
            },
        ),
        (
            EditorCommand::DeleteEntry {
                path: "a/x".to_string(),
                rev: 7,
                dir_token: "d1".to_string(),
            },
            EditorEvent::DeleteEntry {
                path: "a/x".to_string(),
                rev: 7,
                dir_token: "d1".to_string(),
            },
        ),
        (
            EditorCommand::ChangeFileProp {
                file_token: "f1".to_string(),
                name: "svn:executable".to_string(),
                value: Some(b"*".to_vec()),
            },
            EditorEvent::ChangeFileProp {
                file_token: "f1".to_string(),
                name: "svn:executable".to_string(),
                value: Some(b"*".to_vec()),
            },
        ),
        (
            EditorCommand::CloseFile {
                file_token: "f1".to_string(),
                text_checksum: None,
            },
            EditorEvent::CloseFile {
                file_token: "f1".to_string(),
                text_checksum: None,
            },
        ),
        (EditorCommand::CloseEdit, EditorEvent::CloseEdit),
        (EditorCommand::AbortEdit, EditorEvent::AbortEdit),
    ]
}

#[test]
fn commands_are_read_back_as_events() {
    for (command, event) in some_commands() {
        let item = editor_command_item(&command).unwrap();
        match drive_step(&item, false).unwrap() {
            DriveStep::Deliver(e, _) => assert_eq!(e, event),
            other => panic!("{other:?}"),
        }
    }
}

#[test]
fn a_text_delta_is_written_byte_for_byte() {
    let mut out = Vec::new();
    encode_editor_command(
        &EditorCommand::ApplyTextDelta {
            file_token: "f1".to_string(),
            base_checksum: None,
        },
        &mut out,
    )
    .unwrap();
    encode_editor_command(
        &EditorCommand::TextDeltaChunk {
            file_token: "f1".to_string(),
            chunk: vec![1, 2, 3],
        },
        &mut out,
    )
    .unwrap();
    encode_editor_command(
        &EditorCommand::TextDeltaEnd {
            file_token: "f1".to_string(),
        },
        &mut out,
    )
    .unwrap();
    let mut expected: Vec<u8> = Vec::new();
    expected.extend_from_slice(b"( apply-textdelta ( 2:f1 ( ) ) ) \n");
    expected.extend_from_slice(b"( textdelta-chunk ( 2:f1 3:\x01\x02\x03 ) ) \n");
    expected.extend_from_slice(b"( textdelta-end ( 2:f1 ) ) \n");
    assert_eq!(out, expected);
}

#[test]
fn unsafe_paths_are_not_sent() {
    let mut out = Vec::new();
    let r = encode_editor_command(
        &EditorCommand::DeleteEntry {
            path: "a/../b".to_string(),
            rev: 7,
            dir_token: "d1".to_string(),
        },
        &mut out,
    );
    assert!(matches!(r, Err(SvnError::InvalidPath(_))));
    assert!(out.is_empty());
}

#[test]
fn events_with_missing_parts_are_refused() {
    match parse_editor_event("delete-entry", &[text("b"), SvnItem::Number(7)]) {
        Err(SvnError::Protocol(m)) => assert_eq!(m, "delete-entry params too short"),
        other => panic!("{other:?}"),
    }
    match parse_editor_event("delete-entry", &[text("/b"), SvnItem::Number(7), word("d1")]) {
        Err(SvnError::Protocol(m)) => assert_eq!(m, "delete-entry dir token not a string"),
        Ok(EditorEvent::DeleteEntry { path, .. }) => assert_eq!(path, "b"),
        other => panic!("{other:?}"),
    }
    match parse_editor_event("open-root", &[list(vec![]), SvnItem::Number(1)]) {
        Err(SvnError::Protocol(m)) => assert_eq!(m, "open-root token not a string"),
        other => panic!("{other:?}"),
    }
}

#[test]
fn revision_properties_are_taken_by_name() {
    let props = vec![
        list(vec![text("svn:log"), text("msg")]),
        list(vec![text("svn:author"), text("alice")]),
    ];
    match parse_editor_event("revprops", &props) {
        Ok(EditorEvent::RevProps { props }) => {
            let map: KeyMap<Vec<u8>> = props;
            assert_eq!(map.get("svn:author"), Some(&b"alice".to_vec()));
            assert_eq!(map.keys(), vec!["svn:author".to_string(), "svn:log".to_string()]);
        }
        other => panic!("{other:?}"),
    }
}
