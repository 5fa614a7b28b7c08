use svn::commit::{check_settings, select_svndiff_version};
use svn::commit_drive::{dir_prefixes, parent_dir, Encoding};
use svn::commit_send::{
    check_commit_commands, commit_request, early_status, library_version,
    txn_client_compat_version, CommitBatch,
};
use svn::commit_driver::CommitStep;
use svn::commit_stream::{StreamPlan, TextSender};
use svn::conn::parse_command_response;
use svn::edit::encode_editor_command;
use svn::raw::SvnItem;
use svn::stream_driver::{StreamAction, StreamStep};
use svn::svndiff::SvndiffVersion;
use svn::wire::encode_item_line;
use svn::{
    apply_textdelta_sync, CommitBuilder, CommitLockToken, CommitOptions, CommitStreamBuilder,
    EditorCommand, NodeKind, SvnError, SvndiffMode,
};

/// What stands at a path of the repository.
fn kind_at(known: &[(&str, NodeKind)], path: &str) -> NodeKind {
    known
        .iter()
        .find(|(p, _)| *p == path)
        .map(|(_, k)| *k)
        .unwrap_or(NodeKind::Missing)
}

/// The commands of a builder, against a repository that holds `known`.
fn build(
    builder: &CommitBuilder,
    base_rev: u64,
    known: &[(&str, NodeKind)],
) -> Result<Vec<EditorCommand>, SvnError> {
    let mut step = builder.build_editor_commands(true, false)?;
    loop {
        step = match step {
            CommitStep::LatestRev(asked) => asked.answer(base_rev)?,
            CommitStep::CheckPath(asked) => {
                let kind = kind_at(known, asked.path());
                asked.answer(kind)?
            }
            CommitStep::Done(commands) => return Ok(commands),
        };
    }
}

fn refused(r: Result<Vec<EditorCommand>, SvnError>) -> String {
    match r {
        Err(SvnError::Protocol(m)) => m,
        other => panic!("{other:?}"),
    }
}

fn open_root(rev: u64) -> EditorCommand {
    EditorCommand::OpenRoot {
        rev: Some(rev),
        token: "r".to_string(),
    }
}

fn open_dir(path: &str, parent: &str, child: &str, rev: u64) -> EditorCommand {
    EditorCommand::OpenDir {
        path: path.to_string(),
        parent_token: parent.to_string(),
        child_token: child.to_string(),
        rev,
    }
}

fn add_dir(path: &str, parent: &str, child: &str, from: Option<(&str, u64)>) -> EditorCommand {
    EditorCommand::AddDir {
        path: path.to_string(),
        parent_token: parent.to_string(),
        child_token: child.to_string(),
        copy_from: from.map(|(p, r)| (p.to_string(), r)),
    }
}

fn close_dir(token: &str) -> EditorCommand {
    EditorCommand::CloseDir {
        dir_token: token.to_string(),
    }
}

fn add_file(path: &str, dir: &str, file: &str, from: Option<(&str, u64)>) -> EditorCommand {
    EditorCommand::AddFile {
        path: path.to_string(),
        dir_token: dir.to_string(),
        file_token: file.to_string(),
        copy_from: from.map(|(p, r)| (p.to_string(), r)),
    }
}

fn close_file(token: &str) -> EditorCommand {
    EditorCommand::CloseFile {
        file_token: token.to_string(),
        text_checksum: None,
    }
}

/// The text that the chunks for a file give.
fn text_of(commands: &[EditorCommand], token: &str) -> Vec<u8> {
    let chunks: Vec<Vec<u8>> = commands
        .iter()
        .filter_map(|c| match c {
            EditorCommand::TextDeltaChunk { file_token, chunk } if file_token == token => {
                Some(chunk.clone())
            }
            _ => None,
        })
        .collect();
    let mut out = Vec::new();
    apply_textdelta_sync(b"", &chunks, &mut out).unwrap();
    out
}

/// The commands without those that carry texts.
fn without_texts(commands: Vec<EditorCommand>) -> Vec<EditorCommand> {
    commands
        .into_iter()
        .filter(|c| {
            !matches!(
                c,
                EditorCommand::ApplyTextDelta { .. }
                    | EditorCommand::TextDeltaChunk { .. }
                    | EditorCommand::TextDeltaEnd { .. }
            )
        })
        .collect()
}

#[test]
fn a_new_file_is_added_with_its_directories() {
    let builder = CommitBuilder::new().put_file("/trunk/new/hello.txt", b"hello\n".to_vec());
    let commands = build(&builder, 5, &[("trunk", NodeKind::Dir)]).unwrap();
    assert_eq!(text_of(&commands, "f1"), b"hello\n");
    check_commit_commands(&commands).unwrap();
    assert_eq!(
        without_texts(commands),
        vec![
            open_root(5),
            open_dir("trunk", "r", "d1", 5),
            add_dir("trunk/new", "d1", "d2", None),
            add_file("trunk/new/hello.txt", "d2", "f1", None),
            close_file("f1"),
            close_dir("d2"),
            close_dir("d1"),
            close_dir("r"),
            EditorCommand::CloseEdit,
        ]
    );
}

#[test]
fn tasks_share_the_directories_that_stay_open() {
    let builder = CommitBuilder::new()
        .put_file("b/y", b"2".to_vec())
        .delete("b/x")
        .mkdir_p("a");
    let known = [
        ("b", NodeKind::Dir),
        ("b/x", NodeKind::File),
        ("b/y", NodeKind::File),
    ];
    let commands = build(&builder, 7, &known).unwrap();
    assert_eq!(text_of(&commands, "f1"), b"2");
    assert_eq!(
        without_texts(commands),
        vec![
            open_root(7),
            add_dir("a", "r", "d1", None),
            close_dir("d1"),
            open_dir("b", "r", "d2", 7),
            EditorCommand::DeleteEntry {
                path: "b/x".to_string(),
                rev: 7,
                dir_token: "d2".to_string(),
            },
            EditorCommand::OpenFile {
                path: "b/y".to_string(),
                dir_token: "d2".to_string(),
                file_token: "f1".to_string(),
                rev: 7,
            },
            close_file("f1"),
            close_dir("d2"),
            close_dir("r"),
            EditorCommand::CloseEdit,
        ]
    );
}

#[test]
fn moves_copy_and_delete() {
    let builder = CommitBuilder::new()
        .move_path("old.txt", "new.txt")
        .copy_from_rev("lib", 3, "lib2");
    let known = [("old.txt", NodeKind::File), ("lib", NodeKind::Dir)];
    let commands = build(&builder, 9, &known).unwrap();
    assert_eq!(
        commands,
        vec![
            open_root(9),
            add_dir("lib2", "r", "d1", Some(("lib", 3))),
            close_dir("d1"),
            add_file("new.txt", "r", "f1", Some(("old.txt", 9))),
            close_file("f1"),
            EditorCommand::DeleteEntry {
                path: "old.txt".to_string(),
                rev: 9,
                dir_token: "r".to_string(),
            },
            close_dir("r"),
            EditorCommand::CloseEdit,
        ]
    );
}

#[test]
fn properties_are_set_on_files_and_directories() {
    let builder = CommitBuilder::new()
        .set_file_prop("a.sh", "svn:executable", b"*".to_vec())
        .delete_dir_prop("", "svn:ignore");
    let commands = build(&builder, 1, &[("a.sh", NodeKind::File)]).unwrap();
    assert_eq!(
        commands,
        vec![
            open_root(1),
            EditorCommand::ChangeDirProp {
                dir_token: "r".to_string(),
                name: "svn:ignore".to_string(),
                value: None,
            },
            EditorCommand::OpenFile {
                path: "a.sh".to_string(),
                dir_token: "r".to_string(),
                file_token: "f1".to_string(),
                rev: 1,
            },
            EditorCommand::ChangeFileProp {
                file_token: "f1".to_string(),
                name: "svn:executable".to_string(),
                value: Some(b"*".to_vec()),
            },
            close_file("f1"),
            close_dir("r"),
            EditorCommand::CloseEdit,
        ]
    );
}

#[test]
fn changes_that_do_not_fit_the_repository_are_refused() {
    let put = CommitBuilder::new().put_file("a/b", b"1".to_vec());
    assert_eq!(
        refused(build(&put, 1, &[("a", NodeKind::File)])),
        "expected directory or none at a (got file)"
    );
    assert_eq!(
        refused(build(
            &put,
            1,
            &[("a", NodeKind::Dir), ("a/b", NodeKind::Dir)]
        )),
        "expected file or none at a/b (got dir)"
    );
    let prop = CommitBuilder::new().set_file_prop("x", "p", b"v".to_vec());
    assert_eq!(
        refused(build(&prop, 1, &[])),
        "cannot set file properties on a missing file at x"
    );
    let delete = CommitBuilder::new().delete("gone");
    assert_eq!(
        refused(build(&delete, 1, &[])),
        "delete target does not exist at gone"
    );
    let copy = CommitBuilder::new().copy("f", "g");
    assert_eq!(
        refused(build(
            &copy,
            1,
            &[("f", NodeKind::File), ("g", NodeKind::File)]
        )),
        "copy destination file already exists at g"
    );
}

#[test]
fn changes_that_contradict_each_other_are_refused() {
    let both = CommitBuilder::new()
        .put_file("a", b"1".to_vec())
        .put_file("/a", b"2".to_vec());
    assert!(build(&both, 1, &[]).is_err());
    let below = CommitBuilder::new().delete("d").put_file("d/x", b"1".to_vec());
    assert!(build(&below, 1, &[("d", NodeKind::Dir)]).is_err());
    let out = CommitBuilder::new().put_file("../a", b"1".to_vec());
    assert!(matches!(build(&out, 1, &[]), Err(SvnError::InvalidPath(_))));
}

#[test]
fn empty_builders_and_wrong_levels_are_refused() {
    assert!(matches!(
        CommitBuilder::new().check(),
        Err(SvnError::Protocol(_))
    ));
    assert!(matches!(
        CommitBuilder::new().delete("a").with_zlib_level(10).check(),
        Err(SvnError::Protocol(_))
    ));
    check_settings(1, 9).unwrap();
    assert_eq!(CommitBuilder::new().with_base_rev(4).base_rev(), Some(4));
}

#[test]
fn the_newest_format_of_the_server_is_taken() {
    assert!(matches!(
        select_svndiff_version(SvndiffMode::Auto, true, true),
        Ok(SvndiffVersion::V2)
    ));
    assert!(matches!(
        select_svndiff_version(SvndiffMode::Auto, true, false),
        Ok(SvndiffVersion::V1)
    ));
    assert!(matches!(
        select_svndiff_version(SvndiffMode::Auto, false, false),
        Ok(SvndiffVersion::V0)
    ));
    assert!(matches!(
        select_svndiff_version(SvndiffMode::V2, true, false),
        Err(SvnError::Protocol(_))
    ));
}

#[test]
fn large_texts_are_sent_in_chunks() {
    let contents: Vec<u8> = (0..200_000u32)
        .map(|i| (i.wrapping_mul(2654435761) >> 13) as u8)
        .collect();
    let builder = CommitBuilder::new()
        .with_svndiff(SvndiffMode::V0)
        .put_file("big", contents.clone());
    let commands = build(&builder, 1, &[]).unwrap();
    let chunks = commands
        .iter()
        .filter(|c| matches!(c, EditorCommand::TextDeltaChunk { .. }))
        .count();
    assert_eq!(chunks, 4);
    assert_eq!(text_of(&commands, "f1"), contents);
}

#[test]
fn paths_are_taken_apart() {
    assert_eq!(parent_dir("a/b/c"), "a/b");
    assert_eq!(parent_dir("c"), "");
    assert_eq!(dir_prefixes("a/b//c"), vec!["a", "a/b", "a/b/c"]);
    assert!(dir_prefixes(" ").is_empty());
}

#[test]
fn streamed_files_are_planned_in_path_order() {
    let builder = CommitStreamBuilder::new()
        .with_base_rev(2)
        .put_file("b/two")
        .put_file("/a");
    builder.check().unwrap();
    assert_eq!(builder.base_rev(), Some(2));
    let enc = builder.encoding(false, false).unwrap();
    let mut plan = StreamPlan::new();
    for path in builder.paths() {
        plan.add_file(path, NodeKind::Missing).unwrap();
    }
    for dir in plan.needed_dirs() {
        plan.resolve_dir(&dir, NodeKind::Missing).unwrap();
    }
    let commands = plan.commands(2, enc).unwrap();
    assert_eq!(plan.into_order(), vec![1usize, 0]);
    assert_eq!(
        without_texts(commands),
        vec![
            open_root(2),
            add_file("a", "r", "f1", None),
            close_file("f1"),
            add_dir("b", "r", "d1", None),
            add_file("b/two", "d1", "f2", None),
            close_file("f2"),
            close_dir("d1"),
            close_dir("r"),
            EditorCommand::CloseEdit,
        ]
    );
}

#[test]
fn streamed_files_need_a_place() {
    let mut plan = StreamPlan::new();
    assert!(plan.add_file("a", NodeKind::Dir).is_err());
    assert!(matches!(
        plan.add_file("../a", NodeKind::Missing),
        Err(SvnError::InvalidPath(_))
    ));
    plan.add_file("d/b", NodeKind::File).unwrap();
    assert!(plan.resolve_dir("d", NodeKind::File).is_err());
}

#[test]
fn streamed_windows_give_the_whole_text() {
    let enc = Encoding {
        version: SvndiffVersion::V1,
        level: 5,
        window_size: 4,
    };
    let mut sender = TextSender::new("f1", enc);
    let mut commands = Vec::new();
    for window in [&b"abcd"[..], &b"efgh"[..], &b"i"[..]] {
        commands.extend(sender.part(window).unwrap());
    }
    commands.extend(sender.finish().unwrap());
    assert_eq!(text_of(&commands, "f1"), b"abcdefghi");

    let commands = TextSender::new("f1", enc).finish().unwrap();
    assert_eq!(commands.len(), 1);
    assert_eq!(text_of(&commands, "f1"), b"");

    let bad = Encoding { level: 10, ..enc };
    assert!(TextSender::new("f1", bad).part(b"a").is_err());
    assert!(TextSender::new("f1", bad).finish().is_err());
}

/// The commands of a streamed commit of these files, and whether the latest revision was
/// asked for.
fn stream(
    builder: &CommitStreamBuilder,
    latest: u64,
    known: &[(&str, NodeKind)],
    texts: &[&[u8]],
) -> Result<(Vec<EditorCommand>, bool), SvnError> {
    let mut asked_latest = false;
    let mut step = builder.commit(true, false)?;
    let mut sending = loop {
        step = match step {
            StreamStep::LatestRev(asked) => {
                asked_latest = true;
                asked.answer(latest)?
            }
            StreamStep::CheckPath(asked) => {
                let kind = kind_at(known, asked.path());
                asked.answer(kind)?
            }
            StreamStep::Send(sending) => break sending,
        };
    };
    let mut left: Vec<&[u8]> = texts.to_vec();
    let mut sent = Vec::new();
    loop {
        match sending.next() {
            StreamAction::Send(c) => {
                sent.push(c.clone());
                sending.sent();
            }
            StreamAction::Read(file) => {
                let n = left[file].len().min(builder.window());
                let (part, rest) = left[file].split_at(n);
                sent.extend(sending.part(part)?);
                left[file] = rest;
            }
            StreamAction::Done => return Ok((sent, asked_latest)),
        }
    }
}

#[test]
fn streamed_texts_go_with_their_files() {
    let builder = CommitStreamBuilder::new()
        .with_window_size(3)
        .put_file("foo.txt")
        .put_file("foo/x")
        .put_file("a");
    let known = [("foo", NodeKind::Dir), ("foo/x", NodeKind::File)];
    let (sent, latest) = stream(&builder, 7, &known, &[b"dotted", b"inside", b""]).unwrap();
    assert!(latest);
    assert_eq!(sent[0], open_root(7));
    assert_eq!(text_of(&sent, "f1"), b"");
    assert_eq!(text_of(&sent, "f2"), b"dotted");
    assert_eq!(text_of(&sent, "f3"), b"inside");
    check_commit_commands(&sent).unwrap();
    assert_eq!(
        without_texts(sent),
        vec![
            open_root(7),
            add_file("a", "r", "f1", None),
            close_file("f1"),
            add_file("foo.txt", "r", "f2", None),
            close_file("f2"),
            open_dir("foo", "r", "d1", 7),
            EditorCommand::OpenFile {
                path: "foo/x".to_string(),
                dir_token: "d1".to_string(),
                file_token: "f3".to_string(),
                rev: 7,
            },
            close_file("f3"),
            close_dir("d1"),
            close_dir("r"),
            EditorCommand::CloseEdit,
        ]
    );
}

#[test]
fn streamed_files_are_sent_in_the_order_of_their_paths() {
    let builder = CommitStreamBuilder::new()
        .with_base_rev(1)
        .put_file("a/x")
        .put_file("a0")
        .put_file("/a.txt");
    let (sent, _) = stream(&builder, 1, &[], &[b"", b"", b""]).unwrap();
    assert_eq!(
        without_texts(sent),
        vec![
            open_root(1),
            add_file("a.txt", "r", "f1", None),
            close_file("f1"),
            add_dir("a", "r", "d1", None),
            add_file("a/x", "d1", "f2", None),
            close_file("f2"),
            close_dir("d1"),
            add_file("a0", "r", "f3", None),
            close_file("f3"),
            close_dir("r"),
            EditorCommand::CloseEdit,
        ]
    );

    // A path with an empty part stands apart from the others of its directory.
    let doubled = CommitStreamBuilder::new()
        .with_base_rev(1)
        .put_file("a/b/g")
        .put_file("a/0")
        .put_file("a//b/f");
    let (sent, _) = stream(&doubled, 1, &[], &[b"", b"", b""]).unwrap();
    assert_eq!(entered(&sent), vec!["a", "a/b", "a/b"]);
}

#[test]
fn streamed_commits_are_refused_as_others_are() {
    let none = CommitStreamBuilder::new();
    assert!(matches!(stream(&none, 1, &[], &[]), Err(SvnError::Protocol(_))));
    let builder = CommitStreamBuilder::new().with_base_rev(0).put_file("a/b");
    let (_, latest) = stream(&builder, 9, &[], &[b"x"]).unwrap();
    assert!(!latest);
    let blocked = stream(&builder, 9, &[("a", NodeKind::File)], &[b"x"]);
    match blocked {
        Err(SvnError::Protocol(m)) => {
            assert_eq!(m, "expected directory or none at a (got file)");
        }
        other => panic!("{other:?}"),
    }
}

/// The directories that commands enter.
fn entered(commands: &[EditorCommand]) -> Vec<String> {
    let mut out = Vec::new();
    for c in commands {
        match c {
            EditorCommand::AddDir { path, .. } | EditorCommand::OpenDir { path, .. } => {
                out.push(path.clone());
            }
            _ => {}
        }
    }
    out
}

#[test]
fn a_directory_beside_a_longer_name_is_entered_once() {
    let builder = CommitBuilder::new()
        .with_base_rev(1)
        .with_svndiff(SvndiffMode::V0)
        .mkdir_p("foo")
        .put_file("foo.txt", vec![])
        .put_file("foo/x", vec![]);
    let commands = build(&builder, 9, &[]).unwrap();
    assert_eq!(entered(&commands), vec!["foo"]);
    assert_eq!(
        without_texts(commands),
        vec![
            open_root(1),
            add_file("foo.txt", "r", "f1", None),
            close_file("f1"),
            add_dir("foo", "r", "d1", None),
            add_file("foo/x", "d1", "f2", None),
            close_file("f2"),
            close_dir("d1"),
            close_dir("r"),
            EditorCommand::CloseEdit,
        ]
    );

    let dirs = CommitBuilder::new()
        .mkdir_p("foo")
        .mkdir_p("foo-bar")
        .mkdir_p("foo/x");
    let known = [("foo", NodeKind::Dir)];
    assert_eq!(
        entered(&build(&dirs, 1, &known).unwrap()),
        vec!["foo-bar", "foo", "foo/x"]
    );

    let doubled = CommitBuilder::new()
        .put_file("a/b/g", vec![])
        .put_file("a/0", vec![])
        .put_file("a//b/f", vec![]);
    assert_eq!(entered(&build(&doubled, 1, &[]).unwrap()), vec!["a", "a/b"]);
}

#[test]
fn changes_are_sent_in_the_order_of_their_paths() {
    let builder = CommitBuilder::new()
        .with_base_rev(1)
        .with_svndiff(SvndiffMode::V0)
        .put_file("foo/x", vec![])
        .mkdir_p("foo")
        .delete("bar")
        .mkdir_p("foo0");
    let known = [("bar", NodeKind::File)];
    assert_eq!(
        without_texts(build(&builder, 9, &known).unwrap()),
        vec![
            open_root(1),
            EditorCommand::DeleteEntry {
                path: "bar".to_string(),
                rev: 1,
                dir_token: "r".to_string(),
            },
            add_dir("foo", "r", "d1", None),
            add_file("foo/x", "d1", "f1", None),
            close_file("f1"),
            close_dir("d1"),
            add_dir("foo0", "r", "d2", None),
            close_dir("d2"),
            close_dir("r"),
            EditorCommand::CloseEdit,
        ]
    );

    // A directory that nothing else stands in keeps its place before a longer name.
    let beside = CommitBuilder::new()
        .with_base_rev(1)
        .with_svndiff(SvndiffMode::V0)
        .put_file("foo.txt", vec![])
        .mkdir_p("foo");
    assert_eq!(
        without_texts(build(&beside, 9, &[]).unwrap()),
        vec![
            open_root(1),
            add_dir("foo", "r", "d1", None),
            close_dir("d1"),
            add_file("foo.txt", "r", "f1", None),
            close_file("f1"),
            close_dir("r"),
            EditorCommand::CloseEdit,
        ]
    );
}

#[test]
fn a_path_that_is_a_file_and_a_directory_is_entered_once() {
    let builder = CommitBuilder::new()
        .mkdir_p("foo")
        .put_file("foo", b"f".to_vec())
        .put_file("foo/x", b"x".to_vec());
    assert_eq!(entered(&build(&builder, 1, &[]).unwrap()), vec!["foo"]);
}

#[test]
fn naming_the_base_revision_of_a_copy_changes_nothing() {
    let known = [("a", NodeKind::File)];
    let plain = CommitBuilder::new().with_base_rev(4).copy("a", "b");
    let named = CommitBuilder::new().with_base_rev(4).copy_from_rev("a", 4, "b");
    let commands = build(&plain, 9, &known).unwrap();
    assert_eq!(commands, build(&named, 9, &known).unwrap());
    assert!(commands.contains(&add_file("b", "r", "f1", Some(("a", 4)))));
}

/// The token that a command introduces.
fn token(c: &EditorCommand) -> Option<&str> {
    match c {
        EditorCommand::OpenRoot { token, .. } => Some(token),
        EditorCommand::AddDir { child_token, .. } => Some(child_token),
        EditorCommand::OpenDir { child_token, .. } => Some(child_token),
        EditorCommand::AddFile { file_token, .. } => Some(file_token),
        EditorCommand::OpenFile { file_token, .. } => Some(file_token),
        _ => None,
    }
}

#[test]
fn tokens_are_given_once() {
    let mut builder = CommitBuilder::new();
    for i in 0..12 {
        builder = builder.put_file(&format!("d{i}/f"), vec![]);
    }
    let commands = build(&builder, 1, &[]).unwrap();
    let mut tokens: Vec<&str> = commands.iter().filter_map(token).collect();
    assert_eq!(tokens[0], "r");
    assert!(tokens.contains(&"d1") && tokens.contains(&"d11") && tokens.contains(&"f12"));
    assert_eq!(tokens.len(), 25);
    tokens.sort_unstable();
    tokens.dedup();
    assert_eq!(tokens.len(), 25);
}

#[test]
fn everything_is_asked_for_once() {
    let builder = CommitBuilder::new()
        .with_base_rev(7)
        .delete("a/old")
        .put_file("a/new", vec![])
        .mkdir_p("a/b")
        .copy_from_rev("src", 3, "dst")
        .copy("src", "a/file")
        .delete("gone");
    let known = [
        ("src", NodeKind::File),
        ("a", NodeKind::Dir),
        ("a/old", NodeKind::File),
        ("gone", NodeKind::Dir),
    ];
    let mut questions = Vec::new();
    let mut step = builder.build_editor_commands(true, true).unwrap();
    while let CommitStep::CheckPath(asked) = step {
        questions.push((asked.path().to_string(), asked.rev()));
        let kind = kind_at(&known, asked.path());
        step = asked.answer(kind).unwrap();
    }
    assert!(matches!(step, CommitStep::Done(_)));
    let expected = [
        ("src", 3),
        ("src", 7),
        ("a", 7),
        ("a/b", 7),
        ("a/file", 7),
        ("a/new", 7),
        ("dst", 7),
        ("a/old", 7),
        ("gone", 7),
    ];
    assert_eq!(questions, expected.map(|(p, r)| (p.to_string(), r)));

    let files = CommitStreamBuilder::new().with_base_rev(2).put_file("b/x").put_file("/a/y");
    let mut paths = Vec::new();
    let mut step = files.commit(true, true).unwrap();
    while let StreamStep::CheckPath(asked) = step {
        paths.push(asked.path().to_string());
        step = asked.answer(NodeKind::Missing).unwrap();
    }
    assert!(matches!(step, StreamStep::Send(_)));
    assert_eq!(paths, vec!["b/x", "a/y", "a", "b"]);
}

#[test]
fn a_directory_is_made_beside_a_deletion() {
    let builder = CommitBuilder::new()
        .with_base_rev(7)
        .with_svndiff(SvndiffMode::V0)
        .mkdir_p("a/b")
        .delete("a/old");
    let known = [("a", NodeKind::Dir), ("a/old", NodeKind::File)];
    assert_eq!(
        build(&builder, 9, &known).unwrap(),
        vec![
            open_root(7),
            open_dir("a", "r", "d1", 7),
            add_dir("a/b", "d1", "d2", None),
            close_dir("d2"),
            EditorCommand::DeleteEntry {
                path: "a/old".to_string(),
                rev: 7,
                dir_token: "d1".to_string(),
            },
            close_dir("d1"),
            close_dir("r"),
            EditorCommand::CloseEdit,
        ]
    );
}

#[test]
fn a_set_revision_is_used() {
    let builder = CommitBuilder::new().with_base_rev(3).with_base_rev(0).mkdir_p("a");
    assert!(matches!(
        builder.build_editor_commands(true, true),
        Ok(CommitStep::CheckPath(_))
    ));
    assert_eq!(build(&builder, 9, &[]).unwrap()[0], open_root(0));
    let latest = CommitBuilder::new().mkdir_p("a");
    assert!(matches!(
        latest.build_editor_commands(true, true),
        Ok(CommitStep::LatestRev(_))
    ));
    assert_eq!(build(&latest, 9, &[]).unwrap()[0], open_root(9));
}

#[test]
fn every_change_is_carried_out() {
    let builder = CommitBuilder::new()
        .with_base_rev(5)
        .put_file("a/new", b"n".to_vec())
        .mkdir_p("b/c")
        .delete("old")
        .copy("src", "dst")
        .copy_from_rev("file", 3, "b/copy")
        .set_file_prop("kept", "p", b"v".to_vec())
        .set_dir_prop("b", "q", b"w".to_vec())
        .set_dir_prop("", "r", b"x".to_vec());
    let known = [
        ("old", NodeKind::File),
        ("src", NodeKind::Dir),
        ("file", NodeKind::File),
        ("kept", NodeKind::File),
    ];
    let commands = build(&builder, 9, &known).unwrap();
    check_commit_commands(&commands).unwrap();
    assert_eq!(entered(&commands), vec!["a", "b", "b/c", "dst"]);
    assert!(commands.contains(&add_file("a/new", "d1", "f1", None)));
    assert_eq!(text_of(&commands, "f1"), b"n");
    assert!(commands.contains(&add_file("b/copy", "d2", "f2", Some(("file", 3)))));
    assert!(commands.contains(&add_dir("dst", "r", "d4", Some(("src", 5)))));
    assert!(commands.contains(&EditorCommand::DeleteEntry {
        path: "old".to_string(),
        rev: 5,
        dir_token: "r".to_string(),
    }));
    assert!(commands.contains(&EditorCommand::ChangeFileProp {
        file_token: "f3".to_string(),
        name: "p".to_string(),
        value: Some(b"v".to_vec()),
    }));
    for (token, name, value) in [("d2", "q", b"w"), ("r", "r", b"x")] {
        assert!(commands.contains(&EditorCommand::ChangeDirProp {
            dir_token: token.to_string(),
            name: name.to_string(),
            value: Some(value.to_vec()),
        }));
    }
}

#[test]
fn a_file_is_put_by_what_is_there() {
    let builder = CommitBuilder::new().with_base_rev(2).put_file("a", b"text".to_vec());
    let added = build(&builder, 9, &[]).unwrap();
    assert_eq!(added[1], add_file("a", "r", "f1", None));
    assert_eq!(text_of(&added, "f1"), b"text");
    let opened = build(&builder, 9, &[("a", NodeKind::File)]).unwrap();
    assert!(matches!(opened[1], EditorCommand::OpenFile { rev: 2, .. }));
    assert_eq!(text_of(&opened, "f1"), b"text");
    assert_eq!(
        refused(build(&builder, 9, &[("a", NodeKind::Dir)])),
        "expected file or none at a (got dir)"
    );
}

#[test]
fn batches_hold_all_commands() {
    let builder = CommitBuilder::new().put_file("a", vec![9u8; 3000]).mkdir_p("b/c/d");
    let commands = build(&builder, 1, &[]).unwrap();
    let mut all = Vec::new();
    for c in &commands {
        encode_editor_command(c, &mut all).unwrap();
    }
    let mut batch = CommitBatch::new();
    assert!(batch.needs_poll());
    let mut sent = Vec::new();
    for c in &commands {
        sent.extend(batch.add(c).unwrap());
    }
    sent.extend(batch.finish());
    assert_eq!(sent, all);
}

#[test]
fn a_commit_names_its_locks_and_properties() {
    let mut options = CommitOptions::new("msg");
    options.keep_locks = true;
    options.lock_tokens.push(CommitLockToken {
        path: "/a".to_string(),
        token: "t".to_string(),
    });
    let item = commit_request(&options, "ra", true, true).unwrap();
    let mut out = Vec::new();
    encode_item_line(&item, &mut out);
    let line = String::from_utf8(out).unwrap();
    assert!(line.starts_with("( commit ( 3:msg ( ( 1:a 1:t ) ) true ( "));
    assert!(line.contains("( 7:svn:log 3:msg )"));
    assert!(line.contains("svn:txn-user-agent"));
    assert!(line.contains("svn:txn-client-compat-version"));
}

#[test]
fn the_version_of_the_client_is_told() {
    assert_eq!(txn_client_compat_version("SVN/1.14.2"), "1.14.2");
    assert_eq!(txn_client_compat_version("other"), library_version());
}

#[test]
fn an_early_answer_ends_the_commit() {
    let failure = SvnItem::List(vec![
        SvnItem::Word("failure".to_string()),
        SvnItem::List(vec![SvnItem::List(vec![
            SvnItem::Number(7),
            SvnItem::String(b"no".to_vec()),
            SvnItem::String(Vec::new()),
            SvnItem::Number(0),
        ])]),
    ]);
    let response = parse_command_response(&failure).unwrap();
    assert!(matches!(early_status(&response), SvnError::Server(_)));
    let success = SvnItem::List(vec![
        SvnItem::Word("success".to_string()),
        SvnItem::List(vec![]),
    ]);
    let response = parse_command_response(&success).unwrap();
    assert!(matches!(early_status(&response), SvnError::Protocol(_)));
}
