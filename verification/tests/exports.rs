use std::collections::BTreeMap;
use svn::export::{map_repo_path_to_fs, new_tmp_path};
use svn::export_plan::{export_report, ExportPlan, ExportUpdate, FsAction};
use svn::fs_guard::{
    check_copy, check_copy_into, check_delta_target, copy_step, executable_mode, guard_step,
    make_dir_step, removal_of, require_file, steps_below, CopyStep, DirStep, FsNode, Removal,
};
use svn::fulltext::encode_fulltext_with_options;
use svn::svndiff::SvndiffVersion;
use svn::{
    apply_textdelta_sync, Depth, EditorEvent, FsEditor, ReportCommand, SvnError, TokioFsEditor,
};

/// A file system without directories, as far as these tests go.
struct Disk {
    files: BTreeMap<String, Vec<u8>>,
    deltas: BTreeMap<String, Vec<Vec<u8>>>,
    seen: Vec<String>,
}

impl Disk {
    fn new() -> Disk {
        Disk {
            files: BTreeMap::new(),
            deltas: BTreeMap::new(),
            seen: Vec::new(),
        }
    }

    /// Does what a plan says.
    fn run(&mut self, plan: ExportPlan) -> Result<ExportUpdate, SvnError> {
        for action in plan.actions {
            match action {
                FsAction::BeginText { token, .. } => {
                    self.deltas.insert(token, Vec::new());
                }
                FsAction::PushText { token, chunk } => {
                    self.deltas.get_mut(&token).unwrap().push(chunk);
                }
                FsAction::FinishText { token, dest, .. } => {
                    let chunks = self.deltas.remove(&token).unwrap();
                    let base = self.files.get(&dest).cloned().unwrap_or_default();
                    let mut out = Vec::new();
                    apply_textdelta_sync(&base, &chunks, &mut out)?;
                    self.files.insert(dest, out);
                }
                FsAction::Remove { path } => {
                    self.files.remove(&path);
                }
                FsAction::MakeDirs { path } => self.seen.push(path),
                _ => {}
            }
        }
        plan.outcome
    }
}

fn open_root() -> EditorEvent {
    EditorEvent::OpenRoot {
        rev: None,
        token: "d0".to_string(),
    }
}

fn add_file(path: &str, token: &str, copy_from: Option<(String, u64)>) -> EditorEvent {
    EditorEvent::AddFile {
        path: path.to_string(),
        dir_token: "d0".to_string(),
        file_token: token.to_string(),
        copy_from,
    }
}

fn file_events(path: &str, token: &str, delta: Vec<u8>) -> Vec<EditorEvent> {
    vec![
        add_file(path, token, None),
        EditorEvent::ApplyTextDelta {
            file_token: token.to_string(),
            base_checksum: None,
        },
        EditorEvent::TextDeltaChunk {
            file_token: token.to_string(),
            chunk: delta,
        },
        EditorEvent::TextDeltaEnd {
            file_token: token.to_string(),
        },
        EditorEvent::CloseFile {
            file_token: token.to_string(),
            text_checksum: None,
        },
    ]
}

#[test]
fn fs_editor_rejects_parent_dir_paths() {
    let editor = FsEditor::new("tmp");
    assert!(editor.repo_path_to_fs("../x", false).is_err());
    assert!(editor.repo_path_to_fs("a/../x", false).is_err());
}

#[test]
fn tokio_fs_editor_rejects_parent_dir_paths() {
    let editor = TokioFsEditor::new("tmp");
    assert!(editor.repo_path_to_fs("../x", false).is_err());
    assert!(editor.repo_path_to_fs("a/../x", false).is_err());
}

#[test]
fn tokio_fs_editor_writes_fulltext_delta_to_disk() {
    let mut disk = Disk::new();
    let mut editor = TokioFsEditor::new("/work");
    let delta = encode_fulltext_with_options(SvndiffVersion::V0, b"hello", 0, 1024).unwrap();
    let mut events = vec![open_root()];
    events.extend(file_events("hello.txt", "f1", delta));
    events.push(EditorEvent::CloseEdit);
    for event in events {
        let plan = editor.on_event(event);
        for action in &plan.actions {
            editor.note(action);
        }
        editor.confirm(disk.run(plan).unwrap());
    }
    assert_eq!(disk.files.get("/work/hello.txt").unwrap(), b"hello");
    assert_eq!(disk.files.len(), 1);
}

#[test]
fn both_editors_plan_the_same_for_a_new_file() {
    let delta = encode_fulltext_with_options(SvndiffVersion::V1, b"text", 5, 1024).unwrap();
    let mut a = FsEditor::new("/w").with_strip_prefix("trunk");
    let mut b = TokioFsEditor::new("/w").with_strip_prefix("/trunk/");
    let mut events = vec![open_root()];
    events.extend(file_events("trunk/x", "f1", delta));
    events.push(EditorEvent::CloseEdit);
    for event in events {
        let p = a.on_event(event.clone());
        let q = b.on_event(event);
        assert_eq!(format!("{p:?}"), format!("{q:?}"));
        a.confirm(p.outcome.unwrap());
        b.confirm(q.outcome.unwrap());
    }
}

#[test]
fn a_file_is_put_in_place_when_it_is_closed() {
    let mut editor = FsEditor::new("/w");
    let mut plans = Vec::new();
    for event in file_events("d/x", "f1", b"SVN\0".to_vec()) {
        let plan = editor.on_event(event);
        plans.push(format!("{:?}", plan.actions));
        editor.confirm(plan.outcome.unwrap());
    }
    let tmp = "/w/d/.svn-rs.x.f1.1.tmp";
    assert_eq!(new_tmp_path("/w/d/x", "f1", 1), tmp);
    assert_eq!(plans[0], "[MakeParents { path: \"/w/d/x\" }]");
    assert!(plans[1].contains("BeginText"));
    assert!(plans[1].contains(tmp));
    assert!(plans[2].contains("PushText"));
    assert!(plans[3].contains("EndText"));
    assert!(plans[4].contains("FinishText"));
    assert!(plans[4].contains("executable: None"));
}

#[test]
fn only_one_editor_forgets_its_tokens() {
    let mark = EditorEvent::ChangeFileProp {
        file_token: "f1".to_string(),
        name: "svn:executable".to_string(),
        value: Some(b"*".to_vec()),
    };
    let mut a = FsEditor::default();
    let mut b = TokioFsEditor::default();
    assert_eq!(a.root(), ".");
    assert_eq!(b.root(), ".");
    for event in [
        add_file("x", "f1", None),
        mark,
        EditorEvent::CloseFile {
            file_token: "f1".to_string(),
            text_checksum: None,
        },
        add_file("y", "f2", None),
        EditorEvent::CloseEdit,
    ] {
        let p = a.on_event(event.clone());
        a.confirm(p.outcome.unwrap());
        let q = b.on_event(event);
        b.confirm(q.outcome.unwrap());
    }
    let begin = EditorEvent::ApplyTextDelta {
        file_token: "f2".to_string(),
        base_checksum: None,
    };
    assert!(a.on_event(begin.clone()).outcome.is_ok());
    match b.on_event(begin).outcome {
        Err(SvnError::Protocol(m)) => assert_eq!(m, "apply-textdelta for unknown file token"),
        other => panic!("{other:?}"),
    }
    let mut last = (String::new(), String::new());
    for event in file_events("x", "f1", b"SVN\0".to_vec()) {
        let p = a.on_event(event.clone());
        let q = b.on_event(event);
        last = (format!("{:?}", p.actions), format!("{:?}", q.actions));
        a.confirm(p.outcome.unwrap());
        b.confirm(q.outcome.unwrap());
    }
    assert!(last.0.contains("executable: Some(true)"));
    assert!(last.1.contains("executable: None"));
}

#[test]
fn temporary_files_are_counted_once_their_bases_are_open() {
    let mut editor = FsEditor::new("/w");
    let file = editor.on_event(add_file("x", "f1", None));
    editor.confirm(file.outcome.unwrap());
    let begin = EditorEvent::ApplyTextDelta {
        file_token: "f1".to_string(),
        base_checksum: None,
    };
    let plan = editor.on_event(begin.clone());
    assert_eq!(
        format!("{:?}", plan.actions),
        "[OpenBase { token: \"f1\", dest: \"/w/x\", source: None }, \
         BeginText { token: \"f1\", dest: \"/w/x\", tmp: \"/w/.svn-rs.x.f1.1.tmp\" }]"
    );
    // The base could not be opened: the number is still free.
    let plan = editor.on_event(begin.clone());
    assert!(format!("{:?}", plan.actions).contains(".svn-rs.x.f1.1.tmp"));
    // The base was opened, and then the temporary file could not be made.
    editor.note(&plan.actions[0]);
    let plan = editor.on_event(begin.clone());
    assert!(format!("{:?}", plan.actions).contains(".svn-rs.x.f1.2.tmp"));
    editor.note(&plan.actions[0]);
    editor.note(&plan.actions[1]);
    editor.confirm(plan.outcome.unwrap());
    let next = format!("{:?}", editor.on_event(begin).actions);
    assert!(next.contains(".svn-rs.x.f1.3.tmp"));
}

#[test]
fn a_delta_that_fails_to_end_is_given_up() {
    let mut editor = FsEditor::new("/w");
    let mut careful = TokioFsEditor::new("/w");
    let events = file_events("x", "f1", b"SVN\0".to_vec());
    for event in &events[..3] {
        let plan = editor.on_event(event.clone());
        editor.confirm(plan.outcome.unwrap());
        let plan = careful.on_event(event.clone());
        careful.confirm(plan.outcome.unwrap());
    }
    // The end is planned and fails: what came of it is not confirmed.
    assert!(editor.on_event(events[3].clone()).outcome.is_ok());
    assert!(careful.on_event(events[3].clone()).outcome.is_ok());
    let message = |plan: ExportPlan| match plan.outcome {
        Err(SvnError::Protocol(m)) => m,
        other => panic!("{other:?}"),
    };
    assert_eq!(message(editor.on_event(events[3].clone())), "duplicate textdelta-end");
    assert_eq!(
        message(editor.on_event(events[2].clone())),
        "textdelta-chunk after textdelta-end"
    );
    let plan = editor.on_event(events[4].clone());
    assert!(plan.actions.is_empty());
    assert_eq!(message(plan), "close-file before textdelta-end");
    let plan = careful.on_event(events[4].clone());
    assert_eq!(format!("{:?}", plan.actions), "[CheckWay { path: \"/w/x\" }]");
    assert_eq!(message(plan), "close-file before textdelta-end");
    // The file is no longer pending.
    assert!(editor.on_event(EditorEvent::CloseEdit).outcome.is_ok());
}

#[test]
fn a_file_becomes_executable() {
    let mut editor = FsEditor::new("/w");
    let events = file_events("x", "f1", b"SVN\0".to_vec());
    let prop = EditorEvent::ChangeFileProp {
        file_token: "f1".to_string(),
        name: "svn:executable".to_string(),
        value: Some(b"*".to_vec()),
    };
    let mut last = String::new();
    for event in events[..4].iter().cloned().chain([prop, events[4].clone()]) {
        let plan = editor.on_event(event);
        last = format!("{:?}", plan.actions);
        editor.confirm(plan.outcome.unwrap());
    }
    assert!(last.contains("executable: Some(true)"));
    assert_eq!(executable_mode(0o644, true), 0o755);
    assert_eq!(executable_mode(0o755, false), 0o644);
}

#[test]
fn copies_count_for_one_editor_only() {
    let event = EditorEvent::AddDir {
        path: "b".to_string(),
        parent_token: "d0".to_string(),
        child_token: "d1".to_string(),
        copy_from: Some(("a".to_string(), 3)),
    };
    let plan = FsEditor::new("/w").on_event(event.clone());
    assert_eq!(plan.actions.len(), 1);
    let plan = TokioFsEditor::new("/w").on_event(event);
    assert_eq!(plan.actions.len(), 2);
    assert!(matches!(plan.actions[1], FsAction::CopyDir { .. }));
}

#[test]
fn an_aborted_export_drops_its_temporary_files() {
    let mut editor = FsEditor::new("/w");
    for event in file_events("x", "f1", b"SVN\0".to_vec()).into_iter().take(3) {
        let plan = editor.on_event(event);
        editor.confirm(plan.outcome.unwrap());
    }
    let plan = editor.on_event(EditorEvent::AbortEdit);
    assert!(plan
        .actions
        .iter()
        .any(|a| matches!(a, FsAction::DropTmp { path } if path == "/w/.svn-rs.x.f1.1.tmp")));
}

#[test]
fn deltas_for_unknown_files_are_refused() {
    let mut editor = FsEditor::new("/w");
    let plan = editor.on_event(EditorEvent::TextDeltaChunk {
        file_token: "f9".to_string(),
        chunk: vec![1],
    });
    assert!(matches!(plan.outcome, Err(SvnError::Protocol(_))));
    assert!(plan.actions.is_empty());
}

#[test]
fn exported_paths_stay_below_the_root() {
    let none = None;
    let trunk = Some("trunk".to_string());
    assert_eq!(map_repo_path_to_fs("/w", &none, "/a/b", false).unwrap(), "/w/a/b");
    assert_eq!(map_repo_path_to_fs("/w", &trunk, "trunk/b", false).unwrap(), "/w/b");
    assert_eq!(map_repo_path_to_fs("/w", &trunk, "trunk", true).unwrap(), "/w");
    assert!(matches!(
        map_repo_path_to_fs("/w", &trunk, "trunk", false),
        Err(SvnError::InvalidPath(_))
    ));
    assert!(map_repo_path_to_fs("/w", &none, "a/../../b", false).is_err());
}

#[test]
fn an_export_asks_for_everything() {
    let report = export_report(Depth::Infinity);
    assert_eq!(
        report.commands,
        vec![
            ReportCommand::SetPath {
                path: String::new(),
                rev: 0,
                start_empty: true,
                lock_token: None,
                depth: Depth::Infinity,
            },
            ReportCommand::FinishReport,
        ]
    );
}

#[test]
fn links_are_never_written_through() {
    assert!(guard_step(FsNode::Dir).unwrap());
    assert!(!guard_step(FsNode::Missing).unwrap());
    assert!(matches!(guard_step(FsNode::Link), Err(SvnError::InvalidPath(_))));
    assert_eq!(make_dir_step(FsNode::Missing, false).unwrap(), DirStep::Create);
    assert_eq!(make_dir_step(FsNode::Dir, true).unwrap(), DirStep::Next);
    assert!(make_dir_step(FsNode::File, false).is_err());
    assert!(make_dir_step(FsNode::Link, true).is_err());
    match check_delta_target(FsNode::Link, false) {
        Err(SvnError::InvalidPath(m)) => {
            assert_eq!(m, "refusing to apply textdelta to a symlink");
        }
        other => panic!("{other:?}"),
    }
    match check_delta_target(FsNode::Link, true) {
        Err(SvnError::InvalidPath(m)) => {
            assert_eq!(m, "refusing to apply textdelta to a symlink/reparse point");
        }
        other => panic!("{other:?}"),
    }
    check_delta_target(FsNode::File, true).unwrap();
    assert!(check_copy_into(FsNode::Link).is_err());
    assert_eq!(removal_of(FsNode::Link), Removal::File);
    assert_eq!(removal_of(FsNode::Dir), Removal::Tree);
    assert_eq!(removal_of(FsNode::Missing), Removal::Nothing);
}

#[test]
fn copies_fill_in_what_is_missing() {
    assert_eq!(
        copy_step(FsNode::Dir, FsNode::Dir, true).unwrap(),
        CopyStep::Descend
    );
    assert_eq!(
        copy_step(FsNode::File, FsNode::File, true).unwrap(),
        CopyStep::Skip
    );
    assert_eq!(
        copy_step(FsNode::File, FsNode::Missing, true).unwrap(),
        CopyStep::CopyFile
    );
    assert!(copy_step(FsNode::Link, FsNode::Missing, false).is_err());
    assert!(check_copy("/w/a", "/w/a/b").is_err());
    check_copy("/w/a", "/w/ab").unwrap();
    assert!(require_file(FsNode::Missing, Some(FsNode::File)).unwrap());
    assert!(require_file(FsNode::Missing, None).is_err());
    assert_eq!(
        steps_below("/w", "/w/a/b").unwrap(),
        vec!["/w/a".to_string(), "/w/a/b".to_string()]
    );
    assert!(steps_below("/w", "/x/a").is_err());
}
