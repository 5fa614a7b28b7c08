//! What an editor drive says on the wire: each step in the form of the protocol, and read
//! from that form as the step that it is.

use vstd::prelude::*;

use crate::answer_laws::{fails, lemma_path, properties_are_read_as_sent, says_path};
use crate::edit::{
    after_event_of, command_params, drive_step_of, lemma_names_differ, parse_event, report_lines,
    report_params, DriveActionView, DriveEnd, DriveStepView,
};
use crate::editor::{EditView, ReportView};
use crate::error::{error_text, ErrorView, ServerErrorItemView};
use crate::parse::proplist;
use crate::path::rel_path;
use crate::raw::ItemView;
use crate::server::{
    arg, called, calls, lemma_utf8, may_say_bytes, may_say_number, may_say_text, says_bytes,
    says_number, says_props, says_text,
};
use crate::wire::{command_item, encode_line};

verus! {

/// The item names the entry that a path stands for.
pub open spec fn sends_path(i: ItemView, path: Seq<char>) -> bool {
    rel_path(path) matches Ok(p) && says_text(i, p)
}

/// The item names what an entry is copied from, if it is copied.
pub open spec fn sends_copy(i: ItemView, copy: Option<(Seq<char>, u64)>) -> bool {
    i matches ItemView::List(v) && match copy {
        Some((path, rev)) => v.len() == 2 && sends_path(v[0], path) && says_number(v[1], rev),
        None => v.len() == 0,
    }
}

/// The name and the parameters are those of a command, as the protocol has it.
pub open spec fn sends_step(name: Seq<char>, p: Seq<ItemView>, c: EditView) -> bool {
    match c {
        EditView::OpenRoot { rev, token } => name == "open-root"@ && p.len() == 2
            && may_say_number(p[0], rev) && says_text(p[1], token),
        EditView::DeleteEntry { path, rev, dir_token } => name == "delete-entry"@ && p.len() == 3
            && sends_path(p[0], path) && says_number(p[1], rev) && says_text(p[2], dir_token),
        EditView::AddDir { path, parent_token, child_token, copy_from } => name == "add-dir"@
            && p.len() == 4 && sends_path(p[0], path) && says_text(p[1], parent_token) && says_text(
            p[2],
            child_token,
        ) && sends_copy(p[3], copy_from),
        EditView::OpenDir { path, parent_token, child_token, rev } => name == "open-dir"@
            && p.len() == 4 && sends_path(p[0], path) && says_text(p[1], parent_token) && says_text(
            p[2],
            child_token,
        ) && says_number(p[3], rev),
        EditView::ChangeDirProp { dir_token, name: prop, value } => name == "change-dir-prop"@
            && p.len() == 3 && says_text(p[0], dir_token) && says_text(p[1], prop)
            && may_say_bytes(p[2], value),
        EditView::CloseDir { dir_token } => name == "close-dir"@ && p.len() == 1 && says_text(
            p[0],
            dir_token,
        ),
        EditView::AbsentDir { path, parent_token } => name == "absent-dir"@ && p.len() == 2
            && sends_path(p[0], path) && says_text(p[1], parent_token),
        EditView::AddFile { path, dir_token, file_token, copy_from } => name == "add-file"@
            && p.len() == 4 && sends_path(p[0], path) && says_text(p[1], dir_token) && says_text(
            p[2],
            file_token,
        ) && sends_copy(p[3], copy_from),
        EditView::OpenFile { path, dir_token, file_token, rev } => name == "open-file"@ && p.len()
            == 4 && sends_path(p[0], path) && says_text(p[1], dir_token) && says_text(
            p[2],
            file_token,
        ) && says_number(p[3], rev),
        EditView::ApplyTextDelta { file_token, base_checksum } => name == "apply-textdelta"@
            && p.len() == 2 && says_text(p[0], file_token) && may_say_text(p[1], base_checksum),
        EditView::TextDeltaChunk { file_token, chunk } => name == "textdelta-chunk"@ && p.len()
            == 2 && says_text(p[0], file_token) && says_bytes(p[1], chunk),
        EditView::TextDeltaEnd { file_token } => name == "textdelta-end"@ && p.len() == 1
            && says_text(p[0], file_token),
        EditView::ChangeFileProp { file_token, name: prop, value } => name == "change-file-prop"@
            && p.len() == 3 && says_text(p[0], file_token) && says_text(p[1], prop)
            && may_say_bytes(p[2], value),
        EditView::CloseFile { file_token, text_checksum } => name == "close-file"@ && p.len() == 2
            && says_text(p[0], file_token) && may_say_text(p[1], text_checksum),
        EditView::AbsentFile { path, parent_token } => name == "absent-file"@ && p.len() == 2
            && sends_path(p[0], path) && says_text(p[1], parent_token),
        EditView::CloseEdit => name == "close-edit"@ && p.len() == 0,
        EditView::AbortEdit => name == "abort-edit"@ && p.len() == 0,
        _ => false,
    }
}

/// A path that a step names is refused with this error.
pub open spec fn path_refused(c: EditView, e: ErrorView) -> bool {
    let err = Err::<Seq<char>, ErrorView>(e);
    match c {
        EditView::DeleteEntry { path, .. } => rel_path(path) == err,
        EditView::AddDir { path, copy_from, .. } => rel_path(path) == err || (
        copy_from matches Some((from, _)) && rel_path(from) == err),
        EditView::OpenDir { path, .. } => rel_path(path) == err,
        EditView::AbsentDir { path, .. } => rel_path(path) == err,
        EditView::AddFile { path, copy_from, .. } => rel_path(path) == err || (
        copy_from matches Some((from, _)) && rel_path(from) == err),
        EditView::OpenFile { path, .. } => rel_path(path) == err,
        EditView::AbsentFile { path, .. } => rel_path(path) == err,
        EditView::TargetRev { .. } | EditView::FinishReplay | EditView::RevProps { .. } => e
            is Protocol,
        _ => false,
    }
}

/// A command is sent in the form of the protocol, or a path that it names is refused.
pub open spec fn sent_or_refused(c: EditView) -> bool {
    match command_params(c) {
        Ok((name, p)) => sends_step(name, p, c),
        Err(e) => path_refused(c, e),
    }
}

proof fn lemma_add_dir(c: EditView)
    requires
        c is AddDir,
    ensures
        sent_or_refused(c),
{
    match c {
        EditView::AddDir { path, parent_token, child_token, copy_from } => {
            lemma_entry(path, parent_token, child_token, copy_from);
        },
        _ => {},
    }
}

proof fn lemma_add_file(c: EditView)
    requires
        c is AddFile,
    ensures
        sent_or_refused(c),
{
    match c {
        EditView::AddFile { path, dir_token, file_token, copy_from } => {
            lemma_entry(path, dir_token, file_token, copy_from);
        },
        _ => {},
    }
}

proof fn lemma_opened(c: EditView)
    requires
        c is OpenDir || c is OpenFile,
    ensures
        sent_or_refused(c),
{
    match c {
        EditView::OpenDir { path, parent_token, child_token, .. } => {
            lemma_entry(path, parent_token, child_token, None);
        },
        EditView::OpenFile { path, dir_token, file_token, .. } => {
            lemma_entry(path, dir_token, file_token, None);
        },
        _ => {},
    }
}

proof fn lemma_absent(c: EditView)
    requires
        c is DeleteEntry || c is AbsentDir || c is AbsentFile,
    ensures
        sent_or_refused(c),
{
    match c {
        EditView::DeleteEntry { path, dir_token, .. } => {
            lemma_entry(path, dir_token, dir_token, None);
        },
        EditView::AbsentDir { path, parent_token } => {
            lemma_entry(path, parent_token, parent_token, None);
        },
        EditView::AbsentFile { path, parent_token } => {
            lemma_entry(path, parent_token, parent_token, None);
        },
        _ => {},
    }
}

proof fn lemma_props(c: EditView)
    requires
        c is ChangeDirProp || c is ChangeFileProp,
    ensures
        sent_or_refused(c),
{
    match c {
        EditView::ChangeDirProp { dir_token, name, .. } => {
            lemma_utf8(dir_token);
            lemma_utf8(name);
        },
        EditView::ChangeFileProp { file_token, name, .. } => {
            lemma_utf8(file_token);
            lemma_utf8(name);
        },
        _ => {},
    }
}

proof fn lemma_checksums(c: EditView)
    requires
        c is ApplyTextDelta || c is CloseFile,
    ensures
        sent_or_refused(c),
{
    match c {
        EditView::ApplyTextDelta { file_token, base_checksum } => {
            lemma_utf8(file_token);
            if let Some(x) = base_checksum {
                lemma_utf8(x);
            }
        },
        EditView::CloseFile { file_token, text_checksum } => {
            lemma_utf8(file_token);
            if let Some(x) = text_checksum {
                lemma_utf8(x);
            }
        },
        _ => {},
    }
}

proof fn lemma_tokens(c: EditView)
    requires
        c is OpenRoot || c is CloseDir || c is TextDeltaChunk || c is TextDeltaEnd,
    ensures
        sent_or_refused(c),
{
    match c {
        EditView::OpenRoot { token, .. } => {
            lemma_utf8(token);
        },
        EditView::CloseDir { dir_token } => {
            lemma_utf8(dir_token);
        },
        EditView::TextDeltaChunk { file_token, .. } => {
            lemma_utf8(file_token);
        },
        EditView::TextDeltaEnd { file_token } => {
            lemma_utf8(file_token);
        },
        _ => {},
    }
}

/// A command of a drive is sent in the form of the protocol, with everything that it says:
/// its path, its tokens, its revision, its checksum, what it is copied from, the name and
/// the value of its property, and the bytes of its chunk. It is refused only where a path
/// is.
pub proof fn a_command_is_sent_as_it_is(c: EditView)
    ensures
        match command_params(c) {
            Ok((name, p)) => sends_step(name, p, c),
            Err(e) => path_refused(c, e),
        },
{
    assert(sent_or_refused(c)) by {
        match c {
            EditView::AddDir { .. } => lemma_add_dir(c),
            EditView::AddFile { .. } => lemma_add_file(c),
            EditView::OpenDir { .. } => lemma_opened(c),
            EditView::OpenFile { .. } => lemma_opened(c),
            EditView::DeleteEntry { .. } => lemma_absent(c),
            EditView::AbsentDir { .. } => lemma_absent(c),
            EditView::AbsentFile { .. } => lemma_absent(c),
            EditView::ChangeDirProp { .. } => lemma_props(c),
            EditView::ChangeFileProp { .. } => lemma_props(c),
            EditView::ApplyTextDelta { .. } => lemma_checksums(c),
            EditView::CloseFile { .. } => lemma_checksums(c),
            EditView::OpenRoot { .. } => lemma_tokens(c),
            EditView::CloseDir { .. } => lemma_tokens(c),
            EditView::TextDeltaChunk { .. } => lemma_tokens(c),
            EditView::TextDeltaEnd { .. } => lemma_tokens(c),
            _ => {},
        }
    }
}

proof fn lemma_entry(
    path: Seq<char>,
    a: Seq<char>,
    b: Seq<char>,
    copy: Option<(Seq<char>, u64)>,
)
    ensures
        rel_path(path) matches Ok(p) ==> says_text(crate::raw::text_item(p), p),
        says_text(crate::raw::text_item(a), a),
        says_text(crate::raw::text_item(b), b),
        copy matches Some((from, _)) ==> (rel_path(from) matches Ok(p) ==> says_text(
            crate::raw::text_item(p),
            p,
        )),
{
    if let Ok(p) = rel_path(path) {
        lemma_utf8(p);
    }
    lemma_utf8(a);
    lemma_utf8(b);
    if let Some((from, _)) = copy {
        if let Ok(p) = rel_path(from) {
            lemma_utf8(p);
        }
    }
}

/// The item says what an entry is copied from, if it is copied.
pub open spec fn says_copy(i: ItemView, copy: Option<(Seq<char>, u64)>) -> bool {
    i matches ItemView::List(v) && match copy {
        Some((path, rev)) => v.len() == 2 && says_path(v[0], path) && says_number(v[1], rev),
        None => v.len() == 0,
    }
}

/// The name and the parameters are those of a step that a server sends.
pub open spec fn says_event(name: Seq<char>, p: Seq<ItemView>, e: EditView) -> bool {
    match e {
        EditView::TargetRev { rev } => name == "target-rev"@ && p.len() == 1 && says_number(
            p[0],
            rev,
        ),
        EditView::OpenRoot { rev, token } => name == "open-root"@ && p.len() == 2
            && may_say_number(p[0], rev) && says_text(p[1], token),
        EditView::DeleteEntry { path, rev, dir_token } => name == "delete-entry"@ && p.len() == 3
            && says_path(p[0], path) && says_number(p[1], rev) && says_text(p[2], dir_token),
        EditView::AddDir { path, parent_token, child_token, copy_from } => name == "add-dir"@
            && p.len() == 4 && says_path(p[0], path) && says_text(p[1], parent_token) && says_text(
            p[2],
            child_token,
        ) && says_copy(p[3], copy_from),
        EditView::OpenDir { path, parent_token, child_token, rev } => name == "open-dir"@
            && p.len() == 4 && says_path(p[0], path) && says_text(p[1], parent_token) && says_text(
            p[2],
            child_token,
        ) && says_number(p[3], rev),
        EditView::ChangeDirProp { dir_token, name: prop, value } => name == "change-dir-prop"@
            && p.len() == 3 && says_text(p[0], dir_token) && says_text(p[1], prop)
            && may_say_bytes(p[2], value),
        EditView::CloseDir { dir_token } => name == "close-dir"@ && p.len() == 1 && says_text(
            p[0],
            dir_token,
        ),
        EditView::AbsentDir { path, parent_token } => name == "absent-dir"@ && p.len() == 2
            && says_path(p[0], path) && says_text(p[1], parent_token),
        EditView::AddFile { path, dir_token, file_token, copy_from } => name == "add-file"@
            && p.len() == 4 && says_path(p[0], path) && says_text(p[1], dir_token) && says_text(
            p[2],
            file_token,
        ) && says_copy(p[3], copy_from),
        EditView::OpenFile { path, dir_token, file_token, rev } => name == "open-file"@ && p.len()
            == 4 && says_path(p[0], path) && says_text(p[1], dir_token) && says_text(
            p[2],
            file_token,
        ) && says_number(p[3], rev),
        EditView::ApplyTextDelta { file_token, base_checksum } => name == "apply-textdelta"@
            && p.len() == 2 && says_text(p[0], file_token) && may_say_text(p[1], base_checksum),
        EditView::TextDeltaChunk { file_token, chunk } => name == "textdelta-chunk"@ && p.len()
            == 2 && says_text(p[0], file_token) && says_bytes(p[1], chunk),
        EditView::TextDeltaEnd { file_token } => name == "textdelta-end"@ && p.len() == 1
            && says_text(p[0], file_token),
        EditView::ChangeFileProp { file_token, name: prop, value } => name == "change-file-prop"@
            && p.len() == 3 && says_text(p[0], file_token) && says_text(p[1], prop)
            && may_say_bytes(p[2], value),
        EditView::CloseFile { file_token, text_checksum } => name == "close-file"@ && p.len() == 2
            && says_text(p[0], file_token) && may_say_text(p[1], text_checksum),
        EditView::AbsentFile { path, parent_token } => name == "absent-file"@ && p.len() == 2
            && says_path(p[0], path) && says_text(p[1], parent_token),
        EditView::RevProps { props } => name == "revprops"@ && says_props(
            ItemView::List(p),
            props,
        ),
        _ => false,
    }
}

/// A step of a drive is read as the server sends it: its path, its tokens, its revision,
/// its checksum, what it is copied from, the name and the value of its property, and the
/// bytes of its chunk.
#[verifier::rlimit(60)]
pub proof fn an_event_is_read_as_sent(name: Seq<char>, p: Seq<ItemView>, e: EditView)
    requires
        says_event(name, p, e),
    ensures
        parse_event(name, p) == Ok::<EditView, ErrorView>(e),
{
    lemma_names_differ();
    match e {
        EditView::DeleteEntry { path, .. } => lemma_path(p[0], path),
        EditView::AddDir { path, copy_from, .. } => {
            lemma_path(p[0], path);
            if let Some((from, _)) = copy_from {
                lemma_path(p[3]->List_0[0], from);
            }
        },
        EditView::OpenDir { path, .. } => lemma_path(p[0], path),
        EditView::AbsentDir { path, .. } => lemma_path(p[0], path),
        EditView::AddFile { path, copy_from, .. } => {
            lemma_path(p[0], path);
            if let Some((from, _)) = copy_from {
                lemma_path(p[3]->List_0[0], from);
            }
        },
        EditView::OpenFile { path, .. } => lemma_path(p[0], path),
        EditView::AbsentFile { path, .. } => lemma_path(p[0], path),
        EditView::RevProps { props } => {
            lemma_revprops_differs();
            properties_are_read_as_sent(ItemView::List(p), props);
            assert(proplist(ItemView::List(p)) == Ok::<Map<Seq<char>, Seq<u8>>, ErrorView>(props));
        },
        _ => {},
    }
}

/// The name `revprops` is none of the others.
pub(crate) proof fn lemma_revprops_differs()
    ensures
        "revprops"@ != "target-rev"@,
        "revprops"@ != "open-root"@,
        "revprops"@ != "delete-entry"@,
        "revprops"@ != "add-dir"@,
        "revprops"@ != "open-dir"@,
        "revprops"@ != "change-dir-prop"@,
        "revprops"@ != "absent-dir"@,
        "revprops"@ != "add-file"@,
        "revprops"@ != "open-file"@,
        "revprops"@ != "apply-textdelta"@,
        "revprops"@ != "textdelta-chunk"@,
        "revprops"@ != "change-file-prop"@,
        "revprops"@ != "close-file"@,
        "revprops"@ != "absent-file"@,
        "revprops"@ != "close-dir"@,
        "revprops"@ != "textdelta-end"@,
{
    reveal_strlit("revprops");
    reveal_strlit("target-rev");
    reveal_strlit("open-root");
    reveal_strlit("delete-entry");
    reveal_strlit("add-dir");
    reveal_strlit("open-dir");
    reveal_strlit("change-dir-prop");
    reveal_strlit("absent-dir");
    reveal_strlit("add-file");
    reveal_strlit("open-file");
    reveal_strlit("apply-textdelta");
    reveal_strlit("textdelta-chunk");
    reveal_strlit("change-file-prop");
    reveal_strlit("close-file");
    reveal_strlit("absent-file");
    reveal_strlit("close-dir");
    reveal_strlit("textdelta-end");
    assert("revprops"@[0] == 'r');
    assert("target-rev"@[0] != 'r');
    assert("open-root"@[0] != 'r');
    assert("delete-entry"@[0] != 'r');
    assert("add-dir"@[0] != 'r');
    assert("open-dir"@[0] != 'r');
    assert("change-dir-prop"@[0] != 'r');
    assert("absent-dir"@[0] != 'r');
    assert("add-file"@[0] != 'r');
    assert("open-file"@[0] != 'r');
    assert("apply-textdelta"@[0] != 'r');
    assert("textdelta-chunk"@[0] != 'r');
    assert("change-file-prop"@[0] != 'r');
    assert("close-file"@[0] != 'r');
    assert("absent-file"@[0] != 'r');
    assert("close-dir"@[0] != 'r');
    assert("textdelta-end"@[0] != 'r');
}

/// A drive is delivered step by step as the server sends it, until the edit is closed or
/// aborted, or, in a replay, the revision is finished; a failure of the server ends it.
pub proof fn a_drive_is_delivered_as_sent(
    i: ItemView,
    e: EditView,
    for_replay: bool,
    chain: Seq<ServerErrorItemView>,
)
    ensures
        called(i) matches Some((name, p)) && says_event(name, p, e) ==> drive_step_of(i, for_replay)
            == Ok::<DriveStepView, ErrorView>(DriveStepView::Deliver(e, DriveEnd::Continue)),
        calls(i, "close-edit"@, 0) ==> drive_step_of(i, for_replay) == Ok::<
            DriveStepView,
            ErrorView,
        >(DriveStepView::Deliver(EditView::CloseEdit, DriveEnd::FinishWithSuccess)),
        calls(i, "abort-edit"@, 0) ==> drive_step_of(i, for_replay) == Ok::<
            DriveStepView,
            ErrorView,
        >(DriveStepView::Deliver(EditView::AbortEdit, DriveEnd::FinishWithSuccess)),
        calls(i, "finish-replay"@, 0) && for_replay ==> drive_step_of(i, for_replay) == Ok::<
            DriveStepView,
            ErrorView,
        >(DriveStepView::Deliver(EditView::FinishReplay, DriveEnd::Finish)),
        calls(i, "finish-replay"@, 0) && !for_replay ==> drive_step_of(i, for_replay) is Err,
        fails(i, chain) ==> (drive_step_of(i, for_replay) matches Err(ErrorView::Server(x))
            && x.chain == chain),
{
    lemma_ends_differ();
    if let Some((name, p)) = called(i) {
        if says_event(name, p, e) {
            an_event_is_read_as_sent(name, p, e);
        }
    }
    if fails(i, chain) {
        crate::answer_laws::lemma_errors(i->List_0[1]->List_0, chain);
    }
}

/// The names that end a drive are none of those of its steps.
proof fn lemma_ends_differ()
    ensures
        forall|name: Seq<char>, p: Seq<ItemView>, e: EditView| #[trigger]
            says_event(name, p, e) ==> name != "failure"@ && name != "finish-replay"@ && name
                != "close-edit"@ && name != "abort-edit"@,
        "failure"@ != "finish-replay"@,
        "failure"@ != "close-edit"@,
        "failure"@ != "abort-edit"@,
        "finish-replay"@ != "close-edit"@,
        "finish-replay"@ != "abort-edit"@,
        "close-edit"@ != "abort-edit"@,
{
    reveal_strlit("failure");
    reveal_strlit("finish-replay");
    reveal_strlit("close-edit");
    reveal_strlit("abort-edit");
    reveal_strlit("target-rev");
    reveal_strlit("open-root");
    reveal_strlit("delete-entry");
    reveal_strlit("add-dir");
    reveal_strlit("open-dir");
    reveal_strlit("change-dir-prop");
    reveal_strlit("close-dir");
    reveal_strlit("absent-dir");
    reveal_strlit("add-file");
    reveal_strlit("open-file");
    reveal_strlit("apply-textdelta");
    reveal_strlit("textdelta-chunk");
    reveal_strlit("textdelta-end");
    reveal_strlit("change-file-prop");
    reveal_strlit("close-file");
    reveal_strlit("absent-file");
    reveal_strlit("revprops");
    assert("failure"@[0] == 'f' && "finish-replay"@[0] == 'f' && "close-edit"@[0] == 'c'
        && "abort-edit"@[0] == 'a');
    assert("failure"@.len() != "finish-replay"@.len());
    assert("change-dir-prop"@.len() == 15 && "change-file-prop"@.len() == 16);
    assert("close-edit"@[6] == 'e' && "close-file"@[6] == 'f' && "close-dir"@.len() == 9);
    assert("abort-edit"@.len() == 10);
    assert("absent-dir"@[2] == 's' && "abort-edit"@[2] == 'o');
    assert("absent-file"@.len() == 11 && "apply-textdelta"@.len() == 15);
    assert("add-dir"@.len() == 7 && "add-file"@.len() == 8);
    assert("target-rev"@[0] == 't' && "open-root"@[0] == 'o' && "delete-entry"@[0] == 'd');
    assert("open-dir"@[0] == 'o' && "open-file"@[0] == 'o' && "textdelta-chunk"@[0] == 't');
    assert("textdelta-end"@[0] == 't' && "revprops"@[0] == 'r');
}

/// After a step that was taken well, the drive goes on, ends, or ends with the word that all
/// went well. A step that was refused breaks the drive off with a failure; where the drive
/// was to go on, what is still sent is read to its end.
pub proof fn a_drive_goes_on_as_it_is_taken(end: DriveEnd, e: ErrorView)
    ensures
        after_event_of(DriveEnd::Continue, None) is Continue,
        after_event_of(DriveEnd::Finish, None) is Finish,
        after_event_of(DriveEnd::FinishWithSuccess, None) matches DriveActionView::SendAndFinish(
            i,
        ) && calls(i, "success"@, 0),
        after_event_of(end, Some(e)) matches DriveActionView::SendAndBreakOff { item, drain }
            && drain == (end is Continue) && calls(item, "failure"@, 1) && tells_error(
            arg(item, 0),
            error_text(e),
        ),
{
    lemma_utf8(error_text(e));
}

/// An error as it is told to the server: the number one, a text, no file and no line.
pub open spec fn tells_error(i: ItemView, text: Seq<char>) -> bool {
    i matches ItemView::List(v) && v.len() == 4 && says_number(v[0], 1) && says_text(v[1], text)
        && says_bytes(v[2], Seq::empty()) && says_number(v[3], 0)
}

/// The lines of a report are those of its steps, one behind the other, up to the first one
/// that ends it.
pub proof fn a_report_is_sent_to_its_end(report: Seq<ReportView>, i: int, end: int)
    requires
        0 <= i <= end < report.len(),
        forall|k: int|
            i <= k < end ==> !((#[trigger] report[k]) is FinishReport) && !(report[k]
                is AbortReport),
        report[end] is FinishReport || report[end] is AbortReport,
    ensures
        report_lines(report, i) == lines_of(report, i, end + 1),
    decreases end - i,
{
    if i < end {
        assert(!(report[i] is FinishReport) && !(report[i] is AbortReport));
        a_report_is_sent_to_its_end(report, i + 1, end);
        lemma_lines(report, i, end + 1);
    } else {
        lemma_lines(report, i, i + 1);
        assert(lines_of(report, i + 1, i + 1) =~= Seq::empty());
        let (name, p) = report_params(report[i]);
        let line = encode_line(command_item(name, p));
        assert(line + Seq::<u8>::empty() =~= line);
    }
}

/// The line of a step of a report.
pub open spec fn line_of(c: ReportView) -> Seq<u8> {
    let (name, p) = report_params(c);
    encode_line(ItemView::List(seq![ItemView::Word(name), ItemView::List(p)]))
}

/// The lines of the steps between two indices, one behind the other.
pub open spec fn lines_of(report: Seq<ReportView>, from: int, to: int) -> Seq<u8>
    decreases to - from,
{
    if from >= to {
        Seq::empty()
    } else {
        lines_of(report, from, to - 1) + line_of(report[to - 1])
    }
}

proof fn lemma_lines(report: Seq<ReportView>, from: int, to: int)
    requires
        from < to,
    ensures
        lines_of(report, from, to) == line_of(report[from]) + lines_of(report, from + 1, to),
    decreases to - from,
{
    if from + 1 < to {
        lemma_lines(report, from, to - 1);
        assert(lines_of(report, from, to) =~= line_of(report[from]) + lines_of(
            report,
            from + 1,
            to,
        ));
    } else {
        assert(lines_of(report, from, from) =~= Seq::empty());
        assert(lines_of(report, from, to) =~= line_of(report[from]) + lines_of(
            report,
            from + 1,
            to,
        ));
    }
}

} // verus!
