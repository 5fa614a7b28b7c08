//! Editor drives on the wire: sending reports and editor commands, and reading the
//! events that a server sends.

use vstd::prelude::*;
use vstd::utf8::*;

use crate::conn::or_no_items;
use crate::editor::{
    copy_view, EditView, EditorCommand, EditorEvent, Report, ReportCommand, ReportView,
};
use crate::error::{
    error_text, protocol, result_view, ErrorView, SvnError,
};
use crate::parse::{
    item_at, list_at, nth, nth_list, nth_number, nth_string, nth_word, number_at, opt_tuple_bytes,
    opt_tuple_string, opt_tuple_u64, parse_prop_entries, parse_server_error, props_from,
    server_error, string_at, tuple_bytes, tuple_number, tuple_string, word_at,
};
use crate::params::{
    command0, command1, command2, command3, command4, command5, command6, list, nothing,
    opt_bytes_item, opt_item, opt_number, opt_number_item, opt_raw, opt_text, opt_text_item, text,
    word,
};
use crate::path::{accepted_paths_stay_inside, clean, rel_path, validate_rel_path};
use crate::raw::{
    bytes_string_of, clone_items, copy_bytes, list_of, number_of, string_of, text_item, word_of,
    ItemView, SvnItem,
};
use crate::text::{cat, str_eq, strip_leading, without_leading};
use crate::types::{depth_word, opt_bytes};
use crate::wire::{command_item, encode_item_line, encode_line};

verus! {

/// The text that an item must be; `what` names it in the error.
pub open spec fn req_text(item: ItemView, what: Seq<char>) -> Result<Seq<char>, ErrorView> {
    match string_of(item) {
        Some(s) => Ok(s),
        None => Err(ErrorView::Protocol(what + " not a string"@)),
    }
}

/// The path that an item must be, without leading slashes.
pub open spec fn req_path(item: ItemView, what: Seq<char>) -> Result<Seq<char>, ErrorView> {
    match req_text(item, what) {
        Ok(s) => Ok(strip_leading(s, '/')),
        Err(e) => Err(e),
    }
}

/// The bytes that an item must be.
pub open spec fn req_raw(item: ItemView, what: Seq<char>) -> Result<Seq<u8>, ErrorView> {
    match bytes_string_of(item) {
        Some(s) => Ok(s),
        None => Err(ErrorView::Protocol(what + " not a string"@)),
    }
}

/// The number that an item must be.
pub open spec fn req_number(item: ItemView, what: Seq<char>) -> Result<u64, ErrorView> {
    match number_of(item) {
        Some(n) => Ok(n),
        None => Err(ErrorView::Protocol(what + " not a number"@)),
    }
}

/// The text that an item must be; `ctx` names it in the error.
pub fn req_string(item: &SvnItem, ctx: &str) -> (r: Result<String, SvnError>)
    ensures
        result_view(r) == req_text(item.deep_view(), ctx@),
{
    match item.as_string() {
        Some(s) => Ok(s),
        None => Err(SvnError::Protocol(cat(ctx, " not a string"))),
    }
}

fn req_entry_path(item: &SvnItem, ctx: &str) -> (r: Result<String, SvnError>)
    ensures
        result_view(r) == req_path(item.deep_view(), ctx@),
{
    match req_string(item, ctx) {
        Ok(s) => Ok(without_leading(&s, '/')),
        Err(e) => Err(e),
    }
}

/// The bytes that an item must be; `ctx` names it in the error.
pub fn req_bytes(item: &SvnItem, ctx: &str) -> (r: Result<Vec<u8>, SvnError>)
    ensures
        match r {
            Ok(b) => req_raw(item.deep_view(), ctx@) == Ok::<Seq<u8>, ErrorView>(b@),
            Err(e) => req_raw(item.deep_view(), ctx@) == Err::<Seq<u8>, ErrorView>(e.deep_view()),
        },
{
    match item.as_bytes_string() {
        Some(s) => Ok(s),
        None => Err(SvnError::Protocol(cat(ctx, " not a string"))),
    }
}

/// The number that an item must be; `ctx` names it in the error.
pub fn req_u64(item: &SvnItem, ctx: &str) -> (r: Result<u64, SvnError>)
    ensures
        match r {
            Ok(n) => req_number(item.deep_view(), ctx@) == Ok::<u64, ErrorView>(n),
            Err(e) => req_number(item.deep_view(), ctx@) == Err::<u64, ErrorView>(e.deep_view()),
        },
{
    match item.as_u64() {
        Some(n) => Ok(n),
        None => Err(SvnError::Protocol(cat(ctx, " not a number"))),
    }
}

/// A copy source: the path, without leading slashes, and the revision.
pub open spec fn tuple_copy(item: ItemView) -> Option<(Seq<char>, u64)> {
    match list_of(item) {
        None => None,
        Some(items) => if items.len() < 2 {
            None
        } else {
            match string_of(items[0]) {
                None => None,
                Some(path) => match number_of(items[1]) {
                    None => None,
                    Some(rev) => Some((strip_leading(path, '/'), rev)),
                },
            }
        },
    }
}

/// A copy source: the path, without leading slashes, and the revision.
pub fn opt_tuple_copyfrom(item: &SvnItem) -> (r: Option<(String, u64)>)
    ensures
        copy_view(r) == tuple_copy(item.deep_view()),
{
    match item.as_list() {
        None => None,
        Some(items) => {
            if items.len() < 2 {
                return None;
            }
            let path = match items[0].as_string() {
                Some(p) => without_leading(&p, '/'),
                None => {
                    return None;
                },
            };
            match items[1].as_u64() {
                Some(rev) => Some((path, rev)),
                None => None,
            }
        },
    }
}

/// The copy source that the `i`-th parameter gives.
pub open spec fn nth_copy(p: Seq<ItemView>, i: int) -> Option<(Seq<char>, u64)> {
    match nth(p, i) {
        Some(x) => tuple_copy(x),
        None => None,
    }
}

/// The bytes that the `i`-th parameter gives.
pub open spec fn nth_tuple_bytes(p: Seq<ItemView>, i: int) -> Option<Seq<u8>> {
    match nth(p, i) {
        Some(x) => tuple_bytes(x),
        None => None,
    }
}

/// The text that the `i`-th parameter gives.
pub open spec fn nth_tuple_string(p: Seq<ItemView>, i: int) -> Option<Seq<char>> {
    match nth(p, i) {
        Some(x) => tuple_string(x),
        None => None,
    }
}

fn copy_at(params: &[SvnItem], i: usize) -> (r: Option<(String, u64)>)
    ensures
        copy_view(r) == nth_copy(params.deep_view(), i as int),
{
    match item_at(params, i) {
        Some(x) => opt_tuple_copyfrom(x),
        None => None,
    }
}

fn tuple_bytes_at(params: &[SvnItem], i: usize) -> (r: Option<Vec<u8>>)
    ensures
        opt_bytes(r) == nth_tuple_bytes(params.deep_view(), i as int),
{
    match item_at(params, i) {
        Some(x) => opt_tuple_bytes(x),
        None => None,
    }
}

fn tuple_string_at(params: &[SvnItem], i: usize) -> (r: Option<String>)
    ensures
        r.deep_view() == nth_tuple_string(params.deep_view(), i as int),
{
    match item_at(params, i) {
        Some(x) => opt_tuple_string(x),
        None => None,
    }
}

/// What a `delete-entry` event says.
pub open spec fn delete_entry_event(p: Seq<ItemView>) -> Result<EditView, ErrorView> {
    if p.len() < 3 {
        Err(ErrorView::Protocol("delete-entry params too short"@))
    } else {
        match req_path(p[0], "delete-entry path"@) {
            Err(e) => Err(e),
            Ok(path) => match req_number(p[1], "delete-entry rev"@) {
                Err(e) => Err(e),
                Ok(rev) => match req_text(p[2], "delete-entry dir token"@) {
                    Err(e) => Err(e),
                    Ok(dir_token) => Ok(EditView::DeleteEntry { path, rev, dir_token }),
                },
            },
        }
    }
}

fn parse_delete_entry(params: &[SvnItem]) -> (r: Result<EditorEvent, SvnError>)
    ensures
        result_view(r) == delete_entry_event(params.deep_view()),
{
    if params.len() < 3 {
        return Err(protocol("delete-entry params too short"));
    }
    let path = match req_entry_path(&params[0], "delete-entry path") {
        Ok(x) => x,
        Err(e) => {
            return Err(e);
        },
    };
    let rev = match req_u64(&params[1], "delete-entry rev") {
        Ok(x) => x,
        Err(e) => {
            return Err(e);
        },
    };
    let dir_token = match req_string(&params[2], "delete-entry dir token") {
        Ok(x) => x,
        Err(e) => {
            return Err(e);
        },
    };
    Ok(EditorEvent::DeleteEntry { path, rev, dir_token })
}

/// What an `add-dir` event says.
pub open spec fn add_dir_event(p: Seq<ItemView>) -> Result<EditView, ErrorView> {
    if p.len() < 3 {
        Err(ErrorView::Protocol("add-dir params too short"@))
    } else {
        match req_path(p[0], "add-dir path"@) {
            Err(e) => Err(e),
            Ok(path) => match req_text(p[1], "add-dir parent token"@) {
                Err(e) => Err(e),
                Ok(parent_token) => match req_text(p[2], "add-dir child token"@) {
                    Err(e) => Err(e),
                    Ok(child_token) => Ok(
                        EditView::AddDir {
                            path,
                            parent_token,
                            child_token,
                            copy_from: nth_copy(p, 3),
                        },
                    ),
                },
            },
        }
    }
}

fn parse_add_dir(params: &[SvnItem]) -> (r: Result<EditorEvent, SvnError>)
    ensures
        result_view(r) == add_dir_event(params.deep_view()),
{
    if params.len() < 3 {
        return Err(protocol("add-dir params too short"));
    }
    let path = match req_entry_path(&params[0], "add-dir path") {
        Ok(x) => x,
        Err(e) => {
            return Err(e);
        },
    };
    let parent_token = match req_string(&params[1], "add-dir parent token") {
        Ok(x) => x,
        Err(e) => {
            return Err(e);
        },
    };
    let child_token = match req_string(&params[2], "add-dir child token") {
        Ok(x) => x,
        Err(e) => {
            return Err(e);
        },
    };
    let copy_from = copy_at(params, 3);
    Ok(EditorEvent::AddDir { path, parent_token, child_token, copy_from })
}

/// What an `open-dir` event says.
pub open spec fn open_dir_event(p: Seq<ItemView>) -> Result<EditView, ErrorView> {
    if p.len() < 4 {
        Err(ErrorView::Protocol("open-dir params too short"@))
    } else {
        match req_path(p[0], "open-dir path"@) {
            Err(e) => Err(e),
            Ok(path) => match req_text(p[1], "open-dir parent token"@) {
                Err(e) => Err(e),
                Ok(parent_token) => match req_text(p[2], "open-dir child token"@) {
                    Err(e) => Err(e),
                    Ok(child_token) => match req_number(p[3], "open-dir rev"@) {
                        Err(e) => Err(e),
                        Ok(rev) => Ok(
                            EditView::OpenDir {
                                path,
                                parent_token,
                                child_token,
                                rev,
                            },
                        ),
                    },
                },
            },
        }
    }
}

fn parse_open_dir(params: &[SvnItem]) -> (r: Result<EditorEvent, SvnError>)
    ensures
        result_view(r) == open_dir_event(params.deep_view()),
{
    if params.len() < 4 {
        return Err(protocol("open-dir params too short"));
    }
    let path = match req_entry_path(&params[0], "open-dir path") {
        Ok(x) => x,
        Err(e) => {
            return Err(e);
        },
    };
    let parent_token = match req_string(&params[1], "open-dir parent token") {
        Ok(x) => x,
        Err(e) => {
            return Err(e);
        },
    };
    let child_token = match req_string(&params[2], "open-dir child token") {
        Ok(x) => x,
        Err(e) => {
            return Err(e);
        },
    };
    let rev = match req_u64(&params[3], "open-dir rev") {
        Ok(x) => x,
        Err(e) => {
            return Err(e);
        },
    };
    Ok(EditorEvent::OpenDir { path, parent_token, child_token, rev })
}

/// What a `change-dir-prop` event says.
pub open spec fn change_dir_prop_event(p: Seq<ItemView>) -> Result<EditView, ErrorView> {
    if p.len() < 2 {
        Err(ErrorView::Protocol("change-dir-prop params too short"@))
    } else {
        match req_text(p[0], "change-dir-prop token"@) {
            Err(e) => Err(e),
            Ok(dir_token) => match req_text(p[1], "change-dir-prop name"@) {
                Err(e) => Err(e),
                Ok(name) => Ok(
                    EditView::ChangeDirProp {
                        dir_token,
                        name,
                        value: nth_tuple_bytes(p, 2),
                    },
                ),
            },
        }
    }
}

fn parse_change_dir_prop(params: &[SvnItem]) -> (r: Result<EditorEvent, SvnError>)
    ensures
        result_view(r) == change_dir_prop_event(params.deep_view()),
{
    if params.len() < 2 {
        return Err(protocol("change-dir-prop params too short"));
    }
    let dir_token = match req_string(&params[0], "change-dir-prop token") {
        Ok(x) => x,
        Err(e) => {
            return Err(e);
        },
    };
    let name = match req_string(&params[1], "change-dir-prop name") {
        Ok(x) => x,
        Err(e) => {
            return Err(e);
        },
    };
    let value = tuple_bytes_at(params, 2);
    Ok(EditorEvent::ChangeDirProp { dir_token, name, value })
}

/// What an `absent-dir` event says.
pub open spec fn absent_dir_event(p: Seq<ItemView>) -> Result<EditView, ErrorView> {
    if p.len() < 2 {
        Err(ErrorView::Protocol("absent-dir params too short"@))
    } else {
        match req_path(p[0], "absent-dir path"@) {
            Err(e) => Err(e),
            Ok(path) => match req_text(p[1], "absent-dir parent token"@) {
                Err(e) => Err(e),
                Ok(parent_token) => Ok(EditView::AbsentDir { path, parent_token }),
            },
        }
    }
}

fn parse_absent_dir(params: &[SvnItem]) -> (r: Result<EditorEvent, SvnError>)
    ensures
        result_view(r) == absent_dir_event(params.deep_view()),
{
    if params.len() < 2 {
        return Err(protocol("absent-dir params too short"));
    }
    let path = match req_entry_path(&params[0], "absent-dir path") {
        Ok(x) => x,
        Err(e) => {
            return Err(e);
        },
    };
    let parent_token = match req_string(&params[1], "absent-dir parent token") {
        Ok(x) => x,
        Err(e) => {
            return Err(e);
        },
    };
    Ok(EditorEvent::AbsentDir { path, parent_token })
}

/// What an `add-file` event says.
pub open spec fn add_file_event(p: Seq<ItemView>) -> Result<EditView, ErrorView> {
    if p.len() < 3 {
        Err(ErrorView::Protocol("add-file params too short"@))
    } else {
        match req_path(p[0], "add-file path"@) {
            Err(e) => Err(e),
            Ok(path) => match req_text(p[1], "add-file dir token"@) {
                Err(e) => Err(e),
                Ok(dir_token) => match req_text(p[2], "add-file file token"@) {
                    Err(e) => Err(e),
                    Ok(file_token) => Ok(
                        EditView::AddFile {
                            path,
                            dir_token,
                            file_token,
                            copy_from: nth_copy(p, 3),
                        },
                    ),
                },
            },
        }
    }
}

fn parse_add_file(params: &[SvnItem]) -> (r: Result<EditorEvent, SvnError>)
    ensures
        result_view(r) == add_file_event(params.deep_view()),
{
    if params.len() < 3 {
        return Err(protocol("add-file params too short"));
    }
    let path = match req_entry_path(&params[0], "add-file path") {
        Ok(x) => x,
        Err(e) => {
            return Err(e);
        },
    };
    let dir_token = match req_string(&params[1], "add-file dir token") {
        Ok(x) => x,
        Err(e) => {
            return Err(e);
        },
    };
    let file_token = match req_string(&params[2], "add-file file token") {
        Ok(x) => x,
        Err(e) => {
            return Err(e);
        },
    };
    let copy_from = copy_at(params, 3);
    Ok(EditorEvent::AddFile { path, dir_token, file_token, copy_from })
}

/// What an `open-file` event says.
pub open spec fn open_file_event(p: Seq<ItemView>) -> Result<EditView, ErrorView> {
    if p.len() < 4 {
        Err(ErrorView::Protocol("open-file params too short"@))
    } else {
        match req_path(p[0], "open-file path"@) {
            Err(e) => Err(e),
            Ok(path) => match req_text(p[1], "open-file dir token"@) {
                Err(e) => Err(e),
                Ok(dir_token) => match req_text(p[2], "open-file file token"@) {
                    Err(e) => Err(e),
                    Ok(file_token) => match req_number(p[3], "open-file rev"@) {
                        Err(e) => Err(e),
                        Ok(rev) => Ok(EditView::OpenFile { path, dir_token, file_token, rev }),
                    },
                },
            },
        }
    }
}

fn parse_open_file(params: &[SvnItem]) -> (r: Result<EditorEvent, SvnError>)
    ensures
        result_view(r) == open_file_event(params.deep_view()),
{
    if params.len() < 4 {
        return Err(protocol("open-file params too short"));
    }
    let path = match req_entry_path(&params[0], "open-file path") {
        Ok(x) => x,
        Err(e) => {
            return Err(e);
        },
    };
    let dir_token = match req_string(&params[1], "open-file dir token") {
        Ok(x) => x,
        Err(e) => {
            return Err(e);
        },
    };
    let file_token = match req_string(&params[2], "open-file file token") {
        Ok(x) => x,
        Err(e) => {
            return Err(e);
        },
    };
    let rev = match req_u64(&params[3], "open-file rev") {
        Ok(x) => x,
        Err(e) => {
            return Err(e);
        },
    };
    Ok(EditorEvent::OpenFile { path, dir_token, file_token, rev })
}

/// What an `apply-textdelta` event says.
pub open spec fn apply_textdelta_event(p: Seq<ItemView>) -> Result<EditView, ErrorView> {
    if p.len() < 1 {
        Err(ErrorView::Protocol("apply-textdelta params too short"@))
    } else {
        match req_text(p[0], "apply-textdelta token"@) {
            Err(e) => Err(e),
            Ok(file_token) => Ok(
                EditView::ApplyTextDelta { file_token, base_checksum: nth_tuple_string(p, 1) },
            ),
        }
    }
}

fn parse_apply_textdelta(params: &[SvnItem]) -> (r: Result<EditorEvent, SvnError>)
    ensures
        result_view(r) == apply_textdelta_event(params.deep_view()),
{
    if params.len() < 1 {
        return Err(protocol("apply-textdelta params too short"));
    }
    let file_token = match req_string(&params[0], "apply-textdelta token") {
        Ok(x) => x,
        Err(e) => {
            return Err(e);
        },
    };
    let base_checksum = tuple_string_at(params, 1);
    Ok(EditorEvent::ApplyTextDelta { file_token, base_checksum })
}

/// What a `textdelta-chunk` event says.
pub open spec fn textdelta_chunk_event(p: Seq<ItemView>) -> Result<EditView, ErrorView> {
    if p.len() < 2 {
        Err(ErrorView::Protocol("textdelta-chunk params too short"@))
    } else {
        match req_text(p[0], "textdelta-chunk token"@) {
            Err(e) => Err(e),
            Ok(file_token) => match req_raw(p[1], "textdelta-chunk chunk"@) {
                Err(e) => Err(e),
                Ok(chunk) => Ok(EditView::TextDeltaChunk { file_token, chunk }),
            },
        }
    }
}

fn parse_textdelta_chunk(params: &[SvnItem]) -> (r: Result<EditorEvent, SvnError>)
    ensures
        result_view(r) == textdelta_chunk_event(params.deep_view()),
{
    if params.len() < 2 {
        return Err(protocol("textdelta-chunk params too short"));
    }
    let file_token = match req_string(&params[0], "textdelta-chunk token") {
        Ok(x) => x,
        Err(e) => {
            return Err(e);
        },
    };
    let chunk = match req_bytes(&params[1], "textdelta-chunk chunk") {
        Ok(x) => x,
        Err(e) => {
            return Err(e);
        },
    };
    Ok(EditorEvent::TextDeltaChunk { file_token, chunk })
}

/// What a `change-file-prop` event says.
pub open spec fn change_file_prop_event(p: Seq<ItemView>) -> Result<EditView, ErrorView> {
    if p.len() < 2 {
        Err(ErrorView::Protocol("change-file-prop params too short"@))
    } else {
        match req_text(p[0], "change-file-prop token"@) {
            Err(e) => Err(e),
            Ok(file_token) => match req_text(p[1], "change-file-prop name"@) {
                Err(e) => Err(e),
                Ok(name) => Ok(
                    EditView::ChangeFileProp {
                        file_token,
                        name,
                        value: nth_tuple_bytes(p, 2),
                    },
                ),
            },
        }
    }
}

fn parse_change_file_prop(params: &[SvnItem]) -> (r: Result<EditorEvent, SvnError>)
    ensures
        result_view(r) == change_file_prop_event(params.deep_view()),
{
    if params.len() < 2 {
        return Err(protocol("change-file-prop params too short"));
    }
    let file_token = match req_string(&params[0], "change-file-prop token") {
        Ok(x) => x,
        Err(e) => {
            return Err(e);
        },
    };
    let name = match req_string(&params[1], "change-file-prop name") {
        Ok(x) => x,
        Err(e) => {
            return Err(e);
        },
    };
    let value = tuple_bytes_at(params, 2);
    Ok(EditorEvent::ChangeFileProp { file_token, name, value })
}

/// What a `close-file` event says.
pub open spec fn close_file_event(p: Seq<ItemView>) -> Result<EditView, ErrorView> {
    if p.len() < 1 {
        Err(ErrorView::Protocol("close-file params too short"@))
    } else {
        match req_text(p[0], "close-file token"@) {
            Err(e) => Err(e),
            Ok(file_token) => Ok(
                EditView::CloseFile { file_token, text_checksum: nth_tuple_string(p, 1) },
            ),
        }
    }
}

fn parse_close_file(params: &[SvnItem]) -> (r: Result<EditorEvent, SvnError>)
    ensures
        result_view(r) == close_file_event(params.deep_view()),
{
    if params.len() < 1 {
        return Err(protocol("close-file params too short"));
    }
    let file_token = match req_string(&params[0], "close-file token") {
        Ok(x) => x,
        Err(e) => {
            return Err(e);
        },
    };
    let text_checksum = tuple_string_at(params, 1);
    Ok(EditorEvent::CloseFile { file_token, text_checksum })
}

/// What an `absent-file` event says.
pub open spec fn absent_file_event(p: Seq<ItemView>) -> Result<EditView, ErrorView> {
    if p.len() < 2 {
        Err(ErrorView::Protocol("absent-file params too short"@))
    } else {
        match req_path(p[0], "absent-file path"@) {
            Err(e) => Err(e),
            Ok(path) => match req_text(p[1], "absent-file parent token"@) {
                Err(e) => Err(e),
                Ok(parent_token) => Ok(EditView::AbsentFile { path, parent_token }),
            },
        }
    }
}

fn parse_absent_file(params: &[SvnItem]) -> (r: Result<EditorEvent, SvnError>)
    ensures
        result_view(r) == absent_file_event(params.deep_view()),
{
    if params.len() < 2 {
        return Err(protocol("absent-file params too short"));
    }
    let path = match req_entry_path(&params[0], "absent-file path") {
        Ok(x) => x,
        Err(e) => {
            return Err(e);
        },
    };
    let parent_token = match req_string(&params[1], "absent-file parent token") {
        Ok(x) => x,
        Err(e) => {
            return Err(e);
        },
    };
    Ok(EditorEvent::AbsentFile { path, parent_token })
}

/// What an `open-root` event says.
pub open spec fn open_root_event(p: Seq<ItemView>) -> Result<EditView, ErrorView> {
    if p.len() < 2 {
        Err(ErrorView::Protocol("open-root params too short"@))
    } else {
        match req_text(p[1], "open-root token"@) {
            Err(e) => Err(e),
            Ok(token) => Ok(EditView::OpenRoot { rev: tuple_number(p[0]), token }),
        }
    }
}

/// The text of the first parameter, which must be there; `missing` is the error.
pub open spec fn only_token(p: Seq<ItemView>, missing: Seq<char>) -> Result<Seq<char>, ErrorView> {
    match nth_string(p, 0) {
        Some(token) => Ok(token),
        None => Err(ErrorView::Protocol(missing)),
    }
}

fn first_token(params: &[SvnItem], missing: &str) -> (r: Result<String, SvnError>)
    ensures
        result_view(r) == only_token(params.deep_view(), missing@),
{
    match string_at(params, 0) {
        Some(token) => Ok(token),
        None => Err(protocol(missing)),
    }
}

/// What an editor command that a server sends says.
pub open spec fn parse_event(cmd: Seq<char>, p: Seq<ItemView>) -> Result<EditView, ErrorView> {
    if cmd == "target-rev"@ {
        match nth_number(p, 0) {
            Some(rev) => Ok(EditView::TargetRev { rev }),
            None => Err(ErrorView::Protocol("target-rev missing rev"@)),
        }
    } else if cmd == "open-root"@ {
        open_root_event(p)
    } else if cmd == "delete-entry"@ {
        delete_entry_event(p)
    } else if cmd == "add-dir"@ {
        add_dir_event(p)
    } else if cmd == "open-dir"@ {
        open_dir_event(p)
    } else if cmd == "change-dir-prop"@ {
        change_dir_prop_event(p)
    } else if cmd == "absent-dir"@ {
        absent_dir_event(p)
    } else if cmd == "add-file"@ {
        add_file_event(p)
    } else if cmd == "open-file"@ {
        open_file_event(p)
    } else if cmd == "apply-textdelta"@ {
        apply_textdelta_event(p)
    } else if cmd == "textdelta-chunk"@ {
        textdelta_chunk_event(p)
    } else if cmd == "change-file-prop"@ {
        change_file_prop_event(p)
    } else if cmd == "close-file"@ {
        close_file_event(p)
    } else if cmd == "absent-file"@ {
        absent_file_event(p)
    } else if cmd == "close-dir"@ {
        match only_token(p, "close-dir missing token"@) {
            Ok(dir_token) => Ok(EditView::CloseDir { dir_token }),
            Err(e) => Err(e),
        }
    } else if cmd == "textdelta-end"@ {
        match only_token(p, "textdelta-end missing token"@) {
            Ok(file_token) => Ok(EditView::TextDeltaEnd { file_token }),
            Err(e) => Err(e),
        }
    } else if cmd == "revprops"@ {
        match props_from(p, 0, Map::empty()) {
            Ok(props) => Ok(EditView::RevProps { props }),
            Err(e) => Err(e),
        }
    } else {
        Err(ErrorView::Protocol("unknown editor command: "@ + cmd))
    }
}

/// Reads an editor command that a server sends.
pub fn parse_editor_event(cmd: &str, params: &[SvnItem]) -> (r: Result<EditorEvent, SvnError>)
    ensures
        result_view(r) == parse_event(cmd@, params.deep_view()),
        r matches Ok(EditorEvent::RevProps { props }) ==> props.wf(),
{
    if str_eq(cmd, "target-rev") {
        match number_at(params, 0) {
            Some(rev) => Ok(EditorEvent::TargetRev { rev }),
            None => Err(protocol("target-rev missing rev")),
        }
    } else if str_eq(cmd, "open-root") {
        if params.len() < 2 {
            return Err(protocol("open-root params too short"));
        }
        let rev = opt_tuple_u64(&params[0]);
        match req_string(&params[1], "open-root token") {
            Ok(token) => Ok(EditorEvent::OpenRoot { rev, token }),
            Err(e) => Err(e),
        }
    } else if str_eq(cmd, "delete-entry") {
        parse_delete_entry(params)
    } else if str_eq(cmd, "add-dir") {
        parse_add_dir(params)
    } else if str_eq(cmd, "open-dir") {
        parse_open_dir(params)
    } else if str_eq(cmd, "change-dir-prop") {
        parse_change_dir_prop(params)
    } else if str_eq(cmd, "absent-dir") {
        parse_absent_dir(params)
    } else if str_eq(cmd, "add-file") {
        parse_add_file(params)
    } else if str_eq(cmd, "open-file") {
        parse_open_file(params)
    } else if str_eq(cmd, "apply-textdelta") {
        parse_apply_textdelta(params)
    } else if str_eq(cmd, "textdelta-chunk") {
        parse_textdelta_chunk(params)
    } else if str_eq(cmd, "change-file-prop") {
        parse_change_file_prop(params)
    } else if str_eq(cmd, "close-file") {
        parse_close_file(params)
    } else if str_eq(cmd, "absent-file") {
        parse_absent_file(params)
    } else if str_eq(cmd, "close-dir") {
        match first_token(params, "close-dir missing token") {
            Ok(dir_token) => Ok(EditorEvent::CloseDir { dir_token }),
            Err(e) => Err(e),
        }
    } else if str_eq(cmd, "textdelta-end") {
        match first_token(params, "textdelta-end missing token") {
            Ok(file_token) => Ok(EditorEvent::TextDeltaEnd { file_token }),
            Err(e) => Err(e),
        }
    } else if str_eq(cmd, "revprops") {
        match parse_prop_entries(params) {
            Ok(props) => Ok(EditorEvent::RevProps { props }),
            Err(e) => Err(e),
        }
    } else {
        Err(SvnError::Protocol(cat("unknown editor command: ", cmd)))
    }
}

/// A copy source as a parameter: a list of the path and the revision, or an empty list.
pub open spec fn copy_param(c: Option<(Seq<char>, u64)>) -> Result<ItemView, ErrorView> {
    match c {
        None => Ok(opt_item(None)),
        Some((path, rev)) => match rel_path(path) {
            Err(e) => Err(e),
            Ok(p) => Ok(ItemView::List(seq![text_item(p), ItemView::Number(rev)])),
        },
    }
}

/// The name and the parameters of an editor command. Paths are checked and normalised.
pub open spec fn command_params(c: EditView) -> Result<(Seq<char>, Seq<ItemView>), ErrorView> {
    match c {
        EditView::OpenRoot { rev, token } => Ok(
            ("open-root"@, seq![opt_number_item(rev), text_item(token)]),
        ),
        EditView::DeleteEntry { path, rev, dir_token } => match rel_path(path) {
            Err(e) => Err(e),
            Ok(p) => Ok(
                ("delete-entry"@, seq![text_item(p), ItemView::Number(rev), text_item(dir_token)]),
            ),
        },
        EditView::AddDir { path, parent_token, child_token, copy_from } => match rel_path(path) {
            Err(e) => Err(e),
            Ok(p) => match copy_param(copy_from) {
                Err(e) => Err(e),
                Ok(copy) => Ok(
                    (
                        "add-dir"@,
                        seq![text_item(p), text_item(parent_token), text_item(child_token), copy],
                    ),
                ),
            },
        },
        EditView::OpenDir { path, parent_token, child_token, rev } => match rel_path(path) {
            Err(e) => Err(e),
            Ok(p) => Ok(
                (
                    "open-dir"@,
                    seq![
                        text_item(p),
                        text_item(parent_token),
                        text_item(child_token),
                        ItemView::Number(rev),
                    ],
                ),
            ),
        },
        EditView::ChangeDirProp { dir_token, name, value } => Ok(
            (
                "change-dir-prop"@,
                seq![text_item(dir_token), text_item(name), opt_bytes_item(value)],
            ),
        ),
        EditView::CloseDir { dir_token } => Ok(("close-dir"@, seq![text_item(dir_token)])),
        EditView::AbsentDir { path, parent_token } => match rel_path(path) {
            Err(e) => Err(e),
            Ok(p) => Ok(("absent-dir"@, seq![text_item(p), text_item(parent_token)])),
        },
        EditView::AddFile { path, dir_token, file_token, copy_from } => match rel_path(path) {
            Err(e) => Err(e),
            Ok(p) => match copy_param(copy_from) {
                Err(e) => Err(e),
                Ok(copy) => Ok(
                    (
                        "add-file"@,
                        seq![text_item(p), text_item(dir_token), text_item(file_token), copy],
                    ),
                ),
            },
        },
        EditView::OpenFile { path, dir_token, file_token, rev } => match rel_path(path) {
            Err(e) => Err(e),
            Ok(p) => Ok(
                (
                    "open-file"@,
                    seq![
                        text_item(p),
                        text_item(dir_token),
                        text_item(file_token),
                        ItemView::Number(rev),
                    ],
                ),
            ),
        },
        EditView::ApplyTextDelta { file_token, base_checksum } => Ok(
            ("apply-textdelta"@, seq![text_item(file_token), opt_text_item(base_checksum)]),
        ),
        EditView::TextDeltaChunk { file_token, chunk } => Ok(
            ("textdelta-chunk"@, seq![text_item(file_token), ItemView::String(chunk)]),
        ),
        EditView::TextDeltaEnd { file_token } => Ok(
            ("textdelta-end"@, seq![text_item(file_token)]),
        ),
        EditView::ChangeFileProp { file_token, name, value } => Ok(
            (
                "change-file-prop"@,
                seq![text_item(file_token), text_item(name), opt_bytes_item(value)],
            ),
        ),
        EditView::CloseFile { file_token, text_checksum } => Ok(
            ("close-file"@, seq![text_item(file_token), opt_text_item(text_checksum)]),
        ),
        EditView::AbsentFile { path, parent_token } => match rel_path(path) {
            Err(e) => Err(e),
            Ok(p) => Ok(("absent-file"@, seq![text_item(p), text_item(parent_token)])),
        },
        EditView::CloseEdit => Ok(("close-edit"@, Seq::empty())),
        EditView::AbortEdit => Ok(("abort-edit"@, Seq::empty())),
        _ => Err(ErrorView::Protocol("not a command"@)),
    }
}

fn copy_source_item(c: &Option<(String, u64)>) -> (r: Result<SvnItem, SvnError>)
    ensures
        result_view(r) == copy_param(copy_view(*c)),
{
    match c {
        None => Ok(nothing()),
        Some((path, rev)) => match validate_rel_path(path) {
            Err(e) => Err(e),
            Ok(p) => {
                let items = vec![text(&p), SvnItem::Number(*rev)];
                assert(items.deep_view() =~= seq![text_item(p@), ItemView::Number(*rev)]);
                Ok(list(items))
            },
        },
    }
}

/// The item that carries an editor command.
pub fn editor_command_item(c: &EditorCommand) -> (r: Result<SvnItem, SvnError>)
    ensures
        match r {
            Ok(item) => command_params(c.deep_view()) matches Ok(p) && item.deep_view()
                == command_item(p.0, p.1),
            Err(e) => command_params(c.deep_view()) == Err::<
                (Seq<char>, Seq<ItemView>),
                ErrorView,
            >(e.deep_view()),
        },
{
    match c {
        EditorCommand::OpenRoot { rev, token } => {
            Ok(command2("open-root", opt_number(*rev), text(token)))
        },
        EditorCommand::DeleteEntry { path, rev, dir_token } => {
            let path = match validate_rel_path(path) {
                Ok(p) => p,
                Err(e) => {
                    return Err(e);
                },
            };
            Ok(command3("delete-entry", text(&path), SvnItem::Number(*rev), text(dir_token)))
        },
        EditorCommand::AddDir { path, parent_token, child_token, copy_from } => {
            let path = match validate_rel_path(path) {
                Ok(p) => p,
                Err(e) => {
                    return Err(e);
                },
            };
            let copy_item = match copy_source_item(copy_from) {
                Ok(x) => x,
                Err(e) => {
                    return Err(e);
                },
            };
            Ok(command4("add-dir", text(&path), text(parent_token), text(child_token), copy_item))
        },
        EditorCommand::OpenDir { path, parent_token, child_token, rev } => {
            let path = match validate_rel_path(path) {
                Ok(p) => p,
                Err(e) => {
                    return Err(e);
                },
            };
            Ok(
                command4(
                    "open-dir",
                    text(&path),
                    text(parent_token),
                    text(child_token),
                    SvnItem::Number(*rev),
                ),
            )
        },
        EditorCommand::ChangeDirProp { dir_token, name, value } => {
            Ok(command3("change-dir-prop", text(dir_token), text(name), opt_raw(value)))
        },
        EditorCommand::CloseDir { dir_token } => {
            Ok(command1("close-dir", text(dir_token)))
        },
        EditorCommand::AbsentDir { path, parent_token } => {
            let path = match validate_rel_path(path) {
                Ok(p) => p,
                Err(e) => {
                    return Err(e);
                },
            };
            Ok(command2("absent-dir", text(&path), text(parent_token)))
        },
        EditorCommand::AddFile { path, dir_token, file_token, copy_from } => {
            let path = match validate_rel_path(path) {
                Ok(p) => p,
                Err(e) => {
                    return Err(e);
                },
            };
            let copy_item = match copy_source_item(copy_from) {
                Ok(x) => x,
                Err(e) => {
                    return Err(e);
                },
            };
            Ok(command4("add-file", text(&path), text(dir_token), text(file_token), copy_item))
        },
        EditorCommand::OpenFile { path, dir_token, file_token, rev } => {
            let path = match validate_rel_path(path) {
                Ok(p) => p,
                Err(e) => {
                    return Err(e);
                },
            };
            Ok(
                command4(
                    "open-file",
                    text(&path),
                    text(dir_token),
                    text(file_token),
                    SvnItem::Number(*rev),
                ),
            )
        },
        EditorCommand::ApplyTextDelta { file_token, base_checksum } => {
            Ok(command2("apply-textdelta", text(file_token), opt_text(base_checksum)))
        },
        EditorCommand::TextDeltaChunk { file_token, chunk } => {
            Ok(command2("textdelta-chunk", text(file_token), SvnItem::String(copy_bytes(chunk))))
        },
        EditorCommand::TextDeltaEnd { file_token } => {
            Ok(command1("textdelta-end", text(file_token)))
        },
        EditorCommand::ChangeFileProp { file_token, name, value } => {
            Ok(command3("change-file-prop", text(file_token), text(name), opt_raw(value)))
        },
        EditorCommand::CloseFile { file_token, text_checksum } => {
            Ok(command2("close-file", text(file_token), opt_text(text_checksum)))
        },
        EditorCommand::AbsentFile { path, parent_token } => {
            let path = match validate_rel_path(path) {
                Ok(p) => p,
                Err(e) => {
                    return Err(e);
                },
            };
            Ok(command2("absent-file", text(&path), text(parent_token)))
        },
        EditorCommand::CloseEdit => Ok(command0("close-edit")),
        EditorCommand::AbortEdit => Ok(command0("abort-edit")),
    }
}

/// Appends the line that carries an editor command; nothing if it is refused.
pub fn encode_editor_command(c: &EditorCommand, out: &mut Vec<u8>) -> (r: Result<(), SvnError>)
    ensures
        match r {
            Ok(_) => command_params(c.deep_view()) matches Ok(p) && final(out)@ == old(out)@
                + encode_line(command_item(p.0, p.1)),
            Err(e) => final(out)@ == old(out)@ && command_params(c.deep_view()) == Err::<
                (Seq<char>, Seq<ItemView>),
                ErrorView,
            >(e.deep_view()),
        },
{
    match editor_command_item(c) {
        Ok(item) => {
            encode_item_line(&item, out);
            Ok(())
        },
        Err(e) => Err(e),
    }
}

/// The name and the parameters of a step of a report.
pub open spec fn report_params(c: ReportView) -> (Seq<char>, Seq<ItemView>) {
    match c {
        ReportView::SetPath { path, rev, start_empty, lock_token, depth } => (
            "set-path"@,
            seq![
                text_item(path),
                ItemView::Number(rev),
                ItemView::Bool(start_empty),
                opt_text_item(lock_token),
                ItemView::Word(depth_word(depth)),
            ],
        ),
        ReportView::DeletePath { path } => ("delete-path"@, seq![text_item(path)]),
        ReportView::LinkPath { path, url, rev, start_empty, lock_token, depth } => (
            "link-path"@,
            seq![
                text_item(path),
                text_item(url),
                ItemView::Number(rev),
                ItemView::Bool(start_empty),
                opt_text_item(lock_token),
                ItemView::Word(depth_word(depth)),
            ],
        ),
        ReportView::FinishReport => ("finish-report"@, Seq::empty()),
        ReportView::AbortReport => ("abort-report"@, Seq::empty()),
    }
}

/// The step ends a report.
pub open spec fn ends_report(c: ReportView) -> bool {
    c is FinishReport || c is AbortReport
}

/// The lines of a report from step `i` on, up to and with the first step that ends it.
pub open spec fn report_lines(report: Seq<ReportView>, i: int) -> Seq<u8>
    decreases report.len() - i,
{
    if i < 0 || i >= report.len() {
        Seq::empty()
    } else {
        let (name, params) = report_params(report[i]);
        let line = encode_line(command_item(name, params));
        if ends_report(report[i]) {
            line
        } else {
            line + report_lines(report, i + 1)
        }
    }
}

/// One of the steps ends the report.
pub open spec fn report_ends(report: Seq<ReportView>) -> bool {
    exists|i: int| 0 <= i < report.len() && ends_report(#[trigger] report[i])
}

/// The item that carries a step of a report.
pub fn report_item(c: &ReportCommand) -> (r: SvnItem)
    ensures
        r.deep_view() == command_item(
            report_params(c.deep_view()).0,
            report_params(c.deep_view()).1,
        ),
{
    match c {
        ReportCommand::SetPath { path, rev, start_empty, lock_token, depth } => command5(
            "set-path",
            text(path),
            SvnItem::Number(*rev),
            SvnItem::Bool(*start_empty),
            opt_text(lock_token),
            word(depth.as_word()),
        ),
        ReportCommand::DeletePath { path } => command1("delete-path", text(path)),
        ReportCommand::LinkPath { path, url, rev, start_empty, lock_token, depth } => command6(
            "link-path",
            text(path),
            text(url),
            SvnItem::Number(*rev),
            SvnItem::Bool(*start_empty),
            opt_text(lock_token),
            word(depth.as_word()),
        ),
        ReportCommand::FinishReport => command0("finish-report"),
        ReportCommand::AbortReport => command0("abort-report"),
    }
}

/// Appends the lines of a report, up to the step that ends it. A report that nothing
/// ends is an error; its lines are appended all the same.
pub fn encode_report(report: &Report, out: &mut Vec<u8>) -> (r: Result<(), SvnError>)
    ensures
        final(out)@ == old(out)@ + report_lines(report.deep_view(), 0),
        match r {
            Ok(_) => report_ends(report.deep_view()),
            Err(e) => !report_ends(report.deep_view()) && e.deep_view() == ErrorView::Protocol(
                "report did not end with finish-report/abort-report"@,
            ),
        },
{
    let ghost all = report.deep_view();
    let mut i: usize = 0;
    let ghost mut sent: Seq<u8> = Seq::empty();
    assert(sent + report_lines(all, 0) =~= report_lines(all, 0));
    while i < report.commands.len()
        invariant
            i <= report.commands.len(),
            all == report.deep_view(),
            out@ == old(out)@ + sent,
            report_lines(all, 0) == sent + report_lines(all, i as int),
            forall|k: int| 0 <= k < i ==> !ends_report(#[trigger] all[k]),
        decreases report.commands.len() - i,
    {
        let c = &report.commands[i];
        assert(all[i as int] == c.deep_view());
        let item = report_item(c);
        let ghost line = encode_line(item.deep_view());
        encode_item_line(&item, out);
        let ends = match c {
            ReportCommand::FinishReport => true,
            ReportCommand::AbortReport => true,
            _ => false,
        };
        proof {
            assert((old(out)@ + sent) + line =~= old(out)@ + (sent + line));
        }
        if ends {
            assert(ends_report(all[i as int]));
            return Ok(());
        }
        proof {
            let more = report_lines(all, i + 1);
            assert(sent + (line + more) =~= (sent + line) + more);
            sent = sent + line;
        }
        i = i + 1;
    }
    assert(sent + Seq::<u8>::empty() =~= sent);
    Err(protocol("report did not end with finish-report/abort-report"))
}

/// The failure that an error chain reports.
pub fn parse_failure(params: &[SvnItem]) -> (r: SvnError)
    ensures
        r.deep_view() == ErrorView::Server(server_error(params.deep_view())),
{
    SvnError::Server(parse_server_error(params))
}

/// The name and the parameters of a command that the server sends.
pub open spec fn command_of(item: ItemView) -> Result<(Seq<char>, Seq<ItemView>), ErrorView> {
    match list_of(item) {
        None => Err(ErrorView::Protocol("expected command list"@)),
        Some(parts) => if parts.len() == 0 {
            Err(ErrorView::Protocol("empty command list"@))
        } else {
            match word_of(parts[0]) {
                None => Err(ErrorView::Protocol("command name not a word"@)),
                Some(name) => Ok((name, or_no_items(nth_list(parts, 1)))),
            }
        },
    }
}

/// The name and the parameters of a command that the server sends.
pub fn parse_command_item(item: &SvnItem) -> (r: Result<(String, Vec<SvnItem>), SvnError>)
    ensures
        match r {
            Ok((name, params)) => command_of(item.deep_view()) == Ok::<
                (Seq<char>, Seq<ItemView>),
                ErrorView,
            >((name@, params.deep_view())),
            Err(e) => command_of(item.deep_view()) == Err::<
                (Seq<char>, Seq<ItemView>),
                ErrorView,
            >(e.deep_view()),
        },
{
    let parts = match item.as_list() {
        Some(p) => p,
        None => {
            return Err(protocol("expected command list"));
        },
    };
    if parts.len() == 0 {
        return Err(protocol("empty command list"));
    }
    let name = match parts[0].as_word() {
        Some(w) => w,
        None => {
            return Err(protocol("command name not a word"));
        },
    };
    match list_at(parts, 1) {
        Some(v) => Ok((name, clone_items(v))),
        None => {
            let v: Vec<SvnItem> = Vec::new();
            assert(v.deep_view() =~= Seq::<ItemView>::empty());
            Ok((name, v))
        },
    }
}

/// What follows an event that its consumer has accepted.
#[derive(Clone, Copy, Debug, PartialEq, Eq, Structural)]
pub enum DriveEnd {
    /// The drive goes on.
    Continue,
    /// The drive has ended.
    Finish,
    /// The drive has ended, and the server waits to be told that it went well.
    FinishWithSuccess,
}

/// What a command of the server leads to.
#[derive(Debug)]
pub enum DriveStep {
    /// The consumer is given an event. If it refuses the event, the server is told so,
    /// and, if the drive would have gone on, what it still sends is read and dropped.
    Deliver(EditorEvent, DriveEnd),
    /// The server is told of the error, and what it still sends is read and dropped.
    Refuse(SvnError),
}

/// What a step of a drive says.
pub enum DriveStepView {
    Deliver(EditView, DriveEnd),
    Refuse(ErrorView),
}

impl DeepView for DriveStep {
    type V = DriveStepView;

    open spec fn deep_view(&self) -> DriveStepView {
        match self {
            DriveStep::Deliver(event, end) => DriveStepView::Deliver(event.deep_view(), *end),
            DriveStep::Refuse(e) => DriveStepView::Refuse(e.deep_view()),
        }
    }
}

/// What a command of the server leads to: a failure ends the drive with an error, an end
/// of the drive is told to the consumer, and everything else must be an event.
pub open spec fn drive_step_of(item: ItemView, for_replay: bool) -> Result<
    DriveStepView,
    ErrorView,
> {
    match command_of(item) {
        Err(e) => Err(e),
        Ok((cmd, params)) => if cmd == "failure"@ {
            Err(ErrorView::Server(server_error(params)))
        } else if cmd == "finish-replay"@ {
            if for_replay {
                Ok(DriveStepView::Deliver(EditView::FinishReplay, DriveEnd::Finish))
            } else {
                Err(ErrorView::Protocol("finish-replay is only valid during replay"@))
            }
        } else if cmd == "close-edit"@ {
            Ok(DriveStepView::Deliver(EditView::CloseEdit, DriveEnd::FinishWithSuccess))
        } else if cmd == "abort-edit"@ {
            Ok(DriveStepView::Deliver(EditView::AbortEdit, DriveEnd::FinishWithSuccess))
        } else {
            match parse_event(cmd, params) {
                Ok(event) => Ok(DriveStepView::Deliver(event, DriveEnd::Continue)),
                Err(e) => Ok(DriveStepView::Refuse(e)),
            }
        },
    }
}

/// Takes a command of the server during an editor drive.
pub fn drive_step(item: &SvnItem, for_replay: bool) -> (r: Result<DriveStep, SvnError>)
    ensures
        result_view(r) == drive_step_of(item.deep_view(), for_replay),
        r matches Ok(DriveStep::Deliver(EditorEvent::RevProps { props }, _)) ==> props.wf(),
{
    let (cmd, params) = match parse_command_item(item) {
        Ok(p) => p,
        Err(e) => {
            return Err(e);
        },
    };
    if str_eq(&cmd, "failure") {
        return Err(parse_failure(&params));
    }
    if str_eq(&cmd, "finish-replay") {
        if !for_replay {
            return Err(protocol("finish-replay is only valid during replay"));
        }
        return Ok(DriveStep::Deliver(EditorEvent::FinishReplay, DriveEnd::Finish));
    }
    if str_eq(&cmd, "close-edit") {
        return Ok(DriveStep::Deliver(EditorEvent::CloseEdit, DriveEnd::FinishWithSuccess));
    }
    if str_eq(&cmd, "abort-edit") {
        return Ok(DriveStep::Deliver(EditorEvent::AbortEdit, DriveEnd::FinishWithSuccess));
    }
    match parse_editor_event(&cmd, &params) {
        Ok(event) => Ok(DriveStep::Deliver(event, DriveEnd::Continue)),
        Err(e) => Ok(DriveStep::Refuse(e)),
    }
}

/// What a drive does next.
#[derive(Debug)]
pub enum DriveAction {
    /// Read the next command.
    Continue,
    /// The drive has ended well.
    Finish,
    /// Send an item; the drive has then ended well.
    SendAndFinish(SvnItem),
    /// Send an item, then drop what the server still sends if `drain` says so; the drive
    /// was broken off.
    SendAndBreakOff { item: SvnItem, drain: bool },
}

/// What an action says.
pub enum DriveActionView {
    Continue,
    Finish,
    SendAndFinish(ItemView),
    SendAndBreakOff { item: ItemView, drain: bool },
}

impl DeepView for DriveAction {
    type V = DriveActionView;

    open spec fn deep_view(&self) -> DriveActionView {
        match *self {
            DriveAction::Continue => DriveActionView::Continue,
            DriveAction::Finish => DriveActionView::Finish,
            DriveAction::SendAndFinish(item) => DriveActionView::SendAndFinish(item.deep_view()),
            DriveAction::SendAndBreakOff { item, drain } => DriveActionView::SendAndBreakOff {
                item: item.deep_view(),
                drain,
            },
        }
    }
}

/// The item that reports success.
pub open spec fn success_view() -> ItemView {
    ItemView::List(seq![ItemView::Word("success"@), ItemView::List(Seq::empty())])
}

/// The item that reports a failure with the text of an error.
pub open spec fn failure_view(e: ErrorView) -> ItemView {
    ItemView::List(
        seq![
            ItemView::Word("failure"@),
            ItemView::List(
                seq![
                    ItemView::List(
                        seq![
                            ItemView::Number(1),
                            text_item(error_text(e)),
                            ItemView::String(Seq::empty()),
                            ItemView::Number(0),
                        ],
                    ),
                ],
            ),
        ],
    )
}

/// The item that reports success.
pub fn success_item() -> (r: SvnItem)
    ensures
        r.deep_view() == success_view(),
{
    let items = vec![word("success"), nothing()];
    assert(items.deep_view() =~= success_view()->List_0);
    list(items)
}

/// The item that reports a failure with the text of an error.
pub fn failure_item(err: &SvnError) -> (r: SvnItem)
    ensures
        r.deep_view() == failure_view(err.deep_view()),
{
    let none: Vec<u8> = Vec::new();
    assert(none@ =~= Seq::<u8>::empty());
    let entry = vec![
        SvnItem::Number(1),
        text(&err.to_text()),
        SvnItem::String(none),
        SvnItem::Number(0),
    ];
    let ghost goal = failure_view(err.deep_view())->List_0;
    assert(entry.deep_view() =~= goal[1]->List_0[0]->List_0);
    let chain = vec![list(entry)];
    assert(chain.deep_view() =~= goal[1]->List_0);
    let items = vec![word("failure"), list(chain)];
    assert(items.deep_view() =~= goal);
    list(items)
}

/// What follows the consumer's answer to an event.
pub open spec fn after_event_of(end: DriveEnd, refused: Option<ErrorView>) -> DriveActionView {
    match refused {
        Some(e) => DriveActionView::SendAndBreakOff {
            item: failure_view(e),
            drain: end == DriveEnd::Continue,
        },
        None => match end {
            DriveEnd::Continue => DriveActionView::Continue,
            DriveEnd::Finish => DriveActionView::Finish,
            DriveEnd::FinishWithSuccess => DriveActionView::SendAndFinish(success_view()),
        },
    }
}

/// Takes the consumer's answer to an event.
pub fn after_event(end: DriveEnd, answer: &Result<(), SvnError>) -> (r: DriveAction)
    ensures
        r.deep_view() == after_event_of(
            end,
            match *answer {
                Ok(_) => None,
                Err(e) => Some(e.deep_view()),
            },
        ),
{
    match answer {
        Err(e) => {
            let drain = match end {
                DriveEnd::Continue => true,
                _ => false,
            };
            DriveAction::SendAndBreakOff { item: failure_item(e), drain }
        },
        Ok(_) => match end {
            DriveEnd::Continue => DriveAction::Continue,
            DriveEnd::Finish => DriveAction::Finish,
            DriveEnd::FinishWithSuccess => DriveAction::SendAndFinish(success_item()),
        },
    }
}

/// The name of the command that an item carries, if it carries one.
pub open spec fn command_name(item: ItemView) -> Option<Seq<char>> {
    match list_of(item) {
        Some(parts) => nth_word(parts, 0),
        None => None,
    }
}

/// The server has given up the drive: nothing of it remains to be dropped.
pub fn ends_drain(item: &SvnItem) -> (r: bool)
    ensures
        r == (command_name(item.deep_view()) matches Some(c) && (c == "abort-edit"@ || c
            == "success"@)),
{
    match item.as_list() {
        Some(parts) => match word_at(parts, 0) {
            Some(c) => str_eq(&c, "abort-edit") || str_eq(&c, "success"),
            None => false,
        },
        None => false,
    }
}

/// The server has aborted the drive by itself, while it was being told of a failure.
pub fn is_abort_edit(item: &SvnItem) -> (r: bool)
    ensures
        r == (command_name(item.deep_view()) == Some("abort-edit"@)),
{
    match item.as_list() {
        Some(parts) => match word_at(parts, 0) {
            Some(c) => str_eq(&c, "abort-edit"),
            None => false,
        },
        None => false,
    }
}

/// An error while dropping what the server still sends that only means that it has hung
/// up.
pub fn ends_drain_quietly(err: &SvnError) -> (r: bool)
    ensures
        r == (err.deep_view() == ErrorView::Protocol("unexpected EOF"@)),
{
    match err {
        SvnError::Protocol(m) => str_eq(m, "unexpected EOF"),
        _ => false,
    }
}

/// A step of a drive with its paths normalised.
pub open spec fn normalised(c: EditView) -> EditView {
    match c {
        EditView::DeleteEntry { path, rev, dir_token } => EditView::DeleteEntry {
            path: clean(path),
            rev,
            dir_token,
        },
        EditView::AddDir { path, parent_token, child_token, copy_from } => EditView::AddDir {
            path: clean(path),
            parent_token,
            child_token,
            copy_from: clean_copy(copy_from),
        },
        EditView::OpenDir { path, parent_token, child_token, rev } => EditView::OpenDir {
            path: clean(path),
            parent_token,
            child_token,
            rev,
        },
        EditView::AbsentDir { path, parent_token } => EditView::AbsentDir {
            path: clean(path),
            parent_token,
        },
        EditView::AddFile { path, dir_token, file_token, copy_from } => EditView::AddFile {
            path: clean(path),
            dir_token,
            file_token,
            copy_from: clean_copy(copy_from),
        },
        EditView::OpenFile { path, dir_token, file_token, rev } => EditView::OpenFile {
            path: clean(path),
            dir_token,
            file_token,
            rev,
        },
        EditView::AbsentFile { path, parent_token } => EditView::AbsentFile {
            path: clean(path),
            parent_token,
        },
        _ => c,
    }
}

/// A copy source with its path normalised.
pub open spec fn clean_copy(c: Option<(Seq<char>, u64)>) -> Option<(Seq<char>, u64)> {
    match c {
        Some((path, rev)) => Some((clean(path), rev)),
        None => None,
    }
}

/// A text is read back from its item.
proof fn lemma_text_item(s: Seq<char>)
    ensures
        string_of(text_item(s)) == Some(s),
        bytes_string_of(text_item(s)) == Some(encode_utf8(s)),
{
    encode_utf8_valid_utf8(s);
    encode_utf8_decode_utf8(s);
}

/// A path that was accepted has no leading slashes to take off.
proof fn lemma_accepted_path(path: Seq<char>)
    requires
        rel_path(path) is Ok,
    ensures
        rel_path(path) == Ok::<Seq<char>, ErrorView>(clean(path)),
        strip_leading(clean(path), '/') == clean(path),
{
    accepted_paths_stay_inside(path);
}

/// What a client sends is what a receiver reads: the parameters of an editor command
/// are read back as the same step, with its paths normalised. The two commands that end
/// a drive are no events and are left out.
pub proof fn editor_command_roundtrips(c: EditView)
    requires
        command_params(c) is Ok,
        !(c is CloseEdit),
        !(c is AbortEdit),
    ensures
        ({
            let (name, params) = command_params(c)->Ok_0;
            parse_event(name, params) == Ok::<EditView, ErrorView>(normalised(c))
        }),
{
    lemma_names_differ();
    match c {
        EditView::OpenRoot { token, .. } => {
            lemma_text_item(token);
        },
        EditView::DeleteEntry { path, dir_token, .. } => {
            lemma_accepted_path(path);
            lemma_text_item(clean(path));
            lemma_text_item(dir_token);
        },
        EditView::AddDir { path, parent_token, child_token, copy_from, .. } => {
            lemma_accepted_path(path);
            lemma_text_item(clean(path));
            lemma_text_item(parent_token);
            lemma_text_item(child_token);
            match copy_from {
                Some((from, _)) => {
                    lemma_accepted_path(from);
                    lemma_text_item(clean(from));
                },
                None => {},
            }
        },
        EditView::OpenDir { path, parent_token, child_token, .. } => {
            lemma_accepted_path(path);
            lemma_text_item(clean(path));
            lemma_text_item(parent_token);
            lemma_text_item(child_token);
        },
        EditView::ChangeDirProp { dir_token, name, .. } => {
            lemma_text_item(dir_token);
            lemma_text_item(name);
        },
        EditView::CloseDir { dir_token, .. } => {
            lemma_text_item(dir_token);
        },
        EditView::AbsentDir { path, parent_token, .. } => {
            lemma_accepted_path(path);
            lemma_text_item(clean(path));
            lemma_text_item(parent_token);
        },
        EditView::AddFile { path, dir_token, file_token, copy_from, .. } => {
            lemma_accepted_path(path);
            lemma_text_item(clean(path));
            lemma_text_item(dir_token);
            lemma_text_item(file_token);
            match copy_from {
                Some((from, _)) => {
                    lemma_accepted_path(from);
                    lemma_text_item(clean(from));
                },
                None => {},
            }
        },
        EditView::OpenFile { path, dir_token, file_token, .. } => {
            lemma_accepted_path(path);
            lemma_text_item(clean(path));
            lemma_text_item(dir_token);
            lemma_text_item(file_token);
        },
        EditView::ApplyTextDelta { file_token, base_checksum, .. } => {
            lemma_text_item(file_token);
            match base_checksum {
                Some(s) => {
                    lemma_text_item(s);
                },
                None => {},
            }
        },
        EditView::TextDeltaChunk { file_token, .. } => {
            lemma_text_item(file_token);
        },
        EditView::TextDeltaEnd { file_token, .. } => {
            lemma_text_item(file_token);
        },
        EditView::ChangeFileProp { file_token, name, .. } => {
            lemma_text_item(file_token);
            lemma_text_item(name);
        },
        EditView::CloseFile { file_token, text_checksum, .. } => {
            lemma_text_item(file_token);
            match text_checksum {
                Some(s) => {
                    lemma_text_item(s);
                },
                None => {},
            }
        },
        EditView::AbsentFile { path, parent_token, .. } => {
            lemma_accepted_path(path);
            lemma_text_item(clean(path));
            lemma_text_item(parent_token);
        },
        _ => {},
    }
}

/// The names of editor commands are different.
pub(crate) proof fn lemma_names_differ()
    ensures
        "open-root"@ != "target-rev"@,
        "delete-entry"@ != "target-rev"@,
        "delete-entry"@ != "open-root"@,
        "add-dir"@ != "target-rev"@,
        "add-dir"@ != "open-root"@,
        "add-dir"@ != "delete-entry"@,
        "open-dir"@ != "target-rev"@,
        "open-dir"@ != "open-root"@,
        "open-dir"@ != "delete-entry"@,
        "open-dir"@ != "add-dir"@,
        "change-dir-prop"@ != "target-rev"@,
        "change-dir-prop"@ != "open-root"@,
        "change-dir-prop"@ != "delete-entry"@,
        "change-dir-prop"@ != "add-dir"@,
        "change-dir-prop"@ != "open-dir"@,
        "absent-dir"@ != "target-rev"@,
        "absent-dir"@ != "open-root"@,
        "absent-dir"@ != "delete-entry"@,
        "absent-dir"@ != "add-dir"@,
        "absent-dir"@ != "open-dir"@,
        "absent-dir"@ != "change-dir-prop"@,
        "add-file"@ != "target-rev"@,
        "add-file"@ != "open-root"@,
        "add-file"@ != "delete-entry"@,
        "add-file"@ != "add-dir"@,
        "add-file"@ != "open-dir"@,
        "add-file"@ != "change-dir-prop"@,
        "add-file"@ != "absent-dir"@,
        "open-file"@ != "target-rev"@,
        "open-file"@ != "open-root"@,
        "open-file"@ != "delete-entry"@,
        "open-file"@ != "add-dir"@,
        "open-file"@ != "open-dir"@,
        "open-file"@ != "change-dir-prop"@,
        "open-file"@ != "absent-dir"@,
        "open-file"@ != "add-file"@,
        "apply-textdelta"@ != "target-rev"@,
        "apply-textdelta"@ != "open-root"@,
        "apply-textdelta"@ != "delete-entry"@,
        "apply-textdelta"@ != "add-dir"@,
        "apply-textdelta"@ != "open-dir"@,
        "apply-textdelta"@ != "change-dir-prop"@,
        "apply-textdelta"@ != "absent-dir"@,
        "apply-textdelta"@ != "add-file"@,
        "apply-textdelta"@ != "open-file"@,
        "textdelta-chunk"@ != "target-rev"@,
        "textdelta-chunk"@ != "open-root"@,
        "textdelta-chunk"@ != "delete-entry"@,
        "textdelta-chunk"@ != "add-dir"@,
        "textdelta-chunk"@ != "open-dir"@,
        "textdelta-chunk"@ != "change-dir-prop"@,
        "textdelta-chunk"@ != "absent-dir"@,
        "textdelta-chunk"@ != "add-file"@,
        "textdelta-chunk"@ != "open-file"@,
        "textdelta-chunk"@ != "apply-textdelta"@,
        "change-file-prop"@ != "target-rev"@,
        "change-file-prop"@ != "open-root"@,
        "change-file-prop"@ != "delete-entry"@,
        "change-file-prop"@ != "add-dir"@,
        "change-file-prop"@ != "open-dir"@,
        "change-file-prop"@ != "change-dir-prop"@,
        "change-file-prop"@ != "absent-dir"@,
        "change-file-prop"@ != "add-file"@,
        "change-file-prop"@ != "open-file"@,
        "change-file-prop"@ != "apply-textdelta"@,
        "change-file-prop"@ != "textdelta-chunk"@,
        "close-file"@ != "target-rev"@,
        "close-file"@ != "open-root"@,
        "close-file"@ != "delete-entry"@,
        "close-file"@ != "add-dir"@,
        "close-file"@ != "open-dir"@,
        "close-file"@ != "change-dir-prop"@,
        "close-file"@ != "absent-dir"@,
        "close-file"@ != "add-file"@,
        "close-file"@ != "open-file"@,
        "close-file"@ != "apply-textdelta"@,
        "close-file"@ != "textdelta-chunk"@,
        "close-file"@ != "change-file-prop"@,
        "absent-file"@ != "target-rev"@,
        "absent-file"@ != "open-root"@,
        "absent-file"@ != "delete-entry"@,
        "absent-file"@ != "add-dir"@,
        "absent-file"@ != "open-dir"@,
        "absent-file"@ != "change-dir-prop"@,
        "absent-file"@ != "absent-dir"@,
        "absent-file"@ != "add-file"@,
        "absent-file"@ != "open-file"@,
        "absent-file"@ != "apply-textdelta"@,
        "absent-file"@ != "textdelta-chunk"@,
        "absent-file"@ != "change-file-prop"@,
        "absent-file"@ != "close-file"@,
        "close-dir"@ != "target-rev"@,
        "close-dir"@ != "open-root"@,
        "close-dir"@ != "delete-entry"@,
        "close-dir"@ != "add-dir"@,
        "close-dir"@ != "open-dir"@,
        "close-dir"@ != "change-dir-prop"@,
        "close-dir"@ != "absent-dir"@,
        "close-dir"@ != "add-file"@,
        "close-dir"@ != "open-file"@,
        "close-dir"@ != "apply-textdelta"@,
        "close-dir"@ != "textdelta-chunk"@,
        "close-dir"@ != "change-file-prop"@,
        "close-dir"@ != "close-file"@,
        "close-dir"@ != "absent-file"@,
        "textdelta-end"@ != "target-rev"@,
        "textdelta-end"@ != "open-root"@,
        "textdelta-end"@ != "delete-entry"@,
        "textdelta-end"@ != "add-dir"@,
        "textdelta-end"@ != "open-dir"@,
        "textdelta-end"@ != "change-dir-prop"@,
        "textdelta-end"@ != "absent-dir"@,
        "textdelta-end"@ != "add-file"@,
        "textdelta-end"@ != "open-file"@,
        "textdelta-end"@ != "apply-textdelta"@,
        "textdelta-end"@ != "textdelta-chunk"@,
        "textdelta-end"@ != "change-file-prop"@,
        "textdelta-end"@ != "close-file"@,
        "textdelta-end"@ != "absent-file"@,
        "textdelta-end"@ != "close-dir"@,
{
    reveal_strlit("target-rev");
    reveal_strlit("open-root");
    reveal_strlit("delete-entry");
    reveal_strlit("add-dir");
    reveal_strlit("open-dir");
    reveal_strlit("change-dir-prop");
    reveal_strlit("absent-dir");
    reveal_strlit("add-file");
    reveal_strlit("open-file");
    reveal_strlit("apply-textdelta");
    reveal_strlit("textdelta-chunk");
    reveal_strlit("change-file-prop");
    reveal_strlit("close-file");
    reveal_strlit("absent-file");
    reveal_strlit("close-dir");
    reveal_strlit("textdelta-end");
    assert("open-root"@.len() != "target-rev"@.len());
    assert("delete-entry"@.len() != "target-rev"@.len());
    assert("delete-entry"@.len() != "open-root"@.len());
    assert("add-dir"@.len() != "target-rev"@.len());
    assert("add-dir"@.len() != "open-root"@.len());
    assert("add-dir"@.len() != "delete-entry"@.len());
    assert("open-dir"@.len() != "target-rev"@.len());
    assert("open-dir"@.len() != "open-root"@.len());
    assert("open-dir"@.len() != "delete-entry"@.len());
    assert("open-dir"@.len() != "add-dir"@.len());
    assert("change-dir-prop"@.len() != "target-rev"@.len());
    assert("change-dir-prop"@.len() != "open-root"@.len());
    assert("change-dir-prop"@.len() != "delete-entry"@.len());
    assert("change-dir-prop"@.len() != "add-dir"@.len());
    assert("change-dir-prop"@.len() != "open-dir"@.len());
    assert("absent-dir"@[0] != "target-rev"@[0]);
    assert("absent-dir"@.len() != "open-root"@.len());
    assert("absent-dir"@.len() != "delete-entry"@.len());
    assert("absent-dir"@.len() != "add-dir"@.len());
    assert("absent-dir"@.len() != "open-dir"@.len());
    assert("absent-dir"@.len() != "change-dir-prop"@.len());
    assert("add-file"@.len() != "target-rev"@.len());
    assert("add-file"@.len() != "open-root"@.len());
    assert("add-file"@.len() != "delete-entry"@.len());
    assert("add-file"@.len() != "add-dir"@.len());
    assert("add-file"@[0] != "open-dir"@[0]);
    assert("add-file"@.len() != "change-dir-prop"@.len());
    assert("add-file"@.len() != "absent-dir"@.len());
    assert("open-file"@.len() != "target-rev"@.len());
    assert("open-file"@[5] != "open-root"@[5]);
    assert("open-file"@.len() != "delete-entry"@.len());
    assert("open-file"@.len() != "add-dir"@.len());
    assert("open-file"@.len() != "open-dir"@.len());
    assert("open-file"@.len() != "change-dir-prop"@.len());
    assert("open-file"@.len() != "absent-dir"@.len());
    assert("open-file"@.len() != "add-file"@.len());
    assert("apply-textdelta"@.len() != "target-rev"@.len());
    assert("apply-textdelta"@.len() != "open-root"@.len());
    assert("apply-textdelta"@.len() != "delete-entry"@.len());
    assert("apply-textdelta"@.len() != "add-dir"@.len());
    assert("apply-textdelta"@.len() != "open-dir"@.len());
    assert("apply-textdelta"@[0] != "change-dir-prop"@[0]);
    assert("apply-textdelta"@.len() != "absent-dir"@.len());
    assert("apply-textdelta"@.len() != "add-file"@.len());
    assert("apply-textdelta"@.len() != "open-file"@.len());
    assert("textdelta-chunk"@.len() != "target-rev"@.len());
    assert("textdelta-chunk"@.len() != "open-root"@.len());
    assert("textdelta-chunk"@.len() != "delete-entry"@.len());
    assert("textdelta-chunk"@.len() != "add-dir"@.len());
    assert("textdelta-chunk"@.len() != "open-dir"@.len());
    assert("textdelta-chunk"@[0] != "change-dir-prop"@[0]);
    assert("textdelta-chunk"@.len() != "absent-dir"@.len());
    assert("textdelta-chunk"@.len() != "add-file"@.len());
    assert("textdelta-chunk"@.len() != "open-file"@.len());
    assert("textdelta-chunk"@[0] != "apply-textdelta"@[0]);
    assert("change-file-prop"@.len() != "target-rev"@.len());
    assert("change-file-prop"@.len() != "open-root"@.len());
    assert("change-file-prop"@.len() != "delete-entry"@.len());
    assert("change-file-prop"@.len() != "add-dir"@.len());
    assert("change-file-prop"@.len() != "open-dir"@.len());
    assert("change-file-prop"@.len() != "change-dir-prop"@.len());
    assert("change-file-prop"@.len() != "absent-dir"@.len());
    assert("change-file-prop"@.len() != "add-file"@.len());
    assert("change-file-prop"@.len() != "open-file"@.len());
    assert("change-file-prop"@.len() != "apply-textdelta"@.len());
    assert("change-file-prop"@.len() != "textdelta-chunk"@.len());
    assert("close-file"@[0] != "target-rev"@[0]);
    assert("close-file"@.len() != "open-root"@.len());
    assert("close-file"@.len() != "delete-entry"@.len());
    assert("close-file"@.len() != "add-dir"@.len());
    assert("close-file"@.len() != "open-dir"@.len());
    assert("close-file"@.len() != "change-dir-prop"@.len());
    assert("close-file"@[0] != "absent-dir"@[0]);
    assert("close-file"@.len() != "add-file"@.len());
    assert("close-file"@.len() != "open-file"@.len());
    assert("close-file"@.len() != "apply-textdelta"@.len());
    assert("close-file"@.len() != "textdelta-chunk"@.len());
    assert("close-file"@.len() != "change-file-prop"@.len());
    assert("absent-file"@.len() != "target-rev"@.len());
    assert("absent-file"@.len() != "open-root"@.len());
    assert("absent-file"@.len() != "delete-entry"@.len());
    assert("absent-file"@.len() != "add-dir"@.len());
    assert("absent-file"@.len() != "open-dir"@.len());
    assert("absent-file"@.len() != "change-dir-prop"@.len());
    assert("absent-file"@.len() != "absent-dir"@.len());
    assert("absent-file"@.len() != "add-file"@.len());
    assert("absent-file"@.len() != "open-file"@.len());
    assert("absent-file"@.len() != "apply-textdelta"@.len());
    assert("absent-file"@.len() != "textdelta-chunk"@.len());
    assert("absent-file"@.len() != "change-file-prop"@.len());
    assert("absent-file"@.len() != "close-file"@.len());
    assert("close-dir"@.len() != "target-rev"@.len());
    assert("close-dir"@[0] != "open-root"@[0]);
    assert("close-dir"@.len() != "delete-entry"@.len());
    assert("close-dir"@.len() != "add-dir"@.len());
    assert("close-dir"@.len() != "open-dir"@.len());
    assert("close-dir"@.len() != "change-dir-prop"@.len());
    assert("close-dir"@.len() != "absent-dir"@.len());
    assert("close-dir"@.len() != "add-file"@.len());
    assert("close-dir"@[0] != "open-file"@[0]);
    assert("close-dir"@.len() != "apply-textdelta"@.len());
    assert("close-dir"@.len() != "textdelta-chunk"@.len());
    assert("close-dir"@.len() != "change-file-prop"@.len());
    assert("close-dir"@.len() != "close-file"@.len());
    assert("close-dir"@.len() != "absent-file"@.len());
    assert("textdelta-end"@.len() != "target-rev"@.len());
    assert("textdelta-end"@.len() != "open-root"@.len());
    assert("textdelta-end"@.len() != "delete-entry"@.len());
    assert("textdelta-end"@.len() != "add-dir"@.len());
    assert("textdelta-end"@.len() != "open-dir"@.len());
    assert("textdelta-end"@.len() != "change-dir-prop"@.len());
    assert("textdelta-end"@.len() != "absent-dir"@.len());
    assert("textdelta-end"@.len() != "add-file"@.len());
    assert("textdelta-end"@.len() != "open-file"@.len());
    assert("textdelta-end"@.len() != "apply-textdelta"@.len());
    assert("textdelta-end"@.len() != "textdelta-chunk"@.len());
    assert("textdelta-end"@.len() != "change-file-prop"@.len());
    assert("textdelta-end"@.len() != "close-file"@.len());
    assert("textdelta-end"@.len() != "absent-file"@.len());
    assert("textdelta-end"@.len() != "close-dir"@.len());
}

} // verus!
