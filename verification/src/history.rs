//! Reading the log and the revisions of a file.

use vstd::prelude::*;
use vstd::utf8::*;

use crate::edit::{nth_copy, nth_tuple_bytes, nth_tuple_string, opt_tuple_copyfrom};
use crate::error::{protocol, result_view, ErrorView, SvnError};
use crate::keymap::KeyMap;
use crate::options::{LogRevProps, LogRevPropsView};
use crate::parse::{
    bool_at, item_at, list_at, nth, nth_bool, nth_list, nth_number, nth_string, nth_word,
    number_at, opt_tuple_bytes, opt_tuple_string, parse_proplist, proplist, string_at, word_at,
};
use crate::raw::{list_of, ItemView, SvnItem};
use crate::replies::{no_slash, or_false};
use crate::results::{
    ChangedPath, ChangedPathView, FileRev, FileRevView, LogEntry, LogEntryView, PropDelta,
    PropDeltaView,
};
use crate::text::{bytes_of, str_eq, without_leading};
use crate::types::{kind_from_word, props_view, NodeKind, PropertyList};

verus! {

fn bool_or_false(v: &[SvnItem], i: usize) -> (r: bool)
    ensures
        r == or_false(nth_bool(v.deep_view(), i as int)),
{
    match bool_at(v, i) {
        Some(b) => b,
        None => false,
    }
}

fn opt_string_at(items: &[SvnItem], i: usize) -> (r: Option<String>)
    ensures
        r.deep_view() == nth_tuple_string(items.deep_view(), i as int),
{
    match item_at(items, i) {
        Some(x) => opt_tuple_string(x),
        None => None,
    }
}

/// The changes of properties from index `i` on, behind those that were read before.
pub open spec fn prop_deltas_from(
    items: Seq<ItemView>,
    i: int,
    before: Seq<PropDeltaView>,
) -> Result<Seq<PropDeltaView>, ErrorView>
    decreases items.len() - i,
{
    if i < 0 || i >= items.len() {
        Ok(before)
    } else {
        match list_of(items[i]) {
            None => Err(ErrorView::Protocol("prop delta not a list"@)),
            Some(v) => match nth_string(v, 0) {
                None => Err(ErrorView::Protocol("prop delta name not a string"@)),
                Some(name) => prop_deltas_from(
                    items,
                    i + 1,
                    before.push(PropDeltaView { name, value: nth_tuple_bytes(v, 1) }),
                ),
            },
        }
    }
}

fn read_prop_deltas(items: &[SvnItem]) -> (r: Result<Vec<PropDelta>, SvnError>)
    ensures
        result_view(r) == prop_deltas_from(items.deep_view(), 0, Seq::empty()),
{
    let ghost all = items.deep_view();
    let mut out: Vec<PropDelta> = Vec::new();
    let mut i: usize = 0;
    assert(out.deep_view() =~= Seq::<PropDeltaView>::empty());
    while i < items.len()
        invariant
            i <= items.len(),
            all == items.deep_view(),
            prop_deltas_from(all, i as int, out.deep_view()) == prop_deltas_from(
                all,
                0,
                Seq::empty(),
            ),
        decreases items.len() - i,
    {
        assert(all[i as int] == items@[i as int].deep_view());
        let v = match items[i].as_list() {
            Some(v) => v,
            None => {
                return Err(protocol("prop delta not a list"));
            },
        };
        let name = match string_at(v, 0) {
            Some(s) => s,
            None => {
                return Err(protocol("prop delta name not a string"));
            },
        };
        let value = match item_at(v, 1) {
            Some(x) => opt_tuple_bytes(x),
            None => None,
        };
        let ghost before = out.deep_view();
        let e = PropDelta { name, value };
        let ghost said = e.deep_view();
        out.push(e);
        assert(out.deep_view() =~= before.push(said));
        i = i + 1;
    }
    Ok(out)
}

/// A revision of a file, before its delta.
pub open spec fn file_rev(v: Seq<ItemView>) -> Result<FileRevView, ErrorView> {
    match nth_string(v, 0) {
        None => Err(ErrorView::Protocol("file-rev path not a string"@)),
        Some(path) => match nth_number(v, 1) {
            None => Err(ErrorView::Protocol("file-rev rev not a number"@)),
            Some(rev) => match nth(v, 2) {
                None => Err(ErrorView::Protocol("file-rev missing rev props"@)),
                Some(p) => match proplist(p) {
                    Err(e) => Err(e),
                    Ok(rev_props) => match nth_list(v, 3) {
                        None => Err(ErrorView::Protocol("file-rev prop deltas not a list"@)),
                        Some(d) => match prop_deltas_from(d, 0, Seq::empty()) {
                            Err(e) => Err(e),
                            Ok(prop_deltas) => Ok(
                                FileRevView {
                                    path: no_slash(path),
                                    rev,
                                    rev_props,
                                    prop_deltas,
                                    merged_revision: or_false(nth_bool(v, 4)),
                                    delta_chunks: Seq::empty(),
                                },
                            ),
                        },
                    },
                },
            },
        },
    }
}

/// Reads a revision of a file, before its delta.
pub fn parse_file_rev_entry(v: &[SvnItem]) -> (r: Result<FileRev, SvnError>)
    ensures
        result_view(r) == file_rev(v.deep_view()),
        r matches Ok(f) ==> f.rev_props.wf(),
{
    let path = match string_at(v, 0) {
        Some(s) => s,
        None => {
            return Err(protocol("file-rev path not a string"));
        },
    };
    let rev = match number_at(v, 1) {
        Some(n) => n,
        None => {
            return Err(protocol("file-rev rev not a number"));
        },
    };
    let p = match item_at(v, 2) {
        Some(x) => x,
        None => {
            return Err(protocol("file-rev missing rev props"));
        },
    };
    let rev_props = match parse_proplist(p) {
        Ok(x) => x,
        Err(e) => {
            return Err(e);
        },
    };
    let d = match list_at(v, 3) {
        Some(x) => x,
        None => {
            return Err(protocol("file-rev prop deltas not a list"));
        },
    };
    let prop_deltas = match read_prop_deltas(d) {
        Ok(x) => x,
        Err(e) => {
            return Err(e);
        },
    };
    let r = FileRev {
        path: without_leading(&path, '/'),
        rev,
        rev_props,
        prop_deltas,
        merged_revision: bool_or_false(v, 4),
        delta_chunks: Vec::new(),
    };
    assert(r.deep_view().delta_chunks =~= Seq::<Seq<u8>>::empty());
    Ok(r)
}

/// A path that a revision changed.
pub open spec fn changed_path(v: Seq<ItemView>) -> Result<ChangedPathView, ErrorView> {
    match nth_string(v, 0) {
        None => Err(ErrorView::Protocol("changed path not a string"@)),
        Some(path) => match nth_word(v, 1) {
            None => Err(ErrorView::Protocol("changed path action not a word"@)),
            Some(action) => Ok(
                ChangedPathView {
                    path,
                    action,
                    copy_from: nth_copy(v, 2),
                    node_kind: match nth_list(v, 3) {
                        Some(x) => match nth_string(x, 0) {
                            Some(w) => Some(kind_from_word(w)),
                            None => match nth_word(x, 0) {
                                Some(w) => Some(kind_from_word(w)),
                                None => None,
                            },
                        },
                        None => None,
                    },
                    text_modified: match nth_list(v, 3) {
                        Some(x) => nth_bool(x, 1),
                        None => None,
                    },
                    props_modified: match nth_list(v, 3) {
                        Some(x) => nth_bool(x, 2),
                        None => None,
                    },
                },
            ),
        },
    }
}

fn read_changed_path(v: &[SvnItem]) -> (r: Result<ChangedPath, SvnError>)
    ensures
        result_view(r) == changed_path(v.deep_view()),
{
    let path = match string_at(v, 0) {
        Some(s) => s,
        None => {
            return Err(protocol("changed path not a string"));
        },
    };
    let action = match word_at(v, 1) {
        Some(s) => s,
        None => {
            return Err(protocol("changed path action not a word"));
        },
    };
    let copy_from = match item_at(v, 2) {
        Some(x) => opt_tuple_copyfrom(x),
        None => None,
    };
    let mut node_kind: Option<NodeKind> = None;
    let mut text_modified: Option<bool> = None;
    let mut props_modified: Option<bool> = None;
    if let Some(x) = list_at(v, 3) {
        node_kind = match string_at(x, 0) {
            Some(w) => Some(NodeKind::from_word(&w)),
            None => match word_at(x, 0) {
                Some(w) => Some(NodeKind::from_word(&w)),
                None => None,
            },
        };
        text_modified = bool_at(x, 1);
        props_modified = bool_at(x, 2);
    }
    Ok(ChangedPath { path, action, copy_from, node_kind, text_modified, props_modified })
}

/// The changed paths from index `i` on, behind those that were read before.
pub open spec fn changed_from(
    items: Seq<ItemView>,
    i: int,
    before: Seq<ChangedPathView>,
) -> Result<Seq<ChangedPathView>, ErrorView>
    decreases items.len() - i,
{
    if i < 0 || i >= items.len() {
        Ok(before)
    } else {
        match list_of(items[i]) {
            None => Err(ErrorView::Protocol("changed path entry not a list"@)),
            Some(v) => match changed_path(v) {
                Err(e) => Err(e),
                Ok(c) => changed_from(items, i + 1, before.push(c)),
            },
        }
    }
}

fn read_changed_paths(items: &[SvnItem]) -> (r: Result<Vec<ChangedPath>, SvnError>)
    ensures
        result_view(r) == changed_from(items.deep_view(), 0, Seq::empty()),
{
    let ghost all = items.deep_view();
    let mut out: Vec<ChangedPath> = Vec::new();
    let mut i: usize = 0;
    assert(out.deep_view() =~= Seq::<ChangedPathView>::empty());
    while i < items.len()
        invariant
            i <= items.len(),
            all == items.deep_view(),
            changed_from(all, i as int, out.deep_view()) == changed_from(all, 0, Seq::empty()),
        decreases items.len() - i,
    {
        assert(all[i as int] == items@[i as int].deep_view());
        let v = match items[i].as_list() {
            Some(v) => v,
            None => {
                return Err(protocol("changed path entry not a list"));
            },
        };
        let ghost before = out.deep_view();
        match read_changed_path(v) {
            Ok(c) => {
                let ghost said = c.deep_view();
                out.push(c);
                assert(out.deep_view() =~= before.push(said));
            },
            Err(e) => {
                return Err(e);
            },
        }
        i = i + 1;
    }
    Ok(out)
}

/// The properties that stand in a log entry, if they are wanted.
pub open spec fn entry_props(v: Seq<ItemView>, want_custom: bool) -> Result<
    Map<Seq<char>, Seq<u8>>,
    ErrorView,
> {
    match nth(v, 8) {
        Some(p) if want_custom => proplist(p),
        _ => Ok(Map::empty()),
    }
}

/// A revision, as the log gives it.
pub open spec fn log_entry(v: Seq<ItemView>, want_custom: bool) -> Result<
    LogEntryView,
    ErrorView,
> {
    match nth_list(v, 0) {
        None => Err(ErrorView::Protocol("log entry changed paths not a list"@)),
        Some(c) => match changed_from(c, 0, Seq::empty()) {
            Err(e) => Err(e),
            Ok(changed_paths) => match nth_number(v, 1) {
                None => Err(ErrorView::Protocol("log entry rev not a number"@)),
                Some(rev) => match entry_props(v, want_custom) {
                    Err(e) => Err(e),
                    Ok(rev_props) => Ok(
                        LogEntryView {
                            rev,
                            changed_paths,
                            author: nth_tuple_string(v, 2),
                            date: nth_tuple_string(v, 3),
                            message: nth_tuple_string(v, 4),
                            rev_props,
                            has_children: or_false(nth_bool(v, 5)),
                            invalid_revnum: or_false(nth_bool(v, 6)),
                            subtractive_merge: or_false(nth_bool(v, 9)),
                        },
                    ),
                },
            },
        },
    }
}

/// Reads a revision, as the log gives it.
pub fn parse_log_entry(v: &[SvnItem], want_custom: bool) -> (r: Result<LogEntry, SvnError>)
    ensures
        result_view(r) == log_entry(v.deep_view(), want_custom),
        r matches Ok(e) ==> e.rev_props.wf(),
{
    let c = match list_at(v, 0) {
        Some(x) => x,
        None => {
            return Err(protocol("log entry changed paths not a list"));
        },
    };
    let changed_paths = match read_changed_paths(c) {
        Ok(x) => x,
        Err(e) => {
            return Err(e);
        },
    };
    let rev = match number_at(v, 1) {
        Some(n) => n,
        None => {
            return Err(protocol("log entry rev not a number"));
        },
    };
    let mut rev_props: PropertyList = KeyMap::new();
    assert(props_view(rev_props) =~= Map::<Seq<char>, Seq<u8>>::empty());
    if want_custom {
        if let Some(p) = item_at(v, 8) {
            match parse_proplist(p) {
                Ok(x) => {
                    rev_props = x;
                },
                Err(e) => {
                    return Err(e);
                },
            }
        }
    }
    Ok(
        LogEntry {
            rev,
            changed_paths,
            author: opt_string_at(v, 2),
            date: opt_string_at(v, 3),
            message: opt_string_at(v, 4),
            rev_props,
            has_children: bool_or_false(v, 5),
            invalid_revnum: bool_or_false(v, 6),
            subtractive_merge: bool_or_false(v, 9),
        },
    )
}

/// Which properties of revisions are wanted: the author, the date, the message, and any
/// others.
#[derive(Clone, Copy, Debug, PartialEq, Eq, Structural)]
pub struct LogWants {
    pub author: bool,
    pub date: bool,
    pub message: bool,
    pub custom: bool,
}

/// A name that is none of the usual three.
pub open spec fn unusual(name: Seq<char>) -> bool {
    name != "svn:author"@ && name != "svn:date"@ && name != "svn:log"@
}

/// Which properties are wanted.
pub open spec fn wants(p: LogRevPropsView) -> LogWants {
    match p {
        LogRevPropsView::All => LogWants { author: true, date: true, message: true, custom: true },
        LogRevPropsView::Custom(names) => LogWants {
            author: names.contains("svn:author"@),
            date: names.contains("svn:date"@),
            message: names.contains("svn:log"@),
            custom: exists|i: int| 0 <= i < names.len() && unusual(#[trigger] names[i]),
        },
    }
}

/// Which properties are wanted.
pub fn log_wants(p: &LogRevProps) -> (r: LogWants)
    ensures
        r == wants(p.deep_view()),
{
    match p {
        LogRevProps::All => LogWants { author: true, date: true, message: true, custom: true },
        LogRevProps::Custom(names) => {
            let ghost all = names.deep_view();
            let mut w = LogWants { author: false, date: false, message: false, custom: false };
            let mut i: usize = 0;
            while i < names.len()
                invariant
                    i <= names.len(),
                    all == names.deep_view(),
                    w.author == exists|k: int| 0 <= k < i && #[trigger] all[k] == "svn:author"@,
                    w.date == exists|k: int| 0 <= k < i && #[trigger] all[k] == "svn:date"@,
                    w.message == exists|k: int| 0 <= k < i && #[trigger] all[k] == "svn:log"@,
                    w.custom == exists|k: int| 0 <= k < i && unusual(#[trigger] all[k]),
                decreases names.len() - i,
            {
                assert(all[i as int] == names@[i as int]@);
                proof {
                    reveal_strlit("svn:author");
                    reveal_strlit("svn:date");
                    reveal_strlit("svn:log");
                }
                let name = &names[i];
                if str_eq(name, "svn:author") {
                    w.author = true;
                } else if str_eq(name, "svn:date") {
                    w.date = true;
                } else if str_eq(name, "svn:log") {
                    w.message = true;
                } else {
                    w.custom = true;
                }
                i = i + 1;
            }
            w
        },
    }
}

/// The properties, with a text under a name, if it is wanted and there.
pub open spec fn with_text_prop(
    props: Map<Seq<char>, Seq<u8>>,
    wanted: bool,
    name: Seq<char>,
    value: Option<Seq<char>>,
) -> Map<Seq<char>, Seq<u8>> {
    match value {
        Some(t) if wanted => props.insert(name, encode_utf8(t)),
        _ => props,
    }
}

/// A log entry whose wanted usual properties stand among the others.
pub open spec fn with_usual_props(e: LogEntryView, w: LogWants) -> LogEntryView {
    LogEntryView {
        rev_props: with_text_prop(
            with_text_prop(
                with_text_prop(e.rev_props, w.author, "svn:author"@, e.author),
                w.date,
                "svn:date"@,
                e.date,
            ),
            w.message,
            "svn:log"@,
            e.message,
        ),
        ..e
    }
}

fn add_text_prop(props: &mut PropertyList, wanted: bool, name: &str, value: &Option<String>)
    requires
        old(props).wf(),
    ensures
        final(props).wf(),
        props_view(*final(props)) == with_text_prop(
            props_view(*old(props)),
            wanted,
            name@,
            value.deep_view(),
        ),
{
    if wanted {
        if let Some(t) = value {
            let ghost before = props_view(*props);
            let b = bytes_of(t);
            let ghost said = b@;
            props.insert(name.to_owned(), b);
            assert(props_view(*props) =~= before.insert(name@, said));
        }
    }
}

/// Puts the wanted usual properties of a log entry among the others.
pub fn add_usual_props(entry: LogEntry, w: LogWants) -> (r: LogEntry)
    requires
        entry.rev_props.wf(),
    ensures
        r.rev_props.wf(),
        r.deep_view() == with_usual_props(entry.deep_view(), w),
{
    let mut e = entry;
    let mut props = e.rev_props;
    add_text_prop(&mut props, w.author, "svn:author", &e.author);
    add_text_prop(&mut props, w.date, "svn:date", &e.date);
    add_text_prop(&mut props, w.message, "svn:log", &e.message);
    LogEntry {
        rev: e.rev,
        changed_paths: e.changed_paths,
        author: e.author,
        date: e.date,
        message: e.message,
        rev_props: props,
        has_children: e.has_children,
        invalid_revnum: e.invalid_revnum,
        subtractive_merge: e.subtractive_merge,
    }
}

} // verus!
