//! Reading the parts of wire items that replies are made of.

use vstd::prelude::*;

use crate::error::{protocol, ErrorView, ServerError, ServerErrorItem, ServerErrorItemView,
    ServerErrorView, SvnError};
use crate::keymap::KeyMap;
use crate::raw::{
    bool_of, bytes_string_of, list_of, number_of, string_of, word_of, ItemView, SvnItem,
};
use crate::types::{props_view, PropertyList};

verus! {

/// The `i`-th item, if there are that many.
pub open spec fn nth(items: Seq<ItemView>, i: int) -> Option<ItemView> {
    if 0 <= i < items.len() {
        Some(items[i])
    } else {
        None
    }
}

/// The text of the `i`-th item, if it is a string.
pub open spec fn nth_string(items: Seq<ItemView>, i: int) -> Option<Seq<char>> {
    match nth(items, i) {
        Some(x) => string_of(x),
        None => None,
    }
}

/// The `i`-th item, if it is a word.
pub open spec fn nth_word(items: Seq<ItemView>, i: int) -> Option<Seq<char>> {
    match nth(items, i) {
        Some(x) => word_of(x),
        None => None,
    }
}

/// The `i`-th item, if it is a number.
pub open spec fn nth_number(items: Seq<ItemView>, i: int) -> Option<u64> {
    match nth(items, i) {
        Some(x) => number_of(x),
        None => None,
    }
}

/// The `i`-th item, if it is a truth value.
pub open spec fn nth_bool(items: Seq<ItemView>, i: int) -> Option<bool> {
    match nth(items, i) {
        Some(x) => bool_of(x),
        None => None,
    }
}

/// The bytes of the `i`-th item, if it is a string.
pub open spec fn nth_bytes(items: Seq<ItemView>, i: int) -> Option<Seq<u8>> {
    match nth(items, i) {
        Some(x) => bytes_string_of(x),
        None => None,
    }
}

/// The items of the `i`-th item, if it is a list.
pub open spec fn nth_list(items: Seq<ItemView>, i: int) -> Option<Seq<ItemView>> {
    match nth(items, i) {
        Some(x) => list_of(x),
        None => None,
    }
}

/// The `i`-th item, if there are that many.
pub fn item_at(items: &[SvnItem], i: usize) -> (r: Option<&SvnItem>)
    ensures
        match r {
            Some(x) => nth(items.deep_view(), i as int) == Some(x.deep_view()),
            None => nth(items.deep_view(), i as int) is None,
        },
{
    if i < items.len() {
        Some(&items[i])
    } else {
        None
    }
}

/// The text of the `i`-th item, if it is a string.
pub fn string_at(items: &[SvnItem], i: usize) -> (r: Option<String>)
    ensures
        r.deep_view() == nth_string(items.deep_view(), i as int),
{
    match item_at(items, i) {
        Some(x) => x.as_string(),
        None => None,
    }
}

/// The `i`-th item, if it is a word.
pub fn word_at(items: &[SvnItem], i: usize) -> (r: Option<String>)
    ensures
        r.deep_view() == nth_word(items.deep_view(), i as int),
{
    match item_at(items, i) {
        Some(x) => x.as_word(),
        None => None,
    }
}

/// The `i`-th item, if it is a number.
pub fn number_at(items: &[SvnItem], i: usize) -> (r: Option<u64>)
    ensures
        r == nth_number(items.deep_view(), i as int),
{
    match item_at(items, i) {
        Some(x) => x.as_u64(),
        None => None,
    }
}

/// The `i`-th item, if it is a truth value.
pub fn bool_at(items: &[SvnItem], i: usize) -> (r: Option<bool>)
    ensures
        r == nth_bool(items.deep_view(), i as int),
{
    match item_at(items, i) {
        Some(x) => x.as_bool(),
        None => None,
    }
}

/// The bytes of the `i`-th item, if it is a string.
pub fn bytes_at(items: &[SvnItem], i: usize) -> (r: Option<Vec<u8>>)
    ensures
        match r {
            Some(b) => nth_bytes(items.deep_view(), i as int) == Some(b@),
            None => nth_bytes(items.deep_view(), i as int) is None,
        },
{
    match item_at(items, i) {
        Some(x) => x.as_bytes_string(),
        None => None,
    }
}

/// The items of the `i`-th item, if it is a list.
pub fn list_at(items: &[SvnItem], i: usize) -> (r: Option<&Vec<SvnItem>>)
    ensures
        match r {
            Some(v) => nth_list(items.deep_view(), i as int) == Some(v.deep_view()),
            None => nth_list(items.deep_view(), i as int) is None,
        },
{
    match item_at(items, i) {
        Some(x) => x.as_list(),
        None => None,
    }
}

/// A text that is there and not empty.
pub open spec fn nonempty(s: Option<Seq<char>>) -> Option<Seq<char>> {
    match s {
        Some(t) => if t.len() == 0 {
            None
        } else {
            Some(t)
        },
        None => None,
    }
}

fn keep_nonempty(s: Option<String>) -> (r: Option<String>)
    ensures
        r.deep_view() == nonempty(s.deep_view()),
{
    match s {
        Some(t) => {
            if t.as_str().is_empty() {
                None
            } else {
                Some(t)
            }
        },
        None => None,
    }
}

/// An entry of an error chain: a code, a message, and where in the server it arose.
pub open spec fn error_entry(items: Seq<ItemView>) -> ServerErrorItemView {
    ServerErrorItemView {
        code: match nth_number(items, 0) {
            Some(n) => n,
            None => 0,
        },
        message: nonempty(nth_string(items, 1)),
        file: nonempty(nth_string(items, 2)),
        line: nth_number(items, 3),
    }
}

/// The error chain that a server sends: one entry for each list.
pub open spec fn error_chain(items: Seq<ItemView>) -> Seq<ServerErrorItemView>
    decreases items.len(),
{
    if items.len() == 0 {
        Seq::empty()
    } else {
        match list_of(items.last()) {
            Some(entry) => error_chain(items.drop_last()).push(error_entry(entry)),
            None => error_chain(items.drop_last()),
        }
    }
}

/// The failure that an error chain reports.
pub open spec fn server_error(items: Seq<ItemView>) -> ServerErrorView {
    ServerErrorView { context: None, chain: error_chain(items) }
}

/// The failure that an error chain reports.
pub fn parse_server_error(items: &[SvnItem]) -> (r: ServerError)
    ensures
        r.deep_view() == server_error(items.deep_view()),
{
    let mut chain: Vec<ServerErrorItem> = Vec::new();
    let mut i: usize = 0;
    let ghost all = items.deep_view();
    assert(chain.deep_view() =~= Seq::<ServerErrorItemView>::empty());
    while i < items.len()
        invariant
            i <= items.len(),
            all == items.deep_view(),
            chain.deep_view() == error_chain(all.take(i as int)),
        decreases items.len() - i,
    {
        let ghost before = chain.deep_view();
        proof {
            assert(all.take(i + 1).drop_last() =~= all.take(i as int));
            assert(all.take(i + 1).last() == items@[i as int].deep_view());
        }
        match items[i].as_list() {
            Some(entry) => {
                let code: u64 = match number_at(entry, 0) {
                    Some(n) => n,
                    None => 0,
                };
                let item = ServerErrorItem {
                    code,
                    message: keep_nonempty(string_at(entry, 1)),
                    file: keep_nonempty(string_at(entry, 2)),
                    line: number_at(entry, 3),
                };
                let ghost said = item.deep_view();
                chain.push(item);
                assert(chain.deep_view() =~= before.push(said));
            },
            None => {},
        }
        i = i + 1;
    }
    assert(all.take(i as int) =~= all);
    ServerError { context: None, chain }
}

/// Reads a list of properties, from the entry `i` on: each entry is a name and a value,
/// and a later entry for a name counts.
pub open spec fn props_from(
    entries: Seq<ItemView>,
    i: int,
    so_far: Map<Seq<char>, Seq<u8>>,
) -> Result<Map<Seq<char>, Seq<u8>>, ErrorView>
    decreases entries.len() - i,
{
    if i < 0 || i >= entries.len() {
        Ok(so_far)
    } else {
        match list_of(entries[i]) {
            None => Err(ErrorView::Protocol("proplist entry not a list"@)),
            Some(pair) => match nth_string(pair, 0) {
                None => Err(ErrorView::Protocol("proplist name not a string"@)),
                Some(name) => match nth_bytes(pair, 1) {
                    None => Err(ErrorView::Protocol("proplist value not a string"@)),
                    Some(value) => props_from(entries, i + 1, so_far.insert(name, value)),
                },
            },
        }
    }
}

/// The properties that an item lists.
pub open spec fn proplist(item: ItemView) -> Result<Map<Seq<char>, Seq<u8>>, ErrorView> {
    match list_of(item) {
        None => Err(ErrorView::Protocol("proplist not a list"@)),
        Some(entries) => props_from(entries, 0, Map::empty()),
    }
}

/// The result is the property list, or the error, that `s` says.
pub open spec fn props_result_is(
    r: Result<PropertyList, SvnError>,
    s: Result<Map<Seq<char>, Seq<u8>>, ErrorView>,
) -> bool {
    match r {
        Ok(p) => p.wf() && s == Ok::<Map<Seq<char>, Seq<u8>>, ErrorView>(props_view(p)),
        Err(e) => s == Err::<Map<Seq<char>, Seq<u8>>, ErrorView>(e.deep_view()),
    }
}

/// The properties that the entries list.
pub fn parse_prop_entries(entries: &[SvnItem]) -> (r: Result<PropertyList, SvnError>)
    ensures
        props_result_is(r, props_from(entries.deep_view(), 0, Map::empty())),
{
    let mut props: PropertyList = KeyMap::new();
    let mut i: usize = 0;
    let ghost all = entries.deep_view();
    assert(props_view(props) =~= Map::<Seq<char>, Seq<u8>>::empty());
    while i < entries.len()
        invariant
            i <= entries.len(),
            all == entries.deep_view(),
            props.wf(),
            props_from(all, i as int, props_view(props)) == props_from(all, 0, Map::empty()),
        decreases entries.len() - i,
    {
        assert(all[i as int] == entries@[i as int].deep_view());
        let pair = match entries[i].as_list() {
            Some(p) => p,
            None => {
                return Err(protocol("proplist entry not a list"));
            },
        };
        let name = match string_at(pair, 0) {
            Some(n) => n,
            None => {
                return Err(protocol("proplist name not a string"));
            },
        };
        let value = match bytes_at(pair, 1) {
            Some(v) => v,
            None => {
                return Err(protocol("proplist value not a string"));
            },
        };
        let ghost before = props_view(props);
        let ghost said = (name@, value@);
        props.insert(name, value);
        assert(props_view(props) =~= before.insert(said.0, said.1));
        i = i + 1;
    }
    Ok(props)
}

/// The properties that an item lists.
pub fn parse_proplist(item: &SvnItem) -> (r: Result<PropertyList, SvnError>)
    ensures
        props_result_is(r, proplist(item.deep_view())),
{
    match item.as_list() {
        None => Err(protocol("proplist not a list")),
        Some(entries) => parse_prop_entries(entries),
    }
}

/// The number that an item is, or that is the first of a list.
pub open spec fn tuple_number(item: ItemView) -> Option<u64> {
    match item {
        ItemView::List(items) => nth_number(items, 0),
        _ => number_of(item),
    }
}

/// The text that an item is, or that is the first of a list.
pub open spec fn tuple_string(item: ItemView) -> Option<Seq<char>> {
    match item {
        ItemView::List(items) => nth_string(items, 0),
        _ => string_of(item),
    }
}

/// The bytes that an item is, or that are the first of a list.
pub open spec fn tuple_bytes(item: ItemView) -> Option<Seq<u8>> {
    match item {
        ItemView::List(items) => nth_bytes(items, 0),
        _ => bytes_string_of(item),
    }
}

/// The word that an item is, or that is the first of a list.
pub open spec fn tuple_word(item: ItemView) -> Option<Seq<char>> {
    match item {
        ItemView::List(items) => nth_word(items, 0),
        _ => word_of(item),
    }
}

/// The number that an item is, or that is the first of a list.
pub fn opt_tuple_u64(item: &SvnItem) -> (r: Option<u64>)
    ensures
        r == tuple_number(item.deep_view()),
{
    match item.as_list() {
        Some(items) => number_at(items, 0),
        None => item.as_u64(),
    }
}

/// The text that an item is, or that is the first of a list.
pub fn opt_tuple_string(item: &SvnItem) -> (r: Option<String>)
    ensures
        r.deep_view() == tuple_string(item.deep_view()),
{
    match item.as_list() {
        Some(items) => string_at(items, 0),
        None => item.as_string(),
    }
}

/// The bytes that an item is, or that are the first of a list.
pub fn opt_tuple_bytes(item: &SvnItem) -> (r: Option<Vec<u8>>)
    ensures
        match r {
            Some(b) => tuple_bytes(item.deep_view()) == Some(b@),
            None => tuple_bytes(item.deep_view()) is None,
        },
{
    match item.as_list() {
        Some(items) => bytes_at(items, 0),
        None => item.as_bytes_string(),
    }
}

/// The word that an item is, or that is the first of a list.
pub fn opt_tuple_wordish(item: &SvnItem) -> (r: Option<String>)
    ensures
        r.deep_view() == tuple_word(item.deep_view()),
{
    match item.as_list() {
        Some(items) => word_at(items, 0),
        None => item.as_word(),
    }
}

} // verus!
