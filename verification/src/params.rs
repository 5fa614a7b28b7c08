//! Building the parameters of commands.

use vstd::prelude::*;
use vstd::utf8::*;

use crate::raw::{copy_bytes, lemma_list_view, text_item, ItemView, SvnItem};
use crate::text::bytes_of;
use crate::types::opt_bytes;
use crate::wire::{command, command_item};

verus! {

/// A list of no or one item.
pub open spec fn opt_item(x: Option<ItemView>) -> ItemView {
    match x {
        Some(i) => ItemView::List(seq![i]),
        None => ItemView::List(Seq::empty()),
    }
}

/// A text that may be missing: a list of no or one string.
pub open spec fn opt_text_item(s: Option<Seq<char>>) -> ItemView {
    match s {
        Some(t) => opt_item(Some(text_item(t))),
        None => opt_item(None),
    }
}

/// A number that may be missing: a list of no or one number.
pub open spec fn opt_number_item(n: Option<u64>) -> ItemView {
    match n {
        Some(v) => opt_item(Some(ItemView::Number(v))),
        None => opt_item(None),
    }
}

/// Bytes that may be missing: a list of no or one string.
pub open spec fn opt_bytes_item(b: Option<Seq<u8>>) -> ItemView {
    match b {
        Some(v) => opt_item(Some(ItemView::String(v))),
        None => opt_item(None),
    }
}

/// A list of strings.
pub open spec fn text_items(v: Seq<Seq<char>>) -> ItemView {
    ItemView::List(v.map_values(|s: Seq<char>| text_item(s)))
}

/// A text as an item.
pub fn text(s: &str) -> (r: SvnItem)
    ensures
        r.deep_view() == text_item(s@),
{
    SvnItem::String(bytes_of(s))
}

/// A word as an item.
pub fn word(s: &str) -> (r: SvnItem)
    ensures
        r.deep_view() == ItemView::Word(s@),
{
    SvnItem::Word(s.to_owned())
}

/// A list as an item.
pub fn list(items: Vec<SvnItem>) -> (r: SvnItem)
    ensures
        r.deep_view() == ItemView::List(items.deep_view()),
{
    proof {
        lemma_list_view(items);
    }
    SvnItem::List(items)
}

/// A list of no items.
pub fn nothing() -> (r: SvnItem)
    ensures
        r.deep_view() == opt_item(None),
{
    let v: Vec<SvnItem> = Vec::new();
    assert(v.deep_view() =~= Seq::<ItemView>::empty());
    list(v)
}

/// A list of one item.
pub fn just(item: SvnItem) -> (r: SvnItem)
    ensures
        r.deep_view() == opt_item(Some(item.deep_view())),
{
    let v = vec![item];
    assert(v.deep_view() =~= seq![item.deep_view()]);
    list(v)
}

/// A text that may be missing.
pub fn opt_text(s: &Option<String>) -> (r: SvnItem)
    ensures
        r.deep_view() == opt_text_item(s.deep_view()),
{
    match s {
        Some(t) => just(text(t)),
        None => nothing(),
    }
}

/// A number that may be missing.
pub fn opt_number(n: Option<u64>) -> (r: SvnItem)
    ensures
        r.deep_view() == opt_number_item(n),
{
    match n {
        Some(v) => just(SvnItem::Number(v)),
        None => nothing(),
    }
}

/// Bytes that may be missing.
pub fn opt_raw(b: &Option<Vec<u8>>) -> (r: SvnItem)
    ensures
        r.deep_view() == opt_bytes_item(opt_bytes(*b)),
{
    match b {
        Some(v) => just(SvnItem::String(copy_bytes(v))),
        None => nothing(),
    }
}

/// A list of strings.
pub fn texts(v: &[String]) -> (r: SvnItem)
    ensures
        r.deep_view() == text_items(v.deep_view()),
{
    let mut items: Vec<SvnItem> = Vec::new();
    let mut i: usize = 0;
    while i < v.len()
        invariant
            i <= v.len(),
            items@.len() == i,
            forall|k: int|
                0 <= k < i ==> (#[trigger] items@[k]).deep_view() == text_item(v@[k]@),
        decreases v.len() - i,
    {
        items.push(text(&v[i]));
        i = i + 1;
    }
    assert(items.deep_view() =~= v.deep_view().map_values(|s: Seq<char>| text_item(s)));
    list(items)
}

/// The command `name` with no parameters.
pub fn command0(name: &str) -> (r: SvnItem)
    ensures
        r.deep_view() == command_item(name@, Seq::empty()),
{
    let params: Vec<SvnItem> = Vec::new();
    assert(params.deep_view() =~= Seq::<ItemView>::empty());
    command(name, params)
}

/// The command `name` with one parameter.
pub fn command1(name: &str, a: SvnItem) -> (r: SvnItem)
    ensures
        r.deep_view() == command_item(name@, seq![a.deep_view()]),
{
    let params: Vec<SvnItem> = vec![a];
    assert(params.deep_view() =~= seq![a.deep_view()]);
    command(name, params)
}

/// The command `name` with two parameters.
pub fn command2(name: &str, a: SvnItem, b: SvnItem) -> (r: SvnItem)
    ensures
        r.deep_view() == command_item(name@, seq![a.deep_view(), b.deep_view()]),
{
    let params: Vec<SvnItem> = vec![a, b];
    assert(params.deep_view() =~= seq![a.deep_view(), b.deep_view()]);
    command(name, params)
}

/// The command `name` with three parameters.
pub fn command3(name: &str, a: SvnItem, b: SvnItem, c: SvnItem) -> (r: SvnItem)
    ensures
        r.deep_view() == command_item(name@, seq![a.deep_view(), b.deep_view(), c.deep_view()]),
{
    let params: Vec<SvnItem> = vec![a, b, c];
    assert(params.deep_view() =~= seq![a.deep_view(), b.deep_view(), c.deep_view()]);
    command(name, params)
}

/// The command `name` with four parameters.
pub fn command4(name: &str, a: SvnItem, b: SvnItem, c: SvnItem, d: SvnItem) -> (r: SvnItem)
    ensures
        r.deep_view() == command_item(
            name@,
            seq![a.deep_view(), b.deep_view(), c.deep_view(), d.deep_view()],
        ),
{
    let params: Vec<SvnItem> = vec![a, b, c, d];
    assert(params.deep_view() =~= seq![a.deep_view(), b.deep_view(), c.deep_view(), d.deep_view()]);
    command(name, params)
}

/// The command `name` with five parameters.
pub fn command5(
    name: &str,
    a: SvnItem,
    b: SvnItem,
    c: SvnItem,
    d: SvnItem,
    e: SvnItem,
) -> (r: SvnItem)
    ensures
        r.deep_view() == command_item(
            name@,
            seq![a.deep_view(), b.deep_view(), c.deep_view(), d.deep_view(), e.deep_view()],
        ),
{
    let params: Vec<SvnItem> = vec![a, b, c, d, e];
    assert(
        params.deep_view() =~= seq![
            a.deep_view(),
            b.deep_view(),
            c.deep_view(),
            d.deep_view(),
            e.deep_view(),
        ]
    );
    command(name, params)
}

/// The command `name` with six parameters.
pub fn command6(
    name: &str,
    a: SvnItem,
    b: SvnItem,
    c: SvnItem,
    d: SvnItem,
    e: SvnItem,
    f: SvnItem,
) -> (r: SvnItem)
    ensures
        r.deep_view() == command_item(
            name@,
            seq![
                a.deep_view(),
                b.deep_view(),
                c.deep_view(),
                d.deep_view(),
                e.deep_view(),
                f.deep_view(),
            ],
        ),
{
    let params: Vec<SvnItem> = vec![a, b, c, d, e, f];
    assert(
        params.deep_view() =~= seq![
            a.deep_view(),
            b.deep_view(),
            c.deep_view(),
            d.deep_view(),
            e.deep_view(),
            f.deep_view(),
        ]
    );
    command(name, params)
}

/// The command `name` with seven parameters.
pub fn command7(
    name: &str,
    a: SvnItem,
    b: SvnItem,
    c: SvnItem,
    d: SvnItem,
    e: SvnItem,
    f: SvnItem,
    g: SvnItem,
) -> (r: SvnItem)
    ensures
        r.deep_view() == command_item(
            name@,
            seq![
                a.deep_view(),
                b.deep_view(),
                c.deep_view(),
                d.deep_view(),
                e.deep_view(),
                f.deep_view(),
                g.deep_view(),
            ],
        ),
{
    let params: Vec<SvnItem> = vec![a, b, c, d, e, f, g];
    assert(
        params.deep_view() =~= seq![
            a.deep_view(),
            b.deep_view(),
            c.deep_view(),
            d.deep_view(),
            e.deep_view(),
            f.deep_view(),
            g.deep_view(),
        ]
    );
    command(name, params)
}

} // verus!
