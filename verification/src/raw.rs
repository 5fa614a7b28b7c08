//! Wire items: the values that the protocol exchanges.

use vstd::prelude::*;
use vstd::utf8::*;

use crate::text::string_from_utf8;

verus! {

/// An item of the wire protocol.
#[derive(Debug, PartialEq, Eq)]
pub enum SvnItem {
    Word(String),
    Number(u64),
    Bool(bool),
    String(Vec<u8>),
    List(Vec<SvnItem>),
}

/// What an item says.
pub enum ItemView {
    Word(Seq<char>),
    Number(u64),
    Bool(bool),
    String(Seq<u8>),
    List(Seq<ItemView>),
}

/// What an item says, with what its parts say.
pub open spec fn item_view(item: SvnItem) -> ItemView
    decreases item,
{
    match item {
        SvnItem::Word(w) => ItemView::Word(w@),
        SvnItem::Number(n) => ItemView::Number(n),
        SvnItem::Bool(b) => ItemView::Bool(b),
        SvnItem::String(s) => ItemView::String(s@),
        SvnItem::List(v) => ItemView::List(
            Seq::new(
                v@.len(),
                |i: int|
                    if 0 <= i < v@.len() {
                        item_view(v@[i])
                    } else {
                        arbitrary()
                    },
            ),
        ),
    }
}

impl DeepView for SvnItem {
    type V = ItemView;

    open spec fn deep_view(&self) -> ItemView {
        item_view(*self)
    }
}

/// A list says what its items say, in order.
pub broadcast proof fn lemma_list_view(v: Vec<SvnItem>)
    ensures
        #[trigger] item_view(SvnItem::List(v)) == ItemView::List(v.deep_view()),
{
    let a = item_view(SvnItem::List(v));
    assert(a->List_0 =~= v.deep_view());
}

/// The parts of an item that is a list.
pub open spec fn list_of(item: ItemView) -> Option<Seq<ItemView>> {
    match item {
        ItemView::List(v) => Some(v),
        _ => None,
    }
}

/// The word that an item is.
pub open spec fn word_of(item: ItemView) -> Option<Seq<char>> {
    match item {
        ItemView::Word(w) => Some(w),
        _ => None,
    }
}

/// The number that an item is.
pub open spec fn number_of(item: ItemView) -> Option<u64> {
    match item {
        ItemView::Number(n) => Some(n),
        _ => None,
    }
}

/// The truth value that an item is.
pub open spec fn bool_of(item: ItemView) -> Option<bool> {
    match item {
        ItemView::Bool(b) => Some(b),
        _ => None,
    }
}

/// The bytes of an item that is a string.
pub open spec fn bytes_string_of(item: ItemView) -> Option<Seq<u8>> {
    match item {
        ItemView::String(s) => Some(s),
        _ => None,
    }
}

/// The text of an item that is a string of well-formed UTF-8.
pub open spec fn string_of(item: ItemView) -> Option<Seq<char>> {
    match item {
        ItemView::String(s) => if valid_utf8(s) {
            Some(decode_utf8(s))
        } else {
            None
        },
        _ => None,
    }
}

/// What kind of item it is, as a word.
pub open spec fn kind_of(item: ItemView) -> Seq<char> {
    match item {
        ItemView::Word(_) => "word"@,
        ItemView::Number(_) => "number"@,
        ItemView::Bool(_) => "bool"@,
        ItemView::String(_) => "string"@,
        ItemView::List(_) => "list"@,
    }
}

/// The item that holds a text as a string.
pub open spec fn text_item(s: Seq<char>) -> ItemView {
    ItemView::String(encode_utf8(s))
}

/// A copy of a byte vector.
pub fn copy_bytes(v: &[u8]) -> (r: Vec<u8>)
    ensures
        r@ == v@,
{
    let mut out: Vec<u8> = Vec::new();
    let mut i: usize = 0;
    while i < v.len()
        invariant
            i <= v.len(),
            out@ == v@.take(i as int),
        decreases v.len() - i,
    {
        out.push(v[i]);
        i = i + 1;
    }
    assert(v@.take(i as int) == v@);
    out
}

impl Clone for SvnItem {
    fn clone(&self) -> (r: SvnItem)
        ensures
            r.deep_view() == self.deep_view(),
        decreases self,
    {
        broadcast use lemma_list_view;

        match self {
            SvnItem::Word(w) => SvnItem::Word(w.clone()),
            SvnItem::Number(n) => SvnItem::Number(*n),
            SvnItem::Bool(b) => SvnItem::Bool(*b),
            SvnItem::String(s) => SvnItem::String(copy_bytes(s)),
            SvnItem::List(v) => {
                let mut out: Vec<SvnItem> = Vec::new();
                let mut i: usize = 0;
                while i < v.len()
                    invariant
                        i <= v.len(),
                        out@.len() == i,
                        decreases_to!(self => v),
                        forall|k: int|
                            0 <= k < i ==> (#[trigger] out@[k]).deep_view() == v@[k].deep_view(),
                    decreases v.len() - i,
                {
                    out.push(v[i].clone());
                    i = i + 1;
                }
                assert(out.deep_view() =~= v.deep_view());
                SvnItem::List(out)
            },
        }
    }
}

/// Copies of the items, in order.
pub fn clone_items(v: &[SvnItem]) -> (r: Vec<SvnItem>)
    ensures
        r.deep_view() == v.deep_view(),
{
    let mut out: Vec<SvnItem> = Vec::new();
    let mut i: usize = 0;
    while i < v.len()
        invariant
            i <= v.len(),
            out@.len() == i,
            forall|k: int| 0 <= k < i ==> (#[trigger] out@[k]).deep_view() == v@[k].deep_view(),
        decreases v.len() - i,
    {
        out.push(v[i].clone());
        i = i + 1;
    }
    assert(out.deep_view() =~= v.deep_view());
    out
}

impl SvnItem {
    /// What kind of item it is, as a word.
    pub fn kind(&self) -> (r: &'static str)
        ensures
            r@ == kind_of(self.deep_view()),
    {
        match self {
            SvnItem::Word(_) => "word",
            SvnItem::Number(_) => "number",
            SvnItem::Bool(_) => "bool",
            SvnItem::String(_) => "string",
            SvnItem::List(_) => "list",
        }
    }

    /// The word that the item is.
    pub fn as_word(&self) -> (r: Option<String>)
        ensures
            r.deep_view() == word_of(self.deep_view()),
    {
        match self {
            SvnItem::Word(w) => Some(w.clone()),
            _ => None,
        }
    }

    /// The number that the item is.
    pub fn as_u64(&self) -> (r: Option<u64>)
        ensures
            r == number_of(self.deep_view()),
    {
        match self {
            SvnItem::Number(n) => Some(*n),
            _ => None,
        }
    }

    /// The truth value that the item is.
    pub fn as_bool(&self) -> (r: Option<bool>)
        ensures
            r == bool_of(self.deep_view()),
    {
        match self {
            SvnItem::Bool(b) => Some(*b),
            _ => None,
        }
    }

    /// The bytes of an item that is a string.
    pub fn as_bytes_string(&self) -> (r: Option<Vec<u8>>)
        ensures
            match r {
                Some(b) => bytes_string_of(self.deep_view()) == Some(b@),
                None => bytes_string_of(self.deep_view()) is None,
            },
    {
        match self {
            SvnItem::String(s) => Some(copy_bytes(s)),
            _ => None,
        }
    }

    /// The text of an item that is a string of well-formed UTF-8.
    pub fn as_string(&self) -> (r: Option<String>)
        ensures
            r.deep_view() == string_of(self.deep_view()),
    {
        match self {
            SvnItem::String(s) => string_from_utf8(copy_bytes(s)),
            _ => None,
        }
    }

    /// The items of an item that is a list.
    pub fn as_list(&self) -> (r: Option<&Vec<SvnItem>>)
        ensures
            match r {
                Some(v) => list_of(self.deep_view()) == Some(v.deep_view()),
                None => list_of(self.deep_view()) is None,
            },
    {
        broadcast use lemma_list_view;

        match self {
            SvnItem::List(v) => Some(v),
            _ => None,
        }
    }
}

} // verus!
