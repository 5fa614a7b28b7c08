//! The other end of the connection: how a server takes what it is sent, and how it sends
//! what it answers. Each form is that of the protocol, and stands by itself, so that the
//! laws on requests and answers can be stated against it.

use vstd::prelude::*;
use vstd::utf8::*;

use crate::raw::ItemView;
use crate::types::{Depth, DirentField, MergeInfoInheritance, NodeKind};

verus! {

/// A command as a server takes it: its name, and its parameters.
pub open spec fn called(i: ItemView) -> Option<(Seq<char>, Seq<ItemView>)> {
    match i {
        ItemView::List(v) => if v.len() == 2 {
            match (v[0], v[1]) {
                (ItemView::Word(name), ItemView::List(params)) => Some((name, params)),
                _ => None,
            }
        } else {
            None
        },
        _ => None,
    }
}

/// A command of this name, with so many parameters.
pub open spec fn calls(i: ItemView, name: Seq<char>, n: nat) -> bool {
    called(i) matches Some((x, p)) && x == name && p.len() == n
}

/// The `k`-th parameter of a command.
pub open spec fn arg(i: ItemView, k: int) -> ItemView {
    let (_, p) = called(i)->0;
    p[k]
}

/// The item says this text: it is a string that holds the text in UTF-8.
pub open spec fn says_text(i: ItemView, s: Seq<char>) -> bool {
    i matches ItemView::String(b) && valid_utf8(b) && decode_utf8(b) == s
}

/// The item is a string of these bytes.
pub open spec fn says_bytes(i: ItemView, b: Seq<u8>) -> bool {
    i matches ItemView::String(x) && x == b
}

/// The item is this number.
pub open spec fn says_number(i: ItemView, n: u64) -> bool {
    i matches ItemView::Number(x) && x == n
}

/// The item is this truth value.
pub open spec fn says_bool(i: ItemView, b: bool) -> bool {
    i matches ItemView::Bool(x) && x == b
}

/// The item is this word.
pub open spec fn says_word(i: ItemView, w: Seq<char>) -> bool {
    i matches ItemView::Word(x) && x == w
}

/// The item is a tuple that holds this number, or nothing.
pub open spec fn may_say_number(i: ItemView, n: Option<u64>) -> bool {
    i matches ItemView::List(v) && match n {
        Some(x) => v.len() == 1 && says_number(v[0], x),
        None => v.len() == 0,
    }
}

/// The item is a tuple that holds this text, or nothing.
pub open spec fn may_say_text(i: ItemView, s: Option<Seq<char>>) -> bool {
    i matches ItemView::List(v) && match s {
        Some(x) => v.len() == 1 && says_text(v[0], x),
        None => v.len() == 0,
    }
}

/// The item is a tuple that holds these bytes, or nothing.
pub open spec fn may_say_bytes(i: ItemView, b: Option<Seq<u8>>) -> bool {
    i matches ItemView::List(v) && match b {
        Some(x) => v.len() == 1 && says_bytes(v[0], x),
        None => v.len() == 0,
    }
}

/// The item is a tuple that holds this truth value, or nothing.
pub open spec fn may_say_bool(i: ItemView, b: Option<bool>) -> bool {
    i matches ItemView::List(v) && match b {
        Some(x) => v.len() == 1 && says_bool(v[0], x),
        None => v.len() == 0,
    }
}

/// The item is a list of these texts, in this order.
pub open spec fn says_texts(i: ItemView, s: Seq<Seq<char>>) -> bool {
    i matches ItemView::List(v) && v.len() == s.len() && forall|k: int|
        0 <= k < s.len() ==> says_text(#[trigger] v[k], s[k])
}

/// The item is a list of these numbers, in this order.
pub open spec fn says_numbers(i: ItemView, n: Seq<u64>) -> bool {
    i matches ItemView::List(v) && v.len() == n.len() && forall|k: int|
        0 <= k < n.len() ==> says_number(#[trigger] v[k], n[k])
}

/// The item names this depth.
pub open spec fn says_depth(i: ItemView, d: Depth) -> bool {
    says_word(
        i,
        match d {
            Depth::Empty => "empty"@,
            Depth::Files => "files"@,
            Depth::Immediates => "immediates"@,
            Depth::Infinity => "infinity"@,
        },
    )
}

/// The item says whether a server without depths goes below the target: at the depths
/// that go below files.
pub open spec fn says_recurse(i: ItemView, d: Depth) -> bool {
    says_bool(i, d is Immediates || d is Infinity)
}

/// The item names this field of an entry.
pub open spec fn says_field(i: ItemView, f: DirentField) -> bool {
    says_word(
        i,
        match f {
            DirentField::Kind => "kind"@,
            DirentField::Size => "size"@,
            DirentField::HasProps => "has-props"@,
            DirentField::CreatedRev => "created-rev"@,
            DirentField::Time => "time"@,
            DirentField::LastAuthor => "last-author"@,
        },
    )
}

/// The item is a list of these fields, in this order.
pub open spec fn says_fields(i: ItemView, f: Seq<DirentField>) -> bool {
    i matches ItemView::List(v) && v.len() == f.len() && forall|k: int|
        0 <= k < f.len() ==> says_field(#[trigger] v[k], f[k])
}

/// The item names how merge information is inherited.
pub open spec fn says_inheritance(i: ItemView, h: MergeInfoInheritance) -> bool {
    says_word(
        i,
        match h {
            MergeInfoInheritance::Explicit => "explicit"@,
            MergeInfoInheritance::Inherited => "inherited"@,
            MergeInfoInheritance::NearestAncestor => "nearest-ancestor"@,
        },
    )
}

/// The word for a kind of node.
pub open spec fn word_for(k: NodeKind) -> Seq<char> {
    match k {
        NodeKind::Missing => "none"@,
        NodeKind::File => "file"@,
        NodeKind::Dir => "dir"@,
        NodeKind::Unknown => "unknown"@,
    }
}

/// The `k`-th item of a list of properties names the property and gives its value.
pub open spec fn says_prop(i: ItemView, name: Seq<char>, value: Seq<u8>) -> bool {
    i matches ItemView::List(v) && v.len() == 2 && says_text(v[0], name) && says_bytes(v[1], value)
}

/// The item is a list of these properties, under these names, each once.
pub open spec fn says_props_as(
    i: ItemView,
    names: Seq<Seq<char>>,
    props: Map<Seq<char>, Seq<u8>>,
) -> bool {
    &&& names.no_duplicates()
    &&& names.to_set() == props.dom()
    &&& i matches ItemView::List(v) && v.len() == names.len() && forall|k: int|
        0 <= k < names.len() ==> says_prop(#[trigger] v[k], names[k], props[names[k]])
}

/// The item is a list of these properties, in some order, each once.
pub open spec fn says_props(i: ItemView, props: Map<Seq<char>, Seq<u8>>) -> bool {
    exists|names: Seq<Seq<char>>| #[trigger] says_props_as(i, names, props)
}

/// A text in UTF-8 is read back.
pub proof fn lemma_utf8(s: Seq<char>)
    ensures
        says_text(ItemView::String(encode_utf8(s)), s),
{
    encode_utf8_valid_utf8(s);
    encode_utf8_decode_utf8(s);
}

/// A text is said in one way only.
pub proof fn lemma_one_text(b: Seq<u8>, s: Seq<char>)
    requires
        says_text(ItemView::String(b), s),
    ensures
        b == encode_utf8(s),
{
    decode_utf8_encode_utf8(b);
}

} // verus!
