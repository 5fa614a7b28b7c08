//! What stands on the wire: items in the form of the protocol.

use vstd::prelude::*;
use vstd::utf8::*;

use crate::delta_laws::in_a_row;
use crate::raw::ItemView;
use crate::wire::{
    bytes_number, digits_end, encode, encode_all, encode_line, is_digit_byte, is_mark, is_ws,
    lemma_digits_end, lemma_digits_end_at, lemma_read_progress, lemma_skip_ws, lemma_word_end,
    lemma_word_end_at, number_bytes, read, read_atom, read_rest, skip_ws, word_end, Parse,
};

verus! {

/// The number that ASCII digits stand for.
pub open spec fn digits_say(b: Seq<u8>) -> nat
    decreases b.len(),
{
    if b.len() == 0 {
        0
    } else {
        digits_say(b.drop_last()) * 10 + (b.last() - 48) as nat
    }
}

/// The bytes are the decimal form of a number: digits, without zeros in front.
pub open spec fn is_decimal(b: Seq<u8>, n: nat) -> bool {
    &&& b.len() > 0
    &&& forall|k: int| 0 <= k < b.len() ==> 48 <= #[trigger] b[k] <= 57
    &&& digits_say(b) == n
    &&& b.len() > 1 ==> b[0] != 48
}

proof fn lemma_decimal_form(n: nat)
    ensures
        is_decimal(number_bytes(n), n),
        n > 0 ==> number_bytes(n)[0] != 48,
    decreases n,
{
    let b = number_bytes(n);
    if n >= 10 {
        lemma_decimal_form(n / 10);
        let before = number_bytes(n / 10);
        assert(b.drop_last() =~= before);
        assert forall|k: int| 0 <= k < b.len() implies 48 <= #[trigger] b[k] <= 57 by {
            if k < before.len() {
                assert(b[k] == before[k]);
            }
        }
        assert(b[0] == before[0]);
    } else {
        assert(b.drop_last().len() == 0);
        assert(digits_say(b.drop_last()) == 0);
    }
}

/// The bytes of items.
pub open spec fn each_encoded(items: Seq<ItemView>) -> Seq<Seq<u8>> {
    items.map_values(|i: ItemView| encode(i))
}

proof fn lemma_row_push(parts: Seq<Seq<u8>>, last: Seq<u8>)
    ensures
        in_a_row(parts.push(last)) == in_a_row(parts) + last,
    decreases parts.len(),
{
    let all = parts.push(last);
    if parts.len() == 0 {
        assert(all.drop_first() =~= Seq::empty());
        assert(in_a_row(all.drop_first()).len() == 0);
        assert(in_a_row(all) == all[0] + in_a_row(all.drop_first()));
        assert(in_a_row(all) =~= last);
        assert(in_a_row(parts) + last =~= last);
    } else {
        let rest = parts.drop_first();
        assert(all.drop_first() =~= rest.push(last));
        lemma_row_push(rest, last);
        assert(in_a_row(all) =~= in_a_row(parts) + last);
    }
}

proof fn lemma_all_encoded(items: Seq<ItemView>)
    ensures
        encode_all(items) == in_a_row(each_encoded(items)),
    decreases items.len(),
{
    if items.len() > 0 {
        lemma_all_encoded(items.drop_last());
        lemma_row_push(each_encoded(items.drop_last()), encode(items.last()));
        assert(each_encoded(items) =~= each_encoded(items.drop_last()).push(encode(items.last())));
    }
}

/// Items stand on the wire in the form of the protocol: a number in digits, a word in its
/// letters, a string behind its length and a colon, a list between parentheses; behind each
/// stands a space. A line ends with a line feed.
pub proof fn items_stand_in_the_form_of_the_protocol(
    n: u64,
    w: Seq<char>,
    s: Seq<u8>,
    items: Seq<ItemView>,
    i: ItemView,
)
    ensures
        exists|d: Seq<u8>| #[trigger]
            is_decimal(d, n as nat) && encode(ItemView::Number(n)) == d + seq![32u8],
        encode(ItemView::Word(w)) == encode_utf8(w) + seq![32u8],
        encode(ItemView::Bool(true)) == seq![116u8, 114u8, 117u8, 101u8, 32u8],
        encode(ItemView::Bool(false)) == seq![102u8, 97u8, 108u8, 115u8, 101u8, 32u8],
        exists|d: Seq<u8>| #[trigger]
            is_decimal(d, s.len()) && encode(ItemView::String(s)) == d + seq![58u8] + s + seq![
                32u8,
            ],
        encode(ItemView::List(items)) == seq![40u8, 32u8] + in_a_row(each_encoded(items)) + seq![
            41u8,
            32u8,
        ],
        encode_line(i) == encode(i) + seq![10u8],
{
    lemma_decimal_form(n as nat);
    lemma_decimal_form(s.len());
    lemma_all_encoded(items);
    assert(encode(ItemView::Number(n)) =~= number_bytes(n as nat) + seq![32u8]);
    assert(encode(ItemView::String(s)) =~= number_bytes(s.len()) + seq![58u8] + s + seq![32u8]);
    assert(encode(ItemView::Word(w)) =~= encode_utf8(w) + seq![32u8]);
    assert(encode_line(i) =~= encode(i) + seq![10u8]);
    lemma_words();
}

/// The bytes of the two truth values.
proof fn lemma_words()
    ensures
        encode_utf8("true"@) == seq![116u8, 114u8, 117u8, 101u8],
        encode_utf8("false"@) == seq![102u8, 97u8, 108u8, 115u8, 101u8],
{
    reveal_strlit("true");
    reveal_strlit("false");
    assert("true"@ =~= seq!['t', 'r', 'u', 'e']);
    assert("false"@ =~= seq!['f', 'a', 'l', 's', 'e']);
    lemma_ascii(seq!['t', 'r', 'u', 'e']);
    lemma_ascii(seq!['f', 'a', 'l', 's', 'e']);
    assert(ascii(seq!['t', 'r', 'u', 'e']) =~= seq![116u8, 114u8, 117u8, 101u8]);
    assert(ascii(seq!['f', 'a', 'l', 's', 'e']) =~= seq![102u8, 97u8, 108u8, 115u8, 101u8]);
}

/// ASCII characters as bytes.
spec fn ascii(s: Seq<char>) -> Seq<u8> {
    s.map_values(|c: char| (c as u32) as u8)
}

proof fn lemma_ascii(s: Seq<char>)
    requires
        forall|k: int| 0 <= k < s.len() ==> (#[trigger] s[k] as u32) < 128,
    ensures
        encode_utf8(s) == ascii(s),
    decreases s.len(),
{
    if s.len() > 0 {
        let rest = s.drop_first();
        assert forall|k: int| 0 <= k < rest.len() implies (#[trigger] rest[k] as u32) < 128 by {
            assert(rest[k] == s[k + 1]);
        }
        lemma_ascii(rest);
        let x = s[0] as u32;
        assert(x < 128);
        assert(x < 128 ==> x & 0x7F == x) by (bit_vector);
        assert(encode_scalar(x) =~= seq![x as u8]);
        assert(encode_utf8(s) =~= ascii(s));
    }
}

/// White space: a space, a tab, a line feed, a form feed or a carriage return.
pub open spec fn is_blank(c: u8) -> bool {
    c == 32 || c == 9 || c == 10 || c == 12 || c == 13
}

/// White space stands here, or nothing.
pub open spec fn blanks(b: Seq<u8>, from: int, to: int) -> bool {
    forall|k: int| from <= k < to ==> is_blank(#[trigger] b[k])
}

/// Digits stand here, at least one.
pub open spec fn digits(b: Seq<u8>, from: int, to: int) -> bool {
    from < to && forall|k: int| from <= k < to ==> 48 <= #[trigger] b[k] <= 57
}

/// Letters of a word stand here: neither white space nor a parenthesis nor a colon, and no
/// digit first.
pub open spec fn letters(b: Seq<u8>, from: int, to: int) -> bool {
    &&& from < to
    &&& !(48 <= b[from] <= 57)
    &&& forall|k: int|
        from <= k < to ==> !is_blank(#[trigger] b[k]) && b[k] != 40 && b[k] != 41 && b[k] != 58
}

/// A word, `true` and `false` among them, is spelled here.
pub open spec fn spells_word(b: Seq<u8>, from: int, to: int, w: Seq<char>) -> bool {
    letters(b, from, to) && valid_utf8(b.subrange(from, to)) && decode_utf8(b.subrange(from, to))
        == w
}

/// A string is spelled here, with its length before the colon at `c`.
pub open spec fn spells_string(b: Seq<u8>, from: int, c: int, to: int, s: Seq<u8>) -> bool {
    &&& digits(b, from, c)
    &&& c < to
    &&& b[c] == 58
    &&& digits_say(b.subrange(from, c)) == s.len()
    &&& to == c + 1 + s.len()
    &&& b.subrange(c + 1, to) == s
}

/// How an item is spelled: it begins with white space at `from`, its first byte stands at
/// `first`, and it ends before `to`. The length of a string ends at `colon`; a list closes at
/// `close`, behind its parts.
pub enum Spelling {
    Atom { from: int, first: int, colon: int, to: int },
    List { from: int, first: int, parts: Seq<Spelling>, close: int, to: int },
}

impl Spelling {
    /// Where it begins.
    pub open spec fn begins(self) -> int {
        match self {
            Spelling::Atom { from, .. } => from,
            Spelling::List { from, .. } => from,
        }
    }

    /// Where it ends.
    pub open spec fn ends(self) -> int {
        match self {
            Spelling::Atom { to, .. } => to,
            Spelling::List { to, .. } => to,
        }
    }
}

/// The parts of a list stand one behind the other from `from` on, and behind them the end of
/// the list.
pub open spec fn in_line(
    b: Seq<u8>,
    from: int,
    parts: Seq<Spelling>,
    close: int,
    to: int,
) -> bool {
    let last = if parts.len() == 0 {
        from
    } else {
        parts.last().ends()
    };
    &&& 0 <= from
    &&& parts.len() > 0 ==> parts[0].begins() == from
    &&& forall|k: int|
        0 <= k < parts.len() - 1 ==> (#[trigger] parts[k]).ends() == parts[k + 1].begins()
    &&& 0 <= last <= close
    &&& close + 2 == to <= b.len()
    &&& blanks(b, last, close)
    &&& b[close] == 41
    &&& is_blank(b[close + 1])
}

/// An item is spelled so, and white space stands behind it.
pub open spec fn spells(b: Seq<u8>, t: Spelling, item: ItemView) -> bool
    decreases t,
{
    match t {
        Spelling::Atom { from, first, colon, to } => {
            &&& 0 <= from <= first < to <= b.len()
            &&& blanks(b, from, first)
            &&& is_blank(b[to - 1])
            &&& match item {
                ItemView::Number(n) => digits(b, first, to - 1) && digits_say(
                    b.subrange(first, to - 1),
                ) == n,
                ItemView::String(s) => s.len() <= u64::MAX && spells_string(
                    b,
                    first,
                    colon,
                    to - 1,
                    s,
                ),
                ItemView::Bool(v) => spells_word(
                    b,
                    first,
                    to - 1,
                    if v {
                        "true"@
                    } else {
                        "false"@
                    },
                ),
                ItemView::Word(w) => spells_word(b, first, to - 1, w) && w != "true"@ && w
                    != "false"@,
                ItemView::List(_) => false,
            }
        },
        Spelling::List { from, first, parts, close, to } => {
            &&& 0 <= from <= first
            &&& first + 1 < b.len()
            &&& blanks(b, from, first)
            &&& b[first] == 40
            &&& is_blank(b[first + 1])
            &&& in_line(b, first + 2, parts, close, to)
            &&& item matches ItemView::List(items) && items.len() == parts.len() && forall|k: int|
                0 <= k < parts.len() ==> spells(b, #[trigger] parts[k], items[k])
        },
    }
}

proof fn lemma_digits_say(b: Seq<u8>)
    ensures
        (forall|k: int| 0 <= k < b.len() ==> 48 <= #[trigger] b[k] <= 57) ==> digits_say(b)
            == bytes_number(b),
    decreases b.len(),
{
    if b.len() > 0 {
        lemma_digits_say(b.drop_last());
        if forall|k: int| 0 <= k < b.len() ==> 48 <= #[trigger] b[k] <= 57 {
            assert forall|k: int| 0 <= k < b.drop_last().len() implies 48 <= #[trigger] (
            b.drop_last())[k] <= 57 by {
                assert(b.drop_last()[k] == b[k]);
            }
            assert(48 <= b[b.len() - 1] <= 57);
        }
    }
}

proof fn lemma_digits_value(b: Seq<u8>, from: int, to: int)
    requires
        0 <= from <= to <= b.len(),
        digits(b, from, to),
    ensures
        digits_say(b.subrange(from, to)) == bytes_number(b.subrange(from, to)),
{
    let x = b.subrange(from, to);
    assert forall|k: int| 0 <= k < x.len() implies 48 <= #[trigger] x[k] <= 57 by {
        assert(x[k] == b[from + k]);
    }
    lemma_digits_say(x);
}

proof fn lemma_skips(b: Seq<u8>, pos: int)
    requires
        0 <= pos <= b.len(),
    ensures
        pos <= skip_ws(b, pos) <= b.len(),
        blanks(b, pos, skip_ws(b, pos)),
    decreases b.len() - pos,
{
    if pos < b.len() && is_ws(b[pos]) {
        lemma_skips(b, pos + 1);
    }
}

proof fn lemma_skips_to(b: Seq<u8>, pos: int, p: int)
    requires
        0 <= pos <= p < b.len(),
        blanks(b, pos, p),
        !is_blank(b[p]),
    ensures
        skip_ws(b, pos) == p,
    decreases p - pos,
{
    if pos < p {
        assert(is_blank(b[pos]));
        lemma_skips_to(b, pos + 1, p);
    }
}

proof fn lemma_atom_spelled(b: Seq<u8>, from: int, p: int) -> (t: Spelling)
    requires
        0 <= from <= p < b.len(),
        blanks(b, from, p),
        !is_ws(b[p]),
        b[p] != 40,
    ensures
        read_atom(b, p) matches Parse::Done(item, q) ==> spells(b, t, item) && t.begins() == from
            && t.ends() == q,
{
    let e = if is_digit_byte(b[p]) {
        digits_end(b, p)
    } else {
        word_end(b, p)
    };
    let q = match read_atom(b, p) {
        Parse::Done(_, q) => q,
        _ => 0,
    };
    let t = Spelling::Atom { from, first: p, colon: e, to: q };
    if let Parse::Done(item, _) = read_atom(b, p) {
        if is_digit_byte(b[p]) {
            lemma_digits_end(b, p);
            assert(p < e);
            assert(digits(b, p, e));
            lemma_digits_value(b, p, e);
            if b[e] == 58 {
                let n = bytes_number(b.subrange(p, e)) as int;
                assert(spells_string(b, p, e, q - 1, b.subrange(e + 1, e + 1 + n)));
            }
        } else {
            lemma_word_end(b, p);
            if e == p {
                assert(is_mark(b[e]));
            }
            assert(letters(b, p, e));
            assert(spells_word(b, p, e, decode_utf8(b.subrange(p, e))));
        }
        assert(spells(b, t, item));
    }
    t
}

proof fn lemma_read_spelled(b: Seq<u8>, pos: int, from: int) -> (t: Spelling)
    requires
        0 <= from <= pos <= b.len(),
        blanks(b, from, pos),
    ensures
        read(b, pos) matches Parse::Done(item, q) ==> spells(b, t, item) && t.begins() == from
            && t.ends() == q,
    decreases b.len() - pos, 0int,
{
    lemma_skip_ws(b, pos);
    lemma_skips(b, pos);
    let p = skip_ws(b, pos);
    match read(b, pos) {
        Parse::Done(item, q) => if b[p] == 40 {
            let (parts, close) = lemma_rest_spelled(b, p + 2);
            let t = Spelling::List { from, first: p, parts, close, to: q };
            assert(spells(b, t, item));
            t
        } else {
            lemma_atom_spelled(b, from, p)
        },
        _ => Spelling::Atom { from, first: 0, colon: 0, to: 0 },
    }
}

proof fn lemma_rest_spelled(b: Seq<u8>, pos: int) -> (r: (Seq<Spelling>, int))
    requires
        0 <= pos,
    ensures
        read_rest(b, pos) matches Parse::Done(items, q) ==> in_line(b, pos, r.0, r.1, q)
            && r.0.len() == items.len() && forall|k: int|
            0 <= k < r.0.len() ==> spells(b, #[trigger] r.0[k], items[k]),
    decreases b.len() - pos, 1int,
{
    lemma_skip_ws(b, pos);
    let p = skip_ws(b, pos);
    match read_rest(b, pos) {
        Parse::Done(items, q) => {
            lemma_skips(b, pos);
            if b[p] == 41 {
                (Seq::empty(), p)
            } else {
                lemma_read_progress(b, p);
                let item = read(b, p)->Done_0;
                let m = read(b, p)->Done_1;
                let t = lemma_read_spelled(b, p, pos);
                let (more, close) = lemma_rest_spelled(b, m);
                let rest = read_rest(b, m)->Done_0;
                let parts = seq![t] + more;
                assert(items == seq![item] + rest);
                assert forall|k: int| 0 <= k < parts.len() implies spells(
                    b,
                    #[trigger] parts[k],
                    items[k],
                ) by {
                    if k > 0 {
                        assert(parts[k] == more[k - 1]);
                        assert(items[k] == rest[k - 1]);
                    }
                }
                assert forall|k: int| 0 <= k < parts.len() - 1 implies (
                #[trigger] parts[k]).ends() == parts[k + 1].begins() by {
                    assert(parts[k + 1] == more[k]);
                    if k > 0 {
                        assert(parts[k] == more[k - 1]);
                        assert(more[k - 1].ends() == more[k - 1 + 1].begins());
                    }
                }
                if more.len() > 0 {
                    assert(parts.last() == more.last());
                }
                (parts, close)
            }
        },
        _ => (Seq::empty(), 0),
    }
}

proof fn lemma_spelled_read(b: Seq<u8>, t: Spelling, item: ItemView)
    requires
        spells(b, t, item),
    ensures
        read(b, t.begins()) == Parse::Done(item, t.ends()),
        0 <= t.begins() < t.ends() <= b.len(),
        skip_ws(b, t.begins()) < b.len(),
        b[skip_ws(b, t.begins())] != 41,
    decreases t,
{
    match t {
        Spelling::Atom { from, first, colon, to } => {
            let p = first;
            match item {
                ItemView::Number(n) => {
                    assert(48 <= b[p] <= 57);
                    lemma_skips_to(b, from, p);
                    lemma_digits_end_at(b, p, to - 1);
                    lemma_digits_value(b, p, to - 1);
                },
                ItemView::String(s) => {
                    assert(48 <= b[p] <= 57);
                    lemma_skips_to(b, from, p);
                    lemma_digits_end_at(b, p, colon);
                    lemma_digits_value(b, p, colon);
                    assert(b.subrange(colon + 1, colon + 1 + s.len()) == s);
                },
                ItemView::Bool(v) => {
                    assert(!is_blank(b[p]));
                    lemma_skips_to(b, from, p);
                    lemma_word_end_at(b, p, to - 1);
                    lemma_true_and_false();
                },
                ItemView::Word(w) => {
                    assert(!is_blank(b[p]));
                    lemma_skips_to(b, from, p);
                    lemma_word_end_at(b, p, to - 1);
                },
                ItemView::List(_) => {},
            }
        },
        Spelling::List { from, first, parts, close, to } => {
            lemma_skips_to(b, from, first);
            lemma_rest_read(b, first + 2, parts, close, to, item->List_0);
        },
    }
}

proof fn lemma_true_and_false()
    ensures
        "true"@ != "false"@,
{
    reveal_strlit("true");
    reveal_strlit("false");
    assert("true"@.len() == 4 && "false"@.len() == 5);
}

proof fn lemma_rest_read(
    b: Seq<u8>,
    from: int,
    parts: Seq<Spelling>,
    close: int,
    to: int,
    items: Seq<ItemView>,
)
    requires
        in_line(b, from, parts, close, to),
        items.len() == parts.len(),
        forall|k: int| 0 <= k < parts.len() ==> spells(b, #[trigger] parts[k], items[k]),
    ensures
        read_rest(b, from) == Parse::Done(items, to),
        from < to,
    decreases parts,
{
    if parts.len() == 0 {
        lemma_skips_to(b, from, close);
        assert(items =~= Seq::empty());
    } else {
        let more = parts.drop_first();
        let rest = items.drop_first();
        let m = parts[0].ends();
        lemma_spelled_read(b, parts[0], items[0]);
        assert forall|k: int| 0 <= k < more.len() implies spells(
            b,
            #[trigger] more[k],
            rest[k],
        ) by {
            assert(more[k] == parts[k + 1]);
        }
        assert(in_line(b, m, more, close, to)) by {
            if more.len() > 0 {
                assert(parts[0].ends() == parts[1].begins());
                assert(more.last() == parts.last());
            }
            assert forall|k: int| 0 <= k < more.len() - 1 implies (#[trigger] more[k]).ends()
                == more[k + 1].begins() by {
                assert(more[k] == parts[k + 1]);
                assert(parts[k + 1].ends() == parts[k + 1 + 1].begins());
            }
        }
        lemma_rest_read(b, m, more, close, to, rest);
        lemma_skip_ws(b, from);
        let p = skip_ws(b, from);
        assert(read(b, p) == read(b, from));
        lemma_read_progress(b, p);
        assert(seq![items[0]] + rest =~= items);
    }
}

/// An item is read exactly where it is spelled in the form of the protocol: a number in
/// digits, a word in its letters, a string behind its length and a colon, a list between
/// parentheses, and white space behind each; white space before an item does not matter.
pub proof fn an_item_is_read_exactly_where_it_is_spelled(
    b: Seq<u8>,
    from: int,
    to: int,
    item: ItemView,
)
    requires
        0 <= from <= b.len(),
    ensures
        read(b, from) == Parse::Done(item, to) <==> exists|t: Spelling| #[trigger]
            spells(b, t, item) && t.begins() == from && t.ends() == to,
{
    if read(b, from) == Parse::Done(item, to) {
        let t = lemma_read_spelled(b, from, from);
        assert(spells(b, t, item));
    }
    if exists|t: Spelling| #[trigger]
        spells(b, t, item) && t.begins() == from && t.ends() == to {
        let t = choose|t: Spelling| #[trigger]
            spells(b, t, item) && t.begins() == from && t.ends() == to;
        lemma_spelled_read(b, t, item);
    }
}

} // verus!
