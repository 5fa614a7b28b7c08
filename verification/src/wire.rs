//! The byte form of wire items: writing them, and reading them back from a buffer
//! that may not hold a whole item yet.

use vstd::prelude::*;
use vstd::utf8::*;

use crate::error::{protocol, ErrorView, SvnError};
use crate::raw::{lemma_list_view, ItemView, SvnItem};
use crate::text::{string_from_utf8, str_eq};

verus! {

/// ASCII white space: space, tab, line feed, form feed and carriage return.
pub open spec fn is_ws(b: u8) -> bool {
    b == 32 || b == 9 || b == 10 || b == 12 || b == 13
}

pub fn byte_is_ws(b: u8) -> (r: bool)
    ensures
        r == is_ws(b),
{
    b == 32 || b == 9 || b == 10 || b == 12 || b == 13
}

/// An ASCII digit.
pub open spec fn is_digit_byte(b: u8) -> bool {
    48 <= b <= 57
}

/// `(`, `)` or `:`, which no word holds.
pub open spec fn is_mark(b: u8) -> bool {
    b == 40 || b == 41 || b == 58
}

/// A number in decimal notation, in ASCII.
pub open spec fn number_bytes(n: nat) -> Seq<u8>
    decreases n,
{
    if n < 10 {
        seq![(n + 48) as u8]
    } else {
        number_bytes(n / 10).push((n % 10 + 48) as u8)
    }
}

/// The number that a run of ASCII digits stands for.
pub open spec fn bytes_number(b: Seq<u8>) -> nat
    decreases b.len(),
{
    if b.len() == 0 {
        0
    } else {
        (bytes_number(b.drop_last()) * 10 + (b.last() - 48)) as nat
    }
}

/// The byte form of an item. A word, a number and a string end with a space; a list
/// is `( `, its items, and `) `.
pub open spec fn encode(item: ItemView) -> Seq<u8>
    decreases item,
{
    match item {
        ItemView::Word(w) => encode_utf8(w).push(32),
        ItemView::Number(n) => number_bytes(n as nat).push(32),
        ItemView::Bool(b) => if b {
            encode_utf8("true"@).push(32)
        } else {
            encode_utf8("false"@).push(32)
        },
        ItemView::String(s) => (number_bytes(s.len()).push(58) + s).push(32),
        ItemView::List(items) => seq![40u8, 32u8] + encode_all(items) + seq![41u8, 32u8],
    }
}

/// The byte forms of items, one after the other.
pub open spec fn encode_all(items: Seq<ItemView>) -> Seq<u8>
    decreases items,
{
    if items.len() == 0 {
        Seq::empty()
    } else {
        encode_all(items.drop_last()) + encode(items.last())
    }
}

/// The byte form of an item as a line of its own.
pub open spec fn encode_line(item: ItemView) -> Seq<u8> {
    encode(item).push(10)
}

/// The item that carries a command: its name, and the list of its parameters.
pub open spec fn command_item(name: Seq<char>, params: Seq<ItemView>) -> ItemView {
    ItemView::List(seq![ItemView::Word(name), ItemView::List(params)])
}

fn push_all(out: &mut Vec<u8>, more: &[u8])
    ensures
        final(out)@ == old(out)@ + more@,
{
    let mut i: usize = 0;
    while i < more.len()
        invariant
            i <= more.len(),
            out@ == old(out)@ + more@.take(i as int),
        decreases more.len() - i,
    {
        out.push(more[i]);
        i = i + 1;
        assert(out@ == old(out)@ + more@.take(i as int));
    }
    assert(more@.take(i as int) == more@);
}

fn push_number(out: &mut Vec<u8>, n: u64)
    ensures
        final(out)@ == old(out)@ + number_bytes(n as nat),
    decreases n,
{
    if n >= 10 {
        push_number(out, n / 10);
    }
    out.push((n % 10) as u8 + 48);
    assert(out@ == old(out)@ + number_bytes(n as nat));
}

/// Appends the byte form of `item` to `out`.
pub fn encode_item(item: &SvnItem, out: &mut Vec<u8>)
    ensures
        final(out)@ == old(out)@ + encode(item.deep_view()),
    decreases item,
{
    broadcast use lemma_list_view;

    let ghost before = out@;
    match item {
        SvnItem::Word(w) => {
            push_all(out, w.as_str().as_bytes());
            out.push(32);
        },
        SvnItem::Number(n) => {
            push_number(out, *n);
            out.push(32);
        },
        SvnItem::Bool(b) => {
            if *b {
                push_all(out, "true".as_bytes());
            } else {
                push_all(out, "false".as_bytes());
            }
            out.push(32);
        },
        SvnItem::String(s) => {
            push_number(out, s.len() as u64);
            out.push(58);
            push_all(out, s);
            out.push(32);
        },
        SvnItem::List(v) => {
            out.push(40);
            out.push(32);
            let ghost head = out@;
            let ghost items = v.deep_view();
            let mut i: usize = 0;
            assert(items.take(0) == Seq::<ItemView>::empty());
            while i < v.len()
                invariant
                    i <= v.len(),
                    items == v.deep_view(),
                    decreases_to!(item => v),
                    out@ == head + encode_all(items.take(i as int)),
                decreases v.len() - i,
            {
                encode_item(&v[i], out);
                proof {
                    assert(items.take(i + 1).drop_last() == items.take(i as int));
                    assert(items.take(i + 1).last() == v@[i as int].deep_view());
                }
                i = i + 1;
                assert(out@ == head + encode_all(items.take(i as int)));
            }
            assert(items.take(i as int) == items);
            out.push(41);
            out.push(32);
        },
    }
    assert(out@ == before + encode(item.deep_view()));
}

/// Appends the byte form of `item`, and a line feed, to `out`.
pub fn encode_item_line(item: &SvnItem, out: &mut Vec<u8>)
    ensures
        final(out)@ == old(out)@ + encode_line(item.deep_view()),
{
    encode_item(item, out);
    out.push(10);
    assert(out@ == old(out)@ + encode_line(item.deep_view()));
}

/// The item that carries the command `name` with the given parameters.
pub fn command(name: &str, params: Vec<SvnItem>) -> (r: SvnItem)
    ensures
        r.deep_view() == command_item(name@, params.deep_view()),
{
    broadcast use lemma_list_view;

    let r = SvnItem::List(vec![SvnItem::Word(name.to_owned()), SvnItem::List(params)]);
    assert(r.deep_view()->List_0 =~= command_item(name@, params.deep_view())->List_0);
    r
}

/// What reading from a buffer gives: the buffer ends too early, its bytes are no
/// item, or a value and the index behind it.
pub enum Parse<T> {
    More,
    Fail(Seq<char>),
    Done(T, int),
}

/// The first index from `pos` on that holds no white space.
pub open spec fn skip_ws(b: Seq<u8>, pos: int) -> int
    decreases b.len() - pos,
{
    if 0 <= pos < b.len() && is_ws(b[pos]) {
        skip_ws(b, pos + 1)
    } else {
        pos
    }
}

/// Skipping white space goes forward, and stops at something else or at the end.
pub proof fn lemma_skip_ws(b: Seq<u8>, pos: int)
    ensures
        pos <= skip_ws(b, pos),
        pos <= b.len() ==> skip_ws(b, pos) <= b.len(),
        0 <= skip_ws(b, pos) < b.len() ==> !is_ws(b[skip_ws(b, pos)]),
        skip_ws(b, skip_ws(b, pos)) == skip_ws(b, pos),
    decreases b.len() - pos,
{
    if 0 <= pos < b.len() && is_ws(b[pos]) {
        lemma_skip_ws(b, pos + 1);
    }
}

/// White space must stand at `pos`; one byte of it is taken.
pub open spec fn require_ws(b: Seq<u8>, pos: int) -> Parse<()> {
    if pos >= b.len() {
        Parse::More
    } else if is_ws(b[pos]) {
        Parse::Done((), pos + 1)
    } else {
        Parse::Fail("expected whitespace"@)
    }
}

/// The first index from `pos` on that holds no digit.
pub open spec fn digits_end(b: Seq<u8>, pos: int) -> int
    decreases b.len() - pos,
{
    if 0 <= pos < b.len() && is_digit_byte(b[pos]) {
        digits_end(b, pos + 1)
    } else {
        pos
    }
}

/// The first index from `pos` on at which a word cannot go on.
pub open spec fn word_end(b: Seq<u8>, pos: int) -> int
    decreases b.len() - pos,
{
    if 0 <= pos < b.len() && !is_ws(b[pos]) && !is_mark(b[pos]) {
        word_end(b, pos + 1)
    } else {
        pos
    }
}

/// The item that a word stands for: `true` and `false` are truth values.
pub open spec fn word_item(w: Seq<char>) -> ItemView {
    if w == "true"@ {
        ItemView::Bool(true)
    } else if w == "false"@ {
        ItemView::Bool(false)
    } else {
        ItemView::Word(w)
    }
}

/// Reads a number, a string or a word that begins at `pos`.
pub open spec fn read_atom(b: Seq<u8>, pos: int) -> Parse<ItemView> {
    if is_digit_byte(b[pos]) {
        let e = digits_end(b, pos);
        let n = bytes_number(b.subrange(pos, e));
        if n > u64::MAX {
            Parse::Fail("number overflow"@)
        } else if e >= b.len() {
            Parse::More
        } else if b[e] == 58 {
            if e + 1 + n > b.len() {
                Parse::More
            } else {
                match require_ws(b, e + 1 + n) {
                    Parse::More => Parse::More,
                    Parse::Fail(m) => Parse::Fail(m),
                    Parse::Done(_, q) => Parse::Done(
                        ItemView::String(b.subrange(e + 1, e + 1 + n)),
                        q,
                    ),
                }
            }
        } else {
            match require_ws(b, e) {
                Parse::More => Parse::More,
                Parse::Fail(m) => Parse::Fail(m),
                Parse::Done(_, q) => Parse::Done(ItemView::Number(n as u64), q),
            }
        }
    } else {
        let e = word_end(b, pos);
        if e >= b.len() {
            Parse::More
        } else if is_mark(b[e]) {
            Parse::Fail("invalid word token"@)
        } else if !valid_utf8(b.subrange(pos, e)) {
            Parse::Fail("non-utf8 word"@)
        } else {
            Parse::Done(word_item(decode_utf8(b.subrange(pos, e))), e + 1)
        }
    }
}

/// Reads one item from `pos` on, white space before it included.
pub open spec fn read(b: Seq<u8>, pos: int) -> Parse<ItemView>
    decreases b.len() - pos, 0int,
{
    proof {
        lemma_skip_ws(b, pos);
    }
    let p = skip_ws(b, pos);
    if p < 0 || p >= b.len() {
        Parse::More
    } else if b[p] == 40 {
        match require_ws(b, p + 1) {
            Parse::More => Parse::More,
            Parse::Fail(m) => Parse::Fail(m),
            Parse::Done(_, q) => match read_rest(b, p + 2) {
                Parse::More => Parse::More,
                Parse::Fail(m) => Parse::Fail(m),
                Parse::Done(items, q) => Parse::Done(ItemView::List(items), q),
            },
        }
    } else {
        read_atom(b, p)
    }
}

/// Reads the items of a list from `pos` on, up to and with its `)`.
pub open spec fn read_rest(b: Seq<u8>, pos: int) -> Parse<Seq<ItemView>>
    decreases b.len() - pos, 1int,
{
    proof {
        lemma_skip_ws(b, pos);
    }
    let p = skip_ws(b, pos);
    if p < 0 || p >= b.len() {
        Parse::More
    } else if b[p] == 41 {
        match require_ws(b, p + 1) {
            Parse::More => Parse::More,
            Parse::Fail(m) => Parse::Fail(m),
            Parse::Done(_, q) => Parse::Done(Seq::empty(), q),
        }
    } else {
        match read(b, p) {
            Parse::More => Parse::More,
            Parse::Fail(m) => Parse::Fail(m),
            // An item is never empty, so `q` lies behind `p`.
            Parse::Done(item, q) => if q <= p || q > b.len() {
                Parse::More
            } else {
                match read_rest(b, q) {
                    Parse::More => Parse::More,
                    Parse::Fail(m) => Parse::Fail(m),
                    Parse::Done(items, r) => Parse::Done(seq![item] + items, r),
                }
            },
        }
    }
}

/// A run of digits ends at its first other byte.
pub(crate) proof fn lemma_digits_end(b: Seq<u8>, pos: int)
    requires
        0 <= pos <= b.len(),
    ensures
        pos <= digits_end(b, pos) <= b.len(),
        forall|k: int| pos <= k < digits_end(b, pos) ==> is_digit_byte(#[trigger] b[k]),
        digits_end(b, pos) < b.len() ==> !is_digit_byte(b[digits_end(b, pos)]),
    decreases b.len() - pos,
{
    if pos < b.len() && is_digit_byte(b[pos]) {
        lemma_digits_end(b, pos + 1);
    }
}

/// A word ends at white space or at a mark.
pub(crate) proof fn lemma_word_end(b: Seq<u8>, pos: int)
    requires
        0 <= pos <= b.len(),
    ensures
        pos <= word_end(b, pos) <= b.len(),
        forall|k: int|
            pos <= k < word_end(b, pos) ==> !is_ws(#[trigger] b[k]) && !is_mark(b[k]),
        word_end(b, pos) < b.len() ==> is_ws(b[word_end(b, pos)]) || is_mark(
            b[word_end(b, pos)],
        ),
    decreases b.len() - pos,
{
    if pos < b.len() && !is_ws(b[pos]) && !is_mark(b[pos]) {
        lemma_word_end(b, pos + 1);
    }
}

/// An atom takes at least one byte.
proof fn lemma_atom_progress(b: Seq<u8>, pos: int)
    requires
        0 <= pos < b.len(),
    ensures
        read_atom(b, pos) matches Parse::Done(_, q) ==> pos < q <= b.len(),
{
    lemma_digits_end(b, pos);
    lemma_word_end(b, pos);
}

/// An item takes at least one byte.
pub(crate) proof fn lemma_read_progress(b: Seq<u8>, pos: int)
    requires
        0 <= pos,
    ensures
        read(b, pos) matches Parse::Done(_, q) ==> skip_ws(b, pos) < q <= b.len(),
    decreases b.len() - pos, 0int,
{
    lemma_skip_ws(b, pos);
    let p = skip_ws(b, pos);
    if 0 <= p < b.len() {
        if b[p] == 40 {
            if p + 1 < b.len() && is_ws(b[p + 1]) {
                lemma_rest_progress(b, p + 2);
            }
        } else {
            lemma_atom_progress(b, p);
        }
    }
}

/// The rest of a list takes at least one byte.
proof fn lemma_rest_progress(b: Seq<u8>, pos: int)
    requires
        0 <= pos,
    ensures
        read_rest(b, pos) matches Parse::Done(_, q) ==> pos < q <= b.len(),
    decreases b.len() - pos, 1int,
{
    lemma_skip_ws(b, pos);
    let p = skip_ws(b, pos);
    if 0 <= p < b.len() && b[p] != 41 {
        lemma_read_progress(b, p);
        match read(b, p) {
            Parse::Done(_, q) => {
                lemma_rest_progress(b, q);
            },
            _ => {},
        }
    }
}

/// What remains to be read when `pos` is reached inside nested lists, of which
/// `open` holds the items so far, the innermost list last.
spec fn resume(b: Seq<u8>, pos: int, open: Seq<Seq<ItemView>>) -> Parse<ItemView>
    decreases open.len(),
{
    if open.len() == 0 {
        Parse::More
    } else {
        match read_rest(b, pos) {
            Parse::More => Parse::More,
            Parse::Fail(m) => Parse::Fail(m),
            Parse::Done(items, q) => {
                let list = ItemView::List(open.last() + items);
                if open.len() == 1 {
                    Parse::Done(list, q)
                } else {
                    resume(b, q, with_item(open.drop_last(), list))
                }
            },
        }
    }
}

/// The open lists, with one more item in the innermost.
spec fn with_item(open: Seq<Seq<ItemView>>, item: ItemView) -> Seq<Seq<ItemView>> {
    open.drop_last().push(open.last().push(item))
}

/// Inside a list, a `)` closes the innermost list.
proof fn lemma_resume_close(b: Seq<u8>, pos: int, open: Seq<Seq<ItemView>>)
    requires
        0 <= pos,
        open.len() > 0,
        skip_ws(b, pos) + 1 < b.len(),
        b[skip_ws(b, pos)] == 41,
        is_ws(b[skip_ws(b, pos) + 1]),
    ensures
        open.len() == 1 ==> resume(b, pos, open) == Parse::Done(
            ItemView::List(open.last()),
            skip_ws(b, pos) + 2,
        ),
        open.len() > 1 ==> resume(b, pos, open) == resume(
            b,
            skip_ws(b, pos) + 2,
            with_item(open.drop_last(), ItemView::List(open.last())),
        ),
{
    lemma_skip_ws(b, pos);
    assert(open.last() + Seq::<ItemView>::empty() =~= open.last());
}

/// Inside a list, an item is one more item of the innermost list.
proof fn lemma_resume_item(b: Seq<u8>, pos: int, open: Seq<Seq<ItemView>>)
    requires
        0 <= pos,
        open.len() > 0,
        skip_ws(b, pos) < b.len(),
        b[skip_ws(b, pos)] != 41,
    ensures
        match read(b, skip_ws(b, pos)) {
            Parse::More => resume(b, pos, open) == Parse::<ItemView>::More,
            Parse::Fail(m) => resume(b, pos, open) == Parse::<ItemView>::Fail(m),
            Parse::Done(item, q) => resume(b, pos, open) == resume(b, q, with_item(open, item)),
        },
{
    lemma_skip_ws(b, pos);
    let p = skip_ws(b, pos);
    lemma_read_progress(b, p);
    match read(b, p) {
        Parse::Done(item, q) => {
            match read_rest(b, q) {
                Parse::Done(items, r) => {
                    assert(open.last() + (seq![item] + items) =~= open.last().push(item) + items);
                    assert(with_item(open, item).drop_last() =~= open.drop_last());
                    assert(with_item(open, item).last() == open.last().push(item));
                },
                _ => {},
            }
        },
        _ => {},
    }
}

/// Inside a list, a `(` opens a list that becomes the innermost.
proof fn lemma_resume_open(b: Seq<u8>, pos: int, open: Seq<Seq<ItemView>>)
    requires
        0 <= pos,
        open.len() > 0,
        skip_ws(b, pos) + 1 < b.len(),
        b[skip_ws(b, pos)] == 40,
        is_ws(b[skip_ws(b, pos) + 1]),
    ensures
        resume(b, pos, open) == resume(b, skip_ws(b, pos) + 2, open.push(Seq::empty())),
{
    lemma_skip_ws(b, pos);
    let p = skip_ws(b, pos);
    lemma_resume_item(b, pos, open);
    let inner = open.push(Seq::<ItemView>::empty());
    assert(inner.drop_last() =~= open);
    assert(inner.last() =~= Seq::<ItemView>::empty());
    match read_rest(b, p + 2) {
        Parse::Done(items, q) => {
            assert(Seq::<ItemView>::empty() + items =~= items);
        },
        _ => {},
    }
}

/// The index behind an item lies in the buffer.
pub proof fn lemma_read_bounds(b: Seq<u8>, pos: int)
    requires
        0 <= pos,
    ensures
        read(b, pos) matches Parse::Done(_, q) ==> pos < q <= b.len(),
{
    lemma_read_progress(b, pos);
    lemma_skip_ws(b, pos);
}

/// What came of reading an item from a buffer.
#[derive(Debug)]
pub enum ReadOutcome {
    /// The buffer ends before the item does.
    NeedMore,
    /// The item, and the index behind it.
    Item(SvnItem, usize),
    /// The bytes are no item.
    Failed(SvnError),
}

/// The outcome says what `p` says.
pub open spec fn outcome_is(r: ReadOutcome, p: Parse<ItemView>) -> bool {
    match p {
        Parse::More => r is NeedMore,
        Parse::Fail(m) => r matches ReadOutcome::Failed(e) && e.deep_view() == ErrorView::Protocol(
            m,
        ),
        Parse::Done(item, q) => r matches ReadOutcome::Item(x, n) && x.deep_view() == item && n
            == q,
    }
}

/// The index of the first byte from `pos` on that is no white space.
pub fn skip_white(buf: &[u8], pos: usize) -> (r: usize)
    requires
        pos <= buf@.len(),
    ensures
        r == skip_ws(buf@, pos as int),
        pos <= r <= buf@.len(),
{
    let mut i: usize = pos;
    while i < buf.len() && byte_is_ws(buf[i])
        invariant
            pos <= i <= buf.len(),
            skip_ws(buf@, i as int) == skip_ws(buf@, pos as int),
        decreases buf.len() - i,
    {
        i = i + 1;
    }
    i
}

/// Dropping digits at the end makes a number no larger.
proof fn lemma_number_prefix(b: Seq<u8>, i: int)
    requires
        0 <= i <= b.len(),
        forall|k: int| 0 <= k < b.len() ==> is_digit_byte(#[trigger] b[k]),
    ensures
        bytes_number(b.take(i)) <= bytes_number(b),
    decreases b.len(),
{
    if i == b.len() {
        assert(b.take(i) == b);
    } else {
        assert(b.drop_last().take(i) == b.take(i));
        lemma_number_prefix(b.drop_last(), i);
        assert(is_digit_byte(b[b.len() - 1]));
    }
}

/// Reads the digits from `pos` on: their number and the index behind them, or
/// nothing if the number is too large.
fn read_digits(buf: &[u8], pos: usize) -> (r: Option<(u64, usize)>)
    requires
        pos <= buf@.len(),
    ensures
        match r {
            Some((n, e)) => e == digits_end(buf@, pos as int) && n == bytes_number(
                buf@.subrange(pos as int, e as int),
            ),
            None => bytes_number(buf@.subrange(pos as int, digits_end(buf@, pos as int)))
                > u64::MAX,
        },
{
    let mut n: u64 = 0;
    let mut i: usize = pos;
    let ghost e = digits_end(buf@, pos as int);
    proof {
        lemma_digits_end(buf@, pos as int);
    }
    while i < buf.len() && 48 <= buf[i] && buf[i] <= 57
        invariant
            pos <= i <= e <= buf.len(),
            e == digits_end(buf@, i as int),
            e == digits_end(buf@, pos as int),
            forall|k: int| pos <= k < e ==> is_digit_byte(#[trigger] buf@[k]),
            n == bytes_number(buf@.subrange(pos as int, i as int)),
        decreases buf.len() - i,
    {
        let d: u64 = (buf[i] - 48) as u64;
        proof {
            let run = buf@.subrange(pos as int, e);
            lemma_digits_end(buf@, i as int);
            assert(digits_end(buf@, i as int) == digits_end(buf@, i + 1));
            lemma_digits_end(buf@, i + 1);
            assert(buf@.subrange(pos as int, i + 1).drop_last() == buf@.subrange(
                pos as int,
                i as int,
            ));
            assert(run.take(i + 1 - pos) == buf@.subrange(pos as int, i + 1));
            lemma_number_prefix(run, i + 1 - pos);
        }
        if n > (u64::MAX - d) / 10 {
            return None;
        }
        n = n * 10 + d;
        i = i + 1;
    }
    Some((n, i))
}

/// The index of the first byte from `pos` on at which a word cannot go on.
fn find_word_end(buf: &[u8], pos: usize) -> (r: usize)
    requires
        pos <= buf@.len(),
    ensures
        r == word_end(buf@, pos as int),
        pos <= r <= buf@.len(),
{
    let mut i: usize = pos;
    while i < buf.len() && !byte_is_ws(buf[i]) && buf[i] != 40 && buf[i] != 41 && buf[i] != 58
        invariant
            pos <= i <= buf.len(),
            word_end(buf@, i as int) == word_end(buf@, pos as int),
        decreases buf.len() - i,
    {
        i = i + 1;
    }
    i
}

fn copy_range(buf: &[u8], from: usize, to: usize) -> (r: Vec<u8>)
    requires
        from <= to <= buf@.len(),
    ensures
        r@ == buf@.subrange(from as int, to as int),
{
    let mut out: Vec<u8> = Vec::new();
    let mut i: usize = from;
    while i < to
        invariant
            from <= i <= to <= buf.len(),
            out@ == buf@.subrange(from as int, i as int),
        decreases to - i,
    {
        out.push(buf[i]);
        i = i + 1;
        assert(out@ == buf@.subrange(from as int, i as int));
    }
    out
}

/// Reads the number, string or word that begins at `pos`.
fn read_atom_at(buf: &[u8], pos: usize) -> (r: ReadOutcome)
    requires
        pos < buf@.len(),
    ensures
        outcome_is(r, read_atom(buf@, pos as int)),
{
    proof {
        lemma_digits_end(buf@, pos as int);
        lemma_word_end(buf@, pos as int);
    }
    let ch = buf[pos];
    if 48 <= ch && ch <= 57 {
        let (n, e) = match read_digits(buf, pos) {
            Some(p) => p,
            None => {
                return ReadOutcome::Failed(protocol("number overflow"));
            },
        };
        if e >= buf.len() {
            return ReadOutcome::NeedMore;
        }
        if buf[e] == 58 {
            let left: usize = buf.len() - e - 1;
            if n > left as u64 {
                return ReadOutcome::NeedMore;
            }
            let end: usize = e + 1 + n as usize;
            if end >= buf.len() {
                return ReadOutcome::NeedMore;
            }
            if !byte_is_ws(buf[end]) {
                return ReadOutcome::Failed(protocol("expected whitespace"));
            }
            ReadOutcome::Item(SvnItem::String(copy_range(buf, e + 1, end)), end + 1)
        } else {
            if !byte_is_ws(buf[e]) {
                return ReadOutcome::Failed(protocol("expected whitespace"));
            }
            ReadOutcome::Item(SvnItem::Number(n), e + 1)
        }
    } else {
        let e = find_word_end(buf, pos);
        if e >= buf.len() {
            return ReadOutcome::NeedMore;
        }
        if buf[e] == 40 || buf[e] == 41 || buf[e] == 58 {
            return ReadOutcome::Failed(protocol("invalid word token"));
        }
        match string_from_utf8(copy_range(buf, pos, e)) {
            None => ReadOutcome::Failed(protocol("non-utf8 word")),
            Some(word) => {
                if str_eq(&word, "true") {
                    ReadOutcome::Item(SvnItem::Bool(true), e + 1)
                } else if str_eq(&word, "false") {
                    ReadOutcome::Item(SvnItem::Bool(false), e + 1)
                } else {
                    ReadOutcome::Item(SvnItem::Word(word), e + 1)
                }
            },
        }
    }
}

/// Reads one item from `buf`, from `pos` on.
pub fn read_item(buf: &[u8], pos: usize) -> (r: ReadOutcome)
    requires
        pos <= buf@.len(),
    ensures
        outcome_is(r, read(buf@, pos as int)),
{
    broadcast use lemma_list_view;

    proof {
        lemma_skip_ws(buf@, pos as int);
    }
    let p = skip_white(buf, pos);
    if p >= buf.len() {
        return ReadOutcome::NeedMore;
    }
    if buf[p] != 40 {
        return read_atom_at(buf, p);
    }
    if p + 1 >= buf.len() {
        return ReadOutcome::NeedMore;
    }
    if !byte_is_ws(buf[p + 1]) {
        return ReadOutcome::Failed(protocol("expected whitespace"));
    }
    let mut stack: Vec<Vec<SvnItem>> = Vec::new();
    let mut top: Vec<SvnItem> = Vec::new();
    let mut i: usize = p + 2;
    let ghost mut open: Seq<Seq<ItemView>> = seq![Seq::<ItemView>::empty()];
    proof {
        assert(open.last() =~= Seq::<ItemView>::empty());
        match read_rest(buf@, i as int) {
            Parse::Done(items, q) => {
                assert(Seq::<ItemView>::empty() + items =~= items);
            },
            _ => {},
        }
        assert(open.drop_last() =~= stack.deep_view());
        assert(top.deep_view() =~= Seq::<ItemView>::empty());
    }
    loop
        invariant
            i <= buf.len(),
            open.len() == stack.len() + 1,
            open.drop_last() == stack.deep_view(),
            open.last() == top.deep_view(),
            read(buf@, pos as int) == resume(buf@, i as int, open),
        decreases buf.len() - i,
    {
        let p = skip_white(buf, i);
        if p >= buf.len() {
            return ReadOutcome::NeedMore;
        }
        proof {
            lemma_skip_ws(buf@, i as int);
        }
        let next = buf[p];
        if next == 41 {
            if p + 1 >= buf.len() {
                return ReadOutcome::NeedMore;
            }
            if !byte_is_ws(buf[p + 1]) {
                return ReadOutcome::Failed(protocol("expected whitespace"));
            }
            proof {
                lemma_resume_close(buf@, i as int, open);
            }
            let ghost done = top.deep_view();
            proof {
                lemma_list_view(top);
            }
            let item = SvnItem::List(top);
            assert(item.deep_view() == ItemView::List(done));
            match stack.pop() {
                None => {
                    return ReadOutcome::Item(item, p + 2);
                },
                Some(parent) => {
                    let ghost held = parent.deep_view();
                    top = parent;
                    top.push(item);
                    proof {
                        let outer = open.drop_last();
                        assert(outer.last() == held);
                        assert(outer.drop_last() =~= stack.deep_view());
                        assert(top.deep_view() =~= held.push(ItemView::List(done)));
                        open = with_item(outer, ItemView::List(done));
                        assert(open.drop_last() =~= outer.drop_last());
                    }
                    i = p + 2;
                },
            }
        } else if next == 40 {
            proof {
                lemma_resume_item(buf@, i as int, open);
            }
            if p + 1 >= buf.len() {
                return ReadOutcome::NeedMore;
            }
            if !byte_is_ws(buf[p + 1]) {
                return ReadOutcome::Failed(protocol("expected whitespace"));
            }
            proof {
                lemma_resume_open(buf@, i as int, open);
            }
            let ghost before = stack.deep_view();
            let ghost held = top.deep_view();
            stack.push(top);
            top = Vec::new();
            proof {
                assert(stack.deep_view() =~= before.push(held));
                assert(open =~= before.push(held));
                open = open.push(Seq::empty());
                assert(open.drop_last() =~= stack.deep_view());
                assert(top.deep_view() =~= Seq::<ItemView>::empty());
            }
            i = p + 2;
        } else {
            proof {
                lemma_resume_item(buf@, i as int, open);
                lemma_atom_progress(buf@, p as int);
            }
            match read_atom_at(buf, p) {
                ReadOutcome::NeedMore => {
                    return ReadOutcome::NeedMore;
                },
                ReadOutcome::Failed(e) => {
                    return ReadOutcome::Failed(e);
                },
                ReadOutcome::Item(atom, q) => {
                    let ghost held = top.deep_view();
                    let ghost said = atom.deep_view();
                    top.push(atom);
                    proof {
                        assert(top.deep_view() =~= held.push(said));
                        open = with_item(open, said);
                        assert(open.drop_last() =~= stack.deep_view());
                    }
                    i = q;
                },
            }
        }
    }
}

/// A text that can be sent as a word: not empty, not `true` or `false`, not
/// beginning with a digit, and without white space and marks.
pub open spec fn is_wire_word(w: Seq<char>) -> bool {
    let b = encode_utf8(w);
    &&& b.len() > 0
    &&& !is_digit_byte(b[0])
    &&& forall|k: int| 0 <= k < b.len() ==> !is_ws(#[trigger] b[k]) && !is_mark(b[k])
    &&& w != "true"@
    &&& w != "false"@
}

/// An item whose words can be sent as words, and whose strings have a length that
/// can be sent.
pub open spec fn is_wire_item(item: ItemView) -> bool
    decreases item,
{
    match item {
        ItemView::Word(w) => is_wire_word(w),
        ItemView::Number(_) => true,
        ItemView::Bool(_) => true,
        ItemView::String(s) => s.len() <= u64::MAX,
        ItemView::List(items) => forall|i: int|
            0 <= i < items.len() ==> is_wire_item(#[trigger] items[i]),
    }
}

/// `part` stands in `b` at `pos`.
pub open spec fn stands_at(b: Seq<u8>, pos: int, part: Seq<u8>) -> bool {
    &&& 0 <= pos
    &&& pos + part.len() <= b.len()
    &&& b.subrange(pos, pos + part.len()) == part
}

/// Of two parts that stand one behind the other, each stands where it should.
proof fn lemma_stands_split(b: Seq<u8>, pos: int, x: Seq<u8>, y: Seq<u8>)
    requires
        stands_at(b, pos, x + y),
    ensures
        stands_at(b, pos, x),
        stands_at(b, pos + x.len(), y),
{
    let whole = b.subrange(pos, pos + (x + y).len());
    assert(b.subrange(pos, pos + x.len()) =~= (x + y).subrange(0, x.len() as int)) by {
        assert forall|k: int| 0 <= k < x.len() implies b[pos + k] == (x + y)[k] by {
            assert(whole[k] == (x + y)[k]);
        }
    }
    assert((x + y).subrange(0, x.len() as int) =~= x);
    assert(b.subrange(pos + x.len(), pos + x.len() + y.len()) =~= y) by {
        assert forall|k: int| 0 <= k < y.len() implies b[pos + x.len() + k] == y[k] by {
            assert(whole[x.len() + k] == (x + y)[x.len() + k]);
        }
    }
}

/// The byte at each index of a part that stands in `b`.
proof fn lemma_stands_byte(b: Seq<u8>, pos: int, part: Seq<u8>, k: int)
    requires
        stands_at(b, pos, part),
        0 <= k < part.len(),
    ensures
        b[pos + k] == part[k],
{
    assert(b.subrange(pos, pos + part.len())[k] == part[k]);
}

/// Decimal notation is a run of digits that stands for the number.
proof fn lemma_number_bytes(n: nat)
    ensures
        number_bytes(n).len() > 0,
        forall|k: int| 0 <= k < number_bytes(n).len() ==> is_digit_byte(
            #[trigger] number_bytes(n)[k],
        ),
        bytes_number(number_bytes(n)) == n,
    decreases n,
{
    if n >= 10 {
        lemma_number_bytes(n / 10);
        let b = number_bytes(n);
        assert(b.drop_last() == number_bytes(n / 10));
    } else {
        let b = number_bytes(n);
        assert(b.drop_last().len() == 0);
        assert(bytes_number(b.drop_last()) == 0);
    }
}

/// A run of digits followed by another byte ends at that byte.
pub(crate) proof fn lemma_digits_end_at(b: Seq<u8>, pos: int, e: int)
    requires
        0 <= pos <= e < b.len(),
        forall|k: int| pos <= k < e ==> is_digit_byte(#[trigger] b[k]),
        !is_digit_byte(b[e]),
    ensures
        digits_end(b, pos) == e,
    decreases e - pos,
{
    if pos < e {
        lemma_digits_end_at(b, pos + 1, e);
    }
}

/// A word followed by white space ends at that white space.
pub(crate) proof fn lemma_word_end_at(b: Seq<u8>, pos: int, e: int)
    requires
        0 <= pos <= e < b.len(),
        forall|k: int| pos <= k < e ==> !is_ws(#[trigger] b[k]) && !is_mark(b[k]),
        is_ws(b[e]),
    ensures
        word_end(b, pos) == e,
    decreases e - pos,
{
    if pos < e {
        lemma_word_end_at(b, pos + 1, e);
    }
}

/// The digits of a number are read back.
proof fn lemma_read_number(b: Seq<u8>, pos: int, n: nat, after: u8)
    requires
        stands_at(b, pos, number_bytes(n).push(after)),
        !is_digit_byte(after),
    ensures
        is_digit_byte(b[pos]),
        digits_end(b, pos) == pos + number_bytes(n).len(),
        bytes_number(b.subrange(pos, digits_end(b, pos))) == n,
        b[digits_end(b, pos)] == after,
{
    let d = number_bytes(n);
    lemma_number_bytes(n);
    assert(d.push(after) =~= d + seq![after]);
    lemma_stands_split(b, pos, d, seq![after]);
    lemma_stands_byte(b, pos + d.len(), seq![after], 0);
    assert forall|k: int| pos <= k < pos + d.len() implies is_digit_byte(#[trigger] b[k]) by {
        lemma_stands_byte(b, pos, d, k - pos);
    }
    lemma_digits_end_at(b, pos, pos + d.len());
    lemma_stands_byte(b, pos, d, 0);
}

/// A run of word bytes and a space is read back as the word.
proof fn lemma_read_word(b: Seq<u8>, pos: int, w: Seq<char>)
    requires
        stands_at(b, pos, encode_utf8(w).push(32)),
        encode_utf8(w).len() > 0,
        !is_digit_byte(encode_utf8(w)[0]),
        forall|k: int|
            0 <= k < encode_utf8(w).len() ==> !is_ws(#[trigger] encode_utf8(w)[k]) && !is_mark(
                encode_utf8(w)[k],
            ),
    ensures
        read(b, pos) == Parse::Done(word_item(w), pos + encode_utf8(w).len() + 1),
{
    let d = encode_utf8(w);
    assert(d.push(32) =~= d + seq![32u8]);
    lemma_stands_split(b, pos, d, seq![32u8]);
    lemma_stands_byte(b, pos + d.len(), seq![32u8], 0);
    assert forall|k: int| pos <= k < pos + d.len() implies !is_ws(#[trigger] b[k]) && !is_mark(
        b[k],
    ) by {
        lemma_stands_byte(b, pos, d, k - pos);
        assert(b[k] == d[k - pos]);
    }
    lemma_word_end_at(b, pos, pos + d.len());
    lemma_stands_byte(b, pos, d, 0);
    encode_utf8_valid_utf8(w);
    encode_utf8_decode_utf8(w);
    assert(b[pos] == d[0]);
    assert(!is_ws(b[pos]));
    assert(skip_ws(b, pos) == pos);
}

/// The truth values are sent as words without white space and marks.
proof fn lemma_bool_bytes(w: Seq<char>)
    requires
        w == "true"@ || w == "false"@,
    ensures
        encode_utf8(w).len() > 0,
        !is_digit_byte(encode_utf8(w)[0]),
        forall|k: int|
            0 <= k < encode_utf8(w).len() ==> !is_ws(#[trigger] encode_utf8(w)[k]) && !is_mark(
                encode_utf8(w)[k],
            ),
        "true"@ != "false"@,
{
    reveal_strlit("true");
    reveal_strlit("false");
    assert("true"@.len() == 4);
    assert("false"@.len() == 5);
    is_ascii_chars_encode_utf8(w);
}

/// What is written is read back: where the byte form of an item stands, reading
/// gives that item, and the index behind its byte form.
pub proof fn encode_then_read_roundtrips(item: ItemView, b: Seq<u8>, pos: int)
    requires
        is_wire_item(item),
        stands_at(b, pos, encode(item)),
    ensures
        read(b, pos) == Parse::Done(item, pos + encode(item).len()),
    decreases item, 0int, 0int,
{
    match item {
        ItemView::Word(w) => {
            lemma_read_word(b, pos, w);
        },
        ItemView::Bool(v) => {
            let w = if v {
                "true"@
            } else {
                "false"@
            };
            lemma_bool_bytes(w);
            lemma_read_word(b, pos, w);
        },
        ItemView::Number(n) => {
            lemma_read_number(b, pos, n as nat, 32);
            lemma_number_bytes(n as nat);
            assert(skip_ws(b, pos) == pos);
        },
        ItemView::String(s) => {
            let head = number_bytes(s.len()).push(58);
            assert(encode(item) =~= head + (s + seq![32u8]));
            lemma_stands_split(b, pos, head, s + seq![32u8]);
            lemma_read_number(b, pos, s.len(), 58);
            lemma_stands_split(b, pos + head.len(), s, seq![32u8]);
            lemma_stands_byte(b, pos + head.len() + s.len(), seq![32u8], 0);
            assert(skip_ws(b, pos) == pos);
        },
        ItemView::List(items) => {
            let open = seq![40u8, 32u8];
            let body = encode_all(items) + seq![41u8, 32u8];
            assert(encode(item) =~= open + body);
            lemma_stands_split(b, pos, open, body);
            lemma_stands_byte(b, pos, open, 0);
            lemma_stands_byte(b, pos, open, 1);
            assert(skip_ws(b, pos) == pos);
            lemma_read_items(items, b, pos + 2);
        },
    }
}

/// The items of a list are read back.
proof fn lemma_read_items(items: Seq<ItemView>, b: Seq<u8>, pos: int)
    requires
        forall|i: int| 0 <= i < items.len() ==> is_wire_item(#[trigger] items[i]),
        stands_at(b, pos, encode_all(items) + seq![41u8, 32u8]),
    ensures
        read_rest(b, pos) == Parse::Done(items, pos + encode_all(items).len() + 2),
    decreases items, 1int, 0int,
{
    lemma_stands_split(b, pos, encode_all(items), seq![41u8, 32u8]);
    lemma_stands_byte(b, pos + encode_all(items).len(), seq![41u8, 32u8], 0);
    lemma_stands_byte(b, pos + encode_all(items).len(), seq![41u8, 32u8], 1);
    let end = pos + encode_all(items).len();
    assert(skip_ws(b, end) == end);
    assert(read_rest(b, end) == Parse::Done(Seq::<ItemView>::empty(), end + 2));
    assert(items.take(items.len() as int) =~= items);
    assert(items.skip(items.len() as int) =~= Seq::<ItemView>::empty());
    lemma_read_prefix(items, b, pos, items.len() as int);
}

/// The byte form of the items before index `i`, and of those from `i` on.
proof fn lemma_encode_suffix(items: Seq<ItemView>, i: int)
    requires
        0 <= i <= items.len(),
    ensures
        encode_all(items) == encode_all(items.take(i)) + encode_all(items.skip(i)),
    decreases items.len() - i,
{
    if i == items.len() {
        assert(items.take(i) == items);
        assert(items.skip(i).len() == 0);
        assert(encode_all(items) =~= encode_all(items.take(i)) + encode_all(items.skip(i)));
    } else {
        lemma_encode_suffix(items.drop_last(), i);
        assert(items.drop_last().take(i) == items.take(i));
        assert(items.drop_last().skip(i) == items.skip(i).drop_last());
        assert(items.skip(i).last() == items.last());
        assert(encode_all(items) =~= encode_all(items.take(i)) + encode_all(items.skip(i)));
    }
}

/// Reading from the byte form of item `j` on gives the items from `j` on.
proof fn lemma_read_prefix(items: Seq<ItemView>, b: Seq<u8>, pos: int, j: int)
    requires
        0 <= j <= items.len(),
        forall|i: int| 0 <= i < items.len() ==> is_wire_item(#[trigger] items[i]),
        stands_at(b, pos, encode_all(items) + seq![41u8, 32u8]),
        read_rest(b, pos + encode_all(items.take(j)).len()) == Parse::Done(
            items.skip(j),
            pos + encode_all(items).len() + 2,
        ),
    ensures
        read_rest(b, pos) == Parse::Done(items, pos + encode_all(items).len() + 2),
    decreases items, 0int, j,
{
    if j == 0 {
        assert(items.skip(0) =~= items);
        assert(items.take(0).len() == 0);
        assert(encode_all(items.take(0)).len() == 0);
    } else {
        let item = items[j - 1];
        let before = items.take(j - 1);
        let p = pos + encode_all(before).len();
        let q = pos + encode_all(items.take(j)).len();
        assert(items.take(j).drop_last() == before);
        assert(items.take(j).last() == item);
        lemma_encode_suffix(items, j);
        let tail = encode_all(items.skip(j)) + seq![41u8, 32u8];
        assert(encode_all(items) + seq![41u8, 32u8] =~= encode_all(before) + (encode(item) + tail));
        lemma_stands_split(b, pos, encode_all(before), encode(item) + tail);
        lemma_stands_split(b, p, encode(item), tail);
        encode_then_read_roundtrips(item, b, p);
        lemma_encode_head(item, b, p);
        assert(seq![item] + items.skip(j) =~= items.skip(j - 1));
        lemma_read_progress(b, p);
        assert(
            read_rest(b, p) == Parse::Done(items.skip(j - 1), pos + encode_all(items).len() + 2)
        );
        lemma_read_prefix(items, b, pos, j - 1);
    }
}

/// The byte form of an item begins with neither white space nor `)`.
proof fn lemma_encode_head(item: ItemView, b: Seq<u8>, pos: int)
    requires
        is_wire_item(item),
        stands_at(b, pos, encode(item)),
    ensures
        pos < b.len(),
        skip_ws(b, pos) == pos,
        b[pos] != 41,
{
    match item {
        ItemView::Word(w) => {
            lemma_stands_byte(b, pos, encode(item), 0);
            assert(encode(item)[0] == encode_utf8(w)[0]);
        },
        ItemView::Bool(v) => {
            let w = if v {
                "true"@
            } else {
                "false"@
            };
            lemma_bool_bytes(w);
            lemma_stands_byte(b, pos, encode(item), 0);
            assert(encode(item)[0] == encode_utf8(w)[0]);
        },
        ItemView::Number(n) => {
            lemma_number_bytes(n as nat);
            lemma_stands_byte(b, pos, encode(item), 0);
            assert(encode(item)[0] == number_bytes(n as nat)[0]);
            assert(is_digit_byte(number_bytes(n as nat)[0]));
        },
        ItemView::String(s) => {
            lemma_number_bytes(s.len());
            lemma_stands_byte(b, pos, encode(item), 0);
            assert(encode(item)[0] == number_bytes(s.len())[0]);
            assert(is_digit_byte(number_bytes(s.len())[0]));
        },
        ItemView::List(items) => {
            lemma_stands_byte(b, pos, encode(item), 0);
            assert(encode(item)[0] == 40);
        },
    }
}

/// White space that ends inside a buffer ends at the same place when bytes follow.
proof fn lemma_skip_extends(b: Seq<u8>, c: Seq<u8>, pos: int)
    requires
        0 <= pos,
        b.len() <= c.len(),
        c.take(b.len() as int) == b,
        skip_ws(b, pos) < b.len(),
    ensures
        skip_ws(c, pos) == skip_ws(b, pos),
    decreases b.len() - pos,
{
    lemma_skip_ws(b, pos);
    assert(pos < b.len());
    assert(c[pos] == c.take(b.len() as int)[pos]);
    if is_ws(b[pos]) {
        lemma_skip_extends(b, c, pos + 1);
    }
}

/// Digits go on at most as far in a buffer as in the same buffer with bytes behind.
proof fn lemma_digits_extend(b: Seq<u8>, c: Seq<u8>, pos: int)
    requires
        0 <= pos <= b.len() <= c.len(),
        c.take(b.len() as int) == b,
    ensures
        digits_end(b, pos) <= digits_end(c, pos),
        digits_end(b, pos) < b.len() ==> digits_end(c, pos) == digits_end(b, pos),
    decreases b.len() - pos,
{
    lemma_digits_end(c, pos);
    if pos < b.len() {
        assert(c[pos] == c.take(b.len() as int)[pos]);
        if is_digit_byte(b[pos]) {
            lemma_digits_extend(b, c, pos + 1);
        }
    }
}

/// A word that ends inside a buffer ends at the same place when bytes follow.
proof fn lemma_word_extends(b: Seq<u8>, c: Seq<u8>, pos: int)
    requires
        0 <= pos <= b.len() <= c.len(),
        c.take(b.len() as int) == b,
        word_end(b, pos) < b.len(),
    ensures
        word_end(c, pos) == word_end(b, pos),
    decreases b.len() - pos,
{
    if pos < b.len() {
        assert(c[pos] == c.take(b.len() as int)[pos]);
        if !is_ws(b[pos]) && !is_mark(b[pos]) {
            lemma_word_extends(b, c, pos + 1);
        }
    }
}

/// What reading an atom gives does not change when bytes follow.
proof fn lemma_atom_stable(b: Seq<u8>, c: Seq<u8>, pos: int)
    requires
        0 <= pos < b.len() <= c.len(),
        c.take(b.len() as int) == b,
        !(read_atom(b, pos) is More),
    ensures
        read_atom(c, pos) == read_atom(b, pos),
{
    lemma_digits_end(b, pos);
    lemma_digits_end(c, pos);
    lemma_word_end(b, pos);
    lemma_digits_extend(b, c, pos);
    assert forall|k: int| 0 <= k < b.len() implies c[k] == b[k] by {
        assert(c[k] == c.take(b.len() as int)[k]);
    }
    if is_digit_byte(b[pos]) {
        let e = digits_end(b, pos);
        let f = digits_end(c, pos);
        assert(c.subrange(pos, e) =~= b.subrange(pos, e));
        let n = bytes_number(b.subrange(pos, e));
        if n > u64::MAX {
            let run = c.subrange(pos, f);
            assert(run.take(e - pos) =~= c.subrange(pos, e));
            lemma_number_prefix(run, e - pos);
        } else if b[e] == 58 && e + 1 + n < b.len() {
            assert(c.subrange(e + 1, e + 1 + n) =~= b.subrange(e + 1, e + 1 + n));
        }
    } else {
        lemma_word_extends(b, c, pos);
        let e = word_end(b, pos);
        assert(c.subrange(pos, e) =~= b.subrange(pos, e));
    }
}

/// Bytes that arrive later change nothing: once a buffer holds a whole item, or
/// bytes that are no item, reading gives the same whatever follows.
pub proof fn read_is_stable(b: Seq<u8>, c: Seq<u8>, pos: int)
    requires
        0 <= pos,
        b.len() <= c.len(),
        c.take(b.len() as int) == b,
        !(read(b, pos) is More),
    ensures
        read(c, pos) == read(b, pos),
    decreases b.len() - pos, 0int,
{
    lemma_skip_ws(b, pos);
    let p = skip_ws(b, pos);
    assert forall|k: int| 0 <= k < b.len() implies c[k] == b[k] by {
        assert(c[k] == c.take(b.len() as int)[k]);
    }
    lemma_skip_extends(b, c, pos);
    if b[p] == 40 {
        if is_ws(b[p + 1]) {
            lemma_rest_stable(b, c, p + 2);
        }
    } else {
        lemma_atom_stable(b, c, p);
    }
}

/// What reading the rest of a list gives does not change when bytes follow.
proof fn lemma_rest_stable(b: Seq<u8>, c: Seq<u8>, pos: int)
    requires
        0 <= pos,
        b.len() <= c.len(),
        c.take(b.len() as int) == b,
        !(read_rest(b, pos) is More),
    ensures
        read_rest(c, pos) == read_rest(b, pos),
    decreases b.len() - pos, 1int,
{
    lemma_skip_ws(b, pos);
    let p = skip_ws(b, pos);
    assert forall|k: int| 0 <= k < b.len() implies c[k] == b[k] by {
        assert(c[k] == c.take(b.len() as int)[k]);
    }
    lemma_skip_extends(b, c, pos);
    if b[p] != 41 {
        read_is_stable(b, c, p);
        match read(b, p) {
            Parse::Done(_, q) => {
                lemma_rest_stable(b, c, q);
            },
            _ => {},
        }
    }
}

} // verus!
