//! Writing deltas that do without a base: every window holds its text as new data.

use vstd::prelude::*;

use crate::error::{protocol, ErrorView, SvnError};
use crate::svndiff::{
    base128, header_bytes, header_version, five_uints, instruction, instructions_from,
    lemma_header_extends, lz4_encode, lz4_encoded, section, uint_at, uint_last, window_header,
    window_target, zlib_encode, zlib_encoded, Progress, SvndiffVersion, WindowHeader,
    DELTA_WINDOW_MAX, MAX_ENCODED_UINT_LEN, MAX_INSTRUCTION_SECTION_LEN,
};
use crate::text::cat;
use crate::textdelta::{
    apply_delta, decode_windows, headers_in_time, joined, lemma_decode_more, take_chunk,
    take_chunks, window_data, Decoded, StreamView, WindowParts,
};

verus! {

/// The base-128 digits of a number, each with its top bit set.
pub open spec fn high_digits(v: nat) -> Seq<u8>
    decreases v,
{
    if v < 128 {
        seq![(v + 128) as u8]
    } else {
        high_digits(v / 128).push((v % 128 + 128) as u8)
    }
}

/// The byte form of an integer: its base-128 digits, all but the last with the top
/// bit set.
pub open spec fn uint_bytes(v: nat) -> Seq<u8> {
    if v < 128 {
        seq![v as u8]
    } else {
        high_digits(v / 128).push((v % 128) as u8)
    }
}

fn push_high_digits(out: &mut Vec<u8>, v: u64)
    ensures
        final(out)@ == old(out)@ + high_digits(v as nat),
    decreases v,
{
    if v >= 128 {
        push_high_digits(out, v / 128);
    }
    out.push((v % 128) as u8 + 128);
    assert(out@ =~= old(out)@ + high_digits(v as nat));
}

/// Appends the byte form of an integer.
pub fn encode_uint(v: u64, out: &mut Vec<u8>)
    ensures
        final(out)@ == old(out)@ + uint_bytes(v as nat),
{
    if v >= 128 {
        push_high_digits(out, v / 128);
    }
    out.push((v % 128) as u8);
    assert(out@ =~= old(out)@ + uint_bytes(v as nat));
}

/// The digits of a number stand for it, and each has its top bit set.
proof fn lemma_high_digits(v: nat)
    ensures
        high_digits(v).len() > 0,
        forall|k: int| 0 <= k < high_digits(v).len() ==> #[trigger] high_digits(v)[k] >= 128,
        base128(high_digits(v)) == v,
    decreases v,
{
    let b = high_digits(v);
    if v >= 128 {
        lemma_high_digits(v / 128);
        assert(b.drop_last() == high_digits(v / 128));
    } else {
        assert(b.drop_last().len() == 0);
        assert(base128(b.drop_last()) == 0);
    }
}

/// The `n`-th power of 128.
spec fn power128(n: nat) -> nat
    decreases n,
{
    if n == 0 {
        1
    } else {
        128 * power128((n - 1) as nat)
    }
}

/// A number below the `n`-th power of 128 has at most `n` digits.
proof fn lemma_high_len(v: nat, n: nat)
    requires
        1 <= n,
        v < power128(n),
    ensures
        high_digits(v).len() <= n,
    decreases n,
{
    if v >= 128 {
        if n == 1 {
            assert(power128(1) == 128 * power128(0));
        } else {
            lemma_high_len(v / 128, (n - 1) as nat);
        }
    }
}

/// An integer is read back from its byte form.
pub proof fn lemma_uint_roundtrip(v: u64, b: Seq<u8>, i: int)
    requires
        0 <= i,
        i + uint_bytes(v as nat).len() <= b.len(),
        b.subrange(i, i + uint_bytes(v as nat).len()) == uint_bytes(v as nat),
    ensures
        uint_at(b, i) == Some((v, i + uint_bytes(v as nat).len())),
        0 < uint_bytes(v as nat).len() <= 10,
{
    let u = uint_bytes(v as nat);
    let n = u.len() as int;
    if v >= 128 {
        lemma_high_digits((v / 128) as nat);
        assert(power128(9) == 0x8000_0000_0000_0000) by {
            reveal_with_fuel(power128, 10);
        }
        lemma_high_len((v / 128) as nat, 9);
        assert(u.drop_last() == high_digits((v / 128) as nat));
    } else {
        assert(u.drop_last().len() == 0);
        assert(base128(u.drop_last()) == 0);
    }
    assert(base128(u) == v);
    assert forall|k: int| 0 <= k < n implies b[i + k] == u[k] by {
        assert(b.subrange(i, i + n)[k] == u[k]);
    }
    assert forall|k: int| i <= k < i + n - 1 implies #[trigger] b[k] >= 128 by {
        assert(b[i + (k - i)] == u[k - i]);
        assert(u[k - i] == high_digits((v / 128) as nat)[k - i]);
    }
    assert(b[i + (n - 1)] == u[n - 1]);
    lemma_last_at(b, i, i + n - 1);
}

/// An integer ends at the first byte with a clear top bit.
proof fn lemma_last_at(b: Seq<u8>, i: int, e: int)
    requires
        0 <= i <= e < b.len(),
        forall|k: int| i <= k < e ==> #[trigger] b[k] >= 128,
        b[e] < 128,
    ensures
        uint_last(b, i) == e,
    decreases e - i,
{
    if i < e {
        lemma_last_at(b, i + 1, e);
    }
}

/// The byte form of a section: as it is in version 0, otherwise its size and then the
/// compressed data, or the data as they are where compressing does not make them
/// shorter. At level 0 version 1 compresses nothing, and what is too long for any window
/// is not compressed with LZ4.
pub open spec fn section_bytes(version: SvndiffVersion, data: Seq<u8>, level: u32) -> Result<
    Seq<u8>,
    ErrorView,
> {
    match version {
        SvndiffVersion::V0 => Ok(data),
        SvndiffVersion::V1 => if level == 0 {
            Ok(uint_bytes(data.len()) + data)
        } else {
            match zlib_encoded(data, level) {
                Ok(c) => Ok(uint_bytes(data.len()) + shorter(c, data)),
                Err(m) => Err(ErrorView::Protocol("svndiff zlib encode failed: "@ + m)),
            }
        },
        SvndiffVersion::V2 => if data.len() <= DELTA_WINDOW_MAX {
            Ok(uint_bytes(data.len()) + shorter(lz4_encoded(data), data))
        } else {
            Ok(uint_bytes(data.len()) + data)
        },
    }
}

/// `c` if it is shorter than `data`, and `data` otherwise.
pub open spec fn shorter(c: Seq<u8>, data: Seq<u8>) -> Seq<u8> {
    if c.len() < data.len() {
        c
    } else {
        data
    }
}

fn append(out: &mut Vec<u8>, data: &[u8])
    ensures
        final(out)@ == old(out)@ + data@,
{
    let mut i: usize = 0;
    while i < data.len()
        invariant
            i <= data.len(),
            out@ == old(out)@ + data@.take(i as int),
        decreases data.len() - i,
    {
        out.push(data[i]);
        i = i + 1;
        assert(out@ =~= old(out)@ + data@.take(i as int));
    }
    assert(data@.take(i as int) == data@);
}

/// A section of the size of `data`: what they were compressed to, if that is shorter.
pub fn pack_section(data: &[u8], compressed: &[u8]) -> (r: Vec<u8>)
    ensures
        r@ == uint_bytes(data@.len()) + shorter(compressed@, data@),
{
    let mut out: Vec<u8> = Vec::new();
    encode_uint(data.len() as u64, &mut out);
    if compressed.len() < data.len() {
        append(&mut out, compressed);
    } else {
        append(&mut out, data);
    }
    assert(out@ =~= uint_bytes(data@.len()) + shorter(compressed@, data@));
    out
}

/// Decoding the byte form of a section gives its data back.
#[verifier::opaque]
pub open spec fn section_gives_back(version: SvndiffVersion, wire: Seq<u8>, data: Seq<u8>) -> bool {
    forall|limit: nat|
        data.len() <= limit && limit <= usize::MAX ==> #[trigger] section(version, wire, limit)
            == Ok::<Seq<u8>, ErrorView>(data)
}

/// The byte form of a section, which decoding gives back.
fn encode_section(version: SvndiffVersion, data: &[u8], level: u32) -> (r: Result<
    Vec<u8>,
    SvnError,
>)
    requires
        level <= 9,
    ensures
        match r {
            Ok(v) => section_bytes(version, data@, level) == Ok::<Seq<u8>, ErrorView>(v@)
                && section_gives_back(version, v@, data@) && v@.len() <= data@.len() + 10,
            Err(e) => section_bytes(version, data@, level) == Err::<Seq<u8>, ErrorView>(
                e.deep_view(),
            ),
        },
{
    reveal(section_gives_back);
    let size: usize = data.len();
    assert(data@.len() == size);
    let mut out: Vec<u8> = Vec::new();
    match version {
        SvndiffVersion::V0 => {
            append(&mut out, data);
            assert(out@ =~= data@);
            Ok(out)
        },
        SvndiffVersion::V1 => {
            if level == 0 {
                let packed = pack_section(data, data);
                proof {
                    lemma_sized(data@, data@, packed@);
                }
                return Ok(packed);
            }
            match zlib_encode(data, level) {
                Err(m) => Err(SvnError::Protocol(cat("svndiff zlib encode failed: ", &m))),
                Ok(c) => {
                    let packed = pack_section(data, &c);
                    proof {
                        lemma_sized(data@, shorter(c@, data@), packed@);
                    }
                    Ok(packed)
                },
            }
        },
        SvndiffVersion::V2 => {
            if size <= DELTA_WINDOW_MAX {
                let c = lz4_encode(data);
                let packed = pack_section(data, &c);
                proof {
                    lemma_sized(data@, shorter(c@, data@), packed@);
                }
                Ok(packed)
            } else {
                let packed = pack_section(data, data);
                proof {
                    lemma_sized(data@, data@, packed@);
                }
                Ok(packed)
            }
        },
    }
}

/// A size and a body, taken apart.
proof fn lemma_sized(data: Seq<u8>, body: Seq<u8>, wire: Seq<u8>)
    requires
        data.len() <= u64::MAX,
        wire == uint_bytes(data.len()) + body,
    ensures
        uint_at(wire, 0) == Some((data.len() as u64, uint_bytes(data.len()).len() as int)),
        wire.skip(uint_bytes(data.len()).len() as int) == body,
        uint_bytes(data.len()).len() <= 10,
{
    let u = uint_bytes(data.len());
    assert(wire.subrange(0, u.len() as int) =~= u);
    lemma_uint_roundtrip(data.len() as u64, wire, 0);
    assert(wire.skip(u.len() as int) =~= body);
}

/// The instruction that takes `len` bytes from the new data; none for no bytes.
pub open spec fn insert_instruction(len: nat) -> Seq<u8> {
    if len == 0 {
        Seq::empty()
    } else if len < 64 {
        seq![(128 + len) as u8]
    } else {
        seq![128u8] + uint_bytes(len)
    }
}

/// The bytes of a window that inserts `data`.
#[verifier::opaque]
pub open spec fn insertion_window(version: SvndiffVersion, data: Seq<u8>, level: u32) -> Result<
    Seq<u8>,
    ErrorView,
> {
    match section_bytes(version, insert_instruction(data.len()), level) {
        Err(e) => Err(e),
        Ok(ins) => match section_bytes(version, data, level) {
            Err(e) => Err(e),
            Ok(new_data) => Ok(window_bytes(data.len(), ins, new_data)),
        },
    }
}

/// A window that looks at no source, produces `tview_len` bytes, and has these
/// sections.
pub open spec fn window_bytes(tview_len: nat, ins: Seq<u8>, new_data: Seq<u8>) -> Seq<u8> {
    window_head(tview_len, ins.len(), new_data.len()) + ins + new_data
}

/// The header of such a window.
pub open spec fn window_head(tview_len: nat, ins_len: nat, new_len: nat) -> Seq<u8> {
    uint_bytes(0) + uint_bytes(0) + uint_bytes(tview_len) + uint_bytes(ins_len) + uint_bytes(
        new_len,
    )
}

/// Inserting all new data fills the target with them.
proof fn lemma_insert(data: Seq<u8>)
    requires
        data.len() <= usize::MAX,
    ensures
        window_target(
            Seq::empty(),
            data.len() as int,
            insert_instruction(data.len()),
            data,
        ) == Ok::<
            Seq<u8>,
            ErrorView,
        >(data),
{
    let ins = insert_instruction(data.len());
    let at = Progress { ipos: 0, npos: 0, target: Seq::<u8>::empty() };
    let s = Seq::<u8>::empty();
    if data.len() == 0 {
        assert(data =~= s);
    } else {
        let n = data.len();
        if n >= 64 {
            assert(ins.subrange(1, (1 + uint_bytes(n).len()) as int) =~= uint_bytes(n));
            lemma_uint_roundtrip(n as u64, ins, 1);
            assert(ins[0] == 128u8);
        }
        let next = Progress { ipos: ins.len() as int, npos: n as int, target: data };
        assert(at.target + data.subrange(0, n as int) =~= data);
        assert(instruction(s, n as int, ins, data, at) == Ok::<Progress, Seq<char>>(next));
        assert(instructions_from(s, n as int, ins, data, next) == Ok::<Seq<u8>, Seq<char>>(data));
        assert(instructions_from(s, n as int, ins, data, at) == Ok::<Seq<u8>, Seq<char>>(data));
    }
}

/// The header of an inserting window is read back.
proof fn lemma_insertion_header(tlen: nat, ins: Seq<u8>, new_data: Seq<u8>)
    requires
        tlen <= DELTA_WINDOW_MAX,
        ins.len() <= MAX_INSTRUCTION_SECTION_LEN,
        new_data.len() <= DELTA_WINDOW_MAX + MAX_ENCODED_UINT_LEN,
    ensures
        ({
            let b = window_bytes(tlen, ins, new_data);
            let head = window_head(tlen, ins.len(), new_data.len());
            &&& head.len() <= 50
            &&& window_header(b) == Ok::<Option<WindowHeader>, ErrorView>(
                Some(
                    WindowHeader {
                        sview_offset: 0,
                        sview_len: 0,
                        tview_len: tlen as usize,
                        ins_len: ins.len() as usize,
                        new_len: new_data.len() as usize,
                        header_len: head.len() as usize,
                    },
                ),
            )
            &&& b.subrange(head.len() as int, (head.len() + ins.len()) as int) == ins
            &&& b.subrange((head.len() + ins.len()) as int, b.len() as int) == new_data
        }),
{
    reveal(window_header);
    let b = window_bytes(tlen, ins, new_data);
    let head = window_head(tlen, ins.len(), new_data.len());
    let u0 = uint_bytes(0);
    let u2 = uint_bytes(tlen);
    let u3 = uint_bytes(ins.len());
    let u4 = uint_bytes(new_data.len());
    let e1 = u0.len() + u0.len();
    let e2 = e1 + u2.len();
    let e3 = e2 + u3.len();
    assert(b.subrange(0, u0.len() as int) =~= u0);
    lemma_uint_roundtrip(0, b, 0);
    assert(b.subrange(u0.len() as int, e1 as int) =~= u0);
    lemma_uint_roundtrip(0, b, u0.len() as int);
    assert(b.subrange(e1 as int, e2 as int) =~= u2);
    lemma_uint_roundtrip(tlen as u64, b, e1 as int);
    assert(b.subrange(e2 as int, e3 as int) =~= u3);
    lemma_uint_roundtrip(ins.len() as u64, b, e2 as int);
    assert(b.subrange(e3 as int, (e3 + u4.len()) as int) =~= u4);
    lemma_uint_roundtrip(new_data.len() as u64, b, e3 as int);
    assert(head.len() == e3 + u4.len());
    assert(five_uints(b) == Some(
        (0u64, 0u64, tlen as u64, ins.len() as u64, new_data.len() as u64, head.len() as int),
    ));
    assert(b.subrange(head.len() as int, (head.len() + ins.len()) as int) =~= ins);
    assert(b.subrange((head.len() + ins.len()) as int, b.len() as int) =~= new_data);
}

/// Decoding the window gives `data`, whatever the base is.
#[verifier::opaque]
pub open spec fn window_gives(version: SvndiffVersion, window: Seq<u8>, data: Seq<u8>) -> bool {
    &&& headers_in_time(window)
    &&& forall|base: Seq<u8>| #[trigger]
        decode_windows(base, insertion_state(version, window)) == (Decoded {
            out: data,
            state: insertion_state(version, Seq::empty()),
            result: Ok(()),
        })
}

/// The state of a decoder behind the header, before `rest`, when no window has looked
/// at the source.
pub open spec fn insertion_state(version: SvndiffVersion, rest: Seq<u8>) -> StreamView {
    StreamView { header: header_bytes(version), rest, last_offset: 0, last_len: 0 }
}

proof fn lemma_window_gives(
    version: SvndiffVersion,
    data: Seq<u8>,
    ins: Seq<u8>,
    new_data: Seq<u8>,
)
    requires
        data.len() <= DELTA_WINDOW_MAX,
        section_gives_back(version, ins, insert_instruction(data.len())),
        section_gives_back(version, new_data, data),
        ins.len() <= 21,
        new_data.len() <= data.len() + 10,
    ensures
        window_gives(version, window_bytes(data.len(), ins, new_data), data),
{
    reveal(section_gives_back);
    reveal(window_gives);
    let b = window_bytes(data.len(), ins, new_data);
    lemma_insertion_header(data.len(), ins, new_data);
    let head = window_head(data.len(), ins.len(), new_data.len());
    let h = WindowHeader {
        sview_offset: 0,
        sview_len: 0,
        tview_len: data.len() as usize,
        ins_len: ins.len() as usize,
        new_len: new_data.len() as usize,
        header_len: head.len() as usize,
    };
    let n = StreamView::window_len(h);
    assert(n == b.len());
    lemma_header_extends(b, Seq::empty());
    lemma_empty_header();
    assert(b.skip(n) =~= Seq::<u8>::empty());
    assert(headers_in_time(Seq::empty()));
    assert(headers_in_time(b));
    let s = insertion_state(version, b);
    let w = WindowParts { header: h, instructions: ins, new_data };
    lemma_version(version);
    assert(s.next_window() == Ok::<Option<WindowParts>, ErrorView>(Some(w)));
    let end = insertion_state(version, Seq::empty());
    assert(s.after(h) == end);
    assert(end.next_window() == Ok::<Option<WindowParts>, ErrorView>(None));
    lemma_instruction_len(data.len());
    assert forall|base: Seq<u8>| #[trigger] decode_windows(base, s) == (Decoded {
        out: data,
        state: end,
        result: Ok(()),
    }) by {
        reveal(window_data);
        assert(section(version, ins, MAX_INSTRUCTION_SECTION_LEN as nat) == Ok::<
            Seq<u8>,
            ErrorView,
        >(insert_instruction(data.len())));
        assert(section(version, new_data, DELTA_WINDOW_MAX as nat) == Ok::<Seq<u8>, ErrorView>(
            data,
        ));
        assert(base.subrange(0, 0) =~= Seq::<u8>::empty());
        lemma_insert(data);
        assert(window_data(base, version, w) == Ok::<Seq<u8>, ErrorView>(data));
        let more = decode_windows(base, end);
        assert(data + more.out =~= data);
    }
}

proof fn lemma_instruction_len(n: nat)
    requires
        n <= DELTA_WINDOW_MAX,
    ensures
        insert_instruction(n).len() <= 11,
{
    if n >= 64 {
        let u = uint_bytes(n);
        assert(u.subrange(0, u.len() as int) =~= u);
        lemma_uint_roundtrip(n as u64, u, 0);
    }
}

proof fn lemma_empty_header()
    ensures
        window_header(Seq::empty()) == Ok::<Option<WindowHeader>, ErrorView>(None),
{
    reveal(window_header);
    assert(uint_at(Seq::empty(), 0) is None);
}

/// A header announces its version.
proof fn lemma_version(version: SvndiffVersion)
    ensures
        header_version(header_bytes(version)) == Some(version),
        header_bytes(version).len() == 4,
{
    let h = header_bytes(version);
    assert(h[3] == crate::svndiff::version_number(version));
    assert(header_bytes(SvndiffVersion::V0)[3] == 0);
    assert(header_bytes(SvndiffVersion::V1)[3] == 1);
    assert(header_bytes(SvndiffVersion::V2)[3] == 2);
}

/// Windows one behind the other give their data one behind the other.
proof fn lemma_windows_join(
    version: SvndiffVersion,
    a: Seq<u8>,
    x: Seq<u8>,
    b: Seq<u8>,
    y: Seq<u8>,
)
    requires
        a.len() <= usize::MAX,
        window_gives(version, a, x),
        window_gives(version, b, y),
    ensures
        window_gives(version, a + b, x + y),
{
    reveal(window_gives);
    lemma_version(version);
    let s = insertion_state(version, a);
    assert forall|base: Seq<u8>| #[trigger]
        decode_windows(base, insertion_state(version, a + b)) == (Decoded {
            out: x + y,
            state: insertion_state(version, Seq::empty()),
            result: Ok(()),
        }) by {
        lemma_decode_more(base, s, b);
        assert(s.with_more(b) == insertion_state(version, a + b));
        let end = insertion_state(version, Seq::empty());
        assert(end.with_more(b).rest =~= b);
        assert(end.with_more(b) == insertion_state(version, b));
    }
    let base = Seq::<u8>::empty();
    lemma_in_time_join(base, s, b);
}

/// Headers are in time in windows one behind the other.
proof fn lemma_in_time_join(base: Seq<u8>, s: StreamView, b: Seq<u8>)
    requires
        s.rest.len() <= usize::MAX,
        s.version() is Some,
        headers_in_time(s.rest),
        headers_in_time(b),
        decode_windows(base, s).result is Ok,
        decode_windows(base, s).state.rest.len() == 0,
    ensures
        headers_in_time(s.rest + b),
    decreases s.rest.len(),
{
    lemma_header_extends(s.rest, b);
    match s.next_window() {
        Ok(Some(w)) => {
            let n = StreamView::window_len(w.header);
            let next = s.after(w.header);
            assert((s.rest + b).skip(n) =~= next.rest + b);
            lemma_in_time_join(base, next, b);
        },
        _ => {
            assert(s.rest + b =~= b);
        },
    }
}

/// Appends a window that looks at no source and has these sections.
fn push_window(tview_len: u64, ins: &[u8], new_data: &[u8], out: &mut Vec<u8>)
    ensures
        final(out)@ == old(out)@ + window_bytes(tview_len as nat, ins@, new_data@),
{
    let mut head: Vec<u8> = Vec::new();
    encode_uint(0, &mut head);
    assert(head@ =~= uint_bytes(0));
    encode_uint(0, &mut head);
    encode_uint(tview_len, &mut head);
    encode_uint(ins.len() as u64, &mut head);
    encode_uint(new_data.len() as u64, &mut head);
    assert(head@ == window_head(tview_len as nat, ins@.len(), new_data@.len()));
    let ghost before = out@;
    append(out, &head);
    append(out, ins);
    append(out, new_data);
    assert(out@ =~= before + (head@ + ins@ + new_data@));
}

/// Appends a window that inserts `data`, at a compression level from 0 to 9.
pub fn encode_insertion_window(
    version: SvndiffVersion,
    data: &[u8],
    level: u32,
    out: &mut Vec<u8>,
) -> (r: Result<(), SvnError>)
    ensures
        level > 9 ==> (r matches Err(e) && e.deep_view() == ErrorView::Protocol(
            "zlib level must be 0..=9"@,
        )) && final(out)@ == old(out)@,
        level <= 9 ==> match r {
            Ok(_) => insertion_window(
                version,
                data@,
                level,
            ) matches Ok(w) && final(out)@ == old(out)@
                + w && (data@.len() <= DELTA_WINDOW_MAX ==> window_gives(version, w, data@)),
            Err(e) => insertion_window(version, data@, level) == Err::<Seq<u8>, ErrorView>(
                e.deep_view(),
            ) && final(out)@ == old(out)@,
        },
{
    if level > 9 {
        return Err(protocol("zlib level must be 0..=9"));
    }
    let mut instruction: Vec<u8> = Vec::new();
    if data.len() == 0 {
    } else if data.len() < 64 {
        instruction.push(128 + data.len() as u8);
    } else {
        instruction.push(128);
        encode_uint(data.len() as u64, &mut instruction);
    }
    assert(instruction@ =~= insert_instruction(data@.len()));
    let ins = match encode_section(version, &instruction, level) {
        Ok(v) => v,
        Err(e) => {
            proof {
                reveal(insertion_window);
            }
            return Err(e);
        },
    };
    let new_data = match encode_section(version, data, level) {
        Ok(v) => v,
        Err(e) => {
            proof {
                reveal(insertion_window);
            }
            return Err(e);
        },
    };
    push_window(data.len() as u64, &ins, &new_data, out);
    proof {
        reveal(insertion_window);
        if data@.len() <= DELTA_WINDOW_MAX {
            lemma_instruction_len(data@.len());
            lemma_window_gives(version, data@, ins@, new_data@);
        }
    }
    Ok(())
}

/// The windows that insert `data`, each but the last of `size` bytes.
pub open spec fn insertion_windows(
    version: SvndiffVersion,
    data: Seq<u8>,
    level: u32,
    size: nat,
) -> Result<Seq<u8>, ErrorView>
    decreases data.len(),
{
    if data.len() == 0 || size == 0 {
        Ok(Seq::empty())
    } else {
        let n = if data.len() < size {
            data.len()
        } else {
            size
        };
        match insertion_window(version, data.take(n as int), level) {
            Err(e) => Err(e),
            Ok(w) => match insertion_windows(version, data.skip(n as int), level, size) {
                Err(e) => Err(e),
                Ok(more) => Ok(w + more),
            },
        }
    }
}

/// The delta that produces `contents` whatever the base is: a header, and windows that
/// insert it. A window size of zero counts as one.
pub open spec fn fulltext_delta(
    version: SvndiffVersion,
    contents: Seq<u8>,
    level: u32,
    window_size: nat,
) -> Result<Seq<u8>, ErrorView> {
    if level > 9 {
        Err(ErrorView::Protocol("zlib level must be 0..=9"@))
    } else {
        match insertion_windows(
            version,
            contents,
            level,
            if window_size == 0 {
                1
            } else {
                window_size
            },
        ) {
            Err(e) => Err(e),
            Ok(w) => Ok(header_bytes(version) + w),
        }
    }
}

/// Applying the delta gives `contents`, whatever the base is.
pub open spec fn delta_gives(delta: Seq<u8>, contents: Seq<u8>) -> bool {
    forall|base: Seq<u8>| #[trigger]
        apply_delta(base, seq![delta]) == (contents, Ok::<(), ErrorView>(()))
}

/// The delta of `version` that produces `contents` whatever the base is, in windows of
/// `window_size` bytes. Applying it gives `contents` back, as long as a window is not
/// larger than a decoder accepts.
pub fn encode_fulltext_with_options(
    version: SvndiffVersion,
    contents: &[u8],
    level: u32,
    window_size: usize,
) -> (r: Result<Vec<u8>, SvnError>)
    ensures
        match r {
            Ok(delta) => fulltext_delta(version, contents@, level, window_size as nat) == Ok::<
                Seq<u8>,
                ErrorView,
            >(delta@) && (window_size <= DELTA_WINDOW_MAX ==> delta_gives(delta@, contents@)),
            Err(e) => fulltext_delta(version, contents@, level, window_size as nat) == Err::<
                Seq<u8>,
                ErrorView,
            >(e.deep_view()),
        },
{
    if level > 9 {
        return Err(protocol("zlib level must be 0..=9"));
    }
    let size: usize = if window_size == 0 {
        1
    } else {
        window_size
    };
    let mut out = version.header();
    let ghost head = out@;
    let ghost mut windows: Seq<u8> = Seq::empty();
    let ghost all = insertion_windows(version, contents@, level, size as nat);
    let mut i: usize = 0;
    proof {
        assert(contents@.skip(0) =~= contents@);
        assert(out@ =~= head + windows);
        lemma_no_windows(version);
        assert(contents@.take(0) =~= Seq::<u8>::empty());
        match all {
            Ok(w) => {
                assert(windows + w =~= w);
            },
            Err(_) => {},
        }
    }
    while i < contents.len()
        invariant
            i <= contents.len(),
            level <= 9,
            size == (if window_size == 0 {
                1
            } else {
                window_size
            }),
            head == header_bytes(version),
            out@ == head + windows,
            all == insertion_windows(version, contents@, level, size as nat),
            all == behind(
                windows,
                insertion_windows(version, contents@.skip(i as int), level, size as nat),
            ),
            window_size <= DELTA_WINDOW_MAX ==> window_gives(
                version,
                windows,
                contents@.take(i as int),
            ),
        decreases contents.len() - i,
    {
        let left: usize = contents.len() - i;
        let n: usize = if left < size {
            left
        } else {
            size
        };
        let part = vstd::slice::slice_subrange(contents, i, i + n);
        let ghost rest = contents@.skip(i as int);
        proof {
            assert(part@ =~= rest.take(n as int));
            assert(rest.skip(n as int) =~= contents@.skip(i + n));
        }
        match encode_insertion_window(version, part, level, &mut out) {
            Err(e) => {
                proof {
                    lemma_next_windows(version, rest, level, size as nat, windows, all);
                }
                return Err(e);
            },
            Ok(_) => {},
        }
        let total: usize = out.len();
        proof {
            let w = insertion_window(version, part@, level)->Ok_0;
            assert(windows.len() <= total);
            assert((head + windows) + w =~= head + (windows + w));
            lemma_next_windows(version, rest, level, size as nat, windows, all);
            if window_size <= DELTA_WINDOW_MAX {
                lemma_windows_join(version, windows, contents@.take(i as int), w, part@);
                assert(contents@.take(i as int) + part@ =~= contents@.take(i + n));
            }
            windows = windows + w;
        }
        i = i + n;
    }
    proof {
        assert(contents@.skip(i as int).len() == 0);
        assert(windows + Seq::<u8>::empty() =~= windows);
        assert(contents@.take(i as int) =~= contents@);
        if window_size <= DELTA_WINDOW_MAX {
            lemma_delta_gives(version, windows, contents@);
        }
    }
    Ok(out)
}

/// `more`, if it went well, with `before` in front of it.
spec fn behind(before: Seq<u8>, more: Result<Seq<u8>, ErrorView>) -> Result<Seq<u8>, ErrorView> {
    match more {
        Ok(w) => Ok(before + w),
        Err(e) => Err(e),
    }
}

/// One more window.
proof fn lemma_next_windows(
    version: SvndiffVersion,
    rest: Seq<u8>,
    level: u32,
    size: nat,
    windows: Seq<u8>,
    all: Result<Seq<u8>, ErrorView>,
)
    requires
        rest.len() > 0,
        size > 0,
        all == behind(windows, insertion_windows(version, rest, level, size)),
    ensures
        ({
            let n = if rest.len() < size {
                rest.len()
            } else {
                size
            };
            match insertion_window(version, rest.take(n as int), level) {
                Err(e) => all == Err::<Seq<u8>, ErrorView>(e),
                Ok(w) => all == behind(
                    windows + w,
                    insertion_windows(version, rest.skip(n as int), level, size),
                ),
            }
        }),
{
    let n = if rest.len() < size {
        rest.len()
    } else {
        size
    };
    match insertion_window(version, rest.take(n as int), level) {
        Err(e) => {},
        Ok(w) => match insertion_windows(version, rest.skip(n as int), level, size) {
            Err(e) => {},
            Ok(more) => {
                assert(windows + (w + more) =~= (windows + w) + more);
            },
        },
    }
}

/// No windows give no data.
proof fn lemma_no_windows(version: SvndiffVersion)
    ensures
        window_gives(version, Seq::empty(), Seq::empty()),
{
    reveal(window_gives);
    lemma_empty_header();
    lemma_version(version);
    let s = insertion_state(version, Seq::empty());
    assert(s.next_window() == Ok::<Option<WindowParts>, ErrorView>(None));
}

/// A header and windows are a delta.
proof fn lemma_delta_gives(version: SvndiffVersion, windows: Seq<u8>, contents: Seq<u8>)
    requires
        window_gives(version, windows, contents),
    ensures
        delta_gives(header_bytes(version) + windows, contents),
{
    reveal(window_gives);
    lemma_version(version);
    let delta = header_bytes(version) + windows;
    let s = StreamView::start();
    assert forall|base: Seq<u8>| #[trigger] apply_delta(base, seq![delta]) == (
        contents,
        Ok::<(), ErrorView>(()),
    ) by {
        assert((s.header + delta).take(4) =~= header_bytes(version));
        assert(s.with_chunk(delta).header =~= header_bytes(version));
        assert(s.with_chunk(delta).rest =~= windows);
        assert(s.with_chunk(delta) == insertion_state(version, windows));
        let d = take_chunk(base, s, delta);
        let one = seq![delta];
        assert(one.drop_first().len() == 0);
        let more = take_chunks(base, d.state, one.drop_first());
        assert(d.out + more.out =~= d.out);
        assert(contents + Seq::<u8>::empty() =~= contents);
    }
}

/// Windows that insert the parts of a text, one behind the other and behind a header,
/// are a delta that gives the whole text.
pub proof fn windows_give_whole_text(
    version: SvndiffVersion,
    windows: Seq<Seq<u8>>,
    parts: Seq<Seq<u8>>,
)
    requires
        windows.len() == parts.len(),
        forall|i: int| 0 <= i < windows.len() ==> (#[trigger] windows[i]).len() <= usize::MAX,
        forall|i: int|
            0 <= i < windows.len() ==> window_gives(version, #[trigger] windows[i], parts[i]),
    ensures
        delta_gives(header_bytes(version) + joined(windows), joined(parts)),
{
    lemma_windows_give(version, windows, parts);
    lemma_delta_gives(version, joined(windows), joined(parts));
}

proof fn lemma_windows_give(
    version: SvndiffVersion,
    windows: Seq<Seq<u8>>,
    parts: Seq<Seq<u8>>,
)
    requires
        windows.len() == parts.len(),
        forall|i: int| 0 <= i < windows.len() ==> (#[trigger] windows[i]).len() <= usize::MAX,
        forall|i: int|
            0 <= i < windows.len() ==> window_gives(version, #[trigger] windows[i], parts[i]),
    ensures
        window_gives(version, joined(windows), joined(parts)),
    decreases windows.len(),
{
    if windows.len() == 0 {
        lemma_no_windows(version);
    } else {
        let w = windows.drop_first();
        let p = parts.drop_first();
        assert forall|i: int| 0 <= i < w.len() implies window_gives(
            version,
            #[trigger] w[i],
            p[i],
        ) by {
            assert(window_gives(version, windows[i + 1], parts[i + 1]));
        }
        assert forall|i: int| 0 <= i < w.len() implies (#[trigger] w[i]).len() <= usize::MAX by {
            assert(windows[i + 1].len() <= usize::MAX);
        }
        lemma_windows_give(version, w, p);
        assert(window_gives(version, windows[0], parts[0]));
        lemma_windows_join(version, windows[0], parts[0], joined(w), joined(p));
    }
}

} // verus!
