//! What deltas mean: every byte of a text is the one that an instruction names.

use vstd::prelude::*;

use crate::error::ErrorView;
use crate::svndiff::{
    base128, copy_target, five_uints, header_bytes, header_version, instruction, instructions_from,
    lemma_header_extends, lz4_decoded, section, uint_at, uint_last, window_header, window_target,
    zlib_decoded, Progress, SvndiffVersion,
};
use crate::textdelta::{
    apply_delta, at_end_output, decode_windows, take_chunk, take_chunks, window_data, StreamView,
    WindowParts,
};

verus! {

/// An instruction of a delta: how many bytes come next, and from where.
pub enum DeltaOp {
    /// Bytes of the source, from an offset on.
    Source { off: u64, len: u64 },
    /// Bytes of the target itself, from an offset on, those that this instruction adds
    /// included.
    Target { off: u64, len: u64 },
    /// The next bytes of the new data.
    New { len: u64 },
}

impl DeltaOp {
    /// How many bytes the instruction gives.
    pub open spec fn len(self) -> u64 {
        match self {
            DeltaOp::Source { len, .. } => len,
            DeltaOp::Target { len, .. } => len,
            DeltaOp::New { len } => len,
        }
    }

    /// How many bytes of the new data the instruction uses.
    pub open spec fn used(self) -> u64 {
        match self {
            DeltaOp::New { len } => len,
            _ => 0,
        }
    }
}

/// Where in the target the `k`-th instruction begins.
pub open spec fn begins_at(ops: Seq<DeltaOp>, k: int) -> int
    decreases k,
{
    if k <= 0 || k > ops.len() {
        0
    } else {
        begins_at(ops, k - 1) + ops[k - 1].len()
    }
}

/// How many bytes of the new data are used before the `k`-th instruction.
pub open spec fn used_before(ops: Seq<DeltaOp>, k: int) -> int
    decreases k,
{
    if k <= 0 || k > ops.len() {
        0
    } else {
        used_before(ops, k - 1) + ops[k - 1].used()
    }
}

/// The `i`-th byte that the `k`-th instruction gives is the one that it names.
pub open spec fn byte_is_right(
    t: Seq<u8>,
    source: Seq<u8>,
    new_data: Seq<u8>,
    ops: Seq<DeltaOp>,
    k: int,
    i: int,
) -> bool {
    let here = t[begins_at(ops, k) + i];
    match ops[k] {
        DeltaOp::Source { off, .. } => here == source[off + i],
        DeltaOp::Target { off, .. } => here == t[off + i],
        DeltaOp::New { .. } => here == new_data[used_before(ops, k) + i],
    }
}

/// All bytes that the first `n` instructions give are those that they name.
pub open spec fn bytes_are_right(
    t: Seq<u8>,
    source: Seq<u8>,
    new_data: Seq<u8>,
    ops: Seq<DeltaOp>,
    n: int,
) -> bool {
    &&& t.len() == begins_at(ops, n)
    &&& forall|k: int, i: int|
        0 <= k < n && 0 <= i < ops[k].len() ==> #[trigger] byte_is_right(
            t,
            source,
            new_data,
            ops,
            k,
            i,
        )
}

/// The `k`-th instruction can be followed: it gives something, stays inside the target, and
/// names bytes that are there.
pub open spec fn can_follow(
    source_len: nat,
    new_len: nat,
    tview_len: int,
    ops: Seq<DeltaOp>,
    k: int,
) -> bool {
    &&& ops[k].len() > 0
    &&& begins_at(ops, k) + ops[k].len() <= tview_len
    &&& match ops[k] {
        DeltaOp::Source { off, len } => off + len <= source_len,
        DeltaOp::Target { off, .. } => off < begins_at(ops, k),
        DeltaOp::New { len } => used_before(ops, k) + len <= new_len,
    }
}

/// The instructions can be followed, and fill the target and use the new data up.
pub open spec fn can_follow_all(
    source_len: nat,
    new_len: nat,
    tview_len: int,
    ops: Seq<DeltaOp>,
) -> bool {
    &&& forall|k: int| 0 <= k < ops.len() ==> #[trigger] can_follow(
        source_len,
        new_len,
        tview_len,
        ops,
        k,
    )
    &&& begins_at(ops, ops.len() as int) == tview_len
    &&& used_before(ops, ops.len() as int) == new_len
}

/// The number that bytes stand for: seven bits each, the highest first.
pub open spec fn number(b: Seq<u8>) -> nat
    decreases b.len(),
{
    if b.len() == 0 {
        0
    } else {
        number(b.drop_last()) * 128 + (b.last() % 128) as nat
    }
}

/// Between two indices stands this number: all bytes but the last have the top bit.
pub open spec fn number_in(b: Seq<u8>, from: int, to: int, n: u64) -> bool {
    &&& 0 <= from < to <= b.len()
    &&& forall|k: int| from <= k < to - 1 ==> #[trigger] b[k] >= 128
    &&& b[to - 1] < 128
    &&& number(b.subrange(from, to)) == n
}

/// Between two indices stands this instruction: two bits say where the bytes come from, six
/// bits give the length, or, where they are zero, a number does; then an offset follows
/// where there is one.
pub open spec fn op_in(b: Seq<u8>, from: int, mid: int, to: int, op: DeltaOp) -> bool {
    &&& 0 <= from < b.len()
    &&& ({
        ||| b[from] % 64 != 0 && op.len() == b[from] % 64 && mid == from + 1
        ||| b[from] % 64 == 0 && number_in(b, from + 1, mid, op.len())
    })
    &&& match op {
        DeltaOp::Source { off, .. } => b[from] / 64 == 0 && number_in(b, mid, to, off),
        DeltaOp::Target { off, .. } => b[from] / 64 == 1 && number_in(b, mid, to, off),
        DeltaOp::New { .. } => b[from] / 64 == 2 && to == mid,
    }
}

/// The bytes are these instructions, of which the `k`-th stands from `at[k]` on, with its
/// offset from `mid[k]` on.
pub open spec fn ops_in(b: Seq<u8>, ops: Seq<DeltaOp>, at: Seq<int>, mid: Seq<int>) -> bool {
    &&& at.len() == ops.len() + 1
    &&& mid.len() == ops.len()
    &&& at[0] == 0
    &&& at.last() == b.len()
    &&& forall|k: int| 0 <= k < ops.len() ==> op_in(b, at[k], mid[k], at[k + 1], #[trigger] ops[k])
}

proof fn lemma_number(b: Seq<u8>)
    ensures
        number(b) == base128(b),
    decreases b.len(),
{
    if b.len() > 0 {
        lemma_number(b.drop_last());
    }
}

proof fn lemma_last(b: Seq<u8>, i: int, e: int)
    requires
        0 <= i <= e < b.len(),
        forall|k: int| i <= k < e ==> #[trigger] b[k] >= 128,
        b[e] < 128,
    ensures
        uint_last(b, i) == e,
    decreases e - i,
{
    if i < e {
        lemma_last(b, i + 1, e);
    }
}

/// A number is read back, together with where it ends.
pub proof fn a_number_is_read_back(b: Seq<u8>, from: int, to: int, n: u64)
    requires
        number_in(b, from, to, n),
    ensures
        uint_at(b, from) == Some((n, to)),
{
    lemma_last(b, from, to - 1);
    lemma_number(b.subrange(from, to));
}

proof fn lemma_copied(target: Seq<u8>, off: int, len: nat)
    requires
        0 <= off < target.len(),
    ensures
        copy_target(target, off, len).len() == target.len() + len,
        forall|i: int|
            0 <= i < target.len() ==> #[trigger] copy_target(target, off, len)[i] == target[i],
        forall|i: int|
            0 <= i < len ==> #[trigger] copy_target(target, off, len)[target.len() + i]
                == copy_target(target, off, len)[off + i],
    decreases len,
{
    if len > 0 {
        let t = target.push(target[off]);
        let r = copy_target(target, off, len);
        lemma_copied(t, off + 1, (len - 1) as nat);
        assert forall|i: int| 0 <= i < target.len() implies #[trigger] r[i] == target[i] by {
            assert(r[i] == t[i]);
        }
        assert forall|i: int| 0 <= i < len implies #[trigger] r[target.len() + i] == r[off + i] by {
            if i == 0 {
                assert(r[target.len() as int] == t[target.len() as int]);
                assert(r[off] == t[off]);
            } else {
                let n = target.len() + i;
                assert(r[t.len() + (i - 1)] == r[off + 1 + (i - 1)]);
                assert(n == t.len() + (i - 1));
            }
        }
    }
}

proof fn lemma_begins_grow(ops: Seq<DeltaOp>, a: int, b: int)
    requires
        0 <= a <= b <= ops.len(),
    ensures
        0 <= begins_at(ops, a) <= begins_at(ops, b),
        0 <= used_before(ops, a) <= used_before(ops, b),
    decreases b,
{
    if b > 0 {
        if a < b {
            lemma_begins_grow(ops, a, b - 1);
        } else {
            lemma_begins_grow(ops, a - 1, b - 1);
        }
    }
}

/// What was right stays right when the target grows.
proof fn lemma_stays_right(
    t: Seq<u8>,
    u: Seq<u8>,
    source: Seq<u8>,
    new_data: Seq<u8>,
    ops: Seq<DeltaOp>,
    n: int,
    source_len: nat,
    new_len: nat,
    tview_len: int,
)
    requires
        0 <= n < ops.len(),
        bytes_are_right(t, source, new_data, ops, n),
        u.len() == t.len() + ops[n].len(),
        forall|i: int| 0 <= i < t.len() ==> #[trigger] u[i] == t[i],
        forall|k: int| 0 <= k < n ==> #[trigger] can_follow(source_len, new_len, tview_len, ops, k),
        forall|i: int|
            0 <= i < ops[n].len() ==> #[trigger] byte_is_right(u, source, new_data, ops, n, i),
    ensures
        bytes_are_right(u, source, new_data, ops, n + 1),
{
    assert forall|k: int, i: int|
        0 <= k < n + 1 && 0 <= i < ops[k].len() implies #[trigger] byte_is_right(
        u,
        source,
        new_data,
        ops,
        k,
        i,
    ) by {
        if k < n {
            assert(byte_is_right(t, source, new_data, ops, k, i));
            lemma_begins_grow(ops, k + 1, n);
            lemma_begins_grow(ops, 0, k);
            assert(begins_at(ops, k + 1) == begins_at(ops, k) + ops[k].len());
            assert(u[begins_at(ops, k) + i] == t[begins_at(ops, k) + i]);
            assert(can_follow(source_len, new_len, tview_len, ops, k));
            if let DeltaOp::Target { off, .. } = ops[k] {
                assert(u[off + i] == t[off + i]);
            }
        }
    }
}

proof fn lemma_follow(
    source: Seq<u8>,
    tview_len: int,
    ins: Seq<u8>,
    new_data: Seq<u8>,
    ops: Seq<DeltaOp>,
    at: Seq<int>,
    mid: Seq<int>,
    n: int,
    t: Seq<u8>,
)
    requires
        source.len() <= usize::MAX,
        0 <= tview_len <= usize::MAX,
        ops_in(ins, ops, at, mid),
        0 <= n <= ops.len(),
        bytes_are_right(t, source, new_data, ops, n),
        used_before(ops, n) <= new_data.len(),
        forall|k: int| 0 <= k < n ==> #[trigger] can_follow(
            source.len(),
            new_data.len(),
            tview_len,
            ops,
            k,
        ),
    ensures
        ({
            let r = instructions_from(
                source,
                tview_len,
                ins,
                new_data,
                Progress { ipos: at[n], npos: used_before(ops, n), target: t },
            );
            &&& r is Ok <==> can_follow_all(source.len(), new_data.len(), tview_len, ops)
            &&& r matches Ok(u) ==> bytes_are_right(u, source, new_data, ops, ops.len() as int)
        }),
    decreases ops.len() - n,
{
    let p = Progress { ipos: at[n], npos: used_before(ops, n), target: t };
    lemma_begins_grow(ops, 0, n);
    if n < ops.len() {
        let op = ops[n];
        assert(op_in(ins, at[n], mid[n], at[n + 1], op));
        if ins[at[n]] % 64 == 0 {
            a_number_is_read_back(ins, at[n] + 1, mid[n], op.len());
        }
        match op {
            DeltaOp::Source { off, .. } => a_number_is_read_back(ins, mid[n], at[n + 1], off),
            DeltaOp::Target { off, .. } => a_number_is_read_back(ins, mid[n], at[n + 1], off),
            DeltaOp::New { .. } => {},
        }
        assert(at[n] < at[n + 1]);
        assert(begins_at(ops, n + 1) == begins_at(ops, n) + op.len());
        assert(used_before(ops, n + 1) == used_before(ops, n) + op.used());
        let step = instruction(source, tview_len, ins, new_data, p);
        if can_follow(source.len(), new_data.len(), tview_len, ops, n) {
            let u = step->Ok_0.target;
            match op {
                DeltaOp::Source { off, len } => {
                    assert forall|i: int| 0 <= i < op.len() implies #[trigger] byte_is_right(
                        u,
                        source,
                        new_data,
                        ops,
                        n,
                        i,
                    ) by {}
                },
                DeltaOp::Target { off, len } => {
                    lemma_copied(t, off as int, len as nat);
                    assert forall|i: int| 0 <= i < op.len() implies #[trigger] byte_is_right(
                        u,
                        source,
                        new_data,
                        ops,
                        n,
                        i,
                    ) by {
                        assert(u[t.len() + i] == u[off + i]);
                    }
                },
                DeltaOp::New { len } => {
                    assert forall|i: int| 0 <= i < op.len() implies #[trigger] byte_is_right(
                        u,
                        source,
                        new_data,
                        ops,
                        n,
                        i,
                    ) by {}
                },
            }
            lemma_stays_right(
                t,
                u,
                source,
                new_data,
                ops,
                n,
                source.len(),
                new_data.len(),
                tview_len,
            );
            assert(step == Ok::<Progress, Seq<char>>(
                Progress { ipos: at[n + 1], npos: used_before(ops, n + 1), target: u },
            ));
            lemma_follow(source, tview_len, ins, new_data, ops, at, mid, n + 1, u);
        } else {
            assert(step is Err);
            assert(!can_follow_all(source.len(), new_data.len(), tview_len, ops));
        }
    } else {
        assert(at[n] == ins.len());
    }
}

/// Every byte that a window gives is the one that its instruction names: a byte of the
/// source, of the target before it, or of the new data, at the offset that the instruction
/// names. A window is accepted exactly if all of its instructions can be followed, and fill
/// the target and use the new data up.
pub proof fn every_byte_is_what_its_instruction_names(
    source: Seq<u8>,
    tview_len: int,
    ins: Seq<u8>,
    new_data: Seq<u8>,
    ops: Seq<DeltaOp>,
    at: Seq<int>,
    mid: Seq<int>,
)
    requires
        source.len() <= usize::MAX,
        0 <= tview_len <= usize::MAX,
        ops_in(ins, ops, at, mid),
    ensures
        window_target(source, tview_len, ins, new_data) is Ok <==> can_follow_all(
            source.len(),
            new_data.len(),
            tview_len,
            ops,
        ),
        window_target(source, tview_len, ins, new_data) matches Ok(t) ==> t.len() == tview_len
            && bytes_are_right(t, source, new_data, ops, ops.len() as int),
{
    lemma_follow(source, tview_len, ins, new_data, ops, at, mid, 0, Seq::empty());
}

/// Bytes whose first two bits say nothing are refused.
pub proof fn an_unknown_instruction_is_refused(
    source: Seq<u8>,
    tview_len: int,
    ins: Seq<u8>,
    new_data: Seq<u8>,
)
    requires
        ins.len() > 0,
        ins[0] >= 192,
    ensures
        window_target(source, tview_len, ins, new_data) is Err,
{
}

/// A section of a window carries this data: as they are in version 0; otherwise behind
/// their length, as they are or, where that is something else, compressed: with zlib in
/// version 1, with LZ4 in version 2.
pub open spec fn carries(
    version: SvndiffVersion,
    wire: Seq<u8>,
    cut: int,
    data: Seq<u8>,
) -> bool {
    match version {
        SvndiffVersion::V0 => wire == data,
        _ => data.len() <= u64::MAX && number_in(wire, 0, cut, data.len() as u64) && {
            let body = wire.skip(cut);
            ||| body == data
            ||| body.len() != data.len() && (if version is V1 {
                zlib_decoded(body) == Ok::<Seq<u8>, Seq<char>>(data)
            } else {
                lz4_decoded(body, data.len()) == Ok::<Seq<u8>, Seq<char>>(data)
            })
        },
    }
}

/// A section gives the data that it carries, if they are no longer than allowed.
pub proof fn a_section_gives_what_it_carries(
    version: SvndiffVersion,
    wire: Seq<u8>,
    cut: int,
    data: Seq<u8>,
    limit: nat,
)
    requires
        carries(version, wire, cut, data),
        data.len() <= limit <= usize::MAX,
    ensures
        section(version, wire, limit) == Ok::<Seq<u8>, ErrorView>(data),
{
    if version !is V0 {
        a_number_is_read_back(wire, 0, cut, data.len() as u64);
    }
}

/// A window of a delta, as it is sent: where in the base it looks, how many bytes it gives,
/// its instructions and its new data, with the bytes that carry them and where these are
/// cut.
pub struct SentWindow {
    pub offset: u64,
    pub source_len: u64,
    pub target_len: u64,
    pub ops: Seq<DeltaOp>,
    pub at: Seq<int>,
    pub mid: Seq<int>,
    pub ins: Seq<u8>,
    pub new_data: Seq<u8>,
    pub head: Seq<u8>,
    pub cuts: Seq<int>,
    pub ins_wire: Seq<u8>,
    pub ins_cut: int,
    pub new_wire: Seq<u8>,
    pub new_cut: int,
}

impl SentWindow {
    /// The bytes of the window.
    pub open spec fn bytes(self) -> Seq<u8> {
        self.head + self.ins_wire + self.new_wire
    }

    /// The part of the base that the window looks at.
    pub open spec fn view_of(self, base: Seq<u8>) -> Seq<u8> {
        base.subrange(self.offset as int, self.offset + self.source_len)
    }

    /// The window is sent as it should be: five numbers, then the two sections, none of
    /// them larger than allowed.
    pub open spec fn is_sent(self, version: SvndiffVersion) -> bool {
        &&& self.cuts.len() == 5
        &&& number_in(self.head, 0, self.cuts[0], self.offset)
        &&& number_in(self.head, self.cuts[0], self.cuts[1], self.source_len)
        &&& number_in(self.head, self.cuts[1], self.cuts[2], self.target_len)
        &&& self.ins_wire.len() <= 1376256
        &&& self.new_wire.len() <= 65546
        &&& number_in(self.head, self.cuts[2], self.cuts[3], self.ins_wire.len() as u64)
        &&& number_in(self.head, self.cuts[3], self.cuts[4], self.new_wire.len() as u64)
        &&& self.cuts[4] == self.head.len()
        &&& self.source_len <= 65536
        &&& self.target_len <= 65536
        &&& self.ins.len() <= 1376256
        &&& self.new_data.len() <= 65536
        &&& carries(version, self.ins_wire, self.ins_cut, self.ins)
        &&& carries(version, self.new_wire, self.new_cut, self.new_data)
        &&& ops_in(self.ins, self.ops, self.at, self.mid)
    }

    /// The window can be applied to a base.
    pub open spec fn fits(self, base: Seq<u8>) -> bool {
        &&& self.offset + self.source_len <= base.len()
        &&& can_follow_all(
            self.source_len as nat,
            self.new_data.len(),
            self.target_len as int,
            self.ops,
        )
    }

    /// The window does not look further back than the one before it, if it looks at the
    /// base at all.
    pub open spec fn goes_on_from(self, offset: u64, source_len: u64) -> bool {
        self.source_len > 0 ==> self.offset >= offset && self.offset + self.source_len >= offset
            + source_len
    }

    /// These are the bytes that the window gives.
    pub open spec fn gives(self, base: Seq<u8>, t: Seq<u8>) -> bool {
        t.len() == self.target_len && bytes_are_right(
            t,
            self.view_of(base),
            self.new_data,
            self.ops,
            self.ops.len() as int,
        )
    }
}

/// The bytes of windows, one behind the other.
pub open spec fn windows_sent(windows: Seq<SentWindow>) -> Seq<u8>
    decreases windows.len(),
{
    if windows.len() == 0 {
        Seq::empty()
    } else {
        windows[0].bytes() + windows_sent(windows.drop_first())
    }
}

/// Parts, one behind the other.
pub open spec fn in_a_row(parts: Seq<Seq<u8>>) -> Seq<u8>
    decreases parts.len(),
{
    if parts.len() == 0 {
        Seq::empty()
    } else {
        parts[0] + in_a_row(parts.drop_first())
    }
}

/// The windows are sent as they should be, fit the base and follow each other.
pub open spec fn all_fit(
    version: SvndiffVersion,
    windows: Seq<SentWindow>,
    base: Seq<u8>,
    offset: u64,
    source_len: u64,
) -> bool
    decreases windows.len(),
{
    if windows.len() == 0 {
        true
    } else {
        let w = windows[0];
        &&& w.is_sent(version)
        &&& w.fits(base)
        &&& w.goes_on_from(offset, source_len)
        &&& all_fit(version, windows.drop_first(), base, w.offset, w.source_len)
    }
}

/// The texts are those that the windows give.
pub open spec fn all_give(
    windows: Seq<SentWindow>,
    base: Seq<u8>,
    texts: Seq<Seq<u8>>,
) -> bool {
    texts.len() == windows.len() && forall|k: int|
        0 <= k < windows.len() ==> windows[k].gives(base, #[trigger] texts[k])
}

/// A number stands where it stood when more bytes follow.
proof fn lemma_number_extends(b: Seq<u8>, c: Seq<u8>, from: int, to: int, n: u64)
    requires
        number_in(b, from, to, n),
    ensures
        number_in(b + c, from, to, n),
{
    assert((b + c).subrange(from, to) =~= b.subrange(from, to));
}

proof fn lemma_window_parts(version: SvndiffVersion, w: SentWindow, more: Seq<u8>)
    requires
        w.is_sent(version),
        w.offset + w.source_len <= u64::MAX,
    ensures
        ({
            let b = w.bytes() + more;
            &&& window_header(b) matches Ok(Some(h)) && {
                &&& h.sview_offset == w.offset
                &&& h.sview_len == w.source_len
                &&& h.tview_len == w.target_len
                &&& h.ins_len == w.ins_wire.len()
                &&& h.new_len == w.new_wire.len()
                &&& w.head.len() <= usize::MAX ==> h.header_len == w.head.len()
            }
        }),
{
    reveal(window_header);
    let b = w.bytes() + more;
    let c = w.ins_wire + w.new_wire + more;
    assert(b =~= w.head + c);
    lemma_number_extends(w.head, c, 0, w.cuts[0], w.offset);
    lemma_number_extends(w.head, c, w.cuts[0], w.cuts[1], w.source_len);
    lemma_number_extends(w.head, c, w.cuts[1], w.cuts[2], w.target_len);
    lemma_number_extends(w.head, c, w.cuts[2], w.cuts[3], w.ins_wire.len() as u64);
    lemma_number_extends(w.head, c, w.cuts[3], w.cuts[4], w.new_wire.len() as u64);
    a_number_is_read_back(b, 0, w.cuts[0], w.offset);
    a_number_is_read_back(b, w.cuts[0], w.cuts[1], w.source_len);
    a_number_is_read_back(b, w.cuts[1], w.cuts[2], w.target_len);
    a_number_is_read_back(b, w.cuts[2], w.cuts[3], w.ins_wire.len() as u64);
    a_number_is_read_back(b, w.cuts[3], w.cuts[4], w.new_wire.len() as u64);
    assert(five_uints(b) is Some);
}

/// The state of a decoder behind a header.
spec fn state_at(version: SvndiffVersion, rest: Seq<u8>, offset: u64, len: u64) -> StreamView {
    StreamView { header: header_bytes(version), rest, last_offset: offset, last_len: len }
}

proof fn lemma_headers(version: SvndiffVersion)
    ensures
        header_bytes(version).len() == 4,
        header_version(header_bytes(version)) == Some(version),
{
    assert(header_bytes(SvndiffVersion::V0)[3] == 0);
    assert(header_bytes(SvndiffVersion::V1)[3] == 1);
    assert(header_bytes(SvndiffVersion::V2)[3] == 2);
}

/// One window is decoded: what it gives, and the state behind it.
proof fn lemma_one_window(
    version: SvndiffVersion,
    w: SentWindow,
    more: Seq<u8>,
    base: Seq<u8>,
    offset: u64,
    source_len: u64,
) -> (r: (WindowParts, Seq<u8>))
    requires
        base.len() <= usize::MAX,
        w.is_sent(version),
        w.fits(base),
        w.goes_on_from(offset, source_len),
        (w.bytes() + more).len() <= usize::MAX,
    ensures
        w.gives(base, r.1),
        more.len() < (w.bytes() + more).len(),
        ({
            let s = state_at(version, w.bytes() + more, offset, source_len);
            &&& s.version() == Some(version)
            &&& s.next_window() == Ok::<Option<WindowParts>, ErrorView>(Some(r.0))
            &&& s.after(r.0.header) == state_at(version, more, w.offset, w.source_len)
            &&& window_data(base, version, r.0) == Ok::<Seq<u8>, ErrorView>(r.1)
        }),
{
    lemma_headers(version);
    let b = w.bytes() + more;
    let s = state_at(version, b, offset, source_len);
    lemma_window_parts(version, w, more);
    let h = window_header(b)->Ok_0->0;
    assert(w.head.len() <= b.len());
    let n = StreamView::window_len(h);
    assert(b.subrange(h.header_len as int, h.header_len + h.ins_len) =~= w.ins_wire);
    assert(b.subrange(h.header_len + h.ins_len, n) =~= w.new_wire);
    assert(b.skip(n) =~= more);
    let parts = WindowParts { header: h, instructions: w.ins_wire, new_data: w.new_wire };
    assert(s.next_window() == Ok::<Option<WindowParts>, ErrorView>(Some(parts)));
    assert(s.after(h) == state_at(version, more, w.offset, w.source_len));
    let t = lemma_window_text(version, w, base, parts);
    (parts, t)
}

/// The sections of a window give what its instructions name.
proof fn lemma_window_text(
    version: SvndiffVersion,
    w: SentWindow,
    base: Seq<u8>,
    parts: WindowParts,
) -> (t: Seq<u8>)
    requires
        base.len() <= usize::MAX,
        w.is_sent(version),
        w.fits(base),
        parts.header.sview_offset == w.offset,
        parts.header.sview_len == w.source_len,
        parts.header.tview_len == w.target_len,
        parts.instructions == w.ins_wire,
        parts.new_data == w.new_wire,
    ensures
        w.gives(base, t),
        window_data(base, version, parts) == Ok::<Seq<u8>, ErrorView>(t),
{
    reveal(window_data);
    a_section_gives_what_it_carries(version, w.ins_wire, w.ins_cut, w.ins, 1376256);
    a_section_gives_what_it_carries(version, w.new_wire, w.new_cut, w.new_data, 65536);
    every_byte_is_what_its_instruction_names(
        w.view_of(base),
        w.target_len as int,
        w.ins,
        w.new_data,
        w.ops,
        w.at,
        w.mid,
    );
    window_target(w.view_of(base), w.target_len as int, w.ins, w.new_data)->Ok_0
}

proof fn lemma_windows(
    version: SvndiffVersion,
    windows: Seq<SentWindow>,
    base: Seq<u8>,
    offset: u64,
    source_len: u64,
) -> (texts: Seq<Seq<u8>>)
    requires
        base.len() <= usize::MAX,
        all_fit(version, windows, base, offset, source_len),
        windows_sent(windows).len() <= usize::MAX,
    ensures
        all_give(windows, base, texts),
        ({
            let d = decode_windows(
                base,
                state_at(version, windows_sent(windows), offset, source_len),
            );
            &&& d.out == in_a_row(texts)
            &&& d.result is Ok
            &&& d.state.rest.len() == 0
            &&& d.state.header == header_bytes(version)
        }),
    decreases windows.len(),
{
    let s = state_at(version, windows_sent(windows), offset, source_len);
    if windows.len() == 0 {
        lemma_headers(version);
        reveal(window_header);
        assert(uint_at(s.rest, 0) is None);
        assert(five_uints(s.rest) is None);
        Seq::empty()
    } else {
        let w = windows[0];
        let rest = windows.drop_first();
        let more = windows_sent(rest);
        assert(windows_sent(windows) == w.bytes() + more);
        assert(w.is_sent(version) && w.fits(base) && w.goes_on_from(offset, source_len));
        assert(all_fit(version, rest, base, w.offset, w.source_len));
        let (parts, t) = lemma_one_window(version, w, more, base, offset, source_len);
        let texts = lemma_windows(version, rest, base, w.offset, w.source_len);
        let all = seq![t] + texts;
        assert(all.drop_first() =~= texts);
        assert(all_give(windows, base, all)) by {
            assert forall|k: int| 0 <= k < windows.len() implies windows[k].gives(
                base,
                #[trigger] all[k],
            ) by {
                if k > 0 {
                    assert(all[k] == texts[k - 1]);
                    assert(windows[k] == rest[k - 1]);
                }
            }
        }
        all
    }
}

/// Applying a delta to a base gives the texts of its windows one behind the other: each
/// byte is the one that its instruction names, in the part of the base that the window
/// looks at, in the text of the window so far, or in its new data.
pub proof fn a_delta_gives_the_text_of_its_windows(
    version: SvndiffVersion,
    windows: Seq<SentWindow>,
    base: Seq<u8>,
)
    requires
        base.len() <= usize::MAX,
        all_fit(version, windows, base, 0, 0),
        windows_sent(windows).len() <= usize::MAX,
    ensures
        ({
            let v: u8 = match version {
                SvndiffVersion::V0 => 0,
                SvndiffVersion::V1 => 1,
                SvndiffVersion::V2 => 2,
            };
            let delta = seq![83u8, 86u8, 78u8, v] + windows_sent(windows);
            exists|texts: Seq<Seq<u8>>| #[trigger]
                all_give(windows, base, texts) && apply_delta(base, seq![delta]) == (
                    in_a_row(texts),
                    Ok::<(), ErrorView>(()),
                )
        }),
{
    lemma_headers(version);
    let rest = windows_sent(windows);
    let delta = header_bytes(version) + rest;
    let v: u8 = match version {
        SvndiffVersion::V0 => 0,
        SvndiffVersion::V1 => 1,
        SvndiffVersion::V2 => 2,
    };
    assert(header_bytes(version) =~= seq![83u8, 86u8, 78u8, v]);
    let texts = lemma_windows(version, windows, base, 0, 0);
    let s = StreamView::start();
    assert((s.header + delta).take(4) =~= header_bytes(version));
    assert(s.with_chunk(delta).header =~= header_bytes(version));
    assert(s.with_chunk(delta).rest =~= rest);
    assert(s.with_chunk(delta) == state_at(version, rest, 0, 0));
    let d = take_chunk(base, s, delta);
    let one = seq![delta];
    assert(one.drop_first().len() == 0);
    let more = take_chunks(base, d.state, one.drop_first());
    assert(d.out + more.out =~= d.out);
    assert(d.out + at_end_output(base, d.state) =~= d.out);
    assert(all_give(windows, base, texts));
}

/// A window is no larger than allowed: it looks at no more than 65536 bytes of the base and
/// gives no more, and its sections are bounded too. A larger one is refused, and any other
/// is read.
pub proof fn a_window_is_no_larger_than_allowed(
    b: Seq<u8>,
    cuts: Seq<int>,
    offset: u64,
    source_len: u64,
    target_len: u64,
    ins_len: u64,
    new_len: u64,
)
    requires
        cuts.len() == 5,
        number_in(b, 0, cuts[0], offset),
        number_in(b, cuts[0], cuts[1], source_len),
        number_in(b, cuts[1], cuts[2], target_len),
        number_in(b, cuts[2], cuts[3], ins_len),
        number_in(b, cuts[3], cuts[4], new_len),
    ensures
        ({
            let allowed = source_len <= 65536 && target_len <= 65536 && ins_len <= 1376256
                && new_len <= 65546 && offset + source_len <= u64::MAX;
            &&& allowed <==> window_header(b) is Ok
            &&& allowed ==> (window_header(b) matches Ok(Some(h)) && h.sview_offset == offset
                && h.sview_len == source_len && h.tview_len == target_len && h.ins_len == ins_len
                && h.new_len == new_len)
        }),
{
    reveal(window_header);
    a_number_is_read_back(b, 0, cuts[0], offset);
    a_number_is_read_back(b, cuts[0], cuts[1], source_len);
    a_number_is_read_back(b, cuts[1], cuts[2], target_len);
    a_number_is_read_back(b, cuts[2], cuts[3], ins_len);
    a_number_is_read_back(b, cuts[3], cuts[4], new_len);
    assert(five_uints(b) is Some);
}

/// A window that looks beyond the base, that looks further back than the one before it, or
/// whose instructions cannot be followed, is refused.
pub proof fn a_window_that_does_not_fit_is_refused(
    version: SvndiffVersion,
    w: SentWindow,
    more: Seq<u8>,
    base: Seq<u8>,
    s: StreamView,
)
    requires
        base.len() <= usize::MAX,
        w.is_sent(version),
        w.offset + w.source_len <= u64::MAX,
        s.header == header_bytes(version),
        s.rest == w.bytes() + more,
        s.rest.len() <= usize::MAX,
    ensures
        decode_windows(base, s).result is Ok ==> w.fits(base) && w.goes_on_from(
            s.last_offset,
            s.last_len,
        ),
{
    lemma_headers(version);
    let b = s.rest;
    lemma_window_parts(version, w, more);
    let h = window_header(b)->Ok_0->0;
    assert(w.head.len() <= b.len());
    let n = StreamView::window_len(h);
    assert(b.subrange(h.header_len as int, h.header_len + h.ins_len) =~= w.ins_wire);
    assert(b.subrange(h.header_len + h.ins_len, n) =~= w.new_wire);
    let parts = WindowParts { header: h, instructions: w.ins_wire, new_data: w.new_wire };
    if decode_windows(base, s).result is Ok {
        assert(s.next_window() == Ok::<Option<WindowParts>, ErrorView>(Some(parts)));
        reveal(window_data);
        a_section_gives_what_it_carries(version, w.ins_wire, w.ins_cut, w.ins, 1376256);
        a_section_gives_what_it_carries(version, w.new_wire, w.new_cut, w.new_data, 65536);
        assert(w.offset + w.source_len <= base.len());
        every_byte_is_what_its_instruction_names(
            w.view_of(base),
            w.target_len as int,
            w.ins,
            w.new_data,
            w.ops,
            w.at,
            w.mid,
        );
    }
}

/// A delta that is cut off is refused: inside its header, or inside a window.
pub proof fn a_delta_that_is_cut_off_is_refused(
    version: SvndiffVersion,
    w: SentWindow,
    base: Seq<u8>,
    n: int,
)
    requires
        w.is_sent(version),
        w.offset + w.source_len <= u64::MAX,
        w.bytes().len() <= usize::MAX,
        0 < n < 4 + w.bytes().len(),
        n != 4,
    ensures
        apply_delta(base, seq![(header_bytes(version) + w.bytes()).take(n)]).1 is Err,
{
    lemma_headers(version);
    let all = header_bytes(version) + w.bytes();
    let cut = all.take(n);
    let s = StreamView::start();
    let one = seq![cut];
    let d = take_chunk(base, s, cut);
    assert(one.drop_first().len() == 0);
    let t = s.with_chunk(cut);
    if n < 4 {
        assert(t.header =~= cut);
        assert(t.rest.len() == 0);
        assert(t.version() is None);
        assert(d.state == t);
    } else {
        assert((s.header + cut).take(4) =~= header_bytes(version));
        assert(t.header =~= header_bytes(version));
        let rest = w.bytes().take(n - 4);
        assert(t.rest =~= rest);
        let left = w.bytes().skip(n - 4);
        assert(rest + left =~= w.bytes());
        assert(w.bytes() + Seq::<u8>::empty() =~= w.bytes());
        lemma_window_parts(version, w, Seq::empty());
        lemma_header_extends(rest, left);
        if let Ok(Some(h)) = window_header(rest) {
            assert(StreamView::window_len(h) == w.bytes().len());
        }
        assert(t.next_window() is Err || t.next_window() == Ok::<
            Option<WindowParts>,
            ErrorView,
        >(None));
        assert(d.result is Err || d.state == t);
    }
    let none = one.drop_first();
    assert(take_chunks(base, d.state, none).result is Ok);
    assert(take_chunks(base, d.state, none).state == d.state);
    let whole = take_chunks(base, s, one);
    assert(whole.result is Err || whole.state == d.state);
}

/// A section that is compressed is as long as it says, and no longer than allowed: any other
/// is refused.
pub proof fn a_section_is_as_long_as_it_says(
    version: SvndiffVersion,
    wire: Seq<u8>,
    cut: int,
    n: u64,
    limit: nat,
)
    requires
        version !is V0,
        number_in(wire, 0, cut, n),
    ensures
        section(version, wire, limit) matches Ok(data) ==> data.len() == n && n <= limit,
        section(version, wire, limit) matches Err(e) ==> e is Protocol,
{
    a_number_is_read_back(wire, 0, cut, n);
}

/// Only the three versions of the format are known.
pub proof fn only_three_versions_are_known(h: Seq<u8>)
    ensures
        header_version(h) matches Some(v) ==> h.len() == 4 && h[0] == 83 && h[1] == 86 && h[2] == 78
            && h[3] == (match v {
            SvndiffVersion::V0 => 0u8,
            SvndiffVersion::V1 => 1u8,
            SvndiffVersion::V2 => 2u8,
        }),
        header_version(seq![83u8, 86u8, 78u8, 0u8]) == Some(SvndiffVersion::V0),
        header_version(seq![83u8, 86u8, 78u8, 1u8]) == Some(SvndiffVersion::V1),
        header_version(seq![83u8, 86u8, 78u8, 2u8]) == Some(SvndiffVersion::V2),
{
    lemma_headers(SvndiffVersion::V0);
    lemma_headers(SvndiffVersion::V1);
    lemma_headers(SvndiffVersion::V2);
    assert(header_bytes(SvndiffVersion::V0) =~= seq![83u8, 86u8, 78u8, 0u8]);
    assert(header_bytes(SvndiffVersion::V1) =~= seq![83u8, 86u8, 78u8, 1u8]);
    assert(header_bytes(SvndiffVersion::V2) =~= seq![83u8, 86u8, 78u8, 2u8]);
}

} // verus!
