//! The svndiff format: integers, sections, window headers, instructions, and what
//! they mean.

use vstd::arithmetic::div_mod::lemma_fundamental_div_mod_converse;
use vstd::prelude::*;

use crate::error::{protocol, result_view, ErrorView, SvnError};
use crate::raw::copy_bytes;
use crate::text::cat;

verus! {

/// Most bytes that a window produces or reads from the source.
pub const DELTA_WINDOW_MAX: usize = 65536;

/// Most bytes that an encoded 64-bit integer takes.
pub const MAX_ENCODED_UINT_LEN: usize = 10;

/// Most bytes that the instructions of a window take.
pub const MAX_INSTRUCTION_SECTION_LEN: usize = 1376256;

/// The versions of the format: they differ in how sections are compressed.
#[derive(Clone, Copy, Debug, PartialEq, Eq, Structural)]
pub enum SvndiffVersion {
    /// Sections are stored as they are.
    V0,
    /// Sections are compressed with zlib.
    V1,
    /// Sections are compressed with LZ4.
    V2,
}

/// The number of the version, which is the last byte of a header.
pub open spec fn version_number(v: SvndiffVersion) -> u8 {
    match v {
        SvndiffVersion::V0 => 0,
        SvndiffVersion::V1 => 1,
        SvndiffVersion::V2 => 2,
    }
}

/// The four bytes that a delta begins with: `SVN` and the number of the version.
pub open spec fn header_bytes(v: SvndiffVersion) -> Seq<u8> {
    seq![83u8, 86u8, 78u8, version_number(v)]
}

/// The version that a header announces.
pub open spec fn header_version(header: Seq<u8>) -> Option<SvndiffVersion> {
    if header == header_bytes(SvndiffVersion::V0) {
        Some(SvndiffVersion::V0)
    } else if header == header_bytes(SvndiffVersion::V1) {
        Some(SvndiffVersion::V1)
    } else if header == header_bytes(SvndiffVersion::V2) {
        Some(SvndiffVersion::V2)
    } else {
        None
    }
}

impl SvndiffVersion {
    /// The version that a header announces.
    pub fn from_header(header: &[u8; 4]) -> (r: Option<SvndiffVersion>)
        ensures
            r == header_version(header@),
    {
        proof {
            assert forall|v: SvndiffVersion|
                header@ == header_bytes(v) <==> header@[0] == 83 && header@[1] == 86 && header@[2]
                    == 78 && header@[3] == version_number(v) by {
                if header@[0] == 83 && header@[1] == 86 && header@[2] == 78 && header@[3]
                    == version_number(v) {
                    assert(header@ =~= header_bytes(v));
                }
            }
        }
        if header[0] != 83 || header[1] != 86 || header[2] != 78 {
            return None;
        }
        if header[3] == 0 {
            Some(SvndiffVersion::V0)
        } else if header[3] == 1 {
            Some(SvndiffVersion::V1)
        } else if header[3] == 2 {
            Some(SvndiffVersion::V2)
        } else {
            None
        }
    }

    /// The four bytes that a delta of this version begins with.
    pub fn header(self) -> (r: Vec<u8>)
        ensures
            r@ == header_bytes(self),
    {
        let n: u8 = match self {
            SvndiffVersion::V0 => 0,
            SvndiffVersion::V1 => 1,
            SvndiffVersion::V2 => 2,
        };
        let r = vec![83u8, 86u8, 78u8, n];
        assert(r@ =~= header_bytes(self));
        r
    }
}

/// The index of the first byte from `i` on whose top bit is clear, or the length.
pub open spec fn uint_last(b: Seq<u8>, i: int) -> int
    decreases b.len() - i,
{
    if i < 0 || i >= b.len() {
        b.len() as int
    } else if b[i] < 128 {
        i
    } else {
        uint_last(b, i + 1)
    }
}

/// The number that base-128 digits stand for, the most significant first; only the
/// low seven bits of a byte count.
pub open spec fn base128(b: Seq<u8>) -> nat
    decreases b.len(),
{
    if b.len() == 0 {
        0
    } else {
        base128(b.drop_last()) * 128 + (b.last() % 128) as nat
    }
}

/// The integer that stands at `i`, and the index behind it. It ends with the first
/// byte whose top bit is clear; of a number that is too large, the low 64 bits are
/// taken. There is none if no such byte follows.
pub open spec fn uint_at(b: Seq<u8>, i: int) -> Option<(u64, int)> {
    let e = uint_last(b, i);
    if i < 0 || e >= b.len() {
        None
    } else {
        Some(((base128(b.subrange(i, e + 1)) % 0x1_0000_0000_0000_0000) as u64, e + 1))
    }
}

/// Where an integer ends.
pub proof fn lemma_uint_last(b: Seq<u8>, i: int)
    requires
        0 <= i <= b.len(),
    ensures
        i <= uint_last(b, i) <= b.len(),
        forall|k: int| i <= k < uint_last(b, i) ==> #[trigger] b[k] >= 128,
        uint_last(b, i) < b.len() ==> b[uint_last(b, i)] < 128,
    decreases b.len() - i,
{
    if i < b.len() && b[i] >= 128 {
        lemma_uint_last(b, i + 1);
    }
}

/// One more digit, with 64 bits kept.
proof fn lemma_next_digit(whole: nat, kept: u64, d: u8)
    requires
        kept == whole % 0x1_0000_0000_0000_0000,
        d < 128,
    ensures
        (kept % 0x200_0000_0000_0000) * 128 + d == (whole * 128 + d) % 0x1_0000_0000_0000_0000,
{
    let q = whole / 0x1_0000_0000_0000_0000;
    let p = kept as int / 0x200_0000_0000_0000;
    let r = kept as int % 0x200_0000_0000_0000;
    lemma_fundamental_div_mod_converse(
        whole * 128 + d,
        0x1_0000_0000_0000_0000,
        q * 128 + p,
        r * 128 + d,
    );
}

/// The integer at the index `from` of `input`, and the index behind it.
pub fn decode_uint_at(input: &[u8], from: usize) -> (r: Option<(u64, usize)>)
    requires
        from <= input@.len(),
    ensures
        match r {
            Some((v, e)) => uint_at(input@, from as int) == Some((v, e as int)) && from < e
                <= input@.len(),
            None => uint_at(input@, from as int) is None,
        },
{
    let mut val: u64 = 0;
    let mut i: usize = from;
    assert(input@.subrange(from as int, from as int).len() == 0);
    while i < input.len()
        invariant
            from <= i <= input.len(),
            uint_last(input@, i as int) == uint_last(input@, from as int),
            val == base128(input@.subrange(from as int, i as int)) % 0x1_0000_0000_0000_0000,
        decreases input.len() - i,
    {
        let b = input[i];
        proof {
            assert(input@.subrange(from as int, i + 1).drop_last() == input@.subrange(
                from as int,
                i as int,
            ));
            lemma_next_digit(
                base128(input@.subrange(from as int, i as int)),
                val,
                (b % 128) as u8,
            );
        }
        val = (val % 0x200_0000_0000_0000) * 128 + (b % 128) as u64;
        if b < 128 {
            return Some((val, i + 1));
        }
        i = i + 1;
    }
    None
}

/// Decodes the integer that `input` begins with: its value and its length. Since of
/// a number that is too large the low bits are taken, this never fails.
pub fn try_decode_uint(input: &[u8]) -> (r: Result<Option<(u64, usize)>, SvnError>)
    ensures
        match r {
            Ok(Some((v, e))) => uint_at(input@, 0) == Some((v, e as int)) && 0 < e <= input@.len(),
            Ok(None) => uint_at(input@, 0) is None,
            Err(_) => false,
        },
{
    Ok(decode_uint_at(input, 0))
}

/// What a window header says: where in the source the window looks, how many bytes
/// it produces, how long its two sections are, and how long the header itself is.
#[derive(Clone, Copy, Debug, PartialEq, Eq, Structural)]
pub struct WindowHeader {
    pub sview_offset: u64,
    pub sview_len: usize,
    pub tview_len: usize,
    pub ins_len: usize,
    pub new_len: usize,
    pub header_len: usize,
}

impl DeepView for WindowHeader {
    type V = WindowHeader;

    open spec fn deep_view(&self) -> WindowHeader {
        *self
    }
}

/// The five integers of a window header, and the index behind them.
pub open spec fn five_uints(b: Seq<u8>) -> Option<(u64, u64, u64, u64, u64, int)> {
    match uint_at(b, 0) {
        None => None,
        Some((v0, e0)) => match uint_at(b, e0) {
            None => None,
            Some((v1, e1)) => match uint_at(b, e1) {
                None => None,
                Some((v2, e2)) => match uint_at(b, e2) {
                    None => None,
                    Some((v3, e3)) => match uint_at(b, e3) {
                        None => None,
                        Some((v4, e4)) => Some((v0, v1, v2, v3, v4, e4)),
                    },
                },
            },
        },
    }
}

/// Reads the window header that `b` begins with: nothing while it is not complete,
/// and an error if the sizes that it announces are too large.
#[verifier::opaque]
pub open spec fn window_header(b: Seq<u8>) -> Result<Option<WindowHeader>, ErrorView> {
    match five_uints(b) {
        None => Ok(None),
        Some((offset, slen, tlen, ilen, nlen, end)) => if slen > usize::MAX {
            Err(ErrorView::Protocol("svndiff sview_len overflows usize"@))
        } else if tlen > usize::MAX {
            Err(ErrorView::Protocol("svndiff tview_len overflows usize"@))
        } else if ilen > usize::MAX {
            Err(ErrorView::Protocol("svndiff ins_len overflows usize"@))
        } else if nlen > usize::MAX {
            Err(ErrorView::Protocol("svndiff new_len overflows usize"@))
        } else if tlen > DELTA_WINDOW_MAX || slen > DELTA_WINDOW_MAX || nlen > DELTA_WINDOW_MAX
            + MAX_ENCODED_UINT_LEN || ilen > MAX_INSTRUCTION_SECTION_LEN {
            Err(ErrorView::Protocol("svndiff contains a too-large window"@))
        } else if offset + slen > u64::MAX {
            Err(ErrorView::Protocol("svndiff contains corrupt window header"@))
        } else {
            Ok(
                Some(
                    WindowHeader {
                        sview_offset: offset,
                        sview_len: slen as usize,
                        tview_len: tlen as usize,
                        ins_len: ilen as usize,
                        new_len: nlen as usize,
                        header_len: end as usize,
                    },
                ),
            )
        },
    }
}

/// Reads the window header that `input` begins with.
pub fn try_parse_window_header(input: &[u8]) -> (r: Result<Option<WindowHeader>, SvnError>)
    ensures
        result_view(r) == window_header(input@),
        r matches Ok(Some(h)) ==> 0 < h.header_len <= input@.len() && h.sview_offset + h.sview_len
            <= u64::MAX && h.ins_len <= MAX_INSTRUCTION_SECTION_LEN && h.new_len
            <= DELTA_WINDOW_MAX + MAX_ENCODED_UINT_LEN,
{
    reveal(window_header);
    let (sview_offset, e0) = match decode_uint_at(input, 0) {
        Some(p) => p,
        None => {
            return Ok(None);
        },
    };
    let (sview_len, e1) = match decode_uint_at(input, e0) {
        Some(p) => p,
        None => {
            return Ok(None);
        },
    };
    let (tview_len, e2) = match decode_uint_at(input, e1) {
        Some(p) => p,
        None => {
            return Ok(None);
        },
    };
    let (ins_len, e3) = match decode_uint_at(input, e2) {
        Some(p) => p,
        None => {
            return Ok(None);
        },
    };
    let (new_len, e4) = match decode_uint_at(input, e3) {
        Some(p) => p,
        None => {
            return Ok(None);
        },
    };
    if sview_len > usize::MAX as u64 {
        return Err(protocol("svndiff sview_len overflows usize"));
    }
    if tview_len > usize::MAX as u64 {
        return Err(protocol("svndiff tview_len overflows usize"));
    }
    if ins_len > usize::MAX as u64 {
        return Err(protocol("svndiff ins_len overflows usize"));
    }
    if new_len > usize::MAX as u64 {
        return Err(protocol("svndiff new_len overflows usize"));
    }
    if tview_len > DELTA_WINDOW_MAX as u64 || sview_len > DELTA_WINDOW_MAX as u64 || new_len > (
    DELTA_WINDOW_MAX + MAX_ENCODED_UINT_LEN) as u64 || ins_len > MAX_INSTRUCTION_SECTION_LEN as u64 {
        return Err(protocol("svndiff contains a too-large window"));
    }
    if sview_offset.checked_add(sview_len).is_none() {
        return Err(protocol("svndiff contains corrupt window header"));
    }
    Ok(
        Some(
            WindowHeader {
                sview_offset,
                sview_len: sview_len as usize,
                tview_len: tview_len as usize,
                ins_len: ins_len as usize,
                new_len: new_len as usize,
                header_len: e4,
            },
        ),
    )
}

/// What zlib makes of compressed bytes: the data, or the text of its error.
pub uninterp spec fn zlib_decoded(data: Seq<u8>) -> Result<Seq<u8>, Seq<char>>;

/// What LZ4 makes of a compressed block that should give `size` bytes: the data, or
/// the text of its error.
pub uninterp spec fn lz4_decoded(data: Seq<u8>, size: nat) -> Result<Seq<u8>, Seq<char>>;

/// What zlib compresses data to at a level from 0 to 9, or the text of its error.
pub uninterp spec fn zlib_encoded(data: Seq<u8>, level: u32) -> Result<Seq<u8>, Seq<char>>;

/// What LZ4 compresses data to. The compressor looks data up in tables whose layout depends
/// on the width of a pointer, under numbers that it reads from the data in the byte order
/// of the machine: the name stands for what it gives in one build, and no contract compares
/// builds.
pub uninterp spec fn lz4_encoded(data: Seq<u8>) -> Seq<u8>;

/// Decompressing succeeds and gives `data`.
pub open spec fn decoded_to(data: Seq<u8>) -> Result<Seq<u8>, Seq<char>> {
    Ok(data)
}

/// Decompresses with `flate2::read::ZlibDecoder`. The result is a function of the
/// bytes, here called `zlib_decoded`.
#[verifier::external_body]
fn zlib_decode(data: &[u8]) -> (r: Result<Vec<u8>, String>)
    ensures
        match r {
            Ok(v) => zlib_decoded(data@) == Ok::<Seq<u8>, Seq<char>>(v@),
            Err(m) => zlib_decoded(data@) == Err::<Seq<u8>, Seq<char>>(m@),
        },
{
    let mut decoder = flate2::read::ZlibDecoder::new(data);
    let mut out = Vec::new();
    match std::io::Read::read_to_end(&mut decoder, &mut out) {
        Ok(_) => Ok(out),
        Err(err) => Err(err.to_string()),
    }
}

/// Compresses with `flate2::write::ZlibEncoder`, at a level from 0 to 9. The result
/// is a function of the bytes and the level, here called `zlib_encoded`, and
/// decompressing it gives the bytes back.
#[verifier::external_body]
pub(crate) fn zlib_encode(data: &[u8], level: u32) -> (r: Result<Vec<u8>, String>)
    requires
        level <= 9,
    ensures
        match r {
            Ok(v) => zlib_encoded(data@, level) == Ok::<Seq<u8>, Seq<char>>(v@),
            Err(m) => zlib_encoded(data@, level) == Err::<Seq<u8>, Seq<char>>(m@),
        },
        r matches Ok(v) ==> zlib_decoded(v@) == decoded_to(data@),
{
    let level = flate2::Compression::new(level);
    let mut encoder = flate2::write::ZlibEncoder::new(Vec::new(), level);
    match std::io::Write::write_all(&mut encoder, data) {
        Ok(()) => encoder.finish().map_err(|err| err.to_string()),
        Err(err) => Err(err.to_string()),
    }
}

/// Decompresses a block with `lz4_flex::decompress`. The result is a function of the
/// bytes and of the size that is expected, here called `lz4_decoded`.
#[verifier::external_body]
fn lz4_decode(data: &[u8], size: usize) -> (r: Result<Vec<u8>, String>)
    requires
        size <= isize::MAX,
    ensures
        match r {
            Ok(v) => lz4_decoded(data@, size as nat) == Ok::<Seq<u8>, Seq<char>>(v@),
            Err(m) => lz4_decoded(data@, size as nat) == Err::<Seq<u8>, Seq<char>>(m@),
        },
{
    lz4_flex::decompress(data, size).map_err(|err| err.to_string())
}

/// Compresses to a block with `lz4_flex::compress`. The result is a function of the
/// bytes, here called `lz4_encoded`, and decompressing it, with the right size, gives
/// the bytes back.
#[verifier::external_body]
pub(crate) fn lz4_encode(data: &[u8]) -> (r: Vec<u8>)
    requires
        data@.len() <= DELTA_WINDOW_MAX,
    ensures
        r@ == lz4_encoded(data@),
        lz4_decoded(r@, data@.len()) == decoded_to(data@),
{
    lz4_flex::compress(data)
}

/// What a decompressor's result means for a section of `size` bytes, named `what`.
pub open spec fn unpacked(
    decoded: Result<Seq<u8>, Seq<char>>,
    size: nat,
    failed: Seq<char>,
    mismatch: Seq<char>,
) -> Result<Seq<u8>, ErrorView> {
    match decoded {
        Ok(data) => if data.len() == size {
            Ok(data)
        } else {
            Err(ErrorView::Protocol(mismatch))
        },
        Err(m) => Err(ErrorView::Protocol(failed + m)),
    }
}

/// The data of a section that is compressed with zlib: its size, then the data, as
/// they are if they have that size, and compressed otherwise.
pub open spec fn zlib_section(wire: Seq<u8>, limit: nat) -> Result<Seq<u8>, ErrorView> {
    match uint_at(wire, 0) {
        None => Err(ErrorView::Protocol("svndiff zlib section missing size"@)),
        Some((size, e)) => if size > usize::MAX {
            Err(ErrorView::Protocol("svndiff zlib size overflows usize"@))
        } else if size > limit {
            Err(ErrorView::Protocol("svndiff zlib section size too large"@))
        } else if wire.skip(e).len() == size {
            Ok(wire.skip(e))
        } else {
            unpacked(
                zlib_decoded(wire.skip(e)),
                size as nat,
                "svndiff zlib decode failed: "@,
                "svndiff zlib decoded length mismatch"@,
            )
        },
    }
}

/// The data of a section that is compressed with LZ4.
pub open spec fn lz4_section(wire: Seq<u8>, limit: nat) -> Result<Seq<u8>, ErrorView> {
    match uint_at(wire, 0) {
        None => Err(ErrorView::Protocol("svndiff lz4 section missing size"@)),
        Some((size, e)) => if size > usize::MAX {
            Err(ErrorView::Protocol("svndiff lz4 size overflows usize"@))
        } else if size > limit {
            Err(ErrorView::Protocol("svndiff lz4 section size too large"@))
        } else if wire.skip(e).len() == size {
            Ok(wire.skip(e))
        } else {
            unpacked(
                lz4_decoded(wire.skip(e), size as nat),
                size as nat,
                "svndiff lz4 decode failed: "@,
                "svndiff lz4 decoded length mismatch"@,
            )
        },
    }
}

/// The data of a section, of at most `limit` bytes.
pub open spec fn section(version: SvndiffVersion, wire: Seq<u8>, limit: nat) -> Result<
    Seq<u8>,
    ErrorView,
> {
    match version {
        SvndiffVersion::V0 => Ok(wire),
        SvndiffVersion::V1 => zlib_section(wire, limit),
        SvndiffVersion::V2 => lz4_section(wire, limit),
    }
}

/// The result is the bytes, or the error, that `s` says.
pub open spec fn bytes_result_is(
    r: Result<Vec<u8>, SvnError>,
    s: Result<Seq<u8>, ErrorView>,
) -> bool {
    match r {
        Ok(v) => s == Ok::<Seq<u8>, ErrorView>(v@),
        Err(e) => s == Err::<Seq<u8>, ErrorView>(e.deep_view()),
    }
}

fn copy_from(input: &[u8], from: usize) -> (r: Vec<u8>)
    requires
        from <= input@.len(),
    ensures
        r@ == input@.skip(from as int),
{
    let mut out: Vec<u8> = Vec::new();
    let mut i: usize = from;
    while i < input.len()
        invariant
            from <= i <= input.len(),
            out@ == input@.subrange(from as int, i as int),
        decreases input.len() - i,
    {
        out.push(input[i]);
        i = i + 1;
        assert(out@ == input@.subrange(from as int, i as int));
    }
    assert(out@ == input@.skip(from as int));
    out
}

/// Checks what a decompressor returned against the size that was announced.
pub fn check_unpacked(
    decoded: Result<Vec<u8>, String>,
    size: usize,
    failed: &str,
    mismatch: &str,
) -> (r: Result<Vec<u8>, SvnError>)
    ensures
        bytes_result_is(
            r,
            unpacked(
                match decoded {
                    Ok(v) => Ok(v@),
                    Err(m) => Err(m@),
                },
                size as nat,
                failed@,
                mismatch@,
            ),
        ),
{
    match decoded {
        Ok(data) => {
            if data.len() == size {
                Ok(data)
            } else {
                Err(protocol(mismatch))
            }
        },
        Err(m) => Err(SvnError::Protocol(cat(failed, &m))),
    }
}

fn decode_zlib_section(wire: &[u8], limit: usize) -> (r: Result<Vec<u8>, SvnError>)
    ensures
        bytes_result_is(r, zlib_section(wire@, limit as nat)),
{
    let (size, used) = match decode_uint_at(wire, 0) {
        Some(p) => p,
        None => {
            return Err(protocol("svndiff zlib section missing size"));
        },
    };
    if size > usize::MAX as u64 {
        return Err(protocol("svndiff zlib size overflows usize"));
    }
    if size > limit as u64 {
        return Err(protocol("svndiff zlib section size too large"));
    }
    let data = copy_from(wire, used);
    if data.len() == size as usize {
        return Ok(data);
    }
    check_unpacked(
        zlib_decode(&data),
        size as usize,
        "svndiff zlib decode failed: ",
        "svndiff zlib decoded length mismatch",
    )
}

fn decode_lz4_section(wire: &[u8], limit: usize) -> (r: Result<Vec<u8>, SvnError>)
    requires
        limit <= isize::MAX,
    ensures
        bytes_result_is(r, lz4_section(wire@, limit as nat)),
{
    let (size, used) = match decode_uint_at(wire, 0) {
        Some(p) => p,
        None => {
            return Err(protocol("svndiff lz4 section missing size"));
        },
    };
    if size > usize::MAX as u64 {
        return Err(protocol("svndiff lz4 size overflows usize"));
    }
    if size > limit as u64 {
        return Err(protocol("svndiff lz4 section size too large"));
    }
    let data = copy_from(wire, used);
    if data.len() == size as usize {
        return Ok(data);
    }
    check_unpacked(
        lz4_decode(&data, size as usize),
        size as usize,
        "svndiff lz4 decode failed: ",
        "svndiff lz4 decoded length mismatch",
    )
}

/// The data of a section, of at most `limit` bytes. The limit must be one that a
/// vector can hold.
pub fn decode_section(version: SvndiffVersion, wire: &[u8], limit: usize) -> (r: Result<
    Vec<u8>,
    SvnError,
>)
    requires
        limit <= isize::MAX,
    ensures
        bytes_result_is(r, section(version, wire@, limit as nat)),
{
    match version {
        SvndiffVersion::V0 => Ok(copy_bytes(wire)),
        SvndiffVersion::V1 => decode_zlib_section(wire, limit),
        SvndiffVersion::V2 => decode_lz4_section(wire, limit),
    }
}

/// Where the instructions of a window have got to: the next byte of the
/// instructions, the next byte of the new data, and the target bytes so far.
pub struct Progress {
    pub ipos: int,
    pub npos: int,
    pub target: Seq<u8>,
}

/// `target` with `len` bytes appended that are copied from the index `off` of
/// `target` itself, where a byte that was just appended may be copied in turn.
pub open spec fn copy_target(target: Seq<u8>, off: int, len: nat) -> Seq<u8>
    decreases len,
{
    if len == 0 {
        target
    } else {
        copy_target(target.push(target[off]), off + 1, (len - 1) as nat)
    }
}

/// The length that an instruction gives, and the index behind it: the low six bits of
/// its first byte, or, where those are zero, an integer.
pub open spec fn instruction_len(ins: Seq<u8>, ipos: int) -> Option<(u64, int)> {
    if ins[ipos] % 64 != 0 {
        Some(((ins[ipos] % 64) as u64, ipos + 1))
    } else {
        uint_at(ins, ipos + 1)
    }
}

/// One instruction: the top two bits of its first byte say whether to copy from the
/// source (0), from the target (1) or from the new data (2).
pub open spec fn instruction(
    source: Seq<u8>,
    tview_len: int,
    ins: Seq<u8>,
    new_data: Seq<u8>,
    at: Progress,
) -> Result<Progress, Seq<char>> {
    let action = ins[at.ipos] / 64;
    if action >= 3 {
        Err("svndiff invalid action"@)
    } else {
        match instruction_len(ins, at.ipos) {
            None => Err("svndiff instruction truncated length"@),
            Some((len, p)) => if len > usize::MAX {
                Err("svndiff length overflows usize"@)
            } else if len == 0 {
                Err("svndiff instruction has length zero"@)
            } else if at.target.len() + len > usize::MAX {
                Err("svndiff target size overflow"@)
            } else if at.target.len() + len > tview_len {
                Err("svndiff instruction overflows target view"@)
            } else if action == 0 {
                match uint_at(ins, p) {
                    None => Err("svndiff source instruction missing offset"@),
                    Some((off, q)) => if off > usize::MAX {
                        Err("svndiff offset overflows usize"@)
                    } else if off + len > source.len() {
                        Err("svndiff [src] instruction overflows source view"@)
                    } else {
                        Ok(
                            Progress {
                                ipos: q,
                                npos: at.npos,
                                target: at.target + source.subrange(off as int, off + len),
                            },
                        )
                    },
                }
            } else if action == 1 {
                match uint_at(ins, p) {
                    None => Err("svndiff target instruction missing offset"@),
                    Some((off, q)) => if off > usize::MAX {
                        Err("svndiff offset overflows usize"@)
                    } else if off >= at.target.len() {
                        Err("svndiff [tgt] instruction starts beyond target view position"@)
                    } else {
                        Ok(
                            Progress {
                                ipos: q,
                                npos: at.npos,
                                target: copy_target(at.target, off as int, len as nat),
                            },
                        )
                    },
                }
            } else {
                if at.npos + len > new_data.len() {
                    Err("svndiff [new] instruction overflows new data section"@)
                } else {
                    Ok(
                        Progress {
                            ipos: p,
                            npos: at.npos + len,
                            target: at.target + new_data.subrange(at.npos, at.npos + len),
                        },
                    )
                }
            },
        }
    }
}

/// The target bytes that the instructions from `at` on lead to. They must fill the
/// target view exactly and use up the new data.
pub open spec fn instructions_from(
    source: Seq<u8>,
    tview_len: int,
    ins: Seq<u8>,
    new_data: Seq<u8>,
    at: Progress,
) -> Result<Seq<u8>, Seq<char>>
    decreases ins.len() - at.ipos,
{
    if at.ipos >= ins.len() {
        if at.target.len() != tview_len {
            Err("svndiff delta does not fill the target window"@)
        } else if at.npos != new_data.len() {
            Err("svndiff delta does not contain enough new data"@)
        } else {
            Ok(at.target)
        }
    } else {
        match instruction(source, tview_len, ins, new_data, at) {
            Err(m) => Err(m),
            // An instruction takes at least one byte.
            Ok(next) => if next.ipos <= at.ipos {
                Ok(at.target)
            } else {
                instructions_from(source, tview_len, ins, new_data, next)
            },
        }
    }
}

/// The target bytes that a window's instructions produce.
pub open spec fn window_target(
    source: Seq<u8>,
    tview_len: int,
    ins: Seq<u8>,
    new_data: Seq<u8>,
) -> Result<Seq<u8>, ErrorView> {
    match instructions_from(
        source,
        tview_len,
        ins,
        new_data,
        Progress { ipos: 0, npos: 0, target: Seq::empty() },
    ) {
        Ok(t) => Ok(t),
        Err(m) => Err(ErrorView::Protocol(m)),
    }
}

/// Copying from the target adds as many bytes as asked for and keeps what was there.
pub proof fn lemma_copy_target(target: Seq<u8>, off: int, len: nat)
    requires
        0 <= off < target.len(),
    ensures
        copy_target(target, off, len).len() == target.len() + len,
        copy_target(target, off, len).take(target.len() as int) == target,
    decreases len,
{
    if len > 0 {
        let t = target.push(target[off]);
        lemma_copy_target(t, off + 1, (len - 1) as nat);
        let r = copy_target(target, off, len);
        assert(r.take(target.len() as int) =~= r.take(t.len() as int).take(target.len() as int));
    } else {
        assert(target.take(target.len() as int) == target);
    }
}

fn append_range(out: &mut Vec<u8>, data: &[u8], from: usize, len: usize)
    requires
        from + len <= data@.len(),
    ensures
        final(out)@ == old(out)@ + data@.subrange(from as int, from + len),
{
    let mut i: usize = 0;
    while i < len
        invariant
            i <= len,
            from + len <= data.len(),
            out@ == old(out)@ + data@.subrange(from as int, from + i),
        decreases len - i,
    {
        out.push(data[from + i]);
        i = i + 1;
        assert(out@ == old(out)@ + data@.subrange(from as int, from + i));
    }
}

fn append_from_target(target: &mut Vec<u8>, off: usize, len: usize)
    requires
        off < old(target)@.len(),
        old(target)@.len() + len <= usize::MAX,
    ensures
        final(target)@ == copy_target(old(target)@, off as int, len as nat),
{
    let mut i: usize = 0;
    while i < len
        invariant
            i <= len,
            off < old(target)@.len(),
            old(target)@.len() + len <= usize::MAX,
            target@.len() == old(target)@.len() + i,
            copy_target(target@, off + i, (len - i) as nat) == copy_target(
                old(target)@,
                off as int,
                len as nat,
            ),
        decreases len - i,
    {
        let b = target[off + i];
        target.push(b);
        i = i + 1;
    }
}

/// The target bytes that the instructions of a window produce from the source view
/// and the new data.
pub fn apply_window_source(
    source_view: &[u8],
    tview_len: usize,
    instructions: &[u8],
    new_data: &[u8],
) -> (r: Result<Vec<u8>, SvnError>)
    ensures
        bytes_result_is(
            r,
            window_target(source_view@, tview_len as int, instructions@, new_data@),
        ),
{
    let mut target: Vec<u8> = Vec::new();
    let mut ipos: usize = 0;
    let mut npos: usize = 0;
    let ghost all = instructions_from(
        source_view@,
        tview_len as int,
        instructions@,
        new_data@,
        Progress { ipos: 0, npos: 0, target: Seq::empty() },
    );
    while ipos < instructions.len()
        invariant
            ipos <= instructions.len(),
            npos <= new_data.len(),
            target@.len() <= tview_len,
            all == instructions_from(
                source_view@,
                tview_len as int,
                instructions@,
                new_data@,
                Progress { ipos: ipos as int, npos: npos as int, target: target@ },
            ),
            window_target(source_view@, tview_len as int, instructions@, new_data@) == (match all {
                Ok(t) => Ok::<Seq<u8>, ErrorView>(t),
                Err(m) => Err(ErrorView::Protocol(m)),
            }),
        decreases instructions.len() - ipos,
    {
        let ghost at = Progress { ipos: ipos as int, npos: npos as int, target: target@ };
        let selector = instructions[ipos];
        let action = selector / 64;
        if action >= 3 {
            return Err(protocol("svndiff invalid action"));
        }
        let mut p: usize = ipos + 1;
        let mut len64: u64 = (selector % 64) as u64;
        if len64 == 0 {
            match decode_uint_at(instructions, p) {
                None => {
                    return Err(protocol("svndiff instruction truncated length"));
                },
                Some((v, e)) => {
                    len64 = v;
                    p = e;
                },
            }
        }
        if len64 > usize::MAX as u64 {
            return Err(protocol("svndiff length overflows usize"));
        }
        let len: usize = len64 as usize;
        if len == 0 {
            return Err(protocol("svndiff instruction has length zero"));
        }
        match target.len().checked_add(len) {
            None => {
                return Err(protocol("svndiff target size overflow"));
            },
            Some(n) => {
                if n > tview_len {
                    return Err(protocol("svndiff instruction overflows target view"));
                }
            },
        }
        if action == 0 {
            let (off, q) = match decode_uint_at(instructions, p) {
                None => {
                    return Err(protocol("svndiff source instruction missing offset"));
                },
                Some(x) => x,
            };
            if off > usize::MAX as u64 {
                return Err(protocol("svndiff offset overflows usize"));
            }
            let off: usize = off as usize;
            if off > source_view.len() || len > source_view.len() - off {
                return Err(protocol("svndiff [src] instruction overflows source view"));
            }
            append_range(&mut target, source_view, off, len);
            ipos = q;
        } else if action == 1 {
            let (off, q) = match decode_uint_at(instructions, p) {
                None => {
                    return Err(protocol("svndiff target instruction missing offset"));
                },
                Some(x) => x,
            };
            if off > usize::MAX as u64 {
                return Err(protocol("svndiff offset overflows usize"));
            }
            let off: usize = off as usize;
            if off >= target.len() {
                return Err(
                    protocol("svndiff [tgt] instruction starts beyond target view position"),
                );
            }
            proof {
                lemma_copy_target(target@, off as int, len as nat);
            }
            append_from_target(&mut target, off, len);
            ipos = q;
        } else {
            if len > new_data.len() - npos {
                return Err(protocol("svndiff [new] instruction overflows new data section"));
            }
            append_range(&mut target, new_data, npos, len);
            npos = npos + len;
            ipos = p;
        }
        assert(instruction(source_view@, tview_len as int, instructions@, new_data@, at) == Ok::<
            Progress,
            Seq<char>,
        >(Progress { ipos: ipos as int, npos: npos as int, target: target@ }));
    }
    if target.len() != tview_len {
        return Err(protocol("svndiff delta does not fill the target window"));
    }
    if npos != new_data.len() {
        return Err(protocol("svndiff delta does not contain enough new data"));
    }
    Ok(target)
}

/// An integer that ends inside some bytes is the same when more bytes follow.
pub proof fn lemma_uint_extends(b: Seq<u8>, c: Seq<u8>, i: int)
    requires
        0 <= i,
        uint_at(b, i) is Some,
    ensures
        uint_at(b + c, i) == uint_at(b, i),
        uint_at(b, i) matches Some((v, e)) ==> i < e <= b.len(),
{
    lemma_uint_last_extends(b, c, i);
    lemma_uint_last(b, i);
    let e = uint_last(b, i);
    assert((b + c).subrange(i, e + 1) =~= b.subrange(i, e + 1));
}

proof fn lemma_uint_last_extends(b: Seq<u8>, c: Seq<u8>, i: int)
    requires
        0 <= i,
        uint_last(b, i) < b.len(),
    ensures
        uint_last(b + c, i) == uint_last(b, i),
        i <= uint_last(b, i),
    decreases b.len() - i,
{
    if i < b.len() && b[i] >= 128 {
        lemma_uint_last_extends(b, c, i + 1);
    }
}

/// A window header is incomplete exactly while one of its five integers is.
pub proof fn lemma_header_incomplete(b: Seq<u8>)
    ensures
        window_header(b) matches Ok(None) <==> five_uints(b) is None,
{
    reveal(window_header);
}

/// The sizes that a window header may announce.
pub proof fn lemma_header_sizes(b: Seq<u8>)
    ensures
        window_header(b) matches Ok(Some(h)) ==> h.sview_offset + h.sview_len <= u64::MAX
            && h.ins_len <= MAX_INSTRUCTION_SECTION_LEN && h.new_len <= DELTA_WINDOW_MAX
            + MAX_ENCODED_UINT_LEN,
{
    reveal(window_header);
}

/// A window header that is complete, or refused, stays so when more bytes follow.
pub proof fn lemma_header_extends(b: Seq<u8>, c: Seq<u8>)
    ensures
        !(window_header(b) matches Ok(None)) ==> window_header(b + c) == window_header(b),
        window_header(b) matches Ok(Some(h)) ==> (b.len() <= usize::MAX ==> 0 < h.header_len
            <= b.len()),
{
    reveal(window_header);
    if five_uints(b) is Some {
        lemma_uint_extends(b, c, 0);
        let e0 = (uint_at(b, 0)->0).1;
        lemma_uint_extends(b, c, e0);
        let e1 = (uint_at(b, e0)->0).1;
        lemma_uint_extends(b, c, e1);
        let e2 = (uint_at(b, e1)->0).1;
        lemma_uint_extends(b, c, e2);
        let e3 = (uint_at(b, e2)->0).1;
        lemma_uint_extends(b, c, e3);
        assert(five_uints(b + c) == five_uints(b));
    }
}

/// An integer that ends within some bytes is there without the bytes behind them.
pub proof fn lemma_uint_prefix(b: Seq<u8>, c: Seq<u8>, i: int)
    requires
        0 <= i,
        uint_at(b + c, i) matches Some((_, e)) && e <= b.len(),
    ensures
        uint_at(b, i) == uint_at(b + c, i),
        uint_at(b + c, i) matches Some((_, e)) ==> i < e,
{
    lemma_uint_last_prefix(b, c, i);
    let e = uint_last(b + c, i);
    assert((b + c).subrange(i, e + 1) =~= b.subrange(i, e + 1));
}

proof fn lemma_uint_last_prefix(b: Seq<u8>, c: Seq<u8>, i: int)
    requires
        0 <= i,
        uint_last(b + c, i) < b.len(),
    ensures
        uint_last(b, i) == uint_last(b + c, i),
        i <= uint_last(b, i),
    decreases (b + c).len() - i,
{
    if i < (b + c).len() && (b + c)[i] >= 128 {
        lemma_uint_last_prefix(b, c, i + 1);
    }
}

/// Five integers that end within fifty bytes are there in any part of more than fifty.
pub proof fn lemma_five_uints_prefix(b: Seq<u8>, c: Seq<u8>)
    requires
        b.len() > 50,
        five_uints(b + c) matches Some((_, _, _, _, _, e)) && e <= 50,
    ensures
        five_uints(b) == five_uints(b + c),
{
    let t = b + c;
    let e0 = (uint_at(t, 0)->0).1;
    let e1 = (uint_at(t, e0)->0).1;
    let e2 = (uint_at(t, e1)->0).1;
    let e3 = (uint_at(t, e2)->0).1;
    let e4 = (uint_at(t, e3)->0).1;
    lemma_uint_grows(t, 0);
    lemma_uint_grows(t, e0);
    lemma_uint_grows(t, e1);
    lemma_uint_grows(t, e2);
    lemma_uint_grows(t, e3);
    lemma_uint_prefix(b, c, 0);
    lemma_uint_prefix(b, c, e0);
    lemma_uint_prefix(b, c, e1);
    lemma_uint_prefix(b, c, e2);
    lemma_uint_prefix(b, c, e3);
}

/// An integer takes at least one byte.
pub proof fn lemma_uint_grows(b: Seq<u8>, i: int)
    requires
        0 <= i,
    ensures
        uint_at(b, i) matches Some((_, e)) ==> i < e <= b.len(),
{
    if i <= b.len() {
        lemma_uint_last(b, i);
    }
}

} // verus!
