//! Applying text deltas: a decoder that takes a delta in chunks, of any size, and
//! produces the bytes of the file that the delta describes.

use vstd::prelude::*;

use crate::error::{protocol, ErrorView, SvnError};
use crate::raw::copy_bytes;
use crate::svndiff::{
    apply_window_source, bytes_result_is, decode_section, five_uints, header_version,
    lemma_five_uints_prefix, lemma_header_extends, lemma_header_incomplete, lemma_header_sizes,
    section,
    try_parse_window_header, window_header, window_target, SvndiffVersion, WindowHeader,
    DELTA_WINDOW_MAX, MAX_ENCODED_UINT_LEN, MAX_INSTRUCTION_SECTION_LEN,
};

verus! {

/// Bytes that arrive at one end and are consumed at the other.
#[derive(Debug)]
pub struct CursorBuf {
    buf: Vec<u8>,
    start: usize,
}

impl CursorBuf {
    /// The bytes that were pushed and not consumed yet.
    pub closed spec fn bytes(self) -> Seq<u8> {
        self.buf@.skip(self.start as int)
    }

    /// The consumed bytes are among those that are held.
    pub closed spec fn wf(self) -> bool {
        self.start <= self.buf@.len()
    }

    /// An empty buffer.
    pub fn new() -> (r: CursorBuf)
        ensures
            r.wf(),
            r.bytes() == Seq::<u8>::empty(),
    {
        let r = CursorBuf { buf: Vec::new(), start: 0 };
        assert(r.bytes() =~= Seq::<u8>::empty());
        r
    }

    /// How many bytes are available.
    pub fn len(&self) -> (r: usize)
        requires
            self.wf(),
        ensures
            r == self.bytes().len(),
    {
        self.buf.len() - self.start
    }

    /// The bytes that were pushed and not consumed yet.
    pub fn available(&self) -> (r: &[u8])
        requires
            self.wf(),
        ensures
            r@ == self.bytes(),
    {
        let n = self.buf.len();
        let r = vstd::slice::slice_subrange(self.buf.as_slice(), self.start, n);
        assert(r@ =~= self.bytes());
        r
    }

    /// Adds bytes behind those that are held.
    pub fn push(&mut self, bytes: &[u8])
        requires
            old(self).wf(),
        ensures
            final(self).wf(),
            final(self).bytes() == old(self).bytes() + bytes@,
    {
        let mut i: usize = 0;
        while i < bytes.len()
            invariant
                i <= bytes.len(),
                self.wf(),
                self.start == old(self).start,
                self.buf@ == old(self).buf@ + bytes@.take(i as int),
            decreases bytes.len() - i,
        {
            self.buf.push(bytes[i]);
            i = i + 1;
            assert(self.buf@ =~= old(self).buf@ + bytes@.take(i as int));
        }
        assert(bytes@.take(i as int) == bytes@);
        assert(self.bytes() =~= old(self).bytes() + bytes@);
    }

    /// Drops the first `n` bytes, or all if there are not that many.
    pub fn consume(&mut self, n: usize)
        requires
            old(self).wf(),
        ensures
            final(self).wf(),
            n < old(self).bytes().len() ==> final(self).bytes() == old(self).bytes().skip(n as int),
            n >= old(self).bytes().len() ==> final(self).bytes() == Seq::<u8>::empty(),
    {
        if n >= self.buf.len() - self.start {
            self.buf.clear();
            self.start = 0;
            assert(self.bytes() =~= Seq::<u8>::empty());
            return;
        }
        self.start = self.start + n;
        assert(self.bytes() =~= old(self).bytes().skip(n as int));
        // Compacting now and then keeps a buffer that is consumed in small pieces
        // from growing without bound.
        if self.start > 4096 && self.start > self.buf.len() / 2 {
            let mut kept: Vec<u8> = Vec::new();
            let mut i: usize = self.start;
            while i < self.buf.len()
                invariant
                    self.start <= i <= self.buf.len(),
                    self.start <= self.buf@.len(),
                    kept@ == self.buf@.subrange(self.start as int, i as int),
                    self.bytes() == old(self).bytes().skip(n as int),
                decreases self.buf.len() - i,
            {
                kept.push(self.buf[i]);
                i = i + 1;
                assert(kept@ =~= self.buf@.subrange(self.start as int, i as int));
            }
            assert(kept@ =~= self.bytes());
            self.buf = kept;
            self.start = 0;
            assert(self.bytes() =~= kept@);
        }
    }
}

/// The state of a decoder: the header bytes so far, the bytes behind the header that
/// are not decoded yet, and the source view of the window before.
pub struct StreamView {
    pub header: Seq<u8>,
    pub rest: Seq<u8>,
    pub last_offset: u64,
    pub last_len: u64,
}

/// A window as it stands in a delta: its header and its two sections.
pub struct WindowParts {
    pub header: WindowHeader,
    pub instructions: Seq<u8>,
    pub new_data: Seq<u8>,
}

/// A window, with the version of the delta that it belongs to.
pub struct ParsedWindow {
    pub version: SvndiffVersion,
    pub header: WindowHeader,
    pub instructions: Vec<u8>,
    pub new_data: Vec<u8>,
}

impl ParsedWindow {
    /// The parts of the window.
    pub open spec fn parts(self) -> WindowParts {
        WindowParts {
            header: self.header,
            instructions: self.instructions@,
            new_data: self.new_data@,
        }
    }
}

impl StreamView {
    /// The state before any input.
    pub open spec fn start() -> StreamView {
        StreamView { header: Seq::empty(), rest: Seq::empty(), last_offset: 0, last_len: 0 }
    }

    /// The version that the header announces, once it is complete and known.
    pub open spec fn version(self) -> Option<SvndiffVersion> {
        if self.header.len() == 4 {
            header_version(self.header)
        } else {
            None
        }
    }

    /// The state after `chunk` has arrived: what the header lacks goes to the header,
    /// what is left goes behind the bytes to decode.
    pub open spec fn with_chunk(self, chunk: Seq<u8>) -> StreamView {
        let take = if 4 - self.header.len() < chunk.len() {
            4 - self.header.len()
        } else {
            chunk.len() as int
        };
        StreamView {
            header: self.header + chunk.take(take),
            rest: self.rest + chunk.skip(take),
            last_offset: self.last_offset,
            last_len: self.last_len,
        }
    }

    /// The state with another header.
    pub open spec fn with_header(self, header: Seq<u8>) -> StreamView {
        StreamView {
            header,
            rest: self.rest,
            last_offset: self.last_offset,
            last_len: self.last_len,
        }
    }

    /// `chunk` completes a header that announces no known version.
    pub open spec fn bad_header(self, chunk: Seq<u8>) -> bool {
        &&& self.header.len() < 4
        &&& self.header.len() + chunk.len() >= 4
        &&& header_version((self.header + chunk).take(4)) is None
    }

    /// How many bytes the window with this header takes.
    pub open spec fn window_len(h: WindowHeader) -> int {
        h.header_len + h.ins_len + h.new_len
    }

    /// The source view of the window begins or ends before that of the window before.
    pub open spec fn slides_back(self, h: WindowHeader) -> bool {
        &&& h.sview_len > 0
        &&& h.sview_offset < self.last_offset || h.sview_offset + h.sview_len < self.last_offset
            + self.last_len
    }

    /// The window that the bytes to decode begin with: none while it is not complete.
    pub open spec fn next_window(self) -> Result<Option<WindowParts>, ErrorView> {
        if self.version() is None {
            Ok(None)
        } else {
            match window_header(self.rest) {
                Err(e) => Err(e),
                Ok(None) => if self.rest.len() > 50 {
                    Err(ErrorView::Protocol("svndiff contains a too-large window header"@))
                } else {
                    Ok(None)
                },
                Ok(Some(h)) => if Self::window_len(h) > usize::MAX {
                    Err(ErrorView::Protocol("svndiff window size overflow"@))
                } else if self.rest.len() < Self::window_len(h) {
                    Ok(None)
                } else if self.slides_back(h) {
                    Err(ErrorView::Protocol("svndiff has backwards-sliding source views"@))
                } else {
                    Ok(
                        Some(
                            WindowParts {
                                header: h,
                                instructions: self.rest.subrange(
                                    h.header_len as int,
                                    h.header_len + h.ins_len,
                                ),
                                new_data: self.rest.subrange(
                                    h.header_len + h.ins_len,
                                    Self::window_len(h),
                                ),
                            },
                        ),
                    )
                },
            }
        }
    }

    /// The state behind the window with the header `h`.
    pub open spec fn after(self, h: WindowHeader) -> StreamView {
        StreamView {
            header: self.header,
            rest: self.rest.skip(Self::window_len(h)),
            last_offset: h.sview_offset,
            last_len: h.sview_len as u64,
        }
    }

    /// The state behind a window that is refused: it is consumed if only its source
    /// view is at fault, and otherwise stays.
    pub open spec fn after_failure(self) -> StreamView {
        match window_header(self.rest) {
            Ok(Some(h)) => if self.rest.len() >= Self::window_len(h) {
                StreamView {
                    header: self.header,
                    rest: self.rest.skip(Self::window_len(h)),
                    last_offset: self.last_offset,
                    last_len: self.last_len,
                }
            } else {
                self
            },
            _ => self,
        }
    }

    /// What the end of the input means: it may come before any input, or behind a
    /// window.
    pub open spec fn at_end(self) -> Result<(), ErrorView> {
        if self.header.len() == 0 {
            Ok(())
        } else if self.header.len() < 4 {
            Err(ErrorView::Protocol("unexpected end of svndiff input (missing header)"@))
        } else if self.rest.len() > 0 {
            Err(ErrorView::Protocol("unexpected end of svndiff input (truncated window)"@))
        } else {
            Ok(())
        }
    }
}

/// A decoder that takes a delta in chunks and gives out its windows.
#[derive(Debug)]
pub struct SvndiffStream {
    header: Vec<u8>,
    version: Option<SvndiffVersion>,
    buf: CursorBuf,
    pending_window: Option<WindowHeader>,
    last_sview_offset: u64,
    last_sview_len: u64,
}

impl View for SvndiffStream {
    type V = StreamView;

    closed spec fn view(&self) -> StreamView {
        StreamView {
            header: self.header@,
            rest: self.buf.bytes(),
            last_offset: self.last_sview_offset,
            last_len: self.last_sview_len,
        }
    }
}

impl SvndiffStream {
    /// The header has at most four bytes, nothing to decode is held before it is
    /// complete, and a header that was read ahead is the one that stands there.
    pub closed spec fn wf(self) -> bool {
        &&& self.buf.wf()
        &&& self.header@.len() <= 4
        &&& self.header@.len() < 4 ==> self.buf.bytes().len() == 0
        &&& self.version == self@.version()
        &&& self.pending_window matches Some(h) ==> self.version is Some && window_header(
            self.buf.bytes(),
        ) == Ok::<Option<WindowHeader>, ErrorView>(Some(h)) && 0 < h.header_len
            <= self.buf.bytes().len()
        &&& self.last_sview_offset + self.last_sview_len <= u64::MAX
    }

    /// A decoder that has seen nothing.
    pub fn new() -> (r: SvndiffStream)
        ensures
            r.wf(),
            r@ == StreamView::start(),
    {
        let r = SvndiffStream {
            header: Vec::new(),
            version: None,
            buf: CursorBuf::new(),
            pending_window: None,
            last_sview_offset: 0,
            last_sview_len: 0,
        };
        assert(r.header@ =~= Seq::<u8>::empty());
        r
    }

    /// Takes one chunk of the delta.
    pub fn push(&mut self, chunk: &[u8]) -> (r: Result<(), SvnError>)
        requires
            old(self).wf(),
        ensures
            match r {
                Ok(_) => !old(self)@.bad_header(chunk@) && final(self)@ == old(self)@.with_chunk(
                    chunk@,
                ) && final(self).wf(),
                Err(e) => old(self)@.bad_header(chunk@) && e.deep_view() == ErrorView::Protocol(
                    "svndiff has invalid header"@,
                ) && final(self)@ == old(self)@.with_header((old(self)@.header + chunk@).take(4))
                    && final(self).wf(),
            },
    {
        let mut i: usize = 0;
        let ghost take = old(self)@.with_chunk(chunk@).header.len() - old(self)@.header.len();
        while i < chunk.len() && self.header.len() < 4
            invariant
                i <= chunk.len(),
                i <= take,
                old(self).wf(),
                take == (if 4 - old(self).header@.len() < chunk@.len() {
                    4 - old(self).header@.len()
                } else {
                    chunk@.len() as int
                }),
                self.header@ == old(self).header@ + chunk@.take(i as int),
                self.version == old(self).version,
                self.buf == old(self).buf,
                self.pending_window == old(self).pending_window,
                self.last_sview_offset == old(self).last_sview_offset,
                self.last_sview_len == old(self).last_sview_len,
            decreases chunk.len() - i,
        {
            self.header.push(chunk[i]);
            i = i + 1;
            assert(self.header@ =~= old(self).header@ + chunk@.take(i as int));
        }
        assert(i == take);
        if i > 0 && self.header.len() == 4 {
            let header: [u8; 4] = [self.header[0], self.header[1], self.header[2], self.header[3]];
            assert(header@ =~= self.header@);
            assert(self.header@ =~= (old(self)@.header + chunk@).take(4));
            self.version = SvndiffVersion::from_header(&header);
            if self.version.is_none() {
                return Err(protocol("svndiff has invalid header"));
            }
        }
        proof {
            if old(self).header@.len() < 4 && old(self).header@.len() + chunk@.len() >= 4 {
                assert(self.header@ =~= (old(self)@.header + chunk@).take(4));
            }
        }
        let n = chunk.len();
        let input = vstd::slice::slice_subrange(chunk, i, n);
        assert(input@ =~= chunk@.skip(take));
        self.buf.push(input);
        proof {
            if let Some(h) = old(self).pending_window {
                lemma_header_extends(old(self).buf.bytes(), input@);
            }
            assert(self@.rest =~= old(self)@.with_chunk(chunk@).rest);
            assert(self@.header =~= old(self)@.with_chunk(chunk@).header);
        }
        Ok(())
    }

    /// Nothing has arrived: the delta, so far, leaves the base as it is.
    pub fn is_identity(&self) -> (r: bool)
        ensures
            r == (self@.header.len() == 0),
    {
        self.header.len() == 0
    }

    /// The next window, once it is complete.
    pub fn next_window(&mut self) -> (r: Result<Option<ParsedWindow>, SvnError>)
        requires
            old(self).wf(),
        ensures
            match r {
                Ok(Some(w)) => old(self)@.next_window() == Ok::<Option<WindowParts>, ErrorView>(
                    Some(w.parts()),
                ) && Some(w.version) == old(self)@.version() && final(self).wf() && final(self)@
                    == old(self)@.after(w.header) && final(self)@.rest.len() < old(self)@.rest.len(),
                Ok(None) => old(self)@.next_window() == Ok::<Option<WindowParts>, ErrorView>(None)
                    && final(self).wf() && final(self)@ == old(self)@,
                Err(e) => old(self)@.next_window() == Err::<Option<WindowParts>, ErrorView>(
                    e.deep_view(),
                ) && final(self)@ == old(self)@.after_failure() && final(self).wf(),
            },
    {
        let version = match self.version {
            Some(v) => v,
            None => {
                return Ok(None);
            },
        };
        let window = match self.pending_window {
            Some(h) => h,
            None => {
                let avail = self.buf.available();
                match try_parse_window_header(avail) {
                    Err(e) => {
                        return Err(e);
                    },
                    Ok(None) => {
                        if avail.len() > 5 * MAX_ENCODED_UINT_LEN {
                            return Err(protocol("svndiff contains a too-large window header"));
                        }
                        return Ok(None);
                    },
                    Ok(Some(h)) => h,
                }
            },
        };
        self.pending_window = Some(window);
        proof {
            lemma_header_sizes(self@.rest);
        }
        let held: usize = self.buf.len();
        assert(held == self@.rest.len());
        let sections: usize = window.ins_len + window.new_len;
        let needed: usize = match window.header_len.checked_add(sections) {
            Some(n) => n,
            None => {
                return Err(protocol("svndiff window size overflow"));
            },
        };
        let avail = self.buf.available();
        if avail.len() < needed {
            return Ok(None);
        }
        let base = window.header_len;
        let middle: usize = base + window.ins_len;
        let instructions = copy_bytes(vstd::slice::slice_subrange(avail, base, middle));
        let new_data = copy_bytes(vstd::slice::slice_subrange(avail, middle, needed));
        self.buf.consume(needed);
        self.pending_window = None;
        assert(self.buf.bytes() =~= old(self).buf.bytes().skip(needed as int));
        if window.sview_len > 0 {
            let end: u64 = window.sview_offset + window.sview_len as u64;
            let last_end: u64 = self.last_sview_offset + self.last_sview_len;
            if window.sview_offset < self.last_sview_offset || end < last_end {
                return Err(protocol("svndiff has backwards-sliding source views"));
            }
        }
        self.last_sview_offset = window.sview_offset;
        self.last_sview_len = window.sview_len as u64;
        Ok(Some(ParsedWindow { version, header: window, instructions, new_data }))
    }

    /// The input has ended.
    pub fn finish(&self) -> (r: Result<(), SvnError>)
        requires
            self.wf(),
        ensures
            match r {
                Ok(_) => self@.at_end() is Ok,
                Err(e) => self@.at_end() == Err::<(), ErrorView>(e.deep_view()),
            },
    {
        if self.is_identity() {
            return Ok(());
        }
        if self.header.len() < 4 {
            return Err(protocol("unexpected end of svndiff input (missing header)"));
        }
        if self.pending_window.is_some() || self.buf.len() > 0 {
            return Err(protocol("unexpected end of svndiff input (truncated window)"));
        }
        Ok(())
    }
}

/// What a window produces, given the data of its sections: its source view must lie
/// inside the base.
pub open spec fn window_output(
    base: Seq<u8>,
    h: WindowHeader,
    instructions: Seq<u8>,
    new_data: Seq<u8>,
) -> Result<Seq<u8>, ErrorView> {
    if h.sview_offset > usize::MAX {
        Err(ErrorView::Protocol("svndiff source view offset overflows usize"@))
    } else if h.sview_offset + h.sview_len > usize::MAX {
        Err(ErrorView::Protocol("svndiff source view end overflow"@))
    } else if h.sview_offset + h.sview_len > base.len() {
        Err(ErrorView::Protocol("svndiff source view out of bounds for base"@))
    } else {
        window_target(
            base.subrange(h.sview_offset as int, h.sview_offset + h.sview_len),
            h.tview_len as int,
            instructions,
            new_data,
        )
    }
}

/// What a window of a delta produces.
#[verifier::opaque]
pub open spec fn window_data(base: Seq<u8>, version: SvndiffVersion, w: WindowParts) -> Result<
    Seq<u8>,
    ErrorView,
> {
    match section(version, w.instructions, MAX_INSTRUCTION_SECTION_LEN as nat) {
        Err(e) => Err(e),
        Ok(instructions) => match section(version, w.new_data, DELTA_WINDOW_MAX as nat) {
            Err(e) => Err(e),
            Ok(new_data) => window_output(base, w.header, instructions, new_data),
        },
    }
}

/// What a decoder has done: the bytes that it produced, the state that it is in, and
/// whether it went well.
pub struct Decoded {
    pub out: Seq<u8>,
    pub state: StreamView,
    pub result: Result<(), ErrorView>,
}

/// Decodes the windows that are complete, one after the other.
pub open spec fn decode_windows(base: Seq<u8>, s: StreamView) -> Decoded
    decreases s.rest.len(),
{
    match s.next_window() {
        Err(e) => Decoded { out: Seq::empty(), state: s.after_failure(), result: Err(e) },
        Ok(None) => Decoded { out: Seq::empty(), state: s, result: Ok(()) },
        Ok(Some(w)) => {
            let next = s.after(w.header);
            match window_data(base, s.version()->0, w) {
                Err(e) => Decoded { out: Seq::empty(), state: next, result: Err(e) },
                // A window takes at least one byte.
                Ok(data) => if next.rest.len() >= s.rest.len() {
                    Decoded { out: data, state: next, result: Ok(()) }
                } else {
                    let more = decode_windows(base, next);
                    Decoded { out: data + more.out, state: more.state, result: more.result }
                },
            }
        },
    }
}

/// Takes one chunk, and decodes the windows that are then complete.
pub open spec fn take_chunk(base: Seq<u8>, s: StreamView, chunk: Seq<u8>) -> Decoded {
    if s.bad_header(chunk) {
        Decoded {
            out: Seq::empty(),
            state: s.with_header((s.header + chunk).take(4)),
            result: Err(ErrorView::Protocol("svndiff has invalid header"@)),
        }
    } else {
        decode_windows(base, s.with_chunk(chunk))
    }
}

/// Takes chunks, one after the other, up to the first failure.
pub open spec fn take_chunks(base: Seq<u8>, s: StreamView, chunks: Seq<Seq<u8>>) -> Decoded
    decreases chunks.len(),
{
    if chunks.len() == 0 {
        Decoded { out: Seq::empty(), state: s, result: Ok(()) }
    } else {
        let d = take_chunk(base, s, chunks[0]);
        match d.result {
            Err(_) => d,
            Ok(_) => {
                let more = take_chunks(base, d.state, chunks.drop_first());
                Decoded { out: d.out + more.out, state: more.state, result: more.result }
            },
        }
    }
}

/// What the end of the input adds: the base itself, if the delta was empty.
pub open spec fn at_end_output(base: Seq<u8>, s: StreamView) -> Seq<u8> {
    if s.header.len() == 0 {
        base
    } else {
        Seq::empty()
    }
}

/// What a whole delta, given in chunks, makes of a base: the bytes written, and
/// whether it went well.
pub open spec fn apply_delta(base: Seq<u8>, chunks: Seq<Seq<u8>>) -> (Seq<u8>, Result<
    (),
    ErrorView,
>) {
    let d = take_chunks(base, StreamView::start(), chunks);
    match d.result {
        Err(e) => (d.out, Err(e)),
        Ok(_) => (d.out + at_end_output(base, d.state), d.state.at_end()),
    }
}

/// The result is the one that `s` says.
pub open spec fn unit_result_is(r: Result<(), SvnError>, s: Result<(), ErrorView>) -> bool {
    match r {
        Ok(_) => s is Ok,
        Err(e) => s == Err::<(), ErrorView>(e.deep_view()),
    }
}

fn append(out: &mut Vec<u8>, data: &[u8])
    ensures
        final(out)@ == old(out)@ + data@,
{
    let mut i: usize = 0;
    while i < data.len()
        invariant
            i <= data.len(),
            out@ == old(out)@ + data@.take(i as int),
        decreases data.len() - i,
    {
        out.push(data[i]);
        i = i + 1;
        assert(out@ =~= old(out)@ + data@.take(i as int));
    }
    assert(data@.take(i as int) == data@);
}

/// What a window produces, given the data of its sections.
pub fn apply_window(
    base: &[u8],
    window: &WindowHeader,
    instructions: &[u8],
    new_data: &[u8],
) -> (r: Result<Vec<u8>, SvnError>)
    ensures
        bytes_result_is(r, window_output(base@, *window, instructions@, new_data@)),
{
    if window.sview_offset > usize::MAX as u64 {
        return Err(protocol("svndiff source view offset overflows usize"));
    }
    let sview_offset: usize = window.sview_offset as usize;
    let sview_end: usize = match sview_offset.checked_add(window.sview_len) {
        Some(e) => e,
        None => {
            return Err(protocol("svndiff source view end overflow"));
        },
    };
    if sview_end > base.len() {
        return Err(protocol("svndiff source view out of bounds for base"));
    }
    let source_view = vstd::slice::slice_subrange(base, sview_offset, sview_end);
    apply_window_source(source_view, window.tview_len, instructions, new_data)
}

/// The data of the two sections of a window.
pub open spec fn window_sections(version: SvndiffVersion, w: WindowParts) -> Result<
    (Seq<u8>, Seq<u8>),
    ErrorView,
> {
    match section(version, w.instructions, MAX_INSTRUCTION_SECTION_LEN as nat) {
        Err(e) => Err(e),
        Ok(instructions) => match section(version, w.new_data, DELTA_WINDOW_MAX as nat) {
            Err(e) => Err(e),
            Ok(new_data) => Ok((instructions, new_data)),
        },
    }
}

impl ParsedWindow {
    /// The data of the two sections: the instructions, and the new data.
    pub fn sections(&self) -> (r: Result<(Vec<u8>, Vec<u8>), SvnError>)
        ensures
            match r {
                Ok((i, n)) => window_sections(self.version, self.parts()) == Ok::<
                    (Seq<u8>, Seq<u8>),
                    ErrorView,
                >((i@, n@)),
                Err(e) => window_sections(self.version, self.parts()) == Err::<
                    (Seq<u8>, Seq<u8>),
                    ErrorView,
                >(e.deep_view()),
            },
    {
        let instructions = match decode_section(
            self.version,
            &self.instructions,
            MAX_INSTRUCTION_SECTION_LEN,
        ) {
            Ok(v) => v,
            Err(e) => {
                return Err(e);
            },
        };
        match decode_section(self.version, &self.new_data, DELTA_WINDOW_MAX) {
            Ok(new_data) => Ok((instructions, new_data)),
            Err(e) => Err(e),
        }
    }
}

/// What a window of a delta produces.
pub fn decode_window(base: &[u8], window: &ParsedWindow) -> (r: Result<Vec<u8>, SvnError>)
    ensures
        bytes_result_is(r, window_data(base@, window.version, window.parts())),
{
    reveal(window_data);
    match window.sections() {
        Ok((instructions, new_data)) => apply_window(
            base,
            &window.header,
            &instructions,
            &new_data,
        ),
        Err(e) => Err(e),
    }
}

/// Takes one chunk of a delta and appends what it produces to `out`.
fn push_chunk(stream: &mut SvndiffStream, base: &[u8], chunk: &[u8], out: &mut Vec<u8>) -> (r:
    Result<(), SvnError>)
    requires
        old(stream).wf(),
    ensures
        final(stream).wf(),
        final(stream)@ == take_chunk(base@, old(stream)@, chunk@).state,
        final(out)@ == old(out)@ + take_chunk(base@, old(stream)@, chunk@).out,
        unit_result_is(r, take_chunk(base@, old(stream)@, chunk@).result),
{
    let ghost goal = take_chunk(base@, old(stream)@, chunk@);
    match stream.push(chunk) {
        Err(e) => {
            assert(out@ =~= old(out)@ + goal.out);
            return Err(e);
        },
        Ok(_) => {},
    }
    let ghost mut done: Seq<u8> = Seq::empty();
    assert(done + goal.out =~= goal.out);
    loop
        invariant
            stream.wf(),
            out@ == old(out)@ + done,
            goal == take_chunk(base@, old(stream)@, chunk@),
            goal.out == done + decode_windows(base@, stream@).out,
            goal.state == decode_windows(base@, stream@).state,
            goal.result == decode_windows(base@, stream@).result,
        decreases stream@.rest.len(),
    {
        let ghost before = stream@;
        match stream.next_window() {
            Err(e) => {
                assert(done + Seq::<u8>::empty() =~= done);
                return Err(e);
            },
            Ok(None) => {
                assert(done + Seq::<u8>::empty() =~= done);
                return Ok(());
            },
            Ok(Some(w)) => {
                match decode_window(base, &w) {
                    Err(e) => {
                        assert(done + Seq::<u8>::empty() =~= done);
                        return Err(e);
                    },
                    Ok(data) => {
                        append(out, &data);
                        proof {
                            let more = decode_windows(base@, stream@).out;
                            assert(done + (data@ + more) =~= (done + data@) + more);
                            assert((old(out)@ + done) + data@ =~= old(out)@ + (done + data@));
                            done = done + data@;
                        }
                    },
                }
            },
        }
    }
}

/// Applies a delta to a base, chunk by chunk.
pub struct TextDeltaApplier<'a> {
    base: &'a [u8],
    stream: SvndiffStream,
}

impl<'a> TextDeltaApplier<'a> {
    /// The base that the delta is applied to.
    pub closed spec fn base(self) -> Seq<u8> {
        self.base@
    }

    /// How far the delta has been decoded.
    pub closed spec fn state(self) -> StreamView {
        self.stream@
    }

    /// The decoder is well formed.
    pub closed spec fn wf(self) -> bool {
        self.stream.wf()
    }

    /// An applier for `base`.
    pub fn new(base: &'a [u8]) -> (r: TextDeltaApplier<'a>)
        ensures
            r.wf(),
            r.base() == base@,
            r.state() == StreamView::start(),
    {
        TextDeltaApplier { base, stream: SvndiffStream::new() }
    }

    /// Takes one chunk, and appends the output of the windows that it completes.
    pub fn push(&mut self, chunk: &[u8], out: &mut Vec<u8>) -> (r: Result<(), SvnError>)
        requires
            old(self).wf(),
        ensures
            final(self).wf(),
            final(self).base() == old(self).base(),
            final(self).state() == take_chunk(old(self).base(), old(self).state(), chunk@).state,
            final(out)@ == old(out)@ + take_chunk(old(self).base(), old(self).state(), chunk@).out,
            unit_result_is(r, take_chunk(old(self).base(), old(self).state(), chunk@).result),
    {
        push_chunk(&mut self.stream, self.base, chunk, out)
    }

    /// Ends the delta. One that was empty leaves the base as it is.
    pub fn finish(self, out: &mut Vec<u8>) -> (r: Result<(), SvnError>)
        requires
            self.wf(),
        ensures
            final(out)@ == old(out)@ + at_end_output(self.base(), self.state()),
            unit_result_is(r, self.state().at_end()),
    {
        if self.stream.is_identity() {
            append(out, self.base);
            return Ok(());
        }
        assert(out@ =~= old(out)@ + Seq::<u8>::empty());
        self.stream.finish()
    }
}

/// Applies a delta to a base, chunk by chunk, for consumers that cannot wait.
pub struct TextDeltaApplierSync<'a> {
    base: &'a [u8],
    stream: SvndiffStream,
}

impl<'a> TextDeltaApplierSync<'a> {
    /// The base that the delta is applied to.
    pub closed spec fn base(self) -> Seq<u8> {
        self.base@
    }

    /// How far the delta has been decoded.
    pub closed spec fn state(self) -> StreamView {
        self.stream@
    }

    /// The decoder is well formed.
    pub closed spec fn wf(self) -> bool {
        self.stream.wf()
    }

    /// An applier for `base`.
    pub fn new(base: &'a [u8]) -> (r: TextDeltaApplierSync<'a>)
        ensures
            r.wf(),
            r.base() == base@,
            r.state() == StreamView::start(),
    {
        TextDeltaApplierSync { base, stream: SvndiffStream::new() }
    }

    /// Takes one chunk, and appends the output of the windows that it completes.
    pub fn push(&mut self, chunk: &[u8], out: &mut Vec<u8>) -> (r: Result<(), SvnError>)
        requires
            old(self).wf(),
        ensures
            final(self).wf(),
            final(self).base() == old(self).base(),
            final(self).state() == take_chunk(old(self).base(), old(self).state(), chunk@).state,
            final(out)@ == old(out)@ + take_chunk(old(self).base(), old(self).state(), chunk@).out,
            unit_result_is(r, take_chunk(old(self).base(), old(self).state(), chunk@).result),
    {
        push_chunk(&mut self.stream, self.base, chunk, out)
    }

    /// Ends the delta. One that was empty leaves the base as it is.
    pub fn finish(self, out: &mut Vec<u8>) -> (r: Result<(), SvnError>)
        requires
            self.wf(),
        ensures
            final(out)@ == old(out)@ + at_end_output(self.base(), self.state()),
            unit_result_is(r, self.state().at_end()),
    {
        if self.stream.is_identity() {
            append(out, self.base);
            return Ok(());
        }
        assert(out@ =~= old(out)@ + Seq::<u8>::empty());
        self.stream.finish()
    }
}

/// The bytes of each chunk.
pub open spec fn chunks_view(chunks: Seq<Vec<u8>>) -> Seq<Seq<u8>> {
    chunks.map_values(|c: Vec<u8>| c@)
}

/// Applies a delta, given in chunks, to `base`, and appends the result to `out`.
pub fn apply_textdelta_sync(base: &[u8], chunks: &[Vec<u8>], out: &mut Vec<u8>) -> (r: Result<
    (),
    SvnError,
>)
    ensures
        final(out)@ == old(out)@ + apply_delta(base@, chunks_view(chunks@)).0,
        unit_result_is(r, apply_delta(base@, chunks_view(chunks@)).1),
{
    let mut applier = TextDeltaApplierSync::new(base);
    let ghost views = chunks_view(chunks@);
    let ghost goal = take_chunks(base@, StreamView::start(), views);
    let ghost mut done: Seq<u8> = Seq::empty();
    let mut i: usize = 0;
    assert(views.skip(0) =~= views);
    assert(done + goal.out =~= goal.out);
    while i < chunks.len()
        invariant
            i <= chunks.len(),
            applier.wf(),
            applier.base() == base@,
            views == chunks_view(chunks@),
            goal == take_chunks(base@, StreamView::start(), views),
            out@ == old(out)@ + done,
            goal.out == done + take_chunks(base@, applier.state(), views.skip(i as int)).out,
            goal.state == take_chunks(base@, applier.state(), views.skip(i as int)).state,
            goal.result == take_chunks(base@, applier.state(), views.skip(i as int)).result,
        decreases chunks.len() - i,
    {
        let ghost before = applier.state();
        let ghost d = take_chunk(base@, before, views[i as int]);
        assert(views.skip(i as int)[0] == chunks@[i as int]@);
        assert(views.skip(i as int).drop_first() =~= views.skip(i + 1));
        proof {
            let more = take_chunks(base@, d.state, views.skip(i + 1)).out;
            assert(done + (d.out + more) =~= (done + d.out) + more);
            assert((old(out)@ + done) + d.out =~= old(out)@ + (done + d.out));
        }
        match applier.push(&chunks[i], out) {
            Err(e) => {
                return Err(e);
            },
            Ok(_) => {},
        }
        proof {
            done = done + d.out;
        }
        i = i + 1;
    }
    proof {
        assert(views.skip(i as int).len() == 0);
        assert(done + Seq::<u8>::empty() =~= done);
        let tail = at_end_output(base@, applier.state());
        assert((old(out)@ + done) + tail =~= old(out)@ + (done + tail));
    }
    applier.finish(out)
}

/// Applies a delta, given in chunks, to `base`, and appends the result to `out`.
pub fn apply_textdelta(base: &[u8], chunks: &[Vec<u8>], out: &mut Vec<u8>) -> (r: Result<
    (),
    SvnError,
>)
    ensures
        final(out)@ == old(out)@ + apply_delta(base@, chunks_view(chunks@)).0,
        unit_result_is(r, apply_delta(base@, chunks_view(chunks@)).1),
{
    apply_textdelta_sync(base, chunks, out)
}

/// The part of a base file of `base_len` bytes that a window looks at: its offset and
/// its length, none for a window that looks at nothing, and an error where the window
/// looks beyond the file.
pub open spec fn source_range(h: WindowHeader, base_len: u64) -> Result<
    Option<(u64, usize)>,
    ErrorView,
> {
    if h.sview_len == 0 {
        Ok(None)
    } else if h.sview_offset + h.sview_len > u64::MAX {
        Err(ErrorView::Protocol("svndiff source view overflow"@))
    } else if h.sview_offset + h.sview_len > base_len {
        Err(ErrorView::Protocol("svndiff source view out of bounds for base"@))
    } else {
        Ok(Some((h.sview_offset, h.sview_len)))
    }
}

/// The part of a base file of `base_len` bytes that a window looks at.
pub fn source_view_range(window: &WindowHeader, base_len: u64) -> (r: Result<
    Option<(u64, usize)>,
    SvnError,
>)
    ensures
        match r {
            Ok(x) => source_range(*window, base_len) == Ok::<Option<(u64, usize)>, ErrorView>(x),
            Err(e) => source_range(*window, base_len) == Err::<Option<(u64, usize)>, ErrorView>(
                e.deep_view(),
            ),
        },
{
    if window.sview_len == 0 {
        return Ok(None);
    }
    let end: u64 = match window.sview_offset.checked_add(window.sview_len as u64) {
        Some(e) => e,
        None => {
            return Err(protocol("svndiff source view overflow"));
        },
    };
    if end > base_len {
        return Err(protocol("svndiff source view out of bounds for base"));
    }
    Ok(Some((window.sview_offset, window.sview_len)))
}

/// Of a base that stands in a file, the part that `source_view_range` names is all that a
/// window needs.
pub proof fn source_view_is_enough(
    base: Seq<u8>,
    h: WindowHeader,
    instructions: Seq<u8>,
    new_data: Seq<u8>,
)
    requires
        base.len() <= usize::MAX,
        source_range(h, base.len() as u64) matches Ok(Some(_)),
    ensures
        ({
            let (offset, len) = source_range(h, base.len() as u64)->Ok_0->0;
            window_output(base, h, instructions, new_data) == window_target(
                base.subrange(offset as int, offset + len),
                h.tview_len as int,
                instructions,
                new_data,
            )
        }),
{
}

impl StreamView {
    /// The state when more bytes have arrived behind a complete header.
    pub open spec fn with_more(self, c: Seq<u8>) -> StreamView {
        StreamView {
            header: self.header,
            rest: self.rest + c,
            last_offset: self.last_offset,
            last_len: self.last_len,
        }
    }
}

/// No window header is still incomplete after fifty bytes.
pub open spec fn headers_in_time(rest: Seq<u8>) -> bool
    decreases rest.len(),
{
    match window_header(rest) {
        Err(_) => true,
        Ok(None) => rest.len() <= 50,
        Ok(Some(h)) => if 0 < StreamView::window_len(h) <= rest.len() {
            headers_in_time(rest.skip(StreamView::window_len(h)))
        } else {
            true
        },
    }
}

/// What bytes that arrive later do: the windows that were complete are decoded as
/// they were, and decoding goes on where it stopped.
pub proof fn lemma_decode_more(base: Seq<u8>, s: StreamView, c: Seq<u8>)
    requires
        s.version() is Some,
        headers_in_time(s.rest),
        s.rest.len() <= usize::MAX,
    ensures
        ({
            let d = decode_windows(base, s);
            let whole = decode_windows(base, s.with_more(c));
            match d.result {
                Err(e) => whole.result == Err::<(), ErrorView>(e) && whole.out == d.out,
                Ok(_) => {
                    let more = decode_windows(base, d.state.with_more(c));
                    &&& whole.out == d.out + more.out
                    &&& whole.state == more.state
                    &&& whole.result == more.result
                },
            }
        }),
    decreases s.rest.len(),
{
    lemma_header_extends(s.rest, c);
    let t = s.with_more(c);
    match window_header(s.rest) {
        Err(_) => {},
        Ok(None) => {
            let more = decode_windows(base, t);
            assert(Seq::<u8>::empty() + more.out =~= more.out);
        },
        Ok(Some(h)) => {
            let n = StreamView::window_len(h);
            if n > usize::MAX {
            } else if s.rest.len() < n {
                let more = decode_windows(base, t);
                assert(Seq::<u8>::empty() + more.out =~= more.out);
            } else if s.slides_back(h) {
            } else {
                assert(t.rest.subrange(h.header_len as int, h.header_len + h.ins_len)
                    =~= s.rest.subrange(h.header_len as int, h.header_len + h.ins_len));
                assert(t.rest.subrange(h.header_len + h.ins_len, n) =~= s.rest.subrange(
                    h.header_len + h.ins_len,
                    n,
                ));
                let w = WindowParts {
                    header: h,
                    instructions: s.rest.subrange(
                        h.header_len as int,
                        h.header_len + h.ins_len,
                    ),
                    new_data: s.rest.subrange(h.header_len + h.ins_len, n),
                };
                assert(s.next_window() == Ok::<Option<WindowParts>, ErrorView>(Some(w)));
                assert(t.next_window() == Ok::<Option<WindowParts>, ErrorView>(Some(w)));
                let next = s.after(h);
                assert(t.after(h).rest =~= next.rest + c);
                assert(t.after(h) == next.with_more(c));
                match window_data(base, s.version()->0, w) {
                    Err(_) => {},
                    Ok(data) => {
                        lemma_decode_more(base, next, c);
                        let d = decode_windows(base, next);
                        let more = decode_windows(base, d.state.with_more(c));
                        assert(data + (d.out + more.out) =~= (data + d.out) + more.out);
                    },
                }
            }
        },
    }
}

/// The bytes of all chunks, in order.
pub open spec fn joined(chunks: Seq<Seq<u8>>) -> Seq<u8>
    decreases chunks.len(),
{
    if chunks.len() == 0 {
        Seq::empty()
    } else {
        chunks[0] + joined(chunks.drop_first())
    }
}

/// Every window header is complete, or refused, within fifty bytes, and what is left
/// behind the last window is no longer than that.
pub open spec fn short_headers(rest: Seq<u8>) -> bool
    decreases rest.len(),
{
    match five_uints(rest) {
        None => rest.len() <= 50,
        Some((_, _, _, _, _, e)) => {
            &&& e <= 50
            &&& match window_header(rest) {
                Ok(Some(h)) => if 0 < StreamView::window_len(h) <= rest.len() {
                    short_headers(rest.skip(StreamView::window_len(h)))
                } else {
                    true
                },
                _ => true,
            }
        },
    }
}

/// Where headers are short in the whole, no header is late in a part.
proof fn lemma_short_prefix(b: Seq<u8>, c: Seq<u8>)
    requires
        short_headers(b + c),
        b.len() <= usize::MAX,
    ensures
        headers_in_time(b),
    decreases b.len(),
{
    lemma_header_extends(b, c);
    lemma_header_incomplete(b);
    lemma_header_incomplete(b + c);
    if five_uints(b) is None && b.len() > 50 {
        lemma_five_uints_prefix(b, c);
        assert(false);
    }
    match window_header(b) {
        Ok(Some(h)) => {
            let n = StreamView::window_len(h);
            if 0 < n <= b.len() {
                assert((b + c).skip(n) =~= b.skip(n) + c);
                lemma_short_prefix(b.skip(n), c);
            }
        },
        _ => {},
    }
}

/// Behind the windows that are decoded, headers are still short.
proof fn lemma_short_after(base: Seq<u8>, s: StreamView, c: Seq<u8>)
    requires
        s.version() is Some,
        short_headers(s.rest + c),
        s.rest.len() <= usize::MAX,
        decode_windows(base, s).result is Ok,
    ensures
        ({
            let d = decode_windows(base, s);
            &&& short_headers(d.state.rest + c)
            &&& d.state.version() == s.version()
            &&& d.state.header == s.header
            &&& d.state.rest.len() <= s.rest.len()
            &&& decode_windows(base, d.state) == (Decoded {
                out: Seq::empty(),
                state: d.state,
                result: Ok(()),
            })
        }),
    decreases s.rest.len(),
{
    lemma_header_extends(s.rest, c);
    lemma_header_incomplete(s.rest);
    lemma_header_incomplete(s.rest + c);
    match s.next_window() {
        Ok(Some(w)) => {
            let n = StreamView::window_len(w.header);
            let next = s.after(w.header);
            assert((s.rest + c).skip(n) =~= next.rest + c);
            lemma_short_after(base, next, c);
        },
        _ => {},
    }
}

/// Taking chunks one by one gives what taking their bytes at once gives, as long as
/// every window header fits into fifty bytes.
proof fn lemma_take_joined(base: Seq<u8>, s: StreamView, chunks: Seq<Seq<u8>>)
    requires
        s.header.len() == 4,
        s.version() is Some,
        short_headers(s.rest + joined(chunks)),
        s.rest.len() + joined(chunks).len() <= usize::MAX,
        decode_windows(base, s) == (Decoded { out: Seq::empty(), state: s, result: Ok(()) }),
    ensures
        ({
            let each = take_chunks(base, s, chunks);
            let once = decode_windows(base, s.with_more(joined(chunks)));
            &&& each.out == once.out
            &&& each.result == once.result
            &&& each.result is Ok ==> each.state == once.state
        }),
    decreases chunks.len(),
{
    if chunks.len() == 0 {
        assert(s.with_more(joined(chunks)).rest =~= s.rest);
        assert(s.with_more(joined(chunks)) == s);
    } else {
        let a = chunks[0];
        let r = chunks.drop_first();
        let t = s.with_more(a);
        assert(a.take(0) =~= Seq::<u8>::empty());
        assert(a.skip(0) =~= a);
        assert(s.header + a.take(0) =~= s.header);
        assert(s.with_chunk(a) == t);
        assert((s.rest + a) + joined(r) =~= s.rest + joined(chunks));
        assert(t.with_more(joined(r)) == s.with_more(joined(chunks)));
        lemma_short_prefix(t.rest, joined(r));
        lemma_decode_more(base, t, joined(r));
        let d = decode_windows(base, t);
        if d.result is Ok {
            lemma_short_after(base, t, joined(r));
            lemma_take_joined(base, d.state, r);
        }
    }
}

/// A chunk that leaves the header incomplete, and what comes behind it.
proof fn lemma_small_chunk(s: StreamView, a: Seq<u8>, more: Seq<u8>)
    requires
        s.header.len() + a.len() < 4,
        s.rest.len() == 0,
    ensures
        ({
            let t = s.with_chunk(a);
            &&& t.header == s.header + a
            &&& t.rest.len() == 0
            &&& t.header + more == s.header + (a + more)
            &&& !s.bad_header(a)
            &&& t.bad_header(more) == s.bad_header(a + more)
            &&& t.with_chunk(more) == s.with_chunk(a + more)
            &&& t.with_header((t.header + more).take(4)) == s.with_header(
                (s.header + (a + more)).take(4),
            )
        }),
{
    let t = s.with_chunk(a);
    assert(a.take(a.len() as int) =~= a);
    assert(t.header =~= s.header + a);
    assert(t.rest =~= s.rest);
    assert(t.header + more =~= s.header + (a + more));
    assert(t.with_chunk(more).header =~= s.with_chunk(a + more).header);
    assert(t.with_chunk(more).rest =~= s.with_chunk(a + more).rest);
}

/// A chunk that completes the header, and what comes behind it.
proof fn lemma_full_chunk(s: StreamView, a: Seq<u8>, more: Seq<u8>)
    requires
        s.header.len() < 4,
        s.header.len() + a.len() >= 4,
        s.rest.len() == 0,
    ensures
        ({
            let t = s.with_chunk(a);
            &&& s.bad_header(a) == s.bad_header(a + more)
            &&& s.with_header((s.header + a).take(4)) == s.with_header(
                (s.header + (a + more)).take(4),
            )
            &&& t.header == (s.header + a).take(4)
            &&& t.rest.len() <= a.len()
            &&& t.rest + more == (s.header + (a + more)).skip(4)
            &&& t.with_more(more) == s.with_chunk(a + more)
        }),
{
    let t = s.with_chunk(a);
    assert((s.header + a).take(4) =~= (s.header + (a + more)).take(4));
    assert(t.header =~= (s.header + a).take(4));
    assert(t.rest + more =~= (s.header + (a + more)).skip(4));
    assert(s.with_chunk(a + more).header =~= t.header);
    assert(s.with_chunk(a + more).rest =~= t.rest + more);
}

/// Before the header is complete, chunks only add to the header.
#[verifier::rlimit(40)]
proof fn lemma_take_joined_start(base: Seq<u8>, s: StreamView, chunks: Seq<Seq<u8>>)
    requires
        s.header.len() < 4,
        s.rest.len() == 0,
        s.header.len() + joined(chunks).len() >= 4 ==> short_headers(
            (s.header + joined(chunks)).skip(4),
        ),
        s.header.len() + joined(chunks).len() <= usize::MAX,
    ensures
        ({
            let each = take_chunks(base, s, chunks);
            let once = take_chunk(base, s, joined(chunks));
            &&& each.out == once.out
            &&& each.result == once.result
            &&& each.result is Ok ==> each.state == once.state
        }),
    decreases chunks.len(),
{
    if chunks.len() == 0 {
        let e = Seq::<u8>::empty();
        assert(joined(chunks) =~= e);
        assert(s.header + e.take(0) =~= s.header);
        assert(s.rest + e.skip(0) =~= s.rest);
        assert(s.with_chunk(e) == s);
    } else {
        let a = chunks[0];
        let r = chunks.drop_first();
        let all = joined(chunks);
        let t = s.with_chunk(a);
        assert(all == a + joined(r));
        if s.header.len() + a.len() < 4 {
            lemma_small_chunk(s, a, joined(r));
            assert(decode_windows(base, t) == (Decoded {
                out: Seq::empty(),
                state: t,
                result: Ok(()),
            }));
            lemma_take_joined_start(base, t, r);
            let each = take_chunks(base, t, r);
            assert(Seq::<u8>::empty() + each.out =~= each.out);
        } else {
            lemma_full_chunk(s, a, joined(r));
            if !s.bad_header(a) {
                lemma_short_prefix(t.rest, joined(r));
                lemma_decode_more(base, t, joined(r));
                let d = decode_windows(base, t);
                if d.result is Ok {
                    lemma_short_after(base, t, joined(r));
                    lemma_take_joined(base, d.state, r);
                }
            }
        }
    }
}

/// How a delta is cut into chunks does not matter: applying the chunks gives what
/// applying their bytes as one chunk gives. This holds of every delta whose window
/// headers take at most fifty bytes, which is what five integers of 64 bits can take.
pub proof fn chunking_does_not_matter(base: Seq<u8>, chunks: Seq<Seq<u8>>)
    requires
        joined(chunks).len() >= 4 ==> short_headers(joined(chunks).skip(4)),
        joined(chunks).len() <= usize::MAX,
    ensures
        apply_delta(base, chunks) == apply_delta(base, seq![joined(chunks)]),
{
    let s = StreamView::start();
    let all = joined(chunks);
    assert(s.header + all =~= all);
    lemma_take_joined_start(base, s, chunks);
    let one = seq![all];
    let d = take_chunk(base, s, all);
    assert(one.drop_first().len() == 0);
    assert(take_chunks(base, d.state, one.drop_first()).out.len() == 0);
    assert(d.out + take_chunks(base, d.state, one.drop_first()).out =~= d.out);
}

/// A delta without any bytes leaves the base as it is.
pub proof fn empty_delta_is_identity(base: Seq<u8>, chunks: Seq<Seq<u8>>)
    requires
        joined(chunks).len() == 0,
    ensures
        apply_delta(base, chunks).0 == base,
        apply_delta(base, chunks).1 is Ok,
{
    let s = StreamView::start();
    assert(s.header + joined(chunks) =~= Seq::<u8>::empty());
    lemma_take_joined_start(base, s, chunks);
    let e = joined(chunks);
    assert(s.with_chunk(e).header =~= s.header);
    assert(s.with_chunk(e).rest =~= s.rest);
    assert(take_chunk(base, s, e).out + base =~= base);
}

} // verus!
