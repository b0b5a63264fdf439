use vstd::prelude::*;

use crate::chunk::{
    check_signature, crc32_of, is_critical, lemma_crc_mismatch_rejected, next_chunk, png_signature,
    spec_check_signature, spec_is_critical, spec_next_chunk, IDAT, IEND, IHDR, PLTE, TRNS,
};
use crate::cursor::{be_u32, ByteCursor};
use crate::error::DecodeError;
use crate::expand::{
    expand_image, layout_channels, lemma_expand_rows_len, pixel_len, spec_expand_image,
    spec_layout, trns_view, ChannelLayout,
};
use crate::filter::{spec_unfilter_image, unfilter_image};
use crate::header::{parse_header, spec_parse_header, ImageHeader};
use crate::inflate::{inflate_zlib, zlib_inflate_of};
use crate::interlace::{
    decode_passes, decode_passes_from, interleave, lemma_interleave_rows_len, lemma_passes_len,
    pass_header, spec_decode_interlaced, vecs_view,
};

verus! {

/// What the chunks read so far have contributed.
pub struct StreamState {
    pub header: Option<ImageHeader>,
    pub palette: Seq<u8>,
    pub transparency: Option<Seq<u8>>,
    pub compressed: Seq<u8>,
}

/// The state before the first chunk.
pub open spec fn initial_state() -> StreamState {
    StreamState { header: None, palette: seq![], transparency: None, compressed: seq![] }
}

/// Taking in one chunk: the new state, and whether the stream has ended.
pub open spec fn spec_take_chunk(st: StreamState, kind: u32, data: Seq<u8>) -> Result<
    (StreamState, bool),
    DecodeError,
> {
    match st.header {
        None => {
            if kind != IHDR {
                Err(DecodeError::MissingHeader)
            } else {
                match spec_parse_header(data) {
                    Ok(h) => Ok((StreamState { header: Some(h), ..st }, false)),
                    Err(e) => Err(e),
                }
            }
        },
        Some(_) => {
            if kind == IEND {
                Ok((st, true))
            } else if kind == IDAT {
                Ok((StreamState { compressed: st.compressed + data, ..st }, false))
            } else if kind == PLTE {
                Ok((StreamState { palette: data, ..st }, false))
            } else if kind == TRNS {
                Ok((StreamState { transparency: Some(data), ..st }, false))
            } else if spec_is_critical(kind) {
                Err(DecodeError::UnknownCriticalChunk)
            } else {
                Ok((st, false))
            }
        },
    }
}

/// A header, once read, is a valid one.
pub open spec fn state_wf(st: StreamState) -> bool {
    match st.header {
        Some(h) => h.valid(),
        None => true,
    }
}

proof fn lemma_collect_wf(s: Seq<u8>, pos: int, st: StreamState, strict: bool)
    requires
        state_wf(st),
    ensures
        collect_from(s, pos, st, strict) is Ok ==> state_wf(collect_from(s, pos, st, strict)->Ok_0),
    decreases s.len() - pos,
{
    match spec_next_chunk(s, pos, strict) {
        Err(e) => {},
        Ok((kind, data, next)) => {
            match spec_take_chunk(st, kind, data) {
                Err(e) => {},
                Ok((st2, done)) => {
                    if !done && pos < next <= s.len() {
                        lemma_collect_wf(s, next, st2, strict);
                    }
                },
            }
        },
    }
}

/// Reading the chunks from offset `pos` of `s` on, up to and including IEND.
/// (A chunk read always ends past `pos` and within `s`; the guard says so to
/// make the recursion visibly well-founded.)
pub open spec fn collect_from(s: Seq<u8>, pos: int, st: StreamState, strict: bool) -> Result<StreamState, DecodeError>
    decreases s.len() - pos,
{
    match spec_next_chunk(s, pos, strict) {
        Err(e) => Err(e),
        Ok((kind, data, next)) => match spec_take_chunk(st, kind, data) {
            Err(e) => Err(e),
            Ok((st2, done)) => {
                if done {
                    Ok(st2)
                } else if pos < next <= s.len() {
                    collect_from(s, next, st2, strict)
                } else {
                    Err(DecodeError::TruncatedStream)
                }
            },
        },
    }
}

/// A decoded image: its size, the layout and depth of its samples, and the
/// samples, row by row from the top, 16-bit ones big-endian.
pub struct DecodedImage {
    pub width: u32,
    pub height: u32,
    pub layout: ChannelLayout,
    pub bit_depth: u8,
    pub pixels: Vec<u8>,
}

/// The model of a decoded image.
pub struct ImageView {
    pub width: u32,
    pub height: u32,
    pub layout: ChannelLayout,
    pub bit_depth: u8,
    pub pixels: Seq<u8>,
}

impl View for DecodedImage {
    type V = ImageView;

    open spec fn view(&self) -> ImageView {
        ImageView {
            width: self.width,
            height: self.height,
            layout: self.layout,
            bit_depth: self.bit_depth,
            pixels: self.pixels@,
        }
    }
}

/// Bytes in the decoded image.
pub open spec fn output_len(h: ImageHeader, l: ChannelLayout) -> int {
    h.width as int * h.height as int * layout_channels(l) * (if h.bit_depth == 16 { 2int } else { 1int })
}

/// The decoded pixels of an image whose inflated data is `raw`: one run of
/// filtered scanlines, or seven Adam7 passes.
pub open spec fn spec_image_pixels(
    raw: Seq<u8>,
    h: ImageHeader,
    plte: Seq<u8>,
    trns: Option<Seq<u8>>,
) -> Result<Seq<u8>, DecodeError> {
    let rb = h.spec_row_bytes();
    if h.interlace != 0 {
        spec_decode_interlaced(raw, h, plte, trns)
    } else if raw.len() < h.height * (rb + 1) {
        Err(DecodeError::TruncatedStream)
    } else {
        match spec_unfilter_image(raw, rb, h.spec_filter_stride(), h.height as nat) {
            Err(e) => Err(e),
            Ok(img) => spec_expand_image(img, h, plte, trns),
        }
    }
}

/// Turning the collected chunks into pixels.
pub open spec fn spec_finish(st: StreamState) -> Result<ImageView, DecodeError> {
    match st.header {
        None => Err(DecodeError::MissingHeader),
        Some(h) => {
            let layout = spec_layout(h.color_type, st.transparency);
            let rb = h.spec_row_bytes();
            if st.compressed.len() == 0 {
                Err(DecodeError::TruncatedStream)
            } else if output_len(h, layout) > usize::MAX || h.height * (rb + 1) > usize::MAX {
                Err(DecodeError::OutputSizeOverflow)
            } else {
                match zlib_inflate_of(st.compressed) {
                    Err(true) => Err(DecodeError::TruncatedStream),
                    Err(false) => Err(DecodeError::InvalidCompressedData),
                    Ok(raw) => match spec_image_pixels(raw, h, st.palette, st.transparency) {
                        Err(e) => Err(e),
                        Ok(px) => Ok(
                            ImageView {
                                width: h.width,
                                height: h.height,
                                layout,
                                bit_depth: if h.bit_depth == 16 { 16u8 } else { 8u8 },
                                pixels: px,
                            },
                        ),
                    },
                }
            }
        },
    }
}

/// What decoding the PNG byte stream `s` gives; CRC mismatches are errors
/// when `strict` holds and are passed over otherwise.
pub open spec fn spec_decode_with(s: Seq<u8>, strict: bool) -> Result<ImageView, DecodeError> {
    match spec_check_signature(s) {
        Err(e) => Err(e),
        Ok(_) => match collect_from(s, 8, initial_state(), strict) {
            Err(e) => Err(e),
            Ok(st) => spec_finish(st),
        },
    }
}

/// What decoding the PNG byte stream `s` gives, CRCs checked.
pub open spec fn spec_decode(s: Seq<u8>) -> Result<ImageView, DecodeError> {
    spec_decode_with(s, true)
}

/// The offset just past the IEND chunk that ends the chunk walk from `pos`,
/// or -1 when the walk fails.
pub open spec fn walk_end(s: Seq<u8>, pos: int, st: StreamState, strict: bool) -> int
    decreases s.len() - pos,
{
    match spec_next_chunk(s, pos, strict) {
        Err(_) => -1,
        Ok((kind, data, next)) => match spec_take_chunk(st, kind, data) {
            Err(_) => -1,
            Ok((st2, done)) => {
                if done {
                    next
                } else if pos < next <= s.len() {
                    walk_end(s, next, st2, strict)
                } else {
                    -1
                }
            },
        },
    }
}

proof fn lemma_walk_end_bound(s: Seq<u8>, pos: int, st: StreamState, strict: bool)
    ensures
        walk_end(s, pos, st, strict) <= s.len(),
    decreases s.len() - pos,
{
    match spec_next_chunk(s, pos, strict) {
        Err(e) => {},
        Ok((kind, data, next)) => {
            match spec_take_chunk(st, kind, data) {
                Err(e) => {},
                Ok((st2, done)) => {
                    if !done && pos < next <= s.len() {
                        lemma_walk_end_bound(s, next, st2, strict);
                    }
                },
            }
        },
    }
}

proof fn lemma_prefix_agrees(s: Seq<u8>, k: int, a: int, b: int)
    requires
        0 <= a <= b <= k <= s.len(),
    ensures
        s.subrange(0, k).subrange(a, b) == s.subrange(a, b),
{
    assert(s.subrange(0, k).subrange(a, b) =~= s.subrange(a, b));
}

/// Cutting a stream anywhere before the end of the IEND chunk that closes its
/// chunk walk leaves a stream whose walk fails with `TruncatedStream`.
pub proof fn lemma_cut_walk_truncated(s: Seq<u8>, pos: int, st: StreamState, k: int, strict: bool)
    requires
        0 <= pos <= k,
        k < walk_end(s, pos, st, strict),
    ensures
        collect_from(s.subrange(0, k), pos, st, strict) == Err::<StreamState, DecodeError>(
            DecodeError::TruncatedStream,
        ),
    decreases s.len() - pos,
{
    lemma_walk_end_bound(s, pos, st, strict);
    let t = s.subrange(0, k);
    let (kind, data, next) = spec_next_chunk(s, pos, strict)->Ok_0;
    if pos + 8 <= k {
        lemma_prefix_agrees(s, k, pos, pos + 8);
        assert(be_u32(t, pos) == be_u32(s, pos));
        assert(be_u32(t, pos + 4) == be_u32(s, pos + 4));
        let len = be_u32(s, pos);
        if pos + 12 + len <= k {
            lemma_prefix_agrees(s, k, pos + 4, pos + 8 + len);
            lemma_prefix_agrees(s, k, pos + 8, pos + 8 + len);
            lemma_prefix_agrees(s, k, pos + 8 + len, pos + 12 + len);
            assert(t[pos + 8 + len] == t.subrange(pos + 8 + len, pos + 12 + len)[0]);
            assert(be_u32(t, pos + 8 + len) == be_u32(s, pos + 8 + len));
            assert(spec_next_chunk(t, pos, strict) == spec_next_chunk(s, pos, strict));
            let (st2, done) = spec_take_chunk(st, kind, data)->Ok_0;
            lemma_cut_walk_truncated(s, next, st2, k, strict);
        }
    }
}

/// Decoding a stream cut anywhere before the end of the IEND chunk that
/// closes it fails with `TruncatedStream`, never with a partial image.
pub proof fn lemma_decode_cut_truncated(s: Seq<u8>, k: int, strict: bool)
    requires
        spec_check_signature(s) is Ok,
        0 <= k < walk_end(s, 8, initial_state(), strict),
    ensures
        spec_decode_with(s.subrange(0, k), strict) == Err::<ImageView, DecodeError>(
            DecodeError::TruncatedStream,
        ),
{
    lemma_walk_end_bound(s, 8, initial_state(), strict);
    let t = s.subrange(0, k);
    if k < 8 {
        assert(forall|i: int| 0 <= i < k ==> t[i] == s[i]);
        assert(!exists|i: int| 0 <= i < 8 && i < t.len() && t[i] != png_signature()[i]) by {
            assert(s.subrange(0, 8) == png_signature());
            assert forall|i: int| 0 <= i < 8 && i < t.len() implies t[i] == png_signature()[i] by {
                assert(s.subrange(0, 8)[i] == s[i]);
            }
        }
    } else {
        assert(t.subrange(0, 8) =~= s.subrange(0, 8));
        lemma_cut_walk_truncated(s, 8, initial_state(), k, strict);
    }
}

/// Decoding is a function of the bytes: equal streams decode to equal results.
pub proof fn lemma_decode_deterministic(a: Seq<u8>, b: Seq<u8>)
    requires
        a == b,
    ensures
        spec_decode(a) == spec_decode(b),
{
}

/// A stream whose header is read but whose IDAT chunks hold no bytes at all
/// (none, or only empty ones) fails with `TruncatedStream`.
pub proof fn lemma_empty_image_data_truncated(s: Seq<u8>, strict: bool)
    requires
        spec_check_signature(s) is Ok,
        collect_from(s, 8, initial_state(), strict) is Ok,
        collect_from(s, 8, initial_state(), strict)->Ok_0.compressed.len() == 0,
    ensures
        spec_decode_with(s, strict) == Err::<ImageView, DecodeError>(DecodeError::TruncatedStream),
{
    lemma_collect_has_header(s, 8, initial_state(), strict);
}

proof fn lemma_collect_has_header(s: Seq<u8>, pos: int, st: StreamState, strict: bool)
    ensures
        collect_from(s, pos, st, strict) is Ok ==> collect_from(s, pos, st, strict)->Ok_0.header is Some,
    decreases s.len() - pos,
{
    match spec_next_chunk(s, pos, strict) {
        Err(e) => {},
        Ok((kind, data, next)) => {
            match spec_take_chunk(st, kind, data) {
                Err(e) => {},
                Ok((st2, done)) => {
                    if !done && pos < next <= s.len() {
                        lemma_collect_has_header(s, next, st2, strict);
                    }
                },
            }
        },
    }
}

/// Whether the chunk walk from `pos` arrives at a chunk starting at `target`.
pub open spec fn walk_reaches(s: Seq<u8>, pos: int, st: StreamState, target: int, strict: bool) -> bool
    decreases s.len() - pos,
{
    if pos == target {
        true
    } else {
        match spec_next_chunk(s, pos, strict) {
            Err(_) => false,
            Ok((kind, data, next)) => match spec_take_chunk(st, kind, data) {
                Err(_) => false,
                Ok((st2, done)) => !done && pos < next <= s.len() && walk_reaches(
                    s,
                    next,
                    st2,
                    target,
                    strict,
                ),
            },
        }
    }
}

/// The chunk at `pos` lies wholly within `s` and its stored CRC differs from
/// the CRC of its type and data.
pub open spec fn crc_broken_at(s: Seq<u8>, pos: int) -> bool {
    &&& 0 <= pos
    &&& pos + 8 <= s.len()
    &&& pos + 12 + be_u32(s, pos) <= s.len()
    &&& be_u32(s, pos + 8 + be_u32(s, pos)) != crc32_of(s.subrange(pos + 4, pos + 8 + be_u32(s, pos))) as int
}

proof fn lemma_walk_crc_broken(s: Seq<u8>, pos: int, st: StreamState, target: int)
    requires
        walk_reaches(s, pos, st, target, true),
        crc_broken_at(s, target),
    ensures
        collect_from(s, pos, st, true) == Err::<StreamState, DecodeError>(DecodeError::CrcMismatch),
    decreases s.len() - pos,
{
    if pos == target {
        lemma_crc_mismatch_rejected(s, target);
    } else {
        let (kind, data, next) = spec_next_chunk(s, pos, true)->Ok_0;
        let (st2, done) = spec_take_chunk(st, kind, data)->Ok_0;
        lemma_walk_crc_broken(s, next, st2, target);
    }
}

/// Decoding with CRCs checked fails with `CrcMismatch` when a chunk that the
/// chunk walk reaches carries a wrong CRC: a change to a chunk's type or data
/// that changes their CRC is never taken for valid data.
pub proof fn lemma_crc_mismatch_detected(s: Seq<u8>, target: int)
    requires
        spec_check_signature(s) is Ok,
        walk_reaches(s, 8, initial_state(), target, true),
        crc_broken_at(s, target),
    ensures
        spec_decode(s) == Err::<ImageView, DecodeError>(DecodeError::CrcMismatch),
{
    lemma_walk_crc_broken(s, 8, initial_state(), target);
}

/// Bytes in a decoded image of this size, layout and depth.
pub open spec fn image_len(v: ImageView) -> int {
    v.width as int * v.height as int * layout_channels(v.layout) * (v.bit_depth as int / 8)
}

/// A decoded image holds exactly width × height pixels of its layout and depth.
pub proof fn lemma_decoded_length(s: Seq<u8>, strict: bool)
    requires
        spec_decode_with(s, strict) is Ok,
    ensures
        spec_decode_with(s, strict)->Ok_0.pixels.len() == image_len(spec_decode_with(s, strict)->Ok_0),
{
    lemma_collect_wf(s, 8, initial_state(), strict);
    let st = collect_from(s, 8, initial_state(), strict)->Ok_0;
    let h = st.header->Some_0;
    let rb = h.spec_row_bytes();
    let raw = zlib_inflate_of(st.compressed)->Ok_0;
    let c = layout_channels(spec_layout(h.color_type, st.transparency));
    let wd: int = if h.bit_depth == 16 { 2 } else { 1 };
    if h.interlace != 0 {
        lemma_passes_len(raw, h, st.palette, st.transparency, 0, 0, seq![]);
        let passes = decode_passes_from(raw, h, st.palette, st.transparency, 0, 0, seq![])->Ok_0;
        lemma_interleave_rows_len(passes, h, c * wd, 0, h.height as nat, seq![]);
    } else {
        let img = spec_unfilter_image(raw, rb, h.spec_filter_stride(), h.height as nat)->Ok_0;
        lemma_expand_rows_len(img, h, st.palette, st.transparency, 0, h.height as nat, seq![]);
    }
    assert(h.height as int * (h.width * (c * wd)) == h.width as int * h.height as int * c * wd)
        by (nonlinear_arith);
}

/// Appends the bytes of `s` to `out`.
fn append_bytes(out: &mut Vec<u8>, s: &[u8])
    ensures
        final(out)@ == old(out)@ + s@,
{
    let mut i: usize = 0;
    while i < s.len()
        invariant
            i <= s@.len(),
            out@ == old(out)@ + s@.subrange(0, i as int),
        decreases s@.len() - i,
    {
        out.push(s[i]);
        i = i + 1;
        assert(out@ =~= old(out)@ + s@.subrange(0, i as int));
    }
    assert(s@.subrange(0, s@.len() as int) =~= s@);
}

/// A copy of the bytes of `s`.
fn copy_bytes(s: &[u8]) -> (r: Vec<u8>)
    ensures
        r@ == s@,
{
    let mut v: Vec<u8> = Vec::new();
    append_bytes(&mut v, s);
    assert(v@ =~= s@);
    v
}

/// The layout that `spec_layout` gives.
pub fn layout_of(ct: u8, trns: Option<&[u8]>) -> (r: ChannelLayout)
    ensures
        r == spec_layout(ct, trns_view(trns)),
{
    let keyed = match trns {
        Some(t) => (ct == 0 && t.len() >= 2) || (ct == 2 && t.len() >= 6),
        None => false,
    };
    if ct == 0 {
        if keyed {
            ChannelLayout::GrayAlpha
        } else {
            ChannelLayout::Gray
        }
    } else if ct == 2 {
        if keyed {
            ChannelLayout::Rgba
        } else {
            ChannelLayout::Rgb
        }
    } else if ct == 3 {
        if trns.is_some() {
            ChannelLayout::Rgba
        } else {
            ChannelLayout::Rgb
        }
    } else if ct == 4 {
        ChannelLayout::GrayAlpha
    } else {
        ChannelLayout::Rgba
    }
}

/// Samples per pixel of a layout.
pub fn channel_count(l: ChannelLayout) -> (r: u8)
    ensures
        r as int == layout_channels(l),
{
    match l {
        ChannelLayout::Gray => 1,
        ChannelLayout::GrayAlpha => 2,
        ChannelLayout::Rgb => 3,
        ChannelLayout::Rgba => 4,
    }
}

/// What the chunks of a stream have contributed so far.
pub struct ImageState {
    pub header: Option<ImageHeader>,
    pub palette: Vec<u8>,
    pub transparency: Option<Vec<u8>>,
    pub compressed: Vec<u8>,
}

impl View for ImageState {
    type V = StreamState;

    open spec fn view(&self) -> StreamState {
        StreamState {
            header: self.header,
            palette: self.palette@,
            transparency: match self.transparency {
                Some(t) => Some(t@),
                None => None,
            },
            compressed: self.compressed@,
        }
    }
}

impl ImageState {
    /// The state before the first chunk.
    pub fn new() -> (r: Self)
        ensures
            r@ == initial_state(),
    {
        ImageState { header: None, palette: Vec::new(), transparency: None, compressed: Vec::new() }
    }

    /// Takes in one chunk; returns whether it ended the stream.
    pub fn take_chunk(&mut self, kind: u32, data: &[u8]) -> (r: Result<bool, DecodeError>)
        ensures
            match spec_take_chunk(old(self)@, kind, data@) {
                Ok((st, done)) => r == Ok::<bool, DecodeError>(done) && final(self)@ == st,
                Err(e) => r == Err::<bool, DecodeError>(e),
            },
    {
        match self.header {
            None => {
                if kind != IHDR {
                    return Err(DecodeError::MissingHeader);
                }
                match parse_header(data) {
                    Ok(h) => {
                        self.header = Some(h);
                        Ok(false)
                    },
                    Err(e) => Err(e),
                }
            },
            Some(_) => {
                if kind == IEND {
                    Ok(true)
                } else if kind == IDAT {
                    append_bytes(&mut self.compressed, data);
                    Ok(false)
                } else if kind == PLTE {
                    self.palette = copy_bytes(data);
                    Ok(false)
                } else if kind == TRNS {
                    self.transparency = Some(copy_bytes(data));
                    Ok(false)
                } else if is_critical(kind) {
                    Err(DecodeError::UnknownCriticalChunk)
                } else {
                    Ok(false)
                }
            },
        }
    }
}

/// Reads the chunks that follow the signature, up to and including IEND.
pub fn collect_chunks(s: &[u8], strict: bool) -> (r: Result<ImageState, DecodeError>)
    ensures
        match collect_from(s@, 8, initial_state(), strict) {
            Ok(st) => r is Ok && r->Ok_0@ == st,
            Err(e) => r is Err && r->Err_0 == e,
        },
{
    let mut cur = ByteCursor::new(s);
    if cur.skip(8).is_err() {
        return Err(DecodeError::TruncatedStream);
    }
    let mut st = ImageState::new();
    loop
        invariant
            cur.wf(),
            cur.data() == s@,
            collect_from(s@, cur.pos(), st@, strict) == collect_from(s@, 8, initial_state(), strict),
        decreases s@.len() - cur.pos(),
    {
        let c = match next_chunk(&mut cur, strict) {
            Ok(c) => c,
            Err(e) => {
                return Err(e);
            },
        };
        let done = match st.take_chunk(c.kind, c.data) {
            Ok(d) => d,
            Err(e) => {
                return Err(e);
            },
        };
        if done {
            return Ok(st);
        }
    }
}

/// Defilters and expands inflated image data, interlaced or not.
pub fn image_pixels(raw: &[u8], h: &ImageHeader, plte: &[u8], trns: Option<&[u8]>) -> (r: Result<
    Vec<u8>,
    DecodeError,
>)
    requires
        h.valid(),
        h.height * (h.spec_row_bytes() + 1) <= usize::MAX,
    ensures
        match spec_image_pixels(raw@, *h, plte@, trns_view(trns)) {
            Ok(v) => r is Ok && r->Ok_0@ == v,
            Err(e) => r is Err && r->Err_0 == e,
        },
{
    if h.interlace != 0 {
        let passes = match decode_passes(raw, h, plte, trns) {
            Ok(v) => v,
            Err(e) => {
                return Err(e);
            },
        };
        proof {
            lemma_passes_len(raw@, *h, plte@, trns_view(trns), 0, 0, seq![]);
        }
        let layout = layout_of(h.color_type, trns);
        let wide: usize = if h.bit_depth == 16 { 2 } else { 1 };
        let n = channel_count(layout) as usize * wide;
        assert(n == pixel_len(h.color_type, h.bit_depth, trns_view(trns)));
        assert forall|i: int| 0 <= i < 7 implies #[trigger] passes@[i]@.len() == pass_header(
            *h,
            i,
        ).width as int * pass_header(*h, i).height as int * n by {
            assert(vecs_view(passes@)[i] == passes@[i]@);
        }
        return Ok(interleave(&passes, h, n));
    }
    let rb = h.row_bytes();
    assert(rb + 1 <= h.height as int * (rb + 1)) by (nonlinear_arith)
        requires
            h.height >= 1,
            rb >= 0,
    ;
    let raw_len = (h.height as u64 * (rb + 1)) as usize;
    if raw.len() < raw_len {
        return Err(DecodeError::TruncatedStream);
    }
    let img = match unfilter_image(raw, rb as usize, h.filter_stride(), h.height as usize) {
        Ok(v) => v,
        Err(e) => {
            return Err(e);
        },
    };
    expand_image(img.as_slice(), h, plte, trns)
}

/// Inflates, defilters and expands the image data that the chunks held.
pub fn finish(st: ImageState) -> (r: Result<DecodedImage, DecodeError>)
    requires
        state_wf(st@),
    ensures
        match spec_finish(st@) {
            Ok(v) => r is Ok && r->Ok_0@ == v,
            Err(e) => r is Err && r->Err_0 == e,
        },
{
    let h = match st.header {
        Some(h) => h,
        None => {
            return Err(DecodeError::MissingHeader);
        },
    };
    let trns: Option<&[u8]> = match &st.transparency {
        Some(t) => Some(t.as_slice()),
        None => None,
    };
    assert(trns_view(trns) == st@.transparency);
    let layout = layout_of(h.color_type, trns);
    let rb = h.row_bytes();
    if st.compressed.len() == 0 {
        return Err(DecodeError::TruncatedStream);
    }
    let wide: u128 = if h.bit_depth == 16 { 2 } else { 1 };
    let ch = channel_count(layout) as u128;
    assert(h.width as int * h.height as int <= 0xffff_ffff * 0xffff_ffff) by (nonlinear_arith)
        requires
            h.width <= 0xffff_ffff,
            h.height <= 0xffff_ffff,
    ;
    assert(h.width as int * h.height as int * ch <= 0xffff_ffff * 0xffff_ffff * 4)
        by (nonlinear_arith)
        requires
            ch <= 4,
            h.width as int * h.height as int <= 0xffff_ffff * 0xffff_ffff,
    ;
    assert(h.width as int * h.height as int * ch * wide <= 0xffff_ffff * 0xffff_ffff * 4 * 2)
        by (nonlinear_arith)
        requires
            wide <= 2,
            h.width as int * h.height as int * ch <= 0xffff_ffff * 0xffff_ffff * 4,
    ;
    let out_len: u128 = h.width as u128 * h.height as u128 * ch * wide;
    assert(h.height as int * (rb + 1) <= 0xffff_ffff * (0xffff_ffff * 8 + 2)) by (nonlinear_arith)
        requires
            rb <= 0xffff_ffff * 8 + 1,
            h.height <= 0xffff_ffff,
    ;
    let raw_len: u128 = h.height as u128 * (rb as u128 + 1);
    if out_len > usize::MAX as u128 || raw_len > usize::MAX as u128 {
        return Err(DecodeError::OutputSizeOverflow);
    }
    let raw = match inflate_zlib(st.compressed.as_slice()) {
        Ok(v) => v,
        Err(true) => {
            return Err(DecodeError::TruncatedStream);
        },
        Err(false) => {
            return Err(DecodeError::InvalidCompressedData);
        },
    };
    let pixels = match image_pixels(raw.as_slice(), &h, st.palette.as_slice(), trns) {
        Ok(v) => v,
        Err(e) => {
            return Err(e);
        },
    };
    Ok(
        DecodedImage {
            width: h.width,
            height: h.height,
            layout,
            bit_depth: if h.bit_depth == 16 { 16 } else { 8 },
            pixels,
        },
    )
}

/// Decodes a PNG byte stream into its pixels, rejecting any chunk whose CRC
/// does not match.
pub fn decode(bytes: &[u8]) -> (r: Result<DecodedImage, DecodeError>)
    ensures
        match spec_decode(bytes@) {
            Ok(v) => r is Ok && r->Ok_0@ == v,
            Err(e) => r is Err && r->Err_0 == e,
        },
        r is Ok ==> r->Ok_0.pixels@.len() == image_len(r->Ok_0@),
{
    decode_with(bytes, true)
}

/// Decodes a PNG byte stream into its pixels; with `strict` false, chunks
/// whose CRC does not match are taken as they are.
pub fn decode_with(bytes: &[u8], strict: bool) -> (r: Result<DecodedImage, DecodeError>)
    ensures
        match spec_decode_with(bytes@, strict) {
            Ok(v) => r is Ok && r->Ok_0@ == v,
            Err(e) => r is Err && r->Err_0 == e,
        },
        r is Ok ==> r->Ok_0.pixels@.len() == image_len(r->Ok_0@),
{
    proof {
        if spec_decode_with(bytes@, strict) is Ok {
            lemma_decoded_length(bytes@, strict);
        }
    }
    match check_signature(bytes) {
        Ok(()) => {},
        Err(e) => {
            return Err(e);
        },
    }
    proof {
        lemma_collect_wf(bytes@, 8, initial_state(), strict);
    }
    let st = match collect_chunks(bytes, strict) {
        Ok(st) => st,
        Err(e) => {
            return Err(e);
        },
    };
    finish(st)
}

} // verus!
