use vstd::prelude::*;

use crate::cursor::{be_u16, slice_range};
use crate::error::DecodeError;
use crate::header::{color_type_known, depth_allowed, spec_channels, ImageHeader};

verus! {

/// How the samples of a decoded pixel are laid out.
#[derive(Debug, Clone, Copy, PartialEq, Eq, Structural)]
pub enum ChannelLayout {
    Gray,
    GrayAlpha,
    Rgb,
    Rgba,
}

/// The view of an optional transparency chunk.
pub open spec fn trns_view(t: Option<&[u8]>) -> Option<Seq<u8>> {
    match t {
        Some(s) => Some(s@),
        None => None,
    }
}

/// A grayscale or RGB image has a transparent-color key when its tRNS chunk
/// is long enough to hold one.
pub open spec fn has_key(ct: u8, trns: Option<Seq<u8>>) -> bool {
    match trns {
        Some(t) => (ct == 0 && t.len() >= 2) || (ct == 2 && t.len() >= 6),
        None => false,
    }
}

/// The layout of the decoded pixels: palettes become RGB, and a tRNS chunk
/// adds an alpha channel to images that have none.
pub open spec fn spec_layout(ct: u8, trns: Option<Seq<u8>>) -> ChannelLayout {
    if ct == 0 {
        if has_key(ct, trns) {
            ChannelLayout::GrayAlpha
        } else {
            ChannelLayout::Gray
        }
    } else if ct == 2 {
        if has_key(ct, trns) {
            ChannelLayout::Rgba
        } else {
            ChannelLayout::Rgb
        }
    } else if ct == 3 {
        if trns is Some {
            ChannelLayout::Rgba
        } else {
            ChannelLayout::Rgb
        }
    } else if ct == 4 {
        ChannelLayout::GrayAlpha
    } else {
        ChannelLayout::Rgba
    }
}

/// Samples per decoded pixel.
pub open spec fn layout_channels(l: ChannelLayout) -> int {
    match l {
        ChannelLayout::Gray => 1,
        ChannelLayout::GrayAlpha => 2,
        ChannelLayout::Rgb => 3,
        ChannelLayout::Rgba => 4,
    }
}

/// The low `d` bits, for the sub-byte depths.
pub open spec fn low_mask(d: u8) -> u8 {
    if d == 1 {
        1
    } else if d == 2 {
        3
    } else {
        15
    }
}

/// Sample `k` of an unfiltered scanline at bit depth `d`; samples narrower
/// than a byte are packed most significant bits first.
pub open spec fn spec_sample(row: Seq<u8>, d: u8, k: int) -> u16 {
    if d == 16 {
        be_u16(row, 2 * k) as u16
    } else if d == 8 {
        row[k] as u16
    } else {
        let bit = k * d;
        let off = bit % 8;
        let shift: u8 = if off + d <= 8 { (8 - d - off) as u8 } else { 0 };
        ((row[bit / 8] >> shift) & low_mask(d)) as u16
    }
}

/// Sample `k` lies within a scanline of `len` bytes.
pub open spec fn sample_fits(len: int, d: u8, k: int) -> bool {
    if d == 16 {
        2 * k + 2 <= len
    } else if d == 8 {
        k + 1 <= len
    } else {
        0 <= k * d && k * d / 8 < len
    }
}

proof fn lemma_sample_fits(n: int, d: u8, k: int, rb: int)
    requires
        0 <= k < n,
        d == 1 || d == 2 || d == 4 || d == 8 || d == 16,
        rb == (n * d + 7) / 8,
    ensures
        sample_fits(rb, d, k),
{
    assert(k * d + d <= n * d) by (nonlinear_arith)
        requires
            k < n,
            d > 0,
    ;
    assert(0 <= k * d) by (nonlinear_arith)
        requires
            k >= 0,
            d > 0,
    ;
}

/// Reads sample `k` of a scanline.
pub fn sample_at(row: &[u8], d: u8, k: u64) -> (r: u16)
    requires
        d == 1 || d == 2 || d == 4 || d == 8 || d == 16,
        k <= 0xffff_ffff_ffff,
        sample_fits(row@.len() as int, d, k as int),
    ensures
        r == spec_sample(row@, d, k as int),
{
    if d == 16 {
        let i = (2 * k) as usize;
        (row[i] as u16) * 256 + row[i + 1] as u16
    } else if d == 8 {
        row[k as usize] as u16
    } else {
        let bit: u64 = k * (d as u64);
        let off: u64 = bit % 8;
        let shift: u8 = if off + (d as u64) <= 8 { (8 - d as u64 - off) as u8 } else { 0 };
        let mask: u8 = if d == 1 { 1 } else if d == 2 { 3 } else { 15 };
        ((row[(bit / 8) as usize] >> shift) & mask) as u16
    }
}

/// A sample as output bytes: two, big-endian, at depth 16; else one.
pub open spec fn put(v: u16, wide: bool) -> Seq<u8> {
    if wide {
        seq![(v / 256) as u8, (v % 256) as u8]
    } else {
        seq![v as u8]
    }
}

/// The alpha sample added for a transparent-color key.
pub open spec fn key_alpha(transparent: bool, wide: bool) -> Seq<u8> {
    let v: u16 = if transparent { 0 } else if wide { 0xffff } else { 0xff };
    put(v, wide)
}

/// The decoded bytes of the pixel whose first sample is sample `k` of `row`.
pub open spec fn spec_pixel(
    row: Seq<u8>,
    ct: u8,
    d: u8,
    plte: Seq<u8>,
    trns: Option<Seq<u8>>,
    k: int,
) -> Result<Seq<u8>, DecodeError> {
    let wide = d == 16;
    let s0 = spec_sample(row, d, k);
    if ct == 3 {
        if 3 * s0 + 3 > plte.len() {
            Err(DecodeError::PaletteIndexOutOfRange)
        } else {
            let rgb = plte.subrange(3 * s0, 3 * s0 + 3);
            match trns {
                Some(t) => Ok(rgb.push(if s0 < t.len() { t[s0 as int] } else { 255u8 })),
                None => Ok(rgb),
            }
        }
    } else if ct == 0 {
        let g = put(s0, wide);
        if has_key(ct, trns) {
            Ok(g + key_alpha(s0 as int == be_u16(trns->Some_0, 0), wide))
        } else {
            Ok(g)
        }
    } else if ct == 4 {
        Ok(put(s0, wide) + put(spec_sample(row, d, k + 1), wide))
    } else {
        let s1 = spec_sample(row, d, k + 1);
        let s2 = spec_sample(row, d, k + 2);
        let rgb = put(s0, wide) + put(s1, wide) + put(s2, wide);
        if ct == 2 {
            if has_key(ct, trns) {
                let t = trns->Some_0;
                Ok(
                    rgb + key_alpha(
                        s0 as int == be_u16(t, 0) && s1 as int == be_u16(t, 2) && s2 as int
                            == be_u16(t, 4),
                        wide,
                    ),
                )
            } else {
                Ok(rgb)
            }
        } else {
            Ok(rgb + put(spec_sample(row, d, k + 3), wide))
        }
    }
}

/// Appends a sample to `out` as `put` lays it out.
fn push_sample(out: &mut Vec<u8>, v: u16, wide: bool)
    ensures
        final(out)@ == old(out)@ + put(v, wide),
{
    if wide {
        out.push((v / 256) as u8);
        out.push((v % 256) as u8);
    } else {
        out.push(v as u8);
    }
    assert(out@ =~= old(out)@ + put(v, wide));
}

/// All samples of the pixel that starts at sample `k` lie within the scanline.
pub open spec fn pixel_fits(len: int, ct: u8, d: u8, k: int) -> bool {
    &&& sample_fits(len, d, k)
    &&& (spec_channels(ct) >= 2 ==> sample_fits(len, d, k + 1))
    &&& (spec_channels(ct) >= 3 ==> sample_fits(len, d, k + 2))
    &&& (spec_channels(ct) >= 4 ==> sample_fits(len, d, k + 3))
}

/// Appends the decoded bytes of the pixel that starts at sample `k` of `row`.
#[verifier::rlimit(60)]
pub fn push_pixel(
    out: &mut Vec<u8>,
    row: &[u8],
    ct: u8,
    d: u8,
    plte: &[u8],
    trns: Option<&[u8]>,
    k: u64,
) -> (r: Result<(), DecodeError>)
    requires
        d == 1 || d == 2 || d == 4 || d == 8 || d == 16,
        k + 4 <= 0xffff_ffff_ffff,
        color_type_known(ct),
        pixel_fits(row@.len() as int, ct, d, k as int),
    ensures
        match spec_pixel(row@, ct, d, plte@, trns_view(trns), k as int) {
            Ok(p) => r is Ok && final(out)@ == old(out)@ + p,
            Err(e) => r == Err::<(), DecodeError>(e) && final(out)@ == old(out)@,
        },
{
    let wide = d == 16;
    assert(sample_fits(row@.len() as int, d, k as int + 0));
    let s0 = sample_at(row, d, k);
    if ct == 3 {
        let i = s0 as usize;
        if plte.len() < 3 || i > (plte.len() - 3) / 3 {
            return Err(DecodeError::PaletteIndexOutOfRange);
        }
        out.push(plte[3 * i]);
        out.push(plte[3 * i + 1]);
        out.push(plte[3 * i + 2]);
        match trns {
            Some(t) => {
                out.push(if i < t.len() { t[i] } else { 255u8 });
            },
            None => {},
        }
        assert(out@ =~= old(out)@ + spec_pixel(row@, ct, d, plte@, trns_view(trns), k as int)->Ok_0);
        Ok(())
    } else if ct == 0 {
        push_sample(out, s0, wide);
        match trns {
            Some(t) => {
                if t.len() >= 2 {
                    let key = (t[0] as u16) * 256 + t[1] as u16;
                    let a: u16 = if s0 == key { 0 } else if wide { 0xffff } else { 0xff };
                    push_sample(out, a, wide);
                }
            },
            None => {},
        }
        assert(out@ =~= old(out)@ + spec_pixel(row@, ct, d, plte@, trns_view(trns), k as int)->Ok_0);
        Ok(())
    } else if ct == 4 {
        assert(sample_fits(row@.len() as int, d, k as int + 1));
        let s1 = sample_at(row, d, k + 1);
        push_sample(out, s0, wide);
        push_sample(out, s1, wide);
        assert(out@ =~= old(out)@ + spec_pixel(row@, ct, d, plte@, trns_view(trns), k as int)->Ok_0);
        Ok(())
    } else {
        assert(sample_fits(row@.len() as int, d, k as int + 1));
        assert(sample_fits(row@.len() as int, d, k as int + 2));
        let s1 = sample_at(row, d, k + 1);
        let s2 = sample_at(row, d, k + 2);
        push_sample(out, s0, wide);
        push_sample(out, s1, wide);
        push_sample(out, s2, wide);
        if ct == 2 {
            match trns {
                Some(t) => {
                    if t.len() >= 6 {
                        let transparent = s0 == (t[0] as u16) * 256 + t[1] as u16 && s1 == (
                        t[2] as u16) * 256 + t[3] as u16 && s2 == (t[4] as u16) * 256
                            + t[5] as u16;
                        let a: u16 = if transparent { 0 } else if wide { 0xffff } else { 0xff };
                        push_sample(out, a, wide);
                    }
                },
                None => {},
            }
        } else {
            assert(sample_fits(row@.len() as int, d, k as int + 3));
            let s3 = sample_at(row, d, k + 3);
            push_sample(out, s3, wide);
        }
        assert(out@ =~= old(out)@ + spec_pixel(row@, ct, d, plte@, trns_view(trns), k as int)->Ok_0);
        Ok(())
    }
}

/// The decoded bytes of `left` pixels of `row`, the first of which starts at
/// sample `k`, appended to `acc`.
pub open spec fn expand_pixels_from(
    row: Seq<u8>,
    ct: u8,
    d: u8,
    plte: Seq<u8>,
    trns: Option<Seq<u8>>,
    k: int,
    left: nat,
    acc: Seq<u8>,
) -> Result<Seq<u8>, DecodeError>
    decreases left,
{
    if left == 0 {
        Ok(acc)
    } else {
        match spec_pixel(row, ct, d, plte, trns, k) {
            Ok(p) => expand_pixels_from(
                row,
                ct,
                d,
                plte,
                trns,
                k + spec_channels(ct),
                (left - 1) as nat,
                acc + p,
            ),
            Err(e) => Err(e),
        }
    }
}

/// The decoded bytes of `left` unfiltered scanlines of `img`, the first of
/// which starts at byte `pos`, appended to `acc`.
pub open spec fn expand_rows_from(
    img: Seq<u8>,
    h: ImageHeader,
    plte: Seq<u8>,
    trns: Option<Seq<u8>>,
    pos: int,
    left: nat,
    acc: Seq<u8>,
) -> Result<Seq<u8>, DecodeError>
    decreases left,
{
    if left == 0 {
        Ok(acc)
    } else {
        let rb = h.spec_row_bytes();
        match expand_pixels_from(
            img.subrange(pos, pos + rb),
            h.color_type,
            h.bit_depth,
            plte,
            trns,
            0,
            h.width as nat,
            acc,
        ) {
            Ok(a) => expand_rows_from(img, h, plte, trns, pos + rb, (left - 1) as nat, a),
            Err(e) => Err(e),
        }
    }
}

/// The decoded pixels of an image whose unfiltered scanlines are `img`.
pub open spec fn spec_expand_image(
    img: Seq<u8>,
    h: ImageHeader,
    plte: Seq<u8>,
    trns: Option<Seq<u8>>,
) -> Result<Seq<u8>, DecodeError> {
    expand_rows_from(img, h, plte, trns, 0, h.height as nat, seq![])
}

/// Appends the decoded pixels of one unfiltered scanline.
pub fn expand_row(
    out: &mut Vec<u8>,
    row: &[u8],
    h: &ImageHeader,
    plte: &[u8],
    trns: Option<&[u8]>,
) -> (r: Result<(), DecodeError>)
    requires
        h.valid(),
        row@.len() == h.spec_row_bytes(),
    ensures
        match expand_pixels_from(
            row@,
            h.color_type,
            h.bit_depth,
            plte@,
            trns_view(trns),
            0,
            h.width as nat,
            old(out)@,
        ) {
            Ok(v) => r is Ok && final(out)@ == v,
            Err(e) => r == Err::<(), DecodeError>(e),
        },
{
    let ch = h.channels() as u64;
    let ghost n = h.width as int * ch;
    let ghost d = h.bit_depth;
    assert(h.width as int * (ch * d) == n * d) by (nonlinear_arith)
        requires
            n == h.width as int * ch,
    ;
    let mut k: u64 = 0;
    let mut left: u32 = h.width;
    while left > 0
        invariant
            h.valid(),
            ch == spec_channels(h.color_type),
            n == h.width as int * ch,
            row@.len() == (n * d + 7) / 8,
            d == h.bit_depth,
            k + left * ch == n,
            expand_pixels_from(
                row@,
                h.color_type,
                h.bit_depth,
                plte@,
                trns_view(trns),
                k as int,
                left as nat,
                out@,
            ) == expand_pixels_from(
                row@,
                h.color_type,
                h.bit_depth,
                plte@,
                trns_view(trns),
                0,
                h.width as nat,
                old(out)@,
            ),
        decreases left,
    {
        assert(left * ch == (left - 1) * ch + ch) by (nonlinear_arith);
        assert((left - 1) * ch >= 0) by (nonlinear_arith)
            requires
                left >= 1,
                ch >= 1,
        ;
        assert(n <= 0xffff_ffff * 4) by (nonlinear_arith)
            requires
                n == h.width as int * ch,
                ch <= 4,
        ;
        proof {
            lemma_sample_fits(n, d, k as int, row@.len() as int);
            if ch >= 2 {
                lemma_sample_fits(n, d, k as int + 1, row@.len() as int);
            }
            if ch >= 3 {
                lemma_sample_fits(n, d, k as int + 2, row@.len() as int);
            }
            if ch >= 4 {
                lemma_sample_fits(n, d, k as int + 3, row@.len() as int);
            }
        }
        let ghost before = out@;
        match push_pixel(out, row, h.color_type, h.bit_depth, plte, trns, k) {
            Ok(()) => {},
            Err(e) => {
                return Err(e);
            },
        }
        k = k + ch;
        left = left - 1;
    }
    Ok(())
}

/// Decodes the pixels of all unfiltered scanlines of an image.
pub fn expand_image(img: &[u8], h: &ImageHeader, plte: &[u8], trns: Option<&[u8]>) -> (r: Result<
    Vec<u8>,
    DecodeError,
>)
    requires
        h.valid(),
        h.height * h.spec_row_bytes() <= img@.len(),
    ensures
        match spec_expand_image(img@, *h, plte@, trns_view(trns)) {
            Ok(v) => r is Ok && r->Ok_0@ == v,
            Err(e) => r == Err::<Vec<u8>, DecodeError>(e),
        },
{
    let rb64 = h.row_bytes();
    assert(rb64 <= h.height * rb64) by (nonlinear_arith)
        requires
            h.height >= 1,
            rb64 >= 0,
    ;
    if rb64 > img.len() as u64 {
        return Err(DecodeError::OutputSizeOverflow);
    }
    let rb = rb64 as usize;
    let total = img.len();
    let mut out: Vec<u8> = Vec::new();
    let mut pos: usize = 0;
    let mut left: u32 = h.height;
    while left > 0
        invariant
            h.valid(),
            rb == h.spec_row_bytes(),
            total == img@.len(),
            pos + left * rb <= img@.len(),
            expand_rows_from(img@, *h, plte@, trns_view(trns), pos as int, left as nat, out@)
                == spec_expand_image(img@, *h, plte@, trns_view(trns)),
        decreases left,
    {
        assert(left * rb == (left - 1) * rb + rb) by (nonlinear_arith);
        assert((left - 1) * rb >= 0) by (nonlinear_arith)
            requires
                left >= 1,
        ;
        let row = slice_range(img, pos, pos + rb);
        match expand_row(&mut out, row, h, plte, trns) {
            Ok(()) => {},
            Err(e) => {
                return Err(e);
            },
        }
        pos = pos + rb;
        left = left - 1;
    }
    Ok(out)
}

/// Bytes per decoded pixel.
pub open spec fn pixel_len(ct: u8, d: u8, trns: Option<Seq<u8>>) -> int {
    layout_channels(spec_layout(ct, trns)) * (if d == 16 { 2int } else { 1int })
}

proof fn lemma_pixel_len(row: Seq<u8>, ct: u8, d: u8, plte: Seq<u8>, trns: Option<Seq<u8>>, k: int)
    requires
        color_type_known(ct),
        depth_allowed(ct, d),
    ensures
        spec_pixel(row, ct, d, plte, trns, k) is Ok ==> spec_pixel(row, ct, d, plte, trns, k)->Ok_0.len()
            == pixel_len(ct, d, trns),
{
}

proof fn lemma_pixels_len(
    row: Seq<u8>,
    ct: u8,
    d: u8,
    plte: Seq<u8>,
    trns: Option<Seq<u8>>,
    k: int,
    left: nat,
    acc: Seq<u8>,
)
    requires
        color_type_known(ct),
        depth_allowed(ct, d),
    ensures
        expand_pixels_from(row, ct, d, plte, trns, k, left, acc) is Ok ==> expand_pixels_from(
            row,
            ct,
            d,
            plte,
            trns,
            k,
            left,
            acc,
        )->Ok_0.len() == acc.len() + left * pixel_len(ct, d, trns),
    decreases left,
{
    if left > 0 {
        lemma_pixel_len(row, ct, d, plte, trns, k);
        match spec_pixel(row, ct, d, plte, trns, k) {
            Ok(p) => {
                lemma_pixels_len(
                    row,
                    ct,
                    d,
                    plte,
                    trns,
                    k + spec_channels(ct),
                    (left - 1) as nat,
                    acc + p,
                );
                let pl = pixel_len(ct, d, trns);
                assert(left * pl == (left - 1) * pl + pl) by (nonlinear_arith);
            },
            Err(e) => {},
        }
    } else {
        let pl = pixel_len(ct, d, trns);
        assert(left * pl == 0) by (nonlinear_arith)
            requires
                left == 0,
        ;
    }
}

/// Every decoded scanline adds `width` pixels of `pixel_len` bytes each.
pub proof fn lemma_expand_rows_len(
    img: Seq<u8>,
    h: ImageHeader,
    plte: Seq<u8>,
    trns: Option<Seq<u8>>,
    pos: int,
    left: nat,
    acc: Seq<u8>,
)
    requires
        h.valid(),
    ensures
        expand_rows_from(img, h, plte, trns, pos, left, acc) is Ok ==> expand_rows_from(
            img,
            h,
            plte,
            trns,
            pos,
            left,
            acc,
        )->Ok_0.len() == acc.len() + left * (h.width * pixel_len(h.color_type, h.bit_depth, trns)),
    decreases left,
{
    if left > 0 {
        let rb = h.spec_row_bytes();
        let rowp = h.width * pixel_len(h.color_type, h.bit_depth, trns);
        lemma_pixels_len(
            img.subrange(pos, pos + rb),
            h.color_type,
            h.bit_depth,
            plte,
            trns,
            0,
            h.width as nat,
            acc,
        );
        match expand_pixels_from(
            img.subrange(pos, pos + rb),
            h.color_type,
            h.bit_depth,
            plte,
            trns,
            0,
            h.width as nat,
            acc,
        ) {
            Ok(a) => {
                lemma_expand_rows_len(img, h, plte, trns, pos + rb, (left - 1) as nat, a);
                assert(left * rowp == (left - 1) * rowp + rowp) by (nonlinear_arith);
            },
            Err(e) => {},
        }
    } else {
        let rowp = h.width * pixel_len(h.color_type, h.bit_depth, trns);
        assert(left * rowp == 0) by (nonlinear_arith)
            requires
                left == 0,
        ;
    }
}

} // verus!
