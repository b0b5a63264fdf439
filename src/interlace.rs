use vstd::prelude::*;

use crate::cursor::slice_range;
use crate::error::DecodeError;
use crate::expand::{expand_image, lemma_expand_rows_len, pixel_len, spec_expand_image, trns_view};
use crate::filter::{spec_unfilter_image, unfilter_image};
use crate::header::ImageHeader;


verus! {

/// Column of the first pixel of Adam7 pass `p` (0 to 6).
pub open spec fn adam7_x0(p: int) -> int {
    if p == 1 {
        4
    } else if p == 3 {
        2
    } else if p == 5 {
        1
    } else {
        0
    }
}

/// Row of the first pixel of Adam7 pass `p`.
pub open spec fn adam7_y0(p: int) -> int {
    if p == 2 {
        4
    } else if p == 4 {
        2
    } else if p == 6 {
        1
    } else {
        0
    }
}

/// Column step of Adam7 pass `p`.
pub open spec fn adam7_dx(p: int) -> int {
    if p <= 1 {
        8
    } else if p <= 3 {
        4
    } else if p <= 5 {
        2
    } else {
        1
    }
}

/// Row step of Adam7 pass `p`.
pub open spec fn adam7_dy(p: int) -> int {
    if p <= 2 {
        8
    } else if p <= 4 {
        4
    } else {
        2
    }
}

/// How many of `size` positions a pass starting at `start` with `step` covers.
pub open spec fn pass_extent(size: int, start: int, step: int) -> int {
    if size > start {
        (size - start + step - 1) / step
    } else {
        0
    }
}

/// The reduced image that pass `p` of `h` holds.
pub open spec fn pass_header(h: ImageHeader, p: int) -> ImageHeader {
    ImageHeader {
        width: pass_extent(h.width as int, adam7_x0(p), adam7_dx(p)) as u32,
        height: pass_extent(h.height as int, adam7_y0(p), adam7_dy(p)) as u32,
        ..h
    }
}

/// The pass to which the pixel at column `x`, row `y` belongs.
pub open spec fn pass_of(x: int, y: int) -> int {
    if y % 2 == 1 {
        6
    } else if x % 2 == 1 {
        5
    } else if y % 4 == 2 {
        4
    } else if x % 4 == 2 {
        3
    } else if y % 8 == 4 {
        2
    } else if x % 8 == 4 {
        1
    } else {
        0
    }
}

/// The decoded pixels of passes `p` to 6, whose filtered data starts at `off`
/// of `raw`, appended to `acc` (an empty pass gives an empty sequence).
pub open spec fn decode_passes_from(
    raw: Seq<u8>,
    h: ImageHeader,
    plte: Seq<u8>,
    trns: Option<Seq<u8>>,
    p: nat,
    off: int,
    acc: Seq<Seq<u8>>,
) -> Result<Seq<Seq<u8>>, DecodeError>
    decreases 7 - p,
{
    if p >= 7 {
        Ok(acc)
    } else {
        let ph = pass_header(h, p as int);
        if ph.width == 0 || ph.height == 0 {
            decode_passes_from(raw, h, plte, trns, p + 1, off, acc.push(seq![]))
        } else {
            let rb = ph.spec_row_bytes();
            let len = ph.height * (rb + 1);
            if off + len > raw.len() {
                Err(DecodeError::TruncatedStream)
            } else {
                match spec_unfilter_image(
                    raw.subrange(off, off + len),
                    rb,
                    h.spec_filter_stride(),
                    ph.height as nat,
                ) {
                    Err(e) => Err(e),
                    Ok(img) => match spec_expand_image(img, ph, plte, trns) {
                        Err(e) => Err(e),
                        Ok(px) => decode_passes_from(raw, h, plte, trns, p + 1, off + len, acc.push(px)),
                    },
                }
            }
        }
    }
}

/// Bytes of each pass's decoded pixels.
pub open spec fn pass_len(h: ImageHeader, trns: Option<Seq<u8>>, p: int) -> int {
    pass_header(h, p).width as int * pass_header(h, p).height as int * pixel_len(
        h.color_type,
        h.bit_depth,
        trns,
    )
}

proof fn lemma_pass_extent(size: int, p: int)
    requires
        0 <= size,
        0 <= p < 7,
    ensures
        0 <= pass_extent(size, adam7_x0(p), adam7_dx(p)) <= size,
        0 <= pass_extent(size, adam7_y0(p), adam7_dy(p)) <= size,
{
}

pub proof fn lemma_passes_len(
    raw: Seq<u8>,
    h: ImageHeader,
    plte: Seq<u8>,
    trns: Option<Seq<u8>>,
    p: nat,
    off: int,
    acc: Seq<Seq<u8>>,
)
    requires
        h.valid(),
        p <= 7,
        acc.len() == p,
        forall|i: int| 0 <= i < p ==> #[trigger] acc[i].len() == pass_len(h, trns, i),
    ensures
        decode_passes_from(raw, h, plte, trns, p, off, acc) is Ok ==> {
            let r = decode_passes_from(raw, h, plte, trns, p, off, acc)->Ok_0;
            &&& r.len() == 7
            &&& forall|i: int| 0 <= i < 7 ==> #[trigger] r[i].len() == pass_len(h, trns, i)
        },
    decreases 7 - p,
{
    if p < 7 {
        let ph = pass_header(h, p as int);
        lemma_pass_extent(h.width as int, p as int);
        lemma_pass_extent(h.height as int, p as int);
        let pl = pixel_len(h.color_type, h.bit_depth, trns);
        if ph.width == 0 || ph.height == 0 {
            assert(ph.width as int * ph.height as int * pl == 0) by (nonlinear_arith)
                requires
                    ph.width == 0 || ph.height == 0,
            ;
            lemma_passes_len(raw, h, plte, trns, p + 1, off, acc.push(seq![]));
        } else {
            let rb = ph.spec_row_bytes();
            let len = ph.height * (rb + 1);
            if off + len <= raw.len() {
                match spec_unfilter_image(
                    raw.subrange(off, off + len),
                    rb,
                    h.spec_filter_stride(),
                    ph.height as nat,
                ) {
                    Err(e) => {},
                    Ok(img) => {
                        lemma_expand_rows_len(img, ph, plte, trns, 0, ph.height as nat, seq![]);
                        assert(ph.height * (ph.width * pl) == ph.width as int * ph.height as int * pl)
                            by (nonlinear_arith);
                        match spec_expand_image(img, ph, plte, trns) {
                            Err(e) => {},
                            Ok(px) => {
                                lemma_passes_len(raw, h, plte, trns, p + 1, off + len, acc.push(px));
                            },
                        }
                    },
                }
            }
        }
    }
}

/// The bytes of the pixel at column `x`, row `y` of the full image, taken
/// from the decoded pixels of its pass; `n` is the byte count of a pixel.
pub open spec fn interlaced_pixel(passes: Seq<Seq<u8>>, h: ImageHeader, n: int, x: int, y: int) -> Seq<u8> {
    let p = pass_of(x, y);
    let px = (x - adam7_x0(p)) / adam7_dx(p);
    let py = (y - adam7_y0(p)) / adam7_dy(p);
    let pw = pass_extent(h.width as int, adam7_x0(p), adam7_dx(p));
    let start = (py * pw + px) * n;
    Seq::new(n as nat, |c: int| passes[p][start + c])
}

/// `left` pixels of row `y` from column `x` on, appended to `acc`.
pub open spec fn interleave_row(
    passes: Seq<Seq<u8>>,
    h: ImageHeader,
    n: int,
    y: int,
    x: int,
    left: nat,
    acc: Seq<u8>,
) -> Seq<u8>
    decreases left,
{
    if left == 0 {
        acc
    } else {
        interleave_row(passes, h, n, y, x + 1, (left - 1) as nat, acc + interlaced_pixel(passes, h, n, x, y))
    }
}

/// `left` rows from row `y` on, appended to `acc`.
pub open spec fn interleave_rows(passes: Seq<Seq<u8>>, h: ImageHeader, n: int, y: int, left: nat, acc: Seq<u8>) -> Seq<u8>
    decreases left,
{
    if left == 0 {
        acc
    } else {
        interleave_rows(passes, h, n, y + 1, (left - 1) as nat, interleave_row(passes, h, n, y, 0, h.width as nat, acc))
    }
}

/// The decoded pixels of an Adam7-interlaced image whose inflated data is `raw`.
pub open spec fn spec_decode_interlaced(
    raw: Seq<u8>,
    h: ImageHeader,
    plte: Seq<u8>,
    trns: Option<Seq<u8>>,
) -> Result<Seq<u8>, DecodeError> {
    match decode_passes_from(raw, h, plte, trns, 0, 0, seq![]) {
        Err(e) => Err(e),
        Ok(passes) => Ok(
            interleave_rows(passes, h, pixel_len(h.color_type, h.bit_depth, trns), 0, h.height as nat, seq![]),
        ),
    }
}

proof fn lemma_pass_coords(x: int, y: int, w: int, hh: int)
    requires
        0 <= x < w,
        0 <= y < hh,
    ensures
        ({
            let p = pass_of(x, y);
            &&& 0 <= p < 7
            &&& adam7_x0(p) <= x
            &&& adam7_y0(p) <= y
            &&& 0 <= (x - adam7_x0(p)) / adam7_dx(p) < pass_extent(w, adam7_x0(p), adam7_dx(p))
            &&& 0 <= (y - adam7_y0(p)) / adam7_dy(p) < pass_extent(hh, adam7_y0(p), adam7_dy(p))
        }),
{
    let p = pass_of(x, y);
    if y % 2 == 1 {
        assert(p == 6);
        assert((y - 1) / 2 < (hh - 1 + 1) / 2);
    } else if x % 2 == 1 {
        assert(p == 5);
        assert((x - 1) / 2 < (w - 1 + 1) / 2);
        assert(y / 2 < (hh + 1) / 2);
    } else if y % 4 == 2 {
        assert(p == 4);
        assert(x / 2 < (w + 1) / 2);
        assert((y - 2) / 4 < (hh - 2 + 3) / 4);
    } else if x % 4 == 2 {
        assert(p == 3);
        assert(y % 4 == 0);
        assert((x - 2) / 4 < (w - 2 + 3) / 4);
        assert(y / 4 < (hh + 3) / 4);
    } else if y % 8 == 4 {
        assert(p == 2);
        assert(x % 4 == 0);
        assert(x / 4 < (w + 3) / 4);
        assert((y - 4) / 8 < (hh - 4 + 7) / 8);
    } else if x % 8 == 4 {
        assert(p == 1);
        assert(y % 8 == 0);
        assert((x - 4) / 8 < (w - 4 + 7) / 8);
        assert(y / 8 < (hh + 7) / 8);
    } else {
        assert(p == 0);
        assert(x / 8 < (w + 7) / 8);
        assert(y / 8 < (hh + 7) / 8);
    }
}

/// The view of a list of byte vectors.
pub open spec fn vecs_view(v: Seq<Vec<u8>>) -> Seq<Seq<u8>> {
    v.map_values(|b: Vec<u8>| b@)
}

/// First column, first row, column step and row step of Adam7 pass `p`.
pub fn adam7_geometry(p: u64) -> (r: (u64, u64, u64, u64))
    requires
        p < 7,
    ensures
        r.0 as int == adam7_x0(p as int),
        r.1 as int == adam7_y0(p as int),
        r.2 as int == adam7_dx(p as int),
        r.3 as int == adam7_dy(p as int),
{
    let x0: u64 = if p == 1 { 4 } else if p == 3 { 2 } else if p == 5 { 1 } else { 0 };
    let y0: u64 = if p == 2 { 4 } else if p == 4 { 2 } else if p == 6 { 1 } else { 0 };
    let dx: u64 = if p <= 1 { 8 } else if p <= 3 { 4 } else if p <= 5 { 2 } else { 1 };
    let dy: u64 = if p <= 2 { 8 } else if p <= 4 { 4 } else { 2 };
    (x0, y0, dx, dy)
}

/// The reduced image that pass `p` holds.
pub fn pass_dims(h: &ImageHeader, p: u64) -> (r: ImageHeader)
    requires
        p < 7,
    ensures
        r == pass_header(*h, p as int),
{
    let (x0, y0, dx, dy) = adam7_geometry(p);
    proof {
        lemma_pass_extent(h.width as int, p as int);
        lemma_pass_extent(h.height as int, p as int);
    }
    let w: u64 = if h.width as u64 > x0 { (h.width as u64 - x0 + dx - 1) / dx } else { 0 };
    let hh: u64 = if h.height as u64 > y0 { (h.height as u64 - y0 + dy - 1) / dy } else { 0 };
    ImageHeader { width: w as u32, height: hh as u32, ..*h }
}

/// The pass to which the pixel at column `x`, row `y` belongs.
pub fn adam7_pass(x: u32, y: u32) -> (r: u64)
    ensures
        r as int == pass_of(x as int, y as int),
{
    if y % 2 == 1 {
        6
    } else if x % 2 == 1 {
        5
    } else if y % 4 == 2 {
        4
    } else if x % 4 == 2 {
        3
    } else if y % 8 == 4 {
        2
    } else if x % 8 == 4 {
        1
    } else {
        0
    }
}

/// Decodes the seven passes of an interlaced image's inflated data.
#[verifier::rlimit(100)]
pub fn decode_passes(raw: &[u8], h: &ImageHeader, plte: &[u8], trns: Option<&[u8]>) -> (r: Result<
    Vec<Vec<u8>>,
    DecodeError,
>)
    requires
        h.valid(),
    ensures
        match decode_passes_from(raw@, *h, plte@, trns_view(trns), 0, 0, seq![]) {
            Ok(v) => r is Ok && vecs_view(r->Ok_0@) == v,
            Err(e) => r == Err::<Vec<Vec<u8>>, DecodeError>(e),
        },
{
    let mut passes: Vec<Vec<u8>> = Vec::new();
    let mut off: usize = 0;
    let mut p: u64 = 0;
    let stride = h.filter_stride();
    assert(vecs_view(passes@) =~= seq![]);
    while p < 7
        invariant
            h.valid(),
            p <= 7,
            off <= raw@.len(),
            stride == h.spec_filter_stride(),
            stride >= 1,
            decode_passes_from(raw@, *h, plte@, trns_view(trns), p as nat, off as int, vecs_view(passes@))
                == decode_passes_from(raw@, *h, plte@, trns_view(trns), 0, 0, seq![]),
        decreases 7 - p,
    {
        let ph = pass_dims(h, p);
        if ph.width == 0 || ph.height == 0 {
            let ghost before = vecs_view(passes@);
            passes.push(Vec::new());
            assert(vecs_view(passes@) =~= before.push(seq![]));
        } else {
            assert(ph.valid());
            let rb = ph.row_bytes();
            assert(ph.height as int * (rb + 1) <= 0xffff_ffff * (0xffff_ffff * 8 + 2))
                by (nonlinear_arith)
                requires
                    rb <= 0xffff_ffff * 8 + 1,
                    ph.height <= 0xffff_ffff,
            ;
            let len128: u128 = ph.height as u128 * (rb as u128 + 1);
            if len128 > (raw.len() - off) as u128 {
                return Err(DecodeError::TruncatedStream);
            }
            let len = len128 as usize;
            assert(rb + 1 <= ph.height as int * (rb + 1)) by (nonlinear_arith)
                requires
                    ph.height >= 1,
                    rb >= 0,
            ;
            let slice = slice_range(raw, off, off + len);
            let img = match unfilter_image(slice, rb as usize, stride, ph.height as usize) {
                Ok(v) => v,
                Err(e) => {
                    return Err(e);
                },
            };
            let px = match expand_image(img.as_slice(), &ph, plte, trns) {
                Ok(v) => v,
                Err(e) => {
                    return Err(e);
                },
            };
            let ghost before = vecs_view(passes@);
            let ghost pxv = px@;
            passes.push(px);
            assert(vecs_view(passes@) =~= before.push(pxv));
            off = off + len;
        }
        p = p + 1;
    }
    Ok(passes)
}

proof fn lemma_pixel_index(py: int, px: int, pw: int, ph: int, n: int)
    requires
        0 <= py < ph,
        0 <= px < pw,
        0 <= n,
    ensures
        0 <= (py * pw + px) * n,
        (py * pw + px) * n + n <= pw * ph * n,
{
    assert(py * pw + px + 1 <= ph * pw) by (nonlinear_arith)
        requires
            0 <= py < ph,
            0 <= px < pw,
    ;
    assert(0 <= py * pw) by (nonlinear_arith)
        requires
            0 <= py,
            0 <= pw,
    ;
    let q = py * pw + px;
    assert(q * n + n <= (ph * pw) * n) by (nonlinear_arith)
        requires
            q + 1 <= ph * pw,
            0 <= n,
    ;
    assert(0 <= q * n) by (nonlinear_arith)
        requires
            0 <= q,
            0 <= n,
    ;
    assert((ph * pw) * n == pw * ph * n) by (nonlinear_arith);
}

/// Lays the pixels of the seven decoded passes out as the full image.
pub fn interleave(passes: &Vec<Vec<u8>>, h: &ImageHeader, n: usize) -> (r: Vec<u8>)
    requires
        h.valid(),
        n >= 1,
        passes@.len() == 7,
        forall|i: int|
            0 <= i < 7 ==> #[trigger] passes@[i]@.len() == pass_header(*h, i).width as int
                * pass_header(*h, i).height as int * n,
    ensures
        r@ == interleave_rows(vecs_view(passes@), *h, n as int, 0, h.height as nat, seq![]),
{
    let ghost pv = vecs_view(passes@);
    let mut out: Vec<u8> = Vec::new();
    let mut y: u32 = 0;
    while y < h.height
        invariant
            h.valid(),
            n >= 1,
            y <= h.height,
            passes@.len() == 7,
            pv == vecs_view(passes@),
            forall|i: int|
                0 <= i < 7 ==> #[trigger] passes@[i]@.len() == pass_header(*h, i).width as int
                    * pass_header(*h, i).height as int * n,
            interleave_rows(pv, *h, n as int, y as int, (h.height - y) as nat, out@)
                == interleave_rows(pv, *h, n as int, 0, h.height as nat, seq![]),
        decreases h.height - y,
    {
        let ghost row_start = out@;
        let mut x: u32 = 0;
        while x < h.width
            invariant
                h.valid(),
                n >= 1,
                x <= h.width,
                y < h.height,
                passes@.len() == 7,
                pv == vecs_view(passes@),
                forall|i: int|
                    0 <= i < 7 ==> #[trigger] passes@[i]@.len() == pass_header(*h, i).width as int
                        * pass_header(*h, i).height as int * n,
                interleave_row(pv, *h, n as int, y as int, x as int, (h.width - x) as nat, out@)
                    == interleave_row(pv, *h, n as int, y as int, 0, h.width as nat, row_start),
            decreases h.width - x,
        {
            proof {
                lemma_pass_coords(x as int, y as int, h.width as int, h.height as int);
            }
            let p = adam7_pass(x, y);
            let (x0, y0, dx, dy) = adam7_geometry(p);
            let px = (x as u64 - x0) / dx;
            let py = (y as u64 - y0) / dy;
            let dims = pass_dims(h, p);
            proof {
                lemma_pass_extent(h.width as int, p as int);
                lemma_pass_extent(h.height as int, p as int);
                lemma_pixel_index(py as int, px as int, dims.width as int, dims.height as int, n as int);
            }
            let src: &Vec<u8> = &passes[p as usize];
            assert(src@ == pv[p as int]);
            let total = src.len();
            assert(py as int * dims.width as int <= (py as int * dims.width as int + px as int) * n as int)
                by (nonlinear_arith)
                requires
                    n >= 1,
                    py >= 0,
                    dims.width >= 0,
                    px >= 0,
            ;
            let start = ((py as u128 * dims.width as u128 + px as u128) * n as u128) as usize;
            let ghost before = out@;
            let mut c: usize = 0;
            while c < n
                invariant
                    c <= n,
                    total == src@.len(),
                    start + n <= src@.len(),
                    out@ == before + src@.subrange(start as int, start + c),
                decreases n - c,
            {
                out.push(src[start + c]);
                c = c + 1;
                assert(out@ =~= before + src@.subrange(start as int, start + c));
            }
            assert(src@.subrange(start as int, start + n) =~= interlaced_pixel(
                pv,
                *h,
                n as int,
                x as int,
                y as int,
            ));
            x = x + 1;
        }
        y = y + 1;
    }
    out
}

proof fn lemma_interleave_row_len(
    passes: Seq<Seq<u8>>,
    h: ImageHeader,
    n: int,
    y: int,
    x: int,
    left: nat,
    acc: Seq<u8>,
)
    requires
        n >= 0,
    ensures
        interleave_row(passes, h, n, y, x, left, acc).len() == acc.len() + left * n,
    decreases left,
{
    if left > 0 {
        lemma_interleave_row_len(passes, h, n, y, x + 1, (left - 1) as nat, acc + interlaced_pixel(passes, h, n, x, y));
        assert(left * n == (left - 1) * n + n) by (nonlinear_arith);
    } else {
        assert(left * n == 0) by (nonlinear_arith)
            requires
                left == 0,
        ;
    }
}

/// Each interleaved row adds `width` pixels of `n` bytes.
pub proof fn lemma_interleave_rows_len(
    passes: Seq<Seq<u8>>,
    h: ImageHeader,
    n: int,
    y: int,
    left: nat,
    acc: Seq<u8>,
)
    requires
        n >= 0,
    ensures
        interleave_rows(passes, h, n, y, left, acc).len() == acc.len() + left * (h.width * n),
    decreases left,
{
    let rowl = h.width * n;
    if left > 0 {
        lemma_interleave_row_len(passes, h, n, y, 0, h.width as nat, acc);
        lemma_interleave_rows_len(
            passes,
            h,
            n,
            y + 1,
            (left - 1) as nat,
            interleave_row(passes, h, n, y, 0, h.width as nat, acc),
        );
        assert(left * rowl == (left - 1) * rowl + rowl) by (nonlinear_arith);
    } else {
        assert(left * rowl == 0) by (nonlinear_arith)
            requires
                left == 0,
        ;
    }
}

} // verus!
