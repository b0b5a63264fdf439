use vstd::prelude::*;

use crate::cursor::slice_range;
use crate::error::DecodeError;

verus! {

/// Distance between two integers.
pub open spec fn dist(x: int, y: int) -> int {
    if x >= y {
        x - y
    } else {
        y - x
    }
}

/// The Paeth predictor: of left `a`, above `b` and upper-left `c`, the one
/// nearest to `a + b - c`, ties going to `a`, then `b`.
pub open spec fn spec_paeth(a: u8, b: u8, c: u8) -> u8 {
    let p = a as int + b as int - c as int;
    let pa = dist(p, a as int);
    let pb = dist(p, b as int);
    let pc = dist(p, c as int);
    if pa <= pb && pa <= pc {
        a
    } else if pb <= pc {
        b
    } else {
        c
    }
}

/// Computes the Paeth predictor.
pub fn paeth(a: u8, b: u8, c: u8) -> (r: u8)
    ensures
        r == spec_paeth(a, b, c),
{
    let p: i16 = a as i16 + b as i16 - c as i16;
    let pa: i16 = if p >= a as i16 { p - a as i16 } else { a as i16 - p };
    let pb: i16 = if p >= b as i16 { p - b as i16 } else { b as i16 - p };
    let pc: i16 = if p >= c as i16 { p - c as i16 } else { c as i16 - p };
    if pa <= pb && pa <= pc {
        a
    } else if pb <= pc {
        b
    } else {
        c
    }
}

/// `x + y` modulo 256.
pub open spec fn add_mod(x: u8, y: int) -> u8 {
    ((x as int + y) % 256) as u8
}

/// The reconstructed byte for filtered byte `x` under filter type `ft`, given
/// the reconstructed bytes to the left (`a`), above (`b`) and upper-left (`c`).
pub open spec fn spec_recon(ft: u8, x: u8, a: u8, b: u8, c: u8) -> u8 {
    if ft == 0 {
        x
    } else if ft == 1 {
        add_mod(x, a as int)
    } else if ft == 2 {
        add_mod(x, b as int)
    } else if ft == 3 {
        add_mod(x, (a as int + b as int) / 2)
    } else {
        add_mod(x, spec_paeth(a, b, c) as int)
    }
}

/// Reverses one filter on one byte.
pub fn recon(ft: u8, x: u8, a: u8, b: u8, c: u8) -> (r: u8)
    ensures
        r == spec_recon(ft, x, a, b, c),
{
    let pred: u16 = if ft == 0 {
        0
    } else if ft == 1 {
        a as u16
    } else if ft == 2 {
        b as u16
    } else if ft == 3 {
        (a as u16 + b as u16) / 2
    } else {
        paeth(a, b, c) as u16
    };
    ((x as u16 + pred) % 256) as u8
}

/// The value that filter type `ft` predicts from the left (`a`), above (`b`)
/// and upper-left (`c`) bytes.
pub open spec fn spec_predict(ft: u8, a: u8, b: u8, c: u8) -> int {
    if ft == 0 {
        0
    } else if ft == 1 {
        a as int
    } else if ft == 2 {
        b as int
    } else if ft == 3 {
        (a as int + b as int) / 2
    } else {
        spec_paeth(a, b, c) as int
    }
}

/// How an encoder filters scanline `row` with type `ft`, below the scanline
/// `prev`: each byte minus its prediction from the original bytes, modulo 256.
pub open spec fn spec_filter_row(ft: u8, row: Seq<u8>, prev: Seq<u8>, bpp: int) -> Seq<u8> {
    Seq::new(
        row.len(),
        |i: int|
            {
                let a: u8 = if i >= bpp { row[i - bpp] } else { 0 };
                let c: u8 = if i >= bpp { prev[i - bpp] } else { 0 };
                ((row[i] as int - spec_predict(ft, a, prev[i], c)) % 256) as u8
            },
    )
}

proof fn lemma_recon_undoes_filter(ft: u8, x: u8, a: u8, b: u8, c: u8)
    requires
        ft <= 4,
    ensures
        spec_recon(ft, ((x as int - spec_predict(ft, a, b, c)) % 256) as u8, a, b, c) == x,
{
    let p = spec_predict(ft, a, b, c);
    assert(0 <= p < 256);
    let f = (x as int - p) % 256;
    assert(0 <= f < 256);
    assert((f + p) % 256 == x as int) by {
        assert(x as int - p == 256 * ((x as int - p) / 256) + f);
    }
}

proof fn lemma_unfilter_prefix_filtered(ft: u8, row: Seq<u8>, prev: Seq<u8>, bpp: int, n: int)
    requires
        ft <= 4,
        bpp >= 1,
        prev.len() == row.len(),
        0 <= n <= row.len(),
    ensures
        unfilter_prefix(ft, spec_filter_row(ft, row, prev, bpp), prev, bpp, n) == row.subrange(0, n),
    decreases n,
{
    if n > 0 {
        lemma_unfilter_prefix_filtered(ft, row, prev, bpp, n - 1);
        let i = n - 1;
        let a: u8 = if i >= bpp { row[i - bpp] } else { 0 };
        let c: u8 = if i >= bpp { prev[i - bpp] } else { 0 };
        lemma_recon_undoes_filter(ft, row[i], a, prev[i], c);
        assert(row.subrange(0, n - 1).push(row[i]) =~= row.subrange(0, n));
    } else {
        assert(row.subrange(0, 0) =~= seq![]);
    }
}

/// Unfiltering reverses filtering: for each of the five filter types, a
/// scanline filtered as an encoder does it reconstructs to the original bytes.
pub proof fn lemma_unfilter_reverses_filter(ft: u8, row: Seq<u8>, prev: Seq<u8>, bpp: int)
    requires
        ft <= 4,
        bpp >= 1,
        prev.len() == row.len(),
    ensures
        spec_unfilter_row(ft, spec_filter_row(ft, row, prev, bpp), prev, bpp) == row,
{
    lemma_unfilter_prefix_filtered(ft, row, prev, bpp, row.len() as int);
    assert(row.subrange(0, row.len() as int) =~= row);
}

/// The first `n` reconstructed bytes of a scanline `cur` filtered with type
/// `ft`, above which stands the reconstructed scanline `prev`; `bpp` is the
/// byte distance to the left neighbour.
pub open spec fn unfilter_prefix(ft: u8, cur: Seq<u8>, prev: Seq<u8>, bpp: int, n: int) -> Seq<u8>
    decreases n,
{
    if n <= 0 {
        seq![]
    } else {
        let done = unfilter_prefix(ft, cur, prev, bpp, n - 1);
        let i = n - 1;
        let a: u8 = if i >= bpp { done[i - bpp] } else { 0 };
        let c: u8 = if i >= bpp { prev[i - bpp] } else { 0 };
        done.push(spec_recon(ft, cur[i], a, prev[i], c))
    }
}

/// The reconstruction of a whole scanline.
pub open spec fn spec_unfilter_row(ft: u8, cur: Seq<u8>, prev: Seq<u8>, bpp: int) -> Seq<u8> {
    unfilter_prefix(ft, cur, prev, bpp, cur.len() as int)
}

/// Reverses the filter of one scanline.
pub fn unfilter_row(ft: u8, cur: &[u8], prev: &[u8], bpp: usize) -> (r: Vec<u8>)
    requires
        cur@.len() == prev@.len(),
        bpp >= 1,
    ensures
        r@ == spec_unfilter_row(ft, cur@, prev@, bpp as int),
        r@.len() == cur@.len(),
{
    let mut out: Vec<u8> = Vec::with_capacity(cur.len());
    let mut i: usize = 0;
    while i < cur.len()
        invariant
            i <= cur@.len(),
            bpp >= 1,
            cur@.len() == prev@.len(),
            out@ == unfilter_prefix(ft, cur@, prev@, bpp as int, i as int),
            out@.len() == i,
        decreases cur@.len() - i,
    {
        let a: u8 = if i >= bpp { out[i - bpp] } else { 0 };
        let c: u8 = if i >= bpp { prev[i - bpp] } else { 0 };
        let v = recon(ft, cur[i], a, prev[i], c);
        out.push(v);
        i = i + 1;
    }
    out
}

/// The reconstruction of `left` scanlines of `rb` bytes each, the first of
/// which (with its filter-type byte) starts at `pos` of `raw`, below the
/// reconstructed scanline `prev`; `acc` holds what came before.
pub open spec fn unfilter_rows_from(
    raw: Seq<u8>,
    pos: int,
    rb: int,
    bpp: int,
    prev: Seq<u8>,
    left: nat,
    acc: Seq<u8>,
) -> Result<Seq<u8>, DecodeError>
    decreases left,
{
    if left == 0 {
        Ok(acc)
    } else {
        let ft = raw[pos];
        if ft > 4 {
            Err(DecodeError::InvalidFilterType)
        } else {
            let row = spec_unfilter_row(ft, raw.subrange(pos + 1, pos + 1 + rb), prev, bpp);
            unfilter_rows_from(raw, pos + 1 + rb, rb, bpp, row, (left - 1) as nat, acc + row)
        }
    }
}

/// A scanline of zero bytes, which stands above the first one.
pub open spec fn zero_row(rb: int) -> Seq<u8> {
    Seq::new(rb as nat, |i: int| 0u8)
}

/// The reconstruction of `rows` filtered scanlines of `rb` bytes each, laid
/// out one after the other without their filter-type bytes.
pub open spec fn spec_unfilter_image(raw: Seq<u8>, rb: int, bpp: int, rows: nat) -> Result<
    Seq<u8>,
    DecodeError,
> {
    unfilter_rows_from(raw, 0, rb, bpp, zero_row(rb), rows, seq![])
}

/// Reverses the filters of `rows` scanlines of `rb` bytes each.
pub fn unfilter_image(raw: &[u8], rb: usize, bpp: usize, rows: usize) -> (r: Result<Vec<u8>, DecodeError>)
    requires
        rows * (rb + 1) <= raw@.len(),
        bpp >= 1,
    ensures
        match spec_unfilter_image(raw@, rb as int, bpp as int, rows as nat) {
            Ok(v) => r is Ok && r->Ok_0@ == v,
            Err(e) => r == Err::<Vec<u8>, DecodeError>(e),
        },
        r is Ok ==> r->Ok_0@.len() == rows * rb,
{
    let mut prev: Vec<u8> = vec![0u8; rb];
    assert(prev@ =~= zero_row(rb as int));
    let mut out: Vec<u8> = Vec::new();
    let mut pos: usize = 0;
    let mut left: usize = rows;
    while left > 0
        invariant
            bpp >= 1,
            prev@.len() == rb,
            pos + left * (rb + 1) <= raw@.len(),
            left <= rows,
            out@.len() + left * rb == rows * rb,
            unfilter_rows_from(raw@, pos as int, rb as int, bpp as int, prev@, left as nat, out@)
                == spec_unfilter_image(raw@, rb as int, bpp as int, rows as nat),
        decreases left,
    {
        assert(left * (rb + 1) == (left - 1) * (rb + 1) + rb + 1) by (nonlinear_arith);
        assert(left * rb == (left - 1) * rb + rb) by (nonlinear_arith);
        assert((left - 1) * (rb + 1) >= 0) by (nonlinear_arith)
            requires
                left >= 1,
        ;
        let ft = raw[pos];
        if ft > 4 {
            return Err(DecodeError::InvalidFilterType);
        }
        let cur = slice_range(raw, pos + 1, pos + 1 + rb);
        let row = unfilter_row(ft, cur, prev.as_slice(), bpp);
        let ghost before = out@;
        let mut k: usize = 0;
        while k < row.len()
            invariant
                k <= row@.len(),
                out@ == before + row@.subrange(0, k as int),
            decreases row@.len() - k,
        {
            out.push(row[k]);
            k = k + 1;
            assert(out@ =~= before + row@.subrange(0, k as int));
        }
        assert(row@.subrange(0, row@.len() as int) =~= row@);
        prev = row;
        pos = pos + 1 + rb;
        left = left - 1;
    }
    Ok(out)
}

} // verus!
