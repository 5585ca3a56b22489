use vstd::prelude::*;
use crate::error::ConvertError;

verus! {

/// Bytes in one row when a buffer of `len` bytes holds a `w` by `h` image:
/// the width times the bytes per pixel that the buffer's length implies.
pub open spec fn row_bytes(len: nat, w: nat, h: nat) -> nat {
    w * (len / (w * h))
}

/// The buffer `p` cut into consecutive rows of `row_bytes` bytes each, top to
/// bottom; trailing bytes that do not fill a whole row are dropped.
pub open spec fn rows_spec(p: Seq<u8>, w: nat, h: nat) -> Seq<Seq<u8>> {
    let n = row_bytes(p.len(), w, h);
    Seq::new(p.len() / n, |i: int| p.subrange(i * n, i * n + n))
}

proof fn lemma_row_bytes_bounds(len: nat, w: nat, h: nat)
    requires
        w > 0,
        h > 0,
        len >= w * h,
    ensures
        0 < row_bytes(len, w, h) <= len,
{
    let bpp = len / (w * h);
    assert(w * h > 0) by (nonlinear_arith)
        requires w > 0, h > 0;
    vstd::arithmetic::div_mod::lemma_fundamental_div_mod(len as int, (w * h) as int);
    assert(bpp >= 1) by (nonlinear_arith)
        requires len >= w * h, w * h > 0, bpp == len / (w * h);
    assert(w * bpp > 0) by (nonlinear_arith)
        requires w > 0, bpp >= 1;
    assert(w * bpp <= w * h * bpp) by (nonlinear_arith)
        requires w > 0, h > 0, bpp >= 1;
    assert(w * h * bpp <= len) by (nonlinear_arith)
        requires len == (w * h) * bpp + len % (w * h), len % (w * h) >= 0;
}

/// Cuts a flat buffer of pixel bytes into rows of `width` pixels.
///
/// The bytes per pixel are `pixels.len() / (width * height)`. Rows come out in
/// the buffer's order; bytes after the last whole row are dropped.
pub fn convert_pixels_to_vectors(pixels: Vec<u8>, width: u32, height: u32) -> (rows: Vec<Vec<u8>>)
    requires
        width > 0,
        height > 0,
        pixels@.len() >= width * height,
    ensures
        rows.deep_view() == rows_spec(pixels@, width as nat, height as nat),
{
    let ghost n = row_bytes(pixels@.len(), width as nat, height as nat);
    proof {
        lemma_row_bytes_bounds(pixels@.len(), width as nat, height as nat);
    }
    let len = pixels.len();
    let area: u64 = width as u64 * height as u64;
    assert(area > 0) by (nonlinear_arith)
        requires width > 0, height > 0, area == width * height;
    let bpp: u64 = len as u64 / area;
    assert(width as u64 * bpp <= len) by (nonlinear_arith)
        requires width * bpp == n, n <= len;
    let row_len: usize = (width as u64 * bpp) as usize;
    let count: usize = len / row_len;
    let mut rows: Vec<Vec<u8>> = Vec::new();
    let mut r: usize = 0;
    while r < count
        invariant
            row_len == n,
            0 < n <= len,
            len == pixels@.len(),
            count == len as nat / n,
            r <= count,
            rows@.len() == r,
            forall|i: int|
                0 <= i < r ==> #[trigger] rows@[i]@ == pixels@.subrange(i * n, i * n + n),
        decreases count - r,
    {
        assert(r * n + n <= len) by (nonlinear_arith)
            requires r < count, count == len as nat / n, n > 0;
        let start: usize = r * row_len;
        let end: usize = start + row_len;
        let mut row: Vec<u8> = Vec::new();
        let mut j: usize = start;
        while j < end
            invariant
                start <= j <= end,
                end <= len,
                len == pixels@.len(),
                row@ == pixels@.subrange(start as int, j as int),
            decreases end - j,
        {
            row.push(pixels[j]);
            j = j + 1;
            assert(row@ =~= pixels@.subrange(start as int, j as int));
        }
        rows.push(row);
        r = r + 1;
    }
    let ghost spec_rows = rows_spec(pixels@, width as nat, height as nat);
    assert forall|i: int| 0 <= i < rows@.len() implies rows.deep_view()[i] == spec_rows[i] by {
        assert(rows.deep_view()[i] == rows@[i]@);
    }
    assert(rows.deep_view() =~= spec_rows);
    rows
}

/// Whether a buffer of `len` bytes splits exactly into a `w` by `h` image of
/// whole pixels.
pub open spec fn fits_dimensions(len: nat, w: nat, h: nat) -> bool {
    w > 0 && h > 0 && len > 0 && len % (w * h) == 0
}

/// Cuts a pixel buffer into `height` rows of `width` pixels, after checking
/// that the dimensions split the buffer exactly, so that no byte is dropped.
pub fn split_rows(pixels: Vec<u8>, width: u32, height: u32) -> (r: Result<Vec<Vec<u8>>, ConvertError>)
    ensures
        r is Err <==> !fits_dimensions(pixels@.len(), width as nat, height as nat),
        r matches Err(e) ==> e is DimensionMismatch,
        r matches Ok(rows) ==> {
            &&& rows.deep_view() == rows_spec(pixels@, width as nat, height as nat)
            &&& rows@.len() == height
            &&& forall|i: int| 0 <= i < height ==> #[trigger] rows@[i]@.len() == row_bytes(pixels@.len(), width as nat, height as nat)
        },
{
    if width == 0 || height == 0 || pixels.len() == 0 {
        return Err(ConvertError::DimensionMismatch);
    }
    assert(width as u64 * height as u64 <= u64::MAX) by (nonlinear_arith)
        requires width <= u32::MAX, height <= u32::MAX;
    assert(width as u64 * height as u64 > 0) by (nonlinear_arith)
        requires width > 0, height > 0;
    let area: u64 = width as u64 * height as u64;
    if pixels.len() as u64 % area != 0 {
        return Err(ConvertError::DimensionMismatch);
    }
    proof {
        lemma_exact_rows(pixels@.len(), width as nat, height as nat);
        lemma_row_lengths(pixels@, width as nat, height as nat);
    }
    let ghost p = pixels@;
    let rows = convert_pixels_to_vectors(pixels, width, height);
    proof {
        assert(rows@.len() == rows.deep_view().len());
        assert forall|i: int| 0 <= i < height implies #[trigger] rows@[i]@.len() == row_bytes(p.len(), width as nat, height as nat) by {
            assert(rows@[i]@ == rows.deep_view()[i]);
        }
    }
    Ok(rows)
}

proof fn lemma_row_lengths(p: Seq<u8>, w: nat, h: nat)
    requires
        w > 0,
        h > 0,
        p.len() >= w * h,
    ensures
        forall|i: int|
            0 <= i < rows_spec(p, w, h).len() ==> (#[trigger] rows_spec(p, w, h)[i]).len()
                == row_bytes(p.len(), w, h),
{
    let n = row_bytes(p.len(), w, h);
    lemma_row_bytes_bounds(p.len(), w, h);
    assert forall|i: int| 0 <= i < rows_spec(p, w, h).len() implies (#[trigger] rows_spec(p, w, h)[i]).len() == n by {
        assert(rows_spec(p, w, h).len() == p.len() / n);
        assert(i * n + n <= p.len()) by (nonlinear_arith)
            requires 0 <= i < p.len() / n, n > 0;
        assert(0 <= i * n) by (nonlinear_arith)
            requires 0 <= i, n > 0;
    }
}

proof fn lemma_exact_rows(len: nat, w: nat, h: nat)
    requires
        fits_dimensions(len, w, h),
    ensures
        len >= w * h,
        len / row_bytes(len, w, h) == h,
{
    let bpp = len / (w * h);
    assert(w * h > 0) by (nonlinear_arith)
        requires w > 0, h > 0;
    vstd::arithmetic::div_mod::lemma_fundamental_div_mod(len as int, (w * h) as int);
    assert(len == w * h * bpp);
    assert(bpp > 0) by (nonlinear_arith)
        requires len == w * h * bpp, len > 0;
    assert(len >= w * h) by (nonlinear_arith)
        requires len == w * h * bpp, bpp > 0, w * h > 0;
    assert(len == (w * bpp) * h) by (nonlinear_arith)
        requires len == w * h * bpp;
    assert(w * bpp > 0) by (nonlinear_arith)
        requires w > 0, bpp > 0;
    vstd::arithmetic::div_mod::lemma_div_by_multiple(h as int, (w * bpp) as int);
    assert(len / (w * bpp) == h) by (nonlinear_arith)
        requires len == (w * bpp) * h, (h * (w * bpp)) / (w * bpp) == h;
}

/// A buffer of `n * m * 4` bytes cut with width `n` and height `m` gives
/// exactly `m` rows, each of `n * 4` bytes.
pub proof fn lemma_row_count(p: Seq<u8>, n: nat, m: nat)
    requires
        n > 0,
        m > 0,
        p.len() == n * m * 4,
    ensures
        rows_spec(p, n, m).len() == m,
        forall|i: int| 0 <= i < m ==> (#[trigger] rows_spec(p, n, m)[i]).len() == n * 4,
{
    assert(n * m > 0) by (nonlinear_arith)
        requires n > 0, m > 0;
    vstd::arithmetic::div_mod::lemma_div_by_multiple(4, (n * m) as int);
    assert(p.len() / (n * m) == 4) by (nonlinear_arith)
        requires p.len() == n * m * 4, (4 * (n * m)) / (n * m) == 4;
    assert(p.len() % (n * m) == 0) by (nonlinear_arith)
        requires p.len() == n * m * 4, n * m > 0;
    lemma_exact_rows(p.len(), n, m);
    lemma_row_lengths(p, n, m);
    assert(row_bytes(p.len(), n, m) == n * 4);
}

} // verus!
