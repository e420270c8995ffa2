//! The pixel buffer and what "correctly rendered" means.
//!
//! The buffer is a flat row-major sequence of intensities. A rendered buffer
//! is one whose every entry equals a fixed per-point intensity function of
//! its own row and column; that statement is what makes the band-parallel
//! fill deterministic, since it leaves no room for the thread count or the
//! scheduling to influence any byte.

use vstd::prelude::*;
use crate::bands::{
    Band,
    band_covers,
    lemma_band_partition,
    lemma_plan_from_structure,
    lemma_rows_per_band_bounds,
    plan_covers_row,
    spec_band_plan,
    spec_rows_per_band,
};
use crate::bounds::PixelBounds;

verus! {

/// The row-major position of pixel (`row`, `col`).
pub open spec fn spec_pixel_index(bounds: PixelBounds, row: int, col: int) -> int {
    row * bounds.width + col
}

/// Whether `buf` is exactly the raster drawn by the per-point intensity
/// function `pix`: it has one entry per pixel, and entry `k` holds the
/// intensity of the pixel whose row-major position is `k`.
pub open spec fn filled(buf: Seq<u8>, bounds: PixelBounds, pix: spec_fn(int, int) -> u8) -> bool {
    &&& buf.len() == bounds.spec_area()
    &&& forall|k: int|
        0 <= k < buf.len() ==> #[trigger] buf[k] == pix(
            k / (bounds.width as int),
            k % (bounds.width as int),
        )
}

/// The freshly allocated buffer: one entry per pixel, all neutral (zero).
pub fn new_buffer(bounds: PixelBounds) -> (buf: Vec<u8>)
    requires
        bounds.wf(),
    ensures
        buf@.len() == bounds.spec_area(),
        forall|k: int| 0 <= k < buf@.len() ==> buf@[k] == 0u8,
{
    let n = bounds.area();
    let mut buf: Vec<u8> = Vec::new();
    let mut i: usize = 0;
    while i < n
        invariant
            0 <= i <= n,
            buf@.len() == i,
            forall|k: int| 0 <= k < i ==> buf@[k] == 0u8,
        decreases n - i,
    {
        buf.push(0);
        i = i + 1;
    }
    buf
}

/// The row-major index of pixel (`row`, `col`), computed without overflow.
pub fn pixel_index(bounds: PixelBounds, row: usize, col: usize) -> (k: usize)
    requires
        bounds.wf(),
        row < bounds.height,
        col < bounds.width,
    ensures
        k == spec_pixel_index(bounds, row as int, col as int),
        k < bounds.spec_area(),
{
    proof {
        lemma_pixel_index_in_range(bounds, row as int, col as int);
    }
    row * bounds.width + col
}

/// A pixel's row-major position lies inside the buffer.
pub proof fn lemma_pixel_index_in_range(bounds: PixelBounds, row: int, col: int)
    requires
        bounds.wf(),
        0 <= row < bounds.height,
        0 <= col < bounds.width,
    ensures
        0 <= spec_pixel_index(bounds, row, col) < bounds.spec_area(),
{
    let w = bounds.width as int;
    let h = bounds.height as int;
    assert(0 <= row * w + col < w * h) by (nonlinear_arith)
        requires
            0 <= row < h,
            0 <= col < w,
            0 < w,
    ;
}

/// In a rendered buffer, the entry at pixel (`row`, `col`) is exactly that
/// pixel's intensity.
pub proof fn lemma_filled_at(
    buf: Seq<u8>,
    bounds: PixelBounds,
    pix: spec_fn(int, int) -> u8,
    row: int,
    col: int,
)
    requires
        bounds.wf(),
        filled(buf, bounds, pix),
        0 <= row < bounds.height,
        0 <= col < bounds.width,
    ensures
        buf[spec_pixel_index(bounds, row, col)] == pix(row, col),
{
    let w = bounds.width as int;
    let k = spec_pixel_index(bounds, row, col);
    lemma_pixel_index_in_range(bounds, row, col);
    vstd::arithmetic::div_mod::lemma_fundamental_div_mod_converse_div(k, w, row, col);
    vstd::arithmetic::div_mod::lemma_fundamental_div_mod_converse_mod(k, w, row, col);
}

/// Law (determinism): any two buffers that are each rendered from the same
/// per-point intensity function are byte-identical. The band decomposition,
/// the thread count and the completion order of the workers can differ
/// between the two renders; once each buffer satisfies `filled`, no byte
/// differs.
pub proof fn lemma_render_deterministic(
    buf1: Seq<u8>,
    buf2: Seq<u8>,
    bounds: PixelBounds,
    pix: spec_fn(int, int) -> u8,
)
    requires
        bounds.wf(),
        filled(buf1, bounds, pix),
        filled(buf2, bounds, pix),
    ensures
        buf1 == buf2,
{
    assert(buf1 =~= buf2);
}

/// The entry of `buf` at pixel (`row`, `col`).
pub open spec fn pixel_at(buf: Seq<u8>, bounds: PixelBounds, row: int, col: int) -> u8 {
    buf[spec_pixel_index(bounds, row, col)]
}

/// Whether the rows owned by band `b` hold, pixel for pixel, the
/// intensities of `pix`.
pub open spec fn band_filled(
    buf: Seq<u8>,
    bounds: PixelBounds,
    b: Band,
    pix: spec_fn(int, int) -> u8,
) -> bool {
    forall|row: int, col: int|
        band_covers(b, row) && 0 <= col < bounds.width ==> #[trigger] pixel_at(
            buf,
            bounds,
            row,
            col,
        ) == pix(row, col)
}

/// Law (band fill completeness): once every band of the partition has
/// filled its own rows from the per-point intensity function, the whole
/// buffer is rendered — there is no pixel the bands could have missed or
/// disagreed on, whatever the thread count.
pub proof fn lemma_band_fill_complete(
    buf: Seq<u8>,
    bounds: PixelBounds,
    threads: int,
    pix: spec_fn(int, int) -> u8,
)
    requires
        bounds.wf(),
        0 < threads,
        buf.len() == bounds.spec_area(),
        ({
            let plan = spec_band_plan(bounds.height as int, threads);
            forall|i: int|
                0 <= i < plan.len() ==> band_filled(buf, bounds, #[trigger] plan[i], pix)
        }),
    ensures
        filled(buf, bounds, pix),
{
    let w = bounds.width as int;
    let h = bounds.height as int;
    let plan = spec_band_plan(h, threads);
    lemma_band_partition(h, threads);
    assert forall|k: int| 0 <= k < buf.len() implies #[trigger] buf[k] == pix(
        k / w,
        k % w,
    ) by {
        let row = k / w;
        let col = k % w;
        vstd::arithmetic::div_mod::lemma_fundamental_div_mod(k, w);
        vstd::arithmetic::div_mod::lemma_mod_division_less_than_divisor(k, w);
        vstd::arithmetic::div_mod::lemma_div_pos_is_pos(k, w);
        assert(k < w * h ==> k / w < h) by (nonlinear_arith)
            requires
                0 < w,
                k == w * (k / w) + k % w,
                0 <= k % w < w,
        ;
        assert(w * h == h * w) by (nonlinear_arith);
        assert(plan_covers_row(plan, row));
        let i = choose|i: int| 0 <= i < plan.len() && band_covers(#[trigger] plan[i], row);
        assert(pixel_at(buf, bounds, row, col) == pix(row, col));
        assert(spec_pixel_index(bounds, row, col) == k);
    }
}

/// Law (determinism across thread counts): when one buffer is produced by
/// the bands of a `t1`-way partition and another by the bands of a
/// `t2`-way partition, each band filling its own rows from the same
/// per-point intensity function, the two buffers are byte-identical.
/// Parallelism is a performance choice; it never shows in the output.
pub proof fn lemma_thread_count_irrelevant(
    buf1: Seq<u8>,
    buf2: Seq<u8>,
    bounds: PixelBounds,
    t1: int,
    t2: int,
    pix: spec_fn(int, int) -> u8,
)
    requires
        bounds.wf(),
        0 < t1,
        0 < t2,
        buf1.len() == bounds.spec_area(),
        buf2.len() == bounds.spec_area(),
        ({
            let plan1 = spec_band_plan(bounds.height as int, t1);
            forall|i: int|
                0 <= i < plan1.len() ==> band_filled(buf1, bounds, #[trigger] plan1[i], pix)
        }),
        ({
            let plan2 = spec_band_plan(bounds.height as int, t2);
            forall|i: int|
                0 <= i < plan2.len() ==> band_filled(buf2, bounds, #[trigger] plan2[i], pix)
        }),
    ensures
        buf1 == buf2,
{
    lemma_band_fill_complete(buf1, bounds, t1, pix);
    lemma_band_fill_complete(buf2, bounds, t2, pix);
    lemma_render_deterministic(buf1, buf2, bounds, pix);
}

/// The buffer length every band-sized chunk split must start from:
/// `rows_per_band * width` entries per full band.
pub fn band_chunk_len(bounds: PixelBounds, threads: usize) -> (n: usize)
    requires
        bounds.wf(),
        0 < threads,
    ensures
        n == spec_rows_per_band(bounds.height as int, threads as int) * bounds.width,
        0 < n <= bounds.spec_area(),
{
    let rpb = crate::bands::rows_per_band(bounds.height, threads);
    proof {
        let w = bounds.width as int;
        let h = bounds.height as int;
        assert(0 < rpb * w <= h * w) by (nonlinear_arith)
            requires
                0 < rpb <= h,
                0 < w,
        ;
        assert(h * w == w * h) by (nonlinear_arith);
    }
    rpb * bounds.width
}

/// Law: cutting the buffer into consecutive `band_chunk_len`-sized pieces
/// hands band `i` exactly its own rows — piece `i` starts at
/// `plan[i].top * width`, holds `plan[i].height * width` entries, every
/// piece but the last is full-sized, and the last piece ends exactly at
/// the end of the buffer.
pub proof fn lemma_chunks_align_with_bands(bounds: PixelBounds, threads: int)
    requires
        bounds.wf(),
        0 < threads,
    ensures
        ({
            let plan = spec_band_plan(bounds.height as int, threads);
            let chunk = spec_rows_per_band(bounds.height as int, threads) * bounds.width;
            forall|i: int|
                0 <= i < plan.len() ==> {
                    &&& (#[trigger] plan[i]).top * bounds.width == i * chunk
                    &&& plan[i].top * bounds.width + plan[i].height * bounds.width
                        <= bounds.spec_area()
                    &&& (i < plan.len() - 1 ==> plan[i].height * bounds.width == chunk)
                    &&& (i == plan.len() - 1 ==> plan[i].top * bounds.width + plan[i].height
                        * bounds.width == bounds.spec_area())
                }
        }),
{
    let w = bounds.width as int;
    let h = bounds.height as int;
    let rpb = spec_rows_per_band(h, threads);
    lemma_rows_per_band_bounds(h, threads);
    let plan = spec_band_plan(h, threads);
    let chunk = rpb * w;
    lemma_plan_from_structure(0, h, rpb);
    assert forall|i: int| 0 <= i < plan.len() implies {
        &&& (#[trigger] plan[i]).top * w == i * chunk
        &&& plan[i].top * w + plan[i].height * w <= w * h
        &&& (i < plan.len() - 1 ==> plan[i].height * w == chunk)
        &&& (i == plan.len() - 1 ==> plan[i].top * w + plan[i].height * w == w * h)
    } by {
        let top = plan[i].top as int;
        let bh = plan[i].height as int;
        let last = plan.len() - 1;
        assert(top == i * rpb);
        assert((i * rpb) * w == i * (rpb * w)) by (nonlinear_arith);
        assert(top * w + bh * w == (top + bh) * w) by (nonlinear_arith);
        assert(plan[last].top == last * rpb);
        assert(plan[last].top + plan[last].height == h);
        if i < last {
            assert(top + bh == (i + 1) * rpb);
            assert((i + 1) * rpb == i * rpb + rpb) by (nonlinear_arith);
            assert(bh == rpb);
            assert((i + 1) * rpb <= last * rpb) by (nonlinear_arith)
                requires
                    0 < rpb,
                    i + 1 <= last,
            ;
            assert(top + bh <= h);
        } else {
            assert(top + bh == h);
        }
        assert((top + bh) * w <= h * w) by (nonlinear_arith)
            requires
                top + bh <= h,
                0 < w,
        ;
        assert(h * w == w * h) by (nonlinear_arith);
    }
}

} // verus!
