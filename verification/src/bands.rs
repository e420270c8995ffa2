//! Partition of the raster into contiguous horizontal bands.
//!
//! The renderer splits the output buffer into bands of whole rows, one per
//! concurrent worker. The partition is computed once, up front, from the
//! raster height and the requested degree of parallelism; every band is
//! non-empty, the bands are consecutive, and together they cover every row
//! exactly once.

use vstd::prelude::*;
use crate::bounds::PixelBounds;

verus! {

/// One horizontal band: `height` whole rows starting at row `top`.
#[derive(Clone, Copy, Debug, PartialEq, Eq, Structural)]
pub struct Band {
    pub top: usize,
    pub height: usize,
}

/// Exact ceiling of `height / threads`: the number of rows each band gets,
/// except possibly the last.
pub open spec fn spec_rows_per_band(height: int, threads: int) -> int
    recommends
        0 < height,
        0 < threads,
{
    if height % threads == 0 {
        height / threads
    } else {
        height / threads + 1
    }
}

/// The bands that tile rows `[top, top + rows_left)` in chunks of `rpb`
/// rows, the last chunk taking whatever remains.
pub open spec fn spec_plan_from(top: int, rows_left: int, rpb: int) -> Seq<Band>
    recommends
        0 < rpb,
        0 <= top,
        top + rows_left <= usize::MAX,
    decreases rows_left,
{
    if rpb <= 0 || rows_left <= 0 {
        Seq::empty()
    } else if rows_left <= rpb {
        seq![Band { top: top as usize, height: rows_left as usize }]
    } else {
        seq![Band { top: top as usize, height: rpb as usize }] + spec_plan_from(
            top + rpb,
            rows_left - rpb,
            rpb,
        )
    }
}

/// The full band partition of a raster of the given height for the given
/// thread count.
pub open spec fn spec_band_plan(height: int, threads: int) -> Seq<Band> {
    spec_plan_from(0, height, spec_rows_per_band(height, threads))
}

/// Whether band `b` owns row `row`.
pub open spec fn band_covers(b: Band, row: int) -> bool {
    b.top <= row < b.top + b.height
}

/// Whether some band of `plan` owns row `row`.
pub open spec fn plan_covers_row(plan: Seq<Band>, row: int) -> bool {
    exists|i: int| 0 <= i < plan.len() && band_covers(#[trigger] plan[i], row)
}

/// The rows-per-band count is positive and never exceeds the raster height.
pub proof fn lemma_rows_per_band_bounds(height: int, threads: int)
    requires
        0 < height,
        0 < threads,
    ensures
        0 < spec_rows_per_band(height, threads) <= height,
{
    let h = height;
    let t = threads;
    vstd::arithmetic::div_mod::lemma_fundamental_div_mod(h, t);
    vstd::arithmetic::div_mod::lemma_mod_division_less_than_divisor(h, t);
    vstd::arithmetic::div_mod::lemma_div_pos_is_pos(h, t);
    vstd::arithmetic::div_mod::lemma_div_nonincreasing(h, t);
    assert(h / t >= 1 || h % t >= 1) by (nonlinear_arith)
        requires
            h == t * (h / t) + h % t,
            0 < h,
            0 < t,
            0 <= h % t < t,
            0 <= h / t,
    ;
    assert(t * (h / t) >= h / t) by (nonlinear_arith)
        requires
            0 < t,
            0 <= h / t,
    ;
}

/// Exact ceiling division, computed without the overflow-prone
/// `height / threads + 1` approximation.
pub fn rows_per_band(height: usize, threads: usize) -> (r: usize)
    requires
        0 < height,
        0 < threads,
    ensures
        r == spec_rows_per_band(height as int, threads as int),
        0 < r <= height,
{
    let q = height / threads;
    let rem = height % threads;
    proof {
        lemma_rows_per_band_bounds(height as int, threads as int);
    }
    if rem == 0 {
        q
    } else {
        q + 1
    }
}

/// Computes the band partition: consecutive bands of `rows_per_band` rows,
/// the last band taking whatever remains.
pub fn band_plan(bounds: PixelBounds, threads: usize) -> (plan: Vec<Band>)
    requires
        bounds.wf(),
        0 < threads,
    ensures
        plan@ == spec_band_plan(bounds.height as int, threads as int),
        0 < plan@.len() <= threads,
{
    proof {
        lemma_band_count_at_most_threads(bounds.height as int, threads as int);
    }
    let rpb = rows_per_band(bounds.height, threads);
    let ghost full = spec_band_plan(bounds.height as int, threads as int);
    let mut plan: Vec<Band> = Vec::new();
    let mut top: usize = 0;
    while top < bounds.height
        invariant
            0 < rpb <= bounds.height,
            0 <= top <= bounds.height,
            rpb == spec_rows_per_band(bounds.height as int, threads as int),
            full == spec_band_plan(bounds.height as int, threads as int),
            plan@ + spec_plan_from(top as int, bounds.height - top, rpb as int) == full,
        decreases bounds.height - top,
    {
        let h = if bounds.height - top < rpb {
            bounds.height - top
        } else {
            rpb
        };
        let ghost rest = spec_plan_from(top as int, bounds.height - top, rpb as int);
        let ghost rest_after = spec_plan_from(top + h, bounds.height - (top + h), rpb as int);
        proof {
            assert(rest == seq![Band { top: top as usize, height: h as usize }] + rest_after);
            assert(plan@.push(Band { top: top, height: h }) + rest_after =~= plan@ + rest);
        }
        plan.push(Band { top, height: h });
        top = top + h;
    }
    proof {
        assert(spec_plan_from(top as int, 0, rpb as int) == Seq::<Band>::empty());
        assert(plan@ + Seq::<Band>::empty() =~= plan@);
    }
    plan
}

/// Length of a tiling: just enough bands to cover the rows.
pub proof fn lemma_plan_from_len(top: int, rows_left: int, rpb: int)
    requires
        0 < rpb,
        0 <= top,
        0 < rows_left,
        top + rows_left <= usize::MAX,
    ensures
        ({
            let len = spec_plan_from(top, rows_left, rpb).len() as int;
            (len - 1) * rpb < rows_left <= len * rpb
        }),
    decreases rows_left,
{
    let len = spec_plan_from(top, rows_left, rpb).len() as int;
    if rows_left <= rpb {
        assert(len == 1);
        assert((1 - 1) * rpb == 0 && 1 * rpb == rpb) by (nonlinear_arith);
    } else {
        lemma_plan_from_len(top + rpb, rows_left - rpb, rpb);
        let tlen = spec_plan_from(top + rpb, rows_left - rpb, rpb).len() as int;
        assert(len == tlen + 1);
        assert((tlen - 1) * rpb < rows_left - rpb <= tlen * rpb);
        assert((len - 1) * rpb == (tlen - 1) * rpb + rpb && len * rpb == tlen * rpb + rpb)
            by (nonlinear_arith)
            requires
                len == tlen + 1,
        ;
    }
}

/// Law (no wasted slot): the exact ceiling division never makes more
/// bands than the requested thread count, and always makes at least one.
pub proof fn lemma_band_count_at_most_threads(height: int, threads: int)
    requires
        0 < height <= usize::MAX,
        0 < threads,
    ensures
        0 < spec_band_plan(height, threads).len() <= threads,
{
    let rpb = spec_rows_per_band(height, threads);
    lemma_rows_per_band_bounds(height, threads);
    lemma_plan_from_len(0, height, rpb);
    let len = spec_band_plan(height, threads).len() as int;
    vstd::arithmetic::div_mod::lemma_fundamental_div_mod(height, threads);
    vstd::arithmetic::div_mod::lemma_mod_division_less_than_divisor(height, threads);
    assert(threads * rpb >= height) by (nonlinear_arith)
        requires
            height == threads * (height / threads) + height % threads,
            0 <= height % threads < threads,
            rpb == if height % threads == 0 {
                height / threads
            } else {
                height / threads + 1
            },
            0 < threads,
    ;
    if len > threads {
        assert((len - 1) * rpb >= threads * rpb) by (nonlinear_arith)
            requires
                len - 1 >= threads,
                0 < rpb,
        ;
        assert(false);
    }
}

/// Shape of a tiling: band `i` starts at `top + i * rpb`, every band is
/// non-empty and at most `rpb` rows tall, and the last band ends exactly at
/// `top + rows_left`.
pub proof fn lemma_plan_from_structure(top: int, rows_left: int, rpb: int)
    requires
        0 < rpb,
        0 <= top,
        0 < rows_left,
        top + rows_left <= usize::MAX,
    ensures
        ({
            let plan = spec_plan_from(top, rows_left, rpb);
            &&& 0 < plan.len()
            &&& forall|i: int|
                0 <= i < plan.len() ==> (#[trigger] plan[i]).top == top + i * rpb
            &&& forall|i: int|
                0 <= i < plan.len() ==> 0 < (#[trigger] plan[i]).height <= rpb
            &&& forall|i: int|
                0 <= i < plan.len() ==> (#[trigger] plan[i]).top + plan[i].height == if i
                    == plan.len() - 1 {
                    top + rows_left
                } else {
                    top + (i + 1) * rpb
                }
        }),
    decreases rows_left,
{
    let plan = spec_plan_from(top, rows_left, rpb);
    if rows_left <= rpb {
        assert(plan.len() == 1);
        assert(plan[0].top == top + 0 * rpb) by (nonlinear_arith)
            requires
                plan[0].top == top,
        ;
    } else {
        let tail = spec_plan_from(top + rpb, rows_left - rpb, rpb);
        lemma_plan_from_structure(top + rpb, rows_left - rpb, rpb);
        assert forall|i: int| 0 <= i < plan.len() implies (#[trigger] plan[i]).top == top + i
            * rpb by {
            if i > 0 {
                assert(plan[i] == tail[i - 1]);
                assert(tail[i - 1].top == (top + rpb) + (i - 1) * rpb);
                assert((top + rpb) + (i - 1) * rpb == top + i * rpb) by (nonlinear_arith);
            }
        }
        assert forall|i: int| 0 <= i < plan.len() implies (#[trigger] plan[i]).top + plan[i].height
            == if i == plan.len() - 1 {
            top + rows_left
        } else {
            top + (i + 1) * rpb
        } by {
            if i == 0 {
                assert(plan[0].top + plan[0].height == top + 1 * rpb) by (nonlinear_arith)
                    requires
                        plan[0].top == top,
                        plan[0].height == rpb,
                ;
            } else {
                assert(plan[i] == tail[i - 1]);
                assert((top + rpb) + i * rpb == top + (i + 1) * rpb) by (nonlinear_arith);
            }
        }
    }
}

/// Every row of the tiled range is owned by some band of the tiling.
pub proof fn lemma_plan_from_covers(top: int, rows_left: int, rpb: int, row: int)
    requires
        0 < rpb,
        0 <= top,
        0 < rows_left,
        top + rows_left <= usize::MAX,
        top <= row < top + rows_left,
    ensures
        plan_covers_row(spec_plan_from(top, rows_left, rpb), row),
    decreases rows_left,
{
    let plan = spec_plan_from(top, rows_left, rpb);
    if rows_left <= rpb {
        assert(band_covers(plan[0], row));
    } else if row < top + rpb {
        assert(band_covers(plan[0], row));
    } else {
        let tail = spec_plan_from(top + rpb, rows_left - rpb, rpb);
        lemma_plan_from_covers(top + rpb, rows_left - rpb, rpb, row);
        let i = choose|i: int| 0 <= i < tail.len() && band_covers(#[trigger] tail[i], row);
        assert(plan[i + 1] == tail[i]);
        assert(band_covers(plan[i + 1], row));
    }
}

/// Law (partition completeness): for any raster height and thread count,
/// the band row-ranges exactly tile `[0, height)` — every row lies in some
/// band, every band lies within the raster, and no two bands share a row.
pub proof fn lemma_band_partition(height: int, threads: int)
    requires
        0 < height <= usize::MAX,
        0 < threads,
    ensures
        ({
            let plan = spec_band_plan(height, threads);
            &&& forall|row: int| 0 <= row < height ==> #[trigger] plan_covers_row(plan, row)
            &&& forall|i: int, row: int|
                0 <= i < plan.len() && #[trigger] band_covers(plan[i], row) ==> 0 <= row < height
            &&& forall|i: int, j: int, row: int|
                0 <= i < plan.len() && 0 <= j < plan.len() && #[trigger] band_covers(plan[i], row)
                    && #[trigger] band_covers(plan[j], row) ==> i == j
        }),
{
    let rpb = spec_rows_per_band(height, threads);
    lemma_rows_per_band_bounds(height, threads);
    let plan = spec_band_plan(height, threads);
    lemma_plan_from_structure(0, height, rpb);
    assert forall|row: int| 0 <= row < height implies #[trigger] plan_covers_row(plan, row) by {
        lemma_plan_from_covers(0, height, rpb, row);
    }
    assert forall|i: int, row: int|
        0 <= i < plan.len() && #[trigger] band_covers(plan[i], row) implies 0 <= row < height by {
        assert(plan[i].top + plan[i].height <= height) by {
            if i < plan.len() - 1 {
                assert(plan[plan.len() - 1].top == 0 + (plan.len() - 1) * rpb);
                assert((i + 1) * rpb <= (plan.len() - 1) * rpb) by (nonlinear_arith)
                    requires
                        0 < rpb,
                        i + 1 <= plan.len() - 1,
                ;
            }
        }
    }
    assert forall|i: int, j: int, row: int|
        0 <= i < plan.len() && 0 <= j < plan.len() && #[trigger] band_covers(plan[i], row)
            && #[trigger] band_covers(plan[j], row) implies i == j by {
        if i != j {
            let lo = if i < j {
                i
            } else {
                j
            };
            let hi = if i < j {
                j
            } else {
                i
            };
            assert(plan[lo].top + plan[lo].height <= 0 + (lo + 1) * rpb);
            assert((lo + 1) * rpb <= hi * rpb) by (nonlinear_arith)
                requires
                    0 < rpb,
                    lo + 1 <= hi,
            ;
            assert(plan[hi].top == hi * rpb);
        }
    }
}

} // verus!
