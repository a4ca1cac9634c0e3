//! Column-stripe partition of the image for parallel rendering.
//!
//! The image's columns are split into `STRIPE_COUNT` contiguous stripes of
//! width `image_width / STRIPE_COUNT`; the last stripe also takes the
//! remainder columns, so that every column belongs to exactly one stripe
//! even when the width does not divide evenly.

use vstd::prelude::*;

verus! {

pub const STRIPE_COUNT: u32 = 10;

/// Width of every stripe but the last (the last also absorbs the remainder).
pub open spec fn stripe_step(width: u32) -> int {
    width as int / STRIPE_COUNT as int
}

/// First column of stripe `i`.
pub open spec fn stripe_lo(width: u32, i: int) -> int {
    i * stripe_step(width)
}

/// One past the last column of stripe `i`.
pub open spec fn stripe_hi(width: u32, i: int) -> int {
    if i == STRIPE_COUNT as int - 1 {
        width as int
    } else {
        (i + 1) * stripe_step(width)
    }
}

/// Column `c` belongs to stripe `i`.
pub open spec fn in_stripe(width: u32, i: int, c: int) -> bool {
    stripe_lo(width, i) <= c < stripe_hi(width, i)
}

/// The stripe that column `c` of an image `width` columns wide belongs to.
pub open spec fn stripe_of(width: u32, c: int) -> int {
    if stripe_step(width) == 0 {
        STRIPE_COUNT as int - 1
    } else if c / stripe_step(width) < STRIPE_COUNT as int - 1 {
        c / stripe_step(width)
    } else {
        STRIPE_COUNT as int - 1
    }
}

/// The half-open column range `[r.0, r.1)` that stripe `i` renders.
pub fn stripe_bounds(width: u32, i: u32) -> (r: (u32, u32))
    requires
        i < STRIPE_COUNT,
    ensures
        r.0 == stripe_lo(width, i as int),
        r.1 == stripe_hi(width, i as int),
        r.0 <= r.1 <= width,
{
    let step = width / STRIPE_COUNT;
    proof {
        lemma_stripe_bounds_in_range(width, i as int);
    }
    let lo = i * step;
    let hi = if i == STRIPE_COUNT - 1 { width } else { (i + 1) * step };
    (lo, hi)
}

/// The (column, row) pixel jobs of stripe `i`: every row of every column
/// of the stripe, in the order the stripe's worker visits them. Position
/// `k` of the list holds exactly `(lo + k / height, k % height)`, so no
/// pixel of the stripe is skipped and none is visited twice.
pub fn stripe_jobs(width: u32, height: u32, i: u32) -> (jobs: Vec<(u32, u32)>)
    requires
        i < STRIPE_COUNT,
    ensures
        jobs@.len() == (stripe_hi(width, i as int) - stripe_lo(width, i as int)) * height as int,
        forall|k: int|
            0 <= k < jobs@.len() ==> #[trigger] jobs@[k].0 == stripe_lo(width, i as int) + k
                / height as int && jobs@[k].1 == k % height as int,
{
    let (lo, hi) = stripe_bounds(width, i);
    let mut jobs: Vec<(u32, u32)> = Vec::new();
    let mut x = lo;
    while x < hi
        invariant
            lo <= x <= hi,
            lo == stripe_lo(width, i as int),
            hi == stripe_hi(width, i as int),
            jobs@.len() == (x - lo) * height as int,
            forall|k: int|
                0 <= k < jobs@.len() ==> #[trigger] jobs@[k].0 == lo as int + k / height as int
                    && jobs@[k].1 == k % height as int,
        decreases hi - x,
    {
        let mut y: u32 = 0;
        while y < height
            invariant
                y <= height,
                lo <= x < hi,
                jobs@.len() == (x - lo) * height as int + y as int,
                forall|k: int|
                    0 <= k < jobs@.len() ==> #[trigger] jobs@[k].0 == lo as int + k / height as int
                        && jobs@[k].1 == k % height as int,
            decreases height - y,
        {
            proof {
                vstd::arithmetic::div_mod::lemma_fundamental_div_mod_converse(
                    (x - lo) * height as int + y as int,
                    height as int,
                    x as int - lo as int,
                    y as int,
                );
            }
            jobs.push((x, y));
            y = y + 1;
        }
        proof {
            assert((x - lo) * height as int + height as int == (x + 1 - lo) * height as int)
                by (nonlinear_arith);
        }
        x = x + 1;
    }
    jobs
}

/// Within one stripe's job list no pixel is listed twice: two distinct
/// positions hold distinct (column, row) pairs.
pub proof fn lemma_jobs_distinct(height: u32, lo: int, k1: int, k2: int)
    requires
        height > 0,
        0 <= k1,
        0 <= k2,
        k1 != k2,
    ensures
        lo + k1 / height as int != lo + k2 / height as int || k1 % height as int != k2
            % height as int,
{
    if k1 / height as int == k2 / height as int && k1 % height as int == k2 % height as int {
        vstd::arithmetic::div_mod::lemma_fundamental_div_mod(k1, height as int);
        vstd::arithmetic::div_mod::lemma_fundamental_div_mod(k2, height as int);
    }
}

/// Every job of stripe `i` renders a column of that stripe and a row of
/// the image; with the stripes' columns disjoint, no two stripes ever
/// render the same pixel.
pub proof fn lemma_job_in_stripe(width: u32, height: u32, i: int, k: int)
    requires
        0 <= i < STRIPE_COUNT,
        0 <= k < (stripe_hi(width, i) - stripe_lo(width, i)) * height as int,
    ensures
        in_stripe(width, i, stripe_lo(width, i) + k / height as int),
        0 <= k % height as int,
        (k % height as int) < height as int,
{
    let h = height as int;
    let n = stripe_hi(width, i) - stripe_lo(width, i);
    assert(h > 0) by (nonlinear_arith)
        requires
            0 <= k < n * h,
            0 <= h,
    ;
    vstd::arithmetic::div_mod::lemma_fundamental_div_mod(k, h);
    assert(0 <= k / h < n) by (nonlinear_arith)
        requires
            k == h * (k / h) + k % h,
            0 <= k < n * h,
            0 <= k % h < h,
    ;
    lemma_stripe_bounds_in_range(width, i);
}

/// The stripe bounds of every stripe fit inside the image.
proof fn lemma_stripe_bounds_in_range(width: u32, i: int)
    requires
        0 <= i < STRIPE_COUNT,
    ensures
        0 <= stripe_lo(width, i) <= stripe_hi(width, i) <= width,
{
    let step = stripe_step(width);
    assert(0 <= step);
    assert(STRIPE_COUNT as int * step <= width) by {
        vstd::arithmetic::div_mod::lemma_fundamental_div_mod(width as int, STRIPE_COUNT as int);
    };
    assert((i + 1) * step <= STRIPE_COUNT as int * step) by (nonlinear_arith)
        requires
            0 <= step,
            i + 1 <= STRIPE_COUNT as int,
    ;
    assert(0 <= i * step <= (i + 1) * step) by (nonlinear_arith)
        requires
            0 <= step,
            0 <= i,
    ;
}

/// Every column of the image lies in its stripe, and in no other: the
/// stripes cover the columns exactly once, with no gaps and no overlaps.
pub proof fn lemma_columns_partitioned(width: u32, c: int)
    requires
        0 <= c < width,
    ensures
        0 <= stripe_of(width, c) < STRIPE_COUNT,
        in_stripe(width, stripe_of(width, c), c),
        forall|i: int|
            0 <= i < STRIPE_COUNT && i != stripe_of(width, c) ==> !in_stripe(width, i, c),
{
    lemma_stripe_cover(width, c);
    assert forall|i: int|
        0 <= i < STRIPE_COUNT && i != stripe_of(width, c) implies !in_stripe(width, i, c) by {
        if in_stripe(width, i, c) {
            if i < stripe_of(width, c) {
                lemma_stripes_disjoint(width, i, stripe_of(width, c), c);
            } else {
                lemma_stripes_disjoint(width, stripe_of(width, c), i, c);
            }
        }
    };
}

/// Column `c` lies in the stripe `stripe_of` assigns to it.
proof fn lemma_stripe_cover(width: u32, c: int)
    requires
        0 <= c < width,
    ensures
        0 <= stripe_of(width, c) < STRIPE_COUNT,
        in_stripe(width, stripe_of(width, c), c),
{
    let step = stripe_step(width);
    let last = STRIPE_COUNT as int - 1;
    if step == 0 {
        assert(stripe_lo(width, last) == 0) by (nonlinear_arith)
            requires
                step == 0,
                stripe_lo(width, last) == last * step,
        ;
    } else {
        let q = c / step;
        vstd::arithmetic::div_mod::lemma_fundamental_div_mod(c, step);
        assert(0 <= c % step < step);
        assert(c == q * step + c % step);
        assert(0 <= q) by (nonlinear_arith)
            requires
                c == q * step + c % step,
                0 <= c,
                0 <= c % step < step,
        ;
        if q < last {
            assert(q * step <= c < (q + 1) * step) by (nonlinear_arith)
                requires
                    c == q * step + c % step,
                    0 <= c % step < step,
            ;
        } else {
            assert(last * step <= q * step) by (nonlinear_arith)
                requires
                    last <= q,
                    0 <= step,
            ;
            assert(q * step <= c) by (nonlinear_arith)
                requires
                    c == q * step + c % step,
                    0 <= c % step,
            ;
        }
    }
}

/// Two distinct stripes share no column.
proof fn lemma_stripes_disjoint(width: u32, i: int, j: int, c: int)
    requires
        0 <= i < j < STRIPE_COUNT,
        in_stripe(width, i, c),
    ensures
        !in_stripe(width, j, c),
{
    let step = stripe_step(width);
    assert(stripe_hi(width, i) == (i + 1) * step);
    assert((i + 1) * step <= j * step) by (nonlinear_arith)
        requires
            i + 1 <= j,
            0 <= step,
    ;
}

} // verus!
