//! Row-major indexing of a rectangular grid.

use vstd::prelude::*;

verus! {

/// The slot of column `c`, row `r` in a row-major grid of `w` columns.
pub open spec fn slot(c: int, r: int, w: int) -> int {
    r * w + c
}

/// A cell of the grid has a slot of the grid.
pub proof fn slot_in_range(c: int, r: int, w: int, h: int)
    requires
        0 <= c < w,
        0 <= r < h,
    ensures
        0 <= slot(c, r, w) < w * h,
        0 <= r * w <= slot(c, r, w),
        (r + 1) * w <= w * h,
        (r + 1) * w == r * w + w,
{
    assert(0 <= r * w) by (nonlinear_arith)
        requires
            0 <= r,
            0 < w,
    ;
    assert((r + 1) * w <= h * w) by (nonlinear_arith)
        requires
            r + 1 <= h,
            0 < w,
    ;
    assert((r + 1) * w == r * w + w) by (nonlinear_arith);
    assert(h * w == w * h) by (nonlinear_arith);
}

/// Different cells have different slots.
pub proof fn slot_injective(c1: int, r1: int, c2: int, r2: int, w: int)
    requires
        0 <= c1 < w,
        0 <= c2 < w,
        slot(c1, r1, w) == slot(c2, r2, w),
    ensures
        c1 == c2 && r1 == r2,
{
    assert(r1 == r2) by (nonlinear_arith)
        requires
            0 <= c1 < w,
            0 <= c2 < w,
            r1 * w + c1 == r2 * w + c2,
    ;
}

/// The slot of a cell of a `w` x `h` grid whose slots can be counted.
pub fn slot_of(c: usize, r: usize, w: usize, h: usize) -> (i: usize)
    requires
        c < w,
        r < h,
        w * h <= usize::MAX,
    ensures
        i == slot(c as int, r as int, w as int),
        i < w * h,
{
    proof {
        slot_in_range(c as int, r as int, w as int, h as int);
    }
    r * w + c
}

} // verus!
