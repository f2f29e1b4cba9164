//! Windowed average-coverage queries over one plane.
//!
//! The sampling window of a point (x, y) with a given dot spacing is the
//! half-open square [x - s/2, x + s/2) x [y - s/2, y + s/2), with s/2
//! truncated (so an odd spacing gives a slightly asymmetric window — a
//! documented quirk of the sampling scheme, kept as is). Samples that fall
//! outside the plane are excluded from both the sum and the count.

use vstd::prelude::*;
use crate::color::COVERAGE_ONE;
use crate::plane::Plane;
use crate::arith::{lemma_div_frac_bound, lemma_mul_bounds};

verus! {

/// The value a window sample contributes: the cell's coverage inside the
/// plane, nothing outside it.
pub open spec fn cell_val(p: &Plane, xi: int, yi: int) -> int {
    if 0 <= xi < p.width && 0 <= yi < p.height {
        p.at(xi, yi)
    } else {
        0
    }
}

/// Whether a window sample is counted: only cells inside the plane are.
pub open spec fn cell_cnt(p: &Plane, xi: int, yi: int) -> int {
    if 0 <= xi < p.width && 0 <= yi < p.height {
        1
    } else {
        0
    }
}

/// Sum of the counted samples of one column strip xi x [y0, y1).
pub open spec fn col_sum(p: &Plane, xi: int, y0: int, y1: int) -> int
    decreases y1 - y0,
{
    if y0 >= y1 {
        0
    } else {
        cell_val(p, xi, y0) + col_sum(p, xi, y0 + 1, y1)
    }
}

/// Number of counted samples of one column strip xi x [y0, y1).
pub open spec fn col_cnt(p: &Plane, xi: int, y0: int, y1: int) -> int
    decreases y1 - y0,
{
    if y0 >= y1 {
        0
    } else {
        cell_cnt(p, xi, y0) + col_cnt(p, xi, y0 + 1, y1)
    }
}

/// Sum of the counted samples of the rectangle [x0, x1) x [y0, y1).
pub open spec fn win_sum(p: &Plane, x0: int, x1: int, y0: int, y1: int) -> int
    decreases x1 - x0,
{
    if x0 >= x1 {
        0
    } else {
        col_sum(p, x0, y0, y1) + win_sum(p, x0 + 1, x1, y0, y1)
    }
}

/// Number of counted samples of the rectangle [x0, x1) x [y0, y1).
pub open spec fn win_cnt(p: &Plane, x0: int, x1: int, y0: int, y1: int) -> int
    decreases x1 - x0,
{
    if x0 >= x1 {
        0
    } else {
        col_cnt(p, x0, y0, y1) + win_cnt(p, x0 + 1, x1, y0, y1)
    }
}

/// Number of counted samples of the window of (x, y).
pub open spec fn sample_cnt(p: &Plane, x: int, y: int, spacing: int) -> int {
    win_cnt(p, x - spacing / 2, x + spacing / 2, y - spacing / 2, y + spacing / 2)
}

/// Sum over the counted samples of the window of (x, y).
pub open spec fn sample_sum(p: &Plane, x: int, y: int, spacing: int) -> int {
    win_sum(p, x - spacing / 2, x + spacing / 2, y - spacing / 2, y + spacing / 2)
}

/// The sampled intensity: the truncated average of the counted samples, and
/// 0 for a degenerate window that counts no sample at all (instead of a
/// division by zero).
pub open spec fn sample_value(p: &Plane, x: int, y: int, spacing: int) -> int {
    if sample_cnt(p, x, y, spacing) == 0 {
        0
    } else {
        sample_sum(p, x, y, spacing) / sample_cnt(p, x, y, spacing)
    }
}

/// Appending one more row to a column strip adds that cell.
proof fn lemma_col_snoc(p: &Plane, xi: int, y0: int, y1: int)
    requires
        y0 <= y1,
    ensures
        col_sum(p, xi, y0, y1 + 1) == col_sum(p, xi, y0, y1) + cell_val(p, xi, y1),
        col_cnt(p, xi, y0, y1 + 1) == col_cnt(p, xi, y0, y1) + cell_cnt(p, xi, y1),
    decreases y1 - y0,
{
    if y0 < y1 {
        lemma_col_snoc(p, xi, y0 + 1, y1);
    } else {
        reveal_with_fuel(col_sum, 2);
        reveal_with_fuel(col_cnt, 2);
    }
}

/// Appending one more column to a window adds that column strip.
proof fn lemma_win_snoc(p: &Plane, x0: int, x1: int, y0: int, y1: int)
    requires
        x0 <= x1,
    ensures
        win_sum(p, x0, x1 + 1, y0, y1) == win_sum(p, x0, x1, y0, y1) + col_sum(p, x1, y0, y1),
        win_cnt(p, x0, x1 + 1, y0, y1) == win_cnt(p, x0, x1, y0, y1) + col_cnt(p, x1, y0, y1),
    decreases x1 - x0,
{
    if x0 < x1 {
        lemma_win_snoc(p, x0 + 1, x1, y0, y1);
    } else {
        reveal_with_fuel(win_sum, 2);
        reveal_with_fuel(win_cnt, 2);
    }
}

/// Bounds of a column strip: the count never exceeds the strip length, and
/// the sum never exceeds full coverage on every counted sample.
proof fn lemma_col_bounds(p: &Plane, xi: int, y0: int, y1: int)
    requires
        p.wf(),
    ensures
        0 <= col_cnt(p, xi, y0, y1),
        col_cnt(p, xi, y0, y1) <= (if y1 >= y0 { y1 - y0 } else { 0 }),
        0 <= col_sum(p, xi, y0, y1),
        col_sum(p, xi, y0, y1) <= col_cnt(p, xi, y0, y1) * COVERAGE_ONE,
    decreases y1 - y0,
{
    if y0 < y1 {
        lemma_col_bounds(p, xi, y0 + 1, y1);
        if 0 <= xi < p.width && 0 <= y0 < p.height {
            lemma_cell_in_range(p, xi, y0);
        }
        assert((col_cnt(p, xi, y0 + 1, y1) + 1) * COVERAGE_ONE
            == col_cnt(p, xi, y0 + 1, y1) * COVERAGE_ONE + COVERAGE_ONE) by (nonlinear_arith);
    }
}

/// Bounds of a window: the count never exceeds the window area, and the sum
/// never exceeds full coverage on every counted sample.
proof fn lemma_win_bounds(p: &Plane, x0: int, x1: int, y0: int, y1: int)
    requires
        p.wf(),
    ensures
        0 <= win_cnt(p, x0, x1, y0, y1),
        win_cnt(p, x0, x1, y0, y1)
            <= (if x1 >= x0 { x1 - x0 } else { 0 }) * (if y1 >= y0 { y1 - y0 } else { 0 }),
        0 <= win_sum(p, x0, x1, y0, y1),
        win_sum(p, x0, x1, y0, y1) <= win_cnt(p, x0, x1, y0, y1) * COVERAGE_ONE,
    decreases x1 - x0,
{
    if x0 < x1 {
        lemma_win_bounds(p, x0 + 1, x1, y0, y1);
        lemma_col_bounds(p, x0, y0, y1);
        let h = if y1 >= y0 { y1 - y0 } else { 0 };
        assert((x1 - x0) * h == (x1 - x0 - 1) * h + h) by (nonlinear_arith);
        assert((col_cnt(p, x0, y0, y1) + win_cnt(p, x0 + 1, x1, y0, y1)) * COVERAGE_ONE
            == col_cnt(p, x0, y0, y1) * COVERAGE_ONE
                + win_cnt(p, x0 + 1, x1, y0, y1) * COVERAGE_ONE) by (nonlinear_arith);
    }
}

/// A cell that lies inside a well-formed plane holds a valid coverage value.
proof fn lemma_cell_in_range(p: &Plane, xi: int, yi: int)
    requires
        p.wf(),
        0 <= xi < p.width,
        0 <= yi < p.height,
    ensures
        0 <= yi * p.width + xi < p.data@.len(),
        0 <= cell_val(p, xi, yi) <= COVERAGE_ONE,
{
    assert(0 <= yi * p.width + xi < p.width * p.height) by (nonlinear_arith)
        requires 0 <= xi < p.width, 0 <= yi < p.height;
}

/// On a uniform plane every column strip sums to the constant times its
/// count.
proof fn lemma_col_uniform(p: &Plane, v: int, xi: int, y0: int, y1: int)
    requires
        p.wf(),
        p.uniform(v),
    ensures
        col_sum(p, xi, y0, y1) == v * col_cnt(p, xi, y0, y1),
    decreases y1 - y0,
{
    if y0 < y1 {
        lemma_col_uniform(p, v, xi, y0 + 1, y1);
        if 0 <= xi < p.width && 0 <= y0 < p.height {
            lemma_cell_in_range(p, xi, y0);
            assert(cell_val(p, xi, y0) == v);
        }
        assert(v * (cell_cnt(p, xi, y0) + col_cnt(p, xi, y0 + 1, y1))
            == v * cell_cnt(p, xi, y0) + v * col_cnt(p, xi, y0 + 1, y1)) by (nonlinear_arith);
    } else {
        assert(v * 0 == 0) by (nonlinear_arith);
    }
}

/// On a uniform plane every window sums to the constant times its count.
proof fn lemma_win_uniform(p: &Plane, v: int, x0: int, x1: int, y0: int, y1: int)
    requires
        p.wf(),
        p.uniform(v),
    ensures
        win_sum(p, x0, x1, y0, y1) == v * win_cnt(p, x0, x1, y0, y1),
    decreases x1 - x0,
{
    if x0 < x1 {
        lemma_win_uniform(p, v, x0 + 1, x1, y0, y1);
        lemma_col_uniform(p, v, x0, y0, y1);
        assert(v * (col_cnt(p, x0, y0, y1) + win_cnt(p, x0 + 1, x1, y0, y1))
            == v * col_cnt(p, x0, y0, y1) + v * win_cnt(p, x0 + 1, x1, y0, y1))
            by (nonlinear_arith);
    } else {
        assert(v * 0 == 0) by (nonlinear_arith);
    }
}

/// Uniform-plane law: wherever the sampling window counts at least one
/// sample — fully interior points as well as corner points with a clipped
/// window — the sampled intensity of a plane of constant value `v` is
/// exactly `v`: the truncated average ignores the excluded samples.
pub proof fn lemma_uniform_intensity(p: &Plane, v: int, x: int, y: int, spacing: int)
    requires
        p.wf(),
        p.uniform(v),
        0 <= v,
        sample_cnt(p, x, y, spacing) > 0,
    ensures
        sample_value(p, x, y, spacing) == v,
{
    let x0 = x - spacing / 2;
    let x1 = x + spacing / 2;
    let y0 = y - spacing / 2;
    let y1 = y + spacing / 2;
    lemma_win_uniform(p, v, x0, x1, y0, y1);
    vstd::arithmetic::div_mod::lemma_div_multiples_vanish(v, win_cnt(p, x0, x1, y0, y1));
    assert(win_cnt(p, x0, x1, y0, y1) * v == v * win_cnt(p, x0, x1, y0, y1))
        by (nonlinear_arith);
}

/// Average coverage of the sampling window of (x, y), together with a flag
/// that reports a degenerate window (one that counted no sample, possible
/// near corners when the spacing rivals the image size); a degenerate
/// window samples as intensity 0 rather than dividing by zero.
#[verifier::loop_isolation(false)]
pub fn intensity_at(plane: &Plane, x: u32, y: u32, spacing: u32) -> (r: (u32, bool))
    requires
        plane.wf(),
        (x as int) < plane.width,
        (y as int) < plane.height,
        spacing <= 65536,
    ensures
        r.0 as int == sample_value(plane, x as int, y as int, spacing as int),
        r.1 == (sample_cnt(plane, x as int, y as int, spacing as int) == 0),
        r.0 <= COVERAGE_ONE,
{
    let half = (spacing / 2) as i64;
    let x0 = x as i64 - half;
    let x1 = x as i64 + half;
    let y0 = y as i64 - half;
    let y1 = y as i64 + half;
    let w = plane.width as i64;
    let h = plane.height as i64;

    let mut sum: u64 = 0;
    let mut cnt: u64 = 0;
    let mut xi = x0;
    while xi < x1
        invariant
            x0 <= xi <= x1,
            sum as int == win_sum(plane, x0 as int, xi as int, y0 as int, y1 as int),
            cnt as int == win_cnt(plane, x0 as int, xi as int, y0 as int, y1 as int),
        decreases x1 - xi,
    {
        let mut yi = y0;
        while yi < y1
            invariant
                x0 <= xi < x1,
                y0 <= yi <= y1,
                sum as int == win_sum(plane, x0 as int, xi as int, y0 as int, y1 as int)
                    + col_sum(plane, xi as int, y0 as int, yi as int),
                cnt as int == win_cnt(plane, x0 as int, xi as int, y0 as int, y1 as int)
                    + col_cnt(plane, xi as int, y0 as int, yi as int),
            decreases y1 - yi,
        {
            proof {
                lemma_win_bounds(plane, x0 as int, xi as int, y0 as int, y1 as int);
                lemma_col_bounds(plane, xi as int, y0 as int, yi as int);
                lemma_mul_bounds(xi as int - x0 as int, y1 as int - y0 as int, 131072, 131072);
                lemma_mul_bounds(
                    win_cnt(plane, x0 as int, xi as int, y0 as int, y1 as int),
                    COVERAGE_ONE as int,
                    0x4_0000_0000,
                    COVERAGE_ONE as int,
                );
                lemma_mul_bounds(
                    col_cnt(plane, xi as int, y0 as int, yi as int),
                    COVERAGE_ONE as int,
                    131072,
                    COVERAGE_ONE as int,
                );
                lemma_col_snoc(plane, xi as int, y0 as int, yi as int);
            }
            if xi >= 0 && yi >= 0 && xi < w && yi < h {
                proof {
                    lemma_cell_in_range(plane, xi as int, yi as int);
                    lemma_mul_bounds(plane.width as int, plane.height as int, 65536, 65536);
                    assert((yi as int) * plane.width + (xi as int) < plane.data@.len());
                    assert(0 <= (yi as int) * plane.width) by (nonlinear_arith)
                        requires 0 <= yi as int, 0 <= plane.width;
                }
                let idx = (yi as usize) * plane.width + (xi as usize);
                sum = sum + plane.data[idx] as u64;
                cnt = cnt + 1;
            }
            yi = yi + 1;
        }
        proof {
            lemma_win_snoc(plane, x0 as int, xi as int, y0 as int, y1 as int);
        }
        xi = xi + 1;
    }
    if cnt == 0 {
        (0, true)
    } else {
        proof {
            lemma_win_bounds(plane, x0 as int, x1 as int, y0 as int, y1 as int);
            lemma_div_frac_bound(sum as int, cnt as int, COVERAGE_ONE as int);
        }
        ((sum / cnt) as u32, false)
    }
}

} // verus!
