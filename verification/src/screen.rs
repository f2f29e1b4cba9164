//! Screen geometry: the integer step vectors of one channel's dot lattice.
//!
//! A screen angle is measured clockwise in whole degrees. The along-screen
//! step of the lattice is (spacing * cos, spacing * sin) and the
//! perpendicular newline step is the same pair rotated by a quarter turn,
//! all four components truncated toward zero. The trigonometric factors are
//! carried as fixed-point integers scaled by `TRIG_ONE`, from a quarter-wave
//! cosine table in whole degrees.

use vstd::prelude::*;

verus! {

/// Fixed-point scale of the cosine table: `TRIG_ONE` stands for 1.0.
pub const TRIG_ONE: u32 = 1000000;

/// Truncated cosine of `d` degrees, scaled by `TRIG_ONE`, for d in 0..=90.
pub open spec fn quarter_cos_q(d: int) -> int {
    if d == 0 { 1000000 }
    else if d == 1 { 999847 }
    else if d == 2 { 999390 }
    else if d == 3 { 998629 }
    else if d == 4 { 997564 }
    else if d == 5 { 996194 }
    else if d == 6 { 994521 }
    else if d == 7 { 992546 }
    else if d == 8 { 990268 }
    else if d == 9 { 987688 }
    else if d == 10 { 984807 }
    else if d == 11 { 981627 }
    else if d == 12 { 978147 }
    else if d == 13 { 974370 }
    else if d == 14 { 970295 }
    else if d == 15 { 965925 }
    else if d == 16 { 961261 }
    else if d == 17 { 956304 }
    else if d == 18 { 951056 }
    else if d == 19 { 945518 }
    else if d == 20 { 939692 }
    else if d == 21 { 933580 }
    else if d == 22 { 927183 }
    else if d == 23 { 920504 }
    else if d == 24 { 913545 }
    else if d == 25 { 906307 }
    else if d == 26 { 898794 }
    else if d == 27 { 891006 }
    else if d == 28 { 882947 }
    else if d == 29 { 874619 }
    else if d == 30 { 866025 }
    else if d == 31 { 857167 }
    else if d == 32 { 848048 }
    else if d == 33 { 838670 }
    else if d == 34 { 829037 }
    else if d == 35 { 819152 }
    else if d == 36 { 809016 }
    else if d == 37 { 798635 }
    else if d == 38 { 788010 }
    else if d == 39 { 777145 }
    else if d == 40 { 766044 }
    else if d == 41 { 754709 }
    else if d == 42 { 743144 }
    else if d == 43 { 731353 }
    else if d == 44 { 719339 }
    else if d == 45 { 707106 }
    else if d == 46 { 694658 }
    else if d == 47 { 681998 }
    else if d == 48 { 669130 }
    else if d == 49 { 656059 }
    else if d == 50 { 642787 }
    else if d == 51 { 629320 }
    else if d == 52 { 615661 }
    else if d == 53 { 601815 }
    else if d == 54 { 587785 }
    else if d == 55 { 573576 }
    else if d == 56 { 559192 }
    else if d == 57 { 544639 }
    else if d == 58 { 529919 }
    else if d == 59 { 515038 }
    else if d == 60 { 500000 }
    else if d == 61 { 484809 }
    else if d == 62 { 469471 }
    else if d == 63 { 453990 }
    else if d == 64 { 438371 }
    else if d == 65 { 422618 }
    else if d == 66 { 406736 }
    else if d == 67 { 390731 }
    else if d == 68 { 374606 }
    else if d == 69 { 358367 }
    else if d == 70 { 342020 }
    else if d == 71 { 325568 }
    else if d == 72 { 309016 }
    else if d == 73 { 292371 }
    else if d == 74 { 275637 }
    else if d == 75 { 258819 }
    else if d == 76 { 241921 }
    else if d == 77 { 224951 }
    else if d == 78 { 207911 }
    else if d == 79 { 190808 }
    else if d == 80 { 173648 }
    else if d == 81 { 156434 }
    else if d == 82 { 139173 }
    else if d == 83 { 121869 }
    else if d == 84 { 104528 }
    else if d == 85 { 87155 }
    else if d == 86 { 69756 }
    else if d == 87 { 52335 }
    else if d == 88 { 34899 }
    else if d == 89 { 17452 }
    else if d == 90 { 0 }
    else { 0 }
}

/// Executable lookup of `quarter_cos_q`.
fn quarter_cos_lookup(d: u32) -> (r: u32)
    requires
        d <= 90,
    ensures
        r as int == quarter_cos_q(d as int),
        r <= TRIG_ONE,
{
    match d {
        0 => 1000000,
        1 => 999847,
        2 => 999390,
        3 => 998629,
        4 => 997564,
        5 => 996194,
        6 => 994521,
        7 => 992546,
        8 => 990268,
        9 => 987688,
        10 => 984807,
        11 => 981627,
        12 => 978147,
        13 => 974370,
        14 => 970295,
        15 => 965925,
        16 => 961261,
        17 => 956304,
        18 => 951056,
        19 => 945518,
        20 => 939692,
        21 => 933580,
        22 => 927183,
        23 => 920504,
        24 => 913545,
        25 => 906307,
        26 => 898794,
        27 => 891006,
        28 => 882947,
        29 => 874619,
        30 => 866025,
        31 => 857167,
        32 => 848048,
        33 => 838670,
        34 => 829037,
        35 => 819152,
        36 => 809016,
        37 => 798635,
        38 => 788010,
        39 => 777145,
        40 => 766044,
        41 => 754709,
        42 => 743144,
        43 => 731353,
        44 => 719339,
        45 => 707106,
        46 => 694658,
        47 => 681998,
        48 => 669130,
        49 => 656059,
        50 => 642787,
        51 => 629320,
        52 => 615661,
        53 => 601815,
        54 => 587785,
        55 => 573576,
        56 => 559192,
        57 => 544639,
        58 => 529919,
        59 => 515038,
        60 => 500000,
        61 => 484809,
        62 => 469471,
        63 => 453990,
        64 => 438371,
        65 => 422618,
        66 => 406736,
        67 => 390731,
        68 => 374606,
        69 => 358367,
        70 => 342020,
        71 => 325568,
        72 => 309016,
        73 => 292371,
        74 => 275637,
        75 => 258819,
        76 => 241921,
        77 => 224951,
        78 => 207911,
        79 => 190808,
        80 => 173648,
        81 => 156434,
        82 => 139173,
        83 => 121869,
        84 => 104528,
        85 => 87155,
        86 => 69756,
        87 => 52335,
        88 => 34899,
        89 => 17452,
        90 => 0,
        _ => 0,
    }
}

/// Truncated cosine of any whole-degree angle, scaled by `TRIG_ONE`, by
/// quarter-wave symmetry of the table.
pub open spec fn cos_q(deg: int) -> int {
    let r = deg % 360;
    if r <= 90 {
        quarter_cos_q(r)
    } else if r <= 180 {
        -quarter_cos_q(180 - r)
    } else if r <= 270 {
        -quarter_cos_q(r - 180)
    } else {
        quarter_cos_q(360 - r)
    }
}

/// Truncated sine of any whole-degree angle, scaled by `TRIG_ONE`.
pub open spec fn sin_q(deg: int) -> int {
    let r = deg % 360;
    if r <= 90 {
        quarter_cos_q(90 - r)
    } else if r <= 180 {
        quarter_cos_q(r - 90)
    } else if r <= 270 {
        -quarter_cos_q(270 - r)
    } else {
        -quarter_cos_q(r - 270)
    }
}

/// Division that truncates toward zero, as machine integer division does;
/// for a non-negative numerator it agrees with floor division.
pub open spec fn div_trunc(n: int, d: int) -> int {
    if n >= 0 {
        n / d
    } else {
        -((-n) / d)
    }
}

/// The first step magnitude of a screen: spacing * cos(angle), truncated
/// toward zero. The screen's along-step is (step_along, -step_cross) and
/// its newline step is (-step_cross, step_along): the clockwise angle
/// measure flips the sine's sign, and rotating the along-step a quarter
/// turn swaps the two magnitudes.
pub open spec fn step_along(spacing: int, deg: int) -> int {
    div_trunc(spacing * cos_q(deg), TRIG_ONE as int)
}

/// The second step magnitude of a screen: spacing * sin(angle), truncated
/// toward zero; see `step_along`.
pub open spec fn step_cross(spacing: int, deg: int) -> int {
    div_trunc(spacing * sin_q(deg), TRIG_ONE as int)
}

/// spacing * c / TRIG_ONE, truncated toward zero.
fn mul_div_trunc(s: i64, c: i64) -> (r: i64)
    requires
        1 <= s <= 65536,
        -1000000 <= c <= 1000000,
    ensures
        r == div_trunc(s * c, TRIG_ONE as int),
        -s <= r <= s,
{
    if c >= 0 {
        proof {
            crate::arith::lemma_mul_bounds(s as int, c as int, 65536, 1000000);
            crate::arith::lemma_mul_le(c as int, 1000000, s as int);
            assert((s as int) * (c as int) <= 1000000 * (s as int)) by (nonlinear_arith)
                requires (c as int) * (s as int) <= 1000000 * (s as int);
            crate::arith::lemma_div_frac_bound((s as int) * (c as int), 1000000, s as int);
        }
        s * c / 1000000
    } else {
        let neg = -c;
        proof {
            crate::arith::lemma_mul_bounds(s as int, neg as int, 65536, 1000000);
            crate::arith::lemma_mul_le(neg as int, 1000000, s as int);
            assert((s as int) * (neg as int) <= 1000000 * (s as int)) by (nonlinear_arith)
                requires (neg as int) * (s as int) <= 1000000 * (s as int);
            crate::arith::lemma_div_frac_bound((s as int) * (neg as int), 1000000, s as int);
            assert(-((s as int) * (c as int)) == (s as int) * (neg as int)) by (nonlinear_arith)
                requires neg as int == -(c as int);
            assert((s as int) * (c as int) < 0 || (s as int) * (c as int) == 0) by (nonlinear_arith)
                requires 1 <= s as int, (c as int) < 0;
        }
        -(s * neg / 1000000)
    }
}

/// The two signed step magnitudes of one screen: spacing * cos and
/// spacing * sin of the angle, truncated toward zero. Both lie within
/// [-spacing, spacing].
pub fn axis_steps(angle_deg: u32, spacing: u32) -> (r: (i64, i64))
    requires
        1 <= spacing <= 65536,
    ensures
        r.0 == step_along(spacing as int, angle_deg as int),
        r.1 == step_cross(spacing as int, angle_deg as int),
        -(spacing as int) <= r.0 <= spacing as int,
        -(spacing as int) <= r.1 <= spacing as int,
{
    let deg = angle_deg % 360;
    let cq: i64;
    let sq: i64;
    if deg <= 90 {
        cq = quarter_cos_lookup(deg) as i64;
        sq = quarter_cos_lookup(90 - deg) as i64;
    } else if deg <= 180 {
        cq = -(quarter_cos_lookup(180 - deg) as i64);
        sq = quarter_cos_lookup(deg - 90) as i64;
    } else if deg <= 270 {
        cq = -(quarter_cos_lookup(deg - 180) as i64);
        sq = -(quarter_cos_lookup(270 - deg) as i64);
    } else {
        cq = quarter_cos_lookup(360 - deg) as i64;
        sq = -(quarter_cos_lookup(deg - 270) as i64);
    }
    proof {
        assert(deg as int == (angle_deg as int) % 360);
        assert(cq == cos_q(angle_deg as int));
        assert(sq == sin_q(angle_deg as int));
    }
    let a = mul_div_trunc(spacing as i64, cq);
    let b = mul_div_trunc(spacing as i64, sq);
    (a, b)
}

/// At angle 0 the step magnitudes are exactly (spacing, 0): the cosine
/// factor is exactly one and the sine factor exactly zero, so the lattice
/// of that screen is axis-aligned with pitch `spacing`.
pub proof fn lemma_zero_angle_steps(spacing: int)
    requires
        1 <= spacing,
    ensures
        step_along(spacing, 0) == spacing,
        step_cross(spacing, 0) == 0,
{
    assert(cos_q(0) == 1000000);
    assert(sin_q(0) == 0);
    vstd::arithmetic::div_mod::lemma_div_by_multiple(spacing, 1000000);
    assert(spacing * 1000000 >= 0);
    assert(spacing * 0 == 0) by (nonlinear_arith);
}

} // verus!
