//! Per-pixel RGB <-> CMYK conversion.
//!
//! Coverage values (how much of an ink a pixel wants) are fractions in
//! [0, 1]. They are represented in fixed point with denominator
//! `COVERAGE_ONE` = 255 * 255. That denominator makes the black channel
//! `k = (255 - max) / 255` exact, and it makes the inverse conversion
//! recover every 8-bit channel to within the one-unit truncation tolerance.

use vstd::prelude::*;

verus! {

/// Fixed-point representation of the coverage value 1.0 (that is, 255 * 255).
pub const COVERAGE_ONE: u32 = 65025;

/// An 8-bit RGB pixel.
#[derive(Clone, Copy, Debug, PartialEq, Eq, Structural)]
pub struct Rgb {
    pub r: u8,
    pub g: u8,
    pub b: u8,
}

/// Subtractive process-color coverage of one pixel, each channel a
/// fixed-point fraction in [0, COVERAGE_ONE].
#[derive(Clone, Copy, Debug, PartialEq, Eq, Structural)]
pub struct Cmyk {
    pub c: u32,
    pub m: u32,
    pub y: u32,
    pub k: u32,
}

impl Cmyk {
    /// Every channel is a valid coverage fraction.
    pub open spec fn wf(self) -> bool {
        self.c <= COVERAGE_ONE
            && self.m <= COVERAGE_ONE
            && self.y <= COVERAGE_ONE
            && self.k <= COVERAGE_ONE
    }
}

/// The largest of the three channel values.
pub open spec fn max3(r: int, g: int, b: int) -> int {
    let rg = if r > g { r } else { g };
    if rg > b { rg } else { b }
}

/// Black coverage of a pixel: (1 - max(r,g,b)/255) in fixed point.
/// With denominator 255 * 255 this is exact.
pub open spec fn k_of(r: int, g: int, b: int) -> int {
    (255 - max3(r, g, b)) * 255
}

/// Coverage of one subtractive channel, given the channel value `v` and the
/// pixel maximum `mx`: ((mx - v)/mx) in fixed point, truncated; 0 for a pure
/// black pixel (mx == 0), where the real formula would divide by zero.
pub open spec fn sub_channel_of(v: int, mx: int) -> int {
    if mx == 0 {
        0
    } else {
        (mx - v) * COVERAGE_ONE / mx
    }
}

pub open spec fn c_of(r: int, g: int, b: int) -> int {
    sub_channel_of(r, max3(r, g, b))
}

pub open spec fn m_of(r: int, g: int, b: int) -> int {
    sub_channel_of(g, max3(r, g, b))
}

pub open spec fn y_of(r: int, g: int, b: int) -> int {
    sub_channel_of(b, max3(r, g, b))
}

/// The spec value of the whole forward conversion.
pub open spec fn cmyk_of(p: Rgb) -> Cmyk {
    Cmyk {
        c: c_of(p.r as int, p.g as int, p.b as int) as u32,
        m: m_of(p.r as int, p.g as int, p.b as int) as u32,
        y: y_of(p.r as int, p.g as int, p.b as int) as u32,
        k: k_of(p.r as int, p.g as int, p.b as int) as u32,
    }
}

/// One channel of the inverse conversion: 255 * (1 - c) * (1 - k) in fixed
/// point, truncated to an integer. Lossy by construction (naive subtractive
/// model plus truncation); never to be relied on as an exact inverse,
/// though `lemma_round_trip_bounded` bounds the loss by one unit per
/// channel.
pub open spec fn back_channel(c: int, k: int) -> int {
    255 * (COVERAGE_ONE - c) * (COVERAGE_ONE - k) / (COVERAGE_ONE * COVERAGE_ONE)
}

/// The spec value of the whole inverse conversion.
pub open spec fn rgb_of(q: Cmyk) -> Rgb {
    Rgb {
        r: back_channel(q.c as int, q.k as int) as u8,
        g: back_channel(q.m as int, q.k as int) as u8,
        b: back_channel(q.y as int, q.k as int) as u8,
    }
}

fn max_channel(r: u8, g: u8, b: u8) -> (mx: u8)
    ensures
        mx as int == max3(r as int, g as int, b as int),
{
    let rg = if r > g { r } else { g };
    if rg > b { rg } else { b }
}

/// Separate one RGB pixel into its four ink coverages.
///
/// A pure black pixel (max(r,g,b) == 0) maps to (0, 0, 0, 1), avoiding the
/// division by zero in the subtractive formula.
pub fn convert_rgb_to_cmyk(rgb: &Rgb) -> (q: Cmyk)
    ensures
        q == cmyk_of(*rgb),
        q.wf(),
{
    let r = rgb.r as u32;
    let g = rgb.g as u32;
    let b = rgb.b as u32;
    let mx = max_channel(rgb.r, rgb.g, rgb.b) as u32;
    let k = (255 - mx) * 255;
    if mx == 0 {
        Cmyk { c: 0, m: 0, y: 0, k }
    } else {
        let c = (mx - r) * COVERAGE_ONE / mx;
        let m = (mx - g) * COVERAGE_ONE / mx;
        let y = (mx - b) * COVERAGE_ONE / mx;
        proof {
            lemma_sub_channel_bounds(r as int, mx as int);
            lemma_sub_channel_bounds(g as int, mx as int);
            lemma_sub_channel_bounds(b as int, mx as int);
        }
        Cmyk { c, m, y, k }
    }
}

/// Recombine four ink coverages into an RGB pixel. Lossy by construction:
/// see `back_channel`.
pub fn convert_cmyk_to_rgb(cmyk: &Cmyk) -> (p: Rgb)
    requires
        cmyk.wf(),
    ensures
        p == rgb_of(*cmyk),
{
    proof {
        lemma_back_channel_bounds(cmyk.c as int, cmyk.k as int);
        lemma_back_channel_bounds(cmyk.m as int, cmyk.k as int);
        lemma_back_channel_bounds(cmyk.y as int, cmyk.k as int);
    }
    let one = COVERAGE_ONE as u64;
    let r = 255 * (one - cmyk.c as u64) * (one - cmyk.k as u64) / (one * one);
    let g = 255 * (one - cmyk.m as u64) * (one - cmyk.k as u64) / (one * one);
    let b = 255 * (one - cmyk.y as u64) * (one - cmyk.k as u64) / (one * one);
    Rgb { r: r as u8, g: g as u8, b: b as u8 }
}

/// A subtractive channel coverage is a fraction: between 0 and 1.
proof fn lemma_sub_channel_bounds(v: int, mx: int)
    requires
        0 <= v <= mx <= 255,
    ensures
        0 <= sub_channel_of(v, mx) <= COVERAGE_ONE,
{
    if mx != 0 {
        let s = COVERAGE_ONE as int;
        crate::arith::lemma_mul_le(mx - v, mx, s);
        crate::arith::lemma_div_frac_bound((mx - v) * s, mx, s);
    }
}

/// The inverse conversion of valid coverages lands in the 8-bit range.
proof fn lemma_back_channel_bounds(c: int, k: int)
    requires
        0 <= c <= COVERAGE_ONE,
        0 <= k <= COVERAGE_ONE,
    ensures
        0 <= back_channel(c, k) <= 255,
{
    let s = COVERAGE_ONE as int;
    let num = 255 * (s - c) * (s - k);
    assert(0 <= num <= s * s * 255) by (nonlinear_arith)
        requires 0 <= c <= s, 0 <= k <= s, s == 65025, num == 255 * (s - c) * (s - k);
    crate::arith::lemma_div_frac_bound(num, s * s, 255);
}

/// The inverse conversion maps full black coverage to channel value 0.
proof fn lemma_back_channel_black()
    ensures
        back_channel(0, COVERAGE_ONE as int) == 0,
{
    let s = COVERAGE_ONE as int;
    assert(255 * (s - 0) * (s - s) == 0) by (nonlinear_arith);
    assert(s * s != 0) by (nonlinear_arith)
        requires s == 65025;
    vstd::arithmetic::div_mod::lemma_div_of0(s * s);
}

/// Round trip of one channel. For a channel value `v` of a pixel whose
/// maximum is `mx >= 1`, converting to coverage and back recovers `v`:
/// the fixed-point denominator 255 * 255 absorbs the truncation remainder,
/// which is smaller than `mx`.
proof fn lemma_round_trip_channel(v: int, mx: int)
    requires
        0 <= v <= mx <= 255,
        1 <= mx,
    ensures
        back_channel(sub_channel_of(v, mx), (255 - mx) * 255) == v,
{
    let s = COVERAGE_ONE as int;
    let c = (mx - v) * s / mx;
    let rho = (mx - v) * s % mx;
    vstd::arithmetic::div_mod::lemma_fundamental_div_mod((mx - v) * s, mx);
    vstd::arithmetic::div_mod::lemma_mod_bound((mx - v) * s, mx);
    assert((mx - v) * s == mx * c + rho);
    // s - c is (v*s + rho)/mx, exactly.
    assert(mx * (s - c) == v * s + rho) by (nonlinear_arith)
        requires (mx - v) * s == mx * c + rho, s == 65025;
    // k is exact: s - k == 255 * mx.
    let k = (255 - mx) * 255;
    assert(s - k == 255 * mx);
    // back_channel(c, k) == (255 * (s-c) * 255 * mx) / (s*s) == (v*s + rho)*s / (s*s) == v.
    assert(255 * (s - c) * (s - k) == (v * s + rho) * s) by (nonlinear_arith)
        requires s - k == 255 * mx, mx * (s - c) == v * s + rho, s == 65025;
    assert((v * s + rho) * s == (s * s) * v + rho * s) by (nonlinear_arith);
    assert(0 <= rho * s < s * s) by (nonlinear_arith)
        requires 0 <= rho < 255, s == 65025;
    vstd::arithmetic::div_mod::lemma_div_multiples_vanish_fancy(v, rho * s, s * s);
    assert(back_channel(c, k) == v);
}

/// Round-trip law: converting a pixel to CMYK coverages and back recovers
/// every channel to within the one-unit 8-bit truncation tolerance.
pub proof fn lemma_round_trip_bounded(p: Rgb)
    ensures
        rgb_of(cmyk_of(p)).r - p.r <= 1,
        p.r - rgb_of(cmyk_of(p)).r <= 1,
        rgb_of(cmyk_of(p)).g - p.g <= 1,
        p.g - rgb_of(cmyk_of(p)).g <= 1,
        rgb_of(cmyk_of(p)).b - p.b <= 1,
        p.b - rgb_of(cmyk_of(p)).b <= 1,
{
    let r = p.r as int;
    let g = p.g as int;
    let b = p.b as int;
    let mx = max3(r, g, b);
    if mx == 0 {
        lemma_back_channel_black();
    } else {
        lemma_round_trip_channel(r, mx);
        lemma_round_trip_channel(g, mx);
        lemma_round_trip_channel(b, mx);
        lemma_sub_channel_bounds(r, mx);
        lemma_sub_channel_bounds(g, mx);
        lemma_sub_channel_bounds(b, mx);
        lemma_back_channel_bounds(sub_channel_of(r, mx), k_of(r, g, b));
        lemma_back_channel_bounds(sub_channel_of(g, mx), k_of(r, g, b));
        lemma_back_channel_bounds(sub_channel_of(b, mx), k_of(r, g, b));
    }
}

/// Round-trip law for the extreme colors (black, white and the pure
/// primaries and secondaries): the conversion pair is exactly lossless
/// there.
pub proof fn lemma_round_trip_pure(p: Rgb)
    requires
        p.r == 0 || p.r == 255,
        p.g == 0 || p.g == 255,
        p.b == 0 || p.b == 255,
    ensures
        rgb_of(cmyk_of(p)) == p,
{
    let r = p.r as int;
    let g = p.g as int;
    let b = p.b as int;
    let mx = max3(r, g, b);
    if mx == 0 {
        lemma_back_channel_black();
    } else {
        lemma_round_trip_channel(r, mx);
        lemma_round_trip_channel(g, mx);
        lemma_round_trip_channel(b, mx);
        lemma_sub_channel_bounds(r, mx);
        lemma_sub_channel_bounds(g, mx);
        lemma_sub_channel_bounds(b, mx);
    }
    assert(rgb_of(cmyk_of(p)) == p);
}

} // verus!
