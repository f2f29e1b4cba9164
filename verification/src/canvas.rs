//! The output raster and the circle painting primitive.
//!
//! All canvas writes go through bounds-checked pixel updates; painting a
//! circle of radius 0 (or less) changes nothing at all.

use vstd::prelude::*;
use crate::color::Rgb;
use crate::config::BlendMode;
use crate::arith::{lemma_div_frac_bound, lemma_mul_bounds};

verus! {

/// A width x height RGB raster, row-major.
#[derive(Debug)]
pub struct Canvas {
    pub width: usize,
    pub height: usize,
    pub data: Vec<Rgb>,
}

impl Canvas {
    pub open spec fn wf(&self) -> bool {
        &&& 1 <= self.width <= 65536
        &&& 1 <= self.height <= 65536
        &&& self.data@.len() == self.width * self.height
    }

    /// The pixel at column `x`, row `y`.
    pub open spec fn at(&self, x: int, y: int) -> Rgb {
        self.data@[y * self.width + x]
    }

    /// A fresh canvas filled with the background color.
    pub fn new(width: usize, height: usize, background: Rgb) -> (c: Canvas)
        requires
            1 <= width <= 65536,
            1 <= height <= 65536,
            width * height <= usize::MAX,
        ensures
            c.wf(),
            c.width == width,
            c.height == height,
            forall|i: int| 0 <= i < c.data@.len() ==> c.data@[i] == background,
    {
        let n = width * height;
        let mut data: Vec<Rgb> = Vec::new();
        let mut i: usize = 0;
        while i < n
            invariant
                i <= n,
                data@.len() == i,
                forall|j: int| 0 <= j < i ==> data@[j] == background,
            decreases n - i,
        {
            data.push(background);
            i += 1;
        }
        Canvas { width, height, data }
    }

    /// Read one pixel, bounds-checked by contract.
    pub fn get_pixel(&self, x: usize, y: usize) -> (p: Rgb)
        requires
            self.wf(),
            x < self.width,
            y < self.height,
        ensures
            p == self.at(x as int, y as int),
    {
        proof {
            lemma_mul_bounds(self.width as int, self.height as int, 65536, 65536);
            lemma_rowmajor_index(self.width as int, self.height as int, x as int, y as int);
        }
        self.data[y * self.width + x]
    }

    /// Write one pixel, bounds-checked by contract; every other pixel is
    /// untouched.
    pub fn set_pixel(&mut self, x: usize, y: usize, color: Rgb)
        requires
            old(self).wf(),
            x < old(self).width,
            y < old(self).height,
        ensures
            final(self).wf(),
            final(self).width == old(self).width,
            final(self).height == old(self).height,
            final(self).at(x as int, y as int) == color,
            forall|qx: int, qy: int| 0 <= qx < old(self).width && 0 <= qy < old(self).height
                && !(qx == x as int && qy == y as int) ==>
                #[trigger] final(self).at(qx, qy) == old(self).at(qx, qy),
    {
        proof {
            lemma_mul_bounds(self.width as int, self.height as int, 65536, 65536);
            lemma_rowmajor_index(self.width as int, self.height as int, x as int, y as int);
        }
        let idx = y * self.width + x;
        self.data.set(idx, color);
        proof {
            assert forall|qx: int, qy: int| 0 <= qx < self.width && 0 <= qy < self.height
                && !(qx == x as int && qy == y as int) implies
                #[trigger] self.at(qx, qy) == old(self).at(qx, qy) by {
                lemma_rowmajor_index(self.width as int, self.height as int, qx, qy);
                if qy * (self.width as int) + qx == (y as int) * (self.width as int) + (x as int) {
                    lemma_rowmajor_injective(self.width as int, qx, qy, x as int, y as int);
                }
            }
        }
    }
}

/// A row-major index of an in-bounds pixel lies within the raster.
proof fn lemma_rowmajor_index(w: int, h: int, x: int, y: int)
    requires
        0 <= x < w,
        0 <= y < h,
    ensures
        0 <= y * w + x < w * h,
        0 <= y * w,
{
    assert(0 <= y * w && y * w + x < w * h) by (nonlinear_arith)
        requires 0 <= x < w, 0 <= y < h;
}

/// Two distinct in-bounds pixels have distinct row-major indices.
proof fn lemma_rowmajor_injective(w: int, qx: int, qy: int, px: int, py: int)
    requires
        0 <= qx < w,
        0 <= px < w,
        qy * w + qx == py * w + px,
    ensures
        qx == px && qy == py,
{
    assert(qx == px && qy == py) by (nonlinear_arith)
        requires 0 <= qx < w, 0 <= px < w, qy * w + qx == py * w + px;
}

/// One channel of ink blended over one channel of canvas: the ink value
/// itself in opaque overprint; in alpha overprint, the mix
/// (ink * opacity + dst * (255 - opacity)) / 255.
pub open spec fn blend_channel(mode: BlendMode, opacity: int, ink: int, dst: int) -> int {
    match mode {
        BlendMode::Opaque => ink,
        BlendMode::Alpha => (ink * opacity + dst * (255 - opacity)) / 255,
    }
}

/// An ink pixel blended over a canvas pixel, channel by channel.
pub open spec fn blend_px(mode: BlendMode, opacity: int, ink: Rgb, dst: Rgb) -> Rgb {
    Rgb {
        r: blend_channel(mode, opacity, ink.r as int, dst.r as int) as u8,
        g: blend_channel(mode, opacity, ink.g as int, dst.g as int) as u8,
        b: blend_channel(mode, opacity, ink.b as int, dst.b as int) as u8,
    }
}

/// A blended channel stays in the 8-bit range.
proof fn lemma_blend_channel_bounds(mode: BlendMode, opacity: int, ink: int, dst: int)
    requires
        0 <= opacity <= 255,
        0 <= ink <= 255,
        0 <= dst <= 255,
    ensures
        0 <= blend_channel(mode, opacity, ink, dst) <= 255,
{
    if mode is Alpha {
        assert(0 <= ink * opacity + dst * (255 - opacity) <= 255 * 255) by (nonlinear_arith)
            requires 0 <= opacity <= 255, 0 <= ink <= 255, 0 <= dst <= 255;
        lemma_div_frac_bound(ink * opacity + dst * (255 - opacity), 255, 255);
    }
}

fn blend_one(mode: BlendMode, opacity: u8, ink: u8, dst: u8) -> (r: u8)
    ensures
        r as int == blend_channel(mode, opacity as int, ink as int, dst as int),
{
    proof {
        lemma_blend_channel_bounds(mode, opacity as int, ink as int, dst as int);
    }
    match mode {
        BlendMode::Opaque => ink,
        BlendMode::Alpha => {
            let num: u32 = ink as u32 * opacity as u32 + dst as u32 * (255 - opacity as u32);
            (num / 255) as u8
        },
    }
}

/// Blend one ink pixel over one canvas pixel.
pub fn blend_pixel(mode: BlendMode, opacity: u8, ink: Rgb, dst: Rgb) -> (r: Rgb)
    ensures
        r == blend_px(mode, opacity as int, ink, dst),
{
    Rgb {
        r: blend_one(mode, opacity, ink.r, dst.r),
        g: blend_one(mode, opacity, ink.g, dst.g),
        b: blend_one(mode, opacity, ink.b, dst.b),
    }
}

/// Whether the filled circle of the given center and radius covers the
/// pixel (px, py). A radius below 1 covers nothing: radius 0 is a no-op,
/// not a point.
pub open spec fn covered(cx: int, cy: int, radius: int, px: int, py: int) -> bool {
    radius >= 1
        && (px - cx) * (px - cx) + (py - cy) * (py - cy) <= radius * radius
}

/// A pixel further than the radius from the center on either axis is not
/// covered.
proof fn lemma_outside_not_covered(cx: int, cy: int, radius: int, px: int, py: int)
    requires
        px < cx - radius || px > cx + radius || py < cy - radius || py > cy + radius,
    ensures
        !covered(cx, cy, radius, px, py),
{
    if radius >= 1 {
        assert((px - cx) * (px - cx) + (py - cy) * (py - cy) > radius * radius)
            by (nonlinear_arith)
            requires
                radius >= 1,
                px < cx - radius || px > cx + radius || py < cy - radius || py > cy + radius;
    }
}

/// Paint a filled circle of the given center, radius and ink onto the
/// canvas: every canvas pixel within `radius` of the center (by squared
/// Euclidean distance) is blended with the ink; every other pixel is left
/// untouched. A radius of 0 or less paints nothing.
#[verifier::loop_isolation(false)]
#[verifier::rlimit(60)]
pub fn fill_circle(
    c: &mut Canvas,
    cx: i64,
    cy: i64,
    radius: i64,
    ink: Rgb,
    mode: BlendMode,
    opacity: u8,
)
    requires
        old(c).wf(),
        0 <= cx < old(c).width,
        0 <= cy < old(c).height,
        radius <= 0x100000,
    ensures
        final(c).wf(),
        final(c).width == old(c).width,
        final(c).height == old(c).height,
        forall|px: int, py: int| 0 <= px < final(c).width && 0 <= py < final(c).height ==>
            #[trigger] final(c).at(px, py) == (if covered(
                cx as int, cy as int, radius as int, px, py) {
                blend_px(mode, opacity as int, ink, old(c).at(px, py))
            } else {
                old(c).at(px, py)
            }),
{
    let w = c.width as i64;
    let h = c.height as i64;
    if radius < 1 {
        return;
    }
    let y_lo = if cy - radius < 0 { 0 } else { cy - radius };
    let y_hi = if cy + radius > h - 1 { h - 1 } else { cy + radius };
    let x_lo = if cx - radius < 0 { 0 } else { cx - radius };
    let x_hi = if cx + radius > w - 1 { w - 1 } else { cx + radius };

    proof {
        assert forall|qx: int, qy: int| 0 <= qx < c.width && 0 <= qy < c.height
            && qy < y_lo as int implies
            !covered(cx as int, cy as int, radius as int, qx, qy) by {
            lemma_outside_not_covered(cx as int, cy as int, radius as int, qx, qy);
        }
    }
    let mut py = y_lo;
    while py <= y_hi
        invariant
            y_lo <= py <= y_hi + 1,
            c.wf(),
            c.width == old(c).width,
            c.height == old(c).height,
            forall|qx: int, qy: int| 0 <= qx < c.width && 0 <= qy < c.height ==>
                #[trigger] c.at(qx, qy) == (if qy < py
                    && covered(cx as int, cy as int, radius as int, qx, qy) {
                    blend_px(mode, opacity as int, ink, old(c).at(qx, qy))
                } else {
                    old(c).at(qx, qy)
                }),
        decreases y_hi + 1 - py,
    {
        proof {
            assert forall|qx: int, qy: int| 0 <= qx < c.width && 0 <= qy < c.height
                && qy == py as int && qx < x_lo as int implies
                !covered(cx as int, cy as int, radius as int, qx, qy) by {
                lemma_outside_not_covered(cx as int, cy as int, radius as int, qx, qy);
            }
        }
        let mut px = x_lo;
        while px <= x_hi
            invariant
                x_lo <= px <= x_hi + 1,
                y_lo <= py <= y_hi,
                c.wf(),
                c.width == old(c).width,
                c.height == old(c).height,
                forall|qx: int, qy: int| 0 <= qx < c.width && 0 <= qy < c.height ==>
                    #[trigger] c.at(qx, qy) == (if (qy < py || (qy == py && qx < px))
                        && covered(cx as int, cy as int, radius as int, qx, qy) {
                        blend_px(mode, opacity as int, ink, old(c).at(qx, qy))
                    } else {
                        old(c).at(qx, qy)
                    }),
            decreases x_hi + 1 - px,
        {
            let dx = px - cx;
            let dy = py - cy;
            proof {
                assert(0 <= dx * dx <= 0x100_0000_0000) by (nonlinear_arith)
                    requires -0x100000 <= dx <= 0x100000;
                assert(0 <= dy * dy <= 0x100_0000_0000) by (nonlinear_arith)
                    requires -0x100000 <= dy <= 0x100000;
                assert(0 <= radius * radius <= 0x100_0000_0000) by (nonlinear_arith)
                    requires 0 <= radius <= 0x100000;
            }
            if dx * dx + dy * dy <= radius * radius {
                let ghost prev = *c;
                let dst = c.get_pixel(px as usize, py as usize);
                let blended = blend_pixel(mode, opacity, ink, dst);
                c.set_pixel(px as usize, py as usize, blended);
                proof {
                    assert forall|qx: int, qy: int| 0 <= qx < c.width && 0 <= qy < c.height
                        implies #[trigger] c.at(qx, qy) == (if (qy < py as int
                            || (qy == py as int && qx <= px as int))
                            && covered(cx as int, cy as int, radius as int, qx, qy) {
                            blend_px(mode, opacity as int, ink, old(c).at(qx, qy))
                        } else {
                            old(c).at(qx, qy)
                        }) by {
                        if qx == px as int && qy == py as int {
                            assert(c.at(qx, qy) == blended);
                            assert(dst == prev.at(qx, qy));
                            assert(prev.at(qx, qy) == old(c).at(qx, qy));
                        } else {
                            assert(c.at(qx, qy) == prev.at(qx, qy));
                        }
                    }
                }
            } else {
                proof {
                    assert(!covered(cx as int, cy as int, radius as int, px as int, py as int));
                }
            }
            px = px + 1;
        }
        proof {
            assert forall|qx: int, qy: int| 0 <= qx < c.width && 0 <= qy < c.height
                && qy == py as int && !(x_lo as int <= qx <= x_hi as int) implies
                !covered(cx as int, cy as int, radius as int, qx, qy) by {
                lemma_outside_not_covered(cx as int, cy as int, radius as int, qx, qy);
            }
        }
        py = py + 1;
    }
    proof {
        assert forall|qx: int, qy: int| 0 <= qx < c.width && 0 <= qy < c.height
            && !(y_lo as int <= qy <= y_hi as int) implies
            !covered(cx as int, cy as int, radius as int, qx, qy) by {
            lemma_outside_not_covered(cx as int, cy as int, radius as int, qx, qy);
        }
    }
}

} // verus!
