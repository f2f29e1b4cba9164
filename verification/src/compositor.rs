//! Compositing: painting the four channels' dot lists onto one canvas in a
//! fixed stacking order.

use vstd::prelude::*;
use crate::arith::{lemma_div_frac_bound, lemma_mul_bounds};
use crate::canvas::{blend_px, covered, fill_circle, Canvas};
use crate::color::{COVERAGE_ONE, Rgb};
use crate::config::{BlendMode, Channel, Config};
use crate::lattice::Dot;

verus! {

/// The dot lists of the four channels of one image.
#[derive(Debug)]
pub struct ChannelDots {
    pub cyan: Vec<Dot>,
    pub magenta: Vec<Dot>,
    pub yellow: Vec<Dot>,
    pub black: Vec<Dot>,
}

/// The ink color a channel paints with.
pub open spec fn ink_of(ch: Channel) -> Rgb {
    match ch {
        Channel::Cyan => Rgb { r: 0, g: 255, b: 255 },
        Channel::Magenta => Rgb { r: 255, g: 0, b: 255 },
        Channel::Yellow => Rgb { r: 255, g: 255, b: 0 },
        Channel::Black => Rgb { r: 0, g: 0, b: 0 },
    }
}

/// The dot list a channel paints.
pub open spec fn layer_seq(ld: &ChannelDots, ch: Channel) -> Seq<Dot> {
    match ch {
        Channel::Cyan => ld.cyan@,
        Channel::Magenta => ld.magenta@,
        Channel::Yellow => ld.yellow@,
        Channel::Black => ld.black@,
    }
}

/// The radius a dot is drawn with: spacing times its coverage, scaled by
/// the configured factor num/den and rounded to the nearest whole pixel
/// (halves round up; the value is never negative). Full coverage with the
/// default factor 1/2 gives half the spacing, so neighboring full dots
/// touch.
pub open spec fn dot_radius(spacing: int, num: int, den: int, intensity: int) -> int {
    (num * spacing * intensity + (den * COVERAGE_ONE) / 2) / (den * COVERAGE_ONE)
}

/// The canvas raster after one dot is painted: every pixel its circle
/// covers is blended with the ink, all others stay.
pub open spec fn paint_dot(
    cdata: Seq<Rgb>,
    w: int,
    d: Dot,
    radius: int,
    ink: Rgb,
    mode: BlendMode,
    opacity: int,
) -> Seq<Rgb> {
    Seq::new(
        cdata.len(),
        |i: int| if covered(d.x as int, d.y as int, radius, i % w, i / w) {
            blend_px(mode, opacity, ink, cdata[i])
        } else {
            cdata[i]
        },
    )
}

/// The canvas raster after a whole dot list is painted, first to last.
pub open spec fn paint_seq(
    cdata: Seq<Rgb>,
    w: int,
    dots: Seq<Dot>,
    spacing: int,
    num: int,
    den: int,
    ink: Rgb,
    mode: BlendMode,
    opacity: int,
) -> Seq<Rgb>
    decreases dots.len(),
{
    if dots.len() == 0 {
        cdata
    } else {
        paint_dot(
            paint_seq(cdata, w, dots.drop_last(), spacing, num, den, ink, mode, opacity),
            w,
            dots.last(),
            dot_radius(spacing, num, den, dots.last().intensity as int),
            ink,
            mode,
            opacity,
        )
    }
}

/// The canvas raster after one channel's layer is painted with its ink.
pub open spec fn paint_channel(
    cdata: Seq<Rgb>,
    w: int,
    ld: &ChannelDots,
    ch: Channel,
    cfg: Config,
) -> Seq<Rgb> {
    paint_seq(
        cdata,
        w,
        layer_seq(ld, ch),
        cfg.spacing as int,
        cfg.radius_num as int,
        cfg.radius_den as int,
        ink_of(ch),
        cfg.blend,
        cfg.opacity as int,
    )
}

/// A raster of one solid color.
pub open spec fn solid(n: nat, p: Rgb) -> Seq<Rgb> {
    Seq::new(n, |i: int| p)
}

/// The full composite: the background, then the four layers in the
/// configured stacking order.
pub open spec fn render_spec(n: nat, w: int, ld: &ChannelDots, cfg: Config) -> Seq<Rgb> {
    paint_channel(
        paint_channel(
            paint_channel(
                paint_channel(solid(n, cfg.background), w, ld, cfg.order.first, cfg),
                w,
                ld,
                cfg.order.second,
                cfg,
            ),
            w,
            ld,
            cfg.order.third,
            cfg,
        ),
        w,
        ld,
        cfg.order.fourth,
        cfg,
    )
}

/// Every dot of the list lies on a w x h raster and carries a valid
/// coverage value.
pub open spec fn layer_fits(dots: Seq<Dot>, w: int, h: int) -> bool {
    forall|i: int| 0 <= i < dots.len() ==> {
        &&& (#[trigger] dots[i]).x < w
        &&& dots[i].y < h
        &&& dots[i].intensity <= COVERAGE_ONE
    }
}

/// The drawn radius of a dot, computed without overflow; at most four
/// spacings under the validated configuration ranges.
fn radius_of(spacing: u32, num: u32, den: u32, intensity: u32) -> (r: i64)
    requires
        1 <= spacing <= 65536,
        1 <= den <= 1000,
        num <= 4 * den,
        intensity <= COVERAGE_ONE,
    ensures
        r as int == dot_radius(spacing as int, num as int, den as int, intensity as int),
        0 <= r <= 0x100000,
{
    proof {
        assert((num as int) * (spacing as int) <= 4000 * 65536) by (nonlinear_arith)
            requires 0 <= num as int <= 4000, 0 <= spacing as int <= 65536;
        assert(0 <= (num as int) * (spacing as int) * (intensity as int)
            <= ((den as int) * 65025) * (4 * 65536)) by (nonlinear_arith)
            requires
                0 <= num as int <= 4 * (den as int),
                1 <= spacing as int <= 65536,
                0 <= intensity as int <= 65025,
                1 <= den as int;
        assert(1 <= (den as int) * 65025 <= 65025000) by (nonlinear_arith)
            requires 1 <= den as int <= 1000;
        assert(0 <= (num as int) * (spacing as int) * (intensity as int) <= 0x2000_0000_0000)
            by (nonlinear_arith)
            requires
                0 <= num as int <= 4000,
                0 <= spacing as int <= 65536,
                0 <= intensity as int <= 65025;
        assert(((den as int) * 65025) * 262144 + (den as int) * 65025
            == ((den as int) * 65025) * 262145) by (nonlinear_arith);
        lemma_div_frac_bound(
            (num as int) * (spacing as int) * (intensity as int) + ((den as int) * 65025) / 2,
            (den as int) * 65025,
            262145int,
        );
    }
    let divisor = den as u64 * 65025;
    let wide = num as u64 * spacing as u64 * intensity as u64 + divisor / 2;
    let r = wide / divisor;
    r as i64
}

/// Index arithmetic of a row-major raster: a flat index splits into a
/// column `idx % w` and a row `idx / w`.
proof fn lemma_flat_coords(w: int, h: int, idx: int)
    requires
        1 <= w,
        0 <= idx < w * h,
    ensures
        0 <= idx % w < w,
        0 <= idx / w < h,
        (idx / w) * w + (idx % w) == idx,
{
    vstd::arithmetic::div_mod::lemma_fundamental_div_mod(idx, w);
    vstd::arithmetic::div_mod::lemma_mod_bound(idx, w);
    vstd::arithmetic::div_mod::lemma_div_pos_is_pos(idx, w);
    assert(idx / w < h) by (nonlinear_arith)
        requires
            idx == w * (idx / w) + idx % w,
            0 <= idx % w,
            idx < w * h,
            1 <= w,
            0 <= idx / w;
    assert((idx / w) * w == w * (idx / w)) by (nonlinear_arith);
}

/// Paint one channel's dot list onto the canvas with one ink.
#[verifier::loop_isolation(false)]
#[verifier::rlimit(60)]
pub fn paint_layer(
    c: &mut Canvas,
    dots: &Vec<Dot>,
    ink: Rgb,
    spacing: u32,
    num: u32,
    den: u32,
    mode: BlendMode,
    opacity: u8,
)
    requires
        old(c).wf(),
        layer_fits(dots@, old(c).width as int, old(c).height as int),
        1 <= spacing <= 65536,
        1 <= den <= 1000,
        num <= 4 * den,
    ensures
        final(c).wf(),
        final(c).width == old(c).width,
        final(c).height == old(c).height,
        final(c).data@ == paint_seq(
            old(c).data@,
            old(c).width as int,
            dots@,
            spacing as int,
            num as int,
            den as int,
            ink,
            mode,
            opacity as int,
        ),
{
    let ghost w = old(c).width as int;
    let ghost h = old(c).height as int;
    let n = dots.len();
    let mut i: usize = 0;
    while i < n
        invariant
            i <= n,
            c.wf(),
            c.width == old(c).width,
            c.height == old(c).height,
            c.data@ == paint_seq(
                old(c).data@, w, dots@.take(i as int),
                spacing as int, num as int, den as int, ink, mode, opacity as int,
            ),
        decreases n - i,
    {
        let d = dots[i];
        let r = radius_of(spacing, num, den, d.intensity);
        let ghost prev = *c;
        fill_circle(c, d.x as i64, d.y as i64, r, ink, mode, opacity);
        proof {
            lemma_mul_bounds(w, h, 65536, 65536);
            let painted = paint_dot(prev.data@, w, d, r as int, ink, mode, opacity as int);
            assert forall|idx: int| 0 <= idx < c.data@.len() implies
                c.data@[idx] == painted[idx] by {
                lemma_flat_coords(w, h, idx);
                let px = idx % w;
                let py = idx / w;
                assert(c.at(px, py) == c.data@[idx]);
                assert(prev.at(px, py) == prev.data@[idx]);
            }
            assert(c.data@ =~= painted);
            assert(dots@.take(i + 1).drop_last() =~= dots@.take(i as int));
            assert(dots@.take(i + 1).last() == d);
            assert(c.data@ == paint_seq(
                old(c).data@, w, dots@.take(i + 1),
                spacing as int, num as int, den as int, ink, mode, opacity as int,
            ));
        }
        i += 1;
    }
    proof {
        assert(dots@.take(n as int) =~= dots@);
    }
}

/// Paint the layer of one named channel.
fn paint_one_channel(c: &mut Canvas, ld: &ChannelDots, ch: Channel, cfg: &Config)
    requires
        old(c).wf(),
        cfg.valid(),
        layer_fits(layer_seq(ld, ch), old(c).width as int, old(c).height as int),
    ensures
        final(c).wf(),
        final(c).width == old(c).width,
        final(c).height == old(c).height,
        final(c).data@ == paint_channel(old(c).data@, old(c).width as int, ld, ch, *cfg),
{
    let ink = match ch {
        Channel::Cyan => Rgb { r: 0, g: 255, b: 255 },
        Channel::Magenta => Rgb { r: 255, g: 0, b: 255 },
        Channel::Yellow => Rgb { r: 255, g: 255, b: 0 },
        Channel::Black => Rgb { r: 0, g: 0, b: 0 },
    };
    match ch {
        Channel::Cyan => paint_layer(
            c, &ld.cyan, ink, cfg.spacing, cfg.radius_num, cfg.radius_den, cfg.blend,
            cfg.opacity,
        ),
        Channel::Magenta => paint_layer(
            c, &ld.magenta, ink, cfg.spacing, cfg.radius_num, cfg.radius_den, cfg.blend,
            cfg.opacity,
        ),
        Channel::Yellow => paint_layer(
            c, &ld.yellow, ink, cfg.spacing, cfg.radius_num, cfg.radius_den, cfg.blend,
            cfg.opacity,
        ),
        Channel::Black => paint_layer(
            c, &ld.black, ink, cfg.spacing, cfg.radius_num, cfg.radius_den, cfg.blend,
            cfg.opacity,
        ),
    }
}

/// Composite the four dot lists onto a fresh canvas: fill it with the
/// configured background, then paint the channels in the configured
/// stacking order, each dot as a filled circle of its scaled radius.
pub fn render(cfg: &Config, width: usize, height: usize, ld: &ChannelDots) -> (c: Canvas)
    requires
        cfg.valid(),
        1 <= width <= 65536,
        1 <= height <= 65536,
        width * height <= usize::MAX,
        layer_fits(ld.cyan@, width as int, height as int),
        layer_fits(ld.magenta@, width as int, height as int),
        layer_fits(ld.yellow@, width as int, height as int),
        layer_fits(ld.black@, width as int, height as int),
    ensures
        c.wf(),
        c.width == width,
        c.height == height,
        c.data@ == render_spec((width * height) as nat, width as int, ld, *cfg),
{
    let mut canvas = Canvas::new(width, height, cfg.background);
    proof {
        assert(canvas.data@ =~= solid((width * height) as nat, cfg.background));
        assert(layer_fits(layer_seq(ld, cfg.order.first), width as int, height as int));
        assert(layer_fits(layer_seq(ld, cfg.order.second), width as int, height as int));
        assert(layer_fits(layer_seq(ld, cfg.order.third), width as int, height as int));
        assert(layer_fits(layer_seq(ld, cfg.order.fourth), width as int, height as int));
    }
    paint_one_channel(&mut canvas, ld, cfg.order.first, cfg);
    paint_one_channel(&mut canvas, ld, cfg.order.second, cfg);
    paint_one_channel(&mut canvas, ld, cfg.order.third, cfg);
    paint_one_channel(&mut canvas, ld, cfg.order.fourth, cfg);
    canvas
}

/// Zero-coverage law: painting a layer whose dots all carry intensity 0
/// leaves the canvas pixel-identical to its previous state — every radius
/// resolves to 0 and a radius-0 circle covers no pixel.
pub proof fn lemma_zero_intensity_layer(
    cdata: Seq<Rgb>,
    w: int,
    dots: Seq<Dot>,
    spacing: int,
    num: int,
    den: int,
    ink: Rgb,
    mode: BlendMode,
    opacity: int,
)
    requires
        forall|i: int| 0 <= i < dots.len() ==> (#[trigger] dots[i]).intensity == 0,
        1 <= den,
        0 <= num,
        1 <= spacing,
    ensures
        paint_seq(cdata, w, dots, spacing, num, den, ink, mode, opacity) == cdata,
    decreases dots.len(),
{
    if dots.len() > 0 {
        assert forall|i: int| 0 <= i < dots.drop_last().len() implies
            (#[trigger] dots.drop_last()[i]).intensity == 0 by {
            assert(dots.drop_last()[i] == dots[i]);
        }
        lemma_zero_intensity_layer(
            cdata, w, dots.drop_last(), spacing, num, den, ink, mode, opacity,
        );
        let d = dots.last();
        let dd = den * (COVERAGE_ONE as int);
        assert(num * spacing * 0 == 0) by (nonlinear_arith);
        assert(1 <= dd) by (nonlinear_arith)
            requires 1 <= den, dd == den * 65025;
        vstd::arithmetic::div_mod::lemma_basic_div(dd / 2, dd);
        assert(dot_radius(spacing, num, den, 0) == 0);
        assert(paint_dot(cdata, w, d, 0, ink, mode, opacity) =~= cdata);
    }
}

} // verus!
