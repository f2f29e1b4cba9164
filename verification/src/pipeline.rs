//! The end-to-end pipeline: separate an RGB raster into coverage planes,
//! generate each channel's dot list on its screen, and composite the four
//! layers onto one canvas.

use vstd::prelude::*;
use crate::canvas::Canvas;
use crate::color::Rgb;
use crate::compositor::{layer_fits, render, render_spec, ChannelDots};
use crate::config::{Config, HalftoneError};
use crate::lattice::{all_good, generate, generated_ok, good_dot, lattice_ok, DotList};
use crate::plane::{separate, CmykPlanes, Plane};
use crate::screen::{step_along, step_cross};

verus! {

/// Whether the screen of one channel (this spacing, this angle) has a
/// walkable lattice.
pub open spec fn channel_ok(spacing: int, angle: int) -> bool {
    lattice_ok(step_along(spacing, angle), step_cross(spacing, angle))
}

/// All four configured screens have walkable lattices.
pub open spec fn screens_ok(cfg: Config) -> bool {
    &&& channel_ok(cfg.spacing as int, cfg.angle_cyan as int)
    &&& channel_ok(cfg.spacing as int, cfg.angle_magenta as int)
    &&& channel_ok(cfg.spacing as int, cfg.angle_yellow as int)
    &&& channel_ok(cfg.spacing as int, cfg.angle_black as int)
}

/// The output of one render: the composited canvas, and whether any
/// channel sampled a degenerate window along the way — a warning, never a
/// failure.
#[derive(Debug)]
pub struct Rendering {
    pub canvas: Canvas,
    pub sampling_degenerate: bool,
}

/// What it means for a canvas raster (and its warning flag) to be a
/// halftone rendering of `pixels` under `cfg`: there are four coverage
/// planes separated exactly from the pixels, and four dot lists that each
/// satisfy the whole dot-generation contract of their channel's screen
/// over those planes (`generated_ok`), such that the raster is exactly the
/// composite of those lists over the configured background
/// (`render_spec`), and the flag aggregates the channels' sampling
/// warnings.
pub open spec fn renders(
    pixels: Seq<Rgb>,
    width: int,
    height: int,
    cfg: Config,
    canvas_data: Seq<Rgb>,
    warning: bool,
) -> bool {
    exists|pl: CmykPlanes, ld: ChannelDots, fc: bool, fm: bool, fy: bool, fk: bool|
        #![trigger
            generated_ok(&pl.c, cfg.spacing as int, cfg.angle_cyan as int, ld.cyan@, fc),
            generated_ok(&pl.m, cfg.spacing as int, cfg.angle_magenta as int, ld.magenta@, fm),
            generated_ok(&pl.y, cfg.spacing as int, cfg.angle_yellow as int, ld.yellow@, fy),
            generated_ok(&pl.k, cfg.spacing as int, cfg.angle_black as int, ld.black@, fk)
        ]
        {
            &&& pl.wf(width, height)
            &&& pl.separates(pixels)
            &&& generated_ok(&pl.c, cfg.spacing as int, cfg.angle_cyan as int, ld.cyan@, fc)
            &&& generated_ok(&pl.m, cfg.spacing as int, cfg.angle_magenta as int, ld.magenta@, fm)
            &&& generated_ok(&pl.y, cfg.spacing as int, cfg.angle_yellow as int, ld.yellow@, fy)
            &&& generated_ok(&pl.k, cfg.spacing as int, cfg.angle_black as int, ld.black@, fk)
            &&& warning == (fc || fm || fy || fk)
            &&& canvas_data == render_spec((width * height) as nat, width, &ld, cfg)
        }
}

/// The dots of one channel fit its plane's raster.
proof fn lemma_good_dots_fit(p: &Plane, spacing: int, a: int, b: int, dl: &DotList)
    requires
        all_good(p, spacing, a, b, dl.dots@),
    ensures
        layer_fits(dl.dots@, p.width as int, p.height as int),
{
    assert forall|i: int| 0 <= i < dl.dots@.len() implies
        ((#[trigger] dl.dots@[i]).x < p.width
            && dl.dots@[i].y < p.height
            && dl.dots@[i].intensity <= crate::color::COVERAGE_ONE) by {
        assert(good_dot(p, spacing, a, b, dl.dots@[i]));
    }
}

/// Render one image: separate `pixels` (row-major, width x height) into
/// the four ink coverage planes, walk each channel's screen lattice for
/// its dots, and composite them over the configured background.
///
/// Fails with `InvalidInput` exactly on a zero-area image or an
/// out-of-range configuration, before any processing; with
/// `GeometryDegenerate` exactly when some configured screen has no
/// walkable lattice. Otherwise the result carries the composite canvas —
/// pinned by `renders` to be the painted composite of dot lists generated
/// from the separated planes — and the aggregated sampling warning.
pub fn halftone(pixels: &Vec<Rgb>, width: usize, height: usize, cfg: &Config) -> (r: Result<
    Rendering,
    HalftoneError,
>)
    requires
        width <= 65536,
        height <= 65536,
        pixels@.len() == width * height,
    ensures
        match r {
            Ok(rr) => {
                &&& 1 <= width && 1 <= height && cfg.valid()
                &&& screens_ok(*cfg)
                &&& rr.canvas.wf()
                &&& rr.canvas.width == width
                &&& rr.canvas.height == height
                &&& renders(
                    pixels@,
                    width as int,
                    height as int,
                    *cfg,
                    rr.canvas.data@,
                    rr.sampling_degenerate,
                )
            },
            Err(HalftoneError::InvalidInput) => width == 0 || height == 0 || !cfg.valid(),
            Err(HalftoneError::GeometryDegenerate) => {
                &&& 1 <= width && 1 <= height && cfg.valid()
                &&& !screens_ok(*cfg)
            },
        },
{
    if width == 0 || height == 0 || !cfg.check() {
        return Err(HalftoneError::InvalidInput);
    }
    let total = pixels.len();
    proof {
        assert(total == width * height);
        assert(width * height <= usize::MAX);
    }
    let planes = separate(pixels, width, height);
    let cyan = match generate(cfg.angle_cyan, cfg.spacing, &planes.c) {
        Ok(dl) => dl,
        Err(e) => {
            return Err(e);
        },
    };
    let magenta = match generate(cfg.angle_magenta, cfg.spacing, &planes.m) {
        Ok(dl) => dl,
        Err(e) => {
            return Err(e);
        },
    };
    let yellow = match generate(cfg.angle_yellow, cfg.spacing, &planes.y) {
        Ok(dl) => dl,
        Err(e) => {
            return Err(e);
        },
    };
    let black = match generate(cfg.angle_black, cfg.spacing, &planes.k) {
        Ok(dl) => dl,
        Err(e) => {
            return Err(e);
        },
    };
    proof {
        lemma_good_dots_fit(
            &planes.c,
            cfg.spacing as int,
            step_along(cfg.spacing as int, cfg.angle_cyan as int),
            step_cross(cfg.spacing as int, cfg.angle_cyan as int),
            &cyan,
        );
        lemma_good_dots_fit(
            &planes.m,
            cfg.spacing as int,
            step_along(cfg.spacing as int, cfg.angle_magenta as int),
            step_cross(cfg.spacing as int, cfg.angle_magenta as int),
            &magenta,
        );
        lemma_good_dots_fit(
            &planes.y,
            cfg.spacing as int,
            step_along(cfg.spacing as int, cfg.angle_yellow as int),
            step_cross(cfg.spacing as int, cfg.angle_yellow as int),
            &yellow,
        );
        lemma_good_dots_fit(
            &planes.k,
            cfg.spacing as int,
            step_along(cfg.spacing as int, cfg.angle_black as int),
            step_cross(cfg.spacing as int, cfg.angle_black as int),
            &black,
        );
    }
    let warn_c = cyan.sampling_degenerate;
    let warn_m = magenta.sampling_degenerate;
    let warn_y = yellow.sampling_degenerate;
    let warn_k = black.sampling_degenerate;
    let ghost cd = cyan.dots@;
    let ghost md = magenta.dots@;
    let ghost yd = yellow.dots@;
    let ghost kd = black.dots@;
    let layers = ChannelDots {
        cyan: cyan.dots,
        magenta: magenta.dots,
        yellow: yellow.dots,
        black: black.dots,
    };
    let warning = warn_c || warn_m || warn_y || warn_k;
    let canvas = render(cfg, width, height, &layers);
    proof {
        assert(layers.cyan@ == cd && layers.magenta@ == md
            && layers.yellow@ == yd && layers.black@ == kd);
        assert(generated_ok(
            &planes.c, cfg.spacing as int, cfg.angle_cyan as int, layers.cyan@, warn_c));
        assert(generated_ok(
            &planes.m, cfg.spacing as int, cfg.angle_magenta as int, layers.magenta@, warn_m));
        assert(generated_ok(
            &planes.y, cfg.spacing as int, cfg.angle_yellow as int, layers.yellow@, warn_y));
        assert(generated_ok(
            &planes.k, cfg.spacing as int, cfg.angle_black as int, layers.black@, warn_k));
        assert(canvas.data@ == render_spec(
            (width * height) as nat, width as int, &layers, *cfg));
        assert(renders(
            pixels@, width as int, height as int, *cfg, canvas.data@, warning));
    }
    Ok(Rendering { canvas, sampling_degenerate: warning })
}

} // verus!
