//! Dot generation: walking the angled screen lattice of one channel and
//! sampling the plane at every lattice point that falls on the image.
//!
//! The lattice of a screen with step magnitudes a = spacing * cos(angle)
//! and b = spacing * sin(angle) (truncated; see `screen`) is walked row by
//! row: row `l` starts at the seed (b*l, a*l), walks right by (+a, -b)
//! while the point is left of the image and strictly below its top edge,
//! then walks left from one step before the seed by (-a, +b) while the
//! point is right of the image's left edge and above its bottom edge. Rows
//! advance until the seed passes twice the image width or drops below the
//! top edge.
//!
//! A combination whose walk cannot make progress toward those stopping
//! conditions — a non-positive b together with a non-positive a, or a
//! negative b — is rejected as `GeometryDegenerate` instead of looping
//! forever; with b == 0 (an axis-aligned screen such as angle 0) rows
//! advance straight down and generation additionally stops as soon as the
//! seed leaves the image vertically, the point past which the two stopping
//! conditions above could never fire again.

use vstd::prelude::*;
use crate::color::COVERAGE_ONE;
use crate::config::HalftoneError;
use crate::plane::Plane;
use crate::sampler::{intensity_at, sample_cnt, sample_value};
use crate::screen::{axis_steps, step_along, step_cross};

verus! {

/// One halftone dot: an in-image lattice point and the coverage sampled
/// around it.
#[derive(Clone, Copy, Debug, PartialEq, Eq, Structural)]
pub struct Dot {
    pub x: u32,
    pub y: u32,
    pub intensity: u32,
}

/// The dots of one channel, and whether any of their sampling windows was
/// degenerate (counted no sample, and so sampled as intensity 0) — a
/// warning, never a failure.
#[derive(Debug)]
pub struct DotList {
    pub dots: Vec<Dot>,
    pub sampling_degenerate: bool,
}

/// Whether a lattice walk with step magnitudes (a, b) makes progress
/// toward its stopping conditions: every screen with b > 0, and the
/// axis-aligned screen b == 0 provided a > 0.
pub open spec fn lattice_ok(a: int, b: int) -> bool {
    b > 0 || (b == 0 && a > 0)
}

/// The x coordinate of lattice point (row l, step t).
pub open spec fn lattice_x(a: int, b: int, l: int, t: int) -> int {
    b * l + a * t
}

/// The y coordinate of lattice point (row l, step t).
pub open spec fn lattice_y(a: int, b: int, l: int, t: int) -> int {
    a * l - b * t
}

/// (x, y) is a point of the walked lattice: on some row l >= 0, some whole
/// number of along-steps away from that row's seed.
pub open spec fn on_lattice(a: int, b: int, x: int, y: int) -> bool {
    exists|l: int, t: int|
        0 <= l && x == lattice_x(a, b, l, t) && y == lattice_y(a, b, l, t)
}

/// What `generate` guarantees of every emitted dot: it lies on the image,
/// on the lattice of its screen, and carries exactly the windowed average
/// coverage of its position.
pub open spec fn good_dot(p: &Plane, spacing: int, a: int, b: int, d: Dot) -> bool {
    &&& (d.x as int) < p.width
    &&& (d.y as int) < p.height
    &&& d.intensity as int == sample_value(p, d.x as int, d.y as int, spacing)
    &&& d.intensity <= COVERAGE_ONE
    &&& on_lattice(a, b, d.x as int, d.y as int)
}

pub open spec fn all_good(p: &Plane, spacing: int, a: int, b: int, dots: Seq<Dot>) -> bool {
    forall|i: int| 0 <= i < dots.len() ==> good_dot(p, spacing, a, b, #[trigger] dots[i])
}

/// The sampling window of this dot counted no sample.
pub open spec fn degenerate_window(p: &Plane, spacing: int, d: Dot) -> bool {
    sample_cnt(p, d.x as int, d.y as int, spacing) == 0
}

/// The warning flag is set exactly when some emitted dot had a degenerate
/// sampling window.
pub open spec fn flag_matches(p: &Plane, spacing: int, dots: Seq<Dot>, flag: bool) -> bool {
    if flag {
        exists|i: int| 0 <= i < dots.len() && degenerate_window(p, spacing, #[trigger] dots[i])
    } else {
        forall|i: int| 0 <= i < dots.len() ==> !degenerate_window(p, spacing, #[trigger] dots[i])
    }
}

/// Pushing a good dot onto a good dot list keeps both tracked facts.
proof fn lemma_push_keeps(
    p: &Plane,
    spacing: int,
    a: int,
    b: int,
    old_dots: Seq<Dot>,
    new_dots: Seq<Dot>,
    d: Dot,
    old_flag: bool,
    new_flag: bool,
)
    requires
        new_dots == old_dots.push(d),
        all_good(p, spacing, a, b, old_dots),
        good_dot(p, spacing, a, b, d),
        flag_matches(p, spacing, old_dots, old_flag),
        new_flag == (old_flag || degenerate_window(p, spacing, d)),
    ensures
        all_good(p, spacing, a, b, new_dots),
        flag_matches(p, spacing, new_dots, new_flag),
{
    assert forall|i: int| 0 <= i < new_dots.len() implies
        good_dot(p, spacing, a, b, #[trigger] new_dots[i]) by {
        if i < old_dots.len() {
            assert(new_dots[i] == old_dots[i]);
        } else {
            assert(new_dots[i] == d);
        }
    }
    if new_flag {
        if old_flag {
            let i = choose|i: int|
                0 <= i < old_dots.len() && degenerate_window(p, spacing, #[trigger] old_dots[i]);
            assert(degenerate_window(p, spacing, new_dots[i]));
        } else {
            assert(degenerate_window(p, spacing, new_dots[old_dots.len() as int]));
        }
    } else {
        assert forall|i: int| 0 <= i < new_dots.len() implies
            !degenerate_window(p, spacing, #[trigger] new_dots[i]) by {
            if i < old_dots.len() {
                assert(new_dots[i] == old_dots[i]);
            } else {
                assert(new_dots[i] == d);
            }
        }
    }
}

/// Every point of an axis-aligned lattice (step magnitudes (spacing, 0),
/// as the screen of angle 0 has) lies a whole multiple of the spacing from
/// the origin along each axis.
pub proof fn lemma_axis_aligned_dots(spacing: int, x: int, y: int)
    requires
        1 <= spacing,
        0 <= x,
        0 <= y,
        on_lattice(spacing, 0, x, y),
    ensures
        x % spacing == 0,
        y % spacing == 0,
{
    let (l, t) = choose|l: int, t: int|
        0 <= l && x == lattice_x(spacing, 0, l, t) && y == lattice_y(spacing, 0, l, t);
    assert(0 * l == 0) by (nonlinear_arith);
    assert(0 * t == 0) by (nonlinear_arith);
    assert(x == spacing * t);
    assert(y == spacing * l);
    assert(spacing * t == t * spacing) by (nonlinear_arith);
    assert(spacing * l == l * spacing) by (nonlinear_arith);
    vstd::arithmetic::div_mod::lemma_mod_multiples_basic(t, spacing);
    vstd::arithmetic::div_mod::lemma_mod_multiples_basic(l, spacing);
}

/// Some emitted dot sits at exactly this position.
pub open spec fn contains_point(dots: Seq<Dot>, x: int, y: int) -> bool {
    exists|j: int| 0 <= j < dots.len() && (#[trigger] dots[j]).x == x && dots[j].y == y
}

/// Appending a dot keeps every position already present.
proof fn lemma_contains_push(old_dots: Seq<Dot>, new_dots: Seq<Dot>, d: Dot)
    requires
        new_dots == old_dots.push(d),
    ensures
        forall|x: int, y: int|
            contains_point(old_dots, x, y) ==> #[trigger] contains_point(new_dots, x, y),
{
    assert forall|x: int, y: int| contains_point(old_dots, x, y) implies
        #[trigger] contains_point(new_dots, x, y) by {
        let j = choose|j: int|
            0 <= j < old_dots.len() && (#[trigger] old_dots[j]).x == x && old_dots[j].y == y;
        assert(new_dots[j] == old_dots[j]);
    }
}

/// Completeness of an axis-aligned screen (step magnitudes (a, 0)): every
/// grid point with row index in [1, lmax) that lies on the image has been
/// emitted.
pub open spec fn grid_rows_complete(dots: Seq<Dot>, a: int, w: int, h: int, lmax: int) -> bool {
    forall|l: int, t: int|
        1 <= l < lmax && 0 <= t
            && #[trigger] lattice_x(a, 0, l, t) < w && lattice_y(a, 0, l, t) < h
            ==> contains_point(dots, lattice_x(a, 0, l, t), lattice_y(a, 0, l, t))
}

/// Completeness of an axis-aligned screen, over all rows: every grid point
/// (t * a, l * a) with l >= 1, t >= 0 that lies on the image has been
/// emitted. (Row 0 and the left half-plane are outside the walked lattice,
/// exactly as the walk's stopping conditions leave them.)
pub open spec fn axis_grid_complete(dots: Seq<Dot>, a: int, w: int, h: int) -> bool {
    forall|l: int, t: int|
        1 <= l && 0 <= t
            && #[trigger] lattice_x(a, 0, l, t) < w && lattice_y(a, 0, l, t) < h
            ==> contains_point(dots, lattice_x(a, 0, l, t), lattice_y(a, 0, l, t))
}

/// The first `tmax` grid points of row `l` of an axis-aligned screen have
/// been emitted.
pub open spec fn row_prefix_complete(dots: Seq<Dot>, a: int, l: int, tmax: int) -> bool {
    forall|t2: int|
        0 <= t2 < tmax
            ==> contains_point(dots, #[trigger] lattice_x(a, 0, l, t2), lattice_y(a, 0, l, t2))
}

/// Completeness of a first-quadrant screen (step magnitudes a >= 0,
/// b >= 1), for the rows the walk visits (row 0, and every later row whose
/// seed has not yet passed twice the image width): every lattice point of
/// such a row that lies on the image — strictly below its top edge, and
/// strictly right of its left edge on the leftward half — has been
/// emitted.
pub open spec fn slant_grid_complete(dots: Seq<Dot>, a: int, b: int, w: int, h: int) -> bool {
    forall|l: int, t: int|
        0 <= l && (l == 0 || b * l <= 2 * w - 1)
            && 0 <= #[trigger] lattice_x(a, b, l, t) < w
            && 0 < lattice_y(a, b, l, t) < h
            && (t < 0 ==> 1 <= lattice_x(a, b, l, t))
            ==> contains_point(dots, lattice_x(a, b, l, t), lattice_y(a, b, l, t))
}

/// As `slant_grid_complete`, limited to rows below `lmax`.
pub open spec fn slant_rows_complete(
    dots: Seq<Dot>,
    a: int,
    b: int,
    w: int,
    h: int,
    lmax: int,
) -> bool {
    forall|l: int, t: int|
        0 <= l < lmax
            && 0 <= #[trigger] lattice_x(a, b, l, t) < w
            && 0 < lattice_y(a, b, l, t) < h
            && (t < 0 ==> 1 <= lattice_x(a, b, l, t))
            ==> contains_point(dots, lattice_x(a, b, l, t), lattice_y(a, b, l, t))
}

/// The rightward steps of row `l` visited so far have been emitted
/// wherever they lie below the image's top edge.
pub open spec fn row_right_complete(dots: Seq<Dot>, a: int, b: int, l: int, h: int, tmax: int) -> bool {
    forall|t2: int|
        0 <= t2 < tmax && #[trigger] lattice_y(a, b, l, t2) < h
            ==> contains_point(dots, lattice_x(a, b, l, t2), lattice_y(a, b, l, t2))
}

/// The leftward steps of row `l` visited so far have been emitted wherever
/// they lie left of the image's right edge.
pub open spec fn row_left_complete(dots: Seq<Dot>, a: int, b: int, l: int, w: int, jmax: int) -> bool {
    forall|j: int|
        0 <= j < jmax && #[trigger] lattice_x(a, b, l, -(j + 1)) < w
            ==> contains_point(dots, lattice_x(a, b, l, -(j + 1)), lattice_y(a, b, l, -(j + 1)))
}

/// No position appears twice in the dot list: the canvas is painted at
/// most once per lattice point of a layer, so overlapping translucent ink
/// cannot darken a dot's own position twice.
pub open spec fn distinct_positions(dots: Seq<Dot>) -> bool {
    forall|i: int, j: int|
        0 <= i < j < dots.len()
            ==> !((#[trigger] dots[i]).x == (#[trigger] dots[j]).x && dots[i].y == dots[j].y)
}

/// Completeness of a second-quadrant screen (step magnitudes a <= -1,
/// b >= 1): the walk visits only row 0, leftward, and emits every on-image
/// point of that row right of the image's left edge.
pub open spec fn back_row_complete(dots: Seq<Dot>, a: int, b: int, w: int, h: int) -> bool {
    forall|t: int|
        1 <= #[trigger] lattice_x(a, b, 0, t) < w && 0 < lattice_y(a, b, 0, t) < h
            ==> contains_point(dots, lattice_x(a, b, 0, t), lattice_y(a, b, 0, t))
}

/// Everything `generate` promises of a successful dot list: soundness of
/// every dot, the sampling warning, and the completeness guarantee of each
/// screen family whose walk covers a predictable region.
pub open spec fn generated_ok(
    p: &Plane,
    spacing: int,
    angle: int,
    dots: Seq<Dot>,
    flag: bool,
) -> bool {
    let a = step_along(spacing, angle);
    let b = step_cross(spacing, angle);
    &&& all_good(p, spacing, a, b, dots)
    &&& flag_matches(p, spacing, dots, flag)
    &&& distinct_positions(dots)
    &&& (b == 0 ==> axis_grid_complete(dots, a, p.width as int, p.height as int))
    &&& (a >= 0 && b >= 1 ==> slant_grid_complete(dots, a, b, p.width as int, p.height as int))
    &&& (a <= -1 && b >= 1 ==> back_row_complete(dots, a, b, p.width as int, p.height as int))
}

/// Distinct lattice indices give distinct positions: the step map
/// (l, t) -> (b*l + a*t, a*l - b*t) has determinant -(a*a + b*b), which is
/// nonzero for every walkable screen.
proof fn lemma_lattice_injective(a: int, b: int, l1: int, t1: int, l2: int, t2: int)
    requires
        lattice_ok(a, b),
        !(l1 == l2 && t1 == t2),
    ensures
        lattice_x(a, b, l1, t1) != lattice_x(a, b, l2, t2)
            || lattice_y(a, b, l1, t1) != lattice_y(a, b, l2, t2),
{
    if lattice_x(a, b, l1, t1) == lattice_x(a, b, l2, t2)
        && lattice_y(a, b, l1, t1) == lattice_y(a, b, l2, t2) {
        let dl = l1 - l2;
        let dt = t1 - t2;
        assert(b * dl + a * dt == 0 && a * dl - b * dt == 0) by (nonlinear_arith)
            requires
                b * l1 + a * t1 == b * l2 + a * t2,
                a * l1 - b * t1 == a * l2 - b * t2,
                dl == l1 - l2,
                dt == t1 - t2;
        assert((a * a + b * b) * dl == 0 && (a * a + b * b) * dt == 0) by (nonlinear_arith)
            requires b * dl + a * dt == 0, a * dl - b * dt == 0;
        assert(a * a + b * b >= 1) by (nonlinear_arith)
            requires b >= 1 || (b == 0 && a >= 1);
        assert(dl == 0) by (nonlinear_arith)
            requires (a * a + b * b) * dl == 0, a * a + b * b >= 1;
        assert(dt == 0) by (nonlinear_arith)
            requires (a * a + b * b) * dt == 0, a * a + b * b >= 1;
        assert(false);
    }
}

/// Pushing a dot whose position is fresh keeps the positions distinct.
proof fn lemma_distinct_push(old_dots: Seq<Dot>, new_dots: Seq<Dot>, d: Dot)
    requires
        new_dots == old_dots.push(d),
        distinct_positions(old_dots),
        forall|i: int| 0 <= i < old_dots.len()
            ==> !((#[trigger] old_dots[i]).x == d.x && old_dots[i].y == d.y),
    ensures
        distinct_positions(new_dots),
{
    assert forall|i: int, j: int| 0 <= i < j < new_dots.len() implies
        !((#[trigger] new_dots[i]).x == (#[trigger] new_dots[j]).x
            && new_dots[i].y == new_dots[j].y) by {
        assert(new_dots[i] == old_dots[i]);
        if j < old_dots.len() {
            assert(new_dots[j] == old_dots[j]);
        } else {
            assert(new_dots[j] == d);
        }
    }
}

/// Axis-aligned screen law: every dot that `generate` emits for angle 0
/// with a positive spacing sits a whole multiple of the spacing from the
/// origin along each axis — the lattice of that screen is the regular
/// `spacing`-pitched grid.
pub proof fn lemma_zero_angle_grid(spacing: int, x: int, y: int)
    requires
        1 <= spacing,
        0 <= x,
        0 <= y,
        on_lattice(step_along(spacing, 0), step_cross(spacing, 0), x, y),
    ensures
        x % spacing == 0,
        y % spacing == 0,
{
    crate::screen::lemma_zero_angle_steps(spacing);
    lemma_axis_aligned_dots(spacing, x, y);
}

/// Produce the dot list of one channel: the lattice points of the screen
/// `angle_deg` (clockwise degrees) that fall on the image, each with the
/// windowed average coverage sampled around it.
///
/// Succeeds exactly when the screen's step magnitudes let the walk make
/// progress (`lattice_ok`); otherwise it fails fast with
/// `GeometryDegenerate` instead of hanging. A successful list satisfies
/// `generated_ok`: every dot satisfies `good_dot`, no position is emitted
/// twice, the sampling warning is reported exactly, and the emitted set
/// covers the whole on-image grid of an axis-aligned screen
/// (`axis_grid_complete`), every on-image point of the rows a
/// first-quadrant screen visits (`slant_grid_complete`), and the one row a
/// second-quadrant screen visits (`back_row_complete`). Dot order is
/// unspecified: callers must not depend on the order of emission.
#[verifier::loop_isolation(false)]
#[verifier::rlimit(60)]
pub fn generate(angle_deg: u32, spacing: u32, plane: &Plane) -> (r: Result<
    DotList,
    HalftoneError,
>)
    requires
        plane.wf(),
        1 <= spacing <= 65536,
    ensures
        match r {
            Ok(dl) => {
                &&& lattice_ok(
                    step_along(spacing as int, angle_deg as int),
                    step_cross(spacing as int, angle_deg as int),
                )
                &&& generated_ok(
                    plane,
                    spacing as int,
                    angle_deg as int,
                    dl.dots@,
                    dl.sampling_degenerate,
                )
            },
            Err(e) => {
                &&& e == HalftoneError::GeometryDegenerate
                &&& !lattice_ok(
                    step_along(spacing as int, angle_deg as int),
                    step_cross(spacing as int, angle_deg as int),
                )
            },
        },
{
    let (av, bv) = axis_steps(angle_deg, spacing);
    if !(bv > 0 || (bv == 0 && av > 0)) {
        return Err(HalftoneError::GeometryDegenerate);
    }
    let ghost a: int = av as int;
    let ghost b: int = bv as int;
    let w = plane.width as i64;
    let h = plane.height as i64;
    let cap: i64 = 2 * w + h + 2;

    let mut dots: Vec<Dot> = Vec::new();
    let ghost mut keys: Seq<(int, int)> = Seq::empty();
    let mut warn = false;
    let mut line: i64 = 0;
    let mut sx: i64 = 0;
    let mut sy: i64 = 0;
    let mut go = true;
    while go
        invariant
            0 <= line <= cap,
            sx as int == b * (line as int),
            sy as int == a * (line as int),
            go == (sx <= 2 * w - 1 && sy >= 0 && !(bv == 0 && sy >= h)),
            all_good(plane, spacing as int, a, b, dots@),
            flag_matches(plane, spacing as int, dots@, warn),
            bv == 0 ==> grid_rows_complete(dots@, a, w as int, h as int, line as int),
            a >= 0 && b >= 1 ==> slant_rows_complete(
                dots@, a, b, w as int, h as int, line as int),
            a <= -1 && b >= 1 && line as int >= 1 ==> back_row_complete(
                dots@, a, b, w as int, h as int),
            line == 0 ==> go,
            keys.len() == dots@.len(),
            forall|i: int| 0 <= i < keys.len() ==> {
                &&& (#[trigger] dots@[i]).x as int == lattice_x(a, b, keys[i].0, keys[i].1)
                &&& dots@[i].y as int == lattice_y(a, b, keys[i].0, keys[i].1)
            },
            forall|i: int| 0 <= i < keys.len() ==> (#[trigger] keys[i]).0 < line as int,
            distinct_positions(dots@),
        decreases cap - line,
    {
        proof {
            if bv >= 1 {
                assert((line as int) <= b * (line as int)) by (nonlinear_arith)
                    requires 1 <= b, 0 <= line as int;
            } else {
                assert((line as int) <= a * (line as int)) by (nonlinear_arith)
                    requires 1 <= a, 0 <= line as int;
            }
            assert(line < cap);
            assert(sx >= 0) by (nonlinear_arith)
                requires 0 <= b, 0 <= line as int, sx as int == b * (line as int);
            assert(-0x10_0000_0000 <= sy as int <= 0x10_0000_0000) by (nonlinear_arith)
                requires -65536 <= a <= 65536, 0 <= line as int <= 262146,
                    sy as int == a * (line as int);
        }

        // Walk right and down from the seed.
        let mut x = sx;
        let mut y = sy;
        let ghost mut gt: int = 0;
        while x < w && y > 0
            invariant
                x as int == lattice_x(a, b, line as int, gt),
                y as int == lattice_y(a, b, line as int, gt),
                0 <= gt,
                sx <= x,
                x <= w + 65536,
                y <= sy,
                -65536 <= y,
                all_good(plane, spacing as int, a, b, dots@),
                flag_matches(plane, spacing as int, dots@, warn),
                bv == 0 ==> grid_rows_complete(dots@, a, w as int, h as int, line as int),
                bv == 0 ==> row_prefix_complete(dots@, a, line as int, gt),
                a >= 0 && b >= 1 ==> slant_rows_complete(
                    dots@, a, b, w as int, h as int, line as int),
                row_right_complete(dots@, a, b, line as int, h as int, gt),
                keys.len() == dots@.len(),
                forall|i: int| 0 <= i < keys.len() ==> {
                    &&& (#[trigger] dots@[i]).x as int == lattice_x(a, b, keys[i].0, keys[i].1)
                    &&& dots@[i].y as int == lattice_y(a, b, keys[i].0, keys[i].1)
                },
                forall|i: int| 0 <= i < keys.len() ==> ((#[trigger] keys[i]).0 < line as int
                    || (keys[i].0 == line as int && 0 <= keys[i].1 < gt)),
                distinct_positions(dots@),
                a <= -1 && b >= 1 && line as int >= 1 ==> back_row_complete(
                    dots@, a, b, w as int, h as int),
            decreases w + 65537 - x,
        {
            proof {
                assert(0 < sy as int);
                assert(1 <= a) by (nonlinear_arith)
                    requires sy as int == a * (line as int), 0 < sy as int, 0 <= line as int;
                if bv == 0 {
                    assert(0 * (line as int) == 0) by (nonlinear_arith);
                    assert(0 * gt == 0) by (nonlinear_arith);
                    assert(y as int == sy as int);
                    assert(sy < h);
                }
            }
            if y < h {
                let (val, deg) = intensity_at(plane, x as u32, y as u32, spacing);
                let d = Dot { x: x as u32, y: y as u32, intensity: val };
                let ghost old_dots = dots@;
                let ghost old_flag = warn;
                dots.push(d);
                warn = warn || deg;
                proof {
                    assert(d.x as int == lattice_x(a, b, line as int, gt));
                    assert(d.y as int == lattice_y(a, b, line as int, gt));
                    assert(on_lattice(a, b, d.x as int, d.y as int));
                    assert(good_dot(plane, spacing as int, a, b, d));
                    lemma_push_keeps(
                        plane, spacing as int, a, b, old_dots, dots@, d, old_flag, warn,
                    );
                    lemma_contains_push(old_dots, dots@, d);
                    assert(dots@[dots@.len() - 1] == d);
                    assert(contains_point(
                        dots@,
                        lattice_x(a, b, line as int, gt),
                        lattice_y(a, b, line as int, gt),
                    ));
                    assert forall|i: int| 0 <= i < old_dots.len() implies
                        !((#[trigger] old_dots[i]).x == d.x && old_dots[i].y == d.y) by {
                        assert(old_dots[i].x as int
                            == lattice_x(a, b, keys[i].0, keys[i].1));
                        assert(old_dots[i].y as int
                            == lattice_y(a, b, keys[i].0, keys[i].1));
                        lemma_lattice_injective(
                            a, b, keys[i].0, keys[i].1, line as int, gt);
                    }
                    lemma_distinct_push(old_dots, dots@, d);
                    keys = keys.push((line as int, gt));
                    assert(keys[keys.len() - 1] == (line as int, gt));
                    if bv == 0 {
                        assert(lattice_x(a, 0, line as int, gt)
                            == lattice_x(a, b, line as int, gt));
                        assert(lattice_y(a, 0, line as int, gt)
                            == lattice_y(a, b, line as int, gt));
                        assert(contains_point(
                            dots@,
                            lattice_x(a, 0, line as int, gt),
                            lattice_y(a, 0, line as int, gt),
                        ));
                    }
                }
            }
            x = x + av;
            y = y - bv;
            proof {
                gt = gt + 1;
                assert(b * (line as int) + a * gt == (b * (line as int) + a * (gt - 1)) + a)
                    by (nonlinear_arith);
                assert(a * (line as int) - b * gt == (a * (line as int) - b * (gt - 1)) - b)
                    by (nonlinear_arith);
            }
        }

        // Walk left and down from one step before the seed, so the seed
        // itself is not emitted twice.
        let mut lx = sx - av;
        let mut ly = sy + bv;
        let ghost mut lt: int = 0;
        proof {
            assert(a * (-1) == -a) by (nonlinear_arith);
            assert(b * (-1) == -b) by (nonlinear_arith);
            assert(lx as int == lattice_x(a, b, line as int, -1));
            assert(ly as int == lattice_y(a, b, line as int, -1));
        }
        while lx > 0 && ly < h
            invariant
                lx as int == lattice_x(a, b, line as int, -(lt + 1)),
                ly as int == lattice_y(a, b, line as int, -(lt + 1)),
                0 <= lt,
                lt >= 1 ==> sy as int + b * lt < h as int,
                bv == 0 ==> lt == 0,
                sy <= ly,
                -0x40_0000_0000 <= lx as int <= 0x40_0000_0000,
                all_good(plane, spacing as int, a, b, dots@),
                flag_matches(plane, spacing as int, dots@, warn),
                bv == 0 ==> grid_rows_complete(dots@, a, w as int, h as int, line as int),
                bv == 0 ==> row_prefix_complete(dots@, a, line as int, gt),
                a >= 0 && b >= 1 ==> slant_rows_complete(
                    dots@, a, b, w as int, h as int, line as int),
                row_right_complete(dots@, a, b, line as int, h as int, gt),
                row_left_complete(dots@, a, b, line as int, w as int, lt),
                keys.len() == dots@.len(),
                forall|i: int| 0 <= i < keys.len() ==> {
                    &&& (#[trigger] dots@[i]).x as int == lattice_x(a, b, keys[i].0, keys[i].1)
                    &&& dots@[i].y as int == lattice_y(a, b, keys[i].0, keys[i].1)
                },
                forall|i: int| 0 <= i < keys.len() ==> ((#[trigger] keys[i]).0 < line as int
                    || (keys[i].0 == line as int
                        && (0 <= keys[i].1 < gt || -lt <= keys[i].1 <= -1))),
                distinct_positions(dots@),
                a <= -1 && b >= 1 && line as int >= 1 ==> back_row_complete(
                    dots@, a, b, w as int, h as int),
            decreases h + 65537 - ly,
        {
            proof {
                assert(b * (-(lt + 1)) == -(b * (lt + 1))) by (nonlinear_arith);
                if bv == 0 {
                    assert(b * (line as int) == 0) by (nonlinear_arith)
                        requires b == 0;
                    assert(a * (-(lt + 1)) == -a) by (nonlinear_arith)
                        requires lt == 0;
                    assert(false);
                }
                assert(1 <= b);
                assert(lt + 1 <= 65537) by (nonlinear_arith)
                    requires 1 <= b, 0 <= lt,
                        lt >= 1 ==> sy as int + b * lt < h as int,
                        0 <= sy as int, h as int <= 65536;
                assert(a <= -1 ==> line as int == 0) by (nonlinear_arith)
                    requires sy as int == a * (line as int), sy as int >= 0, 0 <= line as int;
            }
            if lx < w {
                let (val, deg) = intensity_at(plane, lx as u32, ly as u32, spacing);
                let d = Dot { x: lx as u32, y: ly as u32, intensity: val };
                let ghost old_dots = dots@;
                let ghost old_flag = warn;
                dots.push(d);
                warn = warn || deg;
                proof {
                    assert(d.x as int == lattice_x(a, b, line as int, -(lt + 1)));
                    assert(d.y as int == lattice_y(a, b, line as int, -(lt + 1)));
                    assert(on_lattice(a, b, d.x as int, d.y as int));
                    assert(good_dot(plane, spacing as int, a, b, d));
                    lemma_push_keeps(
                        plane, spacing as int, a, b, old_dots, dots@, d, old_flag, warn,
                    );
                    lemma_contains_push(old_dots, dots@, d);
                    assert(dots@[dots@.len() - 1] == d);
                    assert(contains_point(
                        dots@,
                        lattice_x(a, b, line as int, -(lt + 1)),
                        lattice_y(a, b, line as int, -(lt + 1)),
                    ));
                    assert forall|i: int| 0 <= i < old_dots.len() implies
                        !((#[trigger] old_dots[i]).x == d.x && old_dots[i].y == d.y) by {
                        assert(old_dots[i].x as int
                            == lattice_x(a, b, keys[i].0, keys[i].1));
                        assert(old_dots[i].y as int
                            == lattice_y(a, b, keys[i].0, keys[i].1));
                        lemma_lattice_injective(
                            a, b, keys[i].0, keys[i].1, line as int, -(lt + 1));
                    }
                    lemma_distinct_push(old_dots, dots@, d);
                    keys = keys.push((line as int, -(lt + 1)));
                    assert(keys[keys.len() - 1] == (line as int, -(lt + 1)));
                }
            }
            lx = lx - av;
            ly = ly + bv;
            proof {
                lt = lt + 1;
                assert(b * (line as int) + a * (-(lt + 1))
                    == (b * (line as int) + a * (-(lt))) - a) by (nonlinear_arith);
                assert(a * (line as int) - b * (-(lt + 1))
                    == (a * (line as int) - b * (-(lt))) + b) by (nonlinear_arith);
                assert(-0x40_0000_0000 <= b * (line as int) + a * (-(lt + 1)) <= 0x40_0000_0000)
                    by (nonlinear_arith)
                    requires -65536 <= a <= 65536, 0 <= b <= 65536,
                        0 <= line as int <= 262146, 0 <= lt <= 65537;
                assert(b * (-(lt + 1)) == -(b * (lt + 1))) by (nonlinear_arith);
            }
        }

        // For an axis-aligned screen, the row just walked is complete: the
        // right walk stopped only once its x coordinate passed the image.
        proof {
            if bv == 0 {
                assert(0 * (line as int) == 0) by (nonlinear_arith);
                assert(0 * gt == 0) by (nonlinear_arith);
                assert(x as int == a * gt);
                assert(y as int == sy as int);
                assert forall|l: int, t: int|
                    1 <= l < (line as int) + 1 && 0 <= t
                        && #[trigger] lattice_x(a, 0, l, t) < w as int
                        && lattice_y(a, 0, l, t) < h as int implies
                    contains_point(dots@, lattice_x(a, 0, l, t), lattice_y(a, 0, l, t)) by {
                    if l == line as int {
                        assert(0 * l == 0) by (nonlinear_arith);
                        assert(0 * t == 0) by (nonlinear_arith);
                        assert(lattice_x(a, 0, l, t) == a * t);
                        assert(1 <= sy as int) by (nonlinear_arith)
                            requires 1 <= a, 1 <= line as int, sy as int == a * (line as int);
                        assert(x >= w);
                        assert(t < gt) by (nonlinear_arith)
                            requires 1 <= a, a * t < w as int, w as int <= a * gt, 0 <= t;
                    }
                }
                assert(grid_rows_complete(dots@, a, w as int, h as int, (line as int) + 1));
            }
            if av >= 0 && bv >= 1 {
                assert forall|t: int|
                    0 <= #[trigger] lattice_x(a, b, line as int, t) < w as int
                        && 0 < lattice_y(a, b, line as int, t) < h as int
                        && (t < 0 ==> 1 <= lattice_x(a, b, line as int, t)) implies
                    contains_point(
                        dots@,
                        lattice_x(a, b, line as int, t),
                        lattice_y(a, b, line as int, t),
                    ) by {
                    let xx = lattice_x(a, b, line as int, t);
                    let yy = lattice_y(a, b, line as int, t);
                    if t >= 0 {
                        if t >= gt {
                            assert(xx >= x as int) by (nonlinear_arith)
                                requires
                                    xx == b * (line as int) + a * t,
                                    x as int == b * (line as int) + a * gt,
                                    0 <= a,
                                    gt <= t;
                            assert(yy <= y as int) by (nonlinear_arith)
                                requires
                                    yy == a * (line as int) - b * t,
                                    y as int == a * (line as int) - b * gt,
                                    0 <= b,
                                    gt <= t;
                            assert(false);
                        } else {
                            assert(lattice_y(a, b, line as int, t) < h as int);
                        }
                    } else {
                        let j = -t - 1;
                        assert(t == -(j + 1));
                        assert(lattice_x(a, b, line as int, -(j + 1)) == xx);
                        assert(lattice_y(a, b, line as int, -(j + 1)) == yy);
                        if j >= lt {
                            assert(xx <= lx as int) by (nonlinear_arith)
                                requires
                                    xx == b * (line as int) + a * t,
                                    lx as int == b * (line as int) + a * (-(lt + 1)),
                                    0 <= a,
                                    t <= -(lt + 1);
                            assert(yy >= ly as int) by (nonlinear_arith)
                                requires
                                    yy == a * (line as int) - b * t,
                                    ly as int == a * (line as int) - b * (-(lt + 1)),
                                    0 <= b,
                                    t <= -(lt + 1);
                            assert(false);
                        }
                    }
                }
                assert(slant_rows_complete(dots@, a, b, w as int, h as int, (line as int) + 1));
            }
            if av <= -1 && bv >= 1 {
                assert(line as int == 0) by (nonlinear_arith)
                    requires a <= -1, 0 <= line as int, sy as int == a * (line as int),
                        sy as int >= 0;
                assert(lx as int >= 1) by (nonlinear_arith)
                    requires a <= -1, 0 <= lt, line as int == 0,
                        lx as int == b * (line as int) + a * (-(lt + 1));
                assert(ly >= h);
                assert forall|t: int|
                    1 <= #[trigger] lattice_x(a, b, 0, t) < w as int
                        && 0 < lattice_y(a, b, 0, t) < h as int implies
                    contains_point(dots@, lattice_x(a, b, 0, t), lattice_y(a, b, 0, t)) by {
                    let xx = lattice_x(a, b, 0, t);
                    let yy = lattice_y(a, b, 0, t);
                    if t >= 0 {
                        assert(yy <= 0) by (nonlinear_arith)
                            requires yy == a * 0 - b * t, 1 <= b, 0 <= t;
                        assert(false);
                    } else {
                        let j = -t - 1;
                        assert(t == -(j + 1));
                        assert(lattice_x(a, b, line as int, -(j + 1)) == xx);
                        assert(lattice_y(a, b, line as int, -(j + 1)) == yy);
                        if j >= lt {
                            assert(yy >= ly as int) by (nonlinear_arith)
                                requires
                                    yy == a * (line as int) - b * t,
                                    ly as int == a * (line as int) - b * (-(lt + 1)),
                                    1 <= b,
                                    t <= -(lt + 1);
                            assert(false);
                        }
                    }
                }
                assert(back_row_complete(dots@, a, b, w as int, h as int));
            }
        }

        // Advance to the next row and stop once the new seed has passed
        // twice the image width, left the image upward, or — for an
        // axis-aligned screen — left it downward.
        line = line + 1;
        proof {
            assert(0 <= bv as int * (line as int) <= 0x10_0000_0000) by (nonlinear_arith)
                requires 0 <= bv as int <= 65536, 0 <= line as int <= 262146;
            assert(-0x10_0000_0000 <= av as int * (line as int) <= 0x10_0000_0000)
                by (nonlinear_arith)
                requires -65536 <= av as int <= 65536, 0 <= line as int <= 262146;
        }
        sx = bv * line;
        sy = av * line;
        go = !(sx > 2 * w - 1 || sy < 0 || (bv == 0 && sy >= h));
    }
    // For an axis-aligned screen the loop stopped because the seed left the
    // image downward, so every remaining row lies below the image and the
    // emitted rows make up the whole on-image grid.
    proof {
        if bv == 0 {
            assert(0 * (line as int) == 0) by (nonlinear_arith);
            assert(sy as int >= 0) by (nonlinear_arith)
                requires 1 <= a, 0 <= line as int, sy as int == a * (line as int);
            assert(sx as int == 0);
            assert(sy >= h);
            assert forall|l: int, t: int|
                1 <= l && 0 <= t
                    && #[trigger] lattice_x(a, 0, l, t) < plane.width as int
                    && lattice_y(a, 0, l, t) < plane.height as int implies
                contains_point(dots@, lattice_x(a, 0, l, t), lattice_y(a, 0, l, t)) by {
                assert(0 * l == 0) by (nonlinear_arith);
                assert(0 * t == 0) by (nonlinear_arith);
                assert(lattice_y(a, 0, l, t) == a * l);
                if l >= line as int {
                    assert(a * l >= a * (line as int)) by (nonlinear_arith)
                        requires 1 <= a, l >= line as int;
                }
            }
            assert(axis_grid_complete(dots@, a, plane.width as int, plane.height as int));
        }
        if av >= 0 && bv >= 1 {
            assert(sy as int >= 0) by (nonlinear_arith)
                requires 0 <= a, 0 <= line as int, sy as int == a * (line as int);
            assert(line >= 1);
            assert(sx > 2 * w - 1);
            assert forall|l: int, t: int|
                0 <= l && (l == 0 || b * l <= 2 * (w as int) - 1)
                    && 0 <= #[trigger] lattice_x(a, b, l, t) < w as int
                    && 0 < lattice_y(a, b, l, t) < h as int
                    && (t < 0 ==> 1 <= lattice_x(a, b, l, t)) implies
                contains_point(dots@, lattice_x(a, b, l, t), lattice_y(a, b, l, t)) by {
                if l >= line as int {
                    assert(b * l >= b * (line as int)) by (nonlinear_arith)
                        requires 1 <= b, line as int <= l;
                }
            }
            assert(slant_grid_complete(dots@, a, b, plane.width as int, plane.height as int));
        }
        if av <= -1 && bv >= 1 {
            assert(line >= 1);
            assert(back_row_complete(dots@, a, b, plane.width as int, plane.height as int));
        }
    }
    Ok(DotList { dots, sampling_degenerate: warn })
}

} // verus!
