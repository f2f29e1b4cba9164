//! Render configuration and the error kinds of the pipeline.

use vstd::prelude::*;
use crate::color::Rgb;

verus! {

/// The error kinds of the pipeline.
///
/// `InvalidInput` rejects a zero-area image or an out-of-range configuration
/// before any processing begins. `GeometryDegenerate` reports a screen
/// angle / spacing combination whose lattice walk cannot make progress
/// toward its stopping conditions; the generator fails fast with it instead
/// of looping forever.
#[derive(Clone, Copy, Debug, PartialEq, Eq, Structural)]
pub enum HalftoneError {
    InvalidInput,
    GeometryDegenerate,
}

/// The four ink channels.
#[derive(Clone, Copy, Debug, PartialEq, Eq, Structural)]
pub enum Channel {
    Cyan,
    Magenta,
    Yellow,
    Black,
}

/// How a dot blends over the canvas content below it.
#[derive(Clone, Copy, Debug, PartialEq, Eq, Structural)]
pub enum BlendMode {
    /// Later circles fully replace the pixels they cover.
    Opaque,
    /// Each ink draws with a fixed partial opacity and composites over the
    /// existing canvas content, approximating translucent ink stacking.
    Alpha,
}

/// The order in which the four channel layers are painted, first to last.
#[derive(Clone, Copy, Debug, PartialEq, Eq, Structural)]
pub struct StackingOrder {
    pub first: Channel,
    pub second: Channel,
    pub third: Channel,
    pub fourth: Channel,
}

/// The configuration surface of one render.
#[derive(Clone, Copy, Debug)]
pub struct Config {
    /// Pixel distance between lattice points, shared by all channels.
    pub spacing: u32,
    /// Screen angle of each channel, in degrees.
    pub angle_cyan: u32,
    pub angle_magenta: u32,
    pub angle_yellow: u32,
    pub angle_black: u32,
    /// Dot radius is spacing * intensity, scaled by radius_num / radius_den.
    pub radius_num: u32,
    pub radius_den: u32,
    pub blend: BlendMode,
    /// Ink opacity out of 255, used by the alpha blend mode.
    pub opacity: u8,
    /// The color the canvas is filled with before any ink is painted.
    pub background: Rgb,
    pub order: StackingOrder,
}

impl Config {
    /// The validated ranges of the configuration: spacing within the
    /// supported 4..=200 window, and a radius scale with a positive
    /// denominator and a ratio of at most 4, which keeps every radius the
    /// compositor can compute within its supported range.
    pub open spec fn valid(self) -> bool {
        &&& 4 <= self.spacing <= 200
        &&& 1 <= self.radius_den <= 1000
        &&& self.radius_num <= 4 * self.radius_den
    }

    /// Whether the ranges above hold, checked at run time.
    pub fn check(&self) -> (ok: bool)
        ensures
            ok == self.valid(),
    {
        4 <= self.spacing && self.spacing <= 200
            && 1 <= self.radius_den && self.radius_den <= 1000
            && self.radius_num <= 4 * self.radius_den
    }
}

impl Default for Config {
    /// The canonical configuration: the classic screen angles
    /// {cyan 15, magenta 75, yellow 90, black 45}, dot radius of half the
    /// spacing at full coverage, translucent overprint over a white
    /// background, painted black first, then cyan, magenta, yellow.
    fn default() -> (c: Config)
        ensures
            c.valid(),
            c.spacing == 16,
            c.angle_cyan == 15 && c.angle_magenta == 75,
            c.angle_yellow == 90 && c.angle_black == 45,
            c.radius_num == 1 && c.radius_den == 2,
            c.blend == BlendMode::Alpha && c.opacity == 150,
            c.background == (Rgb { r: 255, g: 255, b: 255 }),
            c.order == (StackingOrder {
                first: Channel::Black,
                second: Channel::Cyan,
                third: Channel::Magenta,
                fourth: Channel::Yellow,
            }),
    {
        Config {
            spacing: 16,
            angle_cyan: 15,
            angle_magenta: 75,
            angle_yellow: 90,
            angle_black: 45,
            radius_num: 1,
            radius_den: 2,
            blend: BlendMode::Alpha,
            opacity: 150,
            background: Rgb { r: 255, g: 255, b: 255 },
            order: StackingOrder {
                first: Channel::Black,
                second: Channel::Cyan,
                third: Channel::Magenta,
                fourth: Channel::Yellow,
            },
        }
    }
}

} // verus!
