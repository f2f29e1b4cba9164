//! Per-channel coverage planes, built once from the source image and
//! read-only afterwards.

use vstd::prelude::*;
use crate::color::{COVERAGE_ONE, Rgb, cmyk_of, convert_rgb_to_cmyk};

verus! {

/// Largest accepted edge length of an image, a machine limit that keeps all
/// index and sum arithmetic of the pipeline inside 64-bit integers.
pub const MAX_EDGE: usize = 65536;

/// A width x height array of fixed-point coverage values in
/// [0, COVERAGE_ONE], row-major.
#[derive(Debug)]
pub struct Plane {
    pub width: usize,
    pub height: usize,
    pub data: Vec<u32>,
}

impl Plane {
    /// Non-trivial bounded dimensions, a full backing array, and every
    /// value a valid coverage fraction.
    pub open spec fn wf(&self) -> bool {
        &&& 1 <= self.width <= MAX_EDGE
        &&& 1 <= self.height <= MAX_EDGE
        &&& self.data@.len() == self.width * self.height
        &&& forall|i: int| 0 <= i < self.data@.len() ==> self.data@[i] <= COVERAGE_ONE
    }

    /// The coverage value at column `x`, row `y`.
    pub open spec fn at(&self, x: int, y: int) -> int {
        self.data@[y * self.width + x] as int
    }

    /// Every cell holds the constant value `v`.
    pub open spec fn uniform(&self, v: int) -> bool {
        forall|i: int| 0 <= i < self.data@.len() ==> self.data@[i] == v
    }
}

/// The four coverage planes separated from one image.
#[derive(Debug)]
pub struct CmykPlanes {
    pub c: Plane,
    pub m: Plane,
    pub y: Plane,
    pub k: Plane,
}

impl CmykPlanes {
    pub open spec fn wf(&self, width: int, height: int) -> bool {
        &&& self.c.wf() && self.c.width == width && self.c.height == height
        &&& self.m.wf() && self.m.width == width && self.m.height == height
        &&& self.y.wf() && self.y.width == width && self.y.height == height
        &&& self.k.wf() && self.k.width == width && self.k.height == height
    }

    /// Cell `i` of every plane is the corresponding coverage of pixel `i`.
    pub open spec fn separates(&self, pixels: Seq<Rgb>) -> bool {
        forall|i: int| 0 <= i < pixels.len() ==> {
            &&& self.c.data@[i] == #[trigger] cmyk_of(pixels[i]).c
            &&& self.m.data@[i] == cmyk_of(pixels[i]).m
            &&& self.y.data@[i] == cmyk_of(pixels[i]).y
            &&& self.k.data@[i] == cmyk_of(pixels[i]).k
        }
    }
}

/// Separate an RGB raster (row-major, `width * height` pixels) into the four
/// ink coverage planes.
#[verifier::loop_isolation(false)]
pub fn separate(pixels: &Vec<Rgb>, width: usize, height: usize) -> (planes: CmykPlanes)
    requires
        1 <= width <= MAX_EDGE,
        1 <= height <= MAX_EDGE,
        pixels@.len() == width * height,
    ensures
        planes.wf(width as int, height as int),
        planes.separates(pixels@),
{
    let n = pixels.len();
    let mut cb: Vec<u32> = Vec::new();
    let mut mb: Vec<u32> = Vec::new();
    let mut yb: Vec<u32> = Vec::new();
    let mut kb: Vec<u32> = Vec::new();
    let mut i: usize = 0;
    while i < n
        invariant
            i <= n,
            cb@.len() == i && mb@.len() == i && yb@.len() == i && kb@.len() == i,
            forall|j: int| 0 <= j < i ==> {
                &&& cb@[j] == #[trigger] cmyk_of(pixels@[j]).c
                &&& mb@[j] == cmyk_of(pixels@[j]).m
                &&& yb@[j] == cmyk_of(pixels@[j]).y
                &&& kb@[j] == cmyk_of(pixels@[j]).k
            },
            forall|j: int| 0 <= j < i ==> cb@[j] <= COVERAGE_ONE && mb@[j] <= COVERAGE_ONE
                && yb@[j] <= COVERAGE_ONE && kb@[j] <= COVERAGE_ONE,
        decreases n - i,
    {
        let q = convert_rgb_to_cmyk(&pixels[i]);
        cb.push(q.c);
        mb.push(q.m);
        yb.push(q.y);
        kb.push(q.k);
        proof {
            assert(q == cmyk_of(pixels@[i as int]));
            assert(cb@[i as int] == cmyk_of(pixels@[i as int]).c);
            assert(mb@[i as int] == cmyk_of(pixels@[i as int]).m);
            assert(yb@[i as int] == cmyk_of(pixels@[i as int]).y);
            assert(kb@[i as int] == cmyk_of(pixels@[i as int]).k);
        }
        i += 1;
    }
    CmykPlanes {
        c: Plane { width, height, data: cb },
        m: Plane { width, height, data: mb },
        y: Plane { width, height, data: yb },
        k: Plane { width, height, data: kb },
    }
}

} // verus!
