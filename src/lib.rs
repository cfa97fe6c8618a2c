// A software rasterizer's integer core: mesh connectivity and a mesh-file
// line reader, packed colors, a seeded star field, fixed-point triangle
// coverage, Bresenham lines, and a depth-tested color buffer.
use vstd::prelude::*;

pub mod color;
pub mod coverage;
pub mod lcg;
pub mod mesh;
pub mod obj;
pub mod raster;
pub mod sky;

verus! {

} // verus!
