//! Value types for the pipeline: 3D and 2D vectors, triangles, and colors.
//!
//! Every type has plain value semantics: a triangle owns its own copies of
//! the vectors it was built from, and nothing is shared between triangles.

use vstd::prelude::*;
use crate::fixed::Fixed;

verus! {

/// A point or direction in 3D space.
#[derive(Clone, Copy, Debug, PartialEq, Eq, Structural)]
pub struct Vector3 {
    pub x: Fixed,
    pub y: Fixed,
    pub z: Fixed,
}

/// A point on the 2D viewing plane, not yet mapped to pixel coordinates.
#[derive(Clone, Copy, Debug, PartialEq, Eq, Structural)]
pub struct Vector2 {
    pub x: Fixed,
    pub y: Fixed,
}

/// A triangle in 3D space: three vertex positions and one flat normal.
/// The normal is taken as supplied by the model text and is not renormalized.
#[derive(Clone, Copy, Debug, PartialEq, Eq, Structural)]
pub struct Triangle {
    pub a: Vector3,
    pub b: Vector3,
    pub c: Vector3,
    pub n: Vector3,
}

/// An 8-bit-per-channel RGB color.
#[derive(Clone, Copy, Debug, PartialEq, Eq, Structural)]
pub struct Color {
    pub r: u8,
    pub g: u8,
    pub b: u8,
}

/// A projected triangle: three points on the viewing plane and one flat
/// shading color, the pipeline's final artifact.
#[derive(Clone, Copy, Debug, PartialEq, Eq, Structural)]
pub struct Triangle2D {
    pub a: Vector2,
    pub b: Vector2,
    pub c: Vector2,
    pub col: Color,
}

impl Vector3 {
    /// Builds a vector from raw unit counts.
    pub fn from_units(x: i64, y: i64, z: i64) -> (r: Vector3)
        ensures
            r.x.units == x,
            r.y.units == y,
            r.z.units == z,
    {
        Vector3 { x: Fixed { units: x }, y: Fixed { units: y }, z: Fixed { units: z } }
    }
}

} // verus!
