//! A small software 3D-to-terminal rendering pipeline.
//!
//! The library loads a triangle mesh from a line-oriented text model format
//! (vertices, normals, and triangle or quad faces), projects the mesh from 3D
//! space onto a 2D viewing plane with a pinhole-camera model, and computes a
//! per-triangle flat-shading intensity from a fixed light direction.
//!
//! All geometry is carried in [`fixed::Fixed`], a signed fixed-point scalar
//! with six decimal places, so every arithmetic step has an exact meaning.

pub mod fixed;
pub mod geometry;
pub mod numeral;
pub mod mesh;
pub mod project;
