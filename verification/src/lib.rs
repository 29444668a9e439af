//! Renders three-dimensional triangle meshes as text, packing a two by four
//! grid of dots into each Braille glyph and tracking a depth per glyph.
//!
//! A mesh comes from a binary file of triangles ([`stl`]) or from a module
//! of a small scene language ([`dsl`]). A scene ([`scene`]) is turned, scaled
//! and drawn on a canvas ([`drawille`]), which hands out its cells as lines of
//! text. A line stepper ([`drawille::line`]) yields the points of every edge
//! and of every stroke that fills a triangle.
//!
//! All coordinates are fixed-point numbers (see [`fixed`]), so every
//! operation is exact integer arithmetic with a stated rounding rule: the
//! contracts of the library say which dots are lit and at which depth, bit
//! for bit.

mod cast;
pub mod controls;
pub mod drawille;
pub mod dsl;
pub mod fixed;
pub mod scene;
pub mod stl;
pub mod text;
pub mod vector3;

pub use crate::vector3::Vector3;
