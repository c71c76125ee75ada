//! Compiles a vector scene graph (groups, paths, solid fills, gradients,
//! tiling patterns) into the object model of a page-description document:
//! content-stream operators plus the auxiliary objects they reference
//! (shading dictionaries, interpolation functions, tiling patterns,
//! transparency soft masks, graphics states).
//!
//! All coordinates, offsets and opacities are fixed-point numbers with
//! [`fixed::SCALE`] units to one; serialization of the produced object
//! graph into bytes is left to the surrounding code.

pub mod context;
pub mod deferrer;
pub mod frame;
pub mod fixed;
pub mod geom;
pub mod group;
pub mod gradient;
pub mod object;
pub mod path;
pub mod scene;
