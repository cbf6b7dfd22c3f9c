//! Geometry, output layout and transforms.

pub mod args;
pub mod geometry;
pub mod layout;
pub mod list;
pub mod region;
pub mod transform;
