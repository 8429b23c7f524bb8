//! A small parametric sketch/solid kernel.
//!
//! Geometry is carried in fixed-point coordinates: one model unit is
//! `SCALE` raw units, so the kernel's tolerance of 1e-6 model units is
//! exactly one raw unit.  All geometric predicates (coplanarity, edge
//! crossing, ear tests) are decided with exact integer arithmetic.

pub mod num;
pub mod dsc;
pub mod polygon;
pub mod sketch;
pub mod app;
