//! Structural core of a sub-trit precision toolkit.
//!
//! A microtrit is a trit (-1, 0, +1) refined with fractional subdivisions.
//! This crate holds the parts of that toolkit whose behaviour does not depend
//! on floating-point arithmetic: the high-resolution grid of cells, the
//! precision tiers, the segment choice of multi-point path interpolation and
//! the element-wise shape of smooth transitions. Each is stated over a
//! mathematical model and proved; the grid's laws (what a read gives back
//! after a write, what a fresh grid holds) are proof functions of `grid`.

pub mod grid;
pub mod tier;
pub mod transition;

pub use grid::MicrotritGrid;
pub use tier::SubTritTier;
pub use transition::{path_segment, smooth_transition};
