//! A retained-mode display list for a browser paint pipeline.
//!
//! Layout hands this crate a tree of stacking contexts and an unordered pool
//! of display items; assembly flattens both into one paint-ordered command
//! stream bracketed by push/pop markers (CSS 2.1 Appendix E order). The flat
//! list is immutable afterwards and supports replay against a painting
//! backend, reverse-order hit testing, partial slicing for tiled painting,
//! and a byte codec for shipping the list to another process.
//!
//! All geometry is integer app units (60 per CSS pixel); transforms are kept
//! in 16.16 fixed point so every computation here is exact integer
//! arithmetic.

use vstd::prelude::*;

pub mod clip;
pub mod codec;
pub mod geometry;
pub mod hit_test;
pub mod ids;
pub mod item;
pub mod laws;
pub mod list;
pub mod paint;
pub mod sort;
pub mod stacking;
pub mod style;
pub mod transform;
pub mod traversal;

verus! {

/// The factor that blur radii are multiplied by when upstream code inflates
/// the boundaries of display items that involve a blur, so that the painted
/// ink is not culled.
pub const BLUR_INFLATION_FACTOR: i32 = 3;

} // verus!
