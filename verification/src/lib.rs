//! Grid placement and selection engine of a modular-synth rack editor.
//!
//! Plates ("plugins") are placed on a grid of fixed-width columns and
//! fixed-height rails, selected one at a time or cumulatively, removed, and
//! projected to a flat state that can be stored and loaded again.
//!
//! Coordinates are fixed-point integers: one unit is a hundredth of a
//! point, so every grid constant and every placement rule is exact.

pub mod grid;
pub mod models;
