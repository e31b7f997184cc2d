//! Planar stick-arm control library in fixed-point arithmetic.
//!
//! Coordinates, angles and network parameters are carried as `i64` values
//! scaled by `fixed::SCALE` (one unit is one millionth). All algorithms are
//! exact integer computations, so every result is pinned down by its contract.

use vstd::prelude::*;

pub mod ceo;
pub mod chain;
pub mod fcn;
pub mod fixed;
pub mod plan;

verus! {

/// A fatal configuration fault: surfaced immediately, never retried.
#[derive(Clone, Copy, PartialEq, Eq, Structural, Debug)]
pub enum ConfigError {
    /// Two sequences that must have equal length do not.
    DimensionMismatch,
    /// The link count is zero or exceeds `fixed::N_MAX`.
    LinkCount,
    /// A link length is not positive or exceeds `fixed::L_MAX`.
    LinkLength,
    /// A joint clamp is inverted or outside the representable angle range.
    ClampRange,
    /// The origin lies outside the representable region.
    OriginRange,
    /// A goal-region corner lies outside the goal window, or the corners
    /// are inverted.
    GoalRange,
    /// A layer size is zero or exceeds the supported width, or a network
    /// has fewer than two layer descriptors.
    LayerSize,
    /// A parameter vector's length does not match the declared layers.
    ParamLen,
    /// The batch size and elite fraction yield no elite candidate.
    EliteCount,
    /// A rate or scale lies outside its permitted range.
    RateRange,
}

} // verus!
