//! Diagram layout: positional algorithms for PseudoScript's projections,
//! independent of how a diagram is produced or drawn.
//!
//! A shared geometry/text core ([`geom`], [`text`]) plus one module per
//! diagram kind. Each engine turns a structural input into absolute
//! coordinates a consumer renders verbatim.

pub mod geom;
pub mod text;
pub mod diagram;
pub mod placed;
pub mod sequence;

use vstd::prelude::*;

verus! {

/// The contract every projection's layout engine implements: turn a
/// structural `Input` into a positioned `Output`, parameterised by
/// projection-specific `Metrics`.
pub trait Projection {
    /// The structural diagram description.
    type Input;
    /// Tunable spacing/text metrics for this projection.
    type Metrics;
    /// The positioned result.
    type Output;

    /// The inputs the engine lays out without leaving `i32` coordinates.
    spec fn accepts(input: &Self::Input, metrics: &Self::Metrics) -> bool;

    /// Lay `input` out under `metrics`.
    fn layout(input: &Self::Input, metrics: &Self::Metrics) -> Self::Output
        requires
            Self::accepts(input, metrics),
    ;
}

} // verus!
