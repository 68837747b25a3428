//! Curve flattening: the choice of approximation algorithm.
use vstd::prelude::*;

verus! {

/// How curves are flattened into line segments: by incremental stepping
/// or by recursive subdivision.
#[derive(Debug, Clone, Copy, PartialEq, Eq, Structural)]
pub enum CurveApproximationMethod {
    Inc,
    Div,
}

} // verus!
