//! An iterative numerical-optimization toolkit built on exact rational
//! arithmetic: fixed-dimension vector and matrix algebra, a backtracking
//! line-search descent engine with pluggable direction strategies, a
//! conjugate-gradient solver for symmetric positive-definite systems, and a
//! call-count tracer.

use vstd::prelude::*;

pub mod cg;
pub mod matrix;
pub mod optimizer;
pub mod rational;
pub mod rosen;
pub mod spatial_vec;
pub mod tracer;

verus! {

/// A fatal numerical condition, surfaced to the caller instead of being
/// propagated silently through later iterations.
#[derive(Clone, Copy, Debug, PartialEq, Eq, Structural)]
pub enum SolveError {
    /// An exact intermediate result left the machine word range.
    Overflow,
    /// The Hessian determinant is zero, so no Newton direction exists.
    SingularHessian,
    /// A step-length denominator is zero: the search direction carries no
    /// curvature (or the residual already vanished).
    ZeroCurvature,
    /// The backtracking line search contracted its step the permitted number
    /// of times without satisfying the sufficient-decrease condition.
    StepsExhausted,
}

} // verus!
