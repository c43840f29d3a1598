//! The floating-point part of the work, which the host lends to the stages.

use vstd::prelude::*;
use crate::scalar::{Scalar, Vector};
use crate::shapes::Convex;

verus! {

/// The operations on numbers and shapes that the collision stage needs done
/// and does not do itself. Nothing is assumed of what they return: whatever
/// the stage promises holds for every implementation.
pub trait Geometry {
    /// The shortest translation that moves the shape `mover` out of the
    /// shape `wall`, or a zero vector where the two do not overlap.
    fn resolve(&self, wall: &Convex, mover: &Convex) -> Vector;

    /// `a + b`.
    fn sum(&self, a: Scalar, b: Scalar) -> Scalar;

    /// `a * b`.
    fn product(&self, a: Scalar, b: Scalar) -> Scalar;

    /// The square root of `a`.
    fn square_root(&self, a: Scalar) -> Scalar;

    /// `a / b`.
    fn quotient(&self, a: Scalar, b: Scalar) -> Scalar;
}

} // verus!
