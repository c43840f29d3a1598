//! What an entity can carry: a collision shape, the marker of a moving
//! body with this frame's contacts, and the marker that opts out.

use vstd::prelude::*;
use crate::scalar::{Number, Scalar, Vector};
use crate::shapes::{Convex, ConvexView};

verus! {

/// A shape for collision detection, attached to an entity.
#[derive(Debug)]
pub struct Sepax {
    pub convex: Convex,
}

impl View for Sepax {
    type V = ConvexView;

    open spec fn view(&self) -> ConvexView {
        self.convex@
    }
}

impl Clone for Sepax {
    fn clone(&self) -> (r: Sepax)
        ensures
            r@ == self@,
    {
        Sepax { convex: self.convex.clone() }
    }
}

impl Sepax {
    /// The shape, to read its position whatever its kind.
    pub fn shape(&self) -> (r: &Convex)
        ensures
            *r == self.convex,
    {
        &self.convex
    }

    /// The shape, to move it whatever its kind.
    pub fn shape_mut(&mut self) -> (r: &mut Convex)
        ensures
            *r == old(self).convex,
            *final(self) == (Sepax { convex: *final(r) }),
    {
        &mut self.convex
    }
}

/// Marks an entity as a moving body that is pushed out of the immovable
/// ones. `axes` holds one unit vector for each obstacle that pushed the
/// body in the last collision stage, pointing away from that obstacle: a
/// body that has landed on flat ground holds (0, 1).
#[derive(Debug)]
pub struct Movable {
    pub axes: Vec<Vector>,
}

impl View for Movable {
    type V = Seq<Vector>;

    open spec fn view(&self) -> Seq<Vector> {
        self.axes@
    }
}

/// Some contact pushed towards positive x: its x exceeds the machine epsilon.
pub open spec fn pushed_from_left(contacts: Seq<Vector>) -> bool {
    exists|i: int| 0 <= i < contacts.len() && (#[trigger] contacts[i]).0@.gt(Number::epsilon())
}

/// Some contact pushed towards negative x: its x is below minus the machine epsilon.
pub open spec fn pushed_from_right(contacts: Seq<Vector>) -> bool {
    exists|i: int|
        0 <= i < contacts.len() && (#[trigger] contacts[i]).0@.lt(Number::epsilon().neg())
}

/// Some contact pushed towards negative y: its y is below minus the machine epsilon.
pub open spec fn pushed_from_above(contacts: Seq<Vector>) -> bool {
    exists|i: int|
        0 <= i < contacts.len() && (#[trigger] contacts[i]).1@.lt(Number::epsilon().neg())
}

/// Some contact pushed towards positive y: its y exceeds the machine epsilon.
pub open spec fn pushed_from_below(contacts: Seq<Vector>) -> bool {
    exists|i: int| 0 <= i < contacts.len() && (#[trigger] contacts[i]).1@.gt(Number::epsilon())
}

impl Movable {
    /// Whether the body hit something to its left.
    pub fn left(&self) -> (r: bool)
        ensures
            r == pushed_from_left(self@),
    {
        let epsilon = Scalar::epsilon();
        let mut i: usize = 0;
        while i < self.axes.len()
            invariant
                i <= self.axes.len(),
                epsilon@ == Number::epsilon(),
                forall|j: int| 0 <= j < i ==> !(#[trigger] self@[j]).0@.gt(Number::epsilon()),
            decreases self.axes.len() - i,
        {
            if self.axes[i].0.gt(epsilon) {
                return true;
            }
            i += 1;
        }
        false
    }

    /// Whether the body hit something to its right.
    pub fn right(&self) -> (r: bool)
        ensures
            r == pushed_from_right(self@),
    {
        let bound = Scalar::epsilon().neg();
        let mut i: usize = 0;
        while i < self.axes.len()
            invariant
                i <= self.axes.len(),
                bound@ == Number::epsilon().neg(),
                forall|j: int| 0 <= j < i ==> !(#[trigger] self@[j]).0@.lt(Number::epsilon().neg()),
            decreases self.axes.len() - i,
        {
            if self.axes[i].0.lt(bound) {
                return true;
            }
            i += 1;
        }
        false
    }

    /// Whether the body hit something above it.
    pub fn above(&self) -> (r: bool)
        ensures
            r == pushed_from_above(self@),
    {
        let bound = Scalar::epsilon().neg();
        let mut i: usize = 0;
        while i < self.axes.len()
            invariant
                i <= self.axes.len(),
                bound@ == Number::epsilon().neg(),
                forall|j: int| 0 <= j < i ==> !(#[trigger] self@[j]).1@.lt(Number::epsilon().neg()),
            decreases self.axes.len() - i,
        {
            if self.axes[i].1.lt(bound) {
                return true;
            }
            i += 1;
        }
        false
    }

    /// Whether the body hit something below it.
    pub fn below(&self) -> (r: bool)
        ensures
            r == pushed_from_below(self@),
    {
        let epsilon = Scalar::epsilon();
        let mut i: usize = 0;
        while i < self.axes.len()
            invariant
                i <= self.axes.len(),
                epsilon@ == Number::epsilon(),
                forall|j: int| 0 <= j < i ==> !(#[trigger] self@[j]).1@.gt(Number::epsilon()),
            decreases self.axes.len() - i,
        {
            if self.axes[i].1.gt(epsilon) {
                return true;
            }
            i += 1;
        }
        false
    }
}

/// Marks an entity that the collision stage leaves alone, as a moving body
/// and as an obstacle. Its shape can still be tested by other means.
#[derive(Clone, Copy, Debug)]
pub struct NoCollision;

} // verus!
