//! The five kinds of convex shape and what they have in common: a position.

use vstd::prelude::*;
use crate::scalar::{Scalar, Vector};

verus! {

/// A convex polygon: its vertices are given relative to its position.
#[derive(Debug)]
pub struct Polygon {
    pub position: Vector,
    pub vertices: Vec<Vector>,
}

/// A circle around its position.
#[derive(Clone, Copy, Debug)]
pub struct Circle {
    pub position: Vector,
    pub radius: Scalar,
}

/// An axis-aligned box that extends from its position by its width and height.
#[derive(Clone, Copy, Debug)]
pub struct AABB {
    pub position: Vector,
    pub width: Scalar,
    pub height: Scalar,
}

/// A parallelogram spanned by `u` and `v` from its position.
#[derive(Clone, Copy, Debug)]
pub struct Parallelogram {
    pub position: Vector,
    pub u: Vector,
    pub v: Vector,
}

/// A capsule: a box centred on its position that reaches `arm` to either
/// side, capped by half circles of the given radius.
#[derive(Clone, Copy, Debug)]
pub struct Capsule {
    pub position: Vector,
    pub arm: Vector,
    pub radius: Scalar,
}

/// A convex shape of one of the five kinds.
#[derive(Debug)]
pub enum Convex {
    Polygon(Polygon),
    Circle(Circle),
    AABB(AABB),
    Parallelogram(Parallelogram),
    Capsule(Capsule),
}

/// A polygon as a mathematical value.
pub struct PolygonView {
    pub position: Vector,
    pub vertices: Seq<Vector>,
}

/// A shape as a mathematical value.
pub enum ConvexView {
    Polygon(PolygonView),
    Circle(Circle),
    AABB(AABB),
    Parallelogram(Parallelogram),
    Capsule(Capsule),
}

impl View for Polygon {
    type V = PolygonView;

    open spec fn view(&self) -> PolygonView {
        PolygonView { position: self.position, vertices: self.vertices@ }
    }
}

impl View for Convex {
    type V = ConvexView;

    open spec fn view(&self) -> ConvexView {
        match *self {
            Convex::Polygon(polygon) => ConvexView::Polygon(polygon@),
            Convex::Circle(circle) => ConvexView::Circle(circle),
            Convex::AABB(aabb) => ConvexView::AABB(aabb),
            Convex::Parallelogram(gram) => ConvexView::Parallelogram(gram),
            Convex::Capsule(capsule) => ConvexView::Capsule(capsule),
        }
    }
}

impl ConvexView {
    /// Where the shape is, whatever its kind.
    pub open spec fn position(self) -> Vector {
        match self {
            ConvexView::Polygon(polygon) => polygon.position,
            ConvexView::Circle(circle) => circle.position,
            ConvexView::AABB(aabb) => aabb.position,
            ConvexView::Parallelogram(gram) => gram.position,
            ConvexView::Capsule(capsule) => capsule.position,
        }
    }

    /// The same shape at another place: its kind and its silhouette stay.
    pub open spec fn with_position(self, position: Vector) -> ConvexView {
        match self {
            ConvexView::Polygon(polygon) => ConvexView::Polygon(
                PolygonView { position, ..polygon },
            ),
            ConvexView::Circle(circle) => ConvexView::Circle(Circle { position, ..circle }),
            ConvexView::AABB(aabb) => ConvexView::AABB(AABB { position, ..aabb }),
            ConvexView::Parallelogram(gram) => ConvexView::Parallelogram(
                Parallelogram { position, ..gram },
            ),
            ConvexView::Capsule(capsule) => ConvexView::Capsule(Capsule { position, ..capsule }),
        }
    }
}

/// Getting and setting the position agree, whatever the kind of shape: a
/// moved shape is where it was moved to, moving a shape to where it is
/// changes nothing, and of two moves only the last one shows.
pub proof fn lemma_position(shape: ConvexView, first: Vector, second: Vector)
    ensures
        shape.with_position(first).position() == first,
        shape.with_position(shape.position()) == shape,
        shape.with_position(first).with_position(second) == shape.with_position(second),
{
}

impl PolygonView {
    /// The vertices in the order in which a pen draws the closed outline:
    /// each vertex in turn and the first one again. Nothing for a polygon
    /// without vertices.
    pub open spec fn outline(self) -> Seq<Vector> {
        if self.vertices.len() == 0 {
            Seq::empty()
        } else {
            self.vertices.push(self.vertices[0])
        }
    }
}

impl Polygon {
    /// The vertices in the order in which a pen draws the closed outline.
    pub fn outline(&self) -> (r: Vec<Vector>)
        ensures
            r@ == self@.outline(),
    {
        let mut r: Vec<Vector> = Vec::new();
        if self.vertices.len() == 0 {
            return r;
        }
        let mut i: usize = 0;
        while i < self.vertices.len()
            invariant
                i <= self.vertices.len(),
                r@ == self.vertices@.take(i as int),
            decreases self.vertices.len() - i,
        {
            r.push(self.vertices[i]);
            i += 1;
        }
        assert(self.vertices@.take(i as int) =~= self.vertices@);
        r.push(self.vertices[0]);
        r
    }
}

impl Clone for Polygon {
    fn clone(&self) -> (r: Polygon)
        ensures
            r@ == self@,
    {
        let mut vertices: Vec<Vector> = Vec::new();
        let mut i: usize = 0;
        while i < self.vertices.len()
            invariant
                i <= self.vertices.len(),
                vertices@ == self.vertices@.take(i as int),
            decreases self.vertices.len() - i,
        {
            vertices.push(self.vertices[i]);
            i += 1;
        }
        assert(self.vertices@.take(i as int) =~= self.vertices@);
        Polygon { position: self.position, vertices }
    }
}

impl Clone for Convex {
    fn clone(&self) -> (r: Convex)
        ensures
            r@ == self@,
    {
        match self {
            Convex::Polygon(polygon) => Convex::Polygon(polygon.clone()),
            Convex::Circle(circle) => Convex::Circle(*circle),
            Convex::AABB(aabb) => Convex::AABB(*aabb),
            Convex::Parallelogram(gram) => Convex::Parallelogram(*gram),
            Convex::Capsule(capsule) => Convex::Capsule(*capsule),
        }
    }
}

impl Convex {
    /// The position of the shape.
    pub fn position(&self) -> (r: Vector)
        ensures
            r == self@.position(),
    {
        match self {
            Convex::Polygon(polygon) => polygon.position,
            Convex::Circle(circle) => circle.position,
            Convex::AABB(aabb) => aabb.position,
            Convex::Parallelogram(gram) => gram.position,
            Convex::Capsule(capsule) => capsule.position,
        }
    }

    /// Moves the shape to `position` and changes nothing else about it.
    pub fn set_position(&mut self, position: Vector)
        ensures
            final(self)@ == old(self)@.with_position(position),
    {
        match self {
            Convex::Polygon(polygon) => {
                polygon.position = position;
            },
            Convex::Circle(circle) => {
                circle.position = position;
            },
            Convex::AABB(aabb) => {
                aabb.position = position;
            },
            Convex::Parallelogram(gram) => {
                gram.position = position;
            },
            Convex::Capsule(capsule) => {
                capsule.position = position;
            },
        }
    }
}

} // verus!
