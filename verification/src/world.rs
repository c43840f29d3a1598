//! The entity store that the stages work on.

use vstd::prelude::*;
use crate::components::{Movable, NoCollision, Sepax};
use crate::scalar::Vector;
use crate::shapes::ConvexView;

verus! {

/// One entity: each of its records is there or not.
#[derive(Debug)]
pub struct Entity {
    /// Its collision shape.
    pub sepax: Option<Sepax>,
    /// Its contacts, if it is a moving body.
    pub movable: Option<Movable>,
    /// Where the simulation has put it.
    pub translation: Option<Vector>,
    /// Whether it stays out of the collision stage.
    pub no_collision: Option<NoCollision>,
}

/// An entity as a mathematical value.
pub struct EntityView {
    pub sepax: Option<ConvexView>,
    pub movable: Option<Seq<Vector>>,
    pub translation: Option<Vector>,
    pub no_collision: bool,
}

impl View for Entity {
    type V = EntityView;

    open spec fn view(&self) -> EntityView {
        EntityView {
            sepax: match self.sepax {
                Some(sepax) => Some(sepax@),
                None => None,
            },
            movable: match self.movable {
                Some(movable) => Some(movable@),
                None => None,
            },
            translation: self.translation,
            no_collision: self.no_collision is Some,
        }
    }
}

impl EntityView {
    /// A moving body that takes part in the collision stage: it has a
    /// shape, contacts and a place in the simulation, and has not opted out.
    pub open spec fn is_mover(self) -> bool {
        self.sepax is Some && self.movable is Some && self.translation is Some
            && !self.no_collision
    }

    /// An obstacle of the collision stage: it has a shape, is no moving
    /// body, and has not opted out.
    pub open spec fn is_wall(self) -> bool {
        self.sepax is Some && self.movable is None && !self.no_collision
    }

    /// A moving body whose shape follows the simulation.
    pub open spec fn is_tracked(self) -> bool {
        self.sepax is Some && self.movable is Some && self.translation is Some
    }

    /// The entity without contacts, if it has any to lose.
    pub open spec fn cleared(self) -> EntityView {
        if self.movable is Some {
            EntityView { movable: Some(Seq::empty()), ..self }
        } else {
            self
        }
    }

    /// The entity with its shape where the simulation has put it, if it is
    /// a moving body with both.
    pub open spec fn synced(self) -> EntityView {
        if self.is_tracked() {
            EntityView {
                sepax: Some(self.sepax->0.with_position(self.translation->0)),
                ..self
            }
        } else {
            self
        }
    }
}

/// The entities, in a fixed order.
#[derive(Debug)]
pub struct World {
    pub entities: Vec<Entity>,
}

impl View for World {
    type V = Seq<EntityView>;

    open spec fn view(&self) -> Seq<EntityView> {
        Seq::new(self.entities@.len(), |i: int| self.entities@[i]@)
    }
}

impl Entity {
    /// Whether the entity is a moving body of the collision stage.
    pub fn is_mover(&self) -> (r: bool)
        ensures
            r == self@.is_mover(),
    {
        self.sepax.is_some() && self.movable.is_some() && self.translation.is_some()
            && self.no_collision.is_none()
    }

    /// Whether the entity is an obstacle of the collision stage.
    pub fn is_wall(&self) -> (r: bool)
        ensures
            r == self@.is_wall(),
    {
        self.sepax.is_some() && self.movable.is_none() && self.no_collision.is_none()
    }
}

} // verus!
