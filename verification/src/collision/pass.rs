//! The collision stage as the host drives it.

use vstd::prelude::*;
use crate::collision::laws::lemma_members;
use crate::collision::model::{members, Action, PassModel, Role};
use crate::scalar::{Scalar, Vector};
use crate::world::World;

verus! {

/// The collision stage in progress. It owns the store until
/// [`CollisionPass::finish`] hands it back.
pub struct CollisionPass {
    world: World,
    movers: Vec<usize>,
    walls: Vec<usize>,
    mover: usize,
    wall: usize,
    pending: Option<(Vector, Scalar)>,
}

/// Indices as mathematical integers.
spec fn as_ints(indices: Seq<usize>) -> Seq<int> {
    Seq::new(indices.len(), |k: int| indices[k] as int)
}

impl View for CollisionPass {
    type V = PassModel;

    closed spec fn view(&self) -> PassModel {
        PassModel {
            world: self.world@,
            movers: as_ints(self.movers@),
            walls: as_ints(self.walls@),
            mover: self.mover as int,
            wall: self.wall as int,
            pending: self.pending,
        }
    }
}

/// Collects the entities that play the given part.
fn cast(world: &World, role: Role) -> (r: Vec<usize>)
    ensures
        as_ints(r@) == members(world@, role),
{
    let mut r: Vec<usize> = Vec::new();
    let mut i: usize = 0;
    assert(world@.take(0) =~= Seq::empty());
    while i < world.entities.len()
        invariant
            i <= world.entities.len(),
            as_ints(r@) == members(world@.take(i as int), role),
        decreases world.entities.len() - i,
    {
        let plays = match role {
            Role::Mover => world.entities[i].is_mover(),
            Role::Wall => world.entities[i].is_wall(),
        };
        proof {
            let next = world@.take(i + 1);
            assert(next.drop_last() =~= world@.take(i as int));
            assert(next.last() == world@[i as int]);
            assert(as_ints(r@.push(i)) =~= as_ints(r@).push(i as int));
        }
        if plays {
            r.push(i);
        }
        i += 1;
    }
    assert(world@.take(i as int) =~= world@);
    r
}

impl CollisionPass {
    #[verifier::type_invariant]
    spec fn inv(self) -> bool {
        self@.wf()
    }

    /// Begins the collision stage on the store: every moving body is to
    /// meet every obstacle, one pairing after the other.
    pub fn begin(world: World) -> (pass: CollisionPass)
        ensures
            pass@ == PassModel::begin(world@),
    {
        let movers = cast(&world, Role::Mover);
        let walls = cast(&world, Role::Wall);
        proof {
            lemma_members(world@, Role::Mover);
            lemma_members(world@, Role::Wall);
        }
        CollisionPass { world, movers, walls, mover: 0, wall: 0, pending: None }
    }

    /// The store as the corrections so far have left it.
    pub fn world(&self) -> (r: &World)
        ensures
            r@ == self@.world,
    {
        &self.world
    }

    /// What the host is asked to do next.
    pub fn action(&self) -> (r: Action)
        ensures
            r == self@.action(),
            self@.wf(),
            r matches Action::Measure { mover, wall } ==> mover == self@.current_mover() && wall
                == self@.current_wall(),
            r matches Action::Normalize { mover, .. } ==> mover == self@.current_mover(),
    {
        proof {
            use_type_invariant(self);
        }
        if self.mover >= self.movers.len() || self.walls.len() == 0 {
            Action::Done
        } else {
            let mover = self.movers[self.mover];
            match self.pending {
                Some((translation, length)) => Action::Normalize { mover, translation, length },
                None => Action::Measure { mover, wall: self.walls[self.wall] },
            }
        }
    }

    /// Takes the measurement of the current pairing.
    pub fn measured(self, translation: Vector, position: Vector, length: Scalar) -> (next: CollisionPass)
        ensures
            next@ == self@.measured(translation, position, length),
    {
        proof {
            use_type_invariant(&self);
        }
        if self.mover >= self.movers.len() || self.walls.len() == 0 || self.pending.is_some() {
            return self;
        }
        let CollisionPass { mut world, movers, walls, mover, wall, pending: _ } = self;
        let at = movers[mover];
        let entity = &mut world.entities[at];
        match &mut entity.sepax {
            Some(sepax) => {
                let shape = sepax.shape_mut();
                shape.set_position(position);
            },
            None => {},
        }
        entity.translation = Some(position);
        assert(world@ =~= self@.world.update(at as int, self@.world[at as int].moved_to(position)));
        if length.gt(Scalar::epsilon()) {
            CollisionPass { world, movers, walls, mover, wall, pending: Some((translation, length)) }
        } else if wall + 1 < walls.len() {
            CollisionPass { world, movers, walls, mover, wall: wall + 1, pending: None }
        } else {
            CollisionPass { world, movers, walls, mover: mover + 1, wall: 0, pending: None }
        }
    }

    /// Takes the normal of the correction that is waiting for it.
    pub fn normalized(self, normal: Vector) -> (next: CollisionPass)
        ensures
            next@ == self@.normalized(normal),
    {
        proof {
            use_type_invariant(&self);
        }
        if self.mover >= self.movers.len() || self.walls.len() == 0 || self.pending.is_none() {
            return self;
        }
        let CollisionPass { mut world, movers, walls, mover, wall, pending: _ } = self;
        let at = movers[mover];
        match &mut world.entities[at].movable {
            Some(movable) => {
                movable.axes.push(normal);
            },
            None => {},
        }
        assert(world@ =~= self@.world.update(at as int, self@.world[at as int].with_contact(normal)));
        if wall + 1 < walls.len() {
            CollisionPass { world, movers, walls, mover, wall: wall + 1, pending: None }
        } else {
            CollisionPass { world, movers, walls, mover: mover + 1, wall: 0, pending: None }
        }
    }

    /// Ends the stage and hands the store back.
    pub fn finish(self) -> (world: World)
        ensures
            world@ == self@.world,
    {
        self.world
    }
}

} // verus!
