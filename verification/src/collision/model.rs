//! The collision stage as a mathematical object: which pairing comes when,
//! and what each answer of the host does to the store.

use vstd::prelude::*;
use crate::geometry::Geometry;
use crate::scalar::{Number, Scalar, Vector};
use crate::shapes::{Convex, ConvexView};
use crate::world::EntityView;

verus! {

/// The part that an entity plays in the collision stage.
#[derive(Clone, Copy, Debug)]
pub enum Role {
    /// A moving body, which is pushed.
    Mover,
    /// An obstacle, which pushes.
    Wall,
}

impl EntityView {
    /// Whether the entity plays the given part.
    pub open spec fn has_role(self, role: Role) -> bool {
        match role {
            Role::Mover => self.is_mover(),
            Role::Wall => self.is_wall(),
        }
    }

    /// The moving body after a correction: its shape and its place in the
    /// simulation are both at `position`.
    pub open spec fn moved_to(self, position: Vector) -> EntityView {
        EntityView {
            sepax: Some(self.sepax->0.with_position(position)),
            translation: Some(position),
            ..self
        }
    }

    /// The moving body with one more contact.
    pub open spec fn with_contact(self, normal: Vector) -> EntityView {
        EntityView { movable: Some(self.movable->0.push(normal)), ..self }
    }
}

/// The indices of the entities that play the given part, in ascending order.
pub open spec fn members(world: Seq<EntityView>, role: Role) -> Seq<int>
    decreases world.len(),
{
    if world.len() == 0 {
        Seq::empty()
    } else {
        let before = members(world.drop_last(), role);
        if world.last().has_role(role) {
            before.push(world.len() - 1)
        } else {
            before
        }
    }
}

/// What the host is asked to do next.
#[derive(Clone, Copy, Debug)]
pub enum Action {
    /// Measure the pairing: the translation that moves the shape of
    /// `mover` out of the shape of `wall` (zero where they do not overlap),
    /// the position of the mover's shape plus that translation, and the
    /// length of the translation. Answer with [`CollisionPass::measured`].
    Measure { mover: usize, wall: usize },
    /// Divide `translation` by `length`, which exceeds the machine
    /// epsilon. Answer with [`CollisionPass::normalized`].
    Normalize { mover: usize, translation: Vector, length: Scalar },
    /// Nothing: every pairing has been resolved.
    Done,
}

/// What the host answers to an [`Action`].
pub enum Answer {
    /// The measurement of the current pairing.
    Measured { translation: Vector, position: Vector, length: Scalar },
    /// The normal of the translation that is waiting for it.
    Normalized { normal: Vector },
}

/// A collision stage in progress, as a mathematical value.
pub struct PassModel {
    /// The store as the corrections so far have left it.
    pub world: Seq<EntityView>,
    /// The moving bodies, by index, in the order in which they are resolved.
    pub movers: Seq<int>,
    /// The obstacles, by index, in the order in which each body meets them.
    pub walls: Seq<int>,
    /// How many moving bodies have met every obstacle.
    pub mover: int,
    /// How many obstacles the current moving body has met.
    pub wall: int,
    /// A translation that is long enough to be a contact, and its length,
    /// while its normal is awaited.
    pub pending: Option<(Vector, Scalar)>,
}

impl PassModel {
    /// The stage before its first pairing.
    pub open spec fn begin(world: Seq<EntityView>) -> PassModel {
        PassModel {
            world,
            movers: members(world, Role::Mover),
            walls: members(world, Role::Wall),
            mover: 0,
            wall: 0,
            pending: None,
        }
    }

    /// Whether no pairing is left.
    pub open spec fn done(self) -> bool {
        self.mover >= self.movers.len() || self.walls.len() == 0
    }

    /// What holds of every stage in progress: the bodies and the obstacles
    /// are entities of the store that play those parts, and the stage is
    /// at a pairing of them unless it is done.
    pub open spec fn wf(self) -> bool {
        &&& forall|k: int|
            0 <= k < self.movers.len() ==> 0 <= #[trigger] self.movers[k] < self.world.len()
                && self.world[self.movers[k]].is_mover()
        &&& forall|k: int|
            0 <= k < self.walls.len() ==> 0 <= #[trigger] self.walls[k] < self.world.len()
                && self.world[self.walls[k]].is_wall()
        &&& 0 <= self.mover <= self.movers.len()
        &&& 0 <= self.wall
        &&& !self.done() ==> self.wall < self.walls.len()
        &&& self.pending is Some ==> !self.done()
    }

    /// The moving body of the current pairing.
    pub open spec fn current_mover(self) -> int {
        self.movers[self.mover]
    }

    /// The obstacle of the current pairing.
    pub open spec fn current_wall(self) -> int {
        self.walls[self.wall]
    }

    /// What the host is asked to do in this state.
    pub open spec fn action(self) -> Action {
        if self.done() {
            Action::Done
        } else if let Some((translation, length)) = self.pending {
            Action::Normalize { mover: self.current_mover() as usize, translation, length }
        } else {
            Action::Measure {
                mover: self.current_mover() as usize,
                wall: self.current_wall() as usize,
            }
        }
    }

    /// The stage at the next pairing: the same body and the next obstacle,
    /// or the next body and the first obstacle.
    pub open spec fn advance(self) -> PassModel {
        if self.wall + 1 < self.walls.len() {
            PassModel { wall: self.wall + 1, pending: None, ..self }
        } else {
            PassModel { mover: self.mover + 1, wall: 0, pending: None, ..self }
        }
    }

    /// The stage after the current pairing has been measured. The body's
    /// shape and its place in the simulation move to `position`. A
    /// translation whose length exceeds the machine epsilon then waits for
    /// its normal; any other leaves no contact, and the stage goes on.
    /// Where no measurement is awaited, nothing changes.
    pub open spec fn measured(self, translation: Vector, position: Vector, length: Scalar) -> PassModel {
        if self.done() || self.pending is Some {
            self
        } else {
            let mover = self.current_mover();
            let moved = PassModel {
                world: self.world.update(mover, self.world[mover].moved_to(position)),
                ..self
            };
            if length@.gt(Number::epsilon()) {
                PassModel { pending: Some((translation, length)), ..moved }
            } else {
                moved.advance()
            }
        }
    }

    /// The stage after the awaited normal has come: it is the body's newest
    /// contact, and the stage goes on. Where no normal is awaited, nothing
    /// changes.
    pub open spec fn normalized(self, normal: Vector) -> PassModel {
        if self.done() || self.pending is None {
            self
        } else {
            let mover = self.current_mover();
            PassModel {
                world: self.world.update(mover, self.world[mover].with_contact(normal)),
                ..self
            }.advance()
        }
    }
}

impl PassModel {
    /// Whether the stage, in this state, is waiting for such an answer.
    pub open spec fn awaits(self, answer: Answer) -> bool {
        match answer {
            Answer::Measured { .. } => self.action() is Measure,
            Answer::Normalized { .. } => self.action() is Normalize,
        }
    }

    /// The stage after the answer.
    pub open spec fn answered(self, answer: Answer) -> PassModel {
        match answer {
            Answer::Measured { translation, position, length } => self.measured(
                translation,
                position,
                length,
            ),
            Answer::Normalized { normal } => self.normalized(normal),
        }
    }

    /// The stage after the answers, taken in turn.
    pub open spec fn replay(self, answers: Seq<Answer>) -> PassModel
        decreases answers.len(),
    {
        if answers.len() == 0 {
            self
        } else {
            self.replay(answers.drop_last()).answered(answers.last())
        }
    }

    /// Whether `answer` is one that `geometry` can give to what the stage
    /// asks in this state: the measurement of the shapes of the current
    /// pairing as they are now, or the normal of the translation that is
    /// waiting for it.
    pub open spec fn admits<G: Geometry>(self, geometry: &G, answer: Answer) -> bool {
        match answer {
            Answer::Measured { translation, position, length } => {
                &&& self.action() is Measure
                &&& measures(
                    geometry,
                    self.world[self.current_wall()].sepax->0,
                    self.world[self.current_mover()].sepax->0,
                    translation,
                    position,
                    length,
                )
            },
            Answer::Normalized { normal } => {
                &&& self.action() matches Action::Normalize { translation, length, .. }
                &&& normalizes(geometry, translation, length, normal)
            },
        }
    }

    /// Whether each of the answers is one that `geometry` can give when
    /// its turn comes.
    pub open spec fn expects<G: Geometry>(self, geometry: &G, answers: Seq<Answer>) -> bool
        decreases answers.len(),
    {
        answers.len() > 0 ==> self.expects(geometry, answers.drop_last()) && self.replay(
            answers.drop_last(),
        ).admits(geometry, answers.last())
    }
}

/// Whether `geometry` can measure the pairing so: `translation` is what it
/// resolves the two shapes to, `position` is the body's position plus the
/// translation, and `length` is the square root of the sum of the squares
/// of the translation's parts, each operation being `geometry`'s own.
pub open spec fn measures<G: Geometry>(
    geometry: &G,
    wall: ConvexView,
    mover: ConvexView,
    translation: Vector,
    position: Vector,
    length: Scalar,
) -> bool {
    exists|obstacle: Convex, body: Convex, xx: Scalar, yy: Scalar, squares: Scalar|
        #![trigger
            call_ensures(G::resolve, (geometry, &obstacle, &body), translation),
            call_ensures(G::sum, (geometry, xx, yy), squares)]
        {
            &&& obstacle@ == wall
            &&& body@ == mover
            &&& call_ensures(G::resolve, (geometry, &obstacle, &body), translation)
            &&& call_ensures(G::sum, (geometry, mover.position().0, translation.0), position.0)
            &&& call_ensures(G::sum, (geometry, mover.position().1, translation.1), position.1)
            &&& call_ensures(G::product, (geometry, translation.0, translation.0), xx)
            &&& call_ensures(G::product, (geometry, translation.1, translation.1), yy)
            &&& call_ensures(G::sum, (geometry, xx, yy), squares)
            &&& call_ensures(G::square_root, (geometry, squares), length)
        }
}

/// Whether `geometry` can normalise the translation so: each part of
/// `normal` is that part of `translation` divided by `length`, the division
/// being `geometry`'s own.
pub open spec fn normalizes<G: Geometry>(
    geometry: &G,
    translation: Vector,
    length: Scalar,
    normal: Vector,
) -> bool {
    &&& call_ensures(G::quotient, (geometry, translation.0, length), normal.0)
    &&& call_ensures(G::quotient, (geometry, translation.1, length), normal.1)
}

/// The answers that the host may still owe: two for each pairing that is
/// left, less the one already given for a pairing whose normal is awaited.
pub open spec fn answers_left(pass: PassModel) -> int {
    if pass.done() {
        0
    } else {
        2 * ((pass.movers.len() - pass.mover) * pass.walls.len() - pass.wall) - if pass.pending
            is Some {
            1int
        } else {
            0int
        }
    }
}

/// Whether `after` is what the collision stage makes of the store `before`
/// with `geometry`: there are answers, each one that `geometry` can give at
/// its turn, that take the stage from its beginning to its end and leave
/// the store as `after`.
pub open spec fn is_run<G: Geometry>(geometry: &G, before: Seq<EntityView>, after: Seq<
    EntityView,
>) -> bool {
    exists|answers: Seq<Answer>|
        #![trigger PassModel::begin(before).replay(answers)]
        {
            &&& PassModel::begin(before).expects(geometry, answers)
            &&& PassModel::begin(before).replay(answers).done()
            &&& PassModel::begin(before).replay(answers).world == after
        }
}

/// What the collision stage has made of the store `before`, whatever the
/// measurements were. Where there is an obstacle, every moving body is
/// still a moving body with the shape that it had, which is now where the
/// simulation has the body; its contacts are those that it had, followed by
/// at most one for each obstacle. Everything else is as it was.
pub open spec fn resolved(before: Seq<EntityView>, after: Seq<EntityView>) -> bool {
    let walls = members(before, Role::Wall).len();
    &&& after.len() == before.len()
    &&& forall|i: int|
        0 <= i < before.len() ==> if (#[trigger] before[i]).is_mover() && walls > 0 {
            &&& after[i].is_mover()
            &&& after[i].sepax == Some(before[i].sepax->0.with_position(after[i].translation->0))
            &&& before[i].movable->0.is_prefix_of(after[i].movable->0)
            &&& after[i].movable->0.len() <= before[i].movable->0.len() + walls
        } else {
            after[i] == before[i]
        }
}

} // verus!
