//! What holds of the collision stage, whatever the measurements are.

use vstd::prelude::*;
use vstd::arithmetic::power2::lemma_pow2_pos;
use crate::collision::model::{
    answers_left, is_run, measures, members, resolved, Answer, PassModel, Role,
};
use crate::geometry::Geometry;
use crate::scalar::{Number, Scalar, Vector};
use crate::shapes::{lemma_position, Convex};
use crate::world::EntityView;

verus! {

/// The members of a part are exactly the entities of the store that play
/// it, each once, in the order of the store.
pub proof fn lemma_members(world: Seq<EntityView>, role: Role)
    ensures
        forall|k: int|
            0 <= k < members(world, role).len() ==> 0 <= #[trigger] members(world, role)[k]
                < world.len() && world[members(world, role)[k]].has_role(role),
        forall|j: int, k: int|
            0 <= j < k < members(world, role).len() ==> #[trigger] members(world, role)[j]
                < #[trigger] members(world, role)[k],
        forall|i: int|
            0 <= i < world.len() && (#[trigger] world[i]).has_role(role) ==> members(
                world,
                role,
            ).contains(i),
    decreases world.len(),
{
    if world.len() > 0 {
        let before = world.drop_last();
        lemma_members(before, role);
        let found = members(world, role);
        let found_before = members(before, role);
        assert forall|k: int| 0 <= k < found.len() implies 0 <= #[trigger] found[k] < world.len()
            && world[found[k]].has_role(role) by {
            if k < found_before.len() {
                assert(found[k] == found_before[k]);
                assert(before[found_before[k]] == world[found_before[k]]);
            } else {
                assert(found[k] == world.len() - 1);
            }
        }
        assert forall|j: int, k: int| 0 <= j < k < found.len() implies #[trigger] found[j]
            < #[trigger] found[k] by {
            assert(found[j] == found_before[j]);
            if k < found_before.len() {
                assert(found[k] == found_before[k]);
            }
        }
        assert forall|i: int| 0 <= i < world.len() && (#[trigger] world[i]).has_role(
            role,
        ) implies found.contains(i) by {
            if i < before.len() {
                assert(before[i] == world[i]);
                let k = choose|k: int| 0 <= k < found_before.len() && found_before[k] == i;
                assert(found[k] == i);
            } else {
                assert(found[found.len() - 1] == i);
            }
        }
    }
}

/// The stage begins in a well-formed state.
pub proof fn lemma_begin_wf(world: Seq<EntityView>)
    ensures
        PassModel::begin(world).wf(),
{
    lemma_members(world, Role::Mover);
    lemma_members(world, Role::Wall);
}

/// A measurement leaves the stage well formed, and moves nothing but the
/// body of the pairing that was measured.
pub proof fn lemma_measured_wf(pass: PassModel, translation: Vector, position: Vector, length: Scalar)
    requires
        pass.wf(),
    ensures
        pass.measured(translation, position, length).wf(),
        pass.measured(translation, position, length).movers == pass.movers,
        pass.measured(translation, position, length).walls == pass.walls,
        pass.measured(translation, position, length).world.len() == pass.world.len(),
        forall|i: int|
            0 <= i < pass.world.len() && (pass.done() || i != pass.current_mover())
                ==> #[trigger] pass.measured(translation, position, length).world[i]
                == pass.world[i],
{
    let next = pass.measured(translation, position, length);
    if !pass.done() && pass.pending is None {
        let mover = pass.current_mover();
        assert(pass.movers[pass.mover] == mover);
        assert forall|k: int| 0 <= k < next.walls.len() implies 0 <= #[trigger] next.walls[k]
            < next.world.len() && next.world[next.walls[k]].is_wall() by {
            assert(pass.world[pass.walls[k]].is_wall());
        }
        assert forall|k: int| 0 <= k < next.movers.len() implies 0 <= #[trigger] next.movers[k]
            < next.world.len() && next.world[next.movers[k]].is_mover() by {
            assert(pass.world[pass.movers[k]].is_mover());
        }
    }
}

/// A normal leaves the stage well formed, and touches nothing but the
/// contacts of the body that it belongs to.
pub proof fn lemma_normalized_wf(pass: PassModel, normal: Vector)
    requires
        pass.wf(),
    ensures
        pass.normalized(normal).wf(),
        pass.normalized(normal).movers == pass.movers,
        pass.normalized(normal).walls == pass.walls,
        pass.normalized(normal).world.len() == pass.world.len(),
        forall|i: int|
            0 <= i < pass.world.len() && (pass.done() || i != pass.current_mover())
                ==> #[trigger] pass.normalized(normal).world[i] == pass.world[i],
{
    let next = pass.normalized(normal);
    if !pass.done() && pass.pending is Some {
        let mover = pass.current_mover();
        assert(pass.movers[pass.mover] == mover);
        assert forall|k: int| 0 <= k < next.walls.len() implies 0 <= #[trigger] next.walls[k]
            < next.world.len() && next.world[next.walls[k]].is_wall() by {
            assert(pass.world[pass.walls[k]].is_wall());
        }
        assert forall|k: int| 0 <= k < next.movers.len() implies 0 <= #[trigger] next.movers[k]
            < next.world.len() && next.world[next.movers[k]].is_mover() by {
            assert(pass.world[pass.movers[k]].is_mover());
        }
    }
}

/// Every pairing is met once and the stage ends: each answer that the
/// stage is waiting for brings it strictly closer to its end, and it is
/// done exactly when no answer is owed.
pub proof fn lemma_stage_ends(pass: PassModel, translation: Vector, position: Vector, length: Scalar, normal: Vector)
    requires
        pass.wf(),
    ensures
        answers_left(pass) >= 0,
        answers_left(pass) == 0 <==> pass.done(),
        pass.action() is Measure ==> answers_left(pass.measured(translation, position, length))
            < answers_left(pass),
        pass.action() is Normalize ==> answers_left(pass.normalized(normal)) < answers_left(
            pass,
        ),
{
    let movers_left = pass.movers.len() - pass.mover;
    let walls = pass.walls.len() as int;
    if !pass.done() {
        assert(movers_left * walls >= walls) by (nonlinear_arith)
            requires
                movers_left >= 1,
                walls >= 1,
        ;
        assert((movers_left - 1) * walls == movers_left * walls - walls) by (nonlinear_arith);
    }
}

/// A pairing that calls for no correction changes nothing. Where the
/// measurement leaves the body at the position of its shape and reports a
/// length that does not exceed the machine epsilon, as it does for shapes
/// that do not overlap, the body keeps its shape and its contacts and no
/// normal is awaited; and if the body's place in the simulation agreed
/// with its shape, the whole store is as before.
pub proof fn lemma_no_overlap_no_change(pass: PassModel, translation: Vector, length: Scalar)
    requires
        pass.wf(),
        pass.action() is Measure,
        !length@.gt(Number::epsilon()),
    ensures
        ({
            let mover = pass.current_mover();
            let position = pass.world[mover].sepax->0.position();
            let next = pass.measured(translation, position, length);
            &&& next.pending is None
            &&& next.world[mover].sepax == pass.world[mover].sepax
            &&& next.world[mover].movable == pass.world[mover].movable
            &&& pass.world[mover].translation == Some(position) ==> next.world == pass.world
        }),
{
    let mover = pass.current_mover();
    assert(pass.movers[pass.mover] == mover);
    let shape = pass.world[mover].sepax->0;
    let position = shape.position();
    lemma_position(shape, position, position);
    let next = pass.measured(translation, position, length);
    if pass.world[mover].translation == Some(position) {
        assert(next.world =~= pass.world);
    }
}

/// Whether the scalar is a zero, of either sign.
pub open spec fn is_zero(x: Scalar) -> bool {
    x@ == (Number::Finite { units: 0 })
}

/// Whether `geometry` computes with zero as arithmetic does: a sum with a
/// zero is the other number, and the product and the square root of zeros
/// are zero.
pub open spec fn reckons_with_zero<G: Geometry>(geometry: &G) -> bool {
    &&& forall|a: Scalar, zero: Scalar, r: Scalar|
        is_zero(zero) && #[trigger] call_ensures(G::sum, (geometry, a, zero), r) ==> r@ == a@
    &&& forall|a: Scalar, b: Scalar, r: Scalar|
        is_zero(a) && is_zero(b) && #[trigger] call_ensures(G::product, (geometry, a, b), r)
            ==> is_zero(r)
    &&& forall|a: Scalar, r: Scalar|
        is_zero(a) && #[trigger] call_ensures(G::square_root, (geometry, a), r) ==> is_zero(r)
}

/// Shapes that need no translation are left alone. Where `geometry`
/// computes with zero as arithmetic does and resolves the current pairing
/// to a zero vector, as it does for shapes that do not overlap, the
/// measurement leaves the body with the shape that it had, at a position
/// that is the same pair of numbers, and with the contacts that it had; no
/// normal is awaited.
pub proof fn lemma_zero_translation_no_change<G: Geometry>(
    geometry: &G,
    pass: PassModel,
    translation: Vector,
    position: Vector,
    length: Scalar,
)
    requires
        pass.wf(),
        reckons_with_zero(geometry),
        pass.admits(geometry, Answer::Measured { translation, position, length }),
        is_zero(translation.0),
        is_zero(translation.1),
    ensures
        ({
            let mover = pass.current_mover();
            let was = pass.world[mover];
            let is = pass.measured(translation, position, length).world[mover];
            &&& pass.measured(translation, position, length).pending is None
            &&& is.movable == was.movable
            &&& is.sepax == Some(was.sepax->0.with_position(position))
            &&& position.0@ == was.sepax->0.position().0@
            &&& position.1@ == was.sepax->0.position().1@
            &&& is.translation == Some(position)
        }),
{
    let mover = pass.current_mover();
    assert(pass.movers[pass.mover] == mover);
    let shape = pass.world[mover].sepax->0;
    let wall = pass.world[pass.current_wall()].sepax->0;
    assert(measures(geometry, wall, shape, translation, position, length));
    let (obstacle, body, xx, yy, squares) = choose|
        obstacle: Convex,
        body: Convex,
        xx: Scalar,
        yy: Scalar,
        squares: Scalar,
    |
        #![trigger
            call_ensures(G::resolve, (geometry, &obstacle, &body), translation),
            call_ensures(G::sum, (geometry, xx, yy), squares)]
        {
            &&& obstacle@ == wall
            &&& body@ == shape
            &&& call_ensures(G::resolve, (geometry, &obstacle, &body), translation)
            &&& call_ensures(G::sum, (geometry, shape.position().0, translation.0), position.0)
            &&& call_ensures(G::sum, (geometry, shape.position().1, translation.1), position.1)
            &&& call_ensures(G::product, (geometry, translation.0, translation.0), xx)
            &&& call_ensures(G::product, (geometry, translation.1, translation.1), yy)
            &&& call_ensures(G::sum, (geometry, xx, yy), squares)
            &&& call_ensures(G::square_root, (geometry, squares), length)
        };
    assert(is_zero(xx) && is_zero(yy));
    assert(is_zero(squares));
    assert(is_zero(length));
    lemma_pow2_pos(126);
    assert(!length@.gt(Number::epsilon()));
}

impl PassModel {
    /// How many obstacles the moving body of the given rank has met.
    pub open spec fn met(self, rank: int) -> int {
        if self.done() {
            self.walls.len() as int
        } else if rank < self.mover {
            self.walls.len() as int
        } else if rank == self.mover {
            self.wall
        } else {
            0
        }
    }

    /// Whether the moving body of the given rank has been measured against
    /// an obstacle.
    pub open spec fn moved(self, rank: int) -> bool {
        if self.walls.len() == 0 {
            false
        } else if rank < self.mover {
            true
        } else if rank == self.mover {
            self.wall > 0 || self.pending is Some
        } else {
            false
        }
    }

    /// What holds of a stage that began on the store `before`, at every
    /// point of its course and whatever the measurements were.
    pub open spec fn follows(self, before: Seq<EntityView>) -> bool {
        &&& self.wf()
        &&& self.movers == members(before, Role::Mover)
        &&& self.walls == members(before, Role::Wall)
        &&& self.world.len() == before.len()
        &&& forall|i: int|
            0 <= i < before.len() && !(#[trigger] before[i]).is_mover() ==> self.world[i]
                == before[i]
        &&& forall|rank: int|
            0 <= rank < self.movers.len() ==> {
                let was = before[#[trigger] self.movers[rank]];
                let is = self.world[self.movers[rank]];
                &&& is.is_mover()
                &&& was.movable->0.is_prefix_of(is.movable->0)
                &&& is.movable->0.len() <= was.movable->0.len() + self.met(rank)
                &&& if self.moved(rank) {
                    is.sepax == Some(was.sepax->0.with_position(is.translation->0))
                } else {
                    is == was
                }
            }
    }
}

/// The stage begins as it goes on.
pub proof fn lemma_begin_follows(world: Seq<EntityView>)
    ensures
        PassModel::begin(world).follows(world),
{
    lemma_begin_wf(world);
    let pass = PassModel::begin(world);
    assert forall|rank: int| 0 <= rank < pass.movers.len() implies {
        let was = world[#[trigger] pass.movers[rank]];
        was.movable->0.is_prefix_of(was.movable->0)
    } by {
        let contacts = world[pass.movers[rank]].movable->0;
        assert(contacts.subrange(0, contacts.len() as int) =~= contacts);
    }
}

/// A measurement keeps the stage on its course.
pub proof fn lemma_measured_follows(before: Seq<EntityView>, pass: PassModel, translation: Vector, position: Vector, length: Scalar)
    requires
        pass.follows(before),
    ensures
        pass.measured(translation, position, length).follows(before),
{
    let next = pass.measured(translation, position, length);
    lemma_measured_wf(pass, translation, position, length);
    lemma_members(before, Role::Mover);
    if !pass.done() && pass.pending is None {
        let mover = pass.current_mover();
        assert(pass.movers[pass.mover] == mover);
        assert(before[mover].is_mover());
        assert forall|rank: int| 0 <= rank < next.movers.len() implies {
            let was = before[#[trigger] next.movers[rank]];
            let is = next.world[next.movers[rank]];
            &&& is.is_mover()
            &&& was.movable->0.is_prefix_of(is.movable->0)
            &&& is.movable->0.len() <= was.movable->0.len() + next.met(rank)
            &&& if next.moved(rank) {
                is.sepax == Some(was.sepax->0.with_position(is.translation->0))
            } else {
                is == was
            }
        } by {
            let was = before[pass.movers[rank]];
            let old = pass.world[pass.movers[rank]];
            if rank == pass.mover {
                lemma_position(was.sepax->0, old.translation->0, position);
            } else {
                assert(pass.movers[rank] != mover);
            }
        }
    }
}

/// A normal keeps the stage on its course.
pub proof fn lemma_normalized_follows(before: Seq<EntityView>, pass: PassModel, normal: Vector)
    requires
        pass.follows(before),
    ensures
        pass.normalized(normal).follows(before),
{
    let next = pass.normalized(normal);
    lemma_normalized_wf(pass, normal);
    lemma_members(before, Role::Mover);
    if !pass.done() && pass.pending is Some {
        let mover = pass.current_mover();
        assert(pass.movers[pass.mover] == mover);
        assert(before[mover].is_mover());
        assert forall|rank: int| 0 <= rank < next.movers.len() implies {
            let was = before[#[trigger] next.movers[rank]];
            let is = next.world[next.movers[rank]];
            &&& is.is_mover()
            &&& was.movable->0.is_prefix_of(is.movable->0)
            &&& is.movable->0.len() <= was.movable->0.len() + next.met(rank)
            &&& if next.moved(rank) {
                is.sepax == Some(was.sepax->0.with_position(is.translation->0))
            } else {
                is == was
            }
        } by {
            let was = before[pass.movers[rank]];
            let old = pass.world[pass.movers[rank]];
            if rank == pass.mover {
                let contacts = was.movable->0;
                assert(old.movable->0.push(normal).subrange(0, contacts.len() as int)
                    =~= old.movable->0.subrange(0, contacts.len() as int));
            } else {
                assert(pass.movers[rank] != mover);
            }
        }
    }
}

/// A stage that has run its course has resolved the store.
pub proof fn lemma_done_resolved(before: Seq<EntityView>, pass: PassModel)
    requires
        pass.follows(before),
        pass.done(),
    ensures
        resolved(before, pass.world),
{
    lemma_members(before, Role::Mover);
    assert forall|i: int| 0 <= i < before.len() implies if (#[trigger] before[i]).is_mover()
        && pass.walls.len() > 0 {
        &&& pass.world[i].is_mover()
        &&& pass.world[i].sepax == Some(
            before[i].sepax->0.with_position(pass.world[i].translation->0),
        )
        &&& before[i].movable->0.is_prefix_of(pass.world[i].movable->0)
        &&& pass.world[i].movable->0.len() <= before[i].movable->0.len() + pass.walls.len()
    } else {
        pass.world[i] == before[i]
    } by {
        if before[i].is_mover() {
            assert(before[i].has_role(Role::Mover));
            let rank = choose|rank: int| 0 <= rank < pass.movers.len() && pass.movers[rank] == i;
            assert(pass.movers[rank] == i);
        }
    }
}

/// Whatever the answers are, the stage stays on its course, and when it is
/// done it has resolved the store.
pub proof fn lemma_replay_follows(before: Seq<EntityView>, answers: Seq<Answer>)
    ensures
        PassModel::begin(before).replay(answers).follows(before),
        PassModel::begin(before).replay(answers).done() ==> resolved(
            before,
            PassModel::begin(before).replay(answers).world,
        ),
    decreases answers.len(),
{
    let start = PassModel::begin(before);
    if answers.len() == 0 {
        lemma_begin_follows(before);
    } else {
        lemma_replay_follows(before, answers.drop_last());
        let so_far = start.replay(answers.drop_last());
        match answers.last() {
            Answer::Measured { translation, position, length } => {
                lemma_measured_follows(before, so_far, translation, position, length);
            },
            Answer::Normalized { normal } => {
                lemma_normalized_follows(before, so_far, normal);
            },
        }
    }
    if start.replay(answers).done() {
        lemma_done_resolved(before, start.replay(answers));
    }
}

/// Every run of the collision stage resolves the store, whatever the
/// geometry.
pub proof fn lemma_run_resolves<G: Geometry>(geometry: &G, before: Seq<EntityView>, after: Seq<
    EntityView,
>)
    requires
        is_run(geometry, before, after),
    ensures
        resolved(before, after),
{
    let answers = choose|answers: Seq<Answer>|
        #![trigger PassModel::begin(before).replay(answers)]
        {
            &&& PassModel::begin(before).expects(geometry, answers)
            &&& PassModel::begin(before).replay(answers).done()
            &&& PassModel::begin(before).replay(answers).world == after
        };
    lemma_replay_follows(before, answers);
}

/// Whether `geometry` always gives the same answer to the same question,
/// and resolves shapes that are the same values to the same translation.
pub open spec fn is_function<G: Geometry>(geometry: &G) -> bool {
    &&& forall|wall: Convex, mover: Convex, wall2: Convex, mover2: Convex, t: Vector, t2: Vector|
        wall@ == wall2@ && mover@ == mover2@ && #[trigger] call_ensures(
            G::resolve,
            (geometry, &wall, &mover),
            t,
        ) && #[trigger] call_ensures(G::resolve, (geometry, &wall2, &mover2), t2) ==> t == t2
    &&& forall|a: Scalar, b: Scalar, r: Scalar, r2: Scalar|
        #[trigger] call_ensures(G::sum, (geometry, a, b), r) && #[trigger] call_ensures(
            G::sum,
            (geometry, a, b),
            r2,
        ) ==> r == r2
    &&& forall|a: Scalar, b: Scalar, r: Scalar, r2: Scalar|
        #[trigger] call_ensures(G::product, (geometry, a, b), r) && #[trigger] call_ensures(
            G::product,
            (geometry, a, b),
            r2,
        ) ==> r == r2
    &&& forall|a: Scalar, r: Scalar, r2: Scalar|
        #[trigger] call_ensures(G::square_root, (geometry, a), r) && #[trigger] call_ensures(
            G::square_root,
            (geometry, a),
            r2,
        ) ==> r == r2
    &&& forall|a: Scalar, b: Scalar, r: Scalar, r2: Scalar|
        #[trigger] call_ensures(G::quotient, (geometry, a, b), r) && #[trigger] call_ensures(
            G::quotient,
            (geometry, a, b),
            r2,
        ) ==> r == r2
}

/// With a geometry that is a function, the state of the stage leaves one
/// answer at most.
pub proof fn lemma_answer_determined<G: Geometry>(geometry: &G, pass: PassModel, first: Answer, second: Answer)
    requires
        is_function(geometry),
        pass.admits(geometry, first),
        pass.admits(geometry, second),
    ensures
        first == second,
{
    match (first, second) {
        (
            Answer::Measured { translation, position, length },
            Answer::Measured { translation: translation2, position: position2, length: length2 },
        ) => {
            let wall = pass.world[pass.current_wall()].sepax->0;
            let mover = pass.world[pass.current_mover()].sepax->0;
            assert(measures(geometry, wall, mover, translation, position, length));
            assert(measures(geometry, wall, mover, translation2, position2, length2));
            let (o, b, xx, yy, squares) = choose|
                o: Convex,
                b: Convex,
                xx: Scalar,
                yy: Scalar,
                squares: Scalar,
            |
                #![trigger
                    call_ensures(G::resolve, (geometry, &o, &b), translation),
                    call_ensures(G::sum, (geometry, xx, yy), squares)]
                {
                    &&& o@ == wall
                    &&& b@ == mover
                    &&& call_ensures(G::resolve, (geometry, &o, &b), translation)
                    &&& call_ensures(G::sum, (geometry, mover.position().0, translation.0), position.0)
                    &&& call_ensures(G::sum, (geometry, mover.position().1, translation.1), position.1)
                    &&& call_ensures(G::product, (geometry, translation.0, translation.0), xx)
                    &&& call_ensures(G::product, (geometry, translation.1, translation.1), yy)
                    &&& call_ensures(G::sum, (geometry, xx, yy), squares)
                    &&& call_ensures(G::square_root, (geometry, squares), length)
                };
            let (o2, b2, xx2, yy2, squares2) = choose|
                o2: Convex,
                b2: Convex,
                xx2: Scalar,
                yy2: Scalar,
                squares2: Scalar,
            |
                #![trigger
                    call_ensures(G::resolve, (geometry, &o2, &b2), translation2),
                    call_ensures(G::sum, (geometry, xx2, yy2), squares2)]
                {
                    &&& o2@ == wall
                    &&& b2@ == mover
                    &&& call_ensures(G::resolve, (geometry, &o2, &b2), translation2)
                    &&& call_ensures(
                        G::sum,
                        (geometry, mover.position().0, translation2.0),
                        position2.0,
                    )
                    &&& call_ensures(
                        G::sum,
                        (geometry, mover.position().1, translation2.1),
                        position2.1,
                    )
                    &&& call_ensures(G::product, (geometry, translation2.0, translation2.0), xx2)
                    &&& call_ensures(G::product, (geometry, translation2.1, translation2.1), yy2)
                    &&& call_ensures(G::sum, (geometry, xx2, yy2), squares2)
                    &&& call_ensures(G::square_root, (geometry, squares2), length2)
                };
            assert(translation == translation2);
            assert(position.0 == position2.0 && position.1 == position2.1);
            assert(xx == xx2 && yy == yy2);
            assert(squares == squares2);
            assert(length == length2);
        },
        (Answer::Normalized { normal }, Answer::Normalized { normal: normal2 }) => {
            assert(normal.0 == normal2.0 && normal.1 == normal2.1);
        },
        _ => {},
    }
}

/// The answers that were expected are expected one by one: each is
/// admitted by the state that those before it have led to.
pub proof fn lemma_expected_in_turn<G: Geometry>(geometry: &G, start: PassModel, answers: Seq<Answer>, i: int)
    requires
        start.expects(geometry, answers),
        0 <= i < answers.len(),
    ensures
        start.expects(geometry, answers.take(i)),
        start.replay(answers.take(i)).admits(geometry, answers[i]),
        start.replay(answers.take(i + 1)) == start.replay(answers.take(i)).answered(answers[i]),
    decreases answers.len(),
{
    assert(answers.take(i + 1).drop_last() =~= answers.take(i));
    if i == answers.len() - 1 {
        assert(answers.take(i) =~= answers.drop_last());
    } else {
        lemma_expected_in_turn(geometry, start, answers.drop_last(), i);
        assert(answers.drop_last().take(i) =~= answers.take(i));
        assert(answers.drop_last().take(i + 1) =~= answers.take(i + 1));
    }
}

/// With a geometry that is a function, two courses of the stage from the
/// same state are the same as far as both go.
pub proof fn lemma_courses_agree<G: Geometry>(geometry: &G, start: PassModel, first: Seq<Answer>, second: Seq<Answer>, n: int)
    requires
        is_function(geometry),
        start.expects(geometry, first),
        start.expects(geometry, second),
        0 <= n <= first.len(),
        n <= second.len(),
    ensures
        first.take(n) == second.take(n),
    decreases n,
{
    if n == 0 {
        assert(first.take(0) =~= second.take(0));
    } else {
        lemma_courses_agree(geometry, start, first, second, n - 1);
        lemma_expected_in_turn(geometry, start, first, n - 1);
        lemma_expected_in_turn(geometry, start, second, n - 1);
        lemma_answer_determined(
            geometry,
            start.replay(first.take(n - 1)),
            first[n - 1],
            second[n - 1],
        );
        assert(first.take(n) =~= first.take(n - 1).push(first[n - 1]));
        assert(second.take(n) =~= second.take(n - 1).push(second[n - 1]));
    }
}

/// The stage is a function of the store and the geometry: with a geometry
/// that always gives the same answer to the same question, the store has
/// one outcome only.
pub proof fn lemma_run_determined<G: Geometry>(geometry: &G, before: Seq<EntityView>, first: Seq<
    EntityView,
>, second: Seq<EntityView>)
    requires
        is_function(geometry),
        is_run(geometry, before, first),
        is_run(geometry, before, second),
    ensures
        first == second,
{
    let start = PassModel::begin(before);
    let a = choose|answers: Seq<Answer>|
        #![trigger PassModel::begin(before).replay(answers)]
        {
            &&& PassModel::begin(before).expects(geometry, answers)
            &&& PassModel::begin(before).replay(answers).done()
            &&& PassModel::begin(before).replay(answers).world == first
        };
    let b = choose|answers: Seq<Answer>|
        #![trigger PassModel::begin(before).replay(answers)]
        {
            &&& PassModel::begin(before).expects(geometry, answers)
            &&& PassModel::begin(before).replay(answers).done()
            &&& PassModel::begin(before).replay(answers).world == second
        };
    let n = if a.len() <= b.len() {
        a.len() as int
    } else {
        b.len() as int
    };
    lemma_courses_agree(geometry, start, a, b, n);
    assert(a.take(a.len() as int) =~= a);
    assert(b.take(b.len() as int) =~= b);
    if a.len() < b.len() {
        lemma_expected_in_turn(geometry, start, b, n);
    } else if b.len() < a.len() {
        lemma_expected_in_turn(geometry, start, a, n);
    }
}

impl EntityView {
    /// Whether the two entities differ at most in where the simulation has them.
    pub open spec fn same_but_place(self, other: EntityView) -> bool {
        &&& self.sepax == other.sepax
        &&& self.movable == other.movable
        &&& self.no_collision == other.no_collision
        &&& self.translation is Some <==> other.translation is Some
    }
}

/// Whether the two stores differ at most in where the simulation has the entities.
pub open spec fn same_but_places(a: Seq<EntityView>, b: Seq<EntityView>) -> bool {
    &&& a.len() == b.len()
    &&& forall|i: int| 0 <= i < a.len() ==> (#[trigger] a[i]).same_but_place(b[i])
}

impl PassModel {
    /// Whether the two stages are at the same point and differ at most in
    /// where the simulation has the entities.
    pub open spec fn same_but_places(self, other: PassModel) -> bool {
        &&& self::same_but_places(self.world, other.world)
        &&& self.movers == other.movers
        &&& self.walls == other.walls
        &&& self.mover == other.mover
        &&& self.wall == other.wall
        &&& self.pending == other.pending
    }
}

/// The parts that entities play do not depend on where the simulation has them.
pub proof fn lemma_members_ignore_places(a: Seq<EntityView>, b: Seq<EntityView>, role: Role)
    requires
        same_but_places(a, b),
    ensures
        members(a, role) == members(b, role),
    decreases a.len(),
{
    if a.len() > 0 {
        assert(a[a.len() - 1].same_but_place(b[b.len() - 1]));
        assert forall|i: int| 0 <= i < a.drop_last().len() implies (#[trigger] a.drop_last()[i]).same_but_place(
            b.drop_last()[i],
        ) by {
            assert(a[i].same_but_place(b[i]));
        }
        lemma_members_ignore_places(a.drop_last(), b.drop_last(), role);
    }
}

/// The collision stage works on the shapes and never reads where the
/// simulation has the bodies: a body that was moved without its shape is
/// measured, and pushed, where its shape was left. Two stages that differ
/// at most in the bodies' places ask for the same measurement of the same
/// shapes, and stay alike under every answer; the body that an answer
/// moves is then the same in both.
pub proof fn lemma_places_are_not_read(a: PassModel, b: PassModel, answer: Answer)
    requires
        a.wf(),
        b.wf(),
        a.same_but_places(b),
    ensures
        a.action() == b.action(),
        a.action() is Measure ==> a.world[a.current_mover()].sepax == b.world[b.current_mover()].sepax
            && a.world[a.current_wall()].sepax == b.world[b.current_wall()].sepax,
        a.answered(answer).same_but_places(b.answered(answer)),
        a.awaits(answer) && answer is Measured ==> a.answered(answer).world[a.current_mover()]
            == b.answered(answer).world[b.current_mover()],
{
    let (next_a, next_b) = (a.answered(answer), b.answered(answer));
    if !a.done() {
        let mover = a.current_mover();
        assert(a.movers[a.mover] == mover);
        assert(a.world[mover].same_but_place(b.world[mover]));
        assert(a.world[a.walls[a.wall]].same_but_place(b.world[b.walls[b.wall]]));
        assert forall|i: int| 0 <= i < next_a.world.len() implies (#[trigger] next_a.world[i]).same_but_place(
            next_b.world[i],
        ) by {
            assert(a.world[i].same_but_place(b.world[i]));
        }
    }
}

/// Two stores that differ at most in the bodies' places begin the same stage.
pub proof fn lemma_begin_ignores_places(a: Seq<EntityView>, b: Seq<EntityView>)
    requires
        same_but_places(a, b),
    ensures
        PassModel::begin(a).same_but_places(PassModel::begin(b)),
{
    lemma_members_ignore_places(a, b, Role::Mover);
    lemma_members_ignore_places(a, b, Role::Wall);
}

} // verus!
