//! The three stages of a frame, in the order in which a frame runs them:
//! the contacts of the last frame are dropped, the shapes of the moving
//! bodies are put where the simulation has moved the bodies, and the bodies
//! are pushed out of the obstacles.

use vstd::prelude::*;
use vstd::pervasive::unreached;
use crate::collision::laws::{lemma_replay_follows, lemma_stage_ends};
use crate::collision::model::{answers_left, is_run, resolved, Action, Answer, PassModel};
use crate::collision::pass::CollisionPass;
use crate::geometry::Geometry;
use crate::world::{EntityView, World};

verus! {

/// The store after the contacts of every moving body have been dropped.
pub open spec fn cleared(world: Seq<EntityView>) -> Seq<EntityView> {
    Seq::new(world.len(), |i: int| world[i].cleared())
}

/// The store after every moving body's shape has been put where the
/// simulation has the body.
pub open spec fn synced(world: Seq<EntityView>) -> Seq<EntityView> {
    Seq::new(world.len(), |i: int| world[i].synced())
}

/// After the contacts have been dropped no entity has any, whatever it had
/// before, and nothing else about it has changed.
pub proof fn lemma_cleared_has_no_contacts(world: Seq<EntityView>, i: int)
    requires
        0 <= i < world.len(),
    ensures
        cleared(world).len() == world.len(),
        cleared(world)[i].movable is Some <==> world[i].movable is Some,
        cleared(world)[i].movable is Some ==> cleared(world)[i].movable->0.len() == 0,
        cleared(world)[i].sepax == world[i].sepax,
        cleared(world)[i].translation == world[i].translation,
        cleared(world)[i].no_collision == world[i].no_collision,
{
}

/// After the shapes have been synced, the shape of every moving body is
/// where the simulation has the body, with its kind and silhouette as
/// before; every other entity, and everything else, is unchanged.
pub proof fn lemma_synced_shapes_follow(world: Seq<EntityView>, i: int)
    requires
        0 <= i < world.len(),
    ensures
        synced(world).len() == world.len(),
        world[i].is_tracked() ==> synced(world)[i].sepax == Some(
            world[i].sepax->0.with_position(world[i].translation->0),
        ) && synced(world)[i].sepax->0.position() == world[i].translation->0,
        !world[i].is_tracked() ==> synced(world)[i] == world[i],
        synced(world)[i].movable == world[i].movable,
        synced(world)[i].translation == world[i].translation,
        synced(world)[i].no_collision == world[i].no_collision,
{
}

/// Drops the contacts that the last frame left on the moving bodies.
pub fn clear_correction_system(world: &mut World)
    ensures
        final(world)@ == cleared(old(world)@),
        forall|i: int|
            0 <= i < final(world)@.len() && (#[trigger] final(world)@[i]).movable is Some
                ==> final(world)@[i].movable->0.len() == 0,
{
    let mut i: usize = 0;
    while i < world.entities.len()
        invariant
            i <= world.entities.len(),
            world.entities.len() == old(world).entities.len(),
            forall|j: int| 0 <= j < i ==> world@[j] == (#[trigger] old(world)@[j]).cleared(),
            forall|j: int| i <= j < world.entities.len() ==> world@[j] == #[trigger] old(world)@[j],
        decreases world.entities.len() - i,
    {
        match &mut world.entities[i].movable {
            Some(movable) => {
                movable.axes.clear();
            },
            None => {},
        }
        i += 1;
    }
    assert(world@ =~= cleared(old(world)@));
}

/// Puts the shape of every moving body where the simulation has the body.
pub fn update_movable_system(world: &mut World)
    ensures
        final(world)@ == synced(old(world)@),
{
    let mut i: usize = 0;
    while i < world.entities.len()
        invariant
            i <= world.entities.len(),
            world.entities.len() == old(world).entities.len(),
            forall|j: int| 0 <= j < i ==> world@[j] == (#[trigger] old(world)@[j]).synced(),
            forall|j: int| i <= j < world.entities.len() ==> world@[j] == #[trigger] old(world)@[j],
        decreases world.entities.len() - i,
    {
        let entity = &mut world.entities[i];
        if entity.movable.is_some() {
            match (entity.translation, &mut entity.sepax) {
                (Some(position), Some(sepax)) => {
                    let shape = sepax.shape_mut();
                    shape.set_position(position);
                },
                _ => {},
            }
        }
        i += 1;
    }
    assert(world@ =~= synced(old(world)@));
}

/// Pushes every moving body out of every obstacle, one pairing after the
/// other in the order of the store, and records for each push that is
/// longer than the machine epsilon the direction away from the obstacle.
///
/// For a pairing, `geometry` gives the translation that separates the two
/// shapes as they are then. The body's shape and its place in the
/// simulation move by it, so that the pairings that follow see the body
/// where the earlier ones have left it. The translation divided by its
/// length becomes a contact; one that is no longer than the machine
/// epsilon is not divided and leaves none.
pub fn collision_system<G: Geometry>(world: &mut World, geometry: &G)
    ensures
        is_run(geometry, old(world)@, final(world)@),
        resolved(old(world)@, final(world)@),
{
    let ghost before = world@;
    let ghost start = PassModel::begin(before);
    let ghost answers: Seq<Answer> = Seq::empty();
    let mut store = World { entities: Vec::new() };
    core::mem::swap(world, &mut store);
    let mut pass = CollisionPass::begin(store);
    loop
        invariant
            start == PassModel::begin(before),
            start.expects(geometry, answers),
            pass@ == start.replay(answers),
        ensures
            start.expects(geometry, answers),
            pass@ == start.replay(answers),
            pass@.done(),
        decreases answers_left(pass@),
    {
        let ghost model = pass@;
        let ghost so_far = answers;
        match pass.action() {
            Action::Measure { mover, wall } => {
                let store = pass.world();
                let entities = &store.entities;
                assert(store@[mover as int].is_mover() && store@[wall as int].is_wall()) by {
                    assert(store@.len() == entities.len());
                    assert(0 <= model.movers[model.mover] < store@.len());
                    assert(0 <= model.walls[model.wall] < store@.len());
                }
                let (correction, new_position) = match (
                    &entities[wall].sepax,
                    &entities[mover].sepax,
                ) {
                    (Some(obstacle), Some(body)) => {
                        let shape = body.shape();
                        let correction = geometry.resolve(obstacle.shape(), shape);
                        let old_position = shape.position();
                        let new_position = (
                            geometry.sum(old_position.0, correction.0),
                            geometry.sum(old_position.1, correction.1),
                        );
                        (correction, new_position)
                    },
                    _ => unreached(),
                };
                let xx = geometry.product(correction.0, correction.0);
                let yy = geometry.product(correction.1, correction.1);
                let squares = geometry.sum(xx, yy);
                let length = geometry.square_root(squares);
                proof {
                    let answer = Answer::Measured {
                        translation: correction,
                        position: new_position,
                        length,
                    };
                    let obstacle = entities@[wall as int].sepax->0.convex;
                    let body = entities@[mover as int].sepax->0.convex;
                    assert(obstacle@ == model.world[model.current_wall()].sepax->0);
                    assert(body@ == model.world[model.current_mover()].sepax->0);
                    assert(call_ensures(G::resolve, (geometry, &obstacle, &body), correction));
                    assert(call_ensures(G::sum, (geometry, xx, yy), squares));
                    assert(model.admits(geometry, answer));
                    answers = so_far.push(answer);
                    assert(answers.drop_last() =~= so_far);
                    lemma_stage_ends(model, correction, new_position, length, correction);
                }
                pass = pass.measured(correction, new_position, length);
            },
            Action::Normalize { translation, length, .. } => {
                let normal = (
                    geometry.quotient(translation.0, length),
                    geometry.quotient(translation.1, length),
                );
                proof {
                    let answer = Answer::Normalized { normal };
                    assert(model.admits(geometry, answer));
                    answers = so_far.push(answer);
                    assert(answers.drop_last() =~= so_far);
                    lemma_stage_ends(model, normal, normal, length, normal);
                }
                pass = pass.normalized(normal);
            },
            Action::Done => {
                break ;
            },
        }
    }
    proof {
        lemma_replay_follows(before, answers);
    }
    *world = pass.finish();
}

/// Runs the three stages of a frame in their order.
pub fn run_frame<G: Geometry>(world: &mut World, geometry: &G)
    ensures
        is_run(geometry, synced(cleared(old(world)@)), final(world)@),
        resolved(synced(cleared(old(world)@)), final(world)@),
{
    clear_correction_system(world);
    update_movable_system(world);
    collision_system(world, geometry);
}

} // verus!
