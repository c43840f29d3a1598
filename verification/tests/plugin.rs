use bevy_sepax2d::collision::{Action, CollisionPass};
use bevy_sepax2d::components::{Movable, NoCollision, Sepax};
use bevy_sepax2d::geometry::Geometry;
use bevy_sepax2d::plugin::{
    clear_correction_system, collision_system, run_frame, update_movable_system,
};
use bevy_sepax2d::scalar::{Scalar, Vector};
use bevy_sepax2d::shapes::{Capsule, Circle, Parallelogram, Polygon, AABB};
use bevy_sepax2d::world::{Entity, World};
use bevy_sepax2d::Convex;

fn s(x: f32) -> Scalar {
    Scalar::from_bits(x.to_bits())
}

fn fs(x: Scalar) -> f32 {
    f32::from_bits(x.to_bits())
}

fn v(p: (f32, f32)) -> Vector {
    (s(p.0), s(p.1))
}

fn f(p: Vector) -> (f32, f32) {
    (fs(p.0), fs(p.1))
}

fn float_equal(left: f32, right: f32) -> bool {
    return (left - right).abs() < 0.00001;
}

fn aabb(position: (f32, f32), width: f32, height: f32) -> Convex {
    Convex::AABB(AABB { position: v(position), width: s(width), height: s(height) })
}

fn circle(position: (f32, f32), radius: f32) -> Convex {
    Convex::Circle(Circle { position: v(position), radius: s(radius) })
}

fn wall(convex: Convex) -> Entity {
    Entity { sepax: Some(Sepax { convex }), movable: None, translation: None, no_collision: None }
}

fn mover(convex: Convex) -> Entity {
    let at = convex.position();
    Entity {
        sepax: Some(Sepax { convex }),
        movable: Some(Movable { axes: vec![] }),
        translation: Some(at),
        no_collision: None,
    }
}

fn excluded(mut entity: Entity) -> Entity {
    entity.no_collision = Some(NoCollision);
    entity
}

fn with_axes(mut entity: Entity, axes: &[(f32, f32)]) -> Entity {
    entity.movable = Some(Movable { axes: axes.iter().map(|&p| v(p)).collect() });
    entity
}

fn shape_at(world: &World, i: usize) -> (f32, f32) {
    f(world.entities[i].sepax.as_ref().unwrap().shape().position())
}

fn placed_at(world: &World, i: usize) -> (f32, f32) {
    f(world.entities[i].translation.unwrap())
}

fn contacts(world: &World, i: usize) -> Vec<(f32, f32)> {
    world.entities[i].movable.as_ref().unwrap().axes.iter().map(|&p| f(p)).collect()
}

fn geometry(convex: &Convex) -> Box<dyn sepax2d::Shape> {
    match convex {
        Convex::Polygon(p) => Box::new(sepax2d::polygon::Polygon::from_vertices(
            f(p.position),
            p.vertices.iter().map(|&q| f(q)).collect(),
        )),
        Convex::Circle(c) => Box::new(sepax2d::circle::Circle::new(f(c.position), fs(c.radius))),
        Convex::AABB(a) => {
            Box::new(sepax2d::aabb::AABB::new(f(a.position), fs(a.width), fs(a.height)))
        }
        Convex::Parallelogram(g) => {
            Box::new(sepax2d::parallelogram::Parallelogram::new(f(g.position), f(g.u), f(g.v)))
        }
        Convex::Capsule(c) => {
            Box::new(sepax2d::capsule::Capsule::new(f(c.position), f(c.arm), fs(c.radius)))
        }
    }
}

fn resolve(wall: &Convex, mover: &Convex) -> (f32, f32) {
    sepax2d::sat_collision(&*geometry(wall), &*geometry(mover))
}

fn overlap(a: &Convex, b: &Convex) -> bool {
    sepax2d::sat_overlap(&*geometry(a), &*geometry(b))
}

struct Sat;

impl Geometry for Sat {
    fn resolve(&self, wall: &Convex, mover: &Convex) -> Vector {
        v(resolve(wall, mover))
    }

    fn sum(&self, a: Scalar, b: Scalar) -> Scalar {
        s(fs(a) + fs(b))
    }

    fn product(&self, a: Scalar, b: Scalar) -> Scalar {
        s(fs(a) * fs(b))
    }

    fn square_root(&self, a: Scalar) -> Scalar {
        s(f32::sqrt(fs(a)))
    }

    fn quotient(&self, a: Scalar, b: Scalar) -> Scalar {
        s(fs(a) / fs(b))
    }
}

fn by_hand(world: World) -> World {
    let mut pass = CollisionPass::begin(world);
    loop {
        match pass.action() {
            Action::Measure { mover, wall } => {
                let entities = &pass.world().entities;
                let wall_shape = entities[wall].sepax.as_ref().unwrap().shape();
                let mover_shape = entities[mover].sepax.as_ref().unwrap().shape();
                let correction = resolve(wall_shape, mover_shape);
                let old_position = f(mover_shape.position());
                let new_position = (old_position.0 + correction.0, old_position.1 + correction.1);
                let length =
                    f32::sqrt((correction.0 * correction.0) + (correction.1 * correction.1));
                pass = pass.measured(v(correction), v(new_position), s(length));
            }
            Action::Normalize { translation, length, .. } => {
                let (correction, length) = (f(translation), fs(length));
                pass = pass.normalized(v((correction.0 / length, correction.1 / length)));
            }
            Action::Done => return pass.finish(),
        }
    }
}

fn run_collision_stage(world: World) -> World {
    let mut world = world;
    collision_system(&mut world, &Sat);
    world
}

fn frame(world: World) -> World {
    let mut world = world;
    run_frame(&mut world, &Sat);
    world
}

fn pairings(world: World) -> Vec<(usize, usize)> {
    let mut pass = CollisionPass::begin(world);
    let mut seen = Vec::new();
    loop {
        match pass.action() {
            Action::Measure { mover, wall } => {
                seen.push((mover, wall));
                let at = pass.world().entities[mover].sepax.as_ref().unwrap().shape().position();
                pass = pass.measured(v((0.0, 0.0)), at, s(0.0));
            }
            Action::Normalize { .. } => unreachable!(),
            Action::Done => return seen,
        }
    }
}

#[test]
fn clearing_drops_every_contact() {
    let mut world = World {
        entities: vec![
            with_axes(mover(aabb((0.0, 0.0), 1.0, 1.0)), &[(-1.0, 0.0), (0.0, 1.0)]),
            wall(aabb((5.0, 5.0), 1.0, 1.0)),
            with_axes(mover(circle((2.0, 2.0), 1.0)), &[]),
            excluded(with_axes(mover(circle((3.0, 3.0), 1.0)), &[(0.0, -1.0)])),
            Entity {
                sepax: None,
                movable: Some(Movable { axes: vec![v((1.0, 0.0)); 7] }),
                translation: None,
                no_collision: None,
            },
        ],
    };
    clear_correction_system(&mut world);
    assert_eq!(world.entities.len(), 5);
    assert!(contacts(&world, 0).is_empty());
    assert!(world.entities[1].movable.is_none());
    assert!(contacts(&world, 2).is_empty());
    assert!(contacts(&world, 3).is_empty());
    assert!(contacts(&world, 4).is_empty());
    let movable = world.entities[0].movable.as_ref().unwrap();
    assert!(!movable.left() && !movable.right() && !movable.above() && !movable.below());
}

#[test]
fn clearing_touches_nothing_else() {
    let mut world = World {
        entities: vec![
            with_axes(mover(aabb((0.5, -0.5), 1.0, 2.0)), &[(-1.0, 0.0)]),
            wall(aabb((5.0, 5.0), 1.0, 1.0)),
            excluded(wall(circle((1.0, 1.0), 3.0))),
        ],
    };
    world.entities[0].translation = Some(v((8.0, 9.0)));
    let walls_before = format!("{:?}", &world.entities[1..]);
    clear_correction_system(&mut world);
    assert_eq!(shape_at(&world, 0), (0.5, -0.5));
    assert_eq!(placed_at(&world, 0), (8.0, 9.0));
    assert!(world.entities[0].no_collision.is_none());
    assert_eq!(format!("{:?}", &world.entities[1..]), walls_before);
}

#[test]
fn clearing_an_empty_store_does_nothing() {
    let mut world = World { entities: vec![] };
    clear_correction_system(&mut world);
    assert!(world.entities.is_empty());
}

#[test]
fn syncing_puts_the_shape_where_the_body_is() {
    let mut body = mover(aabb((0.0, 0.0), 1.0, 1.0));
    body.translation = Some(v((3.0, -4.0)));
    let mut opted_out = excluded(mover(circle((1.0, 1.0), 2.0)));
    opted_out.translation = Some(v((-7.5, 0.25)));
    let mut world = World { entities: vec![body, opted_out] };
    update_movable_system(&mut world);
    assert_eq!(shape_at(&world, 0), (3.0, -4.0));
    assert_eq!(placed_at(&world, 0), (3.0, -4.0));
    assert_eq!(shape_at(&world, 1), (-7.5, 0.25));
    assert!(world.entities[1].no_collision.is_some());
    match &world.entities[0].sepax.as_ref().unwrap().convex {
        Convex::AABB(a) => assert_eq!((fs(a.width), fs(a.height)), (1.0, 1.0)),
        other => panic!("the kind changed: {other:?}"),
    }
}

#[test]
fn syncing_leaves_everything_else_alone() {
    let mut obstacle = wall(aabb((1.0, 1.0), 1.0, 1.0));
    obstacle.translation = Some(v((50.0, 50.0)));
    let mut unplaced = mover(circle((2.0, 2.0), 1.0));
    unplaced.translation = None;
    let shapeless = Entity {
        sepax: None,
        movable: Some(Movable { axes: vec![v((0.0, 1.0))] }),
        translation: Some(v((9.0, 9.0))),
        no_collision: None,
    };
    let mut body = with_axes(mover(aabb((0.0, 0.0), 1.0, 1.0)), &[(0.0, 1.0)]);
    body.translation = Some(v((4.0, 4.0)));
    let mut world = World { entities: vec![obstacle, unplaced, shapeless, body] };
    update_movable_system(&mut world);
    assert_eq!(shape_at(&world, 0), (1.0, 1.0));
    assert_eq!(placed_at(&world, 0), (50.0, 50.0));
    assert_eq!(shape_at(&world, 1), (2.0, 2.0));
    assert!(world.entities[1].translation.is_none());
    assert!(world.entities[2].sepax.is_none());
    assert_eq!(contacts(&world, 2), vec![(0.0, 1.0)]);
    assert_eq!(shape_at(&world, 3), (4.0, 4.0));
    assert_eq!(contacts(&world, 3), vec![(0.0, 1.0)]);
}

#[test]
fn syncing_moves_every_kind_of_shape() {
    let kinds = vec![
        Convex::Polygon(Polygon {
            position: v((0.0, 0.0)),
            vertices: vec![v((0.0, -2.0)), v((-1.0, 2.0)), v((1.0, 2.0))],
        }),
        circle((0.0, 0.0), 2.0),
        aabb((0.0, 0.0), 5.0, 5.0),
        Convex::Parallelogram(Parallelogram {
            position: v((0.0, 0.0)),
            u: v((2.0, 1.0)),
            v: v((0.0, -2.0)),
        }),
        Convex::Capsule(Capsule { position: v((0.0, 0.0)), arm: v((1.0, 0.0)), radius: s(2.0) }),
    ];
    let mut world = World {
        entities: kinds
            .into_iter()
            .map(|convex| {
                let mut body = mover(convex);
                body.translation = Some(v((-1.0, -1.0)));
                body
            })
            .collect(),
    };
    update_movable_system(&mut world);
    for i in 0..5 {
        assert_eq!(shape_at(&world, i), (-1.0, -1.0));
    }
}

#[test]
fn shapes_that_do_not_overlap_are_left_as_they_are() {
    let obstacle = aabb((10.0, 10.0), 2.0, 2.0);
    let body = aabb((0.0, -0.0), 1.0, 1.0);
    assert!(!overlap(&obstacle, &body));
    let zero = resolve(&obstacle, &body);
    assert!(zero.0 == 0.0 && zero.1 == 0.0);

    let world = World {
        entities: vec![
            wall(obstacle),
            with_axes(mover(body), &[(0.0, 1.0)]),
            wall(circle((-20.0, 3.0), 1.5)),
        ],
    };
    let world = run_collision_stage(world);
    assert_eq!(v(shape_at(&world, 1)), v((0.0, -0.0)));
    assert_eq!(v(placed_at(&world, 1)), v((0.0, -0.0)));
    assert_eq!(contacts(&world, 1), vec![(0.0, 1.0)]);
    assert_eq!(shape_at(&world, 0), (10.0, 10.0));
    assert_eq!(shape_at(&world, 2), (-20.0, 3.0));
}

#[test]
fn a_measurement_of_no_length_leaves_no_contact() {
    let world = World {
        entities: vec![mover(aabb((1.0, 2.0), 1.0, 1.0)), wall(aabb((9.0, 9.0), 1.0, 1.0))],
    };
    let pass = CollisionPass::begin(world);
    assert!(matches!(pass.action(), Action::Measure { mover: 0, wall: 1 }));
    let pass = pass.measured(v((0.0, 0.0)), v((1.0, 2.0)), s(0.0));
    assert!(matches!(pass.action(), Action::Done));
    let world = pass.finish();
    assert_eq!(shape_at(&world, 0), (1.0, 2.0));
    assert_eq!(placed_at(&world, 0), (1.0, 2.0));
    assert!(contacts(&world, 0).is_empty());
}

#[test]
fn a_length_within_epsilon_leaves_no_contact() {
    for length in [f32::EPSILON, f32::EPSILON / 2.0, -1.0, f32::NAN, -0.0, f32::NEG_INFINITY] {
        let world = World {
            entities: vec![mover(aabb((1.0, 2.0), 1.0, 1.0)), wall(aabb((9.0, 9.0), 1.0, 1.0))],
        };
        let pass = CollisionPass::begin(world).measured(v((length, 0.0)), v((1.5, 2.0)), s(length));
        assert!(matches!(pass.action(), Action::Done));
        let world = pass.finish();
        assert_eq!(shape_at(&world, 0), (1.5, 2.0));
        assert_eq!(placed_at(&world, 0), (1.5, 2.0));
        assert!(contacts(&world, 0).is_empty());
    }
}

#[test]
fn a_length_beyond_epsilon_asks_for_the_normal() {
    let world = World {
        entities: vec![mover(aabb((1.0, 2.0), 1.0, 1.0)), wall(aabb((1.5, 2.0), 1.0, 1.0))],
    };
    let just_beyond = f32::from_bits(f32::EPSILON.to_bits() + 1);
    let pass = CollisionPass::begin(world).measured(v((3.0, 4.0)), v((4.0, 6.0)), s(just_beyond));
    match pass.action() {
        Action::Normalize { mover, translation, length } => {
            assert_eq!(mover, 0);
            assert_eq!(f(translation), (3.0, 4.0));
            assert_eq!(fs(length), just_beyond);
        }
        other => panic!("unexpected {other:?}"),
    }
    assert_eq!(shape_at(pass.world(), 0), (4.0, 6.0));
    assert_eq!(placed_at(pass.world(), 0), (4.0, 6.0));
    assert!(contacts(pass.world(), 0).is_empty());
    let pass = pass.normalized(v((0.6, 0.8)));
    assert!(matches!(pass.action(), Action::Done));
    assert_eq!(contacts(pass.world(), 0), vec![(0.6, 0.8)]);
}

#[test]
fn a_correction_is_normalised_to_a_unit_vector() {
    let world = World {
        entities: vec![mover(circle((3.0, 4.0), 6.0)), wall(circle((0.0, 0.0), 4.0))],
    };
    let world = run_collision_stage(world);
    let normals = contacts(&world, 0);
    assert_eq!(normals.len(), 1);
    assert!(float_equal(normals[0].0, 0.6));
    assert!(float_equal(normals[0].1, 0.8));
    let moved = shape_at(&world, 0);
    assert!(float_equal(moved.0, 6.0));
    assert!(float_equal(moved.1, 8.0));
    assert_eq!(placed_at(&world, 0), moved);
}

#[test]
fn every_contact_has_length_one() {
    let world = World {
        entities: vec![
            wall(aabb((-10.0, -1.0), 20.0, 1.0)),
            wall(circle((3.0, 1.0), 1.25)),
            wall(Convex::Polygon(Polygon {
                position: v((-2.0, 0.5)),
                vertices: vec![v((0.0, -2.0)), v((-1.0, 2.0)), v((1.0, 2.0))],
            })),
            wall(Convex::Capsule(Capsule {
                position: v((0.5, 1.5)),
                arm: v((1.0, 0.5)),
                radius: s(0.75),
            })),
            wall(Convex::Parallelogram(Parallelogram {
                position: v((1.0, -0.5)),
                u: v((2.0, 1.0)),
                v: v((0.5, 2.0)),
            })),
            mover(circle((0.3, 0.2), 1.0)),
            mover(aabb((2.2, 0.4), 1.5, 0.7)),
            mover(Convex::Capsule(Capsule {
                position: v((-1.5, 0.1)),
                arm: v((0.3, 0.9)),
                radius: s(0.5),
            })),
        ],
    };
    let world = run_collision_stage(world);
    let mut seen = 0;
    for i in 5..8 {
        for (x, y) in contacts(&world, i) {
            let length = f32::sqrt(x * x + y * y);
            assert!((length - 1.0).abs() <= f32::EPSILON, "{x} {y} has length {length}");
            seen += 1;
        }
    }
    assert!(seen >= 3);
}

#[test]
fn landing_on_flat_ground_pushes_up() {
    let world = World {
        entities: vec![wall(aabb((-10.0, -1.0), 20.0, 1.0)), mover(aabb((0.0, -0.25), 1.0, 1.0))],
    };
    let world = run_collision_stage(world);
    assert_eq!(contacts(&world, 1), vec![(0.0, 1.0)]);
    assert_eq!(shape_at(&world, 1), (0.0, 0.0));
    assert_eq!(placed_at(&world, 1), (0.0, 0.0));
    let movable = world.entities[1].movable.as_ref().unwrap();
    assert!(movable.below());
    assert!(!movable.above() && !movable.left() && !movable.right());
    assert_eq!(shape_at(&world, 0), (-10.0, -1.0));
}

#[test]
fn the_stage_without_the_sync_works_on_the_stale_shape() {
    let ground = || wall(aabb((-10.0, -1.0), 20.0, 1.0));
    let moved_body = || {
        let mut body = mover(aabb((0.0, 5.0), 1.0, 1.0));
        body.translation = Some(v((0.0, -0.25)));
        body
    };

    let world = run_collision_stage(World { entities: vec![ground(), moved_body()] });
    assert_eq!(shape_at(&world, 1), (0.0, 5.0));
    assert_eq!(placed_at(&world, 1), (0.0, 5.0));
    assert!(contacts(&world, 1).is_empty());

    let mut world = World { entities: vec![ground(), moved_body()] };
    update_movable_system(&mut world);
    assert_eq!(shape_at(&world, 1), (0.0, -0.25));
    let world = run_collision_stage(world);
    assert_eq!(shape_at(&world, 1), (0.0, 0.0));
    assert_eq!(placed_at(&world, 1), (0.0, 0.0));
    assert_eq!(contacts(&world, 1), vec![(0.0, 1.0)]);
}

#[test]
fn corrections_follow_one_another() {
    let first = || aabb((1.5, -5.0), 5.0, 12.0);
    let second = || aabb((-5.0, 1.5), 12.0, 5.0);
    let body = || aabb((0.0, 0.0), 2.0, 2.0);
    assert!(overlap(&first(), &body()));
    assert!(overlap(&second(), &body()));

    let world = World { entities: vec![wall(first()), wall(second()), mover(body())] };
    let world = run_collision_stage(world);
    let both = shape_at(&world, 2);
    assert_eq!(contacts(&world, 2).len(), 2);
    assert_eq!(contacts(&world, 2), vec![(-1.0, 0.0), (0.0, -1.0)]);
    assert_eq!(both, (-0.5, -0.5));
    assert_eq!(placed_at(&world, 2), both);

    let world = run_collision_stage(World { entities: vec![wall(first()), mover(body())] });
    let first_alone = shape_at(&world, 1);
    assert_eq!(first_alone, (-0.5, 0.0));
    assert!(overlap(&second(), &world.entities[1].sepax.as_ref().unwrap().convex));

    let world = run_collision_stage(World { entities: vec![wall(second()), mover(body())] });
    let second_alone = shape_at(&world, 1);
    assert_eq!(second_alone, (0.0, -0.5));

    assert_ne!(both, first_alone);
    assert_ne!(both, second_alone);

    let movable = world.entities[1].movable.as_ref().unwrap();
    assert!(movable.above() && !movable.right());
}

#[test]
fn a_later_correction_can_undo_an_earlier_one() {
    let left = || aabb((-3.0, -5.0), 3.5, 10.0);
    let right = || aabb((1.0, -5.0), 3.0, 10.0);
    let body = || aabb((0.0, 0.0), 1.0, 1.0);
    let world = World { entities: vec![wall(left()), wall(right()), mover(body())] };
    let world = run_collision_stage(world);
    assert_eq!(contacts(&world, 2), vec![(1.0, 0.0), (-1.0, 0.0)]);
    assert_eq!(shape_at(&world, 2), (0.0, 0.0));
    assert!(overlap(&left(), &world.entities[2].sepax.as_ref().unwrap().convex));
    let movable = world.entities[2].movable.as_ref().unwrap();
    assert!(movable.left() && movable.right());
}

#[test]
fn pairings_come_in_the_order_of_the_store() {
    let world = World {
        entities: vec![
            wall(aabb((0.0, 0.0), 1.0, 1.0)),
            mover(aabb((0.0, 0.0), 1.0, 1.0)),
            wall(circle((0.0, 0.0), 1.0)),
            excluded(mover(aabb((0.0, 0.0), 1.0, 1.0))),
            excluded(wall(aabb((0.0, 0.0), 1.0, 1.0))),
            mover(circle((0.0, 0.0), 1.0)),
            wall(aabb((0.0, 0.0), 1.0, 1.0)),
        ],
    };
    assert_eq!(pairings(world), vec![(1, 0), (1, 2), (1, 6), (5, 0), (5, 2), (5, 6)]);
}

#[test]
fn only_whole_moving_bodies_are_pushed() {
    let mut unplaced = mover(aabb((0.0, 0.0), 1.0, 1.0));
    unplaced.translation = None;
    let shapeless = Entity {
        sepax: None,
        movable: Some(Movable { axes: vec![] }),
        translation: Some(v((0.0, 0.0))),
        no_collision: None,
    };
    let bare = Entity { sepax: None, movable: None, translation: None, no_collision: None };
    let mut placed_wall = wall(aabb((0.0, 0.0), 1.0, 1.0));
    placed_wall.translation = Some(v((0.0, 0.0)));
    let world = World {
        entities: vec![unplaced, shapeless, bare, placed_wall, mover(circle((0.0, 0.0), 1.0))],
    };
    assert_eq!(pairings(world), vec![(4, 3)]);
}

#[test]
fn a_stage_without_pairings_is_done_at_once() {
    let no_walls = World {
        entities: vec![mover(aabb((0.0, 0.0), 1.0, 1.0)), mover(circle((0.0, 0.0), 1.0))],
    };
    assert!(matches!(CollisionPass::begin(no_walls).action(), Action::Done));
    let no_movers = World {
        entities: vec![wall(aabb((0.0, 0.0), 1.0, 1.0)), wall(circle((0.0, 0.0), 1.0))],
    };
    assert!(matches!(CollisionPass::begin(no_movers).action(), Action::Done));
    let nothing = World { entities: vec![] };
    let pass = CollisionPass::begin(nothing);
    assert!(matches!(pass.action(), Action::Done));
    assert!(pass.finish().entities.is_empty());
}

#[test]
fn entities_that_opted_out_take_no_part() {
    let world = World {
        entities: vec![
            excluded(wall(aabb((-10.0, -1.0), 20.0, 1.0))),
            mover(aabb((0.0, -0.25), 1.0, 1.0)),
            excluded(mover(aabb((0.0, -0.25), 1.0, 1.0))),
            wall(aabb((-10.0, -11.0), 20.0, 1.0)),
        ],
    };
    let world = run_collision_stage(world);
    assert_eq!(shape_at(&world, 1), (0.0, -0.25));
    assert!(contacts(&world, 1).is_empty());
    assert_eq!(shape_at(&world, 2), (0.0, -0.25));
    assert!(contacts(&world, 2).is_empty());
}

#[test]
fn moving_bodies_do_not_push_each_other() {
    let world = World {
        entities: vec![mover(aabb((0.0, 0.0), 1.0, 1.0)), mover(aabb((0.5, 0.5), 1.0, 1.0))],
    };
    let world = run_collision_stage(world);
    assert_eq!(shape_at(&world, 0), (0.0, 0.0));
    assert_eq!(shape_at(&world, 1), (0.5, 0.5));
    assert!(contacts(&world, 0).is_empty());
    assert!(contacts(&world, 1).is_empty());
}

#[test]
fn an_answer_that_is_not_awaited_changes_nothing() {
    let world = World {
        entities: vec![mover(aabb((1.0, 2.0), 1.0, 1.0)), wall(aabb((1.5, 2.0), 1.0, 1.0))],
    };
    let pass = CollisionPass::begin(world).normalized(v((1.0, 0.0)));
    assert!(matches!(pass.action(), Action::Measure { mover: 0, wall: 1 }));
    assert!(contacts(pass.world(), 0).is_empty());

    let pass = pass.measured(v((-0.5, 0.0)), v((0.5, 2.0)), s(0.5));
    assert!(matches!(pass.action(), Action::Normalize { mover: 0, .. }));
    let pass = pass.measured(v((7.0, 7.0)), v((7.0, 7.0)), s(7.0));
    match pass.action() {
        Action::Normalize { translation, length, .. } => {
            assert_eq!(f(translation), (-0.5, 0.0));
            assert_eq!(fs(length), 0.5);
        }
        other => panic!("unexpected {other:?}"),
    }
    assert_eq!(shape_at(pass.world(), 0), (0.5, 2.0));

    let pass = pass.normalized(v((-1.0, 0.0)));
    assert!(matches!(pass.action(), Action::Done));
    let pass = pass.normalized(v((0.0, 1.0))).measured(v((1.0, 1.0)), v((9.0, 9.0)), s(1.0));
    assert!(matches!(pass.action(), Action::Done));
    let world = pass.finish();
    assert_eq!(contacts(&world, 0), vec![(-1.0, 0.0)]);
    assert_eq!(shape_at(&world, 0), (0.5, 2.0));
}

#[test]
fn contacts_are_added_to_those_already_there() {
    let world = World {
        entities: vec![
            wall(aabb((-10.0, -1.0), 20.0, 1.0)),
            with_axes(mover(aabb((0.0, -0.25), 1.0, 1.0)), &[(1.0, 0.0)]),
        ],
    };
    let world = run_collision_stage(world);
    assert_eq!(contacts(&world, 1), vec![(1.0, 0.0), (0.0, 1.0)]);
}

#[test]
fn a_frame_clears_then_syncs_then_resolves() {
    let mut body = with_axes(mover(aabb((0.0, 5.0), 1.0, 1.0)), &[(-1.0, 0.0), (0.0, -1.0)]);
    body.translation = Some(v((0.0, -0.25)));
    let world = World { entities: vec![wall(aabb((-10.0, -1.0), 20.0, 1.0)), body] };
    let world = frame(world);
    assert_eq!(contacts(&world, 1), vec![(0.0, 1.0)]);
    assert_eq!(shape_at(&world, 1), (0.0, 0.0));
    assert_eq!(placed_at(&world, 1), (0.0, 0.0));

    let mut world = world;
    world.entities[1].translation = Some(v((3.0, 3.0)));
    let world = frame(world);
    assert!(contacts(&world, 1).is_empty());
    assert_eq!(shape_at(&world, 1), (3.0, 3.0));
    assert_eq!(placed_at(&world, 1), (3.0, 3.0));
}

#[test]
fn residual_overlap_is_carried_into_the_next_frame() {
    let left = || aabb((-3.0, -5.0), 3.5, 10.0);
    let right = || aabb((1.0, -5.0), 3.0, 10.0);
    let world = World {
        entities: vec![wall(right()), wall(left()), mover(aabb((0.0, 0.0), 1.0, 1.0))],
    };
    let world = frame(world);
    assert_eq!(shape_at(&world, 2), (0.5, 0.0));
    assert!(overlap(&right(), &world.entities[2].sepax.as_ref().unwrap().convex));
    let world = frame(world);
    assert_eq!(contacts(&world, 2).len(), 2);
    assert_eq!(shape_at(&world, 2), (0.5, 0.0));
}

#[test]
fn the_stage_is_the_steps_taken_in_turn() {
    let store = || World {
        entities: vec![
            wall(aabb((-10.0, -1.0), 20.0, 1.0)),
            mover(circle((0.3, 0.2), 1.0)),
            wall(circle((3.0, 1.0), 1.25)),
            excluded(wall(aabb((0.0, 0.0), 4.0, 4.0))),
            mover(aabb((2.2, 0.4), 1.5, 0.7)),
            wall(Convex::Capsule(Capsule {
                position: v((0.5, 1.5)),
                arm: v((1.0, 0.5)),
                radius: s(0.75),
            })),
            mover(aabb((40.0, 40.0), 1.0, 1.0)),
        ],
    };
    let stepped = by_hand(store());
    let run = run_collision_stage(store());
    assert_eq!(format!("{:?}", run), format!("{:?}", stepped));
    assert!(!contacts(&run, 1).is_empty());
    assert!(contacts(&run, 6).is_empty());
    assert_eq!(shape_at(&run, 6), (40.0, 40.0));
}

#[test]
fn the_body_and_its_shape_agree_after_the_stage() {
    let mut body = mover(aabb((0.0, 0.0), 2.0, 2.0));
    body.translation = Some(v((77.0, 77.0)));
    let mut far = mover(circle((50.0, 50.0), 1.0));
    far.translation = Some(v((-3.0, -3.0)));
    let world = World {
        entities: vec![wall(aabb((1.5, -5.0), 5.0, 12.0)), body, far],
    };
    let world = run_collision_stage(world);
    assert_eq!(shape_at(&world, 1), (-0.5, 0.0));
    assert_eq!(placed_at(&world, 1), (-0.5, 0.0));
    assert_eq!(shape_at(&world, 2), (50.0, 50.0));
    assert_eq!(placed_at(&world, 2), (50.0, 50.0));
}

#[test]
fn without_an_obstacle_the_stage_changes_nothing() {
    let mut body = with_axes(mover(aabb((0.0, 0.0), 2.0, 2.0)), &[(0.0, 1.0)]);
    body.translation = Some(v((77.0, 77.0)));
    let world = World { entities: vec![body, excluded(wall(aabb((0.0, 0.0), 1.0, 1.0)))] };
    let before = format!("{:?}", world);
    let world = run_collision_stage(world);
    assert_eq!(format!("{:?}", world), before);
}

struct Push(f32, f32);

impl Geometry for Push {
    fn resolve(&self, _wall: &Convex, _mover: &Convex) -> Vector {
        v((self.0, self.1))
    }

    fn sum(&self, a: Scalar, b: Scalar) -> Scalar {
        s(fs(a) + fs(b))
    }

    fn product(&self, a: Scalar, b: Scalar) -> Scalar {
        s(fs(a) * fs(b))
    }

    fn square_root(&self, a: Scalar) -> Scalar {
        s(f32::sqrt(fs(a)))
    }

    fn quotient(&self, a: Scalar, b: Scalar) -> Scalar {
        s(fs(a) / fs(b))
    }
}

#[test]
fn the_stage_adds_the_translation_and_divides_it_by_its_length() {
    let mut world = World {
        entities: vec![
            wall(aabb((0.0, 0.0), 1.0, 1.0)),
            mover(circle((1.0, -2.0), 1.0)),
            wall(aabb((0.0, 0.0), 1.0, 1.0)),
        ],
    };
    collision_system(&mut world, &Push(3.0, 4.0));
    assert_eq!(shape_at(&world, 1), (7.0, 6.0));
    assert_eq!(placed_at(&world, 1), (7.0, 6.0));
    assert_eq!(contacts(&world, 1), vec![(3.0 / 5.0, 4.0 / 5.0), (3.0 / 5.0, 4.0 / 5.0)]);
    assert_eq!(shape_at(&world, 0), (0.0, 0.0));
    assert_eq!(shape_at(&world, 2), (0.0, 0.0));
}

#[test]
fn a_translation_no_longer_than_epsilon_moves_the_body_and_leaves_no_contact() {
    let mut world = World {
        entities: vec![wall(aabb((0.0, 0.0), 1.0, 1.0)), mover(circle((1.0, -2.0), 1.0))],
    };
    collision_system(&mut world, &Push(f32::EPSILON, 0.0));
    assert_eq!(shape_at(&world, 1), (1.0 + f32::EPSILON, -2.0));
    assert_eq!(placed_at(&world, 1), (1.0 + f32::EPSILON, -2.0));
    assert!(contacts(&world, 1).is_empty());

    let beyond = f32::from_bits(f32::EPSILON.to_bits() + 1);
    let mut world = World {
        entities: vec![wall(aabb((0.0, 0.0), 1.0, 1.0)), mover(circle((1.0, -2.0), 1.0))],
    };
    collision_system(&mut world, &Push(0.0, -beyond));
    assert_eq!(contacts(&world, 1), vec![(0.0, -1.0)]);
}

#[test]
fn a_zero_translation_is_never_divided() {
    struct NoDivision;

    impl Geometry for NoDivision {
        fn resolve(&self, _wall: &Convex, _mover: &Convex) -> Vector {
            v((0.0, -0.0))
        }

        fn sum(&self, a: Scalar, b: Scalar) -> Scalar {
            s(fs(a) + fs(b))
        }

        fn product(&self, a: Scalar, b: Scalar) -> Scalar {
            s(fs(a) * fs(b))
        }

        fn square_root(&self, a: Scalar) -> Scalar {
            s(f32::sqrt(fs(a)))
        }

        fn quotient(&self, _a: Scalar, _b: Scalar) -> Scalar {
            panic!("a division was asked for")
        }
    }

    let mut world = World {
        entities: vec![
            wall(aabb((0.0, 0.0), 1.0, 1.0)),
            with_axes(mover(circle((1.0, -2.0), 1.0)), &[(1.0, 0.0)]),
            wall(circle((0.0, 0.0), 1.0)),
        ],
    };
    collision_system(&mut world, &NoDivision);
    assert_eq!(shape_at(&world, 1), (1.0, -2.0));
    assert_eq!(contacts(&world, 1), vec![(1.0, 0.0)]);
}
