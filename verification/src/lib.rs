//! Collision resolution for moving bodies among immovable convex shapes.
//!
//! A frame has three stages, in this order:
//!
//! 1. [`plugin::clear_correction_system`] drops the contacts that the last
//!    frame left on the moving bodies;
//! 2. [`plugin::update_movable_system`] puts the shape of every moving body
//!    where the simulation has moved the body;
//! 3. [`plugin::collision_system`] pushes every moving body out of every
//!    obstacle, one pairing after the other, and records for each push the
//!    direction away from the obstacle.
//!
//! The stages work on a [`world::World`] of entities. Coordinates are
//! binary32 numbers held as bit patterns ([`scalar::Scalar`]), which the
//! library stores and compares. The arithmetic on them and the separating
//! translation of two shapes are the host's part: it lends them to the
//! collision stage as a [`geometry::Geometry`], or drives the stage itself,
//! answer by answer, through a [`collision::CollisionPass`].
//!
//! What the stages do is stated over mathematical values: the views of the
//! store and its entities, and [`collision::PassModel`] for the collision
//! stage. What holds of the stage whatever the host answers is proved in
//! [`collision::laws`].

pub mod scalar;
pub mod shapes;
pub mod components;
pub mod world;
pub mod geometry;
pub mod collision;
pub mod plugin;
pub mod prelude;

pub use shapes::Convex;
