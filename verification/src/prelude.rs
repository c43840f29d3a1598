//! The names that most users need.

pub use crate::collision::{Action, CollisionPass};
pub use crate::components::{Movable, NoCollision, Sepax};
pub use crate::geometry::Geometry;
pub use crate::plugin::{clear_correction_system, collision_system, run_frame, update_movable_system};
pub use crate::scalar::{Scalar, Vector};
pub use crate::shapes::{Capsule, Circle, Convex, Parallelogram, Polygon, AABB};
pub use crate::world::{Entity, World};
