//! The collision stage, one pairing at a time.
//!
//! Every moving body meets every obstacle once, in the order of the store:
//! the bodies in turn, and for each body the obstacles in turn. What an
//! obstacle does to a body is measured on their shapes as they are at that
//! moment, so each correction is seen by the pairings that follow it.
//!
//! The measuring is floating-point geometry and is not done here. A
//! [`CollisionPass`] says which pairing is to be measured next, takes the
//! measurement, moves the body, and decides whether the correction is long
//! enough to be normalised and kept as a contact.

pub mod model;
pub mod laws;
pub mod pass;

pub use self::model::{is_run, resolved, Action, Answer, PassModel, Role};
pub use self::pass::CollisionPass;
