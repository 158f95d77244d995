//! A bounded two-dimensional arena of rigid bodies with proximity sensing.
//!
//! The rigid-body solver is `rapier2d`. This crate owns the solver state,
//! keeps the logical entities in step with it, holds every body inside the
//! arena, and answers which rival body is nearest to a sensor.
//!
//! The solver computes in single precision, and this crate does not: it
//! carries the solver's numbers as encodings ([`scalar::Scalar`]) and
//! compares encodings as the numbers compare. The corners of an outline
//! are whole numbers ([`solver::GridPoint`]), and times are whole
//! microseconds.
//!
//! - [`world`] is the physics world, over the boundary in [`solver`].
//! - [`containment`] holds a coordinate in the arena; [`outline`] tells a
//!   convex outline; [`sensing`] chooses the nearest of the sensed.
//! - [`agent`] and [`element`] are the entities and their registries, and
//!   [`sim`] is the tick that drives them.
pub mod agent;
pub mod chance;
pub mod consts;
pub mod containment;
pub mod element;
pub mod kinetic;
pub mod neuro;
pub mod outline;
pub mod scalar;
pub mod sensing;
pub mod sim;
pub mod solver;
pub mod source;
pub mod timer;
pub mod util;
pub mod world;
