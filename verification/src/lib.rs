//! A small two-dimensional particle engine built on Verlet integration.
//!
//! Point masses move under accumulated forces, are held together by springs
//! that correct positions directly, and can be pinned in place. A world
//! advances every object it owns by one step per call of `update`.
//!
//! # How the engine is verified
//!
//! The verifier does not reason about floating point, so the engine does
//! not compute with numbers itself. It keeps each number as the bits of its
//! binary32 encoding ([`scalar::Scalar`]) and asks an
//! [`arithmetic::Arithmetic`] for every sum, product, quotient and root.
//! Nothing is assumed of that arithmetic. Every contract says which
//! operation was applied to which operands and in what order, as a relation
//! between the operands and what the arithmetic returned; everything else
//! is proved outright: which particles, springs and constraints exist, in
//! what order they are worked on, which particles a step can move, and that
//! a step never fails.
//!
//! # Modules
//!
//! - [`scalar`], [`arithmetic`], [`vector2d`]: numbers and vectors.
//! - [`particle2d`], [`spring`]: point masses and the springs between them.
//! - [`behaviors`], [`constraints`]: forces on all particles, rules on one.
//! - [`store`]: the particles of an object under stable keys.
//! - [`objects`]: objects, the relations that describe one step, and
//!   builders for lines and sheets.
//! - [`physics2d`]: the world.
//! - [`laws`], [`determinism`]: what holds of every step.
pub mod arithmetic;
pub mod behaviors;
pub mod constraints;
pub mod determinism;
pub mod laws;
pub mod objects;
pub mod particle2d;
pub mod physics2d;
pub mod scalar;
pub mod spring;
pub mod store;
pub mod vector2d;
