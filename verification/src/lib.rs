//! Neuroevolution engine: a dense matrix, a three-layer feedforward network
//! built on it, and the generational selection and mutation loop that trains a
//! population of such networks.
//!
//! The engine is generic over the number type. Every arithmetic step goes
//! through the [`scalar::Scalar`] trait, and random draws are handed in as
//! closures, so the contracts below say which operation was applied to which
//! entries, whatever number type and random source a program plugs in.

pub mod error;
pub mod scalar;
pub mod matrix;
pub mod nn;
pub mod flappy;
pub mod renderer;
