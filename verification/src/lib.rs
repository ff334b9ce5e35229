//! A 2D gravity sandbox core: an N-body registry advanced by semi-implicit
//! Euler integration, a Keplerian orbit predictor for the player craft, and a
//! procedural star-system generator. All physics runs on fixed-point scalars
//! so that every operation has an exact integer semantics.

pub mod fixnum;
pub mod entities;
pub mod sim;
pub mod star_system_gen;
