//! The evolving population: individuals and the generational loop.

pub mod bird;
pub mod game;
