pub mod geometry;
pub mod predator;
mod random;
pub mod simulation;
pub mod wanderer;
