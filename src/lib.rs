//! A slalom skiing simulation in fixed-point arithmetic: course generation,
//! physics integration, gate judging and the run state machine; and a small
//! in-memory store of persons with its users and their privileges.
pub mod course;
pub mod fixed;
pub mod persons;
pub mod physics;
pub mod simulation;
mod random;
pub mod tracker;
