//! Genetic algorithm over a dual-vector genome: an operation sequence and a
//! machine assignment.
pub mod random;
pub mod chromosome;
pub mod operators;
pub mod population;
