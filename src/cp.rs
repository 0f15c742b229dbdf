//! A constraint-programming model of a scheduling problem and a placeholder
//! solver for it.
pub mod variables;
pub mod model;
pub mod solver;
