//! Resource-allocation and scheduling kernel.
//!
//! Tasks made of ordered activities are placed on resources by a greedy
//! priority scheduler, ordered by dispatching rules, and improved by a genetic
//! algorithm over a dual-vector genome. Times are integers in milliseconds.
pub mod models;
pub mod text;
pub mod scheduler;
pub mod validation;
pub mod ga;
pub mod dispatching;
pub mod cp;
