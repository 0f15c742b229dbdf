//! Dispatching rules: priority scores of tasks, and an engine that orders
//! tasks by one or several rules. A lower score means a higher priority.
pub mod context;
pub mod rules;
pub mod engine;
