//! The greedy priority scheduler, the stable ordering it uses, and integer
//! quality figures of a schedule.
pub mod order;
pub mod simple;
pub mod kpi;
