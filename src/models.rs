//! The shared data model: tasks, activities, resources, calendars,
//! transition matrices and schedules.
pub mod activity;
pub mod task;
pub mod schedule;
pub mod constraint;
pub mod calendar;
pub mod resource;
pub mod time_constraints;
