//! Schedules that scale services.

pub mod infra;
pub mod schedule;
