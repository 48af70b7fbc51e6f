//! Date schedules and yield-curve pillar lookup for fixed-income pricing,
//! with calendar arithmetic delegated to chrono.

pub mod calendar;
pub mod dates;
pub mod rates;
