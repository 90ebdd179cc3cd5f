//! Workload planning for a development team: a calendar of working days and
//! an engine that spreads each developer's daily capacity over the tasks
//! assigned to them.
//!
//! - [`date`]: calendar dates as day numbers.
//! - [`overtime`]: the weekend days and single dates that are worked as
//!   overtime.
//! - [`calendar`]: the cache of holiday facts and the rule that says
//!   whether a date is worked.
//! - [`holiday_sync`]: keeping the cache in step with the holiday source,
//!   one year at a time.
//! - [`allocation`]: the engine that replays a developer's days and places
//!   the effort of each task before its deadline.
//! - [`laws`]: what holds of every run of the engine.
//! - [`schedule`]: the workload of a developer and the events of the
//!   calendar display, from the records of the task store.
//! - [`models`], [`enums`]: the records and vocabularies of the task
//!   store.
//!
//! Amounts of work are whole numbers of units,
//! [`allocation::UNITS_PER_HOUR`] to the hour, so that every sum in the
//! engine is exact.

pub mod allocation;
pub mod calendar;
pub mod date;
pub mod enums;
pub mod error;
pub mod holiday_sync;
pub mod laws;
pub mod models;
pub mod overtime;
pub mod schedule;
pub mod text;
