//! A coarse-grained recurring-task scheduler library.
//!
//! Callers describe a cadence either as a fixed interval or as a short
//! temporal expression ("Day 05:00:00", "Week 1 05:00:00", "Month 15 05:00:00"),
//! and the library computes the next absolute instant at which the cadence
//! fires, in either the local or the UTC reference frame.  The per-task
//! scheduling decisions (how long to sleep, when a task completes or is
//! cancelled) are made by the engine state machine in this crate; an
//! embedding runtime drives the loops and performs the actual waiting.

pub use crate::uuid::IDMode;

pub mod calendar;
pub mod engine;
pub mod occurrence;
pub mod parsers;
pub mod errors;
pub mod schedule;
pub mod uuid;
pub mod wallclock;
