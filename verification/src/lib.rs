//! Weekly workout schedules found by simulated annealing.
//!
//! A schedule is a list of days, each an ordered list of [`structs::RoutineEntry`].
//! The library scores a schedule against per-muscle volume targets, builds a
//! greedy starting schedule, proposes random neighbouring schedules and keeps
//! the book of the annealing search. All quantities are exact integers:
//! training volume is counted in quarter sets and cost in sixteenths of a
//! penalty point.

pub mod structs;
pub mod catalog;
pub mod recovery;
pub mod volume;
pub mod dormant;
pub mod cost;
pub mod laws;
pub mod random;
pub mod initial;
pub mod plan_laws;
pub mod moves;
pub mod perturb;
pub mod anneal;
pub mod report;
