//! A punch clock: tasks are started and stopped, and the time spent on each
//! is kept in a ledger.

pub mod args;
mod clock;
pub mod commands;
pub mod data;
pub mod duration;
pub mod error;
pub mod report;
pub mod table;
pub mod task_map;
pub mod text;
