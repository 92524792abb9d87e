//! The command-line tool's own logic: its argument model, run statistics,
//! and the decisions of `clarion analyze`.

pub mod analyze;
pub mod args;
pub mod stats;
pub mod timestamp;
