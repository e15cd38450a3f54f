//! A counter that is very fast and of no use.
//!
//! The library holds everything that decides what the program does: the
//! counting cores, the split of a count over workers, the command line, the
//! help page and the reports. Reading the clock, running threads and writing
//! to the terminal are left to the program around it.

pub mod args;
pub mod count;
pub mod dispatch;
pub mod help;
pub mod options;
pub mod pool;
pub mod reading;
pub mod report;
pub mod session;
pub mod stats;
pub mod text;
