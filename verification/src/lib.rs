//! Trivial time tracker for QubesOS: the qube that has the focus tells what
//! the time is spent on.
//!
//! - `switch`: reading focus-switch lines and deciding what each switch
//!   records, with the laws of the recorded intervals.
//! - `stats`: the statistics queries and the report table.
//! - `period`: the command line and the periods that statistics cover.
//! - `group`: statements that create groups and put qubes in them.
//! - `sql`: statements as plain values.
//! - `data_dir`: the error given when the data directory cannot be prepared.
//! - `text`: trimming, splitting, and reading and writing decimal integers.

pub mod data_dir;
pub mod group;
pub mod period;
pub mod sql;
pub mod stats;
pub mod switch;
pub mod text;
