//! Core of a small background-automation daemon: jobs ("systems") made of
//! shell stages run on calendar-naive recurrence schedules, captured output
//! is buffered and periodically drained into daily log files, and a tiny
//! control protocol (reload / flush / ping) mutates the live daemon state.
//!
//! Everything here is the decision-making part of the daemon: schedule
//! parsing and due-ness, the output buffer and its drain cycle, the control
//! dispatch, and configuration compilation. The process edges (sockets,
//! files, threads, subprocesses) live outside, in the surrounding binary.
use vstd::prelude::*;

pub mod args;
pub mod color;
pub mod command_builder;
pub mod command_stage;
pub mod config;
pub mod control;
pub mod output;
pub mod system_builder;
pub mod system_stage;
pub mod text;
pub mod toaster;
pub mod timefmt;

verus! {

} // verus!
