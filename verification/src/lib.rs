//! Verified core of the benchmark runner.

#![allow(unused_imports)]

pub mod analyze;
pub mod barrier_coord;
pub mod bignat;
pub mod cli_args;
pub mod clock_sync;
pub mod clock_sync_log;
pub mod config;
pub mod dimensions;
pub mod local_addrs;
pub mod matrix;
pub mod message;
pub mod names;
pub mod panic_hook;
pub mod peer_link;
pub mod progress;
pub mod progress_coord;
pub mod progress_eta;
pub mod protocol;
pub mod resume;
pub mod spawn;
pub mod spawn_job;
pub mod termination;
pub mod text;
pub mod time;
pub mod toml_value;
