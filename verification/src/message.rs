//! The messages that runners exchange.

use vstd::prelude::*;

verus! {

/// One message between runners.
#[derive(Debug, Clone, PartialEq, Eq)]
pub enum Message {
    /// A runner announces itself, its config and the log folder it proposes.
    Discover { name: String, config_hash: String, log_subdir: String, resume: bool },
    /// A runner lists the jobs that it has complete logs of.
    ResumeManifest { name: String, run: String, complete_jobs: Vec<String> },
    /// A runner is ready to start a spawn.
    Ready { name: String, variant: String, run: String },
    /// A runner's spawn has ended.
    Done { name: String, variant: String, run: String, status: String, exit_code: i32 },
    /// A clock probe.
    ProbeRequest { from: String, to: String, id: u64, t1: String },
    /// The answer to a clock probe.
    ProbeResponse { from: String, to: String, id: u64, t1: String, t2: String, t3: String },
    /// The progress of a runner's spawn.
    ProgressUpdate {
        runner: String,
        spawn: String,
        phase: String,
        sent: u64,
        received: u64,
        eot_sent: bool,
        eot_received: bool,
        ts: String,
    },
}

} // verus!
