//! The logs of the clock measurements: one line for each measurement, and beside it a
//! debug log with one line for each probe.

use crate::clock_sync::{is_stamp, stamp_now, OffsetMeasurement, RawSample};
use crate::spawn::LogFile;
use vstd::prelude::*;

verus! {

/// The logs of one runner in one run.
#[derive(Debug, Clone, PartialEq, Eq)]
pub struct ClockSyncLogger {
    log_dir: String,
    runner: String,
    run: String,
}

/// What every line begins with.
#[derive(Debug, PartialEq, Eq)]
pub struct LineHead {
    pub ts: String,
    /// The spawn, or an empty text for the measurement at the start.
    pub variant: String,
    pub runner: String,
    pub run: String,
    pub peer: String,
}

/// A line of the log of measurements.
#[derive(Debug, PartialEq, Eq)]
pub struct SummaryLine {
    pub head: LineHead,
    pub offset_ns: i64,
    pub rtt_ns: i64,
    pub samples: usize,
    pub min_rtt_ns: i64,
    pub max_rtt_ns: i64,
    pub outlier_rejected: bool,
}

/// A line of the debug log. A probe without an answer has neither offset nor round trip,
/// and its line says neither.
#[derive(Debug, PartialEq, Eq)]
pub struct SampleLine {
    pub head: LineHead,
    pub sample_index: usize,
    pub t1_ns: i64,
    pub t2_ns: i64,
    pub t3_ns: i64,
    pub t4_ns: i64,
    pub offset_ns: Option<i64>,
    pub rtt_ns: Option<i64>,
    pub accepted: bool,
    pub outlier_rejected: bool,
    /// The word for what became of the probe.
    pub result: &'static str,
}

/// The lines of one measurement.
#[derive(Debug, PartialEq, Eq)]
pub struct LogLines {
    pub summary: Option<SummaryLine>,
    pub debug: Vec<SampleLine>,
}

/// The head says this.
pub open spec fn is_head(
    h: LineHead,
    ts: Seq<char>,
    variant: Seq<char>,
    runner: Seq<char>,
    run: Seq<char>,
    peer: Seq<char>,
) -> bool {
    h.ts@ == ts && h.variant@ == variant && h.runner@ == runner && h.run@ == run && h.peer@ == peer
}

/// The line is the one of probe number `i`.
pub open spec fn is_sample_line(line: SampleLine, i: int, raw: RawSample, outlier_rejected: bool) -> bool {
    &&& line.sample_index == i
    &&& line.t1_ns == raw.t1_ns
    &&& line.t2_ns == raw.t2_ns
    &&& line.t3_ns == raw.t3_ns
    &&& line.t4_ns == raw.t4_ns
    &&& line.offset_ns == raw.offset_ns
    &&& line.rtt_ns == raw.rtt_ns
    &&& line.accepted == raw.accepted
    &&& line.outlier_rejected == outlier_rejected
    &&& line.result@ == raw.result.word()
}

/// The measurement was an outlier.
pub open spec fn rejected(m: Option<&OffsetMeasurement>) -> bool {
    match m {
        Some(m) => m.outlier_rejected,
        None => false,
    }
}

/// The lines are those of a measurement at the time `ts`: one for the measurement, where
/// there is one, and one for each probe, in order.
pub open spec fn lines_say(
    lines: LogLines,
    ts: Seq<char>,
    variant: Seq<char>,
    runner: Seq<char>,
    run: Seq<char>,
    peer: Seq<char>,
    m: Option<&OffsetMeasurement>,
    attempts: Seq<RawSample>,
) -> bool {
    &&& match (m, lines.summary) {
        (None, None) => true,
        (Some(x), Some(line)) => {
            &&& is_head(line.head, ts, variant, runner, run, peer)
            &&& line.offset_ns == x.offset_ns
            &&& line.rtt_ns == x.rtt_ns
            &&& line.samples == x.samples
            &&& line.min_rtt_ns == x.min_rtt_ns
            &&& line.max_rtt_ns == x.max_rtt_ns
            &&& line.outlier_rejected == x.outlier_rejected
        },
        _ => false,
    }
    &&& lines.debug@.len() == attempts.len()
    &&& forall|i: int|
        0 <= i < lines.debug@.len() ==> is_head(
            (#[trigger] lines.debug@[i]).head,
            ts,
            variant,
            runner,
            run,
            peer,
        ) && is_sample_line(lines.debug@[i], i, attempts[i], rejected(m))
}

/// The name of the log of measurements.
pub open spec fn canonical_name(runner: Seq<char>, run: Seq<char>) -> Seq<char> {
    runner + "-clock-sync-"@ + run + ".jsonl"@
}

/// The name of the debug log.
pub open spec fn debug_name(runner: Seq<char>, run: Seq<char>) -> Seq<char> {
    runner + "-clock-sync-debug-"@ + run + ".jsonl"@
}

fn join3(a: &str, b: &str, c: &str) -> (r: String)
    ensures
        r@ == a@ + b@ + c@ + ".jsonl"@,
{
    let mut s = a.to_owned();
    s.append(b);
    s.append(c);
    s.append(".jsonl");
    s
}

/// The logs of a runner in a log folder.
pub fn open_clock_sync_log(log_dir: &str, runner: &str, run: &str) -> (r: ClockSyncLogger)
    ensures
        r.dir_name() == log_dir@,
        r.runner_name() == runner@,
        r.run_name() == run@,
{
    ClockSyncLogger { log_dir: log_dir.to_owned(), runner: runner.to_owned(), run: run.to_owned() }
}

impl ClockSyncLogger {
    /// The log folder.
    pub closed spec fn dir_name(&self) -> Seq<char> {
        self.log_dir@
    }

    /// The runner.
    pub closed spec fn runner_name(&self) -> Seq<char> {
        self.runner@
    }

    /// The run.
    pub closed spec fn run_name(&self) -> Seq<char> {
        self.run@
    }

    /// The file of the measurements.
    pub fn path(&self) -> (r: LogFile)
        ensures
            r.dir@ == self.dir_name(),
            r.file_name@ == canonical_name(self.runner_name(), self.run_name()),
    {
        LogFile {
            dir: self.log_dir.clone(),
            file_name: join3(self.runner.as_str(), "-clock-sync-", self.run.as_str()),
        }
    }

    /// The file of the debug log.
    pub fn debug_path(&self) -> (r: LogFile)
        ensures
            r.dir@ == self.dir_name(),
            r.file_name@ == debug_name(self.runner_name(), self.run_name()),
    {
        LogFile {
            dir: self.log_dir.clone(),
            file_name: join3(self.runner.as_str(), "-clock-sync-debug-", self.run.as_str()),
        }
    }

    fn head(&self, ts: &str, variant: &str, peer: &str) -> (r: LineHead)
        ensures
            is_head(r, ts@, variant@, self.runner_name(), self.run_name(), peer@),
    {
        LineHead {
            ts: ts.to_owned(),
            variant: variant.to_owned(),
            runner: self.runner.clone(),
            run: self.run.clone(),
            peer: peer.to_owned(),
        }
    }

    /// The lines of a measurement at the time `ts`: one for the measurement, where there
    /// is one, and in any case one for each probe.
    pub fn lines_at(
        &self,
        ts: &str,
        variant: &str,
        peer: &str,
        m: Option<&OffsetMeasurement>,
        attempts: &[RawSample],
    ) -> (r: LogLines)
        ensures
            lines_say(
                r,
                ts@,
                variant@,
                self.runner_name(),
                self.run_name(),
                peer@,
                m,
                attempts@,
            ),
    {
        let outlier_rejected: bool = match m {
            Some(x) => x.outlier_rejected,
            None => false,
        };
        let summary: Option<SummaryLine> = match m {
            Some(x) => Some(
                SummaryLine {
                    head: self.head(ts, variant, peer),
                    offset_ns: x.offset_ns,
                    rtt_ns: x.rtt_ns,
                    samples: x.samples,
                    min_rtt_ns: x.min_rtt_ns,
                    max_rtt_ns: x.max_rtt_ns,
                    outlier_rejected: x.outlier_rejected,
                },
            ),
            None => None,
        };
        let mut debug: Vec<SampleLine> = Vec::new();
        for i in 0..attempts.len()
            invariant
                debug@.len() == i,
                outlier_rejected == rejected(m),
                forall|k: int|
                    0 <= k < i ==> is_head(
                        (#[trigger] debug@[k]).head,
                        ts@,
                        variant@,
                        self.runner_name(),
                        self.run_name(),
                        peer@,
                    ) && is_sample_line(debug@[k], k, attempts@[k], rejected(m)),
        {
            let raw: RawSample = attempts[i];
            debug.push(
                SampleLine {
                    head: self.head(ts, variant, peer),
                    sample_index: i,
                    t1_ns: raw.t1_ns,
                    t2_ns: raw.t2_ns,
                    t3_ns: raw.t3_ns,
                    t4_ns: raw.t4_ns,
                    offset_ns: raw.offset_ns,
                    rtt_ns: raw.rtt_ns,
                    accepted: raw.accepted,
                    outlier_rejected,
                    result: raw.result.as_str(),
                },
            );
        }
        LogLines { summary, debug }
    }

    /// The lines of a measurement as of now. All of them carry the same time stamp, that
    /// of the clock at the call; which instant it shows depends on the clock.
    pub fn write(
        &self,
        variant: &str,
        peer: &str,
        m: Option<&OffsetMeasurement>,
        attempts: &[RawSample],
    ) -> (r: LogLines)
        ensures
            exists|ts: Seq<char>|
                is_stamp(ts) && #[trigger] lines_say(
                    r,
                    ts,
                    variant@,
                    self.runner_name(),
                    self.run_name(),
                    peer@,
                    m,
                    attempts@,
                ),
    {
        let ts = stamp_now();
        self.lines_at(ts.as_str(), variant, peer, m, attempts)
    }
}

/// What is logged of a measurement: the line of the measurement, where there is one, shows
/// just its figures, and the line of each probe just that of the probe's row; all of them
/// name the time, the spawn, the runner, the run and the peer.
pub proof fn lines_show_the_measurement(
    lines: LogLines,
    ts: Seq<char>,
    variant: Seq<char>,
    runner: Seq<char>,
    run: Seq<char>,
    peer: Seq<char>,
    m: Option<&OffsetMeasurement>,
    attempts: Seq<RawSample>,
)
    requires
        lines_say(lines, ts, variant, runner, run, peer, m, attempts),
    ensures
        lines.summary is Some <==> m is Some,
        m is Some ==> {
            let line = lines.summary->0;
            &&& line.offset_ns == m->0.offset_ns && line.rtt_ns == m->0.rtt_ns
            &&& line.samples == m->0.samples
            &&& line.min_rtt_ns == m->0.min_rtt_ns && line.max_rtt_ns == m->0.max_rtt_ns
            &&& line.outlier_rejected == m->0.outlier_rejected
            &&& line.head.ts@ == ts && line.head.variant@ == variant && line.head.runner@ == runner
            &&& line.head.run@ == run && line.head.peer@ == peer
        },
        lines.debug@.len() == attempts.len(),
        forall|i: int|
            0 <= i < attempts.len() ==> {
                let line = #[trigger] lines.debug@[i];
                let row = attempts[i];
                &&& line.sample_index == i
                &&& line.t1_ns == row.t1_ns && line.t2_ns == row.t2_ns
                &&& line.t3_ns == row.t3_ns && line.t4_ns == row.t4_ns
                &&& line.offset_ns == row.offset_ns && line.rtt_ns == row.rtt_ns
                &&& line.accepted == row.accepted
                &&& line.outlier_rejected == (m is Some && m->0.outlier_rejected)
                &&& line.result@ == row.result.word()
                &&& line.head.ts@ == ts && line.head.variant@ == variant && line.head.runner@ == runner
                &&& line.head.run@ == run && line.head.peer@ == peer
            },
{
}

/// The two logs of a runner in a run have different names, which name both.
pub proof fn logs_are_named_by_runner_and_run(runner: Seq<char>, run: Seq<char>)
    ensures
        canonical_name(runner, run) == runner + "-clock-sync-"@ + run + ".jsonl"@,
        debug_name(runner, run) == runner + "-clock-sync-debug-"@ + run + ".jsonl"@,
{
}

/// The two logs of a runner lie in the folder that they were opened in, under the names of the
/// runner and of the run.
pub proof fn logs_lie_in_their_folder(
    dir: &str,
    runner: &str,
    run: &str,
    log: ClockSyncLogger,
    summary: LogFile,
    debug: LogFile,
)
    requires
        call_ensures(open_clock_sync_log, (dir, runner, run), log),
        call_ensures(ClockSyncLogger::path, (&log,), summary),
        call_ensures(ClockSyncLogger::debug_path, (&log,), debug),
    ensures
        summary.dir@ == dir@ && debug.dir@ == dir@,
        summary.file_name@ == runner@ + "-clock-sync-"@ + run@ + ".jsonl"@,
        debug.file_name@ == runner@ + "-clock-sync-debug-"@ + run@ + ".jsonl"@,
{
    logs_are_named_by_runner_and_run(runner@, run@);
}

/// The lines of a measurement carry the names that the logs were opened with, beside the stamp,
/// the variant and the peer, and show what was measured.
pub proof fn lines_carry_the_names_of_the_log(
    dir: &str,
    runner: &str,
    run: &str,
    log: ClockSyncLogger,
    ts: &str,
    variant: &str,
    peer: &str,
    m: &OffsetMeasurement,
    attempts: &[RawSample],
    r: LogLines,
)
    requires
        call_ensures(open_clock_sync_log, (dir, runner, run), log),
        call_ensures(ClockSyncLogger::lines_at, (&log, ts, variant, peer, Some(m), attempts), r),
    ensures
        r.summary is Some,
        r.summary->0.head.ts@ == ts@ && r.summary->0.head.variant@ == variant@,
        r.summary->0.head.runner@ == runner@ && r.summary->0.head.run@ == run@,
        r.summary->0.head.peer@ == peer@,
        r.summary->0.offset_ns == m.offset_ns && r.summary->0.rtt_ns == m.rtt_ns,
        r.debug@.len() == attempts@.len(),
{
    lines_show_the_measurement(r, ts@, variant@, runner@, run@, peer@, Some(m), attempts@);
}

} // verus!
