//! Outcome of a spawned variant and the files that belong to it.

use crate::time::Duration;
use vstd::prelude::*;

verus! {

/// How a spawned variant ended.
#[derive(Debug, Clone, Copy, PartialEq, Eq, Structural)]
pub enum ChildOutcome {
    /// It exited with code 0.
    Success,
    /// It exited with another code, or without one (then -1).
    Failed(i32),
    /// It was killed at its deadline.
    Timeout,
}

impl ChildOutcome {
    /// The outcome as a word.
    pub open spec fn status(self) -> Seq<char> {
        match self {
            ChildOutcome::Success => "success"@,
            ChildOutcome::Failed(_) => "failed"@,
            ChildOutcome::Timeout => "timeout"@,
        }
    }

    /// The outcome as a number.
    pub open spec fn code(self) -> i32 {
        match self {
            ChildOutcome::Success => 0,
            ChildOutcome::Failed(code) => code,
            ChildOutcome::Timeout => -1i32,
        }
    }

    /// The word that stands for the outcome in messages and in the summary.
    pub fn status_str(&self) -> (r: &'static str)
        ensures
            r@ == self.status(),
    {
        match self {
            ChildOutcome::Success => "success",
            ChildOutcome::Failed(_) => "failed",
            ChildOutcome::Timeout => "timeout",
        }
    }

    /// The exit code that stands for the outcome.
    pub fn exit_code(&self) -> (r: i32)
        ensures
            r == self.code(),
    {
        match self {
            ChildOutcome::Success => 0,
            ChildOutcome::Failed(code) => *code,
            ChildOutcome::Timeout => -1,
        }
    }
}

/// What a look at the child showed.
#[derive(Debug, Clone, Copy, PartialEq, Eq)]
pub enum ChildStatus {
    /// It is still running.
    Running,
    /// It has exited, with this code where it has one.
    Exited(Option<i32>),
}

/// What to do after a look at the child.
#[derive(Debug, Clone, Copy, PartialEq, Eq)]
pub enum MonitorAction {
    /// Look again after a while.
    Poll,
    /// Report the outcome.
    Report(ChildOutcome),
    /// Kill the child, collect it and report a timeout.
    Kill,
}

/// The outcome of a child that has exited.
pub open spec fn outcome_of(code: Option<i32>) -> ChildOutcome {
    match code {
        Some(c) => if c == 0 {
            ChildOutcome::Success
        } else {
            ChildOutcome::Failed(c)
        },
        None => ChildOutcome::Failed(-1i32),
    }
}

/// One step of watching a child: its exit is reported even after the deadline,
/// and a child that still runs at the deadline is killed.
pub fn spawn_and_monitor(status: ChildStatus, elapsed: Duration, timeout: Duration) -> (r: MonitorAction)
    ensures
        r == (match status {
            ChildStatus::Exited(code) => MonitorAction::Report(outcome_of(code)),
            ChildStatus::Running => if elapsed.nanos >= timeout.nanos {
                MonitorAction::Kill
            } else {
                MonitorAction::Poll
            },
        }),
{
    match status {
        ChildStatus::Exited(code) => {
            let outcome = match code {
                Some(c) => if c == 0 {
                    ChildOutcome::Success
                } else {
                    ChildOutcome::Failed(c)
                },
                None => ChildOutcome::Failed(-1),
            };
            MonitorAction::Report(outcome)
        },
        ChildStatus::Running => if elapsed.nanos >= timeout.nanos {
            MonitorAction::Kill
        } else {
            MonitorAction::Poll
        },
    }
}

/// A file in a log folder.
#[derive(Debug, Clone, PartialEq, Eq)]
pub struct LogFile {
    /// The folder.
    pub dir: String,
    /// The name of the file in it.
    pub file_name: String,
}

/// The name of the file that captures a spawn's standard error.
pub open spec fn stderr_file_name(effective_name: Seq<char>, runner_name: Seq<char>) -> Seq<char> {
    effective_name + "-"@ + runner_name + "-stderr.txt"@
}

/// The name of a spawn's log.
pub open spec fn log_file_name(
    effective_name: Seq<char>,
    runner_name: Seq<char>,
    run: Seq<char>,
) -> Seq<char> {
    effective_name + "-"@ + runner_name + "-"@ + run + ".jsonl"@
}

/// The file that captures a spawn's standard error.
pub fn stderr_capture_path(log_subdir: &str, effective_name: &str, runner_name: &str) -> (r: LogFile)
    ensures
        r.dir@ == log_subdir@,
        r.file_name@ == stderr_file_name(effective_name@, runner_name@),
{
    let mut name = effective_name.to_owned();
    name.append("-");
    name.append(runner_name);
    name.append("-stderr.txt");
    LogFile { dir: log_subdir.to_owned(), file_name: name }
}

/// The name of a spawn's log.
pub fn log_name(effective_name: &str, runner_name: &str, run: &str) -> (r: String)
    ensures
        r@ == log_file_name(effective_name@, runner_name@, run@),
{
    let mut name = effective_name.to_owned();
    name.append("-");
    name.append(runner_name);
    name.append("-");
    name.append(run);
    name.append(".jsonl");
    name
}

/// The file of a spawn's log.
pub fn jsonl_log_path(log_subdir: &str, effective_name: &str, runner_name: &str, run: &str) -> (r: LogFile)
    ensures
        r.dir@ == log_subdir@,
        r.file_name@ == log_file_name(effective_name@, runner_name@, run@),
{
    LogFile { dir: log_subdir.to_owned(), file_name: log_name(effective_name, runner_name, run) }
}

/// How the end of a child is reported: a clean exit as a success with code 0, any other exit
/// as a failure with its code, an exit without a code as a failure with code -1, and a child
/// that was killed at its deadline as a timeout with code -1.
pub proof fn outcomes_in_full(code: Option<i32>)
    ensures
        ({
            let o = outcome_of(code);
            &&& code == Some(0i32) ==> o.status() == "success"@ && o.code() == 0
            &&& code is Some && code != Some(0i32) ==> o.status() == "failed"@ && o.code() == code->0
            &&& code is None ==> o.status() == "failed"@ && o.code() == -1
        }),
        ChildOutcome::Timeout.status() == "timeout"@ && ChildOutcome::Timeout.code() == -1,
{
}

/// How a child is watched: an exit is reported whenever it is seen, a child that still runs
/// is killed once its time is over, and is looked at again before that.
pub proof fn children_are_watched_until_their_time_is_over(
    status: ChildStatus,
    elapsed: Duration,
    timeout: Duration,
    r: MonitorAction,
)
    requires
        call_ensures(spawn_and_monitor, (status, elapsed, timeout), r),
    ensures
        status is Exited ==> r == MonitorAction::Report(outcome_of(status->Exited_0)),
        status is Running ==> (r is Kill <==> elapsed.nanos >= timeout.nanos),
        status is Running ==> r is Kill || r is Poll,
{
}

/// The files of a spawn are named by the spawn, its runner and, the log, its run.
pub proof fn files_are_named_by_spawn_and_runner(spawn: Seq<char>, runner: Seq<char>, run: Seq<char>)
    ensures
        stderr_file_name(spawn, runner) == spawn + "-"@ + runner + "-stderr.txt"@,
        log_file_name(spawn, runner, run) == spawn + "-"@ + runner + "-"@ + run + ".jsonl"@,
{
}

/// The files of a spawn lie in the folder of the run, under the names of the spawn and of the
/// runner.
pub proof fn files_of_a_spawn_lie_in_the_folder(
    folder: &str,
    spawn: &str,
    runner: &str,
    run: &str,
    errors: LogFile,
    log: LogFile,
    name: String,
)
    requires
        call_ensures(stderr_capture_path, (folder, spawn, runner), errors),
        call_ensures(jsonl_log_path, (folder, spawn, runner, run), log),
        call_ensures(log_name, (spawn, runner, run), name),
    ensures
        errors.dir@ == folder@ && log.dir@ == folder@,
        errors.file_name@ == spawn@ + "-"@ + runner@ + "-stderr.txt"@,
        log.file_name@ == spawn@ + "-"@ + runner@ + "-"@ + run@ + ".jsonl"@,
        name@ == log.file_name@,
{
    files_are_named_by_spawn_and_runner(spawn@, runner@, run@);
}

/// What a child that has ended is reported as: its status and its code.
pub proof fn outcomes_are_reported(o: &ChildOutcome, status: &'static str, code: i32)
    requires
        call_ensures(ChildOutcome::status_str, (o,), status),
        call_ensures(ChildOutcome::exit_code, (o,), code),
    ensures
        match *o {
            ChildOutcome::Success => status@ == "success"@ && code == 0,
            ChildOutcome::Failed(c) => status@ == "failed"@ && code == c,
            ChildOutcome::Timeout => status@ == "timeout"@ && code == -1,
        },
{
}

} // verus!
