//! Decisions around a run: who analyzes, how spawns end, what the start requires.

use runner::analyze::{
    analysis_outcome_line, check_analysis_prereqs, check_python_imports, find_repo_root,
    import_statement, resolve_python, run_post_matrix_analysis, should_run_analysis, AnalysisOutcome,
    AnalysisPaths, AnalysisPlan, DirProbe, ImportTrial,
};
use runner::matrix::require_initial_sync_complete;
use runner::spawn::{
    spawn_and_monitor, stderr_capture_path, ChildOutcome, ChildStatus, MonitorAction,
};
use runner::time::Duration;

#[test]
fn should_run_analysis_picks_lowest_sorted_name() {
    let runners = vec!["bob".to_string(), "alice".to_string()];
    assert!(should_run_analysis("alice", &runners));
    assert!(!should_run_analysis("bob", &runners));
}

#[test]
fn should_run_analysis_single_runner_is_always_chosen() {
    let runners = vec!["solo".to_string()];
    assert!(should_run_analysis("solo", &runners));
}

#[test]
fn should_run_analysis_handles_alpha_numeric_mix() {
    // Plain lexicographic sort -- digits beat letters in ASCII.
    let runners = vec!["a".to_string(), "1node".to_string(), "z".to_string()];
    assert!(should_run_analysis("1node", &runners));
    assert!(!should_run_analysis("a", &runners));
    assert!(!should_run_analysis("z", &runners));
}

#[test]
fn should_run_analysis_empty_runners_picks_nobody() {
    let runners: Vec<String> = Vec::new();
    assert!(!should_run_analysis("anyone", &runners));
}

#[test]
fn child_outcome_status_str() {
    assert_eq!(ChildOutcome::Success.status_str(), "success");
    assert_eq!(ChildOutcome::Failed(1).status_str(), "failed");
    assert_eq!(ChildOutcome::Timeout.status_str(), "timeout");
}

#[test]
fn child_outcome_exit_code() {
    assert_eq!(ChildOutcome::Success.exit_code(), 0);
    assert_eq!(ChildOutcome::Failed(42).exit_code(), 42);
    assert_eq!(ChildOutcome::Timeout.exit_code(), -1);
}

#[test]
fn require_initial_sync_complete_passes_when_no_peers_failed() {
    // No peers were listed as failed -- the run must be allowed to
    // proceed (single-runner runs and successful multi-runner runs both
    // hit this path).
    require_initial_sync_complete(&[]).expect("empty failed list must succeed");
}

#[test]
fn require_initial_sync_complete_fails_when_any_peer_has_zero_samples() {
    // One peer with zero samples -> Err. This is the load-bearing cross-machine latency without an offset measurement
    // is statistically meaningless and must NOT be silently produced.
    let err = require_initial_sync_complete(&["bob".to_string()])
        .expect_err("zero-sample peer must abort the run");
    let msg = err;
    assert!(
        msg.contains("initial clock-sync failed"),
        "error message should mention initial sync failure: {msg}"
    );
    assert!(
        msg.contains("bob"),
        "error message should name the failed peer: {msg}"
    );
}

#[test]
fn require_initial_sync_complete_fails_when_any_peer_in_a_set_failed() {
    // Even one failed peer in a larger set is fatal. Mixed success/
    // failure does not "average" -- analysis cannot correct one cross-
    // runner pair while leaving another uncorrected.
    let err = require_initial_sync_complete(&["bob".to_string(), "carol".to_string()])
        .expect_err("any failed peer must abort the run");
    let msg = err;
    assert!(msg.contains("bob") && msg.contains("carol"), "msg={msg}");
}

fn way_up(dirs: &[(&str, bool)]) -> Vec<DirProbe> {
    dirs.iter()
        .map(|(dir, has_script)| DirProbe {
            dir: dir.to_string(),
            has_script: *has_script,
        })
        .collect()
}

#[test]
fn find_repo_root_walks_up_to_analysis_dir() {
    // The analyzer stands one level above the folder of the runner.
    let way = way_up(&[("/repo/runner", false), ("/repo", true), ("/", false)]);
    assert_eq!(find_repo_root(&way), Some("/repo"));
}

#[test]
fn find_repo_root_returns_none_when_nothing_matches() {
    let way = way_up(&[("/tmp", false), ("/", false)]);
    assert_eq!(find_repo_root(&way), None);
}

#[test]
fn find_repo_root_looks_at_eight_folders_only() {
    let mut dirs: Vec<(&str, bool)> = vec![("/deep", false); 8];
    dirs.push(("/far", true));
    assert_eq!(find_repo_root(&way_up(&dirs)), None);
    dirs[7].1 = true;
    assert_eq!(find_repo_root(&way_up(&dirs)), Some("/deep"));
}

#[test]
fn resolve_python_finds_at_least_one_interpreter_when_present() {
    for (three, plain) in [(true, true), (true, false), (false, true), (false, false)] {
        match resolve_python(three, plain) {
            Ok(p) => assert!(p == "python3" || p == "python"),
            Err(msg) => assert!(
                msg.contains("python3") && msg.contains("python"),
                "error message must name both candidates: {msg}"
            ),
        }
    }
    assert_eq!(resolve_python(true, true), Ok("python3"));
    assert_eq!(resolve_python(false, true), Ok("python"));
    assert!(resolve_python(false, false).is_err());
}

fn names(list: &[&str]) -> Vec<String> {
    list.iter().map(|s| s.to_string()).collect()
}

#[test]
fn check_python_imports_succeeds_for_stdlib_modules() {
    let trial = ImportTrial::Ended {
        success: true,
        code: Some(0),
        stderr: String::new(),
    };
    check_python_imports("python3", &names(&["sys", "os"]), &trial)
        .expect("stdlib imports must succeed under a working Python");
    assert_eq!(import_statement(&names(&["sys", "os"])), "import sys, os");
}

#[test]
fn check_python_imports_errors_on_missing_module() {
    let probe = "definitely_not_a_real_module_xyz";
    let trial = ImportTrial::Ended {
        success: false,
        code: Some(1),
        stderr: format!("ModuleNotFoundError: No module named '{probe}'"),
    };
    let err = check_python_imports("python3", &names(&[probe]), &trial)
        .expect_err("importing a bogus module must fail");
    assert!(err.contains(probe), "{err}");
    assert!(err.contains("pip install -r analysis"), "{err}");
    assert!(err.contains("requirements.txt"), "{err}");
    assert!(err.contains("returned Some(1).\n"), "{err}");

    let not_started = ImportTrial::NotStarted {
        error: "no such file".to_string(),
    };
    let err = check_python_imports("python3", &names(&[probe]), &not_started).unwrap_err();
    assert!(err.starts_with("failed to spawn 'python3 -c \"import "), "{err}");
    assert!(err.contains("no such file"), "{err}");
}

#[test]
fn check_analysis_prereqs_asks_for_three_modules() {
    let failed = ImportTrial::Ended {
        success: false,
        code: None,
        stderr: "boom".to_string(),
    };
    let err = check_analysis_prereqs(Ok("python"), &failed).unwrap_err();
    assert!(err.contains("import polars, matplotlib, psutil"), "{err}");
    assert!(err.contains("returned None."), "{err}");
    let none = check_analysis_prereqs(Err("no python".to_string()), &failed).unwrap_err();
    assert_eq!(none, "no python");
    let fine = ImportTrial::Ended {
        success: true,
        code: Some(0),
        stderr: String::new(),
    };
    assert!(check_analysis_prereqs(Ok("python3"), &fine).is_ok());
}

#[test]
fn analysis_runs_on_the_first_runner_only() {
    let runners = names(&["bob", "alice"]);
    let paths = AnalysisPaths {
        script: "/repo/analysis/analyze.py",
        analysis_dir: "/repo/analysis",
        log_dir: "/logs/r",
        output_dir: "/logs/r/analysis",
    };
    match run_post_matrix_analysis("bob", &runners, "/repo", Some(paths), Ok("python3")) {
        AnalysisPlan::NotHere { line } => assert_eq!(
            line,
            "[runner:bob] --analyze-full set, but this runner is not the lowest-sorted name ('alice'); skipping analysis"
        ),
        other => panic!("{other:?}"),
    }
    match run_post_matrix_analysis("alice", &runners, "/repo", None, Ok("python3")) {
        AnalysisPlan::Skip { line } => assert!(line.contains("walking up from /repo;"), "{line}"),
        other => panic!("{other:?}"),
    }
    match run_post_matrix_analysis("alice", &runners, "/repo", Some(paths), Err("none".into())) {
        AnalysisPlan::Skip { line } => {
            assert_eq!(line, "[runner:alice] WARN: none; skipping analysis")
        }
        other => panic!("{other:?}"),
    }
    match run_post_matrix_analysis("alice", &runners, "/repo", Some(paths), Ok("python3")) {
        AnalysisPlan::Run {
            program,
            args,
            cwd,
            line,
        } => {
            assert_eq!(program, "python3");
            assert_eq!(cwd, "/repo/analysis");
            assert_eq!(
                args,
                names(&[
                    "/repo/analysis/analyze.py",
                    "/logs/r",
                    "--summary",
                    "--dump",
                    "--diagrams",
                    "--output",
                    "/logs/r/analysis"
                ])
            );
            assert_eq!(
                line,
                "[runner:alice] running analysis: python3 /repo/analysis/analyze.py /logs/r --summary --dump --diagrams --output /logs/r/analysis"
            );
        }
        other => panic!("{other:?}"),
    }
    assert_eq!(
        analysis_outcome_line("alice", &AnalysisOutcome::Exited(Some(2)), "/o"),
        "[runner:alice] WARN: analysis exited Some(2) (non-fatal; benchmark itself succeeded)"
    );
    assert_eq!(
        analysis_outcome_line("alice", &AnalysisOutcome::Success, "/o"),
        "[runner:alice] analysis complete: output in /o"
    );
}

#[test]
fn stderr_capture_path_uses_effective_and_runner_names() {
    let p = stderr_capture_path("/tmp/logs/run01", "v-qos2", "alice");
    assert_eq!(
        format!("{}/{}", p.dir, p.file_name),
        "/tmp/logs/run01/v-qos2-alice-stderr.txt"
    );
}

#[test]
fn timeout_kills_child() {
    let timeout = Duration::from_secs(2);
    assert_eq!(
        spawn_and_monitor(ChildStatus::Running, Duration::from_millis(1999), timeout),
        MonitorAction::Poll
    );
    assert_eq!(
        spawn_and_monitor(ChildStatus::Running, Duration::from_secs(2), timeout),
        MonitorAction::Kill
    );
}

#[test]
fn exit_is_reported_even_after_the_deadline() {
    let late = Duration::from_secs(9);
    let timeout = Duration::from_secs(2);
    let report = |code| spawn_and_monitor(ChildStatus::Exited(code), late, timeout);
    assert_eq!(report(Some(0)), MonitorAction::Report(ChildOutcome::Success));
    assert_eq!(report(Some(3)), MonitorAction::Report(ChildOutcome::Failed(3)));
    assert_eq!(report(None), MonitorAction::Report(ChildOutcome::Failed(-1)));
}
