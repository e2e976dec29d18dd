//! Resuming a run: folders, manifests, markers and clean-up.

use runner::names::{NameMap, NameSet};
use runner::resume::{
    classify_log, cleanup_incomplete_logs, compute_local_manifest, file_contains_completion_marker,
    find_latest_log_subdir, intersect_complete_jobs, must_clean, must_delete, scan_full_for_marker,
    scan_tail_for_marker, slice_contains, tail_start, LocalManifest, LogState, MarkerScan,
    ResumeError,
};

fn names(list: &[&str]) -> Vec<String> {
    list.iter().map(|s| s.to_string()).collect()
}

fn eot_sent_line() -> &'static [u8] {
    b"{\"event\":\"eot_sent\",\"eot_id\":12345,\"run\":\"r1\",\"runner\":\"self\",\"ts\":\"2026-05-12T15:22:36.856717500Z\",\"variant\":\"v1\"}\n"
}

fn phase_silent_line() -> &'static [u8] {
    b"{\"event\":\"phase\",\"phase\":\"silent\",\"run\":\"r1\",\"runner\":\"self\",\"ts\":\"2026-05-12T15:22:36.857735600Z\",\"variant\":\"v1\"}\n"
}

fn write_line() -> &'static [u8] {
    b"{\"bytes\":8,\"event\":\"write\",\"path\":\"/bench/0\",\"qos\":4,\"run\":\"r1\",\"runner\":\"self\",\"seq\":1,\"ts\":\"2026-05-12T15:22:00.000000000Z\",\"variant\":\"v1\"}\n"
}

const BUF: usize = 64 * 1024;

/// What a log with this content looks like, read as the runner reads it: the tail first,
/// then the whole in pieces.
fn state_of(content: Option<&[u8]>) -> LogState {
    match content {
        None => classify_log(None, false),
        Some(bytes) => {
            let size = bytes.len() as u64;
            let tail = scan_tail_for_marker(&bytes[tail_start(size) as usize..]);
            let pieces: Vec<Vec<u8>> = bytes.chunks(BUF).map(|c| c.to_vec()).collect();
            let full = scan_full_for_marker(&pieces);
            let marker = file_contains_completion_marker(size, Some(tail), Some(full));
            classify_log(Some(size), marker)
        }
    }
}

fn manifest_of(logs: &[(&str, Option<&[u8]>)]) -> LocalManifest {
    let jobs: Vec<String> = logs.iter().map(|(n, _)| n.to_string()).collect();
    let states: Vec<LogState> = logs.iter().map(|(_, c)| state_of(*c)).collect();
    let deleted: Vec<bool> = states.iter().map(|s| must_delete(*s)).collect();
    compute_local_manifest("self", "r1", &jobs, &states, &deleted)
}

#[test]
fn latest_subfolder_picks_lexicographically_greatest() {
    let folders = names(&[
        "run01-20260101_120000",
        "run01-20260301_080000",
        "run01-20260201_120000",
        "run02-20271231_235959",
        "other",
    ]);
    let pick = find_latest_log_subdir("logs", true, &folders, "run01").unwrap();
    assert_eq!(pick, "run01-20260301_080000");
}

#[test]
fn latest_subfolder_no_match_returns_error() {
    let folders = names(&["other", "run-something-else"]);
    let err = find_latest_log_subdir("logs", true, &folders, "run01").unwrap_err();
    assert!(err.message().contains("no log subfolder"), "{err:?}");
    assert_eq!(
        err.message(),
        "resume: no log subfolder under logs matches prefix 'run01-'"
    );
}

#[test]
fn latest_subfolder_missing_base_returns_error() {
    let err = find_latest_log_subdir("gone", false, &[], "run01").unwrap_err();
    assert_eq!(
        err,
        ResumeError::BaseMissing {
            base: "gone".to_string()
        }
    );
    assert!(err.message().contains("base log directory does not exist"));
}

#[test]
fn local_manifest_classifies_files_correctly() {
    let v1 = [write_line(), eot_sent_line()].concat();
    let v4 = write_line().repeat(50);
    let m = manifest_of(&[
        ("v1", Some(&v1)),
        ("v2", Some(b"")),
        ("v3", None),
        ("v4", Some(&v4)),
    ]);
    assert_eq!(m.complete_jobs, names(&["v1"]));
    assert_eq!(m.deleted_empty, names(&["v2-self-r1.jsonl"]));
    assert_eq!(m.deleted_partial, names(&["v4-self-r1.jsonl"]));
}

#[test]
fn local_manifest_complete_jobs_are_sorted_and_deduped() {
    let content = [write_line(), eot_sent_line()].concat();
    let m = manifest_of(&[
        ("gamma", Some(&content)),
        ("alpha", Some(&content)),
        ("alpha", Some(&content)),
        ("beta", Some(&content)),
    ]);
    assert_eq!(m.complete_jobs, names(&["alpha", "beta", "gamma"]));
}

#[test]
fn local_manifest_phase_silent_counts_as_complete() {
    let content = [write_line(), phase_silent_line()].concat();
    let m = manifest_of(&[("v1", Some(&content))]);
    assert_eq!(m.complete_jobs, names(&["v1"]));
    assert!(m.deleted_partial.is_empty());
    assert!(m.deleted_empty.is_empty());
}

#[test]
fn local_manifest_partial_only_writes_is_deleted() {
    let content = write_line().repeat(200);
    let m = manifest_of(&[("v1", Some(&content))]);
    assert!(m.complete_jobs.is_empty());
    assert_eq!(m.deleted_partial.len(), 1);
}

#[test]
fn local_manifest_marker_in_tail_classified_complete() {
    let mut content = Vec::new();
    while content.len() < 200 * 1024 {
        content.extend_from_slice(write_line());
    }
    content.extend_from_slice(eot_sent_line());
    assert!(content.len() > 64 * 1024);
    assert!(scan_tail_for_marker(
        &content[tail_start(content.len() as u64) as usize..]
    ));
    let m = manifest_of(&[("v1", Some(&content))]);
    assert_eq!(m.complete_jobs, names(&["v1"]));
}

#[test]
fn local_manifest_marker_outside_tail_full_scan_finds_it() {
    let mut content = [write_line(), eot_sent_line()].concat();
    let initial_len = content.len();
    while content.len() - initial_len < 200 * 1024 {
        content.extend_from_slice(write_line());
    }
    assert!(!scan_tail_for_marker(
        &content[tail_start(content.len() as u64) as usize..]
    ));
    let m = manifest_of(&[("v1", Some(&content))]);
    assert_eq!(m.complete_jobs, names(&["v1"]));
}

#[test]
fn local_manifest_large_file_no_marker_anywhere_is_partial() {
    let mut content = Vec::new();
    while content.len() < 200 * 1024 {
        content.extend_from_slice(write_line());
    }
    let m = manifest_of(&[("v1", Some(&content))]);
    assert!(m.complete_jobs.is_empty());
    assert_eq!(m.deleted_partial, names(&["v1-self-r1.jsonl"]));
}

/// A log with the line that holds the marker behind `head` bytes, and more behind it than
/// the tail holds.
fn log_with_marker_behind(head: usize) -> Vec<u8> {
    let marker = eot_sent_line();
    let mut content = Vec::new();
    while content.len() < head {
        content.extend_from_slice(write_line());
    }
    content.truncate(head);
    content.extend_from_slice(marker);
    while content.len() < BUF + marker.len() + 100 * 1024 {
        content.extend_from_slice(write_line());
    }
    content
}

#[test]
fn local_manifest_marker_straddles_buffer_boundary() {
    let content = log_with_marker_behind(BUF - eot_sent_line().len() / 2);
    let m = manifest_of(&[("v1", Some(&content))]);
    assert_eq!(m.complete_jobs, names(&["v1"]));
}

#[test]
fn marker_that_two_pieces_share_is_found() {
    let content = log_with_marker_behind(BUF - 10);
    assert!(!slice_contains(&content[..BUF], b"\"event\":\"eot_sent\""));
    assert!(!slice_contains(&content[BUF..], b"\"event\":\"eot_sent\""));
    let m = manifest_of(&[("v1", Some(&content))]);
    assert_eq!(m.complete_jobs, names(&["v1"]));
}

#[test]
fn local_manifest_missing_file_excluded_silently() {
    let m = manifest_of(&[("v1", None)]);
    assert!(m.complete_jobs.is_empty());
    assert!(m.deleted_empty.is_empty());
    assert!(m.deleted_partial.is_empty());
}

#[test]
fn marker_is_found_wherever_the_log_is_cut() {
    let content = [write_line(), phase_silent_line(), write_line()].concat();
    for cut in 0..content.len() {
        let mut scan = MarkerScan::new();
        let first = scan.feed(&content[..cut]);
        assert!(first || scan.feed(&content[cut..]), "cut at {cut}");
    }
    // byte by byte
    let mut scan = MarkerScan::new();
    assert!(content.iter().any(|b| scan.feed(&[*b])));
    let plain = write_line().repeat(3);
    let mut scan = MarkerScan::new();
    assert!(!plain.iter().any(|b| scan.feed(&[*b])));
}

#[test]
fn slice_contains_edges() {
    assert!(slice_contains(b"abc", b"abc"));
    assert!(slice_contains(b"abc", b"c"));
    assert!(!slice_contains(b"abc", b"abcd"));
    assert!(!slice_contains(b"abc", b""));
    assert!(!slice_contains(b"", b"a"));
    assert!(slice_contains(b"aab", b"ab"));
}

#[test]
fn unreadable_logs_have_no_marker() {
    assert!(!file_contains_completion_marker(10, None, None));
    assert!(file_contains_completion_marker(10, None, Some(true)));
    assert!(file_contains_completion_marker(10, Some(true), None));
    assert!(!file_contains_completion_marker(0, Some(true), Some(true)));
    assert_eq!(tail_start(100), 0);
    assert_eq!(tail_start(65537), 1);
}

#[test]
fn intersection_three_peers_picks_all_three_agree() {
    let mut manifests: NameMap<Vec<String>> = NameMap::new();
    manifests.insert("a".into(), vec!["x".into(), "y".into(), "z".into()]);
    manifests.insert("b".into(), vec!["x".into(), "y".into()]);
    manifests.insert("c".into(), vec!["x".into(), "y".into(), "w".into()]);
    let runners = vec!["a".to_string(), "b".to_string(), "c".to_string()];
    let inter = intersect_complete_jobs(&manifests, &runners);
    let expected = NameSet::of(&["x".to_string(), "y".to_string()]);
    assert_eq!(inter, expected);
}

#[test]
fn intersection_single_runner_equals_local_manifest() {
    let mut manifests: NameMap<Vec<String>> = NameMap::new();
    manifests.insert("solo".into(), vec!["x".into(), "y".into()]);
    let runners = vec!["solo".to_string()];
    let inter = intersect_complete_jobs(&manifests, &runners);
    let expected = NameSet::of(&["x".to_string(), "y".to_string()]);
    assert_eq!(inter, expected);
}

#[test]
fn intersection_missing_peer_collapses_to_empty() {
    let mut manifests: NameMap<Vec<String>> = NameMap::new();
    manifests.insert("a".into(), vec!["x".into()]);
    // Note: "b" is missing.
    let runners = vec!["a".to_string(), "b".to_string()];
    let inter = intersect_complete_jobs(&manifests, &runners);
    assert!(inter.is_empty());
    assert!(intersect_complete_jobs(&manifests, &[]).is_empty());
}

/// Cleans up where the jobs of `there` have a log.
fn cleaned(jobs: &[String], skip: &NameSet, there: &[&str]) -> Vec<String> {
    let deleted: Vec<bool> = jobs
        .iter()
        .map(|j| must_clean(j, skip) && there.contains(&j.as_str()))
        .collect();
    cleanup_incomplete_logs("self", "r1", jobs, skip, &deleted)
}

#[test]
fn cleanup_deletes_only_incomplete_files() {
    let jobs = names(&["v1", "v2", "v3"]);
    let mut skip = NameSet::new();
    skip.insert("v1".to_string());
    skip.insert("v3".to_string());
    assert!(!must_clean("v1", &skip) && must_clean("v2", &skip) && !must_clean("v3", &skip));
    assert_eq!(cleaned(&jobs, &skip, &["v1", "v2", "v3"]), names(&["v2-self-r1.jsonl"]));
}

#[test]
fn cleanup_handles_missing_files() {
    let jobs = names(&["v1", "v2"]);
    let skip = NameSet::new();
    assert!(cleaned(&jobs, &skip, &[]).is_empty());
    assert_eq!(cleaned(&jobs, &skip, &["v2"]), names(&["v2-self-r1.jsonl"]));
}
