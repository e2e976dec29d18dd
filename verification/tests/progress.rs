//! Progress of the local spawn and of its counterparts on the other runners.

use runner::progress::{
    handle_stdout_line, LocalProgressTracker, ProgressEvent, ProgressUpdateRef, RemoteProgressView,
    RemoteProgressViewHandle, StdoutEvent, TrackerHandle,
};
use runner::time::{Duration, Timestamp};

fn at_secs(secs: u64) -> Timestamp {
    Timestamp {
        nanos: Duration::from_secs(secs).nanos,
    }
}

fn ts_now() -> Timestamp {
    let since = std::time::SystemTime::now()
        .duration_since(std::time::UNIX_EPOCH)
        .unwrap();
    Timestamp {
        nanos: since.as_nanos(),
    }
}

fn parse_line(line: &str) -> Option<StdoutEvent> {
    let v: serde_json::Value = serde_json::from_str(line).ok()?;
    if v.get("event")?.as_str()? != "progress" {
        return Some(StdoutEvent::Other);
    }
    Some(StdoutEvent::Progress(ProgressEvent {
        ts: v.get("ts").and_then(|t| t.as_str()).unwrap_or("").to_string(),
        phase: v.get("phase")?.as_str()?.to_string(),
        sent: v.get("sent")?.as_u64()?,
        received: v.get("received")?.as_u64()?,
        eot_sent: v.get("eot_sent")?.as_bool()?,
        eot_received: v.get("eot_received")?.as_bool()?,
    }))
}

#[test]
fn new_tracker_has_zero_counters_and_unknown_phase() {
    let t = LocalProgressTracker::new("sp".to_string());
    assert_eq!(t.spawn_name, "sp");
    assert_eq!(t.phase, "unknown");
    assert_eq!(t.sent, 0);
    assert_eq!(t.received, 0);
    assert!(!t.eot_sent);
    assert!(!t.eot_received);
}

#[test]
fn apply_progress_updates_counters_and_phase() {
    let mut t = LocalProgressTracker::new("sp".to_string());
    let ev = ProgressEvent {
        ts: "t".into(),
        phase: "operate".into(),
        sent: 5,
        received: 3,
        eot_sent: false,
        eot_received: false,
    };
    t.apply_progress(&ev, ts_now());
    assert_eq!(t.phase, "operate");
    assert_eq!(t.sent, 5);
    assert_eq!(t.received, 3);
}

#[test]
fn marks_of_the_end_of_the_test_stay_set() {
    let event = |eot_sent: bool, eot_received: bool| ProgressEvent {
        ts: "t".into(),
        phase: "eot".into(),
        sent: 1,
        received: 1,
        eot_sent,
        eot_received,
    };
    let mut t = LocalProgressTracker::new("sp".to_string());
    t.apply_progress(&event(true, false), at_secs(1));
    assert!(t.eot_sent && !t.eot_received);
    t.apply_progress(&event(false, true), at_secs(2));
    assert!(t.eot_sent && t.eot_received);
    t.apply_progress(&event(false, false), at_secs(3));
    assert!(t.eot_sent && t.eot_received);
}

#[test]
fn last_sent_change_ts_only_bumps_on_real_advance() {
    let mut t = LocalProgressTracker::new("sp".to_string());
    let t0 = at_secs(100);
    let t1 = at_secs(101);
    let t2 = at_secs(102);

    let ev_a = ProgressEvent {
        ts: "a".into(),
        phase: "operate".into(),
        sent: 10,
        received: 10,
        eot_sent: false,
        eot_received: false,
    };
    t.apply_progress(&ev_a, t0);
    assert_eq!(t.last_sent_change_ts, t0);
    assert_eq!(t.last_received_change_ts, t0);

    // Same counters again at t1: timestamps must NOT advance.
    let ev_b = ev_a.clone();
    t.apply_progress(&ev_b, t1);
    assert_eq!(t.last_sent_change_ts, t0, "sent ts must not move when flat");
    assert_eq!(
        t.last_received_change_ts, t0,
        "received ts must not move when flat"
    );
    // But last_progress_ts always tracks the latest event.
    assert_eq!(t.last_progress_ts, t1);

    // Now sent advances but received does not: only sent ts moves.
    let ev_c = ProgressEvent {
        ts: "c".into(),
        phase: "operate".into(),
        sent: 11,
        received: 10,
        eot_sent: false,
        eot_received: false,
    };
    t.apply_progress(&ev_c, t2);
    assert_eq!(t.last_sent_change_ts, t2);
    assert_eq!(t.last_received_change_ts, t0);
}

#[test]
fn handle_stdout_line_parses_progress() {
    let tracker = TrackerHandle::new("sp".to_string());
    let line = r#"{"event":"progress","ts":"2026-05-11T00:00:00.000000000Z","phase":"operate","sent":42,"received":7,"eot_sent":false,"eot_received":false}"#;
    handle_stdout_line(parse_line(line).as_ref(), &tracker, ts_now());
    let snap = tracker.snapshot();
    assert_eq!(snap.phase, "operate");
    assert_eq!(snap.sent, 42);
    assert_eq!(snap.received, 7);
}

#[test]
fn handle_stdout_line_ignores_unknown_event() {
    let tracker = TrackerHandle::new("sp".to_string());
    // Unknown event discriminant -- must not panic, must not
    // touch the tracker.
    let line = r#"{"event":"diagnostic","msg":"hi"}"#;
    handle_stdout_line(parse_line(line).as_ref(), &tracker, ts_now());
    let snap = tracker.snapshot();
    assert_eq!(snap.phase, "unknown");
    assert_eq!(snap.sent, 0);
}

#[test]
fn handle_stdout_line_warns_and_continues_on_malformed_json() {
    let tracker = TrackerHandle::new("sp".to_string());
    // Not valid JSON at all -- the line must be ignored without
    // poisoning the tracker: the tracker is still pristine and a subsequent valid line still
    // updates it.
    handle_stdout_line(parse_line("not even json {{{").as_ref(), &tracker, ts_now());
    let snap = tracker.snapshot();
    assert_eq!(snap.sent, 0);

    let good = r#"{"event":"progress","ts":"x","phase":"connect","sent":1,"received":0,"eot_sent":false,"eot_received":false}"#;
    handle_stdout_line(parse_line(good).as_ref(), &tracker, ts_now());
    let snap = tracker.snapshot();
    assert_eq!(snap.sent, 1);
    assert_eq!(snap.phase, "connect");
}

/// Folds each line of what a variant prints into the tracker.
fn read_all(output: &str, tracker: &TrackerHandle) {
    for line in output.lines() {
        handle_stdout_line(parse_line(line).as_ref(), tracker, ts_now());
    }
}

#[test]
fn spawn_stdout_reader_drains_and_joins() {
    let output = "{\"event\":\"progress\",\"ts\":\"x\",\"phase\":\"operate\",\"sent\":3,\"received\":2,\"eot_sent\":false,\"eot_received\":false}\n\
                  {\"event\":\"progress\",\"ts\":\"y\",\"phase\":\"silent\",\"sent\":5,\"received\":4,\"eot_sent\":true,\"eot_received\":true}\n";
    let tracker = TrackerHandle::new("sp".to_string());
    read_all(output, &tracker);
    let snap = tracker.snapshot();
    assert_eq!(snap.phase, "silent");
    assert_eq!(snap.sent, 5);
    assert_eq!(snap.received, 4);
    assert!(snap.eot_sent);
    assert!(snap.eot_received);
}

#[test]
fn spawn_stdout_reader_tolerates_malformed_lines_mid_stream() {
    let output = "this is not json\n\
                  {\"event\":\"progress\",\"ts\":\"y\",\"phase\":\"operate\",\"sent\":9,\"received\":8,\"eot_sent\":false,\"eot_received\":false}\n\
                  {oops not json\n";
    let tracker = TrackerHandle::new("sp".to_string());
    read_all(output, &tracker);
    let snap = tracker.snapshot();
    assert_eq!(snap.sent, 9);
    assert_eq!(snap.received, 8);
    assert_eq!(snap.phase, "operate");
}

#[test]
fn remote_view_starts_empty() {
    let v = RemoteProgressView::new();
    assert_eq!(v.peer_count(), 0);
    assert!(v.peers().is_empty());
    assert!(v.snapshot_for("any", "any").is_none());
}

#[test]
fn remote_view_apply_inserts_new_peer_and_spawn() {
    let mut v = RemoteProgressView::new();
    let now = ts_now();
    v.apply_update(
        ProgressUpdateRef {
            runner: "bob",
            spawn: "sp1",
            phase: "operate",
            sent: 10,
            received: 20,
            eot_sent: false,
            eot_received: false,
            ts: "t1",
        },
        now,
    );
    assert_eq!(v.peer_count(), 1);
    let snap = v.snapshot_for("bob", "sp1").expect("snapshot present");
    assert_eq!(snap.phase, "operate");
    assert_eq!(snap.sent, 10);
    assert_eq!(snap.received, 20);
    assert!(!snap.eot_sent);
    assert!(!snap.eot_received);
    assert_eq!(snap.ts, "t1");
    assert_eq!(snap.last_update_ts, now);
}

#[test]
fn remote_view_apply_updates_existing_spawn_monotonically() {
    let mut v = RemoteProgressView::new();
    let t0 = at_secs(100);
    let t1 = at_secs(101);
    v.apply_update(
        ProgressUpdateRef {
            runner: "bob",
            spawn: "sp1",
            phase: "operate",
            sent: 5,
            received: 3,
            eot_sent: false,
            eot_received: false,
            ts: "t0",
        },
        t0,
    );
    // Later update advances counters; phase and flag stickiness.
    v.apply_update(
        ProgressUpdateRef {
            runner: "bob",
            spawn: "sp1",
            phase: "silent",
            sent: 7,
            received: 3,
            eot_sent: true,
            eot_received: false,
            ts: "t1",
        },
        t1,
    );
    let snap = v.snapshot_for("bob", "sp1").unwrap();
    assert_eq!(snap.phase, "silent");
    assert_eq!(snap.sent, 7);
    assert_eq!(snap.received, 3);
    assert!(snap.eot_sent, "eot_sent must become sticky-true");
    assert!(!snap.eot_received);
    assert_eq!(snap.last_update_ts, t1);
}

#[test]
fn remote_view_apply_does_not_regress_counters_on_reorder() {
    let mut v = RemoteProgressView::new();
    let t0 = at_secs(100);
    let t1 = at_secs(101);
    v.apply_update(
        ProgressUpdateRef {
            runner: "bob",
            spawn: "sp1",
            phase: "operate",
            sent: 100,
            received: 200,
            eot_sent: true,
            eot_received: true,
            ts: "t0",
        },
        t0,
    );
    v.apply_update(
        ProgressUpdateRef {
            runner: "bob",
            spawn: "sp1",
            phase: "operate",
            sent: 1,
            received: 2,
            eot_sent: false,
            eot_received: false,
            ts: "t1",
        },
        t1,
    );
    let snap = v.snapshot_for("bob", "sp1").unwrap();
    assert_eq!(snap.sent, 100);
    assert_eq!(snap.received, 200);
    assert!(snap.eot_sent);
    assert!(snap.eot_received);
}

#[test]
fn remote_view_keeps_peers_and_spawns_isolated() {
    let mut v = RemoteProgressView::new();
    let now = ts_now();
    v.apply_update(
        ProgressUpdateRef {
            runner: "alice",
            spawn: "sp1",
            phase: "operate",
            sent: 1,
            received: 1,
            eot_sent: false,
            eot_received: false,
            ts: "t",
        },
        now,
    );
    v.apply_update(
        ProgressUpdateRef {
            runner: "bob",
            spawn: "sp1",
            phase: "operate",
            sent: 2,
            received: 2,
            eot_sent: false,
            eot_received: false,
            ts: "t",
        },
        now,
    );
    v.apply_update(
        ProgressUpdateRef {
            runner: "alice",
            spawn: "sp2",
            phase: "operate",
            sent: 3,
            received: 3,
            eot_sent: false,
            eot_received: false,
            ts: "t",
        },
        now,
    );
    assert_eq!(v.peer_count(), 2);
    let mut peers = v.peers();
    peers.sort();
    assert_eq!(peers, vec!["alice".to_string(), "bob".to_string()]);
    assert_eq!(v.snapshot_for("alice", "sp1").unwrap().sent, 1);
    assert_eq!(v.snapshot_for("alice", "sp2").unwrap().sent, 3);
    assert_eq!(v.snapshot_for("bob", "sp1").unwrap().sent, 2);
    assert!(v.snapshot_for("bob", "sp2").is_none());
}

#[test]
fn remote_view_handle_round_trips_through_mutex() {
    // The handle is a thin wrapper; this just checks the write/read
    // pair survives the mutex without losing data.
    let handle = RemoteProgressViewHandle::new();
    let now = ts_now();
    handle.apply_update(
        ProgressUpdateRef {
            runner: "p",
            spawn: "s",
            phase: "operate",
            sent: 1,
            received: 2,
            eot_sent: true,
            eot_received: false,
            ts: "t",
        },
        now,
    );
    let snap = handle.snapshot();
    let entry = snap.snapshot_for("p", "s").unwrap();
    assert_eq!(entry.sent, 1);
    assert_eq!(entry.received, 2);
    assert!(entry.eot_sent);
}
