//! When the runner stops waiting for a spawn.

use runner::progress::{LocalProgressTracker, ProgressEvent, ProgressUpdateRef, RemoteProgressView};
use runner::spawn::{ChildOutcome, MonitorAction};
use runner::termination::{
    duration_since, evaluate, watch_step, TerminationConfig, TerminationDecision, WatchStep,
};
use runner::time::{Duration, Timestamp};

fn at_secs(secs: u64) -> Timestamp {
    Timestamp {
        nanos: Duration::from_secs(secs).nanos,
    }
}

fn before(now: Timestamp, span: Duration) -> Timestamp {
    Timestamp {
        nanos: now.nanos.checked_sub(span.nanos).unwrap_or(now.nanos),
    }
}

fn local_tracker(phase: &str, idle_for: Duration, now: Timestamp) -> LocalProgressTracker {
    let mut t = LocalProgressTracker::new("sp".to_string());
    let ev = ProgressEvent {
        ts: "t".into(),
        phase: phase.to_string(),
        sent: 1,
        received: 1,
        eot_sent: false,
        eot_received: false,
    };
    let advance_ts = before(now, idle_for);
    t.apply_progress(&ev, advance_ts);
    // Re-apply with same counters at `now` so last_progress_ts is
    // current (idle detector reads last_*_change_ts, not
    // last_progress_ts).
    t.apply_progress(&ev, now);
    t
}

fn remote_view_with_peer(
    peer: &str,
    spawn: &str,
    phase: &str,
    idle_for: Duration,
    now: Timestamp,
) -> RemoteProgressView {
    let mut v = RemoteProgressView::new();
    let updated_at = before(now, idle_for);
    v.apply_update(
        ProgressUpdateRef {
            runner: peer,
            spawn,
            phase,
            sent: 1,
            received: 1,
            eot_sent: false,
            eot_received: false,
            ts: "x",
        },
        updated_at,
    );
    v
}

#[test]
fn safety_net_fires_when_elapsed_exceeds_max_spawn_secs() {
    let now = at_secs(1000);
    let local = local_tracker("operate", Duration::from_millis(10), now);
    let remote = RemoteProgressView::new();
    let cfg = TerminationConfig {
        operate_idle_secs: 5,
        max_spawn_secs: 10,
    };
    let d = evaluate(
        &local,
        &remote,
        "sp",
        &[],
        cfg,
        Duration::from_secs(10),
        now,
    );
    assert_eq!(d, TerminationDecision::SafetyNet);
}

#[test]
fn safety_net_takes_priority_over_idle_signal() {
    // Even when local AND remote are idle, the safety net wins if
    // elapsed has crossed the deadline.
    let now = at_secs(1000);
    let local = local_tracker("operate", Duration::from_secs(60), now);
    let remote = remote_view_with_peer("bob", "sp", "done", Duration::from_secs(1), now);
    let cfg = TerminationConfig {
        operate_idle_secs: 5,
        max_spawn_secs: 30,
    };
    let d = evaluate(
        &local,
        &remote,
        "sp",
        &["bob".into()],
        cfg,
        Duration::from_secs(31),
        now,
    );
    assert_eq!(d, TerminationDecision::SafetyNet);
}

#[test]
fn stabilize_phase_never_triggers_idle_decision() {
    // Even though local counters are flat for ages, the state
    // machine must return Continue in any non-operate phase. The
    // safety net is the only signal that fires in stabilize.
    let now = at_secs(1000);
    let local = local_tracker("stabilize", Duration::from_secs(60), now);
    let remote = RemoteProgressView::new();
    let cfg = TerminationConfig {
        operate_idle_secs: 5,
        max_spawn_secs: 300,
    };
    let d = evaluate(
        &local,
        &remote,
        "sp",
        &[],
        cfg,
        Duration::from_secs(10),
        now,
    );
    assert_eq!(d, TerminationDecision::Continue);
}

#[test]
fn connect_phase_never_triggers_idle_decision() {
    let now = at_secs(1000);
    let local = local_tracker("connect", Duration::from_secs(60), now);
    let remote = RemoteProgressView::new();
    let cfg = TerminationConfig {
        operate_idle_secs: 5,
        max_spawn_secs: 300,
    };
    let d = evaluate(&local, &remote, "sp", &[], cfg, Duration::from_secs(2), now);
    assert_eq!(d, TerminationDecision::Continue);
}

#[test]
fn operate_local_idle_but_active_returns_continue_below_threshold() {
    // Local has only been idle for 2s; threshold is 5s -> Continue.
    let now = at_secs(1000);
    let local = local_tracker("operate", Duration::from_secs(2), now);
    let remote = RemoteProgressView::new();
    let cfg = TerminationConfig {
        operate_idle_secs: 5,
        max_spawn_secs: 300,
    };
    let d = evaluate(
        &local,
        &remote,
        "sp",
        &[],
        cfg,
        Duration::from_secs(20),
        now,
    );
    assert_eq!(d, TerminationDecision::Continue);
}

#[test]
fn operate_single_runner_idle_returns_operate_idle() {
    // No peers expected; local has been idle past the threshold.
    // The state machine must report OperateIdle.
    let now = at_secs(1000);
    let local = local_tracker("operate", Duration::from_secs(6), now);
    let remote = RemoteProgressView::new();
    let cfg = TerminationConfig {
        operate_idle_secs: 5,
        max_spawn_secs: 300,
    };
    let d = evaluate(
        &local,
        &remote,
        "sp",
        &[],
        cfg,
        Duration::from_secs(20),
        now,
    );
    assert_eq!(d, TerminationDecision::OperateIdle);
}

#[test]
fn operate_local_idle_remote_still_in_operate_returns_continue() {
    // Local is past idle threshold but peer is still reporting
    // operate. Cross-runner agreement is not yet reached.
    let now = at_secs(1000);
    let local = local_tracker("operate", Duration::from_secs(6), now);
    let remote = remote_view_with_peer("bob", "sp", "operate", Duration::from_millis(100), now);
    let cfg = TerminationConfig {
        operate_idle_secs: 5,
        max_spawn_secs: 300,
    };
    let d = evaluate(
        &local,
        &remote,
        "sp",
        &["bob".into()],
        cfg,
        Duration::from_secs(20),
        now,
    );
    assert_eq!(d, TerminationDecision::Continue);
}

#[test]
fn operate_local_idle_remote_missing_snapshot_returns_continue() {
    // No snapshot folded for the peer at all (just-spawned scenario).
    // The state machine must NOT report idle agreement.
    let now = at_secs(1000);
    let local = local_tracker("operate", Duration::from_secs(6), now);
    let remote = RemoteProgressView::new();
    let cfg = TerminationConfig {
        operate_idle_secs: 5,
        max_spawn_secs: 300,
    };
    let d = evaluate(
        &local,
        &remote,
        "sp",
        &["bob".into()],
        cfg,
        Duration::from_secs(20),
        now,
    );
    assert_eq!(d, TerminationDecision::Continue);
}

#[test]
fn operate_local_idle_remote_post_operate_returns_operate_idle() {
    // Local idle past threshold AND peer transitioned to silent
    // (so peer's own idle detection fired). Cross-runner
    // agreement reached -- state machine reports OperateIdle.
    let now = at_secs(1000);
    let local = local_tracker("operate", Duration::from_secs(6), now);
    let remote = remote_view_with_peer("bob", "sp", "silent", Duration::from_millis(100), now);
    let cfg = TerminationConfig {
        operate_idle_secs: 5,
        max_spawn_secs: 300,
    };
    let d = evaluate(
        &local,
        &remote,
        "sp",
        &["bob".into()],
        cfg,
        Duration::from_secs(20),
        now,
    );
    assert_eq!(d, TerminationDecision::OperateIdle);
}

#[test]
fn operate_with_one_peer_in_done_and_one_still_in_operate_returns_continue() {
    // Three runners total: this one, alice (still in operate),
    // bob (done). Any one peer still in operate blocks the
    // OperateIdle decision.
    let now = at_secs(1000);
    let local = local_tracker("operate", Duration::from_secs(6), now);
    let mut remote = RemoteProgressView::new();
    remote.apply_update(
        ProgressUpdateRef {
            runner: "alice",
            spawn: "sp",
            phase: "operate",
            sent: 1,
            received: 1,
            eot_sent: false,
            eot_received: false,
            ts: "t",
        },
        now,
    );
    remote.apply_update(
        ProgressUpdateRef {
            runner: "bob",
            spawn: "sp",
            phase: "done",
            sent: 1,
            received: 1,
            eot_sent: true,
            eot_received: true,
            ts: "t",
        },
        now,
    );
    let cfg = TerminationConfig {
        operate_idle_secs: 5,
        max_spawn_secs: 300,
    };
    let d = evaluate(
        &local,
        &remote,
        "sp",
        &["alice".into(), "bob".into()],
        cfg,
        Duration::from_secs(20),
        now,
    );
    assert_eq!(d, TerminationDecision::Continue);
}

#[test]
fn duration_since_clamps_negative_to_zero() {
    let earlier = at_secs(1000);
    let now = at_secs(900);
    assert_eq!(duration_since(now, earlier), Duration { nanos: 0 });
}

#[test]
fn with_bounded_max_picks_smaller_of_cli_and_fallback() {
    let cfg = TerminationConfig::with_bounded_max(5, 300, 10);
    assert_eq!(cfg.max_spawn_secs, 10);
}

#[test]
fn with_bounded_max_picks_smaller_when_cli_is_tighter() {
    // CLI says 60, per-variant fallback says 300 -> 60 wins
    // (operator chose a stricter runner-wide cap).
    let cfg = TerminationConfig::with_bounded_max(5, 60, 300);
    assert_eq!(cfg.max_spawn_secs, 60);
}

#[test]
fn with_bounded_max_handles_oversize_fallback() {
    // Fallback above u32::MAX seconds is clamped to u32::MAX so
    // the `min` does not silently underflow.
    let cfg = TerminationConfig::with_bounded_max(5, 300, u64::MAX);
    assert_eq!(cfg.max_spawn_secs, 300);
}

#[test]
fn watching_publishes_every_second_and_reports_idleness_once() {
    let ms = Duration::from_millis;
    let poll = |publish: bool, notice: bool| WatchStep::Poll { publish, notice };
    let at = |decision, since, reported| watch_step(MonitorAction::Poll, decision, since, reported);
    assert_eq!(at(TerminationDecision::Continue, None, false), poll(true, false));
    assert_eq!(at(TerminationDecision::Continue, Some(ms(999)), false), poll(false, false));
    assert_eq!(at(TerminationDecision::Continue, Some(ms(1000)), false), poll(true, false));
    assert_eq!(at(TerminationDecision::OperateIdle, Some(ms(0)), false), poll(false, true));
    assert_eq!(at(TerminationDecision::OperateIdle, Some(ms(0)), true), poll(false, false));
}

#[test]
fn watching_ends_at_the_exit_the_deadline_or_the_upper_bound() {
    let net = TerminationDecision::SafetyNet;
    assert_eq!(
        watch_step(MonitorAction::Report(ChildOutcome::Failed(3)), net, None, false),
        WatchStep::Report(ChildOutcome::Failed(3))
    );
    assert_eq!(
        watch_step(MonitorAction::Kill, net, None, false),
        WatchStep::Kill { safety_net: false }
    );
    assert_eq!(
        watch_step(MonitorAction::Poll, net, None, false),
        WatchStep::Kill { safety_net: true }
    );
}
