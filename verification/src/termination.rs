//! When the runner stops waiting for a spawn.

use crate::names::texts;
use crate::progress::{
    LocalProgressTracker, ProgressEvent, RemoteProgressView, SpawnStates, TrackerState,
};
use crate::spawn::{ChildOutcome, MonitorAction};
use crate::text::same;
use crate::time::{nanos_since, Duration, Timestamp, NANOS_PER_SEC};
use vstd::prelude::*;

verus! {

/// The thresholds of one spawn.
#[derive(Debug, Clone, Copy, PartialEq, Eq)]
pub struct TerminationConfig {
    /// Seconds without progress after which the operate phase counts as idle.
    pub operate_idle_secs: u32,
    /// Seconds after which the spawn is stopped in any case.
    pub max_spawn_secs: u32,
}

impl TerminationConfig {
    /// Thresholds with the upper bound cut down to `fallback_secs`.
    pub fn with_bounded_max(
        operate_idle_secs: u32,
        max_spawn_secs: u32,
        fallback_secs: u64,
    ) -> (r: Self)
        ensures
            r.operate_idle_secs == operate_idle_secs,
            r.max_spawn_secs == (if max_spawn_secs as int <= fallback_secs as int {
                max_spawn_secs as int
            } else {
                fallback_secs as int
            }),
    {
        let bound: u32 = if fallback_secs > u32::MAX as u64 {
            u32::MAX
        } else {
            fallback_secs as u32
        };
        TerminationConfig {
            operate_idle_secs,
            max_spawn_secs: if max_spawn_secs < bound { max_spawn_secs } else { bound },
        }
    }
}

/// What to do with a running spawn.
#[derive(Debug, Clone, Copy, PartialEq, Eq, Structural)]
pub enum TerminationDecision {
    /// Keep waiting.
    Continue,
    /// The operate phase is over here and on every peer.
    OperateIdle,
    /// The upper bound has passed.
    SafetyNet,
}

/// Neither counter of the local spawn has moved for `secs` seconds.
pub open spec fn locally_idle(local: TrackerState, secs: u32, now: Timestamp) -> bool {
    &&& nanos_since(now, local.last_sent_change_ts) >= secs * NANOS_PER_SEC
    &&& nanos_since(now, local.last_received_change_ts) >= secs * NANOS_PER_SEC
}

/// The phases that follow the operate phase.
pub open spec fn past_operate(phase: Seq<char>) -> bool {
    phase == "eot"@ || phase == "silent"@ || phase == "done"@
}

/// `peer` has published that its `spawn` is past the operate phase.
pub open spec fn peer_past_operate(
    remote: Map<Seq<char>, SpawnStates>,
    peer: Seq<char>,
    spawn: Seq<char>,
) -> bool {
    remote.contains_key(peer) && remote[peer].contains_key(spawn) && past_operate(
        remote[peer][spawn].phase,
    )
}

/// The decision: the upper bound comes first; then the operate phase is over
/// where the local spawn idles in it and every expected peer has left it.
pub open spec fn decision(
    local: TrackerState,
    remote: Map<Seq<char>, SpawnStates>,
    spawn: Seq<char>,
    peers: Seq<Seq<char>>,
    config: TerminationConfig,
    elapsed: Duration,
    now: Timestamp,
) -> TerminationDecision {
    if elapsed.nanos >= config.max_spawn_secs * NANOS_PER_SEC {
        TerminationDecision::SafetyNet
    } else if local.phase == "operate"@ && locally_idle(local, config.operate_idle_secs, now) && (
    forall|i: int| 0 <= i < peers.len() ==> peer_past_operate(remote, #[trigger] peers[i], spawn)) {
        TerminationDecision::OperateIdle
    } else {
        TerminationDecision::Continue
    }
}

/// Decides what to do with the spawn `spawn_name` at `now`.
pub fn evaluate(
    local: &LocalProgressTracker,
    remote: &RemoteProgressView,
    spawn_name: &str,
    peers_expected: &[String],
    config: TerminationConfig,
    elapsed: Duration,
    now: Timestamp,
) -> (r: TerminationDecision)
    ensures
        r == decision(
            local@,
            remote@,
            spawn_name@,
            texts(peers_expected@),
            config,
            elapsed,
            now,
        ),
{
    let ghost peers = texts(peers_expected@);
    if elapsed.nanos >= config.max_spawn_secs as u128 * NANOS_PER_SEC {
        return TerminationDecision::SafetyNet;
    }
    if !same(local.phase.as_str(), "operate") {
        return TerminationDecision::Continue;
    }
    let threshold: u128 = config.operate_idle_secs as u128 * NANOS_PER_SEC;
    let sent_idle = duration_since(now, local.last_sent_change_ts).nanos >= threshold;
    let received_idle = duration_since(now, local.last_received_change_ts).nanos >= threshold;
    if !(sent_idle && received_idle) {
        return TerminationDecision::Continue;
    }
    for i in 0..peers_expected.len()
        invariant
            peers == texts(peers_expected@),
            forall|j: int|
                0 <= j < i ==> peer_past_operate(remote@, #[trigger] peers[j], spawn_name@),
            elapsed.nanos < config.max_spawn_secs * NANOS_PER_SEC,
    {
        assert(peers[i as int] == peers_expected@[i as int]@);
        match remote.snapshot_for(peers_expected[i].as_str(), spawn_name) {
            None => {
                assert(!peer_past_operate(remote@, peers[i as int], spawn_name@));
                return TerminationDecision::Continue;
            },
            Some(snapshot) => {
                let phase = snapshot.phase.as_str();
                if !(same(phase, "eot") || same(phase, "silent") || same(phase, "done")) {
                    assert(!peer_past_operate(remote@, peers[i as int], spawn_name@));
                    return TerminationDecision::Continue;
                }
            },
        }
    }
    TerminationDecision::OperateIdle
}

/// What to do after a look at a spawn and at how far it is.
#[derive(Debug, Clone, Copy, PartialEq, Eq)]
pub enum WatchStep {
    /// Report the outcome.
    Report(ChildOutcome),
    /// Kill the child, collect it and report a timeout.
    Kill {
        /// The upper bound has passed, and not the spawn's own deadline: say so.
        safety_net: bool,
    },
    /// Look again after a while.
    Poll {
        /// Tell the other runners how far the spawn is.
        publish: bool,
        /// Say that the operate phase is idle on every runner.
        notice: bool,
    },
}

/// How long a runner waits before it tells the others again how far a spawn is.
pub const PUBLISH_INTERVAL_NANOS: u128 = 1_000_000_000;

/// One step of watching a spawn. Where the child has exited or its deadline has passed,
/// that decides; then the upper bound does. While the spawn is watched, the other runners
/// are told at once and then every second how far it is, and that it is idle is said
/// only once.
pub fn watch_step(
    action: MonitorAction,
    decision: TerminationDecision,
    since_publish: Option<Duration>,
    idle_reported: bool,
) -> (r: WatchStep)
    ensures
        r == (match action {
            MonitorAction::Report(outcome) => WatchStep::Report(outcome),
            MonitorAction::Kill => WatchStep::Kill { safety_net: false },
            MonitorAction::Poll => if decision == TerminationDecision::SafetyNet {
                WatchStep::Kill { safety_net: true }
            } else {
                WatchStep::Poll {
                    publish: match since_publish {
                        Some(d) => d.nanos >= PUBLISH_INTERVAL_NANOS,
                        None => true,
                    },
                    notice: decision == TerminationDecision::OperateIdle && !idle_reported,
                }
            },
        }),
{
    match action {
        MonitorAction::Report(outcome) => WatchStep::Report(outcome),
        MonitorAction::Kill => WatchStep::Kill { safety_net: false },
        MonitorAction::Poll => if decision == TerminationDecision::SafetyNet {
            WatchStep::Kill { safety_net: true }
        } else {
            let publish = match since_publish {
                Some(d) => d.nanos >= PUBLISH_INTERVAL_NANOS,
                None => true,
            };
            let notice = decision == TerminationDecision::OperateIdle && !idle_reported;
            WatchStep::Poll { publish, notice }
        },
    }
}

/// The time from `earlier` to `now`, none where `earlier` is later.
pub fn duration_since(now: Timestamp, earlier: Timestamp) -> (r: Duration)
    ensures
        r.nanos == nanos_since(now, earlier),
{
    if now.nanos >= earlier.nanos {
        Duration { nanos: now.nanos - earlier.nanos }
    } else {
        Duration { nanos: 0 }
    }
}

/// Once the upper bound has passed the spawn is stopped, whatever the trackers say.
pub proof fn upper_bound_comes_first(
    local: TrackerState,
    remote: Map<Seq<char>, SpawnStates>,
    spawn: Seq<char>,
    peers: Seq<Seq<char>>,
    config: TerminationConfig,
    elapsed: Duration,
    now: Timestamp,
)
    ensures
        decision(local, remote, spawn, peers, config, elapsed, now) == TerminationDecision::SafetyNet
            <==> elapsed.nanos >= config.max_spawn_secs * NANOS_PER_SEC,
{
}

/// The operate phase never counts as over while the local spawn is in another
/// phase, or while a peer has not published that it left the phase.
pub proof fn idle_needs_every_peer(
    local: TrackerState,
    remote: Map<Seq<char>, SpawnStates>,
    spawn: Seq<char>,
    peers: Seq<Seq<char>>,
    config: TerminationConfig,
    elapsed: Duration,
    now: Timestamp,
)
    requires
        decision(local, remote, spawn, peers, config, elapsed, now) == TerminationDecision::OperateIdle,
    ensures
        local.phase == "operate"@,
        forall|peer: Seq<char>|
            peers.contains(peer) ==> #[trigger] peer_past_operate(remote, peer, spawn),
{
    assert forall|peer: Seq<char>| peers.contains(peer) implies #[trigger] peer_past_operate(
        remote,
        peer,
        spawn,
    ) by {
        let i = choose|i: int| 0 <= i < peers.len() && peers[i] == peer;
        assert(peer_past_operate(remote, peers[i], spawn));
    }
}

/// What is decided, in full. The spawn is stopped just where it has run for the upper bound
/// of seconds. Short of that the operate phase counts as over just where the spawn is in
/// it, each of its two counters last moved at least the given number of seconds ago, and
/// every expected peer has published of this spawn one of the phases behind it. Else the
/// runner goes on.
pub proof fn decision_in_full(
    local: TrackerState,
    remote: Map<Seq<char>, SpawnStates>,
    spawn: Seq<char>,
    peers: Seq<Seq<char>>,
    config: TerminationConfig,
    elapsed: Duration,
    now: Timestamp,
)
    ensures
        ({
            let d = decision(local, remote, spawn, peers, config, elapsed, now);
            let window = config.operate_idle_secs * 1_000_000_000;
            let stopped = elapsed.nanos >= config.max_spawn_secs * 1_000_000_000;
            &&& d == TerminationDecision::SafetyNet <==> stopped
            &&& d == TerminationDecision::OperateIdle <==> {
                &&& !stopped
                &&& local.phase == "operate"@
                &&& window == 0 || now.nanos >= local.last_sent_change_ts.nanos + window
                &&& window == 0 || now.nanos >= local.last_received_change_ts.nanos + window
                &&& forall|peer: Seq<char>|
                    #[trigger] peers.contains(peer) ==> remote.contains_key(peer)
                        && remote[peer].contains_key(spawn) && (remote[peer][spawn].phase == "eot"@
                        || remote[peer][spawn].phase == "silent"@ || remote[peer][spawn].phase == "done"@)
            }
        }),
{
    let all_past = forall|i: int|
        0 <= i < peers.len() ==> peer_past_operate(remote, #[trigger] peers[i], spawn);
    if all_past {
        assert forall|peer: Seq<char>| #[trigger] peers.contains(peer) implies peer_past_operate(
            remote,
            peer,
            spawn,
        ) by {
            let i = choose|i: int| 0 <= i < peers.len() && peers[i] == peer;
            assert(peer_past_operate(remote, peers[i], spawn));
        }
    } else {
        let i = choose|i: int|
            0 <= i < peers.len() && !peer_past_operate(remote, #[trigger] peers[i], spawn);
        assert(peers.contains(peers[i]));
    }
}

/// A spawn that reports that one of its counters has gone up does not count as idle before
/// the given number of seconds has passed since.
pub proof fn progress_puts_idleness_off(
    local: TrackerState,
    ev: ProgressEvent,
    at: Timestamp,
    remote: Map<Seq<char>, SpawnStates>,
    spawn: Seq<char>,
    peers: Seq<Seq<char>>,
    config: TerminationConfig,
    elapsed: Duration,
    now: Timestamp,
)
    requires
        ev.sent > local.sent || ev.received > local.received,
        now.nanos < at.nanos + config.operate_idle_secs * 1_000_000_000,
        config.operate_idle_secs > 0,
    ensures
        decision(local.after(ev, at), remote, spawn, peers, config, elapsed, now)
            != TerminationDecision::OperateIdle,
{
}

/// How a spawn is watched, in full. An exit is reported; a spawn past its deadline or past
/// the upper bound is killed; else the other runners are told how far it is at first and
/// whenever a second has passed since, and an idle spawn is spoken of once.
pub proof fn watching_in_full(
    action: MonitorAction,
    decision: TerminationDecision,
    since_publish: Option<Duration>,
    idle_reported: bool,
    r: WatchStep,
)
    requires
        call_ensures(watch_step, (action, decision, since_publish, idle_reported), r),
    ensures
        action is Report <==> r is Report,
        action is Report ==> r->Report_0 == action->Report_0,
        r is Kill <==> action is Kill || (action is Poll && decision == TerminationDecision::SafetyNet),
        r is Kill ==> r->safety_net == (action is Poll),
        r is Poll ==> (r->publish <==> since_publish is None || since_publish->0.nanos >= 1_000_000_000),
        r is Poll ==> (r->notice <==> decision == TerminationDecision::OperateIdle && !idle_reported),
{
}

/// The upper bound of a spawn is the smaller of the one that is set and its own timeout.
pub proof fn upper_bound_is_the_smaller(
    operate_idle_secs: u32,
    max_spawn_secs: u32,
    fallback_secs: u64,
    r: TerminationConfig,
)
    requires
        call_ensures(
            TerminationConfig::with_bounded_max,
            (operate_idle_secs, max_spawn_secs, fallback_secs),
            r,
        ),
    ensures
        r.operate_idle_secs == operate_idle_secs,
        r.max_spawn_secs <= max_spawn_secs && r.max_spawn_secs <= fallback_secs,
        r.max_spawn_secs == max_spawn_secs || r.max_spawn_secs == fallback_secs,
{
}

/// The decision on a spawn goes by both of its counters: it is stopped as idle just where it
/// operates, neither what it has sent nor what it has received has changed for the given
/// number of seconds, and every peer is past operating; and it is stopped by the safety net
/// just where its time is over.
pub proof fn spawn_is_stopped_just_where_nothing_moves(
    local: &LocalProgressTracker,
    remote: &RemoteProgressView,
    spawn: &str,
    peers: &[String],
    config: TerminationConfig,
    elapsed: Duration,
    now: Timestamp,
    r: TerminationDecision,
)
    requires
        call_ensures(evaluate, (local, remote, spawn, peers, config, elapsed, now), r),
    ensures
        ({
            let window = config.operate_idle_secs * 1_000_000_000;
            let stopped = elapsed.nanos >= config.max_spawn_secs * 1_000_000_000;
            &&& r == TerminationDecision::SafetyNet <==> stopped
            &&& r == TerminationDecision::OperateIdle <==> {
                &&& !stopped
                &&& local@.phase == "operate"@
                &&& window == 0 || now.nanos >= local@.last_sent_change_ts.nanos + window
                &&& window == 0 || now.nanos >= local@.last_received_change_ts.nanos + window
                &&& forall|peer: Seq<char>|
                    #[trigger] texts(peers@).contains(peer) ==> remote@.contains_key(peer)
                        && remote@[peer].contains_key(spawn@) && (remote@[peer][spawn@].phase == "eot"@
                        || remote@[peer][spawn@].phase == "silent"@ || remote@[peer][spawn@].phase
                        == "done"@)
            }
        }),
{
    decision_in_full(local@, remote@, spawn@, texts(peers@), config, elapsed, now);
}

} // verus!
