//! Progress of the local spawn and of its counterparts on the other runners.
//!
//! The local tracker folds in the progress events that a variant prints. The
//! remote view folds in the updates that the other runners publish, per peer
//! and per spawn.

use crate::barrier_coord::FrameNote;
use crate::message::Message;
use crate::names::{ascending, name_set, texts, NameMap};
use crate::progress_coord::{fold_frame, update_in};
use crate::time::{wall_clock, Timestamp};
use std::sync::Arc;
use vstd::prelude::*;
use vstd::rwlock::{RwLock, RwLockPredicate};

verus! {

// ---------------------------------------------------------------------
// Local tracker
// ---------------------------------------------------------------------

/// One progress event of a variant.
#[derive(Debug, Clone, PartialEq, Eq)]
pub struct ProgressEvent {
    pub ts: String,
    pub phase: String,
    pub sent: u64,
    pub received: u64,
    pub eot_sent: bool,
    pub eot_received: bool,
}

/// What the runner knows of the spawn it is running.
#[derive(Debug, PartialEq, Eq)]
pub struct LocalProgressTracker {
    pub spawn_name: String,
    pub phase: String,
    pub sent: u64,
    pub received: u64,
    pub eot_sent: bool,
    pub eot_received: bool,
    pub last_progress_ts: Timestamp,
    pub last_sent_change_ts: Timestamp,
    pub last_received_change_ts: Timestamp,
}

/// The value of a tracker.
pub struct TrackerState {
    pub spawn_name: Seq<char>,
    pub phase: Seq<char>,
    pub sent: u64,
    pub received: u64,
    pub eot_sent: bool,
    pub eot_received: bool,
    pub last_progress_ts: Timestamp,
    pub last_sent_change_ts: Timestamp,
    pub last_received_change_ts: Timestamp,
}

impl TrackerState {
    /// The tracker of a spawn that has reported nothing.
    pub open spec fn fresh(spawn_name: Seq<char>, now: Timestamp) -> Self {
        TrackerState {
            spawn_name,
            phase: "unknown"@,
            sent: 0,
            received: 0,
            eot_sent: false,
            eot_received: false,
            last_progress_ts: now,
            last_sent_change_ts: now,
            last_received_change_ts: now,
        }
    }

    /// The tracker after `ev` came in at `now`. A counter moves only forward, and only
    /// then does the time of its last change move. A mark of the end of the test stays
    /// once it is set.
    pub open spec fn after(self, ev: ProgressEvent, now: Timestamp) -> Self {
        TrackerState {
            spawn_name: self.spawn_name,
            phase: ev.phase@,
            sent: if ev.sent > self.sent { ev.sent } else { self.sent },
            received: if ev.received > self.received { ev.received } else { self.received },
            eot_sent: self.eot_sent || ev.eot_sent,
            eot_received: self.eot_received || ev.eot_received,
            last_progress_ts: now,
            last_sent_change_ts: if ev.sent > self.sent { now } else { self.last_sent_change_ts },
            last_received_change_ts: if ev.received > self.received {
                now
            } else {
                self.last_received_change_ts
            },
        }
    }

    /// The tracker after a sequence of events, the last one at the end.
    pub open spec fn after_all(self, events: Seq<(ProgressEvent, Timestamp)>) -> Self
        decreases events.len(),
    {
        if events.len() == 0 {
            self
        } else {
            self.after_all(events.drop_last()).after(events.last().0, events.last().1)
        }
    }
}

impl LocalProgressTracker {
    pub open spec fn view(&self) -> TrackerState {
        TrackerState {
            spawn_name: self.spawn_name@,
            phase: self.phase@,
            sent: self.sent,
            received: self.received,
            eot_sent: self.eot_sent,
            eot_received: self.eot_received,
            last_progress_ts: self.last_progress_ts,
            last_sent_change_ts: self.last_sent_change_ts,
            last_received_change_ts: self.last_received_change_ts,
        }
    }

    /// The tracker of a spawn that has reported nothing; all its times are that of the
    /// call.
    pub fn new(spawn_name: String) -> (r: Self)
        ensures
            r@ == TrackerState::fresh(spawn_name@, r.last_progress_ts),
    {
        let now = wall_clock();
        LocalProgressTracker::new_at(spawn_name, now)
    }

    /// The tracker of a spawn that has reported nothing; all its times are `now`.
    pub fn new_at(spawn_name: String, now: Timestamp) -> (r: Self)
        ensures
            r@ == TrackerState::fresh(spawn_name@, now),
    {
        LocalProgressTracker {
            spawn_name,
            phase: "unknown".to_owned(),
            sent: 0,
            received: 0,
            eot_sent: false,
            eot_received: false,
            last_progress_ts: now,
            last_sent_change_ts: now,
            last_received_change_ts: now,
        }
    }

    /// Folds one event in.
    pub fn apply_progress(&mut self, ev: &ProgressEvent, now: Timestamp)
        ensures
            final(self)@ == old(self)@.after(*ev, now),
    {
        self.phase = ev.phase.clone();
        if ev.sent > self.sent {
            self.sent = ev.sent;
            self.last_sent_change_ts = now;
        }
        if ev.received > self.received {
            self.received = ev.received;
            self.last_received_change_ts = now;
        }
        if ev.eot_sent {
            self.eot_sent = true;
        }
        if ev.eot_received {
            self.eot_received = true;
        }
        self.last_progress_ts = now;
    }
}

impl Clone for LocalProgressTracker {
    fn clone(&self) -> (r: Self)
        ensures
            r == *self,
    {
        LocalProgressTracker {
            spawn_name: self.spawn_name.clone(),
            phase: self.phase.clone(),
            sent: self.sent,
            received: self.received,
            eot_sent: self.eot_sent,
            eot_received: self.eot_received,
            last_progress_ts: self.last_progress_ts,
            last_sent_change_ts: self.last_sent_change_ts,
            last_received_change_ts: self.last_received_change_ts,
        }
    }
}

/// Whatever events come in, the counters of a tracker never go back, its spawn
/// stays the same, and a counter that did not move kept the time of its last
/// change.
pub proof fn tracker_counters_never_go_back(
    start: TrackerState,
    events: Seq<(ProgressEvent, Timestamp)>,
)
    ensures
        start.after_all(events).sent >= start.sent,
        start.after_all(events).received >= start.received,
        start.after_all(events).spawn_name == start.spawn_name,
        start.after_all(events).sent == start.sent
            ==> start.after_all(events).last_sent_change_ts == start.last_sent_change_ts,
        start.after_all(events).received == start.received
            ==> start.after_all(events).last_received_change_ts == start.last_received_change_ts,
    decreases events.len(),
{
    if events.len() > 0 {
        tracker_counters_never_go_back(start, events.drop_last());
    }
}

/// A mark of the end of the test is set just where it was set before or one of the
/// events set it.
pub proof fn tracker_marks_stay(start: TrackerState, events: Seq<(ProgressEvent, Timestamp)>)
    ensures
        start.after_all(events).eot_sent == (start.eot_sent || (exists|i: int|
            0 <= i < events.len() && (#[trigger] events[i]).0.eot_sent)),
        start.after_all(events).eot_received == (start.eot_received || (exists|i: int|
            0 <= i < events.len() && (#[trigger] events[i]).0.eot_received)),
    decreases events.len(),
{
    if events.len() > 0 {
        let rest = events.drop_last();
        let n = events.len() - 1;
        tracker_marks_stay(start, rest);
        assert forall|i: int| 0 <= i < n implies #[trigger] rest[i] == events[i] by {}
        assert(events[n] == events.last());
        assert((exists|i: int| 0 <= i < events.len() && (#[trigger] events[i]).0.eot_sent) == (
        events.last().0.eot_sent || (exists|i: int|
            0 <= i < rest.len() && (#[trigger] rest[i]).0.eot_sent))) by {
            if exists|i: int| 0 <= i < rest.len() && (#[trigger] rest[i]).0.eot_sent {
                let i = choose|i: int| 0 <= i < rest.len() && (#[trigger] rest[i]).0.eot_sent;
                assert(events[i].0.eot_sent);
            }
            if exists|i: int| 0 <= i < events.len() && (#[trigger] events[i]).0.eot_sent {
                let i = choose|i: int| 0 <= i < events.len() && (#[trigger] events[i]).0.eot_sent;
                if i < n {
                    assert(rest[i].0.eot_sent);
                }
            }
        }
        assert((exists|i: int| 0 <= i < events.len() && (#[trigger] events[i]).0.eot_received) == (
        events.last().0.eot_received || (exists|i: int|
            0 <= i < rest.len() && (#[trigger] rest[i]).0.eot_received))) by {
            if exists|i: int| 0 <= i < rest.len() && (#[trigger] rest[i]).0.eot_received {
                let i = choose|i: int| 0 <= i < rest.len() && (#[trigger] rest[i]).0.eot_received;
                assert(events[i].0.eot_received);
            }
            if exists|i: int| 0 <= i < events.len() && (#[trigger] events[i]).0.eot_received {
                let i = choose|i: int| 0 <= i < events.len() && (#[trigger] events[i]).0.eot_received;
                if i < n {
                    assert(rest[i].0.eot_received);
                }
            }
        }
    }
}

/// The counter of a tracker is the largest that any of its events reported.
pub proof fn tracker_sent_is_the_largest_reported(
    start: TrackerState,
    events: Seq<(ProgressEvent, Timestamp)>,
)
    ensures
        forall|i: int| 0 <= i < events.len() ==> (#[trigger] events[i]).0.sent <= start.after_all(events).sent,
        forall|i: int| 0 <= i < events.len() ==> (#[trigger] events[i]).0.received
            <= start.after_all(events).received,
        start.after_all(events).sent == start.sent || (exists|i: int|
            0 <= i < events.len() && (#[trigger] events[i]).0.sent == start.after_all(events).sent),
        start.after_all(events).received == start.received || (exists|i: int|
            0 <= i < events.len() && (#[trigger] events[i]).0.received == start.after_all(events).received),
    decreases events.len(),
{
    if events.len() > 0 {
        let rest = events.drop_last();
        tracker_sent_is_the_largest_reported(start, rest);
        let before = start.after_all(rest);
        let n = events.len() - 1;
        assert forall|i: int| 0 <= i < events.len() implies (#[trigger] events[i]).0.sent
            <= start.after_all(events).sent && events[i].0.received <= start.after_all(events).received by {
            if i < n {
                assert(rest[i] == events[i]);
            }
        }
        if before.sent != start.sent && start.after_all(events).sent == before.sent {
            let i = choose|i: int| 0 <= i < rest.len() && (#[trigger] rest[i]).0.sent == before.sent;
            assert(events[i] == rest[i]);
        }
        if before.received != start.received && start.after_all(events).received == before.received {
            let i = choose|i: int| 0 <= i < rest.len() && (#[trigger] rest[i]).0.received == before.received;
            assert(events[i] == rest[i]);
        }
        if start.after_all(events).sent != before.sent {
            assert(events[n].0.sent == start.after_all(events).sent);
        }
        if start.after_all(events).received != before.received {
            assert(events[n].0.received == start.after_all(events).received);
        }
    }
}

/// The tracker of a spawn after some sequence of events, whichever it was.
pub open spec fn reachable(state: TrackerState, name: Seq<char>, start: Timestamp) -> bool {
    exists|events: Seq<(ProgressEvent, Timestamp)>| #[trigger]
        TrackerState::fresh(name, start).after_all(events) == state
}

proof fn reachable_after(
    state: TrackerState,
    name: Seq<char>,
    start: Timestamp,
    ev: ProgressEvent,
    now: Timestamp,
)
    requires
        reachable(state, name, start),
    ensures
        reachable(state.after(ev, now), name, start),
{
    let events = choose|events: Seq<(ProgressEvent, Timestamp)>| #[trigger]
        TrackerState::fresh(name, start).after_all(events) == state;
    let more = events.push((ev, now));
    assert(more.drop_last() =~= events);
    assert(TrackerState::fresh(name, start).after_all(more) == state.after(ev, now));
}

/// The trackers that a handle may hold: those of its spawn that events lead to.
pub struct OfSpawn {
    pub name: Seq<char>,
    pub start: Timestamp,
}

impl RwLockPredicate<LocalProgressTracker> for OfSpawn {
    open spec fn inv(self, v: LocalProgressTracker) -> bool {
        reachable(v@, self.name, self.start)
    }
}

/// A tracker that several threads share.
pub struct TrackerHandle {
    inner: Arc<RwLock<LocalProgressTracker, OfSpawn>>,
}

impl TrackerHandle {
    /// The spawn whose tracker is shared.
    pub closed spec fn spawn_name(&self) -> Seq<char> {
        self.inner.pred().name
    }

    /// When the tracker was made.
    pub closed spec fn start(&self) -> Timestamp {
        self.inner.pred().start
    }

    /// Shares a fresh tracker.
    pub fn new(spawn_name: String) -> (r: Self)
        ensures
            r.spawn_name() == spawn_name@,
    {
        let ghost name = spawn_name@;
        let tracker = LocalProgressTracker::new(spawn_name);
        let ghost start = tracker.last_progress_ts;
        proof {
            let none: Seq<(ProgressEvent, Timestamp)> = Seq::empty();
            assert(TrackerState::fresh(name, start).after_all(none) == tracker@);
        }
        TrackerHandle { inner: Arc::new(RwLock::new(tracker, Ghost(OfSpawn { name, start }))) }
    }

    /// The tracker as it stands: that of its spawn after the events that the threads that
    /// share it have folded in. Which events those are depends on the threads.
    pub fn snapshot(&self) -> (r: LocalProgressTracker)
        ensures
            reachable(r@, self.spawn_name(), self.start()),
    {
        let handle = self.inner.acquire_read();
        let r = handle.borrow().clone();
        handle.release_read();
        r
    }

    /// Folds one event into the shared tracker, as `LocalProgressTracker::apply_progress`
    /// does while no other thread has it. Between this call and the next another
    /// thread may change the tracker, so nothing is stated of what a later snapshot
    /// shows.
    pub fn apply_progress(&self, ev: &ProgressEvent, now: Timestamp) {
        let (mut tracker, handle) = self.inner.acquire_write();
        let ghost before = tracker@;
        tracker.apply_progress(ev, now);
        proof {
            reachable_after(before, self.inner.pred().name, self.inner.pred().start, *ev, now);
        }
        handle.release_write(tracker);
    }
}

impl Clone for TrackerHandle {
    fn clone(&self) -> (r: Self)
        ensures
            r.spawn_name() == self.spawn_name(),
            r.start() == self.start(),
    {
        TrackerHandle { inner: self.inner.clone() }
    }
}

/// A line that a variant printed.
#[derive(Debug, Clone, PartialEq, Eq)]
pub enum StdoutEvent {
    Progress(ProgressEvent),
    /// An event of another kind.
    Other,
}

/// What became of a line.
#[derive(Debug, Clone, Copy, PartialEq, Eq, Structural)]
pub enum LineNote {
    /// It was folded into the tracker.
    Applied,
    /// It is of another kind.
    Ignored,
    /// It is no event.
    Malformed,
}

/// Folds a line into the tracker where it is a progress event. A line that is none leaves
/// the tracker as it is.
pub fn apply_stdout_event(
    event: Option<&StdoutEvent>,
    tracker: &mut LocalProgressTracker,
    now: Timestamp,
) -> (r: LineNote)
    ensures
        match event {
            Some(StdoutEvent::Progress(ev)) => r == LineNote::Applied && final(tracker)@
                == old(tracker)@.after(*ev, now),
            Some(StdoutEvent::Other) => r == LineNote::Ignored && final(tracker)@ == old(tracker)@,
            None => r == LineNote::Malformed && final(tracker)@ == old(tracker)@,
        },
{
    match event {
        Some(StdoutEvent::Progress(ev)) => {
            tracker.apply_progress(ev, now);
            LineNote::Applied
        },
        Some(StdoutEvent::Other) => LineNote::Ignored,
        None => LineNote::Malformed,
    }
}

/// Folds a line into a shared tracker, as `apply_stdout_event` does while no other thread
/// has it.
pub fn handle_stdout_line(event: Option<&StdoutEvent>, tracker: &TrackerHandle, now: Timestamp) -> (r:
    LineNote)
    ensures
        r == (match event {
            Some(StdoutEvent::Progress(_)) => LineNote::Applied,
            Some(StdoutEvent::Other) => LineNote::Ignored,
            None => LineNote::Malformed,
        }),
{
    let (mut inner, handle) = tracker.inner.acquire_write();
    let ghost before = inner@;
    let note = apply_stdout_event(event, &mut inner, now);
    proof {
        match event {
            Some(StdoutEvent::Progress(ev)) => {
                reachable_after(before, tracker.inner.pred().name, tracker.inner.pred().start, *ev, now);
            },
            _ => {},
        }
    }
    handle.release_write(inner);
    note
}

// ---------------------------------------------------------------------
// Remote view
// ---------------------------------------------------------------------

/// The latest that a peer has published of one spawn.
#[derive(Debug, PartialEq, Eq)]
pub struct RemoteSpawnSnapshot {
    pub phase: String,
    pub sent: u64,
    pub received: u64,
    pub eot_sent: bool,
    pub eot_received: bool,
    pub ts: String,
    pub last_update_ts: Timestamp,
}

/// One progress update of a peer.
#[derive(Debug, Clone, Copy)]
pub struct ProgressUpdateRef<'a> {
    pub runner: &'a str,
    pub spawn: &'a str,
    pub phase: &'a str,
    pub sent: u64,
    pub received: u64,
    pub eot_sent: bool,
    pub eot_received: bool,
    pub ts: &'a str,
}

/// What an update says.
pub struct UpdateView {
    pub runner: Seq<char>,
    pub spawn: Seq<char>,
    pub phase: Seq<char>,
    pub sent: u64,
    pub received: u64,
    pub eot_sent: bool,
    pub eot_received: bool,
    pub ts: Seq<char>,
}

impl<'a> ProgressUpdateRef<'a> {
    pub open spec fn view(&self) -> UpdateView {
        UpdateView {
            runner: self.runner@,
            spawn: self.spawn@,
            phase: self.phase@,
            sent: self.sent,
            received: self.received,
            eot_sent: self.eot_sent,
            eot_received: self.eot_received,
            ts: self.ts@,
        }
    }
}

/// The value of a snapshot.
pub struct SnapshotState {
    pub phase: Seq<char>,
    pub sent: u64,
    pub received: u64,
    pub eot_sent: bool,
    pub eot_received: bool,
    pub ts: Seq<char>,
    pub last_update_ts: Timestamp,
}

impl SnapshotState {
    /// The snapshot of a spawn of which `ev` is the first update.
    pub open spec fn first(ev: UpdateView, now: Timestamp) -> Self {
        SnapshotState {
            phase: ev.phase,
            sent: ev.sent,
            received: ev.received,
            eot_sent: ev.eot_sent,
            eot_received: ev.eot_received,
            ts: ev.ts,
            last_update_ts: now,
        }
    }

    /// The snapshot after `ev` came in at `now`. A counter moves only forward, a
    /// mark of the end of the test stays once it is set.
    pub open spec fn after(self, ev: UpdateView, now: Timestamp) -> Self {
        SnapshotState {
            phase: ev.phase,
            sent: if ev.sent > self.sent { ev.sent } else { self.sent },
            received: if ev.received > self.received { ev.received } else { self.received },
            eot_sent: self.eot_sent || ev.eot_sent,
            eot_received: self.eot_received || ev.eot_received,
            ts: ev.ts,
            last_update_ts: now,
        }
    }
}

impl RemoteSpawnSnapshot {
    pub open spec fn view(&self) -> SnapshotState {
        SnapshotState {
            phase: self.phase@,
            sent: self.sent,
            received: self.received,
            eot_sent: self.eot_sent,
            eot_received: self.eot_received,
            ts: self.ts@,
            last_update_ts: self.last_update_ts,
        }
    }

    /// Folds one update in.
    pub fn apply(&mut self, ev: ProgressUpdateRef<'_>, now: Timestamp)
        ensures
            final(self)@ == old(self)@.after(ev@, now),
    {
        self.phase = ev.phase.to_owned();
        if ev.sent > self.sent {
            self.sent = ev.sent;
        }
        if ev.received > self.received {
            self.received = ev.received;
        }
        if ev.eot_sent {
            self.eot_sent = true;
        }
        if ev.eot_received {
            self.eot_received = true;
        }
        self.ts = ev.ts.to_owned();
        self.last_update_ts = now;
    }
}

impl Clone for RemoteSpawnSnapshot {
    fn clone(&self) -> (r: Self)
        ensures
            r == *self,
    {
        RemoteSpawnSnapshot {
            phase: self.phase.clone(),
            sent: self.sent,
            received: self.received,
            eot_sent: self.eot_sent,
            eot_received: self.eot_received,
            ts: self.ts.clone(),
            last_update_ts: self.last_update_ts,
        }
    }
}

/// What the peers have published, by peer and by spawn.
#[derive(Debug, PartialEq, Eq)]
pub struct RemoteProgressView {
    by_peer: NameMap<NameMap<RemoteSpawnSnapshot>>,
}

/// The spawns of one peer.
pub type SpawnStates = Map<Seq<char>, SnapshotState>;

spec fn spawn_states(m: NameMap<RemoteSpawnSnapshot>) -> SpawnStates {
    m@.map_values(|s: RemoteSpawnSnapshot| s@)
}

/// The view after `ev` came in at `now`.
pub open spec fn updated(
    view: Map<Seq<char>, SpawnStates>,
    ev: UpdateView,
    now: Timestamp,
) -> Map<Seq<char>, SpawnStates> {
    let spawns = if view.contains_key(ev.runner) {
        view[ev.runner]
    } else {
        Map::empty()
    };
    let snapshot = if spawns.contains_key(ev.spawn) {
        spawns[ev.spawn].after(ev, now)
    } else {
        SnapshotState::first(ev, now)
    };
    view.insert(ev.runner, spawns.insert(ev.spawn, snapshot))
}

/// The view after a sequence of updates, the last one at the end.
pub open spec fn updated_by_all(
    start: Map<Seq<char>, SpawnStates>,
    updates: Seq<(UpdateView, Timestamp)>,
) -> Map<Seq<char>, SpawnStates>
    decreases updates.len(),
{
    if updates.len() == 0 {
        start
    } else {
        updated(updated_by_all(start, updates.drop_last()), updates.last().0, updates.last().1)
    }
}

impl RemoteProgressView {
    /// By peer, then by spawn, the latest snapshot.
    pub closed spec fn view(&self) -> Map<Seq<char>, SpawnStates> {
        self.by_peer@.map_values(|m: NameMap<RemoteSpawnSnapshot>| spawn_states(m))
    }

    /// A view in which no peer has published anything.
    pub fn new() -> (r: Self)
        ensures
            r@ == Map::<Seq<char>, SpawnStates>::empty(),
    {
        let r = RemoteProgressView { by_peer: NameMap::new() };
        assert(r@ =~= Map::empty());
        r
    }

    /// Folds one update in.
    pub fn apply_update(&mut self, ev: ProgressUpdateRef<'_>, now: Timestamp)
        ensures
            final(self)@ == updated(old(self)@, ev@, now),
    {
        let ghost before = self.by_peer@;
        let mut spawns = match self.by_peer.remove(ev.runner) {
            Some(m) => m,
            None => NameMap::new(),
        };
        let ghost spawns_before = spawn_states(spawns);
        assert(spawns_before =~= (if self@.contains_key(ev.runner@) {
            self@[ev.runner@]
        } else {
            spawns_before
        }));
        let mut snapshot = match spawns.remove(ev.spawn) {
            Some(s) => s,
            None => RemoteSpawnSnapshot {
                phase: ev.phase.to_owned(),
                sent: ev.sent,
                received: ev.received,
                eot_sent: ev.eot_sent,
                eot_received: ev.eot_received,
                ts: ev.ts.to_owned(),
                last_update_ts: now,
            },
        };
        snapshot.apply(ev, now);
        let ghost state = snapshot@;
        spawns.insert(ev.spawn.to_owned(), snapshot);
        assert(spawn_states(spawns) =~= spawns_before.insert(ev.spawn@, state));
        let ghost spawns_after = spawns;
        self.by_peer.insert(ev.runner.to_owned(), spawns);
        proof {
            let old_view = before.map_values(|m: NameMap<RemoteSpawnSnapshot>| spawn_states(m));
            if before.contains_key(ev.runner@) {
                assert(old_view[ev.runner@] == spawns_before);
            } else {
                assert(spawns_before =~= Map::empty());
            }
            assert(self@ =~= updated(old_view, ev@, now));
        }
    }

    /// The latest snapshot of a peer's spawn, if the peer has published one.
    pub fn snapshot_for(&self, peer: &str, spawn: &str) -> (r: Option<RemoteSpawnSnapshot>)
        ensures
            match r {
                Some(s) => self@.contains_key(peer@) && self@[peer@].contains_key(spawn@) && s@
                    == self@[peer@][spawn@],
                None => !(self@.contains_key(peer@) && self@[peer@].contains_key(spawn@)),
            },
    {
        match self.by_peer.get(peer) {
            Some(m) => match m.get(spawn) {
                Some(s) => Some(s.clone()),
                None => None,
            },
            None => None,
        }
    }

    /// How many peers have published something.
    pub fn peer_count(&self) -> (r: usize)
        ensures
            r == self@.dom().len(),
    {
        assert(self@.dom() =~= self.by_peer@.dom());
        self.by_peer.len()
    }

    /// The peers that have published something, ascending.
    pub fn peers(&self) -> (r: Vec<String>)
        ensures
            ascending(texts(r@)),
            name_set(r@) == self@.dom(),
    {
        assert(self@.dom() =~= self.by_peer@.dom());
        self.by_peer.keys()
    }
}

impl Clone for RemoteProgressView {
    fn clone(&self) -> (r: Self)
        ensures
            r@ == self@,
    {
        let by_peer = self.by_peer.clone();
        proof {
            let f = |m: NameMap<RemoteSpawnSnapshot>| spawn_states(m);
            assert forall|k: Seq<char>| self.by_peer@.contains_key(k) implies spawn_states(by_peer@[k])
                == spawn_states(self.by_peer@[k]) by {
                assert(cloned(self.by_peer@[k], by_peer@[k]));
                assert(spawn_states(by_peer@[k]) =~= spawn_states(self.by_peer@[k]));
            }
            assert(by_peer@.map_values(f) =~= self.by_peer@.map_values(f));
        }
        RemoteProgressView { by_peer }
    }
}

/// An update neither takes a counter back nor a mark of the end of the test away,
/// and leaves every other spawn and every other peer as it was.
pub proof fn update_moves_forward_and_touches_one_spawn(
    view: Map<Seq<char>, SpawnStates>,
    ev: UpdateView,
    now: Timestamp,
    peer: Seq<char>,
    spawn: Seq<char>,
)
    requires
        view.contains_key(peer),
        view[peer].contains_key(spawn),
    ensures
        updated(view, ev, now).contains_key(peer),
        updated(view, ev, now)[peer].contains_key(spawn),
        updated(view, ev, now)[peer][spawn].sent >= view[peer][spawn].sent,
        updated(view, ev, now)[peer][spawn].received >= view[peer][spawn].received,
        view[peer][spawn].eot_sent ==> updated(view, ev, now)[peer][spawn].eot_sent,
        view[peer][spawn].eot_received ==> updated(view, ev, now)[peer][spawn].eot_received,
        (peer != ev.runner || spawn != ev.spawn) ==> updated(view, ev, now)[peer][spawn]
            == view[peer][spawn],
{
}

/// Every snapshot of a view that began empty has just the counters and marks that were
/// published: each counter is that of some update of that peer and spawn, and none of
/// their updates has a larger one.
pub proof fn view_holds_what_was_published(
    updates: Seq<(UpdateView, Timestamp)>,
    peer: Seq<char>,
    spawn: Seq<char>,
)
    ensures
        ({
            let view = updated_by_all(Map::empty(), updates);
            let of = |i: int| updates[i].0.runner == peer && updates[i].0.spawn == spawn;
            let known = view.contains_key(peer) && view[peer].contains_key(spawn);
            &&& known <==> exists|i: int| 0 <= i < updates.len() && #[trigger] of(i)
            &&& known ==> (exists|i: int|
                0 <= i < updates.len() && #[trigger] of(i) && updates[i].0.sent == view[peer][spawn].sent)
            &&& known ==> (exists|i: int|
                0 <= i < updates.len() && #[trigger] of(i) && updates[i].0.received
                    == view[peer][spawn].received)
            &&& forall|i: int|
                0 <= i < updates.len() && #[trigger] of(i) ==> updates[i].0.sent <= view[peer][spawn].sent
                    && updates[i].0.received <= view[peer][spawn].received && (updates[i].0.eot_sent
                    ==> view[peer][spawn].eot_sent) && (updates[i].0.eot_received
                    ==> view[peer][spawn].eot_received)
        }),
    decreases updates.len(),
{
    let of = |i: int| updates[i].0.runner == peer && updates[i].0.spawn == spawn;
    if updates.len() > 0 {
        let t = updates.drop_last();
        let n = updates.len() - 1;
        view_holds_what_was_published(t, peer, spawn);
        let oft = |i: int| t[i].0.runner == peer && t[i].0.spawn == spawn;
        assert forall|i: int| 0 <= i < n implies #[trigger] oft(i) == of(i) && t[i] == updates[i] by {}
        let before = updated_by_all(Map::empty(), t);
        let view = updated_by_all(Map::empty(), updates);
        let was_known = before.contains_key(peer) && before[peer].contains_key(spawn);
        if was_known {
            let i = choose|i: int|
                0 <= i < t.len() && #[trigger] oft(i) && t[i].0.sent == before[peer][spawn].sent;
            assert(of(i));
            let j = choose|j: int|
                0 <= j < t.len() && #[trigger] oft(j) && t[j].0.received == before[peer][spawn].received;
            assert(of(j));
        }
        assert(of(n) == (updates.last().0.runner == peer && updates.last().0.spawn == spawn));
        assert forall|i: int| 0 <= i < updates.len() && #[trigger] of(i) implies updates[i].0.sent
            <= view[peer][spawn].sent && updates[i].0.received <= view[peer][spawn].received && (
        updates[i].0.eot_sent ==> view[peer][spawn].eot_sent) && (updates[i].0.eot_received
            ==> view[peer][spawn].eot_received) by {
            if i < n {
                assert(oft(i));
            }
        }
        if exists|i: int| 0 <= i < updates.len() && #[trigger] of(i) {
            let i = choose|i: int| 0 <= i < updates.len() && #[trigger] of(i);
            if i < n {
                assert(oft(i));
            }
        }
    }
}

/// In whichever order two updates of one spawn come in, the counters and the
/// marks of the end of the test come out the same.
pub proof fn update_order_does_not_matter_to_counters(
    s: SnapshotState,
    a: UpdateView,
    at_a: Timestamp,
    b: UpdateView,
    at_b: Timestamp,
)
    ensures
        s.after(a, at_a).after(b, at_b).sent == s.after(b, at_b).after(a, at_a).sent,
        s.after(a, at_a).after(b, at_b).received == s.after(b, at_b).after(a, at_a).received,
        s.after(a, at_a).after(b, at_b).eot_sent == s.after(b, at_b).after(a, at_a).eot_sent,
        s.after(a, at_a).after(b, at_b).eot_received == s.after(b, at_b).after(
            a,
            at_a,
        ).eot_received,
{
}

/// The view after some sequence of updates, whichever it was.
pub open spec fn view_reachable(
    view: Map<Seq<char>, SpawnStates>,
    start: Map<Seq<char>, SpawnStates>,
) -> bool {
    exists|updates: Seq<(UpdateView, Timestamp)>| #[trigger] updated_by_all(start, updates) == view
}

proof fn view_reachable_after(
    view: Map<Seq<char>, SpawnStates>,
    start: Map<Seq<char>, SpawnStates>,
    ev: UpdateView,
    now: Timestamp,
)
    requires
        view_reachable(view, start),
    ensures
        view_reachable(updated(view, ev, now), start),
{
    let updates = choose|updates: Seq<(UpdateView, Timestamp)>| #[trigger]
        updated_by_all(start, updates) == view;
    let more = updates.push((ev, now));
    assert(more.drop_last() =~= updates);
    assert(updated_by_all(start, more) == updated(view, ev, now));
}

/// The views that a handle may hold: those that updates lead to from where it began.
pub struct OfUpdates {
    pub start: Map<Seq<char>, SpawnStates>,
}

impl RwLockPredicate<RemoteProgressView> for OfUpdates {
    open spec fn inv(self, v: RemoteProgressView) -> bool {
        view_reachable(v@, self.start)
    }
}

/// A remote view that several threads share.
pub struct RemoteProgressViewHandle {
    inner: Arc<RwLock<RemoteProgressView, OfUpdates>>,
}

impl RemoteProgressViewHandle {
    /// What the view held when it was first shared.
    pub closed spec fn start(&self) -> Map<Seq<char>, SpawnStates> {
        self.inner.pred().start
    }

    /// Shares an empty view. Whatever a snapshot shows later stems from updates.
    pub fn new() -> (r: Self)
        ensures
            r.start() == Map::<Seq<char>, SpawnStates>::empty(),
    {
        let view = RemoteProgressView::new();
        let ghost start = view@;
        proof {
            let none: Seq<(UpdateView, Timestamp)> = Seq::empty();
            assert(updated_by_all(start, none) == view@);
        }
        RemoteProgressViewHandle { inner: Arc::new(RwLock::new(view, Ghost(OfUpdates { start }))) }
    }

    /// Folds a frame of a peer into the shared view, as `fold_frame` does while no other
    /// thread has it.
    pub fn receive(&self, msg: Option<&Message>, now: Timestamp) -> (r: FrameNote)
        ensures
            r == (match msg {
                None => FrameNote::Malformed,
                Some(m) => if m is ProgressUpdate {
                    FrameNote::Kept
                } else {
                    FrameNote::Unexpected
                },
            }),
    {
        let (mut view, handle) = self.inner.acquire_write();
        let ghost before = view@;
        let note = fold_frame(&mut view, msg, now);
        proof {
            match msg {
                Some(m) => if m is ProgressUpdate {
                    view_reachable_after(before, self.inner.pred().start, update_in(*m)->0, now);
                },
                None => {},
            }
        }
        handle.release_write(view);
        note
    }

    /// Folds one update into the shared view, as `RemoteProgressView::apply_update`
    /// does while no other thread has it. Between this call and the next another
    /// thread may change the view, so nothing is stated of what a later snapshot
    /// shows.
    pub fn apply_update(&self, ev: ProgressUpdateRef<'_>, now: Timestamp) {
        let (mut view, handle) = self.inner.acquire_write();
        let ghost before = view@;
        view.apply_update(ev, now);
        proof {
            view_reachable_after(before, self.inner.pred().start, ev@, now);
        }
        handle.release_write(view);
    }

    /// The view as it stands: that after the updates that the threads that share it have
    /// folded in. Which updates those are depends on the threads.
    pub fn snapshot(&self) -> (r: RemoteProgressView)
        ensures
            view_reachable(r@, self.start()),
    {
        let handle = self.inner.acquire_read();
        let r = handle.borrow().clone();
        handle.release_read();
        r
    }
}

impl Clone for RemoteProgressViewHandle {
    /// Another handle to the same shared view.
    fn clone(&self) -> (r: Self)
        ensures
            r == *self,
    {
        RemoteProgressViewHandle { inner: self.inner.clone() }
    }
}

// ---------------------------------------------------------------------
// Laws of progress
// ---------------------------------------------------------------------

/// A tracker shows the phase of the last event and when that came in.
pub proof fn tracker_shows_the_last_event(start: TrackerState, events: Seq<(ProgressEvent, Timestamp)>)
    ensures
        events.len() == 0 ==> start.after_all(events) == start,
        events.len() > 0 ==> start.after_all(events).phase == events.last().0.phase@
            && start.after_all(events).last_progress_ts == events.last().1,
        start.after_all(events).spawn_name == start.spawn_name,
    decreases events.len(),
{
    if events.len() > 0 {
        tracker_shows_the_last_event(start, events.drop_last());
    }
}

/// A counter of a tracker last changed when the first event came in that reported it as
/// high as it is, and never where no event reported more than there was at the start.
pub proof fn change_times_are_those_of_the_rise(
    start: TrackerState,
    events: Seq<(ProgressEvent, Timestamp)>,
)
    ensures
        ({
            let end = start.after_all(events);
            &&& end.sent == start.sent ==> end.last_sent_change_ts == start.last_sent_change_ts
            &&& end.sent > start.sent ==> exists|i: int|
                {
                    &&& 0 <= i < events.len()
                    &&& (#[trigger] events[i]).0.sent == end.sent
                    &&& end.last_sent_change_ts == events[i].1
                    &&& forall|j: int| 0 <= j < i ==> (#[trigger] events[j]).0.sent < end.sent
                }
            &&& end.received == start.received ==> end.last_received_change_ts
                == start.last_received_change_ts
            &&& end.received > start.received ==> exists|i: int|
                {
                    &&& 0 <= i < events.len()
                    &&& (#[trigger] events[i]).0.received == end.received
                    &&& end.last_received_change_ts == events[i].1
                    &&& forall|j: int| 0 <= j < i ==> (#[trigger] events[j]).0.received < end.received
                }
        }),
    decreases events.len(),
{
    if events.len() > 0 {
        let t = events.drop_last();
        let n = events.len() - 1;
        let before = start.after_all(t);
        let end = start.after_all(events);
        change_times_are_those_of_the_rise(start, t);
        tracker_counters_never_go_back(start, t);
        tracker_sent_is_the_largest_reported(start, t);
        assert(events[n] == events.last());
        assert forall|i: int| 0 <= i < n implies t[i] == #[trigger] events[i] by {}
        if end.sent > before.sent {
            assert(events[n].0.sent == end.sent);
            assert forall|j: int| 0 <= j < n implies (#[trigger] events[j]).0.sent < end.sent by {
                assert(t[j] == events[j]);
            }
        } else if end.sent > start.sent {
            let i = choose|i: int|
                {
                    &&& 0 <= i < t.len()
                    &&& (#[trigger] t[i]).0.sent == before.sent
                    &&& before.last_sent_change_ts == t[i].1
                    &&& forall|j: int| 0 <= j < i ==> (#[trigger] t[j]).0.sent < before.sent
                };
            assert(events[i].0.sent == end.sent);
            assert forall|j: int| 0 <= j < i implies (#[trigger] events[j]).0.sent < end.sent by {
                assert(t[j] == events[j]);
            }
        }
        if end.received > before.received {
            assert(events[n].0.received == end.received);
            assert forall|j: int| 0 <= j < n implies (#[trigger] events[j]).0.received < end.received by {
                assert(t[j] == events[j]);
            }
        } else if end.received > start.received {
            let i = choose|i: int|
                {
                    &&& 0 <= i < t.len()
                    &&& (#[trigger] t[i]).0.received == before.received
                    &&& before.last_received_change_ts == t[i].1
                    &&& forall|j: int| 0 <= j < i ==> (#[trigger] t[j]).0.received < before.received
                };
            assert(events[i].0.received == end.received);
            assert forall|j: int| 0 <= j < i implies (#[trigger] events[j]).0.received < end.received by {
                assert(t[j] == events[j]);
            }
        }
    }
}

/// A tracker that has heard nothing has zero counters, no mark, an unknown phase and the
/// time of its making everywhere.
pub proof fn fresh_tracker_knows_nothing(name: Seq<char>, now: Timestamp)
    ensures
        ({
            let s = TrackerState::fresh(name, now);
            &&& s.spawn_name == name && s.phase == "unknown"@
            &&& s.sent == 0 && s.received == 0 && !s.eot_sent && !s.eot_received
            &&& s.last_progress_ts == now && s.last_sent_change_ts == now && s.last_received_change_ts == now
        }),
{
}

/// What a view shows of a spawn after an update of it: the phase and the stamp of the update
/// and when it came in; each counter as high as it was or as the update says, whichever is
/// more; and each mark where it was set or the update sets it.
pub proof fn update_in_full(view: Map<Seq<char>, SpawnStates>, ev: UpdateView, now: Timestamp)
    ensures
        ({
            let after = updated(view, ev, now);
            let known = view.contains_key(ev.runner) && view[ev.runner].contains_key(ev.spawn);
            let was = view[ev.runner][ev.spawn];
            let is = after[ev.runner][ev.spawn];
            &&& after.contains_key(ev.runner) && after[ev.runner].contains_key(ev.spawn)
            &&& is.phase == ev.phase && is.ts == ev.ts && is.last_update_ts == now
            &&& !known ==> is.sent == ev.sent && is.received == ev.received
            &&& !known ==> is.eot_sent == ev.eot_sent && is.eot_received == ev.eot_received
            &&& known ==> is.sent == (if ev.sent >= was.sent {
                ev.sent
            } else {
                was.sent
            })
            &&& known ==> is.received == (if ev.received >= was.received {
                ev.received
            } else {
                was.received
            })
            &&& known ==> (is.eot_sent <==> was.eot_sent || ev.eot_sent)
            &&& known ==> (is.eot_received <==> was.eot_received || ev.eot_received)
        }),
{
}

/// An update changes nothing else: neither another peer nor another spawn of the peer is
/// touched, and none appears.
pub proof fn update_touches_nothing_else(
    view: Map<Seq<char>, SpawnStates>,
    ev: UpdateView,
    now: Timestamp,
    peer: Seq<char>,
    spawn: Seq<char>,
)
    requires
        peer != ev.runner || spawn != ev.spawn,
    ensures
        ({
            let after = updated(view, ev, now);
            let known = view.contains_key(peer) && view[peer].contains_key(spawn);
            &&& after.contains_key(peer) && after[peer].contains_key(spawn) <==> known
            &&& known ==> after[peer][spawn] == view[peer][spawn]
        }),
{
}

/// What a tracker, an update and a snapshot are taken for is what they hold.
pub proof fn progress_is_taken_for_what_it_is(
    t: LocalProgressTracker,
    u: ProgressUpdateRef<'_>,
    s: RemoteSpawnSnapshot,
)
    ensures
        t@.spawn_name == t.spawn_name@ && t@.phase == t.phase@ && t@.sent == t.sent && t@.received == t.received,
        t@.eot_sent == t.eot_sent && t@.eot_received == t.eot_received,
        t@.last_progress_ts == t.last_progress_ts && t@.last_sent_change_ts == t.last_sent_change_ts
            && t@.last_received_change_ts == t.last_received_change_ts,
        u@.runner == u.runner@ && u@.spawn == u.spawn@ && u@.phase == u.phase@ && u@.ts == u.ts@,
        u@.sent == u.sent && u@.received == u.received && u@.eot_sent == u.eot_sent && u@.eot_received
            == u.eot_received,
        s@.phase == s.phase@ && s@.ts == s.ts@ && s@.last_update_ts == s.last_update_ts,
        s@.sent == s.sent && s@.received == s.received && s@.eot_sent == s.eot_sent && s@.eot_received
            == s.eot_received,
{
}

/// What a progress event changes of a tracker: it shows the phase of the event and when it
/// came in; a counter that the event reports higher is that high since then, and any other
/// stays with its time; a mark is set where it was or the event sets it.
pub proof fn event_in_full(t: &mut LocalProgressTracker, ev: &ProgressEvent, now: Timestamp, r: ())
    requires
        call_ensures(LocalProgressTracker::apply_progress, (t, ev, now), r),
    ensures
        final(t).spawn_name@ == old(t).spawn_name@,
        final(t).phase@ == ev.phase@,
        final(t).last_progress_ts == now,
        ev.sent > old(t).sent ==> final(t).sent == ev.sent && final(t).last_sent_change_ts == now,
        ev.sent <= old(t).sent ==> final(t).sent == old(t).sent && final(t).last_sent_change_ts == old(t).last_sent_change_ts,
        ev.received > old(t).received ==> final(t).received == ev.received && final(t).last_received_change_ts == now,
        ev.received <= old(t).received ==> final(t).received == old(t).received && final(t).last_received_change_ts == old(t).last_received_change_ts,
        final(t).eot_sent <==> old(t).eot_sent || ev.eot_sent,
        final(t).eot_received <==> old(t).eot_received || ev.eot_received,
{
    let (a, b) = (old(t)@, final(t)@);
    assert(b.spawn_name == a.spawn_name && b.sent == final(t).sent && b.received == final(t).received);
}

/// A line that is progress is put into the tracker, and any other changes nothing; which of
/// the three it was is told.
pub proof fn lines_are_told_apart(
    event: Option<&StdoutEvent>,
    t: &mut LocalProgressTracker,
    now: Timestamp,
    r: LineNote,
)
    requires
        call_ensures(apply_stdout_event, (event, t, now), r),
    ensures
        r == LineNote::Malformed <==> event is None,
        r == LineNote::Applied <==> event is Some && *event->0 is Progress,
        r != LineNote::Applied ==> final(t)@ == old(t)@,
        r == LineNote::Applied ==> {
            let ev = (*event->0)->Progress_0;
            &&& final(t)@.phase == ev.phase@
            &&& final(t)@.last_progress_ts == now
            &&& final(t)@.sent == if ev.sent > old(t)@.sent {
                ev.sent
            } else {
                old(t)@.sent
            }
            &&& final(t)@.received == if ev.received > old(t)@.received {
                ev.received
            } else {
                old(t)@.received
            }
        },
{
}

/// The note on a line, where the tracker is shared: the same as where it is not.
pub proof fn lines_of_a_shared_tracker_are_told_apart(
    event: Option<&StdoutEvent>,
    t: &TrackerHandle,
    now: Timestamp,
    r: LineNote,
)
    requires
        call_ensures(handle_stdout_line, (event, t, now), r),
    ensures
        r == LineNote::Malformed <==> event is None,
        r == LineNote::Applied <==> event is Some && *event->0 is Progress,
{
}

/// What an update of a peer changes of the view, seen by asking the view before and after: the
/// spawn of the update is there with its phase, its stamp and the time, and with counters that
/// are as high as before or as the update says, whichever is more; every other spawn is there
/// just where it was, as it was.
pub proof fn view_is_asked_after_an_update(
    view: &mut RemoteProgressView,
    ev: ProgressUpdateRef<'_>,
    now: Timestamp,
    r: (),
    peer: &str,
    spawn: &str,
    before: Option<RemoteSpawnSnapshot>,
    after: Option<RemoteSpawnSnapshot>,
)
    requires
        call_ensures(RemoteProgressView::apply_update, (view, ev, now), r),
        call_ensures(RemoteProgressView::snapshot_for, (old(view), peer, spawn), before),
        call_ensures(RemoteProgressView::snapshot_for, (final(view), peer, spawn), after),
    ensures
        peer@ == ev.runner@ && spawn@ == ev.spawn@ ==> {
            &&& after is Some
            &&& after->0.phase@ == ev.phase@ && after->0.ts@ == ev.ts@ && after->0.last_update_ts == now
            &&& before is None ==> after->0.sent == ev.sent && after->0.received == ev.received
            &&& before is Some ==> after->0.sent == if ev.sent >= before->0.sent {
                ev.sent
            } else {
                before->0.sent
            }
            &&& before is Some ==> after->0.received == if ev.received >= before->0.received {
                ev.received
            } else {
                before->0.received
            }
            &&& after->0.eot_sent <==> ev.eot_sent || (before is Some && before->0.eot_sent)
            &&& after->0.eot_received <==> ev.eot_received || (before is Some && before->0.eot_received)
        },
        peer@ != ev.runner@ || spawn@ != ev.spawn@ ==> {
            &&& after is Some <==> before is Some
            &&& before is Some ==> after->0@ == before->0@
        },
{
    update_in_full(old(view)@, ev@, now);
    if peer@ != ev.runner@ || spawn@ != ev.spawn@ {
        update_touches_nothing_else(old(view)@, ev@, now, peer@, spawn@);
    } else {
        let is = final(view)@[ev.runner@][ev.spawn@];
        assert(after->0@ == is);
        if let Some(s) = before {
            assert(s@ == old(view)@[ev.runner@][ev.spawn@]);
        }
    }
}

/// The peers of a view are those of which an update has come in, each once, in ascending
/// order, and they are counted.
pub proof fn peers_of_a_view_are_listed(
    view: &RemoteProgressView,
    peers: Vec<String>,
    count: usize,
    peer: Seq<char>,
)
    requires
        call_ensures(RemoteProgressView::peers, (view,), peers),
        call_ensures(RemoteProgressView::peer_count, (view,), count),
    ensures
        texts(peers@).contains(peer) <==> view@.contains_key(peer),
        ascending(texts(peers@)),
        count == view@.dom().len(),
{
    assert(name_set(peers@).contains(peer) <==> texts(peers@).contains(peer));
}

} // verus!
