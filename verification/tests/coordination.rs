//! Discovery, barriers and the channels between runners.

use runner::barrier_coord::{
    read_barrier_frame, write_barrier_frame, BarrierCoordinator, BarrierStart, FrameNote,
    BARRIER_FRAME_MAX_BYTES,
};
use runner::message::Message;
use runner::names::{NameMap, NameSet};
use runner::peer_link::{
    accept_and_handshake, after_read_fault, connect_and_handshake, frame_length, listener_port,
    too_long_message, ConnectTarget, FrameRead, HandshakeError, ReadFault, ReaderStep, StartupStep,
};
use runner::progress::{RemoteProgressView, RemoteProgressViewHandle};
use runner::progress_coord::{
    fold_frame, read_progress_frame, update_of, write_progress_frame, ProgressCoordinator, ProgressStart,
};
use runner::protocol::{
    linger_step, receive_window, BarrierEvent, BarrierStep, BarrierTimeoutError, Coordinator,
    DiscoverError, DiscoverEvent, DiscoverStep, Discovery, PeerAddr,
};
use runner::time::{Duration, Timestamp};

fn names(list: &[&str]) -> Vec<String> {
    list.iter().map(|s| s.to_string()).collect()
}

fn alone() -> Coordinator {
    Coordinator::new(
        "local".into(),
        &["local".to_string()],
        "somehash".into(),
        0, // port unused where the runner is alone
        "run01-20260415_120000".into(),
        "run01".into(),
        false,
    )
}

fn coordinator(name: &str, runners: &[&str], hash: &str, subdir: &str, run: &str) -> Coordinator {
    Coordinator::new(
        name.into(),
        &names(runners),
        hash.into(),
        29800,
        subdir.into(),
        run.into(),
        false,
    )
}

fn hear(c: &mut Coordinator, d: &mut Discovery, msg: &Message) -> DiscoverStep {
    c.discover(
        d,
        DiscoverEvent::Received {
            msg,
            host: "127.0.0.1",
        },
    )
}

#[test]
fn single_runner_discover_is_immediate() {
    let mut coord = alone();
    assert!(coord.is_single_runner());
    let mut d = Discovery::new();
    match coord.discover(&mut d, DiscoverEvent::Start) {
        DiscoverStep::Finish(s) => assert_eq!(s, "run01-20260415_120000"),
        _ => panic!("discovery must finish at once"),
    }
    let hosts = coord.peer_hosts();
    assert_eq!(hosts.get("local"), Some(&"127.0.0.1".to_string()));
    assert_eq!(hosts.len(), 1);
}

#[test]
fn single_runner_ready_barrier_is_immediate() {
    let coord = alone();
    let mut seen = NameSet::new();
    assert!(matches!(
        coord.ready_barrier(
            "test-variant",
            Duration::from_millis(1),
            &mut seen,
            BarrierEvent::Start
        ),
        BarrierStep::Finish
    ));
}

#[test]
fn single_runner_done_barrier_returns_own_result() {
    let coord = alone();
    let mut results = NameMap::new();
    assert!(matches!(
        coord.done_barrier(
            "test-variant",
            "success",
            0,
            Duration::from_millis(1),
            &mut results,
            BarrierEvent::Start
        ),
        BarrierStep::Finish
    ));
    assert_eq!(results.len(), 1);
    assert_eq!(results.get("local"), Some(&("success".to_string(), 0)));
}

#[test]
fn single_runner_resume_manifest_exchange_is_local_only() {
    let coord = alone();
    let local_manifest = names(&["v1", "v2"]);
    let mut all = NameMap::new();
    assert!(matches!(
        coord.exchange_resume_manifest(
            &local_manifest,
            Duration::from_millis(1),
            &mut all,
            BarrierEvent::Start
        ),
        BarrierStep::Finish
    ));
    assert_eq!(all.len(), 1);
    assert_eq!(all.get("local"), Some(&local_manifest));
}

#[test]
fn two_runner_localhost_coordination() {
    let runners = ["runner_a", "runner_b"];
    let mut a = coordinator(
        "runner_a",
        &runners,
        "testhash123",
        "run-a-20260415_120000",
        "test-run",
    );
    let mut b = coordinator(
        "runner_b",
        &runners,
        "testhash123",
        "run-b-20260415_120001",
        "test-run",
    );
    let (mut da, mut db) = (Discovery::new(), Discovery::new());
    assert!(matches!(
        a.discover(&mut da, DiscoverEvent::Start),
        DiscoverStep::Send
    ));
    assert!(matches!(
        b.discover(&mut db, DiscoverEvent::Start),
        DiscoverStep::Send
    ));
    assert!(matches!(
        a.discover(&mut da, DiscoverEvent::WindowEnd),
        DiscoverStep::Send
    ));
    let (from_a, from_b) = (a.discover_message(), b.discover_message());
    assert!(matches!(
        hear(&mut a, &mut da, &from_b),
        DiscoverStep::Wait
    ));
    assert!(matches!(
        hear(&mut b, &mut db, &from_a),
        DiscoverStep::Wait
    ));
    for (c, d) in [(&mut a, &mut da), (&mut b, &mut db)] {
        match c.discover(d, DiscoverEvent::WindowEnd) {
            DiscoverStep::Finish(s) => assert_eq!(s, "run-a-20260415_120000"),
            _ => panic!("both runners are known"),
        }
        let hosts = c.peer_hosts();
        assert_eq!(hosts.len(), 2);
        assert_eq!(hosts.get("runner_a"), Some(&"127.0.0.1".to_string()));
        assert_eq!(hosts.get("runner_b"), Some(&"127.0.0.1".to_string()));
    }

    let timeout = Duration::from_secs(30);
    let early = Duration::from_millis(500);
    let mut seen = NameSet::new();
    let _ = a.ready_barrier("v1", timeout, &mut seen, BarrierEvent::Start);
    let ready = b.ready_message("v1");
    let _ = a.ready_barrier("v1", timeout, &mut seen, BarrierEvent::Received(&ready));
    assert!(matches!(
        a.ready_barrier(
            "v1",
            timeout,
            &mut seen,
            BarrierEvent::WindowEnd { elapsed: early }
        ),
        BarrierStep::Finish
    ));

    let mut results = NameMap::new();
    let _ = a.done_barrier("v1", "success", 0, timeout, &mut results, BarrierEvent::Start);
    let done = b.done_message("v1", "success", 0);
    let _ = a.done_barrier(
        "v1",
        "success",
        0,
        timeout,
        &mut results,
        BarrierEvent::Received(&done),
    );
    assert!(matches!(
        a.done_barrier(
            "v1",
            "success",
            0,
            timeout,
            &mut results,
            BarrierEvent::WindowEnd { elapsed: early }
        ),
        BarrierStep::Finish
    ));
    assert_eq!(results.len(), 2);
    assert_eq!(results.get("runner_a"), Some(&("success".to_string(), 0)));
    assert_eq!(results.get("runner_b"), Some(&("success".to_string(), 0)));
}

#[test]
fn config_hash_mismatch_detected() {
    let mut a = coordinator("a", &["a", "b"], "hash_AAAA", "s", "test-run");
    let b = coordinator("b", &["a", "b"], "hash_BBBB", "s", "test-run");
    let mut d = Discovery::new();
    let _ = a.discover(&mut d, DiscoverEvent::Start);
    match hear(&mut a, &mut d, &b.discover_message()) {
        DiscoverStep::Fail(e) => {
            assert!(e.message().contains("config hash mismatch"));
            assert_eq!(
                e.message(),
                "config hash mismatch from runner 'b': expected hash_AAA, got hash_BBB"
            );
        }
        _ => panic!("the mismatch must be detected"),
    }
    // a stranger with another config is none of our business
    let c = coordinator("c", &["c", "d"], "hash_CCCC", "s", "test-run");
    assert!(matches!(
        hear(&mut a, &mut d, &c.discover_message()),
        DiscoverStep::Wait
    ));
}

#[test]
fn resume_flag_mismatch_aborts_discovery() {
    let runners = names(&["rfm_a", "rfm_b"]);
    let hash = "rfm_hash_matching";
    let make = |name: &str, resume: bool| {
        Coordinator::new(
            name.into(),
            &runners,
            hash.into(),
            29800,
            "rfm-sub".into(),
            "rfm-run".into(),
            resume,
        )
    };
    let mut a = make("rfm_a", true);
    let b = make("rfm_b", false);
    let mut d = Discovery::new();
    let _ = a.discover(&mut d, DiscoverEvent::Start);
    match hear(&mut a, &mut d, &b.discover_message()) {
        DiscoverStep::Fail(e) => {
            assert_eq!(
                e,
                DiscoverError::ResumeMismatch {
                    runner: "rfm_b".to_string(),
                    expected: true,
                    got: false
                }
            );
            assert_eq!(
                e.message(),
                "resume-flag mismatch from runner 'rfm_b': expected true, got false"
            );
        }
        _ => panic!("the mismatch must be detected"),
    }
}

#[test]
fn discovery_goes_on_until_the_leader_has_announced_its_folder() {
    let mut b = coordinator("b", &["a", "b"], "hash_AAAA", "s", "r");
    let a = coordinator("a", &["a", "b"], "hash_AAAA", "leaders", "r");
    let mut d = Discovery::new();
    let _ = b.discover(&mut d, DiscoverEvent::Start);
    let _ = hear(&mut b, &mut d, &a.ready_message("v"));
    assert!(matches!(
        b.discover(&mut d, DiscoverEvent::WindowEnd),
        DiscoverStep::Send
    ));
    let _ = hear(&mut b, &mut d, &a.discover_message());
    match b.discover(&mut d, DiscoverEvent::WindowEnd) {
        DiscoverStep::Finish(s) => assert_eq!(s, "leaders"),
        _ => panic!("the folder is known"),
    }
}

#[test]
fn probes_are_answered_while_looking_for_runners() {
    let mut a = coordinator("a", &["a", "b"], "hash_AAAA", "s", "r");
    let mut d = Discovery::new();
    let _ = a.discover(&mut d, DiscoverEvent::Start);
    let probe = |to: &str| Message::ProbeRequest {
        from: "b".to_string(),
        to: to.to_string(),
        id: 7,
        t1: "t".to_string(),
    };
    match hear(&mut a, &mut d, &probe("a")) {
        DiscoverStep::Reply(reply) => {
            assert_eq!(reply.to, "b");
            assert_eq!(reply.id, 7);
            assert_eq!(reply.t1, "t");
        }
        _ => panic!("the probe must be answered"),
    }
    assert!(matches!(
        hear(&mut a, &mut d, &probe("c")),
        DiscoverStep::Wait
    ));
}

#[test]
fn stale_ready_from_different_run_is_ignored() {
    let a = coordinator("runner_a", &["runner_a", "runner_b"], "hash", "s", "new-run");
    let timeout = Duration::from_secs(30);
    let end = || BarrierEvent::WindowEnd {
        elapsed: Duration::from_secs(2),
    };
    let mut seen = NameSet::new();
    let _ = a.ready_barrier("v1", timeout, &mut seen, BarrierEvent::Start);
    let stale = Message::Ready {
        name: "runner_b".into(),
        variant: "v1".into(),
        run: "old-run".into(),
    };
    let _ = a.ready_barrier("v1", timeout, &mut seen, BarrierEvent::Received(&stale));
    assert!(matches!(
        a.ready_barrier("v1", timeout, &mut seen, end()),
        BarrierStep::Send
    ));
    let correct = Message::Ready {
        name: "runner_b".into(),
        variant: "v1".into(),
        run: "new-run".into(),
    };
    let _ = a.ready_barrier("v1", timeout, &mut seen, BarrierEvent::Received(&correct));
    assert!(matches!(
        a.ready_barrier("v1", timeout, &mut seen, end()),
        BarrierStep::Finish
    ));
}

fn exchange_with(
    c: &Coordinator,
    own: &[String],
    inbound: &[Message],
) -> NameMap<Vec<String>> {
    let timeout = Duration::from_secs(30);
    let mut all = NameMap::new();
    let _ = c.exchange_resume_manifest(own, timeout, &mut all, BarrierEvent::Start);
    for msg in inbound {
        let _ = c.exchange_resume_manifest(own, timeout, &mut all, BarrierEvent::Received(msg));
    }
    assert!(matches!(
        c.exchange_resume_manifest(
            own,
            timeout,
            &mut all,
            BarrierEvent::WindowEnd {
                elapsed: Duration::from_secs(1)
            }
        ),
        BarrierStep::Finish
    ));
    all
}

#[test]
fn two_runner_resume_manifest_exchange() {
    let make = |name: &str| {
        Coordinator::new(
            name.into(),
            &names(&["ra", "rb"]),
            "rmhash".into(),
            29800,
            "sub".into(),
            "run01".into(),
            true,
        )
    };
    let mut a = make("ra");
    let mut b = make("rb");
    let (announced_a, announced_b) = (a.discover_message(), b.discover_message());
    for (c, other) in [(&mut a, &announced_b), (&mut b, &announced_a)] {
        let mut d = Discovery::new();
        let _ = c.discover(&mut d, DiscoverEvent::Start);
        let _ = hear(c, &mut d, other);
        match c.discover(&mut d, DiscoverEvent::WindowEnd) {
            DiscoverStep::Finish(s) => assert_eq!(s, "sub"),
            _ => panic!("both runners are known"),
        }
    }
    let own_a = names(&["v1", "v2"]);
    let own_b = names(&["v2", "v3"]);
    let res_a = exchange_with(&a, &own_a, &[b.manifest_message(&own_b)]);
    let res_b = exchange_with(&b, &own_b, &[a.manifest_message(&own_a)]);
    assert_eq!(res_a.len(), 2);
    assert_eq!(res_b.len(), 2);
    assert_eq!(res_a.get("ra"), Some(&names(&["v1", "v2"])));
    assert_eq!(res_a.get("rb"), Some(&names(&["v2", "v3"])));
    assert_eq!(res_b.get("ra"), Some(&names(&["v1", "v2"])));
    assert_eq!(res_b.get("rb"), Some(&names(&["v2", "v3"])));
}

#[test]
fn first_manifest_of_a_runner_stands() {
    let a = coordinator("ra", &["ra", "rb"], "rmhash", "sub", "run01");
    let b = coordinator("rb", &["ra", "rb"], "rmhash", "sub", "run01");
    let first = b.manifest_message(&names(&["v2", "v3"]));
    let second = b.manifest_message(&names(&["v9"]));
    let all = exchange_with(&a, &names(&["v1"]), &[first, second]);
    assert_eq!(all.get("rb"), Some(&names(&["v2", "v3"])));
}

#[test]
fn hashes_are_shown_by_their_first_eight_bytes() {
    let e = |expected: &str, got: &str| {
        DiscoverError::ConfigHashMismatch {
            runner: "b".to_string(),
            expected: expected.to_string(),
            got: got.to_string(),
        }
        .message()
    };
    assert_eq!(
        e("12345678", "short"),
        "config hash mismatch from runner 'b': expected 12345678, got short"
    );
    assert_eq!(
        e("\u{e4}\u{f6}\u{fc}\u{df}-tail", "\u{20ac}\u{20ac}xy-tail"),
        "config hash mismatch from runner 'b': expected \u{e4}\u{f6}\u{fc}\u{df}, got \u{20ac}\u{20ac}xy"
    );
}

#[test]
fn runners_linger_for_two_seconds() {
    assert!(linger_step(Duration { nanos: 0 }));
    assert!(linger_step(Duration::from_millis(1999)));
    assert!(!linger_step(Duration::from_secs(2)));
}

#[test]
fn receiving_ends_at_the_deadline_of_the_barrier() {
    let ms = Duration::from_millis;
    assert_eq!(receive_window(ms(0), ms(2000)), ms(500));
    assert_eq!(receive_window(ms(0), ms(300)), ms(300));
    assert_eq!(receive_window(ms(1800), ms(2000)), ms(200));
    assert_eq!(receive_window(ms(2100), ms(2000)), ms(0));
}

fn coord_with_silent_peer(self_name: &str, peer_name: &str) -> Coordinator {
    coordinator(
        self_name,
        &[self_name, peer_name],
        "timeout-hash",
        "timeout-sub",
        "timeout-run",
    )
}

fn timed_out(step: BarrierStep) -> BarrierTimeoutError {
    match step {
        BarrierStep::TimedOut(e) => e,
        _ => panic!("the barrier must time out"),
    }
}

#[test]
fn ready_barrier_returns_timeout_when_peer_silent() {
    let coord = coord_with_silent_peer("rb_alone", "rb_ghost");
    let timeout = Duration::from_millis(300);
    let mut seen = NameSet::new();
    let _ = coord.ready_barrier("v-tmo", timeout, &mut seen, BarrierEvent::Start);
    assert!(matches!(
        coord.ready_barrier(
            "v-tmo",
            timeout,
            &mut seen,
            BarrierEvent::WindowEnd {
                elapsed: Duration::from_millis(299)
            }
        ),
        BarrierStep::Send
    ));
    let bt = timed_out(coord.ready_barrier(
        "v-tmo",
        timeout,
        &mut seen,
        BarrierEvent::WindowEnd { elapsed: timeout },
    ));
    assert_eq!(bt.kind, "ready");
    assert_eq!(bt.variant, "v-tmo");
    assert_eq!(bt.missing_peers, vec!["rb_ghost".to_string()]);
}

#[test]
fn done_barrier_returns_timeout_when_peer_silent() {
    let coord = coord_with_silent_peer("db_alone", "db_ghost");
    let timeout = Duration::from_millis(300);
    let mut results = NameMap::new();
    let _ = coord.done_barrier("v-tmo", "success", 0, timeout, &mut results, BarrierEvent::Start);
    let bt = timed_out(coord.done_barrier(
        "v-tmo",
        "success",
        0,
        timeout,
        &mut results,
        BarrierEvent::WindowEnd { elapsed: timeout },
    ));
    assert_eq!(bt.kind, "done");
    assert_eq!(bt.variant, "v-tmo");
    assert_eq!(bt.missing_peers, vec!["db_ghost".to_string()]);
}

#[test]
fn resume_manifest_returns_timeout_when_peer_silent() {
    let coord = coord_with_silent_peer("rm_alone", "rm_ghost");
    let timeout = Duration::from_millis(300);
    let mut all = NameMap::new();
    let own = names(&["a"]);
    let _ = coord.exchange_resume_manifest(&own, timeout, &mut all, BarrierEvent::Start);
    let bt = timed_out(coord.exchange_resume_manifest(
        &own,
        timeout,
        &mut all,
        BarrierEvent::WindowEnd { elapsed: timeout },
    ));
    assert_eq!(bt.kind, "resume_manifest");
    assert_eq!(bt.variant, "");
    assert_eq!(bt.missing_peers, vec!["rm_ghost".to_string()]);
}

#[test]
fn barrier_timeout_error_display_mentions_kind_and_variant() {
    let e = BarrierTimeoutError {
        kind: "ready",
        variant: "myvar".into(),
        elapsed: Duration::from_secs(5),
        missing_peers: vec!["b".into()],
    };
    let s = e.message();
    assert!(s.contains("ready"), "{s}");
    assert!(s.contains("myvar"), "{s}");
    assert!(s.contains("5"), "{s}");
    assert!(s.contains('b'), "{s}");
    assert_eq!(
        s,
        "barrier 'ready' for variant 'myvar' timed out after 5.0s waiting for peer(s): [\"b\"]"
    );
}

#[test]
fn barrier_timeout_error_without_a_spawn_names_none() {
    let e = BarrierTimeoutError {
        kind: "resume_manifest",
        variant: String::new(),
        elapsed: Duration::from_millis(1340),
        missing_peers: names(&["b", "c\"d"]),
    };
    assert_eq!(
        e.message(),
        "barrier 'resume_manifest' timed out after 1.3s waiting for peer(s): [\"b\", \"c\\\"d\"]"
    );
}

#[test]
fn a_done_of_another_spawn_is_not_answered_at_a_ready_barrier() {
    let alice = coordinator("alice", &["alice", "bob"], "coordhang", "log-sub", "r");
    let bob = coordinator("bob", &["alice", "bob"], "coordhang", "log-sub", "r");
    let mut seen = NameSet::new();
    let timeout = Duration::from_secs(30);
    let _ = alice.ready_barrier("spawn_n_plus_1", timeout, &mut seen, BarrierEvent::Start);
    let done = bob.done_message("spawn_n_half", "success", 0);
    assert!(matches!(
        alice.ready_barrier(
            "spawn_n_plus_1",
            timeout,
            &mut seen,
            BarrierEvent::Received(&done)
        ),
        BarrierStep::Wait
    ));
    assert_eq!(seen.to_vec(), names(&["alice"]));
}

#[test]
fn every_runner_has_its_own_port() {
    let b = coordinator("b", &["a", "b"], "h", "s", "r");
    assert_eq!(b.own_port(), 29801);
    assert_eq!(
        b.peer_addrs(),
        vec![
            PeerAddr::Multicast(29800),
            PeerAddr::Localhost(29800),
            PeerAddr::Multicast(29801),
            PeerAddr::Localhost(29801)
        ]
    );
}

// ---------------------------------------------------------------------
// Channels
// ---------------------------------------------------------------------

fn ready(name: &str, variant: &str) -> Message {
    Message::Ready {
        name: name.into(),
        variant: variant.into(),
        run: "r1".into(),
    }
}

#[test]
fn barrier_coord_single_runner_start_is_immediate() {
    let mut bc = BarrierCoordinator::new("solo".into(), vec!["solo".into()], 40000);
    assert!(bc.is_single_runner());
    assert!(matches!(bc.start(), Ok(BarrierStart::Alone)));
    assert!(bc.broadcast(&NameMap::new()).is_empty());
    bc.shutdown();
    assert!(bc.connected_peers().is_empty());
}

#[test]
fn progress_coord_single_runner_start_is_immediate() {
    let view = RemoteProgressViewHandle::new();
    let mut pc = ProgressCoordinator::new("solo".into(), vec!["solo".into()], 35000, view.clone());
    assert!(pc.is_single_runner());
    assert!(matches!(pc.start(), Ok(ProgressStart::Alone)));
    assert!(pc.publish("any", "operate", 1, 2, false, false).is_none());
    assert_eq!(view.snapshot().peer_count(), 0);
    pc.shutdown();
}

#[test]
fn two_runner_barrier_exchange_round_trips() {
    let mut a = BarrierCoordinator::new("alice".into(), names(&["alice", "bob"]), 40000);
    a.install_peer("bob");
    assert_eq!(a.receive("bob", Some(ready("bob", "v1"))), FrameNote::Kept);
    let inbox = a.drain_inbox("bob");
    assert_eq!(inbox, vec![ready("bob", "v1")]);
    assert!(a.drain_inbox("bob").is_empty());
    assert!(a.drain_inbox("carol").is_empty());
}

#[test]
fn many_barriers_in_sequence_have_no_loss() {
    let mut a = BarrierCoordinator::new("alice".into(), names(&["alice", "bob"]), 40000);
    a.install_peer("bob");
    const ROUNDS: usize = 100;
    let mut sent = Vec::new();
    for i in 0..ROUNDS {
        let variant = format!("v{i}");
        let done = Message::Done {
            name: "bob".into(),
            variant: variant.clone(),
            run: "r1".into(),
            status: "success".into(),
            exit_code: 0,
        };
        for msg in [ready("bob", &variant), done] {
            sent.push(msg.clone());
            assert_eq!(a.receive("bob", Some(msg)), FrameNote::Kept);
        }
    }
    let all = a.drain_all_inboxes();
    assert_eq!(all.len(), 1);
    assert_eq!(all.get("bob").unwrap().len(), 2 * ROUNDS);
    assert_eq!(all.get("bob"), Some(&sent));
    assert_eq!(a.drain_all_inboxes().len(), 0);
}

#[test]
fn other_messages_stay_out_of_the_inbox() {
    let mut a = BarrierCoordinator::new("alice".into(), names(&["alice", "bob"]), 40000);
    a.install_peer("bob");
    let probe = Message::ProbeRequest {
        from: "bob".into(),
        to: "alice".into(),
        id: 1,
        t1: "t".into(),
    };
    assert_eq!(a.receive("bob", Some(probe)), FrameNote::Unexpected);
    assert_eq!(a.receive("bob", None), FrameNote::Malformed);
    assert!(a.drain_inbox("bob").is_empty());
}

#[test]
fn failed_writes_disconnect_the_peer() {
    let mut a = BarrierCoordinator::new("a".into(), names(&["a", "b", "c", "d"]), 40000);
    for p in ["b", "c", "d"] {
        a.install_peer(p);
    }
    let mut written = NameMap::new();
    written.insert("b".to_string(), true);
    written.insert("c".to_string(), false);
    assert_eq!(a.broadcast(&written).to_vec(), names(&["b"]));
    assert_eq!(a.connected_peers().to_vec(), names(&["b", "d"]));
    a.shutdown();
    assert!(a.connected_peers().is_empty());
}

#[test]
fn two_runner_progress_exchange_round_trips() {
    let view = RemoteProgressViewHandle::new();
    let a = ProgressCoordinator::new("alice".into(), names(&["alice", "bob"]), 35000, view.clone());
    let b = ProgressCoordinator::new(
        "bob".into(),
        names(&["alice", "bob"]),
        35000,
        RemoteProgressViewHandle::new(),
    );
    let msg = b.publish("sp1", "operate", 33, 44, false, false).unwrap();
    assert_eq!(
        a.receive(Some(&msg), Timestamp { nanos: 5 }),
        FrameNote::Kept
    );
    let snap = view.snapshot().snapshot_for("bob", "sp1").unwrap();
    assert_eq!(snap.sent, 33);
    assert_eq!(snap.received, 44);
    assert_eq!(snap.phase, "operate");
    assert!(snap.ts.ends_with('Z'), "{}", snap.ts);
    assert_eq!(
        a.view().snapshot().snapshot_for("bob", "sp1"),
        view.snapshot().snapshot_for("bob", "sp1")
    );
    assert!(update_of(&ready("bob", "v")).is_none());
    assert_eq!(
        a.receive(Some(&ready("bob", "v")), Timestamp { nanos: 6 }),
        FrameNote::Unexpected
    );
}

#[test]
fn frames_are_folded_into_the_view() {
    let bob = ProgressCoordinator::new(
        "bob".into(),
        names(&["alice", "bob"]),
        35000,
        RemoteProgressViewHandle::new(),
    );
    let first = bob.publish("sp1", "operate", 33, 44, true, false).unwrap();
    let later = bob.publish("sp1", "silent", 30, 50, false, true).unwrap();
    let mut view = RemoteProgressView::new();
    let at = |nanos: u128| Timestamp { nanos };
    assert_eq!(fold_frame(&mut view, None, at(1)), FrameNote::Malformed);
    assert_eq!(fold_frame(&mut view, Some(&ready("bob", "v")), at(2)), FrameNote::Unexpected);
    assert_eq!(view.peer_count(), 0);
    assert_eq!(fold_frame(&mut view, Some(&first), at(3)), FrameNote::Kept);
    assert_eq!(fold_frame(&mut view, Some(&later), at(4)), FrameNote::Kept);
    assert_eq!(fold_frame(&mut view, None, at(5)), FrameNote::Malformed);
    let snap = view.snapshot_for("bob", "sp1").unwrap();
    assert_eq!((snap.phase.as_str(), snap.sent, snap.received), ("silent", 33, 50));
    assert!(snap.eot_sent && snap.eot_received);
    assert_eq!(snap.last_update_ts, at(4));
    assert!(runner::clock_sync::parse_ns(&snap.ts).is_some(), "{}", snap.ts);
}

#[test]
fn frames_are_read_back() {
    let payload = b"{\"type\":\"ready\"}".to_vec();
    let mut stream = write_barrier_frame(&payload);
    assert_eq!(&stream[..4], &[0, 0, 0, payload.len() as u8]);
    stream.extend_from_slice(b"next");
    assert_eq!(
        read_barrier_frame(&stream),
        FrameRead::Payload(payload.clone())
    );
    for n in 0..4 + payload.len() {
        assert_eq!(read_barrier_frame(&stream[..n]), FrameRead::Incomplete);
    }
    assert_eq!(
        read_progress_frame(&write_progress_frame(&[])),
        FrameRead::Payload(Vec::new())
    );
    let long = vec![0u8; BARRIER_FRAME_MAX_BYTES as usize + 1];
    assert_eq!(
        read_barrier_frame(&write_barrier_frame(&long)),
        FrameRead::TooLong(16385)
    );
    assert!(matches!(
        read_progress_frame(&write_progress_frame(&long)),
        FrameRead::Payload(_)
    ));
    assert_eq!(frame_length([1, 2, 3, 4], u32::MAX), Ok(0x0102_0304));
    assert_eq!(frame_length([0, 0, 1, 1], 256), Err(257));
    assert_eq!(
        too_long_message("barrier", 16385, 16384),
        "barrier frame length 16385 exceeds cap 16384"
    );
}

#[test]
fn handshake_names_the_peer() {
    let expected = NameSet::of(&names(&["alice", "böb"]));
    let hello = connect_and_handshake("böb").unwrap();
    assert_eq!(hello.len(), 4 + "böb".len());
    assert_eq!(accept_and_handshake(&hello, &expected), Ok("böb".to_string()));
    assert_eq!(
        accept_and_handshake(&connect_and_handshake("eve").unwrap(), &expected),
        Err(HandshakeError::Unexpected {
            name: "eve".to_string()
        })
    );
    assert_eq!(
        accept_and_handshake(&hello[..5], &expected),
        Err(HandshakeError::Incomplete)
    );
    assert_eq!(
        accept_and_handshake(&[0, 0, 0, 1, 0xff], &expected),
        Err(HandshakeError::NotUtf8)
    );
    assert_eq!(
        accept_and_handshake(&[0, 0, 1, 1], &expected),
        Err(HandshakeError::NameTooLong { len: 257 })
    );
    let long = "x".repeat(257);
    let err = connect_and_handshake(&long).unwrap_err();
    assert_eq!(err, HandshakeError::OwnNameTooLong { bytes: 257 });
    assert_eq!(
        err.message("barrier_coord"),
        "barrier_coord connect: self name too long (257 bytes)"
    );
}

#[test]
fn lower_name_accepts_and_higher_connects() {
    let bc = BarrierCoordinator::new("bob".into(), names(&["carol", "bob", "alice"]), 40000);
    let startup = match bc.start() {
        Ok(BarrierStart::Open { port, startup }) => {
            assert_eq!(port, 40000 + 96 + 1);
            startup
        }
        _ => panic!("links are to be opened"),
    };
    let mut hosts = NameMap::new();
    hosts.insert("alice".to_string(), "10.0.0.1".to_string());
    hosts.insert("carol".to_string(), "10.0.0.3".to_string());
    assert_eq!(
        bc.links().connect_targets(&startup, &hosts),
        vec![ConnectTarget {
            peer: "alice".to_string(),
            host: "10.0.0.1".to_string(),
            port: 40000 + 96 + 2
        }]
    );
    let mut startup = startup;
    let budget = Duration::from_secs(15);
    assert!(matches!(
        startup.step(Duration::from_secs(14), budget),
        StartupStep::Try
    ));
    assert!(!startup.accepted("alice"));
    assert!(startup.accepted("carol"));
    assert!(!startup.accepted("carol"));
    match startup.step(budget, budget) {
        StartupStep::GiveUp(missing) => assert_eq!(missing, names(&["alice"])),
        _ => panic!("the time is up"),
    }
    startup.connected("alice");
    assert!(matches!(startup.step(budget, budget), StartupStep::Done));
}

#[test]
fn ports_that_run_over_are_errors() {
    assert_eq!(listener_port(65000, 96, 439), Some(65535));
    assert_eq!(listener_port(65000, 96, 440), None);
    assert_eq!(listener_port(1000, 64, 65_536), None);
    let bc = BarrierCoordinator::new("b".into(), names(&["a", "b"]), 65439);
    match bc.start() {
        Err(e) => assert_eq!(e, "base port 65439 + offset 96 + index 1 overflows u16"),
        _ => panic!("the port runs over"),
    }
}

#[test]
fn reader_goes_on_after_a_timeout_only() {
    assert_eq!(
        after_read_fault(ReadFault::TimedOut, true),
        ReaderStep::Continue
    );
    assert_eq!(after_read_fault(ReadFault::Closed, false), ReaderStep::Quit);
    assert_eq!(after_read_fault(ReadFault::Other, true), ReaderStep::Quit);
    assert_eq!(after_read_fault(ReadFault::Other, false), ReaderStep::Report);
}
