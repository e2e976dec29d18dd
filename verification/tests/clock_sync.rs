//! Clock offsets between runners.

use runner::clock_sync::{
    format_ts, measure_one, parse_ns, pick_best, probe_reply, respond_to_probe, ClockSyncEngine,
    OffsetMeasurement, OutgoingProbe, PeerMeasurement, ProbeOutcome, ProbeResult, ProbeWait,
    RawSample, Sample, WaitStep,
};
use runner::clock_sync_log::open_clock_sync_log;
use runner::message::Message;

fn ms(ns: i64) -> f64 {
    ns as f64 / 1_000_000.0
}

#[test]
fn pick_best_picks_smallest_rtt() {
    let samples = vec![
        Sample {
            t1_ns: 0,
            t2_ns: 5_000_000 + 50_000_000,
            t3_ns: 5_000_000 + 50_000_000,
            t4_ns: 10_000_000,
        },
        Sample {
            t1_ns: 100_000_000,
            t2_ns: 100_000_000 + 1_000_000 + 1_000_000,
            t3_ns: 100_000_000 + 1_000_000 + 1_000_000,
            t4_ns: 100_000_000 + 2_000_000,
        },
        Sample {
            t1_ns: 200_000_000,
            t2_ns: 200_000_000 + 25_000_000 + 25_000_000,
            t3_ns: 200_000_000 + 25_000_000 + 25_000_000,
            t4_ns: 200_000_000 + 50_000_000,
        },
    ];
    let m = pick_best(&samples).unwrap();
    // Best sample's RTT is 2 ms.
    assert!((ms(m.rtt_ns) - 2.0).abs() < 1e-9, "rtt_ms={}", ms(m.rtt_ns));
    // Best sample's offset is 1 ms (peer ahead of self by 1 ms).
    assert!(
        (ms(m.offset_ns) - 1.0).abs() < 1e-9,
        "offset_ms={}",
        ms(m.offset_ns)
    );
    assert_eq!(m.samples, 3);
    assert!((ms(m.min_rtt_ns) - 2.0).abs() < 1e-9);
    assert!((ms(m.max_rtt_ns) - 50.0).abs() < 1e-9);
    // Cohort offsets (50, 1, 25) cluster widely enough that the min-RTT
    // pick (1 ms) is within 5 sigma of the median (25 ms): no outlier.
    assert!(!m.outlier_rejected);
    assert_eq!(m.raw_samples.len(), 3);
    // Exactly one sample is marked as accepted (the min-RTT one).
    assert_eq!(m.raw_samples.iter().filter(|s| s.accepted).count(), 1);
}

#[test]
fn pick_best_rejects_offset_outlier_with_low_rtt() {
    // Cohort: 31 samples with offset ~0 and rtt ~0.3 ms; 1 sample with
    // offset = -387 ms but the smallest rtt of the bunch (0.18 ms).
    // The min-RTT sample MUST be rejected and the chosen offset MUST
    // come from the median-of-three-lowest-RTT fallback.
    let mut samples: Vec<Sample> = Vec::with_capacity(32);
    // 31 well-behaved samples around offset 0, rtt ~0.3 ms.
    for i in 0..31 {
        // rtt = 300_000 ns (0.3 ms), offset = 0 ns. Vary the base t1 so
        // they're distinct samples (not strictly required for the math,
        // but mimics reality).
        let t1 = 1_000_000_000_i64 + i as i64 * 5_000_000;
        let t4 = t1 + 300_000;
        let t2 = t1 + 150_000;
        let t3 = t2;
        samples.push(Sample {
            t1_ns: t1,
            t2_ns: t2,
            t3_ns: t3,
            t4_ns: t4,
        });
    }
    let t1 = 1_000_000_000_000_i64;
    let d = 90_000_i64;
    let s_skew = -387_000_000_i64;
    let t4 = t1 + 2 * d;
    let t2 = t1 + d + s_skew;
    let t3 = t2;
    samples.push(Sample {
        t1_ns: t1,
        t2_ns: t2,
        t3_ns: t3,
        t4_ns: t4,
    });

    let m = pick_best(&samples).unwrap();
    // Outlier was detected and rejected.
    assert!(
        m.outlier_rejected,
        "expected outlier rejection, got offset_ms={}",
        ms(m.offset_ns)
    );
    // The reported offset is now the median of the three-lowest-RTT
    // samples' offsets. Two of the three lowest-RTT samples have offset
    // 0 (the well-behaved cohort, since outlier had the very lowest
    // RTT, the next two come from the well-behaved set), so median = 0.
    assert!(
        ms(m.offset_ns).abs() < 1.0,
        "expected fallback offset near 0, got {}",
        ms(m.offset_ns)
    );
    // min_rtt_ms still reflects the absolute minimum across the cohort.
    assert!((ms(m.min_rtt_ns) - 0.18).abs() < 1e-6);
    // raw_samples is the full cohort.
    assert_eq!(m.raw_samples.len(), 32);
}

#[test]
fn pick_best_does_not_reject_when_cohort_is_uniformly_offset() {
    // If every sample reports the same large offset, that's a real clock
    // skew, not an outlier. pick_best must NOT reject in this case.
    let mut samples: Vec<Sample> = Vec::with_capacity(8);
    for i in 0..8 {
        let t1 = 1_000_000_000_i64 + i as i64 * 5_000_000;
        // Peer ahead by 100 ms uniformly, rtt 0.3 ms.
        let d = 150_000_i64;
        let s = 100_000_000_i64;
        let t4 = t1 + 2 * d;
        let t2 = t1 + d + s;
        let t3 = t2;
        samples.push(Sample {
            t1_ns: t1,
            t2_ns: t2,
            t3_ns: t3,
            t4_ns: t4,
        });
    }
    let m = pick_best(&samples).unwrap();
    assert!(
        !m.outlier_rejected,
        "uniform-offset cohort must not be flagged"
    );
    assert!((ms(m.offset_ns) - 100.0).abs() < 1.0);
}

#[test]
fn pick_best_small_cohort_skips_outlier_check() {
    // With only two samples we cannot compute a meaningful stddev; the
    // outlier check is skipped (the implementation requires len >= 3).
    let samples = vec![
        Sample {
            t1_ns: 0,
            t2_ns: 100,
            t3_ns: 100,
            t4_ns: 200,
        },
        Sample {
            t1_ns: 1_000_000_000,
            // Wildly different offset, low rtt.
            t2_ns: 1_000_000_000 + 50 - 500_000_000,
            t3_ns: 1_000_000_000 + 50 - 500_000_000,
            t4_ns: 1_000_000_000 + 100,
        },
    ];
    let m = pick_best(&samples).unwrap();
    assert!(
        !m.outlier_rejected,
        "outlier check requires >= 3 samples; got {} samples",
        samples.len()
    );
}

#[test]
fn offset_math_zero_when_clocks_aligned() {
    // Identical clocks, 4ms RTT, perfectly symmetric.
    let s = Sample {
        t1_ns: 0,
        t2_ns: 2_000_000,
        t3_ns: 2_000_000,
        t4_ns: 4_000_000,
    };
    // offset = ((t2 - t1) + (t3 - t4)) / 2 = (2_000_000 + (-2_000_000)) / 2 = 0
    assert_eq!(s.offset_ns(), 0);
    // rtt = (t4 - t1) - (t3 - t2) = 4_000_000 - 0 = 4_000_000
    assert_eq!(s.rtt_ns(), 4_000_000);
}

#[test]
fn offset_math_peer_ahead_by_known_amount() {
    // Peer's clock is +50ms ahead of self. Network is symmetric, RTT
    // 10ms. So self sends at t1, peer receives at t1 + 5ms (network) +
    // 50ms (clock skew), replies at the same instant on its clock,
    // self receives at t1 + 10ms.
    let t1 = 1_000_000_000_i64;
    let t4 = t1 + 10_000_000;
    let t2 = t1 + 5_000_000 + 50_000_000;
    let t3 = t2;
    let s = Sample {
        t1_ns: t1,
        t2_ns: t2,
        t3_ns: t3,
        t4_ns: t4,
    };
    assert_eq!(s.offset_ns(), 50_000_000); // 50ms
    assert_eq!(s.rtt_ns(), 10_000_000); // 10ms
}

#[test]
fn parse_ns_roundtrip() {
    let now = chrono::Utc::now();
    let s = format_ts(now.timestamp_nanos_opt().unwrap());
    let ns = parse_ns(&s).unwrap();
    let expected = now.timestamp_nanos_opt().unwrap();
    assert_eq!(ns, expected);
}

#[test]
fn parse_ns_invalid_returns_none() {
    assert!(parse_ns("not a timestamp").is_none());
}

#[test]
fn pick_best_empty_returns_none() {
    let empty: Vec<Sample> = vec![];
    assert!(pick_best(&empty).is_none());
}

#[test]
fn probe_result_as_str_is_stable() {
    // Locked: the JSONL `result` field must stay stable since downstream
    // tooling (post-mortem scripts in LEARNED.md) keys off these values.
    assert_eq!(ProbeResult::Answered.as_str(), "ok");
    assert_eq!(ProbeResult::Timeout.as_str(), "timeout");
    assert_eq!(ProbeResult::RejectedFilter.as_str(), "rejected_filter");
    assert_eq!(ProbeResult::RejectedT1.as_str(), "rejected_t1");
    assert_eq!(ProbeResult::ParseError.as_str(), "parse_error");
}

fn answered(t1_ns: i64, way: i64, ahead: i64) -> ProbeOutcome {
    ProbeOutcome {
        t1_ns,
        sample: Some(Sample {
            t1_ns,
            t2_ns: t1_ns + way + ahead,
            t3_ns: t1_ns + way + ahead,
            t4_ns: t1_ns + 2 * way,
        }),
        result: ProbeResult::Answered,
    }
}

#[test]
fn measure_one_records_timeout_attempts_when_peer_is_silent() {
    let outcomes: Vec<ProbeOutcome> = (1..=4)
        .map(|i| ProbeWait::new("a", "b", i, "t", 1000 * i as i64).give_up())
        .collect();
    let pm = measure_one(&outcomes);
    assert!(pm.measurement.is_none(), "no peer => no measurement");
    assert_eq!(pm.attempts.len(), 4, "one attempt per probe");
    for a in &pm.attempts {
        assert_eq!(a.result, ProbeResult::Timeout);
        assert!(!a.accepted, "timeout rows are never accepted");
        assert!(a.offset_ns.is_none());
        assert!(a.rtt_ns.is_none());
        assert_eq!(a.t2_ns, 0);
        assert_eq!(a.t3_ns, 0);
        assert!(a.t1_ns > 0, "t1 should still be recorded for timeouts");
    }
}

#[test]
fn measure_one_marks_chosen_attempt_accepted_on_success() {
    let outcomes = vec![
        answered(0, 500, 10),
        ProbeWait::new("a", "b", 2, "t", 7).give_up(),
        answered(10_000, 100, 30),
        answered(20_000, 100, 30),
    ];
    let pm = measure_one(&outcomes);
    let m = pm.measurement.unwrap();
    assert_eq!(m.offset_ns, 30);
    assert_eq!(m.rtt_ns, 200);
    assert_eq!(m.samples, 3);
    assert_eq!(pm.attempts.len(), 4);
    let accepted: Vec<usize> = (0..4).filter(|i| pm.attempts[*i].accepted).collect();
    assert_eq!(accepted, vec![2], "the first of the two that match");
    assert_eq!(pm.attempts[2].offset_ns, Some(m.offset_ns));
    assert_eq!(pm.attempts[2].rtt_ns, Some(m.rtt_ns));
    assert_eq!(pm.attempts[2].result, ProbeResult::Answered);
}

#[test]
fn no_attempt_is_accepted_where_the_best_is_an_outlier() {
    let mut outcomes: Vec<ProbeOutcome> = (0..31).map(|i| answered(i * 1000, 150, 0)).collect();
    outcomes.push(answered(99_000, 90, -387_000_000));
    let pm = measure_one(&outcomes);
    let m = pm.measurement.unwrap();
    assert!(m.outlier_rejected);
    assert_eq!(m.offset_ns, 0);
    assert_eq!(m.rtt_ns, 300);
    assert_eq!(m.min_rtt_ns, 180);
    assert_eq!(m.max_rtt_ns, 300);
    assert!(pm.attempts.iter().all(|a| !a.accepted));
    assert!(m.raw_samples.iter().all(|a| !a.accepted));
}

#[test]
fn five_deviations_are_the_limit() {
    // n samples at zero and the best at x: the deviation of the offsets is x * sqrt(n) / (n + 1),
    // so that the best is an outlier just where n + 1 > 5 * sqrt(n), that is, from 24 on
    for n in [2i64, 10, 22, 23, 24, 30] {
        let mut samples: Vec<Sample> = (0..n).map(|i| answered(i, 500, 0).sample.unwrap()).collect();
        samples.push(answered(0, 1, 1_000_000).sample.unwrap());
        let expected = (n + 1) * (n + 1) > 25 * n;
        assert_eq!(pick_best(&samples).unwrap().outlier_rejected, expected, "{n}");
    }
}

#[test]
fn offset_is_rounded_toward_zero() {
    let s = Sample {
        t1_ns: 0,
        t2_ns: -1,
        t3_ns: 0,
        t4_ns: 0,
    };
    assert_eq!(s.offset_ns(), 0);
    assert!(s.check_range());
    let far = Sample {
        t1_ns: i64::MIN,
        t2_ns: 0,
        t3_ns: 0,
        t4_ns: i64::MAX,
    };
    assert!(!far.check_range());
}

#[test]
fn time_stamps_have_nine_decimals() {
    assert_eq!(format_ts(0), "1970-01-01T00:00:00.000000000Z");
    assert_eq!(
        format_ts(1_778_599_356_856_717_500),
        "2026-05-12T15:22:36.856717500Z"
    );
    for ns in [i64::MIN, -1, 0, 1, i64::MAX] {
        assert_eq!(parse_ns(&format_ts(ns)), Some(ns));
    }
    assert_eq!(parse_ns("1970-01-01T01:00:00.5+01:00"), Some(500_000_000));
}

fn response(from: &str, to: &str, id: u64, t1: &str, t2: &str, t3: &str) -> Message {
    Message::ProbeResponse {
        from: from.into(),
        to: to.into(),
        id,
        t1: t1.into(),
        t2: t2.into(),
        t3: t3.into(),
    }
}

#[test]
fn answers_to_other_probes_are_turned_away() {
    let mut engine = ClockSyncEngine::new("a".to_string());
    let OutgoingProbe { request, mut wait } = engine.probe_at("b", 1_000);
    let t1 = format_ts(1_000);
    assert_eq!(
        request,
        Message::ProbeRequest {
            from: "a".into(),
            to: "b".into(),
            id: 1,
            t1: t1.clone()
        }
    );
    let stamp = format_ts(2_000);
    assert_eq!(wait.wait_for_response(None, Some(9)), WaitStep::Wait);
    assert_eq!(wait.give_up().result, ProbeResult::ParseError);
    for wrong in [
        response("c", "a", 1, &t1, &stamp, &stamp),
        response("b", "c", 1, &t1, &stamp, &stamp),
        response("b", "a", 2, &t1, &stamp, &stamp),
    ] {
        assert_eq!(wait.wait_for_response(Some(&wrong), Some(9)), WaitStep::Wait);
        assert_eq!(wait.give_up().result, ProbeResult::RejectedFilter);
    }
    let stale = response("b", "a", 1, "older", &stamp, &stamp);
    assert_eq!(wait.wait_for_response(Some(&stale), Some(9)), WaitStep::Wait);
    assert_eq!(wait.give_up().result, ProbeResult::RejectedT1);
    let garbled = response("b", "a", 1, &t1, "soon", &stamp);
    assert_eq!(
        wait.wait_for_response(Some(&garbled), Some(9)),
        WaitStep::Wait
    );
    assert_eq!(
        wait.give_up().result,
        ProbeResult::RejectedT1,
        "what was wrong before stays"
    );
    let right = response("b", "a", 1, &t1, &stamp, &format_ts(2_500));
    assert_eq!(
        wait.wait_for_response(Some(&right), Some(4_000)),
        WaitStep::Finished {
            sample: Some(Sample {
                t1_ns: 1_000,
                t2_ns: 2_000,
                t3_ns: 2_500,
                t4_ns: 4_000
            }),
            result: ProbeResult::Answered
        }
    );
}

#[test]
fn probes_are_answered_while_waiting() {
    let mut wait = ProbeWait::new("a", "b", 1, "t", 0);
    let probe = Message::ProbeRequest {
        from: "b".into(),
        to: "a".into(),
        id: 44,
        t1: "their-t1".into(),
    };
    let reply = match wait.receive(Some(&probe)) {
        WaitStep::Reply(reply) => reply,
        other => panic!("{other:?}"),
    };
    match respond_to_probe("a", &reply) {
        Message::ProbeResponse {
            from,
            to,
            id,
            t1,
            t2,
            t3,
        } => {
            assert_eq!((from.as_str(), to.as_str(), id), ("a", "b", 44));
            assert_eq!(t1, "their-t1");
            assert!(parse_ns(&t2).unwrap() <= parse_ns(&t3).unwrap());
        }
        other => panic!("{other:?}"),
    }
}

/// The way of a probe to its peer takes a while, however coarse the clock is.
fn until_the_clock_is_past(ns: i64) {
    loop {
        let now = std::time::SystemTime::now()
            .duration_since(std::time::UNIX_EPOCH)
            .unwrap();
        if now.as_nanos() as i64 > ns {
            return;
        }
    }
}

fn probe_each_other(from: &str, to: &str, n: u64) -> PeerMeasurement {
    let mut engine = ClockSyncEngine::new(from.to_string());
    let mut outcomes = Vec::new();
    for id in 1..=n {
        let OutgoingProbe { request, mut wait } = engine.send_probe_request(to).unwrap();
        assert_eq!(wait.id, id);
        until_the_clock_is_past(wait.t1_ns);
        let reply = probe_reply(to, &request).unwrap();
        let response = respond_to_probe(to, &reply);
        match wait.receive(Some(&response)) {
            WaitStep::Finished { sample, result } => outcomes.push(ProbeOutcome {
                t1_ns: wait.t1_ns,
                sample,
                result,
            }),
            other => panic!("{other:?}"),
        }
    }
    let peers = vec![from.to_string(), to.to_string()];
    let mut all = engine.measure_offsets(&peers, &[Vec::new(), outcomes]);
    assert_eq!(all.len(), 1, "a runner does not measure itself");
    all.remove(to).unwrap()
}

#[test]
fn two_engines_localhost_offset_near_zero() {
    let pm_a = probe_each_other("a", "b", 8);
    let pm_b = probe_each_other("b", "a", 8);
    let m_a = pm_a.measurement.as_ref().expect("engine a got at least one sample");
    let m_b = pm_b.measurement.as_ref().expect("engine b got at least one sample");
    assert!(ms(m_a.offset_ns).abs() < 1.0, "engine a: {}", m_a.offset_ns);
    assert!(ms(m_b.offset_ns).abs() < 1.0, "engine b: {}", m_b.offset_ns);
    assert!(ms(m_a.rtt_ns) > 0.0, "engine a: {}", m_a.rtt_ns);
    assert!(ms(m_b.rtt_ns) > 0.0, "engine b: {}", m_b.rtt_ns);
    assert!(m_a.samples == 8);
    assert!(m_b.samples == 8);
    assert_eq!(pm_a.attempts.len(), 8, "engine a attempts");
    assert_eq!(pm_b.attempts.len(), 8, "engine b attempts");
}

#[test]
fn log_has_one_line_per_measurement_and_one_per_probe() {
    let log = open_clock_sync_log("/logs/x", "alice", "run01");
    assert_eq!(log.path().file_name, "alice-clock-sync-run01.jsonl");
    assert_eq!(log.debug_path().file_name, "alice-clock-sync-debug-run01.jsonl");
    assert_eq!(log.path().dir, "/logs/x");
    let pm = measure_one(&[answered(100, 50, 5), ProbeWait::new("a", "b", 2, "t", 7).give_up()]);
    let lines = log.lines_at("now", "v1", "bob", pm.measurement.as_ref(), &pm.attempts);
    let summary = lines.summary.unwrap();
    assert_eq!(summary.head.ts, "now");
    assert_eq!(summary.head.variant, "v1");
    assert_eq!(summary.head.runner, "alice");
    assert_eq!(summary.head.run, "run01");
    assert_eq!(summary.head.peer, "bob");
    assert_eq!(summary.offset_ns, 5);
    assert_eq!(summary.rtt_ns, 100);
    assert_eq!(summary.samples, 1);
    assert_eq!(lines.debug.len(), 2);
    assert_eq!(lines.debug[0].result, "ok");
    assert!(lines.debug[0].accepted);
    assert_eq!(lines.debug[1].sample_index, 1);
    assert_eq!(lines.debug[1].result, "timeout");
    assert_eq!(lines.debug[1].offset_ns, None);

    let silent = log.write("", "bob", None, &pm.attempts);
    assert!(silent.summary.is_none());
    assert_eq!(silent.debug.len(), 2);
    assert!(parse_ns(&silent.debug[0].head.ts).is_some());
}

fn measured(offset_ns: i64, rtt_ns: i64, samples: usize, min_rtt_ns: i64, max_rtt_ns: i64) -> OffsetMeasurement {
    OffsetMeasurement {
        offset_ns,
        rtt_ns,
        samples,
        min_rtt_ns,
        max_rtt_ns,
        raw_samples: vec![],
        outlier_rejected: false,
    }
}

fn ok_sample(t1_ns: i64, t2_ns: i64, t3_ns: i64, t4_ns: i64, accepted: bool) -> RawSample {
    RawSample {
        t1_ns,
        t2_ns,
        t3_ns,
        t4_ns,
        offset_ns: Some(((t2_ns - t1_ns) + (t3_ns - t4_ns)) / 2),
        rtt_ns: Some((t4_ns - t1_ns) - (t3_ns - t2_ns)),
        accepted,
        result: ProbeResult::Answered,
    }
}

fn timeout_sample(t1_ns: i64) -> RawSample {
    RawSample {
        t1_ns,
        t2_ns: 0,
        t3_ns: 0,
        t4_ns: 0,
        offset_ns: None,
        rtt_ns: None,
        accepted: false,
        result: ProbeResult::Timeout,
    }
}

#[test]
fn path_includes_runner_and_run() {
    let log = open_clock_sync_log("logs", "myname", "myrun");
    assert_eq!(log.path().file_name, "myname-clock-sync-myrun.jsonl");
}

#[test]
fn summary_line_has_required_and_diagnostic_fields() {
    let log = open_clock_sync_log("logs", "alice", "run01");
    let m = measured(1_234_000, 500_000, 32, 400_000, 12_300_000);
    let first = log.write("", "bob", Some(&m), &[]);
    let second = log.write("zenoh-replication", "bob", Some(&m), &[]);
    assert_eq!(first.debug.len(), 0);
    let line = first.summary.unwrap();
    assert_eq!(line.head.runner, "alice");
    assert_eq!(line.head.run, "run01");
    assert_eq!(line.head.variant, "");
    assert_eq!(line.head.peer, "bob");
    assert!((ms(line.offset_ns) - 1.234).abs() < 1e-9);
    assert!((ms(line.rtt_ns) - 0.5).abs() < 1e-9);
    assert_eq!(line.samples, 32);
    assert!((ms(line.min_rtt_ns) - 0.4).abs() < 1e-9);
    assert!((ms(line.max_rtt_ns) - 12.3).abs() < 1e-9);
    assert!(!line.outlier_rejected);
    assert!(line.head.ts.ends_with('Z'));
    assert!(parse_ns(&line.head.ts).is_some());
    assert_eq!(second.summary.unwrap().head.variant, "zenoh-replication");
}

#[test]
fn debug_log_contains_one_line_per_raw_sample() {
    let log = open_clock_sync_log("logs", "alice", "run01");
    let m = measured(500_000, 300_000, 3, 300_000, 500_000);
    let attempts = vec![
        ok_sample(100, 200, 250, 400, false),
        ok_sample(1000, 1150, 1200, 1300, true),
        ok_sample(2000, 2200, 2250, 2500, false),
    ];
    let lines = log.write("v1", "bob", Some(&m), &attempts).debug;
    assert_eq!(lines.len(), 3, "expected 3 sample lines");
    assert_eq!(lines[0].sample_index, 0);
    assert_eq!(lines[0].t1_ns, 100);
    assert!(!lines[0].accepted);
    assert_eq!(lines[0].result, "ok");
    assert_eq!(lines[1].sample_index, 1);
    assert!(lines[1].accepted);
    assert_eq!(lines[1].result, "ok");
}

#[test]
fn debug_log_records_timeout_attempts_when_no_measurement() {
    let log = open_clock_sync_log("logs", "alice", "run01");
    let attempts = vec![timeout_sample(1000), timeout_sample(2000), timeout_sample(3000)];
    let lines = log.write("", "bob", None, &attempts);
    assert!(lines.summary.is_none());
    assert_eq!(lines.debug.len(), 3, "one debug row per attempt");
    for (i, row) in lines.debug.iter().enumerate() {
        assert_eq!(row.sample_index, i);
        assert_eq!(row.result, "timeout");
        assert!(!row.accepted);
        assert_eq!(row.t2_ns, 0);
        assert!(row.offset_ns.is_none(), "offset must be absent for timeout rows");
        assert!(row.rtt_ns.is_none(), "rtt must be absent for timeout rows");
    }
}
