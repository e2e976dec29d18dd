//! How long a run will still take.

use runner::progress_eta::{estimate_eta, eta_in_range, format_hms};
use runner::time::Duration;

#[test]
fn format_hms_zero() {
    assert_eq!(format_hms(Duration { nanos: 0 }), "0s");
}

#[test]
fn format_hms_seconds_only() {
    assert_eq!(format_hms(Duration::from_secs(47)), "47s");
}

#[test]
fn format_hms_minutes_and_seconds() {
    assert_eq!(format_hms(Duration::from_secs(12 * 60 + 9)), "12m 09s");
}

#[test]
fn format_hms_hours_minutes_seconds() {
    assert_eq!(
        format_hms(Duration::from_secs(3600 + 2 * 60 + 17)),
        "1h 02m 17s"
    );
}

#[test]
fn format_hms_rounds_down_sub_second_remainder() {
    // 47.9s -> 47s (we deliberately drop sub-second precision because
    // the line is operator-facing and 100 ms matters for nothing here).
    assert_eq!(format_hms(Duration::from_millis(47_900)), "47s");
}

#[test]
fn format_hms_pads_zero_seconds() {
    // 1 minute exactly -> "1m 00s" (NOT "1m 0s").
    assert_eq!(format_hms(Duration::from_secs(60)), "1m 00s");
}

#[test]
fn format_hms_pads_zero_minutes_in_hours() {
    // 1h exactly -> "1h 00m 00s".
    assert_eq!(format_hms(Duration::from_secs(3600)), "1h 00m 00s");
}

#[test]
fn estimate_eta_deterministic_overhead_case() {
    // 4 spawns with nominal [30, 30, 30, 30].
    // After spawn 1 (i=1, completed=1), elapsed = 70s.
    // nominal_so_far = 30s, nominal_remaining = 90s.
    // overhead_total = 70 - 30 = 40s -> overhead_per_spawn = 40s / 1 = 40s.
    // remaining = 3.
    // eta = 90 + 40 * 3 = 210s.
    let got = estimate_eta(
        Duration::from_secs(70),
        Duration::from_secs(30),
        Duration::from_secs(90),
        1,
        4,
    )
    .unwrap();
    assert_eq!(got, Duration::from_secs(210));
}

#[test]
fn estimate_eta_returns_none_on_final_spawn() {
    // i == total -> no ETA line should print.
    let got = estimate_eta(
        Duration::from_secs(120),
        Duration::from_secs(120),
        Duration { nanos: 0 },
        4,
        4,
    );
    assert!(got.is_none(), "ETA must be None when completed == total");
}

#[test]
fn estimate_eta_returns_none_when_completed_is_zero() {
    let got = estimate_eta(
        Duration { nanos: 0 },
        Duration { nanos: 0 },
        Duration::from_secs(120),
        0,
        4,
    );
    assert!(got.is_none());
}

#[test]
fn estimate_eta_saturates_on_under_budget_run() {
    // elapsed < nominal_so_far -> overhead saturates to zero. The ETA
    // is just the nominal remaining; we do NOT predict a negative
    // remainder.
    let got = estimate_eta(
        Duration::from_secs(10),
        Duration::from_secs(30),
        Duration::from_secs(90),
        1,
        4,
    )
    .unwrap();
    assert_eq!(got, Duration::from_secs(90));
}

#[test]
fn estimate_eta_amortizes_overhead_over_completed_spawns() {
    // After 2 spawns (each nominally 30s), elapsed = 80s.
    // nominal_so_far = 60s, overhead_total = 20s, per_spawn = 10s.
    // 2 spawns remain, nominal_remaining = 60s.
    // eta = 60 + 10 * 2 = 80s.
    let got = estimate_eta(
        Duration::from_secs(80),
        Duration::from_secs(60),
        Duration::from_secs(60),
        2,
        4,
    )
    .unwrap();
    assert_eq!(got, Duration::from_secs(80));
}

#[test]
fn estimate_eta_takes_counts_as_they_are() {
    let none = Duration { nanos: 0 };
    let overhead = Duration::from_secs(4_294_967_297);
    assert!(eta_in_range(overhead, none, none, 4_294_967_297, 4_294_967_298));
    assert_eq!(
        estimate_eta(overhead, none, none, 4_294_967_297, 4_294_967_298),
        Some(Duration::from_secs(1))
    );
    assert!(eta_in_range(none, none, none, 4_294_967_296, 4_294_967_298));
    assert_eq!(
        estimate_eta(none, none, none, 4_294_967_296, 4_294_967_298),
        Some(none)
    );
}

#[test]
fn estimates_that_no_span_holds_are_out_of_range() {
    let none = Duration { nanos: 0 };
    let most = Duration {
        nanos: 18_446_744_073_709_551_615_999_999_999,
    };
    assert!(eta_in_range(most, none, none, 1, 2));
    assert!(!eta_in_range(most, none, none, 1, 3));
    assert!(!eta_in_range(most, none, none, 1, usize::MAX));
    assert!(!eta_in_range(most, none, Duration { nanos: 1 }, 1, 2));
    assert!(eta_in_range(most, none, most, 2, 2));
    assert!(!eta_in_range(Duration { nanos: most.nanos + 1 }, none, none, 2, 2));
}
