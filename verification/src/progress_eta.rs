//! How long a run will still take.

use crate::config::{lookup, VariantConfig, VariantView};
use crate::text::{decimal, decimal_u64};
use crate::time::{Duration, MAX_NANOS, NANOS_PER_MILLI, NANOS_PER_SEC};
use crate::toml_value::{TableView, TomlValue, ValueView};
use vstd::prelude::*;

verus! {

/// A whole number of seconds that is not negative, under `key`.
pub open spec fn optional_secs(common: TableView, key: Seq<char>) -> Option<u64> {
    match lookup(common, key) {
        Some(ValueView::Integer(n)) => if n >= 0 {
            Some(n as u64)
        } else {
            None
        },
        _ => None,
    }
}

/// The sum, or the largest number where it is larger.
pub open spec fn saturating_sum(a: int, b: int) -> int {
    if a + b > u64::MAX {
        u64::MAX as int
    } else {
        a + b
    }
}

/// A number of seconds in milliseconds, or the largest number where that is larger.
pub open spec fn saturating_millis(secs: int) -> int {
    if secs * 1000 > u64::MAX {
        u64::MAX as int
    } else {
        secs * 1000
    }
}

/// What a spawn takes by its settings, in nanoseconds: its three phases and the pause
/// after it or, where a phase is not set, its timeout.
pub open spec fn nominal_nanos(v: VariantView, grace_ms: u64) -> int {
    match (
        optional_secs(v.common, "stabilize_secs"@),
        optional_secs(v.common, "operate_secs"@),
        optional_secs(v.common, "silent_secs"@),
    ) {
        (Some(stabilize), Some(operate), Some(silent)) => {
            let secs = saturating_sum(saturating_sum(stabilize as int, operate as int), silent as int);
            saturating_sum(saturating_millis(secs), grace_ms as int) * NANOS_PER_MILLI
        },
        _ => (match v.timeout_secs {
            Some(t) => t as int,
            None => 1,
        }) * NANOS_PER_SEC,
    }
}

fn read_optional_secs(variant: &VariantConfig, key: &str) -> (r: Option<u64>)
    ensures
        r == optional_secs(variant@.common, key@),
{
    match variant.common.get(key) {
        Some(TomlValue::Integer(n)) => if *n >= 0 {
            Some(*n as u64)
        } else {
            None
        },
        _ => None,
    }
}

/// What a spawn of the variant takes by its settings.
pub fn spawn_nominal_duration(variant: &VariantConfig, inter_spawn_grace_ms: u64) -> (r: Duration)
    ensures
        r.nanos == nominal_nanos(variant@, inter_spawn_grace_ms),
{
    let stabilize = read_optional_secs(variant, "stabilize_secs");
    let operate = read_optional_secs(variant, "operate_secs");
    let silent = read_optional_secs(variant, "silent_secs");
    match (stabilize, operate, silent) {
        (Some(a), Some(b), Some(c)) => {
            let secs: u64 = a.saturating_add(b).saturating_add(c);
            let millis: u64 = if secs > u64::MAX / 1000 {
                u64::MAX
            } else {
                secs * 1000
            };
            let total: u64 = millis.saturating_add(inter_spawn_grace_ms);
            Duration::from_millis(total)
        },
        _ => Duration::from_secs(match variant.timeout_secs {
            Some(t) => t,
            None => 1,
        }),
    }
}

/// A number below 100 with two digits.
pub open spec fn two_digits(n: nat) -> Seq<char> {
    if n < 10 {
        "0"@ + decimal(n)
    } else {
        decimal(n)
    }
}

/// Hours, minutes and seconds; hours only where there are any, and minutes only where
/// there are hours or minutes.
pub open spec fn hms(secs: nat) -> Seq<char> {
    let hours = secs / 3600;
    let minutes = (secs % 3600) / 60;
    let seconds = secs % 60;
    if hours > 0 {
        decimal(hours) + "h "@ + two_digits(minutes) + "m "@ + two_digits(seconds) + "s"@
    } else if minutes > 0 {
        decimal(minutes) + "m "@ + two_digits(seconds) + "s"@
    } else {
        decimal(seconds) + "s"@
    }
}

fn push_two_digits(s: &mut String, n: u64)
    requires
        n < 100,
    ensures
        final(s)@ == old(s)@ + two_digits(n as nat),
{
    let ghost before = s@;
    if n < 10 {
        s.append("0");
    }
    s.append(decimal_u64(n).as_str());
    assert(s@ =~= before + two_digits(n as nat));
}

/// The span in hours, minutes and seconds, rounded down to whole seconds.
pub fn format_hms(d: Duration) -> (r: String)
    requires
        d.nanos <= MAX_NANOS,
    ensures
        r@ == hms((d.nanos as int / NANOS_PER_SEC as int) as nat),
{
    assert(d.nanos / NANOS_PER_SEC <= u64::MAX);
    let total: u64 = (d.nanos / NANOS_PER_SEC) as u64;
    let hours: u64 = total / 3600;
    let minutes: u64 = (total % 3600) / 60;
    let seconds: u64 = total % 60;
    if hours > 0 {
        let mut s = decimal_u64(hours);
        s.append("h ");
        push_two_digits(&mut s, minutes);
        s.append("m ");
        push_two_digits(&mut s, seconds);
        s.append("s");
        s
    } else if minutes > 0 {
        let mut s = decimal_u64(minutes);
        s.append("m ");
        push_two_digits(&mut s, seconds);
        s.append("s");
        s
    } else {
        let mut s = decimal_u64(seconds);
        s.append("s");
        s
    }
}

/// The time that is left, in nanoseconds: what the remaining spawns take by their
/// settings, and for each of them what the spawns so far took on average beyond their
/// settings.
pub open spec fn eta_nanos(
    elapsed: Duration,
    nominal_so_far: Duration,
    nominal_remaining: Duration,
    completed: usize,
    total: usize,
) -> int {
    let overhead = if elapsed.nanos >= nominal_so_far.nanos {
        elapsed.nanos - nominal_so_far.nanos
    } else {
        0
    };
    nominal_remaining.nanos + (overhead / completed as int) * (total - completed)
}

/// Some spawns are done and some are left.
pub open spec fn underway(completed: usize, total: usize) -> bool {
    0 < completed && completed < total
}

/// Estimates the time that is left; none before the first spawn is done and after the
/// last.
pub fn estimate_eta(
    elapsed: Duration,
    nominal_so_far: Duration,
    nominal_remaining: Duration,
    completed: usize,
    total: usize,
) -> (r: Option<Duration>)
    requires
        elapsed.nanos <= MAX_NANOS,
        nominal_remaining.nanos <= MAX_NANOS,
        underway(completed, total) ==> eta_nanos(
            elapsed,
            nominal_so_far,
            nominal_remaining,
            completed,
            total,
        ) <= MAX_NANOS,
    ensures
        match r {
            Some(d) => underway(completed, total) && d.nanos == eta_nanos(
                elapsed,
                nominal_so_far,
                nominal_remaining,
                completed,
                total,
            ),
            None => !underway(completed, total),
        },
{
    if completed == 0 || completed >= total {
        return None;
    }
    let overhead: u128 = elapsed.saturating_sub(nominal_so_far).nanos;
    let left: u128 = (total - completed) as u128;
    let each: u128 = overhead / completed as u128;
    assert(each * left >= 0) by (nonlinear_arith);
    Some(Duration { nanos: nominal_remaining.nanos + each * left })
}

/// Whether the time that is left can be estimated: the figures are spans that a `Duration`
/// holds, and so is the estimate.
pub fn eta_in_range(
    elapsed: Duration,
    nominal_so_far: Duration,
    nominal_remaining: Duration,
    completed: usize,
    total: usize,
) -> (r: bool)
    ensures
        r == (elapsed.nanos <= MAX_NANOS && nominal_remaining.nanos <= MAX_NANOS && (underway(
            completed,
            total,
        ) ==> eta_nanos(
            elapsed,
            nominal_so_far,
            nominal_remaining,
            completed,
            total,
        ) <= MAX_NANOS)),
{
    if elapsed.nanos > MAX_NANOS || nominal_remaining.nanos > MAX_NANOS {
        return false;
    }
    if completed == 0 || completed >= total {
        return true;
    }
    let overhead: u128 = elapsed.saturating_sub(nominal_so_far).nanos;
    let left: u128 = (total - completed) as u128;
    let each: u128 = overhead / completed as u128;
    let room: u128 = MAX_NANOS - nominal_remaining.nanos;
    assert((each <= room / left) == (each * left <= room)) by (nonlinear_arith)
        requires
            left > 0,
    ;
    each <= room / left
}

/// A run that keeps within its settings takes just what they say is left.
pub proof fn on_budget_run_adds_nothing(
    elapsed: Duration,
    nominal_so_far: Duration,
    nominal_remaining: Duration,
    completed: usize,
    total: usize,
)
    requires
        elapsed.nanos <= nominal_so_far.nanos,
        underway(completed, total),
    ensures
        eta_nanos(elapsed, nominal_so_far, nominal_remaining, completed, total)
            == nominal_remaining.nanos,
{
    assert(0int / completed as int == 0) by (nonlinear_arith)
        requires
            completed > 0,
    ;
    assert(0 * (total - completed) == 0);
}

/// What the spawns that are left add beyond their settings is at most the average of the
/// spawns so far for each of them, and less than a nanosecond for each short of that.
pub proof fn spawns_add_their_average(
    elapsed: Duration,
    nominal_so_far: Duration,
    nominal_remaining: Duration,
    completed: usize,
    total: usize,
)
    requires
        elapsed.nanos >= nominal_so_far.nanos,
        underway(completed, total),
    ensures
        ({
            let over = elapsed.nanos - nominal_so_far.nanos;
            let added = eta_nanos(elapsed, nominal_so_far, nominal_remaining, completed, total)
                - nominal_remaining.nanos;
            &&& added * completed <= over * (total - completed)
            &&& over * (total - completed) < (added + (total - completed)) * completed
            &&& exists|each: int|
                added == #[trigger] (each * (total - completed)) && each * completed <= over < (each + 1)
                    * completed
        }),
{
    let over = elapsed.nanos - nominal_so_far.nanos;
    let done = completed as int;
    let left = total - completed;
    let each = over / done;
    assert(each * done <= over < (each + 1) * done) by (nonlinear_arith)
        requires
            each == over / done,
            done > 0,
    ;
    assert((each * left) * done <= over * left && over * left < (each * left + left) * done) by (nonlinear_arith)
        requires
            each * done <= over < (each + 1) * done,
            left > 0,
    ;
    assert(each * left == each * (total - completed));
}

/// What a spawn takes by its settings: where its three phases are set to whole numbers of
/// seconds that are not negative, those and the pause behind it, as long as that fits in 64
/// bits of milliseconds; where one is not, its timeout, or a second without one.
pub proof fn spawn_takes_its_phases_and_the_pause(v: VariantView, grace_ms: u64, a: i64, b: i64, c: i64)
    ensures
        lookup(v.common, "stabilize_secs"@) == Some(ValueView::Integer(a)) && lookup(
            v.common,
            "operate_secs"@,
        ) == Some(ValueView::Integer(b)) && lookup(v.common, "silent_secs"@) == Some(ValueView::Integer(c))
            && a >= 0 && b >= 0 && c >= 0 && (a + b + c) * 1000 + grace_ms <= 0xffff_ffff_ffff_ffff
            ==> nominal_nanos(v, grace_ms) == (a + b + c) * 1_000_000_000 + grace_ms * 1_000_000,
        (!v.common.contains_key("stabilize_secs"@) || !v.common.contains_key("operate_secs"@)
            || !v.common.contains_key("silent_secs"@)) && v.timeout_secs is Some ==> nominal_nanos(v, grace_ms)
            == v.timeout_secs->0 * 1_000_000_000,
        (!v.common.contains_key("stabilize_secs"@) || !v.common.contains_key("operate_secs"@)
            || !v.common.contains_key("silent_secs"@)) && v.timeout_secs is None ==> nominal_nanos(v, grace_ms)
            == 1_000_000_000,
        lookup(v.common, "stabilize_secs"@) == Some(ValueView::Integer(a)) && a < 0 && v.timeout_secs is Some
            ==> nominal_nanos(v, grace_ms) == v.timeout_secs->0 * 1_000_000_000,
{
}

/// A span is shown by its whole hours, minutes and seconds: hours where there are any, with
/// minutes and seconds of two digits behind them; minutes where there are any, with seconds
/// of two digits behind them; and else just seconds.
pub proof fn spans_are_shown_by_hours_minutes_and_seconds(h: nat, m: nat, s: nat)
    requires
        m < 60,
        s < 60,
    ensures
        ({
            let two = |n: nat|
                if n < 10 {
                    "0"@ + decimal(n)
                } else {
                    decimal(n)
                };
            let shown = hms(h * 3600 + m * 60 + s);
            &&& h > 0 ==> shown == decimal(h) + "h "@ + two(m) + "m "@ + two(s) + "s"@
            &&& h == 0 && m > 0 ==> shown == decimal(m) + "m "@ + two(s) + "s"@
            &&& h == 0 && m == 0 ==> shown == decimal(s) + "s"@
        }),
{
    let secs = h * 3600 + m * 60 + s;
    assert(secs / 3600 == h && (secs % 3600) / 60 == m && secs % 60 == s) by (nonlinear_arith)
        requires
            secs == h * 3600 + m * 60 + s,
            m < 60,
            s < 60,
    ;
}

/// There is an estimate just where some spawns are over and some are left.
pub proof fn estimate_needs_spawns_on_both_sides(
    elapsed: Duration,
    so_far: Duration,
    remaining: Duration,
    completed: usize,
    total: usize,
    r: Option<Duration>,
)
    requires
        call_ensures(estimate_eta, (elapsed, so_far, remaining, completed, total), r),
    ensures
        r is Some <==> 0 < completed && completed < total,
        r is Some ==> r->0.nanos == eta_nanos(elapsed, so_far, remaining, completed, total),
{
}

/// A span is shown by its whole seconds.
pub proof fn spans_are_shown_by_their_seconds(d: Duration, r: String)
    requires
        d.nanos <= MAX_NANOS,
        call_ensures(format_hms, (d,), r),
    ensures
        r@ == hms((d.nanos as int / 1_000_000_000) as nat),
{
}

/// What a variant takes by its settings is what is counted for it.
pub proof fn variants_take_what_they_say(
    variant: &VariantConfig,
    grace_ms: u64,
    r: Duration,
    a: i64,
    b: i64,
    c: i64,
)
    requires
        call_ensures(spawn_nominal_duration, (variant, grace_ms), r),
        variant@.common.contains_key("stabilize_secs"@) && variant@.common["stabilize_secs"@]
            == ValueView::Integer(a),
        variant@.common.contains_key("operate_secs"@) && variant@.common["operate_secs"@]
            == ValueView::Integer(b),
        variant@.common.contains_key("silent_secs"@) && variant@.common["silent_secs"@]
            == ValueView::Integer(c),
        a >= 0 && b >= 0 && c >= 0,
        (a + b + c) * 1000 + grace_ms <= 0xffff_ffff_ffff_ffff,
    ensures
        r.nanos == (a + b + c) * 1_000_000_000 + grace_ms * 1_000_000,
{
    spawn_takes_its_phases_and_the_pause(variant@, grace_ms, a, b, c);
}

/// An estimate can be shown just where the times that are given, and the estimate where there
/// is one, have at most as many whole seconds as there are numbers of 64 bits.
pub proof fn estimates_are_shown_within_range(
    elapsed: Duration,
    so_far: Duration,
    remaining: Duration,
    completed: usize,
    total: usize,
    r: bool,
)
    requires
        call_ensures(eta_in_range, (elapsed, so_far, remaining, completed, total), r),
    ensures
        ({
            let most = 0xffff_ffff_ffff_ffff * 1_000_000_000 + 999_999_999;
            r <==> elapsed.nanos <= most && remaining.nanos <= most && (0 < completed && completed < total
                ==> eta_nanos(elapsed, so_far, remaining, completed, total) <= most)
        }),
{
}

} // verus!
