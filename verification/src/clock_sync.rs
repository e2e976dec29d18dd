//! Clock offsets between runners, measured by probes.
//!
//! A probe leaves at `t1`, reaches the peer at `t2`, is answered at `t3` and the
//! answer arrives at `t4`; `t1` and `t4` are read on this runner's clock, `t2` and
//! `t3` on the peer's. Of several probes the one with the shortest round trip gives
//! the offset, unless its offset lies far off the others'.

use crate::bignat::BigNat;
use crate::message::Message;
use crate::names::{name_set, texts, to_set_push, NameMap};
use crate::text::same;
use vstd::prelude::*;

verus! {

/// How many probes one measurement takes.
pub const DEFAULT_SAMPLES: usize = 32;

/// How many standard deviations from the median make an offset an outlier.
pub const OUTLIER_STDDEV_THRESHOLD: u64 = 5;

// ---------------------------------------------------------------------
// Probe results
// ---------------------------------------------------------------------

/// What became of a probe.
#[derive(Debug, Clone, Copy, PartialEq, Eq, Structural)]
pub enum ProbeResult {
    /// A matching answer came.
    Answered,
    /// Nothing came in time.
    Timeout,
    /// Only answers to other probes came.
    RejectedFilter,
    /// An answer came that echoes another `t1`.
    RejectedT1,
    /// Something came that could not be read.
    ParseError,
}

impl ProbeResult {
    /// The word for the result.
    pub open spec fn word(self) -> Seq<char> {
        match self {
            ProbeResult::Answered => "ok"@,
            ProbeResult::Timeout => "timeout"@,
            ProbeResult::RejectedFilter => "rejected_filter"@,
            ProbeResult::RejectedT1 => "rejected_t1"@,
            ProbeResult::ParseError => "parse_error"@,
        }
    }

    /// The word for the result, as it stands in logs.
    pub fn as_str(self) -> (r: &'static str)
        ensures
            r@ == self.word(),
    {
        match self {
            ProbeResult::Answered => "ok",
            ProbeResult::Timeout => "timeout",
            ProbeResult::RejectedFilter => "rejected_filter",
            ProbeResult::RejectedT1 => "rejected_t1",
            ProbeResult::ParseError => "parse_error",
        }
    }
}

// ---------------------------------------------------------------------
// Samples
// ---------------------------------------------------------------------

/// The four times of an answered probe, in nanoseconds since 1970.
#[derive(Debug, Clone, Copy, PartialEq, Eq, Structural)]
pub struct Sample {
    pub t1_ns: i64,
    pub t2_ns: i64,
    pub t3_ns: i64,
    pub t4_ns: i64,
}

/// Half of `x`, rounded toward zero.
pub open spec fn half(x: int) -> int {
    if x >= 0 {
        x / 2
    } else {
        -((-x) / 2)
    }
}

/// The number fits in 64 bits.
pub open spec fn fits(x: int) -> bool {
    i64::MIN <= x <= i64::MAX
}

impl Sample {
    /// The time that the probe and its answer were under way.
    pub open spec fn rtt(self) -> int {
        (self.t4_ns - self.t1_ns) - (self.t3_ns - self.t2_ns)
    }

    /// By how much the peer's clock is ahead.
    pub open spec fn offset(self) -> int {
        half((self.t2_ns - self.t1_ns) + (self.t3_ns - self.t4_ns))
    }

    /// The differences of the four times fit in 64 bits.
    pub open spec fn in_range(self) -> bool {
        &&& fits(self.t4_ns - self.t1_ns)
        &&& fits(self.t3_ns - self.t2_ns)
        &&& fits(self.rtt())
        &&& fits(self.t2_ns - self.t1_ns)
        &&& fits(self.t3_ns - self.t4_ns)
        &&& fits((self.t2_ns - self.t1_ns) + (self.t3_ns - self.t4_ns))
    }

    /// Whether the differences of the four times fit in 64 bits.
    pub fn check_range(&self) -> (r: bool)
        ensures
            r == self.in_range(),
    {
        let t1: i128 = self.t1_ns as i128;
        let t2: i128 = self.t2_ns as i128;
        let t3: i128 = self.t3_ns as i128;
        let t4: i128 = self.t4_ns as i128;
        let lo: i128 = i64::MIN as i128;
        let hi: i128 = i64::MAX as i128;
        let out: i128 = t2 - t1;
        let back: i128 = t3 - t4;
        let here: i128 = t4 - t1;
        let there: i128 = t3 - t2;
        let rtt: i128 = here - there;
        let sum: i128 = out + back;
        lo <= out && out <= hi && lo <= back && back <= hi && lo <= here && here <= hi && lo <= there
            && there <= hi && lo <= rtt && rtt <= hi && lo <= sum && sum <= hi
    }

    /// The time that the probe and its answer were under way.
    pub fn rtt_ns(&self) -> (r: i64)
        requires
            self.in_range(),
        ensures
            r == self.rtt(),
    {
        (self.t4_ns - self.t1_ns) - (self.t3_ns - self.t2_ns)
    }

    /// By how much the peer's clock is ahead.
    pub fn offset_ns(&self) -> (r: i64)
        requires
            self.in_range(),
        ensures
            r == self.offset(),
    {
        let sum: i64 = (self.t2_ns - self.t1_ns) + (self.t3_ns - self.t4_ns);
        if sum >= 0 {
            sum / 2
        } else if sum == i64::MIN {
            -4611686018427387904i64
        } else {
            -((-sum) / 2)
        }
    }
}

/// A peer whose clock shows the same time and whose answer takes as long as the
/// probe gives the offset zero and the true round trip.
pub proof fn aligned_clocks_give_no_offset(sent: int, way: int, stay: int, s: Sample)
    requires
        s.t1_ns == sent,
        s.t2_ns == sent + way,
        s.t3_ns == sent + way + stay,
        s.t4_ns == sent + 2 * way + stay,
    ensures
        s.offset() == 0,
        s.rtt() == 2 * way,
{
}

/// A peer whose clock is ahead by `ahead` gives just that offset, where both ways
/// take equally long, and the round trip does not depend on it.
pub proof fn clock_ahead_gives_that_offset(sent: int, way: int, stay: int, ahead: int, s: Sample)
    requires
        s.t1_ns == sent,
        s.t2_ns == sent + way + ahead,
        s.t3_ns == sent + way + stay + ahead,
        s.t4_ns == sent + 2 * way + stay,
    ensures
        s.offset() == ahead,
        s.rtt() == 2 * way,
{
}

// ---------------------------------------------------------------------
// Order and spread of samples
// ---------------------------------------------------------------------

/// Round trip and offset of a sample.
pub open spec fn pair(s: Sample) -> (i64, i64) {
    (s.rtt() as i64, s.offset() as i64)
}

/// Round trips and offsets of the samples.
pub open spec fn pairs(samples: Seq<Sample>) -> Seq<(i64, i64)> {
    Seq::new(samples.len(), |i: int| pair(samples[i]))
}

/// Puts `x` behind everything with a round trip that is not longer.
pub open spec fn insert_by_rtt(sorted: Seq<(i64, i64)>, x: (i64, i64)) -> Seq<(i64, i64)>
    decreases sorted.len(),
{
    if sorted.len() == 0 {
        seq![x]
    } else if sorted.last().0 <= x.0 {
        sorted.push(x)
    } else {
        insert_by_rtt(sorted.drop_last(), x).push(sorted.last())
    }
}

/// The pairs by round trip, those with the same round trip in their first order.
pub open spec fn by_rtt(p: Seq<(i64, i64)>) -> Seq<(i64, i64)>
    decreases p.len(),
{
    if p.len() == 0 {
        Seq::empty()
    } else {
        insert_by_rtt(by_rtt(p.drop_last()), p.last())
    }
}

/// No round trip is shorter than one before it.
pub open spec fn rtt_ascending(p: Seq<(i64, i64)>) -> bool {
    forall|i: int, j: int| 0 <= i <= j < p.len() ==> #[trigger] p[i].0 <= #[trigger] p[j].0
}

proof fn insert_by_rtt_at(s: Seq<(i64, i64)>, x: (i64, i64), k: int)
    requires
        0 <= k <= s.len(),
        forall|j: int| k <= j < s.len() ==> (#[trigger] s[j]).0 > x.0,
        k == 0 || s[k - 1].0 <= x.0,
    ensures
        insert_by_rtt(s, x) == s.insert(k, x),
    decreases s.len(),
{
    if s.len() == 0 {
        assert(seq![x] =~= s.insert(k, x));
    } else if k == s.len() {
        assert(s.push(x) =~= s.insert(k, x));
    } else {
        insert_by_rtt_at(s.drop_last(), x, k);
        assert(s.drop_last().insert(k, x).push(s.last()) =~= s.insert(k, x));
    }
}

proof fn insert_by_rtt_facts(s: Seq<(i64, i64)>, x: (i64, i64))
    requires
        rtt_ascending(s),
    ensures
        rtt_ascending(insert_by_rtt(s, x)),
        insert_by_rtt(s, x).len() == s.len() + 1,
        insert_by_rtt(s, x).to_multiset() == s.to_multiset().insert(x),
        forall|j: int| 0 <= j < s.len() + 1 ==> (#[trigger] insert_by_rtt(s, x)[j]).0 <= x.0
            || (s.len() > 0 && insert_by_rtt(s, x)[j].0 <= s.last().0),
    decreases s.len(),
{
    broadcast use vstd::seq_lib::group_to_multiset_ensures;

    if s.len() == 0 {
        assert(seq![x] =~= Seq::<(i64, i64)>::empty().push(x));
        assert(s =~= Seq::empty());
    } else if s.last().0 <= x.0 {
    } else {
        let t = s.drop_last();
        insert_by_rtt_facts(t, x);
        let u = insert_by_rtt(t, x);
        assert(s =~= t.push(s.last()));
        assert(s.to_multiset() =~= t.to_multiset().insert(s.last()));
        assert(u.push(s.last()).to_multiset() =~= s.to_multiset().insert(x));
        assert(t.len() > 0 ==> t.last().0 <= s.last().0);
    }
}

/// Ordering by round trip keeps the samples and puts the round trips in ascending
/// order.
pub proof fn by_rtt_orders(p: Seq<(i64, i64)>)
    ensures
        rtt_ascending(by_rtt(p)),
        by_rtt(p).len() == p.len(),
        by_rtt(p).to_multiset() == p.to_multiset(),
    decreases p.len(),
{
    broadcast use vstd::seq_lib::group_to_multiset_ensures;

    if p.len() > 0 {
        by_rtt_orders(p.drop_last());
        insert_by_rtt_facts(by_rtt(p.drop_last()), p.last());
        assert(p =~= p.drop_last().push(p.last()));
    } else {
        assert(p =~= Seq::empty());
    }
}

proof fn by_rtt_head_is_a_sample(samples: Seq<Sample>)
    requires
        samples.len() > 0,
    ensures
        exists|i: int| 0 <= i < samples.len() && #[trigger] pair(samples[i]) == by_rtt(pairs(samples))[0],
{
    broadcast use vstd::seq_lib::group_to_multiset_ensures;

    let p = pairs(samples);
    let q = by_rtt(p);
    by_rtt_orders(p);
    assert(q.to_multiset().count(q[0]) > 0) by {
        assert(q.contains(q[0]));
    }
    assert(p.contains(q[0]));
    let i = choose|i: int| 0 <= i < p.len() && p[i] == q[0];
    assert(pair(samples[i]) == q[0]);
}

/// The first sample in the order by round trip has the shortest round trip of all,
/// and of those that share it, it came first.
pub proof fn best_is_the_first_of_the_shortest(p: Seq<(i64, i64)>)
    requires
        p.len() > 0,
    ensures
        exists|i: int|
            0 <= i < p.len() && #[trigger] p[i] == by_rtt(p)[0] && (forall|j: int|
                0 <= j < p.len() ==> p[i].0 <= (#[trigger] p[j]).0) && (forall|j: int|
                0 <= j < i ==> p[i].0 < (#[trigger] p[j]).0),
    decreases p.len(),
{
    let n = p.len() - 1;
    let t = p.drop_last();
    by_rtt_orders(t);
    let s = by_rtt(t);
    if n == 0 {
        assert(s =~= Seq::empty());
        assert(by_rtt(p) =~= seq![p[0]]);
        assert(p[0] == by_rtt(p)[0]);
    } else {
        best_is_the_first_of_the_shortest(t);
        let i = choose|i: int|
            0 <= i < t.len() && #[trigger] t[i] == s[0] && (forall|j: int|
                0 <= j < t.len() ==> t[i].0 <= (#[trigger] t[j]).0) && (forall|j: int|
                0 <= j < i ==> t[i].0 < (#[trigger] t[j]).0);
        head_after_insert(s, p.last());
        assert forall|j: int| 0 <= j < n implies p[j] == #[trigger] t[j] by {}
        if p.last().0 < s[0].0 {
            assert(p[n] == by_rtt(p)[0]);
            assert forall|j: int| 0 <= j < p.len() implies p[n].0 <= (#[trigger] p[j]).0 by {
                if j < n {
                    assert(p[j] == t[j]);
                }
            }
            assert forall|j: int| 0 <= j < n implies p[n].0 < (#[trigger] p[j]).0 by {
                assert(p[j] == t[j]);
            }
        } else {
            assert(p[i] == t[i]);
            assert(p[i] == by_rtt(p)[0]);
            assert forall|j: int| 0 <= j < p.len() implies p[i].0 <= (#[trigger] p[j]).0 by {
                if j < n {
                    assert(p[j] == t[j]);
                }
            }
            assert forall|j: int| 0 <= j < i implies p[i].0 < (#[trigger] p[j]).0 by {
                assert(p[j] == t[j]);
            }
        }
    }
}

proof fn head_after_insert(s: Seq<(i64, i64)>, x: (i64, i64))
    requires
        s.len() > 0,
        rtt_ascending(s),
    ensures
        insert_by_rtt(s, x).len() == s.len() + 1,
        insert_by_rtt(s, x)[0] == (if x.0 < s[0].0 { x } else { s[0] }),
    decreases s.len(),
{
    if s.last().0 <= x.0 {
        assert(s[0].0 <= s.last().0);
    } else if s.len() == 1 {
        assert(s.drop_last() =~= Seq::empty());
        assert(insert_by_rtt(s.drop_last(), x) =~= seq![x]);
    } else {
        head_after_insert(s.drop_last(), x);
    }
}

/// The usual order of numbers.
pub open spec fn le() -> spec_fn(i64, i64) -> bool {
    |a: i64, b: i64| a <= b
}

/// The numbers in ascending order.
pub open spec fn sorted(xs: Seq<i64>) -> Seq<i64> {
    xs.sort_by(le())
}

/// Twice the median: the middle number twice, or the two middle numbers together.
pub open spec fn twice_median(xs: Seq<i64>) -> int {
    let s = sorted(xs);
    let n = xs.len() as int;
    if n % 2 == 1 {
        2 * s[n / 2]
    } else {
        s[n / 2 - 1] + s[n / 2]
    }
}

/// The squared distances of the numbers from `y`, summed up.
pub open spec fn squared_distances(xs: Seq<i64>, y: int) -> nat
    decreases xs.len(),
{
    if xs.len() == 0 {
        0
    } else {
        squared_distances(xs.drop_last(), y) + square(xs.last() - y)
    }
}

/// The square of a number.
pub open spec fn square(x: int) -> nat {
    (if x >= 0 {
        x * x
    } else {
        (-x) * (-x)
    }) as nat
}

/// The squared distances of all pairs of numbers, summed up. This is the variance
/// of the numbers times the square of how many there are.
pub open spec fn spread(xs: Seq<i64>) -> nat
    decreases xs.len(),
{
    if xs.len() == 0 {
        0
    } else {
        spread(xs.drop_last()) + squared_distances(xs.drop_last(), xs.last() as int)
    }
}

/// The sum of the numbers.
pub open spec fn sum(xs: Seq<i64>) -> int
    decreases xs.len(),
{
    if xs.len() == 0 {
        0
    } else {
        sum(xs.drop_last()) + xs.last()
    }
}

/// The sum of the squares of the numbers.
pub open spec fn sum_of_squares(xs: Seq<i64>) -> int
    decreases xs.len(),
{
    if xs.len() == 0 {
        0
    } else {
        sum_of_squares(xs.drop_last()) + xs.last() * xs.last()
    }
}

proof fn squared_distances_expand(xs: Seq<i64>, y: int)
    ensures
        squared_distances(xs, y) == sum_of_squares(xs) - 2 * y * sum(xs) + xs.len() * y * y,
    decreases xs.len(),
{
    if xs.len() > 0 {
        let t = xs.drop_last();
        squared_distances_expand(t, y);
        let x = xs.last() as int;
        let n = t.len() as int;
        let s = sum(t);
        let q = sum_of_squares(t);
        assert(square(x - y) == x * x - 2 * x * y + y * y) by (nonlinear_arith)
            requires
                square(x - y) == (if x - y >= 0 {
                    (x - y) * (x - y)
                } else {
                    (-(x - y)) * (-(x - y))
                }),
        ;
        assert((q - 2 * y * s + n * y * y) + (x * x - 2 * x * y + y * y) == (q + x * x) - 2 * y * (s + x)
            + (n + 1) * y * y) by (nonlinear_arith);
    } else {
        assert(2 * y * sum(xs) == 0) by (nonlinear_arith)
            requires
                sum(xs) == 0,
        ;
        assert(xs.len() * y * y == 0) by (nonlinear_arith)
            requires
                xs.len() == 0,
        ;
    }
}

/// The spread of `n` numbers is `n` times the sum of their squares less the square
/// of their sum, that is, `n * n` times their variance.
pub proof fn spread_is_scaled_variance(xs: Seq<i64>)
    ensures
        spread(xs) == xs.len() * sum_of_squares(xs) - sum(xs) * sum(xs),
    decreases xs.len(),
{
    if xs.len() > 0 {
        let t = xs.drop_last();
        spread_is_scaled_variance(t);
        let y = xs.last() as int;
        squared_distances_expand(t, y);
        let n = t.len() as int;
        let s = sum(t);
        let q = sum_of_squares(t);
        assert((n * q - s * s) + (q - 2 * y * s + n * y * y) == (n + 1) * (q + y * y) - (s + y) * (s + y))
            by (nonlinear_arith);
    } else {
        assert(xs.len() * sum_of_squares(xs) == 0) by (nonlinear_arith)
            requires
                xs.len() == 0,
        ;
    }
}

/// The offsets of the samples.
pub open spec fn offsets(samples: Seq<Sample>) -> Seq<i64> {
    Seq::new(samples.len(), |i: int| samples[i].offset() as i64)
}

/// The offset of the sample with the shortest round trip lies more than five
/// standard deviations from the median of at least three offsets. Both sides of the
/// comparison are squared and multiplied by four times the squared count.
pub open spec fn is_outlier(samples: Seq<Sample>) -> bool {
    let xs = offsets(samples);
    let best = by_rtt(pairs(samples))[0].1;
    let n = samples.len();
    n >= 3 && square(2 * best - twice_median(xs)) * n * n > spread(xs) * 100
}

proof fn multiset_of_push(s: Seq<i64>, x: i64)
    ensures
        s.push(x).to_multiset() == s.to_multiset().insert(x),
{
    broadcast use vstd::seq_lib::group_to_multiset_ensures;

    assert(s.push(x).to_multiset() =~= s.to_multiset().insert(x));
}

fn sort_numbers(xs: &Vec<i64>) -> (r: Vec<i64>)
    ensures
        r@ == sorted(xs@),
{
    broadcast use vstd::seq_lib::group_to_multiset_ensures;

    let mut r: Vec<i64> = Vec::new();
    assert(xs@.take(0) =~= Seq::empty());
    for i in 0..xs.len()
        invariant
            forall|a: int, b: int| 0 <= a < b < r.len() ==> r@[a] <= r@[b],
            r@.to_multiset() == xs@.take(i as int).to_multiset(),
    {
        let x: i64 = xs[i];
        let mut k: usize = r.len();
        while k > 0 && r[k - 1] > x
            invariant
                k <= r.len(),
                forall|a: int, b: int| 0 <= a < b < r.len() ==> r@[a] <= r@[b],
                forall|j: int| k <= j < r.len() ==> r@[j] > x,
            decreases k,
        {
            k = k - 1;
        }
        proof {
            vstd::seq_lib::to_multiset_insert(r@, k as int, x);
            assert(xs@.take(i + 1) =~= xs@.take(i as int).push(x));
            multiset_of_push(xs@.take(i as int), x);
        }
        r.insert(k, x);
    }
    proof {
        assert(xs@.take(xs@.len() as int) =~= xs@);
        assert(vstd::relations::total_ordering(le()));
        xs@.lemma_sort_by_ensures(le());
        assert(vstd::relations::sorted_by(r@, le()));
        vstd::seq_lib::lemma_sorted_unique(r@, sorted(xs@), le());
    }
    r
}

fn distance(a: i64, b: i64) -> (r: u64)
    ensures
        r == (if a >= b { a - b } else { b - a }),
{
    if a >= b {
        (a as i128 - b as i128) as u64
    } else {
        (b as i128 - a as i128) as u64
    }
}

fn squared(d: u64) -> (r: u128)
    ensures
        r == d * d,
{
    assert(d * d <= u128::MAX) by (nonlinear_arith)
        requires
            d <= 0xffff_ffff_ffff_ffff,
    ;
    d as u128 * d as u128
}

fn spread_of(xs: &Vec<i64>) -> (r: BigNat)
    ensures
        r@ == spread(xs@),
{
    let mut total = BigNat::zero();
    for i in 0..xs.len()
        invariant
            total@ == spread(xs@.take(i as int)),
    {
        let y: i64 = xs[i];
        let ghost before = xs@.take(i as int);
        let mut part = BigNat::zero();
        for j in 0..i
            invariant
                i < xs.len(),
                y == xs@[i as int],
                part@ == squared_distances(xs@.take(j as int), y as int),
        {
            let d: u64 = distance(xs[j], y);
            part = part.plus(&BigNat::of(squared(d)));
            assert(xs@.take(j + 1).drop_last() =~= xs@.take(j as int));
        }
        total = total.plus(&part);
        assert(xs@.take(i + 1).drop_last() =~= before);
    }
    assert(xs@.take(xs@.len() as int) =~= xs@);
    total
}

/// Whether twice the best offset lies too far from twice the median: the deviation
/// squared, times the squared count, against the spread.
fn lies_far_off(twice_best: i128, twice_middle: i128, count: u64, spread_nat: &BigNat) -> (r: bool)
    requires
        -0x1_0000_0000_0000_0000 <= twice_best < 0x1_0000_0000_0000_0000,
        -0x1_0000_0000_0000_0000 <= twice_middle < 0x1_0000_0000_0000_0000,
    ensures
        r == (square(twice_best - twice_middle) * count * count > spread_nat@ * 100),
{
    let d: u128 = if twice_best >= twice_middle {
        (twice_best - twice_middle) as u128
    } else {
        (twice_middle - twice_best) as u128
    };
    let quarter: u64 = (d / 4) as u64;
    let rest: u64 = (d % 4) as u64;
    let whole = BigNat::of(d);
    let deviation = whole.times(quarter).times(4).plus(&whole.times(rest));
    proof {
        assert(d * quarter * 4 + d * rest == d * d) by (nonlinear_arith)
            requires
                d == quarter * 4 + rest,
        ;
        assert(square(twice_best - twice_middle) == d * d);
    }
    deviation.times(count).times(count).exceeds(&spread_nat.times(100))
}

// ---------------------------------------------------------------------
// The measurement
// ---------------------------------------------------------------------

/// One probe, as it goes into the debug log. Without an answer it has neither offset
/// nor round trip.
#[derive(Debug, Clone, Copy, PartialEq, Eq)]
pub struct RawSample {
    pub t1_ns: i64,
    pub t2_ns: i64,
    pub t3_ns: i64,
    pub t4_ns: i64,
    pub offset_ns: Option<i64>,
    pub rtt_ns: Option<i64>,
    /// The measurement rests on this probe.
    pub accepted: bool,
    pub result: ProbeResult,
}

/// The offset of a peer's clock.
#[derive(Debug, Clone, PartialEq, Eq)]
pub struct OffsetMeasurement {
    pub offset_ns: i64,
    pub rtt_ns: i64,
    /// How many probes were answered.
    pub samples: usize,
    pub min_rtt_ns: i64,
    pub max_rtt_ns: i64,
    pub raw_samples: Vec<RawSample>,
    /// The sample with the shortest round trip was an outlier.
    pub outlier_rejected: bool,
}

/// What the probes of one peer gave.
#[derive(Debug, Clone, PartialEq, Eq)]
pub struct PeerMeasurement {
    pub measurement: Option<OffsetMeasurement>,
    pub attempts: Vec<RawSample>,
}

/// All samples have differences that fit in 64 bits.
pub open spec fn all_in_range(samples: Seq<Sample>) -> bool {
    forall|i: int| 0 <= i < samples.len() ==> (#[trigger] samples[i]).in_range()
}

/// The row of an answered probe.
pub open spec fn answered_row(s: Sample, accepted: bool) -> RawSample {
    RawSample {
        t1_ns: s.t1_ns,
        t2_ns: s.t2_ns,
        t3_ns: s.t3_ns,
        t4_ns: s.t4_ns,
        offset_ns: Some(s.offset() as i64),
        rtt_ns: Some(s.rtt() as i64),
        accepted,
        result: ProbeResult::Answered,
    }
}

/// The row of a probe without an answer.
pub open spec fn unanswered_row(t1_ns: i64, result: ProbeResult) -> RawSample {
    RawSample {
        t1_ns,
        t2_ns: 0,
        t3_ns: 0,
        t4_ns: 0,
        offset_ns: None,
        rtt_ns: None,
        accepted: false,
        result,
    }
}

/// The measurement that rests on `samples`: the offset and round trip of the sample
/// with the shortest round trip or, where that is an outlier, the medians over the
/// three samples with the shortest round trips.
pub open spec fn measured(samples: Seq<Sample>, m: OffsetMeasurement) -> bool {
    let order = by_rtt(pairs(samples));
    let outlier = is_outlier(samples);
    &&& m.outlier_rejected == outlier
    &&& m.samples == samples.len()
    &&& m.min_rtt_ns == order[0].0
    &&& m.max_rtt_ns == order.last().0
    &&& m.offset_ns == (if outlier {
        sorted(seq![order[0].1, order[1].1, order[2].1])[1]
    } else {
        order[0].1
    })
    &&& m.rtt_ns == (if outlier {
        sorted(seq![order[0].0, order[1].0, order[2].0])[1]
    } else {
        order[0].0
    })
    &&& m.raw_samples@ == Seq::new(
        samples.len(),
        |i: int| answered_row(samples[i], !outlier && pair(samples[i]) == order[0]),
    )
}

fn order_by_rtt(samples: &[Sample]) -> (r: Vec<(i64, i64)>)
    requires
        all_in_range(samples@),
    ensures
        r@ == by_rtt(pairs(samples@)),
{
    let mut r: Vec<(i64, i64)> = Vec::new();
    let ghost p = pairs(samples@);
    for i in 0..samples.len()
        invariant
            all_in_range(samples@),
            p == pairs(samples@),
            r@ == by_rtt(p.take(i as int)),
    {
        let x: (i64, i64) = (samples[i].rtt_ns(), samples[i].offset_ns());
        proof {
            by_rtt_orders(p.take(i as int));
        }
        let mut k: usize = r.len();
        while k > 0 && r[k - 1].0 > x.0
            invariant
                k <= r.len(),
                rtt_ascending(r@),
                forall|j: int| k <= j < r.len() ==> (#[trigger] r@[j]).0 > x.0,
            decreases k,
        {
            k = k - 1;
        }
        proof {
            assert(x == p[i as int]);
            insert_by_rtt_at(r@, x, k as int);
            let t = p.take(i + 1);
            assert(t.drop_last() =~= p.take(i as int));
        }
        r.insert(k, x);
    }
    assert(p.take(p.len() as int) =~= p);
    r
}

/// Picks the measurement out of the answered probes; none where there are no
/// samples.
pub fn pick_best(samples: &[Sample]) -> (r: Option<OffsetMeasurement>)
    requires
        all_in_range(samples@),
    ensures
        match r {
            Some(m) => samples@.len() > 0 && measured(samples@, m),
            None => samples@.len() == 0,
        },
{
    let n: usize = samples.len();
    if n == 0 {
        return None;
    }
    let order = order_by_rtt(samples);
    proof {
        by_rtt_orders(pairs(samples@));
    }
    let mut xs: Vec<i64> = Vec::new();
    for i in 0..n
        invariant
            n == samples@.len(),
            all_in_range(samples@),
            xs@.len() == i,
            forall|j: int| 0 <= j < i ==> xs@[j] == samples@[j].offset(),
    {
        let x: i64 = samples[i].offset_ns();
        xs.push(x);
    }
    assert(xs@ =~= offsets(samples@));
    let (best_rtt, best_offset): (i64, i64) = order[0];
    let outlier: bool = if n < 3 {
        false
    } else {
        let middle = sort_numbers(&xs);
        proof {
            xs@.lemma_sort_by_ensures(le());
            sorted_len(xs@);
        }
        let twice_middle: i128 = if n % 2 == 1 {
            2 * (middle[n / 2] as i128)
        } else {
            middle[n / 2 - 1] as i128 + middle[n / 2] as i128
        };
        let spread_nat = spread_of(&xs);
        lies_far_off(2 * (best_offset as i128), twice_middle, n as u64, &spread_nat)
    };
    assert(outlier == is_outlier(samples@));
    let (offset_ns, rtt_ns): (i64, i64) = if outlier {
        let mut low_offsets: Vec<i64> = Vec::new();
        let mut low_rtts: Vec<i64> = Vec::new();
        low_offsets.push(order[0].1);
        low_offsets.push(order[1].1);
        low_offsets.push(order[2].1);
        low_rtts.push(order[0].0);
        low_rtts.push(order[1].0);
        low_rtts.push(order[2].0);
        proof {
            assert(low_offsets@ =~= seq![order@[0].1, order@[1].1, order@[2].1]);
            assert(low_rtts@ =~= seq![order@[0].0, order@[1].0, order@[2].0]);
            sorted_len(low_offsets@);
            sorted_len(low_rtts@);
        }
        let a = sort_numbers(&low_offsets);
        let b = sort_numbers(&low_rtts);
        (a[1], b[1])
    } else {
        (best_offset, best_rtt)
    };
    let mut raw_samples: Vec<RawSample> = Vec::new();
    for i in 0..n
        invariant
            n == samples@.len(),
            all_in_range(samples@),
            raw_samples@.len() == i,
            forall|j: int|
                0 <= j < i ==> raw_samples@[j] == answered_row(
                    samples@[j],
                    !outlier && pair(samples@[j]) == (best_rtt, best_offset),
                ),
    {
        let s: Sample = samples[i];
        let offset: i64 = s.offset_ns();
        let rtt: i64 = s.rtt_ns();
        raw_samples.push(
            RawSample {
                t1_ns: s.t1_ns,
                t2_ns: s.t2_ns,
                t3_ns: s.t3_ns,
                t4_ns: s.t4_ns,
                offset_ns: Some(offset),
                rtt_ns: Some(rtt),
                accepted: !outlier && rtt == best_rtt && offset == best_offset,
                result: ProbeResult::Answered,
            },
        );
    }
    let m = OffsetMeasurement {
        offset_ns,
        rtt_ns,
        samples: n,
        min_rtt_ns: order[0].0,
        max_rtt_ns: order[order.len() - 1].0,
        raw_samples,
        outlier_rejected: outlier,
    };
    assert(m.raw_samples@ =~= Seq::new(
        samples@.len(),
        |i: int| answered_row(samples@[i], !outlier && pair(samples@[i]) == order@[0]),
    ));
    Some(m)
}

proof fn sorted_len(xs: Seq<i64>)
    ensures
        sorted(xs).len() == xs.len(),
{
    broadcast use vstd::seq_lib::group_to_multiset_ensures;

    assert(vstd::relations::total_ordering(le()));
    xs.lemma_sort_by_ensures(le());
    assert(sorted(xs).to_multiset().len() == xs.to_multiset().len());
}

/// The shortest and the longest round trip of a measurement bound those of all its
/// samples.
pub proof fn round_trips_lie_between(samples: Seq<Sample>, m: OffsetMeasurement, i: int)
    requires
        all_in_range(samples),
        measured(samples, m),
        0 <= i < samples.len(),
    ensures
        m.min_rtt_ns <= samples[i].rtt() <= m.max_rtt_ns,
{
    broadcast use vstd::seq_lib::group_to_multiset_ensures;

    let p = pairs(samples);
    let q = by_rtt(p);
    by_rtt_orders(p);
    assert(p[i] == pair(samples[i]));
    assert(p.contains(p[i]));
    assert(q.to_multiset().count(p[i]) > 0);
    assert(q.contains(p[i]));
    let k = choose|k: int| 0 <= k < q.len() && q[k] == p[i];
    assert(q[0].0 <= q[k].0);
    assert(q[k].0 <= q[q.len() - 1].0);
}

/// What became of one probe that was sent at `t1_ns`.
#[derive(Debug, Clone, Copy, PartialEq, Eq)]
pub struct ProbeOutcome {
    pub t1_ns: i64,
    pub sample: Option<Sample>,
    pub result: ProbeResult,
}

/// The sample of an answered probe.
pub open spec fn answer(o: ProbeOutcome) -> Option<Sample> {
    if o.result == ProbeResult::Answered {
        o.sample
    } else {
        None
    }
}

/// The samples of the answered probes.
pub open spec fn answers(outcomes: Seq<ProbeOutcome>) -> Seq<Sample>
    decreases outcomes.len(),
{
    if outcomes.len() == 0 {
        Seq::empty()
    } else {
        match answer(outcomes.last()) {
            Some(s) => answers(outcomes.drop_last()).push(s),
            None => answers(outcomes.drop_last()),
        }
    }
}

/// The row of a probe before any is accepted.
pub open spec fn row(o: ProbeOutcome) -> RawSample {
    match answer(o) {
        Some(s) => answered_row(s, false),
        None => unanswered_row(o.t1_ns, o.result),
    }
}

/// One row for each probe.
pub open spec fn rows(outcomes: Seq<ProbeOutcome>) -> Seq<RawSample> {
    Seq::new(outcomes.len(), |i: int| row(outcomes[i]))
}

/// The row is an answered probe with this round trip and offset.
pub open spec fn matches_choice(a: RawSample, rtt_ns: i64, offset_ns: i64) -> bool {
    a.result == ProbeResult::Answered && a.rtt_ns == Some(rtt_ns) && a.offset_ns == Some(offset_ns)
}

/// The first row that matches.
pub open spec fn first_match(attempts: Seq<RawSample>, rtt_ns: i64, offset_ns: i64) -> Option<int>
    decreases attempts.len(),
{
    if attempts.len() == 0 {
        None
    } else {
        match first_match(attempts.drop_last(), rtt_ns, offset_ns) {
            Some(i) => Some(i),
            None => if matches_choice(attempts.last(), rtt_ns, offset_ns) {
                Some(attempts.len() - 1)
            } else {
                None
            },
        }
    }
}

/// The row, accepted.
pub open spec fn accepted_row(a: RawSample) -> RawSample {
    RawSample { accepted: true, ..a }
}

/// The rows with the first that matches the measurement accepted; unchanged where
/// the measurement rests on no single probe.
pub open spec fn with_choice_marked(attempts: Seq<RawSample>, chosen: OffsetMeasurement) -> Seq<RawSample> {
    if chosen.outlier_rejected {
        attempts
    } else {
        match first_match(attempts, chosen.rtt_ns, chosen.offset_ns) {
            Some(i) => attempts.update(i, accepted_row(attempts[i])),
            None => attempts,
        }
    }
}

proof fn first_match_facts(attempts: Seq<RawSample>, rtt_ns: i64, offset_ns: i64)
    ensures
        match first_match(attempts, rtt_ns, offset_ns) {
            Some(i) => 0 <= i < attempts.len() && matches_choice(attempts[i], rtt_ns, offset_ns) && (
            forall|j: int| 0 <= j < i ==> !matches_choice(#[trigger] attempts[j], rtt_ns, offset_ns)),
            None => forall|j: int|
                0 <= j < attempts.len() ==> !matches_choice(#[trigger] attempts[j], rtt_ns, offset_ns),
        },
    decreases attempts.len(),
{
    if attempts.len() > 0 {
        let t = attempts.drop_last();
        first_match_facts(t, rtt_ns, offset_ns);
        assert forall|j: int| 0 <= j < t.len() implies t[j] == #[trigger] attempts[j] by {}
    }
}

proof fn first_match_is(attempts: Seq<RawSample>, rtt_ns: i64, offset_ns: i64, i: int)
    requires
        0 <= i < attempts.len(),
        matches_choice(attempts[i], rtt_ns, offset_ns),
        forall|j: int| 0 <= j < i ==> !matches_choice(#[trigger] attempts[j], rtt_ns, offset_ns),
    ensures
        first_match(attempts, rtt_ns, offset_ns) == Some(i),
{
    first_match_facts(attempts, rtt_ns, offset_ns);
}

/// The row of a probe without an answer.
fn timeout_row(t1_ns: i64, result: ProbeResult) -> (r: RawSample)
    ensures
        r == unanswered_row(t1_ns, result),
{
    RawSample {
        t1_ns,
        t2_ns: 0,
        t3_ns: 0,
        t4_ns: 0,
        offset_ns: None,
        rtt_ns: None,
        accepted: false,
        result,
    }
}

fn is_choice(a: &RawSample, rtt_ns: i64, offset_ns: i64) -> (r: bool)
    ensures
        r == matches_choice(*a, rtt_ns, offset_ns),
{
    match (a.result, a.rtt_ns, a.offset_ns) {
        (ProbeResult::Answered, Some(rtt), Some(offset)) => rtt == rtt_ns && offset == offset_ns,
        _ => false,
    }
}

/// Marks the row that the measurement rests on.
pub fn mark_accepted(attempts: &mut Vec<RawSample>, chosen: &OffsetMeasurement)
    ensures
        final(attempts)@ == with_choice_marked(old(attempts)@, *chosen),
{
    if chosen.outlier_rejected {
        return;
    }
    let ghost before = attempts@;
    let n: usize = attempts.len();
    for i in 0..n
        invariant
            n == attempts.len(),
            attempts@ == before,
            before == old(attempts)@,
            forall|j: int|
                0 <= j < i ==> !matches_choice(
                    #[trigger] before[j],
                    chosen.rtt_ns,
                    chosen.offset_ns,
                ),
            !chosen.outlier_rejected,
    {
        if is_choice(&attempts[i], chosen.rtt_ns, chosen.offset_ns) {
            proof {
                first_match_is(before, chosen.rtt_ns, chosen.offset_ns, i as int);
            }
            let mut marked: RawSample = attempts[i];
            marked.accepted = true;
            attempts[i] = marked;
            return;
        }
    }
    proof {
        first_match_facts(before, chosen.rtt_ns, chosen.offset_ns);
    }
}

proof fn answers_have_rows(outcomes: Seq<ProbeOutcome>, k: int)
    requires
        0 <= k < answers(outcomes).len(),
    ensures
        exists|i: int|
            0 <= i < outcomes.len() && #[trigger] answer(outcomes[i]) == Some(answers(outcomes)[k]),
    decreases outcomes.len(),
{
    if outcomes.len() > 0 {
        let t = outcomes.drop_last();
        if k < answers(t).len() {
            answers_have_rows(t, k);
            let i = choose|i: int|
                0 <= i < t.len() && #[trigger] answer(t[i]) == Some(answers(t)[k]);
            assert(answer(outcomes[i]) == Some(answers(outcomes)[k]));
        } else {
            assert(answer(outcomes[outcomes.len() - 1]) == Some(answers(outcomes)[k]));
        }
    }
}

/// Where the measurement rests on one probe, the row of just that probe is accepted;
/// where it does not, no row is.
pub proof fn one_row_is_accepted(outcomes: Seq<ProbeOutcome>, m: OffsetMeasurement)
    requires
        all_in_range(answers(outcomes)),
        answers(outcomes).len() > 0,
        measured(answers(outcomes), m),
    ensures
        m.outlier_rejected ==> with_choice_marked(rows(outcomes), m) == rows(outcomes),
        !m.outlier_rejected ==> exists|i: int|
            {
                &&& 0 <= i < outcomes.len()
                &&& #[trigger] with_choice_marked(rows(outcomes), m)[i].accepted
                &&& with_choice_marked(rows(outcomes), m)[i].rtt_ns == Some(m.rtt_ns)
                &&& with_choice_marked(rows(outcomes), m)[i].offset_ns == Some(m.offset_ns)
                &&& forall|j: int|
                    0 <= j < outcomes.len() && j != i ==> !(#[trigger] with_choice_marked(
                        rows(outcomes),
                        m,
                    )[j].accepted)
            },
{
    if !m.outlier_rejected {
        let samples = answers(outcomes);
        by_rtt_head_is_a_sample(samples);
        let k = choose|k: int|
            0 <= k < samples.len() && #[trigger] pair(samples[k]) == by_rtt(pairs(samples))[0];
        answers_have_rows(outcomes, k);
        let p = choose|p: int| 0 <= p < outcomes.len() && #[trigger] answer(outcomes[p]) == Some(samples[k]);
        let a = rows(outcomes);
        assert(a[p] == answered_row(samples[k], false));
        assert(matches_choice(a[p], m.rtt_ns, m.offset_ns));
        first_match_facts(a, m.rtt_ns, m.offset_ns);
        let i = first_match(a, m.rtt_ns, m.offset_ns)->0;
        let b = with_choice_marked(a, m);
        assert(b[i].accepted);
        assert forall|j: int| 0 <= j < outcomes.len() && j != i implies !(#[trigger] b[j].accepted) by {
            assert(b[j] == a[j]);
        }
    }
}

/// Puts together what the probes of one peer gave: the measurement, and one row for
/// each probe.
pub fn measure_one(outcomes: &[ProbeOutcome]) -> (r: PeerMeasurement)
    requires
        all_in_range(answers(outcomes@)),
    ensures
        match r.measurement {
            Some(m) => {
                &&& answers(outcomes@).len() > 0
                &&& measured(answers(outcomes@), m)
                &&& r.attempts@ == with_choice_marked(rows(outcomes@), m)
            },
            None => answers(outcomes@).len() == 0 && r.attempts@ == rows(outcomes@),
        },
        r.attempts@.len() == outcomes@.len(),
{
    let mut samples: Vec<Sample> = Vec::new();
    let mut attempts: Vec<RawSample> = Vec::new();
    for i in 0..outcomes.len()
        invariant
            all_in_range(answers(outcomes@)),
            samples@ == answers(outcomes@.take(i as int)),
            attempts@ == rows(outcomes@.take(i as int)),
    {
        let o: ProbeOutcome = outcomes[i];
        let ghost before = outcomes@.take(i as int);
        let ghost next = outcomes@.take(i + 1);
        proof {
            assert(next.drop_last() =~= before);
            answers_prefix(outcomes@, i + 1);
        }
        match (o.sample, o.result) {
            (Some(s), ProbeResult::Answered) => {
                proof {
                    assert(answers(next) == answers(before).push(s));
                    let k = answers(before).len() as int;
                    assert(answers(next)[k] == s);
                    assert(answers(outcomes@)[k] == s);
                }
                attempts.push(
                    RawSample {
                        t1_ns: s.t1_ns,
                        t2_ns: s.t2_ns,
                        t3_ns: s.t3_ns,
                        t4_ns: s.t4_ns,
                        offset_ns: Some(s.offset_ns()),
                        rtt_ns: Some(s.rtt_ns()),
                        accepted: false,
                        result: ProbeResult::Answered,
                    },
                );
                samples.push(s);
            },
            (_, other) => {
                attempts.push(timeout_row(o.t1_ns, other));
            },
        }
        assert(attempts@ =~= rows(next));
    }
    assert(outcomes@.take(outcomes@.len() as int) =~= outcomes@);
    let measurement = pick_best(samples.as_slice());
    match &measurement {
        Some(m) => {
            proof {
                first_match_facts(rows(outcomes@), m.rtt_ns, m.offset_ns);
            }
            mark_accepted(&mut attempts, m);
        },
        None => {},
    }
    PeerMeasurement { measurement, attempts }
}

proof fn answers_prefix(outcomes: Seq<ProbeOutcome>, n: int)
    requires
        0 <= n <= outcomes.len(),
    ensures
        answers(outcomes.take(n)).len() <= answers(outcomes).len(),
        forall|k: int|
            0 <= k < answers(outcomes.take(n)).len() ==> answers(outcomes)[k] == #[trigger] answers(
                outcomes.take(n),
            )[k],
    decreases outcomes.len(),
{
    if n == outcomes.len() {
        assert(outcomes.take(n) =~= outcomes);
    } else {
        answers_prefix(outcomes.drop_last(), n);
        assert(outcomes.drop_last().take(n) =~= outcomes.take(n));
    }
}

// ---------------------------------------------------------------------
// Time stamps
// ---------------------------------------------------------------------

/// The time stamp `%Y-%m-%dT%H:%M:%S%.9fZ` of an instant in universal time.
pub uninterp spec fn stamp_text(nanos: int) -> Seq<char>;

/// The instant that a text names by RFC 3339, in nanoseconds since 1970; none where
/// it names none, or one that does not fit in 64 bits.
pub uninterp spec fn stamp_nanos(text: Seq<char>) -> Option<i64>;

/// The time stamp of the instant `nanos` after the start of 1970. It is made by
/// `chrono::DateTime::from_timestamp_nanos`, which takes every 64-bit number, and by
/// its `format`; such a stamp has a year of four digits and nine decimals, so
/// `chrono::DateTime::parse_from_rfc3339` reads it back as the instant `nanos`.
#[verifier::external_body]
fn render_stamp(nanos: i64) -> (r: String)
    ensures
        r@ == stamp_text(nanos as int),
        stamp_nanos(r@) == Some(nanos),
{
    chrono::DateTime::from_timestamp_nanos(nanos).format("%Y-%m-%dT%H:%M:%S%.9fZ").to_string()
}

/// The time stamp of the instant `nanos` after the start of 1970, which reads back as
/// that instant.
pub fn format_ts(nanos: i64) -> (r: String)
    ensures
        r@ == stamp_text(nanos as int),
        stamp_nanos(r@) == Some(nanos),
{
    render_stamp(nanos)
}

/// The text is the time stamp of some instant and, where that instant fits in 64 bits,
/// reads back as it.
pub open spec fn is_stamp(text: Seq<char>) -> bool {
    exists|nanos: int|
        text == #[trigger] stamp_text(nanos) && (i64::MIN <= nanos <= i64::MAX ==> stamp_nanos(text)
            == Some(nanos as i64))
}

/// The time stamp of the clock, which `chrono::Utc::now` reads and `format` renders as
/// `format_ts` does: it is that of some instant, and reads back as that instant where it
/// fits in 64 bits. Which instant it is depends on when it is called.
#[verifier::external_body]
pub(crate) fn stamp_now() -> (r: String)
    ensures
        is_stamp(r@),
{
    chrono::Utc::now().format("%Y-%m-%dT%H:%M:%S%.9fZ").to_string()
}

/// The nanoseconds since the start of 1970 by the clock, which `chrono::Utc::now` reads;
/// none where they do not fit in 64 bits. What it says depends on when it is called.
#[verifier::external_body]
fn nanos_now() -> (r: Option<i64>) {
    chrono::Utc::now().timestamp_nanos_opt()
}

/// Reads a time stamp by `chrono::DateTime::parse_from_rfc3339` and takes its
/// nanoseconds by `timestamp_nanos_opt`.
#[verifier::external_body]
fn read_rfc3339(s: &str) -> (r: Option<i64>)
    ensures
        r == stamp_nanos(s@),
{
    match chrono::DateTime::parse_from_rfc3339(s) {
        Ok(t) => t.timestamp_nanos_opt(),
        Err(_) => None,
    }
}

/// The instant that a time stamp names, in nanoseconds since 1970.
pub fn parse_ns(s: &str) -> (r: Option<i64>)
    ensures
        r == stamp_nanos(s@),
{
    read_rfc3339(s)
}

// ---------------------------------------------------------------------
// Waiting for an answer
// ---------------------------------------------------------------------

/// A probe of another runner that is to be answered.
#[derive(Debug, Clone, PartialEq, Eq)]
pub struct ProbeReply {
    /// Who asked.
    pub to: String,
    pub id: u64,
    /// The `t1` to echo.
    pub t1: String,
}

/// `reply` answers `msg`, a probe that is addressed to `self_name`.
pub open spec fn answers_probe(self_name: Seq<char>, msg: Message, reply: ProbeReply) -> bool {
    match msg {
        Message::ProbeRequest { from, to, id, t1 } => to@ == self_name && reply.to@ == from@ && reply.id
            == id && reply.t1@ == t1@,
        _ => false,
    }
}

/// The message is a probe that is addressed to `self_name`.
pub open spec fn is_probe_for(self_name: Seq<char>, msg: Message) -> bool {
    match msg {
        Message::ProbeRequest { from, to, id, t1 } => to@ == self_name,
        _ => false,
    }
}

/// Whatever a runner waits for, it answers each probe that is addressed to it.
pub fn probe_reply(self_name: &str, msg: &Message) -> (r: Option<ProbeReply>)
    ensures
        match r {
            Some(reply) => answers_probe(self_name@, *msg, reply),
            None => !is_probe_for(self_name@, *msg),
        },
{
    match msg {
        Message::ProbeRequest { from, to, id, t1 } => if same(to.as_str(), self_name) {
            Some(ProbeReply { to: from.clone(), id: *id, t1: t1.clone() })
        } else {
            None
        },
        _ => None,
    }
}

/// The answer to a probe that arrived at `t2` and is answered at `t3`.
pub fn probe_response(self_name: &str, reply: &ProbeReply, t2: String, t3: String) -> (r: Message)
    ensures
        match r {
            Message::ProbeResponse { from, to, id, t1, t2: x2, t3: x3 } => {
                &&& from@ == self_name@
                &&& to@ == reply.to@
                &&& id == reply.id
                &&& t1@ == reply.t1@
                &&& x2@ == t2@
                &&& x3@ == t3@
            },
            _ => false,
        },
{
    Message::ProbeResponse {
        from: self_name.to_owned(),
        to: reply.to.clone(),
        id: reply.id,
        t1: reply.t1.clone(),
        t2,
        t3,
    }
}

/// The message answers the probe of `reply`, at whatever times.
pub open spec fn responds_to(self_name: Seq<char>, reply: ProbeReply, msg: Message) -> bool {
    match msg {
        Message::ProbeResponse { from, to, id, t1, t2, t3 } => from@ == self_name && to@ == reply.to@ && id
            == reply.id && t1@ == reply.t1@,
        _ => false,
    }
}

/// The answer to a probe as of now. Both its time stamps are those of the clock at the
/// call; which instants they show depends on the clock.
pub fn respond_to_probe(self_name: &str, reply: &ProbeReply) -> (r: Message)
    ensures
        responds_to(self_name@, *reply, r),
        is_stamp(r->ProbeResponse_t2@),
        is_stamp(r->ProbeResponse_t3@),
{
    let t2 = stamp_now();
    let t3 = stamp_now();
    probe_response(self_name, reply, t2, t3)
}

/// The probe that a runner sends to `peer` at `t1`.
pub fn probe_request(self_name: &str, peer: &str, id: u64, t1: String) -> (r: Message)
    ensures
        match r {
            Message::ProbeRequest { from, to, id: i, t1: x1 } => from@ == self_name@ && to@ == peer@ && i
                == id && x1@ == t1@,
            _ => false,
        },
{
    Message::ProbeRequest { from: self_name.to_owned(), to: peer.to_owned(), id, t1 }
}

/// A sample comes only of an answer from the right peer, to this runner, with the probe's
/// number and its `t1`, and holds the probe's own `t1`.
pub proof fn only_matching_answers_give_samples(
    before: ProbeWait,
    after: ProbeWait,
    from: Seq<char>,
    to: Seq<char>,
    id: u64,
    t1: Seq<char>,
    t2_ns: Option<i64>,
    t3_ns: Option<i64>,
    t4_ns: Option<i64>,
    sample: Sample,
    result: ProbeResult,
)
    requires
        response_step(
            before,
            after,
            from,
            to,
            id,
            t1,
            t2_ns,
            t3_ns,
            t4_ns,
            (WaitStep::Finished { sample: Some(sample), result }),
        ),
    ensures
        before.is_for_us(from, to, id),
        t1 == before.t1@,
        result == ProbeResult::Answered,
        sample.t1_ns == before.t1_ns,
        t2_ns == Some(sample.t2_ns) && t3_ns == Some(sample.t3_ns) && t4_ns == Some(sample.t4_ns),
{
}

/// The probe whose answer is awaited.
#[derive(Debug, Clone, PartialEq, Eq)]
pub struct ProbeWait {
    pub self_name: String,
    pub peer: String,
    pub id: u64,
    /// The `t1` that was sent.
    pub t1: String,
    pub t1_ns: i64,
    /// What the probe comes to if no matching answer follows.
    pub reason: ProbeResult,
}

/// What to do after something came in.
#[derive(Debug, Clone, PartialEq, Eq)]
pub enum WaitStep {
    /// Go on waiting.
    Wait,
    /// Answer another runner's probe and go on waiting.
    Reply(ProbeReply),
    /// The wait is over.
    Finished { sample: Option<Sample>, result: ProbeResult },
}

/// Something unreadable counts only where nothing else was wrong.
pub open spec fn unreadable(reason: ProbeResult) -> ProbeResult {
    if reason == ProbeResult::Timeout {
        ProbeResult::ParseError
    } else {
        reason
    }
}

/// What an answer does to a wait: an answer to another probe and one that echoes
/// another `t1` are turned away, and become the reason; an answer whose times cannot
/// be read is passed over; any other ends the wait with its sample.
pub open spec fn response_step(
    before: ProbeWait,
    after: ProbeWait,
    from: Seq<char>,
    to: Seq<char>,
    id: u64,
    t1: Seq<char>,
    t2_ns: Option<i64>,
    t3_ns: Option<i64>,
    t4_ns: Option<i64>,
    r: WaitStep,
) -> bool {
    &&& after.same_probe(&before)
    &&& if !before.is_for_us(from, to, id) {
        r == WaitStep::Wait && after.reason == ProbeResult::RejectedFilter
    } else if t1 != before.t1@ {
        r == WaitStep::Wait && after.reason == ProbeResult::RejectedT1
    } else {
        match t4_ns {
            None => r == (WaitStep::Finished { sample: None, result: before.reason }) && after.reason
                == before.reason,
            Some(t4) => match (t2_ns, t3_ns) {
                (Some(t2), Some(t3)) => r == (WaitStep::Finished {
                    sample: Some(Sample { t1_ns: before.t1_ns, t2_ns: t2, t3_ns: t3, t4_ns: t4 }),
                    result: ProbeResult::Answered,
                }) && after.reason == before.reason,
                _ => r == WaitStep::Wait && after.reason == unreadable(before.reason),
            },
        }
    }
}

impl ProbeWait {
    /// The answer is one to this probe: from the peer, to this runner, with the
    /// probe's number.
    pub open spec fn is_for_us(&self, from: Seq<char>, to: Seq<char>, id: u64) -> bool {
        to == self.self_name@ && from == self.peer@ && id == self.id
    }

    /// Only the reason differs.
    pub open spec fn same_probe(&self, other: &ProbeWait) -> bool {
        &&& self.self_name@ == other.self_name@
        &&& self.peer@ == other.peer@
        &&& self.id == other.id
        &&& self.t1@ == other.t1@
        &&& self.t1_ns == other.t1_ns
    }

    /// Waits for the answer to a probe.
    pub fn new(self_name: &str, peer: &str, id: u64, t1: &str, t1_ns: i64) -> (r: Self)
        ensures
            r.self_name@ == self_name@,
            r.peer@ == peer@,
            r.id == id,
            r.t1@ == t1@,
            r.t1_ns == t1_ns,
            r.reason == ProbeResult::Timeout,
    {
        ProbeWait {
            self_name: self_name.to_owned(),
            peer: peer.to_owned(),
            id,
            t1: t1.to_owned(),
            t1_ns,
            reason: ProbeResult::Timeout,
        }
    }

    /// An answer came in at `t4_ns` (none where the clock is out of range). Its `t2`
    /// and `t3` are given as the instants that they name, if any. The wait is over
    /// where the answer is to this probe, echoes its `t1` and names both instants.
    pub fn on_response(
        &mut self,
        from: &str,
        to: &str,
        id: u64,
        t1: &str,
        t2_ns: Option<i64>,
        t3_ns: Option<i64>,
        t4_ns: Option<i64>,
    ) -> (r: WaitStep)
        ensures
            response_step(*old(self), *final(self), from@, to@, id, t1@, t2_ns, t3_ns, t4_ns, r),
    {
        if !same(to, self.self_name.as_str()) || !same(from, self.peer.as_str()) || id != self.id {
            self.reason = ProbeResult::RejectedFilter;
            return WaitStep::Wait;
        }
        if !same(t1, self.t1.as_str()) {
            self.reason = ProbeResult::RejectedT1;
            return WaitStep::Wait;
        }
        match t4_ns {
            None => WaitStep::Finished { sample: None, result: self.reason },
            Some(t4) => match (t2_ns, t3_ns) {
                (Some(t2), Some(t3)) => WaitStep::Finished {
                    sample: Some(Sample { t1_ns: self.t1_ns, t2_ns: t2, t3_ns: t3, t4_ns: t4 }),
                    result: ProbeResult::Answered,
                },
                _ => {
                    self.on_unreadable();
                    WaitStep::Wait
                },
            },
        }
    }

    /// Something came in that is no message.
    pub fn on_unreadable(&mut self)
        ensures
            final(self).same_probe(old(self)),
            final(self).reason == unreadable(old(self).reason),
    {
        match self.reason {
            ProbeResult::Timeout => {
                self.reason = ProbeResult::ParseError;
            },
            _ => {},
        }
    }

    /// A message came in at `t4_ns`, or something that is none. Probes to this runner
    /// are answered, answers go to `on_response`, other messages are passed over.
    pub fn wait_for_response(&mut self, msg: Option<&Message>, t4_ns: Option<i64>) -> (r: WaitStep)
        ensures
            final(self).same_probe(old(self)),
            match msg {
                None => r == WaitStep::Wait && final(self).reason == unreadable(old(self).reason),
                Some(m) => match *m {
                    Message::ProbeResponse { from, to, id, t1, t2, t3 } => response_step(
                        *old(self),
                        *final(self),
                        from@,
                        to@,
                        id,
                        t1@,
                        stamp_nanos(t2@),
                        stamp_nanos(t3@),
                        t4_ns,
                        r,
                    ),
                    _ => {
                        &&& final(self).reason == old(self).reason
                        &&& match r {
                            WaitStep::Reply(reply) => answers_probe(old(self).self_name@, *m, reply),
                            WaitStep::Wait => !is_probe_for(old(self).self_name@, *m),
                            WaitStep::Finished { .. } => false,
                        }
                    },
                },
            },
    {
        match msg {
            None => {
                self.on_unreadable();
                WaitStep::Wait
            },
            Some(m) => match m {
                Message::ProbeResponse { from, to, id, t1, t2, t3 } => {
                    let t2_ns = parse_ns(t2.as_str());
                    let t3_ns = parse_ns(t3.as_str());
                    self.on_response(
                        from.as_str(),
                        to.as_str(),
                        *id,
                        t1.as_str(),
                        t2_ns,
                        t3_ns,
                        t4_ns,
                    )
                },
                _ => match probe_reply(self.self_name.as_str(), m) {
                    Some(reply) => WaitStep::Reply(reply),
                    None => WaitStep::Wait,
                },
            },
        }
    }

    /// The deadline has passed without a matching answer.
    pub fn give_up(&self) -> (r: ProbeOutcome)
        ensures
            r == (ProbeOutcome { t1_ns: self.t1_ns, sample: None, result: self.reason }),
    {
        ProbeOutcome { t1_ns: self.t1_ns, sample: None, result: self.reason }
    }
}

// ---------------------------------------------------------------------
// The engine
// ---------------------------------------------------------------------

/// Sends probes and numbers them.
#[derive(Debug, Clone, PartialEq, Eq)]
pub struct ClockSyncEngine {
    self_name: String,
    next_id: u64,
}

/// A probe that is to be sent.
#[derive(Debug, Clone, PartialEq, Eq)]
pub struct OutgoingProbe {
    /// The message to send.
    pub request: Message,
    /// The wait for its answer.
    pub wait: ProbeWait,
}

/// What a measurement of one peer says.
pub open spec fn measurement_of(outcomes: Seq<ProbeOutcome>, p: PeerMeasurement) -> bool {
    match p.measurement {
        Some(m) => {
            &&& answers(outcomes).len() > 0
            &&& measured(answers(outcomes), m)
            &&& p.attempts@ == with_choice_marked(rows(outcomes), m)
        },
        None => answers(outcomes).len() == 0 && p.attempts@ == rows(outcomes),
    }
}

impl ClockSyncEngine {
    /// The runner's name.
    pub closed spec fn name(&self) -> Seq<char> {
        self.self_name@
    }

    /// The number of the next probe.
    pub closed spec fn next(&self) -> u64 {
        self.next_id
    }

    /// An engine that has sent nothing; it numbers its probes from 1.
    pub fn new(self_name: String) -> (r: Self)
        ensures
            r.name() == self_name@,
            r.next() == 1,
    {
        ClockSyncEngine { self_name, next_id: 1 }
    }

    /// The probe that leaves for `peer` at `t1_ns`. The probe carries the time stamp of
    /// that instant, and its answer is awaited with just that stamp and number.
    pub fn probe_at(&mut self, peer: &str, t1_ns: i64) -> (r: OutgoingProbe)
        ensures
            final(self).name() == old(self).name(),
            final(self).next() == (old(self).next() + 1) as int % 0x1_0000_0000_0000_0000,
            r.wait.self_name@ == old(self).name(),
            r.wait.peer@ == peer@,
            r.wait.id == old(self).next(),
            r.wait.t1@ == stamp_text(t1_ns as int),
            r.wait.t1_ns == t1_ns,
            r.wait.reason == ProbeResult::Timeout,
            stamp_nanos(r.wait.t1@) == Some(t1_ns),
            match r.request {
                Message::ProbeRequest { from, to, id, t1 } => from@ == old(self).name() && to@ == peer@ && id
                    == old(self).next() && t1@ == stamp_text(t1_ns as int),
                _ => false,
            },
    {
        let id: u64 = self.next_id;
        self.next_id = if id == u64::MAX {
            0
        } else {
            id + 1
        };
        let t1 = format_ts(t1_ns);
        let wait = ProbeWait::new(self.self_name.as_str(), peer, id, t1.as_str(), t1_ns);
        let request = probe_request(self.self_name.as_str(), peer, id, t1);
        OutgoingProbe { request, wait }
    }

    /// The probe that leaves for `peer` now; none where the clock is out of range.
    pub fn send_probe_request(&mut self, peer: &str) -> (r: Option<OutgoingProbe>)
        ensures
            final(self).name() == old(self).name(),
            final(self).next() == (old(self).next() + 1) as int % 0x1_0000_0000_0000_0000,
            match r {
                Some(p) => {
                    &&& p.wait.self_name@ == old(self).name()
                    &&& p.wait.peer@ == peer@
                    &&& p.wait.id == old(self).next()
                    &&& p.wait.reason == ProbeResult::Timeout
                    &&& p.wait.t1@ == stamp_text(p.wait.t1_ns as int)
                    &&& stamp_nanos(p.wait.t1@) == Some(p.wait.t1_ns)
                    &&& match p.request {
                        Message::ProbeRequest { from, to, id, t1 } => from@ == old(self).name() && to@
                            == peer@ && id == old(self).next() && t1@ == p.wait.t1@,
                        _ => false,
                    }
                },
                None => true,
            },
    {
        match nanos_now() {
            Some(t1_ns) => Some(self.probe_at(peer, t1_ns)),
            None => {
                self.next_id = if self.next_id == u64::MAX {
                    0
                } else {
                    self.next_id + 1
                };
                None
            },
        }
    }

    /// Puts together what the probes of all peers gave, by peer. The runner itself is
    /// left out, and of a peer that is listed twice the last entry counts.
    pub fn measure_offsets(
        &self,
        peers: &[String],
        outcomes: &[Vec<ProbeOutcome>],
    ) -> (r: NameMap<PeerMeasurement>)
        requires
            peers@.len() == outcomes@.len(),
            forall|i: int| 0 <= i < outcomes@.len() ==> all_in_range(answers((#[trigger] outcomes@[i])@)),
        ensures
            r@.dom() == name_set(peers@).remove(self.name()),
            forall|i: int|
                0 <= i < peers@.len() && (#[trigger] peers@[i])@ != self.name() && (forall|j: int|
                    i < j < peers@.len() ==> (#[trigger] peers@[j])@ != peers@[i]@) ==> measurement_of(
                    outcomes@[i]@,
                    r@[peers@[i]@],
                ),
    {
        let ghost t = texts(peers@);
        let mut out: NameMap<PeerMeasurement> = NameMap::new();
        assert(out@.dom() =~= t.take(0).to_set().remove(self.name())) by {
            assert(t.take(0) =~= Seq::empty());
        }
        for i in 0..peers.len()
            invariant
                t == texts(peers@),
                peers@.len() == outcomes@.len(),
                forall|k: int|
                    0 <= k < outcomes@.len() ==> all_in_range(answers((#[trigger] outcomes@[k])@)),
                out@.dom() == t.take(i as int).to_set().remove(self.name()),
                forall|k: int|
                    0 <= k < i && (#[trigger] peers@[k])@ != self.name() && (forall|j: int|
                        k < j < i ==> (#[trigger] peers@[j])@ != peers@[k]@) ==> measurement_of(
                        outcomes@[k]@,
                        out@[peers@[k]@],
                    ),
        {
            let peer = peers[i].as_str();
            let ghost before = out@;
            proof {
                assert(t[i as int] == peer@);
                assert(t.take(i + 1) =~= t.take(i as int).push(t[i as int]));
                to_set_push(t.take(i as int), t[i as int]);
            }
            if !same(peer, self.self_name.as_str()) {
                assert(all_in_range(answers(outcomes@[i as int]@)));
                let m = measure_one(outcomes[i].as_slice());
                out.insert(peers[i].clone(), m);
            }
            proof {
                assert(out@.dom() =~= t.take(i + 1).to_set().remove(self.name()));
                assert forall|k: int|
                    0 <= k < i + 1 && (#[trigger] peers@[k])@ != self.name() && (forall|j: int|
                        k < j < i + 1 ==> (#[trigger] peers@[j])@ != peers@[k]@) implies measurement_of(
                    outcomes@[k]@,
                    out@[peers@[k]@],
                ) by {
                    if k < i {
                        assert(peers@[i as int]@ != peers@[k]@);
                    }
                }
            }
        }
        assert(t.take(t.len() as int) =~= t);
        out
    }
}

impl ProbeWait {
    /// Something came in now: as `wait_for_response`, with the clock read at the call.
    pub fn receive(&mut self, msg: Option<&Message>) -> (r: WaitStep)
        ensures
            final(self).same_probe(old(self)),
            match msg {
                None => r == WaitStep::Wait && final(self).reason == unreadable(old(self).reason),
                Some(m) => match *m {
                    Message::ProbeResponse { from, to, id, t1, t2, t3 } => exists|t4_ns: Option<i64>|
                        response_step(
                            *old(self),
                            *final(self),
                            from@,
                            to@,
                            id,
                            t1@,
                            stamp_nanos(t2@),
                            stamp_nanos(t3@),
                            t4_ns,
                            r,
                        ),
                    _ => {
                        &&& final(self).reason == old(self).reason
                        &&& match r {
                            WaitStep::Reply(reply) => answers_probe(old(self).self_name@, *m, reply),
                            WaitStep::Wait => !is_probe_for(old(self).self_name@, *m),
                            WaitStep::Finished { .. } => false,
                        }
                    },
                },
            },
    {
        let t4_ns = nanos_now();
        self.wait_for_response(msg, t4_ns)
    }
}

// ---------------------------------------------------------------------
// Laws of the measurement
// ---------------------------------------------------------------------

/// The offset is half of what the way there shows more than the way back, rounded toward
/// zero, and the round trip is what both ways show together.
pub proof fn offset_halves_the_difference_of_both_ways(s: Sample)
    ensures
        ({
            let there = s.t2_ns - s.t1_ns;
            let back = s.t4_ns - s.t3_ns;
            &&& s.rtt() == there + back
            &&& there >= back ==> 0 <= (there - back) - 2 * s.offset() <= 1
            &&& there <= back ==> -1 <= (there - back) - 2 * s.offset() <= 0
        }),
{
}

/// The peer that measures in turn sees the opposite offset and the same round trip: with
/// the two clocks exchanged, so are the two ways.
pub proof fn exchanged_clocks_give_the_opposite_offset(s: Sample, t: Sample)
    requires
        s.t2_ns - s.t1_ns == t.t4_ns - t.t3_ns,
        s.t4_ns - s.t3_ns == t.t2_ns - t.t1_ns,
    ensures
        t.offset() == -s.offset(),
        t.rtt() == s.rtt(),
{
}

/// Where each pair of the order by round trip stood before.
proof fn places_before(p: Seq<(i64, i64)>) -> (f: Seq<int>)
    ensures
        f.len() == p.len(),
        f.no_duplicates(),
        by_rtt(p).len() == p.len(),
        forall|k: int|
            0 <= k < f.len() ==> 0 <= #[trigger] f[k] < p.len() && by_rtt(p)[k] == p[f[k]],
    decreases p.len(),
{
    if p.len() == 0 {
        Seq::empty()
    } else {
        let t = p.drop_last();
        let x = p.last();
        let n = p.len() - 1;
        let g = places_before(t);
        by_rtt_orders(t);
        let s = by_rtt(t);
        let k = place_by_rtt(s, x);
        insert_by_rtt_at(s, x, k);
        let f = g.insert(k, n);
        assert(by_rtt(p) == s.insert(k, x));
        assert forall|j: int| 0 <= j < f.len() implies 0 <= #[trigger] f[j] < p.len() && by_rtt(p)[j]
            == p[f[j]] by {
            if j < k {
                assert(f[j] == g[j]);
                assert(s[j] == t[g[j]]);
            } else if j > k {
                assert(f[j] == g[j - 1]);
                assert(s[j - 1] == t[g[j - 1]]);
            }
        }
        assert forall|i: int, j: int| 0 <= i < f.len() && 0 <= j < f.len() && i != j implies f[i] != f[j] by {
            if i != k {
                assert(f[i] == g[if i < k { i } else { i - 1 }]);
            }
            if j != k {
                assert(f[j] == g[if j < k { j } else { j - 1 }]);
            }
        }
        f
    }
}

proof fn place_by_rtt(s: Seq<(i64, i64)>, x: (i64, i64)) -> (k: int)
    requires
        rtt_ascending(s),
    ensures
        0 <= k <= s.len(),
        forall|j: int| k <= j < s.len() ==> (#[trigger] s[j]).0 > x.0,
        k == 0 || s[k - 1].0 <= x.0,
    decreases s.len(),
{
    if s.len() == 0 || s.last().0 <= x.0 {
        s.len() as int
    } else {
        let k = place_by_rtt(s.drop_last(), x);
        assert forall|j: int| k <= j < s.len() implies (#[trigger] s[j]).0 > x.0 by {
            if j < s.len() - 1 {
                assert(s.drop_last()[j] == s[j]);
            }
        }
        k
    }
}

/// These are three samples of which none has a longer round trip than any other sample.
pub open spec fn three_shortest(samples: Seq<Sample>, a: int, b: int, c: int) -> bool {
    &&& 0 <= a < samples.len() && 0 <= b < samples.len() && 0 <= c < samples.len()
    &&& a != b && b != c && a != c
    &&& forall|j: int|
        0 <= j < samples.len() && j != a && j != b && j != c ==> {
            &&& samples[a].rtt() <= (#[trigger] samples[j]).rtt()
            &&& samples[b].rtt() <= samples[j].rtt()
            &&& samples[c].rtt() <= samples[j].rtt()
        }
}

/// `x` is the middle one of three numbers: one of them, with one of the others on each
/// side of it.
pub open spec fn is_middle(x: int, u: int, v: int, w: int) -> bool {
    ||| x == u && (v <= x <= w || w <= x <= v)
    ||| x == v && (u <= x <= w || w <= x <= u)
    ||| x == w && (u <= x <= v || v <= x <= u)
}

proof fn middle_of_three(u: i64, v: i64, w: i64)
    ensures
        is_middle(sorted(seq![u, v, w])[1] as int, u as int, v as int, w as int),
{
    broadcast use vstd::seq_lib::group_to_multiset_ensures;

    let xs = seq![u, v, w];
    let (a, b, c) = if u <= v {
        if v <= w {
            (u, v, w)
        } else if u <= w {
            (u, w, v)
        } else {
            (w, u, v)
        }
    } else {
        if u <= w {
            (v, u, w)
        } else if v <= w {
            (v, w, u)
        } else {
            (w, v, u)
        }
    };
    let s = seq![a, b, c];
    let e = Seq::<i64>::empty();
    assert(xs =~= e.push(u).push(v).push(w));
    assert(s =~= e.push(a).push(b).push(c));
    assert(s.to_multiset() =~= xs.to_multiset());
    ascending_is_sorted(xs, s);
}

/// An ascending arrangement of the numbers is the sorted one.
proof fn ascending_is_sorted(xs: Seq<i64>, s: Seq<i64>)
    requires
        s.to_multiset() == xs.to_multiset(),
        forall|i: int, j: int| 0 <= i < j < s.len() ==> #[trigger] s[i] <= #[trigger] s[j],
    ensures
        sorted(xs) == s,
{
    broadcast use vstd::seq_lib::group_to_multiset_ensures;

    assert(vstd::relations::total_ordering(le()));
    xs.lemma_sort_by_ensures(le());
    assert(vstd::relations::sorted_by(s, le()));
    vstd::seq_lib::lemma_sorted_unique(s, sorted(xs), le());
}

/// Where the best sample is turned away as an outlier, the offset that is reported is the
/// middle one of the offsets of the three samples with the shortest round trips, and the
/// round trip is the middle one of theirs. So where two of the three offsets are equal, it
/// is that one.
pub proof fn rejected_best_gives_way_to_the_middle_of_three(samples: Seq<Sample>, m: OffsetMeasurement)
    requires
        all_in_range(samples),
        samples.len() > 0,
        measured(samples, m),
        m.outlier_rejected,
    ensures
        samples.len() >= 3,
        exists|a: int, b: int, c: int|
            {
                &&& #[trigger] three_shortest(samples, a, b, c)
                &&& is_middle(
                    m.offset_ns as int,
                    samples[a].offset(),
                    samples[b].offset(),
                    samples[c].offset(),
                )
                &&& is_middle(m.rtt_ns as int, samples[a].rtt(), samples[b].rtt(), samples[c].rtt())
            },
{
    let p = pairs(samples);
    let q = by_rtt(p);
    let f = places_before(p);
    by_rtt_orders(p);
    let (a, b, c) = (f[0], f[1], f[2]);
    assert(q[0] == p[a] && q[1] == p[b] && q[2] == p[c]);
    assert(p[a] == pair(samples[a]) && p[b] == pair(samples[b]) && p[c] == pair(samples[c]));
    assert(samples[a].in_range() && samples[b].in_range() && samples[c].in_range());
    middle_of_three(q[0].1, q[1].1, q[2].1);
    middle_of_three(q[0].0, q[1].0, q[2].0);
    assert forall|j: int| 0 <= j < samples.len() && j != a && j != b && j != c implies {
        &&& samples[a].rtt() <= (#[trigger] samples[j]).rtt()
        &&& samples[b].rtt() <= samples[j].rtt()
        &&& samples[c].rtt() <= samples[j].rtt()
    } by {
        let k = place_of_index(f, j);
        assert(q[k] == p[f[k]] && p[j] == pair(samples[j]));
        assert(samples[j].in_range());
        assert(k >= 3);
        assert(q[0].0 <= q[k].0 && q[1].0 <= q[k].0 && q[2].0 <= q[k].0);
    }
    assert(three_shortest(samples, a, b, c));
}

/// A list of as many different places as there are holds each of them.
proof fn place_of_index(f: Seq<int>, j: int) -> (k: int)
    requires
        f.no_duplicates(),
        forall|k: int| 0 <= k < f.len() ==> 0 <= #[trigger] f[k] < f.len(),
        0 <= j < f.len(),
    ensures
        0 <= k < f.len(),
        f[k] == j,
{
    let n = f.len() as int;
    let all = Set::new(|x: int| 0 <= x < n);
    let held = f.to_set();
    vstd::set_lib::lemma_int_range(0, n);
    assert(all =~= vstd::set_lib::set_int_range(0, n));
    f.unique_seq_to_set();
    assert(held.subset_of(all)) by {
        assert forall|x: int| held.contains(x) implies all.contains(x) by {
            let k = choose|k: int| 0 <= k < f.len() && f[k] == x;
            assert(0 <= f[k] < f.len());
        }
    }
    vstd::set_lib::lemma_subset_equality(held, all);
    assert(held.contains(j));
    choose|k: int| 0 <= k < f.len() && f[k] == j
}

/// Where the best sample stands, the measurement is its offset and its round trip: that of
/// the sample with the shortest round trip, and of several such the one that came first.
pub proof fn standing_best_is_reported(samples: Seq<Sample>, m: OffsetMeasurement)
    requires
        all_in_range(samples),
        samples.len() > 0,
        measured(samples, m),
        !m.outlier_rejected,
    ensures
        exists|i: int|
            {
                &&& 0 <= i < samples.len()
                &&& m.offset_ns == (#[trigger] samples[i]).offset()
                &&& m.rtt_ns == samples[i].rtt()
                &&& forall|j: int|
                    0 <= j < samples.len() ==> samples[i].rtt() <= (#[trigger] samples[j]).rtt()
                &&& forall|j: int| 0 <= j < i ==> samples[i].rtt() < (#[trigger] samples[j]).rtt()
            },
{
    let i = first_shortest(samples);
    assert(m.offset_ns == samples[i].offset());
}

proof fn first_shortest(samples: Seq<Sample>) -> (i: int)
    requires
        all_in_range(samples),
        samples.len() > 0,
    ensures
        0 <= i < samples.len(),
        by_rtt(pairs(samples))[0] == pair(samples[i]),
        pair(samples[i]).0 == samples[i].rtt(),
        pair(samples[i]).1 == samples[i].offset(),
        forall|j: int| 0 <= j < samples.len() ==> samples[i].rtt() <= (#[trigger] samples[j]).rtt(),
        forall|j: int| 0 <= j < i ==> samples[i].rtt() < (#[trigger] samples[j]).rtt(),
{
    let p = pairs(samples);
    best_is_the_first_of_the_shortest(p);
    let i = choose|i: int|
        0 <= i < p.len() && #[trigger] p[i] == by_rtt(p)[0] && (forall|j: int|
            0 <= j < p.len() ==> p[i].0 <= (#[trigger] p[j]).0) && (forall|j: int|
            0 <= j < i ==> p[i].0 < (#[trigger] p[j]).0);
    assert(samples[i].in_range());
    assert forall|j: int| 0 <= j < samples.len() implies samples[i].rtt() <= (#[trigger] samples[j]).rtt() by {
        assert(samples[j].in_range());
        assert(p[j] == pair(samples[j]));
    }
    assert forall|j: int| 0 <= j < i implies samples[i].rtt() < (#[trigger] samples[j]).rtt() by {
        assert(samples[j].in_range());
        assert(p[j] == pair(samples[j]));
    }
    i
}

/// When the best sample is turned away: where there are at least three samples and its
/// offset lies more than five standard deviations from the median of all offsets. `xs` are
/// the offsets, `s` the same in ascending order, and `i` is the best sample. The variance
/// is the mean of the squares less the square of the mean; both sides are squared and
/// multiplied by four times the squared count.
pub proof fn best_is_rejected_beyond_five_deviations(
    samples: Seq<Sample>,
    m: OffsetMeasurement,
    xs: Seq<i64>,
    s: Seq<i64>,
    i: int,
)
    requires
        all_in_range(samples),
        measured(samples, m),
        xs.len() == samples.len(),
        forall|j: int| 0 <= j < xs.len() ==> #[trigger] xs[j] == samples[j].offset(),
        s.to_multiset() == xs.to_multiset(),
        forall|a: int, b: int| 0 <= a < b < s.len() ==> #[trigger] s[a] <= #[trigger] s[b],
        0 <= i < samples.len(),
        forall|j: int| 0 <= j < samples.len() ==> samples[i].rtt() <= (#[trigger] samples[j]).rtt(),
        forall|j: int| 0 <= j < i ==> samples[i].rtt() < (#[trigger] samples[j]).rtt(),
    ensures
        ({
            let n = samples.len() as int;
            let far = 2 * samples[i].offset() - (s[(n - 1) / 2] + s[n / 2]);
            m.outlier_rejected <==> n >= 3 && (far * far) * (n * n) > 100 * (n * sum_of_squares(xs) - sum(
                xs,
            ) * sum(xs))
        }),
{
    let n = samples.len() as int;
    let k = first_shortest(samples);
    assert(k == i) by {
        if k < i {
            assert(samples[i].rtt() < samples[k].rtt());
        }
        if i < k {
            assert(samples[k].rtt() < samples[i].rtt());
        }
    }
    assert forall|j: int| 0 <= j < xs.len() implies xs[j] == #[trigger] offsets(samples)[j] by {
        assert(samples[j].in_range());
        assert(xs[j] == samples[j].offset());
    }
    assert(xs =~= offsets(samples));
    ascending_is_sorted(xs, s);
    spread_is_scaled_variance(xs);
    let far = 2 * samples[i].offset() - (s[(n - 1) / 2] + s[n / 2]);
    assert(twice_median(xs) == s[(n - 1) / 2] + s[n / 2]) by {
        if n % 2 == 1 {
            assert((n - 1) / 2 == n / 2);
        } else {
            assert((n - 1) / 2 == n / 2 - 1);
        }
    }
    assert(square(far) == far * far) by (nonlinear_arith)
        requires
            square(far) == (if far >= 0 {
                far * far
            } else {
                (-far) * (-far)
            }),
    ;
    assert(square(far) * n * n == (far * far) * (n * n)) by (nonlinear_arith)
        requires
            square(far) == far * far,
    ;
}

/// What a measurement says beside offset and round trip: how many samples it rests on, the
/// shortest and the longest round trip among them, and one row for each sample with its
/// times. A row is accepted just where the best sample stands and the row shows the
/// reported offset and round trip.
pub proof fn measurement_shows_its_samples(samples: Seq<Sample>, m: OffsetMeasurement)
    requires
        all_in_range(samples),
        samples.len() > 0,
        measured(samples, m),
    ensures
        m.samples == samples.len(),
        exists|i: int| 0 <= i < samples.len() && (#[trigger] samples[i]).rtt() == m.min_rtt_ns,
        exists|i: int| 0 <= i < samples.len() && (#[trigger] samples[i]).rtt() == m.max_rtt_ns,
        forall|i: int|
            0 <= i < samples.len() ==> m.min_rtt_ns <= (#[trigger] samples[i]).rtt() <= m.max_rtt_ns,
        m.raw_samples@.len() == samples.len(),
        forall|i: int|
            0 <= i < samples.len() ==> {
                let row = #[trigger] m.raw_samples@[i];
                &&& row.t1_ns == samples[i].t1_ns && row.t2_ns == samples[i].t2_ns
                &&& row.t3_ns == samples[i].t3_ns && row.t4_ns == samples[i].t4_ns
                &&& row.offset_ns is Some && row.offset_ns->0 == samples[i].offset()
                &&& row.rtt_ns is Some && row.rtt_ns->0 == samples[i].rtt()
                &&& row.result == ProbeResult::Answered
                &&& row.accepted <==> !m.outlier_rejected && row.offset_ns == Some(m.offset_ns)
                    && row.rtt_ns == Some(m.rtt_ns)
            },
{
    let p = pairs(samples);
    let q = by_rtt(p);
    let f = places_before(p);
    let n = samples.len() - 1;
    let i = first_shortest(samples);
    assert(samples[i].rtt() == m.min_rtt_ns);
    assert(q[n] == p[f[n]]);
    assert(p[f[n]] == pair(samples[f[n]]));
    assert(samples[f[n]].in_range());
    assert(samples[f[n]].rtt() == m.max_rtt_ns);
    assert forall|j: int| 0 <= j < samples.len() implies m.min_rtt_ns <= (#[trigger] samples[j]).rtt()
        <= m.max_rtt_ns by {
        round_trips_lie_between(samples, m, j);
    }
    assert forall|j: int| 0 <= j < samples.len() implies {
        let row = #[trigger] m.raw_samples@[j];
        &&& row.t1_ns == samples[j].t1_ns && row.t2_ns == samples[j].t2_ns
        &&& row.t3_ns == samples[j].t3_ns && row.t4_ns == samples[j].t4_ns
        &&& row.offset_ns is Some && row.offset_ns->0 == samples[j].offset()
        &&& row.rtt_ns is Some && row.rtt_ns->0 == samples[j].rtt()
        &&& row.result == ProbeResult::Answered
        &&& row.accepted <==> !m.outlier_rejected && row.offset_ns == Some(m.offset_ns) && row.rtt_ns
            == Some(m.rtt_ns)
    } by {
        assert(samples[j].in_range());
    }
}

/// What is known of a peer after its probes: one row for each probe in its order, with the
/// sample of an answered probe and with what went wrong of any other; and a measurement
/// just where a probe was answered, which counts the answers.
pub proof fn every_probe_has_its_row(outcomes: Seq<ProbeOutcome>, p: PeerMeasurement)
    requires
        all_in_range(answers(outcomes)),
        measurement_of(outcomes, p),
    ensures
        p.attempts@.len() == outcomes.len(),
        forall|i: int|
            0 <= i < outcomes.len() ==> {
                let row = #[trigger] p.attempts@[i];
                let o = outcomes[i];
                if o.result == ProbeResult::Answered && o.sample is Some {
                    let s = o.sample->0;
                    &&& row.result == ProbeResult::Answered
                    &&& row.t1_ns == s.t1_ns && row.t2_ns == s.t2_ns
                    &&& row.t3_ns == s.t3_ns && row.t4_ns == s.t4_ns
                    &&& row.offset_ns is Some && row.offset_ns->0 == s.offset()
                    &&& row.rtt_ns is Some && row.rtt_ns->0 == s.rtt()
                } else {
                    &&& row.result == o.result && row.t1_ns == o.t1_ns
                    &&& row.t2_ns == 0 && row.t3_ns == 0 && row.t4_ns == 0
                    &&& row.offset_ns is None && row.rtt_ns is None
                    &&& !row.accepted
                }
            },
        p.measurement is Some <==> exists|i: int|
            0 <= i < outcomes.len() && (#[trigger] outcomes[i]).result == ProbeResult::Answered
                && outcomes[i].sample is Some,
        p.measurement is Some ==> p.measurement->0.samples == outcomes.filter(
            |o: ProbeOutcome| o.result == ProbeResult::Answered && o.sample is Some,
        ).len(),
{
    let a = rows(outcomes);
    answers_are_counted(outcomes);
    match p.measurement {
        Some(m) => {
            first_match_facts(a, m.rtt_ns, m.offset_ns);
            answers_have_rows(outcomes, 0);
            let i = choose|i: int|
                0 <= i < outcomes.len() && #[trigger] answer(outcomes[i]) == Some(answers(outcomes)[0]);
            assert(outcomes[i].result == ProbeResult::Answered && outcomes[i].sample is Some);
        },
        None => {
            if exists|i: int|
                0 <= i < outcomes.len() && (#[trigger] outcomes[i]).result == ProbeResult::Answered
                    && outcomes[i].sample is Some {
                let i = choose|i: int|
                    0 <= i < outcomes.len() && (#[trigger] outcomes[i]).result == ProbeResult::Answered
                        && outcomes[i].sample is Some;
                answer_is_among_answers(outcomes, i);
            }
        },
    }
    assert forall|i: int| 0 <= i < outcomes.len() implies {
        let row = #[trigger] p.attempts@[i];
        let o = outcomes[i];
        if o.result == ProbeResult::Answered && o.sample is Some {
            let s = o.sample->0;
            &&& row.result == ProbeResult::Answered
            &&& row.t1_ns == s.t1_ns && row.t2_ns == s.t2_ns
            &&& row.t3_ns == s.t3_ns && row.t4_ns == s.t4_ns
            &&& row.offset_ns is Some && row.offset_ns->0 == s.offset()
            &&& row.rtt_ns is Some && row.rtt_ns->0 == s.rtt()
        } else {
            &&& row.result == o.result && row.t1_ns == o.t1_ns
            &&& row.t2_ns == 0 && row.t3_ns == 0 && row.t4_ns == 0
            &&& row.offset_ns is None && row.rtt_ns is None
            &&& !row.accepted
        }
    } by {
        let o = outcomes[i];
        assert(a[i] == row(o));
        if o.result == ProbeResult::Answered && o.sample is Some {
            answer_is_among_answers(outcomes, i);
            let k = choose|k: int|
                0 <= k < answers(outcomes).len() && #[trigger] answers(outcomes)[k] == o.sample->0;
            assert(answers(outcomes)[k].in_range());
        }
    }
}

proof fn answer_is_among_answers(outcomes: Seq<ProbeOutcome>, i: int)
    requires
        0 <= i < outcomes.len(),
        outcomes[i].result == ProbeResult::Answered,
        outcomes[i].sample is Some,
    ensures
        exists|k: int|
            0 <= k < answers(outcomes).len() && #[trigger] answers(outcomes)[k] == outcomes[i].sample->0,
    decreases outcomes.len(),
{
    let t = outcomes.drop_last();
    if i == outcomes.len() - 1 {
        let k = answers(t).len() as int;
        assert(answers(outcomes)[k] == outcomes[i].sample->0);
    } else {
        answer_is_among_answers(t, i);
        let k = choose|k: int| 0 <= k < answers(t).len() && #[trigger] answers(t)[k] == t[i].sample->0;
        assert(answers(outcomes)[k] == outcomes[i].sample->0);
    }
}

proof fn answers_are_counted(outcomes: Seq<ProbeOutcome>)
    ensures
        answers(outcomes).len() == outcomes.filter(
            |o: ProbeOutcome| o.result == ProbeResult::Answered && o.sample is Some,
        ).len(),
    decreases outcomes.len(),
{
    reveal(Seq::filter);
    if outcomes.len() > 0 {
        answers_are_counted(outcomes.drop_last());
    }
}

/// A runner's probe that its peer answers gives the sample of the four times: the peer's
/// answer to just this probe ends the wait, whatever had come in before, with the probe's
/// own time, the two times that the peer has stamped, and that of the arrival.
pub proof fn answered_probe_gives_the_four_times(
    before: ProbeWait,
    after: ProbeWait,
    request: Message,
    reply: ProbeReply,
    response: Message,
    t4_ns: i64,
    r: WaitStep,
)
    requires
        request is ProbeRequest,
        request->ProbeRequest_from@ == before.self_name@,
        request->ProbeRequest_to@ == before.peer@,
        request->ProbeRequest_id == before.id,
        request->ProbeRequest_t1@ == before.t1@,
        answers_probe(before.peer@, request, reply),
        responds_to(before.peer@, reply, response),
        stamp_nanos(response->ProbeResponse_t2@) is Some,
        stamp_nanos(response->ProbeResponse_t3@) is Some,
        response_step(
            before,
            after,
            response->ProbeResponse_from@,
            response->ProbeResponse_to@,
            response->ProbeResponse_id,
            response->ProbeResponse_t1@,
            stamp_nanos(response->ProbeResponse_t2@),
            stamp_nanos(response->ProbeResponse_t3@),
            Some(t4_ns),
            r,
        ),
    ensures
        r is Finished,
        r->Finished_result == ProbeResult::Answered,
        r->Finished_sample is Some,
        ({
            let s = r->Finished_sample->0;
            &&& s.t1_ns == before.t1_ns
            &&& s.t2_ns == stamp_nanos(response->ProbeResponse_t2@)->0
            &&& s.t3_ns == stamp_nanos(response->ProbeResponse_t3@)->0
            &&& s.t4_ns == t4_ns
        }),
{
}

/// What an answer that is turned away leaves as the reason: one that is not from the peer,
/// not to this runner or not to this probe goes by the filter, one to this probe with
/// another `t1` by that, and one whose times cannot be read counts only where nothing else
/// had been wrong. None of them ends the wait.
pub proof fn other_answers_are_told_apart(
    before: ProbeWait,
    after: ProbeWait,
    from: Seq<char>,
    to: Seq<char>,
    id: u64,
    t1: Seq<char>,
    t2_ns: Option<i64>,
    t3_ns: Option<i64>,
    t4_ns: i64,
    r: WaitStep,
)
    requires
        response_step(before, after, from, to, id, t1, t2_ns, t3_ns, Some(t4_ns), r),
    ensures
        ({
            let ours = from == before.peer@ && to == before.self_name@ && id == before.id;
            &&& r is Finished <==> ours && t1 == before.t1@ && t2_ns is Some && t3_ns is Some
            &&& !(r is Finished) ==> r is Wait
            &&& !ours ==> after.reason == ProbeResult::RejectedFilter
            &&& ours && t1 != before.t1@ ==> after.reason == ProbeResult::RejectedT1
            &&& ours && t1 == before.t1@ && (t2_ns is None || t3_ns is None) ==> after.reason == (
            if before.reason == ProbeResult::Timeout {
                ProbeResult::ParseError
            } else {
                before.reason
            })
            &&& after.id == before.id && after.t1@ == before.t1@ && after.t1_ns == before.t1_ns
            &&& after.peer@ == before.peer@ && after.self_name@ == before.self_name@
        }),
{
}

/// The samples that are measured are those of the answered probes, in the order of the
/// probes: of lists put side by side those of the first and then those of the second.
pub proof fn samples_are_those_of_the_answers(a: Seq<ProbeOutcome>, b: Seq<ProbeOutcome>, o: ProbeOutcome)
    ensures
        answers(seq![o]) == (if o.result == ProbeResult::Answered && o.sample is Some {
            seq![o.sample->0]
        } else {
            Seq::empty()
        }),
        answers(a + b) == answers(a) + answers(b),
    decreases b.len(),
{
    let one = seq![o];
    assert(one.drop_last() =~= Seq::empty());
    assert(answers(one.drop_last()) =~= Seq::empty());
    assert(one.last() == o);
    assert(answers(one) =~= (if o.result == ProbeResult::Answered && o.sample is Some {
        seq![o.sample->0]
    } else {
        Seq::empty()
    }));
    if b.len() == 0 {
        assert(a + b =~= a);
        assert(answers(a) + answers(b) =~= answers(a));
    } else {
        samples_are_those_of_the_answers(a, b.drop_last(), o);
        assert((a + b).drop_last() =~= a + b.drop_last());
        assert((a + b).last() == b.last());
        assert(answers(a + b) =~= answers(a) + answers(b));
    }
}

/// A probe is answered just where it is addressed to the runner, and the answer goes to the
/// one that asked, with the number and the `t1` of the probe.
pub proof fn probes_are_answered_by_whom_they_address(
    self_name: &str,
    msg: &Message,
    r: Option<ProbeReply>,
)
    requires
        call_ensures(probe_reply, (self_name, msg), r),
    ensures
        r is Some <==> msg is ProbeRequest && msg->ProbeRequest_to@ == self_name@,
        r is Some ==> r->0.to@ == msg->ProbeRequest_from@ && r->0.id == msg->ProbeRequest_id && r->0.t1@
            == msg->ProbeRequest_t1@,
{
}

/// The answer to a probe carries the two times in their order, beside what it echoes.
pub proof fn answers_carry_both_times(
    self_name: &str,
    reply: &ProbeReply,
    t2: String,
    t3: String,
    r: Message,
)
    requires
        call_ensures(probe_response, (self_name, reply, t2, t3), r),
    ensures
        r is ProbeResponse,
        r->ProbeResponse_from@ == self_name@ && r->ProbeResponse_to@ == reply.to@,
        r->ProbeResponse_id == reply.id && r->ProbeResponse_t1@ == reply.t1@,
        r->ProbeResponse_t2@ == t2@ && r->ProbeResponse_t3@ == t3@,
{
}

/// A probe that is given up has no sample, its own time, and as its result what went wrong.
pub proof fn probes_given_up_say_why(wait: &ProbeWait, r: ProbeOutcome)
    requires
        call_ensures(ProbeWait::give_up, (wait,), r),
    ensures
        r.sample is None,
        r.t1_ns == wait.t1_ns,
        r.result == wait.reason,
{
}

/// How many probes a peer is sent, and how far an offset may lie off.
pub proof fn measures_of_the_measurement()
    ensures
        DEFAULT_SAMPLES == 32,
        OUTLIER_STDDEV_THRESHOLD == 5,
{
}

/// What is picked out of the answered probes: nothing just where there are none; where the
/// best one stands, its offset and its round trip; and where it is turned away, the middle
/// ones of the three with the shortest round trips.
pub proof fn picked_measurement_in_full(samples: &[Sample], r: Option<OffsetMeasurement>)
    requires
        all_in_range(samples@),
        call_ensures(pick_best, (samples,), r),
    ensures
        r is None <==> samples@.len() == 0,
        r is Some && !r->0.outlier_rejected ==> exists|i: int|
            {
                &&& 0 <= i < samples@.len()
                &&& r->0.offset_ns == (#[trigger] samples@[i]).offset()
                &&& r->0.rtt_ns == samples@[i].rtt()
                &&& forall|j: int|
                    0 <= j < samples@.len() ==> samples@[i].rtt() <= (#[trigger] samples@[j]).rtt()
                &&& forall|j: int| 0 <= j < i ==> samples@[i].rtt() < (#[trigger] samples@[j]).rtt()
            },
        r is Some && r->0.outlier_rejected ==> exists|a: int, b: int, c: int|
            {
                &&& #[trigger] three_shortest(samples@, a, b, c)
                &&& is_middle(
                    r->0.offset_ns as int,
                    samples@[a].offset(),
                    samples@[b].offset(),
                    samples@[c].offset(),
                )
                &&& is_middle(
                    r->0.rtt_ns as int,
                    samples@[a].rtt(),
                    samples@[b].rtt(),
                    samples@[c].rtt(),
                )
            },
{
    if let Some(m) = r {
        if m.outlier_rejected {
            rejected_best_gives_way_to_the_middle_of_three(samples@, m);
        } else {
            standing_best_is_reported(samples@, m);
        }
    }
}

/// The round trip is the time that passed here less the time that passed there, and twice the
/// offset is the difference of both ways, up to one that is rounded off toward zero.
pub proof fn samples_are_computed_in_full(s: &Sample, rtt: i64, offset: i64)
    requires
        s.in_range(),
        call_ensures(Sample::rtt_ns, (s,), rtt),
        call_ensures(Sample::offset_ns, (s,), offset),
    ensures
        rtt == (s.t4_ns - s.t1_ns) - (s.t3_ns - s.t2_ns),
        ({
            let twice = (s.t2_ns - s.t1_ns) + (s.t3_ns - s.t4_ns);
            if twice >= 0 {
                0 <= twice - 2 * offset <= 1
            } else {
                -1 <= twice - 2 * offset <= 0
            }
        }),
{
}

/// A sample is accepted for computing just where the differences of its times, the round trip
/// and the sum of both ways lie within 64 bits.
pub proof fn range_is_that_of_the_differences(s: &Sample, ok: bool)
    requires
        call_ensures(Sample::check_range, (s,), ok),
    ensures
        ok <==> {
            let (lo, hi) = (-0x8000_0000_0000_0000int, 0x7fff_ffff_ffff_ffffint);
            &&& lo <= s.t2_ns - s.t1_ns <= hi
            &&& lo <= s.t3_ns - s.t4_ns <= hi
            &&& lo <= s.t4_ns - s.t1_ns <= hi
            &&& lo <= s.t3_ns - s.t2_ns <= hi
            &&& lo <= (s.t4_ns - s.t1_ns) - (s.t3_ns - s.t2_ns) <= hi
            &&& lo <= (s.t2_ns - s.t1_ns) + (s.t3_ns - s.t4_ns) <= hi
        },
{
}

/// What is marked as accepted: nothing where the best one was turned away; and else just the
/// first of the answered probes with the round trip and the offset of the measurement. Nothing
/// else of the rows changes.
pub proof fn first_row_of_the_choice_is_accepted(
    attempts: &mut Vec<RawSample>,
    chosen: &OffsetMeasurement,
    i: int,
    r: (),
)
    requires
        call_ensures(mark_accepted, (attempts, chosen), r),
        0 <= i < old(attempts)@.len(),
        forall|j: int| 0 <= j < old(attempts)@.len() ==> !(#[trigger] old(attempts)@[j]).accepted,
    ensures
        final(attempts)@.len() == old(attempts)@.len(),
        ({
            let (was, is) = (old(attempts)@[i], final(attempts)@[i]);
            &&& is.t1_ns == was.t1_ns && is.t2_ns == was.t2_ns && is.t3_ns == was.t3_ns && is.t4_ns
                == was.t4_ns
            &&& is.offset_ns == was.offset_ns && is.rtt_ns == was.rtt_ns && is.result == was.result
            &&& is.accepted <==> {
                &&& !chosen.outlier_rejected
                &&& was.result == ProbeResult::Answered
                &&& was.rtt_ns == Some(chosen.rtt_ns) && was.offset_ns == Some(chosen.offset_ns)
                &&& forall|j: int|
                    0 <= j < i ==> !((#[trigger] old(attempts)@[j]).result == ProbeResult::Answered
                        && old(attempts)@[j].rtt_ns == Some(chosen.rtt_ns) && old(attempts)@[j].offset_ns
                        == Some(chosen.offset_ns))
            }
        }),
{
    let a = old(attempts)@;
    first_match_facts(a, chosen.rtt_ns, chosen.offset_ns);
    if let Some(k) = first_match(a, chosen.rtt_ns, chosen.offset_ns) {
        assert(matches_choice(a[k], chosen.rtt_ns, chosen.offset_ns));
        assert(a[k].result == ProbeResult::Answered);
    }
}

/// A probe goes out to the peer with the runner's name, the next number and its time, and what
/// is waited for is its answer; the number after it is used next.
pub proof fn probes_are_numbered_one_by_one(
    e: &mut ClockSyncEngine,
    peer: &str,
    t1_ns: i64,
    r: OutgoingProbe,
)
    requires
        call_ensures(ClockSyncEngine::probe_at, (e, peer, t1_ns), r),
    ensures
        final(e).name() == old(e).name(),
        old(e).next() < u64::MAX ==> final(e).next() == old(e).next() + 1,
        old(e).next() == u64::MAX ==> final(e).next() == 0,
        r.wait.self_name@ == old(e).name() && r.wait.peer@ == peer@ && r.wait.id == old(e).next(),
        r.wait.t1_ns == t1_ns && stamp_nanos(r.wait.t1@) == Some(t1_ns),
        r.request is ProbeRequest,
        r.request->ProbeRequest_from@ == old(e).name() && r.request->ProbeRequest_to@ == peer@,
        r.request->ProbeRequest_id == old(e).next() && r.request->ProbeRequest_t1@ == r.wait.t1@,
{
}

/// What comes in while an answer is waited for: only the peer's answer to this probe, with its
/// `t1` and two times that can be read, ends the wait, with its four times; a probe of another
/// runner is answered, and all else is passed over.
pub proof fn wait_ends_with_the_answer(
    w: &mut ProbeWait,
    msg: Option<&Message>,
    t4_ns: i64,
    r: WaitStep,
)
    requires
        call_ensures(ProbeWait::wait_for_response, (w, msg, Some(t4_ns)), r),
    ensures
        r is Finished <==> {
            &&& msg is Some && *msg->0 is ProbeResponse
            &&& (*msg->0)->ProbeResponse_from@ == old(w).peer@
            &&& (*msg->0)->ProbeResponse_to@ == old(w).self_name@
            &&& (*msg->0)->ProbeResponse_id == old(w).id
            &&& (*msg->0)->ProbeResponse_t1@ == old(w).t1@
            &&& stamp_nanos((*msg->0)->ProbeResponse_t2@) is Some
            &&& stamp_nanos((*msg->0)->ProbeResponse_t3@) is Some
        },
        r is Finished ==> {
            &&& r->Finished_result == ProbeResult::Answered
            &&& r->Finished_sample is Some
            &&& r->Finished_sample->0.t1_ns == old(w).t1_ns
            &&& r->Finished_sample->0.t2_ns == stamp_nanos((*msg->0)->ProbeResponse_t2@)->0
            &&& r->Finished_sample->0.t3_ns == stamp_nanos((*msg->0)->ProbeResponse_t3@)->0
            &&& r->Finished_sample->0.t4_ns == t4_ns
        },
        r is Reply <==> msg is Some && *msg->0 is ProbeRequest && (*msg->0)->ProbeRequest_to@ == old(w).self_name@,
        r is Reply ==> r->Reply_0.to@ == (*msg->0)->ProbeRequest_from@ && r->Reply_0.id
            == (*msg->0)->ProbeRequest_id && r->Reply_0.t1@ == (*msg->0)->ProbeRequest_t1@,
        final(w).peer@ == old(w).peer@ && final(w).self_name@ == old(w).self_name@,
        final(w).id == old(w).id && final(w).t1@ == old(w).t1@ && final(w).t1_ns == old(w).t1_ns,
        msg is None ==> final(w).reason == if old(w).reason == ProbeResult::Timeout {
            ProbeResult::ParseError
        } else {
            old(w).reason
        },
{
}

/// What came in and could not be read is the reason, where there was none but the time.
pub proof fn unreadable_answers_are_the_reason_after_the_time(w: &mut ProbeWait, r: ())
    requires
        call_ensures(ProbeWait::on_unreadable, (w,), r),
    ensures
        old(w).reason == ProbeResult::Timeout ==> final(w).reason == ProbeResult::ParseError,
        old(w).reason != ProbeResult::Timeout ==> final(w).reason == old(w).reason,
        final(w).peer@ == old(w).peer@ && final(w).self_name@ == old(w).self_name@,
        final(w).id == old(w).id && final(w).t1@ == old(w).t1@ && final(w).t1_ns == old(w).t1_ns,
{
}

/// Each peer but the runner itself is measured, by its own probes: it has a row for each of
/// them, and a measurement just where one was answered.
pub proof fn every_peer_is_measured_by_its_probes(
    e: &ClockSyncEngine,
    peers: &[String],
    outcomes: &[Vec<ProbeOutcome>],
    r: NameMap<PeerMeasurement>,
    i: int,
)
    requires
        peers@.len() == outcomes@.len(),
        forall|k: int| 0 <= k < outcomes@.len() ==> all_in_range(answers((#[trigger] outcomes@[k])@)),
        call_ensures(ClockSyncEngine::measure_offsets, (e, peers, outcomes), r),
        texts(peers@).no_duplicates(),
        0 <= i < peers@.len(),
    ensures
        r@.contains_key(peers@[i]@) <==> peers@[i]@ != e.name(),
        peers@[i]@ != e.name() ==> {
            let m = r@[peers@[i]@];
            &&& m.attempts@.len() == outcomes@[i]@.len()
            &&& m.measurement is Some <==> exists|k: int|
                0 <= k < outcomes@[i]@.len() && (#[trigger] outcomes@[i]@[k]).result
                    == ProbeResult::Answered && outcomes@[i]@[k].sample is Some
            &&& forall|k: int|
                0 <= k < outcomes@[i]@.len() && outcomes@[i]@[k].result != ProbeResult::Answered
                    ==> (#[trigger] m.attempts@[k]).result == outcomes@[i]@[k].result
        },
{
    let t = texts(peers@);
    assert(t[i] == peers@[i]@);
    assert(t.contains(t[i]));
    assert forall|j: int| i < j < peers@.len() implies (#[trigger] peers@[j])@ != peers@[i]@ by {
        assert(t[j] == peers@[j]@);
    }
    assert(all_in_range(answers(outcomes@[i]@)));
    if peers@[i]@ != e.name() {
        every_probe_has_its_row(outcomes@[i]@, r@[peers@[i]@]);
    }
}

} // verus!
