//! Expansion of a variant into spawns, one for each combination of its dimensions.

use crate::config::{
    lookup, required_positive, SpecError, ThreadingMode, VariantConfig, VariantView,
};
use crate::dimensions::{
    buffer_setting_in_full, gives_number, level_listing, level_listing_facts, levels_ascending,
    modes_named_len, modes_reading, number_listing, number_listing_facts, positive_reading,
    positive_setting_in_full, qos_reading, qos_setting_in_full, recv_buffer_reading,
    strictly_ascending, Flaw, PositiveView, QosView, ThreadingSpec,
};
use crate::text::{decimal, decimal_u64, is_digit, leading_number_is_told, same_beginning};
use crate::toml_value::ValueView;
use vstd::prelude::*;

verus! {

/// One spawn of a variant.
#[derive(Debug, Clone, PartialEq, Eq)]
pub struct SpawnJob {
    /// Where the variant stands in the config.
    pub source_index: usize,
    /// The variant's name with a suffix for each dimension that has several values.
    pub effective_name: String,
    pub tick_rate_hz: u32,
    pub values_per_tick: u32,
    pub qos: u8,
    pub threading_mode: ThreadingMode,
    pub recv_buffer_kb: u32,
}

/// What a spawn is.
pub struct JobView {
    pub source_index: usize,
    pub effective_name: Seq<char>,
    pub tick_rate_hz: u32,
    pub values_per_tick: u32,
    pub qos: u8,
    pub threading_mode: ThreadingMode,
    pub recv_buffer_kb: u32,
}

impl SpawnJob {
    pub open spec fn view(&self) -> JobView {
        JobView {
            source_index: self.source_index,
            effective_name: self.effective_name@,
            tick_rate_hz: self.tick_rate_hz,
            values_per_tick: self.values_per_tick,
            qos: self.qos,
            threading_mode: self.threading_mode,
            recv_buffer_kb: self.recv_buffer_kb,
        }
    }
}

/// The spawns.
pub open spec fn job_views(jobs: Seq<SpawnJob>) -> Seq<JobView> {
    Seq::new(jobs.len(), |i: int| jobs[i]@)
}

/// The values of each dimension of a variant.
pub struct Dimensions {
    pub hz: Seq<u32>,
    pub vpt: Seq<u32>,
    pub qos: Seq<u8>,
    pub modes: Seq<ThreadingMode>,
    pub recv_buffer_kb: u32,
}

/// A setting that cannot be used, and why.
pub struct SettingFlaw {
    pub field: Seq<char>,
    pub flaw: Flaw,
}

/// The dimensions of a variant, or the first setting that cannot be read.
pub open spec fn dimensions(v: VariantView) -> Result<Dimensions, SettingFlaw> {
    match required_positive(v.common, "tick_rate_hz"@) {
        Err(flaw) => Err(SettingFlaw { field: "tick_rate_hz"@, flaw }),
        Ok(hz) => match required_positive(v.common, "values_per_tick"@) {
            Err(flaw) => Err(SettingFlaw { field: "values_per_tick"@, flaw }),
            Ok(vpt) => match qos_reading(lookup(v.common, "qos"@)) {
                Err(flaw) => Err(SettingFlaw { field: "qos"@, flaw }),
                Ok(qos) => match modes_reading(lookup(v.common, "threading_modes"@)) {
                    Err(flaw) => Err(SettingFlaw { field: "threading_modes"@, flaw }),
                    Ok(modes) => match recv_buffer_reading(lookup(v.common, "recv_buffer_kb"@)) {
                        Err(flaw) => Err(SettingFlaw { field: "recv_buffer_kb"@, flaw }),
                        Ok(recv_buffer_kb) => Ok(
                            Dimensions {
                                hz: number_listing(hz),
                                vpt: number_listing(vpt),
                                qos: level_listing(qos),
                                modes: ThreadingSpec::listing(modes),
                                recv_buffer_kb,
                            },
                        ),
                    },
                },
            },
        },
    }
}

/// The suffix for tick rate and values per tick.
pub open spec fn rate_suffix(d: Dimensions, hz: u32, vpt: u32) -> Seq<char> {
    if d.hz.len() > 1 || d.vpt.len() > 1 {
        "-"@ + decimal(vpt as nat) + "x"@ + decimal(hz as nat) + "hz"@
    } else {
        Seq::empty()
    }
}

/// The suffix for the quality of service level.
pub open spec fn qos_suffix(d: Dimensions, qos: u8) -> Seq<char> {
    if d.qos.len() > 1 {
        "-qos"@ + decimal(qos as nat)
    } else {
        Seq::empty()
    }
}

/// The suffix for the threading mode.
pub open spec fn mode_suffix(d: Dimensions, mode: ThreadingMode) -> Seq<char> {
    if d.modes.len() > 1 {
        "-"@ + mode.word()
    } else {
        Seq::empty()
    }
}

/// The name of a spawn: the variant's name, then a suffix for each dimension that has
/// more than one value.
pub open spec fn job_name(
    base: Seq<char>,
    d: Dimensions,
    hz: u32,
    vpt: u32,
    qos: u8,
    mode: ThreadingMode,
) -> Seq<char> {
    base + rate_suffix(d, hz, vpt) + qos_suffix(d, qos) + mode_suffix(d, mode)
}

/// The spawn of one combination.
pub open spec fn job(
    source_index: usize,
    base: Seq<char>,
    d: Dimensions,
    hz: u32,
    vpt: u32,
    qos: u8,
    mode: ThreadingMode,
) -> JobView {
    JobView {
        source_index,
        effective_name: job_name(base, d, hz, vpt, qos, mode),
        tick_rate_hz: hz,
        values_per_tick: vpt,
        qos,
        threading_mode: mode,
        recv_buffer_kb: d.recv_buffer_kb,
    }
}

/// The spawns with this tick rate, number of values and level, one for each mode.
pub open spec fn jobs_of_level(
    source_index: usize,
    base: Seq<char>,
    d: Dimensions,
    hz: u32,
    vpt: u32,
    qos: u8,
    n: int,
) -> Seq<JobView> {
    Seq::new(n as nat, |i: int| job(source_index, base, d, hz, vpt, qos, d.modes[i]))
}

/// The spawns with this tick rate and number of values, for the first `n` levels.
pub open spec fn jobs_of_values(
    source_index: usize,
    base: Seq<char>,
    d: Dimensions,
    hz: u32,
    vpt: u32,
    n: int,
) -> Seq<JobView>
    decreases n,
{
    if n <= 0 {
        Seq::empty()
    } else {
        jobs_of_values(source_index, base, d, hz, vpt, n - 1) + jobs_of_level(
            source_index,
            base,
            d,
            hz,
            vpt,
            d.qos[n - 1],
            d.modes.len() as int,
        )
    }
}

/// The spawns with this tick rate, for the first `n` numbers of values.
pub open spec fn jobs_of_rate(
    source_index: usize,
    base: Seq<char>,
    d: Dimensions,
    hz: u32,
    n: int,
) -> Seq<JobView>
    decreases n,
{
    if n <= 0 {
        Seq::empty()
    } else {
        jobs_of_rate(source_index, base, d, hz, n - 1) + jobs_of_values(
            source_index,
            base,
            d,
            hz,
            d.vpt[n - 1],
            d.qos.len() as int,
        )
    }
}

/// The spawns for the first `n` tick rates.
pub open spec fn jobs_of_rates(source_index: usize, base: Seq<char>, d: Dimensions, n: int) -> Seq<JobView>
    decreases n,
{
    if n <= 0 {
        Seq::empty()
    } else {
        jobs_of_rates(source_index, base, d, n - 1) + jobs_of_rate(
            source_index,
            base,
            d,
            d.hz[n - 1],
            d.vpt.len() as int,
        )
    }
}

/// All spawns of a variant: by tick rate, then by number of values, then by level,
/// then by mode, each ascending.
pub open spec fn expansion(source_index: usize, base: Seq<char>, d: Dimensions) -> Seq<JobView> {
    jobs_of_rates(source_index, base, d, d.hz.len() as int)
}

fn make_job(
    source_index: usize,
    base: &str,
    rate_many: bool,
    qos_many: bool,
    modes_many: bool,
    hz: u32,
    vpt: u32,
    qos: u8,
    mode: ThreadingMode,
    recv_buffer_kb: u32,
    Ghost(d): Ghost<Dimensions>,
) -> (r: SpawnJob)
    requires
        rate_many == (d.hz.len() > 1 || d.vpt.len() > 1),
        qos_many == (d.qos.len() > 1),
        modes_many == (d.modes.len() > 1),
        recv_buffer_kb == d.recv_buffer_kb,
    ensures
        r@ == job(source_index, base@, d, hz, vpt, qos, mode),
{
    let mut name = base.to_owned();
    if rate_many {
        name.append("-");
        name.append(decimal_u64(vpt as u64).as_str());
        name.append("x");
        name.append(decimal_u64(hz as u64).as_str());
        name.append("hz");
    }
    assert(name@ =~= base@ + rate_suffix(d, hz, vpt));
    if qos_many {
        name.append("-qos");
        name.append(decimal_u64(qos as u64).as_str());
    }
    assert(name@ =~= base@ + rate_suffix(d, hz, vpt) + qos_suffix(d, qos));
    if modes_many {
        name.append("-");
        name.append(mode.as_str());
    }
    assert(name@ =~= job_name(base@, d, hz, vpt, qos, mode));
    SpawnJob {
        source_index,
        effective_name: name,
        tick_rate_hz: hz,
        values_per_tick: vpt,
        qos,
        threading_mode: mode,
        recv_buffer_kb,
    }
}

/// Expands a variant into its spawns.
pub fn expand_variant(source_index: usize, variant: &VariantConfig) -> (r: Result<Vec<SpawnJob>, SpecError>)
    ensures
        match dimensions(variant@) {
            Ok(d) => r is Ok && job_views(r->Ok_0@) == expansion(source_index, variant@.name, d),
            Err(f) => r is Err && r->Err_0.field@ == f.field && r->Err_0.flaw() == f.flaw,
        },
{
    let hz_values = match variant.tick_rate_spec() {
        Ok(s) => s.values(),
        Err(e) => return Err(e),
    };
    let vpt_values = match variant.values_per_tick_spec() {
        Ok(s) => s.values(),
        Err(e) => return Err(e),
    };
    let qos_levels = match variant.qos_spec() {
        Ok(s) => s.levels(),
        Err(e) => return Err(e),
    };
    let modes = match variant.threading_modes_spec() {
        Ok(s) => s.modes(),
        Err(e) => return Err(e),
    };
    let recv_buffer_kb = match variant.recv_buffer_kb() {
        Ok(n) => n,
        Err(e) => return Err(e),
    };
    let ghost d = Dimensions {
        hz: hz_values@,
        vpt: vpt_values@,
        qos: qos_levels@,
        modes: modes@,
        recv_buffer_kb,
    };
    assert(dimensions(variant@) == Ok::<Dimensions, SettingFlaw>(d));
    let base = variant.name.as_str();
    let rate_many: bool = hz_values.len() > 1 || vpt_values.len() > 1;
    let qos_many: bool = qos_levels.len() > 1;
    let modes_many: bool = modes.len() > 1;
    let mut jobs: Vec<SpawnJob> = Vec::new();
    assert(job_views(jobs@) =~= jobs_of_rates(source_index, base@, d, 0));
    for a in 0..hz_values.len()
        invariant
            d == (Dimensions {
                hz: hz_values@,
                vpt: vpt_values@,
                qos: qos_levels@,
                modes: modes@,
                recv_buffer_kb,
            }),
            rate_many == (d.hz.len() > 1 || d.vpt.len() > 1),
            qos_many == (d.qos.len() > 1),
            modes_many == (d.modes.len() > 1),
            job_views(jobs@) == jobs_of_rates(source_index, base@, d, a as int),
    {
        let hz: u32 = hz_values[a];
        let ghost j1 = job_views(jobs@);
        assert(job_views(jobs@) =~= j1 + jobs_of_rate(source_index, base@, d, hz, 0));
        for b in 0..vpt_values.len()
            invariant
                d == (Dimensions {
                    hz: hz_values@,
                    vpt: vpt_values@,
                    qos: qos_levels@,
                    modes: modes@,
                    recv_buffer_kb,
                }),
                rate_many == (d.hz.len() > 1 || d.vpt.len() > 1),
                qos_many == (d.qos.len() > 1),
                modes_many == (d.modes.len() > 1),
                job_views(jobs@) == j1 + jobs_of_rate(source_index, base@, d, hz, b as int),
        {
            let vpt: u32 = vpt_values[b];
            let ghost j2 = job_views(jobs@);
            assert(job_views(jobs@) =~= j2 + jobs_of_values(source_index, base@, d, hz, vpt, 0));
            for c in 0..qos_levels.len()
                invariant
                    d == (Dimensions {
                        hz: hz_values@,
                        vpt: vpt_values@,
                        qos: qos_levels@,
                        modes: modes@,
                        recv_buffer_kb,
                    }),
                    rate_many == (d.hz.len() > 1 || d.vpt.len() > 1),
                    qos_many == (d.qos.len() > 1),
                    modes_many == (d.modes.len() > 1),
                    job_views(jobs@) == j2 + jobs_of_values(source_index, base@, d, hz, vpt, c as int),
            {
                let qos: u8 = qos_levels[c];
                let ghost j3 = job_views(jobs@);
                assert(job_views(jobs@) =~= j3 + jobs_of_level(source_index, base@, d, hz, vpt, qos, 0));
                for m in 0..modes.len()
                    invariant
                        d == (Dimensions {
                            hz: hz_values@,
                            vpt: vpt_values@,
                            qos: qos_levels@,
                            modes: modes@,
                            recv_buffer_kb,
                        }),
                        rate_many == (d.hz.len() > 1 || d.vpt.len() > 1),
                        qos_many == (d.qos.len() > 1),
                        modes_many == (d.modes.len() > 1),
                        job_views(jobs@) == j3 + jobs_of_level(
                            source_index,
                            base@,
                            d,
                            hz,
                            vpt,
                            qos,
                            m as int,
                        ),
                {
                    let j = make_job(
                        source_index,
                        base,
                        rate_many,
                        qos_many,
                        modes_many,
                        hz,
                        vpt,
                        qos,
                        modes[m],
                        recv_buffer_kb,
                        Ghost(d),
                    );
                    let ghost before = jobs@;
                    jobs.push(j);
                    assert(job_views(jobs@) =~= job_views(before).push(j@));
                    assert(job_views(jobs@) =~= j3 + jobs_of_level(
                        source_index,
                        base@,
                        d,
                        hz,
                        vpt,
                        qos,
                        m + 1,
                    ));
                }
                assert(job_views(jobs@) =~= j2 + jobs_of_values(source_index, base@, d, hz, vpt, c + 1));
            }
            assert(job_views(jobs@) =~= j1 + jobs_of_rate(source_index, base@, d, hz, b + 1));
        }
        assert(job_views(jobs@) =~= jobs_of_rates(source_index, base@, d, a + 1));
    }
    Ok(jobs)
}

// ---------------------------------------------------------------------
// Laws
// ---------------------------------------------------------------------

/// Where the spawn of a combination stands in the expansion.
pub open spec fn place(d: Dimensions, a: int, b: int, c: int, m: int) -> int {
    ((a * d.vpt.len() + b) * d.qos.len() + c) * d.modes.len() + m
}

proof fn within(i: int, n: int, k: int, len: int)
    requires
        0 <= i < n,
        0 <= k < len,
    ensures
        0 <= i * len + k < n * len,
        (n - 1) * len + len == n * len,
        i < n - 1 ==> i * len + k < (n - 1) * len,
{
    assert((n - 1) * len + len == n * len) by (nonlinear_arith);
    assert(0 <= i * len) by (nonlinear_arith)
        requires
            0 <= i,
            0 <= len,
    ;
    assert((i + 1) * len == i * len + len) by (nonlinear_arith);
    assert((i + 1) * len <= n * len) by (nonlinear_arith)
        requires
            i + 1 <= n,
            0 <= len,
    ;
    if i < n - 1 {
        assert((i + 1) * len <= (n - 1) * len) by (nonlinear_arith)
            requires
                i + 1 <= n - 1,
                0 <= len,
        ;
    }
}

proof fn values_len(source_index: usize, base: Seq<char>, d: Dimensions, hz: u32, vpt: u32, n: int, len: int)
    requires
        0 <= n,
        len == d.modes.len(),
    ensures
        jobs_of_values(source_index, base, d, hz, vpt, n).len() == n * len,
    decreases n,
{
    if n > 0 {
        values_len(source_index, base, d, hz, vpt, n - 1, len);
        assert((n - 1) * len + len == n * len) by (nonlinear_arith);
    } else {
        assert(n * len == 0) by (nonlinear_arith)
            requires
                n == 0,
        ;
    }
}

proof fn values_at(
    source_index: usize,
    base: Seq<char>,
    d: Dimensions,
    hz: u32,
    vpt: u32,
    n: int,
    len: int,
    c: int,
    m: int,
)
    requires
        len == d.modes.len(),
        0 <= c < n,
        0 <= m < len,
    ensures
        0 <= c * len + m < n * len,
        jobs_of_values(source_index, base, d, hz, vpt, n)[c * len + m] == job(
            source_index,
            base,
            d,
            hz,
            vpt,
            d.qos[c],
            d.modes[m],
        ),
    decreases n,
{
    within(c, n, m, len);
    values_len(source_index, base, d, hz, vpt, n - 1, len);
    if c < n - 1 {
        values_at(source_index, base, d, hz, vpt, n - 1, len, c, m);
    }
}

proof fn rate_len(source_index: usize, base: Seq<char>, d: Dimensions, hz: u32, n: int, len: int)
    requires
        0 <= n,
        len == d.qos.len() * d.modes.len(),
    ensures
        jobs_of_rate(source_index, base, d, hz, n).len() == n * len,
    decreases n,
{
    if n > 0 {
        rate_len(source_index, base, d, hz, n - 1, len);
        values_len(source_index, base, d, hz, d.vpt[n - 1], d.qos.len() as int, d.modes.len() as int);
        assert((n - 1) * len + len == n * len) by (nonlinear_arith);
    } else {
        assert(n * len == 0) by (nonlinear_arith)
            requires
                n == 0,
        ;
    }
}

proof fn rate_at(source_index: usize, base: Seq<char>, d: Dimensions, hz: u32, n: int, len: int, b: int, k: int)
    requires
        len == d.qos.len() * d.modes.len(),
        0 <= b < n,
        0 <= k < len,
    ensures
        0 <= b * len + k < n * len,
        jobs_of_rate(source_index, base, d, hz, n)[b * len + k] == jobs_of_values(
            source_index,
            base,
            d,
            hz,
            d.vpt[b],
            d.qos.len() as int,
        )[k],
    decreases n,
{
    within(b, n, k, len);
    rate_len(source_index, base, d, hz, n - 1, len);
    values_len(source_index, base, d, hz, d.vpt[n - 1], d.qos.len() as int, d.modes.len() as int);
    if b < n - 1 {
        rate_at(source_index, base, d, hz, n - 1, len, b, k);
    }
}

proof fn rates_len(source_index: usize, base: Seq<char>, d: Dimensions, n: int, len: int, inner: int)
    requires
        0 <= n,
        inner == d.qos.len() * d.modes.len(),
        len == d.vpt.len() * inner,
    ensures
        jobs_of_rates(source_index, base, d, n).len() == n * len,
    decreases n,
{
    if n > 0 {
        rates_len(source_index, base, d, n - 1, len, inner);
        rate_len(source_index, base, d, d.hz[n - 1], d.vpt.len() as int, inner);
        assert((n - 1) * len + len == n * len) by (nonlinear_arith);
    } else {
        assert(n * len == 0) by (nonlinear_arith)
            requires
                n == 0,
        ;
    }
}

proof fn rates_at(
    source_index: usize,
    base: Seq<char>,
    d: Dimensions,
    n: int,
    len: int,
    inner: int,
    a: int,
    k: int,
)
    requires
        inner == d.qos.len() * d.modes.len(),
        len == d.vpt.len() * inner,
        0 <= a < n,
        0 <= k < len,
    ensures
        0 <= a * len + k < n * len,
        jobs_of_rates(source_index, base, d, n)[a * len + k] == jobs_of_rate(
            source_index,
            base,
            d,
            d.hz[a],
            d.vpt.len() as int,
        )[k],
    decreases n,
{
    within(a, n, k, len);
    rates_len(source_index, base, d, n - 1, len, inner);
    rate_len(source_index, base, d, d.hz[n - 1], d.vpt.len() as int, inner);
    if a < n - 1 {
        rates_at(source_index, base, d, n - 1, len, inner, a, k);
    }
}

proof fn regroup(a: int, v: int, b: int, q: int, c: int, n: int, m: int)
    ensures
        ((a * v + b) * q + c) * n + m == a * (v * (q * n)) + (b * (q * n) + (c * n + m)),
{
    let x = a * v + b;
    assert((x * q + c) * n == x * q * n + c * n) by (nonlinear_arith);
    assert(x * q * n == x * (q * n)) by (nonlinear_arith);
    let y = q * n;
    assert((a * v + b) * y == a * v * y + b * y) by (nonlinear_arith);
    assert(a * v * y == a * (v * y)) by (nonlinear_arith);
}

/// The expansion holds one spawn for each combination, the tick rate outermost, then
/// the number of values, the level, and the mode innermost.
pub proof fn every_combination_has_its_place(
    source_index: usize,
    base: Seq<char>,
    d: Dimensions,
    a: int,
    b: int,
    c: int,
    m: int,
)
    requires
        0 <= a < d.hz.len(),
        0 <= b < d.vpt.len(),
        0 <= c < d.qos.len(),
        0 <= m < d.modes.len(),
    ensures
        expansion(source_index, base, d).len() == d.hz.len() * (d.vpt.len() * (d.qos.len()
            * d.modes.len())),
        0 <= place(d, a, b, c, m) < expansion(source_index, base, d).len(),
        expansion(source_index, base, d)[place(d, a, b, c, m)] == job(
            source_index,
            base,
            d,
            d.hz[a],
            d.vpt[b],
            d.qos[c],
            d.modes[m],
        ),
{
    let v = d.vpt.len() as int;
    let q = d.qos.len() as int;
    let n = d.modes.len() as int;
    let inner = q * n;
    let len = v * inner;
    values_at(source_index, base, d, d.hz[a], d.vpt[b], q, n, c, m);
    rate_at(source_index, base, d, d.hz[a], v, inner, b, c * n + m);
    rates_at(source_index, base, d, d.hz.len() as int, len, inner, a, b * inner + (c * n + m));
    rates_len(source_index, base, d, d.hz.len() as int, len, inner);
    regroup(a, v, b, q, c, n, m);
}

proof fn mode_suffix_tells(d: Dimensions, a: ThreadingMode, b: ThreadingMode)
    requires
        mode_suffix(d, a) == mode_suffix(d, b),
    ensures
        d.modes.len() > 1 ==> a == b,
        mode_suffix(d, a).len() == 0 || !is_digit(mode_suffix(d, a)[0]),
{
    reveal_strlit("-");
    reveal_strlit("single");
    reveal_strlit("multi");
    if d.modes.len() > 1 && a != b {
        same_beginning("-"@, a.word(), b.word());
        assert("single"@.len() == 6 && "multi"@.len() == 5);
    }
}

proof fn rates_tell(
    d: Dimensions,
    hz1: u32,
    vpt1: u32,
    hz2: u32,
    vpt2: u32,
    rest1: Seq<char>,
    rest2: Seq<char>,
)
    requires
        rate_suffix(d, hz1, vpt1) + rest1 == rate_suffix(d, hz2, vpt2) + rest2,
    ensures
        d.hz.len() > 1 || d.vpt.len() > 1 ==> hz1 == hz2 && vpt1 == vpt2,
        rest1 == rest2,
{
    let r1 = rate_suffix(d, hz1, vpt1);
    let r2 = rate_suffix(d, hz2, vpt2);
    if d.hz.len() > 1 || d.vpt.len() > 1 {
        let v1 = decimal(vpt1 as nat);
        let v2 = decimal(vpt2 as nat);
        let h1 = decimal(hz1 as nat);
        let h2 = decimal(hz2 as nat);
        let t1 = "hz"@ + rest1;
        let t2 = "hz"@ + rest2;
        let u1 = "x"@ + (h1 + t1);
        let u2 = "x"@ + (h2 + t2);
        assert(r1 + rest1 =~= "-"@ + (v1 + u1));
        assert(r2 + rest2 =~= "-"@ + (v2 + u2));
        same_beginning("-"@, v1 + u1, v2 + u2);
        assert(u1[0] == 'x' && u2[0] == 'x' && t1[0] == 'h' && t2[0] == 'h') by {
            reveal_strlit("x");
            reveal_strlit("hz");
        }
        leading_number_is_told(vpt1 as nat, vpt2 as nat, u1, u2);
        same_beginning("x"@, h1 + t1, h2 + t2);
        leading_number_is_told(hz1 as nat, hz2 as nat, t1, t2);
        same_beginning("hz"@, rest1, rest2);
    } else {
        same_beginning(Seq::empty(), rest1, rest2);
    }
}

proof fn levels_tell(d: Dimensions, qos1: u8, qos2: u8, rest1: Seq<char>, rest2: Seq<char>)
    requires
        qos_suffix(d, qos1) + rest1 == qos_suffix(d, qos2) + rest2,
        rest1.len() == 0 || !is_digit(rest1[0]),
        rest2.len() == 0 || !is_digit(rest2[0]),
    ensures
        d.qos.len() > 1 ==> qos1 == qos2,
        rest1 == rest2,
{
    if d.qos.len() > 1 {
        let n1 = decimal(qos1 as nat);
        let n2 = decimal(qos2 as nat);
        assert(qos_suffix(d, qos1) + rest1 =~= "-qos"@ + (n1 + rest1));
        assert(qos_suffix(d, qos2) + rest2 =~= "-qos"@ + (n2 + rest2));
        same_beginning("-qos"@, n1 + rest1, n2 + rest2);
        leading_number_is_told(qos1 as nat, qos2 as nat, rest1, rest2);
    } else {
        same_beginning(Seq::empty(), rest1, rest2);
    }
}

/// The name of a spawn tells its combination: two spawns of one variant with the same
/// name agree in every dimension that has several values.
pub proof fn names_tell_combinations(
    base: Seq<char>,
    d: Dimensions,
    hz1: u32,
    vpt1: u32,
    qos1: u8,
    mode1: ThreadingMode,
    hz2: u32,
    vpt2: u32,
    qos2: u8,
    mode2: ThreadingMode,
)
    requires
        job_name(base, d, hz1, vpt1, qos1, mode1) == job_name(base, d, hz2, vpt2, qos2, mode2),
    ensures
        d.hz.len() > 1 || d.vpt.len() > 1 ==> hz1 == hz2 && vpt1 == vpt2,
        d.qos.len() > 1 ==> qos1 == qos2,
        d.modes.len() > 1 ==> mode1 == mode2,
{
    let r1 = rate_suffix(d, hz1, vpt1);
    let r2 = rate_suffix(d, hz2, vpt2);
    let q1 = qos_suffix(d, qos1);
    let q2 = qos_suffix(d, qos2);
    let m1 = mode_suffix(d, mode1);
    let m2 = mode_suffix(d, mode2);
    assert(base + (r1 + (q1 + m1)) =~= job_name(base, d, hz1, vpt1, qos1, mode1));
    assert(base + (r2 + (q2 + m2)) =~= job_name(base, d, hz2, vpt2, qos2, mode2));
    same_beginning(base, r1 + (q1 + m1), r2 + (q2 + m2));
    rates_tell(d, hz1, vpt1, hz2, vpt2, q1 + m1, q2 + m2);
    assert(q1 + m1 == q2 + m2);
    mode_suffix_tells(d, mode1, mode1);
    mode_suffix_tells(d, mode2, mode2);
    levels_tell(d, qos1, qos2, m1, m2);
    mode_suffix_tells(d, mode1, mode2);
}

proof fn names_differ(
    source_index: usize,
    base: Seq<char>,
    d: Dimensions,
    a1: int,
    b1: int,
    c1: int,
    m1: int,
    a2: int,
    b2: int,
    c2: int,
    m2: int,
)
    requires
        strictly_ascending(d.hz),
        strictly_ascending(d.vpt),
        levels_ascending(d.qos),
        d.modes.no_duplicates(),
        0 <= a1 < d.hz.len(),
        0 <= b1 < d.vpt.len(),
        0 <= c1 < d.qos.len(),
        0 <= m1 < d.modes.len(),
        0 <= a2 < d.hz.len(),
        0 <= b2 < d.vpt.len(),
        0 <= c2 < d.qos.len(),
        0 <= m2 < d.modes.len(),
        place(d, a1, b1, c1, m1) != place(d, a2, b2, c2, m2),
    ensures
        expansion(source_index, base, d)[place(d, a1, b1, c1, m1)].effective_name != expansion(
            source_index,
            base,
            d,
        )[place(d, a2, b2, c2, m2)].effective_name,
{
    every_combination_has_its_place(source_index, base, d, a1, b1, c1, m1);
    every_combination_has_its_place(source_index, base, d, a2, b2, c2, m2);
    let n1 = job_name(base, d, d.hz[a1], d.vpt[b1], d.qos[c1], d.modes[m1]);
    let n2 = job_name(base, d, d.hz[a2], d.vpt[b2], d.qos[c2], d.modes[m2]);
    if n1 == n2 {
        names_tell_combinations(
            base,
            d,
            d.hz[a1],
            d.vpt[b1],
            d.qos[c1],
            d.modes[m1],
            d.hz[a2],
            d.vpt[b2],
            d.qos[c2],
            d.modes[m2],
        );
        assert(a1 == a2 && b1 == b2 && c1 == c2 && m1 == m2);
    }
}

/// What a place in the expansion stands for.
pub struct Combination {
    pub a: int,
    pub b: int,
    pub c: int,
    pub m: int,
}

/// The combination that stands at a place.
pub open spec fn combination_at(d: Dimensions, k: int) -> Combination {
    let n = d.modes.len() as int;
    let q = d.qos.len() as int;
    let v = d.vpt.len() as int;
    Combination { a: k / n / q / v, b: k / n / q % v, c: k / n % q, m: k % n }
}

/// Every spawn of the expansion is that of one combination.
pub proof fn every_place_has_its_combination(source_index: usize, base: Seq<char>, d: Dimensions, k: int)
    requires
        0 <= k < expansion(source_index, base, d).len(),
    ensures
        ({
            let x = combination_at(d, k);
            &&& 0 <= x.a < d.hz.len()
            &&& 0 <= x.b < d.vpt.len()
            &&& 0 <= x.c < d.qos.len()
            &&& 0 <= x.m < d.modes.len()
            &&& place(d, x.a, x.b, x.c, x.m) == k
        }),
{
    let h = d.hz.len() as int;
    let v = d.vpt.len() as int;
    let q = d.qos.len() as int;
    let n = d.modes.len() as int;
    let inner = q * n;
    let len = v * inner;
    rates_len(source_index, base, d, h, len, inner);
    assert(h * len > 0);
    assert(n > 0 && q > 0 && v > 0 && h > 0) by (nonlinear_arith)
        requires
            h * (v * (q * n)) > 0,
            h >= 0,
            v >= 0,
            q >= 0,
            n >= 0,
    ;
    let k1 = k / n;
    let k2 = k1 / q;
    let a = k2 / v;
    vstd::arithmetic::div_mod::lemma_fundamental_div_mod(k, n);
    vstd::arithmetic::div_mod::lemma_fundamental_div_mod(k1, q);
    vstd::arithmetic::div_mod::lemma_fundamental_div_mod(k2, v);
    let x = combination_at(d, k);
    assert(k1 >= 0) by (nonlinear_arith)
        requires
            k1 == k / n,
            k >= 0,
            n > 0,
    ;
    assert(k2 >= 0) by (nonlinear_arith)
        requires
            k2 == k1 / q,
            k1 >= 0,
            q > 0,
    ;
    assert(a >= 0) by (nonlinear_arith)
        requires
            a == k2 / v,
            k2 >= 0,
            v > 0,
    ;
    assert(k2 == a * v + x.b) by (nonlinear_arith)
        requires
            k2 == v * a + x.b,
    ;
    assert(k1 == k2 * q + x.c) by (nonlinear_arith)
        requires
            k1 == q * k2 + x.c,
    ;
    assert(k == k1 * n + x.m) by (nonlinear_arith)
        requires
            k == n * k1 + x.m,
    ;
    assert(0 <= x.b < v && 0 <= x.c < q && 0 <= x.m < n);
    if a >= h {
        regroup(a, v, x.b, q, x.c, n, x.m);
        assert(k == a * len + (x.b * inner + (x.c * n + x.m)));
        assert(a * len >= h * len) by (nonlinear_arith)
            requires
                a >= h,
                len >= 0,
        ;
        assert(x.b * inner >= 0) by (nonlinear_arith)
            requires
                x.b >= 0,
                inner >= 0,
        ;
        assert(x.c * n >= 0) by (nonlinear_arith)
            requires
                x.c >= 0,
                n >= 0,
        ;
    }
}

/// The dimensions of a variant that can be read are ascending, no mode occurs twice, and
/// none of them is empty.
pub proof fn dimensions_are_listings(v: VariantView)
    requires
        dimensions(v) is Ok,
    ensures
        strictly_ascending(dimensions(v)->Ok_0.hz),
        strictly_ascending(dimensions(v)->Ok_0.vpt),
        levels_ascending(dimensions(v)->Ok_0.qos),
        dimensions(v)->Ok_0.modes.no_duplicates(),
        dimensions(v)->Ok_0.hz.len() >= 1,
        dimensions(v)->Ok_0.vpt.len() >= 1,
        dimensions(v)->Ok_0.qos.len() >= 1,
        dimensions(v)->Ok_0.modes.len() >= 1,
{
    let hz = required_positive(v.common, "tick_rate_hz"@)->Ok_0;
    let vpt = required_positive(v.common, "values_per_tick"@)->Ok_0;
    let qos = qos_reading(lookup(v.common, "qos"@))->Ok_0;
    number_listing_facts(hz);
    number_listing_facts(vpt);
    level_listing_facts(qos);
    positive_is_not_empty(hz);
    positive_is_not_empty(vpt);
    let level = match qos {
        QosView::Single(n) => n,
        QosView::Multi(l) => l[0],
        QosView::All => 1u8,
    };
    assert(qos.has(level));
    assert(level_listing(qos).contains(level));
    let modes = modes_reading(lookup(v.common, "threading_modes"@))->Ok_0;
    modes_reading_nonempty(v);
    assert(modes.contains(modes[0]));
}

proof fn positive_is_not_empty(view: PositiveView)
    requires
        view.flaw() is None,
    ensures
        number_listing(view).len() >= 1,
{
    number_listing_facts(view);
    let n = match view {
        PositiveView::Single(n) => n,
        PositiveView::Multi(v) => v[0],
    };
    assert(view.has(n));
    assert(number_listing(view).contains(n));
}

proof fn modes_reading_nonempty(v: VariantView)
    requires
        dimensions(v) is Ok,
    ensures
        modes_reading(lookup(v.common, "threading_modes"@))->Ok_0.len() > 0,
{
    match lookup(v.common, "threading_modes"@) {
        Some(ValueView::Array { items, rendered }) => {
            modes_named_len(items);
        },
        _ => {},
    }
}

/// No two spawns of a variant have the same name.
pub proof fn spawn_names_are_distinct(source_index: usize, v: VariantView, i: int, j: int)
    requires
        dimensions(v) is Ok,
        0 <= i < j < expansion(source_index, v.name, dimensions(v)->Ok_0).len(),
    ensures
        ({
            let jobs = expansion(source_index, v.name, dimensions(v)->Ok_0);
            jobs[i].effective_name != jobs[j].effective_name
        }),
{
    let d = dimensions(v)->Ok_0;
    dimensions_are_listings(v);
    every_place_has_its_combination(source_index, v.name, d, i);
    every_place_has_its_combination(source_index, v.name, d, j);
    let x = combination_at(d, i);
    let y = combination_at(d, j);
    names_differ(source_index, v.name, d, x.a, x.b, x.c, x.m, y.a, y.b, y.c, y.m);
}

/// Every spawn of the expansion carries the place of its variant in the config.
pub proof fn spawns_carry_their_variant(source_index: usize, base: Seq<char>, d: Dimensions)
    ensures
        forall|k: int|
            0 <= k < expansion(source_index, base, d).len() ==> (#[trigger] expansion(
                source_index,
                base,
                d,
            )[k]).source_index == source_index,
{
    let jobs = expansion(source_index, base, d);
    assert forall|k: int| 0 <= k < jobs.len() implies (#[trigger] jobs[k]).source_index
        == source_index by {
        every_place_has_its_combination(source_index, base, d, k);
        let x = combination_at(d, k);
        every_combination_has_its_place(source_index, base, d, x.a, x.b, x.c, x.m);
    }
}

/// A variant that can be read has at least one spawn, and one for each combination of its
/// values.
pub proof fn count_of_spawns(source_index: usize, v: VariantView)
    requires
        dimensions(v) is Ok,
    ensures
        ({
            let d = dimensions(v)->Ok_0;
            let count = expansion(source_index, v.name, d).len();
            count == d.hz.len() * (d.vpt.len() * (d.qos.len() * d.modes.len())) && count >= 1
        }),
{
    let d = dimensions(v)->Ok_0;
    dimensions_are_listings(v);
    every_combination_has_its_place(source_index, v.name, d, 0, 0, 0, 0);
}

/// The values of the dimensions are just those that the config gives. A variant can be
/// expanded just where each of its five settings can be read.
pub proof fn dimensions_are_those_of_the_config(v: VariantView)
    ensures
        dimensions(v) is Ok <==> {
            &&& v.common.contains_key("tick_rate_hz"@) && positive_reading(v.common["tick_rate_hz"@]) is Ok
            &&& v.common.contains_key("values_per_tick"@) && positive_reading(v.common["values_per_tick"@]) is Ok
            &&& qos_reading(lookup(v.common, "qos"@)) is Ok
            &&& modes_reading(lookup(v.common, "threading_modes"@)) is Ok
            &&& recv_buffer_reading(lookup(v.common, "recv_buffer_kb"@)) is Ok
        },
        dimensions(v) is Ok ==> {
            let d = dimensions(v)->Ok_0;
            &&& forall|n: u32| #[trigger] d.hz.contains(n) <==> gives_number(v.common["tick_rate_hz"@], n as i64)
            &&& forall|n: u32|
                #[trigger] d.vpt.contains(n) <==> gives_number(v.common["values_per_tick"@], n as i64)
            &&& forall|n: u8|
                #[trigger] d.qos.contains(n) <==> (if v.common.contains_key("qos"@) {
                    gives_number(v.common["qos"@], n as i64)
                } else {
                    1 <= n <= 4
                })
            &&& v.common.contains_key("recv_buffer_kb"@) ==> v.common["recv_buffer_kb"@] == ValueView::Integer(
                d.recv_buffer_kb as i64,
            )
            &&& !v.common.contains_key("recv_buffer_kb"@) ==> d.recv_buffer_kb == 4096
            &&& d.modes == ThreadingSpec::listing(modes_reading(lookup(v.common, "threading_modes"@))->Ok_0)
        },
{
    if dimensions(v) is Ok {
        positive_setting_in_full(v.common["tick_rate_hz"@]);
        positive_setting_in_full(v.common["values_per_tick"@]);
        qos_setting_in_full(lookup(v.common, "qos"@));
        buffer_setting_in_full(lookup(v.common, "recv_buffer_kb"@));
    }
}

/// Every spawn of a variant, in full: it has one value of each dimension, the buffer of the
/// variant, its place in the config, and as its name that of the variant with the number of
/// values and the rate, with the level and with the mode behind it, each of them just where
/// the variant has several. And there is a spawn for each such combination of values.
pub proof fn spawns_in_full(
    source_index: usize,
    base: Seq<char>,
    d: Dimensions,
    hz: u32,
    vpt: u32,
    qos: u8,
    mode: ThreadingMode,
)
    ensures
        ({
            let jobs = expansion(source_index, base, d);
            let rates = if d.hz.len() > 1 || d.vpt.len() > 1 {
                "-"@ + decimal(vpt as nat) + "x"@ + decimal(hz as nat) + "hz"@
            } else {
                Seq::empty()
            };
            let level = if d.qos.len() > 1 {
                "-qos"@ + decimal(qos as nat)
            } else {
                Seq::empty()
            };
            let threads = if d.modes.len() <= 1 {
                Seq::empty()
            } else if mode == ThreadingMode::Single {
                "-"@ + "single"@
            } else {
                "-"@ + "multi"@
            };
            &&& d.hz.contains(hz) && d.vpt.contains(vpt) && d.qos.contains(qos) && d.modes.contains(mode)
                <==> exists|k: int|
                0 <= k < jobs.len() && (#[trigger] jobs[k]).tick_rate_hz == hz && jobs[k].values_per_tick == vpt
                    && jobs[k].qos == qos && jobs[k].threading_mode == mode
            &&& forall|k: int|
                0 <= k < jobs.len() && (#[trigger] jobs[k]).tick_rate_hz == hz && jobs[k].values_per_tick == vpt
                    && jobs[k].qos == qos && jobs[k].threading_mode == mode ==> {
                    &&& jobs[k].source_index == source_index
                    &&& jobs[k].recv_buffer_kb == d.recv_buffer_kb
                    &&& jobs[k].effective_name == base + rates + level + threads
                }
        }),
{
    let jobs = expansion(source_index, base, d);
    if d.hz.contains(hz) && d.vpt.contains(vpt) && d.qos.contains(qos) && d.modes.contains(mode) {
        let a = choose|a: int| 0 <= a < d.hz.len() && d.hz[a] == hz;
        let b = choose|b: int| 0 <= b < d.vpt.len() && d.vpt[b] == vpt;
        let c = choose|c: int| 0 <= c < d.qos.len() && d.qos[c] == qos;
        let m = choose|m: int| 0 <= m < d.modes.len() && d.modes[m] == mode;
        every_combination_has_its_place(source_index, base, d, a, b, c, m);
        let k = place(d, a, b, c, m);
        assert(jobs[k].tick_rate_hz == hz);
    }
    assert forall|k: int| 0 <= k < jobs.len() implies ({
        let x = combination_at(d, k);
        &&& 0 <= x.a < d.hz.len() && 0 <= x.b < d.vpt.len() && 0 <= x.c < d.qos.len() && 0 <= x.m
            < d.modes.len()
        &&& #[trigger] jobs[k] == job(source_index, base, d, d.hz[x.a], d.vpt[x.b], d.qos[x.c], d.modes[x.m])
    }) by {
        every_place_has_its_combination(source_index, base, d, k);
        let x = combination_at(d, k);
        every_combination_has_its_place(source_index, base, d, x.a, x.b, x.c, x.m);
    }
}

/// The spawns of a variant are ordered by their rate, then by their number of values, then
/// by their level, and then by their mode, the multi-threaded one first.
pub proof fn spawns_are_ordered(source_index: usize, v: VariantView, i: int, j: int)
    requires
        dimensions(v) is Ok,
        0 <= i < j < expansion(source_index, v.name, dimensions(v)->Ok_0).len(),
    ensures
        ({
            let jobs = expansion(source_index, v.name, dimensions(v)->Ok_0);
            let (x, y) = (jobs[i], jobs[j]);
            &&& x.tick_rate_hz <= y.tick_rate_hz
            &&& x.tick_rate_hz == y.tick_rate_hz ==> x.values_per_tick <= y.values_per_tick
            &&& x.tick_rate_hz == y.tick_rate_hz && x.values_per_tick == y.values_per_tick ==> x.qos <= y.qos
            &&& x.tick_rate_hz == y.tick_rate_hz && x.values_per_tick == y.values_per_tick && x.qos == y.qos
                ==> x.threading_mode == ThreadingMode::Multi && y.threading_mode == ThreadingMode::Single
        }),
{
    let d = dimensions(v)->Ok_0;
    dimensions_are_listings(v);
    every_place_has_its_combination(source_index, v.name, d, i);
    every_place_has_its_combination(source_index, v.name, d, j);
    let x = combination_at(d, i);
    let y = combination_at(d, j);
    every_combination_has_its_place(source_index, v.name, d, x.a, x.b, x.c, x.m);
    every_combination_has_its_place(source_index, v.name, d, y.a, y.b, y.c, y.m);
    let n = d.modes.len() as int;
    let q = d.qos.len() as int;
    let p = d.vpt.len() as int;
    vstd::arithmetic::div_mod::lemma_div_is_ordered(i, j, n);
    vstd::arithmetic::div_mod::lemma_div_is_ordered(i / n, j / n, q);
    vstd::arithmetic::div_mod::lemma_div_is_ordered(i / n / q, j / n / q, p);
    vstd::arithmetic::div_mod::lemma_fundamental_div_mod(i, n);
    vstd::arithmetic::div_mod::lemma_fundamental_div_mod(j, n);
    vstd::arithmetic::div_mod::lemma_fundamental_div_mod(i / n, q);
    vstd::arithmetic::div_mod::lemma_fundamental_div_mod(j / n, q);
    vstd::arithmetic::div_mod::lemma_fundamental_div_mod(i / n / q, p);
    vstd::arithmetic::div_mod::lemma_fundamental_div_mod(j / n / q, p);
    assert(x.a <= y.a);
    if x.a == y.a {
        assert(x.b <= y.b);
        if x.b == y.b {
            assert(i / n / q == j / n / q);
            assert(x.c <= y.c);
            if x.c == y.c {
                assert(i / n == j / n);
                assert(x.m < y.m);
                assert(d.modes.len() == 2);
            }
        }
    }
}

/// What a spawn is taken for is what it holds.
pub proof fn spawns_are_taken_for_what_they_are(jobs: Seq<SpawnJob>)
    ensures
        job_views(jobs).len() == jobs.len(),
        forall|i: int|
            0 <= i < jobs.len() ==> {
                let j = job_views(jobs)[i];
                &&& j.source_index == (#[trigger] jobs[i]).source_index
                &&& j.effective_name == jobs[i].effective_name@
                &&& j.tick_rate_hz == jobs[i].tick_rate_hz && j.values_per_tick == jobs[i].values_per_tick
                &&& j.qos == jobs[i].qos && j.threading_mode == jobs[i].threading_mode
                &&& j.recv_buffer_kb == jobs[i].recv_buffer_kb
            },
{
}

/// What a variant is expanded into: just where all its settings can be used, one spawn for each
/// combination of what they say and no other, each with the place of the variant and with the
/// size of the buffer; no two of them have the same name.
pub proof fn variant_is_expanded_in_full(
    index: usize,
    variant: &VariantConfig,
    r: Result<Vec<SpawnJob>, SpecError>,
    hz: u32,
    vpt: u32,
    qos: u8,
    mode: ThreadingMode,
)
    requires
        call_ensures(expand_variant, (index, variant), r),
    ensures
        r is Ok <==> dimensions(variant@) is Ok,
        r is Ok ==> {
            let jobs = r->Ok_0@;
            let d = dimensions(variant@)->Ok_0;
            &&& jobs.len() == d.hz.len() * (d.vpt.len() * (d.qos.len() * d.modes.len()))
            &&& d.hz.contains(hz) && d.vpt.contains(vpt) && d.qos.contains(qos) && d.modes.contains(mode)
                <==> exists|k: int|
                0 <= k < jobs.len() && (#[trigger] jobs[k]).tick_rate_hz == hz && jobs[k].values_per_tick
                    == vpt && jobs[k].qos == qos && jobs[k].threading_mode == mode
            &&& forall|k: int|
                0 <= k < jobs.len() ==> (#[trigger] jobs[k]).source_index == index
                    && jobs[k].recv_buffer_kb == d.recv_buffer_kb
            &&& forall|i: int, j: int|
                0 <= i < j < jobs.len() ==> (#[trigger] jobs[i]).effective_name@ != (
                #[trigger] jobs[j]).effective_name@
        },
{
    if let Ok(v) = r {
        let d = dimensions(variant@)->Ok_0;
        let e = expansion(index, variant@.name, d);
        assert(job_views(v@) == e);
        spawns_are_taken_for_what_they_are(v@);
        assert forall|k: int| 0 <= k < v@.len() implies #[trigger] e[k] == (#[trigger] v@[k])@ by {}
        count_of_spawns(index, variant@);
        spawns_in_full(index, variant@.name, d, hz, vpt, qos, mode);
        assert forall|k: int| 0 <= k < v@.len() implies (#[trigger] v@[k]).source_index == index
            && v@[k].recv_buffer_kb == d.recv_buffer_kb by {
            assert(e[k] == v@[k]@);
            spawns_in_full(
                index,
                variant@.name,
                d,
                e[k].tick_rate_hz,
                e[k].values_per_tick,
                e[k].qos,
                e[k].threading_mode,
            );
        }
        assert forall|i: int, j: int| 0 <= i < j < v@.len() implies (#[trigger] v@[i]).effective_name@ != (
        #[trigger] v@[j]).effective_name@ by {
            spawn_names_are_distinct(index, variant@, i, j);
            assert(e[i] == v@[i]@ && e[j] == v@[j]@);
        }
        if d.hz.contains(hz) && d.vpt.contains(vpt) && d.qos.contains(qos) && d.modes.contains(mode) {
            let k = choose|k: int|
                0 <= k < e.len() && (#[trigger] e[k]).tick_rate_hz == hz && e[k].values_per_tick == vpt
                    && e[k].qos == qos && e[k].threading_mode == mode;
            assert(e[k] == v@[k]@);
        }
        if exists|k: int|
            0 <= k < v@.len() && (#[trigger] v@[k]).tick_rate_hz == hz && v@[k].values_per_tick == vpt
                && v@[k].qos == qos && v@[k].threading_mode == mode {
            let k = choose|k: int|
                0 <= k < v@.len() && (#[trigger] v@[k]).tick_rate_hz == hz && v@[k].values_per_tick == vpt
                    && v@[k].qos == qos && v@[k].threading_mode == mode;
            assert(e[k] == v@[k]@);
        }
    }
}

} // verus!
