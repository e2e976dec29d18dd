//! The run as a whole: which spawns there are, in which folder they log, what happens to
//! each of them, and what the operator gets to see.

use crate::analyze::{runner_line, runner_prefix};
use crate::clock_sync::PeerMeasurement;
use crate::config::{
    as_items, lookup, optional_text, variant_views, BenchConfig, SpecError, ThreadingMode,
    VariantConfig, VariantView,
};
use crate::dimensions::{has_mode, modes_named};
use crate::names::{has_name, listing, listing_holds, name_set, texts, NameMap, NameSet};
use crate::progress_eta::{
    estimate_eta, eta_nanos, format_hms, hms, nominal_nanos, spawn_nominal_duration, underway,
};
use crate::protocol::outcomes;
use crate::spawn_job::{
    count_of_spawns, dimensions, expand_variant, expansion, job_views, spawns_carry_their_variant,
    JobView, SettingFlaw, SpawnJob,
};
use crate::text::{
    chars_of, decimal, decimal_i64, decimal_int, decimal_u64, name_lt, same, show_list, shown_list,
};
use crate::time::{Duration, MAX_NANOS, NANOS_PER_SEC};
use crate::toml_value::toml_value_to_string;
use vstd::prelude::*;

verus! {

/// The exit code of a runner whose barrier was not reached in time: the run may be
/// resumed.
pub const EX_TEMPFAIL: i32 = 75;

// ---------------------------------------------------------------------
// Before the run
// ---------------------------------------------------------------------

/// The runners other than `name`, in the order of the config.
pub open spec fn others(runners: Seq<Seq<char>>, name: Seq<char>) -> Seq<Seq<char>> {
    runners.filter(|n: Seq<char>| n != name)
}

/// The runners other than `name`, in the order of the config.
pub fn peers_of(runners: &[String], name: &str) -> (r: Vec<String>)
    ensures
        texts(r@) == others(texts(runners@), name@),
{
    broadcast use vstd::seq_lib::group_filter_ensures;

    let ghost t = texts(runners@);
    let ghost keep = |n: Seq<char>| n != name@;
    let mut r: Vec<String> = Vec::new();
    assert(texts(r@) =~= t.take(0).filter(keep));
    for i in 0..runners.len()
        invariant
            t == texts(runners@),
            keep == (|n: Seq<char>| n != name@),
            texts(r@) == t.take(i as int).filter(keep),
    {
        let ghost before = r@;
        proof {
            let next = t.take(i + 1);
            assert(next.drop_last() =~= t.take(i as int));
            assert(next.last() == runners@[i as int]@);
            reveal(Seq::filter);
        }
        if !same(runners[i].as_str(), name) {
            r.push(runners[i].clone());
            assert(texts(r@) =~= texts(before).push(runners@[i as int]@));
        }
    }
    assert(t.take(t.len() as int) =~= t);
    r
}

/// Checks that the runner is one of the config's.
pub fn require_known_runner(name: &str, runners: &[String]) -> (r: Result<(), String>)
    ensures
        match r {
            Ok(()) => name_set(runners@).contains(name@),
            Err(e) => !name_set(runners@).contains(name@) && e@ == "runner name '"@ + name@
                + "' is not in the config runners list: "@ + shown_list(texts(runners@)),
        },
{
    if has_name(runners, name) {
        return Ok(());
    }
    let mut s = "runner name '".to_owned();
    s.append(name);
    s.append("' is not in the config runners list: ");
    s.append(show_list(runners).as_str());
    Err(s)
}

/// Checks that the first measurement of the clocks reached every peer: without it the
/// times of two machines cannot be compared.
pub fn require_initial_sync_complete(failed_peers: &[String]) -> (r: Result<(), String>)
    ensures
        match r {
            Ok(()) => failed_peers@.len() == 0,
            Err(e) => failed_peers@.len() > 0 && e@ == "initial clock-sync failed for peers: "@
                + shown_list(texts(failed_peers@)),
        },
{
    if failed_peers.len() == 0 {
        return Ok(());
    }
    let mut s = "initial clock-sync failed for peers: ".to_owned();
    s.append(show_list(failed_peers).as_str());
    Err(s)
}

/// The peers without a measurement, in their order.
pub open spec fn unmeasured(
    peers: Seq<Seq<char>>,
    measurements: Map<Seq<char>, PeerMeasurement>,
) -> Seq<Seq<char>> {
    peers.filter(
        |p: Seq<char>| !(measurements.contains_key(p) && measurements[p].measurement is Some),
    )
}

/// The peers without a measurement, in their order.
pub fn failed_peers(peers: &[String], measurements: &NameMap<PeerMeasurement>) -> (r: Vec<String>)
    ensures
        texts(r@) == unmeasured(texts(peers@), measurements@),
{
    let ghost t = texts(peers@);
    let ghost keep = |p: Seq<char>|
        !(measurements@.contains_key(p) && measurements@[p].measurement is Some);
    let mut r: Vec<String> = Vec::new();
    proof {
        reveal(Seq::filter);
        assert(texts(r@) =~= t.take(0).filter(keep));
    }
    for i in 0..peers.len()
        invariant
            t == texts(peers@),
            keep == (|p: Seq<char>|
                !(measurements@.contains_key(p) && measurements@[p].measurement is Some)),
            texts(r@) == t.take(i as int).filter(keep),
    {
        let ghost before = r@;
        proof {
            let next = t.take(i + 1);
            assert(next.drop_last() =~= t.take(i as int));
            assert(next.last() == peers@[i as int]@);
            reveal(Seq::filter);
        }
        let measured: bool = match measurements.get(peers[i].as_str()) {
            Some(m) => m.measurement.is_some(),
            None => false,
        };
        if !measured {
            r.push(peers[i].clone());
            assert(texts(r@) =~= texts(before).push(peers@[i as int]@));
        }
    }
    assert(t.take(t.len() as int) =~= t);
    r
}

/// Where the log folder was set.
#[derive(Debug, Clone, Copy, PartialEq, Eq, Structural)]
pub enum LogDirSource {
    /// On the command line.
    CommandLine,
    /// In the config, for the runner.
    RunnerConfig,
    /// In the config, for a variant.
    VariantConfig,
    /// Nowhere.
    Default,
}

impl LogDirSource {
    /// The source as the operator sees it.
    pub open spec fn text(self) -> Seq<char> {
        match self {
            LogDirSource::CommandLine => "--log-dir CLI flag"@,
            LogDirSource::RunnerConfig => "[runner] log_dir TOML key"@,
            LogDirSource::VariantConfig => "[variant.common].log_dir (legacy fallback)"@,
            LogDirSource::Default => "default './logs'"@,
        }
    }

    /// The source as the operator sees it.
    pub fn describe(self) -> (r: &'static str)
        ensures
            r@ == self.text(),
    {
        match self {
            LogDirSource::CommandLine => "--log-dir CLI flag",
            LogDirSource::RunnerConfig => "[runner] log_dir TOML key",
            LogDirSource::VariantConfig => "[variant.common].log_dir (legacy fallback)",
            LogDirSource::Default => "default './logs'",
        }
    }
}

/// The log folder that the first of these variants sets that sets one.
pub open spec fn first_variant_log_dir(vs: Seq<VariantView>) -> Option<Seq<char>>
    decreases vs.len(),
{
    if vs.len() == 0 {
        None
    } else {
        match first_variant_log_dir(vs.drop_last()) {
            Some(s) => Some(s),
            None => match lookup(vs.last().common, "log_dir"@) {
                Some(v) => Some(v.text()),
                None => None,
            },
        }
    }
}

proof fn first_log_dir_stays(vs: Seq<VariantView>, n: int)
    requires
        0 <= n <= vs.len(),
        first_variant_log_dir(vs.take(n)) is Some,
    ensures
        first_variant_log_dir(vs) == first_variant_log_dir(vs.take(n)),
    decreases vs.len(),
{
    if n < vs.len() {
        assert(vs.drop_last().take(n) =~= vs.take(n));
        first_log_dir_stays(vs.drop_last(), n);
    } else {
        assert(vs.take(n) =~= vs);
    }
}

/// What an optional text is.
pub open spec fn optional_str(s: Option<&str>) -> Option<Seq<char>> {
    match s {
        Some(s) => Some(s@),
        None => None,
    }
}

/// The folder under which each run has its own, and where that was set: the command line
/// comes first, then the runner's entry in the config, then the first variant that sets a
/// folder, and last a default.
pub open spec fn base_log_dir(
    cli: Option<Seq<char>>,
    runner: Option<Seq<char>>,
    vs: Seq<VariantView>,
) -> (Seq<char>, LogDirSource) {
    match cli {
        Some(s) => (s, LogDirSource::CommandLine),
        None => match runner {
            Some(s) => (s, LogDirSource::RunnerConfig),
            None => match first_variant_log_dir(vs) {
                Some(s) => (s, LogDirSource::VariantConfig),
                None => ("./logs"@, LogDirSource::Default),
            },
        },
    }
}

/// The folder under which each run has its own, and where that was set.
pub fn resolve_base_log_dir(cli: Option<&str>, config: &BenchConfig) -> (r: (String, LogDirSource))
    ensures
        (r.0@, r.1) == base_log_dir(
            optional_str(cli),
            optional_text(config.log_dir),
            variant_views(config.variant@),
        ),
{
    match cli {
        Some(s) => return (s.to_owned(), LogDirSource::CommandLine),
        None => {},
    }
    match config.runner_log_dir() {
        Some(s) => return (s.to_owned(), LogDirSource::RunnerConfig),
        None => {},
    }
    let ghost vs = variant_views(config.variant@);
    for i in 0..config.variant.len()
        invariant
            vs == variant_views(config.variant@),
            cli is None,
            config.log_dir is None,
            first_variant_log_dir(vs.take(i as int)) is None,
    {
        proof {
            assert(vs.take(i + 1).drop_last() =~= vs.take(i as int));
            assert(vs.take(i + 1).last() == config.variant@[i as int]@);
        }
        match config.variant[i].common.get("log_dir") {
            Some(v) => {
                proof {
                    first_log_dir_stays(vs, i + 1);
                }
                return (toml_value_to_string(v), LogDirSource::VariantConfig);
            },
            None => {},
        }
    }
    assert(vs.take(vs.len() as int) =~= vs);
    ("./logs".to_owned(), LogDirSource::Default)
}

/// A folder in a folder.
pub open spec fn subfolder(base: Seq<char>, name: Seq<char>) -> Seq<char> {
    base + "/"@ + name
}

/// A folder in a folder.
pub fn join_folder(base: &str, name: &str) -> (r: String)
    ensures
        r@ == subfolder(base@, name@),
{
    let mut s = base.to_owned();
    s.append("/");
    s.append(name);
    s
}

/// The name of a fresh log folder: the run's name, a dash and the time.
pub fn fresh_log_subdir(run: &str, stamp: &str) -> (r: String)
    ensures
        r@ == run@ + "-"@ + stamp@,
{
    let mut s = run.to_owned();
    s.append("-");
    s.append(stamp);
    s
}

/// The folder that a spawn logs into: that of the run where the runner's folder is set,
/// else one in the variant's own folder, and none where the variant sets none.
pub fn spawn_log_dir(
    cli: Option<&str>,
    config: &BenchConfig,
    variant: &VariantConfig,
    base: &str,
    log_subdir: &str,
) -> (r: Option<String>)
    ensures
        optional_text(r) == (if cli is Some || config.log_dir is Some {
            Some(subfolder(base@, log_subdir@))
        } else {
            match lookup(variant@.common, "log_dir"@) {
                Some(v) => Some(subfolder(v.text(), log_subdir@)),
                None => None,
            }
        }),
{
    if cli.is_some() || config.log_dir.is_some() {
        return Some(join_folder(base, log_subdir));
    }
    match variant.common.get("log_dir") {
        Some(v) => Some(join_folder(toml_value_to_string(v).as_str(), log_subdir)),
        None => None,
    }
}

// ---------------------------------------------------------------------
// The spawns of the run
// ---------------------------------------------------------------------

/// The spawns of a run and what is to be said about them.
#[derive(Debug, PartialEq, Eq)]
pub struct GatedJobs {
    /// Each spawn with the place of its variant in the config.
    pub jobs: Vec<(usize, SpawnJob)>,
    pub report: Vec<String>,
}

/// What the spawns of a run are, and what is to be said about them.
pub struct GatedView {
    pub jobs: Seq<JobView>,
    pub report: Seq<Seq<char>>,
}

/// The spawns.
pub open spec fn pair_views(jobs: Seq<(usize, SpawnJob)>) -> Seq<JobView> {
    Seq::new(jobs.len(), |i: int| jobs[i].1@)
}

/// The modes that a variant says it supports.
pub open spec fn declared_modes(v: VariantView) -> Result<Option<Seq<ThreadingMode>>, SettingFlaw> {
    match v.supported_modes {
        None => Ok(None),
        Some(words) => match modes_named(as_items(words)) {
            Ok(modes) => Ok(Some(modes)),
            Err(flaw) => Err(SettingFlaw { field: "supported_modes"@, flaw }),
        },
    }
}

/// The line about a spawn that is left out.
pub open spec fn skip_line(runner: Seq<char>, job: JobView) -> Seq<char> {
    runner_prefix(runner) + "skipping "@ + job.effective_name
        + ": variant does not support threading_mode="@ + job.threading_mode.word()
}

/// The line about a variant that does not say which modes it supports.
pub open spec fn permissive_line(runner: Seq<char>, variant: Seq<char>) -> Seq<char> {
    runner_prefix(runner) + "note: variant '"@ + variant
        + "' has no supported_modes declared; treating every requested threading_mode as supported"@
}

/// Of a variant's spawns those whose mode it supports, with a line about each of the
/// others.
pub open spec fn gate(jobs: Seq<JobView>, modes: Seq<ThreadingMode>, runner: Seq<char>) -> GatedView
    decreases jobs.len(),
{
    if jobs.len() == 0 {
        GatedView { jobs: Seq::empty(), report: Seq::empty() }
    } else {
        let before = gate(jobs.drop_last(), modes, runner);
        let job = jobs.last();
        if modes.contains(job.threading_mode) {
            GatedView { jobs: before.jobs.push(job), report: before.report }
        } else {
            GatedView { jobs: before.jobs, report: before.report.push(skip_line(runner, job)) }
        }
    }
}

/// The spawns of a variant: those whose mode it supports or, where it does not say which
/// it supports, all of them with one line about that.
pub open spec fn gated_variant(index: usize, v: VariantView, runner: Seq<char>) -> Result<
    GatedView,
    SettingFlaw,
> {
    match declared_modes(v) {
        Err(e) => Err(e),
        Ok(declared) => match dimensions(v) {
            Err(e) => Err(e),
            Ok(d) => {
                let jobs = expansion(index, v.name, d);
                match declared {
                    Some(modes) => Ok(gate(jobs, modes, runner)),
                    None => Ok(
                        GatedView {
                            jobs,
                            report: if jobs.len() == 0 {
                                Seq::empty()
                            } else {
                                seq![permissive_line(runner, v.name)]
                            },
                        },
                    ),
                }
            },
        },
    }
}

/// The spawns of all variants, in the order of the config; the first setting that cannot
/// be read is the error.
pub open spec fn gated(vs: Seq<VariantView>, runner: Seq<char>) -> Result<GatedView, SettingFlaw>
    decreases vs.len(),
{
    if vs.len() == 0 {
        Ok(GatedView { jobs: Seq::empty(), report: Seq::empty() })
    } else {
        match gated(vs.drop_last(), runner) {
            Err(e) => Err(e),
            Ok(before) => match gated_variant((vs.len() - 1) as usize, vs.last(), runner) {
                Err(e) => Err(e),
                Ok(more) => Ok(
                    GatedView { jobs: before.jobs + more.jobs, report: before.report + more.report },
                ),
            },
        }
    }
}

proof fn gated_error_stays(vs: Seq<VariantView>, runner: Seq<char>, n: int)
    requires
        0 <= n <= vs.len(),
        gated(vs.take(n), runner) is Err,
    ensures
        gated(vs, runner) == gated(vs.take(n), runner),
    decreases vs.len(),
{
    if n < vs.len() {
        assert(vs.drop_last().take(n) =~= vs.take(n));
        gated_error_stays(vs.drop_last(), runner, n);
    } else {
        assert(vs.take(n) =~= vs);
    }
}

fn skip_notice(runner: &str, job: &SpawnJob) -> (r: String)
    ensures
        r@ == skip_line(runner@, job@),
{
    let mut s = runner_line(runner);
    s.append("skipping ");
    s.append(job.effective_name.as_str());
    s.append(": variant does not support threading_mode=");
    s.append(job.threading_mode.as_str());
    s
}

fn permissive_notice(runner: &str, variant: &str) -> (r: String)
    ensures
        r@ == permissive_line(runner@, variant@),
{
    let mut s = runner_line(runner);
    s.append("note: variant '");
    s.append(variant);
    s.append("' has no supported_modes declared; treating every requested threading_mode as supported");
    s
}

fn gate_variant(index: usize, variant: &VariantConfig, runner: &str, out: &mut GatedJobs) -> (r: Result<
    (),
    SpecError,
>)
    ensures
        match gated_variant(index, variant@, runner@) {
            Ok(more) => {
                &&& r is Ok
                &&& pair_views(final(out).jobs@) == pair_views(old(out).jobs@) + more.jobs
                &&& texts(final(out).report@) == texts(old(out).report@) + more.report
                &&& final(out).jobs@.len() >= old(out).jobs@.len()
                &&& final(out).jobs@.take(old(out).jobs@.len() as int) == old(out).jobs@
                &&& forall|i: int|
                    old(out).jobs@.len() <= i < final(out).jobs@.len() ==> (#[trigger] final(out).jobs@[i]).0
                        == index && final(out).jobs@[i].1.source_index == index
            },
            Err(e) => r is Err && r->Err_0.field@ == e.field && r->Err_0.flaw() == e.flaw,
        },
{
    let declared = match variant.supported_modes_resolved() {
        Ok(d) => d,
        Err(e) => return Err(e),
    };
    let mut jobs = match expand_variant(index, variant) {
        Ok(j) => j,
        Err(e) => return Err(e),
    };
    let ghost all = job_views(jobs@);
    proof {
        spawns_carry_their_variant(index, variant@.name, dimensions(variant@)->Ok_0);
    }
    let ghost start = pair_views(out.jobs@);
    let ghost first = out.jobs@;
    let ghost said = texts(out.report@);
    let n: usize = jobs.len();
    match declared {
        None => {
            if n > 0 {
                let ghost before = out.report@;
                out.report.push(permissive_notice(runner, variant.name.as_str()));
                assert(texts(out.report@) =~= texts(before).push(permissive_line(runner@, variant@.name)));
                assert(texts(out.report@) =~= said + seq![permissive_line(runner@, variant@.name)]);
            } else {
                assert(texts(out.report@) =~= said + Seq::empty());
            }
            let ghost told = out.report@;
            assert(pair_views(out.jobs@) =~= start + all.take(0));
            assert(out.jobs@.take(first.len() as int) =~= first);
            for i in 0..n
                invariant
                    n == all.len(),
                    jobs@.len() == n - i,
                    forall|k: int| 0 <= k < jobs@.len() ==> (#[trigger] jobs@[k])@ == all[i + k],
                    forall|k: int| 0 <= k < all.len() ==> (#[trigger] all[k]).source_index == index,
                    out.report@ == told,
                    pair_views(out.jobs@) == start + all.take(i as int),
                    out.jobs@.len() == first.len() + i,
                    out.jobs@.take(first.len() as int) == first,
                    forall|k: int|
                        first.len() <= k < out.jobs@.len() ==> (#[trigger] out.jobs@[k]).0 == index
                            && out.jobs@[k].1.source_index == index,
            {
                let ghost before = out.jobs@;
                let ghost jobs_before = jobs@;
                let job = jobs.remove(0);
                assert(job@ == all[i as int]);
                out.jobs.push((index, job));
                proof {
                    assert(pair_views(out.jobs@) =~= pair_views(before).push(job@));
                    assert(pair_views(out.jobs@) =~= start + all.take(i + 1));
                    assert(out.jobs@.take(first.len() as int) =~= first);
                    assert forall|k: int| 0 <= k < jobs@.len() implies (#[trigger] jobs@[k])@
                        == all[i + 1 + k] by {
                        assert(jobs@[k] == jobs_before[k + 1]);
                    }
                }
            }
            assert(all.take(n as int) =~= all);
        },
        Some(modes) => {
            assert(pair_views(out.jobs@) =~= start + gate(all.take(0), modes@, runner@).jobs);
            assert(texts(out.report@) =~= said + gate(all.take(0), modes@, runner@).report);
            assert(out.jobs@.take(first.len() as int) =~= first);
            for i in 0..n
                invariant
                    n == all.len(),
                    jobs@.len() == n - i,
                    forall|k: int| 0 <= k < jobs@.len() ==> (#[trigger] jobs@[k])@ == all[i + k],
                    forall|k: int| 0 <= k < all.len() ==> (#[trigger] all[k]).source_index == index,
                    pair_views(out.jobs@) == start + gate(all.take(i as int), modes@, runner@).jobs,
                    texts(out.report@) == said + gate(all.take(i as int), modes@, runner@).report,
                    out.jobs@.len() >= first.len(),
                    out.jobs@.take(first.len() as int) == first,
                    forall|k: int|
                        first.len() <= k < out.jobs@.len() ==> (#[trigger] out.jobs@[k]).0 == index
                            && out.jobs@[k].1.source_index == index,
            {
                let ghost before = out.jobs@;
                let ghost said_before = out.report@;
                let ghost jobs_before = jobs@;
                let job = jobs.remove(0);
                let ghost next = all.take(i + 1);
                proof {
                    assert(job@ == all[i as int]);
                    assert(next.drop_last() =~= all.take(i as int));
                    assert(next.last() == job@);
                    assert forall|k: int| 0 <= k < jobs@.len() implies (#[trigger] jobs@[k])@
                        == all[i + 1 + k] by {
                        assert(jobs@[k] == jobs_before[k + 1]);
                    }
                }
                if has_mode(&modes, job.threading_mode) {
                    out.jobs.push((index, job));
                    proof {
                        assert(pair_views(out.jobs@) =~= pair_views(before).push(job@));
                        assert(pair_views(out.jobs@) =~= start + gate(next, modes@, runner@).jobs);
                        assert(out.jobs@.take(first.len() as int) =~= first);
                    }
                } else {
                    out.report.push(skip_notice(runner, &job));
                    proof {
                        assert(texts(out.report@) =~= texts(said_before).push(skip_line(runner@, job@)));
                        assert(texts(out.report@) =~= said + gate(next, modes@, runner@).report);
                    }
                }
            }
            assert(all.take(n as int) =~= all);
        },
    }
    Ok(())
}

/// Expands every variant into its spawns and leaves out those whose mode the variant does
/// not support. Each spawn comes with the place of its variant in the config.
pub fn expand_and_gate_jobs(config: &BenchConfig, runner_name: &str) -> (r: Result<GatedJobs, SpecError>)
    ensures
        match gated(variant_views(config.variant@), runner_name@) {
            Ok(g) => {
                &&& r is Ok
                &&& pair_views(r->Ok_0.jobs@) == g.jobs
                &&& texts(r->Ok_0.report@) == g.report
                &&& forall|i: int|
                    0 <= i < r->Ok_0.jobs@.len() ==> (#[trigger] r->Ok_0.jobs@[i]).0
                        == r->Ok_0.jobs@[i].1.source_index && r->Ok_0.jobs@[i].0 < config.variant@.len()
            },
            Err(e) => r is Err && r->Err_0.field@ == e.field && r->Err_0.flaw() == e.flaw,
        },
{
    let ghost vs = variant_views(config.variant@);
    let mut out = GatedJobs { jobs: Vec::new(), report: Vec::new() };
    assert(pair_views(out.jobs@) =~= Seq::empty());
    assert(texts(out.report@) =~= Seq::empty());
    for i in 0..config.variant.len()
        invariant
            vs == variant_views(config.variant@),
            match gated(vs.take(i as int), runner_name@) {
                Ok(g) => pair_views(out.jobs@) == g.jobs && texts(out.report@) == g.report,
                Err(e) => false,
            },
            forall|k: int|
                0 <= k < out.jobs@.len() ==> (#[trigger] out.jobs@[k]).0 == out.jobs@[k].1.source_index
                    && out.jobs@[k].0 < config.variant@.len(),
    {
        let ghost before = out.jobs@;
        proof {
            assert(vs.take(i + 1).drop_last() =~= vs.take(i as int));
            assert(vs.take(i + 1).last() == config.variant@[i as int]@);
        }
        match gate_variant(i, &config.variant[i], runner_name, &mut out) {
            Ok(()) => {
                assert forall|k: int| 0 <= k < out.jobs@.len() implies (#[trigger] out.jobs@[k]).0
                    == out.jobs@[k].1.source_index && out.jobs@[k].0 < config.variant@.len() by {
                    if k < before.len() {
                        assert(out.jobs@[k] == out.jobs@.take(before.len() as int)[k]);
                        assert(before[k].0 < config.variant@.len());
                    }
                }
            },
            Err(e) => {
                proof {
                    gated_error_stays(vs, runner_name@, i + 1);
                }
                return Err(e);
            },
        }
    }
    assert(vs.take(vs.len() as int) =~= vs);
    Ok(out)
}

/// Of the spawns of a variant that says which modes it supports, just those with such a
/// mode are left.
pub proof fn gate_keeps_supported(
    jobs: Seq<JobView>,
    modes: Seq<ThreadingMode>,
    runner: Seq<char>,
    job: JobView,
)
    ensures
        gate(jobs, modes, runner).jobs.contains(job) <==> jobs.contains(job) && modes.contains(
            job.threading_mode,
        ),
        gate(jobs, modes, runner).jobs.len() + gate(jobs, modes, runner).report.len() == jobs.len(),
    decreases jobs.len(),
{
    if jobs.len() > 0 {
        let t = jobs.drop_last();
        gate_keeps_supported(t, modes, runner, job);
        let g = gate(t, modes, runner).jobs;
        let h = gate(jobs, modes, runner).jobs;
        if g.contains(job) {
            let k = choose|k: int| 0 <= k < g.len() && g[k] == job;
            assert(h[k] == job);
        }
        if t.contains(job) {
            let k = choose|k: int| 0 <= k < t.len() && t[k] == job;
            assert(jobs[k] == job);
        }
        if job == jobs.last() {
            assert(jobs[jobs.len() - 1] == job);
            if modes.contains(job.threading_mode) {
                assert(h[g.len() as int] == job);
            }
        }
        if h.contains(job) {
            let k = choose|k: int| 0 <= k < h.len() && h[k] == job;
            if k < g.len() {
                assert(g[k] == job);
            }
        }
        if jobs.contains(job) {
            let k = choose|k: int| 0 <= k < jobs.len() && jobs[k] == job;
            if k < t.len() {
                assert(t[k] == job);
            }
        }
    }
}

// ---------------------------------------------------------------------
// The loop over the spawns
// ---------------------------------------------------------------------

/// What to do with a spawn.
#[derive(Debug, Clone, Copy, PartialEq, Eq, Structural)]
pub enum JobAction {
    /// Nothing: it is complete on all runners.
    Skip,
    /// Start it, after a pause where one is due.
    Spawn { pause: bool },
}

/// The loop over the spawns of a run.
#[derive(Debug, PartialEq, Eq)]
pub struct SpawnLoop {
    jobs: Vec<(usize, SpawnJob)>,
    skip: NameSet,
    /// What each spawn takes by its settings; nothing where it is skipped.
    nominal: Vec<Duration>,
    nominal_total: Duration,
    over: SpawnsOver,
    grace_ms: u64,
}

/// The spawns of a loop that are over.
#[derive(Debug, PartialEq, Eq)]
struct SpawnsOver {
    count: usize,
    /// What they take by their settings together.
    nominal: Duration,
}

/// What the loop over the spawns is.
pub struct LoopView {
    pub jobs: Seq<JobView>,
    /// For each spawn the place of its variant in the config.
    pub sources: Seq<usize>,
    pub skip: Set<Seq<char>>,
    pub nominal: Seq<int>,
    pub grace_ms: u64,
    /// How many spawns are over.
    pub done: int,
}

/// The sum of the numbers.
pub open spec fn total(ns: Seq<int>) -> int
    decreases ns.len(),
{
    if ns.len() == 0 {
        0
    } else {
        total(ns.drop_last()) + ns.last()
    }
}

proof fn total_of_prefix(ns: Seq<int>, n: int)
    requires
        0 <= n <= ns.len(),
        forall|i: int| 0 <= i < ns.len() ==> 0 <= #[trigger] ns[i],
    ensures
        0 <= total(ns.take(n)) <= total(ns),
    decreases ns.len(),
{
    if n == ns.len() {
        assert(ns.take(n) =~= ns);
        if n > 0 {
            let t = ns.drop_last();
            assert forall|i: int| 0 <= i < t.len() implies 0 <= #[trigger] t[i] by {
                assert(t[i] == ns[i]);
            }
            total_of_prefix(t, n - 1);
            assert(t.take(n - 1) =~= t);
            assert(0 <= ns[n - 1]);
        }
    } else {
        let t = ns.drop_last();
        assert forall|i: int| 0 <= i < t.len() implies 0 <= #[trigger] t[i] by {
            assert(t[i] == ns[i]);
        }
        total_of_prefix(t, n);
        assert(t.take(n) =~= ns.take(n));
        assert(0 <= ns[ns.len() - 1]);
    }
}

/// What each spawn takes by its settings, in nanoseconds; nothing where it is skipped.
pub open spec fn nominals(
    jobs: Seq<JobView>,
    sources: Seq<usize>,
    skip: Set<Seq<char>>,
    vs: Seq<VariantView>,
    grace_ms: u64,
) -> Seq<int> {
    Seq::new(
        jobs.len(),
        |i: int|
            if skip.contains(jobs[i].effective_name) {
                0
            } else {
                nominal_nanos(vs[sources[i] as int], grace_ms)
            },
    )
}

/// For each spawn the place of its variant in the config.
pub open spec fn sources_of(jobs: Seq<(usize, SpawnJob)>) -> Seq<usize> {
    Seq::new(jobs.len(), |i: int| jobs[i].0)
}

/// The spans in nanoseconds.
pub open spec fn nanos_of(ds: Seq<Duration>) -> Seq<int> {
    Seq::new(ds.len(), |i: int| ds[i].nanos as int)
}

impl LoopView {
    /// The spawn is skipped.
    pub open spec fn skipped(self, i: int) -> bool {
        self.skip.contains(self.jobs[i].effective_name)
    }

    /// What to do with a spawn. Between two spawns of one variant there is a pause, if
    /// one is set, so that the second finds the ports of the first released.
    pub open spec fn action(self, i: int) -> JobAction {
        if self.skipped(i) {
            JobAction::Skip
        } else {
            JobAction::Spawn {
                pause: i > 0 && self.sources[i - 1] == self.sources[i] && !self.skipped(i - 1)
                    && self.grace_ms != 0,
            }
        }
    }

    /// What the spawns that are over take by their settings.
    pub open spec fn so_far(self) -> int {
        total(self.nominal.take(self.done))
    }

    /// What the spawns that are left take by their settings.
    pub open spec fn remaining(self) -> int {
        total(self.nominal) - self.so_far()
    }
}

/// The line about how far the run is.
pub open spec fn progress_text(
    runner: Seq<char>,
    completed: nat,
    all: nat,
    elapsed: Duration,
    eta: int,
) -> Seq<char> {
    runner_prefix(runner) + "progress: "@ + decimal(completed) + "/"@ + decimal(all) + " done | elapsed "@ + hms(
        (elapsed.nanos as int / NANOS_PER_SEC as int) as nat,
    ) + " | ETA ~"@ + hms((eta / NANOS_PER_SEC as int) as nat)
}

/// The line about how far the run is; none before the first spawn is over and after the
/// last.
pub fn emit_progress_eta(
    runner_name: &str,
    completed: usize,
    all: usize,
    elapsed: Duration,
    nominal_so_far: Duration,
    nominal_remaining: Duration,
) -> (r: Option<String>)
    requires
        elapsed.nanos <= MAX_NANOS,
        nominal_remaining.nanos <= MAX_NANOS,
        underway(completed, all) ==> eta_nanos(
            elapsed,
            nominal_so_far,
            nominal_remaining,
            completed,
            all,
        ) <= MAX_NANOS,
    ensures
        match r {
            Some(line) => underway(completed, all) && line@ == progress_text(
                runner_name@,
                completed as nat,
                all as nat,
                elapsed,
                eta_nanos(elapsed, nominal_so_far, nominal_remaining, completed, all),
            ),
            None => !underway(completed, all),
        },
{
    match estimate_eta(elapsed, nominal_so_far, nominal_remaining, completed, all) {
        None => None,
        Some(eta) => {
            let mut s = runner_line(runner_name);
            s.append("progress: ");
            s.append(decimal_u64(completed as u64).as_str());
            s.append("/");
            s.append(decimal_u64(all as u64).as_str());
            s.append(" done | elapsed ");
            s.append(format_hms(elapsed).as_str());
            s.append(" | ETA ~");
            s.append(format_hms(eta).as_str());
            Some(s)
        },
    }
}

impl SpawnLoop {
    pub closed spec fn view(&self) -> LoopView {
        LoopView {
            jobs: pair_views(self.jobs@),
            sources: sources_of(self.jobs@),
            skip: self.skip@,
            nominal: nanos_of(self.nominal@),
            grace_ms: self.grace_ms,
            done: self.over.count as int,
        }
    }

    /// The loop's own counts agree with what it holds.
    #[verifier::type_invariant]
    spec fn wf(&self) -> bool {
        &&& self.nominal@.len() == self.jobs@.len()
        &&& self.over.count <= self.jobs@.len()
        &&& self.nominal_total.nanos == total(nanos_of(self.nominal@))
        &&& self.over.nominal.nanos == total(nanos_of(self.nominal@).take(self.over.count as int))
        &&& self.nominal_total.nanos <= MAX_NANOS
    }

    /// The loop over the spawns of a run, none of them over. What they take by their
    /// settings together is a span that a `Duration` holds.
    pub fn new(jobs: Vec<(usize, SpawnJob)>, skip: NameSet, config: &BenchConfig) -> (r: Self)
        requires
            forall|i: int| 0 <= i < jobs@.len() ==> (#[trigger] jobs@[i]).0 < config.variant@.len(),
            total(
                nominals(
                    pair_views(jobs@),
                    sources_of(jobs@),
                    skip@,
                    variant_views(config.variant@),
                    config.grace(),
                ),
            ) <= MAX_NANOS,
        ensures
            r@ == (LoopView {
                jobs: pair_views(jobs@),
                sources: sources_of(jobs@),
                skip: skip@,
                nominal: nominals(
                    pair_views(jobs@),
                    sources_of(jobs@),
                    skip@,
                    variant_views(config.variant@),
                    config.grace(),
                ),
                grace_ms: config.grace(),
                done: 0,
            }),
    {
        let grace_ms: u64 = config.inter_qos_grace_ms();
        let ghost views = pair_views(jobs@);
        let ghost sources = sources_of(jobs@);
        let ghost vs = variant_views(config.variant@);
        let ghost goal = nominals(views, sources, skip@, vs, grace_ms);
        let mut nominal: Vec<Duration> = Vec::new();
        let mut sum: u128 = 0;
        proof {
            assert(nanos_of(nominal@) =~= goal.take(0));
        }
        for i in 0..jobs.len()
            invariant
                views == pair_views(jobs@),
                sources == sources_of(jobs@),
                vs == variant_views(config.variant@),
                goal == nominals(views, sources, skip@, vs, grace_ms),
                forall|k: int| 0 <= k < jobs@.len() ==> (#[trigger] jobs@[k]).0 < config.variant@.len(),
                total(goal) <= MAX_NANOS,
                nominal@.len() == i,
                nanos_of(nominal@) == goal.take(i as int),
                sum == total(goal.take(i as int)),
        {
            let src: usize = jobs[i].0;
            let d: Duration = if skip.contains(jobs[i].1.effective_name.as_str()) {
                Duration { nanos: 0 }
            } else {
                spawn_nominal_duration(&config.variant[src], grace_ms)
            };
            proof {
                assert(views[i as int] == jobs@[i as int].1@);
                assert(sources[i as int] == src);
                assert(vs[src as int] == config.variant@[src as int]@);
                assert(goal[i as int] == d.nanos);
                assert(goal.take(i + 1).drop_last() =~= goal.take(i as int));
                assert forall|k: int| 0 <= k < goal.len() implies 0 <= #[trigger] goal[k] by {
                    nominal_is_not_negative(vs[sources[k] as int], grace_ms);
                }
                total_of_prefix(goal, i + 1);
            }
            let ghost before = nominal@;
            sum = sum + d.nanos;
            nominal.push(d);
            assert(nanos_of(nominal@) =~= goal.take(i + 1));
        }
        proof {
            assert(goal.take(goal.len() as int) =~= goal);
            assert(nanos_of(nominal@) =~= goal);
            assert(goal.take(0) =~= Seq::empty());
        }
        SpawnLoop {
            jobs,
            skip,
            nominal,
            nominal_total: Duration { nanos: sum },
            over: SpawnsOver { count: 0, nominal: Duration { nanos: 0 } },
            grace_ms,
        }
    }

    /// What to do next; none where all spawns are over.
    pub fn next_action(&self) -> (r: Option<JobAction>)
        ensures
            match r {
                Some(a) => self@.done < self@.jobs.len() && a == self@.action(self@.done),
                None => self@.done == self@.jobs.len(),
            },
    {
        proof {
            use_type_invariant(self);
        }
        let i: usize = self.over.count;
        if i == self.jobs.len() {
            return None;
        }
        proof {
            assert(self@.jobs[i as int] == self.jobs@[i as int].1@);
            if i > 0 {
                assert(self@.jobs[i - 1] == self.jobs@[i - 1].1@);
            }
        }
        if self.skip.contains(self.jobs[i].1.effective_name.as_str()) {
            return Some(JobAction::Skip);
        }
        let pause: bool = i > 0 && self.jobs[i - 1].0 == self.jobs[i].0 && !self.skip.contains(
            self.jobs[i - 1].1.effective_name.as_str(),
        ) && self.grace_ms != 0;
        Some(JobAction::Spawn { pause })
    }

    /// The next spawn, with the place of its variant in the config.
    pub fn current(&self) -> (r: &(usize, SpawnJob))
        requires
            self@.done < self@.jobs.len(),
        ensures
            r.0 == self@.sources[self@.done],
            r.1@ == self@.jobs[self@.done],
    {
        &self.jobs[self.over.count]
    }

    /// How many spawns there are.
    pub fn len(&self) -> (r: usize)
        ensures
            r == self@.jobs.len(),
    {
        self.jobs.len()
    }

    /// How many spawns are over.
    pub fn completed(&self) -> (r: usize)
        ensures
            r == self@.done,
    {
        self.over.count
    }

    /// The next spawn is over, whether it was skipped or started.
    pub fn advance(&mut self)
        requires
            old(self)@.done < old(self)@.jobs.len(),
        ensures
            final(self)@ == (LoopView { done: old(self)@.done + 1, ..old(self)@ }),
    {
        proof {
            use_type_invariant(&*self);
        }
        let i: usize = self.over.count;
        let all: usize = self.jobs.len();
        assert(i < all);
        let ghost ns = nanos_of(self.nominal@);
        proof {
            assert forall|k: int| 0 <= k < ns.len() implies 0 <= #[trigger] ns[k] by {}
            total_of_prefix(ns, i + 1);
            assert(ns.take(i + 1).drop_last() =~= ns.take(i as int));
            assert(ns.take(i + 1).last() == self.nominal@[i as int].nanos);
        }
        let spent: u128 = self.over.nominal.nanos + self.nominal[i].nanos;
        self.over = SpawnsOver { count: i + 1, nominal: Duration { nanos: spent } };
    }

    /// What the spawns that are over and those that are left take by their settings.
    pub fn nominal_split(&self) -> (r: (Duration, Duration))
        ensures
            r.0.nanos == self@.so_far(),
            r.1.nanos == self@.remaining(),
            r.0.nanos <= MAX_NANOS,
            r.1.nanos <= MAX_NANOS,
    {
        proof {
            use_type_invariant(self);
            let ns = nanos_of(self.nominal@);
            assert forall|i: int| 0 <= i < ns.len() implies 0 <= #[trigger] ns[i] by {}
            total_of_prefix(ns, self.over.count as int);
        }
        (self.over.nominal, self.nominal_total.saturating_sub(self.over.nominal))
    }
}

/// Whether what the spawns take by their settings together is a span that a `Duration`
/// holds.
pub fn nominal_total_fits(jobs: &[(usize, SpawnJob)], skip: &NameSet, config: &BenchConfig) -> (r: bool)
    requires
        forall|i: int| 0 <= i < jobs@.len() ==> (#[trigger] jobs@[i]).0 < config.variant@.len(),
    ensures
        r == (total(
            nominals(
                pair_views(jobs@),
                sources_of(jobs@),
                skip@,
                variant_views(config.variant@),
                config.grace(),
            ),
        ) <= MAX_NANOS),
{
    let grace_ms: u64 = config.inter_qos_grace_ms();
    let ghost views = pair_views(jobs@);
    let ghost sources = sources_of(jobs@);
    let ghost vs = variant_views(config.variant@);
    let ghost goal = nominals(views, sources, skip@, vs, grace_ms);
    let mut sum: u128 = 0;
    for i in 0..jobs.len()
        invariant
            views == pair_views(jobs@),
            sources == sources_of(jobs@),
            vs == variant_views(config.variant@),
            grace_ms == config.grace(),
            goal == nominals(views, sources, skip@, vs, grace_ms),
            forall|k: int| 0 <= k < jobs@.len() ==> (#[trigger] jobs@[k]).0 < config.variant@.len(),
            sum == total(goal.take(i as int)),
            sum <= MAX_NANOS,
    {
        let src: usize = jobs[i].0;
        let d: Duration = if skip.contains(jobs[i].1.effective_name.as_str()) {
            Duration { nanos: 0 }
        } else {
            spawn_nominal_duration(&config.variant[src], grace_ms)
        };
        proof {
            assert(views[i as int] == jobs@[i as int].1@);
            assert(sources[i as int] == src);
            assert(vs[src as int] == config.variant@[src as int]@);
            assert(goal[i as int] == d.nanos);
            assert(goal.take(i + 1).drop_last() =~= goal.take(i as int));
            assert forall|k: int| 0 <= k < goal.len() implies 0 <= #[trigger] goal[k] by {
                nominal_is_not_negative(vs[sources[k] as int], grace_ms);
            }
            total_of_prefix(goal, i + 1);
        }
        if d.nanos > MAX_NANOS - sum {
            return false;
        }
        sum = sum + d.nanos;
    }
    assert(goal.take(goal.len() as int) =~= goal);
    true
}

proof fn nominal_is_not_negative(v: VariantView, grace_ms: u64)
    ensures
        0 <= nominal_nanos(v, grace_ms),
{
}

/// When all spawns are over, nothing is left to be done by their settings.
pub proof fn nothing_remains_at_the_end(l: LoopView)
    requires
        l.done == l.nominal.len(),
    ensures
        l.remaining() == 0,
{
    assert(l.nominal.take(l.done) =~= l.nominal);
}

/// A spawn that is complete on all runners is never started, and a pause is made only
/// directly after a spawn of the same variant that was started.
pub proof fn skipped_spawns_do_not_start(l: LoopView, i: int)
    requires
        0 <= i < l.jobs.len(),
        l.sources.len() == l.jobs.len(),
    ensures
        l.action(i) == JobAction::Skip <==> l.skip.contains(l.jobs[i].effective_name),
        l.action(i) == (JobAction::Spawn { pause: true }) ==> i > 0 && l.action(i - 1) != JobAction::Skip
            && l.sources[i - 1] == l.sources[i],
{
}

// ---------------------------------------------------------------------
// The summary
// ---------------------------------------------------------------------

/// The outcome of a spawn on a runner.
#[derive(Debug, Clone, PartialEq, Eq)]
pub struct SummaryRow {
    pub variant: String,
    pub runner: String,
    pub status: String,
    pub exit_code: i32,
}

/// What a row is.
pub struct RowView {
    pub variant: Seq<char>,
    pub runner: Seq<char>,
    pub status: Seq<char>,
    pub exit_code: i32,
}

impl SummaryRow {
    pub open spec fn view(&self) -> RowView {
        RowView {
            variant: self.variant@,
            runner: self.runner@,
            status: self.status@,
            exit_code: self.exit_code,
        }
    }
}

/// The rows.
pub open spec fn row_views(rows: Seq<SummaryRow>) -> Seq<RowView> {
    Seq::new(rows.len(), |i: int| rows[i]@)
}

/// The row of a spawn that was skipped on this runner.
pub fn skipped_row(variant: &str, runner: &str) -> (r: SummaryRow)
    ensures
        r@ == (RowView { variant: variant@, runner: runner@, status: "skipped"@, exit_code: 0 }),
{
    SummaryRow {
        variant: variant.to_owned(),
        runner: runner.to_owned(),
        status: "skipped".to_owned(),
        exit_code: 0,
    }
}

/// The rows of a spawn on all runners, in the order of their names.
pub fn done_rows(variant: &str, results: &NameMap<(String, i32)>) -> (r: Vec<SummaryRow>)
    ensures
        ({
            let runners = listing(results@.dom());
            row_views(r@) == Seq::new(
                runners.len(),
                |i: int|
                    RowView {
                        variant: variant@,
                        runner: runners[i],
                        status: outcomes(*results)[runners[i]].0,
                        exit_code: outcomes(*results)[runners[i]].1,
                    },
            )
        }),
{
    let keys = results.keys();
    let ghost runners = texts(keys@);
    let mut rows: Vec<SummaryRow> = Vec::new();
    for i in 0..keys.len()
        invariant
            runners == texts(keys@),
            runners.to_set() == results@.dom(),
            rows@.len() == i,
            forall|k: int|
                0 <= k < i ==> (#[trigger] rows@[k])@ == (RowView {
                    variant: variant@,
                    runner: runners[k],
                    status: outcomes(*results)[runners[k]].0,
                    exit_code: outcomes(*results)[runners[k]].1,
                }),
    {
        proof {
            assert(runners[i as int] == keys@[i as int]@);
            assert(runners.to_set().contains(runners[i as int]));
        }
        match results.get(keys[i].as_str()) {
            Some(outcome) => {
                rows.push(
                    SummaryRow {
                        variant: variant.to_owned(),
                        runner: keys[i].clone(),
                        status: outcome.0.clone(),
                        exit_code: outcome.1,
                    },
                );
            },
            None => {
                assert(false);
            },
        }
    }
    assert(row_views(rows@) =~= Seq::new(
        runners.len(),
        |i: int|
            RowView {
                variant: variant@,
                runner: runners[i],
                status: outcomes(*results)[runners[i]].0,
                exit_code: outcomes(*results)[runners[i]].1,
            },
    ));
    rows
}

/// So many blanks.
pub open spec fn blanks(n: int) -> Seq<char> {
    Seq::new(
        if n > 0 {
            n as nat
        } else {
            0
        },
        |i: int| ' ',
    )
}

/// The text, filled up with blanks to a width.
pub open spec fn padded(s: Seq<char>, width: int) -> Seq<char> {
    s + blanks(width - s.len())
}

fn push_padded(out: &mut String, s: &str, width: usize)
    ensures
        final(out)@ == old(out)@ + padded(s@, width as int),
{
    let ghost before = out@;
    let n: usize = chars_of(s).len();
    out.append(s);
    let missing: usize = if n < width { width - n } else { 0 };
    assert(out@ =~= before + s@ + blanks(0));
    for i in 0..missing
        invariant
            out@ == before + s@ + blanks(i as int),
    {
        out.push(' ');
        assert(out@ =~= before + s@ + blanks(i + 1));
    }
    assert(blanks(missing as int) =~= blanks(width - s@.len()));
    assert(out@ =~= before + padded(s@, width as int));
}

/// The line of a row.
pub open spec fn row_text(row: RowView) -> Seq<char> {
    padded(row.variant, 24) + " "@ + padded(row.runner, 8) + " "@ + padded(row.status, 9) + " "@ + decimal_int(
        row.exit_code as int,
    )
}

/// The lines of the summary.
pub open spec fn summary_text(run_id: Seq<char>, rows: Seq<RowView>) -> Seq<Seq<char>> {
    seq![
        "Benchmark run: "@ + run_id,
        padded("Variant"@, 24) + " "@ + padded("Runner"@, 8) + " "@ + padded("Status"@, 9) + " "@ + "Exit"@,
    ] + Seq::new(rows.len(), |i: int| row_text(rows[i]))
}

fn table_line(variant: &str, runner: &str, status: &str, exit: &str) -> (r: String)
    ensures
        r@ == padded(variant@, 24) + " "@ + padded(runner@, 8) + " "@ + padded(status@, 9) + " "@ + exit@,
{
    let mut s = String::new();
    push_padded(&mut s, variant, 24);
    assert(s@ =~= padded(variant@, 24));
    s.append(" ");
    push_padded(&mut s, runner, 8);
    s.append(" ");
    push_padded(&mut s, status, 9);
    s.append(" ");
    s.append(exit);
    s
}

/// The lines of the summary: a title, a head, and a line for each row.
pub fn print_summary(run_id: &str, rows: &[SummaryRow]) -> (r: Vec<String>)
    ensures
        texts(r@) == summary_text(run_id@, row_views(rows@)),
{
    let ghost views = row_views(rows@);
    let mut out: Vec<String> = Vec::new();
    let mut title = "Benchmark run: ".to_owned();
    title.append(run_id);
    out.push(title);
    out.push(table_line("Variant", "Runner", "Status", "Exit"));
    assert(texts(out@) =~= summary_text(run_id@, views.take(0)));
    for i in 0..rows.len()
        invariant
            views == row_views(rows@),
            texts(out@) == summary_text(run_id@, views.take(i as int)),
    {
        let row = &rows[i];
        let ghost before = out@;
        let line = table_line(
            row.variant.as_str(),
            row.runner.as_str(),
            row.status.as_str(),
            decimal_i64(row.exit_code as i64).as_str(),
        );
        proof {
            assert(views[i as int] == row@);
            assert(line@ == row_text(row@));
        }
        out.push(line);
        assert(texts(out@) =~= texts(before).push(row_text(views[i as int])));
        assert(texts(out@) =~= summary_text(run_id@, views.take(i + 1)));
    }
    assert(views.take(views.len() as int) =~= views);
    out
}

/// The row stands for a spawn that failed: it neither succeeded nor was skipped.
pub open spec fn row_failed(row: RowView) -> bool {
    row.status != "success"@ && row.status != "skipped"@
}

/// Some row stands for a spawn that failed.
pub open spec fn run_failed(rows: Seq<RowView>) -> bool {
    exists|i: int| 0 <= i < rows.len() && #[trigger] row_failed(rows[i])
}

/// Whether the run failed: whether any spawn did.
pub fn any_failure(rows: &[SummaryRow]) -> (r: bool)
    ensures
        r == run_failed(row_views(rows@)),
{
    let ghost views = row_views(rows@);
    for i in 0..rows.len()
        invariant
            views == row_views(rows@),
            forall|j: int| 0 <= j < i ==> !#[trigger] row_failed(views[j]),
    {
        let status = rows[i].status.as_str();
        assert(views[i as int] == rows@[i as int]@);
        if !same(status, "success") && !same(status, "skipped") {
            assert(row_failed(views[i as int]));
            return true;
        }
    }
    false
}

/// How many rows have the status.
pub open spec fn count_status(rows: Seq<RowView>, status: Seq<char>) -> nat {
    rows.filter(|row: RowView| row.status == status).len()
}

/// How many rows stand for a spawn that failed.
pub open spec fn count_failed(rows: Seq<RowView>) -> nat {
    rows.filter(|row: RowView| row_failed(row)).len()
}

/// The line about what a resumed run reused and what it executed.
pub fn resume_summary_line(rows: &[SummaryRow]) -> (r: String)
    ensures
        ({
            let views = row_views(rows@);
            r@ == "Resume: "@ + decimal(count_status(views, "skipped"@)) + " spawns reused, "@ + decimal(
                count_status(views, "success"@) + count_failed(views),
            ) + " spawns executed, "@ + decimal(count_failed(views)) + " failed."@
        }),
{
    let ghost views = row_views(rows@);
    let mut reused: usize = 0;
    let mut succeeded: usize = 0;
    let mut failed: usize = 0;
    proof {
        reveal(Seq::filter);
        assert(views.take(0) =~= Seq::empty());
        words_differ();
    }
    let n: usize = rows.len();
    for i in 0..n
        invariant
            n == rows@.len(),
            views == row_views(rows@),
            reused + succeeded + failed == i,
            reused == count_status(views.take(i as int), "skipped"@),
            succeeded == count_status(views.take(i as int), "success"@),
            failed == count_failed(views.take(i as int)),
            "success"@ != "skipped"@,
    {
        let status = rows[i].status.as_str();
        proof {
            let next = views.take(i + 1);
            assert(next.drop_last() =~= views.take(i as int));
            assert(next.last() == rows@[i as int]@);
            reveal(Seq::filter);
        }
        if same(status, "skipped") {
            reused = reused + 1;
        } else if same(status, "success") {
            succeeded = succeeded + 1;
        } else {
            failed = failed + 1;
        }
    }
    assert(views.take(views.len() as int) =~= views);
    let mut s = "Resume: ".to_owned();
    s.append(decimal_u64(reused as u64).as_str());
    s.append(" spawns reused, ");
    s.append(decimal_u64((succeeded + failed) as u64).as_str());
    s.append(" spawns executed, ");
    s.append(decimal_u64(failed as u64).as_str());
    s.append(" failed.");
    s
}

proof fn words_differ()
    ensures
        "success"@ != "skipped"@,
{
    reveal_strlit("success");
    reveal_strlit("skipped");
    assert("success"@[1] == 'u');
    assert("skipped"@[1] == 'k');
}

/// Every row was reused, succeeded or failed.
pub proof fn every_row_counts_once(rows: Seq<RowView>)
    ensures
        count_status(rows, "skipped"@) + count_status(rows, "success"@) + count_failed(rows) == rows.len(),
    decreases rows.len(),
{
    reveal(Seq::filter);
    words_differ();
    if rows.len() > 0 {
        every_row_counts_once(rows.drop_last());
    }
}

// ---------------------------------------------------------------------
// After a failure
// ---------------------------------------------------------------------

/// How many lines of a failed spawn's standard error are shown.
pub const TAIL_LINES: usize = 20;

/// How many lines begin in `s` at `k` or later.
pub open spec fn lines_from(s: Seq<char>, k: int) -> nat
    decreases s.len() - k,
{
    if k >= s.len() || k < 0 {
        0
    } else {
        lines_from(s, k + 1) + (if starts_line(s, k) {
            1nat
        } else {
            0nat
        })
    }
}

/// A line begins at `k`.
pub open spec fn starts_line(s: Seq<char>, k: int) -> bool {
    k == 0 || s[k - 1] == '\n'
}

/// The last `max_lines` lines of a text, or all of it where it has fewer.
pub fn tail_lines(text: &str, max_lines: usize) -> (r: String)
    ensures
        exists|k: int|
            {
                &&& 0 <= k <= text@.len()
                &&& r@ == #[trigger] text@.skip(k)
                &&& lines_from(text@, k) <= max_lines
                &&& k == 0 || (lines_from(text@, k) == max_lines && (k == text@.len() || starts_line(
                    text@,
                    k,
                )))
            },
{
    let s = chars_of(text);
    let n: usize = s.len();
    let mut start: usize = n;
    let mut count: usize = 0;
    let mut k: usize = n;
    // `start` is the last place found at which the tail may begin
    while k > 0 && count < max_lines
        invariant
            s@ == text@,
            n == s@.len(),
            k <= start <= n,
            count <= max_lines,
            count == lines_from(text@, start as int),
            count == lines_from(text@, k as int),
            start == n || starts_line(text@, start as int),
            k == 0 ==> start == 0,
        decreases k,
    {
        k = k - 1;
        let begins: bool = k == 0 || s[k - 1] == '\n';
        assert(begins == starts_line(text@, k as int));
        if begins {
            count = count + 1;
            start = k;
        }
    }
    let mut r = String::new();
    for i in start..n
        invariant
            s@ == text@,
            n == s@.len(),
            start <= n,
            r@ == text@.subrange(start as int, i as int),
    {
        r.push(s[i]);
        assert(r@ =~= text@.subrange(start as int, i + 1));
    }
    proof {
        assert(r@ =~= text@.skip(start as int));
    }
    r
}

/// What is known of a failed spawn's standard error.
#[derive(Debug, Clone, Copy)]
pub enum StderrTail<'a> {
    /// The file is not there.
    Missing,
    /// The end of what the spawn wrote.
    Text(&'a str),
    /// The file could not be read.
    Unreadable(&'a str),
}

/// What the operator gets to see of the end of a spawn's standard error.
pub open spec fn tail_text(runner: Seq<char>, tail: StderrTail<'_>) -> Seq<char> {
    match tail {
        StderrTail::Missing => Seq::empty(),
        StderrTail::Text(t) => if t@.len() == 0 {
            runner_prefix(runner)
                + "(stderr capture is empty -- child likely killed before writing any output)\n"@
        } else {
            runner_prefix(runner) + "---- stderr tail (last 20 lines) ----\n"@ + t@ + (if t@.last() == '\n' {
                Seq::empty()
            } else {
                "\n"@
            }) + runner_prefix(runner) + "---- end stderr tail ----\n"@
        },
        StderrTail::Unreadable(e) => runner_prefix(runner)
            + "WARN: failed to read stderr capture for tail: "@ + e@ + "\n"@,
    }
}

/// What the operator gets to see of a failed spawn: where its standard error and its log
/// are, and the end of its standard error.
pub open spec fn diagnostics_text(
    runner: Seq<char>,
    stderr_capture: Seq<char>,
    jsonl: Option<Seq<char>>,
    tail: StderrTail<'_>,
) -> Seq<char> {
    runner_prefix(runner) + "stderr capture: "@ + stderr_capture + "\n"@ + (match jsonl {
        Some(p) => runner_prefix(runner) + "jsonl log:      "@ + p + "\n"@,
        None => Seq::empty(),
    }) + tail_text(runner, tail)
}

fn tail_block(runner_name: &str, tail: StderrTail<'_>) -> (r: String)
    ensures
        r@ == tail_text(runner_name@, tail),
{
    match tail {
        StderrTail::Missing => String::new(),
        StderrTail::Text(t) => {
            let mut s = runner_line(runner_name);
            if t.is_empty() {
                s.append("(stderr capture is empty -- child likely killed before writing any output)\n");
                return s;
            }
            s.append("---- stderr tail (last 20 lines) ----\n");
            s.append(t);
            let ghost before = s@;
            let v = chars_of(t);
            if v[v.len() - 1] != '\n' {
                s.append("\n");
            }
            assert(s@ =~= before + (if t@.last() == '\n' {
                Seq::empty()
            } else {
                "\n"@
            }));
            s.append(runner_line(runner_name).as_str());
            s.append("---- end stderr tail ----\n");
            s
        },
        StderrTail::Unreadable(e) => {
            let mut s = runner_line(runner_name);
            s.append("WARN: failed to read stderr capture for tail: ");
            s.append(e);
            s.append("\n");
            s
        },
    }
}

/// What the operator gets to see of a failed spawn.
pub fn print_failure_diagnostics(
    runner_name: &str,
    stderr_capture: &str,
    jsonl: Option<&str>,
    tail: StderrTail<'_>,
) -> (r: String)
    ensures
        r@ == diagnostics_text(runner_name@, stderr_capture@, optional_str(jsonl), tail),
{
    let mut s = runner_line(runner_name);
    s.append("stderr capture: ");
    s.append(stderr_capture);
    s.append("\n");
    let ghost head = s@;
    match jsonl {
        Some(p) => {
            s.append(runner_line(runner_name).as_str());
            s.append("jsonl log:      ");
            s.append(p);
            s.append("\n");
            assert(s@ =~= head + (runner_prefix(runner_name@) + "jsonl log:      "@ + p@ + "\n"@));
        },
        None => {
            assert(s@ =~= head + Seq::empty());
        },
    }
    s.append(tail_block(runner_name, tail).as_str());
    s
}

// ---------------------------------------------------------------------
// Laws of the run
// ---------------------------------------------------------------------

/// The peers of a runner are all runners but itself, in the order of the config.
pub proof fn peers_are_all_but_the_runner(
    a: Seq<Seq<char>>,
    b: Seq<Seq<char>>,
    name: Seq<char>,
    peer: Seq<char>,
)
    ensures
        others(a, name).contains(peer) <==> (a.contains(peer) && peer != name),
        others(a + b, name) == others(a, name) + others(b, name),
{
    filter_side_by_side(a, b, |n: Seq<char>| n != name);
    other_runners(a, name, peer);
}

proof fn other_runners(a: Seq<Seq<char>>, name: Seq<char>, peer: Seq<char>)
    ensures
        others(a, name).contains(peer) <==> (a.contains(peer) && peer != name),
    decreases a.len(),
{
    reveal(Seq::filter);
    let f = others(a, name);
    if a.len() > 0 {
        let t = a.drop_last();
        let g = others(t, name);
        other_runners(t, name, peer);
        assert(f == (if a.last() != name {
            g.push(a.last())
        } else {
            g
        }));
        if g.contains(peer) {
            let i = choose|i: int| 0 <= i < g.len() && g[i] == peer;
            assert(f[i] == peer);
        }
        if t.contains(peer) {
            let i = choose|i: int| 0 <= i < t.len() && t[i] == peer;
            assert(a[i] == peer);
        }
        if peer == a.last() {
            assert(a[a.len() - 1] == peer);
            if peer != name {
                assert(f[f.len() - 1] == peer);
            }
        }
        if f.contains(peer) {
            let i = choose|i: int| 0 <= i < f.len() && f[i] == peer;
            if i < g.len() {
                assert(g[i] == peer);
            }
        }
        if a.contains(peer) && peer != a.last() {
            let i = choose|i: int| 0 <= i < a.len() && a[i] == peer;
            assert(t[i] == peer);
        }
    }
}

proof fn filter_holds<T>(s: Seq<T>, keep: spec_fn(T) -> bool, x: T)
    ensures
        s.filter(keep).contains(x) <==> s.contains(x) && keep(x),
    decreases s.len(),
{
    reveal(Seq::filter);
    if s.len() > 0 {
        let t = s.drop_last();
        filter_holds(t, keep, x);
        let f = s.filter(keep);
        let g = t.filter(keep);
        if g.contains(x) {
            let i = choose|i: int| 0 <= i < g.len() && g[i] == x;
            assert(f[i] == x);
        }
        if t.contains(x) {
            let i = choose|i: int| 0 <= i < t.len() && t[i] == x;
            assert(s[i] == x);
        }
        if x == s.last() {
            assert(s[s.len() - 1] == x);
            if keep(x) {
                assert(f[f.len() - 1] == x);
            }
        }
        if f.contains(x) {
            let i = choose|i: int| 0 <= i < f.len() && f[i] == x;
            if i < g.len() {
                assert(g[i] == x);
            }
        }
        if s.contains(x) && x != s.last() {
            let i = choose|i: int| 0 <= i < s.len() && s[i] == x;
            assert(t[i] == x);
        }
    }
}

proof fn filter_side_by_side<T>(a: Seq<T>, b: Seq<T>, keep: spec_fn(T) -> bool)
    ensures
        (a + b).filter(keep) == a.filter(keep) + b.filter(keep),
    decreases b.len(),
{
    reveal(Seq::filter);
    if b.len() == 0 {
        assert(a + b =~= a);
        assert(a.filter(keep) + b.filter(keep) =~= a.filter(keep));
    } else {
        filter_side_by_side(a, b.drop_last(), keep);
        assert((a + b).drop_last() =~= a + b.drop_last());
        assert((a + b).last() == b.last());
        assert((a + b).filter(keep) =~= a.filter(keep) + b.filter(keep));
    }
}

/// The peers that failed are just those for which there is no measurement, in their order.
pub proof fn failed_are_those_without_a_measurement(
    a: Seq<Seq<char>>,
    b: Seq<Seq<char>>,
    measurements: Map<Seq<char>, PeerMeasurement>,
    n: Seq<char>,
)
    ensures
        unmeasured(a, measurements).contains(n) <==> a.contains(n) && (!measurements.contains_key(n)
            || measurements[n].measurement is None),
        unmeasured(a + b, measurements) == unmeasured(a, measurements) + unmeasured(b, measurements),
{
    let keep = |p: Seq<char>| !(measurements.contains_key(p) && measurements[p].measurement is Some);
    filter_side_by_side(a, b, keep);
    filter_holds(a, keep, n);
}

/// Where the logs go: the command line decides; without it the config's entry for the
/// runner; without that the first variant that sets a folder; and else it is `./logs`.
pub proof fn log_folder_goes_by_rank(cli: Option<Seq<char>>, runner: Option<Seq<char>>, vs: Seq<VariantView>)
    ensures
        ({
            let (folder, source) = base_log_dir(cli, runner, vs);
            let set = exists|i: int| 0 <= i < vs.len() && (#[trigger] vs[i]).common.contains_key("log_dir"@);
            &&& cli is Some ==> folder == cli->0 && source == LogDirSource::CommandLine
            &&& cli is None && runner is Some ==> folder == runner->0 && source == LogDirSource::RunnerConfig
            &&& cli is None && runner is None && set ==> source == LogDirSource::VariantConfig && exists|i: int|
                {
                    &&& 0 <= i < vs.len()
                    &&& (#[trigger] vs[i]).common.contains_key("log_dir"@)
                    &&& folder == vs[i].common["log_dir"@].text()
                    &&& forall|j: int| 0 <= j < i ==> !(#[trigger] vs[j]).common.contains_key("log_dir"@)
                }
            &&& cli is None && runner is None && !set ==> folder == "./logs"@ && source == LogDirSource::Default
        }),
{
    first_folder_in_full(vs);
}

proof fn first_folder_in_full(vs: Seq<VariantView>)
    ensures
        first_variant_log_dir(vs) is Some <==> exists|i: int|
            0 <= i < vs.len() && (#[trigger] vs[i]).common.contains_key("log_dir"@),
        first_variant_log_dir(vs) is Some ==> exists|i: int|
            {
                &&& 0 <= i < vs.len()
                &&& (#[trigger] vs[i]).common.contains_key("log_dir"@)
                &&& first_variant_log_dir(vs)->0 == vs[i].common["log_dir"@].text()
                &&& forall|j: int| 0 <= j < i ==> !(#[trigger] vs[j]).common.contains_key("log_dir"@)
            },
    decreases vs.len(),
{
    if vs.len() > 0 {
        let t = vs.drop_last();
        let n = vs.len() - 1;
        first_folder_in_full(t);
        assert forall|i: int| 0 <= i < n implies t[i] == #[trigger] vs[i] by {}
        assert(vs[n] == vs.last());
        if first_variant_log_dir(t) is Some {
            let i = choose|i: int|
                {
                    &&& 0 <= i < t.len()
                    &&& (#[trigger] t[i]).common.contains_key("log_dir"@)
                    &&& first_variant_log_dir(t)->0 == t[i].common["log_dir"@].text()
                    &&& forall|j: int| 0 <= j < i ==> !(#[trigger] t[j]).common.contains_key("log_dir"@)
                };
            assert(vs[i].common.contains_key("log_dir"@));
            assert forall|j: int| 0 <= j < i implies !(#[trigger] vs[j]).common.contains_key("log_dir"@) by {
                assert(t[j] == vs[j]);
            }
        } else {
            assert forall|j: int| 0 <= j < n implies !(#[trigger] vs[j]).common.contains_key("log_dir"@) by {
                assert(t[j] == vs[j]);
            }
        }
    }
}

/// The folder that a spawn logs into is the run's where the command line or the config sets
/// one for the runner; else it is one of the run in the variant's own folder; and where
/// there is none it is left to the variant.
pub proof fn spawns_log_with_the_runner(
    cli: Option<&str>,
    config: &BenchConfig,
    variant: &VariantConfig,
    base: &str,
    log_subdir: &str,
    r: Option<String>,
)
    requires
        call_ensures(spawn_log_dir, (cli, config, variant, base, log_subdir), r),
    ensures
        cli is Some || config.log_dir is Some ==> r is Some && r->0@ == base@ + seq!['/'] + log_subdir@,
        cli is None && config.log_dir is None ==> (r is Some <==> variant@.common.contains_key("log_dir"@)),
        cli is None && config.log_dir is None && r is Some ==> r->0@ == variant@.common["log_dir"@].text()
            + seq!['/'] + log_subdir@,
{
    reveal_strlit("/");
    assert("/"@ =~= seq!['/']);
}

/// Of the spawns of a variant those with a supported mode are left, in their order, and of
/// the others there is one line each, in their order, which names the spawn and its mode.
pub proof fn gate_in_full(jobs: Seq<JobView>, modes: Seq<ThreadingMode>, runner: Seq<char>)
    ensures
        ({
            let g = gate(jobs, modes, runner);
            let out = jobs.filter(|j: JobView| !modes.contains(j.threading_mode));
            &&& g.jobs == jobs.filter(|j: JobView| modes.contains(j.threading_mode))
            &&& g.report.len() == out.len()
            &&& forall|i: int|
                0 <= i < out.len() ==> g.report[i] == "[runner:"@ + runner + "] "@ + "skipping "@ + (
                #[trigger] out[i]).effective_name + ": variant does not support threading_mode="@
                    + out[i].threading_mode.word()
        }),
    decreases jobs.len(),
{
    reveal(Seq::filter);
    let inside = |j: JobView| modes.contains(j.threading_mode);
    let outside = |j: JobView| !modes.contains(j.threading_mode);
    if jobs.len() > 0 {
        let t = jobs.drop_last();
        gate_in_full(t, modes, runner);
        let g = gate(jobs, modes, runner);
        let out = jobs.filter(outside);
        let before = t.filter(outside);
        assert(g.jobs == jobs.filter(inside));
        assert forall|i: int| 0 <= i < out.len() implies g.report[i] == "[runner:"@ + runner + "] "@
            + "skipping "@ + (#[trigger] out[i]).effective_name
            + ": variant does not support threading_mode="@ + out[i].threading_mode.word() by {
            if i < before.len() {
                assert(out[i] == before[i]);
            }
        }
    }
}

/// What a variant contributes to a run: where it says which modes it supports, the spawns
/// with such a mode; where it does not, all its spawns with one line about that; and nothing
/// where a setting of it cannot be read.
pub proof fn variant_contributes_its_spawns(index: usize, v: VariantView, runner: Seq<char>)
    ensures
        gated_variant(index, v, runner) is Ok <==> dimensions(v) is Ok && (v.supported_modes is None || modes_named(
            as_items(v.supported_modes->0),
        ) is Ok),
        gated_variant(index, v, runner) is Ok ==> {
            let g = gated_variant(index, v, runner)->Ok_0;
            let jobs = expansion(index, v.name, dimensions(v)->Ok_0);
            if v.supported_modes is None {
                &&& g.jobs == jobs
                &&& g.report == seq![
                    "[runner:"@ + runner + "] "@ + "note: variant '"@ + v.name
                        + "' has no supported_modes declared; treating every requested threading_mode as supported"@,
                ]
            } else {
                let modes = modes_named(as_items(v.supported_modes->0))->Ok_0;
                g.jobs == jobs.filter(|j: JobView| modes.contains(j.threading_mode))
            }
        },
{
    if gated_variant(index, v, runner) is Ok {
        let jobs = expansion(index, v.name, dimensions(v)->Ok_0);
        count_of_spawns(index, v);
        if v.supported_modes is Some {
            gate_in_full(jobs, modes_named(as_items(v.supported_modes->0))->Ok_0, runner);
        }
    }
}

/// The spawns of a run are those of its variants, one variant after the other: a run with
/// one more variant has the spawns and lines of the run without it and then those of the
/// variant; and a run can be expanded just where each of its variants can.
pub proof fn run_has_the_spawns_of_its_variants(vs: Seq<VariantView>, v: VariantView, runner: Seq<char>)
    requires
        vs.len() <= usize::MAX,
    ensures
        gated(Seq::empty(), runner) == Ok::<GatedView, SettingFlaw>(
            GatedView { jobs: Seq::empty(), report: Seq::empty() },
        ),
        gated(vs.push(v), runner) is Ok <==> gated(vs, runner) is Ok && gated_variant(
            vs.len() as usize,
            v,
            runner,
        ) is Ok,
        gated(vs.push(v), runner) is Ok ==> {
            let before = gated(vs, runner)->Ok_0;
            let more = gated_variant(vs.len() as usize, v, runner)->Ok_0;
            let all = gated(vs.push(v), runner)->Ok_0;
            &&& all.jobs == before.jobs + more.jobs
            &&& all.report == before.report + more.report
        },
        gated(vs, runner) is Err ==> gated(vs.push(v), runner) == gated(vs, runner),
{
    assert(vs.push(v).drop_last() =~= vs);
}

/// What is done with a spawn, in full: it is skipped just where it is complete on all
/// runners; and there is a pause before it just where one is set and the spawn before it is
/// of the same variant and was started.
pub proof fn spawns_are_started_in_turn(l: LoopView, i: int)
    requires
        0 <= i < l.jobs.len(),
    ensures
        l.action(i) is Skip <==> l.skip.contains(l.jobs[i].effective_name),
        l.action(i) is Spawn ==> (l.action(i)->pause <==> {
            &&& i > 0
            &&& l.sources[i - 1] == l.sources[i]
            &&& !l.skip.contains(l.jobs[i - 1].effective_name)
            &&& l.grace_ms > 0
        }),
{
}

/// The time that spawns take together: nothing for none, and that of two lists put side by
/// side is that of both.
pub proof fn times_add_up(a: Seq<int>, b: Seq<int>, x: int)
    ensures
        total(Seq::empty()) == 0,
        total(seq![x]) == x,
        total(a + b) == total(a) + total(b),
    decreases b.len(),
{
    let one = seq![x];
    assert(one.drop_last() =~= Seq::empty());
    assert(total(one.drop_last()) == 0);
    assert(one.last() == x);
    if b.len() == 0 {
        assert(a + b =~= a);
    } else {
        times_add_up(a, b.drop_last(), x);
        assert((a + b).drop_last() =~= a + b.drop_last());
        assert((a + b).last() == b.last());
    }
}

/// What a loop counts: what the spawns that are over and those that are left take by their
/// settings are together what all take, and each spawn that ends moves what it takes from
/// the one to the other.
pub proof fn time_moves_from_left_to_over(l: LoopView)
    requires
        0 <= l.done < l.nominal.len(),
    ensures
        l.so_far() + l.remaining() == total(l.nominal),
        ({
            let next = LoopView { done: l.done + 1, ..l };
            &&& next.so_far() == l.so_far() + l.nominal[l.done]
            &&& next.remaining() == l.remaining() - l.nominal[l.done]
        }),
        l.done == 0 ==> l.so_far() == 0,
{
    assert(l.nominal.take(l.done + 1).drop_last() =~= l.nominal.take(l.done));
    assert(l.nominal.take(l.done + 1).last() == l.nominal[l.done]);
    if l.done == 0 {
        assert(l.nominal.take(0) =~= Seq::empty());
    }
}

/// What a spawn takes by its settings goes by its own variant, and a skipped one takes
/// nothing.
pub proof fn skipped_spawns_take_no_time(
    jobs: Seq<JobView>,
    sources: Seq<usize>,
    skip: Set<Seq<char>>,
    vs: Seq<VariantView>,
    grace_ms: u64,
    i: int,
)
    requires
        0 <= i < jobs.len(),
    ensures
        nominals(jobs, sources, skip, vs, grace_ms).len() == jobs.len(),
        skip.contains(jobs[i].effective_name) ==> nominals(jobs, sources, skip, vs, grace_ms)[i] == 0,
        !skip.contains(jobs[i].effective_name) ==> nominals(jobs, sources, skip, vs, grace_ms)[i]
            == nominal_nanos(vs[sources[i] as int], grace_ms),
{
}

/// The summary of a spawn has one row for each runner that reported, in the order of the
/// names, with just the status and the exit code that the runner reported.
pub proof fn rows_show_what_was_reported(
    variant: &str,
    results: &NameMap<(String, i32)>,
    r: Vec<SummaryRow>,
    name: Seq<char>,
)
    requires
        call_ensures(done_rows, (variant, results), r),
        results@.dom().finite(),
    ensures
        forall|i: int|
            0 <= i < r@.len() ==> {
                let row = #[trigger] r@[i];
                &&& row.variant@ == variant@
                &&& results@.contains_key(row.runner@)
                &&& row.status@ == results@[row.runner@].0@
                &&& row.exit_code == results@[row.runner@].1
            },
        forall|i: int, j: int|
            0 <= i < j < r@.len() ==> name_lt((#[trigger] r@[i]).runner@, (#[trigger] r@[j]).runner@),
        results@.contains_key(name) ==> exists|i: int| 0 <= i < r@.len() && (#[trigger] r@[i]).runner@ == name,
{
    let runners = listing(results@.dom());
    let rows = row_views(r@);
    listing_holds(results@.dom());
    assert(rows.len() == runners.len());
    assert forall|i: int| 0 <= i < r@.len() implies {
        let row = #[trigger] r@[i];
        &&& row.variant@ == variant@
        &&& row.runner@ == runners[i]
        &&& results@.contains_key(row.runner@)
        &&& row.status@ == results@[row.runner@].0@
        &&& row.exit_code == results@[row.runner@].1
    } by {
        assert(rows[i] == r@[i]@);
        assert(runners.to_set().contains(runners[i]));
    }
    assert forall|i: int, j: int| 0 <= i < j < r@.len() implies name_lt(
        (#[trigger] r@[i]).runner@,
        (#[trigger] r@[j]).runner@,
    ) by {
        assert(r@[i].runner@ == runners[i] && r@[j].runner@ == runners[j]);
    }
    if results@.contains_key(name) {
        assert(runners.to_set().contains(name));
        let i = choose|i: int| 0 <= i < runners.len() && runners[i] == name;
        assert(r@[i].runner@ == name);
    }
}

/// A run has failed just where some row says neither that its spawn succeeded nor that it
/// was skipped.
pub proof fn failure_is_neither_success_nor_skip(rows: Seq<RowView>)
    ensures
        run_failed(rows) <==> (exists|i: int|
            0 <= i < rows.len() && (#[trigger] rows[i]).status != "success"@ && rows[i].status != "skipped"@),
{
    assert forall|i: int| 0 <= i < rows.len() implies #[trigger] row_failed(rows[i]) == (rows[i].status
        != "success"@ && rows[i].status != "skipped"@) by {}
    if exists|i: int|
        0 <= i < rows.len() && (#[trigger] rows[i]).status != "success"@ && rows[i].status != "skipped"@ {
        let i = choose|i: int|
            0 <= i < rows.len() && (#[trigger] rows[i]).status != "success"@ && rows[i].status != "skipped"@;
        assert(row_failed(rows[i]));
    }
}

/// A column keeps its whole text and is filled with blanks behind it up to its width.
pub proof fn columns_keep_their_text(s: Seq<char>, width: int)
    ensures
        padded(s, width).len() == (if s.len() >= width {
            s.len() as int
        } else {
            width
        }),
        padded(s, width).take(s.len() as int) == s,
        forall|i: int| s.len() <= i < padded(s, width).len() ==> #[trigger] padded(s, width)[i] == ' ',
{
    assert(padded(s, width).take(s.len() as int) =~= s);
}

/// How many line ends there are.
pub open spec fn line_ends(s: Seq<char>) -> nat
    decreases s.len(),
{
    if s.len() == 0 {
        0
    } else {
        line_ends(s.drop_first()) + (if s[0] == '\n' {
            1nat
        } else {
            0nat
        })
    }
}

proof fn lines_go_by_line_ends(s: Seq<char>, k: int)
    requires
        0 <= k < s.len(),
    ensures
        lines_from(s, k) == line_ends(s.subrange(k, s.len() - 1)) + (if k == 0 || s[k - 1] == '\n' {
            1nat
        } else {
            0nat
        }),
    decreases s.len() - k,
{
    let part = s.subrange(k, s.len() - 1);
    if k == s.len() - 1 {
        assert(lines_from(s, k + 1) == 0);
        assert(part.len() == 0);
    } else {
        lines_go_by_line_ends(s, k + 1);
        assert(part.drop_first() =~= s.subrange(k + 1, s.len() - 1));
        assert(part[0] == s[k]);
    }
}

/// The end of a text, in full: it is cut off only where a line begins, it has at most so
/// many lines, and where anything is cut off it has just so many.
pub proof fn tail_is_cut_at_lines(text: &str, max_lines: usize, r: String)
    requires
        call_ensures(tail_lines, (text, max_lines), r),
    ensures
        exists|k: int|
            {
                let ends = line_ends(r@.take(r@.len() - 1));
                &&& 0 <= k <= text@.len()
                &&& r@ == #[trigger] text@.skip(k)
                &&& 0 < k < text@.len() ==> text@[k - 1] == '\n'
                &&& r@.len() > 0 ==> ends + 1 <= max_lines
                &&& r@.len() > 0 && k > 0 ==> ends + 1 == max_lines
                &&& r@.len() == 0 ==> text@.len() == 0 || max_lines == 0
            },
{
    let k = choose|k: int|
        {
            &&& 0 <= k <= text@.len()
            &&& r@ == #[trigger] text@.skip(k)
            &&& lines_from(text@, k) <= max_lines
            &&& k == 0 || (lines_from(text@, k) == max_lines && (k == text@.len() || starts_line(text@, k)))
        };
    if k < text@.len() {
        lines_go_by_line_ends(text@, k);
        assert(r@.take(r@.len() - 1) =~= text@.subrange(k, text@.len() - 1));
    }
    assert(r@ == text@.skip(k));
}

/// Rows are counted one by one: a row more is one more of its status, and one more failed
/// where it says neither that its spawn succeeded nor that it was skipped.
pub proof fn rows_are_counted_one_by_one(rows: Seq<RowView>, row: RowView, status: Seq<char>)
    ensures
        count_status(Seq::empty(), status) == 0,
        count_failed(Seq::empty()) == 0,
        count_status(rows.push(row), status) == count_status(rows, status) + (if row.status == status {
            1int
        } else {
            0int
        }),
        count_failed(rows.push(row)) == count_failed(rows) + (if row.status != "success"@ && row.status
            != "skipped"@ {
            1int
        } else {
            0int
        }),
{
    reveal(Seq::filter);
    assert(rows.push(row).drop_last() =~= rows);
}

/// What a loop is made of: the spawns that it is given, each with the place of its variant,
/// none of them over.
pub proof fn loop_begins_with_all_spawns(
    jobs: Vec<(usize, SpawnJob)>,
    skip: NameSet,
    config: &BenchConfig,
    l: SpawnLoop,
)
    requires
        call_ensures(SpawnLoop::new, (jobs, skip, config), l),
    ensures
        l@.done == 0,
        l@.jobs.len() == jobs@.len(),
        forall|i: int|
            0 <= i < jobs@.len() ==> l@.jobs[i] == (#[trigger] jobs@[i]).1@ && l@.sources[i] == jobs@[i].0,
        l@.skip == skip@,
        config.inter_qos_grace_ms is Some ==> l@.grace_ms == config.inter_qos_grace_ms->0,
        config.inter_qos_grace_ms is None ==> l@.grace_ms == 250,
{
}

/// What a loop does next: it is over just where all spawns are, and else it goes on with the
/// one behind those that are over.
pub proof fn loop_goes_on_until_all_are_over(l: &SpawnLoop, r: Option<JobAction>)
    requires
        call_ensures(SpawnLoop::next_action, (l,), r),
        l@.done <= l@.jobs.len(),
    ensures
        r is None <==> l@.done == l@.jobs.len(),
        r is Some ==> r->0 == l@.action(l@.done) && (r->0 is Skip <==> l@.skip.contains(
            l@.jobs[l@.done].effective_name,
        )),
{
}

/// A row of a skipped spawn names the spawn and the runner and has code 0.
pub proof fn skipped_spawns_have_a_row(variant: &str, runner: &str, r: SummaryRow)
    requires
        call_ensures(skipped_row, (variant, runner), r),
    ensures
        r.variant@ == variant@ && r.runner@ == runner@ && r.status@ == "skipped"@ && r.exit_code == 0,
{
}

/// The exit code of a run that may be resumed, and how many lines are shown of an error.
pub proof fn measures_of_the_run()
    ensures
        EX_TEMPFAIL == 75,
        TAIL_LINES == 20,
{
}

/// What the spawns and the rows are taken for is what they hold, each in its place.
pub proof fn spawns_and_rows_are_taken_for_what_they_are(
    jobs: Seq<(usize, SpawnJob)>,
    rows: Seq<SummaryRow>,
    spans: Seq<Duration>,
)
    ensures
        pair_views(jobs).len() == jobs.len() && sources_of(jobs).len() == jobs.len(),
        forall|i: int|
            0 <= i < jobs.len() ==> pair_views(jobs)[i] == (#[trigger] jobs[i]).1@ && sources_of(jobs)[i]
                == jobs[i].0,
        row_views(rows).len() == rows.len(),
        forall|i: int|
            0 <= i < rows.len() ==> {
                let r = row_views(rows)[i];
                &&& r.variant == (#[trigger] rows[i]).variant@ && r.runner == rows[i].runner@
                &&& r.status == rows[i].status@ && r.exit_code == rows[i].exit_code
            },
        nanos_of(spans).len() == spans.len(),
        forall|i: int| 0 <= i < spans.len() ==> nanos_of(spans)[i] == (#[trigger] spans[i]).nanos,
{
}

/// The summary has a title, a head and a line for each row; a line shows, in columns that
/// begin at the same place as those of the head, the spawn, the runner, the status and the
/// exit code.
pub proof fn summary_shows_every_row(run_id: Seq<char>, rows: Seq<RowView>, i: int)
    requires
        0 <= i < rows.len(),
    ensures
        summary_text(run_id, rows).len() == rows.len() + 2,
        summary_text(run_id, rows)[0] == "Benchmark run: "@ + run_id,
        rows[i].variant.len() <= 24 && rows[i].runner.len() <= 8 && rows[i].status.len() <= 9 ==> {
            let line = summary_text(run_id, rows)[i + 2];
            let (v, r, s) = (rows[i].variant, rows[i].runner, rows[i].status);
            &&& line.subrange(0, v.len() as int) == v
            &&& line.subrange(25, 25 + r.len() as int) == r
            &&& line.subrange(34, 34 + s.len() as int) == s
            &&& line.skip(44) == decimal_int(rows[i].exit_code as int)
        },
{
    reveal_strlit(" ");
    let row = rows[i];
    let line = summary_text(run_id, rows)[i + 2];
    assert(line == row_text(row));
    if row.variant.len() <= 24 && row.runner.len() <= 8 && row.status.len() <= 9 {
        columns_keep_their_text(row.variant, 24);
        columns_keep_their_text(row.runner, 8);
        columns_keep_their_text(row.status, 9);
        assert(line.subrange(0, row.variant.len() as int) =~= row.variant);
        assert(line.subrange(25, 25 + row.runner.len() as int) =~= row.runner);
        assert(line.subrange(34, 34 + row.status.len() as int) =~= row.status);
        assert(line.skip(44) =~= decimal_int(row.exit_code as int));
    }
}

/// What a loop tells of itself: the next spawn with the place of its variant, how many
/// spawns there are and how many are over, and what those that are over and those that are
/// left take by their settings.
pub proof fn loop_tells_where_it_is(
    l: &SpawnLoop,
    now: &(usize, SpawnJob),
    all: usize,
    over: usize,
    split: (Duration, Duration),
)
    requires
        call_ensures(SpawnLoop::current, (l,), now),
        call_ensures(SpawnLoop::len, (l,), all),
        call_ensures(SpawnLoop::completed, (l,), over),
        call_ensures(SpawnLoop::nominal_split, (l,), split),
    ensures
        now.0 == l@.sources[l@.done] && now.1@ == l@.jobs[l@.done],
        all == l@.jobs.len() && over == l@.done,
        split.0.nanos == total(l@.nominal.take(l@.done)),
        split.0.nanos + split.1.nanos == total(l@.nominal),
{
}

/// The line about how far a run is names the runner, the spawns that are over and all
/// spawns, the time that has passed and the time that is left.
pub proof fn progress_line_in_full(
    runner: Seq<char>,
    completed: nat,
    all: nat,
    elapsed: Duration,
    eta: int,
)
    ensures
        progress_text(runner, completed, all, elapsed, eta) == "[runner:"@ + runner + "] "@ + "progress: "@
            + decimal(completed) + "/"@ + decimal(all) + " done | elapsed "@ + hms(
            (elapsed.nanos as int / 1_000_000_000) as nat,
        ) + " | ETA ~"@ + hms((eta / 1_000_000_000) as nat),
{
}

/// Who the peers of a runner are, and which of them have no measurement.
pub proof fn peers_and_failures_are_found(
    runners: &[String],
    name: &str,
    peers: Vec<String>,
    measurements: &NameMap<PeerMeasurement>,
    failed: Vec<String>,
    peer: Seq<char>,
)
    requires
        call_ensures(peers_of, (runners, name), peers),
        call_ensures(failed_peers, (runners, measurements), failed),
    ensures
        texts(peers@).contains(peer) <==> texts(runners@).contains(peer) && peer != name@,
        texts(failed@).contains(peer) <==> texts(runners@).contains(peer) && (
        !measurements@.contains_key(peer) || measurements@[peer].measurement is None),
{
    peers_are_all_but_the_runner(texts(runners@), Seq::empty(), name@, peer);
    failed_are_those_without_a_measurement(texts(runners@), Seq::empty(), measurements@, peer);
}

/// A run is begun just by a runner of its config, and goes on just where no first measurement
/// failed; the errors name the runner and the peers.
pub proof fn run_is_begun_by_its_runners(
    name: &str,
    runners: &[String],
    known: Result<(), String>,
    failed: &[String],
    synced: Result<(), String>,
)
    requires
        call_ensures(require_known_runner, (name, runners), known),
        call_ensures(require_initial_sync_complete, (failed,), synced),
    ensures
        known is Ok <==> texts(runners@).contains(name@),
        known is Err ==> known->Err_0@ == "runner name '"@ + name@
            + "' is not in the config runners list: "@ + shown_list(texts(runners@)),
        synced is Ok <==> failed@.len() == 0,
        synced is Err ==> synced->Err_0@ == "initial clock-sync failed for peers: "@ + shown_list(
            texts(failed@),
        ),
{
    assert(name_set(runners@).contains(name@) <==> texts(runners@).contains(name@));
}

/// The folder of a run is named by the run and the stamp, with a dash between, and lies in the
/// one that the command line, the config or the first variant that sets one names.
pub proof fn folder_of_a_run_in_full(
    cli: Option<&str>,
    config: &BenchConfig,
    base: (String, LogDirSource),
    run: &str,
    stamp: &str,
    name: String,
    upper: &str,
    lower: &str,
    folder: String,
)
    requires
        call_ensures(resolve_base_log_dir, (cli, config), base),
        call_ensures(fresh_log_subdir, (run, stamp), name),
        upper@ == base.0@,
        lower@ == name@,
        call_ensures(join_folder, (upper, lower), folder),
    ensures
        cli is Some ==> base.0@ == cli->0@ && base.1 == LogDirSource::CommandLine,
        cli is None && config.log_dir is Some ==> base.0@ == config.log_dir->0@ && base.1
            == LogDirSource::RunnerConfig,
        cli is None && config.log_dir is None && (forall|i: int|
            0 <= i < config.variant@.len() ==> !(#[trigger] config.variant@[i])@.common.contains_key(
                "log_dir"@,
            )) ==> base.0@ == "./logs"@ && base.1 == LogDirSource::Default,
        name@ == run@ + "-"@ + stamp@,
        folder@ == base.0@ + seq!['/'] + run@ + "-"@ + stamp@,
{
    let vs = variant_views(config.variant@);
    log_folder_goes_by_rank(optional_str(cli), optional_text(config.log_dir), vs);
    assert forall|i: int| 0 <= i < vs.len() implies #[trigger] vs[i] == config.variant@[i]@ by {}
    reveal_strlit("/");
    assert("/"@ =~= seq!['/']);
    assert(folder@ =~= base.0@ + seq!['/'] + run@ + "-"@ + stamp@);
}

/// A spawn that ends is counted, and nothing else of the loop changes.
pub proof fn spawns_are_counted_as_they_end(l: &mut SpawnLoop, r: ())
    requires
        call_ensures(SpawnLoop::advance, (l,), r),
    ensures
        final(l)@.done == old(l)@.done + 1,
        final(l)@.jobs == old(l)@.jobs,
        final(l)@.sources == old(l)@.sources,
        final(l)@.skip == old(l)@.skip,
        final(l)@.nominal == old(l)@.nominal,
        final(l)@.grace_ms == old(l)@.grace_ms,
{
}

/// A run has failed just where a row of it is neither a success nor skipped, and its line says
/// how many were reused, how many were executed and how many failed.
pub proof fn rows_decide_on_the_run(rows: &[SummaryRow], failed: bool, line: String)
    requires
        call_ensures(any_failure, (rows,), failed),
        call_ensures(resume_summary_line, (rows,), line),
    ensures
        failed <==> exists|i: int|
            0 <= i < rows@.len() && (#[trigger] rows@[i]).status@ != "success"@ && rows@[i].status@
                != "skipped"@,
        ({
            let v = row_views(rows@);
            line@ == "Resume: "@ + decimal(count_status(v, "skipped"@)) + " spawns reused, "@ + decimal(
                (rows@.len() - count_status(v, "skipped"@)) as nat,
            ) + " spawns executed, "@ + decimal(count_failed(v)) + " failed."@
        }),
{
    let v = row_views(rows@);
    failure_is_neither_success_nor_skip(v);
    every_row_counts_once(v);
    assert forall|i: int| 0 <= i < v.len() implies (#[trigger] v[i]).status == rows@[i].status@ by {}
    if failed {
        let i = choose|i: int|
            0 <= i < v.len() && (#[trigger] v[i]).status != "success"@ && v[i].status != "skipped"@;
        assert(rows@[i].status@ != "success"@ && rows@[i].status@ != "skipped"@);
    }
    if exists|i: int|
        0 <= i < rows@.len() && (#[trigger] rows@[i]).status@ != "success"@ && rows@[i].status@
            != "skipped"@ {
        let i = choose|i: int|
            0 <= i < rows@.len() && (#[trigger] rows@[i]).status@ != "success"@ && rows@[i].status@
                != "skipped"@;
        assert(v[i].status != "success"@ && v[i].status != "skipped"@);
    }
}

/// The job is a spawn of the variant at its place, in a mode that the variant supports, where
/// it says which it supports.
pub open spec fn is_supported_spawn(vs: Seq<VariantView>, job: JobView) -> bool {
    let i = job.source_index as int;
    &&& 0 <= i < vs.len()
    &&& dimensions(vs[i]) is Ok
    &&& expansion(job.source_index, vs[i].name, dimensions(vs[i])->Ok_0).contains(job)
    &&& vs[i].supported_modes is Some ==> modes_named(as_items(vs[i].supported_modes->0)) is Ok
        && modes_named(as_items(vs[i].supported_modes->0))->Ok_0.contains(job.threading_mode)
}

proof fn gated_jobs_are_supported(vs: Seq<VariantView>, runner: Seq<char>, job: JobView)
    requires
        vs.len() <= usize::MAX,
        gated(vs, runner) is Ok,
    ensures
        gated(vs, runner)->Ok_0.jobs.contains(job) <==> is_supported_spawn(vs, job),
    decreases vs.len(),
{
    if vs.len() > 0 {
        let t = vs.drop_last();
        let n = (vs.len() - 1) as usize;
        let v = vs.last();
        let before = gated(t, runner)->Ok_0.jobs;
        let more = gated_variant(n, v, runner)->Ok_0.jobs;
        let all = expansion(n, v.name, dimensions(v)->Ok_0);
        gated_jobs_are_supported(t, runner, job);
        spawns_carry_their_variant(n, v.name, dimensions(v)->Ok_0);
        if let Some(words) = v.supported_modes {
            gate_keeps_supported(all, modes_named(as_items(words))->Ok_0, runner, job);
        }
        if (before + more).contains(job) {
            let k = choose|k: int| 0 <= k < (before + more).len() && (before + more)[k] == job;
            if k < before.len() {
                assert(before[k] == job);
            } else {
                assert(more[k - before.len()] == job);
            }
        }
        if before.contains(job) {
            let k = choose|k: int| 0 <= k < before.len() && before[k] == job;
            assert((before + more)[k] == job);
        }
        if more.contains(job) {
            let k = choose|k: int| 0 <= k < more.len() && more[k] == job;
            assert((before + more)[before.len() + k] == job);
        }
        if all.contains(job) {
            let k = choose|k: int| 0 <= k < all.len() && all[k] == job;
            assert(all[k].source_index == n);
        }
        assert forall|i: int| 0 <= i < n implies t[i] == #[trigger] vs[i] by {}
        assert(vs[n as int] == v);
    }
}

/// The spawns of a run are just those of its variants in modes that these support, each with
/// the place of its variant beside it.
pub proof fn run_has_just_the_supported_spawns(
    config: &BenchConfig,
    runner: &str,
    r: Result<GatedJobs, SpecError>,
    job: JobView,
)
    requires
        call_ensures(expand_and_gate_jobs, (config, runner), r),
        config.variant@.len() <= usize::MAX,
        r is Ok,
    ensures
        (exists|i: int| 0 <= i < r->Ok_0.jobs@.len() && (#[trigger] r->Ok_0.jobs@[i]).1@ == job)
            <==> is_supported_spawn(variant_views(config.variant@), job),
        forall|i: int|
            0 <= i < r->Ok_0.jobs@.len() ==> (#[trigger] r->Ok_0.jobs@[i]).0
                == r->Ok_0.jobs@[i].1.source_index,
{
    let jobs = r->Ok_0.jobs@;
    let vs = variant_views(config.variant@);
    let p = pair_views(jobs);
    assert(gated(vs, runner@) is Ok);
    assert(p == gated(vs, runner@)->Ok_0.jobs);
    gated_jobs_are_supported(vs, runner@, job);
    if p.contains(job) {
        let i = choose|i: int| 0 <= i < p.len() && p[i] == job;
        assert(jobs[i].1@ == job);
    }
    if exists|i: int| 0 <= i < jobs.len() && (#[trigger] jobs[i]).1@ == job {
        let i = choose|i: int| 0 <= i < jobs.len() && (#[trigger] jobs[i]).1@ == job;
        assert(p[i] == job);
    }
}

} // verus!
