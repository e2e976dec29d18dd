//! The run as a whole: folders, the loop over the spawns, and what the operator sees.

use runner::cli_args::{
    drop_selector_provenance, glob_matches, parse_variant_args, render_specific_args,
    resolve_for_variant,
};
use runner::clock_sync::PeerMeasurement;
use runner::config::{BenchConfig, ConfigError, Fault, ThreadingMode, VariantConfig, VariantTemplate};
use runner::local_addrs::{canonical_peer_host, enumerate_local_ips, Ip};
use runner::matrix::{
    any_failure, done_rows, emit_progress_eta, expand_and_gate_jobs, failed_peers, fresh_log_subdir,
    nominal_total_fits, peers_of, print_failure_diagnostics, print_summary, require_known_runner,
    resolve_base_log_dir, resume_summary_line, skipped_row, spawn_log_dir, tail_lines, JobAction,
    LogDirSource, SpawnLoop, StderrTail, SummaryRow, EX_TEMPFAIL,
};
use runner::names::{NameMap, NameSet};
use runner::panic_hook::{panic_lines, PanicPlace};
use runner::progress_eta::eta_in_range;
use runner::spawn::jsonl_log_path;
use runner::time::Duration;
use runner::toml_value::{Table, TomlItem, TomlValue};

fn names(list: &[&str]) -> Vec<String> {
    list.iter().map(|s| s.to_string()).collect()
}

fn text(s: &str) -> TomlValue {
    TomlValue::Text(s.to_string())
}

fn variant(name: &str, common: &[(&str, TomlValue)]) -> VariantConfig {
    let mut table = Table::new();
    table.insert("tick_rate_hz".to_string(), TomlValue::Integer(10));
    table.insert("values_per_tick".to_string(), TomlValue::Integer(1));
    table.insert("qos".to_string(), TomlValue::Integer(1));
    for (key, value) in common {
        table.insert(key.to_string(), value.clone());
    }
    VariantConfig {
        name: name.to_string(),
        template: None,
        binary: "./x".to_string(),
        timeout_secs: Some(30),
        common: table,
        specific: None,
        supported_modes: Some(names(&["single", "multi"])),
    }
}

fn config(variants: Vec<VariantConfig>) -> BenchConfig {
    BenchConfig {
        run: "r".to_string(),
        runners: names(&["b", "a"]),
        default_timeout_secs: 60,
        inter_qos_grace_ms: None,
        log_dir: None,
        variant_templates: Vec::new(),
        variant: variants,
    }
}

fn levels(list: &[i64]) -> TomlValue {
    TomlValue::Array {
        items: list.iter().map(|n| TomlItem::Integer(*n)).collect(),
        rendered: format!("{list:?}"),
    }
}

#[test]
fn log_folder_is_taken_from_the_first_place_that_sets_one() {
    let with_dir = variant("v", &[("log_dir", text("./of-variant"))]);
    let mut cfg = config(vec![variant("w", &[]), with_dir]);
    assert_eq!(
        resolve_base_log_dir(None, &cfg),
        ("./of-variant".to_string(), LogDirSource::VariantConfig)
    );
    cfg.log_dir = Some("./of-runner".to_string());
    assert_eq!(
        resolve_base_log_dir(None, &cfg),
        ("./of-runner".to_string(), LogDirSource::RunnerConfig)
    );
    assert_eq!(
        resolve_base_log_dir(Some("./cli"), &cfg),
        ("./cli".to_string(), LogDirSource::CommandLine)
    );
    let (dir, source) = resolve_base_log_dir(None, &config(vec![variant("w", &[])]));
    assert_eq!(dir, "./logs");
    assert_eq!(source.describe(), "default './logs'");
    assert_eq!(fresh_log_subdir("r", "20260101_000000"), "r-20260101_000000");
}

#[test]
fn spawns_log_beside_the_runner_where_its_folder_is_set() {
    let v = variant("v", &[("log_dir", text("./own"))]);
    let cfg = config(vec![v.clone_for_test(), variant("w", &[])]);
    assert_eq!(
        spawn_log_dir(Some("/cli"), &cfg, &cfg.variant[0], "/cli", "sub"),
        Some("/cli/sub".to_string())
    );
    assert_eq!(
        spawn_log_dir(None, &cfg, &cfg.variant[0], "./own", "sub"),
        Some("./own/sub".to_string())
    );
    assert_eq!(spawn_log_dir(None, &cfg, &cfg.variant[1], "./own", "sub"), None);
}

trait CloneForTest {
    fn clone_for_test(&self) -> Self;
}

impl CloneForTest for VariantConfig {
    fn clone_for_test(&self) -> Self {
        VariantConfig {
            name: self.name.clone(),
            template: self.template.clone(),
            binary: self.binary.clone(),
            timeout_secs: self.timeout_secs,
            common: self.common.clone(),
            specific: self.specific.clone(),
            supported_modes: self.supported_modes.clone(),
        }
    }
}

#[test]
fn loop_skips_pauses_and_counts() {
    let phases = [
        ("stabilize_secs", TomlValue::Integer(1)),
        ("operate_secs", TomlValue::Integer(2)),
        ("silent_secs", TomlValue::Integer(3)),
        ("qos", levels(&[1, 2, 3])),
    ];
    let cfg = config(vec![variant("v", &phases), variant("w", &[])]);
    let gated = expand_and_gate_jobs(&cfg, "a").unwrap();
    assert!(gated.report.is_empty());
    let skip = NameSet::of(&names(&["v-qos2"]));
    assert!(nominal_total_fits(&gated.jobs, &skip, &cfg));
    let mut l = SpawnLoop::new(gated.jobs, skip, &cfg);
    assert_eq!(l.len(), 4);
    let mut seen: Vec<(String, JobAction)> = Vec::new();
    while let Some(action) = l.next_action() {
        seen.push((l.current().1.effective_name.clone(), action));
        l.advance();
    }
    assert_eq!(
        seen,
        vec![
            ("v-qos1".to_string(), JobAction::Spawn { pause: false }),
            ("v-qos2".to_string(), JobAction::Skip),
            ("v-qos3".to_string(), JobAction::Spawn { pause: false }),
            ("w".to_string(), JobAction::Spawn { pause: false }),
        ]
    );
    let (so_far, remaining) = l.nominal_split();
    assert_eq!(so_far, Duration::from_millis(2 * 6250 + 30_000));
    assert_eq!(remaining, Duration { nanos: 0 });

    let gated = expand_and_gate_jobs(&cfg, "a").unwrap();
    let mut l = SpawnLoop::new(gated.jobs, NameSet::new(), &cfg);
    let mut pauses = Vec::new();
    while let Some(action) = l.next_action() {
        pauses.push(action == JobAction::Spawn { pause: true });
        l.advance();
    }
    assert_eq!(pauses, vec![false, true, true, false]);
}

#[test]
fn spawns_come_with_the_place_of_their_variant() {
    let cfg = config(vec![
        variant("v", &[("qos", levels(&[1, 2]))]),
        variant("w", &[]),
        variant("x", &[("qos", levels(&[3, 4]))]),
    ]);
    let gated = expand_and_gate_jobs(&cfg, "a").unwrap();
    let places: Vec<usize> = gated.jobs.iter().map(|(i, _)| *i).collect();
    assert_eq!(places, vec![0, 0, 1, 2, 2]);
    for (i, job) in &gated.jobs {
        assert_eq!(*i, job.source_index);
    }
}

#[test]
fn no_pause_where_none_is_set() {
    let mut cfg = config(vec![variant("v", &[("qos", levels(&[1, 2]))])]);
    cfg.inter_qos_grace_ms = Some(0);
    let gated = expand_and_gate_jobs(&cfg, "a").unwrap();
    let mut l = SpawnLoop::new(gated.jobs, NameSet::new(), &cfg);
    l.advance();
    assert_eq!(l.next_action(), Some(JobAction::Spawn { pause: false }));
}

#[test]
fn progress_line_shows_elapsed_and_remaining_time() {
    let s = Duration::from_secs;
    assert!(eta_in_range(s(70), s(30), s(90), 1, 4));
    assert_eq!(
        emit_progress_eta("a", 1, 4, s(70), s(30), s(90)).unwrap(),
        "[runner:a] progress: 1/4 done | elapsed 1m 10s | ETA ~3m 30s"
    );
    assert_eq!(emit_progress_eta("a", 4, 4, s(70), s(30), s(90)), None);
    let most = Duration::from_secs(u64::MAX);
    assert!(!eta_in_range(most, s(0), most, 1, 4));
}

fn row(status: &str, code: i32) -> SummaryRow {
    SummaryRow {
        variant: "v".to_string(),
        runner: "a".to_string(),
        status: status.to_string(),
        exit_code: code,
    }
}

#[test]
fn summary_is_a_table() {
    let mut results = NameMap::new();
    results.insert("b".to_string(), ("failed".to_string(), -1));
    results.insert("a".to_string(), ("success".to_string(), 0));
    let mut rows = vec![skipped_row("short", "a")];
    rows.extend(done_rows("a-name-that-is-longer-than-24", &results));
    assert_eq!(
        print_summary("r1", &rows),
        vec![
            "Benchmark run: r1".to_string(),
            "Variant                  Runner   Status    Exit".to_string(),
            "short                    a        skipped   0".to_string(),
            "a-name-that-is-longer-than-24 a        success   0".to_string(),
            "a-name-that-is-longer-than-24 b        failed    -1".to_string(),
        ]
    );
    assert!(any_failure(&rows));
    assert!(!any_failure(&rows[..2]));
    assert_eq!(
        resume_summary_line(&rows),
        "Resume: 1 spawns reused, 2 spawns executed, 1 failed."
    );
}

#[test]
fn a_timeout_is_a_failure_and_a_skip_is_none() {
    assert!(!any_failure(&[row("success", 0), row("skipped", 0)]));
    assert!(any_failure(&[row("success", 0), row("timeout", -1)]));
    assert!(!any_failure(&[]));
    assert_eq!(EX_TEMPFAIL, 75);
}

#[test]
fn failure_diagnostics_show_the_end_of_stderr() {
    assert_eq!(
        print_failure_diagnostics("a", "/l/e.txt", Some("/l/x.jsonl"), StderrTail::Text("one\ntwo")),
        "[runner:a] stderr capture: /l/e.txt\n\
         [runner:a] jsonl log:      /l/x.jsonl\n\
         [runner:a] ---- stderr tail (last 20 lines) ----\n\
         one\ntwo\n\
         [runner:a] ---- end stderr tail ----\n"
    );
    assert_eq!(
        print_failure_diagnostics("a", "/l/e.txt", None, StderrTail::Text("")),
        "[runner:a] stderr capture: /l/e.txt\n\
         [runner:a] (stderr capture is empty -- child likely killed before writing any output)\n"
    );
    assert_eq!(
        print_failure_diagnostics("a", "/l/e.txt", None, StderrTail::Missing),
        "[runner:a] stderr capture: /l/e.txt\n"
    );
    assert!(
        print_failure_diagnostics("a", "/e", None, StderrTail::Unreadable("denied"))
            .ends_with("[runner:a] WARN: failed to read stderr capture for tail: denied\n")
    );
    let file = jsonl_log_path("/l", "v", "a", "r");
    assert_eq!((file.dir.as_str(), file.file_name.as_str()), ("/l", "v-a-r.jsonl"));
}

#[test]
fn tail_keeps_the_last_lines() {
    assert_eq!(tail_lines("", 3), "");
    assert_eq!(tail_lines("a\nb\nc\n", 2), "b\nc\n");
    assert_eq!(tail_lines("a\nb\nc", 2), "b\nc");
    assert_eq!(tail_lines("a\nb", 5), "a\nb");
    assert_eq!(tail_lines("a\n\n", 1), "\n");
    assert_eq!(tail_lines("a\nb", 0), "");
}

#[test]
fn peers_and_unknown_runners() {
    let runners = names(&["b", "a", "c"]);
    assert_eq!(peers_of(&runners, "a"), names(&["b", "c"]));
    assert!(require_known_runner("c", &runners).is_ok());
    assert_eq!(
        require_known_runner("x", &runners).unwrap_err(),
        "runner name 'x' is not in the config runners list: [\"b\", \"a\", \"c\"]"
    );
    let mut m = NameMap::new();
    let none = PeerMeasurement {
        measurement: None,
        attempts: Vec::new(),
    };
    m.insert("b".to_string(), none);
    assert_eq!(failed_peers(&names(&["b", "c"]), &m), names(&["b", "c"]));
    assert!(failed_peers(&[], &m).is_empty());
}

#[test]
fn selectors_match_by_wildcards() {
    for (pattern, name, expected) in [
        ("zenoh-*", "zenoh-max", true),
        ("zenoh-*", "zenoh-", true),
        ("zenoh-*", "zenoh", false),
        ("*", "", true),
        ("?", "", false),
        ("?", "x", true),
        ("a?c", "abc", true),
        ("a?c", "ac", false),
        ("*b*", "abc", true),
        ("*b*", "acd", false),
        ("abc", "abc", true),
        ("abc", "abcd", false),
        ("a**c", "ac", true),
    ] {
        assert_eq!(glob_matches(pattern, name), expected, "{pattern} on {name}");
    }
}

#[test]
fn later_overrides_win_for_matching_variants() {
    let args = parse_variant_args(&names(&["*.x=default", "zenoh-*.x=override", "*.y=1"])).unwrap();
    let zenoh = resolve_for_variant(&args, "zenoh-max");
    assert_eq!(zenoh.get("x").unwrap().value, text("override"));
    assert_eq!(zenoh.get("x").unwrap().selector, "zenoh-*");
    let quic = resolve_for_variant(&args, "quic");
    assert_eq!(quic.get("x").unwrap().value, text("default"));
    let table = drop_selector_provenance(&quic);
    assert_eq!(table.keys(), names(&["x", "y"]));
    assert_eq!(table.get("y"), Some(&text("1")));

    let mut toml = Table::new();
    toml.insert("x".to_string(), text("t"));
    toml.insert("z".to_string(), TomlValue::Boolean(true));
    assert_eq!(
        render_specific_args(Some(&toml), &zenoh),
        "x=override (cli: zenoh-*), y=1 (cli: *), z=true (toml)"
    );
    assert_eq!(render_specific_args(None, &NameMap::new()), "");
}

#[test]
fn local_interface_ips_includes_loopback() {
    for found in [None, Some(&[][..]), Some(&[Ip::V4(0xc0a8_0101)][..])] {
        assert!(enumerate_local_ips(found).contains(&Ip::V4(0x7f00_0001)));
    }
}

#[test]
fn local_interface_ips_is_non_empty() {
    assert!(!enumerate_local_ips(None).is_empty());
}

#[test]
fn canonical_peer_host_maps_localhost_to_loopback() {
    let local = enumerate_local_ips(None);
    assert_eq!(canonical_peer_host(Ip::V4(0x7f00_0001), "127.0.0.1", &local), "127.0.0.1");
}

#[test]
fn canonical_peer_host_maps_local_interface_to_loopback() {
    let lan = Ip::V4(0xc0a8_0101);
    let local = enumerate_local_ips(Some(&[lan]));
    assert_eq!(canonical_peer_host(lan, "192.168.1.1", &local), "127.0.0.1");
}

#[test]
fn canonical_peer_host_passes_through_remote_ip() {
    let remote = Ip::V4(0xcb00_712a);
    let local = enumerate_local_ips(Some(&[Ip::V4(0xc0a8_0101)]));
    assert!(!local.contains(&remote));
    assert_eq!(canonical_peer_host(remote, "203.0.113.42", &local), "203.0.113.42");
}

#[test]
fn peers_on_this_machine_are_known_by_the_loopback_address() {
    let lan = Ip::V4(0xc0a8_0101);
    let local = enumerate_local_ips(Some(&[lan, lan, Ip::V4(0x7f00_0001)]));
    assert_eq!(local, vec![Ip::V4(0x7f00_0001), Ip::V6(1), lan]);
    assert_eq!(enumerate_local_ips(None), vec![Ip::V4(0x7f00_0001), Ip::V6(1)]);
    assert_eq!(canonical_peer_host(Ip::V4(0x7f00_0001), "x", &[]), "127.0.0.1");
    assert_eq!(canonical_peer_host(Ip::V6(1), "::1", &[]), "127.0.0.1");
    assert_eq!(canonical_peer_host(lan, "192.168.1.1", &local), "127.0.0.1");
    assert_eq!(
        canonical_peer_host(Ip::V4(0xcb00_712a), "203.0.113.42", &local),
        "203.0.113.42"
    );
}

#[test]
fn panics_are_attributed() {
    let place = PanicPlace {
        file: "src/x.rs",
        line: 7,
        column: 9,
    };
    assert_eq!(
        panic_lines("a", Some("main"), Some("boom"), Some(place)),
        names(&[
            "[runner:a] PANIC in thread 'main': boom",
            "[runner:a] panic location: src/x.rs:7:9"
        ])
    );
    assert_eq!(
        panic_lines("a", None, None, None),
        names(&["[runner:a] PANIC in thread '<unnamed>': <non-string panic payload>"])
    );
}

#[test]
fn config_is_resolved_checked_and_hashed() {
    let mut v = variant("v", &[]);
    v.template = Some("t".to_string());
    v.binary = String::new();
    let mut cfg = config(vec![v]);
    cfg.variant_templates.push(VariantTemplate {
        name: "t".to_string(),
        binary: Some("./from-t".to_string()),
        timeout_secs: None,
        common: None,
        specific: None,
    });
    let (cfg, hash) = BenchConfig::from_file(b"abc", cfg).unwrap();
    assert_eq!(cfg.variant[0].binary, "./from-t");
    assert_eq!(
        hash,
        "ba7816bf8f01cfea414140de5dae2223b00361a396177a9cb410ff61f20015ad"
    );

    let mut twice = cfg;
    twice.resolve_templates().unwrap();
    assert_eq!(twice.variant[0].binary, "./from-t");
}

fn fault(key: &str, value: TomlValue) -> (Fault, String) {
    let cfg = config(vec![variant("v", &[(key, value)])]);
    match cfg.validate().unwrap_err() {
        ConfigError::InvalidSetting { cause, .. } => (cause.fault, cause.full_message()),
        other => panic!("{other:?}"),
    }
}

#[test]
fn settings_that_cannot_be_used_are_named() {
    assert_eq!(
        fault("qos", TomlValue::Integer(300)).1,
        "qos value 300 does not fit in u8: out of range integral type conversion attempted"
    );
    assert_eq!(fault("qos", TomlValue::Integer(-1)).0, Fault::TooWide { n: -1, bits: 8 });
    assert_eq!(
        fault("qos", TomlValue::Boolean(true)).1,
        "qos must be an integer, an array of integers, or omitted (got Boolean(true))"
    );
    assert_eq!(
        fault("tick_rate_hz", text("fast")).1,
        "tick_rate_hz must be an integer or an array of integers (got String(\"fast\"))"
    );
    let oops = TomlValue::Array {
        items: vec![TomlItem::Integer(10), TomlItem::Text("o\"ps".to_string())],
        rendered: String::new(),
    };
    assert_eq!(
        fault("values_per_tick", oops).1,
        "values_per_tick array element is not an integer: String(\"o\\\"ps\")"
    );
    let mut cfg = config(vec![variant("v", &[])]);
    cfg.variant[0].common.remove("tick_rate_hz");
    assert_eq!(
        cfg.validate().unwrap_err().full_message(),
        "config: variant 'v' has invalid tick_rate_hz: tick_rate_hz is required in [variant.common]"
    );
    cfg.variant[0].timeout_secs = Some(0);
    assert_eq!(
        cfg.validate().unwrap_err().message(),
        "config: variant 'v' has timeout_secs of 0 (must be positive)"
    );
    let mut cfg = config(Vec::new());
    cfg.variant_templates.push(VariantTemplate {
        name: String::new(),
        binary: None,
        timeout_secs: None,
        common: None,
        specific: None,
    });
    assert_eq!(cfg.resolve_templates(), Err(ConfigError::EmptyTemplateName));
}

#[test]
fn modes_and_buffer_sizes_that_cannot_be_used_are_named() {
    let modes = |v: TomlValue| {
        let e = variant("v", &[("threading_modes", v)]).threading_modes_spec();
        e.unwrap_err().message()
    };
    assert_eq!(
        modes(text("both")),
        "threading_modes value 'both' is not 'single' or 'multi'"
    );
    assert_eq!(modes(levels(&[])), "threading_modes array must be non-empty");
    assert_eq!(
        modes(levels(&[1])),
        "threading_modes must be a string or an array of strings (got Integer(1))"
    );
    let buffer = variant("v", &[("recv_buffer_kb", text("big"))]).recv_buffer_kb();
    assert_eq!(
        buffer.unwrap_err().message(),
        "recv_buffer_kb must be an integer (got String(\"big\"))"
    );
    let mut v = variant("v", &[]);
    v.supported_modes = Some(names(&["multi", "none"]));
    assert_eq!(
        v.supported_modes_resolved().unwrap_err().message(),
        "supported_modes value 'none' is not 'single' or 'multi'"
    );
    v.supported_modes = Some(names(&["multi"]));
    assert_eq!(v.supported_modes_resolved().unwrap(), Some(vec![ThreadingMode::Multi]));
}

#[test]
fn name_sets_and_maps_are_ordered() {
    let mut set = NameSet::of(&names(&["b", "a", "ab", "", "b"]));
    assert_eq!(set.to_vec(), names(&["", "a", "ab", "b"]));
    set.remove("a");
    assert!(!set.contains("a"));
    assert_eq!(set.len(), 3);
    assert!(set.equals(&NameSet::of(&names(&["b", "", "ab"]))));
    assert!(!set.equals(&NameSet::new()));
    let mut map: NameMap<i32> = NameMap::new();
    map.insert("b".to_string(), 1);
    map.insert("a".to_string(), 2);
    map.insert("b".to_string(), 3);
    map.insert_new("b".to_string(), 4);
    assert_eq!(map.keys(), names(&["a", "b"]));
    assert_eq!(map.get("b"), Some(&3));
    assert_eq!(map.remove("b"), Some(3));
    assert_eq!(map.remove("b"), None);
    assert_eq!(map.clone().len(), 1);
}
