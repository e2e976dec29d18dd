//! Command lines: overrides by the operator, and what a variant is started with.

use runner::cli_args::{
    build_variant_args, format_peers_arg, parse_variant_arg_overrides, specific_arg_provenance,
    to_kebab_flag, SpecificArgProvenance,
};
use runner::config::{BenchConfig, ThreadingMode, VariantConfig, VariantTemplate};
use runner::names::NameMap;
use runner::toml_value::{toml_value_to_string, Table, TomlItem, TomlValue};
use std::collections::HashMap;

fn item_from(v: &toml::Value) -> TomlItem {
    match v {
        toml::Value::String(s) => TomlItem::Text(s.clone()),
        toml::Value::Integer(n) => TomlItem::Integer(*n),
        other => TomlItem::Other(format!("{other:?}")),
    }
}

fn value_from(v: &toml::Value) -> TomlValue {
    match v {
        toml::Value::String(s) => TomlValue::Text(s.clone()),
        toml::Value::Integer(n) => TomlValue::Integer(*n),
        toml::Value::Boolean(b) => TomlValue::Boolean(*b),
        toml::Value::Float(f) => TomlValue::Other {
            rendered: f.to_string(),
            debug: format!("{v:?}"),
        },
        toml::Value::Array(items) => TomlValue::Array {
            items: items.iter().map(item_from).collect(),
            rendered: v.to_string(),
        },
        other => TomlValue::Other {
            rendered: other.to_string(),
            debug: format!("{other:?}"),
        },
    }
}

fn table_from(t: &toml::Table) -> Table {
    let mut out = Table::new();
    for (key, val) in t {
        out.insert(key.clone(), value_from(val));
    }
    out
}

fn text_in(t: &toml::Table, key: &str) -> Option<String> {
    t.get(key).and_then(|v| v.as_str()).map(|s| s.to_string())
}

fn texts_in(t: &toml::Table, key: &str) -> Option<Vec<String>> {
    t.get(key).and_then(|v| v.as_array()).map(|items| {
        items
            .iter()
            .map(|v| v.as_str().unwrap().to_string())
            .collect()
    })
}

fn number_in(t: &toml::Table, key: &str) -> Option<u64> {
    t.get(key).and_then(|v| v.as_integer()).map(|n| n as u64)
}

fn table_in(t: &toml::Table, key: &str) -> Option<Table> {
    t.get(key).and_then(|v| v.as_table()).map(table_from)
}

fn entries_in<'a>(t: &'a toml::Table, key: &str) -> Vec<&'a toml::Table> {
    match t.get(key).and_then(|v| v.as_array()) {
        Some(items) => items.iter().map(|v| v.as_table().unwrap()).collect(),
        None => Vec::new(),
    }
}

fn config_from(toml_str: &str) -> BenchConfig {
    let t: toml::Table = toml_str.parse().unwrap();
    BenchConfig {
        run: text_in(&t, "run").unwrap(),
        runners: texts_in(&t, "runners").unwrap(),
        default_timeout_secs: number_in(&t, "default_timeout_secs").unwrap(),
        inter_qos_grace_ms: number_in(&t, "inter_qos_grace_ms"),
        log_dir: t
            .get("runner")
            .and_then(|v| v.as_table())
            .and_then(|r| text_in(r, "log_dir")),
        variant_templates: entries_in(&t, "variant_template")
            .into_iter()
            .map(|e| VariantTemplate {
                name: text_in(e, "name").unwrap(),
                binary: text_in(e, "binary"),
                timeout_secs: number_in(e, "timeout_secs"),
                common: table_in(e, "common"),
                specific: table_in(e, "specific"),
            })
            .collect(),
        variant: entries_in(&t, "variant")
            .into_iter()
            .map(|e| VariantConfig {
                name: text_in(e, "name").unwrap(),
                template: text_in(e, "template"),
                binary: text_in(e, "binary").unwrap_or_default(),
                timeout_secs: number_in(e, "timeout_secs"),
                common: table_in(e, "common").unwrap_or_else(Table::new),
                specific: table_in(e, "specific"),
                supported_modes: texts_in(e, "supported_modes"),
            })
            .collect(),
    }
}

fn sample_config() -> BenchConfig {
    let toml_str = r#"
run = "run01"
runners = ["a"]
default_timeout_secs = 60

[[variant]]
name = "zenoh-replication"
binary = "./zenoh-variant"
timeout_secs = 30

  [variant.common]
  tick_rate_hz = 100
  stabilize_secs = 5
  operate_secs = 30
  silent_secs = 3
  workload = "scalar-flood"
  values_per_tick = 10
  qos = 2
  log_dir = "./logs"

  [variant.specific]
  zenoh_mode = "peer"
  zenoh_listen = "udp/0.0.0.0:7447"
"#;
    config_from(toml_str)
}

fn empty_peers() -> NameMap<String> {
    let mut m = NameMap::new();
    m.insert("a".into(), "127.0.0.1".into());
    m
}

fn build_args_with_common(extra_common: &str) -> Vec<String> {
    let toml_str = format!(
        r#"
run = "run01"
runners = ["a"]
default_timeout_secs = 60

[[variant]]
name = "v"
binary = "./x"
  [variant.common]
  tick_rate_hz = 100
  values_per_tick = 100
  qos = 1
  workload = "block-flood"
  {extra_common}
"#
    );
    let config: BenchConfig = config_from(&toml_str);
    let v = &config.variant[0];
    let peers = empty_peers();
    build_variant_args(
        v,
        "run01",
        "a",
        "2025-01-01T00:00:00Z",
        None,
        "v",
        1,
        100,
        100,
        ThreadingMode::Single,
        runner::config::DEFAULT_RECV_BUFFER_KB,
        &peers,
        None,
    )
}

fn assert_kebab_flag(args: &[String], flag: &str, expected_value: &str) {
    let count = args.iter().filter(|a| *a == flag).count();
    assert_eq!(count, 1, "{flag} must appear exactly once, got {args:?}");
    let idx = args.iter().position(|a| a == flag).unwrap();
    assert_eq!(args[idx + 1], expected_value, "{flag} value mismatch");
}

#[test]
fn kebab_conversion() {
    assert_eq!(to_kebab_flag("tick_rate_hz"), "--tick-rate-hz");
    assert_eq!(to_kebab_flag("qos"), "--qos");
    assert_eq!(to_kebab_flag("log_dir"), "--log-dir");
    assert_eq!(to_kebab_flag("values_per_tick"), "--values-per-tick");
}

#[test]
fn toml_value_formatting() {
    assert_eq!(toml_value_to_string(&value_from(&toml::Value::Integer(42))), "42");
    assert_eq!(
        toml_value_to_string(&value_from(&toml::Value::String("hello".into()))),
        "hello"
    );
    assert_eq!(toml_value_to_string(&value_from(&toml::Value::Boolean(true))), "true");
    assert_eq!(toml_value_to_string(&value_from(&toml::Value::Float(2.5))), "2.5");
}

#[test]
fn build_args_includes_all_sections() {
    let config = sample_config();
    let v = &config.variant[0];
    let peers = empty_peers();
    let args = build_variant_args(
        v,
        "run01",
        "a",
        "2025-01-01T00:00:00Z",
        None,
        "zenoh-replication",
        2,
        100,
        10,
        ThreadingMode::Single,
        runner::config::DEFAULT_RECV_BUFFER_KB,
        &peers,
        None,
    );

    // Common args should be present as --kebab-case.
    assert!(args.contains(&"--tick-rate-hz".to_string()));
    assert!(args.contains(&"100".to_string()));
    assert!(args.contains(&"--workload".to_string()));
    assert!(args.contains(&"scalar-flood".to_string()));
    assert!(args.contains(&"--qos".to_string()));
    assert!(args.contains(&"2".to_string()));
    assert!(args.contains(&"--values-per-tick".to_string()));
    assert!(args.contains(&"10".to_string()));

    // log_dir should use the config value when no override is given.
    assert!(args.contains(&"--log-dir".to_string()));
    assert!(args.contains(&"./logs".to_string()));

    // Specific args should be present.
    assert!(args.contains(&"--zenoh-mode".to_string()));
    assert!(args.contains(&"peer".to_string()));
    assert!(args.contains(&"--zenoh-listen".to_string()));
    assert!(args.contains(&"udp/0.0.0.0:7447".to_string()));

    // Runner-injected args should be at the end.
    let launch_idx = args.iter().position(|a| a == "--launch-ts").unwrap();
    let variant_idx = args.iter().position(|a| a == "--variant").unwrap();
    let runner_idx = args.iter().position(|a| a == "--runner").unwrap();
    let run_idx = args.iter().position(|a| a == "--run").unwrap();
    let peers_idx = args.iter().position(|a| a == "--peers").unwrap();

    // Injected args come after common and specific.
    assert!(launch_idx > 0);
    assert!(variant_idx > launch_idx);
    assert!(runner_idx > variant_idx);
    assert!(run_idx > runner_idx);
    assert!(peers_idx > run_idx);

    // Verify injected values.
    assert_eq!(args[launch_idx + 1], "2025-01-01T00:00:00Z");
    assert_eq!(args[variant_idx + 1], "zenoh-replication");
    assert_eq!(args[runner_idx + 1], "a");
    assert_eq!(args[run_idx + 1], "run01");
    assert_eq!(args[peers_idx + 1], "a=127.0.0.1");
}

#[test]
fn build_args_log_dir_override() {
    let config = sample_config();
    let v = &config.variant[0];
    let peers = empty_peers();
    let args = build_variant_args(
        v,
        "run01",
        "a",
        "2025-01-01T00:00:00Z",
        Some("./logs/run01-20260415_143022"),
        "zenoh-replication",
        2,
        100,
        10,
        ThreadingMode::Single,
        runner::config::DEFAULT_RECV_BUFFER_KB,
        &peers,
        None,
    );

    // --log-dir should use the override value, not the config value.
    let log_dir_idx = args.iter().position(|a| a == "--log-dir").unwrap();
    assert_eq!(args[log_dir_idx + 1], "./logs/run01-20260415_143022");
    // The original config value should not be present.
    assert!(!args.contains(&"./logs".to_string()));
}

#[test]
fn log_dir_override_is_passed_where_the_variant_has_none() {
    let config = config_from(
        r#"
run = "run01"
runners = ["a"]
default_timeout_secs = 60

[[variant]]
name = "v"
binary = "./x"
  [variant.common]
  qos = 1
  workload = "block-flood"
"#,
    );
    let build = |dir: Option<&str>| {
        build_variant_args(
            &config.variant[0],
            "run01",
            "a",
            "2025-01-01T00:00:00Z",
            dir,
            "v",
            1,
            100,
            100,
            ThreadingMode::Single,
            runner::config::DEFAULT_RECV_BUFFER_KB,
            &empty_peers(),
            None,
        )
    };
    let args = build(Some("./out"));
    assert_eq!(args[..4], ["--workload", "block-flood", "--log-dir", "./out"]);
    assert_eq!(args[4], "--tick-rate-hz");
    assert!(!build(None).contains(&"--log-dir".to_string()));
}

#[test]
fn build_args_without_specific() {
    let toml_str = r#"
run = "run01"
runners = ["a"]
default_timeout_secs = 60

[[variant]]
name = "simple"
binary = "./simple"

  [variant.common]
  tick_rate_hz = 10
  values_per_tick = 5
  operate_secs = 5
"#;
    let config: BenchConfig = config_from(toml_str);
    let v = &config.variant[0];
    let peers = empty_peers();
    let args = build_variant_args(
        v,
        "run01",
        "a",
        "2025-01-01T00:00:00Z",
        None,
        "simple",
        1,
        10,
        5,
        ThreadingMode::Single,
        runner::config::DEFAULT_RECV_BUFFER_KB,
        &peers,
        None,
    );

    // Should still have common args and injected args, no specific section.
    assert!(args.contains(&"--tick-rate-hz".to_string()));
    assert!(args.contains(&"--launch-ts".to_string()));
    assert!(args.contains(&"--variant".to_string()));
    assert!(args.contains(&"--peers".to_string()));
    assert_eq!(
        args.iter().position(|a| a == "--variant").unwrap() + 1,
        args.iter().position(|a| a == "simple").unwrap()
    );
}

#[test]
fn build_args_uses_effective_variant_name_and_qos() {
    // When expansion synthesizes a name like "v-qos3", build_variant_args
    // must use it for --variant and override --qos.
    let config = sample_config();
    let v = &config.variant[0];
    let peers = empty_peers();
    let args = build_variant_args(
        v,
        "run01",
        "a",
        "2025-01-01T00:00:00Z",
        None,
        "zenoh-replication-qos3",
        3,
        100,
        10,
        ThreadingMode::Single,
        runner::config::DEFAULT_RECV_BUFFER_KB,
        &peers,
        None,
    );

    let variant_idx = args.iter().position(|a| a == "--variant").unwrap();
    assert_eq!(args[variant_idx + 1], "zenoh-replication-qos3");

    // --qos should appear exactly once (the runner-injected one with value 3),
    // not the common-section value of 2.
    let qos_indices: Vec<usize> = args
        .iter()
        .enumerate()
        .filter(|(_, a)| *a == "--qos")
        .map(|(i, _)| i)
        .collect();
    assert_eq!(qos_indices.len(), 1, "--qos should appear exactly once");
    assert_eq!(args[qos_indices[0] + 1], "3");
}

#[test]
fn build_args_overrides_array_dimensions_with_per_spawn_scalars() {
    // When [variant.common] uses arrays for tick_rate_hz / values_per_tick,
    // build_variant_args must NOT emit those arrays. The runner-injected
    // per-spawn scalars are the only --tick-rate-hz / --values-per-tick
    // values the variant ever sees.
    let toml_str = r#"
run = "run01"
runners = ["a"]
default_timeout_secs = 60

[[variant]]
name = "v"
binary = "./x"
  [variant.common]
  tick_rate_hz = [10, 100]
  values_per_tick = [1, 1000]
  workload = "scalar-flood"
"#;
    let config: BenchConfig = config_from(toml_str);
    let v = &config.variant[0];
    let peers = empty_peers();
    let args = build_variant_args(
        v,
        "run01",
        "a",
        "2025-01-01T00:00:00Z",
        None,
        "v-1000x100hz",
        1,
        100,
        1000,
        ThreadingMode::Single,
        runner::config::DEFAULT_RECV_BUFFER_KB,
        &peers,
        None,
    );

    let hz_indices: Vec<usize> = args
        .iter()
        .enumerate()
        .filter(|(_, a)| *a == "--tick-rate-hz")
        .map(|(i, _)| i)
        .collect();
    assert_eq!(hz_indices.len(), 1, "--tick-rate-hz must appear once");
    assert_eq!(args[hz_indices[0] + 1], "100");

    let vpt_indices: Vec<usize> = args
        .iter()
        .enumerate()
        .filter(|(_, a)| *a == "--values-per-tick")
        .map(|(i, _)| i)
        .collect();
    assert_eq!(vpt_indices.len(), 1, "--values-per-tick must appear once");
    assert_eq!(args[vpt_indices[0] + 1], "1000");
}

#[test]
fn format_peers_arg_sorts_by_name() {
    let mut peers = NameMap::new();
    peers.insert("charlie".into(), "127.0.0.1".into());
    peers.insert("alice".into(), "192.168.1.10".into());
    peers.insert("bob".into(), "127.0.0.1".into());
    let s = format_peers_arg(&peers);
    assert_eq!(s, "alice=192.168.1.10,bob=127.0.0.1,charlie=127.0.0.1");
}

#[test]
fn format_peers_arg_single_entry() {
    let mut peers = NameMap::new();
    peers.insert("solo".into(), "127.0.0.1".into());
    assert_eq!(format_peers_arg(&peers), "solo=127.0.0.1");
}

#[test]
fn build_args_includes_peers_pairs_sorted() {
    let config = sample_config();
    let v = &config.variant[0];
    let mut peers = NameMap::new();
    peers.insert("zeta".into(), "192.168.1.20".into());
    peers.insert("alpha".into(), "127.0.0.1".into());
    let args = build_variant_args(
        v,
        "run01",
        "alpha",
        "2025-01-01T00:00:00Z",
        None,
        "zenoh-replication",
        1,
        100,
        10,
        ThreadingMode::Single,
        runner::config::DEFAULT_RECV_BUFFER_KB,
        &peers,
        None,
    );
    let peers_idx = args.iter().position(|a| a == "--peers").unwrap();
    assert_eq!(args[peers_idx + 1], "alpha=127.0.0.1,zeta=192.168.1.20");
}

#[test]
fn build_args_injects_threading_mode_unconditionally() {
    // From the runner emits `--threading-mode` for every spawn
    // regardless of whether the source config declared `threading_modes`.
    let toml_str = r#"
run = "run01"
runners = ["a"]
default_timeout_secs = 60

[[variant]]
name = "v"
binary = "./x"
  [variant.common]
  tick_rate_hz = 100
  values_per_tick = 1
  qos = 1
"#;
    let config: BenchConfig = config_from(toml_str);
    let v = &config.variant[0];
    let peers = empty_peers();
    let args = build_variant_args(
        v,
        "run01",
        "a",
        "2025-01-01T00:00:00Z",
        None,
        "v",
        1,
        100,
        1,
        ThreadingMode::Multi,
        8192,
        &peers,
        None,
    );

    let mode_idx = args
        .iter()
        .position(|a| a == "--threading-mode")
        .expect("--threading-mode must be injected unconditionally");
    assert_eq!(args[mode_idx + 1], "multi");

    let buf_idx = args
        .iter()
        .position(|a| a == "--recv-buffer-kb")
        .expect("--recv-buffer-kb must be injected unconditionally");
    assert_eq!(args[buf_idx + 1], "8192");
}

#[test]
fn build_args_threading_modes_common_value_does_not_leak() {
    // If a user puts `threading_modes = [...]` in [variant.common]
    // it must NOT leak through as a stray `--threading-modes` flag.
    // The per-spawn `--threading-mode` injection is the only signal.
    let toml_str = r#"
run = "run01"
runners = ["a"]
default_timeout_secs = 60

[[variant]]
name = "v"
binary = "./x"
  [variant.common]
  tick_rate_hz = 100
  values_per_tick = 1
  qos = 1
  threading_modes = ["single", "multi"]
  recv_buffer_kb = 16384
"#;
    let config: BenchConfig = config_from(toml_str);
    let v = &config.variant[0];
    let peers = empty_peers();
    let args = build_variant_args(
        v,
        "run01",
        "a",
        "2025-01-01T00:00:00Z",
        None,
        "v-single",
        1,
        100,
        1,
        ThreadingMode::Single,
        16384,
        &peers,
        None,
    );

    // The raw common-section keys must NOT leak as CLI args.
    assert!(
        !args.iter().any(|a| a == "--threading-modes"),
        "--threading-modes (the plural array form) must not leak through, got {args:?}"
    );

    // The injected per-spawn flags ARE present and correct.
    let mode_idx = args.iter().position(|a| a == "--threading-mode").unwrap();
    assert_eq!(args[mode_idx + 1], "single");

    let buf_idx = args.iter().position(|a| a == "--recv-buffer-kb").unwrap();
    assert_eq!(args[buf_idx + 1], "16384");

    // Each appears exactly once.
    assert_eq!(
        args.iter().filter(|a| *a == "--threading-mode").count(),
        1,
        "--threading-mode must appear exactly once"
    );
    assert_eq!(
        args.iter().filter(|a| *a == "--recv-buffer-kb").count(),
        1,
        "--recv-buffer-kb must appear exactly once"
    );
}

#[test]
fn build_args_forwards_blob_size() {
    let args = build_args_with_common("blob_size = 100");
    assert_kebab_flag(&args, "--blob-size", "100");
}

#[test]
fn build_args_forwards_all_seven_workload_shape_keys() {
    let extra = "
    blob_size = 50
    mixed_scalars_min = 1
    mixed_scalars_max = 7
    mixed_arrays_min = 0
    mixed_arrays_max = 3
    mixed_dict_split_max = 4
    workload_seed = 42424242
    ";
    let args = build_args_with_common(extra);
    assert_kebab_flag(&args, "--blob-size", "50");
    assert_kebab_flag(&args, "--mixed-scalars-min", "1");
    assert_kebab_flag(&args, "--mixed-scalars-max", "7");
    assert_kebab_flag(&args, "--mixed-arrays-min", "0");
    assert_kebab_flag(&args, "--mixed-arrays-max", "3");
    assert_kebab_flag(&args, "--mixed-dict-split-max", "4");
    assert_kebab_flag(&args, "--workload-seed", "42424242");
}

#[test]
fn build_args_omits_workload_shape_keys_when_absent() {
    let args = build_args_with_common("");
    for flag in [
        "--blob-size",
        "--mixed-scalars-min",
        "--mixed-scalars-max",
        "--mixed-arrays-min",
        "--mixed-arrays-max",
        "--mixed-dict-split-max",
        "--workload-seed",
    ] {
        assert!(
            !args.contains(&flag.to_string()),
            "{flag} must not appear when the TOML omits the key, got {args:?}"
        );
    }
}

#[test]
fn build_args_workload_seed_accepts_large_u64() {
    // workload_seed is documented as a u64; the runner forwards it
    // verbatim as a stringified integer. TOML's integer type is i64, so
    // the largest representable value is i64::MAX.
    let args = build_args_with_common(&format!("workload_seed = {}", i64::MAX));
    assert_kebab_flag(&args, "--workload-seed", &i64::MAX.to_string());
}

#[test]
fn build_args_forwards_blob_size_inherited_from_template() {
    // Template declares blob_size; variant entry omits it. After
    // resolve_templates() the variant's common table should carry
    // blob_size and the generic CLI loop emits --blob-size.
    let toml_str = r#"
run = "run01"
runners = ["a"]
default_timeout_secs = 60

[[variant_template]]
name = "blockflood-base"
binary = "./x"
  [variant_template.common]
  blob_size = 250
  workload = "block-flood"

[[variant]]
template = "blockflood-base"
name = "v"
  [variant.common]
  tick_rate_hz = 100
  values_per_tick = 1000
  qos = 1
"#;
    let mut config: BenchConfig = config_from(toml_str);
    config.resolve_templates().unwrap();
    let v = &config.variant[0];
    let peers = empty_peers();
    let args = build_variant_args(
        v,
        "run01",
        "a",
        "2025-01-01T00:00:00Z",
        None,
        "v",
        1,
        100,
        1000,
        ThreadingMode::Single,
        runner::config::DEFAULT_RECV_BUFFER_KB,
        &peers,
        None,
    );
    assert_kebab_flag(&args, "--blob-size", "250");
    // The template's workload value also propagated.
    assert_kebab_flag(&args, "--workload", "block-flood");
}

#[test]
fn build_args_variant_blob_size_overrides_template() {
    let toml_str = r#"
run = "run01"
runners = ["a"]
default_timeout_secs = 60

[[variant_template]]
name = "blockflood-base"
binary = "./x"
  [variant_template.common]
  blob_size = 250
  workload = "block-flood"

[[variant]]
template = "blockflood-base"
name = "v"
  [variant.common]
  tick_rate_hz = 100
  values_per_tick = 1000
  qos = 1
  blob_size = 500
"#;
    let mut config: BenchConfig = config_from(toml_str);
    config.resolve_templates().unwrap();
    let v = &config.variant[0];
    let peers = empty_peers();
    let args = build_variant_args(
        v,
        "run01",
        "a",
        "2025-01-01T00:00:00Z",
        None,
        "v",
        1,
        100,
        1000,
        ThreadingMode::Single,
        runner::config::DEFAULT_RECV_BUFFER_KB,
        &peers,
        None,
    );
    assert_kebab_flag(&args, "--blob-size", "500");
}

#[test]
fn parse_variant_arg_rejects_entry_with_no_dot_or_equals() {
    let raw = vec!["foo".to_string()];
    let err = parse_variant_arg_overrides(&raw).unwrap_err();
    let msg = err.message();
    assert!(
        msg.contains("'foo'"),
        "error must name the bad entry: {msg}"
    );
    assert!(
        msg.contains("missing '.'"),
        "error must mention missing '.': {msg}"
    );
}

#[test]
fn parse_variant_arg_rejects_entry_with_no_equals() {
    let raw = vec!["foo.bar".to_string()];
    let err = parse_variant_arg_overrides(&raw).unwrap_err();
    let msg = err.message();
    assert!(msg.contains("'foo.bar'"), "{msg}");
    assert!(msg.contains("missing '='"), "{msg}");
}

#[test]
fn parse_variant_arg_rejects_empty_variant() {
    let raw = vec!["=bar".to_string()];
    let err = parse_variant_arg_overrides(&raw).unwrap_err();
    let msg = err.message();
    // `=bar` -> split_once('.') returns None -> "missing '.'" error.
    // That's acceptable; the entry IS malformed and the offending text
    // appears in the message.
    assert!(msg.contains("'=bar'"), "{msg}");
}

#[test]
fn parse_variant_arg_rejects_dotless_after_first_eq() {
    // `=bar` — variant is empty before the first `.`, but split_once('.')
    // returns None first. To exercise the empty-variant guard we need an
    // entry that has a `.` but starts with it.
    let raw = vec![".key=value".to_string()];
    let err = parse_variant_arg_overrides(&raw).unwrap_err();
    let msg = err.message();
    assert!(
        msg.contains("variant name") && msg.contains("empty"),
        "expected empty-variant-name error, got: {msg}"
    );
}

#[test]
fn parse_variant_arg_rejects_empty_key() {
    // variant present, but key (between '.' and '=') is empty.
    let raw = vec!["zenoh.=value".to_string()];
    let err = parse_variant_arg_overrides(&raw).unwrap_err();
    let msg = err.message();
    assert!(
        msg.contains("key") && msg.contains("empty"),
        "expected empty-key error, got: {msg}"
    );
}

#[test]
fn parse_variant_arg_accepts_empty_value() {
    let raw = vec!["zenoh.flag=".to_string()];
    let out = parse_variant_arg_overrides(&raw).unwrap();
    let zenoh = out.get("zenoh").unwrap();
    assert_eq!(
        zenoh.get("flag").unwrap(),
        &TomlValue::Text(String::new())
    );
}

#[test]
fn parse_variant_arg_groups_multiple_entries_for_same_variant() {
    let raw = vec![
        "zenoh.multicast_interface=192.168.1.68".to_string(),
        "zenoh.zenoh_mode=peer".to_string(),
    ];
    let out = parse_variant_arg_overrides(&raw).unwrap();
    assert_eq!(out.len(), 1, "exactly one variant expected: {out:?}");
    let zenoh = out.get("zenoh").unwrap();
    assert_eq!(zenoh.len(), 2);
    assert_eq!(
        zenoh.get("multicast_interface").unwrap(),
        &TomlValue::Text("192.168.1.68".to_string())
    );
    assert_eq!(
        zenoh.get("zenoh_mode").unwrap(),
        &TomlValue::Text("peer".to_string())
    );
}

#[test]
fn parse_variant_arg_groups_by_variant_when_multiple_variants() {
    let raw = vec![
        "zenoh.multicast_interface=192.168.1.68".to_string(),
        "quic.cert_path=/etc/quic.pem".to_string(),
    ];
    let out = parse_variant_arg_overrides(&raw).unwrap();
    assert_eq!(out.len(), 2);
    assert!(out.contains_key("zenoh"));
    assert!(out.contains_key("quic"));
}

#[test]
fn parse_variant_arg_value_with_equals_in_value() {
    // The value half can itself contain `=`; we split on the FIRST `=`.
    let raw = vec!["zenoh.connection_string=key=value;other=stuff".to_string()];
    let out = parse_variant_arg_overrides(&raw).unwrap();
    let zenoh = out.get("zenoh").unwrap();
    assert_eq!(
        zenoh.get("connection_string").unwrap(),
        &TomlValue::Text("key=value;other=stuff".to_string())
    );
}

#[test]
fn parse_variant_arg_value_with_dot_in_value() {
    // The value half can also contain `.` (IP addresses, paths). We
    // split on the FIRST `.` so dotted values after the first split
    // survive intact.
    let raw = vec!["zenoh.multicast_interface=192.168.1.68".to_string()];
    let out = parse_variant_arg_overrides(&raw).unwrap();
    let zenoh = out.get("zenoh").unwrap();
    assert_eq!(
        zenoh.get("multicast_interface").unwrap(),
        &TomlValue::Text("192.168.1.68".to_string())
    );
}

#[test]
fn build_args_merges_cli_overrides_with_toml_specific() {
    // TOML has a=1, b=2. CLI has b=3, c=4. Merged: a=1 (toml), b=3
    // (cli wins), c=4 (cli-only). Emit order lexicographic: a, b, c.
    let toml_str = r#"
run = "run01"
runners = ["a"]
default_timeout_secs = 60

[[variant]]
name = "v"
binary = "./x"
  [variant.common]
  tick_rate_hz = 100
  values_per_tick = 1
  qos = 1
  [variant.specific]
  a = "1"
  b = "2"
"#;
    let config: BenchConfig = config_from(toml_str);
    let v = &config.variant[0];
    let peers = empty_peers();

    let mut overrides: Table = Table::new();
    overrides.insert("b".to_string(), TomlValue::Text("3".to_string()));
    overrides.insert("c".to_string(), TomlValue::Text("4".to_string()));

    let args = build_variant_args(
        v,
        "run01",
        "a",
        "2025-01-01T00:00:00Z",
        None,
        "v",
        1,
        100,
        1,
        ThreadingMode::Single,
        runner::config::DEFAULT_RECV_BUFFER_KB,
        &peers,
        Some(&overrides),
    );

    // Find the `--` separator that introduces the specific block.
    let sep_idx = args
        .iter()
        .position(|a| a == "--")
        .expect("specific section must be present");
    let specific = &args[sep_idx + 1..];

    // Expected emission order (lexicographic): --a 1 --b 3 --c 4
    assert_eq!(
        specific,
        &[
            "--a".to_string(),
            "1".to_string(),
            "--b".to_string(),
            "3".to_string(),
            "--c".to_string(),
            "4".to_string(),
        ],
        "merged specific args mismatch (TOML a=1,b=2 + CLI b=3,c=4)"
    );
}

#[test]
fn build_args_cli_only_specific_no_toml() {
    // No `[variant.specific]` table at all; CLI provides one override.
    // The `--` separator + the override must be emitted.
    let toml_str = r#"
run = "run01"
runners = ["a"]
default_timeout_secs = 60

[[variant]]
name = "v"
binary = "./x"
  [variant.common]
  tick_rate_hz = 100
  values_per_tick = 1
  qos = 1
"#;
    let config: BenchConfig = config_from(toml_str);
    let v = &config.variant[0];
    let peers = empty_peers();

    let mut overrides: Table = Table::new();
    overrides.insert(
        "multicast_interface".to_string(),
        TomlValue::Text("192.168.1.68".to_string()),
    );

    let args = build_variant_args(
        v,
        "run01",
        "a",
        "2025-01-01T00:00:00Z",
        None,
        "v",
        1,
        100,
        1,
        ThreadingMode::Single,
        runner::config::DEFAULT_RECV_BUFFER_KB,
        &peers,
        Some(&overrides),
    );

    let sep_idx = args
        .iter()
        .position(|a| a == "--")
        .expect("specific section must be present (CLI-only override)");
    assert_eq!(args[sep_idx + 1], "--multicast-interface");
    assert_eq!(args[sep_idx + 2], "192.168.1.68");
}

#[test]
fn build_args_no_specific_and_no_overrides_emits_no_separator() {
    let toml_str = r#"
run = "run01"
runners = ["a"]
default_timeout_secs = 60

[[variant]]
name = "v"
binary = "./x"
  [variant.common]
  tick_rate_hz = 100
  values_per_tick = 1
  qos = 1
"#;
    let config: BenchConfig = config_from(toml_str);
    let v = &config.variant[0];
    let peers = empty_peers();
    let args = build_variant_args(
        v,
        "run01",
        "a",
        "2025-01-01T00:00:00Z",
        None,
        "v",
        1,
        100,
        1,
        ThreadingMode::Single,
        runner::config::DEFAULT_RECV_BUFFER_KB,
        &peers,
        None,
    );
    // No `--` separator since there are no specific args at all.
    assert!(
        !args.iter().any(|a| a == "--"),
        "no `--` separator expected, got: {args:?}"
    );
}

#[test]
fn build_args_cli_overrides_for_other_variant_do_not_leak() {
    let toml_str = r#"
run = "run01"
runners = ["a"]
default_timeout_secs = 60

[[variant]]
name = "y"
binary = "./x"
  [variant.common]
  tick_rate_hz = 100
  values_per_tick = 1
  qos = 1
  [variant.specific]
  k = "from-toml"
"#;
    let config: BenchConfig = config_from(toml_str);
    let v = &config.variant[0];
    let peers = empty_peers();
    let args = build_variant_args(
        v,
        "run01",
        "a",
        "2025-01-01T00:00:00Z",
        None,
        "y",
        1,
        100,
        1,
        ThreadingMode::Single,
        runner::config::DEFAULT_RECV_BUFFER_KB,
        &peers,
        None,
    );
    let sep_idx = args.iter().position(|a| a == "--").unwrap();
    let specific = &args[sep_idx + 1..];
    assert_eq!(
        specific,
        &["--k".to_string(), "from-toml".to_string()],
        "specific args should reflect TOML only (no leak from another variant)"
    );
}

#[test]
fn specific_arg_provenance_tags_correctly() {
    // TOML: a=1, b=2. CLI: b=3, c=4.
    // Expected provenance: a=1 (toml), b=3 (cli), c=4 (cli).
    let mut toml_table = Table::new();
    toml_table.insert("a".into(), TomlValue::Text("1".into()));
    toml_table.insert("b".into(), TomlValue::Text("2".into()));

    let mut overrides: Table = Table::new();
    overrides.insert("b".to_string(), TomlValue::Text("3".to_string()));
    overrides.insert("c".to_string(), TomlValue::Text("4".to_string()));

    let prov = specific_arg_provenance(Some(&toml_table), Some(&overrides));
    let by_key: HashMap<String, (String, SpecificArgProvenance)> = prov
        .iter()
        .map(|(k, v, p)| (k.clone(), (v.clone(), *p)))
        .collect();
    assert_eq!(by_key["a"], ("1".to_string(), SpecificArgProvenance::Toml));
    assert_eq!(by_key["b"], ("3".to_string(), SpecificArgProvenance::Cli));
    assert_eq!(by_key["c"], ("4".to_string(), SpecificArgProvenance::Cli));
    // Lexicographic emit order.
    let keys: Vec<&String> = prov.iter().map(|(k, _, _)| k).collect();
    assert_eq!(keys, vec!["a", "b", "c"]);
}
