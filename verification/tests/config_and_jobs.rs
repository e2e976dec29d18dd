//! Configs in TOML: reading settings, drawing on templates, validation, expansion into
//! spawns and what those take by their settings.

use runner::config::{
    config_hash, BenchConfig, PositiveSpec, QosSpec, ThreadingMode, VariantConfig, VariantTemplate,
    DEFAULT_INTER_QOS_GRACE_MS,
};
use runner::matrix::expand_and_gate_jobs;
use runner::progress_eta::spawn_nominal_duration;
use runner::spawn_job::expand_variant;
use runner::time::Duration;
use runner::toml_value::{Table, TomlItem, TomlValue};

fn item_from(v: &toml::Value) -> TomlItem {
    match v {
        toml::Value::String(s) => TomlItem::Text(s.clone()),
        toml::Value::Integer(n) => TomlItem::Integer(*n),
        other => TomlItem::Other(format!("{other:?}")),
    }
}

fn value_from(v: &toml::Value) -> TomlValue {
    match v {
        toml::Value::String(s) => TomlValue::Text(s.clone()),
        toml::Value::Integer(n) => TomlValue::Integer(*n),
        toml::Value::Boolean(b) => TomlValue::Boolean(*b),
        toml::Value::Float(f) => TomlValue::Other {
            rendered: f.to_string(),
            debug: format!("{v:?}"),
        },
        toml::Value::Array(items) => TomlValue::Array {
            items: items.iter().map(item_from).collect(),
            rendered: v.to_string(),
        },
        other => TomlValue::Other {
            rendered: other.to_string(),
            debug: format!("{other:?}"),
        },
    }
}

fn table_from(t: &toml::Table) -> Table {
    let mut out = Table::new();
    for (key, val) in t {
        out.insert(key.clone(), value_from(val));
    }
    out
}

fn text_in(t: &toml::Table, key: &str) -> Option<String> {
    t.get(key).and_then(|v| v.as_str()).map(|s| s.to_string())
}

fn texts_in(t: &toml::Table, key: &str) -> Option<Vec<String>> {
    t.get(key).and_then(|v| v.as_array()).map(|items| {
        items
            .iter()
            .map(|v| v.as_str().unwrap().to_string())
            .collect()
    })
}

fn number_in(t: &toml::Table, key: &str) -> Option<u64> {
    t.get(key).and_then(|v| v.as_integer()).map(|n| n as u64)
}

fn table_in(t: &toml::Table, key: &str) -> Option<Table> {
    t.get(key).and_then(|v| v.as_table()).map(table_from)
}

fn entries_in<'a>(t: &'a toml::Table, key: &str) -> Vec<&'a toml::Table> {
    match t.get(key).and_then(|v| v.as_array()) {
        Some(items) => items.iter().map(|v| v.as_table().unwrap()).collect(),
        None => Vec::new(),
    }
}

fn config_from(toml_str: &str) -> BenchConfig {
    let t: toml::Table = toml_str.parse().unwrap();
    BenchConfig {
        run: text_in(&t, "run").unwrap(),
        runners: texts_in(&t, "runners").unwrap(),
        default_timeout_secs: number_in(&t, "default_timeout_secs").unwrap(),
        inter_qos_grace_ms: number_in(&t, "inter_qos_grace_ms"),
        log_dir: t
            .get("runner")
            .and_then(|v| v.as_table())
            .and_then(|r| text_in(r, "log_dir")),
        variant_templates: entries_in(&t, "variant_template")
            .into_iter()
            .map(|e| VariantTemplate {
                name: text_in(e, "name").unwrap(),
                binary: text_in(e, "binary"),
                timeout_secs: number_in(e, "timeout_secs"),
                common: table_in(e, "common"),
                specific: table_in(e, "specific"),
            })
            .collect(),
        variant: entries_in(&t, "variant")
            .into_iter()
            .map(|e| VariantConfig {
                name: text_in(e, "name").unwrap(),
                template: text_in(e, "template"),
                binary: text_in(e, "binary").unwrap_or_default(),
                timeout_secs: number_in(e, "timeout_secs"),
                common: table_in(e, "common").unwrap_or_else(Table::new),
                specific: table_in(e, "specific"),
                supported_modes: texts_in(e, "supported_modes"),
            })
            .collect(),
    }
}

fn as_integer(v: Option<&TomlValue>) -> Option<i64> {
    match v {
        Some(TomlValue::Integer(n)) => Some(*n),
        _ => None,
    }
}

fn as_str(v: Option<&TomlValue>) -> Option<&str> {
    match v {
        Some(TomlValue::Text(s)) => Some(s.as_str()),
        _ => None,
    }
}

fn sample_toml() -> &'static str {
    r#"
run = "test01"
runners = ["a", "b"]
default_timeout_secs = 120

[[variant]]
name = "zenoh-replication"
binary = "./zenoh-variant"
timeout_secs = 60

  [variant.common]
  tick_rate_hz = 100
  stabilize_secs = 5
  operate_secs = 30
  silent_secs = 3
  workload = "scalar-flood"
  values_per_tick = 10
  qos = 2
  log_dir = "./logs"

  [variant.specific]
  zenoh_mode = "peer"
  zenoh_listen = "udp/0.0.0.0:7447"
"#
}

fn parse(toml_str: &str) -> BenchConfig {
    let mut cfg = config_from(toml_str);
    cfg.resolve_templates().unwrap();
    cfg
}

#[test]
fn parse_sample_config() {
    let config = parse(sample_toml());
    assert_eq!(config.run, "test01");
    assert_eq!(config.runners, vec!["a", "b"]);
    assert_eq!(config.default_timeout_secs, 120);
    assert_eq!(config.variant.len(), 1);

    let v = &config.variant[0];
    assert_eq!(v.name, "zenoh-replication");
    assert_eq!(v.binary, "./zenoh-variant");
    assert_eq!(v.timeout_secs, Some(60));
    assert_eq!(v.effective_timeout(120), 60);
    assert_eq!(
        as_integer(v.common.get("tick_rate_hz")),
        Some(100)
    );
    assert!(v.specific.is_some());
    let spec = v.specific.as_ref().unwrap();
    assert_eq!(as_str(spec.get("zenoh_mode")), Some("peer"));
}

#[test]
fn config_hash_is_deterministic() {
    let raw = sample_toml().as_bytes();
    let h1 = config_hash(raw);
    let h2 = config_hash(raw);
    assert_eq!(h1, h2);
    assert_eq!(h1.len(), 64);
}

#[test]
fn config_hash_changes_on_different_input() {
    let h1 = config_hash(b"aaa");
    let h2 = config_hash(b"bbb");
    assert_ne!(h1, h2);
}

#[test]
fn validation_rejects_empty_run() {
    let toml_str = r#"
run = ""
runners = ["a"]
default_timeout_secs = 10
"#;
    let mut config: BenchConfig = config_from(toml_str);
    config.resolve_templates().unwrap();
    let err = config.validate().unwrap_err();
    assert!(
        err.message().contains("'run' must be non-empty"),
        "unexpected error: {err:?}"
    );
}

#[test]
fn validation_rejects_empty_runners() {
    let toml_str = r#"
run = "test"
runners = []
default_timeout_secs = 10
"#;
    let mut config: BenchConfig = config_from(toml_str);
    config.resolve_templates().unwrap();
    let err = config.validate().unwrap_err();
    assert!(
        err.message()
            .contains("'runners' must contain at least one"),
        "unexpected error: {err:?}"
    );
}

#[test]
fn validation_rejects_duplicate_variant_names() {
    let toml_str = r#"
run = "test"
runners = ["a"]
default_timeout_secs = 10

[[variant]]
name = "dup"
binary = "./a"
  [variant.common]
  tick_rate_hz = 1
  values_per_tick = 1

[[variant]]
name = "dup"
binary = "./b"
  [variant.common]
  tick_rate_hz = 1
  values_per_tick = 1
"#;
    let mut config: BenchConfig = config_from(toml_str);
    config.resolve_templates().unwrap();
    let err = config.validate().unwrap_err();
    assert!(
        err.message().contains("duplicate variant name 'dup'"),
        "unexpected error: {err:?}"
    );
}

#[test]
fn validation_rejects_empty_binary() {
    let toml_str = r#"
run = "test"
runners = ["a"]
default_timeout_secs = 10

[[variant]]
name = "v1"
binary = ""
  [variant.common]
  tick_rate_hz = 1
  values_per_tick = 1
"#;
    let mut config: BenchConfig = config_from(toml_str);
    config.resolve_templates().unwrap();
    let err = config.validate().unwrap_err();
    assert!(
        err.message().contains("empty 'binary' path"),
        "unexpected error: {err:?}"
    );
}

#[test]
fn validation_rejects_zero_timeout() {
    let toml_str = r#"
run = "test"
runners = ["a"]
default_timeout_secs = 0
"#;
    let mut config: BenchConfig = config_from(toml_str);
    config.resolve_templates().unwrap();
    let err = config.validate().unwrap_err();
    assert!(
        err.message()
            .contains("'default_timeout_secs' must be positive"),
        "unexpected error: {err:?}"
    );
}

#[test]
fn validation_rejects_invalid_qos() {
    let toml_str = r#"
run = "test"
runners = ["a"]
default_timeout_secs = 10

[[variant]]
name = "v1"
binary = "./x"
  [variant.common]
  tick_rate_hz = 1
  values_per_tick = 1
  qos = 5
"#;
    let mut config: BenchConfig = config_from(toml_str);
    config.resolve_templates().unwrap();
    let err = config.validate().unwrap_err();
    let msg = err.full_message();
    assert!(
        msg.contains("qos 5 is out of range"),
        "unexpected error: {msg}"
    );
}

#[test]
fn validation_rejects_qos_array_with_out_of_range_element() {
    let toml_str = r#"
run = "test"
runners = ["a"]
default_timeout_secs = 10

[[variant]]
name = "v1"
binary = "./x"
  [variant.common]
  tick_rate_hz = 1
  values_per_tick = 1
  qos = [1, 5]
"#;
    let mut config: BenchConfig = config_from(toml_str);
    config.resolve_templates().unwrap();
    let err = config.validate().unwrap_err();
    let msg = err.full_message();
    assert!(
        msg.contains("qos 5 is out of range"),
        "unexpected error: {msg}"
    );
}

#[test]
fn validation_rejects_empty_qos_array() {
    let toml_str = r#"
run = "test"
runners = ["a"]
default_timeout_secs = 10

[[variant]]
name = "v1"
binary = "./x"
  [variant.common]
  tick_rate_hz = 1
  values_per_tick = 1
  qos = []
"#;
    let mut config: BenchConfig = config_from(toml_str);
    config.resolve_templates().unwrap();
    let err = config.validate().unwrap_err();
    let msg = err.full_message();
    assert!(
        msg.contains("qos array must be non-empty"),
        "unexpected error: {msg}"
    );
}

#[test]
fn qos_spec_single_integer() {
    let cfg = parse(
        r#"
run = "test"
runners = ["a"]
default_timeout_secs = 10

[[variant]]
name = "v"
binary = "./x"
  [variant.common]
  tick_rate_hz = 1
  values_per_tick = 1
  qos = 2
"#,
    );
    let spec = cfg.variant[0].qos_spec().unwrap();
    assert_eq!(spec, QosSpec::Single(2));
    assert_eq!(spec.levels(), vec![2]);
}

#[test]
fn qos_spec_array_form() {
    let cfg = parse(
        r#"
run = "test"
runners = ["a"]
default_timeout_secs = 10

[[variant]]
name = "v"
binary = "./x"
  [variant.common]
  tick_rate_hz = 1
  values_per_tick = 1
  qos = [3, 1, 1, 4]
"#,
    );
    let spec = cfg.variant[0].qos_spec().unwrap();
    assert_eq!(spec, QosSpec::Multi(vec![3, 1, 1, 4]));
    assert_eq!(spec.levels(), vec![1, 3, 4]);
}

#[test]
fn qos_spec_omitted_means_all() {
    let cfg = parse(
        r#"
run = "test"
runners = ["a"]
default_timeout_secs = 10

[[variant]]
name = "v"
binary = "./x"
  [variant.common]
  tick_rate_hz = 1
  values_per_tick = 1
"#,
    );
    let spec = cfg.variant[0].qos_spec().unwrap();
    assert_eq!(spec, QosSpec::All);
    assert_eq!(spec.levels(), vec![1, 2, 3, 4]);
}

#[test]
fn inter_qos_grace_default_when_omitted() {
    let toml_str = r#"
run = "test"
runners = ["a"]
default_timeout_secs = 10
"#;
    let config: BenchConfig = config_from(toml_str);
    assert_eq!(config.inter_qos_grace_ms(), DEFAULT_INTER_QOS_GRACE_MS);
}

#[test]
fn inter_qos_grace_overridden_in_config() {
    let toml_str = r#"
run = "test"
runners = ["a"]
default_timeout_secs = 10
inter_qos_grace_ms = 500
"#;
    let config: BenchConfig = config_from(toml_str);
    assert_eq!(config.inter_qos_grace_ms(), 500);
}

#[test]
fn tick_rate_spec_scalar() {
    let cfg = parse(
        r#"
run = "t"
runners = ["a"]
default_timeout_secs = 10

[[variant]]
name = "v"
binary = "./x"
  [variant.common]
  tick_rate_hz = 100
  values_per_tick = 1
"#,
    );
    let spec = cfg.variant[0].tick_rate_spec().unwrap();
    assert_eq!(spec, PositiveSpec::Single(100));
    assert_eq!(spec.values(), vec![100]);
}

#[test]
fn tick_rate_spec_array_dedup_sorted() {
    let cfg = parse(
        r#"
run = "t"
runners = ["a"]
default_timeout_secs = 10

[[variant]]
name = "v"
binary = "./x"
  [variant.common]
  tick_rate_hz = [100, 10, 100, 1000]
  values_per_tick = 1
"#,
    );
    let spec = cfg.variant[0].tick_rate_spec().unwrap();
    assert_eq!(spec, PositiveSpec::Multi(vec![100, 10, 100, 1000]));
    assert_eq!(spec.values(), vec![10, 100, 1000]);
}

#[test]
fn tick_rate_spec_rejects_zero() {
    let toml_str = r#"
run = "t"
runners = ["a"]
default_timeout_secs = 10

[[variant]]
name = "v"
binary = "./x"
  [variant.common]
  tick_rate_hz = 0
  values_per_tick = 1
"#;
    let mut cfg: BenchConfig = config_from(toml_str);
    cfg.resolve_templates().unwrap();
    let err = cfg.validate().unwrap_err();
    let msg = err.full_message();
    assert!(
        msg.contains("tick_rate_hz must be a positive integer"),
        "unexpected error: {msg}"
    );
}

#[test]
fn tick_rate_spec_rejects_empty_array() {
    let toml_str = r#"
run = "t"
runners = ["a"]
default_timeout_secs = 10

[[variant]]
name = "v"
binary = "./x"
  [variant.common]
  tick_rate_hz = []
  values_per_tick = 1
"#;
    let mut cfg: BenchConfig = config_from(toml_str);
    cfg.resolve_templates().unwrap();
    let err = cfg.validate().unwrap_err();
    let msg = err.full_message();
    assert!(
        msg.contains("tick_rate_hz array must be non-empty"),
        "unexpected error: {msg}"
    );
}

#[test]
fn tick_rate_spec_rejects_array_with_zero() {
    let toml_str = r#"
run = "t"
runners = ["a"]
default_timeout_secs = 10

[[variant]]
name = "v"
binary = "./x"
  [variant.common]
  tick_rate_hz = [10, 0, 100]
  values_per_tick = 1
"#;
    let mut cfg: BenchConfig = config_from(toml_str);
    cfg.resolve_templates().unwrap();
    let err = cfg.validate().unwrap_err();
    let msg = err.full_message();
    assert!(
        msg.contains("tick_rate_hz array contains 0"),
        "unexpected error: {msg}"
    );
}

#[test]
fn tick_rate_spec_rejects_non_integer_element() {
    let toml_str = r#"
run = "t"
runners = ["a"]
default_timeout_secs = 10

[[variant]]
name = "v"
binary = "./x"
  [variant.common]
  tick_rate_hz = [10, "oops"]
  values_per_tick = 1
"#;
    let mut cfg: BenchConfig = config_from(toml_str);
    cfg.resolve_templates().unwrap();
    let err = cfg.validate().unwrap_err();
    let msg = err.full_message();
    assert!(
        msg.contains("tick_rate_hz array element is not an integer"),
        "unexpected error: {msg}"
    );
}

#[test]
fn values_per_tick_spec_scalar_and_array() {
    let cfg = parse(
        r#"
run = "t"
runners = ["a"]
default_timeout_secs = 10

[[variant]]
name = "v"
binary = "./x"
  [variant.common]
  tick_rate_hz = 1
  values_per_tick = [10, 100, 10]

[[variant]]
name = "v2"
binary = "./x"
  [variant.common]
  tick_rate_hz = 1
  values_per_tick = 5
"#,
    );
    let spec = cfg.variant[0].values_per_tick_spec().unwrap();
    assert_eq!(spec.values(), vec![10, 100]);
    let spec2 = cfg.variant[1].values_per_tick_spec().unwrap();
    assert_eq!(spec2, PositiveSpec::Single(5));
}

#[test]
fn template_resolution_merges_common_and_specific() {
    let cfg = parse(
        r#"
run = "t"
runners = ["a"]
default_timeout_secs = 10

[[variant_template]]
name = "udp-base"
binary = "target/release/variant-custom-udp.exe"
  [variant_template.common]
  stabilize_secs = 3
  operate_secs = 30
  silent_secs = 3
  workload = "scalar-flood"
  log_dir = "./logs"
  [variant_template.specific]
  multicast_group = "239.0.0.1:19500"
  buffer_size = 65536

[[variant]]
template = "udp-base"
name = "custom-udp"
  [variant.common]
  tick_rate_hz = 100
  values_per_tick = 1000
  [variant.specific]
  tcp_base_port = 19800
"#,
    );
    let v = &cfg.variant[0];
    assert_eq!(v.binary, "target/release/variant-custom-udp.exe");
    assert_eq!(
        as_integer(v.common.get("stabilize_secs")),
        Some(3)
    );
    assert_eq!(
        as_str(v.common.get("workload")),
        Some("scalar-flood")
    );
    assert_eq!(as_str(v.common.get("log_dir")), Some("./logs"));
    assert_eq!(
        as_integer(v.common.get("tick_rate_hz")),
        Some(100)
    );
    let spec = v.specific.as_ref().unwrap();
    assert_eq!(
        as_str(spec.get("multicast_group")),
        Some("239.0.0.1:19500")
    );
    assert_eq!(as_integer(spec.get("tcp_base_port")), Some(19800));
}

#[test]
fn template_variant_keys_win_on_conflict() {
    let cfg = parse(
        r#"
run = "t"
runners = ["a"]
default_timeout_secs = 10

[[variant_template]]
name = "tpl"
binary = "./from-template"
timeout_secs = 999
  [variant_template.common]
  workload = "scalar-flood"
  tick_rate_hz = 1
  values_per_tick = 1

[[variant]]
template = "tpl"
name = "v"
binary = "./from-variant"
timeout_secs = 42
  [variant.common]
  workload = "max-throughput"
"#,
    );
    let v = &cfg.variant[0];
    assert_eq!(v.binary, "./from-variant");
    assert_eq!(v.timeout_secs, Some(42));
    assert_eq!(
        as_str(v.common.get("workload")),
        Some("max-throughput")
    );
    // Template defaults still flow through for missing keys.
    assert_eq!(as_integer(v.common.get("tick_rate_hz")), Some(1));
}

#[test]
fn template_falls_through_top_level_scalars() {
    let cfg = parse(
        r#"
run = "t"
runners = ["a"]
default_timeout_secs = 10

[[variant_template]]
name = "tpl"
binary = "./tpl-bin"
timeout_secs = 17
  [variant_template.common]
  tick_rate_hz = 1
  values_per_tick = 1

[[variant]]
template = "tpl"
name = "v"
"#,
    );
    let v = &cfg.variant[0];
    assert_eq!(v.binary, "./tpl-bin");
    assert_eq!(v.timeout_secs, Some(17));
}

#[test]
fn template_unknown_name_is_error() {
    let toml_str = r#"
run = "t"
runners = ["a"]
default_timeout_secs = 10

[[variant]]
template = "missing"
name = "v"
"#;
    let mut cfg: BenchConfig = config_from(toml_str);
    let err = cfg.resolve_templates().unwrap_err();
    let msg = err.full_message();
    assert!(
        msg.contains("unknown template 'missing'"),
        "unexpected error: {msg}"
    );
}

#[test]
fn template_duplicate_name_is_error() {
    let toml_str = r#"
run = "t"
runners = ["a"]
default_timeout_secs = 10

[[variant_template]]
name = "tpl"
binary = "./a"

[[variant_template]]
name = "tpl"
binary = "./b"
"#;
    let mut cfg: BenchConfig = config_from(toml_str);
    let err = cfg.resolve_templates().unwrap_err();
    let msg = err.full_message();
    assert!(
        msg.contains("duplicate variant_template name 'tpl'"),
        "unexpected error: {msg}"
    );
}

#[test]
fn template_resolution_requires_binary() {
    let toml_str = r#"
run = "t"
runners = ["a"]
default_timeout_secs = 10

[[variant_template]]
name = "tpl"
  [variant_template.common]
  tick_rate_hz = 1
  values_per_tick = 1

[[variant]]
template = "tpl"
name = "v"
"#;
    let mut cfg: BenchConfig = config_from(toml_str);
    cfg.resolve_templates().unwrap();
    let err = cfg.validate().unwrap_err();
    let msg = err.full_message();
    assert!(
        msg.contains("empty 'binary' path"),
        "unexpected error: {msg}"
    );
}

#[test]
fn single_integer_qos_keeps_original_name() {
    let cfg = parse(
        r#"
run = "r"
runners = ["a"]
default_timeout_secs = 10

[[variant]]
name = "myvariant"
binary = "./x"
  [variant.common]
  tick_rate_hz = 100
  values_per_tick = 10
  qos = 2
"#,
    );
    let jobs = expand_variant(0, &cfg.variant[0]).unwrap();
    assert_eq!(jobs.len(), 1);
    assert_eq!(jobs[0].effective_name, "myvariant");
    assert_eq!(jobs[0].qos, 2);
    assert_eq!(jobs[0].tick_rate_hz, 100);
    assert_eq!(jobs[0].values_per_tick, 10);
    assert_eq!(jobs[0].source_index, 0);
}

#[test]
fn array_qos_expands_to_multiple_jobs_with_suffix() {
    let cfg = parse(
        r#"
run = "r"
runners = ["a"]
default_timeout_secs = 10

[[variant]]
name = "myvariant"
binary = "./x"
  [variant.common]
  tick_rate_hz = 100
  values_per_tick = 10
  qos = [1, 3]
"#,
    );
    let jobs = expand_variant(0, &cfg.variant[0]).unwrap();
    assert_eq!(jobs.len(), 2);
    assert_eq!(jobs[0].effective_name, "myvariant-qos1");
    assert_eq!(jobs[0].qos, 1);
    assert_eq!(jobs[1].effective_name, "myvariant-qos3");
    assert_eq!(jobs[1].qos, 3);
}

#[test]
fn omitted_qos_expands_to_all_four_levels() {
    let cfg = parse(
        r#"
run = "r"
runners = ["a"]
default_timeout_secs = 10

[[variant]]
name = "v"
binary = "./x"
  [variant.common]
  tick_rate_hz = 100
  values_per_tick = 10
"#,
    );
    let jobs = expand_variant(0, &cfg.variant[0]).unwrap();
    assert_eq!(jobs.len(), 4);
    for (i, expected_qos) in [1, 2, 3, 4].iter().enumerate() {
        assert_eq!(jobs[i].qos, *expected_qos);
        assert_eq!(jobs[i].effective_name, format!("v-qos{expected_qos}"));
    }
}

#[test]
fn duplicates_are_deduplicated() {
    let cfg = parse(
        r#"
run = "r"
runners = ["a"]
default_timeout_secs = 10

[[variant]]
name = "v"
binary = "./x"
  [variant.common]
  tick_rate_hz = 100
  values_per_tick = 10
  qos = [3, 1, 3, 4, 1]
"#,
    );
    let jobs = expand_variant(0, &cfg.variant[0]).unwrap();
    assert_eq!(jobs.len(), 3);
    assert_eq!(jobs[0].qos, 1);
    assert_eq!(jobs[1].qos, 3);
    assert_eq!(jobs[2].qos, 4);
}

#[test]
fn single_element_array_keeps_original_name() {
    let cfg = parse(
        r#"
run = "r"
runners = ["a"]
default_timeout_secs = 10

[[variant]]
name = "v"
binary = "./x"
  [variant.common]
  tick_rate_hz = 100
  values_per_tick = 10
  qos = [2]
"#,
    );
    let jobs = expand_variant(0, &cfg.variant[0]).unwrap();
    assert_eq!(jobs.len(), 1);
    assert_eq!(jobs[0].effective_name, "v");
    assert_eq!(jobs[0].qos, 2);
}

#[test]
fn single_element_arrays_on_hz_and_vpt_count_as_scalar() {
    let cfg = parse(
        r#"
run = "r"
runners = ["a"]
default_timeout_secs = 10

[[variant]]
name = "v"
binary = "./x"
  [variant.common]
  tick_rate_hz = [100]
  values_per_tick = [10]
  qos = 1
"#,
    );
    let jobs = expand_variant(0, &cfg.variant[0]).unwrap();
    assert_eq!(jobs.len(), 1);
    assert_eq!(jobs[0].effective_name, "v");
    assert_eq!(jobs[0].tick_rate_hz, 100);
    assert_eq!(jobs[0].values_per_tick, 10);
}

#[test]
fn hz_array_expands_with_vpt_in_suffix() {
    let cfg = parse(
        r#"
run = "r"
runners = ["a"]
default_timeout_secs = 10

[[variant]]
name = "v"
binary = "./x"
  [variant.common]
  tick_rate_hz = [10, 100]
  values_per_tick = 1000
  qos = 1
"#,
    );
    let jobs = expand_variant(0, &cfg.variant[0]).unwrap();
    assert_eq!(jobs.len(), 2);
    assert_eq!(jobs[0].effective_name, "v-1000x10hz");
    assert_eq!(jobs[0].tick_rate_hz, 10);
    assert_eq!(jobs[0].values_per_tick, 1000);
    assert_eq!(jobs[1].effective_name, "v-1000x100hz");
    assert_eq!(jobs[1].tick_rate_hz, 100);
}

#[test]
fn vpt_array_expands_with_hz_in_suffix() {
    let cfg = parse(
        r#"
run = "r"
runners = ["a"]
default_timeout_secs = 10

[[variant]]
name = "v"
binary = "./x"
  [variant.common]
  tick_rate_hz = 100
  values_per_tick = [10, 1000]
  qos = 1
"#,
    );
    let jobs = expand_variant(0, &cfg.variant[0]).unwrap();
    assert_eq!(jobs.len(), 2);
    // vpt is sorted ascending; suffix shows BOTH numbers.
    assert_eq!(jobs[0].effective_name, "v-10x100hz");
    assert_eq!(jobs[0].values_per_tick, 10);
    assert_eq!(jobs[1].effective_name, "v-1000x100hz");
    assert_eq!(jobs[1].values_per_tick, 1000);
}

#[test]
fn cartesian_order_hz_outer_vpt_middle_qos_inner() {
    let cfg = parse(
        r#"
run = "r"
runners = ["a"]
default_timeout_secs = 10

[[variant]]
name = "v"
binary = "./x"
  [variant.common]
  tick_rate_hz = [10, 100]
  values_per_tick = [1, 10]
  qos = [1, 2]
"#,
    );
    let jobs = expand_variant(0, &cfg.variant[0]).unwrap();
    assert_eq!(jobs.len(), 8);

    // Expected stable order: hz outer, vpt middle, qos inner; each ascending.
    let expected: Vec<(u32, u32, u8, &str)> = vec![
        (10, 1, 1, "v-1x10hz-qos1"),
        (10, 1, 2, "v-1x10hz-qos2"),
        (10, 10, 1, "v-10x10hz-qos1"),
        (10, 10, 2, "v-10x10hz-qos2"),
        (100, 1, 1, "v-1x100hz-qos1"),
        (100, 1, 2, "v-1x100hz-qos2"),
        (100, 10, 1, "v-10x100hz-qos1"),
        (100, 10, 2, "v-10x100hz-qos2"),
    ];

    for (i, (hz, vpt, qos, name)) in expected.into_iter().enumerate() {
        assert_eq!(jobs[i].tick_rate_hz, hz, "job {i} hz");
        assert_eq!(jobs[i].values_per_tick, vpt, "job {i} vpt");
        assert_eq!(jobs[i].qos, qos, "job {i} qos");
        assert_eq!(jobs[i].effective_name, name, "job {i} name");
    }
}

#[test]
fn threading_modes_absent_defaults_to_single_no_suffix() {
    let cfg = parse(
        r#"
run = "r"
runners = ["a"]
default_timeout_secs = 10

[[variant]]
name = "v"
binary = "./x"
  [variant.common]
  tick_rate_hz = 100
  values_per_tick = 10
  qos = [3, 4]
"#,
    );
    let jobs = expand_variant(0, &cfg.variant[0]).unwrap();
    assert_eq!(jobs.len(), 2);
    assert_eq!(jobs[0].effective_name, "v-qos3");
    assert_eq!(jobs[1].effective_name, "v-qos4");
    for j in &jobs {
        assert_eq!(j.threading_mode, ThreadingMode::Single);
        assert_eq!(j.recv_buffer_kb, runner::config::DEFAULT_RECV_BUFFER_KB);
    }
}

#[test]
fn threading_modes_scalar_carries_through_without_suffix() {
    let cfg = parse(
        r#"
run = "r"
runners = ["a"]
default_timeout_secs = 10

[[variant]]
name = "v"
binary = "./x"
  [variant.common]
  tick_rate_hz = 100
  values_per_tick = 10
  qos = 1
  threading_modes = "multi"
"#,
    );
    let jobs = expand_variant(0, &cfg.variant[0]).unwrap();
    assert_eq!(jobs.len(), 1);
    assert_eq!(jobs[0].effective_name, "v");
    assert_eq!(jobs[0].threading_mode, ThreadingMode::Multi);
}

#[test]
fn four_spawn_cross_product_qos_and_threading_modes() {
    let cfg = parse(
        r#"
run = "r"
runners = ["a"]
default_timeout_secs = 10

[[variant]]
name = "v"
binary = "./x"
  [variant.common]
  tick_rate_hz = 100
  values_per_tick = 10
  qos = [3, 4]
  threading_modes = ["single", "multi"]
"#,
    );
    let jobs = expand_variant(0, &cfg.variant[0]).unwrap();
    assert_eq!(jobs.len(), 4);
    let expected: Vec<(&str, u8, ThreadingMode)> = vec![
        ("v-qos3-multi", 3, ThreadingMode::Multi),
        ("v-qos3-single", 3, ThreadingMode::Single),
        ("v-qos4-multi", 4, ThreadingMode::Multi),
        ("v-qos4-single", 4, ThreadingMode::Single),
    ];
    for (i, (name, qos, mode)) in expected.into_iter().enumerate() {
        assert_eq!(jobs[i].effective_name, name, "job {i} name");
        assert_eq!(jobs[i].qos, qos, "job {i} qos");
        assert_eq!(jobs[i].threading_mode, mode, "job {i} mode");
    }
}

#[test]
fn threading_modes_dedup_and_sort() {
    let cfg = parse(
        r#"
run = "r"
runners = ["a"]
default_timeout_secs = 10

[[variant]]
name = "v"
binary = "./x"
  [variant.common]
  tick_rate_hz = 100
  values_per_tick = 10
  qos = 1
  threading_modes = ["single", "multi", "single"]
"#,
    );
    let jobs = expand_variant(0, &cfg.variant[0]).unwrap();
    assert_eq!(jobs.len(), 2);
    assert_eq!(jobs[0].effective_name, "v-multi");
    assert_eq!(jobs[1].effective_name, "v-single");
}

#[test]
fn recv_buffer_kb_default_when_absent() {
    let cfg = parse(
        r#"
run = "r"
runners = ["a"]
default_timeout_secs = 10

[[variant]]
name = "v"
binary = "./x"
  [variant.common]
  tick_rate_hz = 100
  values_per_tick = 10
  qos = 1
"#,
    );
    let jobs = expand_variant(0, &cfg.variant[0]).unwrap();
    assert_eq!(jobs[0].recv_buffer_kb, runner::config::DEFAULT_RECV_BUFFER_KB);
}

#[test]
fn recv_buffer_kb_override_flows_into_spawn_job() {
    let cfg = parse(
        r#"
run = "r"
runners = ["a"]
default_timeout_secs = 10

[[variant]]
name = "v"
binary = "./x"
  [variant.common]
  tick_rate_hz = 100
  values_per_tick = 10
  qos = 1
  recv_buffer_kb = 8192
"#,
    );
    let jobs = expand_variant(0, &cfg.variant[0]).unwrap();
    assert_eq!(jobs[0].recv_buffer_kb, 8192);
}

#[test]
fn hz_array_with_omitted_qos_carries_both_suffixes() {
    let cfg = parse(
        r#"
run = "r"
runners = ["a"]
default_timeout_secs = 10

[[variant]]
name = "v"
binary = "./x"
  [variant.common]
  tick_rate_hz = [10, 100]
  values_per_tick = 1000
"#,
    );
    let jobs = expand_variant(0, &cfg.variant[0]).unwrap();
    // 2 hz * 1 vpt * 4 qos = 8 jobs
    assert_eq!(jobs.len(), 8);
    // First job: lowest hz, only vpt, qos 1.
    assert_eq!(jobs[0].effective_name, "v-1000x10hz-qos1");
    assert_eq!(jobs[3].effective_name, "v-1000x10hz-qos4");
    assert_eq!(jobs[4].effective_name, "v-1000x100hz-qos1");
    assert_eq!(jobs[7].effective_name, "v-1000x100hz-qos4");
}

#[test]
fn nominal_duration_sums_all_four_contributions() {
    // stabilize=2, operate=10, silent=3, grace=250ms => 15.25s.
    let cfg = parse(
        r#"
run = "r"
runners = ["a"]
default_timeout_secs = 60
inter_qos_grace_ms = 250

[[variant]]
name = "v"
binary = "./x"
  [variant.common]
  tick_rate_hz = 100
  values_per_tick = 10
  qos = 1
  stabilize_secs = 2
  operate_secs = 10
  silent_secs = 3
"#,
    );
    let got = spawn_nominal_duration(&cfg.variant[0], cfg.inter_qos_grace_ms());
    assert_eq!(got, Duration::from_millis(15_250));
}

#[test]
fn nominal_duration_uses_default_grace_when_unset() {
    // grace defaults to 250 ms when the top-level key is omitted.
    let cfg = parse(
        r#"
run = "r"
runners = ["a"]
default_timeout_secs = 60

[[variant]]
name = "v"
binary = "./x"
  [variant.common]
  tick_rate_hz = 100
  values_per_tick = 10
  qos = 1
  stabilize_secs = 1
  operate_secs = 1
  silent_secs = 1
"#,
    );
    let got = spawn_nominal_duration(&cfg.variant[0], cfg.inter_qos_grace_ms());
    // 3s phases + 250ms grace.
    assert_eq!(got, Duration::from_millis(3_250));
}

#[test]
fn nominal_duration_falls_back_to_timeout_when_any_phase_missing() {
    // operate_secs is missing -> fall back to timeout_secs.
    let cfg = parse(
        r#"
run = "r"
runners = ["a"]
default_timeout_secs = 60

[[variant]]
name = "v"
binary = "./x"
timeout_secs = 42
  [variant.common]
  tick_rate_hz = 100
  values_per_tick = 10
  qos = 1
  stabilize_secs = 2
  silent_secs = 3
"#,
    );
    let got = spawn_nominal_duration(&cfg.variant[0], cfg.inter_qos_grace_ms());
    assert_eq!(got, Duration::from_secs(42));
}

#[test]
fn nominal_duration_falls_back_when_all_phase_keys_missing() {
    let cfg = parse(
        r#"
run = "r"
runners = ["a"]
default_timeout_secs = 60

[[variant]]
name = "v"
binary = "./x"
timeout_secs = 30
  [variant.common]
  tick_rate_hz = 100
  values_per_tick = 10
  qos = 1
"#,
    );
    let got = spawn_nominal_duration(&cfg.variant[0], cfg.inter_qos_grace_ms());
    assert_eq!(got, Duration::from_secs(30));
}

fn parse_bench_config(toml_str: &str) -> BenchConfig {
    let cfg = parse(toml_str);
    cfg.validate().unwrap();
    cfg
}

#[test]
fn gating_skips_unsupported_mode_with_eprintln_notice() {
    let cfg = parse_bench_config(
        r#"
run = "g"
runners = ["a"]
default_timeout_secs = 10

[[variant]]
name = "single-only"
binary = "./x"
supported_modes = ["single"]
  [variant.common]
  tick_rate_hz = 100
  values_per_tick = 1
  qos = 1
  threading_modes = ["single", "multi"]
"#,
    );
        let gated = expand_and_gate_jobs(&cfg, "a").unwrap();
    let jobs = gated.jobs;
    let lines = gated.report;

    // Only the single-mode spawn survives.
    assert_eq!(jobs.len(), 1);
    assert_eq!(jobs[0].1.effective_name, "single-only-single");
    assert_eq!(jobs[0].1.threading_mode, ThreadingMode::Single);

    let skip_line = lines
        .iter()
        .find(|l| l.contains("skipping single-only-multi"))
        .expect("skipping notice must be emitted");
    assert!(
        skip_line.contains("variant does not support threading_mode=multi"),
        "skip line shape: {skip_line}"
    );
    assert!(
        skip_line.starts_with("[runner:a] "),
        "skip line must carry [runner:<name>] prefix: {skip_line}"
    );
}

#[test]
fn gating_permissive_default_emits_one_time_note() {
    // A variant entry that omits `supported_modes` runs every requested
    // mode and emits a single stderr note (per variant, not per spawn).
    let cfg = parse_bench_config(
        r#"
run = "g"
runners = ["a"]
default_timeout_secs = 10

[[variant]]
name = "permissive"
binary = "./x"
  [variant.common]
  tick_rate_hz = 100
  values_per_tick = 1
  qos = [1, 2]
  threading_modes = ["single", "multi"]
"#,
    );
        let gated = expand_and_gate_jobs(&cfg, "a").unwrap();
    let jobs = gated.jobs;
    let lines = gated.report;

    // All four spawns survive (no gating).
    assert_eq!(jobs.len(), 4);

    // Exactly one note line, regardless of how many spawns.
    let notes: Vec<&String> = lines
        .iter()
        .filter(|l| l.contains("has no supported_modes declared"))
        .collect();
    assert_eq!(
        notes.len(),
        1,
        "expected exactly one permissive-default note, got {}: {lines:?}",
        notes.len()
    );
}

#[test]
fn gating_no_skip_when_variant_supports_all_requested_modes() {
    let cfg = parse_bench_config(
        r#"
run = "g"
runners = ["a"]
default_timeout_secs = 10

[[variant]]
name = "both"
binary = "./x"
supported_modes = ["single", "multi"]
  [variant.common]
  tick_rate_hz = 100
  values_per_tick = 1
  qos = 1
  threading_modes = ["single", "multi"]
"#,
    );
        let gated = expand_and_gate_jobs(&cfg, "a").unwrap();
    let jobs = gated.jobs;
    let lines = gated.report;

    // Both spawns survive.
    assert_eq!(jobs.len(), 2);
    // No skipping notice for declared variants whose requested modes
    // are all supported.
    assert!(
        !lines.iter().any(|l| l.contains("skipping")),
        "must not skip when all modes are supported, got: {lines:?}"
    );
    // No permissive note for declared variants.
    assert!(
        !lines
            .iter()
            .any(|l| l.contains("has no supported_modes declared")),
        "must not emit permissive note when supported_modes is declared, got: {lines:?}"
    );
}
