//! What a run measures, and its report.

use epico::fold::HopTime;
use epico::json::JsonOut;
use epico::numtext::{
    decimal_text, hundredths_text, join, padded_text, parse_number, signed_whole_text,
    tenths_text, whole_text,
};
use epico::report::{build_summary, run_config_out, RunTime};
use epico::stats::{
    comes_before, last_or_zero, pct, round_half_up, sorted, subsample, subsample_rate, sum,
};
use epico::summary::{
    build_environment_block, build_ingress_wait_block, build_inter_stage_block,
    build_per_replica_block, build_scaling_block, build_worker_timing_block, EnvironmentInfo,
};
use epico::telemetry::{
    timed_hops, CollectorStats, EventRow, RunTelemetry, ScalingEvent, Series,
};
use epico::text::{
    ends_with, expand_char, has_text, replace_char, rsplit_once, same, split, starts_with,
    strip_prefix, strip_prefixes, strip_suffix, text_before, to_lower, trim,
};
use epico::wiring::{RunConfig, StageRun};
use serde_json::Value;

fn s(t: &str) -> String {
    t.to_string()
}

fn value(j: &JsonOut) -> Value {
    match j {
        JsonOut::Null => Value::Null,
        JsonOut::Bool(b) => Value::from(*b),
        JsonOut::Count(n) => Value::from(*n),
        JsonOut::Signed(n) => Value::from(*n),
        JsonOut::Ratio(n, d) => Value::from(*n as f64 / *d as f64),
        JsonOut::Minus(n, d) => Value::from(-(*n as f64 / *d as f64)),
        JsonOut::Double(b) => Value::from(f64::from_bits(*b)),
        JsonOut::Single(b) => Value::from(f32::from_bits(*b)),
        JsonOut::Text(t) => Value::from(t.clone()),
        JsonOut::Array(v) => Value::Array(v.iter().map(value).collect()),
        JsonOut::Object(es) => {
            Value::Object(es.iter().map(|(k, v)| (k.clone(), value(v))).collect())
        }
        JsonOut::Kept(_) => panic!("nothing is kept here"),
    }
}

fn hop(label: &str, enter_ns: u64, exit_ns: u64) -> HopTime {
    HopTime { label: s(label), enter_ns, exit_ns }
}

const SEC: u64 = 1_000_000_000;
const MS: u64 = 1_000_000;

#[test]
fn quantiles_of_ordered_values() {
    let v = sorted(&vec![5, 1, 4, 2, 3]);
    assert_eq!(v, vec![1, 2, 3, 4, 5]);
    assert_eq!(pct(&v, 0), 1);
    assert_eq!(pct(&v, 500), 3);
    assert_eq!(pct(&v, 990), 5);
    assert_eq!(pct(&v, 1000), 5);
    assert_eq!(pct(&vec![], 500), 0);
    assert_eq!(pct(&vec![1, 2, 3, 4], 500), 2);
    assert_eq!(pct(&vec![1, 2, 3, 4], 501), 3);
    assert_eq!(pct(&vec![1, 2, 3, 4], 250), 1);
    assert_eq!(pct(&(1..=100).collect(), 990), 99);
    assert_eq!(last_or_zero(&v), 5);
    assert_eq!(sum(&v), 15);
    assert_eq!(round_half_up(25, 10), 3);
    assert_eq!(round_half_up(24, 10), 2);
}

#[test]
fn thinning_keeps_every_kth_value() {
    let v: Vec<u64> = (0..10).collect();
    assert_eq!(subsample_rate(10, 4), 3);
    assert_eq!(subsample(&v, 4), vec![0, 3, 6, 9]);
    assert_eq!(subsample(&v, 10), v);
    assert!(comes_before("a", "b") && comes_before("a", "ab") && !comes_before("b", "a"));
}

#[test]
fn an_event_is_measured_once() {
    let mut c = CollectorStats::new();
    let hops = vec![
        hop("fn-a#0", 10 * SEC + MS, 10 * SEC + 2 * MS),
        hop("fn-b", 10 * SEC + 3 * MS, 10 * SEC + 5 * MS),
        hop("fn-c#1", 10 * SEC + 9 * MS, 10 * SEC + 8 * MS),
    ];
    c.observe(10 * SEC + 6 * MS, 9 * SEC, Some(10 * SEC), hops);
    c.observe(10 * SEC, 9 * SEC, Some(11 * SEC), vec![]);
    c.observe(10 * SEC, 9 * SEC, None, vec![]);
    let t = &c.local;
    assert_eq!(t.e2e_ns, vec![6 * MS]);
    assert_eq!(t.ingress_wait_ns, vec![MS]);
    assert_eq!(t.recv_per_second, vec![(10, 1)]);
    assert_eq!(t.per_stage.len(), 2);
    assert_eq!(t.per_stage[1].values, vec![2 * MS]);
    assert_eq!(t.per_replica.len(), 1);
    assert_eq!(t.per_replica[0].name, "fn-a#0");
    assert_eq!(t.per_event_log[0].recv_ns, (SEC + 6 * MS) as i64);
    assert_eq!(t.per_event_log[0].hops.len(), 2);
    let mut all = RunTelemetry::new();
    c.merge_into(&mut all);
    assert_eq!(all.e2e_ns.len(), 1);
}

#[test]
fn a_full_log_replaces_a_drawn_row() {
    let mut c = CollectorStats::new();
    for i in 0..3 {
        c.observe_drawn(SEC + i, SEC, Some(SEC - 1), vec![], 0);
    }
    assert_eq!(c.local.per_event_log.len(), 3);
    assert_eq!(c.local.recv_per_second, vec![(1, 3)]);
    c.observe_drawn(3 * SEC, SEC, Some(SEC), vec![], 0);
    c.observe_drawn(2 * SEC, SEC, Some(SEC), vec![], 0);
    assert_eq!(c.local.recv_per_second, vec![(1, 3), (2, 1), (3, 1)]);
}

fn environment() -> EnvironmentInfo {
    EnvironmentInfo {
        epico_version: s("0.1.0"),
        git_tag: s("v0"),
        host: s("h"),
        os_name: s("Linux"),
        os_version: s("1"),
        kernel: s("6"),
        cpu_model: s("cpu"),
        cpu_cores_physical: 4,
        cpu_cores_logical: 8,
        ram_total_kb: 2_048,
        rustc: s("rustc 1"),
        wasmtime: s("26"),
        git_commit: s("abc"),
        git_dirty: false,
    }
}

#[test]
fn the_report_of_a_run() {
    let mut c = CollectorStats::new();
    for i in 0..4u64 {
        let at = 100 * SEC + i * SEC;
        let hops = vec![hop("fn-a#0", at, at + MS), hop("fn-b#0", at + 2 * MS, at + 4 * MS)];
        c.observe(at + (i + 1) * 5 * MS, 100 * SEC, Some(at), hops);
    }
    let t = c.local;
    let time = RunTime { start_ns: 100 * SEC, duration_ns: 4 * SEC };
    let run = run_config_out(&RunConfig {
        credit_window: Some(8),
        stages: vec![StageRun {
            stage: s("fn-a"),
            credit_window: 8,
            batch_events: 64,
            min_replicas: 0,
            max_replicas: 2,
            push_uri: None,
        }],
    });
    let names = vec![s("fn-a"), s("fn-b")];
    let j = value(&build_summary(run, &environment(), &t, &time, &names));
    assert_eq!(j["e2e_count"], Value::from(4));
    assert_eq!(j["p50"].as_f64(), Some(10.0));
    assert_eq!(j["max"].as_f64(), Some(20.0));
    assert_eq!(j["mean"].as_f64(), Some(12.5));
    assert_eq!(j["min"].as_f64(), Some(5.0));
    assert_eq!(j["run_config"]["credit_window"], Value::from(8));
    assert_eq!(j["run_config"]["stages"][0]["push_uri"], Value::Null);
    assert_eq!(j["throughput"]["sustained_eps"].as_f64(), Some(1.0));
    assert_eq!(j["counters"]["events_received"], Value::from(4));
    assert_eq!(j["latency_ms"]["per_stage"]["fn-b"]["p50"].as_f64(), Some(2.0));
    assert_eq!(j["dispatcher_names"][1], Value::from("dispatch-b"));
    assert_eq!(j["duration"].as_f64(), Some(4.0));
    assert_eq!(j["recv_per_second"].as_array().unwrap().len(), 4);
    assert_eq!(j["lat_ts_labels"][3], Value::from(3));
    assert_eq!(j["hist_counts"].as_array().unwrap().len(), 50);
    assert_eq!(j["cdf_x"].as_array().unwrap().len(), 4);
    assert_eq!(j["cdf_y"][3].as_f64(), Some(100.0));
    assert_eq!(j["has_bench_hops"], Value::from(true));
}

#[test]
fn a_run_without_events_has_a_report_too() {
    let t = RunTelemetry::new();
    let time = RunTime { start_ns: 0, duration_ns: 0 };
    let j = value(&build_summary(JsonOut::Null, &environment(), &t, &time, &vec![]));
    assert_eq!(j["e2e_count"], Value::from(0));
    assert_eq!(j["cold_start_e2e_ms"], Value::Null);
    assert_eq!(j["hist_labels"].as_array().unwrap().len(), 0);
    assert_eq!(j["throughput"]["sustained_eps"].as_f64(), Some(0.0));
}

fn change(stage: &str, action: &str, cold_ns: Option<u64>) -> ScalingEvent {
    ScalingEvent {
        t_ns: 2 * SEC,
        stage: s(stage),
        action: s(action),
        new_count: 1,
        cold_start_ns: cold_ns,
        compile_ns: None,
        instantiate_pre_ns: None,
    }
}

#[test]
fn the_blocks_of_the_report() {
    let rows = vec![EventRow {
        recv_ns: -1,
        e2e_ns: 5,
        hops: vec![hop("b#1", 0, MS), hop("c", 3 * MS, 4 * MS)],
    }];
    let j = value(&build_inter_stage_block(&rows));
    assert_eq!(j["edges"][0]["from"], Value::from("b"));
    assert_eq!(j["edges"][0]["p50"].as_f64(), Some(2.0));
    let none = value(&build_inter_stage_block(&vec![]));
    assert!(none["note"].is_string());

    let j = value(&build_ingress_wait_block(&vec![3 * MS, MS], &vec![s("a")]));
    assert_eq!(j["stages"][0]["max"].as_f64(), Some(3.0));
    assert!(value(&build_ingress_wait_block(&vec![], &vec![s("a")]))["note"].is_string());

    let events = vec![change("a", "spawn", Some(30 * MS)), change("b", "drain", None)];
    let j = value(&build_scaling_block(&events, &vec![s("a")])).to_string();
    assert!(j.contains("\"cold_start_ms\":30.0"), "{j}");

    let series = |n: &str, v: Vec<u64>| Series { name: s(n), values: v };
    let j = value(&build_per_replica_block(&vec![
        series("fn-a#10", vec![MS]),
        series("fn-a#2", vec![2 * MS, 4 * MS]),
    ]))
    .to_string();
    assert!(j.find("2").is_some());
    let j = value(&build_worker_timing_block(
        &vec![series("a", vec![9_000])],
        &vec![series("a", vec![1_000])],
        &vec![series("a", vec![7_000])],
    ))
    .to_string();
    assert!(j.contains("\"a\""), "{j}");
    assert!(value(&build_environment_block(&environment())).to_string().contains("rustc 1"));
}

#[test]
fn numbers_as_text() {
    assert_eq!(decimal_text(0), "0");
    assert_eq!(decimal_text(120), "120");
    assert_eq!(padded_text(7, 2), "07");
    assert_eq!(whole_text(5, 2), "2");
    assert_eq!(whole_text(7, 2), "4");
    assert_eq!(tenths_text(1, 3), "0.3");
    assert_eq!(hundredths_text(1, 200), "0.00");
    assert_eq!(hundredths_text(3, 200), "0.02");
    assert_eq!(signed_whole_text(-1_600), "-2");
    assert_eq!(join(&vec![s("a"), s("b")], ", "), "a, b");
    assert_eq!(parse_number("+17", 100), Some(17));
    assert_eq!(parse_number("101", 100), None);
    assert_eq!(parse_number("1 ", 100), None);
    assert_eq!(parse_number("", 100), None);
}

#[test]
fn pieces_of_text() {
    assert_eq!(text_before("fn#2", '#'), "fn");
    assert_eq!(text_before("fn", '#'), "fn");
    assert_eq!(replace_char("a-b-c", '-', '_'), "a_b_c");
    assert!(starts_with("abc", "ab") && ends_with("abc", "bc") && has_text("abc", "b"));
    assert_eq!(strip_prefix("abc", "ab").as_deref(), Some("c"));
    assert_eq!(strip_prefix("abc", "b"), None);
    assert_eq!(strip_suffix("abc", "bc").as_deref(), Some("a"));
    assert_eq!(strip_prefixes("fn-fn-a", "fn-"), "a");
    assert_eq!(rsplit_once("a:b:c", ':'), Some((s("a:b"), s("c"))));
    assert_eq!(to_lower("ÀbC"), "ÀbC".to_ascii_lowercase());
    assert_eq!(split("a,,b", ','), vec!["a", "", "b"]);
    assert_eq!(expand_char("a*b", '*', "xy"), "axyb");
    assert_eq!(trim(" \t a b \n"), "a b");
    assert!(same("a", "a") && !same("a", "b"));
}

#[test]
fn a_queue_depth_joins_its_stage() {
    let mut t = RunTelemetry::new();
    t.sample_depth("fn-a", 1, 7);
    t.sample_depth("fn-b", 2, 0);
    t.sample_depth("fn-a", 3, 9);
    assert_eq!(t.queue_depth_samples.len(), 2);
    assert_eq!(t.queue_depth_samples[0].stage, "fn-a");
    assert_eq!(t.queue_depth_samples[0].samples, vec![(1, 7), (3, 9)]);
    assert_eq!(t.queue_depth_samples[1].samples, vec![(2, 0)]);
}

#[test]
fn worker_times_settle_a_pending_start() {
    let mut t = RunTelemetry::new();
    t.record_event(change("fn-a", "cold_start", None));
    assert_eq!(t.absorb_metrics("fn-a", &vec![], Some(5), Some(0)), Some(0));
    assert!(t.total_ns_samples.is_empty());
    assert_eq!(t.scaling_events[0].cold_start_ns, None);
    assert_eq!(t.absorb_metrics("fn-a", &vec![(10, 4), (20, 6)], None, Some(0)), Some(0));
    assert_eq!(t.absorb_metrics("fn-a", &vec![(30, 8)], Some(5), Some(0)), None);
    assert_eq!(t.total_ns_samples.len(), 1);
    assert_eq!(t.total_ns_samples[0].values, vec![10, 20, 30]);
    assert_eq!(t.serde_ns_samples[0].name, "fn-a");
    assert_eq!(t.serde_ns_samples[0].values, vec![4, 6, 8]);
    assert_eq!(t.scaling_events[0].cold_start_ns, Some(5));
    assert_eq!(t.absorb_metrics("fn-a", &vec![(1, 1)], Some(9), None), None);
    assert_eq!(t.scaling_events[0].cold_start_ns, Some(5));
}

#[test]
fn sorting_keeps_every_value() {
    assert_eq!(sorted(&vec![5, 1, 5, 0, 3]), vec![0, 1, 3, 5, 5]);
    assert!(sorted(&vec![]).is_empty());
}

#[test]
fn events_of_one_time_keep_their_order() {
    let mut c = CollectorStats::new();
    let at = 10 * SEC;
    for (recv, label) in [(at + 2 * MS, "late"), (at + MS, "one"), (at + MS, "two")] {
        c.observe(recv, at, Some(at), vec![hop(label, at, at)]);
    }
    let time = RunTime { start_ns: at, duration_ns: SEC };
    let j = value(&build_summary(JsonOut::Null, &environment(), &c.local, &time, &vec![]));
    let rows = j["events"]["rows"].as_array().unwrap();
    let labels: Vec<&str> = rows.iter().map(|r| r[2][0][0].as_str().unwrap()).collect();
    assert_eq!(labels, vec!["one", "two", "late"]);
}

#[test]
fn hops_without_a_time_are_left_out() {
    let hops = timed_hops(vec![
        (s("a#0"), Some(1), Some(2)),
        (s("b#0"), None, Some(3)),
        (s("c#0"), Some(4), None),
        (s("d#0"), Some(6), Some(5)),
    ]);
    let seen: Vec<(&str, u64, u64)> =
        hops.iter().map(|h| (h.label.as_str(), h.enter_ns, h.exit_ns)).collect();
    assert_eq!(seen, vec![("a#0", 1, 2), ("d#0", 6, 5)]);
}
