//! The topology of a pipeline, and which of its edges may be contracted.

use epico::config::{
    default_batch_events, default_compile_mode, default_credit_window, default_edge_cap,
    default_edge_impl, default_event_format, default_ingress_mode, default_placement,
    default_resource_sample_interval_ms, default_source_format, default_spsc_ring_cap,
    default_wasm_path, fused_stage_name, make_pull_endpoint, make_push_endpoint, stage_owned_by,
    Config, EdgeSpec, PipelineStage, StageSlo,
};

fn stage(name: &str, output: Option<&str>) -> PipelineStage {
    PipelineStage {
        name: name.to_string(),
        input: format!("ipc:///tmp/in-{name}"),
        output: output.map(str::to_string),
        outputs: Vec::new(),
        wasm: None,
        binary: None,
        slo: StageSlo {
            p99_us: None,
            max_replicas: 1,
            min_replicas: 0,
            queue_up_milli: None,
            queue_down_milli: None,
            replica_capacity_milli_eps: None,
            cooldown_up_ms: None,
            cooldown_down_ms: None,
            calm_window_milli: None,
        },
        placement: "local".to_string(),
        fused_from: Vec::new(),
    }
}

fn cfg(stages: Vec<PipelineStage>, edges: Vec<(&str, &str)>) -> Config {
    let mut c = Config::default();
    c.pipeline = stages;
    c.edges =
        edges.into_iter().map(|(f, t)| EdgeSpec { from: f.into(), to: t.into() }).collect();
    c
}

fn s(t: &str) -> String {
    t.to_string()
}

fn edge_list(c: &Config) -> Vec<(String, String)> {
    c.edges.iter().map(|e| (e.from.clone(), e.to.clone())).collect()
}

#[test]
fn legacy_config_normalizes_to_linear_chain() {
    let mut c = cfg(
        vec![stage("a", Some("ipc:///tmp/b-push")), stage("b", Some("tcp://localhost:9999"))],
        vec![],
    );
    c.normalize_topology();

    assert_eq!(edge_list(&c), vec![(s("a"), s("b"))]);
    assert_eq!(c.pipeline[0].outputs, vec!["ipc:///tmp/b-push"]);
    assert_eq!(c.pipeline[1].outputs, vec!["tcp://localhost:9999"]);
    assert_eq!(c.collector.as_deref(), Some("tcp://localhost:9999"));
    assert_eq!(c.in_degree(&s("a")), 0);
    assert_eq!(c.in_degree(&s("b")), 1);
    assert_eq!(c.sources().len(), 1);
    assert_eq!(c.sinks()[0].name, "b");
}

#[test]
fn declared_edges_are_authoritative() {
    let mut c = cfg(
        vec![stage("b", None), stage("a", None), stage("c", None)],
        vec![("a", "b"), ("a", "c")],
    );
    c.normalize_topology();

    assert_eq!(c.sources().len(), 1);
    assert_eq!(c.sources()[0].name, "a");
    let mut sinks: Vec<&str> = c.sinks().iter().map(|s| s.name.as_str()).collect();
    sinks.sort();
    assert_eq!(sinks, vec!["b", "c"]);
    assert_eq!(c.out_degree(&s("a")), 2);
    assert_eq!(c.succs(&s("a")), vec!["b", "c"]);
}

#[test]
fn fan_in_degree_counts_every_branch() {
    let mut c = cfg(
        vec![stage("src", None), stage("l", None), stage("r", None), stage("merge", None)],
        vec![("src", "l"), ("src", "r"), ("l", "merge"), ("r", "merge")],
    );
    c.normalize_topology();

    assert_eq!(c.in_degree(&s("merge")), 2);
    let merge = s("merge");
    let mut preds = c.preds(&merge);
    preds.sort();
    assert_eq!(preds, vec!["l", "r"]);
    assert_eq!(c.sinks().len(), 1);
    assert_eq!(c.sinks()[0].name, "merge");
}

fn scaled(name: &str, max: usize) -> PipelineStage {
    let mut s = stage(name, None);
    s.slo.max_replicas = max;
    s
}

#[test]
fn fusion_legality_refuses_fan_out_fan_in_and_undeclared_pairs() {
    let mut c = cfg(
        vec![scaled("src", 1), scaled("l", 2), scaled("r", 2), scaled("merge", 3)],
        vec![("src", "l"), ("src", "r"), ("l", "merge"), ("r", "merge")],
    );
    c.normalize_topology();
    c.fusible = vec![vec!["src".into(), "l".into()], vec!["l".into(), "merge".into()]];

    assert!(c.fusion_illegal_reason(&s("src"), &s("l")).unwrap().contains("fan-out"));
    assert!(c.fusion_illegal_reason(&s("l"), &s("merge")).unwrap().contains("fan-in"));
    assert!(c.fusion_illegal_reason(&s("l"), &s("r")).unwrap().contains("no edge"));
}

#[test]
fn fusion_requires_a_declared_pair_and_widens_its_index_spaces() {
    let mut c =
        cfg(vec![scaled("a", 4), scaled("b", 2), scaled("c", 1)], vec![("a", "b"), ("b", "c")]);
    c.normalize_topology();
    let (a, b) = (s("a"), s("b"));

    assert!(c.fusion_illegal_reason(&a, &b).unwrap().contains("not declared"));
    assert_eq!(c.max_consumers(&a), 4);
    assert_eq!(c.max_producers(&b), 2);

    c.fusible = vec![vec!["a".into(), "b".into()]];
    assert_eq!(c.fusion_illegal_reason(&a, &b), None);
    assert_eq!(c.fused_max_replicas(&a, &b), Some(6));
    assert_eq!(c.max_consumers(&a), 6);
    assert_eq!(c.max_producers(&b), 6);
    assert_eq!(c.max_consumers(&b), 2);
    assert_eq!(c.max_producers(&a), 4);
}

#[test]
fn normalize_is_idempotent() {
    let mut c = cfg(vec![stage("a", Some("x")), stage("b", Some("y"))], vec![]);
    c.normalize_topology();
    let snapshot = (edge_list(&c), c.pipeline[0].outputs.clone(), c.collector.clone());
    c.normalize_topology();
    assert_eq!((edge_list(&c), c.pipeline[0].outputs.clone(), c.collector.clone()), snapshot);
}

#[test]
fn names_and_places_of_stages() {
    assert_eq!(fused_stage_name("fn-a", "fn-b"), "fn-a_fn-b");
    assert_eq!(
        default_wasm_path("fn-relay"),
        "./functions-rs/target/wasm32-wasip2/release/fn_relay.wasm"
    );
    assert!(stage_owned_by(&stage("a", None), &s("local")));
    assert!(!stage_owned_by(&stage("a", None), &s("edge-1")));
}

#[test]
fn a_stage_that_is_placed_elsewhere_is_filtered_out_with_its_edges() {
    let mut c = cfg(
        vec![stage("a", None), stage("b", None), stage("c", None)],
        vec![("a", "b"), ("b", "c")],
    );
    c.pipeline[2].placement = s("far");
    c.normalize_topology();
    assert_eq!(c.apply_placement_filter(), 2);
    assert_eq!(c.pipeline.len(), 2);
    assert_eq!(edge_list(&c), vec![(s("a"), s("b"))]);
}

#[test]
fn what_a_config_leaves_out_has_usual_values() {
    assert_eq!(default_placement(), "local");
    assert_eq!(default_credit_window(), 1);
    assert_eq!(default_batch_events(), 1);
    assert_eq!(default_source_format(), "binary");
    assert_eq!(default_ingress_mode(), "socket");
    assert_eq!(default_edge_impl(), "zmq");
    assert_eq!(default_edge_cap(), 1024);
    assert_eq!(default_spsc_ring_cap(), 64);
    assert_eq!(default_resource_sample_interval_ms(), 1000);
    assert_eq!(default_compile_mode(), "startup");
    assert_eq!(default_event_format(), "json");
    assert_eq!(make_pull_endpoint("ipc:///tmp/x"), "ipc:///tmp/x");
    assert_eq!(make_push_endpoint("ipc:///tmp/x"), "ipc:///tmp/x");
}

#[test]
fn only_pairs_are_fusible() {
    let mut c = cfg(vec![scaled("a", 2), scaled("b", 3)], vec![("a", "b")]);
    c.fusible = vec![vec![s("a"), s("b")], vec![s("a")], vec![s("a"), s("b"), s("c")]];
    assert_eq!(c.fusible_pairs(), vec![(s("a"), s("b"))]);
    assert_eq!(c.fused_max_replicas(&s("a"), &s("b")), Some(5));
    assert_eq!(c.fused_max_replicas(&s("a"), &s("x")), None);
}
