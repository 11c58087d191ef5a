//! How a pipeline is wired at its start, and reshaped while it runs.

use bytes::Bytes;
use epico::autoscaler::{ScaleRules, Scaler, SpawnKind, TickAction};
use epico::config::{
    Config, DispatcherConfig, EdgeSpec, FusedHalf, MorphSpec, PipelineStage, StageSlo,
};
use epico::eos::StageEosBarrier;
use epico::morph::{
    eos_in_progress, plan_fuse, plan_schedule, plan_split, scheduled_request, split_replicas,
    FuseRefusal, HalfLimits, MorphRequest, SplitRefusal,
};
use epico::startup::{
    all_stages_lost, component_list, component_pairs, resolve_half_wasm, resolve_stage_wasm,
};
use epico::transition::{
    apply, drain_step, fuse_transition, identity_transition, live_replica_total, schedule_step,
    split_transition, stage_signals, DrainStep, LiveStage, MorphAction, ScheduleStep,
};
use epico::wiring::{
    capacity_or, collector_uri, count_or, dispatcher_for, ingress_uri, kept_in_process,
    output_targets, plan_edges, pool_size, run_config, source_binary, source_threads,
    stage_templates, summary_stages, EdgeShape, EnvKnobs, InProcess, OutSlot, OutputTarget,
};

fn slo(min: usize, max: usize) -> StageSlo {
    StageSlo {
        p99_us: None,
        max_replicas: max,
        min_replicas: min,
        queue_up_milli: None,
        queue_down_milli: None,
        replica_capacity_milli_eps: None,
        cooldown_up_ms: None,
        cooldown_down_ms: None,
        calm_window_milli: None,
    }
}

fn stage(name: &str, min: usize, max: usize) -> PipelineStage {
    PipelineStage {
        name: name.into(),
        input: format!("ipc:///tmp/in-{name}"),
        output: None,
        outputs: vec![format!("ipc:///tmp/out-{name}")],
        wasm: Some(format!("/w/{name}.wasm")),
        binary: None,
        slo: slo(min, max),
        placement: "local".into(),
        fused_from: Vec::new(),
    }
}

fn dispatcher(name: &str) -> DispatcherConfig {
    DispatcherConfig {
        name: name.into(),
        ctrl_port: 7003,
        push_port: Some(7001),
        pull_port: Some(7002),
        push_uri: None,
        credit_window: 8,
        batch_events: 64,
        placement: "local".into(),
    }
}

fn chain() -> Config {
    let mut c = Config::default();
    c.pipeline = vec![stage("fn-a", 1, 4), stage("fn-b", 1, 2)];
    c.edges = vec![EdgeSpec { from: "fn-a".into(), to: "fn-b".into() }];
    c.fusible = vec![vec!["fn-a".into(), "fn-b".into()]];
    c.dispatchers = vec![dispatcher("dispatch-a"), dispatcher("dispatch-b")];
    c
}

fn s(t: &str) -> String {
    t.to_string()
}

#[test]
fn a_fusion_takes_over_both_ends() {
    let c = chain();
    let (a, b) = (s("fn-a"), s("fn-b"));
    let plan = plan_fuse(&c, &a, &b, Some(&c.pipeline[0]), Some(&c.pipeline[1]), 3, 2).unwrap();
    assert_eq!(plan.stage.name, "fn-a_fn-b");
    assert_eq!(plan.stage.input, "ipc:///tmp/in-fn-a");
    assert_eq!(plan.stage.outputs, vec!["ipc:///tmp/out-fn-b"]);
    assert_eq!(plan.stage.slo.min_replicas, 2);
    assert_eq!(plan.max_replicas, 6);
    assert_eq!(plan.replicas, 5);
    assert!(plan.stage.is_fused());
    let halves = plan.stage.halves();
    assert_eq!(halves.len(), 2);
    assert_eq!(halves[1].0, "fn-b");
}

#[test]
fn a_fusion_is_refused_for_a_reason() {
    let c = chain();
    let (a, b) = (s("fn-a"), s("fn-b"));
    assert!(matches!(
        plan_fuse(&c, &b, &a, Some(&c.pipeline[1]), Some(&c.pipeline[0]), 1, 1),
        Err(FuseRefusal::Illegal(_))
    ));
    assert!(matches!(
        plan_fuse(&c, &a, &b, Some(&c.pipeline[0]), None, 1, 0),
        Err(FuseRefusal::NotLive)
    ));
}

#[test]
fn a_split_gives_the_replicas_back_by_weight() {
    let halves = vec![HalfLimits { min: 1, max: 4 }, HalfLimits { min: 1, max: 2 }];
    assert_eq!(split_replicas(&halves, 6), vec![4, 2]);
    assert_eq!(split_replicas(&halves, 5), vec![3, 2]);
    assert_eq!(split_replicas(&halves, 1), vec![1, 1]);
    assert_eq!(split_replicas(&halves, 60), vec![4, 2]);

    let c = chain();
    let known = vec![s("fn-a"), s("fn-b")];
    let fused =
        plan_fuse(&c, &known[0], &known[1], Some(&c.pipeline[0]), Some(&c.pipeline[1]), 1, 1)
            .unwrap()
            .stage;
    assert_eq!(plan_split(Some(&fused), &known).unwrap(), known);
    assert!(matches!(plan_split(None, &known), Err(SplitRefusal::NotLive)));
    assert!(matches!(plan_split(Some(&c.pipeline[0]), &known), Err(SplitRefusal::NotFused)));
    match plan_split(Some(&fused), &vec![s("fn-a")]) {
        Err(SplitRefusal::NoTemplate(missing)) => assert_eq!(missing, vec!["fn-b"]),
        _ => panic!("the split was to be refused"),
    }
}

#[test]
fn a_request_in_words() {
    let fuse = MorphRequest::Fuse { a: s("a"), b: s("b") };
    assert_eq!(fuse.describe(), "fuse a -> b");
    assert_eq!(fuse.subject(), "a_b");
    assert_eq!(fuse.verb(), "fuse");
    assert_eq!(MorphRequest::Split { fused: s("a_b") }.describe(), "split a_b");
    assert_eq!(MorphRequest::Identity { stage: s("a") }.verb(), "identity");
}

fn spec(at_ms: i64) -> MorphSpec {
    MorphSpec { at_ms, fuse: None, split: None, identity: None }
}

#[test]
fn a_schedule_is_put_in_order_and_its_faulty_entries_left_out() {
    let mut late = spec(900);
    late.split = Some(s("a_b"));
    let mut soon = spec(100);
    soon.fuse = Some(vec![s("a"), s("b")]);
    let mut lone = spec(50);
    lone.fuse = Some(vec![s("a")]);
    assert!(scheduled_request(&lone).is_none());
    assert!(scheduled_request(&spec(1)).is_none());
    let plan = plan_schedule(&vec![late, lone, soon]);
    assert_eq!(plan.len(), 2);
    assert_eq!(plan[0].0, 100);
    assert!(matches!(plan[1].1, MorphRequest::Split { .. }));
    assert!(matches!(schedule_step(true, 0, 5), ScheduleStep::Stop));
    assert!(matches!(schedule_step(false, 5, 5), ScheduleStep::Due));
    assert!(matches!(schedule_step(false, 0, 5), ScheduleStep::Sleep(_)));
}

#[test]
fn no_stage_is_reshaped_while_a_stream_ends() {
    let quiet = StageEosBarrier::new(1);
    let mut ending = StageEosBarrier::new(2);
    assert!(!eos_in_progress(&vec![&quiet, &ending]));
    ending.report(Bytes::from_static(b"{}"));
    assert!(!eos_in_progress(&vec![&quiet, &ending]));
    assert_eq!(apply(&vec![&quiet, &ending], identity_transition("a", Some(1))).len(), 6);
    ending.report(Bytes::from_static(b"{}"));
    assert!(eos_in_progress(&vec![&quiet, &ending]));
    assert_eq!(apply(&vec![&quiet, &ending], identity_transition("a", Some(1))).len(), 0);
}

#[test]
fn a_fusion_empties_the_edge_and_carries_the_marks() {
    let steps = fuse_transition("a", "b", Some(3));
    assert!(matches!(&steps[0], MorphAction::Record(f, "morph_begin", 0) if f == "a_b"));
    assert!(matches!(&steps[1], MorphAction::Stop(x) if x == "a"));
    assert!(matches!(&steps[2], MorphAction::AwaitEmpty(x) if x == "b"));
    assert!(matches!(&steps[3], MorphAction::Stop(x) if x == "b"));
    assert!(matches!(&steps[4], MorphAction::Deploy(f, 3) if f == "a_b"));
    assert!(matches!(&steps[5], MorphAction::Carry(x, f) if x == "a" && f == "a_b"));
    assert!(matches!(&steps[6], MorphAction::Carry(x, _) if x == "b"));
    assert!(matches!(&steps[8], MorphAction::Record(_, "morph_end", 0)));
    let refused = fuse_transition("a", "b", None);
    assert_eq!(refused.len(), 2);
    assert!(matches!(&refused[1], MorphAction::Record(_, "morph_failed", 0)));

    let halves = Some(vec![(s("a"), 2), (s("b"), 1)]);
    let split = split_transition("a_b", &halves, 3);
    assert!(matches!(&split[1], MorphAction::Stop(x) if x == "a_b"));
    assert!(matches!(&split[2], MorphAction::Deploy(x, 2) if x == "a"));
    assert!(matches!(&split[4], MorphAction::Carry(x, y) if x == "a_b" && y == "a"));

    let same = identity_transition("a", Some(0));
    assert!(matches!(&same[2], MorphAction::Deploy(x, 1) if x == "a"));
    assert!(matches!(drain_step(true, 99_999), DrainStep::Done));
    assert!(matches!(drain_step(false, 1), DrainStep::Wait));
    assert!(matches!(drain_step(false, 99_999), DrainStep::GiveUp));
}

#[test]
fn what_the_controller_is_told_of_the_stages() {
    let live = |name: &str, n: usize| LiveStage {
        name: name.into(),
        live: n,
        max_replicas: 4,
        queue_depth: 9,
        queue_up_milli: None,
    };
    let stages = vec![live("a", 2), live("b", 3)];
    assert_eq!(live_replica_total(&stages), 5);
    let signals = stage_signals(&stages);
    assert_eq!(signals[1].name, "b");
    assert_eq!(signals[1].signal.live, 3);
    assert_eq!(signals[0].signal.queue_up_milli, 50_000);
}

fn rules() -> ScaleRules {
    ScaleRules {
        min: 1,
        max: 3,
        queue_up_milli: 10_000,
        queue_down_milli: 0,
        cooldown_up: 2,
        cooldown_down: 3,
    }
}

#[test]
fn the_scaler_grows_with_the_queue_and_shrinks_with_it() {
    let mut sc = Scaler::new(rules(), 1);
    let mut eos = StageEosBarrier::new(1);
    let mut grown = Vec::new();
    for _ in 0..20 {
        let done = vec![false; sc.live()];
        if let TickAction::Spawn(kind, idx) =
            sc.tick(&done, false, Some(100), true, &mut eos).action
        {
            grown.push((kind, idx));
        }
    }
    assert_eq!(grown.len(), 3);
    assert!(matches!(grown[0].0, SpawnKind::ColdStart));
    assert_eq!(grown.iter().map(|g| g.1).collect::<Vec<_>>(), vec![0, 1, 2]);

    let mut drained = 0;
    for _ in 0..40 {
        let done: Vec<bool> = sc.workers().iter().map(|w| w.draining).collect();
        if let TickAction::Drain(_) = sc.tick(&done, false, Some(0), true, &mut eos).action {
            drained += 1;
        }
    }
    assert_eq!(drained, 2);
    assert_eq!(sc.live(), 1);
    let done = vec![false];
    assert!(matches!(
        sc.tick(&done, false, None, true, &mut eos).action,
        TickAction::NoSignal
    ));
    assert!(matches!(sc.tick(&done, true, Some(0), true, &mut eos).action, TickAction::Stopping));
    assert!(matches!(
        sc.tick(&vec![true], true, Some(0), true, &mut eos).action,
        TickAction::Stopped
    ));
}

#[test]
fn the_rules_of_a_stage_have_usual_values() {
    let r = ScaleRules::of(&slo(1, 4));
    assert_eq!((r.min, r.max), (1, 4));
    assert_eq!((r.queue_up_milli, r.queue_down_milli), (50_000, 0));
    assert_eq!((r.cooldown_up, r.cooldown_down), (100, 5_000));
}

fn knobs() -> EnvKnobs {
    EnvKnobs {
        source_gen: None,
        inproc_ingress: None,
        inproc_edges: None,
        edge_cap: None,
        edge_impl: None,
        spsc_ring_cap: None,
        source_threads: None,
        source_format: None,
    }
}

#[test]
fn what_is_kept_in_the_process() {
    let c = chain();
    let mut k = knobs();
    let p = kept_in_process(&k, &c, false);
    assert!(!p.source_gen && !p.ingress);
    k.source_gen = Some(s("TRUE"));
    let p = kept_in_process(&k, &c, false);
    assert!(p.source_gen && p.ingress && p.edges);
    assert_eq!(capacity_or(&Some(s("0")), 7), 7);
    assert_eq!(capacity_or(&Some(s("12")), 7), 12);
    assert_eq!(source_threads(&None, None), 1);
    assert_eq!(source_threads(&Some(s("4")), Some(2)), 4);
    assert!(source_binary(&Some(s(" Binary ")), &s("json")));
    assert!(!source_binary(&None, &s("json")));
    assert_eq!(dispatcher_for("fn-relay"), "dispatch-relay");
    assert_eq!(dispatcher_for("fn-fn-relay"), "dispatch-fn-relay");
}

#[test]
fn edges_in_the_process_make_dispatchers_needless() {
    let c = chain();
    let all = InProcess { source_gen: true, ingress: true, edges: true };
    let plan = plan_edges(&c, &all, &s("spsc"), 1024, 64);
    assert_eq!(plan.edges.len(), 3);
    let inner = plan.input_of(&s("fn-b")).unwrap();
    assert!(matches!(
        plan.edges[inner],
        EdgeShape::Mesh { n_prod: 4, n_cons: 2, ring_cap: 64 }
    ));
    let ingress = plan.input_of(&s("fn-a")).unwrap();
    assert_eq!(plan.ingress, Some(ingress));
    assert!(matches!(plan.edges[ingress], EdgeShape::Ring { cap: 1024 }));
    let outs = plan.outputs_of(&s("fn-a"));
    assert!(outs.iter().any(|o| matches!(o, OutSlot::Mesh { edge, base: 0 } if *edge == inner)));
    assert_eq!(plan.outputs_of(&s("fn-b")).len(), 1);
    assert!(!plan.needs_dispatcher(&c.dispatchers[0]));
    assert!(!plan.needs_dispatcher(&c.dispatchers[1]));

    let none = InProcess { source_gen: false, ingress: false, edges: false };
    let apart = plan_edges(&c, &none, &s("mpmc"), 1024, 64);
    assert_eq!(apart.edges.len(), 0);
    assert!(apart.needs_dispatcher(&c.dispatchers[0]));

    let templates = stage_templates(&c, &plan).unwrap();
    assert_eq!(templates.len(), 2);
    assert_eq!(templates[1].expected_in, 1);
    assert_eq!(templates[0].ctrl_port, 7003);
    assert!(pool_size(&c) >= 6);
}

#[test]
fn a_run_is_described_by_its_stages() {
    let c = chain();
    let r = run_config(&c);
    assert_eq!(r.stages.len(), 2);
    assert_eq!(r.stages[0].stage, "fn-a");
    assert_eq!(r.stages[0].max_replicas, 4);
    assert_eq!(r.stages[1].credit_window, 8);
    assert!(summary_stages(&c).contains(&s("fn-a")));
}

#[test]
fn components_are_found_where_they_are() {
    let c = chain();
    let list = component_list(&c);
    assert_eq!(list[0], (s("fn-a"), s("/w/fn-a.wasm")));
    let found = Some(s("/found.wasm"));
    assert_eq!(resolve_stage_wasm(&s("fn-a"), &Some(s("/w.wasm")), &None), "/w.wasm");
    assert_eq!(resolve_stage_wasm(&s("fn-a"), &Some(s("w.wasm")), &found), "/found.wasm");
    let usual = "./functions-rs/target/wasm32-wasip2/release/fn_a.wasm";
    assert_eq!(resolve_stage_wasm(&s("fn-a"), &None, &found), usual);
    assert_eq!(resolve_half_wasm(&s("fn-a"), &Some(s("w.wasm")), &found), "/found.wasm");
    assert_eq!(resolve_half_wasm(&s("fn-a"), &None, &found), "/found.wasm");
    assert_eq!(resolve_half_wasm(&s("fn-a"), &None, &None), usual);
    assert!(all_stages_lost(&vec![true, true], false));
    assert!(!all_stages_lost(&vec![true, true], true));
    assert!(!all_stages_lost(&vec![true, false], false));
}

#[test]
fn an_edge_in_the_process_replaces_its_address() {
    let addresses = vec![s("ipc:///tmp/x"), s("ipc:///tmp/y")];
    let slots = vec![OutSlot::Mesh { edge: 3, base: 2 }];
    let out = output_targets(&slots, &addresses);
    assert_eq!(out.len(), 2);
    assert!(matches!(out[0], OutputTarget::Slot(OutSlot::Mesh { edge: 3, base: 2 })));
    assert!(matches!(&out[1], OutputTarget::Address(a) if a == "ipc:///tmp/y"));
    let all = output_targets(&vec![], &addresses);
    assert!(matches!(&all[0], OutputTarget::Address(a) if a == "ipc:///tmp/x"));
    assert_eq!(output_targets(&slots, &vec![]).len(), 1);
}

#[test]
fn the_ends_of_a_pipeline_have_usual_addresses() {
    let mut c = chain();
    assert_eq!(ingress_uri(&c), "ipc:///tmp/epico-ingress");
    assert_eq!(collector_uri(&c), "tcp://0.0.0.0:9999");
    c.dispatchers[1].push_uri = Some(s("ipc:///tmp/in"));
    c.collector = Some(s("tcp://127.0.0.1:4"));
    assert_eq!(ingress_uri(&c), "ipc:///tmp/in");
    assert_eq!(collector_uri(&c), "tcp://127.0.0.1:4");
    assert_eq!(count_or(&None, 12), 12);
    assert_eq!(count_or(&Some(s("x")), 12), 12);
    assert_eq!(count_or(&Some(s("40")), 12), 40);
}

#[test]
fn stages_that_are_not_there_are_not_fused() {
    let c = chain();
    let (x, y) = (s("fn-x"), s("fn-y"));
    let refused = plan_fuse(&c, &x, &y, None, None, 0, 0);
    assert!(matches!(refused, Err(FuseRefusal::Illegal(_))));
}

#[test]
fn components_are_paired_along_the_edges() {
    let c = chain();
    assert_eq!(component_pairs(&c), vec![(0, 1)]);
    let mut forked = chain();
    forked.pipeline.push(stage("fn-c", 1, 1));
    forked.edges.push(EdgeSpec { from: "fn-a".into(), to: "fn-c".into() });
    forked.edges.push(EdgeSpec { from: "fn-a".into(), to: "gone".into() });
    assert_eq!(component_pairs(&forked), vec![(0, 1), (0, 2)]);
    let half = |n: &str| FusedHalf { name: n.into(), wasm: None };
    forked.pipeline[0].fused_from = vec![half("x"), half("y")];
    assert_eq!(component_list(&forked).len(), 4);
    assert_eq!(component_pairs(&forked), vec![(0, 1), (1, 2), (1, 3)]);
}
