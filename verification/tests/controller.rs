//! The cost model's decisions, clause by clause.

use epico::control_loop::{ControllerState, LoopAction};
use epico::controller::{
    decide, ControllerCfg, ControllerSpec, Decision, FusedSignal, NamedSignal, PairSignal, Signals,
    StageSignal,
};
use epico::live::{LiveStats, StageEntry};
use epico::morph::MorphRequest;
use epico::window::{EdgeBucket, StageBucket, Window};

const T_NS: u64 = 100_000_000_000;

struct Fixture {
    stats: LiveStats,
    stages: Vec<NamedSignal>,
}

impl Fixture {
    fn new() -> Self {
        let mut stats = LiveStats::default();
        stats.t_ns = T_NS;
        Fixture { stats, stages: Vec::new() }
    }

    fn edge(mut self, from: &str, to: &str, gap_us: u64, rate: u64) -> Self {
        let mut w: Window<EdgeBucket> = Window::default();
        for _ in 0..5 {
            {
                let b = w.current_mut();
                b.count = rate;
                b.bytes = rate * 128;
                for _ in 0..64 {
                    b.gap.observe_us(gap_us);
                }
            }
            w.advance();
        }
        self.stats.set_edge(&from.to_string(), &to.to_string(), w);
        self
    }

    fn compute(mut self, stage: &str, wasm_us: u64, overhead_us: u64) -> Self {
        let mut w: Window<StageBucket> = Window::default();
        for _ in 0..5 {
            {
                let b = w.current_mut();
                b.events = 1_000;
                for _ in 0..64 {
                    b.wasm.observe_us(wasm_us);
                    b.overhead.observe_us(overhead_us);
                }
            }
            w.advance();
        }
        self.stats.stages.push(StageEntry { name: stage.to_string(), window: w });
        self
    }

    fn stage(mut self, name: &str, live: usize, max: usize, qd_prev: u64, qd: u64) -> Self {
        self.stages.retain(|s| s.name != name);
        self.stages.push(NamedSignal {
            name: name.to_string(),
            signal: StageSignal {
                live,
                max,
                queue_depth: qd,
                queue_depth_prev: qd_prev,
                queue_up_milli: 50_000,
            },
        });
        self
    }
}

fn pair(a: &str, b: &str, why: Option<&str>) -> PairSignal {
    PairSignal { a: a.into(), b: b.into(), illegal_reason: why.map(|w| w.to_string()) }
}

fn pairs() -> Vec<PairSignal> {
    vec![pair("a", "b", None)]
}

fn cfg() -> ControllerCfg {
    ControllerCfg { enabled: true, ..Default::default() }
}

fn edge_bound() -> Fixture {
    Fixture::new()
        .edge("a", "b", 2_000, 20_000)
        .compute("a", 30, 20)
        .compute("b", 30, 20)
        .stage("a", 2, 4, 0, 0)
        .stage("b", 2, 4, 10, 400)
}

fn run(fx: &Fixture, ps: &Vec<PairSignal>, cfg: &ControllerCfg) -> Decision {
    run_with(fx, ps, cfg, &vec![], 999_000, 64)
}

fn run_with(
    fx: &Fixture,
    ps: &Vec<PairSignal>,
    cfg: &ControllerCfg,
    fused: &Vec<FusedSignal>,
    since_last_morph_ms: u64,
    pool_free: usize,
) -> Decision {
    decide(
        &Signals {
            stats: &fx.stats,
            stages: &fx.stages,
            pairs: ps,
            fused,
            pool_free,
            since_last_morph_ms,
            now_ns: fx.stats.t_ns + 500_000_000,
        },
        cfg,
    )
}

fn fusion(age_ms: u64) -> Vec<FusedSignal> {
    vec![FusedSignal { name: "a_b".into(), a: "a".into(), b: "b".into(), age_ms }]
}

#[test]
fn edge_dominated_and_under_pressure_fuses() {
    let d = run(&edge_bound(), &pairs(), &cfg());
    match d.request {
        Some(MorphRequest::Fuse { ref a, ref b }) => {
            assert_eq!((a.as_str(), b.as_str()), ("a", "b"), "{}", d.reason);
        }
        other => panic!("expected a fuse, got {other:?} — {}", d.reason),
    }
}

#[test]
fn compute_bound_at_max_replicas_refuses_by_name() {
    let fx = Fixture::new()
        .edge("a", "b", 2_000, 20_000)
        .compute("a", 4_000, 20)
        .compute("b", 4_000, 20)
        .stage("a", 4, 4, 0, 0)
        .stage("b", 4, 4, 10, 400);
    let d = run(&fx, &pairs(), &cfg());
    assert!(d.request.is_none(), "must not fuse a compute-bound pair");
    assert!(d.reason.contains("compute-bound"), "reason was: {}", d.reason);
}

#[test]
fn a_merely_non_dominant_edge_refuses_differently_than_a_compute_bound_one() {
    let fx = Fixture::new()
        .edge("a", "b", 20, 20_000)
        .compute("a", 4_000, 20)
        .compute("b", 4_000, 20)
        .stage("a", 1, 4, 0, 0)
        .stage("b", 1, 4, 10, 400);
    let d = run(&fx, &pairs(), &cfg());
    assert!(d.request.is_none());
    assert!(!d.reason.contains("compute-bound"), "reason was: {}", d.reason);
    assert!(d.reason.contains("alpha"), "reason was: {}", d.reason);
}

#[test]
fn an_illegal_pair_is_refused_with_the_runtimes_own_reason() {
    let ps = vec![pair("a", "b", Some("fan-out at the source"))];
    let d = run(&edge_bound(), &ps, &cfg());
    assert!(d.request.is_none());
    assert!(d.reason.contains("fan-out at the source"), "reason was: {}", d.reason);
}

#[test]
fn no_pressure_means_no_morph_however_expensive_the_edge() {
    let fx = edge_bound().stage("b", 2, 4, 400, 0);
    let d = run(&fx, &pairs(), &cfg());
    assert!(d.request.is_none());
    assert!(d.reason.contains("no pressure"), "reason was: {}", d.reason);
}

#[test]
fn a_pinned_stage_with_a_deep_queue_is_pressure_even_when_flat() {
    let fx = edge_bound().stage("b", 4, 4, 400, 400);
    let d = run(&fx, &pairs(), &cfg());
    assert!(matches!(d.request, Some(MorphRequest::Fuse { .. })), "{}", d.reason);
}

#[test]
fn admission_is_rechecked_at_runtime() {
    let d = run_with(&edge_bound(), &pairs(), &cfg(), &vec![], 999_000, 3);
    assert!(d.request.is_none());
    assert!(d.reason.contains("pool has 3 free"), "reason was: {}", d.reason);
}

#[test]
fn a_gain_below_the_calibrated_floor_is_refused_and_says_so() {
    let fx = Fixture::new()
        .edge("a", "b", 60, 20_000)
        .compute("a", 5, 5)
        .compute("b", 5, 5)
        .stage("a", 2, 4, 0, 0)
        .stage("b", 2, 4, 10, 400);
    let c = ControllerCfg { significance_floor_ns: 100_000, ..cfg() };
    let d = run(&fx, &pairs(), &c);
    assert!(d.request.is_none());
    assert!(d.reason.contains("significance floor"), "reason was: {}", d.reason);
    assert!(d.reason.contains("100.0"), "reason was: {}", d.reason);
}

#[test]
fn hysteresis_blocks_a_second_morph_inside_the_cooldown() {
    let d = run_with(&edge_bound(), &pairs(), &cfg(), &vec![], 1_000, 64);
    assert!(d.request.is_none());
    assert!(d.reason.contains("hysteresis"), "reason was: {}", d.reason);
}

#[test]
fn a_quiet_edge_is_not_evidence() {
    let fx = edge_bound().edge("a", "b", 2_000, 5);
    let d = run(&fx, &pairs(), &cfg());
    assert!(d.request.is_none());
    assert!(d.reason.contains("below the"), "reason was: {}", d.reason);
}

#[test]
fn a_stale_snapshot_is_never_acted_on() {
    let fx = edge_bound();
    let d = decide(
        &Signals {
            stats: &fx.stats,
            stages: &fx.stages,
            pairs: &pairs(),
            fused: &vec![],
            pool_free: 64,
            since_last_morph_ms: 999_000,
            now_ns: fx.stats.t_ns + 10_000_000_000,
        },
        &cfg(),
    );
    assert!(d.request.is_none());
    assert!(d.reason.contains("stale"), "reason was: {}", d.reason);
}

#[test]
fn a_disabled_controller_proposes_nothing() {
    let d = run(&edge_bound(), &pairs(), &ControllerCfg::default());
    assert!(d.request.is_none());
    assert!(d.reason.contains("disabled"));
}

#[test]
fn no_declared_pairs_is_reported_as_such_not_as_a_refusal() {
    let d = run(&edge_bound(), &vec![], &cfg());
    assert!(d.request.is_none());
    assert!(d.reason.contains("no fusible pairs"), "reason was: {}", d.reason);
}

#[test]
fn the_busiest_edge_bound_pair_wins() {
    let fx = Fixture::new()
        .edge("a", "b", 200, 1_000)
        .edge("c", "d", 200, 50_000)
        .compute("a", 5, 5)
        .compute("b", 5, 5)
        .compute("c", 5, 5)
        .compute("d", 5, 5)
        .stage("a", 2, 4, 0, 0)
        .stage("b", 2, 4, 10, 400)
        .stage("c", 2, 4, 0, 0)
        .stage("d", 2, 4, 10, 400);
    let ps = vec![pair("a", "b", None), pair("c", "d", None)];
    let d = run(&fx, &ps, &cfg());
    match d.request {
        Some(MorphRequest::Fuse { ref a, ref b }) => {
            assert_eq!((a.as_str(), b.as_str()), ("c", "d"), "{}", d.reason)
        }
        other => panic!("expected a fuse, got {other:?} — {}", d.reason),
    }
}

#[test]
fn a_fusion_that_went_compute_bound_is_undone() {
    let fx = Fixture::new().compute("a_b", 4_000, 20).stage("a_b", 4, 4, 400, 400);
    let d = run_with(&fx, &vec![], &cfg(), &fusion(60_000), 999_000, 64);
    match d.request {
        Some(MorphRequest::Split { ref fused }) => assert_eq!(fused, "a_b"),
        other => panic!("expected a split, got {other:?} — {}", d.reason),
    }
}

#[test]
fn a_fresh_fusion_is_never_undone_however_it_looks() {
    let fx = Fixture::new().compute("a_b", 4_000, 20).stage("a_b", 4, 4, 400, 400);
    let d = run_with(&fx, &vec![], &cfg(), &fusion(2_000), 999_000, 64);
    assert!(d.request.is_none(), "reason was: {}", d.reason);
}

#[test]
fn a_fusion_that_is_still_overhead_bound_is_left_alone() {
    let fx = Fixture::new().compute("a_b", 20, 4_000).stage("a_b", 4, 4, 400, 400);
    let d = run_with(&fx, &vec![], &cfg(), &fusion(60_000), 999_000, 64);
    assert!(d.request.is_none(), "reason was: {}", d.reason);
}

#[test]
fn a_fusion_with_replica_headroom_is_left_alone() {
    let fx = Fixture::new().compute("a_b", 4_000, 20).stage("a_b", 2, 4, 400, 400);
    let d = run_with(&fx, &vec![], &cfg(), &fusion(60_000), 999_000, 64);
    assert!(d.request.is_none(), "reason was: {}", d.reason);
}

#[test]
fn splitting_outranks_fusing_when_both_apply() {
    let mut fx = edge_bound();
    fx = fx.compute("a_b", 4_000, 20).stage("a_b", 4, 4, 400, 400);
    let fused = vec![FusedSignal {
        name: "a_b".into(),
        a: "x".into(),
        b: "y".into(),
        age_ms: 60_000,
    }];
    let d = run_with(&fx, &pairs(), &cfg(), &fused, 999_000, 64);
    assert!(matches!(d.request, Some(MorphRequest::Split { .. })), "{}", d.reason);
}

#[test]
fn a_fusion_this_controller_did_not_make_is_not_undone() {
    let fx = Fixture::new().compute("a_b", 4_000, 20).stage("a_b", 4, 4, 400, 400);
    let d = run_with(&fx, &vec![], &cfg(), &vec![], 999_000, 64);
    assert!(d.request.is_none(), "reason was: {}", d.reason);
}

#[test]
fn a_declared_controller_keeps_its_limits() {
    let spec = ControllerSpec {
        enabled: true,
        period_ms: Some(1),
        alpha_milli: Some(-5),
        cooldown_fuse_ms: None,
        cooldown_split_ms: Some(7),
        significance_floor_ns: None,
        window_s: Some(0),
        min_rate_milli: None,
    };
    let c = ControllerCfg::from_spec(&spec);
    assert!(c.enabled);
    assert_eq!(c.period_ms, 50);
    assert_eq!(c.alpha_milli, 0);
    assert_eq!(c.cooldown_fuse_ms, 5000);
    assert_eq!(c.cooldown_split_ms, 7);
    assert_eq!(c.window_s, 1);
}

#[test]
fn the_loop_remembers_depths_reasons_and_its_own_fusions() {
    let fx = edge_bound();
    let live: Vec<String> = vec!["a".into(), "b".into()];
    let mut state = ControllerState::new(0);

    let first = state.gather(&fx.stages, &live, 1_000);
    assert_eq!(first.stages[1].signal.queue_depth_prev, 400);
    assert_eq!(first.fused.len(), 0);

    let hold = || Decision { request: None, reason: "waiting".into() };
    assert!(matches!(state.settle(&fx.stages, hold(), 1_000), LoopAction::Report(ref r) if r == "waiting"));
    assert!(matches!(state.settle(&fx.stages, hold(), 2_000), LoopAction::Nothing));

    let deeper = edge_bound().stage("b", 2, 4, 0, 900);
    let second = state.gather(&deeper.stages, &live, 3_000);
    assert_eq!(second.stages[1].signal.queue_depth, 900);
    assert_eq!(second.stages[1].signal.queue_depth_prev, 400);

    let fuse = Decision {
        request: Some(MorphRequest::Fuse { a: "a".into(), b: "b".into() }),
        reason: "worth it".into(),
    };
    assert!(matches!(state.settle(&fx.stages, fuse, 4_000), LoopAction::Propose(_, _)));
    let fused_live: Vec<String> = vec!["a_b".into()];
    let third = state.gather(&vec![], &fused_live, 9_000);
    assert_eq!(third.fused.len(), 1);
    assert_eq!(third.fused[0].name, "a_b");
    assert_eq!(third.fused[0].age_ms, 5_000);
    let gone = state.gather(&vec![], &live, 9_500);
    assert_eq!(gone.fused.len(), 0);
}
