//! The cost-model controller: when to change the shape of the pipeline.
//!
//! The decision is a function of the signals alone. Two stages are fused when
//! all of this holds: they may be fused; the edge between them costs more than
//! the compute it joins; the second one is under pressure; there is room for
//! the fused replicas; the gain is above what counts as noise; and the last
//! morph was long enough ago. A fusion is undone only when this controller made
//! it and compute has become what limits it.

use vstd::prelude::*;
use crate::live::{
    edge_place, has_edge, has_stage, merged_gaps, merged_overhead, merged_wasm, min_nat,
    recent_seconds, recent_stage_seconds, stage_place, sum_events, LiveStats,
};
use crate::hist::quantile_half_us;
use crate::morph::{MorphModel, MorphRequest};
use crate::numtext::{
    concat, decimal, decimal_text, flat, hundredths, hundredths_text, join, joined, owned_views,
    rounded, signed_whole, signed_whole_text, tenths, tenths_text, views, whole_text,
};

verus! {

/// Tunables of the controller.
#[derive(Clone, Copy, Debug, PartialEq, Eq, Structural)]
pub struct ControllerCfg {
    /// Off unless a pipeline asks for it.
    pub enabled: bool,
    /// Milliseconds between decisions.
    pub period_ms: u64,
    /// How much more than the compute an edge must cost, in thousandths.
    pub alpha_milli: u64,
    /// Milliseconds between a morph and the next fusion.
    pub cooldown_fuse_ms: u64,
    /// Milliseconds before a fusion may be undone.
    pub cooldown_split_ms: u64,
    /// The smallest cost per event, in nanoseconds, that counts as a gain and
    /// not as noise.
    pub significance_floor_ns: u64,
    /// Seconds each query looks back.
    pub window_s: usize,
    /// Milliseconds after which the statistics are too old to act on.
    pub max_stats_age_ms: u64,
    /// Events in a thousand seconds below which an edge is too quiet to judge.
    pub min_rate_milli: u64,
}

impl Default for ControllerCfg {
    fn default() -> (c: ControllerCfg)
        ensures
            c == default_cfg(),
    {
        ControllerCfg {
            enabled: false,
            period_ms: 1000,
            alpha_milli: 1000,
            cooldown_fuse_ms: 5000,
            cooldown_split_ms: 30000,
            significance_floor_ns: 50000,
            window_s: 5,
            max_stats_age_ms: 3000,
            min_rate_milli: 100000,
        }
    }
}

/// The tunables where nothing is said.
pub open spec fn default_cfg() -> ControllerCfg {
    ControllerCfg {
        enabled: false,
        period_ms: 1000,
        alpha_milli: 1000,
        cooldown_fuse_ms: 5000,
        cooldown_split_ms: 30000,
        significance_floor_ns: 50000,
        window_s: 5,
        max_stats_age_ms: 3000,
        min_rate_milli: 100000,
    }
}

/// What a pipeline says of its controller.
#[derive(Clone, Copy, Debug, PartialEq, Eq, Structural)]
pub struct ControllerSpec {
    pub enabled: bool,
    pub period_ms: Option<i64>,
    pub alpha_milli: Option<i64>,
    pub cooldown_fuse_ms: Option<i64>,
    pub cooldown_split_ms: Option<i64>,
    pub significance_floor_ns: Option<i64>,
    pub window_s: Option<usize>,
    pub min_rate_milli: Option<i64>,
}

/// A declared value, or the usual one, but no less than `least`.
pub open spec fn declared_or(value: Option<i64>, usual: u64, least: u64) -> u64 {
    let v = match value {
        None => usual as int,
        Some(d) => d as int,
    };
    if v < least {
        least
    } else {
        v as u64
    }
}

fn value_or(value: Option<i64>, usual: u64, least: u64) -> (v: u64)
    requires
        usual >= least,
    ensures
        v == declared_or(value, usual, least),
{
    match value {
        None => usual,
        Some(d) => if d < 0 {
            least
        } else {
            let v: u64 = d as u64;
            if v < least {
                least
            } else {
                v
            }
        },
    }
}

/// The tunables that a pipeline's own amount to.
pub open spec fn resolved(spec: ControllerSpec) -> ControllerCfg {
    ControllerCfg {
        enabled: spec.enabled,
        period_ms: declared_or(spec.period_ms, 1000, 50),
        alpha_milli: declared_or(spec.alpha_milli, 1000, 0),
        cooldown_fuse_ms: declared_or(spec.cooldown_fuse_ms, 5000, 0),
        cooldown_split_ms: declared_or(spec.cooldown_split_ms, 30000, 0),
        significance_floor_ns: declared_or(spec.significance_floor_ns, 50000, 0),
        window_s: match spec.window_s {
            None => 5,
            Some(w) => if w < 1 {
                1
            } else {
                w
            },
        },
        max_stats_age_ms: 3000,
        min_rate_milli: declared_or(spec.min_rate_milli, 100000, 0),
    }
}

impl ControllerCfg {
    /// The tunables a pipeline asks for, with the usual ones for what it does
    /// not mention.
    pub fn from_spec(spec: &ControllerSpec) -> (c: ControllerCfg)
        ensures
            c == (ControllerCfg {
                enabled: spec.enabled,
                period_ms: declared_or(spec.period_ms, 1000, 50),
                alpha_milli: declared_or(spec.alpha_milli, 1000, 0),
                cooldown_fuse_ms: declared_or(spec.cooldown_fuse_ms, 5000, 0),
                cooldown_split_ms: declared_or(spec.cooldown_split_ms, 30000, 0),
                significance_floor_ns: declared_or(spec.significance_floor_ns, 50000, 0),
                window_s: match spec.window_s {
                    None => 5,
                    Some(w) => if w < 1 {
                        1
                    } else {
                        w
                    },
                },
                max_stats_age_ms: 3000,
                min_rate_milli: declared_or(spec.min_rate_milli, 100000, 0),
            }),
            c == resolved(*spec),
    {
        let d = ControllerCfg::default();
        ControllerCfg {
            enabled: spec.enabled,
            period_ms: value_or(spec.period_ms, d.period_ms, 50),
            alpha_milli: value_or(spec.alpha_milli, d.alpha_milli, 0),
            cooldown_fuse_ms: value_or(spec.cooldown_fuse_ms, d.cooldown_fuse_ms, 0),
            cooldown_split_ms: value_or(spec.cooldown_split_ms, d.cooldown_split_ms, 0),
            significance_floor_ns: value_or(
                spec.significance_floor_ns,
                d.significance_floor_ns,
                0,
            ),
            window_s: match spec.window_s {
                None => d.window_s,
                Some(w) => if w < 1 {
                    1
                } else {
                    w
                },
            },
            max_stats_age_ms: d.max_stats_age_ms,
            min_rate_milli: value_or(spec.min_rate_milli, d.min_rate_milli, 0),
        }
    }
}

/// What the decision knows about one stage.
#[derive(Clone, Copy, Debug, PartialEq, Eq, Structural)]
pub struct StageSignal {
    pub live: usize,
    pub max: usize,
    pub queue_depth: u64,
    /// The depth at the decision before.
    pub queue_depth_prev: u64,
    /// The stage's own threshold for scaling up, in thousandths of an event.
    pub queue_up_milli: i64,
}

/// A stage and what is known about it.
#[derive(Clone, Debug)]
pub struct NamedSignal {
    pub name: String,
    pub signal: StageSignal,
}

/// A declared pair, and why it may not be fused, if it may not.
#[derive(Clone, Debug)]
pub struct PairSignal {
    pub a: String,
    pub b: String,
    pub illegal_reason: Option<String>,
}

/// A fusion in force that this controller made.
#[derive(Clone, Debug)]
pub struct FusedSignal {
    pub name: String,
    pub a: String,
    pub b: String,
    pub age_ms: u64,
}

/// Everything the decision reads.
pub struct Signals<'a> {
    pub stats: &'a LiveStats,
    pub stages: &'a Vec<NamedSignal>,
    pub pairs: &'a Vec<PairSignal>,
    /// The fusions this controller answers for, and no others.
    pub fused: &'a Vec<FusedSignal>,
    pub pool_free: usize,
    pub since_last_morph_ms: u64,
    /// Nanoseconds since the start.
    pub now_ns: u64,
}

/// A decision, and why it was taken.
#[derive(Clone, Debug)]
pub struct Decision {
    pub request: Option<MorphRequest>,
    pub reason: String,
}

/// The request of a decision, as a value.
pub open spec fn request_of(r: Option<MorphRequest>) -> Option<MorphModel> {
    match r {
        None => None,
        Some(q) => Some(q@),
    }
}

impl Decision {
    fn hold(reason: String) -> (d: Decision)
        ensures
            d.request is None,
            d.reason@ == reason@,
    {
        Decision { request: None, reason }
    }

    fn act(request: MorphRequest, reason: String) -> (d: Decision)
        ensures
            request_of(d.request) == Some(request@),
            d.reason@ == reason@,
    {
        Decision { request: Some(request), reason }
    }
}

/// What is known about a stage of that name.
pub open spec fn signal_of(stages: Seq<NamedSignal>, name: Seq<char>) -> Option<StageSignal>
    decreases stages.len(),
{
    if stages.len() == 0 {
        None
    } else if stages[0].name@ == name {
        Some(stages[0].signal)
    } else {
        signal_of(stages.drop_first(), name)
    }
}

fn find_signal(stages: &Vec<NamedSignal>, name: &String) -> (s: Option<StageSignal>)
    ensures
        s == signal_of(stages@, name@),
{
    let mut i: usize = 0;
    assert(stages@.skip(0) =~= stages@);
    while i < stages.len()
        invariant
            i <= stages@.len(),
            signal_of(stages@, name@) == signal_of(stages@.skip(i as int), name@),
        decreases stages@.len() - i,
    {
        assert(stages@.skip(i as int)[0] == stages@[i as int]);
        assert(stages@.skip(i as int).drop_first() =~= stages@.skip(i + 1));
        if stages[i].name == *name {
            return Some(stages[i].signal);
        }
        i = i + 1;
    }
    None
}

/// What was measured of a pair: costs in half microseconds, and the events on
/// the edge over so many seconds.
#[derive(Clone, Copy, Debug, PartialEq, Eq, Structural)]
pub struct PairFacts {
    pub events: u128,
    pub seconds: u64,
    pub edge_p50: u64,
    pub edge_p99: u64,
    pub compute_p50: u64,
    pub compute_p99: u64,
}

/// The quantile of an edge over the last seconds.
pub open spec fn edge_quantile(
    stats: LiveStats,
    a: Seq<char>,
    b: Seq<char>,
    q: nat,
    window: nat,
) -> nat {
    if has_edge(stats.edges(), a, b) {
        quantile_half_us(
            merged_gaps(recent_seconds(stats.edges()[edge_place(stats.edges(), a, b)], window)),
            q,
        )
    } else {
        0
    }
}

/// The quantile of what a stage's own code costs over the last seconds.
pub open spec fn wasm_quantile(stats: LiveStats, s: Seq<char>, q: nat, window: nat) -> nat {
    if has_stage(stats.stages(), s) {
        quantile_half_us(
            merged_wasm(recent_stage_seconds(stats.stages()[stage_place(stats.stages(), s)], window)),
            q,
        )
    } else {
        0
    }
}

/// The quantile of a stage's overhead over the last seconds.
pub open spec fn overhead_quantile(stats: LiveStats, s: Seq<char>, q: nat, window: nat) -> nat {
    if has_stage(stats.stages(), s) {
        quantile_half_us(
            merged_overhead(
                recent_stage_seconds(stats.stages()[stage_place(stats.stages(), s)], window),
            ),
            q,
        )
    } else {
        0
    }
}

/// The events on an edge over the last seconds.
pub open spec fn edge_events(stats: LiveStats, a: Seq<char>, b: Seq<char>, window: nat) -> nat {
    if has_edge(stats.edges(), a, b) {
        sum_events(recent_seconds(stats.edges()[edge_place(stats.edges(), a, b)], window))
    } else {
        0
    }
}

/// The seconds that [`edge_events`] are over; one, where there are none.
pub open spec fn edge_seconds(stats: LiveStats, a: Seq<char>, b: Seq<char>, window: nat) -> nat {
    if has_edge(stats.edges(), a, b) {
        let n = min_nat(window, stats.edges()[edge_place(stats.edges(), a, b)].filled);
        if n == 0 {
            1
        } else {
            n
        }
    } else {
        1
    }
}

/// What the statistics say of a pair.
#[verifier::opaque]
pub open spec fn pair_facts(stats: LiveStats, a: Seq<char>, b: Seq<char>, window: nat) -> PairFacts {
    PairFacts {
        events: edge_events(stats, a, b, window) as u128,
        seconds: edge_seconds(stats, a, b, window) as u64,
        edge_p50: edge_quantile(stats, a, b, 500, window) as u64,
        edge_p99: edge_quantile(stats, a, b, 990, window) as u64,
        compute_p50: (wasm_quantile(stats, a, 500, window) + wasm_quantile(
            stats,
            b,
            500,
            window,
        )) as u64,
        compute_p99: (wasm_quantile(stats, a, 990, window) + wasm_quantile(
            stats,
            b,
            990,
            window,
        )) as u64,
    }
}

/// The facts are within what can be measured.
pub open spec fn facts_bounded(f: PairFacts) -> bool {
    &&& f.events <= 300 * u64::MAX
    &&& 1 <= f.seconds <= 300
    &&& f.edge_p50 < 0x400_0000
    &&& f.edge_p99 < 0x400_0000
    &&& f.compute_p50 < 0x800_0000
    &&& f.compute_p99 < 0x800_0000
}

fn measure(stats: &LiveStats, a: &String, b: &String, window: usize) -> (f: PairFacts)
    requires
        stats.wf(),
    ensures
        f == pair_facts(*stats, a@, b@, window as nat),
        facts_bounded(f),
{
    proof {
        reveal(pair_facts);
    }
    let rate = stats.edge_rate(a, b, window);
    let seconds: u64 = if rate.seconds == 0 {
        1
    } else {
        rate.seconds
    };
    PairFacts {
        events: rate.amount,
        seconds,
        edge_p50: stats.edge_p(a, b, 500, window),
        edge_p99: stats.edge_p(a, b, 990, window),
        compute_p50: stats.stage_wasm_p(a, 500, window) + stats.stage_wasm_p(b, 500, window),
        compute_p99: stats.stage_wasm_p(a, 990, window) + stats.stage_wasm_p(b, 990, window),
    }
}

/// What a pair is judged to be: fit to be fused, or the first of the rules it
/// fails.
#[derive(Clone, Copy, Debug, PartialEq, Eq, Structural)]
pub enum PairVerdict {
    Fuse,
    Illegal,
    NotLive,
    TooQuiet,
    ComputeBound,
    NotDominant,
    NoPressure,
    NoRoom,
    Noise,
}

/// The stage has all the replicas it may have, and may have some.
pub open spec fn at_max(s: StageSignal) -> bool {
    s.max > 0 && s.live >= s.max
}

/// More is queued than the stage's threshold.
pub open spec fn over_threshold(s: StageSignal) -> bool {
    s.queue_depth * 1000 > s.queue_up_milli
}

/// The queue grows, or it is deep and there is no replica left to add.
pub open spec fn under_pressure(s: StageSignal) -> bool {
    s.queue_depth > s.queue_depth_prev || (at_max(s) && over_threshold(s))
}

/// The instances that fusing two stages takes.
pub open spec fn instances_needed(sa: StageSignal, sb: StageSignal) -> nat {
    (2 * (sa.live + sb.live)) as nat
}

/// The rules, in the order they are asked.
pub open spec fn judged(
    cfg: ControllerCfg,
    illegal: bool,
    sa: Option<StageSignal>,
    sb: Option<StageSignal>,
    f: PairFacts,
    pool_free: nat,
) -> PairVerdict {
    if illegal {
        PairVerdict::Illegal
    } else if sa is None || sb is None {
        PairVerdict::NotLive
    } else if f.events * 1000 < cfg.min_rate_milli * f.seconds {
        PairVerdict::TooQuiet
    } else if at_max(sa->0) && at_max(sb->0) && f.compute_p50 > f.edge_p50 {
        PairVerdict::ComputeBound
    } else if f.edge_p50 * 1000 <= cfg.alpha_milli * f.compute_p50 {
        PairVerdict::NotDominant
    } else if !under_pressure(sb->0) {
        PairVerdict::NoPressure
    } else if pool_free < instances_needed(sa->0, sb->0) {
        PairVerdict::NoRoom
    } else if f.edge_p50 * 500 <= cfg.significance_floor_ns {
        PairVerdict::Noise
    } else {
        PairVerdict::Fuse
    }
}

fn is_at_max(s: &StageSignal) -> (b: bool)
    ensures
        b == at_max(*s),
{
    s.max > 0 && s.live >= s.max
}

fn is_over_threshold(s: &StageSignal) -> (b: bool)
    ensures
        b == over_threshold(*s),
{
    s.queue_depth as i128 * 1000 > s.queue_up_milli as i128
}

fn judge(
    cfg: &ControllerCfg,
    illegal: bool,
    sa: Option<StageSignal>,
    sb: Option<StageSignal>,
    f: &PairFacts,
    pool_free: usize,
) -> (v: PairVerdict)
    requires
        facts_bounded(*f),
    ensures
        v == judged(*cfg, illegal, sa, sb, *f, pool_free as nat),
{
    if illegal {
        return PairVerdict::Illegal;
    }
    let (sa, sb) = match (sa, sb) {
        (Some(sa), Some(sb)) => (sa, sb),
        _ => {
            return PairVerdict::NotLive;
        },
    };
    proof {
        assert(cfg.min_rate_milli * f.seconds <= u64::MAX * 300) by (nonlinear_arith)
            requires
                cfg.min_rate_milli <= u64::MAX,
                f.seconds <= 300,
        ;
        assert(cfg.alpha_milli * f.compute_p50 <= u64::MAX * 0x800_0000) by (nonlinear_arith)
            requires
                cfg.alpha_milli <= u64::MAX,
                f.compute_p50 < 0x800_0000,
        ;
    }
    if f.events * 1000 < cfg.min_rate_milli as u128 * f.seconds as u128 {
        PairVerdict::TooQuiet
    } else if is_at_max(&sa) && is_at_max(&sb) && f.compute_p50 > f.edge_p50 {
        PairVerdict::ComputeBound
    } else if f.edge_p50 as u128 * 1000 <= cfg.alpha_milli as u128 * f.compute_p50 as u128 {
        PairVerdict::NotDominant
    } else if !(sb.queue_depth > sb.queue_depth_prev || (is_at_max(&sb) && is_over_threshold(
        &sb,
    ))) {
        PairVerdict::NoPressure
    } else if (pool_free as u128) < 2 * (sa.live as u128 + sb.live as u128) {
        PairVerdict::NoRoom
    } else if f.edge_p50 * 500 <= cfg.significance_floor_ns {
        PairVerdict::Noise
    } else {
        PairVerdict::Fuse
    }
}

/// A cost in half microseconds, as whole microseconds.
pub open spec fn us(half_us: u64) -> Seq<char> {
    decimal(rounded(half_us as nat, 2))
}

fn us_text(half_us: u64) -> (out: String)
    ensures
        out@ == us(half_us),
{
    whole_text(half_us as u128, 2)
}

/// The verdict in words.
pub open spec fn verdict_text(
    v: PairVerdict,
    cfg: ControllerCfg,
    a: Seq<char>,
    b: Seq<char>,
    illegal: Seq<char>,
    sa: StageSignal,
    sb: StageSignal,
    f: PairFacts,
    pool_free: nat,
) -> Seq<char> {
    match v {
        PairVerdict::Illegal => flat(seq![a, "->"@, b, ": illegal ("@, illegal, ")"@]),
        PairVerdict::NotLive => flat(
            seq![a, "->"@, b, ": not both live (already fused, or not started)"@],
        ),
        PairVerdict::TooQuiet => flat(
            seq![
                a,
                "->"@,
                b,
                ": "@,
                decimal(rounded(f.events as nat, f.seconds as nat)),
                " ev/s is below the "@,
                decimal(rounded(cfg.min_rate_milli as nat, 1000)),
                " ev/s floor"@,
            ],
        ),
        PairVerdict::ComputeBound => flat(
            seq![
                a,
                "->"@,
                b,
                ": compute-bound at max replicas (wasm p50 "@,
                us(f.compute_p50),
                "us > edge p50 "@,
                us(f.edge_p50),
                "us; p99s "@,
                us(f.compute_p99),
                "us vs "@,
                us(f.edge_p99),
                "us) — fusion deletes an edge that is not the problem; the remedy is replicas or nothing"@,
            ],
        ),
        PairVerdict::NotDominant => flat(
            seq![
                a,
                "->"@,
                b,
                ": edge p50 "@,
                us(f.edge_p50),
                "us <= alpha "@,
                hundredths(cfg.alpha_milli as nat, 1000),
                " x compute p50 "@,
                us(f.compute_p50),
                "us (p99s "@,
                us(f.edge_p99),
                "us vs "@,
                us(f.compute_p99),
                "us)"@,
            ],
        ),
        PairVerdict::NoPressure => flat(
            seq![
                a,
                "->"@,
                b,
                ": no pressure on "@,
                b,
                " (queue "@,
                decimal(sb.queue_depth_prev as nat),
                " -> "@,
                decimal(sb.queue_depth as nat),
                ", live "@,
                decimal(sb.live as nat),
                "/"@,
                decimal(sb.max as nat),
                ")"@,
            ],
        ),
        PairVerdict::NoRoom => flat(
            seq![
                a,
                "->"@,
                b,
                ": pool has "@,
                decimal(pool_free),
                " free, needs "@,
                decimal(instances_needed(sa, sb)),
                " (2 x (live "@,
                decimal(sa.live as nat),
                " + live "@,
                decimal(sb.live as nat),
                "))"@,
            ],
        ),
        PairVerdict::Noise => flat(
            seq![
                a,
                "->"@,
                b,
                ": projected gain "@,
                tenths(f.edge_p50 as nat, 2),
                "us is below the calibrated significance floor "@,
                tenths(cfg.significance_floor_ns as nat, 1000),
                "us — refusing to act on noise"@,
            ],
        ),
        PairVerdict::Fuse => flat(
            seq![
                "fuse "@,
                a,
                "->"@,
                b,
                ": edge p50 "@,
                us(f.edge_p50),
                "us > "@,
                hundredths(cfg.alpha_milli as nat, 1000),
                " x compute p50 "@,
                us(f.compute_p50),
                "us (p99s "@,
                us(f.edge_p99),
                "us vs "@,
                us(f.compute_p99),
                "us), gain "@,
                tenths(f.edge_p50 as nat, 2),
                "us/ev at "@,
                decimal(rounded(f.events as nat, f.seconds as nat)),
                " ev/s (score "@,
                decimal(rounded((f.edge_p50 * f.events) as nat, (2 * f.seconds) as nat)),
                "us/s), queue "@,
                decimal(sb.queue_depth_prev as nat),
                " -> "@,
                decimal(sb.queue_depth as nat),
                " on "@,
                b,
                ", pool "@,
                decimal(pool_free),
                " free of "@,
                decimal(instances_needed(sa, sb)),
                " needed"@,
            ],
        ),
    }
}

fn verdict_words(
    v: PairVerdict,
    cfg: &ControllerCfg,
    a: &str,
    b: &str,
    illegal: &str,
    sa: &StageSignal,
    sb: &StageSignal,
    f: &PairFacts,
    pool_free: usize,
) -> (out: String)
    requires
        facts_bounded(*f),
    ensures
        out@ == verdict_text(v, *cfg, a@, b@, illegal@, *sa, *sb, *f, pool_free as nat),
{
    match v {
        PairVerdict::Illegal => {
            let parts = vec![a, "->", b, ": illegal (", illegal, ")"];
            assert(views(parts@) =~= seq![a@, "->"@, b@, ": illegal ("@, illegal@, ")"@]);
            concat(&parts)
        },
        PairVerdict::NotLive => {
            let parts = vec![a, "->", b, ": not both live (already fused, or not started)"];
            assert(views(parts@) =~= seq![
                a@,
                "->"@,
                b@,
                ": not both live (already fused, or not started)"@,
            ]);
            concat(&parts)
        },
        PairVerdict::TooQuiet => {
            let rate = whole_text(f.events, f.seconds as u128);
            let floor = whole_text(cfg.min_rate_milli as u128, 1000);
            let parts = vec![
                a,
                "->",
                b,
                ": ",
                rate.as_str(),
                " ev/s is below the ",
                floor.as_str(),
                " ev/s floor",
            ];
            assert(views(parts@) =~= seq![
                a@,
                "->"@,
                b@,
                ": "@,
                rate@,
                " ev/s is below the "@,
                floor@,
                " ev/s floor"@,
            ]);
            concat(&parts)
        },
        PairVerdict::ComputeBound => {
            let c50 = us_text(f.compute_p50);
            let e50 = us_text(f.edge_p50);
            let c99 = us_text(f.compute_p99);
            let e99 = us_text(f.edge_p99);
            let parts = vec![
                a,
                "->",
                b,
                ": compute-bound at max replicas (wasm p50 ",
                c50.as_str(),
                "us > edge p50 ",
                e50.as_str(),
                "us; p99s ",
                c99.as_str(),
                "us vs ",
                e99.as_str(),
                "us) — fusion deletes an edge that is not the problem; the remedy is replicas or nothing",
            ];
            assert(views(parts@) =~= seq![
                a@,
                "->"@,
                b@,
                ": compute-bound at max replicas (wasm p50 "@,
                c50@,
                "us > edge p50 "@,
                e50@,
                "us; p99s "@,
                c99@,
                "us vs "@,
                e99@,
                "us) — fusion deletes an edge that is not the problem; the remedy is replicas or nothing"@,
            ]);
            concat(&parts)
        },
        PairVerdict::NotDominant => {
            let c50 = us_text(f.compute_p50);
            let e50 = us_text(f.edge_p50);
            let c99 = us_text(f.compute_p99);
            let e99 = us_text(f.edge_p99);
            let alpha = hundredths_text(cfg.alpha_milli as u128, 1000);
            let parts = vec![
                a,
                "->",
                b,
                ": edge p50 ",
                e50.as_str(),
                "us <= alpha ",
                alpha.as_str(),
                " x compute p50 ",
                c50.as_str(),
                "us (p99s ",
                e99.as_str(),
                "us vs ",
                c99.as_str(),
                "us)",
            ];
            assert(views(parts@) =~= seq![
                a@,
                "->"@,
                b@,
                ": edge p50 "@,
                e50@,
                "us <= alpha "@,
                alpha@,
                " x compute p50 "@,
                c50@,
                "us (p99s "@,
                e99@,
                "us vs "@,
                c99@,
                "us)"@,
            ]);
            concat(&parts)
        },
        PairVerdict::NoPressure => {
            let before = decimal_text(sb.queue_depth_prev as u128);
            let now = decimal_text(sb.queue_depth as u128);
            let live = decimal_text(sb.live as u128);
            let max = decimal_text(sb.max as u128);
            let parts = vec![
                a,
                "->",
                b,
                ": no pressure on ",
                b,
                " (queue ",
                before.as_str(),
                " -> ",
                now.as_str(),
                ", live ",
                live.as_str(),
                "/",
                max.as_str(),
                ")",
            ];
            assert(views(parts@) =~= seq![
                a@,
                "->"@,
                b@,
                ": no pressure on "@,
                b@,
                " (queue "@,
                before@,
                " -> "@,
                now@,
                ", live "@,
                live@,
                "/"@,
                max@,
                ")"@,
            ]);
            concat(&parts)
        },
        PairVerdict::NoRoom => {
            let free = decimal_text(pool_free as u128);
            let need = decimal_text(2 * (sa.live as u128 + sb.live as u128));
            let la = decimal_text(sa.live as u128);
            let lb = decimal_text(sb.live as u128);
            let parts = vec![
                a,
                "->",
                b,
                ": pool has ",
                free.as_str(),
                " free, needs ",
                need.as_str(),
                " (2 x (live ",
                la.as_str(),
                " + live ",
                lb.as_str(),
                "))",
            ];
            assert(views(parts@) =~= seq![
                a@,
                "->"@,
                b@,
                ": pool has "@,
                free@,
                " free, needs "@,
                need@,
                " (2 x (live "@,
                la@,
                " + live "@,
                lb@,
                "))"@,
            ]);
            concat(&parts)
        },
        PairVerdict::Noise => {
            let gain = tenths_text(f.edge_p50 as u128, 2);
            let floor = tenths_text(cfg.significance_floor_ns as u128, 1000);
            let parts = vec![
                a,
                "->",
                b,
                ": projected gain ",
                gain.as_str(),
                "us is below the calibrated significance floor ",
                floor.as_str(),
                "us — refusing to act on noise",
            ];
            assert(views(parts@) =~= seq![
                a@,
                "->"@,
                b@,
                ": projected gain "@,
                gain@,
                "us is below the calibrated significance floor "@,
                floor@,
                "us — refusing to act on noise"@,
            ]);
            concat(&parts)
        },
        PairVerdict::Fuse => {
            proof {
                assert(f.edge_p50 * f.events <= 0x400_0000 * (300 * u64::MAX)) by (nonlinear_arith)
                    requires
                        f.edge_p50 < 0x400_0000,
                        f.events <= 300 * u64::MAX,
                ;
            }
            let c50 = us_text(f.compute_p50);
            let e50 = us_text(f.edge_p50);
            let c99 = us_text(f.compute_p99);
            let e99 = us_text(f.edge_p99);
            let alpha = hundredths_text(cfg.alpha_milli as u128, 1000);
            let gain = tenths_text(f.edge_p50 as u128, 2);
            let rate = whole_text(f.events, f.seconds as u128);
            let score = whole_text(f.edge_p50 as u128 * f.events, 2 * f.seconds as u128);
            let before = decimal_text(sb.queue_depth_prev as u128);
            let now = decimal_text(sb.queue_depth as u128);
            let free = decimal_text(pool_free as u128);
            let need = decimal_text(2 * (sa.live as u128 + sb.live as u128));
            let parts = vec![
                "fuse ",
                a,
                "->",
                b,
                ": edge p50 ",
                e50.as_str(),
                "us > ",
                alpha.as_str(),
                " x compute p50 ",
                c50.as_str(),
                "us (p99s ",
                e99.as_str(),
                "us vs ",
                c99.as_str(),
                "us), gain ",
                gain.as_str(),
                "us/ev at ",
                rate.as_str(),
                " ev/s (score ",
                score.as_str(),
                "us/s), queue ",
                before.as_str(),
                " -> ",
                now.as_str(),
                " on ",
                b,
                ", pool ",
                free.as_str(),
                " free of ",
                need.as_str(),
                " needed",
            ];
            assert(views(parts@) =~= seq![
                "fuse "@,
                a@,
                "->"@,
                b@,
                ": edge p50 "@,
                e50@,
                "us > "@,
                alpha@,
                " x compute p50 "@,
                c50@,
                "us (p99s "@,
                e99@,
                "us vs "@,
                c99@,
                "us), gain "@,
                gain@,
                "us/ev at "@,
                rate@,
                " ev/s (score "@,
                score@,
                "us/s), queue "@,
                before@,
                " -> "@,
                now@,
                " on "@,
                b@,
                ", pool "@,
                free@,
                " free of "@,
                need@,
                " needed"@,
            ]);
            concat(&parts)
        },
    }
}

/// The text of an optional string, empty where there is none.
pub open spec fn text_or_empty(s: Option<String>) -> Seq<char> {
    match s {
        None => Seq::empty(),
        Some(t) => t@,
    }
}

/// A stage of which nothing is known.
pub open spec fn no_signal() -> StageSignal {
    StageSignal { live: 0, max: 0, queue_depth: 0, queue_depth_prev: 0, queue_up_milli: 0 }
}

/// What is known about a stage, if anything.
pub open spec fn signal_or_none(s: Option<StageSignal>) -> StageSignal {
    match s {
        None => no_signal(),
        Some(x) => x,
    }
}

/// What a pair is judged to be under the signals.
#[verifier::opaque]
pub open spec fn pair_verdict(sig: Signals, cfg: ControllerCfg, p: PairSignal) -> PairVerdict {
    judged(
        cfg,
        p.illegal_reason is Some,
        signal_of(sig.stages@, p.a@),
        signal_of(sig.stages@, p.b@),
        pair_facts(*sig.stats, p.a@, p.b@, cfg.window_s as nat),
        sig.pool_free as nat,
    )
}

/// The judgement of a pair in words.
#[verifier::opaque]
pub open spec fn pair_text(sig: Signals, cfg: ControllerCfg, p: PairSignal) -> Seq<char> {
    verdict_text(
        pair_verdict(sig, cfg, p),
        cfg,
        p.a@,
        p.b@,
        text_or_empty(p.illegal_reason),
        signal_or_none(signal_of(sig.stages@, p.a@)),
        signal_or_none(signal_of(sig.stages@, p.b@)),
        pair_facts(*sig.stats, p.a@, p.b@, cfg.window_s as nat),
        sig.pool_free as nat,
    )
}

/// Fusing a pair takes more transport time away per second than fusing another.
#[verifier::opaque]
pub open spec fn beats(f: PairFacts, g: PairFacts) -> bool {
    (f.edge_p50 * f.events) * g.seconds > (g.edge_p50 * g.events) * f.seconds
}

/// Judges one pair.
fn consider_fuse(sig: &Signals, cfg: &ControllerCfg, pair: &PairSignal) -> (r: (
    PairVerdict,
    PairFacts,
    String,
))
    requires
        sig.stats.wf(),
    ensures
        r.0 == pair_verdict(*sig, *cfg, *pair),
        r.1 == pair_facts(*sig.stats, pair.a@, pair.b@, cfg.window_s as nat),
        facts_bounded(r.1),
        r.2@ == pair_text(*sig, *cfg, *pair),
{
    proof {
        reveal(pair_verdict);
        reveal(pair_text);
    }
    let sa = find_signal(sig.stages, &pair.a);
    let sb = find_signal(sig.stages, &pair.b);
    let f = measure(sig.stats, &pair.a, &pair.b, cfg.window_s);
    let v = judge(cfg, pair.illegal_reason.is_some(), sa, sb, &f, sig.pool_free);
    let nothing = StageSignal {
        live: 0,
        max: 0,
        queue_depth: 0,
        queue_depth_prev: 0,
        queue_up_milli: 0,
    };
    let empty = String::new();
    let illegal: &str = match &pair.illegal_reason {
        None => empty.as_str(),
        Some(t) => t.as_str(),
    };
    assert(illegal@ =~= text_or_empty(pair.illegal_reason));
    let words = verdict_words(
        v,
        cfg,
        pair.a.as_str(),
        pair.b.as_str(),
        illegal,
        &(match sa {
            None => nothing,
            Some(x) => x,
        }),
        &(match sb {
            None => nothing,
            Some(x) => x,
        }),
        &f,
        sig.pool_free,
    );
    (v, f, words)
}

/// A fusion of this controller's that is to be undone: it is old enough, has
/// all its replicas, its own code costs more than everything else, and its
/// queue is over the threshold.
pub open spec fn to_be_split(sig: Signals, cfg: ControllerCfg, f: FusedSignal) -> bool {
    match signal_of(sig.stages@, f.name@) {
        None => false,
        Some(s) => {
            &&& f.age_ms > cfg.cooldown_split_ms
            &&& at_max(s)
            &&& wasm_quantile(*sig.stats, f.name@, 990, cfg.window_s as nat) > overhead_quantile(
                *sig.stats,
                f.name@,
                990,
                cfg.window_s as nat,
            )
            &&& over_threshold(s)
        },
    }
}

/// Why a fusion is undone, in words.
pub open spec fn split_text(sig: Signals, cfg: ControllerCfg, f: FusedSignal) -> Seq<char> {
    let s = signal_or_none(signal_of(sig.stages@, f.name@));
    flat(
        seq![
            "split "@,
            f.name@,
            " (restoring "@,
            f.a@,
            " -> "@,
            f.b@,
            "): compute-bound at max replicas ("@,
            decimal(s.live as nat),
            "/"@,
            decimal(s.max as nat),
            ") after "@,
            decimal(rounded(f.age_ms as nat, 1000)),
            "s — wasm p99 "@,
            us(wasm_quantile(*sig.stats, f.name@, 990, cfg.window_s as nat) as u64),
            "us > overhead p99 "@,
            us(overhead_quantile(*sig.stats, f.name@, 990, cfg.window_s as nat) as u64),
            "us with queue "@,
            decimal(s.queue_depth as nat),
            " over threshold "@,
            signed_whole(s.queue_up_milli as int),
            "; the contraction is no longer what limits it"@,
        ],
    )
}

/// Fusion `i` is the first that is to be undone.
pub open spec fn is_first_split(sig: Signals, cfg: ControllerCfg, i: int) -> bool {
    &&& 0 <= i < sig.fused@.len()
    &&& to_be_split(sig, cfg, sig.fused@[i])
    &&& forall|j: int| 0 <= j < i ==> !to_be_split(sig, cfg, #[trigger] sig.fused@[j])
}

/// Some fusion is to be undone.
pub open spec fn some_split(sig: Signals, cfg: ControllerCfg) -> bool {
    exists|i: int| 0 <= i < sig.fused@.len() && to_be_split(sig, cfg, #[trigger] sig.fused@[i])
}

/// The first fusion that is to be undone, if there is one, and why.
fn consider_split(sig: &Signals, cfg: &ControllerCfg) -> (d: Option<Decision>)
    requires
        sig.stats.wf(),
    ensures
        d is Some <==> some_split(*sig, *cfg),
        d matches Some(x) ==> {
            let i = choose|i: int| is_first_split(*sig, *cfg, i);
            &&& is_first_split(*sig, *cfg, i)
            &&& request_of(x.request) == Some(MorphModel::Split { fused: sig.fused@[i].name@ })
            &&& x.reason@ == split_text(*sig, *cfg, sig.fused@[i])
        },
{
    let mut i: usize = 0;
    while i < sig.fused.len()
        invariant
            i <= sig.fused@.len(),
            sig.stats.wf(),
            forall|j: int| 0 <= j < i ==> !to_be_split(*sig, *cfg, #[trigger] sig.fused@[j]),
        decreases sig.fused@.len() - i,
    {
        let f = &sig.fused[i];
        match find_signal(sig.stages, &f.name) {
            None => {},
            Some(s) => {
                let wasm: u64 = sig.stats.stage_wasm_p(&f.name, 990, cfg.window_s);
                let overhead: u64 = sig.stats.stage_overhead_p(&f.name, 990, cfg.window_s);
                if f.age_ms > cfg.cooldown_split_ms && is_at_max(&s) && wasm > overhead
                    && is_over_threshold(&s) {
                    let live = decimal_text(s.live as u128);
                    let max = decimal_text(s.max as u128);
                    let age = whole_text(f.age_ms as u128, 1000);
                    let w = us_text(wasm);
                    let o = us_text(overhead);
                    let depth = decimal_text(s.queue_depth as u128);
                    let up = signed_whole_text(s.queue_up_milli);
                    let parts = vec![
                        "split ",
                        f.name.as_str(),
                        " (restoring ",
                        f.a.as_str(),
                        " -> ",
                        f.b.as_str(),
                        "): compute-bound at max replicas (",
                        live.as_str(),
                        "/",
                        max.as_str(),
                        ") after ",
                        age.as_str(),
                        "s — wasm p99 ",
                        w.as_str(),
                        "us > overhead p99 ",
                        o.as_str(),
                        "us with queue ",
                        depth.as_str(),
                        " over threshold ",
                        up.as_str(),
                        "; the contraction is no longer what limits it",
                    ];
                    assert(views(parts@) =~= seq![
                        "split "@,
                        f.name@,
                        " (restoring "@,
                        f.a@,
                        " -> "@,
                        f.b@,
                        "): compute-bound at max replicas ("@,
                        live@,
                        "/"@,
                        max@,
                        ") after "@,
                        age@,
                        "s — wasm p99 "@,
                        w@,
                        "us > overhead p99 "@,
                        o@,
                        "us with queue "@,
                        depth@,
                        " over threshold "@,
                        up@,
                        "; the contraction is no longer what limits it"@,
                    ]);
                    proof {
                        assert(is_first_split(*sig, *cfg, i as int));
                        let c = choose|c: int| is_first_split(*sig, *cfg, c);
                        assert(is_first_split(*sig, *cfg, c));
                        assert(to_be_split(*sig, *cfg, sig.fused@[c]));
                        assert(to_be_split(*sig, *cfg, sig.fused@[i as int]));
                        assert(c == i);
                    }
                    return Some(
                        Decision::act(
                            MorphRequest::Split { fused: f.name.clone() },
                            concat(&parts),
                        ),
                    );
                }
            },
        }
        i = i + 1;
    }
    None
}

/// The facts of the `i`-th pair.
pub open spec fn facts_at(sig: Signals, cfg: ControllerCfg, i: int) -> PairFacts {
    pair_facts(*sig.stats, sig.pairs@[i].a@, sig.pairs@[i].b@, cfg.window_s as nat)
}

/// Among the first `n` pairs, pair `i` is the first of those that are fit to be
/// fused and take the most transport time away.
pub open spec fn is_best(sig: Signals, cfg: ControllerCfg, n: int, i: int) -> bool {
    &&& 0 <= i < n
    &&& pair_verdict(sig, cfg, sig.pairs@[i]) == PairVerdict::Fuse
    &&& forall|j: int|
        0 <= j < n && pair_verdict(sig, cfg, #[trigger] sig.pairs@[j]) == PairVerdict::Fuse && j
            != i ==> {
            &&& !beats(facts_at(sig, cfg, j), facts_at(sig, cfg, i))
            &&& j < i ==> beats(facts_at(sig, cfg, i), facts_at(sig, cfg, j))
        }
}

/// Some pair is fit to be fused.
pub open spec fn some_fuse(sig: Signals, cfg: ControllerCfg) -> bool {
    exists|i: int|
        0 <= i < sig.pairs@.len() && pair_verdict(sig, cfg, #[trigger] sig.pairs@[i])
            == PairVerdict::Fuse
}

/// How old the statistics are, in nanoseconds.
pub open spec fn stats_age_ns(sig: Signals) -> int {
    sig.now_ns - sig.stats.t_ns
}

/// The statistics are too old to act on.
pub open spec fn is_stale(sig: Signals, cfg: ControllerCfg) -> bool {
    stats_age_ns(sig) > cfg.max_stats_age_ms * 1_000_000
}

/// The judgements of all pairs in words.
pub open spec fn refusals(sig: Signals, cfg: ControllerCfg) -> Seq<Seq<char>> {
    sig.pairs@.map_values(|p: PairSignal| pair_text(sig, cfg, p))
}

/// What to do under the signals, and why.
pub open spec fn decided(sig: Signals, cfg: ControllerCfg) -> (Option<MorphModel>, Seq<char>) {
    if !cfg.enabled {
        (None, "controller disabled"@)
    } else if is_stale(sig, cfg) {
        (
            None,
            flat(
                seq![
                    "stats are "@,
                    tenths(stats_age_ns(sig) as nat, 1_000_000_000),
                    "s old (max "@,
                    tenths(cfg.max_stats_age_ms as nat, 1000),
                    "s) — the pipeline is idle or the collector is blocked; not acting on a stale view"@,
                ],
            ),
        )
    } else if some_split(sig, cfg) {
        let i = choose|i: int| is_first_split(sig, cfg, i);
        (
            Some(MorphModel::Split { fused: sig.fused@[i].name@ }),
            split_text(sig, cfg, sig.fused@[i]),
        )
    } else if sig.since_last_morph_ms <= cfg.cooldown_fuse_ms {
        (
            None,
            flat(
                seq![
                    "hysteresis: "@,
                    tenths(sig.since_last_morph_ms as nat, 1000),
                    "s since the last morph, cooldown is "@,
                    tenths(cfg.cooldown_fuse_ms as nat, 1000),
                    "s"@,
                ],
            ),
        )
    } else if some_fuse(sig, cfg) {
        let i = choose|i: int| is_best(sig, cfg, sig.pairs@.len() as int, i);
        (
            Some(MorphModel::Fuse { a: sig.pairs@[i].a@, b: sig.pairs@[i].b@ }),
            pair_text(sig, cfg, sig.pairs@[i]),
        )
    } else if sig.pairs@.len() == 0 {
        (None, "no fusible pairs declared"@)
    } else {
        (None, joined(refusals(sig, cfg), "; "@))
    }
}

pub(crate) proof fn lemma_beats_chain(k: PairFacts, i: PairFacts, j: PairFacts)
    requires
        k.seconds > 0,
        i.seconds > 0,
        j.seconds > 0,
        beats(k, i),
        !beats(j, i),
    ensures
        beats(k, j),
        !beats(j, k),
{
    reveal(beats);
    let xk = k.edge_p50 * k.events;
    let xi = i.edge_p50 * i.events;
    let xj = j.edge_p50 * j.events;
    let sk = k.seconds as int;
    let si = i.seconds as int;
    let sj = j.seconds as int;
    assert((xk * sj) * si > (xj * sk) * si) by (nonlinear_arith)
        requires
            xk * si > xi * sk,
            xj * si <= xi * sj,
            sk > 0,
            si > 0,
            sj > 0,
    {
        assert((xk * si) * sj > (xi * sk) * sj);
        assert((xj * si) * sk <= (xi * sj) * sk);
        assert((xk * si) * sj == (xk * sj) * si);
        assert((xj * si) * sk == (xj * sk) * si);
        assert((xi * sk) * sj == (xi * sj) * sk);
    }
    assert(xk * sj > xj * sk) by (nonlinear_arith)
        requires
            (xk * sj) * si > (xj * sk) * si,
            si > 0,
    ;
}

proof fn lemma_best_is_unique(sig: Signals, cfg: ControllerCfg, n: int, a: int, b: int)
    requires
        n <= sig.pairs@.len(),
        is_best(sig, cfg, n, a),
        is_best(sig, cfg, n, b),
    ensures
        a == b,
{
    if a != b {
        assert(pair_verdict(sig, cfg, sig.pairs@[a]) == PairVerdict::Fuse);
        assert(pair_verdict(sig, cfg, sig.pairs@[b]) == PairVerdict::Fuse);
        if a < b {
            assert(beats(facts_at(sig, cfg, b), facts_at(sig, cfg, a)));
        } else {
            assert(beats(facts_at(sig, cfg, a), facts_at(sig, cfg, b)));
        }
    }
}

fn does_beat(f: &PairFacts, g: &PairFacts) -> (b: bool)
    requires
        facts_bounded(*f),
        facts_bounded(*g),
    ensures
        b == beats(*f, *g),
{
    proof {
        reveal(beats);
        let cap: int = 0x400_0000int * (300int * u64::MAX as int);
        assert(f.edge_p50 * f.events <= cap) by (nonlinear_arith)
            requires
                f.edge_p50 < 0x400_0000,
                f.events <= 300 * u64::MAX,
                cap == 0x400_0000int * (300int * u64::MAX as int),
        ;
        assert(g.edge_p50 * g.events <= cap) by (nonlinear_arith)
            requires
                g.edge_p50 < 0x400_0000,
                g.events <= 300 * u64::MAX,
                cap == 0x400_0000int * (300int * u64::MAX as int),
        ;
        assert((f.edge_p50 * f.events) * g.seconds <= cap * 300) by (nonlinear_arith)
            requires
                0 <= f.edge_p50 * f.events <= cap,
                g.seconds <= 300,
        ;
        assert((g.edge_p50 * g.events) * f.seconds <= cap * 300) by (nonlinear_arith)
            requires
                0 <= g.edge_p50 * g.events <= cap,
                f.seconds <= 300,
        ;
    }
    let x: u128 = f.edge_p50 as u128 * f.events;
    let y: u128 = g.edge_p50 as u128 * g.events;
    x * g.seconds as u128 > y * f.seconds as u128
}

/// The whole policy. It reads nothing but its arguments.
#[verifier::spinoff_prover]
pub fn decide(sig: &Signals, cfg: &ControllerCfg) -> (d: Decision)
    requires
        sig.stats.wf(),
    ensures
        request_of(d.request) == decided(*sig, *cfg).0,
        d.reason@ == decided(*sig, *cfg).1,
{
    if !cfg.enabled {
        return Decision::hold("controller disabled".to_owned());
    }
    if sig.now_ns > sig.stats.t_ns && (sig.now_ns - sig.stats.t_ns) as u128
        > cfg.max_stats_age_ms as u128 * 1_000_000 {
        let age = tenths_text((sig.now_ns - sig.stats.t_ns) as u128, 1_000_000_000);
        let max = tenths_text(cfg.max_stats_age_ms as u128, 1000);
        let parts = vec![
            "stats are ",
            age.as_str(),
            "s old (max ",
            max.as_str(),
            "s) — the pipeline is idle or the collector is blocked; not acting on a stale view",
        ];
        assert(views(parts@) =~= seq![
            "stats are "@,
            age@,
            "s old (max "@,
            max@,
            "s) — the pipeline is idle or the collector is blocked; not acting on a stale view"@,
        ]);
        return Decision::hold(concat(&parts));
    }
    assert(!is_stale(*sig, *cfg));
    match consider_split(sig, cfg) {
        Some(d) => {
            return d;
        },
        None => {},
    }
    if sig.since_last_morph_ms <= cfg.cooldown_fuse_ms {
        let since = tenths_text(sig.since_last_morph_ms as u128, 1000);
        let cooldown = tenths_text(cfg.cooldown_fuse_ms as u128, 1000);
        let parts = vec![
            "hysteresis: ",
            since.as_str(),
            "s since the last morph, cooldown is ",
            cooldown.as_str(),
            "s",
        ];
        assert(views(parts@) =~= seq![
            "hysteresis: "@,
            since@,
            "s since the last morph, cooldown is "@,
            cooldown@,
            "s"@,
        ]);
        return Decision::hold(concat(&parts));
    }
    let mut best: Option<(usize, PairFacts, String)> = None;
    let mut reasons: Vec<String> = Vec::new();
    let n: usize = sig.pairs.len();
    let mut k: usize = 0;
    while k < n
        invariant
            k <= n == sig.pairs@.len(),
            sig.stats.wf(),
            best is None ==> forall|j: int|
                0 <= j < k ==> pair_verdict(*sig, *cfg, #[trigger] sig.pairs@[j])
                    != PairVerdict::Fuse,
            best is None ==> owned_views(reasons@) =~= refusals(*sig, *cfg).take(k as int),
            best matches Some((i, f, why)) ==> {
                &&& is_best(*sig, *cfg, k as int, i as int)
                &&& f == facts_at(*sig, *cfg, i as int)
                &&& facts_bounded(f)
                &&& why@ == pair_text(*sig, *cfg, sig.pairs@[i as int])
            },
            forall|j: int|
                0 <= j < k ==> facts_bounded(#[trigger] facts_at(*sig, *cfg, j)),
        decreases n - k,
    {
        let (v, f, why) = consider_fuse(sig, cfg, &sig.pairs[k]);
        assert(f == facts_at(*sig, *cfg, k as int));
        let fits = match v {
            PairVerdict::Fuse => true,
            _ => false,
        };
        if fits {
            let wins = match &best {
                None => true,
                Some((_, g, _)) => does_beat(&f, g),
            };
            if wins {
                proof {
                    if best is Some {
                        let i = (best->0).0 as int;
                        assert(pair_verdict(*sig, *cfg, sig.pairs@[i]) == PairVerdict::Fuse);
                        assert forall|j: int|
                            0 <= j < k + 1 && pair_verdict(*sig, *cfg, #[trigger] sig.pairs@[j])
                                == PairVerdict::Fuse && j != k implies {
                            &&& !beats(facts_at(*sig, *cfg, j), facts_at(*sig, *cfg, k as int))
                            &&& j < k ==> beats(
                                facts_at(*sig, *cfg, k as int),
                                facts_at(*sig, *cfg, j),
                            )
                        } by {
                            assert(facts_bounded(facts_at(*sig, *cfg, j)));
                            if j != i {
                                lemma_beats_chain(
                                    f,
                                    facts_at(*sig, *cfg, i),
                                    facts_at(*sig, *cfg, j),
                                );
                            } else {
                                reveal(beats);
                            }
                        }
                    }
                    assert(is_best(*sig, *cfg, k + 1, k as int));
                }
                best = Some((k, f, why));
            } else {
                proof {
                    let i = (best->0).0 as int;
                    assert forall|j: int|
                        0 <= j < k + 1 && pair_verdict(*sig, *cfg, #[trigger] sig.pairs@[j])
                            == PairVerdict::Fuse && j != i implies {
                        &&& !beats(facts_at(*sig, *cfg, j), facts_at(*sig, *cfg, i))
                        &&& j < i ==> beats(facts_at(*sig, *cfg, i), facts_at(*sig, *cfg, j))
                    } by {}
                    assert(is_best(*sig, *cfg, k + 1, i));
                }
            }
        } else {
            proof {
                assert(refusals(*sig, *cfg).take(k + 1) =~= refusals(*sig, *cfg).take(
                    k as int,
                ).push(why@));
                if best is Some {
                    assert(is_best(*sig, *cfg, k + 1, (best->0).0 as int));
                }
            }
            let ghost was = reasons@;
            reasons.push(why);
            assert(owned_views(reasons@) =~= owned_views(was).push(why@));
        }
        k = k + 1;
    }
    match best {
        Some((i, _, why)) => {
            proof {
                assert(pair_verdict(*sig, *cfg, sig.pairs@[i as int]) == PairVerdict::Fuse);
                let c = choose|c: int| is_best(*sig, *cfg, sig.pairs@.len() as int, c);
                lemma_best_is_unique(*sig, *cfg, n as int, i as int, c);
            }
            let a = sig.pairs[i].a.clone();
            let b = sig.pairs[i].b.clone();
            Decision::act(MorphRequest::Fuse { a, b }, why)
        },
        None => {
            assert(refusals(*sig, *cfg).take(n as int) =~= refusals(*sig, *cfg));
            if reasons.len() == 0 {
                assert(owned_views(reasons@).len() == 0);
                Decision::hold("no fusible pairs declared".to_owned())
            } else {
                assert(owned_views(reasons@).len() > 0);
                Decision::hold(join(&reasons, "; "))
            }
        },
    }
}

/// Law: the controller of a pipeline that did not ask for one proposes nothing.
pub proof fn law_disabled_proposes_nothing(sig: Signals, cfg: ControllerCfg)
    requires
        !cfg.enabled,
    ensures
        decided(sig, cfg).0 is None,
{
}

/// Law: nothing is proposed on statistics that are too old.
pub proof fn law_stale_view_is_not_acted_on(sig: Signals, cfg: ControllerCfg)
    requires
        is_stale(sig, cfg),
    ensures
        decided(sig, cfg).0 is None,
{
}

/// Law: no fusion is proposed while the cooldown since the last morph runs.
pub proof fn law_hysteresis_blocks_fusion(sig: Signals, cfg: ControllerCfg)
    requires
        sig.since_last_morph_ms <= cfg.cooldown_fuse_ms,
    ensures
        decided(sig, cfg).0 !is Some || decided(sig, cfg).0->0 is Split,
{
}

/// Law: where a fusion is to be undone, undoing it is what is proposed,
/// whatever there is to be fused.
pub proof fn law_splitting_outranks_fusing(sig: Signals, cfg: ControllerCfg)
    requires
        cfg.enabled,
        !is_stale(sig, cfg),
        some_split(sig, cfg),
    ensures
        decided(sig, cfg).0 is Some,
        decided(sig, cfg).0->0 is Split,
{
}

/// Law: only a fusion this controller answers for is ever undone, and only
/// after its cooldown.
pub proof fn law_only_own_fusions_are_undone(sig: Signals, cfg: ControllerCfg)
    requires
        decided(sig, cfg).0 is Some,
        decided(sig, cfg).0->0 is Split,
    ensures
        exists|i: int|
            0 <= i < sig.fused@.len() && decided(sig, cfg).0 == Some(
                MorphModel::Split { fused: (#[trigger] sig.fused@[i]).name@ },
            ) && sig.fused@[i].age_ms > cfg.cooldown_split_ms,
{
    let w = choose|i: int|
        0 <= i < sig.fused@.len() && to_be_split(sig, cfg, #[trigger] sig.fused@[i]);
    lemma_first_split(sig, cfg, w);
    let i = choose|i: int| is_first_split(sig, cfg, i);
    assert(to_be_split(sig, cfg, sig.fused@[i]));
}

pub(crate) proof fn lemma_first_split(sig: Signals, cfg: ControllerCfg, w: int)
    requires
        0 <= w < sig.fused@.len(),
        to_be_split(sig, cfg, sig.fused@[w]),
    ensures
        exists|i: int| is_first_split(sig, cfg, i),
    decreases w,
{
    if forall|j: int| 0 <= j < w ==> !to_be_split(sig, cfg, #[trigger] sig.fused@[j]) {
        assert(is_first_split(sig, cfg, w));
    } else {
        let j = choose|j: int|
            0 <= j < w && to_be_split(sig, cfg, #[trigger] sig.fused@[j]);
        lemma_first_split(sig, cfg, j);
    }
}

/// Law: a pair whose own code costs more than its edge, with all its replicas
/// in place, is never judged fit to be fused: the edge is not the problem.
pub proof fn law_compute_bound_is_never_fused(
    cfg: ControllerCfg,
    illegal: bool,
    sa: StageSignal,
    sb: StageSignal,
    f: PairFacts,
    pool_free: nat,
)
    requires
        at_max(sa),
        at_max(sb),
        f.compute_p50 > f.edge_p50,
    ensures
        judged(cfg, illegal, Some(sa), Some(sb), f, pool_free) != PairVerdict::Fuse,
{
}

} // verus!
