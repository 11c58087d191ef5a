//! What the controller promises of the fusions and splits that it asks for.

use vstd::prelude::*;
use crate::controller::{
    beats, decided, default_cfg, edge_events, edge_quantile, edge_seconds, facts_at, is_best,
    is_first_split, lemma_beats_chain, lemma_first_split, overhead_quantile, pair_facts,
    pair_verdict, resolved, signal_of, to_be_split, wasm_quantile, ControllerCfg,
    ControllerSpec, NamedSignal, PairSignal, PairVerdict, Signals, StageSignal,
};
use crate::morph::MorphModel;

verus! {

/// Some stage of that name gives the signal.
pub open spec fn gives(stages: Seq<NamedSignal>, name: Seq<char>, s: StageSignal) -> bool {
    exists|k: int| 0 <= k < stages.len() && (#[trigger] stages[k]).name@ == name && stages[k].signal == s
}

/// Law: the signal of a stage is one that the stage gives, and it is found where there is one.
pub proof fn law_signals_are_found(stages: Seq<NamedSignal>, name: Seq<char>)
    ensures
        signal_of(stages, name) matches Some(s) ==> gives(stages, name, s),
        signal_of(stages, name) is None ==> forall|k: int|
            0 <= k < stages.len() ==> (#[trigger] stages[k]).name@ != name,
    decreases stages.len(),
{
    if stages.len() > 0 && stages[0].name@ != name {
        let rest = stages.drop_first();
        law_signals_are_found(rest, name);
        match signal_of(rest, name) {
            Some(s) => {
                let k = choose|k: int|
                    0 <= k < rest.len() && (#[trigger] rest[k]).name@ == name && rest[k].signal == s;
                assert(stages[k + 1].name@ == name && stages[k + 1].signal == s);
            },
            None => {
                assert forall|k: int| 0 <= k < stages.len() implies (
                #[trigger] stages[k]).name@ != name by {
                    if k > 0 {
                        assert(rest[k - 1].name@ != name);
                    }
                }
            },
        }
    } else if stages.len() > 0 {
        assert(stages[0].name@ == name);
    }
}

proof fn lemma_facts(sig: Signals, cfg: ControllerCfg, i: int)
    ensures
        ({
            let f = facts_at(sig, cfg, i);
            let (a, b) = (sig.pairs@[i].a@, sig.pairs@[i].b@);
            &&& f.seconds == edge_seconds(*sig.stats, a, b, cfg.window_s as nat)
            &&& f.seconds > 0
        }),
{
    reveal(pair_facts);
}

proof fn lemma_best(sig: Signals, cfg: ControllerCfg, n: int, w: int)
    requires
        0 <= w < n <= sig.pairs@.len(),
        pair_verdict(sig, cfg, sig.pairs@[w]) == PairVerdict::Fuse,
    ensures
        exists|i: int| is_best(sig, cfg, n, i),
    decreases n,
{
    let k = n - 1;
    let here = pair_verdict(sig, cfg, sig.pairs@[k]) == PairVerdict::Fuse;
    if exists|v: int| 0 <= v < k && pair_verdict(sig, cfg, #[trigger] sig.pairs@[v]) == PairVerdict::Fuse {
        let v = choose|v: int|
            0 <= v < k && pair_verdict(sig, cfg, #[trigger] sig.pairs@[v]) == PairVerdict::Fuse;
        lemma_best(sig, cfg, k, v);
        let i = choose|i: int| is_best(sig, cfg, k, i);
        if here && beats(facts_at(sig, cfg, k), facts_at(sig, cfg, i)) {
            assert forall|j: int|
                0 <= j < n && pair_verdict(sig, cfg, #[trigger] sig.pairs@[j]) == PairVerdict::Fuse
                    && j != k implies {
                &&& !beats(facts_at(sig, cfg, j), facts_at(sig, cfg, k))
                &&& j < k ==> beats(facts_at(sig, cfg, k), facts_at(sig, cfg, j))
            } by {
                lemma_facts(sig, cfg, j);
                lemma_facts(sig, cfg, k);
                lemma_facts(sig, cfg, i);
                if j != i {
                    lemma_beats_chain(
                        facts_at(sig, cfg, k),
                        facts_at(sig, cfg, i),
                        facts_at(sig, cfg, j),
                    );
                } else {
                    reveal(beats);
                }
            }
            assert(is_best(sig, cfg, n, k));
        } else {
            assert(is_best(sig, cfg, n, i));
        }
    } else {
        assert(is_best(sig, cfg, n, w));
    }
}

/// All that speaks for the fusion of a pair: it is allowed, both stages run, the edge is busy
/// enough and costs more than the factor times what its stages compute, the stage
/// behind it is under pressure, there is room for twice as many instances as both have,
/// and the gain is more than noise.
pub open spec fn is_worth_fusing(sig: Signals, cfg: ControllerCfg, p: PairSignal) -> bool {
    let w = cfg.window_s as nat;
    let edge = edge_quantile(*sig.stats, p.a@, p.b@, 500, w) as u64;
    let compute = (wasm_quantile(*sig.stats, p.a@, 500, w) + wasm_quantile(
        *sig.stats,
        p.b@,
        500,
        w,
    )) as u64;
    let events = edge_events(*sig.stats, p.a@, p.b@, w) as u128;
    let seconds = edge_seconds(*sig.stats, p.a@, p.b@, w) as u64;
    &&& p.illegal_reason is None
    &&& events * 1000 >= cfg.min_rate_milli * seconds
    &&& edge * 1000 > cfg.alpha_milli * compute
    &&& edge * 500 > cfg.significance_floor_ns
    &&& exists|sa: StageSignal, sb: StageSignal| #[trigger]
        gives(sig.stages@, p.a@, sa) && #[trigger] gives(sig.stages@, p.b@, sb) && {
            &&& sig.pool_free >= 2 * sa.live + 2 * sb.live
            &&& sb.queue_depth > sb.queue_depth_prev || (sb.max > 0 && sb.live >= sb.max
                && sb.queue_depth * 1000 > sb.queue_up_milli)
            &&& (sa.max > 0 && sa.live >= sa.max && sb.max > 0 && sb.live >= sb.max) ==> compute
                <= edge
        }
}

/// Law: a fusion is asked for only by a controller that is switched on, on a view that is
/// fresh, when the last change is longer ago than the cooldown, and of a pair for
/// which all speaks; and no pair that would do gains more in a second.
pub proof fn law_fusions_are_earned(
    sig: Signals,
    cfg: ControllerCfg,
    a: Seq<char>,
    b: Seq<char>,
) -> (i: int)
    requires
        decided(sig, cfg).0 == Some(MorphModel::Fuse { a, b }),
    ensures
        cfg.enabled,
        sig.now_ns - sig.stats.t_ns <= cfg.max_stats_age_ms * 1_000_000,
        sig.since_last_morph_ms > cfg.cooldown_fuse_ms,
        0 <= i < sig.pairs@.len(),
        sig.pairs@[i].a@ == a,
        sig.pairs@[i].b@ == b,
        is_worth_fusing(sig, cfg, sig.pairs@[i]),
        forall|j: int|
            0 <= j < sig.pairs@.len() && pair_verdict(sig, cfg, #[trigger] sig.pairs@[j])
                == PairVerdict::Fuse ==> {
                let f = facts_at(sig, cfg, i);
                let g = facts_at(sig, cfg, j);
                (g.edge_p50 * g.events) * f.seconds <= (f.edge_p50 * f.events) * g.seconds
            },
{
    let n = sig.pairs@.len() as int;
    let w = choose|i: int|
        0 <= i < sig.pairs@.len() && pair_verdict(sig, cfg, #[trigger] sig.pairs@[i])
            == PairVerdict::Fuse;
    lemma_best(sig, cfg, n, w);
    let i = choose|i: int| is_best(sig, cfg, n, i);
    let p = sig.pairs@[i];
    law_signals_are_found(sig.stages@, p.a@);
    law_signals_are_found(sig.stages@, p.b@);
    let sa = signal_of(sig.stages@, p.a@)->0;
    let sb = signal_of(sig.stages@, p.b@)->0;
    reveal(pair_facts);
    reveal(pair_verdict);
    assert(pair_verdict(sig, cfg, p) == PairVerdict::Fuse);
    assert(gives(sig.stages@, p.a@, sa) && gives(sig.stages@, p.b@, sb));
    reveal(beats);
    i
}

/// Law: the edge of a pair is measured by its median gap, and its stages by the medians of
/// what they compute, over one and the same time.
pub proof fn law_pairs_are_measured(sig: Signals, cfg: ControllerCfg, p: PairSignal)
    ensures
        ({
            let w = cfg.window_s as nat;
            let f = pair_facts(*sig.stats, p.a@, p.b@, w);
            &&& f.edge_p50 == edge_quantile(*sig.stats, p.a@, p.b@, 500, w) as u64
            &&& f.edge_p99 == edge_quantile(*sig.stats, p.a@, p.b@, 990, w) as u64
            &&& f.compute_p50 == (wasm_quantile(*sig.stats, p.a@, 500, w) + wasm_quantile(
                *sig.stats,
                p.b@,
                500,
                w,
            )) as u64
            &&& f.compute_p99 == (wasm_quantile(*sig.stats, p.a@, 990, w) + wasm_quantile(
                *sig.stats,
                p.b@,
                990,
                w,
            )) as u64
        }),
{
    reveal(pair_facts);
}

/// Law: a split is asked for only of a fusion that is older than the cooldown, runs as many
/// replicas as it may, computes longer than it takes besides, and has more waiting
/// than it should; it is the first such one.
pub proof fn law_splits_are_earned(sig: Signals, cfg: ControllerCfg, fused: Seq<char>) -> (i: int)
    requires
        decided(sig, cfg).0 == Some(MorphModel::Split { fused }),
    ensures
        cfg.enabled,
        sig.now_ns - sig.stats.t_ns <= cfg.max_stats_age_ms * 1_000_000,
        0 <= i < sig.fused@.len(),
        sig.fused@[i].name@ == fused,
        sig.fused@[i].age_ms > cfg.cooldown_split_ms,
        wasm_quantile(*sig.stats, fused, 990, cfg.window_s as nat) > overhead_quantile(
            *sig.stats,
            fused,
            990,
            cfg.window_s as nat,
        ),
        exists|s: StageSignal| #[trigger]
            gives(sig.stages@, fused, s) && s.max > 0 && s.live >= s.max && s.queue_depth * 1000
                > s.queue_up_milli,
{
    let w = choose|i: int|
        0 <= i < sig.fused@.len() && to_be_split(sig, cfg, #[trigger] sig.fused@[i]);
    lemma_first_split(sig, cfg, w);
    let i = choose|i: int| is_first_split(sig, cfg, i);
    law_signals_are_found(sig.stages@, fused);
    assert(to_be_split(sig, cfg, sig.fused@[i]));
    let s = signal_of(sig.stages@, fused)->0;
    assert(gives(sig.stages@, fused, s));
    i
}

/// Law: a fusion of which all that holds is split, on a fresh view, whatever else could be
/// done.
pub proof fn law_due_splits_are_made(sig: Signals, cfg: ControllerCfg, i: int, s: StageSignal)
    requires
        cfg.enabled,
        sig.now_ns - sig.stats.t_ns <= cfg.max_stats_age_ms * 1_000_000,
        0 <= i < sig.fused@.len(),
        signal_of(sig.stages@, sig.fused@[i].name@) == Some(s),
        sig.fused@[i].age_ms > cfg.cooldown_split_ms,
        s.max > 0,
        s.live >= s.max,
        s.queue_depth * 1000 > s.queue_up_milli,
        wasm_quantile(*sig.stats, sig.fused@[i].name@, 990, cfg.window_s as nat)
            > overhead_quantile(*sig.stats, sig.fused@[i].name@, 990, cfg.window_s as nat),
    ensures
        decided(sig, cfg).0 matches Some(MorphModel::Split { .. }),
{
    assert(to_be_split(sig, cfg, sig.fused@[i]));
}

/// Law: a pair for which all speaks is not passed over for nothing: something is done, on a
/// fresh view and after the cooldown.
pub proof fn law_due_fusions_are_made(
    sig: Signals,
    cfg: ControllerCfg,
    i: int,
    sa: StageSignal,
    sb: StageSignal,
)
    requires
        cfg.enabled,
        sig.now_ns - sig.stats.t_ns <= cfg.max_stats_age_ms * 1_000_000,
        sig.since_last_morph_ms > cfg.cooldown_fuse_ms,
        0 <= i < sig.pairs@.len(),
        signal_of(sig.stages@, sig.pairs@[i].a@) == Some(sa),
        signal_of(sig.stages@, sig.pairs@[i].b@) == Some(sb),
        sig.pairs@[i].illegal_reason is None,
        ({
            let f = facts_at(sig, cfg, i);
            &&& f.events * 1000 >= cfg.min_rate_milli * f.seconds
            &&& f.edge_p50 * 1000 > cfg.alpha_milli * f.compute_p50
            &&& f.edge_p50 * 500 > cfg.significance_floor_ns
            &&& f.compute_p50 <= f.edge_p50
        }),
        sb.queue_depth > sb.queue_depth_prev,
        sig.pool_free >= 2 * sa.live + 2 * sb.live,
    ensures
        decided(sig, cfg).0 is Some,
{
    reveal(pair_verdict);
    assert(pair_verdict(sig, cfg, sig.pairs@[i]) == PairVerdict::Fuse);
}

/// Law: what a pipeline declares is taken as it is, where it is not too little; what it does
/// not declare is as usual.
pub proof fn law_tunables_are_the_declared_ones(spec: ControllerSpec)
    ensures
        ({
            let c = resolved(spec);
            let d = default_cfg();
            &&& c.enabled == spec.enabled
            &&& c.period_ms >= 50
            &&& c.window_s >= 1
            &&& spec.period_ms matches Some(v) ==> v >= 50 ==> c.period_ms == v
            &&& spec.alpha_milli matches Some(v) ==> v >= 0 ==> c.alpha_milli == v
            &&& spec.cooldown_fuse_ms matches Some(v) ==> v >= 0 ==> c.cooldown_fuse_ms == v
            &&& spec.cooldown_split_ms matches Some(v) ==> v >= 0 ==> c.cooldown_split_ms == v
            &&& spec.significance_floor_ns matches Some(v) ==> v >= 0 ==> c.significance_floor_ns
                == v
            &&& spec.min_rate_milli matches Some(v) ==> v >= 0 ==> c.min_rate_milli == v
            &&& spec.window_s matches Some(v) ==> v >= 1 ==> c.window_s == v
            &&& spec.period_ms is None ==> c.period_ms == d.period_ms
            &&& spec.alpha_milli is None ==> c.alpha_milli == d.alpha_milli
            &&& spec.cooldown_fuse_ms is None ==> c.cooldown_fuse_ms == d.cooldown_fuse_ms
            &&& spec.cooldown_split_ms is None ==> c.cooldown_split_ms == d.cooldown_split_ms
            &&& spec.significance_floor_ns is None ==> c.significance_floor_ns
                == d.significance_floor_ns
            &&& spec.min_rate_milli is None ==> c.min_rate_milli == d.min_rate_milli
            &&& spec.window_s is None ==> c.window_s == d.window_s
            &&& c.max_stats_age_ms == d.max_stats_age_ms
            &&& d.cooldown_fuse_ms < d.cooldown_split_ms
            &&& !d.enabled
        }),
{
}

} // verus!
