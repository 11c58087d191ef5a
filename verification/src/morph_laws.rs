//! What fusing and splitting stages promises of the stages that come out.

use vstd::prelude::*;
use crate::config::{opt_text, texts, MorphSpec, PipelineStage};
use crate::morph::{
    entry_request, half_models, initial_of, is_fusion_of, is_plan_of, missing_among, put_in,
    scheduled, share, total_weight, weight, DueModel, FusePlan, HalfLimits, MorphModel,
};
use crate::config::has_name;

verus! {

/// Law: two stages that are fused read what the first reads and write what the second writes;
/// the parts of the first come first; no more replicas are allowed than the two may
/// have together, and no fewer than they must have, where that is not too many.
pub proof fn law_fusions_stand_for_both(
    s: PipelineStage,
    a: PipelineStage,
    b: PipelineStage,
    max_ab: usize,
)
    requires
        is_fusion_of(s, a, b, max_ab),
    ensures
        s.input@ == a.input@,
        opt_text(s.output) == opt_text(b.output),
        texts(s.outputs@) == texts(b.outputs@),
        s.placement@ == a.placement@,
        opt_text(s.wasm) == opt_text(a.wasm),
        opt_text(s.binary) == opt_text(a.binary),
        s.name@ == a.name@ + "_"@ + b.name@,
        s.slo.max_replicas == max_ab,
        s.slo.min_replicas <= max_ab,
        a.slo.min_replicas + b.slo.min_replicas <= max_ab ==> s.slo.min_replicas
            == a.slo.min_replicas + b.slo.min_replicas,
        s.slo.min_replicas == max_ab || s.slo.min_replicas == a.slo.min_replicas
            + b.slo.min_replicas,
        s.slo.p99_us == a.slo.p99_us,
        s.slo.queue_up_milli == a.slo.queue_up_milli,
        s.slo.queue_down_milli == a.slo.queue_down_milli,
        a.fused_from@.len() == 0 && b.fused_from@.len() == 0 ==> s.fused_from@.len() == 2
            && s.fused_from@[0].name@ == a.name@ && s.fused_from@[1].name@ == b.name@ && opt_text(
            s.fused_from@[0].wasm,
        ) == opt_text(a.wasm) && opt_text(s.fused_from@[1].wasm) == opt_text(b.wasm),
        a.fused_from@.len() > 0 && b.fused_from@.len() > 0 ==> s.fused_from@.len()
            == a.fused_from@.len() + b.fused_from@.len(),
{
    let m = half_models(s.fused_from@);
    if a.fused_from@.len() == 0 && b.fused_from@.len() == 0 {
        assert(m.len() == 2);
        assert(m[0] == (a.name@, opt_text(a.wasm)));
        assert(m[1] == (b.name@, opt_text(b.wasm)));
        assert(m[0] == (s.fused_from@[0].name@, opt_text(s.fused_from@[0].wasm)));
        assert(m[1] == (s.fused_from@[1].name@, opt_text(s.fused_from@[1].wasm)));
    }
    if a.fused_from@.len() > 0 && b.fused_from@.len() > 0 {
        assert(m.len() == half_models(a.fused_from@).len() + half_models(b.fused_from@).len());
    }
}

/// Law: a fusion begins with as many replicas as its two stages had, but with one at least,
/// and no more than both were allowed.
pub proof fn law_fusions_keep_the_replicas(
    p: FusePlan,
    a: PipelineStage,
    b: PipelineStage,
    max_a: nat,
    max_b: nat,
    live_a: nat,
    live_b: nat,
)
    requires
        is_plan_of(p, a, b, max_a, max_b, live_a, live_b),
        1 <= max_a + max_b,
    ensures
        p.max_replicas == max_a + max_b,
        1 <= p.replicas <= max_a + max_b,
        1 <= live_a + live_b <= max_a + max_b ==> p.replicas == live_a + live_b,
        live_a + live_b > max_a + max_b ==> p.replicas == max_a + max_b,
        p.stage.slo.max_replicas == p.max_replicas,
        p.stage.input@ == a.input@,
        opt_text(p.stage.output) == opt_text(b.output),
{
}

/// Law: every half of a split but the last gets its share by weight of the replicas, rounded
/// down, and the last gets what is left.
pub proof fn law_halves_get_their_share(halves: Seq<HalfLimits>, replicas: nat, i: int)
    requires
        0 <= i < halves.len() - 1,
    ensures
        share(halves, replicas, i) * total_weight(halves) <= replicas * weight(halves[i]),
        replicas * weight(halves[i]) < (share(halves, replicas, i) + 1) * total_weight(halves),
        weight(halves[i]) >= 1,
        halves[i].max > 0 ==> weight(halves[i]) == halves[i].max,
{
    lemma_weights(halves, i);
    let t = total_weight(halves) as int;
    let x = (replicas * weight(halves[i])) as int;
    let q = x / t;
    assert(q * t <= x && x < (q + 1) * t) by (nonlinear_arith)
        requires
            t > 0,
            q == x / t,
    ;
    assert(0 <= x) by (nonlinear_arith)
        requires
            x == replicas * weight(halves[i]),
    ;
    assert(q >= 0) by (nonlinear_arith)
        requires
            t > 0,
            x >= 0,
            q == x / t,
    ;
}

proof fn lemma_weights(halves: Seq<HalfLimits>, i: int)
    requires
        0 <= i < halves.len(),
    ensures
        total_weight(halves) >= weight(halves[i]),
        total_weight(halves) >= 1,
    decreases halves.len(),
{
    if i < halves.len() - 1 {
        lemma_weights(halves.drop_last(), i);
    }
}

/// Law: a half starts within the limits that it was declared with, and with what it was given
/// where that is within them.
pub proof fn law_halves_start_within_limits(h: HalfLimits, want: nat)
    requires
        h.min <= h.max,
    ensures
        h.min <= initial_of(h, want) <= h.max,
        h.min <= want <= h.max ==> initial_of(h, want) == want,
{
}

/// Law: a name is missing just where it is asked for and not known, and a split that has no
/// such name finds all of its halves.
pub proof fn law_missing_halves_are_named(
    names: Seq<Seq<char>>,
    known: Seq<Seq<char>>,
    name: Seq<char>,
)
    ensures
        missing_among(names, known).contains(name) <==> names.contains(name) && !has_name(
            known,
            name,
        ),
    decreases names.len(),
{
    let out = missing_among(names, known);
    if names.len() > 0 {
        let n = names.len() - 1;
        let rest = missing_among(names.drop_last(), known);
        law_missing_halves_are_named(names.drop_last(), known, name);
        if names.contains(name) {
            let k = choose|k: int| 0 <= k < names.len() && names[k] == name;
            if k < n {
                assert(names.drop_last()[k] == name);
            }
        }
        if names.drop_last().contains(name) {
            let k = choose|k: int| 0 <= k < n && names.drop_last()[k] == name;
            assert(names[k] == name);
        }
        assert(names[n] == names.last());
        if !has_name(known, names.last()) {
            assert(out[rest.len() as int] == names.last());
            if rest.contains(name) {
                let k = choose|k: int| 0 <= k < rest.len() && rest[k] == name;
                assert(out[k] == name);
            }
            if out.contains(name) {
                let k = choose|k: int| 0 <= k < out.len() && out[k] == name;
                if k < rest.len() {
                    assert(rest[k] == name);
                }
            }
        }
    }
}

proof fn lemma_put_in(plan: Seq<DueModel>, x: DueModel)
    ensures
        put_in(plan, x).to_multiset() == plan.to_multiset().insert(x),
    decreases plan.len(),
{
    broadcast use vstd::seq_lib::group_to_multiset_ensures;

    if plan.len() == 0 {
        assert(seq![x] =~= plan.push(x));
    } else if plan.last().0 > x.0 {
        lemma_put_in(plan.drop_last(), x);
        assert(plan =~= plan.drop_last().push(plan.last()));
        assert(put_in(plan, x).to_multiset() =~= plan.to_multiset().insert(x));
    }
}

/// Law: every entry that asks for exactly one thing is in the schedule, at its time, and
/// nothing else is.
pub proof fn law_schedules_are_whole(specs: Seq<MorphSpec>, m: MorphSpec)
    ensures
        scheduled(Seq::empty()) == Seq::<DueModel>::empty(),
        entry_request(m) is None ==> scheduled(specs.push(m)) == scheduled(specs),
        entry_request(m) matches Some(r) ==> scheduled(specs.push(m)).to_multiset() == scheduled(
            specs,
        ).to_multiset().insert((m.at_ms as int, r)),
{
    assert(specs.push(m).drop_last() =~= specs);
    if let Some(r) = entry_request(m) {
        lemma_put_in(scheduled(specs), (m.at_ms as int, r));
    }
}

/// Law: an entry asks for a fusion where it names two stages, the first of which is in front;
/// for a split where it names one; and for nothing where it names none or asks twice.
pub proof fn law_entries_ask_for_one_thing(m: MorphSpec)
    ensures
        entry_request(m) matches Some(MorphModel::Fuse { a, b }) ==> m.fuse is Some
            && m.fuse->0@.len() == 2 && a == m.fuse->0@[0]@ && b == m.fuse->0@[1]@,
        entry_request(m) matches Some(MorphModel::Split { fused }) ==> m.split is Some && fused
            == m.split->0@,
        entry_request(m) matches Some(MorphModel::Identity { stage }) ==> m.identity is Some
            && stage == m.identity->0@,
        m.fuse is Some && m.split is Some ==> entry_request(m) is None,
        m.fuse is Some && m.identity is Some ==> entry_request(m) is None,
        m.split is Some && m.identity is Some ==> entry_request(m) is None,
        m.fuse is None && m.split is None && m.identity is None ==> entry_request(m) is None,
        m.split is Some && m.fuse is None && m.identity is None ==> entry_request(m) is Some,
        m.identity is Some && m.fuse is None && m.split is None ==> entry_request(m) is Some,
        m.fuse is Some && m.fuse->0@.len() == 2 && m.split is None && m.identity is None
            ==> entry_request(m) is Some,
{
}

} // verus!
