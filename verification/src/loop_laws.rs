//! What the loops around a running pipeline promise: how it is reshaped, what the controller
//! remembers of that, and which part of it runs here.

use vstd::prelude::*;
use crate::config::{fused_name, has_name, DispatcherConfig, EdgeSpec, PipelineStage};
use crate::control_loop::{
    carries_out, depth_of, elapsed, memory_after, mine_after, still_live, with_history, without,
    FusionModel, LoopAction, MemoryModel,
};
use crate::controller::{NamedSignal, StageSignal};
use crate::morph::MorphModel;
use crate::startup::{dispatcher_flags, flagged, inner_flags, owned_flags};
use crate::transition::{
    bracketed, deploys, fuse_steps, identity_steps, is_signal_of, replicas_in, split_steps,
    ActionModel, LiveStage,
};

verus! {

// ---------------------------------------------------------------------------
// Reshaping
// ---------------------------------------------------------------------------

/// Law: nothing is deployed while a stage that it stands for still runs, and all marks that the
/// old stages have seen go to the new one; it has the replicas that were planned.
pub proof fn law_fusions_replace_their_stages(
    a: Seq<char>,
    b: Seq<char>,
    replicas: nat,
    i: int,
    k: int,
)
    requires
        0 <= i < fuse_steps(a, b, replicas).len(),
        0 <= k < fuse_steps(a, b, replicas).len(),
    ensures
        ({
            let steps = fuse_steps(a, b, replicas);
            let f = fused_name(a, b);
            &&& steps[i] is Stop && steps[k] is Deploy ==> i < k
            &&& steps[i] is Stop && steps[k] is Carry ==> i < k
            &&& steps[k] matches ActionModel::Deploy(s, n) ==> s == f && n == replicas
            &&& steps[k] matches ActionModel::Carry(from, to) ==> to == f && (from == a || from == b)
            &&& steps[k] matches ActionModel::AwaitEmpty(s) ==> s == b
            &&& steps.contains(ActionModel::Stop(a)) && steps.contains(ActionModel::Stop(b))
            &&& steps.contains(ActionModel::AwaitEmpty(b))
            &&& steps.contains(ActionModel::Carry(a, f)) && steps.contains(ActionModel::Carry(b, f))
            &&& steps.contains(ActionModel::Deploy(f, replicas))
        }),
{
    let steps = fuse_steps(a, b, replicas);
    let f = fused_name(a, b);
    assert(steps[0] == ActionModel::Stop(a));
    assert(steps[1] == ActionModel::AwaitEmpty(b));
    assert(steps[2] == ActionModel::Stop(b));
    assert(steps[3] == ActionModel::Deploy(f, replicas));
    assert(steps[4] == ActionModel::Carry(a, f));
    assert(steps[5] == ActionModel::Carry(b, f));
}

/// Law: what feeds an edge is stopped before the edge is waited for to be empty, and what reads
/// from it is stopped only then.
pub proof fn law_fused_edges_run_dry(
    a: Seq<char>,
    b: Seq<char>,
    replicas: nat,
    i: int,
    j: int,
    k: int,
)
    requires
        a != b,
        0 <= i < fuse_steps(a, b, replicas).len(),
        0 <= j < fuse_steps(a, b, replicas).len(),
        0 <= k < fuse_steps(a, b, replicas).len(),
        fuse_steps(a, b, replicas)[i] == ActionModel::Stop(a),
        fuse_steps(a, b, replicas)[j] is AwaitEmpty,
        fuse_steps(a, b, replicas)[k] == ActionModel::Stop(b),
    ensures
        i < j < k,
{
}

/// Law: a split stops the fused stage first, and then every half is deployed with the replicas
/// that it was given; the first half, which stands where events come in, gets the marks.
pub proof fn law_splits_deploy_all_halves(
    fused: Seq<char>,
    halves: Seq<(String, usize)>,
    live: nat,
    i: int,
)
    requires
        0 <= i < halves.len(),
    ensures
        ({
            let steps = split_steps(fused, halves, live);
            &&& steps[0] == ActionModel::Stop(fused)
            &&& steps[i + 1] == ActionModel::Deploy(halves[i].0@, halves[i].1 as nat)
            &&& steps.len() == halves.len() + 3
            &&& steps[halves.len() as int + 1] == ActionModel::Carry(fused, halves[0].0@)
            &&& steps.last() == ActionModel::Record(fused, "split"@, live)
        }),
{
    assert(deploys(halves)[i] == ActionModel::Deploy(halves[i].0@, halves[i].1 as nat));
}

/// Law: a stage that is replaced by itself comes back with as many replicas as it had, and one
/// at least, and keeps its marks.
pub proof fn law_identities_keep_the_replicas(stage: Seq<char>, live: nat)
    ensures
        ({
            let steps = identity_steps(stage, live);
            &&& steps[0] == ActionModel::Stop(stage)
            &&& steps[1] matches ActionModel::Deploy(s, n) && s == stage && n >= 1 && n >= live && (
            live >= 1 ==> n == live)
            &&& steps[2] == ActionModel::Carry(stage, stage)
        }),
{
}

/// Law: every change is recorded when it begins and when it ends, and as failed just where
/// nothing was done.
pub proof fn law_changes_are_recorded(subject: Seq<char>, steps: Option<Seq<ActionModel>>)
    ensures
        bracketed(subject, steps)[0] == ActionModel::Record(subject, "morph_begin"@, 0),
        steps is Some ==> bracketed(subject, steps).last() == ActionModel::Record(
            subject,
            "morph_end"@,
            0,
        ) && bracketed(subject, steps).subrange(1, bracketed(subject, steps).len() - 1) == steps->0,
        steps is None ==> bracketed(subject, steps).len() == 2 && bracketed(subject, steps)[1]
            == ActionModel::Record(subject, "morph_failed"@, 0),
{
    if let Some(s) = steps {
        assert(bracketed(subject, steps).subrange(1, bracketed(subject, steps).len() - 1) =~= s);
    }
}

/// Law: the replicas that run are those of all stages together.
pub proof fn law_replicas_add_up(stages: Seq<LiveStage>, s: LiveStage)
    ensures
        replicas_in(stages.push(s)) == replicas_in(stages) + s.live,
        replicas_in(Seq::empty()) == 0,
{
    assert(stages.push(s).drop_last() =~= stages);
}

/// Law: the controller sees of a stage how many replicas run, how many may, and how many events
/// wait, under its name; where no threshold is declared it is fifty.
pub proof fn law_signals_tell_the_stage(n: NamedSignal, l: LiveStage)
    requires
        is_signal_of(n, l),
    ensures
        n.name@ == l.name@,
        n.signal.live == l.live,
        n.signal.max == l.max_replicas,
        n.signal.queue_depth == l.queue_depth,
        l.queue_up_milli matches Some(q) ==> n.signal.queue_up_milli == q,
        l.queue_up_milli is None ==> n.signal.queue_up_milli == 50 * 1000,
{
}

// ---------------------------------------------------------------------------
// The controller's memory
// ---------------------------------------------------------------------------

/// Law: the controller remembers just those of its fusions that still run.
pub proof fn law_running_fusions_are_remembered(
    mine: Seq<FusionModel>,
    live: Seq<Seq<char>>,
    f: FusionModel,
)
    ensures
        still_live(mine, live).contains(f) <==> mine.contains(f) && has_name(live, f.name),
    decreases mine.len(),
{
    if mine.len() > 0 {
        let rest = still_live(mine.drop_last(), live);
        law_running_fusions_are_remembered(mine.drop_last(), live, f);
        lemma_last(mine, f);
        if has_name(live, mine.last().name) {
            lemma_pushed(rest, mine.last(), f);
        }
    }
}

proof fn lemma_last(s: Seq<FusionModel>, f: FusionModel)
    requires
        s.len() > 0,
    ensures
        s.contains(f) <==> s.drop_last().contains(f) || s.last() == f,
{
    if s.contains(f) {
        let k = choose|k: int| 0 <= k < s.len() && s[k] == f;
        if k < s.len() - 1 {
            assert(s.drop_last()[k] == f);
        }
    }
    if s.drop_last().contains(f) {
        let k = choose|k: int| 0 <= k < s.len() - 1 && s.drop_last()[k] == f;
        assert(s[k] == f);
    }
    assert(s[s.len() - 1] == s.last());
}

proof fn lemma_pushed(s: Seq<FusionModel>, x: FusionModel, f: FusionModel)
    ensures
        s.push(x).contains(f) <==> s.contains(f) || x == f,
{
    lemma_last(s.push(x), f);
    assert(s.push(x).drop_last() =~= s);
}

proof fn lemma_without(mine: Seq<FusionModel>, name: Seq<char>, f: FusionModel)
    ensures
        without(mine, name).contains(f) <==> mine.contains(f) && f.name != name,
    decreases mine.len(),
{
    if mine.len() > 0 {
        let rest = without(mine.drop_last(), name);
        lemma_without(mine.drop_last(), name, f);
        lemma_last(mine, f);
        if mine.last().name != name {
            lemma_pushed(rest, mine.last(), f);
        }
    }
}

/// Law: a fusion that was asked for is remembered with its parts and its time; one that was
/// split is forgotten; no other is touched.
pub proof fn law_fusions_are_remembered_until_split(
    kept: Seq<FusionModel>,
    a: Seq<char>,
    b: Seq<char>,
    fused: Seq<char>,
    now_ms: nat,
    f: FusionModel,
)
    ensures
        ({
            let own = FusionModel { name: fused_name(a, b), a, b, at_ms: now_ms };
            let after = mine_after(kept, Some(MorphModel::Fuse { a, b }), now_ms);
            after.contains(f) <==> kept.contains(f) || f == own
        }),
        mine_after(kept, Some(MorphModel::Split { fused }), now_ms).contains(f) <==> kept.contains(
            f,
        ) && f.name != fused,
        mine_after(kept, None, now_ms) == kept,
{
    lemma_pushed(kept, FusionModel { name: fused_name(a, b), a, b, at_ms: now_ms }, f);
    lemma_without(kept, fused, f);
}

proof fn lemma_depth(depths: Seq<(Seq<char>, u64)>, name: Seq<char>, i: int)
    requires
        0 <= i < depths.len(),
        depths[i].0 == name,
        forall|k: int| 0 <= k < i ==> (#[trigger] depths[k]).0 != name,
    ensures
        depth_of(depths, name) == Some(depths[i].1),
    decreases depths.len(),
{
    if i > 0 {
        assert(depths[0].0 != name);
        let rest = depths.drop_first();
        assert forall|k: int| 0 <= k < i - 1 implies (#[trigger] rest[k]).0 != name by {
            assert(depths[k + 1].0 != name);
        }
        lemma_depth(rest, name, i - 1);
    }
}

/// Law: what waits at a stage now is what the next look compares with; the time of the last
/// change moves just when one is asked for, and so does what was last said.
pub proof fn law_the_last_look_is_remembered(
    was: MemoryModel,
    seen: Seq<NamedSignal>,
    live: Seq<Seq<char>>,
    now_ms: nat,
    d: (Option<MorphModel>, Seq<char>),
    i: int,
    next: StageSignal,
)
    requires
        0 <= i < seen.len(),
        forall|k: int| 0 <= k < i ==> (#[trigger] seen[k]).name@ != seen[i].name@,
    ensures
        ({
            let now = memory_after(was, seen, live, now_ms, d);
            &&& depth_of(now.depths, seen[i].name@) == Some(seen[i].signal.queue_depth)
            &&& with_history(next, depth_of(now.depths, seen[i].name@)).queue_depth_prev
                == seen[i].signal.queue_depth
            &&& with_history(next, None).queue_depth_prev == next.queue_depth
            &&& d.0 is Some ==> now.last_morph_ms == now_ms && now.last_reason.len() == 0
            &&& d.0 is None ==> now.last_morph_ms == was.last_morph_ms && now.last_reason == d.1
        }),
{
    let now = memory_after(was, seen, live, now_ms, d);
    assert forall|k: int| 0 <= k < i implies (#[trigger] now.depths[k]).0 != seen[i].name@ by {
        assert(seen[k].name@ != seen[i].name@);
    }
    lemma_depth(now.depths, seen[i].name@, i);
}

/// Law: a change is proposed just where one was decided on, and a reason is said just where it
/// is not the one that was said before.
pub proof fn law_decisions_are_carried_out(
    act: LoopAction,
    d: (Option<MorphModel>, Seq<char>),
    last_reason: Seq<char>,
)
    requires
        carries_out(act, d, last_reason),
    ensures
        act is Propose <==> d.0 is Some,
        act is Report <==> d.0 is None && d.1 != last_reason,
        act is Nothing <==> d.0 is None && d.1 == last_reason,
        act matches LoopAction::Propose(r, why) ==> Some(r@) == d.0 && why@ == d.1,
        act matches LoopAction::Report(why) ==> why@ == d.1,
{
}

/// Law: a time is gone by since another just as far as it is later.
pub proof fn law_time_goes_by(now: nat, at: nat)
    ensures
        at <= now ==> at + elapsed(now, at) == now,
        now < at ==> elapsed(now, at) == 0,
{
}

// ---------------------------------------------------------------------------
// What runs here
// ---------------------------------------------------------------------------

proof fn lemma_flagged<T>(items: Seq<T>, flags: Seq<bool>, x: T)
    requires
        flags.len() >= items.len(),
    ensures
        flagged(items, flags).contains(x) <==> exists|i: int|
            0 <= i < items.len() && #[trigger] items[i] == x && flags[i],
        flagged(items, flags).len() <= items.len(),
    decreases items.len(),
{
    let out = flagged(items, flags);
    if items.len() > 0 {
        let n = items.len() - 1;
        let rest = flagged(items.drop_last(), flags);
        lemma_flagged(items.drop_last(), flags, x);
        if out.contains(x) {
            let k = choose|k: int| 0 <= k < out.len() && out[k] == x;
            if k < rest.len() {
                assert(rest[k] == x);
                let i = choose|i: int|
                    0 <= i < n && #[trigger] items.drop_last()[i] == x && flags[i];
                assert(items[i] == x);
            } else {
                assert(items[n] == x);
            }
        }
        if exists|i: int| 0 <= i < items.len() && #[trigger] items[i] == x && flags[i] {
            let i = choose|i: int| 0 <= i < items.len() && #[trigger] items[i] == x && flags[i];
            if i < n {
                assert(items.drop_last()[i] == x);
                let k = choose|k: int| 0 <= k < rest.len() && rest[k] == x;
                assert(out[k] == x);
            } else {
                assert(out[rest.len() as int] == x);
            }
        }
    }
}

/// Law: the stages that run here are just those that are placed here.
pub proof fn law_own_stages_are_kept(stages: Seq<PipelineStage>, host: Seq<char>, s: PipelineStage)
    ensures
        flagged(stages, owned_flags(stages, host)).contains(s) <==> stages.contains(s)
            && s.placement@ == host,
{
    let flags = owned_flags(stages, host);
    lemma_flagged(stages, flags, s);
    if stages.contains(s) && s.placement@ == host {
        let i = choose|i: int| 0 <= i < stages.len() && stages[i] == s;
        assert(flags[i]);
    }
}

/// Law: and so it is with the dispatchers.
pub proof fn law_own_dispatchers_are_kept(
    ds: Seq<DispatcherConfig>,
    host: Seq<char>,
    d: DispatcherConfig,
)
    ensures
        flagged(ds, dispatcher_flags(ds, host)).contains(d) <==> ds.contains(d) && d.placement@
            == host,
{
    let flags = dispatcher_flags(ds, host);
    lemma_flagged(ds, flags, d);
    if ds.contains(d) && d.placement@ == host {
        let i = choose|i: int| 0 <= i < ds.len() && ds[i] == d;
        assert(flags[i]);
    }
}

/// Law: the edges that are kept are just those both of whose ends are kept.
pub proof fn law_inner_edges_are_kept(edges: Seq<EdgeSpec>, names: Seq<Seq<char>>, e: EdgeSpec)
    ensures
        flagged(edges, inner_flags(edges, names)).contains(e) <==> edges.contains(e) && has_name(
            names,
            e.from@,
        ) && has_name(names, e.to@),
{
    let flags = inner_flags(edges, names);
    lemma_flagged(edges, flags, e);
    if edges.contains(e) && has_name(names, e.from@) && has_name(names, e.to@) {
        let i = choose|i: int| 0 <= i < edges.len() && edges[i] == e;
        assert(flags[i]);
    }
}

} // verus!
