//! What the wiring of a pipeline within one process promises.

use vstd::prelude::*;
use crate::config::{
    preds_of, sink_places, source_places, Config, DispatcherConfig, EdgeNames, PipelineStage,
};
use crate::wiring::{
    all_replicas, capacity_of, dispatcher_named, dispatcher_sought, empty_plan, feeders,
    fused_replicas, in_process, is_run_of, is_template, mesh_slots, planned, ring_slots,
    source_threads_of, stage_has_dispatcher, with_egress, with_ingress, with_inputs, EnvKnobs,
    InProcess, OutSlot, PlanModel, StageRun, StageTemplate,
};

verus! {

/// The edge that a slot leads to.
pub open spec fn edge_of(s: OutSlot) -> usize {
    match s {
        OutSlot::Ring { edge } => edge,
        OutSlot::Mesh { edge, base } => edge,
    }
}

/// The one stage writes to an edge that the other reads from.
pub open spec fn is_wired(m: PlanModel, from: Seq<char>, to: Seq<char>) -> bool {
    exists|i: int, k: int|
        0 <= i < m.inputs.len() && 0 <= k < m.outputs.len() && (#[trigger] m.inputs[i]).0 == to && (
        #[trigger] m.outputs[k]).0 == from && m.inputs[i].1 == edge_of(m.outputs[k].1)
            && m.inputs[i].1 < m.edges.len()
}

proof fn lemma_slots(c: Config, stages: Seq<Seq<char>>, edge: usize, i: int)
    requires
        0 <= i < stages.len(),
    ensures
        mesh_slots(c, stages, edge).len() == stages.len(),
        mesh_slots(c, stages, edge)[i].0 == stages[i],
        edge_of(mesh_slots(c, stages, edge)[i].1) == edge,
        ring_slots(stages, edge)[i].0 == stages[i],
        edge_of(ring_slots(stages, edge)[i].1) == edge,
    decreases stages.len(),
{
    if i < stages.len() - 1 {
        lemma_slots(c, stages.drop_last(), edge, i);
    } else if stages.len() > 1 {
        lemma_slots(c, stages.drop_last(), edge, 0);
    } else {
        assert(mesh_slots(c, stages.drop_last(), edge).len() == 0);
    }
}

proof fn lemma_stays(m: PlanModel, out: PlanModel, from: Seq<char>, to: Seq<char>)
    requires
        is_wired(m, from, to),
        m.inputs.is_prefix_of(out.inputs),
        m.outputs.is_prefix_of(out.outputs),
        m.edges.len() <= out.edges.len(),
    ensures
        is_wired(out, from, to),
{
    let (i, k) = choose|i: int, k: int|
        0 <= i < m.inputs.len() && 0 <= k < m.outputs.len() && (#[trigger] m.inputs[i]).0 == to && (
        #[trigger] m.outputs[k]).0 == from && m.inputs[i].1 == edge_of(m.outputs[k].1)
            && m.inputs[i].1 < m.edges.len();
    assert(out.inputs[i] == m.inputs[i]);
    assert(out.outputs[k] == m.outputs[k]);
}

proof fn lemma_edges(c: Config, n: nat, mesh: bool, cap: usize, ring_cap: usize)
    ensures
        with_inputs(c, n, mesh, cap, ring_cap).edges.len() <= n,
    decreases n,
{
    if n > 0 {
        lemma_edges(c, (n - 1) as nat, mesh, cap, ring_cap);
    }
}

proof fn lemma_wired(
    c: Config,
    n: nat,
    mesh: bool,
    cap: usize,
    ring_cap: usize,
    at: int,
    f: int,
)
    requires
        0 <= at < n <= c.names().len(),
        c.names().len() <= usize::MAX,
        0 <= f < feeders(c, c.names()[at]).len(),
    ensures
        is_wired(
            with_inputs(c, n, mesh, cap, ring_cap),
            feeders(c, c.names()[at])[f],
            c.names()[at],
        ),
    decreases n,
{
    let m = with_inputs(c, (n - 1) as nat, mesh, cap, ring_cap);
    let out = with_inputs(c, n, mesh, cap, ring_cap);
    let to = c.names()[at];
    let from = feeders(c, to);
    if at < n - 1 {
        lemma_wired(c, (n - 1) as nat, mesh, cap, ring_cap, at, f);
        assert(m.inputs.is_prefix_of(out.inputs));
        assert(m.outputs.is_prefix_of(out.outputs));
        lemma_stays(m, out, from[f], to);
    } else {
        lemma_edges(c, (n - 1) as nat, mesh, cap, ring_cap);
        let id = m.edges.len() as usize;
        lemma_slots(c, from, id, f);
        let i = m.inputs.len() as int;
        let k = m.outputs.len() + f;
        assert(out.inputs[i] == (to, id));
        assert(out.outputs[k] == if mesh {
            mesh_slots(c, from, id)[f]
        } else {
            ring_slots(from, id)[f]
        });
        assert(out.inputs[i].0 == to && out.outputs[k].0 == from[f]);
    }
}

/// Law: where the edges are in the process, every stage writes to an edge from which each
/// stage that it feeds reads, and that edge is there.
pub proof fn law_stages_are_wired(
    c: Config,
    p: InProcess,
    mesh: bool,
    cap: usize,
    ring_cap: usize,
    at: int,
    f: int,
)
    requires
        p.edges,
        0 <= at < c.names().len() <= usize::MAX,
        0 <= f < feeders(c, c.names()[at]).len(),
    ensures
        is_wired(planned(c, p, mesh, cap, ring_cap), feeders(c, c.names()[at])[f], c.names()[at]),
{
    let (from, to) = (feeders(c, c.names()[at])[f], c.names()[at]);
    let n = c.names().len();
    lemma_wired(c, n, mesh, cap, ring_cap, at, f);
    let inner = with_inputs(c, n, mesh, cap, ring_cap);
    let m = with_ingress(inner, c, cap);
    let out = with_egress(m, c, cap);
    assert(inner.inputs.is_prefix_of(m.inputs));
    assert(inner.outputs.is_prefix_of(m.outputs));
    lemma_stays(inner, m, from, to);
    assert(m.inputs.is_prefix_of(out.inputs));
    assert(m.outputs.is_prefix_of(out.outputs));
    lemma_stays(m, out, from, to);
}

/// Law: the first source reads from the edge by which events come in, and every sink writes
/// to the one by which they leave.
pub proof fn law_the_ends_are_wired(
    c: Config,
    p: InProcess,
    mesh: bool,
    cap: usize,
    ring_cap: usize,
    f: int,
)
    requires
        p.ingress,
        c.names().len() < usize::MAX - 2,
        source_places(c.names(), c.edge_list()).len() > 0,
        0 <= f < sink_places(c.names(), c.edge_list()).len(),
    ensures
        ({
            let out = planned(c, p, mesh, cap, ring_cap);
            &&& out.ingress matches Some(id) && id < out.edges.len() && out.inputs.contains(
                (c.names()[source_places(c.names(), c.edge_list())[0]], id),
            )
            &&& out.egress matches Some(id) && id < out.edges.len() && out.ingress != Some(id)
                && exists|k: int|
                0 <= k < out.outputs.len() && (#[trigger] out.outputs[k]).0
                    == c.names()[sink_places(c.names(), c.edge_list())[f]] && edge_of(
                    out.outputs[k].1,
                ) == id
        }),
{
    let inner = if p.edges {
        with_inputs(c, c.names().len(), mesh, cap, ring_cap)
    } else {
        empty_plan()
    };
    lemma_edges(c, c.names().len(), mesh, cap, ring_cap);
    let m = with_ingress(inner, c, cap);
    let out = with_egress(m, c, cap);
    let first = c.names()[source_places(c.names(), c.edge_list())[0]];
    assert(m.inputs.last() == (first, inner.edges.len() as usize));
    assert(out.inputs[m.inputs.len() - 1] == m.inputs.last());
    let sinks = crate::wiring::names_at(c.names(), sink_places(c.names(), c.edge_list()));
    let id = m.edges.len() as usize;
    lemma_slots(c, sinks, id, f);
    let k = m.outputs.len() + f;
    assert(out.outputs[k] == ring_slots(sinks, id)[f]);
}

/// Law: a source of the process's own brings everything into the process; without any such
/// wish nothing is.
pub proof fn law_sources_bring_the_edges(env: EnvKnobs, c: Config, own_source: bool)
    ensures
        ({
            let p = in_process(env, c, own_source);
            &&& own_source ==> p.ingress
            &&& p.source_gen ==> p.ingress
            &&& p.ingress ==> p.edges
            &&& env.source_gen is None ==> !p.source_gen
            &&& !own_source && env.source_gen is None && env.inproc_ingress is None
                && c.ingress_mode@ != "inprocess"@ && c.ingress_mode@ != "inproc"@ ==> !p.ingress
            &&& !p.ingress && env.inproc_edges is None && c.edge_impl@ != "mpmc"@ && c.edge_impl@
                != "spsc"@ ==> !p.edges
        }),
{
}

/// Law: an edge has the declared room where the environment does not say otherwise, and there
/// is a thread for the source at least.
pub proof fn law_settings_hold_unless_overridden(declared: usize, threads: Option<usize>)
    ensures
        capacity_of(None, declared) == declared,
        source_threads_of(None, threads) >= 1,
        threads matches Some(n) ==> n >= 1 ==> source_threads_of(None, threads) == n,
        threads is None ==> source_threads_of(None, threads) == 1,
{
}

/// Law: the pool has room for all replicas that a pipeline may have, and twice for those of
/// every pair that may be fused.
pub proof fn law_the_pool_has_room(
    c: Config,
    pipeline: Seq<PipelineStage>,
    s: PipelineStage,
    pairs: Seq<EdgeNames>,
    pair: EdgeNames,
)
    ensures
        all_replicas(pipeline.push(s)) == all_replicas(pipeline) + s.slo.max_replicas,
        all_replicas(Seq::empty()) == 0,
        fused_replicas(c, pairs.push(pair)) == fused_replicas(c, pairs) + 2 * c.max_of(pair.0) + 2
            * c.max_of(pair.1),
        fused_replicas(c, Seq::empty()) == 0,
{
    assert(pipeline.push(s).drop_last() =~= pipeline);
    assert(pairs.push(pair).drop_last() =~= pairs);
}

/// Law: what is said of a stage's run is what the stage and its dispatcher declare.
pub proof fn law_runs_are_as_declared(r: StageRun, c: Config, i: int, d: DispatcherConfig)
    requires
        is_run_of(r, c, i),
        stage_has_dispatcher(c, i),
        d == dispatcher_named(c.dispatchers@, dispatcher_sought(c.names()[i])),
    ensures
        r.stage@ == c.names()[i],
        r.min_replicas == c.pipeline@[i].slo.min_replicas,
        r.max_replicas == c.pipeline@[i].slo.max_replicas,
        r.credit_window == d.credit_window,
        r.batch_events == d.batch_events,
        r.push_uri == d.push_uri,
{
}

/// Law: a stage waits for as many ends as it has stages in front of it, for one at least, and
/// talks to its dispatcher by the port and the credits that are declared for it.
pub proof fn law_templates_are_as_declared(
    t: StageTemplate,
    c: Config,
    plan: PlanModel,
    i: int,
    d: DispatcherConfig,
)
    requires
        is_template(t, c, plan, i),
        d == dispatcher_named(c.dispatchers@, dispatcher_sought(c.names()[i])),
        preds_of(c.edge_list(), c.names()[i]).len() <= usize::MAX,
    ensures
        t.stage == i,
        t.expected_in >= 1,
        preds_of(c.edge_list(), c.names()[i]).len() > 0 ==> t.expected_in == preds_of(
            c.edge_list(),
            c.names()[i],
        ).len(),
        t.ctrl_port == d.ctrl_port,
        t.credit_window == d.credit_window,
{
}

} // verus!
