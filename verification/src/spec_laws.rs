//! What reading a pipeline's description promises: what is declared is what runs.

use vstd::prelude::*;
use crate::config::has_name;
use crate::pipeline_spec::{
    edge_end_fault, edge_end_faults, edge_form_fault, edge_form_faults, edge_type_fault,
    edge_type_faults, edges_of, first_fault, implied_edges, is_native, is_node, is_old_spec,
    is_old_stage, is_scaling_of, is_spec_of, is_stage_of, last_place, lemma_no_fault,
    lowest_port, new_fault, old_fault, old_stage_fault, old_stage_faults, path_from,
    stage_fault, stage_faults, type_names, written_names, written_types, NewFormat, NewScaling,
    OldDispatcher, OldFormat, PipelineSpec, ScalingSpec, SpecFault, StageSource,
};

verus! {

/// The text is the declared one, or the usual one where none is declared.
pub open spec fn is_declared(out: String, given: Option<String>, usual: Seq<char>) -> bool {
    &&& given matches Some(t) ==> out@ == t@
    &&& given is None ==> out@ == usual
}

/// Law: a stage is scaled as it declares: its least and its greatest number of replicas, its
/// thresholds and its cooldowns are the declared ones, each in its own place; what is
/// not declared is as usual.
pub proof fn law_scaling_is_as_declared(s: ScalingSpec, raw: NewScaling)
    requires
        is_scaling_of(s, raw),
    ensures
        raw.min matches Some(n) ==> s.min_replicas == n,
        raw.max matches Some(n) ==> s.max_replicas == n,
        raw.min is None ==> s.min_replicas == 0,
        raw.max is None ==> s.max_replicas == 2,
        is_declared(s.queue_up, raw.queue_up, "50"@),
        is_declared(s.queue_down, raw.queue_down, "0"@),
        is_declared(s.cooldown_up_s, raw.cooldown_up_s, "0.1"@),
        is_declared(s.cooldown_down_s, raw.cooldown_down_s, "5"@),
        is_declared(s.p99_ms, raw.p99_ms, "50"@),
{
}

/// Law: every stage that is declared is there, in its place, with its name, its types, its
/// scaling, its placement and its code.
pub proof fn law_stages_are_as_declared(p: PipelineSpec, raw: NewFormat, dir: Seq<char>, i: int)
    requires
        is_spec_of(p, raw, dir),
        0 <= i < raw.stages@.len(),
    ensures
        p.stages@.len() == raw.stages@.len(),
        p.stages@[i].name@ == raw.stages@[i].name@,
        p.stages@[i].input_type@ == raw.stages@[i].input_type@,
        p.stages@[i].output_type@ == raw.stages@[i].output_type@,
        is_scaling_of(p.stages@[i].scaling, raw.stages@[i].scaling),
        raw.stages@[i].placement matches Some(n) ==> p.stages@[i].placement@ == n@,
        raw.stages@[i].placement is None && raw.nodes@.len() > 0 ==> p.stages@[i].placement@
            == raw.nodes@[0].name@,
        raw.stages@[i].src matches Some(f) ==> (p.stages@[i].source matches StageSource::RustFile(q)
            && q@ == path_from(dir, f@)),
        raw.stages@[i].src is None ==> (p.stages@[i].source matches StageSource::PrebuiltWasm(q)
            && raw.stages@[i].wasm is Some && q@ == path_from(dir, raw.stages@[i].wasm->0@)),
{
    assert(is_stage_of(p.stages@[i], raw.stages@[i], raw.nodes@, dir));
}

/// Law: where and how the pipeline runs is as it is declared, each setting in its own place;
/// what is not declared is as usual.
pub proof fn law_deployment_is_as_declared(p: PipelineSpec, raw: NewFormat, dir: Seq<char>)
    requires
        is_spec_of(p, raw, dir),
    ensures
        is_declared(p.package, raw.package, "epico:pipeline@0.1.0"@),
        is_declared(p.ingress, raw.deploy.ingress, "inproc://source"@),
        is_declared(p.collector, raw.deploy.collector, "tcp://localhost:9999"@),
        is_declared(p.host, raw.deploy.host, "localhost"@),
        is_declared(p.event_format, raw.deploy.event_format, "json"@),
        is_declared(p.source_format, raw.deploy.source_format, "binary"@),
        is_declared(p.ingress_mode, raw.deploy.ingress_mode, "socket"@),
        raw.deploy.this_host matches Some(h) ==> p.this_host@ == h@,
        raw.deploy.this_host is None && raw.nodes@.len() > 0 ==> p.this_host@ == raw.nodes@[0].name@,
        raw.deploy.port_base matches Some(n) ==> p.port_base == n,
        raw.deploy.port_base is None ==> p.port_base == 9000,
        raw.deploy.credit_window matches Some(n) ==> p.credit_window == n,
        raw.deploy.credit_window is None ==> p.credit_window == 1,
        raw.deploy.batch_events matches Some(n) ==> p.batch_events == n,
        raw.deploy.batch_events is None ==> p.batch_events == 1,
        raw.deploy.resource_sample_interval_ms matches Some(n) ==> p.resource_sample_interval_ms
            == n,
        raw.deploy.resource_sample_interval_ms is None ==> p.resource_sample_interval_ms == 1000,
        p.source_threads == raw.deploy.source_threads,
        raw.nodes@.len() > 0 ==> p.nodes@ == raw.nodes@,
        p.nodes@.len() > 0,
{
}

/// Law: a source or a sink that is written in code runs where it says, or else here; a source
/// of another kind is started, and a pipeline has at most one of the two.
pub proof fn law_ends_are_as_declared(p: PipelineSpec, raw: NewFormat, dir: Seq<char>)
    requires
        is_spec_of(p, raw, dir),
    ensures
        p.source_node is Some <==> raw.source is Some && raw.source->0.src is Some,
        p.source_node matches Some(n) ==> n.src@ == path_from(dir, raw.source->0.src->0@),
        p.source_node matches Some(n) ==> (raw.source->0.placement matches Some(h) ==> n.placement@
            == h@) && (raw.source->0.placement is None ==> n.placement@ == p.this_host@),
        p.source is Some <==> raw.source is Some && raw.source->0.src is None,
        p.source matches Some(s) ==> raw.source->0.kind matches Some(k) && k@ == s.kind@,
        p.source is None || p.source_node is None,
        p.sink_node is Some <==> raw.sink is Some,
        p.sink_node matches Some(n) ==> n.src@ == path_from(dir, raw.sink->0.src@),
        p.sink_node matches Some(n) ==> (raw.sink->0.placement matches Some(h) ==> n.placement@
            == h@) && (raw.sink->0.placement is None ==> n.placement@ == p.this_host@),
{
}

/// Law: without edges every stage feeds the one that is declared next.
pub proof fn law_stages_form_a_chain(names: Seq<Seq<char>>, i: int)
    requires
        0 <= i < names.len() - 1,
    ensures
        implied_edges(names).len() == names.len() - 1,
        implied_edges(names)[i].0 == names[i],
        implied_edges(names)[i].1 == names[i + 1],
        edges_of(Seq::empty(), names) == implied_edges(names),
{
}

/// A stage with exactly one kind of code, which is there, on a node that is declared.
pub open spec fn is_sound_stage(raw: NewFormat, i: int) -> bool {
    let s = raw.stages@[i];
    &&& (s.src is Some) != (s.wasm is Some)
    &&& s.src is Some ==> s.src_exists
    &&& s.placement matches Some(n) ==> is_node(raw.nodes@, n@)
}

proof fn lemma_none(faults: Seq<Option<SpecFault>>)
    requires
        forall|k: int| 0 <= k < faults.len() ==> #[trigger] faults[k] is None,
    ensures
        first_fault(faults) is None,
    decreases faults.len(),
{
    if faults.len() > 0 {
        lemma_none(faults.drop_last());
    }
}

/// Law: what is accepted is sound: every stage has exactly one kind of code, which is there,
/// and a node that is there; the stages are read from a source or an address; and the
/// format of the events is known.
pub proof fn law_accepted_pipelines_are_sound(raw: NewFormat, dir: Seq<char>, i: int)
    requires
        new_fault(raw, dir) is None,
        0 <= i < raw.stages@.len(),
    ensures
        is_sound_stage(raw, i),
        raw.stages@.len() > 0,
        raw.deploy.this_host matches Some(h) ==> is_node(raw.nodes@, h@),
        raw.deploy.ingress is Some || is_native(raw.source),
        is_native(raw.source) ==> raw.source->0.src_exists,
        raw.source is Some && raw.source->0.src is None ==> raw.source->0.kind is Some,
        raw.sink matches Some(s) ==> s.src_exists,
        raw.deploy.event_format matches Some(f) ==> f@ == "json"@ || f@ == "binary"@ || f@
            == "epico-binary"@,
{
    let faults = stage_faults(raw.stages@, raw.nodes@, dir);
    lemma_no_fault(faults, i);
    assert(faults[i] == stage_fault(raw.stages@[i], raw.nodes@, dir));
}

/// Law: and what is sound is accepted.
pub proof fn law_sound_pipelines_are_accepted(raw: NewFormat, dir: Seq<char>)
    requires
        raw.stages@.len() > 0,
        forall|i: int| 0 <= i < raw.stages@.len() ==> #[trigger] is_sound_stage(raw, i),
        forall|k: int|
            0 <= k < raw.edges@.len() ==> edge_form_fault((#[trigger] raw.edges@[k])@) is None,
        ({
            let names = written_names(raw.stages@);
            let io = written_types(raw.stages@);
            let edges = edges_of(raw.edges@, names);
            let types = type_names(raw.types@);
            forall|k: int|
                0 <= k < edges.len() ==> {
                    let e = #[trigger] edges[k];
                    &&& has_name(names, e.0)
                    &&& has_name(names, e.1)
                    &&& io[last_place(names, e.0)].1 == io[last_place(names, e.1)].0
                    &&& types.len() > 0 ==> has_name(types, io[last_place(names, e.0)].1)
                }
        }),
        raw.deploy.this_host matches Some(h) ==> is_node(raw.nodes@, h@),
        raw.deploy.ingress is Some || is_native(raw.source),
        is_native(raw.source) ==> raw.source->0.src_exists,
        raw.source is Some && raw.source->0.src is None ==> raw.source->0.kind is Some,
        raw.sink matches Some(s) ==> s.src_exists,
        raw.deploy.event_format matches Some(f) ==> f@ == "json"@ || f@ == "binary"@ || f@
            == "epico-binary"@,
    ensures
        new_fault(raw, dir) is None,
{
    let names = written_names(raw.stages@);
    let io = written_types(raw.stages@);
    let edges = edges_of(raw.edges@, names);
    let types = type_names(raw.types@);
    let sf = stage_faults(raw.stages@, raw.nodes@, dir);
    assert forall|k: int| 0 <= k < sf.len() implies #[trigger] sf[k] is None by {
        assert(is_sound_stage(raw, k));
        assert(sf[k] == stage_fault(raw.stages@[k], raw.nodes@, dir));
    }
    lemma_none(sf);
    let ff = edge_form_faults(raw.edges@);
    assert forall|k: int| 0 <= k < ff.len() implies #[trigger] ff[k] is None by {
        assert(ff[k] == edge_form_fault(raw.edges@[k]@));
    }
    lemma_none(ff);
    let ef = edge_end_faults(edges, names);
    assert forall|k: int| 0 <= k < ef.len() implies #[trigger] ef[k] is None by {
        assert(ef[k] == edge_end_fault(edges[k], names));
    }
    lemma_none(ef);
    let tf = edge_type_faults(edges, names, io, types);
    assert forall|k: int| 0 <= k < tf.len() implies #[trigger] tf[k] is None by {
        assert(tf[k] == edge_type_fault(edges[k], names, io, types));
    }
    lemma_none(tf);
}

/// Law: a path that begins at the root is taken as it is; any other one begins in the
/// directory of the description.
pub proof fn law_paths_begin_at_the_description(dir: Seq<char>, rel: Seq<char>)
    ensures
        rel.len() > 0 && rel[0] == '/' ==> path_from(dir, rel) == rel,
        rel.len() > 0 && rel[0] != '/' ==> dir.is_prefix_of(path_from(dir, rel)),
        path_from(dir, rel).len() >= rel.len(),
        path_from(dir, rel).skip(path_from(dir, rel).len() - rel.len()) == rel,
{
    let p = path_from(dir, rel);
    assert(p.skip(p.len() - rel.len()) =~= rel);
    if rel.len() > 0 && rel[0] != '/' {
        assert(dir =~= p.take(dir.len() as int));
    }
}

/// Law: a pipeline in the older form keeps its stages, with their components and limits.
pub proof fn law_older_stages_are_as_declared(
    p: PipelineSpec,
    raw: OldFormat,
    dir: Seq<char>,
    i: int,
)
    requires
        is_old_spec(p, raw, dir),
        0 <= i < raw.pipeline@.len(),
    ensures
        p.stages@.len() == raw.pipeline@.len(),
        p.stages@[i].name@ == raw.pipeline@[i].name@,
        p.stages@[i].scaling.min_replicas == raw.pipeline@[i].slo.min_replicas,
        p.stages@[i].scaling.max_replicas == raw.pipeline@[i].slo.max_replicas,
        is_declared(p.stages@[i].scaling.p99_ms, raw.pipeline@[i].slo.p99_ms, "50"@),
        is_declared(p.stages@[i].scaling.queue_up, raw.pipeline@[i].slo.queue_up, "50"@),
        is_declared(p.stages@[i].scaling.queue_down, raw.pipeline@[i].slo.queue_down, "0"@),
        is_declared(p.stages@[i].scaling.cooldown_up_s, raw.pipeline@[i].slo.cooldown_up_s, "0.1"@),
        is_declared(
            p.stages@[i].scaling.cooldown_down_s,
            raw.pipeline@[i].slo.cooldown_down_s,
            "5"@,
        ),
        raw.pipeline@[i].wasm is Some,
        p.stages@[i].source matches StageSource::PrebuiltWasm(q) && q@ == path_from(
            dir,
            raw.pipeline@[i].wasm->0@,
        ),
        p.port_base == lowest_port(raw.dispatchers@),
{
    assert(is_old_stage(p.stages@[i], raw.pipeline@[i], dir));
}

/// Law: an older pipeline is accepted just where it has stages and each has a component.
pub proof fn law_older_pipelines_need_components(raw: OldFormat)
    ensures
        old_fault(raw) is None <==> raw.pipeline@.len() > 0 && forall|i: int|
            0 <= i < raw.pipeline@.len() ==> (#[trigger] raw.pipeline@[i]).wasm is Some,
{
    let f = old_stage_faults(raw.pipeline@);
    if forall|i: int| 0 <= i < raw.pipeline@.len() ==> (#[trigger] raw.pipeline@[i]).wasm is Some {
        assert forall|k: int| 0 <= k < f.len() implies #[trigger] f[k] is None by {
            assert(raw.pipeline@[k].wasm is Some);
        }
        lemma_none(f);
    }
    if first_fault(f) is None {
        assert forall|i: int| 0 <= i < raw.pipeline@.len() implies (
        #[trigger] raw.pipeline@[i]).wasm is Some by {
            lemma_no_fault(f, i);
            assert(f[i] == old_stage_fault(raw.pipeline@[i]));
        }
    }
}

/// The port is one of a dispatcher's.
pub open spec fn is_port_of(d: OldDispatcher, port: u16) -> bool {
    port == d.ctrl_port || port == d.push_port || port == d.pull_port
}

/// Law: the lowest port is a port of one of the dispatchers, and none has a lower one.
pub proof fn law_the_lowest_port_is_the_lowest(ds: Seq<OldDispatcher>)
    requires
        ds.len() > 0,
    ensures
        exists|i: int| 0 <= i < ds.len() && is_port_of(#[trigger] ds[i], lowest_port(ds)),
        forall|i: int, port: u16|
            0 <= i < ds.len() && #[trigger] is_port_of(ds[i], port) ==> lowest_port(ds) <= port,
    decreases ds.len(),
{
    let n = ds.len() - 1;
    let rest = ds.drop_last();
    if n > 0 {
        law_the_lowest_port_is_the_lowest(rest);
        let k = choose|i: int| 0 <= i < rest.len() && is_port_of(#[trigger] rest[i], lowest_port(rest));
        assert(rest[k] == ds[k]);
        if lowest_port(ds) == lowest_port(rest) {
            assert(is_port_of(ds[k], lowest_port(ds)));
        } else {
            assert(is_port_of(ds[n], lowest_port(ds)));
        }
        assert forall|i: int, port: u16|
            0 <= i < ds.len() && #[trigger] is_port_of(ds[i], port) implies lowest_port(ds)
            <= port by {
            if i < n {
                assert(is_port_of(rest[i], port));
            }
        }
    } else {
        assert(is_port_of(ds[0], lowest_port(ds)));
    }
}

} // verus!
