//! The configuration of the agent, written from a pipeline.

use vstd::prelude::*;
use crate::config::{has_name, pair_texts};
use crate::numtext::{decimal, decimal_text, parse_number, parsed};
use crate::pipeline_spec::{
    implied_edges, is_last_named, last_place, node_names, spec_names, NodeSpec, PipelineSpec,
};
use crate::text::{
    has_prefix, rsplit_once, same, split_at_last, strip_prefix, strip_prefixes, without_prefixes,
};

verus! {

/// The port of a network address.
pub open spec fn port_of(uri: Seq<char>) -> Option<nat> {
    if has_prefix(uri, "tcp://"@) {
        match split_at_last(uri.skip("tcp://"@.len() as int), ':') {
            None => None,
            Some(p) => parsed(p.1, u16::MAX as nat),
        }
    } else {
        None
    }
}

/// The port of an address `tcp://host:port`; none for any other.
pub fn port_from_tcp_uri(uri: &str) -> (port: Option<u16>)
    ensures
        match port {
            None => port_of(uri@) is None,
            Some(p) => port_of(uri@) == Some(p as nat),
        },
{
    let rest = match strip_prefix(uri, "tcp://") {
        None => {
            return None;
        },
        Some(r) => r,
    };
    match rsplit_once(rest.as_str(), ':') {
        None => None,
        Some(p) => match parse_number(p.1.as_str(), 65535) {
            None => None,
            Some(n) => Some(n as u16),
        },
    }
}

/// The name that is written for the dispatcher of a stage: that of the stage, with
/// every `fn-` in front of it taken off.
pub open spec fn dispatcher_of(stage: Seq<char>) -> Seq<char> {
    "dispatch-"@ + without_prefixes(stage, "fn-"@)
}

/// The name that is written for the dispatcher of a stage.
pub fn dispatcher_name(stage: &str) -> (out: String)
    ensures
        out@ == dispatcher_of(stage@),
{
    proof {
        reveal_strlit("fn-");
    }
    let bare = strip_prefixes(stage, "fn-");
    let mut out = "dispatch-".to_owned();
    out.append(bare.as_str());
    out
}

/// An endpoint of a dispatcher on the same host.
pub open spec fn ipc_address(dispatcher: Seq<char>, end: Seq<char>) -> Seq<char> {
    "ipc:///tmp/epico-"@ + dispatcher + "-"@ + end
}

/// An endpoint across the network.
pub open spec fn tcp_address(host: Seq<char>, port: nat) -> Seq<char> {
    "tcp://"@ + host + ":"@ + decimal(port)
}

fn ipc_endpoint(dispatcher: &str, end: &str) -> (out: String)
    ensures
        out@ == ipc_address(dispatcher@, end@),
{
    let mut out = "ipc:///tmp/epico-".to_owned();
    out.append(dispatcher);
    out.append("-");
    out.append(end);
    out
}

fn tcp_endpoint(host: &str, port: u16) -> (out: String)
    ensures
        out@ == tcp_address(host@, port as nat),
{
    let digits = decimal_text(port as u128);
    let mut out = "tcp://".to_owned();
    out.append(host);
    out.append(":");
    out.append(digits.as_str());
    out
}

/// The node a stage is placed on.
pub open spec fn node_of(spec: PipelineSpec, i: int) -> NodeSpec {
    spec.nodes@[last_place(node_names(spec.nodes@), spec.stages@[i].placement@)]
}

/// The first of the three ports of a stage's dispatcher.
pub open spec fn push_port_of(spec: PipelineSpec, i: int) -> nat {
    (spec.port_base + 3 * i) as nat
}

/// The port at which a dispatcher takes events: for the first stage that of the
/// pipeline's entry, where it has one.
pub open spec fn entry_port(spec: PipelineSpec, i: int) -> nat {
    if i == 0 && port_of(spec.ingress@) is Some {
        port_of(spec.ingress@)->0
    } else {
        push_port_of(spec, i)
    }
}

/// Where the workers of a stage take events from: their own dispatcher, on
/// their own node.
pub open spec fn input_of(spec: PipelineSpec, i: int) -> Seq<char> {
    if node_of(spec, i).force_tcp {
        tcp_address(node_of(spec, i).host@, push_port_of(spec, i) + 1)
    } else {
        ipc_address(dispatcher_of(spec.stages@[i].name@), "pull"@)
    }
}

/// Where the workers of a stage send events: to the next dispatcher, over the
/// network where that is on another node, and from the last stage to the
/// collector.
pub open spec fn output_of(spec: PipelineSpec, i: int) -> Seq<char> {
    if i + 1 == spec.stages@.len() {
        spec.collector@
    } else {
        let mine = node_of(spec, i);
        let next = node_of(spec, i + 1);
        if mine.name@ == next.name@ && !mine.force_tcp && !next.force_tcp {
            ipc_address(dispatcher_of(spec.stages@[i + 1].name@), "push"@)
        } else {
            tcp_address(next.host@, push_port_of(spec, i + 1))
        }
    }
}

/// The entry of one dispatcher.
pub open spec fn dispatcher_entry(spec: PipelineSpec, i: int) -> Seq<char> {
    "  - name: "@ + dispatcher_of(spec.stages@[i].name@) + "\n    push_port: "@ + decimal(
        entry_port(spec, i),
    ) + "\n    pull_port: "@ + decimal(push_port_of(spec, i) + 1) + "\n    ctrl_port: "@ + decimal(
        push_port_of(spec, i) + 2,
    ) + "\n    placement: "@ + spec.stages@[i].placement@ + "\n    credit_window: "@ + decimal(
        spec.credit_window as nat,
    ) + "\n    batch_events: "@ + decimal(spec.batch_events as nat) + "\n"@ + (if i == 0 {
        "    push_uri: "@ + spec.ingress@ + "\n"@
    } else {
        Seq::empty()
    })
}

/// The entry of one stage.
pub open spec fn stage_entry(spec: PipelineSpec, wasm: Seq<char>, i: int) -> Seq<char> {
    let s = spec.stages@[i];
    "  - name: "@ + s.name@ + "\n    wasm: "@ + wasm + "\n    placement: "@ + s.placement@
        + "\n    input: "@ + input_of(spec, i) + "\n    output: "@ + output_of(spec, i)
        + "\n    slo:\n      p99_ms: "@ + s.scaling.p99_ms@ + "\n      min_replicas: "@ + decimal(
        s.scaling.min_replicas as nat,
    ) + "\n      max_replicas: "@ + decimal(s.scaling.max_replicas as nat)
        + "\n      queue_up: "@ + s.scaling.queue_up@ + "\n      queue_down: "@
        + s.scaling.queue_down@ + "\n      cooldown_up_s: "@ + s.scaling.cooldown_up_s@
        + "\n      cooldown_down_s: "@ + s.scaling.cooldown_down_s@ + "\n"@
}

pub open spec fn dispatcher_entries(spec: PipelineSpec, n: int) -> Seq<char>
    decreases n,
{
    if n <= 0 {
        "dispatchers:\n"@
    } else {
        dispatcher_entries(spec, n - 1) + dispatcher_entry(spec, n - 1)
    }
}

pub open spec fn stage_entries(
    spec: PipelineSpec,
    wasm: Seq<(Seq<char>, Seq<char>)>,
    n: int,
) -> Seq<char>
    decreases n,
{
    if n <= 0 {
        "pipeline:\n"@
    } else {
        stage_entries(spec, wasm, n - 1) + stage_entry(spec, wasm[n - 1].1, n - 1)
    }
}

/// The entry of one node.
pub open spec fn node_entry(n: NodeSpec) -> Seq<char> {
    "  - name: "@ + n.name@ + "\n    host: "@ + n.host@ + "\n    force_tcp: "@ + (if n.force_tcp {
        "true"@
    } else {
        "false"@
    }) + "\n"@
}

pub open spec fn node_entries(nodes: Seq<NodeSpec>) -> Seq<char>
    decreases nodes.len(),
{
    if nodes.len() == 0 {
        "nodes:\n"@
    } else {
        node_entries(nodes.drop_last()) + node_entry(nodes.last())
    }
}

/// A pipeline in which each stage feeds the next, and nothing else.
pub open spec fn is_linear(spec: PipelineSpec) -> bool {
    pair_texts(spec.edges@) == implied_edges(spec_names(spec.stages@))
}

/// Every stage is placed on a declared node, and there are ports for all.
pub open spec fn is_placeable(spec: PipelineSpec) -> bool {
    &&& forall|i: int|
        0 <= i < spec.stages@.len() ==> has_name(
            node_names(spec.nodes@),
            (#[trigger] spec.stages@[i]).placement@,
        )
    &&& spec.port_base + 3 * spec.stages@.len() <= 65536
}

/// The configuration of the agent.
pub open spec fn runtime_text(
    spec: PipelineSpec,
    wasm: Seq<(Seq<char>, Seq<char>)>,
    compile_mode: Option<Seq<char>>,
) -> Seq<char> {
    let n = spec.stages@.len() as int;
    RUNTIME_HEAD@ + spec.package@ + "\n\nthis_host: "@ + spec.this_host@ + "\ningress:   "@
        + spec.ingress@ + "\ncollector: "@ + spec.collector@
        + "\nresource_sample_interval_ms: "@ + decimal(spec.resource_sample_interval_ms as nat)
        + "\nevent_format: "@ + spec.event_format@ + "\nsource_format: "@ + spec.source_format@
        + "\ningress_mode: "@ + spec.ingress_mode@ + "\n"@ + (match spec.source_threads {
        None => Seq::empty(),
        Some(t) => "source_threads: "@ + decimal(t as nat) + "\n"@,
    }) + (match compile_mode {
        None => Seq::empty(),
        Some(m) => "compile_mode: "@ + m + "\n"@,
    }) + "\n"@ + node_entries(spec.nodes@) + "\n"@ + dispatcher_entries(spec, n) + "\n"@
        + stage_entries(spec, wasm, n)
}

/// The head of the configuration.
pub const RUNTIME_HEAD: &'static str = "# GENERATED by epico-cli from pipeline.yaml. Do not edit directly.\n# Source package: ";

/// Whether each stage feeds the next, and nothing else.
pub fn each_feeds_the_next(spec: &PipelineSpec) -> (b: bool)
    ensures
        b == is_linear(*spec),
{
    let ghost have = pair_texts(spec.edges@);
    let ghost want = implied_edges(spec_names(spec.stages@));
    let n: usize = spec.stages.len();
    let links: usize = if n == 0 {
        0
    } else {
        n - 1
    };
    if spec.edges.len() != links {
        assert(have.len() != want.len());
        return false;
    }
    let mut i: usize = 0;
    while i < spec.edges.len()
        invariant
            i <= spec.edges@.len(),
            n == spec.stages@.len(),
            spec.edges@.len() == links,
            n > 0 ==> links == n - 1,
            n == 0 ==> links == 0,
            have == pair_texts(spec.edges@),
            want == implied_edges(spec_names(spec.stages@)),
            have.len() == want.len(),
            forall|k: int| 0 <= k < i ==> #[trigger] have[k] == want[k],
        decreases spec.edges@.len() - i,
    {
        let e = &spec.edges[i];
        assert(have[i as int] == (e.0@, e.1@));
        assert(want[i as int] == (spec.stages@[i as int].name@, spec.stages@[i + 1].name@));
        if !same(e.0.as_str(), spec.stages[i].name.as_str()) || !same(
            e.1.as_str(),
            spec.stages[i + 1].name.as_str(),
        ) {
            return false;
        }
        i = i + 1;
    }
    assert(have =~= want);
    true
}

fn node_for(spec: &PipelineSpec, i: usize) -> (n: &NodeSpec)
    requires
        i < spec.stages@.len(),
        is_placeable(*spec),
    ensures
        *n == node_of(*spec, i as int),
{
    let placement = &spec.stages[i].placement;
    let ghost names = node_names(spec.nodes@);
    assert(has_name(names, placement@));
    let mut k: usize = spec.nodes.len();
    while k > 0
        invariant
            k <= spec.nodes@.len(),
            names == node_names(spec.nodes@),
            has_name(names, placement@),
            placement@ == spec.stages@[i as int].placement@,
            forall|j: int| k <= j < names.len() ==> #[trigger] names[j] != placement@,
        decreases k,
    {
        k = k - 1;
        assert(names[k as int] == spec.nodes@[k as int].name@);
        if same(spec.nodes[k].name.as_str(), placement.as_str()) {
            proof {
                assert(is_last_named(names, placement@, k as int));
                let c = last_place(names, placement@);
                assert(is_last_named(names, placement@, c));
                assert(c == k);
            }
            return &spec.nodes[k];
        }
    }
    proof {
        let j = choose|j: int| 0 <= j < names.len() && #[trigger] names[j] == placement@;
        assert(names[j] != placement@);
    }
    &spec.nodes[0]
}

fn write_dispatcher(spec: &PipelineSpec, i: usize) -> (out: String)
    requires
        i < spec.stages@.len(),
        is_placeable(*spec),
    ensures
        out@ == dispatcher_entry(*spec, i as int),
{
    let push: u16 = spec.port_base + (i as u16) * 3;
    let entry: u16 = if i == 0 {
        match port_from_tcp_uri(spec.ingress.as_str()) {
            None => push,
            Some(p) => p,
        }
    } else {
        push
    };
    let stage = &spec.stages[i];
    let name = dispatcher_name(stage.name.as_str());
    let entry_text = decimal_text(entry as u128);
    let pull_text = decimal_text((push + 1) as u128);
    let ctrl_text = decimal_text((push + 2) as u128);
    let window = decimal_text(spec.credit_window as u128);
    let batch = decimal_text(spec.batch_events as u128);
    let mut out = "  - name: ".to_owned();
    out.append(name.as_str());
    out.append("\n    push_port: ");
    out.append(entry_text.as_str());
    out.append("\n    pull_port: ");
    out.append(pull_text.as_str());
    out.append("\n    ctrl_port: ");
    out.append(ctrl_text.as_str());
    out.append("\n    placement: ");
    out.append(stage.placement.as_str());
    out.append("\n    credit_window: ");
    out.append(window.as_str());
    out.append("\n    batch_events: ");
    out.append(batch.as_str());
    out.append("\n");
    let ghost before = out@;
    if i == 0 {
        let mut uri = "    push_uri: ".to_owned();
        uri.append(spec.ingress.as_str());
        uri.append("\n");
        out.append(uri.as_str());
    } else {
        assert(before + Seq::<char>::empty() =~= before);
    }
    out
}

fn write_stage(spec: &PipelineSpec, wasm: &str, i: usize) -> (out: String)
    requires
        i < spec.stages@.len(),
        is_placeable(*spec),
    ensures
        out@ == stage_entry(*spec, wasm@, i as int),
{
    let stage = &spec.stages[i];
    let push: u16 = spec.port_base + (i as u16) * 3;
    let mine = node_for(spec, i);
    let input = if mine.force_tcp {
        tcp_endpoint(mine.host.as_str(), push + 1)
    } else {
        let name = dispatcher_name(stage.name.as_str());
        ipc_endpoint(name.as_str(), "pull")
    };
    let output = if i + 1 == spec.stages.len() {
        spec.collector.clone()
    } else {
        let next = node_for(spec, i + 1);
        if same(mine.name.as_str(), next.name.as_str()) && !mine.force_tcp && !next.force_tcp {
            let name = dispatcher_name(spec.stages[i + 1].name.as_str());
            ipc_endpoint(name.as_str(), "push")
        } else {
            tcp_endpoint(next.host.as_str(), push + 3)
        }
    };
    let sc = &stage.scaling;
    let min = decimal_text(sc.min_replicas as u128);
    let max = decimal_text(sc.max_replicas as u128);
    let mut out = "  - name: ".to_owned();
    out.append(stage.name.as_str());
    out.append("\n    wasm: ");
    out.append(wasm);
    out.append("\n    placement: ");
    out.append(stage.placement.as_str());
    out.append("\n    input: ");
    out.append(input.as_str());
    out.append("\n    output: ");
    out.append(output.as_str());
    out.append("\n    slo:\n      p99_ms: ");
    out.append(sc.p99_ms.as_str());
    out.append("\n      min_replicas: ");
    out.append(min.as_str());
    out.append("\n      max_replicas: ");
    out.append(max.as_str());
    out.append("\n      queue_up: ");
    out.append(sc.queue_up.as_str());
    out.append("\n      queue_down: ");
    out.append(sc.queue_down.as_str());
    out.append("\n      cooldown_up_s: ");
    out.append(sc.cooldown_up_s.as_str());
    out.append("\n      cooldown_down_s: ");
    out.append(sc.cooldown_down_s.as_str());
    out.append("\n");
    out
}

fn write_nodes(nodes: &Vec<NodeSpec>) -> (out: String)
    ensures
        out@ == node_entries(nodes@),
{
    let mut out = "nodes:\n".to_owned();
    let mut i: usize = 0;
    assert(nodes@.take(0) =~= Seq::<NodeSpec>::empty());
    while i < nodes.len()
        invariant
            i <= nodes@.len(),
            out@ == node_entries(nodes@.take(i as int)),
        decreases nodes@.len() - i,
    {
        assert(nodes@.take(i + 1).drop_last() =~= nodes@.take(i as int));
        let n = &nodes[i];
        let mut entry = "  - name: ".to_owned();
        entry.append(n.name.as_str());
        entry.append("\n    host: ");
        entry.append(n.host.as_str());
        entry.append("\n    force_tcp: ");
        if n.force_tcp {
            entry.append("true");
        } else {
            entry.append("false");
        }
        entry.append("\n");
        out.append(entry.as_str());
        i = i + 1;
    }
    assert(nodes@.take(i as int) =~= nodes@);
    out
}

/// Writes the configuration of the agent. Ports are given out from the
/// pipeline's base, three to a dispatcher. A pipeline that is no chain is
/// refused: the result is none.
#[verifier::rlimit(40)]
pub fn write_runtime_yaml(
    spec: &PipelineSpec,
    wasm_by_stage: &Vec<(String, String)>,
    compile_mode: Option<&str>,
) -> (r: Option<String>)
    requires
        is_placeable(*spec),
        wasm_by_stage@.len() == spec.stages@.len(),
    ensures
        r is Some <==> is_linear(*spec),
        r matches Some(out) ==> out@ == runtime_text(
            *spec,
            pair_texts(wasm_by_stage@),
            match compile_mode {
                None => None,
                Some(m) => Some(m@),
            },
        ),
{
    if !each_feeds_the_next(spec) {
        return None;
    }
    let ghost wasm = pair_texts(wasm_by_stage@);
    let nodes = write_nodes(&spec.nodes);
    let mut dispatchers = "dispatchers:\n".to_owned();
    let mut pipeline = "pipeline:\n".to_owned();
    let n: usize = spec.stages.len();
    let mut i: usize = 0;
    while i < n
        invariant
            i <= n == spec.stages@.len(),
            wasm_by_stage@.len() == n,
            is_placeable(*spec),
            wasm == pair_texts(wasm_by_stage@),
            dispatchers@ == dispatcher_entries(*spec, i as int),
            pipeline@ == stage_entries(*spec, wasm, i as int),
        decreases n - i,
    {
        let d = write_dispatcher(spec, i);
        dispatchers.append(d.as_str());
        assert(wasm[i as int].1 == wasm_by_stage@[i as int].1@);
        let s = write_stage(spec, wasm_by_stage[i].1.as_str(), i);
        pipeline.append(s.as_str());
        i = i + 1;
    }
    let interval = decimal_text(spec.resource_sample_interval_ms as u128);
    let mut threads = String::new();
    match spec.source_threads {
        None => {
            assert(threads@ =~= Seq::<char>::empty());
        },
        Some(t) => {
            let digits = decimal_text(t as u128);
            threads = "source_threads: ".to_owned();
            threads.append(digits.as_str());
            threads.append("\n");
        },
    }
    let mut mode = String::new();
    match compile_mode {
        None => {
            assert(mode@ =~= Seq::<char>::empty());
        },
        Some(m) => {
            mode = "compile_mode: ".to_owned();
            mode.append(m);
            mode.append("\n");
        },
    }
    let mut out = RUNTIME_HEAD.to_owned();
    out.append(spec.package.as_str());
    out.append("\n\nthis_host: ");
    out.append(spec.this_host.as_str());
    out.append("\ningress:   ");
    out.append(spec.ingress.as_str());
    out.append("\ncollector: ");
    out.append(spec.collector.as_str());
    out.append("\nresource_sample_interval_ms: ");
    out.append(interval.as_str());
    out.append("\nevent_format: ");
    out.append(spec.event_format.as_str());
    out.append("\nsource_format: ");
    out.append(spec.source_format.as_str());
    out.append("\ningress_mode: ");
    out.append(spec.ingress_mode.as_str());
    out.append("\n");
    out.append(threads.as_str());
    out.append(mode.as_str());
    out.append("\n");
    out.append(nodes.as_str());
    out.append("\n");
    out.append(dispatchers.as_str());
    out.append("\n");
    out.append(pipeline.as_str());
    Some(out)
}

/// Law: no two dispatchers are given the same port, and none of the ports that
/// are given out is beyond the last there is.
pub proof fn law_ports_are_apart(spec: PipelineSpec, i: int, j: int, a: int, b: int)
    requires
        is_placeable(spec),
        0 <= i < spec.stages@.len(),
        0 <= j < spec.stages@.len(),
        0 <= a < 3,
        0 <= b < 3,
        i != j || a != b,
    ensures
        push_port_of(spec, i) + a != push_port_of(spec, j) + b,
        push_port_of(spec, i) + a <= 65535,
{
}

/// Law: a stage sends to the very endpoint at which the next stage's dispatcher
/// takes events, wherever the two share a node that does not force the network.
pub proof fn law_neighbours_meet(spec: PipelineSpec, i: int)
    requires
        is_placeable(spec),
        0 <= i,
        i + 1 < spec.stages@.len(),
        spec.stages@[i].placement@ == spec.stages@[i + 1].placement@,
        !node_of(spec, i).force_tcp,
    ensures
        output_of(spec, i) == ipc_address(dispatcher_of(spec.stages@[i + 1].name@), "push"@),
        input_of(spec, i + 1) == ipc_address(dispatcher_of(spec.stages@[i + 1].name@), "pull"@),
{
}

} // verus!
