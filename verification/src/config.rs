//! Runtime configuration and the topology it declares.
//!
//! The edges are the one source of truth on who feeds whom. The order of the
//! stages matters only where no edge is declared: it then stands for a linear
//! chain.

use vstd::prelude::*;
use crate::numtext::{concat, decimal, decimal_text, flat, views};
use crate::text::{quoted, quoted_text, replace_char, replaced};

verus! {

/// Scaling knobs of a stage. Quantities that need not be whole are given in
/// thousandths of their unit.
#[derive(Clone, Copy, Debug, PartialEq, Eq, Structural)]
pub struct StageSlo {
    pub p99_us: Option<i64>,
    pub max_replicas: usize,
    pub min_replicas: usize,
    pub queue_up_milli: Option<i64>,
    pub queue_down_milli: Option<i64>,
    pub replica_capacity_milli_eps: Option<i64>,
    pub cooldown_up_ms: Option<i64>,
    pub cooldown_down_ms: Option<i64>,
    pub calm_window_milli: Option<i64>,
}

/// One logical stage that runs inside a fused one.
#[derive(Clone, Debug)]
pub struct FusedHalf {
    /// The name the stage goes by in the telemetry.
    pub name: String,
    /// Where its component is, unless it is in the usual place.
    pub wasm: Option<String>,
}

#[derive(Clone, Debug)]
pub struct PipelineStage {
    pub name: String,
    pub input: String,
    /// The single output of older configurations.
    pub output: Option<String>,
    /// Where the stage sends to, one entry per out-edge in the order of their
    /// declaration. A stage without out-edges sends to the collector.
    pub outputs: Vec<String>,
    pub wasm: Option<String>,
    pub binary: Option<String>,
    pub slo: StageSlo,
    /// The node that runs the stage.
    pub placement: String,
    /// The logical stages that each worker runs back to back. Empty for an
    /// ordinary stage.
    pub fused_from: Vec<FusedHalf>,
}

#[derive(Clone, Debug)]
pub struct DispatcherConfig {
    pub name: String,
    pub ctrl_port: u16,
    pub push_port: Option<u16>,
    pub pull_port: Option<u16>,
    /// Where the dispatcher takes events in, instead of the port.
    pub push_uri: Option<String>,
    /// Events a worker may have in flight.
    pub credit_window: u32,
    /// Events packed into one message to a worker.
    pub batch_events: usize,
    pub placement: String,
}

#[derive(Clone, Debug)]
pub struct NodeConfig {
    pub name: String,
    pub host: String,
    pub force_tcp: bool,
}

/// One directed edge of the pipeline, by stage name.
#[derive(Clone, Debug)]
pub struct EdgeSpec {
    pub from: String,
    pub to: String,
}

/// One scheduled morph. Exactly one of the three is to be given.
#[derive(Clone, Debug)]
pub struct MorphSpec {
    /// Milliseconds after the start.
    pub at_ms: i64,
    /// The two stages to fuse.
    pub fuse: Option<Vec<String>>,
    /// The fused stage to split.
    pub split: Option<String>,
    /// The stage to redeploy unchanged.
    pub identity: Option<String>,
}

#[derive(Clone, Debug)]
pub struct Config {
    pub pipeline: Vec<PipelineStage>,
    pub dispatchers: Vec<DispatcherConfig>,
    pub edges: Vec<EdgeSpec>,
    /// Where stages without out-edges send to.
    pub collector: Option<String>,
    /// The node this agent stands for.
    pub this_host: String,
    pub nodes: Vec<NodeConfig>,
    /// How often resources are sampled; never, if zero.
    pub resource_sample_interval_ms: u64,
    /// When components are compiled: `aot`, `jit` or `startup`.
    pub compile_mode: String,
    /// How events are encoded between the stages.
    pub event_format: String,
    /// How events are encoded by the source.
    pub source_format: String,
    /// Whether a source on this host comes in through a `socket` or is taken
    /// `inprocess`.
    pub ingress_mode: String,
    /// How many threads pump the source in.
    pub source_threads: Option<usize>,
    /// The transport between stages on this host: `zmq`, `mpmc` or `spsc`.
    pub edge_impl: String,
    /// Slots of a shared ring.
    pub edge_cap: usize,
    /// Slots of each ring of a mesh.
    pub spsc_ring_cap: usize,
    /// The pairs of stages that may be fused while the pipeline runs.
    pub fusible: Vec<Vec<String>>,
    pub morphs: Vec<MorphSpec>,
}

pub fn default_placement() -> (s: String)
    ensures
        s@ == "local"@,
{
    "local".to_owned()
}

pub fn default_credit_window() -> (n: u32)
    ensures
        n == 1,
{
    1
}

pub fn default_batch_events() -> (n: usize)
    ensures
        n == 1,
{
    1
}

pub fn default_source_format() -> (s: String)
    ensures
        s@ == "binary"@,
{
    "binary".to_owned()
}

pub fn default_ingress_mode() -> (s: String)
    ensures
        s@ == "socket"@,
{
    "socket".to_owned()
}

pub fn default_edge_impl() -> (s: String)
    ensures
        s@ == "zmq"@,
{
    "zmq".to_owned()
}

pub fn default_edge_cap() -> (n: usize)
    ensures
        n == 1024,
{
    1024
}

pub fn default_spsc_ring_cap() -> (n: usize)
    ensures
        n == 64,
{
    64
}

pub fn default_resource_sample_interval_ms() -> (n: u64)
    ensures
        n == 1000,
{
    1000
}

pub fn default_compile_mode() -> (s: String)
    ensures
        s@ == "startup"@,
{
    "startup".to_owned()
}

pub fn default_event_format() -> (s: String)
    ensures
        s@ == "json"@,
{
    "json".to_owned()
}

impl Default for Config {
    /// A configuration in which nothing is declared.
    fn default() -> (c: Config)
        ensures
            c.pipeline@.len() == 0,
            c.dispatchers@.len() == 0,
            c.edges@.len() == 0,
            c.collector is None,
            c.this_host@ == "local"@,
            c.nodes@.len() == 0,
            c.resource_sample_interval_ms == 1000,
            c.compile_mode@ == "startup"@,
            c.event_format@ == "json"@,
            c.source_format@ == "binary"@,
            c.ingress_mode@ == "socket"@,
            c.source_threads is None,
            c.edge_impl@ == "zmq"@,
            c.edge_cap == 1024,
            c.spsc_ring_cap == 64,
            c.fusible@.len() == 0,
            c.morphs@.len() == 0,
    {
        Config {
            pipeline: Vec::new(),
            dispatchers: Vec::new(),
            edges: Vec::new(),
            collector: None,
            this_host: default_placement(),
            nodes: Vec::new(),
            resource_sample_interval_ms: default_resource_sample_interval_ms(),
            compile_mode: default_compile_mode(),
            event_format: default_event_format(),
            source_format: default_source_format(),
            ingress_mode: default_ingress_mode(),
            source_threads: None,
            edge_impl: default_edge_impl(),
            edge_cap: default_edge_cap(),
            spsc_ring_cap: default_spsc_ring_cap(),
            fusible: Vec::new(),
            morphs: Vec::new(),
        }
    }
}

/// The text of an optional string.
pub open spec fn opt_text(s: Option<String>) -> Option<Seq<char>> {
    match s {
        None => None,
        Some(t) => Some(t@),
    }
}

/// The texts of some strings.
pub open spec fn texts(v: Seq<String>) -> Seq<Seq<char>> {
    v.map_values(|s: String| s@)
}

/// An edge by the names of its ends.
pub type EdgeNames = (Seq<char>, Seq<char>);

/// A stage's part in the topology.
pub struct StageLinks {
    pub name: Seq<char>,
    pub output: Option<Seq<char>>,
    pub outputs: Seq<Seq<char>>,
}

/// What a configuration says of the topology.
pub struct Topology {
    pub stages: Seq<StageLinks>,
    pub edges: Seq<EdgeNames>,
    pub collector: Option<Seq<char>>,
}

pub open spec fn stage_links(s: PipelineStage) -> StageLinks {
    StageLinks { name: s.name@, output: opt_text(s.output), outputs: texts(s.outputs@) }
}

pub open spec fn edge_names(edges: Seq<EdgeSpec>) -> Seq<EdgeNames> {
    edges.map_values(|e: EdgeSpec| (e.from@, e.to@))
}

/// The chain in which each stage feeds the next.
pub open spec fn chain(stages: Seq<StageLinks>) -> Seq<EdgeNames> {
    Seq::new(
        if stages.len() == 0 {
            0
        } else {
            (stages.len() - 1) as nat
        },
        |i: int| (stages[i].name, stages[i + 1].name),
    )
}

/// A stage whose outputs are filled in from the single one.
pub open spec fn with_outputs(s: StageLinks) -> StageLinks {
    match s.output {
        Some(o) if s.outputs.len() == 0 => StageLinks { outputs: seq![o], ..s },
        _ => s,
    }
}

/// The topology with what is implied spelled out: without edges the stages are
/// a chain, without a collector the last stage's single output is it, and
/// without outputs a stage has its single one.
pub open spec fn normalized(t: Topology) -> Topology {
    Topology {
        stages: t.stages.map_values(|s: StageLinks| with_outputs(s)),
        edges: if t.edges.len() == 0 {
            chain(t.stages)
        } else {
            t.edges
        },
        collector: if t.collector is None && t.stages.len() > 0 {
            t.stages.last().output
        } else {
            t.collector
        },
    }
}

/// Law: spelling a topology out a second time changes nothing.
pub proof fn law_normalize_is_idempotent(t: Topology)
    ensures
        normalized(normalized(t)) == normalized(t),
{
    let once = normalized(t);
    let twice = normalized(once);
    assert forall|i: int| 0 <= i < once.stages.len() implies twice.stages[i]
        == once.stages[i] by {
        assert(once.stages[i] == with_outputs(t.stages[i]));
    }
    assert(twice.stages =~= once.stages);
    assert(chain(once.stages) =~= chain(t.stages));
    assert(twice.edges =~= once.edges);
}

/// The stages that feed `stage`, in the order of the edges.
pub open spec fn preds_of(edges: Seq<EdgeNames>, stage: Seq<char>) -> Seq<Seq<char>>
    decreases edges.len(),
{
    if edges.len() == 0 {
        Seq::empty()
    } else if edges.last().1 == stage {
        preds_of(edges.drop_last(), stage).push(edges.last().0)
    } else {
        preds_of(edges.drop_last(), stage)
    }
}

/// The stages that `stage` feeds, in the order of the edges.
pub open spec fn succs_of(edges: Seq<EdgeNames>, stage: Seq<char>) -> Seq<Seq<char>>
    decreases edges.len(),
{
    if edges.len() == 0 {
        Seq::empty()
    } else if edges.last().0 == stage {
        succs_of(edges.drop_last(), stage).push(edges.last().1)
    } else {
        succs_of(edges.drop_last(), stage)
    }
}

/// The places of the stages that nothing feeds.
pub open spec fn source_places(stages: Seq<Seq<char>>, edges: Seq<EdgeNames>) -> Seq<int>
    decreases stages.len(),
{
    if stages.len() == 0 {
        Seq::empty()
    } else if preds_of(edges, stages.last()).len() == 0 {
        source_places(stages.drop_last(), edges).push(stages.len() - 1)
    } else {
        source_places(stages.drop_last(), edges)
    }
}

/// The places of the stages that feed nothing.
pub open spec fn sink_places(stages: Seq<Seq<char>>, edges: Seq<EdgeNames>) -> Seq<int>
    decreases stages.len(),
{
    if stages.len() == 0 {
        Seq::empty()
    } else if succs_of(edges, stages.last()).len() == 0 {
        sink_places(stages.drop_last(), edges).push(stages.len() - 1)
    } else {
        sink_places(stages.drop_last(), edges)
    }
}

/// The names of the stages.
pub open spec fn stage_names(pipeline: Seq<PipelineStage>) -> Seq<Seq<char>> {
    pipeline.map_values(|s: PipelineStage| s.name@)
}

/// Stage `i` is the first of that name.
pub open spec fn is_first_named(names: Seq<Seq<char>>, name: Seq<char>, i: int) -> bool {
    &&& 0 <= i < names.len()
    &&& names[i] == name
    &&& forall|j: int| 0 <= j < i ==> names[j] != name
}

/// There is a stage of that name.
pub open spec fn has_name(names: Seq<Seq<char>>, name: Seq<char>) -> bool {
    exists|i: int| 0 <= i < names.len() && #[trigger] names[i] == name
}

/// The place of the first stage of that name.
pub open spec fn place_of(names: Seq<Seq<char>>, name: Seq<char>) -> int {
    choose|i: int| is_first_named(names, name, i)
}

impl Config {
    /// What the configuration says of the topology.
    pub open spec fn topology(&self) -> Topology {
        Topology {
            stages: self.pipeline@.map_values(|s: PipelineStage| stage_links(s)),
            edges: edge_names(self.edges@),
            collector: opt_text(self.collector),
        }
    }

    pub open spec fn edge_list(&self) -> Seq<EdgeNames> {
        edge_names(self.edges@)
    }

    pub open spec fn names(&self) -> Seq<Seq<char>> {
        stage_names(self.pipeline@)
    }

    /// Everything but the topology is as it was.
    pub open spec fn same_but_topology(&self, was: Config) -> bool {
        &&& self.dispatchers == was.dispatchers
        &&& self.this_host == was.this_host
        &&& self.nodes == was.nodes
        &&& self.resource_sample_interval_ms == was.resource_sample_interval_ms
        &&& self.compile_mode == was.compile_mode
        &&& self.event_format == was.event_format
        &&& self.source_format == was.source_format
        &&& self.ingress_mode == was.ingress_mode
        &&& self.source_threads == was.source_threads
        &&& self.edge_impl == was.edge_impl
        &&& self.edge_cap == was.edge_cap
        &&& self.spsc_ring_cap == was.spsc_ring_cap
        &&& self.fusible == was.fusible
        &&& self.morphs == was.morphs
        &&& self.pipeline@.len() == was.pipeline@.len()
        &&& forall|i: int|
            0 <= i < was.pipeline@.len() ==> {
                let now = #[trigger] self.pipeline@[i];
                let earlier = was.pipeline@[i];
                &&& now.name == earlier.name
                &&& now.input == earlier.input
                &&& now.output == earlier.output
                &&& now.wasm == earlier.wasm
                &&& now.binary == earlier.binary
                &&& now.slo == earlier.slo
                &&& now.placement == earlier.placement
                &&& now.fused_from == earlier.fused_from
            }
    }

    /// Spells the topology out, so that everything else can rely on edges and
    /// outputs being there.
    pub fn normalize_topology(&mut self)
        ensures
            final(self).topology() == normalized(old(self).topology()),
            final(self).same_but_topology(*old(self)),
    {
        let ghost want = normalized(old(self).topology());
        let n: usize = self.pipeline.len();
        if self.edges.len() == 0 {
            let mut i: usize = 0;
            while i + 1 < n
                invariant
                    n == self.pipeline@.len(),
                    i <= n,
                    n > 0 ==> i < n,
                    self.pipeline == old(self).pipeline,
                    self.collector == old(self).collector,
                    self.same_but_topology(*old(self)),
                    self.edges@.len() == i,
                    forall|k: int|
                        0 <= k < i ==> (#[trigger] self.edges@[k]).from@ == self.pipeline@[k].name@
                            && self.edges@[k].to@ == self.pipeline@[k + 1].name@,
                decreases n - i,
            {
                let from = self.pipeline[i].name.clone();
                let to = self.pipeline[i + 1].name.clone();
                self.edges.push(EdgeSpec { from, to });
                i = i + 1;
            }
        }
        assert(edge_names(self.edges@) =~= want.edges);
        if self.collector.is_none() && n > 0 {
            self.collector = match &self.pipeline[n - 1].output {
                None => None,
                Some(o) => Some(o.clone()),
            };
        }
        assert(opt_text(self.collector) == want.collector);
        let mut i: usize = 0;
        while i < n
            invariant
                i <= n == self.pipeline@.len() == old(self).pipeline@.len(),
                want == normalized(old(self).topology()),
                edge_names(self.edges@) == want.edges,
                opt_text(self.collector) == want.collector,
                self.same_but_topology(*old(self)),
                forall|k: int|
                    0 <= k < i ==> stage_links(#[trigger] self.pipeline@[k]) == with_outputs(
                        stage_links(old(self).pipeline@[k]),
                    ),
                forall|k: int|
                    i <= k < n ==> #[trigger] self.pipeline@[k] == old(self).pipeline@[k],
            decreases n - i,
        {
            if self.pipeline[i].outputs.len() == 0 {
                let output = match &self.pipeline[i].output {
                    None => None,
                    Some(o) => Some(o.clone()),
                };
                match output {
                    None => {},
                    Some(o) => {
                        self.pipeline[i].outputs.push(o);
                        assert(texts(self.pipeline@[i as int].outputs@) =~= seq![o@]);
                    },
                }
            }
            i = i + 1;
        }
        assert(self.topology().stages =~= want.stages);
    }

    /// The stages that feed `stage`.
    pub fn preds(&self, stage: &String) -> (out: Vec<&String>)
        ensures
            out@.map_values(|s: &String| s@) == preds_of(self.edge_list(), stage@),
    {
        let mut out: Vec<&String> = Vec::new();
        let mut i: usize = 0;
        let ghost f = |s: &String| s@;
        assert(out@.map_values(f) =~= preds_of(self.edge_list().take(0), stage@));
        while i < self.edges.len()
            invariant
                i <= self.edges@.len(),
                f == (|s: &String| s@),
                out@.map_values(f) == preds_of(self.edge_list().take(i as int), stage@),
            decreases self.edges@.len() - i,
        {
            assert(self.edge_list().take(i + 1).drop_last() =~= self.edge_list().take(i as int));
            if self.edges[i].to == *stage {
                let ghost was = out@;
                out.push(&self.edges[i].from);
                assert(out@.map_values(f) =~= was.map_values(f).push(self.edges@[i as int].from@));
            }
            i = i + 1;
        }
        assert(self.edge_list().take(i as int) =~= self.edge_list());
        out
    }

    /// The stages that `stage` feeds, in the order of their declaration.
    pub fn succs(&self, stage: &String) -> (out: Vec<&String>)
        ensures
            out@.map_values(|s: &String| s@) == succs_of(self.edge_list(), stage@),
    {
        let mut out: Vec<&String> = Vec::new();
        let mut i: usize = 0;
        let ghost f = |s: &String| s@;
        assert(out@.map_values(f) =~= succs_of(self.edge_list().take(0), stage@));
        while i < self.edges.len()
            invariant
                i <= self.edges@.len(),
                f == (|s: &String| s@),
                out@.map_values(f) == succs_of(self.edge_list().take(i as int), stage@),
            decreases self.edges@.len() - i,
        {
            assert(self.edge_list().take(i + 1).drop_last() =~= self.edge_list().take(i as int));
            if self.edges[i].from == *stage {
                let ghost was = out@;
                out.push(&self.edges[i].to);
                assert(out@.map_values(f) =~= was.map_values(f).push(self.edges@[i as int].to@));
            }
            i = i + 1;
        }
        assert(self.edge_list().take(i as int) =~= self.edge_list());
        out
    }

    /// How many branches come in: what the stage's end-of-stream barrier waits
    /// for.
    pub fn in_degree(&self, stage: &String) -> (n: usize)
        ensures
            n == preds_of(self.edge_list(), stage@).len(),
    {
        let out = self.preds(stage);
        let ghost f = |s: &String| s@;
        assert(out@.map_values(f).len() == out@.len());
        out.len()
    }

    /// How many branches go out.
    pub fn out_degree(&self, stage: &String) -> (n: usize)
        ensures
            n == succs_of(self.edge_list(), stage@).len(),
    {
        let out = self.succs(stage);
        let ghost f = |s: &String| s@;
        assert(out@.map_values(f).len() == out@.len());
        out.len()
    }

    /// The entry stages.
    pub fn sources(&self) -> (out: Vec<&PipelineStage>)
        ensures
            out@.len() == source_places(self.names(), self.edge_list()).len(),
            forall|k: int|
                0 <= k < out@.len() ==> *(#[trigger] out@[k]) == self.pipeline@[source_places(
                    self.names(),
                    self.edge_list(),
                )[k]],
    {
        let mut out: Vec<&PipelineStage> = Vec::new();
        let mut i: usize = 0;
        assert(self.names().take(0) =~= Seq::<Seq<char>>::empty());
        while i < self.pipeline.len()
            invariant
                i <= self.pipeline@.len(),
                out@.len() == source_places(self.names().take(i as int), self.edge_list()).len(),
                forall|k: int|
                    0 <= k < out@.len() ==> *(#[trigger] out@[k]) == self.pipeline@[source_places(
                        self.names().take(i as int),
                        self.edge_list(),
                    )[k]],
            decreases self.pipeline@.len() - i,
        {
            assert(self.names().take(i + 1).drop_last() =~= self.names().take(i as int));
            if self.in_degree(&self.pipeline[i].name) == 0 {
                out.push(&self.pipeline[i]);
            }
            i = i + 1;
        }
        assert(self.names().take(i as int) =~= self.names());
        out
    }

    /// The terminal stages, which all send to the collector.
    pub fn sinks(&self) -> (out: Vec<&PipelineStage>)
        ensures
            out@.len() == sink_places(self.names(), self.edge_list()).len(),
            forall|k: int|
                0 <= k < out@.len() ==> *(#[trigger] out@[k]) == self.pipeline@[sink_places(
                    self.names(),
                    self.edge_list(),
                )[k]],
    {
        let mut out: Vec<&PipelineStage> = Vec::new();
        let mut i: usize = 0;
        assert(self.names().take(0) =~= Seq::<Seq<char>>::empty());
        while i < self.pipeline.len()
            invariant
                i <= self.pipeline@.len(),
                out@.len() == sink_places(self.names().take(i as int), self.edge_list()).len(),
                forall|k: int|
                    0 <= k < out@.len() ==> *(#[trigger] out@[k]) == self.pipeline@[sink_places(
                        self.names().take(i as int),
                        self.edge_list(),
                    )[k]],
            decreases self.pipeline@.len() - i,
        {
            assert(self.names().take(i + 1).drop_last() =~= self.names().take(i as int));
            if self.out_degree(&self.pipeline[i].name) == 0 {
                out.push(&self.pipeline[i]);
            }
            i = i + 1;
        }
        assert(self.names().take(i as int) =~= self.names());
        out
    }

    /// The stage of that name.
    pub fn stage(&self, name: &String) -> (s: Option<&PipelineStage>)
        ensures
            s is Some <==> has_name(self.names(), name@),
            s matches Some(found) ==> *found == self.pipeline@[place_of(self.names(), name@)]
                && is_first_named(self.names(), name@, place_of(self.names(), name@)),
    {
        let mut i: usize = 0;
        while i < self.pipeline.len()
            invariant
                i <= self.pipeline@.len(),
                forall|k: int| 0 <= k < i ==> #[trigger] self.names()[k] != name@,
            decreases self.pipeline@.len() - i,
        {
            assert(self.names()[i as int] == self.pipeline@[i as int].name@);
            if self.pipeline[i].name == *name {
                proof {
                    assert(is_first_named(self.names(), name@, i as int));
                    let there = place_of(self.names(), name@);
                    assert(is_first_named(self.names(), name@, there));
                    assert(there == i);
                }
                return Some(&self.pipeline[i]);
            }
            i = i + 1;
        }
        None
    }
}

/// True when the agent that stands for `this_host` is to launch the stage.
pub fn stage_owned_by(stage: &PipelineStage, this_host: &String) -> (b: bool)
    ensures
        b == (stage.placement@ == this_host@),
{
    stage.placement == *this_host
}

/// The name of the stage that two others are fused into.
pub open spec fn fused_name(a: Seq<char>, b: Seq<char>) -> Seq<char> {
    a + "_"@ + b
}

/// The name of the stage that two others are fused into, which a later split
/// can refer to.
pub fn fused_stage_name(a: &str, b: &str) -> (out: String)
    ensures
        out@ == fused_name(a@, b@),
{
    let mut out = a.to_owned();
    out.append("_");
    out.append(b);
    out
}

/// Where a stage's component is, unless the configuration says otherwise.
pub open spec fn usual_wasm_path(name: Seq<char>) -> Seq<char> {
    "./functions-rs/target/wasm32-wasip2/release/"@ + replaced(name, '-', '_') + ".wasm"@
}

pub fn default_wasm_path(stage_name: &str) -> (out: String)
    ensures
        out@ == usual_wasm_path(stage_name@),
{
    let function_name = replace_char(stage_name, '-', '_');
    let mut out = "./functions-rs/target/wasm32-wasip2/release/".to_owned();
    out.append(function_name.as_str());
    out.append(".wasm");
    out
}

/// The endpoint to take events from, for a declared address.
pub fn make_pull_endpoint(uri: &str) -> (out: String)
    ensures
        out@ == uri@,
{
    uri.to_owned()
}

/// The endpoint to send events to, for a declared address.
pub fn make_push_endpoint(uri: &str) -> (out: String)
    ensures
        out@ == uri@,
{
    uri.to_owned()
}

/// A logical stage and where its component is.
pub open spec fn half_of(name: Seq<char>, wasm: Option<String>) -> (Seq<char>, Seq<char>) {
    (
        name,
        match wasm {
            None => usual_wasm_path(name),
            Some(w) => w@,
        },
    )
}

/// The logical stages a stage runs, in the order they are called.
pub open spec fn halves_of(s: PipelineStage) -> Seq<(Seq<char>, Seq<char>)> {
    if s.fused_from@.len() == 0 {
        seq![half_of(s.name@, s.wasm)]
    } else {
        s.fused_from@.map_values(|h: FusedHalf| half_of(h.name@, h.wasm))
    }
}

/// The texts of some pairs of strings.
pub open spec fn pair_texts(v: Seq<(String, String)>) -> Seq<(Seq<char>, Seq<char>)> {
    v.map_values(|p: (String, String)| (p.0@, p.1@))
}

fn wasm_or_usual(name: &String, wasm: &Option<String>) -> (out: String)
    ensures
        out@ == half_of(name@, *wasm).1,
{
    match wasm {
        None => default_wasm_path(name.as_str()),
        Some(w) => w.clone(),
    }
}

impl PipelineStage {
    /// What a worker of the stage runs: one logical stage, or the several that
    /// are fused, each with where its component is.
    pub fn halves(&self) -> (out: Vec<(String, String)>)
        ensures
            pair_texts(out@) == halves_of(*self),
    {
        let mut out: Vec<(String, String)> = Vec::new();
        if self.fused_from.len() == 0 {
            out.push((self.name.clone(), wasm_or_usual(&self.name, &self.wasm)));
            assert(pair_texts(out@) =~= halves_of(*self));
            return out;
        }
        let mut i: usize = 0;
        while i < self.fused_from.len()
            invariant
                i <= self.fused_from@.len(),
                self.fused_from@.len() > 0,
                out@.len() == i,
                forall|k: int|
                    0 <= k < i ==> ((#[trigger] out@[k]).0@, out@[k].1@) == half_of(
                        self.fused_from@[k].name@,
                        self.fused_from@[k].wasm,
                    ),
            decreases self.fused_from@.len() - i,
        {
            let name = &self.fused_from[i].name;
            out.push((name.clone(), wasm_or_usual(name, &self.fused_from[i].wasm)));
            i = i + 1;
        }
        assert(pair_texts(out@) =~= halves_of(*self));
        out
    }

    /// The stage runs more than one logical stage.
    pub fn is_fused(&self) -> (b: bool)
        ensures
            b == (self.fused_from@.len() > 1),
    {
        self.fused_from.len() > 1
    }
}

/// A declared pair that names two stages there are.
pub open spec fn good_pair(pair: Seq<Seq<char>>, names: Seq<Seq<char>>) -> bool {
    pair.len() == 2 && has_name(names, pair[0]) && has_name(names, pair[1])
}

/// The declared pairs that may be fused. What is not a pair of known stages is
/// left out.
pub open spec fn fusible_of(declared: Seq<Seq<Seq<char>>>, names: Seq<Seq<char>>) -> Seq<EdgeNames>
    decreases declared.len(),
{
    if declared.len() == 0 {
        Seq::empty()
    } else if good_pair(declared.last(), names) {
        fusible_of(declared.drop_last(), names).push((declared.last()[0], declared.last()[1]))
    } else {
        fusible_of(declared.drop_last(), names)
    }
}

/// The larger of two numbers.
pub open spec fn max_nat(a: nat, b: nat) -> nat {
    if a < b {
        b
    } else {
        a
    }
}

/// Why two stages may not be fused.
pub enum FusionBar {
    /// One of them does not run on this host.
    NotHere,
    /// Neither feeds the other as asked.
    NoEdge,
    /// The first feeds others too, so many in all.
    FanOut(nat),
    /// The second is fed by others too, so many in all.
    FanIn(nat),
    /// They run on different nodes.
    Apart(Seq<char>, Seq<char>),
    /// One of them is a fused stage already.
    AlreadyFused,
    /// The pair was not declared, so no room was made for it.
    Undeclared,
}

/// The reason in words.
pub open spec fn bar_text(bar: FusionBar, a: Seq<char>, b: Seq<char>) -> Seq<char> {
    match bar {
        FusionBar::NotHere => flat(
            seq!["stage "@, quoted(a), " or "@, quoted(b), " is not on this host"@],
        ),
        FusionBar::NoEdge => flat(seq!["no edge "@, a, " -> "@, b, " in the topology"@]),
        FusionBar::FanOut(n) => flat(
            seq!["out-degree("@, a, ") = "@, decimal(n), " != 1 (fan-out)"@],
        ),
        FusionBar::FanIn(n) => flat(
            seq!["in-degree("@, b, ") = "@, decimal(n), " != 1 (fan-in)"@],
        ),
        FusionBar::Apart(pa, pb) => flat(
            seq![
                a,
                " is placed on "@,
                quoted(pa),
                " but "@,
                b,
                " on "@,
                quoted(pb),
                "; fusion is intra-process"@,
            ],
        ),
        FusionBar::AlreadyFused => flat(seq![a, " or "@, b, " is already a fused stage"@]),
        FusionBar::Undeclared => flat(
            seq![
                "["@,
                a,
                ", "@,
                b,
                "] is not declared under `fusible:`; index spaces were not widened for it at boot"@,
            ],
        ),
    }
}

impl Config {
    /// The pairs that are declared fusible, as they are written.
    pub open spec fn declared(&self) -> Seq<Seq<Seq<char>>> {
        self.fusible@.map_values(|p: Vec<String>| texts(p@))
    }

    /// The pairs that may be fused.
    pub open spec fn fusible_names(&self) -> Seq<EdgeNames> {
        fusible_of(self.declared(), self.names())
    }

    /// The most replicas a stage may have; none, where there is no such stage.
    pub open spec fn max_of(&self, name: Seq<char>) -> nat {
        if has_name(self.names(), name) {
            self.pipeline@[place_of(self.names(), name)].slo.max_replicas as nat
        } else {
            0
        }
    }

    /// The replica counts of every fusible pair can be added.
    pub open spec fn replicas_add_up(&self) -> bool {
        forall|i: int|
            0 <= i < self.fusible_names().len() ==> self.max_of((#[trigger] self.fusible_names()[i]).0)
                + self.max_of(self.fusible_names()[i].1) <= usize::MAX
    }

    /// How wide the input side of a stage's edge has to be: for the stage, and
    /// for every fused stage that may take its place there.
    pub open spec fn consumers_for(&self, pairs: Seq<EdgeNames>, stage: Seq<char>) -> nat
        decreases pairs.len(),
    {
        if pairs.len() == 0 {
            self.max_of(stage)
        } else {
            let rest = self.consumers_for(pairs.drop_last(), stage);
            let p = pairs.last();
            if p.0 == stage {
                max_nat(rest, self.max_of(p.0) + self.max_of(p.1))
            } else {
                rest
            }
        }
    }

    /// How wide the output side of a stage's edges has to be.
    pub open spec fn producers_for(&self, pairs: Seq<EdgeNames>, stage: Seq<char>) -> nat
        decreases pairs.len(),
    {
        if pairs.len() == 0 {
            self.max_of(stage)
        } else {
            let rest = self.producers_for(pairs.drop_last(), stage);
            let p = pairs.last();
            if p.1 == stage {
                max_nat(rest, self.max_of(p.0) + self.max_of(p.1))
            } else {
                rest
            }
        }
    }

    /// Why the edge from `a` to `b` may not be contracted: the first reason
    /// there is, if any. A contraction keeps the meaning of a pipeline only on
    /// a stretch without branches, and only inside one process.
    pub open spec fn fusion_bar(&self, a: Seq<char>, b: Seq<char>) -> Option<FusionBar> {
        if !has_name(self.names(), a) || !has_name(self.names(), b) {
            Some(FusionBar::NotHere)
        } else {
            let sa = self.pipeline@[place_of(self.names(), a)];
            let sb = self.pipeline@[place_of(self.names(), b)];
            let outs = succs_of(self.edge_list(), a).len();
            let ins = preds_of(self.edge_list(), b).len();
            if !self.edge_list().contains((a, b)) {
                Some(FusionBar::NoEdge)
            } else if outs != 1 {
                Some(FusionBar::FanOut(outs))
            } else if ins != 1 {
                Some(FusionBar::FanIn(ins))
            } else if sa.placement@ != sb.placement@ {
                Some(FusionBar::Apart(sa.placement@, sb.placement@))
            } else if sa.fused_from@.len() > 1 || sb.fused_from@.len() > 1 {
                Some(FusionBar::AlreadyFused)
            } else if !self.fusible_names().contains((a, b)) {
                Some(FusionBar::Undeclared)
            } else {
                None
            }
        }
    }

    /// The declared pairs of stages there are.
    pub fn fusible_pairs(&self) -> (out: Vec<(String, String)>)
        ensures
            pair_texts(out@) == self.fusible_names(),
    {
        let mut out: Vec<(String, String)> = Vec::new();
        let mut i: usize = 0;
        assert(pair_texts(out@) =~= fusible_of(self.declared().take(0), self.names()));
        while i < self.fusible.len()
            invariant
                i <= self.fusible@.len(),
                pair_texts(out@) == fusible_of(self.declared().take(i as int), self.names()),
            decreases self.fusible@.len() - i,
        {
            assert(self.declared().take(i + 1).drop_last() =~= self.declared().take(i as int));
            assert(self.declared().take(i + 1).last() == texts(self.fusible@[i as int]@));
            let pair = &self.fusible[i];
            if pair.len() == 2 && self.stage(&pair[0]).is_some() && self.stage(
                &pair[1],
            ).is_some() {
                let ghost was = out@;
                out.push((pair[0].clone(), pair[1].clone()));
                assert(pair_texts(out@) =~= pair_texts(was).push((pair@[0]@, pair@[1]@)));
            }
            i = i + 1;
        }
        assert(self.declared().take(i as int) =~= self.declared());
        out
    }

    fn own_max(&self, name: &String) -> (n: usize)
        ensures
            n == self.max_of(name@),
    {
        match self.stage(name) {
            None => 0,
            Some(s) => s.slo.max_replicas,
        }
    }

    /// The most replicas the fused stage may have: a fused worker holds its
    /// thread for both halves, so it is the sum.
    pub fn fused_max_replicas(&self, a: &String, b: &String) -> (n: Option<usize>)
        requires
            self.max_of(a@) + self.max_of(b@) <= usize::MAX,
        ensures
            n is Some <==> has_name(self.names(), a@) && has_name(self.names(), b@),
            n matches Some(m) ==> m == self.max_of(a@) + self.max_of(b@),
    {
        match (self.stage(a), self.stage(b)) {
            (Some(sa), Some(sb)) => Some(sa.slo.max_replicas + sb.slo.max_replicas),
            _ => None,
        }
    }

    /// How many consumers the edge into `stage` is to have room for.
    pub fn max_consumers(&self, stage: &String) -> (n: usize)
        requires
            self.replicas_add_up(),
        ensures
            n == self.consumers_for(self.fusible_names(), stage@),
    {
        let pairs = self.fusible_pairs();
        let ghost names = self.fusible_names();
        let mut n: usize = self.own_max(stage);
        let mut i: usize = 0;
        assert(names.take(0) =~= Seq::<EdgeNames>::empty());
        while i < pairs.len()
            invariant
                i <= pairs@.len(),
                names == self.fusible_names(),
                pair_texts(pairs@) == names,
                self.replicas_add_up(),
                n == self.consumers_for(names.take(i as int), stage@),
            decreases pairs@.len() - i,
        {
            assert(names.take(i + 1).drop_last() =~= names.take(i as int));
            assert(names[i as int] == (pairs@[i as int].0@, pairs@[i as int].1@));
            if pairs[i].0 == *stage {
                let sum: usize = self.own_max(&pairs[i].0) + self.own_max(&pairs[i].1);
                if n < sum {
                    n = sum;
                }
            }
            i = i + 1;
        }
        assert(names.take(i as int) =~= names);
        n
    }

    /// How many producers each edge out of `stage` is to have room for.
    pub fn max_producers(&self, stage: &String) -> (n: usize)
        requires
            self.replicas_add_up(),
        ensures
            n == self.producers_for(self.fusible_names(), stage@),
    {
        let pairs = self.fusible_pairs();
        let ghost names = self.fusible_names();
        let mut n: usize = self.own_max(stage);
        let mut i: usize = 0;
        assert(names.take(0) =~= Seq::<EdgeNames>::empty());
        while i < pairs.len()
            invariant
                i <= pairs@.len(),
                names == self.fusible_names(),
                pair_texts(pairs@) == names,
                self.replicas_add_up(),
                n == self.producers_for(names.take(i as int), stage@),
            decreases pairs@.len() - i,
        {
            assert(names.take(i + 1).drop_last() =~= names.take(i as int));
            assert(names[i as int] == (pairs@[i as int].0@, pairs@[i as int].1@));
            if pairs[i].1 == *stage {
                let sum: usize = self.own_max(&pairs[i].0) + self.own_max(&pairs[i].1);
                if n < sum {
                    n = sum;
                }
            }
            i = i + 1;
        }
        assert(names.take(i as int) =~= names);
        n
    }

    fn has_edge(&self, a: &String, b: &String) -> (found: bool)
        ensures
            found == self.edge_list().contains((a@, b@)),
    {
        let mut i: usize = 0;
        while i < self.edges.len()
            invariant
                i <= self.edges@.len(),
                forall|k: int| 0 <= k < i ==> #[trigger] self.edge_list()[k] != (a@, b@),
            decreases self.edges@.len() - i,
        {
            assert(self.edge_list()[i as int] == (
                self.edges@[i as int].from@,
                self.edges@[i as int].to@,
            ));
            if self.edges[i].from == *a && self.edges[i].to == *b {
                return true;
            }
            i = i + 1;
        }
        false
    }

    fn is_declared(&self, a: &String, b: &String) -> (found: bool)
        ensures
            found == self.fusible_names().contains((a@, b@)),
    {
        let pairs = self.fusible_pairs();
        let ghost names = self.fusible_names();
        let mut i: usize = 0;
        while i < pairs.len()
            invariant
                i <= pairs@.len(),
                names == self.fusible_names(),
                pair_texts(pairs@) == names,
                forall|k: int| 0 <= k < i ==> #[trigger] names[k] != (a@, b@),
            decreases pairs@.len() - i,
        {
            assert(names[i as int] == (pairs@[i as int].0@, pairs@[i as int].1@));
            if pairs[i].0 == *a && pairs[i].1 == *b {
                return true;
            }
            i = i + 1;
        }
        false
    }

    /// Why the edge from `a` to `b` may not be contracted, in words.
    pub fn fusion_illegal_reason(&self, a: &String, b: &String) -> (reason: Option<String>)
        ensures
            opt_text(reason) == match self.fusion_bar(a@, b@) {
                None => None,
                Some(bar) => Some(bar_text(bar, a@, b@)),
            },
    {
        let (sa, sb) = match (self.stage(a), self.stage(b)) {
            (Some(sa), Some(sb)) => (sa, sb),
            _ => {
                let qa = quoted_text(a.as_str());
                let qb = quoted_text(b.as_str());
                let parts = vec!["stage ", qa.as_str(), " or ", qb.as_str(), " is not on this host"];
                assert(views(parts@) =~= seq![
                    "stage "@,
                    quoted(a@),
                    " or "@,
                    quoted(b@),
                    " is not on this host"@,
                ]);
                return Some(concat(&parts));
            },
        };
        if !self.has_edge(a, b) {
            let parts = vec!["no edge ", a.as_str(), " -> ", b.as_str(), " in the topology"];
            assert(views(parts@) =~= seq!["no edge "@, a@, " -> "@, b@, " in the topology"@]);
            return Some(concat(&parts));
        }
        let outs: usize = self.out_degree(a);
        if outs != 1 {
            let n = decimal_text(outs as u128);
            let parts = vec!["out-degree(", a.as_str(), ") = ", n.as_str(), " != 1 (fan-out)"];
            assert(views(parts@) =~= seq![
                "out-degree("@,
                a@,
                ") = "@,
                decimal(outs as nat),
                " != 1 (fan-out)"@,
            ]);
            return Some(concat(&parts));
        }
        let ins: usize = self.in_degree(b);
        if ins != 1 {
            let n = decimal_text(ins as u128);
            let parts = vec!["in-degree(", b.as_str(), ") = ", n.as_str(), " != 1 (fan-in)"];
            assert(views(parts@) =~= seq![
                "in-degree("@,
                b@,
                ") = "@,
                decimal(ins as nat),
                " != 1 (fan-in)"@,
            ]);
            return Some(concat(&parts));
        }
        if sa.placement != sb.placement {
            let pa = quoted_text(sa.placement.as_str());
            let pb = quoted_text(sb.placement.as_str());
            let parts = vec![
                a.as_str(),
                " is placed on ",
                pa.as_str(),
                " but ",
                b.as_str(),
                " on ",
                pb.as_str(),
                "; fusion is intra-process",
            ];
            assert(views(parts@) =~= seq![
                a@,
                " is placed on "@,
                quoted(sa.placement@),
                " but "@,
                b@,
                " on "@,
                quoted(sb.placement@),
                "; fusion is intra-process"@,
            ]);
            return Some(concat(&parts));
        }
        if sa.is_fused() || sb.is_fused() {
            let parts = vec![a.as_str(), " or ", b.as_str(), " is already a fused stage"];
            assert(views(parts@) =~= seq![a@, " or "@, b@, " is already a fused stage"@]);
            return Some(concat(&parts));
        }
        if !self.is_declared(a, b) {
            let parts = vec![
                "[",
                a.as_str(),
                ", ",
                b.as_str(),
                "] is not declared under `fusible:`; index spaces were not widened for it at boot",
            ];
            assert(views(parts@) =~= seq![
                "["@,
                a@,
                ", "@,
                b@,
                "] is not declared under `fusible:`; index spaces were not widened for it at boot"@,
            ]);
            return Some(concat(&parts));
        }
        None
    }
}

/// Law: a declared pair has room made for it. Every replica of the stage it may
/// be fused into has an index of its own on the edge the first stage reads and
/// on the edges the second one writes.
pub proof fn law_declared_pairs_are_widened(c: Config, a: Seq<char>, b: Seq<char>)
    requires
        c.fusible_names().contains((a, b)),
    ensures
        c.consumers_for(c.fusible_names(), a) >= c.max_of(a) + c.max_of(b),
        c.producers_for(c.fusible_names(), b) >= c.max_of(a) + c.max_of(b),
        c.consumers_for(c.fusible_names(), a) >= c.max_of(a),
{
    lemma_widened(c, c.fusible_names(), a, b);
    lemma_at_least_own(c, c.fusible_names(), a);
}

proof fn lemma_widened(c: Config, pairs: Seq<EdgeNames>, a: Seq<char>, b: Seq<char>)
    requires
        pairs.contains((a, b)),
    ensures
        c.consumers_for(pairs, a) >= c.max_of(a) + c.max_of(b),
        c.producers_for(pairs, b) >= c.max_of(a) + c.max_of(b),
    decreases pairs.len(),
{
    if pairs.last() != (a, b) {
        let i = choose|i: int| 0 <= i < pairs.len() && pairs[i] == (a, b);
        assert(pairs.drop_last()[i] == (a, b));
        lemma_widened(c, pairs.drop_last(), a, b);
    }
}

proof fn lemma_at_least_own(c: Config, pairs: Seq<EdgeNames>, a: Seq<char>)
    ensures
        c.consumers_for(pairs, a) >= c.max_of(a),
    decreases pairs.len(),
{
    if pairs.len() > 0 {
        lemma_at_least_own(c, pairs.drop_last(), a);
    }
}

/// Law: a stage that begins no declared pair keeps its own width on its input,
/// and one that ends none keeps it on its outputs.
pub proof fn law_other_stages_keep_their_width(c: Config, pairs: Seq<EdgeNames>, stage: Seq<char>)
    ensures
        (forall|i: int| 0 <= i < pairs.len() ==> (#[trigger] pairs[i]).0 != stage)
            ==> c.consumers_for(pairs, stage) == c.max_of(stage),
        (forall|i: int| 0 <= i < pairs.len() ==> (#[trigger] pairs[i]).1 != stage)
            ==> c.producers_for(pairs, stage) == c.max_of(stage),
    decreases pairs.len(),
{
    if pairs.len() > 0 {
        let rest = pairs.drop_last();
        law_other_stages_keep_their_width(c, rest, stage);
        assert(pairs.last() == pairs[pairs.len() - 1]);
        assert forall|i: int| 0 <= i < rest.len() implies (#[trigger] rest[i]) == pairs[i] by {}
    }
}

/// Law: two stages that may be fused stand on a stretch of the pipeline without
/// branches.
pub proof fn law_fusion_keeps_the_shape(c: Config, a: Seq<char>, b: Seq<char>)
    requires
        c.fusion_bar(a, b) is None,
    ensures
        c.edge_list().contains((a, b)),
        succs_of(c.edge_list(), a) == seq![b],
        preds_of(c.edge_list(), b) == seq![a],
{
    lemma_edge_shows(c.edge_list(), a, b);
    assert(succs_of(c.edge_list(), a) =~= seq![b]);
    assert(preds_of(c.edge_list(), b) =~= seq![a]);
}

proof fn lemma_edge_shows(edges: Seq<EdgeNames>, a: Seq<char>, b: Seq<char>)
    requires
        edges.contains((a, b)),
    ensures
        succs_of(edges, a).contains(b),
        preds_of(edges, b).contains(a),
    decreases edges.len(),
{
    let rest = edges.drop_last();
    if edges.last() != (a, b) {
        let i = choose|i: int| 0 <= i < edges.len() && edges[i] == (a, b);
        assert(rest[i] == (a, b));
        lemma_edge_shows(rest, a, b);
        let j = choose|j: int| 0 <= j < succs_of(rest, a).len() && succs_of(rest, a)[j] == b;
        assert(succs_of(edges, a)[j] == b);
        let k = choose|k: int| 0 <= k < preds_of(rest, b).len() && preds_of(rest, b)[k] == a;
        assert(preds_of(edges, b)[k] == a);
    } else {
        assert(succs_of(edges, a).last() == b);
        assert(preds_of(edges, b).last() == a);
    }
}

} // verus!
