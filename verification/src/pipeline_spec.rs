//! What a pipeline file says, in either of its two formats.

use vstd::prelude::*;
use crate::config::{default_ingress_mode, default_source_format, has_name, pair_texts};
use crate::numtext::{concat, decimal, decimal_text, flat, views};
use crate::ordered::{is_ordered, is_ordering_of, put_in_order, value_of};
use crate::text::{
    chars_of, contains_text, occurs_at, quoted, quoted_text, same, string_of, trim, trimmed,
};

verus! {

/// A value of a pipeline file, as far as its text matters.
#[derive(Debug)]
pub enum Yaml {
    Null,
    Bool(bool),
    /// A number, as it is written.
    Number(String),
    Text(String),
    List(Vec<Yaml>),
    Table(Vec<(Yaml, Yaml)>),
    Tagged(Box<Yaml>),
}

/// A named physical placement.
#[derive(Debug)]
pub struct NodeSpec {
    pub name: String,
    /// Address, where an edge crosses hosts.
    pub host: String,
    /// Use the network even between stages of the same host.
    pub force_tcp: bool,
}

/// The fields of a type, each with the type it has.
#[derive(Debug)]
pub struct TypeDef {
    pub fields: Vec<(String, String)>,
}

/// A source or sink that is compiled into the agent.
#[derive(Debug)]
pub struct BoundaryNode {
    pub placement: String,
    pub src: String,
}

/// An event source that is started beside the agent.
#[derive(Debug)]
pub struct SourceSpec {
    pub kind: String,
    pub params: Vec<(String, Yaml)>,
}

/// Where a stage's component comes from.
#[derive(Debug)]
pub enum StageSource {
    /// A source file to be built.
    RustFile(String),
    /// A component that is there already.
    PrebuiltWasm(String),
}

/// How far a stage scales. The fractional settings are kept as they are written.
#[derive(Debug)]
pub struct ScalingSpec {
    pub min_replicas: usize,
    pub max_replicas: usize,
    pub queue_up: String,
    pub queue_down: String,
    pub cooldown_up_s: String,
    pub cooldown_down_s: String,
    pub p99_ms: String,
}

/// One stage of a pipeline.
#[derive(Debug)]
pub struct StageSpec {
    pub name: String,
    pub input_type: String,
    pub output_type: String,
    pub source: StageSource,
    pub scaling: ScalingSpec,
    pub placement: String,
    pub deps: Vec<(String, Yaml)>,
}

/// A pipeline, whichever format it was written in.
#[derive(Debug)]
pub struct PipelineSpec {
    pub package: String,
    pub nodes: Vec<NodeSpec>,
    pub this_host: String,
    pub stages: Vec<StageSpec>,
    pub edges: Vec<(String, String)>,
    pub ingress: String,
    pub collector: String,
    pub port_base: u16,
    pub host: String,
    /// The declared types.
    pub types: Vec<(String, TypeDef)>,
    pub source: Option<SourceSpec>,
    pub source_node: Option<BoundaryNode>,
    pub sink_node: Option<BoundaryNode>,
    pub resource_sample_interval_ms: u64,
    pub credit_window: u32,
    pub batch_events: usize,
    pub event_format: String,
    pub source_format: String,
    pub ingress_mode: String,
    pub source_threads: Option<usize>,
}

impl PipelineSpec {
    /// What has names is in the order of the names, each of them once: the types,
    /// the fields of each, what each stage depends on, and the parameters of the
    /// source.
    pub open spec fn wf(&self) -> bool {
        &&& are_ordered_types(self.types@)
        &&& forall|i: int| 0 <= i < self.stages@.len() ==> is_ordered((#[trigger] self.stages@[i]).deps@)
        &&& self.source matches Some(s) ==> is_ordered(s.params@)
    }
}

/// The types are in the order of their names, and so are the fields of each.
pub open spec fn are_ordered_types(types: Seq<(String, TypeDef)>) -> bool {
    &&& is_ordered(types)
    &&& forall|i: int| 0 <= i < types.len() ==> is_ordered((#[trigger] types[i]).1.fields@)
}

/// A stage as it is written in the format with `stages:`.
#[derive(Debug)]
pub struct NewStage {
    pub name: String,
    pub input_type: String,
    pub output_type: String,
    pub src: Option<String>,
    /// Whether the file that `src` names is there.
    pub src_exists: bool,
    pub wasm: Option<String>,
    pub scaling: NewScaling,
    pub placement: Option<String>,
    pub deps: Vec<(String, Yaml)>,
}

/// The scaling of a stage as it is written.
#[derive(Debug)]
pub struct NewScaling {
    pub min: Option<usize>,
    pub max: Option<usize>,
    pub queue_up: Option<String>,
    pub queue_down: Option<String>,
    pub cooldown_up_s: Option<String>,
    pub cooldown_down_s: Option<String>,
    pub p99_ms: Option<String>,
}

/// The deployment as it is written.
#[derive(Debug)]
pub struct DeploySpec {
    pub collector: Option<String>,
    pub ingress: Option<String>,
    pub port_base: Option<u16>,
    pub host: Option<String>,
    pub this_host: Option<String>,
    pub resource_sample_interval_ms: Option<u64>,
    pub credit_window: Option<u32>,
    pub batch_events: Option<usize>,
    pub event_format: Option<String>,
    pub source_format: Option<String>,
    pub ingress_mode: Option<String>,
    pub source_threads: Option<usize>,
}

/// A source as it is written: one to be started, or one to be compiled in.
#[derive(Debug)]
pub struct RawSource {
    pub kind: Option<String>,
    pub src: Option<String>,
    pub src_exists: bool,
    pub placement: Option<String>,
    pub params: Vec<(String, Yaml)>,
}

/// A sink as it is written.
#[derive(Debug)]
pub struct RawBoundary {
    pub src: String,
    pub src_exists: bool,
    pub placement: Option<String>,
}

/// A pipeline as it is written in the format with `stages:`.
#[derive(Debug)]
pub struct NewFormat {
    pub package: Option<String>,
    pub types: Vec<(String, TypeDef)>,
    pub nodes: Vec<NodeSpec>,
    pub stages: Vec<NewStage>,
    pub edges: Vec<String>,
    pub deploy: DeploySpec,
    pub source: Option<RawSource>,
    pub sink: Option<RawBoundary>,
}

/// A stage as it is written in the format with `pipeline:`.
#[derive(Debug)]
pub struct OldStage {
    pub name: String,
    pub wasm: Option<String>,
    pub slo: OldSlo,
}

/// The scaling of a stage in the format with `pipeline:`.
#[derive(Debug)]
pub struct OldSlo {
    pub p99_ms: Option<String>,
    pub max_replicas: usize,
    pub min_replicas: usize,
    pub queue_up: Option<String>,
    pub queue_down: Option<String>,
    pub cooldown_up_s: Option<String>,
    pub cooldown_down_s: Option<String>,
}

/// The ports of a dispatcher in the format with `pipeline:`.
#[derive(Clone, Copy, Debug, PartialEq, Eq, Structural)]
pub struct OldDispatcher {
    pub push_port: u16,
    pub pull_port: u16,
    pub ctrl_port: u16,
}

/// A pipeline as it is written in the format with `pipeline:`.
#[derive(Debug)]
pub struct OldFormat {
    pub pipeline: Vec<OldStage>,
    pub dispatchers: Vec<OldDispatcher>,
    /// The port of each sink.
    pub sinks: Vec<u16>,
}

/// Why a pipeline is refused.
#[derive(Debug)]
pub enum SpecError {
    NoStages,
    BothSources(String),
    SrcMissing(String, String),
    NeitherSource(String),
    UnknownPlacement(String, String),
    BadEdge(String),
    UnknownEdgeSource(String),
    UnknownEdgeTarget(String),
    TypeMismatch { from: String, to: String, produced: String, consumed: String },
    UndeclaredOut(String, String),
    UndeclaredIn(String, String),
    UnknownHost(String),
    NoIngress,
    SourceMissing(String),
    SourceIncomplete,
    SinkMissing(String),
    BadEventFormat(String),
    WasmMissing(String),
}

/// Why a pipeline is refused, as a value.
pub enum SpecFault {
    NoStages,
    BothSources(Seq<char>),
    SrcMissing(Seq<char>, Seq<char>),
    NeitherSource(Seq<char>),
    UnknownPlacement(Seq<char>, Seq<char>),
    BadEdge(Seq<char>),
    UnknownEdgeSource(Seq<char>),
    UnknownEdgeTarget(Seq<char>),
    TypeMismatch { from: Seq<char>, to: Seq<char>, produced: Seq<char>, consumed: Seq<char> },
    UndeclaredOut(Seq<char>, Seq<char>),
    UndeclaredIn(Seq<char>, Seq<char>),
    UnknownHost(Seq<char>),
    NoIngress,
    SourceMissing(Seq<char>),
    SourceIncomplete,
    SinkMissing(Seq<char>),
    BadEventFormat(Seq<char>),
    WasmMissing(Seq<char>),
}

impl View for SpecError {
    type V = SpecFault;

    open spec fn view(&self) -> SpecFault {
        match *self {
            SpecError::NoStages => SpecFault::NoStages,
            SpecError::BothSources(s) => SpecFault::BothSources(s@),
            SpecError::SrcMissing(s, p) => SpecFault::SrcMissing(s@, p@),
            SpecError::NeitherSource(s) => SpecFault::NeitherSource(s@),
            SpecError::UnknownPlacement(s, p) => SpecFault::UnknownPlacement(s@, p@),
            SpecError::BadEdge(e) => SpecFault::BadEdge(e@),
            SpecError::UnknownEdgeSource(s) => SpecFault::UnknownEdgeSource(s@),
            SpecError::UnknownEdgeTarget(s) => SpecFault::UnknownEdgeTarget(s@),
            SpecError::TypeMismatch { from, to, produced, consumed } => SpecFault::TypeMismatch {
                from: from@,
                to: to@,
                produced: produced@,
                consumed: consumed@,
            },
            SpecError::UndeclaredOut(s, t) => SpecFault::UndeclaredOut(s@, t@),
            SpecError::UndeclaredIn(s, t) => SpecFault::UndeclaredIn(s@, t@),
            SpecError::UnknownHost(h) => SpecFault::UnknownHost(h@),
            SpecError::NoIngress => SpecFault::NoIngress,
            SpecError::SourceMissing(p) => SpecFault::SourceMissing(p@),
            SpecError::SourceIncomplete => SpecFault::SourceIncomplete,
            SpecError::SinkMissing(p) => SpecFault::SinkMissing(p@),
            SpecError::BadEventFormat(f) => SpecFault::BadEventFormat(f@),
            SpecError::WasmMissing(s) => SpecFault::WasmMissing(s@),
        }
    }
}

/// The path that `rel` is, seen from `dir`.
pub open spec fn path_from(dir: Seq<char>, rel: Seq<char>) -> Seq<char> {
    if rel.len() > 0 && rel[0] == '/' {
        rel
    } else if dir.len() == 0 || dir.last() == '/' {
        dir + rel
    } else {
        dir.push('/') + rel
    }
}

/// The path that `rel` is, seen from `dir`: itself where it starts at the root.
pub fn join_path(dir: &str, rel: &str) -> (out: String)
    ensures
        out@ == path_from(dir@, rel@),
{
    let d = chars_of(dir);
    let r = chars_of(rel);
    if r.len() > 0 && r[0] == '/' {
        return rel.to_owned();
    }
    let mut out = dir.to_owned();
    if d.len() > 0 && d[d.len() - 1] != '/' {
        out.push('/');
    }
    out.append(rel);
    out
}

/// The first fault among some, if there is one.
pub open spec fn first_fault(faults: Seq<Option<SpecFault>>) -> Option<SpecFault>
    decreases faults.len(),
{
    if faults.len() == 0 {
        None
    } else {
        match first_fault(faults.drop_last()) {
            Some(f) => Some(f),
            None => faults.last(),
        }
    }
}

proof fn lemma_first_fault(faults: Seq<Option<SpecFault>>, k: int)
    requires
        0 <= k <= faults.len(),
    ensures
        first_fault(faults.take(k)) is Some ==> first_fault(faults) == first_fault(faults.take(k)),
    decreases faults.len() - k,
{
    if k < faults.len() {
        assert(faults.take(k + 1).drop_last() =~= faults.take(k));
        lemma_first_fault(faults, k + 1);
    } else {
        assert(faults.take(k) =~= faults);
    }
}

/// The nodes of a pipeline by name.
pub open spec fn node_names(nodes: Seq<NodeSpec>) -> Seq<Seq<char>> {
    nodes.map_values(|n: NodeSpec| n.name@)
}

/// The name of the only node there is where none is declared.
pub open spec fn first_node(nodes: Seq<NodeSpec>) -> Seq<char> {
    if nodes.len() == 0 {
        "local"@
    } else {
        nodes[0].name@
    }
}

/// There is such a node.
pub open spec fn is_node(nodes: Seq<NodeSpec>, name: Seq<char>) -> bool {
    if nodes.len() == 0 {
        name == "local"@
    } else {
        has_name(node_names(nodes), name)
    }
}

/// What is wrong with a stage by itself.
pub open spec fn stage_fault(s: NewStage, nodes: Seq<NodeSpec>, dir: Seq<char>) -> Option<
    SpecFault,
> {
    match (s.src, s.wasm) {
        (Some(_), Some(_)) => Some(SpecFault::BothSources(s.name@)),
        (None, None) => Some(SpecFault::NeitherSource(s.name@)),
        (Some(src), None) => if !s.src_exists {
            Some(SpecFault::SrcMissing(s.name@, path_from(dir, src@)))
        } else {
            placement_fault(s, nodes)
        },
        (None, Some(_)) => placement_fault(s, nodes),
    }
}

/// A stage is placed on a node that is not there.
pub open spec fn placement_fault(s: NewStage, nodes: Seq<NodeSpec>) -> Option<SpecFault> {
    match s.placement {
        None => None,
        Some(p) => if is_node(nodes, p@) {
            None
        } else {
            Some(SpecFault::UnknownPlacement(s.name@, p@))
        },
    }
}

pub open spec fn stage_faults(stages: Seq<NewStage>, nodes: Seq<NodeSpec>, dir: Seq<char>) -> Seq<
    Option<SpecFault>,
> {
    stages.map_values(|s: NewStage| stage_fault(s, nodes, dir))
}

/// A setting as it is written, or what it is where it is left out.
pub open spec fn text_or(given: Option<String>, otherwise: Seq<char>) -> Seq<char> {
    match given {
        None => otherwise,
        Some(t) => t@,
    }
}

fn or_text(given: Option<String>, otherwise: &str) -> (out: String)
    ensures
        out@ == text_or(given, otherwise@),
{
    match given {
        None => otherwise.to_owned(),
        Some(t) => t,
    }
}

fn or_count(given: Option<usize>, otherwise: usize) -> (n: usize)
    ensures
        n == count_or(given, otherwise),
{
    match given {
        None => otherwise,
        Some(n) => n,
    }
}

/// A count as it is written, or what it is where it is left out.
pub open spec fn count_or(given: Option<usize>, otherwise: usize) -> usize {
    match given {
        None => otherwise,
        Some(n) => n,
    }
}

/// The scaling of a stage that says nothing of it: for streams that should not
/// wait.
pub open spec fn is_usual_scaling(s: ScalingSpec) -> bool {
    &&& s.min_replicas == 0
    &&& s.max_replicas == 2
    &&& s.queue_up@ == "50"@
    &&& s.queue_down@ == "0"@
    &&& s.cooldown_up_s@ == "0.1"@
    &&& s.cooldown_down_s@ == "5"@
    &&& s.p99_ms@ == "50"@
}

impl Default for ScalingSpec {
    fn default() -> (s: ScalingSpec)
        ensures
            is_usual_scaling(s),
    {
        ScalingSpec {
            min_replicas: 0,
            max_replicas: 2,
            queue_up: "50".to_owned(),
            queue_down: "0".to_owned(),
            cooldown_up_s: "0.1".to_owned(),
            cooldown_down_s: "5".to_owned(),
            p99_ms: "50".to_owned(),
        }
    }
}

/// The scaling of a stage, each setting left out taken from the usual ones.
pub open spec fn is_scaling_of(s: ScalingSpec, raw: NewScaling) -> bool {
    &&& s.min_replicas == count_or(raw.min, 0)
    &&& s.max_replicas == count_or(raw.max, 2)
    &&& s.queue_up@ == text_or(raw.queue_up, "50"@)
    &&& s.queue_down@ == text_or(raw.queue_down, "0"@)
    &&& s.cooldown_up_s@ == text_or(raw.cooldown_up_s, "0.1"@)
    &&& s.cooldown_down_s@ == text_or(raw.cooldown_down_s, "5"@)
    &&& s.p99_ms@ == text_or(raw.p99_ms, "50"@)
}

fn scaling_of(raw: NewScaling) -> (s: ScalingSpec)
    ensures
        is_scaling_of(s, raw),
{
    ScalingSpec {
        min_replicas: or_count(raw.min, 0),
        max_replicas: or_count(raw.max, 2),
        queue_up: or_text(raw.queue_up, "50"),
        queue_down: or_text(raw.queue_down, "0"),
        cooldown_up_s: or_text(raw.cooldown_up_s, "0.1"),
        cooldown_down_s: or_text(raw.cooldown_down_s, "5"),
        p99_ms: or_text(raw.p99_ms, "50"),
    }
}

/// The source of a stage.
pub open spec fn is_source_of(src: StageSource, s: NewStage, dir: Seq<char>) -> bool {
    match src {
        StageSource::RustFile(p) => s.src is Some && p@ == path_from(dir, s.src->0@),
        StageSource::PrebuiltWasm(p) => s.src is None && s.wasm is Some && p@ == path_from(
            dir,
            s.wasm->0@,
        ),
    }
}

/// The stage that is written so.
pub open spec fn is_stage_of(
    out: StageSpec,
    s: NewStage,
    nodes: Seq<NodeSpec>,
    dir: Seq<char>,
) -> bool {
    &&& out.name == s.name
    &&& out.input_type == s.input_type
    &&& out.output_type == s.output_type
    &&& is_source_of(out.source, s, dir)
    &&& is_scaling_of(out.scaling, s.scaling)
    &&& out.placement@ == text_or(s.placement, first_node(nodes))
    &&& is_ordering_of(out.deps@, s.deps@)
}

fn node_declared(nodes: &Vec<NodeSpec>, name: &str) -> (b: bool)
    ensures
        b == has_name(node_names(nodes@), name@),
{
    let mut i: usize = 0;
    while i < nodes.len()
        invariant
            i <= nodes@.len(),
            forall|k: int| 0 <= k < i ==> #[trigger] node_names(nodes@)[k] != name@,
        decreases nodes@.len() - i,
    {
        assert(node_names(nodes@)[i as int] == nodes@[i as int].name@);
        if same(nodes[i].name.as_str(), name) {
            return true;
        }
        i = i + 1;
    }
    false
}

/// The nodes of the pipeline: those declared, or the one that is meant where
/// none is.
pub open spec fn are_nodes_of(out: Seq<NodeSpec>, raw: Seq<NodeSpec>, host: Option<String>) -> bool {
    if raw.len() == 0 {
        &&& out.len() == 1
        &&& out[0].name@ == "local"@
        &&& out[0].host@ == text_or(host, "127.0.0.1"@)
        &&& !out[0].force_tcp
    } else {
        out == raw
    }
}

fn convert_stage(
    s: NewStage,
    nodes: &Vec<NodeSpec>,
    Ghost(declared): Ghost<Seq<NodeSpec>>,
    dir: &str,
) -> (r: Result<StageSpec, SpecError>)
    requires
        nodes@.len() > 0,
        node_names(nodes@) == (if declared.len() == 0 {
            seq!["local"@]
        } else {
            node_names(declared)
        }),
    ensures
        match r {
            Err(e) => stage_fault(s, declared, dir@) == Some(e@),
            Ok(out) => stage_fault(s, declared, dir@) is None && is_stage_of(
                out,
                s,
                declared,
                dir@,
            ),
        },
{
    proof {
        let names = node_names(nodes@);
        assert(names[0] == nodes@[0].name@);
        assert(first_node(declared) == names[0]);
        assert forall|n: Seq<char>| is_node(declared, n) == has_name(names, n) by {
            if declared.len() == 0 && n == "local"@ {
                assert(names[0] == n);
            }
        }
    }
    let source = match (s.src, s.wasm) {
        (Some(_), Some(_)) => {
            return Err(SpecError::BothSources(s.name));
        },
        (None, None) => {
            return Err(SpecError::NeitherSource(s.name));
        },
        (Some(src), None) => {
            let abs = join_path(dir, src.as_str());
            if !s.src_exists {
                return Err(SpecError::SrcMissing(s.name, abs));
            }
            StageSource::RustFile(abs)
        },
        (None, Some(w)) => StageSource::PrebuiltWasm(join_path(dir, w.as_str())),
    };
    let placement = match s.placement {
        Some(p) => {
            if !node_declared(nodes, p.as_str()) {
                return Err(SpecError::UnknownPlacement(s.name, p));
            }
            p
        },
        None => nodes[0].name.clone(),
    };
    Ok(
        StageSpec {
            name: s.name,
            input_type: s.input_type,
            output_type: s.output_type,
            source,
            scaling: scaling_of(s.scaling),
            placement,
            deps: put_in_order(s.deps),
        },
    )
}

/// The arrow of an edge is at `i`, and there is no other.
pub open spec fn is_only_arrow(s: Seq<char>, i: int) -> bool {
    &&& occurs_at(s, "->"@, i)
    &&& forall|k: int| occurs_at(s, "->"@, k) ==> k == i
}

/// The two ends of an edge: what is on either side of its only arrow.
pub open spec fn edge_ends(s: Seq<char>) -> Option<(Seq<char>, Seq<char>)> {
    if exists|i: int| is_only_arrow(s, i) {
        let i = choose|i: int| is_only_arrow(s, i);
        let from = trimmed(s.take(i));
        let to = trimmed(s.skip(i + 2));
        if from.len() > 0 && to.len() > 0 {
            Some((from, to))
        } else {
            None
        }
    } else {
        None
    }
}

/// Reads an edge, `from -> to`.
pub fn parse_edge(s: &str) -> (r: Option<(String, String)>)
    ensures
        match r {
            None => edge_ends(s@) is None,
            Some(e) => edge_ends(s@) == Some((e.0@, e.1@)),
        },
{
    proof {
        reveal_strlit("->");
        assert("->"@ =~= seq!['-', '>']);
    }
    let chars = chars_of(s);
    let n: usize = chars.len();
    let mut at: Option<usize> = None;
    let mut i: usize = 0;
    while n - i > 1
        invariant
            n == chars@.len(),
            chars@ == s@,
            i <= n,
            "->"@ =~= seq!['-', '>'],
            match at {
                None => forall|k: int| k < i ==> !occurs_at(s@, "->"@, k),
                Some(a) => a < i && occurs_at(s@, "->"@, a as int) && forall|k: int|
                    k < i && occurs_at(s@, "->"@, k) ==> k == a,
            },
        decreases n - i,
    {
        assert(s@.subrange(i as int, i + 2)[0] == s@[i as int]);
        assert(s@.subrange(i as int, i + 2)[1] == s@[i + 1]);
        if chars[i] == '-' && chars[i + 1] == '>' {
            assert(s@.subrange(i as int, i + 2) =~= "->"@);
            assert(occurs_at(s@, "->"@, i as int));
            match at {
                Some(a) => {
                    proof {
                        assert forall|j: int| !is_only_arrow(s@, j) by {
                            assert(occurs_at(s@, "->"@, a as int));
                            assert(occurs_at(s@, "->"@, i as int));
                        }
                    }
                    return None;
                },
                None => {
                    at = Some(i);
                },
            }
        } else {
            assert(!occurs_at(s@, "->"@, i as int));
        }
        i = i + 1;
    }
    match at {
        None => {
            assert forall|j: int| !is_only_arrow(s@, j) by {
                assert(!occurs_at(s@, "->"@, j));
            }
            None
        },
        Some(a) => {
            proof {
                assert forall|k: int| occurs_at(s@, "->"@, k) implies k == a by {}
                assert(is_only_arrow(s@, a as int));
                let c = choose|i: int| is_only_arrow(s@, i);
                assert(c == a);
                assert(s@.subrange(0, a as int) =~= s@.take(a as int));
                assert(s@.subrange(a + 2, n as int) =~= s@.skip(a + 2));
            }
            let from_text = string_of(&chars, 0, a);
            let to_text = string_of(&chars, a + 2, n);
            let from = trim(from_text.as_str());
            let to = trim(to_text.as_str());
            let from_chars = chars_of(from.as_str());
            let to_chars = chars_of(to.as_str());
            if from_chars.len() == 0 || to_chars.len() == 0 {
                return None;
            }
            Some((from, to))
        },
    }
}

/// Law: an edge that is written with a plain arrow between two names is read
/// back as those names.
pub proof fn law_edge_reads_back(from: Seq<char>, to: Seq<char>)
    requires
        from.len() > 0,
        to.len() > 0,
        trimmed(from + " "@) == from,
        trimmed(" "@ + to) == to,
        !contains_text(from, "->"@),
        !contains_text(to, "->"@),
    ensures
        edge_ends(from + " "@ + "->"@ + (" "@ + to)) == Some((from, to)),
{
    reveal_strlit("->");
    reveal_strlit(" ");
    let arrow = seq!['-', '>'];
    assert("->"@ =~= arrow);
    assert(" "@ =~= seq![' ']);
    let s = from + " "@ + "->"@ + (" "@ + to);
    let a = from.len() as int + 1;
    assert(s.subrange(a, a + 2) =~= "->"@);
    assert(occurs_at(s, "->"@, a));
    assert forall|k: int| occurs_at(s, "->"@, k) implies k == a by {
        assert(s.subrange(k, k + 2)[0] == s[k] && s.subrange(k, k + 2)[1] == s[k + 1]);
        assert(arrow[0] == '-' && arrow[1] == '>');
        assert(s[k] == '-' && s[k + 1] == '>');
        if k + 1 < from.len() {
            assert(from.subrange(k, k + 2) =~= "->"@);
            assert(occurs_at(from, "->"@, k));
        } else if k > a + 2 {
            let j = k - a - 3;
            assert(to.subrange(j, j + 2) =~= "->"@);
            assert(occurs_at(to, "->"@, j));
        }
    }
    assert(is_only_arrow(s, a));
    let c = choose|i: int| is_only_arrow(s, i);
    assert(c == a);
    assert(s.take(a) =~= from + " "@);
    assert(s.skip(a + 2) =~= " "@ + to);
}

/// Every stage feeds the next.
pub open spec fn implied_edges(names: Seq<Seq<char>>) -> Seq<(Seq<char>, Seq<char>)> {
    Seq::new(
        if names.len() == 0 {
            0
        } else {
            (names.len() - 1) as nat
        },
        |i: int| (names[i], names[i + 1]),
    )
}

/// The stages of a pipeline by name, as they are written.
pub open spec fn written_names(stages: Seq<NewStage>) -> Seq<Seq<char>> {
    stages.map_values(|s: NewStage| s.name@)
}

/// The stages of a pipeline by name.
pub open spec fn spec_names(stages: Seq<StageSpec>) -> Seq<Seq<char>> {
    stages.map_values(|s: StageSpec| s.name@)
}

/// The edges of a pipeline: those declared, or each stage feeding the next
/// where none is.
pub open spec fn edges_of(edges: Seq<String>, names: Seq<Seq<char>>) -> Seq<
    (Seq<char>, Seq<char>),
> {
    if edges.len() == 0 {
        implied_edges(names)
    } else {
        edges.map_values(|e: String| edge_ends(e@)->0)
    }
}

/// What is wrong with how an edge is written.
pub open spec fn edge_form_fault(e: Seq<char>) -> Option<SpecFault> {
    if edge_ends(e) is None {
        Some(SpecFault::BadEdge(e))
    } else {
        None
    }
}

pub open spec fn edge_form_faults(edges: Seq<String>) -> Seq<Option<SpecFault>> {
    edges.map_values(|e: String| edge_form_fault(e@))
}

/// An edge has an end that is no stage.
pub open spec fn edge_end_fault(e: (Seq<char>, Seq<char>), names: Seq<Seq<char>>) -> Option<
    SpecFault,
> {
    if !has_name(names, e.0) {
        Some(SpecFault::UnknownEdgeSource(e.0))
    } else if !has_name(names, e.1) {
        Some(SpecFault::UnknownEdgeTarget(e.1))
    } else {
        None
    }
}

pub open spec fn edge_end_faults(
    edges: Seq<(Seq<char>, Seq<char>)>,
    names: Seq<Seq<char>>,
) -> Seq<Option<SpecFault>> {
    edges.map_values(|e: (Seq<char>, Seq<char>)| edge_end_fault(e, names))
}

/// The name stands at `i`, and nowhere after.
pub open spec fn is_last_named(names: Seq<Seq<char>>, name: Seq<char>, i: int) -> bool {
    &&& 0 <= i < names.len()
    &&& names[i] == name
    &&& forall|j: int| i < j < names.len() ==> names[j] != name
}

/// Where a name stands last.
pub open spec fn last_place(names: Seq<Seq<char>>, name: Seq<char>) -> int {
    choose|i: int| is_last_named(names, name, i)
}

/// A name that is there stands somewhere last.
pub(crate) proof fn lemma_last_place(names: Seq<Seq<char>>, name: Seq<char>)
    requires
        has_name(names, name),
    ensures
        is_last_named(names, name, last_place(names, name)),
    decreases names.len(),
{
    let n = names.len() - 1;
    if names[n] == name {
        assert(is_last_named(names, name, n));
    } else {
        let rest = names.drop_last();
        let j = choose|j: int| 0 <= j < names.len() && #[trigger] names[j] == name;
        assert(rest[j] == name);
        lemma_last_place(rest, name);
        let c = last_place(rest, name);
        assert(is_last_named(rest, name, c));
        assert forall|k: int| c < k < names.len() implies names[k] != name by {
            if k < n {
                assert(rest[k] == names[k]);
            }
        }
        assert(is_last_named(names, name, c));
    }
}

/// The types of each stage: what it takes and what it gives.
pub open spec fn written_types(stages: Seq<NewStage>) -> Seq<(Seq<char>, Seq<char>)> {
    stages.map_values(|s: NewStage| (s.input_type@, s.output_type@))
}

/// The names of the declared types.
pub open spec fn type_names(types: Seq<(String, TypeDef)>) -> Seq<Seq<char>> {
    types.map_values(|t: (String, TypeDef)| t.0@)
}

/// The types at the ends of an edge do not fit: what its source gives is what
/// its target takes, and is declared wherever any type is.
pub open spec fn edge_type_fault(
    e: (Seq<char>, Seq<char>),
    names: Seq<Seq<char>>,
    io: Seq<(Seq<char>, Seq<char>)>,
    types: Seq<Seq<char>>,
) -> Option<SpecFault> {
    let produced = io[last_place(names, e.0)].1;
    let consumed = io[last_place(names, e.1)].0;
    if produced != consumed {
        Some(SpecFault::TypeMismatch { from: e.0, to: e.1, produced, consumed })
    } else if types.len() > 0 && !has_name(types, produced) {
        Some(SpecFault::UndeclaredOut(e.0, produced))
    } else if types.len() > 0 && !has_name(types, consumed) {
        Some(SpecFault::UndeclaredIn(e.1, consumed))
    } else {
        None
    }
}

pub open spec fn edge_type_faults(
    edges: Seq<(Seq<char>, Seq<char>)>,
    names: Seq<Seq<char>>,
    io: Seq<(Seq<char>, Seq<char>)>,
    types: Seq<Seq<char>>,
) -> Seq<Option<SpecFault>> {
    edges.map_values(|e: (Seq<char>, Seq<char>)| edge_type_fault(e, names, io, types))
}

/// The event formats there are.
pub open spec fn known_event_format(f: Seq<char>) -> bool {
    f == "json"@ || f == "binary"@ || f == "epico-binary"@
}

/// The source is compiled into the agent.
pub open spec fn is_native(source: Option<RawSource>) -> bool {
    source is Some && source->0.src is Some
}

/// What is wrong with how a pipeline is to be deployed.
pub open spec fn deploy_fault(raw: NewFormat, dir: Seq<char>) -> Option<SpecFault> {
    let format = text_or(raw.deploy.event_format, "json"@);
    if raw.deploy.this_host is Some && !is_node(raw.nodes@, raw.deploy.this_host->0@) {
        Some(SpecFault::UnknownHost(raw.deploy.this_host->0@))
    } else if raw.deploy.ingress is None && !is_native(raw.source) {
        Some(SpecFault::NoIngress)
    } else if is_native(raw.source) && !raw.source->0.src_exists {
        Some(SpecFault::SourceMissing(path_from(dir, raw.source->0.src->0@)))
    } else if raw.source is Some && !is_native(raw.source) && raw.source->0.kind is None {
        Some(SpecFault::SourceIncomplete)
    } else if raw.sink is Some && !raw.sink->0.src_exists {
        Some(SpecFault::SinkMissing(path_from(dir, raw.sink->0.src@)))
    } else if !known_event_format(format) {
        Some(SpecFault::BadEventFormat(format))
    } else {
        None
    }
}

/// What is wrong with a pipeline: the first thing that is found, stage by
/// stage, then edge by edge, then in how it is deployed.
pub open spec fn new_fault(raw: NewFormat, dir: Seq<char>) -> Option<SpecFault> {
    let names = written_names(raw.stages@);
    let edges = edges_of(raw.edges@, names);
    if raw.stages@.len() == 0 {
        Some(SpecFault::NoStages)
    } else if first_fault(stage_faults(raw.stages@, raw.nodes@, dir)) is Some {
        first_fault(stage_faults(raw.stages@, raw.nodes@, dir))
    } else if first_fault(edge_form_faults(raw.edges@)) is Some {
        first_fault(edge_form_faults(raw.edges@))
    } else if first_fault(edge_end_faults(edges, names)) is Some {
        first_fault(edge_end_faults(edges, names))
    } else if first_fault(
        edge_type_faults(edges, names, written_types(raw.stages@), type_names(raw.types@)),
    ) is Some {
        first_fault(
            edge_type_faults(edges, names, written_types(raw.stages@), type_names(raw.types@)),
        )
    } else {
        deploy_fault(raw, dir)
    }
}

/// The source to be started, where that is what is written.
pub open spec fn is_started_source(out: Option<SourceSpec>, raw: Option<RawSource>) -> bool {
    match out {
        None => raw is None || is_native(raw),
        Some(s) => raw is Some && !is_native(raw) && raw->0.kind == Some(s.kind)
            && is_ordering_of(s.params@, raw->0.params@),
    }
}

/// The source to be compiled in, where that is what is written.
pub open spec fn is_source_node(
    out: Option<BoundaryNode>,
    raw: Option<RawSource>,
    this_host: Seq<char>,
    dir: Seq<char>,
) -> bool {
    match out {
        None => !is_native(raw),
        Some(n) => is_native(raw) && n.src@ == path_from(dir, raw->0.src->0@) && n.placement@
            == text_or(raw->0.placement, this_host),
    }
}

/// The sink to be compiled in.
pub open spec fn is_sink_node(
    out: Option<BoundaryNode>,
    raw: Option<RawBoundary>,
    this_host: Seq<char>,
    dir: Seq<char>,
) -> bool {
    match out {
        None => raw is None,
        Some(n) => raw is Some && n.src@ == path_from(dir, raw->0.src@) && n.placement@ == text_or(
            raw->0.placement,
            this_host,
        ),
    }
}

/// The types are the written ones, in order: the same names, and under each the
/// same fields.
pub open spec fn are_types_of(out: Seq<(String, TypeDef)>, raw: Seq<(String, TypeDef)>) -> bool {
    &&& are_ordered_types(out)
    &&& forall|name: Seq<char>|
        match (#[trigger] value_of(out, name), value_of(raw, name)) {
            (None, None) => true,
            (Some(o), Some(r)) => is_ordering_of(o.fields@, r.fields@),
            _ => false,
        }
}

/// Puts the types in order, and the fields of each.
fn order_types(raw: Vec<(String, TypeDef)>) -> (out: Vec<(String, TypeDef)>)
    ensures
        are_types_of(out@, raw@),
{
    let ghost given = raw@;
    let mut rest = put_in_order(raw);
    let ghost all = rest@;
    let mut back: Vec<(String, TypeDef)> = Vec::new();
    loop
        invariant
            rest@.len() + back@.len() == all.len(),
            rest@ == all.take(rest@.len() as int),
            forall|k: int|
                0 <= k < back@.len() ==> (#[trigger] back@[k]).0 == all[all.len() - 1 - k].0
                    && is_ordering_of(back@[k].1.fields@, all[all.len() - 1 - k].1.fields@),
        ensures
            rest@.len() == 0,
        decreases rest@.len(),
    {
        let ghost n = rest@.len() as int;
        let (name, def) = match rest.pop() {
            None => {
                break;
            },
            Some(x) => x,
        };
        assert(rest@ =~= all.take(n - 1));
        back.push((name, TypeDef { fields: put_in_order(def.fields) }));
    }
    let mut out: Vec<(String, TypeDef)> = Vec::new();
    let ghost turned = back@;
    loop
        invariant
            out@.len() + back@.len() == all.len() == turned.len(),
            back@ == turned.take(back@.len() as int),
            forall|k: int| 0 <= k < out@.len() ==> #[trigger] out@[k] == turned[all.len() - 1 - k],
        ensures
            back@.len() == 0,
        decreases back@.len(),
    {
        let ghost n = back@.len() as int;
        let x = match back.pop() {
            None => {
                break;
            },
            Some(x) => x,
        };
        assert(back@ =~= turned.take(n - 1));
        assert(x == turned[n - 1]);
        out.push(x);
    }
    proof {
        assert forall|k: int| 0 <= k < all.len() implies (#[trigger] out@[k]).0 == all[k].0
            && is_ordering_of(out@[k].1.fields@, all[k].1.fields@) by {
            assert(out@[k] == turned[all.len() - 1 - k]);
        }
        assert forall|name: Seq<char>|
            match (#[trigger] value_of(out@, name), value_of(given, name)) {
                (None, None) => true,
                (Some(o), Some(r)) => is_ordering_of(o.fields@, r.fields@),
                _ => false,
            } by {
            assert(value_of(all, name) == value_of(given, name));
            lemma_types_alike(out@, all, name);
        }
    }
    out
}

proof fn lemma_types_alike(a: Seq<(String, TypeDef)>, b: Seq<(String, TypeDef)>, name: Seq<char>)
    requires
        a.len() == b.len(),
        forall|k: int|
            0 <= k < a.len() ==> (#[trigger] a[k]).0 == b[k].0 && is_ordering_of(
                a[k].1.fields@,
                b[k].1.fields@,
            ),
    ensures
        match (value_of(a, name), value_of(b, name)) {
            (None, None) => true,
            (Some(o), Some(r)) => is_ordering_of(o.fields@, r.fields@),
            _ => false,
        },
    decreases a.len(),
{
    if a.len() > 0 {
        assert(a[a.len() - 1].0 == b[b.len() - 1].0);
        lemma_types_alike(a.drop_last(), b.drop_last(), name);
    }
}

/// The pipeline that is written so.
pub open spec fn is_spec_of(p: PipelineSpec, raw: NewFormat, dir: Seq<char>) -> bool {
    let this_host = text_or(raw.deploy.this_host, first_node(raw.nodes@));
    &&& p.package@ == text_or(raw.package, "epico:pipeline@0.1.0"@)
    &&& are_nodes_of(p.nodes@, raw.nodes@, raw.deploy.host)
    &&& p.this_host@ == this_host
    &&& p.stages@.len() == raw.stages@.len()
    &&& forall|i: int|
        0 <= i < p.stages@.len() ==> is_stage_of(
            #[trigger] p.stages@[i],
            raw.stages@[i],
            raw.nodes@,
            dir,
        )
    &&& pair_texts(p.edges@) == edges_of(raw.edges@, written_names(raw.stages@))
    &&& p.ingress@ == text_or(raw.deploy.ingress, "inproc://source"@)
    &&& p.collector@ == text_or(raw.deploy.collector, "tcp://localhost:9999"@)
    &&& p.port_base == (match raw.deploy.port_base {
        None => 9000,
        Some(n) => n,
    })
    &&& p.host@ == text_or(raw.deploy.host, "localhost"@)
    &&& are_types_of(p.types@, raw.types@)
    &&& is_started_source(p.source, raw.source)
    &&& is_source_node(p.source_node, raw.source, this_host, dir)
    &&& is_sink_node(p.sink_node, raw.sink, this_host, dir)
    &&& p.resource_sample_interval_ms == (match raw.deploy.resource_sample_interval_ms {
        None => 1000,
        Some(n) => n,
    })
    &&& p.credit_window == (match raw.deploy.credit_window {
        None => 1,
        Some(n) => n,
    })
    &&& p.batch_events == count_or(raw.deploy.batch_events, 1)
    &&& p.event_format@ == text_or(raw.deploy.event_format, "json"@)
    &&& p.source_format@ == text_or(raw.deploy.source_format, "binary"@)
    &&& p.ingress_mode@ == text_or(raw.deploy.ingress_mode, "socket"@)
    &&& p.source_threads == raw.deploy.source_threads
}

fn convert_stages(
    stages: Vec<NewStage>,
    nodes: &Vec<NodeSpec>,
    Ghost(declared): Ghost<Seq<NodeSpec>>,
    dir: &str,
) -> (r: Result<Vec<StageSpec>, SpecError>)
    requires
        nodes@.len() > 0,
        node_names(nodes@) == (if declared.len() == 0 {
            seq!["local"@]
        } else {
            node_names(declared)
        }),
    ensures
        match r {
            Err(e) => first_fault(stage_faults(stages@, declared, dir@)) == Some(e@),
            Ok(out) => {
                &&& first_fault(stage_faults(stages@, declared, dir@)) is None
                &&& out@.len() == stages@.len()
                &&& forall|i: int|
                    0 <= i < out@.len() ==> is_stage_of(
                        #[trigger] out@[i],
                        stages@[i],
                        declared,
                        dir@,
                    )
            },
        },
{
    let ghost all = stages@;
    let ghost faults = stage_faults(all, declared, dir@);
    let mut out: Vec<StageSpec> = Vec::new();
    assert(faults.take(0) =~= Seq::<Option<SpecFault>>::empty());
    for s in it: stages
        invariant
            it.seq() == all,
            out@.len() == it.index(),
            nodes@.len() > 0,
            node_names(nodes@) == (if declared.len() == 0 {
                seq!["local"@]
            } else {
                node_names(declared)
            }),
            faults == stage_faults(all, declared, dir@),
            first_fault(faults.take(it.index() as int)) is None,
            forall|i: int|
                0 <= i < out@.len() ==> is_stage_of(#[trigger] out@[i], all[i], declared, dir@),
    {
        let ghost i = out@.len() as int;
        proof {
            assert(faults.take(i + 1).drop_last() =~= faults.take(i));
            assert(faults.take(i + 1).last() == stage_fault(all[i], declared, dir@));
            lemma_first_fault(faults, i + 1);
        }
        match convert_stage(s, nodes, Ghost(declared), dir) {
            Err(e) => {
                return Err(e);
            },
            Ok(one) => {
                out.push(one);
            },
        }
    }
    assert(faults.take(faults.len() as int) =~= faults);
    Ok(out)
}

fn parse_edges(edges: &Vec<String>) -> (r: Result<Vec<(String, String)>, SpecError>)
    ensures
        match r {
            Err(e) => first_fault(edge_form_faults(edges@)) == Some(e@),
            Ok(out) => {
                &&& first_fault(edge_form_faults(edges@)) is None
                &&& pair_texts(out@) == edges@.map_values(|e: String| edge_ends(e@)->0)
            },
        },
{
    let ghost faults = edge_form_faults(edges@);
    let ghost want = edges@.map_values(|e: String| edge_ends(e@)->0);
    let mut out: Vec<(String, String)> = Vec::new();
    let mut i: usize = 0;
    assert(faults.take(0) =~= Seq::<Option<SpecFault>>::empty());
    while i < edges.len()
        invariant
            i <= edges@.len(),
            faults == edge_form_faults(edges@),
            want == edges@.map_values(|e: String| edge_ends(e@)->0),
            first_fault(faults.take(i as int)) is None,
            out@.len() == i,
            forall|k: int| 0 <= k < i ==> #[trigger] pair_texts(out@)[k] == want[k],
        decreases edges@.len() - i,
    {
        proof {
            assert(faults.take(i + 1).drop_last() =~= faults.take(i as int));
            assert(faults.take(i + 1).last() == edge_form_fault(edges@[i as int]@));
            lemma_first_fault(faults, i + 1);
        }
        match parse_edge(edges[i].as_str()) {
            None => {
                return Err(SpecError::BadEdge(edges[i].clone()));
            },
            Some(e) => {
                let ghost was = out@;
                out.push(e);
                assert(pair_texts(out@) =~= pair_texts(was).push((e.0@, e.1@)));
            },
        }
        i = i + 1;
    }
    assert(faults.take(i as int) =~= faults);
    assert(pair_texts(out@) =~= want);
    Ok(out)
}

fn chain_edges(stages: &Vec<StageSpec>) -> (out: Vec<(String, String)>)
    ensures
        pair_texts(out@) == implied_edges(spec_names(stages@)),
{
    let ghost want = implied_edges(spec_names(stages@));
    let mut out: Vec<(String, String)> = Vec::new();
    let n: usize = stages.len();
    let mut i: usize = 0;
    while n > 0 && i < n - 1
        invariant
            n == stages@.len(),
            n == 0 ==> i == 0,
            n > 0 ==> i <= n - 1,
            want == implied_edges(spec_names(stages@)),
            out@.len() == i,
            forall|k: int| 0 <= k < i ==> #[trigger] pair_texts(out@)[k] == want[k],
        decreases n - i,
    {
        let ghost was = out@;
        out.push((stages[i].name.clone(), stages[i + 1].name.clone()));
        assert(pair_texts(out@) =~= pair_texts(was).push(want[i as int]));
        i = i + 1;
    }
    assert(pair_texts(out@) =~= want);
    out
}

fn last_stage(stages: &Vec<StageSpec>, name: &str) -> (r: Option<usize>)
    ensures
        match r {
            None => !has_name(spec_names(stages@), name@),
            Some(i) => has_name(spec_names(stages@), name@) && i == last_place(
                spec_names(stages@),
                name@,
            ) && is_last_named(spec_names(stages@), name@, i as int),
        },
{
    let ghost names = spec_names(stages@);
    let mut i: usize = stages.len();
    while i > 0
        invariant
            i <= stages@.len(),
            names == spec_names(stages@),
            forall|k: int| i <= k < names.len() ==> #[trigger] names[k] != name@,
        decreases i,
    {
        i = i - 1;
        assert(names[i as int] == stages@[i as int].name@);
        if same(stages[i].name.as_str(), name) {
            proof {
                assert(is_last_named(names, name@, i as int));
                let c = last_place(names, name@);
                assert(is_last_named(names, name@, c));
                assert(c == i);
            }
            return Some(i);
        }
    }
    None
}

fn edges_join_stages(edges: &Vec<(String, String)>, stages: &Vec<StageSpec>) -> (r: Result<
    (),
    SpecError,
>)
    ensures
        match r {
            Err(e) => first_fault(edge_end_faults(pair_texts(edges@), spec_names(stages@)))
                == Some(e@),
            Ok(_) => first_fault(edge_end_faults(pair_texts(edges@), spec_names(stages@))) is None,
        },
{
    let ghost names = spec_names(stages@);
    let ghost faults = edge_end_faults(pair_texts(edges@), names);
    let mut i: usize = 0;
    assert(faults.take(0) =~= Seq::<Option<SpecFault>>::empty());
    while i < edges.len()
        invariant
            i <= edges@.len(),
            names == spec_names(stages@),
            faults == edge_end_faults(pair_texts(edges@), names),
            first_fault(faults.take(i as int)) is None,
        decreases edges@.len() - i,
    {
        let e = &edges[i];
        proof {
            assert(faults.take(i + 1).drop_last() =~= faults.take(i as int));
            assert(faults.take(i + 1).last() == edge_end_fault((e.0@, e.1@), names));
            lemma_first_fault(faults, i + 1);
        }
        if last_stage(stages, e.0.as_str()).is_none() {
            return Err(SpecError::UnknownEdgeSource(e.0.clone()));
        }
        if last_stage(stages, e.1.as_str()).is_none() {
            return Err(SpecError::UnknownEdgeTarget(e.1.clone()));
        }
        i = i + 1;
    }
    assert(faults.take(i as int) =~= faults);
    Ok(())
}

/// Whether a type is declared.
pub fn type_declared(types: &Vec<(String, TypeDef)>, name: &str) -> (b: bool)
    ensures
        b == has_name(type_names(types@), name@),
{
    let mut i: usize = 0;
    while i < types.len()
        invariant
            i <= types@.len(),
            forall|k: int| 0 <= k < i ==> #[trigger] type_names(types@)[k] != name@,
        decreases types@.len() - i,
    {
        assert(type_names(types@)[i as int] == types@[i as int].0@);
        if same(types[i].0.as_str(), name) {
            return true;
        }
        i = i + 1;
    }
    false
}

/// The types of each stage: what it takes and what it gives.
pub open spec fn spec_types(stages: Seq<StageSpec>) -> Seq<(Seq<char>, Seq<char>)> {
    stages.map_values(|s: StageSpec| (s.input_type@, s.output_type@))
}

fn edge_types_fit(
    edges: &Vec<(String, String)>,
    stages: &Vec<StageSpec>,
    types: &Vec<(String, TypeDef)>,
) -> (r: Result<(), SpecError>)
    requires
        first_fault(edge_end_faults(pair_texts(edges@), spec_names(stages@))) is None,
    ensures
        match r {
            Err(e) => first_fault(
                edge_type_faults(
                    pair_texts(edges@),
                    spec_names(stages@),
                    spec_types(stages@),
                    type_names(types@),
                ),
            ) == Some(e@),
            Ok(_) => first_fault(
                edge_type_faults(
                    pair_texts(edges@),
                    spec_names(stages@),
                    spec_types(stages@),
                    type_names(types@),
                ),
            ) is None,
        },
{
    let ghost names = spec_names(stages@);
    let ghost io = spec_types(stages@);
    let ghost declared = type_names(types@);
    let ghost ends = edge_end_faults(pair_texts(edges@), names);
    let ghost faults = edge_type_faults(pair_texts(edges@), names, io, declared);
    let mut i: usize = 0;
    assert(faults.take(0) =~= Seq::<Option<SpecFault>>::empty());
    while i < edges.len()
        invariant
            i <= edges@.len(),
            names == spec_names(stages@),
            io == spec_types(stages@),
            declared == type_names(types@),
            ends == edge_end_faults(pair_texts(edges@), names),
            first_fault(ends) is None,
            faults == edge_type_faults(pair_texts(edges@), names, io, declared),
            first_fault(faults.take(i as int)) is None,
        decreases edges@.len() - i,
    {
        let e = &edges[i];
        proof {
            assert(faults.take(i + 1).drop_last() =~= faults.take(i as int));
            assert(faults.take(i + 1).last() == edge_type_fault(
                (e.0@, e.1@),
                names,
                io,
                declared,
            ));
            lemma_first_fault(faults, i + 1);
            assert(ends.take(i + 1).last() == edge_end_fault((e.0@, e.1@), names));
            lemma_first_fault(ends, i + 1);
        }
        match (last_stage(stages, e.0.as_str()), last_stage(stages, e.1.as_str())) {
            (Some(ai), Some(bi)) => {
                let a = &stages[ai];
                let b = &stages[bi];
                assert(io[ai as int].1 == a.output_type@ && io[bi as int].0 == b.input_type@);
                assert(names[ai as int] == a.name@ && names[bi as int] == b.name@);
                if a.output_type != b.input_type {
                    return Err(
                        SpecError::TypeMismatch {
                            from: e.0.clone(),
                            to: e.1.clone(),
                            produced: a.output_type.clone(),
                            consumed: b.input_type.clone(),
                        },
                    );
                }
                if types.len() > 0 {
                    if !type_declared(types, a.output_type.as_str()) {
                        return Err(
                            SpecError::UndeclaredOut(a.name.clone(), a.output_type.clone()),
                        );
                    }
                    if !type_declared(types, b.input_type.as_str()) {
                        return Err(SpecError::UndeclaredIn(b.name.clone(), b.input_type.clone()));
                    }
                }
            },
            _ => {},
        }
        i = i + 1;
    }
    assert(faults.take(i as int) =~= faults);
    Ok(())
}

fn opt_copy(s: &Option<String>) -> (out: Option<String>)
    ensures
        out == *s,
{
    match s {
        None => None,
        Some(t) => Some(t.clone()),
    }
}

fn resolve_nodes(raw: Vec<NodeSpec>, host: &Option<String>) -> (out: Vec<NodeSpec>)
    ensures
        are_nodes_of(out@, raw@, *host),
        out@.len() > 0,
        node_names(out@) == (if raw@.len() == 0 {
            seq!["local"@]
        } else {
            node_names(raw@)
        }),
{
    if raw.len() > 0 {
        return raw;
    }
    let node = NodeSpec {
        name: "local".to_owned(),
        host: or_text(opt_copy(host), "127.0.0.1"),
        force_tcp: false,
    };
    let out = vec![node];
    assert(node_names(out@) =~= seq!["local"@]);
    out
}

/// The sources of a pipeline: the one to be started, and the one to be compiled
/// in.
fn resolve_source(raw: Option<RawSource>, this_host: &String, dir: &str) -> (r: Result<
    (Option<SourceSpec>, Option<BoundaryNode>),
    SpecError,
>)
    ensures
        match r {
            Err(e) => raw is Some && if raw->0.src is Some {
                !raw->0.src_exists && e@ == SpecFault::SourceMissing(
                    path_from(dir@, raw->0.src->0@),
                )
            } else {
                raw->0.kind is None && e@ == SpecFault::SourceIncomplete
            },
            Ok(p) => {
                &&& is_started_source(p.0, raw)
                &&& is_source_node(p.1, raw, this_host@, dir@)
                &&& is_native(raw) ==> raw->0.src_exists
                &&& raw is Some && !is_native(raw) ==> raw->0.kind is Some
            },
        },
{
    match raw {
        None => Ok((None, None)),
        Some(s) => match s.src {
            Some(rel) => {
                let abs = join_path(dir, rel.as_str());
                if !s.src_exists {
                    return Err(SpecError::SourceMissing(abs));
                }
                let placement = or_text(s.placement, this_host.as_str());
                Ok((None, Some(BoundaryNode { placement, src: abs })))
            },
            None => match s.kind {
                Some(kind) => Ok(
                    (Some(SourceSpec { kind, params: put_in_order(s.params) }), None),
                ),
                None => Err(SpecError::SourceIncomplete),
            },
        },
    }
}

fn resolve_sink(raw: Option<RawBoundary>, this_host: &String, dir: &str) -> (r: Result<
    Option<BoundaryNode>,
    SpecError,
>)
    ensures
        match r {
            Err(e) => raw is Some && !raw->0.src_exists && e@ == SpecFault::SinkMissing(
                path_from(dir@, raw->0.src@),
            ),
            Ok(n) => is_sink_node(n, raw, this_host@, dir@) && (raw is Some
                ==> raw->0.src_exists),
        },
{
    match raw {
        None => Ok(None),
        Some(b) => {
            let abs = join_path(dir, b.src.as_str());
            if !b.src_exists {
                return Err(SpecError::SinkMissing(abs));
            }
            let placement = or_text(b.placement, this_host.as_str());
            Ok(Some(BoundaryNode { placement, src: abs }))
        },
    }
}

/// Reads the format with `stages:`: fills in what is left out, and refuses what
/// does not fit together, before anything is built.
#[verifier::rlimit(40)]
pub fn from_new_format(raw: NewFormat, dir: &str) -> (r: Result<PipelineSpec, SpecError>)
    ensures
        match r {
            Err(e) => new_fault(raw, dir@) == Some(e@),
            Ok(p) => new_fault(raw, dir@) is None && is_spec_of(p, raw, dir@) && p.wf(),
        },
{
    let ghost r0 = raw;
    if raw.stages.len() == 0 {
        return Err(SpecError::NoStages);
    }
    let nodes = resolve_nodes(raw.nodes, &raw.deploy.host);
    let stages = match convert_stages(raw.stages, &nodes, Ghost(r0.nodes@), dir) {
        Err(e) => {
            return Err(e);
        },
        Ok(s) => s,
    };
    assert(spec_names(stages@) =~= written_names(r0.stages@));
    assert(spec_types(stages@) =~= written_types(r0.stages@));
    let mut edges = match parse_edges(&raw.edges) {
        Err(e) => {
            return Err(e);
        },
        Ok(e) => e,
    };
    if raw.edges.len() == 0 {
        edges = chain_edges(&stages);
    }
    assert(pair_texts(edges@) == edges_of(r0.edges@, written_names(r0.stages@)));
    match edges_join_stages(&edges, &stages) {
        Err(e) => {
            return Err(e);
        },
        Ok(_) => {},
    }
    match edge_types_fit(&edges, &stages, &raw.types) {
        Err(e) => {
            return Err(e);
        },
        Ok(_) => {},
    }
    proof {
        let names = node_names(nodes@);
        assert(names[0] == nodes@[0].name@);
        assert forall|n: Seq<char>| is_node(r0.nodes@, n) == has_name(names, n) by {
            if r0.nodes@.len() == 0 && n == "local"@ {
                assert(names[0] == n);
            }
        }
    }
    let deploy = raw.deploy;
    let this_host = match deploy.this_host {
        Some(h) => {
            if !node_declared(&nodes, h.as_str()) {
                return Err(SpecError::UnknownHost(h));
            }
            h
        },
        None => nodes[0].name.clone(),
    };
    let native = match &raw.source {
        None => false,
        Some(s) => s.src.is_some(),
    };
    if deploy.ingress.is_none() && !native {
        return Err(SpecError::NoIngress);
    }
    let (source, source_node) = match resolve_source(raw.source, &this_host, dir) {
        Err(e) => {
            return Err(e);
        },
        Ok(p) => p,
    };
    let sink_node = match resolve_sink(raw.sink, &this_host, dir) {
        Err(e) => {
            return Err(e);
        },
        Ok(n) => n,
    };
    let types = order_types(raw.types);
    let event_format = or_text(deploy.event_format, "json");
    if !(same(event_format.as_str(), "json") || same(event_format.as_str(), "binary") || same(
        event_format.as_str(),
        "epico-binary",
    )) {
        return Err(SpecError::BadEventFormat(event_format));
    }
    Ok(
        PipelineSpec {
            package: or_text(raw.package, "epico:pipeline@0.1.0"),
            nodes,
            this_host,
            stages,
            edges,
            ingress: or_text(deploy.ingress, "inproc://source"),
            collector: or_text(deploy.collector, "tcp://localhost:9999"),
            port_base: match deploy.port_base {
                None => 9000,
                Some(n) => n,
            },
            host: or_text(deploy.host, "localhost"),
            types,
            source,
            source_node,
            sink_node,
            resource_sample_interval_ms: match deploy.resource_sample_interval_ms {
                None => 1000,
                Some(n) => n,
            },
            credit_window: match deploy.credit_window {
                None => 1,
                Some(n) => n,
            },
            batch_events: or_count(deploy.batch_events, 1),
            event_format,
            source_format: or_text(deploy.source_format, default_source_format().as_str()),
            ingress_mode: or_text(deploy.ingress_mode, default_ingress_mode().as_str()),
            source_threads: deploy.source_threads,
        },
    )
}

pub(crate) proof fn lemma_no_fault(faults: Seq<Option<SpecFault>>, k: int)
    requires
        first_fault(faults) is None,
        0 <= k < faults.len(),
    ensures
        faults[k] is None,
    decreases faults.len(),
{
    if k < faults.len() - 1 {
        lemma_no_fault(faults.drop_last(), k);
    }
}

/// Law: in a pipeline that is accepted every edge joins two declared stages,
/// and what the first gives is what the second takes.
pub proof fn law_accepted_edges_fit(raw: NewFormat, dir: Seq<char>, k: int)
    requires
        new_fault(raw, dir) is None,
        0 <= k < edges_of(raw.edges@, written_names(raw.stages@)).len(),
    ensures
        ({
            let names = written_names(raw.stages@);
            let io = written_types(raw.stages@);
            let e = edges_of(raw.edges@, names)[k];
            &&& has_name(names, e.0)
            &&& has_name(names, e.1)
            &&& io[last_place(names, e.0)].1 == io[last_place(names, e.1)].0
        }),
{
    let names = written_names(raw.stages@);
    let io = written_types(raw.stages@);
    let edges = edges_of(raw.edges@, names);
    let ends = edge_end_faults(edges, names);
    let fits = edge_type_faults(edges, names, io, type_names(raw.types@));
    lemma_no_fault(ends, k);
    lemma_no_fault(fits, k);
    assert(ends[k] == edge_end_fault(edges[k], names));
    assert(fits[k] == edge_type_fault(edges[k], names, io, type_names(raw.types@)));
}

/// Law: in a pipeline that is accepted every stage runs on a node that is there.
pub proof fn law_accepted_stages_are_placed(raw: NewFormat, dir: Seq<char>, k: int)
    requires
        new_fault(raw, dir) is None,
        0 <= k < raw.stages@.len(),
    ensures
        is_node(raw.nodes@, text_or(raw.stages@[k].placement, first_node(raw.nodes@))),
{
    let faults = stage_faults(raw.stages@, raw.nodes@, dir);
    lemma_no_fault(faults, k);
    assert(faults[k] == stage_fault(raw.stages@[k], raw.nodes@, dir));
    if raw.nodes@.len() > 0 {
        assert(node_names(raw.nodes@)[0] == raw.nodes@[0].name@);
    }
}

/// A stage without a component.
pub open spec fn old_stage_fault(s: OldStage) -> Option<SpecFault> {
    if s.wasm is None {
        Some(SpecFault::WasmMissing(s.name@))
    } else {
        None
    }
}

pub open spec fn old_stage_faults(stages: Seq<OldStage>) -> Seq<Option<SpecFault>> {
    stages.map_values(|s: OldStage| old_stage_fault(s))
}

/// What is wrong with a pipeline in the format with `pipeline:`.
pub open spec fn old_fault(raw: OldFormat) -> Option<SpecFault> {
    if raw.pipeline@.len() == 0 {
        Some(SpecFault::NoStages)
    } else {
        first_fault(old_stage_faults(raw.pipeline@))
    }
}

/// The stage that is written so: on the only node, and of the only type.
pub open spec fn is_old_stage(out: StageSpec, s: OldStage, dir: Seq<char>) -> bool {
    &&& s.wasm is Some
    &&& out.name == s.name
    &&& out.input_type@ == "event"@
    &&& out.output_type@ == "event"@
    &&& out.source matches StageSource::PrebuiltWasm(p) && p@ == path_from(dir, s.wasm->0@)
    &&& out.scaling.min_replicas == s.slo.min_replicas
    &&& out.scaling.max_replicas == s.slo.max_replicas
    &&& out.scaling.p99_ms@ == text_or(s.slo.p99_ms, "50"@)
    &&& out.scaling.queue_up@ == text_or(s.slo.queue_up, "50"@)
    &&& out.scaling.queue_down@ == text_or(s.slo.queue_down, "0"@)
    &&& out.scaling.cooldown_up_s@ == text_or(s.slo.cooldown_up_s, "0.1"@)
    &&& out.scaling.cooldown_down_s@ == text_or(s.slo.cooldown_down_s, "5"@)
    &&& out.placement@ == "local"@
    &&& out.deps@.len() == 0
}

/// The least of two ports.
pub open spec fn lesser(a: u16, b: u16) -> u16 {
    if b < a {
        b
    } else {
        a
    }
}

/// The lowest port that any of the dispatchers has.
pub open spec fn lowest_port(ds: Seq<OldDispatcher>) -> u16
    decreases ds.len(),
{
    if ds.len() == 0 {
        9000
    } else {
        let d = ds.last();
        let own = lesser(lesser(d.ctrl_port, d.push_port), d.pull_port);
        if ds.len() == 1 {
            own
        } else {
            lesser(lowest_port(ds.drop_last()), own)
        }
    }
}

/// An address on this machine.
pub open spec fn local_address(port: u16) -> Seq<char> {
    flat(seq!["tcp://localhost:"@, decimal(port as nat)])
}

fn local_uri(port: u16) -> (out: String)
    ensures
        out@ == local_address(port),
{
    let digits = decimal_text(port as u128);
    let parts = vec!["tcp://localhost:", digits.as_str()];
    assert(views(parts@) =~= seq!["tcp://localhost:"@, decimal(port as nat)]);
    concat(&parts)
}

fn least(a: u16, b: u16) -> (m: u16)
    ensures
        m == lesser(a, b),
{
    if b < a {
        b
    } else {
        a
    }
}

/// The pipeline that is written so in the format with `pipeline:`.
pub open spec fn is_old_spec(p: PipelineSpec, raw: OldFormat, dir: Seq<char>) -> bool {
    &&& p.package@ == "epico:legacy@0.1.0"@
    &&& p.nodes@.len() == 1
    &&& p.nodes@[0].name@ == "local"@
    &&& p.nodes@[0].host@ == "127.0.0.1"@
    &&& !p.nodes@[0].force_tcp
    &&& p.this_host@ == "local"@
    &&& p.stages@.len() == raw.pipeline@.len()
    &&& forall|i: int|
        0 <= i < p.stages@.len() ==> is_old_stage(#[trigger] p.stages@[i], raw.pipeline@[i], dir)
    &&& pair_texts(p.edges@) == implied_edges(
        raw.pipeline@.map_values(|s: OldStage| s.name@),
    )
    &&& p.port_base == lowest_port(raw.dispatchers@)
    &&& p.ingress@ == local_address(
        if raw.dispatchers@.len() > 0 {
            raw.dispatchers@[0].push_port
        } else {
            p.port_base
        },
    )
    &&& p.collector@ == (if raw.sinks@.len() > 0 {
        local_address(raw.sinks@[0])
    } else {
        "tcp://localhost:9999"@
    })
    &&& p.host@ == "localhost"@
    &&& p.types@.len() == 0
    &&& p.source is None
    &&& p.source_node is None
    &&& p.sink_node is None
    &&& p.resource_sample_interval_ms == 1000
    &&& p.credit_window == 1
    &&& p.batch_events == 1
    &&& p.event_format@ == "json"@
    &&& p.source_format@ == "binary"@
    &&& p.ingress_mode@ == "socket"@
    &&& p.source_threads is None
}

fn convert_old_stages(stages: Vec<OldStage>, dir: &str) -> (r: Result<Vec<StageSpec>, SpecError>)
    ensures
        match r {
            Err(e) => first_fault(old_stage_faults(stages@)) == Some(e@),
            Ok(out) => {
                &&& first_fault(old_stage_faults(stages@)) is None
                &&& out@.len() == stages@.len()
                &&& forall|i: int|
                    0 <= i < out@.len() ==> is_old_stage(#[trigger] out@[i], stages@[i], dir@)
            },
        },
{
    let ghost all = stages@;
    let ghost faults = old_stage_faults(all);
    let mut out: Vec<StageSpec> = Vec::new();
    assert(faults.take(0) =~= Seq::<Option<SpecFault>>::empty());
    for s in it: stages
        invariant
            it.seq() == all,
            out@.len() == it.index(),
            faults == old_stage_faults(all),
            first_fault(faults.take(it.index() as int)) is None,
            forall|i: int|
                0 <= i < out@.len() ==> is_old_stage(#[trigger] out@[i], all[i], dir@),
    {
        let ghost i = out@.len() as int;
        proof {
            assert(faults.take(i + 1).drop_last() =~= faults.take(i));
            assert(faults.take(i + 1).last() == old_stage_fault(all[i]));
            lemma_first_fault(faults, i + 1);
        }
        let wasm = match s.wasm {
            None => {
                return Err(SpecError::WasmMissing(s.name));
            },
            Some(w) => w,
        };
        let abs = join_path(dir, wasm.as_str());
        let scaling = ScalingSpec {
            min_replicas: s.slo.min_replicas,
            max_replicas: s.slo.max_replicas,
            p99_ms: or_text(s.slo.p99_ms, "50"),
            queue_up: or_text(s.slo.queue_up, "50"),
            queue_down: or_text(s.slo.queue_down, "0"),
            cooldown_up_s: or_text(s.slo.cooldown_up_s, "0.1"),
            cooldown_down_s: or_text(s.slo.cooldown_down_s, "5"),
        };
        out.push(
            StageSpec {
                name: s.name,
                input_type: "event".to_owned(),
                output_type: "event".to_owned(),
                source: StageSource::PrebuiltWasm(abs),
                scaling,
                placement: "local".to_owned(),
                deps: Vec::new(),
            },
        );
    }
    assert(faults.take(faults.len() as int) =~= faults);
    Ok(out)
}

fn lowest_declared_port(ds: &Vec<OldDispatcher>) -> (port: u16)
    ensures
        port == lowest_port(ds@),
{
    let mut low: u16 = 9000;
    let mut i: usize = 0;
    assert(ds@.take(0) =~= Seq::<OldDispatcher>::empty());
    while i < ds.len()
        invariant
            i <= ds@.len(),
            low == lowest_port(ds@.take(i as int)),
        decreases ds@.len() - i,
    {
        assert(ds@.take(i + 1).drop_last() =~= ds@.take(i as int));
        let d = ds[i];
        let own = least(least(d.ctrl_port, d.push_port), d.pull_port);
        low = if i == 0 {
            own
        } else {
            least(low, own)
        };
        i = i + 1;
    }
    assert(ds@.take(i as int) =~= ds@);
    low
}

/// Reads the format with `pipeline:`: one node, one type, each stage feeding
/// the next.
pub fn from_old_format(raw: OldFormat, dir: &str) -> (r: Result<PipelineSpec, SpecError>)
    ensures
        match r {
            Err(e) => old_fault(raw) == Some(e@),
            Ok(p) => old_fault(raw) is None && is_old_spec(p, raw, dir@) && p.wf(),
        },
{
    let ghost r0 = raw;
    if raw.pipeline.len() == 0 {
        return Err(SpecError::NoStages);
    }
    let stages = match convert_old_stages(raw.pipeline, dir) {
        Err(e) => {
            return Err(e);
        },
        Ok(s) => s,
    };
    assert(spec_names(stages@) =~= r0.pipeline@.map_values(|s: OldStage| s.name@));
    let edges = chain_edges(&stages);
    let collector = if raw.sinks.len() > 0 {
        local_uri(raw.sinks[0])
    } else {
        "tcp://localhost:9999".to_owned()
    };
    let port_base: u16 = lowest_declared_port(&raw.dispatchers);
    let ingress = if raw.dispatchers.len() > 0 {
        local_uri(raw.dispatchers[0].push_port)
    } else {
        local_uri(port_base)
    };
    let node = NodeSpec {
        name: "local".to_owned(),
        host: "127.0.0.1".to_owned(),
        force_tcp: false,
    };
    Ok(
        PipelineSpec {
            package: "epico:legacy@0.1.0".to_owned(),
            nodes: vec![node],
            this_host: "local".to_owned(),
            stages,
            edges,
            ingress,
            collector,
            port_base,
            host: "localhost".to_owned(),
            types: Vec::new(),
            source: None,
            source_node: None,
            sink_node: None,
            resource_sample_interval_ms: 1000,
            credit_window: 1,
            batch_events: 1,
            event_format: "json".to_owned(),
            source_format: default_source_format(),
            ingress_mode: default_ingress_mode(),
            source_threads: None,
        },
    )
}

/// The words in which a pipeline is refused.
pub open spec fn fault_text(f: SpecFault) -> Seq<char> {
    match f {
        SpecFault::NoStages => "pipeline has no stages"@,
        SpecFault::BothSources(s) => flat(
            seq!["stage "@, s, " has both `src` and `wasm`; pick one"@],
        ),
        SpecFault::SrcMissing(s, p) => flat(
            seq!["stage "@, s, ": src file not found: "@, quoted(p)],
        ),
        SpecFault::NeitherSource(s) => flat(
            seq!["stage "@, s, " has neither `src` nor `wasm`; one is required"@],
        ),
        SpecFault::UnknownPlacement(s, p) => flat(
            seq!["stage "@, s, ": placement "@, quoted(p), " does not match any declared node"@],
        ),
        SpecFault::BadEdge(e) => flat(
            seq!["bad edge spec "@, quoted(e), "; expected 'from -> to'"@],
        ),
        SpecFault::UnknownEdgeSource(s) => flat(
            seq!["edge source "@, quoted(s), " is not a declared stage"@],
        ),
        SpecFault::UnknownEdgeTarget(s) => flat(
            seq!["edge target "@, quoted(s), " is not a declared stage"@],
        ),
        SpecFault::TypeMismatch { from, to, produced, consumed } => flat(
            seq![
                "edge "@,
                from,
                " -> "@,
                to,
                " type mismatch: '"@,
                from,
                "' produces `"@,
                produced,
                "`, but '"@,
                to,
                "' consumes `"@,
                consumed,
                "`"@,
            ],
        ),
        SpecFault::UndeclaredOut(s, t) => flat(
            seq!["stage '"@, s, "' declares out: '"@, t, "', but no such type in `types:`"@],
        ),
        SpecFault::UndeclaredIn(s, t) => flat(
            seq!["stage '"@, s, "' declares in: '"@, t, "', but no such type in `types:`"@],
        ),
        SpecFault::UnknownHost(h) => flat(
            seq!["this_host "@, quoted(h), " does not match any declared node"@],
        ),
        SpecFault::NoIngress => NO_INGRESS@,
        SpecFault::SourceMissing(p) => flat(seq!["source: src file not found: "@, quoted(p)]),
        SpecFault::SourceIncomplete => "source: needs either `kind: loadgen` or `src: ./file.rs`"@,
        SpecFault::SinkMissing(p) => flat(seq!["sink: src file not found: "@, quoted(p)]),
        SpecFault::BadEventFormat(f) => flat(
            seq![
                "deploy.event_format "@,
                quoted(f),
                " is invalid; expected `json` or `binary`"@,
            ],
        ),
        SpecFault::WasmMissing(s) => flat(seq!["old-format stage "@, s, " missing `wasm` field"@]),
    }
}

/// What is said where a pipeline does not say where its events come in.
pub const NO_INGRESS: &'static str = "deploy.ingress: is required. Declare the pipeline entry URI explicitly, e.g.\n  deploy:\n    ingress:   tcp://localhost:9100   # or ipc:///tmp/my-pipeline-push\n    collector: tcp://localhost:9999";

impl SpecError {
    /// The words in which a pipeline is refused.
    pub fn message(&self) -> (out: String)
        ensures
            out@ == fault_text(self@),
    {
        match self {
            SpecError::NoStages => "pipeline has no stages".to_owned(),
            SpecError::BothSources(s) => {
                let v = vec!["stage ", s.as_str(), " has both `src` and `wasm`; pick one"];
                assert(views(v@) =~= seq!["stage "@, s@, " has both `src` and `wasm`; pick one"@]);
                concat(&v)
            },
            SpecError::SrcMissing(s, p) => {
                let q = quoted_text(p.as_str());
                let v = vec!["stage ", s.as_str(), ": src file not found: ", q.as_str()];
                assert(views(v@) =~= seq!["stage "@, s@, ": src file not found: "@, quoted(p@)]);
                concat(&v)
            },
            SpecError::NeitherSource(s) => {
                let v = vec![
                    "stage ",
                    s.as_str(),
                    " has neither `src` nor `wasm`; one is required",
                ];
                assert(views(v@) =~= seq![
                    "stage "@,
                    s@,
                    " has neither `src` nor `wasm`; one is required"@,
                ]);
                concat(&v)
            },
            SpecError::UnknownPlacement(s, p) => {
                let q = quoted_text(p.as_str());
                let v = vec![
                    "stage ",
                    s.as_str(),
                    ": placement ",
                    q.as_str(),
                    " does not match any declared node",
                ];
                assert(views(v@) =~= seq![
                    "stage "@,
                    s@,
                    ": placement "@,
                    quoted(p@),
                    " does not match any declared node"@,
                ]);
                concat(&v)
            },
            SpecError::BadEdge(e) => {
                let q = quoted_text(e.as_str());
                let v = vec!["bad edge spec ", q.as_str(), "; expected 'from -> to'"];
                assert(views(v@) =~= seq![
                    "bad edge spec "@,
                    quoted(e@),
                    "; expected 'from -> to'"@,
                ]);
                concat(&v)
            },
            SpecError::UnknownEdgeSource(s) => {
                let q = quoted_text(s.as_str());
                let v = vec!["edge source ", q.as_str(), " is not a declared stage"];
                assert(views(v@) =~= seq![
                    "edge source "@,
                    quoted(s@),
                    " is not a declared stage"@,
                ]);
                concat(&v)
            },
            SpecError::UnknownEdgeTarget(s) => {
                let q = quoted_text(s.as_str());
                let v = vec!["edge target ", q.as_str(), " is not a declared stage"];
                assert(views(v@) =~= seq![
                    "edge target "@,
                    quoted(s@),
                    " is not a declared stage"@,
                ]);
                concat(&v)
            },
            SpecError::TypeMismatch { from, to, produced, consumed } => {
                let v = vec![
                    "edge ",
                    from.as_str(),
                    " -> ",
                    to.as_str(),
                    " type mismatch: '",
                    from.as_str(),
                    "' produces `",
                    produced.as_str(),
                    "`, but '",
                    to.as_str(),
                    "' consumes `",
                    consumed.as_str(),
                    "`",
                ];
                assert(views(v@) =~= seq![
                    "edge "@,
                    from@,
                    " -> "@,
                    to@,
                    " type mismatch: '"@,
                    from@,
                    "' produces `"@,
                    produced@,
                    "`, but '"@,
                    to@,
                    "' consumes `"@,
                    consumed@,
                    "`"@,
                ]);
                concat(&v)
            },
            SpecError::UndeclaredOut(s, t) => {
                let v = vec![
                    "stage '",
                    s.as_str(),
                    "' declares out: '",
                    t.as_str(),
                    "', but no such type in `types:`",
                ];
                assert(views(v@) =~= seq![
                    "stage '"@,
                    s@,
                    "' declares out: '"@,
                    t@,
                    "', but no such type in `types:`"@,
                ]);
                concat(&v)
            },
            SpecError::UndeclaredIn(s, t) => {
                let v = vec![
                    "stage '",
                    s.as_str(),
                    "' declares in: '",
                    t.as_str(),
                    "', but no such type in `types:`",
                ];
                assert(views(v@) =~= seq![
                    "stage '"@,
                    s@,
                    "' declares in: '"@,
                    t@,
                    "', but no such type in `types:`"@,
                ]);
                concat(&v)
            },
            SpecError::UnknownHost(h) => {
                let q = quoted_text(h.as_str());
                let v = vec!["this_host ", q.as_str(), " does not match any declared node"];
                assert(views(v@) =~= seq![
                    "this_host "@,
                    quoted(h@),
                    " does not match any declared node"@,
                ]);
                concat(&v)
            },
            SpecError::NoIngress => NO_INGRESS.to_owned(),
            SpecError::SourceMissing(p) => {
                let q = quoted_text(p.as_str());
                let v = vec!["source: src file not found: ", q.as_str()];
                assert(views(v@) =~= seq!["source: src file not found: "@, quoted(p@)]);
                concat(&v)
            },
            SpecError::SourceIncomplete => {
                "source: needs either `kind: loadgen` or `src: ./file.rs`".to_owned()
            },
            SpecError::SinkMissing(p) => {
                let q = quoted_text(p.as_str());
                let v = vec!["sink: src file not found: ", q.as_str()];
                assert(views(v@) =~= seq!["sink: src file not found: "@, quoted(p@)]);
                concat(&v)
            },
            SpecError::BadEventFormat(f) => {
                let q = quoted_text(f.as_str());
                let v = vec![
                    "deploy.event_format ",
                    q.as_str(),
                    " is invalid; expected `json` or `binary`",
                ];
                assert(views(v@) =~= seq![
                    "deploy.event_format "@,
                    quoted(f@),
                    " is invalid; expected `json` or `binary`"@,
                ]);
                concat(&v)
            },
            SpecError::WasmMissing(s) => {
                let v = vec!["old-format stage ", s.as_str(), " missing `wasm` field"];
                assert(views(v@) =~= seq!["old-format stage "@, s@, " missing `wasm` field"@]);
                concat(&v)
            },
        }
    }
}

/// A key of a pipeline file, where the file is a table.
pub open spec fn has_key(file: Yaml, name: Seq<char>) -> bool {
    file matches Yaml::Table(entries) && exists|i: int|
        0 <= i < entries@.len() && (#[trigger] entries@[i].0 matches Yaml::Text(k) && k@ == name)
}

fn find_key(file: &Yaml, name: &str) -> (r: bool)
    ensures
        r == has_key(*file, name@),
{
    if let Yaml::Table(entries) = file {
        let mut i: usize = 0;
        while i < entries.len()
            invariant
                i <= entries@.len(),
                *file == Yaml::Table(*entries),
                forall|k: int|
                    0 <= k < i ==> !(#[trigger] entries@[k].0 matches Yaml::Text(t) && t@ == name@),
            decreases entries@.len() - i,
        {
            if let Yaml::Text(k) = &entries[i].0 {
                if same(k.as_str(), name) {
                    assert(entries@[i as int].0 matches Yaml::Text(t) && t@ == name@);
                    return true;
                }
            }
            i = i + 1;
        }
    }
    false
}

/// Whether a pipeline file is in the format with `stages:`.
pub fn is_new_format(file: &Yaml) -> (r: bool)
    ensures
        r == (has_key(*file, "stages"@) || has_key(*file, "types"@)),
{
    find_key(file, "stages") || find_key(file, "types")
}

} // verus!
