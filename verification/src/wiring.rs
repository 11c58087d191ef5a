//! How the stages of a pipeline are wired together on one host: which edges
//! are kept in the process, how wide they are, who writes where, and which
//! dispatchers are left to be started.

use vstd::prelude::*;
use crate::config::{
    fused_name, fused_stage_name, has_name, make_push_endpoint, pair_texts, preds_of, sink_places,
    source_places, Config, DispatcherConfig, EdgeNames, PipelineStage,
};
use crate::numtext::{owned_views, parse_number, parsed};
use crate::text::{
    has_prefix, lowered, same, strip_prefix, to_lower, trim, trimmed, without_prefix,
    without_prefixes,
};

verus! {

/// What the environment asks for, variable by variable.
#[derive(Debug)]
pub struct EnvKnobs {
    pub source_gen: Option<String>,
    pub inproc_ingress: Option<String>,
    pub inproc_edges: Option<String>,
    pub edge_cap: Option<String>,
    pub edge_impl: Option<String>,
    pub spsc_ring_cap: Option<String>,
    pub source_threads: Option<String>,
    pub source_format: Option<String>,
}

/// The variable says yes.
pub open spec fn is_yes(v: Option<String>) -> bool {
    match v {
        None => false,
        Some(t) => t@ == "1"@ || lowered(t@) == "true"@,
    }
}

fn says_yes(v: &Option<String>) -> (b: bool)
    ensures
        b == is_yes(*v),
{
    match v {
        None => false,
        Some(t) => same(t.as_str(), "1") || same(to_lower(t.as_str()).as_str(), "true"),
    }
}

/// What is kept in the process.
#[derive(Clone, Copy, Debug, PartialEq, Eq, Structural)]
pub struct InProcess {
    /// The agent makes the events up itself.
    pub source_gen: bool,
    /// The first stage is fed, and the last ones are drained, in the process.
    pub ingress: bool,
    /// Stages feed each other in the process.
    pub edges: bool,
}

/// What is kept in the process: events from a source of its own never need a
/// socket, and a pipeline fed in the process is wired in it too.
pub open spec fn in_process(env: EnvKnobs, c: Config, own_source: bool) -> InProcess {
    let ingress = own_source || is_yes(env.source_gen) || is_yes(env.inproc_ingress)
        || c.ingress_mode@ == "inprocess"@ || c.ingress_mode@ == "inproc"@;
    InProcess {
        source_gen: is_yes(env.source_gen),
        ingress,
        edges: ingress || is_yes(env.inproc_edges) || c.edge_impl@ == "mpmc"@ || c.edge_impl@
            == "spsc"@,
    }
}

pub fn kept_in_process(env: &EnvKnobs, c: &Config, own_source: bool) -> (p: InProcess)
    ensures
        p == in_process(*env, *c, own_source),
{
    let source_gen = says_yes(&env.source_gen);
    let ingress = own_source || source_gen || says_yes(&env.inproc_ingress) || same(
        c.ingress_mode.as_str(),
        "inprocess",
    ) || same(c.ingress_mode.as_str(), "inproc");
    let edges = ingress || says_yes(&env.inproc_edges) || same(c.edge_impl.as_str(), "mpmc")
        || same(c.edge_impl.as_str(), "spsc");
    InProcess { source_gen, ingress, edges }
}

/// A capacity: what the environment says, if that is a positive number, and
/// what is declared otherwise.
pub open spec fn capacity_of(env: Option<String>, declared: usize) -> usize {
    match env {
        None => declared,
        Some(t) => match parsed(t@, usize::MAX as nat) {
            None => declared,
            Some(n) => if n == 0 {
                declared
            } else {
                n as usize
            },
        },
    }
}

pub fn capacity_or(env: &Option<String>, declared: usize) -> (n: usize)
    ensures
        n == capacity_of(*env, declared),
{
    match env {
        None => declared,
        Some(t) => match parse_number(t.as_str(), usize::MAX as u64) {
            None => declared,
            Some(n) => if n == 0 {
                declared
            } else {
                n as usize
            },
        },
    }
}

/// How many threads pump the source in: what the environment says, else what is
/// declared, else one, and one at least.
pub open spec fn source_threads_of(env: Option<String>, declared: Option<usize>) -> usize {
    let asked = match env {
        None => None,
        Some(t) => parsed(t@, usize::MAX as nat),
    };
    let n = match asked {
        Some(n) => n,
        None => match declared {
            Some(d) => d as nat,
            None => 1,
        },
    };
    if n == 0 {
        1
    } else {
        n as usize
    }
}

pub fn source_threads(env: &Option<String>, declared: Option<usize>) -> (n: usize)
    ensures
        n == source_threads_of(*env, declared),
{
    let asked: Option<u64> = match env {
        None => None,
        Some(t) => parse_number(t.as_str(), usize::MAX as u64),
    };
    let n: usize = match asked {
        Some(n) => n as usize,
        None => match declared {
            Some(d) => d,
            None => 1,
        },
    };
    if n == 0 {
        1
    } else {
        n
    }
}

/// The source is to emit binary events.
pub open spec fn source_is_binary(env: Option<String>, declared: Seq<char>) -> bool {
    let format = match env {
        None => declared,
        Some(t) => lowered(trimmed(t@)),
    };
    format == "binary"@ || format == "epico-binary"@
}

pub fn source_binary(env: &Option<String>, declared: &String) -> (b: bool)
    ensures
        b == source_is_binary(*env, declared@),
{
    let format = match env {
        None => declared.clone(),
        Some(t) => to_lower(trim(t.as_str()).as_str()),
    };
    same(format.as_str(), "binary") || same(format.as_str(), "epico-binary")
}

/// The name under which a stage's dispatcher is looked for: that of the stage, with
/// one `fn-` in front of it taken off.
pub open spec fn dispatcher_sought(stage: Seq<char>) -> Seq<char> {
    "dispatch-"@ + without_prefix(stage, "fn-"@)
}

/// Law: the dispatcher that the runtime file names for a stage is the one that is
/// looked for, unless the name of the stage begins with `fn-` twice.
pub proof fn law_named_dispatchers_are_found(stage: Seq<char>)
    requires
        !has_prefix(without_prefix(stage, "fn-"@), "fn-"@),
    ensures
        crate::runtime_yaml::dispatcher_of(stage) == dispatcher_sought(stage),
{
    reveal_strlit("fn-");
    reveal_with_fuel(without_prefixes, 2);
}

/// The name under which a stage's dispatcher is looked for.
pub fn dispatcher_for(stage: &str) -> (out: String)
    ensures
        out@ == dispatcher_sought(stage@),
{
    let mut out = "dispatch-".to_owned();
    match strip_prefix(stage, "fn-") {
        None => {
            out.append(stage);
        },
        Some(bare) => {
            out.append(bare.as_str());
        },
    }
    out
}

/// The storage of an edge.
#[derive(Clone, Copy, Debug, PartialEq, Eq, Structural)]
pub enum EdgeShape {
    /// One ring that everybody shares.
    Ring { cap: usize },
    /// A ring for every producer and consumer.
    Mesh { n_prod: usize, n_cons: usize, ring_cap: usize },
}

/// A stage's place on an edge it writes to.
#[derive(Clone, Copy, Debug, PartialEq, Eq, Structural)]
pub enum OutSlot {
    Ring { edge: usize },
    /// Replica `r` writes to row `base + r`.
    Mesh { edge: usize, base: usize },
}

/// The edges of a pipeline. An edge is known by its place in the list.
#[derive(Debug)]
pub struct EdgePlan {
    pub edges: Vec<EdgeShape>,
    /// The edge a stage reads from. The last entry of a stage counts.
    pub inputs: Vec<(String, usize)>,
    /// The edges a stage writes to, in the order of its entries.
    pub outputs: Vec<(String, OutSlot)>,
    /// The dispatchers that are not needed.
    pub skip: Vec<String>,
    /// The edge that the source feeds.
    pub ingress: Option<usize>,
    /// The edge that the collector drains.
    pub egress: Option<usize>,
}

/// The edges of a pipeline, as a value.
pub struct PlanModel {
    pub edges: Seq<EdgeShape>,
    pub inputs: Seq<(Seq<char>, usize)>,
    pub outputs: Seq<(Seq<char>, OutSlot)>,
    pub skip: Seq<Seq<char>>,
    pub ingress: Option<usize>,
    pub egress: Option<usize>,
}

impl View for EdgePlan {
    type V = PlanModel;

    open spec fn view(&self) -> PlanModel {
        PlanModel {
            edges: self.edges@,
            inputs: self.inputs@.map_values(|e: (String, usize)| (e.0@, e.1)),
            outputs: self.outputs@.map_values(|e: (String, OutSlot)| (e.0@, e.1)),
            skip: owned_views(self.skip@),
            ingress: self.ingress,
            egress: self.egress,
        }
    }
}

/// The names among `all` that are those of stages.
pub open spec fn known_among(names: Seq<Seq<char>>, all: Seq<Seq<char>>) -> Seq<Seq<char>>
    decreases all.len(),
{
    if all.len() == 0 {
        Seq::empty()
    } else if has_name(names, all.last()) {
        known_among(names, all.drop_last()).push(all.last())
    } else {
        known_among(names, all.drop_last())
    }
}

/// The stages that feed a stage.
pub open spec fn feeders(c: Config, stage: Seq<char>) -> Seq<Seq<char>> {
    known_among(c.names(), preds_of(c.edge_list(), stage))
}

/// How many rows some stages need on one mesh.
pub open spec fn rows_for(c: Config, stages: Seq<Seq<char>>) -> nat
    decreases stages.len(),
{
    if stages.len() == 0 {
        0
    } else {
        rows_for(c, stages.drop_last()) + c.producers_for(c.fusible_names(), stages.last())
    }
}

/// One at least.
pub open spec fn at_least_one(n: nat) -> usize {
    if n == 0 {
        1
    } else {
        n as usize
    }
}

/// The places of some stages on a mesh: each has the rows behind those of the
/// stages before it.
pub open spec fn mesh_slots(c: Config, stages: Seq<Seq<char>>, edge: usize) -> Seq<
    (Seq<char>, OutSlot),
>
    decreases stages.len(),
{
    if stages.len() == 0 {
        Seq::empty()
    } else {
        mesh_slots(c, stages.drop_last(), edge).push(
            (
                stages.last(),
                OutSlot::Mesh { edge, base: rows_for(c, stages.drop_last()) as usize },
            ),
        )
    }
}

/// The places of some stages on a shared ring.
pub open spec fn ring_slots(stages: Seq<Seq<char>>, edge: usize) -> Seq<(Seq<char>, OutSlot)> {
    stages.map_values(|s: Seq<char>| (s, OutSlot::Ring { edge }))
}

/// The plan without any edge.
pub open spec fn empty_plan() -> PlanModel {
    PlanModel {
        edges: Seq::empty(),
        inputs: Seq::empty(),
        outputs: Seq::empty(),
        skip: Seq::empty(),
        ingress: None,
        egress: None,
    }
}

/// The plan with the edge into one more stage: one edge that all its feeders
/// share, wide enough for every stage that may be fused onto it.
pub open spec fn with_input(
    m: PlanModel,
    c: Config,
    stage: Seq<char>,
    mesh: bool,
    cap: usize,
    ring_cap: usize,
) -> PlanModel {
    let from = feeders(c, stage);
    let id = m.edges.len() as usize;
    if from.len() == 0 {
        m
    } else {
        PlanModel {
            edges: m.edges.push(
                if mesh {
                    EdgeShape::Mesh {
                        n_prod: at_least_one(rows_for(c, from)),
                        n_cons: at_least_one(c.consumers_for(c.fusible_names(), stage)),
                        ring_cap,
                    }
                } else {
                    EdgeShape::Ring { cap }
                },
            ),
            inputs: m.inputs.push((stage, id)),
            outputs: m.outputs + if mesh {
                mesh_slots(c, from, id)
            } else {
                ring_slots(from, id)
            },
            skip: m.skip.push(dispatcher_sought(stage)),
            ..m
        }
    }
}

/// The plan with the edges into the first `n` stages.
pub open spec fn with_inputs(
    c: Config,
    n: nat,
    mesh: bool,
    cap: usize,
    ring_cap: usize,
) -> PlanModel
    decreases n,
{
    if n == 0 {
        empty_plan()
    } else {
        with_input(
            with_inputs(c, (n - 1) as nat, mesh, cap, ring_cap),
            c,
            c.names()[n - 1],
            mesh,
            cap,
            ring_cap,
        )
    }
}

/// The names of some stages by their places.
pub open spec fn names_at(names: Seq<Seq<char>>, places: Seq<int>) -> Seq<Seq<char>> {
    places.map_values(|i: int| names[i])
}

/// The plan with the edge that the source feeds: into the first stage that
/// nothing else feeds.
pub open spec fn with_ingress(m: PlanModel, c: Config, cap: usize) -> PlanModel {
    let sources = source_places(c.names(), c.edge_list());
    if sources.len() == 0 {
        m
    } else {
        let first = c.names()[sources[0]];
        let id = m.edges.len() as usize;
        PlanModel {
            edges: m.edges.push(EdgeShape::Ring { cap }),
            inputs: m.inputs.push((first, id)),
            skip: m.skip.push(dispatcher_sought(first)),
            ingress: Some(id),
            ..m
        }
    }
}

/// The plan with the edge that the collector drains, shared by all stages that
/// feed nothing else.
pub open spec fn with_egress(m: PlanModel, c: Config, cap: usize) -> PlanModel {
    let sinks = names_at(c.names(), sink_places(c.names(), c.edge_list()));
    if sinks.len() == 0 {
        m
    } else {
        let id = m.edges.len() as usize;
        PlanModel {
            edges: m.edges.push(EdgeShape::Ring { cap }),
            outputs: m.outputs + ring_slots(sinks, id),
            egress: Some(id),
            ..m
        }
    }
}

/// The edges that are kept in the process.
pub open spec fn planned(
    c: Config,
    p: InProcess,
    mesh: bool,
    cap: usize,
    ring_cap: usize,
) -> PlanModel {
    let inner = if p.edges {
        with_inputs(c, c.names().len(), mesh, cap, ring_cap)
    } else {
        empty_plan()
    };
    if p.ingress {
        with_egress(with_ingress(inner, c, cap), c, cap)
    } else {
        inner
    }
}

/// The rows of every mesh can be counted.
pub open spec fn rows_fit(c: Config) -> bool {
    forall|i: int|
        0 <= i < c.names().len() ==> rows_for(c, feeders(c, #[trigger] c.names()[i])) <= usize::MAX
}

proof fn lemma_rows_grow(c: Config, stages: Seq<Seq<char>>, i: int)
    requires
        0 <= i <= stages.len(),
    ensures
        rows_for(c, stages.take(i)) <= rows_for(c, stages),
    decreases stages.len() - i,
{
    if i < stages.len() {
        assert(stages.take(i + 1).drop_last() =~= stages.take(i));
        lemma_rows_grow(c, stages, i + 1);
    } else {
        assert(stages.take(i) =~= stages);
    }
}

impl EdgePlan {
    fn new() -> (p: EdgePlan)
        ensures
            p@ == empty_plan(),
    {
        let p = EdgePlan {
            edges: Vec::new(),
            inputs: Vec::new(),
            outputs: Vec::new(),
            skip: Vec::new(),
            ingress: None,
            egress: None,
        };
        assert(p@.inputs =~= empty_plan().inputs);
        assert(p@.outputs =~= empty_plan().outputs);
        assert(p@.skip =~= empty_plan().skip);
        p
    }

    fn add_input(
        &mut self,
        c: &Config,
        at: usize,
        mesh: bool,
        cap: usize,
        ring_cap: usize,
    )
        requires
            at < c.pipeline@.len(),
            c.replicas_add_up(),
            rows_fit(*c),
        ensures
            final(self)@ == with_input(
                old(self)@,
                *c,
                c.names()[at as int],
                mesh,
                cap,
                ring_cap,
            ),
    {
        let name = &c.pipeline[at].name;
        let ghost stage = c.names()[at as int];
        assert(stage == name@);
        let preds = c.preds(name);
        let ghost all = preds_of(c.edge_list(), stage);
        let ghost f = |s: &String| s@;
        assert(preds@.map_values(f) == all);
        let mut from: Vec<&String> = Vec::new();
        let mut i: usize = 0;
        assert(from@.map_values(f) =~= known_among(c.names(), all.take(0)));
        while i < preds.len()
            invariant
                i <= preds@.len(),
                f == (|s: &String| s@),
                preds@.map_values(f) == all,
                from@.map_values(f) == known_among(c.names(), all.take(i as int)),
            decreases preds@.len() - i,
        {
            assert(all.take(i + 1).drop_last() =~= all.take(i as int));
            assert(all[i as int] == preds@[i as int]@);
            if c.stage(preds[i]).is_some() {
                let ghost was = from@;
                from.push(preds[i]);
                assert(from@.map_values(f) =~= was.map_values(f).push(preds@[i as int]@));
            }
            i = i + 1;
        }
        assert(all.take(i as int) =~= all);
        let ghost who = feeders(*c, stage);
        assert(from@.map_values(f) == who);
        if from.len() == 0 {
            assert(who.len() == 0);
            return ;
        }
        let ghost was = self@;
        let id: usize = self.edges.len();
        if mesh {
            let mut base: usize = 0;
            let mut k: usize = 0;
            assert(who.take(0) =~= Seq::<Seq<char>>::empty());
            assert(self@.outputs =~= was.outputs + mesh_slots(*c, who.take(0), id));
            while k < from.len()
                invariant
                    k <= from@.len(),
                    at < c.pipeline@.len(),
                    stage == c.names()[at as int],
                    c.replicas_add_up(),
                    rows_fit(*c),
                    f == (|s: &String| s@),
                    who == feeders(*c, stage),
                    from@.map_values(f) == who,
                    base == rows_for(*c, who.take(k as int)),
                    self.edges == old(self).edges,
                    self.inputs == old(self).inputs,
                    self.skip == old(self).skip,
                    self.ingress == old(self).ingress,
                    self.egress == old(self).egress,
                    self@.outputs == was.outputs + mesh_slots(*c, who.take(k as int), id),
                decreases from@.len() - k,
            {
                assert(who.take(k + 1).drop_last() =~= who.take(k as int));
                assert(who[k as int] == from@[k as int]@);
                proof {
                    lemma_rows_grow(*c, who, k + 1);
                }
                let width: usize = c.max_producers(from[k]);
                let ghost before = self@.outputs;
                self.outputs.push((from[k].clone(), OutSlot::Mesh { edge: id, base }));
                assert(self@.outputs =~= before.push(
                    (from@[k as int]@, OutSlot::Mesh { edge: id, base }),
                ));
                assert(self@.outputs =~= was.outputs + mesh_slots(*c, who.take(k + 1), id));
                base = base + width;
                k = k + 1;
            }
            assert(who.take(k as int) =~= who);
            let n_cons: usize = c.max_consumers(name);
            self.edges.push(
                EdgeShape::Mesh {
                    n_prod: if base == 0 {
                        1
                    } else {
                        base
                    },
                    n_cons: if n_cons == 0 {
                        1
                    } else {
                        n_cons
                    },
                    ring_cap,
                },
            );
        } else {
            let mut k: usize = 0;
            assert(self@.outputs =~= was.outputs + ring_slots(who.take(0), id));
            while k < from.len()
                invariant
                    k <= from@.len(),
                    f == (|s: &String| s@),
                    from@.map_values(f) == who,
                    self.edges == old(self).edges,
                    self.inputs == old(self).inputs,
                    self.skip == old(self).skip,
                    self.ingress == old(self).ingress,
                    self.egress == old(self).egress,
                    self@.outputs == was.outputs + ring_slots(who.take(k as int), id),
                decreases from@.len() - k,
            {
                assert(who[k as int] == from@[k as int]@);
                let ghost before = self@.outputs;
                self.outputs.push((from[k].clone(), OutSlot::Ring { edge: id }));
                assert(self@.outputs =~= before.push(
                    (from@[k as int]@, OutSlot::Ring { edge: id }),
                ));
                assert(self@.outputs =~= was.outputs + ring_slots(who.take(k + 1), id));
                k = k + 1;
            }
            assert(who.take(k as int) =~= who);
            self.edges.push(EdgeShape::Ring { cap });
        }
        self.inputs.push((name.clone(), id));
        self.skip.push(dispatcher_for(name.as_str()));
        proof {
            let want = with_input(was, *c, stage, mesh, cap, ring_cap);
            assert(self@.inputs =~= want.inputs);
            assert(self@.skip =~= want.skip);
            assert(self@.edges =~= want.edges);
        }
    }

    fn add_ingress(&mut self, c: &Config, cap: usize)
        ensures
            final(self)@ == with_ingress(old(self)@, *c, cap),
    {
        let sources = c.sources();
        let ghost places = source_places(c.names(), c.edge_list());
        if sources.len() == 0 {
            return ;
        }
        proof {
            lemma_source_places(c.names(), c.edge_list());
        }
        let first = &sources[0].name;
        assert(*sources@[0] == c.pipeline@[places[0]]);
        assert(first@ == c.names()[places[0]]);
        let id: usize = self.edges.len();
        self.edges.push(EdgeShape::Ring { cap });
        self.inputs.push((first.clone(), id));
        self.skip.push(dispatcher_for(first.as_str()));
        self.ingress = Some(id);
        proof {
            let want = with_ingress(old(self)@, *c, cap);
            assert(self@.inputs =~= want.inputs);
            assert(self@.skip =~= want.skip);
        }
    }

    fn add_egress(&mut self, c: &Config, cap: usize)
        ensures
            final(self)@ == with_egress(old(self)@, *c, cap),
    {
        let sinks = c.sinks();
        let ghost places = sink_places(c.names(), c.edge_list());
        let ghost names = names_at(c.names(), places);
        if sinks.len() == 0 {
            return ;
        }
        proof {
            lemma_sink_places(c.names(), c.edge_list());
        }
        let ghost was = self@;
        let id: usize = self.edges.len();
        let mut k: usize = 0;
        assert(self@.outputs =~= was.outputs + ring_slots(names.take(0), id));
        while k < sinks.len()
            invariant
                k <= sinks@.len(),
                places == sink_places(c.names(), c.edge_list()),
                names == names_at(c.names(), places),
                sinks@.len() == places.len(),
                forall|j: int| 0 <= j < places.len() ==> 0 <= #[trigger] places[j] < c.names().len(),
                forall|j: int|
                    0 <= j < sinks@.len() ==> *(#[trigger] sinks@[j]) == c.pipeline@[places[j]],
                self.edges == old(self).edges,
                self.inputs == old(self).inputs,
                self.skip == old(self).skip,
                self.ingress == old(self).ingress,
                self.egress == old(self).egress,
                self@.outputs == was.outputs + ring_slots(names.take(k as int), id),
            decreases sinks@.len() - k,
        {
            assert(*sinks@[k as int] == c.pipeline@[places[k as int]]);
            assert(names[k as int] == sinks@[k as int].name@);
            let ghost before = self@.outputs;
            self.outputs.push((sinks[k].name.clone(), OutSlot::Ring { edge: id }));
            assert(self@.outputs =~= before.push((names[k as int], OutSlot::Ring { edge: id })));
            assert(self@.outputs =~= was.outputs + ring_slots(names.take(k + 1), id));
            k = k + 1;
        }
        assert(names.take(k as int) =~= names);
        self.edges.push(EdgeShape::Ring { cap });
        self.egress = Some(id);
        proof {
            let want = with_egress(was, *c, cap);
            assert(self@.inputs =~= want.inputs);
            assert(self@.skip =~= want.skip);
        }
    }
}

proof fn lemma_source_places(names: Seq<Seq<char>>, edges: Seq<EdgeNames>)
    ensures
        forall|i: int|
            0 <= i < source_places(names, edges).len() ==> 0 <= #[trigger] source_places(
                names,
                edges,
            )[i] < names.len(),
    decreases names.len(),
{
    if names.len() > 0 {
        lemma_source_places(names.drop_last(), edges);
        assert forall|i: int| 0 <= i < source_places(names, edges).len() implies 0
            <= #[trigger] source_places(names, edges)[i] < names.len() by {
            if i < source_places(names.drop_last(), edges).len() {
                assert(0 <= source_places(names.drop_last(), edges)[i]);
            }
        }
    }
}

proof fn lemma_sink_places(names: Seq<Seq<char>>, edges: Seq<EdgeNames>)
    ensures
        forall|i: int|
            0 <= i < sink_places(names, edges).len() ==> 0 <= #[trigger] sink_places(
                names,
                edges,
            )[i] < names.len(),
    decreases names.len(),
{
    if names.len() > 0 {
        lemma_sink_places(names.drop_last(), edges);
        assert forall|i: int| 0 <= i < sink_places(names, edges).len() implies 0
            <= #[trigger] sink_places(names, edges)[i] < names.len() by {
            if i < sink_places(names.drop_last(), edges).len() {
                assert(0 <= sink_places(names.drop_last(), edges)[i]);
            }
        }
    }
}

/// Lays the edges of a pipeline out. There is one input edge per consumer
/// stage, which all its feeders share; a stage that feeds several others has an
/// entry for each.
pub fn plan_edges(
    c: &Config,
    p: &InProcess,
    edge_impl: &String,
    cap: usize,
    ring_cap: usize,
) -> (plan: EdgePlan)
    requires
        c.replicas_add_up(),
        rows_fit(*c),
    ensures
        plan@ == planned(*c, *p, edge_impl@ == "spsc"@, cap, ring_cap),
{
    let mesh = same(edge_impl.as_str(), "spsc");
    let mut plan = EdgePlan::new();
    if p.edges {
        let n: usize = c.pipeline.len();
        let mut i: usize = 0;
        while i < n
            invariant
                i <= n == c.pipeline@.len(),
                c.replicas_add_up(),
                rows_fit(*c),
                plan@ == with_inputs(*c, i as nat, mesh, cap, ring_cap),
            decreases n - i,
        {
            plan.add_input(c, i, mesh, cap, ring_cap);
            i = i + 1;
        }
        assert(c.names().len() == n);
    }
    if p.ingress {
        plan.add_ingress(c, cap);
        plan.add_egress(c, cap);
    }
    plan
}

/// Law: on a mesh, the rows of one producer stage end before those of the next
/// begin, and all of them are rows the mesh has. No two stages ever write to
/// one ring.
pub proof fn law_producer_rows_are_disjoint(c: Config, stages: Seq<Seq<char>>, edge: usize, i: int, j: int)
    requires
        rows_for(c, stages) <= usize::MAX,
        0 <= i < j < stages.len(),
    ensures
        mesh_slots(c, stages, edge).len() == stages.len(),
        mesh_slots(c, stages, edge)[i].0 == stages[i],
        mesh_slots(c, stages, edge)[i].1->base + c.producers_for(c.fusible_names(), stages[i])
            <= mesh_slots(c, stages, edge)[j].1->base,
        mesh_slots(c, stages, edge)[j].1->base + c.producers_for(c.fusible_names(), stages[j])
            <= rows_for(c, stages),
{
    lemma_slot_base(c, stages, edge, i);
    lemma_slot_base(c, stages, edge, j);
    assert(stages.take(i + 1).drop_last() =~= stages.take(i));
    assert(stages.take(j + 1).drop_last() =~= stages.take(j));
    lemma_rows_grow(c, stages, i);
    lemma_rows_grow(c, stages, j);
    lemma_rows_grow(c, stages, j + 1);
    lemma_rows_grow(c, stages.take(j), i + 1);
    assert(stages.take(j).take(i + 1) =~= stages.take(i + 1));
}

proof fn lemma_slot_base(c: Config, stages: Seq<Seq<char>>, edge: usize, i: int)
    requires
        0 <= i < stages.len(),
    ensures
        mesh_slots(c, stages, edge).len() == stages.len(),
        mesh_slots(c, stages, edge)[i].0 == stages[i],
        mesh_slots(c, stages, edge)[i].1 == (OutSlot::Mesh {
            edge,
            base: rows_for(c, stages.take(i)) as usize,
        }),
    decreases stages.len(),
{
    let rest = stages.drop_last();
    if i == stages.len() - 1 {
        assert(stages.take(i) =~= rest);
        if rest.len() > 0 {
            lemma_slot_base(c, rest, edge, 0);
        } else {
            assert(mesh_slots(c, rest, edge).len() == 0);
        }
    } else {
        lemma_slot_base(c, rest, edge, i);
        assert(rest.take(i) =~= stages.take(i));
    }
}

/// The last edge entered for a stage.
pub open spec fn input_entry(inputs: Seq<(Seq<char>, usize)>, stage: Seq<char>) -> Option<usize>
    decreases inputs.len(),
{
    if inputs.len() == 0 {
        None
    } else if inputs.last().0 == stage {
        Some(inputs.last().1)
    } else {
        input_entry(inputs.drop_last(), stage)
    }
}

/// The places entered for a stage.
pub open spec fn output_entries(outputs: Seq<(Seq<char>, OutSlot)>, stage: Seq<char>) -> Seq<OutSlot>
    decreases outputs.len(),
{
    if outputs.len() == 0 {
        Seq::empty()
    } else if outputs.last().0 == stage {
        output_entries(outputs.drop_last(), stage).push(outputs.last().1)
    } else {
        output_entries(outputs.drop_last(), stage)
    }
}

impl EdgePlan {
    /// The edge a stage reads from.
    pub fn input_of(&self, stage: &String) -> (edge: Option<usize>)
        ensures
            edge == input_entry(self@.inputs, stage@),
    {
        let ghost all = self@.inputs;
        let mut i: usize = self.inputs.len();
        assert(all.take(i as int) =~= all);
        while i > 0
            invariant
                i <= self.inputs@.len(),
                all == self@.inputs,
                input_entry(all, stage@) == input_entry(all.take(i as int), stage@),
            decreases i,
        {
            i = i - 1;
            assert(all.take(i + 1).drop_last() =~= all.take(i as int));
            assert(all[i as int] == (self.inputs@[i as int].0@, self.inputs@[i as int].1));
            if self.inputs[i].0 == *stage {
                return Some(self.inputs[i].1);
            }
        }
        None
    }

    /// The edges a stage writes to.
    pub fn outputs_of(&self, stage: &String) -> (slots: Vec<OutSlot>)
        ensures
            slots@ == output_entries(self@.outputs, stage@),
    {
        let ghost all = self@.outputs;
        let mut slots: Vec<OutSlot> = Vec::new();
        let mut i: usize = 0;
        assert(slots@ =~= output_entries(all.take(0), stage@));
        while i < self.outputs.len()
            invariant
                i <= self.outputs@.len(),
                all == self@.outputs,
                slots@ == output_entries(all.take(i as int), stage@),
            decreases self.outputs@.len() - i,
        {
            assert(all.take(i + 1).drop_last() =~= all.take(i as int));
            assert(all[i as int] == (self.outputs@[i as int].0@, self.outputs@[i as int].1));
            if self.outputs[i].0 == *stage {
                slots.push(self.outputs[i].1);
            }
            i = i + 1;
        }
        assert(all.take(i as int) =~= all);
        slots
    }

    /// Whether a dispatcher is still to be started.
    pub fn needs_dispatcher(&self, d: &DispatcherConfig) -> (b: bool)
        ensures
            b == !has_name(self@.skip, d.name@),
    {
        let mut i: usize = 0;
        while i < self.skip.len()
            invariant
                i <= self.skip@.len(),
                forall|k: int| 0 <= k < i ==> #[trigger] self@.skip[k] != d.name@,
            decreases self.skip@.len() - i,
        {
            assert(self@.skip[i as int] == self.skip@[i as int]@);
            if self.skip[i] == d.name {
                return false;
            }
            i = i + 1;
        }
        true
    }
}

/// The replicas that all stages may have together.
pub open spec fn all_replicas(pipeline: Seq<PipelineStage>) -> nat
    decreases pipeline.len(),
{
    if pipeline.len() == 0 {
        0
    } else {
        all_replicas(pipeline.drop_last()) + pipeline.last().slo.max_replicas as nat
    }
}

/// The instances to be kept for fused replicas, each of which takes two.
pub open spec fn fused_replicas(c: Config, pairs: Seq<EdgeNames>) -> nat
    decreases pairs.len(),
{
    if pairs.len() == 0 {
        0
    } else {
        fused_replicas(c, pairs.drop_last()) + 2 * (c.max_of(pairs.last().0) + c.max_of(
            pairs.last().1,
        ))
    }
}

/// The instances the pool is to hold.
pub open spec fn pool_size_of(c: Config) -> nat {
    all_replicas(c.pipeline@) + fused_replicas(c, c.fusible_names())
}

/// The instances the pool is to hold: one for every replica, and room for every
/// declared fusion, so that a fused replica never fails for want of one.
pub fn pool_size(c: &Config) -> (n: usize)
    requires
        c.replicas_add_up(),
        pool_size_of(*c) <= usize::MAX,
    ensures
        n == pool_size_of(*c),
{
    let mut total: usize = 0;
    let mut i: usize = 0;
    let ghost stages = c.pipeline@;
    assert(stages.take(0) =~= Seq::<PipelineStage>::empty());
    while i < c.pipeline.len()
        invariant
            i <= c.pipeline@.len(),
            stages == c.pipeline@,
            pool_size_of(*c) <= usize::MAX,
            total == all_replicas(stages.take(i as int)),
        decreases c.pipeline@.len() - i,
    {
        assert(stages.take(i + 1).drop_last() =~= stages.take(i as int));
        proof {
            lemma_replicas_grow(stages, i + 1);
        }
        total = total + c.pipeline[i].slo.max_replicas;
        i = i + 1;
    }
    assert(stages.take(i as int) =~= stages);
    let pairs = c.fusible_pairs();
    let ghost names = c.fusible_names();
    let mut k: usize = 0;
    assert(names.take(0) =~= Seq::<EdgeNames>::empty());
    while k < pairs.len()
        invariant
            k <= pairs@.len(),
            names == c.fusible_names(),
            pair_texts(pairs@) == names,
            c.replicas_add_up(),
            pool_size_of(*c) <= usize::MAX,
            total == all_replicas(c.pipeline@) + fused_replicas(*c, names.take(k as int)),
        decreases pairs@.len() - k,
    {
        assert(names.take(k + 1).drop_last() =~= names.take(k as int));
        assert(names[k as int] == (pairs@[k as int].0@, pairs@[k as int].1@));
        proof {
            lemma_fused_grow(*c, names, k + 1);
            lemma_fusible_known(c.declared(), c.names());
        }
        match c.fused_max_replicas(&pairs[k].0, &pairs[k].1) {
            None => {
                assert(false);
            },
            Some(m) => {
                total = total + 2 * m;
            },
        }
        k = k + 1;
    }
    assert(names.take(k as int) =~= names);
    total
}

proof fn lemma_replicas_grow(stages: Seq<PipelineStage>, i: int)
    requires
        0 <= i <= stages.len(),
    ensures
        all_replicas(stages.take(i)) <= all_replicas(stages),
    decreases stages.len() - i,
{
    if i < stages.len() {
        assert(stages.take(i + 1).drop_last() =~= stages.take(i));
        lemma_replicas_grow(stages, i + 1);
    } else {
        assert(stages.take(i) =~= stages);
    }
}

proof fn lemma_fused_grow(c: Config, pairs: Seq<EdgeNames>, i: int)
    requires
        0 <= i <= pairs.len(),
    ensures
        fused_replicas(c, pairs.take(i)) <= fused_replicas(c, pairs),
    decreases pairs.len() - i,
{
    if i < pairs.len() {
        assert(pairs.take(i + 1).drop_last() =~= pairs.take(i));
        lemma_fused_grow(c, pairs, i + 1);
    } else {
        assert(pairs.take(i) =~= pairs);
    }
}

/// A fusible pair names two stages there are.
proof fn lemma_fusible_known(declared: Seq<Seq<Seq<char>>>, names: Seq<Seq<char>>)
    ensures
        forall|i: int|
            0 <= i < crate::config::fusible_of(declared, names).len() ==> has_name(
                names,
                (#[trigger] crate::config::fusible_of(declared, names)[i]).0,
            ) && has_name(names, crate::config::fusible_of(declared, names)[i].1),
    decreases declared.len(),
{
    if declared.len() > 0 {
        let rest = crate::config::fusible_of(declared.drop_last(), names);
        let all = crate::config::fusible_of(declared, names);
        lemma_fusible_known(declared.drop_last(), names);
        assert forall|i: int| 0 <= i < all.len() implies has_name(names, (#[trigger] all[i]).0)
            && has_name(names, all[i].1) by {
            if i < rest.len() {
                assert(all[i] == rest[i]);
            }
        }
    }
}

/// Dispatcher `i` is the first of that name.
pub open spec fn is_first_dispatcher(ds: Seq<DispatcherConfig>, name: Seq<char>, i: int) -> bool {
    &&& 0 <= i < ds.len()
    &&& ds[i].name@ == name
    &&& forall|k: int| 0 <= k < i ==> (#[trigger] ds[k]).name@ != name
}

/// There is a dispatcher of that name.
pub open spec fn has_dispatcher(ds: Seq<DispatcherConfig>, name: Seq<char>) -> bool {
    exists|i: int| 0 <= i < ds.len() && (#[trigger] ds[i]).name@ == name
}

/// The first dispatcher of that name.
pub open spec fn dispatcher_named(ds: Seq<DispatcherConfig>, name: Seq<char>) -> DispatcherConfig {
    ds[choose|i: int| is_first_dispatcher(ds, name, i)]
}

fn find_dispatcher<'a>(ds: &'a Vec<DispatcherConfig>, name: &String) -> (d: Option<
    &'a DispatcherConfig,
>)
    ensures
        d is Some <==> has_dispatcher(ds@, name@),
        d matches Some(x) ==> *x == dispatcher_named(ds@, name@),
{
    let mut i: usize = 0;
    while i < ds.len()
        invariant
            i <= ds@.len(),
            forall|k: int| 0 <= k < i ==> (#[trigger] ds@[k]).name@ != name@,
        decreases ds@.len() - i,
    {
        if ds[i].name == *name {
            proof {
                assert(is_first_dispatcher(ds@, name@, i as int));
                let c = choose|c: int| is_first_dispatcher(ds@, name@, c);
                assert(is_first_dispatcher(ds@, name@, c));
                assert(ds@[c].name@ == name@);
                assert(c == i);
            }
            return Some(&ds[i]);
        }
        i = i + 1;
    }
    None
}

/// Everything needed to start a stage.
#[derive(Debug)]
pub struct StageTemplate {
    /// The place of the stage in the pipeline.
    pub stage: usize,
    /// The edge it reads from, if that is in the process.
    pub input: Option<usize>,
    /// The edges it writes to that are in the process.
    pub outputs: Vec<OutSlot>,
    pub ctrl_port: u16,
    pub credit_window: u32,
    /// The end-of-stream markers it waits for.
    pub expected_in: usize,
}

/// The template is that of the `i`-th stage, which has a dispatcher.
pub open spec fn is_template(t: StageTemplate, c: Config, plan: PlanModel, i: int) -> bool {
    let name = c.names()[i];
    let d = dispatcher_named(c.dispatchers@, dispatcher_sought(name));
    &&& stage_has_dispatcher(c, i)
    &&& t.stage == i
    &&& t.input == input_entry(plan.inputs, name)
    &&& t.outputs@ == output_entries(plan.outputs, name)
    &&& t.ctrl_port == d.ctrl_port
    &&& t.credit_window == d.credit_window
    &&& t.expected_in == at_least_one(preds_of(c.edge_list(), name).len())
}

/// Stage `i` has a dispatcher.
pub open spec fn stage_has_dispatcher(c: Config, i: int) -> bool {
    has_dispatcher(c.dispatchers@, dispatcher_sought(c.names()[i]))
}

/// What is needed to start each stage; or the first stage that has no
/// dispatcher.
pub fn stage_templates(c: &Config, plan: &EdgePlan) -> (r: Result<Vec<StageTemplate>, usize>)
    ensures
        match r {
            Ok(ts) => {
                &&& ts@.len() == c.pipeline@.len()
                &&& forall|i: int|
                    0 <= i < ts@.len() ==> is_template(#[trigger] ts@[i], *c, plan@, i)
            },
            Err(at) => {
                &&& at < c.pipeline@.len()
                &&& !stage_has_dispatcher(*c, at as int)
                &&& forall|i: int| 0 <= i < at ==> #[trigger] stage_has_dispatcher(*c, i)
            },
        },
{
    let mut ts: Vec<StageTemplate> = Vec::new();
    let mut i: usize = 0;
    while i < c.pipeline.len()
        invariant
            i <= c.pipeline@.len(),
            ts@.len() == i,
            forall|k: int|
                0 <= k < i ==> is_template(#[trigger] ts@[k], *c, plan@, k),
        decreases c.pipeline@.len() - i,
    {
        let name = &c.pipeline[i].name;
        assert(c.names()[i as int] == name@);
        let wanted = dispatcher_for(name.as_str());
        match find_dispatcher(&c.dispatchers, &wanted) {
            None => {
                assert forall|k: int| 0 <= k < i implies #[trigger] stage_has_dispatcher(*c, k) by {
                    assert(is_template(ts@[k], *c, plan@, k));
                }
                return Err(i);
            },
            Some(d) => {
                let ins: usize = c.in_degree(name);
                ts.push(
                    StageTemplate {
                        stage: i,
                        input: plan.input_of(name),
                        outputs: plan.outputs_of(name),
                        ctrl_port: d.ctrl_port,
                        credit_window: d.credit_window,
                        expected_in: if ins == 0 {
                            1
                        } else {
                            ins
                        },
                    },
                );
            },
        }
        i = i + 1;
    }
    Ok(ts)
}

/// The stages a summary is to name: those of the pipeline, and those that a
/// fusion may bring about.
pub fn summary_stages(c: &Config) -> (out: Vec<String>)
    ensures
        owned_views(out@) == c.names() + c.fusible_names().map_values(
            |p: EdgeNames| fused_name(p.0, p.1),
        ),
{
    let mut out: Vec<String> = Vec::new();
    let mut i: usize = 0;
    while i < c.pipeline.len()
        invariant
            i <= c.pipeline@.len(),
            out@.len() == i,
            forall|k: int| 0 <= k < i ==> (#[trigger] out@[k])@ == c.names()[k],
        decreases c.pipeline@.len() - i,
    {
        out.push(c.pipeline[i].name.clone());
        i = i + 1;
    }
    let pairs = c.fusible_pairs();
    let ghost names = c.fusible_names();
    let ghost base = c.pipeline@.len();
    let mut k: usize = 0;
    while k < pairs.len()
        invariant
            k <= pairs@.len(),
            pair_texts(pairs@) == names,
            base == c.names().len(),
            out@.len() == base + k,
            forall|j: int| 0 <= j < base ==> (#[trigger] out@[j])@ == c.names()[j],
            forall|j: int|
                base <= j < base + k ==> (#[trigger] out@[j])@ == fused_name(
                    names[j - base].0,
                    names[j - base].1,
                ),
        decreases pairs@.len() - k,
    {
        assert(names[k as int] == (pairs@[k as int].0@, pairs@[k as int].1@));
        out.push(fused_stage_name(pairs[k].0.as_str(), pairs[k].1.as_str()));
        k = k + 1;
    }
    assert(owned_views(out@) =~= c.names() + names.map_values(
        |p: EdgeNames| fused_name(p.0, p.1),
    ));
    out
}

/// How a stage was run.
#[derive(Debug)]
pub struct StageRun {
    pub stage: String,
    pub credit_window: u32,
    pub batch_events: usize,
    pub min_replicas: usize,
    pub max_replicas: usize,
    pub push_uri: Option<String>,
}

/// How the pipeline was run.
#[derive(Debug)]
pub struct RunConfig {
    /// The credit window of all stages, where they have the same one.
    pub credit_window: Option<u32>,
    pub stages: Vec<StageRun>,
}

/// The credit window of a stage.
pub open spec fn window_of(c: Config, i: int) -> u32 {
    if stage_has_dispatcher(c, i) {
        dispatcher_named(c.dispatchers@, dispatcher_sought(c.names()[i])).credit_window
    } else {
        1
    }
}

/// The record is that of the `i`-th stage.
pub open spec fn is_run_of(r: StageRun, c: Config, i: int) -> bool {
    let d = dispatcher_named(c.dispatchers@, dispatcher_sought(c.names()[i]));
    let there = stage_has_dispatcher(c, i);
    &&& r.stage@ == c.names()[i]
    &&& r.credit_window == window_of(c, i)
    &&& r.batch_events == if there {
        d.batch_events
    } else {
        1
    }
    &&& r.min_replicas == c.pipeline@[i].slo.min_replicas
    &&& r.max_replicas == c.pipeline@[i].slo.max_replicas
    &&& r.push_uri == if there {
        d.push_uri
    } else {
        None
    }
}

/// All stages have the same credit window.
pub open spec fn windows_agree(c: Config) -> bool {
    &&& c.pipeline@.len() > 0
    &&& forall|i: int|
        0 <= i < c.pipeline@.len() ==> #[trigger] window_of(c, i) == window_of(c, 0)
}

/// How the pipeline is run, for the record. The credit window is given as one
/// number only where it is the same throughout.
pub fn run_config(c: &Config) -> (r: RunConfig)
    ensures
        r.stages@.len() == c.pipeline@.len(),
        forall|i: int| 0 <= i < r.stages@.len() ==> is_run_of(#[trigger] r.stages@[i], *c, i),
        r.credit_window == if windows_agree(*c) {
            Some(window_of(*c, 0))
        } else {
            None
        },
{
    let mut stages: Vec<StageRun> = Vec::new();
    let mut agree = true;
    let mut first: u32 = 0;
    let mut i: usize = 0;
    while i < c.pipeline.len()
        invariant
            i <= c.pipeline@.len(),
            stages@.len() == i,
            forall|k: int| 0 <= k < i ==> is_run_of(#[trigger] stages@[k], *c, k),
            i > 0 ==> first == window_of(*c, 0),
            agree == forall|k: int|
                0 <= k < i ==> #[trigger] window_of(*c, k) == window_of(*c, 0),
        decreases c.pipeline@.len() - i,
    {
        let s = &c.pipeline[i];
        assert(c.names()[i as int] == s.name@);
        let wanted = dispatcher_for(s.name.as_str());
        let d = find_dispatcher(&c.dispatchers, &wanted);
        let window: u32 = match d {
            None => 1,
            Some(x) => x.credit_window,
        };
        let batch: usize = match d {
            None => 1,
            Some(x) => x.batch_events,
        };
        let uri: Option<String> = match d {
            None => None,
            Some(x) => match &x.push_uri {
                None => None,
                Some(u) => Some(u.clone()),
            },
        };
        assert(window == window_of(*c, i as int));
        if i == 0 {
            first = window;
        } else if window != first {
            agree = false;
        }
        stages.push(
            StageRun {
                stage: s.name.clone(),
                credit_window: window,
                batch_events: batch,
                min_replicas: s.slo.min_replicas,
                max_replicas: s.slo.max_replicas,
                push_uri: uri,
            },
        );
        i = i + 1;
    }
    RunConfig {
        credit_window: if agree && stages.len() > 0 {
            Some(first)
        } else {
            None
        },
        stages,
    }
}

/// Where a replica sends an event on one of its edges.
#[derive(Debug)]
pub enum OutputTarget {
    /// To a place on an edge in the process.
    Slot(OutSlot),
    /// To an address.
    Address(String),
}

/// The target is the one of the `i`-th edge: its place in the process, where it
/// has one, and its declared address otherwise.
pub open spec fn is_target(t: OutputTarget, slots: Seq<OutSlot>, addresses: Seq<String>, i: int) -> bool {
    if i < slots.len() {
        t == OutputTarget::Slot(slots[i])
    } else {
        t matches OutputTarget::Address(a) && a@ == addresses[i]@
    }
}

/// Where a stage sends its events, edge by edge: its places in the process, and
/// its declared addresses for the edges that have none.
pub fn output_targets(slots: &Vec<OutSlot>, addresses: &Vec<String>) -> (out: Vec<OutputTarget>)
    ensures
        out@.len() == (if slots@.len() < addresses@.len() {
            addresses@.len()
        } else {
            slots@.len()
        }),
        forall|i: int|
            0 <= i < out@.len() ==> is_target(#[trigger] out@[i], slots@, addresses@, i),
{
    let mut out: Vec<OutputTarget> = Vec::new();
    let mut i: usize = 0;
    while i < slots.len()
        invariant
            i <= slots@.len(),
            out@.len() == i,
            forall|k: int| 0 <= k < i ==> is_target(#[trigger] out@[k], slots@, addresses@, k),
        decreases slots@.len() - i,
    {
        out.push(OutputTarget::Slot(slots[i]));
        i = i + 1;
    }
    while i < addresses.len()
        invariant
            slots@.len() <= i,
            i <= addresses@.len() || i == slots@.len(),
            out@.len() == i,
            forall|k: int| 0 <= k < i ==> is_target(#[trigger] out@[k], slots@, addresses@, k),
        decreases addresses@.len() - i,
    {
        out.push(OutputTarget::Address(make_push_endpoint(addresses[i].as_str())));
        i = i + 1;
    }
    out
}

/// The first dispatcher that is to bind an address of its own is at `i`.
pub open spec fn is_first_entry(ds: Seq<DispatcherConfig>, i: int) -> bool {
    &&& 0 <= i < ds.len()
    &&& ds[i].push_uri is Some
    &&& forall|k: int| 0 <= k < i ==> (#[trigger] ds[k]).push_uri is None
}

/// Where the agent takes events in itself: at the first address that a
/// dispatcher is to bind, and otherwise at the usual one.
pub fn ingress_uri(c: &Config) -> (out: String)
    ensures
        forall|i: int| #[trigger] is_first_entry(c.dispatchers@, i) ==> out@
            == c.dispatchers@[i].push_uri->0@,
        (forall|i: int| !#[trigger] is_first_entry(c.dispatchers@, i)) ==> out@
            == "ipc:///tmp/epico-ingress"@,
{
    let mut i: usize = 0;
    while i < c.dispatchers.len()
        invariant
            i <= c.dispatchers@.len(),
            forall|k: int| 0 <= k < i ==> (#[trigger] c.dispatchers@[k]).push_uri is None,
        decreases c.dispatchers@.len() - i,
    {
        if let Some(u) = &c.dispatchers[i].push_uri {
            assert(is_first_entry(c.dispatchers@, i as int));
            assert forall|k: int| is_first_entry(c.dispatchers@, k) implies k == i by {
                if k > i {
                    assert(c.dispatchers@[i as int].push_uri is Some);
                }
            }
            return u.clone();
        }
        i = i + 1;
    }
    "ipc:///tmp/epico-ingress".to_owned()
}

/// Where the finished events are collected: at the declared address, or else at
/// the usual one.
pub fn collector_uri(c: &Config) -> (out: String)
    ensures
        out@ == (match c.collector {
            Some(u) => u@,
            None => "tcp://0.0.0.0:9999"@,
        }),
{
    match &c.collector {
        Some(u) => u.clone(),
        None => "tcp://0.0.0.0:9999".to_owned(),
    }
}

/// A number that the environment asks for, and the usual one where it asks for
/// none that can be read.
pub fn count_or(env: &Option<String>, usual: u64) -> (n: u64)
    ensures
        n == (match *env {
            None => usual,
            Some(t) => match parsed(t@, u64::MAX as nat) {
                None => usual,
                Some(k) => k as u64,
            },
        }),
{
    match env {
        None => usual,
        Some(t) => match parse_number(t.as_str(), u64::MAX) {
            None => usual,
            Some(k) => k,
        },
    }
}

} // verus!
