//! What an agent makes of its configuration before anything runs: which part of
//! the pipeline is its own, and which components it has to check.

use vstd::prelude::*;
use crate::config::{
    default_wasm_path, has_name, halves_of, is_first_named, pair_texts, place_of, stage_names,
    stage_owned_by, usual_wasm_path, Config, DispatcherConfig, EdgeSpec, PipelineStage,
};
use crate::numtext::{concat, flat, views};
use crate::text::same;
use crate::validator::are_pairs;

verus! {

/// The items whose flag is raised.
pub open spec fn flagged<T>(items: Seq<T>, flags: Seq<bool>) -> Seq<T>
    decreases items.len(),
{
    if items.len() == 0 {
        Seq::empty()
    } else if flags[items.len() - 1] {
        flagged(items.drop_last(), flags).push(items.last())
    } else {
        flagged(items.drop_last(), flags)
    }
}

/// Keeps the items whose flag is raised.
fn keep_flagged<T>(items: &mut Vec<T>, flags: &Vec<bool>)
    requires
        flags@.len() == old(items)@.len(),
    ensures
        final(items)@ == flagged(old(items)@, flags@),
{
    let mut all: Vec<T> = Vec::new();
    core::mem::swap(&mut all, items);
    let ghost s = all@;
    let n: usize = flags.len();
    let mut i: usize = 0;
    assert(items@ =~= flagged(s.take(0), flags@));
    for item in it: all
        invariant
            i == it.index(),
            n == flags@.len(),
            it.seq() == s,
            flags@.len() == s.len(),
            items@ == flagged(s.take(i as int), flags@),
    {
        assert(s.take(i + 1).drop_last() =~= s.take(i as int));
        if flags[i] {
            items.push(item);
        }
        assert(i < n);
        i = i + 1;
    }
    assert(s.take(s.len() as int) =~= s);
}

/// Which stages run on a host.
pub open spec fn owned_flags(stages: Seq<PipelineStage>, host: Seq<char>) -> Seq<bool> {
    stages.map_values(|s: PipelineStage| s.placement@ == host)
}

/// Which dispatchers run on a host.
pub open spec fn dispatcher_flags(ds: Seq<DispatcherConfig>, host: Seq<char>) -> Seq<bool> {
    ds.map_values(|d: DispatcherConfig| d.placement@ == host)
}

/// Which edges have both ends among the stages.
pub open spec fn inner_flags(edges: Seq<EdgeSpec>, names: Seq<Seq<char>>) -> Seq<bool> {
    edges.map_values(|e: EdgeSpec| has_name(names, e.from@) && has_name(names, e.to@))
}

impl Config {
    /// Reduces the pipeline to the part that this host runs: its stages, their
    /// dispatchers, and the edges between them. Says how many stages are left.
    pub fn apply_placement_filter(&mut self) -> (kept: usize)
        ensures
            final(self).pipeline@ == flagged(
                old(self).pipeline@,
                owned_flags(old(self).pipeline@, old(self).this_host@),
            ),
            final(self).dispatchers@ == flagged(
                old(self).dispatchers@,
                dispatcher_flags(old(self).dispatchers@, old(self).this_host@),
            ),
            final(self).edges@ == flagged(
                old(self).edges@,
                inner_flags(old(self).edges@, final(self).names()),
            ),
            kept == final(self).pipeline@.len(),
            final(self).this_host == old(self).this_host,
            final(self).collector == old(self).collector,
            final(self).nodes == old(self).nodes,
            final(self).resource_sample_interval_ms == old(self).resource_sample_interval_ms,
            final(self).compile_mode == old(self).compile_mode,
            final(self).event_format == old(self).event_format,
            final(self).source_format == old(self).source_format,
            final(self).ingress_mode == old(self).ingress_mode,
            final(self).source_threads == old(self).source_threads,
            final(self).edge_impl == old(self).edge_impl,
            final(self).edge_cap == old(self).edge_cap,
            final(self).spsc_ring_cap == old(self).spsc_ring_cap,
            final(self).fusible == old(self).fusible,
            final(self).morphs == old(self).morphs,
    {
        let mut owned: Vec<bool> = Vec::new();
        let mut i: usize = 0;
        while i < self.pipeline.len()
            invariant
                i <= self.pipeline@.len(),
                *self == *old(self),
                owned@ == owned_flags(self.pipeline@, self.this_host@).take(i as int),
            decreases self.pipeline@.len() - i,
        {
            let ghost all = owned_flags(self.pipeline@, self.this_host@);
            owned.push(stage_owned_by(&self.pipeline[i], &self.this_host));
            assert(all.take(i + 1) =~= all.take(i as int).push(all[i as int]));
            i = i + 1;
        }
        assert(owned@ =~= owned_flags(self.pipeline@, self.this_host@));
        keep_flagged(&mut self.pipeline, &owned);
        let mut ours: Vec<bool> = Vec::new();
        let mut j: usize = 0;
        while j < self.dispatchers.len()
            invariant
                j <= self.dispatchers@.len(),
                self.dispatchers == old(self).dispatchers,
                self.this_host == old(self).this_host,
                ours@ == dispatcher_flags(self.dispatchers@, self.this_host@).take(j as int),
            decreases self.dispatchers@.len() - j,
        {
            let ghost all = dispatcher_flags(self.dispatchers@, self.this_host@);
            ours.push(self.dispatchers[j].placement == self.this_host);
            assert(all.take(j + 1) =~= all.take(j as int).push(all[j as int]));
            j = j + 1;
        }
        assert(ours@ =~= dispatcher_flags(self.dispatchers@, self.this_host@));
        keep_flagged(&mut self.dispatchers, &ours);
        let mut inner: Vec<bool> = Vec::new();
        let mut k: usize = 0;
        while k < self.edges.len()
            invariant
                k <= self.edges@.len(),
                self.edges == old(self).edges,
                inner@ == inner_flags(self.edges@, self.names()).take(k as int),
            decreases self.edges@.len() - k,
        {
            let ghost all = inner_flags(self.edges@, self.names());
            let e = &self.edges[k];
            inner.push(self.stage(&e.from).is_some() && self.stage(&e.to).is_some());
            assert(all.take(k + 1) =~= all.take(k as int).push(all[k as int]));
            k = k + 1;
        }
        assert(inner@ =~= inner_flags(self.edges@, self.names()));
        keep_flagged(&mut self.edges, &inner);
        self.pipeline.len()
    }
}

/// Law: what is left after the placement filter is a topology of its own: every
/// edge joins two stages that are there.
pub proof fn law_filtered_edges_are_inner(edges: Seq<EdgeSpec>, names: Seq<Seq<char>>, k: int)
    requires
        0 <= k < flagged(edges, inner_flags(edges, names)).len(),
    ensures
        has_name(names, flagged(edges, inner_flags(edges, names))[k].from@),
        has_name(names, flagged(edges, inner_flags(edges, names))[k].to@),
{
    lemma_flagged(edges, inner_flags(edges, names), k);
}

proof fn lemma_flagged<T>(items: Seq<T>, flags: Seq<bool>, k: int)
    requires
        0 <= k < flagged(items, flags).len(),
    ensures
        exists|i: int|
            0 <= i < items.len() && flags[i] && #[trigger] items[i] == flagged(items, flags)[k],
    decreases items.len(),
{
    let rest = items.drop_last();
    if flags[items.len() - 1] && k == flagged(items, flags).len() - 1 {
        assert(items[items.len() - 1] == flagged(items, flags)[k]);
    } else {
        lemma_flagged(rest, flags, k);
        let i = choose|i: int|
            0 <= i < rest.len() && flags[i] && #[trigger] rest[i] == flagged(rest, flags)[k];
        assert(items[i] == flagged(items, flags)[k]);
    }
}

/// The components of one stage: the first under the name of the stage, the
/// others under a name of their own.
pub open spec fn stage_components(s: PipelineStage) -> Seq<(Seq<char>, Seq<char>)> {
    Seq::new(
        halves_of(s).len(),
        |i: int|
            (
                if i == 0 {
                    s.name@
                } else {
                    flat(seq![s.name@, "::"@, halves_of(s)[i].0])
                },
                halves_of(s)[i].1,
            ),
    )
}

/// The components of some stages.
pub open spec fn all_components(stages: Seq<PipelineStage>) -> Seq<(Seq<char>, Seq<char>)>
    decreases stages.len(),
{
    if stages.len() == 0 {
        Seq::empty()
    } else {
        all_components(stages.drop_last()) + stage_components(stages.last())
    }
}

/// Every component that a worker will instantiate, with where it is: one for an
/// ordinary stage, one per half for a fused one.
pub fn component_list(c: &Config) -> (out: Vec<(String, String)>)
    ensures
        pair_texts(out@) == all_components(c.pipeline@),
{
    let ghost stages = c.pipeline@;
    let mut out: Vec<(String, String)> = Vec::new();
    let mut i: usize = 0;
    assert(pair_texts(out@) =~= all_components(stages.take(0)));
    while i < c.pipeline.len()
        invariant
            i <= c.pipeline@.len(),
            stages == c.pipeline@,
            pair_texts(out@) == all_components(stages.take(i as int)),
        decreases c.pipeline@.len() - i,
    {
        assert(stages.take(i + 1).drop_last() =~= stages.take(i as int));
        let s = &c.pipeline[i];
        let halves = s.halves();
        let ghost base = pair_texts(out@);
        let ghost want = stage_components(*s);
        let mut k: usize = 0;
        assert(pair_texts(out@) =~= base + want.take(0));
        while k < halves.len()
            invariant
                k <= halves@.len(),
                pair_texts(halves@) == halves_of(*s),
                want == stage_components(*s),
                pair_texts(out@) == base + want.take(k as int),
            decreases halves@.len() - k,
        {
            assert(halves_of(*s)[k as int] == (halves@[k as int].0@, halves@[k as int].1@));
            let key = if k == 0 {
                s.name.clone()
            } else {
                let parts = vec![s.name.as_str(), "::", halves[k].0.as_str()];
                assert(views(parts@) =~= seq![s.name@, "::"@, halves@[k as int].0@]);
                concat(&parts)
            };
            let ghost before = out@;
            out.push((key, halves[k].1.clone()));
            assert(pair_texts(out@) =~= pair_texts(before).push(want[k as int]));
            assert(base + want.take(k + 1) =~= (base + want.take(k as int)).push(want[k as int]));
            k = k + 1;
        }
        assert(want.take(k as int) =~= want);
        i = i + 1;
    }
    assert(stages.take(i as int) =~= stages);
    out
}

/// Where a stage's component is taken from: where it was found beside the
/// configuration, else where the configuration says, else the usual place.
pub open spec fn stage_wasm(
    name: Seq<char>,
    declared: Option<String>,
    found: Option<String>,
) -> Seq<char> {
    match declared {
        None => usual_wasm_path(name),
        Some(d) => match found {
            None => d@,
            Some(f) => f@,
        },
    }
}

/// The place of the first component of the stage at `i`, in the list of all.
pub open spec fn first_at(stages: Seq<PipelineStage>, i: int) -> nat {
    all_components(stages.take(i)).len()
}

/// The components of each stage, each with the one it hands its events to inside
/// the stage.
pub open spec fn inner_pairs(stages: Seq<PipelineStage>) -> Seq<(usize, usize)>
    decreases stages.len(),
{
    if stages.len() == 0 {
        Seq::empty()
    } else {
        let base = all_components(stages.drop_last()).len();
        inner_pairs(stages.drop_last()) + Seq::new(
            (stage_components(stages.last()).len() - 1) as nat,
            |k: int| ((base + k) as usize, (base + k + 1) as usize),
        )
    }
}

/// The edge is between stages that there are.
pub open spec fn is_between(stages: Seq<PipelineStage>, e: EdgeSpec) -> bool {
    has_name(stage_names(stages), e.from@) && has_name(stage_names(stages), e.to@)
}

/// The components that an edge joins: the last one of the stage that it leaves,
/// and the first one of the stage that it leads to.
pub open spec fn joined_by(stages: Seq<PipelineStage>, e: EdgeSpec) -> (usize, usize) {
    (
        (first_at(stages, place_of(stage_names(stages), e.from@) + 1) - 1) as usize,
        first_at(stages, place_of(stage_names(stages), e.to@)) as usize,
    )
}

/// The components that some edges join.
pub open spec fn edge_pairs(stages: Seq<PipelineStage>, edges: Seq<EdgeSpec>) -> Seq<
    (usize, usize),
>
    decreases edges.len(),
{
    if edges.len() == 0 {
        Seq::empty()
    } else if is_between(stages, edges.last()) {
        edge_pairs(stages, edges.drop_last()).push(joined_by(stages, edges.last()))
    } else {
        edge_pairs(stages, edges.drop_last())
    }
}

/// Every stage has a component.
pub(crate) proof fn lemma_first_at(stages: Seq<PipelineStage>, i: int)
    requires
        0 <= i < stages.len(),
    ensures
        first_at(stages, i + 1) == first_at(stages, i) + stage_components(stages[i]).len(),
        first_at(stages, i) < first_at(stages, i + 1) <= all_components(stages).len(),
    decreases stages.len() - i,
{
    assert(stages.take(i + 1).drop_last() =~= stages.take(i));
    if i + 1 < stages.len() {
        lemma_first_at(stages, i + 1);
    } else {
        assert(stages.take(i + 1) =~= stages);
    }
}

/// Where the components of each stage start, and where the last ones end.
fn component_starts(c: &Config) -> (starts: Vec<usize>)
    requires
        all_components(c.pipeline@).len() <= usize::MAX,
    ensures
        starts@.len() == c.pipeline@.len() + 1,
        forall|i: int|
            0 <= i < starts@.len() ==> #[trigger] starts@[i] == first_at(c.pipeline@, i),
{
    let ghost stages = c.pipeline@;
    let mut starts: Vec<usize> = vec![0];
    let mut i: usize = 0;
    let mut at: usize = 0;
    assert(stages.take(0) =~= Seq::<PipelineStage>::empty());
    while i < c.pipeline.len()
        invariant
            i <= c.pipeline@.len(),
            stages == c.pipeline@,
            all_components(stages).len() <= usize::MAX,
            at == first_at(stages, i as int),
            starts@.len() == i + 1,
            forall|k: int| 0 <= k <= i ==> #[trigger] starts@[k] == first_at(stages, k),
        decreases c.pipeline@.len() - i,
    {
        proof {
            lemma_first_at(stages, i as int);
        }
        let halves: usize = if c.pipeline[i].fused_from.len() == 0 {
            1
        } else {
            c.pipeline[i].fused_from.len()
        };
        at = at + halves;
        starts.push(at);
        i = i + 1;
    }
    starts
}

fn stage_at(c: &Config, name: &String) -> (r: Option<usize>)
    ensures
        match r {
            None => !has_name(c.names(), name@),
            Some(i) => has_name(c.names(), name@) && i == place_of(c.names(), name@) && i
                < c.pipeline@.len(),
        },
{
    let ghost names = c.names();
    let mut i: usize = 0;
    while i < c.pipeline.len()
        invariant
            i <= c.pipeline@.len(),
            names == c.names(),
            forall|k: int| 0 <= k < i ==> #[trigger] names[k] != name@,
        decreases c.pipeline@.len() - i,
    {
        assert(names[i as int] == c.pipeline@[i as int].name@);
        if same(c.pipeline[i].name.as_str(), name.as_str()) {
            proof {
                assert(is_first_named(names, name@, i as int));
                let at = place_of(names, name@);
                assert(is_first_named(names, name@, at));
                assert(at == i);
            }
            return Some(i);
        }
        i = i + 1;
    }
    None
}

/// Which components hand their events to which, by their places in the list of
/// all: inside a fused stage each to the next, and along an edge the last one of
/// a stage to the first one of the other.
pub fn component_pairs(c: &Config) -> (out: Vec<(usize, usize)>)
    requires
        all_components(c.pipeline@).len() <= usize::MAX,
    ensures
        out@ == inner_pairs(c.pipeline@) + edge_pairs(c.pipeline@, c.edges@),
        are_pairs(out@, all_components(c.pipeline@).len()),
{
    let ghost stages = c.pipeline@;
    let ghost total = all_components(stages).len();
    let starts = component_starts(c);
    let mut out: Vec<(usize, usize)> = Vec::new();
    let mut i: usize = 0;
    assert(stages.take(0) =~= Seq::<PipelineStage>::empty());
    while i < c.pipeline.len()
        invariant
            i <= c.pipeline@.len(),
            stages == c.pipeline@,
            total == all_components(stages).len(),
            total <= usize::MAX,
            starts@.len() == stages.len() + 1,
            forall|k: int| 0 <= k < starts@.len() ==> #[trigger] starts@[k] == first_at(stages, k),
            out@ == inner_pairs(stages.take(i as int)),
            are_pairs(out@, total),
        decreases c.pipeline@.len() - i,
    {
        let base: usize = starts[i];
        let end: usize = starts[i + 1];
        proof {
            lemma_first_at(stages, i as int);
            assert(stages.take(i + 1).drop_last() =~= stages.take(i as int));
        }
        let ghost was = out@;
        let ghost more = Seq::new(
            (end - base - 1) as nat,
            |k: int| ((base + k) as usize, (base + k + 1) as usize),
        );
        let mut k: usize = base + 1;
        assert(out@ =~= was + more.take(0));
        while k < end
            invariant
                base < k <= end <= total <= usize::MAX,
                more == Seq::new(
                    (end - base - 1) as nat,
                    |k: int| ((base + k) as usize, (base + k + 1) as usize),
                ),
                out@ == was + more.take(k - base - 1),
                are_pairs(out@, total),
            decreases end - k,
        {
            let ghost j = k - base - 1;
            assert(more[j] == ((base + j) as usize, (base + j + 1) as usize));
            assert(was + more.take(j + 1) =~= (was + more.take(j)).push(more[j]));
            out.push((k - 1, k));
            k = k + 1;
        }
        assert(more.take(k - base - 1) =~= more);
        i = i + 1;
    }
    assert(stages.take(i as int) =~= stages);
    let ghost inner = out@;
    let ghost edges = c.edges@;
    let n: usize = c.pipeline.len();
    let mut e: usize = 0;
    assert(edges.take(0) =~= Seq::<EdgeSpec>::empty());
    assert(out@ =~= inner + edge_pairs(stages, edges.take(0)));
    while e < c.edges.len()
        invariant
            e <= c.edges@.len(),
            n == stages.len(),
            stages == c.pipeline@,
            edges == c.edges@,
            total == all_components(stages).len(),
            total <= usize::MAX,
            starts@.len() == stages.len() + 1,
            forall|k: int| 0 <= k < starts@.len() ==> #[trigger] starts@[k] == first_at(stages, k),
            out@ == inner + edge_pairs(stages, edges.take(e as int)),
            are_pairs(out@, total),
        decreases c.edges@.len() - e,
    {
        assert(edges.take(e + 1).drop_last() =~= edges.take(e as int));
        if let (Some(from), Some(to)) = (
            stage_at(c, &c.edges[e].from),
            stage_at(c, &c.edges[e].to),
        ) {
            proof {
                lemma_first_at(stages, from as int);
                lemma_first_at(stages, to as int);
                assert(c.names() == stage_names(stages));
            }
            let ghost before = edge_pairs(stages, edges.take(e as int));
            out.push((starts[from + 1] - 1, starts[to]));
            assert(out@ =~= inner + before.push(joined_by(stages, edges[e as int])));
        }
        e = e + 1;
    }
    assert(edges.take(e as int) =~= edges);
    out
}

pub fn resolve_stage_wasm(name: &String, declared: &Option<String>, found: &Option<String>) -> (out:
    String)
    ensures
        out@ == stage_wasm(name@, *declared, *found),
{
    match declared {
        None => default_wasm_path(name.as_str()),
        Some(d) => match found {
            None => d.clone(),
            Some(f) => f.clone(),
        },
    }
}

/// The path at which the component of one half of a fused stage is looked for.
pub open spec fn half_candidate(name: Seq<char>, declared: Option<String>) -> Seq<char> {
    match declared {
        None => usual_wasm_path(name),
        Some(d) => d@,
    }
}

/// Where the component of one half of a fused stage is taken from. Other than
/// for an ordinary stage, the usual place is looked for beside the
/// configuration too.
pub fn resolve_half_wasm(name: &String, declared: &Option<String>, found: &Option<String>) -> (out:
    String)
    ensures
        out@ == match *found {
            None => half_candidate(name@, *declared),
            Some(f) => f@,
        },
{
    match found {
        Some(f) => f.clone(),
        None => match declared {
            None => default_wasm_path(name.as_str()),
            Some(d) => d.clone(),
        },
    }
}

/// The agent has crashed: no morph is in flight, and every stage there is has
/// ended. In the middle of a morph a stage is retired before its replacement is
/// there.
pub fn all_stages_lost(finished: &Vec<bool>, morph_in_flight: bool) -> (b: bool)
    ensures
        b == (!morph_in_flight && finished@.len() > 0 && forall|i: int|
            0 <= i < finished@.len() ==> #[trigger] finished@[i]),
{
    if morph_in_flight || finished.len() == 0 {
        return false;
    }
    let mut i: usize = 0;
    while i < finished.len()
        invariant
            i <= finished@.len(),
            forall|k: int| 0 <= k < i ==> #[trigger] finished@[k],
        decreases finished@.len() - i,
    {
        if !finished[i] {
            return false;
        }
        i = i + 1;
    }
    true
}

} // verus!
