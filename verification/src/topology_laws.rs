//! What the shape of a pipeline promises: who feeds whom, where events come in and leave, and
//! which stages may become one.

use vstd::prelude::*;
use crate::config::{
    fusible_of, good_pair, halves_of, has_name, normalized, place_of, preds_of, sink_places,
    source_places, succs_of, usual_wasm_path, Config, EdgeNames, PipelineStage, Topology,
};

verus! {

/// How many edges go into a stage.
pub open spec fn edges_into(edges: Seq<EdgeNames>, stage: Seq<char>) -> nat
    decreases edges.len(),
{
    if edges.len() == 0 {
        0
    } else {
        edges_into(edges.drop_last(), stage) + if edges.last().1 == stage {
            1nat
        } else {
            0
        }
    }
}

/// How many edges go out of a stage.
pub open spec fn edges_out(edges: Seq<EdgeNames>, stage: Seq<char>) -> nat
    decreases edges.len(),
{
    if edges.len() == 0 {
        0
    } else {
        edges_out(edges.drop_last(), stage) + if edges.last().0 == stage {
            1nat
        } else {
            0
        }
    }
}

proof fn lemma_last_edge(edges: Seq<EdgeNames>, e: EdgeNames)
    requires
        edges.len() > 0,
    ensures
        edges.contains(e) <==> edges.drop_last().contains(e) || edges.last() == e,
{
    if edges.contains(e) {
        let k = choose|k: int| 0 <= k < edges.len() && edges[k] == e;
        if k < edges.len() - 1 {
            assert(edges.drop_last()[k] == e);
        }
    }
    if edges.drop_last().contains(e) {
        let k = choose|k: int| 0 <= k < edges.len() - 1 && edges.drop_last()[k] == e;
        assert(edges[k] == e);
    }
    assert(edges[edges.len() - 1] == edges.last());
}

proof fn lemma_pushed_name(s: Seq<Seq<char>>, x: Seq<char>, name: Seq<char>)
    ensures
        s.push(x).contains(name) <==> s.contains(name) || x == name,
{
    if s.push(x).contains(name) {
        let k = choose|k: int| 0 <= k < s.len() + 1 && s.push(x)[k] == name;
        if k < s.len() {
            assert(s[k] == name);
        }
    }
    if s.contains(name) {
        let k = choose|k: int| 0 <= k < s.len() && s[k] == name;
        assert(s.push(x)[k] == name);
    }
    assert(s.push(x)[s.len() as int] == x);
}

/// Law: a stage is fed by just those from which an edge leads to it, and feeds just those to
/// which one leads from it; as many as there are such edges.
pub proof fn law_neighbours_share_an_edge(edges: Seq<EdgeNames>, stage: Seq<char>, other: Seq<char>)
    ensures
        preds_of(edges, stage).contains(other) <==> edges.contains((other, stage)),
        succs_of(edges, stage).contains(other) <==> edges.contains((stage, other)),
        preds_of(edges, stage).len() == edges_into(edges, stage),
        succs_of(edges, stage).len() == edges_out(edges, stage),
    decreases edges.len(),
{
    if edges.len() > 0 {
        let rest = edges.drop_last();
        law_neighbours_share_an_edge(rest, stage, other);
        lemma_last_edge(edges, (other, stage));
        lemma_last_edge(edges, (stage, other));
        lemma_pushed_name(preds_of(rest, stage), edges.last().0, other);
        lemma_pushed_name(succs_of(rest, stage), edges.last().1, other);
    }
}

proof fn lemma_no_pred(edges: Seq<EdgeNames>, stage: Seq<char>)
    ensures
        preds_of(edges, stage).len() == 0 <==> forall|o: Seq<char>|
            !#[trigger] edges.contains((o, stage)),
        succs_of(edges, stage).len() == 0 <==> forall|o: Seq<char>|
            !#[trigger] edges.contains((stage, o)),
{
    let p = preds_of(edges, stage);
    let s = succs_of(edges, stage);
    if p.len() > 0 {
        law_neighbours_share_an_edge(edges, stage, p[0]);
        assert(p.contains(p[0]));
    }
    if s.len() > 0 {
        law_neighbours_share_an_edge(edges, stage, s[0]);
        assert(s.contains(s[0]));
    }
    assert forall|o: Seq<char>| p.len() == 0 implies !#[trigger] edges.contains((o, stage)) by {
        law_neighbours_share_an_edge(edges, stage, o);
    }
    assert forall|o: Seq<char>| s.len() == 0 implies !#[trigger] edges.contains((stage, o)) by {
        law_neighbours_share_an_edge(edges, stage, o);
    }
}

/// Law: events come in at just those stages into which no edge leads.
pub proof fn law_sources_have_nothing_in_front(
    stages: Seq<Seq<char>>,
    edges: Seq<EdgeNames>,
    i: int,
)
    requires
        0 <= i < stages.len(),
    ensures
        source_places(stages, edges).contains(i) <==> forall|o: Seq<char>|
            !#[trigger] edges.contains((o, stages[i])),
{
    lemma_no_pred(edges, stages[i]);
    lemma_source_places(stages, edges, i);
}

proof fn lemma_source_places(stages: Seq<Seq<char>>, edges: Seq<EdgeNames>, i: int)
    requires
        0 <= i < stages.len(),
    ensures
        source_places(stages, edges).contains(i) <==> preds_of(edges, stages[i]).len() == 0,
    decreases stages.len(),
{
    let n = stages.len() - 1;
    let rest = source_places(stages.drop_last(), edges);
    lemma_places_below(stages.drop_last(), edges);
    if i < n {
        lemma_source_places(stages.drop_last(), edges, i);
    } else {
        assert(!rest.contains(n));
    }
    if preds_of(edges, stages.last()).len() == 0 {
        lemma_pushed_place(rest, n, i);
    }
}

/// Law: events leave at just those stages from which no edge leads on.
pub proof fn law_sinks_have_nothing_behind(stages: Seq<Seq<char>>, edges: Seq<EdgeNames>, i: int)
    requires
        0 <= i < stages.len(),
    ensures
        sink_places(stages, edges).contains(i) <==> forall|o: Seq<char>|
            !#[trigger] edges.contains((stages[i], o)),
{
    lemma_no_pred(edges, stages[i]);
    lemma_sink_places(stages, edges, i);
}

proof fn lemma_sink_places(stages: Seq<Seq<char>>, edges: Seq<EdgeNames>, i: int)
    requires
        0 <= i < stages.len(),
    ensures
        sink_places(stages, edges).contains(i) <==> succs_of(edges, stages[i]).len() == 0,
    decreases stages.len(),
{
    let n = stages.len() - 1;
    let rest = sink_places(stages.drop_last(), edges);
    lemma_places_below(stages.drop_last(), edges);
    if i < n {
        lemma_sink_places(stages.drop_last(), edges, i);
    } else {
        assert(!rest.contains(n));
    }
    if succs_of(edges, stages.last()).len() == 0 {
        lemma_pushed_place(rest, n, i);
    }
}

proof fn lemma_places_below(stages: Seq<Seq<char>>, edges: Seq<EdgeNames>)
    ensures
        forall|k: int| source_places(stages, edges).contains(k) ==> 0 <= k < stages.len(),
        forall|k: int| sink_places(stages, edges).contains(k) ==> 0 <= k < stages.len(),
    decreases stages.len(),
{
    if stages.len() > 0 {
        lemma_places_below(stages.drop_last(), edges);
        let a = source_places(stages.drop_last(), edges);
        let b = sink_places(stages.drop_last(), edges);
        let n = stages.len() - 1;
        assert forall|k: int| source_places(stages, edges).contains(k) implies 0 <= k
            < stages.len() by {
            lemma_pushed_place(a, n, k);
        }
        assert forall|k: int| sink_places(stages, edges).contains(k) implies 0 <= k
            < stages.len() by {
            lemma_pushed_place(b, n, k);
        }
    }
}

proof fn lemma_pushed_place(s: Seq<int>, x: int, i: int)
    ensures
        s.push(x).contains(i) <==> s.contains(i) || x == i,
{
    if s.push(x).contains(i) {
        let k = choose|k: int| 0 <= k < s.len() + 1 && s.push(x)[k] == i;
        if k < s.len() {
            assert(s[k] == i);
        }
    }
    if s.contains(i) {
        let k = choose|k: int| 0 <= k < s.len() && s[k] == i;
        assert(s.push(x)[k] == i);
    }
    assert(s.push(x)[s.len() as int] == x);
}

/// Law: two stages may be fused only where each is the other's only neighbour on that side, both
/// run on one node, neither is fused already, and the pair is declared.
pub proof fn law_only_lone_edges_are_fused(c: Config, a: Seq<char>, b: Seq<char>)
    requires
        c.fusion_bar(a, b) is None,
    ensures
        has_name(c.names(), a),
        has_name(c.names(), b),
        succs_of(c.edge_list(), a) == seq![b],
        preds_of(c.edge_list(), b) == seq![a],
        edges_out(c.edge_list(), a) == 1,
        edges_into(c.edge_list(), b) == 1,
        c.pipeline@[place_of(c.names(), a)].placement@
            == c.pipeline@[place_of(c.names(), b)].placement@,
        c.pipeline@[place_of(c.names(), a)].fused_from@.len() <= 1,
        c.pipeline@[place_of(c.names(), b)].fused_from@.len() <= 1,
        c.fusible_names().contains((a, b)),
{
    law_neighbours_share_an_edge(c.edge_list(), a, b);
    law_neighbours_share_an_edge(c.edge_list(), b, a);
    let s = succs_of(c.edge_list(), a);
    let p = preds_of(c.edge_list(), b);
    let i = choose|i: int| 0 <= i < s.len() && s[i] == b;
    let k = choose|k: int| 0 <= k < p.len() && p[k] == a;
    assert(s =~= seq![b]);
    assert(p =~= seq![a]);
}

/// Law: and wherever all that holds, they may.
pub proof fn law_lone_edges_may_be_fused(c: Config, a: Seq<char>, b: Seq<char>)
    requires
        has_name(c.names(), a),
        has_name(c.names(), b),
        c.edge_list().contains((a, b)),
        edges_out(c.edge_list(), a) == 1,
        edges_into(c.edge_list(), b) == 1,
        c.pipeline@[place_of(c.names(), a)].placement@
            == c.pipeline@[place_of(c.names(), b)].placement@,
        c.pipeline@[place_of(c.names(), a)].fused_from@.len() <= 1,
        c.pipeline@[place_of(c.names(), b)].fused_from@.len() <= 1,
        c.fusible_names().contains((a, b)),
    ensures
        c.fusion_bar(a, b) is None,
{
    law_neighbours_share_an_edge(c.edge_list(), a, b);
    law_neighbours_share_an_edge(c.edge_list(), b, a);
}

/// Law: a pair may be fused later just where it is declared, with two stages that are there, in
/// that order.
pub proof fn law_declared_pairs_are_fusible(
    declared: Seq<Seq<Seq<char>>>,
    names: Seq<Seq<char>>,
    a: Seq<char>,
    b: Seq<char>,
)
    ensures
        fusible_of(declared, names).contains((a, b)) <==> has_name(names, a) && has_name(names, b)
            && exists|i: int|
            0 <= i < declared.len() && (#[trigger] declared[i]).len() == 2 && declared[i][0] == a
                && declared[i][1] == b,
    decreases declared.len(),
{
    if declared.len() > 0 {
        let n = declared.len() - 1;
        let front = declared.drop_last();
        let out = fusible_of(declared, names);
        law_declared_pairs_are_fusible(front, names, a, b);
        let here = declared[n].len() == 2 && declared[n][0] == a && declared[n][1] == b;
        assert((exists|i: int|
            0 <= i < declared.len() && (#[trigger] declared[i]).len() == 2 && declared[i][0] == a
                && declared[i][1] == b) <==> here || exists|i: int|
            0 <= i < front.len() && (#[trigger] front[i]).len() == 2 && front[i][0] == a
                && front[i][1] == b) by {
            if exists|i: int|
                0 <= i < declared.len() && (#[trigger] declared[i]).len() == 2 && declared[i][0]
                    == a && declared[i][1] == b {
                let i = choose|i: int|
                    0 <= i < declared.len() && (#[trigger] declared[i]).len() == 2 && declared[i][0]
                        == a && declared[i][1] == b;
                if i < n {
                    assert(front[i].len() == 2);
                }
            }
            if exists|i: int|
                0 <= i < front.len() && (#[trigger] front[i]).len() == 2 && front[i][0] == a
                    && front[i][1] == b {
                let i = choose|i: int|
                    0 <= i < front.len() && (#[trigger] front[i]).len() == 2 && front[i][0] == a
                        && front[i][1] == b;
                assert(declared[i].len() == 2);
            }
        }
        if good_pair(declared.last(), names) {
            lemma_last_edge(out, (a, b));
            assert(out.drop_last() =~= fusible_of(front, names));
        }
    }
}

/// Law: without edges the stages follow one another, and without a collector the last one's
/// output is where events go; what is declared stays.
pub proof fn law_the_usual_shape_is_a_chain(t: Topology, i: int)
    requires
        0 <= i < t.stages.len() - 1,
    ensures
        t.edges.len() == 0 ==> normalized(t).edges.len() == t.stages.len() - 1 && normalized(
            t,
        ).edges[i] == (t.stages[i].name, t.stages[i + 1].name),
        t.edges.len() > 0 ==> normalized(t).edges == t.edges,
        t.collector is Some ==> normalized(t).collector == t.collector,
        t.collector is None ==> normalized(t).collector == t.stages.last().output,
        normalized(t).stages.len() == t.stages.len(),
        normalized(t).stages[i].name == t.stages[i].name,
{
}

/// Law: a stage that is not fused is its own only part; a fused one has its parts in order, each
/// with its component, which is where it usually is unless declared elsewhere.
pub proof fn law_parts_have_their_components(s: PipelineStage, i: int)
    ensures
        s.fused_from@.len() == 0 ==> halves_of(s).len() == 1 && halves_of(s)[0].0 == s.name@ && (
        s.wasm matches Some(w) ==> halves_of(s)[0].1 == w@) && (s.wasm is None ==> halves_of(
            s,
        )[0].1 == usual_wasm_path(s.name@)),
        0 <= i < s.fused_from@.len() ==> halves_of(s).len() == s.fused_from@.len() && halves_of(
            s,
        )[i].0 == s.fused_from@[i].name@ && (s.fused_from@[i].wasm matches Some(w) ==> halves_of(
            s,
        )[i].1 == w@),
{
}

} // verus!
