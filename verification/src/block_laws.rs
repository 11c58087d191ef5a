//! What the plots and lists of a report promise of what they are drawn from, and how a worker
//! waits at an edge.

use vstd::prelude::*;
use bytes::Bytes;
use crate::fold::HopTime;
use crate::inproc::{
    edge_pop_step, edge_push_step, next_steps, wait_at, Edge, PopStep, PushStep, Wait,
};
use crate::json::JsonModel;
use crate::ordered::{law_text_order_is_total, law_text_order_is_transitive};
use crate::payload::content;
use crate::report::{in_bucket, point_step, points_x, points_y, second_counts, second_labels};
use crate::report_laws::{
    at_most, law_rounding_is_to_the_nearest, law_times_are_told_as_they_are,
    lemma_in_order_counts, tells, total,
};
use crate::run_laws::{
    all_of, edges_apart, gaps_at, gaps_between, law_gaps_are_counted, names_apart,
};
use crate::stats::{in_order, law_ordered, text_less};
use crate::summary::{
    by_ends, edge_less, is_group_at, is_replica_at, mean_excess, row_gaps, with_edge,
    with_group, with_replica, GapModel, GroupModel,
};
use crate::telemetry::{
    added, all_added, known_hops, with_cold_start, EventRow, ScalingEvent, SeriesModel,
};

verus! {

// ---------------------------------------------------------------------------
// Gaps between stages
// ---------------------------------------------------------------------------

proof fn lemma_rows_apart(rows: Seq<EventRow>)
    ensures
        edges_apart(row_gaps(rows)),
    decreases rows.len(),
{
    if rows.len() > 0 {
        lemma_rows_apart(rows.drop_last());
        let hops = rows.last().hops@;
        law_gaps_are_counted(
            row_gaps(rows.drop_last()),
            hops,
            hops.len() - 1,
            Seq::empty(),
            Seq::empty(),
        );
    }
}

/// Law: of every event that is kept, all gaps from the one stage to the other are counted for
/// these two.
pub proof fn law_all_gaps_are_counted(
    rows: Seq<EventRow>,
    row: EventRow,
    from: Seq<char>,
    to: Seq<char>,
)
    ensures
        gaps_at(row_gaps(rows.push(row)), from, to) == gaps_at(row_gaps(rows), from, to)
            + gaps_between(row.hops@, row.hops@.len() - 1, from, to),
        row_gaps(Seq::empty()) == Seq::<GapModel>::empty(),
{
    assert(rows.push(row).drop_last() =~= rows);
    lemma_rows_apart(rows);
    law_gaps_are_counted(row_gaps(rows), row.hops@, row.hops@.len() - 1, from, to);
}

proof fn lemma_with_edge(s: Seq<GapModel>, e: GapModel)
    requires
        forall|i: int, j: int| 0 <= i < j < s.len() ==> !edge_less(#[trigger] s[j], #[trigger] s[i]),
    ensures
        forall|i: int, j: int|
            0 <= i < j < with_edge(s, e).len() ==> !edge_less(
                #[trigger] with_edge(s, e)[j],
                #[trigger] with_edge(s, e)[i],
            ),
        with_edge(s, e).to_multiset() == s.to_multiset().insert(e),
        with_edge(s, e).len() == s.len() + 1,
    decreases s.len(),
{
    broadcast use vstd::seq_lib::group_to_multiset_ensures;

    let out = with_edge(s, e);
    if s.len() == 0 {
        assert(out =~= s.push(e));
    } else if edge_less(e, s.last()) {
        let rest = s.drop_last();
        assert forall|i: int, j: int| 0 <= i < j < rest.len() implies !edge_less(
            #[trigger] rest[j],
            #[trigger] rest[i],
        ) by {
            assert(!edge_less(s[j], s[i]));
        }
        lemma_with_edge(rest, e);
        let front = with_edge(rest, e);
        assert(s =~= rest.push(s.last()));
        assert(out.to_multiset() =~= s.to_multiset().insert(e));
        assert forall|i: int, j: int| 0 <= i < j < out.len() implies !edge_less(
            #[trigger] out[j],
            #[trigger] out[i],
        ) by {
            if j < front.len() {
                assert(!edge_less(front[j], front[i]));
            } else {
                assert(front.to_multiset().count(front[i]) > 0);
                if front[i] == e {
                    lemma_edge_order(e, s.last(), e);
                } else {
                    assert(rest.to_multiset().count(front[i]) > 0);
                    let k = choose|k: int| 0 <= k < rest.len() && rest[k] == front[i];
                    assert(!edge_less(s[s.len() - 1], s[k]));
                }
            }
        }
    } else {
        assert forall|i: int, j: int| 0 <= i < j < out.len() implies !edge_less(
            #[trigger] out[j],
            #[trigger] out[i],
        ) by {
            if j < s.len() {
                assert(!edge_less(s[j], s[i]));
            } else if i < s.len() - 1 {
                assert(!edge_less(s[s.len() - 1], s[i]));
                if edge_less(e, s[i]) {
                    lemma_edge_order(e, s[i], s.last());
                }
            }
        }
    }
}

proof fn lemma_edge_order(a: GapModel, b: GapModel, c: GapModel)
    ensures
        edge_less(a, b) ==> !edge_less(b, a),
        edge_less(a, b) && !edge_less(c, b) ==> edge_less(a, c),
{
    law_text_order_is_total(a.0, b.0);
    law_text_order_is_total(a.1, b.1);
    law_text_order_is_total(b.0, c.0);
    law_text_order_is_total(b.1, c.1);
    law_text_order_is_total(a.0, c.0);
    law_text_order_is_total(a.1, c.1);
    if text_less(a.0, b.0) && text_less(b.0, c.0) {
        law_text_order_is_transitive(a.0, b.0, c.0);
    }
    if text_less(a.1, b.1) && text_less(b.1, c.1) {
        law_text_order_is_transitive(a.1, b.1, c.1);
    }
}

/// Law: the edges are listed by the names of their ends, each of them, with all of its gaps.
pub proof fn law_edges_are_listed_by_name(m: Seq<GapModel>)
    ensures
        by_ends(m).to_multiset() == m.to_multiset(),
        by_ends(m).len() == m.len(),
        forall|i: int, j: int|
            0 <= i < j < by_ends(m).len() ==> !edge_less(
                #[trigger] by_ends(m)[j],
                #[trigger] by_ends(m)[i],
            ),
    decreases m.len(),
{
    broadcast use vstd::seq_lib::group_to_multiset_ensures;

    if m.len() > 0 {
        law_edges_are_listed_by_name(m.drop_last());
        lemma_with_edge(by_ends(m.drop_last()), m.last());
        assert(m =~= m.drop_last().push(m.last()));
    } else {
        assert(by_ends(m) =~= m);
    }
}

// ---------------------------------------------------------------------------
// Plots
// ---------------------------------------------------------------------------

/// Law: a value falls into one bucket at most, a greater one never into an earlier bucket.
pub proof fn law_buckets_are_apart(v: u64, w: u64, end: nat, i: int, j: int)
    requires
        v <= w,
        in_bucket(v, end, i),
        in_bucket(w, end, j),
    ensures
        i <= j,
        v == w ==> i == j,
{
    assert(i <= j) by (nonlinear_arith)
        requires
            i * end <= 50 * v,
            50 * w < (j + 1) * end,
            v <= w,
            end >= 0,
    ;
    if v == w {
        assert(j <= i) by (nonlinear_arith)
            requires
                j * end <= 50 * w,
                50 * v < (i + 1) * end,
                v == w,
                end >= 0,
        ;
    }
}

proof fn lemma_at_most(s: Seq<u64>, k: int)
    requires
        0 <= k < s.len(),
        forall|i: int, j: int| 0 <= i <= j < s.len() ==> s[i] <= s[j],
    ensures
        at_most(s, s[k]) >= k + 1,
    decreases s.len(),
{
    let rest = s.drop_last();
    if k < s.len() - 1 {
        assert forall|i: int, j: int| 0 <= i <= j < rest.len() implies rest[i] <= rest[j] by {
            assert(s[i] <= s[j]);
        }
        lemma_at_most(rest, k);
    } else if k > 0 {
        assert forall|i: int, j: int| 0 <= i <= j < rest.len() implies rest[i] <= rest[j] by {
            assert(s[i] <= s[j]);
        }
        lemma_at_most(rest, k - 1);
        lemma_at_most_grows(rest, s[k - 1], s[k]);
    }
}

proof fn lemma_at_most_grows(s: Seq<u64>, v: u64, w: u64)
    requires
        v <= w,
    ensures
        at_most(s, v) <= at_most(s, w),
    decreases s.len(),
{
    if s.len() > 0 {
        lemma_at_most_grows(s.drop_last(), v, w);
    }
}

/// Law: a point of the distribution tells a latency of the run and, to a hundredth of a per
/// cent, a share of the latencies that do not exceed it; at least that many do not.
pub proof fn law_points_tell_the_share(s: Seq<u64>, taken: nat, i: int) -> (r: (u64, nat))
    requires
        0 <= i < taken,
        i * point_step(s.len()) < s.len(),
    ensures
        tells(points_x(in_order(s), taken)[i], r.0 as nat, 1_000_000, 5),
        at_most(s, r.0) >= r.1,
        r.1 == i * point_step(s.len()) + 1,
        points_y(in_order(s), taken)[i] matches JsonModel::Ratio(q, d) && d == 100 && 2 * q
            * s.len() <= 2 * (r.1 * 10_000) + s.len() && 2 * (r.1 * 10_000) < 2 * q * s.len()
            + s.len(),
{
    let o = in_order(s);
    law_ordered(s);
    let step = point_step(s.len()) as int;
    let k = i * step;
    assert(k >= 0) by (nonlinear_arith)
        requires
            i >= 0,
            step >= 1,
            k == i * step,
    ;
    assert forall|a: int, b: int| 0 <= a <= b < o.len() implies o[a] <= o[b] by {}
    lemma_at_most(o, k);
    lemma_in_order_counts(s, o[k]);
    law_times_are_told_as_they_are(o[k]);
    law_rounding_is_to_the_nearest(((k + 1) * 10_000) as nat, s.len());
    (o[k], (k + 1) as nat)
}

/// Law: the events of a second are told with the number of that second since the run began.
pub proof fn law_seconds_are_told(seconds: Seq<(u64, u64)>, start_ns: u64, i: int)
    requires
        0 <= i < seconds.len(),
    ensures
        second_counts(seconds).len() == seconds.len(),
        second_labels(seconds, start_ns).len() == seconds.len(),
        second_counts(seconds)[i] == JsonModel::Count(seconds[i].1 as nat),
        second_labels(seconds, start_ns)[i] matches JsonModel::Count(n) && (seconds[i].0
            >= start_ns / 1_000_000_000 ==> n + start_ns / 1_000_000_000 == seconds[i].0) && (
        seconds[i].0 < start_ns / 1_000_000_000 ==> n == 0),
{
}

/// Law: the difference of two means is told to the nearest, and none where the second is the
/// greater.
pub proof fn law_mean_differences_are_told(a: Seq<u64>, b: Seq<u64>)
    requires
        a.len() > 0,
        b.len() > 0,
    ensures
        ({
            let n = (a.len() * b.len()) as int;
            let d = total(a) * b.len() - total(b) * a.len();
            &&& d > 0 ==> 2 * mean_excess(a, b) * n <= 2 * d + n && 2 * d < 2 * mean_excess(a, b)
                * n + n
            &&& d <= 0 ==> mean_excess(a, b) == 0
        }),
{
    lemma_total(a);
    lemma_total(b);
    let d = total(a) * b.len() - total(b) * a.len();
    assert(a.len() * b.len() > 0) by (nonlinear_arith)
        requires
            a.len() > 0,
            b.len() > 0,
    ;
    if d > 0 {
        law_rounding_is_to_the_nearest(d as nat, (a.len() * b.len()) as nat);
    }
}

proof fn lemma_total(s: Seq<u64>)
    ensures
        crate::stats::sum_of(s) == total(s),
    decreases s.len(),
{
    if s.len() > 0 {
        lemma_total(s.drop_last());
    }
}

// ---------------------------------------------------------------------------
// Measuring
// ---------------------------------------------------------------------------

/// Law: a number of measurements that are added under a name come behind those that are there,
/// in their order, and change nothing under another.
pub proof fn law_many_measurements_are_kept(
    m: SeriesModel,
    name: Seq<char>,
    values: Seq<u64>,
    other: Seq<char>,
)
    requires
        names_apart(m),
    ensures
        names_apart(all_added(m, name, values)),
        all_of(all_added(m, name, values), name) == all_of(m, name) + values,
        other != name ==> all_of(all_added(m, name, values), other) == all_of(m, other),
    decreases values.len(),
{
    if values.len() > 0 {
        law_many_measurements_are_kept(m, name, values.drop_last(), other);
        crate::run_laws::law_measurements_are_kept(
            all_added(m, name, values.drop_last()),
            name,
            values.last(),
            other,
        );
        assert(all_of(m, name) + values =~= (all_of(m, name) + values.drop_last()).push(
            values.last(),
        ));
    } else {
        assert(all_of(m, name) + values =~= all_of(m, name));
    }
}

/// Law: how long a start took is kept with the change that it belongs to, and with no other.
pub proof fn law_cold_starts_go_to_their_change(
    events: Seq<ScalingEvent>,
    at: int,
    ns: u64,
    k: int,
)
    requires
        0 <= at < events.len(),
        0 <= k < events.len(),
    ensures
        with_cold_start(events, at, ns).len() == events.len(),
        with_cold_start(events, at, ns)[at].cold_start_ns == Some(ns),
        with_cold_start(events, at, ns)[at].action@ == events[at].action@,
        with_cold_start(events, at, ns)[at].stage@ == events[at].stage@,
        with_cold_start(events, at, ns)[at].new_count == events[at].new_count,
        with_cold_start(events, at, ns)[at].t_ns == events[at].t_ns,
        k != at ==> with_cold_start(events, at, ns)[k] == events[k],
{
}

/// Law: a hop counts where both of its times are known, with each in its place.
pub proof fn law_known_hops_are_kept(
    hops: Seq<(String, Option<u64>, Option<u64>)>,
    h: (String, Option<u64>, Option<u64>),
)
    ensures
        known_hops(Seq::empty()) == Seq::<HopTime>::empty(),
        h.1 is Some && h.2 is Some ==> known_hops(hops.push(h)).len() == known_hops(hops).len() + 1
            && known_hops(hops.push(h)).drop_last() == known_hops(hops) && known_hops(
            hops.push(h),
        ).last().label@ == h.0@ && known_hops(hops.push(h)).last().enter_ns == h.1->0
            && known_hops(hops.push(h)).last().exit_ns == h.2->0,
        h.1 is None || h.2 is None ==> known_hops(hops.push(h)) == known_hops(hops),
{
    assert(hops.push(h).drop_last() =~= hops);
    if h.1 is Some && h.2 is Some {
        assert(known_hops(hops.push(h)).drop_last() =~= known_hops(hops));
    }
}

/// The times are kept for that replica of that stage.
pub open spec fn is_kept_for(g: GroupModel, stage: Seq<char>, n: nat, values: Seq<u64>) -> bool {
    exists|i: int, k: int|
        0 <= i < g.len() && 0 <= k < g[i].1.len() && (#[trigger] g[i]).0 == stage && (
        #[trigger] g[i].1[k]) == (n, values)
}

proof fn lemma_group_there(g: GroupModel, stage: Seq<char>, i: int)
    requires
        0 <= i < g.len(),
        g[i].0 == stage,
    ensures
        exists|k: int| is_group_at(g, stage, k),
    decreases i,
{
    if forall|k: int| 0 <= k < i ==> (#[trigger] g[k]).0 != stage {
        assert(is_group_at(g, stage, i));
    } else {
        let k = choose|k: int| 0 <= k < i && (#[trigger] g[k]).0 == stage;
        lemma_group_there(g, stage, k);
    }
}

/// Law: the times of a replica are found under its stage and its number, and those of another
/// stage stay where they are.
pub proof fn law_replicas_are_grouped(
    g: GroupModel,
    stage: Seq<char>,
    n: nat,
    values: Seq<u64>,
    other: Seq<char>,
    m: nat,
    kept: Seq<u64>,
)
    requires
        other != stage,
        is_kept_for(g, other, m, kept),
    ensures
        is_kept_for(with_group(g, stage, n, values), stage, n, values),
        is_kept_for(with_group(g, stage, n, values), other, m, kept),
{
    let out = with_group(g, stage, n, values);
    let (a, b) = choose|i: int, k: int|
        0 <= i < g.len() && 0 <= k < g[i].1.len() && (#[trigger] g[i]).0 == other && (
        #[trigger] g[i].1[k]) == (m, kept);
    assert(out[a] == g[a]) by {
        if exists|i: int| is_group_at(g, stage, i) {
            let i = choose|i: int| is_group_at(g, stage, i);
            assert(i != a);
        }
    }
    assert(out[a].0 == other && out[a].1[b] == (m, kept));
    if exists|i: int| is_group_at(g, stage, i) {
        let i = choose|i: int| is_group_at(g, stage, i);
        let r = with_replica(g[i].1, n, values);
        assert(out[i] == (stage, r));
        if exists|k: int| is_replica_at(g[i].1, n, k) {
            let k = choose|k: int| is_replica_at(g[i].1, n, k);
            assert(out[i].1[k] == (n, values));
        } else {
            assert(out[i].1[g[i].1.len() as int] == (n, values));
        }
    } else {
        assert(out[g.len() as int].1[0] == (n, values));
    }
}

// ---------------------------------------------------------------------------
// Waiting
// ---------------------------------------------------------------------------

/// How long a wait is: spinning, giving way, sleeping.
pub open spec fn weight(w: Wait) -> nat {
    match w {
        Wait::Spin(n) => n as nat,
        Wait::Yield => 1000,
        Wait::Sleep(_) => 2000,
    }
}

/// Law: the longer a worker has waited the more it rests: it spins twice as long each time, then
/// gives way, then sleeps, and never goes back.
pub proof fn law_waits_grow_longer(steps: nat)
    requires
        steps < u32::MAX,
    ensures
        next_steps(steps) == steps + 1,
        weight(wait_at(steps)) <= weight(wait_at(next_steps(steps))),
        wait_at(0) == Wait::Spin(1),
        wait_at(steps) is Spin && wait_at(next_steps(steps)) is Spin ==> weight(
            wait_at(next_steps(steps)),
        ) == 2 * weight(wait_at(steps)),
        wait_at(steps) is Sleep ==> wait_at(next_steps(steps)) == wait_at(steps),
        wait_at(steps) is Spin <==> steps < 6,
        wait_at(steps) is Sleep <==> steps >= 16,
{
    vstd::arithmetic::power2::lemma2_to64();
    if steps < 6 {
        vstd::arithmetic::power2::lemma_pow2_unfold(steps + 1);
        assert(steps == 0 || steps == 1 || steps == 2 || steps == 3 || steps == 4 || steps == 5);
    }
}

/// Law: an event that goes into an edge comes out of it after all that were there, unchanged, and
/// nothing is lost where there is no room.
pub proof fn law_edges_keep_the_order(
    a: Edge,
    b: Edge,
    c: Edge,
    item: Bytes,
    out: Bytes,
    drain: bool,
    more: bool,
)
    requires
        edge_push_step(a, b, item, drain, PushStep::Delivered),
        edge_pop_step(b, c, more, PopStep::Item(out)),
    ensures
        seq![content(out)] + c.events() == a.events().push(content(item)),
        c.events().len() == a.events().len(),
        a.events().len() == 0 ==> content(out) == content(item),
        c.room() == a.room(),
{
    assert(seq![content(out)] + c.events() =~= a.events().push(content(item)));
}

/// Law: an edge refuses an event just where it is full, and a worker stops waiting just when all
/// ends.
pub proof fn law_full_edges_refuse(a: Edge, b: Edge, item: Bytes, drain: bool, r: PushStep)
    requires
        edge_push_step(a, b, item, drain, r),
    ensures
        r is Delivered <==> a.events().len() < a.room(),
        r !is Delivered ==> b.events() == a.events(),
        r is Dropped ==> drain,
        r is Blocked ==> !drain,
{
}

} // verus!
