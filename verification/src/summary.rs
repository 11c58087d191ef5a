//! The blocks of a run's report. Their layout is what the tools that read it
//! rely on.

use vstd::prelude::*;
use crate::config::has_name;
use crate::fold::HopTime;
use crate::json::{shows, ArrayOut, JsonModel, JsonOut, ObjectOut};
use crate::numtext::{decimal, decimal_text, owned_views, parse_number, parsed};
use crate::stats::{
    at_quantile, comes_before, greatest, in_order, last_or_zero, nearest, pct, round_half_up,
    sorted, subsample, subsample_rate, sum, sum_of, text_less, thinned, thinning,
};
use crate::telemetry::{
    is_series_at, series_of, DepthSeries, EventRow, ResourceSample, ScalingEvent, Series,
    SeriesModel,
};
use crate::text::{before, chars_of, same, string_of, text_before};

verus! {

/// An object of some entries.
pub type Entries = Seq<(Seq<char>, JsonModel)>;

/// Nanoseconds as milliseconds.
pub open spec fn ms(ns: u64) -> JsonModel {
    JsonModel::Ratio(ns as nat, 1_000_000)
}

/// Nanoseconds as milliseconds, to five digits.
pub open spec fn ms_r5(ns: u64) -> JsonModel {
    JsonModel::Ratio(nearest(ns as nat, 10), 100_000)
}

/// Nanoseconds as seconds, to three digits.
pub open spec fn seconds_r3(ns: u64) -> JsonModel {
    JsonModel::Ratio(nearest(ns as nat, 1_000_000), 1000)
}

/// The mean of some values of which a unit has `unit`.
pub open spec fn mean_of(s: Seq<u64>, unit: nat) -> JsonModel {
    if s.len() == 0 {
        JsonModel::Ratio(0, 1)
    } else {
        JsonModel::Ratio(sum_of(s), s.len() * unit)
    }
}

/// Values of which a unit has `unit`.
pub open spec fn ratios(s: Seq<u64>, unit: nat) -> JsonModel {
    JsonModel::Array(s.map_values(|v: u64| JsonModel::Ratio(v as nat, unit)))
}

pub(crate) fn put_ms<'a>(o: &mut ObjectOut<'a>, name: &str, ns: u64)
    requires
        old(o).wf(),
    ensures
        final(o).wf(),
        final(o).model@ == old(o).model@.push((name@, ms(ns))),
{
    o.put_ratio(name, ns as u128, 1_000_000);
}

pub(crate) fn put_ms_r5<'a>(o: &mut ObjectOut<'a>, name: &str, ns: u64)
    requires
        old(o).wf(),
    ensures
        final(o).wf(),
        final(o).model@ == old(o).model@.push((name@, ms_r5(ns))),
{
    let r: u128 = round_half_up(ns as u128, 10);
    o.put_ratio(name, r, 100_000);
}

fn put_mean<'a>(o: &mut ObjectOut<'a>, name: &str, s: &Vec<u64>, unit: u64)
    requires
        old(o).wf(),
        unit > 0,
    ensures
        final(o).wf(),
        final(o).model@ == old(o).model@.push((name@, mean_of(s@, unit as nat))),
{
    if s.len() == 0 {
        o.put_ratio(name, 0, 1);
    } else {
        let total: u128 = sum(s);
        let n: usize = s.len();
        proof {
            assert(n * unit <= 0xffff_ffff_ffff_ffff * 0xffff_ffff_ffff_ffff) by (nonlinear_arith)
                requires
                    0 <= n <= 0xffff_ffff_ffff_ffff,
                    0 <= unit <= 0xffff_ffff_ffff_ffff,
            ;
        }
        o.put_ratio(name, total, n as u128 * unit as u128);
    }
}

fn ratio_list<'a>(s: &Vec<u64>, unit: u64) -> (j: JsonOut<'a>)
    ensures
        shows(j, ratios(s@, unit as nat)),
{
    let ghost all = s@.map_values(|v: u64| JsonModel::Ratio(v as nat, unit as nat));
    let mut a = ArrayOut::new();
    let mut i: usize = 0;
    assert(all.take(0) =~= Seq::<JsonModel>::empty());
    while i < s.len()
        invariant
            i <= s@.len(),
            all == s@.map_values(|v: u64| JsonModel::Ratio(v as nat, unit as nat)),
            a.wf(),
            a.model@ == all.take(i as int),
        decreases s@.len() - i,
    {
        a.push_ratio(s[i] as u128, unit as u128);
        assert(all.take(i + 1) =~= all.take(i as int).push(all[i as int]));
        i = i + 1;
    }
    assert(all.take(i as int) =~= all);
    a.done()
}

fn put_samples<'a>(o: &mut ObjectOut<'a>, name: &str, s: &Vec<u64>, cap: usize, unit: u64)
    requires
        old(o).wf(),
        cap > 0,
    ensures
        final(o).wf(),
        final(o).model@ == old(o).model@.push(
            (name@, ratios(thinned(s@, cap as nat), unit as nat)),
        ),
{
    let few = subsample(s, cap);
    let list = ratio_list(&few, unit);
    o.put(name, list, Ghost(ratios(few@, unit as nat)));
}

/// How the times of one stage are spread.
pub open spec fn stage_latency(values: Seq<u64>) -> JsonModel {
    let s = in_order(values);
    JsonModel::Object(
        seq![
            ("count"@, JsonModel::Count(s.len())),
            ("p50"@, ms_r5(at_quantile(s, 500))),
            ("p95"@, ms_r5(at_quantile(s, 950))),
            ("p99"@, ms_r5(at_quantile(s, 990))),
            ("p999"@, ms_r5(at_quantile(s, 999))),
            ("max"@, ms(greatest(s))),
            ("mean"@, mean_of(s, 1_000_000)),
        ],
    )
}

fn stage_latency_out<'a>(values: &Vec<u64>) -> (j: JsonOut<'a>)
    ensures
        shows(j, stage_latency(values@)),
{
    let s = sorted(values);
    let mut o = ObjectOut::new();
    o.put_count("count", s.len() as u64);
    put_ms_r5(&mut o, "p50", pct(&s, 500));
    put_ms_r5(&mut o, "p95", pct(&s, 950));
    put_ms_r5(&mut o, "p99", pct(&s, 990));
    put_ms_r5(&mut o, "p999", pct(&s, 999));
    put_ms(&mut o, "max", last_or_zero(&s));
    put_mean(&mut o, "mean", &s, 1_000_000);
    o.done()
}

/// How the times of the events from end to end are spread.
pub open spec fn e2e_latency(s: Seq<u64>) -> JsonModel {
    JsonModel::Object(
        seq![
            ("count"@, JsonModel::Count(s.len())),
            ("p50"@, ms_r5(at_quantile(s, 500))),
            ("p90"@, ms_r5(at_quantile(s, 900))),
            ("p95"@, ms_r5(at_quantile(s, 950))),
            ("p99"@, ms_r5(at_quantile(s, 990))),
            ("p999"@, ms_r5(at_quantile(s, 999))),
            ("max"@, ms(greatest(s))),
            ("mean"@, mean_of(s, 1_000_000)),
            ("samples"@, ratios(thinned(s, 100_000), 1_000_000)),
            ("samples_subsample_rate"@, JsonModel::Count(thinning(s.len(), 100_000))),
        ],
    )
}

fn e2e_latency_out<'a>(s: &Vec<u64>) -> (j: JsonOut<'a>)
    ensures
        shows(j, e2e_latency(s@)),
{
    let mut o = ObjectOut::new();
    o.put_count("count", s.len() as u64);
    put_ms_r5(&mut o, "p50", pct(s, 500));
    put_ms_r5(&mut o, "p90", pct(s, 900));
    put_ms_r5(&mut o, "p95", pct(s, 950));
    put_ms_r5(&mut o, "p99", pct(s, 990));
    put_ms_r5(&mut o, "p999", pct(s, 999));
    put_ms(&mut o, "max", last_or_zero(s));
    put_mean(&mut o, "mean", s, 1_000_000);
    put_samples(&mut o, "samples", s, 100_000, 1_000_000);
    o.put_count("samples_subsample_rate", subsample_rate(s.len(), 100_000) as u64);
    o.done()
}

/// The latencies, from end to end and by stage.
pub open spec fn latency_block(e2e: Seq<u64>, stages: SeriesModel) -> JsonModel {
    JsonModel::Object(
        seq![
            ("e2e"@, e2e_latency(e2e)),
            (
                "per_stage"@,
                JsonModel::Object(
                    stages.map_values(
                        |e: (Seq<char>, Seq<u64>)| (e.0, stage_latency(e.1)),
                    ),
                ),
            ),
        ],
    )
}

pub(crate) fn latency_out<'a>(e2e: &Vec<u64>, stages: &Vec<Series>) -> (j: JsonOut<'a>)
    ensures
        shows(j, latency_block(e2e@, series_of(stages@))),
{
    let ghost all = series_of(stages@).map_values(
        |e: (Seq<char>, Seq<u64>)| (e.0, stage_latency(e.1)),
    );
    let mut per = ObjectOut::new();
    let mut i: usize = 0;
    assert(all.take(0) =~= Seq::<(Seq<char>, JsonModel)>::empty());
    while i < stages.len()
        invariant
            i <= stages@.len(),
            all == series_of(stages@).map_values(
                |e: (Seq<char>, Seq<u64>)| (e.0, stage_latency(e.1)),
            ),
            per.wf(),
            per.model@ == all.take(i as int),
        decreases stages@.len() - i,
    {
        let s = &stages[i];
        let one = stage_latency_out(&s.values);
        per.put(s.name.as_str(), one, Ghost(stage_latency(s.values@)));
        assert(all[i as int] == (s.name@, stage_latency(s.values@)));
        assert(all.take(i + 1) =~= all.take(i as int).push(all[i as int]));
        i = i + 1;
    }
    assert(all.take(i as int) =~= all);
    let mut o = ObjectOut::new();
    let whole = e2e_latency_out(e2e);
    o.put("e2e", whole, Ghost(e2e_latency(e2e@)));
    let stages_json = per.done();
    o.put("per_stage", stages_json, Ghost(JsonModel::Object(all)));
    o.done()
}

/// How many events came, and how many went through each stage.
pub open spec fn counters_block(received: nat, stages: SeriesModel) -> JsonModel {
    JsonModel::Object(
        seq![
            ("events_received"@, JsonModel::Count(received)),
            (
                "per_stage_count"@,
                JsonModel::Object(
                    stages.map_values(
                        |e: (Seq<char>, Seq<u64>)| (e.0, JsonModel::Count(e.1.len())),
                    ),
                ),
            ),
        ],
    )
}

pub(crate) fn counters_out<'a>(received: u64, stages: &Vec<Series>) -> (j: JsonOut<'a>)
    ensures
        shows(j, counters_block(received as nat, series_of(stages@))),
{
    let ghost all = series_of(stages@).map_values(
        |e: (Seq<char>, Seq<u64>)| (e.0, JsonModel::Count(e.1.len())),
    );
    let mut per = ObjectOut::new();
    let mut i: usize = 0;
    assert(all.take(0) =~= Seq::<(Seq<char>, JsonModel)>::empty());
    while i < stages.len()
        invariant
            i <= stages@.len(),
            all == series_of(stages@).map_values(
                |e: (Seq<char>, Seq<u64>)| (e.0, JsonModel::Count(e.1.len())),
            ),
            per.wf(),
            per.model@ == all.take(i as int),
        decreases stages@.len() - i,
    {
        let s = &stages[i];
        per.put_count(s.name.as_str(), s.values.len() as u64);
        assert(all[i as int] == (s.name@, JsonModel::Count(s.values@.len())));
        assert(all.take(i + 1) =~= all.take(i as int).push(all[i as int]));
        i = i + 1;
    }
    assert(all.take(i as int) =~= all);
    let mut o = ObjectOut::new();
    o.put_count("events_received", received);
    let per_json = per.done();
    o.put("per_stage_count", per_json, Ghost(JsonModel::Object(all)));
    o.done()
}

/// Events in a time, by the second; none where there was no time.
pub open spec fn rate(events: nat, ns: nat) -> JsonModel {
    if ns > 0 {
        JsonModel::Ratio(events * 1_000_000_000, ns)
    } else {
        JsonModel::Ratio(0, 1)
    }
}

/// What is left out at the start of a run, in tenths of a nanosecond: a tenth
/// of it, and no more than five seconds.
pub open spec fn warmup(duration_ns: nat) -> nat {
    if duration_ns < 50_000_000_000 {
        duration_ns
    } else {
        50_000_000_000
    }
}

/// How many events came in a second or later.
pub open spec fn since(seconds: Seq<(u64, u64)>, from: nat) -> nat
    decreases seconds.len(),
{
    if seconds.len() == 0 {
        0
    } else {
        since(seconds.drop_last(), from) + if seconds.last().0 >= from {
            seconds.last().1 as nat
        } else {
            0
        }
    }
}

/// The first second that counts once the start is left out.
pub open spec fn warm_from(start_ns: nat, duration_ns: nat) -> nat {
    (10 * start_ns + warmup(duration_ns)) / 10_000_000_000
}

/// The time that counts once the start is left out, in tenths of a nanosecond:
/// a millisecond at least.
pub open spec fn warm_window(duration_ns: nat) -> nat {
    let left = (10 * duration_ns - warmup(duration_ns)) as nat;
    if left < 10_000_000 {
        10_000_000
    } else {
        left
    }
}

/// How fast the events came: over the whole run, without its start, and by
/// stage.
pub open spec fn throughput_block(
    received: nat,
    seconds: Seq<(u64, u64)>,
    stages: SeriesModel,
    start_ns: nat,
    duration_ns: nat,
) -> JsonModel {
    JsonModel::Object(
        seq![
            (
                "sustained_eps"@,
                JsonModel::Ratio(
                    if duration_ns > 0 {
                        nearest(received * 1_000_000_000_000, duration_ns)
                    } else {
                        0
                    },
                    1000,
                ),
            ),
            (
                "sustained_eps_warmup_trimmed"@,
                JsonModel::Ratio(
                    nearest(
                        since(seconds, warm_from(start_ns, duration_ns)) * 10_000_000_000_000,
                        warm_window(duration_ns),
                    ),
                    1000,
                ),
            ),
            (
                "warmup_trim_s"@,
                JsonModel::Ratio(nearest(warmup(duration_ns), 10_000_000), 1000),
            ),
            (
                "per_stage_eps"@,
                JsonModel::Object(
                    stages.map_values(
                        |e: (Seq<char>, Seq<u64>)| (e.0, rate(e.1.len(), duration_ns)),
                    ),
                ),
            ),
        ],
    )
}

fn count_since(seconds: &Vec<(u64, u64)>, from: u64) -> (n: u128)
    ensures
        n == since(seconds@, from as nat),
        n <= seconds@.len() * 0xffff_ffff_ffff_ffff,
{
    let len: usize = seconds.len();
    let mut n: u128 = 0;
    let mut i: usize = 0;
    assert(seconds@.take(0) =~= Seq::<(u64, u64)>::empty());
    while i < len
        invariant
            i <= len == seconds@.len(),
            len <= 0xffff_ffff_ffff_ffff,
            n == since(seconds@.take(i as int), from as nat),
            n <= i * 0xffff_ffff_ffff_ffff,
        decreases len - i,
    {
        assert(seconds@.take(i + 1).drop_last() =~= seconds@.take(i as int));
        if seconds[i].0 >= from {
            n = n + seconds[i].1 as u128;
        }
        i = i + 1;
    }
    assert(seconds@.take(i as int) =~= seconds@);
    n
}

proof fn lemma_since_bound(seconds: Seq<(u64, u64)>, from: nat)
    ensures
        since(seconds, from) <= crate::telemetry::total_of(seconds),
    decreases seconds.len(),
{
    if seconds.len() > 0 {
        lemma_since_bound(seconds.drop_last(), from);
    }
}

pub(crate) fn throughput_out<'a>(
    received: u64,
    seconds: &Vec<(u64, u64)>,
    stages: &Vec<Series>,
    start_ns: u64,
    duration_ns: u64,
) -> (j: JsonOut<'a>)
    requires
        crate::telemetry::total_of(seconds@) == received,
    ensures
        shows(
            j,
            throughput_block(
                received as nat,
                seconds@,
                series_of(stages@),
                start_ns as nat,
                duration_ns as nat,
            ),
        ),
{
    let trim: u64 = if duration_ns < 50_000_000_000 {
        duration_ns
    } else {
        50_000_000_000
    };
    let from: u128 = (10 * start_ns as u128 + trim as u128) / 10_000_000_000;
    let left: u128 = 10 * duration_ns as u128 - trim as u128;
    let window: u128 = if left < 10_000_000 {
        10_000_000
    } else {
        left
    };
    proof {
        lemma_since_bound(seconds@, from as nat);
    }
    let warm: u128 = count_since(seconds, from as u64);
    let eps: u128 = if duration_ns > 0 {
        round_half_up(received as u128 * 1_000_000_000_000, duration_ns as u128)
    } else {
        0
    };
    let warm_eps: u128 = round_half_up(warm * 10_000_000_000_000, window);
    let trim_s: u128 = round_half_up(trim as u128, 10_000_000);
    let ghost all = series_of(stages@).map_values(
        |e: (Seq<char>, Seq<u64>)| (e.0, rate(e.1.len(), duration_ns as nat)),
    );
    let mut per = ObjectOut::new();
    let mut i: usize = 0;
    assert(all.take(0) =~= Seq::<(Seq<char>, JsonModel)>::empty());
    while i < stages.len()
        invariant
            i <= stages@.len(),
            all == series_of(stages@).map_values(
                |e: (Seq<char>, Seq<u64>)| (e.0, rate(e.1.len(), duration_ns as nat)),
            ),
            per.wf(),
            per.model@ == all.take(i as int),
        decreases stages@.len() - i,
    {
        let s = &stages[i];
        assert(all[i as int] == (s.name@, rate(s.values@.len(), duration_ns as nat)));
        let n: usize = s.values.len();
        if duration_ns > 0 {
            per.put_ratio(s.name.as_str(), n as u128 * 1_000_000_000, duration_ns as u128);
        } else {
            per.put_ratio(s.name.as_str(), 0, 1);
        }
        assert(all.take(i + 1) =~= all.take(i as int).push(all[i as int]));
        i = i + 1;
    }
    assert(all.take(i as int) =~= all);
    let mut o = ObjectOut::new();
    o.put_ratio("sustained_eps", eps, 1000);
    o.put_ratio("sustained_eps_warmup_trimmed", warm_eps, 1000);
    o.put_ratio("warmup_trim_s", trim_s, 1000);
    let per_json = per.done();
    o.put("per_stage_eps", per_json, Ghost(JsonModel::Object(all)));
    o.done()
}

/// The gaps on one edge: from where, to where, and how long each was.
#[derive(Debug)]
pub struct EdgeGaps {
    pub from: String,
    pub to: String,
    pub values: Vec<u64>,
}

/// The gaps on one edge, for contracts.
pub type GapModel = (Seq<char>, Seq<char>, Seq<u64>);

pub open spec fn gaps_of(v: Seq<EdgeGaps>) -> Seq<GapModel> {
    v.map_values(|e: EdgeGaps| (e.from@, e.to@, e.values@))
}

/// The first edge between the two is at `i`.
pub open spec fn is_edge_at(m: Seq<GapModel>, from: Seq<char>, to: Seq<char>, i: int) -> bool {
    &&& 0 <= i < m.len()
    &&& m[i].0 == from && m[i].1 == to
    &&& forall|k: int| 0 <= k < i ==> !((#[trigger] m[k]).0 == from && m[k].1 == to)
}

/// A gap added to an edge.
pub open spec fn with_gap(m: Seq<GapModel>, from: Seq<char>, to: Seq<char>, v: u64) -> Seq<
    GapModel,
> {
    if exists|i: int| is_edge_at(m, from, to, i) {
        let i = choose|i: int| is_edge_at(m, from, to, i);
        m.update(i, (from, to, m[i].2.push(v)))
    } else {
        m.push((from, to, seq![v]))
    }
}

/// The gaps between the first `n + 1` hops of an event: from the end of one to
/// the start of the next, where that is not earlier.
pub open spec fn hop_gaps(m: Seq<GapModel>, hops: Seq<HopTime>, n: int) -> Seq<GapModel>
    decreases n,
{
    if n <= 0 {
        m
    } else {
        let rest = hop_gaps(m, hops, n - 1);
        let a = hops[n - 1];
        let b = hops[n];
        if b.enter_ns >= a.exit_ns {
            with_gap(
                rest,
                before(a.label@, '#'),
                before(b.label@, '#'),
                (b.enter_ns - a.exit_ns) as u64,
            )
        } else {
            rest
        }
    }
}

/// The gaps between the hops of some events.
pub open spec fn row_gaps(rows: Seq<EventRow>) -> Seq<GapModel>
    decreases rows.len(),
{
    if rows.len() == 0 {
        Seq::empty()
    } else {
        hop_gaps(row_gaps(rows.drop_last()), rows.last().hops@, rows.last().hops@.len() - 1)
    }
}

/// An edge comes before another: by where it starts, then by where it ends.
pub open spec fn edge_less(a: GapModel, b: GapModel) -> bool {
    text_less(a.0, b.0) || (a.0 == b.0 && text_less(a.1, b.1))
}

/// An edge put in its place: behind all that do not come after it.
pub open spec fn with_edge(s: Seq<GapModel>, e: GapModel) -> Seq<GapModel>
    decreases s.len(),
{
    if s.len() == 0 {
        seq![e]
    } else if edge_less(e, s.last()) {
        with_edge(s.drop_last(), e).push(s.last())
    } else {
        s.push(e)
    }
}

/// The edges in the order of their ends.
pub open spec fn by_ends(m: Seq<GapModel>) -> Seq<GapModel>
    decreases m.len(),
{
    if m.len() == 0 {
        Seq::empty()
    } else {
        with_edge(by_ends(m.drop_last()), m.last())
    }
}

/// How the gaps of one edge are spread.
pub open spec fn edge_stats(e: GapModel) -> JsonModel {
    let s = in_order(e.2);
    JsonModel::Object(
        seq![
            ("from"@, JsonModel::Text(e.0)),
            ("to"@, JsonModel::Text(e.1)),
            ("count"@, JsonModel::Count(s.len())),
            ("p50"@, ms(at_quantile(s, 500))),
            ("p95"@, ms(at_quantile(s, 950))),
            ("p99"@, ms(at_quantile(s, 990))),
            ("p999"@, ms(at_quantile(s, 999))),
            ("max"@, ms(greatest(s))),
            ("mean"@, mean_of(s, 1_000_000)),
            ("samples"@, ratios(thinned(s, 100_000), 1_000_000)),
        ],
    )
}

/// The gaps between the stages.
pub open spec fn inter_stage_block(rows: Seq<EventRow>) -> JsonModel {
    let edges = by_ends(row_gaps(rows));
    if edges.len() == 0 {
        JsonModel::Object(
            seq![
                ("edges"@, JsonModel::Array(Seq::empty())),
                (
                    "note"@,
                    JsonModel::Text("single-stage pipeline or no multi-hop events observed"@),
                ),
            ],
        )
    } else {
        JsonModel::Object(
            seq![
                ("edges"@, JsonModel::Array(edges.map_values(|e: GapModel| edge_stats(e)))),
            ],
        )
    }
}

fn add_gap(edges: &mut Vec<EdgeGaps>, from: String, to: String, v: u64)
    ensures
        gaps_of(final(edges)@) == with_gap(gaps_of(old(edges)@), from@, to@, v),
{
    let ghost m = gaps_of(edges@);
    let mut i: usize = 0;
    while i < edges.len()
        invariant
            i <= edges@.len(),
            *edges == *old(edges),
            m == gaps_of(edges@),
            forall|k: int| 0 <= k < i ==> !((#[trigger] m[k]).0 == from@ && m[k].1 == to@),
        decreases edges@.len() - i,
    {
        assert(m[i as int].0 == edges@[i as int].from@ && m[i as int].1 == edges@[i as int].to@);
        if edges[i].from == from && edges[i].to == to {
            proof {
                assert(is_edge_at(m, from@, to@, i as int));
                let c = choose|c: int| is_edge_at(m, from@, to@, c);
                assert(is_edge_at(m, from@, to@, c));
                assert(c == i);
            }
            edges[i].values.push(v);
            assert(gaps_of(edges@) =~= m.update(i as int, (from@, to@, m[i as int].2.push(v))));
            return ;
        }
        i = i + 1;
    }
    let one = vec![v];
    assert(one@ =~= seq![v]);
    let ghost f = from@;
    let ghost t = to@;
    edges.push(EdgeGaps { from, to, values: one });
    assert(gaps_of(edges@) =~= m.push((f, t, seq![v])));
}

fn collect_gaps(rows: &Vec<EventRow>) -> (edges: Vec<EdgeGaps>)
    ensures
        gaps_of(edges@) == row_gaps(rows@),
{
    let mut edges: Vec<EdgeGaps> = Vec::new();
    let mut i: usize = 0;
    assert(rows@.take(0) =~= Seq::<EventRow>::empty());
    assert(gaps_of(edges@) =~= Seq::<GapModel>::empty());
    while i < rows.len()
        invariant
            i <= rows@.len(),
            gaps_of(edges@) == row_gaps(rows@.take(i as int)),
        decreases rows@.len() - i,
    {
        assert(rows@.take(i + 1).drop_last() =~= rows@.take(i as int));
        let hops = &rows[i].hops;
        let ghost base = gaps_of(edges@);
        let n: usize = hops.len();
        let mut k: usize = 0;
        while n > 0 && k < n - 1
            invariant
                n == hops@.len(),
                n == 0 ==> k == 0,
                n > 0 ==> k <= n - 1,
                gaps_of(edges@) == hop_gaps(base, hops@, k as int),
            decreases n - k,
        {
            let a = &hops[k];
            let b = &hops[k + 1];
            if b.enter_ns >= a.exit_ns {
                let from = text_before(a.label.as_str(), '#');
                let to = text_before(b.label.as_str(), '#');
                add_gap(&mut edges, from, to, b.enter_ns - a.exit_ns);
            }
            k = k + 1;
        }
        assert(hop_gaps(base, hops@, n - 1) == gaps_of(edges@));
        i = i + 1;
    }
    assert(rows@.take(i as int) =~= rows@);
    edges
}

proof fn lemma_with_edge(s: Seq<GapModel>, e: GapModel, at: int)
    requires
        0 <= at <= s.len(),
        at > 0 ==> !edge_less(e, s[at - 1]),
        forall|k: int| at <= k < s.len() ==> edge_less(e, #[trigger] s[k]),
    ensures
        with_edge(s, e) == s.insert(at, e),
    decreases s.len(),
{
    if at == s.len() {
        assert(s.insert(at, e) =~= s.push(e));
        if s.len() == 0 {
            assert(seq![e] =~= s.push(e));
        }
    } else {
        assert(edge_less(e, s[s.len() - 1]));
        let rest = s.drop_last();
        assert forall|k: int| at <= k < rest.len() implies edge_less(e, #[trigger] rest[k]) by {
            assert(rest[k] == s[k]);
        }
        lemma_with_edge(rest, e, at);
        assert(rest.insert(at, e).push(s.last()) =~= s.insert(at, e));
    }
}

fn order_edges(edges: Vec<EdgeGaps>) -> (out: Vec<EdgeGaps>)
    ensures
        gaps_of(out@) == by_ends(gaps_of(edges@)),
{
    let ghost all = edges@;
    let ghost m = gaps_of(all);
    let mut out: Vec<EdgeGaps> = Vec::new();
    assert(m.take(0) =~= Seq::<GapModel>::empty());
    assert(gaps_of(out@) =~= Seq::<GapModel>::empty());
    for e in it: edges
        invariant
            it.seq() == all,
            m == gaps_of(all),
            gaps_of(out@) == by_ends(m.take(it.index() as int)),
    {
        let ghost i = it.index() as int;
        assert(m.take(i + 1).drop_last() =~= m.take(i));
        let ghost x = (e.from@, e.to@, e.values@);
        assert(m[i] == x);
        let ghost s = gaps_of(out@);
        let mut at: usize = out.len();
        let mut go = true;
        while go && at > 0
            invariant
                at <= out@.len(),
                s == gaps_of(out@),
                x == (e.from@, e.to@, e.values@),
                forall|k: int| at <= k < s.len() ==> edge_less(x, #[trigger] s[k]),
                !go ==> at > 0 && !edge_less(x, s[at - 1]),
            decreases
                (if go {
                    at + 1
                } else {
                    0
                }),
        {
            let f = &out[at - 1];
            assert(s[at - 1] == (f.from@, f.to@, f.values@));
            if comes_before(e.from.as_str(), f.from.as_str()) || (e.from == f.from
                && comes_before(e.to.as_str(), f.to.as_str())) {
                at = at - 1;
            } else {
                go = false;
            }
        }
        proof {
            lemma_with_edge(s, x, at as int);
        }
        out.insert(at, e);
        assert(gaps_of(out@) =~= s.insert(at as int, x));
    }
    assert(m.take(m.len() as int) =~= m);
    out
}

fn edge_stats_out<'a>(e: &EdgeGaps) -> (j: JsonOut<'a>)
    ensures
        shows(j, edge_stats((e.from@, e.to@, e.values@))),
{
    let s = sorted(&e.values);
    let mut o = ObjectOut::new();
    o.put_text("from", e.from.as_str());
    o.put_text("to", e.to.as_str());
    o.put_count("count", s.len() as u64);
    put_ms(&mut o, "p50", pct(&s, 500));
    put_ms(&mut o, "p95", pct(&s, 950));
    put_ms(&mut o, "p99", pct(&s, 990));
    put_ms(&mut o, "p999", pct(&s, 999));
    put_ms(&mut o, "max", last_or_zero(&s));
    put_mean(&mut o, "mean", &s, 1_000_000);
    put_samples(&mut o, "samples", &s, 100_000, 1_000_000);
    o.done()
}

/// Reports the gaps between the stages.
pub fn build_inter_stage_block<'a>(rows: &Vec<EventRow>) -> (j: JsonOut<'a>)
    ensures
        shows(j, inter_stage_block(rows@)),
{
    let edges = order_edges(collect_gaps(rows));
    let ghost m = by_ends(row_gaps(rows@));
    let mut o = ObjectOut::new();
    let mut list = ArrayOut::new();
    if edges.len() == 0 {
        assert(m.len() == gaps_of(edges@).len());
        let none = list.done();
        o.put("edges", none, Ghost(JsonModel::Array(Seq::empty())));
        o.put_text("note", "single-stage pipeline or no multi-hop events observed");
        return o.done();
    }
    let ghost all = m.map_values(|e: GapModel| edge_stats(e));
    let mut i: usize = 0;
    assert(all.take(0) =~= Seq::<JsonModel>::empty());
    while i < edges.len()
        invariant
            i <= edges@.len(),
            m == gaps_of(edges@),
            all == m.map_values(|e: GapModel| edge_stats(e)),
            list.wf(),
            list.model@ == all.take(i as int),
        decreases edges@.len() - i,
    {
        let one = edge_stats_out(&edges[i]);
        assert(m[i as int] == (
            edges@[i as int].from@,
            edges@[i as int].to@,
            edges@[i as int].values@,
        ));
        list.push(one, Ghost(edge_stats(m[i as int])));
        assert(all.take(i + 1) =~= all.take(i as int).push(all[i as int]));
        i = i + 1;
    }
    assert(all.take(i as int) =~= all);
    let edges_json = list.done();
    o.put("edges", edges_json, Ghost(JsonModel::Array(all)));
    o.done()
}

/// How long the events waited before a stage took them.
pub open spec fn wait_stats(stage: Seq<char>, s: Seq<u64>) -> JsonModel {
    JsonModel::Object(
        seq![
            ("stage"@, JsonModel::Text(stage)),
            ("count"@, JsonModel::Count(s.len())),
            ("p50"@, ms(at_quantile(s, 500))),
            ("p95"@, ms(at_quantile(s, 950))),
            ("p99"@, ms(at_quantile(s, 990))),
            ("p999"@, ms(at_quantile(s, 999))),
            ("max"@, ms(greatest(s))),
            ("mean"@, mean_of(s, 1_000_000)),
        ],
    )
}

/// How long the events waited before the first stage took them.
pub open spec fn ingress_block(waits: Seq<u64>, stages: Seq<Seq<char>>) -> JsonModel {
    if waits.len() == 0 || stages.len() == 0 {
        JsonModel::Object(
            seq![
                ("stages"@, JsonModel::Array(Seq::empty())),
                ("note"@, JsonModel::Text("no ingress wait samples"@)),
            ],
        )
    } else {
        JsonModel::Object(
            seq![
                ("stages"@, JsonModel::Array(seq![wait_stats(stages[0], in_order(waits))])),
            ],
        )
    }
}

fn wait_stats_out<'a>(stage: &str, s: &Vec<u64>) -> (j: JsonOut<'a>)
    ensures
        shows(j, wait_stats(stage@, s@)),
{
    let mut one = ObjectOut::new();
    one.put_text("stage", stage);
    one.put_count("count", s.len() as u64);
    put_ms(&mut one, "p50", pct(s, 500));
    put_ms(&mut one, "p95", pct(s, 950));
    put_ms(&mut one, "p99", pct(s, 990));
    put_ms(&mut one, "p999", pct(s, 999));
    put_ms(&mut one, "max", last_or_zero(s));
    put_mean(&mut one, "mean", s, 1_000_000);
    one.done()
}

/// Reports how long the events waited before the first stage took them.
pub fn build_ingress_wait_block<'a>(waits: &Vec<u64>, stages: &Vec<String>) -> (j: JsonOut<'a>)
    ensures
        shows(j, ingress_block(waits@, owned_views(stages@))),
{
    let mut o = ObjectOut::new();
    let mut list = ArrayOut::new();
    if waits.len() == 0 || stages.len() == 0 {
        let none = list.done();
        o.put("stages", none, Ghost(JsonModel::Array(Seq::empty())));
        o.put_text("note", "no ingress wait samples");
        return o.done();
    }
    let s = sorted(waits);
    assert(owned_views(stages@)[0] == stages@[0]@);
    let entry = wait_stats_out(stages[0].as_str(), &s);
    list.push(entry, Ghost(wait_stats(stages@[0]@, s@)));
    let ghost lm = list.model@;
    assert(lm == seq![wait_stats(stages@[0]@, s@)]);
    let stages_json = list.done();
    o.put("stages", stages_json, Ghost(JsonModel::Array(lm)));
    o.done()
}

/// An event put in its place: behind all that came no later.
pub open spec fn with_row(s: Seq<EventRow>, r: EventRow) -> Seq<EventRow>
    decreases s.len(),
{
    if s.len() == 0 {
        seq![r]
    } else if s.last().recv_ns <= r.recv_ns {
        s.push(r)
    } else {
        with_row(s.drop_last(), r).push(s.last())
    }
}

/// The events in the order they came; those of the same time stay in order.
pub open spec fn by_time(rows: Seq<EventRow>) -> Seq<EventRow>
    decreases rows.len(),
{
    if rows.len() == 0 {
        Seq::empty()
    } else {
        with_row(by_time(rows.drop_last()), rows.last())
    }
}

/// Some events, without the references to them.
pub open spec fn rows_of(rows: Seq<&EventRow>) -> Seq<EventRow> {
    rows.map_values(|r: &EventRow| *r)
}

/// No event comes before one of an earlier time.
pub open spec fn is_by_time(rows: Seq<EventRow>) -> bool {
    forall|i: int, j: int| 0 <= i <= j < rows.len() ==> rows[i].recv_ns <= rows[j].recv_ns
}

/// The events of one time, in the order they stand in.
pub open spec fn at_time(rows: Seq<EventRow>, t: i64) -> Seq<EventRow>
    decreases rows.len(),
{
    if rows.len() == 0 {
        Seq::empty()
    } else if rows.last().recv_ns == t {
        at_time(rows.drop_last(), t).push(rows.last())
    } else {
        at_time(rows.drop_last(), t)
    }
}

/// `<[T]>::sort_by_key` on the time of arrival: a stable sort. The events come
/// out in ascending order of their time, and those of one time are the same as
/// before and keep their order.
#[verifier::external_body]
fn sort_by_arrival<'a>(rows: Vec<&'a EventRow>) -> (out: Vec<&'a EventRow>)
    ensures
        is_by_time(rows_of(out@)),
        forall|t: i64| #[trigger] at_time(rows_of(out@), t) == at_time(rows_of(rows@), t),
{
    let mut out = rows;
    out.sort_by_key(|r| r.recv_ns);
    out
}

proof fn lemma_at_time_push(rows: Seq<EventRow>, r: EventRow, t: i64)
    ensures
        at_time(rows.push(r), t) == if r.recv_ns == t {
            at_time(rows, t).push(r)
        } else {
            at_time(rows, t)
        },
{
    assert(rows.push(r).drop_last() =~= rows);
}

/// What is held of one time is somewhere among the events.
proof fn lemma_at_time_held(rows: Seq<EventRow>, t: i64)
    requires
        at_time(rows, t).len() > 0,
    ensures
        exists|i: int| 0 <= i < rows.len() && (#[trigger] rows[i]).recv_ns == t,
    decreases rows.len(),
{
    if rows.last().recv_ns == t {
        assert(rows[rows.len() - 1].recv_ns == t);
    } else {
        lemma_at_time_held(rows.drop_last(), t);
        let i = choose|i: int|
            0 <= i < rows.drop_last().len() && (#[trigger] rows.drop_last()[i]).recv_ns == t;
        assert(rows[i].recv_ns == t);
    }
}

proof fn lemma_with_row(s: Seq<EventRow>, r: EventRow)
    requires
        is_by_time(s),
    ensures
        is_by_time(with_row(s, r)),
        with_row(s, r).len() == s.len() + 1,
        with_row(s, r).last().recv_ns == r.recv_ns || s.len() > 0 && with_row(s, r).last()
            == s.last() && r.recv_ns < s.last().recv_ns,
        forall|t: i64| #[trigger] at_time(with_row(s, r), t) == at_time(s.push(r), t),
    decreases s.len(),
{
    let out = with_row(s, r);
    if s.len() == 0 {
        assert(out =~= s.push(r));
    } else if s.last().recv_ns > r.recv_ns {
        let d = s.drop_last();
        lemma_with_row(d, r);
        let inner = with_row(d, r);
        assert forall|i: int, j: int| 0 <= i <= j < out.len() implies out[i].recv_ns
            <= out[j].recv_ns by {
            if j == inner.len() && i < j {
                assert(inner[i].recv_ns <= inner[inner.len() - 1].recv_ns);
                if d.len() > 0 {
                    assert(s[d.len() - 1].recv_ns <= s[s.len() - 1].recv_ns);
                }
            }
        }
        assert forall|t: i64| #[trigger] at_time(out, t) == at_time(s.push(r), t) by {
            lemma_at_time_push(inner, s.last(), t);
            lemma_at_time_push(d, r, t);
            lemma_at_time_push(s, r, t);
            assert(at_time(inner, t) == at_time(d.push(r), t));
        }
    } else {
        assert forall|i: int, j: int| 0 <= i <= j < out.len() implies out[i].recv_ns
            <= out[j].recv_ns by {
            if j == s.len() && i < j {
                assert(s[i].recv_ns <= s[s.len() - 1].recv_ns);
            }
        }
    }
}

/// Law: the events by time are those that there were, in ascending order of their
/// time, and those of one time keep their order.
pub proof fn law_by_time_is_stable(rows: Seq<EventRow>)
    ensures
        by_time(rows).len() == rows.len(),
        is_by_time(by_time(rows)),
        forall|t: i64| #[trigger] at_time(by_time(rows), t) == at_time(rows, t),
    decreases rows.len(),
{
    if rows.len() > 0 {
        let d = rows.drop_last();
        law_by_time_is_stable(d);
        lemma_with_row(by_time(d), rows.last());
        assert(d.push(rows.last()) =~= rows);
        assert forall|t: i64| #[trigger] at_time(by_time(rows), t) == at_time(rows, t) by {
            lemma_at_time_push(by_time(d), rows.last(), t);
            lemma_at_time_push(d, rows.last(), t);
            assert(at_time(by_time(d), t) == at_time(d, t));
            assert(at_time(by_time(rows), t) == at_time(by_time(d).push(rows.last()), t));
        }
    }
}

/// There is one stable order.
proof fn lemma_one_order(a: Seq<EventRow>, b: Seq<EventRow>)
    requires
        is_by_time(a),
        is_by_time(b),
        forall|t: i64| #[trigger] at_time(a, t) == at_time(b, t),
    ensures
        a == b,
    decreases a.len(),
{
    if a.len() == 0 {
        if b.len() > 0 {
            assert(at_time(a, b.last().recv_ns) == at_time(b, b.last().recv_ns));
        }
        assert(a =~= b);
    } else {
        let k = a.last().recv_ns;
        assert(at_time(a, k) == at_time(b, k));
        lemma_at_time_held(b, k);
        assert(b.len() > 0);
        let m = b.last().recv_ns;
        assert(at_time(a, m) == at_time(b, m));
        lemma_at_time_held(a, m);
        let i = choose|i: int| 0 <= i < b.len() && (#[trigger] b[i]).recv_ns == k;
        let j = choose|j: int| 0 <= j < a.len() && (#[trigger] a[j]).recv_ns == m;
        assert(b[i].recv_ns <= b[b.len() - 1].recv_ns);
        assert(a[j].recv_ns <= a[a.len() - 1].recv_ns);
        assert(at_time(a, k).last() == a.last());
        assert(at_time(b, k).last() == b.last());
        let (da, db) = (a.drop_last(), b.drop_last());
        assert forall|t: i64| #[trigger] at_time(da, t) == at_time(db, t) by {
            assert(at_time(a, t) == at_time(b, t));
            if t == k {
                assert(at_time(da, t) =~= at_time(a, t).drop_last());
                assert(at_time(db, t) =~= at_time(b, t).drop_last());
            }
        }
        lemma_one_order(da, db);
        assert(a =~= da.push(a.last()));
        assert(b =~= db.push(b.last()));
    }
}

/// Puts events in the order they came.
fn sort_rows<'a>(rows: Vec<&'a EventRow>) -> (out: Vec<&'a EventRow>)
    ensures
        rows_of(out@) == by_time(rows_of(rows@)),
{
    let ghost given = rows_of(rows@);
    let out = sort_by_arrival(rows);
    proof {
        law_by_time_is_stable(given);
        assert forall|t: i64| #[trigger] at_time(rows_of(out@), t) == at_time(by_time(given), t) by {
            assert(at_time(by_time(given), t) == at_time(given, t));
        }
        lemma_one_order(rows_of(out@), by_time(given));
    }
    out
}

/// A time from the start of the run, to the microsecond.
pub open spec fn recv_json(ns: i64) -> JsonModel {
    if ns >= 0 {
        JsonModel::Ratio(nearest(ns as nat, 1000), 1_000_000)
    } else {
        JsonModel::Minus(nearest((-ns) as nat, 1000), 1_000_000)
    }
}

/// A hop of an event: where, and from when to when.
pub open spec fn hop_row(h: HopTime) -> JsonModel {
    JsonModel::Array(
        seq![
            JsonModel::Text(h.label@),
            JsonModel::Ratio(h.enter_ns as nat, 1_000_000_000),
            JsonModel::Ratio(h.exit_ns as nat, 1_000_000_000),
        ],
    )
}

/// An event: when it came, how long it took, and its hops.
pub open spec fn event_row(r: EventRow) -> JsonModel {
    JsonModel::Array(
        seq![
            recv_json(r.recv_ns),
            JsonModel::Ratio(nearest(r.e2e_ns as nat, 100), 10_000),
            JsonModel::Array(r.hops@.map_values(|h: HopTime| hop_row(h))),
        ],
    )
}

fn event_row_out<'a>(r: &EventRow) -> (j: JsonOut<'a>)
    ensures
        shows(j, event_row(*r)),
{
    let ghost all = r.hops@.map_values(|h: HopTime| hop_row(h));
    let mut hops = ArrayOut::new();
    let mut i: usize = 0;
    assert(all.take(0) =~= Seq::<JsonModel>::empty());
    while i < r.hops.len()
        invariant
            i <= r.hops@.len(),
            all == r.hops@.map_values(|h: HopTime| hop_row(h)),
            hops.wf(),
            hops.model@ == all.take(i as int),
        decreases r.hops@.len() - i,
    {
        let h = &r.hops[i];
        let mut one = ArrayOut::new();
        one.push_text(h.label.as_str());
        one.push_ratio(h.enter_ns as u128, 1_000_000_000);
        one.push_ratio(h.exit_ns as u128, 1_000_000_000);
        let item = one.done();
        hops.push(item, Ghost(hop_row(*h)));
        assert(all.take(i + 1) =~= all.take(i as int).push(all[i as int]));
        i = i + 1;
    }
    assert(all.take(i as int) =~= all);
    let mut row = ArrayOut::new();
    if r.recv_ns >= 0 {
        let at: u128 = round_half_up(r.recv_ns as u128, 1000);
        row.push_ratio(at, 1_000_000);
    } else {
        let back: u128 = (-(r.recv_ns as i128)) as u128;
        let at: u128 = round_half_up(back, 1000);
        row.push(
            JsonOut::Minus(at, 1_000_000),
            Ghost(JsonModel::Minus(at as nat, 1_000_000)),
        );
    }
    let lat: u128 = round_half_up(r.e2e_ns as u128, 100);
    row.push_ratio(lat, 10_000);
    let hops_json = hops.done();
    row.push(hops_json, Ghost(JsonModel::Array(all)));
    row.done()
}

/// The most events that the report has whole.
pub const EVENTS_SAMPLE_CAP: usize = 100_000;

/// The events that were kept whole.
pub open spec fn events_block(rows: Seq<EventRow>) -> JsonModel {
    JsonModel::Object(
        seq![
            ("count"@, JsonModel::Count(rows.len())),
            (
                "subsample_rate"@,
                JsonModel::Count(thinning(rows.len(), EVENTS_SAMPLE_CAP as nat)),
            ),
            (
                "rows"@,
                JsonModel::Array(
                    thinned(by_time(rows), EVENTS_SAMPLE_CAP as nat).map_values(
                        |r: EventRow| event_row(r),
                    ),
                ),
            ),
        ],
    )
}

pub(crate) fn events_out<'a>(rows: &Vec<EventRow>) -> (j: JsonOut<'a>)
    ensures
        shows(j, events_block(rows@)),
{
    let mut refs: Vec<&EventRow> = Vec::new();
    let mut i: usize = 0;
    while i < rows.len()
        invariant
            i <= rows@.len(),
            rows_of(refs@) == rows@.take(i as int),
        decreases rows@.len() - i,
    {
        let ghost was = refs@;
        refs.push(&rows[i]);
        assert(rows_of(refs@) =~= rows_of(was).push(rows@[i as int]));
        assert(rows@.take(i + 1) =~= rows@.take(i as int).push(rows@[i as int]));
        i = i + 1;
    }
    assert(rows@.take(i as int) =~= rows@);
    let ordered = sort_rows(refs);
    let ghost s = by_time(rows@);
    proof {
        law_by_time_is_stable(rows@);
    }
    let n: usize = ordered.len();
    assert(n == rows_of(ordered@).len());
    let k: usize = subsample_rate(n, EVENTS_SAMPLE_CAP);
    let ghost few = thinned(s, EVENTS_SAMPLE_CAP as nat);
    let ghost all = few.map_values(|r: EventRow| event_row(r));
    let mut list = ArrayOut::new();
    let mut at: usize = 0;
    let mut done = n == 0;
    proof {
        crate::stats::lemma_steps(n as int, k as int, 0);
        assert(0int * k == 0);
        assert(all.take(0) =~= Seq::<JsonModel>::empty());
    }
    let ghost mut count: int = 0;
    while !done
        invariant
            n == ordered@.len(),
            s == rows_of(ordered@),
            k == thinning(n as nat, EVENTS_SAMPLE_CAP as nat),
            k >= 1,
            few == thinned(s, EVENTS_SAMPLE_CAP as nat),
            all == few.map_values(|r: EventRow| event_row(r)),
            0 <= count <= few.len(),
            list.wf(),
            list.model@ == all.take(count),
            done ==> count == few.len(),
            !done ==> at == count * k && at < n && count < few.len(),
        decreases
            (if done {
                0int
            } else {
                n - at
            }),
    {
        assert(few[count] == s[count * k]);
        assert(s[at as int] == *ordered@[at as int]);
        let row = event_row_out(ordered[at]);
        list.push(row, Ghost(event_row(few[count])));
        proof {
            assert(all.take(count + 1) =~= all.take(count).push(all[count]));
            crate::stats::lemma_steps(n as int, k as int, count + 1);
            assert((count + 1) * k == count * k + k) by (nonlinear_arith);
            count = count + 1;
        }
        if n - at <= k {
            done = true;
        } else {
            at = at + k;
        }
    }
    assert(all.take(count) =~= all);
    let mut o = ObjectOut::new();
    o.put_count("count", rows.len() as u64);
    o.put_count("subsample_rate", k as u64);
    let rows_json = list.done();
    o.put("rows", rows_json, Ghost(JsonModel::Array(all)));
    o.done()
}

/// The processor and memory use of the agent.
pub open spec fn resources_block(samples: Seq<ResourceSample>) -> JsonModel {
    JsonModel::Object(
        seq![
            ("cpu_pct_unit"@, JsonModel::Text("percent_of_available_cpus"@)),
            (
                "cpu_pct_samples"@,
                JsonModel::Array(
                    samples.map_values(
                        |s: ResourceSample|
                            JsonModel::Array(
                                seq![
                                    seconds_r3(s.t_ns),
                                    JsonModel::Ratio(s.cpu_centi as nat, 100),
                                ],
                            ),
                    ),
                ),
            ),
            (
                "rss_mb_samples"@,
                JsonModel::Array(
                    samples.map_values(
                        |s: ResourceSample|
                            JsonModel::Array(
                                seq![
                                    seconds_r3(s.t_ns),
                                    JsonModel::Count((s.rss_bytes as nat / 1024) / 1024),
                                ],
                            ),
                    ),
                ),
            ),
            ("sample_count"@, JsonModel::Count(samples.len())),
        ],
    )
}

pub(crate) fn resources_out<'a>(samples: &Vec<ResourceSample>) -> (j: JsonOut<'a>)
    ensures
        shows(j, resources_block(samples@)),
{
    let ghost cpu_all = samples@.map_values(
        |s: ResourceSample|
            JsonModel::Array(
                seq![seconds_r3(s.t_ns), JsonModel::Ratio(s.cpu_centi as nat, 100)],
            ),
    );
    let ghost rss_all = samples@.map_values(
        |s: ResourceSample|
            JsonModel::Array(
                seq![
                    seconds_r3(s.t_ns),
                    JsonModel::Count((s.rss_bytes as nat / 1024) / 1024),
                ],
            ),
    );
    let mut cpu = ArrayOut::new();
    let mut rss = ArrayOut::new();
    let mut i: usize = 0;
    assert(cpu_all.take(0) =~= Seq::<JsonModel>::empty());
    assert(rss_all.take(0) =~= Seq::<JsonModel>::empty());
    while i < samples.len()
        invariant
            i <= samples@.len(),
            cpu_all.len() == samples@.len(),
            rss_all.len() == samples@.len(),
            forall|k: int|
                0 <= k < samples@.len() ==> #[trigger] cpu_all[k] == JsonModel::Array(
                    seq![
                        seconds_r3(samples@[k].t_ns),
                        JsonModel::Ratio(samples@[k].cpu_centi as nat, 100),
                    ],
                ),
            forall|k: int|
                0 <= k < samples@.len() ==> #[trigger] rss_all[k] == JsonModel::Array(
                    seq![
                        seconds_r3(samples@[k].t_ns),
                        JsonModel::Count((samples@[k].rss_bytes as nat / 1024) / 1024),
                    ],
                ),
            cpu.wf(),
            cpu.model@ == cpu_all.take(i as int),
            rss.wf(),
            rss.model@ == rss_all.take(i as int),
        decreases samples@.len() - i,
    {
        let s = samples[i];
        let t: u128 = round_half_up(s.t_ns as u128, 1_000_000);
        let mut a = ArrayOut::new();
        a.push_ratio(t, 1000);
        a.push_ratio(s.cpu_centi as u128, 100);
        let a_json = a.done();
        cpu.push(a_json, Ghost(cpu_all[i as int]));
        let mut b = ArrayOut::new();
        b.push_ratio(t, 1000);
        b.push_count(s.rss_bytes / 1024 / 1024);
        let b_json = b.done();
        rss.push(b_json, Ghost(rss_all[i as int]));
        assert(cpu_all.take(i + 1) =~= cpu_all.take(i as int).push(cpu_all[i as int]));
        assert(rss_all.take(i + 1) =~= rss_all.take(i as int).push(rss_all[i as int]));
        i = i + 1;
    }
    assert(cpu_all.take(i as int) =~= cpu_all);
    assert(rss_all.take(i as int) =~= rss_all);
    let mut o = ObjectOut::new();
    o.put_text("cpu_pct_unit", "percent_of_available_cpus");
    let cpu_json = cpu.done();
    o.put("cpu_pct_samples", cpu_json, Ghost(JsonModel::Array(cpu_all)));
    let rss_json = rss.done();
    o.put("rss_mb_samples", rss_json, Ghost(JsonModel::Array(rss_all)));
    o.put_count("sample_count", samples.len() as u64);
    o.done()
}

/// The changes of one stage.
pub open spec fn changes_of(events: Seq<ScalingEvent>, stage: Seq<char>) -> Seq<ScalingEvent>
    decreases events.len(),
{
    if events.len() == 0 {
        Seq::empty()
    } else if events.last().stage@ == stage {
        changes_of(events.drop_last(), stage).push(events.last())
    } else {
        changes_of(events.drop_last(), stage)
    }
}

/// How many changes were of a kind.
pub open spec fn count_actions(events: Seq<ScalingEvent>, a: Seq<char>, b: Seq<char>) -> nat
    decreases events.len(),
{
    if events.len() == 0 {
        0
    } else {
        count_actions(events.drop_last(), a, b) + if events.last().action@ == a
            || events.last().action@ == b {
            1nat
        } else {
            0nat
        }
    }
}

/// A time that may be missing, in milliseconds.
pub open spec fn opt_ms(v: Option<u64>) -> JsonModel {
    match v {
        None => JsonModel::Null,
        Some(ns) => ms(ns),
    }
}

/// One change, whole.
pub open spec fn change_json(e: ScalingEvent) -> JsonModel {
    JsonModel::Object(
        seq![
            ("t_s"@, JsonModel::Ratio(e.t_ns as nat, 1_000_000_000)),
            ("stage"@, JsonModel::Text(e.stage@)),
            ("action"@, JsonModel::Text(e.action@)),
            ("new_count"@, JsonModel::Count(e.new_count as nat)),
            ("cold_start_ms"@, opt_ms(e.cold_start_ns)),
            ("compile_ms"@, opt_ms(e.compile_ns)),
            ("instantiate_pre_ms"@, opt_ms(e.instantiate_pre_ns)),
        ],
    )
}

/// The times that are there.
pub open spec fn times_there(times: Seq<Option<u64>>) -> Seq<u64>
    decreases times.len(),
{
    if times.len() == 0 {
        Seq::empty()
    } else {
        match times.last() {
            None => times_there(times.drop_last()),
            Some(t) => times_there(times.drop_last()).push(t),
        }
    }
}

/// How many replicas a stage had, from none at the start on.
pub open spec fn replica_steps(events: Seq<ScalingEvent>) -> Seq<JsonModel> {
    seq![JsonModel::Array(seq![JsonModel::Ratio(0, 1000), JsonModel::Count(0)])]
        + events.map_values(
        |e: ScalingEvent|
            JsonModel::Array(seq![seconds_r3(e.t_ns), JsonModel::Count(e.new_count as nat)]),
    )
}

/// How one stage scaled.
pub open spec fn stage_scaling(events: Seq<ScalingEvent>) -> JsonModel {
    JsonModel::Object(
        seq![
            ("replicas_over_time"@, JsonModel::Array(replica_steps(events))),
            (
                "scale_up_count"@,
                JsonModel::Count(count_actions(events, "spawn"@, "cold_start"@)),
            ),
            ("scale_down_count"@, JsonModel::Count(count_actions(events, "drain"@, "drain"@))),
            (
                "cold_start_count"@,
                JsonModel::Count(count_actions(events, "cold_start"@, "cold_start"@)),
            ),
            (
                "cold_start_ms"@,
                ratios(
                    times_there(events.map_values(|e: ScalingEvent| e.cold_start_ns)),
                    1_000_000,
                ),
            ),
            (
                "compile_ms"@,
                ratios(
                    times_there(events.map_values(|e: ScalingEvent| e.compile_ns)),
                    1_000_000,
                ),
            ),
            (
                "instantiate_pre_ms"@,
                ratios(
                    times_there(events.map_values(|e: ScalingEvent| e.instantiate_pre_ns)),
                    1_000_000,
                ),
            ),
            (
                "events"@,
                JsonModel::Array(events.map_values(|e: ScalingEvent| change_json(e))),
            ),
        ],
    )
}

/// How the stages scaled.
pub open spec fn scaling_block(events: Seq<ScalingEvent>, stages: Seq<Seq<char>>) -> JsonModel {
    JsonModel::Object(
        seq![
            (
                "per_stage"@,
                JsonModel::Object(
                    stages.map_values(|n: Seq<char>| (n, stage_scaling(changes_of(events, n)))),
                ),
            ),
            ("total_events"@, JsonModel::Count(events.len())),
        ],
    )
}

/// Some changes, without the references to them.
pub open spec fn changes(v: Seq<&ScalingEvent>) -> Seq<ScalingEvent> {
    v.map_values(|e: &ScalingEvent| *e)
}

fn put_opt_ms<'a>(o: &mut ObjectOut<'a>, name: &str, v: Option<u64>)
    requires
        old(o).wf(),
    ensures
        final(o).wf(),
        final(o).model@ == old(o).model@.push((name@, opt_ms(v))),
{
    match v {
        None => o.put(name, JsonOut::Null, Ghost(JsonModel::Null)),
        Some(ns) => put_ms(o, name, ns),
    }
}

fn change_out<'a>(e: &ScalingEvent) -> (j: JsonOut<'a>)
    ensures
        shows(j, change_json(*e)),
{
    let mut o = ObjectOut::new();
    o.put_ratio("t_s", e.t_ns as u128, 1_000_000_000);
    o.put_text("stage", e.stage.as_str());
    o.put_text("action", e.action.as_str());
    o.put_count("new_count", e.new_count as u64);
    put_opt_ms(&mut o, "cold_start_ms", e.cold_start_ns);
    put_opt_ms(&mut o, "compile_ms", e.compile_ns);
    put_opt_ms(&mut o, "instantiate_pre_ms", e.instantiate_pre_ns);
    o.done()
}

fn stage_changes<'e>(events: &'e Vec<ScalingEvent>, stage: &str) -> (out: Vec<&'e ScalingEvent>)
    ensures
        changes(out@) == changes_of(events@, stage@),
{
    let mut out: Vec<&ScalingEvent> = Vec::new();
    let mut i: usize = 0;
    assert(events@.take(0) =~= Seq::<ScalingEvent>::empty());
    assert(changes(out@) =~= Seq::<ScalingEvent>::empty());
    while i < events.len()
        invariant
            i <= events@.len(),
            changes(out@) == changes_of(events@.take(i as int), stage@),
        decreases events@.len() - i,
    {
        assert(events@.take(i + 1).drop_last() =~= events@.take(i as int));
        if same(events[i].stage.as_str(), stage) {
            let ghost was = out@;
            out.push(&events[i]);
            assert(changes(out@) =~= changes(was).push(events@[i as int]));
        }
        i = i + 1;
    }
    assert(events@.take(i as int) =~= events@);
    out
}

fn tally(events: &Vec<&ScalingEvent>, a: &str, b: &str) -> (n: u64)
    ensures
        n == count_actions(changes(events@), a@, b@),
{
    let ghost all = changes(events@);
    let mut n: u64 = 0;
    let mut i: usize = 0;
    assert(all.take(0) =~= Seq::<ScalingEvent>::empty());
    while i < events.len()
        invariant
            i <= events@.len(),
            all == changes(events@),
            n == count_actions(all.take(i as int), a@, b@),
            n <= i,
        decreases events@.len() - i,
    {
        assert(all.take(i + 1).drop_last() =~= all.take(i as int));
        assert(all[i as int] == *events@[i as int]);
        if same(events[i].action.as_str(), a) || same(events[i].action.as_str(), b) {
            n = n + 1;
        }
        i = i + 1;
    }
    assert(all.take(i as int) =~= all);
    n
}

/// Which of a change's times is meant.
#[derive(Clone, Copy, Debug, PartialEq, Eq, Structural)]
pub enum ChangeTime {
    ColdStart,
    Compile,
    InstantiatePre,
}

pub open spec fn time_of(e: ScalingEvent, which: ChangeTime) -> Option<u64> {
    match which {
        ChangeTime::ColdStart => e.cold_start_ns,
        ChangeTime::Compile => e.compile_ns,
        ChangeTime::InstantiatePre => e.instantiate_pre_ns,
    }
}

fn times<'a>(events: &Vec<&ScalingEvent>, which: ChangeTime) -> (j: JsonOut<'a>)
    ensures
        shows(
            j,
            ratios(
                times_there(
                    changes(events@).map_values(|e: ScalingEvent| time_of(e, which)),
                ),
                1_000_000,
            ),
        ),
{
    let ghost all = changes(events@).map_values(|e: ScalingEvent| time_of(e, which));
    let mut out: Vec<u64> = Vec::new();
    let mut i: usize = 0;
    assert(all.take(0) =~= Seq::<Option<u64>>::empty());
    while i < events.len()
        invariant
            i <= events@.len(),
            all == changes(events@).map_values(|e: ScalingEvent| time_of(e, which)),
            out@ == times_there(all.take(i as int)),
        decreases events@.len() - i,
    {
        assert(all.take(i + 1).drop_last() =~= all.take(i as int));
        assert(all[i as int] == time_of(*events@[i as int], which));
        let e = events[i];
        let t = match which {
            ChangeTime::ColdStart => e.cold_start_ns,
            ChangeTime::Compile => e.compile_ns,
            ChangeTime::InstantiatePre => e.instantiate_pre_ns,
        };
        match t {
            None => {},
            Some(v) => {
                out.push(v);
            },
        }
        i = i + 1;
    }
    assert(all.take(i as int) =~= all);
    ratio_list(&out, 1_000_000)
}

fn stage_scaling_out<'a>(events: &Vec<&ScalingEvent>) -> (j: JsonOut<'a>)
    ensures
        shows(j, stage_scaling(changes(events@))),
{
    let ghost all = changes(events@);
    let ghost steps = replica_steps(all);
    let ghost whole = all.map_values(|e: ScalingEvent| change_json(e));
    let mut over = ArrayOut::new();
    let mut zero = ArrayOut::new();
    zero.push_ratio(0, 1000);
    zero.push_count(0);
    let ghost zm = zero.model@;
    let zero_json = zero.done();
    over.push(zero_json, Ghost(JsonModel::Array(zm)));
    assert(zm == seq![JsonModel::Ratio(0, 1000), JsonModel::Count(0)]);
    let mut list = ArrayOut::new();
    let mut i: usize = 0;
    assert(over.model@ =~= steps.take(1));
    assert(whole.take(0) =~= Seq::<JsonModel>::empty());
    while i < events.len()
        invariant
            i <= events@.len(),
            all == changes(events@),
            steps == replica_steps(all),
            whole == all.map_values(|e: ScalingEvent| change_json(e)),
            over.wf(),
            over.model@ == steps.take(i + 1),
            list.wf(),
            list.model@ == whole.take(i as int),
        decreases events@.len() - i,
    {
        let e = events[i];
        assert(all[i as int] == *e);
        let t: u128 = round_half_up(e.t_ns as u128, 1_000_000);
        let mut step = ArrayOut::new();
        step.push_ratio(t, 1000);
        step.push_count(e.new_count as u64);
        let ghost sm = step.model@;
        assert(sm == seq![seconds_r3(e.t_ns), JsonModel::Count(e.new_count as nat)]);
        let step_json = step.done();
        over.push(step_json, Ghost(JsonModel::Array(sm)));
        assert(steps[i + 1] == JsonModel::Array(sm));
        assert(steps.take(i + 2) =~= steps.take(i + 1).push(steps[i + 1]));
        let one = change_out(e);
        list.push(one, Ghost(change_json(*e)));
        assert(whole.take(i + 1) =~= whole.take(i as int).push(whole[i as int]));
        i = i + 1;
    }
    assert(steps.take(i + 1) =~= steps);
    assert(whole.take(i as int) =~= whole);
    let mut o = ObjectOut::new();
    let over_json = over.done();
    o.put("replicas_over_time", over_json, Ghost(JsonModel::Array(steps)));
    o.put_count("scale_up_count", tally(events, "spawn", "cold_start"));
    o.put_count("scale_down_count", tally(events, "drain", "drain"));
    o.put_count("cold_start_count", tally(events, "cold_start", "cold_start"));
    let cold = times(events, ChangeTime::ColdStart);
    let ghost a = all.map_values(|e: ScalingEvent| time_of(e, ChangeTime::ColdStart));
    assert(a =~= all.map_values(|e: ScalingEvent| e.cold_start_ns));
    o.put("cold_start_ms", cold, Ghost(ratios(times_there(a), 1_000_000)));
    let compile = times(events, ChangeTime::Compile);
    let ghost b = all.map_values(|e: ScalingEvent| time_of(e, ChangeTime::Compile));
    assert(b =~= all.map_values(|e: ScalingEvent| e.compile_ns));
    o.put("compile_ms", compile, Ghost(ratios(times_there(b), 1_000_000)));
    let inst = times(events, ChangeTime::InstantiatePre);
    let ghost c = all.map_values(|e: ScalingEvent| time_of(e, ChangeTime::InstantiatePre));
    assert(c =~= all.map_values(|e: ScalingEvent| e.instantiate_pre_ns));
    o.put("instantiate_pre_ms", inst, Ghost(ratios(times_there(c), 1_000_000)));
    let list_json = list.done();
    o.put("events", list_json, Ghost(JsonModel::Array(whole)));
    o.done()
}

/// Reports how the stages scaled.
pub fn build_scaling_block<'a>(events: &Vec<ScalingEvent>, stages: &Vec<String>) -> (j: JsonOut<
    'a,
>)
    ensures
        shows(j, scaling_block(events@, owned_views(stages@))),
{
    let ghost names = owned_views(stages@);
    let ghost all = names.map_values(
        |n: Seq<char>| (n, stage_scaling(changes_of(events@, n))),
    );
    let mut per = ObjectOut::new();
    let mut i: usize = 0;
    assert(all.take(0) =~= Seq::<(Seq<char>, JsonModel)>::empty());
    while i < stages.len()
        invariant
            i <= stages@.len(),
            names == owned_views(stages@),
            all == names.map_values(|n: Seq<char>| (n, stage_scaling(changes_of(events@, n)))),
            per.wf(),
            per.model@ == all.take(i as int),
        decreases stages@.len() - i,
    {
        let name = &stages[i];
        assert(names[i as int] == name@);
        let mine = stage_changes(events, name.as_str());
        let one = stage_scaling_out(&mine);
        per.put(name.as_str(), one, Ghost(stage_scaling(changes_of(events@, name@))));
        assert(all.take(i + 1) =~= all.take(i as int).push(all[i as int]));
        i = i + 1;
    }
    assert(all.take(i as int) =~= all);
    let mut o = ObjectOut::new();
    let per_json = per.done();
    o.put("per_stage", per_json, Ghost(JsonModel::Object(all)));
    o.put_count("total_events", events.len() as u64);
    o.done()
}

/// The depths of one stage's queue.
pub open spec fn depths(samples: Seq<(u64, u64)>) -> JsonModel {
    JsonModel::Array(
        samples.map_values(
            |s: (u64, u64)|
                JsonModel::Array(
                    seq![
                        JsonModel::Ratio(s.0 as nat, 1_000_000_000),
                        JsonModel::Count(s.1 as nat),
                    ],
                ),
        ),
    )
}

/// The depths of the stages' queues.
pub open spec fn queue_block(series: Seq<DepthSeries>) -> JsonModel {
    JsonModel::Object(series.map_values(|d: DepthSeries| (d.stage@, depths(d.samples@))))
}

fn depths_out<'a>(samples: &Vec<(u64, u64)>) -> (j: JsonOut<'a>)
    ensures
        shows(j, depths(samples@)),
{
    let ghost all = depths(samples@)->Array_0;
    let mut list = ArrayOut::new();
    let mut i: usize = 0;
    assert(all.take(0) =~= Seq::<JsonModel>::empty());
    while i < samples.len()
        invariant
            i <= samples@.len(),
            all == depths(samples@)->Array_0,
            list.wf(),
            list.model@ == all.take(i as int),
        decreases samples@.len() - i,
    {
        let s = samples[i];
        let mut one = ArrayOut::new();
        one.push_ratio(s.0 as u128, 1_000_000_000);
        one.push_count(s.1);
        let ghost om = one.model@;
        assert(om == seq![
            JsonModel::Ratio(samples@[i as int].0 as nat, 1_000_000_000),
            JsonModel::Count(samples@[i as int].1 as nat),
        ]);
        let item = one.done();
        list.push(item, Ghost(JsonModel::Array(om)));
        assert(all[i as int] == JsonModel::Array(om));
        assert(all.take(i + 1) =~= all.take(i as int).push(all[i as int]));
        i = i + 1;
    }
    assert(all.take(i as int) =~= all);
    list.done()
}

pub(crate) fn queue_out<'a>(series: &Vec<DepthSeries>) -> (j: JsonOut<'a>)
    ensures
        shows(j, queue_block(series@)),
{
    let ghost all = series@.map_values(|d: DepthSeries| (d.stage@, depths(d.samples@)));
    let mut o = ObjectOut::new();
    let mut i: usize = 0;
    assert(all.take(0) =~= Seq::<(Seq<char>, JsonModel)>::empty());
    while i < series.len()
        invariant
            i <= series@.len(),
            all == series@.map_values(|d: DepthSeries| (d.stage@, depths(d.samples@))),
            o.wf(),
            o.model@ == all.take(i as int),
        decreases series@.len() - i,
    {
        let d = &series[i];
        let one = depths_out(&d.samples);
        o.put(d.stage.as_str(), one, Ghost(depths(d.samples@)));
        assert(all.take(i + 1) =~= all.take(i as int).push(all[i as int]));
        i = i + 1;
    }
    assert(all.take(i as int) =~= all);
    o.done()
}

/// What is measured under a name.
pub open spec fn values_named(m: SeriesModel, name: Seq<char>) -> Seq<u64> {
    if exists|i: int| is_series_at(m, name, i) {
        m[choose|i: int| is_series_at(m, name, i)].1
    } else {
        Seq::empty()
    }
}

/// Something is measured under a name.
pub open spec fn is_measured(m: SeriesModel, name: Seq<char>) -> bool {
    exists|i: int| is_series_at(m, name, i)
}

/// Names with one more, unless it is there.
pub open spec fn with_name(names: Seq<Seq<char>>, name: Seq<char>) -> Seq<Seq<char>> {
    if has_name(names, name) {
        names
    } else {
        names.push(name)
    }
}

/// Names with those of some measurements.
pub open spec fn with_names(names: Seq<Seq<char>>, m: SeriesModel) -> Seq<Seq<char>>
    decreases m.len(),
{
    if m.len() == 0 {
        names
    } else {
        with_name(with_names(names, m.drop_last()), m.last().0)
    }
}

/// Nanoseconds as microseconds.
pub open spec fn us(ns: u64) -> JsonModel {
    JsonModel::Ratio(ns as nat, 1000)
}

/// The mean in microseconds, to the nanosecond.
pub open spec fn mean_us(s: Seq<u64>) -> JsonModel {
    JsonModel::Ratio(
        if s.len() == 0 {
            0
        } else {
            nearest(sum_of(s), s.len())
        },
        1000,
    )
}

/// The excess of one time over another.
pub open spec fn excess(a: u64, b: u64) -> u64 {
    if a > b {
        (a - b) as u64
    } else {
        0
    }
}

/// How many values a mean is of.
pub open spec fn weight_of(s: Seq<u64>) -> int {
    if s.len() == 0 {
        1
    } else {
        s.len() as int
    }
}

/// The excess of one mean over another, to the nanosecond.
pub open spec fn mean_excess(a: Seq<u64>, b: Seq<u64>) -> nat {
    let num = sum_of(a) * weight_of(b) - sum_of(b) * weight_of(a);
    if num > 0 {
        nearest(num as nat, (weight_of(a) * weight_of(b)) as nat)
    } else {
        0
    }
}

/// How the whole time of a worker is spread, and what of it goes where.
pub open spec fn stage_timing(total: Seq<u64>, serde: Seq<u64>, wasm: Seq<u64>) -> JsonModel {
    let t = in_order(total);
    let s = in_order(serde);
    let w = in_order(wasm);
    let n = if t.len() >= w.len() && t.len() >= s.len() {
        t.len()
    } else if w.len() >= s.len() {
        w.len()
    } else {
        s.len()
    };
    JsonModel::Object(
        seq![
            ("n"@, JsonModel::Count(n)),
            ("total_us"@, full_spread(t)),
            ("serde_us"@, short_spread(s)),
            ("wasm_us"@, full_spread(w)),
            (
                "overhead_us"@,
                JsonModel::Object(
                    seq![
                        ("p50"@, us(excess(at_quantile(t, 500), at_quantile(w, 500)))),
                        ("p99"@, us(excess(at_quantile(t, 990), at_quantile(w, 990)))),
                        ("mean"@, JsonModel::Ratio(mean_excess(t, w), 1000)),
                    ],
                ),
            ),
            (
                "serde_frac_p50"@,
                JsonModel::Ratio(
                    if at_quantile(t, 500) > 0 {
                        nearest(
                            at_quantile(s, 500) as nat * 1000,
                            at_quantile(t, 500) as nat,
                        )
                    } else {
                        0
                    },
                    1000,
                ),
            ),
        ],
    )
}

pub open spec fn full_spread(s: Seq<u64>) -> JsonModel {
    JsonModel::Object(
        seq![
            ("p50"@, us(at_quantile(s, 500))),
            ("p95"@, us(at_quantile(s, 950))),
            ("p99"@, us(at_quantile(s, 990))),
            ("p999"@, us(at_quantile(s, 999))),
            ("max"@, us(greatest(s))),
            ("mean"@, mean_us(s)),
            ("samples"@, ratios(thinned(s, 50_000), 1000)),
        ],
    )
}

pub open spec fn short_spread(s: Seq<u64>) -> JsonModel {
    JsonModel::Object(
        seq![
            ("p50"@, us(at_quantile(s, 500))),
            ("p95"@, us(at_quantile(s, 950))),
            ("p99"@, us(at_quantile(s, 990))),
            ("max"@, us(greatest(s))),
            ("mean"@, mean_us(s)),
            ("samples"@, ratios(thinned(s, 50_000), 1000)),
        ],
    )
}

/// Where the time of the workers goes, by stage.
pub open spec fn timing_block(total: SeriesModel, serde: SeriesModel, wasm: SeriesModel) -> JsonModel {
    let names = with_names(with_names(with_names(Seq::empty(), total), serde), wasm);
    JsonModel::Object(
        names.map_values(
            |n: Seq<char>|
                (
                    n,
                    stage_timing(
                        values_named(total, n),
                        values_named(serde, n),
                        values_named(wasm, n),
                    ),
                ),
        ),
    )
}

/// No more values than memory can hold.
pub open spec fn in_memory(m: SeriesModel) -> bool {
    forall|i: int| 0 <= i < m.len() ==> (#[trigger] m[i]).1.len() <= 0x1000_0000_0000_0000
}

fn put_us<'a>(o: &mut ObjectOut<'a>, name: &str, ns: u64)
    requires
        old(o).wf(),
    ensures
        final(o).wf(),
        final(o).model@ == old(o).model@.push((name@, us(ns))),
{
    o.put_ratio(name, ns as u128, 1000);
}

fn put_mean_us<'a>(o: &mut ObjectOut<'a>, name: &str, s: &Vec<u64>)
    requires
        old(o).wf(),
        s@.len() <= 0x1000_0000_0000_0000,
    ensures
        final(o).wf(),
        final(o).model@ == old(o).model@.push((name@, mean_us(s@))),
{
    let m: u128 = if s.len() == 0 {
        0
    } else {
        round_half_up(sum(s), s.len() as u128)
    };
    o.put_ratio(name, m, 1000);
}

fn full_spread_out<'a>(s: &Vec<u64>) -> (j: JsonOut<'a>)
    requires
        s@.len() <= 0x1000_0000_0000_0000,
    ensures
        shows(j, full_spread(s@)),
{
    let mut o = ObjectOut::new();
    put_us(&mut o, "p50", pct(s, 500));
    put_us(&mut o, "p95", pct(s, 950));
    put_us(&mut o, "p99", pct(s, 990));
    put_us(&mut o, "p999", pct(s, 999));
    put_us(&mut o, "max", last_or_zero(s));
    put_mean_us(&mut o, "mean", s);
    put_samples(&mut o, "samples", s, 50_000, 1000);
    o.done()
}

fn short_spread_out<'a>(s: &Vec<u64>) -> (j: JsonOut<'a>)
    requires
        s@.len() <= 0x1000_0000_0000_0000,
    ensures
        shows(j, short_spread(s@)),
{
    let mut o = ObjectOut::new();
    put_us(&mut o, "p50", pct(s, 500));
    put_us(&mut o, "p95", pct(s, 950));
    put_us(&mut o, "p99", pct(s, 990));
    put_us(&mut o, "max", last_or_zero(s));
    put_mean_us(&mut o, "mean", s);
    put_samples(&mut o, "samples", s, 50_000, 1000);
    o.done()
}

fn excess_of(a: u64, b: u64) -> (v: u64)
    ensures
        v == excess(a, b),
{
    if a > b {
        a - b
    } else {
        0
    }
}

proof fn lemma_mean_excess(
    st: int,
    nt: int,
    a: int,
    b: int,
    sw: int,
    nw: int,
    c: int,
    d: int,
    x: int,
)
    requires
        nt > 0,
        nw > 0,
        st == nt * a + b,
        0 <= b < nt,
        sw == nw * c + d,
        0 <= d < nw,
        x == b * nw - d * nt,
    ensures
        st * nw - sw * nt == (nt * nw) * (a - c) + x,
        -(nt * nw) < x < nt * nw,
        nt * nw > 0,
{
    assert(st * nw - sw * nt == (nt * nw) * (a - c) + (b * nw - d * nt)) by (nonlinear_arith)
        requires
            st == nt * a + b,
            sw == nw * c + d,
    ;
    assert(nt * nw > 0) by (nonlinear_arith)
        requires
            nt > 0,
            nw > 0,
    ;
    assert(0 <= b * nw < nt * nw) by (nonlinear_arith)
        requires
            0 <= b < nt,
            nw > 0,
    ;
    assert(0 <= d * nt < nt * nw) by (nonlinear_arith)
        requires
            0 <= d < nw,
            nt > 0,
    ;
}

proof fn lemma_nearest_near(n: int, k: int, x: int)
    requires
        n > 0,
        -n < x < n,
        n * k + x > 0,
    ensures
        2 * x >= n ==> nearest((n * k + x) as nat, n as nat) == k + 1,
        -n <= 2 * x < n ==> nearest((n * k + x) as nat, n as nat) == k,
        2 * x < -n ==> nearest((n * k + x) as nat, n as nat) == k - 1,
{
    let y = n * k + x;
    let q = if 2 * x >= n {
        k + 1
    } else if 2 * x >= -n {
        k
    } else {
        k - 1
    };
    let r = 2 * y + n - (2 * n) * q;
    assert(0 <= r < 2 * n) by (nonlinear_arith)
        requires
            r == 2 * (n * k + x) + n - (2 * n) * q,
            2 * x >= n ==> q == k + 1,
            -n <= 2 * x < n ==> q == k,
            2 * x < -n ==> q == k - 1,
            -n < x < n,
            n > 0,
    ;
    vstd::arithmetic::div_mod::lemma_fundamental_div_mod_converse(2 * y + n, 2 * n, q, r);
}

fn mean_excess_of(t: &Vec<u64>, w: &Vec<u64>) -> (v: u128)
    requires
        t@.len() <= 0x1000_0000_0000_0000,
        w@.len() <= 0x1000_0000_0000_0000,
    ensures
        v == mean_excess(t@, w@),
{
    let nt: u128 = if t.len() == 0 {
        1
    } else {
        t.len() as u128
    };
    let nw: u128 = if w.len() == 0 {
        1
    } else {
        w.len() as u128
    };
    let st: u128 = sum(t);
    let sw: u128 = sum(w);
    let a: u128 = st / nt;
    let b: u128 = st % nt;
    let c: u128 = sw / nw;
    let d: u128 = sw % nw;
    let ghost x = b * nw - d * nt;
    proof {
        vstd::arithmetic::div_mod::lemma_fundamental_div_mod(st as int, nt as int);
        vstd::arithmetic::div_mod::lemma_fundamental_div_mod(sw as int, nw as int);
        lemma_mean_excess(
            st as int,
            nt as int,
            a as int,
            b as int,
            sw as int,
            nw as int,
            c as int,
            d as int,
            x,
        );
        assert(nt * nw <= 0x1000_0000_0000_0000 * 0x1000_0000_0000_0000) by (nonlinear_arith)
            requires
                0 <= nt <= 0x1000_0000_0000_0000,
                0 <= nw <= 0x1000_0000_0000_0000,
        ;
        assert(0 <= b * nw <= nt * nw) by (nonlinear_arith)
            requires
                0 <= b < nt,
                nw > 0,
        ;
        assert(0 <= d * nt <= nt * nw) by (nonlinear_arith)
            requires
                0 <= d < nw,
                nt > 0,
        ;
        assert(a <= st) by (nonlinear_arith)
            requires
                st == nt * a + b,
                b >= 0,
                nt >= 1,
                a >= 0,
        ;
        assert(c <= sw) by (nonlinear_arith)
            requires
                sw == nw * c + d,
                d >= 0,
                nw >= 1,
                c >= 0,
        ;
    }
    let n: i128 = (nt * nw) as i128;
    let gap: i128 = (b * nw) as i128 - (d * nt) as i128;
    let k: i128 = a as i128 - c as i128;
    let ghost num = st * nw - sw * nt;
    proof {
        assert(num == n * k + gap);
        if k < 0 {
            assert(n * k + gap <= 0) by (nonlinear_arith)
                requires
                    k <= -1,
                    gap < n,
                    n > 0,
            ;
        }
        if k > 0 {
            assert(n * k + gap > 0) by (nonlinear_arith)
                requires
                    k >= 1,
                    gap > -n,
                    n > 0,
            ;
        }
        assert(k == 0 ==> n * k == 0) by (nonlinear_arith);
        assert(st * nw == sum_of(t@) * weight_of(w@));
        assert(sw * nt == sum_of(w@) * weight_of(t@));
    }
    if k < 0 || (k == 0 && gap <= 0) {
        return 0;
    }
    proof {
        lemma_nearest_near(n as int, k as int, gap as int);
    }
    if 2 * gap >= n {
        (k + 1) as u128
    } else if 2 * gap >= -n {
        k as u128
    } else {
        (k - 1) as u128
    }
}

fn find_values<'s>(series: &'s Vec<Series>, name: &str) -> (r: Option<&'s Vec<u64>>)
    ensures
        match r {
            None => !is_measured(series_of(series@), name@),
            Some(v) => is_measured(series_of(series@), name@) && v@ == values_named(
                series_of(series@),
                name@,
            ),
        },
{
    let ghost m = series_of(series@);
    let mut i: usize = 0;
    while i < series.len()
        invariant
            i <= series@.len(),
            m == series_of(series@),
            forall|k: int| 0 <= k < i ==> (#[trigger] m[k]).0 != name@,
        decreases series@.len() - i,
    {
        assert(m[i as int].0 == series@[i as int].name@);
        if same(series[i].name.as_str(), name) {
            proof {
                assert(is_series_at(m, name@, i as int));
                let c = choose|c: int| is_series_at(m, name@, c);
                assert(is_series_at(m, name@, c));
                assert(c == i);
            }
            return Some(&series[i].values);
        }
        i = i + 1;
    }
    None
}

fn ordered_values(series: &Vec<Series>, name: &str) -> (out: Vec<u64>)
    requires
        in_memory(series_of(series@)),
    ensures
        out@ == in_order(values_named(series_of(series@), name@)),
        out@.len() <= 0x1000_0000_0000_0000,
{
    let ghost m = series_of(series@);
    proof {
        crate::stats::law_ordered(values_named(m, name@));
        if is_measured(m, name@) {
            let c = choose|c: int| is_series_at(m, name@, c);
            assert(m[c].1.len() <= 0x1000_0000_0000_0000);
        }
    }
    match find_values(series, name) {
        None => Vec::new(),
        Some(v) => sorted(v),
    }
}

fn add_names(names: &mut Vec<String>, series: &Vec<Series>)
    ensures
        owned_views(final(names)@) == with_names(owned_views(old(names)@), series_of(series@)),
{
    let ghost m = series_of(series@);
    let ghost base = owned_views(names@);
    let mut i: usize = 0;
    assert(m.take(0) =~= Seq::<(Seq<char>, Seq<u64>)>::empty());
    while i < series.len()
        invariant
            i <= series@.len(),
            m == series_of(series@),
            owned_views(names@) == with_names(base, m.take(i as int)),
        decreases series@.len() - i,
    {
        assert(m.take(i + 1).drop_last() =~= m.take(i as int));
        let name = &series[i].name;
        assert(m[i as int].0 == name@);
        let ghost have = owned_views(names@);
        let mut found = false;
        let mut k: usize = 0;
        while k < names.len()
            invariant
                k <= names@.len(),
                have == owned_views(names@),
                found == exists|h: int| 0 <= h < k && #[trigger] have[h] == name@,
            decreases names@.len() - k,
        {
            assert(have[k as int] == names@[k as int]@);
            if names[k] == *name {
                found = true;
            }
            k = k + 1;
        }
        assert(found == has_name(have, name@));
        if !found {
            let ghost was = names@;
            names.push(name.clone());
            assert(owned_views(names@) =~= owned_views(was).push(name@));
        }
        i = i + 1;
    }
    assert(m.take(i as int) =~= m);
}

fn stage_timing_out<'a>(
    t: &Vec<u64>,
    s: &Vec<u64>,
    w: &Vec<u64>,
    Ghost(total): Ghost<Seq<u64>>,
    Ghost(serde): Ghost<Seq<u64>>,
    Ghost(wasm): Ghost<Seq<u64>>,
) -> (j: JsonOut<'a>)
    requires
        t@ == in_order(total),
        s@ == in_order(serde),
        w@ == in_order(wasm),
        t@.len() <= 0x1000_0000_0000_0000,
        s@.len() <= 0x1000_0000_0000_0000,
        w@.len() <= 0x1000_0000_0000_0000,
    ensures
        shows(j, stage_timing(total, serde, wasm)),
{
    let n: usize = if t.len() >= w.len() && t.len() >= s.len() {
        t.len()
    } else if w.len() >= s.len() {
        w.len()
    } else {
        s.len()
    };
    let mut over = ObjectOut::new();
    put_us(&mut over, "p50", excess_of(pct(t, 500), pct(w, 500)));
    put_us(&mut over, "p99", excess_of(pct(t, 990), pct(w, 990)));
    over.put_ratio("mean", mean_excess_of(t, w), 1000);
    let ghost om = over.model@;
    assert(om == seq![
        ("p50"@, us(excess(at_quantile(t@, 500), at_quantile(w@, 500)))),
        ("p99"@, us(excess(at_quantile(t@, 990), at_quantile(w@, 990)))),
        ("mean"@, JsonModel::Ratio(mean_excess(t@, w@), 1000)),
    ]);
    let half: u64 = pct(t, 500);
    let frac: u128 = if half > 0 {
        round_half_up(pct(s, 500) as u128 * 1000, half as u128)
    } else {
        0
    };
    let mut o = ObjectOut::new();
    o.put_count("n", n as u64);
    let total_json = full_spread_out(t);
    o.put("total_us", total_json, Ghost(full_spread(t@)));
    let serde_json = short_spread_out(s);
    o.put("serde_us", serde_json, Ghost(short_spread(s@)));
    let wasm_json = full_spread_out(w);
    o.put("wasm_us", wasm_json, Ghost(full_spread(w@)));
    let over_json = over.done();
    o.put("overhead_us", over_json, Ghost(JsonModel::Object(om)));
    o.put_ratio("serde_frac_p50", frac, 1000);
    o.done()
}

/// Reports where the time of the workers goes.
pub fn build_worker_timing_block<'a>(
    total: &Vec<Series>,
    serde: &Vec<Series>,
    wasm: &Vec<Series>,
) -> (j: JsonOut<'a>)
    requires
        in_memory(series_of(total@)),
        in_memory(series_of(serde@)),
        in_memory(series_of(wasm@)),
    ensures
        shows(j, timing_block(series_of(total@), series_of(serde@), series_of(wasm@))),
{
    let ghost tm = series_of(total@);
    let ghost sm = series_of(serde@);
    let ghost wm = series_of(wasm@);
    let mut names: Vec<String> = Vec::new();
    assert(owned_views(names@) =~= Seq::<Seq<char>>::empty());
    add_names(&mut names, total);
    add_names(&mut names, serde);
    add_names(&mut names, wasm);
    let ghost ns = owned_views(names@);
    let ghost all = timing_block(tm, sm, wm)->Object_0;
    let mut o = ObjectOut::new();
    let mut i: usize = 0;
    assert(all.take(0) =~= Seq::<(Seq<char>, JsonModel)>::empty());
    while i < names.len()
        invariant
            i <= names@.len(),
            ns == owned_views(names@),
            tm == series_of(total@),
            sm == series_of(serde@),
            wm == series_of(wasm@),
            in_memory(tm),
            in_memory(sm),
            in_memory(wm),
            all == ns.map_values(
                |n: Seq<char>|
                    (
                        n,
                        stage_timing(
                            values_named(tm, n),
                            values_named(sm, n),
                            values_named(wm, n),
                        ),
                    ),
            ),
            o.wf(),
            o.model@ == all.take(i as int),
        decreases names@.len() - i,
    {
        let name = &names[i];
        assert(ns[i as int] == name@);
        let t = ordered_values(total, name.as_str());
        let s = ordered_values(serde, name.as_str());
        let w = ordered_values(wasm, name.as_str());
        let ghost tv = values_named(tm, name@);
        let ghost sv = values_named(sm, name@);
        let ghost wv = values_named(wm, name@);
        let one = stage_timing_out(&t, &s, &w, Ghost(tv), Ghost(sv), Ghost(wv));
        o.put(name.as_str(), one, Ghost(stage_timing(tv, sv, wv)));
        assert(all.take(i + 1) =~= all.take(i as int).push(all[i as int]));
        i = i + 1;
    }
    assert(all.take(i as int) =~= all);
    o.done()
}

/// The replica that a label names; the first, where it names none.
pub open spec fn replica_of(label: Seq<char>) -> nat {
    if label.contains('#') {
        match parsed(label.skip(before(label, '#').len() as int + 1), u32::MAX as nat) {
            None => 0,
            Some(n) => n,
        }
    } else {
        0
    }
}

/// The replicas of a stage, each with its times in order.
pub type ReplicaModel = Seq<(nat, Seq<u64>)>;

/// The times of a replica, put in the place of those of the same number or
/// behind the others.
pub open spec fn with_replica(r: ReplicaModel, n: nat, values: Seq<u64>) -> ReplicaModel {
    if exists|i: int| is_replica_at(r, n, i) {
        r.update(choose|i: int| is_replica_at(r, n, i), (n, values))
    } else {
        r.push((n, values))
    }
}

pub open spec fn is_replica_at(r: ReplicaModel, n: nat, i: int) -> bool {
    &&& 0 <= i < r.len()
    &&& r[i].0 == n
    &&& forall|k: int| 0 <= k < i ==> (#[trigger] r[k]).0 != n
}

/// The replicas by stage.
pub type GroupModel = Seq<(Seq<char>, ReplicaModel)>;

pub open spec fn is_group_at(g: GroupModel, stage: Seq<char>, i: int) -> bool {
    &&& 0 <= i < g.len()
    &&& g[i].0 == stage
    &&& forall|k: int| 0 <= k < i ==> (#[trigger] g[k]).0 != stage
}

/// The times of a replica put with its stage.
pub open spec fn with_group(g: GroupModel, stage: Seq<char>, n: nat, values: Seq<u64>) -> GroupModel {
    if exists|i: int| is_group_at(g, stage, i) {
        let i = choose|i: int| is_group_at(g, stage, i);
        g.update(i, (stage, with_replica(g[i].1, n, values)))
    } else {
        g.push((stage, seq![(n, values)]))
    }
}

/// The times by stage and replica.
pub open spec fn groups_of(m: SeriesModel) -> GroupModel
    decreases m.len(),
{
    if m.len() == 0 {
        Seq::empty()
    } else {
        with_group(
            groups_of(m.drop_last()),
            before(m.last().0, '#'),
            replica_of(m.last().0),
            in_order(m.last().1),
        )
    }
}

/// The label of a replica.
pub open spec fn label_of(stage: Seq<char>, n: nat) -> Seq<char> {
    stage.push('#') + decimal(n)
}

/// How many events a label counted, if it counted any.
pub open spec fn counted(m: SeriesModel, label: Seq<char>) -> Option<nat> {
    if is_measured(m, label) {
        Some(values_named(m, label).len())
    } else {
        None
    }
}

/// How many events the replicas of a stage counted.
pub open spec fn stage_total(m: SeriesModel, stage: Seq<char>, r: ReplicaModel) -> nat
    decreases r.len(),
{
    if r.len() == 0 {
        0
    } else {
        stage_total(m, stage, r.drop_last()) + match counted(m, label_of(stage, r.last().0)) {
            None => 0nat,
            Some(n) => n,
        }
    }
}

/// Nanoseconds as milliseconds, to four digits.
pub open spec fn ms_r4(ns: u64) -> JsonModel {
    JsonModel::Ratio(nearest(ns as nat, 100), 10_000)
}

/// How one replica fared, and what part of its stage's events it took.
pub open spec fn replica_json(
    m: SeriesModel,
    stage: Seq<char>,
    total: nat,
    n: nat,
    s: Seq<u64>,
) -> JsonModel {
    let count = match counted(m, label_of(stage, n)) {
        None => s.len(),
        Some(c) => c,
    };
    JsonModel::Object(
        seq![
            ("count"@, JsonModel::Count(count)),
            (
                "share"@,
                JsonModel::Ratio(
                    if total > 0 {
                        nearest(count * 10_000, total)
                    } else {
                        0
                    },
                    10_000,
                ),
            ),
            ("p50"@, ms_r4(at_quantile(s, 500))),
            ("p95"@, ms_r4(at_quantile(s, 950))),
            ("p99"@, ms_r4(at_quantile(s, 990))),
            ("max"@, ms_r4(greatest(s))),
            (
                "mean"@,
                JsonModel::Ratio(
                    if s.len() == 0 {
                        0
                    } else {
                        nearest(sum_of(s), s.len() * 100)
                    },
                    10_000,
                ),
            ),
            ("samples"@, ratios(thinned(s, 20_000), 1_000_000)),
        ],
    )
}

/// How the replicas of one stage fared.
pub open spec fn group_json(m: SeriesModel, stage: Seq<char>, r: ReplicaModel) -> JsonModel {
    JsonModel::Object(
        r.map_values(
            |e: (nat, Seq<u64>)|
                (decimal(e.0), replica_json(m, stage, stage_total(m, stage, r), e.0, e.1)),
        ),
    )
}

/// How the replicas fared, by stage.
pub open spec fn replica_block(m: SeriesModel) -> JsonModel {
    JsonModel::Object(
        groups_of(m).map_values(
            |g: (Seq<char>, ReplicaModel)| (g.0, group_json(m, g.0, g.1)),
        ),
    )
}

/// The times of one replica, in order.
#[derive(Debug)]
pub struct ReplicaTimes {
    pub replica: u32,
    pub values: Vec<u64>,
}

/// The times of the replicas of one stage.
#[derive(Debug)]
pub struct StageReplicas {
    pub stage: String,
    pub replicas: Vec<ReplicaTimes>,
}

pub open spec fn replicas_view(v: Seq<ReplicaTimes>) -> ReplicaModel {
    v.map_values(|r: ReplicaTimes| (r.replica as nat, r.values@))
}

pub open spec fn groups_view(v: Seq<StageReplicas>) -> GroupModel {
    v.map_values(|g: StageReplicas| (g.stage@, replicas_view(g.replicas@)))
}

fn replica_number(label: &str) -> (n: u32)
    ensures
        n == replica_of(label@),
{
    let chars = chars_of(label);
    let len: usize = chars.len();
    let stage = text_before(label, '#');
    let k: usize = chars_of(stage.as_str()).len();
    proof {
        lemma_before(label@, '#');
    }
    if k == len {
        return 0;
    }
    let rest = string_of(&chars, k + 1, len);
    assert(label@.subrange(k + 1, len as int) =~= label@.skip(k + 1));
    match parse_number(rest.as_str(), 0xffff_ffff) {
        None => 0,
        Some(n) => n as u32,
    }
}

pub(crate) proof fn lemma_before(s: Seq<char>, mark: char)
    ensures
        before(s, mark).len() <= s.len(),
        before(s, mark).len() < s.len() <==> s.contains(mark),
    decreases s.len(),
{
    if s.len() > 0 && s[0] != mark {
        lemma_before(s.drop_first(), mark);
        if s.contains(mark) {
            let i = choose|i: int| 0 <= i < s.len() && s[i] == mark;
            assert(s.drop_first()[i - 1] == mark);
        }
        if s.drop_first().contains(mark) {
            let i = choose|i: int| 0 <= i < s.drop_first().len() && s.drop_first()[i] == mark;
            assert(s[i + 1] == mark);
        }
    } else if s.len() > 0 {
        assert(s[0] == mark);
    }
}

fn put_replica(list: &mut Vec<ReplicaTimes>, n: u32, values: Vec<u64>)
    ensures
        replicas_view(final(list)@) == with_replica(
            replicas_view(old(list)@),
            n as nat,
            values@,
        ),
{
    let ghost r = replicas_view(list@);
    let ghost vals = values@;
    let mut i: usize = 0;
    while i < list.len()
        invariant
            i <= list@.len(),
            *list == *old(list),
            r == replicas_view(list@),
            vals == values@,
            forall|k: int| 0 <= k < i ==> (#[trigger] r[k]).0 != n as nat,
        decreases list@.len() - i,
    {
        assert(r[i as int].0 == list@[i as int].replica as nat);
        if list[i].replica == n {
            proof {
                assert(is_replica_at(r, n as nat, i as int));
                let c = choose|c: int| is_replica_at(r, n as nat, c);
                assert(is_replica_at(r, n as nat, c));
                assert(c == i);
            }
            list[i] = ReplicaTimes { replica: n, values };
            assert(replicas_view(list@) =~= r.update(i as int, (n as nat, vals)));
            return ;
        }
        i = i + 1;
    }
    list.push(ReplicaTimes { replica: n, values });
    assert(replicas_view(list@) =~= r.push((n as nat, vals)));
}

fn put_group(groups: &mut Vec<StageReplicas>, stage: String, n: u32, values: Vec<u64>)
    ensures
        groups_view(final(groups)@) == with_group(
            groups_view(old(groups)@),
            stage@,
            n as nat,
            values@,
        ),
{
    let ghost g = groups_view(groups@);
    let ghost vals = values@;
    let mut i: usize = 0;
    while i < groups.len()
        invariant
            i <= groups@.len(),
            *groups == *old(groups),
            g == groups_view(groups@),
            vals == values@,
            forall|k: int| 0 <= k < i ==> (#[trigger] g[k]).0 != stage@,
        decreases groups@.len() - i,
    {
        assert(g[i as int].0 == groups@[i as int].stage@);
        if groups[i].stage == stage {
            proof {
                assert(is_group_at(g, stage@, i as int));
                let c = choose|c: int| is_group_at(g, stage@, c);
                assert(is_group_at(g, stage@, c));
                assert(c == i);
            }
            assert(g[i as int].1 == replicas_view(groups@[i as int].replicas@));
            put_replica(&mut groups[i].replicas, n, values);
            assert(groups_view(groups@) =~= g.update(
                i as int,
                (stage@, with_replica(g[i as int].1, n as nat, vals)),
            ));
            return ;
        }
        i = i + 1;
    }
    let ghost name = stage@;
    let one = vec![ReplicaTimes { replica: n, values }];
    assert(replicas_view(one@) =~= seq![(n as nat, vals)]);
    groups.push(StageReplicas { stage, replicas: one });
    assert(groups_view(groups@) =~= g.push((name, seq![(n as nat, vals)])));
}

fn replica_label(stage: &str, n: u32) -> (out: String)
    ensures
        out@ == label_of(stage@, n as nat),
{
    let digits = decimal_text(n as u128);
    let mut out = stage.to_owned();
    out.push('#');
    out.append(digits.as_str());
    out
}

fn count_of_label(series: &Vec<Series>, stage: &str, n: u32) -> (r: Option<u64>)
    requires
        in_memory(series_of(series@)),
    ensures
        match r {
            None => counted(series_of(series@), label_of(stage@, n as nat)) is None,
            Some(c) => counted(series_of(series@), label_of(stage@, n as nat)) == Some(c as nat)
                && c <= 0x1000_0000_0000_0000,
        },
{
    let label = replica_label(stage, n);
    let ghost m = series_of(series@);
    proof {
        if is_measured(m, label@) {
            let c = choose|c: int| is_series_at(m, label@, c);
            assert(m[c].1.len() <= 0x1000_0000_0000_0000);
        }
    }
    match find_values(series, label.as_str()) {
        None => None,
        Some(v) => Some(v.len() as u64),
    }
}

fn replica_out<'a>(
    series: &Vec<Series>,
    stage: &str,
    total: u128,
    r: &ReplicaTimes,
) -> (j: JsonOut<'a>)
    requires
        in_memory(series_of(series@)),
        r.values@.len() <= 0x1000_0000_0000_0000,
        total <= u128::MAX / 4,
    ensures
        shows(
            j,
            replica_json(
                series_of(series@),
                stage@,
                total as nat,
                r.replica as nat,
                r.values@,
            ),
        ),
{
    let s = &r.values;
    let count: u64 = match count_of_label(series, stage, r.replica) {
        None => s.len() as u64,
        Some(c) => c,
    };
    let share: u128 = if total > 0 {
        round_half_up(count as u128 * 10_000, total)
    } else {
        0
    };
    let mean: u128 = if s.len() == 0 {
        0
    } else {
        round_half_up(sum(s), s.len() as u128 * 100)
    };
    let mut o = ObjectOut::new();
    o.put_count("count", count);
    o.put_ratio("share", share, 10_000);
    put_ms_r4(&mut o, "p50", pct(s, 500));
    put_ms_r4(&mut o, "p95", pct(s, 950));
    put_ms_r4(&mut o, "p99", pct(s, 990));
    put_ms_r4(&mut o, "max", last_or_zero(s));
    o.put_ratio("mean", mean, 10_000);
    put_samples(&mut o, "samples", s, 20_000, 1_000_000);
    o.done()
}

fn put_ms_r4<'a>(o: &mut ObjectOut<'a>, name: &str, ns: u64)
    requires
        old(o).wf(),
    ensures
        final(o).wf(),
        final(o).model@ == old(o).model@.push((name@, ms_r4(ns))),
{
    let r: u128 = round_half_up(ns as u128, 100);
    o.put_ratio(name, r, 10_000);
}

/// The times of no replica are more than memory can hold.
pub open spec fn groups_in_memory(g: GroupModel) -> bool {
    forall|i: int, k: int|
        0 <= i < g.len() && 0 <= k < g[i].1.len() ==> (#[trigger] g[i].1[k]).1.len()
            <= 0x1000_0000_0000_0000
}

proof fn lemma_groups_in_memory(m: SeriesModel)
    requires
        in_memory(m),
    ensures
        groups_in_memory(groups_of(m)),
    decreases m.len(),
{
    if m.len() > 0 {
        let rest = m.drop_last();
        assert forall|i: int| 0 <= i < rest.len() implies (#[trigger] rest[i]).1.len()
            <= 0x1000_0000_0000_0000 by {
            assert(rest[i] == m[i]);
        }
        lemma_groups_in_memory(rest);
        let g = groups_of(rest);
        let stage = before(m.last().0, '#');
        let n = replica_of(m.last().0);
        let v = in_order(m.last().1);
        crate::stats::law_ordered(m.last().1);
        assert(m[m.len() - 1].1.len() <= 0x1000_0000_0000_0000);
        let out = with_group(g, stage, n, v);
        assert forall|i: int, k: int|
            0 <= i < out.len() && 0 <= k < out[i].1.len() implies (#[trigger] out[i].1[k]).1.len()
            <= 0x1000_0000_0000_0000 by {
            if exists|c: int| is_group_at(g, stage, c) {
                let c = choose|c: int| is_group_at(g, stage, c);
                if i == c {
                    let r = g[c].1;
                    if exists|e: int| is_replica_at(r, n, e) {
                        let e = choose|e: int| is_replica_at(r, n, e);
                        if k != e {
                            assert(out[i].1[k] == g[c].1[k]);
                        }
                    } else if k < r.len() {
                        assert(out[i].1[k] == g[c].1[k]);
                    }
                } else {
                    assert(out[i].1[k] == g[i].1[k]);
                }
            } else if i < g.len() {
                assert(out[i].1[k] == g[i].1[k]);
            }
        }
    }
}

fn group_out<'a>(series: &Vec<Series>, g: &StageReplicas) -> (j: JsonOut<'a>)
    requires
        in_memory(series_of(series@)),
        forall|k: int|
            0 <= k < g.replicas@.len() ==> (#[trigger] g.replicas@[k]).values@.len()
                <= 0x1000_0000_0000_0000,
    ensures
        shows(j, group_json(series_of(series@), g.stage@, replicas_view(g.replicas@))),
{
    let ghost m = series_of(series@);
    let ghost r = replicas_view(g.replicas@);
    let len: usize = g.replicas.len();
    let mut total: u128 = 0;
    let mut k: usize = 0;
    assert(r.take(0) =~= Seq::<(nat, Seq<u64>)>::empty());
    while k < len
        invariant
            k <= len == g.replicas@.len(),
            len <= 0xffff_ffff_ffff_ffff,
            m == series_of(series@),
            in_memory(m),
            r == replicas_view(g.replicas@),
            total == stage_total(m, g.stage@, r.take(k as int)),
            total <= k * 0x1000_0000_0000_0000,
        decreases len - k,
    {
        assert(r.take(k + 1).drop_last() =~= r.take(k as int));
        assert(r[k as int].0 == g.replicas@[k as int].replica as nat);
        match count_of_label(series, g.stage.as_str(), g.replicas[k].replica) {
            None => {},
            Some(c) => {
                total = total + c as u128;
            },
        }
        k = k + 1;
    }
    assert(r.take(k as int) =~= r);
    let ghost all = group_json(m, g.stage@, r)->Object_0;
    let mut o = ObjectOut::new();
    let mut i: usize = 0;
    assert(all.take(0) =~= Seq::<(Seq<char>, JsonModel)>::empty());
    while i < len
        invariant
            i <= len == g.replicas@.len(),
            m == series_of(series@),
            in_memory(m),
            r == replicas_view(g.replicas@),
            total == stage_total(m, g.stage@, r),
            total <= u128::MAX / 4,
            all == group_json(m, g.stage@, r)->Object_0,
            forall|k: int|
                0 <= k < g.replicas@.len() ==> (#[trigger] g.replicas@[k]).values@.len()
                    <= 0x1000_0000_0000_0000,
            o.wf(),
            o.model@ == all.take(i as int),
        decreases len - i,
    {
        let one = &g.replicas[i];
        assert(r[i as int] == (one.replica as nat, one.values@));
        let name = decimal_text(one.replica as u128);
        let value = replica_out(series, g.stage.as_str(), total, one);
        o.put(
            name.as_str(),
            value,
            Ghost(replica_json(m, g.stage@, total as nat, one.replica as nat, one.values@)),
        );
        assert(all.take(i + 1) =~= all.take(i as int).push(all[i as int]));
        i = i + 1;
    }
    assert(all.take(i as int) =~= all);
    o.done()
}

/// Reports how the replicas fared: how long each took, and what part of its
/// stage's events it took.
pub fn build_per_replica_block<'a>(series: &Vec<Series>) -> (j: JsonOut<'a>)
    requires
        in_memory(series_of(series@)),
    ensures
        shows(j, replica_block(series_of(series@))),
{
    let ghost m = series_of(series@);
    let mut groups: Vec<StageReplicas> = Vec::new();
    let mut i: usize = 0;
    assert(m.take(0) =~= Seq::<(Seq<char>, Seq<u64>)>::empty());
    assert(groups_view(groups@) =~= Seq::<(Seq<char>, ReplicaModel)>::empty());
    while i < series.len()
        invariant
            i <= series@.len(),
            m == series_of(series@),
            groups_view(groups@) == groups_of(m.take(i as int)),
        decreases series@.len() - i,
    {
        assert(m.take(i + 1).drop_last() =~= m.take(i as int));
        let one = &series[i];
        assert(m[i as int] == (one.name@, one.values@));
        let stage = text_before(one.name.as_str(), '#');
        let n: u32 = replica_number(one.name.as_str());
        put_group(&mut groups, stage, n, sorted(&one.values));
        i = i + 1;
    }
    assert(m.take(i as int) =~= m);
    let ghost g = groups_of(m);
    proof {
        lemma_groups_in_memory(m);
    }
    let ghost all = replica_block(m)->Object_0;
    let mut o = ObjectOut::new();
    let mut k: usize = 0;
    assert(all.take(0) =~= Seq::<(Seq<char>, JsonModel)>::empty());
    while k < groups.len()
        invariant
            k <= groups@.len(),
            m == series_of(series@),
            in_memory(m),
            g == groups_of(m),
            g == groups_view(groups@),
            groups_in_memory(g),
            all == replica_block(m)->Object_0,
            o.wf(),
            o.model@ == all.take(k as int),
        decreases groups@.len() - k,
    {
        let one = &groups[k];
        assert(g[k as int] == (one.stage@, replicas_view(one.replicas@)));
        assert forall|x: int| 0 <= x < one.replicas@.len() implies (
        #[trigger] one.replicas@[x]).values@.len() <= 0x1000_0000_0000_0000 by {
            assert(g[k as int].1[x].1 == one.replicas@[x].values@);
        }
        let value = group_out(series, one);
        o.put(
            one.stage.as_str(),
            value,
            Ghost(group_json(m, one.stage@, replicas_view(one.replicas@))),
        );
        assert(all.take(k + 1) =~= all.take(k as int).push(all[k as int]));
        k = k + 1;
    }
    assert(all.take(k as int) =~= all);
    o.done()
}

/// The machine and the build that a run was made on.
#[derive(Debug)]
pub struct EnvironmentInfo {
    pub epico_version: String,
    pub git_tag: String,
    pub host: String,
    pub os_name: String,
    pub os_version: String,
    pub kernel: String,
    pub cpu_model: String,
    pub cpu_cores_physical: u64,
    pub cpu_cores_logical: u64,
    pub ram_total_kb: u64,
    pub rustc: String,
    pub wasmtime: String,
    pub git_commit: String,
    pub git_dirty: bool,
}

/// The machine and the build.
pub open spec fn environment_block(e: EnvironmentInfo) -> JsonModel {
    JsonModel::Object(
        seq![
            ("epico_version"@, JsonModel::Text(e.epico_version@)),
            ("git_tag"@, JsonModel::Text(e.git_tag@)),
            ("host"@, JsonModel::Text(e.host@)),
            ("os_name"@, JsonModel::Text(e.os_name@)),
            ("os_version"@, JsonModel::Text(e.os_version@)),
            ("kernel"@, JsonModel::Text(e.kernel@)),
            ("cpu_model"@, JsonModel::Text(e.cpu_model@)),
            ("cpu_cores_physical"@, JsonModel::Count(e.cpu_cores_physical as nat)),
            ("cpu_cores_logical"@, JsonModel::Count(e.cpu_cores_logical as nat)),
            ("ram_total_mb"@, JsonModel::Count(e.ram_total_kb as nat / 1024)),
            ("rustc"@, JsonModel::Text(e.rustc@)),
            ("wasmtime"@, JsonModel::Text(e.wasmtime@)),
            ("git_commit"@, JsonModel::Text(e.git_commit@)),
            ("git_dirty"@, JsonModel::Bool(e.git_dirty)),
        ],
    )
}

/// Reports the machine and the build.
pub fn build_environment_block<'a>(e: &EnvironmentInfo) -> (j: JsonOut<'a>)
    ensures
        shows(j, environment_block(*e)),
{
    let mut o = ObjectOut::new();
    o.put_text("epico_version", e.epico_version.as_str());
    o.put_text("git_tag", e.git_tag.as_str());
    o.put_text("host", e.host.as_str());
    o.put_text("os_name", e.os_name.as_str());
    o.put_text("os_version", e.os_version.as_str());
    o.put_text("kernel", e.kernel.as_str());
    o.put_text("cpu_model", e.cpu_model.as_str());
    o.put_count("cpu_cores_physical", e.cpu_cores_physical);
    o.put_count("cpu_cores_logical", e.cpu_cores_logical);
    o.put_count("ram_total_mb", e.ram_total_kb / 1024);
    o.put_text("rustc", e.rustc.as_str());
    o.put_text("wasmtime", e.wasmtime.as_str());
    o.put_text("git_commit", e.git_commit.as_str());
    o.put("git_dirty", JsonOut::Bool(e.git_dirty), Ghost(JsonModel::Bool(e.git_dirty)));
    o.done()
}

} // verus!
