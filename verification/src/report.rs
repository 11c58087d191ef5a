//! The report of a run, put together from its blocks.

use vstd::prelude::*;
use crate::json::{
    law_values_have_a_meaning, meaning, shows, ArrayOut, JsonModel, JsonOut, ObjectOut,
};
use crate::numtext::owned_views;
use crate::runtime_yaml::{dispatcher_name, dispatcher_of};
use crate::stats::{
    at_quantile, greatest, in_order, last_or_zero, law_ordered, lemma_steps, nearest, pct,
    round_half_up, sorted, sum, sum_of,
};
use crate::summary::{
    build_environment_block, build_ingress_wait_block, build_inter_stage_block,
    build_per_replica_block, build_scaling_block, build_worker_timing_block, counters_block,
    counters_out, environment_block, events_block, events_out, in_memory, ingress_block,
    inter_stage_block, latency_block, latency_out, ms, ms_r5, put_ms, put_ms_r5, queue_block,
    queue_out, replica_block, resources_block, resources_out, scaling_block, throughput_block,
    throughput_out, timing_block, Entries, EnvironmentInfo,
};
use crate::telemetry::{series_of, RunTelemetry, NANOS};
use crate::wiring::{RunConfig, StageRun};

verus! {

/// Up to where the histogram reaches, in nanoseconds: three times the latency
/// that one event in a hundred exceeds, a millisecond at least, and no further
/// than the greatest latency.
pub open spec fn histogram_end(s: Seq<u64>) -> nat {
    let reach = 30 * nearest(at_quantile(s, 990) as nat, 10);
    let at_least = if reach < 1_000_000 {
        1_000_000
    } else {
        reach
    };
    if at_least < greatest(s) {
        at_least
    } else {
        greatest(s) as nat
    }
}

/// A latency is in the bucket `i` of fifty that end at `end`.
pub open spec fn in_bucket(v: u64, end: nat, i: int) -> bool {
    i * end <= 50 * v < (i + 1) * end
}

/// Law: a latency that the histogram reaches is in one of its fifty buckets,
/// and in no other.
pub proof fn law_buckets_share_out(v: u64, end: nat) -> (i: int)
    requires
        v < end,
    ensures
        0 <= i < 50,
        in_bucket(v, end, i),
        forall|k: int| in_bucket(v, end, k) ==> k == i,
{
    let x = 50 * v as int;
    let e = end as int;
    let i = x / e;
    vstd::arithmetic::div_mod::lemma_fundamental_div_mod(x, e);
    assert(i * e <= x < (i + 1) * e) by (nonlinear_arith)
        requires
            x == e * i + x % e,
            0 <= x % e < e,
    ;
    assert(0 <= i < 50) by (nonlinear_arith)
        requires
            i * e <= x < (i + 1) * e,
            0 <= x < 50 * e,
            e > 0,
    ;
    assert forall|k: int| in_bucket(v, end, k) implies k == i by {
        assert(k == i) by (nonlinear_arith)
            requires
                k * e <= x < (k + 1) * e,
                i * e <= x < (i + 1) * e,
                e > 0,
        ;
    }
    i
}

/// How many latencies are in a bucket.
pub open spec fn bucket_count(s: Seq<u64>, end: nat, i: int) -> nat
    decreases s.len(),
{
    if s.len() == 0 {
        0
    } else {
        bucket_count(s.drop_last(), end, i) + if in_bucket(s.last(), end, i) {
            1nat
        } else {
            0
        }
    }
}

/// The middles of the buckets, in milliseconds.
pub open spec fn bucket_labels(s: Seq<u64>) -> Seq<JsonModel> {
    Seq::new(
        if s.len() == 0 {
            0
        } else {
            50
        },
        |i: int|
            JsonModel::Ratio(nearest(((2 * i + 1) * histogram_end(s)) as nat, 1000), 100_000),
    )
}

/// How many latencies are in each bucket.
pub open spec fn bucket_counts(s: Seq<u64>) -> Seq<JsonModel> {
    Seq::new(
        if s.len() == 0 {
            0
        } else {
            50
        },
        |i: int| JsonModel::Count(bucket_count(s, histogram_end(s), i)),
    )
}

/// How far apart the points of the distribution are.
pub open spec fn point_step(n: nat) -> nat {
    if n / 200 < 1 {
        1
    } else {
        n / 200
    }
}

/// The latencies at the points of the distribution.
pub open spec fn points_x(s: Seq<u64>, taken: nat) -> Seq<JsonModel> {
    Seq::new(taken, |i: int| ms_r5(s[i * point_step(s.len())]))
}

/// The part of the events at the points of the distribution, in percent.
pub open spec fn points_y(s: Seq<u64>, taken: nat) -> Seq<JsonModel> {
    Seq::new(
        taken,
        |i: int|
            JsonModel::Ratio(
                nearest(((i * point_step(s.len()) + 1) * 10_000) as nat, s.len()),
                100,
            ),
    )
}

/// How many points the distribution has: one at each step below `n`.
pub open spec fn point_count(n: nat) -> nat {
    ((n + point_step(n) - 1) / point_step(n) as int) as nat
}

/// What a run was, in nanoseconds since the epoch: when it began, and how long
/// it went on.
#[derive(Debug, Clone, Copy)]
pub struct RunTime {
    pub start_ns: u64,
    pub duration_ns: u64,
}

/// The report's blocks.
pub open spec fn report_blocks(
    run_config: JsonModel,
    env: EnvironmentInfo,
    t: RunTelemetry,
    time: RunTime,
    stages: Seq<Seq<char>>,
) -> Entries {
    let e2e = in_order(t.e2e_ns@);
    let per_stage = series_of(t.per_stage@);
    seq![
        ("run_config"@, run_config),
        ("environment"@, environment_block(env)),
        ("counters"@, counters_block(e2e.len(), per_stage)),
        (
            "throughput"@,
            throughput_block(
                e2e.len(),
                t.recv_per_second@,
                per_stage,
                time.start_ns as nat,
                time.duration_ns as nat,
            ),
        ),
        ("latency_ms"@, latency_block(e2e, per_stage)),
        ("inter_stage"@, inter_stage_block(t.per_event_log@)),
        ("ingress_wait"@, ingress_block(t.ingress_wait_ns@, stages)),
        ("scaling"@, scaling_block(t.scaling_events@, stages)),
        ("resources"@, resources_block(t.resource_samples@)),
        ("events"@, events_block(t.per_event_log@)),
        (
            "worker_timing"@,
            timing_block(
                series_of(t.total_ns_samples@),
                series_of(t.serde_ns_samples@),
                per_stage,
            ),
        ),
        ("per_replica"@, replica_block(series_of(t.per_replica@))),
        ("queue_depth"@, queue_block(t.queue_depth_samples@)),
    ]
}

/// The mean of some latencies, in milliseconds to five digits.
pub open spec fn mean_r5(s: Seq<u64>) -> JsonModel {
    JsonModel::Ratio(
        if s.len() == 0 {
            0
        } else {
            nearest(sum_of(s), s.len() * 10)
        },
        100_000,
    )
}

/// The fields that plots read, of the latencies in order.
pub open spec fn latency_fields(s: Seq<u64>) -> Entries {
    seq![
        ("e2e_count"@, JsonModel::Count(s.len())),
        ("p50"@, ms_r5(at_quantile(s, 500))),
        ("p90"@, ms_r5(at_quantile(s, 900))),
        ("p99"@, ms_r5(at_quantile(s, 990))),
        ("p999"@, ms_r5(at_quantile(s, 999))),
        ("min"@, ms_r5(at_quantile(s, 0))),
        ("max"@, ms(greatest(s))),
        ("mean"@, mean_r5(s)),
        (
            "cold_start_e2e_ms"@,
            if s.len() == 0 {
                JsonModel::Null
            } else {
                ms_r5(at_quantile(s, 0))
            },
        ),
        ("hist_labels"@, JsonModel::Array(bucket_labels(s))),
        ("hist_counts"@, JsonModel::Array(bucket_counts(s))),
        ("cdf_x"@, JsonModel::Array(points_x(s, point_count(s.len())))),
        ("cdf_y"@, JsonModel::Array(points_y(s, point_count(s.len())))),
    ]
}

/// The seconds in which events came, counted from the start of the run.
pub open spec fn second_labels(seconds: Seq<(u64, u64)>, start_ns: u64) -> Seq<JsonModel> {
    seconds.map_values(
        |e: (u64, u64)|
            JsonModel::Count(
                if e.0 < start_ns / NANOS {
                    0
                } else {
                    (e.0 - start_ns / NANOS) as nat
                },
            ),
    )
}

/// How many events came in each of these seconds.
pub open spec fn second_counts(seconds: Seq<(u64, u64)>) -> Seq<JsonModel> {
    seconds.map_values(|e: (u64, u64)| JsonModel::Count(e.1 as nat))
}

/// Texts as an array.
pub open spec fn text_items(names: Seq<Seq<char>>) -> Seq<JsonModel> {
    names.map_values(|n: Seq<char>| JsonModel::Text(n))
}

/// The names of the stages' dispatchers.
pub open spec fn dispatchers(names: Seq<Seq<char>>) -> Seq<Seq<char>> {
    names.map_values(|n: Seq<char>| dispatcher_of(n))
}

/// The names of the stages and of their dispatchers, and the run's time.
pub open spec fn run_fields(stages: Seq<Seq<char>>, time: RunTime) -> Entries {
    seq![
        ("stage_names"@, JsonModel::Array(text_items(stages))),
        ("dispatcher_names"@, JsonModel::Array(text_items(dispatchers(stages)))),
        ("test_start_wall"@, JsonModel::Ratio(time.start_ns as nat, NANOS as nat)),
        ("duration"@, JsonModel::Ratio(nearest(time.duration_ns as nat, 100_000_000), 10)),
    ]
}

/// The fields that plots read, of the events by second; the last of them are
/// kept for plots that look for them, and are empty.
pub open spec fn second_fields(t: RunTelemetry, time: RunTime) -> Entries {
    seq![
        (
            "lat_ts_labels"@,
            JsonModel::Array(second_labels(t.recv_per_second@, time.start_ns)),
        ),
        ("recv_per_second"@, JsonModel::Array(second_counts(t.recv_per_second@))),
        ("lat_ts_p50"@, JsonModel::Array(Seq::empty())),
        ("lat_ts_p99"@, JsonModel::Array(Seq::empty())),
        ("has_bench_hops"@, JsonModel::Bool(t.per_stage@.len() > 0)),
        ("cold_start_data"@, JsonModel::Array(Seq::empty())),
        ("cold_start_list"@, JsonModel::Array(Seq::empty())),
        ("cold_start_milestones"@, JsonModel::Object(Seq::empty())),
    ]
}

/// The report of a run.
pub open spec fn summary(
    run_config: JsonModel,
    env: EnvironmentInfo,
    t: RunTelemetry,
    time: RunTime,
    stages: Seq<Seq<char>>,
) -> JsonModel {
    JsonModel::Object(
        report_blocks(run_config, env, t, time, stages) + run_fields(stages, time)
            + latency_fields(in_order(t.e2e_ns@)) + second_fields(t, time),
    )
}


/// The measurements are no more than memory can hold.
pub open spec fn fits_memory(t: RunTelemetry) -> bool {
    &&& t.e2e_ns@.len() <= 0x1000_0000_0000_0000
    &&& in_memory(series_of(t.per_stage@))
    &&& in_memory(series_of(t.per_replica@))
    &&& in_memory(series_of(t.total_ns_samples@))
    &&& in_memory(series_of(t.serde_ns_samples@))
}

fn end_of(s: &Vec<u64>) -> (end: u64)
    ensures
        end == histogram_end(s@),
{
    let p99: u64 = pct(s, 990);
    let reach: u128 = 30 * round_half_up(p99 as u128, 10);
    let last: u64 = last_or_zero(s);
    let at_least: u128 = if reach < 1_000_000 {
        1_000_000
    } else {
        reach
    };
    if at_least < last as u128 {
        at_least as u64
    } else {
        last
    }
}

fn count_bucket(s: &Vec<u64>, end: u64, i: u64) -> (n: u64)
    requires
        i < 50,
    ensures
        n == bucket_count(s@, end as nat, i as int),
{
    let len: usize = s.len();
    let mut n: u64 = 0;
    let mut k: usize = 0;
    assert(0 <= i * end <= (i + 1) * end <= 50 * end) by (nonlinear_arith)
        requires
            0 <= i < 50,
            0 <= end,
    ;
    let low: u128 = i as u128 * end as u128;
    let high: u128 = (i + 1) as u128 * end as u128;
    assert(s@.take(0) =~= Seq::<u64>::empty());
    while k < len
        invariant
            k <= len == s@.len(),
            n <= k,
            low == i * end,
            high == (i + 1) * end,
            n == bucket_count(s@.take(k as int), end as nat, i as int),
        decreases len - k,
    {
        assert(s@.take(k + 1).drop_last() =~= s@.take(k as int));
        let v: u128 = 50 * s[k] as u128;
        if low <= v && v < high {
            n = n + 1;
        }
        k = k + 1;
    }
    assert(s@.take(k as int) =~= s@);
    n
}

fn put_histogram<'a>(o: &mut ObjectOut<'a>, s: &Vec<u64>)
    requires
        old(o).wf(),
    ensures
        final(o).wf(),
        final(o).model@ == old(o).model@.push(
            ("hist_labels"@, JsonModel::Array(bucket_labels(s@))),
        ).push(("hist_counts"@, JsonModel::Array(bucket_counts(s@)))),
{
    let end: u64 = end_of(s);
    let many: u64 = if s.len() == 0 {
        0
    } else {
        50
    };
    let ghost labels_m = bucket_labels(s@);
    let ghost counts_m = bucket_counts(s@);
    let mut labels = ArrayOut::new();
    let mut counts = ArrayOut::new();
    let mut i: u64 = 0;
    assert(labels_m.take(0) =~= Seq::<JsonModel>::empty());
    assert(counts_m.take(0) =~= Seq::<JsonModel>::empty());
    while i < many
        invariant
            i <= many <= 50,
            many == labels_m.len() == counts_m.len(),
            labels_m == bucket_labels(s@),
            counts_m == bucket_counts(s@),
            end == histogram_end(s@),
            labels.wf(),
            labels.model@ == labels_m.take(i as int),
            counts.wf(),
            counts.model@ == counts_m.take(i as int),
        decreases many - i,
    {
        assert((2 * i + 1) * end <= 101 * end) by (nonlinear_arith)
            requires
                i <= 50,
                end >= 0,
        ;
        assert((2 * i + 1) * end >= 0) by (nonlinear_arith)
            requires
                i >= 0,
                end >= 0,
        ;
        let middle: u128 = (2 * i + 1) as u128 * end as u128;
        labels.push_ratio(round_half_up(middle, 1000), 100_000);
        let n: u64 = count_bucket(s, end, i);
        counts.push_count(n);
        assert(labels_m.take(i + 1) =~= labels_m.take(i as int).push(labels_m[i as int]));
        assert(counts_m.take(i + 1) =~= counts_m.take(i as int).push(counts_m[i as int]));
        i = i + 1;
    }
    assert(labels_m.take(i as int) =~= labels_m);
    assert(counts_m.take(i as int) =~= counts_m);
    let l = labels.done();
    let c = counts.done();
    o.put("hist_labels", l, Ghost(JsonModel::Array(labels_m)));
    o.put("hist_counts", c, Ghost(JsonModel::Array(counts_m)));
}

fn put_points<'a>(o: &mut ObjectOut<'a>, s: &Vec<u64>)
    requires
        old(o).wf(),
        s@.len() <= 0x1000_0000_0000_0000,
    ensures
        final(o).wf(),
        final(o).model@ == old(o).model@.push(
            ("cdf_x"@, JsonModel::Array(points_x(s@, point_count(s@.len())))),
        ).push(("cdf_y"@, JsonModel::Array(points_y(s@, point_count(s@.len()))))),
{
    let n: usize = s.len();
    let step: usize = if n / 200 < 1 {
        1
    } else {
        n / 200
    };
    let ghost many = point_count(n as nat);
    let ghost xs_m = points_x(s@, many);
    let ghost ys_m = points_y(s@, many);
    let mut xs = ArrayOut::new();
    let mut ys = ArrayOut::new();
    let mut at: usize = 0;
    let ghost mut i: int = 0;
    let mut done = n == 0;
    proof {
        lemma_steps(n as int, step as int, 0);
        assert(0int * step == 0);
        vstd::arithmetic::div_mod::lemma_div_pos_is_pos(n + step - 1, step as int);
        if n == 0 {
            assert(!(0int < many));
        }
    }
    assert(xs_m.take(0) =~= Seq::<JsonModel>::empty());
    assert(ys_m.take(0) =~= Seq::<JsonModel>::empty());
    while !done
        invariant
            n == s@.len(),
            n <= 0x1000_0000_0000_0000,
            step == point_step(n as nat),
            step >= 1,
            many == point_count(n as nat),
            many == (n + step - 1) / step as int,
            xs_m == points_x(s@, many),
            ys_m == points_y(s@, many),
            xs_m.len() == many,
            ys_m.len() == many,
            xs.wf(),
            ys.wf(),
            0 <= i <= many,
            xs.model@ == xs_m.take(i),
            ys.model@ == ys_m.take(i),
            done ==> i == many,
            !done ==> at == i * step && at < n && i < many,
        decreases
            (if done {
                0int
            } else {
                n - at
            }),
    {
        let x: u128 = round_half_up(s[at] as u128, 10);
        xs.push_ratio(x, 100_000);
        let y: u128 = round_half_up((at as u128 + 1) * 10_000, n as u128);
        ys.push_ratio(y, 100);
        proof {
            assert(xs_m[i] == ms_r5(s@[i * step]));
            assert(xs_m.take(i + 1) =~= xs_m.take(i).push(xs_m[i]));
            assert(ys_m.take(i + 1) =~= ys_m.take(i).push(ys_m[i]));
            lemma_steps(n as int, step as int, i + 1);
            assert((i + 1) * step == i * step + step) by (nonlinear_arith);
            i = i + 1;
        }
        if n - at <= step {
            done = true;
        } else {
            at = at + step;
        }
    }
    assert(xs_m.take(i) =~= xs_m);
    assert(ys_m.take(i) =~= ys_m);
    let x = xs.done();
    let y = ys.done();
    o.put("cdf_x", x, Ghost(JsonModel::Array(xs_m)));
    o.put("cdf_y", y, Ghost(JsonModel::Array(ys_m)));
}

fn put_latency_fields<'a>(o: &mut ObjectOut<'a>, s: &Vec<u64>)
    requires
        old(o).wf(),
        s@.len() <= 0x1000_0000_0000_0000,
    ensures
        final(o).wf(),
        final(o).model@ == old(o).model@ + latency_fields(s@),
{
    let ghost was = o.model@;
    let n: usize = s.len();
    o.put_count("e2e_count", n as u64);
    put_ms_r5(o, "p50", pct(s, 500));
    put_ms_r5(o, "p90", pct(s, 900));
    put_ms_r5(o, "p99", pct(s, 990));
    put_ms_r5(o, "p999", pct(s, 999));
    put_ms_r5(o, "min", pct(s, 0));
    put_ms(o, "max", last_or_zero(s));
    let mean: u128 = if n == 0 {
        0
    } else {
        let total: u128 = sum(s);
        round_half_up(total, n as u128 * 10)
    };
    o.put_ratio("mean", mean, 100_000);
    if n == 0 {
        o.put("cold_start_e2e_ms", JsonOut::Null, Ghost(JsonModel::Null));
    } else {
        put_ms_r5(o, "cold_start_e2e_ms", pct(s, 0));
    }
    put_histogram(o, s);
    put_points(o, s);
    assert(o.model@ =~= was + latency_fields(s@));
}

fn put_names<'a>(o: &mut ObjectOut<'a>, stages: &Vec<String>)
    requires
        old(o).wf(),
    ensures
        final(o).wf(),
        final(o).model@ == old(o).model@.push(
            ("stage_names"@, JsonModel::Array(text_items(owned_views(stages@)))),
        ).push(
            (
                "dispatcher_names"@,
                JsonModel::Array(text_items(dispatchers(owned_views(stages@)))),
            ),
        ),
{
    let ghost names = text_items(owned_views(stages@));
    let ghost others = text_items(dispatchers(owned_views(stages@)));
    let mut a = ArrayOut::new();
    let mut b = ArrayOut::new();
    let mut i: usize = 0;
    assert(names.take(0) =~= Seq::<JsonModel>::empty());
    assert(others.take(0) =~= Seq::<JsonModel>::empty());
    while i < stages.len()
        invariant
            i <= stages@.len(),
            names == text_items(owned_views(stages@)),
            others == text_items(dispatchers(owned_views(stages@))),
            a.wf(),
            a.model@ == names.take(i as int),
            b.wf(),
            b.model@ == others.take(i as int),
        decreases stages@.len() - i,
    {
        assert(owned_views(stages@)[i as int] == stages@[i as int]@);
        a.push_text(stages[i].as_str());
        let d = dispatcher_name(stages[i].as_str());
        b.push_text(d.as_str());
        assert(names.take(i + 1) =~= names.take(i as int).push(names[i as int]));
        assert(others.take(i + 1) =~= others.take(i as int).push(others[i as int]));
        i = i + 1;
    }
    assert(names.take(i as int) =~= names);
    assert(others.take(i as int) =~= others);
    let x = a.done();
    let y = b.done();
    o.put("stage_names", x, Ghost(JsonModel::Array(names)));
    o.put("dispatcher_names", y, Ghost(JsonModel::Array(others)));
}

fn put_second_fields<'a>(o: &mut ObjectOut<'a>, t: &RunTelemetry, time: &RunTime)
    requires
        old(o).wf(),
    ensures
        final(o).wf(),
        final(o).model@ == old(o).model@ + second_fields(*t, *time),
{
    let ghost was = o.model@;
    let seconds = &t.recv_per_second;
    let start: u64 = time.start_ns / NANOS;
    let ghost labels = second_labels(seconds@, time.start_ns);
    let ghost counts = second_counts(seconds@);
    let mut a = ArrayOut::new();
    let mut b = ArrayOut::new();
    let mut i: usize = 0;
    assert(labels.take(0) =~= Seq::<JsonModel>::empty());
    assert(counts.take(0) =~= Seq::<JsonModel>::empty());
    while i < seconds.len()
        invariant
            i <= seconds@.len(),
            start == time.start_ns / NANOS,
            labels == second_labels(seconds@, time.start_ns),
            counts == second_counts(seconds@),
            a.wf(),
            a.model@ == labels.take(i as int),
            b.wf(),
            b.model@ == counts.take(i as int),
        decreases seconds@.len() - i,
    {
        let e = seconds[i];
        let label: u64 = if e.0 < start {
            0
        } else {
            e.0 - start
        };
        a.push_count(label);
        b.push_count(e.1);
        assert(labels.take(i + 1) =~= labels.take(i as int).push(labels[i as int]));
        assert(counts.take(i + 1) =~= counts.take(i as int).push(counts[i as int]));
        i = i + 1;
    }
    assert(labels.take(i as int) =~= labels);
    assert(counts.take(i as int) =~= counts);
    let x = a.done();
    let y = b.done();
    o.put("lat_ts_labels", x, Ghost(JsonModel::Array(labels)));
    o.put("recv_per_second", y, Ghost(JsonModel::Array(counts)));
    put_no_items(o, "lat_ts_p50");
    put_no_items(o, "lat_ts_p99");
    let hops = t.per_stage.len() > 0;
    o.put("has_bench_hops", JsonOut::Bool(hops), Ghost(JsonModel::Bool(hops)));
    put_no_items(o, "cold_start_data");
    put_no_items(o, "cold_start_list");
    let none = ObjectOut::new().done();
    o.put("cold_start_milestones", none, Ghost(JsonModel::Object(Seq::empty())));
    assert(o.model@ =~= was + second_fields(*t, *time));
}

fn put_no_items<'a>(o: &mut ObjectOut<'a>, name: &str)
    requires
        old(o).wf(),
    ensures
        final(o).wf(),
        final(o).model@ == old(o).model@.push((name@, JsonModel::Array(Seq::empty()))),
{
    let none = ArrayOut::new().done();
    o.put(name, none, Ghost(JsonModel::Array(Seq::empty())));
}

fn put_blocks<'a>(
    o: &mut ObjectOut<'a>,
    run_config: JsonOut<'a>,
    env: &EnvironmentInfo,
    t: &RunTelemetry,
    time: &RunTime,
    stages: &Vec<String>,
    e2e: &Vec<u64>,
)
    requires
        old(o).wf(),
        t.wf(),
        fits_memory(*t),
        e2e@ == in_order(t.e2e_ns@),
        e2e@.len() == t.e2e_ns@.len(),
    ensures
        final(o).wf(),
        final(o).model@ == old(o).model@ + report_blocks(
            meaning(run_config),
            *env,
            *t,
            *time,
            owned_views(stages@),
        ),
{
    let ghost was = o.model@;
    let ghost per_stage = series_of(t.per_stage@);
    let ghost names = owned_views(stages@);
    let n: u64 = e2e.len() as u64;
    let ghost config = meaning(run_config);
    proof {
        law_values_have_a_meaning(run_config);
    }
    o.put("run_config", run_config, Ghost(config));
    let environment = build_environment_block(env);
    o.put("environment", environment, Ghost(environment_block(*env)));
    let counters = counters_out(n, &t.per_stage);
    o.put("counters", counters, Ghost(counters_block(n as nat, per_stage)));
    let throughput = throughput_out(
        n,
        &t.recv_per_second,
        &t.per_stage,
        time.start_ns,
        time.duration_ns,
    );
    o.put(
        "throughput",
        throughput,
        Ghost(
            throughput_block(
                n as nat,
                t.recv_per_second@,
                per_stage,
                time.start_ns as nat,
                time.duration_ns as nat,
            ),
        ),
    );
    let latency = latency_out(e2e, &t.per_stage);
    o.put("latency_ms", latency, Ghost(latency_block(e2e@, per_stage)));
    let inter = build_inter_stage_block(&t.per_event_log);
    o.put("inter_stage", inter, Ghost(inter_stage_block(t.per_event_log@)));
    let ingress = build_ingress_wait_block(&t.ingress_wait_ns, stages);
    o.put("ingress_wait", ingress, Ghost(ingress_block(t.ingress_wait_ns@, names)));
    let scaling = build_scaling_block(&t.scaling_events, stages);
    o.put("scaling", scaling, Ghost(scaling_block(t.scaling_events@, names)));
    let resources = resources_out(&t.resource_samples);
    o.put("resources", resources, Ghost(resources_block(t.resource_samples@)));
    let events = events_out(&t.per_event_log);
    o.put("events", events, Ghost(events_block(t.per_event_log@)));
    let timing = build_worker_timing_block(&t.total_ns_samples, &t.serde_ns_samples, &t.per_stage);
    o.put(
        "worker_timing",
        timing,
        Ghost(
            timing_block(
                series_of(t.total_ns_samples@),
                series_of(t.serde_ns_samples@),
                per_stage,
            ),
        ),
    );
    let replicas = build_per_replica_block(&t.per_replica);
    o.put("per_replica", replicas, Ghost(replica_block(series_of(t.per_replica@))));
    let queues = queue_out(&t.queue_depth_samples);
    o.put("queue_depth", queues, Ghost(queue_block(t.queue_depth_samples@)));
    assert(o.model@ =~= was + report_blocks(config, *env, *t, *time, names));
}

/// Puts together the report of a run.
pub fn build_summary<'a>(
    run_config: JsonOut<'a>,
    env: &EnvironmentInfo,
    t: &RunTelemetry,
    time: &RunTime,
    stages: &Vec<String>,
) -> (j: JsonOut<'a>)
    requires
        t.wf(),
        fits_memory(*t),
    ensures
        shows(j, summary(meaning(run_config), *env, *t, *time, owned_views(stages@))),
{
    let ghost names = owned_views(stages@);
    let e2e = sorted(&t.e2e_ns);
    proof {
        law_ordered(t.e2e_ns@);
    }
    let ghost blocks = report_blocks(meaning(run_config), *env, *t, *time, names);
    let mut o = ObjectOut::new();
    put_blocks(&mut o, run_config, env, t, time, stages, &e2e);
    assert(o.model@ =~= blocks);
    put_names(&mut o, stages);
    o.put_ratio("test_start_wall", time.start_ns as u128, NANOS as u128);
    let tenths: u128 = round_half_up(time.duration_ns as u128, 100_000_000);
    o.put_ratio("duration", tenths, 10);
    assert(o.model@ =~= blocks + run_fields(names, *time));
    put_latency_fields(&mut o, &e2e);
    put_second_fields(&mut o, t, time);
    o.done()
}

/// A count that may not be there.
pub open spec fn opt_count(n: Option<u32>) -> JsonModel {
    match n {
        Some(k) => JsonModel::Count(k as nat),
        None => JsonModel::Null,
    }
}

/// A text that may not be there.
pub open spec fn opt_text(t: Option<String>) -> JsonModel {
    match t {
        Some(s) => JsonModel::Text(s@),
        None => JsonModel::Null,
    }
}

/// How a stage was run, in the report.
pub open spec fn stage_run_json(r: StageRun) -> JsonModel {
    JsonModel::Object(
        seq![
            ("stage"@, JsonModel::Text(r.stage@)),
            ("credit_window"@, JsonModel::Count(r.credit_window as nat)),
            ("batch_events"@, JsonModel::Count(r.batch_events as nat)),
            ("min_replicas"@, JsonModel::Count(r.min_replicas as nat)),
            ("max_replicas"@, JsonModel::Count(r.max_replicas as nat)),
            ("push_uri"@, opt_text(r.push_uri)),
        ],
    )
}

/// How the pipeline was run, in the report.
pub open spec fn run_config_json(r: RunConfig) -> JsonModel {
    JsonModel::Object(
        seq![
            ("credit_window"@, opt_count(r.credit_window)),
            ("stages"@, JsonModel::Array(r.stages@.map_values(|s: StageRun| stage_run_json(s)))),
        ],
    )
}

fn stage_run_out<'a>(r: &StageRun) -> (j: JsonOut<'a>)
    ensures
        shows(j, stage_run_json(*r)),
{
    let mut o = ObjectOut::new();
    o.put_text("stage", r.stage.as_str());
    o.put_count("credit_window", r.credit_window as u64);
    o.put_count("batch_events", r.batch_events as u64);
    o.put_count("min_replicas", r.min_replicas as u64);
    o.put_count("max_replicas", r.max_replicas as u64);
    match &r.push_uri {
        Some(u) => o.put_text("push_uri", u.as_str()),
        None => o.put("push_uri", JsonOut::Null, Ghost(JsonModel::Null)),
    }
    o.done()
}

/// Reports how the pipeline was run.
pub fn run_config_out<'a>(r: &RunConfig) -> (j: JsonOut<'a>)
    ensures
        shows(j, run_config_json(*r)),
{
    let ghost all = r.stages@.map_values(|s: StageRun| stage_run_json(s));
    let mut a = ArrayOut::new();
    let mut i: usize = 0;
    assert(all.take(0) =~= Seq::<JsonModel>::empty());
    while i < r.stages.len()
        invariant
            i <= r.stages@.len(),
            all == r.stages@.map_values(|s: StageRun| stage_run_json(s)),
            a.wf(),
            a.model@ == all.take(i as int),
        decreases r.stages@.len() - i,
    {
        let one = stage_run_out(&r.stages[i]);
        a.push(one, Ghost(stage_run_json(r.stages@[i as int])));
        assert(all.take(i + 1) =~= all.take(i as int).push(all[i as int]));
        i = i + 1;
    }
    assert(all.take(i as int) =~= all);
    let list = a.done();
    let mut o = ObjectOut::new();
    match r.credit_window {
        Some(k) => o.put_count("credit_window", k as u64),
        None => o.put("credit_window", JsonOut::Null, Ghost(JsonModel::Null)),
    }
    o.put("stages", list, Ghost(JsonModel::Array(all)));
    o.done()
}

} // verus!
