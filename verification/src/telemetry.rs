//! What a run measures: every finished event is accounted for once, and some of
//! them are kept whole. Times are in nanoseconds.

use vstd::prelude::*;
use crate::fold::HopTime;
use crate::text::{before, chars_of, same, text_before};

verus! {

/// The most events that are kept whole.
pub const EVENTS_LIVE_CAP: usize = 200_000;

/// One second, in nanoseconds.
pub const NANOS: u64 = 1_000_000_000;

/// Measurements under a name, in the order they came.
#[derive(Debug)]
pub struct Series {
    pub name: String,
    pub values: Vec<u64>,
}

/// Measurements by name, for contracts.
pub type SeriesModel = Seq<(Seq<char>, Seq<u64>)>;

pub open spec fn series_of(v: Seq<Series>) -> SeriesModel {
    v.map_values(|s: Series| (s.name@, s.values@))
}

/// The first series of that name is at `i`.
pub open spec fn is_series_at<T>(m: Seq<(Seq<char>, Seq<T>)>, name: Seq<char>, i: int) -> bool {
    &&& 0 <= i < m.len()
    &&& m[i].0 == name
    &&& forall|k: int| 0 <= k < i ==> (#[trigger] m[k]).0 != name
}

/// A measurement added under a name.
pub open spec fn added<T>(m: Seq<(Seq<char>, Seq<T>)>, name: Seq<char>, v: T) -> Seq<
    (Seq<char>, Seq<T>),
> {
    if exists|i: int| is_series_at(m, name, i) {
        let i = choose|i: int| is_series_at(m, name, i);
        m.update(i, (name, m[i].1.push(v)))
    } else {
        m.push((name, seq![v]))
    }
}

/// How many measurements there are under all names together.
pub open spec fn measured(m: SeriesModel) -> nat
    decreases m.len(),
{
    if m.len() == 0 {
        0
    } else {
        measured(m.drop_last()) + m.last().1.len()
    }
}

proof fn lemma_measured_update(m: SeriesModel, i: int, e: (Seq<char>, Seq<u64>))
    requires
        0 <= i < m.len(),
    ensures
        measured(m.update(i, e)) == measured(m) - m[i].1.len() + e.1.len(),
    decreases m.len(),
{
    if i == m.len() - 1 {
        assert(m.update(i, e).drop_last() =~= m.drop_last());
    } else {
        lemma_measured_update(m.drop_last(), i, e);
        assert(m.update(i, e).drop_last() =~= m.drop_last().update(i, e));
    }
}

/// Law: a measurement is added once, under one name.
pub proof fn law_adding_adds_one(m: SeriesModel, name: Seq<char>, v: u64)
    ensures
        measured(added(m, name, v)) == measured(m) + 1,
{
    if exists|i: int| is_series_at(m, name, i) {
        let i = choose|i: int| is_series_at(m, name, i);
        lemma_measured_update(m, i, (name, m[i].1.push(v)));
    } else {
        assert(m.push((name, seq![v])).drop_last() =~= m);
    }
}

fn add_to(series: &mut Vec<Series>, name: &str, v: u64)
    ensures
        series_of(final(series)@) == added(series_of(old(series)@), name@, v),
{
    let ghost m = series_of(series@);
    let mut i: usize = 0;
    while i < series.len()
        invariant
            i <= series@.len(),
            *series == *old(series),
            m == series_of(series@),
            forall|k: int| 0 <= k < i ==> (#[trigger] m[k]).0 != name@,
        decreases series@.len() - i,
    {
        assert(m[i as int].0 == series@[i as int].name@);
        if same(series[i].name.as_str(), name) {
            proof {
                assert(is_series_at(m, name@, i as int));
                let c = choose|c: int| is_series_at(m, name@, c);
                assert(is_series_at(m, name@, c));
                assert(c == i);
            }
            series[i].values.push(v);
            assert(series_of(series@) =~= m.update(i as int, (name@, m[i as int].1.push(v))));
            return ;
        }
        i = i + 1;
    }
    let one = vec![v];
    assert(one@ =~= seq![v]);
    series.push(Series { name: name.to_owned(), values: one });
    assert(series_of(series@) =~= m.push((name@, seq![v])));
}

/// One more event in a second; the seconds are in order.
pub open spec fn bumped(s: Seq<(u64, u64)>, second: u64) -> Seq<(u64, u64)>
    decreases s.len(),
{
    if s.len() == 0 {
        seq![(second, 1)]
    } else if s.last().0 == second {
        s.drop_last().push((second, (s.last().1 + 1) as u64))
    } else if s.last().0 < second {
        s.push((second, 1))
    } else {
        bumped(s.drop_last(), second).push(s.last())
    }
}

/// How many events there were in all seconds together.
pub open spec fn total_of(s: Seq<(u64, u64)>) -> nat
    decreases s.len(),
{
    if s.len() == 0 {
        0
    } else {
        total_of(s.drop_last()) + s.last().1 as nat
    }
}

proof fn lemma_total_bound(s: Seq<(u64, u64)>, i: int)
    requires
        0 <= i < s.len(),
    ensures
        s[i].1 <= total_of(s),
    decreases s.len(),
{
    if i < s.len() - 1 {
        lemma_total_bound(s.drop_last(), i);
    }
}

/// Law: an event is counted in one second, once.
pub proof fn law_bumping_adds_one(s: Seq<(u64, u64)>, second: u64)
    requires
        total_of(s) < u64::MAX,
    ensures
        total_of(bumped(s, second)) == total_of(s) + 1,
    decreases s.len(),
{
    if s.len() == 0 {
        assert(bumped(s, second).drop_last() =~= Seq::<(u64, u64)>::empty());
        assert(total_of(Seq::<(u64, u64)>::empty()) == 0);
    } else if s.last().0 == second {
        assert(bumped(s, second).drop_last() =~= s.drop_last());
    } else if s.last().0 < second {
        assert(bumped(s, second).drop_last() =~= s);
    } else {
        law_bumping_adds_one(s.drop_last(), second);
        assert(bumped(s, second).drop_last() =~= bumped(s.drop_last(), second));
    }
}

proof fn lemma_bumped_at(s: Seq<(u64, u64)>, second: u64, at: int)
    requires
        0 <= at <= s.len(),
        forall|k: int| at <= k < s.len() ==> (#[trigger] s[k]).0 > second,
        at > 0 ==> s[at - 1].0 <= second,
    ensures
        at > 0 && s[at - 1].0 == second ==> bumped(s, second) == s.update(
            at - 1,
            (second, (s[at - 1].1 + 1) as u64),
        ),
        !(at > 0 && s[at - 1].0 == second) ==> bumped(s, second) == s.insert(at, (second, 1u64)),
    decreases s.len(),
{
    if at == s.len() {
        if at > 0 && s[at - 1].0 == second {
            assert(s.drop_last().push((second, (s.last().1 + 1) as u64)) =~= s.update(
                at - 1,
                (second, (s[at - 1].1 + 1) as u64),
            ));
        } else {
            assert(s.insert(at, (second, 1u64)) =~= s.push((second, 1u64)));
            if s.len() == 0 {
                assert(seq![(second, 1u64)] =~= s.push((second, 1u64)));
            }
        }
    } else {
        assert(s[s.len() - 1].0 > second);
        let rest = s.drop_last();
        assert forall|k: int| at <= k < rest.len() implies (#[trigger] rest[k]).0 > second by {
            assert(rest[k] == s[k]);
        }
        lemma_bumped_at(rest, second, at);
        if at > 0 && s[at - 1].0 == second {
            assert(bumped(s, second) =~= s.update(at - 1, (second, (s[at - 1].1 + 1) as u64)));
        } else {
            assert(bumped(s, second) =~= s.insert(at, (second, 1u64)));
        }
    }
}

fn bump(seconds: &mut Vec<(u64, u64)>, second: u64)
    requires
        total_of(old(seconds)@) < u64::MAX,
    ensures
        final(seconds)@ == bumped(old(seconds)@, second),
{
    let ghost s = seconds@;
    let mut at: usize = seconds.len();
    while at > 0 && seconds[at - 1].0 > second
        invariant
            at <= seconds@.len(),
            s == seconds@,
            forall|k: int| at <= k < s.len() ==> (#[trigger] s[k]).0 > second,
        decreases at,
    {
        at = at - 1;
    }
    proof {
        lemma_bumped_at(s, second, at as int);
    }
    if at > 0 && seconds[at - 1].0 == second {
        proof {
            lemma_total_bound(s, at - 1);
        }
        let n: u64 = seconds[at - 1].1 + 1;
        seconds[at - 1] = (second, n);
        assert(seconds@ =~= s.update(at - 1, (second, n)));
    } else {
        seconds.insert(at, (second, 1));
    }
}

/// An event that is kept whole.
#[derive(Debug)]
pub struct EventRow {
    /// When it came, from the start of the run; negative where it came before.
    pub recv_ns: i64,
    pub e2e_ns: u64,
    pub hops: Vec<HopTime>,
}

/// A point of the processor and memory use of the agent.
#[derive(Clone, Copy, Debug, PartialEq, Eq, Structural)]
pub struct ResourceSample {
    pub t_ns: u64,
    /// Hundredths of a percent of the processors there are.
    pub cpu_centi: u64,
    pub rss_bytes: u64,
}

/// A change in the number of a stage's replicas.
#[derive(Debug)]
pub struct ScalingEvent {
    pub t_ns: u64,
    pub stage: String,
    /// `cold_start`, `spawn`, `drain`, or what else happened.
    pub action: String,
    pub new_count: usize,
    pub cold_start_ns: Option<u64>,
    pub compile_ns: Option<u64>,
    pub instantiate_pre_ns: Option<u64>,
}

/// Depths of a stage's queue, each with when it was read.
#[derive(Debug)]
pub struct DepthSeries {
    pub stage: String,
    pub samples: Vec<(u64, u64)>,
}

/// Queue depths by stage.
pub open spec fn depths_of(v: Seq<DepthSeries>) -> Seq<(Seq<char>, Seq<(u64, u64)>)> {
    v.map_values(|d: DepthSeries| (d.stage@, d.samples@))
}

fn add_depth(series: &mut Vec<DepthSeries>, stage: &str, sample: (u64, u64))
    ensures
        depths_of(final(series)@) == added(depths_of(old(series)@), stage@, sample),
{
    let ghost m = depths_of(series@);
    let mut i: usize = 0;
    while i < series.len()
        invariant
            i <= series@.len(),
            *series == *old(series),
            m == depths_of(series@),
            forall|k: int| 0 <= k < i ==> (#[trigger] m[k]).0 != stage@,
        decreases series@.len() - i,
    {
        assert(m[i as int].0 == series@[i as int].stage@);
        if same(series[i].stage.as_str(), stage) {
            proof {
                assert(is_series_at(m, stage@, i as int));
                let c = choose|c: int| is_series_at(m, stage@, c);
                assert(is_series_at(m, stage@, c));
                assert(c == i);
            }
            series[i].samples.push(sample);
            assert(depths_of(series@) =~= m.update(
                i as int,
                (stage@, m[i as int].1.push(sample)),
            ));
            return ;
        }
        i = i + 1;
    }
    let one = vec![sample];
    assert(one@ =~= seq![sample]);
    series.push(DepthSeries { stage: stage.to_owned(), samples: one });
    assert(depths_of(series@) =~= m.push((stage@, seq![sample])));
}

/// Some measurements added under a name, one after the other.
pub open spec fn all_added(m: SeriesModel, name: Seq<char>, values: Seq<u64>) -> SeriesModel
    decreases values.len(),
{
    if values.len() == 0 {
        m
    } else {
        added(all_added(m, name, values.drop_last()), name, values.last())
    }
}

/// How long the workers took in all.
pub open spec fn totals(samples: Seq<(u64, u64)>) -> Seq<u64> {
    samples.map_values(|p: (u64, u64)| p.0)
}

/// How long the workers took to read and write events.
pub open spec fn serde_times(samples: Seq<(u64, u64)>) -> Seq<u64> {
    samples.map_values(|p: (u64, u64)| p.1)
}

/// The changes, with the time that the replica of one of them took to start.
pub open spec fn with_cold_start(events: Seq<ScalingEvent>, at: int, ns: u64) -> Seq<ScalingEvent> {
    if 0 <= at < events.len() {
        events.update(at, ScalingEvent { cold_start_ns: Some(ns), ..events[at] })
    } else {
        events
    }
}

/// What a run has measured.
#[derive(Debug)]
pub struct RunTelemetry {
    pub e2e_ns: Vec<u64>,
    pub ingress_wait_ns: Vec<u64>,
    pub recv_per_second: Vec<(u64, u64)>,
    pub per_stage: Vec<Series>,
    pub per_replica: Vec<Series>,
    pub scaling_events: Vec<ScalingEvent>,
    pub per_event_log: Vec<EventRow>,
    pub resource_samples: Vec<ResourceSample>,
    pub total_ns_samples: Vec<Series>,
    pub serde_ns_samples: Vec<Series>,
    pub queue_depth_samples: Vec<DepthSeries>,
}

impl RunTelemetry {
    /// Every event that is accounted for is counted in one second, and as many
    /// are kept whole as there is room for.
    pub open spec fn wf(&self) -> bool {
        &&& total_of(self.recv_per_second@) == self.e2e_ns@.len()
        &&& self.per_event_log@.len() == (if self.e2e_ns@.len() < EVENTS_LIVE_CAP {
            self.e2e_ns@.len()
        } else {
            EVENTS_LIVE_CAP as nat
        })
    }

    /// Nothing is measured yet.
    pub open spec fn is_blank(&self) -> bool {
        &&& self.e2e_ns@.len() == 0
        &&& self.ingress_wait_ns@.len() == 0
        &&& self.recv_per_second@.len() == 0
        &&& self.per_stage@.len() == 0
        &&& self.per_replica@.len() == 0
        &&& self.scaling_events@.len() == 0
        &&& self.per_event_log@.len() == 0
        &&& self.resource_samples@.len() == 0
        &&& self.total_ns_samples@.len() == 0
        &&& self.serde_ns_samples@.len() == 0
        &&& self.queue_depth_samples@.len() == 0
    }

    pub fn new() -> (t: RunTelemetry)
        ensures
            t.wf(),
            t.is_blank(),
    {
        RunTelemetry {
            e2e_ns: Vec::new(),
            ingress_wait_ns: Vec::new(),
            recv_per_second: Vec::new(),
            per_stage: Vec::new(),
            per_replica: Vec::new(),
            scaling_events: Vec::new(),
            per_event_log: Vec::new(),
            resource_samples: Vec::new(),
            total_ns_samples: Vec::new(),
            serde_ns_samples: Vec::new(),
            queue_depth_samples: Vec::new(),
        }
    }

    /// Notes a change in the number of a stage's replicas.
    pub fn record_event(&mut self, event: ScalingEvent)
        ensures
            final(self).scaling_events@ == old(self).scaling_events@.push(event),
            *final(self) == (RunTelemetry { scaling_events: final(self).scaling_events, ..*old(self) }),
    {
        self.scaling_events.push(event);
    }

    /// Notes how deep a stage's queue is.
    pub fn sample_depth(&mut self, stage: &str, t_ns: u64, depth: u64)
        ensures
            depths_of(final(self).queue_depth_samples@) == added(
                depths_of(old(self).queue_depth_samples@),
                stage@,
                (t_ns, depth),
            ),
            *final(self) == (RunTelemetry {
                queue_depth_samples: final(self).queue_depth_samples,
                ..*old(self)
            }),
    {
        add_depth(&mut self.queue_depth_samples, stage, (t_ns, depth));
    }

    /// Takes in what the workers of a stage told of their times. `pending` is the
    /// change whose replica has not told yet how long it took to start, `cold_ns`
    /// that time, where one told it; the result is what `pending` is then. Where
    /// no worker told its times, nothing is taken in.
    pub fn absorb_metrics(
        &mut self,
        stage: &str,
        samples: &Vec<(u64, u64)>,
        cold_ns: Option<u64>,
        pending: Option<usize>,
    ) -> (left: Option<usize>)
        ensures
            samples@.len() == 0 ==> *final(self) == *old(self) && left == pending,
            samples@.len() > 0 ==> {
                &&& series_of(final(self).total_ns_samples@) == all_added(
                    series_of(old(self).total_ns_samples@),
                    stage@,
                    totals(samples@),
                )
                &&& series_of(final(self).serde_ns_samples@) == all_added(
                    series_of(old(self).serde_ns_samples@),
                    stage@,
                    serde_times(samples@),
                )
                &&& match (pending, cold_ns) {
                    (Some(at), Some(ns)) => {
                        &&& final(self).scaling_events@ == with_cold_start(
                            old(self).scaling_events@,
                            at as int,
                            ns,
                        )
                        &&& left is None
                    },
                    _ => final(self).scaling_events == old(self).scaling_events && left == pending,
                }
                &&& *final(self) == (RunTelemetry {
                    total_ns_samples: final(self).total_ns_samples,
                    serde_ns_samples: final(self).serde_ns_samples,
                    scaling_events: final(self).scaling_events,
                    ..*old(self)
                })
            },
    {
        if samples.len() == 0 {
            return pending;
        }
        let ghost t = series_of(self.total_ns_samples@);
        let ghost s = series_of(self.serde_ns_samples@);
        let ghost ts = totals(samples@);
        let ghost ss = serde_times(samples@);
        let mut i: usize = 0;
        assert(ts.take(0) =~= Seq::<u64>::empty());
        assert(ss.take(0) =~= Seq::<u64>::empty());
        while i < samples.len()
            invariant
                i <= samples@.len(),
                ts == totals(samples@),
                ss == serde_times(samples@),
                series_of(self.total_ns_samples@) == all_added(t, stage@, ts.take(i as int)),
                series_of(self.serde_ns_samples@) == all_added(s, stage@, ss.take(i as int)),
                *self == (RunTelemetry {
                    total_ns_samples: self.total_ns_samples,
                    serde_ns_samples: self.serde_ns_samples,
                    ..*old(self)
                }),
            decreases samples@.len() - i,
        {
            assert(ts.take(i + 1).drop_last() =~= ts.take(i as int));
            assert(ss.take(i + 1).drop_last() =~= ss.take(i as int));
            add_to(&mut self.total_ns_samples, stage, samples[i].0);
            add_to(&mut self.serde_ns_samples, stage, samples[i].1);
            i = i + 1;
        }
        assert(ts.take(i as int) =~= ts);
        assert(ss.take(i as int) =~= ss);
        match (pending, cold_ns) {
            (Some(at), Some(ns)) => {
                if at < self.scaling_events.len() {
                    let ghost was = self.scaling_events@;
                    self.scaling_events[at].cold_start_ns = Some(ns);
                    assert(self.scaling_events@ =~= with_cold_start(was, at as int, ns));
                }
                None
            },
            _ => pending,
        }
    }
}

/// The hops of which both times are known.
pub open spec fn known_hops(hops: Seq<(String, Option<u64>, Option<u64>)>) -> Seq<HopTime>
    decreases hops.len(),
{
    if hops.len() == 0 {
        Seq::empty()
    } else {
        match hops.last() {
            (label, Some(enter_ns), Some(exit_ns)) => known_hops(hops.drop_last()).push(
                HopTime { label, enter_ns, exit_ns },
            ),
            _ => known_hops(hops.drop_last()),
        }
    }
}

/// Leaves out the hops of which a time is not known.
pub fn timed_hops(hops: Vec<(String, Option<u64>, Option<u64>)>) -> (out: Vec<HopTime>)
    ensures
        out@ == known_hops(hops@),
{
    let ghost all = hops@;
    let mut out: Vec<HopTime> = Vec::new();
    assert(all.take(0) =~= Seq::<(String, Option<u64>, Option<u64>)>::empty());
    for h in it: hops
        invariant
            it.seq() == all,
            out@ == known_hops(all.take(it.index() as int)),
    {
        let ghost i = it.index() as int;
        assert(all.take(i + 1).drop_last() =~= all.take(i));
        let (label, enter, exit) = h;
        if let (Some(enter_ns), Some(exit_ns)) = (enter, exit) {
            out.push(HopTime { label, enter_ns, exit_ns });
        }
    }
    assert(all.take(all.len() as int) =~= all);
    out
}

/// The hops that went forward in time.
pub open spec fn forward_hops(hops: Seq<HopTime>) -> Seq<HopTime>
    decreases hops.len(),
{
    if hops.len() == 0 {
        Seq::empty()
    } else if hops.last().exit_ns >= hops.last().enter_ns {
        forward_hops(hops.drop_last()).push(hops.last())
    } else {
        forward_hops(hops.drop_last())
    }
}

/// How long the hops took, by stage.
pub open spec fn stage_times(m: SeriesModel, hops: Seq<HopTime>) -> SeriesModel
    decreases hops.len(),
{
    if hops.len() == 0 {
        m
    } else {
        let h = hops.last();
        added(
            stage_times(m, hops.drop_last()),
            before(h.label@, '#'),
            (h.exit_ns - h.enter_ns) as u64,
        )
    }
}

/// How long the hops took, by replica: hops that name none are passed over.
pub open spec fn replica_times(m: SeriesModel, hops: Seq<HopTime>) -> SeriesModel
    decreases hops.len(),
{
    if hops.len() == 0 {
        m
    } else {
        let h = hops.last();
        let rest = replica_times(m, hops.drop_last());
        if h.label@.contains('#') {
            added(rest, h.label@, (h.exit_ns - h.enter_ns) as u64)
        } else {
            rest
        }
    }
}

/// The event counts: it left before it arrived.
pub open spec fn is_usable(recv_ns: u64, sent_ns: Option<u64>) -> bool {
    sent_ns is Some && recv_ns > sent_ns->0
}

/// How long the event waited before its first stage took it, where that is
/// known.
pub open spec fn waits(sent_ns: u64, hops: Seq<HopTime>) -> Seq<u64> {
    if hops.len() > 0 && hops[0].enter_ns >= sent_ns {
        seq![(hops[0].enter_ns - sent_ns) as u64]
    } else {
        Seq::empty()
    }
}

/// The rows after one more event: it takes a free place, or, where there is
/// none, the place that was drawn, if that is one.
pub open spec fn kept_rows(rows: Seq<EventRow>, row: EventRow, draw: u64) -> Seq<EventRow> {
    if rows.len() < EVENTS_LIVE_CAP {
        rows.push(row)
    } else if draw < EVENTS_LIVE_CAP {
        rows.update(draw as int, row)
    } else {
        rows
    }
}

/// The row of an event.
pub open spec fn is_row_of(
    row: EventRow,
    recv_ns: u64,
    start_ns: u64,
    sent_ns: u64,
    hops: Seq<HopTime>,
) -> bool {
    &&& row.recv_ns == recv_ns - start_ns
    &&& row.e2e_ns == recv_ns - sent_ns
    &&& row.hops@ == forward_hops(hops)
}

/// What a run has measured after one more event.
pub open spec fn is_observed(
    now: RunTelemetry,
    was: RunTelemetry,
    recv_ns: u64,
    start_ns: u64,
    sent_ns: u64,
    hops: Seq<HopTime>,
    draw: u64,
) -> bool {
    let fwd = forward_hops(hops);
    &&& now.e2e_ns@ == was.e2e_ns@.push((recv_ns - sent_ns) as u64)
    &&& now.ingress_wait_ns@ == was.ingress_wait_ns@ + waits(sent_ns, fwd)
    &&& now.recv_per_second@ == bumped(was.recv_per_second@, recv_ns / NANOS)
    &&& series_of(now.per_stage@) == stage_times(series_of(was.per_stage@), fwd)
    &&& series_of(now.per_replica@) == replica_times(series_of(was.per_replica@), fwd)
    &&& exists|row: EventRow| #[trigger]
        is_row_of(row, recv_ns, start_ns, sent_ns, hops) && now.per_event_log@ == kept_rows(
            was.per_event_log@,
            row,
            draw,
        )
    &&& now.scaling_events == was.scaling_events
    &&& now.resource_samples == was.resource_samples
    &&& now.total_ns_samples == was.total_ns_samples
    &&& now.serde_ns_samples == was.serde_ns_samples
    &&& now.queue_depth_samples == was.queue_depth_samples
}

fn keep_forward(hops: Vec<HopTime>) -> (out: Vec<HopTime>)
    ensures
        out@ == forward_hops(hops@),
{
    let ghost all = hops@;
    let mut out: Vec<HopTime> = Vec::new();
    assert(all.take(0) =~= Seq::<HopTime>::empty());
    for h in it: hops
        invariant
            it.seq() == all,
            out@ == forward_hops(all.take(it.index() as int)),
    {
        let ghost i = it.index() as int;
        assert(all.take(i + 1).drop_last() =~= all.take(i));
        if h.exit_ns >= h.enter_ns {
            out.push(h);
        }
    }
    assert(all.take(all.len() as int) =~= all);
    out
}

fn has_mark(s: &str, mark: char) -> (b: bool)
    ensures
        b == s@.contains(mark),
{
    let chars = chars_of(s);
    let mut i: usize = 0;
    while i < chars.len()
        invariant
            i <= chars@.len(),
            chars@ == s@,
            forall|k: int| 0 <= k < i ==> s@[k] != mark,
        decreases chars@.len() - i,
    {
        if chars[i] == mark {
            assert(s@[i as int] == mark);
            return true;
        }
        i = i + 1;
    }
    false
}

/// `rand`'s `Rng::gen_range(0..n)` on the thread's generator: some number below
/// `n`. Which one is chance, and nothing else is claimed of it.
#[verifier::external_body]
fn draw_below(n: u64) -> (j: u64)
    requires
        n > 0,
    ensures
        j < n,
{
    rand::Rng::gen_range(&mut rand::thread_rng(), 0..n)
}

proof fn lemma_forward_all(hops: Seq<HopTime>, i: int)
    requires
        0 <= i < forward_hops(hops).len(),
    ensures
        forward_hops(hops)[i].exit_ns >= forward_hops(hops)[i].enter_ns,
    decreases hops.len(),
{
    if hops.last().exit_ns >= hops.last().enter_ns {
        if i < forward_hops(hops).len() - 1 {
            lemma_forward_all(hops.drop_last(), i);
        }
    } else {
        lemma_forward_all(hops.drop_last(), i);
    }
}

/// The accounting of the events that leave the pipeline.
#[derive(Debug)]
pub struct CollectorStats {
    pub local: RunTelemetry,
}

impl CollectorStats {
    pub fn new() -> (s: CollectorStats)
        ensures
            s.local.wf(),
            s.local.is_blank(),
    {
        CollectorStats { local: RunTelemetry::new() }
    }

    /// Accounts for a finished event, with the place that was drawn for it.
    /// Nothing happens where the event does not say when it was sent, or says
    /// that it was sent later than it came.
    #[verifier::rlimit(30)]
    pub fn observe_drawn(
        &mut self,
        recv_ns: u64,
        start_ns: u64,
        sent_ns: Option<u64>,
        hops: Vec<HopTime>,
        draw: u64,
    )
        requires
            old(self).local.wf(),
            recv_ns <= i64::MAX,
            start_ns <= i64::MAX,
        ensures
            final(self).local.wf(),
            is_usable(recv_ns, sent_ns) ==> is_observed(
                final(self).local,
                old(self).local,
                recv_ns,
                start_ns,
                sent_ns->0,
                hops@,
                draw,
            ),
            !is_usable(recv_ns, sent_ns) ==> *final(self) == *old(self),
    {
        let sent: u64 = match sent_ns {
            None => {
                return ;
            },
            Some(s) => s,
        };
        if recv_ns <= sent {
            return ;
        }
        let ghost was = self.local;
        let ghost given = hops@;
        let fwd = keep_forward(hops);
        let ghost f = fwd@;
        let e2e: u64 = recv_ns - sent;
        self.local.e2e_ns.push(e2e);
        if fwd.len() > 0 && fwd[0].enter_ns >= sent {
            self.local.ingress_wait_ns.push(fwd[0].enter_ns - sent);
            assert(self.local.ingress_wait_ns@ =~= was.ingress_wait_ns@ + waits(sent, f));
        } else {
            assert(self.local.ingress_wait_ns@ =~= was.ingress_wait_ns@ + waits(sent, f));
        }
        let n: usize = self.local.e2e_ns.len();
        assert(total_of(self.local.recv_per_second@) == n - 1);
        bump(&mut self.local.recv_per_second, recv_ns / NANOS);
        proof {
            law_bumping_adds_one(was.recv_per_second@, recv_ns / NANOS);
        }
        let mut i: usize = 0;
        assert(f.take(0) =~= Seq::<HopTime>::empty());
        while i < fwd.len()
            invariant
                i <= fwd@.len(),
                f == fwd@,
                f == forward_hops(given),
                self.local.e2e_ns@ == was.e2e_ns@.push(e2e),
                self.local.ingress_wait_ns@ == was.ingress_wait_ns@ + waits(sent, f),
                self.local.recv_per_second@ == bumped(was.recv_per_second@, recv_ns / NANOS),
                self.local.per_event_log == was.per_event_log,
                self.local.scaling_events == was.scaling_events,
                self.local.resource_samples == was.resource_samples,
                self.local.total_ns_samples == was.total_ns_samples,
                self.local.serde_ns_samples == was.serde_ns_samples,
                self.local.queue_depth_samples == was.queue_depth_samples,
                series_of(self.local.per_stage@) == stage_times(
                    series_of(was.per_stage@),
                    f.take(i as int),
                ),
                series_of(self.local.per_replica@) == replica_times(
                    series_of(was.per_replica@),
                    f.take(i as int),
                ),
            decreases fwd@.len() - i,
        {
            assert(f.take(i + 1).drop_last() =~= f.take(i as int));
            proof {
                lemma_forward_all(given, i as int);
            }
            let h = &fwd[i];
            let took: u64 = h.exit_ns - h.enter_ns;
            let base = text_before(h.label.as_str(), '#');
            add_to(&mut self.local.per_stage, base.as_str(), took);
            if has_mark(h.label.as_str(), '#') {
                add_to(&mut self.local.per_replica, h.label.as_str(), took);
            }
            i = i + 1;
        }
        assert(f.take(i as int) =~= f);
        let row = EventRow { recv_ns: recv_ns as i64 - start_ns as i64, e2e_ns: e2e, hops: fwd };
        assert(is_row_of(row, recv_ns, start_ns, sent, given));
        let ghost kept = kept_rows(was.per_event_log@, row, draw);
        if self.local.per_event_log.len() < EVENTS_LIVE_CAP {
            self.local.per_event_log.push(row);
        } else if draw < EVENTS_LIVE_CAP as u64 {
            self.local.per_event_log[draw as usize] = row;
            assert(self.local.per_event_log@ =~= kept);
        }
        assert(self.local.per_event_log@ == kept);
    }

    /// Accounts for a finished event. Once there is no room to keep all events
    /// whole, each new one takes the place of another by chance, so that those
    /// that are kept stand for the whole run.
    pub fn observe(
        &mut self,
        recv_ns: u64,
        start_ns: u64,
        sent_ns: Option<u64>,
        hops: Vec<HopTime>,
    )
        requires
            old(self).local.wf(),
            old(self).local.e2e_ns@.len() < u64::MAX,
            recv_ns <= i64::MAX,
            start_ns <= i64::MAX,
        ensures
            final(self).local.wf(),
            is_usable(recv_ns, sent_ns) ==> exists|draw: u64|
                draw <= old(self).local.e2e_ns@.len() && #[trigger] is_observed(
                    final(self).local,
                    old(self).local,
                    recv_ns,
                    start_ns,
                    sent_ns->0,
                    hops@,
                    draw,
                ),
            !is_usable(recv_ns, sent_ns) ==> *final(self) == *old(self),
    {
        let seen: u64 = self.local.e2e_ns.len() as u64 + 1;
        let draw: u64 = if self.local.per_event_log.len() < EVENTS_LIVE_CAP {
            0
        } else {
            draw_below(seen)
        };
        self.observe_drawn(recv_ns, start_ns, sent_ns, hops, draw);
    }

    /// Moves what was accounted for into the measurements of the run: the
    /// collector alone writes these.
    pub fn merge_into(self, tel: &mut RunTelemetry)
        requires
            self.local.wf(),
        ensures
            final(tel).wf(),
            *final(tel) == (RunTelemetry {
                scaling_events: old(tel).scaling_events,
                resource_samples: old(tel).resource_samples,
                total_ns_samples: old(tel).total_ns_samples,
                serde_ns_samples: old(tel).serde_ns_samples,
                queue_depth_samples: old(tel).queue_depth_samples,
                ..self.local
            }),
    {
        let local = self.local;
        tel.e2e_ns = local.e2e_ns;
        tel.ingress_wait_ns = local.ingress_wait_ns;
        tel.recv_per_second = local.recv_per_second;
        tel.per_stage = local.per_stage;
        tel.per_replica = local.per_replica;
        tel.per_event_log = local.per_event_log;
    }
}

} // verus!
