//! Per-stage worker timing: what the workers of a stage spend their time on,
//! accumulated by them and read by others at their own pace.

use vstd::prelude::*;
use crate::hist::{bucket_index, difference, empty_counts, hist_delta, Hist, HIST_BUCKETS};

verus! {

/// Bucket by bucket sum, modulo the counter width.
pub open spec fn added(a: Seq<u32>, b: Seq<u32>) -> Seq<u32> {
    Seq::new(HIST_BUCKETS as nat, |i: int| a[i].wrapping_add(b[i]))
}

/// A histogram that only ever grows, shared by every worker of a stage.
/// Readers take differences against what they read last, so that several of
/// them do not disturb each other.
#[derive(Clone, Copy, Debug)]
pub struct AtomicHist {
    counts: [u32; HIST_BUCKETS],
}

impl View for AtomicHist {
    type V = Seq<u32>;

    closed spec fn view(&self) -> Seq<u32> {
        self.counts@
    }
}

impl Default for AtomicHist {
    fn default() -> (h: AtomicHist)
        ensures
            h@ == empty_counts(),
    {
        AtomicHist { counts: [0u32;96] }
    }
}

impl AtomicHist {
    /// Folds a worker's own histogram in, touching only the buckets it filled.
    pub fn merge_from(&mut self, local: &Hist)
        ensures
            final(self)@ == added(old(self)@, local@),
    {
        let mut i: usize = 0;
        while i < HIST_BUCKETS
            invariant
                i <= HIST_BUCKETS,
                forall|k: int| 0 <= k < i ==> self@[k] == added(old(self)@, local@)[k],
                forall|k: int| i <= k < HIST_BUCKETS ==> self@[k] == old(self)@[k],
            decreases HIST_BUCKETS - i,
        {
            let more: u32 = local.counts[i];
            let ghost was = self@;
            if more != 0 {
                let count: u32 = self.counts[i];
                self.counts[i] = count.wrapping_add(more);
            }
            assert(self@ =~= was.update(i as int, self@[i as int]));
            assert(self@[i as int] == added(old(self)@, local@)[i as int]);
            i = i + 1;
        }
        assert(self@ =~= added(old(self)@, local@));
    }

    pub fn snapshot(&self) -> (h: Hist)
        ensures
            h@ == self@,
    {
        Hist { counts: self.counts }
    }
}

/// The timing of one stage, shared by every replica of it.
#[derive(Clone, Copy, Debug)]
pub struct StageTiming {
    /// Whole iterations: receive, decode, call, encode, send.
    pub total_ns: u64,
    /// Decoding and encoding only.
    pub serde_ns: u64,
    /// The calls into the stage's own code.
    pub wasm_ns: u64,
    /// The events that the sums above are over.
    pub events: u64,
    /// Cost of the call, per event. Kept as a distribution because decisions
    /// compare tails, which a mean would understate.
    pub wasm_hist: AtomicHist,
    /// Everything but the call, per event.
    pub overhead_hist: AtomicHist,
}

impl Default for StageTiming {
    fn default() -> (t: StageTiming)
        ensures
            t.total_ns == 0,
            t.serde_ns == 0,
            t.wasm_ns == 0,
            t.events == 0,
            t.wasm_hist@ == empty_counts(),
            t.overhead_hist@ == empty_counts(),
    {
        StageTiming {
            total_ns: 0,
            serde_ns: 0,
            wasm_ns: 0,
            events: 0,
            wasm_hist: AtomicHist::default(),
            overhead_hist: AtomicHist::default(),
        }
    }
}

/// How far a stage's counters have come, as a value.
pub struct TimingModel {
    pub total_ns: nat,
    pub serde_ns: nat,
    pub wasm_ns: nat,
    pub events: nat,
    pub wasm: Seq<u32>,
    pub overhead: Seq<u32>,
}

impl View for StageTiming {
    type V = TimingModel;

    open spec fn view(&self) -> TimingModel {
        TimingModel {
            total_ns: self.total_ns as nat,
            serde_ns: self.serde_ns as nat,
            wasm_ns: self.wasm_ns as nat,
            events: self.events as nat,
            wasm: self.wasm_hist@,
            overhead: self.overhead_hist@,
        }
    }
}

/// A worker's own accumulator, flushed into the shared timing from time to
/// time.
#[derive(Clone, Copy, Debug)]
pub struct TimingAccum {
    pub total_ns: u64,
    pub serde_ns: u64,
    pub wasm_ns: u64,
    pub events: u64,
    pub wasm: Hist,
    pub overhead: Hist,
}

/// What is left of `total` after `part` of it.
pub open spec fn left_over(total: nat, part: nat) -> nat {
    if total < part {
        0
    } else {
        (total - part) as nat
    }
}

/// The counts after one more observation of `us` microseconds.
pub open spec fn observed(counts: Seq<u32>, us: nat) -> Seq<u32> {
    counts.update(bucket_index(us) as int, (counts[bucket_index(us) as int] + 1) as u32)
}

impl Default for TimingAccum {
    fn default() -> (a: TimingAccum)
        ensures
            a.is_clear(),
    {
        TimingAccum {
            total_ns: 0,
            serde_ns: 0,
            wasm_ns: 0,
            events: 0,
            wasm: Hist::default(),
            overhead: Hist::default(),
        }
    }
}

impl TimingAccum {
    /// Nothing is accumulated.
    pub open spec fn is_clear(&self) -> bool {
        &&& self.total_ns == 0
        &&& self.serde_ns == 0
        &&& self.wasm_ns == 0
        &&& self.events == 0
        &&& self.wasm@ == empty_counts()
        &&& self.overhead@ == empty_counts()
    }

    /// One more event can be counted.
    pub open spec fn has_room(&self, total_ns: u64, serde_ns: u64, wasm_ns: u64) -> bool {
        &&& self.total_ns + total_ns <= u64::MAX
        &&& self.serde_ns + serde_ns <= u64::MAX
        &&& self.wasm_ns + wasm_ns <= u64::MAX
        &&& self.events < u64::MAX
        &&& self.wasm@[bucket_index(wasm_ns as nat / 1000) as int] < u32::MAX
        &&& self.overhead@[bucket_index(
            left_over(total_ns as nat, wasm_ns as nat) / 1000,
        ) as int] < u32::MAX
    }

    /// Records one finished event. The overhead is taken per event, so that it
    /// and the call cannot drift apart.
    pub fn observe(&mut self, total_ns: u64, serde_ns: u64, wasm_ns: u64)
        requires
            old(self).has_room(total_ns, serde_ns, wasm_ns),
        ensures
            final(self).total_ns == old(self).total_ns + total_ns,
            final(self).serde_ns == old(self).serde_ns + serde_ns,
            final(self).wasm_ns == old(self).wasm_ns + wasm_ns,
            final(self).events == old(self).events + 1,
            final(self).wasm@ == observed(old(self).wasm@, wasm_ns as nat / 1000),
            final(self).overhead@ == observed(
                old(self).overhead@,
                left_over(total_ns as nat, wasm_ns as nat) / 1000,
            ),
    {
        self.total_ns = self.total_ns + total_ns;
        self.serde_ns = self.serde_ns + serde_ns;
        self.wasm_ns = self.wasm_ns + wasm_ns;
        self.events = self.events + 1;
        self.wasm.observe_us(wasm_ns / 1_000);
        let rest: u64 = total_ns.saturating_sub(wasm_ns);
        self.overhead.observe_us(rest / 1_000);
    }

    pub fn is_empty(&self) -> (b: bool)
        ensures
            b == (self.events == 0),
    {
        self.events == 0
    }

    /// Publishes what is accumulated, and starts over. Without an event there
    /// is nothing to do.
    pub fn flush_into(&mut self, shared: &mut StageTiming)
        ensures
            old(self).events == 0 ==> *final(self) == *old(self) && *final(shared) == *old(shared),
            old(self).events != 0 ==> {
                &&& final(self).is_clear()
                &&& final(shared).total_ns == old(shared).total_ns.wrapping_add(old(self).total_ns)
                &&& final(shared).serde_ns == old(shared).serde_ns.wrapping_add(old(self).serde_ns)
                &&& final(shared).wasm_ns == old(shared).wasm_ns.wrapping_add(old(self).wasm_ns)
                &&& final(shared).events == old(shared).events.wrapping_add(old(self).events)
                &&& final(shared).wasm_hist@ == added(old(shared).wasm_hist@, old(self).wasm@)
                &&& final(shared).overhead_hist@ == added(
                    old(shared).overhead_hist@,
                    old(self).overhead@,
                )
            },
    {
        if self.events == 0 {
            return ;
        }
        shared.total_ns = shared.total_ns.wrapping_add(self.total_ns);
        shared.serde_ns = shared.serde_ns.wrapping_add(self.serde_ns);
        shared.wasm_ns = shared.wasm_ns.wrapping_add(self.wasm_ns);
        shared.events = shared.events.wrapping_add(self.events);
        shared.wasm_hist.merge_from(&self.wasm);
        shared.overhead_hist.merge_from(&self.overhead);
        self.total_ns = 0;
        self.serde_ns = 0;
        self.wasm_ns = 0;
        self.events = 0;
        self.wasm.clear();
        self.overhead.clear();
    }
}

/// How far one reader has read a stage's timing.
#[derive(Clone, Copy, Debug)]
pub struct TimingCursor {
    pub total_ns: u64,
    pub serde_ns: u64,
    pub wasm_ns: u64,
    pub events: u64,
    pub wasm: Hist,
    pub overhead: Hist,
}

/// What a stage has accumulated since a reader read it last.
#[derive(Clone, Copy, Debug)]
pub struct TimingDelta {
    pub events: u64,
    /// Means over the events, in nanoseconds.
    pub total_ns_per_event: u64,
    pub serde_ns_per_event: u64,
    pub wasm_ns_per_event: u64,
    pub wasm: Hist,
    pub overhead: Hist,
}

impl View for TimingCursor {
    type V = TimingModel;

    open spec fn view(&self) -> TimingModel {
        TimingModel {
            total_ns: self.total_ns as nat,
            serde_ns: self.serde_ns as nat,
            wasm_ns: self.wasm_ns as nat,
            events: self.events as nat,
            wasm: self.wasm@,
            overhead: self.overhead@,
        }
    }
}

/// Where a reader starts.
pub open spec fn timing_start() -> TimingModel {
    TimingModel {
        total_ns: 0,
        serde_ns: 0,
        wasm_ns: 0,
        events: 0,
        wasm: empty_counts(),
        overhead: empty_counts(),
    }
}

impl Default for TimingCursor {
    fn default() -> (c: TimingCursor)
        ensures
            c.total_ns == 0,
            c.serde_ns == 0,
            c.wasm_ns == 0,
            c.events == 0,
            c.wasm@ == empty_counts(),
            c.overhead@ == empty_counts(),
            c@ == timing_start(),
    {
        TimingCursor {
            total_ns: 0,
            serde_ns: 0,
            wasm_ns: 0,
            events: 0,
            wasm: Hist::default(),
            overhead: Hist::default(),
        }
    }
}

impl TimingCursor {
    /// The reader stands where the timing stands.
    pub open spec fn caught_up(&self, shared: StageTiming) -> bool {
        self@ == shared@
    }

    /// What changed since the last call, and the reader moves up. `None` when
    /// no event has been processed: an idle stage contributes no sample, where
    /// a zero would drag every quantile down.
    pub fn advance(&mut self, shared: &StageTiming) -> (d: Option<TimingDelta>)
        ensures
            d is None <==> shared.events <= old(self).events,
            d is None ==> *final(self) == *old(self),
            d is Some ==> final(self).caught_up(*shared),
            d matches Some(delta) ==> {
                let n = left_over(shared.events as nat, old(self).events as nat);
                &&& delta.events == n
                &&& delta.total_ns_per_event == left_over(
                    shared.total_ns as nat,
                    old(self).total_ns as nat,
                ) / n
                &&& delta.serde_ns_per_event == left_over(
                    shared.serde_ns as nat,
                    old(self).serde_ns as nat,
                ) / n
                &&& delta.wasm_ns_per_event == left_over(
                    shared.wasm_ns as nat,
                    old(self).wasm_ns as nat,
                ) / n
                &&& delta.wasm@ == difference(shared.wasm_hist@, old(self).wasm@)
                &&& delta.overhead@ == difference(shared.overhead_hist@, old(self).overhead@)
            },
    {
        let d_events: u64 = shared.events.saturating_sub(self.events);
        if d_events == 0 {
            return None;
        }
        let total: u64 = shared.total_ns.saturating_sub(self.total_ns);
        let serde: u64 = shared.serde_ns.saturating_sub(self.serde_ns);
        let wasm: u64 = shared.wasm_ns.saturating_sub(self.wasm_ns);
        let wasm_snap = shared.wasm_hist.snapshot();
        let overhead_snap = shared.overhead_hist.snapshot();
        let delta = TimingDelta {
            events: d_events,
            total_ns_per_event: total / d_events,
            serde_ns_per_event: serde / d_events,
            wasm_ns_per_event: wasm / d_events,
            wasm: hist_delta(&wasm_snap, &self.wasm),
            overhead: hist_delta(&overhead_snap, &self.overhead),
        };
        self.events = shared.events;
        self.total_ns = shared.total_ns;
        self.serde_ns = shared.serde_ns;
        self.wasm_ns = shared.wasm_ns;
        self.wasm = wasm_snap;
        self.overhead = overhead_snap;
        Some(delta)
    }
}

/// Law: a reader that is caught up sees exactly what is flushed next, whatever
/// other readers do, as long as no counter has gone round.
pub proof fn law_cursor_reads_what_was_flushed(
    before: StageTiming,
    after: StageTiming,
    flushed: TimingAccum,
    reader: TimingCursor,
)
    requires
        reader.caught_up(before),
        flushed.events > 0,
        before.events + flushed.events <= u64::MAX,
        after.events == before.events.wrapping_add(flushed.events),
        after.wasm_hist@ == added(before.wasm_hist@, flushed.wasm@),
        after.overhead_hist@ == added(before.overhead_hist@, flushed.overhead@),
        before.wasm_hist@.len() == HIST_BUCKETS,
        before.overhead_hist@.len() == HIST_BUCKETS,
        forall|i: int|
            0 <= i < HIST_BUCKETS ==> #[trigger] before.wasm_hist@[i] + flushed.wasm@[i]
                <= u32::MAX,
        forall|i: int|
            0 <= i < HIST_BUCKETS ==> #[trigger] before.overhead_hist@[i] + flushed.overhead@[i]
                <= u32::MAX,
    ensures
        left_over(after.events as nat, reader.events as nat) == flushed.events,
        difference(after.wasm_hist@, reader.wasm@) == flushed.wasm@,
        difference(after.overhead_hist@, reader.overhead@) == flushed.overhead@,
{
    assert forall|i: int| 0 <= i < HIST_BUCKETS implies difference(
        after.wasm_hist@,
        reader.wasm@,
    )[i] == flushed.wasm@[i] by {
        assert(before.wasm_hist@[i] + flushed.wasm@[i] <= u32::MAX);
    }
    assert forall|i: int| 0 <= i < HIST_BUCKETS implies difference(
        after.overhead_hist@,
        reader.overhead@,
    )[i] == flushed.overhead@[i] by {
        assert(before.overhead_hist@[i] + flushed.overhead@[i] <= u32::MAX);
    }
    assert(difference(after.wasm_hist@, reader.wasm@) =~= flushed.wasm@);
    assert(difference(after.overhead_hist@, reader.overhead@) =~= flushed.overhead@);
}

/// The timing of every stage there has been, by the name of the stage. Stages
/// come and go while the pipeline runs; an entry stays when its stage retires.
#[derive(Debug)]
pub struct TimingRegistry {
    stages: Vec<(String, StageTiming)>,
}

impl View for TimingRegistry {
    type V = Seq<(Seq<char>, StageTiming)>;

    /// Names and timings, in the order the stages were first met.
    closed spec fn view(&self) -> Seq<(Seq<char>, StageTiming)> {
        self.stages@.map_values(|e: (String, StageTiming)| (e.0@, e.1))
    }
}

/// The stage is known.
pub open spec fn registered(stages: Seq<(Seq<char>, StageTiming)>, name: Seq<char>) -> bool {
    exists|i: int| 0 <= i < stages.len() && (#[trigger] stages[i]).0 == name
}

impl Default for TimingRegistry {
    fn default() -> (r: TimingRegistry)
        ensures
            r.wf(),
            r@.len() == 0,
    {
        TimingRegistry { stages: Vec::new() }
    }
}

impl TimingRegistry {
    /// No stage has two entries.
    pub open spec fn wf(&self) -> bool {
        forall|i: int, j: int|
            0 <= i < j < self@.len() ==> (#[trigger] self@[i]).0 != (#[trigger] self@[j]).0
    }

    /// The place of `stage`'s timing, which is made on first use. Asking again
    /// for a name gives the same place, so that the timing keeps growing across
    /// a redeploy.
    pub fn get_or_insert(&mut self, stage: &String) -> (at: usize)
        requires
            old(self).wf(),
        ensures
            final(self).wf(),
            at < final(self)@.len(),
            final(self)@[at as int].0 == stage@,
            registered(old(self)@, stage@) ==> final(self)@ == old(self)@,
            !registered(old(self)@, stage@) ==> {
                let timing = final(self)@[at as int].1;
                &&& final(self)@ == old(self)@.push((stage@, timing))
                &&& at == old(self)@.len()
                &&& timing.events == 0 && timing.total_ns == 0 && timing.serde_ns == 0
                    && timing.wasm_ns == 0
                &&& timing.wasm_hist@ == empty_counts() && timing.overhead_hist@ == empty_counts()
            },
    {
        let mut i: usize = 0;
        while i < self.stages.len()
            invariant
                i <= self.stages@.len(),
                *self == *old(self),
                self.wf(),
                forall|k: int| 0 <= k < i ==> (#[trigger] self@[k]).0 != stage@,
            decreases self.stages@.len() - i,
        {
            assert(self@[i as int].0 == self.stages@[i as int].0@);
            if self.stages[i].0 == *stage {
                return i;
            }
            i = i + 1;
        }
        self.stages.push((stage.clone(), StageTiming::default()));
        assert(self@ =~= old(self)@.push((stage@, self@[i as int].1)));
        i
    }

    /// The timing at a place, to be added to.
    pub fn timing_mut(&mut self, at: usize) -> (timing: &mut StageTiming)
        requires
            at < old(self)@.len(),
        ensures
            *timing == old(self)@[at as int].1,
            final(self)@ == old(self)@.update(
                at as int,
                (old(self)@[at as int].0, *final(timing)),
            ),
    {
        &mut self.stages[at].1
    }

    /// How many stages are known.
    pub fn len(&self) -> (n: usize)
        ensures
            n == self@.len(),
    {
        self.stages.len()
    }

    /// The name of the stage at an index.
    pub fn name(&self, i: usize) -> (name: &String)
        requires
            i < self@.len(),
        ensures
            name@ == self@[i as int].0,
    {
        &self.stages[i].0
    }

    /// The timing of the stage at an index.
    pub fn timing(&self, i: usize) -> (t: &StageTiming)
        requires
            i < self@.len(),
        ensures
            *t == self@[i as int].1,
    {
        &self.stages[i].1
    }
}

} // verus!
