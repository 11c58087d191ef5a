//! Live statistics: what each edge and each stage of the running pipeline is
//! doing now, and has been doing for the last few minutes.

use vstd::prelude::*;
use crate::hist::{empty_counts, merged, quantile_half_us, Hist};
use crate::topk::{after_merge, max_count, KeyCount, TopK};
use crate::window::{EdgeBucket, StageBucket, Window, KEY_RETAIN, RETAIN, RING};

verus! {

/// The keys of a bucket, as a value.
pub struct KeysModel {
    pub slots: Seq<KeyCount>,
    pub observed: nat,
}

/// One second of an edge, as a value.
pub struct EdgeSecond {
    pub count: nat,
    pub bytes: nat,
    pub gap: Seq<u32>,
    pub keys: Option<KeysModel>,
}

/// One second of a stage, as a value.
pub struct StageSecond {
    pub events: nat,
    pub wasm: Seq<u32>,
    pub overhead: Seq<u32>,
}

/// An edge and its window, as a value: the open second first, then the others
/// from the one sealed last backwards.
pub struct EdgeModel {
    pub from: Seq<char>,
    pub to: Seq<char>,
    pub seconds: Seq<EdgeSecond>,
    pub filled: nat,
}

/// A stage and its window, as a value.
pub struct StageModel {
    pub name: Seq<char>,
    pub seconds: Seq<StageSecond>,
    pub filled: nat,
}

impl View for EdgeBucket {
    type V = EdgeSecond;

    open spec fn view(&self) -> EdgeSecond {
        EdgeSecond {
            count: self.count as nat,
            bytes: self.bytes as nat,
            gap: self.gap@,
            keys: match self.keys {
                None => None,
                Some(k) => Some(KeysModel { slots: k.slots(), observed: k.observed() }),
            },
        }
    }
}

impl View for StageBucket {
    type V = StageSecond;

    open spec fn view(&self) -> StageSecond {
        StageSecond { events: self.events as nat, wasm: self.wasm@, overhead: self.overhead@ }
    }
}

/// An edge, named by the stages at its ends, and its window.
#[derive(Clone, Debug)]
pub struct EdgeEntry {
    pub from: String,
    pub to: String,
    pub window: Window<EdgeBucket>,
}

/// A stage and its window.
#[derive(Clone, Debug)]
pub struct StageEntry {
    pub name: String,
    pub window: Window<StageBucket>,
}

impl View for EdgeEntry {
    type V = EdgeModel;

    open spec fn view(&self) -> EdgeModel {
        EdgeModel {
            from: self.from@,
            to: self.to@,
            seconds: self.window@.map_values(|b: EdgeBucket| b@),
            filled: self.window.sealed_count(),
        }
    }
}

impl View for StageEntry {
    type V = StageModel;

    open spec fn view(&self) -> StageModel {
        StageModel {
            name: self.name@,
            seconds: self.window@.map_values(|b: StageBucket| b@),
            filled: self.window.sealed_count(),
        }
    }
}

/// The events of one second fit a 32-bit counter, and no more of them carried a
/// key than there were.
pub open spec fn edge_bucket_wf(b: EdgeBucket) -> bool {
    &&& b.count <= u32::MAX
    &&& b.keys matches Some(k) ==> k.wf() && k.observed() <= b.count
}

pub open spec fn edge_window_wf(w: Window<EdgeBucket>) -> bool {
    &&& w.wf()
    &&& forall|i: int| 0 <= i < RING ==> edge_bucket_wf(#[trigger] w@[i])
}

/// What a consumer of the statistics reads.
#[derive(Clone, Debug)]
pub struct LiveStats {
    pub edges: Vec<EdgeEntry>,
    pub stages: Vec<StageEntry>,
    /// When the newest second was sealed, in nanoseconds since the start. A
    /// reader holds it against its own clock: an idle pipeline is not one
    /// whose edges are cheap.
    pub t_ns: u64,
}

/// The place of an edge.
pub open spec fn is_edge(edges: Seq<EdgeModel>, from: Seq<char>, to: Seq<char>, i: int) -> bool {
    0 <= i < edges.len() && edges[i].from == from && edges[i].to == to
}

pub open spec fn has_edge(edges: Seq<EdgeModel>, from: Seq<char>, to: Seq<char>) -> bool {
    exists|i: int| #[trigger] is_edge(edges, from, to, i)
}

pub open spec fn edge_place(edges: Seq<EdgeModel>, from: Seq<char>, to: Seq<char>) -> int {
    choose|i: int| #[trigger] is_edge(edges, from, to, i)
}

/// The place of a stage.
pub open spec fn is_stage(stages: Seq<StageModel>, name: Seq<char>, i: int) -> bool {
    0 <= i < stages.len() && stages[i].name == name
}

pub open spec fn has_stage(stages: Seq<StageModel>, name: Seq<char>) -> bool {
    exists|i: int| #[trigger] is_stage(stages, name, i)
}

pub open spec fn stage_place(stages: Seq<StageModel>, name: Seq<char>) -> int {
    choose|i: int| #[trigger] is_stage(stages, name, i)
}

/// No edge has two windows.
pub open spec fn distinct_edges(edges: Seq<EdgeModel>) -> bool {
    forall|i: int, j: int|
        0 <= i < j < edges.len() ==> !((#[trigger] edges[i]).from == (#[trigger] edges[j]).from
            && edges[i].to == edges[j].to)
}

/// No stage has two windows.
pub open spec fn distinct_stages(stages: Seq<StageModel>) -> bool {
    forall|i: int, j: int|
        0 <= i < j < stages.len() ==> (#[trigger] stages[i]).name != (#[trigger] stages[j]).name
}

/// The smaller of two numbers.
pub open spec fn min_nat(a: nat, b: nat) -> nat {
    if a < b {
        a
    } else {
        b
    }
}

/// The sealed seconds a query over `n` seconds looks at, newest first.
pub open spec fn recent_seconds(e: EdgeModel, n: nat) -> Seq<EdgeSecond> {
    e.seconds.subrange(1, 1 + min_nat(n, e.filled) as int)
}

/// The sealed seconds a query over `n` seconds looks at, newest first.
pub open spec fn recent_stage_seconds(s: StageModel, n: nat) -> Seq<StageSecond> {
    s.seconds.subrange(1, 1 + min_nat(n, s.filled) as int)
}

/// The gaps of some seconds, merged.
pub open spec fn merged_gaps(seconds: Seq<EdgeSecond>) -> Seq<u32>
    decreases seconds.len(),
{
    if seconds.len() == 0 {
        empty_counts()
    } else {
        merged(merged_gaps(seconds.drop_last()), seconds.last().gap)
    }
}

/// The call costs of some seconds, merged.
pub open spec fn merged_wasm(seconds: Seq<StageSecond>) -> Seq<u32>
    decreases seconds.len(),
{
    if seconds.len() == 0 {
        empty_counts()
    } else {
        merged(merged_wasm(seconds.drop_last()), seconds.last().wasm)
    }
}

/// The overheads of some seconds, merged.
pub open spec fn merged_overhead(seconds: Seq<StageSecond>) -> Seq<u32>
    decreases seconds.len(),
{
    if seconds.len() == 0 {
        empty_counts()
    } else {
        merged(merged_overhead(seconds.drop_last()), seconds.last().overhead)
    }
}

/// The events of some seconds.
pub open spec fn sum_events(seconds: Seq<EdgeSecond>) -> nat
    decreases seconds.len(),
{
    if seconds.len() == 0 {
        0
    } else {
        sum_events(seconds.drop_last()) + seconds.last().count
    }
}

/// The payload bytes of some seconds.
pub open spec fn sum_bytes(seconds: Seq<EdgeSecond>) -> nat
    decreases seconds.len(),
{
    if seconds.len() == 0 {
        0
    } else {
        sum_bytes(seconds.drop_last()) + seconds.last().bytes
    }
}

/// The events of some seconds of a stage.
pub open spec fn sum_stage_events(seconds: Seq<StageSecond>) -> nat
    decreases seconds.len(),
{
    if seconds.len() == 0 {
        0
    } else {
        sum_stage_events(seconds.drop_last()) + seconds.last().events
    }
}

/// The key counts of some seconds, merged.
pub open spec fn merged_keys(seconds: Seq<EdgeSecond>) -> KeysModel
    decreases seconds.len(),
{
    if seconds.len() == 0 {
        KeysModel { slots: Seq::empty(), observed: 0 }
    } else {
        let rest = merged_keys(seconds.drop_last());
        match seconds.last().keys {
            None => rest,
            Some(k) => KeysModel {
                slots: after_merge(rest.slots, k.slots),
                observed: rest.observed + k.observed,
            },
        }
    }
}

/// The quantiles of some seconds, oldest first.
pub open spec fn quantile_series(seconds: Seq<EdgeSecond>, q_milli: nat) -> Seq<nat> {
    Seq::new(
        seconds.len(),
        |i: int| quantile_half_us(seconds[seconds.len() - 1 - i].gap, q_milli),
    )
}

/// The sum of some numbers.
pub open spec fn sum_of(ys: Seq<nat>) -> nat
    decreases ys.len(),
{
    if ys.len() == 0 {
        0
    } else {
        sum_of(ys.drop_last()) + ys.last()
    }
}

/// The sum of some numbers, each times its place.
pub open spec fn sum_by_place(ys: Seq<nat>) -> nat
    decreases ys.len(),
{
    if ys.len() == 0 {
        0
    } else {
        sum_by_place(ys.drop_last()) + ((ys.len() - 1) as nat) * ys.last()
    }
}

/// The sum of the places below `n`.
pub open spec fn sum_places(n: nat) -> nat
    decreases n,
{
    if n == 0 {
        0
    } else {
        sum_places((n - 1) as nat) + (n - 1) as nat
    }
}

/// The sum of the squares of the places below `n`.
pub open spec fn sum_squares(n: nat) -> nat
    decreases n,
{
    if n == 0 {
        0
    } else {
        sum_squares((n - 1) as nat) + ((n - 1) as nat) * ((n - 1) as nat)
    }
}

/// Numerator of the least-squares slope through the numbers, one per second.
pub open spec fn slope_numerator(ys: Seq<nat>) -> int {
    ys.len() * sum_by_place(ys) - sum_places(ys.len()) * sum_of(ys)
}

/// Denominator of the least-squares slope through `n` numbers.
pub open spec fn slope_denominator(n: nat) -> int {
    n * sum_squares(n) - sum_places(n) * sum_places(n)
}

proof fn lemma_place_sums(n: nat)
    ensures
        2 * sum_places(n) == n * (n - 1),
        6 * sum_squares(n) == (n * (n - 1)) * (2 * n - 1),
    decreases n,
{
    if n > 0 {
        let m = (n - 1) as nat;
        lemma_place_sums(m);
        assert(n * (n - 1) == m * (m - 1) + 2 * m) by (nonlinear_arith)
            requires
                n == m + 1,
        ;
        assert((n * (n - 1)) * (2 * n - 1) == (m * (m - 1)) * (2 * m - 1) + 6 * (m * m))
            by (nonlinear_arith)
            requires
                n == m + 1,
        ;
    }
}

/// The slope through two or more numbers is defined.
pub proof fn lemma_slope_denominator(n: nat)
    ensures
        12 * slope_denominator(n) == (n * n) * (n * n - 1),
        n >= 2 ==> slope_denominator(n) > 0,
{
    lemma_place_sums(n);
    let s1 = sum_places(n) as int;
    let s2 = sum_squares(n) as int;
    assert(12 * (n * s2 - s1 * s1) == (n * n) * (n * n - 1)) by (nonlinear_arith)
        requires
            2 * s1 == n * (n - 1),
            6 * s2 == (n * (n - 1)) * (2 * n - 1),
    ;
    if n >= 2 {
        assert((n * n) * (n * n - 1) > 0) by (nonlinear_arith)
            requires
                n >= 2,
        ;
    }
}

/// A quantity over some seconds: so much in so many of them.
#[derive(Clone, Copy, Debug, PartialEq, Eq, Structural)]
pub struct Rate {
    pub amount: u128,
    pub seconds: u64,
}

impl Default for LiveStats {
    fn default() -> (s: LiveStats)
        ensures
            s.wf(),
            s.edges().len() == 0,
            s.stages().len() == 0,
            s.t_ns == 0,
    {
        LiveStats { edges: Vec::new(), stages: Vec::new(), t_ns: 0 }
    }
}

impl LiveStats {
    pub open spec fn edges(&self) -> Seq<EdgeModel> {
        self.edges@.map_values(|e: EdgeEntry| e@)
    }

    pub open spec fn stages(&self) -> Seq<StageModel> {
        self.stages@.map_values(|s: StageEntry| s@)
    }

    pub open spec fn wf(&self) -> bool {
        &&& distinct_edges(self.edges())
        &&& distinct_stages(self.stages())
        &&& forall|i: int|
            0 <= i < self.edges@.len() ==> edge_window_wf((#[trigger] self.edges@[i]).window)
        &&& forall|i: int| 0 <= i < self.stages@.len() ==> (#[trigger] self.stages@[i]).window.wf()
    }

    /// Puts the window of an edge in, in place of the one it had.
    pub fn set_edge(&mut self, from: &String, to: &String, window: Window<EdgeBucket>)
        requires
            old(self).wf(),
            edge_window_wf(window),
        ensures
            final(self).wf(),
            final(self).stages() == old(self).stages(),
            final(self).t_ns == old(self).t_ns,
            final(self).edges() == {
                let entry = EdgeModel {
                    from: from@,
                    to: to@,
                    seconds: window@.map_values(|b: EdgeBucket| b@),
                    filled: window.sealed_count(),
                };
                if has_edge(old(self).edges(), from@, to@) {
                    old(self).edges().update(edge_place(old(self).edges(), from@, to@), entry)
                } else {
                    old(self).edges().push(entry)
                }
            },
    {
        let entry = EdgeEntry { from: from.clone(), to: to.clone(), window };
        let ghost model = entry@;
        match self.find_edge(from, to) {
            Some(i) => {
                self.edges.set(i, entry);
                assert(self.edges() =~= old(self).edges().update(i as int, model));
            },
            None => {
                self.edges.push(entry);
                assert(self.edges() =~= old(self).edges().push(model));
                assert(distinct_edges(self.edges())) by {
                    let last = self.edges().len() - 1;
                    assert forall|i: int, j: int| 0 <= i < j < self.edges().len() implies !((
                    #[trigger] self.edges()[i]).from == (#[trigger] self.edges()[j]).from
                        && self.edges()[i].to == self.edges()[j].to) by {
                        if j == last {
                            assert(!is_edge(old(self).edges(), from@, to@, i));
                        }
                    }
                }
            },
        }
    }

    pub fn find_edge(&self, from: &String, to: &String) -> (at: Option<usize>)
        requires
            self.wf(),
        ensures
            at is Some <==> has_edge(self.edges(), from@, to@),
            at matches Some(i) ==> is_edge(self.edges(), from@, to@, i as int) && i == edge_place(
                self.edges(),
                from@,
                to@,
            ) && i < self.edges@.len(),
    {
        let mut i: usize = 0;
        while i < self.edges.len()
            invariant
                i <= self.edges@.len(),
                self.wf(),
                forall|k: int| 0 <= k < i ==> !#[trigger] is_edge(self.edges(), from@, to@, k),
            decreases self.edges@.len() - i,
        {
            if self.edges[i].from == *from && self.edges[i].to == *to {
                proof {
                    assert(is_edge(self.edges(), from@, to@, i as int));
                    let there = edge_place(self.edges(), from@, to@);
                    assert(is_edge(self.edges(), from@, to@, there));
                    assert(self.edges()[i as int].from == self.edges()[there].from);
                }
                return Some(i);
            }
            i = i + 1;
        }
        None
    }

    pub fn find_stage(&self, name: &String) -> (at: Option<usize>)
        requires
            self.wf(),
        ensures
            at is Some <==> has_stage(self.stages(), name@),
            at matches Some(i) ==> is_stage(self.stages(), name@, i as int) && i == stage_place(
                self.stages(),
                name@,
            ) && i < self.stages@.len(),
    {
        let mut i: usize = 0;
        while i < self.stages.len()
            invariant
                i <= self.stages@.len(),
                self.wf(),
                forall|k: int| 0 <= k < i ==> !#[trigger] is_stage(self.stages(), name@, k),
            decreases self.stages@.len() - i,
        {
            if self.stages[i].name == *name {
                proof {
                    assert(is_stage(self.stages(), name@, i as int));
                    let there = stage_place(self.stages(), name@);
                    assert(is_stage(self.stages(), name@, there));
                    assert(self.stages()[i as int].name == self.stages()[there].name);
                }
                return Some(i);
            }
            i = i + 1;
        }
        None
    }

    /// How many edges have a window.
    pub fn edge_count(&self) -> (n: usize)
        ensures
            n == self.edges().len(),
    {
        self.edges.len()
    }

    /// Quantile of what an edge costs per event over the last `window_s`
    /// sealed seconds, in half microseconds. Zero for an edge that is not
    /// known.
    pub fn edge_p(&self, from: &String, to: &String, q_milli: u64, window_s: usize) -> (half_us:
        u64)
        requires
            self.wf(),
        ensures
            half_us == if has_edge(self.edges(), from@, to@) {
                quantile_half_us(
                    merged_gaps(
                        recent_seconds(
                            self.edges()[edge_place(self.edges(), from@, to@)],
                            window_s as nat,
                        ),
                    ),
                    q_milli as nat,
                )
            } else {
                0
            },
            half_us < 0x400_0000,
    {
        match self.find_edge(from, to) {
            None => 0,
            Some(at) => {
                let w = &self.edges[at].window;
                let ghost seconds = recent_seconds(self.edges()[at as int], window_s as nat);
                proof {
                    w.lemma_sizes();
                }
                let buckets = w.recent(window_s);
                let mut all = Hist::default();
                let mut i: usize = 0;
                while i < buckets.len()
                    invariant
                        i <= buckets@.len(),
                        buckets@.len() == seconds.len(),
                        forall|k: int|
                            0 <= k < seconds.len() ==> (*#[trigger] buckets@[k])@ == seconds[k],
                        all@ == merged_gaps(seconds.take(i as int)),
                    decreases buckets@.len() - i,
                {
                    assert(seconds.take(i + 1).drop_last() =~= seconds.take(i as int));
                    assert((*buckets@[i as int])@ == seconds[i as int]);
                    all.merge(&buckets[i].gap);
                    i = i + 1;
                }
                assert(seconds.take(i as int) =~= seconds);
                all.quantile(q_milli)
            },
        }
    }

    /// Events per second on an edge, over the sealed seconds there are of the
    /// last `window_s`: over no more, or a busy edge would look idle at first.
    pub fn edge_rate(&self, from: &String, to: &String, window_s: usize) -> (rate: Rate)
        requires
            self.wf(),
        ensures
            !has_edge(self.edges(), from@, to@) ==> rate.amount == 0 && rate.seconds == 0,
            has_edge(self.edges(), from@, to@) ==> {
                let e = self.edges()[edge_place(self.edges(), from@, to@)];
                &&& rate.amount == sum_events(recent_seconds(e, window_s as nat))
                &&& rate.seconds == min_nat(window_s as nat, e.filled)
            },
            rate.amount <= RETAIN * u64::MAX,
            rate.seconds <= RETAIN,
    {
        match self.find_edge(from, to) {
            None => Rate { amount: 0, seconds: 0 },
            Some(at) => {
                let w = &self.edges[at].window;
                let ghost seconds = recent_seconds(self.edges()[at as int], window_s as nat);
                proof {
                    w.lemma_sizes();
                }
                let buckets = w.recent(window_s);
                let mut amount: u128 = 0;
                let mut i: usize = 0;
                while i < buckets.len()
                    invariant
                        i <= buckets@.len() <= RETAIN,
                        buckets@.len() == seconds.len(),
                        forall|k: int|
                            0 <= k < seconds.len() ==> (*#[trigger] buckets@[k])@ == seconds[k],
                        amount == sum_events(seconds.take(i as int)),
                        amount <= i * u64::MAX,
                    decreases buckets@.len() - i,
                {
                    assert(seconds.take(i + 1).drop_last() =~= seconds.take(i as int));
                    assert((*buckets@[i as int])@ == seconds[i as int]);
                    amount = amount + buckets[i].count as u128;
                    i = i + 1;
                }
                assert(seconds.take(i as int) =~= seconds);
                Rate { amount, seconds: i as u64 }
            },
        }
    }

    /// Payload bytes per second on an edge. Kept beside the rate of events,
    /// because the size of an event is not the same all along a pipeline.
    pub fn edge_bytes_rate(&self, from: &String, to: &String, window_s: usize) -> (rate: Rate)
        requires
            self.wf(),
        ensures
            !has_edge(self.edges(), from@, to@) ==> rate.amount == 0 && rate.seconds == 0,
            has_edge(self.edges(), from@, to@) ==> {
                let e = self.edges()[edge_place(self.edges(), from@, to@)];
                &&& rate.amount == sum_bytes(recent_seconds(e, window_s as nat))
                &&& rate.seconds == min_nat(window_s as nat, e.filled)
            },
    {
        match self.find_edge(from, to) {
            None => Rate { amount: 0, seconds: 0 },
            Some(at) => {
                let w = &self.edges[at].window;
                let ghost seconds = recent_seconds(self.edges()[at as int], window_s as nat);
                proof {
                    w.lemma_sizes();
                }
                let buckets = w.recent(window_s);
                let mut amount: u128 = 0;
                let mut i: usize = 0;
                while i < buckets.len()
                    invariant
                        i <= buckets@.len() <= RETAIN,
                        buckets@.len() == seconds.len(),
                        forall|k: int|
                            0 <= k < seconds.len() ==> (*#[trigger] buckets@[k])@ == seconds[k],
                        amount == sum_bytes(seconds.take(i as int)),
                        amount <= i * u64::MAX,
                    decreases buckets@.len() - i,
                {
                    assert(seconds.take(i + 1).drop_last() =~= seconds.take(i as int));
                    assert((*buckets@[i as int])@ == seconds[i as int]);
                    amount = amount + buckets[i].bytes as u128;
                    i = i + 1;
                }
                assert(seconds.take(i as int) =~= seconds);
                Rate { amount, seconds: i as u64 }
            },
        }
    }

    /// The events of an edge's busiest key over the last `window_s` seconds,
    /// as far as keys are kept, and the events that carried a key.
    pub fn key_skew(&self, from: &String, to: &String, window_s: usize) -> (share: (u64, u64))
        requires
            self.wf(),
        ensures
            !has_edge(self.edges(), from@, to@) ==> share == (0u64, 0u64),
            has_edge(self.edges(), from@, to@) ==> {
                let e = self.edges()[edge_place(self.edges(), from@, to@)];
                let keys = merged_keys(
                    recent_seconds(e, min_nat(window_s as nat, KEY_RETAIN as nat)),
                );
                share.0 == max_count(keys.slots) && share.1 == keys.observed
            },
            share.0 <= share.1,
    {
        match self.find_edge(from, to) {
            None => (0, 0),
            Some(at) => {
                let w = &self.edges[at].window;
                let n: usize = if window_s < KEY_RETAIN {
                    window_s
                } else {
                    KEY_RETAIN
                };
                let ghost seconds = recent_seconds(self.edges()[at as int], n as nat);
                proof {
                    w.lemma_sizes();
                    assert(edge_window_wf(self.edges@[at as int].window));
                }
                let buckets = w.recent(n);
                let mut all = TopK::default();
                let mut i: usize = 0;
                while i < buckets.len()
                    invariant
                        i <= buckets@.len() <= KEY_RETAIN,
                        buckets@.len() == seconds.len(),
                        forall|k: int|
                            0 <= k < seconds.len() ==> (*#[trigger] buckets@[k])@ == seconds[k]
                                && edge_bucket_wf(*buckets@[k]),
                        all.wf(),
                        all.slots() == merged_keys(seconds.take(i as int)).slots,
                        all.observed() == merged_keys(seconds.take(i as int)).observed,
                        all.observed() <= i * u32::MAX,
                    decreases buckets@.len() - i,
                {
                    assert(seconds.take(i + 1).drop_last() =~= seconds.take(i as int));
                    assert((*buckets@[i as int])@ == seconds[i as int]);
                    match &buckets[i].keys {
                        None => {},
                        Some(k) => {
                            all.merge(k);
                        },
                    }
                    i = i + 1;
                }
                assert(seconds.take(i as int) =~= seconds);
                all.top_share()
            },
        }
    }

    /// Quantile of what the call costs per event on a stage, in half
    /// microseconds.
    pub fn stage_wasm_p(&self, name: &String, q_milli: u64, window_s: usize) -> (half_us: u64)
        requires
            self.wf(),
        ensures
            half_us == if has_stage(self.stages(), name@) {
                quantile_half_us(
                    merged_wasm(
                        recent_stage_seconds(
                            self.stages()[stage_place(self.stages(), name@)],
                            window_s as nat,
                        ),
                    ),
                    q_milli as nat,
                )
            } else {
                0
            },
            half_us < 0x400_0000,
    {
        match self.find_stage(name) {
            None => 0,
            Some(at) => {
                let w = &self.stages[at].window;
                let ghost seconds = recent_stage_seconds(self.stages()[at as int], window_s as nat);
                proof {
                    w.lemma_sizes();
                }
                let buckets = w.recent(window_s);
                let mut all = Hist::default();
                let mut i: usize = 0;
                while i < buckets.len()
                    invariant
                        i <= buckets@.len(),
                        buckets@.len() == seconds.len(),
                        forall|k: int|
                            0 <= k < seconds.len() ==> (*#[trigger] buckets@[k])@ == seconds[k],
                        all@ == merged_wasm(seconds.take(i as int)),
                    decreases buckets@.len() - i,
                {
                    assert(seconds.take(i + 1).drop_last() =~= seconds.take(i as int));
                    assert((*buckets@[i as int])@ == seconds[i as int]);
                    all.merge(&buckets[i].wasm);
                    i = i + 1;
                }
                assert(seconds.take(i as int) =~= seconds);
                all.quantile(q_milli)
            },
        }
    }

    /// Quantile of everything but the call per event on a stage, in half
    /// microseconds.
    pub fn stage_overhead_p(&self, name: &String, q_milli: u64, window_s: usize) -> (half_us: u64)
        requires
            self.wf(),
        ensures
            half_us == if has_stage(self.stages(), name@) {
                quantile_half_us(
                    merged_overhead(
                        recent_stage_seconds(
                            self.stages()[stage_place(self.stages(), name@)],
                            window_s as nat,
                        ),
                    ),
                    q_milli as nat,
                )
            } else {
                0
            },
            half_us < 0x400_0000,
    {
        match self.find_stage(name) {
            None => 0,
            Some(at) => {
                let w = &self.stages[at].window;
                let ghost seconds = recent_stage_seconds(self.stages()[at as int], window_s as nat);
                proof {
                    w.lemma_sizes();
                }
                let buckets = w.recent(window_s);
                let mut all = Hist::default();
                let mut i: usize = 0;
                while i < buckets.len()
                    invariant
                        i <= buckets@.len(),
                        buckets@.len() == seconds.len(),
                        forall|k: int|
                            0 <= k < seconds.len() ==> (*#[trigger] buckets@[k])@ == seconds[k],
                        all@ == merged_overhead(seconds.take(i as int)),
                    decreases buckets@.len() - i,
                {
                    assert(seconds.take(i + 1).drop_last() =~= seconds.take(i as int));
                    assert((*buckets@[i as int])@ == seconds[i as int]);
                    all.merge(&buckets[i].overhead);
                    i = i + 1;
                }
                assert(seconds.take(i as int) =~= seconds);
                all.quantile(q_milli)
            },
        }
    }

    /// Events per second through a stage.
    pub fn stage_rate(&self, name: &String, window_s: usize) -> (rate: Rate)
        requires
            self.wf(),
        ensures
            !has_stage(self.stages(), name@) ==> rate.amount == 0 && rate.seconds == 0,
            has_stage(self.stages(), name@) ==> {
                let s = self.stages()[stage_place(self.stages(), name@)];
                &&& rate.amount == sum_stage_events(recent_stage_seconds(s, window_s as nat))
                &&& rate.seconds == min_nat(window_s as nat, s.filled)
            },
    {
        match self.find_stage(name) {
            None => Rate { amount: 0, seconds: 0 },
            Some(at) => {
                let w = &self.stages[at].window;
                let ghost seconds = recent_stage_seconds(self.stages()[at as int], window_s as nat);
                proof {
                    w.lemma_sizes();
                }
                let buckets = w.recent(window_s);
                let mut amount: u128 = 0;
                let mut i: usize = 0;
                while i < buckets.len()
                    invariant
                        i <= buckets@.len() <= RETAIN,
                        buckets@.len() == seconds.len(),
                        forall|k: int|
                            0 <= k < seconds.len() ==> (*#[trigger] buckets@[k])@ == seconds[k],
                        amount == sum_stage_events(seconds.take(i as int)),
                        amount <= i * u64::MAX,
                    decreases buckets@.len() - i,
                {
                    assert(seconds.take(i + 1).drop_last() =~= seconds.take(i as int));
                    assert((*buckets@[i as int])@ == seconds[i as int]);
                    amount = amount + buckets[i].events as u128;
                    i = i + 1;
                }
                assert(seconds.take(i as int) =~= seconds);
                Rate { amount, seconds: i as u64 }
            },
        }
    }

    /// Slope of an edge's quantile over the last `window_s` seconds, as a
    /// fraction, in half microseconds per second: the least-squares line
    /// through the quantiles of the single seconds. Level where there are
    /// fewer than two of them.
    pub fn trend(&self, from: &String, to: &String, q_milli: u64, window_s: usize) -> (slope: (
        i128,
        i128,
    ))
        requires
            self.wf(),
        ensures
            slope.1 > 0,
            !has_edge(self.edges(), from@, to@) ==> slope.0 == 0,
            has_edge(self.edges(), from@, to@) ==> {
                let e = self.edges()[edge_place(self.edges(), from@, to@)];
                let ys = quantile_series(recent_seconds(e, window_s as nat), q_milli as nat);
                if ys.len() < 2 {
                    slope.0 == 0
                } else {
                    slope.0 == slope_numerator(ys) && slope.1 == slope_denominator(ys.len())
                }
            },
    {
        match self.find_edge(from, to) {
            None => (0, 1),
            Some(at) => {
                let w = &self.edges[at].window;
                let ghost seconds = recent_seconds(self.edges()[at as int], window_s as nat);
                let ghost ys = quantile_series(seconds, q_milli as nat);
                proof {
                    w.lemma_sizes();
                }
                let buckets = w.recent(window_s);
                let n: usize = buckets.len();
                if n < 2 {
                    return (0, 1);
                }
                let mut sum: i128 = 0;
                let mut by_place: i128 = 0;
                let mut places: i128 = 0;
                let mut squares: i128 = 0;
                let mut i: usize = 0;
                while i < n
                    invariant
                        i <= n == buckets@.len() <= RETAIN,
                        n == seconds.len(),
                        ys == quantile_series(seconds, q_milli as nat),
                        forall|k: int|
                            0 <= k < seconds.len() ==> (*#[trigger] buckets@[k])@ == seconds[k],
                        sum == sum_of(ys.take(i as int)),
                        by_place == sum_by_place(ys.take(i as int)),
                        places == sum_places(i as nat),
                        squares == sum_squares(i as nat),
                        sum <= i * 0x400_0000,
                        by_place <= i * 0x4_b000_0000,
                        places <= i * 300,
                        squares <= i * 90000,
                    decreases n - i,
                {
                    assert(ys.take(i + 1).drop_last() =~= ys.take(i as int));
                    assert((*buckets@[n - 1 - i])@ == seconds[n - 1 - i]);
                    let y: u64 = buckets[n - 1 - i].gap.quantile(q_milli);
                    assert(y == ys[i as int]);
                    proof {
                        assert(0 <= i * y <= 300 * 0x400_0000) by (nonlinear_arith)
                            requires
                                0 <= i < 300,
                                0 <= y < 0x400_0000,
                        ;
                        assert(0 <= i * i <= 90000) by (nonlinear_arith)
                            requires
                                0 <= i < 300,
                        ;
                    }
                    let weighted: i128 = i as i128 * y as i128;
                    let square: i128 = i as i128 * i as i128;
                    sum = sum + y as i128;
                    by_place = by_place + weighted;
                    places = places + i as i128;
                    squares = squares + square;
                    i = i + 1;
                }
                assert(ys.take(i as int) =~= ys);
                proof {
                    lemma_slope_denominator(n as nat);
                    let b: int = 300int * 0x4_b000_0000int;
                    assert(0 <= n * by_place <= 300 * b) by (nonlinear_arith)
                        requires
                            0 <= n <= 300,
                            0 <= by_place <= b,
                            b >= 0,
                    ;
                    assert(0 <= places * sum <= 90000 * (300 * 0x400_0000)) by (nonlinear_arith)
                        requires
                            0 <= places <= 90000,
                            0 <= sum <= 300 * 0x400_0000,
                    ;
                    assert(0 <= n * squares <= 300 * 27000000) by (nonlinear_arith)
                        requires
                            0 <= n <= 300,
                            0 <= squares <= 27000000,
                    ;
                    assert(0 <= places * places <= 90000 * 90000) by (nonlinear_arith)
                        requires
                            0 <= places <= 90000,
                    ;
                }
                (n as i128 * by_place - places * sum, n as i128 * squares - places * places)
            },
        }
    }
}

} // verus!
