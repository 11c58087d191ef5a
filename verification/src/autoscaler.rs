//! The control loop of a stage: how many replicas it runs, and which.
//!
//! The loop ticks every millisecond. A tick reaps the workers that have left,
//! looks at the queue, and at most starts or drains one replica. Replicas have
//! indices, and an index is given out again only when its worker has left: on a
//! mesh an index is a column, and a column has one reader.

use vstd::prelude::*;
use crate::config::StageSlo;
use crate::eos::{BarrierState, StageEosBarrier};

verus! {

/// Milliseconds between two ticks.
pub const TICK_MS: u64 = 1;

/// Ticks to let a new replica settle before another is started.
pub const SPAWN_SETTLE_TICKS: u32 = 3;

/// Ticks between two samples of the queue.
pub const SAMPLE_TICKS: u64 = 50;

/// The scaling rules of a stage.
#[derive(Clone, Copy, Debug, PartialEq, Eq, Structural)]
pub struct ScaleRules {
    pub min: usize,
    pub max: usize,
    /// More queued than this, in thousandths of an event, asks for a replica.
    pub queue_up_milli: i64,
    /// No more queued than this lets one go.
    pub queue_down_milli: i64,
    pub cooldown_up: u32,
    pub cooldown_down: u32,
}

/// A time in ticks: one at least, and no more than the counter takes.
pub open spec fn ticks_of(ms: int) -> u32 {
    let ticks = if ms < 1 {
        1
    } else {
        ms / TICK_MS as int
    };
    (ticks % 0x1_0000_0000) as u32
}

fn to_ticks(ms: i64) -> (n: u32)
    ensures
        n == ticks_of(ms as int),
{
    if ms < 1 {
        1
    } else {
        ((ms as u64 / TICK_MS) % 0x1_0000_0000) as u32
    }
}

/// A declared value, or the usual one.
pub open spec fn or_usual(v: Option<i64>, usual: i64) -> i64 {
    match v {
        None => usual,
        Some(x) => x,
    }
}

/// The rules a stage declares, with the usual ones for what it leaves out.
pub open spec fn rules_of(slo: StageSlo) -> ScaleRules {
    ScaleRules {
        min: slo.min_replicas,
        max: slo.max_replicas,
        queue_up_milli: or_usual(slo.queue_up_milli, 50_000),
        queue_down_milli: or_usual(slo.queue_down_milli, 0),
        cooldown_up: ticks_of(or_usual(slo.cooldown_up_ms, 100) as int),
        cooldown_down: ticks_of(or_usual(slo.cooldown_down_ms, 5_000) as int),
    }
}

impl ScaleRules {
    /// The rules a stage declares, with the usual ones for what it leaves out.
    pub fn of(slo: &StageSlo) -> (r: ScaleRules)
        ensures
            r == rules_of(*slo),
            r == (ScaleRules {
                min: slo.min_replicas,
                max: slo.max_replicas,
                queue_up_milli: or_usual(slo.queue_up_milli, 50_000),
                queue_down_milli: or_usual(slo.queue_down_milli, 0),
                cooldown_up: ticks_of(or_usual(slo.cooldown_up_ms, 100) as int),
                cooldown_down: ticks_of(or_usual(slo.cooldown_down_ms, 5_000) as int),
            }),
    {
        ScaleRules {
            min: slo.min_replicas,
            max: slo.max_replicas,
            queue_up_milli: slo.queue_up_milli.unwrap_or(50_000),
            queue_down_milli: slo.queue_down_milli.unwrap_or(0),
            cooldown_up: to_ticks(slo.cooldown_up_ms.unwrap_or(100)),
            cooldown_down: to_ticks(slo.cooldown_down_ms.unwrap_or(5_000)),
        }
    }
}

/// A replica that runs, and whether it has been told to drain.
#[derive(Clone, Copy, Debug, PartialEq, Eq, Structural)]
pub struct Worker {
    pub replica_idx: usize,
    pub draining: bool,
}

/// Why a replica is started.
#[derive(Clone, Copy, Debug, PartialEq, Eq, Structural)]
pub enum SpawnKind {
    /// There is work and nobody to do it.
    ColdStart,
    /// There are fewer replicas than there should be at least.
    BelowFloor,
    /// The queue has been too deep for long enough.
    ScaleUp,
}

/// What a tick asks for.
#[derive(Clone, Copy, Debug, PartialEq, Eq, Structural)]
pub enum TickAction {
    /// The stage is retired and all of its replicas have left.
    Stopped,
    /// The stage is retired; its replicas have been told to drain.
    Stopping,
    /// The queue could not be read.
    NoSignal,
    /// The stream has ended. `true` when the replicas are told to drain now.
    Finishing(bool),
    /// Start a replica with this index.
    Spawn(SpawnKind, usize),
    /// A replica is due, but every index is taken.
    Deferred(SpawnKind),
    /// The worker at this place has been told to drain.
    Drain(usize),
    Idle,
}

/// What came of a tick.
#[derive(Clone, Copy, Debug, PartialEq, Eq, Structural)]
pub struct TickOutcome {
    pub action: TickAction,
    /// The queue is to be sampled.
    pub sample: bool,
    /// The queue is too deep with every replica running, and it is time to
    /// say so.
    pub breach: bool,
}

/// The control loop of a stage, as a value.
pub struct ScalerModel {
    pub rules: ScaleRules,
    pub workers: Seq<Worker>,
    pub tick: u64,
    pub up_votes: u32,
    pub down_votes: u32,
    pub since_spawn: u32,
    pub warmup: usize,
}

/// The index is in use.
pub open spec fn held(workers: Seq<Worker>, idx: int) -> bool {
    exists|i: int| 0 <= i < workers.len() && (#[trigger] workers[i]).replica_idx == idx
}

/// No two workers have one index.
pub open spec fn distinct_indices(workers: Seq<Worker>) -> bool {
    forall|i: int, j: int|
        0 <= i < j < workers.len() ==> (#[trigger] workers[i]).replica_idx != (
        #[trigger] workers[j]).replica_idx
}

/// The workers that have not left.
pub open spec fn reaped(workers: Seq<Worker>, done: Seq<bool>) -> Seq<Worker>
    decreases workers.len(),
{
    if workers.len() == 0 {
        Seq::empty()
    } else {
        let rest = reaped(workers.drop_last(), done);
        if done[workers.len() - 1] {
            rest
        } else {
            rest.push(workers.last())
        }
    }
}

/// The workers, all told to drain.
pub open spec fn all_draining(workers: Seq<Worker>) -> Seq<Worker> {
    workers.map_values(|w: Worker| Worker { draining: true, ..w })
}

/// The lowest index that is not in use.
pub open spec fn is_lowest_free(workers: Seq<Worker>, idx: int) -> bool {
    &&& 0 <= idx
    &&& !held(workers, idx)
    &&& forall|k: int| 0 <= k < idx ==> #[trigger] held(workers, k)
}

pub open spec fn lowest_free(workers: Seq<Worker>) -> int {
    choose|idx: int| is_lowest_free(workers, idx)
}

/// The place of the first worker that has not been told to drain.
pub open spec fn is_first_running(workers: Seq<Worker>, at: int) -> bool {
    &&& 0 <= at < workers.len()
    &&& !workers[at].draining
    &&& forall|k: int| 0 <= k < at ==> (#[trigger] workers[k]).draining
}

pub open spec fn first_running(workers: Seq<Worker>) -> int {
    choose|at: int| is_first_running(workers, at)
}

pub open spec fn none_running(workers: Seq<Worker>) -> bool {
    forall|k: int| 0 <= k < workers.len() ==> (#[trigger] workers[k]).draining
}

/// One more, as far as the counter goes.
pub open spec fn one_more(n: u32) -> u32 {
    if n < u32::MAX {
        (n + 1) as u32
    } else {
        n
    }
}

/// One less, but not below zero.
pub open spec fn one_less(n: u32) -> u32 {
    if n > 0 {
        (n - 1) as u32
    } else {
        0
    }
}

impl ScalerModel {
    /// Every worker has an index of its own, and there are no more of them than
    /// there may be.
    pub open spec fn wf(self) -> bool {
        &&& distinct_indices(self.workers)
        &&& forall|i: int|
            0 <= i < self.workers.len() ==> (#[trigger] self.workers[i]).replica_idx
                < self.rules.max
    }

    /// The queue is deeper than the rules like it.
    pub open spec fn too_deep(self, depth: nat) -> bool {
        depth * 1000 > self.rules.queue_up_milli
    }

    /// The queue is as empty as the rules like it.
    pub open spec fn shallow(self, depth: nat) -> bool {
        depth * 1000 <= self.rules.queue_down_milli
    }

    /// The loop at the beginning of a tick: those that have left are gone, and
    /// the counters have moved.
    pub open spec fn begun(self, done: Seq<bool>) -> ScalerModel {
        let workers = reaped(self.workers, done);
        ScalerModel {
            workers,
            tick: self.tick.wrapping_add(1),
            since_spawn: one_more(self.since_spawn),
            warmup: if workers.len() >= self.warmup {
                0
            } else {
                self.warmup
            },
            ..self
        }
    }

    /// The loop after the queue has been voted on.
    pub open spec fn voted(self, depth: nat) -> ScalerModel {
        if self.too_deep(depth) {
            ScalerModel { up_votes: one_more(self.up_votes), down_votes: 0, ..self }
        } else if self.shallow(depth) {
            ScalerModel { down_votes: one_more(self.down_votes), up_votes: 0, ..self }
        } else {
            ScalerModel {
                up_votes: one_less(self.up_votes),
                down_votes: one_less(self.down_votes),
                ..self
            }
        }
    }

    /// The loop after a replica has been started.
    pub open spec fn spawned(self, kind: SpawnKind) -> ScalerModel {
        ScalerModel {
            workers: self.workers.push(
                Worker { replica_idx: lowest_free(self.workers) as usize, draining: false },
            ),
            since_spawn: 0,
            up_votes: if kind == SpawnKind::BelowFloor {
                self.up_votes
            } else {
                0
            },
            ..self
        }
    }

    /// Why a replica is due, if one is.
    pub open spec fn due(self, depth: nat) -> Option<SpawnKind> {
        let current = self.workers.len();
        if current == 0 && depth > 0 && self.rules.max > 0 {
            Some(SpawnKind::ColdStart)
        } else if current < self.rules.min || current < self.warmup {
            Some(SpawnKind::BelowFloor)
        } else if self.up_votes >= self.rules.cooldown_up && self.since_spawn
            >= SPAWN_SETTLE_TICKS && current < self.rules.max {
            Some(SpawnKind::ScaleUp)
        } else {
            None
        }
    }

    /// It is time to let a replica go.
    pub open spec fn may_drain(self) -> bool {
        self.down_votes >= self.rules.cooldown_down && self.workers.len() > self.rules.min
    }

    /// The loop after the votes have been acted on, and what is to be done.
    pub open spec fn scaled(self, depth: nat) -> (ScalerModel, TickAction, bool) {
        match self.due(depth) {
            Some(kind) => if self.workers.len() < self.rules.max {
                (
                    self.spawned(kind),
                    TickAction::Spawn(kind, lowest_free(self.workers) as usize),
                    false,
                )
            } else {
                (self, TickAction::Deferred(kind), false)
            },
            None => {
                let breach = self.too_deep(depth) && self.workers.len() >= self.rules.max && (
                self.up_votes == one_less(self.rules.cooldown_up) || self.up_votes == 0);
                if self.may_drain() {
                    if none_running(self.workers) {
                        (ScalerModel { down_votes: 0, ..self }, TickAction::Idle, breach)
                    } else {
                        let at = first_running(self.workers);
                        (
                            ScalerModel {
                                down_votes: 0,
                                workers: self.workers.update(
                                    at,
                                    Worker { draining: true, ..self.workers[at] },
                                ),
                                ..self
                            },
                            TickAction::Drain(at as usize),
                            breach,
                        )
                    }
                } else {
                    (self, TickAction::Idle, breach)
                }
            },
        }
    }

    /// One tick, up to the point where the queue is looked at.
    pub open spec fn stopping(self, done: Seq<bool>) -> (ScalerModel, TickAction) {
        let m = self.begun(done);
        if m.workers.len() == 0 {
            (m, TickAction::Stopped)
        } else {
            (ScalerModel { workers: all_draining(m.workers), ..m }, TickAction::Stopping)
        }
    }

    /// One tick. `depth` is what the queue holds, where it can be read;
    /// `through_workers` tells that what is queued reaches the workers even
    /// when they drain.
    pub open spec fn ticked(
        self,
        done: Seq<bool>,
        stop: bool,
        depth: Option<u64>,
        through_workers: bool,
        barrier: BarrierState,
    ) -> (ScalerModel, TickOutcome) {
        let m = self.begun(done);
        if stop {
            let (after, action) = self.stopping(done);
            (after, TickOutcome { action, sample: false, breach: false })
        } else {
            match depth {
                None => (m, TickOutcome {
                    action: TickAction::NoSignal,
                    sample: false,
                    breach: false,
                }),
                Some(d) => {
                    let sample = m.tick % SAMPLE_TICKS == 0;
                    if barrier.finishing {
                        (m, TickOutcome {
                            action: TickAction::Finishing(false),
                            sample,
                            breach: false,
                        })
                    } else if begins_finishing(barrier, d as nat, through_workers) {
                        (
                            ScalerModel { workers: all_draining(m.workers), ..m },
                            TickOutcome {
                                action: TickAction::Finishing(true),
                                sample,
                                breach: false,
                            },
                        )
                    } else {
                        let (after, action, breach) = m.voted(d as nat).scaled(d as nat);
                        (after, TickOutcome { action, sample, breach })
                    }
                },
            }
        }
    }
}

/// The stage is to start finishing: every marker has come, and nothing is left
/// where drained workers would not take it from.
pub open spec fn begins_finishing(b: BarrierState, depth: nat, through_workers: bool) -> bool {
    !b.finishing && b.seen >= b.expected_in && (through_workers || depth == 0)
}

pub(crate) proof fn lemma_reaped(workers: Seq<Worker>, done: Seq<bool>)
    ensures
        reaped(workers, done).len() <= workers.len(),
        distinct_indices(workers) ==> distinct_indices(reaped(workers, done)),
        forall|k: int|
            0 <= k < reaped(workers, done).len() ==> workers.contains(
                #[trigger] reaped(workers, done)[k],
            ),
    decreases workers.len(),
{
    if workers.len() > 0 {
        let rest = workers.drop_last();
        let r = reaped(rest, done);
        lemma_reaped(rest, done);
        assert forall|k: int| 0 <= k < reaped(workers, done).len() implies workers.contains(
            #[trigger] reaped(workers, done)[k],
        ) by {
            if k < r.len() {
                assert(rest.contains(r[k]));
                let i = choose|i: int| 0 <= i < rest.len() && rest[i] == r[k];
                assert(workers[i] == r[k]);
            } else {
                assert(workers[workers.len() - 1] == workers.last());
            }
        }
        if distinct_indices(workers) {
            let out = reaped(workers, done);
            assert forall|i: int, j: int| 0 <= i < j < out.len() implies (
            #[trigger] out[i]).replica_idx != (#[trigger] out[j]).replica_idx by {
                if j < r.len() {
                    assert(r[i].replica_idx != r[j].replica_idx);
                } else {
                    assert(rest.contains(r[i]));
                    let a = choose|a: int| 0 <= a < rest.len() && rest[a] == r[i];
                    assert(workers[a] == r[i]);
                    assert(workers[a].replica_idx != workers[workers.len() - 1].replica_idx);
                }
            }
        }
    }
}

/// With fewer workers than indices, one index is free.
proof fn lemma_some_index_is_free(workers: Seq<Worker>, max: nat)
    requires
        distinct_indices(workers),
        workers.len() < max,
    ensures
        exists|k: int| 0 <= k < max && !#[trigger] held(workers, k),
{
    if forall|k: int| 0 <= k < max ==> #[trigger] held(workers, k) {
        let used = Seq::new(workers.len(), |i: int| workers[i].replica_idx as int);
        assert(used.no_duplicates());
        used.unique_seq_to_set();
        let all = vstd::set_lib::set_int_range(0, max as int);
        vstd::set_lib::lemma_int_range(0, max as int);
        assert forall|k: int| all.contains(k) implies used.to_set().contains(k) by {
            assert(held(workers, k));
            let i = choose|i: int|
                0 <= i < workers.len() && (#[trigger] workers[i]).replica_idx == k;
            assert(used[i] == k);
        }
        vstd::set_lib::lemma_len_subset(all, used.to_set());
    }
}

proof fn lemma_lowest_free_exists(workers: Seq<Worker>, k: int)
    requires
        0 <= k,
        !held(workers, k),
    ensures
        exists|idx: int| is_lowest_free(workers, idx) && idx <= k,
    decreases k,
{
    if forall|j: int| 0 <= j < k ==> #[trigger] held(workers, j) {
        assert(is_lowest_free(workers, k));
    } else {
        let j = choose|j: int| 0 <= j < k && !#[trigger] held(workers, j);
        lemma_lowest_free_exists(workers, j);
    }
}

/// With fewer workers than indices, the lowest free index is one of them.
pub(crate) proof fn lemma_lowest_free(workers: Seq<Worker>, max: nat)
    requires
        distinct_indices(workers),
        workers.len() < max,
    ensures
        is_lowest_free(workers, lowest_free(workers)),
        lowest_free(workers) < max,
{
    lemma_some_index_is_free(workers, max);
    let k = choose|k: int| 0 <= k < max && !#[trigger] held(workers, k);
    lemma_lowest_free_exists(workers, k);
    let idx = choose|idx: int| is_lowest_free(workers, idx) && idx <= k;
    let c = lowest_free(workers);
    assert(is_lowest_free(workers, c));
    if idx < c {
        assert(held(workers, idx));
    }
}

proof fn lemma_draining_keeps_indices(workers: Seq<Worker>)
    requires
        distinct_indices(workers),
    ensures
        distinct_indices(all_draining(workers)),
{
    let out = all_draining(workers);
    assert forall|i: int, j: int| 0 <= i < j < out.len() implies (#[trigger] out[i]).replica_idx
        != (#[trigger] out[j]).replica_idx by {
        assert(workers[i].replica_idx != workers[j].replica_idx);
    }
}

/// Law: no tick ever gives an index to two workers, and none runs more replicas
/// than the stage may have.
pub proof fn law_indices_stay_unique(
    m: ScalerModel,
    done: Seq<bool>,
    stop: bool,
    depth: Option<u64>,
    through_workers: bool,
    barrier: BarrierState,
)
    requires
        m.wf(),
        done.len() == m.workers.len(),
    ensures
        m.ticked(done, stop, depth, through_workers, barrier).0.wf(),
        m.ticked(done, stop, depth, through_workers, barrier).0.workers.len() <= m.rules.max,
{
    let b = m.begun(done);
    lemma_reaped(m.workers, done);
    assert forall|i: int| 0 <= i < b.workers.len() implies (#[trigger] b.workers[i]).replica_idx
        < m.rules.max by {
        assert(m.workers.contains(b.workers[i]));
    }
    assert(b.wf());
    lemma_draining_keeps_indices(b.workers);
    let d = ScalerModel { workers: all_draining(b.workers), ..b };
    assert forall|i: int| 0 <= i < d.workers.len() implies (#[trigger] d.workers[i]).replica_idx
        < m.rules.max by {
        assert(b.workers[i].replica_idx < m.rules.max);
    }
    assert(d.wf());
    let out = m.ticked(done, stop, depth, through_workers, barrier).0;
    if !stop && depth is Some && !barrier.finishing && !begins_finishing(
        barrier,
        depth->0 as nat,
        through_workers,
    ) {
        let v = b.voted(depth->0 as nat);
        assert(v.wf());
        lemma_scaled_keeps_wf(v, depth->0 as nat);
    }
    lemma_at_most_max(out);
}

proof fn lemma_scaled_keeps_wf(v: ScalerModel, depth: nat)
    requires
        v.wf(),
    ensures
        v.scaled(depth).0.wf(),
{
    let out = v.scaled(depth).0;
    if v.due(depth) is Some {
        if v.workers.len() < v.rules.max {
            lemma_lowest_free(v.workers, v.rules.max as nat);
            let idx = lowest_free(v.workers);
            assert forall|i: int, j: int| 0 <= i < j < out.workers.len() implies (
            #[trigger] out.workers[i]).replica_idx != (#[trigger] out.workers[j]).replica_idx by {
                if j == v.workers.len() {
                    assert(v.workers[i].replica_idx != idx);
                }
            }
        }
    } else if v.may_drain() && !none_running(v.workers) {
        lemma_first_running(v.workers);
    }
}

pub(crate) proof fn lemma_at_most_max(m: ScalerModel)
    requires
        m.wf(),
    ensures
        m.workers.len() <= m.rules.max,
{
    if m.workers.len() > m.rules.max {
        let used = Seq::new(m.workers.len(), |i: int| m.workers[i].replica_idx as int);
        assert(used.no_duplicates());
        used.unique_seq_to_set();
        let all = vstd::set_lib::set_int_range(0, m.rules.max as int);
        vstd::set_lib::lemma_int_range(0, m.rules.max as int);
        assert forall|k: int| used.to_set().contains(k) implies all.contains(k) by {
            let i = choose|i: int| 0 <= i < used.len() && used[i] == k;
            assert(m.workers[i].replica_idx < m.rules.max);
        }
        vstd::set_lib::lemma_len_subset(used.to_set(), all);
    }
}

pub(crate) proof fn lemma_first_running(workers: Seq<Worker>)
    requires
        !none_running(workers),
    ensures
        is_first_running(workers, first_running(workers)),
{
    let w = choose|w: int| 0 <= w < workers.len() && !(#[trigger] workers[w]).draining;
    lemma_first_running_from(workers, w);
}

proof fn lemma_first_running_from(workers: Seq<Worker>, w: int)
    requires
        0 <= w < workers.len(),
        !workers[w].draining,
    ensures
        exists|at: int| is_first_running(workers, at),
    decreases w,
{
    if forall|k: int| 0 <= k < w ==> (#[trigger] workers[k]).draining {
        assert(is_first_running(workers, w));
    } else {
        let k = choose|k: int| 0 <= k < w && !(#[trigger] workers[k]).draining;
        lemma_first_running_from(workers, k);
    }
}

/// The loop of a stage that has no replicas yet.
pub open spec fn fresh_scaler(rules: ScaleRules, initial: usize) -> ScalerModel {
    ScalerModel {
        rules,
        workers: Seq::empty(),
        tick: 0,
        up_votes: 0,
        down_votes: 0,
        since_spawn: u32::MAX,
        warmup: if initial < rules.max {
            initial
        } else {
            rules.max
        },
    }
}

/// The control loop of a stage.
#[derive(Debug)]
pub struct Scaler {
    rules: ScaleRules,
    workers: Vec<Worker>,
    /// Which indices are not in use.
    free: Vec<bool>,
    tick: u64,
    up_votes: u32,
    down_votes: u32,
    since_spawn: u32,
    warmup: usize,
}

impl View for Scaler {
    type V = ScalerModel;

    closed spec fn view(&self) -> ScalerModel {
        ScalerModel {
            rules: self.rules,
            workers: self.workers@,
            tick: self.tick,
            up_votes: self.up_votes,
            down_votes: self.down_votes,
            since_spawn: self.since_spawn,
            warmup: self.warmup,
        }
    }
}

impl Scaler {
    /// The free indices are those that no worker holds.
    pub closed spec fn wf(&self) -> bool {
        &&& self@.wf()
        &&& self.free@.len() == self.rules.max
        &&& forall|k: int|
            0 <= k < self.free@.len() ==> #[trigger] self.free@[k] == !held(self.workers@, k)
    }

    /// Law: whatever has happened, every replica has an index of its own, and there
    /// are no more of them than there may be.
    pub proof fn law_replicas_are_bounded(&self)
        requires
            self.wf(),
        ensures
            self@.wf(),
            self@.workers.len() <= self@.rules.max,
    {
        lemma_at_most_max(self@);
    }

    /// A stage without replicas that is to come up with `initial` of them, as
    /// far as it may have so many, before the usual rules take over.
    pub fn new(rules: ScaleRules, initial: usize) -> (s: Scaler)
        ensures
            s.wf(),
            s@ == fresh_scaler(rules, initial),
            s@ == (ScalerModel {
                rules,
                workers: Seq::empty(),
                tick: 0,
                up_votes: 0,
                down_votes: 0,
                since_spawn: u32::MAX,
                warmup: if initial < rules.max {
                    initial
                } else {
                    rules.max
                },
            }),
    {
        let mut free: Vec<bool> = Vec::new();
        let mut i: usize = 0;
        while i < rules.max
            invariant
                i <= rules.max,
                free@.len() == i,
                forall|k: int| 0 <= k < i ==> free@[k],
            decreases rules.max - i,
        {
            free.push(true);
            i = i + 1;
        }
        Scaler {
            rules,
            workers: Vec::new(),
            free,
            tick: 0,
            up_votes: 0,
            down_votes: 0,
            since_spawn: u32::MAX,
            warmup: if initial < rules.max {
                initial
            } else {
                rules.max
            },
        }
    }

    /// How many replicas there are.
    pub fn live(&self) -> (n: usize)
        ensures
            n == self@.workers.len(),
    {
        self.workers.len()
    }

    /// The workers, in the order they were started.
    pub fn workers(&self) -> (w: &Vec<Worker>)
        ensures
            w@ == self@.workers,
    {
        &self.workers
    }

    fn begin(&mut self, done: &Vec<bool>)
        requires
            old(self).wf(),
            done@.len() == old(self)@.workers.len(),
        ensures
            final(self).wf(),
            final(self)@ == old(self)@.begun(done@),
    {
        let mut kept: Vec<Worker> = Vec::new();
        let ghost all = self.workers@;
        let ghost rules = self.rules;
        let n: usize = self.workers.len();
        let mut i: usize = 0;
        assert(kept@ =~= reaped(all.take(0), done@));
        assert(all.skip(0) =~= all);
        while i < n
            invariant
                i <= n == all.len() == done@.len(),
                self.workers@ == all,
                self.rules == rules,
                self.tick == old(self).tick,
                self.up_votes == old(self).up_votes,
                self.down_votes == old(self).down_votes,
                self.since_spawn == old(self).since_spawn,
                self.warmup == old(self).warmup,
                distinct_indices(all),
                forall|k: int|
                    0 <= k < all.len() ==> (#[trigger] all[k]).replica_idx < self.free@.len(),
                self.free@.len() == rules.max,
                kept@ == reaped(all.take(i as int), done@),
                forall|k: int|
                    0 <= k < self.free@.len() ==> #[trigger] self.free@[k] == (!held(kept@, k)
                        && !held(all.skip(i as int), k)),
            decreases n - i,
        {
            assert(all.take(i + 1).drop_last() =~= all.take(i as int));
            let w = self.workers[i];
            let ghost was = kept@;
            let ghost before = self.free@;
            let ghost left = all.skip(i as int);
            let ghost right = all.skip(i + 1);
            assert(w == all[i as int]);
            if done[i] {
                self.free.set(w.replica_idx, true);
            } else {
                kept.push(w);
            }
            proof {
                lemma_reaped(all.take(i as int), done@);
                assert forall|k: int| 0 <= k < self.free@.len() implies #[trigger] self.free@[k]
                    == (!held(kept@, k) && !held(right, k)) by {
                    assert(before[k] == (!held(was, k) && !held(left, k)));
                    // the head of what is left, and the rest of it
                    assert(held(left, k) == (left[0].replica_idx == k || held(right, k))) by {
                        assert(left[0] == w);
                        if held(right, k) {
                            let a = choose|a: int|
                                0 <= a < right.len() && (#[trigger] right[a]).replica_idx == k;
                            assert(left[a + 1].replica_idx == k);
                        }
                        if held(left, k) {
                            let a = choose|a: int|
                                0 <= a < left.len() && (#[trigger] left[a]).replica_idx == k;
                            if a > 0 {
                                assert(right[a - 1].replica_idx == k);
                            }
                        }
                    }
                    if done[i as int] {
                        if k == w.replica_idx {
                            // nobody else holds it
                            if held(was, k) {
                                let a = choose|a: int|
                                    0 <= a < was.len() && (#[trigger] was[a]).replica_idx == k;
                                assert(all.take(i as int).contains(was[a]));
                                let c = choose|c: int|
                                    0 <= c < i && all.take(i as int)[c] == was[a];
                                assert(all[c].replica_idx != all[i as int].replica_idx);
                            }
                            if held(right, k) {
                                let a = choose|a: int|
                                    0 <= a < right.len() && (#[trigger] right[a]).replica_idx == k;
                                assert(all[i as int].replica_idx != all[i + 1 + a].replica_idx);
                            }
                        }
                    } else {
                        assert(held(kept@, k) == (held(was, k) || w.replica_idx == k)) by {
                            assert(kept@[was.len() as int] == w);
                            if held(was, k) {
                                let a = choose|a: int|
                                    0 <= a < was.len() && (#[trigger] was[a]).replica_idx == k;
                                assert(kept@[a].replica_idx == k);
                            }
                            if held(kept@, k) {
                                let a = choose|a: int|
                                    0 <= a < kept@.len() && (#[trigger] kept@[a]).replica_idx == k;
                                if a < was.len() {
                                    assert(was[a].replica_idx == k);
                                }
                            }
                        }
                    }
                }
            }
            i = i + 1;
        }
        assert(all.take(n as int) =~= all);
        proof {
            lemma_reaped(all, done@);
            assert forall|k: int| 0 <= k < kept@.len() implies (#[trigger] kept@[k]).replica_idx
                < rules.max by {
                assert(all.contains(kept@[k]));
            }
        }
        let current: usize = kept.len();
        self.workers = kept;
        self.tick = self.tick.wrapping_add(1);
        self.since_spawn = self.since_spawn.saturating_add(1);
        if current >= self.warmup {
            self.warmup = 0;
        }
    }

    fn drain_all(&mut self)
        requires
            old(self).wf(),
        ensures
            final(self).wf(),
            final(self)@ == (ScalerModel {
                workers: all_draining(old(self)@.workers),
                ..old(self)@
            }),
    {
        let n: usize = self.workers.len();
        let mut i: usize = 0;
        while i < n
            invariant
                i <= n == self.workers@.len() == old(self).workers@.len(),
                self.rules == old(self).rules,
                self.free == old(self).free,
                self.tick == old(self).tick,
                self.up_votes == old(self).up_votes,
                self.down_votes == old(self).down_votes,
                self.since_spawn == old(self).since_spawn,
                self.warmup == old(self).warmup,
                forall|k: int|
                    0 <= k < i ==> #[trigger] self.workers@[k] == all_draining(
                        old(self).workers@,
                    )[k],
                forall|k: int|
                    i <= k < n ==> #[trigger] self.workers@[k] == old(self).workers@[k],
            decreases n - i,
        {
            let w = self.workers[i];
            self.workers.set(i, Worker { replica_idx: w.replica_idx, draining: true });
            i = i + 1;
        }
        assert(self.workers@ =~= all_draining(old(self).workers@));
        proof {
            lemma_draining_keeps_indices(old(self).workers@);
            lemma_same_indices(old(self).workers@, self.workers@);
            assert forall|k: int| 0 <= k < self.workers@.len() implies (
            #[trigger] self.workers@[k]).replica_idx < self.rules.max by {
                assert(old(self).workers@[k].replica_idx < self.rules.max);
            }
        }
    }

    fn spawn(&mut self, kind: SpawnKind) -> (idx: usize)
        requires
            old(self).wf(),
            old(self)@.workers.len() < old(self)@.rules.max,
        ensures
            final(self).wf(),
            final(self)@ == old(self)@.spawned(kind),
            idx == lowest_free(old(self)@.workers),
    {
        proof {
            lemma_lowest_free(self.workers@, self.rules.max as nat);
        }
        let ghost want = lowest_free(self.workers@);
        let ghost was = self.workers@;
        let mut idx: usize = 0;
        while !self.free[idx]
            invariant
                *self == *old(self),
                self.wf(),
                was == self.workers@,
                want == lowest_free(was),
                is_lowest_free(was, want),
                want < self.free@.len(),
                idx <= want,
            decreases want - idx,
        {
            assert(self.free@[idx as int] == !held(was, idx as int));
            assert(self.free@[want] == !held(was, want));
            idx = idx + 1;
        }
        assert(self.free@[idx as int] == !held(was, idx as int));
        assert(idx == want);
        self.free.set(idx, false);
        self.workers.push(Worker { replica_idx: idx, draining: false });
        self.since_spawn = 0;
        match kind {
            SpawnKind::BelowFloor => {},
            _ => {
                self.up_votes = 0;
            },
        }
        proof {
            let now = self.workers@;
            assert forall|k: int| 0 <= k < self.free@.len() implies #[trigger] self.free@[k]
                == !held(now, k) by {
                assert(old(self).free@[k] == !held(was, k));
                assert(now[was.len() as int].replica_idx == idx);
                if held(was, k) {
                    let a = choose|a: int|
                        0 <= a < was.len() && (#[trigger] was[a]).replica_idx == k;
                    assert(now[a].replica_idx == k);
                }
                if held(now, k) && k != idx {
                    let a = choose|a: int|
                        0 <= a < now.len() && (#[trigger] now[a]).replica_idx == k;
                    assert(was[a].replica_idx == k);
                }
            }
            assert forall|i: int, j: int| 0 <= i < j < now.len() implies (
            #[trigger] now[i]).replica_idx != (#[trigger] now[j]).replica_idx by {
                if j == was.len() {
                    assert(was[i].replica_idx != idx);
                } else {
                    assert(was[i].replica_idx != was[j].replica_idx);
                }
            }
        }
        idx
    }

    fn vote(&mut self, depth: u64)
        requires
            old(self).wf(),
        ensures
            final(self).wf(),
            final(self)@ == old(self)@.voted(depth as nat),
    {
        let d: i128 = depth as i128 * 1000;
        if d > self.rules.queue_up_milli as i128 {
            self.up_votes = self.up_votes.saturating_add(1);
            self.down_votes = 0;
        } else if d <= self.rules.queue_down_milli as i128 {
            self.down_votes = self.down_votes.saturating_add(1);
            self.up_votes = 0;
        } else {
            self.up_votes = self.up_votes.saturating_sub(1);
            self.down_votes = self.down_votes.saturating_sub(1);
        }
    }

    fn scale(&mut self, depth: u64) -> (r: (TickAction, bool))
        requires
            old(self).wf(),
        ensures
            final(self).wf(),
            (final(self)@, r.0, r.1) == old(self)@.scaled(depth as nat),
    {
        let current: usize = self.workers.len();
        let rules = self.rules;
        let due: Option<SpawnKind> = if current == 0 && depth > 0 && rules.max > 0 {
            Some(SpawnKind::ColdStart)
        } else if current < rules.min || current < self.warmup {
            Some(SpawnKind::BelowFloor)
        } else if self.up_votes >= rules.cooldown_up && self.since_spawn >= SPAWN_SETTLE_TICKS
            && current < rules.max {
            Some(SpawnKind::ScaleUp)
        } else {
            None
        };
        match due {
            Some(kind) => if current < rules.max {
                let idx: usize = self.spawn(kind);
                (TickAction::Spawn(kind, idx), false)
            } else {
                (TickAction::Deferred(kind), false)
            },
            None => {
                let breach = depth as i128 * 1000 > rules.queue_up_milli as i128 && current
                    >= rules.max && (self.up_votes == rules.cooldown_up.saturating_sub(1)
                    || self.up_votes == 0);
                if self.down_votes >= rules.cooldown_down && current > rules.min {
                    self.down_votes = 0;
                    let mut at: usize = 0;
                    while at < current && self.workers[at].draining
                        invariant
                            at <= current == self.workers@.len(),
                            forall|k: int| 0 <= k < at ==> (#[trigger] self.workers@[k]).draining,
                        decreases current - at,
                    {
                        at = at + 1;
                    }
                    if at < current {
                        let w = self.workers[at];
                        let ghost was = self.workers@;
                        self.workers.set(
                            at,
                            Worker { replica_idx: w.replica_idx, draining: true },
                        );
                        proof {
                            assert(!none_running(was));
                            lemma_first_running(was);
                            let f = first_running(was);
                            assert(is_first_running(was, at as int));
                            assert(f == at);
                            lemma_same_indices(was, self.workers@);
                            assert forall|i: int, j: int|
                                0 <= i < j < self.workers@.len() implies (
                            #[trigger] self.workers@[i]).replica_idx != (
                            #[trigger] self.workers@[j]).replica_idx by {
                                assert(was[i].replica_idx != was[j].replica_idx);
                            }
                        }
                        (TickAction::Drain(at), breach)
                    } else {
                        (TickAction::Idle, breach)
                    }
                } else {
                    (TickAction::Idle, breach)
                }
            },
        }
    }

    /// One tick of the loop. `done` tells which workers have left.
    pub fn tick(
        &mut self,
        done: &Vec<bool>,
        stop: bool,
        depth: Option<u64>,
        through_workers: bool,
        barrier: &mut StageEosBarrier,
    ) -> (r: TickOutcome)
        requires
            old(self).wf(),
            done@.len() == old(self)@.workers.len(),
        ensures
            final(self).wf(),
            (final(self)@, r) == old(self)@.ticked(
                done@,
                stop,
                depth,
                through_workers,
                old(barrier)@,
            ),
            final(barrier)@ == (BarrierState {
                finishing: old(barrier)@.finishing || r.action == TickAction::Finishing(true),
                ..old(barrier)@
            }),
    {
        self.begin(done);
        if stop {
            if self.workers.len() == 0 {
                return TickOutcome { action: TickAction::Stopped, sample: false, breach: false };
            }
            self.drain_all();
            return TickOutcome { action: TickAction::Stopping, sample: false, breach: false };
        }
        let d: u64 = match depth {
            None => {
                return TickOutcome { action: TickAction::NoSignal, sample: false, breach: false };
            },
            Some(d) => d,
        };
        let sample = self.tick % SAMPLE_TICKS == 0;
        if barrier.is_finishing() {
            return TickOutcome { action: TickAction::Finishing(false), sample, breach: false };
        }
        if barrier.all_markers_seen() && (through_workers || d == 0) {
            barrier.begin_finishing();
            self.drain_all();
            return TickOutcome { action: TickAction::Finishing(true), sample, breach: false };
        }
        self.vote(d);
        let (action, breach) = self.scale(d);
        TickOutcome { action, sample, breach }
    }
}

proof fn lemma_same_indices(a: Seq<Worker>, b: Seq<Worker>)
    requires
        a.len() == b.len(),
        forall|i: int| 0 <= i < a.len() ==> (#[trigger] a[i]).replica_idx == b[i].replica_idx,
    ensures
        forall|k: int| #[trigger] held(a, k) == held(b, k),
{
    assert forall|k: int| #[trigger] held(a, k) == held(b, k) by {
        if held(a, k) {
            let i = choose|i: int| 0 <= i < a.len() && (#[trigger] a[i]).replica_idx == k;
            assert(b[i].replica_idx == k);
        }
        if held(b, k) {
            let i = choose|i: int| 0 <= i < b.len() && (#[trigger] b[i]).replica_idx == k;
            assert(a[i].replica_idx == k);
        }
    }
}

} // verus!
