//! What the control loop of a stage promises of every tick, whatever the queue
//! and the workers do.

use vstd::prelude::*;
use crate::autoscaler::{
    first_running, held, is_first_running, is_lowest_free, none_running, reaped, ScaleRules,
    ScalerModel, SpawnKind, TickAction, TickOutcome, Worker,
};
use crate::config::StageSlo;
use crate::eos::BarrierState;

verus! {

/// How many have not left.
pub open spec fn staying(done: Seq<bool>) -> nat
    decreases done.len(),
{
    if done.len() == 0 {
        0
    } else if done.last() {
        staying(done.drop_last())
    } else {
        staying(done.drop_last()) + 1
    }
}

/// The stage is neither retired nor finishing, and its queue holds `d` events.
pub open spec fn is_open(
    stop: bool,
    depth: Option<u64>,
    through_workers: bool,
    b: BarrierState,
    d: u64,
) -> bool {
    &&& !stop
    &&& depth == Some(d)
    &&& !b.finishing
    &&& b.seen < b.expected_in || (!through_workers && d > 0)
}

proof fn lemma_staying(workers: Seq<Worker>, done: Seq<bool>)
    requires
        done.len() == workers.len(),
    ensures
        reaped(workers, done).len() == staying(done),
        forall|i: int|
            0 <= i < workers.len() && !done[i] ==> reaped(workers, done).contains(
                #[trigger] workers[i],
            ),
        forall|j: int|
            #![trigger reaped(workers, done)[j]]
            0 <= j < reaped(workers, done).len() ==> exists|i: int|
                0 <= i < workers.len() && !done[i] && #[trigger] workers[i] == reaped(
                    workers,
                    done,
                )[j],
    decreases workers.len(),
{
    if workers.len() > 0 {
        let w = workers.drop_last();
        let d = done.drop_last();
        let r = reaped(workers, done);
        lemma_staying(w, d);
        lemma_same_reaping(w, done, d);
        let rest = reaped(w, d);
        assert forall|i: int| 0 <= i < workers.len() && !done[i] implies r.contains(
            #[trigger] workers[i],
        ) by {
            if i < w.len() {
                assert(rest.contains(w[i]));
                let k = choose|k: int| 0 <= k < rest.len() && rest[k] == w[i];
                assert(r[k] == workers[i]);
            } else {
                assert(r[rest.len() as int] == workers[i]);
            }
        }
        assert forall|j: int| #![trigger r[j]] 0 <= j < r.len() implies exists|i: int|
            0 <= i < workers.len() && !done[i] && #[trigger] workers[i] == r[j] by {
            if j < rest.len() {
                assert(rest[j] == r[j]);
                let i = choose|i: int| 0 <= i < w.len() && !d[i] && #[trigger] w[i] == rest[j];
                assert(workers[i] == r[j]);
            } else {
                assert(workers[workers.len() - 1] == r[j]);
            }
        }
    }
}

proof fn lemma_same_reaping(workers: Seq<Worker>, a: Seq<bool>, b: Seq<bool>)
    requires
        workers.len() <= a.len(),
        workers.len() <= b.len(),
        forall|i: int| 0 <= i < workers.len() ==> a[i] == b[i],
    ensures
        reaped(workers, a) == reaped(workers, b),
    decreases workers.len(),
{
    if workers.len() > 0 {
        lemma_same_reaping(workers.drop_last(), a, b);
    }
}

/// Law: the rules of a stage are those that it declares: as few and as many
/// replicas as it says, and its thresholds; a time of less than 2^32 milliseconds
/// is as many ticks.
pub proof fn law_rules_are_the_declared_ones(slo: StageSlo)
    ensures
        crate::autoscaler::rules_of(slo).min == slo.min_replicas,
        crate::autoscaler::rules_of(slo).max == slo.max_replicas,
        slo.queue_up_milli matches Some(x) ==> crate::autoscaler::rules_of(slo).queue_up_milli == x,
        slo.queue_down_milli matches Some(x) ==> crate::autoscaler::rules_of(slo).queue_down_milli
            == x,
        slo.cooldown_up_ms matches Some(x) ==> 1 <= x < 0x1_0000_0000
            ==> crate::autoscaler::rules_of(slo).cooldown_up * crate::autoscaler::TICK_MS == x,
        slo.cooldown_down_ms matches Some(x) ==> 1 <= x < 0x1_0000_0000
            ==> crate::autoscaler::rules_of(slo).cooldown_down * crate::autoscaler::TICK_MS == x,
{
}

/// Law: a replica is told to go for want of work only while there are more of them
/// than the least the stage declares, and only after the queue has been as empty
/// as the stage likes it for long enough. It is the oldest one that was not told
/// before, and no other is told.
pub proof fn law_minimum_is_kept(
    m: ScalerModel,
    done: Seq<bool>,
    stop: bool,
    depth: Option<u64>,
    through_workers: bool,
    b: BarrierState,
)
    requires
        m.wf(),
        done.len() == m.workers.len(),
    ensures
        ({
            let (out, r) = m.ticked(done, stop, depth, through_workers, b);
            r.action matches TickAction::Drain(at) ==> {
                &&& staying(done) > m.rules.min
                &&& out.workers.len() == staying(done)
                &&& at < out.workers.len()
                &&& out.workers[at as int].draining
                &&& forall|k: int| 0 <= k < at ==> (#[trigger] out.workers[k]).draining
                &&& exists|i: int|
                    0 <= i < m.workers.len() && !done[i] && !(#[trigger] m.workers[i]).draining
                        && m.workers[i].replica_idx == out.workers[at as int].replica_idx
                &&& forall|k: int|
                    at < k < out.workers.len() ==> m.workers.contains(#[trigger] out.workers[k])
                &&& depth is Some
                &&& depth->0 as int * 1000 <= m.rules.queue_down_milli ==> m.down_votes + 1
                    >= m.rules.cooldown_down
                &&& depth->0 as int * 1000 > m.rules.queue_down_milli ==> m.rules.cooldown_down
                    == 0 || m.down_votes > m.rules.cooldown_down
                &&& out.down_votes == 0
            }
        }),
{
    lemma_staying(m.workers, done);
    let (out, r) = m.ticked(done, stop, depth, through_workers, b);
    if let TickAction::Drain(at) = r.action {
        let w = reaped(m.workers, done);
        let v = m.begun(done).voted(depth->0 as nat);
        crate::autoscaler::lemma_first_running(w);
        let f = first_running(w);
        assert(is_first_running(w, f));
        lemma_in_range(m, done);
        assert(at == f);
        assert forall|k: int| at < k < out.workers.len() implies m.workers.contains(
            #[trigger] out.workers[k],
        ) by {
            assert(out.workers[k] == w[k]);
            let i = choose|i: int| 0 <= i < m.workers.len() && !done[i] && #[trigger] m.workers[i]
                == w[k];
            assert(m.workers[i] == w[k]);
        }
        assert(out.workers[at as int].replica_idx == w[at as int].replica_idx);
        let i = choose|i: int| 0 <= i < m.workers.len() && !done[i] && #[trigger] m.workers[i]
            == w[at as int];
        assert(m.workers[i] == w[at as int]);
        assert forall|k: int| 0 <= k < at implies (#[trigger] out.workers[k]).draining by {
            assert(out.workers[k] == w[k]);
        }
    }
}

/// The workers that stay are no more than there may be, and so are fewer than can
/// be counted.
proof fn lemma_in_range(m: ScalerModel, done: Seq<bool>)
    requires
        m.wf(),
        done.len() == m.workers.len(),
    ensures
        reaped(m.workers, done).len() <= m.rules.max,
        m.begun(done).wf(),
{
    crate::autoscaler::lemma_reaped(m.workers, done);
    let w = reaped(m.workers, done);
    let begun = m.begun(done);
    assert forall|i: int| 0 <= i < w.len() implies (#[trigger] w[i]).replica_idx < m.rules.max by {
        assert(m.workers.contains(w[i]));
    }
    crate::autoscaler::lemma_at_most_max(begun);
}

/// Law: a replica is started only where there may be one more, and only for one of
/// three reasons: there is work and nobody to do it, there are fewer replicas than
/// there should be at least, or the queue has been too deep for long enough.
pub proof fn law_maximum_is_kept(
    m: ScalerModel,
    done: Seq<bool>,
    stop: bool,
    depth: Option<u64>,
    through_workers: bool,
    b: BarrierState,
)
    requires
        m.wf(),
        done.len() == m.workers.len(),
    ensures
        ({
            let (out, r) = m.ticked(done, stop, depth, through_workers, b);
            r.action matches TickAction::Spawn(kind, idx) ==> {
                &&& staying(done) < m.rules.max
                &&& out.workers.len() == staying(done) + 1
                &&& !stop && depth is Some && !b.finishing
                &&& match kind {
                    SpawnKind::ColdStart => staying(done) == 0 && depth->0 > 0,
                    SpawnKind::BelowFloor => staying(done) < m.rules.min || staying(done)
                        < m.warmup,
                    SpawnKind::ScaleUp => {
                        &&& staying(done) >= m.rules.min
                        &&& m.since_spawn >= crate::autoscaler::SPAWN_SETTLE_TICKS - 1
                        &&& depth->0 as int * 1000 > m.rules.queue_up_milli ==> m.up_votes + 1
                            >= m.rules.cooldown_up
                        &&& depth->0 as int * 1000 <= m.rules.queue_up_milli
                            ==> m.rules.cooldown_up == 0 || m.up_votes > m.rules.cooldown_up
                    },
                }
            }
        }),
{
    lemma_staying(m.workers, done);
    lemma_in_range(m, done);
}

/// Law: a stage that has work and no replica gets one, and so does one that has
/// fewer than it should have at least, wherever it may have one more.
pub proof fn law_stages_come_up(
    m: ScalerModel,
    done: Seq<bool>,
    stop: bool,
    depth: Option<u64>,
    through_workers: bool,
    b: BarrierState,
    d: u64,
)
    requires
        m.wf(),
        done.len() == m.workers.len(),
        is_open(stop, depth, through_workers, b, d),
        staying(done) < m.rules.max,
        staying(done) == 0 && d > 0 || staying(done) < m.rules.min || staying(done) < m.warmup,
    ensures
        m.ticked(done, stop, depth, through_workers, b).1.action is Spawn,
        m.ticked(done, stop, depth, through_workers, b).0.workers.len() == staying(done) + 1,
{
    lemma_staying(m.workers, done);
    lemma_in_range(m, done);
}

/// Law: a queue that has been too deep for long enough brings one replica more,
/// where there may be one more and the last one has settled.
pub proof fn law_deep_queues_bring_replicas(
    m: ScalerModel,
    done: Seq<bool>,
    stop: bool,
    depth: Option<u64>,
    through_workers: bool,
    b: BarrierState,
    d: u64,
)
    requires
        m.wf(),
        done.len() == m.workers.len(),
        is_open(stop, depth, through_workers, b, d),
        staying(done) < m.rules.max,
        d as int * 1000 > m.rules.queue_up_milli,
        m.up_votes + 1 >= m.rules.cooldown_up,
        m.since_spawn + 1 >= crate::autoscaler::SPAWN_SETTLE_TICKS,
    ensures
        m.ticked(done, stop, depth, through_workers, b).1.action is Spawn,
        m.ticked(done, stop, depth, through_workers, b).0.workers.len() == staying(done) + 1,
{
    lemma_staying(m.workers, done);
    lemma_in_range(m, done);
}

/// Law: a queue that has been empty enough for long enough lets one replica go,
/// where there are more than the least and one of them still runs.
pub proof fn law_idle_replicas_go(
    m: ScalerModel,
    done: Seq<bool>,
    stop: bool,
    depth: Option<u64>,
    through_workers: bool,
    b: BarrierState,
    d: u64,
)
    requires
        m.wf(),
        done.len() == m.workers.len(),
        is_open(stop, depth, through_workers, b, d),
        staying(done) > m.rules.min,
        staying(done) >= m.warmup,
        d as int * 1000 <= m.rules.queue_down_milli,
        d as int * 1000 <= m.rules.queue_up_milli,
        m.rules.cooldown_up > 0,
        m.down_votes + 1 >= m.rules.cooldown_down,
        exists|i: int| 0 <= i < m.workers.len() && !done[i] && !(#[trigger] m.workers[i]).draining,
    ensures
        m.ticked(done, stop, depth, through_workers, b).1.action is Drain,
{
    lemma_staying(m.workers, done);
    lemma_in_range(m, done);
    let i = choose|i: int|
        0 <= i < m.workers.len() && !done[i] && !(#[trigger] m.workers[i]).draining;
    let w = reaped(m.workers, done);
    assert(w.contains(m.workers[i]));
    let k = choose|k: int| 0 <= k < w.len() && w[k] == m.workers[i];
    assert(!none_running(w));
}

/// A worker of that index has not left.
pub open spec fn keeps(workers: Seq<Worker>, done: Seq<bool>, idx: int) -> bool {
    exists|i: int|
        0 <= i < workers.len() && !done[i] && (#[trigger] workers[i]).replica_idx == idx
}

/// A worker of that index is there, and if it was told to drain, it still is.
pub open spec fn is_there(workers: Seq<Worker>, idx: int, draining: bool) -> bool {
    exists|j: int|
        0 <= j < workers.len() && (#[trigger] workers[j]).replica_idx == idx && (draining
            ==> workers[j].draining)
}

/// The workers of `now` are those of `was`, in their places, except that some more of
/// them may have been told to drain.
spec fn follow(was: Seq<Worker>, now: Seq<Worker>) -> bool {
    &&& was.len() <= now.len()
    &&& forall|j: int|
        0 <= j < was.len() ==> (#[trigger] now[j]).replica_idx == was[j].replica_idx && (
        was[j].draining ==> now[j].draining)
}

proof fn lemma_follow(
    m: ScalerModel,
    done: Seq<bool>,
    stop: bool,
    depth: Option<u64>,
    through_workers: bool,
    b: BarrierState,
)
    requires
        m.wf(),
        done.len() == m.workers.len(),
    ensures
        ({
            let (out, r) = m.ticked(done, stop, depth, through_workers, b);
            let w = reaped(m.workers, done);
            &&& out.rules == m.rules
            &&& follow(w, out.workers)
            &&& out.workers.len() == w.len() + if r.action is Spawn {
                1int
            } else {
                0
            }
            &&& r.action matches TickAction::Spawn(_, idx) ==> out.workers.last() == (Worker {
                replica_idx: idx,
                draining: false,
            })
        }),
{
    lemma_in_range(m, done);
    let (out, r) = m.ticked(done, stop, depth, through_workers, b);
    let w = reaped(m.workers, done);
    if r.action is Drain {
        crate::autoscaler::lemma_first_running(w);
    }
}

/// Law: only those that have left are gone after a tick, and none but one that was
/// started has come. One that was told to drain stays told.
pub proof fn law_only_the_gone_are_reaped(
    m: ScalerModel,
    done: Seq<bool>,
    stop: bool,
    depth: Option<u64>,
    through_workers: bool,
    b: BarrierState,
)
    requires
        m.wf(),
        done.len() == m.workers.len(),
    ensures
        ({
            let (out, r) = m.ticked(done, stop, depth, through_workers, b);
            &&& out.rules == m.rules
            &&& out.workers.len() == staying(done) + if r.action is Spawn {
                1int
            } else {
                0
            }
            &&& forall|i: int|
                0 <= i < m.workers.len() && !done[i] ==> is_there(
                    out.workers,
                    (#[trigger] m.workers[i]).replica_idx as int,
                    m.workers[i].draining,
                )
            &&& forall|j: int|
                0 <= j < staying(done) ==> keeps(
                    m.workers,
                    done,
                    (#[trigger] out.workers[j]).replica_idx as int,
                )
            &&& r.action matches TickAction::Spawn(_, idx) ==> out.workers.last() == (Worker {
                replica_idx: idx,
                draining: false,
            })
        }),
{
    lemma_staying(m.workers, done);
    lemma_follow(m, done, stop, depth, through_workers, b);
    let (out, r) = m.ticked(done, stop, depth, through_workers, b);
    let w = reaped(m.workers, done);
    assert forall|i: int| 0 <= i < m.workers.len() && !done[i] implies is_there(
        out.workers,
        (#[trigger] m.workers[i]).replica_idx as int,
        m.workers[i].draining,
    ) by {
        assert(w.contains(m.workers[i]));
        let j = choose|j: int| 0 <= j < w.len() && w[j] == m.workers[i];
        assert(out.workers[j].replica_idx == w[j].replica_idx);
    }
    assert forall|j: int| 0 <= j < staying(done) implies keeps(
        m.workers,
        done,
        (#[trigger] out.workers[j]).replica_idx as int,
    ) by {
        assert(out.workers[j].replica_idx == w[j].replica_idx);
        let i = choose|i: int| 0 <= i < m.workers.len() && !done[i] && #[trigger] m.workers[i]
            == w[j];
        assert(m.workers[i].replica_idx == out.workers[j].replica_idx);
    }
}

/// Law: a tick that only starts a replica, or does nothing, tells none to drain.
pub proof fn law_nobody_is_sent_away_unasked(
    m: ScalerModel,
    done: Seq<bool>,
    depth: Option<u64>,
    through_workers: bool,
    b: BarrierState,
)
    requires
        m.wf(),
        done.len() == m.workers.len(),
    ensures
        ({
            let (out, r) = m.ticked(done, false, depth, through_workers, b);
            !(r.action is Drain) && r.action != TickAction::Finishing(true) ==> forall|j: int|
                0 <= j < staying(done) ==> m.workers.contains(#[trigger] out.workers[j])
        }),
{
    lemma_staying(m.workers, done);
    lemma_in_range(m, done);
    let (out, r) = m.ticked(done, false, depth, through_workers, b);
    let w = reaped(m.workers, done);
    if !(r.action is Drain) && r.action != TickAction::Finishing(true) {
        assert forall|j: int| 0 <= j < staying(done) implies m.workers.contains(
            #[trigger] out.workers[j],
        ) by {
            assert(out.workers[j] == w[j]);
            let i = choose|i: int| 0 <= i < m.workers.len() && !done[i] && #[trigger] m.workers[i]
                == w[j];
            assert(m.workers[i] == w[j]);
        }
    }
}

/// Law: a replica that is started gets an index below the most there may be, which
/// none that stays holds, and the least such.
pub proof fn law_new_replicas_take_the_least_index(
    m: ScalerModel,
    done: Seq<bool>,
    stop: bool,
    depth: Option<u64>,
    through_workers: bool,
    b: BarrierState,
)
    requires
        m.wf(),
        done.len() == m.workers.len(),
    ensures
        m.ticked(done, stop, depth, through_workers, b).1.action matches TickAction::Spawn(_, idx)
            ==> {
            &&& idx < m.rules.max
            &&& !keeps(m.workers, done, idx as int)
            &&& forall|k: int| 0 <= k < idx ==> #[trigger] keeps(m.workers, done, k)
        },
{
    lemma_staying(m.workers, done);
    lemma_in_range(m, done);
    let w = reaped(m.workers, done);
    if let TickAction::Spawn(_, idx) = m.ticked(done, stop, depth, through_workers, b).1.action {
        crate::autoscaler::lemma_lowest_free(w, m.rules.max as nat);
        assert(is_lowest_free(w, idx as int));
        if keeps(m.workers, done, idx as int) {
            let i = choose|i: int|
                0 <= i < m.workers.len() && !done[i] && (#[trigger] m.workers[i]).replica_idx
                    == idx;
            assert(w.contains(m.workers[i]));
            let j = choose|j: int| 0 <= j < w.len() && w[j] == m.workers[i];
            assert(w[j].replica_idx == idx);
        }
        assert forall|k: int| 0 <= k < idx implies #[trigger] keeps(m.workers, done, k) by {
            assert(held(w, k));
            let j = choose|j: int| 0 <= j < w.len() && (#[trigger] w[j]).replica_idx == k;
            let i = choose|i: int| 0 <= i < m.workers.len() && !done[i] && #[trigger] m.workers[i]
                == w[j];
            assert(m.workers[i].replica_idx == k);
        }
    }
}

/// Law: a stage that is retired tells all its replicas to drain and is done once
/// they have left; it starts none and says nothing else.
pub proof fn law_retired_stages_drain(
    m: ScalerModel,
    done: Seq<bool>,
    depth: Option<u64>,
    through_workers: bool,
    b: BarrierState,
)
    requires
        m.wf(),
        done.len() == m.workers.len(),
    ensures
        ({
            let (out, r) = m.ticked(done, true, depth, through_workers, b);
            &&& r.action == if staying(done) == 0 {
                TickAction::Stopped
            } else {
                TickAction::Stopping
            }
            &&& out.workers.len() == staying(done)
            &&& forall|j: int| 0 <= j < out.workers.len() ==> (#[trigger] out.workers[j]).draining
            &&& !r.sample && !r.breach
        }),
{
    lemma_staying(m.workers, done);
}

/// Law: at the end of the stream the replicas are told to drain, all of them and
/// once: when every marker has come, and nothing is queued where drained workers
/// would not take it from. From then on nothing is started and nothing scaled.
pub proof fn law_the_end_drains_all(
    m: ScalerModel,
    done: Seq<bool>,
    d: u64,
    through_workers: bool,
    b: BarrierState,
)
    requires
        m.wf(),
        done.len() == m.workers.len(),
    ensures
        ({
            let (out, r) = m.ticked(done, false, Some(d), through_workers, b);
            &&& b.finishing <==> r.action == TickAction::Finishing(false)
            &&& (!b.finishing && b.seen >= b.expected_in && (d == 0 || through_workers)) <==> (
            r.action == TickAction::Finishing(true))
            &&& r.action == TickAction::Finishing(true) ==> forall|j: int|
                0 <= j < out.workers.len() ==> (#[trigger] out.workers[j]).draining
            &&& r.action is Finishing ==> out.workers.len() == staying(done)
            &&& r.action is Finishing ==> !r.breach
        }),
{
    lemma_staying(m.workers, done);
}

/// Law: without a reading of the queue nothing is decided: none is started, none is
/// told to drain, and no vote is cast.
pub proof fn law_no_reading_no_decision(
    m: ScalerModel,
    done: Seq<bool>,
    through_workers: bool,
    b: BarrierState,
)
    requires
        m.wf(),
        done.len() == m.workers.len(),
    ensures
        ({
            let (out, r) = m.ticked(done, false, None, through_workers, b);
            &&& r == TickOutcome { action: TickAction::NoSignal, sample: false, breach: false }
            &&& out.up_votes == m.up_votes
            &&& out.down_votes == m.down_votes
            &&& out.workers.len() == staying(done)
        }),
{
    lemma_staying(m.workers, done);
}

/// Law: a queue that is too deep is a vote for more, and ends the votes for fewer; one
/// that is empty enough is the other way round; and one in between takes a vote
/// back from both. A replica that was started or let go uses up the votes for it.
pub proof fn law_votes_follow_the_queue(
    m: ScalerModel,
    done: Seq<bool>,
    stop: bool,
    depth: Option<u64>,
    through_workers: bool,
    b: BarrierState,
    d: u64,
)
    requires
        m.wf(),
        done.len() == m.workers.len(),
        is_open(stop, depth, through_workers, b, d),
        m.up_votes < u32::MAX,
        m.down_votes < u32::MAX,
    ensures
        ({
            let (out, r) = m.ticked(done, stop, depth, through_workers, b);
            let deep = d as int * 1000 > m.rules.queue_up_milli;
            let empty = d as int * 1000 <= m.rules.queue_down_milli;
            let used_up = r.action matches TickAction::Spawn(k, _) && k != SpawnKind::BelowFloor;
            &&& used_up ==> out.up_votes == 0
            &&& deep ==> out.down_votes == 0
            &&& deep && !used_up ==> out.up_votes == m.up_votes + 1
            &&& !deep && empty ==> out.up_votes == 0
            &&& !deep && empty && !(r.action is Drain || r.action is Idle) ==> out.down_votes
                == m.down_votes + 1
            &&& !deep && empty ==> out.down_votes == 0 || out.down_votes == m.down_votes + 1
            &&& !deep && !empty && !used_up ==> out.up_votes == if m.up_votes > 0 {
                m.up_votes - 1
            } else {
                0
            }
            &&& !deep && !empty ==> out.down_votes <= m.down_votes
            &&& r.action is Spawn ==> out.since_spawn == 0
            &&& !(r.action is Spawn) && m.since_spawn < u32::MAX ==> out.since_spawn
                == m.since_spawn + 1
        }),
{
    lemma_in_range(m, done);
}

/// Law: the queue is sampled every fiftieth tick, and no tick between.
pub proof fn law_samples_are_fifty_ticks_apart(
    m: ScalerModel,
    done: Seq<bool>,
    d: u64,
    through_workers: bool,
    b: BarrierState,
)
    requires
        m.tick < u64::MAX,
    ensures
        m.ticked(done, false, Some(d), through_workers, b).1.sample <==> (m.tick + 1) % 50 == 0,
        m.ticked(done, false, Some(d), through_workers, b).0.tick == m.tick + 1,
{
}

/// Law: that a stage cannot keep up is said only when its queue is too deep and it
/// has every replica that it may have.
pub proof fn law_breaches_are_real(
    m: ScalerModel,
    done: Seq<bool>,
    stop: bool,
    depth: Option<u64>,
    through_workers: bool,
    b: BarrierState,
)
    requires
        m.wf(),
        done.len() == m.workers.len(),
        m.ticked(done, stop, depth, through_workers, b).1.breach,
    ensures
        depth is Some,
        depth->0 as int * 1000 > m.rules.queue_up_milli,
        staying(done) == m.rules.max,
        m.up_votes + 2 == m.rules.cooldown_up || m.rules.cooldown_up <= 1,
{
    lemma_staying(m.workers, done);
    lemma_in_range(m, done);
}

/// Law: that a stage cannot keep up is said on the last vote but one before it would
/// have got another replica, if it might have one.
pub proof fn law_breaches_are_told(
    m: ScalerModel,
    done: Seq<bool>,
    stop: bool,
    depth: Option<u64>,
    through_workers: bool,
    b: BarrierState,
    d: u64,
)
    requires
        m.wf(),
        done.len() == m.workers.len(),
        is_open(stop, depth, through_workers, b, d),
        d as int * 1000 > m.rules.queue_up_milli,
        staying(done) == m.rules.max,
        m.rules.max > 0,
        m.rules.min <= m.rules.max,
        m.warmup <= m.rules.max,
        m.up_votes + 2 == m.rules.cooldown_up,
    ensures
        m.ticked(done, stop, depth, through_workers, b).1.breach,
{
    lemma_staying(m.workers, done);
    lemma_in_range(m, done);
}

/// Law: a replica that is due is put off only where there are as many as there may be.
pub proof fn law_only_full_stages_put_off(
    m: ScalerModel,
    done: Seq<bool>,
    stop: bool,
    depth: Option<u64>,
    through_workers: bool,
    b: BarrierState,
)
    requires
        m.wf(),
        done.len() == m.workers.len(),
        m.ticked(done, stop, depth, through_workers, b).1.action is Deferred,
    ensures
        staying(done) == m.rules.max,
        staying(done) < m.rules.min || staying(done) < m.warmup,
        !stop,
{
    lemma_staying(m.workers, done);
    lemma_in_range(m, done);
}

/// Law: a new stage has no replicas and no votes, is not held up before its first one,
/// and comes up with as many as it was asked to, as far as it may have them; once
/// it has had so many, that is forgotten.
pub proof fn law_new_stages_come_up_as_asked(
    rules: ScaleRules,
    initial: usize,
    m: ScalerModel,
    done: Seq<bool>,
    stop: bool,
    depth: Option<u64>,
    through_workers: bool,
    b: BarrierState,
)
    requires
        m.wf(),
        done.len() == m.workers.len(),
    ensures
        ({
            let s = crate::autoscaler::fresh_scaler(rules, initial);
            &&& s.wf()
            &&& s.rules == rules
            &&& s.workers.len() == 0
            &&& s.up_votes == 0 && s.down_votes == 0 && s.tick == 0
            &&& s.since_spawn + 1 >= crate::autoscaler::SPAWN_SETTLE_TICKS
            &&& s.warmup <= rules.max
            &&& s.warmup <= initial
            &&& s.warmup == rules.max || s.warmup == initial
        }),
        m.ticked(done, stop, depth, through_workers, b).0.warmup == if staying(done) >= m.warmup {
            0
        } else {
            m.warmup
        },
{
    lemma_staying(m.workers, done);
}

} // verus!
