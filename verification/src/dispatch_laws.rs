//! What the broker of a stage promises: that the workers take turns, that none is sent
//! more than it asked for, and that no event is lost or sent twice.

use vstd::prelude::*;
use crate::dispatcher::{
    accepted, after_refill, after_sending, are_distinct, credits_in, credits_key, is_consistent,
    is_known, is_separator, is_sending, is_worker_at, key_at, lacks_workers, leading_number,
    lemma_after_sending, lemma_refill, lemma_worker_at, message, named_credits, next_worker,
    past_separators, payload_of, put_back, settled, turn_size, turn_taken, wants_events,
    without_worker, worker, BrokerModel, SendOutcome,
};

verus! {

/// The credits of the worker of that name; none where there is no such worker.
pub open spec fn credits_of(m: BrokerModel, id: Seq<u8>) -> nat {
    if is_known(m.workers, id) {
        worker(m.workers, id).credits
    } else {
        0
    }
}

/// A turn can begin.
pub open spec fn can_turn(m: BrokerModel) -> bool {
    is_consistent(m) && m.ready.len() > 0 && m.events.len() > 0
}

/// A turn has begun, and the broker was as it should be.
pub proof fn lemma_turn(m: BrokerModel, left: nat, batch_events: nat)
    requires
        can_turn(m),
        left > 0,
    ensures
        ({
            let id = m.ready[0];
            let n = turn_size(m, id, left, batch_events);
            let mid = turn_taken(m);
            &&& next_worker(m) == id
            &&& put_back(mid, id) == m
            &&& is_sending(mid, id, n)
            &&& are_distinct(mid.workers)
            &&& is_known(m.workers, id)
            &&& worker(mid.workers, id).credits == worker(m.workers, id).credits
        }),
{
    let id = m.ready[0];
    let n = turn_size(m, id, left, batch_events);
    let mid = turn_taken(m);
    assert(is_known(m.workers, m.ready[0]));
    let at = choose|i: int| is_worker_at(m.workers, id, i);
    lemma_worker_at(m.workers, id, at);
    assert(m.workers[at].in_ready) by {
        assert(m.ready.contains(m.workers[at].id));
    }
    assert(are_distinct(mid.workers)) by {
        assert forall|i: int, k: int|
            0 <= i < mid.workers.len() && 0 <= k < mid.workers.len() && (
            #[trigger] mid.workers[i]).id == (#[trigger] mid.workers[k]).id implies i == k by {
            assert(m.workers[i].id == m.workers[k].id);
        }
    }
    assert(is_worker_at(mid.workers, id, at));
    lemma_worker_at(mid.workers, id, at);
    let back = put_back(mid, id);
    assert(back.ready =~= m.ready);
    assert(back.workers =~= m.workers) by {
        assert forall|k: int| 0 <= k < m.workers.len() implies back.workers[k] == m.workers[k] by {
            if m.workers[k].id == id {
                assert(m.workers[k].id == m.workers[at].id);
            }
        }
    }
    assert(back =~= m);
}

/// Law: the workers take turns. Whoever has waited longest is sent the next message;
/// after it, those who waited before are as they were, in their order, and ahead
/// of the one just served, which comes last if it has credits left and does not
/// wait at all if it has none.
pub proof fn law_workers_take_turns(m: BrokerModel, left: nat, batch_events: nat)
    requires
        can_turn(m),
        left > 0,
    ensures
        ({
            let id = next_worker(m);
            let n = turn_size(m, id, left, batch_events);
            let (out, sent, go_on) = settled(turn_taken(m), id, n, SendOutcome::Sent);
            &&& id == m.ready[0]
            &&& sent == n
            &&& go_on
            &&& is_consistent(out)
            &&& forall|k: int| 1 <= k < m.ready.len() ==> out.ready[k - 1] == #[trigger] m.ready[k]
            &&& credits_of(m, id) > n ==> out.ready.len() == m.ready.len() && out.ready.last() == id
            &&& credits_of(m, id) == n ==> out.ready.len() == m.ready.len() - 1
            &&& credits_of(m, id) >= n
        }),
{
    lemma_turn(m, left, batch_events);
    let id = m.ready[0];
    let n = turn_size(m, id, left, batch_events);
    lemma_after_sending(turn_taken(m), id, n);
}

/// The broker after a turn whose message went.
pub open spec fn turned(m: BrokerModel, batch_events: nat) -> BrokerModel {
    let n = turn_size(m, next_worker(m), m.events.len(), batch_events);
    settled(turn_taken(m), next_worker(m), n, SendOutcome::Sent).0
}

/// Who is served in so many turns, one after the other.
pub open spec fn served(m: BrokerModel, batch_events: nat, turns: nat) -> Seq<Seq<u8>>
    decreases turns,
{
    if turns == 0 {
        Seq::empty()
    } else {
        seq![next_worker(m)] + served(turned(m, batch_events), batch_events, (turns - 1) as nat)
    }
}

/// Law: each worker in the queue is served once, in the order in which they wait, before
/// any is served twice, as long as there are events.
pub proof fn law_all_are_served_before_any_again(m: BrokerModel, batch_events: nat, turns: nat)
    requires
        is_consistent(m),
        turns <= m.ready.len(),
        batch_events >= 1,
        m.events.len() >= turns * batch_events,
    ensures
        served(m, batch_events, turns) == m.ready.take(turns as int),
    decreases turns,
{
    if turns > 0 {
        assert(turns * batch_events >= 1 && turns * batch_events == (turns - 1) * batch_events
            + batch_events) by (nonlinear_arith)
            requires
                turns >= 1,
                batch_events >= 1,
        ;
        law_workers_take_turns(m, m.events.len(), batch_events);
        lemma_turn(m, m.events.len(), batch_events);
        let id = next_worker(m);
        let n = turn_size(m, id, m.events.len(), batch_events);
        let out = turned(m, batch_events);
        assert(out.events.len() == m.events.len() - n);
        assert(n <= batch_events);
        law_all_are_served_before_any_again(out, batch_events, (turns - 1) as nat);
        assert(m.ready.take(turns as int) =~= seq![id] + out.ready.take(turns - 1)) by {
            assert forall|k: int| 1 <= k < turns implies #[trigger] m.ready[k]
                == out.ready[k - 1] by {}
        }
    } else {
        assert(m.ready.take(0) =~= Seq::<Seq<u8>>::empty());
    }
}

/// Law: no event is lost, and none is sent twice. What a message holds are the oldest
/// events, in their order; once it has gone, the broker holds all others and none
/// of those; and where it has not gone, it holds what it held.
pub proof fn law_no_event_is_lost(
    m: BrokerModel,
    left: nat,
    batch_events: nat,
    outcome: SendOutcome,
)
    requires
        can_turn(m),
        left > 0,
    ensures
        ({
            let id = next_worker(m);
            let n = turn_size(m, id, left, batch_events);
            let (out, sent, go_on) = settled(turn_taken(m), id, n, outcome);
            let frames = message(turn_taken(m), id, n);
            &&& frames.len() == n + 2
            &&& frames[0] == id
            &&& frames[1].len() == 0
            &&& outcome == SendOutcome::Sent ==> sent == n && m.events == frames.skip(2)
                + out.events
            &&& outcome != SendOutcome::Sent ==> sent == 0 && m.events == out.events
            &&& go_on <==> outcome != SendOutcome::Failed
            &&& n >= 1
            &&& n <= left
            &&& batch_events >= 1 ==> n <= batch_events
        }),
{
    lemma_turn(m, left, batch_events);
    let id = next_worker(m);
    let n = turn_size(m, id, left, batch_events);
    let frames = message(turn_taken(m), id, n);
    assert(frames.skip(2) =~= m.events.take(n as int));
    assert(m.events =~= m.events.take(n as int) + m.events.skip(n as int));
}

/// Law: a turn is as large as it may be: it leaves out an event only where the message is
/// full, the round is, or the worker has no credits left.
pub proof fn law_turns_are_as_large_as_they_may_be(m: BrokerModel, left: nat, batch_events: nat)
    requires
        can_turn(m),
        left > 0,
        batch_events >= 1,
    ensures
        ({
            let n = turn_size(m, next_worker(m), left, batch_events);
            n == batch_events || n == left || n == m.events.len() || n == credits_of(
                m,
                next_worker(m),
            )
        }),
{
    lemma_turn(m, left, batch_events);
}

/// Law: a message uses up as many credits of its worker as it holds events, and is counted
/// for it; the other workers keep theirs.
pub proof fn law_credits_are_used_up(
    m: BrokerModel,
    left: nat,
    batch_events: nat,
    other: Seq<u8>,
)
    requires
        can_turn(m),
        left > 0,
        is_known(m.workers, other),
        worker(m.workers, next_worker(m)).dispatched + m.events.len() < u64::MAX,
    ensures
        ({
            let id = next_worker(m);
            let n = turn_size(m, id, left, batch_events);
            let out = settled(turn_taken(m), id, n, SendOutcome::Sent).0;
            &&& is_known(out.workers, id)
            &&& worker(out.workers, id).credits + n == worker(m.workers, id).credits
            &&& worker(out.workers, id).dispatched == worker(m.workers, id).dispatched + n
            &&& is_known(out.workers, other)
            &&& other != id ==> worker(out.workers, other) == worker(m.workers, other)
            &&& out.workers.len() == m.workers.len()
            &&& out.wake_logged == m.wake_logged
        }),
{
    lemma_turn(m, left, batch_events);
    let id = m.ready[0];
    let n = turn_size(m, id, left, batch_events);
    let mid = turn_taken(m);
    let out = after_sending(mid, id, n);
    lemma_after_sending(mid, id, n);
    let at = choose|i: int| is_worker_at(m.workers, id, i);
    lemma_worker_at(m.workers, id, at);
    assert(is_worker_at(mid.workers, id, at));
    lemma_worker_at(mid.workers, id, at);
    assert(is_worker_at(out.workers, id, at));
    lemma_worker_at(out.workers, id, at);
    let k = choose|i: int| is_worker_at(m.workers, other, i);
    lemma_worker_at(m.workers, other, k);
    assert(is_worker_at(out.workers, other, k));
    lemma_worker_at(out.workers, other, k);
    assert(m.workers[at].in_ready) by {
        assert(m.ready.contains(m.workers[at].id));
    }
}

/// Law: a message that did not go changes nothing at all.
pub proof fn law_failed_messages_change_nothing(m: BrokerModel, left: nat, batch_events: nat)
    requires
        can_turn(m),
        left > 0,
    ensures
        ({
            let id = next_worker(m);
            let n = turn_size(m, id, left, batch_events);
            settled(turn_taken(m), id, n, SendOutcome::Failed).0 == m
        }),
{
    lemma_turn(m, left, batch_events);
}

/// Law: a worker that is gone is forgotten; those behind it in the queue move up, and every
/// other worker keeps what it has.
pub proof fn law_gone_workers_are_forgotten(
    m: BrokerModel,
    left: nat,
    batch_events: nat,
    other: Seq<u8>,
)
    requires
        can_turn(m),
        left > 0,
        is_known(m.workers, other),
        other != next_worker(m),
    ensures
        ({
            let id = next_worker(m);
            let n = turn_size(m, id, left, batch_events);
            let out = settled(turn_taken(m), id, n, SendOutcome::Unreachable).0;
            &&& !is_known(out.workers, id)
            &&& is_known(out.workers, other)
            &&& worker(out.workers, other) == worker(m.workers, other)
            &&& out.ready == m.ready.skip(1)
            &&& out.workers.len() == m.workers.len() - 1
            &&& is_consistent(out)
        }),
{
    lemma_turn(m, left, batch_events);
    let id = m.ready[0];
    let mid = turn_taken(m);
    let at = choose|i: int| is_worker_at(mid.workers, id, i);
    let k = choose|i: int| is_worker_at(m.workers, other, i);
    lemma_worker_at(m.workers, other, k);
    assert(is_worker_at(mid.workers, other, k));
    crate::dispatcher::law_lost_workers_lose_no_events(mid, id, other);
    crate::dispatcher::lemma_without_worker(mid, id);
    let out = without_worker(mid, id);
    if k < at {
        assert(is_worker_at(out.workers, other, k));
        lemma_worker_at(out.workers, other, k);
    } else {
        assert(is_worker_at(out.workers, other, k - 1));
        lemma_worker_at(out.workers, other, k - 1);
    }
}

/// Law: credits add up. A worker that asks for more has what it had and what it asked for,
/// as far as can be counted; it joins the end of the queue if it has any and did
/// not wait already; the other workers and the events are untouched.
pub proof fn law_credits_add_up(m: BrokerModel, id: Seq<u8>, payload: Seq<u8>, other: Seq<u8>)
    requires
        is_consistent(m),
        other != id,
    ensures
        ({
            let out = after_refill(m, id, payload);
            let sum = credits_of(m, id) + credits_in(payload);
            &&& is_consistent(out)
            &&& is_known(out.workers, id)
            &&& credits_of(out, id) == if sum < u32::MAX {
                sum
            } else {
                u32::MAX as nat
            }
            &&& m.ready.contains(id) ==> out.ready == m.ready
            &&& !m.ready.contains(id) && credits_of(out, id) > 0 ==> out.ready == m.ready.push(id)
            &&& !m.ready.contains(id) && credits_of(out, id) == 0 ==> out.ready == m.ready
            &&& out.events == m.events
            &&& is_known(out.workers, other) <==> is_known(m.workers, other)
            &&& is_known(m.workers, other) ==> worker(out.workers, other) == worker(
                m.workers,
                other,
            )
            &&& payload.len() > 0 ==> worker(out.workers, id).metrics == payload
            &&& payload.len() == 0 && is_known(m.workers, id) ==> worker(out.workers, id).metrics
                == worker(m.workers, id).metrics
            &&& is_known(m.workers, id) ==> worker(out.workers, id).dispatched == worker(
                m.workers,
                id,
            ).dispatched
            &&& !is_known(m.workers, id) ==> worker(out.workers, id).dispatched == 0
                && !out.wake_logged
            &&& is_known(m.workers, id) ==> out.wake_logged == m.wake_logged
        }),
{
    let known = is_known(m.workers, id);
    let at = if known {
        choose|i: int| is_worker_at(m.workers, id, i)
    } else {
        m.workers.len() as int
    };
    lemma_refill(m, id, payload, at);
    let out = after_refill(m, id, payload);
    if known {
        lemma_worker_at(m.workers, id, at);
        assert(m.workers[at].id == id);
    } else if m.ready.contains(id) {
        let k = choose|k: int| 0 <= k < m.ready.len() && m.ready[k] == id;
        assert(is_known(m.workers, m.ready[k]));
    }
    assert(is_worker_at(out.workers, id, at));
    lemma_worker_at(out.workers, id, at);
    assert(out.workers[at].id == id);
    if is_known(m.workers, other) {
        let k = choose|i: int| is_worker_at(m.workers, other, i);
        lemma_worker_at(m.workers, other, k);
        assert(is_worker_at(out.workers, other, k));
        lemma_worker_at(out.workers, other, k);
    } else if is_known(out.workers, other) {
        let k = choose|i: int| is_worker_at(out.workers, other, i);
        assert(is_worker_at(m.workers, other, k));
    }
}

/// Law: a new event queues behind the others, and an empty one is none; nothing else
/// changes.
pub proof fn law_events_queue_up(m: BrokerModel, event: Seq<u8>)
    ensures
        ({
            let out = accepted(m, event);
            &&& event.len() == 0 ==> out == m
            &&& event.len() > 0 ==> {
                &&& out.events.len() == m.events.len() + 1
                &&& out.events.last() == event
                &&& forall|i: int| 0 <= i < m.events.len() ==> out.events[i] == #[trigger] m.events[i]
            }
            &&& out.workers == m.workers
            &&& out.ready == m.ready
        }),
{
}

/// Law: with no worker waiting, no more events are held than may be; with one, every
/// event is taken.
pub proof fn law_the_queue_is_bounded(m: BrokerModel, event: Seq<u8>, max_queue: nat)
    ensures
        m.ready.len() > 0 ==> wants_events(m, max_queue),
        m.ready.len() == 0 && wants_events(m, max_queue) ==> accepted(m, event).events.len()
            <= max_queue,
        m.ready.len() == 0 && m.events.len() < max_queue ==> wants_events(m, max_queue),
{
}

/// Law: that workers are wanting is said only where events wait and there is none, and not
/// again before one has come.
pub proof fn law_wanting_workers_are_told_once(m: BrokerModel)
    ensures
        lacks_workers(m) ==> m.events.len() > 0 && m.workers.len() == 0,
        !lacks_workers(BrokerModel { wake_logged: true, ..m }),
        m.events.len() > 0 && m.workers.len() == 0 ==> lacks_workers(
            BrokerModel { wake_logged: false, ..m },
        ),
{
}

/// The digits of a number, in bytes.
pub open spec fn digits(n: nat) -> Seq<u8>
    decreases n,
{
    if n < 10 {
        seq![(48 + n) as u8]
    } else {
        digits(n / 10).push((48 + n % 10) as u8)
    }
}

proof fn lemma_digits_read(n: nat, tail: Seq<u8>, so_far: nat)
    ensures
        digits(n).len() >= 1,
        48 <= digits(n)[0] <= 57,
        so_far == 0 ==> leading_number(digits(n) + tail, so_far) == leading_number(tail, n),
    decreases n,
{
    if n < 10 {
        let b = digits(n) + tail;
        assert(b.skip(1) =~= tail);
        assert(b[0] == 48 + n);
    } else {
        let front = digits(n / 10);
        let last = (48 + n % 10) as u8;
        let rest = seq![last] + tail;
        lemma_digits_read(n / 10, rest, so_far);
        assert(digits(n) + tail =~= front + rest);
        assert(rest.skip(1) =~= tail);
        assert(rest[0] == last);
        assert(n == n / 10 * 10 + n % 10);
    }
}

proof fn lemma_separators(sep: Seq<u8>, rest: Seq<u8>)
    requires
        forall|i: int| 0 <= i < sep.len() ==> is_separator(#[trigger] sep[i]),
        rest.len() > 0,
        !is_separator(rest[0]),
    ensures
        past_separators(sep + rest) == rest,
    decreases sep.len(),
{
    if sep.len() > 0 {
        assert((sep + rest).skip(1) =~= sep.skip(1) + rest);
        assert(sep[0] == (sep + rest)[0]);
        assert forall|i: int| 0 <= i < sep.skip(1).len() implies is_separator(
            #[trigger] sep.skip(1)[i],
        ) by {
            assert(is_separator(sep[i + 1]));
        }
        lemma_separators(sep.skip(1), rest);
    } else {
        assert(sep + rest =~= rest);
    }
}

/// Law: the credits that a payload names are read off it, wherever in it they stand:
/// the number behind the first key `"n_credits"`, after blanks and a colon.
pub proof fn law_named_credits_are_read(
    front: Seq<u8>,
    sep: Seq<u8>,
    n: nat,
    tail: Seq<u8>,
)
    requires
        forall|i: int| 0 <= i < sep.len() ==> (#[trigger] sep[i]) == 32 || sep[i] == 58,
        n < u32::MAX,
        tail.len() > 0 ==> !(48 <= tail[0] <= 57),
        forall|i: int|
            0 <= i < front.len() ==> !#[trigger] key_at(
                front + credits_key() + sep + digits(n) + tail,
                i,
            ),
    ensures
        named_credits(front + credits_key() + sep + digits(n) + tail) == Some(n),
        credits_in(front + credits_key() + sep + digits(n) + tail) == n,
{
    let buf = front + credits_key() + sep + digits(n) + tail;
    let at = front.len() as int;
    assert(buf.subrange(at, at + 11) =~= credits_key());
    assert(key_at(buf, at));
    assert(crate::dispatcher::first_key_at(buf, at));
    let c = choose|i: int| crate::dispatcher::first_key_at(buf, i);
    assert(crate::dispatcher::first_key_at(buf, c));
    assert(c == at);
    lemma_digits_read(n, tail, 0);
    let rest = digits(n) + tail;
    assert(rest[0] == digits(n)[0]);
    assert(buf.skip(at + 11) =~= sep + rest);
    assert forall|i: int| 0 <= i < sep.len() implies is_separator(#[trigger] sep[i]) by {}
    lemma_separators(sep, rest);
    assert(leading_number(tail, n) == n);
}

/// Law: a payload without the key asks for one event.
pub proof fn law_silent_workers_ask_for_one(payload: Seq<u8>)
    requires
        forall|i: int| !#[trigger] key_at(payload, i),
    ensures
        credits_in(payload) == 1,
{
    if exists|i: int| crate::dispatcher::first_key_at(payload, i) {
        let i = choose|i: int| crate::dispatcher::first_key_at(payload, i);
        assert(key_at(payload, i));
    }
}

/// Law: the payload is the last of three frames, or of two where there is no empty one
/// between.
pub proof fn law_the_payload_is_behind_the_delimiter(id: Seq<u8>, empty: Seq<u8>, p: Seq<u8>)
    ensures
        payload_of(seq![id, empty, p]) == p,
        payload_of(seq![id, p]) == p,
{
}

} // verus!
