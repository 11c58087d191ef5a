//! The broker between those who produce events and the workers of one stage.
//!
//! A worker announces how many events it can take, its credits. Each worker
//! that has any waits in one queue, and whoever has waited longest is sent the
//! next events, as many as its credits allow.

use std::collections::VecDeque;

use vstd::prelude::*;
use crate::json::{shows, ArrayOut, Json, JsonModel, JsonOut, ObjectOut};
use crate::numtext::{decimal, decimal_text, owned_views};

verus! {

/// The key `"n_credits"`, with its quotes, in bytes.
pub open spec fn credits_key() -> Seq<u8> {
    seq![34u8, 110u8, 95u8, 99u8, 114u8, 101u8, 100u8, 105u8, 116u8, 115u8, 34u8]
}

/// The key stands at `i`.
pub open spec fn key_at(buf: Seq<u8>, i: int) -> bool {
    &&& 0 <= i
    &&& i + 11 <= buf.len()
    &&& buf.subrange(i, i + 11) == credits_key()
}

/// The key stands first at `i`.
pub open spec fn first_key_at(buf: Seq<u8>, i: int) -> bool {
    key_at(buf, i) && forall|k: int| 0 <= k < i ==> !key_at(buf, k)
}

/// What may stand between the key and the number: blanks and colons.
pub open spec fn is_separator(b: u8) -> bool {
    b == 32 || b == 9 || b == 10 || b == 13 || b == 58
}

pub open spec fn is_digit(b: u8) -> bool {
    48 <= b <= 57
}

/// The bytes without the separators at their start.
pub open spec fn past_separators(buf: Seq<u8>) -> Seq<u8>
    decreases buf.len(),
{
    if buf.len() > 0 && is_separator(buf[0]) {
        past_separators(buf.skip(1))
    } else {
        buf
    }
}

/// The digits at the start of the bytes, behind a number that is read already.
pub open spec fn leading_number(buf: Seq<u8>, so_far: nat) -> nat
    decreases buf.len(),
{
    if buf.len() > 0 && is_digit(buf[0]) {
        leading_number(buf.skip(1), so_far * 10 + (buf[0] - 48) as nat)
    } else {
        so_far
    }
}

/// The number of credits that a payload names: the digits behind the first key,
/// as far as they fit.
pub open spec fn named_credits(buf: Seq<u8>) -> Option<nat> {
    if exists|i: int| first_key_at(buf, i) {
        let rest = past_separators(buf.skip((choose|i: int| first_key_at(buf, i)) + 11));
        if rest.len() > 0 && is_digit(rest[0]) {
            let n = leading_number(rest, 0);
            Some(
                if n < u32::MAX as nat {
                    n
                } else {
                    u32::MAX as nat
                },
            )
        } else {
            None
        }
    } else {
        None
    }
}

fn stands_at(buf: &Vec<u8>, i: usize) -> (r: bool)
    requires
        i + 11 <= buf@.len(),
    ensures
        r == key_at(buf@, i as int),
{
    let key: Vec<u8> = vec![34, 110, 95, 99, 114, 101, 100, 105, 116, 115, 34];
    assert(key@ =~= credits_key());
    let n: usize = buf.len();
    let mut k: usize = 0;
    while k < 11
        invariant
            k <= 11,
            i + 11 <= n,
            n == buf@.len(),
            key@ == credits_key(),
            forall|j: int| 0 <= j < k ==> buf@[i + j] == #[trigger] credits_key()[j],
        decreases 11 - k,
    {
        if buf[i + k] != key[k] {
            proof {
                let s = buf@.subrange(i as int, i + 11);
                assert(s[k as int] == buf@[i + k]);
                assert(s != credits_key());
            }
            return false;
        }
        k = k + 1;
    }
    assert(buf@.subrange(i as int, i + 11) =~= credits_key());
    true
}

fn find_key(buf: &Vec<u8>) -> (r: Option<usize>)
    ensures
        match r {
            None => forall|i: int| !first_key_at(buf@, i),
            Some(i) => first_key_at(buf@, i as int),
        },
{
    let n: usize = buf.len();
    if n < 11 {
        return None;
    }
    let last: usize = n - 11;
    let mut i: usize = 0;
    loop
        invariant
            n == buf@.len(),
            n >= 11,
            last == n - 11,
            i <= last,
            forall|k: int| 0 <= k < i ==> !key_at(buf@, k),
        decreases n - i,
    {
        if stands_at(buf, i) {
            return Some(i);
        }
        if i == last {
            return None;
        }
        i = i + 1;
    }
}

/// The number of credits that a payload names, without reading the rest of it.
pub fn scan_n_credits(buf: &Vec<u8>) -> (r: Option<u32>)
    ensures
        match r {
            None => named_credits(buf@) is None,
            Some(n) => named_credits(buf@) == Some(n as nat),
        },
{
    let pos: usize = match find_key(buf) {
        None => {
            return None;
        },
        Some(p) => p,
    };
    let end: usize = buf.len();
    let mut i: usize = pos + 11;
    let ghost start = buf@.skip(i as int);
    proof {
        let c = choose|c: int| first_key_at(buf@, c);
        assert(first_key_at(buf@, c));
        if c < pos {
            assert(!key_at(buf@, c));
        } else if pos < c {
            assert(!key_at(buf@, pos as int));
        }
        assert(c == pos);
    }
    let ghost rest = past_separators(start);
    while i < end && (buf[i] == 32 || buf[i] == 9 || buf[i] == 10 || buf[i] == 13 || buf[i] == 58)
        invariant
            i <= end == buf@.len(),
            past_separators(buf@.skip(i as int)) == rest,
        decreases end - i,
    {
        assert(buf@.skip(i as int).skip(1) =~= buf@.skip(i + 1));
        i = i + 1;
    }
    assert(rest == buf@.skip(i as int));
    let mut val: u64 = 0;
    let mut any = false;
    let ghost total = leading_number(rest, 0);
    let ghost mut exact: nat = 0;
    let ghost from = i;
    while i < end && 48 <= buf[i] && buf[i] <= 57
        invariant
            from <= i <= end == buf@.len(),
            any == (i > from),
            rest == buf@.skip(from as int),
            any ==> rest.len() > 0 && is_digit(rest[0]),
            leading_number(buf@.skip(i as int), exact) == total,
            val == (if exact < u64::MAX as nat {
                exact
            } else {
                u64::MAX as nat
            }),
        decreases end - i,
    {
        assert(buf@.skip(i as int).skip(1) =~= buf@.skip(i + 1));
        let d: u64 = (buf[i] - 48) as u64;
        proof {
            exact = exact * 10 + d as nat;
        }
        val = if val <= (u64::MAX - d) / 10 {
            val * 10 + d
        } else {
            u64::MAX
        };
        i = i + 1;
        any = true;
    }
    assert(leading_number(buf@.skip(i as int), exact) == exact);
    if any {
        Some(
            if val < u32::MAX as u64 {
                val as u32
            } else {
                u32::MAX
            },
        )
    } else {
        None
    }
}

/// A worker, as the broker knows it.
#[derive(Debug)]
pub struct WorkerInfo {
    pub id: Vec<u8>,
    /// The last payload that it sent, as it came.
    pub metrics_raw: Vec<u8>,
    /// How many more events it may be sent.
    pub credits: u32,
    /// Whether it waits in the queue.
    pub in_ready: bool,
    /// How many events it was sent.
    pub dispatched: u64,
}

/// A worker, for contracts.
#[verifier::ext_equal]
pub struct WorkerModel {
    pub id: Seq<u8>,
    pub metrics: Seq<u8>,
    pub credits: nat,
    pub in_ready: bool,
    pub dispatched: nat,
}

impl View for WorkerInfo {
    type V = WorkerModel;

    open spec fn view(&self) -> WorkerModel {
        WorkerModel {
            id: self.id@,
            metrics: self.metrics_raw@,
            credits: self.credits as nat,
            in_ready: self.in_ready,
            dispatched: self.dispatched as nat,
        }
    }
}

/// The broker of one stage.
#[derive(Debug)]
pub struct Broker {
    pub workers: Vec<WorkerInfo>,
    /// The workers that can be sent events, the one that has waited longest
    /// first.
    pub ready_workers: VecDeque<Vec<u8>>,
    /// The events that are to be sent, the oldest first.
    pub event_buffer: VecDeque<Vec<u8>>,
    /// Whether it was said already that events wait and there is no worker.
    pub wake_logged: bool,
}

/// A broker, for contracts.
#[verifier::ext_equal]
pub struct BrokerModel {
    pub workers: Seq<WorkerModel>,
    pub ready: Seq<Seq<u8>>,
    pub events: Seq<Seq<u8>>,
    pub wake_logged: bool,
}

pub open spec fn byte_views(v: Seq<Vec<u8>>) -> Seq<Seq<u8>> {
    v.map_values(|b: Vec<u8>| b@)
}

pub open spec fn worker_views(v: Seq<WorkerInfo>) -> Seq<WorkerModel> {
    v.map_values(|w: WorkerInfo| w@)
}

impl View for Broker {
    type V = BrokerModel;

    open spec fn view(&self) -> BrokerModel {
        BrokerModel {
            workers: worker_views(self.workers@),
            ready: byte_views(self.ready_workers@),
            events: byte_views(self.event_buffer@),
            wake_logged: self.wake_logged,
        }
    }
}

/// The worker of that name is at `i`.
pub open spec fn is_worker_at(ws: Seq<WorkerModel>, id: Seq<u8>, i: int) -> bool {
    0 <= i < ws.len() && ws[i].id == id
}

/// There is a worker of that name.
pub open spec fn is_known(ws: Seq<WorkerModel>, id: Seq<u8>) -> bool {
    exists|i: int| is_worker_at(ws, id, i)
}

/// No two workers have one name.
pub open spec fn are_distinct(ws: Seq<WorkerModel>) -> bool {
    forall|i: int, k: int|
        0 <= i < ws.len() && 0 <= k < ws.len() && (#[trigger] ws[i]).id == (#[trigger] ws[k]).id
            ==> i == k
}

/// The worker of that name.
pub open spec fn worker(ws: Seq<WorkerModel>, id: Seq<u8>) -> WorkerModel {
    ws[choose|i: int| is_worker_at(ws, id, i)]
}

/// The queue holds each worker that has credits, once, and no other.
pub open spec fn is_consistent(m: BrokerModel) -> bool {
    &&& are_distinct(m.workers)
    &&& forall|i: int|
        #![trigger m.workers[i]]
        0 <= i < m.workers.len() ==> (m.workers[i].in_ready <==> m.ready.contains(m.workers[i].id))
            && (m.workers[i].in_ready <==> m.workers[i].credits > 0)
    &&& forall|k: int| 0 <= k < m.ready.len() ==> is_known(m.workers, #[trigger] m.ready[k])
    &&& m.ready.no_duplicates()
}

/// The workers, the one of that name marked as waiting or as not waiting.
pub open spec fn marked(ws: Seq<WorkerModel>, id: Seq<u8>, waits: bool) -> Seq<WorkerModel> {
    ws.map_values(
        |w: WorkerModel|
            if w.id == id {
                WorkerModel { in_ready: waits, ..w }
            } else {
                w
            },
    )
}

/// The broker with a worker back at the front of the queue.
pub open spec fn put_back(m: BrokerModel, id: Seq<u8>) -> BrokerModel {
    BrokerModel { workers: marked(m.workers, id, true), ready: seq![id] + m.ready, ..m }
}

/// A worker was taken from the queue and is being sent `n` events, which the
/// broker still holds.
pub open spec fn is_sending(m: BrokerModel, id: Seq<u8>, n: nat) -> bool {
    &&& is_known(m.workers, id)
    &&& !worker(m.workers, id).in_ready
    &&& is_consistent(put_back(m, id))
    &&& 1 <= n <= worker(m.workers, id).credits
    &&& n <= m.events.len()
}

/// The workers after one of them was sent `n` events.
pub open spec fn after_send(ws: Seq<WorkerModel>, id: Seq<u8>, n: nat) -> Seq<WorkerModel> {
    ws.map_values(
        |w: WorkerModel|
            if w.id == id {
                WorkerModel {
                    credits: (w.credits - n) as nat,
                    in_ready: w.credits > n,
                    dispatched: if w.dispatched + n < u64::MAX as nat {
                        w.dispatched + n
                    } else {
                        u64::MAX as nat
                    },
                    ..w
                }
            } else {
                w
            },
    )
}

/// The broker after a worker was sent `n` events: they are gone, and the worker
/// waits behind the others if it has credits left.
pub open spec fn after_sending(m: BrokerModel, id: Seq<u8>, n: nat) -> BrokerModel {
    BrokerModel {
        workers: after_send(m.workers, id, n),
        ready: if worker(m.workers, id).credits > n {
            m.ready.push(id)
        } else {
            m.ready
        },
        events: m.events.skip(n as int),
        ..m
    }
}

/// The broker without a worker.
pub open spec fn without_worker(m: BrokerModel, id: Seq<u8>) -> BrokerModel {
    BrokerModel {
        workers: m.workers.remove(choose|i: int| is_worker_at(m.workers, id, i)),
        ..m
    }
}

/// Whose turn it is: the worker that has waited longest.
pub open spec fn next_worker(m: BrokerModel) -> Seq<u8> {
    m.ready[0]
}

/// The broker once a turn has begun: the worker is taken from the queue.
pub open spec fn turn_taken(m: BrokerModel) -> BrokerModel {
    BrokerModel {
        workers: marked(m.workers, next_worker(m), false),
        ready: m.ready.skip(1),
        ..m
    }
}

/// The message of a turn: the worker, an empty frame, and the oldest events.
pub open spec fn message(m: BrokerModel, id: Seq<u8>, n: nat) -> Seq<Seq<u8>> {
    seq![id, Seq::<u8>::empty()] + m.events.take(n as int)
}

/// The broker once a turn is over, how many events were sent, and whether the round
/// goes on.
pub open spec fn settled(m: BrokerModel, id: Seq<u8>, n: nat, outcome: SendOutcome) -> (
    BrokerModel,
    nat,
    bool,
) {
    match outcome {
        SendOutcome::Sent => (after_sending(m, id, n), n, true),
        SendOutcome::Unreachable => (without_worker(m, id), 0, true),
        SendOutcome::Failed => (put_back(m, id), 0, false),
    }
}

/// The broker with one event more; an empty one is passed over.
pub open spec fn accepted(m: BrokerModel, event: Seq<u8>) -> BrokerModel {
    if event.len() == 0 {
        m
    } else {
        BrokerModel { events: m.events.push(event), ..m }
    }
}

/// More events are to be taken in.
pub open spec fn wants_events(m: BrokerModel, max_queue: nat) -> bool {
    m.ready.len() > 0 || m.events.len() < max_queue
}

/// It is to be said that events wait and there is no worker.
pub open spec fn lacks_workers(m: BrokerModel) -> bool {
    m.events.len() > 0 && m.workers.len() == 0 && !m.wake_logged
}

/// The lesser of two numbers.
pub open spec fn lesser(a: nat, b: nat) -> nat {
    if a < b {
        a
    } else {
        b
    }
}

/// How many events the next turn sends: no more than a message may hold, than
/// the worker may be sent, than there are, and than are left of this round.
pub open spec fn turn_size(m: BrokerModel, id: Seq<u8>, left: nat, batch_events: nat) -> nat {
    lesser(
        lesser(
            lesser(
                if batch_events < 1 {
                    1
                } else {
                    batch_events
                },
                worker(m.workers, id).credits,
            ),
            m.events.len(),
        ),
        left,
    )
}

/// Law: a turn sends something, and never more than the worker has credits for,
/// than there is, than is left of the round, or than one message may hold.
pub proof fn law_turns_are_bounded(m: BrokerModel, id: Seq<u8>, left: nat, batch_events: nat)
    requires
        worker(m.workers, id).credits > 0,
        m.events.len() > 0,
        left > 0,
    ensures
        1 <= turn_size(m, id, left, batch_events),
        turn_size(m, id, left, batch_events) <= worker(m.workers, id).credits,
        turn_size(m, id, left, batch_events) <= m.events.len(),
        turn_size(m, id, left, batch_events) <= left,
        batch_events > 0 ==> turn_size(m, id, left, batch_events) <= batch_events,
{
}

/// Law: a worker that is gone takes no event with it, and no other worker.
pub proof fn law_lost_workers_lose_no_events(m: BrokerModel, id: Seq<u8>, other: Seq<u8>)
    requires
        are_distinct(m.workers),
        is_known(m.workers, id),
        is_known(m.workers, other),
        other != id,
    ensures
        without_worker(m, id).events == m.events,
        is_known(without_worker(m, id).workers, other),
        !is_known(without_worker(m, id).workers, id),
{
    let at = choose|i: int| is_worker_at(m.workers, id, i);
    let k = choose|i: int| is_worker_at(m.workers, other, i);
    let ws = without_worker(m, id).workers;
    if k < at {
        assert(is_worker_at(ws, other, k));
    } else {
        assert(is_worker_at(ws, other, k - 1));
    }
    assert forall|i: int| !is_worker_at(ws, id, i) by {
        if is_worker_at(ws, id, i) {
            if i < at {
                assert(m.workers[i].id == m.workers[at].id);
            } else {
                assert(m.workers[i + 1].id == m.workers[at].id);
            }
        }
    }
}

/// One message that is to be sent.
#[derive(Debug)]
pub struct Turn {
    pub worker: Vec<u8>,
    pub count: usize,
}

/// How the sending of a message went.
#[derive(Clone, Copy, Debug, PartialEq, Eq, Structural)]
pub enum SendOutcome {
    Sent,
    /// The worker is gone.
    Unreachable,
    /// It may go another time.
    Failed,
}

/// A turn has an end: how many events it sent, and whether the round goes on.
#[derive(Debug)]
pub struct Settled {
    pub sent: usize,
    pub go_on: bool,
}

fn same_bytes(a: &Vec<u8>, b: &Vec<u8>) -> (r: bool)
    ensures
        r == (a@ == b@),
{
    if a.len() != b.len() {
        return false;
    }
    let n: usize = a.len();
    let mut i: usize = 0;
    while i < n
        invariant
            i <= n == a@.len() == b@.len(),
            forall|k: int| 0 <= k < i ==> a@[k] == b@[k],
        decreases n - i,
    {
        if a[i] != b[i] {
            return false;
        }
        i = i + 1;
    }
    assert(a@ =~= b@);
    true
}

fn copy_bytes(a: &Vec<u8>) -> (out: Vec<u8>)
    ensures
        out@ == a@,
{
    let mut out: Vec<u8> = Vec::new();
    let mut i: usize = 0;
    while i < a.len()
        invariant
            i <= a@.len(),
            out@ == a@.take(i as int),
        decreases a@.len() - i,
    {
        out.push(a[i]);
        assert(a@.take(i + 1) =~= a@.take(i as int).push(a@[i as int]));
        i = i + 1;
    }
    assert(a@.take(i as int) =~= a@);
    out
}

pub(crate) proof fn lemma_worker_at(ws: Seq<WorkerModel>, id: Seq<u8>, i: int)
    requires
        are_distinct(ws),
        is_worker_at(ws, id, i),
    ensures
        is_known(ws, id),
        worker(ws, id) == ws[i],
        (choose|c: int| is_worker_at(ws, id, c)) == i,
{
    let c = choose|c: int| is_worker_at(ws, id, c);
    assert(is_worker_at(ws, id, c));
    assert(ws[c].id == ws[i].id);
}

impl Broker {
    pub fn new() -> (b: Broker)
        ensures
            is_consistent(b@),
            b@.workers.len() == 0,
            b@.ready.len() == 0,
            b@.events.len() == 0,
            !b@.wake_logged,
    {
        Broker {
            workers: Vec::new(),
            ready_workers: VecDeque::new(),
            event_buffer: VecDeque::new(),
            wake_logged: false,
        }
    }

    fn find(&self, id: &Vec<u8>) -> (r: Option<usize>)
        ensures
            match r {
                None => !is_known(self@.workers, id@),
                Some(i) => is_worker_at(self@.workers, id@, i as int),
            },
    {
        let mut i: usize = 0;
        while i < self.workers.len()
            invariant
                i <= self.workers@.len(),
                forall|k: int| 0 <= k < i ==> (#[trigger] self@.workers[k]).id != id@,
            decreases self.workers@.len() - i,
        {
            assert(self@.workers[i as int] == self.workers@[i as int]@);
            if same_bytes(&self.workers[i].id, id) {
                return Some(i);
            }
            i = i + 1;
        }
        None
    }

    /// Takes the worker that has waited longest from the queue, to send it
    /// events. There is no turn where the round is full, nothing is to be sent
    /// or no worker waits.
    pub fn next_turn(&mut self, dispatched: usize, max_events: usize, batch_events: usize) -> (r:
        Option<Turn>)
        requires
            is_consistent(old(self)@),
        ensures
            match r {
                None => {
                    &&& final(self)@ == old(self)@
                    &&& dispatched >= max_events || old(self)@.events.len() == 0
                        || old(self)@.ready.len() == 0
                },
                Some(t) => {
                    &&& dispatched < max_events
                    &&& old(self)@.events.len() > 0
                    &&& old(self)@.ready.len() > 0
                    &&& t.worker@ == old(self)@.ready[0]
                    &&& t.count == turn_size(
                        old(self)@,
                        t.worker@,
                        (max_events - dispatched) as nat,
                        batch_events as nat,
                    )
                    &&& is_sending(final(self)@, t.worker@, t.count as nat)
                    &&& put_back(final(self)@, t.worker@) == old(self)@
                    &&& t.worker@ == next_worker(old(self)@)
                    &&& final(self)@ == turn_taken(old(self)@)
                },
            },
    {
        if dispatched >= max_events || self.event_buffer.len() == 0 || self.ready_workers.len()
            == 0 {
            return None;
        }
        let ghost was = self@;
        let popped = self.ready_workers.pop_front();
        let id: Vec<u8> = match popped {
            None => {
                return None;
            },
            Some(id) => id,
        };
        assert(was.ready =~= seq![id@] + self@.ready);
        proof {
            assert(was.ready[0] == id@);
            assert(is_known(was.workers, was.ready[0]));
            assert(self@.workers == was.workers);
        }
        let at: usize = match self.find(&id) {
            None => {
                return None;
            },
            Some(i) => i,
        };
        let credits: u32 = self.workers[at].credits;
        proof {
            lemma_worker_at(was.workers, id@, at as int);
            assert(was.workers[at as int].in_ready) by {
                assert(was.ready.contains(was.workers[at as int].id));
            }
        }
        self.workers[at].in_ready = false;
        proof {
            let now = self@.workers;
            assert(now =~= marked(was.workers, id@, false)) by {
                assert forall|k: int| 0 <= k < now.len() implies now[k] == marked(
                    was.workers,
                    id@,
                    false,
                )[k] by {
                    if was.workers[k].id == id@ {
                        assert(was.workers[k].id == was.workers[at as int].id);
                    }
                }
            }
            assert(are_distinct(now));
            lemma_worker_at(now, id@, at as int);
            let back = put_back(self@, id@);
            assert(back.workers =~= was.workers) by {
                assert forall|k: int| 0 <= k < now.len() implies back.workers[k]
                    == was.workers[k] by {
                    if was.workers[k].id == id@ {
                        assert(was.workers[k].id == was.workers[at as int].id);
                    }
                }
            }
            assert(back =~= was);
            assert(self@ =~= turn_taken(was)) by {
                assert(self@.ready =~= was.ready.skip(1));
            }
        }
        let batch: usize = if batch_events < 1 {
            1
        } else {
            batch_events
        };
        let mut n: usize = batch;
        if (credits as usize) < n {
            n = credits as usize;
        }
        if self.event_buffer.len() < n {
            n = self.event_buffer.len();
        }
        if max_events - dispatched < n {
            n = max_events - dispatched;
        }
        Some(Turn { worker: id, count: n })
    }

    /// The message of a turn: the worker, an empty frame, and the events.
    pub fn frames(&self, turn: &Turn) -> (out: Vec<Vec<u8>>)
        requires
            turn.count <= self@.events.len(),
        ensures
            byte_views(out@) == seq![turn.worker@, Seq::<u8>::empty()] + self@.events.take(
                turn.count as int,
            ),
            byte_views(out@) == message(self@, turn.worker@, turn.count as nat),
    {
        let ghost head = seq![turn.worker@, Seq::<u8>::empty()];
        let mut out: Vec<Vec<u8>> = Vec::new();
        out.push(copy_bytes(&turn.worker));
        out.push(Vec::new());
        assert(byte_views(out@) =~= head + self@.events.take(0));
        let mut i: usize = 0;
        while i < turn.count
            invariant
                i <= turn.count <= self@.events.len(),
                byte_views(out@) == head + self@.events.take(i as int),
            decreases turn.count - i,
        {
            let ghost was = out@;
            assert(self@.events[i as int] == self.event_buffer@[i as int]@);
            let one = copy_bytes(&self.event_buffer[i]);
            out.push(one);
            assert(byte_views(out@) =~= byte_views(was).push(self@.events[i as int]));
            assert(self@.events.take(i + 1) =~= self@.events.take(i as int).push(
                self@.events[i as int],
            ));
            i = i + 1;
        }
        out
    }

    fn drop_events(&mut self, n: usize)
        requires
            n <= old(self)@.events.len(),
        ensures
            final(self)@ == (BrokerModel { events: old(self)@.events.skip(n as int), ..old(self)@ }),
    {
        let ghost was = self@;
        let mut i: usize = 0;
        assert(was.events.skip(0) =~= was.events);
        while i < n
            invariant
                i <= n <= was.events.len(),
                self@.workers == was.workers,
                self@.ready == was.ready,
                self@.wake_logged == was.wake_logged,
                self@.events == was.events.skip(i as int),
            decreases n - i,
        {
            let ghost before = self.event_buffer@;
            let _gone = self.event_buffer.pop_front();
            assert(byte_views(self.event_buffer@) =~= byte_views(before).skip(1));
            assert(was.events.skip(i as int).skip(1) =~= was.events.skip(i + 1));
            i = i + 1;
        }
    }

    /// Ends a turn. What was sent is dropped, and the worker queues again if it
    /// has credits left; a worker that is gone is forgotten, and the events are
    /// kept for another; where the message did not go, the worker is first in
    /// the queue again, and the round ends.
    pub fn settle(&mut self, turn: Turn, outcome: SendOutcome) -> (r: Settled)
        requires
            is_sending(old(self)@, turn.worker@, turn.count as nat),
        ensures
            is_consistent(final(self)@),
            (final(self)@, r.sent as nat, r.go_on) == settled(
                old(self)@,
                turn.worker@,
                turn.count as nat,
                outcome,
            ),
            match outcome {
                SendOutcome::Sent => {
                    &&& final(self)@ == after_sending(
                        old(self)@,
                        turn.worker@,
                        turn.count as nat,
                    )
                    &&& r.sent == turn.count
                    &&& r.go_on
                },
                SendOutcome::Unreachable => {
                    &&& final(self)@ == without_worker(old(self)@, turn.worker@)
                    &&& r.sent == 0
                    &&& r.go_on
                },
                SendOutcome::Failed => {
                    &&& final(self)@ == put_back(old(self)@, turn.worker@)
                    &&& r.sent == 0
                    &&& !r.go_on
                },
            },
    {
        let ghost was = self@;
        let ghost id = turn.worker@;
        let ghost back = put_back(was, id);
        let n: usize = turn.count;
        proof {
            assert(are_distinct(was.workers)) by {
                assert forall|i: int, k: int|
                    0 <= i < was.workers.len() && 0 <= k < was.workers.len() && (
                    #[trigger] was.workers[i]).id == (#[trigger] was.workers[k]).id implies i
                    == k by {
                    assert(back.workers[i].id == back.workers[k].id);
                }
            }
        }
        let at: usize = match self.find(&turn.worker) {
            None => {
                return Settled { sent: 0, go_on: false };
            },
            Some(i) => i,
        };
        proof {
            lemma_worker_at(was.workers, id, at as int);
            lemma_free(was, id);
        }
        match outcome {
            SendOutcome::Sent => {
                self.drop_events(n);
                let left: u32 = self.workers[at].credits - n as u32;
                self.workers[at].credits = left;
                let d: u64 = self.workers[at].dispatched;
                self.workers[at].dispatched = if d < u64::MAX - n as u64 {
                    d + n as u64
                } else {
                    u64::MAX
                };
                if left > 0 {
                    self.workers[at].in_ready = true;
                    let ghost q = self.ready_workers@;
                    self.ready_workers.push_back(turn.worker);
                    assert(byte_views(self.ready_workers@) =~= byte_views(q).push(id));
                }
                proof {
                    assert(self@.workers =~= after_send(was.workers, id, n as nat)) by {
                        assert forall|k: int| 0 <= k < was.workers.len() implies self@.workers[k]
                            == after_send(was.workers, id, n as nat)[k] by {
                            if was.workers[k].id == id {
                                assert(was.workers[k].id == was.workers[at as int].id);
                            }
                        }
                    }
                    lemma_after_sending(was, id, n as nat);
                }
                Settled { sent: n, go_on: true }
            },
            SendOutcome::Unreachable => {
                let _gone = self.workers.remove(at);
                proof {
                    assert(self@.workers =~= was.workers.remove(at as int));
                    lemma_without_worker(was, id);
                }
                Settled { sent: 0, go_on: true }
            },
            SendOutcome::Failed => {
                self.workers[at].in_ready = true;
                let ghost q = self.ready_workers@;
                self.ready_workers.push_front(turn.worker);
                proof {
                    assert(byte_views(self.ready_workers@) =~= seq![id] + byte_views(q));
                    assert(self@.workers =~= back.workers) by {
                        assert forall|k: int| 0 <= k < was.workers.len() implies self@.workers[k]
                            == back.workers[k] by {
                            if was.workers[k].id == id {
                                assert(was.workers[k].id == was.workers[at as int].id);
                            }
                        }
                    }
                }
                Settled { sent: 0, go_on: false }
            },
        }
    }
}

/// While a worker is being sent events, it is not in the queue, and the others
/// are as they should be.
pub(crate) proof fn lemma_free(m: BrokerModel, id: Seq<u8>)
    requires
        is_consistent(put_back(m, id)),
    ensures
        !m.ready.contains(id),
        m.ready.no_duplicates(),
        forall|k: int| 0 <= k < m.ready.len() ==> is_known(m.workers, #[trigger] m.ready[k]),
        forall|i: int|
            #![trigger m.workers[i]]
            0 <= i < m.workers.len() && m.workers[i].id != id ==> (m.workers[i].in_ready
                <==> m.ready.contains(m.workers[i].id)) && (m.workers[i].in_ready
                <==> m.workers[i].credits > 0),
{
    let back = put_back(m, id);
    let ready = back.ready;
    assert(ready[0] == id);
    if m.ready.contains(id) {
        let k = choose|k: int| 0 <= k < m.ready.len() && m.ready[k] == id;
        assert(ready[k + 1] == ready[0]);
    }
    assert forall|i: int, k: int|
        0 <= i < m.ready.len() && 0 <= k < m.ready.len() && i != k implies m.ready[i]
        != m.ready[k] by {
        assert(ready[i + 1] != ready[k + 1]);
    }
    assert forall|k: int| 0 <= k < m.ready.len() implies is_known(m.workers, #[trigger] m.ready[k]) by {
        let id = ready[k + 1];
        assert(id == m.ready[k]);
        let i = choose|i: int| is_worker_at(back.workers, id, i);
        assert(is_worker_at(back.workers, id, i));
        assert(is_worker_at(m.workers, id, i));
    }
    assert forall|i: int|
        #![trigger m.workers[i]]
        0 <= i < m.workers.len() && m.workers[i].id != id implies (m.workers[i].in_ready
        <==> m.ready.contains(m.workers[i].id)) && (m.workers[i].in_ready <==> m.workers[i].credits
        > 0) by {
        let w = m.workers[i];
        assert(back.workers[i] == w);
        if m.ready.contains(w.id) {
            let k = choose|k: int| 0 <= k < m.ready.len() && m.ready[k] == w.id;
            assert(ready[k + 1] == w.id);
            assert(ready.contains(w.id));
        }
        if ready.contains(w.id) {
            let k = choose|k: int| 0 <= k < ready.len() && ready[k] == w.id;
            assert(m.ready[k - 1] == w.id);
        }
    }
}

pub(crate) proof fn lemma_after_sending(m: BrokerModel, id: Seq<u8>, n: nat)
    requires
        are_distinct(m.workers),
        is_sending(m, id, n),
    ensures
        is_consistent(after_sending(m, id, n)),
{
    lemma_free(m, id);
    let out = after_sending(m, id, n);
    let at = choose|i: int| is_worker_at(m.workers, id, i);
    assert(is_worker_at(m.workers, id, at));
    let more = worker(m.workers, id).credits > n;
    assert(are_distinct(out.workers)) by {
        assert forall|i: int, k: int|
            0 <= i < out.workers.len() && 0 <= k < out.workers.len() && (
            #[trigger] out.workers[i]).id == (#[trigger] out.workers[k]).id implies i == k by {
            assert(m.workers[i].id == m.workers[k].id);
        }
    }
    assert forall|k: int| 0 <= k < out.ready.len() implies is_known(
        out.workers,
        #[trigger] out.ready[k],
    ) by {
        if k < m.ready.len() {
            let id = m.ready[k];
            assert(is_known(m.workers, id));
            let i = choose|i: int| is_worker_at(m.workers, id, i);
            assert(is_worker_at(out.workers, out.ready[k], i));
        } else {
            assert(is_worker_at(out.workers, out.ready[k], at));
        }
    }
    assert forall|i: int|
        #![trigger out.workers[i]]
        0 <= i < out.workers.len() implies (out.workers[i].in_ready <==> out.ready.contains(
        out.workers[i].id,
    )) && (out.workers[i].in_ready <==> out.workers[i].credits > 0) by {
        let w = m.workers[i];
        if w.id == id {
            assert(w.id == m.workers[at].id);
            if more {
                assert(out.ready[m.ready.len() as int] == id);
            }
        } else {
            if m.ready.contains(w.id) {
                let k = choose|k: int| 0 <= k < m.ready.len() && m.ready[k] == w.id;
                assert(out.ready[k] == w.id);
            }
            if out.ready.contains(w.id) {
                let k = choose|k: int| 0 <= k < out.ready.len() && out.ready[k] == w.id;
                assert(m.ready[k] == w.id);
            }
        }
    }
}

/// Law: a message takes the oldest events and leaves the others as they are, and
/// uses up as many of the worker's credits as it holds events.
pub proof fn law_sending_takes_the_oldest(m: BrokerModel, id: Seq<u8>, n: nat)
    requires
        is_sending(m, id, n),
    ensures
        m.events == m.events.take(n as int) + after_sending(m, id, n).events,
        is_known(after_sending(m, id, n).workers, id),
        worker(after_sending(m, id, n).workers, id).credits + n == worker(m.workers, id).credits,
{
    let out = after_sending(m, id, n);
    assert(m.events =~= m.events.take(n as int) + m.events.skip(n as int));
    let back = put_back(m, id);
    assert(are_distinct(m.workers)) by {
        assert forall|i: int, k: int|
            0 <= i < m.workers.len() && 0 <= k < m.workers.len() && (#[trigger] m.workers[i]).id
                == (#[trigger] m.workers[k]).id implies i == k by {
            assert(back.workers[i].id == back.workers[k].id);
        }
    }
    let at = choose|i: int| is_worker_at(m.workers, id, i);
    assert(is_worker_at(m.workers, id, at));
    lemma_after_sending(m, id, n);
    lemma_worker_at(out.workers, id, at);
}

pub(crate) proof fn lemma_without_worker(m: BrokerModel, id: Seq<u8>)
    requires
        are_distinct(m.workers),
        is_known(m.workers, id),
        is_consistent(put_back(m, id)),
    ensures
        is_consistent(without_worker(m, id)),
{
    lemma_free(m, id);
    let at = choose|i: int| is_worker_at(m.workers, id, i);
    assert(is_worker_at(m.workers, id, at));
    let out = without_worker(m, id);
    assert forall|i: int| 0 <= i < out.workers.len() implies #[trigger] out.workers[i]
        == m.workers[if i < at {
        i
    } else {
        i + 1
    }] by {}
    assert forall|k: int| 0 <= k < out.ready.len() implies is_known(
        out.workers,
        #[trigger] out.ready[k],
    ) by {
        let one = m.ready[k];
        assert(is_known(m.workers, one));
        let i = choose|i: int| is_worker_at(m.workers, one, i);
        assert(is_worker_at(m.workers, one, i));
        assert(m.ready.contains(one));
        assert(i != at);
        if i < at {
            assert(is_worker_at(out.workers, m.ready[k], i));
        } else {
            assert(is_worker_at(out.workers, m.ready[k], i - 1));
        }
    }
    assert forall|i: int|
        #![trigger out.workers[i]]
        0 <= i < out.workers.len() implies (out.workers[i].in_ready <==> out.ready.contains(
        out.workers[i].id,
    )) && (out.workers[i].in_ready <==> out.workers[i].credits > 0) by {
        let o = if i < at {
            i
        } else {
            i + 1
        };
        assert(m.workers[o].id != id) by {
            if m.workers[o].id == id {
                assert(m.workers[o].id == m.workers[at].id);
            }
        }
    }
}

/// How many credits a payload gives: what it names, and one where it names none.
pub open spec fn credits_in(payload: Seq<u8>) -> nat {
    match named_credits(payload) {
        Some(n) => n,
        None => 1,
    }
}

/// A worker that was not known before.
pub open spec fn fresh_worker(id: Seq<u8>) -> WorkerModel {
    WorkerModel { id, metrics: Seq::empty(), credits: 0, in_ready: false, dispatched: 0 }
}

/// A worker after it sent a payload.
pub open spec fn credited(w: WorkerModel, payload: Seq<u8>) -> WorkerModel {
    let sum = w.credits + credits_in(payload);
    WorkerModel {
        metrics: if payload.len() > 0 {
            payload
        } else {
            w.metrics
        },
        credits: if sum < u32::MAX as nat {
            sum
        } else {
            u32::MAX as nat
        },
        in_ready: w.in_ready || sum > 0,
        ..w
    }
}

/// The broker after a worker sent a payload: the worker has the credits, and
/// queues behind the others if it has any and did not wait already.
pub open spec fn after_refill(m: BrokerModel, id: Seq<u8>, payload: Seq<u8>) -> BrokerModel {
    let known = is_known(m.workers, id);
    let all = if known {
        m.workers
    } else {
        m.workers.push(fresh_worker(id))
    };
    let w = worker(all, id);
    BrokerModel {
        workers: all.map_values(
            |w: WorkerModel|
                if w.id == id {
                    credited(w, payload)
                } else {
                    w
                },
        ),
        ready: if credited(w, payload).in_ready && !w.in_ready {
            m.ready.push(id)
        } else {
            m.ready
        },
        events: m.events,
        wake_logged: known && m.wake_logged,
    }
}

pub(crate) proof fn lemma_refill(m: BrokerModel, id: Seq<u8>, payload: Seq<u8>, at: int)
    requires
        is_consistent(m),
        is_known(m.workers, id) ==> is_worker_at(m.workers, id, at),
        !is_known(m.workers, id) ==> at == m.workers.len(),
    ensures
        is_consistent(after_refill(m, id, payload)),
        ({
            let all = if is_known(m.workers, id) {
                m.workers
            } else {
                m.workers.push(fresh_worker(id))
            };
            are_distinct(all) && is_worker_at(all, id, at) && worker(all, id) == all[at]
        }),
{
    let known = is_known(m.workers, id);
    let all = if known {
        m.workers
    } else {
        m.workers.push(fresh_worker(id))
    };
    if !known {
        assert forall|k: int| 0 <= k < m.workers.len() implies (#[trigger] m.workers[k]).id
            != id by {
            if m.workers[k].id == id {
                assert(is_worker_at(m.workers, id, k));
            }
        }
        assert forall|i: int, k: int|
            0 <= i < all.len() && 0 <= k < all.len() && (#[trigger] all[i]).id == (
            #[trigger] all[k]).id implies i == k by {
            if i < m.workers.len() && k < m.workers.len() {
                assert(m.workers[i].id == m.workers[k].id);
            } else if i < m.workers.len() {
                assert(m.workers[i].id != id);
            } else if k < m.workers.len() {
                assert(m.workers[k].id != id);
            }
        }
        if m.ready.contains(id) {
            let k = choose|k: int| 0 <= k < m.ready.len() && m.ready[k] == id;
            assert(is_known(m.workers, m.ready[k]));
        }
    }
    assert(are_distinct(all));
    lemma_worker_at(all, id, at);
    let out = after_refill(m, id, payload);
    let w = all[at];
    let joins = credited(w, payload).in_ready && !w.in_ready;
    assert(w.in_ready <==> m.ready.contains(id)) by {
        if known {
            assert(m.workers[at] == w);
        }
    }
    assert(are_distinct(out.workers)) by {
        assert forall|i: int, k: int|
            0 <= i < out.workers.len() && 0 <= k < out.workers.len() && (
            #[trigger] out.workers[i]).id == (#[trigger] out.workers[k]).id implies i == k by {
            assert(all[i].id == all[k].id);
        }
    }
    assert forall|k: int| 0 <= k < out.ready.len() implies is_known(
        out.workers,
        #[trigger] out.ready[k],
    ) by {
        if k < m.ready.len() {
            let one = m.ready[k];
            assert(is_known(m.workers, one));
            let i = choose|i: int| is_worker_at(m.workers, one, i);
            assert(is_worker_at(m.workers, one, i));
            assert(all[i].id == one);
            assert(is_worker_at(out.workers, one, i));
        } else {
            assert(is_worker_at(out.workers, id, at));
        }
    }
    assert forall|i: int|
        #![trigger out.workers[i]]
        0 <= i < out.workers.len() implies (out.workers[i].in_ready <==> out.ready.contains(
        out.workers[i].id,
    )) && (out.workers[i].in_ready <==> out.workers[i].credits > 0) by {
        let one = all[i];
        if one.id == id {
            assert(one.id == all[at].id);
            assert(i == at);
            if joins {
                assert(out.ready[m.ready.len() as int] == id);
            }
            if known {
                assert(m.workers[at] == w);
            }
        } else {
            assert(m.workers[i] == one);
            if m.ready.contains(one.id) {
                let k = choose|k: int| 0 <= k < m.ready.len() && m.ready[k] == one.id;
                assert(out.ready[k] == one.id);
            }
            if out.ready.contains(one.id) {
                let k = choose|k: int| 0 <= k < out.ready.len() && out.ready[k] == one.id;
                assert(m.ready[k] == one.id);
            }
        }
    }
}

/// The payload of a worker's message: behind the delimiter, where there is one.
pub open spec fn payload_of(frames: Seq<Seq<u8>>) -> Seq<u8> {
    if frames.len() >= 3 {
        frames[2]
    } else {
        frames[1]
    }
}

/// An answer that says what waits and what the workers last told.
pub open spec fn metrics_reply(m: BrokerModel, parsed: Seq<Option<Json>>) -> JsonModel {
    JsonModel::Object(
        seq![
            ("_ctrl"@, JsonModel::Text("metrics_response"@)),
            ("dispatcher_queue_depth"@, JsonModel::Count(m.events.len())),
            ("consumers"@, JsonModel::Array(consumers(m.workers, parsed))),
        ],
    )
}

/// What the workers last told, an empty object for those that told nothing that
/// can be read.
pub open spec fn consumers(ws: Seq<WorkerModel>, parsed: Seq<Option<Json>>) -> Seq<JsonModel> {
    Seq::new(
        ws.len(),
        |i: int|
            match parsed[i] {
                Some(j) if ws[i].metrics.len() > 0 => JsonModel::Kept(j),
                _ => JsonModel::Object(Seq::empty()),
            },
    )
}

impl Broker {
    /// Takes in what a worker sent, and says whether the worker is a new one. A
    /// message of fewer than two frames is passed over.
    pub fn refill(&mut self, frames: &Vec<Vec<u8>>) -> (r: Option<bool>)
        requires
            is_consistent(old(self)@),
        ensures
            is_consistent(final(self)@),
            match r {
                None => frames@.len() < 2 && final(self)@ == old(self)@,
                Some(new) => {
                    &&& frames@.len() >= 2
                    &&& new == !is_known(old(self)@.workers, frames@[0]@)
                    &&& final(self)@ == after_refill(
                        old(self)@,
                        frames@[0]@,
                        payload_of(byte_views(frames@)),
                    )
                },
            },
    {
        if frames.len() < 2 {
            return None;
        }
        let payload: &Vec<u8> = if frames.len() >= 3 {
            &frames[2]
        } else {
            &frames[1]
        };
        assert(payload@ == payload_of(byte_views(frames@)));
        let granted: u32 = match scan_n_credits(payload) {
            Some(n) => n,
            None => 1,
        };
        let ghost was = self@;
        let ghost id = frames@[0]@;
        let found = self.find(&frames[0]);
        let at: usize = match found {
            Some(i) => i,
            None => self.workers.len(),
        };
        proof {
            lemma_refill(was, id, payload@, at as int);
        }
        let is_new = found.is_none();
        if is_new {
            let w = WorkerInfo {
                id: copy_bytes(&frames[0]),
                metrics_raw: Vec::new(),
                credits: 0,
                in_ready: false,
                dispatched: 0,
            };
            let ghost ws = self.workers@;
            self.workers.push(w);
            assert(w.metrics_raw@ =~= Seq::<u8>::empty());
            assert(worker_views(self.workers@) =~= worker_views(ws).push(fresh_worker(id)));
            self.wake_logged = false;
        }
        let ghost all = self@.workers;
        assert(all[at as int] == self.workers@[at as int]@);
        if payload.len() > 0 {
            self.workers[at].metrics_raw = copy_bytes(payload);
        }
        let c: u32 = self.workers[at].credits;
        let sum: u32 = if c < u32::MAX - granted {
            c + granted
        } else {
            u32::MAX
        };
        self.workers[at].credits = sum;
        if sum > 0 && !self.workers[at].in_ready {
            self.workers[at].in_ready = true;
            let ghost q = self.ready_workers@;
            let again = copy_bytes(&frames[0]);
            self.ready_workers.push_back(again);
            assert(byte_views(self.ready_workers@) =~= byte_views(q).push(id));
        }
        proof {
            let out = after_refill(was, id, payload@);
            assert(self@.workers =~= out.workers) by {
                assert forall|k: int| 0 <= k < all.len() implies self@.workers[k]
                    == out.workers[k] by {
                    if all[k].id == id {
                        assert(all[k].id == all[at as int].id);
                    }
                }
            }
        }
        Some(is_new)
    }

    /// Takes in an event; an empty one is passed over.
    pub fn accept(&mut self, event: Vec<u8>)
        ensures
            final(self)@ == accepted(old(self)@, event@),
            final(self)@ == (if event@.len() == 0 {
                old(self)@
            } else {
                BrokerModel { events: old(self)@.events.push(event@), ..old(self)@ }
            }),
            is_consistent(old(self)@) ==> is_consistent(final(self)@),
    {
        if event.len() > 0 {
            let ghost was = self.event_buffer@;
            let ghost e = event@;
            self.event_buffer.push_back(event);
            assert(byte_views(self.event_buffer@) =~= byte_views(was).push(e));
        }
    }

    /// Whether more events are to be taken in: a worker waits for them, or there
    /// is room.
    pub fn takes_events(&self, max_queue: usize) -> (r: bool)
        ensures
            r == (self@.ready.len() > 0 || self@.events.len() < max_queue),
            r == wants_events(self@, max_queue as nat),
    {
        self.ready_workers.len() > 0 || self.event_buffer.len() < max_queue
    }

    /// Whether it is to be said that events wait and there is no worker: once,
    /// until a worker comes.
    pub fn calls_for_workers(&mut self) -> (r: bool)
        ensures
            r == (old(self)@.events.len() > 0 && old(self)@.workers.len() == 0 && !old(
                self,
            )@.wake_logged),
            r == lacks_workers(old(self)@),
            final(self)@ == (BrokerModel {
                wake_logged: r || old(self)@.wake_logged,
                ..old(self)@
            }),
            is_consistent(old(self)@) ==> is_consistent(final(self)@),
    {
        let r = self.event_buffer.len() > 0 && self.workers.len() == 0 && !self.wake_logged;
        if r {
            self.wake_logged = true;
        }
        r
    }

    /// Answers a question of the agent. What each worker last sent is read
    /// elsewhere, and handed in.
    pub fn reply<'a>(&self, parsed: &'a Vec<Option<Json>>) -> (j: JsonOut<'a>)
        requires
            parsed@.len() == self@.workers.len(),
        ensures
            shows(j, metrics_reply(self@, parsed@)),
    {
        let ghost all = consumers(self@.workers, parsed@);
        let mut a = ArrayOut::new();
        let mut i: usize = 0;
        assert(all.take(0) =~= Seq::<JsonModel>::empty());
        while i < self.workers.len()
            invariant
                i <= self.workers@.len(),
                parsed@.len() == self.workers@.len(),
                all == consumers(self@.workers, parsed@),
                all.len() == self.workers@.len(),
                a.wf(),
                a.model@ == all.take(i as int),
            decreases self.workers@.len() - i,
        {
            assert(self@.workers[i as int] == self.workers@[i as int]@);
            let told = self.workers[i].metrics_raw.len() > 0;
            match &parsed[i] {
                Some(j) if told => {
                    a.push(JsonOut::Kept(j), Ghost(JsonModel::Kept(*j)));
                },
                _ => {
                    let none = ObjectOut::new().done();
                    a.push(none, Ghost(JsonModel::Object(Seq::empty())));
                },
            }
            assert(all.take(i + 1) =~= all.take(i as int).push(all[i as int]));
            i = i + 1;
        }
        assert(all.take(i as int) =~= all);
        let list = a.done();
        let mut o = ObjectOut::new();
        o.put_text("_ctrl", "metrics_response");
        o.put_count("dispatcher_queue_depth", self.event_buffer.len() as u64);
        o.put("consumers", list, Ghost(JsonModel::Array(all)));
        o.done()
    }
}

/// Where a socket that the workers or the agent reach is bound: at its port, and
/// under a name of its own on this machine where that is wanted.
pub open spec fn socket_places(
    bind: Seq<char>,
    port: nat,
    name: Seq<char>,
    role: Seq<char>,
    ipc: bool,
) -> Seq<Seq<char>> {
    let tcp = "tcp://"@ + bind + ":"@ + decimal(port);
    if ipc {
        seq![tcp, "ipc:///tmp/epico-"@ + name + "-"@ + role]
    } else {
        seq![tcp]
    }
}

/// Where a socket is bound.
pub fn socket_binds(bind: &str, port: u16, name: &str, role: &str, ipc: bool) -> (out: Vec<String>)
    ensures
        owned_views(out@) == socket_places(bind@, port as nat, name@, role@, ipc),
{
    let mut tcp = "tcp://".to_owned();
    tcp.append(bind);
    tcp.append(":");
    tcp.append(decimal_text(port as u128).as_str());
    let mut out: Vec<String> = Vec::new();
    let ghost t = tcp@;
    out.push(tcp);
    if ipc {
        let mut path = "ipc:///tmp/epico-".to_owned();
        path.append(name);
        path.append("-");
        path.append(role);
        let ghost p = path@;
        out.push(path);
        assert(owned_views(out@) =~= seq![t, p]);
    } else {
        assert(owned_views(out@) =~= seq![t]);
    }
    out
}

/// Where the producers reach the broker: at the one address that is declared, or
/// else at a port. Without either there is none.
pub fn frontend_binds(
    push_uri: Option<&str>,
    push_port: Option<u16>,
    bind: &str,
    name: &str,
    ipc: bool,
) -> (r: Option<Vec<String>>)
    ensures
        match r {
            None => push_uri is None && push_port is None,
            Some(out) => match (push_uri, push_port) {
                (Some(uri), _) => owned_views(out@) == seq![uri@],
                (None, Some(port)) => owned_views(out@) == socket_places(
                    bind@,
                    port as nat,
                    name@,
                    "push"@,
                    ipc,
                ),
                (None, None) => false,
            },
        },
{
    match (push_uri, push_port) {
        (Some(uri), _) => {
            let mut out: Vec<String> = Vec::new();
            out.push(uri.to_owned());
            assert(owned_views(out@) =~= seq![uri@]);
            Some(out)
        },
        (None, Some(port)) => Some(socket_binds(bind, port, name, "push", ipc)),
        (None, None) => None,
    }
}

} // verus!
