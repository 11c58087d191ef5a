//! In-process pipeline edges.
//!
//! An edge is a bounded ring between the workers of one stage and the workers
//! of the next. Its capacity is the only flow control it needs: a producer
//! that finds the ring full waits, and the next idle consumer takes the next
//! event.

use vstd::prelude::*;
use bytes::Bytes;
use crossbeam_queue::ArrayQueue;
use crate::payload::content;

verus! {

/// `crossbeam_queue::ArrayQueue`: a bounded first-in first-out queue.
#[verifier::external_type_specification]
#[verifier::external_body]
#[verifier::reject_recursive_types(T)]
pub struct ExArrayQueue<T>(ArrayQueue<T>);

/// The events a queue holds, oldest first, each as its bytes.
pub uninterp spec fn queued(ring: ArrayQueue<Bytes>) -> Seq<Seq<u8>>;

/// The number of events a queue was made to hold.
pub uninterp spec fn queue_capacity(ring: ArrayQueue<Bytes>) -> nat;

/// `ArrayQueue::new`: an empty queue of the given capacity. It panics on a
/// capacity of zero and on one whose slots do not fit in memory; both are left
/// out here.
#[verifier::external_body]
fn ring_new(capacity: usize) -> (ring: ArrayQueue<Bytes>)
    requires
        0 < capacity <= usize::MAX / 128,
    ensures
        queued(ring) == Seq::<Seq<u8>>::empty(),
        queue_capacity(ring) == capacity,
{
    ArrayQueue::new(capacity)
}

/// `ArrayQueue::push`, with the queue borrowed exclusively: the event goes in
/// behind the others unless the queue is full, in which case it is handed back
/// and the queue stays as it is.
#[verifier::external_body]
fn ring_push(ring: &mut ArrayQueue<Bytes>, item: Bytes) -> (r: Result<(), Bytes>)
    ensures
        queue_capacity(*final(ring)) == queue_capacity(*old(ring)),
        r is Ok <==> queued(*old(ring)).len() < queue_capacity(*old(ring)),
        r is Ok ==> queued(*final(ring)) == queued(*old(ring)).push(content(item)),
        r matches Err(back) ==> back == item && queued(*final(ring)) == queued(*old(ring)),
{
    ring.push(item)
}

/// `ArrayQueue::pop`, with the queue borrowed exclusively: the oldest event
/// comes out, or `None` where there is none.
#[verifier::external_body]
fn ring_pop(ring: &mut ArrayQueue<Bytes>) -> (r: Option<Bytes>)
    ensures
        queue_capacity(*final(ring)) == queue_capacity(*old(ring)),
        r is Some <==> queued(*old(ring)).len() > 0,
        r matches Some(item) ==> content(item) == queued(*old(ring))[0]
            && queued(*final(ring)) == queued(*old(ring)).drop_first(),
        r is None ==> queued(*final(ring)) == queued(*old(ring)),
{
    ring.pop()
}

/// `ArrayQueue::len`: how many events the queue holds, which is never more
/// than its capacity.
#[verifier::external_body]
fn ring_len(ring: &ArrayQueue<Bytes>) -> (n: usize)
    ensures
        n == queued(*ring).len(),
        n <= queue_capacity(*ring),
{
    ring.len()
}

/// `ArrayQueue::capacity`: the capacity the queue was made with.
#[verifier::external_body]
fn ring_capacity(ring: &ArrayQueue<Bytes>) -> (n: usize)
    ensures
        n == queue_capacity(*ring),
{
    ring.capacity()
}

/// Waits below this many spin.
pub const SPIN_LIMIT: u32 = 6;

/// Waits below this many, and not below [`SPIN_LIMIT`], yield.
pub const YIELD_LIMIT: u32 = 16;

/// How long every later wait sleeps, in microseconds.
pub const SLEEP_US: u64 = 50;

/// What to do before looking at an edge again.
#[derive(Clone, Copy, Debug, PartialEq, Eq, Structural)]
pub enum Wait {
    /// Spin this many times.
    Spin(u32),
    /// Give the processor up once.
    Yield,
    /// Sleep this many microseconds.
    Sleep(u64),
}

/// The wait that comes after `step` earlier ones.
pub open spec fn wait_at(step: nat) -> Wait {
    if step < SPIN_LIMIT {
        Wait::Spin(vstd::arithmetic::power2::pow2(step) as u32)
    } else if step < YIELD_LIMIT {
        Wait::Yield
    } else {
        Wait::Sleep(SLEEP_US)
    }
}

/// The count of waits after one more. It saturates.
pub open spec fn next_steps(steps: nat) -> nat {
    if steps < u32::MAX {
        steps + 1
    } else {
        steps
    }
}

/// Adaptive backoff for a contended or empty edge: a few growing spins, then
/// yields, then short sleeps, so that an idle edge costs next to nothing.
#[derive(Clone, Copy, Debug)]
pub struct Backoff {
    step: u32,
}

impl Backoff {
    /// How many waits have been handed out, as far as the count goes.
    pub closed spec fn steps(&self) -> nat {
        self.step as nat
    }

    pub fn new() -> (b: Backoff)
        ensures
            b.steps() == 0,
    {
        Backoff { step: 0 }
    }

    /// The next wait. The count of waits saturates.
    pub fn wait(&mut self) -> (w: Wait)
        ensures
            w == wait_at(old(self).steps()),
            final(self).steps() == next_steps(old(self).steps()),
    {
        let step: u32 = self.step;
        self.step = step.saturating_add(1);
        if step < SPIN_LIMIT {
            proof {
                vstd::arithmetic::power2::lemma2_to64();
                assert(step == 0 || step == 1 || step == 2 || step == 3 || step == 4 || step == 5);
                assert(1u32 << 0u32 == 1 && 1u32 << 1u32 == 2 && 1u32 << 2u32 == 4 && 1u32 << 3u32
                    == 8 && 1u32 << 4u32 == 16 && 1u32 << 5u32 == 32) by (bit_vector);
            }
            Wait::Spin(1u32 << step)
        } else if step < YIELD_LIMIT {
            Wait::Yield
        } else {
            Wait::Sleep(SLEEP_US)
        }
    }
}

/// What one attempt of a blocking enqueue came to.
pub enum PushStep {
    /// The event is in the edge.
    Delivered,
    /// The pipeline is shutting down; the event was dropped.
    Dropped,
    /// There was no room: wait, then try again with the event handed back.
    Blocked(Bytes, Wait),
}

/// What one attempt of a blocking dequeue came to.
pub enum PopStep {
    /// The next event.
    Item(Bytes),
    /// The worker should exit.
    Done,
    /// There was nothing: wait, then look again.
    Empty(Wait),
}

/// What one attempt to enqueue `item` does to an edge.
pub open spec fn edge_push_step(
    was: Edge,
    now: Edge,
    item: Bytes,
    drain: bool,
    r: PushStep,
) -> bool {
    &&& now.room() == was.room()
    &&& r is Delivered <==> was.events().len() < was.room()
    &&& r is Delivered ==> now.events() == was.events().push(content(item))
    &&& r !is Delivered ==> now.events() == was.events() && (r is Dropped <==> drain)
}

/// What one attempt to dequeue does to an edge.
pub open spec fn edge_pop_step(was: Edge, now: Edge, drain: bool, r: PopStep) -> bool {
    &&& now.room() == was.room()
    &&& r is Item <==> was.events().len() > 0
    &&& r matches PopStep::Item(item) ==> content(item) == was.events()[0] && now.events()
        == was.events().drop_first()
    &&& r !is Item ==> now.events() == was.events() && (r is Done <==> drain)
}

/// A single in-process edge between two stages.
pub struct Edge {
    ring: ArrayQueue<Bytes>,
}

impl Edge {
    /// The events waiting in the edge, oldest first.
    pub closed spec fn events(&self) -> Seq<Seq<u8>> {
        queued(self.ring)
    }

    /// How many events the edge has room for.
    pub closed spec fn room(&self) -> nat {
        queue_capacity(self.ring)
    }

    /// An edge with room for `capacity` events in flight, and for one at least.
    pub fn new(capacity: usize) -> (edge: Edge)
        requires
            capacity <= usize::MAX / 128,
        ensures
            edge.events() == Seq::<Seq<u8>>::empty(),
            edge.room() == if capacity == 0 {
                1
            } else {
                capacity as nat
            },
    {
        let at_least_one: usize = if capacity == 0 {
            1
        } else {
            capacity
        };
        Edge { ring: ring_new(at_least_one) }
    }

    /// Current occupancy: the scaling signal of the consumer stage.
    pub fn len(&self) -> (n: usize)
        ensures
            n == self.events().len(),
            n <= self.room(),
    {
        ring_len(&self.ring)
    }

    /// Maximum occupancy.
    pub fn capacity(&self) -> (n: usize)
        ensures
            n == self.room(),
    {
        ring_capacity(&self.ring)
    }

    /// Producer side: takes the event in, or hands it back from a full edge.
    pub fn try_push(&mut self, item: Bytes) -> (r: Result<(), Bytes>)
        ensures
            final(self).room() == old(self).room(),
            r is Ok <==> old(self).events().len() < old(self).room(),
            r is Ok ==> final(self).events() == old(self).events().push(content(item)),
            r matches Err(back) ==> back == item && final(self).events() == old(self).events(),
    {
        ring_push(&mut self.ring, item)
    }

    /// Producer side, one attempt of a blocking enqueue. A full edge makes the
    /// producer wait, unless the pipeline is shutting down.
    pub fn push(&mut self, item: Bytes, drain: bool, backoff: &mut Backoff) -> (r: PushStep)
        ensures
            edge_push_step(*old(self), *final(self), item, drain, r),
            r matches PushStep::Blocked(back, w) ==> back == item && w == wait_at(
                old(backoff).steps(),
            ),
            r is Blocked ==> final(backoff).steps() == next_steps(old(backoff).steps()),
            r !is Blocked ==> final(backoff).steps() == old(backoff).steps(),
    {
        match self.try_push(item) {
            Ok(()) => PushStep::Delivered,
            Err(back) => if drain {
                PushStep::Dropped
            } else {
                PushStep::Blocked(back, backoff.wait())
            },
        }
    }

    /// Consumer side, one attempt of a blocking dequeue. An empty edge makes
    /// the consumer wait, unless the pipeline is shutting down: everything
    /// that was accepted is handed out first.
    pub fn pop(&mut self, drain: bool, backoff: &mut Backoff) -> (r: PopStep)
        ensures
            edge_pop_step(*old(self), *final(self), drain, r),
            r matches PopStep::Empty(w) ==> w == wait_at(old(backoff).steps()),
            r is Empty ==> final(backoff).steps() == next_steps(old(backoff).steps()),
            r !is Empty ==> final(backoff).steps() == old(backoff).steps(),
    {
        match self.try_pop() {
            Some(item) => PopStep::Item(item),
            None => if drain {
                PopStep::Done
            } else {
                PopStep::Empty(backoff.wait())
            },
        }
    }

    /// Consumer side: the oldest event, if there is one.
    pub fn try_pop(&mut self) -> (r: Option<Bytes>)
        ensures
            final(self).room() == old(self).room(),
            r is Some <==> old(self).events().len() > 0,
            r matches Some(item) ==> content(item) == old(self).events()[0]
                && final(self).events() == old(self).events().drop_first(),
            r is None ==> final(self).events() == old(self).events(),
    {
        ring_pop(&mut self.ring)
    }
}

} // verus!
