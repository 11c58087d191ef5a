//! Rolling windows: a ring of sealed seconds, and the one that is being filled.

use vstd::prelude::*;
use crate::hist::{empty_counts, Hist};
use crate::topk::TopK;

verus! {

/// Seconds of history kept per edge and per stage.
pub const RETAIN: usize = 300;

/// Seconds of per-key history kept. Skew is a property of the present, and the
/// keys are the one part of a bucket whose size is not fixed.
pub const KEY_RETAIN: usize = 60;

/// The slots of a window: the retained seconds and the open one.
pub const RING: usize = 301;

/// One second of something.
pub trait Bucket: Sized {
    /// Nothing has been put in.
    spec fn is_blank(&self) -> bool;

    fn blank() -> (b: Self)
        ensures
            b.is_blank(),
    ;

    fn reset(&mut self)
        ensures
            final(self).is_blank(),
    ;
}

/// One second of an edge's traffic.
#[derive(Clone, Debug)]
pub struct EdgeBucket {
    pub count: u64,
    /// Payload bytes. Counts drive fusion and replication, bytes the choice of
    /// a transport.
    pub bytes: u64,
    /// What it took each event to get from one stage to the next.
    pub gap: Hist,
    /// Per-key occupancy, where any event carried a key and the bucket is
    /// recent enough.
    pub keys: Option<TopK>,
}

impl Bucket for EdgeBucket {
    open spec fn is_blank(&self) -> bool {
        &&& self.count == 0
        &&& self.bytes == 0
        &&& self.gap@ == empty_counts()
        &&& self.keys is None
    }

    fn blank() -> (b: EdgeBucket) {
        EdgeBucket { count: 0, bytes: 0, gap: Hist::default(), keys: None }
    }

    fn reset(&mut self) {
        self.count = 0;
        self.bytes = 0;
        self.gap.clear();
        self.keys = None;
    }
}

/// One second of a stage's compute.
#[derive(Clone, Copy, Debug)]
pub struct StageBucket {
    pub events: u64,
    /// Cost of the call into the stage's own code, per event.
    pub wasm: Hist,
    /// Everything else, per event: what fusing two stages takes away.
    pub overhead: Hist,
}

impl Bucket for StageBucket {
    open spec fn is_blank(&self) -> bool {
        &&& self.events == 0
        &&& self.wasm@ == empty_counts()
        &&& self.overhead@ == empty_counts()
    }

    fn blank() -> (b: StageBucket) {
        StageBucket { events: 0, wasm: Hist::default(), overhead: Hist::default() }
    }

    fn reset(&mut self) {
        self.events = 0;
        self.wasm.clear();
        self.overhead.clear();
    }
}

/// A fixed ring of sealed buckets plus the one that is open.
#[derive(Clone, Debug)]
pub struct Window<B> {
    ring: Vec<B>,
    head: usize,
    filled: usize,
}

/// The slot `back` places behind `head`.
pub open spec fn behind(head: int, back: int) -> int {
    if head >= back {
        head - back
    } else {
        head + RING - back
    }
}

impl<B> View for Window<B> {
    type V = Seq<B>;

    /// All slots: the open one first, then the others from the one sealed last
    /// backwards.
    closed spec fn view(&self) -> Seq<B> {
        Seq::new(RING as nat, |back: int| self.ring@[behind(self.head as int, back)])
    }
}

/// The slots after the open bucket has been sealed: each is one further back,
/// and the one that was furthest back is open now.
pub open spec fn sealed<B>(slots: Seq<B>) -> Seq<B> {
    seq![slots.last()] + slots.drop_last()
}

impl<B: Bucket> Default for Window<B> {
    fn default() -> (w: Window<B>)
        ensures
            w.wf(),
            w.sealed_count() == 0,
            forall|i: int| 0 <= i < RING ==> (#[trigger] w@[i]).is_blank(),
    {
        let mut ring: Vec<B> = Vec::new();
        let mut i: usize = 0;
        while i < RING
            invariant
                i <= RING,
                ring@.len() == i,
                forall|k: int| 0 <= k < i ==> (#[trigger] ring@[k]).is_blank(),
            decreases RING - i,
        {
            ring.push(B::blank());
            i = i + 1;
        }
        Window { ring, head: 0, filled: 0 }
    }
}

impl<B> Window<B> {
    pub closed spec fn wf(&self) -> bool {
        &&& self.ring@.len() == RING
        &&& self.head < RING
        &&& self.filled <= RETAIN
    }

    /// How many sealed buckets there are to look at: without this, a query in
    /// the first minute of a run would average over seconds that never were.
    pub closed spec fn sealed_count(&self) -> nat {
        self.filled as nat
    }

    /// The `n` buckets sealed last, newest first.
    pub open spec fn recent_buckets(&self, n: nat) -> Seq<B> {
        let take = if n < self.sealed_count() {
            n
        } else {
            self.sealed_count()
        };
        self@.subrange(1, 1 + take as int)
    }

    /// What is always true of a well-formed window.
    pub proof fn lemma_sizes(&self)
        requires
            self.wf(),
        ensures
            self@.len() == RING,
            self.sealed_count() <= RETAIN,
    {
    }

    /// The bucket that accepts observations.
    pub fn current_mut(&mut self) -> (b: &mut B)
        requires
            old(self).wf(),
        ensures
            *b == old(self)@[0],
            final(self).wf(),
            final(self).sealed_count() == old(self).sealed_count(),
            final(self)@ == old(self)@.update(0, *final(b)),
    {
        let at: usize = self.head;
        &mut self.ring[at]
    }

    /// The slot `back` places behind the open one.
    pub fn slot(&self, back: usize) -> (b: &B)
        requires
            self.wf(),
            back < RING,
        ensures
            *b == self@[back as int],
    {
        if self.head >= back {
            &self.ring[self.head - back]
        } else {
            &self.ring[self.head + (RING - back)]
        }
    }

    /// The slot `back` places behind the open one, to be changed.
    pub fn slot_mut(&mut self, back: usize) -> (b: &mut B)
        requires
            old(self).wf(),
            back < RING,
        ensures
            *b == old(self)@[back as int],
            final(self).wf(),
            final(self).sealed_count() == old(self).sealed_count(),
            final(self)@ == old(self)@.update(back as int, *final(b)),
    {
        let at: usize = if self.head >= back {
            self.head - back
        } else {
            self.head + (RING - back)
        };
        &mut self.ring[at]
    }

    /// Closes the open bucket and opens the next.
    pub fn advance(&mut self)
        requires
            old(self).wf(),
        ensures
            final(self).wf(),
            final(self)@ == sealed(old(self)@),
            final(self).sealed_count() == if old(self).sealed_count() < RETAIN {
                old(self).sealed_count() + 1
            } else {
                old(self).sealed_count()
            },
    {
        self.head = if self.head + 1 >= RING {
            0
        } else {
            self.head + 1
        };
        if self.filled < RETAIN {
            self.filled = self.filled + 1;
        }
        assert(self@ =~= sealed(old(self)@));
    }

    /// The `n` buckets sealed last, newest first. Never the open one: a second
    /// that is half over would make every rate jitter.
    pub fn recent(&self, n: usize) -> (buckets: Vec<&B>)
        requires
            self.wf(),
        ensures
            buckets@.len() == self.recent_buckets(n as nat).len(),
            forall|i: int|
                0 <= i < buckets@.len() ==> *(#[trigger] buckets@[i]) == self.recent_buckets(
                    n as nat,
                )[i],
    {
        let take: usize = if n < self.filled {
            n
        } else {
            self.filled
        };
        let mut buckets: Vec<&B> = Vec::new();
        let mut i: usize = 0;
        while i < take
            invariant
                i <= take,
                self.wf(),
                take == if n < self.filled {
                    n
                } else {
                    self.filled
                },
                buckets@.len() == i,
                forall|k: int|
                    0 <= k < i ==> *(#[trigger] buckets@[k]) == self.recent_buckets(n as nat)[k],
            decreases take - i,
        {
            buckets.push(self.slot(i + 1));
            i = i + 1;
        }
        buckets
    }

    pub fn filled(&self) -> (n: usize)
        ensures
            n == self.sealed_count(),
    {
        self.filled
    }
}

/// Law: what is put into the open bucket shows in no query until the bucket is
/// sealed.
pub proof fn law_recent_never_shows_the_open_bucket<B>(
    before: Window<B>,
    after: Window<B>,
    open: B,
    n: nat,
)
    requires
        before.wf(),
        after.wf(),
        after.sealed_count() == before.sealed_count(),
        after@ == before@.update(0, open),
    ensures
        after.recent_buckets(n) == before.recent_buckets(n),
{
    before.lemma_sizes();
    assert(after.recent_buckets(n) =~= before.recent_buckets(n));
}

/// Law: the bucket that was open is the newest one as soon as it is sealed, and
/// the earlier ones follow in the same order.
pub proof fn law_sealing_publishes_the_open_bucket<B>(before: Window<B>, after: Window<B>, n: nat)
    requires
        before.wf(),
        after.wf(),
        after@ == sealed(before@),
        after.sealed_count() == if before.sealed_count() < RETAIN {
            before.sealed_count() + 1
        } else {
            before.sealed_count()
        },
        1 <= n,
        n <= after.sealed_count(),
    ensures
        after.recent_buckets(n) == seq![before@[0]] + before.recent_buckets((n - 1) as nat),
{
    before.lemma_sizes();
    assert(after.recent_buckets(n) =~= seq![before@[0]] + before.recent_buckets((n - 1) as nat));
}

} // verus!
