//! The end-of-stream barrier of a stage.
//!
//! A stage forwards the end-of-stream marker only when the stage as a whole is
//! finished: every upstream branch has delivered its marker, and every replica
//! has drained. Workers report the markers they decode and go on; once all
//! have been seen the stage starts finishing, and the last worker out gets the
//! marker back, to forward it behind everything else the stage has sent.

use vstd::prelude::*;
use bytes::Bytes;

verus! {

pub struct StageEosBarrier {
    expected_in: usize,
    seen: usize,
    finishing: bool,
    live_workers: usize,
    marker: Option<Bytes>,
}

/// What a barrier knows.
pub struct BarrierState {
    /// The markers that have to arrive.
    pub expected_in: nat,
    /// The markers that have arrived.
    pub seen: nat,
    /// Whether the stage has started to finish.
    pub finishing: bool,
    /// The workers inside their event loop.
    pub live_workers: nat,
    /// The marker to forward.
    pub marker: Option<Bytes>,
}

impl View for StageEosBarrier {
    type V = BarrierState;

    closed spec fn view(&self) -> BarrierState {
        BarrierState {
            expected_in: self.expected_in as nat,
            seen: self.seen as nat,
            finishing: self.finishing,
            live_workers: self.live_workers as nat,
            marker: self.marker,
        }
    }
}

/// The barrier after one more marker has arrived: the first one is kept.
pub open spec fn after_report(was: BarrierState, marker: Bytes) -> BarrierState {
    BarrierState {
        seen: was.seen + 1,
        marker: if was.marker is Some {
            was.marker
        } else {
            Some(marker)
        },
        ..was
    }
}

/// Whether a worker that leaves now is the one to forward the marker.
pub open spec fn last_one_out(was: BarrierState) -> bool {
    was.live_workers == 1 && was.finishing
}

/// The barrier after a worker has left.
pub open spec fn after_finished(was: BarrierState) -> BarrierState {
    BarrierState {
        live_workers: (was.live_workers - 1) as nat,
        marker: if last_one_out(was) {
            None
        } else {
            was.marker
        },
        ..was
    }
}

impl StageEosBarrier {
    /// A barrier that waits for `expected_in` markers, and for one at least.
    pub fn new(expected_in: usize) -> (b: StageEosBarrier)
        ensures
            b@ == (BarrierState {
                expected_in: if expected_in == 0 {
                    1
                } else {
                    expected_in as nat
                },
                seen: 0,
                finishing: false,
                live_workers: 0,
                marker: None,
            }),
    {
        StageEosBarrier {
            expected_in: if expected_in == 0 {
                1
            } else {
                expected_in
            },
            seen: 0,
            finishing: false,
            live_workers: 0,
            marker: None,
        }
    }

    /// A worker decoded a marker on the stage's input.
    pub fn report(&mut self, marker: Bytes)
        requires
            old(self)@.seen < usize::MAX,
        ensures
            final(self)@ == after_report(old(self)@, marker),
    {
        if self.marker.is_none() {
            self.marker = Some(marker);
        }
        self.seen = self.seen + 1;
    }

    /// True once every expected marker has arrived.
    pub fn all_markers_seen(&self) -> (b: bool)
        ensures
            b == (self@.seen >= self@.expected_in),
    {
        self.seen >= self.expected_in
    }

    /// Starts finishing. True for the first call only: whoever gets it tells
    /// the workers to drain.
    pub fn begin_finishing(&mut self) -> (first: bool)
        ensures
            first == !old(self)@.finishing,
            final(self)@ == (BarrierState { finishing: true, ..old(self)@ }),
    {
        let first = !self.finishing;
        self.finishing = true;
        first
    }

    pub fn is_finishing(&self) -> (b: bool)
        ensures
            b == self@.finishing,
    {
        self.finishing
    }

    /// A worker has booted and is about to enter its event loop.
    pub fn worker_started(&mut self)
        requires
            old(self)@.live_workers < usize::MAX,
        ensures
            final(self)@ == (BarrierState {
                live_workers: old(self)@.live_workers + 1,
                ..old(self)@
            }),
    {
        self.live_workers = self.live_workers + 1;
    }

    /// A worker has left its event loop, for whatever reason. The last one out
    /// of a finishing stage gets the marker and must forward it.
    pub fn worker_finished(&mut self) -> (marker: Option<Bytes>)
        requires
            old(self)@.live_workers > 0,
        ensures
            marker == if last_one_out(old(self)@) {
                old(self)@.marker
            } else {
                None
            },
            final(self)@ == after_finished(old(self)@),
    {
        let was_last = self.live_workers == 1;
        self.live_workers = self.live_workers - 1;
        if was_last && self.finishing {
            self.marker.take()
        } else {
            None
        }
    }

    /// Moves the markers of a retired stage onto the barrier of the stage that
    /// replaces it, and says how many there were.
    pub fn drain_into(&mut self, next: &mut StageEosBarrier) -> (moved: usize)
        requires
            old(self)@.seen + old(next)@.seen <= usize::MAX,
        ensures
            moved == old(self)@.seen,
            final(self)@ == (BarrierState { seen: 0, marker: None, ..old(self)@ }),
            final(next)@ == (BarrierState {
                seen: old(next)@.seen + old(self)@.seen,
                marker: if old(next)@.marker is Some {
                    old(next)@.marker
                } else {
                    old(self)@.marker
                },
                ..old(next)@
            }),
    {
        let moved: usize = self.seen;
        self.seen = 0;
        let marker = self.marker.take();
        if next.marker.is_none() {
            next.marker = marker;
        }
        next.seen = next.seen + moved;
        moved
    }
}

/// Law: of all the workers that leave a stage, one alone gets the marker, and
/// it is the one that leaves nobody behind in a finishing stage.
pub proof fn law_marker_is_handed_out_once(was: BarrierState)
    requires
        was.live_workers > 0,
    ensures
        last_one_out(was) ==> after_finished(was).marker is None && after_finished(was).live_workers
            == 0,
        !last_one_out(was) ==> after_finished(was).marker == was.marker,
        !was.finishing ==> !last_one_out(was),
{
}

/// Law: a stage that other markers reach later still forwards the first one.
pub proof fn law_first_marker_wins(was: BarrierState, first: Bytes, later: Bytes)
    requires
        was.marker is None,
    ensures
        after_report(after_report(was, first), later).marker == Some(first),
        after_report(after_report(was, first), later).seen == was.seen + 2,
{
}

/// The barrier after the markers have arrived one by one.
pub open spec fn after_reports(was: BarrierState, markers: Seq<Bytes>) -> BarrierState
    decreases markers.len(),
{
    if markers.len() == 0 {
        was
    } else {
        after_report(after_reports(was, markers.drop_last()), markers.last())
    }
}

/// Law: a fan-in stage finishes on its last branch and not before.
pub proof fn law_fan_in_waits_for_all(was: BarrierState, markers: Seq<Bytes>)
    requires
        was.seen == 0,
    ensures
        after_reports(was, markers).seen == markers.len(),
        after_reports(was, markers).expected_in == was.expected_in,
        (after_reports(was, markers).seen >= was.expected_in) <==> markers.len()
            >= was.expected_in,
    decreases markers.len(),
{
    if markers.len() > 0 {
        law_fan_in_waits_for_all(was, markers.drop_last());
    }
}

} // verus!
