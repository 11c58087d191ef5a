//! The collector's side of the live statistics: every finished event is folded
//! into the open second of the edges it crossed, and a second is sealed when
//! it is over.

use vstd::prelude::*;
use crate::hist::{bucket_index, difference, empty_counts, HIST_BUCKETS};
use crate::live::{
    distinct_stages, edge_bucket_wf, edge_place, edge_window_wf, has_edge, has_stage, is_edge, is_stage,
    stage_place, EdgeEntry, EdgeModel, EdgeSecond, KeysModel, LiveStats, StageEntry, StageModel,
    StageSecond,
};
use crate::text::{before, text_before};
use crate::timing::{
    observed, timing_start, StageTiming, TimingCursor, TimingModel, TimingRegistry,
};
use crate::topk::{after_observe, KeyCount, TopK};
use crate::window::{sealed, EdgeBucket, StageBucket, Window, KEY_RETAIN, RETAIN, RING};

verus! {

/// An event's visit to a stage: its label, and when it came and went.
#[derive(Clone, Debug)]
pub struct HopTime {
    /// The name of the stage, and which replica of it after a `#`.
    pub label: String,
    pub enter_ns: u64,
    pub exit_ns: u64,
}

/// What it took to get from one stage to the next, in whole microseconds. A
/// visit that seems to begin before the last one ended is a matter of clocks,
/// and counts as no gap at all.
pub open spec fn gap_us(exit_ns: nat, enter_ns: nat) -> nat {
    if enter_ns < exit_ns {
        0
    } else {
        ((enter_ns - exit_ns) / 1000) as nat
    }
}

/// A second in which nothing has happened.
pub open spec fn blank_second() -> EdgeSecond {
    EdgeSecond { count: 0, bytes: 0, gap: empty_counts(), keys: None }
}

/// The keys after one more event, which may carry one.
pub open spec fn keys_after(keys: Option<KeysModel>, key: Option<u64>) -> Option<KeysModel> {
    match key {
        None => keys,
        Some(k) => Some(
            match keys {
                None => KeysModel {
                    slots: after_observe(Seq::<KeyCount>::empty(), k),
                    observed: 1,
                },
                Some(m) => KeysModel {
                    slots: after_observe(m.slots, k),
                    observed: m.observed + 1,
                },
            },
        ),
    }
}

/// A second after one more event has crossed the edge.
pub open spec fn second_after(s: EdgeSecond, gap: nat, bytes: nat, key: Option<u64>) -> EdgeSecond {
    EdgeSecond {
        count: s.count + 1,
        bytes: s.bytes + bytes,
        gap: observed(s.gap, gap),
        keys: keys_after(s.keys, key),
    }
}

/// An edge that has just been met.
pub open spec fn new_edge(from: Seq<char>, to: Seq<char>) -> EdgeModel {
    EdgeModel { from, to, seconds: Seq::new(RING as nat, |i: int| blank_second()), filled: 0 }
}

/// An edge after one more event has crossed it.
pub open spec fn edge_after(e: EdgeModel, gap: nat, bytes: nat, key: Option<u64>) -> EdgeModel {
    EdgeModel { seconds: e.seconds.update(0, second_after(e.seconds[0], gap, bytes, key)), ..e }
}

/// The edges after one event has crossed one of them.
pub open spec fn edges_after(
    edges: Seq<EdgeModel>,
    from: Seq<char>,
    to: Seq<char>,
    gap: nat,
    bytes: nat,
    key: Option<u64>,
) -> Seq<EdgeModel> {
    if has_edge(edges, from, to) {
        let i = edge_place(edges, from, to);
        edges.update(i, edge_after(edges[i], gap, bytes, key))
    } else {
        edges.push(edge_after(new_edge(from, to), gap, bytes, key))
    }
}

/// The edges after an event has crossed the first `n` of those it visited.
pub open spec fn edges_after_hops(
    edges: Seq<EdgeModel>,
    hops: Seq<HopTime>,
    n: nat,
    bytes: nat,
    key: Option<u64>,
) -> Seq<EdgeModel>
    decreases n,
{
    if n == 0 {
        edges
    } else {
        let m = (n - 1) as int;
        edges_after(
            edges_after_hops(edges, hops, (n - 1) as nat, bytes, key),
            before(hops[m].label@, '#'),
            before(hops[m + 1].label@, '#'),
            gap_us(hops[m].exit_ns as nat, hops[m + 1].enter_ns as nat),
            bytes,
            key,
        )
    }
}

/// The number of edges an event with that many visits has crossed.
pub open spec fn crossings(hops: nat) -> nat {
    if hops == 0 {
        0
    } else {
        (hops - 1) as nat
    }
}

/// The open seconds have room for `n` more events of that size.
pub open spec fn has_room(edges: Seq<EdgeModel>, n: nat, bytes: nat) -> bool {
    &&& n <= u32::MAX
    &&& n * bytes <= u64::MAX
    &&& forall|i: int|
        0 <= i < edges.len() ==> second_has_room((#[trigger] edges[i]).seconds[0], n, bytes)
}

/// A second has room for `n` more events of that size.
pub open spec fn second_has_room(s: EdgeSecond, n: nat, bytes: nat) -> bool {
    &&& s.count + n <= u32::MAX
    &&& s.bytes + n * bytes <= u64::MAX
    &&& forall|b: int| 0 <= b < HIST_BUCKETS ==> #[trigger] s.gap[b] + n <= u32::MAX
}

impl EdgeBucket {
    /// One more event has crossed the edge.
    fn bump(&mut self, gap: u64, bytes: u64, key: Option<u64>)
        requires
            edge_bucket_wf(*old(self)),
            second_has_room(old(self)@, 1, bytes as nat),
        ensures
            edge_bucket_wf(*final(self)),
            final(self)@ == second_after(old(self)@, gap as nat, bytes as nat, key),
    {
        proof {
            crate::hist::law_bucket_is_bounded(gap as nat);
            assert(self@.gap[bucket_index(gap as nat) as int] + 1 <= u32::MAX);
        }
        self.count = self.count + 1;
        self.bytes = self.bytes + bytes;
        self.gap.observe_us(gap);
        match key {
            None => {},
            Some(k) => {
                let mut keys = match self.keys.take() {
                    None => TopK::default(),
                    Some(keys) => keys,
                };
                assert(old(self).keys is None ==> keys.slots() =~= Seq::<KeyCount>::empty());
                keys.observe(k);
                self.keys = Some(keys);
            },
        }
    }
}

impl LiveStats {
    /// Folds one crossing of an edge in.
    pub fn fold_crossing(
        &mut self,
        from: &String,
        to: &String,
        gap: u64,
        bytes: u64,
        key: Option<u64>,
    )
        requires
            old(self).wf(),
            has_room(old(self).edges(), 1, bytes as nat),
        ensures
            final(self).wf(),
            final(self).stages() == old(self).stages(),
            final(self).t_ns == old(self).t_ns,
            final(self).edges() == edges_after(
                old(self).edges(),
                from@,
                to@,
                gap as nat,
                bytes as nat,
                key,
            ),
    {
        let at: usize = match self.find_edge(from, to) {
            Some(i) => i,
            None => {
                let w: Window<EdgeBucket> = Window::default();
                proof {
                    w.lemma_sizes();
                    assert forall|i: int| 0 <= i < RING implies edge_bucket_wf(
                        #[trigger] w@[i],
                    ) by {
                        assert(<EdgeBucket as crate::window::Bucket>::is_blank(&w@[i]));
                    }
                }
                let at: usize = self.edges.len();
                let entry = EdgeEntry { from: from.clone(), to: to.clone(), window: w };
                proof {
                    assert forall|i: int| 0 <= i < RING implies entry@.seconds[i]
                        == blank_second() by {
                        assert(<EdgeBucket as crate::window::Bucket>::is_blank(&w@[i]));
                    }
                    assert(entry@.seconds =~= new_edge(from@, to@).seconds);
                    assert(entry@ == new_edge(from@, to@));
                }
                self.edges.push(entry);
                assert(self.edges() =~= old(self).edges().push(new_edge(from@, to@)));
                at
            },
        };
        let ghost mid = *self;
        let ghost opened = self.edges@[at as int];
        assert(mid.edges()[at as int] == opened@);
        assert(edge_window_wf(opened.window));
        assert(edge_bucket_wf(opened.window@[0]));
        proof {
            opened.window.lemma_sizes();
            assert(opened@.seconds[0] == opened.window@[0]@);
            if has_edge(old(self).edges(), from@, to@) {
                assert(old(self).edges()[at as int] == opened@);
            }
        }
        self.edges[at].window.current_mut().bump(gap, bytes, key);
        proof {
            let now = self.edges@[at as int];
            assert(now@.seconds =~= edge_after(opened@, gap as nat, bytes as nat, key).seconds);
            assert(now@ == edge_after(opened@, gap as nat, bytes as nat, key));
            assert(self.edges() =~= edges_after(
                old(self).edges(),
                from@,
                to@,
                gap as nat,
                bytes as nat,
                key,
            ));
            assert forall|i: int| 0 <= i < self.edges@.len() implies edge_window_wf(
                (#[trigger] self.edges@[i]).window,
            ) by {
                if i != at {
                    assert(self.edges@[i] == mid.edges@[i]);
                    if i < old(self).edges@.len() {
                        assert(edge_window_wf(old(self).edges@[i].window));
                    }
                }
            }
            assert forall|i: int, j: int| 0 <= i < j < self.edges().len() implies !((
            #[trigger] self.edges()[i]).from == (#[trigger] self.edges()[j]).from
                && self.edges()[i].to == self.edges()[j].to) by {
                if j == old(self).edges().len() {
                    assert(!is_edge(old(self).edges(), from@, to@, i));
                }
            }
            assert(self.stages() =~= old(self).stages());
        }
    }
}

/// How many sealed seconds there are after one more.
pub open spec fn one_more_filled(filled: nat) -> nat {
    if filled < RETAIN {
        filled + 1
    } else {
        filled
    }
}

/// An edge after its open second has been sealed: the keys of the second that
/// has become too old for them are let go, and a blank second is open.
pub open spec fn edge_sealed(e: EdgeModel) -> EdgeModel {
    let shifted = sealed(e.seconds);
    let old_keys = KEY_RETAIN as int + 1;
    EdgeModel {
        seconds: shifted.update(
            old_keys,
            EdgeSecond { keys: None, ..shifted[old_keys] },
        ).update(0, blank_second()),
        filled: one_more_filled(e.filled),
        ..e
    }
}

/// A stage's second in which nothing has happened.
pub open spec fn blank_stage_second() -> StageSecond {
    StageSecond { events: 0, wasm: empty_counts(), overhead: empty_counts() }
}

/// A stage that has just been met.
pub open spec fn new_stage(name: Seq<char>) -> StageModel {
    StageModel { name, seconds: Seq::new(RING as nat, |i: int| blank_stage_second()), filled: 0 }
}

/// The second of a stage in which its counters went from one reading to
/// another. Where no event was processed it stays as it is.
pub open spec fn stage_second(
    open: StageSecond,
    cursor: TimingModel,
    shared: TimingModel,
) -> StageSecond {
    if shared.events <= cursor.events {
        open
    } else {
        StageSecond {
            events: (shared.events - cursor.events) as nat,
            wasm: difference(shared.wasm, cursor.wasm),
            overhead: difference(shared.overhead, cursor.overhead),
        }
    }
}

/// Where a reader stands after it has read.
pub open spec fn cursor_after(cursor: TimingModel, shared: TimingModel) -> TimingModel {
    if shared.events <= cursor.events {
        cursor
    } else {
        shared
    }
}

/// A stage after its counters have been read into its open second and the
/// second has been sealed.
pub open spec fn stage_sealed(s: StageModel, cursor: TimingModel, shared: TimingModel) -> StageModel {
    StageModel {
        seconds: sealed(
            s.seconds.update(0, stage_second(s.seconds[0], cursor, shared)),
        ).update(0, blank_stage_second()),
        filled: one_more_filled(s.filled),
        ..s
    }
}

/// The stages, each with how far its counters have been read.
pub struct StageTracks {
    pub stages: Seq<StageModel>,
    pub cursors: Seq<TimingModel>,
}

/// The stages after the counters of one of them have been read and its second
/// sealed. A stage that was not known starts with nothing read.
pub open spec fn tracks_after(t: StageTracks, name: Seq<char>, shared: TimingModel) -> StageTracks {
    if has_stage(t.stages, name) {
        let i = stage_place(t.stages, name);
        StageTracks {
            stages: t.stages.update(i, stage_sealed(t.stages[i], t.cursors[i], shared)),
            cursors: t.cursors.update(i, cursor_after(t.cursors[i], shared)),
        }
    } else {
        StageTracks {
            stages: t.stages.push(stage_sealed(new_stage(name), timing_start(), shared)),
            cursors: t.cursors.push(cursor_after(timing_start(), shared)),
        }
    }
}

/// The stages after the first `n` of the registered ones have been sealed.
pub open spec fn tracks_after_all(
    t: StageTracks,
    registry: Seq<(Seq<char>, StageTiming)>,
    n: nat,
) -> StageTracks
    decreases n,
{
    if n == 0 {
        t
    } else {
        tracks_after(
            tracks_after_all(t, registry, (n - 1) as nat),
            registry[n - 1].0,
            registry[n - 1].1@,
        )
    }
}

/// The edges after their open seconds have been sealed.
pub open spec fn edges_sealed(edges: Seq<EdgeModel>) -> Seq<EdgeModel> {
    edges.map_values(|e: EdgeModel| edge_sealed(e))
}

/// The edges after `n` seconds have been sealed one after the other.
pub open spec fn edges_sealed_n(edges: Seq<EdgeModel>, n: nat) -> Seq<EdgeModel>
    decreases n,
{
    if n == 0 {
        edges
    } else {
        edges_sealed(edges_sealed_n(edges, (n - 1) as nat))
    }
}

/// The stages after `n` seconds have been sealed one after the other.
pub open spec fn tracks_sealed_n(
    t: StageTracks,
    registry: Seq<(Seq<char>, StageTiming)>,
    n: nat,
) -> StageTracks
    decreases n,
{
    if n == 0 {
        t
    } else {
        tracks_after_all(
            tracks_sealed_n(t, registry, (n - 1) as nat),
            registry,
            registry.len(),
        )
    }
}

/// A second, in nanoseconds.
pub const SECOND_NS: u64 = 1_000_000_000;

/// How many seconds are over at `now`, the first of which ends at `next_seal`.
/// More than a window holds is the same as a window of idle seconds.
pub open spec fn seconds_due(next_seal: nat, now: nat) -> nat {
    if now < next_seal {
        0
    } else {
        let due = ((now - next_seal) as nat) / SECOND_NS as nat + 1;
        if due < RING {
            due
        } else {
            RING as nat
        }
    }
}

/// A second that has been sealed often enough holds nothing more of what it held.
proof fn lemma_sealed_blank(edges: Seq<EdgeModel>, i: int, n: nat)
    requires
        0 <= i < edges.len(),
        edges[i].seconds.len() == RING,
        n <= RING,
    ensures
        edges_sealed_n(edges, n).len() == edges.len(),
        edges_sealed_n(edges, n)[i].seconds.len() == RING,
        forall|k: int|
            0 <= k < n ==> #[trigger] edges_sealed_n(edges, n)[i].seconds[k] == blank_second(),
    decreases n,
{
    if n > 0 {
        lemma_sealed_blank(edges, i, (n - 1) as nat);
        let was = edges_sealed_n(edges, (n - 1) as nat)[i];
        let now = edges_sealed_n(edges, n)[i];
        assert(now == edge_sealed(was));
        assert forall|k: int| 0 <= k < n implies #[trigger] now.seconds[k] == blank_second() by {
            if k > 0 {
                assert(sealed(was.seconds)[k] == was.seconds[k - 1]);
            }
        }
    }
}

proof fn lemma_whole_window_due(next_seal: nat, now: nat)
    requires
        now >= next_seal + (RING - 1) * SECOND_NS,
    ensures
        seconds_due(next_seal, now) == RING,
{
    assert(((now - next_seal) as nat) / SECOND_NS as nat >= RING - 1) by (nonlinear_arith)
        requires
            now >= next_seal + (RING - 1) * SECOND_NS,
            SECOND_NS == 1_000_000_000,
            RING == 301,
    ;
}

/// Law: a gap as long as a window leaves an edge as one that nothing has crossed.
/// Not even the second that was open when the gap began is left.
pub proof fn law_idle_window_is_blank(
    edges: Seq<EdgeModel>,
    i: int,
    next_seal: nat,
    now: nat,
)
    requires
        0 <= i < edges.len(),
        edges[i].seconds.len() == RING,
        now >= next_seal + (RING - 1) * SECOND_NS,
    ensures
        edges_sealed_n(edges, seconds_due(next_seal, now))[i].seconds == new_edge(
            edges[i].from,
            edges[i].to,
        ).seconds,
{
    lemma_whole_window_due(next_seal, now);
    lemma_sealed_blank(edges, i, RING as nat);
    assert(edges_sealed_n(edges, RING as nat)[i].seconds =~= new_edge(
        edges[i].from,
        edges[i].to,
    ).seconds);
}

/// Every stage has one window, of full length, and a reader.
pub open spec fn are_tracks(t: StageTracks) -> bool {
    &&& distinct_stages(t.stages)
    &&& t.cursors.len() == t.stages.len()
    &&& forall|i: int| 0 <= i < t.stages.len() ==> (#[trigger] t.stages[i]).seconds.len() == RING
}

/// The stage at `p` has been read to `events`, and its last `n` seconds are blank.
spec fn idle_at(t: StageTracks, p: int, name: Seq<char>, events: nat, n: nat) -> bool {
    &&& is_stage(t.stages, name, p)
    &&& t.cursors[p].events >= events
    &&& forall|k: int| 0 <= k < n ==> #[trigger] t.stages[p].seconds[k] == blank_stage_second()
}

proof fn lemma_other_sealed(
    t: StageTracks,
    p: int,
    name: Seq<char>,
    events: nat,
    n: nat,
    other: Seq<char>,
    shared: TimingModel,
)
    requires
        are_tracks(t),
    ensures
        are_tracks(tracks_after(t, other, shared)),
        other != name && idle_at(t, p, name, events, n) ==> idle_at(
            tracks_after(t, other, shared),
            p,
            name,
            events,
            n,
        ),
{
    let now = tracks_after(t, other, shared);
    if has_stage(t.stages, other) {
        let i = stage_place(t.stages, other);
        assert(is_stage(t.stages, other, i));
        assert forall|a: int, b: int| 0 <= a < b < now.stages.len() implies (
        #[trigger] now.stages[a]).name != (#[trigger] now.stages[b]).name by {
            assert(now.stages[a].name == t.stages[a].name);
            assert(now.stages[b].name == t.stages[b].name);
        }
        assert forall|a: int| 0 <= a < now.stages.len() implies (
        #[trigger] now.stages[a]).seconds.len() == RING by {
            assert(t.stages[a].seconds.len() == RING);
        }
    } else {
        assert forall|a: int, b: int| 0 <= a < b < now.stages.len() implies (
        #[trigger] now.stages[a]).name != (#[trigger] now.stages[b]).name by {
            assert(now.stages[a] == t.stages[a]);
            if b < t.stages.len() {
                assert(now.stages[b] == t.stages[b]);
            } else {
                assert(!is_stage(t.stages, other, a));
            }
        }
        assert forall|a: int| 0 <= a < now.stages.len() implies (
        #[trigger] now.stages[a]).seconds.len() == RING by {
            if a < t.stages.len() {
                assert(t.stages[a].seconds.len() == RING);
            }
        }
    }
}

proof fn lemma_own_sealed(t: StageTracks, p: int, name: Seq<char>, n: nat, shared: TimingModel) -> (q:
    int)
    requires
        are_tracks(t),
        n < RING,
        n > 0 ==> idle_at(t, p, name, shared.events, n),
    ensures
        idle_at(tracks_after(t, name, shared), q, name, shared.events, n + 1),
{
    let now = tracks_after(t, name, shared);
    if n > 0 {
        assert(is_stage(t.stages, name, p));
    }
    if has_stage(t.stages, name) {
        let i = stage_place(t.stages, name);
        assert(is_stage(t.stages, name, i));
        if n > 0 && i != p {
            if i < p {
                assert(t.stages[i].name != t.stages[p].name);
            } else {
                assert(t.stages[p].name != t.stages[i].name);
            }
        }
        let was = t.stages[i];
        let filled = was.seconds.update(0, stage_second(was.seconds[0], t.cursors[i], shared));
        assert(was.seconds.len() == RING);
        assert forall|k: int| 0 <= k < n + 1 implies #[trigger] now.stages[i].seconds[k]
            == blank_stage_second() by {
            if k > 0 {
                assert(sealed(filled)[k] == filled[k - 1]);
                assert(was.seconds[k - 1] == blank_stage_second());
            }
        }
        i
    } else {
        let q = t.stages.len() as int;
        assert(n == 0);
        assert(is_stage(now.stages, name, q));
        q
    }
}

/// One more second is sealed: the stage at `r` in the registry has one more blank
/// second.
proof fn lemma_round_sealed(
    t: StageTracks,
    registry: Seq<(Seq<char>, StageTiming)>,
    r: int,
    p: int,
    n: nat,
    m: nat,
) -> (q: int)
    requires
        are_tracks(t),
        n < RING,
        m <= registry.len(),
        0 <= r < registry.len(),
        forall|i: int, j: int|
            0 <= i < j < registry.len() ==> (#[trigger] registry[i]).0 != (#[trigger] registry[j]).0,
        n > 0 ==> idle_at(t, p, registry[r].0, registry[r].1@.events, n),
    ensures
        are_tracks(tracks_after_all(t, registry, m)),
        m <= r && n > 0 ==> idle_at(
            tracks_after_all(t, registry, m),
            q,
            registry[r].0,
            registry[r].1@.events,
            n,
        ),
        m > r ==> idle_at(
            tracks_after_all(t, registry, m),
            q,
            registry[r].0,
            registry[r].1@.events,
            n + 1,
        ),
    decreases m,
{
    let name = registry[r].0;
    let events = registry[r].1@.events;
    if m == 0 {
        p
    } else {
        let q = lemma_round_sealed(t, registry, r, p, n, (m - 1) as nat);
        let was = tracks_after_all(t, registry, (m - 1) as nat);
        let (other, shared) = (registry[m - 1].0, registry[m - 1].1@);
        lemma_other_sealed(was, q, name, events, n, other, shared);
        lemma_other_sealed(was, q, name, events, n + 1, other, shared);
        if m - 1 == r {
            lemma_own_sealed(was, q, name, n, shared)
        } else {
            if m - 1 < r {
                assert(registry[m - 1].0 != registry[r].0);
            } else {
                assert(registry[r].0 != registry[m - 1].0);
            }
            q
        }
    }
}

proof fn lemma_seconds_sealed(
    t: StageTracks,
    registry: Seq<(Seq<char>, StageTiming)>,
    r: int,
    n: nat,
) -> (q: int)
    requires
        are_tracks(t),
        n <= RING,
        0 <= r < registry.len(),
        forall|i: int, j: int|
            0 <= i < j < registry.len() ==> (#[trigger] registry[i]).0 != (#[trigger] registry[j]).0,
    ensures
        are_tracks(tracks_sealed_n(t, registry, n)),
        n > 0 ==> idle_at(
            tracks_sealed_n(t, registry, n),
            q,
            registry[r].0,
            registry[r].1@.events,
            n,
        ),
    decreases n,
{
    if n == 0 {
        0
    } else {
        let p = lemma_seconds_sealed(t, registry, r, (n - 1) as nat);
        let was = tracks_sealed_n(t, registry, (n - 1) as nat);
        lemma_round_sealed(was, registry, r, p, (n - 1) as nat, registry.len())
    }
}

/// Law: a gap as long as a window leaves a registered stage as one that has
/// processed nothing, though its counters were not read before the gap.
pub proof fn law_idle_stage_is_blank(
    t: StageTracks,
    registry: Seq<(Seq<char>, StageTiming)>,
    r: int,
    next_seal: nat,
    now: nat,
)
    requires
        are_tracks(t),
        0 <= r < registry.len(),
        forall|i: int, j: int|
            0 <= i < j < registry.len() ==> (#[trigger] registry[i]).0 != (#[trigger] registry[j]).0,
        now >= next_seal + (RING - 1) * SECOND_NS,
    ensures
        ({
            let after = tracks_sealed_n(t, registry, seconds_due(next_seal, now)).stages;
            let name = registry[r].0;
            &&& has_stage(after, name)
            &&& after[stage_place(after, name)].seconds == new_stage(name).seconds
        }),
{
    lemma_whole_window_due(next_seal, now);
    let q = lemma_seconds_sealed(t, registry, r, RING as nat);
    let done = tracks_sealed_n(t, registry, RING as nat);
    let name = registry[r].0;
    assert(is_stage(done.stages, name, q));
    let p = stage_place(done.stages, name);
    assert(is_stage(done.stages, name, p));
    if p < q {
        assert(done.stages[p].name != done.stages[q].name);
    } else if q < p {
        assert(done.stages[q].name != done.stages[p].name);
    }
    assert(done.stages[p].seconds.len() == RING);
    assert(done.stages[p].seconds =~= new_stage(name).seconds);
}

/// When the second that is open at `now` ends.
pub open spec fn seal_after(now: nat) -> nat {
    (now / SECOND_NS as nat) * SECOND_NS as nat + SECOND_NS as nat
}

/// Owns the live statistics, folds events in and seals the seconds.
#[derive(Debug)]
pub struct LiveCollector {
    stats: LiveStats,
    /// How far the counters of each stage have been read, in the order of the
    /// stages of the statistics.
    cursors: Vec<TimingCursor>,
    next_seal_ns: u64,
}

impl LiveCollector {
    pub closed spec fn edges(&self) -> Seq<EdgeModel> {
        self.stats.edges()
    }

    pub closed spec fn tracks(&self) -> StageTracks {
        StageTracks {
            stages: self.stats.stages(),
            cursors: self.cursors@.map_values(|c: TimingCursor| c@),
        }
    }

    /// When the open second ends.
    pub closed spec fn next_seal(&self) -> nat {
        self.next_seal_ns as nat
    }

    /// When a second was sealed last.
    pub closed spec fn published_at(&self) -> nat {
        self.stats.t_ns as nat
    }

    pub closed spec fn wf(&self) -> bool {
        &&& self.stats.wf()
        &&& self.cursors@.len() == self.stats.stages@.len()
    }

    pub fn new() -> (c: LiveCollector)
        ensures
            c.wf(),
            c.edges().len() == 0,
            c.tracks().stages.len() == 0,
            c.tracks().cursors.len() == 0,
            c.next_seal() == SECOND_NS,
            c.published_at() == 0,
    {
        LiveCollector { stats: LiveStats::default(), cursors: Vec::new(), next_seal_ns: SECOND_NS }
    }

    /// The statistics as they stand.
    pub fn stats(&self) -> (s: &LiveStats)
        requires
            self.wf(),
        ensures
            s.wf(),
            s.edges() == self.edges(),
            s.stages() == self.tracks().stages,
            s.t_ns == self.published_at(),
    {
        &self.stats
    }

    fn seal_edges(&mut self)
        requires
            old(self).wf(),
        ensures
            final(self).wf(),
            final(self).edges() == edges_sealed(old(self).edges()),
            final(self).tracks() == old(self).tracks(),
            final(self).next_seal() == old(self).next_seal(),
            final(self).published_at() == old(self).published_at(),
    {
        let n: usize = self.stats.edges.len();
        let mut i: usize = 0;
        while i < n
            invariant
                i <= n == self.stats.edges@.len() == old(self).stats.edges@.len(),
                self.cursors == old(self).cursors,
                self.next_seal_ns == old(self).next_seal_ns,
                self.stats.stages == old(self).stats.stages,
                self.stats.t_ns == old(self).stats.t_ns,
                forall|k: int|
                    0 <= k < n ==> edge_window_wf((#[trigger] self.stats.edges@[k]).window),
                forall|k: int|
                    0 <= k < i ==> (#[trigger] self.stats.edges@[k])@ == edge_sealed(
                        old(self).stats.edges@[k]@,
                    ),
                forall|k: int|
                    i <= k < n ==> (#[trigger] self.stats.edges@[k]) == old(self).stats.edges@[k],
            decreases n - i,
        {
            let ghost was = self.stats.edges@[i as int];
            proof {
                was.window.lemma_sizes();
                assert(edge_window_wf(was.window));
            }
            self.stats.edges[i].window.advance();
            let ghost shifted = self.stats.edges@[i as int].window@;
            assert forall|k: int| 0 <= k < RING implies edge_bucket_wf(#[trigger] shifted[k]) by {
                if k > 0 {
                    assert(shifted[k] == was.window@[k - 1]);
                } else {
                    assert(shifted[0] == was.window@[RING - 1]);
                }
            }
            self.stats.edges[i].window.slot_mut(KEY_RETAIN + 1).keys = None;
            let b = self.stats.edges[i].window.current_mut();
            <EdgeBucket as crate::window::Bucket>::reset(b);
            proof {
                let now = self.stats.edges@[i as int];
                assert(now@.seconds =~= edge_sealed(was@).seconds);
                assert(now@ == edge_sealed(was@));
            }
            i = i + 1;
        }
        proof {
            assert(self.edges() =~= edges_sealed(old(self).edges()));
            assert forall|i: int, j: int| 0 <= i < j < self.edges().len() implies !((
            #[trigger] self.edges()[i]).from == (#[trigger] self.edges()[j]).from
                && self.edges()[i].to == self.edges()[j].to) by {
                let a = old(self).edges()[i];
                let b = old(self).edges()[j];
                assert(self.edges()[i] == edge_sealed(a));
                assert(self.edges()[j] == edge_sealed(b));
            }
        }
    }

    /// Reads the counters of one stage and seals its second.
    fn seal_stage(&mut self, name: &String, timing: &StageTiming)
        requires
            old(self).wf(),
        ensures
            final(self).wf(),
            final(self).edges() == old(self).edges(),
            final(self).tracks() == tracks_after(old(self).tracks(), name@, timing@),
            final(self).next_seal() == old(self).next_seal(),
            final(self).published_at() == old(self).published_at(),
    {
        let at: usize = match self.stats.find_stage(name) {
            Some(i) => i,
            None => {
                let w: Window<StageBucket> = Window::default();
                let at: usize = self.stats.stages.len();
                let entry = StageEntry { name: name.clone(), window: w };
                proof {
                    w.lemma_sizes();
                    assert forall|i: int| 0 <= i < RING implies entry@.seconds[i]
                        == blank_stage_second() by {
                        assert(<StageBucket as crate::window::Bucket>::is_blank(&w@[i]));
                    }
                    assert(entry@.seconds =~= new_stage(name@).seconds);
                    assert(entry@ == new_stage(name@));
                }
                self.stats.stages.push(entry);
                self.cursors.push(TimingCursor::default());
                at
            },
        };
        let ghost mid = *self;
        let ghost was = self.stats.stages@[at as int];
        let ghost cursor = self.cursors@[at as int];
        proof {
            was.window.lemma_sizes();
            assert(mid.tracks().stages[at as int] == was@);
            assert(mid.tracks().cursors[at as int] == cursor@);
            if has_stage(old(self).tracks().stages, name@) {
                assert(old(self).tracks().cursors[at as int] == cursor@);
            } else {
                assert(mid.tracks().stages =~= old(self).tracks().stages.push(new_stage(name@)));
                assert(mid.tracks().cursors =~= old(self).tracks().cursors.push(timing_start()));
            }
        }
        let delta = self.cursors[at].advance(timing);
        match delta {
            None => {},
            Some(d) => {
                let b = self.stats.stages[at].window.current_mut();
                b.events = d.events;
                b.wasm = d.wasm;
                b.overhead = d.overhead;
            },
        }
        let ghost filled_in = self.stats.stages@[at as int];
        proof {
            assert(filled_in@.seconds =~= was@.seconds.update(
                0,
                stage_second(was@.seconds[0], cursor@, timing@),
            ));
        }
        self.stats.stages[at].window.advance();
        let b = self.stats.stages[at].window.current_mut();
        <StageBucket as crate::window::Bucket>::reset(b);
        proof {
            let now = self.stats.stages@[at as int];
            assert(now@.seconds =~= stage_sealed(was@, cursor@, timing@).seconds);
            assert(now@ == stage_sealed(was@, cursor@, timing@));
            let want = tracks_after(old(self).tracks(), name@, timing@);
            assert(self.tracks().stages =~= want.stages);
            assert(self.tracks().cursors =~= want.cursors);
            let st = self.stats.stages();
            assert forall|i: int, j: int| 0 <= i < j < st.len() implies (#[trigger] st[i]).name != (
            #[trigger] st[j]).name by {
                let o = old(self).stats.stages();
                if j == o.len() {
                    assert(!is_stage(o, name@, i));
                    assert(st[i].name == o[i].name);
                } else {
                    assert(st[i].name == o[i].name);
                    assert(st[j].name == o[j].name);
                }
            }
        }
    }

    /// Seals one second of every edge and of every registered stage.
    fn seal_one(&mut self, timings: &TimingRegistry)
        requires
            old(self).wf(),
        ensures
            final(self).wf(),
            final(self).edges() == edges_sealed(old(self).edges()),
            final(self).tracks() == tracks_after_all(
                old(self).tracks(),
                timings@,
                timings@.len(),
            ),
            final(self).next_seal() == old(self).next_seal(),
            final(self).published_at() == old(self).published_at(),
    {
        self.seal_edges();
        let n: usize = timings.len();
        let mut i: usize = 0;
        while i < n
            invariant
                i <= n == timings@.len(),
                self.wf(),
                self.edges() == edges_sealed(old(self).edges()),
                self.tracks() == tracks_after_all(old(self).tracks(), timings@, i as nat),
                self.next_seal() == old(self).next_seal(),
                self.published_at() == old(self).published_at(),
            decreases n - i,
        {
            self.seal_stage(timings.name(i), timings.timing(i));
            i = i + 1;
        }
    }

    /// Seals the seconds that are over at `now_ns`, one bucket to a second so
    /// that the windows stay true time series, and says whether there is
    /// anything new to publish. Stages are read through their counters: one
    /// that is registered later starts to show by itself.
    pub fn seal_if_due(&mut self, now_ns: u64, timings: &TimingRegistry) -> (publish: bool)
        requires
            old(self).wf(),
            now_ns <= u64::MAX - SECOND_NS,
        ensures
            final(self).wf(),
            publish == (now_ns >= old(self).next_seal()),
            final(self).edges() == edges_sealed_n(
                old(self).edges(),
                seconds_due(old(self).next_seal(), now_ns as nat),
            ),
            final(self).tracks() == tracks_sealed_n(
                old(self).tracks(),
                timings@,
                seconds_due(old(self).next_seal(), now_ns as nat),
            ),
            final(self).next_seal() == if publish {
                seal_after(now_ns as nat)
            } else {
                old(self).next_seal()
            },
            final(self).published_at() == if publish {
                now_ns as nat
            } else {
                old(self).published_at()
            },
    {
        if now_ns < self.next_seal_ns {
            return false;
        }
        let behind: u64 = (now_ns - self.next_seal_ns) / SECOND_NS;
        let due: u64 = if behind + 1 < RING as u64 {
            behind + 1
        } else {
            RING as u64
        };
        let mut i: u64 = 0;
        while i < due
            invariant
                i <= due,
                self.wf(),
                self.edges() == edges_sealed_n(old(self).edges(), i as nat),
                self.tracks() == tracks_sealed_n(old(self).tracks(), timings@, i as nat),
                self.next_seal() == old(self).next_seal(),
                self.published_at() == old(self).published_at(),
            decreases due - i,
        {
            self.seal_one(timings);
            i = i + 1;
        }
        proof {
            assert((now_ns / SECOND_NS) * SECOND_NS <= now_ns) by (nonlinear_arith)
                requires
                    SECOND_NS == 1_000_000_000,
            ;
        }
        self.next_seal_ns = (now_ns / SECOND_NS) * SECOND_NS + SECOND_NS;
        self.stats.t_ns = now_ns;
        true
    }

    /// Folds one finished event in: first the seconds that are over by now are
    /// sealed, then every edge between two visits gets the gap between them.
    /// Edges are between stages, not between replicas of them.
    pub fn observe(
        &mut self,
        recv_ns: u64,
        hops: &Vec<HopTime>,
        bytes: u64,
        key: Option<u64>,
        timings: &TimingRegistry,
    ) -> (publish: bool)
        requires
            old(self).wf(),
            recv_ns <= u64::MAX - SECOND_NS,
            has_room(
                edges_sealed_n(
                    old(self).edges(),
                    seconds_due(old(self).next_seal(), recv_ns as nat),
                ),
                crossings(hops@.len()),
                bytes as nat,
            ),
        ensures
            final(self).wf(),
            publish == (recv_ns >= old(self).next_seal()),
            final(self).edges() == edges_after_hops(
                edges_sealed_n(
                    old(self).edges(),
                    seconds_due(old(self).next_seal(), recv_ns as nat),
                ),
                hops@,
                crossings(hops@.len()),
                bytes as nat,
                key,
            ),
            final(self).tracks() == tracks_sealed_n(
                old(self).tracks(),
                timings@,
                seconds_due(old(self).next_seal(), recv_ns as nat),
            ),
            final(self).next_seal() == if publish {
                seal_after(recv_ns as nat)
            } else {
                old(self).next_seal()
            },
            final(self).published_at() == if publish {
                recv_ns as nat
            } else {
                old(self).published_at()
            },
    {
        let publish = self.seal_if_due(recv_ns, timings);
        let ghost start = *self;
        let n: usize = if hops.len() == 0 {
            0
        } else {
            hops.len() - 1
        };
        let mut i: usize = 0;
        while i < n
            invariant
                i <= n,
                n == crossings(hops@.len()),
                start.wf(),
                self.wf(),
                self.cursors == start.cursors,
                self.next_seal_ns == start.next_seal_ns,
                self.stats.t_ns == start.stats.t_ns,
                self.stats.stages() == start.stats.stages(),
                self.edges() == edges_after_hops(
                    start.edges(),
                    hops@,
                    i as nat,
                    bytes as nat,
                    key,
                ),
                has_room(self.edges(), (n - i) as nat, bytes as nat),
            decreases n - i,
        {
            let from = text_before(hops[i].label.as_str(), '#');
            let to = text_before(hops[i + 1].label.as_str(), '#');
            let exit: u64 = hops[i].exit_ns;
            let enter: u64 = hops[i + 1].enter_ns;
            let gap: u64 = if enter < exit {
                0
            } else {
                (enter - exit) / 1_000
            };
            let ghost before_fold = self.edges();
            proof {
                lemma_room_shrinks(before_fold, (n - i) as nat, bytes as nat);
                self.lemma_open_seconds();
            }
            self.stats.fold_crossing(&from, &to, gap, bytes, key);
            proof {
                lemma_room_left(
                    before_fold,
                    from@,
                    to@,
                    gap as nat,
                    (n - i) as nat,
                    bytes as nat,
                    key,
                );
                assert(self.stats.stages@.len() == self.stats.stages().len());
                assert(start.stats.stages@.len() == start.stats.stages().len());
            }
            i = i + 1;
        }
        publish
    }

    /// Every edge has an open second.
    proof fn lemma_open_seconds(&self)
        requires
            self.wf(),
        ensures
            forall|i: int|
                0 <= i < self.edges().len() ==> has_open_second(#[trigger] self.edges()[i]),
    {
        assert forall|i: int| 0 <= i < self.edges().len() implies has_open_second(
            #[trigger] self.edges()[i],
        ) by {
            let w = self.stats.edges@[i].window;
            assert(edge_window_wf(w));
            w.lemma_sizes();
            assert(self.edges()[i].seconds[0] == w@[0]@);
            assert(w@[0].gap@.len() == HIST_BUCKETS);
        }
    }
}

/// The window of an edge is complete.
spec fn has_open_second(e: EdgeModel) -> bool {
    e.seconds.len() == RING && e.seconds[0].gap.len() == HIST_BUCKETS
}

proof fn lemma_room_shrinks(edges: Seq<EdgeModel>, n: nat, bytes: nat)
    requires
        has_room(edges, n, bytes),
        n >= 1,
    ensures
        has_room(edges, 1, bytes),
{
    assert(bytes <= n * bytes) by (nonlinear_arith)
        requires
            n >= 1,
    ;
    assert forall|i: int| 0 <= i < edges.len() implies second_has_room(
        (#[trigger] edges[i]).seconds[0],
        1,
        bytes,
    ) by {
        let s = edges[i].seconds[0];
        assert(second_has_room(s, n, bytes));
        assert forall|b: int| 0 <= b < HIST_BUCKETS implies #[trigger] s.gap[b] + 1
            <= u32::MAX by {
            assert(s.gap[b] + n <= u32::MAX);
        }
    }
}

proof fn lemma_room_left(
    edges: Seq<EdgeModel>,
    from: Seq<char>,
    to: Seq<char>,
    gap: nat,
    n: nat,
    bytes: nat,
    key: Option<u64>,
)
    requires
        has_room(edges, n, bytes),
        n >= 1,
        forall|i: int| 0 <= i < edges.len() ==> has_open_second(#[trigger] edges[i]),
    ensures
        has_room(edges_after(edges, from, to, gap, bytes, key), (n - 1) as nat, bytes),
{
    let m = (n - 1) as nat;
    assert(n * bytes == m * bytes + bytes) by (nonlinear_arith)
        requires
            n == m + 1,
    ;
    let now = edges_after(edges, from, to, gap, bytes, key);
    if has_edge(edges, from, to) {
        let p = edge_place(edges, from, to);
        assert(is_edge(edges, from, to, p));
    }
    crate::hist::law_bucket_is_bounded(gap);
    assert forall|i: int| 0 <= i < now.len() implies second_has_room(
        (#[trigger] now[i]).seconds[0],
        m,
        bytes,
    ) by {
        let after = now[i].seconds[0];
        let was = if i < edges.len() {
            edges[i].seconds[0]
        } else {
            blank_second()
        };
        if i < edges.len() {
            assert(second_has_room(edges[i].seconds[0], n, bytes));
            assert(has_open_second(edges[i]));
        }
        assert(after == was || after == second_after(was, gap, bytes, key));
        assert forall|b: int| 0 <= b < HIST_BUCKETS implies #[trigger] after.gap[b] + m
            <= u32::MAX by {
            assert(was.gap[b] + n <= u32::MAX);
        }
    }
}

} // verus!
