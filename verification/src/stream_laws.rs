//! What the edges between stages promise, and what the collector keeps of what goes over them.

use vstd::prelude::*;
use bytes::Bytes;
use crate::fold::{
    cursor_after, edge_after, edge_sealed, edges_after, gap_us, seal_after, seconds_due,
    stage_sealed,
};
use crate::hist::{bucket_index, HIST_BUCKETS};
use crate::inproc::{PopStep, PushStep};
use crate::live::{distinct_edges, edge_place, has_edge, is_edge, EdgeModel, StageModel};
use crate::spsc::{mesh_pop_step, mesh_push_step, MeshState};
use crate::timing::TimingModel;
use crate::window::RING;

verus! {

// ---------------------------------------------------------------------------
// The mesh
// ---------------------------------------------------------------------------

/// Law: an event that is delivered is behind all that its producer has sent to that consumer,
/// and nothing else moves.
pub proof fn law_delivered_events_queue_up(
    was: MeshState,
    now: MeshState,
    i: int,
    item: Bytes,
    drain: bool,
    r: PushStep,
) -> (j: int)
    requires
        was.wf(),
        0 <= i < was.n_prod(),
        mesh_push_step(was, now, i, item, drain, r),
        r is Delivered,
    ensures
        0 <= j < was.n_cons(),
        !was.closed[j],
        was.rows[i][j].len() < was.ring_cap,
        now.rows[i][j] == was.rows[i][j].push(item),
        forall|a: int, b: int|
            0 <= a < was.n_prod() && 0 <= b < was.n_cons() && !(a == i && b == j)
                ==> #[trigger] now.rows[a][b] == was.rows[a][b],
        now.closed == was.closed,
        !now.blocked[i],
{
    let j = choose|j: int|
        #![trigger was.first_accepting(i, j)]
        was.first_accepting(i, j) && now == (MeshState {
            blocked: was.blocked.update(i, false),
            ..was.after_push(i, j, item)
        });
    assert(0 <= j < was.n_cons());
    assert(was.rows[i].len() == was.n_cons());
    assert forall|a: int, b: int|
        0 <= a < was.n_prod() && 0 <= b < was.n_cons() && !(a == i && b == j)
            implies #[trigger] now.rows[a][b] == was.rows[a][b] by {
        assert(was.rows[a].len() == was.n_cons());
    }
    j
}

/// Law: an event that is not delivered has no place: every consumer's ring is full or closed;
/// the producer is then known to wait, or has given up because all ends.
pub proof fn law_events_wait_only_where_there_is_no_room(
    was: MeshState,
    now: MeshState,
    i: int,
    item: Bytes,
    drain: bool,
    r: PushStep,
    j: int,
)
    requires
        was.wf(),
        0 <= i < was.n_prod(),
        0 <= j < was.n_cons(),
        mesh_push_step(was, now, i, item, drain, r),
        r !is Delivered,
    ensures
        was.closed[j] || was.rows[i][j].len() >= was.ring_cap,
        now.rows == was.rows,
        drain <==> r is Dropped,
        now.blocked[i] <==> r is Blocked,
{
    assert(!was.accepts(i, j));
}

/// Law: what a consumer takes is the oldest event that one of the producers has for it, and
/// all others stay as they are.
pub proof fn law_taken_events_are_the_oldest(
    was: MeshState,
    now: MeshState,
    j: int,
    drain: bool,
    item: Bytes,
) -> (i: int)
    requires
        was.wf(),
        0 <= j < was.n_cons(),
        mesh_pop_step(was, now, j, drain, PopStep::Item(item)),
    ensures
        0 <= i < was.n_prod(),
        was.rows[i][j] == seq![item] + now.rows[i][j],
        forall|a: int, b: int|
            0 <= a < was.n_prod() && 0 <= b < was.n_cons() && !(a == i && b == j)
                ==> #[trigger] now.rows[a][b] == was.rows[a][b],
{
    let r = PopStep::Item(item);
    let closed = if drain {
        was.closed.update(j, true)
    } else {
        was.closed
    };
    let i = choose|i: int|
        #![trigger was.first_holding(i, j)]
        was.first_holding(i, j) && item == was.rows[i][j][0] && now == (MeshState {
            closed,
            ..was.after_pop(i, j)
        });
    assert(0 <= i < was.n_prod());
    assert(was.rows[i].len() == was.n_cons());
    assert(was.rows[i][j] =~= seq![item] + now.rows[i][j]);
    assert forall|a: int, b: int|
        0 <= a < was.n_prod() && 0 <= b < was.n_cons() && !(a == i && b == j)
            implies #[trigger] now.rows[a][b] == was.rows[a][b] by {
        assert(was.rows[a].len() == was.n_cons());
    }
    i
}

/// Law: a consumer leaves with nothing only where no producer has anything for it; it is done
/// just when all ends, and then takes no more.
pub proof fn law_consumers_leave_nothing(
    was: MeshState,
    now: MeshState,
    j: int,
    drain: bool,
    r: PopStep,
    i: int,
)
    requires
        was.wf(),
        0 <= j < was.n_cons(),
        0 <= i < was.n_prod(),
        mesh_pop_step(was, now, j, drain, r),
        r !is Item,
    ensures
        was.rows[i][j].len() == 0,
        now.rows == was.rows,
        drain <==> r is Done,
        drain ==> now.closed[j],
        !drain ==> now.closed == was.closed,
{
    assert(was.rows[i][j].len() == 0);
}

/// Law: a producer comes back to the consumer that it has just served only where no other
/// takes anything.
pub proof fn law_consumers_are_served_in_turn(m: MeshState, i: int, j: int, item: Bytes, other: int)
    requires
        m.wf(),
        0 <= i < m.n_prod(),
        0 <= j < m.n_cons(),
        0 <= other < m.n_cons(),
        other != j,
        m.after_push(i, j, item).first_accepting(i, j),
    ensures
        m.closed[other] || m.rows[i][other].len() >= m.ring_cap,
{
    let now = m.after_push(i, j, item);
    let n = m.n_cons() as int;
    assert(m.rows[i].len() == n);
    let k = choose|k: int|
        0 <= k < now.n_cons() && #[trigger] now.column_tried(i, k) == j && now.accepts(i, j)
            && forall|h: int| 0 <= h < k ==> !now.accepts(i, #[trigger] now.column_tried(i, h));
    assert(k == n - 1);
    let h = if other > j {
        other - j - 1
    } else {
        other - j - 1 + n
    };
    assert(now.column_tried(i, h) == other);
    assert(!now.accepts(i, now.column_tried(i, h)));
    assert(now.rows[i][other] == m.rows[i][other]);
}

/// Law: a consumer comes back to the producer from which it has just taken only where no other
/// has anything for it.
pub proof fn law_producers_are_heard_in_turn(m: MeshState, i: int, j: int, other: int)
    requires
        m.wf(),
        0 <= i < m.n_prod(),
        0 <= j < m.n_cons(),
        0 <= other < m.n_prod(),
        other != i,
        m.after_pop(i, j).first_holding(i, j),
    ensures
        m.rows[other][j].len() == 0,
{
    let now = m.after_pop(i, j);
    let n = m.n_prod() as int;
    let k = choose|k: int|
        0 <= k < now.n_prod() && #[trigger] now.row_polled(j, k) == i && now.rows[i][j].len() > 0
            && forall|h: int|
            0 <= h < k ==> now.rows[#[trigger] now.row_polled(j, h)][j].len() == 0;
    assert(k == n - 1);
    let h = if other > i {
        other - i - 1
    } else {
        other - i - 1 + n
    };
    assert(now.row_polled(j, h) == other);
    assert(now.rows[now.row_polled(j, h)][j].len() == 0);
    assert(now.rows[other] == m.rows[other]);
}

// ---------------------------------------------------------------------------
// The collector
// ---------------------------------------------------------------------------

/// Law: the gap between two hops is the whole microseconds between the end of the one and the
/// begin of the other, and none where the clocks disagree.
pub proof fn law_gaps_are_whole_microseconds(exit_ns: nat, enter_ns: nat)
    ensures
        enter_ns < exit_ns ==> gap_us(exit_ns, enter_ns) == 0,
        exit_ns <= enter_ns ==> exit_ns + 1000 * gap_us(exit_ns, enter_ns) <= enter_ns && enter_ns
            < exit_ns + 1000 * gap_us(exit_ns, enter_ns) + 1000,
{
}

/// Law: one more event over an edge is one more in its open second, with its bytes, and one
/// more in the bucket of its gap; the seconds that are over do not change.
pub proof fn law_crossings_are_counted(
    e: EdgeModel,
    gap: nat,
    bytes: nat,
    key: Option<u64>,
    k: int,
    b: int,
)
    requires
        e.seconds.len() == RING,
        e.seconds[0].gap.len() == HIST_BUCKETS,
        0 < k < RING,
        0 <= b < HIST_BUCKETS,
        bucket_index(gap) < HIST_BUCKETS,
        e.seconds[0].gap[bucket_index(gap) as int] < u32::MAX,
    ensures
        ({
            let out = edge_after(e, gap, bytes, key);
            &&& out.from == e.from && out.to == e.to && out.filled == e.filled
            &&& out.seconds[0].count == e.seconds[0].count + 1
            &&& out.seconds[0].bytes == e.seconds[0].bytes + bytes
            &&& out.seconds[0].gap[b] == e.seconds[0].gap[b] + if b == bucket_index(gap) {
                1int
            } else {
                0
            }
            &&& out.seconds[k] == e.seconds[k]
            &&& key is None ==> out.seconds[0].keys == e.seconds[0].keys
            &&& key is Some ==> (out.seconds[0].keys matches Some(m) && m.observed == (match e.seconds[0].keys {
                Some(p) => p.observed,
                None => 0,
            }) + 1)
        }),
{
}

/// Law: an event is counted for the edge that it went over, which is there afterwards, and for
/// no other.
pub proof fn law_crossings_go_to_their_edge(
    edges: Seq<EdgeModel>,
    from: Seq<char>,
    to: Seq<char>,
    gap: nat,
    bytes: nat,
    key: Option<u64>,
) -> (i: int)
    requires
        distinct_edges(edges),
    ensures
        ({
            let out = edges_after(edges, from, to, gap, bytes, key);
            &&& is_edge(out, from, to, i)
            &&& out.len() <= edges.len() + 1
            &&& forall|k: int|
                0 <= k < edges.len() && k != i ==> #[trigger] out[k] == edges[k]
            &&& i < edges.len() ==> out.len() == edges.len() && out[i].seconds[0].count
                == edge_after(edges[i], gap, bytes, key).seconds[0].count && out[i].filled
                == edges[i].filled
            &&& i == edges.len() ==> out[i].seconds[0].count == 1 && out[i].seconds[0].bytes
                == bytes && out[i].filled == 0
        }),
{
    if has_edge(edges, from, to) {
        let i = edge_place(edges, from, to);
        assert(is_edge(edges, from, to, i));
        i
    } else {
        edges.len() as int
    }
}

/// Law: when a second is over, it is the newest of those that are; every other one is a place
/// further back, and a blank one is open. Keys are forgotten sooner than the rest.
pub proof fn law_seconds_move_back(e: EdgeModel, k: int)
    requires
        e.seconds.len() == RING,
        0 <= k < RING - 1,
    ensures
        ({
            let out = edge_sealed(e);
            &&& out.seconds.len() == RING
            &&& out.seconds[0].count == 0 && out.seconds[0].bytes == 0
            &&& out.seconds[k + 1].count == e.seconds[k].count
            &&& out.seconds[k + 1].bytes == e.seconds[k].bytes
            &&& out.seconds[k + 1].gap == e.seconds[k].gap
            &&& k < 60 ==> out.seconds[k + 1].keys == e.seconds[k].keys
            &&& k == 60 ==> out.seconds[k + 1].keys is None
            &&& e.filled < 300 ==> out.filled == e.filled + 1
            &&& e.filled == 300 ==> out.filled == 300
            &&& out.from == e.from && out.to == e.to
        }),
{
}

/// Law: what a stage has done since it was last looked at is what its second tells: with what
/// was known before, it gives what is known now.
pub proof fn law_stage_seconds_are_the_difference(
    s: StageModel,
    cursor: TimingModel,
    shared: TimingModel,
    k: int,
    b: int,
)
    requires
        s.seconds.len() == RING,
        0 < k < RING - 1,
        0 <= b < HIST_BUCKETS,
        shared.events > cursor.events,
    ensures
        ({
            let out = stage_sealed(s, cursor, shared);
            &&& cursor.events + out.seconds[1].events == shared.events
            &&& shared.wasm[b] >= cursor.wasm[b] ==> cursor.wasm[b] + out.seconds[1].wasm[b]
                == shared.wasm[b]
            &&& shared.overhead[b] >= cursor.overhead[b] ==> cursor.overhead[b]
                + out.seconds[1].overhead[b] == shared.overhead[b]
            &&& cursor_after(cursor, shared) == shared
            &&& out.seconds[0].events == 0
            &&& out.seconds[k + 1] == s.seconds[k]
            &&& out.name == s.name
        }),
{
}

/// Law: a stage that has done nothing since is looked at in vain.
pub proof fn law_idle_stages_stay_as_they_are(
    s: StageModel,
    cursor: TimingModel,
    shared: TimingModel,
)
    requires
        s.seconds.len() == RING,
        shared.events <= cursor.events,
    ensures
        cursor_after(cursor, shared) == cursor,
        stage_sealed(s, cursor, shared).seconds[1] == s.seconds[0],
{
}

/// Law: as many seconds are due as have gone by since the first of them was, so that the next
/// is not due yet; but no more than can be kept.
pub proof fn law_due_seconds_are_over(next_seal: nat, now: nat)
    ensures
        ({
            let n = seconds_due(next_seal, now);
            &&& n <= 301
            &&& now < next_seal <==> n == 0
            &&& n > 0 ==> next_seal + (n - 1) * 1_000_000_000 <= now
            &&& n < 301 ==> now < next_seal + n * 1_000_000_000
        }),
{
}

/// Law: a second ends later than now, within a second, and where a whole one does.
pub proof fn law_seconds_end_where_whole_ones_do(now: nat)
    ensures
        now < seal_after(now) <= now + 1_000_000_000,
        seal_after(now) % 1_000_000_000 == 0,
{
}

} // verus!
