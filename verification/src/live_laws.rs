//! What the view on a running pipeline promises of the seconds that it shows.

use vstd::prelude::*;
use crate::hist::{quantile_half_us, HIST_BUCKETS};
use crate::live::{
    lemma_slope_denominator, merged_gaps, merged_overhead, merged_wasm, quantile_series,
    recent_seconds, recent_stage_seconds, slope_denominator, slope_numerator, sum_by_place,
    sum_bytes, sum_events, sum_of, sum_places, sum_squares, sum_stage_events, EdgeModel,
    EdgeSecond, StageModel, StageSecond,
};

verus! {

/// Law: the recent seconds of an edge are the newest that are over, and no more of them than
/// were asked for and are there. The second that still runs, at the front, is not one
/// of them.
pub proof fn law_recent_seconds_are_the_newest(e: EdgeModel, n: nat)
    requires
        e.filled < e.seconds.len(),
    ensures
        recent_seconds(e, n).len() <= n,
        recent_seconds(e, n).len() <= e.filled,
        recent_seconds(e, n).len() == n || recent_seconds(e, n).len() == e.filled,
        forall|i: int|
            0 <= i < recent_seconds(e, n).len() ==> #[trigger] recent_seconds(e, n)[i]
                == e.seconds[i + 1],
{
}

/// Law: and so it is with the seconds of a stage.
pub proof fn law_recent_stage_seconds_are_the_newest(s: StageModel, n: nat)
    requires
        s.filled < s.seconds.len(),
    ensures
        recent_stage_seconds(s, n).len() <= n,
        recent_stage_seconds(s, n).len() <= s.filled,
        recent_stage_seconds(s, n).len() == n || recent_stage_seconds(s, n).len() == s.filled,
        forall|i: int|
            0 <= i < recent_stage_seconds(s, n).len() ==> #[trigger] recent_stage_seconds(s, n)[i]
                == s.seconds[i + 1],
{
}

/// Law: what came over an edge in two stretches of time is what came in the one and what came
/// in the other; a single second has its own.
pub proof fn law_edge_seconds_add_up(a: Seq<EdgeSecond>, b: Seq<EdgeSecond>, s: EdgeSecond)
    ensures
        sum_events(a + b) == sum_events(a) + sum_events(b),
        sum_bytes(a + b) == sum_bytes(a) + sum_bytes(b),
        sum_events(seq![s]) == s.count,
        sum_bytes(seq![s]) == s.bytes,
    decreases b.len(),
{
    if b.len() == 0 {
        assert(a + b =~= a);
    } else {
        law_edge_seconds_add_up(a, b.drop_last(), s);
        assert((a + b).drop_last() =~= a + b.drop_last());
    }
    assert(seq![s].drop_last() =~= Seq::<EdgeSecond>::empty());
    reveal_with_fuel(sum_events, 2);
    reveal_with_fuel(sum_bytes, 2);
}

/// Law: and so it is with what went through a stage.
pub proof fn law_stage_seconds_add_up(a: Seq<StageSecond>, b: Seq<StageSecond>, s: StageSecond)
    ensures
        sum_stage_events(a + b) == sum_stage_events(a) + sum_stage_events(b),
        sum_stage_events(seq![s]) == s.events,
    decreases b.len(),
{
    if b.len() == 0 {
        assert(a + b =~= a);
    } else {
        law_stage_seconds_add_up(a, b.drop_last(), s);
        assert((a + b).drop_last() =~= a + b.drop_last());
    }
    assert(seq![s].drop_last() =~= Seq::<StageSecond>::empty());
    reveal_with_fuel(sum_stage_events, 2);
}

/// Law: what is measured in one more second is counted with the rest: the gaps of an edge
/// with its gaps.
pub proof fn law_gaps_are_merged(seconds: Seq<EdgeSecond>, s: EdgeSecond, i: int)
    requires
        0 <= i < HIST_BUCKETS,
        merged_gaps(seconds)[i] + s.gap[i] <= u32::MAX,
    ensures
        merged_gaps(seconds.push(s))[i] == merged_gaps(seconds)[i] + s.gap[i],
        merged_gaps(Seq::empty())[i] == 0,
{
    assert(seconds.push(s).drop_last() =~= seconds);
}

/// Law: the times of a stage's component with its component's, and what it takes besides with
/// what it takes besides.
pub proof fn law_stage_times_are_merged(seconds: Seq<StageSecond>, s: StageSecond, i: int)
    requires
        0 <= i < HIST_BUCKETS,
    ensures
        merged_wasm(seconds)[i] + s.wasm[i] <= u32::MAX ==> merged_wasm(seconds.push(s))[i]
            == merged_wasm(seconds)[i] + s.wasm[i],
        merged_overhead(seconds)[i] + s.overhead[i] <= u32::MAX ==> merged_overhead(
            seconds.push(s),
        )[i] == merged_overhead(seconds)[i] + s.overhead[i],
        merged_wasm(Seq::empty())[i] == 0,
        merged_overhead(Seq::empty())[i] == 0,
{
    assert(seconds.push(s).drop_last() =~= seconds);
}

/// Law: the quantiles of which a trend is told are in the order of time: the newest second,
/// which is the first of the recent ones, comes last.
pub proof fn law_trends_go_with_time(seconds: Seq<EdgeSecond>, q: nat, i: int)
    requires
        0 <= i < seconds.len(),
    ensures
        quantile_series(seconds, q).len() == seconds.len(),
        quantile_series(seconds, q)[seconds.len() - 1 - i] == quantile_half_us(seconds[i].gap, q),
{
}

proof fn lemma_line(ys: Seq<nat>, a: int, b: int)
    requires
        forall|i: int| 0 <= i < ys.len() ==> #[trigger] ys[i] == a + b * i,
    ensures
        sum_of(ys) == ys.len() * a + b * sum_places(ys.len()),
        sum_by_place(ys) == a * sum_places(ys.len()) + b * sum_squares(ys.len()),
    decreases ys.len(),
{
    if ys.len() > 0 {
        let n = ys.len();
        let rest = ys.drop_last();
        assert forall|i: int| 0 <= i < rest.len() implies #[trigger] rest[i] == a + b * i by {
            assert(ys[i] == a + b * i);
        }
        lemma_line(rest, a, b);
        let m = (n - 1) as nat;
        assert(ys[n - 1] == a + b * (n - 1));
        let y = ys.last() as int;
        let s1 = sum_places(m) as int;
        let s2 = sum_squares(m) as int;
        let k = m as int;
        assert(k * a + b * s1 + y == (k + 1) * a + b * (s1 + k)) by (nonlinear_arith)
            requires
                y == a + b * k,
        ;
        assert(a * s1 + b * s2 + k * y == a * (s1 + k) + b * (s2 + k * k)) by (nonlinear_arith)
            requires
                y == a + b * k,
        ;
    } else {
        assert(b * 0 == 0);
        assert(a * 0 == 0);
    }
}

/// Law: numbers on a line have the slope of that line, whether it rises or falls; numbers
/// that do not change have none.
pub proof fn law_lines_have_their_slope(ys: Seq<nat>, a: int, b: int)
    requires
        ys.len() >= 2,
        forall|i: int| 0 <= i < ys.len() ==> #[trigger] ys[i] == a + b * i,
    ensures
        slope_denominator(ys.len()) > 0,
        slope_numerator(ys) == b * slope_denominator(ys.len()),
{
    lemma_slope_denominator(ys.len());
    lemma_line(ys, a, b);
    let n = ys.len() as int;
    let s1 = sum_places(ys.len()) as int;
    let s2 = sum_squares(ys.len()) as int;
    assert(n * (a * s1 + b * s2) - s1 * (n * a + b * s1) == b * (n * s2 - s1 * s1))
        by (nonlinear_arith);
}

/// Law: the slope of the sum of two series is the sum of their slopes.
pub proof fn law_slopes_add_up(xs: Seq<nat>, ys: Seq<nat>, zs: Seq<nat>)
    requires
        xs.len() == ys.len() == zs.len(),
        forall|i: int| 0 <= i < zs.len() ==> #[trigger] zs[i] == xs[i] + ys[i],
    ensures
        slope_numerator(zs) == slope_numerator(xs) + slope_numerator(ys),
{
    lemma_sums_add(xs, ys, zs);
    let n = xs.len() as int;
    let s = sum_places(xs.len()) as int;
    let (xp, yp) = (sum_by_place(xs) as int, sum_by_place(ys) as int);
    let (xo, yo) = (sum_of(xs) as int, sum_of(ys) as int);
    assert(n * (xp + yp) - s * (xo + yo) == (n * xp - s * xo) + (n * yp - s * yo))
        by (nonlinear_arith);
}

proof fn lemma_sums_add(xs: Seq<nat>, ys: Seq<nat>, zs: Seq<nat>)
    requires
        xs.len() == ys.len() == zs.len(),
        forall|i: int| 0 <= i < zs.len() ==> #[trigger] zs[i] == xs[i] + ys[i],
    ensures
        sum_of(zs) == sum_of(xs) + sum_of(ys),
        sum_by_place(zs) == sum_by_place(xs) + sum_by_place(ys),
    decreases zs.len(),
{
    if zs.len() > 0 {
        assert forall|i: int| 0 <= i < zs.drop_last().len() implies #[trigger] zs.drop_last()[i]
            == xs.drop_last()[i] + ys.drop_last()[i] by {
            assert(zs[i] == xs[i] + ys[i]);
        }
        lemma_sums_add(xs.drop_last(), ys.drop_last(), zs.drop_last());
        let k = zs.len() - 1;
        assert(zs[k] == xs[k] + ys[k]);
        let (x, y) = (xs[k] as int, ys[k] as int);
        assert(k * (x + y) == k * x + k * y) by (nonlinear_arith);
    }
}

} // verus!
