//! What the report of a run promises: that each number it tells is the one its name
//! says, of the measurements it is made of.

use vstd::prelude::*;
use crate::json::JsonModel;
use crate::report::latency_fields;
use crate::stats::{
    at_quantile, greatest, in_order, law_ordered, nearest, nearest_rank, placed, sum_of,
    thinned, thinning,
};
use crate::summary::{
    e2e_latency, edge_stats, full_spread, mean_of, mean_us, ms, ms_r4, ms_r5, ratios,
    short_spread, stage_latency, us, wait_stats, GapModel,
};

verus! {

/// What stands in some entries under a name: the last of that name, as a reader takes it.
pub open spec fn entry_told(es: Seq<(Seq<char>, JsonModel)>, key: Seq<char>) -> Option<JsonModel>
    decreases es.len(),
{
    if es.len() == 0 {
        None
    } else if es.last().0 == key {
        Some(es.last().1)
    } else {
        entry_told(es.drop_last(), key)
    }
}

/// What an object tells under a name.
pub open spec fn told(m: JsonModel, key: Seq<char>) -> Option<JsonModel> {
    match m {
        JsonModel::Object(es) => entry_told(es, key),
        _ => None,
    }
}

/// An object tells that value under that name.
pub open spec fn has_entry(m: JsonModel, key: Seq<char>, v: JsonModel) -> bool {
    m matches JsonModel::Object(es) && es.contains((key, v))
}

pub(crate) proof fn lemma_told(es: Seq<(Seq<char>, JsonModel)>, key: Seq<char>, i: int)
    requires
        0 <= i < es.len(),
        es[i].0 == key,
        forall|j: int| i < j < es.len() ==> (#[trigger] es[j]).0 != key,
    ensures
        entry_told(es, key) == Some(es[i].1),
    decreases es.len(),
{
    if i < es.len() - 1 {
        let n = es.len() - 1;
        assert(es[n].0 != key);
        assert forall|j: int| i < j < es.drop_last().len() implies (
        #[trigger] es.drop_last()[j]).0 != key by {
            assert(es[j].0 != key);
        }
        lemma_told(es.drop_last(), key, i);
    }
}

/// How many values are no greater than `v`.
pub open spec fn at_most(s: Seq<u64>, v: u64) -> nat
    decreases s.len(),
{
    if s.len() == 0 {
        0
    } else {
        at_most(s.drop_last(), v) + if s.last() <= v {
            1nat
        } else {
            0
        }
    }
}

/// How many values are less than `v`.
pub open spec fn below(s: Seq<u64>, v: u64) -> nat
    decreases s.len(),
{
    if s.len() == 0 {
        0
    } else {
        below(s.drop_last(), v) + if s.last() < v {
            1nat
        } else {
            0
        }
    }
}

/// All values together.
pub open spec fn total(s: Seq<u64>) -> nat
    decreases s.len(),
{
    if s.len() == 0 {
        0
    } else {
        total(s.drop_last()) + s.last() as nat
    }
}

/// `v` is one of the values, at least so many thousandths of them are no greater, and
/// fewer than that are less.
pub open spec fn is_quantile(s: Seq<u64>, v: u64, milli: nat) -> bool {
    &&& s.contains(v)
    &&& at_most(s, v) * 1000 >= milli * s.len()
    &&& below(s, v) == 0 || below(s, v) * 1000 < milli * s.len()
}

/// `v` is the greatest of the values.
pub open spec fn is_greatest(s: Seq<u64>, v: u64) -> bool {
    s.contains(v) && forall|i: int| 0 <= i < s.len() ==> #[trigger] s[i] <= v
}

/// The number is so many nanoseconds, told in units of `unit` nanoseconds, and no more
/// than `off` nanoseconds away.
pub open spec fn tells(j: JsonModel, ns: nat, unit: nat, off: nat) -> bool {
    j matches JsonModel::Ratio(a, b) && b > 0 && a * unit <= (ns + off) * b && ns * b <= a * unit
        + off * b
}

/// The number is the mean of the values, told in units of `unit` nanoseconds, and no
/// more than `off` nanoseconds away.
pub open spec fn tells_mean(j: JsonModel, s: Seq<u64>, unit: nat, off: nat) -> bool {
    j matches JsonModel::Ratio(a, b) && b > 0 && a * unit * s.len() <= (total(s) + off * s.len())
        * b && total(s) * b <= (a * unit + off * b) * s.len()
}

/// The entry tells a quantile of the values.
pub open spec fn tells_quantile(
    m: JsonModel,
    key: Seq<char>,
    s: Seq<u64>,
    milli: nat,
    unit: nat,
    off: nat,
) -> bool {
    told(m, key) matches Some(j) && exists|v: u64|
        #[trigger] is_quantile(s, v, milli) && tells(j, v as nat, unit, off)
}

/// The entry tells the greatest of the values.
pub open spec fn tells_greatest(
    m: JsonModel,
    key: Seq<char>,
    s: Seq<u64>,
    unit: nat,
    off: nat,
) -> bool {
    told(m, key) matches Some(j) && exists|v: u64|
        #[trigger] is_greatest(s, v) && tells(j, v as nat, unit, off)
}

/// One entry tells no more than another.
pub open spec fn tells_no_more(m: JsonModel, a: Seq<char>, b: Seq<char>) -> bool {
    match (told(m, a), told(m, b)) {
        (Some(JsonModel::Ratio(x, p)), Some(JsonModel::Ratio(y, q))) => x * q <= y * p,
        _ => false,
    }
}

proof fn lemma_placed_counts(s: Seq<u64>, x: u64, v: u64)
    ensures
        at_most(placed(s, x), v) == at_most(s, v) + if x <= v {
            1nat
        } else {
            0
        },
        below(placed(s, x), v) == below(s, v) + if x < v {
            1nat
        } else {
            0
        },
        sum_of(placed(s, x)) == sum_of(s) + x,
    decreases s.len(),
{
    let p = placed(s, x);
    if s.len() == 0 {
        assert(p.drop_last() =~= s);
    } else if s.last() <= x {
        assert(p.drop_last() =~= s);
    } else {
        lemma_placed_counts(s.drop_last(), x, v);
        assert(p.drop_last() =~= placed(s.drop_last(), x));
    }
}

/// Putting values in order changes no count and no sum.
pub(crate) proof fn lemma_in_order_counts(s: Seq<u64>, v: u64)
    ensures
        at_most(in_order(s), v) == at_most(s, v),
        below(in_order(s), v) == below(s, v),
        sum_of(in_order(s)) == total(s),
    decreases s.len(),
{
    if s.len() > 0 {
        lemma_in_order_counts(s.drop_last(), v);
        lemma_placed_counts(in_order(s.drop_last()), s.last(), v);
    }
}

proof fn lemma_counts_at(o: Seq<u64>, k: int, v: u64)
    requires
        forall|i: int, j: int| 0 <= i <= j < o.len() ==> o[i] <= o[j],
        0 <= k < o.len(),
        v == o[k],
    ensures
        at_most(o, v) >= k + 1,
        below(o, v) <= k,
    decreases o.len(),
{
    let rest = o.drop_last();
    if k < o.len() - 1 {
        assert forall|i: int, j: int| 0 <= i <= j < rest.len() implies rest[i] <= rest[j] by {
            assert(o[i] <= o[j]);
        }
        lemma_counts_at(rest, k, v);
        assert(o[k] <= o[o.len() - 1]);
    } else {
        lemma_all_at_most(rest, v);
        lemma_below_bound(rest, v);
    }
}

proof fn lemma_all_at_most(s: Seq<u64>, v: u64)
    requires
        forall|i: int| 0 <= i < s.len() ==> #[trigger] s[i] <= v,
    ensures
        at_most(s, v) == s.len(),
    decreases s.len(),
{
    if s.len() > 0 {
        assert(s[s.len() - 1] <= v);
        assert forall|i: int| 0 <= i < s.drop_last().len() implies #[trigger] s.drop_last()[i]
            <= v by {
            assert(s[i] <= v);
        }
        lemma_all_at_most(s.drop_last(), v);
    }
}

proof fn lemma_below_bound(s: Seq<u64>, v: u64)
    ensures
        below(s, v) <= s.len(),
    decreases s.len(),
{
    if s.len() > 0 {
        lemma_below_bound(s.drop_last(), v);
    }
}

proof fn lemma_same_values(s: Seq<u64>, v: u64)
    ensures
        in_order(s).contains(v) <==> s.contains(v),
{
    law_ordered(s);
    broadcast use vstd::seq_lib::group_to_multiset_ensures;

    assert(in_order(s).contains(v) <==> in_order(s).to_multiset().count(v) > 0);
    assert(s.contains(v) <==> s.to_multiset().count(v) > 0);
}

/// Law: the value at a quantile is one of the values; at least that share of them does
/// not exceed it, and less than that share is below it.
pub proof fn law_quantiles_are_quantiles(s: Seq<u64>, milli: nat)
    requires
        s.len() > 0,
        milli <= 1000,
    ensures
        is_quantile(s, at_quantile(in_order(s), milli), milli),
{
    let o = in_order(s);
    law_ordered(s);
    crate::stats::law_quantile_has_its_share(o, milli);
    let r = nearest_rank(o.len(), milli);
    let v = o[r - 1];
    lemma_counts_at(o, r - 1, v);
    lemma_in_order_counts(s, v);
    lemma_same_values(s, v);
    assert(o.contains(v));
    if r > 1 {
        let k = (r - 1) as nat;
        assert(!(k * 1000 >= o.len() * milli));
    }
    assert(milli * s.len() == s.len() * milli) by (nonlinear_arith);
}

proof fn lemma_quantiles_grow(s: Seq<u64>, a: nat, b: nat)
    requires
        s.len() > 0,
        a <= b <= 1000,
    ensures
        at_quantile(in_order(s), a) <= at_quantile(in_order(s), b) <= greatest(in_order(s)),
        is_greatest(s, greatest(in_order(s))),
{
    let o = in_order(s);
    law_ordered(s);
    crate::stats::law_quantile_has_its_share(o, a);
    crate::stats::law_quantile_has_its_share(o, b);
    assert(o.len() * a <= o.len() * b) by (nonlinear_arith)
        requires
            a <= b,
    ;
    let ra = nearest_rank(o.len(), a);
    let rb = nearest_rank(o.len(), b);
    assert(ra <= rb);
    assert(o[ra - 1] <= o[rb - 1]);
    assert(o[rb - 1] <= o[o.len() - 1]);
    let g = o[o.len() - 1];
    lemma_same_values(s, g);
    assert(o.contains(g));
    assert forall|i: int| 0 <= i < s.len() implies #[trigger] s[i] <= g by {
        lemma_same_values(s, s[i]);
        let k = choose|k: int| 0 <= k < o.len() && o[k] == s[i];
        assert(o[k] <= o[o.len() - 1]);
    }
}

/// Law: a rounded quotient is no more than half away from the quotient, and of two that
/// are equally near it is the greater.
pub proof fn law_rounding_is_to_the_nearest(num: nat, den: nat)
    requires
        den > 0,
    ensures
        2 * nearest(num, den) * den <= 2 * num + den,
        2 * num < 2 * nearest(num, den) * den + den,
{
    let q = nearest(num, den);
    let a = (2 * num + den) as int;
    let b = (2 * den) as int;
    vstd::arithmetic::div_mod::lemma_fundamental_div_mod(a, b);
    assert(2 * q * den <= a && a < 2 * q * den + b) by (nonlinear_arith)
        requires
            a == b * q + a % b,
            0 <= a % b < b,
            b == 2 * den,
    ;
}

proof fn lemma_rounding_grows(a: nat, b: nat, den: nat)
    requires
        a <= b,
        den > 0,
    ensures
        nearest(a, den) <= nearest(b, den),
{
    vstd::arithmetic::div_mod::lemma_div_is_ordered(
        2 * a + den as int,
        2 * b + den as int,
        2 * den as int,
    );
}

/// Law: a time that is told in milliseconds, in microseconds, or to some digits, is the
/// time that it was, as far as its digits go.
pub proof fn law_times_are_told_as_they_are(ns: u64)
    ensures
        tells(ms(ns), ns as nat, 1_000_000, 0),
        tells(ms_r5(ns), ns as nat, 1_000_000, 5),
        tells(ms_r4(ns), ns as nat, 1_000_000, 50),
        tells(us(ns), ns as nat, 1000, 0),
        tells(crate::summary::seconds_r3(ns), ns as nat, 1_000_000_000, 500_000),
{
    law_rounding_is_to_the_nearest(ns as nat, 10);
    law_rounding_is_to_the_nearest(ns as nat, 100);
    law_rounding_is_to_the_nearest(ns as nat, 1_000_000);
}

proof fn lemma_mean(s: Seq<u64>, unit: nat)
    requires
        s.len() > 0,
        unit > 0,
    ensures
        tells_mean(mean_of(in_order(s), unit), s, unit, 0),
{
    law_ordered(s);
    lemma_in_order_counts(s, 0);
    let n = s.len() as int;
    let t = total(s) as int;
    assert(n * unit > 0 && t * unit * n == t * (n * unit)) by (nonlinear_arith)
        requires
            n > 0,
            unit > 0,
    ;
    assert(t * unit * n <= (t + 0 * n) * (n * unit)) by (nonlinear_arith)
        requires
            t * unit * n == t * (n * unit),
    ;
    assert(t * (n * unit) <= (t * unit + 0 * (n * unit)) * n) by (nonlinear_arith)
        requires
            t * unit * n == t * (n * unit),
    ;
}

proof fn lemma_mean_us(s: Seq<u64>)
    requires
        s.len() > 0,
    ensures
        tells_mean(mean_us(in_order(s)), s, 1000, 1),
{
    law_ordered(s);
    lemma_in_order_counts(s, 0);
    let n = s.len();
    let t = total(s);
    law_rounding_is_to_the_nearest(t, n);
    let q = nearest(t, n);
    assert(q * 1000 * n <= (t + 1 * n) * 1000) by (nonlinear_arith)
        requires
            2 * q * n <= 2 * t + n,
    ;
    assert(t * 1000 <= (q * 1000 + 1 * 1000) * n) by (nonlinear_arith)
        requires
            2 * t < 2 * q * n + n,
    ;
}

proof fn lemma_no_more(m: JsonModel, a: Seq<char>, b: Seq<char>, x: nat, y: nat, den: nat)
    requires
        told(m, a) == Some(JsonModel::Ratio(x, den)),
        told(m, b) == Some(JsonModel::Ratio(y, den)),
        x <= y,
    ensures
        tells_no_more(m, a, b),
{
    assert(x * den <= y * den) by (nonlinear_arith)
        requires
            x <= y,
    ;
}

proof fn lemma_mean_r5(s: Seq<u64>)
    requires
        s.len() > 0,
    ensures
        tells_mean(crate::report::mean_r5(in_order(s)), s, 1_000_000, 5),
{
    law_ordered(s);
    lemma_in_order_counts(s, 0);
    let n = s.len();
    let t = total(s);
    let d = n * 10;
    law_rounding_is_to_the_nearest(t, d);
    let q = nearest(t, d);
    assert(2 * q * d == 20 * (q * n)) by (nonlinear_arith)
        requires
            d == n * 10,
    ;
    let qn = q * n;
    assert(q * 1_000_000 * n == 1_000_000 * qn) by (nonlinear_arith)
        requires
            qn == q * n,
    ;
    assert((q * 1_000_000 + 5 * 100_000) * n == 1_000_000 * qn + 500_000 * n) by (nonlinear_arith)
        requires
            qn == q * n,
    ;
}

/// The number is one of the values, told in units of `unit` nanoseconds.
pub open spec fn is_sample(j: JsonModel, s: Seq<u64>, unit: nat) -> bool {
    exists|v: u64| #[trigger] s.contains(v) && tells(j, v as nat, unit, 0)
}

/// Some of the values, told in order: no more of them than `cap`, and all where there are
/// no more.
pub open spec fn are_samples(items: Seq<JsonModel>, s: Seq<u64>, cap: nat, unit: nat) -> bool {
    &&& items.len() <= cap
    &&& forall|i: int| 0 <= i < items.len() ==> is_sample(#[trigger] items[i], s, unit)
    &&& s.len() <= cap ==> items.len() == s.len() && forall|i: int|
        0 <= i < items.len() ==> tells(#[trigger] items[i], in_order(s)[i] as nat, unit, 0)
}

/// The entry tells some of the values.
pub open spec fn tells_samples(
    m: JsonModel,
    key: Seq<char>,
    s: Seq<u64>,
    cap: nat,
    unit: nat,
) -> bool {
    told(m, key) matches Some(JsonModel::Array(items)) && are_samples(items, s, cap, unit)
}

proof fn lemma_samples(s: Seq<u64>, cap: nat, unit: nat)
    requires
        cap > 0,
        unit > 0,
    ensures
        ratios(thinned(in_order(s), cap), unit) is Array,
        are_samples(ratios(thinned(in_order(s), cap), unit)->Array_0, s, cap, unit),
{
    let o = in_order(s);
    law_ordered(s);
    crate::stats::law_thinned_is_bounded(o, cap);
    let t = thinned(o, cap);
    let k = thinning(o.len(), cap) as int;
    let items = ratios(t, unit)->Array_0;
    if o.len() > cap {
        crate::stats::lemma_ceiling(o.len() as int, cap as int);
    } else {
        assert((o.len() + k - 1) / k == o.len());
    }
    assert forall|i: int| 0 <= i < items.len() implies is_sample(#[trigger] items[i], s, unit) by {
        crate::stats::lemma_steps(o.len() as int, k, i);
        let at = i * k;
        assert(0 <= at < o.len()) by {
            assert(at >= 0) by (nonlinear_arith)
                requires
                    i >= 0,
                    k >= 1,
                    at == i * k,
            ;
        }
        let v = o[at];
        assert(o.contains(v));
        lemma_same_values(s, v);
        assert(items[i] == JsonModel::Ratio(v as nat, unit));
        assert(s.contains(v) && tells(items[i], v as nat, unit, 0));
    }
    if s.len() <= cap {
        assert forall|i: int| 0 <= i < items.len() implies tells(
            #[trigger] items[i],
            o[i] as nat,
            unit,
            0,
        ) by {
            assert(t[i] == o[i * k]);
            assert(i * k == i) by (nonlinear_arith)
                requires
                    k == 1,
            ;
        }
    }
}

proof fn lemma_e2e_keys(s: Seq<u64>)
    ensures
        e2e_latency(in_order(s)) is Object,
        told(e2e_latency(in_order(s)), "count"@) == Some(e2e_latency(in_order(s))->Object_0[0].1),
        told(e2e_latency(in_order(s)), "p50"@) == Some(e2e_latency(in_order(s))->Object_0[1].1),
        told(e2e_latency(in_order(s)), "p90"@) == Some(e2e_latency(in_order(s))->Object_0[2].1),
        told(e2e_latency(in_order(s)), "p95"@) == Some(e2e_latency(in_order(s))->Object_0[3].1),
        told(e2e_latency(in_order(s)), "p99"@) == Some(e2e_latency(in_order(s))->Object_0[4].1),
        told(e2e_latency(in_order(s)), "p999"@) == Some(e2e_latency(in_order(s))->Object_0[5].1),
        told(e2e_latency(in_order(s)), "max"@) == Some(e2e_latency(in_order(s))->Object_0[6].1),
        told(e2e_latency(in_order(s)), "mean"@) == Some(e2e_latency(in_order(s))->Object_0[7].1),
        told(e2e_latency(in_order(s)), "samples"@) == Some(e2e_latency(in_order(s))->Object_0[8].1),
        told(e2e_latency(in_order(s)), "samples_subsample_rate"@) == Some(e2e_latency(in_order(s))->Object_0[9].1),
{
    reveal_strlit("count");
    reveal_strlit("p50");
    reveal_strlit("p90");
    reveal_strlit("p95");
    reveal_strlit("p99");
    reveal_strlit("p999");
    reveal_strlit("max");
    reveal_strlit("mean");
    reveal_strlit("samples");
    reveal_strlit("samples_subsample_rate");
    let es = e2e_latency(in_order(s))->Object_0;
    assert(es.len() == 10);
    assert forall|j: int| 0 < j < 10 implies (#[trigger] es[j]).0 != "count"@ by {
        assert(es[j].0.len() != 5);
    }
    lemma_told(es, "count"@, 0);
    assert forall|j: int| 1 < j < 10 implies (#[trigger] es[j]).0 != "p50"@ by {
        assert(es[j].0.len() != 3 || es[j].0[0] != "p50"@[0] || es[j].0[1] != "p50"@[1]);
    }
    lemma_told(es, "p50"@, 1);
    assert forall|j: int| 2 < j < 10 implies (#[trigger] es[j]).0 != "p90"@ by {
        assert(es[j].0.len() != 3 || es[j].0[0] != "p90"@[0] || es[j].0[2] != "p90"@[2]);
    }
    lemma_told(es, "p90"@, 2);
    assert forall|j: int| 3 < j < 10 implies (#[trigger] es[j]).0 != "p95"@ by {
        assert(es[j].0.len() != 3 || es[j].0[0] != "p95"@[0] || es[j].0[2] != "p95"@[2]);
    }
    lemma_told(es, "p95"@, 3);
    assert forall|j: int| 4 < j < 10 implies (#[trigger] es[j]).0 != "p99"@ by {
        assert(es[j].0.len() != 3 || es[j].0[0] != "p99"@[0]);
    }
    lemma_told(es, "p99"@, 4);
    assert forall|j: int| 5 < j < 10 implies (#[trigger] es[j]).0 != "p999"@ by {
        assert(es[j].0.len() != 4 || es[j].0[0] != "p999"@[0]);
    }
    lemma_told(es, "p999"@, 5);
    assert forall|j: int| 6 < j < 10 implies (#[trigger] es[j]).0 != "max"@ by {
        assert(es[j].0.len() != 3);
    }
    lemma_told(es, "max"@, 6);
    assert forall|j: int| 7 < j < 10 implies (#[trigger] es[j]).0 != "mean"@ by {
        assert(es[j].0.len() != 4);
    }
    lemma_told(es, "mean"@, 7);
    assert forall|j: int| 8 < j < 10 implies (#[trigger] es[j]).0 != "samples"@ by {
        assert(es[j].0.len() != 7);
    }
    lemma_told(es, "samples"@, 8);
    lemma_told(es, "samples_subsample_rate"@, 9);
}

proof fn lemma_stage_keys(s: Seq<u64>)
    ensures
        stage_latency(s) is Object,
        told(stage_latency(s), "count"@) == Some(stage_latency(s)->Object_0[0].1),
        told(stage_latency(s), "p50"@) == Some(stage_latency(s)->Object_0[1].1),
        told(stage_latency(s), "p95"@) == Some(stage_latency(s)->Object_0[2].1),
        told(stage_latency(s), "p99"@) == Some(stage_latency(s)->Object_0[3].1),
        told(stage_latency(s), "p999"@) == Some(stage_latency(s)->Object_0[4].1),
        told(stage_latency(s), "max"@) == Some(stage_latency(s)->Object_0[5].1),
        told(stage_latency(s), "mean"@) == Some(stage_latency(s)->Object_0[6].1),
{
    reveal_strlit("count");
    reveal_strlit("p50");
    reveal_strlit("p95");
    reveal_strlit("p99");
    reveal_strlit("p999");
    reveal_strlit("max");
    reveal_strlit("mean");
    let es = stage_latency(s)->Object_0;
    assert(es.len() == 7);
    assert forall|j: int| 0 < j < 7 implies (#[trigger] es[j]).0 != "count"@ by {
        assert(es[j].0.len() != 5);
    }
    lemma_told(es, "count"@, 0);
    assert forall|j: int| 1 < j < 7 implies (#[trigger] es[j]).0 != "p50"@ by {
        assert(es[j].0.len() != 3 || es[j].0[0] != "p50"@[0] || es[j].0[1] != "p50"@[1]);
    }
    lemma_told(es, "p50"@, 1);
    assert forall|j: int| 2 < j < 7 implies (#[trigger] es[j]).0 != "p95"@ by {
        assert(es[j].0.len() != 3 || es[j].0[0] != "p95"@[0] || es[j].0[2] != "p95"@[2]);
    }
    lemma_told(es, "p95"@, 2);
    assert forall|j: int| 3 < j < 7 implies (#[trigger] es[j]).0 != "p99"@ by {
        assert(es[j].0.len() != 3 || es[j].0[0] != "p99"@[0]);
    }
    lemma_told(es, "p99"@, 3);
    assert forall|j: int| 4 < j < 7 implies (#[trigger] es[j]).0 != "p999"@ by {
        assert(es[j].0.len() != 4 || es[j].0[0] != "p999"@[0]);
    }
    lemma_told(es, "p999"@, 4);
    assert forall|j: int| 5 < j < 7 implies (#[trigger] es[j]).0 != "max"@ by {
        assert(es[j].0.len() != 3);
    }
    lemma_told(es, "max"@, 5);
    lemma_told(es, "mean"@, 6);
}

proof fn lemma_edge_keys(e: GapModel)
    ensures
        edge_stats(e) is Object,
        told(edge_stats(e), "from"@) == Some(edge_stats(e)->Object_0[0].1),
        told(edge_stats(e), "to"@) == Some(edge_stats(e)->Object_0[1].1),
        told(edge_stats(e), "count"@) == Some(edge_stats(e)->Object_0[2].1),
        told(edge_stats(e), "p50"@) == Some(edge_stats(e)->Object_0[3].1),
        told(edge_stats(e), "p95"@) == Some(edge_stats(e)->Object_0[4].1),
        told(edge_stats(e), "p99"@) == Some(edge_stats(e)->Object_0[5].1),
        told(edge_stats(e), "p999"@) == Some(edge_stats(e)->Object_0[6].1),
        told(edge_stats(e), "max"@) == Some(edge_stats(e)->Object_0[7].1),
        told(edge_stats(e), "mean"@) == Some(edge_stats(e)->Object_0[8].1),
        told(edge_stats(e), "samples"@) == Some(edge_stats(e)->Object_0[9].1),
{
    reveal_strlit("from");
    reveal_strlit("to");
    reveal_strlit("count");
    reveal_strlit("p50");
    reveal_strlit("p95");
    reveal_strlit("p99");
    reveal_strlit("p999");
    reveal_strlit("max");
    reveal_strlit("mean");
    reveal_strlit("samples");
    let es = edge_stats(e)->Object_0;
    assert(es.len() == 10);
    assert forall|j: int| 0 < j < 10 implies (#[trigger] es[j]).0 != "from"@ by {
        assert(es[j].0.len() != 4 || es[j].0[0] != "from"@[0]);
    }
    lemma_told(es, "from"@, 0);
    assert forall|j: int| 1 < j < 10 implies (#[trigger] es[j]).0 != "to"@ by {
        assert(es[j].0.len() != 2);
    }
    lemma_told(es, "to"@, 1);
    assert forall|j: int| 2 < j < 10 implies (#[trigger] es[j]).0 != "count"@ by {
        assert(es[j].0.len() != 5);
    }
    lemma_told(es, "count"@, 2);
    assert forall|j: int| 3 < j < 10 implies (#[trigger] es[j]).0 != "p50"@ by {
        assert(es[j].0.len() != 3 || es[j].0[0] != "p50"@[0] || es[j].0[1] != "p50"@[1]);
    }
    lemma_told(es, "p50"@, 3);
    assert forall|j: int| 4 < j < 10 implies (#[trigger] es[j]).0 != "p95"@ by {
        assert(es[j].0.len() != 3 || es[j].0[0] != "p95"@[0] || es[j].0[2] != "p95"@[2]);
    }
    lemma_told(es, "p95"@, 4);
    assert forall|j: int| 5 < j < 10 implies (#[trigger] es[j]).0 != "p99"@ by {
        assert(es[j].0.len() != 3 || es[j].0[0] != "p99"@[0]);
    }
    lemma_told(es, "p99"@, 5);
    assert forall|j: int| 6 < j < 10 implies (#[trigger] es[j]).0 != "p999"@ by {
        assert(es[j].0.len() != 4 || es[j].0[0] != "p999"@[0]);
    }
    lemma_told(es, "p999"@, 6);
    assert forall|j: int| 7 < j < 10 implies (#[trigger] es[j]).0 != "max"@ by {
        assert(es[j].0.len() != 3);
    }
    lemma_told(es, "max"@, 7);
    assert forall|j: int| 8 < j < 10 implies (#[trigger] es[j]).0 != "mean"@ by {
        assert(es[j].0.len() != 4);
    }
    lemma_told(es, "mean"@, 8);
    lemma_told(es, "samples"@, 9);
}

proof fn lemma_wait_keys(stage: Seq<char>, s: Seq<u64>)
    ensures
        wait_stats(stage, in_order(s)) is Object,
        told(wait_stats(stage, in_order(s)), "stage"@) == Some(wait_stats(stage, in_order(s))->Object_0[0].1),
        told(wait_stats(stage, in_order(s)), "count"@) == Some(wait_stats(stage, in_order(s))->Object_0[1].1),
        told(wait_stats(stage, in_order(s)), "p50"@) == Some(wait_stats(stage, in_order(s))->Object_0[2].1),
        told(wait_stats(stage, in_order(s)), "p95"@) == Some(wait_stats(stage, in_order(s))->Object_0[3].1),
        told(wait_stats(stage, in_order(s)), "p99"@) == Some(wait_stats(stage, in_order(s))->Object_0[4].1),
        told(wait_stats(stage, in_order(s)), "p999"@) == Some(wait_stats(stage, in_order(s))->Object_0[5].1),
        told(wait_stats(stage, in_order(s)), "max"@) == Some(wait_stats(stage, in_order(s))->Object_0[6].1),
        told(wait_stats(stage, in_order(s)), "mean"@) == Some(wait_stats(stage, in_order(s))->Object_0[7].1),
{
    reveal_strlit("stage");
    reveal_strlit("count");
    reveal_strlit("p50");
    reveal_strlit("p95");
    reveal_strlit("p99");
    reveal_strlit("p999");
    reveal_strlit("max");
    reveal_strlit("mean");
    let es = wait_stats(stage, in_order(s))->Object_0;
    assert(es.len() == 8);
    assert forall|j: int| 0 < j < 8 implies (#[trigger] es[j]).0 != "stage"@ by {
        assert(es[j].0.len() != 5 || es[j].0[0] != "stage"@[0]);
    }
    lemma_told(es, "stage"@, 0);
    assert forall|j: int| 1 < j < 8 implies (#[trigger] es[j]).0 != "count"@ by {
        assert(es[j].0.len() != 5);
    }
    lemma_told(es, "count"@, 1);
    assert forall|j: int| 2 < j < 8 implies (#[trigger] es[j]).0 != "p50"@ by {
        assert(es[j].0.len() != 3 || es[j].0[0] != "p50"@[0] || es[j].0[1] != "p50"@[1]);
    }
    lemma_told(es, "p50"@, 2);
    assert forall|j: int| 3 < j < 8 implies (#[trigger] es[j]).0 != "p95"@ by {
        assert(es[j].0.len() != 3 || es[j].0[0] != "p95"@[0] || es[j].0[2] != "p95"@[2]);
    }
    lemma_told(es, "p95"@, 3);
    assert forall|j: int| 4 < j < 8 implies (#[trigger] es[j]).0 != "p99"@ by {
        assert(es[j].0.len() != 3 || es[j].0[0] != "p99"@[0]);
    }
    lemma_told(es, "p99"@, 4);
    assert forall|j: int| 5 < j < 8 implies (#[trigger] es[j]).0 != "p999"@ by {
        assert(es[j].0.len() != 4 || es[j].0[0] != "p999"@[0]);
    }
    lemma_told(es, "p999"@, 5);
    assert forall|j: int| 6 < j < 8 implies (#[trigger] es[j]).0 != "max"@ by {
        assert(es[j].0.len() != 3);
    }
    lemma_told(es, "max"@, 6);
    lemma_told(es, "mean"@, 7);
}

proof fn lemma_full_keys(s: Seq<u64>)
    ensures
        full_spread(in_order(s)) is Object,
        told(full_spread(in_order(s)), "p50"@) == Some(full_spread(in_order(s))->Object_0[0].1),
        told(full_spread(in_order(s)), "p95"@) == Some(full_spread(in_order(s))->Object_0[1].1),
        told(full_spread(in_order(s)), "p99"@) == Some(full_spread(in_order(s))->Object_0[2].1),
        told(full_spread(in_order(s)), "p999"@) == Some(full_spread(in_order(s))->Object_0[3].1),
        told(full_spread(in_order(s)), "max"@) == Some(full_spread(in_order(s))->Object_0[4].1),
        told(full_spread(in_order(s)), "mean"@) == Some(full_spread(in_order(s))->Object_0[5].1),
        told(full_spread(in_order(s)), "samples"@) == Some(full_spread(in_order(s))->Object_0[6].1),
{
    reveal_strlit("p50");
    reveal_strlit("p95");
    reveal_strlit("p99");
    reveal_strlit("p999");
    reveal_strlit("max");
    reveal_strlit("mean");
    reveal_strlit("samples");
    let es = full_spread(in_order(s))->Object_0;
    assert(es.len() == 7);
    assert forall|j: int| 0 < j < 7 implies (#[trigger] es[j]).0 != "p50"@ by {
        assert(es[j].0.len() != 3 || es[j].0[0] != "p50"@[0] || es[j].0[1] != "p50"@[1]);
    }
    lemma_told(es, "p50"@, 0);
    assert forall|j: int| 1 < j < 7 implies (#[trigger] es[j]).0 != "p95"@ by {
        assert(es[j].0.len() != 3 || es[j].0[0] != "p95"@[0] || es[j].0[2] != "p95"@[2]);
    }
    lemma_told(es, "p95"@, 1);
    assert forall|j: int| 2 < j < 7 implies (#[trigger] es[j]).0 != "p99"@ by {
        assert(es[j].0.len() != 3 || es[j].0[0] != "p99"@[0]);
    }
    lemma_told(es, "p99"@, 2);
    assert forall|j: int| 3 < j < 7 implies (#[trigger] es[j]).0 != "p999"@ by {
        assert(es[j].0.len() != 4 || es[j].0[0] != "p999"@[0]);
    }
    lemma_told(es, "p999"@, 3);
    assert forall|j: int| 4 < j < 7 implies (#[trigger] es[j]).0 != "max"@ by {
        assert(es[j].0.len() != 3);
    }
    lemma_told(es, "max"@, 4);
    assert forall|j: int| 5 < j < 7 implies (#[trigger] es[j]).0 != "mean"@ by {
        assert(es[j].0.len() != 4);
    }
    lemma_told(es, "mean"@, 5);
    lemma_told(es, "samples"@, 6);
}

proof fn lemma_short_keys(s: Seq<u64>)
    ensures
        short_spread(in_order(s)) is Object,
        told(short_spread(in_order(s)), "p50"@) == Some(short_spread(in_order(s))->Object_0[0].1),
        told(short_spread(in_order(s)), "p95"@) == Some(short_spread(in_order(s))->Object_0[1].1),
        told(short_spread(in_order(s)), "p99"@) == Some(short_spread(in_order(s))->Object_0[2].1),
        told(short_spread(in_order(s)), "max"@) == Some(short_spread(in_order(s))->Object_0[3].1),
        told(short_spread(in_order(s)), "mean"@) == Some(short_spread(in_order(s))->Object_0[4].1),
        told(short_spread(in_order(s)), "samples"@) == Some(short_spread(in_order(s))->Object_0[5].1),
{
    reveal_strlit("p50");
    reveal_strlit("p95");
    reveal_strlit("p99");
    reveal_strlit("max");
    reveal_strlit("mean");
    reveal_strlit("samples");
    let es = short_spread(in_order(s))->Object_0;
    assert(es.len() == 6);
    assert forall|j: int| 0 < j < 6 implies (#[trigger] es[j]).0 != "p50"@ by {
        assert(es[j].0.len() != 3 || es[j].0[0] != "p50"@[0] || es[j].0[1] != "p50"@[1]);
    }
    lemma_told(es, "p50"@, 0);
    assert forall|j: int| 1 < j < 6 implies (#[trigger] es[j]).0 != "p95"@ by {
        assert(es[j].0.len() != 3 || es[j].0[0] != "p95"@[0] || es[j].0[2] != "p95"@[2]);
    }
    lemma_told(es, "p95"@, 1);
    assert forall|j: int| 2 < j < 6 implies (#[trigger] es[j]).0 != "p99"@ by {
        assert(es[j].0.len() != 3 || es[j].0[0] != "p99"@[0]);
    }
    lemma_told(es, "p99"@, 2);
    assert forall|j: int| 3 < j < 6 implies (#[trigger] es[j]).0 != "max"@ by {
        assert(es[j].0.len() != 3);
    }
    lemma_told(es, "max"@, 3);
    assert forall|j: int| 4 < j < 6 implies (#[trigger] es[j]).0 != "mean"@ by {
        assert(es[j].0.len() != 4);
    }
    lemma_told(es, "mean"@, 4);
    lemma_told(es, "samples"@, 5);
}

proof fn lemma_plot_keys(s: Seq<u64>)
    ensures
        JsonModel::Object(latency_fields(in_order(s))) is Object,
        told(JsonModel::Object(latency_fields(in_order(s))), "e2e_count"@) == Some(JsonModel::Object(latency_fields(in_order(s)))->Object_0[0].1),
        told(JsonModel::Object(latency_fields(in_order(s))), "p50"@) == Some(JsonModel::Object(latency_fields(in_order(s)))->Object_0[1].1),
        told(JsonModel::Object(latency_fields(in_order(s))), "p90"@) == Some(JsonModel::Object(latency_fields(in_order(s)))->Object_0[2].1),
        told(JsonModel::Object(latency_fields(in_order(s))), "p99"@) == Some(JsonModel::Object(latency_fields(in_order(s)))->Object_0[3].1),
        told(JsonModel::Object(latency_fields(in_order(s))), "p999"@) == Some(JsonModel::Object(latency_fields(in_order(s)))->Object_0[4].1),
        told(JsonModel::Object(latency_fields(in_order(s))), "min"@) == Some(JsonModel::Object(latency_fields(in_order(s)))->Object_0[5].1),
        told(JsonModel::Object(latency_fields(in_order(s))), "max"@) == Some(JsonModel::Object(latency_fields(in_order(s)))->Object_0[6].1),
        told(JsonModel::Object(latency_fields(in_order(s))), "mean"@) == Some(JsonModel::Object(latency_fields(in_order(s)))->Object_0[7].1),
        told(JsonModel::Object(latency_fields(in_order(s))), "cold_start_e2e_ms"@) == Some(JsonModel::Object(latency_fields(in_order(s)))->Object_0[8].1),
        told(JsonModel::Object(latency_fields(in_order(s))), "hist_labels"@) == Some(JsonModel::Object(latency_fields(in_order(s)))->Object_0[9].1),
        told(JsonModel::Object(latency_fields(in_order(s))), "hist_counts"@) == Some(JsonModel::Object(latency_fields(in_order(s)))->Object_0[10].1),
        told(JsonModel::Object(latency_fields(in_order(s))), "cdf_x"@) == Some(JsonModel::Object(latency_fields(in_order(s)))->Object_0[11].1),
        told(JsonModel::Object(latency_fields(in_order(s))), "cdf_y"@) == Some(JsonModel::Object(latency_fields(in_order(s)))->Object_0[12].1),
{
    reveal_strlit("e2e_count");
    reveal_strlit("p50");
    reveal_strlit("p90");
    reveal_strlit("p99");
    reveal_strlit("p999");
    reveal_strlit("min");
    reveal_strlit("max");
    reveal_strlit("mean");
    reveal_strlit("cold_start_e2e_ms");
    reveal_strlit("hist_labels");
    reveal_strlit("hist_counts");
    reveal_strlit("cdf_x");
    reveal_strlit("cdf_y");
    let es = JsonModel::Object(latency_fields(in_order(s)))->Object_0;
    assert(es.len() == 13);
    assert forall|j: int| 0 < j < 13 implies (#[trigger] es[j]).0 != "e2e_count"@ by {
        assert(es[j].0.len() != 9);
    }
    lemma_told(es, "e2e_count"@, 0);
    assert forall|j: int| 1 < j < 13 implies (#[trigger] es[j]).0 != "p50"@ by {
        assert(es[j].0.len() != 3 || es[j].0[0] != "p50"@[0] || es[j].0[1] != "p50"@[1]);
    }
    lemma_told(es, "p50"@, 1);
    assert forall|j: int| 2 < j < 13 implies (#[trigger] es[j]).0 != "p90"@ by {
        assert(es[j].0.len() != 3 || es[j].0[0] != "p90"@[0] || es[j].0[2] != "p90"@[2]);
    }
    lemma_told(es, "p90"@, 2);
    assert forall|j: int| 3 < j < 13 implies (#[trigger] es[j]).0 != "p99"@ by {
        assert(es[j].0.len() != 3 || es[j].0[0] != "p99"@[0]);
    }
    lemma_told(es, "p99"@, 3);
    assert forall|j: int| 4 < j < 13 implies (#[trigger] es[j]).0 != "p999"@ by {
        assert(es[j].0.len() != 4 || es[j].0[0] != "p999"@[0]);
    }
    lemma_told(es, "p999"@, 4);
    assert forall|j: int| 5 < j < 13 implies (#[trigger] es[j]).0 != "min"@ by {
        assert(es[j].0.len() != 3 || es[j].0[1] != "min"@[1]);
    }
    lemma_told(es, "min"@, 5);
    assert forall|j: int| 6 < j < 13 implies (#[trigger] es[j]).0 != "max"@ by {
        assert(es[j].0.len() != 3);
    }
    lemma_told(es, "max"@, 6);
    assert forall|j: int| 7 < j < 13 implies (#[trigger] es[j]).0 != "mean"@ by {
        assert(es[j].0.len() != 4);
    }
    lemma_told(es, "mean"@, 7);
    assert forall|j: int| 8 < j < 13 implies (#[trigger] es[j]).0 != "cold_start_e2e_ms"@ by {
        assert(es[j].0.len() != 17);
    }
    lemma_told(es, "cold_start_e2e_ms"@, 8);
    assert forall|j: int| 9 < j < 13 implies (#[trigger] es[j]).0 != "hist_labels"@ by {
        assert(es[j].0.len() != 11 || es[j].0[5] != "hist_labels"@[5]);
    }
    lemma_told(es, "hist_labels"@, 9);
    assert forall|j: int| 10 < j < 13 implies (#[trigger] es[j]).0 != "hist_counts"@ by {
        assert(es[j].0.len() != 11);
    }
    lemma_told(es, "hist_counts"@, 10);
    assert forall|j: int| 11 < j < 13 implies (#[trigger] es[j]).0 != "cdf_x"@ by {
        assert(es[j].0.len() != 5 || es[j].0[4] != "cdf_x"@[4]);
    }
    lemma_told(es, "cdf_x"@, 11);
    lemma_told(es, "cdf_y"@, 12);
}

/// Law: of the latencies of a run, the entries of the end-to-end block tell what their
/// names say: quantiles that are quantiles, in milliseconds to five digits and in
/// order, the greatest, the mean, the number, and samples that were measured.
pub proof fn law_end_to_end_latencies_are_told(s: Seq<u64>)
    requires
        s.len() > 0,
    ensures
        tells_quantile(e2e_latency(in_order(s)), "p50"@, s, 500, 1000000, 5),
        tells_quantile(e2e_latency(in_order(s)), "p90"@, s, 900, 1000000, 5),
        tells_quantile(e2e_latency(in_order(s)), "p95"@, s, 950, 1000000, 5),
        tells_quantile(e2e_latency(in_order(s)), "p99"@, s, 990, 1000000, 5),
        tells_quantile(e2e_latency(in_order(s)), "p999"@, s, 999, 1000000, 5),
        tells_greatest(e2e_latency(in_order(s)), "max"@, s, 1000000, 0),
        told(e2e_latency(in_order(s)), "count"@) == Some(JsonModel::Count(s.len())),
        told(e2e_latency(in_order(s)), "mean"@) matches Some(j) && tells_mean(j, s, 1000000, 0),
        tells_samples(e2e_latency(in_order(s)), "samples"@, s, 100000, 1000000),
{
    let o = in_order(s);
    law_ordered(s);
    lemma_e2e_keys(s);
    law_quantiles_are_quantiles(s, 500);
    law_times_are_told_as_they_are(at_quantile(o, 500));
    law_quantiles_are_quantiles(s, 900);
    law_times_are_told_as_they_are(at_quantile(o, 900));
    law_quantiles_are_quantiles(s, 950);
    law_times_are_told_as_they_are(at_quantile(o, 950));
    law_quantiles_are_quantiles(s, 990);
    law_times_are_told_as_they_are(at_quantile(o, 990));
    law_quantiles_are_quantiles(s, 999);
    law_times_are_told_as_they_are(at_quantile(o, 999));
    lemma_quantiles_grow(s, 0, 0);
    law_times_are_told_as_they_are(greatest(o));
    lemma_mean(s, 1_000_000);
    lemma_samples(s, 100000, 1000000);
}

/// Law: and of these quantiles none is less than a lower one.
pub proof fn law_end_to_end_latencies_are_in_order(s: Seq<u64>)
    requires
        s.len() > 0,
    ensures
        tells_no_more(e2e_latency(in_order(s)), "p50"@, "p90"@),
        tells_no_more(e2e_latency(in_order(s)), "p90"@, "p95"@),
        tells_no_more(e2e_latency(in_order(s)), "p95"@, "p99"@),
        tells_no_more(e2e_latency(in_order(s)), "p99"@, "p999"@),
{
    let o = in_order(s);
    lemma_e2e_keys(s);
    lemma_quantiles_grow(s, 500, 900);
    lemma_rounding_grows(at_quantile(o, 500) as nat, at_quantile(o, 900) as nat, 10);
    lemma_quantiles_grow(s, 900, 950);
    lemma_rounding_grows(at_quantile(o, 900) as nat, at_quantile(o, 950) as nat, 10);
    lemma_quantiles_grow(s, 950, 990);
    lemma_rounding_grows(at_quantile(o, 950) as nat, at_quantile(o, 990) as nat, 10);
    lemma_quantiles_grow(s, 990, 999);
    lemma_rounding_grows(at_quantile(o, 990) as nat, at_quantile(o, 999) as nat, 10);
    lemma_no_more(
        e2e_latency(in_order(s)),
        "p50"@,
        "p90"@,
        nearest(at_quantile(o, 500) as nat, 10),
        nearest(at_quantile(o, 900) as nat, 10),
        100000,
    );
    lemma_no_more(
        e2e_latency(in_order(s)),
        "p90"@,
        "p95"@,
        nearest(at_quantile(o, 900) as nat, 10),
        nearest(at_quantile(o, 950) as nat, 10),
        100000,
    );
    lemma_no_more(
        e2e_latency(in_order(s)),
        "p95"@,
        "p99"@,
        nearest(at_quantile(o, 950) as nat, 10),
        nearest(at_quantile(o, 990) as nat, 10),
        100000,
    );
    lemma_no_more(
        e2e_latency(in_order(s)),
        "p99"@,
        "p999"@,
        nearest(at_quantile(o, 990) as nat, 10),
        nearest(at_quantile(o, 999) as nat, 10),
        100000,
    );
}

/// One entry exceeds another by no more than `off` nanoseconds, both told in units of `unit`
/// nanoseconds.
pub open spec fn tells_hardly_more(
    m: JsonModel,
    a: Seq<char>,
    b: Seq<char>,
    unit: nat,
    off: nat,
) -> bool {
    match (told(m, a), told(m, b)) {
        (Some(JsonModel::Ratio(x, p)), Some(JsonModel::Ratio(y, q))) => x * q * unit <= y * p * unit
            + off * p * q,
        _ => false,
    }
}

proof fn lemma_hardly_more(m: JsonModel, a: Seq<char>, b: Seq<char>, x: nat, y: nat)
    requires
        told(m, a) == Some(JsonModel::Ratio(x, 100_000)),
        told(m, b) == Some(JsonModel::Ratio(y, 1_000_000)),
        10 * x <= y + 5,
    ensures
        tells_hardly_more(m, a, b, 1_000_000, 5),
{
    let (p, q, unit, off) = (100_000nat, 1_000_000nat, 1_000_000nat, 5nat);
    assert(x * q * unit == x * 1_000_000_000_000) by (nonlinear_arith)
        requires
            q == 1_000_000,
            unit == 1_000_000,
    ;
    assert(y * p * unit == y * 100_000_000_000) by (nonlinear_arith)
        requires
            p == 100_000,
            unit == 1_000_000,
    ;
    assert(off * p * q == 500_000_000_000) by (nonlinear_arith)
        requires
            off == 5,
            p == 100_000,
            q == 1_000_000,
    ;
}

proof fn lemma_not_more(m: JsonModel, a: Seq<char>, b: Seq<char>, x: nat, y: nat)
    requires
        told(m, a) == Some(JsonModel::Ratio(x, 100_000)),
        told(m, b) == Some(JsonModel::Ratio(y, 1_000_000)),
        10 * x <= y,
    ensures
        tells_no_more(m, a, b),
{
    let (p, q) = (100_000nat, 1_000_000nat);
    assert(x * q <= y * p) by (nonlinear_arith)
        requires
            p == 100_000,
            q == 1_000_000,
            10 * x <= y,
    ;
}

/// Law: no quantile of the latencies exceeds the greatest one. The quantiles are told to ten
/// nanoseconds and the greatest exactly, so that the last quantile may be told as half
/// of that more; where the greatest is told to ten nanoseconds too, it is never more.
pub proof fn law_the_greatest_latency_comes_last(s: Seq<u64>)
    requires
        s.len() > 0,
    ensures
        tells_hardly_more(e2e_latency(in_order(s)), "p999"@, "max"@, 1_000_000, 5),
        tells_hardly_more(stage_latency(s), "p999"@, "max"@, 1_000_000, 5),
        greatest(in_order(s)) % 10 == 0 ==> tells_no_more(
            e2e_latency(in_order(s)),
            "p999"@,
            "max"@,
        ) && tells_no_more(stage_latency(s), "p999"@, "max"@),
        exists|v: u64, g: u64|
            #![trigger is_quantile(s, v, 999), is_greatest(s, g)]
            is_quantile(s, v, 999) && is_greatest(s, g) && v <= g,
{
    let o = in_order(s);
    let v = at_quantile(o, 999);
    let g = greatest(o);
    lemma_quantiles_grow(s, 999, 999);
    lemma_e2e_keys(s);
    lemma_stage_keys(s);
    law_quantiles_are_quantiles(s, 999);
    assert(is_quantile(s, v, 999));
    assert(is_greatest(s, g));
    assert(v <= g);
    law_rounding_is_to_the_nearest(v as nat, 10);
    let x = nearest(v as nat, 10);
    assert(told(e2e_latency(o), "p999"@) == Some(JsonModel::Ratio(x, 100_000)));
    assert(told(e2e_latency(o), "max"@) == Some(JsonModel::Ratio(g as nat, 1_000_000)));
    assert(told(stage_latency(s), "p999"@) == Some(JsonModel::Ratio(x, 100_000)));
    assert(told(stage_latency(s), "max"@) == Some(JsonModel::Ratio(g as nat, 1_000_000)));
    assert(10 * x <= v + 5);
    lemma_hardly_more(e2e_latency(o), "p999"@, "max"@, x, g as nat);
    lemma_hardly_more(stage_latency(s), "p999"@, "max"@, x, g as nat);
    if g % 10 == 0 {
        assert(10 * x <= g + 5);
        assert(10 * x <= g);
        lemma_not_more(e2e_latency(o), "p999"@, "max"@, x, g as nat);
        lemma_not_more(stage_latency(s), "p999"@, "max"@, x, g as nat);
    }
}

/// Law: of the times that events spent in a stage, its block tells what the names of its
/// entries say.
pub proof fn law_stage_latencies_are_told(s: Seq<u64>)
    requires
        s.len() > 0,
    ensures
        tells_quantile(stage_latency(s), "p50"@, s, 500, 1000000, 5),
        tells_quantile(stage_latency(s), "p95"@, s, 950, 1000000, 5),
        tells_quantile(stage_latency(s), "p99"@, s, 990, 1000000, 5),
        tells_quantile(stage_latency(s), "p999"@, s, 999, 1000000, 5),
        tells_greatest(stage_latency(s), "max"@, s, 1000000, 0),
        told(stage_latency(s), "count"@) == Some(JsonModel::Count(s.len())),
        told(stage_latency(s), "mean"@) matches Some(j) && tells_mean(j, s, 1000000, 0),
{
    let o = in_order(s);
    law_ordered(s);
    lemma_stage_keys(s);
    law_quantiles_are_quantiles(s, 500);
    law_times_are_told_as_they_are(at_quantile(o, 500));
    law_quantiles_are_quantiles(s, 950);
    law_times_are_told_as_they_are(at_quantile(o, 950));
    law_quantiles_are_quantiles(s, 990);
    law_times_are_told_as_they_are(at_quantile(o, 990));
    law_quantiles_are_quantiles(s, 999);
    law_times_are_told_as_they_are(at_quantile(o, 999));
    lemma_quantiles_grow(s, 0, 0);
    law_times_are_told_as_they_are(greatest(o));
    lemma_mean(s, 1_000_000);
}

/// Law: and of these quantiles none is less than a lower one.
pub proof fn law_stage_latencies_are_in_order(s: Seq<u64>)
    requires
        s.len() > 0,
    ensures
        tells_no_more(stage_latency(s), "p50"@, "p95"@),
        tells_no_more(stage_latency(s), "p95"@, "p99"@),
        tells_no_more(stage_latency(s), "p99"@, "p999"@),
{
    let o = in_order(s);
    lemma_stage_keys(s);
    lemma_quantiles_grow(s, 500, 950);
    lemma_rounding_grows(at_quantile(o, 500) as nat, at_quantile(o, 950) as nat, 10);
    lemma_quantiles_grow(s, 950, 990);
    lemma_rounding_grows(at_quantile(o, 950) as nat, at_quantile(o, 990) as nat, 10);
    lemma_quantiles_grow(s, 990, 999);
    lemma_rounding_grows(at_quantile(o, 990) as nat, at_quantile(o, 999) as nat, 10);
    lemma_no_more(
        stage_latency(s),
        "p50"@,
        "p95"@,
        nearest(at_quantile(o, 500) as nat, 10),
        nearest(at_quantile(o, 950) as nat, 10),
        100000,
    );
    lemma_no_more(
        stage_latency(s),
        "p95"@,
        "p99"@,
        nearest(at_quantile(o, 950) as nat, 10),
        nearest(at_quantile(o, 990) as nat, 10),
        100000,
    );
    lemma_no_more(
        stage_latency(s),
        "p99"@,
        "p999"@,
        nearest(at_quantile(o, 990) as nat, 10),
        nearest(at_quantile(o, 999) as nat, 10),
        100000,
    );
}

/// Law: of the times between two stages, the block of their edge tells which stages they
/// are and what the names of its entries say.
pub proof fn law_gaps_are_told(e: GapModel)
    requires
        e.2.len() > 0,
    ensures
        tells_quantile(edge_stats(e), "p50"@, e.2, 500, 1000000, 0),
        tells_quantile(edge_stats(e), "p95"@, e.2, 950, 1000000, 0),
        tells_quantile(edge_stats(e), "p99"@, e.2, 990, 1000000, 0),
        tells_quantile(edge_stats(e), "p999"@, e.2, 999, 1000000, 0),
        tells_greatest(edge_stats(e), "max"@, e.2, 1000000, 0),
        told(edge_stats(e), "count"@) == Some(JsonModel::Count(e.2.len())),
        told(edge_stats(e), "mean"@) matches Some(j) && tells_mean(j, e.2, 1000000, 0),
        tells_samples(edge_stats(e), "samples"@, e.2, 100000, 1000000),
        told(edge_stats(e), "from"@) == Some(JsonModel::Text(e.0)),
        told(edge_stats(e), "to"@) == Some(JsonModel::Text(e.1)),
{
    let o = in_order(e.2);
    law_ordered(e.2);
    lemma_edge_keys(e);
    law_quantiles_are_quantiles(e.2, 500);
    law_times_are_told_as_they_are(at_quantile(o, 500));
    law_quantiles_are_quantiles(e.2, 950);
    law_times_are_told_as_they_are(at_quantile(o, 950));
    law_quantiles_are_quantiles(e.2, 990);
    law_times_are_told_as_they_are(at_quantile(o, 990));
    law_quantiles_are_quantiles(e.2, 999);
    law_times_are_told_as_they_are(at_quantile(o, 999));
    lemma_quantiles_grow(e.2, 0, 0);
    law_times_are_told_as_they_are(greatest(o));
    lemma_mean(e.2, 1_000_000);
    lemma_samples(e.2, 100000, 1000000);
}

/// Law: and of these quantiles none is less than a lower one.
pub proof fn law_gaps_are_in_order(e: GapModel)
    requires
        e.2.len() > 0,
    ensures
        tells_no_more(edge_stats(e), "p50"@, "p95"@),
        tells_no_more(edge_stats(e), "p95"@, "p99"@),
        tells_no_more(edge_stats(e), "p99"@, "p999"@),
        tells_no_more(edge_stats(e), "p999"@, "max"@),
{
    let o = in_order(e.2);
    lemma_edge_keys(e);
    lemma_quantiles_grow(e.2, 500, 950);
    lemma_quantiles_grow(e.2, 950, 990);
    lemma_quantiles_grow(e.2, 990, 999);
    lemma_no_more(
        edge_stats(e),
        "p50"@,
        "p95"@,
        at_quantile(o, 500) as nat,
        at_quantile(o, 950) as nat,
        1000000,
    );
    lemma_no_more(
        edge_stats(e),
        "p95"@,
        "p99"@,
        at_quantile(o, 950) as nat,
        at_quantile(o, 990) as nat,
        1000000,
    );
    lemma_no_more(
        edge_stats(e),
        "p99"@,
        "p999"@,
        at_quantile(o, 990) as nat,
        at_quantile(o, 999) as nat,
        1000000,
    );
    lemma_no_more(
        edge_stats(e),
        "p999"@,
        "max"@,
        at_quantile(o, 999) as nat,
        greatest(o) as nat,
        1000000,
    );
}

/// Law: of the times that events waited for a stage, its block tells which stage it is and
/// what the names of its entries say.
pub proof fn law_waits_are_told(stage: Seq<char>, s: Seq<u64>)
    requires
        s.len() > 0,
    ensures
        tells_quantile(wait_stats(stage, in_order(s)), "p50"@, s, 500, 1000000, 0),
        tells_quantile(wait_stats(stage, in_order(s)), "p95"@, s, 950, 1000000, 0),
        tells_quantile(wait_stats(stage, in_order(s)), "p99"@, s, 990, 1000000, 0),
        tells_quantile(wait_stats(stage, in_order(s)), "p999"@, s, 999, 1000000, 0),
        tells_greatest(wait_stats(stage, in_order(s)), "max"@, s, 1000000, 0),
        told(wait_stats(stage, in_order(s)), "count"@) == Some(JsonModel::Count(s.len())),
        told(
            wait_stats(stage, in_order(s)),
            "mean"@) matches Some(j) && tells_mean(j,
            s,
            1000000,
            0,
        ),
        told(wait_stats(stage, in_order(s)), "stage"@) == Some(JsonModel::Text(stage)),
{
    let o = in_order(s);
    law_ordered(s);
    lemma_wait_keys(stage, s);
    law_quantiles_are_quantiles(s, 500);
    law_times_are_told_as_they_are(at_quantile(o, 500));
    law_quantiles_are_quantiles(s, 950);
    law_times_are_told_as_they_are(at_quantile(o, 950));
    law_quantiles_are_quantiles(s, 990);
    law_times_are_told_as_they_are(at_quantile(o, 990));
    law_quantiles_are_quantiles(s, 999);
    law_times_are_told_as_they_are(at_quantile(o, 999));
    lemma_quantiles_grow(s, 0, 0);
    law_times_are_told_as_they_are(greatest(o));
    lemma_mean(s, 1_000_000);
}

/// Law: and of these quantiles none is less than a lower one.
pub proof fn law_waits_are_in_order(stage: Seq<char>, s: Seq<u64>)
    requires
        s.len() > 0,
    ensures
        tells_no_more(wait_stats(stage, in_order(s)), "p50"@, "p95"@),
        tells_no_more(wait_stats(stage, in_order(s)), "p95"@, "p99"@),
        tells_no_more(wait_stats(stage, in_order(s)), "p99"@, "p999"@),
        tells_no_more(wait_stats(stage, in_order(s)), "p999"@, "max"@),
{
    let o = in_order(s);
    lemma_wait_keys(stage, s);
    lemma_quantiles_grow(s, 500, 950);
    lemma_quantiles_grow(s, 950, 990);
    lemma_quantiles_grow(s, 990, 999);
    lemma_no_more(
        wait_stats(stage, in_order(s)),
        "p50"@,
        "p95"@,
        at_quantile(o, 500) as nat,
        at_quantile(o, 950) as nat,
        1000000,
    );
    lemma_no_more(
        wait_stats(stage, in_order(s)),
        "p95"@,
        "p99"@,
        at_quantile(o, 950) as nat,
        at_quantile(o, 990) as nat,
        1000000,
    );
    lemma_no_more(
        wait_stats(stage, in_order(s)),
        "p99"@,
        "p999"@,
        at_quantile(o, 990) as nat,
        at_quantile(o, 999) as nat,
        1000000,
    );
    lemma_no_more(
        wait_stats(stage, in_order(s)),
        "p999"@,
        "max"@,
        at_quantile(o, 999) as nat,
        greatest(o) as nat,
        1000000,
    );
}

/// Law: of the times of a stage's workers, the block tells in microseconds what the names
/// of its entries say.
pub proof fn law_full_spreads_are_told(s: Seq<u64>)
    requires
        s.len() > 0,
    ensures
        tells_quantile(full_spread(in_order(s)), "p50"@, s, 500, 1000, 0),
        tells_quantile(full_spread(in_order(s)), "p95"@, s, 950, 1000, 0),
        tells_quantile(full_spread(in_order(s)), "p99"@, s, 990, 1000, 0),
        tells_quantile(full_spread(in_order(s)), "p999"@, s, 999, 1000, 0),
        tells_greatest(full_spread(in_order(s)), "max"@, s, 1000, 0),
        told(full_spread(in_order(s)), "mean"@) matches Some(j) && tells_mean(j, s, 1000, 1),
        tells_samples(full_spread(in_order(s)), "samples"@, s, 50000, 1000),
{
    let o = in_order(s);
    law_ordered(s);
    lemma_full_keys(s);
    law_quantiles_are_quantiles(s, 500);
    law_times_are_told_as_they_are(at_quantile(o, 500));
    law_quantiles_are_quantiles(s, 950);
    law_times_are_told_as_they_are(at_quantile(o, 950));
    law_quantiles_are_quantiles(s, 990);
    law_times_are_told_as_they_are(at_quantile(o, 990));
    law_quantiles_are_quantiles(s, 999);
    law_times_are_told_as_they_are(at_quantile(o, 999));
    lemma_quantiles_grow(s, 0, 0);
    law_times_are_told_as_they_are(greatest(o));
    lemma_mean_us(s);
    lemma_samples(s, 50000, 1000);
}

/// Law: and of these quantiles none is less than a lower one.
pub proof fn law_full_spreads_are_in_order(s: Seq<u64>)
    requires
        s.len() > 0,
    ensures
        tells_no_more(full_spread(in_order(s)), "p50"@, "p95"@),
        tells_no_more(full_spread(in_order(s)), "p95"@, "p99"@),
        tells_no_more(full_spread(in_order(s)), "p99"@, "p999"@),
        tells_no_more(full_spread(in_order(s)), "p999"@, "max"@),
{
    let o = in_order(s);
    lemma_full_keys(s);
    lemma_quantiles_grow(s, 500, 950);
    lemma_quantiles_grow(s, 950, 990);
    lemma_quantiles_grow(s, 990, 999);
    lemma_no_more(
        full_spread(in_order(s)),
        "p50"@,
        "p95"@,
        at_quantile(o, 500) as nat,
        at_quantile(o, 950) as nat,
        1000,
    );
    lemma_no_more(
        full_spread(in_order(s)),
        "p95"@,
        "p99"@,
        at_quantile(o, 950) as nat,
        at_quantile(o, 990) as nat,
        1000,
    );
    lemma_no_more(
        full_spread(in_order(s)),
        "p99"@,
        "p999"@,
        at_quantile(o, 990) as nat,
        at_quantile(o, 999) as nat,
        1000,
    );
    lemma_no_more(
        full_spread(in_order(s)),
        "p999"@,
        "max"@,
        at_quantile(o, 999) as nat,
        greatest(o) as nat,
        1000,
    );
}

/// Law: and so does the shorter block.
pub proof fn law_short_spreads_are_told(s: Seq<u64>)
    requires
        s.len() > 0,
    ensures
        tells_quantile(short_spread(in_order(s)), "p50"@, s, 500, 1000, 0),
        tells_quantile(short_spread(in_order(s)), "p95"@, s, 950, 1000, 0),
        tells_quantile(short_spread(in_order(s)), "p99"@, s, 990, 1000, 0),
        tells_greatest(short_spread(in_order(s)), "max"@, s, 1000, 0),
        told(short_spread(in_order(s)), "mean"@) matches Some(j) && tells_mean(j, s, 1000, 1),
        tells_samples(short_spread(in_order(s)), "samples"@, s, 50000, 1000),
{
    let o = in_order(s);
    law_ordered(s);
    lemma_short_keys(s);
    law_quantiles_are_quantiles(s, 500);
    law_times_are_told_as_they_are(at_quantile(o, 500));
    law_quantiles_are_quantiles(s, 950);
    law_times_are_told_as_they_are(at_quantile(o, 950));
    law_quantiles_are_quantiles(s, 990);
    law_times_are_told_as_they_are(at_quantile(o, 990));
    lemma_quantiles_grow(s, 0, 0);
    law_times_are_told_as_they_are(greatest(o));
    lemma_mean_us(s);
    lemma_samples(s, 50000, 1000);
}

/// Law: and of these quantiles none is less than a lower one.
pub proof fn law_short_spreads_are_in_order(s: Seq<u64>)
    requires
        s.len() > 0,
    ensures
        tells_no_more(short_spread(in_order(s)), "p50"@, "p95"@),
        tells_no_more(short_spread(in_order(s)), "p95"@, "p99"@),
        tells_no_more(short_spread(in_order(s)), "p99"@, "max"@),
{
    let o = in_order(s);
    lemma_short_keys(s);
    lemma_quantiles_grow(s, 500, 950);
    lemma_quantiles_grow(s, 950, 990);
    lemma_no_more(
        short_spread(in_order(s)),
        "p50"@,
        "p95"@,
        at_quantile(o, 500) as nat,
        at_quantile(o, 950) as nat,
        1000,
    );
    lemma_no_more(
        short_spread(in_order(s)),
        "p95"@,
        "p99"@,
        at_quantile(o, 950) as nat,
        at_quantile(o, 990) as nat,
        1000,
    );
    lemma_no_more(
        short_spread(in_order(s)),
        "p99"@,
        "max"@,
        at_quantile(o, 990) as nat,
        greatest(o) as nat,
        1000,
    );
}

/// Law: of the latencies of a run, the fields that plots read tell what their names say.
pub proof fn law_plotted_latencies_are_told(s: Seq<u64>)
    requires
        s.len() > 0,
    ensures
        tells_quantile(JsonModel::Object(latency_fields(in_order(s))), "min"@, s, 0, 1000000, 5),
        tells_quantile(JsonModel::Object(latency_fields(in_order(s))), "p50"@, s, 500, 1000000, 5),
        tells_quantile(JsonModel::Object(latency_fields(in_order(s))), "p90"@, s, 900, 1000000, 5),
        tells_quantile(JsonModel::Object(latency_fields(in_order(s))), "p99"@, s, 990, 1000000, 5),
        tells_quantile(JsonModel::Object(latency_fields(in_order(s))), "p999"@, s, 999, 1000000, 5),
        tells_greatest(JsonModel::Object(latency_fields(in_order(s))), "max"@, s, 1000000, 0),
        told(JsonModel::Object(latency_fields(in_order(s))), "e2e_count"@) == Some(JsonModel::Count(s.len())),
        told(
            JsonModel::Object(latency_fields(in_order(s))),
            "mean"@) matches Some(j) && tells_mean(j,
            s,
            1000000,
            5,
        ),
        told(JsonModel::Object(latency_fields(in_order(s))), "cold_start_e2e_ms"@) == told(JsonModel::Object(latency_fields(in_order(s))), "min"@),
{
    let o = in_order(s);
    law_ordered(s);
    lemma_plot_keys(s);
    law_quantiles_are_quantiles(s, 0);
    law_times_are_told_as_they_are(at_quantile(o, 0));
    law_quantiles_are_quantiles(s, 500);
    law_times_are_told_as_they_are(at_quantile(o, 500));
    law_quantiles_are_quantiles(s, 900);
    law_times_are_told_as_they_are(at_quantile(o, 900));
    law_quantiles_are_quantiles(s, 990);
    law_times_are_told_as_they_are(at_quantile(o, 990));
    law_quantiles_are_quantiles(s, 999);
    law_times_are_told_as_they_are(at_quantile(o, 999));
    lemma_quantiles_grow(s, 0, 0);
    law_times_are_told_as_they_are(greatest(o));
    lemma_mean_r5(s);
}

/// Law: and of these quantiles none is less than a lower one.
pub proof fn law_plotted_latencies_are_in_order(s: Seq<u64>)
    requires
        s.len() > 0,
    ensures
        tells_no_more(JsonModel::Object(latency_fields(in_order(s))), "min"@, "p50"@),
        tells_no_more(JsonModel::Object(latency_fields(in_order(s))), "p50"@, "p90"@),
        tells_no_more(JsonModel::Object(latency_fields(in_order(s))), "p90"@, "p99"@),
        tells_no_more(JsonModel::Object(latency_fields(in_order(s))), "p99"@, "p999"@),
{
    let o = in_order(s);
    lemma_plot_keys(s);
    lemma_quantiles_grow(s, 0, 500);
    lemma_rounding_grows(at_quantile(o, 0) as nat, at_quantile(o, 500) as nat, 10);
    lemma_quantiles_grow(s, 500, 900);
    lemma_rounding_grows(at_quantile(o, 500) as nat, at_quantile(o, 900) as nat, 10);
    lemma_quantiles_grow(s, 900, 990);
    lemma_rounding_grows(at_quantile(o, 900) as nat, at_quantile(o, 990) as nat, 10);
    lemma_quantiles_grow(s, 990, 999);
    lemma_rounding_grows(at_quantile(o, 990) as nat, at_quantile(o, 999) as nat, 10);
    lemma_no_more(
        JsonModel::Object(latency_fields(in_order(s))),
        "min"@,
        "p50"@,
        nearest(at_quantile(o, 0) as nat, 10),
        nearest(at_quantile(o, 500) as nat, 10),
        100000,
    );
    lemma_no_more(
        JsonModel::Object(latency_fields(in_order(s))),
        "p50"@,
        "p90"@,
        nearest(at_quantile(o, 500) as nat, 10),
        nearest(at_quantile(o, 900) as nat, 10),
        100000,
    );
    lemma_no_more(
        JsonModel::Object(latency_fields(in_order(s))),
        "p90"@,
        "p99"@,
        nearest(at_quantile(o, 900) as nat, 10),
        nearest(at_quantile(o, 990) as nat, 10),
        100000,
    );
    lemma_no_more(
        JsonModel::Object(latency_fields(in_order(s))),
        "p99"@,
        "p999"@,
        nearest(at_quantile(o, 990) as nat, 10),
        nearest(at_quantile(o, 999) as nat, 10),
        100000,
    );
}

} // verus!
