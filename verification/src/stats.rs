//! Small numeric helpers that the report of a run is made with.

use vstd::prelude::*;

verus! {

/// A value put in its place: behind all that are no greater.
pub open spec fn placed(s: Seq<u64>, x: u64) -> Seq<u64>
    decreases s.len(),
{
    if s.len() == 0 {
        seq![x]
    } else if s.last() <= x {
        s.push(x)
    } else {
        placed(s.drop_last(), x).push(s.last())
    }
}

/// The values in ascending order.
pub open spec fn in_order(s: Seq<u64>) -> Seq<u64>
    decreases s.len(),
{
    if s.len() == 0 {
        Seq::empty()
    } else {
        placed(in_order(s.drop_last()), s.last())
    }
}

proof fn lemma_placed(s: Seq<u64>, x: u64)
    requires
        forall|i: int, j: int| 0 <= i <= j < s.len() ==> s[i] <= s[j],
    ensures
        placed(s, x).len() == s.len() + 1,
        forall|i: int, j: int|
            0 <= i <= j < placed(s, x).len() ==> placed(s, x)[i] <= placed(s, x)[j],
        forall|i: int|
            0 <= i < placed(s, x).len() ==> (#[trigger] placed(s, x)[i]) <= x || (s.len() > 0
                && placed(s, x)[i] <= s.last()),
    decreases s.len(),
{
    if s.len() > 0 {
        if s.last() <= x {
            assert forall|i: int, j: int| 0 <= i <= j < s.push(x).len() implies s.push(x)[i]
                <= s.push(x)[j] by {
                if j == s.len() && i < s.len() {
                    assert(s[i] <= s[s.len() - 1]);
                }
            }
        } else {
            let rest = s.drop_last();
            lemma_placed(rest, x);
            let inner = placed(rest, x);
            let out = placed(s, x);
            assert forall|i: int, j: int| 0 <= i <= j < out.len() implies out[i] <= out[j] by {
                if j == out.len() - 1 && i < j {
                    assert(out[i] == inner[i]);
                    if rest.len() > 0 {
                        assert(s[rest.len() - 1] <= s[s.len() - 1]);
                    }
                } else if j < inner.len() {
                    assert(out[i] == inner[i] && out[j] == inner[j]);
                }
            }
        }
    }
}

proof fn lemma_placed_values(s: Seq<u64>, x: u64)
    ensures
        placed(s, x).to_multiset() == s.to_multiset().insert(x),
    decreases s.len(),
{
    broadcast use vstd::seq_lib::group_to_multiset_ensures;

    if s.len() == 0 {
        assert(seq![x] =~= s.push(x));
    } else if s.last() > x {
        lemma_placed_values(s.drop_last(), x);
        assert(s =~= s.drop_last().push(s.last()));
        assert(placed(s, x).to_multiset() =~= s.to_multiset().insert(x));
    }
}

/// Law: the values in order are the values that there were, each as often as
/// before, and no value comes before a smaller one.
pub proof fn law_ordered(s: Seq<u64>)
    ensures
        in_order(s).len() == s.len(),
        in_order(s).to_multiset() == s.to_multiset(),
        is_ascending(in_order(s)),
    decreases s.len(),
{
    broadcast use vstd::seq_lib::group_to_multiset_ensures;

    if s.len() > 0 {
        law_ordered(s.drop_last());
        lemma_placed(in_order(s.drop_last()), s.last());
        lemma_placed_values(in_order(s.drop_last()), s.last());
        assert(s =~= s.drop_last().push(s.last()));
    } else {
        assert(in_order(s) =~= s);
    }
}

/// No value comes before a smaller one.
pub open spec fn is_ascending(s: Seq<u64>) -> bool {
    forall|i: int, j: int| 0 <= i <= j < s.len() ==> s[i] <= s[j]
}

/// `<[u64]>::sort_unstable`: the same values, each as often as before, in
/// ascending order.
#[verifier::external_body]
fn sort_ascending(values: Vec<u64>) -> (out: Vec<u64>)
    ensures
        is_ascending(out@),
        out@.to_multiset() == values@.to_multiset(),
{
    let mut out = values;
    out.sort_unstable();
    out
}

/// Puts values in order. Equal values cannot be told apart, so there is one such
/// order.
pub(crate) fn sort_values(values: Vec<u64>) -> (out: Vec<u64>)
    ensures
        out@ == in_order(values@),
{
    let ghost given = values@;
    let out = sort_ascending(values);
    proof {
        law_ordered(given);
        let leq = |a: u64, b: u64| a <= b;
        assert(vstd::relations::sorted_by(out@, leq));
        assert(vstd::relations::sorted_by(in_order(given), leq));
        vstd::seq_lib::lemma_sorted_unique(out@, in_order(given), leq);
    }
    out
}

/// Some values, in ascending order.
pub fn sorted(values: &Vec<u64>) -> (out: Vec<u64>)
    ensures
        out@ == in_order(values@),
{
    let mut copy: Vec<u64> = Vec::new();
    let mut i: usize = 0;
    while i < values.len()
        invariant
            i <= values@.len(),
            copy@ == values@.take(i as int),
        decreases values@.len() - i,
    {
        copy.push(values[i]);
        assert(values@.take(i + 1) =~= values@.take(i as int).push(values@[i as int]));
        i = i + 1;
    }
    assert(values@.take(i as int) =~= values@);
    sort_values(copy)
}

/// The rank of a quantile among `n` values: that share of them, rounded up, and
/// the first one at least. The quantile is in thousandths.
pub open spec fn nearest_rank(n: nat, milli: nat) -> nat {
    let rank = (n * milli + 999) / 1000;
    if rank < 1 {
        1
    } else {
        rank
    }
}

/// The value at a quantile of some ordered values: by nearest rank, and zero
/// where there are none.
pub open spec fn at_quantile(s: Seq<u64>, milli: nat) -> u64 {
    if s.len() == 0 {
        0
    } else {
        s[nearest_rank(s.len(), milli) - 1]
    }
}

/// The value at a quantile of some ordered values.
pub fn pct(s: &Vec<u64>, milli: u64) -> (v: u64)
    requires
        milli <= 1000,
    ensures
        v == at_quantile(s@, milli as nat),
{
    let n: usize = s.len();
    if n == 0 {
        return 0;
    }
    proof {
        lemma_rank_is_there(n as nat, milli as nat);
        assert(n * milli <= 0xffff_ffff_ffff_ffff * 1000) by (nonlinear_arith)
            requires
                n <= 0xffff_ffff_ffff_ffff,
                milli <= 1000,
                n >= 0,
                milli >= 0,
        ;
    }
    let rank: u128 = (n as u128 * milli as u128 + 999) / 1000;
    if rank < 1 {
        s[0]
    } else {
        s[(rank - 1) as usize]
    }
}

proof fn lemma_rank_is_there(n: nat, milli: nat)
    requires
        n > 0,
        milli <= 1000,
    ensures
        1 <= nearest_rank(n, milli) <= n,
{
    assert(n * milli <= n * 1000) by (nonlinear_arith)
        requires
            milli <= 1000,
    ;
}

/// Law: the rank of a quantile is the least one at which the asked share of the
/// values is reached, and the value at the quantile is the one of that rank.
pub proof fn law_quantile_has_its_share(s: Seq<u64>, milli: nat)
    requires
        s.len() > 0,
        milli <= 1000,
    ensures
        1 <= nearest_rank(s.len(), milli) <= s.len(),
        nearest_rank(s.len(), milli) * 1000 >= s.len() * milli,
        forall|k: nat| #![trigger (k * 1000)] 1 <= k && k * 1000 >= s.len() * milli
            ==> nearest_rank(s.len(), milli) <= k,
        at_quantile(s, milli) == s[nearest_rank(s.len(), milli) - 1],
{
    lemma_rank_is_there(s.len(), milli);
}

/// The greatest of some ordered values; zero where there are none.
pub open spec fn greatest(s: Seq<u64>) -> u64 {
    if s.len() == 0 {
        0
    } else {
        s.last()
    }
}

/// The greatest of some ordered values.
pub fn last_or_zero(s: &Vec<u64>) -> (v: u64)
    ensures
        v == greatest(s@),
{
    if s.len() == 0 {
        0
    } else {
        s[s.len() - 1]
    }
}

/// The sum of some values.
pub open spec fn sum_of(s: Seq<u64>) -> nat
    decreases s.len(),
{
    if s.len() == 0 {
        0
    } else {
        sum_of(s.drop_last()) + s.last() as nat
    }
}

/// The sum of some values.
pub fn sum(s: &Vec<u64>) -> (total: u128)
    ensures
        total == sum_of(s@),
        total <= s@.len() * 0xffff_ffff_ffff_ffff,
{
    let n: usize = s.len();
    let mut total: u128 = 0;
    let mut i: usize = 0;
    assert(s@.take(0) =~= Seq::<u64>::empty());
    while i < n
        invariant
            i <= n == s@.len(),
            n <= 0xffff_ffff_ffff_ffff,
            total == sum_of(s@.take(i as int)),
            total <= i * 0xffff_ffff_ffff_ffff,
        decreases n - i,
    {
        assert(s@.take(i + 1).drop_last() =~= s@.take(i as int));
        total = total + s[i] as u128;
        i = i + 1;
    }
    assert(s@.take(i as int) =~= s@);
    total
}

/// The quotient rounded to the nearest whole number, up where two are equally
/// near.
pub open spec fn nearest(num: nat, den: nat) -> nat {
    (2 * num + den) / (2 * den)
}

/// The quotient rounded to the nearest whole number.
pub fn round_half_up(num: u128, den: u128) -> (q: u128)
    requires
        0 < den <= u128::MAX / 4,
        num <= u128::MAX / 4,
    ensures
        q == nearest(num as nat, den as nat),
        q <= num + 1,
{
    let q: u128 = (2 * num + den) / (2 * den);
    proof {
        let a = (2 * num + den) as int;
        let b = (2 * den) as int;
        vstd::arithmetic::div_mod::lemma_fundamental_div_mod(a, b);
        assert(q <= num + 1) by (nonlinear_arith)
            requires
                a == b * q + a % b,
                a % b >= 0,
                a == 2 * num + den,
                b == 2 * den,
                den >= 1,
                num >= 0,
                q >= 0,
        ;
    }
    q
}

/// How many values one of which is kept: all, where there are no more than
/// `cap`.
pub open spec fn thinning(n: nat, cap: nat) -> nat {
    if n <= cap {
        1
    } else {
        ((n + cap - 1) / cap as int) as nat
    }
}

/// How many values one of which is kept.
pub fn subsample_rate(n: usize, cap: usize) -> (k: usize)
    requires
        cap > 0,
    ensures
        k == thinning(n as nat, cap as nat),
        k >= 1,
{
    if n <= cap {
        return 1;
    }
    let k: usize = (n - 1) / cap + 1;
    proof {
        lemma_ceiling(n as int, cap as int);
    }
    k
}

pub(crate) proof fn lemma_ceiling(n: int, cap: int)
    requires
        n > cap > 0,
    ensures
        (n + cap - 1) / cap == (n - 1) / cap + 1,
        1 <= (n - 1) / cap < n,
{
    assert((n - 1 + cap) / cap == (n - 1) / cap + 1) by {
        vstd::arithmetic::div_mod::lemma_div_plus_one(n - 1, cap);
    }
    assert(1 <= (n - 1) / cap) by (nonlinear_arith)
        requires
            n - 1 >= cap,
            cap > 0,
    ;
    assert((n - 1) / cap < n) by (nonlinear_arith)
        requires
            n - 1 >= cap,
            cap > 0,
    ;
}

/// Every so many of some values, so that no more than `cap` are left.
pub open spec fn thinned<T>(s: Seq<T>, cap: nat) -> Seq<T> {
    let k = thinning(s.len(), cap);
    Seq::new(
        ((s.len() + k - 1) / k as int) as nat,
        |i: int| s[i * k],
    )
}

/// Law: thinning leaves no more values than it may.
pub proof fn law_thinned_is_bounded<T>(s: Seq<T>, cap: nat)
    requires
        cap > 0,
    ensures
        thinned(s, cap).len() <= cap,
{
    let n = s.len() as int;
    let c = cap as int;
    let k = thinning(s.len(), cap) as int;
    if n > c {
        lemma_ceiling(n, c);
        let m = (n + k - 1) / k;
        vstd::arithmetic::div_mod::lemma_fundamental_div_mod(n + c - 1, c);
        vstd::arithmetic::div_mod::lemma_fundamental_div_mod(n + k - 1, k);
        assert(c * k >= n) by (nonlinear_arith)
            requires
                n + c - 1 == c * k + (n + c - 1) % c,
                (n + c - 1) % c <= c - 1,
        ;
        assert(m <= c) by (nonlinear_arith)
            requires
                n + k - 1 == k * m + (n + k - 1) % k,
                (n + k - 1) % k >= 0,
                c * k >= n,
                k >= 1,
        ;
    } else {
        assert((n + 0) / 1 == n);
    }
}

/// Every so many of some values, so that no more than `cap` are left.
pub fn subsample(s: &Vec<u64>, cap: usize) -> (out: Vec<u64>)
    requires
        cap > 0,
    ensures
        out@ == thinned(s@, cap as nat),
{
    let n: usize = s.len();
    let k: usize = subsample_rate(n, cap);
    let ghost want = thinned(s@, cap as nat);
    let mut out: Vec<u64> = Vec::new();
    let mut at: usize = 0;
    let mut done = n == 0;
    proof {
        lemma_steps(n as int, k as int, 0);
        assert(0int * k == 0);
    }
    while !done
        invariant
            n == s@.len(),
            k == thinning(n as nat, cap as nat),
            k >= 1,
            want == thinned(s@, cap as nat),
            out@.len() <= want.len(),
            forall|j: int| 0 <= j < out@.len() ==> #[trigger] out@[j] == want[j],
            done ==> out@.len() == want.len(),
            !done ==> at == out@.len() * k && at < n && out@.len() < want.len(),
        decreases
            (if done {
                0int
            } else {
                n - at
            }),
    {
        let ghost i = out@.len() as int;
        assert(want[i] == s@[i * k]);
        out.push(s[at]);
        proof {
            lemma_steps(n as int, k as int, i + 1);
            assert((i + 1) * k == i * k + k) by (nonlinear_arith);
        }
        if n - at <= k {
            done = true;
        } else {
            at = at + k;
        }
    }
    assert(out@ =~= want);
    out
}

/// The `i`-th step of `k` is within `n` just where there are more than `i`.
pub proof fn lemma_steps(n: int, k: int, i: int)
    requires
        n >= 0,
        k >= 1,
        i >= 0,
    ensures
        i * k < n <==> i < (n + k - 1) / k,
{
    let m = (n + k - 1) / k;
    vstd::arithmetic::div_mod::lemma_fundamental_div_mod(n + k - 1, k);
    let r = (n + k - 1) % k;
    if i < m {
        assert(i * k < n) by (nonlinear_arith)
            requires
                n + k - 1 == k * m + r,
                0 <= r < k,
                i + 1 <= m,
                k >= 1,
        ;
    } else {
        assert(i * k >= n) by (nonlinear_arith)
            requires
                n + k - 1 == k * m + r,
                0 <= r < k,
                i >= m,
                k >= 1,
        ;
    }
}

/// A text comes before another in the order of their characters.
pub open spec fn text_less(a: Seq<char>, b: Seq<char>) -> bool
    decreases a.len(),
{
    if b.len() == 0 {
        false
    } else if a.len() == 0 {
        true
    } else if a[0] == b[0] {
        text_less(a.drop_first(), b.drop_first())
    } else {
        a[0] < b[0]
    }
}

/// Whether a text comes before another.
pub fn comes_before(a: &str, b: &str) -> (r: bool)
    ensures
        r == text_less(a@, b@),
{
    let x = crate::text::chars_of(a);
    let y = crate::text::chars_of(b);
    let mut i: usize = 0;
    assert(a@.skip(0) =~= a@);
    assert(b@.skip(0) =~= b@);
    while i < x.len() && i < y.len() && x[i] == y[i]
        invariant
            x@ == a@,
            y@ == b@,
            i <= x@.len(),
            i <= y@.len(),
            text_less(a@, b@) == text_less(a@.skip(i as int), b@.skip(i as int)),
        decreases x@.len() - i,
    {
        assert(a@.skip(i as int).drop_first() =~= a@.skip(i + 1));
        assert(b@.skip(i as int).drop_first() =~= b@.skip(i + 1));
        i = i + 1;
    }
    if i == y.len() {
        false
    } else if i == x.len() {
        true
    } else {
        x[i] < y[i]
    }
}

} // verus!
