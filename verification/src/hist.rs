//! Log-spaced histograms over microseconds.
//!
//! A histogram covers 24 octaves from one microsecond on, four sub-buckets to
//! an octave, with a saturating top bucket: bounded, merged by adding bucket
//! to bucket, and read by one scan.

use vstd::arithmetic::power2::{lemma_pow2_pos, lemma_pow2_unfold, pow2};
use vstd::prelude::*;

verus! {

/// Buckets of a [`Hist`].
pub const HIST_BUCKETS: usize = 96;

/// Sub-buckets of an octave.
pub const SUB: u32 = 4;

/// The octaves below this one are not divided: a whole microsecond count has
/// no bits left there under its leading one.
pub const SUB_SHIFT: u32 = 2;

/// Octaves covered, from one microsecond on.
pub const OCTAVES: u32 = 24;

/// The largest `e` such that two to the `e` is no more than `n`.
pub open spec fn floor_log2(n: nat) -> nat
    decreases n,
{
    if n <= 1 {
        0
    } else {
        1 + floor_log2(n / 2)
    }
}

/// The bucket a value of `us` microseconds falls in: four to an octave, the
/// sub-bucket being the quarter of the octave it lies in.
pub open spec fn bucket_index(us: nat) -> nat {
    if us == 0 {
        0
    } else {
        let octave = floor_log2(us);
        if octave >= OCTAVES {
            (HIST_BUCKETS - 1) as nat
        } else if octave < SUB_SHIFT {
            octave * SUB as nat
        } else {
            (octave * SUB + us / pow2((octave - SUB_SHIFT) as nat) - SUB) as nat
        }
    }
}

pub proof fn lemma_floor_log2(n: nat)
    requires
        n >= 1,
    ensures
        pow2(floor_log2(n)) <= n < 2 * pow2(floor_log2(n)),
    decreases n,
{
    if n == 1 {
        vstd::arithmetic::power2::lemma2_to64();
    } else {
        lemma_floor_log2(n / 2);
        lemma_pow2_unfold(floor_log2(n));
    }
}

proof fn lemma_floor_log2_monotone(a: nat, b: nat)
    requires
        a <= b,
    ensures
        floor_log2(a) <= floor_log2(b),
    decreases b,
{
    if a > 1 {
        lemma_floor_log2_monotone(a / 2, b / 2);
    }
}

proof fn lemma_leading_zeros(n: u64)
    requires
        n >= 1,
    ensures
        63 - vstd::std_specs::bits::u64_leading_zeros(n) == floor_log2(n as nat),
        floor_log2(n as nat) < 64,
    decreases n,
{
    reveal_with_fuel(vstd::std_specs::bits::u64_leading_zeros, 3);
    vstd::std_specs::bits::axiom_u64_leading_zeros(n);
    if n > 1 {
        lemma_leading_zeros(n / 2);
    }
}

/// The quarter of its octave that a value lies in is one of four.
proof fn lemma_quarter(us: nat)
    requires
        us >= 1,
        floor_log2(us) >= SUB_SHIFT,
    ensures
        SUB <= us / pow2((floor_log2(us) - SUB_SHIFT) as nat) < 2 * SUB,
{
    let o = floor_log2(us);
    let unit = pow2((o - 2) as nat);
    lemma_floor_log2(us);
    lemma_pow2_unfold(o);
    lemma_pow2_unfold((o - 1) as nat);
    lemma_pow2_pos((o - 2) as nat);
    assert(pow2(o) == 4 * unit);
    let q = us / unit;
    let r = us % unit;
    vstd::arithmetic::div_mod::lemma_fundamental_div_mod(us as int, unit as int);
    assert(q >= 4) by (nonlinear_arith)
        requires
            us == unit * q + r,
            us >= 4 * unit,
            0 <= r < unit,
            unit > 0,
    ;
    assert(q < 8) by (nonlinear_arith)
        requires
            us == unit * q + r,
            us < 8 * unit,
            0 <= r < unit,
            unit > 0,
    ;
}

/// Law: a histogram bucket never goes backwards as values grow.
pub proof fn law_bucket_is_monotonic(a: nat, b: nat)
    requires
        a <= b,
    ensures
        bucket_index(a) <= bucket_index(b),
{
    if a >= 1 {
        lemma_floor_log2_monotone(a, b);
        let oa = floor_log2(a);
        let ob = floor_log2(b);
        if oa >= SUB_SHIFT {
            lemma_quarter(a);
        }
        if ob >= SUB_SHIFT {
            lemma_quarter(b);
        }
        if oa == ob && oa >= SUB_SHIFT {
            lemma_pow2_pos((oa - SUB_SHIFT) as nat);
            vstd::arithmetic::div_mod::lemma_div_is_ordered(
                a as int,
                b as int,
                pow2((oa - SUB_SHIFT) as nat) as int,
            );
        }
    }
}

/// Law: every value has a bucket, the largest of them the last one.
pub proof fn law_bucket_is_bounded(us: nat)
    ensures
        bucket_index(us) < HIST_BUCKETS,
        us >= pow2(OCTAVES as nat) ==> bucket_index(us) == HIST_BUCKETS - 1,
{
    lemma_pow2_pos(OCTAVES as nat);
    if us >= 1 {
        lemma_floor_log2(us);
        if floor_log2(us) >= SUB_SHIFT {
            lemma_quarter(us);
        }
        if us >= pow2(OCTAVES as nat) && floor_log2(us) < OCTAVES {
            if floor_log2(us) + 1 < OCTAVES {
                vstd::arithmetic::power2::lemma_pow2_strictly_increases(
                    floor_log2(us) + 1,
                    OCTAVES as nat,
                );
            }
            lemma_pow2_unfold(floor_log2(us) + 1);
        }
    }
}

/// Bucket index for a microsecond value. Everything under one microsecond
/// falls in the first one, which is a real measurement and not an error.
pub fn bucket_of(us: u64) -> (idx: usize)
    ensures
        idx == bucket_index(us as nat),
        idx < HIST_BUCKETS,
{
    proof {
        law_bucket_is_bounded(us as nat);
    }
    if us < 1 {
        return 0;
    }
    proof {
        lemma_leading_zeros(us);
    }
    let octave: u32 = 63 - us.leading_zeros();
    if octave >= OCTAVES {
        return HIST_BUCKETS - 1;
    }
    let sub: u32 = if octave >= SUB_SHIFT {
        let shift: u32 = octave - SUB_SHIFT;
        let top: u64 = us >> shift;
        proof {
            vstd::bits::lemma_u64_shr_is_div(us, shift as u64);
            assert(us >> shift == us >> (shift as u64)) by (bit_vector);
            lemma_quarter(us as nat);
            assert(top == us as nat / pow2((octave - SUB_SHIFT) as nat));
            assert(4 <= top < 8 ==> (top as u32) & 3u32 == top - 4) by (bit_vector);
        }
        (top as u32) & (SUB - 1)
    } else {
        0
    };
    (octave * SUB + sub) as usize
}

/// Twice the value that stands for bucket `idx`, in microseconds: the middle
/// of the range the bucket covers, counted in half microseconds so that it is
/// a whole number.
pub open spec fn bucket_middle(idx: nat) -> nat {
    let octave = idx / SUB as nat;
    let sub = idx % SUB as nat;
    if octave == 0 {
        // from 0 to 2 microseconds
        2
    } else if octave < SUB_SHIFT {
        // from one power of two to the next
        3 * pow2(octave)
    } else {
        // from one quarter of the octave to the next
        pow2((octave - SUB_SHIFT) as nat) * (2 * sub + 9)
    }
}

/// How far apart two numbers are.
pub open spec fn distance(a: nat, b: nat) -> nat {
    if a < b {
        (b - a) as nat
    } else {
        (a - b) as nat
    }
}

/// Law: from 4 microseconds to the top of the range, the value that stands for a
/// measurement's bucket is off by an eighth of the measurement at most, which is
/// less than the 19 % that four steps to an octave allow. Both are counted in
/// half microseconds.
pub proof fn law_bucket_error_is_bounded(us: nat)
    requires
        4 <= us < pow2(OCTAVES as nat),
    ensures
        8 * distance(bucket_middle(bucket_index(us)), 2 * us) <= 2 * us,
        100 * distance(bucket_middle(bucket_index(us)), 2 * us) <= 19 * (2 * us),
{
    let o = floor_log2(us);
    lemma_floor_log2(us);
    vstd::arithmetic::power2::lemma2_to64();
    if o < SUB_SHIFT {
        if o + 1 < SUB_SHIFT {
            vstd::arithmetic::power2::lemma_pow2_strictly_increases(o + 1, SUB_SHIFT as nat);
        }
        lemma_pow2_unfold(o + 1);
    }
    if o >= OCTAVES {
        if o > OCTAVES {
            vstd::arithmetic::power2::lemma_pow2_strictly_increases(OCTAVES as nat, o);
        }
    }
    lemma_quarter(us);
    let unit = pow2((o - 2) as nat);
    lemma_pow2_pos((o - 2) as nat);
    let q = us / unit;
    let r = us % unit;
    vstd::arithmetic::div_mod::lemma_fundamental_div_mod(us as int, unit as int);
    let idx = bucket_index(us);
    assert(idx == 4 * o + q - 4);
    assert(idx / 4 == o && idx % 4 == q - 4);
    assert(bucket_middle(idx) == unit * (2 * (q - 4) + 9));
    assert(distance(unit * (2 * q + 1), 2 * us) <= unit && 4 * unit <= us) by (nonlinear_arith)
        requires
            us == unit * q + r,
            0 <= r < unit,
            4 <= q,
            distance(unit * (2 * q + 1), 2 * us) == (if unit * (2 * q + 1) < 2 * us {
                2 * us - unit * (2 * q + 1)
            } else {
                unit * (2 * q + 1) - 2 * us
            }),
    ;
}

fn bucket_value(idx: usize) -> (half_us: u64)
    requires
        idx < HIST_BUCKETS,
    ensures
        half_us == bucket_middle(idx as nat),
        half_us < 0x400_0000,
{
    let octave: u32 = idx as u32 / SUB;
    let sub: u32 = idx as u32 % SUB;
    proof {
        vstd::arithmetic::power2::lemma2_to64();
    }
    if octave == 0 {
        2
    } else if octave < SUB_SHIFT {
        6
    } else {
        let shift: u64 = (octave - SUB_SHIFT) as u64;
        proof {
            assert(shift < 22);
            vstd::bits::lemma_u64_pow2_no_overflow(shift as nat);
            vstd::bits::lemma_u64_shl_is_mul(1, shift);
            if shift < 21 {
                vstd::arithmetic::power2::lemma_pow2_strictly_increases(shift as nat, 21);
            }
            assert(pow2(21) == 0x20_0000);
            assert(pow2(shift as nat) * (2 * sub + 9) <= 0x20_0000 * 15) by (nonlinear_arith)
                requires
                    pow2(shift as nat) <= 0x20_0000,
                    sub < 4,
            ;
        }
        (1u64 << shift) * (2 * sub as u64 + 9)
    }
}

/// The sum of the counts.
pub open spec fn sum_counts(counts: Seq<u32>) -> nat
    decreases counts.len(),
{
    if counts.len() == 0 {
        0
    } else {
        sum_counts(counts.drop_last()) + counts.last() as nat
    }
}

/// Histogram of microsecond values.
#[derive(Clone, Copy, Debug)]
pub struct Hist {
    pub counts: [u32; HIST_BUCKETS],
}

impl View for Hist {
    type V = Seq<u32>;

    open spec fn view(&self) -> Seq<u32> {
        self.counts@
    }
}

/// The histogram that has seen nothing.
pub open spec fn empty_counts() -> Seq<u32> {
    Seq::new(HIST_BUCKETS as nat, |i: int| 0u32)
}

/// Bucket by bucket sum, saturating.
pub open spec fn merged(a: Seq<u32>, b: Seq<u32>) -> Seq<u32> {
    Seq::new(
        HIST_BUCKETS as nat,
        |i: int|
            if a[i] + b[i] > u32::MAX {
                u32::MAX
            } else {
                (a[i] + b[i]) as u32
            },
    )
}

/// Bucket by bucket difference, not below zero.
pub open spec fn difference(cur: Seq<u32>, prev: Seq<u32>) -> Seq<u32> {
    Seq::new(
        HIST_BUCKETS as nat,
        |i: int|
            if cur[i] < prev[i] {
                0
            } else {
                (cur[i] - prev[i]) as u32
            },
    )
}

/// The rank that a quantile of `q_milli` thousandths asks for among `total`
/// observations: the share of them, rounded up, and the first one at least.
pub open spec fn quantile_rank(q_milli: nat, total: nat) -> nat {
    let q = if q_milli > 1000 {
        1000
    } else {
        q_milli
    };
    let rank = (q * total + 999) / 1000;
    if rank < 1 {
        1
    } else {
        rank
    }
}

/// Bucket `idx` is where the observation of that rank lies, counted from the
/// smallest one.
pub open spec fn holds_rank(counts: Seq<u32>, rank: nat, idx: int) -> bool {
    &&& 0 <= idx < counts.len()
    &&& sum_counts(counts.take(idx)) < rank
    &&& rank <= sum_counts(counts.take(idx + 1))
}

/// The quantile of a histogram, in half microseconds.
pub open spec fn quantile_half_us(counts: Seq<u32>, q_milli: nat) -> nat {
    let total = sum_counts(counts);
    if total == 0 {
        0
    } else {
        bucket_middle(
            (choose|idx: int| holds_rank(counts, quantile_rank(q_milli, total), idx)) as nat,
        )
    }
}

proof fn lemma_sum_step(counts: Seq<u32>, i: int)
    requires
        0 <= i < counts.len(),
    ensures
        sum_counts(counts.take(i + 1)) == sum_counts(counts.take(i)) + counts[i],
{
    assert(counts.take(i + 1).drop_last() =~= counts.take(i));
}

proof fn lemma_sum_monotone(counts: Seq<u32>, i: int, j: int)
    requires
        0 <= i <= j <= counts.len(),
    ensures
        sum_counts(counts.take(i)) <= sum_counts(counts.take(j)),
    decreases j - i,
{
    if i < j {
        lemma_sum_monotone(counts, i, j - 1);
        lemma_sum_step(counts, j - 1);
    }
}

proof fn lemma_rank_is_unique(counts: Seq<u32>, rank: nat, a: int, b: int)
    requires
        holds_rank(counts, rank, a),
        holds_rank(counts, rank, b),
    ensures
        a == b,
{
    if a < b {
        lemma_sum_monotone(counts, a + 1, b);
    } else if b < a {
        lemma_sum_monotone(counts, b + 1, a);
    }
}

impl Default for Hist {
    fn default() -> (h: Hist)
        ensures
            h@ == empty_counts(),
    {
        Hist { counts: [0u32;96] }
    }
}

impl Hist {
    pub fn observe_us(&mut self, us: u64)
        requires
            old(self)@[bucket_index(us as nat) as int] < u32::MAX,
        ensures
            final(self)@ == old(self)@.update(
                bucket_index(us as nat) as int,
                (old(self)@[bucket_index(us as nat) as int] + 1) as u32,
            ),
    {
        let idx: usize = bucket_of(us);
        let count: u32 = self.counts[idx];
        self.counts[idx] = count + 1;
    }

    pub fn total(&self) -> (n: u64)
        ensures
            n == sum_counts(self@),
            n <= HIST_BUCKETS * u32::MAX,
    {
        let mut n: u64 = 0;
        let mut i: usize = 0;
        while i < HIST_BUCKETS
            invariant
                i <= HIST_BUCKETS,
                n == sum_counts(self@.take(i as int)),
                n <= i * u32::MAX,
            decreases HIST_BUCKETS - i,
        {
            proof {
                lemma_sum_step(self@, i as int);
            }
            n = n + self.counts[i] as u64;
            i = i + 1;
        }
        assert(self@.take(HIST_BUCKETS as int) =~= self@);
        n
    }

    pub fn is_empty(&self) -> (b: bool)
        ensures
            b == (self@ == empty_counts()),
    {
        let mut i: usize = 0;
        while i < HIST_BUCKETS
            invariant
                i <= HIST_BUCKETS,
                forall|k: int| 0 <= k < i ==> self@[k] == 0,
            decreases HIST_BUCKETS - i,
        {
            if self.counts[i] != 0 {
                assert(self@[i as int] != empty_counts()[i as int]);
                return false;
            }
            i = i + 1;
        }
        assert(self@ =~= empty_counts());
        true
    }

    pub fn clear(&mut self)
        ensures
            final(self)@ == empty_counts(),
    {
        self.counts = [0u32;96];
    }

    /// Adds the other histogram bucket by bucket, which makes a query over
    /// many seconds cheap: merge, then scan once.
    pub fn merge(&mut self, other: &Hist)
        ensures
            final(self)@ == merged(old(self)@, other@),
    {
        let mut i: usize = 0;
        while i < HIST_BUCKETS
            invariant
                i <= HIST_BUCKETS,
                forall|k: int| 0 <= k < i ==> self@[k] == merged(old(self)@, other@)[k],
                forall|k: int| i <= k < HIST_BUCKETS ==> self@[k] == old(self)@[k],
            decreases HIST_BUCKETS - i,
        {
            let mine: u32 = self.counts[i];
            let theirs: u32 = other.counts[i];
            self.counts[i] = mine.saturating_add(theirs);
            assert(self@[i as int] == merged(old(self)@, other@)[i as int]);
            i = i + 1;
        }
        assert(self@ =~= merged(old(self)@, other@));
    }

    /// Quantile in half microseconds, of a share given in thousandths. Zero
    /// for an empty histogram: nothing observed is nothing to act on.
    pub fn quantile(&self, q_milli: u64) -> (half_us: u64)
        ensures
            half_us == quantile_half_us(self@, q_milli as nat),
            half_us < 0x400_0000,
    {
        let total: u64 = self.total();
        if total == 0 {
            return 0;
        }
        let q: u64 = if q_milli > 1000 {
            1000
        } else {
            q_milli
        };
        assert(q * total <= 1000 * total) by (nonlinear_arith)
            requires
                q <= 1000,
        ;
        let share: u64 = (q * total + 999) / 1000;
        let rank: u64 = if share < 1 {
            1
        } else {
            share
        };
        assert(rank == quantile_rank(q_milli as nat, total as nat));
        assert(rank <= total);
        let mut cum: u64 = 0;
        let mut i: usize = 0;
        while i < HIST_BUCKETS
            invariant
                i <= HIST_BUCKETS,
                cum == sum_counts(self@.take(i as int)),
                cum <= i * u32::MAX,
                cum < rank,
                rank == quantile_rank(q_milli as nat, total as nat),
                total == sum_counts(self@),
                total > 0,
            decreases HIST_BUCKETS - i,
        {
            proof {
                lemma_sum_step(self@, i as int);
            }
            cum = cum + self.counts[i] as u64;
            if cum >= rank {
                proof {
                    assert(holds_rank(self@, rank as nat, i as int));
                    let there = choose|idx: int| holds_rank(self@, rank as nat, idx);
                    lemma_rank_is_unique(self@, rank as nat, i as int, there);
                }
                return bucket_value(i);
            }
            i = i + 1;
        }
        assert(self@.take(HIST_BUCKETS as int) =~= self@);
        assert(false);
        0
    }
}

/// What landed between two readings of one growing histogram.
pub fn hist_delta(cur: &Hist, prev: &Hist) -> (out: Hist)
    ensures
        out@ == difference(cur@, prev@),
{
    let mut out = Hist::default();
    let mut i: usize = 0;
    while i < HIST_BUCKETS
        invariant
            i <= HIST_BUCKETS,
            forall|k: int| 0 <= k < i ==> out@[k] == difference(cur@, prev@)[k],
        decreases HIST_BUCKETS - i,
    {
        let ghost was = out@;
        let now: u32 = cur.counts[i];
        let earlier: u32 = prev.counts[i];
        out.counts[i] = now.saturating_sub(earlier);
        assert(out@ =~= was.update(i as int, out@[i as int]));
        assert(out@[i as int] == difference(cur@, prev@)[i as int]);
        i = i + 1;
    }
    assert(out@ =~= difference(cur@, prev@));
    out
}

/// Law: the difference of two readings is what was merged in between them, as
/// long as no bucket has run full.
pub proof fn law_delta_undoes_merge(before: Seq<u32>, added: Seq<u32>)
    requires
        before.len() == HIST_BUCKETS,
        added.len() == HIST_BUCKETS,
        forall|i: int| 0 <= i < HIST_BUCKETS ==> #[trigger] before[i] + added[i] <= u32::MAX,
    ensures
        difference(merged(before, added), before) == added,
{
    assert forall|i: int| 0 <= i < HIST_BUCKETS implies difference(
        merged(before, added),
        before,
    )[i] == added[i] by {
        assert(before[i] + added[i] <= u32::MAX);
    }
    assert(difference(merged(before, added), before) =~= added);
}

/// Law: merging adds the totals, as long as no bucket has run full.
pub proof fn law_merge_adds_totals(a: Seq<u32>, b: Seq<u32>)
    requires
        a.len() == HIST_BUCKETS,
        b.len() == HIST_BUCKETS,
        forall|i: int| 0 <= i < HIST_BUCKETS ==> #[trigger] a[i] + b[i] <= u32::MAX,
    ensures
        sum_counts(merged(a, b)) == sum_counts(a) + sum_counts(b),
{
    lemma_merge_adds_prefix(a, b, HIST_BUCKETS as int);
    assert(merged(a, b).take(HIST_BUCKETS as int) =~= merged(a, b));
    assert(a.take(HIST_BUCKETS as int) =~= a);
    assert(b.take(HIST_BUCKETS as int) =~= b);
}

proof fn lemma_merge_adds_prefix(a: Seq<u32>, b: Seq<u32>, n: int)
    requires
        a.len() == HIST_BUCKETS,
        b.len() == HIST_BUCKETS,
        0 <= n <= HIST_BUCKETS,
        forall|i: int| 0 <= i < HIST_BUCKETS ==> #[trigger] a[i] + b[i] <= u32::MAX,
    ensures
        sum_counts(merged(a, b).take(n)) == sum_counts(a.take(n)) + sum_counts(b.take(n)),
    decreases n,
{
    if n > 0 {
        lemma_merge_adds_prefix(a, b, n - 1);
        lemma_sum_step(merged(a, b), n - 1);
        lemma_sum_step(a, n - 1);
        lemma_sum_step(b, n - 1);
        assert(a[n - 1] + b[n - 1] <= u32::MAX);
    }
}

/// How many of the observations fall in bucket `idx`.
pub open spec fn count_in(raw: Seq<u64>, idx: int) -> nat
    decreases raw.len(),
{
    if raw.len() == 0 {
        0
    } else {
        count_in(raw.drop_last(), idx) + if bucket_index(raw.last() as nat) == idx {
            1nat
        } else {
            0nat
        }
    }
}

/// How many of the observations fall in a bucket below `idx`.
spec fn count_below(raw: Seq<u64>, idx: int) -> nat
    decreases raw.len(),
{
    if raw.len() == 0 {
        0
    } else {
        count_below(raw.drop_last(), idx) + if bucket_index(raw.last() as nat) < idx {
            1nat
        } else {
            0nat
        }
    }
}

proof fn lemma_count_below_step(raw: Seq<u64>, idx: int)
    ensures
        count_below(raw, idx + 1) == count_below(raw, idx) + count_in(raw, idx),
    decreases raw.len(),
{
    if raw.len() > 0 {
        lemma_count_below_step(raw.drop_last(), idx);
    }
}

proof fn lemma_count_below_zero(raw: Seq<u64>)
    ensures
        count_below(raw, 0) == 0,
    decreases raw.len(),
{
    if raw.len() > 0 {
        lemma_count_below_zero(raw.drop_last());
    }
}

proof fn lemma_prefix_counts(counts: Seq<u32>, raw: Seq<u64>, n: int)
    requires
        counts.len() == HIST_BUCKETS,
        forall|i: int| 0 <= i < HIST_BUCKETS ==> #[trigger] counts[i] == count_in(raw, i),
        0 <= n <= HIST_BUCKETS,
    ensures
        sum_counts(counts.take(n)) == count_below(raw, n),
    decreases n,
{
    if n == 0 {
        lemma_count_below_zero(raw);
    } else {
        lemma_prefix_counts(counts, raw, n - 1);
        lemma_sum_step(counts, n - 1);
        lemma_count_below_step(raw, n - 1);
        assert(counts[n - 1] == count_in(raw, n - 1));
    }
}

/// Of sorted observations, those below a bucket come before any in it.
proof fn lemma_sorted_split(raw: Seq<u64>, idx: int, at: int)
    requires
        forall|i: int, j: int| 0 <= i <= j < raw.len() ==> raw[i] <= raw[j],
        0 <= at <= raw.len(),
        forall|i: int| 0 <= i < at ==> bucket_index(#[trigger] raw[i] as nat) < idx,
        forall|i: int| at <= i < raw.len() ==> bucket_index(#[trigger] raw[i] as nat) >= idx,
    ensures
        count_below(raw, idx) == at,
    decreases raw.len(),
{
    if raw.len() > 0 {
        let rest = raw.drop_last();
        if at == raw.len() {
            lemma_sorted_split(rest, idx, at - 1);
            assert(bucket_index(raw[raw.len() - 1] as nat) < idx);
        } else {
            lemma_sorted_split(rest, idx, at);
            assert(bucket_index(raw[raw.len() - 1] as nat) >= idx);
        }
    }
}

/// The number of leading observations in buckets below `idx`.
spec fn split_at(raw: Seq<u64>, idx: int) -> nat
    decreases raw.len(),
{
    if raw.len() == 0 {
        0
    } else if bucket_index(raw.last() as nat) < idx {
        raw.len()
    } else {
        split_at(raw.drop_last(), idx)
    }
}

proof fn lemma_split_at(raw: Seq<u64>, idx: int)
    requires
        forall|i: int, j: int| 0 <= i <= j < raw.len() ==> raw[i] <= raw[j],
    ensures
        split_at(raw, idx) <= raw.len(),
        forall|i: int| 0 <= i < split_at(raw, idx) ==> bucket_index(#[trigger] raw[i] as nat) < idx,
        forall|i: int|
            split_at(raw, idx) <= i < raw.len() ==> bucket_index(#[trigger] raw[i] as nat) >= idx,
    decreases raw.len(),
{
    if raw.len() > 0 {
        let rest = raw.drop_last();
        if bucket_index(raw.last() as nat) < idx {
            assert forall|i: int| 0 <= i < raw.len() implies bucket_index(#[trigger] raw[i] as nat)
                < idx by {
                law_bucket_is_monotonic(raw[i] as nat, raw.last() as nat);
            }
        } else {
            lemma_split_at(rest, idx);
            assert forall|i: int| 0 <= i < split_at(raw, idx) implies bucket_index(
                #[trigger] raw[i] as nat,
            ) < idx by {
                assert(rest[i] == raw[i]);
            }
            assert forall|i: int|
                split_at(raw, idx) <= i < raw.len() implies bucket_index(#[trigger] raw[i] as nat)
                >= idx by {
                if i < rest.len() {
                    assert(rest[i] == raw[i]);
                }
            }
        }
    }
}

/// Law: a quantile lands in the very bucket of the exact one, that is, of the
/// observation of that rank among all of them in order.
pub proof fn law_quantile_lands_in_the_exact_bucket(
    counts: Seq<u32>,
    raw: Seq<u64>,
    q_milli: nat,
)
    requires
        counts.len() == HIST_BUCKETS,
        forall|i: int| 0 <= i < HIST_BUCKETS ==> #[trigger] counts[i] == count_in(raw, i),
        forall|i: int, j: int| 0 <= i <= j < raw.len() ==> raw[i] <= raw[j],
        raw.len() > 0,
    ensures
        sum_counts(counts) == raw.len(),
        quantile_half_us(counts, q_milli) == bucket_middle(
            bucket_index(raw[quantile_rank(q_milli, raw.len()) - 1] as nat),
        ),
{
    let total = raw.len();
    let rank = quantile_rank(q_milli, total);
    lemma_prefix_counts(counts, raw, HIST_BUCKETS as int);
    assert(counts.take(HIST_BUCKETS as int) =~= counts);
    assert forall|i: int| 0 <= i < raw.len() implies bucket_index(#[trigger] raw[i] as nat)
        < HIST_BUCKETS by {
        law_bucket_is_bounded(raw[i] as nat);
    }
    lemma_sorted_split(raw, HIST_BUCKETS as int, total as int);
    let q = if q_milli > 1000 {
        1000
    } else {
        q_milli
    };
    assert(q * total <= 1000 * total) by (nonlinear_arith)
        requires
            q <= 1000,
    ;
    assert(1 <= rank <= total);
    let b = bucket_index(raw[rank - 1] as nat) as int;
    law_bucket_is_bounded(raw[rank - 1] as nat);
    lemma_prefix_counts(counts, raw, b);
    lemma_prefix_counts(counts, raw, b + 1);
    lemma_split_at(raw, b);
    lemma_split_at(raw, b + 1);
    lemma_sorted_split(raw, b, split_at(raw, b) as int);
    lemma_sorted_split(raw, b + 1, split_at(raw, b + 1) as int);
    assert(split_at(raw, b) <= rank - 1) by {
        if split_at(raw, b) > rank - 1 {
            assert(bucket_index(raw[rank - 1] as nat) < b);
        }
    }
    assert(split_at(raw, b + 1) >= rank) by {
        if split_at(raw, b + 1) < rank {
            assert(bucket_index(raw[rank - 1] as nat) >= b + 1);
        }
    }
    assert(holds_rank(counts, rank, b));
    let there = choose|idx: int| holds_rank(counts, rank, idx);
    lemma_rank_is_unique(counts, rank, b, there);
}

/// Law: a reported quantile is off by an eighth of the exact one at most, where
/// the exact one is in the range that is divided.
pub proof fn law_quantile_error_is_bounded(counts: Seq<u32>, raw: Seq<u64>, q_milli: nat)
    requires
        counts.len() == HIST_BUCKETS,
        forall|i: int| 0 <= i < HIST_BUCKETS ==> #[trigger] counts[i] == count_in(raw, i),
        forall|i: int, j: int| 0 <= i <= j < raw.len() ==> raw[i] <= raw[j],
        raw.len() > 0,
        4 <= raw[quantile_rank(q_milli, raw.len()) - 1] < pow2(OCTAVES as nat),
    ensures
        ({
            let exact = raw[quantile_rank(q_milli, raw.len()) - 1] as nat;
            &&& 8 * distance(quantile_half_us(counts, q_milli), 2 * exact) <= 2 * exact
            &&& 100 * distance(quantile_half_us(counts, q_milli), 2 * exact) <= 19 * (2 * exact)
        }),
{
    law_quantile_lands_in_the_exact_bucket(counts, raw, q_milli);
    law_bucket_error_is_bounded(raw[quantile_rank(q_milli, raw.len()) - 1] as nat);
}

} // verus!
