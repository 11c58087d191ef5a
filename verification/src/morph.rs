//! Changing the physical shape of a running pipeline.
//!
//! The logical pipeline never changes. What changes is which worker runs what:
//! an edge is contracted, so that one worker runs both of its stages back to
//! back, or the contraction is undone.

use vstd::prelude::*;
use crate::config::{
    bar_text, fused_name, fused_stage_name, has_name, opt_text, texts, Config, FusedHalf,
    MorphSpec, PipelineStage, StageSlo,
};
use crate::eos::{BarrierState, StageEosBarrier};
use crate::numtext::{concat, flat, owned_views, views};

verus! {

/// What the actuator is asked to do.
#[derive(Clone, Debug)]
pub enum MorphRequest {
    /// Contract the edge from `a` to `b` into one fused stage.
    Fuse { a: String, b: String },
    /// Undo a contraction.
    Split { fused: String },
    /// Redeploy a stage unchanged, which shows what the switch alone costs.
    Identity { stage: String },
}

/// A request, as a value.
pub enum MorphModel {
    Fuse { a: Seq<char>, b: Seq<char> },
    Split { fused: Seq<char> },
    Identity { stage: Seq<char> },
}

impl View for MorphRequest {
    type V = MorphModel;

    open spec fn view(&self) -> MorphModel {
        match *self {
            MorphRequest::Fuse { a, b } => MorphModel::Fuse { a: a@, b: b@ },
            MorphRequest::Split { fused } => MorphModel::Split { fused: fused@ },
            MorphRequest::Identity { stage } => MorphModel::Identity { stage: stage@ },
        }
    }
}

/// The request in words.
pub open spec fn request_text(r: MorphModel) -> Seq<char> {
    match r {
        MorphModel::Fuse { a, b } => flat(seq!["fuse "@, a, " -> "@, b]),
        MorphModel::Split { fused } => flat(seq!["split "@, fused]),
        MorphModel::Identity { stage } => flat(seq!["identity "@, stage]),
    }
}

/// The stage that there is after the request.
pub open spec fn request_subject(r: MorphModel) -> Seq<char> {
    match r {
        MorphModel::Fuse { a, b } => fused_name(a, b),
        MorphModel::Split { fused } => fused,
        MorphModel::Identity { stage } => stage,
    }
}

/// What the request is, in one word.
pub open spec fn request_verb(r: MorphModel) -> Seq<char> {
    match r {
        MorphModel::Fuse { .. } => "fuse"@,
        MorphModel::Split { .. } => "split"@,
        MorphModel::Identity { .. } => "identity"@,
    }
}

impl MorphRequest {
    pub fn describe(&self) -> (out: String)
        ensures
            out@ == request_text(self@),
    {
        match self {
            MorphRequest::Fuse { a, b } => {
                let parts = vec!["fuse ", a.as_str(), " -> ", b.as_str()];
                assert(views(parts@) =~= seq!["fuse "@, a@, " -> "@, b@]);
                concat(&parts)
            },
            MorphRequest::Split { fused } => {
                let parts = vec!["split ", fused.as_str()];
                assert(views(parts@) =~= seq!["split "@, fused@]);
                concat(&parts)
            },
            MorphRequest::Identity { stage } => {
                let parts = vec!["identity ", stage.as_str()];
                assert(views(parts@) =~= seq!["identity "@, stage@]);
                concat(&parts)
            },
        }
    }

    /// The stage that the telemetry of the transition is filed under: the one
    /// that there is after it.
    pub fn subject(&self) -> (out: String)
        ensures
            out@ == request_subject(self@),
    {
        match self {
            MorphRequest::Fuse { a, b } => fused_stage_name(a.as_str(), b.as_str()),
            MorphRequest::Split { fused } => fused.clone(),
            MorphRequest::Identity { stage } => stage.clone(),
        }
    }

    pub fn verb(&self) -> (out: &'static str)
        ensures
            out@ == request_verb(self@),
    {
        match self {
            MorphRequest::Fuse { .. } => "fuse",
            MorphRequest::Split { .. } => "split",
            MorphRequest::Identity { .. } => "identity",
        }
    }
}

/// One part of a fused stage, as a value.
pub type HalfModel = (Seq<char>, Option<Seq<char>>);

/// The parts of a fused stage, as values.
pub open spec fn half_models(halves: Seq<FusedHalf>) -> Seq<HalfModel> {
    halves.map_values(|h: FusedHalf| (h.name@, opt_text(h.wasm)))
}

/// The logical stages that a stage brings into a fusion: itself, or those it is
/// made of, so that fusing twice does not nest.
pub open spec fn brought_in(s: PipelineStage) -> Seq<HalfModel> {
    if s.fused_from@.len() == 0 {
        seq![(s.name@, opt_text(s.wasm))]
    } else {
        half_models(s.fused_from@)
    }
}

fn copy_text(s: &Option<String>) -> (out: Option<String>)
    ensures
        out == *s,
{
    match s {
        None => None,
        Some(t) => Some(t.clone()),
    }
}

fn push_halves(out: &mut Vec<FusedHalf>, s: &PipelineStage)
    ensures
        half_models(final(out)@) == half_models(old(out)@) + brought_in(*s),
{
    let ghost base = half_models(out@);
    if s.fused_from.len() == 0 {
        out.push(FusedHalf { name: s.name.clone(), wasm: copy_text(&s.wasm) });
        assert(half_models(out@) =~= base + brought_in(*s));
        return ;
    }
    let ghost want = brought_in(*s);
    let mut i: usize = 0;
    assert(half_models(out@) =~= base + want.take(0));
    while i < s.fused_from.len()
        invariant
            i <= s.fused_from@.len(),
            want == half_models(s.fused_from@),
            half_models(out@) == base + want.take(i as int),
        decreases s.fused_from@.len() - i,
    {
        let h = &s.fused_from[i];
        let ghost before = out@;
        out.push(FusedHalf { name: h.name.clone(), wasm: copy_text(&h.wasm) });
        assert(half_models(out@) =~= half_models(before).push(want[i as int]));
        assert(base + want.take(i + 1) =~= (base + want.take(i as int)).push(want[i as int]));
        i = i + 1;
    }
    assert(want.take(i as int) =~= want);
}

/// `n`, but no less than `lo` and no more than `hi`.
pub open spec fn clamped(n: nat, lo: nat, hi: nat) -> nat {
    if n < lo {
        lo
    } else if n > hi {
        hi
    } else {
        n
    }
}

fn copy_texts(v: &Vec<String>) -> (out: Vec<String>)
    ensures
        texts(out@) == texts(v@),
{
    let mut out: Vec<String> = Vec::new();
    let mut i: usize = 0;
    while i < v.len()
        invariant
            i <= v@.len(),
            out@.len() == i,
            forall|k: int| 0 <= k < i ==> (#[trigger] out@[k])@ == v@[k]@,
        decreases v@.len() - i,
    {
        out.push(v[i].clone());
        i = i + 1;
    }
    assert(texts(out@) =~= texts(v@));
    out
}

/// The stage that `a` and `b` are fused into: it reads what `a` reads and
/// writes where `b` writes, and nothing is rewired.
pub open spec fn is_fusion_of(
    s: PipelineStage,
    a: PipelineStage,
    b: PipelineStage,
    max_ab: usize,
) -> bool {
    &&& s.name@ == fused_name(a.name@, b.name@)
    &&& s.input@ == a.input@
    &&& opt_text(s.output) == opt_text(b.output)
    &&& texts(s.outputs@) == texts(b.outputs@)
    &&& opt_text(s.wasm) == opt_text(a.wasm)
    &&& opt_text(s.binary) == opt_text(a.binary)
    &&& s.placement@ == a.placement@
    &&& s.slo == (StageSlo {
        max_replicas: max_ab,
        min_replicas: clamped(
            (a.slo.min_replicas + b.slo.min_replicas) as nat,
            0,
            max_ab as nat,
        ) as usize,
        ..a.slo
    })
    &&& half_models(s.fused_from@) == brought_in(a) + brought_in(b)
}

/// A fusion to be carried out: the stage to be started, and with how many
/// replicas.
#[derive(Debug)]
pub struct FusePlan {
    pub stage: PipelineStage,
    pub replicas: usize,
    pub max_replicas: usize,
}

/// Why a fusion is not carried out.
#[derive(Debug)]
pub enum FuseRefusal {
    /// The edge may not be contracted.
    Illegal(String),
    /// One of the two is not running.
    NotLive,
}

/// The plan puts the two stages together, with as many replicas as both had.
pub open spec fn is_plan_of(
    p: FusePlan,
    a: PipelineStage,
    b: PipelineStage,
    max_a: nat,
    max_b: nat,
    live_a: nat,
    live_b: nat,
) -> bool {
    &&& p.max_replicas == max_a + max_b
    &&& p.replicas == clamped(live_a + live_b, 1, max_a + max_b)
    &&& is_fusion_of(p.stage, a, b, p.max_replicas)
}

/// Plans a fusion. The fused stage comes up with as many replicas as its halves
/// had together: a fused worker holds its thread for both.
pub fn plan_fuse(
    c: &Config,
    a: &String,
    b: &String,
    running_a: Option<&PipelineStage>,
    running_b: Option<&PipelineStage>,
    live_a: usize,
    live_b: usize,
) -> (r: Result<FusePlan, FuseRefusal>)
    requires
        running_a matches Some(x) ==> x.name@ == a@,
        running_b matches Some(x) ==> x.name@ == b@,
        c.fusion_bar(a@, b@) is None && running_a is Some && running_b is Some ==> {
            &&& live_a + live_b <= usize::MAX
            &&& 1 <= c.max_of(a@) + c.max_of(b@) <= usize::MAX
            &&& running_a->0.slo.min_replicas + running_b->0.slo.min_replicas <= usize::MAX
        },
    ensures
        match r {
            Err(FuseRefusal::Illegal(why)) => {
                &&& c.fusion_bar(a@, b@) is Some
                &&& why@ == bar_text(c.fusion_bar(a@, b@)->0, a@, b@)
            },
            Err(FuseRefusal::NotLive) => c.fusion_bar(a@, b@) is None && (running_a is None
                || running_b is None),
            Ok(p) => {
                let max_ab = (c.max_of(a@) + c.max_of(b@)) as usize;
                &&& c.fusion_bar(a@, b@) is None
                &&& running_a is Some && running_b is Some
                &&& p.max_replicas == max_ab
                &&& p.replicas == clamped((live_a + live_b) as nat, 1, max_ab as nat)
                &&& is_fusion_of(p.stage, *running_a->0, *running_b->0, max_ab)
            },
        },
        r matches Ok(p) ==> is_plan_of(
            p,
            *running_a->0,
            *running_b->0,
            c.max_of(a@),
            c.max_of(b@),
            live_a as nat,
            live_b as nat,
        ),
{
    match c.fusion_illegal_reason(a, b) {
        Some(why) => {
            return Err(FuseRefusal::Illegal(why));
        },
        None => {},
    }
    let (sa, sb) = match (running_a, running_b) {
        (Some(sa), Some(sb)) => (sa, sb),
        _ => {
            return Err(FuseRefusal::NotLive);
        },
    };
    let max_ab: usize = match c.fused_max_replicas(a, b) {
        Some(m) => m,
        None => 1,
    };
    let live: usize = live_a + live_b;
    let replicas: usize = if live < 1 {
        1
    } else if live > max_ab {
        max_ab
    } else {
        live
    };
    let mut halves: Vec<FusedHalf> = Vec::new();
    assert(half_models(halves@) =~= Seq::<HalfModel>::empty());
    push_halves(&mut halves, sa);
    push_halves(&mut halves, sb);
    assert(half_models(halves@) =~= brought_in(*sa) + brought_in(*sb));
    let min: usize = sa.slo.min_replicas + sb.slo.min_replicas;
    let mut slo = sa.slo;
    slo.max_replicas = max_ab;
    slo.min_replicas = if min > max_ab {
        max_ab
    } else {
        min
    };
    let stage = PipelineStage {
        name: fused_stage_name(a.as_str(), b.as_str()),
        input: sa.input.clone(),
        output: copy_text(&sb.output),
        outputs: copy_texts(&sb.outputs),
        wasm: copy_text(&sa.wasm),
        binary: copy_text(&sa.binary),
        slo,
        placement: sa.placement.clone(),
        fused_from: halves,
    };
    Ok(FusePlan { stage, replicas, max_replicas: max_ab })
}

/// A half that a split restores: its replica limits as it was declared.
#[derive(Clone, Copy, Debug, PartialEq, Eq, Structural)]
pub struct HalfLimits {
    pub min: usize,
    pub max: usize,
}

/// How much of the replicas a half gets.
pub open spec fn weight(h: HalfLimits) -> nat {
    if h.max == 0 {
        1
    } else {
        h.max as nat
    }
}

pub open spec fn total_weight(halves: Seq<HalfLimits>) -> nat
    decreases halves.len(),
{
    if halves.len() == 0 {
        0
    } else {
        total_weight(halves.drop_last()) + weight(halves.last())
    }
}

/// What each half gets of `replicas`: its share by weight, rounded down, and
/// the last one what is left.
pub open spec fn share(halves: Seq<HalfLimits>, replicas: nat, i: int) -> nat {
    if i + 1 == halves.len() {
        (replicas - shares_before(halves, replicas, i)) as nat
    } else {
        (replicas * weight(halves[i])) / total_weight(halves)
    }
}

/// What the halves before the `i`-th get together.
pub open spec fn shares_before(halves: Seq<HalfLimits>, replicas: nat, i: int) -> nat
    decreases i,
{
    if i <= 0 {
        0
    } else {
        shares_before(halves, replicas, i - 1) + (replicas * weight(halves[i - 1]))
            / total_weight(halves)
    }
}

/// With how many replicas a half starts.
pub open spec fn initial_of(h: HalfLimits, want: nat) -> nat {
    let at_least = if want < h.min {
        h.min as nat
    } else {
        want
    };
    if at_least > h.max {
        h.max as nat
    } else {
        at_least
    }
}

proof fn lemma_weight_prefix(halves: Seq<HalfLimits>, i: int)
    requires
        0 <= i <= halves.len(),
    ensures
        total_weight(halves.take(i)) <= total_weight(halves),
        i < halves.len() ==> total_weight(halves.take(i)) < total_weight(halves),
    decreases halves.len() - i,
{
    if i < halves.len() {
        assert(halves.take(i + 1).drop_last() =~= halves.take(i));
        lemma_weight_prefix(halves, i + 1);
    } else {
        assert(halves.take(i) =~= halves);
    }
}

proof fn lemma_shares_bounded(halves: Seq<HalfLimits>, replicas: nat, i: int)
    requires
        0 <= i <= halves.len(),
        halves.len() > 0,
    ensures
        shares_before(halves, replicas, i) * total_weight(halves) <= replicas * total_weight(
            halves.take(i),
        ),
        shares_before(halves, replicas, i) <= replicas,
        total_weight(halves) > 0,
    decreases i,
{
    let t = total_weight(halves);
    lemma_weight_prefix(halves, i);
    lemma_weight_prefix(halves, 0);
    if i > 0 {
        lemma_shares_bounded(halves, replicas, i - 1);
        assert(halves.take(i).drop_last() =~= halves.take(i - 1));
        let s = shares_before(halves, replicas, i - 1);
        let w = weight(halves[i - 1]);
        let q = (replicas * w) / t;
        let tw = total_weight(halves.take(i - 1));
        vstd::arithmetic::div_mod::lemma_fundamental_div_mod((replicas * w) as int, t as int);
        assert(q * t <= replicas * w) by (nonlinear_arith)
            requires
                replicas * w == t * q + (replicas * w) % t,
                (replicas * w) % t >= 0,
        ;
        assert((s + q) * t <= replicas * (tw + w)) by (nonlinear_arith)
            requires
                s * t <= replicas * tw,
                q * t <= replicas * w,
        ;
        assert(halves.take(i).last() == halves[i - 1]);
        assert(total_weight(halves.take(i)) == tw + w);
        assert(shares_before(halves, replicas, i) == s + q);
    } else {
        let tw = total_weight(halves.take(0));
        assert(0 <= replicas * tw) by (nonlinear_arith)
            requires
                replicas >= 0,
                tw >= 0,
        ;
        assert(0 * t == 0);
    }
    let s = shares_before(halves, replicas, i);
    let tw = total_weight(halves.take(i));
    assert(s <= replicas) by (nonlinear_arith)
        requires
            s * t <= replicas * tw,
            tw <= t,
            t > 0,
    ;
}

/// Law: a split gives out exactly the replicas the fused stage had.
pub proof fn law_split_gives_out_all_replicas(halves: Seq<HalfLimits>, replicas: nat)
    requires
        halves.len() > 0,
    ensures
        shares_before(halves, replicas, halves.len() - 1) + share(
            halves,
            replicas,
            halves.len() - 1,
        ) == replicas,
{
    lemma_shares_bounded(halves, replicas, halves.len() - 1);
}

/// With how many replicas each half of a split starts: by the limits the halves
/// were declared with, which is what their author knew of their cost.
pub fn split_replicas(halves: &Vec<HalfLimits>, replicas: usize) -> (out: Vec<usize>)
    requires
        total_weight(halves@) <= usize::MAX,
    ensures
        out@.len() == halves@.len(),
        forall|i: int|
            0 <= i < out@.len() ==> #[trigger] out@[i] == initial_of(
                halves@[i],
                share(halves@, replicas as nat, i),
            ),
{
    let n: usize = halves.len();
    let ghost h = halves@;
    let mut total: usize = 0;
    let mut k: usize = 0;
    assert(h.take(0) =~= Seq::<HalfLimits>::empty());
    while k < n
        invariant
            k <= n == halves@.len(),
            h == halves@,
            total_weight(h) <= usize::MAX,
            total == total_weight(h.take(k as int)),
        decreases n - k,
    {
        assert(h.take(k + 1).drop_last() =~= h.take(k as int));
        proof {
            lemma_weight_prefix(h, k + 1);
        }
        total = total + if halves[k].max == 0 {
            1
        } else {
            halves[k].max
        };
        k = k + 1;
    }
    assert(h.take(n as int) =~= h);
    let mut out: Vec<usize> = Vec::new();
    let mut given: usize = 0;
    let mut i: usize = 0;
    while i < n
        invariant
            i <= n == halves@.len(),
            h == halves@,
            total == total_weight(h),
            out@.len() == i,
            i < n ==> given == shares_before(h, replicas as nat, i as int),
            forall|j: int|
                0 <= j < i ==> #[trigger] out@[j] == initial_of(
                    h[j],
                    share(h, replicas as nat, j),
                ),
        decreases n - i,
    {
        let half = halves[i];
        proof {
            lemma_shares_bounded(h, replicas as nat, i as int);
            lemma_shares_bounded(h, replicas as nat, i + 1);
        }
        let w: usize = if half.max == 0 {
            1
        } else {
            half.max
        };
        let want: usize = if i + 1 == n {
            replicas - given
        } else {
            proof {
                assert(replicas * w <= usize::MAX * usize::MAX) by (nonlinear_arith)
                    requires
                        replicas <= usize::MAX,
                        w <= usize::MAX,
                ;
            }
            ((replicas as u128 * w as u128) / total as u128) as usize
        };
        if i + 1 < n {
            given = given + want;
        }
        let at_least: usize = if want < half.min {
            half.min
        } else {
            want
        };
        out.push(
            if at_least > half.max {
                half.max
            } else {
                at_least
            },
        );
        i = i + 1;
    }
    out
}

/// Why a split is not carried out.
#[derive(Clone, Debug)]
pub enum SplitRefusal {
    /// There is no such stage.
    NotLive,
    /// The stage is not fused.
    NotFused,
    /// Some of its halves were not there at the start.
    NoTemplate(Vec<String>),
}

/// The names of a stage's halves.
pub open spec fn half_names(s: PipelineStage) -> Seq<Seq<char>> {
    s.fused_from@.map_values(|h: FusedHalf| h.name@)
}

/// The names that are not among those known.
pub open spec fn missing_among(names: Seq<Seq<char>>, known: Seq<Seq<char>>) -> Seq<Seq<char>>
    decreases names.len(),
{
    if names.len() == 0 {
        Seq::empty()
    } else if has_name(known, names.last()) {
        missing_among(names.drop_last(), known)
    } else {
        missing_among(names.drop_last(), known).push(names.last())
    }
}

/// Which stages a split restores: the halves of the fused stage, all of which
/// must have been there at the start.
pub fn plan_split(running: Option<&PipelineStage>, known: &Vec<String>) -> (r: Result<
    Vec<String>,
    SplitRefusal,
>)
    ensures
        match r {
            Err(SplitRefusal::NotLive) => running is None,
            Err(SplitRefusal::NotFused) => running is Some && running->0.fused_from@.len() <= 1,
            Err(SplitRefusal::NoTemplate(names)) => {
                &&& running is Some && running->0.fused_from@.len() > 1
                &&& owned_views(names@) == missing_among(
                    half_names(*running->0),
                    owned_views(known@),
                )
                &&& names@.len() > 0
            },
            Ok(names) => {
                &&& running is Some && running->0.fused_from@.len() > 1
                &&& owned_views(names@) == half_names(*running->0)
                &&& missing_among(half_names(*running->0), owned_views(known@)).len() == 0
            },
        },
{
    let s = match running {
        None => {
            return Err(SplitRefusal::NotLive);
        },
        Some(s) => s,
    };
    if !s.is_fused() {
        return Err(SplitRefusal::NotFused);
    }
    let ghost all = half_names(*s);
    let ghost have = owned_views(known@);
    let mut names: Vec<String> = Vec::new();
    let mut missing: Vec<String> = Vec::new();
    let mut i: usize = 0;
    assert(owned_views(missing@) =~= missing_among(all.take(0), have));
    while i < s.fused_from.len()
        invariant
            i <= s.fused_from@.len(),
            all == half_names(*s),
            have == owned_views(known@),
            names@.len() == i,
            forall|k: int| 0 <= k < i ==> (#[trigger] names@[k])@ == all[k],
            owned_views(missing@) == missing_among(all.take(i as int), have),
        decreases s.fused_from@.len() - i,
    {
        let name = &s.fused_from[i].name;
        assert(all[i as int] == name@);
        assert(all.take(i + 1).drop_last() =~= all.take(i as int));
        let mut found = false;
        let mut k: usize = 0;
        while k < known.len()
            invariant
                k <= known@.len(),
                have == owned_views(known@),
                found == exists|h: int| 0 <= h < k && #[trigger] have[h] == name@,
            decreases known@.len() - k,
        {
            assert(have[k as int] == known@[k as int]@);
            if known[k] == *name {
                found = true;
            }
            k = k + 1;
        }
        assert(found == has_name(have, name@));
        if !found {
            let ghost was = missing@;
            missing.push(name.clone());
            assert(owned_views(missing@) =~= owned_views(was).push(name@));
        }
        names.push(name.clone());
        i = i + 1;
    }
    assert(all.take(i as int) =~= all);
    assert(owned_views(missing@).len() == missing@.len());
    if missing.len() > 0 {
        return Err(SplitRefusal::NoTemplate(missing));
    }
    assert(owned_views(names@) =~= all);
    Ok(names)
}

/// A run is finishing: some stage has all the markers it waits for, or drains
/// already. The set of stages must not change any more.
pub open spec fn finishing_state(b: BarrierState) -> bool {
    b.seen >= b.expected_in || b.finishing
}

/// The stream is ending at one of the stages.
pub open spec fn is_ending(barriers: Seq<&StageEosBarrier>) -> bool {
    exists|i: int| 0 <= i < barriers.len() && finishing_state((#[trigger] barriers[i])@)
}

/// Whether a morph has to be refused because the stream is ending.
pub fn eos_in_progress(barriers: &Vec<&StageEosBarrier>) -> (b: bool)
    ensures
        b == is_ending(barriers@),
{
    let mut i: usize = 0;
    while i < barriers.len()
        invariant
            i <= barriers@.len(),
            forall|k: int| 0 <= k < i ==> !finishing_state((#[trigger] barriers@[k])@),
        decreases barriers@.len() - i,
    {
        if barriers[i].all_markers_seen() || barriers[i].is_finishing() {
            assert(finishing_state(barriers@[i as int]@));
            return true;
        }
        i = i + 1;
    }
    false
}

/// A request and when it is due, as a value.
pub type DueModel = (int, MorphModel);

/// What an entry of the schedule asks for, if it asks for exactly one thing.
pub open spec fn entry_request(m: MorphSpec) -> Option<MorphModel> {
    match (m.fuse, m.split, m.identity) {
        (Some(pair), None, None) => if pair@.len() == 2 {
            Some(MorphModel::Fuse { a: pair@[0]@, b: pair@[1]@ })
        } else {
            None
        },
        (None, Some(f), None) => Some(MorphModel::Split { fused: f@ }),
        (None, None, Some(s)) => Some(MorphModel::Identity { stage: s@ }),
        _ => None,
    }
}

/// A request put in its place: behind all that are due no later.
pub open spec fn put_in(plan: Seq<DueModel>, x: DueModel) -> Seq<DueModel>
    decreases plan.len(),
{
    if plan.len() == 0 {
        seq![x]
    } else if plan.last().0 <= x.0 {
        plan.push(x)
    } else {
        put_in(plan.drop_last(), x).push(plan.last())
    }
}

/// The schedule: what is asked for, in the order it is due; entries that ask
/// for nothing sensible are left out.
pub open spec fn scheduled(specs: Seq<MorphSpec>) -> Seq<DueModel>
    decreases specs.len(),
{
    if specs.len() == 0 {
        Seq::empty()
    } else {
        let rest = scheduled(specs.drop_last());
        match entry_request(specs.last()) {
            None => rest,
            Some(r) => put_in(rest, (specs.last().at_ms as int, r)),
        }
    }
}

/// The plan, as a value.
pub open spec fn due_models(plan: Seq<(i64, MorphRequest)>) -> Seq<DueModel> {
    plan.map_values(|e: (i64, MorphRequest)| (e.0 as int, e.1@))
}

/// What an entry of the schedule asks for.
pub fn scheduled_request(m: &MorphSpec) -> (r: Option<MorphRequest>)
    ensures
        match r {
            None => entry_request(*m) is None,
            Some(q) => entry_request(*m) == Some(q@),
        },
{
    match (&m.fuse, &m.split, &m.identity) {
        (Some(pair), None, None) => if pair.len() == 2 {
            Some(MorphRequest::Fuse { a: pair[0].clone(), b: pair[1].clone() })
        } else {
            None
        },
        (None, Some(f), None) => Some(MorphRequest::Split { fused: f.clone() }),
        (None, None, Some(s)) => Some(MorphRequest::Identity { stage: s.clone() }),
        _ => None,
    }
}

proof fn lemma_put_in(plan: Seq<DueModel>, x: DueModel, at: int)
    requires
        0 <= at <= plan.len(),
        at > 0 ==> plan[at - 1].0 <= x.0,
        forall|k: int| at <= k < plan.len() ==> (#[trigger] plan[k]).0 > x.0,
    ensures
        put_in(plan, x) == plan.insert(at, x),
    decreases plan.len(),
{
    if at == plan.len() {
        assert(plan.insert(at, x) =~= plan.push(x));
        if plan.len() == 0 {
            assert(seq![x] =~= plan.push(x));
        }
    } else {
        assert(plan[plan.len() - 1].0 > x.0);
        let rest = plan.drop_last();
        assert forall|k: int| at <= k < rest.len() implies (#[trigger] rest[k]).0 > x.0 by {
            assert(rest[k] == plan[k]);
        }
        lemma_put_in(rest, x, at);
        assert(rest.insert(at, x).push(plan.last()) =~= plan.insert(at, x));
    }
}

/// Puts the schedule in the order it is due.
pub fn plan_schedule(specs: &Vec<MorphSpec>) -> (plan: Vec<(i64, MorphRequest)>)
    ensures
        due_models(plan@) == scheduled(specs@),
{
    let mut plan: Vec<(i64, MorphRequest)> = Vec::new();
    let mut i: usize = 0;
    assert(due_models(plan@) =~= scheduled(specs@.take(0)));
    while i < specs.len()
        invariant
            i <= specs@.len(),
            due_models(plan@) == scheduled(specs@.take(i as int)),
        decreases specs@.len() - i,
    {
        assert(specs@.take(i + 1).drop_last() =~= specs@.take(i as int));
        match scheduled_request(&specs[i]) {
            None => {},
            Some(request) => {
                let at_ms: i64 = specs[i].at_ms;
                let mut at: usize = plan.len();
                while at > 0 && plan[at - 1].0 > at_ms
                    invariant
                        at <= plan@.len(),
                        forall|k: int| at <= k < plan@.len() ==> (#[trigger] plan@[k]).0 > at_ms,
                    decreases at,
                {
                    at = at - 1;
                }
                let ghost was = plan@;
                let ghost x = (at_ms as int, request@);
                proof {
                    let m = due_models(was);
                    assert forall|k: int| at <= k < m.len() implies (#[trigger] m[k]).0 > x.0 by {
                        assert(was[k].0 > at_ms);
                    }
                    lemma_put_in(m, x, at as int);
                }
                plan.insert(at, (at_ms, request));
                assert(due_models(plan@) =~= due_models(was).insert(at as int, x));
            },
        }
        i = i + 1;
    }
    assert(specs@.take(i as int) =~= specs@);
    plan
}

/// Law: the schedule is in the order of time.
pub proof fn law_schedule_is_in_order(specs: Seq<MorphSpec>)
    ensures
        forall|i: int, j: int|
            0 <= i <= j < scheduled(specs).len() ==> (#[trigger] scheduled(specs)[i]).0 <= (
            #[trigger] scheduled(specs)[j]).0,
    decreases specs.len(),
{
    if specs.len() > 0 {
        law_schedule_is_in_order(specs.drop_last());
        if entry_request(specs.last()) is Some {
            lemma_put_in_sorted(
                scheduled(specs.drop_last()),
                (specs.last().at_ms as int, entry_request(specs.last())->0),
            );
        }
    }
}

proof fn lemma_put_in_sorted(plan: Seq<DueModel>, x: DueModel)
    requires
        forall|i: int, j: int|
            0 <= i <= j < plan.len() ==> (#[trigger] plan[i]).0 <= (#[trigger] plan[j]).0,
    ensures
        put_in(plan, x).len() == plan.len() + 1,
        forall|i: int, j: int|
            0 <= i <= j < put_in(plan, x).len() ==> (#[trigger] put_in(plan, x)[i]).0 <= (
            #[trigger] put_in(plan, x)[j]).0,
        forall|i: int|
            0 <= i < put_in(plan, x).len() ==> (#[trigger] put_in(plan, x)[i]).0 <= x.0 || (
            plan.len() > 0 && put_in(plan, x)[i].0 <= plan.last().0),
    decreases plan.len(),
{
    if plan.len() > 0 {
        if plan.last().0 <= x.0 {
            assert forall|i: int, j: int| 0 <= i <= j < plan.push(x).len() implies (
            #[trigger] plan.push(x)[i]).0 <= (#[trigger] plan.push(x)[j]).0 by {
                if j == plan.len() && i < plan.len() {
                    assert(plan[i].0 <= plan[plan.len() - 1].0);
                }
            }
        } else {
            let rest = plan.drop_last();
            assert forall|i: int, j: int| 0 <= i <= j < rest.len() implies (#[trigger] rest[i]).0
                <= (#[trigger] rest[j]).0 by {
                assert(plan[i].0 <= plan[j].0);
            }
            lemma_put_in_sorted(rest, x);
            let out = put_in(plan, x);
            let inner = put_in(rest, x);
            assert forall|i: int, j: int| 0 <= i <= j < out.len() implies (#[trigger] out[i]).0 <= (
            #[trigger] out[j]).0 by {
                if j == out.len() - 1 && i < j {
                    assert(inner[i].0 <= x.0 || inner[i].0 <= rest.last().0);
                    if rest.len() > 0 {
                        assert(plan[rest.len() - 1].0 <= plan[plan.len() - 1].0);
                    }
                } else if j < inner.len() {
                    assert(inner[i].0 <= inner[j].0);
                }
            }
            assert forall|i: int| 0 <= i < out.len() implies (#[trigger] out[i]).0 <= x.0
                || out[i].0 <= plan.last().0 by {
                assert(out[i].0 <= out[out.len() - 1].0);
            }
        }
    }
}

} // verus!
