//! The steps by which a running pipeline changes its shape, in the order in
//! which they keep every event and every mark of the end.

use vstd::prelude::*;
use crate::config::{fused_name, fused_stage_name};
use crate::controller::{NamedSignal, StageSignal};
use crate::eos::StageEosBarrier;
use crate::morph::{eos_in_progress, is_ending};

verus! {

/// One step of a transition.
#[derive(Debug)]
pub enum MorphAction {
    /// Note on the timeline of a stage.
    Record(String, &'static str, usize),
    /// Stop a stage, and wait until its workers are gone.
    Stop(String),
    /// Wait until nothing is left on the edge that feeds a stage.
    AwaitEmpty(String),
    /// Start a stage with so many replicas.
    Deploy(String, usize),
    /// Move the marks of the end that a stopped stage has seen to another.
    Carry(String, String),
}

/// One step of a transition, for contracts.
pub enum ActionModel {
    Record(Seq<char>, Seq<char>, nat),
    Stop(Seq<char>),
    AwaitEmpty(Seq<char>),
    Deploy(Seq<char>, nat),
    Carry(Seq<char>, Seq<char>),
}

impl View for MorphAction {
    type V = ActionModel;

    open spec fn view(&self) -> ActionModel {
        match *self {
            MorphAction::Record(s, a, n) => ActionModel::Record(s@, a@, n as nat),
            MorphAction::Stop(s) => ActionModel::Stop(s@),
            MorphAction::AwaitEmpty(s) => ActionModel::AwaitEmpty(s@),
            MorphAction::Deploy(s, n) => ActionModel::Deploy(s@, n as nat),
            MorphAction::Carry(a, b) => ActionModel::Carry(a@, b@),
        }
    }
}

pub open spec fn action_views(v: Seq<MorphAction>) -> Seq<ActionModel> {
    v.map_values(|a: MorphAction| a@)
}

/// The steps of a transition, between the notes by which its time is told. One
/// that is refused has none.
pub open spec fn bracketed(subject: Seq<char>, steps: Option<Seq<ActionModel>>) -> Seq<ActionModel> {
    seq![ActionModel::Record(subject, "morph_begin"@, 0)] + (match steps {
        Some(s) => s,
        None => Seq::empty(),
    }) + seq![
        ActionModel::Record(
            subject,
            if steps is Some {
                "morph_end"@
            } else {
                "morph_failed"@
            },
            0,
        ),
    ]
}

/// The steps of a fusion, into so many replicas: the first stage is stopped, what
/// it left is worked off, the second is stopped, and the fused one takes over.
pub open spec fn fuse_steps(a: Seq<char>, b: Seq<char>, replicas: nat) -> Seq<ActionModel> {
    let f = fused_name(a, b);
    seq![
        ActionModel::Stop(a),
        ActionModel::AwaitEmpty(b),
        ActionModel::Stop(b),
        ActionModel::Deploy(f, replicas),
        ActionModel::Carry(a, f),
        ActionModel::Carry(b, f),
        ActionModel::Record(f, "fuse"@, replicas),
    ]
}

/// The starts of the halves of a split.
pub open spec fn deploys(halves: Seq<(String, usize)>) -> Seq<ActionModel> {
    halves.map_values(|h: (String, usize)| ActionModel::Deploy(h.0@, h.1 as nat))
}

/// The steps of a split: the fused stage is stopped, and its halves take over.
/// The first of them is fed by what fed the fused stage.
pub open spec fn split_steps(fused: Seq<char>, halves: Seq<(String, usize)>, live: nat) -> Seq<
    ActionModel,
> {
    seq![ActionModel::Stop(fused)] + deploys(halves) + seq![
        ActionModel::Carry(fused, halves[0].0@),
        ActionModel::Record(fused, "split"@, live),
    ]
}

/// The steps by which a stage is replaced by itself.
pub open spec fn identity_steps(stage: Seq<char>, live: nat) -> Seq<ActionModel> {
    seq![
        ActionModel::Stop(stage),
        ActionModel::Deploy(
            stage,
            if live < 1 {
                1
            } else {
                live
            },
        ),
        ActionModel::Carry(stage, stage),
        ActionModel::Record(stage, "identity"@, live),
    ]
}

/// Every stage that the steps stop hands on the marks of the end it has seen.
pub open spec fn hands_on_marks(steps: Seq<ActionModel>) -> bool {
    forall|i: int|
        #![trigger steps[i]]
        0 <= i < steps.len() ==> (steps[i] matches ActionModel::Stop(s) ==> exists|k: int|
            i < k < steps.len() && is_carry_from(#[trigger] steps[k], s))
}

pub open spec fn is_carry_from(a: ActionModel, s: Seq<char>) -> bool {
    a matches ActionModel::Carry(from, _) && from == s
}

/// Law: a fusion leaves no event behind. The stage that feeds the contracted edge
/// is gone before the edge is waited for, and the stage that it feeds only
/// after.
pub proof fn law_fusion_empties_the_edge(a: Seq<char>, b: Seq<char>, replicas: nat)
    ensures
        exists|i: int, j: int, k: int|
            #![trigger fuse_steps(a, b, replicas)[i], fuse_steps(a, b, replicas)[j], fuse_steps(a, b, replicas)[k]]
            0 <= i < j < k < fuse_steps(a, b, replicas).len() && fuse_steps(a, b, replicas)[i]
                == ActionModel::Stop(a) && fuse_steps(a, b, replicas)[j] == ActionModel::AwaitEmpty(b)
                && fuse_steps(a, b, replicas)[k] == ActionModel::Stop(b),
{
    let s = fuse_steps(a, b, replicas);
    assert(s[0] == ActionModel::Stop(a) && s[1] == ActionModel::AwaitEmpty(b) && s[2]
        == ActionModel::Stop(b));
}

/// Law: no transition loses a mark of the end.
pub proof fn law_no_mark_is_lost(
    a: Seq<char>,
    b: Seq<char>,
    halves: Seq<(String, usize)>,
    n: nat,
)
    requires
        halves.len() > 0,
    ensures
        hands_on_marks(fuse_steps(a, b, n)),
        hands_on_marks(split_steps(a, halves, n)),
        hands_on_marks(identity_steps(a, n)),
{
    let f = fuse_steps(a, b, n);
    assert(is_carry_from(f[4], a) && is_carry_from(f[5], b));
    let s = split_steps(a, halves, n);
    let at = (1 + halves.len()) as int;
    assert(s[at] == ActionModel::Carry(a, halves[0].0@));
    assert(is_carry_from(s[at], a));
    assert forall|i: int| #![trigger s[i]] 0 <= i < s.len() && s[i] is Stop implies i == 0 by {
        if 1 <= i < at {
            assert(s[i] == deploys(halves)[i - 1]);
        }
    }
    let d = identity_steps(a, n);
    assert(is_carry_from(d[2], a));
}

fn record(out: &mut Vec<MorphAction>, stage: &str, what: &'static str, n: usize)
    ensures
        action_views(final(out)@) == action_views(old(out)@).push(
            ActionModel::Record(stage@, what@, n as nat),
        ),
{
    let ghost was = out@;
    let one = MorphAction::Record(stage.to_owned(), what, n);
    let ghost m = one@;
    out.push(one);
    assert(action_views(out@) =~= action_views(was).push(m));
}

fn add(out: &mut Vec<MorphAction>, one: MorphAction)
    ensures
        action_views(final(out)@) == action_views(old(out)@).push(one@),
{
    let ghost was = out@;
    out.push(one);
    assert(action_views(out@) =~= action_views(was).push(one@));
}

/// The steps of a fusion; `replicas` is how many the fused stage starts with, and
/// none where the fusion is refused.
pub fn fuse_transition(a: &str, b: &str, replicas: Option<usize>) -> (out: Vec<MorphAction>)
    ensures
        action_views(out@) == bracketed(
            fused_name(a@, b@),
            match replicas {
                Some(n) => Some(fuse_steps(a@, b@, n as nat)),
                None => None,
            },
        ),
{
    let f = fused_stage_name(a, b);
    let mut out: Vec<MorphAction> = Vec::new();
    assert(action_views(out@) =~= Seq::<ActionModel>::empty());
    record(&mut out, f.as_str(), "morph_begin", 0);
    match replicas {
        Some(n) => {
            self::add(&mut out, MorphAction::Stop(a.to_owned()));
            self::add(&mut out, MorphAction::AwaitEmpty(b.to_owned()));
            self::add(&mut out, MorphAction::Stop(b.to_owned()));
            self::add(&mut out, MorphAction::Deploy(f.clone(), n));
            self::add(&mut out, MorphAction::Carry(a.to_owned(), f.clone()));
            self::add(&mut out, MorphAction::Carry(b.to_owned(), f.clone()));
            record(&mut out, f.as_str(), "fuse", n);
            record(&mut out, f.as_str(), "morph_end", 0);
            assert(action_views(out@) =~= bracketed(f@, Some(fuse_steps(a@, b@, n as nat))));
        },
        None => {
            record(&mut out, f.as_str(), "morph_failed", 0);
            assert(action_views(out@) =~= bracketed(f@, None));
        },
    }
    out
}

/// The steps of a split: the halves, each with how many replicas it starts with;
/// none where the split is refused.
pub fn split_transition(fused: &str, halves: &Option<Vec<(String, usize)>>, live: usize) -> (out:
    Vec<MorphAction>)
    requires
        halves matches Some(h) ==> h@.len() > 0,
    ensures
        action_views(out@) == bracketed(
            fused@,
            match *halves {
                Some(h) => Some(split_steps(fused@, h@, live as nat)),
                None => None,
            },
        ),
{
    let mut out: Vec<MorphAction> = Vec::new();
    assert(action_views(out@) =~= Seq::<ActionModel>::empty());
    record(&mut out, fused, "morph_begin", 0);
    match halves {
        Some(h) => {
            self::add(&mut out, MorphAction::Stop(fused.to_owned()));
            let ghost head = action_views(out@);
            let ghost all = deploys(h@);
            let mut i: usize = 0;
            assert(head + all.take(0) =~= head);
            while i < h.len()
                invariant
                    i <= h@.len(),
                    all == deploys(h@),
                    action_views(out@) == head + all.take(i as int),
                decreases h@.len() - i,
            {
                self::add(&mut out, MorphAction::Deploy(h[i].0.clone(), h[i].1));
                assert(head + all.take(i + 1) =~= (head + all.take(i as int)).push(all[i as int]));
                i = i + 1;
            }
            assert(all.take(i as int) =~= all);
            self::add(&mut out, MorphAction::Carry(fused.to_owned(), h[0].0.clone()));
            record(&mut out, fused, "split", live);
            record(&mut out, fused, "morph_end", 0);
            assert(action_views(out@) =~= bracketed(
                fused@,
                Some(split_steps(fused@, h@, live as nat)),
            ));
        },
        None => {
            record(&mut out, fused, "morph_failed", 0);
            assert(action_views(out@) =~= bracketed(fused@, None));
        },
    }
    out
}

/// The steps by which a stage is replaced by itself; none where there is no such
/// stage.
pub fn identity_transition(stage: &str, live: Option<usize>) -> (out: Vec<MorphAction>)
    ensures
        action_views(out@) == bracketed(
            stage@,
            match live {
                Some(n) => Some(identity_steps(stage@, n as nat)),
                None => None,
            },
        ),
{
    let mut out: Vec<MorphAction> = Vec::new();
    assert(action_views(out@) =~= Seq::<ActionModel>::empty());
    record(&mut out, stage, "morph_begin", 0);
    match live {
        Some(n) => {
            self::add(&mut out, MorphAction::Stop(stage.to_owned()));
            let start: usize = if n < 1 {
                1
            } else {
                n
            };
            self::add(&mut out, MorphAction::Deploy(stage.to_owned(), start));
            self::add(&mut out, MorphAction::Carry(stage.to_owned(), stage.to_owned()));
            record(&mut out, stage, "identity", n);
            record(&mut out, stage, "morph_end", 0);
            assert(action_views(out@) =~= bracketed(stage@, Some(identity_steps(stage@, n as nat))));
        },
        None => {
            record(&mut out, stage, "morph_failed", 0);
            assert(action_views(out@) =~= bracketed(stage@, None));
        },
    }
    out
}

/// What is done of a transition: all of it, or, where the stream is ending at a
/// stage, nothing, not even a note.
pub fn apply(barriers: &Vec<&StageEosBarrier>, steps: Vec<MorphAction>) -> (out: Vec<MorphAction>)
    ensures
        is_ending(barriers@) ==> out@.len() == 0,
        !is_ending(barriers@) ==> out@ == steps@,
{
    if eos_in_progress(barriers) {
        Vec::new()
    } else {
        steps
    }
}

/// The milliseconds after which a stage that does not stop, or an edge that does
/// not empty, is given up on.
pub const DRAIN_TIMEOUT_MS: u64 = 30_000;

/// What is done while something is waited for.
#[derive(Clone, Copy, Debug, PartialEq, Eq, Structural)]
pub enum DrainStep {
    Done,
    GiveUp,
    Wait,
}

/// What is done while a stage stops or an edge empties.
pub fn drain_step(done: bool, waited_ms: u64) -> (s: DrainStep)
    ensures
        s == (if done {
            DrainStep::Done
        } else if waited_ms > DRAIN_TIMEOUT_MS {
            DrainStep::GiveUp
        } else {
            DrainStep::Wait
        }),
{
    if done {
        DrainStep::Done
    } else if waited_ms > DRAIN_TIMEOUT_MS {
        DrainStep::GiveUp
    } else {
        DrainStep::Wait
    }
}

/// What is done until a scheduled transition is due.
#[derive(Clone, Copy, Debug, PartialEq, Eq, Structural)]
pub enum ScheduleStep {
    Stop,
    Due,
    /// Look again after so many milliseconds.
    Sleep(u64),
}

/// What is done until a scheduled transition is due: short sleeps, so that a
/// shutdown is seen.
pub fn schedule_step(shutdown: bool, elapsed_ms: u64, at_ms: i64) -> (s: ScheduleStep)
    ensures
        s == (if shutdown {
            ScheduleStep::Stop
        } else if elapsed_ms >= at_ms {
            ScheduleStep::Due
        } else if at_ms - elapsed_ms < 20 {
            ScheduleStep::Sleep((at_ms - elapsed_ms) as u64)
        } else {
            ScheduleStep::Sleep(20)
        }),
{
    if shutdown {
        ScheduleStep::Stop
    } else if at_ms <= 0 || elapsed_ms >= at_ms as u64 {
        ScheduleStep::Due
    } else if at_ms as u64 - elapsed_ms < 20 {
        ScheduleStep::Sleep(at_ms as u64 - elapsed_ms)
    } else {
        ScheduleStep::Sleep(20)
    }
}

/// A stage that runs, as the registry of stages has it.
#[derive(Debug)]
pub struct LiveStage {
    pub name: String,
    pub live: usize,
    pub max_replicas: usize,
    pub queue_depth: u64,
    /// The threshold for scaling up, in thousandths of an event, where the stage
    /// declares one.
    pub queue_up_milli: Option<i64>,
}

/// How many replicas run in all.
pub open spec fn replicas_in(stages: Seq<LiveStage>) -> nat
    decreases stages.len(),
{
    if stages.len() == 0 {
        0
    } else {
        replicas_in(stages.drop_last()) + stages.last().live as nat
    }
}

/// How many replicas run in all.
pub fn live_replica_total(stages: &Vec<LiveStage>) -> (n: u128)
    ensures
        n == replicas_in(stages@),
{
    let len: usize = stages.len();
    let mut n: u128 = 0;
    let mut i: usize = 0;
    assert(stages@.take(0) =~= Seq::<LiveStage>::empty());
    while i < len
        invariant
            i <= len == stages@.len(),
            len <= 0xffff_ffff_ffff_ffff,
            n == replicas_in(stages@.take(i as int)),
            n <= i * 0xffff_ffff_ffff_ffff,
        decreases len - i,
    {
        assert(stages@.take(i + 1).drop_last() =~= stages@.take(i as int));
        n = n + stages[i].live as u128;
        i = i + 1;
    }
    assert(stages@.take(i as int) =~= stages@);
    n
}

/// What the controller is told of a stage; a threshold that is not declared is
/// fifty events.
pub open spec fn is_signal_of(s: NamedSignal, l: LiveStage) -> bool {
    &&& s.name@ == l.name@
    &&& s.signal == StageSignal {
        live: l.live,
        max: l.max_replicas,
        queue_depth: l.queue_depth,
        queue_depth_prev: 0,
        queue_up_milli: match l.queue_up_milli {
            Some(q) => q,
            None => 50_000,
        },
    }
}

/// What the controller is told of the stages.
pub fn stage_signals(stages: &Vec<LiveStage>) -> (out: Vec<NamedSignal>)
    ensures
        out@.len() == stages@.len(),
        forall|i: int| 0 <= i < out@.len() ==> is_signal_of(#[trigger] out@[i], stages@[i]),
{
    let mut out: Vec<NamedSignal> = Vec::new();
    let mut i: usize = 0;
    while i < stages.len()
        invariant
            i <= stages@.len(),
            out@.len() == i,
            forall|k: int| 0 <= k < i ==> is_signal_of(#[trigger] out@[k], stages@[k]),
        decreases stages@.len() - i,
    {
        let s = &stages[i];
        out.push(
            NamedSignal {
                name: s.name.clone(),
                signal: StageSignal {
                    live: s.live,
                    max: s.max_replicas,
                    queue_depth: s.queue_depth,
                    queue_depth_prev: 0,
                    queue_up_milli: match s.queue_up_milli {
                        Some(q) => q,
                        None => 50_000,
                    },
                },
            },
        );
        i = i + 1;
    }
    out
}

} // verus!
