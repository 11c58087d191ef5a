//! What the controller remembers from one decision to the next: the fusions it
//! made, when it last acted, how deep the queues were, and what it last said.

use vstd::prelude::*;
use crate::config::{fused_name, fused_stage_name, has_name};
use crate::controller::{
    decide, decided, ControllerCfg, Decision, FusedSignal, NamedSignal, PairSignal, Signals,
    StageSignal, request_of,
};
use crate::live::LiveStats;
use crate::morph::{MorphModel, MorphRequest};
use crate::numtext::owned_views;

verus! {

/// A fusion the controller made, and when.
#[derive(Clone, Debug)]
pub struct OwnFusion {
    pub name: String,
    pub a: String,
    pub b: String,
    pub at_ms: u64,
}

/// A fusion the controller made, as a value.
pub struct FusionModel {
    pub name: Seq<char>,
    pub a: Seq<char>,
    pub b: Seq<char>,
    pub at_ms: nat,
}

impl View for OwnFusion {
    type V = FusionModel;

    open spec fn view(&self) -> FusionModel {
        FusionModel { name: self.name@, a: self.a@, b: self.b@, at_ms: self.at_ms as nat }
    }
}

/// What the controller remembers.
#[derive(Debug)]
pub struct ControllerState {
    pub mine: Vec<OwnFusion>,
    pub last_morph_ms: u64,
    pub prev_depths: Vec<(String, u64)>,
    pub last_reason: String,
}

/// What the controller remembers, as a value.
pub struct MemoryModel {
    pub mine: Seq<FusionModel>,
    pub last_morph_ms: nat,
    /// The stages of the last decision and how deep their queues were.
    pub depths: Seq<(Seq<char>, u64)>,
    pub last_reason: Seq<char>,
}

impl View for ControllerState {
    type V = MemoryModel;

    open spec fn view(&self) -> MemoryModel {
        MemoryModel {
            mine: self.mine@.map_values(|f: OwnFusion| f@),
            last_morph_ms: self.last_morph_ms as nat,
            depths: self.prev_depths@.map_values(|d: (String, u64)| (d.0@, d.1)),
            last_reason: self.last_reason@,
        }
    }
}

/// What the loop is to do after a decision.
#[derive(Debug)]
pub enum LoopAction {
    /// Hand the request to the actuator.
    Propose(MorphRequest, String),
    /// Nothing to do, for a reason that has not been given yet.
    Report(String),
    /// Nothing to do, for the same reason as before.
    Nothing,
}

/// How deep a stage's queue was at the last decision.
pub open spec fn depth_of(depths: Seq<(Seq<char>, u64)>, name: Seq<char>) -> Option<u64>
    decreases depths.len(),
{
    if depths.len() == 0 {
        None
    } else if depths[0].0 == name {
        Some(depths[0].1)
    } else {
        depth_of(depths.drop_first(), name)
    }
}

/// What is known about a stage, with the depth its queue had before: its
/// present one, where it is new.
pub open spec fn with_history(n: StageSignal, before: Option<u64>) -> StageSignal {
    StageSignal {
        queue_depth_prev: match before {
            None => n.queue_depth,
            Some(d) => d,
        },
        ..n
    }
}

/// The fusions that are still there.
pub open spec fn still_live(mine: Seq<FusionModel>, live: Seq<Seq<char>>) -> Seq<FusionModel>
    decreases mine.len(),
{
    if mine.len() == 0 {
        Seq::empty()
    } else if has_name(live, mine.last().name) {
        still_live(mine.drop_last(), live).push(mine.last())
    } else {
        still_live(mine.drop_last(), live)
    }
}

/// The fusions but those of one name.
pub open spec fn without(mine: Seq<FusionModel>, name: Seq<char>) -> Seq<FusionModel>
    decreases mine.len(),
{
    if mine.len() == 0 {
        Seq::empty()
    } else if mine.last().name != name {
        without(mine.drop_last(), name).push(mine.last())
    } else {
        without(mine.drop_last(), name)
    }
}

/// What passed since then; nothing, if that is still to come.
pub open spec fn elapsed(now: nat, at: nat) -> nat {
    if now < at {
        0
    } else {
        (now - at) as nat
    }
}

/// The signals a decision is to be taken on: each stage with its history, and
/// the controller's own fusions with their age.
pub struct Gathered {
    pub stages: Vec<NamedSignal>,
    pub fused: Vec<FusedSignal>,
}

impl Gathered {
    /// The signals are those of the present state, seen from what is
    /// remembered.
    pub open spec fn reflects(
        &self,
        seen: Seq<NamedSignal>,
        memory: MemoryModel,
        live: Seq<Seq<char>>,
        now_ms: nat,
    ) -> bool {
        let kept = still_live(memory.mine, live);
        &&& self.stages@.len() == seen.len()
        &&& forall|i: int|
            0 <= i < seen.len() ==> {
                &&& (#[trigger] self.stages@[i]).name@ == seen[i].name@
                &&& self.stages@[i].signal == with_history(
                    seen[i].signal,
                    depth_of(memory.depths, seen[i].name@),
                )
            }
        &&& self.fused@.len() == kept.len()
        &&& forall|i: int|
            0 <= i < kept.len() ==> {
                &&& (#[trigger] self.fused@[i]).name@ == kept[i].name
                &&& self.fused@[i].a@ == kept[i].a
                &&& self.fused@[i].b@ == kept[i].b
                &&& self.fused@[i].age_ms == elapsed(now_ms, kept[i].at_ms)
            }
    }
}

/// The fusions the controller answers for after a decision.
pub open spec fn mine_after(
    kept: Seq<FusionModel>,
    request: Option<MorphModel>,
    now_ms: nat,
) -> Seq<FusionModel> {
    match request {
        Some(MorphModel::Fuse { a, b }) => kept.push(
            FusionModel { name: fused_name(a, b), a, b, at_ms: now_ms },
        ),
        Some(MorphModel::Split { fused }) => without(kept, fused),
        _ => kept,
    }
}

/// What is remembered after a decision.
pub open spec fn memory_after(
    was: MemoryModel,
    seen: Seq<NamedSignal>,
    live: Seq<Seq<char>>,
    now_ms: nat,
    d: (Option<MorphModel>, Seq<char>),
) -> MemoryModel {
    MemoryModel {
        mine: mine_after(still_live(was.mine, live), d.0, now_ms),
        last_morph_ms: if d.0 is Some {
            now_ms
        } else {
            was.last_morph_ms
        },
        depths: seen.map_values(|n: NamedSignal| (n.name@, n.signal.queue_depth)),
        last_reason: if d.0 is Some {
            Seq::empty()
        } else {
            d.1
        },
    }
}

/// The action carries out the decision. A reason is reported when it is not
/// the one that was reported last.
pub open spec fn carries_out(
    act: LoopAction,
    d: (Option<MorphModel>, Seq<char>),
    last_reason: Seq<char>,
) -> bool {
    match act {
        LoopAction::Propose(r, why) => d.0 == Some(r@) && why@ == d.1,
        LoopAction::Report(why) => d.0 is None && why@ == d.1 && d.1 != last_reason,
        LoopAction::Nothing => d.0 is None && d.1 == last_reason,
    }
}

fn find_depth(depths: &Vec<(String, u64)>, name: &String) -> (d: Option<u64>)
    ensures
        d == depth_of(depths@.map_values(|d: (String, u64)| (d.0@, d.1)), name@),
{
    let ghost all = depths@.map_values(|d: (String, u64)| (d.0@, d.1));
    let mut i: usize = 0;
    assert(all.skip(0) =~= all);
    while i < depths.len()
        invariant
            i <= depths@.len(),
            all == depths@.map_values(|d: (String, u64)| (d.0@, d.1)),
            depth_of(all, name@) == depth_of(all.skip(i as int), name@),
        decreases depths@.len() - i,
    {
        assert(all.skip(i as int)[0] == (depths@[i as int].0@, depths@[i as int].1));
        assert(all.skip(i as int).drop_first() =~= all.skip(i + 1));
        if depths[i].0 == *name {
            return Some(depths[i].1);
        }
        i = i + 1;
    }
    None
}

fn is_among(names: &Vec<String>, name: &String) -> (b: bool)
    ensures
        b == has_name(owned_views(names@), name@),
{
    let mut i: usize = 0;
    while i < names.len()
        invariant
            i <= names@.len(),
            forall|k: int| 0 <= k < i ==> #[trigger] owned_views(names@)[k] != name@,
        decreases names@.len() - i,
    {
        assert(owned_views(names@)[i as int] == names@[i as int]@);
        if names[i] == *name {
            return true;
        }
        i = i + 1;
    }
    false
}

impl OwnFusion {
    fn copy_of(&self) -> (f: OwnFusion)
        ensures
            f@ == self@,
    {
        OwnFusion {
            name: self.name.clone(),
            a: self.a.clone(),
            b: self.b.clone(),
            at_ms: self.at_ms,
        }
    }
}

impl ControllerState {
    /// Nothing has been decided yet. The start counts as a morph for the
    /// cooldown.
    pub fn new(now_ms: u64) -> (s: ControllerState)
        ensures
            s@.mine.len() == 0,
            s@.last_morph_ms == now_ms,
            s@.depths.len() == 0,
            s@.last_reason.len() == 0,
    {
        ControllerState {
            mine: Vec::new(),
            last_morph_ms: now_ms,
            prev_depths: Vec::new(),
            last_reason: String::new(),
        }
    }

    /// Forgets the fusions that are no longer there: the actuator refused
    /// them, or something else undid them.
    fn keep_live(&mut self, live: &Vec<String>)
        ensures
            final(self)@ == (MemoryModel {
                mine: still_live(old(self)@.mine, owned_views(live@)),
                ..old(self)@
            }),
    {
        let ghost names = owned_views(live@);
        let ghost all = self@.mine;
        let mut kept: Vec<OwnFusion> = Vec::new();
        let ghost f = |x: OwnFusion| x@;
        let mut i: usize = 0;
        assert(kept@.map_values(f) =~= still_live(all.take(0), names));
        while i < self.mine.len()
            invariant
                i <= self.mine@.len(),
                *self == *old(self),
                names == owned_views(live@),
                f == (|x: OwnFusion| x@),
                all == self@.mine,
                kept@.map_values(f) == still_live(all.take(i as int), names),
            decreases self.mine@.len() - i,
        {
            assert(all.take(i + 1).drop_last() =~= all.take(i as int));
            assert(all[i as int] == self.mine@[i as int]@);
            if is_among(live, &self.mine[i].name) {
                let ghost was = kept@;
                kept.push(self.mine[i].copy_of());
                assert(kept@.map_values(f) =~= was.map_values(f).push(self.mine@[i as int]@));
            }
            i = i + 1;
        }
        assert(all.take(i as int) =~= all);
        self.mine = kept;
        assert(self@.mine =~= still_live(all, names));
        assert(self@.depths =~= old(self)@.depths);
    }

    /// Forgets the fusions of one name.
    fn forget(&mut self, name: &String)
        ensures
            final(self)@ == (MemoryModel {
                mine: without(old(self)@.mine, name@),
                ..old(self)@
            }),
    {
        let ghost all = self@.mine;
        let mut kept: Vec<OwnFusion> = Vec::new();
        let ghost f = |x: OwnFusion| x@;
        let mut i: usize = 0;
        assert(kept@.map_values(f) =~= without(all.take(0), name@));
        while i < self.mine.len()
            invariant
                i <= self.mine@.len(),
                *self == *old(self),
                f == (|x: OwnFusion| x@),
                all == self@.mine,
                kept@.map_values(f) == without(all.take(i as int), name@),
            decreases self.mine@.len() - i,
        {
            assert(all.take(i + 1).drop_last() =~= all.take(i as int));
            assert(all[i as int] == self.mine@[i as int]@);
            if self.mine[i].name != *name {
                let ghost was = kept@;
                kept.push(self.mine[i].copy_of());
                assert(kept@.map_values(f) =~= was.map_values(f).push(self.mine@[i as int]@));
            }
            i = i + 1;
        }
        assert(all.take(i as int) =~= all);
        self.mine = kept;
        assert(self@.mine =~= without(all, name@));
        assert(self@.depths =~= old(self)@.depths);
    }

    /// Puts the signals together, and forgets what is no longer there.
    pub fn gather(&mut self, seen: &Vec<NamedSignal>, live: &Vec<String>, now_ms: u64) -> (g:
        Gathered)
        ensures
            g.reflects(seen@, old(self)@, owned_views(live@), now_ms as nat),
            final(self)@ == (MemoryModel {
                mine: still_live(old(self)@.mine, owned_views(live@)),
                ..old(self)@
            }),
    {
        let mut stages: Vec<NamedSignal> = Vec::new();
        let mut i: usize = 0;
        while i < seen.len()
            invariant
                i <= seen@.len(),
                *self == *old(self),
                stages@.len() == i,
                forall|k: int|
                    0 <= k < i ==> {
                        &&& (#[trigger] stages@[k]).name@ == seen@[k].name@
                        &&& stages@[k].signal == with_history(
                            seen@[k].signal,
                            depth_of(self@.depths, seen@[k].name@),
                        )
                    },
            decreases seen@.len() - i,
        {
            let mut signal = seen[i].signal;
            signal.queue_depth_prev = match find_depth(&self.prev_depths, &seen[i].name) {
                None => signal.queue_depth,
                Some(d) => d,
            };
            stages.push(NamedSignal { name: seen[i].name.clone(), signal });
            i = i + 1;
        }
        self.keep_live(live);
        let mut fused: Vec<FusedSignal> = Vec::new();
        let ghost kept = self@.mine;
        let mut j: usize = 0;
        while j < self.mine.len()
            invariant
                j <= self.mine@.len(),
                kept == self@.mine,
                fused@.len() == j,
                forall|k: int|
                    0 <= k < j ==> {
                        &&& (#[trigger] fused@[k]).name@ == kept[k].name
                        &&& fused@[k].a@ == kept[k].a
                        &&& fused@[k].b@ == kept[k].b
                        &&& fused@[k].age_ms == elapsed(now_ms as nat, kept[k].at_ms)
                    },
            decreases self.mine@.len() - j,
        {
            let m = &self.mine[j];
            assert(kept[j as int] == m@);
            let age_ms: u64 = now_ms.saturating_sub(m.at_ms);
            fused.push(
                FusedSignal { name: m.name.clone(), a: m.a.clone(), b: m.b.clone(), age_ms },
            );
            j = j + 1;
        }
        Gathered { stages, fused }
    }

    /// Takes a decision down, and says what is to be done about it.
    pub fn settle(&mut self, seen: &Vec<NamedSignal>, d: Decision, now_ms: u64) -> (act: LoopAction)
        ensures
            carries_out(act, (request_of(d.request), d.reason@), old(self)@.last_reason),
            final(self)@ == (MemoryModel {
                mine: mine_after(old(self)@.mine, request_of(d.request), now_ms as nat),
                last_morph_ms: if d.request is Some {
                    now_ms as nat
                } else {
                    old(self)@.last_morph_ms
                },
                depths: seen@.map_values(|n: NamedSignal| (n.name@, n.signal.queue_depth)),
                last_reason: if d.request is Some {
                    Seq::empty()
                } else {
                    d.reason@
                },
            }),
    {
        let mut depths: Vec<(String, u64)> = Vec::new();
        let mut i: usize = 0;
        while i < seen.len()
            invariant
                i <= seen@.len(),
                *self == *old(self),
                depths@.len() == i,
                forall|k: int|
                    0 <= k < i ==> (#[trigger] depths@[k]).0@ == seen@[k].name@ && depths@[k].1
                        == seen@[k].signal.queue_depth,
            decreases seen@.len() - i,
        {
            depths.push((seen[i].name.clone(), seen[i].signal.queue_depth));
            i = i + 1;
        }
        self.prev_depths = depths;
        assert(self@.depths =~= seen@.map_values(
            |n: NamedSignal| (n.name@, n.signal.queue_depth),
        ));
        assert(self@.mine =~= old(self)@.mine);
        match d.request {
            Some(request) => {
                match &request {
                    MorphRequest::Fuse { a, b } => {
                        let ghost was = self@.mine;
                        self.mine.push(
                            OwnFusion {
                                name: fused_stage_name(a.as_str(), b.as_str()),
                                a: a.clone(),
                                b: b.clone(),
                                at_ms: now_ms,
                            },
                        );
                        assert(self@.mine =~= mine_after(was, Some(request@), now_ms as nat));
                    },
                    MorphRequest::Split { fused } => {
                        self.forget(fused);
                    },
                    MorphRequest::Identity { .. } => {},
                }
                self.last_morph_ms = now_ms;
                self.last_reason = String::new();
                LoopAction::Propose(request, d.reason)
            },
            None => if d.reason == self.last_reason {
                LoopAction::Nothing
            } else {
                self.last_reason = d.reason.clone();
                LoopAction::Report(d.reason)
            },
        }
    }

    /// One turn of the controller: signals in, decision out.
    pub fn tick(
        &mut self,
        cfg: &ControllerCfg,
        stats: &LiveStats,
        seen: &Vec<NamedSignal>,
        live: &Vec<String>,
        pairs: &Vec<PairSignal>,
        total_pool: usize,
        live_replicas: usize,
        now_ms: u64,
        now_ns: u64,
    ) -> (act: LoopAction)
        requires
            stats.wf(),
        ensures
            exists|g: Gathered|
                #![trigger g.reflects(seen@, old(self)@, owned_views(live@), now_ms as nat)]
                {
                    let d = decided(
                        Signals {
                            stats,
                            stages: &g.stages,
                            pairs,
                            fused: &g.fused,
                            pool_free: elapsed(total_pool as nat, live_replicas as nat) as usize,
                            since_last_morph_ms: elapsed(
                                now_ms as nat,
                                old(self)@.last_morph_ms,
                            ) as u64,
                            now_ns,
                        },
                        *cfg,
                    );
                    &&& g.reflects(seen@, old(self)@, owned_views(live@), now_ms as nat)
                    &&& carries_out(act, d, old(self)@.last_reason)
                    &&& final(self)@ == memory_after(
                        old(self)@,
                        seen@,
                        owned_views(live@),
                        now_ms as nat,
                        d,
                    )
                },
    {
        let since: u64 = now_ms.saturating_sub(self.last_morph_ms);
        let free: usize = total_pool.saturating_sub(live_replicas);
        let g = self.gather(seen, live, now_ms);
        let d = decide(
            &Signals {
                stats,
                stages: &g.stages,
                pairs,
                fused: &g.fused,
                pool_free: free,
                since_last_morph_ms: since,
                now_ns,
            },
            cfg,
        );
        self.settle(seen, d, now_ms)
    }
}

/// Law: the reason for holding still is reported once, and again only after it
/// has changed or a morph has been proposed.
pub proof fn law_same_reason_is_reported_once(
    was: MemoryModel,
    seen: Seq<NamedSignal>,
    live: Seq<Seq<char>>,
    now_ms: nat,
    d: (Option<MorphModel>, Seq<char>),
    act: LoopAction,
)
    requires
        d.0 is None,
        carries_out(act, d, memory_after(was, seen, live, now_ms, d).last_reason),
    ensures
        act is Nothing,
{
}

/// Law: a fusion is this controller's to undo only while it is there.
pub proof fn law_vanished_fusions_are_forgotten(
    mine: Seq<FusionModel>,
    live: Seq<Seq<char>>,
    i: int,
)
    requires
        0 <= i < still_live(mine, live).len(),
    ensures
        has_name(live, still_live(mine, live)[i].name),
        mine.contains(still_live(mine, live)[i]),
    decreases mine.len(),
{
    let rest = mine.drop_last();
    if has_name(live, mine.last().name) && i == still_live(mine, live).len() - 1 {
        assert(mine[mine.len() - 1] == mine.last());
    } else {
        law_vanished_fusions_are_forgotten(rest, live, i);
        let k = choose|k: int| 0 <= k < rest.len() && rest[k] == still_live(rest, live)[i];
        assert(mine[k] == still_live(mine, live)[i]);
    }
}

} // verus!
