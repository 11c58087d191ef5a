//! What the start of the dispatchers promises of the arguments that they get.

use vstd::prelude::*;
use crate::config::DispatcherConfig;
use crate::machine::component_slots;
use crate::numtext::decimal;
use crate::supervisor::{launch_args, launch_fault, occurs_first, LaunchFault};
use crate::text::occurs_at;

verus! {

/// The option stands among the arguments with that value behind it.
pub open spec fn is_given(args: Seq<Seq<char>>, option: Seq<char>, value: Seq<char>) -> bool {
    exists|i: int|
        0 <= 2 * i && 2 * i + 1 < args.len() && #[trigger] args[2 * i] == option && args[2 * i + 1]
            == value
}

proof fn lemma_given(args: Seq<Seq<char>>, option: Seq<char>, value: Seq<char>, i: int)
    requires
        0 <= i,
        2 * i + 1 < args.len(),
        args[2 * i] == option,
        args[2 * i + 1] == value,
    ensures
        is_given(args, option, value),
{
}

/// Law: a dispatcher is started with its name, its ports, where it pushes to and its credit
/// window, each behind the option for it.
pub proof fn law_dispatchers_get_their_settings(d: DispatcherConfig)
    requires
        launch_fault(d) is None,
    ensures
        d.pull_port is Some,
        d.push_uri is Some || d.push_port is Some,
        is_given(launch_args(d), "--name"@, d.name@),
        is_given(launch_args(d), "--pull-port"@, decimal(d.pull_port->0 as nat)),
        is_given(launch_args(d), "--ctrl-port"@, decimal(d.ctrl_port as nat)),
        is_given(launch_args(d), "--credit-window"@, decimal(d.credit_window as nat)),
        d.push_uri matches Some(uri) ==> is_given(launch_args(d), "--push-uri"@, uri@),
        d.push_port matches Some(p) ==> is_given(
            launch_args(d),
            "--push-port"@,
            decimal(p as nat),
        ),
{
    let args = launch_args(d);
    lemma_given(args, "--name"@, d.name@, 0);
    lemma_given(args, "--pull-port"@, decimal(d.pull_port->0 as nat), 1);
    lemma_given(args, "--ctrl-port"@, decimal(d.ctrl_port as nat), 2);
    let u: int = if d.push_uri is Some {
        1
    } else {
        0
    };
    let p: int = if d.push_port is Some {
        1
    } else {
        0
    };
    lemma_given(args, "--credit-window"@, decimal(d.credit_window as nat), 4 + u + p);
    if let Some(uri) = d.push_uri {
        lemma_given(args, "--push-uri"@, uri@, 4);
    }
    if let Some(port) = d.push_port {
        lemma_given(args, "--push-port"@, decimal(port as nat), 4 + u);
    }
}

/// Law: a dispatcher is refused just where it has nowhere to push to or nowhere to pull from,
/// and the first is said first.
pub proof fn law_only_cut_off_dispatchers_are_refused(d: DispatcherConfig)
    ensures
        launch_fault(d) is None <==> d.pull_port is Some && (d.push_uri is Some || d.push_port
            is Some),
        launch_fault(d) == Some(LaunchFault::NoPush) <==> d.push_uri is None && d.push_port is None,
{
}

/// Law: a dispatcher that is named after its stage is told the name of that stage.
pub proof fn law_dispatchers_know_their_stage(d: DispatcherConfig, stage: Seq<char>)
    requires
        d.name@ == "dispatch-"@ + stage,
    ensures
        is_given(launch_args(d), "--stage"@, "fn-"@ + stage),
{
    let from = "dispatch-"@;
    let s = d.name@;
    assert(s.subrange(0, from.len() as int) =~= from);
    assert(occurs_first(s, from, 0));
    let i = choose|i: int| occurs_first(s, from, i);
    if i != 0 {
        assert(occurs_at(s, from, 0));
        assert(i > 0);
    }
    assert(s.take(0) + "fn-"@ + s.skip(from.len() as int) =~= "fn-"@ + stage);
    lemma_given(launch_args(d), "--stage"@, "fn-"@ + stage, 3);
}

/// Law: there is room for a fifth more components than replicas, rounded up, and for a hundred
/// at least.
pub proof fn law_there_is_room_to_replace(replicas: nat)
    ensures
        component_slots(replicas) >= 100,
        5 * component_slots(replicas) >= 6 * replicas,
        component_slots(replicas) == 100 || 5 * component_slots(replicas) < 6 * replicas + 5,
{
}

} // verus!
