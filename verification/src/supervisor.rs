//! How the dispatchers are started, found and asked.

use vstd::prelude::*;
use crate::config::DispatcherConfig;
use crate::json::{count_in, count_of, double_in, double_of, entry, items_in, opt_value, Json};
use crate::numtext::{decimal, decimal_text, owned_views};
use crate::text::{chars_of, occurs_at, starts_with, string_of};

verus! {

/// `p` occurs first at `i`.
pub open spec fn occurs_first(s: Seq<char>, p: Seq<char>, i: int) -> bool {
    occurs_at(s, p, i) && forall|k: int| 0 <= k < i ==> !#[trigger] occurs_at(s, p, k)
}

/// The text with `to` in the place where `from` occurs first.
pub open spec fn replaced_first(s: Seq<char>, from: Seq<char>, to: Seq<char>) -> Seq<char> {
    if exists|i: int| occurs_first(s, from, i) {
        let i = choose|i: int| occurs_first(s, from, i);
        s.take(i) + to + s.skip(i + from.len())
    } else {
        s
    }
}

fn replace_first(s: &str, from: &str, to: &str) -> (out: String)
    ensures
        out@ == replaced_first(s@, from@, to@),
{
    let chars = chars_of(s);
    let n: usize = chars.len();
    let m: usize = chars_of(from).len();
    let mut i: usize = 0;
    loop
        invariant
            i <= n == s@.len(),
            m == from@.len(),
            chars@ == s@,
            forall|k: int| 0 <= k < i ==> !#[trigger] occurs_at(s@, from@, k),
        decreases n - i,
    {
        let rest = string_of(&chars, i, n);
        assert(rest@ =~= s@.skip(i as int));
        if starts_with(rest.as_str(), from) {
            proof {
                assert(s@.skip(i as int).take(m as int) =~= s@.subrange(i as int, i + m));
                assert(occurs_first(s@, from@, i as int));
                let c = choose|c: int| occurs_first(s@, from@, c);
                assert(occurs_first(s@, from@, c));
                if c < i {
                    assert(!occurs_at(s@, from@, c));
                } else if i < c {
                    assert(!occurs_at(s@, from@, i as int));
                }
                assert(c == i);
                assert(s@.subrange(0, i as int) =~= s@.take(i as int));
                assert(s@.subrange(i + m, n as int) =~= s@.skip(i + m));
            }
            let mut out = string_of(&chars, 0, i);
            out.append(to);
            out.append(string_of(&chars, i + m, n).as_str());
            return out;
        }
        assert(!occurs_at(s@, from@, i as int)) by {
            if occurs_at(s@, from@, i as int) {
                assert(s@.skip(i as int).take(m as int) =~= s@.subrange(i as int, i + m));
            }
        }
        if i == n {
            assert forall|k: int| !occurs_first(s@, from@, k) by {}
            return s.to_owned();
        }
        i = i + 1;
    }
}

/// Why a dispatcher cannot be started.
#[derive(Clone, Copy, Debug, PartialEq, Eq, Structural)]
pub enum LaunchFault {
    /// There is neither a port nor an address where it takes events in.
    NoPush,
    /// There is no port for its workers.
    NoPull,
}

/// What keeps a dispatcher from being started.
pub open spec fn launch_fault(d: DispatcherConfig) -> Option<LaunchFault> {
    if d.push_uri is None && d.push_port is None {
        Some(LaunchFault::NoPush)
    } else if d.pull_port is None {
        Some(LaunchFault::NoPull)
    } else {
        None
    }
}

/// The arguments that a dispatcher is started with.
pub open spec fn launch_args(d: DispatcherConfig) -> Seq<Seq<char>> {
    seq![
        "--name"@,
        d.name@,
        "--pull-port"@,
        decimal(d.pull_port->0 as nat),
        "--ctrl-port"@,
        decimal(d.ctrl_port as nat),
        "--stage"@,
        replaced_first(d.name@, "dispatch-"@, "fn-"@),
    ] + (match d.push_uri {
        Some(uri) => seq!["--push-uri"@, uri@],
        None => Seq::empty(),
    }) + (match d.push_port {
        Some(p) => seq!["--push-port"@, decimal(p as nat)],
        None => Seq::empty(),
    }) + seq!["--credit-window"@, decimal(d.credit_window as nat)]
}

pub(crate) fn put(list: &mut Vec<String>, text: &str)
    ensures
        owned_views(final(list)@) == owned_views(old(list)@).push(text@),
{
    let ghost was = list@;
    list.push(text.to_owned());
    assert(owned_views(list@) =~= owned_views(was).push(text@));
}

/// The arguments that a dispatcher is started with.
pub fn dispatcher_args(d: &DispatcherConfig) -> (r: Result<Vec<String>, LaunchFault>)
    ensures
        match r {
            Err(f) => launch_fault(*d) == Some(f),
            Ok(args) => launch_fault(*d) is None && owned_views(args@) == launch_args(*d),
        },
{
    if d.push_uri.is_none() && d.push_port.is_none() {
        return Err(LaunchFault::NoPush);
    }
    let pull: u16 = match d.pull_port {
        None => {
            return Err(LaunchFault::NoPull);
        },
        Some(p) => p,
    };
    let stage = replace_first(d.name.as_str(), "dispatch-", "fn-");
    let mut args: Vec<String> = Vec::new();
    assert(owned_views(args@) =~= Seq::<Seq<char>>::empty());
    put(&mut args, "--name");
    put(&mut args, d.name.as_str());
    put(&mut args, "--pull-port");
    put(&mut args, decimal_text(pull as u128).as_str());
    put(&mut args, "--ctrl-port");
    put(&mut args, decimal_text(d.ctrl_port as u128).as_str());
    put(&mut args, "--stage");
    put(&mut args, stage.as_str());
    let ghost head = owned_views(args@);
    if let Some(uri) = &d.push_uri {
        put(&mut args, "--push-uri");
        put(&mut args, uri.as_str());
        assert(owned_views(args@) =~= head + seq!["--push-uri"@, uri@]);
    } else {
        assert(owned_views(args@) =~= head + Seq::<Seq<char>>::empty());
    }
    let ghost more = owned_views(args@);
    if let Some(p) = d.push_port {
        put(&mut args, "--push-port");
        put(&mut args, decimal_text(p as u128).as_str());
        assert(owned_views(args@) =~= more + seq!["--push-port"@, decimal(p as nat)]);
    } else {
        assert(owned_views(args@) =~= more + Seq::<Seq<char>>::empty());
    }
    let ghost last = owned_views(args@);
    put(&mut args, "--credit-window");
    put(&mut args, decimal_text(d.credit_window as u128).as_str());
    assert(owned_views(args@) =~= last + seq!["--credit-window"@, decimal(
        d.credit_window as nat,
    )]);
    Ok(args)
}

/// The arguments of the dispatchers, in the order in which they are started: the
/// last of the pipeline first, so that each finds the next one running.
pub fn launch_plan(dispatchers: &Vec<DispatcherConfig>) -> (r: Result<
    Vec<Vec<String>>,
    (usize, LaunchFault),
>)
    ensures
        match r {
            Err((i, f)) => {
                &&& i < dispatchers@.len()
                &&& launch_fault(dispatchers@[i as int]) == Some(f)
                &&& forall|k: int|
                    i < k < dispatchers@.len() ==> launch_fault(#[trigger] dispatchers@[k]) is None
            },
            Ok(plan) => {
                &&& forall|k: int|
                    0 <= k < dispatchers@.len() ==> launch_fault(#[trigger] dispatchers@[k]) is None
                &&& plan@.len() == dispatchers@.len()
                &&& forall|k: int|
                    0 <= k < plan@.len() ==> owned_views(#[trigger] plan@[k]@) == launch_args(
                        dispatchers@[dispatchers@.len() - 1 - k],
                    )
            },
        },
{
    let n: usize = dispatchers.len();
    let mut plan: Vec<Vec<String>> = Vec::new();
    let mut i: usize = n;
    while i > 0
        invariant
            i <= n == dispatchers@.len(),
            plan@.len() == n - i,
            forall|k: int| i <= k < n ==> launch_fault(#[trigger] dispatchers@[k]) is None,
            forall|k: int|
                0 <= k < plan@.len() ==> owned_views(#[trigger] plan@[k]@) == launch_args(
                    dispatchers@[n - 1 - k],
                ),
        decreases i,
    {
        match dispatcher_args(&dispatchers[i - 1]) {
            Err(f) => {
                return Err((i - 1, f));
            },
            Ok(args) => {
                plan.push(args);
            },
        }
        i = i - 1;
    }
    Ok(plan)
}

/// What the workers of a stage told, as its dispatcher passes it on.
#[derive(Debug)]
pub struct DispatcherMetrics {
    pub queue_depth: u64,
    /// The time of one event in the worker, and the part of it that reading and
    /// writing took, in nanoseconds.
    pub worker_samples: Vec<(u64, u64)>,
    /// How long workers took to start, in milliseconds, by the bits of the number.
    pub cold_start_ms_seen: Vec<u64>,
}

/// A time in nanoseconds, or else one in microseconds, in nanoseconds.
pub open spec fn time_ns(c: Json, ns: Seq<char>, us: Seq<char>) -> u64 {
    match count_in(entry(c, ns)) {
        Some(n) => n,
        None => match count_in(entry(c, us)) {
            Some(n) => n.wrapping_mul(1000),
            None => 0,
        },
    }
}

/// The times that the workers told; one that told none is passed over.
pub open spec fn worker_times(items: Seq<Json>) -> Seq<(u64, u64)>
    decreases items.len(),
{
    if items.len() == 0 {
        Seq::empty()
    } else {
        let rest = worker_times(items.drop_last());
        let c = items.last();
        let total = time_ns(c, "total_ns"@, "total_us"@);
        if total > 0 {
            rest.push((total, time_ns(c, "serde_ns"@, "serde_us"@)))
        } else {
            rest
        }
    }
}

/// The bits are those of a number above zero.
pub open spec fn is_above_zero(bits: u64) -> bool {
    0 < bits < 0x8000_0000_0000_0000
}

/// The times that the workers took to start.
pub open spec fn cold_starts(items: Seq<Json>) -> Seq<u64>
    decreases items.len(),
{
    if items.len() == 0 {
        Seq::empty()
    } else {
        match double_in(entry(items.last(), "cold_start_ms"@)) {
            Some(b) if is_above_zero(b) => cold_starts(items.drop_last()).push(b),
            _ => cold_starts(items.drop_last()),
        }
    }
}

fn time_of(c: &Json, ns: &str, us: &str) -> (t: u64)
    ensures
        t == time_ns(*c, ns@, us@),
{
    match count_of(c.get(ns)) {
        Some(n) => n,
        None => match count_of(c.get(us)) {
            Some(n) => n.wrapping_mul(1000),
            None => 0,
        },
    }
}

/// Reads the answer of a dispatcher; none where it does not say what it holds.
pub fn read_metrics(reply: &Json) -> (r: Option<DispatcherMetrics>)
    ensures
        match r {
            None => count_in(entry(*reply, "dispatcher_queue_depth"@)) is None,
            Some(m) => {
                let items = items_in(entry(*reply, "consumers"@));
                &&& count_in(entry(*reply, "dispatcher_queue_depth"@)) == Some(m.queue_depth)
                &&& m.worker_samples@ == worker_times(items)
                &&& m.cold_start_ms_seen@ == cold_starts(items)
            },
        },
{
    let queue_depth: u64 = match count_of(reply.get("dispatcher_queue_depth")) {
        None => {
            return None;
        },
        Some(d) => d,
    };
    let mut samples: Vec<(u64, u64)> = Vec::new();
    let mut starts: Vec<u64> = Vec::new();
    let found = reply.get("consumers");
    let ghost items = items_in(opt_value(found));
    assert(items.take(0) =~= Seq::<Json>::empty());
    if let Some(Json::Array(list)) = found {
        let mut i: usize = 0;
        while i < list.len()
            invariant
                i <= list@.len(),
                items == list@,
                samples@ == worker_times(items.take(i as int)),
                starts@ == cold_starts(items.take(i as int)),
            decreases list@.len() - i,
        {
            assert(items.take(i + 1).drop_last() =~= items.take(i as int));
            let c = &list[i];
            let total: u64 = time_of(c, "total_ns", "total_us");
            let serde: u64 = time_of(c, "serde_ns", "serde_us");
            if total > 0 {
                samples.push((total, serde));
            }
            match double_of(c.get("cold_start_ms")) {
                Some(b) => {
                    if 0 < b && b < 0x8000_0000_0000_0000 {
                        starts.push(b);
                    }
                },
                None => {},
            }
            i = i + 1;
        }
        assert(items.take(i as int) =~= items);
    }
    Some(DispatcherMetrics { queue_depth, worker_samples: samples, cold_start_ms_seen: starts })
}

} // verus!
