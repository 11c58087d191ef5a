//! The dispatcher and those who start and watch it.

use epico::config::DispatcherConfig;
use epico::dispatcher::{frontend_binds, scan_n_credits, socket_binds, Broker, SendOutcome, Turn};
use epico::json::{Json, JsonNumber, JsonOut, Whole};
use epico::machine::{
    counted_cpus, linux_affinity_cpu_count, parse_linux_cpu_list_count, pool_slots, split_once,
    wasmtime_version,
};
use epico::supervisor::{dispatcher_args, launch_plan, read_metrics, LaunchFault};

fn b(s: &str) -> Vec<u8> {
    s.as_bytes().to_vec()
}

fn refill(broker: &mut Broker, id: &str, payload: &str) -> Option<bool> {
    broker.refill(&vec![b(id), vec![], b(payload)])
}

#[test]
fn credits_are_read_from_the_payload() {
    assert_eq!(scan_n_credits(&b("{\"n_credits\": 12}")), Some(12));
    assert_eq!(scan_n_credits(&b("{\"n_credits\":0,\"n_credits\":4}")), Some(0));
    assert_eq!(scan_n_credits(&b("{\"n_credits\":99999999999}")), Some(u32::MAX));
    assert_eq!(scan_n_credits(&b("{\"n_credits\":\"x\"}")), None);
    assert_eq!(scan_n_credits(&b("{}")), None);
}

#[test]
fn the_worker_that_waited_longest_gets_the_oldest_events() {
    let mut broker = Broker::new();
    assert_eq!(refill(&mut broker, "w1", "{\"n_credits\":2}"), Some(true));
    assert_eq!(refill(&mut broker, "w2", ""), Some(true));
    assert_eq!(refill(&mut broker, "w2", "{\"n_credits\":1}"), Some(false));
    assert_eq!(broker.refill(&vec![b("w3")]), None);
    for n in 0..5 {
        broker.accept(b(&format!("e{n}")));
    }
    broker.accept(vec![]);
    assert_eq!(broker.event_buffer.len(), 5);

    let turn = broker.next_turn(0, 100, 64).unwrap();
    assert_eq!(turn.worker, b("w1"));
    assert_eq!(turn.count, 2);
    let frames = broker.frames(&turn);
    assert_eq!(frames, vec![b("w1"), vec![], b("e0"), b("e1")]);
    let done = broker.settle(turn, SendOutcome::Sent);
    assert_eq!((done.sent, done.go_on), (2, true));
    assert_eq!(broker.event_buffer[0], b("e2"));

    let turn = broker.next_turn(2, 100, 1).unwrap();
    assert_eq!((turn.worker.clone(), turn.count), (b("w2"), 1));
    broker.settle(turn, SendOutcome::Sent);
    let turn = broker.next_turn(3, 100, 1).unwrap();
    assert_eq!(turn.worker, b("w2"));
    let lost = broker.settle(turn, SendOutcome::Unreachable);
    assert_eq!((lost.sent, lost.go_on), (0, true));
    assert_eq!(broker.event_buffer.len(), 2);
    assert_eq!(broker.workers.len(), 1);
    assert!(broker.next_turn(3, 100, 1).is_none());
}

#[test]
fn a_failed_send_ends_the_round_and_keeps_the_worker() {
    let mut broker = Broker::new();
    refill(&mut broker, "w", "{\"n_credits\":3}");
    broker.accept(b("e"));
    let turn: Turn = broker.next_turn(0, 10, 8).unwrap();
    let r = broker.settle(turn, SendOutcome::Failed);
    assert_eq!((r.sent, r.go_on), (0, false));
    assert_eq!(broker.event_buffer.len(), 1);
    assert_eq!(broker.ready_workers.len(), 1);
    assert!(broker.next_turn(10, 10, 8).is_none());
}

#[test]
fn workers_are_called_for_once() {
    let mut broker = Broker::new();
    assert!(broker.takes_events(1));
    assert!(!broker.calls_for_workers());
    broker.accept(b("e"));
    assert!(!broker.takes_events(1));
    assert!(broker.calls_for_workers());
    assert!(!broker.calls_for_workers());
    refill(&mut broker, "w", "{}");
    assert!(broker.takes_events(1));
}

#[test]
fn the_reply_tells_what_waits() {
    let mut broker = Broker::new();
    refill(&mut broker, "w1", "{}");
    refill(&mut broker, "w2", "");
    broker.accept(b("e"));
    let parsed = vec![Some(Json::Bool(true)), None];
    match broker.reply(&parsed) {
        JsonOut::Object(es) => {
            assert_eq!(es[0].0, "_ctrl");
            assert!(matches!(es[1].1, JsonOut::Count(1)));
            match &es[2].1 {
                JsonOut::Array(items) => {
                    assert!(matches!(items[0], JsonOut::Kept(Json::Bool(true))));
                    assert!(matches!(&items[1], JsonOut::Object(v) if v.is_empty()));
                }
                _ => panic!("no consumers"),
            }
        }
        _ => panic!("no reply"),
    }
}

#[test]
fn sockets_are_bound_where_the_stages_look_for_them() {
    let both = socket_binds("0.0.0.0", 5601, "dispatch-a", "pull", true);
    assert_eq!(both.len(), 2);
    assert!(both.iter().any(|s| s == "tcp://0.0.0.0:5601"));
    assert!(both.iter().any(|s| s.starts_with("ipc://")));
    assert_eq!(socket_binds("*", 1, "n", "ctrl", false), vec!["tcp://*:1"]);
    assert!(frontend_binds(None, None, "*", "n", true).is_none());
    assert_eq!(
        frontend_binds(Some("ipc:///tmp/x"), None, "*", "n", true).unwrap(),
        vec!["ipc:///tmp/x"]
    );
    assert!(frontend_binds(None, Some(7), "*", "n", false).unwrap().contains(&"tcp://*:7".into()));
}

fn dispatcher(name: &str) -> DispatcherConfig {
    DispatcherConfig {
        name: name.into(),
        ctrl_port: 6003,
        push_port: Some(6001),
        pull_port: Some(6002),
        push_uri: None,
        credit_window: 8,
        batch_events: 64,
        placement: "local".into(),
    }
}

#[test]
fn dispatchers_are_started_with_their_ports() {
    let args = dispatcher_args(&dispatcher("dispatch-relay")).unwrap();
    let want = "--name dispatch-relay --pull-port 6002 --ctrl-port 6003 --stage fn-relay \
                --push-port 6001 --credit-window 8";
    assert!(args.join(" ").starts_with(want), "{}", args.join(" "));
    let mut d = dispatcher("dispatch-a");
    d.push_port = None;
    assert!(matches!(dispatcher_args(&d), Err(LaunchFault::NoPush)));
    d.push_uri = Some("ipc:///tmp/a".into());
    assert!(dispatcher_args(&d).unwrap().contains(&"ipc:///tmp/a".to_string()));
    d.pull_port = None;
    assert!(matches!(dispatcher_args(&d), Err(LaunchFault::NoPull)));
    assert_eq!(launch_plan(&vec![dispatcher("dispatch-a"), dispatcher("b")]).unwrap().len(), 2);
    assert!(matches!(launch_plan(&vec![dispatcher("a"), d]), Err((1, LaunchFault::NoPull))));
}

fn whole(n: u64) -> Json {
    Json::Number(JsonNumber {
        whole: Whole::Positive(n),
        bits: (n as f64).to_bits(),
        single: (n as f32).to_bits(),
    })
}

fn object(entries: Vec<(&str, Json)>) -> Json {
    Json::Object(entries.into_iter().map(|(k, v)| (k.to_string(), v)).collect())
}

#[test]
fn metrics_are_read_from_the_reply() {
    let reply = object(vec![
        ("dispatcher_queue_depth", whole(12)),
        (
            "consumers",
            Json::Array(vec![
                object(vec![("total_us", whole(3)), ("serde_ns", whole(500))]),
                object(vec![("total_ns", whole(0))]),
                object(vec![("cold_start_ms", whole(20))]),
            ]),
        ),
    ]);
    let m = read_metrics(&reply).unwrap();
    assert_eq!(m.queue_depth, 12);
    assert_eq!(m.worker_samples, vec![(3_000, 500)]);
    assert_eq!(m.cold_start_ms_seen, vec![20.0f64.to_bits()]);
    assert!(read_metrics(&object(vec![])).is_none());
}

#[test]
fn processors_are_counted() {
    assert_eq!(parse_linux_cpu_list_count("0-3,8"), Some(5));
    assert_eq!(parse_linux_cpu_list_count("7"), Some(1));
    assert_eq!(parse_linux_cpu_list_count(" 0 - 1 , "), Some(2));
    assert_eq!(parse_linux_cpu_list_count("3-1"), None);
    assert_eq!(parse_linux_cpu_list_count("a"), None);
    assert_eq!(parse_linux_cpu_list_count(""), None);
    let status = "Name:\tx\nCpus_allowed_list:\t0-7\nMems:\t1\n";
    assert_eq!(linux_affinity_cpu_count(status), Some(8));
    assert_eq!(linux_affinity_cpu_count("Name:\tx\n"), None);
    assert_eq!(counted_cpus(Some(2), Some(8)), 2);
    assert_eq!(counted_cpus(None, Some(8)), 8);
    assert_eq!(split_once("a=b=c", '=').unwrap().1, "b=c");
    assert!(split_once("abc", '=').is_none());
}

#[test]
fn the_engine_s_version_is_found_in_the_lock_file() {
    let lock = "[[package]]\nname = \"serde\"\nversion = \"1.0.0\"\n\n[[package]]\n\
                name = \"wasmtime\"\nversion = \"26.0.1\"\nsource = \"x\"\n";
    assert_eq!(wasmtime_version(lock).as_deref(), Some("26.0.1"));
    assert_eq!(wasmtime_version("name = \"serde\"\nversion = \"1\""), None);
}

#[test]
fn the_engine_has_room_for_every_replica() {
    assert_eq!(pool_slots(1), Some((100, 400)));
    assert_eq!(pool_slots(100), Some((120, 480)));
    assert_eq!(pool_slots(usize::MAX), None);
}

#[test]
fn a_turn_is_bounded_by_all_its_limits() {
    let mut broker = Broker::new();
    refill(&mut broker, "w", "{\"n_credits\":5}");
    for n in 0..4 {
        broker.accept(b(&format!("e{n}")));
    }
    for (sent, limit, batch, count) in [(0, 100, 64, 4), (0, 100, 3, 3), (8, 10, 64, 2)] {
        let turn = broker.next_turn(sent, limit, batch).unwrap();
        assert_eq!(turn.count, count);
        broker.settle(turn, SendOutcome::Failed);
    }
    assert_eq!(broker.event_buffer.len(), 4);
}

#[test]
fn a_lost_worker_takes_nothing_with_it() {
    let mut broker = Broker::new();
    refill(&mut broker, "w1", "{\"n_credits\":2}");
    refill(&mut broker, "w2", "{\"n_credits\":2}");
    broker.accept(b("e0"));
    broker.accept(b("e1"));
    let turn = broker.next_turn(0, 10, 10).unwrap();
    assert_eq!(turn.worker, b("w1"));
    broker.settle(turn, SendOutcome::Unreachable);
    assert_eq!(broker.event_buffer.len(), 2);
    let turn = broker.next_turn(0, 10, 10).unwrap();
    assert_eq!((turn.worker.clone(), turn.count), (b("w2"), 2));
    assert_eq!(broker.frames(&turn), vec![b("w2"), vec![], b("e0"), b("e1")]);
}
