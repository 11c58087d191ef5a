//! The edges between stages, and the barrier at the end of a stream.

use bytes::Bytes;
use epico::boundary::{DriveStep, Driver, EventSource};
use epico::eos::StageEosBarrier;
use epico::inproc::{Backoff, Edge, PopStep, PushStep, Wait};
use epico::spsc::{EdgeIn, EdgeInSrc, EdgeOutSrc, MeshRx, MeshTx, SpscMesh, Swsr};

fn ev(n: u64) -> Bytes {
    Bytes::from(n.to_le_bytes().to_vec())
}

fn num(v: &[u8]) -> u64 {
    let mut b = [0u8; 8];
    b.copy_from_slice(&v[..8]);
    u64::from_le_bytes(b)
}

#[test]
fn single_thread_fifo_and_full_empty() {
    let mut q = Swsr::new(4);
    assert!(q.pop().is_none());
    for i in 0..3 {
        assert!(q.push(ev(i)).is_ok());
    }
    assert!(q.push(ev(3)).is_ok());
    assert!(q.push(ev(99)).is_err());
    for i in 0..4 {
        assert_eq!(num(&q.pop().unwrap()), i);
    }
    assert!(q.pop().is_none());
}

#[test]
fn spsc_two_threads_in_order_no_loss() {
    let mut q = Swsr::new(64);
    const N: u64 = 2_000_000;
    let mut next = 0u64;
    let mut got = 0u64;
    let mut expect = 0u64;
    let mut turn = 0u64;
    while got < N {
        turn += 1;
        for _ in 0..(turn % 70) {
            if next < N && q.push(ev(next)).is_ok() {
                next += 1;
            }
        }
        for _ in 0..(turn * 7 % 61) {
            if let Some(v) = q.pop() {
                assert_eq!(num(&v), expect, "SPSC must preserve order");
                expect += 1;
                got += 1;
            }
        }
    }
    assert_eq!(got, N);
}

struct Feeder {
    tx: MeshTx,
    next: u64,
    end: u64,
    held: Option<Bytes>,
    backoff: Backoff,
}

impl Feeder {
    fn new(pi: usize, from: u64, count: u64) -> Feeder {
        Feeder { tx: MeshTx::new(pi), next: from, end: from + count, held: None, backoff: Backoff::new() }
    }

    fn done(&self) -> bool {
        self.next == self.end && self.held.is_none()
    }

    fn step(&mut self, mesh: &mut SpscMesh) {
        let item = match self.held.take() {
            Some(i) => i,
            None => {
                if self.next == self.end {
                    return;
                }
                self.next += 1;
                ev(self.next - 1)
            }
        };
        match self.tx.push(mesh, item, false, &mut self.backoff) {
            PushStep::Delivered => {}
            PushStep::Blocked(back, _) => self.held = Some(back),
            PushStep::Dropped => panic!("push must not abort"),
        }
    }
}

#[test]
fn mesh_fan_in_from_two_upstream_stages() {
    const A_REPLICAS: usize = 2;
    const B_REPLICAS: usize = 3;
    const NC: usize = 2;
    const PER: u64 = 50_000;

    let mut src = EdgeInSrc::Mesh(SpscMesh::new(A_REPLICAS + B_REPLICAS, NC, 64));
    let a_src = EdgeOutSrc::Mesh { base: 0 };
    let b_src = EdgeOutSrc::Mesh { base: A_REPLICAS };
    let readers: Vec<EdgeIn> = (0..NC).map(|ci| src.for_replica(ci).unwrap()).collect();
    let total = ((A_REPLICAS + B_REPLICAS) as u64) * PER;

    let mut outs = Vec::new();
    for r in 0..A_REPLICAS {
        outs.push((a_src.for_replica(r).unwrap(), r as u64, 0u64, None::<Bytes>));
    }
    for r in 0..B_REPLICAS {
        outs.push((b_src.for_replica(r).unwrap(), 100 + r as u64, 0u64, None::<Bytes>));
    }
    let mut backoff = Backoff::new();
    let mut received = 0u64;
    let mut seen = vec![0u64; 200];
    while received < total {
        for (out, id, k, held) in outs.iter_mut() {
            let item = match held.take() {
                Some(i) => i,
                None if *k < PER => {
                    *k += 1;
                    ev(*id * PER + *k - 1)
                }
                None => continue,
            };
            match out.push(&mut src, item, false, &mut backoff) {
                PushStep::Delivered => {}
                PushStep::Blocked(back, _) => *held = Some(back),
                PushStep::Dropped => panic!("push must not abort"),
            }
        }
        for rx in readers.iter() {
            for _ in 0..3 {
                if let PopStep::Item(v) = rx.pop(&mut src, false, false, &mut backoff) {
                    seen[(num(&v) / PER) as usize] += 1;
                    received += 1;
                }
            }
        }
    }
    assert_eq!(received, total, "fan-in lost or duplicated events");
    for id in [0usize, 1, 100, 101, 102] {
        assert_eq!(seen[id], PER);
    }
    assert_eq!(src.len(), 0);
}

#[test]
fn mesh_close_mid_stream_conserves_events() {
    const NP: usize = 2;
    const NC: usize = 2;
    const PER: u64 = 200_000;
    let mut mesh = SpscMesh::new(NP, NC, 64);
    let c0 = MeshRx::new(&mut mesh, 0);
    let c1 = MeshRx::new(&mut mesh, 1);
    let mut feeders: Vec<Feeder> =
        (0..NP).map(|pi| Feeder::new(pi, (pi as u64) * PER, PER)).collect();
    let mut backoff = Backoff::new();
    let total = (NP as u64) * PER;
    let (mut received, mut sum, mut n1) = (0u64, 0u64, 0u64);
    let (mut drain1, mut done1) = (false, false);
    while received < total {
        for f in feeders.iter_mut() {
            f.step(&mut mesh);
        }
        if !done1 {
            match c1.pop(&mut mesh, drain1, &mut backoff) {
                PopStep::Item(v) => {
                    sum = sum.wrapping_add(num(&v));
                    received += 1;
                    n1 += 1;
                    if n1 == 5_000 {
                        drain1 = true;
                    }
                }
                PopStep::Done => {
                    done1 = true;
                    assert!(mesh.pop(1).is_none(), "residue left after drain-None");
                }
                PopStep::Empty(_) => {}
            }
        }
        let over = feeders.iter().all(|f| f.done()) && done1;
        for _ in 0..2 {
            if let PopStep::Item(v) = c0.pop(&mut mesh, over, &mut backoff) {
                sum = sum.wrapping_add(num(&v));
                received += 1;
            }
        }
    }
    assert!(done1);
    assert_eq!(received, total, "events lost or duplicated");
    let expect_sum = total.wrapping_mul(total - 1) / 2;
    assert_eq!(sum, expect_sum, "payload corruption");
}

#[test]
fn widened_mesh_does_not_strand_events_in_unbound_columns() {
    const NP: usize = 2;
    const N_COLS: usize = 8;
    const N_BOUND: usize = 2;
    const PER: u64 = 20_000;

    let mut mesh = SpscMesh::new(NP, N_COLS, 8);
    let readers: Vec<MeshRx> = (0..N_BOUND).map(|ci| MeshRx::new(&mut mesh, ci)).collect();
    let mut feeders: Vec<Feeder> =
        (0..NP).map(|pi| Feeder::new(pi, (pi as u64) * PER, PER)).collect();
    let mut backoff = Backoff::new();
    let total = (NP as u64) * PER;
    let mut received = 0u64;
    let mut turns = 0u64;
    while received < total && turns < 10 * total {
        turns += 1;
        for f in feeders.iter_mut() {
            f.step(&mut mesh);
        }
        for rx in readers.iter() {
            if let PopStep::Item(_) = rx.pop(&mut mesh, false, &mut backoff) {
                received += 1;
            }
        }
    }
    assert_eq!(received, total, "events stranded in columns no consumer ever bound");
}

#[test]
fn mesh_no_loss_under_concurrency() {
    const NP: usize = 3;
    const NC: usize = 2;
    const PER: u64 = 500_000;
    let mut mesh = SpscMesh::new(NP, NC, 256);
    for ci in 0..NC {
        mesh.reopen_consumer(ci);
    }
    let total = (NP as u64) * PER;
    let mut next = vec![0u64; NP];
    let mut held: Vec<Option<Bytes>> = vec![None; NP];
    let (mut received, mut sum) = (0u64, 0u64);
    while received < total {
        for pi in 0..NP {
            let item = match held[pi].take() {
                Some(i) => i,
                None if next[pi] < PER => {
                    next[pi] += 1;
                    ev((pi as u64) * PER + next[pi] - 1)
                }
                None => continue,
            };
            if let Err(back) = mesh.push(pi, item) {
                held[pi] = Some(back);
            }
        }
        for ci in 0..NC {
            if let Some(v) = mesh.pop(ci) {
                sum = sum.wrapping_add(num(&v));
                received += 1;
            }
        }
    }
    assert_eq!(received, total, "no events lost");
    let expect_sum = total.wrapping_mul(total - 1) / 2;
    assert_eq!(sum, expect_sum, "no dup/corruption");
}

#[test]
fn an_edge_keeps_order_blocks_when_full_and_drains_before_it_ends() {
    let mut edge = Edge::new(2);
    let mut backoff = Backoff::new();
    assert_eq!(edge.capacity(), 2);
    assert!(matches!(edge.push(ev(1), false, &mut backoff), PushStep::Delivered));
    assert!(matches!(edge.push(ev(2), false, &mut backoff), PushStep::Delivered));
    match edge.push(ev(3), false, &mut backoff) {
        PushStep::Blocked(back, _) => assert_eq!(num(&back), 3),
        _ => panic!("a full edge blocks"),
    }
    assert!(matches!(edge.push(ev(3), true, &mut backoff), PushStep::Dropped));
    assert_eq!(edge.len(), 2);
    for n in [1u64, 2] {
        match edge.pop(true, &mut backoff) {
            PopStep::Item(v) => assert_eq!(num(&v), n),
            _ => panic!("what was accepted is handed out first"),
        }
    }
    assert!(matches!(edge.pop(true, &mut backoff), PopStep::Done));
    assert!(matches!(edge.pop(false, &mut backoff), PopStep::Empty(_)));
    assert_eq!(Edge::new(0).capacity(), 1);
}

#[test]
fn waiting_gets_longer() {
    let mut b = Backoff::new();
    assert!(matches!(b.wait(), Wait::Spin(_)));
    let mut slept = Vec::new();
    for _ in 0..100 {
        if let Wait::Sleep(us) = b.wait() {
            slept.push(us);
        }
    }
    assert!(!slept.is_empty());
    assert!(slept.windows(2).all(|w| w[0] <= w[1]));
}

fn marker() -> Bytes {
    Bytes::from_static(b"{\"__epico_eos\":true,\"loadgen_sent\":42}")
}

#[test]
fn last_worker_out_gets_the_marker() {
    let mut b = StageEosBarrier::new(1);
    b.worker_started();
    b.worker_started();
    b.worker_started();

    b.report(marker());
    assert!(b.all_markers_seen());
    assert!(b.begin_finishing());
    assert!(!b.begin_finishing(), "finishing transition must be once-only");

    assert_eq!(b.worker_finished(), None);
    assert_eq!(b.worker_finished(), None);
    let m = b.worker_finished().expect("last worker must get the marker");
    assert_eq!(m, marker());
}

#[test]
fn marker_payload_is_first_wins_and_taken_once() {
    let mut b = StageEosBarrier::new(1);
    b.worker_started();
    b.report(marker());
    b.report(Bytes::from_static(b"{\"__epico_eos\":true,\"late\":true}"));
    b.begin_finishing();
    assert_eq!(b.worker_finished(), Some(marker()));
    b.worker_started();
    assert_eq!(b.worker_finished(), None);
}

#[test]
fn fan_in_waits_for_all_branches() {
    let mut b = StageEosBarrier::new(3);
    b.worker_started();
    b.report(marker());
    b.report(marker());
    assert!(!b.all_markers_seen(), "2 of 3 branches must not finish the stage");
    b.report(marker());
    assert!(b.all_markers_seen());
}

#[test]
fn non_finishing_exits_do_not_release_the_marker() {
    let mut b = StageEosBarrier::new(1);
    b.worker_started();
    b.worker_started();
    b.report(marker());
    assert_eq!(b.worker_finished(), None);
    assert_eq!(b.worker_finished(), None);
}

#[test]
fn markers_move_to_the_stage_that_takes_over() {
    let mut old = StageEosBarrier::new(2);
    old.report(marker());
    let mut new = StageEosBarrier::new(2);
    assert_eq!(old.drain_into(&mut new), 1);
    assert!(!new.all_markers_seen());
    new.report(marker());
    assert!(new.all_markers_seen());
}

struct Counting {
    next: u8,
    end: u8,
}

impl EventSource for Counting {
    fn next_event(&mut self) -> Option<Vec<u8>> {
        if self.next == self.end {
            return None;
        }
        self.next += 1;
        Some(vec![self.next])
    }
}

#[test]
fn a_source_waits_for_room_and_then_ends() {
    let mut source = Counting { next: 0, end: 2 };
    let mut edge = Edge::new(1);
    let mut backoff = Backoff::new();
    let mut d = Driver::new();
    assert!(matches!(d.step(&mut source, &mut edge, false, false, &mut backoff), DriveStep::Pushed));
    for _ in 0..3 {
        let r = d.step(&mut source, &mut edge, false, false, &mut backoff);
        assert!(matches!(r, DriveStep::Blocked(_)));
        assert_eq!(source.next, 2);
        assert_eq!(d.held.as_ref().unwrap()[..], [2]);
    }
    assert_eq!(edge.try_pop().unwrap()[..], [1]);
    assert!(matches!(d.step(&mut source, &mut edge, false, false, &mut backoff), DriveStep::Pushed));
    assert_eq!(d.sent, 2);
    assert!(matches!(d.step(&mut source, &mut edge, false, false, &mut backoff), DriveStep::Ended));
    assert!(d.ended);
    assert_eq!(edge.try_pop().unwrap()[..], [2]);
}

#[test]
fn a_source_is_not_asked_past_its_time() {
    let mut source = Counting { next: 0, end: 9 };
    let mut edge = Edge::new(4);
    let mut backoff = Backoff::new();
    let mut late = Driver::new();
    assert!(matches!(late.step(&mut source, &mut edge, false, true, &mut backoff), DriveStep::Ended));
    let mut stopped = Driver::new();
    assert!(matches!(
        stopped.step(&mut source, &mut edge, true, false, &mut backoff),
        DriveStep::Ended
    ));
    assert_eq!(source.next, 0);
    assert_eq!(edge.len(), 0);
}

#[test]
fn what_a_source_gave_goes_into_the_edge() {
    let mut edge = Edge::new(1);
    let mut backoff = Backoff::new();
    let mut d = Driver::new();
    assert!(matches!(d.offer(Some(vec![7]), &mut edge, false, &mut backoff), DriveStep::Pushed));
    assert!(matches!(d.offer(Some(vec![8]), &mut edge, true, &mut backoff), DriveStep::Ended));
    assert_eq!((d.sent, d.ended), (1, true));
    assert_eq!(edge.try_pop().unwrap()[..], [7]);
    assert!(edge.try_pop().is_none());
    let mut over = Driver::new();
    assert!(over.wants_event(false, false));
    assert!(!over.wants_event(true, false) && !over.wants_event(false, true));
    assert!(matches!(over.offer(None, &mut edge, false, &mut backoff), DriveStep::Ended));
}

#[test]
fn a_closed_column_is_passed_over() {
    let mut mesh = SpscMesh::new(1, 2, 2);
    assert!(mesh.push(0, ev(0)).is_err());
    mesh.reopen_consumer(0);
    mesh.reopen_consumer(1);
    mesh.close_consumer(0);
    assert!(mesh.push(0, ev(1)).is_ok());
    assert!(mesh.push(0, ev(2)).is_ok());
    assert!(mesh.push(0, ev(3)).is_err());
    assert!(mesh.pop(0).is_none());
    assert_eq!(num(&mesh.pop(1).unwrap()), 1);
    assert_eq!(num(&mesh.pop(1).unwrap()), 2);
    assert!(mesh.pop(1).is_none());
}

#[test]
fn a_source_is_driven_by_what_it_gave() {
    let mut source = Counting { next: 0, end: 1 };
    source.set_partition(0, 1);
    let mut edge = Edge::new(1);
    let mut backoff = Backoff::new();
    let mut d = Driver::new();
    let given = source.next_event();
    assert!(matches!(d.advance(given, &mut edge, false, &mut backoff), DriveStep::Pushed));
    assert!(matches!(d.advance(Some(vec![9]), &mut edge, false, &mut backoff), DriveStep::Blocked(_)));
    assert!(!d.wants_event(false, false));
    assert_eq!(edge.try_pop().unwrap()[..], [1]);
    assert!(matches!(d.advance(None, &mut edge, false, &mut backoff), DriveStep::Pushed));
    assert_eq!(edge.try_pop().unwrap()[..], [9]);
    assert!(matches!(d.advance(None, &mut edge, false, &mut backoff), DriveStep::Ended));
    assert!(matches!(d.advance(None, &mut edge, false, &mut backoff), DriveStep::Ended));
    assert_eq!(d.sent, 2);
}
