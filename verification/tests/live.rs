//! Histograms, sketches, windows and the collector's fold.

use epico::fold::{HopTime, LiveCollector};
use epico::hist::{bucket_of, hist_delta, Hist, HIST_BUCKETS};
use epico::live::{LiveStats, Rate};
use epico::timing::{StageTiming, TimingAccum, TimingCursor, TimingRegistry};
use epico::topk::{TopK, TOPK};
use epico::window::{EdgeBucket, Window};

fn us(half_us: u64) -> f64 {
    half_us as f64 / 2.0
}

fn share(s: (u64, u64)) -> f64 {
    if s.1 == 0 {
        0.0
    } else {
        s.0 as f64 / s.1 as f64
    }
}

fn rate(r: Rate) -> f64 {
    if r.seconds == 0 {
        0.0
    } else {
        r.amount as f64 / r.seconds as f64
    }
}

fn slope(s: (i128, i128)) -> f64 {
    s.0 as f64 / s.1 as f64
}

fn ns(seconds: f64) -> u64 {
    (seconds * 1e9).round() as u64
}

fn text(s: &str) -> String {
    s.to_string()
}

#[test]
fn bucket_is_monotonic_and_bounded() {
    let mut last = 0usize;
    for us in [0u64, 1, 2, 3, 4, 7, 8, 15, 100, 1_000, 1_000_000, u64::MAX] {
        let b = bucket_of(us);
        assert!(b < HIST_BUCKETS, "bucket {b} out of range for {us} us");
        assert!(b >= last, "bucket went backwards at {us} us");
        last = b;
    }
    assert_eq!(bucket_of(0), 0);
    assert_eq!(bucket_of(u64::MAX), HIST_BUCKETS - 1);
}

#[test]
fn quantiles_track_a_sorted_vec_within_bucket_width() {
    let mut h = Hist::default();
    let mut raw: Vec<u64> = Vec::new();
    for i in 1..=10_000u64 {
        let v = i * 7 % 5_000 + 1;
        h.observe_us(v);
        raw.push(v);
    }
    raw.sort_unstable();
    for q in [0.5, 0.9, 0.99] {
        let exact = raw[((q * raw.len() as f64).ceil() as usize - 1).min(raw.len() - 1)] as f64;
        let got = us(h.quantile((q * 1000.0) as u64));
        let err = (got - exact).abs() / exact;
        assert!(err < 0.20, "q{q}: hist {got} vs exact {exact} (err {err:.3})");
    }
}

#[test]
fn empty_hist_reports_zero_not_a_panic() {
    let h = Hist::default();
    assert_eq!(us(h.quantile(990)), 0.0);
    assert_eq!(h.total(), 0);
    assert!(h.is_empty());
}

#[test]
fn merge_is_elementwise_add() {
    let mut a = Hist::default();
    let mut b = Hist::default();
    a.observe_us(10);
    a.observe_us(10);
    b.observe_us(10);
    b.observe_us(1_000);
    a.merge(&b);
    assert_eq!(a.total(), 4);
    assert_eq!(a.counts[bucket_of(10)], 3);
    assert_eq!(a.counts[bucket_of(1_000)], 1);
}

#[test]
fn a_delta_is_what_was_added_since() {
    let mut a = Hist::default();
    a.observe_us(10);
    let before = a.clone();
    a.observe_us(10);
    a.observe_us(500);
    let d = hist_delta(&a, &before);
    assert_eq!(d.total(), 2);
    assert_eq!(d.counts[bucket_of(10)], 1);
    assert_eq!(d.counts[bucket_of(500)], 1);
}

#[test]
fn cursor_takes_independent_deltas() {
    let mut shared = StageTiming::default();
    let mut acc = TimingAccum::default();
    for _ in 0..100 {
        acc.observe(10_000, 2_000, 4_000);
    }
    acc.flush_into(&mut shared);

    let mut fast = TimingCursor::default();
    let mut slow = TimingCursor::default();

    let d = fast.advance(&shared).expect("first delta");
    assert_eq!(d.events, 100);
    assert_eq!(d.total_ns_per_event, 10_000);
    assert_eq!(d.wasm_ns_per_event, 4_000);
    assert!((us(d.overhead.quantile(500)) - 6.0).abs() < 1.5);

    assert!(fast.advance(&shared).is_none());

    let d2 = slow.advance(&shared).expect("slow reader delta");
    assert_eq!(d2.events, 100);
}

#[test]
fn accum_flush_resets() {
    let mut shared = StageTiming::default();
    let mut acc = TimingAccum::default();
    acc.observe(1_000, 100, 500);
    assert!(!acc.is_empty());
    acc.flush_into(&mut shared);
    assert!(acc.is_empty());
    acc.flush_into(&mut shared);
    assert_eq!(shared.events, 1);
}

#[test]
fn topk_finds_a_dominant_key_even_after_its_slot_was_taken() {
    let mut t = TopK::default();
    for k in 0..TOPK as u64 {
        t.observe(k);
    }
    for _ in 0..900 {
        t.observe(9999);
    }
    assert!(share(t.top_share()) > 0.9, "top share was {}", share(t.top_share()));
}

#[test]
fn topk_reports_no_skew_for_uniform_traffic() {
    let mut t = TopK::default();
    for i in 0..1_000u64 {
        t.observe(i);
    }
    assert!(share(t.top_share()) < 0.1, "top share was {}", share(t.top_share()));
}

#[test]
fn topk_merge_preserves_totals_not_key_counts() {
    let mut a = TopK::default();
    let mut b = TopK::default();
    for _ in 0..10 {
        a.observe(1);
    }
    for _ in 0..30 {
        b.observe(1);
    }
    for _ in 0..10 {
        b.observe(2);
    }
    a.merge(&b);
    assert_eq!(a.top_share().1, 50);
    assert!((share(a.top_share()) - 40.0 / 50.0).abs() < 1e-9);
}

#[test]
fn empty_topk_is_not_skewed() {
    assert_eq!(share(TopK::default().top_share()), 0.0);
}

#[test]
fn recent_never_yields_the_open_bucket() {
    let mut w: Window<EdgeBucket> = Window::default();
    w.current_mut().count = 7;
    assert_eq!(w.recent(5).len(), 0);
    w.advance();
    assert_eq!(w.recent(5).iter().map(|b| b.count).sum::<u64>(), 7);
}

#[test]
fn rates_average_over_sealed_buckets_only_not_the_asked_window() {
    let mut w: Window<EdgeBucket> = Window::default();
    for _ in 0..3 {
        w.current_mut().count = 100;
        w.advance();
    }
    let mut stats = LiveStats::default();
    stats.set_edge(&text("a"), &text("b"), w);
    assert!((rate(stats.edge_rate(&text("a"), &text("b"), 5)) - 100.0).abs() < 1e-9);
    assert!((rate(stats.edge_rate(&text("a"), &text("b"), 2)) - 100.0).abs() < 1e-9);
}

#[test]
fn queries_on_an_unknown_edge_or_stage_return_zero() {
    let stats = LiveStats::default();
    let (a, b) = (text("nope"), text("nothing"));
    assert_eq!(us(stats.edge_p(&a, &b, 990, 5)), 0.0);
    assert_eq!(rate(stats.edge_rate(&a, &b, 5)), 0.0);
    assert_eq!(rate(stats.edge_bytes_rate(&a, &b, 5)), 0.0);
    assert_eq!(share(stats.key_skew(&a, &b, 5)), 0.0);
    assert_eq!(slope(stats.trend(&a, &b, 990, 5)), 0.0);
    assert_eq!(us(stats.stage_wasm_p(&text("nope"), 990, 5)), 0.0);
    assert_eq!(us(stats.stage_overhead_p(&text("nope"), 990, 5)), 0.0);
}

#[test]
fn trend_signs_match_the_direction_of_travel() {
    let build = |gaps: &[u64]| {
        let mut w: Window<EdgeBucket> = Window::default();
        for g in gaps {
            for _ in 0..50 {
                w.current_mut().gap.observe_us(*g);
            }
            w.advance();
        }
        let mut s = LiveStats::default();
        s.set_edge(&text("a"), &text("b"), w);
        s
    };
    let trend = |s: LiveStats| slope(s.trend(&text("a"), &text("b"), 500, 10));
    assert!(trend(build(&[100, 200, 400, 800])) > 0.0);
    assert!(trend(build(&[800, 400, 200, 100])) < 0.0);
    assert_eq!(trend(build(&[300, 300, 300, 300])), 0.0);
    assert_eq!(trend(build(&[300])), 0.0);
}

fn hops_with_gaps(t0: f64, ab_gap_us: f64, bc_gap_us: f64) -> Vec<HopTime> {
    let us = 1e-6;
    let a_exit = t0 + 10.0 * us;
    let b_enter = a_exit + ab_gap_us * us;
    let b_exit = b_enter + 10.0 * us;
    let c_enter = b_exit + bc_gap_us * us;
    vec![
        HopTime { label: text("a#0"), enter_ns: ns(t0), exit_ns: ns(a_exit) },
        HopTime { label: text("b#1"), enter_ns: ns(b_enter), exit_ns: ns(b_exit) },
        HopTime { label: text("c#0"), enter_ns: ns(c_enter), exit_ns: ns(c_enter + 10.0 * us) },
    ]
}

fn feed(
    lc: &mut LiveCollector,
    reg: &TimingRegistry,
    t: f64,
    hops: Vec<HopTime>,
    bytes: u64,
    key: Option<u64>,
) {
    lc.observe(ns(t), &hops, bytes, key, reg);
}

#[test]
fn fold_attributes_each_gap_to_its_own_edge() {
    let reg = TimingRegistry::default();
    let mut lc = LiveCollector::new();
    for i in 0..500 {
        feed(&mut lc, &reg, 0.1 + i as f64 * 1e-4, hops_with_gaps(1000.0, 2000.0, 5.0), 128, Some(7));
    }
    lc.seal_if_due(ns(1.5), &reg);

    let s = lc.stats();
    let ab_p50 = us(s.edge_p(&text("a"), &text("b"), 500, 5));
    let bc_p50 = us(s.edge_p(&text("b"), &text("c"), 500, 5));
    assert!((ab_p50 - 2000.0).abs() / 2000.0 < 0.20, "a->b p50 = {ab_p50}");
    assert!((bc_p50 - 5.0).abs() / 5.0 < 0.20, "b->c p50 = {bc_p50}");
    assert_eq!(s.edge_count(), 2);
}

#[test]
fn fold_counts_events_and_bytes_per_edge() {
    let reg = TimingRegistry::default();
    let mut lc = LiveCollector::new();
    for i in 0..300 {
        feed(&mut lc, &reg, 0.1 + i as f64 * 1e-4, hops_with_gaps(0.5, 100.0, 100.0), 64, None);
    }
    lc.seal_if_due(ns(1.5), &reg);
    let s = lc.stats();
    let (a, b) = (text("a"), text("b"));
    assert!((rate(s.edge_rate(&a, &b, 5)) - 300.0).abs() < 1.0);
    assert!((rate(s.edge_bytes_rate(&a, &b, 5)) - 300.0 * 64.0).abs() < 64.0);
    assert_eq!(share(s.key_skew(&a, &b, 5)), 0.0);
}

#[test]
fn fold_detects_key_skew() {
    let reg = TimingRegistry::default();
    let mut lc = LiveCollector::new();
    for i in 0..1_000 {
        let key = if i % 10 == 0 { i as u64 } else { 42 };
        feed(&mut lc, &reg, 0.1 + i as f64 * 1e-5, hops_with_gaps(0.5, 50.0, 50.0), 32, Some(key));
    }
    lc.seal_if_due(ns(1.5), &reg);
    let skew = share(lc.stats().key_skew(&text("a"), &text("b"), 5));
    assert!(skew > 0.8, "skew = {}", skew);
}

#[test]
fn a_contracted_edge_reports_a_near_zero_gap() {
    let reg = TimingRegistry::default();
    let mut lc = LiveCollector::new();
    for i in 0..200 {
        feed(&mut lc, &reg, 0.1 + i as f64 * 1e-4, hops_with_gaps(0.5, -0.2, 5.0), 128, None);
    }
    lc.seal_if_due(ns(1.5), &reg);
    let p99 = us(lc.stats().edge_p(&text("a"), &text("b"), 990, 5));
    assert!(p99 < 2.0, "a contracted edge should read sub-2 us, got {p99}");
}

#[test]
fn an_idle_second_seals_an_empty_bucket_and_drops_the_rate() {
    let reg = TimingRegistry::default();
    let mut lc = LiveCollector::new();
    for i in 0..100 {
        feed(&mut lc, &reg, 0.1 + i as f64 * 1e-4, hops_with_gaps(0.5, 100.0, 100.0), 32, None);
    }
    lc.seal_if_due(ns(1.5), &reg);
    let (a, b) = (text("a"), text("b"));
    assert!((rate(lc.stats().edge_rate(&a, &b, 1)) - 100.0).abs() < 1.0);

    lc.seal_if_due(ns(5.5), &reg);
    let s = lc.stats();
    assert!(rate(s.edge_rate(&a, &b, 1)) < 1.0, "1 s rate = {}", rate(s.edge_rate(&a, &b, 1)));
    assert!(rate(s.edge_rate(&a, &b, 5)) < 30.0, "5 s rate = {}", rate(s.edge_rate(&a, &b, 5)));
}

#[test]
fn a_long_idle_gap_does_not_blow_the_ring() {
    let reg = TimingRegistry::default();
    let mut lc = LiveCollector::new();
    feed(&mut lc, &reg, 0.1, hops_with_gaps(0.5, 10.0, 10.0), 32, None);
    lc.seal_if_due(ns(3_600.0), &reg);
    feed(&mut lc, &reg, 3_600.2, hops_with_gaps(0.5, 10.0, 10.0), 32, None);
    lc.seal_if_due(ns(3_601.5), &reg);
}

#[test]
fn stage_windows_follow_the_timing_registry_including_stages_born_later() {
    let mut reg = TimingRegistry::default();
    let mut lc = LiveCollector::new();

    let a = reg.get_or_insert(&text("fn-a"));
    let mut acc = TimingAccum::default();
    for _ in 0..100 {
        acc.observe(10_000, 2_000, 4_000);
    }
    acc.flush_into(reg.timing_mut(a));
    lc.seal_if_due(ns(1.5), &reg);

    let s = lc.stats();
    assert!((us(s.stage_wasm_p(&text("fn-a"), 500, 5)) - 4.0).abs() < 1.0);
    assert!((us(s.stage_overhead_p(&text("fn-a"), 500, 5)) - 6.0).abs() < 1.5);
    assert!((rate(s.stage_rate(&text("fn-a"), 5)) - 100.0).abs() < 1.0);

    let fused = reg.get_or_insert(&text("fn-a+fn-b"));
    let mut acc2 = TimingAccum::default();
    for _ in 0..50 {
        acc2.observe(20_000, 3_000, 9_000);
    }
    acc2.flush_into(reg.timing_mut(fused));
    lc.seal_if_due(ns(2.5), &reg);
    assert!((us(lc.stats().stage_wasm_p(&text("fn-a+fn-b"), 500, 5)) - 9.0).abs() < 2.0);
}

#[test]
fn snapshot_carries_its_own_timestamp() {
    let reg = TimingRegistry::default();
    let mut lc = LiveCollector::new();
    assert_eq!(lc.stats().t_ns, 0);
    feed(&mut lc, &reg, 0.5, hops_with_gaps(0.5, 10.0, 10.0), 32, None);
    lc.seal_if_due(ns(4.25), &reg);
    assert!((lc.stats().t_ns as f64 / 1e9 - 4.25).abs() < 1e-9);
}

#[test]
fn registry_returns_the_same_block_for_a_redeployed_stage() {
    let mut reg = TimingRegistry::default();
    let a1 = reg.get_or_insert(&text("fn-a"));
    reg.timing_mut(a1).events += 5;
    let a2 = reg.get_or_insert(&text("fn-a"));
    assert_eq!(reg.timing(a2).events, 5, "counters must survive a redeploy");
    assert_eq!(reg.len(), 1);
}

#[test]
fn a_long_gap_leaves_nothing_of_the_second_before_it() {
    for (gap, count) in [(299.5, 500), (301.5, 0), (1000.5, 0)] {
        let reg = TimingRegistry::default();
        let mut lc = LiveCollector::new();
        for i in 0..500 {
            let t = 0.1 + i as f64 * 1e-4;
            feed(&mut lc, &reg, t, hops_with_gaps(t, 5.0, 5.0), 1, None);
        }
        lc.seal_if_due(ns(gap), &reg);
        assert_eq!(lc.stats().edge_rate(&text("a"), &text("b"), 300).amount, count);
    }
}

#[test]
fn a_quantile_is_off_by_an_eighth_at_most() {
    for n in [4u64, 5, 7, 8, 100, 1_000, 12_345, 1 << 20, (1 << 24) - 1] {
        let mut h = Hist::default();
        h.observe_us(n);
        let told = us(h.quantile(500));
        assert!((told - n as f64).abs() * 8.0 <= n as f64, "{n} is told as {told}");
    }
    let mut h = Hist::default();
    h.observe_us(4);
    assert_eq!(us(h.quantile(500)), 4.5);
}

#[test]
fn a_long_gap_leaves_nothing_of_a_stage_either() {
    for (gap, p50) in [(200.5, 4.5), (301.5, 0.0)] {
        let mut reg = TimingRegistry::default();
        let mut lc = LiveCollector::new();
        let a = reg.get_or_insert(&text("fn-a"));
        let mut acc = TimingAccum::default();
        acc.observe(10_000, 2_000, 4_000);
        acc.flush_into(reg.timing_mut(a));
        lc.seal_if_due(ns(gap), &reg);
        assert_eq!(us(lc.stats().stage_wasm_p(&text("fn-a"), 500, 300)), p50);
    }
}
