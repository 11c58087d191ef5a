//! What the measuring of a run promises, and what the blocks of its report tell of it.

use vstd::prelude::*;
use crate::fold::HopTime;
use crate::json::JsonModel;
use crate::report::{run_config_json, stage_run_json, summary, RunTime};
use crate::report_laws::{
    has_entry, is_quantile, law_quantiles_are_quantiles, law_rounding_is_to_the_nearest,
    law_times_are_told_as_they_are, lemma_told, tells, tells_quantile, told,
};
use crate::stats::{at_quantile, greatest, in_order, law_ordered, thinned, thinning};
use crate::summary::{
    by_time, change_json, changes_of, count_actions, counters_block, environment_block,
    event_row, events_block, full_spread, hop_gaps, hop_row, latency_block, replica_json,
    replica_steps, resources_block, scaling_block, short_spread, since, stage_latency,
    stage_scaling, stage_timing, throughput_block, warm_from, warm_window, warmup, with_gap,
    EnvironmentInfo, GapModel,
};
use crate::telemetry::{
    added, bumped, forward_hops, is_observed, is_row_of, is_series_at, is_usable, kept_rows,
    replica_times, series_of, stage_times, EventRow, ResourceSample, RunTelemetry, ScalingEvent,
    SeriesModel, EVENTS_LIVE_CAP, NANOS,
};
use crate::text::before;
use crate::wiring::{RunConfig, StageRun};

verus! {

proof fn lemma_latency_block_keys(e2e: Seq<u64>, stages: SeriesModel)
    ensures
        latency_block(e2e, stages) is Object,
        told(latency_block(e2e, stages), "e2e"@) == Some(latency_block(e2e, stages)->Object_0[0].1),
        told(latency_block(e2e, stages), "per_stage"@) == Some(latency_block(e2e, stages)->Object_0[1].1),
{
    reveal_strlit("e2e");
    reveal_strlit("per_stage");
    let es = latency_block(e2e, stages)->Object_0;
    assert(es.len() == 2);
    assert forall|j: int| 0 < j < 2 implies (#[trigger] es[j]).0 != "e2e"@ by {
        assert(es[j].0.len() != 3);
    }
    lemma_told(es, "e2e"@, 0);
    lemma_told(es, "per_stage"@, 1);
}

proof fn lemma_counters_keys(received: nat, stages: SeriesModel)
    ensures
        counters_block(received, stages) is Object,
        told(counters_block(received, stages), "events_received"@) == Some(counters_block(received, stages)->Object_0[0].1),
        told(counters_block(received, stages), "per_stage_count"@) == Some(counters_block(received, stages)->Object_0[1].1),
{
    reveal_strlit("events_received");
    reveal_strlit("per_stage_count");
    let es = counters_block(received, stages)->Object_0;
    assert(es.len() == 2);
    assert forall|j: int| 0 < j < 2 implies (#[trigger] es[j]).0 != "events_received"@ by {
        assert(es[j].0.len() != 15 || es[j].0[0] != "events_received"@[0]);
    }
    lemma_told(es, "events_received"@, 0);
    lemma_told(es, "per_stage_count"@, 1);
}

proof fn lemma_throughput_keys(
    received: nat,
    seconds: Seq<(u64, u64)>,
    stages: SeriesModel,
    start_ns: nat,
    duration_ns: nat,
)
    ensures
        throughput_block(received, seconds, stages, start_ns, duration_ns) is Object,
        told(throughput_block(received, seconds, stages, start_ns, duration_ns), "sustained_eps"@) == Some(throughput_block(received, seconds, stages, start_ns, duration_ns)->Object_0[0].1),
        told(throughput_block(received, seconds, stages, start_ns, duration_ns), "sustained_eps_warmup_trimmed"@) == Some(throughput_block(received, seconds, stages, start_ns, duration_ns)->Object_0[1].1),
        told(throughput_block(received, seconds, stages, start_ns, duration_ns), "warmup_trim_s"@) == Some(throughput_block(received, seconds, stages, start_ns, duration_ns)->Object_0[2].1),
        told(throughput_block(received, seconds, stages, start_ns, duration_ns), "per_stage_eps"@) == Some(throughput_block(received, seconds, stages, start_ns, duration_ns)->Object_0[3].1),
{
    reveal_strlit("sustained_eps");
    reveal_strlit("sustained_eps_warmup_trimmed");
    reveal_strlit("warmup_trim_s");
    reveal_strlit("per_stage_eps");
    let es = throughput_block(received, seconds, stages, start_ns, duration_ns)->Object_0;
    assert(es.len() == 4);
    assert forall|j: int| 0 < j < 4 implies (#[trigger] es[j]).0 != "sustained_eps"@ by {
        assert(es[j].0.len() != 13 || es[j].0[0] != "sustained_eps"@[0]);
    }
    lemma_told(es, "sustained_eps"@, 0);
    assert forall|j: int| 1 < j < 4 implies (#[trigger] es[j]).0 != "sustained_eps_warmup_trimmed"@ by {
        assert(es[j].0.len() != 28);
    }
    lemma_told(es, "sustained_eps_warmup_trimmed"@, 1);
    assert forall|j: int| 2 < j < 4 implies (#[trigger] es[j]).0 != "warmup_trim_s"@ by {
        assert(es[j].0.len() != 13 || es[j].0[0] != "warmup_trim_s"@[0]);
    }
    lemma_told(es, "warmup_trim_s"@, 2);
    lemma_told(es, "per_stage_eps"@, 3);
}

proof fn lemma_scaling_keys(events: Seq<ScalingEvent>)
    ensures
        stage_scaling(events) is Object,
        told(stage_scaling(events), "replicas_over_time"@) == Some(stage_scaling(events)->Object_0[0].1),
        told(stage_scaling(events), "scale_up_count"@) == Some(stage_scaling(events)->Object_0[1].1),
        told(stage_scaling(events), "scale_down_count"@) == Some(stage_scaling(events)->Object_0[2].1),
        told(stage_scaling(events), "cold_start_count"@) == Some(stage_scaling(events)->Object_0[3].1),
        told(stage_scaling(events), "cold_start_ms"@) == Some(stage_scaling(events)->Object_0[4].1),
        told(stage_scaling(events), "compile_ms"@) == Some(stage_scaling(events)->Object_0[5].1),
        told(stage_scaling(events), "instantiate_pre_ms"@) == Some(stage_scaling(events)->Object_0[6].1),
        told(stage_scaling(events), "events"@) == Some(stage_scaling(events)->Object_0[7].1),
{
    reveal_strlit("replicas_over_time");
    reveal_strlit("scale_up_count");
    reveal_strlit("scale_down_count");
    reveal_strlit("cold_start_count");
    reveal_strlit("cold_start_ms");
    reveal_strlit("compile_ms");
    reveal_strlit("instantiate_pre_ms");
    reveal_strlit("events");
    let es = stage_scaling(events)->Object_0;
    assert(es.len() == 8);
    assert forall|j: int| 0 < j < 8 implies (#[trigger] es[j]).0 != "replicas_over_time"@ by {
        assert(es[j].0.len() != 18 || es[j].0[0] != "replicas_over_time"@[0]);
    }
    lemma_told(es, "replicas_over_time"@, 0);
    assert forall|j: int| 1 < j < 8 implies (#[trigger] es[j]).0 != "scale_up_count"@ by {
        assert(es[j].0.len() != 14);
    }
    lemma_told(es, "scale_up_count"@, 1);
    assert forall|j: int| 2 < j < 8 implies (#[trigger] es[j]).0 != "scale_down_count"@ by {
        assert(es[j].0.len() != 16 || es[j].0[0] != "scale_down_count"@[0]);
    }
    lemma_told(es, "scale_down_count"@, 2);
    assert forall|j: int| 3 < j < 8 implies (#[trigger] es[j]).0 != "cold_start_count"@ by {
        assert(es[j].0.len() != 16);
    }
    lemma_told(es, "cold_start_count"@, 3);
    assert forall|j: int| 4 < j < 8 implies (#[trigger] es[j]).0 != "cold_start_ms"@ by {
        assert(es[j].0.len() != 13);
    }
    lemma_told(es, "cold_start_ms"@, 4);
    assert forall|j: int| 5 < j < 8 implies (#[trigger] es[j]).0 != "compile_ms"@ by {
        assert(es[j].0.len() != 10);
    }
    lemma_told(es, "compile_ms"@, 5);
    assert forall|j: int| 6 < j < 8 implies (#[trigger] es[j]).0 != "instantiate_pre_ms"@ by {
        assert(es[j].0.len() != 18);
    }
    lemma_told(es, "instantiate_pre_ms"@, 6);
    lemma_told(es, "events"@, 7);
}

proof fn lemma_scaling_block_keys(events: Seq<ScalingEvent>, stages: Seq<Seq<char>>)
    ensures
        scaling_block(events, stages) is Object,
        told(scaling_block(events, stages), "per_stage"@) == Some(scaling_block(events, stages)->Object_0[0].1),
        told(scaling_block(events, stages), "total_events"@) == Some(scaling_block(events, stages)->Object_0[1].1),
{
    reveal_strlit("per_stage");
    reveal_strlit("total_events");
    let es = scaling_block(events, stages)->Object_0;
    assert(es.len() == 2);
    assert forall|j: int| 0 < j < 2 implies (#[trigger] es[j]).0 != "per_stage"@ by {
        assert(es[j].0.len() != 9);
    }
    lemma_told(es, "per_stage"@, 0);
    lemma_told(es, "total_events"@, 1);
}

proof fn lemma_change_keys(e: ScalingEvent)
    ensures
        change_json(e) is Object,
        told(change_json(e), "t_s"@) == Some(change_json(e)->Object_0[0].1),
        told(change_json(e), "stage"@) == Some(change_json(e)->Object_0[1].1),
        told(change_json(e), "action"@) == Some(change_json(e)->Object_0[2].1),
        told(change_json(e), "new_count"@) == Some(change_json(e)->Object_0[3].1),
        told(change_json(e), "cold_start_ms"@) == Some(change_json(e)->Object_0[4].1),
        told(change_json(e), "compile_ms"@) == Some(change_json(e)->Object_0[5].1),
        told(change_json(e), "instantiate_pre_ms"@) == Some(change_json(e)->Object_0[6].1),
{
    reveal_strlit("t_s");
    reveal_strlit("stage");
    reveal_strlit("action");
    reveal_strlit("new_count");
    reveal_strlit("cold_start_ms");
    reveal_strlit("compile_ms");
    reveal_strlit("instantiate_pre_ms");
    let es = change_json(e)->Object_0;
    assert(es.len() == 7);
    assert forall|j: int| 0 < j < 7 implies (#[trigger] es[j]).0 != "t_s"@ by {
        assert(es[j].0.len() != 3);
    }
    lemma_told(es, "t_s"@, 0);
    assert forall|j: int| 1 < j < 7 implies (#[trigger] es[j]).0 != "stage"@ by {
        assert(es[j].0.len() != 5);
    }
    lemma_told(es, "stage"@, 1);
    assert forall|j: int| 2 < j < 7 implies (#[trigger] es[j]).0 != "action"@ by {
        assert(es[j].0.len() != 6);
    }
    lemma_told(es, "action"@, 2);
    assert forall|j: int| 3 < j < 7 implies (#[trigger] es[j]).0 != "new_count"@ by {
        assert(es[j].0.len() != 9);
    }
    lemma_told(es, "new_count"@, 3);
    assert forall|j: int| 4 < j < 7 implies (#[trigger] es[j]).0 != "cold_start_ms"@ by {
        assert(es[j].0.len() != 13);
    }
    lemma_told(es, "cold_start_ms"@, 4);
    assert forall|j: int| 5 < j < 7 implies (#[trigger] es[j]).0 != "compile_ms"@ by {
        assert(es[j].0.len() != 10);
    }
    lemma_told(es, "compile_ms"@, 5);
    lemma_told(es, "instantiate_pre_ms"@, 6);
}

proof fn lemma_events_keys(rows: Seq<EventRow>)
    ensures
        events_block(rows) is Object,
        told(events_block(rows), "count"@) == Some(events_block(rows)->Object_0[0].1),
        told(events_block(rows), "subsample_rate"@) == Some(events_block(rows)->Object_0[1].1),
        told(events_block(rows), "rows"@) == Some(events_block(rows)->Object_0[2].1),
{
    reveal_strlit("count");
    reveal_strlit("subsample_rate");
    reveal_strlit("rows");
    let es = events_block(rows)->Object_0;
    assert(es.len() == 3);
    assert forall|j: int| 0 < j < 3 implies (#[trigger] es[j]).0 != "count"@ by {
        assert(es[j].0.len() != 5);
    }
    lemma_told(es, "count"@, 0);
    assert forall|j: int| 1 < j < 3 implies (#[trigger] es[j]).0 != "subsample_rate"@ by {
        assert(es[j].0.len() != 14);
    }
    lemma_told(es, "subsample_rate"@, 1);
    lemma_told(es, "rows"@, 2);
}

proof fn lemma_resources_keys(samples: Seq<ResourceSample>)
    ensures
        resources_block(samples) is Object,
        told(resources_block(samples), "cpu_pct_unit"@) == Some(resources_block(samples)->Object_0[0].1),
        told(resources_block(samples), "cpu_pct_samples"@) == Some(resources_block(samples)->Object_0[1].1),
        told(resources_block(samples), "rss_mb_samples"@) == Some(resources_block(samples)->Object_0[2].1),
        told(resources_block(samples), "sample_count"@) == Some(resources_block(samples)->Object_0[3].1),
{
    reveal_strlit("cpu_pct_unit");
    reveal_strlit("cpu_pct_samples");
    reveal_strlit("rss_mb_samples");
    reveal_strlit("sample_count");
    let es = resources_block(samples)->Object_0;
    assert(es.len() == 4);
    assert forall|j: int| 0 < j < 4 implies (#[trigger] es[j]).0 != "cpu_pct_unit"@ by {
        assert(es[j].0.len() != 12 || es[j].0[0] != "cpu_pct_unit"@[0]);
    }
    lemma_told(es, "cpu_pct_unit"@, 0);
    assert forall|j: int| 1 < j < 4 implies (#[trigger] es[j]).0 != "cpu_pct_samples"@ by {
        assert(es[j].0.len() != 15);
    }
    lemma_told(es, "cpu_pct_samples"@, 1);
    assert forall|j: int| 2 < j < 4 implies (#[trigger] es[j]).0 != "rss_mb_samples"@ by {
        assert(es[j].0.len() != 14);
    }
    lemma_told(es, "rss_mb_samples"@, 2);
    lemma_told(es, "sample_count"@, 3);
}

proof fn lemma_timing_keys(total: Seq<u64>, serde: Seq<u64>, wasm: Seq<u64>)
    ensures
        stage_timing(total, serde, wasm) is Object,
        told(stage_timing(total, serde, wasm), "n"@) == Some(stage_timing(total, serde, wasm)->Object_0[0].1),
        told(stage_timing(total, serde, wasm), "total_us"@) == Some(stage_timing(total, serde, wasm)->Object_0[1].1),
        told(stage_timing(total, serde, wasm), "serde_us"@) == Some(stage_timing(total, serde, wasm)->Object_0[2].1),
        told(stage_timing(total, serde, wasm), "wasm_us"@) == Some(stage_timing(total, serde, wasm)->Object_0[3].1),
        told(stage_timing(total, serde, wasm), "overhead_us"@) == Some(stage_timing(total, serde, wasm)->Object_0[4].1),
        told(stage_timing(total, serde, wasm), "serde_frac_p50"@) == Some(stage_timing(total, serde, wasm)->Object_0[5].1),
{
    reveal_strlit("n");
    reveal_strlit("total_us");
    reveal_strlit("serde_us");
    reveal_strlit("wasm_us");
    reveal_strlit("overhead_us");
    reveal_strlit("serde_frac_p50");
    let es = stage_timing(total, serde, wasm)->Object_0;
    assert(es.len() == 6);
    assert forall|j: int| 0 < j < 6 implies (#[trigger] es[j]).0 != "n"@ by {
        assert(es[j].0.len() != 1);
    }
    lemma_told(es, "n"@, 0);
    assert forall|j: int| 1 < j < 6 implies (#[trigger] es[j]).0 != "total_us"@ by {
        assert(es[j].0.len() != 8 || es[j].0[0] != "total_us"@[0]);
    }
    lemma_told(es, "total_us"@, 1);
    assert forall|j: int| 2 < j < 6 implies (#[trigger] es[j]).0 != "serde_us"@ by {
        assert(es[j].0.len() != 8);
    }
    lemma_told(es, "serde_us"@, 2);
    assert forall|j: int| 3 < j < 6 implies (#[trigger] es[j]).0 != "wasm_us"@ by {
        assert(es[j].0.len() != 7);
    }
    lemma_told(es, "wasm_us"@, 3);
    assert forall|j: int| 4 < j < 6 implies (#[trigger] es[j]).0 != "overhead_us"@ by {
        assert(es[j].0.len() != 11);
    }
    lemma_told(es, "overhead_us"@, 4);
    lemma_told(es, "serde_frac_p50"@, 5);
}

proof fn lemma_replica_keys(m: SeriesModel, stage: Seq<char>, whole: nat, n: nat, s: Seq<u64>)
    ensures
        replica_json(m, stage, whole, n, s) is Object,
        told(replica_json(m, stage, whole, n, s), "count"@) == Some(replica_json(m, stage, whole, n, s)->Object_0[0].1),
        told(replica_json(m, stage, whole, n, s), "share"@) == Some(replica_json(m, stage, whole, n, s)->Object_0[1].1),
        told(replica_json(m, stage, whole, n, s), "p50"@) == Some(replica_json(m, stage, whole, n, s)->Object_0[2].1),
        told(replica_json(m, stage, whole, n, s), "p95"@) == Some(replica_json(m, stage, whole, n, s)->Object_0[3].1),
        told(replica_json(m, stage, whole, n, s), "p99"@) == Some(replica_json(m, stage, whole, n, s)->Object_0[4].1),
        told(replica_json(m, stage, whole, n, s), "max"@) == Some(replica_json(m, stage, whole, n, s)->Object_0[5].1),
        told(replica_json(m, stage, whole, n, s), "mean"@) == Some(replica_json(m, stage, whole, n, s)->Object_0[6].1),
        told(replica_json(m, stage, whole, n, s), "samples"@) == Some(replica_json(m, stage, whole, n, s)->Object_0[7].1),
{
    reveal_strlit("count");
    reveal_strlit("share");
    reveal_strlit("p50");
    reveal_strlit("p95");
    reveal_strlit("p99");
    reveal_strlit("max");
    reveal_strlit("mean");
    reveal_strlit("samples");
    let es = replica_json(m, stage, whole, n, s)->Object_0;
    assert(es.len() == 8);
    assert forall|j: int| 0 < j < 8 implies (#[trigger] es[j]).0 != "count"@ by {
        assert(es[j].0.len() != 5 || es[j].0[0] != "count"@[0]);
    }
    lemma_told(es, "count"@, 0);
    assert forall|j: int| 1 < j < 8 implies (#[trigger] es[j]).0 != "share"@ by {
        assert(es[j].0.len() != 5);
    }
    lemma_told(es, "share"@, 1);
    assert forall|j: int| 2 < j < 8 implies (#[trigger] es[j]).0 != "p50"@ by {
        assert(es[j].0.len() != 3 || es[j].0[0] != "p50"@[0] || es[j].0[1] != "p50"@[1]);
    }
    lemma_told(es, "p50"@, 2);
    assert forall|j: int| 3 < j < 8 implies (#[trigger] es[j]).0 != "p95"@ by {
        assert(es[j].0.len() != 3 || es[j].0[0] != "p95"@[0] || es[j].0[2] != "p95"@[2]);
    }
    lemma_told(es, "p95"@, 3);
    assert forall|j: int| 4 < j < 8 implies (#[trigger] es[j]).0 != "p99"@ by {
        assert(es[j].0.len() != 3 || es[j].0[0] != "p99"@[0]);
    }
    lemma_told(es, "p99"@, 4);
    assert forall|j: int| 5 < j < 8 implies (#[trigger] es[j]).0 != "max"@ by {
        assert(es[j].0.len() != 3);
    }
    lemma_told(es, "max"@, 5);
    assert forall|j: int| 6 < j < 8 implies (#[trigger] es[j]).0 != "mean"@ by {
        assert(es[j].0.len() != 4);
    }
    lemma_told(es, "mean"@, 6);
    lemma_told(es, "samples"@, 7);
}

proof fn lemma_environment_keys(e: EnvironmentInfo)
    ensures
        environment_block(e) is Object,
        told(environment_block(e), "epico_version"@) == Some(environment_block(e)->Object_0[0].1),
        told(environment_block(e), "git_tag"@) == Some(environment_block(e)->Object_0[1].1),
        told(environment_block(e), "host"@) == Some(environment_block(e)->Object_0[2].1),
        told(environment_block(e), "os_name"@) == Some(environment_block(e)->Object_0[3].1),
        told(environment_block(e), "os_version"@) == Some(environment_block(e)->Object_0[4].1),
        told(environment_block(e), "kernel"@) == Some(environment_block(e)->Object_0[5].1),
        told(environment_block(e), "cpu_model"@) == Some(environment_block(e)->Object_0[6].1),
        told(environment_block(e), "cpu_cores_physical"@) == Some(environment_block(e)->Object_0[7].1),
        told(environment_block(e), "cpu_cores_logical"@) == Some(environment_block(e)->Object_0[8].1),
        told(environment_block(e), "ram_total_mb"@) == Some(environment_block(e)->Object_0[9].1),
        told(environment_block(e), "rustc"@) == Some(environment_block(e)->Object_0[10].1),
        told(environment_block(e), "wasmtime"@) == Some(environment_block(e)->Object_0[11].1),
        told(environment_block(e), "git_commit"@) == Some(environment_block(e)->Object_0[12].1),
        told(environment_block(e), "git_dirty"@) == Some(environment_block(e)->Object_0[13].1),
{
    reveal_strlit("epico_version");
    reveal_strlit("git_tag");
    reveal_strlit("host");
    reveal_strlit("os_name");
    reveal_strlit("os_version");
    reveal_strlit("kernel");
    reveal_strlit("cpu_model");
    reveal_strlit("cpu_cores_physical");
    reveal_strlit("cpu_cores_logical");
    reveal_strlit("ram_total_mb");
    reveal_strlit("rustc");
    reveal_strlit("wasmtime");
    reveal_strlit("git_commit");
    reveal_strlit("git_dirty");
    let es = environment_block(e)->Object_0;
    assert(es.len() == 14);
    assert forall|j: int| 0 < j < 14 implies (#[trigger] es[j]).0 != "epico_version"@ by {
        assert(es[j].0.len() != 13);
    }
    lemma_told(es, "epico_version"@, 0);
    assert forall|j: int| 1 < j < 14 implies (#[trigger] es[j]).0 != "git_tag"@ by {
        assert(es[j].0.len() != 7 || es[j].0[0] != "git_tag"@[0]);
    }
    lemma_told(es, "git_tag"@, 1);
    assert forall|j: int| 2 < j < 14 implies (#[trigger] es[j]).0 != "host"@ by {
        assert(es[j].0.len() != 4);
    }
    lemma_told(es, "host"@, 2);
    assert forall|j: int| 3 < j < 14 implies (#[trigger] es[j]).0 != "os_name"@ by {
        assert(es[j].0.len() != 7);
    }
    lemma_told(es, "os_name"@, 3);
    assert forall|j: int| 4 < j < 14 implies (#[trigger] es[j]).0 != "os_version"@ by {
        assert(es[j].0.len() != 10 || es[j].0[0] != "os_version"@[0]);
    }
    lemma_told(es, "os_version"@, 4);
    assert forall|j: int| 5 < j < 14 implies (#[trigger] es[j]).0 != "kernel"@ by {
        assert(es[j].0.len() != 6);
    }
    lemma_told(es, "kernel"@, 5);
    assert forall|j: int| 6 < j < 14 implies (#[trigger] es[j]).0 != "cpu_model"@ by {
        assert(es[j].0.len() != 9 || es[j].0[0] != "cpu_model"@[0]);
    }
    lemma_told(es, "cpu_model"@, 6);
    assert forall|j: int| 7 < j < 14 implies (#[trigger] es[j]).0 != "cpu_cores_physical"@ by {
        assert(es[j].0.len() != 18);
    }
    lemma_told(es, "cpu_cores_physical"@, 7);
    assert forall|j: int| 8 < j < 14 implies (#[trigger] es[j]).0 != "cpu_cores_logical"@ by {
        assert(es[j].0.len() != 17);
    }
    lemma_told(es, "cpu_cores_logical"@, 8);
    assert forall|j: int| 9 < j < 14 implies (#[trigger] es[j]).0 != "ram_total_mb"@ by {
        assert(es[j].0.len() != 12);
    }
    lemma_told(es, "ram_total_mb"@, 9);
    assert forall|j: int| 10 < j < 14 implies (#[trigger] es[j]).0 != "rustc"@ by {
        assert(es[j].0.len() != 5);
    }
    lemma_told(es, "rustc"@, 10);
    assert forall|j: int| 11 < j < 14 implies (#[trigger] es[j]).0 != "wasmtime"@ by {
        assert(es[j].0.len() != 8);
    }
    lemma_told(es, "wasmtime"@, 11);
    assert forall|j: int| 12 < j < 14 implies (#[trigger] es[j]).0 != "git_commit"@ by {
        assert(es[j].0.len() != 10);
    }
    lemma_told(es, "git_commit"@, 12);
    lemma_told(es, "git_dirty"@, 13);
}

proof fn lemma_stage_run_keys(r: StageRun)
    ensures
        stage_run_json(r) is Object,
        told(stage_run_json(r), "stage"@) == Some(stage_run_json(r)->Object_0[0].1),
        told(stage_run_json(r), "credit_window"@) == Some(stage_run_json(r)->Object_0[1].1),
        told(stage_run_json(r), "batch_events"@) == Some(stage_run_json(r)->Object_0[2].1),
        told(stage_run_json(r), "min_replicas"@) == Some(stage_run_json(r)->Object_0[3].1),
        told(stage_run_json(r), "max_replicas"@) == Some(stage_run_json(r)->Object_0[4].1),
        told(stage_run_json(r), "push_uri"@) == Some(stage_run_json(r)->Object_0[5].1),
{
    reveal_strlit("stage");
    reveal_strlit("credit_window");
    reveal_strlit("batch_events");
    reveal_strlit("min_replicas");
    reveal_strlit("max_replicas");
    reveal_strlit("push_uri");
    let es = stage_run_json(r)->Object_0;
    assert(es.len() == 6);
    assert forall|j: int| 0 < j < 6 implies (#[trigger] es[j]).0 != "stage"@ by {
        assert(es[j].0.len() != 5);
    }
    lemma_told(es, "stage"@, 0);
    assert forall|j: int| 1 < j < 6 implies (#[trigger] es[j]).0 != "credit_window"@ by {
        assert(es[j].0.len() != 13);
    }
    lemma_told(es, "credit_window"@, 1);
    assert forall|j: int| 2 < j < 6 implies (#[trigger] es[j]).0 != "batch_events"@ by {
        assert(es[j].0.len() != 12 || es[j].0[0] != "batch_events"@[0]);
    }
    lemma_told(es, "batch_events"@, 2);
    assert forall|j: int| 3 < j < 6 implies (#[trigger] es[j]).0 != "min_replicas"@ by {
        assert(es[j].0.len() != 12 || es[j].0[1] != "min_replicas"@[1]);
    }
    lemma_told(es, "min_replicas"@, 3);
    assert forall|j: int| 4 < j < 6 implies (#[trigger] es[j]).0 != "max_replicas"@ by {
        assert(es[j].0.len() != 12);
    }
    lemma_told(es, "max_replicas"@, 4);
    lemma_told(es, "push_uri"@, 5);
}

proof fn lemma_run_config_keys(r: RunConfig)
    ensures
        run_config_json(r) is Object,
        told(run_config_json(r), "credit_window"@) == Some(run_config_json(r)->Object_0[0].1),
        told(run_config_json(r), "stages"@) == Some(run_config_json(r)->Object_0[1].1),
{
    reveal_strlit("credit_window");
    reveal_strlit("stages");
    let es = run_config_json(r)->Object_0;
    assert(es.len() == 2);
    assert forall|j: int| 0 < j < 2 implies (#[trigger] es[j]).0 != "credit_window"@ by {
        assert(es[j].0.len() != 13);
    }
    lemma_told(es, "credit_window"@, 0);
    lemma_told(es, "stages"@, 1);
}

// ---------------------------------------------------------------------------
// Measuring
// ---------------------------------------------------------------------------

/// No two series have one name.
pub open spec fn names_apart<T>(m: Seq<(Seq<char>, Seq<T>)>) -> bool {
    forall|i: int, j: int|
        0 <= i < m.len() && 0 <= j < m.len() && (#[trigger] m[i]).0 == (#[trigger] m[j]).0 ==> i
            == j
}

/// All that is measured under a name.
pub open spec fn all_of<T>(m: Seq<(Seq<char>, Seq<T>)>, name: Seq<char>) -> Seq<T>
    decreases m.len(),
{
    if m.len() == 0 {
        Seq::empty()
    } else if m.last().0 == name {
        all_of(m.drop_last(), name) + m.last().1
    } else {
        all_of(m.drop_last(), name)
    }
}

proof fn lemma_all_of<T>(m: Seq<(Seq<char>, Seq<T>)>, name: Seq<char>, i: int)
    requires
        names_apart(m),
    ensures
        0 <= i < m.len() && m[i].0 == name ==> all_of(m, name) == m[i].1,
        (forall|k: int| 0 <= k < m.len() ==> (#[trigger] m[k]).0 != name) ==> all_of(m, name)
            == Seq::<T>::empty(),
    decreases m.len(),
{
    if m.len() > 0 {
        let rest = m.drop_last();
        let n = m.len() - 1;
        assert(names_apart(rest)) by {
            assert forall|a: int, b: int|
                0 <= a < rest.len() && 0 <= b < rest.len() && (#[trigger] rest[a]).0 == (
                #[trigger] rest[b]).0 implies a == b by {
                assert(m[a].0 == m[b].0);
            }
        }
        lemma_all_of(rest, name, i);
        if forall|k: int| 0 <= k < m.len() ==> (#[trigger] m[k]).0 != name {
            assert(m[n].0 != name);
            assert forall|k: int| 0 <= k < rest.len() implies (#[trigger] rest[k]).0 != name by {
                assert(m[k].0 != name);
            }
        }
        if 0 <= i < m.len() && m[i].0 == name {
            if i == n {
                assert forall|k: int| 0 <= k < rest.len() implies (#[trigger] rest[k]).0 != name by {
                    if rest[k].0 == name {
                        assert(m[k].0 == m[n].0);
                    }
                }
                assert(Seq::<T>::empty() + m[n].1 =~= m[n].1);
            } else {
                assert(rest[i].0 == name);
                if m[n].0 == name {
                    assert(m[i].0 == m[n].0);
                }
            }
        }
    }
}

proof fn lemma_first_series<T>(m: Seq<(Seq<char>, Seq<T>)>, name: Seq<char>, i: int)
    requires
        0 <= i < m.len(),
        m[i].0 == name,
    ensures
        exists|k: int| is_series_at(m, name, k),
    decreases i,
{
    if forall|k: int| 0 <= k < i ==> (#[trigger] m[k]).0 != name {
        assert(is_series_at(m, name, i));
    } else {
        let k = choose|k: int| 0 <= k < i && (#[trigger] m[k]).0 == name;
        lemma_first_series(m, name, k);
    }
}

/// Law: a measurement that is added under a name comes behind those that are there under
/// it, and nothing changes under any other name.
pub proof fn law_measurements_are_kept<T>(
    m: Seq<(Seq<char>, Seq<T>)>,
    name: Seq<char>,
    v: T,
    other: Seq<char>,
)
    requires
        names_apart(m),
    ensures
        names_apart(added(m, name, v)),
        all_of(added(m, name, v), name) == all_of(m, name).push(v),
        other != name ==> all_of(added(m, name, v), other) == all_of(m, other),
{
    let out = added(m, name, v);
    if exists|i: int| is_series_at(m, name, i) {
        let i = choose|i: int| is_series_at(m, name, i);
        assert(is_series_at(m, name, i));
        assert(names_apart(out)) by {
            assert forall|a: int, b: int|
                0 <= a < out.len() && 0 <= b < out.len() && (#[trigger] out[a]).0 == (
                #[trigger] out[b]).0 implies a == b by {
                assert(m[a].0 == m[b].0);
            }
        }
        lemma_all_of(m, name, i);
        lemma_all_of(out, name, i);
        if other != name {
            if exists|k: int| 0 <= k < m.len() && (#[trigger] m[k]).0 == other {
                let k = choose|k: int| 0 <= k < m.len() && (#[trigger] m[k]).0 == other;
                lemma_all_of(m, other, k);
                lemma_all_of(out, other, k);
            } else {
                lemma_all_of(m, other, 0);
                assert forall|k: int| 0 <= k < out.len() implies (#[trigger] out[k]).0 != other by {
                    assert(m[k].0 != other);
                }
                lemma_all_of(out, other, 0);
            }
        }
    } else {
        assert forall|k: int| 0 <= k < m.len() implies (#[trigger] m[k]).0 != name by {
            if m[k].0 == name {
                lemma_first_series(m, name, k);
            }
        }
        assert(names_apart(out)) by {
            assert forall|a: int, b: int|
                0 <= a < out.len() && 0 <= b < out.len() && (#[trigger] out[a]).0 == (
                #[trigger] out[b]).0 implies a == b by {
                if a < m.len() && b < m.len() {
                    assert(m[a].0 == m[b].0);
                } else if a < m.len() {
                    assert(m[a].0 != name);
                } else if b < m.len() {
                    assert(m[b].0 != name);
                }
            }
        }
        lemma_all_of(m, name, 0);
        assert(out.drop_last() =~= m);
        assert(all_of(m, name) + seq![v] =~= all_of(m, name).push(v));
    }
}

/// The label is that of the stage, or of one of its replicas: the stage's name, and
/// nothing or a `#` behind it.
pub open spec fn is_label_of(label: Seq<char>, stage: Seq<char>) -> bool {
    &&& !stage.contains('#')
    &&& label.len() >= stage.len()
    &&& label.take(stage.len() as int) == stage
    &&& label.len() > stage.len() ==> label[stage.len() as int] == '#'
}

proof fn lemma_cut(label: Seq<char>)
    ensures
        ({
            let b = before(label, '#');
            &&& b.len() <= label.len()
            &&& label.take(b.len() as int) == b
            &&& !b.contains('#')
            &&& b.len() < label.len() ==> label[b.len() as int] == '#'
        }),
    decreases label.len(),
{
    let b = before(label, '#');
    if label.len() > 0 && label[0] != '#' {
        lemma_cut(label.drop_first());
        let c = before(label.drop_first(), '#');
        assert(b =~= seq![label[0]] + c);
        assert forall|i: int| 0 <= i < b.len() implies b[i] != '#' && b[i] == label[i] by {
            if i > 0 {
                assert(c[i - 1] != '#');
                assert(label.drop_first().take(c.len() as int)[i - 1] == c[i - 1]);
            }
        }
        assert(label.take(b.len() as int) =~= b);
    } else {
        assert(label.take(0) =~= b);
    }
}

proof fn lemma_label(label: Seq<char>, stage: Seq<char>)
    ensures
        before(label, '#') == stage <==> is_label_of(label, stage),
{
    lemma_cut(label);
    let b = before(label, '#');
    if is_label_of(label, stage) {
        if b.len() < stage.len() {
            assert(stage[b.len() as int] == label[b.len() as int]);
        } else if b.len() > stage.len() {
            assert(b[stage.len() as int] == label[stage.len() as int]);
            assert(b.contains('#'));
        }
        assert(b =~= stage);
    }
}

/// How long some hops took at a stage, one after the other.
pub open spec fn spent_at(hops: Seq<HopTime>, stage: Seq<char>) -> Seq<u64>
    decreases hops.len(),
{
    if hops.len() == 0 {
        Seq::empty()
    } else {
        let h = hops.last();
        let rest = spent_at(hops.drop_last(), stage);
        if is_label_of(h.label@, stage) {
            rest.push((h.exit_ns - h.enter_ns) as u64)
        } else {
            rest
        }
    }
}

/// Law: the time that an event spent at a stage, from when it came to when it left, is
/// counted for that stage, whichever replica it was, and for no other.
pub proof fn law_stage_times_are_counted(m: SeriesModel, hops: Seq<HopTime>, stage: Seq<char>)
    requires
        names_apart(m),
    ensures
        names_apart(stage_times(m, hops)),
        all_of(stage_times(m, hops), stage) == all_of(m, stage) + spent_at(hops, stage),
    decreases hops.len(),
{
    if hops.len() > 0 {
        let h = hops.last();
        law_stage_times_are_counted(m, hops.drop_last(), stage);
        let rest = stage_times(m, hops.drop_last());
        let name = before(h.label@, '#');
        law_measurements_are_kept(rest, name, (h.exit_ns - h.enter_ns) as u64, stage);
        lemma_label(h.label@, stage);
        assert(all_of(stage_times(m, hops), stage) =~= all_of(m, stage) + spent_at(hops, stage));
    } else {
        assert(all_of(m, stage) + Seq::<u64>::empty() =~= all_of(m, stage));
    }
}

/// How long some hops took at a replica, one after the other.
pub open spec fn spent_with(hops: Seq<HopTime>, label: Seq<char>) -> Seq<u64>
    decreases hops.len(),
{
    if hops.len() == 0 {
        Seq::empty()
    } else {
        let h = hops.last();
        let rest = spent_with(hops.drop_last(), label);
        if h.label@ == label && label.contains('#') {
            rest.push((h.exit_ns - h.enter_ns) as u64)
        } else {
            rest
        }
    }
}

/// Law: and so it is for the replica, where the label names one.
pub proof fn law_replica_times_are_counted(m: SeriesModel, hops: Seq<HopTime>, label: Seq<char>)
    requires
        names_apart(m),
    ensures
        names_apart(replica_times(m, hops)),
        all_of(replica_times(m, hops), label) == all_of(m, label) + spent_with(hops, label),
    decreases hops.len(),
{
    if hops.len() > 0 {
        let h = hops.last();
        law_replica_times_are_counted(m, hops.drop_last(), label);
        let rest = replica_times(m, hops.drop_last());
        law_measurements_are_kept(rest, h.label@, (h.exit_ns - h.enter_ns) as u64, label);
        assert(all_of(replica_times(m, hops), label) =~= all_of(m, label) + spent_with(hops, label));
    } else {
        assert(all_of(m, label) + Seq::<u64>::empty() =~= all_of(m, label));
    }
}

/// How many events came in a second.
pub open spec fn came_in(seconds: Seq<(u64, u64)>, second: u64) -> nat
    decreases seconds.len(),
{
    if seconds.len() == 0 {
        0
    } else {
        came_in(seconds.drop_last(), second) + if seconds.last().0 == second {
            seconds.last().1 as nat
        } else {
            0
        }
    }
}

/// Law: an event is counted in the second in which it came, and in no other.
pub proof fn law_seconds_are_counted(seconds: Seq<(u64, u64)>, second: u64, other: u64)
    requires
        forall|i: int| 0 <= i < seconds.len() ==> (#[trigger] seconds[i]).1 < u64::MAX,
    ensures
        came_in(bumped(seconds, second), second) == came_in(seconds, second) + 1,
        other != second ==> came_in(bumped(seconds, second), other) == came_in(seconds, other),
    decreases seconds.len(),
{
    let out = bumped(seconds, second);
    if seconds.len() == 0 {
        assert(out.drop_last() =~= seconds);
    } else {
        assert(seconds[seconds.len() - 1].1 < u64::MAX);
        if seconds.last().0 == second {
            assert(out.drop_last() =~= seconds.drop_last());
        } else if seconds.last().0 < second {
            assert(out.drop_last() =~= seconds);
        } else {
            assert forall|i: int| 0 <= i < seconds.drop_last().len() implies (
            #[trigger] seconds.drop_last()[i]).1 < u64::MAX by {
                assert(seconds[i].1 < u64::MAX);
            }
            law_seconds_are_counted(seconds.drop_last(), second, other);
            assert(out.drop_last() =~= bumped(seconds.drop_last(), second));
        }
    }
}

/// Law: only hops that end before they begin are left out, and the others stay in order.
pub proof fn law_forward_hops_are_kept(hops: Seq<HopTime>, h: HopTime)
    ensures
        forward_hops(hops.push(h)) == if h.enter_ns <= h.exit_ns {
            forward_hops(hops).push(h)
        } else {
            forward_hops(hops)
        },
        forward_hops(Seq::empty()) == Seq::<HopTime>::empty(),
        forall|i: int|
            0 <= i < forward_hops(hops).len() ==> (#[trigger] forward_hops(hops)[i]).enter_ns
                <= forward_hops(hops)[i].exit_ns,
    decreases hops.len(),
{
    assert(hops.push(h).drop_last() =~= hops);
    if hops.len() > 0 {
        law_forward_hops_are_kept(hops.drop_last(), h);
    }
}

/// Law: what one more event adds to what is measured: its latency, from when it was sent to
/// when it came; how long it waited for its first stage, where it did; the second in
/// which it came; and nothing to what others measure.
pub proof fn law_events_are_accounted_for(
    now: RunTelemetry,
    was: RunTelemetry,
    recv_ns: u64,
    start_ns: u64,
    sent_ns: u64,
    hops: Seq<HopTime>,
    draw: u64,
    stage: Seq<char>,
)
    requires
        is_observed(now, was, recv_ns, start_ns, sent_ns, hops, draw),
        is_usable(recv_ns, Some(sent_ns)),
        names_apart(series_of(was.per_stage@)),
        names_apart(series_of(was.per_replica@)),
        forall|i: int|
            0 <= i < was.recv_per_second@.len() ==> (#[trigger] was.recv_per_second@[i]).1
                < u64::MAX,
    ensures
        now.e2e_ns@.len() == was.e2e_ns@.len() + 1,
        now.e2e_ns@.drop_last() == was.e2e_ns@,
        now.e2e_ns@.last() + sent_ns == recv_ns,
        ({
            let fwd = forward_hops(hops);
            let waited = fwd.len() > 0 && fwd[0].enter_ns >= sent_ns;
            &&& waited ==> now.ingress_wait_ns@.len() == was.ingress_wait_ns@.len() + 1
                && now.ingress_wait_ns@.last() + sent_ns == fwd[0].enter_ns
            &&& !waited ==> now.ingress_wait_ns@ == was.ingress_wait_ns@
            &&& was.ingress_wait_ns@.is_prefix_of(now.ingress_wait_ns@)
            &&& all_of(series_of(now.per_stage@), stage) == all_of(
                series_of(was.per_stage@),
                stage,
            ) + spent_at(fwd, stage)
            &&& all_of(series_of(now.per_replica@), stage) == all_of(
                series_of(was.per_replica@),
                stage,
            ) + spent_with(fwd, stage)
        }),
        came_in(now.recv_per_second@, recv_ns / 1_000_000_000) == came_in(
            was.recv_per_second@,
            recv_ns / 1_000_000_000,
        ) + 1,
        now.scaling_events == was.scaling_events,
        now.resource_samples == was.resource_samples,
        now.total_ns_samples == was.total_ns_samples,
        now.serde_ns_samples == was.serde_ns_samples,
        now.queue_depth_samples == was.queue_depth_samples,
{
    let fwd = forward_hops(hops);
    assert(now.e2e_ns@.drop_last() =~= was.e2e_ns@);
    law_seconds_are_counted(was.recv_per_second@, recv_ns / NANOS, 0);
    law_stage_times_are_counted(series_of(was.per_stage@), fwd, stage);
    law_replica_times_are_counted(series_of(was.per_replica@), fwd, stage);
    assert(was.ingress_wait_ns@ + Seq::<u64>::empty() =~= was.ingress_wait_ns@);
}

/// Law: an event is accounted for just where it says when it was sent and came later than
/// that.
pub proof fn law_only_timed_events_count(recv_ns: u64, sent_ns: Option<u64>)
    ensures
        sent_ns is None ==> !is_usable(recv_ns, sent_ns),
        sent_ns matches Some(s) ==> is_usable(recv_ns, sent_ns) == (s < recv_ns),
{
}

/// Law: an event is kept whole where there is room, and otherwise at the place that was
/// drawn for it, where that is one; every other row stays where it is.
pub proof fn law_rows_are_kept(rows: Seq<EventRow>, row: EventRow, draw: u64)
    requires
        rows.len() <= EVENTS_LIVE_CAP,
    ensures
        ({
            let out = kept_rows(rows, row, draw);
            &&& out.len() <= EVENTS_LIVE_CAP
            &&& rows.len() < EVENTS_LIVE_CAP ==> out.len() == rows.len() + 1 && out.last() == row
            &&& rows.len() == EVENTS_LIVE_CAP ==> out.len() == rows.len()
            &&& rows.len() == EVENTS_LIVE_CAP && draw < rows.len() ==> out[draw as int] == row
            &&& forall|i: int|
                0 <= i < rows.len() && (rows.len() < EVENTS_LIVE_CAP || i != draw)
                    ==> #[trigger] out[i] == rows[i]
        }),
{
}

/// Law: the row of an event tells when it came since the start of the run and how long it
/// took, and has its hops.
pub proof fn law_rows_tell_the_event(
    row: EventRow,
    recv_ns: u64,
    start_ns: u64,
    sent_ns: u64,
    hops: Seq<HopTime>,
)
    requires
        is_row_of(row, recv_ns, start_ns, sent_ns, hops),
    ensures
        row.recv_ns + start_ns == recv_ns,
        row.e2e_ns + sent_ns == recv_ns,
        row.hops@ == forward_hops(hops),
{
}

// ---------------------------------------------------------------------------
// The report
// ---------------------------------------------------------------------------

/// Law: the report of a run tells, of the latencies that the run measured, the quantiles;
/// and it counts as many events as there are latencies.
pub proof fn law_the_report_tells_the_run(
    run_config: JsonModel,
    env: EnvironmentInfo,
    t: RunTelemetry,
    time: RunTime,
    stages: Seq<Seq<char>>,
) -> (r: (JsonModel, JsonModel))
    requires
        t.e2e_ns@.len() > 0,
    ensures
        has_entry(summary(run_config, env, t, time, stages), "latency_ms"@, r.0),
        has_entry(summary(run_config, env, t, time, stages), "counters"@, r.1),
        has_entry(summary(run_config, env, t, time, stages), "run_config"@, run_config),
        told(r.1, "events_received"@) == Some(JsonModel::Count(t.e2e_ns@.len())),
        told(r.0, "e2e"@) matches Some(b) && {
            &&& tells_quantile(b, "p50"@, t.e2e_ns@, 500, 1_000_000, 5)
            &&& tells_quantile(b, "p90"@, t.e2e_ns@, 900, 1_000_000, 5)
            &&& tells_quantile(b, "p95"@, t.e2e_ns@, 950, 1_000_000, 5)
            &&& tells_quantile(b, "p99"@, t.e2e_ns@, 990, 1_000_000, 5)
            &&& tells_quantile(b, "p999"@, t.e2e_ns@, 999, 1_000_000, 5)
        },
{
    let e2e = in_order(t.e2e_ns@);
    let per_stage = series_of(t.per_stage@);
    law_ordered(t.e2e_ns@);
    crate::report_laws::law_end_to_end_latencies_are_told(t.e2e_ns@);
    lemma_latency_block_keys(e2e, per_stage);
    lemma_counters_keys(e2e.len(), per_stage);
    let es = summary(run_config, env, t, time, stages)->Object_0;
    let blocks = crate::report::report_blocks(run_config, env, t, time, stages);
    assert(forall|i: int| 0 <= i < blocks.len() ==> es[i] == #[trigger] blocks[i]);
    assert(es[0] == blocks[0]);
    assert(es[2] == blocks[2]);
    assert(es[4] == blocks[4]);
    assert(es.contains(blocks[0]));
    assert(es.contains(blocks[2]));
    assert(es.contains(blocks[4]));
    (blocks[4].1, blocks[2].1)
}

/// Law: of every stage, the report tells its latencies, and counts the events that went
/// through it.
pub proof fn law_every_stage_is_told(e2e: Seq<u64>, stages: SeriesModel, received: nat, i: int)
    requires
        0 <= i < stages.len(),
    ensures
        told(latency_block(e2e, stages), "per_stage"@) matches Some(b) && has_entry(
            b,
            stages[i].0,
            stage_latency(stages[i].1),
        ),
        told(counters_block(received, stages), "per_stage_count"@) matches Some(b) && has_entry(
            b,
            stages[i].0,
            JsonModel::Count(stages[i].1.len()),
        ),
{
    lemma_latency_block_keys(e2e, stages);
    lemma_counters_keys(received, stages);
    let a = told(latency_block(e2e, stages), "per_stage"@)->0->Object_0;
    let c = told(counters_block(received, stages), "per_stage_count"@)->0->Object_0;
    assert(a[i] == (stages[i].0, stage_latency(stages[i].1)));
    assert(c[i] == (stages[i].0, JsonModel::Count(stages[i].1.len())));
}

/// How many events came in a second or a later one.
pub open spec fn came_since(seconds: Seq<(u64, u64)>, from: nat) -> nat
    decreases seconds.len(),
{
    if seconds.len() == 0 {
        0
    } else if seconds.last().0 < from {
        came_since(seconds.drop_last(), from)
    } else {
        came_since(seconds.drop_last(), from) + seconds.last().1 as nat
    }
}

proof fn lemma_since(seconds: Seq<(u64, u64)>, from: nat)
    ensures
        since(seconds, from) == came_since(seconds, from),
    decreases seconds.len(),
{
    if seconds.len() > 0 {
        lemma_since(seconds.drop_last(), from);
    }
}

/// Law: the start that is left out of a run is a tenth of it, but no more than five seconds;
/// what counts begins in the second in which that is over, and lasts for the rest of
/// the run, or a millisecond where there is less.
pub proof fn law_the_start_is_left_out(start_ns: nat, duration_ns: nat)
    ensures
        warmup(duration_ns) <= duration_ns,
        warmup(duration_ns) <= 10 * 5_000_000_000,
        warmup(duration_ns) == duration_ns || warmup(duration_ns) == 10 * 5_000_000_000,
        warm_from(start_ns, duration_ns) * 10_000_000_000 <= 10 * start_ns + warmup(duration_ns),
        10 * start_ns + warmup(duration_ns) < (warm_from(start_ns, duration_ns) + 1)
            * 10_000_000_000,
        warm_window(duration_ns) >= 10_000_000,
        warm_window(duration_ns) + warmup(duration_ns) >= 10 * duration_ns,
        warm_window(duration_ns) > 10_000_000 ==> warm_window(duration_ns) + warmup(duration_ns)
            == 10 * duration_ns,
{
}

/// Law: the rates are what came over how long it took, to three digits: over the whole run,
/// and without its start.
pub proof fn law_rates_are_events_by_time(
    received: nat,
    seconds: Seq<(u64, u64)>,
    stages: SeriesModel,
    start_ns: nat,
    duration_ns: nat,
    i: int,
)
    requires
        duration_ns > 0,
        0 <= i < stages.len(),
    ensures
        ({
            let b = throughput_block(received, seconds, stages, start_ns, duration_ns);
            let late = came_since(seconds, warm_from(start_ns, duration_ns));
            let w = warm_window(duration_ns);
            &&& told(b, "sustained_eps"@) matches Some(JsonModel::Ratio(q, d)) && d == 1000 && 2 * q
                * duration_ns <= 2 * received * 1_000_000_000_000 + duration_ns && 2 * received
                * 1_000_000_000_000 < 2 * q * duration_ns + duration_ns
            &&& told(b, "sustained_eps_warmup_trimmed"@) matches Some(JsonModel::Ratio(q, d)) && d
                == 1000 && 2 * q * w <= 2 * late * 10_000_000_000_000 + w && 2 * late
                * 10_000_000_000_000 < 2 * q * w + w
            &&& told(b, "warmup_trim_s"@) matches Some(j) && tells(
                j,
                warmup(duration_ns),
                10_000_000_000,
                5_000_000,
            )
            &&& told(b, "per_stage_eps"@) matches Some(per) && has_entry(
                per,
                stages[i].0,
                JsonModel::Ratio(stages[i].1.len() * 1_000_000_000, duration_ns),
            )
        }),
{
    lemma_throughput_keys(received, seconds, stages, start_ns, duration_ns);
    let from = warm_from(start_ns, duration_ns);
    lemma_since(seconds, from);
    law_the_start_is_left_out(start_ns, duration_ns);
    law_rounding_is_to_the_nearest(received * 1_000_000_000_000, duration_ns);
    law_rounding_is_to_the_nearest(
        came_since(seconds, from) * 10_000_000_000_000,
        warm_window(duration_ns),
    );
    law_rounding_is_to_the_nearest(warmup(duration_ns), 10_000_000);
    let b = throughput_block(received, seconds, stages, start_ns, duration_ns);
    let per = told(b, "per_stage_eps"@)->0->Object_0;
    assert(per[i] == (
        stages[i].0,
        JsonModel::Ratio(stages[i].1.len() * 1_000_000_000, duration_ns),
    ));
}

/// How many changes have one of two names.
pub open spec fn changes_named(events: Seq<ScalingEvent>, a: Seq<char>, b: Seq<char>) -> nat
    decreases events.len(),
{
    if events.len() == 0 {
        0
    } else if events.last().action@ == a || events.last().action@ == b {
        changes_named(events.drop_last(), a, b) + 1
    } else {
        changes_named(events.drop_last(), a, b)
    }
}

proof fn lemma_count_actions(events: Seq<ScalingEvent>, a: Seq<char>, b: Seq<char>)
    ensures
        count_actions(events, a, b) == changes_named(events, a, b),
    decreases events.len(),
{
    if events.len() > 0 {
        lemma_count_actions(events.drop_last(), a, b);
    }
}

/// Law: the report of a stage's scaling counts the replicas that were started, those among
/// them that were started cold, and those that were let go; it tells how many there
/// were after every change, from none on, and every change itself, in order.
pub proof fn law_scaling_is_told(events: Seq<ScalingEvent>)
    ensures
        ({
            let b = stage_scaling(events);
            &&& told(b, "scale_up_count"@) == Some(
                JsonModel::Count(changes_named(events, "spawn"@, "cold_start"@)),
            )
            &&& told(b, "scale_down_count"@) == Some(
                JsonModel::Count(changes_named(events, "drain"@, "drain"@)),
            )
            &&& told(b, "cold_start_count"@) == Some(
                JsonModel::Count(changes_named(events, "cold_start"@, "cold_start"@)),
            )
            &&& told(b, "replicas_over_time"@) matches Some(JsonModel::Array(steps)) && {
                &&& steps.len() == events.len() + 1
                &&& forall|i: int|
                    0 <= i < events.len() ==> (#[trigger] steps[i + 1] matches JsonModel::Array(p)
                        && p.len() == 2 && p[1] == JsonModel::Count(events[i].new_count as nat)
                        && tells(p[0], events[i].t_ns as nat, 1_000_000_000, 500_000))
                &&& steps[0] matches JsonModel::Array(p) && p.len() == 2 && p[1]
                    == JsonModel::Count(0) && tells(p[0], 0, 1_000_000_000, 0)
            }
            &&& told(b, "events"@) matches Some(JsonModel::Array(all)) && all.len() == events.len()
                && forall|i: int|
                0 <= i < events.len() ==> #[trigger] all[i] == change_json(events[i])
        }),
{
    lemma_scaling_keys(events);
    lemma_count_actions(events, "spawn"@, "cold_start"@);
    lemma_count_actions(events, "drain"@, "drain"@);
    lemma_count_actions(events, "cold_start"@, "cold_start"@);
    let steps = replica_steps(events);
    assert forall|i: int| 0 <= i < events.len() implies (#[trigger] steps[i + 1]
        matches JsonModel::Array(p) && p.len() == 2 && p[1] == JsonModel::Count(
        events[i].new_count as nat,
    ) && tells(p[0], events[i].t_ns as nat, 1_000_000_000, 500_000)) by {
        law_times_are_told_as_they_are(events[i].t_ns);
    }
}

/// Law: a change is told by its stage, its name, the number of replicas after it, and when
/// it was; a time that was not taken is told as none.
pub proof fn law_changes_are_told(e: ScalingEvent)
    ensures
        told(change_json(e), "stage"@) == Some(JsonModel::Text(e.stage@)),
        told(change_json(e), "action"@) == Some(JsonModel::Text(e.action@)),
        told(change_json(e), "new_count"@) == Some(JsonModel::Count(e.new_count as nat)),
        told(change_json(e), "t_s"@) matches Some(j) && tells(j, e.t_ns as nat, 1_000_000_000, 0),
        tells_time(told(change_json(e), "cold_start_ms"@), e.cold_start_ns),
        tells_time(told(change_json(e), "compile_ms"@), e.compile_ns),
        tells_time(told(change_json(e), "instantiate_pre_ms"@), e.instantiate_pre_ns),
{
    lemma_change_keys(e);
    if let Some(t) = e.cold_start_ns {
        law_times_are_told_as_they_are(t);
    }
    if let Some(t) = e.compile_ns {
        law_times_are_told_as_they_are(t);
    }
    if let Some(t) = e.instantiate_pre_ns {
        law_times_are_told_as_they_are(t);
    }
}

/// A time is told in milliseconds, or none where there is none.
pub open spec fn tells_time(j: Option<JsonModel>, v: Option<u64>) -> bool {
    match v {
        None => j == Some(JsonModel::Null),
        Some(ns) => j matches Some(x) && tells(x, ns as nat, 1_000_000, 0),
    }
}

/// Law: the changes of a stage are those that name it, in their order, and all of them.
pub proof fn law_changes_go_to_their_stage(
    events: Seq<ScalingEvent>,
    e: ScalingEvent,
    stage: Seq<char>,
    stages: Seq<Seq<char>>,
    i: int,
)
    requires
        0 <= i < stages.len(),
    ensures
        changes_of(Seq::empty(), stage) == Seq::<ScalingEvent>::empty(),
        changes_of(events.push(e), stage) == if e.stage@ == stage {
            changes_of(events, stage).push(e)
        } else {
            changes_of(events, stage)
        },
        told(scaling_block(events, stages), "per_stage"@) matches Some(b) && has_entry(
            b,
            stages[i],
            stage_scaling(changes_of(events, stages[i])),
        ),
        told(scaling_block(events, stages), "total_events"@) == Some(
            JsonModel::Count(events.len()),
        ),
{
    assert(events.push(e).drop_last() =~= events);
    lemma_scaling_block_keys(events, stages);
    let per = told(scaling_block(events, stages), "per_stage"@)->0->Object_0;
    assert(per[i] == (stages[i], stage_scaling(changes_of(events, stages[i]))));
}

/// Law: an event that is kept whole is told by when it came, how long it took, and its hops:
/// where each was, when it began and when it ended.
pub proof fn law_rows_are_told(r: EventRow, i: int)
    requires
        0 <= i < r.hops@.len(),
        r.recv_ns >= 0,
    ensures
        event_row(r) matches JsonModel::Array(p) && {
            &&& p.len() == 3
            &&& tells(p[0], r.recv_ns as nat, 1_000_000_000, 500)
            &&& tells(p[1], r.e2e_ns as nat, 1_000_000, 50)
            &&& p[2] matches JsonModel::Array(hs) && hs.len() == r.hops@.len() && (hs[i]
                matches JsonModel::Array(h) && {
                &&& h.len() == 3
                &&& h[0] == JsonModel::Text(r.hops@[i].label@)
                &&& tells(h[1], r.hops@[i].enter_ns as nat, 1_000_000_000, 0)
                &&& tells(h[2], r.hops@[i].exit_ns as nat, 1_000_000_000, 0)
            })
        },
{
    law_rounding_is_to_the_nearest(r.recv_ns as nat, 1000);
    law_rounding_is_to_the_nearest(r.e2e_ns as nat, 100);
    let hs = event_row(r)->Array_0[2]->Array_0;
    assert(hs[i] == hop_row(r.hops@[i]));
}

/// Law: the events that are kept whole are counted, and told in the order in which they
/// came: all of them where there are few enough.
pub proof fn law_kept_events_are_told(rows: Seq<EventRow>)
    ensures
        told(events_block(rows), "count"@) == Some(JsonModel::Count(rows.len())),
        told(events_block(rows), "rows"@) matches Some(JsonModel::Array(out)) && {
            &&& out.len() <= crate::summary::EVENTS_SAMPLE_CAP
            &&& rows.len() <= crate::summary::EVENTS_SAMPLE_CAP ==> out.len() == rows.len()
                && forall|i: int|
                0 <= i < out.len() ==> #[trigger] out[i] == event_row(by_time(rows)[i])
        },
        crate::summary::is_by_time(by_time(rows)),
        by_time(rows).to_multiset() == rows.to_multiset(),
{
    lemma_events_keys(rows);
    crate::summary::law_by_time_is_stable(rows);
    let cap = crate::summary::EVENTS_SAMPLE_CAP as nat;
    let o = by_time(rows);
    crate::stats::law_thinned_is_bounded(o, cap);
    lemma_by_time_values(rows);
    if rows.len() <= cap {
        let k = thinning(o.len(), cap) as int;
        assert(k == 1);
        assert((o.len() + k - 1) / k == o.len()) by (nonlinear_arith)
            requires
                k == 1,
        ;
        let out = told(events_block(rows), "rows"@)->0->Array_0;
        assert forall|i: int| 0 <= i < out.len() implies #[trigger] out[i] == event_row(o[i]) by {
            assert(i * k == i) by (nonlinear_arith)
                requires
                    k == 1,
            ;
            assert(thinned(o, cap)[i] == o[i * k]);
        }
    }
}

proof fn lemma_with_row_values(s: Seq<EventRow>, r: EventRow)
    ensures
        crate::summary::with_row(s, r).to_multiset() == s.to_multiset().insert(r),
        crate::summary::with_row(s, r).len() == s.len() + 1,
    decreases s.len(),
{
    broadcast use vstd::seq_lib::group_to_multiset_ensures;

    if s.len() == 0 {
        assert(seq![r] =~= s.push(r));
    } else if s.last().recv_ns > r.recv_ns {
        lemma_with_row_values(s.drop_last(), r);
        assert(s =~= s.drop_last().push(s.last()));
        assert(crate::summary::with_row(s, r).to_multiset() =~= s.to_multiset().insert(r));
    }
}

proof fn lemma_by_time_values(rows: Seq<EventRow>)
    ensures
        by_time(rows).to_multiset() == rows.to_multiset(),
        by_time(rows).len() == rows.len(),
    decreases rows.len(),
{
    broadcast use vstd::seq_lib::group_to_multiset_ensures;

    if rows.len() > 0 {
        lemma_by_time_values(rows.drop_last());
        lemma_with_row_values(by_time(rows.drop_last()), rows.last());
        assert(rows =~= rows.drop_last().push(rows.last()));
    } else {
        assert(by_time(rows) =~= rows);
    }
}

/// Law: the use of resources is told sample by sample: when, how much of the processors, and
/// how many mebibytes of memory.
pub proof fn law_resources_are_told(samples: Seq<ResourceSample>, i: int)
    requires
        0 <= i < samples.len(),
    ensures
        ({
            let b = resources_block(samples);
            &&& told(b, "sample_count"@) == Some(JsonModel::Count(samples.len()))
            &&& told(b, "cpu_pct_samples"@) matches Some(JsonModel::Array(out)) && out.len()
                == samples.len() && (out[i] matches JsonModel::Array(p) && p.len() == 2 && tells(
                p[0],
                samples[i].t_ns as nat,
                1_000_000_000,
                500_000,
            ) && p[1] == JsonModel::Ratio(samples[i].cpu_centi as nat, 100))
            &&& told(b, "rss_mb_samples"@) matches Some(JsonModel::Array(out)) && out.len()
                == samples.len() && (out[i] matches JsonModel::Array(p) && p.len() == 2 && tells(
                p[0],
                samples[i].t_ns as nat,
                1_000_000_000,
                500_000,
            ) && (p[1] matches JsonModel::Count(mb) && mb * 1_048_576 <= samples[i].rss_bytes
                && samples[i].rss_bytes < (mb + 1) * 1_048_576))
        }),
{
    lemma_resources_keys(samples);
    law_times_are_told_as_they_are(samples[i].t_ns);
    let a = told(resources_block(samples), "cpu_pct_samples"@)->0->Array_0;
    let b = told(resources_block(samples), "rss_mb_samples"@)->0->Array_0;
    assert(a[i] is Array);
    assert(b[i] is Array);
}

/// Law: of a stage's workers the report tells how long they took in all, how long for reading
/// and writing, and how long for the component itself, each under its own name; and
/// what is left of the median and of the greatest but one in a hundred.
pub proof fn law_worker_times_are_told(total: Seq<u64>, serde: Seq<u64>, wasm: Seq<u64>)
    requires
        total.len() > 0,
        serde.len() > 0,
        wasm.len() > 0,
    ensures
        ({
            let b = stage_timing(total, serde, wasm);
            &&& told(b, "total_us"@) matches Some(x) && tells_quantile(
                x,
                "p99"@,
                total,
                990,
                1000,
                0,
            )
            &&& told(b, "total_us"@) == Some(full_spread(in_order(total)))
            &&& told(b, "serde_us"@) matches Some(x) && tells_quantile(
                x,
                "p99"@,
                serde,
                990,
                1000,
                0,
            )
            &&& told(b, "serde_us"@) == Some(short_spread(in_order(serde)))
            &&& told(b, "wasm_us"@) matches Some(x) && tells_quantile(x, "p99"@, wasm, 990, 1000, 0)
            &&& told(b, "wasm_us"@) == Some(full_spread(in_order(wasm)))
            &&& told(b, "n"@) matches Some(JsonModel::Count(n)) && n >= total.len() && n
                >= serde.len() && n >= wasm.len() && (n == total.len() || n == serde.len() || n
                == wasm.len())
        }),
{
    lemma_timing_keys(total, serde, wasm);
    law_ordered(total);
    law_ordered(serde);
    law_ordered(wasm);
    crate::report_laws::law_full_spreads_are_told(total);
    crate::report_laws::law_short_spreads_are_told(serde);
    crate::report_laws::law_full_spreads_are_told(wasm);
}

/// Law: what a stage's workers take beyond the component is the difference of the two
/// medians, and of the two times that one in a hundred exceeds; none where the
/// component takes more.
pub proof fn law_overhead_is_the_difference(
    total: Seq<u64>,
    serde: Seq<u64>,
    wasm: Seq<u64>,
    t50: u64,
    w50: u64,
    t99: u64,
    w99: u64,
)
    requires
        total.len() > 0,
        wasm.len() > 0,
        t50 == at_quantile(in_order(total), 500),
        w50 == at_quantile(in_order(wasm), 500),
        t99 == at_quantile(in_order(total), 990),
        w99 == at_quantile(in_order(wasm), 990),
    ensures
        is_quantile(total, t50, 500),
        is_quantile(wasm, w50, 500),
        is_quantile(total, t99, 990),
        is_quantile(wasm, w99, 990),
        told(stage_timing(total, serde, wasm), "overhead_us"@) matches Some(o) && {
            &&& told(o, "p50"@) matches Some(j) && tells(
                j,
                if t50 > w50 {
                    (t50 - w50) as nat
                } else {
                    0
                },
                1000,
                0,
            )
            &&& told(o, "p99"@) matches Some(j) && tells(
                j,
                if t99 > w99 {
                    (t99 - w99) as nat
                } else {
                    0
                },
                1000,
                0,
            )
        },
{
    lemma_timing_keys(total, serde, wasm);
    law_quantiles_are_quantiles(total, 500);
    law_quantiles_are_quantiles(wasm, 500);
    law_quantiles_are_quantiles(total, 990);
    law_quantiles_are_quantiles(wasm, 990);
    let o = told(stage_timing(total, serde, wasm), "overhead_us"@)->0->Object_0;
    reveal_strlit("p50");
    reveal_strlit("p99");
    reveal_strlit("mean");
    assert("p50"@[1] != "p99"@[1]);
    assert("p50"@.len() != "mean"@.len());
    assert("p99"@.len() != "mean"@.len());
    lemma_told(o, "p50"@, 0);
    lemma_told(o, "p99"@, 1);
}

/// Law: of a replica the report tells how many events it took and what share that is of its
/// stage's, to four digits, and its latencies.
pub proof fn law_replicas_are_told(
    m: SeriesModel,
    stage: Seq<char>,
    whole: nat,
    n: nat,
    s: Seq<u64>,
)
    requires
        s.len() > 0,
    ensures
        ({
            let b = replica_json(m, stage, whole, n, in_order(s));
            &&& tells_quantile(b, "p50"@, s, 500, 1_000_000, 50)
            &&& tells_quantile(b, "p95"@, s, 950, 1_000_000, 50)
            &&& tells_quantile(b, "p99"@, s, 990, 1_000_000, 50)
            &&& told(b, "count"@) matches Some(JsonModel::Count(c)) && (told(b, "share"@)
                matches Some(JsonModel::Ratio(q, d)) && d == 10_000 && (whole > 0 ==> 2 * q * whole
                <= 2 * (c * 10_000) + whole && 2 * (c * 10_000) < 2 * q * whole + whole))
        }),
{
    let o = in_order(s);
    lemma_replica_keys(m, stage, whole, n, o);
    law_quantiles_are_quantiles(s, 500);
    law_quantiles_are_quantiles(s, 950);
    law_quantiles_are_quantiles(s, 990);
    law_times_are_told_as_they_are(at_quantile(o, 500));
    law_times_are_told_as_they_are(at_quantile(o, 950));
    law_times_are_told_as_they_are(at_quantile(o, 990));
    law_ordered(s);
    let b = replica_json(m, stage, whole, n, o);
    let c = told(b, "count"@)->0->Count_0;
    if whole > 0 {
        law_rounding_is_to_the_nearest(c * 10_000, whole);
    }
}

/// Law: the machine and the build are told under their own names.
pub proof fn law_the_environment_is_told(e: EnvironmentInfo)
    ensures
        ({
            let b = environment_block(e);
            &&& told(b, "epico_version"@) == Some(JsonModel::Text(e.epico_version@))
            &&& told(b, "git_tag"@) == Some(JsonModel::Text(e.git_tag@))
            &&& told(b, "host"@) == Some(JsonModel::Text(e.host@))
            &&& told(b, "os_name"@) == Some(JsonModel::Text(e.os_name@))
            &&& told(b, "os_version"@) == Some(JsonModel::Text(e.os_version@))
            &&& told(b, "kernel"@) == Some(JsonModel::Text(e.kernel@))
            &&& told(b, "cpu_model"@) == Some(JsonModel::Text(e.cpu_model@))
            &&& told(b, "cpu_cores_physical"@) == Some(
                JsonModel::Count(e.cpu_cores_physical as nat),
            )
            &&& told(b, "cpu_cores_logical"@) == Some(JsonModel::Count(e.cpu_cores_logical as nat))
            &&& told(b, "ram_total_mb"@) matches Some(JsonModel::Count(mb)) && mb * 1024
                <= e.ram_total_kb && e.ram_total_kb < (mb + 1) * 1024
            &&& told(b, "rustc"@) == Some(JsonModel::Text(e.rustc@))
            &&& told(b, "wasmtime"@) == Some(JsonModel::Text(e.wasmtime@))
            &&& told(b, "git_commit"@) == Some(JsonModel::Text(e.git_commit@))
            &&& told(b, "git_dirty"@) == Some(JsonModel::Bool(e.git_dirty))
        }),
{
    lemma_environment_keys(e);
}

/// Law: how a stage was run is told under the names of its settings.
pub proof fn law_stage_settings_are_told(r: StageRun)
    ensures
        told(stage_run_json(r), "stage"@) == Some(JsonModel::Text(r.stage@)),
        told(stage_run_json(r), "credit_window"@) == Some(
            JsonModel::Count(r.credit_window as nat),
        ),
        told(stage_run_json(r), "batch_events"@) == Some(JsonModel::Count(r.batch_events as nat)),
        told(stage_run_json(r), "min_replicas"@) == Some(JsonModel::Count(r.min_replicas as nat)),
        told(stage_run_json(r), "max_replicas"@) == Some(JsonModel::Count(r.max_replicas as nat)),
{
    lemma_stage_run_keys(r);
}

/// The gaps between neighbouring hops of an event that go from one stage to the other: from
/// when the event left the first to when it came to the second.
pub open spec fn gaps_between(hops: Seq<HopTime>, n: int, from: Seq<char>, to: Seq<char>) -> Seq<
    u64,
>
    decreases n,
{
    if n <= 0 {
        Seq::empty()
    } else {
        let rest = gaps_between(hops, n - 1, from, to);
        let left = hops[n - 1].exit_ns;
        let came = hops[n].enter_ns;
        if is_label_of(hops[n - 1].label@, from) && is_label_of(hops[n].label@, to) && left
            <= came {
            rest.push((came - left) as u64)
        } else {
            rest
        }
    }
}

/// All gaps of an edge.
pub open spec fn gaps_at(m: Seq<GapModel>, from: Seq<char>, to: Seq<char>) -> Seq<u64>
    decreases m.len(),
{
    if m.len() == 0 {
        Seq::empty()
    } else if m.last().0 == from && m.last().1 == to {
        gaps_at(m.drop_last(), from, to) + m.last().2
    } else {
        gaps_at(m.drop_last(), from, to)
    }
}

/// No edge is there twice.
pub open spec fn edges_apart(m: Seq<GapModel>) -> bool {
    forall|i: int, j: int|
        0 <= i < m.len() && 0 <= j < m.len() && (#[trigger] m[i]).0 == (#[trigger] m[j]).0
            && m[i].1 == m[j].1 ==> i == j
}

proof fn lemma_gaps_at(m: Seq<GapModel>, from: Seq<char>, to: Seq<char>, i: int)
    requires
        edges_apart(m),
    ensures
        0 <= i < m.len() && m[i].0 == from && m[i].1 == to ==> gaps_at(m, from, to) == m[i].2,
        (forall|k: int|
            0 <= k < m.len() ==> !((#[trigger] m[k]).0 == from && m[k].1 == to)) ==> gaps_at(
            m,
            from,
            to,
        ) == Seq::<u64>::empty(),
    decreases m.len(),
{
    if m.len() > 0 {
        let rest = m.drop_last();
        let n = m.len() - 1;
        assert(edges_apart(rest)) by {
            assert forall|a: int, b: int|
                0 <= a < rest.len() && 0 <= b < rest.len() && (#[trigger] rest[a]).0 == (
                #[trigger] rest[b]).0 && rest[a].1 == rest[b].1 implies a == b by {
                assert(m[a].0 == m[b].0);
            }
        }
        lemma_gaps_at(rest, from, to, i);
        if forall|k: int| 0 <= k < m.len() ==> !((#[trigger] m[k]).0 == from && m[k].1 == to) {
            assert(!(m[n].0 == from && m[n].1 == to));
            assert forall|k: int| 0 <= k < rest.len() implies !((#[trigger] rest[k]).0 == from
                && rest[k].1 == to) by {
                assert(!(m[k].0 == from && m[k].1 == to));
            }
        }
        if 0 <= i < m.len() && m[i].0 == from && m[i].1 == to {
            if i == n {
                assert forall|k: int| 0 <= k < rest.len() implies !((#[trigger] rest[k]).0 == from
                    && rest[k].1 == to) by {
                    if rest[k].0 == from && rest[k].1 == to {
                        assert(m[k].0 == m[n].0);
                    }
                }
                assert(Seq::<u64>::empty() + m[n].2 =~= m[n].2);
            } else {
                assert(rest[i].0 == from);
                if m[n].0 == from && m[n].1 == to {
                    assert(m[i].0 == m[n].0);
                }
            }
        }
    }
}

proof fn lemma_first_edge(m: Seq<GapModel>, from: Seq<char>, to: Seq<char>, i: int)
    requires
        0 <= i < m.len(),
        m[i].0 == from,
        m[i].1 == to,
    ensures
        exists|k: int| crate::summary::is_edge_at(m, from, to, k),
    decreases i,
{
    if forall|k: int| 0 <= k < i ==> !((#[trigger] m[k]).0 == from && m[k].1 == to) {
        assert(crate::summary::is_edge_at(m, from, to, i));
    } else {
        let k = choose|k: int| 0 <= k < i && (#[trigger] m[k]).0 == from && m[k].1 == to;
        lemma_first_edge(m, from, to, k);
    }
}

proof fn lemma_with_gap(
    m: Seq<GapModel>,
    from: Seq<char>,
    to: Seq<char>,
    v: u64,
    f: Seq<char>,
    t: Seq<char>,
)
    requires
        edges_apart(m),
    ensures
        edges_apart(with_gap(m, from, to, v)),
        gaps_at(with_gap(m, from, to, v), f, t) == if f == from && t == to {
            gaps_at(m, f, t).push(v)
        } else {
            gaps_at(m, f, t)
        },
{
    let out = with_gap(m, from, to, v);
    if exists|i: int| crate::summary::is_edge_at(m, from, to, i) {
        let i = choose|i: int| crate::summary::is_edge_at(m, from, to, i);
        assert(edges_apart(out)) by {
            assert forall|a: int, b: int|
                0 <= a < out.len() && 0 <= b < out.len() && (#[trigger] out[a]).0 == (
                #[trigger] out[b]).0 && out[a].1 == out[b].1 implies a == b by {
                assert(m[a].0 == m[b].0);
            }
        }
        lemma_gaps_at(m, from, to, i);
        lemma_gaps_at(out, from, to, i);
        if !(f == from && t == to) {
            if exists|k: int| 0 <= k < m.len() && (#[trigger] m[k]).0 == f && m[k].1 == t {
                let k = choose|k: int| 0 <= k < m.len() && (#[trigger] m[k]).0 == f && m[k].1 == t;
                lemma_gaps_at(m, f, t, k);
                lemma_gaps_at(out, f, t, k);
            } else {
                lemma_gaps_at(m, f, t, 0);
                assert forall|k: int| 0 <= k < out.len() implies !((#[trigger] out[k]).0 == f
                    && out[k].1 == t) by {
                    assert(!(m[k].0 == f && m[k].1 == t));
                }
                lemma_gaps_at(out, f, t, 0);
            }
        }
    } else {
        assert forall|k: int| 0 <= k < m.len() implies !((#[trigger] m[k]).0 == from && m[k].1
            == to) by {
            if m[k].0 == from && m[k].1 == to {
                lemma_first_edge(m, from, to, k);
            }
        }
        assert(edges_apart(out)) by {
            assert forall|a: int, b: int|
                0 <= a < out.len() && 0 <= b < out.len() && (#[trigger] out[a]).0 == (
                #[trigger] out[b]).0 && out[a].1 == out[b].1 implies a == b by {
                if a < m.len() && b < m.len() {
                    assert(m[a].0 == m[b].0);
                } else if a < m.len() {
                    assert(!(m[a].0 == from && m[a].1 == to));
                } else if b < m.len() {
                    assert(!(m[b].0 == from && m[b].1 == to));
                }
            }
        }
        assert(out.drop_last() =~= m);
        assert(gaps_at(m, from, to) + seq![v] =~= gaps_at(m, from, to).push(v));
    }
}

/// Law: the gap between two stages is the time from when an event left the one to when it
/// came to the next, for every pair of neighbouring hops, and it is counted for that
/// pair of stages and no other.
pub proof fn law_gaps_are_counted(
    m: Seq<GapModel>,
    hops: Seq<HopTime>,
    n: int,
    from: Seq<char>,
    to: Seq<char>,
)
    requires
        edges_apart(m),
        n < hops.len(),
    ensures
        edges_apart(hop_gaps(m, hops, n)),
        gaps_at(hop_gaps(m, hops, n), from, to) == gaps_at(m, from, to) + gaps_between(
            hops,
            n,
            from,
            to,
        ),
    decreases n,
{
    if n > 0 {
        law_gaps_are_counted(m, hops, n - 1, from, to);
        let a = hops[n - 1];
        let b = hops[n];
        let rest = hop_gaps(m, hops, n - 1);
        lemma_label(a.label@, from);
        lemma_label(b.label@, to);
        if b.enter_ns >= a.exit_ns {
            lemma_with_gap(
                rest,
                before(a.label@, '#'),
                before(b.label@, '#'),
                (b.enter_ns - a.exit_ns) as u64,
                from,
                to,
            );
        }
        assert(gaps_at(hop_gaps(m, hops, n), from, to) =~= gaps_at(m, from, to) + gaps_between(
            hops,
            n,
            from,
            to,
        ));
    } else {
        assert(gaps_at(m, from, to) + Seq::<u64>::empty() =~= gaps_at(m, from, to));
    }
}

} // verus!
