//! What the smaller parts promise: days that follow one another, keys that are counted, workers
//! that are told about, and components that hand their events on.

use vstd::prelude::*;
use crate::calendar::{
    days_before_month, days_before_year, is_date_of, law_dates_are_apart, month_length,
    wall_time, year_length, Date,
};
use crate::config::{halves_of, place_of, stage_names, EdgeSpec, PipelineStage};
use crate::codegen::wit_name;
use crate::dispatcher::{consumers, metrics_reply, BrokerModel};
use crate::generate::{schema_field, schema_stage};
use crate::json::{Json, JsonModel};
use crate::numtext::{law_padded_reads_back, padded, value_of};
use crate::pipeline_spec::StageSpec;
use crate::report_laws::{lemma_told, told};
use crate::startup::{
    all_components, first_at, is_between, joined_by, lemma_first_at, stage_components,
};
use crate::supervisor::{time_ns, worker_times};
use crate::topk::{
    after_merge_one, after_observe, lemma_has_min, lemma_sum_update, max_count, retained,
    slot_of, sum_slots, KeyCount, TOPK,
};

verus! {

// ---------------------------------------------------------------------------
// Days
// ---------------------------------------------------------------------------

/// Law: there is a leap day in every fourth year, but in a hundredth only where it is a four
/// hundredth.
pub proof fn law_leap_days_add_up(y: int)
    requires
        y >= 1,
    ensures
        days_before_year(y) == 365 * (y - 1) + (y - 1) / 4 - (y - 1) / 100 + (y - 1) / 400,
        days_before_year(y + 1) == days_before_year(y) + year_length(y),
    decreases y,
{
    if y > 1 {
        law_leap_days_add_up(y - 1);
    }
}

/// Law: a year is as long as its months together.
pub proof fn law_months_make_the_year(y: int)
    ensures
        days_before_month(y, 13) == year_length(y),
        days_before_month(y, 1) == 0,
{
    reveal_with_fuel(days_before_month, 14);
}

/// The day after another.
pub open spec fn is_next_day(d: Date, e: Date) -> bool {
    ||| e.year == d.year && e.month == d.month && e.day == d.day + 1
    ||| e.year == d.year && e.month == d.month + 1 && e.day == 1
    ||| e.year == d.year + 1 && e.month == 1 && d.month == 12 && e.day == 1
}

/// Law: days follow one another: the next day of the month, or the first of the next month, or
/// New Year's Day.
pub proof fn law_days_follow_one_another(d: Date, e: Date, days: nat)
    requires
        is_date_of(d, days),
        is_date_of(e, days + 1),
        d.year < u64::MAX,
    ensures
        is_next_day(d, e),
        d.day < month_length(d.year as int, d.month as int) ==> e.day == d.day + 1,
        d.day == month_length(d.year as int, d.month as int) ==> e.day == 1,
{
    let y = d.year as int;
    let m = d.month as int;
    law_months_make_the_year(y);
    law_leap_days_add_up(y);
    let f = if d.day < month_length(y, m) {
        Date { year: d.year, month: d.month, day: (d.day + 1) as u64 }
    } else if m < 12 {
        Date { year: d.year, month: (d.month + 1) as u64, day: 1 }
    } else {
        Date { year: (d.year + 1) as u64, month: 1, day: 1 }
    };
    assert(month_length(y, m) <= 31);
    assert(f.wf());
    assert(f.day_number() == d.day_number() + 1);
    law_dates_are_apart(e, f);
}

proof fn lemma_two_digits(n: nat)
    requires
        n < 100,
    ensures
        padded(n, 2).len() == 2,
        value_of(padded(n, 2)) == n,
{
    law_padded_reads_back(n, 2);
    assert(vstd::arithmetic::power::pow(10, 2) == 100) by {
        vstd::arithmetic::power::lemma_pow_adds(10, 1, 1);
        vstd::arithmetic::power::lemma_pow1(10);
    }
    vstd::arithmetic::div_mod::lemma_small_mod(n, vstd::arithmetic::power::pow(10, 2) as nat);
}

proof fn lemma_time_parts(secs: nat)
    ensures
        ((secs / 3600) % 24) * 3600 + ((secs / 60) % 60) * 60 + secs % 60 == secs % 86_400,
{
}

proof fn lemma_clock(a: Seq<char>, b: Seq<char>, c: Seq<char>)
    requires
        a.len() == 2,
        b.len() == 2,
        c.len() == 2,
    ensures
        ({
            let w = a + ":"@ + b + ":"@ + c;
            &&& w.len() == 8
            &&& w.subrange(0, 2) == a
            &&& w.subrange(3, 5) == b
            &&& w.subrange(6, 8) == c
            &&& w[2] == ':'
            &&& w[5] == ':'
        }),
{
    reveal_strlit(":");
    let w = a + ":"@ + b + ":"@ + c;
    assert(w.subrange(0, 2) =~= a);
    assert(w.subrange(3, 5) =~= b);
    assert(w.subrange(6, 8) =~= c);
}

/// Law: the time of day is told by two digits each for the hours, the minutes and the seconds
/// since midnight.
pub proof fn law_times_of_day_are_told(secs: nat)
    ensures
        wall_time(secs).len() == 8,
        value_of(wall_time(secs).subrange(0, 2)) * 3600 + value_of(wall_time(secs).subrange(3, 5))
            * 60 + value_of(wall_time(secs).subrange(6, 8)) == secs % 86_400,
        value_of(wall_time(secs).subrange(3, 5)) < 60,
        value_of(wall_time(secs).subrange(6, 8)) < 60,
        wall_time(secs)[2] == ':',
        wall_time(secs)[5] == ':',
{
    let h = (secs / 3600) % 24;
    let m = (secs / 60) % 60;
    let s = secs % 60;
    lemma_two_digits(h);
    lemma_two_digits(m);
    lemma_two_digits(s);
    lemma_clock(padded(h, 2), padded(m, 2), padded(s, 2));
    lemma_time_parts(secs);
}

// ---------------------------------------------------------------------------
// Keys
// ---------------------------------------------------------------------------

/// Law: an event is counted once, for its own key, which is kept from then on; no more keys are
/// kept than there is room for, and a key goes only where there is none, as the least.
pub proof fn law_keys_are_counted(slots: Seq<KeyCount>, key: u64)
    requires
        slots.len() <= TOPK,
        sum_slots(slots) < u64::MAX,
    ensures
        sum_slots(after_observe(slots, key)) == sum_slots(slots) + 1,
        retained(after_observe(slots, key), key),
        after_observe(slots, key).len() <= 16,
        retained(slots, key) ==> after_observe(slots, key).len() == slots.len(),
        forall|k: int|
            0 <= k < slots.len() && (#[trigger] slots[k]).0 != key && (retained(slots, key)
                || slots.len() < 16 || exists|j: int|
                0 <= j < k && (#[trigger] slots[j]).1 <= slots[k].1) ==> after_observe(
                slots,
                key,
            )[k] == slots[k],
{
    let out = after_observe(slots, key);
    if retained(slots, key) {
        let i = slot_of(slots, key);
        lemma_sum_update(slots, i, (key, (slots[i].1 + 1) as u64));
        assert(out[i].0 == key);
    } else if slots.len() < TOPK {
        assert(out.drop_last() =~= slots);
        assert(out[slots.len() as int].0 == key);
    } else {
        let i = lemma_has_min(slots);
        lemma_sum_update(slots, i, (key, (slots[i].1 + 1) as u64));
        assert(out[i].0 == key);
    }
}

/// Law: the greatest count is that of some key, and no key has a greater one.
pub proof fn law_the_greatest_count_is_one(slots: Seq<KeyCount>, i: int)
    requires
        0 <= i < slots.len(),
    ensures
        slots[i].1 <= max_count(slots),
        exists|k: int| 0 <= k < slots.len() && (#[trigger] slots[k]).1 == max_count(slots),
    decreases slots.len(),
{
    let n = slots.len() - 1;
    let rest = slots.drop_last();
    if n == 0 {
        assert(max_count(rest) == 0);
        assert(slots[0].1 == max_count(slots));
    } else {
        law_the_greatest_count_is_one(
            rest,
            if i < n {
                i
            } else {
                0
            },
        );
        let k = choose|k: int| 0 <= k < rest.len() && (#[trigger] rest[k]).1 == max_count(rest);
        assert(slots[k] == rest[k]);
        assert(slots[n].1 == max_count(slots) || slots[k].1 == max_count(slots));
        if i < n {
            assert(rest[i] == slots[i]);
        }
    }
}

/// Law: what another sketch has counted for a key is added to what this one has, or is kept where
/// there is room.
pub proof fn law_counts_are_merged(slots: Seq<KeyCount>, key: u64, count: u64)
    requires
        sum_slots(slots) + count <= u64::MAX,
        retained(slots, key) || slots.len() < TOPK,
    ensures
        sum_slots(after_merge_one(slots, key, count)) == sum_slots(slots) + count,
        retained(after_merge_one(slots, key, count), key),
{
    let out = after_merge_one(slots, key, count);
    if retained(slots, key) {
        let i = slot_of(slots, key);
        lemma_sum_update(slots, i, (key, (slots[i].1 + count) as u64));
        assert(out[i].0 == key);
    } else {
        assert(out.drop_last() =~= slots);
        assert(out[slots.len() as int].0 == key);
    }
}

// ---------------------------------------------------------------------------
// Workers
// ---------------------------------------------------------------------------

/// Law: a dispatcher tells how many events wait, and of every worker what it said last.
pub proof fn law_dispatchers_tell_what_waits(m: BrokerModel, parsed: Seq<Option<Json>>, i: int)
    requires
        0 <= i < m.workers.len(),
    ensures
        told(metrics_reply(m, parsed), "dispatcher_queue_depth"@) == Some(
            JsonModel::Count(m.events.len()),
        ),
        told(metrics_reply(m, parsed), "consumers"@) matches Some(JsonModel::Array(ws)) && ws.len()
            == m.workers.len() && (parsed[i] matches Some(j) ==> m.workers[i].metrics.len() > 0
            ==> ws[i] == JsonModel::Kept(j)),
        told(metrics_reply(m, parsed), "_ctrl"@) == Some(JsonModel::Text("metrics_response"@)),
{
    let es = metrics_reply(m, parsed)->Object_0;
    reveal_strlit("_ctrl");
    reveal_strlit("dispatcher_queue_depth");
    reveal_strlit("consumers");
    assert("_ctrl"@.len() == 5 && "dispatcher_queue_depth"@.len() == 22 && "consumers"@.len() == 9);
    lemma_told(es, "_ctrl"@, 0);
    lemma_told(es, "dispatcher_queue_depth"@, 1);
    lemma_told(es, "consumers"@, 2);
}

/// Law: of every worker that has done something, how long it took is kept, and beside it how long
/// it read and wrote; a worker that has not is left out.
pub proof fn law_worker_times_are_read(items: Seq<Json>, c: Json)
    ensures
        ({
            let total = time_ns(c, "total_ns"@, "total_us"@);
            let serde = time_ns(c, "serde_ns"@, "serde_us"@);
            &&& total > 0 ==> worker_times(items.push(c)) == worker_times(items).push(
                (total, serde),
            )
            &&& total == 0 ==> worker_times(items.push(c)) == worker_times(items)
            &&& worker_times(Seq::empty()) == Seq::<(u64, u64)>::empty()
        }),
{
    assert(items.push(c).drop_last() =~= items);
}

/// Law: a schema has the fields of a type in their order, each with its number, its names, its
/// type and whether it may be absent.
pub proof fn law_schemas_tell_the_fields(name: Seq<char>, of: Seq<char>, id: nat)
    ensures
        ({
            let f = JsonModel::Object(schema_field(name, of, id));
            &&& told(f, "id"@) == Some(JsonModel::Count(id))
            &&& told(f, "json_name"@) == Some(JsonModel::Text(name))
            &&& told(f, "wit_name"@) == Some(JsonModel::Text(wit_name(name)))
            &&& of.len() > 0 && of.last() == '?' ==> told(f, "optional"@) == Some(
                JsonModel::Bool(true),
            ) && told(f, "type"@) == Some(JsonModel::Text(of.drop_last()))
            &&& !(of.len() > 0 && of.last() == '?') ==> told(f, "optional"@) == Some(
                JsonModel::Bool(false),
            ) && told(f, "type"@) == Some(JsonModel::Text(of))
        }),
{
    let es = schema_field(name, of, id);
    reveal_strlit("id");
    reveal_strlit("json_name");
    reveal_strlit("wit_name");
    reveal_strlit("type");
    reveal_strlit("optional");
    assert("id"@.len() == 2 && "json_name"@.len() == 9 && "type"@.len() == 4);
    assert("wit_name"@.len() == 8 && "optional"@.len() == 8);
    assert("wit_name"@[0] == 'w' && "optional"@[0] == 'o');
    lemma_told(es, "id"@, 0);
    lemma_told(es, "json_name"@, 1);
    lemma_told(es, "wit_name"@, 2);
    lemma_told(es, "type"@, 3);
    lemma_told(es, "optional"@, 4);
}

/// Law: a stage is told in a schema by its name and what it takes and gives.
pub proof fn law_schemas_tell_the_stages(s: StageSpec)
    ensures
        told(schema_stage(s), "name"@) == Some(JsonModel::Text(s.name@)),
        told(schema_stage(s), "in"@) == Some(JsonModel::Text(s.input_type@)),
        told(schema_stage(s), "out"@) == Some(JsonModel::Text(s.output_type@)),
{
    let es = schema_stage(s)->Object_0;
    reveal_strlit("name");
    reveal_strlit("in");
    reveal_strlit("out");
    assert("name"@.len() == 4 && "in"@.len() == 2 && "out"@.len() == 3);
    lemma_told(es, "name"@, 0);
    lemma_told(es, "in"@, 1);
    lemma_told(es, "out"@, 2);
}

// ---------------------------------------------------------------------------
// Components
// ---------------------------------------------------------------------------

proof fn lemma_component(stages: Seq<PipelineStage>, p: int, h: int)
    requires
        0 <= p < stages.len(),
        0 <= h < stage_components(stages[p]).len(),
    ensures
        first_at(stages, p) + h < all_components(stages).len(),
        all_components(stages)[first_at(stages, p) as int + h] == stage_components(stages[p])[h],
    decreases stages.len(),
{
    let front = stages.drop_last();
    if p < stages.len() - 1 {
        lemma_component(front, p, h);
        assert(front.take(p) =~= stages.take(p));
    } else {
        assert(stages.take(p) =~= front);
    }
}

/// Law: the component of a stage that hands its events on is the last of its parts, and the one
/// that takes them is the first part of the next stage.
pub proof fn law_edges_join_the_outer_parts(stages: Seq<PipelineStage>, e: EdgeSpec, p: int, q: int)
    requires
        is_between(stages, e),
        p == place_of(stage_names(stages), e.from@),
        q == place_of(stage_names(stages), e.to@),
        0 <= p < stages.len(),
        0 <= q < stages.len(),
        all_components(stages).len() <= usize::MAX,
    ensures
        ({
            let (a, b) = joined_by(stages, e);
            let all = all_components(stages);
            &&& a < all.len()
            &&& b < all.len()
            &&& all[a as int].1 == halves_of(stages[p]).last().1
            &&& all[b as int].1 == halves_of(stages[q])[0].1
            &&& all[b as int].0 == stages[q].name@
        }),
{
    lemma_first_at(stages, p);
    lemma_first_at(stages, q);
    let n = stage_components(stages[p]).len();
    lemma_component(stages, p, n - 1);
    lemma_component(stages, q, 0);
}

} // verus!
