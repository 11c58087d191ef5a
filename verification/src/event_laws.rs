//! What events and log records promise: what goes in under a name comes out under it.

use vstd::prelude::*;
use crate::boundary::{end_mark, is_reading, is_sent, DriveStep, Driver, Reading};
use crate::codegen::ValueKind;
use crate::envelope::{
    bench_json, field_scalar, hop_json, hops_json, is_default, is_row_field, typed_json,
    wire_json, wire_scalar, with_entries, EventEnvelope, RecordField, Val, WireValue,
};
use crate::inproc::Edge;
use crate::json::{is_first_key, with_entry, JsonModel};
use crate::logger::{
    finalized, level_name, level_set, painted, rank_of, record_head, with_fields, Level, RESET,
};
use crate::report_laws::{entry_told, law_rounding_is_to_the_nearest, lemma_told, tells, told};
use crate::text::lowered;
use crate::wire::ScalarModel;

verus! {

// ---------------------------------------------------------------------------
// Objects
// ---------------------------------------------------------------------------

/// No name is there twice.
pub open spec fn keys_apart(ms: Seq<(Seq<char>, JsonModel)>) -> bool {
    forall|i: int, j: int|
        0 <= i < ms.len() && 0 <= j < ms.len() && (#[trigger] ms[i]).0 == (#[trigger] ms[j]).0
            ==> i == j
}

proof fn lemma_absent(ms: Seq<(Seq<char>, JsonModel)>, name: Seq<char>)
    requires
        forall|i: int| 0 <= i < ms.len() ==> (#[trigger] ms[i]).0 != name,
    ensures
        entry_told(ms, name) is None,
    decreases ms.len(),
{
    if ms.len() > 0 {
        let rest = ms.drop_last();
        assert(ms[ms.len() - 1].0 != name);
        assert forall|i: int| 0 <= i < rest.len() implies (#[trigger] rest[i]).0 != name by {
            assert(ms[i].0 != name);
        }
        lemma_absent(rest, name);
    }
}

proof fn lemma_first_key(ms: Seq<(Seq<char>, JsonModel)>, name: Seq<char>, i: int)
    requires
        0 <= i < ms.len(),
        ms[i].0 == name,
    ensures
        exists|k: int| is_first_key(ms, name, k),
    decreases i,
{
    if forall|k: int| 0 <= k < i ==> (#[trigger] ms[k]).0 != name {
        assert(is_first_key(ms, name, i));
    } else {
        let k = choose|k: int| 0 <= k < i && (#[trigger] ms[k]).0 == name;
        lemma_first_key(ms, name, k);
    }
}

proof fn lemma_apart(ms: Seq<(Seq<char>, JsonModel)>, name: Seq<char>, i: int)
    requires
        keys_apart(ms),
        0 <= i < ms.len(),
        ms[i].0 == name,
    ensures
        entry_told(ms, name) == Some(ms[i].1),
{
    assert forall|j: int| i < j < ms.len() implies (#[trigger] ms[j]).0 != name by {
        if ms[j].0 == name {
            assert(ms[i].0 == ms[j].0);
        }
    }
    lemma_told(ms, name, i);
}

/// Law: what is put into an object under a name is told under it, and nothing changes under
/// any other name.
pub proof fn law_entries_are_told(
    ms: Seq<(Seq<char>, JsonModel)>,
    name: Seq<char>,
    m: JsonModel,
    other: Seq<char>,
)
    requires
        keys_apart(ms),
    ensures
        keys_apart(with_entry(ms, name, m)),
        entry_told(with_entry(ms, name, m), name) == Some(m),
        other != name ==> entry_told(with_entry(ms, name, m), other) == entry_told(ms, other),
{
    let out = with_entry(ms, name, m);
    if exists|i: int| 0 <= i < ms.len() && (#[trigger] ms[i]).0 == name {
        let w = choose|i: int| 0 <= i < ms.len() && (#[trigger] ms[i]).0 == name;
        lemma_first_key(ms, name, w);
        let i = choose|i: int| is_first_key(ms, name, i);
        assert(out =~= ms.update(i, (name, m)));
        assert forall|a: int, b: int|
            0 <= a < out.len() && 0 <= b < out.len() && (#[trigger] out[a]).0 == (
            #[trigger] out[b]).0 implies a == b by {
            assert(ms[a].0 == ms[b].0);
        }
        lemma_apart(out, name, i);
        if other != name {
            if exists|k: int| 0 <= k < ms.len() && (#[trigger] ms[k]).0 == other {
                let k = choose|k: int| 0 <= k < ms.len() && (#[trigger] ms[k]).0 == other;
                lemma_apart(ms, other, k);
                lemma_apart(out, other, k);
            } else {
                lemma_absent(ms, other);
                assert forall|k: int| 0 <= k < out.len() implies (#[trigger] out[k]).0
                    != other by {
                    assert(ms[k].0 != other);
                }
                lemma_absent(out, other);
            }
        }
    } else {
        assert forall|a: int, b: int|
            0 <= a < out.len() && 0 <= b < out.len() && (#[trigger] out[a]).0 == (
            #[trigger] out[b]).0 implies a == b by {
            if a < ms.len() && b < ms.len() {
                assert(ms[a].0 == ms[b].0);
            } else if a < ms.len() {
                assert(ms[a].0 != name);
            } else if b < ms.len() {
                assert(ms[b].0 != name);
            }
        }
        assert(out.drop_last() =~= ms);
    }
}

// ---------------------------------------------------------------------------
// Events
// ---------------------------------------------------------------------------

/// Law: every field that a stage gives is in the event under its own name, with its value,
/// where no later one has the same name; a field that is absent adds nothing.
pub proof fn law_typed_fields_are_told(fields: Seq<(&'static str, WireValue)>, i: int)
    requires
        0 <= i < fields.len(),
        forall|k: int| i < k < fields.len() ==> (#[trigger] fields[k]).0@ != fields[i].0@,
    ensures
        keys_apart(typed_json(fields)),
        wire_json(fields[i].1) matches Some(m) ==> entry_told(typed_json(fields), fields[i].0@)
            == Some(m),
    decreases fields.len(),
{
    let front = fields.drop_last();
    lemma_typed_apart(front);
    lemma_typed_apart(fields);
    if let Some(m) = wire_json(fields.last().1) {
        law_entries_are_told(typed_json(front), fields.last().0@, m, fields[i].0@);
    }
    if i < fields.len() - 1 {
        assert forall|k: int| i < k < front.len() implies (#[trigger] front[k]).0@
            != front[i].0@ by {
            assert(fields[k].0@ != fields[i].0@);
        }
        law_typed_fields_are_told(front, i);
        assert(fields[fields.len() - 1].0@ != fields[i].0@);
    }
}

proof fn lemma_typed_apart(fields: Seq<(&'static str, WireValue)>)
    ensures
        keys_apart(typed_json(fields)),
    decreases fields.len(),
{
    if fields.len() > 0 {
        lemma_typed_apart(fields.drop_last());
        if let Some(m) = wire_json(fields.last().1) {
            law_entries_are_told(
                typed_json(fields.drop_last()),
                fields.last().0@,
                m,
                fields.last().0@,
            );
        }
    }
}

/// Law: an event that goes on has passed by one stage more: its hops are those that it had, and
/// behind them the one of the stage, with the times at which it came and left.
pub proof fn law_hops_are_added(
    ms: Seq<(Seq<char>, JsonModel)>,
    e: EventEnvelope,
    label: Seq<char>,
    enter: u64,
    exit: u64,
)
    requires
        keys_apart(ms),
    ensures
        ({
            let out = with_entries(ms, bench_json(e, (label, enter, exit)));
            entry_told(out, "bench_hops"@) matches Some(JsonModel::Array(hops)) && hops.len() >= 1
                && (hops.last() matches JsonModel::Array(h) && h.len() == 3 && h[0]
                == JsonModel::Text(label) && (h[1] == JsonModel::Double(enter) || h[1]
                == JsonModel::Null) && (h[2] == JsonModel::Double(exit) || h[2]
                == JsonModel::Null)) && (e matches EventEnvelope::Binary(b) ==> hops.len()
                == b@.hops.len() + 1)
        }),
{
    let hop = (label, enter, exit);
    let more = bench_json(e, hop);
    let n = more.len() - 1;
    assert(more.last() == ("bench_hops"@, hops_json(e, hop)));
    lemma_entries_apart(ms, more.drop_last());
    law_entries_are_told(
        with_entries(ms, more.drop_last()),
        "bench_hops"@,
        hops_json(e, hop),
        "bench_hops"@,
    );
    let hops = hops_json(e, hop)->Array_0;
    assert(hops.last() == hop_json(hop));
}

proof fn lemma_entries_apart(
    ms: Seq<(Seq<char>, JsonModel)>,
    more: Seq<(Seq<char>, JsonModel)>,
)
    requires
        keys_apart(ms),
    ensures
        keys_apart(with_entries(ms, more)),
    decreases more.len(),
{
    if more.len() > 0 {
        lemma_entries_apart(ms, more.drop_last());
        law_entries_are_told(
            with_entries(ms, more.drop_last()),
            more.last().0,
            more.last().1,
            more.last().0,
        );
    }
}

/// The value is of the kind.
pub open spec fn is_of_kind(v: Val, k: ValueKind) -> bool {
    match k {
        ValueKind::Str => v is Text,
        ValueKind::F64 => v is Float64,
        ValueKind::F32 => v is Float32,
        ValueKind::U64 => v is U64,
        ValueKind::U32 => v is U32,
        ValueKind::S64 => v is S64,
        ValueKind::S32 => v is S32,
        ValueKind::Bool => v is Bool,
    }
}

/// Two values are the same, text by what it says.
pub open spec fn same_scalar(a: Val, b: Val) -> bool {
    match (a, b) {
        (Val::Text(s), Val::Text(t)) => s@ == t@,
        _ => a == b,
    }
}

/// Law: a value of a field that one stage writes into a binary event is the value that the next
/// one reads from it, whether the field must be there or may be absent.
pub proof fn law_values_survive_the_edge(given: Val, taken: Val, f: RecordField)
    requires
        is_of_kind(given, f.inner_kind),
        is_row_field(
            taken,
            field_scalar(
                if f.is_option {
                    Val::Maybe(Some(Box::new(given)))
                } else {
                    given
                },
                f,
            ),
            f,
        ),
    ensures
        !f.is_option ==> same_scalar(given, taken),
        f.is_option ==> (taken matches Val::Maybe(Some(inner)) && same_scalar(given, *inner)),
{
}

/// Law: an absent value is read as absent, or as nothing where it must be there.
pub proof fn law_absent_values_stay_absent(taken: Val, f: RecordField)
    requires
        is_row_field(taken, None, f),
    ensures
        f.is_option ==> taken == Val::Maybe(None),
        !f.is_option ==> is_default(taken, f.inner_kind),
        !f.is_option ==> is_of_kind(taken, f.inner_kind),
{
}

/// Law: what a stage gives has one and the same meaning in both forms of an event: absent in
/// both or in neither, and the same number, text or truth.
pub proof fn law_both_forms_say_the_same(v: WireValue)
    ensures
        wire_json(v) is None <==> v is Absent,
        wire_scalar(v) is None <==> v is Absent,
        match wire_scalar(v) {
            None => true,
            Some(ScalarModel::Str(t)) => wire_json(v) == Some(JsonModel::Text(t)),
            Some(ScalarModel::U64(n)) => wire_json(v) == Some(JsonModel::Count(n as nat)),
            Some(ScalarModel::U32(n)) => wire_json(v) == Some(JsonModel::Count(n as nat)),
            Some(ScalarModel::S64(n)) => wire_json(v) == Some(JsonModel::Signed(n as int)),
            Some(ScalarModel::S32(n)) => wire_json(v) == Some(JsonModel::Signed(n as int)),
            Some(ScalarModel::Bool(b)) => wire_json(v) == Some(JsonModel::Bool(b)),
            Some(ScalarModel::F64(b)) => wire_json(v) == Some(JsonModel::Double(b)) || wire_json(v)
                == Some(JsonModel::Null),
            Some(ScalarModel::F32(b)) => wire_json(v) == Some(JsonModel::Single(b)) || wire_json(v)
                == Some(JsonModel::Null),
        },
        match v {
            WireValue::Str(s) => wire_scalar(v) == Some(ScalarModel::Str(s@)),
            WireValue::F64(b) => wire_scalar(v) == Some(ScalarModel::F64(b)),
            WireValue::F32(b) => wire_scalar(v) == Some(ScalarModel::F32(b)),
            WireValue::U64(n) => wire_scalar(v) == Some(ScalarModel::U64(n)),
            WireValue::U32(n) => wire_scalar(v) == Some(ScalarModel::U32(n)),
            WireValue::S64(n) => wire_scalar(v) == Some(ScalarModel::S64(n)),
            WireValue::S32(n) => wire_scalar(v) == Some(ScalarModel::S32(n)),
            WireValue::Bool(b) => wire_scalar(v) == Some(ScalarModel::Bool(b)),
            WireValue::Absent => wire_scalar(v) is None,
        },
{
}

// ---------------------------------------------------------------------------
// The ends of a pipeline
// ---------------------------------------------------------------------------

/// Law: the mark at the end of a stream says that it is one, and how many events there were.
pub proof fn law_end_marks_tell_the_count(count: nat, done_bits: u64)
    ensures
        told(end_mark(count, done_bits), "__epico_eos"@) == Some(JsonModel::Bool(true)),
        told(end_mark(count, done_bits), "loadgen_sent"@) == Some(JsonModel::Count(count)),
        told(end_mark(count, done_bits), "expected_count"@) == Some(JsonModel::Count(count)),
        told(end_mark(count, done_bits), "loadgen_done_ts"@) == Some(JsonModel::Double(done_bits)),
{
    let es = end_mark(count, done_bits)->Object_0;
    reveal_strlit("__epico_eos");
    reveal_strlit("loadgen_sent");
    reveal_strlit("expected_count");
    reveal_strlit("loadgen_done_ts");
    assert("__epico_eos"@.len() == 11);
    assert("loadgen_sent"@.len() == 12);
    assert("expected_count"@.len() == 14);
    assert("loadgen_done_ts"@.len() == 15);
    lemma_told(es, "__epico_eos"@, 0);
    lemma_told(es, "loadgen_sent"@, 1);
    lemma_told(es, "expected_count"@, 2);
    lemma_told(es, "loadgen_done_ts"@, 3);
}

/// Law: an event is sent, held back or given up, and never lost on the way: it is the last one
/// in the edge and is counted, or it is held and nothing has moved.
pub proof fn law_sent_events_are_counted(
    was: Driver,
    now: Driver,
    edge: Edge,
    edge_now: Edge,
    item: Seq<u8>,
    shutdown: bool,
    r: DriveStep,
)
    requires
        is_sent(was, now, edge, edge_now, item, shutdown, r),
        was.sent < u64::MAX,
    ensures
        r is Pushed ==> now.sent == was.sent + 1 && edge_now.events().len() == edge.events().len()
            + 1 && edge_now.events().last() == item && edge_now.events().drop_last()
            == edge.events(),
        r !is Pushed ==> now.sent == was.sent && edge_now.events() == edge.events()
            && edge.events().len() >= edge.room(),
        r is Blocked ==> now.held is Some && !now.ended == !was.ended,
        r is Ended ==> now.ended && shutdown,
{
    if r is Pushed {
        assert(edge_now.events().drop_last() =~= edge.events());
    }
}

/// Law: one in five hundred readings is an anomaly, beginning with the first; sensors take
/// turns; and a reading is never less than its kind's.
pub proof fn law_readings_take_turns(a: Reading, b: Reading, seq: nat, sensors: nat)
    requires
        sensors > 0,
        is_reading(a, seq, sensors),
        is_reading(b, seq + sensors, sensors),
    ensures
        a.seq == seq,
        a.sensor_id@ == b.sensor_id@,
        a.sensor_type@ == b.sensor_type@,
        a.unit@ == b.unit@,
        a.location@ == b.location@,
        a.is_anomaly <==> seq % 500 == 0,
        seq == 0 ==> a.is_anomaly,
{
    assert((seq + sensors) % sensors == seq % sensors) by {
        vstd::arithmetic::div_mod::lemma_mod_add_multiples_vanish(seq as int, sensors as int);
    }
}

// ---------------------------------------------------------------------------
// Log records
// ---------------------------------------------------------------------------

/// Law: a record tells its level, who wrote it and what it says, whatever else it has; and every
/// further field is told under its own name.
pub proof fn law_records_tell_the_message(
    ns: nat,
    level: Level,
    component: Seq<char>,
    msg: Seq<char>,
    fields: Seq<(String, String)>,
    i: int,
)
    requires
        0 <= i < fields.len(),
        forall|k: int| i < k < fields.len() ==> (#[trigger] fields[k]).0@ != fields[i].0@,
        forall|k: int|
            0 <= k < fields.len() ==> (#[trigger] fields[k]).0@ != "level"@ && fields[k].0@
                != "component"@ && fields[k].0@ != "msg"@ && fields[k].0@ != "ts"@,
    ensures
        ({
            let r = JsonModel::Object(with_fields(record_head(ns, level, component, msg), fields));
            &&& told(r, "level"@) == Some(JsonModel::Text(level_name(level)))
            &&& told(r, "component"@) == Some(JsonModel::Text(component))
            &&& told(r, "msg"@) == Some(JsonModel::Text(msg))
            &&& told(r, "ts"@) matches Some(j) && tells(j, ns, 1_000_000_000, 50_000)
            &&& told(r, fields[i].0@) == Some(JsonModel::Text(fields[i].1@))
        }),
{
    let head = record_head(ns, level, component, msg);
    reveal_strlit("ts");
    reveal_strlit("level");
    reveal_strlit("component");
    reveal_strlit("msg");
    assert("ts"@.len() == 2 && "level"@.len() == 5 && "component"@.len() == 9 && "msg"@.len() == 3);
    assert forall|a: int, b: int|
        0 <= a < head.len() && 0 <= b < head.len() && (#[trigger] head[a]).0 == (
        #[trigger] head[b]).0 implies a == b by {
        assert(head[a].0.len() == head[b].0.len());
    }
    assert(keys_apart(head));
    lemma_fields_kept(head, fields, "level"@);
    lemma_fields_kept(head, fields, "component"@);
    lemma_fields_kept(head, fields, "msg"@);
    lemma_fields_kept(head, fields, "ts"@);
    lemma_apart(head, "ts"@, 0);
    lemma_apart(head, "level"@, 1);
    lemma_apart(head, "component"@, 2);
    lemma_apart(head, "msg"@, 3);
    lemma_field_told(head, fields, i);
    law_rounding_is_to_the_nearest(ns, 100_000);
}

proof fn lemma_fields_kept(
    head: Seq<(Seq<char>, JsonModel)>,
    fields: Seq<(String, String)>,
    name: Seq<char>,
)
    requires
        keys_apart(head),
        forall|k: int| 0 <= k < fields.len() ==> (#[trigger] fields[k]).0@ != name,
    ensures
        keys_apart(with_fields(head, fields)),
        entry_told(with_fields(head, fields), name) == entry_told(head, name),
    decreases fields.len(),
{
    if fields.len() > 0 {
        let front = fields.drop_last();
        assert(fields[fields.len() - 1].0@ != name);
        assert forall|k: int| 0 <= k < front.len() implies (#[trigger] front[k]).0@ != name by {
            assert(fields[k].0@ != name);
        }
        lemma_fields_kept(head, front, name);
        law_entries_are_told(
            with_fields(head, front),
            fields.last().0@,
            JsonModel::Text(fields.last().1@),
            name,
        );
    }
}

proof fn lemma_fields_apart(head: Seq<(Seq<char>, JsonModel)>, fields: Seq<(String, String)>)
    requires
        keys_apart(head),
    ensures
        keys_apart(with_fields(head, fields)),
    decreases fields.len(),
{
    if fields.len() > 0 {
        lemma_fields_apart(head, fields.drop_last());
        law_entries_are_told(
            with_fields(head, fields.drop_last()),
            fields.last().0@,
            JsonModel::Text(fields.last().1@),
            fields.last().0@,
        );
    }
}

proof fn lemma_field_told(
    head: Seq<(Seq<char>, JsonModel)>,
    fields: Seq<(String, String)>,
    i: int,
)
    requires
        keys_apart(head),
        0 <= i < fields.len(),
        forall|k: int| i < k < fields.len() ==> (#[trigger] fields[k]).0@ != fields[i].0@,
    ensures
        entry_told(with_fields(head, fields), fields[i].0@) == Some(JsonModel::Text(fields[i].1@)),
    decreases fields.len(),
{
    let front = fields.drop_last();
    lemma_fields_apart(head, front);
    law_entries_are_told(
        with_fields(head, front),
        fields.last().0@,
        JsonModel::Text(fields.last().1@),
        fields[i].0@,
    );
    if i < fields.len() - 1 {
        assert(fields[fields.len() - 1].0@ != fields[i].0@);
        assert forall|k: int| i < k < front.len() implies (#[trigger] front[k]).0@
            != front[i].0@ by {
            assert(fields[k].0@ != fields[i].0@);
        }
        lemma_field_told(head, front, i);
    }
}

/// Law: the last record of a run keeps what it summarises, and tells where the records are and
/// who wrote them.
pub proof fn law_summaries_name_their_records(
    ms: Seq<(Seq<char>, JsonModel)>,
    path: Seq<char>,
    component: Seq<char>,
    name: Seq<char>,
)
    requires
        keys_apart(ms),
        name != "_jsonl_path"@,
        name != "_component"@,
    ensures
        told(finalized(JsonModel::Object(ms), path, component), "_jsonl_path"@) == Some(
            JsonModel::Text(path),
        ),
        told(finalized(JsonModel::Object(ms), path, component), "_component"@) == Some(
            JsonModel::Text(component),
        ),
        told(finalized(JsonModel::Object(ms), path, component), name) == entry_told(ms, name),
{
    reveal_strlit("_jsonl_path");
    reveal_strlit("_component");
    assert("_jsonl_path"@.len() == 11 && "_component"@.len() == 10);
    let one = with_entry(ms, "_jsonl_path"@, JsonModel::Text(path));
    law_entries_are_told(ms, "_jsonl_path"@, JsonModel::Text(path), name);
    law_entries_are_told(one, "_component"@, JsonModel::Text(component), "_jsonl_path"@);
    law_entries_are_told(one, "_component"@, JsonModel::Text(component), name);
}

/// Law: levels are ranked from debugging to errors, and each is set by its own name, in whatever
/// case; anything else sets the usual one.
pub proof fn law_levels_are_set_by_name(setting: Seq<char>, l: Level)
    ensures
        lowered(setting) == lowered(level_name(l)) ==> level_set(Some(setting)) == l,
        level_set(None) == Level::Info,
        rank_of(Level::Debug) < rank_of(Level::Info) < rank_of(Level::Warn) < rank_of(Level::Error),
        level_set(Some(setting)) != Level::Info ==> lowered(setting) == lowered(
            level_name(level_set(Some(setting))),
        ),
{
    reveal_strlit("debug");
    reveal_strlit("warn");
    reveal_strlit("error");
    reveal_strlit("DEBUG");
    reveal_strlit("INFO");
    reveal_strlit("WARN");
    reveal_strlit("ERROR");
    assert(lowered("DEBUG"@) =~= "debug"@);
    assert(lowered("WARN"@) =~= "warn"@);
    assert(lowered("ERROR"@) =~= "error"@);
    assert("debug"@[0] == 'd' && "error"@[0] == 'e' && "warn"@[0] == 'w');
    assert(lowered("INFO"@).len() == 4);
    assert(lowered("INFO"@)[0] == 'i');
    assert("debug"@.len() == 5 && "error"@.len() == 5 && "warn"@.len() == 4);
}

/// Law: without colours nothing but the text is printed; with them the colour ends where the
/// text does.
pub proof fn law_paint_ends_with_the_text(code: Seq<char>, text: Seq<char>)
    ensures
        painted(false, code, text) == text,
        painted(true, code, text).len() == code.len() + text.len() + RESET@.len(),
        painted(true, code, text).subrange(code.len() as int, (code.len() + text.len()) as int)
            == text,
        painted(true, code, text).skip((code.len() + text.len()) as int) == RESET@,
{
    let p = painted(true, code, text);
    assert(p.subrange(code.len() as int, (code.len() + text.len()) as int) =~= text);
    assert(p.skip((code.len() + text.len()) as int) =~= RESET@);
}

} // verus!
