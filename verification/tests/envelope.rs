//! Events on the wire: reading them, handing them to a stage, writing what it
//! gives back.

use bytes::Bytes;
use epico::boundary::{
    collector_bind, derive_pub_addr, eos_marker, may_end, reading, telemetry_parts, Collected,
    Collector, Partition,
};
use epico::codegen::ValueKind;
use epico::envelope::{
    default_val, extract_record_fields, kind_tag, scalar_to_val, val_to_scalar, wit_name_to_json,
    DecodeError, Encoded, EnvelopeFormat, EventEnvelope, RecordField, TypeShape, Val, WireValue,
};
use epico::json::{Json, JsonNumber, JsonOut, Whole};
use epico::typed::{bench_ctx, calls_by_type, EventView, FromEvent, ToEvent, TypedStage};
use epico::wire::{
    fits, is_binary, write_event, BenchHop, BenchTiming, BinaryEnvelope, FieldOut, Scalar,
};

fn rf(name: &str, kind: ValueKind, opt: bool) -> RecordField {
    RecordField {
        name: name.replace('_', "-"),
        json_name: name.to_string(),
        is_option: opt,
        inner_kind: kind,
    }
}

fn hop(stage: &str, enter: f64, exit: f64) -> BenchHop {
    BenchHop { stage: stage.to_string(), enter_ts: enter.to_bits(), exit_ts: exit.to_bits() }
}

fn no_timing() -> BenchTiming {
    BenchTiming { ts_wall: None, ts: None, seq: None }
}

fn whole(n: u64) -> Json {
    Json::Number(JsonNumber {
        whole: Whole::Positive(n),
        bits: (n as f64).to_bits(),
        single: (n as f32).to_bits(),
    })
}

fn fraction(x: f64) -> Json {
    Json::Number(JsonNumber {
        whole: Whole::Fraction,
        bits: x.to_bits(),
        single: (x as f32).to_bits(),
    })
}

fn text(t: &str) -> Json {
    Json::Text(t.to_string())
}

fn object(entries: Vec<(&str, Json)>) -> Json {
    Json::Object(entries.into_iter().map(|(k, v)| (k.to_string(), v)).collect())
}

fn sensor_fields() -> Vec<RecordField> {
    vec![
        rf("sensor_id", ValueKind::Str, false),
        rf("value", ValueKind::F64, false),
        rf("unit", ValueKind::Str, true),
    ]
}

fn row(e: Encoded) -> Bytes {
    match e {
        Encoded::Row(b) => b,
        _ => panic!("not a row"),
    }
}

fn entry<'b, 'a>(j: &'b JsonOut<'a>, name: &str) -> Option<&'b JsonOut<'a>> {
    match j {
        JsonOut::Object(es) => es.iter().find(|(k, _)| k == name).map(|(_, v)| v),
        _ => None,
    }
}

#[test]
fn binary_roundtrip() {
    let fields = sensor_fields();
    let val = Val::Record(vec![
        ("sensor-id".to_string(), Val::Text("s-42".into())),
        ("value".to_string(), Val::Float64(21.5f64.to_bits())),
        ("unit".to_string(), Val::Maybe(None)),
    ]);
    let timing = BenchTiming {
        ts_wall: Some(123.4f64.to_bits()),
        ts: Some(123.4f64.to_bits()),
        seq: Some(7),
    };
    let before = write_event(timing, &vec![hop("relay#0", 1.0, 1.5)], &vec![]).unwrap();
    let input = EventEnvelope::decode(&Bytes::from(before), None).unwrap();
    let bytes = row(input.encode_output(
        &val,
        &fields,
        "forward#1",
        2.0f64.to_bits(),
        2.5f64.to_bits(),
        EnvelopeFormat::Binary,
    ));
    assert!(is_binary(&bytes));
    let env = BinaryEnvelope::decode_inner(&bytes, true).unwrap();
    assert_eq!(env.timing.ts_wall, Some(123.4f64.to_bits()));
    assert_eq!(env.timing.seq, Some(7));
    assert_eq!(env.hops.len(), 2);
    assert_eq!(env.hops[1].stage, "forward#1");
    match EventEnvelope::Binary(env).input_val(&fields) {
        Val::Record(rec) => {
            assert!(matches!(&rec[0].1, Val::Text(t) if t == "s-42"));
            assert!(matches!(rec[1].1, Val::Float64(b) if b == 21.5f64.to_bits()));
            assert!(matches!(rec[2].1, Val::Maybe(None)));
        }
        _ => panic!("not a record"),
    }
    let bytes2 = write_event(
        BenchTiming { ts_wall: Some(9.0f64.to_bits()), ts: None, seq: None },
        &vec![],
        &vec![],
    )
    .unwrap();
    let (t, hops) = telemetry_parts(&bytes2, None).unwrap();
    assert_eq!(t.ts_wall, Some(9.0f64.to_bits()));
    assert_eq!(hops.len(), 0);
}

#[test]
fn what_was_written_is_read_back() {
    let timing = BenchTiming { ts_wall: None, ts: Some(1.25f64.to_bits()), seq: Some(u64::MAX) };
    let fields = vec![
        FieldOut { tag: 0, name: "näme".into(), value: Some(Scalar::Str("grün".into())) },
        FieldOut { tag: 3, name: "n".into(), value: Some(Scalar::U64(7)) },
        FieldOut { tag: 5, name: "z".into(), value: Some(Scalar::S64(-7)) },
        FieldOut { tag: 7, name: "ok".into(), value: Some(Scalar::Bool(true)) },
        FieldOut { tag: 1, name: "gone".into(), value: None },
    ];
    let hops = vec![hop("a#0", 1.0, 2.0), hop("b#3", 3.0, 4.0)];
    assert!(fits(&hops, &fields));
    let bytes = write_event(timing, &hops, &fields).unwrap();
    let env = BinaryEnvelope::decode_inner(&bytes, true).unwrap();
    assert_eq!(env.timing.ts, Some(1.25f64.to_bits()));
    assert_eq!(env.timing.ts_wall, None);
    assert_eq!(env.hops[1].stage, "b#3");
    assert_eq!(env.hops[1].exit_ts, 4.0f64.to_bits());
    assert_eq!(env.fields.len(), 5);
    assert!(matches!(env.field("näme"), Some(Scalar::Str(s)) if s == "grün"));
    assert!(matches!(env.field("z"), Some(Scalar::S64(-7))));
    assert!(env.field("gone").is_none());
    assert!(env.field("missing").is_none());
    assert!(!env.is_eos());
    let short = BinaryEnvelope::decode_inner(&bytes, false).unwrap();
    assert_eq!(short.fields.len(), 0);
    assert_eq!(short.hops.len(), 2);
}

#[test]
fn a_cut_off_event_is_refused() {
    let bytes =
        write_event(no_timing(), &vec![hop("a#0", 1.0, 2.0)], &vec![]).unwrap();
    for n in 0..bytes.len() {
        assert!(BinaryEnvelope::decode_inner(&bytes[..n], true).is_none());
    }
    assert!(BinaryEnvelope::decode_inner(&bytes, true).is_some());
}

#[test]
fn a_text_that_is_no_utf8_is_refused() {
    let fields = vec![FieldOut { tag: 0, name: "s".into(), value: Some(Scalar::Str("xy".into())) }];
    let mut bytes = write_event(no_timing(), &vec![], &fields).unwrap();
    assert!(BinaryEnvelope::decode_inner(&bytes, true).is_some());
    let at = bytes.windows(2).rposition(|w| w == b"xy").unwrap();
    bytes[at] = 0xff;
    assert!(BinaryEnvelope::decode_inner(&bytes, true).is_none());
}

#[test]
fn too_long_a_name_does_not_fit() {
    let long = "n".repeat(70_000);
    let fields = vec![FieldOut { tag: 3, name: long, value: Some(Scalar::U64(1)) }];
    assert!(!fits(&vec![], &fields));
    assert!(write_event(no_timing(), &vec![], &fields).is_none());
}

#[test]
fn bytes_are_told_apart_by_their_magic() {
    let json = Bytes::from_static(b"{\"value\":1}");
    assert!(!is_binary(&json));
    assert!(matches!(EventEnvelope::decode(&json, None), Err(DecodeError::Json)));
    assert!(matches!(
        EventEnvelope::decode(&json, Some(object(vec![("value", whole(1))]))),
        Ok(EventEnvelope::Json(_))
    ));
    let mut row = write_event(no_timing(), &vec![], &vec![]).unwrap();
    row.truncate(row.len() - 1);
    assert!(matches!(EventEnvelope::decode(&Bytes::from(row), None), Err(DecodeError::Binary)));
}

#[test]
fn formats_and_names() {
    assert!(matches!(EnvelopeFormat::parse("json"), Ok(EnvelopeFormat::Json)));
    assert!(matches!(EnvelopeFormat::parse("binary"), Ok(EnvelopeFormat::Binary)));
    assert!(EnvelopeFormat::parse("xml").is_err());
    assert_eq!(wit_name_to_json("sensor-id"), "sensor_id");
    assert_eq!(kind_tag(ValueKind::Str), 0);
    assert_eq!(kind_tag(ValueKind::Bool), 7);
    assert!(matches!(default_val(ValueKind::U32), Val::U32(0)));
    assert!(matches!(scalar_to_val(&Scalar::U64(5), ValueKind::U64), Some(Val::U64(5))));
    assert!(scalar_to_val(&Scalar::Bool(true), ValueKind::U64).is_none());
    let f = rf("n", ValueKind::S32, true);
    assert!(matches!(
        val_to_scalar(&Val::Maybe(Some(Box::new(Val::S32(-2)))), &f),
        Some(Scalar::S32(-2))
    ));
    assert!(val_to_scalar(&Val::Maybe(None), &f).is_none());
}

#[test]
fn the_fields_of_a_record_type() {
    let t = TypeShape::Record(vec![
        ("sensor-id".into(), TypeShape::Text),
        ("unit".into(), TypeShape::Maybe(Box::new(TypeShape::Float32))),
    ]);
    let fields = extract_record_fields(&t);
    assert_eq!(fields.len(), 2);
    assert_eq!(fields[0].name, "sensor-id");
    assert_eq!(fields[0].json_name, "sensor_id");
    assert!(!fields[0].is_option);
    assert!(fields[1].is_option);
    assert!(matches!(fields[1].inner_kind, ValueKind::F32));
    assert_eq!(extract_record_fields(&TypeShape::U64).len(), 0);
}

#[test]
fn a_text_event_reaches_a_stage_as_a_record() {
    let j = object(vec![
        ("sensor_id", text("s-1")),
        ("value", fraction(2.5)),
        ("bench_seq", whole(9)),
        ("bench_ts_wall", fraction(10.5)),
    ]);
    let env = EventEnvelope::Json(j);
    match env.input_val(&sensor_fields()) {
        Val::Record(rec) => {
            assert!(matches!(&rec[0].1, Val::Text(t) if t == "s-1"));
            assert!(matches!(rec[1].1, Val::Float64(b) if b == 2.5f64.to_bits()));
            assert!(matches!(rec[2].1, Val::Maybe(None)));
        }
        _ => panic!("not a record"),
    }
    let t = env.bench_scalars();
    assert_eq!(t.seq, Some(9));
    assert_eq!(t.ts_wall, Some(10.5f64.to_bits()));
    assert_eq!(t.ts, None);
    assert!(!env.is_eos());
    match env.bench_val(true) {
        Val::Record(rec) => {
            assert_eq!(rec.len(), 4);
            assert_eq!(rec[2].0, "bench-seq");
            assert!(matches!(&rec[2].1, Val::Maybe(Some(n)) if matches!(**n, Val::U64(9))));
        }
        _ => panic!("not a record"),
    }
}

#[test]
fn a_text_event_keeps_its_bench_entries_and_gains_a_hop() {
    let j = object(vec![
        ("bench_seq", whole(9)),
        (
            "bench_hops",
            Json::Array(vec![Json::Array(vec![text("a#0"), fraction(1.5), fraction(2.5)])]),
        ),
    ]);
    let env = EventEnvelope::Json(j);
    assert_eq!(env.bench_parts().len(), 1);
    assert_eq!(env.bench_parts()[0].stage, "a#0");
    let fields = vec![rf("value", ValueKind::U32, false)];
    let val = Val::Record(vec![("value".into(), Val::U32(4))]);
    let out = env.encode_output(&val, &fields, "b#1", 7, 8, EnvelopeFormat::Json);
    let j = match out {
        Encoded::Text(j) => j,
        _ => panic!("not a text"),
    };
    assert!(entry(&j, "value").is_some());
    assert!(entry(&j, "bench_seq").is_some());
    match entry(&j, "bench_hops") {
        Some(JsonOut::Array(hops)) => assert_eq!(hops.len(), 2),
        _ => panic!("no hops"),
    }
    let typed = env.encode_typed(
        &vec![("ok".into(), WireValue::Bool(true)), ("none".into(), WireValue::Absent)],
        "b#1",
        7,
        8,
        EnvelopeFormat::Binary,
    );
    let back = BinaryEnvelope::decode_inner(&row(typed), true).unwrap();
    assert!(matches!(back.field("ok"), Some(Scalar::Bool(true))));
    assert!(back.field("none").is_none());
    assert_eq!(back.hops.len(), 2);
    assert_eq!(back.timing.seq, Some(9));
}

#[test]
fn passing_an_event_on_only_adds_a_hop() {
    let fields = vec![FieldOut { tag: 3, name: "n".into(), value: Some(Scalar::U64(7)) }];
    let bytes = write_event(no_timing(), &vec![hop("a#0", 1.0, 2.0)], &fields).unwrap();
    let env = EventEnvelope::decode(&Bytes::from(bytes), None).unwrap();
    let out = row(env.encode_identity("b#0", 3.0f64.to_bits(), 4.0f64.to_bits()));
    let back = BinaryEnvelope::decode_inner(&out, true).unwrap();
    assert_eq!(back.hops.len(), 2);
    assert_eq!(back.hops[0].stage, "a#0");
    assert_eq!(back.hops[1].stage, "b#0");
    assert!(matches!(back.field("n"), Some(Scalar::U64(7))));
}

struct Measure {
    id: String,
    value: u64,
}

impl FromEvent for Measure {
    fn from_event(view: &dyn EventView) -> Self {
        Measure {
            id: view.str_field("sensor_id").unwrap_or_default(),
            value: view.f64_field("value").unwrap_or(0),
        }
    }
}

impl ToEvent for Measure {
    fn to_fields(&self, out: &mut Vec<(&'static str, WireValue)>) {
        out.push(("sensor_id", WireValue::Str(self.id.clone())));
        out.push(("value", WireValue::F64(self.value)));
    }
}

#[test]
fn a_typed_stage_reads_its_input_from_the_event() {
    let env = EventEnvelope::Json(object(vec![
        ("sensor_id", text("s-9")),
        ("value", fraction(0.5)),
        ("bench_seq", whole(3)),
    ]));
    let stage: TypedStage<Measure, Measure> = TypedStage::new();
    let (m, ctx) = stage.input(&env);
    assert_eq!(m.id, "s-9");
    assert_eq!(m.value, 0.5f64.to_bits());
    assert_eq!(ctx.bench_seq, Some(3));
    assert_eq!(bench_ctx(&env).bench_seq, Some(3));
    let mut out = Vec::new();
    m.to_fields(&mut out);
    assert_eq!(out.len(), 2);
    assert!(calls_by_type(None, true));
    assert!(!calls_by_type(None, false));
    assert!(!calls_by_type(Some("1"), true));
}

#[test]
fn readings_are_shared_out_between_the_generators() {
    let mut seen = vec![0u32; 10];
    for index in 0..3 {
        let mut p = Partition::new(10, index, 3);
        while let Some(n) = p.next() {
            seen[n as usize] += 1;
        }
    }
    assert!(seen.iter().all(|n| *n == 1));
}

#[test]
fn a_reading_can_be_written_both_ways() {
    let r = reading(12, 5);
    assert_eq!(r.seq, 12);
    let bits = 100.5f64.to_bits();
    let row = r.to_row(bits, 1.0f64.to_bits()).unwrap();
    let env = BinaryEnvelope::decode_inner(&row, true).unwrap();
    assert_eq!(env.timing.seq, Some(12));
    assert!(matches!(env.field("sensor_id"), Some(Scalar::Str(s)) if *s == r.sensor_id));
    let j = r.to_json(bits);
    assert!(matches!(entry(&j, "sensor_id"), Some(JsonOut::Text(t)) if *t == r.sensor_id));
    assert!(matches!(entry(&j, "bench_seq"), Some(JsonOut::Count(12))));
}

#[test]
fn the_collector_counts_events_and_stops_at_the_marker() {
    let mut c = Collector::new();
    let event = write_event(no_timing(), &vec![], &vec![]).unwrap();
    assert!(matches!(c.take(&event, &None), Collected::Event));
    assert!(matches!(c.take(b"{\"value\":1}", &None), Collected::Event));
    assert_eq!(c.recv_count, 2);
    let marker = b"{\"__epico_eos\":true,\"loadgen_sent\":3}";
    assert!(may_end(marker));
    assert!(!may_end(b"{\"value\":1}"));
    let read = object(vec![("__epico_eos", Json::Bool(true)), ("loadgen_sent", whole(3))]);
    assert!(matches!(c.take(marker, &Some(read)), Collected::End(_, _)));
    assert!(c.eos_received);
    assert_eq!(c.recv_count, 2);
    let again = object(vec![("__epico_eos", Json::Bool(true))]);
    assert!(matches!(c.take(marker, &Some(again)), Collected::EndAgain));
    assert!(matches!(c.take(b"{\"value\":1}", &None), Collected::Event));
    assert_eq!(c.recv_count, 3);
    let m = eos_marker(3, 1.5f64.to_bits());
    assert!(matches!(entry(&m, "__epico_eos"), Some(JsonOut::Bool(true))));
    assert!(matches!(entry(&m, "loadgen_sent"), Some(JsonOut::Count(3))));
}

#[test]
fn addresses_of_the_collector() {
    assert_eq!(collector_bind("tcp://10.0.0.1:5600"), "tcp://0.0.0.0:5600");
    assert_eq!(collector_bind("ipc:///tmp/c"), "ipc:///tmp/c");
    assert_eq!(collector_bind("5600"), "tcp://0.0.0.0:5600");
    assert_eq!(derive_pub_addr("tcp://0.0.0.0:5600"), "tcp://0.0.0.0:5601");
    assert_eq!(derive_pub_addr("ipc:///tmp/c"), "ipc:///tmp/c-pub");
}

#[test]
fn an_event_that_only_names_the_marker_is_an_event() {
    let mut c = Collector::new();
    let event = b"{\"bench_ts_wall\":1.0,\"note\":\"__epico_eos\"}";
    let read = object(vec![("bench_ts_wall", fraction(1.0)), ("note", text("__epico_eos"))]);
    assert!(may_end(event));
    assert!(matches!(c.take(event, &Some(read)), Collected::Event));
    let not_set = object(vec![("__epico_eos", Json::Bool(false))]);
    assert!(matches!(c.take(b"{\"__epico_eos\":false}", &Some(not_set)), Collected::Event));
    let fields =
        vec![FieldOut { tag: 0, name: "note".into(), value: Some(Scalar::Str("__epico_eos".into())) }];
    let row = write_event(no_timing(), &vec![], &fields).unwrap();
    assert!(may_end(&row));
    assert!(matches!(c.take(&row, &None), Collected::Event));
    assert!(!c.eos_received);
    assert_eq!(c.recv_count, 3);
}

#[test]
fn no_more_fields_are_written_than_fit() {
    let many = |n: u64| -> Vec<FieldOut> {
        (0..n).map(|i| FieldOut { tag: 3, name: "n".into(), value: Some(Scalar::U64(i)) }).collect()
    };
    let fields = many(65_540);
    assert!(fits(&vec![], &fields));
    let bytes = write_event(no_timing(), &vec![], &fields).unwrap();
    assert_eq!(bytes, write_event(no_timing(), &vec![], &many(65_535)).unwrap());
    let back = BinaryEnvelope::decode_inner(&bytes, true).unwrap();
    assert_eq!(back.fields.len(), 65_535);
    assert!(matches!(back.fields[65_534].scalar, Some(Scalar::U64(65_534))));

    let mut late = many(65_535);
    late.push(FieldOut { tag: 3, name: "n".repeat(300), value: None });
    assert!(write_event(no_timing(), &vec![], &late).is_some());

    let env = EventEnvelope::decode(&Bytes::from(bytes), None).unwrap();
    let typed: Vec<(&'static str, WireValue)> =
        (0..65_536u64).map(|i| ("n", WireValue::U64(i))).collect();
    let out = row(env.encode_typed(&typed, "a#0", 1, 2, EnvelopeFormat::Binary));
    assert_eq!(BinaryEnvelope::decode_inner(&out, true).unwrap().fields.len(), 65_535);
}
