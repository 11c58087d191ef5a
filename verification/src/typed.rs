//! The way of an event through a stage whose types the agent knows: its fields
//! are read one by one, and written back one by one.

use std::marker::PhantomData;

use vstd::prelude::*;
use crate::envelope::{cut_s32, cut_u32, field_in, low_s32, low_u32, EventEnvelope, WireValue};
use crate::json::{
    bool_in, bool_of, count_in, count_of, double_in, double_of, entry, signed_in, signed_of,
    single_in, single_of, text_in, text_of,
};
use crate::text::same;
use crate::wire::{BenchHop, Scalar, ScalarModel, TimingModel};

verus! {

/// What an event tells of its fields, whichever its format. A field that is not
/// there, or is of another kind, is none. Fractions are given by their bits.
pub trait EventView {
    fn str_field(&self, json_name: &str) -> Option<String>;

    fn f64_field(&self, json_name: &str) -> Option<u64>;

    fn f32_field(&self, json_name: &str) -> Option<u32>;

    fn u64_field(&self, json_name: &str) -> Option<u64>;

    fn u32_field(&self, json_name: &str) -> Option<u32>;

    fn s64_field(&self, json_name: &str) -> Option<i64>;

    fn s32_field(&self, json_name: &str) -> Option<i32>;

    fn bool_field(&self, json_name: &str) -> Option<bool>;
}

/// The text in a field.
pub open spec fn text_field(e: EventEnvelope, name: Seq<char>) -> Option<Seq<char>> {
    match e {
        EventEnvelope::Json(j) => text_in(entry(j, name)),
        EventEnvelope::Binary(b) => match field_in(b.fields@, name) {
            Some(ScalarModel::Str(t)) => Some(t),
            _ => None,
        },
    }
}

/// The fraction in a field, in double precision.
pub open spec fn double_field(e: EventEnvelope, name: Seq<char>) -> Option<u64> {
    match e {
        EventEnvelope::Json(j) => double_in(entry(j, name)),
        EventEnvelope::Binary(b) => match field_in(b.fields@, name) {
            Some(ScalarModel::F64(v)) => Some(v),
            _ => None,
        },
    }
}

/// The fraction in a field, in single precision.
pub open spec fn single_field(e: EventEnvelope, name: Seq<char>) -> Option<u32> {
    match e {
        EventEnvelope::Json(j) => single_in(entry(j, name)),
        EventEnvelope::Binary(b) => match field_in(b.fields@, name) {
            Some(ScalarModel::F32(v)) => Some(v),
            _ => None,
        },
    }
}

/// The whole number in a field.
pub open spec fn count_field(e: EventEnvelope, name: Seq<char>) -> Option<u64> {
    match e {
        EventEnvelope::Json(j) => count_in(entry(j, name)),
        EventEnvelope::Binary(b) => match field_in(b.fields@, name) {
            Some(ScalarModel::U64(v)) => Some(v),
            _ => None,
        },
    }
}

/// The whole number in a field, in thirty-two bits.
pub open spec fn short_count_field(e: EventEnvelope, name: Seq<char>) -> Option<u32> {
    match e {
        EventEnvelope::Json(j) => match count_in(entry(j, name)) {
            Some(v) => Some(low_u32(v)),
            None => None,
        },
        EventEnvelope::Binary(b) => match field_in(b.fields@, name) {
            Some(ScalarModel::U32(v)) => Some(v),
            _ => None,
        },
    }
}

/// The signed number in a field.
pub open spec fn signed_field(e: EventEnvelope, name: Seq<char>) -> Option<i64> {
    match e {
        EventEnvelope::Json(j) => signed_in(entry(j, name)),
        EventEnvelope::Binary(b) => match field_in(b.fields@, name) {
            Some(ScalarModel::S64(v)) => Some(v),
            _ => None,
        },
    }
}

/// The signed number in a field, in thirty-two bits.
pub open spec fn short_signed_field(e: EventEnvelope, name: Seq<char>) -> Option<i32> {
    match e {
        EventEnvelope::Json(j) => match signed_in(entry(j, name)) {
            Some(v) => Some(low_s32(v)),
            None => None,
        },
        EventEnvelope::Binary(b) => match field_in(b.fields@, name) {
            Some(ScalarModel::S32(v)) => Some(v),
            _ => None,
        },
    }
}

/// The truth value in a field.
pub open spec fn truth_field(e: EventEnvelope, name: Seq<char>) -> Option<bool> {
    match e {
        EventEnvelope::Json(j) => bool_in(entry(j, name)),
        EventEnvelope::Binary(b) => match field_in(b.fields@, name) {
            Some(ScalarModel::Bool(v)) => Some(v),
            _ => None,
        },
    }
}

impl EventView for EventEnvelope {
    fn str_field(&self, json_name: &str) -> (r: Option<String>)
        ensures
            match r {
                None => text_field(*self, json_name@) is None,
                Some(s) => text_field(*self, json_name@) == Some(s@),
            },
    {
        match self {
            EventEnvelope::Json(j) => match text_of(j.get(json_name)) {
                Some(s) => Some(s.clone()),
                None => None,
            },
            EventEnvelope::Binary(b) => match b.field(json_name) {
                Some(Scalar::Str(s)) => Some(s.clone()),
                _ => None,
            },
        }
    }

    fn f64_field(&self, json_name: &str) -> (r: Option<u64>)
        ensures
            r == double_field(*self, json_name@),
    {
        match self {
            EventEnvelope::Json(j) => double_of(j.get(json_name)),
            EventEnvelope::Binary(b) => match b.field(json_name) {
                Some(Scalar::F64(v)) => Some(*v),
                _ => None,
            },
        }
    }

    fn f32_field(&self, json_name: &str) -> (r: Option<u32>)
        ensures
            r == single_field(*self, json_name@),
    {
        match self {
            EventEnvelope::Json(j) => single_of(j.get(json_name)),
            EventEnvelope::Binary(b) => match b.field(json_name) {
                Some(Scalar::F32(v)) => Some(*v),
                _ => None,
            },
        }
    }

    fn u64_field(&self, json_name: &str) -> (r: Option<u64>)
        ensures
            r == count_field(*self, json_name@),
    {
        match self {
            EventEnvelope::Json(j) => count_of(j.get(json_name)),
            EventEnvelope::Binary(b) => match b.field(json_name) {
                Some(Scalar::U64(v)) => Some(*v),
                _ => None,
            },
        }
    }

    fn u32_field(&self, json_name: &str) -> (r: Option<u32>)
        ensures
            r == short_count_field(*self, json_name@),
    {
        match self {
            EventEnvelope::Json(j) => match count_of(j.get(json_name)) {
                Some(v) => Some(cut_u32(v)),
                None => None,
            },
            EventEnvelope::Binary(b) => match b.field(json_name) {
                Some(Scalar::U32(v)) => Some(*v),
                _ => None,
            },
        }
    }

    fn s64_field(&self, json_name: &str) -> (r: Option<i64>)
        ensures
            r == signed_field(*self, json_name@),
    {
        match self {
            EventEnvelope::Json(j) => signed_of(j.get(json_name)),
            EventEnvelope::Binary(b) => match b.field(json_name) {
                Some(Scalar::S64(v)) => Some(*v),
                _ => None,
            },
        }
    }

    fn s32_field(&self, json_name: &str) -> (r: Option<i32>)
        ensures
            r == short_signed_field(*self, json_name@),
    {
        match self {
            EventEnvelope::Json(j) => match signed_of(j.get(json_name)) {
                Some(v) => Some(cut_s32(v)),
                None => None,
            },
            EventEnvelope::Binary(b) => match b.field(json_name) {
                Some(Scalar::S32(v)) => Some(*v),
                _ => None,
            },
        }
    }

    fn bool_field(&self, json_name: &str) -> (r: Option<bool>)
        ensures
            r == truth_field(*self, json_name@),
    {
        match self {
            EventEnvelope::Json(j) => bool_of(j.get(json_name)),
            EventEnvelope::Binary(b) => match b.field(json_name) {
                Some(Scalar::Bool(v)) => Some(*v),
                _ => None,
            },
        }
    }
}

/// A type that a stage takes: how it is made from an event.
pub trait FromEvent: Sized {
    fn from_event(view: &dyn EventView) -> Self;
}

/// A type that a stage gives: its fields, in the order of its schema.
pub trait ToEvent {
    fn to_fields(&self, out: &mut Vec<(&'static str, WireValue)>);
}

/// What a stage is told of an event's timing, and has to pass on.
#[derive(Debug)]
pub struct BenchCtx {
    pub bench_ts_wall: Option<u64>,
    pub bench_ts: Option<u64>,
    pub bench_seq: Option<u64>,
    pub bench_hops: Vec<BenchHop>,
}

/// The timing in what a stage is told.
pub open spec fn told_timing(b: BenchCtx) -> TimingModel {
    TimingModel { ts_wall: b.bench_ts_wall, ts: b.bench_ts, seq: b.bench_seq }
}

/// What a stage is told of an event's timing: its hops are left out, the host
/// adds its own after the call.
pub fn bench_ctx(env: &EventEnvelope) -> (b: BenchCtx)
    ensures
        told_timing(b) == env.timing(),
        b.bench_hops@.len() == 0,
{
    let t = env.bench_scalars();
    BenchCtx { bench_ts_wall: t.ts_wall, bench_ts: t.ts, bench_seq: t.seq, bench_hops: Vec::new() }
}

/// A stage that takes one type and gives another.
pub struct TypedStage<In, Out> {
    kinds: PhantomData<(In, Out)>,
}

impl<In: FromEvent, Out: ToEvent> TypedStage<In, Out> {
    /// What the stage is called with: the event, and what it is told of the
    /// event's timing.
    pub fn input(&self, env: &EventEnvelope) -> (r: (In, BenchCtx))
        ensures
            call_ensures(In::from_event, (env,), r.0),
            told_timing(r.1) == env.timing(),
            r.1.bench_hops@.len() == 0,
    {
        (In::from_event(env), bench_ctx(env))
    }
}

impl<In, Out> TypedStage<In, Out> {
    pub fn new() -> (s: Self)
        ensures
            s == typed_stage::<In, Out>(),
    {
        TypedStage { kinds: PhantomData }
    }
}

/// The one stage that takes and gives these types.
pub closed spec fn typed_stage<In, Out>() -> TypedStage<In, Out> {
    TypedStage { kinds: PhantomData }
}

/// Whether a stage is called by its own types: they are known, and the setting
/// does not ask for the other way.
pub fn calls_by_type(setting: Option<&str>, known: bool) -> (r: bool)
    ensures
        r == (known && !(setting matches Some(s) && s@ == "1"@)),
{
    match setting {
        Some(s) => known && !same(s, "1"),
        None => known,
    }
}

} // verus!
