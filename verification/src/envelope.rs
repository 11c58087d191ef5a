//! Events at the boundary of a stage: from the bytes that arrive to the values
//! a stage is called with, and back.

use vstd::prelude::*;
use crate::codegen::ValueKind;
use crate::json::{
    bool_in, bool_of, count_in, count_of, double_in, double_of, entry, items_in, opt_value, shows,
    signed_in, signed_of, single_in, single_of, text_in, text_of, with_entry, Json, JsonModel,
    JsonOut, ObjectOut,
};
use crate::payload::{buffer_of, bytes_of, content};
use crate::text::{lowered, replace_char, replaced, same, to_lower, trim, trimmed};
use crate::wire::{
    event_bytes, event_fits, field_models, hop_models, is_binary, is_binary_event, kept_fields,
    read_event, s32_from, s64_bits, tag_of, write_event, BenchHop, BenchTiming, BinaryEnvelope,
    BinField, FieldModel, FieldOut, HopModel, Scalar, ScalarModel, TimingModel,
};

verus! {

/// The formats in which events travel.
#[derive(Clone, Copy, Debug, PartialEq, Eq, Structural)]
pub enum EnvelopeFormat {
    Json,
    Binary,
}

/// The format of that name.
pub open spec fn format_named(s: Seq<char>) -> Option<EnvelopeFormat> {
    let name = lowered(trimmed(s));
    if name == ""@ || name == "json"@ {
        Some(EnvelopeFormat::Json)
    } else if name == "binary"@ || name == "epico-binary"@ {
        Some(EnvelopeFormat::Binary)
    } else {
        None
    }
}

impl EnvelopeFormat {
    /// The format of that name; the name, where there is none.
    pub fn parse(s: &str) -> (r: Result<EnvelopeFormat, String>)
        ensures
            match r {
                Ok(f) => format_named(s@) == Some(f),
                Err(other) => format_named(s@) is None && other@ == lowered(trimmed(s@)),
            },
    {
        let bare = trim(s);
        let name = to_lower(bare.as_str());
        if same(name.as_str(), "") || same(name.as_str(), "json") {
            Ok(EnvelopeFormat::Json)
        } else if same(name.as_str(), "binary") || same(name.as_str(), "epico-binary") {
            Ok(EnvelopeFormat::Binary)
        } else {
            Err(name)
        }
    }
}

/// A field of a record, as the component that takes or gives it declares it.
#[derive(Debug)]
pub struct RecordField {
    /// The name in the component's interface.
    pub name: String,
    /// The name in an event.
    pub json_name: String,
    /// Whether it may be absent.
    pub is_option: bool,
    pub inner_kind: ValueKind,
}

/// The name in an event of a field of an interface.
pub fn wit_name_to_json(wit: &str) -> (out: String)
    ensures
        out@ == replaced(wit@, '-', '_'),
{
    replace_char(wit, '-', '_')
}

/// A type of a component's interface, as far as events have it.
#[derive(Debug)]
pub enum TypeShape {
    Text,
    Float64,
    Float32,
    U64,
    U32,
    S64,
    S32,
    Bool,
    Maybe(Box<TypeShape>),
    Record(Vec<(String, TypeShape)>),
    Other,
}

/// The kind of a field's value; a type that no event has counts as text.
pub open spec fn shape_kind(t: TypeShape) -> ValueKind {
    match t {
        TypeShape::Float64 => ValueKind::F64,
        TypeShape::Float32 => ValueKind::F32,
        TypeShape::U64 => ValueKind::U64,
        TypeShape::U32 => ValueKind::U32,
        TypeShape::S64 => ValueKind::S64,
        TypeShape::S32 => ValueKind::S32,
        TypeShape::Bool => ValueKind::Bool,
        _ => ValueKind::Str,
    }
}

fn type_to_kind(t: &TypeShape) -> (k: ValueKind)
    ensures
        k == shape_kind(*t),
{
    match t {
        TypeShape::Float64 => ValueKind::F64,
        TypeShape::Float32 => ValueKind::F32,
        TypeShape::U64 => ValueKind::U64,
        TypeShape::U32 => ValueKind::U32,
        TypeShape::S64 => ValueKind::S64,
        TypeShape::S32 => ValueKind::S32,
        TypeShape::Bool => ValueKind::Bool,
        _ => ValueKind::Str,
    }
}

/// The field is that of a record's entry.
pub open spec fn is_field_of(f: RecordField, name: Seq<char>, t: TypeShape) -> bool {
    &&& f.name@ == name
    &&& f.json_name@ == replaced(name, '-', '_')
    &&& f.is_option == (t is Maybe)
    &&& f.inner_kind == (match t {
        TypeShape::Maybe(inner) => shape_kind(*inner),
        _ => shape_kind(t),
    })
}

/// The entries of a record; none for anything else.
pub open spec fn record_entries(t: TypeShape) -> Seq<(String, TypeShape)> {
    match t {
        TypeShape::Record(entries) => entries@,
        _ => Seq::empty(),
    }
}

/// The fields of the record that a component takes or gives.
pub fn extract_record_fields(t: &TypeShape) -> (out: Vec<RecordField>)
    ensures
        out@.len() == record_entries(*t).len(),
        forall|i: int|
            0 <= i < out@.len() ==> is_field_of(
                #[trigger] out@[i],
                record_entries(*t)[i].0@,
                record_entries(*t)[i].1,
            ),
{
    let mut out: Vec<RecordField> = Vec::new();
    if let TypeShape::Record(entries) = t {
        let mut i: usize = 0;
        while i < entries.len()
            invariant
                i <= entries@.len(),
                out@.len() == i,
                forall|k: int|
                    0 <= k < i ==> is_field_of(#[trigger] out@[k], entries@[k].0@, entries@[k].1),
            decreases entries@.len() - i,
        {
            let e = &entries[i];
            let (is_option, inner_kind) = match &e.1 {
                TypeShape::Maybe(inner) => (true, type_to_kind(inner)),
                other => (false, type_to_kind(other)),
            };
            out.push(
                RecordField {
                    name: e.0.clone(),
                    json_name: wit_name_to_json(e.0.as_str()),
                    is_option,
                    inner_kind,
                },
            );
            i = i + 1;
        }
    }
    out
}

/// A value that a stage is called with, or gives back. Fractions are kept by
/// their bits.
#[derive(Debug)]
pub enum Val {
    Text(String),
    Float64(u64),
    Float32(u32),
    U64(u64),
    U32(u32),
    S64(i64),
    S32(i32),
    Bool(bool),
    Maybe(Option<Box<Val>>),
    Record(Vec<(String, Val)>),
    List(Vec<Val>),
    /// A value of a kind that no event carries.
    Other,
}

/// A field's value on its way out of a stage.
#[derive(Debug)]
pub enum WireValue {
    Str(String),
    F64(u64),
    F32(u32),
    U64(u64),
    U32(u32),
    S64(i64),
    S32(i32),
    Bool(bool),
    /// A field that may be absent, and is.
    Absent,
}

/// The bits are those of a number, not of an infinity or of none.
pub open spec fn is_finite64(bits: u64) -> bool {
    (bits as int / 0x10_0000_0000_0000) % 0x800 != 0x7ff
}

/// The bits are those of a number, not of an infinity or of none.
pub open spec fn is_finite32(bits: u32) -> bool {
    (bits as int / 0x80_0000) % 0x100 != 0xff
}

/// A fraction as it is written: a value that is no number is null.
pub open spec fn double_json(bits: u64) -> JsonModel {
    if is_finite64(bits) {
        JsonModel::Double(bits)
    } else {
        JsonModel::Null
    }
}

pub open spec fn single_json(bits: u32) -> JsonModel {
    if is_finite32(bits) {
        JsonModel::Single(bits)
    } else {
        JsonModel::Null
    }
}

fn double_out<'a>(bits: u64) -> (j: JsonOut<'a>)
    ensures
        shows(j, double_json(bits)),
{
    if (bits / 0x10_0000_0000_0000) % 0x800 != 0x7ff {
        JsonOut::Double(bits)
    } else {
        JsonOut::Null
    }
}

fn single_out<'a>(bits: u32) -> (j: JsonOut<'a>)
    ensures
        shows(j, single_json(bits)),
{
    if (bits / 0x80_0000) % 0x100 != 0xff {
        JsonOut::Single(bits)
    } else {
        JsonOut::Null
    }
}

/// The kind byte of a field.
pub open spec fn kind_code(k: ValueKind) -> u8 {
    match k {
        ValueKind::Str => 0,
        ValueKind::F64 => 1,
        ValueKind::F32 => 2,
        ValueKind::U64 => 3,
        ValueKind::U32 => 4,
        ValueKind::S64 => 5,
        ValueKind::S32 => 6,
        ValueKind::Bool => 7,
    }
}

/// The kind byte of a field.
pub fn kind_tag(k: ValueKind) -> (t: u8)
    ensures
        t == kind_code(k),
{
    match k {
        ValueKind::Str => 0,
        ValueKind::F64 => 1,
        ValueKind::F32 => 2,
        ValueKind::U64 => 3,
        ValueKind::U32 => 4,
        ValueKind::S64 => 5,
        ValueKind::S32 => 6,
        ValueKind::Bool => 7,
    }
}

/// The value that stands for a field of which nothing usable came.
pub open spec fn is_default(v: Val, k: ValueKind) -> bool {
    match k {
        ValueKind::Str => v matches Val::Text(s) && s@ == Seq::<char>::empty(),
        ValueKind::F64 => v == Val::Float64(0),
        ValueKind::F32 => v == Val::Float32(0),
        ValueKind::U64 => v == Val::U64(0),
        ValueKind::U32 => v == Val::U32(0),
        ValueKind::S64 => v == Val::S64(0),
        ValueKind::S32 => v == Val::S32(0),
        ValueKind::Bool => v == Val::Bool(false),
    }
}

/// The value that stands for a field of which nothing usable came.
pub fn default_val(k: ValueKind) -> (v: Val)
    ensures
        is_default(v, k),
{
    match k {
        ValueKind::Str => Val::Text(String::new()),
        ValueKind::F64 => Val::Float64(0),
        ValueKind::F32 => Val::Float32(0),
        ValueKind::U64 => Val::U64(0),
        ValueKind::U32 => Val::U32(0),
        ValueKind::S64 => Val::S64(0),
        ValueKind::S32 => Val::S32(0),
        ValueKind::Bool => Val::Bool(false),
    }
}

/// A whole number cut to thirty-two bits.
pub open spec fn low_u32(v: u64) -> u32 {
    (v as int % 0x1_0000_0000) as u32
}

/// A signed number cut to thirty-two bits.
pub open spec fn low_s32(v: i64) -> i32 {
    s32_from((s64_bits(v) % 0x1_0000_0000) as nat)
}

pub(crate) fn cut_u32(v: u64) -> (n: u32)
    ensures
        n == low_u32(v),
{
    (v % 0x1_0000_0000) as u32
}

pub(crate) fn cut_s32(v: i64) -> (n: i32)
    ensures
        n == low_s32(v),
{
    let raw: u64 = if v >= 0 {
        v as u64
    } else {
        (v + 0x7fff_ffff_ffff_ffff + 1) as u64 + 0x8000_0000_0000_0000
    };
    let low: u64 = raw % 0x1_0000_0000;
    if low < 0x8000_0000 {
        low as i32
    } else {
        (low as i64 - 0x1_0000_0000) as i32
    }
}

/// The value of a read field, by the kind that is asked for; where it is of
/// another kind, the default.
pub open spec fn is_json_scalar(v: Val, j: Json, k: ValueKind) -> bool {
    match k {
        ValueKind::Str => match text_in(Some(j)) {
            Some(t) => v matches Val::Text(s) && s@ == t,
            None => is_default(v, k),
        },
        ValueKind::F64 => v == Val::Float64(
            match double_in(Some(j)) {
                Some(b) => b,
                None => 0,
            },
        ),
        ValueKind::F32 => v == Val::Float32(
            match single_in(Some(j)) {
                Some(b) => b,
                None => 0,
            },
        ),
        ValueKind::U64 => v == Val::U64(
            match count_in(Some(j)) {
                Some(n) => n,
                None => 0,
            },
        ),
        ValueKind::U32 => v == Val::U32(
            match count_in(Some(j)) {
                Some(n) => low_u32(n),
                None => 0,
            },
        ),
        ValueKind::S64 => v == Val::S64(
            match signed_in(Some(j)) {
                Some(n) => n,
                None => 0,
            },
        ),
        ValueKind::S32 => v == Val::S32(
            match signed_in(Some(j)) {
                Some(n) => low_s32(n),
                None => 0,
            },
        ),
        ValueKind::Bool => v == Val::Bool(
            match bool_in(Some(j)) {
                Some(b) => b,
                None => false,
            },
        ),
    }
}

fn json_scalar_to_val(j: &Json, k: ValueKind) -> (v: Val)
    ensures
        is_json_scalar(v, *j, k),
{
    match k {
        ValueKind::Str => match text_of(Some(j)) {
            Some(t) => Val::Text(t.clone()),
            None => Val::Text(String::new()),
        },
        ValueKind::F64 => Val::Float64(
            match double_of(Some(j)) {
                Some(b) => b,
                None => 0,
            },
        ),
        ValueKind::F32 => Val::Float32(
            match single_of(Some(j)) {
                Some(b) => b,
                None => 0,
            },
        ),
        ValueKind::U64 => Val::U64(
            match count_of(Some(j)) {
                Some(n) => n,
                None => 0,
            },
        ),
        ValueKind::U32 => Val::U32(
            match count_of(Some(j)) {
                Some(n) => cut_u32(n),
                None => 0,
            },
        ),
        ValueKind::S64 => Val::S64(
            match signed_of(Some(j)) {
                Some(n) => n,
                None => 0,
            },
        ),
        ValueKind::S32 => Val::S32(
            match signed_of(Some(j)) {
                Some(n) => cut_s32(n),
                None => 0,
            },
        ),
        ValueKind::Bool => Val::Bool(
            match bool_of(Some(j)) {
                Some(b) => b,
                None => false,
            },
        ),
    }
}

/// The value of a field of a read event: a field that may be absent is absent
/// where it is missing or null.
pub open spec fn is_json_field(v: Val, j: Option<Json>, f: RecordField) -> bool {
    if f.is_option {
        match j {
            None => v == Val::Maybe(None),
            Some(Json::Null) => v == Val::Maybe(None),
            Some(x) => v matches Val::Maybe(Some(inner)) && is_json_scalar(
                *inner,
                x,
                f.inner_kind,
            ),
        }
    } else {
        match j {
            None => is_default(v, f.inner_kind),
            Some(x) => is_json_scalar(v, x, f.inner_kind),
        }
    }
}

fn json_field_to_val(j: Option<&Json>, f: &RecordField) -> (v: Val)
    ensures
        is_json_field(v, opt_value(j), *f),
{
    if f.is_option {
        match j {
            None => Val::Maybe(None),
            Some(Json::Null) => Val::Maybe(None),
            Some(x) => Val::Maybe(Some(Box::new(json_scalar_to_val(x, f.inner_kind)))),
        }
    } else {
        match j {
            None => default_val(f.inner_kind),
            Some(x) => json_scalar_to_val(x, f.inner_kind),
        }
    }
}

/// The value is that of the scalar, which is of the kind that is asked for.
pub open spec fn is_scalar_val(v: Val, s: ScalarModel, k: ValueKind) -> bool {
    match (s, k) {
        (ScalarModel::Str(t), ValueKind::Str) => v matches Val::Text(x) && x@ == t,
        (ScalarModel::F64(n), ValueKind::F64) => v == Val::Float64(n),
        (ScalarModel::F32(n), ValueKind::F32) => v == Val::Float32(n),
        (ScalarModel::U64(n), ValueKind::U64) => v == Val::U64(n),
        (ScalarModel::U32(n), ValueKind::U32) => v == Val::U32(n),
        (ScalarModel::S64(n), ValueKind::S64) => v == Val::S64(n),
        (ScalarModel::S32(n), ValueKind::S32) => v == Val::S32(n),
        (ScalarModel::Bool(n), ValueKind::Bool) => v == Val::Bool(n),
        _ => false,
    }
}

/// The value of a scalar, where it is of the kind that is asked for: nothing is
/// made to fit.
pub fn scalar_to_val(s: &Scalar, k: ValueKind) -> (r: Option<Val>)
    ensures
        r is Some <==> tag_of(s@) == kind_code(k),
        r matches Some(v) ==> is_scalar_val(v, s@, k),
{
    match (s, k) {
        (Scalar::Str(t), ValueKind::Str) => Some(Val::Text(t.clone())),
        (Scalar::F64(n), ValueKind::F64) => Some(Val::Float64(*n)),
        (Scalar::F32(n), ValueKind::F32) => Some(Val::Float32(*n)),
        (Scalar::U64(n), ValueKind::U64) => Some(Val::U64(*n)),
        (Scalar::U32(n), ValueKind::U32) => Some(Val::U32(*n)),
        (Scalar::S64(n), ValueKind::S64) => Some(Val::S64(*n)),
        (Scalar::S32(n), ValueKind::S32) => Some(Val::S32(*n)),
        (Scalar::Bool(n), ValueKind::Bool) => Some(Val::Bool(*n)),
        _ => None,
    }
}

/// The first field of that name is at `i`.
pub open spec fn is_field_at(fields: Seq<BinField>, name: Seq<char>, i: int) -> bool {
    &&& 0 <= i < fields.len()
    &&& fields[i].name@ == name
    &&& forall|k: int| 0 <= k < i ==> (#[trigger] fields[k]).name@ != name
}

/// What an event has in a field.
pub open spec fn field_in(fields: Seq<BinField>, name: Seq<char>) -> Option<ScalarModel> {
    if exists|i: int| is_field_at(fields, name, i) {
        crate::wire::opt_scalar(fields[choose|i: int| is_field_at(fields, name, i)].scalar)
    } else {
        None
    }
}

impl BinaryEnvelope {
    /// What the event has in a field: the first of that name, where it is there.
    pub fn field(&self, json_name: &str) -> (r: Option<&Scalar>)
        ensures
            match r {
                None => field_in(self.fields@, json_name@) is None,
                Some(s) => field_in(self.fields@, json_name@) == Some(s@),
            },
    {
        let mut i: usize = 0;
        while i < self.fields.len()
            invariant
                i <= self.fields@.len(),
                forall|k: int| 0 <= k < i ==> (#[trigger] self.fields@[k]).name@ != json_name@,
            decreases self.fields@.len() - i,
        {
            if same(self.fields[i].name.as_str(), json_name) {
                proof {
                    assert(is_field_at(self.fields@, json_name@, i as int));
                    let c = choose|c: int| is_field_at(self.fields@, json_name@, c);
                    assert(is_field_at(self.fields@, json_name@, c));
                    assert(c == i);
                }
                return match &self.fields[i].scalar {
                    None => None,
                    Some(s) => Some(s),
                };
            }
            i = i + 1;
        }
        None
    }
}

/// The value of a field of an event in the row format: one that is missing, or
/// of another kind, is absent or the default.
pub open spec fn is_row_field(v: Val, s: Option<ScalarModel>, f: RecordField) -> bool {
    let usable = s is Some && tag_of(s->0) == kind_code(f.inner_kind);
    if f.is_option {
        if usable {
            v matches Val::Maybe(Some(inner)) && is_scalar_val(*inner, s->0, f.inner_kind)
        } else {
            v == Val::Maybe(None)
        }
    } else {
        if usable {
            is_scalar_val(v, s->0, f.inner_kind)
        } else {
            is_default(v, f.inner_kind)
        }
    }
}

fn row_field_to_val(s: Option<&Scalar>, f: &RecordField) -> (v: Val)
    ensures
        is_row_field(
            v,
            match s {
                None => None,
                Some(x) => Some(x@),
            },
            *f,
        ),
{
    let found = match s {
        None => None,
        Some(x) => scalar_to_val(x, f.inner_kind),
    };
    if f.is_option {
        match found {
            None => Val::Maybe(None),
            Some(v) => Val::Maybe(Some(Box::new(v))),
        }
    } else {
        match found {
            None => default_val(f.inner_kind),
            Some(v) => v,
        }
    }
}

/// An event that arrived, in whichever format.
#[derive(Debug)]
pub enum EventEnvelope {
    Json(Json),
    Binary(BinaryEnvelope),
}

/// The value is that of a field of the event.
pub open spec fn is_field_val(v: Val, e: EventEnvelope, f: RecordField) -> bool {
    match e {
        EventEnvelope::Json(j) => is_json_field(v, entry(j, f.json_name@), f),
        EventEnvelope::Binary(b) => is_row_field(v, field_in(b.fields@, f.json_name@), f),
    }
}

/// Why the bytes that arrived are no event.
#[derive(Clone, Copy, Debug, PartialEq, Eq, Structural)]
pub enum DecodeError {
    /// They carry the magic byte of the row format, and are not in it.
    Binary,
    /// They do not, and could not be read otherwise.
    Json,
}

impl EventEnvelope {
    /// Reads an event. Its format is told from its bytes; what they are as text
    /// is passed in, where it could be read.
    pub fn decode(bytes: &bytes::Bytes, read: Option<Json>) -> (r: Result<
        EventEnvelope,
        DecodeError,
    >)
        ensures
            match r {
                Ok(EventEnvelope::Binary(b)) => is_binary_event(content(*bytes)) && read_event(
                    content(*bytes),
                    true,
                ) == Some(b@),
                Ok(EventEnvelope::Json(j)) => !is_binary_event(content(*bytes)) && read == Some(j),
                Err(DecodeError::Binary) => is_binary_event(content(*bytes)) && read_event(
                    content(*bytes),
                    true,
                ) is None,
                Err(DecodeError::Json) => !is_binary_event(content(*bytes)) && read is None,
            },
    {
        let data = bytes_of(bytes);
        if is_binary(data) {
            match BinaryEnvelope::decode_inner(data, true) {
                None => Err(DecodeError::Binary),
                Some(b) => Ok(EventEnvelope::Binary(b)),
            }
        } else {
            match read {
                None => Err(DecodeError::Json),
                Some(j) => Ok(EventEnvelope::Json(j)),
            }
        }
    }

    /// The event is the mark of the end of the stream.
    pub open spec fn ends_stream(&self) -> bool {
        match *self {
            EventEnvelope::Json(j) => bool_in(entry(j, "__epico_eos"@)) == Some(true),
            EventEnvelope::Binary(b) => b@.flags % 2 == 1,
        }
    }

    /// Whether the event is the mark of the end of the stream.
    pub fn is_eos(&self) -> (b: bool)
        ensures
            b == self.ends_stream(),
    {
        match self {
            EventEnvelope::Json(j) => match bool_of(j.get("__epico_eos")) {
                Some(b) => b,
                None => false,
            },
            EventEnvelope::Binary(b) => b.is_eos(),
        }
    }

    /// The record that a stage is called with: a value for each of its fields.
    pub fn input_val(&self, fields: &Vec<RecordField>) -> (v: Val)
        ensures
            v matches Val::Record(rec) && {
                &&& rec@.len() == fields@.len()
                &&& forall|i: int|
                    0 <= i < rec@.len() ==> (#[trigger] rec@[i]).0 == fields@[i].name
                        && is_field_val(rec@[i].1, *self, fields@[i])
            },
    {
        let mut rec: Vec<(String, Val)> = Vec::new();
        let mut i: usize = 0;
        while i < fields.len()
            invariant
                i <= fields@.len(),
                rec@.len() == i,
                forall|k: int|
                    0 <= k < rec@.len() ==> (#[trigger] rec@[k]).0 == fields@[k].name
                        && is_field_val(rec@[k].1, *self, fields@[k]),
            decreases fields@.len() - i,
        {
            let f = &fields[i];
            let v = match self {
                EventEnvelope::Json(j) => json_field_to_val(j.get(f.json_name.as_str()), f),
                EventEnvelope::Binary(b) => row_field_to_val(b.field(f.json_name.as_str()), f),
            };
            rec.push((f.name.clone(), v));
            i = i + 1;
        }
        Val::Record(rec)
    }

    /// The timing the event carries.
    pub open spec fn timing(&self) -> TimingModel {
        match *self {
            EventEnvelope::Json(j) => TimingModel {
                ts_wall: double_in(entry(j, "bench_ts_wall"@)),
                ts: double_in(entry(j, "bench_ts"@)),
                seq: count_in(entry(j, "bench_seq"@)),
            },
            EventEnvelope::Binary(b) => b@.timing,
        }
    }

    /// The timing the event carries.
    pub fn bench_scalars(&self) -> (t: BenchTiming)
        ensures
            t@ == self.timing(),
    {
        match self {
            EventEnvelope::Json(j) => BenchTiming {
                ts_wall: double_of(j.get("bench_ts_wall")),
                ts: double_of(j.get("bench_ts")),
                seq: count_of(j.get("bench_seq")),
            },
            EventEnvelope::Binary(b) => b.timing,
        }
    }
}

/// The record by which a stage is told of an event's timing: its hops are left
/// out, the host adds its own after the call.
pub open spec fn is_bench_val(v: Val, t: TimingModel) -> bool {
    v matches Val::Record(rec) && {
        &&& rec@.len() == 4
        &&& rec@[0].0@ == "bench-ts-wall"@
        &&& is_opt_double(rec@[0].1, t.ts_wall)
        &&& rec@[1].0@ == "bench-ts"@
        &&& is_opt_double(rec@[1].1, t.ts)
        &&& rec@[2].0@ == "bench-seq"@
        &&& is_opt_count(rec@[2].1, t.seq)
        &&& rec@[3].0@ == "bench-hops"@
        &&& rec@[3].1 matches Val::List(l) && l@.len() == 0
    }
}

pub open spec fn is_opt_double(v: Val, bits: Option<u64>) -> bool {
    match bits {
        None => v == Val::Maybe(None),
        Some(b) => v matches Val::Maybe(Some(x)) && *x == Val::Float64(b),
    }
}

pub open spec fn is_opt_count(v: Val, n: Option<u64>) -> bool {
    match n {
        None => v == Val::Maybe(None),
        Some(k) => v matches Val::Maybe(Some(x)) && *x == Val::U64(k),
    }
}

fn opt_double(bits: Option<u64>) -> (v: Val)
    ensures
        is_opt_double(v, bits),
{
    match bits {
        None => Val::Maybe(None),
        Some(b) => Val::Maybe(Some(Box::new(Val::Float64(b)))),
    }
}

fn opt_count(n: Option<u64>) -> (v: Val)
    ensures
        is_opt_count(v, n),
{
    match n {
        None => Val::Maybe(None),
        Some(k) => Val::Maybe(Some(Box::new(Val::U64(k)))),
    }
}

impl EventEnvelope {
    /// The record by which a stage is told of the event's timing. A stage whose
    /// interface has no record for it is passed a plain value.
    pub fn bench_val(&self, takes_record: bool) -> (v: Val)
        ensures
            if takes_record {
                is_bench_val(v, self.timing())
            } else {
                v == Val::Bool(false)
            },
    {
        if !takes_record {
            return Val::Bool(false);
        }
        let t = self.bench_scalars();
        let rec = vec![
            ("bench-ts-wall".to_owned(), opt_double(t.ts_wall)),
            ("bench-ts".to_owned(), opt_double(t.ts)),
            ("bench-seq".to_owned(), opt_count(t.seq)),
            ("bench-hops".to_owned(), Val::List(Vec::new())),
        ];
        Val::Record(rec)
    }
}

/// A hop as an event in text has it: its name and two times, at least.
pub open spec fn json_hop(j: Json) -> Option<HopModel> {
    match j {
        Json::Array(a) => if a@.len() >= 3 && text_in(Some(a@[0])) is Some && double_in(
            Some(a@[1]),
        ) is Some && double_in(Some(a@[2])) is Some {
            Some(
                (
                    text_in(Some(a@[0]))->0,
                    double_in(Some(a@[1]))->0,
                    double_in(Some(a@[2]))->0,
                ),
            )
        } else {
            None
        },
        _ => None,
    }
}

/// The hops among some values: what is no hop is passed over.
pub open spec fn json_hops(items: Seq<Json>) -> Seq<HopModel>
    decreases items.len(),
{
    if items.len() == 0 {
        Seq::empty()
    } else {
        match json_hop(items.last()) {
            None => json_hops(items.drop_last()),
            Some(h) => json_hops(items.drop_last()).push(h),
        }
    }
}

fn read_json_hop(j: &Json) -> (r: Option<BenchHop>)
    ensures
        match r {
            None => json_hop(*j) is None,
            Some(h) => json_hop(*j) == Some(h@),
        },
{
    match j {
        Json::Array(a) => {
            if a.len() < 3 {
                return None;
            }
            match (text_of(Some(&a[0])), double_of(Some(&a[1])), double_of(Some(&a[2]))) {
                (Some(t), Some(enter), Some(exit)) => Some(
                    BenchHop { stage: t.clone(), enter_ts: enter, exit_ts: exit },
                ),
                _ => None,
            }
        },
        _ => None,
    }
}

fn read_json_hops(items: &Vec<Json>) -> (out: Vec<BenchHop>)
    ensures
        hop_models(out@) == json_hops(items@),
{
    let mut out: Vec<BenchHop> = Vec::new();
    let mut i: usize = 0;
    assert(items@.take(0) =~= Seq::<Json>::empty());
    assert(hop_models(out@) =~= Seq::<HopModel>::empty());
    while i < items.len()
        invariant
            i <= items@.len(),
            hop_models(out@) == json_hops(items@.take(i as int)),
        decreases items@.len() - i,
    {
        assert(items@.take(i + 1).drop_last() =~= items@.take(i as int));
        match read_json_hop(&items[i]) {
            None => {},
            Some(h) => {
                let ghost was = out@;
                out.push(h);
                assert(hop_models(out@) =~= hop_models(was).push(h@));
            },
        }
        i = i + 1;
    }
    assert(items@.take(i as int) =~= items@);
    out
}

fn copy_hop(h: &BenchHop) -> (out: BenchHop)
    ensures
        out@ == h@,
{
    BenchHop { stage: h.stage.clone(), enter_ts: h.enter_ts, exit_ts: h.exit_ts }
}

impl EventEnvelope {
    /// The hops the event carries.
    pub open spec fn hops(&self) -> Seq<HopModel> {
        match *self {
            EventEnvelope::Json(j) => json_hops(items_in(entry(j, "bench_hops"@))),
            EventEnvelope::Binary(b) => b@.hops,
        }
    }

    /// The hops the event carries, whichever its format.
    pub fn bench_parts(&self) -> (out: Vec<BenchHop>)
        ensures
            hop_models(out@) == self.hops(),
    {
        match self {
            EventEnvelope::Json(j) => match j.get("bench_hops") {
                Some(Json::Array(items)) => read_json_hops(items),
                _ => {
                    let out: Vec<BenchHop> = Vec::new();
                    assert(hop_models(out@) =~= json_hops(Seq::empty()));
                    out
                },
            },
            EventEnvelope::Binary(b) => {
                let ghost all = hop_models(b.hops@);
                let mut out: Vec<BenchHop> = Vec::new();
                let mut i: usize = 0;
                assert(hop_models(out@) =~= all.take(0));
                while i < b.hops.len()
                    invariant
                        i <= b.hops@.len(),
                        all == hop_models(b.hops@),
                        hop_models(out@) == all.take(i as int),
                    decreases b.hops@.len() - i,
                {
                    let ghost was = out@;
                    let h = copy_hop(&b.hops[i]);
                    out.push(h);
                    assert(hop_models(out@) =~= hop_models(was).push(all[i as int]));
                    assert(all.take(i + 1) =~= all.take(i as int).push(all[i as int]));
                    i = i + 1;
                }
                assert(all.take(i as int) =~= all);
                out
            },
        }
    }
}

/// A hop as it is written in text.
pub open spec fn hop_json(h: HopModel) -> JsonModel {
    JsonModel::Array(seq![JsonModel::Text(h.0), double_json(h.1), double_json(h.2)])
}

/// The hops of an event as they are written in text, the new one behind them:
/// hops that were read as text are kept as they are.
pub open spec fn hops_json(e: EventEnvelope, hop: HopModel) -> JsonModel {
    JsonModel::Array(
        (match e {
            EventEnvelope::Json(j) => items_in(entry(j, "bench_hops"@)).map_values(
                |x: Json| JsonModel::Kept(x),
            ),
            EventEnvelope::Binary(b) => b@.hops.map_values(|h: HopModel| hop_json(h)),
        }).push(hop_json(hop)),
    )
}

fn hop_out<'a>(stage: &str, enter: u64, exit: u64) -> (j: JsonOut<'a>)
    ensures
        shows(j, hop_json((stage@, enter, exit))),
{
    let items = vec![JsonOut::Text(stage.to_owned()), double_out(enter), double_out(exit)];
    proof {
        reveal_with_fuel(shows, 3);
        assert(shows(items@[0], JsonModel::Text(stage@)));
    }
    JsonOut::Array(items)
}

fn hops_out<'a>(e: &'a EventEnvelope, stage: &str, enter: u64, exit: u64) -> (j: JsonOut<'a>)
    ensures
        shows(j, hops_json(*e, (stage@, enter, exit))),
{
    let mut out: Vec<JsonOut<'a>> = Vec::new();
    let ghost want = hops_json(*e, (stage@, enter, exit))->Array_0;
    match e {
        EventEnvelope::Json(j) => match j.get("bench_hops") {
            Some(Json::Array(items)) => {
                let mut i: usize = 0;
                while i < items.len()
                    invariant
                        i <= items@.len(),
                        out@.len() == i,
                        want == items@.map_values(|x: Json| JsonModel::Kept(x)).push(
                            hop_json((stage@, enter, exit)),
                        ),
                        forall|k: int| 0 <= k < i ==> shows(#[trigger] out@[k], want[k]),
                    decreases items@.len() - i,
                {
                    out.push(JsonOut::Kept(&items[i]));
                    i = i + 1;
                }
            },
            _ => {},
        },
        EventEnvelope::Binary(b) => {
            let mut i: usize = 0;
            let ghost all = hop_models(b.hops@);
            while i < b.hops.len()
                invariant
                    i <= b.hops@.len(),
                    out@.len() == i,
                    all == hop_models(b.hops@),
                    want == all.map_values(|h: HopModel| hop_json(h)).push(
                        hop_json((stage@, enter, exit)),
                    ),
                    forall|k: int| 0 <= k < i ==> shows(#[trigger] out@[k], want[k]),
                decreases b.hops@.len() - i,
            {
                let h = &b.hops[i];
                assert(all[i as int] == (h.stage@, h.enter_ts, h.exit_ts));
                out.push(hop_out(h.stage.as_str(), h.enter_ts, h.exit_ts));
                i = i + 1;
            }
        },
    }
    assert(out@.len() + 1 == want.len());
    out.push(hop_out(stage, enter, exit));
    JsonOut::Array(out)
}

/// The timing of an event as it is written in text.
pub open spec fn bench_json(e: EventEnvelope, hop: HopModel) -> Seq<(Seq<char>, JsonModel)> {
    let timing = match e {
        EventEnvelope::Json(j) => kept(j, "bench_ts_wall"@) + kept(j, "bench_ts"@) + kept(
            j,
            "bench_seq"@,
        ),
        EventEnvelope::Binary(b) => opt_entry(
            "bench_ts_wall"@,
            b@.timing.ts_wall,
            true,
        ) + opt_entry("bench_ts"@, b@.timing.ts, true) + opt_entry(
            "bench_seq"@,
            b@.timing.seq,
            false,
        ),
    };
    timing.push(("bench_hops"@, hops_json(e, hop)))
}

/// An entry of a read event, kept as it is.
pub open spec fn kept(j: Json, name: Seq<char>) -> Seq<(Seq<char>, JsonModel)> {
    match entry(j, name) {
        None => Seq::empty(),
        Some(v) => seq![(name, JsonModel::Kept(v))],
    }
}

/// A timing field as it is written in text, where it is there.
pub open spec fn opt_entry(name: Seq<char>, v: Option<u64>, fraction: bool) -> Seq<
    (Seq<char>, JsonModel),
> {
    match v {
        None => Seq::empty(),
        Some(n) => seq![
            (
                name,
                if fraction {
                    double_json(n)
                } else {
                    JsonModel::Count(n as nat)
                },
            ),
        ],
    }
}

/// Entries put into an object one after the other.
pub open spec fn with_entries(
    ms: Seq<(Seq<char>, JsonModel)>,
    more: Seq<(Seq<char>, JsonModel)>,
) -> Seq<(Seq<char>, JsonModel)>
    decreases more.len(),
{
    if more.len() == 0 {
        ms
    } else {
        with_entry(with_entries(ms, more.drop_last()), more.last().0, more.last().1)
    }
}

proof fn lemma_with_one(ms: Seq<(Seq<char>, JsonModel)>, more: Seq<(Seq<char>, JsonModel)>, name: Seq<char>, m: JsonModel)
    ensures
        with_entries(ms, more.push((name, m))) == with_entry(with_entries(ms, more), name, m),
{
    assert(more.push((name, m)).drop_last() =~= more);
}

fn put_timing<'a>(
    o: &mut ObjectOut<'a>,
    name: &str,
    v: Option<u64>,
    fraction: bool,
    Ghost(ms): Ghost<Seq<(Seq<char>, JsonModel)>>,
    Ghost(more): Ghost<Seq<(Seq<char>, JsonModel)>>,
)
    requires
        old(o).holds(with_entries(ms, more)),
    ensures
        final(o).holds(with_entries(ms, more + opt_entry(name@, v, fraction))),
{
    match v {
        None => {
            assert(more + opt_entry(name@, v, fraction) =~= more);
        },
        Some(n) => {
            let ghost m = if fraction {
                double_json(n)
            } else {
                JsonModel::Count(n as nat)
            };
            proof {
                assert(more + opt_entry(name@, v, fraction) =~= more.push((name@, m)));
                lemma_with_one(ms, more, name@, m);
            }
            let value = if fraction {
                double_out(n)
            } else {
                JsonOut::Count(n)
            };
            o.insert(name, value, Ghost(m));
        },
    }
}

fn put_kept<'a>(
    o: &mut ObjectOut<'a>,
    j: &'a Json,
    name: &str,
    Ghost(ms): Ghost<Seq<(Seq<char>, JsonModel)>>,
    Ghost(more): Ghost<Seq<(Seq<char>, JsonModel)>>,
)
    requires
        old(o).holds(with_entries(ms, more)),
    ensures
        final(o).holds(with_entries(ms, more + kept(*j, name@))),
{
    match j.get(name) {
        None => {
            assert(more + kept(*j, name@) =~= more);
        },
        Some(v) => {
            proof {
                assert(more + kept(*j, name@) =~= more.push((name@, JsonModel::Kept(*v))));
                lemma_with_one(ms, more, name@, JsonModel::Kept(*v));
            }
            o.insert(name, JsonOut::Kept(v), Ghost(JsonModel::Kept(*v)));
        },
    }
}

/// Puts the timing of an event into an object, with the new hop.
fn put_bench<'a>(
    o: &mut ObjectOut<'a>,
    e: &'a EventEnvelope,
    stage: &str,
    enter: u64,
    exit: u64,
    Ghost(ms): Ghost<Seq<(Seq<char>, JsonModel)>>,
)
    requires
        old(o).holds(ms),
    ensures
        final(o).holds(with_entries(ms, bench_json(*e, (stage@, enter, exit)))),
{
    let ghost none = Seq::<(Seq<char>, JsonModel)>::empty();
    let ghost mut timing = none;
    match e {
        EventEnvelope::Json(j) => {
            put_kept(o, j, "bench_ts_wall", Ghost(ms), Ghost(none));
            assert(none + kept(*j, "bench_ts_wall"@) =~= kept(*j, "bench_ts_wall"@));
            let ghost one = kept(*j, "bench_ts_wall"@);
            put_kept(o, j, "bench_ts", Ghost(ms), Ghost(one));
            let ghost two = one + kept(*j, "bench_ts"@);
            put_kept(o, j, "bench_seq", Ghost(ms), Ghost(two));
            proof {
                timing = two + kept(*j, "bench_seq"@);
            }
        },
        EventEnvelope::Binary(b) => {
            put_timing(o, "bench_ts_wall", b.timing.ts_wall, true, Ghost(ms), Ghost(none));
            let ghost one = opt_entry("bench_ts_wall"@, b.timing.ts_wall, true);
            assert(none + one =~= one);
            put_timing(o, "bench_ts", b.timing.ts, true, Ghost(ms), Ghost(one));
            let ghost two = one + opt_entry("bench_ts"@, b.timing.ts, true);
            put_timing(o, "bench_seq", b.timing.seq, false, Ghost(ms), Ghost(two));
            proof {
                timing = two + opt_entry("bench_seq"@, b.timing.seq, false);
            }
        },
    }
    let hops = hops_out(e, stage, enter, exit);
    let ghost m = hops_json(*e, (stage@, enter, exit));
    proof {
        lemma_with_one(ms, timing, "bench_hops"@, m);
    }
    o.insert("bench_hops", hops, Ghost(m));
}

/// A value that a stage gave back, as it is written in text.
pub open spec fn scalar_json(v: Val) -> Option<JsonModel> {
    match v {
        Val::Text(s) => Some(JsonModel::Text(s@)),
        Val::Float64(b) => Some(double_json(b)),
        Val::Float32(b) => Some(single_json(b)),
        Val::U64(n) => Some(JsonModel::Count(n as nat)),
        Val::U32(n) => Some(JsonModel::Count(n as nat)),
        Val::S64(n) => Some(JsonModel::Signed(n as int)),
        Val::S32(n) => Some(JsonModel::Signed(n as int)),
        Val::Bool(b) => Some(JsonModel::Bool(b)),
        _ => None,
    }
}

/// A field that a stage gave back, as it is written in text: a field that is
/// absent is left out.
pub open spec fn field_json(v: Val, f: RecordField) -> Option<JsonModel> {
    if f.is_option {
        match v {
            Val::Maybe(Some(inner)) => scalar_json(*inner),
            _ => None,
        }
    } else {
        scalar_json(v)
    }
}

/// The last field of that name is at `i`.
pub open spec fn is_last_field(fields: Seq<RecordField>, name: Seq<char>, i: int) -> bool {
    &&& 0 <= i < fields.len()
    &&& fields[i].name@ == name
    &&& forall|k: int| i < k < fields.len() ==> (#[trigger] fields[k]).name@ != name
}

/// The field of that name.
pub open spec fn field_named(fields: Seq<RecordField>, name: Seq<char>) -> Option<RecordField> {
    if exists|i: int| is_last_field(fields, name, i) {
        Some(fields[choose|i: int| is_last_field(fields, name, i)])
    } else {
        None
    }
}

/// A record that a stage gave back, as it is written in text.
pub open spec fn record_json(rec: Seq<(String, Val)>, fields: Seq<RecordField>) -> Seq<
    (Seq<char>, JsonModel),
>
    decreases rec.len(),
{
    if rec.len() == 0 {
        Seq::empty()
    } else {
        let before = record_json(rec.drop_last(), fields);
        match field_named(fields, rec.last().0@) {
            None => before,
            Some(f) => match field_json(rec.last().1, f) {
                None => before,
                Some(m) => with_entry(before, f.json_name@, m),
            },
        }
    }
}

/// The record that a stage gave back; none where it gave something else.
pub open spec fn fields_given(v: Val) -> Seq<(String, Val)> {
    match v {
        Val::Record(rec) => rec@,
        _ => Seq::empty(),
    }
}

fn scalar_out<'a>(v: &Val) -> (r: Option<JsonOut<'a>>)
    ensures
        r is Some <==> scalar_json(*v) is Some,
        r matches Some(j) ==> shows(j, scalar_json(*v)->0),
{
    match v {
        Val::Text(s) => Some(JsonOut::Text(s.clone())),
        Val::Float64(b) => Some(double_out(*b)),
        Val::Float32(b) => Some(single_out(*b)),
        Val::U64(n) => Some(JsonOut::Count(*n)),
        Val::U32(n) => Some(JsonOut::Count(*n as u64)),
        Val::S64(n) => Some(JsonOut::Signed(*n)),
        Val::S32(n) => Some(JsonOut::Signed(*n as i64)),
        Val::Bool(b) => Some(JsonOut::Bool(*b)),
        _ => None,
    }
}

fn field_out<'a>(v: &Val, f: &RecordField) -> (r: Option<JsonOut<'a>>)
    ensures
        r is Some <==> field_json(*v, *f) is Some,
        r matches Some(j) ==> shows(j, field_json(*v, *f)->0),
{
    if f.is_option {
        match v {
            Val::Maybe(Some(inner)) => scalar_out(inner),
            _ => None,
        }
    } else {
        scalar_out(v)
    }
}

fn find_field<'a>(fields: &'a Vec<RecordField>, name: &str) -> (r: Option<&'a RecordField>)
    ensures
        match r {
            None => field_named(fields@, name@) is None,
            Some(f) => field_named(fields@, name@) == Some(*f),
        },
{
    let mut i: usize = fields.len();
    while i > 0
        invariant
            i <= fields@.len(),
            forall|k: int| i <= k < fields@.len() ==> (#[trigger] fields@[k]).name@ != name@,
        decreases i,
    {
        i = i - 1;
        if same(fields[i].name.as_str(), name) {
            proof {
                assert(is_last_field(fields@, name@, i as int));
                let c = choose|c: int| is_last_field(fields@, name@, c);
                assert(is_last_field(fields@, name@, c));
                assert(c == i);
            }
            return Some(&fields[i]);
        }
    }
    None
}

fn put_record<'a>(o: &mut ObjectOut<'a>, v: &Val, fields: &Vec<RecordField>)
    requires
        old(o).holds(Seq::empty()),
    ensures
        final(o).holds(record_json(fields_given(*v), fields@)),
{
    match v {
        Val::Record(rec) => {
            let mut i: usize = 0;
            assert(rec@.take(0) =~= Seq::<(String, Val)>::empty());
            while i < rec.len()
                invariant
                    i <= rec@.len(),
                    o.holds(record_json(rec@.take(i as int), fields@)),
                decreases rec@.len() - i,
            {
                assert(rec@.take(i + 1).drop_last() =~= rec@.take(i as int));
                match find_field(fields, rec[i].0.as_str()) {
                    None => {},
                    Some(f) => match field_out(&rec[i].1, f) {
                        None => {},
                        Some(j) => {
                            o.insert(
                                f.json_name.as_str(),
                                j,
                                Ghost(field_json(rec@[i as int].1, *f)->0),
                            );
                        },
                    },
                }
                i = i + 1;
            }
            assert(rec@.take(i as int) =~= rec@);
        },
        _ => {},
    }
}

/// What a stage gave back for a field, for the row format.
pub open spec fn field_scalar(v: Val, f: RecordField) -> Option<ScalarModel> {
    if f.is_option {
        match v {
            Val::Maybe(Some(inner)) => val_scalar(*inner),
            Val::Maybe(None) => None,
            _ => val_scalar(v),
        }
    } else {
        val_scalar(v)
    }
}

pub open spec fn val_scalar(v: Val) -> Option<ScalarModel> {
    match v {
        Val::Text(s) => Some(ScalarModel::Str(s@)),
        Val::Float64(b) => Some(ScalarModel::F64(b)),
        Val::Float32(b) => Some(ScalarModel::F32(b)),
        Val::U64(n) => Some(ScalarModel::U64(n)),
        Val::U32(n) => Some(ScalarModel::U32(n)),
        Val::S64(n) => Some(ScalarModel::S64(n)),
        Val::S32(n) => Some(ScalarModel::S32(n)),
        Val::Bool(b) => Some(ScalarModel::Bool(b)),
        _ => None,
    }
}

fn inner_scalar(v: &Val) -> (r: Option<Scalar>)
    ensures
        crate::wire::opt_scalar(r) == val_scalar(*v),
{
    match v {
        Val::Text(s) => Some(Scalar::Str(s.clone())),
        Val::Float64(b) => Some(Scalar::F64(*b)),
        Val::Float32(b) => Some(Scalar::F32(*b)),
        Val::U64(n) => Some(Scalar::U64(*n)),
        Val::U32(n) => Some(Scalar::U32(*n)),
        Val::S64(n) => Some(Scalar::S64(*n)),
        Val::S32(n) => Some(Scalar::S32(*n)),
        Val::Bool(b) => Some(Scalar::Bool(*b)),
        _ => None,
    }
}

/// What a stage gave back for a field, for the row format.
pub fn val_to_scalar(v: &Val, f: &RecordField) -> (r: Option<Scalar>)
    ensures
        crate::wire::opt_scalar(r) == field_scalar(*v, *f),
{
    if f.is_option {
        match v {
            Val::Maybe(Some(inner)) => inner_scalar(inner),
            Val::Maybe(None) => None,
            _ => inner_scalar(v),
        }
    } else {
        inner_scalar(v)
    }
}

/// The first field of that name is at `i`.
pub open spec fn is_first_field(fields: Seq<RecordField>, name: Seq<char>, i: int) -> bool {
    &&& 0 <= i < fields.len()
    &&& fields[i].name@ == name
    &&& forall|k: int| 0 <= k < i ==> (#[trigger] fields[k]).name@ != name
}

/// A record that a stage gave back, for the row format: its fields that are
/// known, in its order.
pub open spec fn record_row(rec: Seq<(String, Val)>, fields: Seq<RecordField>) -> Seq<FieldModel>
    decreases rec.len(),
{
    if rec.len() == 0 {
        Seq::empty()
    } else {
        let before = record_row(rec.drop_last(), fields);
        let name = rec.last().0@;
        if exists|i: int| is_first_field(fields, name, i) {
            let f = fields[choose|i: int| is_first_field(fields, name, i)];
            before.push(
                FieldModel {
                    tag: kind_code(f.inner_kind),
                    name: f.json_name@,
                    value: field_scalar(rec.last().1, f),
                },
            )
        } else {
            before
        }
    }
}

fn first_field<'a>(fields: &'a Vec<RecordField>, name: &str) -> (r: Option<&'a RecordField>)
    ensures
        r is Some <==> exists|i: int| is_first_field(fields@, name@, i),
        r matches Some(f) ==> *f == fields@[choose|i: int| is_first_field(fields@, name@, i)],
{
    let mut i: usize = 0;
    while i < fields.len()
        invariant
            i <= fields@.len(),
            forall|k: int| 0 <= k < i ==> (#[trigger] fields@[k]).name@ != name@,
        decreases fields@.len() - i,
    {
        if same(fields[i].name.as_str(), name) {
            proof {
                assert(is_first_field(fields@, name@, i as int));
                let c = choose|c: int| is_first_field(fields@, name@, c);
                assert(is_first_field(fields@, name@, c));
                assert(c == i);
            }
            return Some(&fields[i]);
        }
        i = i + 1;
    }
    None
}

fn row_fields(v: &Val, fields: &Vec<RecordField>) -> (out: Vec<FieldOut>)
    ensures
        field_models(out@) == record_row(fields_given(*v), fields@),
{
    let mut out: Vec<FieldOut> = Vec::new();
    assert(field_models(out@) =~= Seq::<FieldModel>::empty());
    match v {
        Val::Record(rec) => {
            let mut i: usize = 0;
            assert(rec@.take(0) =~= Seq::<(String, Val)>::empty());
            while i < rec.len()
                invariant
                    i <= rec@.len(),
                    field_models(out@) == record_row(rec@.take(i as int), fields@),
                decreases rec@.len() - i,
            {
                assert(rec@.take(i + 1).drop_last() =~= rec@.take(i as int));
                match first_field(fields, rec[i].0.as_str()) {
                    None => {},
                    Some(f) => {
                        let one = FieldOut {
                            tag: kind_tag(f.inner_kind),
                            name: f.json_name.clone(),
                            value: val_to_scalar(&rec[i].1, f),
                        };
                        let ghost was = out@;
                        let ghost m = one@;
                        out.push(one);
                        assert(field_models(out@) =~= field_models(was).push(m));
                    },
                }
                i = i + 1;
            }
            assert(rec@.take(i as int) =~= rec@);
        },
        _ => {},
    }
    out
}

/// An event on its way out of a stage.
#[derive(Debug)]
pub enum Encoded<'a> {
    /// As a value that is still to be written as text.
    Text(JsonOut<'a>),
    /// As bytes in the row format.
    Row(bytes::Bytes),
    /// A name, a text or the hops do not fit the row format.
    TooLong,
}

/// The event in the row format is the one that is meant, with no more fields than
/// fit.
pub open spec fn is_row(
    e: Encoded,
    t: TimingModel,
    hops: Seq<HopModel>,
    fields: Seq<FieldModel>,
) -> bool {
    match e {
        Encoded::Row(b) => {
            &&& event_fits(hops, kept_fields(fields))
            &&& content(b) == event_bytes(t, hops, kept_fields(fields))
        },
        Encoded::TooLong => !event_fits(hops, kept_fields(fields)),
        Encoded::Text(_) => false,
    }
}

/// The event in text is the one that is meant.
pub open spec fn is_text(e: Encoded, m: JsonModel) -> bool {
    e matches Encoded::Text(j) && shows(j, m)
}

fn row_out<'a>(
    env: &EventEnvelope,
    stage: &str,
    enter: u64,
    exit: u64,
    fields: &Vec<FieldOut>,
) -> (e: Encoded<'a>)
    ensures
        is_row(
            e,
            env.timing(),
            env.hops().push((stage@, enter, exit)),
            field_models(fields@),
        ),
{
    let timing = env.bench_scalars();
    let mut hops = env.bench_parts();
    let ghost was = hops@;
    hops.push(BenchHop { stage: stage.to_owned(), enter_ts: enter, exit_ts: exit });
    assert(hop_models(hops@) =~= hop_models(was).push((stage@, enter, exit)));
    match write_event(timing, &hops, fields) {
        None => Encoded::TooLong,
        Some(b) => Encoded::Row(buffer_of(b)),
    }
}

/// A field on its way out of a typed stage, as it is written in text.
pub open spec fn wire_json(v: WireValue) -> Option<JsonModel> {
    match v {
        WireValue::Str(s) => Some(JsonModel::Text(s@)),
        WireValue::F64(b) => Some(double_json(b)),
        WireValue::F32(b) => Some(single_json(b)),
        WireValue::U64(n) => Some(JsonModel::Count(n as nat)),
        WireValue::U32(n) => Some(JsonModel::Count(n as nat)),
        WireValue::S64(n) => Some(JsonModel::Signed(n as int)),
        WireValue::S32(n) => Some(JsonModel::Signed(n as int)),
        WireValue::Bool(b) => Some(JsonModel::Bool(b)),
        WireValue::Absent => None,
    }
}

/// The fields of a typed stage, as they are written in text: what is absent is
/// left out.
pub open spec fn typed_json(fields: Seq<(&'static str, WireValue)>) -> Seq<(Seq<char>, JsonModel)>
    decreases fields.len(),
{
    if fields.len() == 0 {
        Seq::empty()
    } else {
        match wire_json(fields.last().1) {
            None => typed_json(fields.drop_last()),
            Some(m) => with_entry(typed_json(fields.drop_last()), fields.last().0@, m),
        }
    }
}

/// A field on its way out of a typed stage, for the row format.
pub open spec fn wire_scalar(v: WireValue) -> Option<ScalarModel> {
    match v {
        WireValue::Str(s) => Some(ScalarModel::Str(s@)),
        WireValue::F64(b) => Some(ScalarModel::F64(b)),
        WireValue::F32(b) => Some(ScalarModel::F32(b)),
        WireValue::U64(n) => Some(ScalarModel::U64(n)),
        WireValue::U32(n) => Some(ScalarModel::U32(n)),
        WireValue::S64(n) => Some(ScalarModel::S64(n)),
        WireValue::S32(n) => Some(ScalarModel::S32(n)),
        WireValue::Bool(b) => Some(ScalarModel::Bool(b)),
        WireValue::Absent => None,
    }
}

/// A field with the kind of its value; one that is absent is marked as text.
pub open spec fn own_field(name: Seq<char>, value: Option<ScalarModel>) -> FieldModel {
    FieldModel {
        tag: match value {
            None => 0,
            Some(v) => tag_of(v),
        },
        name,
        value,
    }
}

/// The fields of a typed stage, for the row format.
pub open spec fn typed_row(fields: Seq<(&'static str, WireValue)>) -> Seq<FieldModel> {
    fields.map_values(|f: (&'static str, WireValue)| own_field(f.0@, wire_scalar(f.1)))
}

/// The fields of an event that was read, for the row format.
pub open spec fn same_row(fields: Seq<BinField>) -> Seq<FieldModel> {
    fields.map_values(|f: BinField| own_field(f@.0, f@.1))
}

fn copy_scalar(s: &Scalar) -> (out: Scalar)
    ensures
        out@ == s@,
{
    match s {
        Scalar::Str(t) => Scalar::Str(t.clone()),
        Scalar::F64(v) => Scalar::F64(*v),
        Scalar::F32(v) => Scalar::F32(*v),
        Scalar::U64(v) => Scalar::U64(*v),
        Scalar::U32(v) => Scalar::U32(*v),
        Scalar::S64(v) => Scalar::S64(*v),
        Scalar::S32(v) => Scalar::S32(*v),
        Scalar::Bool(v) => Scalar::Bool(*v),
    }
}

fn same_fields(fields: &Vec<BinField>) -> (out: Vec<FieldOut>)
    ensures
        field_models(out@) == same_row(fields@),
{
    let ghost want = same_row(fields@);
    let mut out: Vec<FieldOut> = Vec::new();
    let mut i: usize = 0;
    while i < fields.len()
        invariant
            i <= fields@.len(),
            want == same_row(fields@),
            out@.len() == i,
            forall|k: int| 0 <= k < i ==> (#[trigger] out@[k])@ == want[k],
        decreases fields@.len() - i,
    {
        let f = &fields[i];
        let one = match &f.scalar {
            None => FieldOut { tag: 0, name: f.name.clone(), value: None },
            Some(s) => FieldOut {
                tag: s.tag(),
                name: f.name.clone(),
                value: Some(copy_scalar(s)),
            },
        };
        assert(one@ == want[i as int]);
        out.push(one);
        i = i + 1;
    }
    assert(field_models(out@) =~= want);
    out
}

fn wire_to_scalar(v: &WireValue) -> (r: Option<Scalar>)
    ensures
        crate::wire::opt_scalar(r) == wire_scalar(*v),
{
    match v {
        WireValue::Str(s) => Some(Scalar::Str(s.clone())),
        WireValue::F64(b) => Some(Scalar::F64(*b)),
        WireValue::F32(b) => Some(Scalar::F32(*b)),
        WireValue::U64(n) => Some(Scalar::U64(*n)),
        WireValue::U32(n) => Some(Scalar::U32(*n)),
        WireValue::S64(n) => Some(Scalar::S64(*n)),
        WireValue::S32(n) => Some(Scalar::S32(*n)),
        WireValue::Bool(b) => Some(Scalar::Bool(*b)),
        WireValue::Absent => None,
    }
}

fn typed_fields(fields: &Vec<(&'static str, WireValue)>) -> (out: Vec<FieldOut>)
    ensures
        field_models(out@) == typed_row(fields@),
{
    let ghost want = typed_row(fields@);
    let mut out: Vec<FieldOut> = Vec::new();
    let mut i: usize = 0;
    while i < fields.len()
        invariant
            i <= fields@.len(),
            want == typed_row(fields@),
            out@.len() == i,
            forall|k: int| 0 <= k < i ==> (#[trigger] out@[k])@ == want[k],
        decreases fields@.len() - i,
    {
        let f = &fields[i];
        let value = wire_to_scalar(&f.1);
        let tag: u8 = match &value {
            None => 0,
            Some(s) => s.tag(),
        };
        let one = FieldOut { tag, name: f.0.to_owned(), value };
        assert(one@ == want[i as int]);
        out.push(one);
        i = i + 1;
    }
    assert(field_models(out@) =~= want);
    out
}

fn wire_out<'a>(v: &WireValue) -> (r: Option<JsonOut<'a>>)
    ensures
        r is Some <==> wire_json(*v) is Some,
        r matches Some(j) ==> shows(j, wire_json(*v)->0),
{
    match v {
        WireValue::Str(s) => Some(JsonOut::Text(s.clone())),
        WireValue::F64(b) => Some(double_out(*b)),
        WireValue::F32(b) => Some(single_out(*b)),
        WireValue::U64(n) => Some(JsonOut::Count(*n)),
        WireValue::U32(n) => Some(JsonOut::Count(*n as u64)),
        WireValue::S64(n) => Some(JsonOut::Signed(*n)),
        WireValue::S32(n) => Some(JsonOut::Signed(*n as i64)),
        WireValue::Bool(b) => Some(JsonOut::Bool(*b)),
        WireValue::Absent => None,
    }
}

impl EventEnvelope {
    /// Writes the event that a stage gave back: its fields, the timing the event
    /// came with, and the hop through this stage. The format is that asked for,
    /// whichever the event came in.
    pub fn encode_output<'a>(
        &'a self,
        event_val: &Val,
        output_fields: &Vec<RecordField>,
        stage_name: &str,
        enter_ts: u64,
        exit_ts: u64,
        out: EnvelopeFormat,
    ) -> (e: Encoded<'a>)
        ensures
            match out {
                EnvelopeFormat::Json => is_text(
                    e,
                    JsonModel::Object(
                        with_entries(
                            record_json(fields_given(*event_val), output_fields@),
                            bench_json(*self, (stage_name@, enter_ts, exit_ts)),
                        ),
                    ),
                ),
                EnvelopeFormat::Binary => is_row(
                    e,
                    self.timing(),
                    self.hops().push((stage_name@, enter_ts, exit_ts)),
                    record_row(fields_given(*event_val), output_fields@),
                ),
            },
    {
        match out {
            EnvelopeFormat::Json => {
                let mut o = ObjectOut::new();
                put_record(&mut o, event_val, output_fields);
                let ghost ms = record_json(fields_given(*event_val), output_fields@);
                put_bench(&mut o, self, stage_name, enter_ts, exit_ts, Ghost(ms));
                Encoded::Text(o.done())
            },
            EnvelopeFormat::Binary => {
                let fields = row_fields(event_val, output_fields);
                row_out(self, stage_name, enter_ts, exit_ts, &fields)
            },
        }
    }

    /// Writes the event that a typed stage gave back.
    pub fn encode_typed<'a>(
        &'a self,
        fields: &Vec<(&'static str, WireValue)>,
        hop_label: &str,
        enter_ts: u64,
        exit_ts: u64,
        out: EnvelopeFormat,
    ) -> (e: Encoded<'a>)
        ensures
            match out {
                EnvelopeFormat::Json => is_text(
                    e,
                    JsonModel::Object(
                        with_entries(
                            typed_json(fields@),
                            bench_json(*self, (hop_label@, enter_ts, exit_ts)),
                        ),
                    ),
                ),
                EnvelopeFormat::Binary => is_row(
                    e,
                    self.timing(),
                    self.hops().push((hop_label@, enter_ts, exit_ts)),
                    typed_row(fields@),
                ),
            },
    {
        match out {
            EnvelopeFormat::Json => {
                let mut o = ObjectOut::new();
                let mut i: usize = 0;
                assert(fields@.take(0) =~= Seq::<(&'static str, WireValue)>::empty());
                while i < fields.len()
                    invariant
                        i <= fields@.len(),
                        o.holds(typed_json(fields@.take(i as int))),
                    decreases fields@.len() - i,
                {
                    assert(fields@.take(i + 1).drop_last() =~= fields@.take(i as int));
                    match wire_out(&fields[i].1) {
                        None => {},
                        Some(j) => {
                            o.insert(
                                fields[i].0,
                                j,
                                Ghost(wire_json(fields@[i as int].1)->0),
                            );
                        },
                    }
                    i = i + 1;
                }
                assert(fields@.take(i as int) =~= fields@);
                let ghost ms = typed_json(fields@);
                put_bench(&mut o, self, hop_label, enter_ts, exit_ts, Ghost(ms));
                Encoded::Text(o.done())
            },
            EnvelopeFormat::Binary => {
                let row = typed_fields(fields);
                row_out(self, hop_label, enter_ts, exit_ts, &row)
            },
        }
    }

    /// Writes the event as it came, with one more hop, in the format it came in.
    pub fn encode_identity<'a>(&'a self, stage_name: &str, enter_ts: u64, exit_ts: u64) -> (e:
        Encoded<'a>)
        ensures
            match *self {
                EventEnvelope::Json(j) => is_text(
                    e,
                    same_json(*self, j, (stage_name@, enter_ts, exit_ts)),
                ),
                EventEnvelope::Binary(b) => is_row(
                    e,
                    self.timing(),
                    self.hops().push((stage_name@, enter_ts, exit_ts)),
                    same_row(b.fields@),
                ),
            },
    {
        match self {
            EventEnvelope::Json(j) => match j {
                Json::Object(entries) => {
                    let mut o = ObjectOut::new();
                    let ghost all = kept_entries(entries@);
                    let mut i: usize = 0;
                    assert(all.take(0) =~= Seq::<(Seq<char>, JsonModel)>::empty());
                    while i < entries.len()
                        invariant
                            i <= entries@.len(),
                            all == kept_entries(entries@),
                            o.holds(all.take(i as int)),
                        decreases entries@.len() - i,
                    {
                        assert(all.take(i + 1) =~= all.take(i as int).push(all[i as int]));
                        let e = &entries[i];
                        o.put(
                            e.0.as_str(),
                            JsonOut::Kept(&e.1),
                            Ghost(JsonModel::Kept(e.1)),
                        );
                        i = i + 1;
                    }
                    assert(all.take(i as int) =~= all);
                    let hops = hops_out(self, stage_name, enter_ts, exit_ts);
                    let ghost m = hops_json(*self, (stage_name@, enter_ts, exit_ts));
                    o.insert("bench_hops", hops, Ghost(m));
                    Encoded::Text(o.done())
                },
                _ => Encoded::Text(JsonOut::Kept(j)),
            },
            EventEnvelope::Binary(b) => {
                let fields = same_fields(&b.fields);
                row_out(self, stage_name, enter_ts, exit_ts, &fields)
            },
        }
    }
}

/// The entries of a read object, each kept as it is.
pub open spec fn kept_entries(entries: Seq<(String, Json)>) -> Seq<(Seq<char>, JsonModel)> {
    entries.map_values(|e: (String, Json)| (e.0@, JsonModel::Kept(e.1)))
}

/// An event in text as it came, with one more hop. What is no object has no
/// place for one.
pub open spec fn same_json(e: EventEnvelope, j: Json, hop: HopModel) -> JsonModel {
    match j {
        Json::Object(entries) => JsonModel::Object(
            with_entry(kept_entries(entries@), "bench_hops"@, hops_json(e, hop)),
        ),
        _ => JsonModel::Kept(j),
    }
}

/// Law: whatever a typed stage gives back reaches the next stage as it was
/// given: its fields, as many as fit, the event's timing, and the hops with the
/// new one last.
pub proof fn law_typed_output_arrives(
    env: EventEnvelope,
    hop: HopModel,
    fields: Seq<(&'static str, WireValue)>,
)
    requires
        event_fits(env.hops().push(hop), kept_fields(typed_row(fields))),
    ensures
        read_event(
            event_bytes(env.timing(), env.hops().push(hop), kept_fields(typed_row(fields))),
            true,
        ) == Some(
            crate::wire::EventModel {
                flags: 0,
                timing: env.timing(),
                hops: env.hops().push(hop),
                fields: crate::wire::all_as_read(kept_fields(typed_row(fields))),
            },
        ),
{
    let b = event_bytes(env.timing(), env.hops().push(hop), kept_fields(typed_row(fields)));
    assert(b + Seq::<u8>::empty() =~= b);
    crate::wire::law_event_reads_back(
        env.timing(),
        env.hops().push(hop),
        kept_fields(typed_row(fields)),
        Seq::empty(),
    );
}

/// Law: an event that passes through a stage unchanged reaches the next stage
/// with the fields it had, in the row format.
pub proof fn law_passed_events_keep_their_fields(b: BinaryEnvelope, hop: HopModel)
    requires
        b.fields@.len() <= crate::wire::MAX_FIELDS,
        event_fits(b@.hops.push(hop), kept_fields(same_row(b.fields@))),
    ensures
        read_event(
            event_bytes(b@.timing, b@.hops.push(hop), kept_fields(same_row(b.fields@))),
            true,
        ) == Some(
            crate::wire::EventModel {
                flags: 0,
                timing: b@.timing,
                hops: b@.hops.push(hop),
                fields: b@.fields,
            },
        ),
{
    let bytes = event_bytes(b@.timing, b@.hops.push(hop), same_row(b.fields@));
    assert(bytes + Seq::<u8>::empty() =~= bytes);
    crate::wire::law_event_reads_back(
        b@.timing,
        b@.hops.push(hop),
        same_row(b.fields@),
        Seq::empty(),
    );
    assert(crate::wire::all_as_read(same_row(b.fields@)) =~= b@.fields);
}

} // verus!
