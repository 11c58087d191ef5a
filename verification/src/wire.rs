//! The compact row format in which events travel between stages.
//!
//! All numbers are little-endian: a magic byte, a version, flags and a bitmap of
//! the timing fields that are there; those fields; the hops, each a name and two
//! times; the fields, each a kind, whether it is there, a name, and the value.

use vstd::prelude::*;
use vstd::utf8::{decode_utf8, encode_utf8, valid_utf8};

verus! {

/// The first byte of an event in this format.
pub const BIN_MAGIC: u8 = 0xEB;

/// The version of this format.
pub const BIN_VERSION: u8 = 1;

/// A field's value. Fractions are kept by their bits.
#[derive(Debug)]
pub enum Scalar {
    Str(String),
    F64(u64),
    F32(u32),
    U64(u64),
    U32(u32),
    S64(i64),
    S32(i32),
    Bool(bool),
}

/// A field's value, for contracts.
pub enum ScalarModel {
    Str(Seq<char>),
    F64(u64),
    F32(u32),
    U64(u64),
    U32(u32),
    S64(i64),
    S32(i32),
    Bool(bool),
}

impl View for Scalar {
    type V = ScalarModel;

    open spec fn view(&self) -> ScalarModel {
        match *self {
            Scalar::Str(s) => ScalarModel::Str(s@),
            Scalar::F64(v) => ScalarModel::F64(v),
            Scalar::F32(v) => ScalarModel::F32(v),
            Scalar::U64(v) => ScalarModel::U64(v),
            Scalar::U32(v) => ScalarModel::U32(v),
            Scalar::S64(v) => ScalarModel::S64(v),
            Scalar::S32(v) => ScalarModel::S32(v),
            Scalar::Bool(v) => ScalarModel::Bool(v),
        }
    }
}

/// A value that may not be there.
pub open spec fn opt_scalar(s: Option<Scalar>) -> Option<ScalarModel> {
    match s {
        None => None,
        Some(v) => Some(v@),
    }
}

/// The kind byte of a value.
pub open spec fn tag_of(s: ScalarModel) -> u8 {
    match s {
        ScalarModel::Str(_) => 0,
        ScalarModel::F64(_) => 1,
        ScalarModel::F32(_) => 2,
        ScalarModel::U64(_) => 3,
        ScalarModel::U32(_) => 4,
        ScalarModel::S64(_) => 5,
        ScalarModel::S32(_) => 6,
        ScalarModel::Bool(_) => 7,
    }
}

impl Scalar {
    /// The kind byte of a value.
    pub fn tag(&self) -> (t: u8)
        ensures
            t == tag_of(self@),
    {
        match self {
            Scalar::Str(_) => 0,
            Scalar::F64(_) => 1,
            Scalar::F32(_) => 2,
            Scalar::U64(_) => 3,
            Scalar::U32(_) => 4,
            Scalar::S64(_) => 5,
            Scalar::S32(_) => 6,
            Scalar::Bool(_) => 7,
        }
    }
}

/// The bytes of a number, the least first.
pub open spec fn le_bytes(n: nat, k: nat) -> Seq<u8>
    decreases k,
{
    if k == 0 {
        Seq::empty()
    } else {
        seq![(n % 256) as u8] + le_bytes(n / 256, (k - 1) as nat)
    }
}

/// The number that some bytes are, the least first.
pub open spec fn le_value(b: Seq<u8>) -> nat
    decreases b.len(),
{
    if b.len() == 0 {
        0
    } else {
        b[0] as nat + 256 * le_value(b.drop_first())
    }
}

/// One more than the greatest number of that many bytes.
pub open spec fn le_limit(k: nat) -> nat
    decreases k,
{
    if k == 0 {
        1
    } else {
        256 * le_limit((k - 1) as nat)
    }
}

proof fn lemma_le_limits()
    ensures
        le_limit(1) == 0x100,
        le_limit(2) == 0x1_0000,
        le_limit(4) == 0x1_0000_0000,
        le_limit(8) == 0x1_0000_0000_0000_0000,
{
    reveal_with_fuel(le_limit, 9);
}

/// Law: a number is read back from its bytes as what it was.
pub proof fn law_number_reads_back(n: nat, k: nat)
    requires
        n < le_limit(k),
    ensures
        le_bytes(n, k).len() == k,
        le_value(le_bytes(n, k)) == n,
    decreases k,
{
    if k > 0 {
        law_number_reads_back(n / 256, (k - 1) as nat);
        assert(le_bytes(n, k).drop_first() =~= le_bytes(n / 256, (k - 1) as nat));
    }
}

proof fn lemma_le_value_bound(b: Seq<u8>)
    ensures
        le_value(b) < le_limit(b.len()),
    decreases b.len(),
{
    if b.len() > 0 {
        lemma_le_value_bound(b.drop_first());
    }
}

/// A signed number by the bits that stand for it.
pub open spec fn s64_bits(v: i64) -> nat {
    if v >= 0 {
        v as nat
    } else {
        (v + 0x1_0000_0000_0000_0000) as nat
    }
}

/// A signed number by the bits that stand for it.
pub open spec fn s32_bits(v: i32) -> nat {
    if v >= 0 {
        v as nat
    } else {
        (v + 0x1_0000_0000) as nat
    }
}

/// The signed number that some bits stand for.
pub open spec fn s64_from(n: nat) -> i64 {
    if n < 0x8000_0000_0000_0000 {
        n as i64
    } else {
        (n - 0x1_0000_0000_0000_0000) as i64
    }
}

/// The signed number that some bits stand for.
pub open spec fn s32_from(n: nat) -> i32 {
    if n < 0x8000_0000 {
        n as i32
    } else {
        (n - 0x1_0000_0000) as i32
    }
}

/// The bytes of a value.
pub open spec fn payload(s: ScalarModel) -> Seq<u8> {
    match s {
        ScalarModel::Str(t) => le_bytes(encode_utf8(t).len(), 2) + encode_utf8(t),
        ScalarModel::F64(v) => le_bytes(v as nat, 8),
        ScalarModel::F32(v) => le_bytes(v as nat, 4),
        ScalarModel::U64(v) => le_bytes(v as nat, 8),
        ScalarModel::U32(v) => le_bytes(v as nat, 4),
        ScalarModel::S64(v) => le_bytes(s64_bits(v), 8),
        ScalarModel::S32(v) => le_bytes(s32_bits(v), 4),
        ScalarModel::Bool(v) => seq![
            if v {
                1u8
            } else {
                0u8
            },
        ],
    }
}

/// A field as it is written: its kind, its name, its value if it is there.
pub struct FieldModel {
    pub tag: u8,
    pub name: Seq<char>,
    pub value: Option<ScalarModel>,
}

/// The bytes of a field.
pub open spec fn field_bytes(f: FieldModel) -> Seq<u8> {
    seq![
        f.tag,
        if f.value is Some {
            1u8
        } else {
            0u8
        },
        encode_utf8(f.name).len() as u8,
    ] + encode_utf8(f.name) + (match f.value {
        None => Seq::empty(),
        Some(v) => payload(v),
    })
}

/// The field fits the format.
pub open spec fn field_fits(f: FieldModel) -> bool {
    &&& encode_utf8(f.name).len() < 0x100
    &&& f.value matches Some(ScalarModel::Str(t)) ==> encode_utf8(t).len() < 0x1_0000
}

/// A stop on an event's way: where, and from when to when, by the bits of the
/// times.
pub type HopModel = (Seq<char>, u64, u64);

/// The bytes of a hop.
pub open spec fn hop_bytes(h: HopModel) -> Seq<u8> {
    seq![encode_utf8(h.0).len() as u8] + encode_utf8(h.0) + le_bytes(h.1 as nat, 8) + le_bytes(
        h.2 as nat,
        8,
    )
}

pub open spec fn hops_bytes(hops: Seq<HopModel>) -> Seq<u8>
    decreases hops.len(),
{
    if hops.len() == 0 {
        Seq::empty()
    } else {
        hops_bytes(hops.drop_last()) + hop_bytes(hops.last())
    }
}

pub open spec fn fields_bytes(fields: Seq<FieldModel>) -> Seq<u8>
    decreases fields.len(),
{
    if fields.len() == 0 {
        Seq::empty()
    } else {
        fields_bytes(fields.drop_last()) + field_bytes(fields.last())
    }
}

/// The timing that an event carries.
pub struct TimingModel {
    pub ts_wall: Option<u64>,
    pub ts: Option<u64>,
    pub seq: Option<u64>,
}

pub open spec fn opt_bytes(v: Option<u64>) -> Seq<u8> {
    match v {
        None => Seq::empty(),
        Some(n) => le_bytes(n as nat, 8),
    }
}

/// Which timing fields are there.
pub open spec fn bitmap_of(t: TimingModel) -> u8 {
    ((if t.ts_wall is Some {
        1int
    } else {
        0
    }) + (if t.ts is Some {
        2int
    } else {
        0
    }) + (if t.seq is Some {
        4int
    } else {
        0
    })) as u8
}

/// The bytes of an event up to its fields.
pub open spec fn header_bytes(t: TimingModel, hops: Seq<HopModel>) -> Seq<u8> {
    seq![BIN_MAGIC, BIN_VERSION, 0u8, bitmap_of(t)] + opt_bytes(t.ts_wall) + opt_bytes(t.ts)
        + opt_bytes(t.seq) + le_bytes(hops.len(), 2) + hops_bytes(hops)
}

/// The bytes of an event.
pub open spec fn event_bytes(t: TimingModel, hops: Seq<HopModel>, fields: Seq<FieldModel>) -> Seq<
    u8,
> {
    header_bytes(t, hops) + le_bytes(fields.len(), 2) + fields_bytes(fields)
}

/// The most fields an event has.
pub const MAX_FIELDS: usize = 65535;

/// The fields that are written: those beyond the most an event has are left out.
pub open spec fn kept_fields(fields: Seq<FieldModel>) -> Seq<FieldModel> {
    if fields.len() > MAX_FIELDS {
        fields.take(MAX_FIELDS as int)
    } else {
        fields
    }
}

/// Everything in the header fits the format.
pub open spec fn header_fits(hops: Seq<HopModel>) -> bool {
    &&& hops.len() < 0x1_0000
    &&& forall|i: int| 0 <= i < hops.len() ==> encode_utf8((#[trigger] hops[i]).0).len() < 0x100
}

/// Everything in an event fits the format.
pub open spec fn event_fits(hops: Seq<HopModel>, fields: Seq<FieldModel>) -> bool {
    &&& header_fits(hops)
    &&& fields.len() < 0x1_0000
    &&& forall|i: int| 0 <= i < fields.len() ==> field_fits(#[trigger] fields[i])
}

// ---------------------------------------------------------------------------
// Reading
// ---------------------------------------------------------------------------

/// A number of `k` bytes at the front, and what follows.
pub open spec fn read_number(b: Seq<u8>, k: nat) -> Option<(nat, Seq<u8>)> {
    if b.len() < k {
        None
    } else {
        Some((le_value(b.take(k as int)), b.skip(k as int)))
    }
}

/// A text of `k` bytes at the front, and what follows.
pub open spec fn read_text(b: Seq<u8>, k: nat) -> Option<(Seq<char>, Seq<u8>)> {
    if b.len() < k || !valid_utf8(b.take(k as int)) {
        None
    } else {
        Some((decode_utf8(b.take(k as int)), b.skip(k as int)))
    }
}

/// A value of the given kind at the front, and what follows.
pub open spec fn read_scalar(b: Seq<u8>, tag: u8) -> Option<(ScalarModel, Seq<u8>)> {
    if tag == 0 {
        match read_number(b, 2) {
            None => None,
            Some((n, r)) => match read_text(r, n) {
                None => None,
                Some((t, r2)) => Some((ScalarModel::Str(t), r2)),
            },
        }
    } else if tag == 1 {
        match read_number(b, 8) {
            None => None,
            Some((n, r)) => Some((ScalarModel::F64(n as u64), r)),
        }
    } else if tag == 2 {
        match read_number(b, 4) {
            None => None,
            Some((n, r)) => Some((ScalarModel::F32(n as u32), r)),
        }
    } else if tag == 3 {
        match read_number(b, 8) {
            None => None,
            Some((n, r)) => Some((ScalarModel::U64(n as u64), r)),
        }
    } else if tag == 4 {
        match read_number(b, 4) {
            None => None,
            Some((n, r)) => Some((ScalarModel::U32(n as u32), r)),
        }
    } else if tag == 5 {
        match read_number(b, 8) {
            None => None,
            Some((n, r)) => Some((ScalarModel::S64(s64_from(n)), r)),
        }
    } else if tag == 6 {
        match read_number(b, 4) {
            None => None,
            Some((n, r)) => Some((ScalarModel::S32(s32_from(n)), r)),
        }
    } else if tag == 7 {
        match read_number(b, 1) {
            None => None,
            Some((n, r)) => Some((ScalarModel::Bool(n != 0), r)),
        }
    } else {
        None
    }
}

/// A hop at the front, and what follows.
pub open spec fn read_hop(b: Seq<u8>) -> Option<(HopModel, Seq<u8>)> {
    match read_number(b, 1) {
        None => None,
        Some((n, r)) => match read_text(r, n) {
            None => None,
            Some((name, r2)) => match read_number(r2, 8) {
                None => None,
                Some((enter, r3)) => match read_number(r3, 8) {
                    None => None,
                    Some((exit, r4)) => Some(((name, enter as u64, exit as u64), r4)),
                },
            },
        },
    }
}

/// So many hops at the front, and what follows.
pub open spec fn read_hops(b: Seq<u8>, n: nat) -> Option<(Seq<HopModel>, Seq<u8>)>
    decreases n,
{
    if n == 0 {
        Some((Seq::empty(), b))
    } else {
        match read_hops(b, (n - 1) as nat) {
            None => None,
            Some((hops, r)) => match read_hop(r) {
                None => None,
                Some((h, r2)) => Some((hops.push(h), r2)),
            },
        }
    }
}

/// A field as it is read: a field that is not there keeps no kind.
pub type ReadField = (Seq<char>, Option<ScalarModel>);

/// A field at the front, and what follows.
pub open spec fn read_field(b: Seq<u8>) -> Option<(ReadField, Seq<u8>)> {
    match read_number(b, 1) {
        None => None,
        Some((kind, r)) => match read_number(r, 1) {
            None => None,
            Some((present, r2)) => match read_number(r2, 1) {
                None => None,
                Some((n, r3)) => match read_text(r3, n) {
                    None => None,
                    Some((name, r4)) => if present == 0 {
                        Some(((name, None), r4))
                    } else {
                        match read_scalar(r4, kind as u8) {
                            None => None,
                            Some((v, r5)) => Some(((name, Some(v)), r5)),
                        }
                    },
                },
            },
        },
    }
}

/// So many fields at the front, and what follows.
pub open spec fn read_fields(b: Seq<u8>, n: nat) -> Option<(Seq<ReadField>, Seq<u8>)>
    decreases n,
{
    if n == 0 {
        Some((Seq::empty(), b))
    } else {
        match read_fields(b, (n - 1) as nat) {
            None => None,
            Some((fields, r)) => match read_field(r) {
                None => None,
                Some((f, r2)) => Some((fields.push(f), r2)),
            },
        }
    }
}

/// A timing field at the front, where it is said to be there.
pub open spec fn read_opt(b: Seq<u8>, there: bool) -> Option<(Option<u64>, Seq<u8>)> {
    if there {
        match read_number(b, 8) {
            None => None,
            Some((n, r)) => Some((Some(n as u64), r)),
        }
    } else {
        Some((None, b))
    }
}

/// An event as it is read.
pub struct EventModel {
    pub flags: u8,
    pub timing: TimingModel,
    pub hops: Seq<HopModel>,
    pub fields: Seq<ReadField>,
}

/// The timing fields that a bitmap says are there, and what follows.
pub open spec fn read_timing(b: Seq<u8>, bitmap: int) -> Option<(TimingModel, Seq<u8>)> {
    match read_opt(b, bitmap % 2 == 1) {
        None => None,
        Some((ts_wall, r)) => match read_opt(r, (bitmap / 2) % 2 == 1) {
            None => None,
            Some((ts, r2)) => match read_opt(r2, (bitmap / 4) % 2 == 1) {
                None => None,
                Some((seq, r3)) => Some((TimingModel { ts_wall, ts, seq }, r3)),
            },
        },
    }
}

/// What follows the first four bytes of an event.
pub open spec fn read_body(b: Seq<u8>, bitmap: int, flags: u8, with_fields: bool) -> Option<
    EventModel,
> {
    match read_timing(b, bitmap) {
        None => None,
        Some((timing, r)) => match read_number(r, 2) {
            None => None,
            Some((n, r2)) => match read_hops(r2, n) {
                None => None,
                Some((hops, r3)) => if with_fields {
                    match read_number(r3, 2) {
                        None => None,
                        Some((m, r4)) => match read_fields(r4, m) {
                            None => None,
                            Some((fields, _)) => Some(EventModel { flags, timing, hops, fields }),
                        },
                    }
                } else {
                    Some(EventModel { flags, timing, hops, fields: Seq::empty() })
                },
            },
        },
    }
}

/// The event that some bytes are; without its fields, where only the header is
/// asked for. What comes behind the event does not matter.
pub open spec fn read_event(b: Seq<u8>, with_fields: bool) -> Option<EventModel> {
    if b.len() < 4 || b[0] != BIN_MAGIC || b[1] != BIN_VERSION {
        None
    } else {
        read_body(b.skip(4), b[3] as int, b[2], with_fields)
    }
}

// ---------------------------------------------------------------------------
// What is written is read back
// ---------------------------------------------------------------------------

proof fn lemma_read_number(n: nat, k: nat, rest: Seq<u8>)
    requires
        n < le_limit(k),
    ensures
        read_number(le_bytes(n, k) + rest, k) == Some((n, rest)),
{
    law_number_reads_back(n, k);
    let b = le_bytes(n, k) + rest;
    assert(b.take(k as int) =~= le_bytes(n, k));
    assert(b.skip(k as int) =~= rest);
}

proof fn lemma_read_byte(v: u8, rest: Seq<u8>)
    ensures
        read_number(seq![v] + rest, 1) == Some((v as nat, rest)),
{
    reveal_with_fuel(le_bytes, 2);
    lemma_le_limits();
    assert(le_bytes(v as nat, 1) =~= seq![v]);
    lemma_read_number(v as nat, 1, rest);
}

proof fn lemma_read_text(t: Seq<char>, rest: Seq<u8>)
    ensures
        read_text(encode_utf8(t) + rest, encode_utf8(t).len()) == Some((t, rest)),
{
    let e = encode_utf8(t);
    let b = e + rest;
    assert(b.take(e.len() as int) =~= e);
    assert(b.skip(e.len() as int) =~= rest);
    vstd::utf8::encode_utf8_valid_utf8(t);
    vstd::utf8::encode_utf8_decode_utf8(t);
}

proof fn lemma_read_scalar(s: ScalarModel, rest: Seq<u8>)
    requires
        s matches ScalarModel::Str(t) ==> encode_utf8(t).len() < 0x1_0000,
    ensures
        read_scalar(payload(s) + rest, tag_of(s)) == Some((s, rest)),
{
    lemma_le_limits();
    match s {
        ScalarModel::Str(t) => {
            let e = encode_utf8(t);
            assert(payload(s) + rest =~= le_bytes(e.len(), 2) + (e + rest));
            lemma_read_number(e.len(), 2, e + rest);
            lemma_read_text(t, rest);
        },
        ScalarModel::F64(v) => lemma_read_number(v as nat, 8, rest),
        ScalarModel::F32(v) => lemma_read_number(v as nat, 4, rest),
        ScalarModel::U64(v) => lemma_read_number(v as nat, 8, rest),
        ScalarModel::U32(v) => lemma_read_number(v as nat, 4, rest),
        ScalarModel::S64(v) => lemma_read_number(s64_bits(v), 8, rest),
        ScalarModel::S32(v) => lemma_read_number(s32_bits(v), 4, rest),
        ScalarModel::Bool(v) => lemma_read_byte(
            if v {
                1u8
            } else {
                0u8
            },
            rest,
        ),
    }
}

proof fn lemma_read_hop(h: HopModel, rest: Seq<u8>)
    requires
        encode_utf8(h.0).len() < 0x100,
    ensures
        read_hop(hop_bytes(h) + rest) == Some((h, rest)),
{
    lemma_le_limits();
    let e = encode_utf8(h.0);
    let a = le_bytes(h.1 as nat, 8);
    let b = le_bytes(h.2 as nat, 8);
    assert(hop_bytes(h) + rest =~= seq![e.len() as u8] + (e + (a + (b + rest))));
    lemma_read_byte(e.len() as u8, e + (a + (b + rest)));
    lemma_read_text(h.0, a + (b + rest));
    lemma_read_number(h.1 as nat, 8, b + rest);
    lemma_read_number(h.2 as nat, 8, rest);
}

proof fn lemma_read_hops(hops: Seq<HopModel>, rest: Seq<u8>)
    requires
        forall|i: int| 0 <= i < hops.len() ==> encode_utf8((#[trigger] hops[i]).0).len() < 0x100,
    ensures
        read_hops(hops_bytes(hops) + rest, hops.len()) == Some((hops, rest)),
    decreases hops.len(),
{
    if hops.len() > 0 {
        let front = hops.drop_last();
        let tail = hop_bytes(hops.last()) + rest;
        assert(hops_bytes(hops) + rest =~= hops_bytes(front) + tail);
        lemma_read_hops(front, tail);
        lemma_read_hop(hops.last(), rest);
        assert(front.push(hops.last()) =~= hops);
    } else {
        assert(hops_bytes(hops) + rest =~= rest);
        assert(hops =~= Seq::empty());
    }
}

/// What is read of a field that was written.
pub open spec fn as_read(f: FieldModel) -> ReadField {
    (f.name, f.value)
}

/// What is read of the fields that were written.
pub open spec fn all_as_read(fields: Seq<FieldModel>) -> Seq<ReadField> {
    fields.map_values(|f: FieldModel| as_read(f))
}

/// A field that is there is marked with its own kind.
pub open spec fn is_tagged(f: FieldModel) -> bool {
    f.value matches Some(v) ==> f.tag == tag_of(v)
}

proof fn lemma_read_field(f: FieldModel, rest: Seq<u8>)
    requires
        field_fits(f),
        is_tagged(f),
    ensures
        read_field(field_bytes(f) + rest) == Some((as_read(f), rest)),
{
    let e = encode_utf8(f.name);
    let there = if f.value is Some {
        1u8
    } else {
        0u8
    };
    let v = match f.value {
        None => Seq::<u8>::empty(),
        Some(v) => payload(v),
    };
    let n = e.len() as u8;
    assert(field_bytes(f) + rest =~= seq![f.tag] + (seq![there] + (seq![n] + (e + (v + rest)))));
    lemma_read_byte(f.tag, seq![there] + (seq![n] + (e + (v + rest))));
    lemma_read_byte(there, seq![n] + (e + (v + rest)));
    lemma_read_byte(n, e + (v + rest));
    lemma_read_text(f.name, v + rest);
    match f.value {
        None => {
            assert(v + rest =~= rest);
        },
        Some(s) => {
            lemma_read_scalar(s, rest);
        },
    }
}

proof fn lemma_read_fields(fields: Seq<FieldModel>, rest: Seq<u8>)
    requires
        forall|i: int|
            0 <= i < fields.len() ==> field_fits(#[trigger] fields[i]) && is_tagged(fields[i]),
    ensures
        read_fields(fields_bytes(fields) + rest, fields.len()) == Some(
            (all_as_read(fields), rest),
        ),
    decreases fields.len(),
{
    if fields.len() > 0 {
        let front = fields.drop_last();
        let tail = field_bytes(fields.last()) + rest;
        assert(fields_bytes(fields) + rest =~= fields_bytes(front) + tail);
        lemma_read_fields(front, tail);
        lemma_read_field(fields.last(), rest);
        assert(all_as_read(front).push(as_read(fields.last())) =~= all_as_read(fields));
    } else {
        assert(fields_bytes(fields) + rest =~= rest);
        assert(all_as_read(fields) =~= Seq::empty());
    }
}

proof fn lemma_read_opt(v: Option<u64>, rest: Seq<u8>)
    ensures
        read_opt(opt_bytes(v) + rest, v is Some) == Some((v, rest)),
{
    lemma_le_limits();
    match v {
        None => {
            assert(opt_bytes(v) + rest =~= rest);
        },
        Some(n) => {
            lemma_read_number(n as nat, 8, rest);
        },
    }
}

proof fn lemma_read_timing(t: TimingModel, rest: Seq<u8>)
    ensures
        read_timing(
            opt_bytes(t.ts_wall) + (opt_bytes(t.ts) + (opt_bytes(t.seq) + rest)),
            bitmap_of(t) as int,
        ) == Some((t, rest)),
{
    lemma_read_opt(t.ts_wall, opt_bytes(t.ts) + (opt_bytes(t.seq) + rest));
    lemma_read_opt(t.ts, opt_bytes(t.seq) + rest);
    lemma_read_opt(t.seq, rest);
}

proof fn lemma_regroup(
    h: Seq<u8>,
    a: Seq<u8>,
    b: Seq<u8>,
    c: Seq<u8>,
    d: Seq<u8>,
    e: Seq<u8>,
    f: Seq<u8>,
    g: Seq<u8>,
    z: Seq<u8>,
)
    requires
        h.len() == 4,
    ensures
        (h + a + b + c + d + e + f + g + z).len() >= 4,
        (h + a + b + c + d + e + f + g + z).take(4) == h,
        (h + a + b + c + d + e + f + g + z).skip(4) == a + (b + (c + (d + (e + (f + (g + z)))))),
{
    let whole = h + a + b + c + d + e + f + g + z;
    assert(whole =~= h + (a + (b + (c + (d + (e + (f + (g + z))))))));
    assert(whole.take(4) =~= h);
    assert(whole.skip(4) =~= a + (b + (c + (d + (e + (f + (g + z)))))));
}

/// Law: an event that fits the format is read back as what was written, field
/// by field and hop by hop, and so is its header alone, whatever follows.
pub proof fn law_event_reads_back(
    t: TimingModel,
    hops: Seq<HopModel>,
    fields: Seq<FieldModel>,
    behind: Seq<u8>,
)
    requires
        event_fits(hops, fields),
        forall|i: int| 0 <= i < fields.len() ==> is_tagged(#[trigger] fields[i]),
    ensures
        read_event(event_bytes(t, hops, fields) + behind, true) == Some(
            EventModel { flags: 0, timing: t, hops, fields: all_as_read(fields) },
        ),
        read_event(event_bytes(t, hops, fields) + behind, false) == Some(
            EventModel { flags: 0, timing: t, hops, fields: Seq::empty() },
        ),
{
    lemma_le_limits();
    let b = event_bytes(t, hops, fields) + behind;
    let tail = fields_bytes(fields) + behind;
    let body = le_bytes(fields.len(), 2) + tail;
    let hop_part = hops_bytes(hops) + body;
    let count_part = le_bytes(hops.len(), 2) + hop_part;
    let timed = opt_bytes(t.ts_wall) + (opt_bytes(t.ts) + (opt_bytes(t.seq) + count_part));
    let head = seq![BIN_MAGIC, BIN_VERSION, 0u8, bitmap_of(t)];
    lemma_regroup(
        head,
        opt_bytes(t.ts_wall),
        opt_bytes(t.ts),
        opt_bytes(t.seq),
        le_bytes(hops.len(), 2),
        hops_bytes(hops),
        le_bytes(fields.len(), 2),
        fields_bytes(fields),
        behind,
    );
    assert(b.take(4) == head);
    assert(b[0] == b.take(4)[0] && b[1] == b.take(4)[1] && b[2] == b.take(4)[2] && b[3] == b.take(
        4,
    )[3]);
    assert(b.skip(4) == timed);
    lemma_read_timing(t, count_part);
    lemma_read_number(hops.len(), 2, hop_part);
    lemma_read_hops(hops, body);
    lemma_read_number(fields.len(), 2, tail);
    assert forall|i: int| 0 <= i < fields.len() implies field_fits(#[trigger] fields[i])
        && is_tagged(fields[i]) by {}
    lemma_read_fields(fields, behind);
}

/// Law: what is written starts with the magic byte, by which the format is told
/// from the other.
pub proof fn law_written_events_are_told_apart(
    t: TimingModel,
    hops: Seq<HopModel>,
    fields: Seq<FieldModel>,
)
    ensures
        event_bytes(t, hops, fields).len() >= 4,
        event_bytes(t, hops, fields)[0] == BIN_MAGIC,
{
}

// ---------------------------------------------------------------------------
// Writing
// ---------------------------------------------------------------------------

fn write_number(out: &mut Vec<u8>, n: u64, k: usize)
    ensures
        final(out)@ == old(out)@ + le_bytes(n as nat, k as nat),
{
    let mut rest: u64 = n;
    let mut i: usize = 0;
    let ghost base = out@;
    while i < k
        invariant
            i <= k,
            base + le_bytes(n as nat, k as nat) =~= out@ + le_bytes(rest as nat, (k - i) as nat),
        decreases k - i,
    {
        let ghost was = out@;
        let low: u8 = (rest % 256) as u8;
        out.push(low);
        assert(le_bytes(rest as nat, (k - i) as nat) =~= seq![low] + le_bytes(
            (rest / 256) as nat,
            (k - i - 1) as nat,
        ));
        assert(was + (seq![low] + le_bytes((rest / 256) as nat, (k - i - 1) as nat)) =~= out@
            + le_bytes((rest / 256) as nat, (k - i - 1) as nat));
        rest = rest / 256;
        i = i + 1;
    }
    assert(out@ + le_bytes(rest as nat, 0) =~= out@);
}

fn write_bytes(out: &mut Vec<u8>, data: &[u8])
    ensures
        final(out)@ == old(out)@ + data@,
{
    let mut i: usize = 0;
    let ghost base = out@;
    assert(base + data@.take(0) =~= base);
    while i < data.len()
        invariant
            i <= data@.len(),
            out@ == base + data@.take(i as int),
        decreases data@.len() - i,
    {
        out.push(data[i]);
        assert(base + data@.take(i + 1) =~= (base + data@.take(i as int)).push(data@[i as int]));
        i = i + 1;
    }
    assert(data@.take(i as int) =~= data@);
}

fn s64_raw(v: i64) -> (n: u64)
    ensures
        n == s64_bits(v),
{
    if v >= 0 {
        v as u64
    } else {
        (v + 0x7fff_ffff_ffff_ffff + 1) as u64 + 0x8000_0000_0000_0000
    }
}

fn s32_raw(v: i32) -> (n: u64)
    ensures
        n == s32_bits(v),
{
    if v >= 0 {
        v as u64
    } else {
        (v as i64 + 0x1_0000_0000) as u64
    }
}

fn write_payload(out: &mut Vec<u8>, s: &Scalar)
    ensures
        final(out)@ == old(out)@ + payload(s@),
{
    let ghost base = out@;
    match s {
        Scalar::Str(t) => {
            let bytes = t.as_str().as_bytes();
            write_number(out, bytes.len() as u64, 2);
            write_bytes(out, bytes);
            assert(out@ =~= base + payload(s@));
        },
        Scalar::F64(v) => write_number(out, *v, 8),
        Scalar::F32(v) => write_number(out, *v as u64, 4),
        Scalar::U64(v) => write_number(out, *v, 8),
        Scalar::U32(v) => write_number(out, *v as u64, 4),
        Scalar::S64(v) => write_number(out, s64_raw(*v), 8),
        Scalar::S32(v) => write_number(out, s32_raw(*v), 4),
        Scalar::Bool(v) => {
            let bit: u8 = if *v {
                1
            } else {
                0
            };
            out.push(bit);
            assert(out@ =~= base + payload(s@));
        },
    }
}

/// A field to be written.
#[derive(Debug)]
pub struct FieldOut {
    pub tag: u8,
    pub name: String,
    pub value: Option<Scalar>,
}

impl View for FieldOut {
    type V = FieldModel;

    open spec fn view(&self) -> FieldModel {
        FieldModel { tag: self.tag, name: self.name@, value: opt_scalar(self.value) }
    }
}

/// The fields to be written.
pub open spec fn field_models(fields: Seq<FieldOut>) -> Seq<FieldModel> {
    fields.map_values(|f: FieldOut| f@)
}

/// A stop on an event's way.
#[derive(Debug)]
pub struct BenchHop {
    pub stage: String,
    /// When the event came, by the bits of the time.
    pub enter_ts: u64,
    /// When it left, by the bits of the time.
    pub exit_ts: u64,
}

impl View for BenchHop {
    type V = HopModel;

    open spec fn view(&self) -> HopModel {
        (self.stage@, self.enter_ts, self.exit_ts)
    }
}

/// The hops of an event.
pub open spec fn hop_models(hops: Seq<BenchHop>) -> Seq<HopModel> {
    hops.map_values(|h: BenchHop| h@)
}

/// The timing of an event, by the bits of its times.
#[derive(Clone, Copy, Debug, PartialEq, Eq, Structural)]
pub struct BenchTiming {
    pub ts_wall: Option<u64>,
    pub ts: Option<u64>,
    pub seq: Option<u64>,
}

impl View for BenchTiming {
    type V = TimingModel;

    open spec fn view(&self) -> TimingModel {
        TimingModel { ts_wall: self.ts_wall, ts: self.ts, seq: self.seq }
    }
}

fn write_opt(out: &mut Vec<u8>, v: Option<u64>)
    ensures
        final(out)@ == old(out)@ + opt_bytes(v),
{
    let ghost base = out@;
    match v {
        None => {
            assert(base + Seq::<u8>::empty() =~= base);
        },
        Some(n) => write_number(out, n, 8),
    }
}

fn write_hop(out: &mut Vec<u8>, h: &BenchHop)
    requires
        encode_utf8(h.stage@).len() < 0x100,
    ensures
        final(out)@ == old(out)@ + hop_bytes(h@),
{
    let ghost base = out@;
    let bytes = h.stage.as_str().as_bytes();
    out.push(bytes.len() as u8);
    write_bytes(out, bytes);
    write_number(out, h.enter_ts, 8);
    write_number(out, h.exit_ts, 8);
    assert(out@ =~= base + hop_bytes(h@));
}

fn write_field(out: &mut Vec<u8>, f: &FieldOut)
    requires
        field_fits(f@),
    ensures
        final(out)@ == old(out)@ + field_bytes(f@),
{
    let ghost base = out@;
    let bytes = f.name.as_str().as_bytes();
    out.push(f.tag);
    out.push(
        if f.value.is_some() {
            1
        } else {
            0
        },
    );
    out.push(bytes.len() as u8);
    write_bytes(out, bytes);
    match &f.value {
        None => {},
        Some(v) => write_payload(out, v),
    }
    assert(out@ =~= base + field_bytes(f@));
}

fn name_fits(name: &String) -> (b: bool)
    ensures
        b == (encode_utf8(name@).len() < 0x100),
{
    name.as_str().as_bytes().len() < 0x100
}

/// How many fields are written.
fn kept_count(fields: &Vec<FieldOut>) -> (n: usize)
    ensures
        n <= fields@.len(),
        kept_fields(field_models(fields@)) == field_models(fields@).take(n as int),
{
    assert(field_models(fields@).take(fields@.len() as int) =~= field_models(fields@));
    if fields.len() > MAX_FIELDS {
        MAX_FIELDS
    } else {
        fields.len()
    }
}

/// Whether everything that is written of an event fits the format.
pub fn fits(hops: &Vec<BenchHop>, fields: &Vec<FieldOut>) -> (b: bool)
    ensures
        b == event_fits(hop_models(hops@), kept_fields(field_models(fields@))),
{
    let ghost hs = hop_models(hops@);
    let ghost fs = kept_fields(field_models(fields@));
    let n: usize = kept_count(fields);
    if hops.len() >= 0x1_0000 {
        return false;
    }
    let mut i: usize = 0;
    while i < hops.len()
        invariant
            i <= hops@.len(),
            hs == hop_models(hops@),
            forall|k: int| 0 <= k < i ==> encode_utf8((#[trigger] hs[k]).0).len() < 0x100,
        decreases hops@.len() - i,
    {
        assert(hs[i as int].0 == hops@[i as int].stage@);
        if !name_fits(&hops[i].stage) {
            return false;
        }
        i = i + 1;
    }
    let mut j: usize = 0;
    while j < n
        invariant
            j <= n <= fields@.len(),
            fs == kept_fields(field_models(fields@)),
            fs == field_models(fields@).take(n as int),
            forall|k: int| 0 <= k < j ==> field_fits(#[trigger] fs[k]),
        decreases n - j,
    {
        assert(fs[j as int] == fields@[j as int]@);
        if !name_fits(&fields[j].name) {
            assert(!field_fits(fs[j as int]));
            return false;
        }
        match &fields[j].value {
            Some(Scalar::Str(t)) => {
                if t.as_str().as_bytes().len() >= 0x1_0000 {
                    assert(!field_fits(fs[j as int]));
                    return false;
                }
            },
            _ => {},
        }
        assert(field_fits(fs[j as int]));
        j = j + 1;
    }
    true
}

/// Writes an event, with no more fields than fit. There are no bytes for one that
/// does not fit the format: a name of more than 255 bytes, a text of more than
/// 65535, or more hops than that.
pub fn write_event(timing: BenchTiming, hops: &Vec<BenchHop>, fields: &Vec<FieldOut>) -> (r: Option<
    Vec<u8>,
>)
    ensures
        r is Some <==> event_fits(hop_models(hops@), kept_fields(field_models(fields@))),
        r matches Some(b) ==> b@ == event_bytes(
            timing@,
            hop_models(hops@),
            kept_fields(field_models(fields@)),
        ),
{
    if !fits(hops, fields) {
        return None;
    }
    let ghost hs = hop_models(hops@);
    let ghost fs = kept_fields(field_models(fields@));
    let n: usize = kept_count(fields);
    let mut bitmap: u8 = 0;
    if timing.ts_wall.is_some() {
        bitmap = bitmap + 1;
    }
    if timing.ts.is_some() {
        bitmap = bitmap + 2;
    }
    if timing.seq.is_some() {
        bitmap = bitmap + 4;
    }
    let mut out: Vec<u8> = vec![BIN_MAGIC, BIN_VERSION, 0, bitmap];
    assert(out@ =~= seq![BIN_MAGIC, BIN_VERSION, 0u8, bitmap_of(timing@)]);
    write_opt(&mut out, timing.ts_wall);
    write_opt(&mut out, timing.ts);
    write_opt(&mut out, timing.seq);
    write_number(&mut out, hops.len() as u64, 2);
    let ghost base = out@;
    let mut i: usize = 0;
    assert(hs.take(0) =~= Seq::<HopModel>::empty());
    assert(base + hops_bytes(hs.take(0)) =~= base);
    while i < hops.len()
        invariant
            i <= hops@.len(),
            hs == hop_models(hops@),
            header_fits(hs),
            out@ == base + hops_bytes(hs.take(i as int)),
        decreases hops@.len() - i,
    {
        assert(hs.take(i + 1).drop_last() =~= hs.take(i as int));
        assert(hs[i as int] == hops@[i as int]@);
        write_hop(&mut out, &hops[i]);
        assert(base + hops_bytes(hs.take(i + 1)) =~= base + hops_bytes(hs.take(i as int))
            + hop_bytes(hs[i as int]));
        i = i + 1;
    }
    assert(hs.take(i as int) =~= hs);
    assert(out@ =~= header_bytes(timing@, hs));
    write_number(&mut out, n as u64, 2);
    let ghost base2 = out@;
    let mut j: usize = 0;
    assert(fs.take(0) =~= Seq::<FieldModel>::empty());
    assert(base2 + fields_bytes(fs.take(0)) =~= base2);
    while j < n
        invariant
            j <= n <= fields@.len(),
            fs == field_models(fields@).take(n as int),
            forall|k: int| 0 <= k < fs.len() ==> field_fits(#[trigger] fs[k]),
            out@ == base2 + fields_bytes(fs.take(j as int)),
        decreases n - j,
    {
        assert(fs.take(j + 1).drop_last() =~= fs.take(j as int));
        assert(fs[j as int] == fields@[j as int]@);
        assert(field_fits(fs[j as int]));
        write_field(&mut out, &fields[j]);
        assert(base2 + fields_bytes(fs.take(j + 1)) =~= base2 + fields_bytes(fs.take(j as int))
            + field_bytes(fs[j as int]));
        j = j + 1;
    }
    assert(fs.take(j as int) =~= fs);
    Some(out)
}

// ---------------------------------------------------------------------------
// Reading, executable
// ---------------------------------------------------------------------------

/// `String::from_utf8`: the text that the bytes are, or none where they are not
/// valid UTF-8.
#[verifier::external_body]
fn text_from_utf8(bytes: Vec<u8>) -> (r: Option<String>)
    ensures
        r is Some <==> valid_utf8(bytes@),
        r matches Some(s) ==> s@ == decode_utf8(bytes@),
{
    String::from_utf8(bytes).ok()
}

/// A place in some bytes, from which they are read.
#[derive(Debug)]
pub struct Reader<'a> {
    pub data: &'a [u8],
    pub pos: usize,
}

impl<'a> Reader<'a> {
    /// The place is within the bytes.
    pub open spec fn wf(&self) -> bool {
        self.pos <= self.data@.len()
    }

    /// What is still to be read.
    pub open spec fn rest(&self) -> Seq<u8> {
        self.data@.skip(self.pos as int)
    }

    pub fn new(data: &'a [u8]) -> (r: Reader<'a>)
        ensures
            r.wf(),
            r.rest() == data@,
    {
        let r = Reader { data, pos: 0 };
        assert(r.rest() =~= data@);
        r
    }

    fn number(&mut self, k: usize) -> (n: Option<u64>)
        requires
            old(self).wf(),
            1 <= k <= 8,
        ensures
            final(self).wf(),
            match n {
                None => read_number(old(self).rest(), k as nat) is None,
                Some(v) => read_number(old(self).rest(), k as nat) == Some(
                    (v as nat, final(self).rest()),
                ),
            },
            n matches Some(v) ==> v < le_limit(k as nat),
    {
        let ghost rest = self.rest();
        let all: usize = self.data.len();
        if all - self.pos < k {
            return None;
        }
        let ghost part = rest.take(k as int);
        let mut n: u64 = 0;
        let mut i: usize = k;
        proof {
            lemma_le_limits();
            assert(part.skip(k as int) =~= Seq::<u8>::empty());
        }
        while i > 0
            invariant
                i <= k <= 8,
                self.wf(),
                *self == *old(self),
                all == self.data@.len(),
                self.pos + k <= all,
                rest == self.rest(),
                part == rest.take(k as int),
                n == le_value(part.skip(i as int)),
            decreases i,
        {
            i = i - 1;
            proof {
                let tail = part.skip(i as int);
                assert(tail.drop_first() =~= part.skip(i + 1));
                lemma_le_value_bound(part.skip(i + 1));
                lemma_le_limit_grows((7 - i) as nat, 7);
                assert(part.skip(i + 1).len() == k - i - 1);
                lemma_le_limit_grows((k - i - 1) as nat, 7);
                reveal_with_fuel(le_limit, 8);
                assert(tail[0] == self.data@[self.pos + i]);
            }
            n = self.data[self.pos + i] as u64 + 256 * n;
        }
        assert(part.skip(0) =~= part);
        proof {
            lemma_le_value_bound(part);
        }
        let ghost was = self.rest();
        self.pos = self.pos + k;
        assert(self.rest() =~= was.skip(k as int));
        Some(n)
    }

    fn text(&mut self, k: usize) -> (t: Option<String>)
        requires
            old(self).wf(),
        ensures
            final(self).wf(),
            match t {
                None => read_text(old(self).rest(), k as nat) is None,
                Some(v) => read_text(old(self).rest(), k as nat) == Some(
                    (v@, final(self).rest()),
                ),
            },
    {
        let ghost rest = self.rest();
        let all: usize = self.data.len();
        if all - self.pos < k {
            return None;
        }
        let mut part: Vec<u8> = Vec::new();
        let mut i: usize = 0;
        while i < k
            invariant
                i <= k,
                self.wf(),
                *self == *old(self),
                all == self.data@.len(),
                self.pos + k <= all,
                rest == self.rest(),
                part@ == rest.take(i as int),
            decreases k - i,
        {
            part.push(self.data[self.pos + i]);
            assert(rest.take(i + 1) =~= rest.take(i as int).push(rest[i as int]));
            i = i + 1;
        }
        self.pos = self.pos + k;
        assert(self.rest() =~= rest.skip(k as int));
        text_from_utf8(part)
    }

    fn scalar(&mut self, tag: u8) -> (r: Option<Scalar>)
        requires
            old(self).wf(),
        ensures
            final(self).wf(),
            match r {
                None => read_scalar(old(self).rest(), tag) is None,
                Some(v) => read_scalar(old(self).rest(), tag) == Some((v@, final(self).rest())),
            },
    {
        proof {
            lemma_le_limits();
        }
        match tag {
            0 => match self.number(2) {
                None => None,
                Some(n) => match self.text(n as usize) {
                    None => None,
                    Some(t) => Some(Scalar::Str(t)),
                },
            },
            1 => match self.number(8) {
                None => None,
                Some(n) => Some(Scalar::F64(n)),
            },
            2 => match self.number(4) {
                None => None,
                Some(n) => Some(Scalar::F32(n as u32)),
            },
            3 => match self.number(8) {
                None => None,
                Some(n) => Some(Scalar::U64(n)),
            },
            4 => match self.number(4) {
                None => None,
                Some(n) => Some(Scalar::U32(n as u32)),
            },
            5 => match self.number(8) {
                None => None,
                Some(n) => {
                    let v: i64 = if n < 0x8000_0000_0000_0000 {
                        n as i64
                    } else {
                        (n as i128 - 0x1_0000_0000_0000_0000) as i64
                    };
                    Some(Scalar::S64(v))
                },
            },
            6 => match self.number(4) {
                None => None,
                Some(n) => {
                    let v: i32 = if n < 0x8000_0000 {
                        n as i32
                    } else {
                        (n as i64 - 0x1_0000_0000) as i32
                    };
                    Some(Scalar::S32(v))
                },
            },
            7 => match self.number(1) {
                None => None,
                Some(n) => Some(Scalar::Bool(n != 0)),
            },
            _ => None,
        }
    }

    fn hop(&mut self) -> (r: Option<BenchHop>)
        requires
            old(self).wf(),
        ensures
            final(self).wf(),
            match r {
                None => read_hop(old(self).rest()) is None,
                Some(h) => read_hop(old(self).rest()) == Some((h@, final(self).rest())),
            },
    {
        proof {
            lemma_le_limits();
        }
        let n: u64 = match self.number(1) {
            None => {
                return None;
            },
            Some(n) => n,
        };
        let stage = match self.text(n as usize) {
            None => {
                return None;
            },
            Some(t) => t,
        };
        let enter_ts: u64 = match self.number(8) {
            None => {
                return None;
            },
            Some(n) => n,
        };
        let exit_ts: u64 = match self.number(8) {
            None => {
                return None;
            },
            Some(n) => n,
        };
        Some(BenchHop { stage, enter_ts, exit_ts })
    }

    fn field(&mut self) -> (r: Option<BinField>)
        requires
            old(self).wf(),
        ensures
            final(self).wf(),
            match r {
                None => read_field(old(self).rest()) is None,
                Some(f) => read_field(old(self).rest()) == Some((f@, final(self).rest())),
            },
    {
        proof {
            lemma_le_limits();
        }
        let kind: u64 = match self.number(1) {
            None => {
                return None;
            },
            Some(n) => n,
        };
        let present: u64 = match self.number(1) {
            None => {
                return None;
            },
            Some(n) => n,
        };
        let n: u64 = match self.number(1) {
            None => {
                return None;
            },
            Some(n) => n,
        };
        let name = match self.text(n as usize) {
            None => {
                return None;
            },
            Some(t) => t,
        };
        if present == 0 {
            return Some(BinField { name, scalar: None });
        }
        match self.scalar(kind as u8) {
            None => None,
            Some(v) => Some(BinField { name, scalar: Some(v) }),
        }
    }

    fn opt(&mut self, there: bool) -> (r: Option<Option<u64>>)
        requires
            old(self).wf(),
        ensures
            final(self).wf(),
            match r {
                None => read_opt(old(self).rest(), there) is None,
                Some(v) => read_opt(old(self).rest(), there) == Some((v, final(self).rest())),
            },
    {
        if !there {
            return Some(None);
        }
        match self.number(8) {
            None => None,
            Some(n) => Some(Some(n)),
        }
    }
}

proof fn lemma_le_limit_grows(a: nat, b: nat)
    requires
        a <= b,
    ensures
        1 <= le_limit(a) <= le_limit(b),
    decreases b,
{
    if a < b {
        lemma_le_limit_grows(a, (b - 1) as nat);
    } else if a > 0 {
        lemma_le_limit_grows((a - 1) as nat, (b - 1) as nat);
    }
}

/// A field of an event that was read.
#[derive(Debug)]
pub struct BinField {
    pub name: String,
    pub scalar: Option<Scalar>,
}

impl View for BinField {
    type V = ReadField;

    open spec fn view(&self) -> ReadField {
        (self.name@, opt_scalar(self.scalar))
    }
}

/// The fields of an event that was read.
pub open spec fn read_models(fields: Seq<BinField>) -> Seq<ReadField> {
    fields.map_values(|f: BinField| f@)
}

/// An event that was read.
#[derive(Debug)]
pub struct BinaryEnvelope {
    pub flags: u8,
    pub timing: BenchTiming,
    pub hops: Vec<BenchHop>,
    pub fields: Vec<BinField>,
}

impl View for BinaryEnvelope {
    type V = EventModel;

    open spec fn view(&self) -> EventModel {
        EventModel {
            flags: self.flags,
            timing: self.timing@,
            hops: hop_models(self.hops@),
            fields: read_models(self.fields@),
        }
    }
}

/// The bytes carry an event in this format, not in the other.
pub open spec fn is_binary_event(b: Seq<u8>) -> bool {
    b.len() > 0 && b[0] == BIN_MAGIC
}

/// Whether the bytes carry an event in this format: its magic byte.
pub fn is_binary(b: &[u8]) -> (r: bool)
    ensures
        r == is_binary_event(b@),
{
    b.len() > 0 && b[0] == BIN_MAGIC
}

impl BinaryEnvelope {
    /// Reads an event, with its fields or only up to them. None where the bytes
    /// are no event of this format and version, or end too soon.
    pub fn decode_inner(b: &[u8], with_fields: bool) -> (r: Option<BinaryEnvelope>)
        ensures
            match r {
                None => read_event(b@, with_fields) is None,
                Some(env) => read_event(b@, with_fields) == Some(env@),
            },
    {
        if b.len() < 4 || b[0] != BIN_MAGIC || b[1] != BIN_VERSION {
            return None;
        }
        proof {
            lemma_le_limits();
        }
        let flags: u8 = b[2];
        let bitmap: u8 = b[3];
        let mut c = Reader { data: b, pos: 4 };
        assert(c.rest() =~= b@.skip(4));
        let ts_wall = match c.opt(bitmap % 2 == 1) {
            None => {
                return None;
            },
            Some(v) => v,
        };
        let ts = match c.opt((bitmap / 2) % 2 == 1) {
            None => {
                return None;
            },
            Some(v) => v,
        };
        let seq = match c.opt((bitmap / 4) % 2 == 1) {
            None => {
                return None;
            },
            Some(v) => v,
        };
        let timing = BenchTiming { ts_wall, ts, seq };
        let ghost after_timing = c.rest();
        assert(read_timing(b@.skip(4), bitmap as int) == Some((timing@, after_timing)));
        let hop_count: u64 = match c.number(2) {
            None => {
                return None;
            },
            Some(n) => n,
        };
        let ghost hop_start = c.rest();
        let mut hops: Vec<BenchHop> = Vec::new();
        let mut i: u64 = 0;
        assert(hop_models(hops@) =~= Seq::<HopModel>::empty());
        while i < hop_count
            invariant
                i <= hop_count,
                c.wf(),
                read_hops(hop_start, i as nat) == Some((hop_models(hops@), c.rest())),
                read_hops(hop_start, hop_count as nat) is None ==> read_body(
                    b@.skip(4),
                    bitmap as int,
                    flags,
                    with_fields,
                ) is None,
                b@.len() >= 4 && b@[0] == BIN_MAGIC && b@[1] == BIN_VERSION,
                flags == b@[2] && bitmap == b@[3],
            decreases hop_count - i,
        {
            match c.hop() {
                None => {
                    proof {
                        lemma_hops_stop(hop_start, (i + 1) as nat, hop_count as nat);
                    }
                    return None;
                },
                Some(h) => {
                    let ghost was = hops@;
                    hops.push(h);
                    assert(hop_models(hops@) =~= hop_models(was).push(h@));
                },
            }
            i = i + 1;
        }
        let mut fields: Vec<BinField> = Vec::new();
        assert(read_models(fields@) =~= Seq::<ReadField>::empty());
        if !with_fields {
            return Some(BinaryEnvelope { flags, timing, hops, fields });
        }
        let field_count: u64 = match c.number(2) {
            None => {
                return None;
            },
            Some(n) => n,
        };
        let ghost field_start = c.rest();
        let mut j: u64 = 0;
        while j < field_count
            invariant
                j <= field_count,
                c.wf(),
                read_fields(field_start, j as nat) == Some((read_models(fields@), c.rest())),
                read_fields(field_start, field_count as nat) is None ==> read_event(
                    b@,
                    with_fields,
                ) is None,
            decreases field_count - j,
        {
            match c.field() {
                None => {
                    proof {
                        lemma_fields_stop(field_start, (j + 1) as nat, field_count as nat);
                    }
                    return None;
                },
                Some(f) => {
                    let ghost was = fields@;
                    fields.push(f);
                    assert(read_models(fields@) =~= read_models(was).push(f@));
                },
            }
            j = j + 1;
        }
        Some(BinaryEnvelope { flags, timing, hops, fields })
    }

    /// The event carries the end-of-stream mark.
    pub fn is_eos(&self) -> (b: bool)
        ensures
            b == (self@.flags % 2 == 1),
    {
        self.flags % 2 == 1
    }
}

proof fn lemma_hops_stop(b: Seq<u8>, k: nat, n: nat)
    requires
        k <= n,
        read_hops(b, k) is None,
    ensures
        read_hops(b, n) is None,
    decreases n,
{
    if k < n {
        lemma_hops_stop(b, k, (n - 1) as nat);
    }
}

proof fn lemma_fields_stop(b: Seq<u8>, k: nat, n: nat)
    requires
        k <= n,
        read_fields(b, k) is None,
    ensures
        read_fields(b, n) is None,
    decreases n,
{
    if k < n {
        lemma_fields_stop(b, k, (n - 1) as nat);
    }
}

} // verus!
