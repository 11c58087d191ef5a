//! Where events come into a pipeline and where they leave it: what a source
//! makes, how it is driven, and what the collector does with each event.

use bytes::Bytes;

use vstd::prelude::*;
use crate::envelope::EventEnvelope;
use crate::inproc::{Backoff, Edge, PushStep, Wait};
use crate::json::{
    bool_in, bool_of, count_in, count_of, entry, shows, Json, JsonModel, JsonOut, ObjectOut,
};
use crate::numtext::{decimal, decimal_text, padded, padded_text, parse_number, parsed};
use crate::payload::{buffer_of, content};
use crate::text::{
    has_prefix, rsplit_once, split_at_last, starts_with, strip_prefix, without_prefix,
};
use crate::wire::{
    field_models, hop_models, is_binary, is_binary_event, read_event, write_event, BenchHop,
    BenchTiming, BinaryEnvelope, FieldModel, FieldOut, HopModel, Scalar, ScalarModel, TimingModel,
};

verus! {

/// The arguments of an agent.
#[derive(Debug)]
pub struct Args {
    pub config: String,
    pub launch_dispatchers: bool,
    pub dispatcher_bin: Option<String>,
    pub log_dir: String,
    /// A file that is made once the pipeline takes events.
    pub ready_file: Option<String>,
}

/// What makes the events of a pipeline. The stream ends with the first event
/// that is not there.
pub trait EventSource: Send {
    fn next_event(&mut self) -> Option<Vec<u8>>;

    /// Says which part of the events this one is to make, where several make
    /// them together. One that does not care makes them all, and this does
    /// nothing.
    fn set_partition(&mut self, _index: usize, _total: usize) {
    }
}

/// What takes the events that a pipeline has finished.
pub trait EventSink: Send {
    fn consume(&mut self, event: &[u8]);
}

/// What came of one attempt to move a source on.
#[derive(Debug)]
pub enum DriveStep {
    /// An event is in the edge.
    Pushed,
    /// The edge is full: wait, then try again.
    Blocked(Wait),
    /// The source has come to its end.
    Ended,
}

/// A source on its way: the event that found no room yet, how many went in, and
/// whether it has ended.
pub struct Driver {
    pub held: Option<Bytes>,
    pub sent: u64,
    pub ended: bool,
}

impl Driver {
    pub fn new() -> (d: Driver)
        ensures
            d.held is None,
            d.sent == 0,
            !d.ended,
    {
        Driver { held: None, sent: 0, ended: false }
    }

    /// Puts an event into the edge, keeps it where there is no room, and gives it
    /// up where the pipeline shuts down meanwhile.
    fn send(&mut self, item: Bytes, edge: &mut Edge, shutdown: bool, backoff: &mut Backoff) -> (r:
        DriveStep)
        requires
            old(self).held is None,
            !old(self).ended,
            old(self).sent < u64::MAX,
        ensures
            is_sent(*old(self), *final(self), *old(edge), *final(edge), content(item), shutdown, r),
    {
        match edge.push(item, shutdown, backoff) {
            PushStep::Delivered => {
                self.sent = self.sent + 1;
                DriveStep::Pushed
            },
            PushStep::Dropped => {
                self.ended = true;
                DriveStep::Ended
            },
            PushStep::Blocked(back, w) => {
                self.held = Some(back);
                DriveStep::Blocked(w)
            },
        }
    }

    /// Goes on with what the source gave: its next event, or nothing at its end.
    pub fn offer(
        &mut self,
        given: Option<Vec<u8>>,
        edge: &mut Edge,
        shutdown: bool,
        backoff: &mut Backoff,
    ) -> (r: DriveStep)
        requires
            old(self).held is None,
            !old(self).ended,
            old(self).sent < u64::MAX,
        ensures
            match given {
                None => is_over(*old(self), *final(self), *old(edge), *final(edge), r),
                Some(bytes) => is_sent(
                    *old(self),
                    *final(self),
                    *old(edge),
                    *final(edge),
                    bytes@,
                    shutdown,
                    r,
                ),
            },
    {
        match given {
            None => {
                self.ended = true;
                DriveStep::Ended
            },
            Some(bytes) => self.send(buffer_of(bytes), edge, shutdown, backoff),
        }
    }

    /// An event of the source is wanted: it has not ended, none waits for room, its
    /// time is not over, and the pipeline does not shut down.
    pub open spec fn is_asking(&self, shutdown: bool, past_deadline: bool) -> bool {
        !self.ended && self.held is None && !shutdown && !past_deadline
    }

    /// Whether an event of the source is wanted.
    pub fn wants_event(&self, shutdown: bool, past_deadline: bool) -> (b: bool)
        ensures
            b == self.is_asking(shutdown, past_deadline),
    {
        !self.ended && self.held.is_none() && !shutdown && !past_deadline
    }

    /// Goes on by one step: with the event that waits for room, where one does, and
    /// otherwise with what the source gave. `given` is none where it was not asked.
    pub fn advance(
        &mut self,
        given: Option<Vec<u8>>,
        edge: &mut Edge,
        shutdown: bool,
        backoff: &mut Backoff,
    ) -> (r: DriveStep)
        requires
            old(self).ended || old(self).held is Some ==> given is None,
            old(self).sent < u64::MAX,
        ensures
            old(self).ended ==> r is Ended && *final(self) == *old(self) && *final(edge) == *old(
                edge,
            ),
            !old(self).ended && old(self).held is Some ==> is_sent(
                Driver { held: None, ..*old(self) },
                *final(self),
                *old(edge),
                *final(edge),
                content(old(self).held->0),
                shutdown,
                r,
            ),
            !old(self).ended && old(self).held is None ==> match given {
                None => is_over(*old(self), *final(self), *old(edge), *final(edge), r),
                Some(bytes) => is_sent(
                    *old(self),
                    *final(self),
                    *old(edge),
                    *final(edge),
                    bytes@,
                    shutdown,
                    r,
                ),
            },
    {
        if self.ended {
            return DriveStep::Ended;
        }
        match self.held.take() {
            Some(b) => self.send(b, edge, shutdown, backoff),
            None => self.offer(given, edge, shutdown, backoff),
        }
    }

    /// Moves the source on by one event. It ends when it has no more, when its
    /// time is over, or when the pipeline shuts down; an event that found no
    /// room is tried again first. The source is asked only where an event of it
    /// is wanted.
    pub fn step<S: EventSource>(
        &mut self,
        source: &mut S,
        edge: &mut Edge,
        shutdown: bool,
        past_deadline: bool,
        backoff: &mut Backoff,
    ) -> (r: DriveStep)
        requires
            old(self).sent < u64::MAX,
        ensures
            old(self).ended ==> r is Ended && *final(self) == *old(self) && *final(edge) == *old(
                edge,
            ) && *final(source) == *old(source),
            !old(self).ended && old(self).held is Some ==> is_sent(
                Driver { held: None, ..*old(self) },
                *final(self),
                *old(edge),
                *final(edge),
                content(old(self).held->0),
                shutdown,
                r,
            ) && *final(source) == *old(source),
            !old(self).ended && old(self).held is None && (shutdown || past_deadline) ==> is_over(
                *old(self),
                *final(self),
                *old(edge),
                *final(edge),
                r,
            ) && *final(source) == *old(source),
            !old(self).ended && old(self).held is None && !shutdown && !past_deadline ==> is_over(
                *old(self),
                *final(self),
                *old(edge),
                *final(edge),
                r,
            ) || exists|bytes: Seq<u8>| #[trigger]
                is_sent(*old(self), *final(self), *old(edge), *final(edge), bytes, shutdown, r),
    {
        let given = if self.wants_event(shutdown, past_deadline) {
            source.next_event()
        } else {
            None
        };
        self.advance(given, edge, shutdown, backoff)
    }
}

/// The source is over, and nothing went into the edge.
pub open spec fn is_over(was: Driver, now: Driver, edge: Edge, edge_now: Edge, r: DriveStep) -> bool {
    &&& r is Ended
    &&& now == (Driver { ended: true, ..was })
    &&& edge_now == edge
}

/// An event was to go into the edge: it is there, behind all others, where there
/// was room; otherwise it is kept, or, where the pipeline shuts down, given up.
pub open spec fn is_sent(
    was: Driver,
    now: Driver,
    edge: Edge,
    edge_now: Edge,
    item: Seq<u8>,
    shutdown: bool,
    r: DriveStep,
) -> bool {
    &&& edge_now.room() == edge.room()
    &&& match r {
        DriveStep::Pushed => {
            &&& edge.events().len() < edge.room()
            &&& edge_now.events() == edge.events().push(item)
            &&& now == (Driver { sent: (was.sent + 1) as u64, ..was })
        },
        DriveStep::Blocked(_) => {
            &&& edge.events().len() >= edge.room()
            &&& !shutdown
            &&& edge_now.events() == edge.events()
            &&& now.held matches Some(b) && content(b) == item
            &&& now == (Driver { held: now.held, ..was })
        },
        DriveStep::Ended => {
            &&& edge.events().len() >= edge.room()
            &&& shutdown
            &&& edge_now.events() == edge.events()
            &&& now == (Driver { ended: true, ..was })
        },
    }
}

/// The mark of the end of a stream, behind so many events.
pub open spec fn end_mark(count: nat, done_bits: u64) -> JsonModel {
    JsonModel::Object(
        seq![
            ("__epico_eos"@, JsonModel::Bool(true)),
            ("loadgen_sent"@, JsonModel::Count(count)),
            ("expected_count"@, JsonModel::Count(count)),
            ("loadgen_done_ts"@, JsonModel::Double(done_bits)),
        ],
    )
}

/// Writes the mark of the end of a stream.
pub fn eos_marker<'a>(count: u64, done_bits: u64) -> (j: JsonOut<'a>)
    ensures
        shows(j, end_mark(count as nat, done_bits)),
{
    let mut o = ObjectOut::new();
    o.put("__epico_eos", JsonOut::Bool(true), Ghost(JsonModel::Bool(true)));
    o.put_count("loadgen_sent", count);
    o.put_count("expected_count", count);
    o.put(
        "loadgen_done_ts",
        JsonOut::Double(done_bits),
        Ghost(JsonModel::Double(done_bits)),
    );
    o.done()
}

/// The numbers of the events that one of several generators makes.
#[derive(Debug)]
pub struct Partition {
    next: u64,
    stride: u64,
    count: u64,
    over: bool,
}

/// A number is made by the generator `index` of `stride`.
pub open spec fn is_share(seq: nat, index: nat, stride: nat, count: nat) -> bool {
    index <= seq < count && (seq - index) % stride as int == 0
}

/// Law: several generators make every number once: the one whose number it is by
/// the rest of the division, and no other.
pub proof fn law_generators_share_out(seq: nat, stride: nat, count: nat)
    requires
        stride > 0,
        seq < count,
    ensures
        is_share(seq, seq % stride, stride, count),
        forall|i: nat|
            i < stride && #[trigger] is_share(seq, i, stride, count) ==> i == seq % stride,
{
    let q = seq / stride;
    vstd::arithmetic::div_mod::lemma_fundamental_div_mod(seq as int, stride as int);
    let r = (seq % stride) as int;
    assert(seq - r == stride * q);
    vstd::arithmetic::div_mod::lemma_mod_multiples_basic(q as int, stride as int);
    assert(q as int * stride as int == stride as int * q as int) by (nonlinear_arith);
    assert forall|i: nat| i < stride && #[trigger] is_share(seq, i, stride, count) implies i == seq
        % stride by {
        let d = seq - i;
        vstd::arithmetic::div_mod::lemma_fundamental_div_mod(d, stride as int);
        let k = d / stride as int;
        assert(seq == stride as int * k + i);
        vstd::arithmetic::div_mod::lemma_fundamental_div_mod_converse(
            seq as int,
            stride as int,
            k,
            i as int,
        );
    }
}

impl Partition {
    /// The number that comes next, if there is one.
    pub closed spec fn upcoming(&self) -> Option<nat> {
        if self.over || self.next >= self.count {
            None
        } else {
            Some(self.next as nat)
        }
    }

    pub closed spec fn step(&self) -> nat {
        self.stride as nat
    }

    pub closed spec fn limit(&self) -> nat {
        self.count as nat
    }

    /// The generator `index` of `stride` of the numbers below `count`.
    pub fn new(count: u64, index: u64, stride: u64) -> (p: Partition)
        ensures
            p.step() == if stride == 0 {
                1
            } else {
                stride as nat
            },
            p.limit() == count,
            p.upcoming() == if index < count {
                Some(index as nat)
            } else {
                None
            },
    {
        Partition {
            next: index,
            stride: if stride == 0 {
                1
            } else {
                stride
            },
            count,
            over: false,
        }
    }

    /// The next number of this generator.
    pub fn next(&mut self) -> (r: Option<u64>)
        requires
            old(self).step() > 0,
        ensures
            final(self).step() == old(self).step(),
            final(self).limit() == old(self).limit(),
            match r {
                None => old(self).upcoming() is None && final(self).upcoming() is None,
                Some(n) => {
                    &&& old(self).upcoming() == Some(n as nat)
                    &&& final(self).upcoming() == if n + old(self).step() < old(self).limit() {
                        Some((n + old(self).step()) as nat)
                    } else {
                        None
                    }
                },
            },
    {
        if self.over || self.next >= self.count {
            return None;
        }
        let n: u64 = self.next;
        if self.stride <= u64::MAX - n {
            self.next = n + self.stride;
        } else {
            self.over = true;
        }
        Some(n)
    }
}

/// A reading of a sensor, its value in ten-thousandths.
#[derive(Debug)]
pub struct Reading {
    pub seq: u64,
    pub sensor_id: String,
    pub sensor_type: &'static str,
    pub location: &'static str,
    pub unit: &'static str,
    pub value_e4: u64,
    pub is_anomaly: bool,
}

/// What the sensors measure, by number: the kind, the unit, and the value around
/// which it is, in ten-thousandths.
pub open spec fn kind_at(i: nat) -> (Seq<char>, Seq<char>, nat) {
    if i == 0 {
        ("temperature"@, "\u{00b0}C"@, 220_000)
    } else if i == 1 {
        ("vibration"@, "mm/s"@, 12_000)
    } else if i == 2 {
        ("pressure"@, "kPa"@, 1_013_000)
    } else if i == 3 {
        ("humidity"@, "%"@, 450_000)
    } else {
        ("current"@, "A"@, 35_000)
    }
}

/// Where the sensors are, by number.
pub open spec fn location_at(i: nat) -> Seq<char> {
    if i == 0 {
        "zone-A"@
    } else if i == 1 {
        "zone-B"@
    } else if i == 2 {
        "zone-C"@
    } else {
        "zone-D"@
    }
}

/// The number of a sensor, in four digits or more.
pub open spec fn sensor_digits(i: nat) -> Seq<char> {
    if i < 10_000 {
        padded(i, 4)
    } else {
        decimal(i)
    }
}

/// The reading that has the number `seq`, where there are so many sensors.
pub open spec fn is_reading(r: Reading, seq: nat, sensors: nat) -> bool {
    let at = seq % (if sensors == 0 {
        1
    } else {
        sensors
    });
    let kind = kind_at(at % 5);
    &&& r.seq == seq
    &&& r.sensor_id@ == "sensor-"@ + sensor_digits(at)
    &&& r.sensor_type@ == kind.0
    &&& r.unit@ == kind.1
    &&& r.location@ == location_at(at % 4)
    &&& r.value_e4 == kind.2 + 100 * (seq % 211)
    &&& r.is_anomaly == (seq % 500 == 0)
}

/// Makes the reading that has the number `seq`.
pub fn reading(seq: u64, sensors: u64) -> (r: Reading)
    ensures
        is_reading(r, seq as nat, sensors as nat),
{
    let n: u64 = if sensors == 0 {
        1
    } else {
        sensors
    };
    let at: u64 = seq % n;
    let k: u64 = at % 5;
    let (sensor_type, unit, base): (&'static str, &'static str, u64) = if k == 0 {
        ("temperature", "\u{00b0}C", 220_000)
    } else if k == 1 {
        ("vibration", "mm/s", 12_000)
    } else if k == 2 {
        ("pressure", "kPa", 1_013_000)
    } else if k == 3 {
        ("humidity", "%", 450_000)
    } else {
        ("current", "A", 35_000)
    };
    let l: u64 = at % 4;
    let location: &'static str = if l == 0 {
        "zone-A"
    } else if l == 1 {
        "zone-B"
    } else if l == 2 {
        "zone-C"
    } else {
        "zone-D"
    };
    let mut sensor_id = "sensor-".to_owned();
    let digits = if at < 10_000 {
        padded_text(at as u128, 4)
    } else {
        decimal_text(at as u128)
    };
    sensor_id.append(digits.as_str());
    Reading {
        seq,
        sensor_id,
        sensor_type,
        location,
        unit,
        value_e4: base + 100 * (seq % 211),
        is_anomaly: seq % 500 == 0,
    }
}

/// A reading as an event in text, sent at a time that is given by its bits.
pub open spec fn reading_json(r: Reading, now_bits: u64) -> JsonModel {
    JsonModel::Object(
        seq![
            ("bench_ts"@, JsonModel::Double(now_bits)),
            ("bench_ts_wall"@, JsonModel::Double(now_bits)),
            ("bench_seq"@, JsonModel::Count(r.seq as nat)),
            ("sensor_id"@, JsonModel::Text(r.sensor_id@)),
            ("sensor_type"@, JsonModel::Text(r.sensor_type@)),
            ("location"@, JsonModel::Text(r.location@)),
            ("unit"@, JsonModel::Text(r.unit@)),
            ("value"@, JsonModel::Ratio(r.value_e4 as nat, 10_000)),
            ("is_anomaly"@, JsonModel::Bool(r.is_anomaly)),
        ],
    )
}

/// A reading as an event in rows; the value is given by its bits too.
pub open spec fn reading_row(r: Reading, value_bits: u64) -> Seq<FieldModel> {
    seq![
        FieldModel { tag: 0, name: "sensor_id"@, value: Some(ScalarModel::Str(r.sensor_id@)) },
        FieldModel { tag: 0, name: "sensor_type"@, value: Some(ScalarModel::Str(r.sensor_type@)) },
        FieldModel { tag: 0, name: "location"@, value: Some(ScalarModel::Str(r.location@)) },
        FieldModel { tag: 0, name: "unit"@, value: Some(ScalarModel::Str(r.unit@)) },
        FieldModel { tag: 1, name: "value"@, value: Some(ScalarModel::F64(value_bits)) },
        FieldModel { tag: 7, name: "is_anomaly"@, value: Some(ScalarModel::Bool(r.is_anomaly)) },
    ]
}

fn text_field(name: &str, text: &str) -> (f: FieldOut)
    ensures
        f@ == (FieldModel { tag: 0, name: name@, value: Some(ScalarModel::Str(text@)) }),
{
    FieldOut { tag: 0, name: name.to_owned(), value: Some(Scalar::Str(text.to_owned())) }
}

impl Reading {
    /// The reading as an event in text.
    pub fn to_json<'a>(&self, now_bits: u64) -> (j: JsonOut<'a>)
        ensures
            shows(j, reading_json(*self, now_bits)),
    {
        let mut o = ObjectOut::new();
        o.put("bench_ts", JsonOut::Double(now_bits), Ghost(JsonModel::Double(now_bits)));
        o.put("bench_ts_wall", JsonOut::Double(now_bits), Ghost(JsonModel::Double(now_bits)));
        o.put_count("bench_seq", self.seq);
        o.put_text("sensor_id", self.sensor_id.as_str());
        o.put_text("sensor_type", self.sensor_type);
        o.put_text("location", self.location);
        o.put_text("unit", self.unit);
        o.put_ratio("value", self.value_e4 as u128, 10_000);
        o.put(
            "is_anomaly",
            JsonOut::Bool(self.is_anomaly),
            Ghost(JsonModel::Bool(self.is_anomaly)),
        );
        o.done()
    }

    /// The reading as an event in rows; none where a text is too long for that.
    pub fn to_row(&self, now_bits: u64, value_bits: u64) -> (r: Option<Vec<u8>>)
        ensures
            r is Some <==> crate::wire::event_fits(
                Seq::empty(),
                reading_row(*self, value_bits),
            ),
            r matches Some(b) ==> b@ == crate::wire::event_bytes(
                TimingModel {
                    ts_wall: Some(now_bits),
                    ts: Some(now_bits),
                    seq: Some(self.seq),
                },
                Seq::empty(),
                reading_row(*self, value_bits),
            ),
    {
        let mut fields: Vec<FieldOut> = Vec::new();
        fields.push(text_field("sensor_id", self.sensor_id.as_str()));
        fields.push(text_field("sensor_type", self.sensor_type));
        fields.push(text_field("location", self.location));
        fields.push(text_field("unit", self.unit));
        fields.push(
            FieldOut { tag: 1, name: "value".to_owned(), value: Some(Scalar::F64(value_bits)) },
        );
        fields.push(
            FieldOut {
                tag: 7,
                name: "is_anomaly".to_owned(),
                value: Some(Scalar::Bool(self.is_anomaly)),
            },
        );
        assert(field_models(fields@) =~= reading_row(*self, value_bits));
        let hops: Vec<BenchHop> = Vec::new();
        assert(hop_models(hops@) =~= Seq::<HopModel>::empty());
        let timing = BenchTiming {
            ts_wall: Some(now_bits),
            ts: Some(now_bits),
            seq: Some(self.seq),
        };
        write_event(timing, &hops, &fields)
    }
}

/// The name by which the mark of the end is told, in bytes.
pub open spec fn needle() -> Seq<u8> {
    seq![95u8, 95u8, 101u8, 112u8, 105u8, 99u8, 111u8, 95u8, 101u8, 111u8, 115u8]
}

/// The name stands at `i`.
pub open spec fn needle_at(b: Seq<u8>, i: int) -> bool {
    0 <= i && i + 11 <= b.len() && b.subrange(i, i + 11) == needle()
}

/// The bytes may be the mark of the end: they are few, and hold its name.
pub open spec fn may_be_end(b: Seq<u8>) -> bool {
    b.len() < 4096 && exists|i: int| needle_at(b, i)
}

/// Whether the bytes may be the mark of the end.
pub fn may_end(b: &[u8]) -> (r: bool)
    ensures
        r == may_be_end(b@),
{
    let n: usize = b.len();
    if n >= 4096 || n < 11 {
        return false;
    }
    let name: Vec<u8> = vec![95, 95, 101, 112, 105, 99, 111, 95, 101, 111, 115];
    assert(name@ =~= needle());
    let mut i: usize = 0;
    while i + 11 <= n
        invariant
            i <= n,
            n == b@.len(),
            11 <= n < 4096,
            name@ == needle(),
            forall|k: int| 0 <= k < i ==> !needle_at(b@, k),
        decreases n - i,
    {
        let mut k: usize = 0;
        while k < 11 && b[i + k] == name[k]
            invariant
                k <= 11,
                i + 11 <= n == b@.len(),
                n < 4096,
                name@ == needle(),
                forall|j: int| 0 <= j < k ==> b@[i + j] == #[trigger] needle()[j],
            decreases 11 - k,
        {
            k = k + 1;
        }
        if k == 11 {
            assert(b@.subrange(i as int, i + 11) =~= needle());
            assert(needle_at(b@, i as int));
            return true;
        }
        assert(!needle_at(b@, i as int)) by {
            let s = b@.subrange(i as int, i + 11);
            assert(s[k as int] == b@[i + k]);
            assert(needle()[k as int] == name@[k as int]);
        }
        i = i + 1;
    }
    false
}

/// What the collector does with what came.
#[derive(Clone, Copy, Debug, PartialEq, Eq, Structural)]
pub enum Collected {
    /// The stream is at its end: how many events the source sent, and how many
    /// it meant to send.
    End(u64, u64),
    /// The mark of the end came another time. It is no event either.
    EndAgain,
    /// It is a finished event, for the sink and to be accounted for.
    Event,
}

/// The collector: how many events it took, and whether the end has come.
#[derive(Debug)]
pub struct Collector {
    pub recv_count: u64,
    pub eos_received: bool,
}

pub open spec fn count_or_zero(c: Option<u64>) -> u64 {
    match c {
        Some(n) => n,
        None => 0,
    }
}

/// What came is a mark of the end: it is as short as one, holds the name, and
/// reads as an object in which that name is true.
pub open spec fn is_end_mark(b: Seq<u8>, read: Option<Json>) -> bool {
    &&& may_be_end(b)
    &&& read matches Some(j) && bool_in(entry(j, "__epico_eos"@)) == Some(true)
}

/// What the collector does with what came: a mark of the end is the end, the
/// first time, and everything that is no such mark is an event.
pub open spec fn collected(ended: bool, b: Seq<u8>, read: Option<Json>) -> Collected {
    if !is_end_mark(b, read) {
        Collected::Event
    } else if ended {
        Collected::EndAgain
    } else {
        Collected::End(
            count_or_zero(count_in(entry(read->0, "loadgen_sent"@))),
            count_or_zero(count_in(entry(read->0, "expected_count"@))),
        )
    }
}

/// Law: only marks of the end are left out. Whatever else comes is an event,
/// before the end and after it, though it may hold the name of the mark.
pub proof fn law_only_marks_are_left_out(ended: bool, b: Seq<u8>, read: Option<Json>)
    ensures
        collected(ended, b, read) is Event <==> !is_end_mark(b, read),
        collected(ended, b, read) is End <==> !ended && is_end_mark(b, read),
        collected(ended, b, read) is EndAgain <==> ended && is_end_mark(b, read),
{
}

impl Collector {
    pub fn new() -> (c: Collector)
        ensures
            c.recv_count == 0,
            !c.eos_received,
    {
        Collector { recv_count: 0, eos_received: false }
    }

    /// Takes in what came; `read` is what it reads as text, where it does.
    pub fn take(&mut self, b: &[u8], read: &Option<Json>) -> (r: Collected)
        requires
            old(self).recv_count < u64::MAX,
        ensures
            r == collected(old(self).eos_received, b@, *read),
            final(self).eos_received == (old(self).eos_received || r is End),
            final(self).recv_count == old(self).recv_count + if r is Event {
                1int
            } else {
                0
            },
    {
        if may_end(b) {
            if let Some(j) = read {
                if let Some(true) = bool_of(j.get("__epico_eos")) {
                    if self.eos_received {
                        return Collected::EndAgain;
                    }
                    self.eos_received = true;
                    let sent: u64 = match count_of(j.get("loadgen_sent")) {
                        Some(n) => n,
                        None => 0,
                    };
                    let expected: u64 = match count_of(j.get("expected_count")) {
                        Some(n) => n,
                        None => 0,
                    };
                    return Collected::End(sent, expected);
                }
            }
        }
        self.recv_count = self.recv_count + 1;
        Collected::Event
    }
}

/// The timing and the hops of a finished event, which is all that is accounted
/// for; none where it cannot be read.
pub open spec fn accounted(b: Seq<u8>, read: Option<Json>) -> Option<(TimingModel, Seq<HopModel>)> {
    if is_binary_event(b) {
        match read_event(b, false) {
            None => None,
            Some(e) => Some((e.timing, e.hops)),
        }
    } else {
        match read {
            None => None,
            Some(j) => Some(
                (EventEnvelope::Json(j).timing(), EventEnvelope::Json(j).hops()),
            ),
        }
    }
}

/// Reads the timing and the hops of a finished event.
pub fn telemetry_parts(b: &[u8], read: Option<Json>) -> (r: Option<(BenchTiming, Vec<BenchHop>)>)
    ensures
        match r {
            None => accounted(b@, read) is None,
            Some((t, hops)) => accounted(b@, read) == Some((t@, hop_models(hops@))),
        },
{
    if is_binary(b) {
        match BinaryEnvelope::decode_inner(b, false) {
            None => None,
            Some(e) => Some((e.timing, e.hops)),
        }
    } else {
        match read {
            None => None,
            Some(j) => {
                let e = EventEnvelope::Json(j);
                Some((e.bench_scalars(), e.bench_parts()))
            },
        }
    }
}

/// Where the collector takes events in: at the port of the address that the
/// stages send to, or at the address itself where it is on this machine.
pub open spec fn bind_place(endpoint: Seq<char>) -> Seq<char> {
    if has_prefix(endpoint, "tcp://"@) {
        "tcp://0.0.0.0:"@ + (match split_at_last(endpoint, ':') {
            Some((_, port)) => port,
            None => endpoint,
        })
    } else if has_prefix(endpoint, "ipc://"@) {
        endpoint
    } else {
        "tcp://0.0.0.0:"@ + endpoint
    }
}

/// Where the collector takes events in.
pub fn collector_bind(endpoint: &str) -> (out: String)
    ensures
        out@ == bind_place(endpoint@),
{
    if starts_with(endpoint, "tcp://") {
        let mut out = "tcp://0.0.0.0:".to_owned();
        match rsplit_once(endpoint, ':') {
            Some((_, port)) => out.append(port.as_str()),
            None => out.append(endpoint),
        }
        out
    } else if starts_with(endpoint, "ipc://") {
        endpoint.to_owned()
    } else {
        let mut out = "tcp://0.0.0.0:".to_owned();
        out.append(endpoint);
        out
    }
}

/// The host and the port of an address on the network.
pub open spec fn host_and_port(addr: Seq<char>) -> Option<(Seq<char>, nat)> {
    if has_prefix(addr, "tcp://"@) {
        match split_at_last(without_prefix(addr, "tcp://"@), ':') {
            Some((host, port)) => match parsed(port, u16::MAX as nat) {
                Some(p) => Some((host, p)),
                None => None,
            },
            None => None,
        }
    } else {
        None
    }
}

/// Where copies of the finished events are given out: at the next port, or under
/// the next name.
pub open spec fn copy_place(addr: Seq<char>) -> Seq<char> {
    match host_and_port(addr) {
        Some((host, p)) => "tcp://"@ + host + ":"@ + decimal(p + 1),
        None => addr + "-pub"@,
    }
}

/// Where copies of the finished events are given out. There is no port behind
/// the last.
pub fn derive_pub_addr(bind_addr: &str) -> (out: String)
    requires
        !(host_and_port(bind_addr@) matches Some((host, p)) && p == u16::MAX),
    ensures
        out@ == copy_place(bind_addr@),
{
    if let Some(rest) = strip_prefix(bind_addr, "tcp://") {
        if let Some((host, port)) = rsplit_once(rest.as_str(), ':') {
            if let Some(p) = parse_number(port.as_str(), u16::MAX as u64) {
                let mut out = "tcp://".to_owned();
                out.append(host.as_str());
                out.append(":");
                out.append(decimal_text(p as u128 + 1).as_str());
                return out;
            }
        }
    }
    let mut out = bind_addr.to_owned();
    out.append("-pub");
    out
}

} // verus!
