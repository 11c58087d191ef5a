//! Values of the data format that events and reports are exchanged in: as they
//! are read, and as they are written.

use vstd::prelude::*;
use crate::text::same;

verus! {

/// A number as it was read. Fractions are kept by their bits, in double and in
/// single precision.
#[derive(Clone, Copy, Debug, PartialEq, Eq, Structural)]
pub struct JsonNumber {
    pub whole: Whole,
    pub bits: u64,
    pub single: u32,
}

/// The whole number that was read, if it was one.
#[derive(Clone, Copy, Debug, PartialEq, Eq, Structural)]
pub enum Whole {
    Positive(u64),
    Negative(i64),
    Fraction,
}

/// A value that was read. No object has a name twice.
#[derive(Debug)]
pub enum Json {
    Null,
    Bool(bool),
    Number(JsonNumber),
    Text(String),
    Array(Vec<Json>),
    Object(Vec<(String, Json)>),
}

/// The names of an object.
pub open spec fn keys(entries: Seq<(String, Json)>) -> Seq<Seq<char>> {
    entries.map_values(|e: (String, Json)| e.0@)
}

/// The first entry of that name is at `i`.
pub open spec fn is_entry_at(entries: Seq<(String, Json)>, name: Seq<char>, i: int) -> bool {
    &&& 0 <= i < entries.len()
    &&& entries[i].0@ == name
    &&& forall|k: int| 0 <= k < i ==> (#[trigger] entries[k]).0@ != name
}

/// What an object has under a name.
pub open spec fn entry(j: Json, name: Seq<char>) -> Option<Json> {
    match j {
        Json::Object(entries) => if exists|i: int| is_entry_at(entries@, name, i) {
            Some(entries@[choose|i: int| is_entry_at(entries@, name, i)].1)
        } else {
            None
        },
        _ => None,
    }
}

/// A whole number that is not negative.
pub open spec fn count_in(j: Option<Json>) -> Option<u64> {
    match j {
        Some(Json::Number(n)) => match n.whole {
            Whole::Positive(v) => Some(v),
            _ => None,
        },
        _ => None,
    }
}

/// A whole number that fits with its sign.
pub open spec fn signed_in(j: Option<Json>) -> Option<i64> {
    match j {
        Some(Json::Number(n)) => match n.whole {
            Whole::Positive(v) => if v <= i64::MAX {
                Some(v as i64)
            } else {
                None
            },
            Whole::Negative(v) => Some(v),
            Whole::Fraction => None,
        },
        _ => None,
    }
}

/// Any number, by its bits in double precision.
pub open spec fn double_in(j: Option<Json>) -> Option<u64> {
    match j {
        Some(Json::Number(n)) => Some(n.bits),
        _ => None,
    }
}

/// Any number, by its bits in single precision.
pub open spec fn single_in(j: Option<Json>) -> Option<u32> {
    match j {
        Some(Json::Number(n)) => Some(n.single),
        _ => None,
    }
}

pub open spec fn text_in(j: Option<Json>) -> Option<Seq<char>> {
    match j {
        Some(Json::Text(t)) => Some(t@),
        _ => None,
    }
}

pub open spec fn bool_in(j: Option<Json>) -> Option<bool> {
    match j {
        Some(Json::Bool(b)) => Some(b),
        _ => None,
    }
}

/// The values of an array; none for anything else.
pub open spec fn items_in(j: Option<Json>) -> Seq<Json> {
    match j {
        Some(Json::Array(v)) => v@,
        _ => Seq::empty(),
    }
}

/// A value that may not be there, without the reference.
pub open spec fn opt_value(j: Option<&Json>) -> Option<Json> {
    match j {
        None => None,
        Some(v) => Some(*v),
    }
}

impl Json {
    /// What an object has under a name.
    pub fn get(&self, name: &str) -> (r: Option<&Json>)
        ensures
            opt_value(r) == entry(*self, name@),
    {
        match self {
            Json::Object(entries) => {
                let mut i: usize = 0;
                while i < entries.len()
                    invariant
                        i <= entries@.len(),
                        *self == Json::Object(*entries),
                        forall|k: int| 0 <= k < i ==> (#[trigger] entries@[k]).0@ != name@,
                    decreases entries@.len() - i,
                {
                    if same(entries[i].0.as_str(), name) {
                        proof {
                            assert(is_entry_at(entries@, name@, i as int));
                            let c = choose|c: int| is_entry_at(entries@, name@, c);
                            assert(is_entry_at(entries@, name@, c));
                            assert(c == i);
                            assert(entry(*self, name@) == Some(entries@[i as int].1));
                        }
                        return Some(&entries[i].1);
                    }
                    i = i + 1;
                }
                None
            },
            _ => None,
        }
    }
}

/// Any number, by its bits in double precision.
pub fn double_of(j: Option<&Json>) -> (r: Option<u64>)
    ensures
        r == double_in(opt_value(j)),
{
    match j {
        Some(Json::Number(n)) => Some(n.bits),
        _ => None,
    }
}

/// Any number, by its bits in single precision.
pub fn single_of(j: Option<&Json>) -> (r: Option<u32>)
    ensures
        r == single_in(opt_value(j)),
{
    match j {
        Some(Json::Number(n)) => Some(n.single),
        _ => None,
    }
}

/// A whole number that is not negative.
pub fn count_of(j: Option<&Json>) -> (r: Option<u64>)
    ensures
        r == count_in(opt_value(j)),
{
    match j {
        Some(Json::Number(n)) => match n.whole {
            Whole::Positive(v) => Some(v),
            _ => None,
        },
        _ => None,
    }
}

/// A whole number that fits with its sign.
pub fn signed_of(j: Option<&Json>) -> (r: Option<i64>)
    ensures
        r == signed_in(opt_value(j)),
{
    match j {
        Some(Json::Number(n)) => match n.whole {
            Whole::Positive(v) => if v <= 0x7fff_ffff_ffff_ffff {
                Some(v as i64)
            } else {
                None
            },
            Whole::Negative(v) => Some(v),
            Whole::Fraction => None,
        },
        _ => None,
    }
}

/// A text.
pub fn text_of<'a>(j: Option<&'a Json>) -> (r: Option<&'a String>)
    ensures
        match r {
            None => text_in(opt_value(j)) is None,
            Some(t) => text_in(opt_value(j)) == Some(t@),
        },
{
    match j {
        Some(Json::Text(t)) => Some(t),
        _ => None,
    }
}

/// A truth value.
pub fn bool_of(j: Option<&Json>) -> (r: Option<bool>)
    ensures
        r == bool_in(opt_value(j)),
{
    match j {
        Some(Json::Bool(b)) => Some(*b),
        _ => None,
    }
}

/// A value to be written. A fraction is a quotient, or the bits of a number in
/// double or single precision; a value that was read is kept as it is.
#[derive(Debug)]
pub enum JsonOut<'a> {
    Null,
    Bool(bool),
    Count(u64),
    Signed(i64),
    Ratio(u128, u128),
    /// The negative of a quotient.
    Minus(u128, u128),
    Double(u64),
    Single(u32),
    Text(String),
    Array(Vec<JsonOut<'a>>),
    Object(Vec<(String, JsonOut<'a>)>),
    Kept(&'a Json),
}

/// A value to be written, for contracts.
pub enum JsonModel {
    Null,
    Bool(bool),
    Count(nat),
    Signed(int),
    Ratio(nat, nat),
    Minus(nat, nat),
    Double(u64),
    Single(u32),
    Text(Seq<char>),
    Array(Seq<JsonModel>),
    Object(Seq<(Seq<char>, JsonModel)>),
    Kept(Json),
}

/// The value is the one that is meant.
pub open spec fn shows(j: JsonOut, m: JsonModel) -> bool
    decreases m,
{
    match (j, m) {
        (JsonOut::Null, JsonModel::Null) => true,
        (JsonOut::Bool(b), JsonModel::Bool(c)) => b == c,
        (JsonOut::Count(n), JsonModel::Count(k)) => n == k,
        (JsonOut::Signed(n), JsonModel::Signed(k)) => n == k,
        (JsonOut::Ratio(a, b), JsonModel::Ratio(c, d)) => a == c && b == d,
        (JsonOut::Minus(a, b), JsonModel::Minus(c, d)) => a == c && b == d,
        (JsonOut::Double(b), JsonModel::Double(c)) => b == c,
        (JsonOut::Single(b), JsonModel::Single(c)) => b == c,
        (JsonOut::Text(t), JsonModel::Text(s)) => t@ == s,
        (JsonOut::Array(v), JsonModel::Array(ms)) => {
            &&& v@.len() == ms.len()
            &&& forall|i: int| 0 <= i < ms.len() ==> shows(#[trigger] v@[i], ms[i])
        },
        (JsonOut::Object(v), JsonModel::Object(ms)) => {
            &&& v@.len() == ms.len()
            &&& forall|i: int|
                0 <= i < ms.len() ==> (#[trigger] v@[i]).0@ == ms[i].0 && shows(v@[i].1, ms[i].1)
        },
        (JsonOut::Kept(j), JsonModel::Kept(k)) => *j == k,
        _ => false,
    }
}

/// What a value that is written means.
pub open spec fn meaning(j: JsonOut) -> JsonModel
    decreases j,
{
    match j {
        JsonOut::Null => JsonModel::Null,
        JsonOut::Bool(b) => JsonModel::Bool(b),
        JsonOut::Count(n) => JsonModel::Count(n as nat),
        JsonOut::Signed(n) => JsonModel::Signed(n as int),
        JsonOut::Ratio(a, b) => JsonModel::Ratio(a as nat, b as nat),
        JsonOut::Minus(a, b) => JsonModel::Minus(a as nat, b as nat),
        JsonOut::Double(b) => JsonModel::Double(b),
        JsonOut::Single(b) => JsonModel::Single(b),
        JsonOut::Text(t) => JsonModel::Text(t@),
        JsonOut::Array(v) => JsonModel::Array(
            Seq::new(
                v@.len(),
                |i: int|
                    if 0 <= i < v@.len() {
                        meaning(v@[i])
                    } else {
                        JsonModel::Null
                    },
            ),
        ),
        JsonOut::Object(v) => JsonModel::Object(
            Seq::new(
                v@.len(),
                |i: int|
                    if 0 <= i < v@.len() {
                        (v@[i].0@, meaning(v@[i].1))
                    } else {
                        (Seq::empty(), JsonModel::Null)
                    },
            ),
        ),
        JsonOut::Kept(j) => JsonModel::Kept(*j),
    }
}

/// Law: every value that is written means something.
pub proof fn law_values_have_a_meaning(j: JsonOut)
    ensures
        shows(j, meaning(j)),
    decreases j,
{
    match j {
        JsonOut::Array(v) => {
            assert forall|i: int| 0 <= i < v@.len() implies shows(
                #[trigger] v@[i],
                meaning(v@[i]),
            ) by {
                law_values_have_a_meaning(v@[i]);
            }
        },
        JsonOut::Object(v) => {
            assert forall|i: int| 0 <= i < v@.len() implies shows(
                (#[trigger] v@[i]).1,
                meaning(v@[i].1),
            ) by {
                law_values_have_a_meaning(v@[i].1);
            }
        },
        _ => {},
    }
}

/// Law: a value that is written means one thing only.
pub proof fn law_values_mean_one_thing(j: JsonOut, a: JsonModel, b: JsonModel)
    requires
        shows(j, a),
        shows(j, b),
    ensures
        a == b,
    decreases a,
{
    match (j, a, b) {
        (JsonOut::Array(v), JsonModel::Array(xs), JsonModel::Array(ys)) => {
            assert forall|i: int| 0 <= i < xs.len() implies xs[i] == ys[i] by {
                law_values_mean_one_thing(v@[i], xs[i], ys[i]);
            }
            assert(xs =~= ys);
        },
        (JsonOut::Object(v), JsonModel::Object(xs), JsonModel::Object(ys)) => {
            assert forall|i: int| 0 <= i < xs.len() implies xs[i] == ys[i] by {
                let e = v@[i];
                law_values_mean_one_thing(e.1, xs[i].1, ys[i].1);
            }
            assert(xs =~= ys);
        },
        _ => {},
    }
}

/// The entries are those that are meant.
pub open spec fn entries_show(v: Seq<(String, JsonOut)>, ms: Seq<(Seq<char>, JsonModel)>) -> bool {
    &&& v.len() == ms.len()
    &&& forall|i: int|
        0 <= i < ms.len() ==> (#[trigger] v[i]).0@ == ms[i].0 && shows(v[i].1, ms[i].1)
}

/// The values are those that are meant.
pub open spec fn items_show(v: Seq<JsonOut>, ms: Seq<JsonModel>) -> bool {
    &&& v.len() == ms.len()
    &&& forall|i: int| 0 <= i < ms.len() ==> shows(#[trigger] v[i], ms[i])
}

/// An object that is being put together.
pub struct ObjectOut<'a> {
    pub entries: Vec<(String, JsonOut<'a>)>,
    /// The entries that are meant.
    pub model: Ghost<Seq<(Seq<char>, JsonModel)>>,
}

impl<'a> ObjectOut<'a> {
    /// The entries so far are those that are meant.
    pub open spec fn wf(&self) -> bool {
        entries_show(self.entries@, self.model@)
    }

    pub open spec fn holds(&self, ms: Seq<(Seq<char>, JsonModel)>) -> bool {
        self.wf() && self.model@ == ms
    }

    pub fn new() -> (o: ObjectOut<'a>)
        ensures
            o.wf(),
            o.model@ == Seq::<(Seq<char>, JsonModel)>::empty(),
    {
        ObjectOut { entries: Vec::new(), model: Ghost(Seq::empty()) }
    }

    /// Adds an entry behind the others.
    pub fn put(&mut self, name: &str, value: JsonOut<'a>, Ghost(m): Ghost<JsonModel>)
        requires
            old(self).wf(),
            shows(value, m),
        ensures
            final(self).wf(),
            final(self).model@ == old(self).model@.push((name@, m)),
    {
        let ghost ms = self.model@;
        self.entries.push((name.to_owned(), value));
        self.model = Ghost(ms.push((name@, m)));
    }

    pub fn put_count(&mut self, name: &str, n: u64)
        requires
            old(self).wf(),
        ensures
            final(self).wf(),
            final(self).model@ == old(self).model@.push((name@, JsonModel::Count(n as nat))),
    {
        self.put(name, JsonOut::Count(n), Ghost(JsonModel::Count(n as nat)));
    }

    pub fn put_ratio(&mut self, name: &str, num: u128, den: u128)
        requires
            old(self).wf(),
        ensures
            final(self).wf(),
            final(self).model@ == old(self).model@.push(
                (name@, JsonModel::Ratio(num as nat, den as nat)),
            ),
    {
        self.put(
            name,
            JsonOut::Ratio(num, den),
            Ghost(JsonModel::Ratio(num as nat, den as nat)),
        );
    }

    pub fn put_text(&mut self, name: &str, text: &str)
        requires
            old(self).wf(),
        ensures
            final(self).wf(),
            final(self).model@ == old(self).model@.push((name@, JsonModel::Text(text@))),
    {
        self.put(name, JsonOut::Text(text.to_owned()), Ghost(JsonModel::Text(text@)));
    }

    /// Puts an entry in the place of the one of that name, or behind the others.
    pub fn insert(&mut self, name: &str, value: JsonOut<'a>, Ghost(m): Ghost<JsonModel>)
        requires
            old(self).wf(),
            shows(value, m),
        ensures
            final(self).wf(),
            final(self).model@ == with_entry(old(self).model@, name@, m),
    {
        let ghost ms = self.model@;
        let mut i: usize = 0;
        while i < self.entries.len()
            invariant
                i <= self.entries@.len(),
                *self == *old(self),
                self.wf(),
                ms == self.model@,
                shows(value, m),
                forall|k: int| 0 <= k < i ==> (#[trigger] ms[k]).0 != name@,
            decreases self.entries@.len() - i,
        {
            assert(self.entries@[i as int].0@ == ms[i as int].0);
            if same(self.entries[i].0.as_str(), name) {
                proof {
                    assert(is_first_key(ms, name@, i as int));
                    let c = choose|c: int| is_first_key(ms, name@, c);
                    assert(is_first_key(ms, name@, c));
                    assert(c == i);
                    assert(ms[i as int].0 == name@);
                }
                let ghost was = self.entries@;
                self.entries[i] = (name.to_owned(), value);
                assert(self.entries@ =~= was.update(i as int, self.entries@[i as int]));
                self.model = Ghost(ms.update(i as int, (name@, m)));
                return ;
            }
            i = i + 1;
        }
        self.entries.push((name.to_owned(), value));
        self.model = Ghost(ms.push((name@, m)));
    }

    /// The object.
    pub fn done(self) -> (j: JsonOut<'a>)
        requires
            self.wf(),
        ensures
            shows(j, JsonModel::Object(self.model@)),
    {
        JsonOut::Object(self.entries)
    }
}

/// The first entry of that name is at `i`.
pub open spec fn is_first_key(ms: Seq<(Seq<char>, JsonModel)>, name: Seq<char>, i: int) -> bool {
    &&& 0 <= i < ms.len()
    &&& ms[i].0 == name
    &&& forall|k: int| 0 <= k < i ==> (#[trigger] ms[k]).0 != name
}

/// Puts an entry into an object: in the place of the one of that name, or
/// behind the others.
pub open spec fn with_entry(
    ms: Seq<(Seq<char>, JsonModel)>,
    name: Seq<char>,
    m: JsonModel,
) -> Seq<(Seq<char>, JsonModel)> {
    if exists|i: int| 0 <= i < ms.len() && (#[trigger] ms[i]).0 == name {
        ms.update(choose|i: int| is_first_key(ms, name, i), (name, m))
    } else {
        ms.push((name, m))
    }
}

/// An array that is being put together.
pub struct ArrayOut<'a> {
    pub items: Vec<JsonOut<'a>>,
    /// The values that are meant.
    pub model: Ghost<Seq<JsonModel>>,
}

impl<'a> ArrayOut<'a> {
    /// The values so far are those that are meant.
    pub open spec fn wf(&self) -> bool {
        items_show(self.items@, self.model@)
    }

    pub fn new() -> (a: ArrayOut<'a>)
        ensures
            a.wf(),
            a.model@ == Seq::<JsonModel>::empty(),
    {
        ArrayOut { items: Vec::new(), model: Ghost(Seq::empty()) }
    }

    /// Adds a value behind the others.
    pub fn push(&mut self, value: JsonOut<'a>, Ghost(m): Ghost<JsonModel>)
        requires
            old(self).wf(),
            shows(value, m),
        ensures
            final(self).wf(),
            final(self).model@ == old(self).model@.push(m),
    {
        let ghost ms = self.model@;
        self.items.push(value);
        self.model = Ghost(ms.push(m));
    }

    pub fn push_count(&mut self, n: u64)
        requires
            old(self).wf(),
        ensures
            final(self).wf(),
            final(self).model@ == old(self).model@.push(JsonModel::Count(n as nat)),
    {
        self.push(JsonOut::Count(n), Ghost(JsonModel::Count(n as nat)));
    }

    pub fn push_ratio(&mut self, num: u128, den: u128)
        requires
            old(self).wf(),
        ensures
            final(self).wf(),
            final(self).model@ == old(self).model@.push(JsonModel::Ratio(num as nat, den as nat)),
    {
        self.push(JsonOut::Ratio(num, den), Ghost(JsonModel::Ratio(num as nat, den as nat)));
    }

    pub fn push_text(&mut self, text: &str)
        requires
            old(self).wf(),
        ensures
            final(self).wf(),
            final(self).model@ == old(self).model@.push(JsonModel::Text(text@)),
    {
        self.push(JsonOut::Text(text.to_owned()), Ghost(JsonModel::Text(text@)));
    }

    /// The array.
    pub fn done(self) -> (j: JsonOut<'a>)
        requires
            self.wf(),
        ensures
            shows(j, JsonModel::Array(self.model@)),
    {
        JsonOut::Array(self.items)
    }
}

} // verus!
