//! What is generated from a pipeline for the build: interface descriptions,
//! typed glue, and package manifests.

use vstd::prelude::*;
use crate::config::{has_name, is_first_named, place_of};
use crate::numtext::flat;
use crate::ordered::is_ordered;
use crate::pipeline_spec::{are_ordered_types, type_declared, type_names, StageSpec, TypeDef};
use crate::text::{
    chars_of, has_prefix, lower, lower_char, replace_char, replaced, same, starts_with,
    string_of, trim_front, trimmed_front, upper,
};

verus! {

/// What a crate for a stage is called: the name in lower case, with underscores
/// for whatever no crate name has.
pub open spec fn crate_char(c: char) -> char {
    if ('a' <= c && c <= 'z') || ('A' <= c && c <= 'Z') || ('0' <= c && c <= '9') {
        lower(c)
    } else {
        '_'
    }
}

pub open spec fn crate_name(name: Seq<char>) -> Seq<char> {
    "stage_"@ + name.map_values(|c: char| crate_char(c))
}

/// The name of the crate of a stage.
pub fn stage_crate_name(stage_name: &str) -> (out: String)
    ensures
        out@ == crate_name(stage_name@),
{
    let chars = chars_of(stage_name);
    let ghost want = stage_name@.map_values(|c: char| crate_char(c));
    let mut out = "stage_".to_owned();
    let mut i: usize = 0;
    assert("stage_"@ + want.take(0) =~= "stage_"@);
    while i < chars.len()
        invariant
            i <= chars@.len(),
            chars@ == stage_name@,
            want == stage_name@.map_values(|c: char| crate_char(c)),
            out@ == "stage_"@ + want.take(i as int),
        decreases chars@.len() - i,
    {
        let c = chars[i];
        let ghost was = out@;
        if ('a' <= c && c <= 'z') || ('A' <= c && c <= 'Z') || ('0' <= c && c <= '9') {
            out.push(lower_char(c));
        } else {
            out.push('_');
        }
        assert("stage_"@ + want.take(i + 1) =~= was.push(want[i as int]));
        i = i + 1;
    }
    assert(want.take(i as int) =~= want);
    out
}

/// A name as interface descriptions write it.
pub open spec fn wit_name(s: Seq<char>) -> Seq<char> {
    replaced(s, '_', '-')
}

/// A name as interface descriptions write it: dashes for underscores.
pub fn to_wit_ident(s: &str) -> (out: String)
    ensures
        out@ == wit_name(s@),
{
    replace_char(s, '_', '-')
}

/// The kinds of value that a field can hold.
#[derive(Clone, Copy, Debug, PartialEq, Eq, Structural)]
pub enum ValueKind {
    Str,
    F64,
    F32,
    U64,
    U32,
    S64,
    S32,
    Bool,
}

/// What a type name of a pipeline file means; no kind for one that the file's
/// author made up.
pub open spec fn kind_of(base: Seq<char>) -> Option<ValueKind> {
    if base == "string"@ || base == "str"@ {
        Some(ValueKind::Str)
    } else if base == "f64"@ || base == "float"@ || base == "double"@ {
        Some(ValueKind::F64)
    } else if base == "f32"@ || base == "float32"@ {
        Some(ValueKind::F32)
    } else if base == "u64"@ || base == "uint64"@ {
        Some(ValueKind::U64)
    } else if base == "u32"@ || base == "uint32"@ || base == "uint"@ {
        Some(ValueKind::U32)
    } else if base == "s64"@ || base == "int64"@ || base == "int"@ {
        Some(ValueKind::S64)
    } else if base == "s32"@ || base == "int32"@ {
        Some(ValueKind::S32)
    } else if base == "bool"@ || base == "boolean"@ {
        Some(ValueKind::Bool)
    } else {
        None
    }
}

/// What a type name of a pipeline file means.
pub fn kind_named(base: &str) -> (k: Option<ValueKind>)
    ensures
        k == kind_of(base@),
{
    if same(base, "string") || same(base, "str") {
        Some(ValueKind::Str)
    } else if same(base, "f64") || same(base, "float") || same(base, "double") {
        Some(ValueKind::F64)
    } else if same(base, "f32") || same(base, "float32") {
        Some(ValueKind::F32)
    } else if same(base, "u64") || same(base, "uint64") {
        Some(ValueKind::U64)
    } else if same(base, "u32") || same(base, "uint32") || same(base, "uint") {
        Some(ValueKind::U32)
    } else if same(base, "s64") || same(base, "int64") || same(base, "int") {
        Some(ValueKind::S64)
    } else if same(base, "s32") || same(base, "int32") {
        Some(ValueKind::S32)
    } else if same(base, "bool") || same(base, "boolean") {
        Some(ValueKind::Bool)
    } else {
        None
    }
}

/// A field's type without the mark that it may be absent.
pub open spec fn base_type(t: Seq<char>) -> Seq<char> {
    if is_optional(t) {
        t.drop_last()
    } else {
        t
    }
}

/// A field may be absent.
pub open spec fn is_optional(t: Seq<char>) -> bool {
    t.len() > 0 && t.last() == '?'
}

/// Splits a field's type from the mark that it may be absent.
pub fn split_optional(t: &str) -> (r: (String, bool))
    ensures
        r.0@ == base_type(t@),
        r.1 == is_optional(t@),
{
    let chars = chars_of(t);
    let n: usize = chars.len();
    if n > 0 && chars[n - 1] == '?' {
        let base = string_of(&chars, 0, n - 1);
        assert(t@.subrange(0, n - 1) =~= t@.drop_last());
        (base, true)
    } else {
        (t.to_owned(), false)
    }
}

/// A kind of value as interface descriptions write it.
pub open spec fn wit_kind(k: ValueKind) -> Seq<char> {
    match k {
        ValueKind::Str => "string"@,
        ValueKind::F64 => "f64"@,
        ValueKind::F32 => "f32"@,
        ValueKind::U64 => "u64"@,
        ValueKind::U32 => "u32"@,
        ValueKind::S64 => "s64"@,
        ValueKind::S32 => "s32"@,
        ValueKind::Bool => "bool"@,
    }
}

/// A field's type as interface descriptions write it.
pub open spec fn wit_type(t: Seq<char>) -> Seq<char> {
    let base = match kind_of(base_type(t)) {
        Some(k) => wit_kind(k),
        None => base_type(t),
    };
    if is_optional(t) {
        "option<"@ + base + ">"@
    } else {
        base
    }
}

/// A field's type as interface descriptions write it. A name that is no known
/// type is passed on as it is.
pub fn yaml_type_to_wit(s: &str) -> (out: String)
    ensures
        out@ == wit_type(s@),
{
    let (base, optional) = split_optional(s);
    let wit = match kind_named(base.as_str()) {
        Some(ValueKind::Str) => "string".to_owned(),
        Some(ValueKind::F64) => "f64".to_owned(),
        Some(ValueKind::F32) => "f32".to_owned(),
        Some(ValueKind::U64) => "u64".to_owned(),
        Some(ValueKind::U32) => "u32".to_owned(),
        Some(ValueKind::S64) => "s64".to_owned(),
        Some(ValueKind::S32) => "s32".to_owned(),
        Some(ValueKind::Bool) => "bool".to_owned(),
        None => base,
    };
    if optional {
        let mut out = "option<".to_owned();
        out.append(wit.as_str());
        out.append(">");
        out
    } else {
        wit
    }
}

/// A kind of value in the language of the agent.
pub open spec fn rust_kind(k: ValueKind) -> Seq<char> {
    match k {
        ValueKind::Str => "String"@,
        ValueKind::F64 => "f64"@,
        ValueKind::F32 => "f32"@,
        ValueKind::U64 => "u64"@,
        ValueKind::U32 => "u32"@,
        ValueKind::S64 => "i64"@,
        ValueKind::S32 => "i32"@,
        ValueKind::Bool => "bool"@,
    }
}

/// A field's type in the language of the agent.
pub open spec fn rust_type(t: Seq<char>) -> Seq<char> {
    let base = match kind_of(base_type(t)) {
        Some(k) => rust_kind(k),
        None => base_type(t),
    };
    if is_optional(t) {
        "Option<"@ + base + ">"@
    } else {
        base
    }
}

/// By which accessor a field is read: text, where the type is not known.
pub open spec fn access_kind(t: Seq<char>) -> ValueKind {
    match kind_of(base_type(t)) {
        Some(k) => k,
        None => ValueKind::Str,
    }
}

/// A field's type in the language of the agent, whether it may be absent, and
/// by which accessor it is read.
pub fn yaml_type_to_rust(s: &str) -> (r: (String, bool, ValueKind))
    ensures
        r.0@ == rust_type(s@),
        r.1 == is_optional(s@),
        r.2 == access_kind(s@),
{
    let (base, optional) = split_optional(s);
    let (rust, kind) = match kind_named(base.as_str()) {
        Some(ValueKind::Str) => ("String".to_owned(), ValueKind::Str),
        Some(ValueKind::F64) => ("f64".to_owned(), ValueKind::F64),
        Some(ValueKind::F32) => ("f32".to_owned(), ValueKind::F32),
        Some(ValueKind::U64) => ("u64".to_owned(), ValueKind::U64),
        Some(ValueKind::U32) => ("u32".to_owned(), ValueKind::U32),
        Some(ValueKind::S64) => ("i64".to_owned(), ValueKind::S64),
        Some(ValueKind::S32) => ("i32".to_owned(), ValueKind::S32),
        Some(ValueKind::Bool) => ("bool".to_owned(), ValueKind::Bool),
        None => (base, ValueKind::Str),
    };
    let ty = if optional {
        let mut out = "Option<".to_owned();
        out.append(rust.as_str());
        out.append(">");
        out
    } else {
        rust
    };
    (ty, optional, kind)
}

/// The name of an accessor.
pub open spec fn accessor(k: ValueKind) -> Seq<char> {
    match k {
        ValueKind::Str => "str"@,
        ValueKind::F64 => "f64"@,
        ValueKind::F32 => "f32"@,
        ValueKind::U64 => "u64"@,
        ValueKind::U32 => "u32"@,
        ValueKind::S64 => "s64"@,
        ValueKind::S32 => "s32"@,
        ValueKind::Bool => "bool"@,
    }
}

/// The name of an accessor.
pub fn accessor_name(k: ValueKind) -> (out: &'static str)
    ensures
        out@ == accessor(k),
{
    match k {
        ValueKind::Str => "str",
        ValueKind::F64 => "f64",
        ValueKind::F32 => "f32",
        ValueKind::U64 => "u64",
        ValueKind::U32 => "u32",
        ValueKind::S64 => "s64",
        ValueKind::S32 => "s32",
        ValueKind::Bool => "bool",
    }
}

/// The name of the variant that carries such a value.
pub open spec fn variant(k: ValueKind) -> Seq<char> {
    match k {
        ValueKind::Str => "Str"@,
        ValueKind::F64 => "F64"@,
        ValueKind::F32 => "F32"@,
        ValueKind::U64 => "U64"@,
        ValueKind::U32 => "U32"@,
        ValueKind::S64 => "S64"@,
        ValueKind::S32 => "S32"@,
        ValueKind::Bool => "Bool"@,
    }
}

/// The name of the variant that carries such a value.
pub fn wire_variant(k: ValueKind) -> (out: &'static str)
    ensures
        out@ == variant(k),
{
    match k {
        ValueKind::Str => "Str",
        ValueKind::F64 => "F64",
        ValueKind::F32 => "F32",
        ValueKind::U64 => "U64",
        ValueKind::U32 => "U32",
        ValueKind::S64 => "S64",
        ValueKind::S32 => "S32",
        ValueKind::Bool => "Bool",
    }
}

/// What `char::to_uppercase` makes of a character.
pub uninterp spec fn uppercased(c: char) -> Seq<char>;

/// `char::to_uppercase`, its characters put together: a function of the
/// character alone. Of the basic alphabet it makes the capital letter, and it
/// leaves the other characters of that range as they are.
#[verifier::external_body]
fn upper_text(c: char) -> (out: String)
    ensures
        out@ == uppercased(c),
        '\0' <= c && c <= '\x7f' ==> out@ == seq![upper(c)],
{
    c.to_uppercase().collect::<String>()
}

/// A character between the parts of a name.
pub open spec fn is_joint(c: char) -> bool {
    c == '_' || c == '-'
}

/// A name as types are called: the parts of it one after the other, each with
/// its first letter capital.
pub open spec fn camel(s: Seq<char>) -> Seq<char>
    decreases s.len(),
{
    if s.len() == 0 {
        Seq::empty()
    } else {
        let front = camel(s.drop_last());
        if is_joint(s.last()) {
            front
        } else if s.len() == 1 || is_joint(s[s.len() - 2]) {
            front + uppercased(s.last())
        } else {
            front.push(s.last())
        }
    }
}

/// A name as types are called.
pub fn camel_case(s: &str) -> (out: String)
    ensures
        out@ == camel(s@),
{
    let chars = chars_of(s);
    let mut out = String::new();
    let mut fresh = true;
    let mut i: usize = 0;
    assert(s@.take(0) =~= Seq::<char>::empty());
    while i < chars.len()
        invariant
            i <= chars@.len(),
            chars@ == s@,
            fresh == (i == 0 || is_joint(s@[i - 1])),
            out@ == camel(s@.take(i as int)),
        decreases chars@.len() - i,
    {
        assert(s@.take(i + 1).drop_last() =~= s@.take(i as int));
        let c = chars[i];
        if c == '_' || c == '-' {
            fresh = true;
        } else {
            if fresh {
                let up = upper_text(c);
                out.append(up.as_str());
            } else {
                out.push(c);
            }
            fresh = false;
        }
        i = i + 1;
    }
    assert(s@.take(i as int) =~= s@);
    out
}

/// The line of one field of a record.
pub open spec fn field_line(f: (String, String)) -> Seq<char> {
    "        "@ + wit_name(f.0@) + ": "@ + wit_type(f.1@) + ",\n"@
}

/// The lines of a record, up to a field.
pub open spec fn field_lines(fields: Seq<(String, String)>) -> Seq<char>
    decreases fields.len(),
{
    if fields.len() == 0 {
        Seq::empty()
    } else {
        field_lines(fields.drop_last()) + field_line(fields.last())
    }
}

/// The description of a record.
pub open spec fn record_text(name: Seq<char>, td: TypeDef) -> Seq<char> {
    "    record "@ + name + " {\n"@ + field_lines(td.fields@) + "    }\n"@
}

/// Describes a record.
pub fn emit_record(name: &str, typedef: &TypeDef) -> (out: String)
    ensures
        out@ == record_text(name@, *typedef),
{
    let ghost fields = typedef.fields@;
    let mut lines = String::new();
    let mut i: usize = 0;
    assert(fields.take(0) =~= Seq::<(String, String)>::empty());
    assert(lines@ =~= Seq::<char>::empty());
    while i < typedef.fields.len()
        invariant
            i <= typedef.fields@.len(),
            fields == typedef.fields@,
            lines@ == field_lines(fields.take(i as int)),
        decreases typedef.fields@.len() - i,
    {
        assert(fields.take(i + 1).drop_last() =~= fields.take(i as int));
        let f = &typedef.fields[i];
        let name = to_wit_ident(f.0.as_str());
        let ty = yaml_type_to_wit(f.1.as_str());
        let mut line = "        ".to_owned();
        line.append(name.as_str());
        line.append(": ");
        line.append(ty.as_str());
        line.append(",\n");
        lines.append(line.as_str());
        i = i + 1;
    }
    assert(fields.take(i as int) =~= fields);
    let mut out = "    record ".to_owned();
    out.append(name);
    out.append(" {\n");
    out.append(lines.as_str());
    out.append("    }\n");
    out
}

/// A line starts at `p`.
pub open spec fn is_line_start(s: Seq<char>, p: int) -> bool {
    0 <= p < s.len() && (p == 0 || s[p - 1] == '\n')
}

/// The line that starts at `p` ends at `e`.
pub open spec fn is_line(s: Seq<char>, p: int, e: int) -> bool {
    &&& is_line_start(s, p)
    &&& p <= e <= s.len()
    &&& e == s.len() || s[e] == '\n'
    &&& forall|k: int| p <= k < e ==> s[k] != '\n'
}

/// At `p` there starts a line that declares a world.
pub open spec fn is_world_line(s: Seq<char>, p: int) -> bool {
    exists|e: int| #[trigger]
        is_line(s, p, e) && has_prefix(trimmed_front(s.subrange(p, e)), "world "@)
}

/// What comes before the first line that declares a world.
pub open spec fn before_worlds(s: Seq<char>) -> Seq<char>
    decreases s.len(),
{
    if exists|p: int| is_world_line(s, p) {
        let p = choose|p: int|
            is_world_line(s, p) && forall|q: int| q < p ==> !is_world_line(s, q);
        s.take(p)
    } else {
        s
    }
}

/// The one world of a stage.
pub const WORLD: &'static str = "world stage {\n    export process;\n}\n";

/// Cuts the worlds off a shared interface description and puts the one of a
/// stage in their place.
pub fn make_stage_wit_legacy(shared: &str) -> (out: String)
    ensures
        out@ == before_worlds(shared@) + "\n"@ + WORLD@,
{
    let chars = chars_of(shared);
    let n: usize = chars.len();
    let ghost s = shared@;
    let mut cut: usize = n;
    let mut p: usize = 0;
    let mut found = false;
    while p < n && !found
        invariant
            n == chars@.len(),
            chars@ == s,
            s == shared@,
            p <= n,
            p < n ==> is_line_start(s, p as int),
            !found ==> cut == n && forall|q: int| q < p ==> !is_world_line(s, q),
            found ==> cut <= n && is_world_line(s, cut as int) && forall|q: int|
                q < cut ==> !is_world_line(s, q),
        decreases
            n - p,
            (if found {
                0int
            } else {
                1int
            }),
    {
        let mut e: usize = p;
        while e < n && chars[e] != '\n'
            invariant
                p <= e <= n,
                n == chars@.len(),
                forall|k: int| p <= k < e ==> chars@[k] != '\n',
            decreases n - e,
        {
            e = e + 1;
        }
        assert(is_line(s, p as int, e as int));
        let line = string_of(&chars, p, e);
        let front = trim_front(line.as_str());
        if starts_with(front.as_str(), "world ") {
            assert(is_world_line(s, p as int));
            cut = p;
            found = true;
        } else {
            proof {
                assert forall|q: int| q <= e implies !is_world_line(s, q) by {
                    if q == p {
                        assert forall|e2: int| #[trigger] is_line(s, q, e2) implies e2 == e by {
                            if e2 < e {
                                assert(s[e2] != '\n');
                            } else if e2 > e {
                                assert(s[e as int] != '\n');
                            }
                        }
                    } else if q > p {
                        assert(s[q - 1] != '\n');
                        assert forall|e2: int| !#[trigger] is_line(s, q, e2) by {}
                    }
                }
            }
            p = if e < n {
                e + 1
            } else {
                n
            };
        }
    }
    let head = string_of(&chars, 0, cut);
    proof {
        assert(s.subrange(0, cut as int) =~= s.take(cut as int));
        if found {
            let c = choose|p: int|
                is_world_line(s, p) && forall|q: int| q < p ==> !is_world_line(s, q);
            assert(c == cut);
        } else {
            assert forall|q: int| !is_world_line(s, q) by {
                if q >= n {
                    assert forall|e2: int| !#[trigger] is_line(s, q, e2) by {}
                }
            }
            assert(s.take(n as int) =~= s);
        }
    }
    let mut out = head;
    out.append("\n");
    out.append(WORLD);
    out
}

/// The declared type of that name.
pub fn find_type<'a>(types: &'a Vec<(String, TypeDef)>, name: &str) -> (r: Option<&'a TypeDef>)
    ensures
        r is Some <==> has_name(type_names(types@), name@),
        r matches Some(td) ==> *td == types@[place_of(type_names(types@), name@)].1,
{
    let ghost names = type_names(types@);
    let mut i: usize = 0;
    while i < types.len()
        invariant
            i <= types@.len(),
            names == type_names(types@),
            forall|k: int| 0 <= k < i ==> #[trigger] names[k] != name@,
        decreases types@.len() - i,
    {
        assert(names[i as int] == types@[i as int].0@);
        if same(types[i].0.as_str(), name) {
            proof {
                assert(is_first_named(names, name@, i as int));
                let c = place_of(names, name@);
                assert(is_first_named(names, name@, c));
                assert(c == i);
            }
            return Some(&types[i].1);
        }
        i = i + 1;
    }
    None
}

/// The head of a stage's interface description.
pub const WIT_HEAD: &'static str = "// GENERATED per-stage typed WIT. Do not edit.\npackage epico:pipeline@0.1.0;\n\ninterface types {\n";

/// The records that every stage has: how an event is timed.
pub const WIT_BENCH: &'static str = "    record bench-ctx {\n        bench-ts-wall: option<f64>,\n        bench-ts:      option<f64>,\n        bench-seq:     option<u64>,\n        bench-hops:    list<bench-hop>,\n    }\n    record bench-hop {\n        stage:    string,\n        enter-ts: f64,\n        exit-ts:  f64,\n    }\n";

/// A stage that keeps to the one record all stages share.
pub open spec fn is_untyped(stage: StageSpec, types: Seq<(String, TypeDef)>) -> bool {
    types.len() == 0 || (stage.input_type@ == "event"@ && stage.output_type@ == "event"@)
}

/// The interface of a stage that takes one type and gives another.
pub open spec fn process_text(takes: Seq<char>, gives: Seq<char>, differ: bool) -> Seq<char> {
    (if differ {
        "    use types.{"@ + takes + ", "@ + gives + ", bench-ctx};\n"@
    } else {
        "    use types.{"@ + takes + ", bench-ctx};\n"@
    }) + "    process-event: func(ev: "@ + takes + ", bench: bench-ctx) -> tuple<"@ + gives
        + ", bench-ctx>;\n"@
}

/// The interface description of a stage with declared types.
pub open spec fn typed_wit(stage: StageSpec, types: Seq<(String, TypeDef)>) -> Seq<char> {
    let names = type_names(types);
    let takes = wit_name(stage.input_type@);
    let gives = wit_name(stage.output_type@);
    let differ = stage.input_type@ != stage.output_type@;
    let records = record_text(takes, types[place_of(names, stage.input_type@)].1) + (if differ {
        record_text(gives, types[place_of(names, stage.output_type@)].1)
    } else {
        Seq::empty()
    });
    WIT_HEAD@ + records + WIT_BENCH@ + "}\n\ninterface process {\n"@ + process_text(
        takes,
        gives,
        differ,
    ) + "}\n\n"@ + WORLD@
}

/// A type of a stage that is not declared: which of the two.
#[derive(Clone, Copy, Debug, PartialEq, Eq, Structural)]
pub enum WitFault {
    Input,
    Output,
}

/// Describes the interface of a stage: with the records it takes and gives, or,
/// where the pipeline declares none, with the shared one.
pub fn make_typed_stage_wit(
    stage: &StageSpec,
    types: &Vec<(String, TypeDef)>,
    shared_wit: &str,
) -> (r: Result<String, WitFault>)
    ensures
        match r {
            Ok(out) => if is_untyped(*stage, types@) {
                out@ == before_worlds(shared_wit@) + "\n"@ + WORLD@
            } else {
                &&& has_name(type_names(types@), stage.input_type@)
                &&& has_name(type_names(types@), stage.output_type@)
                &&& out@ == typed_wit(*stage, types@)
            },
            Err(WitFault::Input) => !is_untyped(*stage, types@) && !has_name(
                type_names(types@),
                stage.input_type@,
            ),
            Err(WitFault::Output) => !is_untyped(*stage, types@) && has_name(
                type_names(types@),
                stage.input_type@,
            ) && !has_name(type_names(types@), stage.output_type@),
        },
{
    if types.len() == 0 || (same(stage.input_type.as_str(), "event") && same(
        stage.output_type.as_str(),
        "event",
    )) {
        return Ok(make_stage_wit_legacy(shared_wit));
    }
    let in_type = match find_type(types, stage.input_type.as_str()) {
        None => {
            return Err(WitFault::Input);
        },
        Some(t) => t,
    };
    let out_type = match find_type(types, stage.output_type.as_str()) {
        None => {
            return Err(WitFault::Output);
        },
        Some(t) => t,
    };
    let takes = to_wit_ident(stage.input_type.as_str());
    let gives = to_wit_ident(stage.output_type.as_str());
    let differ = !same(stage.input_type.as_str(), stage.output_type.as_str());
    let mut records = emit_record(takes.as_str(), in_type);
    let second = if differ {
        emit_record(gives.as_str(), out_type)
    } else {
        String::new()
    };
    assert(!differ ==> second@ =~= Seq::<char>::empty());
    records.append(second.as_str());
    let mut process = "    use types.{".to_owned();
    process.append(takes.as_str());
    if differ {
        process.append(", ");
        process.append(gives.as_str());
    }
    process.append(", bench-ctx};\n");
    process.append("    process-event: func(ev: ");
    process.append(takes.as_str());
    process.append(", bench: bench-ctx) -> tuple<");
    process.append(gives.as_str());
    process.append(", bench-ctx>;\n");
    let mut wit = WIT_HEAD.to_owned();
    wit.append(records.as_str());
    wit.append(WIT_BENCH);
    wit.append("}\n\ninterface process {\n");
    wit.append(process.as_str());
    wit.append("}\n\n");
    wit.append(WORLD);
    Ok(wit)
}

/// Law: the interface of a typed stage has the one world of a stage, and has it
/// last.
pub proof fn law_typed_wit_ends_in_the_world(stage: StageSpec, types: Seq<(String, TypeDef)>)
    ensures
        typed_wit(stage, types).len() >= WORLD@.len(),
        typed_wit(stage, types).skip(typed_wit(stage, types).len() - WORLD@.len()) == WORLD@,
{
    let all = typed_wit(stage, types);
    assert(all.skip(all.len() - WORLD@.len()) =~= WORLD@);
}

/// The glue of a stage is typed: it has types of its own, and both are declared.
pub open spec fn is_typed(stage: StageSpec, types: Seq<(String, TypeDef)>) -> bool {
    &&& !is_untyped(stage, types)
    &&& has_name(type_names(types), stage.input_type@)
    &&& has_name(type_names(types), stage.output_type@)
}

/// Some typed stage takes or gives the type.
pub open spec fn is_used(
    name: Seq<char>,
    stages: Seq<StageSpec>,
    types: Seq<(String, TypeDef)>,
) -> bool {
    exists|i: int|
        0 <= i < stages.len() && is_typed(#[trigger] stages[i], types) && (stages[i].input_type@
            == name || stages[i].output_type@ == name)
}

/// The head of the typed glue.
pub const DISPATCH_HEAD: &'static str = "// GENERATED by epico-cli. Do not edit — regenerated by `epico build`.\n//\n// Typed dispatch: concrete host-side mirrors of this pipeline's WIT\n// records. Field order matches the generated WIT (TypeDef BTreeMap\n// order); component names are the kebab-case WIT field names.\n\n#![allow(dead_code)]\n\nuse std::collections::HashMap;\nuse std::sync::Arc;\nuse epico_master::typed::{\nEventView, FromEvent, ToEvent, TypedDispatch, TypedStage, WireValue,\n};\nuse wasmtime::component::{ComponentType, Lift, Lower};\n\n";

/// One field of a type's declaration.
pub open spec fn struct_field(f: (String, String)) -> Seq<char> {
    (if wit_name(f.0@) != f.0@ {
        "    #[component(name = \""@ + wit_name(f.0@) + "\")]\n"@
    } else {
        Seq::empty()
    }) + ("    pub "@ + f.0@ + ": "@ + rust_type(f.1@) + ",\n"@)
}

/// How one field is read from an event: a field that may not be absent falls
/// back to the default.
pub open spec fn from_field(f: (String, String)) -> Seq<char> {
    "            "@ + f.0@ + ": v."@ + accessor(access_kind(f.1@)) + "_field(\""@ + f.0@ + "\")"@
        + (if is_optional(f.1@) {
        ",\n"@
    } else {
        ".unwrap_or_default(),\n"@
    })
}

/// The value of one field for an event.
pub open spec fn to_expr(f: (String, String)) -> Seq<char> {
    let k = access_kind(f.1@);
    if is_optional(f.1@) {
        "match &self."@ + f.0@ + " { Some(x) => WireValue::"@ + variant(k) + (if k
            == ValueKind::Str {
            "(x.clone())"@
        } else {
            "(*x)"@
        }) + ", None => WireValue::Absent }"@
    } else {
        "WireValue::"@ + variant(k) + "(self."@ + f.0@ + (if k == ValueKind::Str {
            ".clone())"@
        } else {
            ")"@
        })
    }
}

/// How one field is written to an event.
pub open spec fn to_field(f: (String, String)) -> Seq<char> {
    "        out.push((\""@ + f.0@ + "\", "@ + to_expr(f) + "));\n"@
}

pub open spec fn struct_fields(fields: Seq<(String, String)>) -> Seq<char>
    decreases fields.len(),
{
    if fields.len() == 0 {
        Seq::empty()
    } else {
        struct_fields(fields.drop_last()) + struct_field(fields.last())
    }
}

pub open spec fn from_fields(fields: Seq<(String, String)>) -> Seq<char>
    decreases fields.len(),
{
    if fields.len() == 0 {
        Seq::empty()
    } else {
        from_fields(fields.drop_last()) + from_field(fields.last())
    }
}

pub open spec fn to_fields(fields: Seq<(String, String)>) -> Seq<char>
    decreases fields.len(),
{
    if fields.len() == 0 {
        Seq::empty()
    } else {
        to_fields(fields.drop_last()) + to_field(fields.last())
    }
}

/// The glue of one type: its declaration, and how it comes from an event and
/// goes back to one.
pub open spec fn type_text(t: (String, TypeDef)) -> Seq<char> {
    let name = camel(t.0@);
    let fields = t.1.fields@;
    "#[derive(ComponentType, Lift, Lower, Clone, Debug)]\n#[component(record)]\npub struct "@ + name
        + " {\n"@ + struct_fields(fields) + "}\n\nimpl FromEvent for "@ + name
        + " {\n    fn from_event(v: &dyn EventView) -> Self {\n        Self {\n"@ + from_fields(
        fields,
    ) + "        }\n    }\n}\n\nimpl ToEvent for "@ + name
        + " {\n    fn to_fields(&self, out: &mut Vec<(&'static str, WireValue)>) {\n"@ + to_fields(
        fields,
    ) + "    }\n}\n\n"@
}

/// The glue of the types that are used, in their order.
pub open spec fn types_text(
    upto: Seq<(String, TypeDef)>,
    stages: Seq<StageSpec>,
    types: Seq<(String, TypeDef)>,
) -> Seq<char>
    decreases upto.len(),
{
    if upto.len() == 0 {
        Seq::empty()
    } else {
        types_text(upto.drop_last(), stages, types) + (if is_used(upto.last().0@, stages, types) {
            type_text(upto.last())
        } else {
            Seq::empty()
        })
    }
}

/// The types among some that are used, in their order.
pub open spec fn used_types(
    upto: Seq<(String, TypeDef)>,
    stages: Seq<StageSpec>,
    types: Seq<(String, TypeDef)>,
) -> Seq<(String, TypeDef)>
    decreases upto.len(),
{
    if upto.len() == 0 {
        Seq::empty()
    } else {
        let rest = used_types(upto.drop_last(), stages, types);
        if is_used(upto.last().0@, stages, types) {
            rest.push(upto.last())
        } else {
            rest
        }
    }
}

proof fn lemma_used_types(
    upto: Seq<(String, TypeDef)>,
    stages: Seq<StageSpec>,
    types: Seq<(String, TypeDef)>,
)
    requires
        is_ordered(upto),
    ensures
        is_ordered(used_types(upto, stages, types)),
        forall|i: int|
            0 <= i < used_types(upto, stages, types).len() ==> upto.contains(
                #[trigger] used_types(upto, stages, types)[i],
            ) && is_used(used_types(upto, stages, types)[i].0@, stages, types),
        forall|i: int|
            0 <= i < upto.len() && is_used((#[trigger] upto[i]).0@, stages, types)
                ==> used_types(upto, stages, types).contains(upto[i]),
        types_text(upto, stages, types) == flat(
            used_types(upto, stages, types).map_values(|t: (String, TypeDef)| type_text(t)),
        ),
    decreases upto.len(),
{
    let all = used_types(upto, stages, types);
    let f = |t: (String, TypeDef)| type_text(t);
    if upto.len() == 0 {
        assert(all.map_values(f) =~= Seq::<Seq<char>>::empty());
    } else {
        let d = upto.drop_last();
        lemma_used_types(d, stages, types);
        let rest = used_types(d, stages, types);
        assert forall|i: int| 0 <= i < all.len() implies upto.contains(#[trigger] all[i])
            && is_used(all[i].0@, stages, types) by {
            if i < rest.len() {
                let k = choose|k: int| 0 <= k < d.len() && d[k] == rest[i];
                assert(d.contains(rest[i]));
                assert(upto[k] == all[i]);
            } else {
                assert(upto[upto.len() - 1] == all[i]);
            }
        }
        assert forall|i: int|
            0 <= i < upto.len() && is_used((#[trigger] upto[i]).0@, stages, types) implies all.contains(
            upto[i],
        ) by {
            if i < d.len() {
                assert(d[i] == upto[i]);
                assert(rest.contains(d[i]));
                let k = choose|k: int| 0 <= k < rest.len() && rest[k] == d[i];
                assert(all[k] == upto[i]);
            } else {
                assert(all[all.len() - 1] == upto[i]);
            }
        }
        if is_used(upto.last().0@, stages, types) {
            assert(all.drop_last() =~= rest);
            assert(all.map_values(f).drop_last() =~= rest.map_values(f));
            assert forall|i: int, j: int| 0 <= i < j < all.len() implies crate::stats::text_less(
                (#[trigger] all[i]).0@,
                (#[trigger] all[j]).0@,
            ) by {
                if j == rest.len() {
                    assert(d.contains(rest[i]));
                    let k = choose|k: int| 0 <= k < d.len() && d[k] == rest[i];
                    assert(upto[k] == all[i]);
                }
            }
        } else {
            assert(types_text(upto, stages, types) =~= types_text(d, stages, types));
        }
    }
}

/// Law: the typed glue has one declaration for each declared type that a typed
/// stage takes or gives, and no other, in ascending order of their names.
pub proof fn law_one_struct_per_used_type(stages: Seq<StageSpec>, types: Seq<(String, TypeDef)>)
    requires
        are_ordered_types(types),
    ensures
        types_text(types, stages, types) == flat(
            used_types(types, stages, types).map_values(|t: (String, TypeDef)| type_text(t)),
        ),
        is_ordered(used_types(types, stages, types)),
        forall|i: int|
            0 <= i < used_types(types, stages, types).len() ==> types.contains(
                #[trigger] used_types(types, stages, types)[i],
            ) && is_used(used_types(types, stages, types)[i].0@, stages, types),
        forall|i: int|
            0 <= i < types.len() && is_used((#[trigger] types[i]).0@, stages, types)
                ==> used_types(types, stages, types).contains(types[i]),
{
    lemma_used_types(types, stages, types);
}

proof fn lemma_field_texts(fields: Seq<(String, String)>)
    ensures
        field_lines(fields) == flat(fields.map_values(|f: (String, String)| field_line(f))),
        struct_fields(fields) == flat(fields.map_values(|f: (String, String)| struct_field(f))),
        from_fields(fields) == flat(fields.map_values(|f: (String, String)| from_field(f))),
        to_fields(fields) == flat(fields.map_values(|f: (String, String)| to_field(f))),
    decreases fields.len(),
{
    let a = |f: (String, String)| field_line(f);
    let b = |f: (String, String)| struct_field(f);
    let c = |f: (String, String)| from_field(f);
    let d = |f: (String, String)| to_field(f);
    if fields.len() > 0 {
        let rest = fields.drop_last();
        lemma_field_texts(rest);
        assert(fields.map_values(a).drop_last() =~= rest.map_values(a));
        assert(fields.map_values(b).drop_last() =~= rest.map_values(b));
        assert(fields.map_values(c).drop_last() =~= rest.map_values(c));
        assert(fields.map_values(d).drop_last() =~= rest.map_values(d));
    }
}

/// Law: the interface of a typed stage has one record for each of its types, that
/// is one where it gives what it takes, and the declaration of a type in the glue
/// has the fields of its record: one line for each, in ascending order of their
/// names, in both.
pub proof fn law_records_and_structs_agree(
    stage: StageSpec,
    types: Seq<(String, TypeDef)>,
    i: int,
)
    requires
        are_ordered_types(types),
        is_typed(stage, types),
        0 <= i < types.len(),
    ensures
        is_ordered(types[i].1.fields@),
        field_lines(types[i].1.fields@) == flat(
            types[i].1.fields@.map_values(|f: (String, String)| field_line(f)),
        ),
        struct_fields(types[i].1.fields@) == flat(
            types[i].1.fields@.map_values(|f: (String, String)| struct_field(f)),
        ),
        typed_wit(stage, types) == WIT_HEAD@ + flat(stage_records(stage, types)) + WIT_BENCH@
            + "}\n\ninterface process {\n"@ + process_text(
            wit_name(stage.input_type@),
            wit_name(stage.output_type@),
            stage.input_type@ != stage.output_type@,
        ) + "}\n\n"@ + WORLD@,
        stage_records(stage, types).len() == if stage.input_type@ == stage.output_type@ {
            1int
        } else {
            2
        },
{
    lemma_field_texts(types[i].1.fields@);
    let names = type_names(types);
    let one = record_text(
        wit_name(stage.input_type@),
        types[place_of(names, stage.input_type@)].1,
    );
    let two = record_text(
        wit_name(stage.output_type@),
        types[place_of(names, stage.output_type@)].1,
    );
    let rs = stage_records(stage, types);
    assert(flat(Seq::<Seq<char>>::empty()) =~= Seq::<char>::empty());
    assert(seq![one].drop_last() =~= Seq::<Seq<char>>::empty());
    assert(flat(seq![one]) =~= one);
    assert(seq![one, two].drop_last() =~= seq![one]);
    assert(one + Seq::<char>::empty() =~= one);
}

/// The records of a stage's interface: of what it takes, and of what it gives
/// where that is another type.
pub open spec fn stage_records(stage: StageSpec, types: Seq<(String, TypeDef)>) -> Seq<Seq<char>> {
    let names = type_names(types);
    let one = record_text(
        wit_name(stage.input_type@),
        types[place_of(names, stage.input_type@)].1,
    );
    if stage.input_type@ == stage.output_type@ {
        seq![one]
    } else {
        seq![
            one,
            record_text(
                wit_name(stage.output_type@),
                types[place_of(names, stage.output_type@)].1,
            ),
        ]
    }
}

/// One line of the registry.
pub open spec fn registry_line(s: StageSpec) -> Seq<char> {
    "    m.insert(\""@ + s.name@ + "\".to_string(), Arc::new(TypedStage::<"@ + camel(s.input_type@)
        + ", "@ + camel(s.output_type@) + ">::new()));\n"@
}

/// The registry of the typed stages.
pub open spec fn registry_lines(upto: Seq<StageSpec>, types: Seq<(String, TypeDef)>) -> Seq<char>
    decreases upto.len(),
{
    if upto.len() == 0 {
        Seq::empty()
    } else {
        registry_lines(upto.drop_last(), types) + (if is_typed(upto.last(), types) {
            registry_line(upto.last())
        } else {
            Seq::empty()
        })
    }
}

/// The typed glue of a pipeline.
pub open spec fn dispatch_text(stages: Seq<StageSpec>, types: Seq<(String, TypeDef)>) -> Seq<char> {
    DISPATCH_HEAD@ + types_text(types, stages, types) + REGISTRY_HEAD@ + registry_lines(
        stages,
        types,
    ) + "    m\n}\n"@
}

/// The head of the registry.
pub const REGISTRY_HEAD: &'static str = "pub fn registry() -> HashMap<String, Arc<dyn TypedDispatch>> {\n    let mut m: HashMap<String, Arc<dyn TypedDispatch>> = HashMap::new();\n";

fn stage_is_typed(stage: &StageSpec, types: &Vec<(String, TypeDef)>) -> (b: bool)
    ensures
        b == is_typed(*stage, types@),
{
    if types.len() == 0 || (same(stage.input_type.as_str(), "event") && same(
        stage.output_type.as_str(),
        "event",
    )) {
        return false;
    }
    type_declared(types, stage.input_type.as_str()) && type_declared(
        types,
        stage.output_type.as_str(),
    )
}

fn type_is_used(name: &str, stages: &Vec<StageSpec>, types: &Vec<(String, TypeDef)>) -> (b: bool)
    ensures
        b == is_used(name@, stages@, types@),
{
    let mut i: usize = 0;
    while i < stages.len()
        invariant
            i <= stages@.len(),
            forall|k: int|
                0 <= k < i ==> !(is_typed(#[trigger] stages@[k], types@) && (
                stages@[k].input_type@ == name@ || stages@[k].output_type@ == name@)),
        decreases stages@.len() - i,
    {
        let st = &stages[i];
        if stage_is_typed(st, types) && (same(st.input_type.as_str(), name) || same(
            st.output_type.as_str(),
            name,
        )) {
            return true;
        }
        i = i + 1;
    }
    false
}

fn emit_struct_field(f: &(String, String)) -> (out: String)
    ensures
        out@ == struct_field(*f),
{
    let (rust, _optional, _kind) = yaml_type_to_rust(f.1.as_str());
    let wit = to_wit_ident(f.0.as_str());
    let mut mark = String::new();
    if !same(wit.as_str(), f.0.as_str()) {
        mark = "    #[component(name = \"".to_owned();
        mark.append(wit.as_str());
        mark.append("\")]\n");
    }
    assert(wit_name(f.0@) == f.0@ ==> mark@ =~= Seq::<char>::empty());
    let mut line = "    pub ".to_owned();
    line.append(f.0.as_str());
    line.append(": ");
    line.append(rust.as_str());
    line.append(",\n");
    let mut out = mark;
    out.append(line.as_str());
    out
}

fn emit_from_field(f: &(String, String)) -> (out: String)
    ensures
        out@ == from_field(*f),
{
    let (_rust, optional, kind) = yaml_type_to_rust(f.1.as_str());
    let mut out = "            ".to_owned();
    out.append(f.0.as_str());
    out.append(": v.");
    out.append(accessor_name(kind));
    out.append("_field(\"");
    out.append(f.0.as_str());
    out.append("\")");
    if optional {
        out.append(",\n");
    } else {
        out.append(".unwrap_or_default(),\n");
    }
    out
}

fn emit_to_expr(f: &(String, String)) -> (out: String)
    ensures
        out@ == to_expr(*f),
{
    let (_rust, optional, kind) = yaml_type_to_rust(f.1.as_str());
    if optional {
        let mut out = "match &self.".to_owned();
        out.append(f.0.as_str());
        out.append(" { Some(x) => WireValue::");
        out.append(wire_variant(kind));
        if kind == ValueKind::Str {
            out.append("(x.clone())");
        } else {
            out.append("(*x)");
        }
        out.append(", None => WireValue::Absent }");
        out
    } else {
        let mut out = "WireValue::".to_owned();
        out.append(wire_variant(kind));
        out.append("(self.");
        out.append(f.0.as_str());
        if kind == ValueKind::Str {
            out.append(".clone())");
        } else {
            out.append(")");
        }
        out
    }
}

fn emit_to_field(f: &(String, String)) -> (out: String)
    ensures
        out@ == to_field(*f),
{
    let expr = emit_to_expr(f);
    let mut out = "        out.push((\"".to_owned();
    out.append(f.0.as_str());
    out.append("\", ");
    out.append(expr.as_str());
    out.append("));\n");
    out
}

fn emit_type(t: &(String, TypeDef)) -> (out: String)
    ensures
        out@ == type_text(*t),
{
    let ghost fields = t.1.fields@;
    let mut decls = String::new();
    let mut reads = String::new();
    let mut writes = String::new();
    let mut i: usize = 0;
    assert(fields.take(0) =~= Seq::<(String, String)>::empty());
    assert(decls@ =~= Seq::<char>::empty());
    assert(reads@ =~= Seq::<char>::empty());
    assert(writes@ =~= Seq::<char>::empty());
    while i < t.1.fields.len()
        invariant
            i <= t.1.fields@.len(),
            fields == t.1.fields@,
            decls@ == struct_fields(fields.take(i as int)),
            reads@ == from_fields(fields.take(i as int)),
            writes@ == to_fields(fields.take(i as int)),
        decreases t.1.fields@.len() - i,
    {
        assert(fields.take(i + 1).drop_last() =~= fields.take(i as int));
        let f = &t.1.fields[i];
        let d = emit_struct_field(f);
        let r = emit_from_field(f);
        let w = emit_to_field(f);
        decls.append(d.as_str());
        reads.append(r.as_str());
        writes.append(w.as_str());
        i = i + 1;
    }
    assert(fields.take(i as int) =~= fields);
    let name = camel_case(t.0.as_str());
    let mut out =
        "#[derive(ComponentType, Lift, Lower, Clone, Debug)]\n#[component(record)]\npub struct ".to_owned();
    out.append(name.as_str());
    out.append(" {\n");
    out.append(decls.as_str());
    out.append("}\n\nimpl FromEvent for ");
    out.append(name.as_str());
    out.append(" {\n    fn from_event(v: &dyn EventView) -> Self {\n        Self {\n");
    out.append(reads.as_str());
    out.append("        }\n    }\n}\n\nimpl ToEvent for ");
    out.append(name.as_str());
    out.append(" {\n    fn to_fields(&self, out: &mut Vec<(&'static str, WireValue)>) {\n");
    out.append(writes.as_str());
    out.append("    }\n}\n\n");
    out
}

/// Writes the typed glue of a pipeline: the types that its stages use, how each
/// comes from an event and goes back to one, and which stage has which.
pub fn emit_typed_dispatch(stages: &Vec<StageSpec>, types: &Vec<(String, TypeDef)>) -> (out: String)
    ensures
        out@ == dispatch_text(stages@, types@),
        are_ordered_types(types@) ==> {
            let used = used_types(types@, stages@, types@);
            &&& is_ordered(used)
            &&& out@ == DISPATCH_HEAD@ + flat(
                used.map_values(|t: (String, TypeDef)| type_text(t)),
            ) + REGISTRY_HEAD@ + registry_lines(stages@, types@) + "    m\n}\n"@
        },
{
    proof {
        if are_ordered_types(types@) {
            law_one_struct_per_used_type(stages@, types@);
        }
    }
    let mut blocks = String::new();
    let mut i: usize = 0;
    assert(types@.take(0) =~= Seq::<(String, TypeDef)>::empty());
    assert(blocks@ =~= Seq::<char>::empty());
    while i < types.len()
        invariant
            i <= types@.len(),
            blocks@ == types_text(types@.take(i as int), stages@, types@),
        decreases types@.len() - i,
    {
        assert(types@.take(i + 1).drop_last() =~= types@.take(i as int));
        let ghost was = blocks@;
        if type_is_used(types[i].0.as_str(), stages, types) {
            let b = emit_type(&types[i]);
            blocks.append(b.as_str());
        } else {
            assert(was + Seq::<char>::empty() =~= was);
        }
        i = i + 1;
    }
    assert(types@.take(i as int) =~= types@);
    let mut lines = String::new();
    let mut j: usize = 0;
    assert(stages@.take(0) =~= Seq::<StageSpec>::empty());
    assert(lines@ =~= Seq::<char>::empty());
    while j < stages.len()
        invariant
            j <= stages@.len(),
            lines@ == registry_lines(stages@.take(j as int), types@),
        decreases stages@.len() - j,
    {
        assert(stages@.take(j + 1).drop_last() =~= stages@.take(j as int));
        let st = &stages[j];
        let ghost was = lines@;
        if stage_is_typed(st, types) {
            let takes = camel_case(st.input_type.as_str());
            let gives = camel_case(st.output_type.as_str());
            let mut line = "    m.insert(\"".to_owned();
            line.append(st.name.as_str());
            line.append("\".to_string(), Arc::new(TypedStage::<");
            line.append(takes.as_str());
            line.append(", ");
            line.append(gives.as_str());
            line.append(">::new()));\n");
            lines.append(line.as_str());
        } else {
            assert(was + Seq::<char>::empty() =~= was);
        }
        j = j + 1;
    }
    assert(stages@.take(j as int) =~= stages@);
    let mut out = DISPATCH_HEAD.to_owned();
    out.append(blocks.as_str());
    out.append(REGISTRY_HEAD);
    out.append(lines.as_str());
    out.append("    m\n}\n");
    out
}

} // verus!
