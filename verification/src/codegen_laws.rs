//! What the generated glue promises: both sides of it speak of the same types.

use vstd::prelude::*;
use crate::codegen::{
    access_kind, accessor, base_type, field_line, field_lines, from_field, from_fields,
    is_optional, kind_of, process_text, record_text, rust_kind, rust_type, struct_field,
    struct_fields, to_expr, to_field, to_fields, typed_wit, variant, wit_kind, wit_name,
    wit_type, ValueKind, WIT_BENCH, WIT_HEAD, WORLD,
};
use crate::config::place_of;
use crate::pipeline_spec::{type_names, StageSpec, TypeDef};
use crate::text::{contains_text, lowered, occurs_at};

verus! {

/// Law: every kind of value is known by the name that the interface has for it.
pub proof fn law_kinds_are_known_by_name(k: ValueKind)
    ensures
        kind_of(wit_kind(k)) == Some(k),
{
    reveal_strlit("string");
    reveal_strlit("str");
    reveal_strlit("f64");
    reveal_strlit("float");
    reveal_strlit("double");
    reveal_strlit("f32");
    reveal_strlit("float32");
    reveal_strlit("u64");
    reveal_strlit("uint64");
    reveal_strlit("u32");
    reveal_strlit("uint32");
    reveal_strlit("uint");
    reveal_strlit("s64");
    reveal_strlit("int64");
    reveal_strlit("int");
    reveal_strlit("s32");
    reveal_strlit("int32");
    reveal_strlit("bool");
    reveal_strlit("boolean");
    let w = wit_kind(k);
    assert("f64"@[0] == 'f' && "f64"@[1] == '6' && "f32"@[1] == '3');
    assert("u64"@[0] == 'u' && "u64"@[1] == '6' && "u32"@[0] == 'u' && "u32"@[1] == '3');
    assert("s64"@[0] == 's' && "s64"@[1] == '6' && "s32"@[0] == 's' && "s32"@[1] == '3');
    assert("str"@[1] == 't' && "int"@[0] == 'i' && "bool"@[0] == 'b' && "uint"@[0] == 'u');
    assert("double"@[0] == 'd' && "string"@[0] == 's' && "uint64"@[0] == 'u' && "uint32"@[0] == 'u');
}

/// Law: the two sides of the glue have the same number of bits and the same sign for a value:
/// the names differ only in the letter for signed numbers and in that for text.
pub proof fn law_kinds_agree(k: ValueKind)
    ensures
        k == ValueKind::Str || k == ValueKind::S64 || k == ValueKind::S32 ==> wit_kind(k)
            != rust_kind(k),
        k == ValueKind::S64 || k == ValueKind::S32 ==> wit_kind(k)[0] == 's' && rust_kind(k)[0]
            == 'i' && wit_kind(k).skip(1) == rust_kind(k).skip(1),
        !(k == ValueKind::Str || k == ValueKind::S64 || k == ValueKind::S32) ==> wit_kind(k)
            == rust_kind(k),
        k != ValueKind::Str ==> accessor(k) == wit_kind(k),
        k == ValueKind::Str ==> accessor(k) == wit_kind(k).take(3),
        variant(k).len() == accessor(k).len(),
        variant(k).skip(1) == accessor(k).skip(1),
        lowered(variant(k)) == accessor(k),
{
    reveal_strlit("string");
    reveal_strlit("String");
    reveal_strlit("str");
    reveal_strlit("Str");
    reveal_strlit("f64");
    reveal_strlit("F64");
    reveal_strlit("f32");
    reveal_strlit("F32");
    reveal_strlit("u64");
    reveal_strlit("U64");
    reveal_strlit("u32");
    reveal_strlit("U32");
    reveal_strlit("s64");
    reveal_strlit("S64");
    reveal_strlit("i64");
    reveal_strlit("s32");
    reveal_strlit("S32");
    reveal_strlit("i32");
    reveal_strlit("bool");
    reveal_strlit("Bool");
    assert("string"@[0] == 's' && "String"@[0] == 'S');
    assert("s64"@[0] == 's' && "i64"@[0] == 'i' && "s32"@[0] == 's' && "i32"@[0] == 'i');
    assert(wit_kind(ValueKind::S64).skip(1) =~= rust_kind(ValueKind::S64).skip(1));
    assert(wit_kind(ValueKind::S32).skip(1) =~= rust_kind(ValueKind::S32).skip(1));
    assert(accessor(ValueKind::Str) =~= wit_kind(ValueKind::Str).take(3));
    assert(variant(k).skip(1) =~= accessor(k).skip(1));
    assert(lowered(variant(k)) =~= accessor(k));
}

/// Law: a value that may be absent is one on both sides, of the same kind.
pub proof fn law_optional_types_agree(t: Seq<char>)
    requires
        kind_of(base_type(t)) is Some,
    ensures
        access_kind(t) == kind_of(base_type(t))->0,
        t.len() > 0 && t.last() == '?' ==> wit_type(t) == "option<"@ + wit_kind(access_kind(t))
            + ">"@ && rust_type(t) == "Option<"@ + rust_kind(access_kind(t)) + ">"@ && base_type(t)
            == t.drop_last(),
        !(t.len() > 0 && t.last() == '?') ==> wit_type(t) == wit_kind(access_kind(t)) && rust_type(
            t,
        ) == rust_kind(access_kind(t)) && base_type(t) == t,
{
}

proof fn lemma_within(a: Seq<char>, b: Seq<char>, c: Seq<char>)
    ensures
        contains_text(a + b + c, b),
{
    let i = a.len() as int;
    assert((a + b + c).subrange(i, i + b.len()) =~= b);
    assert(occurs_at(a + b + c, b, i));
}

proof fn lemma_deeper(s: Seq<char>, t: Seq<char>, p: Seq<char>)
    requires
        contains_text(s, t),
        contains_text(t, p),
    ensures
        contains_text(s, p),
{
    let i = choose|i: int| occurs_at(s, t, i);
    let k = choose|k: int| occurs_at(t, p, k);
    assert(s.subrange(i + k, i + k + p.len()) =~= s.subrange(i, i + t.len()).subrange(
        k,
        k + p.len(),
    ));
    assert(occurs_at(s, p, i + k));
}

proof fn lemma_ahead(front: Seq<char>, own: Seq<char>, p: Seq<char>)
    ensures
        contains_text(front, p) ==> contains_text(front + own, p),
        contains_text(own, p) ==> contains_text(front + own, p),
{
    let e = Seq::<char>::empty();
    lemma_within(e, front, own);
    lemma_within(front, own, e);
    assert(e + front + own =~= front + own);
    assert(front + own + e =~= front + own);
    if contains_text(front, p) {
        lemma_deeper(front + own, front, p);
    }
    if contains_text(own, p) {
        lemma_deeper(front + own, own, p);
    }
}

/// What the record of the interface says of a field.
pub open spec fn wit_field(f: (String, String)) -> Seq<char> {
    wit_name(f.0@) + ": "@ + wit_type(f.1@) + ",\n"@
}

/// What the struct of the host says of it.
pub open spec fn host_field(f: (String, String)) -> Seq<char> {
    "pub "@ + f.0@ + ": "@ + rust_type(f.1@) + ",\n"@
}

/// How it is read from an event.
pub open spec fn reading(f: (String, String)) -> Seq<char> {
    f.0@ + ": v."@ + accessor(access_kind(f.1@)) + "_field(\""@ + f.0@ + "\")"@
}

/// How it is written to one.
pub open spec fn writing(f: (String, String)) -> Seq<char> {
    "out.push((\""@ + f.0@ + "\", "@ + to_expr(f) + "));\n"@
}

proof fn lemma_behind(a: Seq<char>, b: Seq<char>, c: Seq<char>, d: Seq<char>, e: Seq<char>)
    ensures
        contains_text(a + b + c + d + e, b + c + d + e),
{
    let z = Seq::<char>::empty();
    lemma_regrouped(a, b, c);
    lemma_regrouped(a, b + c, d);
    lemma_regrouped(a, b + c + d, e);
    let t = b + c + d + e;
    lemma_within(a, t, z);
    assert(a + t + z =~= a + t);
}

proof fn lemma_regrouped(x: Seq<char>, y: Seq<char>, z: Seq<char>)
    ensures
        x + y + z == x + (y + z),
{
    assert(x + y + z =~= x + (y + z));
}

proof fn lemma_wit_field(f: (String, String))
    ensures
        contains_text(field_line(f), wit_field(f)),
{
    lemma_behind("        "@, wit_name(f.0@), ": "@, wit_type(f.1@), ",\n"@);
}

proof fn lemma_host_field(f: (String, String))
    ensures
        contains_text(struct_field(f), host_field(f)),
{
    let e = Seq::<char>::empty();
    reveal_strlit("    pub ");
    reveal_strlit("pub ");
    reveal_strlit("    ");
    assert("    "@ + "pub "@ =~= "    pub "@);
    let name = if wit_name(f.0@) != f.0@ {
        "    #[component(name = \""@ + wit_name(f.0@) + "\")]\n"@
    } else {
        e
    };
    let rest = f.0@ + ": "@ + rust_type(f.1@) + ",\n"@;
    assert("    pub "@ + f.0@ + ": "@ + rust_type(f.1@) + ",\n"@ =~= "    pub "@ + rest);
    assert(host_field(f) =~= "pub "@ + rest);
    assert(struct_field(f) =~= name + ("    pub "@ + rest));
    lemma_within(name + "    "@, host_field(f), e);
    assert((name + "    "@) + host_field(f) + e =~= struct_field(f));
}

proof fn lemma_reading(f: (String, String))
    ensures
        contains_text(from_field(f), reading(f)),
{
    let tail = if is_optional(f.1@) {
        ",\n"@
    } else {
        ".unwrap_or_default(),\n"@
    };
    lemma_within("            "@, reading(f), tail);
    assert("            "@ + reading(f) + tail =~= from_field(f));
}

proof fn lemma_writing(f: (String, String))
    ensures
        contains_text(to_field(f), writing(f)),
{
    let e = Seq::<char>::empty();
    let x = to_expr(f);
    reveal_strlit("        out.push((\"");
    reveal_strlit("out.push((\"");
    reveal_strlit("        ");
    assert("        "@ + "out.push((\""@ =~= "        out.push((\""@);
    let rest = f.0@ + "\", "@ + x + "));\n"@;
    assert(to_field(f) =~= "        out.push((\""@ + rest);
    assert(writing(f) =~= "out.push((\""@ + rest);
    lemma_within("        "@, writing(f), e);
    assert("        "@ + writing(f) + e =~= to_field(f));
}

/// Law: every field of a type is in the record of the interface, with its type, and in the
/// struct of the host, with the type there.
pub proof fn law_every_field_is_there(fields: Seq<(String, String)>, i: int)
    requires
        0 <= i < fields.len(),
    ensures
        contains_text(field_lines(fields), wit_field(fields[i])),
        contains_text(struct_fields(fields), host_field(fields[i])),
    decreases fields.len(),
{
    let front = fields.drop_last();
    if i < fields.len() - 1 {
        law_every_field_is_there(front, i);
    } else {
        lemma_wit_field(fields[i]);
        lemma_host_field(fields[i]);
    }
    lemma_ahead(field_lines(front), field_line(fields.last()), wit_field(fields[i]));
    lemma_ahead(struct_fields(front), struct_field(fields.last()), host_field(fields[i]));
}

/// Law: every field is read from an event and written to one under its own name, and by what
/// fits its kind.
pub proof fn law_every_field_is_read_and_written(fields: Seq<(String, String)>, i: int)
    requires
        0 <= i < fields.len(),
    ensures
        contains_text(from_fields(fields), reading(fields[i])),
        contains_text(to_fields(fields), writing(fields[i])),
    decreases fields.len(),
{
    let front = fields.drop_last();
    if i < fields.len() - 1 {
        law_every_field_is_read_and_written(front, i);
    } else {
        lemma_reading(fields[i]);
        lemma_writing(fields[i]);
    }
    lemma_ahead(from_fields(front), from_field(fields.last()), reading(fields[i]));
    lemma_ahead(to_fields(front), to_field(fields.last()), writing(fields[i]));
}

/// Law: a stage's interface takes an event of the stage's input type and gives one of its
/// output type, and it declares both.
pub proof fn law_interfaces_take_and_give(stage: StageSpec, types: Seq<(String, TypeDef)>)
    ensures
        ({
            let takes = wit_name(stage.input_type@);
            let gives = wit_name(stage.output_type@);
            let wit = typed_wit(stage, types);
            &&& contains_text(wit, "func(ev: "@ + takes + ", bench: bench-ctx) -> tuple<"@ + gives)
            &&& contains_text(
                wit,
                record_text(takes, types[place_of(type_names(types), stage.input_type@)].1),
            )
            &&& contains_text(
                wit,
                record_text(gives, types[place_of(type_names(types), stage.output_type@)].1),
            )
        }),
{
    let takes = wit_name(stage.input_type@);
    let gives = wit_name(stage.output_type@);
    let differ = stage.input_type@ != stage.output_type@;
    let a = record_text(takes, types[place_of(type_names(types), stage.input_type@)].1);
    let b = record_text(gives, types[place_of(type_names(types), stage.output_type@)].1);
    let e = Seq::<char>::empty();
    let second = if differ {
        b
    } else {
        e
    };
    let wit = typed_wit(stage, types);
    let process = process_text(takes, gives, differ);
    let mid = "}\n\ninterface process {\n"@;
    let end = "}\n\n"@ + WORLD@;
    let behind = WIT_BENCH@ + mid + process + end;
    assert(wit =~= WIT_HEAD@ + a + (second + behind));
    lemma_within(WIT_HEAD@, a, second + behind);
    assert(wit =~= (WIT_HEAD@ + a) + second + behind);
    lemma_within(WIT_HEAD@ + a, second, behind);
    assert(wit =~= (WIT_HEAD@ + a + second + WIT_BENCH@ + mid) + process + end);
    lemma_within(WIT_HEAD@ + a + second + WIT_BENCH@ + mid, process, end);
    let uses = if differ {
        "    use types.{"@ + takes + ", "@ + gives + ", bench-ctx};\n"@
    } else {
        "    use types.{"@ + takes + ", bench-ctx};\n"@
    };
    let sig = "func(ev: "@ + takes + ", bench: bench-ctx) -> tuple<"@ + gives;
    reveal_strlit("    process-event: func(ev: ");
    reveal_strlit("func(ev: ");
    let lead = "    process-event: func(ev: "@.take(19);
    assert(lead + "func(ev: "@ =~= "    process-event: func(ev: "@);
    assert(process =~= (uses + lead) + sig + ", bench-ctx>;\n"@);
    lemma_within(uses + lead, sig, ", bench-ctx>;\n"@);
    lemma_deeper(wit, process, sig);
}

} // verus!
