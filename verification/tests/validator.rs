//! Whether the components of a pipeline can be run, and fit together.

use epico::signature::{read_signature, RecordInfo};
use epico::validator::{
    check_neighbours, check_pairs, describe_stage, judge_component, validate_components,
    validate_pipeline_components, ComponentFault, FieldError, Part, StageSignature,
    ValidationError,
};

fn bytes_of(head: &[u8], rest: &[&[u8]]) -> Vec<u8> {
    let mut v = head.to_vec();
    for r in rest {
        v.extend_from_slice(r);
    }
    v
}

fn core_module() -> Vec<u8> {
    bytes_of(b"\0asm", &[&[1, 0, 0, 0]])
}

fn empty_component() -> Vec<u8> {
    bytes_of(b"\0asm", &[&[0x0d, 0, 1, 0]])
}

/// A component whose interface has no function.
fn hollow_component() -> Vec<u8> {
    bytes_of(
        b"\0asm",
        &[
            &[0x0d, 0, 1, 0],
            &[0x05, 0x03, 0x01, 0x01, 0x00],
            &[0x0b, 0x22, 0x01, 0x00, 0x1c],
            b"epico:pipeline/process@0.1.0",
            &[0x05, 0x00, 0x00],
        ],
    )
}

fn named(name: &str) -> Vec<u8> {
    bytes_of(&[name.len() as u8], &[name.as_bytes()])
}

fn section(id: u8, content: Vec<u8>) -> Vec<u8> {
    assert!(content.len() < 0x4000);
    let low = content.len() as u8 & 0x7f | 0x80;
    bytes_of(&[id, low, (content.len() >> 7) as u8], &[&content])
}

const BOOL: u8 = 0x7f;
const U32: u8 = 0x79;
const F64: u8 = 0x75;
const STRING: u8 = 0x73;

/// A component that hands on an instance with `process-event`, which takes one
/// record and gives another beside a truth value. The types of fields are given
/// by their codes; a field of `option<u32>` by zero, one of `list<u32>` by one.
fn component(takes: &[(&str, u8)], gives: &[(&str, u8)]) -> Vec<u8> {
    component_with(&[], takes, gives)
}

/// The same, with types of its own, from the code two on. Variants, flags and
/// enumerations stand again behind themselves under a name, with the next code.
fn component_with(own: &[Vec<u8>], takes: &[(&str, u8)], gives: &[(&str, u8)]) -> Vec<u8> {
    let record = |fields: &[(&str, u8)]| {
        let mut out = vec![0x01, 0x72, fields.len() as u8];
        for (n, t) in fields {
            out.extend(named(n));
            out.push(*t);
        }
        out
    };
    let export = |name: &str, what: &[u8]| bytes_of(&[0x04, 0x00], &[&named(name), what]);
    let mut types: Vec<u8> = Vec::new();
    let mut n = 0;
    for t in own {
        types.push(0x01);
        types.extend(t);
        n += 1;
        if needs_a_name(t) {
            types.extend(export(&format!("t{n}"), &[0x03, 0x00, 1 + n]));
            n += 1;
        }
    }
    let instance = bytes_of(
        &[1, 0x42, 9 + n],
        &[
            &[0x01, 0x6b, U32],
            &[0x01, 0x70, U32],
            &types,
            &record(takes),
            &export("takes", &[0x03, 0x00, 2 + n]),
            &record(gives),
            &export("gives", &[0x03, 0x00, 4 + n]),
            &[0x01, 0x6f, 2, 5 + n, BOOL],
            &[0x01, 0x40, 1, 2, b'e', b'v', 3 + n, 0x00, 6 + n],
            &export("process-event", &[0x01, 7 + n]),
        ],
    );
    let import = bytes_of(&[1, 0x00], &[&named("host"), &[0x05, 0]]);
    let out = bytes_of(&[1, 0x00], &[&named("epico:pipeline/process@0.1.0"), &[0x05, 0, 0]]);
    bytes_of(
        b"\0asm",
        &[
            &[0x0d, 0, 1, 0],
            &section(0x07, instance),
            &section(0x0a, import),
            &section(0x0b, out),
        ],
    )
}

fn needs_a_name(t: &[u8]) -> bool {
    matches!(t[0], 0x6d | 0x6e | 0x71)
}

fn stage_component() -> Vec<u8> {
    component(&[("id", STRING), ("value", F64)], &[("id", STRING), ("value", F64)])
}

fn stages(n: usize) -> Vec<(String, String)> {
    (0..n).map(|i| (format!("fn-{i}"), format!("/w/{i}.wasm"))).collect()
}

#[test]
fn components_are_judged_by_their_bytes() {
    let ok = validate_pipeline_components(
        &stages(2),
        &vec![Some(stage_component()), Some(stage_component())],
    );
    assert!(ok.is_ok());
    let judge = |file: Option<Vec<u8>>| match validate_pipeline_components(
        &stages(2),
        &vec![Some(stage_component()), file],
    ) {
        Err(ValidationError::Component(1, f)) => f,
        _ => panic!("the second component was to be refused"),
    };
    assert!(matches!(judge(None), ComponentFault::Unreadable));
    assert!(matches!(judge(Some(b"hello".to_vec())), ComponentFault::NotWasm));
    assert!(matches!(judge(Some(core_module())), ComponentFault::CoreModule));
    assert!(matches!(judge(Some(empty_component())), ComponentFault::NoProcess));
    assert!(matches!(judge(Some(hollow_component())), ComponentFault::NoFunction));
    let mut cut = stage_component();
    cut.truncate(20);
    assert!(matches!(judge(Some(cut)), ComponentFault::NotWasm));
    assert!(matches!(
        validate_pipeline_components(&vec![], &vec![]),
        Err(ValidationError::NoStages)
    ));
    let refusal = validate_pipeline_components(&vec![], &vec![]).err().unwrap();
    assert_eq!(refusal.message(&vec![]), "pipeline is empty");
    let refusal = validate_pipeline_components(&stages(1), &vec![None]).err().unwrap();
    assert_eq!(refusal.message(&stages(1)), "failed to read wasm file \"/w/0.wasm\"");
}

#[test]
fn a_component_is_judged_by_its_parts() {
    let process = || Part::Exports(vec![Some("epico:pipeline/process@0.1.0".into())]);
    assert!(judge_component(true, &vec![Part::Head(true), process()], true).is_none());
    assert!(matches!(
        judge_component(true, &vec![Part::Head(true), Part::Broken], true),
        Some(ComponentFault::BrokenBinary)
    ));
    assert!(matches!(
        judge_component(true, &vec![Part::Head(true), Part::Exports(vec![None])], true),
        Some(ComponentFault::BrokenExport)
    ));
    assert!(matches!(
        judge_component(true, &vec![Part::Head(false), process()], true),
        Some(ComponentFault::CoreModule)
    ));
    assert!(matches!(judge_component(false, &vec![], true), Some(ComponentFault::NotWasm)));
    assert!(matches!(
        judge_component(true, &vec![Part::Head(true), process()], false),
        Some(ComponentFault::NoFunction)
    ));
}

fn sig(name: &str, input: Option<Vec<(&str, &str)>>, output: Option<Vec<(&str, &str)>>) -> StageSignature {
    let record = |r: Option<Vec<(&str, &str)>>| {
        r.map(|fs| RecordInfo {
            fields: fs.into_iter().map(|(n, t)| (n.into(), t.into(), false)).collect(),
        })
    };
    StageSignature {
        stage_name: name.into(),
        wasm_path: format!("/w/{name}.wasm"),
        input: record(input),
        output: record(output),
    }
}

#[test]
fn neighbours_must_agree_on_their_fields() {
    let fits = vec![
        sig("a", None, Some(vec![("x", "u32"), ("y", "string")])),
        sig("b", Some(vec![("x", "u32")]), None),
        sig("c", None, None),
    ];
    assert!(check_neighbours(&fits).is_ok());
    assert!(describe_stage(&fits[0]).contains("a"));

    let differs = vec![
        sig("a", None, Some(vec![("x", "u32")])),
        sig("b", Some(vec![("x", "f64")]), None),
    ];
    let e: FieldError = check_neighbours(&differs).err().unwrap();
    assert_eq!((e.pair, e.field), (0, 0));
    assert_eq!(e.given.as_deref(), Some("u32"));
    assert_eq!(
        e.message(),
        "PIPELINE TYPE ERROR: a -> b: field \"x\" has type \"u32\" in output but \"f64\" in input"
    );

    let missing = vec![
        sig("a", None, Some(vec![])),
        sig("b", Some(vec![("x", "f64")]), None),
    ];
    let e = check_neighbours(&missing).err().unwrap();
    assert!(e.given.is_none());
    assert_eq!(
        e.message(),
        "PIPELINE TYPE ERROR: a -> b: field \"x\" (f64) is required by \"b\" input but not present in \"a\" output"
    );
}

#[test]
fn a_refusal_says_which_stage_and_which_file() {
    for f in [
        ComponentFault::Unreadable,
        ComponentFault::NotWasm,
        ComponentFault::BrokenBinary,
        ComponentFault::BrokenExport,
        ComponentFault::CoreModule,
        ComponentFault::NoProcess,
        ComponentFault::NoFunction,
    ] {
        let m = f.message("fn-relay", "/w/fn_relay.wasm");
        assert!(m.contains("fn-relay") || m.contains("fn_relay"), "{m}");
    }
}

#[test]
fn records_that_fit_are_reported() {
    let files = vec![
        Some(component(&[("id", STRING)], &[("id", STRING), ("value", F64)])),
        Some(component(&[("value", F64), ("note", 0)], &[("id", STRING)])),
    ];
    let report = validate_pipeline_components(&stages(2), &files).ok().unwrap();
    assert_eq!(
        report,
        vec![
            "[fn-0] OK: exports process-event (1 fields in, 2 fields out)",
            "[fn-1] OK: exports process-event (2 fields in, 1 fields out)",
            "[fn-0 -> fn-1] types compatible",
        ]
    );
}

#[test]
fn records_that_do_not_fit_are_refused_before_any_event() {
    let first = || Some(component(&[("id", STRING)], &[("id", STRING), ("value", F64)]));
    let refuse = |takes: &[(&str, u8)]| {
        let files = vec![first(), Some(component(takes, &[("id", STRING)]))];
        match validate_pipeline_components(&stages(2), &files) {
            Err(ValidationError::Field(e)) => e,
            _ => panic!("the fields were not to fit"),
        }
    };
    let missing = refuse(&[("id", STRING), ("seq", U32)]);
    assert_eq!((missing.pair, missing.field), (0, 1));
    assert_eq!(
        missing.message(),
        "PIPELINE TYPE ERROR: fn-0 -> fn-1: field \"seq\" (u32) is required by \"fn-1\" input but not present in \"fn-0\" output"
    );
    let differs = refuse(&[("value", U32)]);
    assert_eq!(
        differs.message(),
        "PIPELINE TYPE ERROR: fn-0 -> fn-1: field \"value\" has type \"f64\" in output but \"u32\" in input"
    );
    let optional = refuse(&[("value", 0)]);
    assert_eq!((optional.taken.as_str(), optional.given.as_deref()), ("u32", Some("f64")));
    let list = refuse(&[("value", 1)]);
    assert_eq!(list.taken, "list<u32>");
}

#[test]
fn only_stages_that_are_joined_are_compared() {
    let files = vec![
        Some(component(&[("id", STRING)], &[("id", STRING)])),
        Some(component(&[("id", STRING)], &[("other", U32)])),
        Some(component(&[("id", STRING)], &[("id", STRING)])),
    ];
    assert!(validate_pipeline_components(&stages(3), &files).is_err());
    let report = validate_components(&stages(3), &files, &vec![(0, 1), (0, 2)]).ok().unwrap();
    assert_eq!(report.len(), 5);
    assert_eq!(report[4], "[fn-0 -> fn-2] types compatible");
    let sigs = vec![
        sig("a", None, Some(vec![("x", "u32")])),
        sig("b", Some(vec![("x", "f64")]), None),
        sig("c", Some(vec![("x", "u32")]), None),
    ];
    assert!(check_pairs(&sigs, &vec![(0, 2)]).is_ok());
    assert_eq!(check_pairs(&sigs, &vec![(0, 2), (0, 1)]).err().unwrap().pair, 1);
}

/// What comes of joining two stages whose one field is of the last of some types.
fn joined(given: &[Vec<u8>], taken: &[Vec<u8>]) -> Option<(String, String)> {
    let last = |own: &[Vec<u8>]| 1 + own.iter().map(|t| 1 + needs_a_name(t) as u8).sum::<u8>();
    let files = vec![
        Some(component_with(given, &[("id", STRING)], &[("x", last(given))])),
        Some(component_with(taken, &[("x", last(taken))], &[("id", STRING)])),
    ];
    match validate_pipeline_components(&stages(2), &files) {
        Ok(_) => None,
        Err(ValidationError::Field(e)) => Some((e.given.unwrap(), e.taken)),
        Err(ValidationError::Component(i, f)) => panic!("{i}: {}", f.message("?", "?")),
        Err(ValidationError::NoStages) => panic!("no stages"),
    }
}

fn names(code: u8, all: &[&str]) -> Vec<u8> {
    let mut out = vec![code, all.len() as u8];
    for n in all {
        out.extend(named(n));
    }
    out
}

fn variant(cases: &[(&str, Option<u8>)]) -> Vec<u8> {
    let mut out = vec![0x71, cases.len() as u8];
    for (n, t) in cases {
        out.extend(named(n));
        match t {
            None => out.push(0),
            Some(t) => out.extend([1, *t]),
        }
        out.push(0);
    }
    out
}

#[test]
fn types_of_every_kind_are_told_apart() {
    let both = |a: Vec<u8>, b: Vec<u8>| {
        assert!(joined(&[a.clone()], &[a.clone()]).is_none());
        assert!(joined(&[b.clone()], &[b.clone()]).is_none());
        joined(&[a], &[b]).unwrap()
    };
    let pair = |a: &str, b: &str| (a.to_string(), b.to_string());
    assert_eq!(
        both(names(0x6d, &["red", "green"]), names(0x6d, &["red", "blue"])),
        pair("enum {red, green}", "enum {red, blue}")
    );
    assert_eq!(
        both(names(0x6e, &["read"]), names(0x6e, &["read", "write"])),
        pair("flags {read}", "flags {read, write}")
    );
    assert_eq!(
        both(names(0x6e, &["a"]), names(0x6d, &["a"])),
        pair("flags {a}", "enum {a}")
    );
    assert_eq!(
        both(
            variant(&[("none", None), ("some", Some(U32))]),
            variant(&[("none", None), ("some", Some(F64))]),
        ),
        pair("variant {none, some: u32}", "variant {none, some: f64}")
    );
    assert_eq!(
        both(vec![0x6a, 1, U32, 0], vec![0x6a, 0, 1, U32]),
        pair("result<u32, _>", "result<_, u32>")
    );
    assert_eq!(
        both(vec![0x6f, 2, U32, STRING], vec![0x6f, 2, STRING, U32]),
        pair("tuple<u32, string>", "tuple<string, u32>")
    );
    assert_eq!(
        joined(
            &[names(0x6d, &["a", "b"]), vec![0x70, 3]],
            &[names(0x6d, &["a", "c"]), vec![0x70, 3]],
        ),
        Some(pair("list<enum {a, b}>", "list<enum {a, c}>"))
    );
}

#[test]
fn types_are_told_apart_however_deep_they_go() {
    let nest = |leaf: u8, levels: u8| {
        let mut own = vec![vec![0x70, leaf]];
        for i in 1..levels {
            own.push(vec![0x70, 1 + i]);
        }
        own
    };
    assert!(joined(&nest(U32, 50), &nest(U32, 50)).is_none());
    let (given, taken) = joined(&nest(U32, 50), &nest(F64, 50)).unwrap();
    assert_eq!(given, format!("{}u32{}", "list<".repeat(50), ">".repeat(50)));
    assert_eq!(taken, format!("{}f64{}", "list<".repeat(50), ">".repeat(50)));
}

#[test]
fn the_function_of_a_stage_is_read_off_the_types() {
    let types_of = |bytes: Vec<u8>| {
        wasmparser::Validator::new_with_features(wasmparser::WasmFeatures::all())
            .validate_all(&bytes)
            .unwrap()
    };
    let bytes = component(&[("id", STRING), ("note", 0)], &[("seen", BOOL)]);
    let found = read_signature(&types_of(bytes)).unwrap();
    let field = |n: &str, t: &str, maybe: bool| (n.to_string(), t.to_string(), maybe);
    assert_eq!(
        found.takes.unwrap().fields,
        vec![field("id", "string", false), field("note", "u32", true)]
    );
    assert_eq!(found.gives.unwrap().fields, vec![field("seen", "bool", false)]);
    assert!(read_signature(&types_of(hollow_component())).is_none());
    assert!(read_signature(&types_of(core_module())).is_none());
}
