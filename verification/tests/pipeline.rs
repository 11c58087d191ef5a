//! Reading a pipeline's description, and what is generated from it.

use epico::codegen::{
    accessor_name, camel_case, emit_record, emit_typed_dispatch, kind_named,
    make_stage_wit_legacy, make_typed_stage_wit, split_optional, stage_crate_name, to_wit_ident,
    wire_variant, yaml_type_to_rust, yaml_type_to_wit, ValueKind, WitFault,
};
use epico::generate::{
    binary_schema_artifact, generate, wit_source, GenerateError, Surroundings,
};
use epico::json::JsonOut;
use epico::ordered::put_in_order;
use epico::pipeline_spec::{
    from_new_format, from_old_format, is_new_format, join_path, parse_edge, DeploySpec, NewFormat,
    NewScaling, NewStage, NodeSpec, OldDispatcher, OldFormat, OldSlo, OldStage, PipelineSpec,
    RawBoundary, RawSource, ScalingSpec, SpecError, StageSource, TypeDef, Yaml,
};
use epico::runtime_yaml::{
    dispatcher_name, each_feeds_the_next, port_from_tcp_uri, write_runtime_yaml,
};
use epico::scaffold::{relative_path, scaffold_agent_crate, workspace_cargo, StagePlaces};
use epico::toml_text::{
    escape_toml_string, render_extra_deps, yaml_to_inline_toml, yaml_to_toml_value, DepFault,
};

fn s(t: &str) -> String {
    t.to_string()
}

fn scaling() -> NewScaling {
    NewScaling {
        min: None,
        max: Some(4),
        queue_up: None,
        queue_down: None,
        cooldown_up_s: None,
        cooldown_down_s: None,
        p99_ms: None,
    }
}

fn stage(name: &str) -> NewStage {
    NewStage {
        name: s(name),
        input_type: s("reading"),
        output_type: s("reading"),
        src: Some(format!("src/{name}.rs")),
        src_exists: true,
        wasm: None,
        scaling: scaling(),
        placement: None,
        deps: vec![],
    }
}

fn deploy() -> DeploySpec {
    DeploySpec {
        collector: None,
        ingress: Some(s("tcp://127.0.0.1:5555")),
        port_base: None,
        host: None,
        this_host: None,
        resource_sample_interval_ms: None,
        credit_window: None,
        batch_events: None,
        event_format: None,
        source_format: None,
        ingress_mode: None,
        source_threads: None,
    }
}

fn reading_type() -> (String, TypeDef) {
    (
        s("reading"),
        TypeDef {
            fields: vec![(s("sensor_id"), s("string")), (s("value"), s("float?"))],
        },
    )
}

fn raw() -> NewFormat {
    NewFormat {
        package: None,
        types: vec![reading_type()],
        nodes: vec![],
        stages: vec![stage("fn-a"), stage("fn-b")],
        edges: vec![],
        deploy: deploy(),
        source: None,
        sink: None,
    }
}

fn spec() -> PipelineSpec {
    match from_new_format(raw(), "/p") {
        Ok(p) => p,
        Err(e) => panic!("{}", e.message()),
    }
}

fn fault(change: impl Fn(&mut NewFormat)) -> SpecError {
    let mut r = raw();
    change(&mut r);
    match from_new_format(r, "/p") {
        Ok(_) => panic!("the description was to be refused"),
        Err(e) => {
            assert!(!e.message().is_empty());
            e
        }
    }
}

#[test]
fn a_description_is_read_with_its_usual_values() {
    let p = spec();
    assert_eq!(p.nodes.len(), 1);
    assert_eq!(p.nodes[0].name, "local");
    assert_eq!(p.this_host, "local");
    assert_eq!(p.edges, vec![(s("fn-a"), s("fn-b"))]);
    assert_eq!(p.stages[0].placement, "local");
    assert_eq!(p.stages[0].scaling.max_replicas, 4);
    assert_eq!(p.stages[0].scaling.queue_up, "50");
    assert_eq!(p.event_format, "json");
    assert!(matches!(&p.stages[0].source, StageSource::RustFile(f) if f == "/p/src/fn-a.rs"));
    assert_eq!(ScalingSpec::default().max_replicas, 2);
    assert_eq!(join_path("/p", "/abs"), "/abs");
    assert_eq!(join_path("/p/", "x"), "/p/x");
}

#[test]
fn each_fault_of_a_description_has_its_name() {
    assert!(matches!(fault(|r| r.stages.clear()), SpecError::NoStages));
    assert!(matches!(
        fault(|r| r.stages[0].wasm = Some(s("x.wasm"))),
        SpecError::BothSources(n) if n == "fn-a"
    ));
    assert!(matches!(
        fault(|r| r.stages[1].src_exists = false),
        SpecError::SrcMissing(n, p) if n == "fn-b" && p == "/p/src/fn-b.rs"
    ));
    assert!(matches!(fault(|r| r.stages[0].src = None), SpecError::NeitherSource(_)));
    assert!(matches!(
        fault(|r| r.stages[0].placement = Some(s("moon"))),
        SpecError::UnknownPlacement(_, p) if p == "moon"
    ));
    assert!(matches!(fault(|r| r.edges = vec![s("fn-a fn-b")]), SpecError::BadEdge(_)));
    assert!(matches!(
        fault(|r| r.edges = vec![s("x -> fn-b")]),
        SpecError::UnknownEdgeSource(_)
    ));
    assert!(matches!(
        fault(|r| r.edges = vec![s("fn-a -> x")]),
        SpecError::UnknownEdgeTarget(_)
    ));
    assert!(matches!(
        fault(|r| r.stages[1].input_type = s("alert")),
        SpecError::TypeMismatch { produced, consumed, .. }
            if produced == "reading" && consumed == "alert"
    ));
    assert!(matches!(
        fault(|r| r.types = vec![(s("other"), TypeDef { fields: vec![] })]),
        SpecError::UndeclaredOut(_, _)
    ));
    assert!(matches!(
        fault(|r| r.deploy.this_host = Some(s("moon"))),
        SpecError::UnknownHost(_)
    ));
    assert!(matches!(fault(|r| r.deploy.ingress = None), SpecError::NoIngress));
    let source = |src: Option<&str>, exists: bool| {
        Some(RawSource {
            kind: None,
            src: src.map(s),
            src_exists: exists,
            placement: None,
            params: vec![],
        })
    };
    assert!(matches!(
        fault(|r| r.source = source(Some("s.rs"), false)),
        SpecError::SourceMissing(p) if p == "/p/s.rs"
    ));
    assert!(matches!(fault(|r| r.source = source(None, false)), SpecError::SourceIncomplete));
    assert!(matches!(
        fault(|r| r.sink =
            Some(RawBoundary { src: s("k.rs"), src_exists: false, placement: None })),
        SpecError::SinkMissing(_)
    ));
    assert!(matches!(
        fault(|r| r.deploy.event_format = Some(s("xml"))),
        SpecError::BadEventFormat(_)
    ));
}

#[test]
fn edges_are_written_with_an_arrow() {
    assert_eq!(parse_edge(" a -> b "), Some((s("a"), s("b"))));
    assert_eq!(parse_edge("a->b"), Some((s("a"), s("b"))));
    assert_eq!(parse_edge("a -> b -> c"), None);
    assert_eq!(parse_edge("-> b"), None);
    assert_eq!(parse_edge("a"), None);
    let stages = Yaml::Table(vec![(Yaml::Text(s("stages")), Yaml::List(vec![]))]);
    assert!(is_new_format(&stages));
    let old = Yaml::Table(vec![(Yaml::Text(s("pipeline")), Yaml::List(vec![]))]);
    assert!(!is_new_format(&old));
}

#[test]
fn the_old_format_is_still_read() {
    let old = |wasm: Option<&str>| OldFormat {
        pipeline: vec![OldStage {
            name: s("fn-a"),
            wasm: wasm.map(s),
            slo: OldSlo {
                p99_ms: None,
                max_replicas: 3,
                min_replicas: 1,
                queue_up: None,
                queue_down: None,
                cooldown_up_s: None,
                cooldown_down_s: None,
            },
        }],
        dispatchers: vec![OldDispatcher { push_port: 5555, pull_port: 5556, ctrl_port: 5557 }],
        sinks: vec![6000],
    };
    let p = from_old_format(old(Some("a.wasm")), "/p").ok().unwrap();
    assert!(matches!(&p.stages[0].source, StageSource::PrebuiltWasm(f) if f == "/p/a.wasm"));
    assert_eq!(p.stages[0].scaling.max_replicas, 3);
    assert_eq!(p.port_base, 5555);
    assert!(matches!(from_old_format(old(None), "/p"), Err(SpecError::WasmMissing(_))));
}

#[test]
fn dependencies_are_written_as_toml() {
    assert_eq!(escape_toml_string("a\"b\\\n\u{1}"), "a\\\"b\\\\\\n\\u0001");
    let table = Yaml::Table(vec![
        (Yaml::Text(s("version")), Yaml::Text(s("1.0"))),
        (Yaml::Text(s("features")), Yaml::List(vec![Yaml::Text(s("x")), Yaml::Text(s("y"))])),
        (Yaml::Text(s("optional")), Yaml::Bool(false)),
    ]);
    assert_eq!(
        yaml_to_toml_value(&table).ok().unwrap(),
        "{ version = \"1.0\", features = [\"x\", \"y\"], optional = false }"
    );
    assert_eq!(yaml_to_inline_toml(&Yaml::Number(s("7"))).ok().unwrap(), "7");
    assert!(matches!(yaml_to_toml_value(&Yaml::Null).err().unwrap().fault, DepFault::Null));
    assert!(matches!(yaml_to_toml_value(&Yaml::List(vec![])).err().unwrap().fault, DepFault::List));
    let bad = Yaml::Table(vec![(Yaml::Bool(true), Yaml::Null)]);
    assert!(matches!(yaml_to_toml_value(&bad).err().unwrap().fault, DepFault::KeyNotText));
    let nested = Yaml::Table(vec![(Yaml::Text(s("k")), Yaml::Null)]);
    let e = yaml_to_toml_value(&nested).err().unwrap();
    assert_eq!(e.keys, vec!["k"]);
    assert!(!e.fault.message().is_empty());
    let deps = vec![(s("serde"), Yaml::Text(s("1")))];
    assert_eq!(render_extra_deps(&deps).ok().unwrap(), "serde = \"1\"\n");
    assert!(matches!(render_extra_deps(&vec![(s("x"), Yaml::Null)]), Err((n, _)) if n == "x"));
}

#[test]
fn names_and_types_of_the_generated_code() {
    assert_eq!(stage_crate_name("fn-Relay.2"), "stage_fn_relay_2");
    assert_eq!(to_wit_ident("sensor_id"), "sensor-id");
    assert_eq!(camel_case("sensor_reading-x"), "SensorReadingX");
    assert_eq!(camel_case("straße_ße"), "StraßeSSe");
    assert!(matches!(kind_named("uint"), Some(ValueKind::U32)));
    assert!(kind_named("blob").is_none());
    assert_eq!(split_optional("u32?"), (s("u32"), true));
    assert_eq!(yaml_type_to_wit("float?"), "option<f64>");
    assert_eq!(yaml_type_to_wit("blob"), "blob");
    let (rust, optional, kind) = yaml_type_to_rust("int");
    assert_eq!((rust.as_str(), optional), ("i64", false));
    assert_eq!(accessor_name(kind), "s64");
    assert_eq!(wire_variant(kind), "S64");
    assert_eq!(
        emit_record("reading", &reading_type().1),
        "    record reading {\n        sensor-id: string,\n        value: option<f64>,\n    }\n"
    );
}

#[test]
fn interfaces_are_described() {
    let shared = "package x;\n\ninterface process {}\n\nworld all {\n  export process;\n}\n";
    let legacy = make_stage_wit_legacy(shared);
    assert!(legacy.starts_with("package x;\n\ninterface process {}\n"));
    assert!(legacy.ends_with("world stage {\n    export process;\n}\n"));
    assert!(!legacy.contains("world all"));
    let p = spec();
    let wit = make_typed_stage_wit(&p.stages[0], &p.types, shared).ok().unwrap();
    assert!(wit.contains("record reading"));
    assert!(wit.contains("process-event: func(ev: reading, bench: bench-ctx)"));
    let other = vec![(s("other"), TypeDef { fields: vec![] })];
    assert!(matches!(
        make_typed_stage_wit(&p.stages[0], &other, shared),
        Err(WitFault::Input)
    ));
    let glue = emit_typed_dispatch(&p.stages, &p.types);
    assert!(glue.contains("pub struct Reading"));
    assert!(glue.contains("sensor_id: v.str_field(\"sensor_id\").unwrap_or_default(),"));
}

#[test]
fn the_runtime_configuration_is_written() {
    let p = spec();
    assert!(each_feeds_the_next(&p));
    let wasm = vec![(s("fn-a"), s("/w/a.wasm")), (s("fn-b"), s("/w/b.wasm"))];
    let text = write_runtime_yaml(&p, &wasm, Some("aot")).unwrap();
    assert!(text.contains("compile_mode: aot\n"));
    assert!(text.contains("  - name: dispatch-a\n    push_port: 5555\n"));
    assert!(text.contains("    push_uri: tcp://127.0.0.1:5555\n"));
    assert!(text.contains("    wasm: /w/b.wasm\n"));
    assert!(text.contains("    output: ipc:///tmp/epico-dispatch-b-push\n"));
    assert_eq!(dispatcher_name("fn-fn-a"), "dispatch-a");
    assert_eq!(port_from_tcp_uri("tcp://h:99"), Some(99));
    assert_eq!(port_from_tcp_uri("tcp://h:99999"), None);
    assert_eq!(port_from_tcp_uri("ipc://h:9"), None);
    let mut forked = spec();
    forked.edges = vec![(s("fn-b"), s("fn-a"))];
    assert!(write_runtime_yaml(&forked, &wasm, None).is_none());
}

fn around() -> Surroundings {
    let place = |n: &str| StagePlaces {
        crate_dir: format!("/o/stages/stage_{n}"),
        sdk_dir: s("/r/epico-sdk"),
        user_file: format!("/p/src/fn-{n}.rs"),
    };
    Surroundings {
        output_dir: s("/o"),
        shared_wit: s("package x;\n"),
        places: vec![place("a"), place("b")],
        master_dir: s("/r/epico-core/master"),
    }
}

#[test]
fn a_pipeline_is_generated_as_a_whole() {
    let g = generate(&spec(), &around(), None).ok().unwrap();
    assert_eq!(g.crates.len(), 2);
    assert_eq!(g.crates[0].dir, "/o/stages/stage_fn_a");
    assert!(g.crates[0].files.cargo.contains("path = \"../../../r/epico-sdk\""));
    assert!(g.crates[1].files.lib.contains("/p/src/fn-b.rs"));
    assert!(g.output.needs_build);
    assert_eq!(g.output.runtime_yaml, "/o/runtime.yaml");
    assert_eq!(
        g.output.wasm_by_stage[0].1,
        "/o/target/wasm32-wasip2/release/stage_fn_a.wasm"
    );
    assert!(g.workspace.unwrap().contains("\"stages/stage_fn_b\""));
    assert!(g.runtime.contains("dispatchers:\n"));

    let mut bad = spec();
    bad.stages[1].deps = vec![(s("x"), Yaml::Null)];
    assert!(matches!(generate(&bad, &around(), None), Err(GenerateError::Stage(1, _))));
    let mut forked = spec();
    forked.edges = vec![];
    assert!(matches!(generate(&forked, &around(), None), Err(GenerateError::NotLinear)));
}

#[test]
fn files_and_paths_of_the_generated_code() {
    assert_eq!(relative_path("/a/b", "/a/c/d"), "../c/d");
    assert_eq!(relative_path("/a", "b"), "b");
    assert!(workspace_cargo(&vec![s("stages/x")]).contains("    \"stages/x\",\n"));
    let p = spec();
    let agent = scaffold_agent_crate(true, false, "/m", &p.stages, &p.types);
    assert!(agent.main.contains("mod source;"));
    assert!(!agent.main.contains("mod sink;"));
    assert_eq!(wit_source("/r", true, true).as_deref(), Some("/r/epico-sdk/wit/epico.wit"));
    assert_eq!(wit_source("/r", false, true).as_deref(), Some("/r/wit/epico.wit"));
    assert_eq!(wit_source("/r", false, false), None);
    match binary_schema_artifact(&p) {
        JsonOut::Object(es) => {
            assert!(matches!(&es[0].1, JsonOut::Text(t) if t == "epico-binary-envelope"));
            assert!(matches!(es[1].1, JsonOut::Count(1)));
            assert_eq!(es[5].0, "stages");
        }
        _ => panic!("no schema"),
    }
}

#[test]
fn stages_on_other_nodes_are_reached_over_the_network() {
    let mut r = raw();
    let node = |n: &str, h: &str| NodeSpec { name: s(n), host: s(h), force_tcp: false };
    r.nodes = vec![node("east", "10.0.0.1"), node("west", "10.0.0.2")];
    r.stages[1].placement = Some(s("west"));
    r.deploy.port_base = Some(7000);
    let p = from_new_format(r, "/p").ok().unwrap();
    let wasm = vec![(s("fn-a"), s("a")), (s("fn-b"), s("b"))];
    let text = write_runtime_yaml(&p, &wasm, None).unwrap();
    assert!(text.contains("    output: tcp://10.0.0.2:7003\n"));
    assert!(text.contains("this_host: east\n"));
}

#[test]
fn named_values_are_put_in_order() {
    let given = vec![(s("b"), 1), (s("a"), 2), (s("b"), 3), (s("aa"), 4), (s("B"), 5)];
    let out = put_in_order(given);
    assert_eq!(out, vec![(s("B"), 5), (s("a"), 2), (s("aa"), 4), (s("b"), 3)]);
    assert!(put_in_order(Vec::<(String, u8)>::new()).is_empty());
}

#[test]
fn types_and_fields_come_out_in_the_order_of_their_names() {
    let fields = |names: &[&str]| TypeDef {
        fields: names.iter().map(|n| (s(n), s("u32"))).collect(),
    };
    let mut r = raw();
    r.types = vec![(s("zed"), fields(&["y", "x"])), (s("alpha"), fields(&["c", "a", "b"]))];
    for st in r.stages.iter_mut() {
        st.input_type = s("zed");
        st.output_type = s("zed");
    }
    r.stages[0].input_type = s("alpha");
    let p = from_new_format(r, "/p").ok().unwrap();
    assert_eq!(p.types[0].0, "alpha");
    assert_eq!(p.types[1].0, "zed");
    let names: Vec<&str> = p.types[0].1.fields.iter().map(|f| f.0.as_str()).collect();
    assert_eq!(names, vec!["a", "b", "c"]);
    let glue = emit_typed_dispatch(&p.stages, &p.types);
    assert_eq!(glue.matches("pub struct ").count(), 2);
    assert!(glue.find("pub struct Alpha").unwrap() < glue.find("pub struct Zed").unwrap());
    assert!(glue.find("pub x: u32").unwrap() < glue.find("pub y: u32").unwrap());
    let wit = make_typed_stage_wit(&p.stages[0], &p.types, "").ok().unwrap();
    assert!(wit.find("        a: u32").unwrap() < wit.find("        b: u32").unwrap());
    assert_eq!(wit.matches("    record ").count(), 4);
    let same = make_typed_stage_wit(&p.stages[1], &p.types, "").ok().unwrap();
    assert_eq!(same.matches("    record ").count(), 3);
}
