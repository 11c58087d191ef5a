//! The plan of what is generated for a pipeline: every file, and where it goes.

use vstd::prelude::*;
use crate::codegen::{
    base_type, crate_name, dispatch_text, is_optional, split_optional, stage_crate_name,
    to_wit_ident, wit_name,
};
use crate::config::pair_texts;
use crate::json::{shows, ArrayOut, JsonModel, JsonOut, ObjectOut};
use crate::numtext::owned_views;
use crate::pipeline_spec::{join_path, path_from, PipelineSpec, StageSource, StageSpec, TypeDef};
use crate::runtime_yaml::{is_linear, is_placeable, runtime_text, write_runtime_yaml};
use crate::scaffold::{
    agent_main_text, are_files_of, can_scaffold, is_fault_of, member_lines, scaffold_agent_crate,
    scaffold_rust_stage, workspace_cargo, AgentFiles, ScaffoldError, StageFiles, StagePlaces,
    AGENT_CARGO_HEAD, AGENT_CARGO_TAIL, WORKSPACE_HEAD, WORKSPACE_TAIL,
};
use crate::text::replaced;

verus! {

/// What was generated, as far as the build and the run need it.
#[derive(Debug)]
pub struct CodegenOutput {
    /// The manifest of the workspace of stages.
    pub workspace_manifest: String,
    /// The configuration of the agent.
    pub runtime_yaml: String,
    /// Where the component of each stage is, or will be once it is built.
    pub wasm_by_stage: Vec<(String, String)>,
    /// Whether any stage has to be built.
    pub needs_build: bool,
    /// The manifest of the agent of this pipeline.
    pub agent_manifest: Option<String>,
}

/// Where a stage's component is, or will be.
pub open spec fn wasm_place(s: StageSpec, out: Seq<char>) -> Seq<char> {
    match s.source {
        StageSource::RustFile(_) => path_from(
            path_from(path_from(path_from(out, "target"@), "wasm32-wasip2"@), "release"@),
            crate_name(s.name@) + ".wasm"@,
        ),
        StageSource::PrebuiltWasm(p) => p@,
    }
}

/// Where the components of the stages are, or will be.
pub open spec fn wasm_places(stages: Seq<StageSpec>, out: Seq<char>) -> Seq<
    (Seq<char>, Seq<char>),
> {
    stages.map_values(|s: StageSpec| (s.name@, wasm_place(s, out)))
}

/// A stage is to be built.
pub open spec fn is_built(s: StageSpec) -> bool {
    s.source is RustFile
}

/// The crates of the workspace.
pub open spec fn members(stages: Seq<StageSpec>) -> Seq<Seq<char>>
    decreases stages.len(),
{
    if stages.len() == 0 {
        Seq::empty()
    } else if is_built(stages.last()) {
        members(stages.drop_last()).push("stages/"@ + crate_name(stages.last().name@))
    } else {
        members(stages.drop_last())
    }
}

/// Which of the stages are to be built.
pub open spec fn any_built(stages: Seq<StageSpec>) -> bool {
    exists|i: int| 0 <= i < stages.len() && is_built(#[trigger] stages[i])
}

/// Where the interface file is: in the kit, or else at the root.
pub open spec fn wit_place(root: Seq<char>, in_kit: bool, at_root: bool) -> Option<Seq<char>> {
    if in_kit {
        Some(path_from(path_from(path_from(root, "epico-sdk"@), "wit"@), "epico.wit"@))
    } else if at_root {
        Some(path_from(path_from(root, "wit"@), "epico.wit"@))
    } else {
        None
    }
}

/// Where the interface file is, given at which of the two places there is one.
pub fn wit_source(project_root: &str, in_kit: bool, at_root: bool) -> (r: Option<String>)
    ensures
        match r {
            None => wit_place(project_root@, in_kit, at_root) is None,
            Some(p) => wit_place(project_root@, in_kit, at_root) == Some(p@),
        },
{
    if in_kit {
        let sdk = join_path(project_root, "epico-sdk");
        let wit = join_path(sdk.as_str(), "wit");
        Some(join_path(wit.as_str(), "epico.wit"))
    } else if at_root {
        let wit = join_path(project_root, "wit");
        Some(join_path(wit.as_str(), "epico.wit"))
    } else {
        None
    }
}

/// What the schema says of a field.
pub open spec fn schema_field(name: Seq<char>, of: Seq<char>, id: nat) -> Seq<
    (Seq<char>, JsonModel),
> {
    seq![
        ("id"@, JsonModel::Count(id)),
        ("json_name"@, JsonModel::Text(name)),
        ("wit_name"@, JsonModel::Text(wit_name(name))),
        ("type"@, JsonModel::Text(base_type(of))),
        ("optional"@, JsonModel::Bool(is_optional(of))),
    ]
}

/// The entries of a type's fields, in order.
pub open spec fn schema_fields(fields: Seq<(String, String)>) -> Seq<JsonModel> {
    Seq::new(
        fields.len(),
        |i: int| JsonModel::Object(schema_field(fields[i].0@, fields[i].1@, i as nat)),
    )
}

/// One type of the schema.
pub open spec fn schema_type(t: TypeDef) -> JsonModel {
    JsonModel::Object(seq![("fields"@, JsonModel::Array(schema_fields(t.fields@)))])
}

/// One stage of the schema.
pub open spec fn schema_stage(s: StageSpec) -> JsonModel {
    JsonModel::Object(
        seq![
            ("name"@, JsonModel::Text(s.name@)),
            ("in"@, JsonModel::Text(s.input_type@)),
            ("out"@, JsonModel::Text(s.output_type@)),
        ],
    )
}

/// The types of the schema.
pub open spec fn schema_types(types: Seq<(String, TypeDef)>) -> Seq<(Seq<char>, JsonModel)> {
    types.map_values(|t: (String, TypeDef)| (t.0@, schema_type(t.1)))
}

/// The stages of the schema.
pub open spec fn schema_stages(stages: Seq<StageSpec>) -> Seq<JsonModel> {
    stages.map_values(|s: StageSpec| schema_stage(s))
}

pub const CODEC_NOTE: &'static str = "JSON is still the only fully implemented event codec.";

pub const ORDER_NOTE: &'static str = "This artifact records generated field ids/order for the binary row codec.";

/// The schema of the events in binary: the number and the names of each field.
pub open spec fn binary_schema(spec: PipelineSpec) -> JsonModel {
    JsonModel::Object(
        seq![
            ("format"@, JsonModel::Text("epico-binary-envelope"@)),
            ("version"@, JsonModel::Count(1)),
            ("status"@, JsonModel::Text("schema-artifact-only"@)),
            (
                "notes"@,
                JsonModel::Array(
                    seq![JsonModel::Text(CODEC_NOTE@), JsonModel::Text(ORDER_NOTE@)],
                ),
            ),
            ("types"@, JsonModel::Object(schema_types(spec.types@))),
            ("stages"@, JsonModel::Array(schema_stages(spec.stages@))),
        ],
    )
}

fn schema_type_out<'a>(t: &TypeDef) -> (j: JsonOut<'a>)
    ensures
        shows(j, schema_type(*t)),
{
    let ghost all = schema_fields(t.fields@);
    let mut a = ArrayOut::new();
    let mut i: usize = 0;
    assert(all.take(0) =~= Seq::<JsonModel>::empty());
    while i < t.fields.len()
        invariant
            i <= t.fields@.len(),
            all == schema_fields(t.fields@),
            a.wf(),
            a.model@ == all.take(i as int),
        decreases t.fields@.len() - i,
    {
        let f = &t.fields[i];
        let (base, optional) = split_optional(f.1.as_str());
        let mut o = ObjectOut::new();
        o.put_count("id", i as u64);
        o.put_text("json_name", f.0.as_str());
        let wit = to_wit_ident(f.0.as_str());
        o.put_text("wit_name", wit.as_str());
        o.put_text("type", base.as_str());
        o.put("optional", JsonOut::Bool(optional), Ghost(JsonModel::Bool(optional)));
        let ghost m = o.model@;
        let one = o.done();
        assert(m =~= schema_field(f.0@, f.1@, i as nat));
        a.push(one, Ghost(JsonModel::Object(m)));
        assert(all.take(i + 1) =~= all.take(i as int).push(all[i as int]));
        i = i + 1;
    }
    assert(all.take(i as int) =~= all);
    let list = a.done();
    let mut o = ObjectOut::new();
    o.put("fields", list, Ghost(JsonModel::Array(all)));
    o.done()
}

/// Writes the schema of the events in binary.
pub fn binary_schema_artifact<'a>(spec: &PipelineSpec) -> (j: JsonOut<'a>)
    ensures
        shows(j, binary_schema(*spec)),
{
    let ghost types_m = schema_types(spec.types@);
    let mut types = ObjectOut::new();
    let mut i: usize = 0;
    assert(types_m.take(0) =~= Seq::<(Seq<char>, JsonModel)>::empty());
    while i < spec.types.len()
        invariant
            i <= spec.types@.len(),
            types_m == schema_types(spec.types@),
            types.wf(),
            types.model@ == types_m.take(i as int),
        decreases spec.types@.len() - i,
    {
        let t = &spec.types[i];
        let one = schema_type_out(&t.1);
        types.put(t.0.as_str(), one, Ghost(schema_type(t.1)));
        assert(types_m.take(i + 1) =~= types_m.take(i as int).push(types_m[i as int]));
        i = i + 1;
    }
    assert(types_m.take(i as int) =~= types_m);
    let ghost stages_m = schema_stages(spec.stages@);
    let mut stages = ArrayOut::new();
    let mut k: usize = 0;
    assert(stages_m.take(0) =~= Seq::<JsonModel>::empty());
    while k < spec.stages.len()
        invariant
            k <= spec.stages@.len(),
            stages_m == schema_stages(spec.stages@),
            stages.wf(),
            stages.model@ == stages_m.take(k as int),
        decreases spec.stages@.len() - k,
    {
        let s = &spec.stages[k];
        let mut o = ObjectOut::new();
        o.put_text("name", s.name.as_str());
        o.put_text("in", s.input_type.as_str());
        o.put_text("out", s.output_type.as_str());
        let one = o.done();
        stages.push(one, Ghost(schema_stage(*s)));
        assert(stages_m.take(k + 1) =~= stages_m.take(k as int).push(stages_m[k as int]));
        k = k + 1;
    }
    assert(stages_m.take(k as int) =~= stages_m);
    let mut notes = ArrayOut::new();
    notes.push_text(CODEC_NOTE);
    notes.push_text(ORDER_NOTE);
    let ghost notes_m = seq![JsonModel::Text(CODEC_NOTE@), JsonModel::Text(ORDER_NOTE@)];
    let notes_json = notes.done();
    let types_json = types.done();
    let stages_json = stages.done();
    let mut o = ObjectOut::new();
    o.put_text("format", "epico-binary-envelope");
    o.put_count("version", 1);
    o.put_text("status", "schema-artifact-only");
    o.put("notes", notes_json, Ghost(JsonModel::Array(notes_m)));
    o.put("types", types_json, Ghost(JsonModel::Object(types_m)));
    o.put("stages", stages_json, Ghost(JsonModel::Array(stages_m)));
    o.done()
}

/// A crate that is to be written, and where.
#[derive(Debug)]
pub struct StageCrate {
    pub dir: String,
    pub files: StageFiles,
}

/// All that is generated for a pipeline.
#[derive(Debug)]
pub struct Generated {
    pub output: CodegenOutput,
    /// The crates of the stages that are to be built.
    pub crates: Vec<StageCrate>,
    /// The manifest of their workspace, where there are any.
    pub workspace: Option<String>,
    pub runtime: String,
    pub agent_dir: String,
    pub agent: AgentFiles,
}

/// Why a pipeline cannot be generated.
#[derive(Debug)]
pub enum GenerateError {
    /// The crate of the stage at this place cannot be written.
    Stage(usize, ScaffoldError),
    /// The stages do not each feed the next.
    NotLinear,
}

/// What is generated from: where it goes, the shared interface, and where the
/// file system has the parts of each stage and of the agent.
#[derive(Debug)]
pub struct Surroundings {
    pub output_dir: String,
    pub shared_wit: String,
    pub places: Vec<StagePlaces>,
    pub master_dir: String,
}

/// The path that the user gave for a stage.
pub open spec fn given_path(s: StageSpec) -> Seq<char> {
    match s.source {
        StageSource::RustFile(p) => p@,
        StageSource::PrebuiltWasm(p) => p@,
    }
}

/// The stage keeps the pipeline from being generated.
pub open spec fn is_refused(s: StageSpec, types: Seq<(String, TypeDef)>) -> bool {
    is_built(s) && !can_scaffold(s, types)
}

/// The crate of the stage.
pub open spec fn is_crate_of(
    c: StageCrate,
    s: StageSpec,
    types: Seq<(String, TypeDef)>,
    around: Surroundings,
    at: int,
) -> bool {
    &&& c.dir@ == path_from(path_from(around.output_dir@, "stages"@), crate_name(s.name@))
    &&& are_files_of(
        c.files,
        s,
        given_path(s),
        types,
        around.shared_wit@,
        around.places@[at],
    )
}

/// The crates are those of the first `n` stages, as far as they are built.
pub open spec fn are_crates_of(
    crates: Seq<StageCrate>,
    spec: PipelineSpec,
    around: Surroundings,
    n: int,
) -> bool
    decreases n,
{
    if n <= 0 {
        crates.len() == 0
    } else if is_built(spec.stages@[n - 1]) {
        &&& crates.len() > 0
        &&& is_crate_of(crates.last(), spec.stages@[n - 1], spec.types@, around, n - 1)
        &&& are_crates_of(crates.drop_last(), spec, around, n - 1)
    } else {
        are_crates_of(crates, spec, around, n - 1)
    }
}

/// What is generated is what the pipeline asks for.
pub open spec fn is_generated(
    g: Generated,
    spec: PipelineSpec,
    around: Surroundings,
    compile_mode: Option<Seq<char>>,
) -> bool {
    let out = around.output_dir@;
    let stages = spec.stages@;
    &&& are_crates_of(g.crates@, spec, around, stages.len() as int)
    &&& g.output.workspace_manifest@ == path_from(out, "Cargo.toml"@)
    &&& g.output.runtime_yaml@ == path_from(out, "runtime.yaml"@)
    &&& pair_texts(g.output.wasm_by_stage@) == wasm_places(stages, out)
    &&& g.output.needs_build == any_built(stages)
    &&& g.output.agent_manifest matches Some(m) && m@ == path_from(
        path_from(out, "agent"@),
        "Cargo.toml"@,
    )
    &&& (g.workspace is Some) == any_built(stages)
    &&& g.workspace matches Some(w) ==> w@ == WORKSPACE_HEAD@ + member_lines(members(stages))
        + WORKSPACE_TAIL@
    &&& g.runtime@ == runtime_text(spec, wasm_places(stages, out), compile_mode)
    &&& g.agent_dir@ == path_from(out, "agent"@)
    &&& g.agent.cargo@ == AGENT_CARGO_HEAD@ + replaced(around.master_dir@, '\\', '/')
        + AGENT_CARGO_TAIL@
    &&& g.agent.main@ == agent_main_text(spec.source_node is Some, spec.sink_node is Some)
    &&& g.agent.typed_dispatch@ == dispatch_text(stages, spec.types@)
}

fn wasm_path(name: &str, out: &str) -> (p: String)
    ensures
        p@ == path_from(
            path_from(path_from(path_from(out@, "target"@), "wasm32-wasip2"@), "release"@),
            name@ + ".wasm"@,
        ),
{
    let target = join_path(out, "target");
    let wasi = join_path(target.as_str(), "wasm32-wasip2");
    let release = join_path(wasi.as_str(), "release");
    let mut file = name.to_owned();
    file.append(".wasm");
    join_path(release.as_str(), file.as_str())
}

/// Plans all that is generated for a pipeline.
pub fn generate(
    spec: &PipelineSpec,
    around: &Surroundings,
    compile_mode: Option<&str>,
) -> (r: Result<Generated, GenerateError>)
    requires
        is_placeable(*spec),
        around.places@.len() == spec.stages@.len(),
    ensures
        match r {
            Err(GenerateError::Stage(i, e)) => {
                &&& i < spec.stages@.len()
                &&& is_built(spec.stages@[i as int])
                &&& is_fault_of(e, spec.stages@[i as int], spec.types@)
                &&& forall|k: int| 0 <= k < i ==> !is_refused(#[trigger] spec.stages@[k], spec.types@)
            },
            Err(GenerateError::NotLinear) => {
                &&& !is_linear(*spec)
                &&& forall|k: int|
                    0 <= k < spec.stages@.len() ==> !is_refused(
                        #[trigger] spec.stages@[k],
                        spec.types@,
                    )
            },
            Ok(g) => {
                &&& is_linear(*spec)
                &&& forall|k: int|
                    0 <= k < spec.stages@.len() ==> !is_refused(
                        #[trigger] spec.stages@[k],
                        spec.types@,
                    )
                &&& is_generated(
                    g,
                    *spec,
                    *around,
                    match compile_mode {
                        None => None,
                        Some(m) => Some(m@),
                    },
                )
            },
        },
{
    let out_dir = around.output_dir.as_str();
    let stages_root = join_path(out_dir, "stages");
    let ghost stages = spec.stages@;
    let ghost wasm_m = wasm_places(stages, out_dir@);
    let mut crates: Vec<StageCrate> = Vec::new();
    let mut names: Vec<String> = Vec::new();
    let mut wasm: Vec<(String, String)> = Vec::new();
    let mut needs_build = false;
    let mut i: usize = 0;
    assert(stages.take(0) =~= Seq::<StageSpec>::empty());
    assert(owned_views(names@) =~= Seq::<Seq<char>>::empty());
    assert(pair_texts(wasm@) =~= wasm_m.take(0));
    while i < spec.stages.len()
        invariant
            i <= spec.stages@.len(),
            stages == spec.stages@,
            around.places@.len() == spec.stages@.len(),
            out_dir@ == around.output_dir@,
            stages_root@ == path_from(out_dir@, "stages"@),
            wasm_m == wasm_places(stages, out_dir@),
            forall|k: int| 0 <= k < i ==> !is_refused(#[trigger] spec.stages@[k], spec.types@),
            are_crates_of(crates@, *spec, *around, i as int),
            owned_views(names@) == members(stages.take(i as int)),
            pair_texts(wasm@) == wasm_m.take(i as int),
            needs_build == any_built(stages.take(i as int)),
            needs_build == (names@.len() > 0),
        decreases spec.stages@.len() - i,
    {
        let stage = &spec.stages[i];
        assert(stages.take(i + 1).drop_last() =~= stages.take(i as int));
        assert(wasm_m.take(i + 1) =~= wasm_m.take(i as int).push(wasm_m[i as int]));
        proof {
            let now = stages.take(i + 1);
            let was = stages.take(i as int);
            assert(now[i as int] == *stage);
            if any_built(was) {
                let k = choose|k: int| 0 <= k < was.len() && is_built(#[trigger] was[k]);
                assert(is_built(now[k]));
            }
            if any_built(now) && !is_built(*stage) {
                let k = choose|k: int| 0 <= k < now.len() && is_built(#[trigger] now[k]);
                assert(is_built(was[k]));
            }
        }
        let ghost wasm_was = wasm@;
        match &stage.source {
            StageSource::RustFile(given) => {
                let name = stage_crate_name(stage.name.as_str());
                let files = match scaffold_rust_stage(
                    stage,
                    given.as_str(),
                    &spec.types,
                    around.shared_wit.as_str(),
                    &around.places[i],
                ) {
                    Err(e) => {
                        return Err(GenerateError::Stage(i, e));
                    },
                    Ok(f) => f,
                };
                let dir = join_path(stages_root.as_str(), name.as_str());
                let ghost crates_was = crates@;
                crates.push(StageCrate { dir, files });
                assert(crates@.drop_last() =~= crates_was);
                let mut member = "stages/".to_owned();
                member.append(name.as_str());
                let ghost names_was = names@;
                names.push(member);
                assert(owned_views(names@) =~= owned_views(names_was).push(member@));
                let place = wasm_path(name.as_str(), out_dir);
                wasm.push((stage.name.clone(), place));
                needs_build = true;
            },
            StageSource::PrebuiltWasm(p) => {
                wasm.push((stage.name.clone(), p.clone()));
            },
        }
        assert(pair_texts(wasm@) =~= pair_texts(wasm_was).push(wasm_m[i as int]));
        i = i + 1;
    }
    assert(stages.take(i as int) =~= stages);
    assert(wasm_m.take(i as int) =~= wasm_m);
    let workspace = if needs_build {
        Some(workspace_cargo(&names))
    } else {
        None
    };
    let runtime = match write_runtime_yaml(spec, &wasm, compile_mode) {
        None => {
            return Err(GenerateError::NotLinear);
        },
        Some(t) => t,
    };
    let agent = scaffold_agent_crate(
        spec.source_node.is_some(),
        spec.sink_node.is_some(),
        around.master_dir.as_str(),
        &spec.stages,
        &spec.types,
    );
    let agent_dir = join_path(out_dir, "agent");
    let output = CodegenOutput {
        workspace_manifest: join_path(out_dir, "Cargo.toml"),
        runtime_yaml: join_path(out_dir, "runtime.yaml"),
        wasm_by_stage: wasm,
        needs_build,
        agent_manifest: Some(join_path(agent_dir.as_str(), "Cargo.toml")),
    };
    Ok(Generated { output, crates, workspace, runtime, agent_dir, agent })
}

} // verus!
