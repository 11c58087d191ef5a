//! The tree of crates that a pipeline is built from.

use vstd::prelude::*;
use crate::codegen::{
    before_worlds, crate_name, dispatch_text, emit_typed_dispatch, is_untyped,
    make_typed_stage_wit, stage_crate_name, typed_wit, WitFault, WORLD,
};
use crate::config::has_name;
use crate::numtext::{join, joined, owned_views};
use crate::pipeline_spec::{type_names, StageSpec, TypeDef};
use crate::text::{chars_of, replace_char, replaced, split, split_by};
use crate::toml_text::{deps_text, render_extra_deps, DepError, DepModel};

verus! {

/// The head of the workspace's manifest.
pub const WORKSPACE_HEAD: &'static str = "# GENERATED by epico-cli. Workspace for all wasm stage crates.\n[workspace]\nresolver = \"2\"\nmembers = [\n";

/// The rest of the workspace's manifest.
pub const WORKSPACE_TAIL: &'static str = "]\n\n[profile.release]\nopt-level = 3\nlto = true\ncodegen-units = 1\nstrip = true\n";

pub open spec fn member_lines(members: Seq<Seq<char>>) -> Seq<char>
    decreases members.len(),
{
    if members.len() == 0 {
        Seq::empty()
    } else {
        member_lines(members.drop_last()) + ("    \""@ + members.last() + "\",\n"@)
    }
}

/// Writes the manifest of the workspace of stages.
pub fn workspace_cargo(names: &Vec<String>) -> (out: String)
    ensures
        out@ == WORKSPACE_HEAD@ + member_lines(owned_views(names@)) + WORKSPACE_TAIL@,
{
    let ghost all = owned_views(names@);
    let mut lines = String::new();
    let mut i: usize = 0;
    assert(all.take(0) =~= Seq::<Seq<char>>::empty());
    assert(lines@ =~= Seq::<char>::empty());
    while i < names.len()
        invariant
            i <= names@.len(),
            all == owned_views(names@),
            lines@ == member_lines(all.take(i as int)),
        decreases names@.len() - i,
    {
        assert(all.take(i + 1).drop_last() =~= all.take(i as int));
        let mut line = "    \"".to_owned();
        line.append(names[i].as_str());
        line.append("\",\n");
        lines.append(line.as_str());
        i = i + 1;
    }
    assert(all.take(i as int) =~= all);
    let mut out = WORKSPACE_HEAD.to_owned();
    out.append(lines.as_str());
    out.append(WORKSPACE_TAIL);
    out
}

/// The parts of a path.
pub open spec fn path_parts(p: Seq<char>) -> Seq<Seq<char>> {
    real_parts(split_by(p, '/'))
}

/// The parts that lead anywhere.
pub open spec fn real_parts(pieces: Seq<Seq<char>>) -> Seq<Seq<char>>
    decreases pieces.len(),
{
    if pieces.len() == 0 {
        Seq::empty()
    } else if pieces.last().len() == 0 || pieces.last() == "."@ {
        real_parts(pieces.drop_last())
    } else {
        real_parts(pieces.drop_last()).push(pieces.last())
    }
}

/// The path starts at the root.
pub open spec fn is_rooted(p: Seq<char>) -> bool {
    p.len() > 0 && p[0] == '/'
}

/// For how many parts two paths go together.
pub open spec fn shared_parts(a: Seq<Seq<char>>, b: Seq<Seq<char>>, k: int) -> bool {
    &&& 0 <= k <= a.len()
    &&& k <= b.len()
    &&& forall|i: int| 0 <= i < k ==> a[i] == b[i]
    &&& k == a.len() || k == b.len() || a[k] != b[k]
}

/// Steps up, then down: how `to` is reached from `from`.
pub open spec fn steps(from: Seq<Seq<char>>, to: Seq<Seq<char>>) -> Seq<Seq<char>> {
    let k = choose|k: int| shared_parts(from, to, k);
    let down = to.skip(k);
    let up = Seq::new((from.len() - k) as nat, |i: int| ".."@);
    if down.len() == 0 && up.len() > 0 {
        up.push(Seq::empty())
    } else {
        up + down
    }
}

/// The path from one directory to another.
pub open spec fn relative(from: Seq<char>, to: Seq<char>) -> Seq<char> {
    if is_rooted(from) != is_rooted(to) {
        to
    } else {
        joined(steps(path_parts(from), path_parts(to)), "/"@)
    }
}

fn parts_of(p: &str) -> (out: Vec<String>)
    ensures
        owned_views(out@) == path_parts(p@),
{
    let pieces = split(p, '/');
    let ghost all = split_by(p@, '/');
    assert(owned_views(pieces@) =~= all);
    let mut out: Vec<String> = Vec::new();
    let mut i: usize = 0;
    assert(all.take(0) =~= Seq::<Seq<char>>::empty());
    assert(owned_views(out@) =~= Seq::<Seq<char>>::empty());
    while i < pieces.len()
        invariant
            i <= pieces@.len(),
            all == owned_views(pieces@),
            owned_views(out@) == real_parts(all.take(i as int)),
        decreases pieces@.len() - i,
    {
        assert(all.take(i + 1).drop_last() =~= all.take(i as int));
        assert(all[i as int] == pieces@[i as int]@);
        let chars = chars_of(pieces[i].as_str());
        if chars.len() > 0 && !crate::text::same(pieces[i].as_str(), ".") {
            let ghost was = out@;
            out.push(pieces[i].clone());
            assert(owned_views(out@) =~= owned_views(was).push(all[i as int]));
        }
        i = i + 1;
    }
    assert(all.take(i as int) =~= all);
    out
}

/// The path from one directory to another. Where only one of the two starts at
/// the root there is no way between them, and the second is kept as it is.
pub fn relative_path(from_dir: &str, to: &str) -> (out: String)
    ensures
        out@ == relative(from_dir@, to@),
{
    let f = chars_of(from_dir);
    let t = chars_of(to);
    let rooted_from = f.len() > 0 && f[0] == '/';
    let rooted_to = t.len() > 0 && t[0] == '/';
    if rooted_from != rooted_to {
        return to.to_owned();
    }
    let a = parts_of(from_dir);
    let b = parts_of(to);
    let ghost av = owned_views(a@);
    let ghost bv = owned_views(b@);
    let mut k: usize = 0;
    while k < a.len() && k < b.len() && a[k] == b[k]
        invariant
            k <= a@.len(),
            k <= b@.len(),
            av == owned_views(a@),
            bv == owned_views(b@),
            forall|i: int| 0 <= i < k ==> av[i] == bv[i],
        decreases a@.len() - k,
    {
        assert(av[k as int] == bv[k as int]);
        k = k + 1;
    }
    proof {
        if k < a@.len() && k < b@.len() {
            assert(av[k as int] == a@[k as int]@ && bv[k as int] == b@[k as int]@);
        }
        assert(shared_parts(av, bv, k as int));
        let c = choose|c: int| shared_parts(av, bv, c);
        assert(shared_parts(av, bv, c));
        if c < k {
            assert(av[c] == bv[c]);
        } else if c > k {
            assert(av[k as int] == bv[k as int]);
        }
        assert(c == k);
    }
    let mut walk: Vec<String> = Vec::new();
    let ups: usize = a.len() - k;
    let ghost up = Seq::new(ups as nat, |i: int| ".."@);
    let mut i: usize = 0;
    while i < ups
        invariant
            i <= ups,
            up == Seq::new(ups as nat, |i: int| ".."@),
            owned_views(walk@) == up.take(i as int),
        decreases ups - i,
    {
        let ghost was = walk@;
        walk.push("..".to_owned());
        assert(owned_views(walk@) =~= owned_views(was).push(".."@));
        assert(up.take(i + 1) =~= up.take(i as int).push(".."@));
        i = i + 1;
    }
    assert(up.take(ups as int) =~= up);
    let ghost down = bv.skip(k as int);
    if k == b.len() && ups > 0 {
        let ghost was = walk@;
        walk.push(String::new());
        assert(owned_views(walk@) =~= owned_views(was).push(Seq::<char>::empty()));
        assert(owned_views(walk@) == steps(av, bv));
        return join(&walk, "/");
    }
    let mut j: usize = k;
    assert(up + down.take(0) =~= up);
    while j < b.len()
        invariant
            k <= j <= b@.len(),
            bv == owned_views(b@),
            down == bv.skip(k as int),
            owned_views(walk@) == up + down.take(j - k),
        decreases b@.len() - j,
    {
        let ghost was = walk@;
        walk.push(b[j].clone());
        assert(bv[j as int] == b@[j as int]@);
        assert(owned_views(walk@) =~= owned_views(was).push(bv[j as int]));
        assert(up + down.take(j + 1 - k) =~= (up + down.take(j - k)).push(down[j - k]));
        j = j + 1;
    }
    assert(down.take(j - k) =~= down);
    assert(owned_views(walk@) == steps(av, bv));
    join(&walk, "/")
}

/// The manifest of a stage's crate.
pub open spec fn stage_cargo_text(name: Seq<char>, sdk: Seq<char>, deps: Seq<char>) -> Seq<char> {
    STAGE_CARGO_HEAD@ + name + STAGE_CARGO_MIDDLE@ + sdk + "\" }\n"@ + deps
}

pub const STAGE_CARGO_HEAD: &'static str = "# GENERATED by epico-cli. Do not edit directly — edit the source .rs\n# or the pipeline.yaml and re-run `epico build`.\n[package]\nname = \"";

pub const STAGE_CARGO_MIDDLE: &'static str = "\"\nversion = \"0.1.0\"\nedition = \"2021\"\n\n[lib]\ncrate-type = [\"cdylib\"]\n\n[dependencies]\nwit-bindgen = \"0.34\"\nepico-sdk = { path = \"";

/// The root of a stage's crate: the user's file, taken from where it is.
pub open spec fn stage_lib_text(given: Seq<char>, resolved: Seq<char>) -> Seq<char> {
    STAGE_LIB_HEAD@ + given + "\n\ninclude!(\""@ + resolved + "\");\n"@
}

pub const STAGE_LIB_HEAD: &'static str = "// GENERATED by epico-cli. Do not edit directly.\n// The real source lives at: ";

/// The files of one stage's crate.
#[derive(Debug)]
pub struct StageFiles {
    pub wit: String,
    pub cargo: String,
    pub lib: String,
}

/// Why a stage's crate cannot be written.
#[derive(Debug)]
pub enum ScaffoldError {
    /// A type it takes or gives is not declared.
    Wit(WitFault),
    /// A dependency is refused.
    Deps(String, DepError),
}

/// What a stage's crate is written from: its own place, the kit's, and that of
/// the user's file, each as the file system has them.
#[derive(Debug)]
pub struct StagePlaces {
    pub crate_dir: String,
    pub sdk_dir: String,
    pub user_file: String,
}

/// The types that a stage takes and gives are declared, where it has any.
pub open spec fn types_are_known(stage: StageSpec, types: Seq<(String, TypeDef)>) -> bool {
    is_untyped(stage, types) || (has_name(type_names(types), stage.input_type@) && has_name(
        type_names(types),
        stage.output_type@,
    ))
}

/// The stage's crate can be written.
pub open spec fn can_scaffold(stage: StageSpec, types: Seq<(String, TypeDef)>) -> bool {
    types_are_known(stage, types) && deps_text(stage.deps@) is Ok
}

/// The fault is the one that keeps the stage's crate from being written: a type
/// it takes, a type it gives, a dependency, in this order.
pub open spec fn is_fault_of(e: ScaffoldError, stage: StageSpec, types: Seq<(String, TypeDef)>) -> bool {
    let known = type_names(types);
    match e {
        ScaffoldError::Wit(WitFault::Input) => {
            !is_untyped(stage, types) && !has_name(known, stage.input_type@)
        },
        ScaffoldError::Wit(WitFault::Output) => {
            &&& !is_untyped(stage, types)
            &&& has_name(known, stage.input_type@)
            &&& !has_name(known, stage.output_type@)
        },
        ScaffoldError::Deps(name, e) => {
            &&& types_are_known(stage, types)
            &&& deps_text(stage.deps@) == Err::<Seq<char>, (Seq<char>, DepModel)>((name@, e@))
        },
    }
}

/// The files are those of the stage's crate.
pub open spec fn are_files_of(
    files: StageFiles,
    stage: StageSpec,
    given: Seq<char>,
    types: Seq<(String, TypeDef)>,
    shared_wit: Seq<char>,
    places: StagePlaces,
) -> bool {
    &&& files.wit@ == (if is_untyped(stage, types) {
        before_worlds(shared_wit) + "\n"@ + WORLD@
    } else {
        typed_wit(stage, types)
    })
    &&& files.cargo@ == stage_cargo_text(
        crate_name(stage.name@),
        relative(places.crate_dir@, places.sdk_dir@),
        deps_text(stage.deps@)->Ok_0,
    )
    &&& files.lib@ == stage_lib_text(given, places.user_file@)
}

/// Writes the crate of one stage.
pub fn scaffold_rust_stage(
    stage: &StageSpec,
    given: &str,
    types: &Vec<(String, TypeDef)>,
    shared_wit: &str,
    places: &StagePlaces,
) -> (r: Result<StageFiles, ScaffoldError>)
    ensures
        match r {
            Err(e) => is_fault_of(e, *stage, types@),
            Ok(files) => can_scaffold(*stage, types@) && are_files_of(
                files,
                *stage,
                given@,
                types@,
                shared_wit@,
                *places,
            ),
        },
{
    let wit = match make_typed_stage_wit(stage, types, shared_wit) {
        Err(e) => {
            return Err(ScaffoldError::Wit(e));
        },
        Ok(w) => w,
    };
    let deps = match render_extra_deps(&stage.deps) {
        Err(e) => {
            return Err(ScaffoldError::Deps(e.0, e.1));
        },
        Ok(d) => d,
    };
    let sdk = relative_path(places.crate_dir.as_str(), places.sdk_dir.as_str());
    let name = stage_crate_name(stage.name.as_str());
    let mut cargo = STAGE_CARGO_HEAD.to_owned();
    cargo.append(name.as_str());
    cargo.append(STAGE_CARGO_MIDDLE);
    cargo.append(sdk.as_str());
    cargo.append("\" }\n");
    cargo.append(deps.as_str());
    let mut lib = STAGE_LIB_HEAD.to_owned();
    lib.append(given);
    lib.append("\n\ninclude!(\"");
    lib.append(places.user_file.as_str());
    lib.append("\");\n");
    Ok(StageFiles { wit, cargo, lib })
}

/// The files of the agent's crate.
#[derive(Debug)]
pub struct AgentFiles {
    pub cargo: String,
    pub main: String,
    pub typed_dispatch: String,
}

pub const AGENT_CARGO_HEAD: &'static str = "[package]\nname = \"epico-agent\"\nversion = \"0.1.0\"\nedition = \"2021\"\n\n[[bin]]\nname = \"epico-agent\"\npath = \"src/main.rs\"\n\n[dependencies]\nepico_master = { path = \"";

pub const AGENT_CARGO_TAIL: &'static str = "\", package = \"master\" }\nserde = { version = \"1\", features = [\"derive\"] }\nserde_json = \"1\"\n# Typed dispatch: the generated structs derive wasmtime component traits.\n# MUST stay semver-compatible with master's wasmtime so cargo unifies them\n# into one copy (foreign-crate trait impls would not typecheck otherwise).\nwasmtime = { version = \"26\", features = [\"component-model\"] }\n\n# Standalone crate: it lives under target/epico/ next to the generated stage\n# workspace, so declare an empty workspace table to keep Cargo from treating it\n# as a member of that workspace.\n[workspace]\n";

pub const AGENT_MAIN_HEAD: &'static str = "//! Generated per-pipeline agent. Do not edit — regenerated by `epico build`.\n//!\n//! Links the pipeline's native source/sink and typed dispatch into the agent\n//! library and runs it.\n";

pub const AGENT_MAIN_MIDDLE: &'static str = "mod typed_dispatch;\n\nfn main() {\n    epico_master::typed::register(typed_dispatch::registry());\n    epico_master::run_agent(\n        epico_master::parse_args(),\n        ";

pub const AGENT_SOURCE: &'static str = "Some(Box::new(|| -> Box<dyn epico_master::EventSource> { Box::new(source::Source::new()) }))";

pub const AGENT_SINK: &'static str = "Some(Box::new(sink::Sink::new()))";

/// The root of the agent: which of the pipeline's ends are linked in.
pub open spec fn agent_main_text(source: bool, sink: bool) -> Seq<char> {
    AGENT_MAIN_HEAD@ + (if source {
        "mod source;\n"@
    } else {
        ""@
    }) + (if sink {
        "mod sink;\n"@
    } else {
        ""@
    }) + AGENT_MAIN_MIDDLE@ + (if source {
        AGENT_SOURCE@
    } else {
        "None"@
    }) + ",\n        "@ + (if sink {
        AGENT_SINK@
    } else {
        "None"@
    }) + ",\n    );\n}\n"@
}

/// Writes the crate of the agent. An end that the pipeline does not bring is
/// passed as none, and the agent falls back to its own.
pub fn scaffold_agent_crate(
    source_node: bool,
    sink_node: bool,
    master_dir: &str,
    stages: &Vec<StageSpec>,
    types: &Vec<(String, TypeDef)>,
) -> (files: AgentFiles)
    ensures
        files.cargo@ == AGENT_CARGO_HEAD@ + replaced(master_dir@, '\\', '/') + AGENT_CARGO_TAIL@,
        files.main@ == agent_main_text(source_node, sink_node),
        files.typed_dispatch@ == dispatch_text(stages@, types@),
{
    let dir = replace_char(master_dir, '\\', '/');
    let mut cargo = AGENT_CARGO_HEAD.to_owned();
    cargo.append(dir.as_str());
    cargo.append(AGENT_CARGO_TAIL);
    let mut main = AGENT_MAIN_HEAD.to_owned();
    main.append(
        if source_node {
            "mod source;\n"
        } else {
            ""
        },
    );
    main.append(
        if sink_node {
            "mod sink;\n"
        } else {
            ""
        },
    );
    main.append(AGENT_MAIN_MIDDLE);
    main.append(
        if source_node {
            AGENT_SOURCE
        } else {
            "None"
        },
    );
    main.append(",\n        ");
    main.append(
        if sink_node {
            AGENT_SINK
        } else {
            "None"
        },
    );
    main.append(",\n    );\n}\n");
    AgentFiles { cargo, main, typed_dispatch: emit_typed_dispatch(stages, types) }
}

} // verus!
