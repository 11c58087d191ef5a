//! What the commands decide: where a project is, what has to be built, how the
//! programs are called, and how a run that starts several of them goes on.

use vstd::prelude::*;
use crate::numtext::{join, joined, owned_views};
use crate::pipeline_spec::{join_path, path_from, Yaml};
use crate::supervisor::put;
use crate::text::{replace_char, replaced, rsplit_once, same, split_at_last};

verus! {

/// The directory that a path lies in. The path has no slash at its end and none
/// twice.
pub open spec fn parent_of(p: Seq<char>) -> Option<Seq<char>> {
    if p.len() == 0 || p == "/"@ {
        None
    } else {
        match split_at_last(p, '/') {
            None => Some(Seq::empty()),
            Some((dir, _)) => Some(
                if dir.len() == 0 {
                    "/"@
                } else {
                    dir
                },
            ),
        }
    }
}

/// A directory and those that it lies in, `n` of them at most.
pub open spec fn climbed(dir: Seq<char>, n: nat) -> Seq<Seq<char>>
    decreases n,
{
    if n == 0 {
        Seq::empty()
    } else {
        seq![dir] + (match parent_of(dir) {
            None => Seq::empty(),
            Some(p) => climbed(p, (n - 1) as nat),
        })
    }
}

/// The directory that a path lies in.
pub fn parent(p: &str) -> (r: Option<String>)
    ensures
        match r {
            None => parent_of(p@) is None,
            Some(d) => parent_of(p@) == Some(d@),
        },
{
    if p.unicode_len() == 0 || same(p, "/") {
        return None;
    }
    match rsplit_once(p, '/') {
        None => Some(String::new()),
        Some((dir, _)) => if dir.as_str().unicode_len() == 0 {
            Some("/".to_owned())
        } else {
            Some(dir)
        },
    }
}

/// A directory and those that it lies in, `levels` of them at most: where a
/// project is looked for.
pub fn climb(dir: &str, levels: usize) -> (out: Vec<String>)
    ensures
        owned_views(out@) == climbed(dir@, levels as nat),
{
    let mut out: Vec<String> = Vec::new();
    let mut cursor = dir.to_owned();
    let mut left: usize = levels;
    let ghost all = climbed(dir@, levels as nat);
    assert(owned_views(out@) + climbed(cursor@, left as nat) =~= all);
    while left > 0
        invariant
            left <= levels,
            all == climbed(dir@, levels as nat),
            owned_views(out@) + climbed(cursor@, left as nat) == all,
        decreases left,
    {
        let ghost was = owned_views(out@);
        let ghost at = cursor@;
        put(&mut out, cursor.as_str());
        match parent(cursor.as_str()) {
            None => {
                proof {
                    assert(was + climbed(at, left as nat) =~= owned_views(out@));
                }
                return out;
            },
            Some(p) => {
                proof {
                    assert(was + climbed(at, left as nat) =~= owned_views(out@) + climbed(
                        p@,
                        (left - 1) as nat,
                    ));
                }
                cursor = p;
            },
        }
        left = left - 1;
    }
    assert(owned_views(out@) + Seq::<Seq<char>>::empty() =~= owned_views(out@));
    out
}

/// Law: a project is looked for in the directory itself first, and in no more
/// directories than there are levels.
pub proof fn law_climbing_starts_here(dir: Seq<char>, n: nat)
    ensures
        climbed(dir, n).len() <= n,
        n > 0 ==> climbed(dir, n).len() > 0 && climbed(dir, n)[0] == dir,
    decreases n,
{
    if n > 0 {
        match parent_of(dir) {
            None => {},
            Some(p) => {
                law_climbing_starts_here(p, (n - 1) as nat);
            },
        }
    }
}

/// The first place at which something was found.
pub open spec fn first_found(places: Seq<Seq<char>>, found: Seq<bool>, i: int) -> bool {
    &&& 0 <= i < places.len()
    &&& found[i]
    &&& forall|k: int| 0 <= k < i ==> !#[trigger] found[k]
}

/// The first of some places at which something was found.
pub fn pick_found(places: &Vec<String>, found: &Vec<bool>) -> (r: Option<String>)
    requires
        found@.len() == places@.len(),
    ensures
        match r {
            None => forall|k: int| 0 <= k < found@.len() ==> !#[trigger] found@[k],
            Some(p) => exists|i: int|
                first_found(owned_views(places@), found@, i) && owned_views(places@)[i] == p@,
        },
{
    let mut i: usize = 0;
    while i < places.len()
        invariant
            i <= places@.len() == found@.len(),
            forall|k: int| 0 <= k < i ==> !#[trigger] found@[k],
        decreases places@.len() - i,
    {
        if found[i] {
            let p = places[i].clone();
            assert(first_found(owned_views(places@), found@, i as int)
                && owned_views(places@)[i as int] == p@);
            return Some(p);
        }
        i = i + 1;
    }
    None
}

/// Where the dispatcher's program may be: beside the agent's, or in the build
/// directory of one of the eight directories that this lies in.
pub open spec fn dispatcher_places(exe_dir: Seq<char>) -> Seq<Seq<char>> {
    seq![path_from(exe_dir, "dispatcher"@)] + climbed(exe_dir, 8).map_values(
        |d: Seq<char>| path_from(path_from(path_from(d, "target"@), "release"@), "dispatcher"@),
    )
}

/// Where the dispatcher's program may be, in the order in which it is looked for.
pub fn dispatcher_candidates(exe_dir: &str) -> (out: Vec<String>)
    ensures
        owned_views(out@) == dispatcher_places(exe_dir@),
{
    let dirs = climb(exe_dir, 8);
    let ghost dirs_m = owned_views(dirs@);
    let ghost all = dirs_m.map_values(
        |d: Seq<char>| path_from(path_from(path_from(d, "target"@), "release"@), "dispatcher"@),
    );
    let mut out: Vec<String> = Vec::new();
    assert(owned_views(out@) =~= Seq::<Seq<char>>::empty());
    let sibling = join_path(exe_dir, "dispatcher");
    put(&mut out, sibling.as_str());
    let ghost head = seq![sibling@];
    assert(owned_views(out@) =~= head + all.take(0));
    let mut i: usize = 0;
    while i < dirs.len()
        invariant
            i <= dirs@.len(),
            dirs_m == owned_views(dirs@),
            all == dirs_m.map_values(
                |d: Seq<char>|
                    path_from(path_from(path_from(d, "target"@), "release"@), "dispatcher"@),
            ),
            owned_views(out@) == head + all.take(i as int),
        decreases dirs@.len() - i,
    {
        assert(dirs_m[i as int] == dirs@[i as int]@);
        let target = join_path(dirs[i].as_str(), "target");
        let release = join_path(target.as_str(), "release");
        let place = join_path(release.as_str(), "dispatcher");
        put(&mut out, place.as_str());
        assert(head + all.take(i + 1) =~= (head + all.take(i as int)).push(all[i as int]));
        i = i + 1;
    }
    assert(all.take(i as int) =~= all);
    out
}

/// Which dispatcher's program is started.
#[derive(Debug)]
pub enum DispatcherChoice {
    At(String),
    /// The one that was asked for is not there.
    NotThere,
    /// There is none.
    NotFound,
}

/// Picks the dispatcher's program: the one that was asked for, which must be
/// there; the one that the environment names, where it is there; the first of
/// the usual places at which there is one.
pub fn pick_dispatcher(
    asked: &Option<(String, bool)>,
    named: &Option<(String, bool)>,
    places: &Vec<String>,
    found: &Vec<bool>,
) -> (r: DispatcherChoice)
    requires
        found@.len() == places@.len(),
    ensures
        match *asked {
            Some((p, there)) => if there {
                r matches DispatcherChoice::At(q) && q@ == p@
            } else {
                r is NotThere
            },
            None => match *named {
                Some((p, true)) => r matches DispatcherChoice::At(q) && q@ == p@,
                _ => match r {
                    DispatcherChoice::At(q) => exists|i: int|
                        first_found(owned_views(places@), found@, i) && owned_views(places@)[i]
                            == q@,
                    DispatcherChoice::NotThere => false,
                    DispatcherChoice::NotFound => forall|k: int|
                        0 <= k < found@.len() ==> !#[trigger] found@[k],
                },
            },
        },
{
    if let Some((p, there)) = asked {
        return if *there {
            DispatcherChoice::At(p.clone())
        } else {
            DispatcherChoice::NotThere
        };
    }
    if let Some((p, there)) = named {
        if *there {
            return DispatcherChoice::At(p.clone());
        }
    }
    match pick_found(places, found) {
        Some(p) => DispatcherChoice::At(p),
        None => DispatcherChoice::NotFound,
    }
}

/// Where the root of a project is taken from.
#[derive(Clone, Copy, Debug, PartialEq, Eq, Structural)]
pub enum RootChoice {
    /// The one that was given.
    Given,
    /// Found from the working directory.
    Around,
    /// Found from the pipeline's file.
    AroundFile,
    /// Nowhere.
    Unknown,
}

/// Where the root of a project is taken from by a command that needs no
/// pipeline.
pub fn choose_root(given: bool, found_around: bool, file_exists: bool) -> (r: RootChoice)
    ensures
        r == (if given {
            RootChoice::Given
        } else if found_around {
            RootChoice::Around
        } else if file_exists {
            RootChoice::AroundFile
        } else {
            RootChoice::Unknown
        }),
{
    if given {
        RootChoice::Given
    } else if found_around {
        RootChoice::Around
    } else if file_exists {
        RootChoice::AroundFile
    } else {
        RootChoice::Unknown
    }
}

/// When the stages' components are compiled for the machine.
#[derive(Clone, Copy, Debug, PartialEq, Eq, Structural)]
pub enum CompileMode {
    /// When they are built.
    Ahead,
    /// When the first worker starts.
    Deferred,
    /// When the agent starts.
    Startup,
}

impl CompileMode {
    /// The mode that the flags ask for; none where they exclude each other.
    pub fn from_flags(aot: bool, jit: bool) -> (r: Option<CompileMode>)
        ensures
            r == (if aot && jit {
                None
            } else if aot {
                Some(CompileMode::Ahead)
            } else if jit {
                Some(CompileMode::Deferred)
            } else {
                Some(CompileMode::Startup)
            }),
    {
        if aot && jit {
            None
        } else if aot {
            Some(CompileMode::Ahead)
        } else if jit {
            Some(CompileMode::Deferred)
        } else {
            Some(CompileMode::Startup)
        }
    }

    /// What the agent's configuration says of the mode.
    pub open spec fn setting(self) -> Option<Seq<char>> {
        match self {
            CompileMode::Ahead => Some("aot"@),
            CompileMode::Deferred => Some("jit"@),
            CompileMode::Startup => None,
        }
    }

    /// What the agent's configuration says of the mode.
    pub fn name(self) -> (r: Option<&'static str>)
        ensures
            match r {
                None => self.setting() is None,
                Some(s) => self.setting() == Some(s@),
            },
    {
        match self {
            CompileMode::Ahead => Some("aot"),
            CompileMode::Deferred => Some("jit"),
            CompileMode::Startup => None,
        }
    }

    pub open spec fn described(self) -> Seq<char> {
        match self {
            CompileMode::Ahead => "AOT (.cwasm precompiled)"@,
            CompileMode::Deferred => "JIT (.wasm->.cwasm at cold-start)"@,
            CompileMode::Startup => "startup-JIT (.wasm compiled at autoscaler start)"@,
        }
    }

    /// What the user is told of the mode.
    pub fn describe(self) -> (s: &'static str)
        ensures
            s@ == self.described(),
    {
        match self {
            CompileMode::Ahead => "AOT (.cwasm precompiled)",
            CompileMode::Deferred => "JIT (.wasm->.cwasm at cold-start)",
            CompileMode::Startup => "startup-JIT (.wasm compiled at autoscaler start)",
        }
    }

    /// How a stage stands, from which of its files are there.
    pub open spec fn stage_state(self, wasm: bool, compiled: bool) -> Seq<char> {
        if compiled {
            "AOT"@
        } else if wasm && self == CompileMode::Deferred {
            "JIT (deferred)"@
        } else if wasm {
            "JIT (startup)"@
        } else {
            "MISSING"@
        }
    }

    /// What the user is told of how a stage stands.
    pub fn describe_stage(self, wasm: bool, compiled: bool) -> (s: &'static str)
        ensures
            s@ == self.stage_state(wasm, compiled),
    {
        if compiled {
            "AOT"
        } else if wasm && self == CompileMode::Deferred {
            "JIT (deferred)"
        } else if wasm {
            "JIT (startup)"
        } else {
            "MISSING"
        }
    }
}

/// What is to be done about the stages' components before a run.
#[derive(Debug)]
pub enum BuildStep {
    Build,
    /// They are there already.
    Reuse,
    /// They were to be there, and those of these stages are not.
    Missing(String),
    /// There are none to build.
    Nothing,
}

/// The names of the stages whose component is not there.
pub open spec fn absent(stages: Seq<(String, String)>, there: Seq<bool>) -> Seq<Seq<char>>
    decreases stages.len(),
{
    if stages.len() == 0 {
        Seq::empty()
    } else if there[stages.len() - 1] {
        absent(stages.drop_last(), there)
    } else {
        absent(stages.drop_last(), there).push(stages.last().0@)
    }
}

/// The names of the stages whose component is not there.
pub fn missing_stages(stages: &Vec<(String, String)>, there: &Vec<bool>) -> (out: Vec<String>)
    requires
        there@.len() == stages@.len(),
    ensures
        owned_views(out@) == absent(stages@, there@),
{
    let mut out: Vec<String> = Vec::new();
    let mut i: usize = 0;
    assert(stages@.take(0) =~= Seq::<(String, String)>::empty());
    assert(owned_views(out@) =~= Seq::<Seq<char>>::empty());
    while i < stages.len()
        invariant
            i <= stages@.len() == there@.len(),
            owned_views(out@) == absent(stages@.take(i as int), there@),
        decreases stages@.len() - i,
    {
        assert(stages@.take(i + 1).drop_last() =~= stages@.take(i as int));
        if !there[i] {
            put(&mut out, stages[i].0.as_str());
        }
        i = i + 1;
    }
    assert(stages@.take(i as int) =~= stages@);
    out
}

/// What is to be done about the stages' components before a run.
pub fn build_step(
    needs_build: bool,
    no_build: bool,
    stages: &Vec<(String, String)>,
    there: &Vec<bool>,
) -> (r: BuildStep)
    requires
        there@.len() == stages@.len(),
    ensures
        match r {
            BuildStep::Build => needs_build && !no_build,
            BuildStep::Reuse => no_build && absent(stages@, there@).len() == 0,
            BuildStep::Missing(names) => {
                &&& no_build
                &&& absent(stages@, there@).len() > 0
                &&& names@ == joined(absent(stages@, there@), ", "@)
            },
            BuildStep::Nothing => !needs_build && !no_build,
        },
{
    if needs_build && !no_build {
        BuildStep::Build
    } else if no_build {
        let names = missing_stages(stages, there);
        if names.len() > 0 {
            BuildStep::Missing(join(&names, ", "))
        } else {
            BuildStep::Reuse
        }
    } else {
        BuildStep::Nothing
    }
}

/// The file name without what stands behind its last dot.
pub open spec fn stem(file: Seq<char>) -> Seq<char> {
    match split_at_last(file, '.') {
        Some((s, _)) if s.len() > 0 => s,
        _ => file,
    }
}

/// Where the compiled form of a component is kept: beside it.
pub open spec fn compiled_place(wasm: Seq<char>) -> Seq<char> {
    match split_at_last(wasm, '/') {
        Some((dir, file)) => dir + "/"@ + stem(file) + ".cwasm"@,
        None => stem(wasm) + ".cwasm"@,
    }
}

fn stem_of(file: &str) -> (out: String)
    ensures
        out@ == stem(file@),
{
    match rsplit_once(file, '.') {
        Some((s, _)) => if s.as_str().unicode_len() > 0 {
            s
        } else {
            file.to_owned()
        },
        None => file.to_owned(),
    }
}

/// Where the compiled form of a component is kept.
pub fn cwasm_path(wasm: &str) -> (out: String)
    ensures
        out@ == compiled_place(wasm@),
{
    match rsplit_once(wasm, '/') {
        Some((dir, file)) => {
            let mut out = dir;
            out.append("/");
            out.append(stem_of(file.as_str()).as_str());
            out.append(".cwasm");
            out
        },
        None => {
            let mut out = stem_of(wasm);
            out.append(".cwasm");
            out
        },
    }
}

/// How the stages are built.
pub fn stage_build_args(manifest: &str) -> (out: Vec<String>)
    ensures
        owned_views(out@) == seq![
            "build"@,
            "--release"@,
            "--target"@,
            "wasm32-wasip2"@,
            "--manifest-path"@,
            manifest@,
        ],
{
    let mut out: Vec<String> = Vec::new();
    assert(owned_views(out@) =~= Seq::<Seq<char>>::empty());
    put(&mut out, "build");
    put(&mut out, "--release");
    put(&mut out, "--target");
    put(&mut out, "wasm32-wasip2");
    put(&mut out, "--manifest-path");
    put(&mut out, manifest);
    out
}

/// How the agent and the dispatcher are built.
pub open spec fn bootstrap_call(manifest: Seq<char>, cold_start_opt: bool) -> Seq<Seq<char>> {
    seq![
        "build"@,
        "--release"@,
        "--manifest-path"@,
        manifest,
        "-p"@,
        "master"@,
        "-p"@,
        "dispatcher"@,
    ] + (if cold_start_opt {
        seq!["--features"@, "master/cold-start-opt"@]
    } else {
        Seq::empty()
    })
}

/// How the agent and the dispatcher are built.
pub fn bootstrap_args(manifest: &str, cold_start_opt: bool) -> (out: Vec<String>)
    ensures
        owned_views(out@) == bootstrap_call(manifest@, cold_start_opt),
{
    let mut out: Vec<String> = Vec::new();
    assert(owned_views(out@) =~= Seq::<Seq<char>>::empty());
    put(&mut out, "build");
    put(&mut out, "--release");
    put(&mut out, "--manifest-path");
    put(&mut out, manifest);
    put(&mut out, "-p");
    put(&mut out, "master");
    put(&mut out, "-p");
    put(&mut out, "dispatcher");
    let ghost head = owned_views(out@);
    if cold_start_opt {
        put(&mut out, "--features");
        put(&mut out, "master/cold-start-opt");
        assert(owned_views(out@) =~= head + seq!["--features"@, "master/cold-start-opt"@]);
    } else {
        assert(owned_views(out@) =~= head + Seq::<Seq<char>>::empty());
    }
    out
}

/// How the agent is called.
pub open spec fn agent_call(
    runtime_yaml: Seq<char>,
    log_dir: Seq<char>,
    ready_file: Option<Seq<char>>,
    dispatcher: Option<Seq<char>>,
) -> Seq<Seq<char>> {
    seq![runtime_yaml, "--log-dir"@, log_dir] + (match ready_file {
        Some(f) => seq!["--ready-file"@, f],
        None => Seq::empty(),
    }) + (match dispatcher {
        Some(d) => seq!["--dispatcher-bin"@, d],
        None => Seq::empty(),
    })
}

pub open spec fn opt_text(s: Option<&str>) -> Option<Seq<char>> {
    match s {
        None => None,
        Some(t) => Some(t@),
    }
}

/// How the agent is called: with a file by which it says that it is ready where
/// something waits for that.
pub fn agent_args(
    runtime_yaml: &str,
    log_dir: &str,
    ready_file: Option<&str>,
    dispatcher: Option<&str>,
) -> (out: Vec<String>)
    ensures
        owned_views(out@) == agent_call(
            runtime_yaml@,
            log_dir@,
            opt_text(ready_file),
            opt_text(dispatcher),
        ),
{
    let mut out: Vec<String> = Vec::new();
    assert(owned_views(out@) =~= Seq::<Seq<char>>::empty());
    put(&mut out, runtime_yaml);
    put(&mut out, "--log-dir");
    put(&mut out, log_dir);
    let ghost head = owned_views(out@);
    if let Some(f) = ready_file {
        put(&mut out, "--ready-file");
        put(&mut out, f);
        assert(owned_views(out@) =~= head + seq!["--ready-file"@, f@]);
    } else {
        assert(owned_views(out@) =~= head + Seq::<Seq<char>>::empty());
    }
    let ghost more = owned_views(out@);
    if let Some(d) = dispatcher {
        put(&mut out, "--dispatcher-bin");
        put(&mut out, d);
        assert(owned_views(out@) =~= more + seq!["--dispatcher-bin"@, d@]);
    } else {
        assert(owned_views(out@) =~= more + Seq::<Seq<char>>::empty());
    }
    out
}

/// The flag of a source's parameter.
pub open spec fn flag_of(name: Seq<char>) -> Seq<char> {
    "--"@ + replaced(name, '_', '-')
}

/// What a parameter of the source adds to its call; none where its value has no
/// place there.
pub open spec fn param_args(name: Seq<char>, value: Yaml) -> Option<Seq<Seq<char>>> {
    match value {
        Yaml::Null => Some(Seq::empty()),
        Yaml::Bool(b) => Some(
            if b {
                seq![flag_of(name)]
            } else {
                Seq::empty()
            },
        ),
        Yaml::Number(t) => Some(seq![flag_of(name), t@]),
        Yaml::Text(t) => Some(seq![flag_of(name), t@]),
        _ => None,
    }
}

/// What the parameters of the source add to its call.
pub open spec fn all_param_args(params: Seq<(String, Yaml)>) -> Seq<Seq<char>>
    decreases params.len(),
{
    if params.len() == 0 {
        Seq::empty()
    } else {
        all_param_args(params.drop_last()) + (match param_args(
            params.last().0@,
            params.last().1,
        ) {
            Some(a) => a,
            None => Seq::empty(),
        })
    }
}

/// How the load generator is called; the place of the first parameter that has
/// no place in the call, where there is one.
pub fn loadgen_args(runtime_yaml: &str, log_dir: &str, params: &Vec<(String, Yaml)>) -> (r: Result<
    Vec<String>,
    usize,
>)
    ensures
        match r {
            Err(i) => {
                &&& i < params@.len()
                &&& param_args(params@[i as int].0@, params@[i as int].1) is None
                &&& forall|k: int|
                    0 <= k < i ==> param_args((#[trigger] params@[k]).0@, params@[k].1) is Some
            },
            Ok(args) => {
                &&& forall|k: int|
                    0 <= k < params@.len() ==> param_args(
                        (#[trigger] params@[k]).0@,
                        params@[k].1,
                    ) is Some
                &&& owned_views(args@) == seq![
                    "--config"@,
                    runtime_yaml@,
                    "--log-dir"@,
                    log_dir@,
                ] + all_param_args(params@)
            },
        },
{
    let mut out: Vec<String> = Vec::new();
    assert(owned_views(out@) =~= Seq::<Seq<char>>::empty());
    put(&mut out, "--config");
    put(&mut out, runtime_yaml);
    put(&mut out, "--log-dir");
    put(&mut out, log_dir);
    let ghost head = owned_views(out@);
    assert(params@.take(0) =~= Seq::<(String, Yaml)>::empty());
    assert(head + Seq::<Seq<char>>::empty() =~= head);
    let mut i: usize = 0;
    while i < params.len()
        invariant
            i <= params@.len(),
            forall|k: int|
                0 <= k < i ==> param_args((#[trigger] params@[k]).0@, params@[k].1) is Some,
            owned_views(out@) == head + all_param_args(params@.take(i as int)),
        decreases params@.len() - i,
    {
        let ghost was = owned_views(out@);
        let ghost before = all_param_args(params@.take(i as int));
        assert(params@.take(i + 1).drop_last() =~= params@.take(i as int));
        let p = &params[i];
        let mut flag = "--".to_owned();
        flag.append(replace_char(p.0.as_str(), '_', '-').as_str());
        match &p.1 {
            Yaml::Null => {
                assert(was + Seq::<Seq<char>>::empty() =~= was);
            },
            Yaml::Bool(b) => {
                if *b {
                    put(&mut out, flag.as_str());
                    assert(owned_views(out@) =~= was + seq![flag@]);
                }
            },
            Yaml::Number(t) => {
                put(&mut out, flag.as_str());
                put(&mut out, t.as_str());
                assert(owned_views(out@) =~= was + seq![flag@, t@]);
            },
            Yaml::Text(t) => {
                put(&mut out, flag.as_str());
                put(&mut out, t.as_str());
                assert(owned_views(out@) =~= was + seq![flag@, t@]);
            },
            _ => {
                return Err(i);
            },
        }
        proof {
            let add = param_args(p.0@, p.1)->0;
            assert(head + (before + add) =~= (head + before) + add);
            assert(was + Seq::<Seq<char>>::empty() =~= was);
        }
        i = i + 1;
    }
    assert(params@.take(i as int) =~= params@);
    Ok(out)
}

/// The milliseconds that the agent may take to become ready.
pub const READY_TIMEOUT_MS: u64 = 30_000;

/// What is done while the agent is not ready yet.
#[derive(Clone, Copy, Debug, PartialEq, Eq, Structural)]
pub enum WaitStep {
    /// It is ready.
    Ready,
    /// It is gone.
    AgentGone,
    /// It is to be killed: it took too long.
    TimedOut,
    /// It is to be killed: the user wants to stop.
    Interrupted,
    /// Look again later.
    Wait,
}

/// What is done while the agent is not ready yet, the first that applies.
pub fn wait_step(ready: bool, agent_gone: bool, waited_ms: u64, interrupts: usize) -> (s: WaitStep)
    ensures
        s == (if ready {
            WaitStep::Ready
        } else if agent_gone {
            WaitStep::AgentGone
        } else if waited_ms > READY_TIMEOUT_MS {
            WaitStep::TimedOut
        } else if interrupts > 0 {
            WaitStep::Interrupted
        } else {
            WaitStep::Wait
        }),
{
    if ready {
        WaitStep::Ready
    } else if agent_gone {
        WaitStep::AgentGone
    } else if waited_ms > READY_TIMEOUT_MS {
        WaitStep::TimedOut
    } else if interrupts > 0 {
        WaitStep::Interrupted
    } else {
        WaitStep::Wait
    }
}

/// What is done while the source runs.
#[derive(Clone, Copy, Debug, PartialEq, Eq, Structural)]
pub enum SourceStep {
    /// It has ended, and the agent is to end too.
    Ended,
    /// It is to be told to stop.
    Forward,
    /// The user wants to stop at once: both are to be killed.
    Kill,
    /// Look again later.
    Wait,
}

/// What is done while the source runs.
pub fn source_step(ended: bool, interrupts: usize) -> (s: SourceStep)
    ensures
        s == (if ended {
            SourceStep::Ended
        } else if interrupts == 1 {
            SourceStep::Forward
        } else if interrupts >= 2 {
            SourceStep::Kill
        } else {
            SourceStep::Wait
        }),
{
    if ended {
        SourceStep::Ended
    } else if interrupts == 1 {
        SourceStep::Forward
    } else if interrupts >= 2 {
        SourceStep::Kill
    } else {
        SourceStep::Wait
    }
}

/// What is done while the agent ends.
#[derive(Clone, Copy, Debug, PartialEq, Eq, Structural)]
pub enum EndStep {
    Ended,
    /// It took too long and is to be killed.
    Kill,
    Wait,
}

/// What is done while the agent ends.
pub fn end_step(ended: bool, past_deadline: bool) -> (s: EndStep)
    ensures
        s == (if ended {
            EndStep::Ended
        } else if past_deadline {
            EndStep::Kill
        } else {
            EndStep::Wait
        }),
{
    if ended {
        EndStep::Ended
    } else if past_deadline {
        EndStep::Kill
    } else {
        EndStep::Wait
    }
}

/// How a run ended.
#[derive(Clone, Copy, Debug, PartialEq, Eq, Structural)]
pub enum RunVerdict {
    Complete,
    SourceFailed,
    AgentFailed,
}

/// How a run ended: the source counts before the agent.
pub fn run_verdict(source_ok: bool, agent_ok: bool) -> (v: RunVerdict)
    ensures
        v == (if !source_ok {
            RunVerdict::SourceFailed
        } else if !agent_ok {
            RunVerdict::AgentFailed
        } else {
            RunVerdict::Complete
        }),
{
    if !source_ok {
        RunVerdict::SourceFailed
    } else if !agent_ok {
        RunVerdict::AgentFailed
    } else {
        RunVerdict::Complete
    }
}

/// How far a run is.
#[derive(Clone, Copy, Debug, PartialEq, Eq, Structural)]
pub enum RunPhase {
    /// The agent is started, and not ready yet.
    Waiting,
    /// The source is being started.
    Starting,
    Running,
    /// The source has ended, well or not, and the agent is to end.
    Ending(bool),
    Over(RunEnd),
}

/// How a run came to its end.
#[derive(Clone, Copy, Debug, PartialEq, Eq, Structural)]
pub enum RunEnd {
    Complete,
    SourceFailed,
    AgentFailed,
    /// The agent was gone before it was ready.
    AgentGone,
    TimedOut,
    Interrupted,
    /// The source could not be started.
    NoSource,
    Aborted,
}

/// What is to be done in a run.
#[derive(Clone, Copy, Debug, PartialEq, Eq, Structural)]
pub enum RunAction {
    Sleep,
    StartSource,
    InterruptSource,
    InterruptAgent,
    /// The agent is interrupted, and its end is waited for.
    StopAgent,
    KillAgent,
    KillBoth,
    Report,
}

/// What is seen of a run: whether the agent is ready, whether the source could
/// be started, whether each of them has ended and if so whether well, how often
/// the user wanted to stop, how long the agent was waited for, and whether it
/// has had its time to end.
#[derive(Clone, Copy, Debug, PartialEq, Eq, Structural)]
pub struct Glance {
    pub ready: bool,
    pub source_started: bool,
    pub agent_end: Option<bool>,
    pub source_end: Option<bool>,
    pub interrupts: usize,
    pub waited_ms: u64,
    pub past_deadline: bool,
}

/// What is done next in a run, and how far it is then.
pub open spec fn run_stepped(phase: RunPhase, g: Glance) -> (RunPhase, RunAction) {
    match phase {
        RunPhase::Waiting => if g.ready {
            (RunPhase::Starting, RunAction::StartSource)
        } else if g.agent_end is Some {
            (RunPhase::Over(RunEnd::AgentGone), RunAction::Report)
        } else if g.waited_ms > READY_TIMEOUT_MS {
            (RunPhase::Over(RunEnd::TimedOut), RunAction::KillAgent)
        } else if g.interrupts > 0 {
            (RunPhase::Over(RunEnd::Interrupted), RunAction::KillAgent)
        } else {
            (RunPhase::Waiting, RunAction::Sleep)
        },
        RunPhase::Starting => if g.source_started {
            (RunPhase::Running, RunAction::Sleep)
        } else {
            (RunPhase::Over(RunEnd::NoSource), RunAction::StopAgent)
        },
        RunPhase::Running => match g.source_end {
            Some(ok) => (RunPhase::Ending(ok), RunAction::InterruptAgent),
            None => if g.interrupts == 1 {
                (RunPhase::Running, RunAction::InterruptSource)
            } else if g.interrupts >= 2 {
                (RunPhase::Over(RunEnd::Aborted), RunAction::KillBoth)
            } else {
                (RunPhase::Running, RunAction::Sleep)
            },
        },
        RunPhase::Ending(source_ok) => match g.agent_end {
            Some(agent_ok) => (
                RunPhase::Over(
                    if !source_ok {
                        RunEnd::SourceFailed
                    } else if !agent_ok {
                        RunEnd::AgentFailed
                    } else {
                        RunEnd::Complete
                    },
                ),
                RunAction::Report,
            ),
            None => (
                phase,
                if g.past_deadline {
                    RunAction::KillAgent
                } else {
                    RunAction::Sleep
                },
            ),
        },
        RunPhase::Over(_) => (phase, RunAction::Report),
    }
}

/// Decides what is done next in a run.
pub fn run_step(phase: RunPhase, g: &Glance) -> (r: (RunPhase, RunAction))
    ensures
        r == run_stepped(phase, *g),
{
    match phase {
        RunPhase::Waiting => match wait_step(
            g.ready,
            g.agent_end.is_some(),
            g.waited_ms,
            g.interrupts,
        ) {
            WaitStep::Ready => (RunPhase::Starting, RunAction::StartSource),
            WaitStep::AgentGone => (RunPhase::Over(RunEnd::AgentGone), RunAction::Report),
            WaitStep::TimedOut => (RunPhase::Over(RunEnd::TimedOut), RunAction::KillAgent),
            WaitStep::Interrupted => (RunPhase::Over(RunEnd::Interrupted), RunAction::KillAgent),
            WaitStep::Wait => (RunPhase::Waiting, RunAction::Sleep),
        },
        RunPhase::Starting => if g.source_started {
            (RunPhase::Running, RunAction::Sleep)
        } else {
            (RunPhase::Over(RunEnd::NoSource), RunAction::StopAgent)
        },
        RunPhase::Running => match source_step(g.source_end.is_some(), g.interrupts) {
            SourceStep::Ended => match g.source_end {
                Some(ok) => (RunPhase::Ending(ok), RunAction::InterruptAgent),
                None => (RunPhase::Running, RunAction::Sleep),
            },
            SourceStep::Forward => (RunPhase::Running, RunAction::InterruptSource),
            SourceStep::Kill => (RunPhase::Over(RunEnd::Aborted), RunAction::KillBoth),
            SourceStep::Wait => (RunPhase::Running, RunAction::Sleep),
        },
        RunPhase::Ending(source_ok) => match g.agent_end {
            Some(agent_ok) => {
                let end = match run_verdict(source_ok, agent_ok) {
                    RunVerdict::Complete => RunEnd::Complete,
                    RunVerdict::SourceFailed => RunEnd::SourceFailed,
                    RunVerdict::AgentFailed => RunEnd::AgentFailed,
                };
                (RunPhase::Over(end), RunAction::Report)
            },
            None => match end_step(false, g.past_deadline) {
                EndStep::Kill => (phase, RunAction::KillAgent),
                _ => (phase, RunAction::Sleep),
            },
        },
        RunPhase::Over(_) => (phase, RunAction::Report),
    }
}

/// Law: no run leaves an agent behind. When a run comes to its end, the agent has
/// ended, or it is stopped or killed in that step.
pub proof fn law_no_agent_is_left(phase: RunPhase, g: Glance)
    requires
        !(phase is Over),
        run_stepped(phase, g).0 is Over,
    ensures
        g.agent_end is Some || run_stepped(phase, g).1 == RunAction::StopAgent || run_stepped(
            phase,
            g,
        ).1 == RunAction::KillAgent || run_stepped(phase, g).1 == RunAction::KillBoth,
{
}

/// Law: the source is started only once the agent is ready, and only once; a run
/// is complete only when source and agent both ended well.
pub proof fn law_runs_go_in_order(phase: RunPhase, g: Glance)
    ensures
        run_stepped(phase, g).1 == RunAction::StartSource ==> phase is Waiting && g.ready,
        run_stepped(phase, g).0 is Waiting ==> phase is Waiting,
        run_stepped(phase, g).0 is Starting ==> phase is Waiting,
        !(phase is Over) && run_stepped(phase, g).0 == RunPhase::Over(RunEnd::Complete) ==> phase
            == RunPhase::Ending(true) && g.agent_end == Some(true),
        phase is Over ==> run_stepped(phase, g).0 == phase,
{
}

} // verus!
