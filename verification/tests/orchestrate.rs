//! Running a pipeline: what is looked for, how the parts are called, and how a
//! run goes on and ends.

use epico::orchestrate::{
    agent_args, bootstrap_args, build_step, choose_root, climb, cwasm_path,
    dispatcher_candidates, end_step, loadgen_args, missing_stages, parent, pick_dispatcher,
    pick_found, run_step, run_verdict, source_step, stage_build_args, wait_step, BuildStep,
    CompileMode, DispatcherChoice, EndStep, Glance, RootChoice, RunAction, RunEnd, RunPhase,
    RunVerdict, SourceStep, WaitStep, READY_TIMEOUT_MS,
};
use epico::pipeline_spec::Yaml;

fn s(t: &str) -> String {
    t.to_string()
}

#[test]
fn directories_are_climbed() {
    assert_eq!(parent("/a/b").as_deref(), Some("/a"));
    assert_eq!(parent("/a").as_deref(), Some("/"));
    assert_eq!(parent("/"), None);
    assert_eq!(parent("a").as_deref(), Some(""));
    assert_eq!(climb("/a/b", 8), vec!["/a/b", "/a", "/"]);
    assert_eq!(climb("/a/b", 2), vec!["/a/b", "/a"]);
    let places = vec![s("x"), s("y")];
    assert_eq!(pick_found(&places, &vec![false, true]).as_deref(), Some("y"));
    assert_eq!(pick_found(&places, &vec![false, false]), None);
}

#[test]
fn the_dispatcher_is_looked_for() {
    let places = dispatcher_candidates("/a/b");
    assert_eq!(places[0], "/a/b/dispatcher");
    assert!(places.contains(&s("/a/target/release/dispatcher")));
    let none = vec![false; places.len()];
    assert!(matches!(
        pick_dispatcher(&None, &None, &places, &none),
        DispatcherChoice::NotFound
    ));
    assert!(matches!(
        pick_dispatcher(&Some((s("/x"), false)), &None, &places, &none),
        DispatcherChoice::NotThere
    ));
    assert!(matches!(
        pick_dispatcher(&Some((s("/x"), true)), &None, &places, &none),
        DispatcherChoice::At(ref p) if p == "/x"
    ));
    let mut first = none.clone();
    first[0] = true;
    assert!(matches!(
        pick_dispatcher(&None, &None, &places, &first),
        DispatcherChoice::At(ref p) if p == "/a/b/dispatcher"
    ));
    assert!(matches!(choose_root(true, false, false), RootChoice::Given));
    assert!(matches!(choose_root(false, false, false), RootChoice::Unknown));
}

#[test]
fn compile_modes_come_from_two_flags() {
    assert!(matches!(CompileMode::from_flags(true, false), Some(CompileMode::Ahead)));
    assert!(matches!(CompileMode::from_flags(false, true), Some(CompileMode::Deferred)));
    assert!(matches!(CompileMode::from_flags(false, false), Some(CompileMode::Startup)));
    assert!(CompileMode::from_flags(true, true).is_none());
    assert_eq!(CompileMode::Ahead.name(), Some("aot"));
    assert_eq!(CompileMode::Startup.name(), None);
    assert_eq!(CompileMode::Deferred.describe_stage(true, false), "JIT (deferred)");
    assert_eq!(CompileMode::Startup.describe_stage(true, false), "JIT (startup)");
    assert_eq!(CompileMode::Startup.describe_stage(false, false), "MISSING");
    assert_eq!(CompileMode::Ahead.describe_stage(true, true), "AOT");
    assert!(CompileMode::Ahead.describe().starts_with("AOT"));
    assert_eq!(cwasm_path("/w/fn_a.wasm"), "/w/fn_a.cwasm");
}

#[test]
fn only_what_is_missing_stops_a_run_without_a_build() {
    let stages = vec![(s("a"), s("/a.wasm")), (s("b"), s("/b.wasm"))];
    assert_eq!(missing_stages(&stages, &vec![true, false]), vec!["b"]);
    let all = vec![true, true];
    assert!(matches!(build_step(false, false, &stages, &all), BuildStep::Nothing));
    assert!(matches!(build_step(true, false, &stages, &all), BuildStep::Build));
    assert!(matches!(build_step(true, true, &stages, &all), BuildStep::Reuse));
    assert!(matches!(
        build_step(true, true, &stages, &vec![true, false]),
        BuildStep::Missing(ref m) if m.contains("b")
    ));
}

#[test]
fn programs_are_called_with_their_arguments() {
    assert!(stage_build_args("/m/Cargo.toml").contains(&s("/m/Cargo.toml")));
    let plain = bootstrap_args("/m/Cargo.toml", false).join(" ");
    assert_eq!(plain, "build --release --manifest-path /m/Cargo.toml -p master -p dispatcher");
    assert!(bootstrap_args("/m", true).join(" ").ends_with("--features master/cold-start-opt"));
    assert_eq!(
        agent_args("r.yaml", "logs", Some("rdy"), Some("/d")).join(" "),
        "r.yaml --log-dir logs --ready-file rdy --dispatcher-bin /d"
    );
    let params = vec![
        (s("event_rate"), Yaml::Number(s("10"))),
        (s("burst"), Yaml::Bool(true)),
        (s("calm"), Yaml::Bool(false)),
        (s("gone"), Yaml::Null),
    ];
    let args = loadgen_args("r.yaml", "logs", &params).unwrap();
    let tail: Vec<&str> = args.iter().rev().take(3).map(|a| a.as_str()).collect();
    assert_eq!(tail, vec!["--burst", "10", "--event-rate"]);
    let bad = vec![(s("x"), Yaml::Null), (s("l"), Yaml::List(vec![]))];
    assert!(matches!(loadgen_args("r", "l", &bad), Err(1)));
}

#[test]
fn waiting_for_the_parts_of_a_run() {
    assert!(matches!(wait_step(true, true, 0, 0), WaitStep::Ready));
    assert!(matches!(wait_step(false, true, 0, 0), WaitStep::AgentGone));
    assert!(matches!(wait_step(false, false, READY_TIMEOUT_MS + 1, 0), WaitStep::TimedOut));
    assert!(matches!(wait_step(false, false, 1, 1), WaitStep::Interrupted));
    assert!(matches!(wait_step(false, false, 1, 0), WaitStep::Wait));
    assert!(matches!(source_step(true, 0), SourceStep::Ended));
    assert!(matches!(source_step(false, 1), SourceStep::Forward));
    assert!(matches!(source_step(false, 2), SourceStep::Kill));
    assert!(matches!(end_step(false, true), EndStep::Kill));
    assert!(matches!(run_verdict(true, true), RunVerdict::Complete));
    assert!(matches!(run_verdict(true, false), RunVerdict::AgentFailed));
    assert!(matches!(run_verdict(false, true), RunVerdict::SourceFailed));
}

fn glance() -> Glance {
    Glance {
        ready: false,
        source_started: false,
        agent_end: None,
        source_end: None,
        interrupts: 0,
        waited_ms: 0,
        past_deadline: false,
    }
}

#[test]
fn a_run_goes_through_its_phases() {
    let mut g = glance();
    let (p, a) = run_step(RunPhase::Waiting, &g);
    assert!(matches!((p, a), (RunPhase::Waiting, RunAction::Sleep)));
    g.ready = true;
    let (p, a) = run_step(RunPhase::Waiting, &g);
    assert!(matches!((p, a), (RunPhase::Starting, RunAction::StartSource)));
    g.source_started = true;
    let (p, _) = run_step(RunPhase::Starting, &g);
    assert!(matches!(p, RunPhase::Running));
    g.source_end = Some(true);
    let (p, _) = run_step(RunPhase::Running, &g);
    assert!(matches!(p, RunPhase::Ending(true)));
    g.agent_end = Some(true);
    let (p, a) = run_step(p, &g);
    assert!(matches!((p, a), (RunPhase::Over(RunEnd::Complete), RunAction::Report)));
}

#[test]
fn an_agent_that_does_not_get_ready_is_killed() {
    let mut g = glance();
    g.waited_ms = READY_TIMEOUT_MS + 1;
    let (p, a) = run_step(RunPhase::Waiting, &g);
    assert!(matches!((p, a), (RunPhase::Over(RunEnd::TimedOut), RunAction::KillAgent)));
    let mut g = glance();
    g.interrupts = 1;
    let (p, a) = run_step(RunPhase::Waiting, &g);
    assert!(matches!((p, a), (RunPhase::Over(RunEnd::Interrupted), RunAction::KillAgent)));
    let mut g = glance();
    g.agent_end = Some(false);
    let (p, _) = run_step(RunPhase::Waiting, &g);
    assert!(matches!(p, RunPhase::Over(RunEnd::AgentGone)));
}
