//! Log lines, log records, and where a run keeps its files.

use epico::calendar::{civil_date, format_ts_slug, format_wall_time};
use epico::json::JsonOut;
use epico::logger::{
    component_colour, finalize, level_from_setting, log_files, paint, resolve_run_dir, Level,
    LogSettings, RUN_DIR_ENV,
};

#[test]
fn run_dir_comes_from_env_or_is_minted() {
    let tmp = "/tmp/epico-logger-test";
    assert_eq!(RUN_DIR_ENV, "EPICO_RUN_DIR");

    let coordinated = format!("{tmp}/some-run");
    assert_eq!(resolve_run_dir(Some(&coordinated), tmp, 1_700_000_000, &vec![]), coordinated);

    let minted = resolve_run_dir(None, tmp, 1_700_000_000, &vec![]);
    let (parent, name) = minted.rsplit_once('/').unwrap();
    assert_eq!(parent, tmp);
    assert!(name.starts_with("run_"), "unexpected run dir name {name:?}");

    let second = resolve_run_dir(None, tmp, 1_700_000_000, &vec![name.to_string()]);
    assert_ne!(second, minted);
    assert_eq!(second, format!("{minted}_2"));

    let run = format!("{tmp}/run_x");
    assert_eq!(resolve_run_dir(Some(&run), tmp, 0, &vec![]), run);
    let (master_log, master_summary) = log_files(&run, "master");
    let (disp_log, _) = log_files(&run, "dispatcher/dispatch-a");
    assert_eq!(master_log, format!("{run}/master.jsonl"));
    assert_eq!(disp_log, format!("{run}/dispatcher-dispatch-a.jsonl"));
    assert_eq!(master_summary, format!("{run}/master_summary.json"));
}

#[test]
fn an_empty_run_dir_counts_as_none() {
    let minted = resolve_run_dir(Some(""), "/tmp", 0, &vec![]);
    assert_eq!(minted, "/tmp/run_19700101_000000");
    let taken = vec!["run_19700101_000000_2".into(), "run_19700101_000000".into()];
    assert_eq!(resolve_run_dir(None, "/tmp", 0, &taken), "/tmp/run_19700101_000000_3");
}

#[test]
fn dates_and_times() {
    let d = civil_date(0);
    assert_eq!((d.year, d.month, d.day), (1970, 1, 1));
    let d = civil_date(11_016);
    assert_eq!((d.year, d.month, d.day), (2000, 2, 29));
    let d = civil_date(11_017);
    assert_eq!((d.year, d.month, d.day), (2000, 3, 1));
    assert_eq!(format_ts_slug(1_700_000_000), "20231114_221320");
    assert_eq!(format_wall_time(1_700_000_000), "22:13:20");
}

#[test]
fn levels_are_read_from_the_environment() {
    assert!(matches!(level_from_setting(None), Level::Info));
    assert!(matches!(level_from_setting(Some("debug")), Level::Debug));
    assert!(matches!(level_from_setting(Some("warn")), Level::Warn));
    assert!(matches!(level_from_setting(Some("error")), Level::Error));
    assert!(matches!(level_from_setting(Some("other")), Level::Info));
    assert!(Level::Debug.rank() < Level::Info.rank());
    assert!(Level::Warn.rank() < Level::Error.rank());
}

#[test]
fn a_line_holds_the_time_the_level_and_the_fields() {
    let s = LogSettings::new("master", Level::Info);
    assert!(s.line(false, 0, Level::Debug, "quiet", &vec![]).is_none());
    let line = s
        .line(false, 1_700_000_000, Level::Warn, "slow", &vec![("depth".into(), "7".into())])
        .unwrap();
    assert!(line.starts_with("22:13:20  ["));
    assert!(line.contains("master"));
    assert!(line.ends_with("slow  depth=7"));
    let coloured = s.line(true, 0, Level::Warn, "slow", &vec![]).unwrap();
    assert!(coloured.contains("\u{1b}["));
    assert_eq!(s.with_component("master/a").component, "master/a");
}

#[test]
fn colours_are_stable() {
    assert_eq!(component_colour("master"), component_colour("master"));
    assert_eq!(paint(false, "\u{1b}[1m", "x"), "x");
    assert!(paint(true, "\u{1b}[1m", "x").starts_with("\u{1b}[1mx"));
}

#[test]
fn a_record_holds_the_time_to_a_tenth_of_a_millisecond() {
    let s = LogSettings::new("master", Level::Info);
    let r = s.record(1_234_567_890, Level::Info, "hello", &vec![("msg".into(), "later".into())]);
    match r {
        Some(JsonOut::Object(es)) => {
            assert_eq!(es.len(), 4);
            assert!(matches!(es[0].1, JsonOut::Ratio(12_346, 10_000)));
            assert!(matches!(&es[2].1, JsonOut::Text(t) if t == "master"));
            assert!(matches!(&es[3].1, JsonOut::Text(t) if t == "later"));
        }
        _ => panic!("no record"),
    }
}

#[test]
fn a_report_says_where_the_log_is() {
    let summary = JsonOut::Object(vec![("n".into(), JsonOut::Count(3))]);
    match finalize(summary, "/r/master.jsonl", "master") {
        JsonOut::Object(es) => {
            assert_eq!(es.len(), 3);
            assert_eq!(es[1].0, "_jsonl_path");
            assert!(matches!(&es[2].1, JsonOut::Text(t) if t == "master"));
        }
        _ => panic!("no report"),
    }
    match finalize(JsonOut::Null, "p", "c") {
        JsonOut::Object(es) => assert_eq!(es.len(), 2),
        _ => panic!("no report"),
    }
}
