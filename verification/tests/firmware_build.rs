use embarch_ui::firmware_build::build_log::{
    check_log_id, log_entry, log_name, log_order, log_text, prune, BuildLogEntry, MAX_KEPT_LOGS,
};
use embarch_ui::firmware_build::clock::{now_utc_ms, stamp_of};
use embarch_ui::firmware_build::flash::{
    Action, BuildAndFlash, BuildOutcome, Built, Resolved, Stage,
};
use embarch_ui::firmware_build::survey::{
    config_path, survey, Backlog, BuildEventsQuery, BuildRuns, ProjectEntry, SurveyInput,
};

#[test]
fn a_log_name_sorts_chronologically_and_says_what_it_was() {
    let a = log_name(1_700_000_000_000, "my-proj", true);
    let b = log_name(1_700_000_001_000, "my-proj", false);
    assert!(a < b, "{a} !< {b}");
    assert!(a.ends_with("-ok.log"), "{a}");
    assert!(b.ends_with("-failed.log"), "{b}");
}

#[test]
fn a_project_name_cannot_escape_the_log_directory() {
    let name = log_name(1, "../../etc/passwd", true);
    assert!(!name.contains('/'), "{name}");
    assert!(!name.contains(".."), "{name}");
}

#[test]
fn a_log_id_from_a_url_cannot_reach_outside_the_directory() {
    for bad in ["", "x", "../secret.log", "a/b.log", "..\\b.log", "no-extension"] {
        assert!(check_log_id(bad).is_err(), "{bad} was accepted");
    }
}

#[test]
fn a_written_name_parses_back_into_its_own_listing_fields() {
    let id = log_name(1_700_000_000_123, "nrf-dut", false);
    let stem = id.trim_end_matches(".log");
    let mut parts = stem.splitn(2, '-');
    assert_eq!(parts.next().unwrap().parse::<u64>().unwrap(), 1_700_000_000_123);
    let rest = parts.next().unwrap();
    let (project, status) = rest.rsplit_once('-').unwrap();
    assert_eq!(project, "nrf-dut");
    assert_eq!(status, "failed");
}

#[test]
fn a_log_name_is_written_with_thirteen_digits() {
    assert_eq!(log_name(1, "a b", true), "0000000000001-a-b-ok.log");
    assert_eq!(log_name(1_700_000_000_123, "nrf-dut", false), "1700000000123-nrf-dut-failed.log");
}

#[test]
fn a_listed_log_says_what_its_name_says() {
    let id = log_name(1_700_000_000_123, "nrf-dut", false);
    let entry = log_entry(&id, 42).unwrap();
    assert_eq!(entry.id, id);
    assert_eq!(entry.started_utc_ms, 1_700_000_000_123);
    assert_eq!(entry.project, "nrf-dut");
    assert!(!entry.ok);
    assert_eq!(entry.bytes, 42);
    assert!(log_entry(&log_name(5, "p", true), 0).unwrap().ok);
    assert!(log_entry("notes.txt", 1).is_none());
    assert!(check_log_id(&id).is_ok());
    assert_eq!(check_log_id("x").unwrap_err(), "'x' is not a build log id");
}

#[test]
fn the_newest_log_is_listed_first() {
    let entries: Vec<BuildLogEntry> = [3u64, 9, 5]
        .iter()
        .map(|t| log_entry(&log_name(*t, "p", true), 1).unwrap())
        .collect();
    assert_eq!(log_order(&entries), vec![1, 2, 0]);
}

#[test]
fn only_the_oldest_logs_over_the_limit_are_pruned() {
    let mut names: Vec<String> = (0..MAX_KEPT_LOGS as u64).map(|t| log_name(t, "p", true)).collect();
    assert!(prune(&names).is_empty());
    names.insert(0, log_name(1_000_000, "p", true));
    names.push(log_name(1_000_001, "p", true));
    let mut gone: Vec<&str> = prune(&names).iter().map(|i| names[*i].as_str()).collect();
    gone.sort();
    assert_eq!(gone, vec![log_name(0, "p", true), log_name(1, "p", true)]);
}

#[test]
fn a_log_opens_with_what_it_is_a_log_of() {
    let text = log_text(7, "p", "west build", true, "line\n");
    assert!(text.starts_with("# embarch-ui build log\n# project: p\n# target: west build\n"), "{text}");
    assert!(text.ends_with("line\n"), "{text}");
}

#[test]
fn a_stamp_is_the_clocks_reading() {
    assert_eq!(stamp_of(Some(1_700_000_000_000)), 1_700_000_000_000);
    assert_eq!(stamp_of(None), 0);
    assert_eq!(stamp_of(Some((1u128 << 64) + 5)), 5);
    // Later than the year in which this was written.
    assert!(now_utc_ms() > 1_700_000_000_000);
    assert!(now_utc_ms() < 10_000_000_000_000);
}

fn plan() -> Resolved {
    Resolved {
        descriptor: "app@nrf".to_string(),
        command: vec!["west".to_string(), "build".to_string()],
        chip: "nRF54L15".to_string(),
        flash_format: "hex".to_string(),
        base_address: None,
        probe_serial: None,
    }
}

fn built(ready: bool, timed_out: bool) -> BuildOutcome {
    BuildOutcome::Ended(Built {
        ready,
        timed_out,
        exit_code: "1".to_string(),
        artifact_path: "out/app.hex".to_string(),
    })
}

#[test]
fn a_build_is_checked_built_flashed_and_reset_in_that_order() {
    let (mut job, first) = BuildAndFlash::start("nrf-dut", "v1", false);
    assert!(matches!(first, Action::DeriveVersion));
    let m = job.on_version(Ok("v1".to_string()), true);
    assert_eq!(m.info, vec!["working tree is at v1"]);
    assert!(matches!(m.action, Action::Resolve));
    let m = job.on_resolved(Ok(plan()));
    assert_eq!(m.info, vec!["building app@nrf with: west build"]);
    assert!(matches!(m.action, Action::RunBuild));
    let m = job.on_built(built(true, false));
    assert!(matches!(m.action, Action::WriteLog { ok: true }));
    let m = job.on_logged(Err("disk full".to_string()));
    assert_eq!(
        m.info,
        vec!["the build log could not be written to disk: disk full", "flashing out/app.hex"]
    );
    assert!(matches!(m.action, Action::Flash));
    let m = job.on_flashed(Ok(()));
    assert!(matches!(m.action, Action::Reset));
    let m = job.on_reset(Ok(()));
    assert!(matches!(m.action, Action::Finish));
    let f = job.finished();
    assert_eq!(f.version, "v1");
    assert_eq!(f.artifact_path, "out/app.hex");
    assert_eq!(f.descriptor, "app@nrf");
    assert_eq!(f.log_id, "");
}

#[test]
fn a_tree_at_another_revision_is_refused_before_anything_is_built() {
    let (mut job, _) = BuildAndFlash::start("p", "v1", false);
    let m = job.on_version(Ok("v2".to_string()), false);
    match m.action {
        Action::Fail(e) => assert!(
            e.starts_with("this study requires DUT firmware 'v1' and the working tree is at 'v2'."),
            "{e}"
        ),
        other => panic!("{other:?}"),
    }
    assert_eq!(job.stage, Stage::Failed);
    let (mut job, _) = BuildAndFlash::start("p", "v1", true);
    assert!(matches!(job.on_version(Ok("v2".to_string()), false).action, Action::Resolve));
}

#[test]
fn nothing_is_flashed_that_is_not_fresh() {
    let run = |outcome: BuildOutcome| {
        let (mut job, _) = BuildAndFlash::start("p", "any", false);
        job.on_version(Ok("v1".to_string()), true);
        job.on_resolved(Ok(plan()));
        job.on_built(outcome);
        match job.on_logged(Ok("id".to_string())).action {
            Action::Fail(e) => e,
            other => panic!("{other:?}"),
        }
    };
    assert_eq!(
        run(built(false, true)),
        "the build for 'p' did not produce a fresh artifact, so nothing was flashed. It timed out."
    );
    assert_eq!(
        run(built(false, false)),
        "the build for 'p' did not produce a fresh artifact, so nothing was flashed. west exited 1."
    );
    assert_eq!(run(BuildOutcome::Broke("no west".to_string())), "build failed for 'p': no west");
}

#[test]
fn a_failed_flash_or_reset_says_which_project() {
    let (mut job, _) = BuildAndFlash::start("p", "any", false);
    job.on_version(Ok("v1".to_string()), true);
    job.on_resolved(Ok(plan()));
    job.on_built(built(true, false));
    job.on_logged(Ok("id".to_string()));
    match job.on_flashed(Err("no probe".to_string())).action {
        Action::Fail(e) => assert_eq!(e, "flash failed for 'p': no probe"),
        other => panic!("{other:?}"),
    }
    let (mut job, _) = BuildAndFlash::start("p", "any", false);
    match job.on_version(Err("no git".to_string()), false).action {
        Action::Fail(e) => assert_eq!(e, "no git"),
        other => panic!("{other:?}"),
    }
    assert_eq!(job.stage, Stage::Failed);
}

#[test]
fn a_late_browser_sees_the_end_of_what_was_said() {
    let mut backlog = Backlog::new();
    for i in 0..2_005 {
        backlog.emit(format!("line {i}"));
    }
    assert_eq!(backlog.lines.len(), 2_000);
    assert_eq!(backlog.lines[0], "line 5");
    assert_eq!(backlog.lines[1_999], "line 2004");
}

#[test]
fn the_last_run_is_shown_where_none_is_named() {
    let mut runs = BuildRuns::new();
    assert!(runs.shown(&BuildEventsQuery { id: None }).is_none());
    let first = runs.start(100);
    let second = runs.start(200);
    assert_ne!(first, second);
    assert_eq!(runs.shown(&BuildEventsQuery { id: None }), Some(1));
    assert_eq!(runs.shown(&BuildEventsQuery { id: Some(first) }), Some(0));
    assert_eq!(runs.shown(&BuildEventsQuery { id: Some("none".to_string()) }), None);
}

#[test]
fn two_builds_of_one_millisecond_have_names_of_their_own() {
    let mut runs = BuildRuns::new();
    let first = runs.start(100);
    let second = runs.start(100);
    let third = runs.start(100);
    assert_eq!((first.as_str(), second.as_str(), third.as_str()), ("build-100", "build-100-1", "build-100-2"));
    runs.runs.finish(&second);
    let finished: Vec<bool> = runs.runs.runs.iter().map(|r| r.finished).collect();
    assert_eq!(finished, [false, true, false]);
}

#[test]
fn what_was_set_here_wins_over_the_environment() {
    let here = Some("/a.toml".to_string());
    let env = Some("/b.toml".to_string());
    assert_eq!(config_path(&here, &env).as_deref(), Some("/a.toml"));
    assert_eq!(config_path(&None, &env).as_deref(), Some("/b.toml"));
    assert_eq!(config_path(&None, &None), None);
}

fn survey_input() -> SurveyInput {
    SurveyInput {
        repo: "/r".to_string(),
        real_repo: Some("/real/r".to_string()),
        config_path: Some("/c.toml".to_string()),
        projects: Ok(vec![ProjectEntry {
            name: "app".to_string(),
            source_path: "/s".to_string(),
            real_path: Some("/real/r".to_string()),
        }]),
        targets: Ok("{}".to_string()),
        flags: vec!["timing".to_string()],
    }
}

#[test]
fn a_survey_offers_the_project_of_the_open_repository() {
    let s = survey(&survey_input());
    assert!(s.available);
    assert_eq!(s.project.as_deref(), Some("app"));
    assert_eq!(s.targets.as_deref(), Some("{}"));
    assert_eq!(s.flags, vec!["timing"]);
}

#[test]
fn a_survey_that_offers_nothing_says_why() {
    let mut input = survey_input();
    input.config_path = None;
    assert!(!survey(&input).available);
    assert!(survey(&input).reason.is_some());

    let mut input = survey_input();
    input.projects = Err("unreadable".to_string());
    assert_eq!(survey(&input).reason.as_deref(), Some("unreadable"));

    let mut input = survey_input();
    input.real_repo = Some("/elsewhere".to_string());
    let reason = survey(&input).reason.unwrap();
    assert!(reason.ends_with("Configured projects: app (/s)"), "{reason}");

    let mut input = survey_input();
    input.targets = Err("no west".to_string());
    assert_eq!(
        survey(&input).reason.as_deref(),
        Some("project 'app' is configured but its targets could not be scanned: no west")
    );
}
