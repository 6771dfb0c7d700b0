use embarch_ui::snapshot::{
    DevBenchPort, EnrolledBoard, Poll, Probe, SerialPort, SignalLink, SignalRoute, Snapshot,
};
use embarch_ui::topology::catalog::{
    boards_path, delete_board, dut_picker, rescan_boards, role_label, role_target, save_board,
    scanned_targets, Board,
};
use embarch_ui::topology::profile::{
    applied, plan_apply, profile_order, profile_slug, proposals, save_profile, ApplyStep, Profile,
    ProfileFile, RoleBinding, SaveProfileRequest,
};
use embarch_ui::topology::slug::{profile_path, slugify, topologies_dir};
use embarch_ui::topology::validate::{asks_role, validate, Outcome, RoleAnswer};

#[test]
fn a_slug_cannot_escape_the_topologies_directory() {
    assert_eq!(slugify("../../etc/passwd"), "etc-passwd");
    assert_eq!(slugify("Bench A"), "bench-a");
    assert_eq!(slugify("  bench/../a  "), "bench-a");
    assert_eq!(slugify("nrf54l15 + esp32"), "nrf54l15-esp32");
    assert_eq!(slugify("///"), "", "a name with nothing in it slugs to nothing, and is refused");
}

#[test]
fn a_slug_is_its_own_slug() {
    for name in ["Bench A", "../../etc/passwd", "x--y", "été 2"] {
        let once = slugify(name);
        assert_eq!(slugify(&once), once);
    }
    assert_eq!(topologies_dir("/r"), "/r/embarch/topologies");
    assert_eq!(profile_path("/r", "bench-a"), "/r/embarch/topologies/bench-a.toml");
    assert_eq!(boards_path("/r"), "/r/embarch/boards.toml");
}

#[test]
fn a_slug_is_the_words_of_its_name() {
    for name in ["--Bench  A--", "a/b\\c", "é1é", "", "-", "A1 b2"] {
        let slug = slugify(name);
        assert!(!slug.starts_with('-') && !slug.ends_with('-') && !slug.contains("--"), "{slug}");
        let words: String =
            name.chars().filter(char::is_ascii_alphanumeric).map(|c| c.to_ascii_lowercase()).collect();
        assert_eq!(slug.replace('-', ""), words);
        assert_eq!(slug.is_empty(), words.is_empty());
    }
}

fn board(name: &str, target: &str) -> Board {
    Board {
        name: name.to_string(),
        chip: "c".to_string(),
        build_target: target.to_string(),
        variant: String::new(),
        revision: String::new(),
        notes: String::new(),
    }
}

fn names(boards: &[Board]) -> Vec<&str> {
    boards.iter().map(|b| b.name.as_str()).collect()
}

#[test]
fn a_saved_board_replaces_the_one_of_its_name() {
    let (boards, name) = save_board(vec![board("b", "t1"), board("a", "")], board("  b  ", "t2")).unwrap();
    assert_eq!(name, "b");
    assert_eq!(names(&boards), ["a", "b"]);
    assert_eq!(boards[1].build_target, "t2");
    let (boards, _) = save_board(boards, board("0", "")).unwrap();
    assert_eq!(names(&boards), ["0", "a", "b"]);
    assert!(save_board(boards, board("  ", "")).is_err());
}

#[test]
fn only_a_board_that_is_there_is_deleted() {
    let boards = delete_board(vec![board("a", ""), board("b", "")], "a").unwrap();
    assert_eq!(names(&boards), ["b"]);
    assert_eq!(delete_board(boards, "a").unwrap_err(), "no board named 'a' in this project");
}

#[test]
fn a_rescan_only_adds() {
    let found = vec!["t2".to_string(), "t1".to_string(), "t2".to_string(), "mine".to_string()];
    let r = rescan_boards(vec![board("mine", ""), board("other", "t1"), board("gone", "old")], &found);
    assert_eq!(r.scanned, ["mine", "t1", "t2"]);
    assert_eq!(r.added, ["t2"]);
    assert_eq!(names(&r.boards), ["gone", "mine", "other", "t2"]);
    assert_eq!(r.boards[3].build_target, "t2");
    assert_eq!(r.boards[3].chip, "");
    assert_eq!(r.not_in_scan, ["gone"]);
}

#[test]
fn a_scan_lists_the_boards_of_its_targets() {
    let scan: serde_json::Value = serde_json::from_str(
        r#"{"targets":[{"board":"b"},{"board":1},{"x":2},{"board":"a"}]}"#,
    )
    .unwrap();
    assert_eq!(scanned_targets(&scan), ["b", "a"]);
    assert!(scanned_targets(&serde_json::Value::Null).is_empty());
}

#[test]
fn a_role_has_a_name_of_its_own() {
    assert_eq!(role_label("dut"), "DUT");
    assert_eq!(role_label("dev-bench"), "Dev bench");
    assert_eq!(role_label("probe"), "probe");
}

fn enrolled(role: &str, name: &str, probe: Option<&str>) -> EnrolledBoard {
    EnrolledBoard {
        role: role.to_string(),
        name: name.to_string(),
        chip: "nRF54L15".to_string(),
        probe_serial: probe.map(|s| s.to_string()),
        link_port_serial: None,
        link_port_interface: None,
    }
}

fn snapshot(enrolled: Vec<EnrolledBoard>) -> Snapshot {
    Snapshot::from_poll(Poll {
        status: Ok(vec![Probe { serial_number: Some("001".to_string()), record: "{}".to_string() }]),
        enrolled: Ok(enrolled),
        alerts: Ok(Vec::new()),
        dev_bench_port: Ok(None),
        signals: Ok(vec![SignalLink {
            name: "uart".to_string(),
            route: SignalRoute::Direct { port_serial: "D6".to_string() },
        }]),
        serial_ports: Ok(vec![SerialPort {
            port_name: "ttyACM0".to_string(),
            serial_number: Some("D6".to_string()),
        }]),
    })
}

#[test]
fn a_role_builds_for_the_board_that_is_in_it() {
    let mut known = board("wearable", "nrf54l15dk");
    known.variant = "v".to_string();
    let catalog = Some(vec![known]);
    let list = vec![enrolled("dut", "wearable", None)];
    let target = role_target(&catalog, &list, "dut").unwrap();
    assert_eq!((target.board.as_str(), target.variant.as_str()), ("nrf54l15dk", "v"));
    assert_eq!(target.from_board, "wearable");
    assert!(role_target(&catalog, &list, "dev-bench").is_none());
    let picker = dut_picker(&catalog.unwrap());
    assert_eq!(picker[0].board, "wearable");
}

#[test]
fn a_bench_is_saved_as_it_stands() {
    let s = snapshot(vec![enrolled("dut", "wearable", Some("001"))]);
    let (slug, p) = save_profile(&SaveProfileRequest { name: " Bench A ".to_string() }, &s, 77).unwrap();
    assert_eq!(slug, "bench-a");
    assert_eq!(p.saved_at_utc_ms, 77);
    assert_eq!(p.dut.as_ref().unwrap().board, "wearable");
    assert_eq!(p.dut.as_ref().unwrap().probe_serial, "001");
    assert!(p.dev_bench.is_none());
    assert_eq!(p.signals[0].name, "uart");
    assert!(save_profile(&SaveProfileRequest { name: "///".to_string() }, &s, 77).is_err());
}

fn binding(board: &str, link: Option<&str>) -> RoleBinding {
    RoleBinding {
        board: board.to_string(),
        chip: "nRF54L15".to_string(),
        probe_serial: "001".to_string(),
        link_port_serial: link.map(|s| s.to_string()),
        link_port_interface: None,
    }
}

fn profile() -> Profile {
    Profile {
        name: "bench a".to_string(),
        saved_at_utc_ms: 1,
        dut: Some(binding("wearable", None)),
        dev_bench: Some(binding("", Some("D607104"))),
        signals: vec![SignalLink {
            name: "uart".to_string(),
            route: SignalRoute::ViaDevBench { rx_pin: "P0".to_string(), tx_pin: "P1".to_string() },
        }],
    }
}

#[test]
fn loading_a_bench_enrols_nothing() {
    let p = profile();
    let s = snapshot(Vec::new());
    let steps = plan_apply(&p, &s);
    assert!(matches!(
        steps.as_slice(),
        [ApplyStep::Signal { index: 0 }, ApplyStep::LinkDeferred, ApplyStep::DutBoard]
    ));
    let done = applied(&p, &steps[0], &Ok(()));
    assert_eq!((done.what.as_str(), done.ok), ("signal uart", true));
    let done = applied(&p, &steps[2], &Err("no".to_string()));
    assert_eq!((done.what.as_str(), done.ok, done.detail.as_str()), ("dut board", false, "no"));
    let list = proposals(&p, &s);
    assert_eq!(list.len(), 2);
    assert_eq!((list[1].role, list[1].already_enrolled, list[1].probe_attached), ("dut", false, true));
    let held = snapshot(vec![enrolled("dev-bench", "b", Some("001"))]);
    assert!(matches!(plan_apply(&p, &held)[1], ApplyStep::Link));
}

#[test]
fn the_newest_bench_is_listed_first() {
    let file = |slug: &str, at: Option<u64>| ProfileFile {
        slug: slug.to_string(),
        read: match at {
            Some(saved_at_utc_ms) => Ok(Profile { saved_at_utc_ms, ..profile() }),
            None => Err("unreadable".to_string()),
        },
    };
    let files = vec![file("a", Some(5)), file("b", None), file("c", Some(9))];
    assert_eq!(profile_order(&files), [2, 0, 1]);
    assert_eq!(profile_slug("bench-a.toml").as_deref(), Some("bench-a"));
    assert_eq!(profile_slug("bench-a.json"), None);
}

#[test]
fn a_bench_is_checked_role_by_role() {
    let s = snapshot(vec![enrolled("dut", "wearable", Some("001"))]);
    assert!(asks_role(&s.enrolled, "dut"));
    assert!(!asks_role(&s.enrolled, "dev-bench"));
    let dut = RoleAnswer::Confirmed { hardware_id: "id".to_string(), validated_at_utc_ms: None };
    let report = validate(&s, &RoleAnswer::NotAsked, &dut, &Ok(None), &None).unwrap();
    assert_eq!(report.checks[0].status, Outcome::Empty);
    assert_eq!(report.checks[1].status, Outcome::Pass);
    assert_eq!(report.ok, report.failed == 0);
    let dut = RoleAnswer::Refused { error: "wrong board".to_string() };
    let report = validate(&s, &RoleAnswer::NotAsked, &dut, &Ok(None), &None).unwrap();
    assert_eq!(report.checks[1].status, Outcome::Fail);
    assert!(!report.ok);
}

#[test]
fn a_guessed_port_is_a_warning_and_never_a_pass() {
    let s = snapshot(Vec::new());
    let port = Ok(Some(DevBenchPort {
        port_name: "ttyACM0".to_string(),
        detected_by: "guess".to_string(),
        guessed_among: Some(3),
    }));
    let report =
        validate(&s, &RoleAnswer::NotAsked, &RoleAnswer::NotAsked, &port, &Some(Vec::new())).unwrap();
    assert!(report.checks.iter().any(|c| c.status == Outcome::Warn));
    assert!(report.warned >= 1);
}

#[test]
fn an_unreachable_core_is_no_report() {
    let mut s = Snapshot::pending();
    s.error = Some("down".to_string());
    let e = validate(&s, &RoleAnswer::NotAsked, &RoleAnswer::NotAsked, &Ok(None), &None).unwrap_err();
    assert_eq!(e, "down");
    s.error = None;
    let e = validate(&s, &RoleAnswer::NotAsked, &RoleAnswer::NotAsked, &Ok(None), &None).unwrap_err();
    assert_eq!(e, "embarch-core is unreachable");
}
