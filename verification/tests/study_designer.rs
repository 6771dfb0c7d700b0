use embarch_ui::config::StudyDesignerConfig;
use embarch_ui::json::EMBEDDED_KEY;
use embarch_ui::streams::StreamEncoding;
use embarch_ui::study_designer::gatt::{
    characteristic_names, service_names, subscribable_from, transcript_file, transcript_stream,
    GattCharacteristic, GattName, GattService,
};
use embarch_ui::study_designer::project::{
    adopt_extractor, open_request, project_state, remember_recent_project, static_analysis,
    survey_project, OpenProjectRequest, PathRead, RecentProject, RepoListing,
    StaticAnalysisRequest, StaticGatt, StudyDesigner, STATIC_EXTRACTOR_NAME,
};
use embarch_ui::study_designer::protocols::{
    check_protocol, deletion_names, find_file, protocol_summaries, protocols_response,
    unparsed_files, CheckedBlock, CheckedText, DuplicateName, FileError, ProtocolBlock,
    ProtocolFile,
};
use embarch_ui::study_designer::provenance::{
    bench_state, chosen_level, log_level_note, log_level_options, mismatch_field, provenance_view,
    DevBenchLogLevel, LevelName, OverrideView, Provenance, VersionSource,
};
use embarch_ui::study_designer::references::{
    merge_scans, refusal, scan_references, DirRead, EntryRead, RefKind, ReferenceScan,
    StudyReference,
};
use embarch_ui::study_designer::registry::{delete, register, Entry, RegistryError};
use embarch_ui::study_designer::requirements::{
    BuildSpecInput, HeaderFlag, Limits, OutpostModeInput, RequirementsInput, Verdicts,
};
use embarch_ui::study_designer::saved::{
    list_studies, load_study, read_saved_study, requires_object, rewritten, saved_text, summarise,
    taps_from_streams, version_field, FileRead, LoadedTaps, ReadError, SavedTap, Uuid,
    REQUIREMENT_ANY,
};
use embarch_ui::study_designer::slug::{
    first_free_slug, new_study, studies_dir, study_file, study_slug, NewStudyError, NewStudyRequest,
};
use embarch_ui::study_designer::study::{
    advisories_for, discover_rows, discover_target, discovery_failure, first_gatt_services,
    poll_step, preflight_saved, DevBenchLimits, DiscoverAction, DiscoverRequest, PollStep, Polled,
    Protocol, ProtocolState, StateKind, StepReport,
};
use embarch_ui::study_designer::submit::{
    entry, in_file, run_options, unrunnable, BuildFrame, Entry as RunEntry, Next, StudyRunRequest,
    SubmitRun,
};
use embarch_ui::study_designer::taps::{
    auto_transcript_tap, build_taps, GattTarget, Step, StepAction, StreamSource, StreamTap,
    StructLayout, StudyTaps, TapInput, TapLookup,
};
use embarch_ui::firmware_build::flash::FlashedFirmware;
use embarch_ui::live_study::session::StepOutcome;
use embarch_ui::streams::StreamEntry;

fn limits() -> Limits {
    Limits {
        firmware_version_len: 48,
        build_target_field_len: 32,
        snippet_name_len: 16,
        snippets_per_build: 2,
        build_extra_arg_len: 16,
        build_extra_args: 2,
        stream_name_len: 32,
        signal_name_len: 32,
        record_magic_len: 8,
        streams_per_study: 4,
        decoders_per_study: 2,
    }
}

fn json(text: &str) -> serde_json::Value {
    serde_json::from_str(text).unwrap()
}

fn text(s: &str) -> Option<String> {
    Some(s.to_string())
}

fn hex_digits(s: &str) -> String {
    s.chars().filter(|c| *c != '-').collect()
}

/// The identifier a hyphenated text stands for, where it is one.
fn parse_uuid(s: &str) -> Option<Uuid> {
    let digits = hex_digits(s);
    if digits.len() != 32 {
        return None;
    }
    u128::from_str_radix(&digits, 16).ok().map(|value| Uuid { value })
}

fn uuid_bytes(s: &str) -> String {
    let bytes = parse_uuid(s).unwrap().value.to_be_bytes();
    let list: Vec<String> = bytes.iter().map(|b| b.to_string()).collect();
    format!("[{}]", list.join(","))
}

// ---- names -------------------------------------------------------------------

fn name(label: &str) -> Option<GattName> {
    Some(GattName { label: label.to_string(), source: String::new() })
}

/// A service and its characteristics, as a book of names knows them.
fn service(
    service_uuid: &str,
    service_name: Option<&str>,
    characteristics: &[(&str, Option<&str>)],
) -> GattService {
    GattService {
        uuid: service_uuid.to_string(),
        name: service_name.and_then(name),
        characteristics: characteristics
            .iter()
            .map(|(uuid, label)| GattCharacteristic {
                uuid: uuid.to_string(),
                name: label.and_then(name),
                properties: 0x10,
            })
            .collect(),
    }
}

#[test]
fn the_response_names_characteristics_from_both_sources() {
    let live = Some(vec![service(
        "6e400001-b5a3-f393-e0a9-e50e24dcca9e",
        None,
        &[("6e400003-b5a3-f393-e0a9-e50e24dcca9e", Some("NUS TX"))],
    )]);
    let static_gatt = Some(vec![service(
        "00000001-853f-4a00-8000-e58100000000",
        None,
        &[("00000002-853f-4a00-8000-e58100000000", Some("sds_hrm_rrm"))],
    )]);
    let resolved = characteristic_names(&live, &static_gatt);
    assert_eq!(
        resolved.get("6e400003-b5a3-f393-e0a9-e50e24dcca9e").unwrap().label,
        "NUS TX",
        "a vendor characteristic is named without any extraction at all"
    );
    assert_eq!(
        resolved.get("00000002-853f-4a00-8000-e58100000000").unwrap().label,
        "sds_hrm_rrm"
    );
    assert_eq!(resolved.entries.len(), 2);
}

#[test]
fn the_response_names_services_from_both_sources() {
    let live = Some(vec![service(
        "6e400001-b5a3-f393-e0a9-e50e24dcca9e",
        Some("Nordic UART Service (NUS)"),
        &[("6e400003-b5a3-f393-e0a9-e50e24dcca9e", None)],
    )]);
    let static_gatt = Some(vec![service(
        "00000020-853f-4a00-8000-e58100000000",
        Some("bds_service"),
        &[("00000021-853f-4a00-8000-e58100000000", None)],
    )]);
    let resolved = service_names(&live, &static_gatt);
    assert_eq!(
        resolved.get("6e400001-b5a3-f393-e0a9-e50e24dcca9e").unwrap().label,
        "Nordic UART Service (NUS)"
    );
    assert_eq!(resolved.get("00000020-853f-4a00-8000-e58100000000").unwrap().label, "bds_service");
    assert_eq!(resolved.entries.len(), 2);
}

#[test]
fn a_service_nothing_names_is_left_out_rather_than_guessed_at() {
    // Only the *characteristic* is named.
    let static_gatt = Some(vec![service(
        "00000020-853f-4a00-8000-e58100000000",
        None,
        &[("00000021-853f-4a00-8000-e58100000000", Some("bds_data"))],
    )]);
    assert!(service_names(&None, &static_gatt).entries.is_empty());
    assert_eq!(characteristic_names(&None, &static_gatt).entries.len(), 1);
}

#[test]
fn an_unnamed_characteristic_is_left_out_rather_than_guessed_at() {
    let live = Some(vec![service(
        "00000001-853f-4a00-8000-e58100000000",
        None,
        &[("0000dead-853f-4a00-8000-e58100000000", None)],
    )]);
    assert!(characteristic_names(&live, &None).entries.is_empty());
}

#[test]
fn a_characteristic_found_twice_is_named_once() {
    let both = || {
        Some(vec![service(
            "00000001-853f-4a00-8000-e58100000000",
            None,
            &[("00000002-853f-4a00-8000-e58100000000", Some("sds_hrm_rrm"))],
        )])
    };
    let resolved = characteristic_names(&both(), &both());
    assert_eq!(resolved.entries.len(), 1);
    assert_eq!(
        resolved.get("00000002-853f-4a00-8000-e58100000000").unwrap().label,
        "sds_hrm_rrm"
    );
}

#[test]
fn what_can_be_subscribed_to_is_offered_once_and_the_air_comes_first() {
    let mut live = service("s1", None, &[("c1", None), ("c2", None)]);
    live.characteristics[1].properties = 0x02;
    let mut source = service("s9", None, &[("c1", None), ("c2", None), ("c3", None)]);
    source.characteristics[1].properties = 0x20;
    let list = subscribable_from(&Some(vec![live]), &Some(vec![source]));
    let shown: Vec<(&str, &str, u8, bool)> = list
        .iter()
        .map(|c| (c.service_uuid.as_str(), c.characteristic_uuid.as_str(), c.properties, c.live))
        .collect();
    assert_eq!(
        shown,
        [("s1", "c1", 0x10, true), ("s9", "c2", 0x20, false), ("s9", "c3", 0x10, false)]
    );
    assert!(subscribable_from(&None, &None).is_empty());
}

// ---- projects ----------------------------------------------------------------

fn names(list: &[&str]) -> Vec<String> {
    list.iter().map(|s| s.to_string()).collect()
}

fn listing(entries: &[&str]) -> RepoListing {
    RepoListing {
        entries: names(entries),
        embarch_is_dir: false,
        embarch_entries: Vec::new(),
        registry_is_file: false,
        study_entries: Vec::new(),
    }
}

#[test]
fn a_repo_with_no_embarch_dir_is_a_repo_with_no_studies() {
    let survey = survey_project(&listing(&[".git", "west.yml"]));
    assert!(survey.is_git_repo);
    assert!(survey.looks_like_firmware);
    assert!(!survey.has_embarch_dir);
    assert!(!survey.has_embarch_config);
    assert!(!survey.has_action_registry);
    assert_eq!(survey.saved_studies, 0);
}

#[test]
fn a_bare_embarch_subdirectory_is_not_evidence_of_a_project() {
    let survey = survey_project(&RepoListing {
        embarch_is_dir: true,
        embarch_entries: names(&["embarch-core"]),
        ..listing(&["embarch"])
    });
    assert!(survey.has_embarch_dir, "the directory is there");
    assert!(!survey.has_embarch_config, "but nothing embarch wrote is in it");
    assert!(!survey.is_git_repo);
    assert!(!survey.looks_like_firmware);
}

#[test]
fn an_embarch_config_alone_is_enough() {
    let survey = survey_project(&RepoListing {
        embarch_is_dir: true,
        embarch_entries: names(&["study-actions.toml"]),
        registry_is_file: true,
        ..listing(&["embarch"])
    });
    assert!(survey.has_embarch_config);
    assert!(!survey.is_git_repo);
    assert!(!survey.looks_like_firmware);
}

#[test]
fn a_worktree_whose_dot_git_is_a_file_still_counts_as_a_repo() {
    assert!(survey_project(&listing(&[".git"])).is_git_repo);
}

#[test]
fn a_project_with_studies_counts_only_the_json_ones() {
    let survey = survey_project(&RepoListing {
        embarch_is_dir: true,
        embarch_entries: names(&["study-actions.toml", "studies"]),
        registry_is_file: true,
        study_entries: names(&["one.json", "two.json", "one.json.bak", "README.md"]),
        ..listing(&["embarch"])
    });
    assert!(survey.has_embarch_dir);
    assert!(survey.has_embarch_config);
    assert!(survey.has_action_registry);
    assert_eq!(survey.saved_studies, 2);
}

#[test]
fn a_directory_with_no_signal_at_all_looks_like_nothing() {
    let survey = survey_project(&listing(&["holiday.jpg"]));
    assert!(!survey.is_git_repo);
    assert!(!survey.looks_like_firmware);
    assert!(!survey.has_embarch_dir);
    assert!(!survey.has_embarch_config);
}

fn project(path: &str, extractor: Option<&str>) -> StudyDesignerConfig {
    StudyDesignerConfig {
        firmware_repo_path: path.to_string(),
        static_extractor: extractor.map(|s| s.to_string()),
    }
}

fn nothing_found() -> StaticGatt {
    StaticGatt { services: Vec::new(), symbols: Vec::new(), service_symbols: Vec::new() }
}

#[test]
fn switching_projects_drops_every_per_project_cache() {
    let mut sd = StudyDesigner::new(Some(project("/first", None)));

    // Stand in for a completed `discover` and a completed static
    // extraction against the first project.
    sd.live_gatt = Some(Vec::new());
    sd.static_gatt = Some(Some(nothing_found()));
    assert!(sd.live_gatt.is_some());

    sd.open_project(project("/second", None));

    assert_eq!(sd.repo_path().as_deref(), Some("/second"));
    assert!(sd.live_gatt.is_none(), "a GATT table from the old project must not survive");
    assert!(
        sd.static_gatt.is_none(),
        "the static-extraction cache must be recomputed for the new project"
    );
    assert_eq!(
        studies_dir(&sd.project.unwrap().firmware_repo_path),
        "/second/embarch/studies"
    );
}

/// What an extractor that was not to be run answers.
fn not_run() -> Result<StaticGatt, String> {
    Err("not run".to_string())
}

#[test]
fn no_configured_extractor_caches_the_absence_rather_than_recomputing() {
    let mut sd = StudyDesigner::new(Some(project("/r", None)));
    assert!(sd.static_gatt.is_none());
    assert!(!sd.wants_extraction());
    assert!(sd.static_extraction(not_run()).is_none());
    assert!(sd.static_gatt.is_some(), "the computation must be recorded as having happened");
    assert!(sd.static_gatt.as_ref().unwrap().is_none(), "...and as having produced nothing");
}

#[test]
fn a_unique_new_study_lands_beside_the_names_already_taken() {
    assert_eq!(first_free_slug(&names(&[]), "untitled-study"), "untitled-study");
    assert_eq!(first_free_slug(&names(&["untitled-study"]), "untitled-study"), "untitled-study-2");
    let taken = names(&["untitled-study", "untitled-study-2"]);
    let slug = first_free_slug(&taken, "untitled-study");
    assert_eq!(slug, "untitled-study-3");
    assert!(!taken.contains(&slug), "the path handed back is the one that is free");
}

#[test]
fn an_unrecognized_extractor_is_an_error_not_an_empty_extraction() {
    let mut sd = StudyDesigner::new(Some(project("/r", Some("not-an-extractor"))));
    let err = sd.force_static_extraction(not_run()).expect_err("an unknown name must not pass");
    assert!(err.contains("not-an-extractor"), "the refusal must name what was asked for: {err}");
    assert!(err.contains(STATIC_EXTRACTOR_NAME), "...and what would have worked: {err}");
    // Cached as `Some(None)` so the ordinary lazy path doesn't quietly
    // re-run an extractor that has just failed in front of a human.
    assert_eq!(sd.static_gatt.as_ref().map(Option::is_none), Some(true));
}

#[test]
fn forcing_with_no_extractor_configured_is_not_an_error() {
    let mut sd = StudyDesigner::new(Some(project("/r", None)));
    assert!(sd.force_static_extraction(not_run()).unwrap().is_none());
}

#[test]
fn forcing_discards_the_cache_rather_than_serving_it() {
    let mut sd = StudyDesigner::new(Some(project("/r", Some("not-an-extractor"))));
    // Pretend a previous extraction had found something: the lazy path
    // would serve this forever.
    sd.static_gatt = Some(Some(StaticGatt {
        symbols: vec![("00".to_string(), "stale_symbol".to_string())],
        ..nothing_found()
    }));
    assert!(sd.static_extraction(not_run()).is_some(), "the lazy path serves the cache");
    assert!(sd.force_static_extraction(not_run()).is_err(), "the forced path re-runs");
}

#[test]
fn with_no_project_the_static_extraction_absence_is_not_cached() {
    let mut sd = StudyDesigner::new(None);
    assert!(sd.static_extraction(not_run()).is_none());
    assert!(sd.static_gatt.is_none());
    assert!(sd.repo_path().is_none(), "no project means no registry to load");
}

#[test]
fn an_extractor_is_run_once_for_a_project() {
    let mut sd = StudyDesigner::new(Some(project("/r", Some(STATIC_EXTRACTOR_NAME))));
    assert!(sd.wants_extraction());
    assert!(sd.static_extraction(Ok(nothing_found())).is_some());
    assert!(!sd.wants_extraction());
    assert!(sd.static_extraction(not_run()).is_some());
    assert!(sd.force_static_extraction(Err("no source".to_string())).is_err());
    assert!(sd.static_extraction(not_run()).is_none());
    assert!(StudyDesigner::new(None).force_static_extraction(not_run()).is_err());
}

#[test]
fn a_project_is_opened_only_where_something_says_it_is_one() {
    let req = |path: &str| OpenProjectRequest { path: path.to_string(), static_extractor: text("  ") };
    let dir = |entries: &[&str]| PathRead::Dir { listing: listing(entries), real_path: text("/real/r") };
    assert_eq!(open_request(&req("  "), &dir(&[])).unwrap_err(), "no path given");
    assert_eq!(open_request(&req(" /r "), &PathRead::Nothing).unwrap_err(), "/r doesn't exist");
    assert_eq!(
        open_request(&req("/r"), &PathRead::File).unwrap_err(),
        "/r is a file, not a directory"
    );
    let e = open_request(&req("/r"), &dir(&["embarch", "holiday.jpg"])).unwrap_err();
    assert!(e.starts_with("/r doesn't look like a firmware repo — no .git"), "{e}");
    let config = open_request(&req("/r"), &dir(&["Cargo.toml"])).unwrap();
    assert_eq!(config.firmware_repo_path, "/real/r");
    assert_eq!(config.static_extractor, None);
    let unresolved = PathRead::Dir { listing: listing(&[".git"]), real_path: None };
    assert_eq!(open_request(&req(" /r "), &unresolved).unwrap().firmware_repo_path, "/r");
}

#[test]
fn an_extractor_is_adopted_only_where_it_changes() {
    let ask = |s: Option<&str>| StaticAnalysisRequest { static_extractor: s.map(|s| s.to_string()) };
    let p = project("/r", Some("zephyr-ble-def"));
    assert!(adopt_extractor(&ask(None), &p).is_none());
    assert!(adopt_extractor(&ask(Some(" zephyr-ble-def ")), &p).is_none());
    assert_eq!(adopt_extractor(&ask(Some("")), &p).unwrap().static_extractor, None);
    let other = adopt_extractor(&ask(Some("x")), &p).unwrap();
    assert_eq!(other.static_extractor.as_deref(), Some("x"));
    assert_eq!(other.firmware_repo_path, "/r");

    let found = StaticGatt {
        services: vec![service("s", None, &[("a", None), ("b", None)]), service("t", None, &[("c", None)])],
        ..nothing_found()
    };
    let shown = static_analysis(&Some(p), &Ok(Some(&found)));
    assert!(shown.configured);
    assert_eq!(shown.characteristic_count, 3);
    let shown = static_analysis(&Some(project("/r", None)), &Err("broken".to_string()));
    assert!(!shown.configured);
    assert_eq!(shown.error.as_deref(), Some("broken"));
    assert_eq!(shown.characteristic_count, 0);
}

#[test]
fn the_last_project_stands_first_and_eight_are_kept() {
    let recent = |path: &str| RecentProject { path: path.to_string(), static_extractor: None };
    let mut list: Vec<RecentProject> = Vec::new();
    for i in 0..10 {
        list = remember_recent_project(&list, &recent(&format!("/p{i}")));
    }
    assert_eq!(list.len(), 8);
    assert_eq!(list[0].path, "/p9");
    assert_eq!(list[7].path, "/p2");
    list = remember_recent_project(&list, &recent("/p5"));
    let paths: Vec<&str> = list.iter().map(|r| r.path.as_str()).collect();
    assert_eq!(paths, ["/p5", "/p9", "/p8", "/p7", "/p6", "/p4", "/p3", "/p2"]);
    let state = project_state(&Some(project("/p5", None)), &listing(&[".git"]), list);
    assert_eq!(state.studies_dir.as_deref(), Some("/p5/embarch/studies"));
    assert!(state.survey.unwrap().is_git_repo);
    assert!(project_state(&None, &listing(&[]), Vec::new()).survey.is_none());
}

// ---- requirements ------------------------------------------------------------

fn input(dev_bench: &str, firmware: &str) -> RequirementsInput {
    RequirementsInput {
        dev_bench_version: dev_bench.to_string(),
        firmware_version: firmware.to_string(),
        build: None,
        outpost: None,
    }
}

fn passed() -> Verdicts {
    Verdicts { build: Ok(()), outpost: Ok(()), whole: Ok(()) }
}

#[test]
fn a_blank_requirement_is_refused_rather_than_read_as_any() {
    let any = input(REQUIREMENT_ANY, REQUIREMENT_ANY).build(&limits(), &Vec::new(), &passed()).unwrap();
    assert_eq!(any.dev_bench_version, "any");
    assert_eq!(any.firmware_version, "any");
    assert!(any.build.is_none());
    assert!(any.outpost.is_none());
    for bad in [input("", "v1"), input("v1", ""), input("v1", "   ")] {
        let err = bad.build(&limits(), &Vec::new(), &passed()).expect_err("blank must be refused");
        assert!(err.contains("blank"), "{err}");
        assert!(err.contains("any build"), "the message must name the checkbox: {err}");
    }
}

#[test]
fn a_stated_version_survives_intact() {
    let requires = input("v9-dirty", "g1a2b3c4-dirty").build(&limits(), &Vec::new(), &passed()).unwrap();
    assert_eq!(requires.dev_bench_version.as_str(), "v9-dirty");
    assert_eq!(requires.firmware_version.as_str(), "g1a2b3c4-dirty");
}

#[test]
fn a_version_too_long_for_the_wire_says_so_here() {
    let cap = limits().firmware_version_len;
    let long = "x".repeat(cap + 1);
    let err = input(&long, REQUIREMENT_ANY).build(&limits(), &Vec::new(), &passed()).expect_err("must refuse");
    assert!(err.contains(&cap.to_string()), "{err}");
}

#[test]
fn a_build_is_narrowed_only_by_what_is_stated() {
    let spec = |board: Option<&str>, snippets: &[&str]| BuildSpecInput {
        board: board.map(|s| s.to_string()),
        variant: None,
        revision: text("  "),
        app: None,
        snippets: names(snippets),
        extra_args: Vec::new(),
    };
    let built = spec(Some(" nrf "), &["a", " ", "b"]).build(&limits(), &Ok(())).unwrap();
    assert_eq!(built.board.as_deref(), Some("nrf"));
    assert_eq!(built.revision, None);
    assert_eq!(built.snippets, ["a", "b"]);
    let long = "x".repeat(33);
    assert_eq!(
        spec(Some(&long), &[]).build(&limits(), &Ok(())).unwrap_err(),
        "requires.build.board is 33 characters and a study can carry 32"
    );
    assert!(spec(None, &["a", "b", "c"]).build(&limits(), &Ok(())).is_err());
}

#[test]
fn a_trace_mode_is_the_mask_of_its_flags() {
    let flags = vec![
        HeaderFlag { name: "timing".to_string(), bit: 1 },
        HeaderFlag { name: "names".to_string(), bit: 4 },
    ];
    let mode = OutpostModeInput { set: names(&["timing", "names"]), clear: Vec::new() };
    let built = mode.build(&flags, &Ok(())).unwrap();
    assert_eq!((built.required_set, built.required_clear), (5, 0));
    let unknown = OutpostModeInput { set: Vec::new(), clear: names(&["x"]) };
    let e = unknown.build(&flags, &Ok(())).unwrap_err();
    assert!(e.contains("'x'") && e.contains("timing, names"), "{e}");
}

#[test]
fn what_the_rules_of_a_study_turn_down_is_refused() {
    let no = |why: &str| -> Result<(), String> { Err(why.to_string()) };
    let whole = Verdicts { whole: no("whole"), ..passed() };
    assert_eq!(input("v1", "v1").build(&limits(), &Vec::new(), &whole).unwrap_err(), "whole");
    // A part that is not required is not asked about.
    let parts = Verdicts { build: no("build"), outpost: no("mode"), whole: Ok(()) };
    assert!(input("v1", "v1").build(&limits(), &Vec::new(), &parts).is_ok());
    let mut both = input("v1", "v1");
    both.outpost = Some(OutpostModeInput { set: Vec::new(), clear: Vec::new() });
    assert_eq!(both.build(&limits(), &Vec::new(), &parts).unwrap_err(), "mode");
    both.build = Some(BuildSpecInput {
        board: None,
        variant: None,
        revision: None,
        app: None,
        snippets: Vec::new(),
        extra_args: Vec::new(),
    });
    assert_eq!(both.build(&limits(), &Vec::new(), &parts).unwrap_err(), "build");
    assert!(both.draft(&limits(), &Vec::new()).is_ok(), "a draft is made before they are asked");
    // What cannot be carried at all comes first.
    assert!(input("", "v1").build(&limits(), &Vec::new(), &whole).unwrap_err().contains("blank"));
}

// ---- taps --------------------------------------------------------------------

fn tap(name: &str, signal: &str) -> TapInput {
    TapInput::Outpost { name: name.to_string(), signal: signal.to_string() }
}

const NUS_SERVICE: &str = "6e400001-b5a3-f393-e0a9-e50e24dcca9e";
const NUS_TX: &str = "6e400003-b5a3-f393-e0a9-e50e24dcca9e";

fn gatt_tap(name: &str, characteristic: &str, decoder: &str) -> TapInput {
    TapInput::GattNotify {
        name: name.to_string(),
        service_uuid: NUS_SERVICE.to_string(),
        characteristic_uuid: characteristic.to_string(),
        decoder: decoder.to_string(),
        record_magic: Vec::new(),
    }
}

fn gatt_tap_with_magic(name: &str, magic: &[u8]) -> TapInput {
    TapInput::GattNotify {
        name: name.to_string(),
        service_uuid: NUS_SERVICE.to_string(),
        characteristic_uuid: NUS_TX.to_string(),
        decoder: String::new(),
        record_magic: magic.to_vec(),
    }
}

/// Steps with one unfiltered monitor action, so a GattNotify tap in
/// these tests has something subscribing to it.
fn monitoring_steps() -> Vec<Step> {
    vec![Step { name: "monitor".to_string(), action: StepAction::GattMonitorStart }]
}

fn plain_steps(count: usize) -> Vec<Step> {
    (0..count).map(|i| Step { name: format!("s{i}"), action: StepAction::Other }).collect()
}

/// A repository whose one layout is `ppg_packet`.
fn lookup(tap: &TapInput) -> TapLookup {
    let missing = |name: &str| Err(format!("no payload layout named '{name}'"));
    match tap {
        TapInput::Outpost { .. } => TapLookup {
            service: None,
            characteristic: None,
            characteristic_shown: String::new(),
            layout: missing(""),
        },
        TapInput::GattNotify { service_uuid, characteristic_uuid, decoder, .. } => TapLookup {
            service: parse_uuid(service_uuid),
            characteristic: parse_uuid(characteristic_uuid),
            characteristic_shown: characteristic_uuid.clone(),
            layout: if decoder == "ppg_packet" {
                Ok(StructLayout { name: decoder.clone(), record: "{}".to_string() })
            } else {
                missing(decoder)
            },
        },
    }
}

fn built(taps: Vec<TapInput>, steps: &Vec<Step>) -> Result<StudyTaps, String> {
    let lookups: Vec<TapLookup> = taps.iter().map(lookup).collect();
    build_taps(&taps, &lookups, steps, &limits())
}

#[test]
fn authored_taps_get_their_index_as_their_wire_handle() {
    let out = built(vec![tap("outpost", "outpost-uart"), tap("second", "other")], &plain_steps(3))
        .unwrap();
    let taps = &out.streams;
    assert_eq!(taps.len(), 2);
    assert!(out.decoders.is_empty(), "an outpost tap declares no decoder");
    assert_eq!(taps[0].id, 0);
    assert_eq!(taps[1].id, 1);
    assert_eq!(taps[0].name.as_str(), "outpost");
    assert!(matches!(taps[0].encoding, StreamEncoding::OutpostTrace));
    match &taps[0].source {
        StreamSource::Signal { name } => assert_eq!(name.as_str(), "outpost-uart"),
        other => panic!("a trace tap must name a signal, got {other:?}"),
    }
}

#[test]
fn the_taps_core_would_reject_are_rejected_here() {
    let steps = plain_steps(1);
    // Two taps naming the same output file would interleave into one.
    let e = built(vec![tap("outpost", "a"), tap("outpost", "b")], &steps).unwrap_err();
    assert_eq!(e, "more than one stream tap is called 'outpost'");
    // An unnamed tap has no output file to write to.
    assert_eq!(built(vec![tap("  ", "a")], &steps).unwrap_err(), "stream tap 1 has no name");
    // And a tap that names no signal has no source at all.
    assert!(built(vec![tap("outpost", "")], &steps).is_err());
    assert!(built(vec![tap("outpost", "  ")], &steps).is_err());
    assert!(built(vec![tap("outpost", "a"), tap("second", "b")], &steps).is_ok());
}

#[test]
fn no_taps_is_a_valid_study() {
    assert!(built(Vec::new(), &plain_steps(2)).unwrap().streams.is_empty());
}

#[test]
fn a_gatt_tap_with_a_named_layout_resolves_it_into_the_study() {
    let out = built(vec![gatt_tap("ppg", NUS_TX, "ppg_packet")], &monitoring_steps()).unwrap();
    assert_eq!(out.decoders.len(), 1);
    assert_eq!(out.decoders[0].name.as_str(), "ppg_packet");
    assert!(matches!(out.streams[0].encoding, StreamEncoding::Struct { decoder: 0 }));
    match out.streams[0].source {
        StreamSource::GattNotify { characteristic, .. } => {
            assert_eq!(characteristic, parse_uuid(NUS_TX).unwrap());
        }
        ref other => panic!("expected a GattNotify source, got {other:?}"),
    }
}

#[test]
fn a_record_check_carries_the_id_of_the_tap_it_rides_on() {
    let out = built(
        vec![gatt_tap("plain", NUS_TX, ""), gatt_tap_with_magic("framed", b"GWF1")],
        &monitoring_steps(),
    )
    .unwrap();
    let checks = &out.record_checks;
    assert_eq!(checks.len(), 1, "only the tap with a magic gets a check");
    assert_eq!(checks[0].stream_id, out.streams[1].id);
    assert_eq!(checks[0].stream_id, 1);
    assert_eq!(checks[0].magic.as_slice(), b"GWF1");
}

#[test]
fn a_tap_with_no_magic_gets_no_check() {
    let out = built(vec![gatt_tap("plain", NUS_TX, "")], &monitoring_steps()).unwrap();
    assert!(out.record_checks.is_empty());
}

#[test]
fn an_over_long_magic_is_refused_naming_the_tap() {
    let cap = limits().record_magic_len;
    let too_long = vec![0xAA; cap + 1];
    let err = built(vec![gatt_tap_with_magic("framed", &too_long)], &monitoring_steps()).unwrap_err();
    assert!(err.contains("'framed'"), "{err}");
    assert!(err.contains(&cap.to_string()), "{err}");
    assert!(err.contains(&too_long.len().to_string()), "{err}");
}

#[test]
fn a_record_magic_comes_back_off_record_checks_with_no_sidecar() {
    let study = json(&format!(
        r#"{{
            "streams": [{{
                "id": 0,
                "name": "ppg",
                "source": {{ "GattNotify": {{
                    "service_uuid": {},
                    "characteristic_uuid": {}
                }} }},
                "encoding": "Raw",
                "scope": "WholeStudy"
            }}],
            "record_checks": [{{
                "stream_id": 0,
                "framing": {{ "MagicPrefixedCrc32Le": {{ "magic": [71, 87, 70, 49] }} }}
            }}]
        }}"#,
        uuid_bytes(NUS_SERVICE),
        uuid_bytes(NUS_TX)
    ));
    match &taps_from_streams(&study)[0] {
        SavedTap::GattNotify { record_magic, .. } => assert_eq!(record_magic, b"GWF1"),
        other => panic!("expected a GattNotify tap, got {other:?}"),
    }
}

#[test]
fn an_absent_log_level_leaves_the_crates_default() {
    assert_eq!(chosen_level(None, DevBenchLogLevel::Warn), DevBenchLogLevel::Warn);
    assert_eq!(
        chosen_level(Some(DevBenchLogLevel::Debug), DevBenchLogLevel::Warn),
        DevBenchLogLevel::Debug
    );
}

#[test]
fn a_gatt_tap_with_no_layout_is_raw_rather_than_guessed_at() {
    let out = built(vec![gatt_tap("ppg", NUS_TX, "")], &monitoring_steps()).unwrap();
    assert!(out.decoders.is_empty());
    assert!(matches!(out.streams[0].encoding, StreamEncoding::Raw));
}

#[test]
fn two_taps_sharing_a_layout_share_one_decoder_slot() {
    let out = built(
        vec![gatt_tap("a", NUS_TX, "ppg_packet"), gatt_tap("b", NUS_SERVICE, "ppg_packet")],
        &monitoring_steps(),
    )
    .unwrap();
    assert_eq!(out.decoders.len(), 1, "one layout, one slot");
    assert!(matches!(out.streams[0].encoding, StreamEncoding::Struct { decoder: 0 }));
    assert!(matches!(out.streams[1].encoding, StreamEncoding::Struct { decoder: 0 }));
}

#[test]
fn a_gatt_tap_nothing_subscribes_to_is_refused_at_authoring_time() {
    let err = built(vec![gatt_tap("ppg", NUS_TX, "")], &plain_steps(1)).expect_err("must refuse");
    assert!(err.contains("no step in this study subscribes"), "{err}");
}

#[test]
fn a_selective_monitor_step_satisfies_only_the_characteristics_it_names() {
    let steps = vec![Step {
        name: "monitor".to_string(),
        action: StepAction::GattMonitorSelectedStart {
            targets: vec![GattTarget {
                service: parse_uuid(NUS_SERVICE).unwrap(),
                characteristic: parse_uuid(NUS_TX).unwrap(),
            }],
        },
    }];
    assert!(built(vec![gatt_tap("tx", NUS_TX, "")], &steps).is_ok());
    // The RX characteristic is not named by that step, so a tap on it
    // would capture nothing.
    let rx = "6e400002-b5a3-f393-e0a9-e50e24dcca9e";
    assert!(built(vec![gatt_tap("rx", rx, "")], &steps).is_err());
}

#[test]
fn a_layout_the_repo_does_not_declare_is_named_not_silently_dropped() {
    let err =
        built(vec![gatt_tap("ppg", NUS_TX, "ecg_packet")], &monitoring_steps()).expect_err("must refuse");
    assert!(err.contains("ecg_packet"), "{err}");
}

#[test]
fn a_study_with_a_monitor_step_gets_a_transcript_tap_it_did_not_author() {
    let mut streams: Vec<StreamTap> = Vec::new();
    auto_transcript_tap(&mut streams, &monitoring_steps(), &limits()).unwrap();
    assert_eq!(streams.len(), 1);
    assert_eq!(streams[0].name.as_str(), "gatt");
    assert_eq!(streams[0].id, 0, "id is still the tap's own index");
    assert!(matches!(streams[0].source, StreamSource::GattTranscript));
    assert!(matches!(streams[0].encoding, StreamEncoding::GattTranscript));
}

#[test]
fn a_study_with_no_monitor_step_gets_no_transcript_tap() {
    let mut streams: Vec<StreamTap> = Vec::new();
    auto_transcript_tap(&mut streams, &plain_steps(2), &limits()).unwrap();
    assert!(streams.is_empty(), "nothing to record, nothing declared");
}

#[test]
fn the_auto_tap_lands_after_the_authored_ones_and_keeps_index_as_id() {
    let mut streams =
        built(vec![gatt_tap("ppg", NUS_TX, "ppg_packet")], &monitoring_steps()).unwrap().streams;
    auto_transcript_tap(&mut streams, &monitoring_steps(), &limits()).unwrap();
    assert_eq!(streams.len(), 2);
    assert_eq!(streams[1].id, 1);
    // The auto tap satisfies the same rules the authored ones do: an id that is its place,
    // and a name of its own.
    for (i, s) in streams.iter().enumerate() {
        assert_eq!(s.id as usize, i);
        assert!(!s.name.is_empty());
        assert!(streams[..i].iter().all(|other| other.name != s.name));
    }
}

#[test]
fn a_tap_that_has_the_transcripts_name_is_refused() {
    let mut streams = built(vec![tap("gatt", "s")], &monitoring_steps()).unwrap().streams;
    let e = auto_transcript_tap(&mut streams, &monitoring_steps(), &limits()).unwrap_err();
    assert!(e.contains("'gatt'"), "{e}");
    assert_eq!(streams.len(), 1, "what was authored stays as it was");
    assert!(auto_transcript_tap(&mut streams, &plain_steps(1), &limits()).is_ok());
}

#[test]
fn an_authored_transcript_tap_is_not_duplicated() {
    let mut streams = vec![StreamTap {
        id: 0,
        name: "my-transcript".to_string(),
        source: StreamSource::GattTranscript,
        encoding: StreamEncoding::GattTranscript,
    }];
    auto_transcript_tap(&mut streams, &monitoring_steps(), &limits()).unwrap();
    assert_eq!(streams.len(), 1, "one producer per transcript, and the author's wins");
}

#[test]
fn a_study_with_no_room_for_its_transcript_is_told() {
    let taps: Vec<TapInput> = (0..4).map(|i| tap(&format!("t{i}"), "s")).collect();
    let mut streams = built(taps, &monitoring_steps()).unwrap().streams;
    let e = auto_transcript_tap(&mut streams, &monitoring_steps(), &limits()).unwrap_err();
    assert!(e.starts_with("this study declares 4 taps, leaving no room"), "{e}");
    assert_eq!(streams.len(), 4);
    let taps: Vec<TapInput> = (0..5).map(|i| tap(&format!("t{i}"), "s")).collect();
    assert!(built(taps, &monitoring_steps()).is_err());
}

// ---- provenance --------------------------------------------------------------

#[test]
fn declared_is_the_only_unverified_source() {
    let mut p = Provenance {
        dev_bench_version: "v9".to_string(),
        firmware_version: "g1a2b3c4".to_string(),
        dev_bench_source: VersionSource::ReportedByDevBench,
        firmware_source: VersionSource::Declared,
        overrides: Vec::new(),
    };
    let view = provenance_view(&p);
    assert!(view.dev_bench_verified);
    assert_eq!(view.dev_bench_source, "reported by dev-bench");
    assert!(!view.firmware_verified, "Declared must not read as verified");
    assert_eq!(view.firmware_source, "declared");
    assert!(view.overrides.is_empty());

    // An override carries both strings, because the whole content of an
    // override is the gap between them.
    p.overrides.push(OverrideView {
        subject: "firmware_version".to_string(),
        required: "g9999999".to_string(),
        actual: "g1a2b3c4".to_string(),
    });
    let view = provenance_view(&p);
    assert_eq!(view.overrides.len(), 1);
    assert_eq!(view.overrides[0].subject, "firmware_version");
    assert_eq!(view.overrides[0].required, "g9999999");
    assert_eq!(view.overrides[0].actual, "g1a2b3c4");

    for source in [VersionSource::ReportedByOutpost, VersionSource::FlashedThisRun] {
        assert!(source.is_verified(), "{source:?} reads as unverified");
    }
}

#[test]
fn each_half_of_the_bench_fails_for_itself() {
    let state = bench_state(Ok("v9".to_string()), Err("no git".to_string()));
    assert_eq!(state.dev_bench.as_deref(), Some("v9"));
    assert_eq!(state.dev_bench_error, None);
    assert_eq!(state.dut, None);
    assert_eq!(state.dut_error.as_deref(), Some("no git"));
    assert_eq!(state.any, "any");
    let field = mismatch_field(" v9 ", Ok("v8".to_string()), false);
    assert_eq!((field.required.as_str(), field.satisfied), ("v9", Some(false)));
    let field = mismatch_field("v9", Err("unplugged".to_string()), false);
    assert_eq!(field.satisfied, None, "a version that could not be read is no mismatch");
    assert_eq!(field.unavailable.as_deref(), Some("unplugged"));
}

#[test]
fn a_level_says_what_choosing_it_costs() {
    assert!(log_level_note(DevBenchLogLevel::Off).starts_with("Nothing comes back"));
    assert_eq!(log_level_note(DevBenchLogLevel::Warn), "");
    assert_eq!(log_level_note(DevBenchLogLevel::Info), log_level_note(DevBenchLogLevel::Debug));
    let levels: Vec<LevelName> = [DevBenchLogLevel::Off, DevBenchLogLevel::Warn]
        .iter()
        .map(|l| LevelName { level: *l, value: format!("{l:?}"), label: "l".to_string() })
        .collect();
    let options = log_level_options(&levels, DevBenchLogLevel::Warn);
    assert_eq!(options[1].value, "Warn");
    assert!(options[1].default && !options[0].default);
}

// ---- saved studies -----------------------------------------------------------

#[test]
fn taps_load_back_from_a_study_with_no_sidecar() {
    let study = json(
        r#"{
            "name": "trace run",
            "streams": [
                { "id": 0, "name": "outpost", "source": { "Signal": { "name": "outpost-uart" } },
                  "encoding": "OutpostTrace", "scope": "WholeStudy" },
                { "id": 1, "name": "power", "source": { "PowerFrontEnd": { "sample_hz": 1000 } },
                  "encoding": "Raw", "scope": "WholeStudy" }
            ]
        }"#,
    );
    let taps = taps_from_streams(&study);
    assert_eq!(taps.len(), 1);
    match &taps[0] {
        SavedTap::Outpost { name, signal } => {
            assert_eq!(name, "outpost");
            assert_eq!(signal, "outpost-uart");
        }
        other => panic!("expected an outpost tap, got {other:?}"),
    }
}

#[test]
fn a_gatt_tap_loads_back_from_a_study_with_no_sidecar() {
    let study = json(&format!(
        r#"{{
            "name": "capture",
            "decoders": [{{ "name": "ppg_packet", "header": [], "repeat": [] }}],
            "streams": [{{
                "id": 0,
                "name": "ppg",
                "source": {{ "GattNotify": {{
                    "service_uuid": {},
                    "characteristic_uuid": {}
                }} }},
                "encoding": {{ "Struct": {{ "decoder": 0 }} }},
                "scope": "WholeStudy"
            }}]
        }}"#,
        uuid_bytes(NUS_SERVICE),
        uuid_bytes(NUS_TX)
    ));
    match &taps_from_streams(&study)[0] {
        SavedTap::GattNotify { name, service, characteristic, decoder, .. } => {
            assert_eq!(name, "ppg");
            assert_eq!(*service, parse_uuid(NUS_SERVICE).unwrap());
            assert_eq!(*characteristic, parse_uuid(NUS_TX).unwrap());
            assert_eq!(decoder, "ppg_packet");
        }
        other => panic!("expected a GattNotify tap, got {other:?}"),
    }
}

#[test]
fn a_raw_gatt_tap_loads_back_with_no_decoder_rather_than_a_guessed_one() {
    let study = json(&format!(
        r#"{{
            "streams": [{{
                "id": 0,
                "name": "ppg",
                "source": {{ "GattNotify": {{
                    "service_uuid": {},
                    "characteristic_uuid": {}
                }} }},
                "encoding": "Raw",
                "scope": "WholeStudy"
            }}]
        }}"#,
        uuid_bytes(NUS_SERVICE),
        uuid_bytes(NUS_TX)
    ));
    match &taps_from_streams(&study)[0] {
        SavedTap::GattNotify { decoder, .. } => assert!(decoder.is_empty()),
        other => panic!("expected a GattNotify tap, got {other:?}"),
    }
}

#[test]
fn a_saved_studys_requirements_come_from_the_study_itself() {
    let study = json(r#"{ "requires": { "dev_bench_version": "v9", "firmware_version": "any" } }"#);
    assert_eq!(version_field(&study, "dev_bench_version"), "v9");
    assert_eq!(version_field(&study, "firmware_version"), "any");
    // A file with no `requires` at all reads as unconstrained, which is
    // what such a study would in fact have done.
    assert_eq!(version_field(&json("{}"), "firmware_version"), REQUIREMENT_ANY);
    let study = json(r#"{ "requires": { "build": null, "outpost": { "set": 1 } } }"#);
    assert!(requires_object(&study, "build").is_none());
    assert_eq!(requires_object(&study, "outpost").unwrap(), json(r#"{ "set": 1 }"#));
}

#[test]
fn a_saved_study_loads_back_with_its_rows_and_taps() {
    let written = saved_text(
        json(r#"{ "name": "Drain", "steps": [1, 2] }"#),
        json(r#"[{ "name": "connect" }]"#),
        json("[]"),
    )
    .unwrap();
    let value = read_saved_study("drain", "/s/drain.json", &FileRead::Text(written)).unwrap();
    let loaded = load_study(&value, "drain", "/s/drain.json").unwrap();
    assert_eq!(loaded.name, "Drain");
    assert_eq!(loaded.rows, json(r#"[{ "name": "connect" }]"#));
    assert!(matches!(loaded.taps, LoadedTaps::Authored(_)));
    assert_eq!(loaded.firmware_version, "any");
    assert_eq!(loaded.dev_bench_log_level, None);
    let e = load_study(&json("{}"), "x", "/s/x.json").unwrap_err();
    assert!(e.ends_with("--study-file /s/x.json`"), "{e}");
    assert_eq!(
        saved_text(json("3"), json("[]"), json("[]")).unwrap_err(),
        "Study didn't serialize as an object"
    );
    match read_saved_study("x", "/s/x.json", &FileRead::Missing) {
        Err(ReadError::NotFound(e)) => assert_eq!(e, "no saved study 'x'"),
        other => panic!("{other:?}"),
    }
    match read_saved_study("x", "/s/x.json", &FileRead::Text("{".to_string())) {
        Err(ReadError::Malformed(e)) => assert!(e.starts_with("/s/x.json isn't valid JSON: "), "{e}"),
        other => panic!("{other:?}"),
    }
    match read_saved_study("x", "/s/x.json", &FileRead::Failed("denied".to_string())) {
        Err(ReadError::Unreadable(e)) => assert_eq!(e, "denied"),
        other => panic!("{other:?}"),
    }
}

#[test]
fn only_the_required_firmware_is_rewritten() {
    let was = r#"{ "name": "a", "requires": { "dev_bench_version": "v9", "firmware_version": "old" } }"#;
    let now = rewritten("/s/a.json", was, "new").unwrap();
    assert!(now.ends_with("\n"), "{now:?}");
    assert_eq!(
        json(&now),
        json(r#"{ "name": "a", "requires": { "dev_bench_version": "v9", "firmware_version": "new" } }"#)
    );
    assert_eq!(
        rewritten("/s/a.json", "{}", "new").unwrap_err(),
        "/s/a.json has no `requires` object to update"
    );
    assert!(rewritten("/s/a.json", "nope", "new").unwrap_err().starts_with("/s/a.json isn't valid"));
}

#[test]
fn studies_are_listed_by_their_names_in_lower_case() {
    let file = |name: &str, text: &str| EntryRead::File { name: name.to_string(), text: Some(text.to_string()) };
    let list = list_studies(&vec![
        file("z.json", r#"{ "name": "Éa", "steps": [1] }"#),
        file("b.json", r#"{ "name": "beta", "_embarch_ui_rows": [] }"#),
        file("a.json", r#"{ "name": "Alpha" }"#),
        file("broken.json", "{"),
        file("notes.md", "{}"),
        EntryRead::Unreadable,
    ]);
    let shown: Vec<(&str, usize, bool)> =
        list.iter().map(|s| (s.slug.as_str(), s.steps, s.editable)).collect();
    assert_eq!(shown, [("a", 0, false), ("b", 0, true), ("z", 1, false)]);
}

#[test]
fn a_summary_names_what_a_study_holds() {
    let study = json(
        r#"{ "steps": [{ "name": "connect" }, { "name": " " }],
             "streams": [{ "name": "gatt" }], "protocols": [], "record_checks": [1, 2] }"#,
    );
    let s = summarise(&study, "drain");
    assert_eq!(s.name, "drain");
    assert_eq!(s.steps, ["connect", "steps 2"]);
    assert_eq!(s.taps, ["gatt"]);
    assert!(s.protocols.is_empty());
    assert_eq!(s.record_checks, 2);
    assert_eq!(s.dev_bench_log_level, "Warn");
    assert!(!s.editable);
}

#[test]
fn a_study_slug_stays_in_its_directory() {
    assert_eq!(study_slug("../../etc/passwd").unwrap(), "etc-passwd");
    assert_eq!(study_slug(" My study_1 ").unwrap(), "My-study_1");
    assert_eq!(study_slug("///").unwrap_err(), "'///' has no characters usable in a filename");
    assert_eq!(study_file("/r", "a"), "/r/embarch/studies/a.json");
}

#[test]
fn a_new_study_never_replaces_one() {
    let req = |name: &str, unique: bool| NewStudyRequest { name: name.to_string(), unique };
    let taken = names(&["alpha"]);
    let made = new_study(&req("Beta one", false), &taken).unwrap();
    assert_eq!((made.slug.as_str(), made.name.as_str()), ("Beta-one", "Beta one"));
    let made = new_study(&req("alpha", true), &taken).unwrap();
    assert_eq!((made.slug.as_str(), made.name.as_str()), ("alpha-2", "alpha-2"));
    match new_study(&req("alpha", false), &taken) {
        Err(NewStudyError::Taken(e)) => {
            assert_eq!(e, "'alpha' already exists — open it, or pick another name")
        }
        other => panic!("{other:?}"),
    }
    assert!(new_study(&req("--", false), &taken).is_err());
    // Where every number is taken too, nothing is replaced.
    let mut all = names(&["alpha"]);
    all.extend((2..=998).map(|k| format!("alpha-{k}")));
    assert_eq!(new_study(&req("alpha", true), &all).unwrap().slug, "alpha-999");
    all.push("alpha-999".to_string());
    match new_study(&req("alpha", true), &all) {
        Err(NewStudyError::Taken(e)) => {
            assert_eq!(e, "every name from 'alpha' to 'alpha-999' is taken — pick another name")
        }
        other => panic!("{other:?}"),
    }
}

// ---- before a run ------------------------------------------------------------

fn bench() -> DevBenchLimits {
    DevBenchLimits { max_steps_per_study: 3, max_event_arms_per_state: 2, max_protocols_wire_len: 100 }
}

#[test]
fn a_small_study_is_over_no_advisory_cap() {
    assert!(advisories_for(0, 1, &Vec::new(), &bench()).is_empty());
}

#[test]
fn a_study_over_the_step_cap_gets_one_sentence_and_no_verdict() {
    let cap = bench().max_steps_per_study;
    let advisories = advisories_for(cap + 1, 1, &Vec::new(), &bench());
    assert_eq!(advisories.len(), 1, "{advisories:?}");
    assert!(advisories[0].contains(&(cap + 1).to_string()));
    assert!(advisories[0].contains(&cap.to_string()));
    for verdict in ["cannot", "refuse this", "will not run", "too many"] {
        assert!(!advisories[0].contains(verdict), "advisory reads as a gate: {advisories:?}");
    }
}

#[test]
fn the_wire_length_advisory_reads_the_encoded_size() {
    let cap = bench().max_protocols_wire_len;
    let over = cap + 1;
    let advisories = advisories_for(0, over, &Vec::new(), &bench());
    assert_eq!(advisories.len(), 1, "{advisories:?}");
    assert!(advisories[0].contains(&over.to_string()));
    assert!(advisories[0].contains(&cap.to_string()));
}

fn protocol(states: &[(&str, bool)]) -> Protocol {
    Protocol {
        name: "bds".to_string(),
        states: states
            .iter()
            .map(|(name, terminal)| ProtocolState {
                name: name.to_string(),
                kind: if *terminal {
                    StateKind::Terminal { pass: true }
                } else {
                    StateKind::Active { event_arms: 0 }
                },
            })
            .collect(),
    }
}

#[test]
fn a_state_with_too_many_arms_is_named() {
    let mut p = protocol(&[("go", false), ("done", true)]);
    p.states[0].kind = StateKind::Active { event_arms: 3 };
    let advisories = advisories_for(0, 1, &vec![p], &bench());
    assert_eq!(
        advisories,
        ["protocol 'bds' state 'go' has 3 event arms — this suite's dev-bench accepts 2 per state"]
    );
}

fn run_protocol(protocol: u8, entry_state: u8) -> Vec<Step> {
    vec![Step {
        name: "handshake".to_string(),
        action: StepAction::RunProtocol { protocol, entry_state },
    }]
}

#[test]
fn a_hand_written_study_gets_the_run_protocol_index_checks() {
    let protocols = vec![protocol(&[("go", false), ("done", true)])];
    let check = |steps: Vec<Step>| preflight_saved(&Ok(()), &vec![Ok(())], &steps, &protocols);
    // In range and not terminal: accepted.
    assert!(check(run_protocol(0, 0)).is_ok());

    // Entry state past the end.
    let err = check(run_protocol(0, 9)).unwrap_err();
    assert!(err.contains("state 9"), "{err}");
    assert!(err.contains("handshake"), "{err}");

    // Entry state terminal.
    let err = check(run_protocol(0, 1)).unwrap_err();
    assert!(err.contains("terminal"), "{err}");
    assert!(err.contains("'done'"), "{err}");

    // Protocol index past the end.
    let err = check(run_protocol(3, 0)).unwrap_err();
    assert!(err.contains("protocol 3"), "{err}");
}

#[test]
fn a_protocol_that_can_never_finish_is_refused_naming_it() {
    let verdict = Err("no terminal state".to_string());
    let err = preflight_saved(
        &Ok(()),
        &vec![verdict],
        &run_protocol(0, 0),
        &vec![protocol(&[("go", false)])],
    )
    .unwrap_err();
    assert!(err.contains("'bds'"), "{err}");
    assert!(err.contains("terminal"), "{err}");
    let taps = Err("DuplicateName".to_string());
    let err = preflight_saved(&taps, &Vec::new(), &Vec::new(), &Vec::new()).unwrap_err();
    assert_eq!(err, "DuplicateName");
}

#[test]
fn a_discovery_connects_to_the_device_of_a_name() {
    let ask = |s: Option<&str>| discover_target(&DiscoverRequest { target_name: s.map(|s| s.to_string()) });
    assert_eq!(ask(Some("dut ")).as_deref(), Some("dut "));
    assert_eq!(ask(Some("  ")), None);
    assert_eq!(ask(None), None);
    let rows = discover_rows(&text("dut"));
    assert_eq!(rows.len(), 2);
    assert_eq!((rows[0].name, rows[0].action), ("connect", DiscoverAction::BleConnect));
    assert_eq!(rows[0].target_name.as_deref(), Some("dut"));
    assert_eq!((rows[1].name, rows[1].action), ("discover", DiscoverAction::GattDiscover));
    assert_eq!(rows[1].timeout_ms, 15_000);
}

#[test]
fn a_discovery_that_found_nothing_says_why() {
    let step = |name: &str, outcome: StepOutcome, has_services: bool| StepReport {
        step_name: name.to_string(),
        outcome,
        has_services,
    };
    let failed = StepOutcome::Fail { reason: "HCI 0x1f".to_string() };
    let steps = vec![step("connect", StepOutcome::Pass, false), step("discover", failed, true)];
    assert_eq!(discovery_failure(&steps).as_deref(), Some("step 'discover' failed: HCI 0x1f"));
    assert_eq!(first_gatt_services(&steps), Some(1));
    let steps = vec![step("connect", StepOutcome::TimedOut, false)];
    assert_eq!(discovery_failure(&steps).as_deref(), Some("step 'connect' timed out"));
    let steps = vec![step("connect", StepOutcome::Pass, false)];
    assert_eq!(
        discovery_failure(&steps).as_deref(),
        Some("the study completed but reported no GATT table")
    );
    let steps = vec![step("discover", StepOutcome::Pass, true)];
    assert_eq!(discovery_failure(&steps), None);
}

#[test]
fn a_study_is_waited_for_until_it_ends_or_the_time_is_over() {
    let polled = |status: &str, has_result: bool, reason: Option<&str>| Polled {
        status: status.to_string(),
        has_result,
        reason: reason.map(|s| s.to_string()),
    };
    let said = |p: &Polled, late: bool| match poll_step(p, late, 30, "abc") {
        PollStep::Failed(e) => e,
        other => panic!("{other:?}"),
    };
    assert!(matches!(poll_step(&polled("completed", true, None), true, 30, "abc"), PollStep::Done));
    assert!(matches!(poll_step(&polled("running", false, None), false, 30, "abc"), PollStep::Wait));
    assert!(said(&polled("completed", false, None), false).contains("returned no result"));
    assert_eq!(said(&polled("failed", false, Some("why")), false), "why");
    assert_eq!(said(&polled("failed", false, None), false), "study failed with no reason given");
    assert_eq!(said(&polled("running", false, None), true), "timed out after 30s waiting for study abc");
}

// ---- references --------------------------------------------------------------

fn studies(files: &[(&str, &str)]) -> DirRead {
    DirRead::Entries(
        files
            .iter()
            .map(|(slug, text)| EntryRead::File {
                name: format!("{slug}.json"),
                text: Some(text.to_string()),
            })
            .collect(),
    )
}

fn scan(dir: &DirRead, kind: RefKind, target: &str) -> ReferenceScan {
    scan_references("/r/embarch/studies", dir, kind, target)
}

#[test]
fn a_registered_action_is_found_by_the_step_that_names_it() {
    let dir = studies(&[(
        "drain",
        r#"{
            "name": "Ten hour drain",
            "_embarch_ui_rows": [
                { "name": "connect", "action": { "kind": "built_in", "which": "ble_connect" } },
                { "name": "start-log", "action": { "kind": "registered", "name": "start_logging" } }
            ]
        }"#,
    )]);
    let found = scan(&dir, RefKind::Action, "start_logging");
    assert!(found.blocks());
    assert_eq!(found.referenced_by.len(), 1);
    assert_eq!(found.referenced_by[0].slug, "drain");
    assert_eq!(found.referenced_by[0].name, "Ten hour drain");
    assert_eq!(found.referenced_by[0].steps, vec!["start-log".to_string()]);

    // And an action nothing names is deletable.
    assert!(!scan(&dir, RefKind::Action, "stop_logging").blocks());
}

#[test]
fn a_layout_referenced_only_through_decoders_is_still_found() {
    let dir = studies(&[
        (
            "hand-written",
            r#"{
                "name": "hand written",
                "decoders": [{ "name": "ppg_packet", "header": [], "repeat": [] }]
            }"#,
        ),
        (
            "sidecar-only",
            r#"{
                "name": "sidecar only",
                "_embarch_ui_taps": [
                    { "kind": "gatt_notify", "name": "ppg", "decoder": "ppg_packet" }
                ]
            }"#,
        ),
    ]);
    let found = scan(&dir, RefKind::Layout, "ppg_packet");
    assert_eq!(found.referenced_by.len(), 2, "{found:?}");
    assert_eq!(found.referenced_by[0].slug, "hand-written");
    assert_eq!(
        found.referenced_by[0].steps,
        vec!["the study carries this layout".to_string()]
    );
    assert_eq!(found.referenced_by[1].steps, vec!["tap 'ppg'".to_string()]);
}

#[test]
fn a_protocol_is_found_through_the_row_and_through_the_carried_list() {
    let dir = studies(&[(
        "bds",
        r#"{
            "name": "BDS download",
            "protocols": [{ "name": "bds_batch_download" }],
            "_embarch_ui_rows": [
                {
                    "name": "handshake",
                    "action": {
                        "kind": "built_in",
                        "which": "run_protocol",
                        "protocol": "bds_batch_download",
                        "entry_state": "start"
                    }
                }
            ]
        }"#,
    )]);
    let found = scan(&dir, RefKind::Protocol, "bds_batch_download");
    assert_eq!(found.referenced_by.len(), 1);
    assert_eq!(
        found.referenced_by[0].steps,
        vec!["handshake".to_string(), "the study carries this protocol".to_string()]
    );
}

#[test]
fn an_unparseable_study_blocks_a_delete_rather_than_reading_as_no_references() {
    let dir = studies(&[("broken", "{ this is not json")]);
    let found = scan(&dir, RefKind::Action, "anything");
    assert!(found.referenced_by.is_empty());
    assert_eq!(found.unscannable, vec!["broken.json is not valid JSON".to_string()]);
    assert!(found.blocks(), "an unscannable file must refuse the delete");
}

#[test]
fn a_missing_studies_directory_is_an_empty_scan() {
    let found = scan(&DirRead::Missing, RefKind::Protocol, "bds");
    assert!(!found.blocks());
}

#[test]
fn what_cannot_be_scanned_is_said() {
    let failed = scan(&DirRead::Failed("denied".to_string()), RefKind::Action, "x");
    assert_eq!(failed.unscannable, ["/r/embarch/studies: denied"]);
    let dir = DirRead::Entries(vec![
        EntryRead::Unreadable,
        EntryRead::File { name: "a.json".to_string(), text: None },
        EntryRead::File { name: "a.txt".to_string(), text: None },
    ]);
    let found = scan(&dir, RefKind::Action, "x");
    assert_eq!(
        found.unscannable,
        ["/r/embarch/studies: an entry could not be read", "a.json could not be read"]
    );
    let merged = merge_scans(&vec![failed, found]);
    assert_eq!(merged.unscannable.len(), 3);
}

#[test]
fn the_refusal_body_names_the_studies_as_a_list() {
    let scan = ReferenceScan {
        referenced_by: vec![StudyReference {
            slug: "drain".to_string(),
            name: "Ten hour drain".to_string(),
            steps: vec!["start-log".to_string()],
        }],
        unscannable: Vec::new(),
    };
    assert_eq!(
        refusal("registered action", "x", &scan),
        "registered action 'x' is still used by 1 saved study"
    );
    assert_eq!(scan.referenced_by[0].slug, "drain");
    assert_eq!(scan.referenced_by[0].name, "Ten hour drain");
    assert_eq!(scan.referenced_by[0].steps[0], "start-log");
}

// ---- the registries ----------------------------------------------------------

fn entries(list: &[&str]) -> Vec<Entry> {
    list.iter().map(|n| Entry { name: n.to_string(), record: format!("old {n}") }).collect()
}

fn nothing_uses_it() -> ReferenceScan {
    ReferenceScan { referenced_by: Vec::new(), unscannable: Vec::new() }
}

fn one_uses_it() -> ReferenceScan {
    scan(&studies(&[("broken", "{")]), RefKind::Action, "x")
}

#[test]
fn a_registration_replaces_its_own_name_and_gives_up_the_old_one() {
    let new = |name: &str| Entry { name: name.to_string(), record: "new".to_string() };
    let shown = |list: &[Entry]| -> Vec<String> { list.iter().map(|e| e.name.clone()).collect() };
    let list = register(entries(&["a", "b"]), RefKind::Action, &None, new("a"), &one_uses_it()).unwrap();
    assert_eq!(shown(&list), ["b", "a"]);
    assert_eq!(list[1].record, "new");
    let list =
        register(entries(&["a", "b", "c"]), RefKind::Action, &text(" a "), new("c"), &nothing_uses_it())
            .unwrap();
    assert_eq!(shown(&list), ["b", "c"]);
    match register(entries(&["a"]), RefKind::Layout, &text("a"), new("z"), &one_uses_it()) {
        Err(RegistryError::Used(e)) => {
            assert_eq!(e, "payload layout 'a' is still used by 0 saved studies")
        }
        other => panic!("{other:?}"),
    }
}

#[test]
fn only_an_entry_that_is_there_and_unused_is_deleted() {
    match delete(entries(&["a"]), RefKind::Action, "b", &nothing_uses_it()) {
        Err(RegistryError::Unknown(e)) => assert_eq!(e, "no registered action named 'b'"),
        other => panic!("{other:?}"),
    }
    match delete(entries(&["a"]), RefKind::Layout, "b", &nothing_uses_it()) {
        Err(RegistryError::Unknown(e)) => assert_eq!(e, "no payload layout named 'b'"),
        other => panic!("{other:?}"),
    }
    assert!(matches!(
        delete(entries(&["a"]), RefKind::Action, "a", &one_uses_it()),
        Err(RegistryError::Used(_))
    ));
    assert!(delete(entries(&["a"]), RefKind::Action, "a", &nothing_uses_it()).unwrap().is_empty());
}

// ---- protocol files ----------------------------------------------------------

const ONE_PROTOCOL: &str =
    "protocol bds {\n    state start {\n        on_timeout 1000ms: goto done\n    }\n\n    state done outcome: pass\n}\n";

fn good_file(stem: &str) -> ProtocolFile {
    ProtocolFile {
        stem: stem.to_string(),
        text: ONE_PROTOCOL.to_string(),
        parsed: true,
        blocks: vec![ProtocolBlock {
            name: "bds".to_string(),
            states: Some(protocol(&[("start", false), ("done", true)]).states),
        }],
        errors: Vec::new(),
    }
}

fn bad_file(stem: &str, text: &str) -> ProtocolFile {
    ProtocolFile {
        stem: stem.to_string(),
        text: text.to_string(),
        parsed: false,
        blocks: Vec::new(),
        errors: vec![FileError { message: "line 3: unexpected end".to_string(), line: Some(3) }],
    }
}

#[test]
fn the_protocols_listing_reports_a_bad_file_beside_the_good_ones() {
    let files = vec![good_file("bds"), bad_file("broken", "protocol oops {\n  state go {\n")];
    let out = protocols_response(&files, Vec::new());

    assert_eq!(out.files.len(), 2);
    let bds = out.files.iter().find(|f| f.stem == "bds").unwrap();
    assert_eq!(bds.protocols.len(), 1);
    assert!(bds.errors.is_empty());
    assert_eq!(bds.protocols[0].name, "bds");
    assert_eq!(bds.protocols[0].file, "bds");
    assert_eq!(bds.protocols[0].states[0].name, "start");
    assert!(!bds.protocols[0].states[0].terminal);
    assert!(bds.protocols[0].states[1].terminal);
    assert_eq!(bds.protocols[0].states[1].outcome, Some("pass"));

    let broken = out.files.iter().find(|f| f.stem == "broken").unwrap();
    assert!(broken.protocols.is_empty(), "the file did not parse, so it offers nothing");
    assert_eq!(broken.errors.len(), 1, "one parse error, never a list");
    assert!(broken.errors[0].line > 0, "the editor bands this line");
    assert!(broken.errors[0].message.starts_with("line "), "{:?}", broken.errors[0]);
    assert!(out.duplicate_names.is_empty());

    assert_eq!(bds.text, ONE_PROTOCOL);
    assert_eq!(broken.text, "protocol oops {\n  state go {\n");
}

#[test]
fn an_unresolved_block_is_listed_and_an_unparsed_file_is_named() {
    // A block with a `goto` nothing declares: it parses, it does not
    // resolve.
    let mut unresolved = good_file("broken");
    unresolved.blocks = vec![ProtocolBlock { name: "broken".to_string(), states: None }];
    let files = vec![good_file("ok"), unresolved, bad_file("garbage", "protocol x {\n")];

    let summaries = protocol_summaries(&files);
    let broken = summaries
        .iter()
        .find(|p| p.name == "broken")
        .expect("an unresolved block is listed, not omitted");
    assert!(!broken.resolved);
    assert_eq!(broken.states.len(), 0);
    assert_eq!(broken.file, "broken");

    let ok = summaries.iter().find(|p| p.name == "bds").unwrap();
    assert!(ok.resolved);

    // A file that did not parse declares nothing nameable, so it is
    // reported by stem instead.
    assert_eq!(unparsed_files(&files), vec!["garbage".to_string()]);
}

#[test]
fn a_name_declared_by_two_files_is_reported_repo_wide() {
    let twice = vec![DuplicateName { name: "bds".to_string(), files: names(&["a", "b"]) }];
    let out = protocols_response(&vec![good_file("a"), good_file("b")], twice);
    assert_eq!(out.duplicate_names.len(), 1);
    assert_eq!(out.duplicate_names[0].name, "bds");
    assert_eq!(out.duplicate_names[0].files, vec!["a".to_string(), "b".to_string()]);
}

#[test]
fn a_file_is_deleted_by_every_name_a_study_may_use() {
    let files = vec![good_file("a"), bad_file("garbage", "")];
    assert_eq!(find_file(&files, "garbage").unwrap(), 1);
    assert_eq!(find_file(&files, "x").unwrap_err(), "no protocol file 'x.eap'");
    assert_eq!(deletion_names(&files[0], "a"), ["bds"]);
    assert_eq!(deletion_names(&files[1], "garbage"), ["garbage"]);
    // A block that did not resolve is one a study may still name.
    let mut unresolved = good_file("b");
    unresolved.blocks.push(ProtocolBlock { name: "broken".to_string(), states: None });
    assert_eq!(deletion_names(&unresolved, "b"), ["bds", "broken"]);
}

#[test]
fn a_check_is_in_order_where_nothing_is_wrong() {
    let resolved = || CheckedBlock::Resolved {
        name: "bds".to_string(),
        states: protocol(&[("go", false), ("done", true)]).states,
    };
    let out = check_protocol(&CheckedText::Blocks(vec![resolved()]));
    assert!(out.ok);
    assert_eq!(out.protocols[0].file, "");
    let failed = CheckedBlock::Failed { message: "line 2: no".to_string(), line: 2 };
    let out = check_protocol(&CheckedText::Blocks(vec![resolved(), failed]));
    assert!(!out.ok);
    assert_eq!((out.protocols.len(), out.errors[0].line), (1, 2));
    let out = check_protocol(&CheckedText::Unreadable { message: "line 1: no".to_string(), line: 1 });
    assert!(!out.ok && out.protocols.is_empty());
}

// ---- running -----------------------------------------------------------------

fn flashed(version: &str) -> FlashedFirmware {
    FlashedFirmware {
        version: version.to_string(),
        artifact_path: "a.hex".to_string(),
        descriptor: "d".to_string(),
        log_id: "l".to_string(),
    }
}

#[test]
fn a_run_with_no_build_is_posted_at_once() {
    assert_eq!(entry(false, false), RunEntry::Post);
    assert_eq!(entry(true, false), RunEntry::NoProject);
    assert_eq!(entry(true, true), RunEntry::Build);
    assert!(!StudyRunRequest::default().allow_version_mismatch);
    let posted = run_options(true, &Next::Stop);
    assert!(posted.allow_version_mismatch && posted.flashed_firmware_version.is_none());
}

#[test]
fn a_waved_through_run_pins_the_study_to_what_was_flashed() {
    let (mut run, first) = SubmitRun::start("old", true, true);
    assert!(matches!(first.frames[0], BuildFrame::Phase { phase: "build" }));
    let turn = run.on_flashed(Ok(flashed("new")));
    assert!(matches!(turn.next, Next::Rewrite));
    let turn = run.on_rewritten(Ok(true), 48);
    assert_eq!(run.firmware_version, "new");
    match &turn.frames[0] {
        BuildFrame::Line { text, .. } => assert_eq!(
            text,
            "this study required 'old' and now requires 'new' — the saved file was updated to what was just flashed"
        ),
        other => panic!("{other:?}"),
    }
    assert!(matches!(turn.frames[1], BuildFrame::Phase { phase: "submit" }));
    assert_eq!(run_options(true, &turn.next).flashed_firmware_version.as_deref(), Some("new"));
    let turn = run.on_posted(Ok("abc".to_string()));
    assert!(matches!(&turn.frames[0], BuildFrame::Started { study_id } if study_id == "abc"));
    assert!(matches!(turn.next, Next::Watch { .. }));
}

#[test]
fn a_study_that_says_any_is_never_pinned() {
    for (required, allow, saved) in
        [("any", true, true), ("new", true, true), ("old", false, true), ("old", true, false)]
    {
        let (mut run, _) = SubmitRun::start(required, allow, saved);
        let turn = run.on_flashed(Ok(flashed("new")));
        assert!(matches!(turn.next, Next::Post { .. }), "{required} {allow} {saved}");
        assert_eq!(run.firmware_version, required);
    }
}

#[test]
fn a_run_that_fails_says_in_which_phase() {
    let (mut run, _) = SubmitRun::start("old", true, true);
    let turn = run.on_flashed(Err("no west".to_string()));
    assert!(matches!(turn.next, Next::Stop));
    assert!(matches!(&turn.frames[0], BuildFrame::Failed { phase: "build", error } if error == "no west"));
    let (mut run, _) = SubmitRun::start("old", true, true);
    run.on_flashed(Ok(flashed("new")));
    let turn = run.on_rewritten(Err("denied".to_string()), 48);
    assert_eq!(run.firmware_version, "old");
    match &turn.frames[0] {
        BuildFrame::Line { text, .. } => {
            assert_eq!(text, "the saved study's firmware_version was not updated: denied")
        }
        other => panic!("{other:?}"),
    }
    let turn = run.on_posted(Err("refused".to_string()));
    assert!(matches!(&turn.frames[0], BuildFrame::Failed { phase: "submit", error } if error == "refused"));
}

#[test]
fn a_file_that_cannot_run_is_named() {
    assert!(unrunnable("a", "missing field").starts_with("'a.json' is not a Study this build can run: missing field. "));
    assert_eq!(in_file("a", "why"), "'a.json': why");
}

// ---- transcripts -------------------------------------------------------------

#[test]
fn a_transcript_is_found_by_its_encoding() {
    let stream = |name: &str, encoding: StreamEncoding| StreamEntry {
        id: 0,
        name: name.to_string(),
        encoding,
        rendered: true,
        note: None,
        named: true,
        timed: true,
        self_excluded: false,
    };
    let list = vec![stream("rail", StreamEncoding::Samples), stream("g", StreamEncoding::GattTranscript)];
    assert_eq!(transcript_stream("abc", &Some(list)).unwrap(), "g");
    assert_eq!(
        transcript_stream("abc", &Some(Vec::new())).unwrap_err(),
        "study 'abc' declared no GATT transcript tap"
    );
    assert_eq!(transcript_stream("abc", &None).unwrap_err(), "study 'abc' recorded no streams");
    assert_eq!(transcript_file("abc"), "gatt-abc.csv");
}

#[test]
fn a_document_that_passes_for_an_embedded_one_is_read_as_that() {
    let mut rows = serde_json::Map::new();
    rows.insert(EMBEDDED_KEY.to_string(), json(r#""[1]""#));
    let written =
        saved_text(json("{}"), serde_json::Value::Object(rows), json("[]")).unwrap();
    let value = read_saved_study("s", "/s/s.json", &FileRead::Text(written)).unwrap();
    assert_eq!(value.get("_embarch_ui_rows"), Some(&json("[1]")));
    assert_eq!(value.get("_embarch_ui_taps"), Some(&json("[]")));
}
