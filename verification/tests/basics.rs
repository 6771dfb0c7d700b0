use embarch_ui::assets::{asset_etag, font, unchanged, Font};
use embarch_ui::config::bind_address;
use embarch_ui::path::{join_path, stem_with};
use embarch_ui::roster::Roster;
use embarch_ui::shelf::Shelf;
use embarch_ui::snapshot::{DevBenchPort, Poll, Snapshot};
use embarch_ui::sorting::sorted_order;
use embarch_ui::streams::{StreamEncoding, StreamEntry};
use embarch_ui::studies_api::study::{Part, StepEntry, StudySteps};
use embarch_ui::text::{
    comes_before, cut_text, dec, first_chars, hex_of, parse_u64, space, split, trim, width_of,
};
use embarch_ui::trace::{
    bins_window, drawable, step_stamps, trace_taps, TraceBinsQuery, TraceRefusal,
};

#[test]
fn a_space_is_what_unicode_calls_white_space() {
    for n in 0..=0x10_ffffu32 {
        if let Some(c) = char::from_u32(n) {
            assert_eq!(space(c), c.is_whitespace(), "{n:x}");
            assert_eq!(width_of(c), c.len_utf8(), "{n:x}");
        }
    }
    for s in ["", "  ", " a b ", "\u{a0}x\u{2003}", "x", "\n\tq\r\n"] {
        assert_eq!(trim(s), s.trim());
    }
}

#[test]
fn numbers_are_written_and_read_as_std_does() {
    for n in [0u64, 1, 9, 10, 12_345, u64::MAX, u64::MAX - 1] {
        assert_eq!(dec(n), n.to_string());
        assert_eq!(hex_of(n, 16), format!("{n:016x}"));
        assert_eq!(parse_u64(&dec(n)), Some(n));
    }
    for s in ["", "+", "+5", "-5", "05", " 5", "5 ", "18446744073709551615", "18446744073709551616", "1_0", "٥"] {
        assert_eq!(parse_u64(s), s.parse::<u64>().ok(), "{s:?}");
    }
}

#[test]
fn texts_are_split_cut_and_ordered_as_std_does() {
    for s in ["", ",", "a", "a,b", ",a,,b,", "é,ü"] {
        let expected: Vec<&str> = s.split(',').collect();
        assert_eq!(split(s, ','), expected);
    }
    assert_eq!(first_chars("héllo", 2), "hé");
    let (kept, bytes, was_cut) = cut_text("aéb", 2);
    assert_eq!((kept.as_str(), bytes, was_cut), ("a", 1, true));
    let words = ["", "a", "B", "ab", "é", "z", "\u{10000}", "\u{ffff}", "aé"];
    for a in words {
        for b in words {
            assert_eq!(comes_before(a, b), a < b, "{a:?} {b:?}");
        }
    }
}

#[test]
fn an_order_is_stable() {
    assert_eq!(sorted_order(&vec![3u64, 1, 2, 1]), [1, 3, 2, 0]);
    let words: Vec<String> = ["b", "a", "b", "a"].iter().map(|s| s.to_string()).collect();
    assert_eq!(sorted_order(&words), [1, 3, 0, 2]);
}

#[test]
fn a_path_is_joined_and_its_stem_taken_as_std_does() {
    for (base, name) in [("/r", "embarch"), ("/r/", "x"), ("", "x"), ("a", "b/c")] {
        let expected = std::path::Path::new(base).join(name);
        assert_eq!(join_path(base, name), expected.to_str().unwrap(), "{base:?} {name:?}");
    }
    for name in ["a.json", ".json", "a.b.json", "a.JSON", "json", "a.json.bak", "a."] {
        let path = std::path::Path::new(name);
        let expected = match path.extension().and_then(|e| e.to_str()) {
            Some("json") => path.file_stem().and_then(|s| s.to_str()).map(|s| s.to_string()),
            _ => None,
        };
        assert_eq!(stem_with(name, "json"), expected, "{name:?}");
    }
}

#[test]
fn a_shelf_keeps_its_names_in_order() {
    let mut shelf: Shelf<u64> = Shelf::new();
    for (i, key) in ["m", "a", "z", "a"].iter().enumerate() {
        shelf.put(key, i as u64);
    }
    let keys: Vec<&str> = shelf.entries.iter().map(|e| e.key.as_str()).collect();
    assert_eq!(keys, ["a", "m", "z"]);
    assert_eq!(shelf.get("a"), Some(&3));
    assert_eq!(shelf.get("b"), None);
    assert_eq!(shelf.ensure("m", 9), 1);
    assert_eq!(shelf.get("m"), Some(&0));
}

#[test]
fn a_going_run_is_never_let_go() {
    let mut runs = Roster::new();
    runs.start("a", 2);
    runs.start("b", 2);
    runs.start("c", 2);
    assert!(runs.find("a").is_some());
    runs.finish("b");
    runs.start("d", 2);
    assert!(runs.find("b").is_none());
    assert!(runs.find("a").is_some());
}

#[test]
fn a_page_is_tagged_by_its_bytes() {
    assert_eq!(asset_etag(b""), "\"cbf29ce484222325\"");
    assert_eq!(asset_etag(b"a"), "\"af63dc4c8601ec8c\"");
    assert_eq!(asset_etag(b"foobar"), "\"85944171f73967e8\"");
    let tag = asset_etag(b"foobar");
    assert!(unchanged(&Some(tag.clone()), &tag));
    assert!(unchanged(&Some(format!("\"x\", {tag} ,\"y\"")), &tag));
    assert!(!unchanged(&Some("\"x\"".to_string()), &tag));
    assert!(!unchanged(&None, &tag));
}

#[test]
fn a_font_that_is_not_there_is_not_made_up() {
    assert_eq!(font("ibm-plex-mono-600-latin.woff2"), Some(Font::Mono600));
    assert_eq!(font("ibm-plex-mono-400-latin.woff2"), Some(Font::Mono400));
    assert_eq!(font("ibm-plex-sans-var-latin.woff2"), Some(Font::SansVariable));
    assert_eq!(font("../app.js"), None);
}

#[test]
fn an_address_that_cannot_be_read_falls_back() {
    let some = |s: &str| Some(s.to_string());
    assert_eq!(bind_address(&None, &None), "127.0.0.1:4890");
    assert_eq!(bind_address(&some("0.0.0.0"), &some("80")), "0.0.0.0:80");
    assert_eq!(bind_address(&None, &some("65535")), "127.0.0.1:65535");
    assert_eq!(bind_address(&None, &some("65536")), "127.0.0.1:4890");
    assert_eq!(bind_address(&None, &some("http")), "127.0.0.1:4890");
}

fn poll() -> Poll {
    Poll {
        status: Ok(Vec::new()),
        enrolled: Ok(Vec::new()),
        alerts: Ok(vec!["{}".to_string()]),
        dev_bench_port: Ok(Some(DevBenchPort {
            port_name: "ttyACM0".to_string(),
            detected_by: "serial".to_string(),
            guessed_among: None,
        })),
        signals: Err("no signals".to_string()),
        serial_ports: Ok(Vec::new()),
    }
}

#[test]
fn a_picture_says_which_part_could_not_be_read() {
    let s = Snapshot::from_poll(poll());
    assert!(s.core_reachable);
    assert_eq!(s.signals_error.as_deref(), Some("no signals"));
    assert_eq!(s.serial_ports_error, None);
    assert_eq!(s.alerts.len(), 1);
    assert!(s.dev_bench_port.is_some());
    let s = Snapshot::from_poll(Poll { status: Err("down".to_string()), ..poll() });
    assert!(!s.core_reachable);
    assert_eq!(s.error.as_deref(), Some("down"));
    assert_eq!(s.signals_error, None);
    assert!(!Snapshot::pending().core_reachable);
}

fn stream(name: &str, rendered: bool, note: Option<&str>) -> StreamEntry {
    StreamEntry {
        id: 0,
        name: name.to_string(),
        encoding: StreamEncoding::OutpostTrace,
        rendered,
        note: note.map(|s| s.to_string()),
        named: false,
        timed: true,
        self_excluded: true,
    }
}

#[test]
fn a_trace_is_drawn_only_where_it_was_decoded() {
    let index = Part::Found(vec![
        stream("a", true, None),
        stream("b", false, Some("no dictionary")),
        stream("c", false, None),
    ]);
    assert_eq!(drawable("s", "a", &index).unwrap(), 0);
    match drawable("s", "b", &index) {
        Err(TraceRefusal::NotRendered(e)) => assert_eq!(
            e,
            "tap 'b' has no decoded rendering, so there is no timeline to draw. no dictionary"
        ),
        other => panic!("{other:?}"),
    }
    match drawable("s", "c", &index) {
        Err(TraceRefusal::NotRendered(e)) => assert!(e.ends_with("Core recorded no reason."), "{e}"),
        other => panic!("{other:?}"),
    }
    match drawable("s", "x", &index) {
        Err(TraceRefusal::Missing(e)) => {
            assert_eq!(e, "study 's' declared no tap named 'x' — it declared: a, b, c")
        }
        other => panic!("{other:?}"),
    }
    match drawable("s", "x", &Part::Found(Vec::new())) {
        Err(TraceRefusal::Missing(e)) => assert!(e.ends_with("it declared: (none)"), "{e}"),
        other => panic!("{other:?}"),
    }
    assert!(matches!(drawable("s", "x", &Part::Missing), Err(TraceRefusal::Missing(_))));
    assert!(matches!(
        drawable("s", "x", &Part::Failed("down".to_string())),
        Err(TraceRefusal::Unreachable(_))
    ));
    let taps = trace_taps(&vec![stream("a", true, None)]);
    assert!(taps[0].is_outpost_trace && taps[0].self_excluded && !taps[0].named);
}

#[test]
fn a_study_without_times_has_no_steps_to_place() {
    let step = |index: u32, ended: Option<u64>| StepEntry {
        index,
        step_name: format!("s{index}"),
        outcome: "Pass".to_string(),
        reason: None,
        delay_before_ms: None,
        started_utc_ms: Some(10),
        ended_utc_ms: ended,
    };
    let study = |timed: bool| {
        Part::Found(StudySteps {
            study_name: "n".to_string(),
            timed,
            steps: vec![step(0, Some(20)), step(1, None), step(2, Some(30))],
        })
    };
    let stamps = step_stamps(&study(true));
    let shown: Vec<(u32, u64, u64)> =
        stamps.iter().map(|s| (s.index, s.started_utc_ms, s.ended_utc_ms)).collect();
    assert_eq!(shown, [(0, 10, 20), (2, 10, 30)]);
    assert!(step_stamps(&study(false)).is_empty());
    assert!(step_stamps(&Part::Missing).is_empty());
    assert!(step_stamps(&Part::Failed("down".to_string())).is_empty());
}

#[test]
fn a_trace_query_that_says_nothing_asks_for_all_of_it() {
    let q = TraceBinsQuery { from: None, to: None, width: None };
    assert_eq!(bins_window(&q, 5, 90), (5, 90, 1));
    let q = TraceBinsQuery { from: Some(7), to: Some(8), width: Some(3) };
    assert_eq!(bins_window(&q, 5, 90), (7, 8, 3));
}
