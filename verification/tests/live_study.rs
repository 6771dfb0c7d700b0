use embarch_ui::live_study::axis::{AxisView, LiveAxis, TraceFrame};
use embarch_ui::live_study::console::{Console, Past, MAX_CONSOLE_LINES, MAX_CONSOLE_LINE_BYTES};
use embarch_ui::live_study::follow::{
    wants_record, watch, FollowOutcome, LiveEventsQuery, LiveStudies, RecordRead, StudyRecord,
    Watch,
};
use embarch_ui::live_study::lane::{LiveLane, LiveMark};
use embarch_ui::live_study::series::{Series, MAX_SERIES_POINTS};
use embarch_ui::live_study::session::{
    FollowItem, FollowMode, Frame, GattEntry, LiveSample, Reply, SessionState, StepOutcome,
    StepResult, StudyEvent, MAX_FEED_EVENTS,
};
use embarch_ui::projection::{ClockAnchor, Projection, Ties};
use embarch_ui::time_chart::view::{StepBand, StepBands};

#[test]
fn a_chunk_that_ends_mid_line_is_held_as_partial_and_never_padded() {
    let mut console = Console::new();
    let mut seq = 0;

    let done = console.push_chunk(&mut seq, 0, 10, "uart:~$ hal");
    assert!(done.is_empty(), "no newline arrived, so no line completed");
    assert_eq!(console.partial, "uart:~$ hal");
    assert_eq!(console.total, 0);

    let done = console.push_chunk(&mut seq, 0, 11, "f a line\nand the start of");
    assert_eq!(done.len(), 1);
    assert_eq!(done[0].text, "uart:~$ half a line");
    // The line carries the stamp of the chunk it *started* in, not the
    // one that finished it.
    assert_eq!(done[0].rx_utc_ms, 10);
    assert_eq!(console.partial, "and the start of");
}

#[test]
fn a_crlf_console_does_not_leave_a_carriage_return_on_every_line() {
    let mut console = Console::new();
    let mut seq = 0;
    let done = console.push_chunk(&mut seq, 0, 1, "one\r\ntwo\r\n");
    assert_eq!(done.len(), 2);
    assert_eq!(done[0].text, "one");
    assert_eq!(done[1].text, "two");
}

#[test]
fn a_console_over_its_cap_drops_the_oldest_and_counts_what_it_dropped() {
    let mut console = Console::new();
    let mut seq = 0;
    for i in 0..(MAX_CONSOLE_LINES + 10) {
        console.push_chunk(&mut seq, 0, i as u64, &format!("line {i}\n"));
    }
    assert_eq!(console.lines.len(), MAX_CONSOLE_LINES);
    assert_eq!(console.dropped, 10);
    assert_eq!(console.total, MAX_CONSOLE_LINES as u64 + 10);
    assert_eq!(console.lines.front().unwrap().text, "line 10");
}

#[test]
fn one_enormous_line_is_cut_and_says_it_was_cut() {
    let mut console = Console::new();
    let mut seq = 0;
    let huge = "x".repeat(MAX_CONSOLE_LINE_BYTES * 2);
    let done = console.push_chunk(&mut seq, 0, 1, &format!("{huge}\n"));
    assert_eq!(done.len(), 1);
    assert!(done[0].truncated, "a cut line that read as whole would be a lie");
    assert_eq!(done[0].text.len(), MAX_CONSOLE_LINE_BYTES);
}

#[test]
fn a_series_past_its_cap_decimates_rather_than_dropping_the_oldest() {
    let mut series = Series::new();
    for i in 0..(MAX_SERIES_POINTS + 1) {
        series.push(i as u64, (i as f64).to_bits(), Some("Milliamps"));
    }
    assert!(series.points.len() <= MAX_SERIES_POINTS);
    assert_eq!(series.stride, 2);
    // The first sample survives — that is the whole difference from
    // dropping the oldest.
    assert_eq!(series.points[0].rx_utc_ms, 0);
    assert_eq!(f64::from_bits(series.points[0].value_bits), 0.0);
    assert_eq!(series.total, MAX_SERIES_POINTS as u64 + 1);
}

#[test]
fn a_decimated_series_keeps_sampling_at_its_stride() {
    let mut series = Series { stride: 4, ..Series::new() };
    assert!(!series.push(1, 1.0f64.to_bits(), None));
    assert!(!series.push(2, 2.0f64.to_bits(), None));
    assert!(!series.push(3, 3.0f64.to_bits(), None));
    assert!(series.push(4, 4.0f64.to_bits(), None), "one in four is kept");
    assert_eq!(series.points.len(), 1);
    assert_eq!(series.total, 4);
}

#[test]
fn the_feed_ring_counts_its_drops() {
    let mut state = SessionState::new();
    for i in 0..(MAX_FEED_EVENTS + 5) {
        state.push_feed("step", format!("row {i}"));
    }
    assert_eq!(state.feed.len(), MAX_FEED_EVENTS);
    assert_eq!(state.feed_dropped, 5);
    assert_eq!(state.feed_total, MAX_FEED_EVENTS as u64 + 5);
}

#[test]
fn a_snapshot_carries_the_whole_run_so_far() {
    // The one frame that makes opening the tab mid-run work.
    let mut state = SessionState::new();
    state.status = "running".to_string();
    state.push_feed("step", "step 1: connect".to_string());
    let mut seq = state.seq;
    let at = state.consoles.ensure("dev-bench", Console::new());
    state.consoles.entries[at].item.push_chunk(&mut seq, 0, 1, "booted\npartial");
    state.seq = seq;
    let at = state.series.ensure("rail", Series::new());
    state.series.entries[at].item.push(1, 1.5f64.to_bits(), Some("Milliamps"));

    let proj = state.axis.projection();
    let snapshot = state.snapshot("abc", &proj, None);
    assert_eq!(snapshot.kind, "snapshot");
    assert_eq!(snapshot.study_id, "abc");
    assert_eq!(snapshot.status.status, "running");
    assert_eq!(snapshot.feed.len(), 1);
    let console = &snapshot.consoles[0];
    assert_eq!(console.tap, "dev-bench");
    assert_eq!(console.lines[0].text, "booted");
    assert_eq!(console.partial, "partial", "the remainder is published as partial");
    assert_eq!(f64::from_bits(snapshot.series[0].points[0].value_bits), 1.5);
}

#[test]
fn lagged_is_carried_into_the_status_rather_than_swallowed() {
    let mut session = SessionState::new();
    match session.ingest(&FollowItem::Lagged { missed: 12 }) {
        Reply::Send(Frame::Status { status, row, feed }) => {
            assert_eq!(status.lagged, 12);
            assert_eq!(row.kind, "lagged");
            assert_eq!((feed.dropped, feed.total), (0, 1));
        }
        other => panic!("{other:?}"),
    }

    // And it accumulates: two lagged frames are 12 + 3 missed, not 3.
    session.ingest(&FollowItem::Lagged { missed: 3 });
    assert_eq!(session.lagged, 15);
}

#[test]
fn a_transport_change_is_recorded_so_the_tab_can_say_which_mode_is_in_force() {
    let mut session = SessionState::new();
    session.ingest(&FollowItem::Transport {
        mode: FollowMode::Polling,
        detail: "the event stream would not open; polling instead".to_string(),
    });
    assert_eq!(session.mode, "polling");
    assert!(session.mode_detail.as_deref().unwrap().contains("polling instead"));
}

/// One pushed frame whose rows carry these microsecond stamps; an empty one is a row
/// that arrived before the capture's header.
fn frame(header_seen: bool, rx_utc_ms: u64, us: &[&str]) -> TraceFrame {
    TraceFrame {
        tap: "outpost".to_string(),
        header_seen,
        rows: us.len(),
        unparsed: 0,
        anchor: us.iter().find_map(|u| u.parse().ok()).map(|us| ClockAnchor { rx_utc_ms, us }),
        stale: 0,
    }
}

#[test]
fn a_non_monotone_anchor_is_rejected_and_counted() {
    let mut axis = LiveAxis::new();
    axis.ingest(&frame(true, 1_000, &["10000"]));
    axis.ingest(&frame(true, 1_010, &["20000"]));
    assert_eq!(axis.anchors.len(), 2);

    // The wall clock steps back 40 ms between two frames.
    axis.ingest(&frame(true, 970, &["30000"]));
    assert_eq!(axis.anchors.len(), 2, "a backwards arrival must not be inserted");
    assert_eq!(axis.non_monotone, 1, "and it must be counted, not swallowed");

    // A later, forward one still lands.
    axis.ingest(&frame(true, 1_020, &["30000"]));
    assert_eq!(axis.anchors.len(), 3);
}

#[test]
fn the_axis_waits_for_the_trace_rather_than_being_invented() {
    let mut axis = LiveAxis::new();
    assert!(!axis.projection().placeable());

    // A frame before the header: the rows carry a cycle count and no rate
    // to divide it by, so `us` is empty and nothing anchors.
    axis.ingest(&frame(false, 1_000, &["", ""]));
    assert!(!axis.projection().placeable());
    match axis.describe(&axis.projection()) {
        AxisView::Waiting { note, rows, .. } => {
            assert!(note.contains("header frame has not"));
            assert_eq!(rows, 2);
        }
        other => panic!("{other:?}"),
    }

    // One stamped frame still is not a tie between two clocks.
    axis.ingest(&frame(true, 1_010, &["10000"]));
    assert!(!axis.projection().placeable());

    // Two is.
    axis.ingest(&frame(true, 1_020, &["20000"]));
    let proj = axis.projection();
    assert!(proj.placeable() && proj.projected());
    assert_eq!(proj.place(1_015), Some(15_000));
}

#[test]
fn the_header_arriving_bumps_the_epoch_rather_than_promoting_silently() {
    let mut axis = LiveAxis::new();
    assert!(!axis.ingest(&frame(false, 1_000, &[""])));
    assert_eq!(axis.epoch, 0);
    assert!(axis.ingest(&frame(true, 1_010, &["10000"])));
    assert_eq!(axis.epoch, 1, "the tier improved, so the epoch moved with it");
    // And it moves once, not on every frame after it.
    assert!(!axis.ingest(&frame(true, 1_020, &["20000"])));
    assert_eq!(axis.epoch, 1);
}

#[test]
fn a_mark_past_the_leading_edge_is_pending_and_is_placed_when_the_axis_reaches_it() {
    let mut axis = LiveAxis::new();
    axis.ingest(&frame(true, 1_000, &["10000"]));
    axis.ingest(&frame(true, 1_010, &["20000"]));

    let mut lane = LiveLane { label: "gatt".to_string(), kind: "gatt", ..LiveLane::new() };
    for ms in [1_005u64, 1_009, 1_040] {
        lane.push(LiveMark { core_rx_utc_ms: ms, sub: String::new(), label: String::new() });
    }

    let (placed, pending) = lane.take_placeable(&axis.projection(), true);
    assert_eq!(placed.len(), 2, "two marks are inside the axis so far");
    assert_eq!(pending, 1, "the third is past its leading edge and is counted, not drawn");
    // Halfway between the two anchors in the host clock, so halfway
    // between their DUT stamps — the projection interpolates, it does not
    // re-origin.
    assert_eq!(placed[0].t, 15_000);
    assert!(placed[0].uncertain);

    // The axis grows past it, and only then is it placed — once.
    axis.ingest(&frame(true, 1_050, &["60000"]));
    let (placed, pending) = lane.take_placeable(&axis.projection(), true);
    assert_eq!(placed.len(), 1, "exactly the one that was pending");
    assert_eq!(pending, 0);
    // And a mark already sent is never re-sent, which is what stops a
    // reader watching a mark move.
    assert_eq!(lane.take_placeable(&axis.projection(), true).0.len(), 0);
}

fn text_event(text: &str) -> FollowItem {
    FollowItem::Event(StudyEvent::StreamText {
        stream_name: "dev-bench".to_string(),
        step_index: 0,
        rx_utc_ms: 5,
        core_rx_utc_ms: Some(1_700_000_000_005),
        text: text.to_string(),
    })
}

#[test]
fn a_live_console_line_becomes_a_mark_on_the_lane_the_reload_will_use() {
    let mut session = SessionState::new();
    session.ingest(&text_event("booted\nready\n"));
    let lane = session.lanes.get("console:dev-bench").expect("the console lane exists");
    assert_eq!(lane.total, 2, "one mark per completed line");
    assert_eq!(lane.kind, "console");
    // Unplaced, deliberately: there is no axis yet, and the mark holds the
    // one thing that will place it later.
    assert_eq!(lane.marks[0].core_rx_utc_ms, 1_700_000_000_005);
}

#[test]
fn a_text_event_produces_a_console_frame_and_no_feed_row() {
    // One feed row per console chunk would bury every step completion,
    // and a chatty dev-bench is present in every study.
    let mut session = SessionState::new();
    match session.ingest(&text_event("hello\n")) {
        Reply::Send(Frame::Console { lines, .. }) => assert_eq!(lines[0].text, "hello"),
        other => panic!("{other:?}"),
    }
    assert_eq!(session.feed.len(), 0);
}

#[test]
fn chunking_changes_no_line() {
    let text = "one\ntwo\r\nthree\n\nfour";
    let lines = |cuts: &[usize]| {
        let mut console = Console::new();
        let mut seq = 0;
        let mut from = 0;
        for to in cuts.iter().copied().chain([text.len()]) {
            console.push_chunk(&mut seq, 0, 0, &text[from..to]);
            from = to;
        }
        let whole: Vec<String> = console.lines.iter().map(|l| l.text.clone()).collect();
        (whole, console.partial.clone(), console.total)
    };
    let whole = lines(&[]);
    assert_eq!(whole.0, ["one", "two", "three", ""]);
    for a in 0..text.len() {
        assert_eq!(lines(&[a]), whole, "cut at {a}");
    }
    assert_eq!(lines(&[3, 4, 8, 9]), whole);
}

#[test]
fn text_without_a_newline_does_not_make_a_console_grow() {
    let mut console = Console::new();
    let mut seq = 0;
    let chunk = "x".repeat(1_000);
    for _ in 0..1_049 {
        console.push_chunk(&mut seq, 0, 1, &chunk);
        assert!(console.partial.len() <= MAX_CONSOLE_LINE_BYTES);
    }
    assert_eq!(console.partial_past, Past::More);
    let done = console.push_chunk(&mut seq, 0, 1, "end\nnext");
    assert_eq!(done[0].text.len(), MAX_CONSOLE_LINE_BYTES);
    assert!(done[0].truncated);
    assert_eq!((console.partial.as_str(), console.partial_past), ("next", Past::Nothing));
}

#[test]
fn a_carriage_return_past_a_full_line_is_no_part_of_it() {
    let full = "x".repeat(MAX_CONSOLE_LINE_BYTES);
    let read = |chunks: &[&str]| {
        let mut console = Console::new();
        let mut seq = 0;
        let mut out = Vec::new();
        for c in chunks {
            out.extend(console.push_chunk(&mut seq, 0, 1, c));
        }
        (out[0].text.len(), out[0].truncated)
    };
    assert_eq!(read(&[&full, "\r", "\n"]), (MAX_CONSOLE_LINE_BYTES, false));
    assert_eq!(read(&[&full, "\r\n"]), (MAX_CONSOLE_LINE_BYTES, false));
    assert_eq!(read(&[&full, "\r", "y\n"]), (MAX_CONSOLE_LINE_BYTES, true));
    assert_eq!(read(&[&full, "\r", "\r\n"]), (MAX_CONSOLE_LINE_BYTES, true));
}

#[test]
fn a_cut_between_chunks_never_shows() {
    let text = "ab\r\ncd\n\nef";
    let whole = {
        let mut console = Console::new();
        let mut seq = 0;
        console.push_chunk(&mut seq, 3, 7, text);
        console
    };
    for cut in 0..=text.len() {
        let mut console = Console::new();
        let mut seq = 0;
        console.push_chunk(&mut seq, 3, 7, &text[..cut]);
        console.push_chunk(&mut seq, 3, 7, &text[cut..]);
        assert_eq!(format!("{console:?}"), format!("{whole:?}"), "cut at {cut}");
    }
}

#[test]
fn a_line_that_core_did_not_stamp_is_told_and_not_marked() {
    let mut session = SessionState::new();
    let reply = session.ingest(&FollowItem::Event(StudyEvent::StreamText {
        stream_name: "dev-bench".to_string(),
        step_index: 0,
        rx_utc_ms: 5,
        core_rx_utc_ms: None,
        text: "hello\n".to_string(),
    }));
    match reply {
        Reply::Send(Frame::Console { lines, total, partial_truncated, .. }) => {
            assert_eq!((lines[0].text.as_str(), total), ("hello", 1));
            assert!(!partial_truncated);
        }
        other => panic!("{other:?}"),
    }
    assert!(session.lanes.get("console:dev-bench").is_none());
}

#[test]
fn a_chart_frame_carries_the_step_row() {
    let mut session = SessionState::new();
    let proj = session.axis.projection();
    let bare = session.time_chart_frame(true, 5_000, &proj, None).unwrap();
    assert!(bare.bands.is_none() && !bare.steps_placeable && bare.steps_note.is_none());
    let row = StepBands {
        bands: vec![StepBand { index: 0, t_from: 1, t_to: 2 }],
        placeable: true,
        note: "placed".to_string(),
    };
    let told = session.time_chart_frame(true, 5_000, &proj, Some(row)).unwrap();
    assert_eq!(told.bands.unwrap()[0], StepBand { index: 0, t_from: 1, t_to: 2 });
    assert!(told.steps_placeable);
    assert_eq!(told.steps_note.as_deref(), Some("placed"));
}

#[test]
fn a_run_is_shown_evenly() {
    let mut series = Series::new();
    let n: usize = 2 * MAX_SERIES_POINTS + 3;
    for i in 0..n {
        series.push(i as u64, (i as f64).to_bits(), if i < 2 { None } else { Some("mA") });
    }
    assert_eq!(series.total, n as u64);
    assert_eq!(series.stride, 4, "the least power of two that brings the run within the cap");
    assert_eq!(series.points.len(), n.div_ceil(4));
    assert!(series.points.iter().enumerate().all(|(k, p)| p.rx_utc_ms == 4 * k as u64));
    assert_eq!(series.unit.as_deref(), Some("mA"));
}

#[test]
fn a_step_is_stamped_and_told_once() {
    let mut session = SessionState::new();
    let item = FollowItem::Event(StudyEvent::StepCompleted {
        step_index: 2,
        result: StepResult {
            step_name: "connect".to_string(),
            outcome: StepOutcome::Fail { reason: "no device".to_string() },
            record: "{}".to_string(),
        },
        started_utc_ms: Some(10),
        ended_utc_ms: Some(20),
        delay_before_ms: None,
    });
    assert!(matches!(session.ingest(&item), Reply::Send(Frame::Step { index: 2, .. })));
    assert_eq!(session.current_step, Some(2));
    assert_eq!(session.steps.len(), 1);
    let stamp = &session.step_stamps[0];
    assert_eq!((stamp.outcome.as_str(), stamp.reason.as_deref()), ("Fail", Some("no device")));
    assert_eq!((stamp.started_utc_ms, stamp.ended_utc_ms, stamp.delay_before_ms), (10, 20, 0));
}

#[test]
fn samples_and_transcripts_reach_their_own_places() {
    let mut session = SessionState::new();
    session.ingest(&FollowItem::Event(StudyEvent::SampleBatch {
        stream_name: "rail".to_string(),
        samples: vec![LiveSample {
            rx_utc_ms: 7,
            value_bits: 2.5f64.to_bits(),
            unit: Some("Milliamps".to_string()),
        }],
    }));
    assert_eq!(session.series.get("rail").unwrap().total, 1);
    session.ingest(&FollowItem::Event(StudyEvent::GattTranscript {
        step_index: 0,
        entry: GattEntry {
            direction: "Rx".to_string(),
            kind: "Notify".to_string(),
            characteristic: None,
            payload_len: 4,
            record: "{}".to_string(),
        },
        core_rx_utc_ms: Some(1_700_000_000_001),
    }));
    assert_eq!(session.lanes.entries.len(), 1);
    assert_eq!(session.feed.len(), 2);
}

#[test]
fn a_chart_frame_goes_out_at_most_once_an_interval_unless_the_axis_moved() {
    let mut session = SessionState::new();
    let reply = session.ingest(&FollowItem::Event(StudyEvent::OutpostRows {
        frame: frame(true, 1_000, &["10000"]),
    }));
    assert!(matches!(reply, Reply::Chart { moved: true }));
    let proj = session.axis.projection();
    let whole = session.time_chart_frame(true, 5_000, &proj, None).unwrap();
    assert!(whole.replace);
    assert_eq!(whole.epoch, 1);
    assert!(session.time_chart_frame(false, 5_100, &proj, None).is_none());
    assert!(!session.time_chart_frame(false, 5_400, &proj, None).unwrap().replace);
}

#[test]
fn the_end_of_a_follow_is_the_studys_own_where_it_is_over() {
    let ended = FollowOutcome::Ended {
        terminal_status: Some("completed".to_string()),
        reason: None,
    };
    assert!(wants_record(&ended));
    let mut session = SessionState::new();
    let record = RecordRead::Read {
        result: Some(StudyRecord { provenance: "{}".to_string(), streams: Some("[]".to_string()) }),
    };
    let end = session.close(&ended, &record);
    assert_eq!(end.status.status, "completed");
    assert!(end.status.finished);
    assert_eq!(end.provenance.as_deref(), Some("{}"));
    assert_eq!(end.streams.as_deref(), Some("[]"));

    let failed = FollowOutcome::Failed { error: "gone".to_string() };
    assert!(!wants_record(&failed));
    let end = SessionState::new().close(&failed, &RecordRead::NotRead);
    assert_eq!(end.status.record_note.as_deref(), Some("watching this study stopped: gone"));
}

#[test]
fn one_follow_is_started_for_a_study_however_often_it_is_opened() {
    let mut studies = LiveStudies::new();
    let nothing = LiveEventsQuery { study: None };
    assert!(matches!(watch(&nothing, &studies), Watch::Nothing));
    assert!(studies.ensure("a"));
    assert!(!studies.ensure("a"));
    assert!(studies.ensure("b"));
    match watch(&nothing, &studies) {
        Watch::Latest(id) => assert_eq!(id, "b"),
        other => panic!("{other:?}"),
    }
    match watch(&LiveEventsQuery { study: Some("a".to_string()) }, &studies) {
        Watch::Named(id) => assert_eq!(id, "a"),
        other => panic!("{other:?}"),
    }
    // A study still being watched is never let go, however many there are.
    for i in 0..20 {
        studies.ensure(&format!("s{i}"));
    }
    assert!(!studies.ensure("a"));
    studies.sessions.finish("a");
    studies.ensure("one more");
    assert!(studies.ensure("a"));
}

#[test]
fn an_axis_is_as_fine_as_its_frames_are_apart() {
    let mut axis = LiveAxis::new();
    for (ms, us) in [(1_000, "0"), (1_010, "100"), (1_015, "200")] {
        axis.ingest(&frame(true, ms, &[us]));
    }
    assert_eq!(axis.resolution_half_ms(), Some(15));
    match axis.describe(&axis.projection()) {
        AxisView::Drawn { accuracy_ms, t_from, t_to, window_from_ms, window_to_ms, note, .. } => {
            assert_eq!(accuracy_ms.as_deref(), Some("7.5"));
            assert_eq!((t_from, t_to, window_from_ms, window_to_ms), (0, 200, 1_000, 1_015));
            assert!(note.contains("good to about 7.5 ms so far"), "{note}");
        }
        other => panic!("{other:?}"),
    }
}

#[test]
fn a_tie_places_its_own_instant_exactly() {
    let at = |rx_utc_ms, us| ClockAnchor { rx_utc_ms, us };
    let proj = Projection::Tied(Ties {
        anchors: vec![at(10, 5), at(10, 7), at(20, 100), at(30, 40)],
        accuracy: None,
    });
    assert_eq!(proj.place(10), Some(7));
    assert_eq!(proj.place(20), Some(100));
    assert_eq!(proj.place(25), Some(70));
    assert_eq!(proj.place(11), Some(16));
    assert_eq!(proj.place(9), None);
    assert_eq!(proj.place(31), None);
}

#[test]
fn a_placed_instant_keeps_its_place_as_the_axis_grows() {
    let mut axis = LiveAxis::new();
    axis.ingest(&frame(true, 1_000, &["10000"]));
    axis.ingest(&frame(true, 1_010, &["20000"]));
    let before: Vec<Option<u64>> = (1_000..=1_010).map(|ms| axis.projection().place(ms)).collect();
    axis.ingest(&frame(true, 1_030, &["90000"]));
    let after: Vec<Option<u64>> = (1_000..=1_010).map(|ms| axis.projection().place(ms)).collect();
    assert_eq!(before, after);
    assert!(before.iter().all(Option::is_some));
}
