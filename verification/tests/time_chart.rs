use embarch_ui::double::bin_of;
use embarch_ui::projection::{Anchored, Place, Projection};
use embarch_ui::reading::less;
use embarch_ui::streams::{StreamEncoding, StreamEntry};
use embarch_ui::studies_api::table::Table;
use embarch_ui::time_chart::axis::{describe_axis, Axis};
use embarch_ui::time_chart::gather::{
    count_console_lines, wanted, TapRead, TraceMarker, TraceSummary, Wanted,
    MAX_CONSOLE_LINES_COUNTED,
};
use embarch_ui::time_chart::lanes::{axis_column, rows_lane, series_lane, RawLane};
use embarch_ui::time_chart::marks::{
    bin_marks, mark_id, split_mark_id, Mark, MarkLane, ROW_MASK,
};
use embarch_ui::time_chart::series::bin_series;
use embarch_ui::time_chart::view::{
    bin_query, bin_window, build, cached_chart, choose_axis, gather, mark_detail, row_detail,
    CachedTimeChart, ChartInput, MarkDetail, MarksQuery, TimeChartView, MAX_BINS,
};

const GATT_CSV: &str = "rx_utc_ms,step_index,step_name,direction,kind,service_uuid,\
                        characteristic_uuid,att_status,payload_len,payload_hex,payload_ascii,\
                        core_rx_utc_ms\n\
                        120,0,connect,Rx,Notify,fe59,2559,0,4,01020304,....,1700000000120\n\
                        220,0,connect,Tx,Write,fe59,2559,0,2,0102,..,1700000000220\n";

fn lane_of(table: &Table) -> RawLane {
    rows_lane("gatt", "gatt", table)
}

#[test]
fn the_axis_column_is_cores_own_stamp_and_never_the_benchs() {
    let table = Table::parse(GATT_CSV);
    let col = axis_column(&table).expect("gatt.csv carries Core's stamp");
    assert_eq!(table.columns[col], "core_rx_utc_ms");
    let lane = lane_of(&table);
    assert_eq!(lane.marks.len(), 2);
    assert_eq!(lane.marks[0].core_rx_utc_ms, 1_700_000_000_120);
    assert_eq!(lane.marks[1].core_rx_utc_ms, 1_700_000_000_220);
}

#[test]
fn a_tap_with_no_core_stamp_is_refused_rather_than_placed_against_bench_uptime() {
    let table = Table::parse("rx_utc_ms,step_name,value,unit,channel_id\n1,connect,1.5,mA,0\n");
    assert!(axis_column(&table).is_none());
    let lane = rows_lane("old", "struct", &table);
    assert!(lane.marks.is_empty());
    assert!(lane.note.as_ref().unwrap().contains("dev-bench uptime"));
}

#[test]
fn a_mark_outside_the_window_is_unplaceable_and_is_never_clamped() {
    let proj = Projection::core_clock(1_000, 2_000);
    assert_eq!(proj.place(1_500), Some(1_500));
    assert_eq!(proj.place(900), None);
    assert_eq!(proj.place(2_100), None);
    // And the two sides are told apart, which is what makes the gutter
    // counts say which way to widen a tap's scope.
    assert!(900 < proj.window_from_ms());
    assert!(2_100 > proj.window_to_ms());
}

#[test]
fn a_mark_id_round_trips_to_its_lane_and_its_row() {
    for (lane, row) in [(0usize, 0usize), (3, 7), (17, 199_999), (1, ROW_MASK as usize)] {
        assert_eq!(split_mark_id(mark_id(lane, row)), (lane, row));
    }
}

#[test]
fn a_cluster_says_it_is_a_cluster_and_a_single_mark_carries_itself() {
    let mark = |t: u64, id: u64| Mark {
        t: Some(t),
        core_rx_utc_ms: Some(t),
        kind: "gatt",
        sub: String::new(),
        uncertain: false,
        id,
        label: String::new(),
    };
    let lane = MarkLane {
        key: "gatt:gatt".to_string(),
        label: "gatt".to_string(),
        kind: "gatt",
        source: "rows",
        tap: "gatt".to_string(),
        total: 3,
        placed: 3,
        before: 0,
        after: 0,
        dropped_by_cap: 0,
        note: None,
        marks: vec![mark(0, 0), mark(1, 1), mark(90, 2)],
    };
    let binned = bin_marks(&lane, 0, 100, 10);
    assert_eq!(binned.visible, 3);
    assert_eq!(binned.runs.len(), 2);
    assert_eq!(binned.runs[0].count, 2);
    assert!(binned.runs[0].one.is_none(), "a merged bin must not present itself as one mark");
    assert_eq!(binned.runs[1].count, 1);
    assert_eq!(binned.runs[1].one.as_ref().unwrap().id, 2);
}

#[test]
fn marks_outside_the_drawn_window_are_counted_at_each_end() {
    let mark = |t: u64| Mark {
        t: Some(t),
        core_rx_utc_ms: Some(t),
        kind: "gatt",
        sub: String::new(),
        uncertain: false,
        id: t,
        label: String::new(),
    };
    let lane = MarkLane {
        key: "k".to_string(),
        label: "k".to_string(),
        kind: "gatt",
        source: "rows",
        tap: "t".to_string(),
        total: 4,
        placed: 4,
        before: 0,
        after: 0,
        dropped_by_cap: 0,
        note: None,
        marks: vec![mark(5), mark(50), mark(60), mark(500)],
    };
    let binned = bin_marks(&lane, 40, 100, 20);
    assert_eq!(binned.before, 1);
    assert_eq!(binned.after, 1);
    assert_eq!(binned.visible, 2);
}

#[test]
fn a_struct_row_that_did_not_fit_its_layout_says_so_on_its_mark() {
    let table = Table::parse(
        "rx_utc_ms,step_index,step_name,temperature,payload_hex,decode_note,core_rx_utc_ms\n\
         10,0,drain,21.5,aabb,,1700000000010\n\
         11,0,drain,,aa,short header: need 4 have 2,1700000000011\n",
    );
    let lane = rows_lane("bds", "struct", &table);
    assert_eq!(lane.marks.len(), 2);
    assert_eq!(lane.marks[0].sub, "decoded");
    assert_eq!(lane.marks[1].sub, "undecoded");
    assert!(lane.marks[1].label.contains("short header"));
}

/// The value each row of a column reads as.
fn readings(table: &Table, column: &str) -> Vec<Option<u64>> {
    let at = table.columns.iter().position(|c| c == column).unwrap();
    table
        .rows
        .iter()
        .map(|r| r[at].trim().parse::<f64>().ok().map(|v| v.to_bits()))
        .collect()
}

#[test]
fn a_sample_tap_projects_onto_the_axis_and_counts_what_falls_outside_it() {
    let table = Table::parse(
        "rx_utc_ms,step_name,value,unit,channel_id,core_rx_utc_ms\n\
         1,c,1.0,Milliamps,0,900\n\
         2,c,2.0,Milliamps,0,1100\n\
         3,c,9.0,Milliamps,0,1500\n\
         4,c,3.0,Milliamps,0,2500\n",
    );
    let values = readings(&table, "value");
    let lane = series_lane("rail", &table, &values, &Projection::core_clock(1_000, 2_000));
    assert_eq!(lane.column, "value");
    assert_eq!(lane.unit.as_deref(), Some("Milliamps"));
    assert_eq!(lane.placed, 2);
    assert_eq!(lane.before, 1);
    assert_eq!(lane.after, 1);
    // Min and max per bin, never an average — the spike is usually the
    // reason someone is looking.
    let binned = bin_series(&lane, 1_000, 2_000, 1);
    assert_eq!(binned.bins.len(), 1);
    assert_eq!(f64::from_bits(binned.bins[0].min_bits), 2.0);
    assert_eq!(f64::from_bits(binned.bins[0].max_bits), 9.0);
    assert_eq!(binned.bins[0].count, 2);
}

#[test]
fn nothing_stamped_is_no_axis_rather_than_an_invented_one() {
    let mut notes = Vec::new();
    let axis = describe_axis(&Projection::Nowhere, None, false, &mut notes);
    assert!(!axis.placeable);
    assert_eq!(axis.axis_clock, "none");
    assert!(axis.note.contains("no axis"));
}

fn view() -> TimeChartView {
    TimeChartView {
        study_id: "s".to_string(),
        axis: Axis {
            unit: "ms",
            axis_clock: "core-clock",
            t_from: 0,
            t_to: 100,
            projected: false,
            accuracy_ms: None,
            placeable: true,
            source: "embarch-core".to_string(),
            window_from_ms: 0,
            window_to_ms: 100,
            note: String::new(),
        },
        bands: Vec::new(),
        steps_placeable: false,
        steps_note: String::new(),
        lanes: Vec::new(),
        series: Vec::new(),
        trace: None,
        axis_epoch: 0,
        marks_dropped_by_cap: 0,
        notes: Vec::new(),
    }
}

#[test]
fn a_zero_or_oversized_width_is_refused() {
    let view = view();
    assert!(bin_window(&view, 0, 100, 0).is_err());
    assert!(bin_window(&view, 0, 100, MAX_BINS + 1).is_err());
    // And a window past the axis is clamped and says what it clamped to.
    let bins = bin_window(&view, 0, 10_000, 50).expect("clamped");
    assert_eq!(bins.to, 100);
}

#[test]
fn a_query_that_says_nothing_asks_for_the_whole_axis() {
    let bins = bin_query(&view(), &MarksQuery { from: None, to: None, width: None }).unwrap();
    assert_eq!((bins.from, bins.to, bins.width), (0, 100, 1));
    let bins = bin_query(&view(), &MarksQuery { from: Some(20), to: Some(40), width: Some(5) }).unwrap();
    assert_eq!((bins.from, bins.to, bins.width), (20, 40, 5));
}

#[test]
fn a_bin_is_the_one_that_a_double_computes() {
    let mut seed: u64 = 0x9e37_79b9_7f4a_7c15;
    let mut next = || {
        seed ^= seed << 13;
        seed ^= seed >> 7;
        seed ^= seed << 17;
        seed
    };
    for round in 0..200_000u64 {
        let shift = (next() % 60) as u32;
        let span = (next() >> shift).max(1);
        let offset = if round % 3 == 0 { span } else { next() % span };
        let width = (next() % 4_000 + 1) as usize;
        let expected =
            ((offset as f64 * (width as f64 / span as f64)).floor() as usize).min(width - 1);
        assert_eq!(bin_of(offset, span, width), expected, "{offset} {span} {width}");
    }
}

#[test]
fn bits_compare_as_the_numbers_they_are() {
    let numbers = [
        0.0f64, -0.0, 1.0, -1.0, 1.5, -1.5, f64::MAX, f64::MIN, f64::MIN_POSITIVE, f64::EPSILON,
        f64::INFINITY, f64::NEG_INFINITY, f64::NAN, 5e-324, -5e-324, 1e300, -1e300,
    ];
    for a in numbers {
        for b in numbers {
            assert_eq!(less(a.to_bits(), b.to_bits()), a < b, "{a} {b}");
        }
    }
}

fn entry(id: u8, name: &str, encoding: StreamEncoding) -> StreamEntry {
    StreamEntry {
        id,
        name: name.to_string(),
        encoding,
        rendered: true,
        note: None,
        named: true,
        timed: true,
        self_excluded: false,
    }
}

#[test]
fn a_chart_is_built_from_what_the_streams_hold() {
    let samples = "rx_utc_ms,value,unit,core_rx_utc_ms\n1,1.5,mA,1700000000100\n2,2.5,mA,1700000000300\n";
    let input = ChartInput {
        study_id: "s".to_string(),
        recorded: true,
        entries: vec![
            entry(0, "gatt", StreamEncoding::GattTranscript),
            entry(1, "rail", StreamEncoding::Samples),
            entry(2, "log", StreamEncoding::Text),
        ],
        reads: vec![
            TapRead::Table(Table::parse(GATT_CSV)),
            TapRead::Table(Table::parse(samples)),
            TapRead::Bytes(b"one\ntwo\n".to_vec()),
        ],
        steps: Vec::new(),
        trace: None,
        trace_axis: None,
    };
    assert_eq!(wanted(&input.entries[0]), Wanted::Table);
    assert_eq!(wanted(&input.entries[2]), Wanted::Text);
    let gathered = gather(&input);
    assert_eq!(gathered.window, Some((1_700_000_000_100, 1_700_000_000_300)));
    assert_eq!(gathered.sampled, [1]);
    let proj = choose_axis(None, gathered.window);
    let values = vec![readings(&Table::parse(samples), "value")];
    let chart = build(&input, gathered, &values, None, &proj);
    assert_eq!(chart.axis.axis_clock, "core-clock");
    assert_eq!(chart.lanes.len(), 2);
    assert_eq!(chart.lanes[0].placed, 2);
    assert_eq!(chart.lanes[1].total, 2);
    assert!(chart.lanes[1].marks.is_empty());
    assert_eq!(chart.lanes[0].key, "gatt:gatt");
    assert_eq!(chart.lanes[1].key, "console:log");
    for lane in &chart.lanes {
        assert_eq!(lane.placed + lane.before + lane.after, lane.marks.len());
        assert_eq!(lane.placed, lane.marks.iter().filter(|m| m.t.is_some()).count());
        assert!(lane.marks.len() + lane.dropped_by_cap <= lane.total);
    }
    for (i, lane) in chart.lanes.iter().enumerate() {
        assert!(lane.marks.iter().all(|m| split_mark_id(m.id).0 == i));
    }
    let dropped: u128 = chart.lanes.iter().map(|l| l.dropped_by_cap as u128).sum();
    assert_eq!(chart.marks_dropped_by_cap, dropped);
    assert_eq!(chart.axis_epoch, 0);
    assert_ne!(chart.lanes[0].marks[0].id, chart.lanes[0].marks[1].id);
    assert_eq!(chart.series.len(), 1);
    assert_eq!(chart.series[0].placed, 2);

    match mark_detail(&chart, chart.lanes[0].marks[1].id) {
        MarkDetail::Row { .. } => {}
        other => panic!("{other:?}"),
    }
    assert!(matches!(mark_detail(&chart, mark_id(9, 0)), MarkDetail::NotFound(_)));
    let table = Table::parse(GATT_CSV);
    assert_eq!(row_detail("gatt", &table, 1).unwrap()[0], "220");
    assert_eq!(row_detail("gatt", &table, 2).unwrap_err(), "tap 'gatt' has no row 2 — it has 2");

    let kept = Some(CachedTimeChart { study_id: "s".to_string(), view: chart });
    assert!(cached_chart(&kept, "s").is_some());
    assert!(cached_chart(&kept, "t").is_none());
}

#[test]
fn an_anchored_axis_has_a_position_only_where_it_lists_one() {
    let list = |stamps: &[u64]| Anchored {
        places: stamps.iter().map(|s| Place { ms: *s, t: s * 10 }).collect(),
        t_from: 0,
        t_to: 1_000,
        window_from_ms: 1,
        window_to_ms: 9,
        projected: true,
        accuracy: None,
    };
    assert!(Projection::anchored(list(&[1, 5, 3])).is_none());
    let proj = Projection::anchored(list(&[1, 3, 5])).unwrap();
    assert_eq!(proj.place(3), Some(30));
    assert_eq!(proj.place(4), None);
    assert!(proj.placeable());
}

fn traced(trace_axis: Option<Projection>) -> TimeChartView {
    let input = ChartInput {
        study_id: "s".to_string(),
        recorded: true,
        entries: vec![
            entry(0, "outpost", StreamEncoding::OutpostTrace),
            entry(1, "gatt", StreamEncoding::GattTranscript),
        ],
        reads: vec![TapRead::NotRead, TapRead::Table(Table::parse(GATT_CSV))],
        steps: Vec::new(),
        trace: Some(TraceSummary {
            tap: "outpost".to_string(),
            unit: "us".to_string(),
            axis_clock: "none".to_string(),
            dual_clock: false,
            note: None,
            markers: vec![TraceMarker {
                t: 7,
                kind: "point".to_string(),
                label: "here".to_string(),
                arg: "3".to_string(),
            }],
        }),
        trace_axis,
    };
    let gathered = gather(&input);
    let window = gathered.window;
    let axis = match &input.trace_axis {
        Some(Projection::CoreClock { from_ms, to_ms }) => Some(Projection::core_clock(*from_ms, *to_ms)),
        Some(_) => Some(Projection::Nowhere),
        None => None,
    };
    let proj = choose_axis(axis, window);
    build(&input, gathered, &Vec::new(), None, &proj)
}

#[test]
fn a_trace_is_the_source_of_the_axis_only_where_it_drew_it() {
    // The trace has no time base: the chart is on the receipt clock, and says so.
    let chart = traced(Some(Projection::Nowhere));
    assert_eq!(chart.axis.source, "embarch-core");
    assert_eq!(chart.axis.axis_clock, "core-clock");
    assert_eq!(chart.axis.unit, "ms");
    assert!(!chart.axis.projected);
    assert!(chart.axis.accuracy_ms.is_none());
    assert!(chart.axis.note.contains("'outpost' has no time base"), "{}", chart.axis.note);
    let trace = chart.trace.as_ref().unwrap();
    assert!(!trace.drew_the_axis);
    assert_eq!(trace.note.as_deref(), Some("this trace has no time base to draw an axis with"));

    // Its arrivals draw it.
    let chart = traced(Some(Projection::core_clock(1_700_000_000_000, 1_700_000_000_500)));
    assert_eq!(chart.axis.source, "outpost");
    assert_eq!(chart.axis.axis_clock, "host-arrival");
    assert!(chart.trace.as_ref().unwrap().drew_the_axis);
}

#[test]
fn the_lane_of_a_traces_own_markers_belongs_to_no_tap() {
    let chart = traced(None);
    assert_eq!(chart.lanes[0].key, "trace-markers");
    assert_eq!(chart.lanes[0].tap, "");
    assert_eq!(chart.lanes[0].label, "outpost · markers");
    assert_eq!(chart.lanes[0].marks[0].label, "here (arg 3)");
    assert_eq!(chart.lanes[1].tap, "gatt");
}

#[test]
fn a_console_past_the_count_says_that_there_is_more() {
    assert_eq!(count_console_lines("one\n\ntwo\n"), (2, false));
    let full = "x\n".repeat(MAX_CONSOLE_LINES_COUNTED);
    assert_eq!(count_console_lines(&full), (MAX_CONSOLE_LINES_COUNTED, false));
    let more = format!("{full}\n\ny");
    assert_eq!(count_console_lines(&more), (MAX_CONSOLE_LINES_COUNTED, true));
    let input = ChartInput {
        study_id: "s".to_string(),
        recorded: true,
        entries: vec![entry(0, "log", StreamEncoding::Text)],
        reads: vec![TapRead::Bytes(more.into_bytes())],
        steps: Vec::new(),
        trace: None,
        trace_axis: None,
    };
    let lanes = gather(&input).lanes;
    let note = lanes[0].note.as_ref().unwrap();
    assert!(note.starts_with("This console holds more than 2000000 lines. "), "{note}");
}

#[test]
fn marks_without_a_position_come_last() {
    let rows = "core_rx_utc_ms,decode_note,step_name\n900,,a\n1600,,a\n1200,,a\n2500,,a\n";
    let lane = |proj: &Projection| {
        let input = ChartInput {
            study_id: "s".to_string(),
            recorded: true,
            entries: vec![entry(0, "ppg", StreamEncoding::Struct { decoder: 0 })],
            reads: vec![TapRead::Table(Table::parse(rows))],
            steps: Vec::new(),
            trace: Some(TraceSummary {
                tap: "t".to_string(),
                unit: "ms".to_string(),
                axis_clock: "host-arrival".to_string(),
                dual_clock: false,
                note: None,
                markers: Vec::new(),
            }),
            trace_axis: Some(Projection::core_clock(1_000, 2_000)),
        };
        let gathered = gather(&input);
        build(&input, gathered, &Vec::new(), None, proj)
    };
    let chart = lane(&Projection::core_clock(1_000, 2_000));
    let l = &chart.lanes[0];
    let at: Vec<Option<u64>> = l.marks.iter().map(|m| m.t).collect();
    assert_eq!(at, [Some(1_200), Some(1_600), None, None]);
    assert_eq!((l.placed, l.before, l.after, l.total), (2, 1, 1, 4));
    assert_eq!(l.marks.iter().filter(|m| m.t.is_some()).count(), l.placed);
}
