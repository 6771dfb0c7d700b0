use embarch_ui::studies_api::column::is_number;
use embarch_ui::studies_api::pages::{
    cached_is, download_name, rows_page, safe_filename, stream_head, stream_text, text_page,
    wants_raw, CachedTable, DownloadQuery, HeadQuery, RowsQuery, TextQuery,
};
use embarch_ui::studies_api::series::{
    fold_bins, series_cells, series_plan, series_width, SeriesError,
};
use embarch_ui::studies_api::table::Table;

const SAMPLES_CSV: &str = "rx_utc_ms,step_name,value,unit,channel_id\n\
                           1000,connect,1.5,Milliamps,0\n\
                           1001,connect,2.5,Milliamps,0\n\
                           1002,connect,0.5,Milliamps,0\n";

#[test]
fn a_rendered_samples_csv_parses_into_columns_and_rows() {
    let table = Table::parse(SAMPLES_CSV);
    assert_eq!(table.columns, ["rx_utc_ms", "step_name", "value", "unit", "channel_id"]);
    assert_eq!(table.rows.len(), 3);
    assert_eq!(table.rows[1][2], "2.5");
}

#[test]
fn the_stamp_is_the_axis_and_never_offered_as_a_series() {
    // Plotting `rx_utc_ms` against `rx_utc_ms` is a straight line, and
    // offering it in the picker is how someone ends up drawing one.
    let table = Table::parse(SAMPLES_CSV);
    assert_eq!(table.time_column().as_deref(), Some("rx_utc_ms"));
    assert_eq!(table.numeric_columns(), ["value", "channel_id"]);
}

#[test]
fn a_column_that_is_numeric_most_of_the_time_is_not_a_numeric_column() {
    let table = Table::parse(
        "core_rx_utc_ms,rep_index,temperature\n\
         1,0,21.5\n\
         2,0,short header: need 4 have 2\n",
    );
    assert_eq!(table.numeric_columns(), ["rep_index"]);
    assert_eq!(table.time_column().as_deref(), Some("core_rx_utc_ms"));
}

#[test]
fn a_short_row_is_padded_rather_than_dropped_or_shifted() {
    let table = Table::parse("a,b,c\n1,2,3\n4,5\n");
    assert_eq!(table.rows.len(), 2);
    assert_eq!(table.rows[1], ["4", "5", ""]);
}

#[test]
fn a_table_with_no_rows_is_a_table_and_not_an_error() {
    let table = Table::parse("rx_utc_ms,step_name,value,unit,channel_id\n");
    assert_eq!(table.columns.len(), 5);
    assert!(table.rows.is_empty());
    assert!(table.numeric_columns().is_empty(), "no data means no column is numeric yet");
}

#[test]
fn a_number_is_what_reads_as_a_double() {
    let pieces = [
        "", "+", "-", "1", "12", "0", ".", ".5", "5.", "1.5", "e", "e5", "1e5", "1E-5", "1e+5",
        "1e", "1e+", "inf", "INF", "infinity", "Infinity", "infinit", "nan", "NaN", "-inf", "+nan",
        "1_000", " 1", "1 ", "0x10", "1.5.2", "--1", "+-1", "1e5.5", "١", "1e400", "-0.0", "1,5",
        "inf1", "nane", ".e5", "5.e5", ".5e5", "+.5", "-5.",
    ];
    for s in pieces {
        assert_eq!(is_number(s), s.parse::<f64>().is_ok(), "{s:?}");
    }
    let alphabet = ['1', '.', 'e', '+', '-', 'i', 'n', 'f'];
    for n in 0..(8 * 8 * 8 * 8 * 8) {
        let mut k = n;
        let mut s = String::new();
        for _ in 0..5 {
            s.push(alphabet[k % 8]);
            k /= 8;
        }
        for len in 1..=5 {
            let part = &s[..len];
            assert_eq!(is_number(part), part.parse::<f64>().is_ok(), "{part:?}");
        }
    }
}

#[test]
fn a_page_of_rows_stays_within_the_table_and_the_limit() {
    let mut csv = "a,b\n".to_string();
    for i in 0..700 {
        csv.push_str(&format!("{i},x\n"));
    }
    let table = Table::parse(&csv);
    let page = rows_page(&table, &RowsQuery { from: None, limit: None });
    assert_eq!((page.from, page.rows.len(), page.total), (0, 100, 700));
    assert_eq!(page.numeric_columns, ["a"]);
    assert_eq!(page.time_column, None);
    let page = rows_page(&table, &RowsQuery { from: Some(10), limit: Some(10_000) });
    assert_eq!((page.from, page.rows.len()), (10, 500));
    assert_eq!(page.rows[0][0], "10");
    let page = rows_page(&table, &RowsQuery { from: Some(695), limit: Some(50) });
    assert_eq!(page.rows.len(), 5);
    let page = rows_page(&table, &RowsQuery { from: Some(9_999), limit: Some(50) });
    assert_eq!((page.from, page.rows.len()), (700, 0));
}

#[test]
fn a_console_keeps_its_last_line_apart_until_it_ends() {
    let page = text_page("one\r\ntwo\nthr", 11, &TextQuery { from: None, limit: None });
    assert_eq!(page.lines, ["one", "two"]);
    assert_eq!(page.partial.as_deref(), Some("thr"));
    assert_eq!((page.total, page.bytes), (2, 11));
    let page = text_page("one\n", 4, &TextQuery { from: None, limit: None });
    assert_eq!(page.partial, None);
}

#[test]
fn bytes_that_are_no_text_are_replaced() {
    let page = stream_text(&[b'a', 0xff, b'b', b'\n', b'c'], &TextQuery { from: None, limit: None });
    assert_eq!(page.lines, ["a\u{fffd}b"]);
    assert_eq!(page.partial.as_deref(), Some("c"));
    assert_eq!(page.bytes, 5);
    let table = Table::from_bytes(b"a,b\n1,\xff\n");
    assert_eq!(table.rows[0], ["1", "\u{fffd}"]);
}

#[test]
fn a_head_is_a_dump_of_sixteen_bytes_a_line() {
    let bytes: Vec<u8> = (0..40u8).collect();
    let head = stream_head(&bytes, &HeadQuery { bytes: Some(1) });
    assert_eq!((head.shown_bytes, head.total_bytes, head.lines.len()), (16, 40, 1));
    let head = stream_head(b"AB\x00", &HeadQuery { bytes: None });
    assert_eq!(head.lines.len(), 1);
    assert!(head.lines[0].starts_with("00000000"), "{}", head.lines[0]);
    assert!(head.lines[0].contains("41 42 00"), "{}", head.lines[0]);
    assert!(head.lines[0].ends_with("AB."), "{}", head.lines[0]);
}

#[test]
fn a_download_is_named_after_its_study_and_its_tap() {
    assert_eq!(safe_filename("../a b.csv"), "---a-b-csv");
    assert_eq!(download_name("s/1", "gatt tap"), "s-1-gatt-tap.dat");
    assert!(wants_raw(&DownloadQuery { raw: Some("1".to_string()) }));
    assert!(wants_raw(&DownloadQuery { raw: Some("true".to_string()) }));
    assert!(!wants_raw(&DownloadQuery { raw: Some("yes".to_string()) }));
    assert!(!wants_raw(&DownloadQuery { raw: None }));
}

#[test]
fn a_kept_table_serves_its_own_tap_only() {
    let kept = CachedTable {
        study_id: "s".to_string(),
        tap: "t".to_string(),
        table: Table::parse("a\n1\n"),
    };
    assert!(cached_is("s", "t", &kept));
    assert!(!cached_is("s", "u", &kept));
    assert!(!cached_is("r", "t", &kept));
}

#[test]
fn a_series_is_the_named_column_or_the_first_numeric_one() {
    let table = Table::parse(SAMPLES_CSV);
    let plan = series_plan("rail", &table, &None).unwrap();
    assert_eq!((plan.column.as_str(), plan.column_index), ("value", 2));
    assert_eq!(plan.time_index, Some(0));
    let (cells, unparsed) = series_cells(&table, &plan);
    assert_eq!(unparsed, 0);
    assert_eq!(cells.len(), 3);
    assert_eq!(cells[1].value, "2.5");
    assert_eq!(cells[1].x.as_deref(), Some("1001"));

    match series_plan("rail", &table, &Some("volts".to_string())) {
        Err(SeriesError::NoSuchColumn(e)) => assert_eq!(
            e,
            "tap 'rail' has no column named 'volts' — it has: rx_utc_ms, step_name, value, unit, channel_id"
        ),
        other => panic!("{other:?}"),
    }
    match series_plan("t", &Table::parse("a,b\nx,y\n"), &None) {
        Err(SeriesError::NothingToPlot(e)) => {
            assert_eq!(e, "tap 't' has no numeric column to plot — its columns are: a, b")
        }
        other => panic!("{other:?}"),
    }
}

#[test]
fn what_does_not_read_as_a_number_is_counted() {
    let table = Table::parse("t,v\n1,2\n2,oops\n3,4\n");
    let plan = series_plan("x", &table, &Some("v".to_string())).unwrap();
    let (cells, unparsed) = series_cells(&table, &plan);
    assert_eq!((cells.len(), unparsed), (2, 1));
    assert_eq!(cells[1].row, 2);
    assert_eq!(cells[1].x, None);
}

#[test]
fn a_bin_holds_the_least_and_the_greatest() {
    let values: Vec<u64> = [2.0f64, -9.0, 3.5, 7.0].iter().map(|v| v.to_bits()).collect();
    let bins = fold_bins(&values, &vec![Some(0), Some(0), None, Some(2)], 3);
    assert_eq!(bins.len(), 3);
    let first = bins[0].unwrap();
    assert_eq!(f64::from_bits(first.min_bits), -9.0);
    assert_eq!(f64::from_bits(first.max_bits), 2.0);
    assert_eq!(first.count, 2);
    assert!(bins[1].is_none());
    assert_eq!(bins[2].unwrap().count, 1);
    assert_eq!(series_width(None), 600);
    assert_eq!(series_width(Some(0)), 1);
    assert_eq!(series_width(Some(1_000_000)), 4_000);
}
