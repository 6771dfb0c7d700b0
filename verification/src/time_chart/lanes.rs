//! A tap's rows as the events of a lane, before an axis exists to place them on, and a
//! sample tap's rows as the points of a strip.

use vstd::prelude::*;
use vstd::string::*;
use crate::projection::Projection;
use crate::reading::{finite, is_finite};
use crate::sorting::{sorted_order, stable_order};
use crate::studies_api::table::{cell_at, column_of, column_of_is, opt_index, position, shown_cell, Grid, Table};
use crate::text::{
    dec, decimal, first_chars, number, opt_nat, opt_view, parse_u64, texts, trim, trimmed,
};
use crate::time_chart::series::{SeriesLane, SeriesPoint, MAX_SERIES_POINTS};

verus! {

/// Marks kept per lane.
pub const MAX_MARKS_PER_LANE: usize = 200_000;

/// Characters of a payload that its mark is labelled with.
pub const PAYLOAD_CHARS: usize = 48;

/// The one column a shared axis is drawn against.
pub open spec fn axis_column_of(columns: Seq<Seq<char>>) -> Option<int> {
    column_of(columns, "core_rx_utc_ms"@)
}

/// The column a shared axis is drawn against: the receipt stamp and nothing else.
pub fn axis_column(table: &Table) -> (r: Option<usize>)
    ensures
        opt_index(r) == axis_column_of(table@.columns),
        r is Some ==> r->0 < table.columns.len(),
{
    position(&table.columns, "core_rx_utc_ms")
}

/// One event, before an axis exists to place it on.
#[derive(Debug)]
pub struct RawMark {
    pub core_rx_utc_ms: u64,
    pub row_index: usize,
    pub sub: String,
    pub label: String,
}

/// What a [`RawMark`] says.
pub ghost struct RawState {
    pub core_rx_utc_ms: nat,
    pub row_index: nat,
    pub sub: Seq<char>,
    pub label: Seq<char>,
}

impl View for RawMark {
    type V = RawState;

    open spec fn view(&self) -> RawState {
        RawState {
            core_rx_utc_ms: self.core_rx_utc_ms as nat,
            row_index: self.row_index as nat,
            sub: self.sub@,
            label: self.label@,
        }
    }
}

pub open spec fn raws(list: Seq<RawMark>) -> Seq<RawState> {
    Seq::new(list.len(), |i: int| list[i]@)
}

/// An event that already stands on the axis.
#[derive(Debug)]
pub struct NativeMark {
    pub t: u64,
    pub row_index: usize,
    pub sub: String,
    pub label: String,
}

/// A lane's events, and what the tap itself could not offer.
#[derive(Debug)]
pub struct RawLane {
    pub key: String,
    pub label: String,
    pub kind: &'static str,
    pub source: &'static str,
    /// Empty for the lane of a trace's own markers.
    pub tap: String,
    pub total: usize,
    pub dropped_by_cap: usize,
    pub note: Option<String>,
    pub marks: Vec<RawMark>,
    /// Events that need no placing.
    pub native: Vec<NativeMark>,
}

impl RawLane {
    /// Whether this lane holds nothing, for the reason `note`.
    pub open spec fn is_empty(
        &self,
        tap: Seq<char>,
        kind: Seq<char>,
        source: Seq<char>,
        note: Option<Seq<char>>,
    ) -> bool {
        &&& self.key@ == kind + ":"@ + tap
        &&& self.label@ == tap
        &&& self.kind@ == kind
        &&& self.source@ == source
        &&& self.tap@ == tap
        &&& self.total == 0
        &&& self.dropped_by_cap == 0
        &&& opt_view(self.note) == note
        &&& self.marks@.len() == 0
        &&& self.native@.len() == 0
    }
}

/// The key of a lane.
pub fn lane_key(kind: &str, tap: &str) -> (r: String)
    ensures
        r@ == kind@ + ":"@ + tap@,
{
    let mut key = kind.to_owned();
    key.append(":");
    key.append(tap);
    key
}

/// A lane that exists and holds nothing, with the reason attached.
pub fn empty_lane(tap: &str, kind: &'static str, source: &'static str, note: Option<String>) -> (r:
    RawLane)
    ensures
        r.is_empty(tap@, kind@, source@, opt_view(note)),
{
    RawLane {
        key: lane_key(kind, tap),
        label: tap.to_owned(),
        kind,
        source,
        tap: tap.to_owned(),
        total: 0,
        dropped_by_cap: 0,
        note,
        marks: Vec::new(),
        native: Vec::new(),
    }
}

// ---- rows --------------------------------------------------------------------

/// The receipt stamp of a row, where its cell reads as one.
pub open spec fn row_stamp(row: Seq<Seq<char>>, column: int) -> Option<nat> {
    match cell_at(row, Some(column)) {
        Some(c) => number(trimmed(c)),
        None => None,
    }
}

/// A named cell of a row as it is shown.
pub open spec fn named_cell(g: Grid, i: int, name: Seq<char>) -> Seq<char> {
    shown_cell(g.rows[i], column_of(g.columns, name))
}

/// What a GATT row's mark is qualified with: its direction and its kind.
pub open spec fn gatt_sub(g: Grid, i: int) -> Seq<char> {
    trimmed(named_cell(g, i, "direction"@) + " "@ + named_cell(g, i, "kind"@))
}

/// The beginning of a row's payload.
pub open spec fn payload_head(g: Grid, i: int) -> Seq<char> {
    let text = named_cell(g, i, "payload_ascii"@);
    if text.len() <= PAYLOAD_CHARS {
        text
    } else {
        text.take(PAYLOAD_CHARS as int)
    }
}

pub open spec fn gatt_label(g: Grid, i: int) -> Seq<char> {
    named_cell(g, i, "direction"@) + " "@ + named_cell(g, i, "kind"@) + " · "@ + named_cell(
        g,
        i,
        "characteristic_uuid"@,
    ) + " · "@ + named_cell(g, i, "payload_len"@) + " bytes"@ + if payload_head(g, i).len() == 0 {
        Seq::empty()
    } else {
        " · "@ + payload_head(g, i)
    }
}

/// What a struct row's mark is qualified with: whether its payload fitted the layout.
pub open spec fn struct_sub(g: Grid, i: int) -> Seq<char> {
    if named_cell(g, i, "decode_note"@).len() == 0 {
        "decoded"@
    } else {
        "undecoded"@
    }
}

pub open spec fn struct_label(g: Grid, i: int) -> Seq<char> {
    let base = named_cell(g, i, "step_name"@) + " · row "@ + decimal(i as nat);
    if named_cell(g, i, "decode_note"@).len() == 0 {
        base
    } else {
        base + " · "@ + named_cell(g, i, "decode_note"@)
    }
}

/// The event that row `i` is, stamped `ms`.
pub open spec fn row_event(g: Grid, gatt: bool, i: int, ms: nat) -> RawState {
    RawState {
        core_rx_utc_ms: ms,
        row_index: i as nat,
        sub: if gatt {
            gatt_sub(g, i)
        } else {
            struct_sub(g, i)
        },
        label: if gatt {
            gatt_label(g, i)
        } else {
            struct_label(g, i)
        },
    }
}

/// The events of the first `n` rows: one for each whose stamp can be read.
pub open spec fn row_events(g: Grid, gatt: bool, stamp: int, n: int) -> Seq<RawState>
    decreases n,
{
    if n <= 0 {
        Seq::empty()
    } else {
        let before = row_events(g, gatt, stamp, n - 1);
        match row_stamp(g.rows[n - 1], stamp) {
            Some(ms) => before.push(row_event(g, gatt, n - 1, ms)),
            None => before,
        }
    }
}

/// The first items of a list, as many as a cap allows.
pub open spec fn capped<A>(list: Seq<A>, cap: nat) -> Seq<A> {
    if list.len() <= cap {
        list
    } else {
        list.take(cap as int)
    }
}

pub const NO_STAMP_HEAD: &'static str = "tap '";

pub const NO_STAMP_ROWS: &'static str = "' has no core_rx_utc_ms column, so its rows carry no clock this chart can share. Its own rx_utc_ms is dev-bench uptime — milliseconds since that board booted — which is not comparable with anything outside this tap, so it is not used as a substitute.";

pub open spec fn no_stamp_note(tap: Seq<char>) -> Seq<char> {
    NO_STAMP_HEAD@ + tap + NO_STAMP_ROWS@
}

impl RawLane {
    /// Whether this lane holds a table's rows.
    pub open spec fn holds_rows(&self, tap: Seq<char>, kind: Seq<char>, g: Grid, stamp: int) -> bool {
        let events = row_events(g, kind == "gatt"@, stamp, g.rows.len() as int);
        &&& self.key@ == kind + ":"@ + tap
        &&& self.label@ == tap
        &&& self.kind@ == kind
        &&& self.source@ == "rows"@
        &&& self.tap@ == tap
        &&& self.total == g.rows.len()
        &&& raws(self.marks@) == capped(events, MAX_MARKS_PER_LANE as nat)
        &&& self.dropped_by_cap == events.len() - self.marks@.len()
        &&& self.note is None
        &&& self.native@.len() == 0
    }

    /// Whether this is what a tap's table makes, stamped or not.
    pub open spec fn is_lane_of(&self, tap: Seq<char>, kind: Seq<char>, g: Grid) -> bool {
        match axis_column_of(g.columns) {
            Some(stamp) => self.holds_rows(tap, kind, g, stamp),
            None => self.is_empty(tap, kind, "rows"@, Some(no_stamp_note(tap))),
        }
    }
}

/// The receipt stamp of row `i`.
pub fn stamp_of(table: &Table, i: usize, column: usize) -> (r: Option<u64>)
    requires
        i < table.rows.len(),
    ensures
        opt_nat(r) == row_stamp(table@.rows[i as int], column as int),
{
    if column < table.rows[i].len() {
        assert(table@.rows[i as int][column as int] == table.rows@[i as int]@[column as int]@);
        let t = trim(table.rows[i][column].as_str());
        parse_u64(t.as_str())
    } else {
        None
    }
}

fn gatt_texts(table: &Table, i: usize) -> (r: (String, String))
    requires
        i < table.rows.len(),
    ensures
        r.0@ == gatt_sub(table@, i as int),
        r.1@ == gatt_label(table@, i as int),
{
    let direction = table.cell(i, position(&table.columns, "direction"));
    let kind = table.cell(i, position(&table.columns, "kind"));
    let uuid = table.cell(i, position(&table.columns, "characteristic_uuid"));
    let len = table.cell(i, position(&table.columns, "payload_len"));
    let text = table.cell(i, position(&table.columns, "payload_ascii"));
    let head = first_chars(text.as_str(), PAYLOAD_CHARS);
    let mut label = direction.clone();
    label.append(" ");
    label.append(kind.as_str());
    let sub = trim(label.as_str());
    label.append(" · ");
    label.append(uuid.as_str());
    label.append(" · ");
    label.append(len.as_str());
    label.append(" bytes");
    if !head.as_str().is_empty() {
        let mut tail = " · ".to_owned();
        tail.append(head.as_str());
        label.append(tail.as_str());
    } else {
        assert(label@ =~= label@ + Seq::<char>::empty());
    }
    (sub, label)
}

fn struct_texts(table: &Table, i: usize) -> (r: (String, String))
    requires
        i < table.rows.len(),
    ensures
        r.0@ == struct_sub(table@, i as int),
        r.1@ == struct_label(table@, i as int),
{
    let note = table.cell(i, position(&table.columns, "decode_note"));
    let mut label = table.cell(i, position(&table.columns, "step_name"));
    label.append(" · row ");
    label.append(dec(i as u64).as_str());
    if note.as_str().is_empty() {
        ("decoded".to_owned(), label)
    } else {
        label.append(" · ");
        label.append(note.as_str());
        ("undecoded".to_owned(), label)
    }
}

/// One rendered table as a lane's events, by the receipt stamp and nothing else.
///
/// A row whose stamp cannot be read is counted in the total and is no event.
pub fn rows_lane(tap: &str, kind: &'static str, table: &Table) -> (r: RawLane)
    ensures
        r.is_lane_of(tap@, kind@, table@),
{
    let stamp: usize = match axis_column(table) {
        Some(stamp) => stamp,
        None => {
            let mut note = NO_STAMP_HEAD.to_owned();
            note.append(tap);
            note.append(NO_STAMP_ROWS);
            return empty_lane(tap, kind, "rows", Some(note));
        },
    };
    let gatt = crate::text::same(kind, "gatt");
    let n: usize = table.rows.len();
    let mut marks: Vec<RawMark> = Vec::new();
    let mut dropped_by_cap: usize = 0;
    assert(raws(marks@) =~= capped(row_events(table@, gatt, stamp as int, 0), 200_000));
    for i in 0..n
        invariant
            n == table.rows.len(),
            raws(marks@) == capped(
                row_events(table@, gatt, stamp as int, i as int),
                MAX_MARKS_PER_LANE as nat,
            ),
            dropped_by_cap == row_events(table@, gatt, stamp as int, i as int).len() - marks@.len(),
            dropped_by_cap <= i,
            marks@.len() <= MAX_MARKS_PER_LANE,
    {
        let ghost before = row_events(table@, gatt, stamp as int, i as int);
        let ghost now = row_events(table@, gatt, stamp as int, i + 1);
        assert(raws(marks@).len() == marks@.len());
        if let Some(ms) = stamp_of(table, i, stamp) {
            assert(now == before.push(row_event(table@, gatt, i as int, ms as nat)));
            if marks.len() >= MAX_MARKS_PER_LANE {
                dropped_by_cap = dropped_by_cap + 1;
                assert(capped(now, 200_000) =~= capped(before, 200_000));
            } else {
                let (sub, label) = if gatt {
                    gatt_texts(table, i)
                } else {
                    struct_texts(table, i)
                };
                let mark = RawMark { core_rx_utc_ms: ms, row_index: i, sub, label };
                let ghost was = raws(marks@);
                marks.push(mark);
                assert(raws(marks@) =~= was.push(mark@));
                assert(raws(marks@) =~= capped(now, 200_000));
            }
        } else {
            assert(now == before);
        }
    }
    RawLane {
        key: lane_key(kind, tap),
        label: tap.to_owned(),
        kind,
        source: "rows",
        tap: tap.to_owned(),
        total: n,
        dropped_by_cap,
        note: None,
        marks,
        native: Vec::new(),
    }
}

proof fn row_events_are_rows(g: Grid, gatt: bool, stamp: int, n: int, k: int)
    requires
        0 <= n <= g.rows.len(),
        0 <= k < row_events(g, gatt, stamp, n).len(),
    ensures
        ({
            let e = row_events(g, gatt, stamp, n)[k];
            &&& e.row_index < n
            &&& row_stamp(g.rows[e.row_index as int], stamp) == Some(e.core_rx_utc_ms)
        }),
    decreases n,
{
    if n > 0 {
        let before = row_events(g, gatt, stamp, n - 1);
        if k < before.len() {
            row_events_are_rows(g, gatt, stamp, n - 1, k);
        }
    }
}

/// An event stands at the stamp of the row it names, read from the receipt stamp's
/// column and from no other.
pub proof fn an_event_carries_its_rows_own_stamp(g: Grid, gatt: bool, k: int)
    requires
        axis_column_of(g.columns) is Some,
        0 <= k < row_events(
            g,
            gatt,
            axis_column_of(g.columns)->0,
            g.rows.len() as int,
        ).len(),
    ensures
        ({
            let stamp = axis_column_of(g.columns)->0;
            let e = row_events(g, gatt, stamp, g.rows.len() as int)[k];
            &&& g.columns[stamp] == "core_rx_utc_ms"@
            &&& e.row_index < g.rows.len()
            &&& row_stamp(g.rows[e.row_index as int], stamp) == Some(e.core_rx_utc_ms)
        }),
{
    column_of_is(g.columns, "core_rx_utc_ms"@);
    row_events_are_rows(g, gatt, axis_column_of(g.columns)->0, g.rows.len() as int, k);
}

// ---- samples -----------------------------------------------------------------

/// The column a sample tap is plotted from: the first numeric one.
pub open spec fn plotted(g: Grid) -> Option<int> {
    if g.numeric_names().len() == 0 {
        None
    } else {
        column_of(g.columns, g.numeric_names()[0])
    }
}

/// The column a sample tap is plotted from, and its name.
pub fn plotted_column(table: &Table) -> (r: Option<(usize, String)>)
    ensures
        r is Some == (table@.numeric_names().len() > 0),
        r is Some ==> {
            &&& Some((r->0).0 as int) == plotted(table@)
            &&& (r->0).1@ == table@.numeric_names()[0]
        },
{
    let numeric = table.numeric_columns();
    assert(texts(numeric@).len() == numeric@.len());
    if numeric.len() == 0 {
        return None;
    }
    assert(texts(numeric@)[0] == numeric@[0]@);
    proof {
        numeric_names_are_columns(table@);
        column_of_is(table@.columns, table@.numeric_names()[0]);
    }
    match position(&table.columns, numeric[0].as_str()) {
        Some(i) => Some((i, numeric[0].clone())),
        None => None,
    }
}

proof fn numeric_names_are_columns(g: Grid)
    requires
        g.numeric_names().len() > 0,
    ensures
        exists|i: int| 0 <= i < g.columns.len() && g.columns[i] == g.numeric_names()[0],
{
    numeric_to_are_columns(g, g.columns.len() as int);
}

proof fn numeric_to_are_columns(g: Grid, n: int)
    requires
        0 <= n <= g.columns.len(),
        g.numeric_to(n).len() > 0,
    ensures
        exists|i: int| 0 <= i < n && g.columns[i] == g.numeric_to(n)[0],
    decreases n,
{
    if n > 0 {
        if g.numeric_to(n - 1).len() > 0 {
            numeric_to_are_columns(g, n - 1);
        } else {
            assert(g.columns[n - 1] == g.numeric_to(n)[0]);
        }
    }
}

/// The value of row `i`: the bits of a finite double, where its cell reads as one.
pub open spec fn sample_value(values: Seq<Option<u64>>, i: int) -> Option<u64> {
    if 0 <= i < values.len() && values[i] is Some && is_finite(values[i]->0) {
        values[i]
    } else {
        None
    }
}

/// The stamp of row `i` where the row is a sample: both its stamp and its value can be
/// read.
pub open spec fn sample_stamp(g: Grid, values: Seq<Option<u64>>, stamp: int, i: int) -> Option<nat> {
    if sample_value(values, i) is Some {
        row_stamp(g.rows[i], stamp)
    } else {
        None
    }
}

/// The samples of the first `n` rows that the axis has a position for, in their order.
pub open spec fn samples_placed(
    g: Grid,
    values: Seq<Option<u64>>,
    stamp: int,
    proj: Projection,
    n: int,
) -> Seq<SeriesPoint>
    decreases n,
{
    if n <= 0 {
        Seq::empty()
    } else {
        let before = samples_placed(g, values, stamp, proj, n - 1);
        match sample_stamp(g, values, stamp, n - 1) {
            Some(ms) => match proj.position(ms as u64) {
                Some(t) => before.push(
                    SeriesPoint { t, value_bits: sample_value(values, n - 1)->0 },
                ),
                None => before,
            },
            None => before,
        }
    }
}

/// How many samples of the first `n` rows the axis has no position for, on the side
/// before its window or on the other.
pub open spec fn samples_missed(
    g: Grid,
    values: Seq<Option<u64>>,
    stamp: int,
    proj: Projection,
    n: int,
    early: bool,
) -> nat
    decreases n,
{
    if n <= 0 {
        0
    } else {
        let before = samples_missed(g, values, stamp, proj, n - 1, early);
        match sample_stamp(g, values, stamp, n - 1) {
            Some(ms) if proj.position(ms as u64) is None && (ms < proj.opens_at()) == early => before
                + 1,
            _ => before,
        }
    }
}

/// The first cell of the column `unit` that holds anything.
pub open spec fn stated_unit(g: Grid, n: int) -> Option<Seq<char>>
    decreases n,
{
    if n <= 0 {
        None
    } else {
        match stated_unit(g, n - 1) {
            Some(u) => Some(u),
            None => {
                let u = named_cell(g, n - 1, "unit"@);
                if u.len() > 0 {
                    Some(u)
                } else {
                    None
                }
            },
        }
    }
}

/// Whether `out` is `points` in the order of their positions, those of one position in
/// the order they had.
pub open spec fn in_order_of_position(points: Seq<SeriesPoint>, out: Seq<SeriesPoint>) -> bool {
    exists|order: Seq<usize>|
        stable_order(points.map_values(|p: SeriesPoint| p.t), order) && out == Seq::new(
            order.len(),
            |i: int| points[order[i] as int],
        )
}

pub const NO_NUMBERS: &'static str = "' has no numeric column to plot — its columns are: ";

pub const NO_STAMP_SAMPLES: &'static str = "' has no core_rx_utc_ms column, so its samples carry no clock this chart can share. Its own rx_utc_ms is dev-bench uptime and is not a substitute.";

/// The texts with `sep` between two of them.
pub open spec fn listed_with(list: Seq<Seq<char>>, sep: Seq<char>) -> Seq<char>
    decreases list.len(),
{
    if list.len() == 0 {
        Seq::empty()
    } else if list.len() == 1 {
        list[0]
    } else {
        listed_with(list.drop_last(), sep) + sep + list.last()
    }
}

/// The texts with `sep` between two of them.
pub fn join(list: &Vec<String>, sep: &str) -> (r: String)
    ensures
        r@ == listed_with(texts(list@), sep@),
{
    let mut out = String::new();
    let ghost all = texts(list@);
    assert(all.take(0) =~= Seq::empty());
    for i in 0..list.len()
        invariant
            all == texts(list@),
            out@ == listed_with(all.take(i as int), sep@),
            i == 0 ==> out@.len() == 0,
    {
        assert(all.take(i + 1).drop_last() =~= all.take(i as int));
        if i > 0 {
            out.append(sep);
        }
        out.append(list[i].as_str());
        assert(out@ =~= listed_with(all.take(i + 1), sep@));
    }
    assert(all.take(all.len() as int) =~= all);
    out
}

impl SeriesLane {
    /// Whether this strip holds nothing, for the reason `note`.
    pub open spec fn is_blank(
        &self,
        tap: Seq<char>,
        column: Seq<char>,
        total: nat,
        note: Seq<char>,
    ) -> bool {
        &&& self.key@ == "series:"@ + tap
        &&& self.label@ == tap
        &&& self.tap@ == tap
        &&& self.column@ == column
        &&& self.unit is None
        &&& self.total == total
        &&& self.placed == 0
        &&& self.before == 0
        &&& self.after == 0
        &&& self.dropped_by_cap == 0
        &&& opt_view(self.note) == Some(note)
        &&& self.points@.len() == 0
    }

    /// Whether this strip holds a table's samples.
    pub open spec fn holds_samples(
        &self,
        tap: Seq<char>,
        g: Grid,
        values: Seq<Option<u64>>,
        stamp: int,
        proj: Projection,
    ) -> bool {
        let n = g.rows.len() as int;
        let placed = samples_placed(g, values, stamp, proj, n);
        let kept = capped(placed, MAX_SERIES_POINTS as nat);
        &&& self.key@ == "series:"@ + tap
        &&& self.label@ == tap
        &&& self.tap@ == tap
        &&& self.column@ == g.numeric_names()[0]
        &&& opt_view(self.unit) == stated_unit(g, n)
        &&& self.total == g.rows.len()
        &&& self.placed == kept.len()
        &&& self.before == samples_missed(g, values, stamp, proj, n, true)
        &&& self.after == samples_missed(g, values, stamp, proj, n, false)
        &&& self.dropped_by_cap == placed.len() - kept.len()
        &&& self.note is None
        &&& in_order_of_position(kept, self.points@)
    }

    /// Whether this is the strip of a tap's table on `proj`.
    pub open spec fn is_strip_of(
        &self,
        tap: Seq<char>,
        g: Grid,
        values: Seq<Option<u64>>,
        proj: Projection,
    ) -> bool {
        if g.numeric_names().len() == 0 {
            self.is_blank(
                tap,
                Seq::empty(),
                g.rows.len(),
                NO_STAMP_HEAD@ + tap + NO_NUMBERS@ + listed_with(g.columns, ", "@),
            )
        } else {
            match axis_column_of(g.columns) {
                Some(stamp) => self.holds_samples(tap, g, values, stamp, proj),
                None => self.is_blank(
                    tap,
                    g.numeric_names()[0],
                    g.rows.len(),
                    NO_STAMP_HEAD@ + tap + NO_STAMP_SAMPLES@,
                ),
            }
        }
    }
}

fn blank_strip(tap: &str, column: String, total: usize, note: String) -> (r: SeriesLane)
    ensures
        r.is_blank(tap@, column@, total as nat, note@),
{
    let mut key = "series:".to_owned();
    key.append(tap);
    SeriesLane {
        key,
        label: tap.to_owned(),
        tap: tap.to_owned(),
        column,
        unit: None,
        total,
        placed: 0,
        before: 0,
        after: 0,
        dropped_by_cap: 0,
        note: Some(note),
        points: Vec::new(),
    }
}

fn unit_of(table: &Table) -> (r: Option<String>)
    ensures
        opt_view(r) == stated_unit(table@, table@.rows.len() as int),
{
    let column = position(&table.columns, "unit");
    for i in 0..table.rows.len()
        invariant
            opt_index(column) == column_of(table@.columns, "unit"@),
            stated_unit(table@, i as int) is None,
    {
        let cell = table.cell(i, column);
        if !cell.as_str().is_empty() {
            proof {
                stated_unit_stays(table@, i + 1, table@.rows.len() as int);
            }
            return Some(cell);
        }
    }
    None
}

proof fn stated_unit_stays(g: Grid, a: int, b: int)
    requires
        0 <= a <= b,
        stated_unit(g, a) is Some,
    ensures
        stated_unit(g, b) == stated_unit(g, a),
    decreases b,
{
    if a < b {
        stated_unit_stays(g, a, b - 1);
    }
}

fn sort_points(points: &Vec<SeriesPoint>) -> (r: Vec<SeriesPoint>)
    ensures
        in_order_of_position(points@, r@),
        r@.len() == points@.len(),
{
    let mut keys: Vec<u64> = Vec::new();
    for i in 0..points.len()
        invariant
            keys.len() == i,
            forall|j: int| 0 <= j < i ==> keys@[j] == points@[j].t,
    {
        keys.push(points[i].t);
    }
    assert(keys@ =~= points@.map_values(|p: SeriesPoint| p.t));
    let order = sorted_order(&keys);
    let mut out: Vec<SeriesPoint> = Vec::new();
    for i in 0..order.len()
        invariant
            stable_order(keys@, order@),
            keys.len() == points.len(),
            out.len() == i,
            forall|j: int| 0 <= j < i ==> out@[j] == points@[order@[j] as int],
    {
        out.push(points[order[i]]);
    }
    assert(out@ =~= Seq::new(order@.len(), |i: int| points@[order@[i] as int]));
    out
}

/// One sample tap's strip, placed on the axis.
///
/// `values` holds, for each row, the bits of the number in the plotted column where it
/// reads as one. A sample outside the window is counted on the side it fell off.
pub fn series_lane(tap: &str, table: &Table, values: &Vec<Option<u64>>, proj: &Projection) -> (r:
    SeriesLane)
    requires
        proj.wf(),
    ensures
        r.is_strip_of(tap@, table@, values@, *proj),
{
    let column = match plotted_column(table) {
        Some((i, name)) => name,
        None => {
            let mut note = NO_STAMP_HEAD.to_owned();
            note.append(tap);
            note.append(NO_NUMBERS);
            note.append(join(&table.columns, ", ").as_str());
            return blank_strip(tap, String::new(), table.rows.len(), note);
        },
    };
    let stamp: usize = match axis_column(table) {
        Some(stamp) => stamp,
        None => {
            let mut note = NO_STAMP_HEAD.to_owned();
            note.append(tap);
            note.append(NO_STAMP_SAMPLES);
            return blank_strip(tap, column, table.rows.len(), note);
        },
    };
    let unit = unit_of(table);
    let n: usize = table.rows.len();
    let mut points: Vec<SeriesPoint> = Vec::new();
    let mut before: usize = 0;
    let mut after: usize = 0;
    let mut dropped_by_cap: usize = 0;
    let ghost g = table@;
    assert(points@ =~= capped(samples_placed(g, values@, stamp as int, *proj, 0), 500_000));
    for i in 0..n
        invariant
            g == table@,
            n == table.rows.len(),
            proj.wf(),
            points@ == capped(
                samples_placed(g, values@, stamp as int, *proj, i as int),
                MAX_SERIES_POINTS as nat,
            ),
            dropped_by_cap == samples_placed(g, values@, stamp as int, *proj, i as int).len()
                - points@.len(),
            before == samples_missed(g, values@, stamp as int, *proj, i as int, true),
            after == samples_missed(g, values@, stamp as int, *proj, i as int, false),
            dropped_by_cap <= i,
            before <= i,
            after <= i,
    {
        let ghost placed = samples_placed(g, values@, stamp as int, *proj, i as int);
        let ghost now = samples_placed(g, values@, stamp as int, *proj, i + 1);
        let value: Option<u64> = if i < values.len() {
            match values[i] {
                Some(bits) => if finite(bits) {
                    Some(bits)
                } else {
                    None
                },
                None => None,
            }
        } else {
            None
        };
        assert(value == sample_value(values@, i as int));
        match (stamp_of(table, i, stamp), value) {
            (Some(ms), Some(bits)) => {
                match proj.place(ms) {
                    Some(t) => {
                        assert(now == placed.push(SeriesPoint { t, value_bits: bits }));
                        if points.len() >= MAX_SERIES_POINTS {
                            dropped_by_cap = dropped_by_cap + 1;
                            assert(capped(now, 500_000) =~= capped(placed, 500_000));
                        } else {
                            points.push(SeriesPoint { t, value_bits: bits });
                            assert(points@ =~= capped(now, 500_000));
                        }
                    },
                    None => {
                        if ms < proj.window_from_ms() {
                            before = before + 1;
                        } else {
                            after = after + 1;
                        }
                    },
                }
            },
            _ => {},
        }
    }
    let placed: usize = points.len();
    let mut key = "series:".to_owned();
    key.append(tap);
    SeriesLane {
        key,
        label: tap.to_owned(),
        tap: tap.to_owned(),
        column,
        unit,
        total: n,
        placed,
        before,
        after,
        dropped_by_cap,
        note: None,
        points: sort_points(&points),
    }
}

// ---- laws --------------------------------------------------------------------

/// A stamp is read from its own cell, whatever whitespace stands around it, and nothing else
/// is a stamp.
pub proof fn a_stamp_is_read_from_its_cell(row: Seq<Seq<char>>, column: int, ms: u64)
    requires
        0 <= column < row.len(),
    ensures
        trimmed(row[column]) == decimal(ms as nat) ==> row_stamp(row, column) == Some(ms as nat),
        row_stamp(row, column) == number(trimmed(row[column])),
        row_stamp(row, row.len() as int) is None,
{
    crate::text::a_decimal_reads_back(ms as nat);
}

/// Every row whose stamp can be read is an event at that stamp, and no other row is one; the
/// events come in the order of their rows.
pub proof fn every_stamped_row_is_an_event(g: Grid, gatt: bool, stamp: int, n: int)
    requires
        0 <= n <= g.rows.len(),
    ensures
        ({
            let events = row_events(g, gatt, stamp, n);
            &&& forall|i: int|
                0 <= i < n && row_stamp(#[trigger] g.rows[i], stamp) is Some ==> exists|k: int|
                    0 <= k < events.len() && (#[trigger] events[k]).row_index == i
                        && events[k].core_rx_utc_ms == row_stamp(g.rows[i], stamp)->0
            &&& forall|k: int|
                0 <= k < events.len() ==> 0 <= (#[trigger] events[k]).row_index < n && row_stamp(
                    g.rows[events[k].row_index as int],
                    stamp,
                ) == Some(events[k].core_rx_utc_ms)
            &&& forall|j: int, k: int|
                0 <= j < k < events.len() ==> (#[trigger] events[j]).row_index < (
                #[trigger] events[k]).row_index
            &&& events.len() == g.rows.take(n).filter(
                |row: Seq<Seq<char>>| row_stamp(row, stamp) is Some,
            ).len()
        }),
    decreases n,
{
    reveal(Seq::filter);
    if n > 0 {
        every_stamped_row_is_an_event(g, gatt, stamp, n - 1);
        assert(g.rows.take(n).drop_last() =~= g.rows.take(n - 1));
        assert(g.rows.take(n).last() == g.rows[n - 1]);
        let before = row_events(g, gatt, stamp, n - 1);
        let events = row_events(g, gatt, stamp, n);
        assert forall|k: int| 0 <= k < before.len() implies events[k] == #[trigger] before[k] by {}
        assert forall|i: int|
            0 <= i < n && row_stamp(#[trigger] g.rows[i], stamp) is Some implies exists|k: int|
            0 <= k < events.len() && (#[trigger] events[k]).row_index == i
                && events[k].core_rx_utc_ms == row_stamp(g.rows[i], stamp)->0 by {
            if i < n - 1 {
                let k = choose|k: int|
                    0 <= k < before.len() && (#[trigger] before[k]).row_index == i
                        && before[k].core_rx_utc_ms == row_stamp(g.rows[i], stamp)->0;
                assert(events[k] == before[k]);
            } else {
                assert(events[events.len() - 1].row_index == i);
            }
        }
    }
}

/// A decoded row is told from one that was not by whether it carries a note on its decoding,
/// and the note is said.
pub proof fn an_undecoded_row_says_why(g: Grid, i: int)
    requires
        0 <= i < g.rows.len(),
    ensures
        struct_sub(g, i) == "decoded"@ <==> named_cell(g, i, "decode_note"@).len() == 0,
        struct_sub(g, i) == "undecoded"@ <==> named_cell(g, i, "decode_note"@).len() > 0,
        named_cell(g, i, "decode_note"@).len() > 0 ==> struct_label(g, i) == named_cell(
            g,
            i,
            "step_name"@,
        ) + " · row "@ + decimal(i as nat) + " · "@ + named_cell(g, i, "decode_note"@),
        named_cell(g, i, "decode_note"@).len() == 0 ==> struct_label(g, i) == named_cell(
            g,
            i,
            "step_name"@,
        ) + " · row "@ + decimal(i as nat),
{
    reveal_strlit("decoded");
    reveal_strlit("undecoded");
    assert("decoded"@.len() != "undecoded"@.len());
}

/// A payload is shown whole where it has no more than forty-eight characters, and its first
/// forty-eight where it has more.
pub proof fn a_payload_is_shown_from_its_beginning(g: Grid, i: int)
    ensures
        ({
            let text = named_cell(g, i, "payload_ascii"@);
            &&& payload_head(g, i).is_prefix_of(text)
            &&& text.len() <= 48 ==> payload_head(g, i) == text
            &&& text.len() > 48 ==> payload_head(g, i).len() == 48
        }),
{
}

/// A named cell is the row's own in the first column of that name, without the whitespace
/// around it, and empty where the row or the table has none.
pub proof fn a_named_cell_is_its_columns(g: Grid, i: int, name: Seq<char>, c: int)
    requires
        0 <= i < g.rows.len(),
        0 <= c < g.columns.len(),
        g.columns[c] == name,
        forall|j: int| 0 <= j < c ==> #[trigger] g.columns[j] != name,
    ensures
        c < g.rows[i].len() ==> named_cell(g, i, name) == trimmed(g.rows[i][c]),
        c >= g.rows[i].len() ==> named_cell(g, i, name).len() == 0,
{
    crate::studies_api::table::column_of_is(g.columns, name);
    let at = column_of(g.columns, name)->0;
    if c < at {
        assert(g.columns[c] != name);
    } else if at < c {
        assert(g.columns[at] != name);
    }
}

/// Every row that has both its stamp and a finite value is a sample: drawn where the axis has
/// a position for it, and counted on the side it fell off where it has none.
pub proof fn every_sample_is_accounted_for(
    g: Grid,
    values: Seq<Option<u64>>,
    stamp: int,
    proj: Projection,
    n: int,
)
    requires
        0 <= n <= g.rows.len(),
    ensures
        samples_placed(g, values, stamp, proj, n).len() + samples_missed(
            g,
            values,
            stamp,
            proj,
            n,
            true,
        ) + samples_missed(g, values, stamp, proj, n, false) == Seq::new(
            n as nat,
            |i: int| i,
        ).filter(
            |i: int|
                i < values.len() && values[i] is Some && is_finite(values[i]->0) && row_stamp(
                    g.rows[i],
                    stamp,
                ) is Some,
        ).len(),
    decreases n,
{
    reveal(Seq::filter);
    let all = Seq::new(n as nat, |i: int| i);
    if n > 0 {
        every_sample_is_accounted_for(g, values, stamp, proj, n - 1);
        assert(all.drop_last() =~= Seq::new((n - 1) as nat, |i: int| i));
        assert(all.last() == n - 1);
    } else {
        assert(all =~= Seq::empty());
    }
}

/// Every point of a strip is a row's own value at the position of that row's stamp, and every
/// sample with a position is a point.
pub proof fn a_point_is_its_rows_own(
    g: Grid,
    values: Seq<Option<u64>>,
    stamp: int,
    proj: Projection,
    n: int,
)
    requires
        0 <= n <= g.rows.len(),
    ensures
        ({
            let points = samples_placed(g, values, stamp, proj, n);
            &&& forall|k: int|
                0 <= k < points.len() ==> is_finite((#[trigger] points[k]).value_bits) && exists|
                    i: int,
                |
                    0 <= i < n && i < values.len() && #[trigger] values[i] == Some(
                        points[k].value_bits,
                    ) && row_stamp(g.rows[i], stamp) is Some && proj.position(
                        row_stamp(g.rows[i], stamp)->0 as u64,
                    ) == Some(points[k].t)
            &&& forall|i: int|
                0 <= i < n && i < values.len() && (#[trigger] values[i]) is Some && is_finite(
                    values[i]->0,
                ) && row_stamp(g.rows[i], stamp) is Some && proj.position(
                    row_stamp(g.rows[i], stamp)->0 as u64,
                ) is Some ==> exists|k: int|
                    0 <= k < points.len() && (#[trigger] points[k]).value_bits == values[i]->0
                        && Some(points[k].t) == proj.position(
                        row_stamp(g.rows[i], stamp)->0 as u64,
                    )
        }),
    decreases n,
{
    if n > 0 {
        a_point_is_its_rows_own(g, values, stamp, proj, n - 1);
        let before = samples_placed(g, values, stamp, proj, n - 1);
        let points = samples_placed(g, values, stamp, proj, n);
        assert forall|k: int| 0 <= k < before.len() implies points[k] == #[trigger] before[k] by {}
        assert forall|k: int| 0 <= k < points.len() implies is_finite(
            (#[trigger] points[k]).value_bits,
        ) && exists|i: int|
            0 <= i < n && i < values.len() && #[trigger] values[i] == Some(points[k].value_bits)
                && row_stamp(g.rows[i], stamp) is Some && proj.position(
                row_stamp(g.rows[i], stamp)->0 as u64,
            ) == Some(points[k].t) by {
            if k < before.len() {
                assert(points[k] == before[k]);
            } else {
                assert(values[n - 1] == Some(points[k].value_bits));
            }
        }
        assert forall|i: int|
            0 <= i < n && i < values.len() && (#[trigger] values[i]) is Some && is_finite(
                values[i]->0,
            ) && row_stamp(g.rows[i], stamp) is Some && proj.position(
                row_stamp(g.rows[i], stamp)->0 as u64,
            ) is Some implies exists|k: int|
            0 <= k < points.len() && (#[trigger] points[k]).value_bits == values[i]->0 && Some(
                points[k].t,
            ) == proj.position(row_stamp(g.rows[i], stamp)->0 as u64) by {
            if i < n - 1 {
                let k = choose|k: int|
                    0 <= k < before.len() && (#[trigger] before[k]).value_bits == values[i]->0
                        && Some(before[k].t) == proj.position(
                        row_stamp(g.rows[i], stamp)->0 as u64,
                    );
                assert(points[k] == before[k]);
            } else {
                assert(points[points.len() - 1].value_bits == values[i]->0);
            }
        }
    }
}

/// A strip's unit is the first that any of its rows states.
pub proof fn a_unit_is_the_first_stated(g: Grid, n: int)
    requires
        0 <= n <= g.rows.len(),
    ensures
        stated_unit(g, n) is Some ==> exists|i: int|
            0 <= i < n && #[trigger] named_cell(g, i, "unit"@) == stated_unit(g, n)->0
                && named_cell(g, i, "unit"@).len() > 0 && forall|j: int|
                0 <= j < i ==> (#[trigger] named_cell(g, j, "unit"@)).len() == 0,
        stated_unit(g, n) is None ==> forall|j: int|
            0 <= j < n ==> (#[trigger] named_cell(g, j, "unit"@)).len() == 0,
    decreases n,
{
    if n > 0 {
        a_unit_is_the_first_stated(g, n - 1);
        if stated_unit(g, n - 1) is None && stated_unit(g, n) is Some {
            assert(named_cell(g, n - 1, "unit"@) == stated_unit(g, n)->0);
        }
    }
}

/// A strip's points come in the order of their positions, none left out and none made up.
pub proof fn points_come_in_the_order_of_their_positions(
    points: Seq<SeriesPoint>,
    out: Seq<SeriesPoint>,
)
    requires
        points.len() <= usize::MAX,
        in_order_of_position(points, out),
    ensures
        out.len() == points.len(),
        forall|i: int, j: int| 0 <= i < j < out.len() ==> (#[trigger] out[i]).t <= (
        #[trigger] out[j]).t,
        forall|k: int| 0 <= k < points.len() ==> out.contains(#[trigger] points[k]),
        forall|i: int| 0 <= i < out.len() ==> points.contains(#[trigger] out[i]),
{
    let keys = points.map_values(|p: SeriesPoint| p.t);
    let order = choose|order: Seq<usize>|
        stable_order(keys, order) && out == Seq::new(
            order.len(),
            |i: int| points[order[i] as int],
        );
    assert forall|i: int, j: int| 0 <= i < j < out.len() implies (#[trigger] out[i]).t <= (
    #[trigger] out[j]).t by {
        assert(keys[order[i] as int] == out[i].t);
        assert(keys[order[j] as int] == out[j].t);
    }
    assert forall|k: int| 0 <= k < points.len() implies out.contains(#[trigger] points[k]) by {
        assert(order.contains(k as usize));
        let at = choose|at: int| 0 <= at < order.len() && order[at] == k;
        assert(out[at] == points[k]);
    }
    assert forall|i: int| 0 <= i < out.len() implies points.contains(#[trigger] out[i]) by {
        assert(out[i] == points[order[i] as int]);
    }
}

/// What a cap drops is what is past it: the first are kept, in their order.
pub proof fn a_cap_keeps_the_first<A>(list: Seq<A>, cap: nat)
    ensures
        capped(list, cap).is_prefix_of(list),
        list.len() <= cap ==> capped(list, cap) == list,
        list.len() > cap ==> capped(list, cap).len() == cap,
{
}

/// A lane of rows counts every row, keeps the events of the first of them that have a stamp
/// and counts those it had no room for.
pub proof fn a_lane_accounts_for_its_rows(
    lane: RawLane,
    tap: Seq<char>,
    kind: Seq<char>,
    g: Grid,
    stamp: int,
)
    requires
        lane.is_lane_of(tap, kind, g),
        axis_column_of(g.columns) == Some(stamp),
    ensures
        lane.total == g.rows.len(),
        lane.marks@.len() + lane.dropped_by_cap == g.rows.filter(
            |row: Seq<Seq<char>>| row_stamp(row, stamp) is Some,
        ).len(),
        lane.marks@.len() <= 200_000,
        lane.dropped_by_cap > 0 ==> lane.marks@.len() == 200_000,
        lane.native@.len() == 0,
        lane.note is None,
        lane.key@ == kind + ":"@ + tap,
        lane.label@ == tap,
        lane.tap@ == tap,
        forall|k: int|
            0 <= k < lane.marks@.len() ==> {
                let m = #[trigger] lane.marks@[k];
                let i = m.row_index as int;
                &&& 0 <= i < g.rows.len()
                &&& row_stamp(g.rows[i], stamp) == Some(m.core_rx_utc_ms as nat)
                &&& kind == "gatt"@ ==> m.sub@ == gatt_sub(g, i) && m.label@ == gatt_label(g, i)
                &&& kind != "gatt"@ ==> m.sub@ == struct_sub(g, i) && m.label@ == struct_label(g, i)
            },
{
    let n = g.rows.len() as int;
    let gatt = kind == "gatt"@;
    let events = row_events(g, gatt, stamp, n);
    every_stamped_row_is_an_event(g, gatt, stamp, n);
    assert(g.rows.take(n) =~= g.rows);
    assert(raws(lane.marks@).len() == lane.marks@.len());
    assert forall|k: int| 0 <= k < lane.marks@.len() implies {
        let m = #[trigger] lane.marks@[k];
        let i = m.row_index as int;
        &&& 0 <= i < g.rows.len()
        &&& row_stamp(g.rows[i], stamp) == Some(m.core_rx_utc_ms as nat)
        &&& gatt ==> m.sub@ == gatt_sub(g, i) && m.label@ == gatt_label(g, i)
        &&& !gatt ==> m.sub@ == struct_sub(g, i) && m.label@ == struct_label(g, i)
    } by {
        assert(raws(lane.marks@)[k] == lane.marks@[k]@);
        assert(raws(lane.marks@)[k] == events[k]);
        row_events_are_rows(g, gatt, stamp, n, k);
        an_event_says_what_its_row_does(g, gatt, stamp, n, k);
    }
}

proof fn an_event_says_what_its_row_does(g: Grid, gatt: bool, stamp: int, n: int, k: int)
    requires
        0 <= n <= g.rows.len(),
        0 <= k < row_events(g, gatt, stamp, n).len(),
    ensures
        ({
            let e = row_events(g, gatt, stamp, n)[k];
            e == row_event(g, gatt, e.row_index as int, e.core_rx_utc_ms)
        }),
    decreases n,
{
    if n > 0 {
        let before = row_events(g, gatt, stamp, n - 1);
        if k < before.len() {
            an_event_says_what_its_row_does(g, gatt, stamp, n - 1, k);
        }
    }
}

/// A transcript row says which way it went and what it was, of which characteristic, how long
/// its payload is, and how that begins where it has one.
pub proof fn a_transcript_row_says_what_it_was(g: Grid, i: int)
    ensures
        ({
            let way = named_cell(g, i, "direction"@);
            let kind = named_cell(g, i, "kind"@);
            let head = way + " "@ + kind + " · "@ + named_cell(g, i, "characteristic_uuid"@) + " · "@
                + named_cell(g, i, "payload_len"@) + " bytes"@;
            &&& gatt_sub(g, i) == trimmed(way + " "@ + kind)
            &&& named_cell(g, i, "payload_ascii"@).len() == 0 ==> gatt_label(g, i) == head
            &&& 0 < named_cell(g, i, "payload_ascii"@).len() <= 48 ==> gatt_label(g, i) == head
                + (" · "@ + named_cell(g, i, "payload_ascii"@))
        }),
{
    if named_cell(g, i, "payload_ascii"@).len() == 0 {
        assert(gatt_label(g, i) =~= named_cell(g, i, "direction"@) + " "@ + named_cell(
            g,
            i,
            "kind"@,
        ) + " · "@ + named_cell(g, i, "characteristic_uuid"@) + " · "@ + named_cell(
            g,
            i,
            "payload_len"@,
        ) + " bytes"@);
    }
}

/// A table is drawn by the column of receipt stamps, and by no other.
pub proof fn a_table_is_drawn_by_its_receipt_stamps(columns: Seq<Seq<char>>, c: int)
    requires
        0 <= c <= columns.len(),
        forall|j: int| 0 <= j < c ==> #[trigger] columns[j] != "core_rx_utc_ms"@,
        c < columns.len() ==> columns[c] == "core_rx_utc_ms"@,
    ensures
        c < columns.len() ==> axis_column_of(columns) == Some(c),
        c == columns.len() ==> axis_column_of(columns) is None,
{
    crate::studies_api::table::column_of_is(columns, "core_rx_utc_ms"@);
    if axis_column_of(columns) is Some {
        let at = axis_column_of(columns)->0;
        if at < c {
            assert(columns[at] != "core_rx_utc_ms"@);
        }
    }
}

/// A strip counts every row, draws as many samples as it says, and has an account of every
/// sample: drawn, before the axis, after it or past its cap.
pub proof fn a_strip_accounts_for_its_samples(
    strip: SeriesLane,
    tap: Seq<char>,
    g: Grid,
    values: Seq<Option<u64>>,
    proj: Projection,
    stamp: int,
)
    requires
        strip.is_strip_of(tap, g, values, proj),
        axis_column_of(g.columns) == Some(stamp),
        g.numeric_names().len() > 0,
        g.rows.len() <= usize::MAX,
    ensures
        strip.key@ == "series:"@ + tap,
        strip.label@ == tap,
        strip.column@ == g.numeric_names()[0],
        strip.total == g.rows.len(),
        strip.placed == strip.points@.len(),
        strip.points@.len() <= 500_000,
        strip.dropped_by_cap > 0 ==> strip.points@.len() == 500_000,
        strip.placed + strip.before + strip.after + strip.dropped_by_cap == Seq::new(
            g.rows.len(),
            |i: int| i,
        ).filter(
            |i: int|
                i < values.len() && values[i] is Some && is_finite(values[i]->0) && row_stamp(
                    g.rows[i],
                    stamp,
                ) is Some,
        ).len(),
        forall|i: int, j: int|
            0 <= i < j < strip.points@.len() ==> (#[trigger] strip.points@[i]).t <= (
            #[trigger] strip.points@[j]).t,
        forall|i: int|
            0 <= i < strip.points@.len() ==> is_finite((#[trigger] strip.points@[i]).value_bits),
{
    let n = g.rows.len() as int;
    let placed = samples_placed(g, values, stamp, proj, n);
    let kept = capped(placed, MAX_SERIES_POINTS as nat);
    every_sample_is_accounted_for(g, values, stamp, proj, n);
    a_point_is_its_rows_own(g, values, stamp, proj, n);
    points_come_in_the_order_of_their_positions(kept, strip.points@);
    assert forall|i: int| 0 <= i < strip.points@.len() implies is_finite(
        (#[trigger] strip.points@[i]).value_bits,
    ) by {
        assert(kept.contains(strip.points@[i]));
        let k = choose|k: int| 0 <= k < kept.len() && kept[k] == strip.points@[i];
        assert(placed[k] == kept[k]);
    }
}

/// A sample stream with no column of numbers, or without receipt stamps, draws nothing and
/// says so.
pub proof fn a_strip_that_draws_nothing_says_why(
    strip: SeriesLane,
    tap: Seq<char>,
    g: Grid,
    values: Seq<Option<u64>>,
    proj: Projection,
)
    requires
        strip.is_strip_of(tap, g, values, proj),
        g.numeric_names().len() == 0 || axis_column_of(g.columns) is None,
    ensures
        strip.points@.len() == 0,
        strip.placed == 0,
        strip.before == 0,
        strip.after == 0,
        strip.note is Some,
        strip.total == g.rows.len(),
        strip.key@ == "series:"@ + tap,
{
}

} // verus!
