//! What a study's streams offer a chart, before there is an axis: the lanes of events,
//! the sample tables, and the window all of it spans on the receipt clock.

use vstd::prelude::*;
use vstd::string::*;
use crate::live_study::console::Stamp;
use crate::live_study::session::{marks_change_only_their_lane, Session, StepStamp, StudyEvent};
use crate::projection::Projection;
use crate::streams::{StreamEncoding, StreamEntry};
use crate::studies_api::pages::{lossy_text, lossy_utf8};
use crate::studies_api::table::{Grid, Table};
use crate::study_designer::taps::AUTO_TRANSCRIPT_TAP_NAME;
use crate::text::{
    chars_of, dec, decimal, number, opt_view, split_chars, split_on, texts, char_rows,
};
use crate::time_chart::lanes::{
    axis_column, axis_column_of, empty_lane, join, listed_with, row_stamp, rows_lane, stamp_of,
    NativeMark, RawLane, RawMark,
};

verus! {

/// Console lines counted for a lane's total. Past this the lane says that there are more.
pub const MAX_CONSOLE_LINES_COUNTED: usize = 2_000_000;

/// What is to be read of a stream before a chart can be built.
#[derive(Debug, Clone, Copy, PartialEq, Eq, Structural)]
pub enum Wanted {
    Nothing,
    Table,
    Text,
}

/// What is to be read of a stream.
pub open spec fn wants(e: StreamEntry) -> Wanted {
    match e.encoding {
        StreamEncoding::GattTranscript => if e.rendered {
            Wanted::Table
        } else {
            Wanted::Nothing
        },
        StreamEncoding::Struct { decoder } => if e.rendered {
            Wanted::Table
        } else {
            Wanted::Nothing
        },
        StreamEncoding::Samples => if e.rendered {
            Wanted::Table
        } else {
            Wanted::Nothing
        },
        StreamEncoding::Text => Wanted::Text,
        _ => Wanted::Nothing,
    }
}

/// What is to be read of a stream before a chart can be built.
pub fn wanted(e: &StreamEntry) -> (r: Wanted)
    ensures
        r == wants(*e),
{
    match e.encoding {
        StreamEncoding::GattTranscript | StreamEncoding::Samples => if e.rendered {
            Wanted::Table
        } else {
            Wanted::Nothing
        },
        StreamEncoding::Struct { .. } => if e.rendered {
            Wanted::Table
        } else {
            Wanted::Nothing
        },
        StreamEncoding::Text => Wanted::Text,
        StreamEncoding::Raw | StreamEncoding::OutpostTrace => Wanted::Nothing,
    }
}

/// What was read of a stream.
#[derive(Debug)]
pub enum TapRead {
    NotRead,
    Table(Table),
    Bytes(Vec<u8>),
    Failed(String),
}

/// Whether what was wanted of each stream was read, or failed to be.
pub open spec fn answered(entries: Seq<StreamEntry>, reads: Seq<TapRead>) -> bool {
    &&& entries.len() == reads.len()
    &&& forall|i: int|
        0 <= i < entries.len() ==> match wants(#[trigger] entries[i]) {
            Wanted::Nothing => true,
            Wanted::Table => reads[i] is Table || reads[i] is Failed,
            Wanted::Text => reads[i] is Bytes || reads[i] is Failed,
        }
}

/// One of a trace's own markers.
#[derive(Debug)]
pub struct TraceMarker {
    pub t: u64,
    pub kind: String,
    pub label: String,
    /// The number it carries, as it is shown.
    pub arg: String,
}

/// A decoded trace, as far as a chart reads it.
#[derive(Debug)]
pub struct TraceSummary {
    pub tap: String,
    pub unit: String,
    pub axis_clock: String,
    pub dual_clock: bool,
    pub note: Option<String>,
    pub markers: Vec<TraceMarker>,
}

// ---- which trace -------------------------------------------------------------

/// The names of the rendered traces among the first `n` streams.
pub open spec fn trace_names(entries: Seq<StreamEntry>, n: int) -> Seq<Seq<char>>
    decreases n,
{
    if n <= 0 {
        Seq::empty()
    } else {
        let before = trace_names(entries, n - 1);
        if entries[n - 1].encoding == StreamEncoding::OutpostTrace && entries[n - 1].rendered {
            before.push(entries[n - 1].name@)
        } else {
            before
        }
    }
}

/// The rendered traces of a study. The first one draws the axis.
pub fn trace_taps(entries: &Vec<StreamEntry>) -> (r: Vec<String>)
    ensures
        texts(r@) == trace_names(entries@, entries@.len() as int),
{
    let mut out: Vec<String> = Vec::new();
    assert(texts(out@) =~= Seq::empty());
    for i in 0..entries.len()
        invariant
            texts(out@) == trace_names(entries@, i as int),
    {
        if entries[i].encoding == StreamEncoding::OutpostTrace && entries[i].rendered {
            let ghost was = texts(out@);
            out.push(entries[i].name.clone());
            assert(texts(out@) =~= was.push(entries@[i as int].name@));
        }
    }
    out
}

pub const NO_STREAMS: &'static str = "this study recorded no streams — it may predate streams/, or never have started";

pub open spec fn many_traces(taps: Seq<Seq<char>>) -> Seq<char> {
    "this study has "@ + decimal(taps.len()) + " rendered outpost traces ("@ + listed_with(
        taps,
        ", "@,
    ) + "); the first drew the axis and the rest are readable on the Trace card below"@
}

pub open spec fn trace_failed(tap: Seq<char>) -> Seq<char> {
    "the outpost trace '"@ + tap
        + "' could not be decoded, so this chart is drawn on embarch-core's own receipt clock instead. The Trace card below says why."@
}

/// What is noted of a study before its streams are read.
pub open spec fn opening(recorded: bool, taps: Seq<Seq<char>>, failed: bool) -> Seq<Seq<char>> {
    let a = if recorded {
        Seq::empty()
    } else {
        seq![NO_STREAMS@]
    };
    let b = if taps.len() > 1 {
        a.push(many_traces(taps))
    } else {
        a
    };
    if taps.len() > 0 && failed {
        b.push(trace_failed(taps[0]))
    } else {
        b
    }
}

/// What is noted of a study before its streams are read: that it recorded none, that it
/// has several traces, that the first one did not decode.
pub fn opening_notes(recorded: bool, taps: &Vec<String>, failed: bool) -> (r: Vec<String>)
    ensures
        texts(r@) == opening(recorded, texts(taps@), failed),
{
    let mut notes: Vec<String> = Vec::new();
    assert(texts(notes@) =~= Seq::empty());
    if !recorded {
        notes.push(NO_STREAMS.to_owned());
        assert(texts(notes@) =~= seq![NO_STREAMS@]);
    }
    if taps.len() > 1 {
        let ghost was = texts(notes@);
        let mut note = "this study has ".to_owned();
        note.append(dec(taps.len() as u64).as_str());
        note.append(" rendered outpost traces (");
        note.append(join(taps, ", ").as_str());
        note.append(
            "); the first drew the axis and the rest are readable on the Trace card below",
        );
        notes.push(note);
        assert(texts(notes@) =~= was.push(many_traces(texts(taps@))));
    }
    if taps.len() > 0 && failed {
        let ghost was = texts(notes@);
        let mut note = "the outpost trace '".to_owned();
        note.append(taps[0].as_str());
        note.append(
            "' could not be decoded, so this chart is drawn on embarch-core's own receipt clock instead. The Trace card below says why.",
        );
        notes.push(note);
        assert(texts(taps@)[0] == taps@[0]@);
        assert(texts(notes@) =~= was.push(trace_failed(texts(taps@)[0])));
    }
    notes
}

// ---- lanes -------------------------------------------------------------------

/// What a marker is labelled with.
pub open spec fn marker_label(m: TraceMarker) -> Seq<char> {
    if m.label@.len() == 0 {
        "(unnamed, arg "@ + m.arg@ + ")"@
    } else {
        m.label@ + " (arg "@ + m.arg@ + ")"@
    }
}

impl RawLane {
    /// Whether this lane holds a trace's own markers.
    pub open spec fn holds_markers(&self, trace: TraceSummary) -> bool {
        &&& self.key@ == "trace-markers"@
        &&& self.label@ == trace.tap@ + " · markers"@
        &&& self.kind@ == "marker"@
        &&& self.source@ == "trace-markers"@
        &&& self.tap@ == Seq::<char>::empty()
        &&& self.total == trace.markers@.len()
        &&& self.dropped_by_cap == 0
        &&& self.note is None
        &&& self.marks@.len() == 0
        &&& self.native@.len() == trace.markers@.len()
        &&& forall|i: int|
            0 <= i < self.native@.len() ==> {
                &&& (#[trigger] self.native@[i]).t == trace.markers@[i].t
                &&& self.native@[i].row_index == i
                &&& self.native@[i].sub@ == trace.markers@[i].kind@
                &&& self.native@[i].label@ == marker_label(trace.markers@[i])
            }
    }
}

/// The lane of a trace's own markers.
fn marker_lane(trace: &TraceSummary) -> (r: RawLane)
    ensures
        r.holds_markers(*trace),
{
    let mut native: Vec<NativeMark> = Vec::new();
    for i in 0..trace.markers.len()
        invariant
            native.len() == i,
            forall|j: int|
                0 <= j < i ==> {
                    &&& (#[trigger] native@[j]).t == trace.markers@[j].t
                    &&& native@[j].row_index == j
                    &&& native@[j].sub@ == trace.markers@[j].kind@
                    &&& native@[j].label@ == marker_label(trace.markers@[j])
                },
    {
        let m = &trace.markers[i];
        let label = if m.label.as_str().is_empty() {
            let mut label = "(unnamed, arg ".to_owned();
            label.append(m.arg.as_str());
            label.append(")");
            label
        } else {
            let mut label = m.label.clone();
            label.append(" (arg ");
            label.append(m.arg.as_str());
            label.append(")");
            label
        };
        native.push(NativeMark { t: m.t, row_index: i, sub: m.kind.clone(), label });
    }
    let mut label = trace.tap.clone();
    label.append(" · markers");
    let tap = String::new();
    assert(tap@ =~= Seq::empty());
    RawLane {
        key: "trace-markers".to_owned(),
        label,
        kind: "marker",
        source: "trace-markers",
        tap,
        total: trace.markers.len(),
        dropped_by_cap: 0,
        note: None,
        marks: Vec::new(),
        native,
    }
}

/// Whether a stream makes a lane of events.
pub open spec fn makes_lane(e: StreamEntry) -> bool {
    match e.encoding {
        StreamEncoding::GattTranscript => true,
        StreamEncoding::Struct { decoder } => true,
        StreamEncoding::Text => true,
        _ => false,
    }
}

/// How many of the first `n` streams make a lane.
pub open spec fn lanes_made(entries: Seq<StreamEntry>, n: int) -> nat
    decreases n,
{
    if n <= 0 {
        0
    } else {
        lanes_made(entries, n - 1) + if makes_lane(entries[n - 1]) {
            1nat
        } else {
            0
        }
    }
}

pub const CONSOLE_NOTE: &'static str = "A console's capture on disk is bytes and nothing else — embarch-core records no arrival time per chunk for a Text tap — so these lines cannot be placed on any shared axis after the run. They are placeable live, and a Core-side arrival sidecar is what will make them placeable here too.";

/// Of the first pieces between newlines, how many hold anything.
pub open spec fn lines_counted(text: Seq<char>, n: int) -> nat
    decreases n,
{
    if n <= 0 {
        0
    } else {
        lines_counted(text, n - 1) + if split_on(text, '\n')[n - 1].len() > 0 {
            1nat
        } else {
            0
        }
    }
}

/// How many lines of a console a lane counts.
pub open spec fn console_total(text: Seq<char>) -> nat {
    let n = split_on(text, '\n').len() as int;
    lines_counted(
        text,
        if n <= MAX_CONSOLE_LINES_COUNTED {
            n
        } else {
            MAX_CONSOLE_LINES_COUNTED as int
        },
    )
}

/// Whether a console holds more lines than are counted.
pub open spec fn has_more_lines(text: Seq<char>) -> bool {
    lines_counted(text, split_on(text, '\n').len() as int) > console_total(text)
}

/// What is noted of a console: that its lines cannot be placed, and that there are more
/// than the lane counts where there are.
pub open spec fn console_note(text: Seq<char>) -> Seq<char> {
    if has_more_lines(text) {
        "This console holds more than "@ + decimal(console_total(text)) + " lines. "@ + CONSOLE_NOTE@
    } else {
        CONSOLE_NOTE@
    }
}

/// How many lines of a console a lane counts, and whether it holds more.
pub fn count_console_lines(text: &str) -> (r: (usize, bool))
    ensures
        r.0 == console_total(text@),
        r.1 == has_more_lines(text@),
{
    let cs = chars_of(text);
    let pieces = split_chars(cs.as_slice(), '\n');
    assert(char_rows(pieces@) == split_on(text@, '\n'));
    let n: usize = if pieces.len() <= MAX_CONSOLE_LINES_COUNTED {
        pieces.len()
    } else {
        MAX_CONSOLE_LINES_COUNTED
    };
    let mut count: usize = 0;
    for i in 0..n
        invariant
            n <= pieces.len(),
            char_rows(pieces@) == split_on(text@, '\n'),
            count == lines_counted(text@, i as int),
            count <= i,
    {
        assert(split_on(text@, '\n')[i as int] == pieces@[i as int]@);
        if pieces[i].len() > 0 {
            count = count + 1;
        }
    }
    assert(pieces@.len() == split_on(text@, '\n').len());
    for i in n..pieces.len()
        invariant
            n <= pieces.len(),
            char_rows(pieces@) == split_on(text@, '\n'),
            pieces@.len() == split_on(text@, '\n').len(),
            count == console_total(text@),
            lines_counted(text@, i as int) == count,
    {
        assert(split_on(text@, '\n')[i as int] == pieces@[i as int]@);
        if pieces[i].len() > 0 {
            proof {
                lines_counted_grows(text@, i + 1, pieces@.len() as int);
            }
            return (count, true);
        }
    }
    (count, false)
}

fn console_lane_note(total: usize, more: bool) -> (r: String)
    ensures
        r@ == (if more {
            "This console holds more than "@ + decimal(total as nat) + " lines. "@ + CONSOLE_NOTE@
        } else {
            CONSOLE_NOTE@
        }),
{
    if !more {
        return CONSOLE_NOTE.to_owned();
    }
    let mut note = "This console holds more than ".to_owned();
    note.append(dec(total as u64).as_str());
    note.append(" lines. ");
    note.append(CONSOLE_NOTE);
    note
}

proof fn lines_counted_grows(text: Seq<char>, a: int, b: int)
    requires
        0 <= a <= b,
    ensures
        lines_counted(text, a) <= lines_counted(text, b),
    decreases b,
{
    if a < b {
        lines_counted_grows(text, a, b - 1);
    }
}

impl RawLane {
    /// Whether this lane only counts a console's lines.
    pub open spec fn counts_console(&self, tap: Seq<char>, total: nat, note: Seq<char>) -> bool {
        &&& self.key@ == "console:"@ + tap
        &&& self.label@ == tap
        &&& self.kind@ == "console"@
        &&& self.source@ == "text"@
        &&& self.tap@ == tap
        &&& self.total == total
        &&& self.dropped_by_cap == 0
        &&& opt_view(self.note) == Some(note)
        &&& self.marks@.len() == 0
        &&& self.native@.len() == 0
    }

    /// Whether this is the lane that a stream makes, as it was read.
    pub open spec fn is_of(&self, e: StreamEntry, read: TapRead) -> bool {
        match e.encoding {
            StreamEncoding::Text => match read {
                TapRead::Bytes(bytes) => self.counts_console(
                    e.name@,
                    console_total(lossy_utf8(bytes@)),
                    console_note(lossy_utf8(bytes@)),
                ),
                TapRead::Failed(why) => self.counts_console(e.name@, 0, why@),
                _ => true,
            },
            _ => {
                let kind = if e.encoding == StreamEncoding::GattTranscript {
                    "gatt"@
                } else {
                    "struct"@
                };
                if !e.rendered {
                    self.is_empty(e.name@, kind, "rows"@, Some(not_rendered(e)))
                } else {
                    match read {
                        TapRead::Table(table) => self.is_lane_of(e.name@, kind, table@),
                        TapRead::Failed(why) => self.is_empty(
                            e.name@,
                            kind,
                            "rows"@,
                            Some(not_read(e.name@, why@)),
                        ),
                        _ => true,
                    }
                }
            },
        }
    }
}

/// Said of a stream without a rendering.
pub open spec fn not_rendered(e: StreamEntry) -> Seq<char> {
    "tap '"@ + e.name@ + "' has no decoded rendering, so there are no rows to place. "@
        + match e.note {
        Some(why) => why@,
        None => "Core recorded no reason."@,
    }
}

/// Said of a stream that could not be read.
pub open spec fn not_read(tap: Seq<char>, why: Seq<char>) -> Seq<char> {
    "tap '"@ + tap + "' could not be read: "@ + why
}

/// Says that a stream could not be read.
pub fn not_read_note(tap: &str, why: &str) -> (r: String)
    ensures
        r@ == not_read(tap@, why@),
{
    let mut note = "tap '".to_owned();
    note.append(tap);
    note.append("' could not be read: ");
    note.append(why);
    note
}

fn console_lane(tap: &str, total: usize, note: String) -> (r: RawLane)
    ensures
        r.counts_console(tap@, total as nat, note@),
{
    let mut key = "console:".to_owned();
    key.append(tap);
    RawLane {
        key,
        label: tap.to_owned(),
        kind: "console",
        source: "text",
        tap: tap.to_owned(),
        total,
        dropped_by_cap: 0,
        note: Some(note),
        marks: Vec::new(),
        native: Vec::new(),
    }
}

fn lane_of(e: &StreamEntry, read: &TapRead) -> (r: Option<RawLane>)
    requires
        match wants(*e) {
            Wanted::Nothing => true,
            Wanted::Table => *read is Table || *read is Failed,
            Wanted::Text => *read is Bytes || *read is Failed,
        },
    ensures
        r is Some == makes_lane(*e),
        r is Some ==> r->0.is_of(*e, *read),
        r is Some ==> r->0.native@.len() == 0,
{
    let kind = match e.encoding {
        StreamEncoding::GattTranscript => "gatt",
        StreamEncoding::Struct { .. } => "struct",
        StreamEncoding::Text => {
            let lane = match read {
                TapRead::Bytes(bytes) => {
                    let text = lossy_text(bytes.as_slice());
                    let (total, more) = count_console_lines(text.as_str());
                    console_lane(e.name.as_str(), total, console_lane_note(total, more))
                },
                TapRead::Failed(why) => console_lane(e.name.as_str(), 0, why.clone()),
                _ => console_lane(e.name.as_str(), 0, String::new()),
            };
            return Some(lane);
        },
        _ => return None,
    };
    if !e.rendered {
        let mut note = "tap '".to_owned();
        note.append(e.name.as_str());
        note.append("' has no decoded rendering, so there are no rows to place. ");
        match &e.note {
            Some(why) => note.append(why.as_str()),
            None => note.append("Core recorded no reason."),
        }
        return Some(empty_lane(e.name.as_str(), kind, "rows", Some(note)));
    }
    match read {
        TapRead::Table(table) => Some(rows_lane(e.name.as_str(), kind, table)),
        TapRead::Failed(why) => Some(
            empty_lane(
                e.name.as_str(),
                kind,
                "rows",
                Some(not_read_note(e.name.as_str(), why.as_str())),
            ),
        ),
        _ => Some(empty_lane(e.name.as_str(), kind, "rows", None)),
    }
}

/// How many lanes a trace's own markers make.
pub open spec fn marker_lanes(trace: Option<TraceSummary>) -> nat {
    match trace {
        Some(t) if t.markers@.len() > 0 => 1,
        _ => 0,
    }
}

/// Where the lane of stream `i` stands.
pub open spec fn lane_place(trace: Option<TraceSummary>, entries: Seq<StreamEntry>, i: int) -> int {
    marker_lanes(trace) + lanes_made(entries, i) as int
}

/// Whether these are the lanes of a study: a trace's markers first, then one for each
/// stream that makes one, in their order.
pub open spec fn are_lanes(
    lanes: Seq<RawLane>,
    entries: Seq<StreamEntry>,
    reads: Seq<TapRead>,
    trace: Option<TraceSummary>,
) -> bool {
    &&& lanes.len() == marker_lanes(trace) + lanes_made(entries, entries.len() as int)
    &&& marker_lanes(trace) == 1 ==> lanes[0].holds_markers(trace->0)
    &&& forall|i: int|
        0 <= i < entries.len() && makes_lane(#[trigger] entries[i])
            ==> lanes[lane_place(trace, entries, i)].is_of(entries[i], reads[i])
}

proof fn lanes_made_grows(entries: Seq<StreamEntry>, a: int, b: int)
    requires
        0 <= a <= b,
    ensures
        lanes_made(entries, a) <= lanes_made(entries, b),
        a < b && makes_lane(entries[a]) ==> lanes_made(entries, a) < lanes_made(entries, b),
    decreases b,
{
    if a < b {
        lanes_made_grows(entries, a, b - 1);
    }
}

/// The lanes of a study, before an axis exists to place them on.
pub fn raw_lanes(entries: &Vec<StreamEntry>, reads: &Vec<TapRead>, trace: &Option<TraceSummary>) -> (r:
    Vec<RawLane>)
    requires
        answered(entries@, reads@),
    ensures
        are_lanes(r@, entries@, reads@, *trace),
        forall|i: int|
            0 <= i < r@.len() ==> (#[trigger] r@[i]).native@.len() == 0 || r@[i].marks@.len() == 0,
{
    let mut out: Vec<RawLane> = Vec::new();
    if let Some(t) = trace {
        if t.markers.len() > 0 {
            out.push(marker_lane(t));
        }
    }
    for i in 0..entries.len()
        invariant
            answered(entries@, reads@),
            out.len() == marker_lanes(*trace) + lanes_made(entries@, i as int),
            marker_lanes(*trace) == 1 ==> out@[0].holds_markers(trace->0),
            forall|k: int|
                0 <= k < out@.len() ==> (#[trigger] out@[k]).native@.len() == 0
                    || out@[k].marks@.len() == 0,
            forall|k: int|
                0 <= k < i && makes_lane(#[trigger] entries@[k]) ==> out@[lane_place(
                    *trace,
                    entries@,
                    k,
                )].is_of(entries@[k], reads@[k]),
    {
        let ghost was = out@;
        if let Some(lane) = lane_of(&entries[i], &reads[i]) {
            out.push(lane);
        }
        assert forall|k: int| 0 <= k < i + 1 && makes_lane(#[trigger] entries@[k]) implies out@[
        lane_place(*trace, entries@, k)].is_of(entries@[k], reads@[k]) by {
            if k < i {
                lanes_made_grows(entries@, k, i as int);
                assert(out@[lane_place(*trace, entries@, k)]
                    == was[lane_place(*trace, entries@, k)]);
            }
        }
    }
    out
}

// ---- samples -----------------------------------------------------------------

/// Whether a stream is a sample tap with a table to plot.
pub open spec fn is_sampled(e: StreamEntry, read: TapRead) -> bool {
    e.encoding == StreamEncoding::Samples && e.rendered && read is Table
}

/// The places of the sample tables among the first `n` streams.
pub open spec fn sampled_to(entries: Seq<StreamEntry>, reads: Seq<TapRead>, n: int) -> Seq<usize>
    decreases n,
{
    if n <= 0 {
        Seq::empty()
    } else if is_sampled(entries[n - 1], reads[n - 1]) {
        sampled_to(entries, reads, n - 1).push((n - 1) as usize)
    } else {
        sampled_to(entries, reads, n - 1)
    }
}

/// What is noted of the sample taps among the first `n` streams: those that could not be
/// read.
pub open spec fn sample_notes(entries: Seq<StreamEntry>, reads: Seq<TapRead>, n: int) -> Seq<
    Seq<char>,
>
    decreases n,
{
    if n <= 0 {
        Seq::empty()
    } else {
        let before = sample_notes(entries, reads, n - 1);
        let e = entries[n - 1];
        match reads[n - 1] {
            TapRead::Failed(why) if e.encoding == StreamEncoding::Samples && e.rendered => before.push(
                not_read(e.name@, why@),
            ),
            _ => before,
        }
    }
}

/// The places of a study's sample tables. Those that could not be read are noted.
pub fn sample_tables(
    entries: &Vec<StreamEntry>,
    reads: &Vec<TapRead>,
    notes: &mut Vec<String>,
) -> (r: Vec<usize>)
    requires
        answered(entries@, reads@),
    ensures
        r@ == sampled_to(entries@, reads@, entries@.len() as int),
        texts(final(notes)@) == texts(old(notes)@) + sample_notes(
            entries@,
            reads@,
            entries@.len() as int,
        ),
{
    let mut out: Vec<usize> = Vec::new();
    let ghost start = texts(notes@);
    assert(texts(notes@) =~= start + sample_notes(entries@, reads@, 0));
    for i in 0..entries.len()
        invariant
            answered(entries@, reads@),
            start == texts(old(notes)@),
            out@ == sampled_to(entries@, reads@, i as int),
            texts(notes@) == start + sample_notes(entries@, reads@, i as int),
    {
        if entries[i].encoding == StreamEncoding::Samples && entries[i].rendered {
            match &reads[i] {
                TapRead::Table(table) => out.push(i),
                TapRead::Failed(why) => {
                    let ghost was = texts(notes@);
                    let note = not_read_note(entries[i].name.as_str(), why.as_str());
                    notes.push(note);
                    assert(texts(notes@) =~= was.push(note@));
                    assert(texts(notes@) =~= start + sample_notes(entries@, reads@, i + 1));
                },
                _ => {},
            }
        }
    }
    out
}

// ---- the window --------------------------------------------------------------

/// A span of the receipt clock; empty where it begins after it ends.
pub ghost struct Span {
    pub lo: nat,
    pub hi: nat,
}

impl Span {
    pub open spec fn nothing() -> Span {
        Span { lo: u64::MAX as nat, hi: 0 }
    }

    /// The least span that covers this one, begins no later than `lo` and ends no earlier
    /// than `hi`.
    pub open spec fn with(self, lo: nat, hi: nat) -> Span {
        Span {
            lo: if lo < self.lo {
                lo
            } else {
                self.lo
            },
            hi: if hi > self.hi {
                hi
            } else {
                self.hi
            },
        }
    }

    pub open spec fn fits(self) -> bool {
        self.lo <= u64::MAX && self.hi <= u64::MAX
    }

    pub open spec fn within(self, other: Span) -> bool {
        other.lo <= self.lo && self.hi <= other.hi
    }

    pub open spec fn with_steps(self, steps: Seq<StepStamp>) -> Span
        decreases steps.len(),
    {
        if steps.len() == 0 {
            self
        } else {
            self.with_steps(steps.drop_last()).with(
                steps.last().started_utc_ms as nat,
                steps.last().ended_utc_ms as nat,
            )
        }
    }

    pub open spec fn with_marks(self, marks: Seq<RawMark>) -> Span
        decreases marks.len(),
    {
        if marks.len() == 0 {
            self
        } else {
            let ms = marks.last().core_rx_utc_ms as nat;
            self.with_marks(marks.drop_last()).with(ms, ms)
        }
    }

    pub open spec fn with_lanes(self, lanes: Seq<RawLane>) -> Span
        decreases lanes.len(),
    {
        if lanes.len() == 0 {
            self
        } else {
            self.with_lanes(lanes.drop_last()).with_marks(lanes.last().marks@)
        }
    }

    /// With the stamps of the first `n` rows of a table.
    pub open spec fn with_rows(self, g: Grid, n: int) -> Span
        decreases n,
    {
        if n <= 0 {
            self
        } else {
            let before = self.with_rows(g, n - 1);
            match axis_column_of(g.columns) {
                Some(column) => match row_stamp(g.rows[n - 1], column) {
                    Some(ms) => before.with(ms, ms),
                    None => before,
                },
                None => before,
            }
        }
    }

    pub open spec fn with_tables(self, reads: Seq<TapRead>, sampled: Seq<usize>) -> Span
        decreases sampled.len(),
    {
        if sampled.len() == 0 {
            self
        } else {
            let before = self.with_tables(reads, sampled.drop_last());
            match reads[sampled.last() as int] {
                TapRead::Table(table) => before.with_rows(table@, table@.rows.len() as int),
                _ => before,
            }
        }
    }
}

/// The span of everything a study stamped: its step edges and its stamped rows.
pub open spec fn stamped_span(
    steps: Seq<StepStamp>,
    lanes: Seq<RawLane>,
    reads: Seq<TapRead>,
    sampled: Seq<usize>,
) -> Span {
    Span::nothing().with_steps(steps).with_lanes(lanes).with_tables(reads, sampled)
}

struct Reach {
    lo: u64,
    hi: u64,
}

impl Reach {
    spec fn is(&self, s: Span) -> bool {
        self.lo == s.lo && self.hi == s.hi
    }

    fn take(&mut self, lo: u64, hi: u64)
        ensures
            forall|s: Span| #[trigger] old(self).is(s) ==> final(self).is(
                s.with(lo as nat, hi as nat),
            ),
    {
        if lo < self.lo {
            self.lo = lo;
        }
        if hi > self.hi {
            self.hi = hi;
        }
    }
}

fn reach_marks(reach: &mut Reach, marks: &Vec<RawMark>, Ghost(start): Ghost<Span>)
    requires
        old(reach).is(start),
    ensures
        final(reach).is(start.with_marks(marks@)),
{
    assert(marks@.take(0) =~= Seq::empty());
    for i in 0..marks.len()
        invariant
            reach.is(start.with_marks(marks@.take(i as int))),
    {
        assert(marks@.take(i + 1).drop_last() =~= marks@.take(i as int));
        let ms: u64 = marks[i].core_rx_utc_ms;
        reach.take(ms, ms);
    }
    assert(marks@.take(marks@.len() as int) =~= marks@);
}

fn reach_rows(reach: &mut Reach, table: &Table, Ghost(start): Ghost<Span>)
    requires
        old(reach).is(start),
    ensures
        final(reach).is(start.with_rows(table@, table@.rows.len() as int)),
{
    let column = axis_column(table);
    for i in 0..table.rows.len()
        invariant
            crate::studies_api::table::opt_index(column) == axis_column_of(table@.columns),
            reach.is(start.with_rows(table@, i as int)),
    {
        if let Some(c) = column {
            if let Some(ms) = stamp_of(table, i, c) {
                reach.take(ms, ms);
            }
        }
    }
}

/// The window of the receipt clock that covers everything a study stamped, where it
/// stamped anything.
pub fn core_window(
    steps: &Vec<StepStamp>,
    lanes: &Vec<RawLane>,
    reads: &Vec<TapRead>,
    sampled: &Vec<usize>,
) -> (r: Option<(u64, u64)>)
    requires
        forall|i: int| 0 <= i < sampled@.len() ==> (#[trigger] sampled@[i]) < reads@.len(),
    ensures
        ({
            let s = stamped_span(steps@, lanes@, reads@, sampled@);
            r == (if s.lo > s.hi {
                None
            } else {
                Some((s.lo as u64, s.hi as u64))
            })
        }),
        r matches Some((lo, hi)) ==> {
            &&& lo <= hi
            &&& forall|k: int|
                0 <= k < steps@.len() ==> lo <= (#[trigger] steps@[k]).started_utc_ms
                    && steps@[k].ended_utc_ms <= hi
            &&& forall|i: int, k: int|
                0 <= i < lanes@.len() && 0 <= k < lanes@[i].marks@.len() ==> lo <= (
                #[trigger] lanes@[i].marks@[k]).core_rx_utc_ms <= hi
        },
{
    let mut reach = Reach { lo: u64::MAX, hi: 0 };
    let ghost nothing = Span::nothing();
    assert(reach.is(nothing));
    assert(steps@.take(0) =~= Seq::empty());
    for i in 0..steps.len()
        invariant
            reach.is(nothing.with_steps(steps@.take(i as int))),
    {
        assert(steps@.take(i + 1).drop_last() =~= steps@.take(i as int));
        reach.take(steps[i].started_utc_ms, steps[i].ended_utc_ms);
    }
    assert(steps@.take(steps@.len() as int) =~= steps@);
    let ghost stepped = nothing.with_steps(steps@);
    assert(lanes@.take(0) =~= Seq::empty());
    for i in 0..lanes.len()
        invariant
            reach.is(stepped.with_lanes(lanes@.take(i as int))),
    {
        assert(lanes@.take(i + 1).drop_last() =~= lanes@.take(i as int));
        reach_marks(&mut reach, &lanes[i].marks, Ghost(stepped.with_lanes(lanes@.take(i as int))));
    }
    assert(lanes@.take(lanes@.len() as int) =~= lanes@);
    let ghost laned = stepped.with_lanes(lanes@);
    assert(sampled@.take(0) =~= Seq::empty());
    for i in 0..sampled.len()
        invariant
            forall|k: int| 0 <= k < sampled@.len() ==> (#[trigger] sampled@[k]) < reads@.len(),
            reach.is(laned.with_tables(reads@, sampled@.take(i as int))),
    {
        assert(sampled@.take(i + 1).drop_last() =~= sampled@.take(i as int));
        match &reads[sampled[i]] {
            TapRead::Table(table) => {
                reach_rows(
                    &mut reach,
                    table,
                    Ghost(laned.with_tables(reads@, sampled@.take(i as int))),
                );
            },
            _ => {},
        }
    }
    assert(sampled@.take(sampled@.len() as int) =~= sampled@);
    proof {
        a_window_covers_what_was_stamped(steps@, lanes@, reads@, sampled@);
        assert forall|i: int, k: int|
            0 <= i < lanes@.len() && 0 <= k < lanes@[i].marks@.len() implies reach.lo <= (
        #[trigger] lanes@[i].marks@[k]).core_rx_utc_ms <= reach.hi by {
            assert(some_event_at(lanes@, lanes@[i].marks@[k].core_rx_utc_ms as nat));
        }
    }
    if reach.lo > reach.hi {
        None
    } else {
        Some((reach.lo, reach.hi))
    }
}

proof fn with_marks_covers(s: Span, marks: Seq<RawMark>, k: int)
    requires
        0 <= k < marks.len(),
    ensures
        s.with_marks(marks).lo <= marks[k].core_rx_utc_ms <= s.with_marks(marks).hi,
        s.within(s.with_marks(marks)),
    decreases marks.len(),
{
    if k < marks.len() - 1 {
        with_marks_covers(s, marks.drop_last(), k);
    } else {
        with_marks_widens(s, marks.drop_last());
    }
}

proof fn with_marks_widens(s: Span, marks: Seq<RawMark>)
    ensures
        s.within(s.with_marks(marks)),
    decreases marks.len(),
{
    if marks.len() > 0 {
        with_marks_widens(s, marks.drop_last());
    }
}

proof fn with_rows_widens(s: Span, g: Grid, n: int)
    ensures
        s.within(s.with_rows(g, n)),
    decreases n,
{
    if n > 0 {
        with_rows_widens(s, g, n - 1);
    }
}

proof fn with_tables_widens(s: Span, reads: Seq<TapRead>, sampled: Seq<usize>)
    ensures
        s.within(s.with_tables(reads, sampled)),
    decreases sampled.len(),
{
    if sampled.len() > 0 {
        with_tables_widens(s, reads, sampled.drop_last());
        match reads[sampled.last() as int] {
            TapRead::Table(table) => {
                with_rows_widens(
                    s.with_tables(reads, sampled.drop_last()),
                    table@,
                    table@.rows.len() as int,
                );
            },
            _ => {},
        }
    }
}

proof fn with_lanes_covers(s: Span, lanes: Seq<RawLane>, i: int, k: int)
    requires
        0 <= i < lanes.len(),
        0 <= k < lanes[i].marks@.len(),
    ensures
        s.with_lanes(lanes).lo <= lanes[i].marks@[k].core_rx_utc_ms <= s.with_lanes(lanes).hi,
    decreases lanes.len(),
{
    let before = s.with_lanes(lanes.drop_last());
    if i < lanes.len() - 1 {
        with_lanes_covers(s, lanes.drop_last(), i, k);
        with_marks_widens(before, lanes.last().marks@);
    } else {
        with_marks_covers(before, lanes.last().marks@, k);
    }
}

proof fn steps_fit(steps: Seq<StepStamp>)
    ensures
        Span::nothing().with_steps(steps).fits(),
    decreases steps.len(),
{
    if steps.len() > 0 {
        steps_fit(steps.drop_last());
    }
}

proof fn marks_fit(s: Span, marks: Seq<RawMark>)
    requires
        s.fits(),
    ensures
        s.with_marks(marks).fits(),
    decreases marks.len(),
{
    if marks.len() > 0 {
        marks_fit(s, marks.drop_last());
    }
}

proof fn lanes_fit(s: Span, lanes: Seq<RawLane>)
    requires
        s.fits(),
    ensures
        s.with_lanes(lanes).fits(),
    decreases lanes.len(),
{
    if lanes.len() > 0 {
        lanes_fit(s, lanes.drop_last());
        marks_fit(s.with_lanes(lanes.drop_last()), lanes.last().marks@);
    }
}

proof fn rows_fit(s: Span, g: Grid, n: int)
    requires
        s.fits(),
    ensures
        s.with_rows(g, n).fits(),
    decreases n,
{
    if n > 0 {
        rows_fit(s, g, n - 1);
    }
}

proof fn tables_fit(s: Span, reads: Seq<TapRead>, sampled: Seq<usize>)
    requires
        s.fits(),
    ensures
        s.with_tables(reads, sampled).fits(),
    decreases sampled.len(),
{
    if sampled.len() > 0 {
        tables_fit(s, reads, sampled.drop_last());
        match reads[sampled.last() as int] {
            TapRead::Table(table) => {
                rows_fit(
                    s.with_tables(reads, sampled.drop_last()),
                    table@,
                    table@.rows.len() as int,
                );
            },
            _ => {},
        }
    }
}

/// The receipt stamp of row `j` of a table, where the table has one.
pub open spec fn received(g: Grid, j: int) -> Option<nat> {
    match axis_column_of(g.columns) {
        Some(column) => row_stamp(g.rows[j], column),
        None => None,
    }
}

/// Whether an event of some lane was received at `ms`.
pub open spec fn some_event_at(lanes: Seq<RawLane>, ms: nat) -> bool {
    exists|i: int, k: int|
        0 <= i < lanes.len() && 0 <= k < lanes[i].marks@.len() && (
        #[trigger] lanes[i].marks@[k]).core_rx_utc_ms == ms
}

/// Whether a row of some sample table was received at `ms`.
pub open spec fn some_sample_at(reads: Seq<TapRead>, sampled: Seq<usize>, ms: nat) -> bool {
    exists|i: int, j: int|
        #![trigger sampled[i], received(reads[sampled[i] as int]->Table_0@, j)]
        0 <= i < sampled.len() && reads[sampled[i] as int] is Table && 0 <= j
            < reads[sampled[i] as int]->Table_0@.rows.len() && received(
            reads[sampled[i] as int]->Table_0@,
            j,
        ) == Some(ms)
}

proof fn steps_are_covered(s: Span, steps: Seq<StepStamp>)
    ensures
        s.within(s.with_steps(steps)),
        forall|k: int|
            0 <= k < steps.len() ==> s.with_steps(steps).lo <= (#[trigger] steps[k]).started_utc_ms
                && steps[k].ended_utc_ms <= s.with_steps(steps).hi,
        s.with_steps(steps).lo == s.lo || exists|k: int|
            0 <= k < steps.len() && s.with_steps(steps).lo == (#[trigger] steps[k]).started_utc_ms,
        s.with_steps(steps).hi == s.hi || exists|k: int|
            0 <= k < steps.len() && s.with_steps(steps).hi == (#[trigger] steps[k]).ended_utc_ms,
    decreases steps.len(),
{
    if steps.len() > 0 {
        let fewer = steps.drop_last();
        let n = steps.len() - 1;
        steps_are_covered(s, fewer);
        let before = s.with_steps(fewer);
        let now = s.with_steps(steps);
        assert forall|k: int| 0 <= k < steps.len() implies now.lo <= (
        #[trigger] steps[k]).started_utc_ms && steps[k].ended_utc_ms <= now.hi by {
            if k < n {
                assert(fewer[k] == steps[k]);
            }
        }
        if now.lo != s.lo {
            if now.lo == before.lo {
                let k = choose|k: int|
                    0 <= k < fewer.len() && before.lo == (#[trigger] fewer[k]).started_utc_ms;
                assert(steps[k].started_utc_ms == now.lo);
            } else {
                assert(steps[n].started_utc_ms == now.lo);
            }
        }
        if now.hi != s.hi {
            if now.hi == before.hi {
                let k = choose|k: int|
                    0 <= k < fewer.len() && before.hi == (#[trigger] fewer[k]).ended_utc_ms;
                assert(steps[k].ended_utc_ms == now.hi);
            } else {
                assert(steps[n].ended_utc_ms == now.hi);
            }
        }
    }
}

proof fn marks_are_met(s: Span, marks: Seq<RawMark>)
    ensures
        s.with_marks(marks).lo == s.lo || exists|k: int|
            0 <= k < marks.len() && s.with_marks(marks).lo == (#[trigger] marks[k]).core_rx_utc_ms,
        s.with_marks(marks).hi == s.hi || exists|k: int|
            0 <= k < marks.len() && s.with_marks(marks).hi == (#[trigger] marks[k]).core_rx_utc_ms,
    decreases marks.len(),
{
    if marks.len() > 0 {
        let fewer = marks.drop_last();
        let n = marks.len() - 1;
        marks_are_met(s, fewer);
        let before = s.with_marks(fewer);
        let now = s.with_marks(marks);
        if now.lo != s.lo {
            if now.lo == before.lo {
                let k = choose|k: int|
                    0 <= k < fewer.len() && before.lo == (#[trigger] fewer[k]).core_rx_utc_ms;
                assert(marks[k].core_rx_utc_ms == now.lo);
            } else {
                assert(marks[n].core_rx_utc_ms == now.lo);
            }
        }
        if now.hi != s.hi {
            if now.hi == before.hi {
                let k = choose|k: int|
                    0 <= k < fewer.len() && before.hi == (#[trigger] fewer[k]).core_rx_utc_ms;
                assert(marks[k].core_rx_utc_ms == now.hi);
            } else {
                assert(marks[n].core_rx_utc_ms == now.hi);
            }
        }
    }
}

proof fn events_stay(lanes: Seq<RawLane>, ms: nat)
    requires
        lanes.len() > 0,
        some_event_at(lanes.drop_last(), ms),
    ensures
        some_event_at(lanes, ms),
{
    let fewer = lanes.drop_last();
    let (i, k) = choose|i: int, k: int|
        0 <= i < fewer.len() && 0 <= k < fewer[i].marks@.len() && (
        #[trigger] fewer[i].marks@[k]).core_rx_utc_ms == ms;
    assert(lanes[i].marks@[k].core_rx_utc_ms == ms);
}

proof fn events_are_met(s: Span, lanes: Seq<RawLane>)
    ensures
        s.with_lanes(lanes).lo == s.lo || some_event_at(lanes, s.with_lanes(lanes).lo),
        s.with_lanes(lanes).hi == s.hi || some_event_at(lanes, s.with_lanes(lanes).hi),
    decreases lanes.len(),
{
    if lanes.len() > 0 {
        let fewer = lanes.drop_last();
        let n = lanes.len() - 1;
        events_are_met(s, fewer);
        let before = s.with_lanes(fewer);
        let now = s.with_lanes(lanes);
        marks_are_met(before, lanes.last().marks@);
        if now.lo != s.lo {
            if now.lo == before.lo {
                events_stay(lanes, now.lo);
            } else {
                let k = choose|k: int|
                    0 <= k < lanes.last().marks@.len() && now.lo == (
                    #[trigger] lanes.last().marks@[k]).core_rx_utc_ms;
                assert(lanes[n].marks@[k].core_rx_utc_ms == now.lo);
            }
        }
        if now.hi != s.hi {
            if now.hi == before.hi {
                events_stay(lanes, now.hi);
            } else {
                let k = choose|k: int|
                    0 <= k < lanes.last().marks@.len() && now.hi == (
                    #[trigger] lanes.last().marks@[k]).core_rx_utc_ms;
                assert(lanes[n].marks@[k].core_rx_utc_ms == now.hi);
            }
        }
    }
}

proof fn with_lanes_widens(s: Span, lanes: Seq<RawLane>)
    ensures
        s.within(s.with_lanes(lanes)),
    decreases lanes.len(),
{
    if lanes.len() > 0 {
        with_lanes_widens(s, lanes.drop_last());
        with_marks_widens(s.with_lanes(lanes.drop_last()), lanes.last().marks@);
    }
}

proof fn rows_are_covered(s: Span, g: Grid, n: int)
    requires
        0 <= n,
    ensures
        forall|j: int|
            0 <= j < n && #[trigger] received(g, j) is Some ==> s.with_rows(g, n).lo <= received(
                g,
                j,
            )->0 <= s.with_rows(g, n).hi,
        s.with_rows(g, n).lo == s.lo || exists|j: int|
            0 <= j < n && #[trigger] received(g, j) == Some(s.with_rows(g, n).lo),
        s.with_rows(g, n).hi == s.hi || exists|j: int|
            0 <= j < n && #[trigger] received(g, j) == Some(s.with_rows(g, n).hi),
    decreases n,
{
    if n > 0 {
        rows_are_covered(s, g, n - 1);
        let before = s.with_rows(g, n - 1);
        let now = s.with_rows(g, n);
        let last = received(g, n - 1);
        assert(now == (match last {
            Some(ms) => before.with(ms, ms),
            None => before,
        }));
        if now.lo != s.lo && now.lo == before.lo {
            let j = choose|j: int| 0 <= j < n - 1 && #[trigger] received(g, j) == Some(before.lo);
            assert(received(g, j) == Some(now.lo));
        }
        if now.hi != s.hi && now.hi == before.hi {
            let j = choose|j: int| 0 <= j < n - 1 && #[trigger] received(g, j) == Some(before.hi);
            assert(received(g, j) == Some(now.hi));
        }
    }
}

proof fn samples_stay(reads: Seq<TapRead>, sampled: Seq<usize>, ms: nat)
    requires
        sampled.len() > 0,
        some_sample_at(reads, sampled.drop_last(), ms),
    ensures
        some_sample_at(reads, sampled, ms),
{
    let fewer = sampled.drop_last();
    let (i, j) = choose|i: int, j: int|
        #![trigger fewer[i], received(reads[fewer[i] as int]->Table_0@, j)]
        0 <= i < fewer.len() && reads[fewer[i] as int] is Table && 0 <= j
            < reads[fewer[i] as int]->Table_0@.rows.len() && received(
            reads[fewer[i] as int]->Table_0@,
            j,
        ) == Some(ms);
    assert(sampled[i] == fewer[i]);
    assert(received(reads[sampled[i] as int]->Table_0@, j) == Some(ms));
}

proof fn samples_are_covered(s: Span, reads: Seq<TapRead>, sampled: Seq<usize>)
    ensures
        forall|ms: nat|
            #[trigger] some_sample_at(reads, sampled, ms) ==> s.with_tables(reads, sampled).lo <= ms
                <= s.with_tables(reads, sampled).hi,
        s.with_tables(reads, sampled).lo == s.lo || some_sample_at(
            reads,
            sampled,
            s.with_tables(reads, sampled).lo,
        ),
        s.with_tables(reads, sampled).hi == s.hi || some_sample_at(
            reads,
            sampled,
            s.with_tables(reads, sampled).hi,
        ),
    decreases sampled.len(),
{
    let now = s.with_tables(reads, sampled);
    if sampled.len() > 0 {
        let fewer = sampled.drop_last();
        let n = sampled.len() - 1;
        samples_are_covered(s, reads, fewer);
        let before = s.with_tables(reads, fewer);
        let read = reads[sampled.last() as int];
        let g = read->Table_0@;
        let rows = g.rows.len() as int;
        if read is Table {
            rows_are_covered(before, g, rows);
            with_rows_widens(before, g, rows);
        }
        assert forall|ms: nat| #[trigger] some_sample_at(reads, sampled, ms) implies now.lo <= ms
            <= now.hi by {
            let (i, j) = choose|i: int, j: int|
                #![trigger sampled[i], received(reads[sampled[i] as int]->Table_0@, j)]
                0 <= i < sampled.len() && reads[sampled[i] as int] is Table && 0 <= j
                    < reads[sampled[i] as int]->Table_0@.rows.len() && received(
                    reads[sampled[i] as int]->Table_0@,
                    j,
                ) == Some(ms);
            if i < n {
                assert(fewer[i] == sampled[i]);
                assert(received(reads[fewer[i] as int]->Table_0@, j) == Some(ms));
                assert(some_sample_at(reads, fewer, ms));
            } else {
                assert(received(g, j) == Some(ms));
            }
        }
        if now.lo != s.lo {
            if now.lo == before.lo {
                samples_stay(reads, sampled, now.lo);
            } else {
                let j = choose|j: int| 0 <= j < rows && #[trigger] received(g, j) == Some(now.lo);
                assert(sampled[n] == sampled.last());
                assert(received(reads[sampled[n] as int]->Table_0@, j) == Some(now.lo));
            }
        }
        if now.hi != s.hi {
            if now.hi == before.hi {
                samples_stay(reads, sampled, now.hi);
            } else {
                let j = choose|j: int| 0 <= j < rows && #[trigger] received(g, j) == Some(now.hi);
                assert(sampled[n] == sampled.last());
                assert(received(reads[sampled[n] as int]->Table_0@, j) == Some(now.hi));
            }
        }
    } else {
        assert forall|ms: nat| #[trigger] some_sample_at(reads, sampled, ms) implies now.lo <= ms
            <= now.hi by {}
    }
}

/// The window of a study covers both edges of every step, every event and every sample,
/// and ends at one of them on each side. There is none only where nothing was received
/// and no step ends after one begins.
pub proof fn a_window_covers_what_was_stamped(
    steps: Seq<StepStamp>,
    lanes: Seq<RawLane>,
    reads: Seq<TapRead>,
    sampled: Seq<usize>,
)
    ensures
        ({
            let s = stamped_span(steps, lanes, reads, sampled);
            &&& s.fits()
            &&& forall|k: int|
                0 <= k < steps.len() ==> s.lo <= (#[trigger] steps[k]).started_utc_ms
                    && steps[k].ended_utc_ms <= s.hi
            &&& forall|ms: nat| #[trigger] some_event_at(lanes, ms) ==> s.lo <= ms <= s.hi
            &&& forall|ms: nat|
                #[trigger] some_sample_at(reads, sampled, ms) ==> s.lo <= ms <= s.hi
            &&& s.lo > s.hi ==> {
                &&& forall|ms: nat| !#[trigger] some_event_at(lanes, ms)
                &&& forall|ms: nat| !#[trigger] some_sample_at(reads, sampled, ms)
                &&& forall|j: int, k: int|
                    0 <= j < steps.len() && 0 <= k < steps.len() ==> (
                    #[trigger] steps[j]).started_utc_ms > (#[trigger] steps[k]).ended_utc_ms
            }
            &&& s.lo <= s.hi ==> {
                &&& some_event_at(lanes, s.lo) || some_sample_at(reads, sampled, s.lo)
                    || exists|k: int|
                    0 <= k < steps.len() && s.lo == (#[trigger] steps[k]).started_utc_ms
                &&& some_event_at(lanes, s.hi) || some_sample_at(reads, sampled, s.hi)
                    || exists|k: int|
                    0 <= k < steps.len() && s.hi == (#[trigger] steps[k]).ended_utc_ms
            }
        }),
{
    let nothing = Span::nothing();
    let stepped = nothing.with_steps(steps);
    let laned = stepped.with_lanes(lanes);
    steps_fit(steps);
    lanes_fit(stepped, lanes);
    tables_fit(laned, reads, sampled);
    steps_are_covered(nothing, steps);
    with_lanes_widens(stepped, lanes);
    events_are_met(stepped, lanes);
    with_tables_widens(laned, reads, sampled);
    samples_are_covered(laned, reads, sampled);
    assert forall|ms: nat| #[trigger] some_event_at(lanes, ms) implies laned.lo <= ms <= laned.hi by {
        let (i, k) = choose|i: int, k: int|
            0 <= i < lanes.len() && 0 <= k < lanes[i].marks@.len() && (
            #[trigger] lanes[i].marks@[k]).core_rx_utc_ms == ms;
        with_lanes_covers(stepped, lanes, i, k);
    }
}

/// Drawn on the receipt clock over everything a study stamped, every event has a
/// position, and stands exactly where it was received.
pub proof fn every_event_stands_on_the_receipt_clock(
    steps: Seq<StepStamp>,
    lanes: Seq<RawLane>,
    reads: Seq<TapRead>,
    sampled: Seq<usize>,
    i: int,
    k: int,
)
    requires
        0 <= i < lanes.len(),
        0 <= k < lanes[i].marks@.len(),
    ensures
        ({
            let s = stamped_span(steps, lanes, reads, sampled);
            let ms = lanes[i].marks@[k].core_rx_utc_ms;
            let p = Projection::CoreClock { from_ms: s.lo as u64, to_ms: s.hi as u64 };
            &&& s.lo <= s.hi
            &&& p.position(ms) == Some(ms)
        }),
{
    let stepped = Span::nothing().with_steps(steps);
    steps_fit(steps);
    lanes_fit(stepped, lanes);
    tables_fit(stepped.with_lanes(lanes), reads, sampled);
    with_lanes_covers(stepped, lanes, i, k);
    with_tables_widens(stepped.with_lanes(lanes), reads, sampled);
}

/// Whether what happens live in `event` is what the stream `e` records.
pub open spec fn records(e: StreamEntry, event: StudyEvent) -> bool {
    match event {
        StudyEvent::StreamText { stream_name, .. } => e.encoding == StreamEncoding::Text && e.name@
            == stream_name@,
        StudyEvent::GattTranscript { .. } => e.encoding == StreamEncoding::GattTranscript && e.name@
            == AUTO_TRANSCRIPT_TAP_NAME@,
        _ => false,
    }
}

/// A run that is watched and the same run reloaded are one chart: what a stream says live
/// is marked on the lane whose key the finished chart gives that stream, and on no other.
pub proof fn a_reload_keeps_every_lane(
    s: Session,
    event: StudyEvent,
    e: StreamEntry,
    read: TapRead,
    lane: RawLane,
    other: Seq<char>,
)
    requires
        records(e, event),
        answered(seq![e], seq![read]),
        lane.is_of(e, read),
        other != lane.key@,
    ensures
        s.after_event(event).lanes.contains_key(other) == s.lanes.contains_key(other),
        s.after_event(event).lanes[other] == s.lanes[other],
{
    assert(wants(seq![e][0]) == wants(e));
    assert(seq![read][0] == read);
    reveal_strlit("gatt");
    reveal_strlit(":");
    reveal_strlit("gatt:gatt");
    assert("gatt"@ + ":"@ + "gatt"@ =~= "gatt:gatt"@);
    if let StudyEvent::StreamText { stream_name, step_index, rx_utc_ms, core_rx_utc_ms, text } =
        event {
        if let Some(at) = core_rx_utc_ms {
            let stamp = Stamp { step_index, rx_utc_ms };
            marks_change_only_their_lane(
                s.chunked(stream_name@, stamp, text@),
                "console:"@ + stream_name@,
                stream_name@,
                at,
                s.chunk_lines(stream_name@, stamp, text@),
                other,
            );
        }
    }
}

// ---- laws --------------------------------------------------------------------

/// A console is always read as text, a transcript, a decoded stream and a sample stream as a
/// table where they were rendered, and nothing else is read.
pub proof fn each_stream_is_read_as_what_it_is(e: StreamEntry)
    ensures
        wants(e) is Text <==> e.encoding is Text,
        wants(e) is Table <==> e.rendered && (e.encoding is GattTranscript || e.encoding is Struct
            || e.encoding is Samples),
        makes_lane(e) <==> e.encoding is GattTranscript || e.encoding is Struct || e.encoding is Text,
{
}

/// The traces are the rendered ones, and the first of them is the first among the streams.
pub proof fn a_rendered_trace_is_listed(entries: Seq<StreamEntry>, n: int, name: Seq<char>)
    requires
        0 <= n <= entries.len(),
    ensures
        trace_names(entries, n).contains(name) <==> exists|i: int|
            0 <= i < n && (#[trigger] entries[i]).name@ == name && entries[i].rendered
                && entries[i].encoding is OutpostTrace,
        trace_names(entries, n).len() == entries.take(n).filter(
            |e: StreamEntry| e.rendered && e.encoding is OutpostTrace,
        ).len(),
        trace_names(entries, n).len() > 0 ==> exists|i: int|
            0 <= i < n && (#[trigger] entries[i]).name@ == trace_names(entries, n)[0]
                && entries[i].rendered && entries[i].encoding is OutpostTrace && forall|j: int|
                0 <= j < i ==> !((#[trigger] entries[j]).rendered
                    && entries[j].encoding is OutpostTrace),
        trace_names(entries, n).len() == 0 ==> forall|j: int|
            0 <= j < n ==> !((#[trigger] entries[j]).rendered
                && entries[j].encoding is OutpostTrace),
    decreases n,
{
    reveal(Seq::filter);
    if n > 0 {
        a_rendered_trace_is_listed(entries, n - 1, name);
        assert(entries.take(n).drop_last() =~= entries.take(n - 1));
        assert(entries.take(n).last() == entries[n - 1]);
        let before = trace_names(entries, n - 1);
        let now = trace_names(entries, n);
        let e = entries[n - 1];
        if now.contains(name) {
            let k = choose|k: int| 0 <= k < now.len() && now[k] == name;
            if k < before.len() {
                assert(before[k] == name);
                assert(before.contains(name));
            } else {
                assert(e.name@ == name);
            }
        }
        if before.contains(name) {
            let k = choose|k: int| 0 <= k < before.len() && before[k] == name;
            assert(now[k] == name);
        }
        if e.rendered && e.encoding is OutpostTrace {
            assert(now[now.len() - 1] == e.name@);
            if before.len() == 0 {
                assert(e.name@ == now[0]);
            } else {
                assert(now[0] == before[0]);
            }
        }
    } else {
        assert(entries.take(0) =~= Seq::empty());
    }
}

/// Each stream that makes a lane makes one, and no other does.
pub proof fn a_stream_makes_at_most_one_lane(entries: Seq<StreamEntry>, n: int)
    requires
        0 <= n <= entries.len(),
    ensures
        lanes_made(entries, n) == entries.take(n).filter(
            |e: StreamEntry|
                e.encoding is GattTranscript || e.encoding is Struct || e.encoding is Text,
        ).len(),
    decreases n,
{
    reveal(Seq::filter);
    if n > 0 {
        a_stream_makes_at_most_one_lane(entries, n - 1);
        assert(entries.take(n).drop_last() =~= entries.take(n - 1));
        assert(entries.take(n).last() == entries[n - 1]);
    }
}

proof fn lines_are_counted(text: Seq<char>, n: int)
    requires
        0 <= n <= split_on(text, '\n').len(),
    ensures
        lines_counted(text, n) == split_on(text, '\n').take(n).filter(
            |line: Seq<char>| line.len() > 0,
        ).len(),
        lines_counted(text, n) <= n,
    decreases n,
{
    reveal(Seq::filter);
    if n > 0 {
        lines_are_counted(text, n - 1);
        let pieces = split_on(text, '\n');
        assert(pieces.take(n).drop_last() =~= pieces.take(n - 1));
        assert(pieces.take(n).last() == pieces[n - 1]);
    }
}

/// A console counts the lines that hold anything, every one of them where it has no more than
/// two million, and says that there are more only where there are.
pub proof fn a_console_counts_what_it_holds(text: Seq<char>)
    ensures
        ({
            let pieces = split_on(text, '\n');
            let held = pieces.filter(|line: Seq<char>| line.len() > 0).len();
            &&& console_total(text) <= held
            &&& console_total(text) <= 2_000_000
            &&& pieces.len() <= 2_000_000 ==> console_total(text) == held
            &&& has_more_lines(text) <==> held > console_total(text)
        }),
{
    let pieces = split_on(text, '\n');
    let n = pieces.len() as int;
    assert(pieces.take(n) =~= pieces);
    lines_are_counted(text, n);
    if n > 2_000_000 {
        lines_are_counted(text, 2_000_000);
        lines_counted_grows(text, 2_000_000, n);
    }
}

/// A stream is plotted exactly where it is a sample stream that was rendered and read as a
/// table; each is listed once, in the order of the streams.
pub proof fn a_sample_table_is_plotted(
    entries: Seq<StreamEntry>,
    reads: Seq<TapRead>,
    n: int,
    i: usize,
)
    requires
        0 <= n <= entries.len() <= usize::MAX,
        entries.len() == reads.len(),
    ensures
        sampled_to(entries, reads, n).contains(i) <==> i < n && entries[i as int].encoding is Samples
            && entries[i as int].rendered && reads[i as int] is Table,
        forall|j: int, k: int|
            0 <= j < k < sampled_to(entries, reads, n).len() ==> (#[trigger] sampled_to(
                entries,
                reads,
                n,
            )[j]) < (#[trigger] sampled_to(entries, reads, n)[k]),
        forall|k: int|
            0 <= k < sampled_to(entries, reads, n).len() ==> (#[trigger] sampled_to(
                entries,
                reads,
                n,
            )[k]) < n,
    decreases n,
{
    if n > 0 {
        a_sample_table_is_plotted(entries, reads, n - 1, i);
        let before = sampled_to(entries, reads, n - 1);
        let now = sampled_to(entries, reads, n);
        if now.contains(i) {
            let k = choose|k: int| 0 <= k < now.len() && now[k] == i;
            if k < before.len() {
                assert(before[k] == i);
                assert(before.contains(i));
            }
        }
        if before.contains(i) {
            let k = choose|k: int| 0 <= k < before.len() && before[k] == i;
            assert(now[k] == i);
        }
        if is_sampled(entries[n - 1], reads[n - 1]) {
            assert(now[now.len() - 1] == n - 1);
        }
    }
}

/// A sample stream that could not be read is noted with its name and the reason, and nothing
/// else is noted.
pub proof fn a_sample_stream_that_fails_is_noted(
    entries: Seq<StreamEntry>,
    reads: Seq<TapRead>,
    n: int,
)
    requires
        0 <= n <= entries.len(),
        entries.len() == reads.len(),
    ensures
        forall|i: int|
            0 <= i < n && (#[trigger] entries[i]).encoding is Samples && entries[i].rendered
                && reads[i] is Failed ==> sample_notes(entries, reads, n).contains(
                "tap '"@ + entries[i].name@ + "' could not be read: "@ + reads[i]->Failed_0@,
            ),
        sample_notes(entries, reads, n).len() == Seq::new(n as nat, |i: int| i).filter(
            |i: int|
                entries[i].encoding is Samples && entries[i].rendered && reads[i] is Failed,
        ).len(),
    decreases n,
{
    reveal(Seq::filter);
    let all = Seq::new(n as nat, |i: int| i);
    if n > 0 {
        a_sample_stream_that_fails_is_noted(entries, reads, n - 1);
        assert(all.drop_last() =~= Seq::new((n - 1) as nat, |i: int| i));
        let before = sample_notes(entries, reads, n - 1);
        let now = sample_notes(entries, reads, n);
        assert forall|i: int|
            0 <= i < n && (#[trigger] entries[i]).encoding is Samples && entries[i].rendered
                && reads[i] is Failed implies now.contains(
            "tap '"@ + entries[i].name@ + "' could not be read: "@ + reads[i]->Failed_0@,
        ) by {
            let note = "tap '"@ + entries[i].name@ + "' could not be read: "@ + reads[i]->Failed_0@;
            if i < n - 1 {
                assert(before.contains(note));
                let k = choose|k: int| 0 <= k < before.len() && before[k] == note;
                assert(now[k] == note);
            } else {
                assert(now[now.len() - 1] == note);
            }
        }
    } else {
        assert(all =~= Seq::empty());
    }
}

/// A study is noted to have recorded nothing exactly where it did, to have several traces
/// where it has, and to have one that did not decode where the first did not.
pub proof fn an_opening_note_has_a_cause(recorded: bool, taps: Seq<Seq<char>>, failed: bool)
    ensures
        ({
            let notes = opening(recorded, taps, failed);
            &&& !recorded ==> notes.contains(NO_STREAMS@)
            &&& taps.len() > 1 ==> notes.contains(many_traces(taps))
            &&& taps.len() > 0 && failed ==> notes.contains(trace_failed(taps[0]))
            &&& notes.len() == 0 <==> recorded && taps.len() <= 1 && !(taps.len() > 0 && failed)
            &&& notes.len() == (if recorded {
                0int
            } else {
                1
            }) + (if taps.len() > 1 {
                1int
            } else {
                0
            }) + (if taps.len() > 0 && failed {
                1int
            } else {
                0
            })
        }),
{
    let notes = opening(recorded, taps, failed);
    if !recorded {
        assert(notes[0] == NO_STREAMS@);
    }
    if taps.len() > 1 {
        let at = if recorded {
            0int
        } else {
            1
        };
        assert(notes[at] == many_traces(taps));
    }
    if taps.len() > 0 && failed {
        assert(notes[notes.len() - 1] == trace_failed(taps[0]));
    }
}

/// A stream's lane is keyed by what it is and by its name, counts nothing it could not read,
/// and says why wherever it has no rows.
pub proof fn a_lane_says_what_it_is_of(lane: RawLane, e: StreamEntry, read: TapRead)
    requires
        lane.is_of(e, read),
        answered(seq![e], seq![read]),
        makes_lane(e),
    ensures
        e.encoding is Text ==> lane.key@ == "console:"@ + e.name@ && lane.marks@.len() == 0,
        e.encoding is GattTranscript ==> lane.key@ == "gatt:"@ + e.name@,
        e.encoding is Struct ==> lane.key@ == "struct:"@ + e.name@,
        lane.tap@ == e.name@,
        lane.label@ == e.name@,
        lane.native@.len() == 0,
        read is Failed && (e.rendered || e.encoding is Text) ==> lane.total == 0 && lane.note is Some
            && lane.marks@.len() == 0,
        !e.rendered && !(e.encoding is Text) ==> lane.total == 0 && lane.note is Some
            && lane.marks@.len() == 0,
        e.rendered && !(e.encoding is Text) && read is Table && lane.note is None ==> lane.total
            == read->Table_0@.rows.len(),
{
    assert(seq![e][0] == e);
    reveal_strlit("gatt:");
    reveal_strlit("struct:");
    reveal_strlit("gatt");
    reveal_strlit("struct");
    reveal_strlit(":");
    assert("gatt"@ + ":"@ =~= "gatt:"@);
    assert("struct"@ + ":"@ =~= "struct:"@);
}

/// A trace's marker is labelled with its number, and with its name where it has one.
pub proof fn a_marker_is_labelled_with_its_number(m: TraceMarker)
    ensures
        m.label@.len() > 0 ==> marker_label(m) == m.label@ + " (arg "@ + m.arg@ + ")"@,
        m.label@.len() == 0 ==> marker_label(m) == "(unnamed, arg "@ + m.arg@ + ")"@,
{
}

/// Each stream that makes a lane has its own: behind the trace's markers, where there are
/// any, and behind the lanes of the streams before it.
pub proof fn each_stream_has_its_own_lane(
    lanes: Seq<RawLane>,
    entries: Seq<StreamEntry>,
    reads: Seq<TapRead>,
    trace: Option<TraceSummary>,
    i: int,
)
    requires
        are_lanes(lanes, entries, reads, trace),
        0 <= i < entries.len(),
        entries[i].encoding is GattTranscript || entries[i].encoding is Struct
            || entries[i].encoding is Text,
    ensures
        ({
            let markers = if trace is Some && trace->0.markers@.len() > 0 {
                1int
            } else {
                0
            };
            let ahead = entries.take(i).filter(
                |e: StreamEntry|
                    e.encoding is GattTranscript || e.encoding is Struct || e.encoding is Text,
            ).len();
            &&& markers + ahead < lanes.len()
            &&& lanes[markers + ahead].is_of(entries[i], reads[i])
            &&& markers == 1 ==> lanes[0].holds_markers(trace->0)
            &&& lanes.len() == markers + entries.filter(
                |e: StreamEntry|
                    e.encoding is GattTranscript || e.encoding is Struct || e.encoding is Text,
            ).len()
        }),
{
    let n = entries.len() as int;
    a_stream_makes_at_most_one_lane(entries, i);
    a_stream_makes_at_most_one_lane(entries, n);
    assert(entries.take(n) =~= entries);
    assert(makes_lane(entries[i]));
    lanes_made_grows(entries, i + 1, n);
    assert(lanes_made(entries, i + 1) == lanes_made(entries, i) + 1);
}

/// Each of a trace's markers is kept at its own time, under its own kind and in its order.
pub proof fn each_marker_is_kept_at_its_time(lane: RawLane, trace: TraceSummary, i: int)
    requires
        lane.holds_markers(trace),
        0 <= i < trace.markers@.len(),
    ensures
        lane.native@.len() == trace.markers@.len(),
        lane.total == trace.markers@.len(),
        lane.marks@.len() == 0,
        lane.native@[i].t == trace.markers@[i].t,
        lane.native@[i].row_index == i,
        lane.native@[i].sub@ == trace.markers@[i].kind@,
        lane.native@[i].label@ == marker_label(trace.markers@[i]),
        lane.key@ == "trace-markers"@,
{
    assert(lane.native@[i].t == trace.markers@[i].t);
}

/// The lane of a console counts the lines that were read, says why none of them is placed,
/// and holds no mark.
pub proof fn a_console_lane_counts_its_lines(lane: RawLane, e: StreamEntry, read: TapRead)
    requires
        lane.is_of(e, read),
        e.encoding is Text,
        read is Bytes || read is Failed,
    ensures
        lane.kind@ == "console"@,
        lane.source@ == "text"@,
        lane.dropped_by_cap == 0,
        lane.marks@.len() == 0,
        lane.native@.len() == 0,
        read is Bytes ==> lane.total == console_total(lossy_utf8(read->Bytes_0@)),
        read is Bytes && !has_more_lines(lossy_utf8(read->Bytes_0@)) ==> lane.note->0@
            == CONSOLE_NOTE@,
        read is Failed ==> lane.total == 0 && lane.note->0@ == read->Failed_0@,
        lane.note is Some,
{
}

} // verus!
