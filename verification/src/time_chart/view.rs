//! One study, every stream it produced, on one axis: the whole chart, and the windows
//! of it that are drawn.

use vstd::prelude::*;
use vstd::string::*;
use crate::live_study::session::StepStamp;
use crate::projection::Projection;
use crate::sorting::{sorted_order, stable_order};
use crate::streams::StreamEntry;
use crate::studies_api::table::Table;
use crate::text::{copy_opt, dec, decimal, opt_view, same, texts};
use crate::time_chart::axis::{axis_notes, describe_axis, Axis};
use crate::time_chart::gather::{
    answered, are_lanes, core_window, opening, opening_notes, raw_lanes, sample_notes,
    sample_tables, sampled_to, stamped_span, trace_names, trace_taps, TapRead, TraceSummary,
};
use crate::time_chart::lanes::{series_lane, RawLane, RawMark};
use crate::time_chart::marks::{bin_marks, id_of, mark_id, split_mark_id, BinnedMarkLane, Mark, MarkLane, Window, ROWS_PER_LANE};
use crate::time_chart::series::{bin_series, BinnedSeriesLane, SeriesLane};

verus! {

/// Bins in one windowed answer.
pub const MAX_BINS: usize = 4_000;

/// A step's band on the axis.
#[derive(Debug, Clone, Copy, PartialEq, Eq, Structural)]
pub struct StepBand {
    pub index: u32,
    pub t_from: u64,
    pub t_to: u64,
}

/// The study's own steps, placed.
#[derive(Debug)]
pub struct StepBands {
    pub bands: Vec<StepBand>,
    pub placeable: bool,
    pub note: String,
}

/// The trace a chart's axis came from, or that it could not use.
#[derive(Debug)]
pub struct TraceRef {
    pub tap: String,
    pub unit: String,
    pub axis_clock: String,
    pub named: bool,
    pub timed: bool,
    pub dual_clock: bool,
    /// Whether this trace is what drew the axis. Where it is not, `note` says why.
    pub drew_the_axis: bool,
    pub note: Option<String>,
}

pub const NO_TIME_BASE: &'static str = "this trace has no time base to draw an axis with";

/// One study on one axis.
#[derive(Debug)]
pub struct TimeChartView {
    pub study_id: String,
    pub axis: Axis,
    pub bands: Vec<StepBand>,
    pub steps_placeable: bool,
    pub steps_note: String,
    pub lanes: Vec<MarkLane>,
    pub series: Vec<SeriesLane>,
    pub trace: Option<TraceRef>,
    /// Zero for a finished study, whose axis cannot change.
    pub axis_epoch: u64,
    /// Marks past their lane's cap, over all lanes.
    pub marks_dropped_by_cap: u128,
    /// What could not be read at all.
    pub notes: Vec<String>,
}

// ---- placing -----------------------------------------------------------------

/// How many of the first `n` events have a position.
pub open spec fn placed_to(marks: Seq<RawMark>, proj: Projection, n: int) -> nat
    decreases n,
{
    if n <= 0 {
        0
    } else {
        placed_to(marks, proj, n - 1) + if proj.position(marks[n - 1].core_rx_utc_ms) is Some {
            1nat
        } else {
            0
        }
    }
}

/// How many of the first `n` events have none, on the side before the window or on the
/// other.
pub open spec fn missed_to(marks: Seq<RawMark>, proj: Projection, n: int, early: bool) -> nat
    decreases n,
{
    if n <= 0 {
        0
    } else {
        let m = marks[n - 1];
        missed_to(marks, proj, n - 1, early) + if proj.position(m.core_rx_utc_ms) is None && (
        m.core_rx_utc_ms < proj.opens_at()) == early {
            1nat
        } else {
            0
        }
    }
}

/// Whether `m` is event `k` of lane `lane`, placed: first those that need no placing,
/// then the others.
pub open spec fn is_placed(m: Mark, raw: RawLane, lane: int, proj: Projection, k: int) -> bool {
    let natives = raw.native@.len() as int;
    &&& m.kind@ == raw.kind@
    &&& if k < natives {
        let x = raw.native@[k];
        &&& m.t == Some(x.t)
        &&& m.core_rx_utc_ms is None
        &&& m.sub@ == x.sub@
        &&& !m.uncertain
        &&& m.id == id_of(lane, x.row_index as int)
        &&& m.label@ == x.label@
    } else {
        let x = raw.marks@[k - natives];
        &&& m.t == proj.position(x.core_rx_utc_ms)
        &&& m.core_rx_utc_ms == Some(x.core_rx_utc_ms)
        &&& m.sub@ == x.sub@
        &&& m.uncertain == (m.t is Some && proj.crosses_clocks())
        &&& m.id == id_of(lane, x.row_index as int)
        &&& m.label@ == x.label@
    }
}

/// Where event `k` sorts: by its position, and last where it has none.
pub open spec fn sort_key(raw: RawLane, proj: Projection, k: int) -> u64 {
    let natives = raw.native@.len() as int;
    if k < natives {
        raw.native@[k].t
    } else {
        match proj.position(raw.marks@[k - natives].core_rx_utc_ms) {
            Some(t) => t,
            None => u64::MAX,
        }
    }
}

/// The sort keys of a lane's events.
pub open spec fn sort_keys(raw: RawLane, proj: Projection) -> Seq<u64> {
    Seq::new(raw.native@.len() + raw.marks@.len(), |k: int| sort_key(raw, proj, k))
}

impl MarkLane {
    /// Whether this is lane `lane` of the raw ones, placed.
    pub open spec fn places(&self, raw: RawLane, lane: int, proj: Projection) -> bool {
        let n = raw.marks@.len() as int;
        &&& self.key@ == raw.key@
        &&& self.label@ == raw.label@
        &&& self.kind@ == raw.kind@
        &&& self.source@ == raw.source@
        &&& self.tap@ == raw.tap@
        &&& self.total == raw.total
        &&& self.placed == raw.native@.len() + placed_to(raw.marks@, proj, n)
        &&& self.before == missed_to(raw.marks@, proj, n, true)
        &&& self.after == missed_to(raw.marks@, proj, n, false)
        &&& self.dropped_by_cap == raw.dropped_by_cap
        &&& opt_view(self.note) == opt_view(raw.note)
        &&& exists|order: Seq<usize>|
            {
                &&& stable_order(sort_keys(raw, proj), order)
                &&& self.marks@.len() == order.len()
                &&& forall|i: int|
                    0 <= i < order.len() ==> is_placed(
                        #[trigger] self.marks@[i],
                        raw,
                        lane,
                        proj,
                        order[i] as int,
                    )
            }
    }
}

/// Every event of a lane is placed, or missed on one side.
pub proof fn every_event_is_accounted_for(marks: Seq<RawMark>, proj: Projection, n: int)
    requires
        0 <= n <= marks.len(),
    ensures
        placed_to(marks, proj, n) + missed_to(marks, proj, n, true) + missed_to(
            marks,
            proj,
            n,
            false,
        ) == n,
    decreases n,
{
    if n > 0 {
        every_event_is_accounted_for(marks, proj, n - 1);
    }
}

fn place_lane(raw: &RawLane, lane: usize, proj: &Projection) -> (r: MarkLane)
    requires
        proj.wf(),
        raw.native@.len() + raw.marks@.len() <= usize::MAX,
    ensures
        r.places(*raw, lane as int, *proj),
{
    let mut marks: Vec<Mark> = Vec::new();
    let mut keys: Vec<u64> = Vec::new();
    let natives: usize = raw.native.len();
    let n: usize = raw.marks.len();
    for i in 0..natives
        invariant
            natives == raw.native.len(),
            marks.len() == i,
            keys.len() == i,
            forall|k: int|
                0 <= k < i ==> is_placed(#[trigger] marks@[k], *raw, lane as int, *proj, k),
            forall|k: int| 0 <= k < i ==> #[trigger] keys@[k] == sort_key(*raw, *proj, k),
    {
        let x = &raw.native[i];
        let mark = Mark {
            t: Some(x.t),
            core_rx_utc_ms: None,
            kind: raw.kind,
            sub: x.sub.clone(),
            uncertain: false,
            id: mark_id(lane, x.row_index),
            label: x.label.clone(),
        };
        marks.push(mark);
        keys.push(x.t);
    }
    let mut placed: usize = natives;
    let mut before: usize = 0;
    let mut after: usize = 0;
    for i in 0..n
        invariant
            natives == raw.native.len(),
            n == raw.marks.len(),
            natives + n <= usize::MAX,
            proj.wf(),
            marks.len() == natives + i,
            keys.len() == natives + i,
            placed == natives + placed_to(raw.marks@, *proj, i as int),
            before == missed_to(raw.marks@, *proj, i as int, true),
            after == missed_to(raw.marks@, *proj, i as int, false),
            placed <= natives + i,
            before <= i,
            after <= i,
            forall|k: int|
                0 <= k < natives + i ==> is_placed(#[trigger] marks@[k], *raw, lane as int, *proj, k),
            forall|k: int|
                0 <= k < natives + i ==> #[trigger] keys@[k] == sort_key(*raw, *proj, k),
    {
        let x = &raw.marks[i];
        let t = proj.place(x.core_rx_utc_ms);
        let key: u64 = match t {
            Some(at) => {
                placed = placed + 1;
                at
            },
            None => {
                if x.core_rx_utc_ms < proj.window_from_ms() {
                    before = before + 1;
                } else {
                    after = after + 1;
                }
                u64::MAX
            },
        };
        let mark = Mark {
            t,
            core_rx_utc_ms: Some(x.core_rx_utc_ms),
            kind: raw.kind,
            sub: x.sub.clone(),
            uncertain: t.is_some() && proj.projected(),
            id: mark_id(lane, x.row_index),
            label: x.label.clone(),
        };
        marks.push(mark);
        keys.push(key);
    }
    assert(keys@ =~= sort_keys(*raw, *proj));
    let order = sorted_order(&keys);
    let mut sorted: Vec<Mark> = Vec::new();
    for i in 0..order.len()
        invariant
            stable_order(keys@, order@),
            marks.len() == keys.len(),
            forall|k: int|
                0 <= k < marks.len() ==> is_placed(#[trigger] marks@[k], *raw, lane as int, *proj, k),
            sorted.len() == i,
            forall|k: int|
                0 <= k < i ==> is_placed(
                    #[trigger] sorted@[k],
                    *raw,
                    lane as int,
                    *proj,
                    order@[k] as int,
                ),
    {
        sorted.push(marks[order[i]].copied());
    }
    MarkLane {
        key: raw.key.clone(),
        label: raw.label.clone(),
        kind: raw.kind,
        source: raw.source,
        tap: raw.tap.clone(),
        total: raw.total,
        placed,
        before,
        after,
        dropped_by_cap: raw.dropped_by_cap,
        note: copy_opt(&raw.note),
        marks: sorted,
    }
}

/// Marks past their lane's cap, over the first `n` lanes.
pub open spec fn dropped_to(lanes: Seq<RawLane>, n: int) -> nat
    decreases n,
{
    if n <= 0 {
        0
    } else {
        dropped_to(lanes, n - 1) + lanes[n - 1].dropped_by_cap as nat
    }
}

/// Whether every lane's events can be counted together.
pub open spec fn countable(lanes: Seq<RawLane>) -> bool {
    forall|i: int|
        0 <= i < lanes.len() ==> (#[trigger] lanes[i]).native@.len() + lanes[i].marks@.len()
            <= usize::MAX
}

// ---- building ----------------------------------------------------------------

/// A study's streams as they were read, and its steps.
#[derive(Debug)]
pub struct ChartInput {
    pub study_id: String,
    /// Whether the study recorded any stream.
    pub recorded: bool,
    pub entries: Vec<StreamEntry>,
    pub reads: Vec<TapRead>,
    pub steps: Vec<StepStamp>,
    /// The first rendered trace, where it decoded.
    pub trace: Option<TraceSummary>,
    /// Where that trace places an instant, where it does.
    pub trace_axis: Option<Projection>,
}

/// What a study offers a chart, once the axis is chosen.
#[derive(Debug)]
pub struct Gathered {
    pub lanes: Vec<RawLane>,
    /// The places of the sample tables among the streams.
    pub sampled: Vec<usize>,
    pub notes: Vec<String>,
    pub window: Option<(u64, u64)>,
}

impl ChartInput {
    pub open spec fn wf(&self) -> bool {
        &&& answered(self.entries@, self.reads@)
        &&& match self.trace_axis {
            Some(p) => p.wf() && self.trace is Some,
            None => true,
        }
    }

    /// Whether the trace draws the axis. Else the chart is on the receipt clock.
    pub open spec fn trace_draws(&self) -> bool {
        self.trace_axis is Some && !(self.trace_axis->0 is Nowhere)
    }

    pub open spec fn taps(&self) -> Seq<Seq<char>> {
        trace_names(self.entries@, self.entries@.len() as int)
    }

    pub open spec fn samples(&self) -> Seq<usize> {
        sampled_to(self.entries@, self.reads@, self.entries@.len() as int)
    }

    /// What is noted before the axis is chosen.
    pub open spec fn first_notes(&self) -> Seq<Seq<char>> {
        opening(self.recorded, self.taps(), self.trace is None) + sample_notes(
            self.entries@,
            self.reads@,
            self.entries@.len() as int,
        )
    }
}

impl Gathered {
    /// Whether this is what the study offers.
    pub open spec fn is_of(&self, input: ChartInput) -> bool {
        let s = stamped_span(input.steps@, self.lanes@, input.reads@, input.samples());
        &&& are_lanes(self.lanes@, input.entries@, input.reads@, input.trace)
        &&& self.sampled@ == input.samples()
        &&& texts(self.notes@) == input.first_notes()
        &&& self.window == (if s.lo > s.hi {
            None
        } else {
            Some((s.lo as u64, s.hi as u64))
        })
    }
}

proof fn sampled_are_places(entries: Seq<StreamEntry>, reads: Seq<TapRead>, n: int)
    requires
        0 <= n <= entries.len(),
        n <= usize::MAX,
    ensures
        forall|i: int|
            0 <= i < sampled_to(entries, reads, n).len() ==> (#[trigger] sampled_to(
                entries,
                reads,
                n,
            )[i]) < n && reads[sampled_to(entries, reads, n)[i] as int] is Table,
    decreases n,
{
    if n > 0 {
        sampled_are_places(entries, reads, n - 1);
    }
}

/// Gathers every stream's events, before an axis exists.
pub fn gather(input: &ChartInput) -> (r: Gathered)
    requires
        input.wf(),
    ensures
        r.is_of(*input),
        countable(r.lanes@),
{
    let taps = trace_taps(&input.entries);
    let mut notes = opening_notes(input.recorded, &taps, input.trace.is_none());
    let lanes = raw_lanes(&input.entries, &input.reads, &input.trace);
    let sampled = sample_tables(&input.entries, &input.reads, &mut notes);
    proof {
        assert(input.entries@.len() == input.entries.len());
        sampled_are_places(input.entries@, input.reads@, input.entries@.len() as int);
    }
    let window = core_window(&input.steps, &lanes, &input.reads, &sampled);
    assert forall|i: int| 0 <= i < lanes@.len() implies (#[trigger] lanes@[i]).native@.len()
        + lanes@[i].marks@.len() <= usize::MAX by {
        assert(lanes@[i].native@.len() == lanes@[i].native.len());
        assert(lanes@[i].marks@.len() == lanes@[i].marks.len());
    }
    Gathered { lanes, sampled, notes, window }
}

/// The axis of a chart: the trace's where it has one, else the receipt clock over
/// everything the study stamped, else none.
pub open spec fn chosen(trace_axis: Option<Projection>, window: Option<(u64, u64)>) -> Projection {
    match trace_axis {
        Some(p) if !(p is Nowhere) => p,
        _ => match window {
            Some((lo, hi)) => Projection::CoreClock { from_ms: lo, to_ms: hi },
            None => Projection::Nowhere,
        },
    }
}

/// The axis of a chart, chosen once.
pub fn choose_axis(trace_axis: Option<Projection>, window: Option<(u64, u64)>) -> (r: Projection)
    ensures
        r == chosen(trace_axis, window),
        trace_axis is Some && trace_axis->0.wf() || trace_axis is None ==> r.wf(),
{
    if let Some(p) = trace_axis {
        if p.placeable() {
            return p;
        }
    }
    match window {
        Some((lo, hi)) => Projection::core_clock(lo, hi),
        None => Projection::Nowhere,
    }
}

pub const NO_STEPS: &'static str = "This study recorded no per-step arrival stamps — it ran before embarch-core kept them, or its events.json has been swept — so there is no step row to draw. Every other lane is unaffected.";

/// The first stream named `name` among the first `n`.
pub open spec fn entry_of(entries: Seq<StreamEntry>, name: Seq<char>, n: int) -> Option<int>
    decreases n,
{
    if n <= 0 {
        None
    } else {
        match entry_of(entries, name, n - 1) {
            Some(i) => Some(i),
            None => if entries[n - 1].name@ == name {
                Some(n - 1)
            } else {
                None
            },
        }
    }
}

fn find_entry(entries: &Vec<StreamEntry>, name: &str) -> (r: Option<usize>)
    ensures
        match r {
            Some(i) => i < entries@.len() && entry_of(entries@, name@, entries@.len() as int) == Some(
                i as int,
            ),
            None => entry_of(entries@, name@, entries@.len() as int) is None,
        },
{
    for i in 0..entries.len()
        invariant
            entry_of(entries@, name@, i as int) is None,
    {
        if same(entries[i].name.as_str(), name) {
            proof {
                entry_stays(entries@, name@, i + 1, entries@.len() as int);
            }
            return Some(i);
        }
    }
    None
}

proof fn entry_stays(entries: Seq<StreamEntry>, name: Seq<char>, a: int, b: int)
    requires
        0 <= a <= b,
        entry_of(entries, name, a) is Some,
    ensures
        entry_of(entries, name, b) == entry_of(entries, name, a),
    decreases b,
{
    if a < b {
        entry_stays(entries, name, a, b - 1);
    }
}

impl TraceRef {
    pub open spec fn tells(&self, trace: TraceSummary, e: StreamEntry, drew: bool) -> bool {
        &&& self.tap@ == trace.tap@
        &&& self.unit@ == trace.unit@
        &&& self.axis_clock@ == trace.axis_clock@
        &&& self.named == e.named
        &&& self.timed == e.timed
        &&& self.dual_clock == trace.dual_clock
        &&& self.drew_the_axis == drew
        &&& opt_view(self.note) == (if !drew && trace.note is None {
            Some(NO_TIME_BASE@)
        } else {
            opt_view(trace.note)
        })
    }
}

/// Whether `r` is how a chart names the trace it used, or could not use.
pub open spec fn names_trace(r: Option<TraceRef>, input: ChartInput) -> bool {
    let e = if input.taps().len() == 0 {
        None
    } else {
        entry_of(input.entries@, input.taps()[0], input.entries@.len() as int)
    };
    match (input.trace, e) {
        (Some(trace), Some(i)) => r is Some && r->0.tells(
            trace,
            input.entries@[i],
            input.trace_draws(),
        ),
        _ => r is None,
    }
}

fn drew_axis(input: &ChartInput) -> (r: bool)
    ensures
        r == input.trace_draws(),
{
    match &input.trace_axis {
        Some(p) => p.placeable(),
        None => false,
    }
}

fn trace_ref(input: &ChartInput) -> (r: Option<TraceRef>)
    ensures
        names_trace(r, *input),
{
    let taps = trace_taps(&input.entries);
    assert(texts(taps@).len() == taps@.len());
    let trace = match &input.trace {
        Some(trace) => trace,
        None => return None,
    };
    if taps.len() == 0 {
        return None;
    }
    assert(texts(taps@)[0] == taps@[0]@);
    match find_entry(&input.entries, taps[0].as_str()) {
        Some(i) => {
            let drew = drew_axis(input);
            let note = if !drew && trace.note.is_none() {
                Some(NO_TIME_BASE.to_owned())
            } else {
                copy_opt(&trace.note)
            };
            Some(
                TraceRef {
                    tap: trace.tap.clone(),
                    unit: trace.unit.clone(),
                    axis_clock: trace.axis_clock.clone(),
                    named: input.entries[i].named,
                    timed: input.entries[i].timed,
                    dual_clock: trace.dual_clock,
                    drew_the_axis: drew,
                    note,
                },
            )
        },
        None => None,
    }
}

pub open spec fn trace_tap(input: ChartInput) -> Option<Seq<char>> {
    match input.trace {
        Some(t) => Some(t.tap@),
        None => None,
    }
}

impl TimeChartView {
    /// Whether this is the chart of a study on `proj`, with `steps` as its step row.
    pub open spec fn tells(
        &self,
        input: ChartInput,
        gathered: Gathered,
        values: Seq<Vec<Option<u64>>>,
        steps: Option<StepBands>,
        proj: Projection,
    ) -> bool {
        &&& self.study_id@ == input.study_id@
        &&& self.axis.tells(proj, trace_tap(input), input.trace_draws())
        &&& texts(self.notes@) == texts(gathered.notes@) + axis_notes(proj, trace_tap(input))
        &&& match steps {
            Some(row) => self.bands@ == row.bands@ && self.steps_placeable == row.placeable
                && self.steps_note@ == row.note@,
            None => self.bands@.len() == 0 && !self.steps_placeable && self.steps_note@
                == NO_STEPS@,
        }
        &&& self.lanes@.len() == gathered.lanes@.len()
        &&& forall|i: int|
            0 <= i < self.lanes@.len() ==> (#[trigger] self.lanes@[i]).places(
                gathered.lanes@[i],
                i,
                proj,
            )
        &&& self.series@.len() == gathered.sampled@.len()
        &&& forall|i: int|
            0 <= i < self.series@.len() ==> (#[trigger] self.series@[i]).is_strip_of(
                input.entries@[gathered.sampled@[i] as int].name@,
                input.reads@[gathered.sampled@[i] as int]->Table_0@,
                values[i]@,
                proj,
            )
        &&& names_trace(self.trace, input)
        &&& self.axis_epoch == 0
        &&& self.marks_dropped_by_cap == dropped_to(gathered.lanes@, gathered.lanes@.len() as int)
    }
}

fn place_lanes(lanes: &Vec<RawLane>, proj: &Projection) -> (r: (Vec<MarkLane>, u128))
    requires
        proj.wf(),
        countable(lanes@),
    ensures
        r.0@.len() == lanes@.len(),
        forall|i: int| 0 <= i < r.0@.len() ==> (#[trigger] r.0@[i]).places(lanes@[i], i, *proj),
        r.1 == dropped_to(lanes@, lanes@.len() as int),
{
    let mut out: Vec<MarkLane> = Vec::new();
    let mut dropped: u128 = 0;
    for i in 0..lanes.len()
        invariant
            proj.wf(),
            countable(lanes@),
            out.len() == i,
            forall|k: int| 0 <= k < i ==> (#[trigger] out@[k]).places(lanes@[k], k, *proj),
            dropped == dropped_to(lanes@, i as int),
            dropped <= i * 0xffff_ffff_ffff_ffff,
    {
        assert(lanes@[i as int].native@.len() + lanes@[i as int].marks@.len() <= usize::MAX);
        out.push(place_lane(&lanes[i], i, proj));
        assert((i + 1) * 0xffff_ffff_ffff_ffff == i * 0xffff_ffff_ffff_ffff + 0xffff_ffff_ffff_ffff)
            by (nonlinear_arith);
        assert(i * 0xffff_ffff_ffff_ffff <= 0xffff_ffff_ffff_ffff * 0xffff_ffff_ffff_ffff)
            by (nonlinear_arith)
            requires
                i <= 0xffff_ffff_ffff_ffff,
        ;
        dropped = dropped + lanes[i].dropped_by_cap as u128;
    }
    (out, dropped)
}

/// Builds one study's chart on the axis that was chosen for it.
///
/// `values` holds, for each sample table, the bits of the number in the plotted column
/// of each row where it reads as one; `steps` is the step row placed on the same axis.
pub fn build(
    input: &ChartInput,
    gathered: Gathered,
    values: &Vec<Vec<Option<u64>>>,
    steps: Option<StepBands>,
    proj: &Projection,
) -> (r: TimeChartView)
    requires
        input.wf(),
        proj.wf(),
        gathered.is_of(*input),
        *proj == chosen(input.trace_axis, gathered.window),
        values@.len() == gathered.sampled@.len(),
        countable(gathered.lanes@),
    ensures
        r.tells(*input, gathered, values@, steps, *proj),
{
    let mut notes = gathered.notes;
    let tap: Option<&str> = match &input.trace {
        Some(t) => Some(t.tap.as_str()),
        None => None,
    };
    let axis = describe_axis(proj, tap, drew_axis(input), &mut notes);
    let (lanes, marks_dropped_by_cap) = place_lanes(&gathered.lanes, proj);
    proof {
        assert(input.entries@.len() == input.entries.len());
        sampled_are_places(input.entries@, input.reads@, input.entries@.len() as int);
    }
    let mut series: Vec<SeriesLane> = Vec::new();
    for i in 0..gathered.sampled.len()
        invariant
            input.wf(),
            proj.wf(),
            values@.len() == gathered.sampled@.len(),
            forall|k: int|
                0 <= k < gathered.sampled@.len() ==> (#[trigger] gathered.sampled@[k])
                    < input.entries@.len() && input.reads@[gathered.sampled@[k] as int] is Table,
            series.len() == i,
            forall|k: int|
                0 <= k < i ==> (#[trigger] series@[k]).is_strip_of(
                    input.entries@[gathered.sampled@[k] as int].name@,
                    input.reads@[gathered.sampled@[k] as int]->Table_0@,
                    values@[k]@,
                    *proj,
                ),
    {
        let at: usize = gathered.sampled[i];
        match &input.reads[at] {
            TapRead::Table(table) => {
                series.push(series_lane(input.entries[at].name.as_str(), table, &values[i], proj));
            },
            _ => {},
        }
    }
    let (bands, steps_placeable, steps_note) = match steps {
        Some(row) => (row.bands, row.placeable, row.note),
        None => (Vec::new(), false, NO_STEPS.to_owned()),
    };
    TimeChartView {
        study_id: input.study_id.clone(),
        axis,
        bands,
        steps_placeable,
        steps_note,
        lanes,
        series,
        trace: trace_ref(input),
        axis_epoch: 0,
        marks_dropped_by_cap,
        notes,
    }
}

// ---- windows -----------------------------------------------------------------

/// Every lane binned over one window.
#[derive(Debug)]
pub struct BinnedTimeWindow {
    pub study_id: String,
    /// The window that was binned, once moved into the axis.
    pub from: u64,
    pub to: u64,
    pub width: usize,
    pub unit: &'static str,
    pub axis_epoch: u64,
    pub lanes: Vec<BinnedMarkLane>,
    pub series: Vec<BinnedSeriesLane>,
}

pub open spec fn moved_into(n: u64, lo: u64, hi: u64) -> u64 {
    if n < lo {
        lo
    } else if n > hi {
        hi
    } else {
        n
    }
}

/// Where the axis ends: at least one past where it begins.
pub open spec fn axis_end(axis: Axis) -> u64 {
    if axis.t_to > axis.t_from {
        axis.t_to
    } else {
        (axis.t_from + 1) as u64
    }
}

pub open spec fn width_refusal(width: nat) -> Seq<char> {
    "width must be between 1 and "@ + decimal(MAX_BINS as nat) + ", not "@ + decimal(width)
}

impl BinnedTimeWindow {
    pub open spec fn tells(&self, view: TimeChartView, from: u64, to: u64, width: usize) -> bool {
        let start = moved_into(from, view.axis.t_from, axis_end(view.axis));
        let end = moved_into(to, start, axis_end(view.axis));
        let w = Window { from: start as nat, to: end as nat, width: width as nat };
        &&& self.study_id@ == view.study_id@
        &&& self.from == start
        &&& self.to == end
        &&& self.width == width
        &&& self.unit@ == view.axis.unit@
        &&& self.axis_epoch == view.axis_epoch
        &&& self.lanes@.len() == view.lanes@.len()
        &&& forall|i: int|
            0 <= i < self.lanes@.len() ==> (#[trigger] self.lanes@[i]).tells(view.lanes@[i], w)
        &&& self.series@.len() == view.series@.len()
        &&& forall|i: int|
            0 <= i < self.series@.len() ==> (#[trigger] self.series@[i]).tells(view.series@[i], w)
    }
}

/// Bins every lane of a chart over one window. The window is moved into the axis rather
/// than refused, and the reply says where it came to lie.
pub fn bin_window(view: &TimeChartView, from: u64, to: u64, width: usize) -> (r: Result<
    BinnedTimeWindow,
    String,
>)
    requires
        view.axis.t_from < u64::MAX,
    ensures
        r is Ok == (1 <= width <= MAX_BINS),
        r matches Ok(w) ==> w.tells(*view, from, to, width),
        r matches Err(e) ==> e@ == width_refusal(width as nat),
{
    if width == 0 || width > MAX_BINS {
        let mut e = "width must be between 1 and ".to_owned();
        e.append(dec(MAX_BINS as u64).as_str());
        e.append(", not ");
        e.append(dec(width as u64).as_str());
        return Err(e);
    }
    let full_to: u64 = if view.axis.t_to > view.axis.t_from {
        view.axis.t_to
    } else {
        view.axis.t_from + 1
    };
    let start: u64 = if from < view.axis.t_from {
        view.axis.t_from
    } else if from > full_to {
        full_to
    } else {
        from
    };
    let end: u64 = if to < start {
        start
    } else if to > full_to {
        full_to
    } else {
        to
    };
    let ghost w = Window { from: start as nat, to: end as nat, width: width as nat };
    let mut lanes: Vec<BinnedMarkLane> = Vec::new();
    for i in 0..view.lanes.len()
        invariant
            start <= end,
            width > 0,
            w == (Window { from: start as nat, to: end as nat, width: width as nat }),
            lanes.len() == i,
            forall|k: int| 0 <= k < i ==> (#[trigger] lanes@[k]).tells(view.lanes@[k], w),
    {
        lanes.push(bin_marks(&view.lanes[i], start, end, width));
    }
    let mut series: Vec<BinnedSeriesLane> = Vec::new();
    for i in 0..view.series.len()
        invariant
            start <= end,
            width > 0,
            w == (Window { from: start as nat, to: end as nat, width: width as nat }),
            series.len() == i,
            forall|k: int| 0 <= k < i ==> (#[trigger] series@[k]).tells(view.series@[k], w),
    {
        series.push(bin_series(&view.series[i], start, end, width));
    }
    Ok(
        BinnedTimeWindow {
            study_id: view.study_id.clone(),
            from: start,
            to: end,
            width,
            unit: view.axis.unit,
            axis_epoch: view.axis_epoch,
            lanes,
            series,
        },
    )
}

/// Which window is asked for.
#[derive(Debug)]
pub struct MarksQuery {
    pub from: Option<u64>,
    pub to: Option<u64>,
    pub width: Option<usize>,
}

/// The window that a query asks for: the whole axis in one bin where it does not say.
pub fn bin_query(view: &TimeChartView, q: &MarksQuery) -> (r: Result<BinnedTimeWindow, String>)
    requires
        view.axis.t_from < u64::MAX,
    ensures
        ({
            let from = match q.from {
                Some(n) => n,
                None => view.axis.t_from,
            };
            let to = match q.to {
                Some(n) => n,
                None => view.axis.t_to,
            };
            let width = match q.width {
                Some(n) => n,
                None => 1,
            };
            &&& r is Ok == (1 <= width <= MAX_BINS)
            &&& r matches Ok(w) ==> w.tells(*view, from, to, width)
            &&& r matches Err(e) ==> e@ == width_refusal(width as nat)
        }),
{
    let from: u64 = match q.from {
        Some(n) => n,
        None => view.axis.t_from,
    };
    let to: u64 = match q.to {
        Some(n) => n,
        None => view.axis.t_to,
    };
    let width: usize = match q.width {
        Some(n) => n,
        None => 1,
    };
    bin_window(view, from, to, width)
}

// ---- one mark ----------------------------------------------------------------

/// How one mark's detail is reached.
#[derive(Debug)]
#[allow(inconsistent_fields)]
pub enum MarkDetail {
    /// There is no such mark, for the reason given.
    NotFound(String),
    /// The lane has no marks to open, for the reason given.
    Conflict(String),
    /// A trace's own marker, carried whole.
    Marker { lane: usize, mark: usize },
    /// A row of the lane's tap, and the mark it made where it made one.
    Row { lane: usize, row: u64, mark: Option<usize> },
}

/// The first mark with this id among the first `n`.
pub open spec fn mark_with(marks: Seq<Mark>, id: u64, n: int) -> Option<int>
    decreases n,
{
    if n <= 0 {
        None
    } else {
        match mark_with(marks, id, n - 1) {
            Some(i) => Some(i),
            None => if marks[n - 1].id == id {
                Some(n - 1)
            } else {
                None
            },
        }
    }
}

proof fn mark_stays(marks: Seq<Mark>, id: u64, a: int, b: int)
    requires
        0 <= a <= b,
        mark_with(marks, id, a) is Some,
    ensures
        mark_with(marks, id, b) == mark_with(marks, id, a),
    decreases b,
{
    if a < b {
        mark_stays(marks, id, a, b - 1);
    }
}

fn find_mark(marks: &Vec<Mark>, id: u64) -> (r: Option<usize>)
    ensures
        match r {
            Some(i) => i < marks@.len() && mark_with(marks@, id, marks@.len() as int) == Some(
                i as int,
            ),
            None => mark_with(marks@, id, marks@.len() as int) is None,
        },
{
    for i in 0..marks.len()
        invariant
            mark_with(marks@, id, i as int) is None,
    {
        if marks[i].id == id {
            proof {
                mark_stays(marks@, id, i + 1, marks@.len() as int);
            }
            return Some(i);
        }
    }
    None
}

pub open spec fn no_lane(lane: nat, lanes: nat) -> Seq<char> {
    "this chart has no lane "@ + decimal(lane) + " — it has "@ + decimal(lanes)
}

pub open spec fn no_marker(row: nat) -> Seq<char> {
    "no marker "@ + decimal(row) + " in this capture"@
}

pub open spec fn console_conflict(tap: Seq<char>) -> Seq<char> {
    "tap '"@ + tap
        + "' is a console, and a console's capture on disk carries no arrival time per line — so this chart placed none of its lines and has no mark to open."@
}

/// Decides how the detail of the mark `id` is reached.
pub fn mark_detail(view: &TimeChartView, id: u64) -> (r: MarkDetail)
    ensures
        ({
            let lane = id as int / ROWS_PER_LANE as int;
            let row = id as int % ROWS_PER_LANE as int;
            if lane >= view.lanes@.len() {
                r matches MarkDetail::NotFound(e) && e@ == no_lane(lane as nat, view.lanes@.len())
            } else {
                let l = view.lanes@[lane];
                let found = mark_with(l.marks@, id, l.marks@.len() as int);
                if l.source@ == "trace-markers"@ {
                    match found {
                        Some(i) => r matches MarkDetail::Marker { lane: at, mark } && at == lane
                            && mark == i,
                        None => r matches MarkDetail::NotFound(e) && e@ == no_marker(row as nat),
                    }
                } else if l.source@ == "text"@ {
                    r matches MarkDetail::Conflict(e) && e@ == console_conflict(l.tap@)
                } else {
                    r matches MarkDetail::Row { lane: at, row: n, mark } && at == lane && n == row
                        && match mark {
                        Some(i) => found == Some(i as int),
                        None => found is None,
                    }
                }
            }
        }),
{
    let (lane, low) = split_mark_id(id);
    let row: u64 = id % ROWS_PER_LANE;
    if lane >= view.lanes.len() {
        let mut e = "this chart has no lane ".to_owned();
        e.append(dec(lane as u64).as_str());
        e.append(" — it has ");
        e.append(dec(view.lanes.len() as u64).as_str());
        return MarkDetail::NotFound(e);
    }
    let mark = find_mark(&view.lanes[lane].marks, id);
    if same(view.lanes[lane].source, "trace-markers") {
        match mark {
            Some(i) => MarkDetail::Marker { lane, mark: i },
            None => {
                let mut e = "no marker ".to_owned();
                e.append(dec(row).as_str());
                e.append(" in this capture");
                MarkDetail::NotFound(e)
            },
        }
    } else if same(view.lanes[lane].source, "text") {
        let mut e = "tap '".to_owned();
        e.append(view.lanes[lane].tap.as_str());
        e.append(
            "' is a console, and a console's capture on disk carries no arrival time per line — so this chart placed none of its lines and has no mark to open.",
        );
        MarkDetail::Conflict(e)
    } else {
        MarkDetail::Row { lane, row, mark }
    }
}

/// The row that a mark names, or that the tap has none.
pub fn row_detail(tap: &str, table: &Table, row: u64) -> (r: Result<Vec<String>, String>)
    ensures
        r is Ok == (row < table@.rows.len()),
        r matches Ok(cells) ==> texts(cells@) == table@.rows[row as int],
        r matches Err(e) ==> e@ == "tap '"@ + tap@ + "' has no row "@ + decimal(row as nat)
            + " — it has "@ + decimal(table@.rows.len()),
{
    if row < table.rows.len() as u64 {
        Ok(table.row_copy(row as usize))
    } else {
        let mut e = "tap '".to_owned();
        e.append(tap);
        e.append("' has no row ");
        e.append(dec(row).as_str());
        e.append(" — it has ");
        e.append(dec(table.rows.len() as u64).as_str());
        Err(e)
    }
}

// ---- the one chart that is kept ----------------------------------------------

/// The one chart that is kept, and whose it is.
#[derive(Debug)]
pub struct CachedTimeChart {
    pub study_id: String,
    pub view: TimeChartView,
}

/// The chart of a study, where it is the one that is kept.
pub fn cached_chart<'a>(cached: &'a Option<CachedTimeChart>, study_id: &str) -> (r: Option<
    &'a TimeChartView,
>)
    ensures
        r is Some <==> *cached is Some && cached->0.study_id@ == study_id@,
        r is Some ==> *r->0 == cached->0.view,
{
    match cached {
        Some(c) => if same(c.study_id.as_str(), study_id) {
            Some(&c.view)
        } else {
            None
        },
        None => None,
    }
}

// ---- laws --------------------------------------------------------------------

/// A trace that places instants draws the axis; where none does it is the receipt clock over
/// the window that the study stamped; and where nothing was stamped there is none.
pub proof fn the_trace_draws_where_it_can(
    trace_axis: Option<Projection>,
    lo: u64,
    hi: u64,
    ms: u64,
)
    ensures
        trace_axis is Some && !(trace_axis->0 is Nowhere) ==> chosen(trace_axis, Some((lo, hi)))
            == trace_axis->0 && chosen(trace_axis, None) == trace_axis->0,
        trace_axis is None || trace_axis->0 is Nowhere ==> chosen(trace_axis, None) is Nowhere,
        trace_axis is None || trace_axis->0 is Nowhere ==> {
            let axis = chosen(trace_axis, Some((lo, hi)));
            &&& lo <= ms <= hi ==> axis.position(ms) == Some(ms)
            &&& ms < lo || ms > hi ==> axis.position(ms) is None
            &&& axis.opens_at() == lo
            &&& axis.closes_at() == hi
        },
{
}

/// Events are counted as placed where they have a position, as before where they have none
/// and were received before the axis opens, and as after where they have none and were not.
pub proof fn an_event_is_counted_where_it_falls(marks: Seq<RawMark>, proj: Projection, n: int)
    requires
        0 <= n <= marks.len(),
    ensures
        placed_to(marks, proj, n) == marks.take(n).filter(
            |m: RawMark| proj.position(m.core_rx_utc_ms) is Some,
        ).len(),
        missed_to(marks, proj, n, true) == marks.take(n).filter(
            |m: RawMark|
                proj.position(m.core_rx_utc_ms) is None && m.core_rx_utc_ms < proj.opens_at(),
        ).len(),
        missed_to(marks, proj, n, false) == marks.take(n).filter(
            |m: RawMark|
                proj.position(m.core_rx_utc_ms) is None && m.core_rx_utc_ms >= proj.opens_at(),
        ).len(),
    decreases n,
{
    reveal(Seq::filter);
    if n > 0 {
        an_event_is_counted_where_it_falls(marks, proj, n - 1);
        assert(marks.take(n).drop_last() =~= marks.take(n - 1));
        assert(marks.take(n).last() == marks[n - 1]);
    }
}

proof fn an_order_of(lane: MarkLane, raw: RawLane, at: int, proj: Projection) -> (order: Seq<usize>)
    requires
        lane.places(raw, at, proj),
    ensures
        stable_order(sort_keys(raw, proj), order),
        lane.marks@.len() == order.len(),
        forall|i: int|
            0 <= i < order.len() ==> is_placed(
                #[trigger] lane.marks@[i],
                raw,
                at,
                proj,
                order[i] as int,
            ),
{
    choose|order: Seq<usize>|
        {
            &&& stable_order(sort_keys(raw, proj), order)
            &&& lane.marks@.len() == order.len()
            &&& forall|i: int|
                0 <= i < order.len() ==> is_placed(
                    #[trigger] lane.marks@[i],
                    raw,
                    at,
                    proj,
                    order[i] as int,
                )
        }
}

/// The marks of a lane come in the order of their positions, those without one last.
pub proof fn marks_come_in_the_order_of_their_positions(
    lane: MarkLane,
    raw: RawLane,
    at: int,
    proj: Projection,
    i: int,
    j: int,
)
    requires
        lane.places(raw, at, proj),
        0 <= i < j < lane.marks@.len(),
        lane.marks@[j].t is Some,
    ensures
        lane.marks@[i].t is Some ==> lane.marks@[i].t->0 <= lane.marks@[j].t->0,
        lane.marks@[i].t is None ==> lane.marks@[j].t->0 == u64::MAX,
{
    let order = an_order_of(lane, raw, at, proj);
    let keys = sort_keys(raw, proj);
    assert(is_placed(lane.marks@[i], raw, at, proj, order[i] as int));
    assert(is_placed(lane.marks@[j], raw, at, proj, order[j] as int));
    assert(keys[order[i] as int] <= keys[order[j] as int]);
}

/// Every event of a lane is one of its marks, as it was received and where the axis puts it.
pub proof fn every_event_is_a_mark(
    lane: MarkLane,
    raw: RawLane,
    at: int,
    proj: Projection,
    k: int,
) -> (i: int)
    requires
        lane.places(raw, at, proj),
        raw.native@.len() + raw.marks@.len() <= usize::MAX,
        0 <= k < raw.marks@.len(),
    ensures
        0 <= i < lane.marks@.len(),
        lane.marks@[i].core_rx_utc_ms == Some(raw.marks@[k].core_rx_utc_ms),
        lane.marks@[i].t == proj.position(raw.marks@[k].core_rx_utc_ms),
        lane.marks@[i].label@ == raw.marks@[k].label@,
        lane.marks@[i].sub@ == raw.marks@[k].sub@,
        lane.marks@[i].kind@ == raw.kind@,
        lane.marks@[i].uncertain <==> lane.marks@[i].t is Some && proj.crosses_clocks(),
{
    let order = an_order_of(lane, raw, at, proj);
    let place = (raw.native@.len() + k) as usize;
    assert(order.contains(place));
    let i = choose|i: int| 0 <= i < order.len() && order[i] == place;
    assert(is_placed(lane.marks@[i], raw, at, proj, order[i] as int));
    i
}

/// Every marker of a trace is one of its lane's marks, where the trace put it.
pub proof fn every_marker_is_a_mark(
    lane: MarkLane,
    raw: RawLane,
    at: int,
    proj: Projection,
    k: int,
) -> (i: int)
    requires
        lane.places(raw, at, proj),
        raw.native@.len() + raw.marks@.len() <= usize::MAX,
        0 <= k < raw.native@.len(),
    ensures
        0 <= i < lane.marks@.len(),
        lane.marks@[i].core_rx_utc_ms is None,
        lane.marks@[i].t == Some(raw.native@[k].t),
        lane.marks@[i].label@ == raw.native@[k].label@,
        lane.marks@[i].sub@ == raw.native@[k].sub@,
        !lane.marks@[i].uncertain,
{
    let order = an_order_of(lane, raw, at, proj);
    assert(order.contains(k as usize));
    let i = choose|i: int| 0 <= i < order.len() && order[i] == k as usize;
    assert(is_placed(lane.marks@[i], raw, at, proj, order[i] as int));
    i
}

/// A lane on the chart is the lane that was gathered: its own name, kind, tap and account.
pub proof fn a_lane_keeps_its_name_and_account(
    lane: MarkLane,
    raw: RawLane,
    at: int,
    proj: Projection,
)
    requires
        lane.places(raw, at, proj),
    ensures
        lane.key@ == raw.key@,
        lane.label@ == raw.label@,
        lane.kind@ == raw.kind@,
        lane.source@ == raw.source@,
        lane.tap@ == raw.tap@,
        lane.total == raw.total,
        lane.dropped_by_cap == raw.dropped_by_cap,
        lane.note is Some <==> raw.note is Some,
        lane.note is Some ==> lane.note->0@ == raw.note->0@,
        lane.before == raw.marks@.filter(
            |m: RawMark|
                proj.position(m.core_rx_utc_ms) is None && m.core_rx_utc_ms < proj.opens_at(),
        ).len(),
        lane.after == raw.marks@.filter(
            |m: RawMark|
                proj.position(m.core_rx_utc_ms) is None && m.core_rx_utc_ms >= proj.opens_at(),
        ).len(),
        lane.placed == raw.native@.len() + raw.marks@.filter(
            |m: RawMark| proj.position(m.core_rx_utc_ms) is Some,
        ).len(),
{
    an_event_is_counted_where_it_falls(raw.marks@, proj, raw.marks@.len() as int);
    assert(raw.marks@.take(raw.marks@.len() as int) =~= raw.marks@);
}

/// A stream is found by its name where the first of that name stands.
pub proof fn the_first_stream_of_a_name_is_found(entries: Seq<StreamEntry>, name: Seq<char>, n: int)
    requires
        0 <= n <= entries.len(),
    ensures
        match entry_of(entries, name, n) {
            Some(i) => 0 <= i < n && entries[i].name@ == name && forall|j: int|
                0 <= j < i ==> (#[trigger] entries[j]).name@ != name,
            None => forall|j: int| 0 <= j < n ==> (#[trigger] entries[j]).name@ != name,
        },
    decreases n,
{
    if n > 0 {
        the_first_stream_of_a_name_is_found(entries, name, n - 1);
    }
}

/// A mark is found by its id where the first with that id stands.
pub proof fn the_first_mark_of_an_id_is_found(marks: Seq<Mark>, id: u64, n: int)
    requires
        0 <= n <= marks.len(),
    ensures
        match mark_with(marks, id, n) {
            Some(i) => 0 <= i < n && marks[i].id == id && forall|j: int|
                0 <= j < i ==> (#[trigger] marks[j]).id != id,
            None => forall|j: int| 0 <= j < n ==> (#[trigger] marks[j]).id != id,
        },
    decreases n,
{
    if n > 0 {
        the_first_mark_of_an_id_is_found(marks, id, n - 1);
    }
}

/// A window is moved into the axis and no further: it lies within it, one that lay within it
/// already stays, and each edge that was outside comes to lie on the edge it had passed.
pub proof fn a_window_is_moved_into_the_axis(
    binned: BinnedTimeWindow,
    view: TimeChartView,
    from: u64,
    to: u64,
    width: usize,
)
    requires
        binned.tells(view, from, to, width),
        view.axis.t_from < view.axis.t_to,
    ensures
        view.axis.t_from <= binned.from <= binned.to <= view.axis.t_to,
        view.axis.t_from <= from <= view.axis.t_to ==> binned.from == from,
        from < view.axis.t_from ==> binned.from == view.axis.t_from,
        from > view.axis.t_to ==> binned.from == view.axis.t_to,
        binned.from <= to <= view.axis.t_to ==> binned.to == to,
        to > view.axis.t_to ==> binned.to == view.axis.t_to,
        to < binned.from ==> binned.to == binned.from,
        binned.width == width,
        binned.lanes@.len() == view.lanes@.len(),
        binned.series@.len() == view.series@.len(),
{
}

/// An axis of a single instant is one unit long to a window on it.
pub proof fn an_instant_is_one_unit_long(
    binned: BinnedTimeWindow,
    view: TimeChartView,
    from: u64,
    to: u64,
    width: usize,
)
    requires
        binned.tells(view, from, to, width),
        view.axis.t_to <= view.axis.t_from < u64::MAX,
    ensures
        view.axis.t_from <= binned.from <= binned.to <= view.axis.t_from + 1,
        from <= view.axis.t_from ==> binned.from == view.axis.t_from,
        from > view.axis.t_from ==> binned.from == view.axis.t_from + 1,
        to > view.axis.t_from ==> binned.to == view.axis.t_from + 1,
{
}

/// Each lane of a windowed answer keeps its account: what is before the window, in it and
/// after it is every mark of the lane that has a position.
pub proof fn a_window_loses_no_mark(
    binned: BinnedTimeWindow,
    view: TimeChartView,
    from: u64,
    to: u64,
    width: usize,
    i: int,
)
    requires
        binned.tells(view, from, to, width),
        view.axis.t_from < view.axis.t_to,
        0 <= i < view.lanes@.len(),
    ensures
        binned.lanes@[i].key@ == view.lanes@[i].key@,
        binned.lanes@[i].before + binned.lanes@[i].visible + binned.lanes@[i].after
            == view.lanes@[i].marks@.filter(|m: Mark| m.t is Some).len(),
{
    let w = Window { from: binned.from as nat, to: binned.to as nat, width: width as nat };
    assert(binned.lanes@[i].tells(view.lanes@[i], w));
    crate::time_chart::marks::every_placed_mark_is_counted(view.lanes@[i].marks@, w);
}

/// A trace is named as it was read, and says why it drew nothing where it did not draw.
pub proof fn a_trace_that_draws_nothing_says_why(
    r: TraceRef,
    trace: TraceSummary,
    e: StreamEntry,
    drew: bool,
)
    requires
        r.tells(trace, e, drew),
    ensures
        r.drew_the_axis == drew,
        !drew ==> r.note is Some,
        trace.note is Some ==> r.note is Some && r.note->0@ == trace.note->0@,
        trace.note is None && drew ==> r.note is None,
        trace.note is None && !drew ==> r.note->0@ == NO_TIME_BASE@,
        r.tap@ == trace.tap@,
        r.unit@ == trace.unit@,
        r.axis_clock@ == trace.axis_clock@,
        r.dual_clock == trace.dual_clock,
        r.named == e.named,
        r.timed == e.timed,
{
}

/// A study without a step row says so and draws no band, and one with a row draws it as it
/// is.
pub proof fn a_step_row_is_drawn_as_it_is(
    view: TimeChartView,
    input: ChartInput,
    gathered: Gathered,
    values: Seq<Vec<Option<u64>>>,
    steps: Option<StepBands>,
    proj: Projection,
)
    requires
        view.tells(input, gathered, values, steps, proj),
    ensures
        steps is Some ==> view.bands@ == steps->0.bands@ && view.steps_note@ == steps->0.note@
            && view.steps_placeable == steps->0.placeable,
        steps is None ==> view.bands@.len() == 0 && !view.steps_placeable && view.steps_note@
            == NO_STEPS@,
        view.axis_epoch == 0,
        view.study_id@ == input.study_id@,
        view.lanes@.len() == gathered.lanes@.len(),
        view.series@.len() == gathered.sampled@.len(),
{
}

/// A chart names the first rendered trace of its study wherever that decoded, and says that
/// it drew the axis exactly where it places instants.
pub proof fn a_decoded_trace_is_named(r: Option<TraceRef>, input: ChartInput, i: int)
    requires
        names_trace(r, input),
        0 <= i < input.entries@.len(),
        input.entries@[i].rendered,
        input.entries@[i].encoding is OutpostTrace,
    ensures
        r is Some <==> input.trace is Some,
        r is Some ==> r->0.tap@ == input.trace->0.tap@,
        r is Some ==> (r->0.drew_the_axis <==> input.trace_axis is Some
            && !(input.trace_axis->0 is Nowhere)),
{
    let n = input.entries@.len() as int;
    crate::time_chart::gather::a_rendered_trace_is_listed(input.entries@, n, input.entries@[i].name@);
    assert(input.taps().len() > 0);
    the_first_stream_of_a_name_is_found(input.entries@, input.taps()[0], n);
    let k = choose|k: int|
        0 <= k < n && (#[trigger] input.entries@[k]).name@ == input.taps()[0]
            && input.entries@[k].rendered && input.entries@[k].encoding is OutpostTrace;
    assert(input.entries@[k].name@ == input.taps()[0]);
}

} // verus!
