//! What a browser is sent of a session: the chart as it grows, and the whole run so
//! far for one that has just connected.

use vstd::prelude::*;
use vstd::string::*;
use vstd::std_specs::vecdeque::*;
use crate::live_study::axis::AxisView;
use crate::live_study::console::{lines, ConsoleLine, ConsoleState, Past};
use crate::live_study::lane::{placed_marks, LaneState, LiveLane, PlacedMark};
use crate::live_study::series::{Point, SeriesState};
use crate::live_study::session::{FeedRow, Session, SessionState, StatusView, StepRow, MAX_FEED_EVENTS};
use crate::projection::Projection;
use crate::shelf::Shelf;
use crate::text::{copy_opt, opt_view};
use crate::time_chart::view::{StepBand, StepBands};

verus! {

/// How often a chart frame goes out at most, in milliseconds.
pub const TIME_CHART_MIN_INTERVAL_MS: u64 = 400;

/// One lane of a chart frame.
#[derive(Debug)]
pub struct ChartLane {
    pub key: String,
    pub label: String,
    pub kind: &'static str,
    pub total: u64,
    pub dropped: u64,
    /// Marks past the axis's leading edge: counted, not drawn.
    pub pending: usize,
    pub marks: Vec<PlacedMark>,
}

/// The chart, whole or what became placeable since the last frame.
#[derive(Debug)]
pub struct ChartFrame {
    pub axis: AxisView,
    pub epoch: u64,
    /// Whether this replaces everything drawn before.
    pub replace: bool,
    pub lanes: Vec<ChartLane>,
    /// The step row on the same axis, where steps are stamped.
    pub bands: Option<Vec<StepBand>>,
    pub steps_placeable: bool,
    pub steps_note: Option<String>,
}

/// The lane that a frame is taken from: rewound where the frame replaces everything.
pub open spec fn taken_from(lane: LaneState, replace: bool) -> LaneState {
    if replace {
        lane.rewound()
    } else {
        lane
    }
}

impl ChartLane {
    /// Whether this is what `lane`, under `key`, hands out on `proj`.
    pub open spec fn tells(
        &self,
        key: Seq<char>,
        lane: LaneState,
        proj: Projection,
        replace: bool,
    ) -> bool {
        let from = taken_from(lane, replace);
        &&& self.key@ == key
        &&& self.label@ == lane.label
        &&& self.kind@ == lane.kind
        &&& self.total == lane.total
        &&& self.dropped == lane.dropped
        &&& self.pending == lane.marks.len() - from.placeable_to(proj)
        &&& placed_marks(self.marks@) == from.placeable(proj, proj.crosses_clocks())
    }
}

impl Session {
    /// The session once a chart frame was taken from its lanes.
    pub open spec fn charted(self, proj: Projection, replace: bool) -> Session {
        Session {
            lanes: self.lanes.map_values(
                |lane: LaneState| taken_from(lane, replace).handed_out(proj),
            ),
            ..self
        }
    }
}

impl ChartFrame {
    /// Whether this is the chart of the session that holds `lanes`, in their order, with
    /// `steps` as its step row.
    pub open spec fn tells(
        &self,
        s: Session,
        lanes: Shelf<LiveLane>,
        proj: Projection,
        steps: Option<StepBands>,
        replace: bool,
    ) -> bool {
        &&& self.axis.tells(s.axis, proj)
        &&& self.epoch == s.axis.epoch
        &&& self.replace == replace
        &&& match steps {
            Some(row) => {
                &&& self.bands == Some(row.bands)
                &&& self.steps_placeable == row.placeable
                &&& self.steps_note == Some(row.note)
            },
            None => {
                &&& self.bands is None
                &&& !self.steps_placeable
                &&& self.steps_note is None
            },
        }
        &&& self.lanes@.len() == lanes.entries@.len()
        &&& forall|i: int|
            0 <= i < self.lanes@.len() ==> (#[trigger] self.lanes@[i]).tells(
                lanes.entries@[i].key@,
                lanes.entries@[i].item@,
                proj,
                replace,
            )
    }
}

impl SessionState {
    fn chart(&mut self, proj: &Projection, steps: Option<StepBands>, replace: bool) -> (r: ChartFrame)
        requires
            old(self).wf(),
            proj.wf(),
        ensures
            final(self).wf(),
            final(self)@ == old(self)@.charted(*proj, replace),
            r.tells(old(self)@, old(self).lanes, *proj, steps, replace),
            final(self).lanes.keys() == old(self).lanes.keys(),
            final(self).consoles == old(self).consoles,
            final(self).series == old(self).series,
    {
        let axis = self.axis.describe(proj);
        let epoch: u64 = self.axis.epoch;
        let mut out: Vec<ChartLane> = Vec::new();
        let n: usize = self.lanes.entries.len();
        let uncertain = proj.projected();
        let ghost start = *self;
        for i in 0..n
            invariant
                start == *old(self),
                start.wf(),
                proj.wf(),
                uncertain == proj.crosses_clocks(),
                n == start.lanes.entries@.len(),
                *self == (SessionState { lanes: self.lanes, ..start }),
                self.lanes.entries@.len() == n,
                self.lanes.keys() == start.lanes.keys(),
                out.len() == i,
                forall|j: int|
                    0 <= j < i ==> (#[trigger] out@[j]).tells(
                        start.lanes.entries@[j].key@,
                        start.lanes.entries@[j].item@,
                        *proj,
                        replace,
                    ),
                forall|j: int|
                    i <= j < n ==> #[trigger] self.lanes.entries@[j] == start.lanes.entries@[j],
                forall|j: int|
                    0 <= j < i ==> (#[trigger] self.lanes.entries@[j]).item@ == taken_from(
                        start.lanes.entries@[j].item@,
                        replace,
                    ).handed_out(*proj) && self.lanes.entries@[j].item@.wf(),
        {
            assert(self.lanes.entries@[i as int] == start.lanes.entries@[i as int]);
            let (marks, pending) = if replace {
                self.lanes.entries[i].item.place_all(proj, uncertain)
            } else {
                self.lanes.entries[i].item.take_placeable(proj, uncertain)
            };
            let lane = &self.lanes.entries[i];
            let told = ChartLane {
                key: lane.key.clone(),
                label: lane.item.label.clone(),
                kind: lane.item.kind,
                total: lane.item.total,
                dropped: lane.item.dropped,
                pending,
                marks,
            };
            out.push(told);
            assert(self.lanes.keys() =~= start.lanes.keys());
        }
        proof {
            assert forall|k: Seq<char>| #[trigger] start.lanes.has(k) implies start.lanes.index(k)
                == self.lanes.index(k) by {
                start.lanes.index_is(start.lanes.index(k));
                self.lanes.index_is(start.lanes.index(k));
            }
            assert(self@.lanes =~= start@.charted(*proj, replace).lanes);
        }
        let (bands, steps_placeable, steps_note) = match steps {
            Some(row) => (Some(row.bands), row.placeable, Some(row.note)),
            None => (None, false, None),
        };
        ChartFrame { axis, epoch, replace, lanes: out, bands, steps_placeable, steps_note }
    }

    /// The whole chart as it stands, counting everything in it as sent. `steps` is the step
    /// row placed on the same axis.
    pub fn time_chart_snapshot(&mut self, proj: &Projection, steps: Option<StepBands>) -> (r:
        ChartFrame)
        requires
            old(self).wf(),
            proj.wf(),
        ensures
            final(self).wf(),
            final(self)@ == old(self)@.charted(*proj, true),
            r.tells(old(self)@, old(self).lanes, *proj, steps, true),
            final(self).lanes.keys() == old(self).lanes.keys(),
    {
        self.chart(proj, steps, true)
    }

    /// The marks that became placeable since the last frame, and nothing else.
    pub fn time_chart_delta(&mut self, proj: &Projection, steps: Option<StepBands>) -> (r: ChartFrame)
        requires
            old(self).wf(),
            proj.wf(),
        ensures
            final(self).wf(),
            final(self)@ == old(self)@.charted(*proj, false),
            r.tells(old(self)@, old(self).lanes, *proj, steps, false),
            final(self).lanes.keys() == old(self).lanes.keys(),
    {
        self.chart(proj, steps, false)
    }

    /// A chart frame, at most one per interval; or a whole replacement where the axis
    /// moved, which no interval holds back.
    pub fn time_chart_frame(
        &mut self,
        moved: bool,
        now_ms: u64,
        proj: &Projection,
        steps: Option<StepBands>,
    ) -> (r: Option<ChartFrame>)
        requires
            old(self).wf(),
            proj.wf(),
        ensures
            final(self).wf(),
            r is Some == (moved || old(self)@.chart_is_due(now_ms)),
            r is Some ==> r->0.tells(old(self)@, old(self).lanes, *proj, steps, moved),
            final(self)@ == (if moved || old(self)@.chart_is_due(now_ms) {
                Session { last_time_chart: Some(now_ms), ..old(self)@.charted(*proj, moved) }
            } else {
                old(self)@
            }),
    {
        if moved {
            let frame = self.chart(proj, steps, true);
            self.last_time_chart = Some(now_ms);
            return Some(frame);
        }
        if let Some(last) = self.last_time_chart {
            let since: u64 = if now_ms >= last {
                now_ms - last
            } else {
                0
            };
            if since < TIME_CHART_MIN_INTERVAL_MS {
                return None;
            }
        }
        let frame = self.chart(proj, steps, false);
        self.last_time_chart = Some(now_ms);
        Some(frame)
    }
}

impl Session {
    /// Whether the interval since the last chart frame is over.
    pub open spec fn chart_is_due(self, now_ms: u64) -> bool {
        match self.last_time_chart {
            Some(last) => now_ms >= last + TIME_CHART_MIN_INTERVAL_MS,
            None => true,
        }
    }
}

// ---- the snapshot ------------------------------------------------------------

/// A console as a snapshot carries it.
#[derive(Debug)]
pub struct ConsoleOut {
    pub tap: String,
    pub lines: Vec<ConsoleLine>,
    pub partial: String,
    /// Whether more of the unfinished line arrived than `partial` holds.
    pub partial_truncated: bool,
    pub dropped: u64,
    pub total: u64,
}

impl ConsoleOut {
    pub open spec fn tells(&self, tap: Seq<char>, c: ConsoleState) -> bool {
        &&& self.tap@ == tap
        &&& lines(self.lines@) == c.lines
        &&& self.partial@ == c.rest.text
        &&& self.partial_truncated == (c.rest.past is More)
        &&& self.dropped == c.dropped
        &&& self.total == c.total
    }
}

/// A series as a snapshot carries it.
#[derive(Debug)]
pub struct SeriesOut {
    pub tap: String,
    pub points: Vec<Point>,
    pub unit: Option<String>,
    pub stride: u32,
    pub total: u64,
}

impl SeriesOut {
    pub open spec fn tells(&self, tap: Seq<char>, s: SeriesState) -> bool {
        &&& self.tap@ == tap
        &&& self.points@ == s.points
        &&& opt_view(self.unit) == s.unit
        &&& self.stride == s.step()
        &&& self.total == s.total
    }
}

/// The whole run so far.
#[derive(Debug)]
pub struct SessionSnapshot {
    pub kind: &'static str,
    pub study_id: String,
    pub status: StatusView,
    pub steps: Vec<StepRow>,
    pub feed: Vec<FeedRow>,
    pub feed_dropped: u64,
    pub feed_total: u64,
    pub feed_cap: usize,
    pub consoles: Vec<ConsoleOut>,
    pub series: Vec<SeriesOut>,
    pub provenance: Option<String>,
    pub streams: Option<String>,
    pub time_chart: ChartFrame,
}

impl SessionSnapshot {
    /// Whether this is everything `s` holds of the run of `study_id`, with its chart on
    /// `proj` and `steps` as its step row.
    pub open spec fn tells(
        &self,
        study_id: Seq<char>,
        s: SessionState,
        proj: Projection,
        steps: Option<StepBands>,
    ) -> bool {
        &&& self.kind@ == "snapshot"@
        &&& self.study_id@ == study_id
        &&& self.status.tells(s@)
        &&& self.steps@.len() == s@.steps.len()
        &&& forall|i: int|
            0 <= i < self.steps@.len() ==> ((#[trigger] self.steps@[i]).index, self.steps@[i].record@)
                == s@.steps[i]
        &&& self.feed@.len() == s@.feed.len()
        &&& forall|i: int| 0 <= i < self.feed@.len() ==> (#[trigger] self.feed@[i])@ == s@.feed[i]
        &&& self.feed_dropped == s@.feed_dropped
        &&& self.feed_total == s@.feed_total
        &&& self.feed_cap == MAX_FEED_EVENTS
        &&& self.consoles@.len() == s.consoles.entries@.len()
        &&& forall|i: int|
            0 <= i < self.consoles@.len() ==> (#[trigger] self.consoles@[i]).tells(
                s.consoles.entries@[i].key@,
                s.consoles.entries@[i].item@,
            )
        &&& self.series@.len() == s.series.entries@.len()
        &&& forall|i: int|
            0 <= i < self.series@.len() ==> (#[trigger] self.series@[i]).tells(
                s.series.entries@[i].key@,
                s.series.entries@[i].item@,
            )
        &&& opt_view(self.provenance) == s@.provenance
        &&& opt_view(self.streams) == s@.streams
        &&& self.time_chart.tells(s@, s.lanes, proj, steps, true)
    }
}

impl SessionState {
    fn steps_out(&self) -> (r: Vec<StepRow>)
        ensures
            r@.len() == self@.steps.len(),
            forall|i: int|
                0 <= i < r@.len() ==> ((#[trigger] r@[i]).index, r@[i].record@) == self@.steps[i],
    {
        let mut out: Vec<StepRow> = Vec::new();
        for i in 0..self.steps.len()
            invariant
                out.len() == i,
                forall|j: int|
                    0 <= j < i ==> ((#[trigger] out@[j]).index, out@[j].record@) == self@.steps[j],
        {
            out.push(StepRow { index: self.steps[i].index, record: self.steps[i].record.clone() });
        }
        out
    }

    fn feed_out(&self) -> (r: Vec<FeedRow>)
        ensures
            r@.len() == self@.feed.len(),
            forall|i: int| 0 <= i < r@.len() ==> (#[trigger] r@[i])@ == self@.feed[i],
    {
        let mut out: Vec<FeedRow> = Vec::new();
        for i in 0..self.feed.len()
            invariant
                out.len() == i,
                forall|j: int| 0 <= j < i ==> (#[trigger] out@[j])@ == self@.feed[j],
        {
            let row = &self.feed[i];
            out.push(FeedRow { seq: row.seq, kind: row.kind, text: row.text.clone() });
        }
        out
    }

    fn consoles_out(&self) -> (r: Vec<ConsoleOut>)
        ensures
            r@.len() == self.consoles.entries@.len(),
            forall|i: int|
                0 <= i < r@.len() ==> (#[trigger] r@[i]).tells(
                    self.consoles.entries@[i].key@,
                    self.consoles.entries@[i].item@,
                ),
    {
        let mut out: Vec<ConsoleOut> = Vec::new();
        for i in 0..self.consoles.entries.len()
            invariant
                out.len() == i,
                forall|j: int|
                    0 <= j < i ==> (#[trigger] out@[j]).tells(
                        self.consoles.entries@[j].key@,
                        self.consoles.entries@[j].item@,
                    ),
        {
            let entry = &self.consoles.entries[i];
            let mut copies: Vec<ConsoleLine> = Vec::new();
            for k in 0..entry.item.lines.len()
                invariant
                    copies.len() == k,
                    forall|j: int| 0 <= j < k ==> (#[trigger] copies@[j])@ == entry.item.lines@[j]@,
            {
                copies.push(entry.item.lines[k].copied());
            }
            assert(lines(copies@) =~= entry.item@.lines);
            out.push(
                ConsoleOut {
                    tap: entry.key.clone(),
                    lines: copies,
                    partial: entry.item.partial.clone(),
                    partial_truncated: entry.item.partial_past == Past::More,
                    dropped: entry.item.dropped,
                    total: entry.item.total,
                },
            );
        }
        out
    }

    fn series_out(&self) -> (r: Vec<SeriesOut>)
        ensures
            r@.len() == self.series.entries@.len(),
            forall|i: int|
                0 <= i < r@.len() ==> (#[trigger] r@[i]).tells(
                    self.series.entries@[i].key@,
                    self.series.entries@[i].item@,
                ),
    {
        let mut out: Vec<SeriesOut> = Vec::new();
        for i in 0..self.series.entries.len()
            invariant
                out.len() == i,
                forall|j: int|
                    0 <= j < i ==> (#[trigger] out@[j]).tells(
                        self.series.entries@[j].key@,
                        self.series.entries@[j].item@,
                    ),
        {
            let entry = &self.series.entries[i];
            let mut points: Vec<Point> = Vec::new();
            for k in 0..entry.item.points.len()
                invariant
                    points@ =~= entry.item.points@.take(k as int),
            {
                points.push(entry.item.points[k]);
            }
            assert(points@ =~= entry.item@.points);
            out.push(
                SeriesOut {
                    tap: entry.key.clone(),
                    points,
                    unit: copy_opt(&entry.item.unit),
                    stride: entry.item.shown_stride(),
                    total: entry.item.total,
                },
            );
        }
        out
    }

    /// The whole run of `study_id` so far: what a browser that has just connected is sent
    /// first.
    pub fn snapshot(&mut self, study_id: &str, proj: &Projection, steps: Option<StepBands>) -> (r:
        SessionSnapshot)
        requires
            old(self).wf(),
            proj.wf(),
        ensures
            final(self).wf(),
            final(self)@ == old(self)@.charted(*proj, true),
            r.tells(study_id@, *old(self), *proj, steps),
    {
        let time_chart = self.chart(proj, steps, true);
        SessionSnapshot {
            kind: "snapshot",
            study_id: study_id.to_owned(),
            status: self.status_view(),
            steps: self.steps_out(),
            feed: self.feed_out(),
            feed_dropped: self.feed_dropped,
            feed_total: self.feed_total,
            feed_cap: MAX_FEED_EVENTS,
            consoles: self.consoles_out(),
            series: self.series_out(),
            provenance: copy_opt(&self.provenance),
            streams: copy_opt(&self.streams),
            time_chart,
        }
    }
}

// ---- laws --------------------------------------------------------------------

/// A chart frame is due once four tenths of a second have passed since the last one, and at
/// once where there was none.
pub proof fn a_frame_is_due_after_its_interval(s: Session, now_ms: u64)
    ensures
        s.last_time_chart is None ==> s.chart_is_due(now_ms),
        s.last_time_chart is Some ==> (s.chart_is_due(now_ms) <==> now_ms - s.last_time_chart->0
            >= 400),
{
}

/// A frame that adds to a chart carries the marks that were not sent, from the first of them
/// up to the first without a position; one that replaces it carries them from the beginning.
/// Every mark that is held was sent before, is in the frame or is counted as pending.
pub proof fn a_frame_carries_what_became_placeable(
    out: ChartLane,
    key: Seq<char>,
    lane: LaneState,
    proj: Projection,
    replace: bool,
)
    requires
        lane.wf(),
        out.tells(key, lane, proj, replace),
    ensures
        ({
            let from = if replace {
                0
            } else {
                lane.emitted as int
            };
            &&& from + out.marks@.len() + out.pending == lane.marks.len()
            &&& forall|i: int|
                0 <= i < out.marks@.len() ==> {
                    &&& (#[trigger] out.marks@[i]).core_rx_utc_ms == lane.marks[from
                        + i].core_rx_utc_ms
                    &&& out.marks@[i].label@ == lane.marks[from + i].label
                    &&& out.marks@[i].sub@ == lane.marks[from + i].sub
                    &&& Some(out.marks@[i].t) == proj.position(out.marks@[i].core_rx_utc_ms)
                    &&& out.marks@[i].uncertain == proj.crosses_clocks()
                }
            &&& out.pending > 0 ==> proj.position(
                lane.marks[from + out.marks@.len()].core_rx_utc_ms,
            ) is None
            &&& out.key@ == key
            &&& out.label@ == lane.label
            &&& out.total == lane.total
            &&& out.dropped == lane.dropped
        }),
{
    let taken = taken_from(lane, replace);
    crate::live_study::lane::reach_stops_at_the_first_unplaceable(
        lane.marks,
        proj,
        taken.emitted as int,
    );
    assert(placed_marks(out.marks@).len() == out.marks@.len());
    assert forall|i: int| 0 <= i < out.marks@.len() implies placed_marks(out.marks@)[i] == (
    #[trigger] out.marks@[i])@ by {}
}

/// A whole chart sent twice is the same chart: what was sent before does not matter to it.
pub proof fn a_replacement_forgets_what_was_sent(s: Session, proj: Projection)
    ensures
        s.charted(proj, false).charted(proj, true).lanes =~= s.charted(proj, true).lanes,
{
}

/// A console goes out as it is held: its lines, what it holds of the line that is not ended,
/// and whether there was more of that than it holds.
pub proof fn a_console_goes_out_as_it_is_held(out: ConsoleOut, tap: Seq<char>, c: ConsoleState)
    requires
        out.tells(tap, c),
    ensures
        out.tap@ == tap,
        out.lines@.len() == c.lines.len(),
        forall|i: int| 0 <= i < out.lines@.len() ==> (#[trigger] out.lines@[i])@ == c.lines[i],
        out.partial@ == c.rest.text,
        out.partial_truncated <==> c.rest.past is More,
        out.total == c.total,
        out.dropped == c.dropped,
{
    assert(lines(out.lines@).len() == out.lines@.len());
    assert forall|i: int| 0 <= i < out.lines@.len() implies lines(out.lines@)[i] == (
    #[trigger] out.lines@[i])@ by {}
}

/// A series goes out as it is held, and never says that it keeps none of its samples.
pub proof fn a_series_goes_out_as_it_is_held(out: SeriesOut, tap: Seq<char>, s: SeriesState)
    requires
        out.tells(tap, s),
    ensures
        out.tap@ == tap,
        out.points@ == s.points,
        out.total == s.total,
        out.stride >= 1,
        s.stride > 0 ==> out.stride == s.stride,
        out.unit is Some <==> s.unit is Some,
        out.unit is Some ==> out.unit->0@ == s.unit->0,
{
}

} // verus!
