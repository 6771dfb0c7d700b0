//! One study being watched: everything that arrived so far, and what is told to the
//! browsers about each item.

use std::collections::VecDeque;
use vstd::prelude::*;
use vstd::string::*;
use vstd::std_specs::vecdeque::*;
use crate::live_study::axis::{AxisState, LiveAxis, TraceFrame};
use crate::live_study::console::{lines, newlines, one_line_per_newline, Console, ConsoleLine, ConsoleState, Line, Past, Stamp};
use crate::live_study::lane::{LaneState, LiveLane, LiveMark, MarkState};
use crate::live_study::series::{series_of, Arrived, Point, Series, SeriesState};
use crate::shelf::{one_item_changed, one_item_ensured, Shelf};
use crate::text::{copy_opt, dec, decimal, first_chars, opt_view};

verus! {

/// Rows kept in the chronological feed.
pub const MAX_FEED_EVENTS: usize = 5_000;

/// Steps kept per session.
pub const MAX_STEPS: usize = 64;

/// Characters of a console line that its mark is labelled with.
pub const MARK_LABEL_CHARS: usize = 160;

/// One row of the chronological feed.
#[derive(Debug)]
pub struct FeedRow {
    pub seq: u64,
    /// What the feed is filtered on.
    pub kind: &'static str,
    pub text: String,
}

/// What a [`FeedRow`] says.
pub ghost struct RowState {
    pub seq: nat,
    pub kind: Seq<char>,
    pub text: Seq<char>,
}

impl View for FeedRow {
    type V = RowState;

    open spec fn view(&self) -> RowState {
        RowState { seq: self.seq as nat, kind: self.kind@, text: self.text@ }
    }
}

/// How items reach this session.
#[derive(Debug, Clone, Copy, PartialEq, Eq, Structural)]
pub enum FollowMode {
    Live,
    Polling,
}

/// How a step ended.
#[derive(Debug)]
pub enum StepOutcome {
    Pass,
    TimedOut,
    Fail { reason: String },
}

/// A finished step's own record.
#[derive(Debug)]
pub struct StepResult {
    pub step_name: String,
    pub outcome: StepOutcome,
    /// The step's record, verbatim.
    pub record: String,
}

/// One entry of a GATT transcript.
#[derive(Debug)]
pub struct GattEntry {
    pub direction: String,
    pub kind: String,
    /// The characteristic, hyphenated, where the entry has one.
    pub characteristic: Option<String>,
    pub payload_len: usize,
    /// The entry, verbatim.
    pub record: String,
}

/// One sample of a batch.
#[derive(Debug)]
pub struct LiveSample {
    pub rx_utc_ms: u64,
    pub value_bits: u64,
    pub unit: Option<String>,
}

/// Something that happened in a study.
#[derive(Debug)]
pub enum StudyEvent {
    StatusChanged { status: String, reason: Option<String> },
    StepCompleted {
        step_index: u32,
        result: StepResult,
        started_utc_ms: Option<u64>,
        ended_utc_ms: Option<u64>,
        delay_before_ms: Option<u32>,
    },
    SampleBatch { stream_name: String, samples: Vec<LiveSample> },
    GattTranscript { step_index: u32, entry: GattEntry, core_rx_utc_ms: Option<u64> },
    OutpostRows { frame: TraceFrame },
    StreamText {
        stream_name: String,
        step_index: u32,
        rx_utc_ms: u64,
        core_rx_utc_ms: Option<u64>,
        text: String,
    },
}

/// One item off the follow of a study.
#[derive(Debug)]
#[allow(inconsistent_fields)]
pub enum FollowItem {
    Transport { mode: FollowMode, detail: String },
    Lagged { missed: u64 },
    Unrecognized { event: String, reason: String },
    Polled {
        status: String,
        current_step: Option<u32>,
        total_steps: Option<u32>,
        reason: Option<String>,
    },
    Event(StudyEvent),
}

/// One finished step, in order of arrival.
#[derive(Debug)]
pub struct StepRow {
    pub index: u32,
    pub record: String,
}

/// When a step ran, on the receipt clock.
#[derive(Debug)]
pub struct StepStamp {
    pub index: u32,
    pub name: String,
    pub outcome: String,
    pub reason: Option<String>,
    pub delay_before_ms: u32,
    pub started_utc_ms: u64,
    pub ended_utc_ms: u64,
}

/// What a [`StepStamp`] says.
pub ghost struct StampState {
    pub index: u32,
    pub name: Seq<char>,
    pub outcome: Seq<char>,
    pub reason: Option<Seq<char>>,
    pub delay_before_ms: u32,
    pub started_utc_ms: u64,
    pub ended_utc_ms: u64,
}

impl View for StepStamp {
    type V = StampState;

    open spec fn view(&self) -> StampState {
        StampState {
            index: self.index,
            name: self.name@,
            outcome: self.outcome@,
            reason: opt_view(self.reason),
            delay_before_ms: self.delay_before_ms,
            started_utc_ms: self.started_utc_ms,
            ended_utc_ms: self.ended_utc_ms,
        }
    }
}

/// Everything one session holds.
#[derive(Debug)]
pub struct SessionState {
    pub status: String,
    pub reason: Option<String>,
    pub current_step: Option<u32>,
    pub total_steps: Option<u32>,
    pub study_name: Option<String>,
    /// `live` or `polling`.
    pub mode: &'static str,
    pub mode_detail: Option<String>,
    /// Events that were dropped before they reached this session.
    pub lagged: u64,
    pub seq: u64,
    pub feed: VecDeque<FeedRow>,
    pub feed_dropped: u64,
    pub feed_total: u64,
    pub steps: Vec<StepRow>,
    pub consoles: Shelf<Console>,
    pub series: Shelf<Series>,
    /// The finished study's provenance and streams, as its record tells them.
    pub provenance: Option<String>,
    pub streams: Option<String>,
    /// Set where that record could not be read.
    pub record_note: Option<String>,
    /// Set once the follow has ended.
    pub finished: bool,
    pub axis: LiveAxis,
    pub step_stamps: Vec<StepStamp>,
    /// One lane of unplaced marks per stream.
    pub lanes: Shelf<LiveLane>,
    /// When a chart frame last went out, in milliseconds.
    pub last_time_chart: Option<u64>,
}

/// What a [`SessionState`] holds.
pub ghost struct Session {
    pub status: Seq<char>,
    pub reason: Option<Seq<char>>,
    pub current_step: Option<u32>,
    pub total_steps: Option<u32>,
    pub study_name: Option<Seq<char>>,
    pub mode: Seq<char>,
    pub mode_detail: Option<Seq<char>>,
    pub lagged: nat,
    pub seq: nat,
    pub feed: Seq<RowState>,
    pub feed_dropped: nat,
    pub feed_total: nat,
    pub steps: Seq<(u32, Seq<char>)>,
    pub consoles: Map<Seq<char>, ConsoleState>,
    pub series: Map<Seq<char>, SeriesState>,
    pub provenance: Option<Seq<char>>,
    pub streams: Option<Seq<char>>,
    pub record_note: Option<Seq<char>>,
    pub finished: bool,
    pub axis: AxisState,
    pub step_stamps: Seq<StampState>,
    pub lanes: Map<Seq<char>, LaneState>,
    pub last_time_chart: Option<u64>,
}

impl View for SessionState {
    type V = Session;

    open spec fn view(&self) -> Session {
        Session {
            status: self.status@,
            reason: opt_view(self.reason),
            current_step: self.current_step,
            total_steps: self.total_steps,
            study_name: opt_view(self.study_name),
            mode: self.mode@,
            mode_detail: opt_view(self.mode_detail),
            lagged: self.lagged as nat,
            seq: self.seq as nat,
            feed: Seq::new(self.feed@.len(), |i: int| self.feed@[i]@),
            feed_dropped: self.feed_dropped as nat,
            feed_total: self.feed_total as nat,
            steps: Seq::new(
                self.steps@.len(),
                |i: int| (self.steps@[i].index, self.steps@[i].record@),
            ),
            consoles: self.consoles@,
            series: self.series@,
            provenance: opt_view(self.provenance),
            streams: opt_view(self.streams),
            record_note: opt_view(self.record_note),
            finished: self.finished,
            axis: self.axis@,
            step_stamps: Seq::new(self.step_stamps@.len(), |i: int| self.step_stamps@[i]@),
            lanes: self.lanes@,
            last_time_chart: self.last_time_chart,
        }
    }
}

/// The status card.
#[derive(Debug)]
pub struct StatusView {
    pub status: String,
    pub reason: Option<String>,
    pub current_step: Option<u32>,
    pub total_steps: Option<u32>,
    pub study_name: Option<String>,
    pub mode: &'static str,
    pub mode_detail: Option<String>,
    pub lagged: u64,
    pub finished: bool,
    pub record_note: Option<String>,
}

impl StatusView {
    /// Whether this is the status of `s`.
    pub open spec fn tells(&self, s: Session) -> bool {
        &&& self.status@ == s.status
        &&& opt_view(self.reason) == s.reason
        &&& self.current_step == s.current_step
        &&& self.total_steps == s.total_steps
        &&& opt_view(self.study_name) == s.study_name
        &&& self.mode@ == s.mode
        &&& opt_view(self.mode_detail) == s.mode_detail
        &&& self.lagged == s.lagged
        &&& self.finished == s.finished
        &&& opt_view(self.record_note) == s.record_note
    }
}

/// How much of the feed is still held: what went off its front, and all there ever was.
#[derive(Debug, Clone, Copy, PartialEq, Eq, Structural)]
pub struct FeedCounts {
    pub dropped: u64,
    pub total: u64,
}

impl FeedCounts {
    pub open spec fn tells(self, s: Session) -> bool {
        self.dropped == s.feed_dropped && self.total == s.feed_total
    }
}

/// A frame for the browsers. One that carries a row of the feed carries its counts too, so
/// that a feed that was cut short never looks like a whole one.
#[derive(Debug)]
pub enum Frame {
    Status { status: StatusView, row: FeedRow, feed: FeedCounts },
    Event { row: FeedRow, feed: FeedCounts },
    Step { index: u32, record: String, status: StatusView, row: FeedRow, feed: FeedCounts },
    Samples {
        tap: String,
        points: Vec<Point>,
        stride: u32,
        total: u64,
        row: FeedRow,
        feed: FeedCounts,
    },
    Gatt { step_index: u32, record: String, row: FeedRow, feed: FeedCounts },
    Console {
        tap: String,
        lines: Vec<ConsoleLine>,
        partial: String,
        /// Whether more of the unfinished line arrived than `partial` holds.
        partial_truncated: bool,
        dropped: u64,
        total: u64,
    },
}

/// What an item calls for.
#[derive(Debug)]
pub enum Reply {
    /// A frame to broadcast.
    Send(Frame),
    /// The chart may be redrawn; where `moved` is set, on an axis that changed.
    Chart { moved: bool },
}

impl Session {
    /// A session nothing has arrived for.
    pub open spec fn pending() -> Session {
        Session {
            status: "pending"@,
            reason: None,
            current_step: None,
            total_steps: None,
            study_name: None,
            mode: "live"@,
            mode_detail: None,
            lagged: 0,
            seq: 0,
            feed: Seq::empty(),
            feed_dropped: 0,
            feed_total: 0,
            steps: Seq::empty(),
            consoles: Map::empty(),
            series: Map::empty(),
            provenance: None,
            streams: None,
            record_note: None,
            finished: false,
            axis: AxisState::empty(),
            step_stamps: Seq::empty(),
            lanes: Map::empty(),
            last_time_chart: None,
        }
    }

    /// The session with one more row in its feed: at the cap the oldest one goes, and
    /// is counted.
    pub open spec fn fed(self, kind: Seq<char>, text: Seq<char>) -> Session {
        let all = self.feed.push(RowState { seq: self.seq + 1, kind, text });
        Session {
            seq: self.seq + 1,
            feed_total: self.feed_total + 1,
            feed: if all.len() > MAX_FEED_EVENTS {
                all.drop_first()
            } else {
                all
            },
            feed_dropped: if all.len() > MAX_FEED_EVENTS {
                self.feed_dropped + 1
            } else {
                self.feed_dropped
            },
            ..self
        }
    }
}

/// What `map` holds under `key`, and `empty` where it holds nothing.
pub open spec fn held<V>(map: Map<Seq<char>, V>, key: Seq<char>, empty: V) -> V {
    if map.contains_key(key) {
        map[key]
    } else {
        empty
    }
}

/// A series after a batch.
pub open spec fn after_samples(series: SeriesState, samples: Seq<LiveSample>) -> SeriesState
    decreases samples.len(),
{
    if samples.len() == 0 {
        series
    } else {
        let x = samples.last();
        after_samples(series, samples.drop_last()).after(
            Point { rx_utc_ms: x.rx_utc_ms, value_bits: x.value_bits },
            opt_view(x.unit),
        )
    }
}

/// A batch as a run of samples.
pub open spec fn arrived(samples: Seq<LiveSample>) -> Seq<Arrived> {
    Seq::new(
        samples.len(),
        |i: int|
            Arrived {
                point: Point { rx_utc_ms: samples[i].rx_utc_ms, value_bits: samples[i].value_bits },
                unit: opt_view(samples[i].unit),
            },
    )
}

/// How samples are batched changes nothing: a batch goes on with the run it comes after.
pub proof fn batching_changes_no_series(run: Seq<Arrived>, samples: Seq<LiveSample>)
    ensures
        after_samples(series_of(run), samples) == series_of(run + arrived(samples)),
    decreases samples.len(),
{
    if samples.len() == 0 {
        assert(run + arrived(samples) =~= run);
    } else {
        batching_changes_no_series(run, samples.drop_last());
        let whole = run + arrived(samples);
        assert(whole.drop_last() =~= run + arrived(samples.drop_last()));
        assert(whole.last() == arrived(samples)[samples.len() - 1]);
    }
}

/// The samples of a batch that the series keeps as they arrive.
pub open spec fn kept_samples(series: SeriesState, samples: Seq<LiveSample>) -> Seq<Point>
    decreases samples.len(),
{
    if samples.len() == 0 {
        Seq::empty()
    } else {
        let x = samples.last();
        let before = kept_samples(series, samples.drop_last());
        if after_samples(series, samples.drop_last()).keeps_next() {
            before.push(Point { rx_utc_ms: x.rx_utc_ms, value_bits: x.value_bits })
        } else {
            before
        }
    }
}

/// The first characters of `text`, as many as label a mark.
pub open spec fn mark_label(text: Seq<char>) -> Seq<char> {
    if text.len() <= MARK_LABEL_CHARS {
        text
    } else {
        text.take(MARK_LABEL_CHARS as int)
    }
}

impl Session {
    /// The lane `key`, told its label and kind where it has none yet.
    pub open spec fn lane(self, key: Seq<char>, label: Seq<char>, kind: Seq<char>) -> LaneState {
        let lane = held(self.lanes, key, LaneState::empty());
        if lane.label.len() == 0 {
            LaneState { label, kind, ..lane }
        } else {
            lane
        }
    }

    /// The session with one more mark on the lane `key`.
    pub open spec fn marked(
        self,
        key: Seq<char>,
        label: Seq<char>,
        kind: Seq<char>,
        mark: MarkState,
    ) -> Session {
        Session { lanes: self.lanes.insert(key, self.lane(key, label, kind).after(mark)), ..self }
    }

    /// The session with one mark per line on the lane `key`, all at one instant.
    pub open spec fn marked_lines(
        self,
        key: Seq<char>,
        label: Seq<char>,
        stamp: u64,
        lines: Seq<Line>,
    ) -> Session
        decreases lines.len(),
    {
        if lines.len() == 0 {
            self
        } else {
            self.marked_lines(key, label, stamp, lines.drop_last()).marked(
                key,
                label,
                "console"@,
                MarkState {
                    core_rx_utc_ms: stamp,
                    sub: Seq::empty(),
                    label: mark_label(lines.last().text),
                },
            )
        }
    }

    /// The session after a batch of samples on `tap`.
    pub open spec fn sampled(self, tap: Seq<char>, samples: Seq<LiveSample>) -> Session {
        Session {
            series: self.series.insert(
                tap,
                after_samples(held(self.series, tap, SeriesState::empty()), samples),
            ),
            ..self
        }
    }

    /// The lines a chunk on `tap` completes.
    pub open spec fn chunk_lines(self, tap: Seq<char>, stamp: Stamp, text: Seq<char>) -> Seq<Line> {
        held(self.consoles, tap, ConsoleState::empty()).completed(self.seq, stamp, text)
    }

    /// The session after a chunk of console text on `tap`.
    pub open spec fn chunked(self, tap: Seq<char>, stamp: Stamp, text: Seq<char>) -> Session {
        Session {
            seq: self.seq + self.chunk_lines(tap, stamp, text).len(),
            consoles: self.consoles.insert(
                tap,
                held(self.consoles, tap, ConsoleState::empty()).after(self.seq, stamp, text),
            ),
            ..self
        }
    }
}

pub open spec fn mode_name(mode: FollowMode) -> Seq<char> {
    match mode {
        FollowMode::Live => "live"@,
        FollowMode::Polling => "polling"@,
    }
}

pub open spec fn outcome_name(outcome: StepOutcome) -> Seq<char> {
    match outcome {
        StepOutcome::Pass => "Pass"@,
        StepOutcome::TimedOut => "TimedOut"@,
        StepOutcome::Fail { reason } => "Fail"@,
    }
}

pub open spec fn outcome_reason(outcome: StepOutcome) -> Option<Seq<char>> {
    match outcome {
        StepOutcome::Fail { reason } => Some(reason@),
        _ => None,
    }
}

pub open spec fn lagged_text(missed: u64) -> Seq<char> {
    "embarch-core dropped "@ + decimal(missed as nat)
        + " event(s) from this feed — the study is unaffected and its record on disk is complete"@
}

pub open spec fn status_text(status: Seq<char>, reason: Option<Seq<char>>) -> Seq<char> {
    match reason {
        Some(r) => "status: "@ + status + " — "@ + r,
        None => "status: "@ + status,
    }
}

/// The mark that a GATT entry leaves on its lane.
pub open spec fn gatt_mark(entry: GattEntry, stamp: u64) -> MarkState {
    MarkState {
        core_rx_utc_ms: stamp,
        sub: entry.direction@ + " "@ + entry.kind@,
        label: entry.direction@ + " "@ + entry.kind@ + " · "@ + match entry.characteristic {
            Some(c) => c@,
            None => "(no characteristic)"@,
        } + " · "@ + decimal(entry.payload_len as nat) + " bytes"@,
    }
}

pub open spec fn gatt_text(step_index: u32, entry: GattEntry) -> Seq<char> {
    "step "@ + decimal((step_index + 1) as nat) + ": "@ + entry.direction@ + " "@ + entry.kind@
        + " ("@ + decimal(entry.payload_len as nat) + " byte payload)"@
}

impl Session {
    /// The session with a finished step kept, as far as there is room, and its stamp
    /// where both ends of it are known.
    pub open spec fn stepped(
        self,
        step_index: u32,
        result: StepResult,
        started_utc_ms: Option<u64>,
        ended_utc_ms: Option<u64>,
        delay_before_ms: Option<u32>,
    ) -> Session {
        Session {
            steps: if self.steps.len() < MAX_STEPS {
                self.steps.push((step_index, result.record@))
            } else {
                self.steps
            },
            step_stamps: match (started_utc_ms, ended_utc_ms) {
                (Some(from), Some(to)) if self.step_stamps.len() < MAX_STEPS => self.step_stamps.push(
                    StampState {
                        index: step_index,
                        name: result.step_name@,
                        outcome: outcome_name(result.outcome),
                        reason: outcome_reason(result.outcome),
                        delay_before_ms: match delay_before_ms {
                            Some(d) => d,
                            None => 0,
                        },
                        started_utc_ms: from,
                        ended_utc_ms: to,
                    },
                ),
                _ => self.step_stamps,
            },
            current_step: Some(step_index),
            ..self
        }
    }

    /// The session after something that happened in its study.
    pub open spec fn after_event(self, event: StudyEvent) -> Session {
        match event {
            StudyEvent::StatusChanged { status, reason } => (Session {
                status: status@,
                reason: if reason is Some {
                    opt_view(reason)
                } else {
                    self.reason
                },
                ..self
            }).fed("status"@, status_text(status@, opt_view(reason))),
            StudyEvent::StepCompleted {
                step_index,
                result,
                started_utc_ms,
                ended_utc_ms,
                delay_before_ms,
            } => self.stepped(
                step_index,
                result,
                started_utc_ms,
                ended_utc_ms,
                delay_before_ms,
            ).fed(
                "step"@,
                "step "@ + decimal((step_index + 1) as nat) + ": "@ + result.step_name@,
            ),
            StudyEvent::SampleBatch { stream_name, samples } => self.sampled(
                stream_name@,
                samples@,
            ).fed(
                "samples"@,
                stream_name@ + ": "@ + decimal(samples@.len()) + " sample(s)"@,
            ),
            StudyEvent::GattTranscript { step_index, entry, core_rx_utc_ms } => {
                let marked = match core_rx_utc_ms {
                    Some(stamp) => self.marked(
                        "gatt:gatt"@,
                        "gatt"@,
                        "gatt"@,
                        gatt_mark(entry, stamp),
                    ),
                    None => self,
                };
                marked.fed("gatt"@, gatt_text(step_index, entry))
            },
            StudyEvent::OutpostRows { frame } => Session { axis: self.axis.after(frame@), ..self },
            StudyEvent::StreamText { stream_name, step_index, rx_utc_ms, core_rx_utc_ms, text } => {
                let stamp = Stamp { step_index, rx_utc_ms };
                let taken = self.chunked(stream_name@, stamp, text@);
                match core_rx_utc_ms {
                    Some(at) => taken.marked_lines(
                        "console:"@ + stream_name@,
                        stream_name@,
                        at,
                        self.chunk_lines(stream_name@, stamp, text@),
                    ),
                    None => taken,
                }
            },
        }
    }

    /// The session after an item.
    pub open spec fn after(self, item: FollowItem) -> Session {
        match item {
            FollowItem::Transport { mode, detail } => (Session {
                mode: mode_name(mode),
                mode_detail: Some(detail@),
                ..self
            }).fed("transport"@, detail@),
            FollowItem::Lagged { missed } => (Session {
                lagged: self.lagged + missed as nat,
                ..self
            }).fed("lagged"@, lagged_text(missed)),
            FollowItem::Unrecognized { event, reason } => self.fed(
                "unrecognized"@,
                "frame '"@ + event@ + "': "@ + reason@,
            ),
            FollowItem::Polled { status, current_step, total_steps, reason } => (Session {
                status: status@,
                current_step,
                total_steps,
                reason: opt_view(reason),
                ..self
            }).fed("polled"@, "polled: "@ + status@),
            FollowItem::Event(event) => self.after_event(event),
        }
    }

    /// Whether every counter can still take the item.
    pub open spec fn has_room(self, item: FollowItem) -> bool {
        &&& self.seq < u64::MAX
        &&& self.feed_total < u64::MAX
        &&& match item {
            FollowItem::Lagged { missed } => self.lagged + missed <= u64::MAX,
            FollowItem::Event(event) => self.has_room_for(event),
            _ => true,
        }
    }

    pub open spec fn has_room_for(self, event: StudyEvent) -> bool {
        match event {
            StudyEvent::StatusChanged { status, reason } => true,
            StudyEvent::StepCompleted { step_index, .. } => step_index < u32::MAX,
            StudyEvent::SampleBatch { stream_name, samples } => held(
                self.series,
                stream_name@,
                SeriesState::empty(),
            ).total + samples@.len() <= u64::MAX,
            StudyEvent::GattTranscript { step_index, entry, core_rx_utc_ms } => {
                &&& step_index < u32::MAX
                &&& held(self.lanes, "gatt:gatt"@, LaneState::empty()).total < u64::MAX
            },
            StudyEvent::OutpostRows { frame } => self.axis.has_room(frame@),
            StudyEvent::StreamText { stream_name, core_rx_utc_ms, text, .. } => {
                &&& self.seq + newlines(text@) <= u64::MAX
                &&& held(self.consoles, stream_name@, ConsoleState::empty()).total + newlines(text@)
                    <= u64::MAX
                &&& core_rx_utc_ms is Some ==> held(
                    self.lanes,
                    "console:"@ + stream_name@,
                    LaneState::empty(),
                ).total + newlines(text@) <= u64::MAX
            },
        }
    }
}

impl Reply {
    /// Whether this is what is told of an item that took the session from `before` to
    /// `after`.
    pub open spec fn tells(&self, before: Session, item: FollowItem, after: Session) -> bool {
        match item {
            FollowItem::Unrecognized { event, reason } => {
                &&& self matches Reply::Send(Frame::Event { row, feed })
                &&& row@ == after.feed.last()
                &&& feed.tells(after)
            },
            FollowItem::Event(event) => self.tells_event(before, event, after),
            _ => {
                &&& self matches Reply::Send(Frame::Status { status, row, feed })
                &&& status.tells(after)
                &&& row@ == after.feed.last()
                &&& feed.tells(after)
            },
        }
    }

    pub open spec fn tells_event(&self, before: Session, event: StudyEvent, after: Session) -> bool {
        match event {
            StudyEvent::StatusChanged { status, reason } => {
                &&& self matches Reply::Send(Frame::Status { status, row, feed })
                &&& status.tells(after)
                &&& row@ == after.feed.last()
                &&& feed.tells(after)
            },
            StudyEvent::StepCompleted { step_index, result, .. } => {
                &&& self matches Reply::Send(Frame::Step { index, record, status, row, feed })
                &&& index == step_index
                &&& record@ == result.record@
                &&& status.tells(after)
                &&& row@ == after.feed.last()
                &&& feed.tells(after)
            },
            StudyEvent::SampleBatch { stream_name, samples } => {
                &&& self matches Reply::Send(
                    Frame::Samples { tap, points, stride, total, row, feed },
                )
                &&& tap@ == stream_name@
                &&& points@ == kept_samples(
                    held(before.series, stream_name@, SeriesState::empty()),
                    samples@,
                )
                &&& stride == after.series[stream_name@].step()
                &&& total == after.series[stream_name@].total
                &&& row@ == after.feed.last()
                &&& feed.tells(after)
            },
            StudyEvent::GattTranscript { step_index, entry, core_rx_utc_ms } => {
                &&& self matches Reply::Send(Frame::Gatt { step_index: at, record, row, feed })
                &&& at == step_index
                &&& record@ == entry.record@
                &&& row@ == after.feed.last()
                &&& feed.tells(after)
            },
            StudyEvent::OutpostRows { frame } => {
                &&& self matches Reply::Chart { moved }
                &&& moved == before.axis.moves(frame@)
            },
            StudyEvent::StreamText { stream_name, step_index, rx_utc_ms, core_rx_utc_ms, text } => {
                &&& self matches Reply::Send(
                    Frame::Console { tap, lines: told, partial, partial_truncated, dropped, total },
                )
                &&& tap@ == stream_name@
                &&& lines(told@) == before.chunk_lines(
                    stream_name@,
                    (Stamp { step_index, rx_utc_ms }),
                    text@,
                )
                &&& partial@ == after.consoles[stream_name@].rest.text
                &&& partial_truncated == (after.consoles[stream_name@].rest.past is More)
                &&& dropped == after.consoles[stream_name@].dropped
                &&& total == after.consoles[stream_name@].total
            },
        }
    }
}

/// Marking lines changes the lanes and nothing else.
pub proof fn marks_change_only_lanes(
    s: Session,
    key: Seq<char>,
    label: Seq<char>,
    stamp: u64,
    list: Seq<Line>,
)
    ensures
        s.marked_lines(key, label, stamp, list) == (Session {
            lanes: s.marked_lines(key, label, stamp, list).lanes,
            ..s
        }),
    decreases list.len(),
{
    if list.len() > 0 {
        marks_change_only_lanes(s, key, label, stamp, list.drop_last());
    }
}

/// And of the lanes, only the one that is marked.
pub proof fn marks_change_only_their_lane(
    s: Session,
    key: Seq<char>,
    label: Seq<char>,
    stamp: u64,
    list: Seq<Line>,
    other: Seq<char>,
)
    requires
        other != key,
    ensures
        ({
            let after = s.marked_lines(key, label, stamp, list);
            &&& after.lanes.contains_key(other) == s.lanes.contains_key(other)
            &&& after.lanes[other] == s.lanes[other]
        }),
    decreases list.len(),
{
    if list.len() > 0 {
        marks_change_only_their_lane(s, key, label, stamp, list.drop_last(), other);
    }
}

impl SessionState {
    pub open spec fn wf(&self) -> bool {
        &&& self.feed@.len() <= MAX_FEED_EVENTS
        &&& self.feed_dropped + self.feed@.len() == self.feed_total
        &&& self.steps@.len() <= MAX_STEPS
        &&& self.step_stamps@.len() <= MAX_STEPS
        &&& self.consoles.wf()
        &&& forall|i: int|
            0 <= i < self.consoles.entries@.len() ==> (#[trigger] self.consoles.entries@[i]).item.wf()
        &&& self.series.wf()
        &&& forall|i: int|
            0 <= i < self.series.entries@.len() ==> (#[trigger] self.series.entries@[i]).item@.wf()
        &&& self.lanes.wf()
        &&& forall|i: int|
            0 <= i < self.lanes.entries@.len() ==> (#[trigger] self.lanes.entries@[i]).item@.wf()
        &&& self.axis@.wf()
    }

    /// A session for a study nothing has arrived of.
    pub fn new() -> (r: SessionState)
        ensures
            r.wf(),
            r@ == Session::pending(),
    {
        let r = SessionState {
            status: "pending".to_owned(),
            reason: None,
            current_step: None,
            total_steps: None,
            study_name: None,
            mode: "live",
            mode_detail: None,
            lagged: 0,
            seq: 0,
            feed: VecDeque::new(),
            feed_dropped: 0,
            feed_total: 0,
            steps: Vec::new(),
            consoles: Shelf::new(),
            series: Shelf::new(),
            provenance: None,
            streams: None,
            record_note: None,
            finished: false,
            axis: LiveAxis::new(),
            step_stamps: Vec::new(),
            lanes: Shelf::new(),
            last_time_chart: None,
        };
        assert(r@.feed =~= Seq::empty());
        assert(r@.steps =~= Seq::empty());
        assert(r@.step_stamps =~= Seq::empty());
        assert(r@.consoles =~= Map::empty());
        assert(r@.series =~= Map::empty());
        assert(r@.lanes =~= Map::empty());
        r
    }

    /// Adds one row to the feed. Returns it.
    pub fn push_feed(&mut self, kind: &'static str, text: String) -> (r: FeedRow)
        requires
            old(self).wf(),
            old(self).seq < u64::MAX,
            old(self).feed_total < u64::MAX,
        ensures
            final(self).wf(),
            final(self)@ == old(self)@.fed(kind@, text@),
            r@ == (RowState { seq: old(self)@.seq + 1, kind: kind@, text: text@ }),
            final(self).consoles == old(self).consoles,
            final(self).series == old(self).series,
            final(self).lanes == old(self).lanes,
    {
        self.seq = self.seq + 1;
        self.feed_total = self.feed_total + 1;
        let row = FeedRow { seq: self.seq, kind, text: text.clone() };
        let ghost was = self@.feed;
        self.feed.push_back(row);
        assert(self@.feed =~= was.push(row@));
        if self.feed.len() > MAX_FEED_EVENTS {
            let ghost all = self@.feed;
            let gone = self.feed.pop_front();
            assert(self@.feed =~= all.drop_first());
            self.feed_dropped = self.feed_dropped + 1;
        }
        FeedRow { seq: self.seq, kind, text }
    }

    /// Records one mark on a lane, unplaced.
    pub fn push_mark(&mut self, key: &str, label: &str, kind: &'static str, mark: LiveMark)
        requires
            old(self).wf(),
            held(old(self)@.lanes, key@, LaneState::empty()).total < u64::MAX,
        ensures
            final(self).wf(),
            final(self)@ == old(self)@.marked(key@, label@, kind@, mark@),
            final(self).consoles == old(self).consoles,
            final(self).series == old(self).series,
    {
        let ghost start = self.lanes;
        let fresh = LiveLane::new();
        let at: usize = self.lanes.ensure(key, fresh);
        let ghost mid = self.lanes;
        proof {
            one_item_ensured(start, mid, at as int, key@, fresh@);
            mid.index_is(at as int);
        }
        if self.lanes.entries[at].item.label.as_str().is_empty() {
            self.lanes.entries[at].item.label = label.to_owned();
            self.lanes.entries[at].item.kind = kind;
        }
        self.lanes.entries[at].item.push(mark);
        proof {
            assert(self.lanes.keys() =~= mid.keys());
            one_item_changed(mid, self.lanes, at as int);
            assert(self@.lanes =~= old(self)@.marked(key@, label@, kind@, mark@).lanes);
        }
    }

    /// Takes a batch of samples in. Returns those that were kept, and the stride and
    /// the total that are now shown.
    fn take_samples(&mut self, tap: &str, samples: &Vec<LiveSample>) -> (r: (Vec<Point>, u32, u64))
        requires
            old(self).wf(),
            held(old(self)@.series, tap@, SeriesState::empty()).total + samples@.len() <= u64::MAX,
        ensures
            final(self).wf(),
            final(self)@ == old(self)@.sampled(tap@, samples@),
            r.0@ == kept_samples(held(old(self)@.series, tap@, SeriesState::empty()), samples@),
            r.1 == final(self)@.series[tap@].step(),
            r.2 == final(self)@.series[tap@].total,
    {
        let ghost start = *self;
        let ghost empty = held(self@.series, tap@, SeriesState::empty());
        let fresh = Series::new();
        let at: usize = self.series.ensure(tap, fresh);
        let ghost mid = self.series;
        proof {
            one_item_ensured(start.series, mid, at as int, tap@, fresh@);
            mid.index_is(at as int);
        }
        assert(forall|j: int|
            0 <= j < mid.entries@.len() ==> (#[trigger] mid.entries@[j]).item@.wf());
        let mut added: Vec<Point> = Vec::new();
        for i in 0..samples.len()
            invariant
                start == *old(self),
                mid.wf(),
                forall|j: int|
                    0 <= j < mid.entries@.len() ==> (#[trigger] mid.entries@[j]).item@.wf(),
                at < mid.entries@.len(),
                *self == (SessionState { series: self.series, ..start }),
                self.series.entries@.len() == mid.entries@.len(),
                self.series.keys() == mid.keys(),
                forall|j: int|
                    0 <= j < mid.entries@.len() && j != at ==> self.series.entries@[j]
                        == mid.entries@[j],
                self.series.entries@[at as int].item@ == after_samples(
                    empty,
                    samples@.take(i as int),
                ),
                self.series.entries@[at as int].item@.wf(),
                self.series.entries@[at as int].item@.total == empty.total + i,
                empty.total + samples@.len() <= u64::MAX,
                added@ == kept_samples(empty, samples@.take(i as int)),
        {
            let x = &samples[i];
            let unit = match &x.unit {
                Some(u) => Some(u.as_str()),
                None => None,
            };
            assert(samples@.take(i + 1).drop_last() =~= samples@.take(i as int));
            if self.series.entries[at].item.push(x.rx_utc_ms, x.value_bits, unit) {
                added.push(Point { rx_utc_ms: x.rx_utc_ms, value_bits: x.value_bits });
            }
            assert(self.series.keys() =~= mid.keys());
        }
        assert(samples@.take(samples@.len() as int) =~= samples@);
        proof {
            one_item_changed(mid, self.series, at as int);
            self.series.index_is(at as int);
            assert(self@.series =~= old(self)@.sampled(tap@, samples@).series);
            assert forall|j: int| 0 <= j < self.series.entries@.len() implies (
            #[trigger] self.series.entries@[j]).item@.wf() by {
                if j != at {
                    assert(self.series.entries@[j] == mid.entries@[j]);
                }
            }
        }
        let stride: u32 = self.series.entries[at].item.shown_stride();
        let total: u64 = self.series.entries[at].item.total;
        (added, stride, total)
    }

    /// Takes a chunk of console text in. Returns the lines it completed.
    fn take_text(&mut self, tap: &str, step_index: u32, rx_utc_ms: u64, text: &str) -> (r: Vec<
        ConsoleLine,
    >)
        requires
            old(self).wf(),
            old(self).seq + newlines(text@) <= u64::MAX,
            held(old(self)@.consoles, tap@, ConsoleState::empty()).total + newlines(text@)
                <= u64::MAX,
        ensures
            final(self).wf(),
            final(self)@ == old(self)@.chunked(tap@, (Stamp { step_index, rx_utc_ms }), text@),
            lines(r@) == old(self)@.chunk_lines(tap@, (Stamp { step_index, rx_utc_ms }), text@),
            final(self).lanes == old(self).lanes,
            final(self).consoles.has(tap@),
    {
        let ghost start = *self;
        let fresh = Console::new();
        let at: usize = self.consoles.ensure(tap, fresh);
        let ghost mid = self.consoles;
        proof {
            one_item_ensured(start.consoles, mid, at as int, tap@, fresh@);
            mid.index_is(at as int);
        }
        assert(forall|j: int|
            0 <= j < mid.entries@.len() ==> (#[trigger] mid.entries@[j]).item.wf());
        let mut seq: u64 = self.seq;
        let completed = self.consoles.entries[at].item.push_chunk(
            &mut seq,
            step_index,
            rx_utc_ms,
            text,
        );
        self.seq = seq;
        proof {
            assert(self.consoles.keys() =~= mid.keys());
            one_item_changed(mid, self.consoles, at as int);
            assert(self.consoles.keys()[at as int] == tap@);
            assert(self@.consoles =~= old(self)@.chunked(
                tap@,
                Stamp { step_index, rx_utc_ms },
                text@,
            ).consoles);
            assert(lines(completed@).len() == completed@.len());
        }
        completed
    }

    /// Records one mark per completed line, all at the instant `stamp`.
    fn push_lines(&mut self, key: &str, label: &str, stamp: u64, done: &Vec<ConsoleLine>)
        requires
            old(self).wf(),
            held(old(self)@.lanes, key@, LaneState::empty()).total + done@.len() <= u64::MAX,
        ensures
            final(self).wf(),
            final(self)@ == old(self)@.marked_lines(key@, label@, stamp, lines(done@)),
            final(self).consoles == old(self).consoles,
    {
        let ghost all = lines(done@);
        for i in 0..done.len()
            invariant
                self.wf(),
                all == lines(done@),
                self.consoles == old(self).consoles,
                held(old(self)@.lanes, key@, LaneState::empty()).total + done@.len() <= u64::MAX,
                held(self@.lanes, key@, LaneState::empty()).total == held(
                    old(self)@.lanes,
                    key@,
                    LaneState::empty(),
                ).total + i,
                self@ == old(self)@.marked_lines(key@, label@, stamp, all.take(i as int)),
        {
            assert(all.take(i + 1).drop_last() =~= all.take(i as int));
            assert(all.take(i + 1).last() == done@[i as int]@);
            self.push_mark(
                key,
                label,
                "console",
                LiveMark {
                    core_rx_utc_ms: stamp,
                    sub: String::new(),
                    label: first_chars(done[i].text.as_str(), MARK_LABEL_CHARS),
                },
            );
        }
        assert(all.take(all.len() as int) =~= all);
    }

    fn feed_counts(&self) -> (r: FeedCounts)
        ensures
            r.tells(self@),
    {
        FeedCounts { dropped: self.feed_dropped, total: self.feed_total }
    }

    /// The frame of a feed row that came with a change of status.
    fn status_frame(&self, row: FeedRow) -> (r: Reply)
        ensures
            r matches Reply::Send(Frame::Status { status, row: told, feed }) && status.tells(self@)
                && told == row && feed.tells(self@),
    {
        Reply::Send(Frame::Status { status: self.status_view(), row, feed: self.feed_counts() })
    }

    fn take_status(&mut self, status: &String, reason: &Option<String>) -> (r: Reply)
        requires
            old(self).wf(),
            old(self).seq < u64::MAX,
            old(self).feed_total < u64::MAX,
        ensures
            final(self).wf(),
            ({
                let told = Session {
                    status: status@,
                    reason: if reason is Some {
                        opt_view(*reason)
                    } else {
                        old(self)@.reason
                    },
                    ..old(self)@
                };
                final(self)@ == told.fed("status"@, status_text(status@, opt_view(*reason)))
            }),
            r matches Reply::Send(Frame::Status { status: card, row, feed }) && card.tells(
                final(self)@,
            ) && row@ == final(self)@.feed.last() && feed.tells(final(self)@),
    {
        self.status = status.clone();
        let mut text = "status: ".to_owned();
        text.append(status.as_str());
        match reason {
            Some(why) => {
                self.reason = Some(why.clone());
                text.append(" — ");
                text.append(why.as_str());
            },
            None => {},
        }
        let row = self.push_feed("status", text);
        self.status_frame(row)
    }

    fn take_step(
        &mut self,
        step_index: u32,
        result: &StepResult,
        started_utc_ms: Option<u64>,
        ended_utc_ms: Option<u64>,
        delay_before_ms: Option<u32>,
    ) -> (r: Reply)
        requires
            old(self).wf(),
            old(self).seq < u64::MAX,
            old(self).feed_total < u64::MAX,
            step_index < u32::MAX,
        ensures
            final(self).wf(),
            final(self)@ == old(self)@.stepped(
                step_index,
                *result,
                started_utc_ms,
                ended_utc_ms,
                delay_before_ms,
            ).fed(
                "step"@,
                "step "@ + decimal((step_index + 1) as nat) + ": "@ + result.step_name@,
            ),
            r matches Reply::Send(Frame::Step { index, record, status, row, feed }) && index == step_index
                && record@ == result.record@ && status.tells(final(self)@)
                && row@ == final(self)@.feed.last() && feed.tells(final(self)@),
    {
        let mut label = "step ".to_owned();
        label.append(dec(step_index as u64 + 1).as_str());
        label.append(": ");
        label.append(result.step_name.as_str());
        let ghost start = self@;
        if self.steps.len() < MAX_STEPS {
            self.steps.push(StepRow { index: step_index, record: result.record.clone() });
            assert(self@.steps =~= start.steps.push((step_index, result.record@)));
        }
        match (started_utc_ms, ended_utc_ms) {
            (Some(from), Some(to)) => {
                if self.step_stamps.len() < MAX_STEPS {
                    let outcome = match &result.outcome {
                        StepOutcome::Pass => "Pass",
                        StepOutcome::TimedOut => "TimedOut",
                        StepOutcome::Fail { reason } => "Fail",
                    };
                    let reason = match &result.outcome {
                        StepOutcome::Fail { reason } => Some(reason.clone()),
                        _ => None,
                    };
                    let stamp = StepStamp {
                        index: step_index,
                        name: result.step_name.clone(),
                        outcome: outcome.to_owned(),
                        reason,
                        delay_before_ms: match delay_before_ms {
                            Some(d) => d,
                            None => 0,
                        },
                        started_utc_ms: from,
                        ended_utc_ms: to,
                    };
                    self.step_stamps.push(stamp);
                    assert(self@.step_stamps =~= start.step_stamps.push(stamp@));
                }
            },
            _ => {},
        }
        assert(self@.steps.len() == self.steps@.len());
        assert(self@.step_stamps.len() == self.step_stamps@.len());
        self.current_step = Some(step_index);
        let row = self.push_feed("step", label);
        Reply::Send(
            Frame::Step {
                index: step_index,
                record: result.record.clone(),
                status: self.status_view(),
                row,
                feed: self.feed_counts(),
            },
        )
    }

    fn take_gatt(&mut self, step_index: u32, entry: &GattEntry, core_rx_utc_ms: Option<u64>) -> (r:
        Reply)
        requires
            old(self).wf(),
            old(self)@.has_room_for(
                (StudyEvent::GattTranscript { step_index, entry: *entry, core_rx_utc_ms }),
            ),
            old(self).seq < u64::MAX,
            old(self).feed_total < u64::MAX,
        ensures
            final(self).wf(),
            final(self)@ == old(self)@.after_event(
                (StudyEvent::GattTranscript { step_index, entry: *entry, core_rx_utc_ms }),
            ),
            r matches Reply::Send(Frame::Gatt { step_index: at, record, row, feed }) && at == step_index
                && record@ == entry.record@ && row@ == final(self)@.feed.last() && feed.tells(
                final(self)@,
            ),
    {
        if let Some(stamp) = core_rx_utc_ms {
            let mut sub = entry.direction.clone();
            sub.append(" ");
            sub.append(entry.kind.as_str());
            let mut label = sub.clone();
            label.append(" · ");
            match &entry.characteristic {
                Some(c) => label.append(c.as_str()),
                None => label.append("(no characteristic)"),
            }
            label.append(" · ");
            label.append(dec(entry.payload_len as u64).as_str());
            label.append(" bytes");
            self.push_mark(
                "gatt:gatt",
                "gatt",
                "gatt",
                LiveMark { core_rx_utc_ms: stamp, sub, label },
            );
        }
        let mut text = "step ".to_owned();
        text.append(dec(step_index as u64 + 1).as_str());
        text.append(": ");
        text.append(entry.direction.as_str());
        text.append(" ");
        text.append(entry.kind.as_str());
        text.append(" (");
        text.append(dec(entry.payload_len as u64).as_str());
        text.append(" byte payload)");
        let row = self.push_feed("gatt", text);
        Reply::Send(
            Frame::Gatt { step_index, record: entry.record.clone(), row, feed: self.feed_counts() },
        )
    }

    fn take_event(&mut self, event: &StudyEvent) -> (r: Reply)
        requires
            old(self).wf(),
            old(self)@.has_room_for(*event),
            old(self).seq < u64::MAX,
            old(self).feed_total < u64::MAX,
        ensures
            final(self).wf(),
            final(self)@ == old(self)@.after_event(*event),
            r.tells_event(old(self)@, *event, final(self)@),
    {
        match event {
            StudyEvent::StatusChanged { status, reason } => self.take_status(status, reason),
            StudyEvent::StepCompleted {
                step_index,
                result,
                started_utc_ms,
                ended_utc_ms,
                delay_before_ms,
            } => self.take_step(
                *step_index,
                result,
                *started_utc_ms,
                *ended_utc_ms,
                *delay_before_ms,
            ),
            StudyEvent::SampleBatch { stream_name, samples } => {
                let (points, stride, total) = self.take_samples(stream_name.as_str(), samples);
                let mut text = stream_name.clone();
                text.append(": ");
                text.append(dec(samples.len() as u64).as_str());
                text.append(" sample(s)");
                let row = self.push_feed("samples", text);
                Reply::Send(
                    Frame::Samples {
                        tap: stream_name.clone(),
                        points,
                        stride,
                        total,
                        row,
                        feed: self.feed_counts(),
                    },
                )
            },
            StudyEvent::GattTranscript { step_index, entry, core_rx_utc_ms } => self.take_gatt(
                *step_index,
                entry,
                *core_rx_utc_ms,
            ),
            StudyEvent::OutpostRows { frame } => {
                let moved = self.axis.ingest(frame);
                Reply::Chart { moved }
            },
            StudyEvent::StreamText { stream_name, step_index, rx_utc_ms, core_rx_utc_ms, text } => {
                let ghost start = self@;
                let ghost stamp = Stamp { step_index: *step_index, rx_utc_ms: *rx_utc_ms };
                let completed = self.take_text(
                    stream_name.as_str(),
                    *step_index,
                    *rx_utc_ms,
                    text.as_str(),
                );
                proof {
                    assert(completed@.len() == lines(completed@).len());
                    one_line_per_newline(
                        held(start.consoles, stream_name@, ConsoleState::empty()),
                        start.seq,
                        stamp,
                        text@,
                    );
                }
                // A line is marked at the instant Core received its chunk. The chunk's own
                // stamp may be of another clock: without Core's there is no mark.
                if let Some(at) = core_rx_utc_ms {
                    let mut key = "console:".to_owned();
                    key.append(stream_name.as_str());
                    self.push_lines(key.as_str(), stream_name.as_str(), *at, &completed);
                    proof {
                        marks_change_only_lanes(
                            start.chunked(stream_name@, stamp, text@),
                            key@,
                            stream_name@,
                            *at,
                            lines(completed@),
                        );
                    }
                }
                let (i, found) = self.consoles.slot(stream_name.as_str());
                proof {
                    self.consoles.index_is(i as int);
                }
                let console = &self.consoles.entries[i].item;
                Reply::Send(
                    Frame::Console {
                        tap: stream_name.clone(),
                        lines: completed,
                        partial: console.partial.clone(),
                        partial_truncated: console.partial_past == Past::More,
                        dropped: console.dropped,
                        total: console.total,
                    },
                )
            },
        }
    }

    /// Folds one item off the follow in. Returns what is told of it.
    pub fn ingest(&mut self, item: &FollowItem) -> (r: Reply)
        requires
            old(self).wf(),
            old(self)@.has_room(*item),
        ensures
            final(self).wf(),
            final(self)@ == old(self)@.after(*item),
            r.tells(old(self)@, *item, final(self)@),
    {
        match item {
            FollowItem::Transport { mode, detail } => {
                self.mode = match mode {
                    FollowMode::Live => "live",
                    FollowMode::Polling => "polling",
                };
                self.mode_detail = Some(detail.clone());
                let row = self.push_feed("transport", detail.clone());
                self.status_frame(row)
            },
            FollowItem::Lagged { missed } => {
                self.lagged = self.lagged + *missed;
                let mut text = "embarch-core dropped ".to_owned();
                text.append(dec(*missed).as_str());
                text.append(
                    " event(s) from this feed — the study is unaffected and its record on disk is complete",
                );
                let row = self.push_feed("lagged", text);
                self.status_frame(row)
            },
            FollowItem::Unrecognized { event, reason } => {
                let mut text = "frame '".to_owned();
                text.append(event.as_str());
                text.append("': ");
                text.append(reason.as_str());
                let row = self.push_feed("unrecognized", text);
                Reply::Send(Frame::Event { row, feed: self.feed_counts() })
            },
            FollowItem::Polled { status, current_step, total_steps, reason } => {
                self.status = status.clone();
                self.current_step = *current_step;
                self.total_steps = *total_steps;
                self.reason = copy_opt(reason);
                let mut text = "polled: ".to_owned();
                text.append(status.as_str());
                let row = self.push_feed("polled", text);
                self.status_frame(row)
            },
            FollowItem::Event(event) => self.take_event(event),
        }
    }

    /// The status card as it stands.
    pub fn status_view(&self) -> (r: StatusView)
        ensures
            r.tells(self@),
    {
        StatusView {
            status: self.status.clone(),
            reason: copy_opt(&self.reason),
            current_step: self.current_step,
            total_steps: self.total_steps,
            study_name: copy_opt(&self.study_name),
            mode: self.mode,
            mode_detail: copy_opt(&self.mode_detail),
            lagged: self.lagged,
            finished: self.finished,
            record_note: copy_opt(&self.record_note),
        }
    }
}

} // verus!
