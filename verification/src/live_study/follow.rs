//! The end of a follow, and the list of the studies being watched.

use vstd::prelude::*;
use vstd::string::*;
use crate::live_study::console::newlines;
use crate::live_study::lane::LaneState;
use crate::live_study::session::{held, FollowItem, Session, SessionState, StatusView, StudyEvent};
use crate::roster::{evicted, place_of, Roster, Run, RunState};
use crate::text::{copy_opt, opt_view, split};

verus! {

/// How many sessions are kept.
pub const MAX_SESSIONS: usize = 8;

/// How a follow came to its end.
#[derive(Debug)]
pub enum FollowOutcome {
    Ended { terminal_status: Option<String>, reason: Option<String> },
    Failed { error: String },
}

/// A finished study's record, read back.
#[derive(Debug)]
pub struct StudyRecord {
    pub provenance: String,
    pub streams: Option<String>,
}

/// What reading the record gave.
#[derive(Debug)]
pub enum RecordRead {
    /// The follow's end did not call for it.
    NotRead,
    Read { result: Option<StudyRecord> },
    Failed { error: String },
}

/// The last frame of a session.
#[derive(Debug)]
pub struct EndFrame {
    pub status: StatusView,
    pub provenance: Option<String>,
    pub streams: Option<String>,
}

/// Whether the study itself is over, so that its record exists.
pub open spec fn is_terminal(outcome: FollowOutcome) -> bool {
    outcome matches FollowOutcome::Ended { terminal_status, reason } && terminal_status is Some
}

/// Whether the record is to be read.
pub fn wants_record(outcome: &FollowOutcome) -> (r: bool)
    ensures
        r == is_terminal(*outcome),
{
    match outcome {
        FollowOutcome::Ended { terminal_status, .. } => terminal_status.is_some(),
        FollowOutcome::Failed { .. } => false,
    }
}

impl Session {
    /// The session once the record of a study that is over was read.
    pub open spec fn recorded(self, record: RecordRead) -> Session {
        match record {
            RecordRead::NotRead => self,
            RecordRead::Read { result } => match result {
                Some(found) => Session {
                    provenance: Some(found.provenance@),
                    streams: opt_view(found.streams),
                    ..self
                },
                None => self,
            },
            RecordRead::Failed { error } => Session {
                record_note: Some(
                    "the study finished, but its record could not be read back: "@ + error@,
                ),
                ..self
            },
        }
    }

    /// The session once its follow has ended. A follow that failed says nothing about
    /// the study: the status stays what was last reported.
    pub open spec fn closed(self, outcome: FollowOutcome, record: RecordRead) -> Session {
        let read = if is_terminal(outcome) {
            self.recorded(record)
        } else {
            self
        };
        match outcome {
            FollowOutcome::Ended { terminal_status, reason } => Session {
                finished: true,
                status: match terminal_status {
                    Some(status) => status@,
                    None => read.status,
                },
                reason: if reason is Some {
                    opt_view(reason)
                } else {
                    read.reason
                },
                ..read
            },
            FollowOutcome::Failed { error } => Session {
                finished: true,
                record_note: Some("watching this study stopped: "@ + error@),
                ..read
            },
        }
    }
}

impl SessionState {
    /// Ends the session. Returns the last frame that is told of it.
    pub fn close(&mut self, outcome: &FollowOutcome, record: &RecordRead) -> (r: EndFrame)
        requires
            old(self).wf(),
        ensures
            final(self).wf(),
            final(self)@ == old(self)@.closed(*outcome, *record),
            r.status.tells(final(self)@),
            opt_view(r.provenance) == final(self)@.provenance,
            opt_view(r.streams) == final(self)@.streams,
    {
        if wants_record(outcome) {
            match record {
                RecordRead::NotRead => {},
                RecordRead::Read { result } => {
                    if let Some(found) = result {
                        self.provenance = Some(found.provenance.clone());
                        self.streams = copy_opt(&found.streams);
                    }
                },
                RecordRead::Failed { error } => {
                    let mut note =
                        "the study finished, but its record could not be read back: ".to_owned();
                    note.append(error.as_str());
                    self.record_note = Some(note);
                },
            }
        }
        self.finished = true;
        match outcome {
            FollowOutcome::Ended { terminal_status, reason } => {
                if let Some(status) = terminal_status {
                    self.status = status.clone();
                }
                if reason.is_some() {
                    self.reason = copy_opt(reason);
                }
            },
            FollowOutcome::Failed { error } => {
                let mut note = "watching this study stopped: ".to_owned();
                note.append(error.as_str());
                self.record_note = Some(note);
            },
        }
        EndFrame {
            status: self.status_view(),
            provenance: copy_opt(&self.provenance),
            streams: copy_opt(&self.streams),
        }
    }
}

/// The studies being watched, in the order they were opened.
#[derive(Debug)]
pub struct LiveStudies {
    pub sessions: Roster,
}

impl LiveStudies {
    pub fn new() -> (r: LiveStudies)
        ensures
            r.sessions@ == Seq::<RunState>::empty(),
    {
        LiveStudies { sessions: Roster::new() }
    }

    /// The session most recently started.
    pub fn latest(&self) -> (r: Option<&Run>)
        ensures
            r is Some == (self.sessions@.len() > 0),
            r is Some ==> (*r->0)@ == self.sessions@.last(),
    {
        self.sessions.latest()
    }

    /// Makes sure that `study_id` is watched. Returns whether a follow is to be started:
    /// one per study, however often it is opened.
    pub fn ensure(&mut self, study_id: &str) -> (r: bool)
        ensures
            r == (place_of(old(self).sessions@, study_id@) >= old(self).sessions@.len()),
            final(self).sessions@ == (if place_of(old(self).sessions@, study_id@)
                < old(self).sessions@.len() {
                old(self).sessions@
            } else {
                evicted(
                    old(self).sessions@.push((RunState { id: study_id@, finished: false })),
                    MAX_SESSIONS as nat,
                )
            }),
    {
        self.sessions.ensure(study_id, MAX_SESSIONS)
    }
}

/// Which session a browser is shown: the one it names, and the latest where it names
/// none.
#[derive(Debug)]
pub enum Watch {
    Named(String),
    Latest(String),
    Nothing,
}

/// Said where there is no session to show.
pub const NO_SESSION: &'static str = "no study has been run or opened in this embarch-ui process yet";

/// Which session a browser asks for.
#[derive(Debug)]
pub struct LiveEventsQuery {
    pub study: Option<String>,
}

/// Which saved study a browser asks to run.
#[derive(Debug)]
pub struct LiveRunRequest {
    pub slug: String,
    /// Run past a version requirement that this run does not satisfy.
    pub allow_version_mismatch: bool,
}

/// Decides which session a browser is shown.
pub fn watch(q: &LiveEventsQuery, studies: &LiveStudies) -> (r: Watch)
    ensures
        match q.study {
            Some(id) if id@.len() > 0 => r matches Watch::Named(x) && x@ == id@,
            _ => if studies.sessions@.len() > 0 {
                r matches Watch::Latest(x) && x@ == studies.sessions@.last().id
            } else {
                r is Nothing
            },
        },
{
    if let Some(id) = &q.study {
        if !id.as_str().is_empty() {
            return Watch::Named(id.clone());
        }
    }
    match studies.latest() {
        Some(run) => Watch::Latest(run.id.clone()),
        None => Watch::Nothing,
    }
}

// ---- room --------------------------------------------------------------------

fn room(total: u64, more: u64) -> (r: bool)
    ensures
        r == (total + more <= u64::MAX),
{
    total <= u64::MAX - more
}

impl SessionState {
    fn lane_total(&self, key: &str) -> (r: u64)
        requires
            self.wf(),
        ensures
            r == held(self@.lanes, key@, LaneState::empty()).total,
    {
        match self.lanes.get(key) {
            Some(lane) => lane.total,
            None => 0,
        }
    }

    /// Whether every counter can still take the item.
    pub fn fits(&self, item: &FollowItem) -> (r: bool)
        requires
            self.wf(),
        ensures
            r == self@.has_room(*item),
    {
        if self.seq == u64::MAX || self.feed_total == u64::MAX {
            return false;
        }
        match item {
            FollowItem::Lagged { missed } => room(self.lagged, *missed),
            FollowItem::Event(event) => match event {
                StudyEvent::StatusChanged { .. } => true,
                StudyEvent::StepCompleted { step_index, .. } => *step_index < u32::MAX,
                StudyEvent::SampleBatch { stream_name, samples } => {
                    let total: u64 = match self.series.get(stream_name.as_str()) {
                        Some(series) => series.total,
                        None => 0,
                    };
                    room(total, samples.len() as u64)
                },
                StudyEvent::GattTranscript { step_index, .. } => *step_index < u32::MAX
                    && self.lane_total("gatt:gatt") < u64::MAX,
                StudyEvent::OutpostRows { frame } => self.axis.frames < u64::MAX && room(
                    self.axis.rows,
                    frame.rows as u64,
                ) && room(self.axis.rows_unparsed, frame.unparsed as u64)
                    && self.axis.non_monotone < u64::MAX && self.axis.epoch < u64::MAX && room(
                    self.axis.stale_prefix_dropped,
                    200_000,
                ),
                StudyEvent::StreamText { stream_name, core_rx_utc_ms, text, .. } => {
                    let n: u64 = (split(text.as_str(), '\n').len() - 1) as u64;
                    assert(n == newlines(text@));
                    let total: u64 = match self.consoles.get(stream_name.as_str()) {
                        Some(console) => console.total,
                        None => 0,
                    };
                    let mut key = "console:".to_owned();
                    key.append(stream_name.as_str());
                    room(self.seq, n) && room(total, n) && (core_rx_utc_ms.is_none() || room(
                        self.lane_total(key.as_str()),
                        n,
                    ))
                },
            },
            _ => true,
        }
    }
}

// ---- laws --------------------------------------------------------------------

/// What was missed is carried and adds up: two items that say so are both counted.
pub proof fn lagged_adds_up(s: Session, first: u64, second: u64)
    ensures
        s.after(FollowItem::Lagged { missed: first }).after(
            FollowItem::Lagged { missed: second },
        ).lagged == s.lagged + first + second,
{
}

/// A chunk of console text leaves no feed row.
pub proof fn text_leaves_no_feed_row(s: Session, event: StudyEvent)
    requires
        event is StreamText,
    ensures
        s.after(FollowItem::Event(event)).feed == s.feed,
        s.after(FollowItem::Event(event)).feed_total == s.feed_total,
{
    if let StudyEvent::StreamText { stream_name, step_index, rx_utc_ms, core_rx_utc_ms, text } =
        event {
        let stamp = crate::live_study::console::Stamp { step_index, rx_utc_ms };
        if let Some(at) = core_rx_utc_ms {
            crate::live_study::session::marks_change_only_lanes(
                s.chunked(stream_name@, stamp, text@),
                "console:"@ + stream_name@,
                stream_name@,
                at,
                s.chunk_lines(stream_name@, stamp, text@),
            );
        }
    }
}

/// No item ends a session or loses what its record said: only the end of its follow
/// does.
pub proof fn an_item_does_not_end_a_session(s: Session, item: FollowItem)
    ensures
        s.after(item).finished == s.finished,
        s.after(item).record_note == s.record_note,
        s.after(item).provenance == s.provenance,
{
    if let FollowItem::Event(StudyEvent::StreamText {
        stream_name,
        step_index,
        rx_utc_ms,
        core_rx_utc_ms,
        text,
    }) = item {
        let stamp = crate::live_study::console::Stamp { step_index, rx_utc_ms };
        if let Some(at) = core_rx_utc_ms {
            crate::live_study::session::marks_change_only_lanes(
                s.chunked(stream_name@, stamp, text@),
                "console:"@ + stream_name@,
                stream_name@,
                at,
                s.chunk_lines(stream_name@, stamp, text@),
            );
        }
    }
}

} // verus!
