//! Opening a past study: its steps, its taps and its job, each read on its own. A part
//! that could not be read says so, and leaves the others as they are.

use vstd::prelude::*;
use vstd::string::*;
use crate::streams::{StreamEncoding, StreamEntry};
use crate::text::opt_view;

verus! {

/// What reading one part of a study gave.
#[derive(Debug)]
pub enum Part<T> {
    Found(T),
    Missing,
    Failed(String),
}

/// One part of a study, or why it is not there.
#[derive(Debug)]
pub struct Shown<T> {
    pub part: Option<T>,
    pub note: Option<String>,
}

impl<T> Shown<T> {
    /// Whether this shows what was read, saying `missing` of a part that is not there.
    pub open spec fn tells(&self, read: Part<T>, missing: Seq<char>) -> bool {
        match read {
            Part::Found(x) => self.part == Some(x) && self.note is None,
            Part::Missing => self.part is None && opt_view(self.note) == Some(missing),
            Part::Failed(why) => self.part is None && opt_view(self.note) == Some(why@),
        }
    }
}

fn show<T>(read: Part<T>, missing: &str) -> (r: Shown<T>)
    ensures
        r.tells(read, missing@),
{
    match read {
        Part::Found(x) => Shown { part: Some(x), note: None },
        Part::Missing => Shown { part: None, note: Some(missing.to_owned()) },
        Part::Failed(why) => Shown { part: None, note: Some(why) },
    }
}

/// One step of a finished study.
#[derive(Debug)]
pub struct StepEntry {
    pub index: u32,
    pub step_name: String,
    pub outcome: String,
    pub reason: Option<String>,
    pub delay_before_ms: Option<u32>,
    pub started_utc_ms: Option<u64>,
    pub ended_utc_ms: Option<u64>,
}

/// A study's steps.
#[derive(Debug)]
pub struct StudySteps {
    pub study_name: String,
    pub timed: bool,
    pub steps: Vec<StepEntry>,
}

/// A study's job, as far as it is still known.
#[derive(Debug)]
pub struct StudyJob {
    pub status: String,
    pub current_step: Option<u32>,
    pub total_steps: Option<u32>,
    pub reason: Option<String>,
    pub streams: Option<String>,
    pub provenance: Option<String>,
}

/// A past study, opened.
#[derive(Debug)]
pub struct OpenedStudy {
    pub study_id: String,
    pub steps: Shown<StudySteps>,
    pub taps: Shown<Vec<StreamEntry>>,
    /// None for a study whose job is forgotten, which is no error.
    pub job: Option<StudyJob>,
}

pub const NO_EVENTS: &'static str = "this study has no events.json — it never finished, or Core has since swept it";

pub const NO_TAPS: &'static str = "this study recorded no streams (it may predate streams/, or never have started)";

/// Opens a past study from what was read of it.
pub fn open_study(
    study_id: &str,
    steps: Part<StudySteps>,
    taps: Part<Vec<StreamEntry>>,
    job: Part<StudyJob>,
) -> (r: OpenedStudy)
    ensures
        r.study_id@ == study_id@,
        r.steps.tells(steps, NO_EVENTS@),
        r.taps.tells(taps, NO_TAPS@),
        r.job == (match job {
            Part::Found(j) => Some(j),
            _ => None,
        }),
{
    OpenedStudy {
        study_id: study_id.to_owned(),
        steps: show(steps, NO_EVENTS),
        taps: show(taps, NO_TAPS),
        job: match job {
            Part::Found(j) => Some(j),
            _ => None,
        },
    }
}

/// Whether a tap is an outpost trace.
pub fn is_outpost_trace(e: &StreamEntry) -> (r: bool)
    ensures
        r == (e.encoding == StreamEncoding::OutpostTrace),
{
    e.encoding == StreamEncoding::OutpostTrace
}

/// Whether a tap is a console.
pub fn is_text(e: &StreamEntry) -> (r: bool)
    ensures
        r == (e.encoding == StreamEncoding::Text),
{
    e.encoding == StreamEncoding::Text
}

/// A part that was read is shown as it is and without a note; one that was not is not shown,
/// and the note says that it is missing, or why it failed.
pub proof fn a_part_is_shown_or_accounted_for<T>(shown: Shown<T>, read: Part<T>, missing: Seq<char>)
    requires
        shown.tells(read, missing),
    ensures
        shown.part is Some <==> read is Found,
        shown.note is None <==> read is Found,
        read is Found ==> shown.part->0 == read->Found_0,
        read is Missing ==> shown.note->0@ == missing,
        read is Failed ==> shown.note->0@ == read->Failed_0@,
{
}

} // verus!
