//! The trace view: which of a study's taps are traces, and whether one can be drawn.

use vstd::prelude::*;
use vstd::string::*;
use crate::live_study::session::StepStamp;
use crate::streams::{StreamEncoding, StreamEntry};
use crate::studies_api::study::{is_outpost_trace, Part, StepEntry, StudySteps};
use crate::text::{copy_opt, opt_view, same, texts};
use crate::time_chart::lanes::{join, listed_with};

verus! {

/// One tap of a study, as the trace view lists it.
#[derive(Debug)]
pub struct TraceTap {
    pub name: String,
    pub encoding: StreamEncoding,
    pub is_outpost_trace: bool,
    pub rendered: bool,
    pub note: Option<String>,
    pub named: bool,
    pub timed: bool,
    pub self_excluded: bool,
}

impl TraceTap {
    /// Whether it tells of a stream.
    pub open spec fn tells(&self, e: StreamEntry) -> bool {
        &&& self.name@ == e.name@
        &&& self.encoding == e.encoding
        &&& self.is_outpost_trace == (e.encoding is OutpostTrace)
        &&& self.rendered == e.rendered
        &&& opt_view(self.note) == opt_view(e.note)
        &&& self.named == e.named
        &&& self.timed == e.timed
        &&& self.self_excluded == e.self_excluded
    }
}

/// Every tap of a study, and whether it is a trace.
pub fn trace_taps(streams: &Vec<StreamEntry>) -> (r: Vec<TraceTap>)
    ensures
        r@.len() == streams@.len(),
        forall|i: int| 0 <= i < streams@.len() ==> (#[trigger] r@[i]).tells(streams@[i]),
{
    let mut out: Vec<TraceTap> = Vec::new();
    for i in 0..streams.len()
        invariant
            out@.len() == i,
            forall|k: int| 0 <= k < i ==> (#[trigger] out@[k]).tells(streams@[k]),
    {
        let e = &streams[i];
        out.push(
            TraceTap {
                name: e.name.clone(),
                encoding: e.encoding,
                is_outpost_trace: is_outpost_trace(e),
                rendered: e.rendered,
                note: copy_opt(&e.note),
                named: e.named,
                timed: e.timed,
                self_excluded: e.self_excluded,
            },
        );
    }
    out
}

// ---- which capture is drawn --------------------------------------------------

/// Why a trace is not drawn.
#[derive(Debug)]
pub enum TraceRefusal {
    /// There is no such thing.
    Missing(String),
    /// It is there, and was never decoded.
    NotRendered(String),
    /// It could not be fetched.
    Unreachable(String),
}

pub open spec fn no_streams(study: Seq<char>) -> Seq<char> {
    "study '"@ + study + "' recorded no streams"@
}

pub open spec fn names_of(streams: Seq<StreamEntry>) -> Seq<Seq<char>> {
    Seq::new(streams.len(), |i: int| streams[i].name@)
}

pub open spec fn no_tap(study: Seq<char>, name: Seq<char>, streams: Seq<StreamEntry>) -> Seq<char> {
    "study '"@ + study + "' declared no tap named '"@ + name + "' — it declared: "@
        + if streams.len() == 0 {
        "(none)"@
    } else {
        listed_with(names_of(streams), ", "@)
    }
}

pub open spec fn not_rendered(name: Seq<char>, note: Option<Seq<char>>) -> Seq<char> {
    "tap '"@ + name + "' has no decoded rendering, so there is no timeline to draw. "@ + match note {
        Some(why) => why,
        None => "Core recorded no reason."@,
    }
}

/// Where the first stream of a name stands among the first `n`.
pub open spec fn tap_at(streams: Seq<StreamEntry>, name: Seq<char>, n: int) -> Option<int>
    decreases n,
{
    if n <= 0 {
        None
    } else {
        match tap_at(streams, name, n - 1) {
            Some(i) => Some(i),
            None => if streams[n - 1].name@ == name {
                Some(n - 1)
            } else {
                None
            },
        }
    }
}

proof fn tap_stays(streams: Seq<StreamEntry>, name: Seq<char>, a: int, b: int)
    requires
        0 <= a <= b,
        tap_at(streams, name, a) is Some,
    ensures
        tap_at(streams, name, b) == tap_at(streams, name, a),
    decreases b,
{
    if a < b {
        tap_stays(streams, name, a, b - 1);
    }
}

fn find_tap(streams: &Vec<StreamEntry>, name: &str) -> (r: Option<usize>)
    ensures
        match tap_at(streams@, name@, streams@.len() as int) {
            Some(i) => r matches Some(at) && at == i && at < streams@.len(),
            None => r is None,
        },
{
    for i in 0..streams.len()
        invariant
            tap_at(streams@, name@, i as int) is None,
    {
        if same(streams[i].name.as_str(), name) {
            proof {
                tap_stays(streams@, name@, i + 1, streams@.len() as int);
            }
            return Some(i);
        }
    }
    None
}

/// The stream to draw, or why there is none: a study without streams, a name that is not
/// declared, or a capture that was never decoded.
pub fn drawable(study_id: &str, name: &str, index: &Part<Vec<StreamEntry>>) -> (r: Result<
    usize,
    TraceRefusal,
>)
    ensures
        match *index {
            Part::Missing => r matches Err(TraceRefusal::Missing(e)) && e@ == no_streams(study_id@),
            Part::Failed(why) => r matches Err(TraceRefusal::Unreachable(e)) && e@ == why@,
            Part::Found(streams) => match tap_at(streams@, name@, streams@.len() as int) {
                None => r matches Err(TraceRefusal::Missing(e)) && e@ == no_tap(
                    study_id@,
                    name@,
                    streams@,
                ),
                Some(i) => if streams@[i].rendered {
                    r matches Ok(at) && at == i
                } else {
                    r matches Err(TraceRefusal::NotRendered(e)) && e@ == not_rendered(
                        name@,
                        opt_view(streams@[i].note),
                    )
                },
            },
        },
{
    match index {
        Part::Missing => {
            let mut e = "study '".to_owned();
            e.append(study_id);
            e.append("' recorded no streams");
            Err(TraceRefusal::Missing(e))
        },
        Part::Failed(why) => Err(TraceRefusal::Unreachable(why.clone())),
        Part::Found(streams) => match find_tap(streams, name) {
            None => {
                let mut e = "study '".to_owned();
                e.append(study_id);
                e.append("' declared no tap named '");
                e.append(name);
                e.append("' — it declared: ");
                if streams.len() == 0 {
                    e.append("(none)");
                } else {
                    let mut names: Vec<String> = Vec::new();
                    for i in 0..streams.len()
                        invariant
                            texts(names@) =~= names_of(streams@).take(i as int),
                    {
                        let ghost was = texts(names@);
                        names.push(streams[i].name.clone());
                        assert(texts(names@) =~= was.push(streams@[i as int].name@));
                    }
                    assert(names_of(streams@).take(streams@.len() as int) =~= names_of(streams@));
                    e.append(join(&names, ", ").as_str());
                }
                Err(TraceRefusal::Missing(e))
            },
            Some(at) => {
                if streams[at].rendered {
                    return Ok(at);
                }
                let mut e = "tap '".to_owned();
                e.append(name);
                e.append("' has no decoded rendering, so there is no timeline to draw. ");
                match &streams[at].note {
                    Some(why) => e.append(why.as_str()),
                    None => e.append("Core recorded no reason."),
                }
                Err(TraceRefusal::NotRendered(e))
            },
        },
    }
}

// ---- the steps above the lanes -----------------------------------------------

/// The stamp of a step that has both of its times.
pub open spec fn stamped(s: StepEntry, stamp: StepStamp) -> bool {
    &&& s.started_utc_ms == Some(stamp.started_utc_ms)
    &&& s.ended_utc_ms == Some(stamp.ended_utc_ms)
    &&& stamp.index == s.index
    &&& stamp.name@ == s.step_name@
    &&& stamp.outcome@ == s.outcome@
    &&& opt_view(stamp.reason) == opt_view(s.reason)
    &&& stamp.delay_before_ms == (match s.delay_before_ms {
        Some(d) => d,
        None => 0,
    })
}

/// Those of the first `n` steps that have both of their times.
pub open spec fn timed_steps(steps: Seq<StepEntry>, n: int) -> Seq<StepEntry>
    decreases n,
{
    if n <= 0 {
        Seq::empty()
    } else if steps[n - 1].started_utc_ms is Some && steps[n - 1].ended_utc_ms is Some {
        timed_steps(steps, n - 1).push(steps[n - 1])
    } else {
        timed_steps(steps, n - 1)
    }
}

/// When each step of a study ran, where that was recorded. A study without times has no
/// steps to place, which is no error.
pub fn step_stamps(read: &Part<StudySteps>) -> (r: Vec<StepStamp>)
    ensures
        match *read {
            Part::Found(study) if study.timed => {
                let timed = timed_steps(study.steps@, study.steps@.len() as int);
                &&& r@.len() == timed.len()
                &&& forall|i: int| 0 <= i < timed.len() ==> stamped(timed[i], #[trigger] r@[i])
            },
            _ => r@.len() == 0,
        },
{
    let mut out: Vec<StepStamp> = Vec::new();
    if let Part::Found(study) = read {
        if study.timed {
            for i in 0..study.steps.len()
                invariant
                    out@.len() == timed_steps(study.steps@, i as int).len(),
                    forall|k: int|
                        0 <= k < out@.len() ==> stamped(
                            timed_steps(study.steps@, i as int)[k],
                            #[trigger] out@[k],
                        ),
            {
                let s = &study.steps[i];
                match (s.started_utc_ms, s.ended_utc_ms) {
                    (Some(started_utc_ms), Some(ended_utc_ms)) => {
                        let delay_before_ms: u32 = match s.delay_before_ms {
                            Some(d) => d,
                            None => 0,
                        };
                        out.push(
                            StepStamp {
                                index: s.index,
                                name: s.step_name.clone(),
                                outcome: s.outcome.clone(),
                                reason: copy_opt(&s.reason),
                                delay_before_ms,
                                started_utc_ms,
                                ended_utc_ms,
                            },
                        );
                    },
                    _ => {},
                }
            }
        }
    }
    out
}

// ---- what is asked for -------------------------------------------------------

/// Which window of a trace is asked for.
#[derive(Debug, Clone, Copy, PartialEq, Eq, Structural)]
pub struct TraceBinsQuery {
    pub from: Option<u64>,
    pub to: Option<u64>,
    pub width: Option<usize>,
}

/// The window to draw: the whole capture where nothing else is said.
pub fn bins_window(q: &TraceBinsQuery, t_from: u64, t_to: u64) -> (r: (u64, u64, usize))
    ensures
        r.0 == (match q.from {
            Some(x) => x,
            None => t_from,
        }),
        r.1 == (match q.to {
            Some(x) => x,
            None => t_to,
        }),
        r.2 == (match q.width {
            Some(x) => x,
            None => 1,
        }),
{
    let from: u64 = match q.from {
        Some(x) => x,
        None => t_from,
    };
    let to: u64 = match q.to {
        Some(x) => x,
        None => t_to,
    };
    let width: usize = match q.width {
        Some(x) => x,
        None => 1,
    };
    (from, to, width)
}

// ---- laws --------------------------------------------------------------------

/// A tap is found where the first stream of its name stands, and only there.
pub proof fn the_first_tap_of_a_name_is_found(streams: Seq<StreamEntry>, name: Seq<char>, n: int)
    requires
        0 <= n <= streams.len(),
    ensures
        match tap_at(streams, name, n) {
            Some(i) => 0 <= i < n && streams[i].name@ == name && forall|j: int|
                0 <= j < i ==> (#[trigger] streams[j]).name@ != name,
            None => forall|j: int| 0 <= j < n ==> (#[trigger] streams[j]).name@ != name,
        },
    decreases n,
{
    if n > 0 {
        the_first_tap_of_a_name_is_found(streams, name, n - 1);
    }
}

/// The steps that are placed are those that both began and ended at a known time, in their
/// order.
pub proof fn a_step_with_both_times_is_placed(steps: Seq<StepEntry>, n: int)
    requires
        0 <= n <= steps.len(),
    ensures
        timed_steps(steps, n) == steps.take(n).filter(
            |s: StepEntry| s.started_utc_ms is Some && s.ended_utc_ms is Some,
        ),
    decreases n,
{
    reveal(Seq::filter);
    if n > 0 {
        a_step_with_both_times_is_placed(steps, n - 1);
        assert(steps.take(n).drop_last() =~= steps.take(n - 1));
        assert(steps.take(n).last() == steps[n - 1]);
    } else {
        assert(steps.take(0) =~= Seq::empty());
    }
}

/// A step is placed as it ran: from when it began to when it ended, under its own name and
/// outcome.
pub proof fn a_stamp_is_of_its_step(s: StepEntry, stamp: StepStamp)
    requires
        stamped(s, stamp),
    ensures
        s.started_utc_ms is Some,
        s.ended_utc_ms is Some,
        stamp.started_utc_ms == s.started_utc_ms->0,
        stamp.ended_utc_ms == s.ended_utc_ms->0,
        stamp.index == s.index,
        stamp.name@ == s.step_name@,
        stamp.outcome@ == s.outcome@,
        stamp.reason is Some <==> s.reason is Some,
        s.delay_before_ms is Some ==> stamp.delay_before_ms == s.delay_before_ms->0,
        s.delay_before_ms is None ==> stamp.delay_before_ms == 0,
{
}

} // verus!
