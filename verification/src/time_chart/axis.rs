//! The axis every lane is drawn on, and the sentence that says what reading a position
//! off it costs.

use vstd::prelude::*;
use vstd::string::*;
use crate::projection::Projection;
use crate::text::{opt_view, texts};

verus! {

/// The axis.
#[derive(Debug)]
pub struct Axis {
    /// `us` or `ms`: what every position counts in.
    pub unit: &'static str,
    /// Which clock drew the axis: `dut-cycles` is a trace's own counter, `host-arrival` its
    /// frames' arrivals, `core-clock` the receipt clock directly, and `none` is that
    /// nothing carries a clock.
    pub axis_clock: &'static str,
    pub t_from: u64,
    pub t_to: u64,
    /// Whether a placement is an interpolation across two clocks.
    pub projected: bool,
    /// How closely a projected instant can be placed, in milliseconds, as it is shown.
    pub accuracy_ms: Option<String>,
    /// Whether there is an axis at all.
    pub placeable: bool,
    /// What drew it.
    pub source: String,
    /// The same window on the receipt clock.
    pub window_from_ms: u64,
    pub window_to_ms: u64,
    pub note: String,
}

pub const NO_TIME_BASE_HEAD: &'static str = "the outpost trace '";

pub const NO_TIME_BASE_TAIL: &'static str = "' has no time base — its own axis is a frame index, which is an order and not a clock — and this study has nothing else stamped to draw an axis with";

pub const NO_AXIS: &'static str = "Nothing in this study carries a clock this chart can draw on: its steps have no recorded arrival stamps, no rendered tap carries embarch-core's own core_rx_utc_ms, and no outpost trace offered a time base. There is no axis, so nothing is drawn — positions invented from row order would look exactly like times.";

pub const DUT_HEAD: &'static str = "The axis is the DUT's own microsecond counter, from the outpost trace '";

pub const DUT_MIDDLE: &'static str = "'. Everything else in this study is stamped on embarch-core's receipt clock and is **projected** onto it through the frames that carry both — good to about ";

pub const DUT_TAIL: &'static str = " ms, which is this capture's own resolution. A mark's position should not be read as aligned to a trace span's; a span measures to the microsecond and a mark does not. Marks outside the trace's own window are counted in the gutter rather than clamped to its edge, because a clamped point would be drawn at a time it was not at.";

pub const ARRIVAL_HEAD: &'static str = "The axis is embarch-core's own receipt clock, reached through the outpost trace '";

pub const ARRIVAL_TAIL: &'static str = "': that capture's records did not all carry the DUT's counter, so the trace itself is drawn on frame arrivals. Those arrivals are the same absolute milliseconds every other stream here is stamped in, so every mark is exactly placed and nothing is projected — the axis is coarser than the DUT's and it is not approximate.";

pub const CORE_CLOCK: &'static str = "The axis is embarch-core's own receipt clock, directly — this study has no outpost trace, so there is no second clock and nothing to project. Every mark is exactly where Core received it, to the millisecond.";

pub const UNDRAWN_HEAD: &'static str = "The axis is embarch-core's own receipt clock, directly — the outpost trace '";

pub const UNDRAWN_TAIL: &'static str = "' has no time base to draw one with, so nothing is projected onto it. Every mark that Core received is exactly where Core received it, to the millisecond.";

/// The accuracy as a sentence says it.
pub open spec fn said(accuracy: Option<Seq<char>>) -> Seq<char> {
    match accuracy {
        Some(a) => a,
        None => "?"@,
    }
}

impl Axis {
    /// Whether the axis runs over what `proj` covers.
    pub open spec fn covers(&self, proj: Projection) -> bool {
        &&& self.placeable
        &&& self.t_from == proj.starts()
        &&& self.t_to == proj.ends()
        &&& self.window_from_ms == proj.opens_at()
        &&& self.window_to_ms == proj.closes_at()
    }

    /// Whether this is the axis of `proj`, for a study whose trace is `tap`. The trace is
    /// its source only where it `drew` it.
    pub open spec fn tells(&self, proj: Projection, tap: Option<Seq<char>>, drew: bool) -> bool {
        if proj is Nowhere {
            &&& self.unit@ == "ms"@
            &&& self.axis_clock@ == "none"@
            &&& self.t_from == 0
            &&& self.t_to == 0
            &&& !self.projected
            &&& self.accuracy_ms is None
            &&& !self.placeable
            &&& self.source@ == "nothing"@
            &&& self.window_from_ms == 0
            &&& self.window_to_ms == 0
            &&& self.note@ == NO_AXIS@
        } else {
            &&& self.covers(proj)
            &&& match tap {
                Some(name) if !drew => {
                    &&& self.unit@ == "ms"@
                    &&& self.axis_clock@ == "core-clock"@
                    &&& !self.projected
                    &&& self.accuracy_ms is None
                    &&& self.source@ == "embarch-core"@
                    &&& self.note@ == UNDRAWN_HEAD@ + name + UNDRAWN_TAIL@
                },
                Some(name) if proj.crosses_clocks() => {
                    &&& self.unit@ == "us"@
                    &&& self.axis_clock@ == "dut-cycles"@
                    &&& self.projected
                    &&& opt_view(self.accuracy_ms) == proj.stated_accuracy()
                    &&& self.source@ == name
                    &&& self.note@ == DUT_HEAD@ + name + DUT_MIDDLE@ + said(proj.stated_accuracy())
                        + DUT_TAIL@
                },
                Some(name) => {
                    &&& self.unit@ == "ms"@
                    &&& self.axis_clock@ == "host-arrival"@
                    &&& !self.projected
                    &&& self.accuracy_ms is None
                    &&& self.source@ == name
                    &&& self.note@ == ARRIVAL_HEAD@ + name + ARRIVAL_TAIL@
                },
                None => {
                    &&& self.unit@ == "ms"@
                    &&& self.axis_clock@ == "core-clock"@
                    &&& !self.projected
                    &&& self.accuracy_ms is None
                    &&& self.source@ == "embarch-core"@
                    &&& self.note@ == CORE_CLOCK@
                },
            }
        }
    }
}

/// What is noted where a trace offers no time base and nothing else does.
pub open spec fn axis_notes(proj: Projection, tap: Option<Seq<char>>) -> Seq<Seq<char>> {
    match tap {
        Some(name) if proj is Nowhere => seq![NO_TIME_BASE_HEAD@ + name + NO_TIME_BASE_TAIL@],
        _ => Seq::empty(),
    }
}

/// The axis of a projection, and what is noted of it. `drew` is whether the projection is
/// the trace's own.
pub fn describe_axis(proj: &Projection, tap: Option<&str>, drew: bool, notes: &mut Vec<String>) -> (r:
    Axis)
    requires
        proj.wf(),
    ensures
        r.tells(
            *proj,
            match tap {
                Some(t) => Some(t@),
                None => None,
            },
            drew,
        ),
        texts(final(notes)@) == texts(old(notes)@) + axis_notes(
            *proj,
            match tap {
                Some(t) => Some(t@),
                None => None,
            },
        ),
{
    let ghost start = texts(notes@);
    if !proj.placeable() {
        if let Some(name) = tap {
            let mut note = NO_TIME_BASE_HEAD.to_owned();
            note.append(name);
            note.append(NO_TIME_BASE_TAIL);
            notes.push(note);
            assert(texts(notes@) =~= start + axis_notes(*proj, Some(name@)));
        } else {
            assert(texts(notes@) =~= start + axis_notes(*proj, None));
        }
        return Axis {
            unit: "ms",
            axis_clock: "none",
            t_from: 0,
            t_to: 0,
            projected: false,
            accuracy_ms: None,
            placeable: false,
            source: "nothing".to_owned(),
            window_from_ms: 0,
            window_to_ms: 0,
            note: NO_AXIS.to_owned(),
        };
    }
    assert(start + Seq::<Seq<char>>::empty() =~= start);
    let accuracy = proj.accuracy();
    let (unit, axis_clock, source, note): (&'static str, &'static str, String, String) = match tap {
        Some(name) => if !drew {
            let mut note = UNDRAWN_HEAD.to_owned();
            note.append(name);
            note.append(UNDRAWN_TAIL);
            ("ms", "core-clock", "embarch-core".to_owned(), note)
        } else if proj.projected() {
            let mut note = DUT_HEAD.to_owned();
            note.append(name);
            note.append(DUT_MIDDLE);
            match &accuracy {
                Some(a) => note.append(a.as_str()),
                None => note.append("?"),
            }
            note.append(DUT_TAIL);
            ("us", "dut-cycles", name.to_owned(), note)
        } else {
            let mut note = ARRIVAL_HEAD.to_owned();
            note.append(name);
            note.append(ARRIVAL_TAIL);
            ("ms", "host-arrival", name.to_owned(), note)
        },
        None => ("ms", "core-clock", "embarch-core".to_owned(), CORE_CLOCK.to_owned()),
    };
    let projected = tap.is_some() && drew && proj.projected();
    Axis {
        unit,
        axis_clock,
        t_from: proj.t_from(),
        t_to: proj.t_to(),
        projected,
        accuracy_ms: if projected {
            accuracy
        } else {
            None
        },
        placeable: true,
        source,
        window_from_ms: proj.window_from_ms(),
        window_to_ms: proj.window_to_ms(),
        note,
    }
}

/// An axis says which clock drew it: the device's own counter where a trace drew it across
/// two clocks, the arrivals of its frames where a trace drew it on one, and the receipt clock
/// where none did. Only the first counts in microseconds, and only it is projected.
pub proof fn an_axis_says_which_clock_drew_it(
    axis: Axis,
    proj: Projection,
    tap: Option<Seq<char>>,
    drew: bool,
)
    requires
        axis.tells(proj, tap, drew),
    ensures
        axis.placeable <==> !(proj is Nowhere),
        axis.projected <==> axis.placeable && tap is Some && drew && proj.crosses_clocks(),
        axis.projected <==> axis.unit@ == "us"@,
        !axis.projected <==> axis.unit@ == "ms"@,
        axis.axis_clock@ == "dut-cycles"@ <==> axis.projected,
        axis.axis_clock@ == "host-arrival"@ <==> axis.placeable && tap is Some && drew
            && !proj.crosses_clocks(),
        axis.axis_clock@ == "core-clock"@ <==> axis.placeable && !(tap is Some && drew),
        axis.axis_clock@ == "none"@ <==> proj is Nowhere,
        axis.accuracy_ms is Some ==> axis.projected,
        axis.placeable && tap is Some && drew ==> axis.source@ == tap->0,
        axis.placeable && !(tap is Some && drew) ==> axis.source@ == "embarch-core"@,
{
    reveal_strlit("dut-cycles");
    reveal_strlit("host-arrival");
    reveal_strlit("core-clock");
    reveal_strlit("none");
    reveal_strlit("us");
    reveal_strlit("ms");
    assert("dut-cycles"@[0] != "core-clock"@[0]);
    assert("dut-cycles"@.len() == 10 && "core-clock"@.len() == 10);
    assert("host-arrival"@.len() == 12 && "none"@.len() == 4);
    assert("us"@[0] != "ms"@[0]);
}

/// On the receipt clock an axis runs over its window and nothing else.
pub proof fn an_axis_on_the_receipt_clock_is_its_window(
    axis: Axis,
    from_ms: u64,
    to_ms: u64,
    tap: Option<Seq<char>>,
    drew: bool,
)
    requires
        axis.tells((Projection::CoreClock { from_ms, to_ms }), tap, drew),
    ensures
        axis.t_from == from_ms,
        axis.t_to == to_ms,
        axis.window_from_ms == from_ms,
        axis.window_to_ms == to_ms,
        axis.placeable,
        !axis.projected,
{
}

/// An axis that frames with both clocks draw runs from what the first of them counted to what
/// the last did, and over their arrivals.
pub proof fn an_axis_runs_from_the_first_frame_to_the_last(
    axis: Axis,
    ties: crate::projection::Ties,
    tap: Option<Seq<char>>,
    drew: bool,
)
    requires
        axis.tells(Projection::Tied(ties), tap, drew),
    ensures
        axis.t_from == ties.anchors@[0].us,
        axis.t_to == ties.anchors@[ties.anchors@.len() - 1].us,
        axis.window_from_ms == ties.anchors@[0].rx_utc_ms,
        axis.window_to_ms == ties.anchors@[ties.anchors@.len() - 1].rx_utc_ms,
{
}

/// Where there is no axis nothing is said to be on one.
pub proof fn without_an_axis_nothing_is_placed(axis: Axis, tap: Option<Seq<char>>, drew: bool)
    requires
        axis.tells(Projection::Nowhere, tap, drew),
    ensures
        !axis.placeable,
        axis.t_from == 0,
        axis.t_to == 0,
        axis.window_from_ms == 0,
        axis.window_to_ms == 0,
        axis.accuracy_ms is None,
        axis.source@ == "nothing"@,
        axis.note@ == NO_AXIS@,
        tap is Some ==> axis_notes(Projection::Nowhere, tap) == seq![
            NO_TIME_BASE_HEAD@ + tap->0 + NO_TIME_BASE_TAIL@,
        ],
        tap is None ==> axis_notes(Projection::Nowhere, tap).len() == 0,
{
}

} // verus!
