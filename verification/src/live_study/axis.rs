//! The axis a live session is building from a trace as it arrives, and the
//! accounting of what it refused on the way.

use vstd::prelude::*;
use vstd::string::*;
use crate::projection::{monotone, ClockAnchor, Projection, Ties};
use crate::sorting::{one_stable_order, sorted_order, stable_order};
use crate::text::{copy_opt, dec, decimal, opt_view, same};
use crate::time_chart::accounts::{any_order_holds_as_many, holding};

verus! {

/// Anchors kept.
pub const MAX_LIVE_ANCHORS: usize = 200_000;

/// One pushed frame of a trace, as its rows decode.
#[derive(Debug)]
pub struct TraceFrame {
    /// The tap it arrived on.
    pub tap: String,
    /// Whether the capture's header frame has arrived.
    pub header_seen: bool,
    /// How many rows it carries.
    pub rows: usize,
    /// How many of them could not be read as rows.
    pub unparsed: usize,
    /// The anchor its rows give, where they carry both clocks.
    pub anchor: Option<ClockAnchor>,
    /// How many leading anchors, with this frame's own appended, are left over from
    /// before a reset.
    pub stale: usize,
}

/// What a [`TraceFrame`] says.
pub ghost struct FrameState {
    pub tap: Seq<char>,
    pub header_seen: bool,
    pub rows: nat,
    pub unparsed: nat,
    pub anchor: Option<ClockAnchor>,
    pub stale: nat,
}

impl View for TraceFrame {
    type V = FrameState;

    open spec fn view(&self) -> FrameState {
        FrameState {
            tap: self.tap@,
            header_seen: self.header_seen,
            rows: self.rows as nat,
            unparsed: self.unparsed as nat,
            anchor: self.anchor,
            stale: self.stale as nat,
        }
    }
}

/// The axis so far.
#[derive(Debug)]
pub struct LiveAxis {
    /// In arrival order, and never sorted: an anchor whose arrival goes backwards is
    /// refused at the door.
    pub anchors: Vec<ClockAnchor>,
    /// Which axis the marks already sent were placed on.
    pub epoch: u64,
    /// Anchors refused because their arrival went backwards.
    pub non_monotone: u64,
    pub header_seen: bool,
    pub frames: u64,
    pub rows: u64,
    pub rows_unparsed: u64,
    /// How many leading anchors were dropped as left over from before a reset.
    pub stale_prefix_dropped: u64,
    /// The tap that is drawing the axis.
    pub tap: Option<String>,
}

/// What a [`LiveAxis`] holds.
pub ghost struct AxisState {
    pub anchors: Seq<ClockAnchor>,
    pub epoch: nat,
    pub non_monotone: nat,
    pub header_seen: bool,
    pub frames: nat,
    pub rows: nat,
    pub rows_unparsed: nat,
    pub stale_prefix_dropped: nat,
    pub tap: Option<Seq<char>>,
}

impl View for LiveAxis {
    type V = AxisState;

    open spec fn view(&self) -> AxisState {
        AxisState {
            anchors: self.anchors@,
            epoch: self.epoch as nat,
            non_monotone: self.non_monotone as nat,
            header_seen: self.header_seen,
            frames: self.frames as nat,
            rows: self.rows as nat,
            rows_unparsed: self.rows_unparsed as nat,
            stale_prefix_dropped: self.stale_prefix_dropped as nat,
            tap: opt_view(self.tap),
        }
    }
}

/// The smaller of two counts.
pub open spec fn smaller(a: nat, b: nat) -> nat {
    if a <= b {
        a
    } else {
        b
    }
}

impl AxisState {
    pub open spec fn empty() -> AxisState {
        AxisState {
            anchors: Seq::empty(),
            epoch: 0,
            non_monotone: 0,
            header_seen: false,
            frames: 0,
            rows: 0,
            rows_unparsed: 0,
            stale_prefix_dropped: 0,
            tap: None,
        }
    }

    /// The frame is counted, and the first tap to send one draws the axis.
    pub open spec fn counted(self, frame: FrameState) -> AxisState {
        AxisState {
            frames: self.frames + 1,
            rows: self.rows + frame.rows,
            tap: if self.tap is None {
                Some(frame.tap)
            } else {
                self.tap
            },
            ..self
        }
    }

    /// Whether this frame's tap is the one that draws the axis.
    pub open spec fn draws(self, frame: FrameState) -> bool {
        self.counted(frame).tap == Some(frame.tap)
    }

    /// Whether the frame's anchor arrived before the last one kept.
    pub open spec fn goes_backwards(self, anchor: ClockAnchor) -> bool {
        self.anchors.len() > 0 && anchor.rx_utc_ms < self.anchors.last().rx_utc_ms
    }

    /// The anchors with one more, as far as there is room for it.
    pub open spec fn with_anchor(self, anchor: ClockAnchor) -> Seq<ClockAnchor> {
        if self.anchors.len() < MAX_LIVE_ANCHORS {
            self.anchors.push(anchor)
        } else {
            self.anchors
        }
    }

    /// How many anchors the frame shows to be left over from before a reset.
    pub open spec fn stale(self, frame: FrameState) -> nat {
        match frame.anchor {
            Some(a) if !self.goes_backwards(a) => smaller(frame.stale, self.with_anchor(a).len()),
            _ => 0,
        }
    }

    /// Whether the frame invalidates every placement already sent: the header arrived,
    /// or a stale prefix was dropped.
    pub open spec fn moves(self, frame: FrameState) -> bool {
        self.draws(frame) && ((frame.header_seen && !self.header_seen) || self.stale(frame) > 0)
    }

    /// The axis after a frame.
    pub open spec fn after(self, frame: FrameState) -> AxisState {
        let counted = self.counted(frame);
        if !self.draws(frame) {
            counted
        } else {
            AxisState {
                anchors: match frame.anchor {
                    Some(a) if !self.goes_backwards(a) => self.with_anchor(a).skip(
                        self.stale(frame) as int,
                    ),
                    _ => self.anchors,
                },
                epoch: if self.moves(frame) {
                    self.epoch + 1
                } else {
                    self.epoch
                },
                non_monotone: match frame.anchor {
                    Some(a) if self.goes_backwards(a) => self.non_monotone + 1,
                    _ => self.non_monotone,
                },
                header_seen: self.header_seen || frame.header_seen,
                rows_unparsed: self.rows_unparsed + frame.unparsed,
                stale_prefix_dropped: self.stale_prefix_dropped + self.stale(frame),
                ..counted
            }
        }
    }

    pub open spec fn wf(self) -> bool {
        &&& monotone(self.anchors)
        &&& self.anchors.len() <= MAX_LIVE_ANCHORS
    }

    /// Whether every counter can still take the frame.
    pub open spec fn has_room(self, frame: FrameState) -> bool {
        &&& self.frames < u64::MAX
        &&& self.rows + frame.rows <= u64::MAX
        &&& self.rows_unparsed + frame.unparsed <= u64::MAX
        &&& self.non_monotone < u64::MAX
        &&& self.epoch < u64::MAX
        &&& self.stale_prefix_dropped + MAX_LIVE_ANCHORS <= u64::MAX
    }
}

/// The milliseconds between consecutive anchors.
pub open spec fn gaps(anchors: Seq<ClockAnchor>) -> Seq<u64> {
    Seq::new(
        (anchors.len() - 1) as nat,
        |i: int| (anchors[i + 1].rx_utc_ms - anchors[i].rx_utc_ms) as u64,
    )
}

/// Twice the median of `values`.
pub open spec fn median_twice(values: Seq<u64>) -> nat {
    let order = choose|order: Seq<usize>| stable_order(values, order);
    let mid = values.len() as int / 2;
    if values.len() % 2 == 0 {
        (values[order[mid - 1] as int] + values[order[mid] as int]) as nat
    } else {
        2 * values[order[mid] as int] as nat
    }
}

/// Half of `n`, in decimal.
pub open spec fn halves(n: nat) -> Seq<char> {
    if n % 2 == 0 {
        decimal(n / 2)
    } else {
        decimal(n / 2) + ".5"@
    }
}

/// Said until the trace's first frame arrives.
pub const NO_FRAME_YET: &'static str = "This study declares an outpost trace and none of its frames has arrived yet, so there is no axis to draw on. Nothing is placed against a guess in the meantime — the chart appears when the trace's first stamped-and-dated frame does.";

/// Said while frames arrive and their header has not.
pub const HEADER_MISSING_HEAD: &'static str = "The trace '";

pub const HEADER_MISSING_TAIL: &'static str = "' is arriving and its header frame has not, so its records carry a raw cycle count and no rate to divide it by. The axis appears when the header does; embarch-core repeats it, so this is a wait rather than a refusal.";

/// Said while fewer than two frames carry both clocks.
pub const TOO_FEW_ANCHORS: &'static str = "Fewer than two frames of this capture carry both clocks, so there is nothing to tie the DUT's counter to embarch-core's own. One more stamped frame is all it takes.";

/// Said of an axis that is there.
pub const DRAWN_HEAD: &'static str = "The axis is the DUT's own microsecond counter, from the trace '";

pub const DRAWN_MIDDLE: &'static str = "' as it arrives. Everything else in this study is stamped on embarch-core's receipt clock and is projected onto it through the frames that carry both — good to about ";

pub const DRAWN_TAIL: &'static str = " ms so far. This axis grows as the run does: a mark past its leading edge is counted, never drawn at a guessed position.";

pub const UNKNOWN: &'static str = "?";

/// The axis as the tab is told of it.
#[derive(Debug)]
pub enum AxisView {
    /// There is no axis yet.
    Waiting {
        epoch: u64,
        source: Option<String>,
        note: String,
        frames: u64,
        rows: u64,
        non_monotone: u64,
    },
    /// There is one, as far as the trace has come.
    Drawn {
        epoch: u64,
        source: Option<String>,
        t_from: u64,
        t_to: u64,
        accuracy_ms: Option<String>,
        window_from_ms: u64,
        window_to_ms: u64,
        frames: u64,
        rows: u64,
        rows_unparsed: u64,
        non_monotone: u64,
        stale_prefix_dropped: u64,
        note: String,
    },
}

pub open spec fn named(tap: Option<Seq<char>>) -> Seq<char> {
    match tap {
        Some(t) => t,
        None => UNKNOWN@,
    }
}

/// What is said of an axis that is not there yet.
pub open spec fn waiting_note(axis: AxisState) -> Seq<char> {
    if axis.tap is None {
        NO_FRAME_YET@
    } else if !axis.header_seen {
        HEADER_MISSING_HEAD@ + named(axis.tap) + HEADER_MISSING_TAIL@
    } else {
        TOO_FEW_ANCHORS@
    }
}

/// What is said of an axis that is there.
pub open spec fn drawn_note(axis: AxisState, accuracy: Option<Seq<char>>) -> Seq<char> {
    DRAWN_HEAD@ + named(axis.tap) + DRAWN_MIDDLE@ + named(accuracy) + DRAWN_TAIL@
}

impl AxisView {
    /// Whether this is what is told of `axis` on `proj`.
    pub open spec fn tells(&self, axis: AxisState, proj: Projection) -> bool {
        match self {
            AxisView::Waiting { epoch, source, note, frames, rows, non_monotone } => {
                &&& proj is Nowhere
                &&& *epoch == axis.epoch
                &&& opt_view(*source) == axis.tap
                &&& note@ == waiting_note(axis)
                &&& *frames == axis.frames
                &&& *rows == axis.rows
                &&& *non_monotone == axis.non_monotone
            },
            AxisView::Drawn {
                epoch,
                source,
                t_from,
                t_to,
                accuracy_ms,
                window_from_ms,
                window_to_ms,
                frames,
                rows,
                rows_unparsed,
                non_monotone,
                stale_prefix_dropped,
                note,
            } => {
                &&& !(proj is Nowhere)
                &&& *epoch == axis.epoch
                &&& opt_view(*source) == axis.tap
                &&& *t_from == proj.starts()
                &&& *t_to == proj.ends()
                &&& opt_view(*accuracy_ms) == proj.stated_accuracy()
                &&& *window_from_ms == proj.opens_at()
                &&& *window_to_ms == proj.closes_at()
                &&& *frames == axis.frames
                &&& *rows == axis.rows
                &&& *rows_unparsed == axis.rows_unparsed
                &&& *non_monotone == axis.non_monotone
                &&& *stale_prefix_dropped == axis.stale_prefix_dropped
                &&& note@ == drawn_note(axis, proj.stated_accuracy())
            },
        }
    }
}

fn without_front(anchors: &Vec<ClockAnchor>, gone: usize) -> (r: Vec<ClockAnchor>)
    requires
        gone <= anchors.len(),
        monotone(anchors@),
    ensures
        r@ == anchors@.skip(gone as int),
        monotone(r@),
{
    let mut rest: Vec<ClockAnchor> = Vec::new();
    for i in gone..anchors.len()
        invariant
            gone <= anchors.len(),
            rest@ == anchors@.subrange(gone as int, i as int),
    {
        rest.push(anchors[i]);
        assert(rest@ =~= anchors@.subrange(gone as int, i + 1));
    }
    assert(rest@ =~= anchors@.skip(gone as int));
    rest
}

fn named_or_unknown(x: &Option<String>) -> (r: String)
    ensures
        r@ == named(opt_view(*x)),
{
    match x {
        Some(s) => s.clone(),
        None => UNKNOWN.to_owned(),
    }
}

impl LiveAxis {
    /// An axis no frame has arrived for.
    pub fn new() -> (r: LiveAxis)
        ensures
            r@ == AxisState::empty(),
            r@.wf(),
    {
        LiveAxis {
            anchors: Vec::new(),
            epoch: 0,
            non_monotone: 0,
            header_seen: false,
            frames: 0,
            rows: 0,
            rows_unparsed: 0,
            stale_prefix_dropped: 0,
            tap: None,
        }
    }

    /// Takes an anchor in, or counts it as refused, and drops what is stale. Returns
    /// whether anything was dropped.
    fn take_anchor(&mut self, anchor: ClockAnchor, stale: usize) -> (r: bool)
        requires
            old(self)@.wf(),
            old(self).non_monotone < u64::MAX,
            old(self).stale_prefix_dropped + MAX_LIVE_ANCHORS <= u64::MAX,
        ensures
            final(self)@.wf(),
            final(self)@ == (if old(self)@.goes_backwards(anchor) {
                AxisState { non_monotone: old(self)@.non_monotone + 1, ..old(self)@ }
            } else {
                let gone = smaller(stale as nat, old(self)@.with_anchor(anchor).len());
                AxisState {
                    anchors: old(self)@.with_anchor(anchor).skip(gone as int),
                    stale_prefix_dropped: old(self)@.stale_prefix_dropped + gone,
                    ..old(self)@
                }
            }),
            r == (!old(self)@.goes_backwards(anchor) && smaller(
                stale as nat,
                old(self)@.with_anchor(anchor).len(),
            ) > 0),
    {
        let n: usize = self.anchors.len();
        if n > 0 && anchor.rx_utc_ms < self.anchors[n - 1].rx_utc_ms {
            self.non_monotone = self.non_monotone + 1;
            return false;
        }
        if n < MAX_LIVE_ANCHORS {
            self.anchors.push(anchor);
        }
        assert(monotone(self.anchors@));
        let gone: usize = if stale <= self.anchors.len() {
            stale
        } else {
            self.anchors.len()
        };
        self.anchors = without_front(&self.anchors, gone);
        self.stale_prefix_dropped = self.stale_prefix_dropped + gone as u64;
        gone > 0
    }

    /// Folds one pushed frame in. Returns whether every placement already sent is
    /// invalid, in which case the epoch moved too.
    ///
    /// The header arriving moves the epoch even where its own frame anchors nothing. A
    /// frame of another tap than the one that draws the axis is counted and
    /// contributes no anchor.
    pub fn ingest(&mut self, frame: &TraceFrame) -> (r: bool)
        requires
            old(self)@.wf(),
            old(self)@.has_room(frame@),
        ensures
            final(self)@ == old(self)@.after(frame@),
            final(self)@.wf(),
            r == old(self)@.moves(frame@),
            r == (final(self).epoch != old(self).epoch),
    {
        let ghost start = self@;
        self.frames = self.frames + 1;
        self.rows = self.rows + frame.rows as u64;
        if self.tap.is_none() {
            self.tap = Some(frame.tap.clone());
        }
        let ours = match &self.tap {
            Some(t) => same(t.as_str(), frame.tap.as_str()),
            None => false,
        };
        if !ours {
            return false;
        }
        let mut moved = false;
        if frame.header_seen && !self.header_seen {
            self.header_seen = true;
            moved = true;
        }
        self.rows_unparsed = self.rows_unparsed + frame.unparsed as u64;
        match frame.anchor {
            None => {},
            Some(anchor) => {
                if self.take_anchor(anchor, frame.stale) {
                    moved = true;
                }
            },
        }
        if moved {
            self.epoch = self.epoch + 1;
        }
        moved
    }

    /// Twice the median of the milliseconds between consecutive anchors: how finely this
    /// capture can place anything. `None` until there are two.
    pub fn resolution_half_ms(&self) -> (r: Option<u128>)
        requires
            self@.wf(),
        ensures
            r is Some == (self@.anchors.len() >= 2),
            r is Some ==> r->0 == median_twice(gaps(self@.anchors)),
            r is Some ==> r->0 <= 2 * u64::MAX,
            r is Some ==> {
                let gaps = gaps(self@.anchors);
                let under = Seq::new(gaps.len(), |i: int| 2 * gaps[i] < r->0);
                let over = Seq::new(gaps.len(), |i: int| 2 * gaps[i] > r->0);
                2 * holding(under) <= gaps.len() && 2 * holding(over) <= gaps.len()
            },
    {
        let n: usize = self.anchors.len();
        if n < 2 {
            return None;
        }
        let mut deltas: Vec<u64> = Vec::new();
        for i in 0..n - 1
            invariant
                n == self.anchors.len(),
                n >= 2,
                self@.wf(),
                deltas@ =~= gaps(self.anchors@).take(i as int),
        {
            assert(self.anchors@[i as int].rx_utc_ms <= self.anchors@[i + 1].rx_utc_ms);
            deltas.push(self.anchors[i + 1].rx_utc_ms - self.anchors[i].rx_utc_ms);
        }
        assert(deltas@ =~= gaps(self.anchors@));
        let order = sorted_order(&deltas);
        proof {
            one_stable_order(
                deltas@,
                order@,
                choose|order: Seq<usize>| stable_order(deltas@, order),
            );
            a_median_has_as_many_on_either_side(deltas@, order@);
            let m = median_twice(deltas@);
            assert(Seq::new(deltas@.len(), |i: int| 2 * deltas@[i] < m) =~= Seq::new(
                deltas@.len(),
                |i: int| 2 * deltas@[i] < m as u128,
            ));
            assert(Seq::new(deltas@.len(), |i: int| 2 * deltas@[i] > m) =~= Seq::new(
                deltas@.len(),
                |i: int| 2 * deltas@[i] > m as u128,
            ));
        }
        let mid: usize = deltas.len() / 2;
        if deltas.len() % 2 == 0 {
            Some(deltas[order[mid - 1]] as u128 + deltas[order[mid]] as u128)
        } else {
            Some(2 * (deltas[order[mid]] as u128))
        }
    }

    /// Where the axis places an instant, as far as the trace has come: nowhere before two
    /// frames carry both clocks.
    pub fn projection(&self) -> (r: Projection)
        requires
            self@.wf(),
        ensures
            r.wf(),
            r is Nowhere == (self@.anchors.len() < 2),
            r is Nowhere || r is Tied,
            r matches Projection::Tied(t) ==> t.anchors@ == self@.anchors && opt_view(t.accuracy)
                == Some(halves(median_twice(gaps(self@.anchors)))),
    {
        match self.resolution_half_ms() {
            None => Projection::Nowhere,
            Some(twice) => {
                let mut anchors: Vec<ClockAnchor> = Vec::new();
                for i in 0..self.anchors.len()
                    invariant
                        anchors@ =~= self.anchors@.take(i as int),
                {
                    anchors.push(self.anchors[i]);
                }
                assert(self.anchors@.take(self.anchors@.len() as int) =~= self.anchors@);
                assert(twice < 0x2_0000_0000_0000_0000);
                let mut accuracy = dec((twice / 2) as u64);
                if twice % 2 == 1 {
                    accuracy.append(".5");
                }
                Projection::Tied(Ties { anchors, accuracy: Some(accuracy) })
            },
        }
    }

    /// The axis as the tab is told of it.
    pub fn describe(&self, proj: &Projection) -> (r: AxisView)
        requires
            proj.wf(),
        ensures
            r.tells(self@, *proj),
    {
        if !proj.placeable() {
            let note = if self.tap.is_none() {
                NO_FRAME_YET.to_owned()
            } else if !self.header_seen {
                let mut note = HEADER_MISSING_HEAD.to_owned();
                note.append(named_or_unknown(&self.tap).as_str());
                note.append(HEADER_MISSING_TAIL);
                note
            } else {
                TOO_FEW_ANCHORS.to_owned()
            };
            return AxisView::Waiting {
                epoch: self.epoch,
                source: copy_opt(&self.tap),
                note,
                frames: self.frames,
                rows: self.rows,
                non_monotone: self.non_monotone,
            };
        }
        let accuracy = proj.accuracy();
        let mut note = DRAWN_HEAD.to_owned();
        note.append(named_or_unknown(&self.tap).as_str());
        note.append(DRAWN_MIDDLE);
        note.append(named_or_unknown(&accuracy).as_str());
        note.append(DRAWN_TAIL);
        AxisView::Drawn {
            epoch: self.epoch,
            source: copy_opt(&self.tap),
            t_from: proj.t_from(),
            t_to: proj.t_to(),
            accuracy_ms: accuracy,
            window_from_ms: proj.window_from_ms(),
            window_to_ms: proj.window_to_ms(),
            frames: self.frames,
            rows: self.rows,
            rows_unparsed: self.rows_unparsed,
            non_monotone: self.non_monotone,
            stale_prefix_dropped: self.stale_prefix_dropped,
            note,
        }
    }
}

/// An anchor whose arrival goes backwards is counted and changes no anchor; the ones
/// that are kept never go backwards.
pub proof fn a_backwards_anchor_is_refused_and_counted(axis: AxisState, frame: FrameState)
    requires
        axis.wf(),
        axis.draws(frame),
        frame.anchor is Some,
        axis.goes_backwards(frame.anchor->0),
    ensures
        axis.after(frame).anchors == axis.anchors,
        axis.after(frame).non_monotone == axis.non_monotone + 1,
        monotone(axis.after(frame).anchors),
{
}

/// The header moves the epoch once: a second frame that has seen it does not.
pub proof fn the_header_moves_the_epoch_once(axis: AxisState, frame: FrameState, next: FrameState)
    requires
        axis.draws(frame),
        frame.header_seen,
        !axis.header_seen,
        next.stale == 0,
    ensures
        axis.after(frame).epoch == axis.epoch + 1,
        axis.after(frame).after(next).epoch == axis.after(frame).epoch,
{
}

/// Every frame is counted with its rows, whichever tap it came on; and the first tap to send
/// one draws the axis for good.
pub proof fn every_frame_is_counted(axis: AxisState, frame: FrameState)
    ensures
        axis.after(frame).frames == axis.frames + 1,
        axis.after(frame).rows == axis.rows + frame.rows,
        axis.tap is None ==> axis.after(frame).tap == Some(frame.tap),
        axis.tap is Some ==> axis.after(frame).tap == axis.tap,
        axis.header_seen ==> axis.after(frame).header_seen,
{
}

/// A frame of another tap than the one that draws moves nothing on the axis.
pub proof fn another_tap_moves_nothing(axis: AxisState, frame: FrameState)
    requires
        axis.tap is Some,
        axis.tap->0 != frame.tap,
    ensures
        axis.after(frame).anchors == axis.anchors,
        axis.after(frame).epoch == axis.epoch,
        axis.after(frame).header_seen == axis.header_seen,
        axis.after(frame).non_monotone == axis.non_monotone,
        axis.after(frame).rows_unparsed == axis.rows_unparsed,
        axis.after(frame).stale_prefix_dropped == axis.stale_prefix_dropped,
        !axis.moves(frame),
{
}

/// An anchor that arrived no earlier than the last is kept behind it while there is room, and
/// what a frame shows to be stale goes from the front and is counted.
pub proof fn an_anchor_is_kept_in_its_turn(axis: AxisState, frame: FrameState, a: ClockAnchor)
    requires
        axis.tap is None || axis.tap->0 == frame.tap,
        frame.anchor == Some(a),
        axis.anchors.len() > 0 ==> axis.anchors[axis.anchors.len() - 1].rx_utc_ms <= a.rx_utc_ms,
        axis.anchors.len() < 200_000,
        frame.stale <= axis.anchors.len() + 1,
    ensures
        frame.stale == 0 ==> axis.after(frame).anchors == axis.anchors.push(a),
        axis.after(frame).anchors == axis.anchors.push(a).skip(frame.stale as int),
        axis.after(frame).stale_prefix_dropped == axis.stale_prefix_dropped + frame.stale,
        axis.after(frame).non_monotone == axis.non_monotone,
        axis.after(frame).rows_unparsed == axis.rows_unparsed + frame.unparsed,
        frame.stale > 0 ==> axis.moves(frame),
{
    assert(axis.anchors.push(a).skip(0) =~= axis.anchors.push(a));
}

/// Once there is no room, the anchors that are kept stay and nothing more is.
pub proof fn no_anchor_is_kept_past_the_room(axis: AxisState, frame: FrameState)
    requires
        axis.anchors.len() == 200_000,
        frame.stale == 0,
    ensures
        axis.after(frame).anchors == axis.anchors,
{
    assert(axis.anchors.skip(0) =~= axis.anchors);
}

/// The epoch moves by one exactly where a placement that was sent no longer holds: the header
/// came, or anchors were dropped.
pub proof fn the_epoch_moves_only_with_the_axis(axis: AxisState, frame: FrameState)
    ensures
        axis.after(frame).epoch == axis.epoch || axis.after(frame).epoch == axis.epoch + 1,
        axis.after(frame).epoch == axis.epoch + 1 <==> axis.after(frame).header_seen
            != axis.header_seen || axis.after(frame).stale_prefix_dropped
            > axis.stale_prefix_dropped,
        axis.moves(frame) <==> axis.after(frame).epoch == axis.epoch + 1,
{
}

/// What is said while there is no axis is what is missing: the first frame, then the header,
/// then a second frame with both clocks.
pub proof fn a_wait_says_what_is_missing(axis: AxisState)
    ensures
        axis.tap is None ==> waiting_note(axis) == NO_FRAME_YET@,
        axis.tap is Some && !axis.header_seen ==> waiting_note(axis) == HEADER_MISSING_HEAD@
            + axis.tap->0 + HEADER_MISSING_TAIL@,
        axis.tap is Some && axis.header_seen ==> waiting_note(axis) == TOO_FEW_ANCHORS@,
{
}

/// An axis is drawn exactly where there is one, from the first frame with both clocks to the
/// last, with the account of what it took in.
pub proof fn an_axis_is_told_as_far_as_it_came(view: AxisView, axis: AxisState, ties: Ties)
    requires
        view.tells(axis, Projection::Tied(ties)),
        ties.anchors@ == axis.anchors,
        axis.anchors.len() >= 2,
    ensures
        view is Drawn,
        view->Drawn_epoch == axis.epoch,
        view->Drawn_t_from == axis.anchors[0].us,
        view->Drawn_t_to == axis.anchors[axis.anchors.len() - 1].us,
        view->Drawn_window_from_ms == axis.anchors[0].rx_utc_ms,
        view->Drawn_window_to_ms == axis.anchors[axis.anchors.len() - 1].rx_utc_ms,
        view->Drawn_frames == axis.frames,
        view->Drawn_rows == axis.rows,
        view->Drawn_rows_unparsed == axis.rows_unparsed,
        view->Drawn_non_monotone == axis.non_monotone,
        view->Drawn_stale_prefix_dropped == axis.stale_prefix_dropped,
{
}

/// Where there is no axis the tab is told to wait, with what has arrived so far.
pub proof fn without_an_axis_there_is_a_wait(view: AxisView, axis: AxisState)
    requires
        view.tells(axis, Projection::Nowhere),
    ensures
        view is Waiting,
        view->Waiting_epoch == axis.epoch,
        view->Waiting_frames == axis.frames,
        view->Waiting_rows == axis.rows,
        view->Waiting_non_monotone == axis.non_monotone,
        view->Waiting_note@ == waiting_note(axis),
{
}

/// A gap is the time from one frame to the next.
pub proof fn a_gap_is_between_neighbours(anchors: Seq<ClockAnchor>, i: int)
    requires
        monotone(anchors),
        0 <= i < anchors.len() - 1,
    ensures
        gaps(anchors).len() == anchors.len() - 1,
        anchors[i].rx_utc_ms + gaps(anchors)[i] == anchors[i + 1].rx_utc_ms,
{
    assert(anchors[i].rx_utc_ms <= anchors[i + 1].rx_utc_ms);
}

/// Half of a number is written as its whole part, with a half behind it where it has one.
pub proof fn a_half_is_written_as_a_half(n: nat)
    ensures
        halves(2 * n) == decimal(n),
        halves(2 * n + 1) == decimal(n) + ".5"@,
{
}

proof fn those_in_front(list: Seq<bool>, k: int)
    requires
        0 <= k <= list.len(),
        forall|i: int| k <= i < list.len() ==> !#[trigger] list[i],
    ensures
        holding(list) <= k,
    decreases list.len(),
{
    if list.len() > 0 {
        if k < list.len() {
            assert(!list[list.len() - 1]);
            those_in_front(list.drop_last(), k);
        } else {
            those_in_front(list.drop_last(), k - 1);
        }
    }
}

proof fn those_behind(list: Seq<bool>, k: int)
    requires
        0 <= k <= list.len(),
        forall|i: int| 0 <= i < k ==> !#[trigger] list[i],
    ensures
        holding(list) <= list.len() - k,
    decreases list.len(),
{
    if list.len() > 0 {
        if k < list.len() {
            those_behind(list.drop_last(), k);
        } else {
            assert(!list[list.len() - 1]);
            those_behind(list.drop_last(), k - 1);
        }
    }
}

/// No more than half of the values are below the median and no more than half above it; it
/// is one of them where there is an odd number, and midway between two where there is not.
pub proof fn a_median_has_as_many_on_either_side(values: Seq<u64>, order: Seq<usize>)
    requires
        0 < values.len() <= usize::MAX,
        stable_order(values, order),
    ensures
        2 * holding(Seq::new(values.len(), |i: int| 2 * values[i] < median_twice(values)))
            <= values.len(),
        2 * holding(Seq::new(values.len(), |i: int| 2 * values[i] > median_twice(values)))
            <= values.len(),
        values.len() % 2 == 1 ==> exists|i: int|
            0 <= i < values.len() && 2 * #[trigger] values[i] == median_twice(values),
        values.len() % 2 == 0 ==> exists|i: int, j: int|
            0 <= i < values.len() && 0 <= j < values.len() && i != j && #[trigger] values[i]
                + #[trigger] values[j] == median_twice(values),
{
    one_stable_order(
        values,
        order,
        choose|order: Seq<usize>| stable_order(values, order),
    );
    let n = values.len() as int;
    let mid = n / 2;
    let m = median_twice(values);
    let places = Seq::new(order.len(), |i: int| order[i] as int);
    assert(places.no_duplicates());
    assert forall|k: int| 0 <= k < n implies #[trigger] places.contains(k) by {
        assert(order.contains(k as usize));
        let at = choose|at: int| 0 <= at < order.len() && order[at] == k as usize;
        assert(places[at] == k);
    }
    let low = Seq::new(values.len(), |i: int| 2 * values[i] < m);
    let high = Seq::new(values.len(), |i: int| 2 * values[i] > m);
    let low_taken = Seq::new(places.len(), |i: int| low[places[i]]);
    let high_taken = Seq::new(places.len(), |i: int| high[places[i]]);
    any_order_holds_as_many(low, places);
    any_order_holds_as_many(high, places);
    assert forall|i: int, j: int| 0 <= i <= j < n implies values[#[trigger] places[i]]
        <= values[#[trigger] places[j]] by {
        if i < j {
            assert(values[order[i] as int] <= values[order[j] as int]);
        }
    }
    assert(values[places[mid]] == values[order[mid] as int]);
    if n % 2 == 0 {
        assert(values[places[mid - 1]] == values[order[mid - 1] as int]);
        assert(places[mid - 1] != places[mid]);
        assert(values[places[mid - 1]] + values[places[mid]] == m);
    } else {
        assert(2 * values[places[mid]] == m);
    }
    assert forall|i: int| mid <= i < n implies !#[trigger] low_taken[i] by {
        assert(values[places[mid]] <= values[places[i]]);
    }
    those_in_front(low_taken, mid);
    let from = if n % 2 == 0 {
        mid
    } else {
        mid + 1
    };
    assert forall|i: int| 0 <= i < from implies !#[trigger] high_taken[i] by {
        assert(values[places[i]] <= values[places[from - 1]]);
    }
    those_behind(high_taken, from);
}

} // verus!
