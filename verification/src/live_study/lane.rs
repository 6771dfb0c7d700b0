//! A lane of live marks. A mark is held unplaced, and handed out once, when the axis
//! has a position for it.

use std::collections::VecDeque;
use vstd::prelude::*;
use vstd::string::*;
use vstd::std_specs::vecdeque::*;
use crate::projection::Projection;

verus! {

/// Marks kept per lane.
pub const MAX_LIVE_MARKS: usize = 20_000;

/// One event on a lane, unplaced.
#[derive(Debug)]
pub struct LiveMark {
    pub core_rx_utc_ms: u64,
    pub sub: String,
    pub label: String,
}

/// What a [`LiveMark`] says.
pub ghost struct MarkState {
    pub core_rx_utc_ms: u64,
    pub sub: Seq<char>,
    pub label: Seq<char>,
}

impl View for LiveMark {
    type V = MarkState;

    open spec fn view(&self) -> MarkState {
        MarkState { core_rx_utc_ms: self.core_rx_utc_ms, sub: self.sub@, label: self.label@ }
    }
}

/// One lane of live marks.
#[derive(Debug)]
pub struct LiveLane {
    pub label: String,
    pub kind: &'static str,
    pub marks: VecDeque<LiveMark>,
    /// Marks dropped off the front because the cap was hit.
    pub dropped: u64,
    /// Every mark this lane has ever held, dropped ones included.
    pub total: u64,
    /// How many of `marks`, from the front, have gone out placed.
    pub emitted: usize,
}

/// What a [`LiveLane`] holds.
pub ghost struct LaneState {
    pub label: Seq<char>,
    pub kind: Seq<char>,
    pub marks: Seq<MarkState>,
    pub dropped: nat,
    pub total: nat,
    pub emitted: nat,
}

impl View for LiveLane {
    type V = LaneState;

    open spec fn view(&self) -> LaneState {
        LaneState {
            label: self.label@,
            kind: self.kind@,
            marks: Seq::new(self.marks@.len(), |i: int| self.marks@[i]@),
            dropped: self.dropped as nat,
            total: self.total as nat,
            emitted: self.emitted as nat,
        }
    }
}

/// A mark as it goes out: placed.
#[derive(Debug)]
pub struct PlacedMark {
    pub t: u64,
    pub core_rx_utc_ms: u64,
    pub kind: &'static str,
    pub sub: String,
    pub label: String,
    pub uncertain: bool,
}

/// What a [`PlacedMark`] says.
pub ghost struct PlacedState {
    pub t: u64,
    pub kind: Seq<char>,
    pub mark: MarkState,
    pub uncertain: bool,
}

impl View for PlacedMark {
    type V = PlacedState;

    open spec fn view(&self) -> PlacedState {
        PlacedState {
            t: self.t,
            kind: self.kind@,
            mark: MarkState {
                core_rx_utc_ms: self.core_rx_utc_ms,
                sub: self.sub@,
                label: self.label@,
            },
            uncertain: self.uncertain,
        }
    }
}

pub open spec fn placed_marks(list: Seq<PlacedMark>) -> Seq<PlacedState> {
    Seq::new(list.len(), |i: int| list[i]@)
}

/// The first mark from `from` on that the axis has no position for.
pub open spec fn reach(marks: Seq<MarkState>, proj: Projection, from: int) -> int
    decreases marks.len() - from,
{
    if 0 <= from < marks.len() && proj.position(marks[from].core_rx_utc_ms) is Some {
        reach(marks, proj, from + 1)
    } else {
        from
    }
}

impl LaneState {
    /// A lane nothing has happened on.
    pub open spec fn empty() -> LaneState {
        LaneState {
            label: Seq::empty(),
            kind: Seq::empty(),
            marks: Seq::empty(),
            dropped: 0,
            total: 0,
            emitted: 0,
        }
    }

    /// The lane after one more mark: at the cap the oldest one goes, and is counted.
    pub open spec fn after(self, mark: MarkState) -> LaneState {
        let all = self.marks.push(mark);
        if all.len() > MAX_LIVE_MARKS {
            LaneState {
                marks: all.drop_first(),
                dropped: self.dropped + 1,
                total: self.total + 1,
                emitted: if self.emitted > 0 {
                    (self.emitted - 1) as nat
                } else {
                    0
                },
                ..self
            }
        } else {
            LaneState { marks: all, total: self.total + 1, ..self }
        }
    }

    /// How far the lane can be handed out now.
    pub open spec fn placeable_to(self, proj: Projection) -> int {
        reach(self.marks, proj, self.emitted as int)
    }

    /// What the lane hands out now: the marks not sent yet, up to the first one that
    /// will not place.
    pub open spec fn placeable(self, proj: Projection, uncertain: bool) -> Seq<PlacedState> {
        Seq::new(
            (self.placeable_to(proj) - self.emitted) as nat,
            |i: int|
                PlacedState {
                    t: proj.position(self.marks[self.emitted + i].core_rx_utc_ms)->0,
                    kind: self.kind,
                    mark: self.marks[self.emitted + i],
                    uncertain,
                },
        )
    }

    /// The lane once that was handed out.
    pub open spec fn handed_out(self, proj: Projection) -> LaneState {
        LaneState { emitted: self.placeable_to(proj) as nat, ..self }
    }

    /// The lane with nothing handed out yet.
    pub open spec fn rewound(self) -> LaneState {
        LaneState { emitted: 0, ..self }
    }

    pub open spec fn wf(self) -> bool {
        &&& self.marks.len() <= MAX_LIVE_MARKS
        &&& self.emitted <= self.marks.len()
        &&& self.dropped + self.marks.len() == self.total
    }
}

/// [`reach`] goes forward, never past the end, over marks that place, and stops at one
/// that does not.
pub proof fn reach_stops_at_the_first_unplaceable(
    marks: Seq<MarkState>,
    proj: Projection,
    from: int,
)
    requires
        0 <= from <= marks.len(),
    ensures
        from <= reach(marks, proj, from) <= marks.len(),
        forall|i: int|
            from <= i < reach(marks, proj, from) ==> proj.position(
                (#[trigger] marks[i]).core_rx_utc_ms,
            ) is Some,
        reach(marks, proj, from) < marks.len() ==> proj.position(
            marks[reach(marks, proj, from)].core_rx_utc_ms,
        ) is None,
    decreases marks.len() - from,
{
    if from < marks.len() && proj.position(marks[from].core_rx_utc_ms) is Some {
        reach_stops_at_the_first_unplaceable(marks, proj, from + 1);
    }
}

impl LiveLane {
    /// A lane nothing has happened on.
    pub fn new() -> (r: LiveLane)
        ensures
            r@ == LaneState::empty(),
            r@.wf(),
    {
        let r = LiveLane {
            label: String::new(),
            kind: "",
            marks: VecDeque::new(),
            dropped: 0,
            total: 0,
            emitted: 0,
        };
        proof {
            reveal_strlit("");
        }
        assert(r@.marks =~= Seq::empty());
        assert(r@.kind =~= Seq::empty());
        r
    }

    /// Takes one mark in, dropping the oldest at the cap.
    pub fn push(&mut self, mark: LiveMark)
        requires
            old(self)@.wf(),
            old(self).total < u64::MAX,
        ensures
            final(self)@ == old(self)@.after(mark@),
            final(self)@.wf(),
    {
        self.total = self.total + 1;
        let ghost was = self@.marks;
        self.marks.push_back(mark);
        assert(self@.marks =~= was.push(mark@));
        if self.marks.len() > MAX_LIVE_MARKS {
            let ghost full = self@.marks;
            let gone = self.marks.pop_front();
            assert(self@.marks =~= full.drop_first());
            self.dropped = self.dropped + 1;
            self.emitted = if self.emitted > 0 {
                self.emitted - 1
            } else {
                0
            };
        }
    }

    /// The marks this lane can place now and has not sent yet, and how many are left.
    ///
    /// Walks forward and stops at the first one that will not place.
    pub fn take_placeable(&mut self, proj: &Projection, uncertain: bool) -> (r: (
        Vec<PlacedMark>,
        usize,
    ))
        requires
            old(self)@.wf(),
            proj.wf(),
        ensures
            final(self)@ == old(self)@.handed_out(*proj),
            final(self)@.wf(),
            placed_marks(r.0@) == old(self)@.placeable(*proj, uncertain),
            r.1 == old(self)@.marks.len() - old(self)@.placeable_to(*proj),
    {
        let ghost start = self@;
        proof {
            reach_stops_at_the_first_unplaceable(start.marks, *proj, start.emitted as int);
        }
        let mut out: Vec<PlacedMark> = Vec::new();
        let ghost all = start.placeable(*proj, uncertain);
        while self.emitted < self.marks.len()
            invariant
                proj.wf(),
                start.wf(),
                start == old(self)@,
                all == start.placeable(*proj, uncertain),
                self@ == (LaneState { emitted: self.emitted as nat, ..start }),
                start.emitted <= self.emitted <= self.marks@.len(),
                start.placeable_to(*proj) == reach(start.marks, *proj, self.emitted as int),
                self.emitted <= start.placeable_to(*proj) <= start.marks.len(),
                out.len() == self.emitted - start.emitted,
                forall|i: int| 0 <= i < out.len() ==> out@[i]@ == all[i],
            decreases self.marks@.len() - self.emitted,
        {
            let at: usize = self.emitted;
            let mark = &self.marks[at];
            assert(mark@ == start.marks[at as int]);
            match proj.place(mark.core_rx_utc_ms) {
                None => {
                    assert(placed_marks(out@) =~= all);
                    return (out, self.marks.len() - self.emitted);
                },
                Some(t) => {
                    let placed = PlacedMark {
                        t,
                        core_rx_utc_ms: mark.core_rx_utc_ms,
                        kind: self.kind,
                        sub: mark.sub.clone(),
                        label: mark.label.clone(),
                        uncertain,
                    };
                    proof {
                        reach_stops_at_the_first_unplaceable(start.marks, *proj, at + 1);
                    }
                    out.push(placed);
                    self.emitted = at + 1;
                },
            }
        }
        assert(placed_marks(out@) =~= all);
        (out, self.marks.len() - self.emitted)
    }

    /// Every mark this lane holds that places, up to the first one that does not, with
    /// nothing counted as sent before.
    pub fn place_all(&mut self, proj: &Projection, uncertain: bool) -> (r: (
        Vec<PlacedMark>,
        usize,
    ))
        requires
            old(self)@.wf(),
            proj.wf(),
        ensures
            final(self)@ == old(self)@.rewound().handed_out(*proj),
            final(self)@.wf(),
            placed_marks(r.0@) == old(self)@.rewound().placeable(*proj, uncertain),
            r.1 == old(self)@.marks.len() - old(self)@.rewound().placeable_to(*proj),
    {
        self.emitted = 0;
        self.take_placeable(proj, uncertain)
    }
}

/// A mark goes out once: what a lane hands out after it handed out some starts with the
/// first mark it kept back, whatever axis either was placed on.
pub proof fn no_mark_is_sent_twice(
    lane: LaneState,
    first: Projection,
    second: Projection,
    uncertain: bool,
)
    requires
        lane.wf(),
    ensures
        ({
            let later = lane.handed_out(first).placeable(second, uncertain);
            let sent = lane.placeable(first, uncertain);
            forall|i: int|
                0 <= i < later.len() ==> (#[trigger] later[i]).mark == lane.marks[lane.emitted
                    + sent.len() + i]
        }),
        lane.handed_out(first).placeable(first, uncertain).len() == 0,
{
    reach_stops_at_the_first_unplaceable(lane.marks, first, lane.emitted as int);
}

} // verus!
