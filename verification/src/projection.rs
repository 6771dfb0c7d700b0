//! Where an instant of the receipt clock stands on a chart's axis.

use vstd::prelude::*;
use vstd::string::*;
use crate::text::{copy_opt, opt_view};

verus! {

/// A receipt stamp that a capture's two clocks placed, and where.
#[derive(Debug, Clone, Copy, PartialEq, Eq, Structural)]
pub struct Place {
    pub ms: u64,
    pub t: u64,
}

/// The placements a capture's own anchors give, for the stamps a chart asks about.
#[derive(Debug)]
pub struct Anchored {
    /// In the order of the stamps, each stamp once. A stamp that is not listed is one
    /// the anchors do not place.
    pub places: Vec<Place>,
    pub t_from: u64,
    pub t_to: u64,
    pub window_from_ms: u64,
    pub window_to_ms: u64,
    /// Whether a placement is an interpolation across two clocks.
    pub projected: bool,
    /// How closely an instant can be placed, in milliseconds, as it is shown.
    pub accuracy: Option<String>,
}

/// One frame that carries both clocks: its arrival, and the microseconds the device
/// under test had counted.
#[derive(Debug, Clone, Copy, PartialEq, Eq, Structural)]
pub struct ClockAnchor {
    pub rx_utc_ms: u64,
    pub us: u64,
}

/// The frames that tie two clocks together, in the order they arrived.
#[derive(Debug)]
pub struct Ties {
    pub anchors: Vec<ClockAnchor>,
    /// How closely an instant can be placed, in milliseconds, as it is shown.
    pub accuracy: Option<String>,
}

/// From the receipt clock onto the axis.
#[derive(Debug)]
pub enum Projection {
    /// There is nothing to draw an axis with.
    Nowhere,
    /// The receipt clock is the axis, over a window.
    CoreClock { from_ms: u64, to_ms: u64 },
    /// A capture draws the axis.
    Anchored(Anchored),
    /// A capture draws the axis while it arrives.
    Tied(Ties),
}

/// Whether no anchor arrived before the one it follows.
pub open spec fn monotone(anchors: Seq<ClockAnchor>) -> bool {
    forall|i: int, j: int|
        0 <= i <= j < anchors.len() ==> (#[trigger] anchors[i]).rx_utc_ms <= (#[trigger] anchors[j]).rx_utc_ms
}

/// One past the last of the first `n` anchors that arrived by `ms`.
pub open spec fn reached(anchors: Seq<ClockAnchor>, ms: u64, n: int) -> int
    decreases n,
{
    if n <= 0 {
        0
    } else if anchors[n - 1].rx_utc_ms <= ms {
        n
    } else {
        reached(anchors, ms, n - 1)
    }
}

/// Where `ms` stands on the straight line from one anchor to a later one, in whole
/// microseconds.
pub open spec fn between(a: ClockAnchor, b: ClockAnchor, ms: u64) -> int {
    let run = b.rx_utc_ms - a.rx_utc_ms;
    let gone = ms - a.rx_utc_ms;
    if a.us <= b.us {
        a.us + (b.us - a.us) * gone / run
    } else {
        a.us - (a.us - b.us) * gone / run
    }
}

/// Where `ms` stands: at its own anchor, or between the two around it. Nothing before the
/// first anchor or after the last one has a place.
pub open spec fn tied(anchors: Seq<ClockAnchor>, ms: u64) -> Option<u64> {
    let k = reached(anchors, ms, anchors.len() as int);
    if k == 0 {
        None
    } else if anchors[k - 1].rx_utc_ms == ms {
        Some(anchors[k - 1].us)
    } else if k == anchors.len() {
        None
    } else {
        Some(between(anchors[k - 1], anchors[k], ms) as u64)
    }
}

pub open spec fn in_order(places: Seq<Place>) -> bool {
    forall|i: int, j: int| 0 <= i < j < places.len() ==> (#[trigger] places[i]).ms < (#[trigger] places[j]).ms
}

/// Where the listed stamp `ms` stands.
pub open spec fn listed(places: Seq<Place>, ms: u64) -> Option<u64> {
    if exists|i: int| 0 <= i < places.len() && (#[trigger] places[i]).ms == ms {
        Some(places[choose|i: int| 0 <= i < places.len() && (#[trigger] places[i]).ms == ms].t)
    } else {
        None
    }
}

impl Projection {
    pub open spec fn wf(&self) -> bool {
        match self {
            Projection::Anchored(a) => in_order(a.places@),
            Projection::Tied(t) => monotone(t.anchors@) && t.anchors@.len() >= 2,
            _ => true,
        }
    }

    /// The position of an instant, and none where the axis has none for it. An instant
    /// outside the window is never moved to its edge.
    pub open spec fn position(&self, ms: u64) -> Option<u64> {
        match self {
            Projection::Nowhere => None,
            Projection::CoreClock { from_ms, to_ms } => if *from_ms <= ms <= *to_ms {
                Some(ms)
            } else {
                None
            },
            Projection::Anchored(a) => listed(a.places@, ms),
            Projection::Tied(t) => tied(t.anchors@, ms),
        }
    }

    pub open spec fn opens_at(&self) -> u64 {
        match self {
            Projection::Nowhere => 0,
            Projection::CoreClock { from_ms, .. } => *from_ms,
            Projection::Anchored(a) => a.window_from_ms,
            Projection::Tied(t) => t.anchors@[0].rx_utc_ms,
        }
    }

    pub open spec fn closes_at(&self) -> u64 {
        match self {
            Projection::Nowhere => 0,
            Projection::CoreClock { to_ms, .. } => *to_ms,
            Projection::Anchored(a) => a.window_to_ms,
            Projection::Tied(t) => t.anchors@.last().rx_utc_ms,
        }
    }

    pub open spec fn starts(&self) -> u64 {
        match self {
            Projection::Nowhere => 0,
            Projection::CoreClock { from_ms, .. } => *from_ms,
            Projection::Anchored(a) => a.t_from,
            Projection::Tied(t) => t.anchors@[0].us,
        }
    }

    pub open spec fn ends(&self) -> u64 {
        match self {
            Projection::Nowhere => 0,
            Projection::CoreClock { to_ms, .. } => *to_ms,
            Projection::Anchored(a) => a.t_to,
            Projection::Tied(t) => t.anchors@.last().us,
        }
    }

    pub open spec fn crosses_clocks(&self) -> bool {
        match self {
            Projection::Anchored(a) => a.projected,
            Projection::Tied(t) => true,
            _ => false,
        }
    }

    pub open spec fn stated_accuracy(&self) -> Option<Seq<char>> {
        match self {
            Projection::Anchored(a) => opt_view(a.accuracy),
            Projection::Tied(t) => opt_view(t.accuracy),
            _ => None,
        }
    }

    /// The receipt clock itself, from `from_ms` to `to_ms`.
    pub fn core_clock(from_ms: u64, to_ms: u64) -> (r: Projection)
        ensures
            r == (Projection::CoreClock { from_ms, to_ms }),
            r.wf(),
    {
        Projection::CoreClock { from_ms, to_ms }
    }

    /// A capture's axis, where its placements are listed in the order of the stamps.
    pub fn anchored(a: Anchored) -> (r: Option<Projection>)
        ensures
            r is Some == in_order(a.places@),
            r is Some ==> r->0 == Projection::Anchored(a) && r->0.wf(),
    {
        let n: usize = a.places.len();
        let mut i: usize = 1;
        while i < n
            invariant
                n == a.places.len(),
                i >= 1,
                n >= 1 ==> i <= n,
                forall|x: int, y: int|
                    0 <= x < y < i && y < n ==> (#[trigger] a.places@[x]).ms < (#[trigger] a.places@[y]).ms,
            decreases n - i,
        {
            if a.places[i - 1].ms >= a.places[i].ms {
                return None;
            }
            assert forall|x: int, y: int| 0 <= x < y < i + 1 implies (#[trigger] a.places@[x]).ms
                < (#[trigger] a.places@[y]).ms by {
                if y == i && x < i - 1 {
                    assert(a.places@[x].ms < a.places@[i - 1].ms);
                }
            }
            i = i + 1;
        }
        Some(Projection::Anchored(a))
    }

    /// Whether there is an axis at all.
    pub fn placeable(&self) -> (r: bool)
        ensures
            r == !(self is Nowhere),
    {
        match self {
            Projection::Nowhere => false,
            _ => true,
        }
    }

    /// Whether a placement is an interpolation across two clocks.
    pub fn projected(&self) -> (r: bool)
        ensures
            r == self.crosses_clocks(),
    {
        match self {
            Projection::Anchored(a) => a.projected,
            Projection::Tied(t) => true,
            _ => false,
        }
    }

    pub fn window_from_ms(&self) -> (r: u64)
        requires
            self.wf(),
        ensures
            r == self.opens_at(),
    {
        match self {
            Projection::Nowhere => 0,
            Projection::CoreClock { from_ms, .. } => *from_ms,
            Projection::Anchored(a) => a.window_from_ms,
            Projection::Tied(t) => t.anchors[0].rx_utc_ms,
        }
    }

    pub fn window_to_ms(&self) -> (r: u64)
        requires
            self.wf(),
        ensures
            r == self.closes_at(),
    {
        match self {
            Projection::Nowhere => 0,
            Projection::CoreClock { to_ms, .. } => *to_ms,
            Projection::Anchored(a) => a.window_to_ms,
            Projection::Tied(t) => t.anchors[t.anchors.len() - 1].rx_utc_ms,
        }
    }

    pub fn t_from(&self) -> (r: u64)
        requires
            self.wf(),
        ensures
            r == self.starts(),
    {
        match self {
            Projection::Nowhere => 0,
            Projection::CoreClock { from_ms, .. } => *from_ms,
            Projection::Anchored(a) => a.t_from,
            Projection::Tied(t) => t.anchors[0].us,
        }
    }

    pub fn t_to(&self) -> (r: u64)
        requires
            self.wf(),
        ensures
            r == self.ends(),
    {
        match self {
            Projection::Nowhere => 0,
            Projection::CoreClock { to_ms, .. } => *to_ms,
            Projection::Anchored(a) => a.t_to,
            Projection::Tied(t) => t.anchors[t.anchors.len() - 1].us,
        }
    }

    pub fn accuracy(&self) -> (r: Option<String>)
        ensures
            opt_view(r) == self.stated_accuracy(),
    {
        match self {
            Projection::Anchored(a) => copy_opt(&a.accuracy),
            Projection::Tied(t) => copy_opt(&t.accuracy),
            _ => None,
        }
    }

    /// The position of an instant, and none where the axis has none for it.
    pub fn place(&self, ms: u64) -> (r: Option<u64>)
        requires
            self.wf(),
        ensures
            r == self.position(ms),
    {
        match self {
            Projection::Nowhere => None,
            Projection::CoreClock { from_ms, to_ms } => if *from_ms <= ms && ms <= *to_ms {
                Some(ms)
            } else {
                None
            },
            Projection::Anchored(a) => find(&a.places, ms),
            Projection::Tied(t) => tie(&t.anchors, ms),
        }
    }
}

proof fn reached_is(anchors: Seq<ClockAnchor>, ms: u64, k: int, n: int)
    requires
        0 <= k <= n <= anchors.len(),
        k > 0 ==> anchors[k - 1].rx_utc_ms <= ms,
        forall|i: int| k <= i < n ==> (#[trigger] anchors[i]).rx_utc_ms > ms,
    ensures
        reached(anchors, ms, n) == k,
    decreases n,
{
    if k < n {
        reached_is(anchors, ms, k, n - 1);
    }
}

fn line(a: ClockAnchor, b: ClockAnchor, ms: u64) -> (r: u64)
    requires
        a.rx_utc_ms < ms < b.rx_utc_ms,
    ensures
        r == between(a, b, ms),
        a.us <= b.us ==> a.us <= r <= b.us,
        b.us <= a.us ==> b.us <= r <= a.us,
{
    let run: u64 = b.rx_utc_ms - a.rx_utc_ms;
    let gone: u64 = ms - a.rx_utc_ms;
    let rise: u64 = if a.us <= b.us {
        b.us - a.us
    } else {
        a.us - b.us
    };
    proof {
        a_part_of_the_rise(rise as int, gone as int, run as int);
    }
    assert(rise * gone <= u128::MAX) by (nonlinear_arith)
        requires
            0 <= rise <= u64::MAX,
            0 <= gone <= u64::MAX,
    ;
    let part: u128 = (rise as u128 * gone as u128) / (run as u128);
    if a.us <= b.us {
        a.us + part as u64
    } else {
        a.us - part as u64
    }
}

proof fn a_part_of_the_rise(rise: int, gone: int, run: int)
    requires
        rise >= 0,
        0 <= gone <= run,
        run > 0,
    ensures
        0 <= rise * gone / run <= rise,
{
    assert(0 <= rise * gone <= rise * run) by (nonlinear_arith)
        requires
            rise >= 0,
            0 <= gone <= run,
    ;
    assert(rise * gone / run <= rise) by (nonlinear_arith)
        requires
            rise * gone <= rise * run,
            run > 0,
    ;
    assert(rise * gone / run >= 0) by (nonlinear_arith)
        requires
            rise * gone >= 0,
            run > 0,
    ;
}

fn tie(anchors: &Vec<ClockAnchor>, ms: u64) -> (r: Option<u64>)
    requires
        monotone(anchors@),
    ensures
        r == tied(anchors@, ms),
{
    let mut lo: usize = 0;
    let mut hi: usize = anchors.len();
    while lo < hi
        invariant
            monotone(anchors@),
            lo <= hi <= anchors.len(),
            lo > 0 ==> anchors@[lo - 1].rx_utc_ms <= ms,
            forall|i: int| hi <= i < anchors.len() ==> (#[trigger] anchors@[i]).rx_utc_ms > ms,
        decreases hi - lo,
    {
        let mid: usize = lo + (hi - lo) / 2;
        if anchors[mid].rx_utc_ms <= ms {
            lo = mid + 1;
        } else {
            assert forall|i: int| mid <= i < anchors.len() implies (#[trigger] anchors@[i]).rx_utc_ms
                > ms by {
                assert(anchors@[mid as int].rx_utc_ms <= anchors@[i].rx_utc_ms);
            }
            hi = mid;
        }
    }
    proof {
        reached_is(anchors@, ms, lo as int, anchors@.len() as int);
    }
    if lo == 0 {
        return None;
    }
    if anchors[lo - 1].rx_utc_ms == ms {
        return Some(anchors[lo - 1].us);
    }
    if lo == anchors.len() {
        return None;
    }
    assert(anchors@[lo as int].rx_utc_ms > ms);
    Some(line(anchors[lo - 1], anchors[lo], ms))
}

/// Nothing that arrived before the first frame with both clocks has a place, and nothing
/// after the last one.
pub proof fn the_leading_edge_is_the_last_anchor(anchors: Seq<ClockAnchor>, ms: u64)
    requires
        monotone(anchors),
        anchors.len() > 0,
        ms < anchors[0].rx_utc_ms || ms > anchors.last().rx_utc_ms,
    ensures
        tied(anchors, ms) is None,
{
    let n = anchors.len() as int;
    if ms < anchors[0].rx_utc_ms {
        assert forall|i: int| 0 <= i < n implies (#[trigger] anchors[i]).rx_utc_ms > ms by {
            assert(anchors[0].rx_utc_ms <= anchors[i].rx_utc_ms);
        }
        reached_is(anchors, ms, 0, n);
    } else {
        reached_is(anchors, ms, n, n);
    }
}

proof fn reached_among(anchors: Seq<ClockAnchor>, ms: u64, n: int)
    requires
        0 <= n <= anchors.len(),
    ensures
        0 <= reached(anchors, ms, n) <= n,
        reached(anchors, ms, n) > 0 ==> anchors[reached(anchors, ms, n) - 1].rx_utc_ms <= ms,
        forall|i: int|
            reached(anchors, ms, n) <= i < n ==> (#[trigger] anchors[i]).rx_utc_ms > ms,
    decreases n,
{
    if n > 0 && anchors[n - 1].rx_utc_ms > ms {
        reached_among(anchors, ms, n - 1);
    }
}

/// An instant that has a place keeps it when the axis grows: a later anchor never moves
/// what stands between two earlier ones.
pub proof fn a_placed_instant_never_moves(anchors: Seq<ClockAnchor>, next: ClockAnchor, ms: u64)
    requires
        anchors.len() > 0,
        monotone(anchors.push(next)),
        tied(anchors, ms) is Some,
        ms < anchors.last().rx_utc_ms || anchors.last().rx_utc_ms < next.rx_utc_ms,
    ensures
        tied(anchors.push(next), ms) == tied(anchors, ms),
{
    let n = anchors.len() as int;
    let more = anchors.push(next);
    reached_among(anchors, ms, n);
    let k = reached(anchors, ms, n);
    assert(more[n - 1] == anchors.last());
    assert(more[n - 1].rx_utc_ms <= more[n].rx_utc_ms);
    assert forall|i: int| k <= i < n + 1 implies (#[trigger] more[i]).rx_utc_ms > ms by {
        if i < n {
            assert(more[i] == anchors[i]);
        } else if k < n {
            assert(anchors[n - 1].rx_utc_ms > ms);
        }
    }
    if k > 0 {
        assert(more[k - 1] == anchors[k - 1]);
    }
    if k < n {
        assert(more[k] == anchors[k]);
    }
    reached_is(more, ms, k, n + 1);
}

fn find(places: &Vec<Place>, ms: u64) -> (r: Option<u64>)
    requires
        in_order(places@),
    ensures
        r == listed(places@, ms),
{
    let mut lo: usize = 0;
    let mut hi: usize = places.len();
    while lo < hi
        invariant
            in_order(places@),
            lo <= hi <= places.len(),
            forall|i: int| 0 <= i < lo ==> (#[trigger] places@[i]).ms < ms,
            forall|i: int| hi <= i < places.len() ==> (#[trigger] places@[i]).ms > ms,
        decreases hi - lo,
    {
        let mid: usize = lo + (hi - lo) / 2;
        let here = places[mid];
        if here.ms == ms {
            proof {
                let j = choose|i: int| 0 <= i < places.len() && (#[trigger] places@[i]).ms == ms;
                assert(places@[mid as int].ms == ms);
                if j < mid {
                    assert(places@[j].ms < places@[mid as int].ms);
                } else if mid < j {
                    assert(places@[mid as int].ms < places@[j].ms);
                }
            }
            return Some(here.t);
        }
        if here.ms < ms {
            assert forall|i: int| 0 <= i < mid + 1 implies (#[trigger] places@[i]).ms < ms by {
                if i < mid {
                    assert(places@[i].ms < places@[mid as int].ms);
                }
            }
            lo = mid + 1;
        } else {
            assert forall|i: int| mid <= i < places.len() implies (#[trigger] places@[i]).ms > ms by {
                if i > mid {
                    assert(places@[mid as int].ms < places@[i].ms);
                }
            }
            hi = mid;
        }
    }
    None
}

/// On the receipt clock a placed instant stands where it happened, and one outside the
/// window has no position: nothing is clamped.
pub proof fn the_receipt_clock_places_exactly(from_ms: u64, to_ms: u64, ms: u64)
    ensures
        ({
            let p = Projection::CoreClock { from_ms, to_ms };
            &&& p.position(ms) is Some ==> p.position(ms)->0 == ms
            &&& p.position(ms) is None <==> ms < p.opens_at() || ms > p.closes_at()
        }),
{
}

/// An instant at which a frame with both clocks arrived stands where that frame counted, and
/// of several that arrived at once where the last did.
pub proof fn an_anchor_stands_where_it_counted(anchors: Seq<ClockAnchor>, k: int)
    requires
        monotone(anchors),
        0 <= k < anchors.len(),
        k + 1 < anchors.len() ==> anchors[k].rx_utc_ms < anchors[k + 1].rx_utc_ms,
    ensures
        tied(anchors, anchors[k].rx_utc_ms) == Some(anchors[k].us),
{
    reached_is(anchors, anchors[k].rx_utc_ms, k + 1, anchors.len() as int);
}

/// An instant between two frames that follow each other stands between where they counted,
/// in proportion, rounded towards the earlier one.
pub proof fn an_instant_stands_between_its_anchors(anchors: Seq<ClockAnchor>, k: int, ms: u64)
    requires
        monotone(anchors),
        0 <= k < anchors.len() - 1,
        anchors[k].rx_utc_ms < ms < anchors[k + 1].rx_utc_ms,
    ensures
        tied(anchors, ms) is Some,
        ({
            let t = tied(anchors, ms)->0 as int;
            let a = anchors[k];
            let b = anchors[k + 1];
            let run = b.rx_utc_ms - a.rx_utc_ms;
            let gone = ms - a.rx_utc_ms;
            &&& a.us <= b.us ==> a.us <= t <= b.us
            &&& a.us <= b.us ==> (t - a.us) * run <= (b.us - a.us) * gone < (t - a.us + 1) * run
            &&& b.us <= a.us ==> b.us <= t <= a.us
            &&& b.us <= a.us ==> (a.us - t) * run <= (a.us - b.us) * gone < (a.us - t + 1) * run
        }),
{
    reached_is(anchors, ms, k + 1, anchors.len() as int);
    let a = anchors[k];
    let b = anchors[k + 1];
    let run = b.rx_utc_ms - a.rx_utc_ms;
    let gone = ms - a.rx_utc_ms;
    let rise = if a.us <= b.us {
        b.us - a.us
    } else {
        a.us - b.us
    };
    a_part_of_the_rise(rise, gone, run);
    let part = rise * gone / run;
    vstd::arithmetic::div_mod::lemma_fundamental_div_mod(rise * gone, run);
    vstd::arithmetic::div_mod::lemma_mod_bound(rise * gone, run);
    assert(part * run <= rise * gone < (part + 1) * run) by (nonlinear_arith)
        requires
            rise * gone == run * part + (rise * gone) % run,
            0 <= (rise * gone) % run < run,
    ;
    if a.us == b.us {
        assert(rise * gone == 0) by (nonlinear_arith)
            requires
                rise == 0,
        ;
    }
}

/// A stamp that is listed stands where the list puts it, and one that is not has no place.
pub proof fn a_listed_stamp_stands_where_it_is_listed(places: Seq<Place>, k: int, ms: u64)
    requires
        in_order(places),
        0 <= k < places.len(),
    ensures
        listed(places, places[k].ms) == Some(places[k].t),
        (forall|i: int| 0 <= i < places.len() ==> (#[trigger] places[i]).ms != ms) ==> listed(
            places,
            ms,
        ) is None,
{
    let i = choose|i: int| 0 <= i < places.len() && (#[trigger] places[i]).ms == places[k].ms;
    assert(places[k].ms == places[k].ms);
    if i < k {
        assert(places[i].ms < places[k].ms);
    } else if k < i {
        assert(places[k].ms < places[i].ms);
    }
}

/// An axis opens and closes with its source: the window of the receipt clock, the window and
/// the range a capture states, and the first and the last frame that tie two clocks.
pub proof fn an_axis_opens_and_closes_with_its_source(from_ms: u64, to_ms: u64, a: Anchored, t: Ties)
    ensures
        ({
            let core = Projection::CoreClock { from_ms, to_ms };
            let drawn = Projection::Anchored(a);
            let live = Projection::Tied(t);
            &&& core.opens_at() == from_ms && core.closes_at() == to_ms
            &&& core.starts() == from_ms && core.ends() == to_ms
            &&& !core.crosses_clocks() && core.stated_accuracy() is None
            &&& drawn.opens_at() == a.window_from_ms && drawn.closes_at() == a.window_to_ms
            &&& drawn.starts() == a.t_from && drawn.ends() == a.t_to
            &&& drawn.crosses_clocks() == a.projected
            &&& live.opens_at() == t.anchors@[0].rx_utc_ms
            &&& live.closes_at() == t.anchors@[t.anchors@.len() - 1].rx_utc_ms
            &&& live.starts() == t.anchors@[0].us
            &&& live.ends() == t.anchors@[t.anchors@.len() - 1].us
            &&& live.crosses_clocks()
            &&& a.accuracy is Some ==> drawn.stated_accuracy() == Some(a.accuracy->0@)
            &&& t.accuracy is Some ==> live.stated_accuracy() == Some(t.accuracy->0@)
            &&& a.accuracy is None ==> drawn.stated_accuracy() is None
            &&& t.accuracy is None ==> live.stated_accuracy() is None
        }),
{
}

} // verus!
