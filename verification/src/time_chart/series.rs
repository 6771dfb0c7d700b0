//! A sample tap as a strip: the least, the greatest and the number of its values in
//! each bin, never an average.

use vstd::prelude::*;
use vstd::string::*;
use crate::double::bin_of;
use crate::reading::{below, below_is_an_order, extend, extended, finite, is_finite, less, Extent, INFINITY, NEGATIVE_INFINITY};
use crate::time_chart::marks::Window;

verus! {

/// Points kept per sample tap.
pub const MAX_SERIES_POINTS: usize = 500_000;

/// One placed sample: where it stands on the axis, and the bits of its value.
#[derive(Debug, Clone, Copy, PartialEq, Eq, Structural)]
pub struct SeriesPoint {
    pub t: u64,
    pub value_bits: u64,
}

/// One sample tap, as a strip.
#[derive(Debug)]
pub struct SeriesLane {
    pub key: String,
    pub label: String,
    pub tap: String,
    /// The column plotted.
    pub column: String,
    /// The unit the tap's own rows name.
    pub unit: Option<String>,
    pub total: usize,
    pub placed: usize,
    pub before: usize,
    pub after: usize,
    pub dropped_by_cap: usize,
    pub note: Option<String>,
    /// In the order of their positions.
    pub points: Vec<SeriesPoint>,
}

/// The values of one bin.
#[derive(Debug, Clone, Copy, PartialEq, Eq, Structural)]
pub struct SeriesBin {
    pub c: usize,
    pub min_bits: u64,
    pub max_bits: u64,
    pub count: u64,
}

/// A sample tap, binned over a window.
#[derive(Debug)]
pub struct BinnedSeriesLane {
    pub key: String,
    pub bins: Vec<SeriesBin>,
    pub visible: usize,
    pub before: usize,
    pub after: usize,
    /// The window's own extremes; zero where it shows nothing.
    pub min_bits: u64,
    pub max_bits: u64,
}

impl Window {
    /// Whether a sample is drawn in column `c`.
    pub open spec fn plots(self, p: SeriesPoint, c: int) -> bool {
        self.from <= p.t <= self.to && self.column(p.t) == c
    }
}

/// The extent of column `c`.
pub open spec fn extent_in(points: Seq<SeriesPoint>, w: Window, c: int) -> Option<Extent>
    decreases points.len(),
{
    if points.len() == 0 {
        None
    } else {
        let before = extent_in(points.drop_last(), w, c);
        if w.plots(points.last(), c) {
            Some(extended(before, points.last().value_bits))
        } else {
            before
        }
    }
}

/// The bins of the columns below `n` that hold a sample, in order.
pub open spec fn bins_to(points: Seq<SeriesPoint>, w: Window, n: int) -> Seq<SeriesBin>
    decreases n,
{
    if n <= 0 {
        Seq::empty()
    } else {
        let before = bins_to(points, w, n - 1);
        match extent_in(points, w, n - 1) {
            Some(e) => before.push(
                SeriesBin {
                    c: (n - 1) as usize,
                    min_bits: e.min_bits,
                    max_bits: e.max_bits,
                    count: e.count,
                },
            ),
            None => before,
        }
    }
}

pub open spec fn how_many(points: Seq<SeriesPoint>, test: spec_fn(SeriesPoint) -> bool) -> nat {
    points.filter(test).len()
}

/// The least value the window shows; infinity where it shows none.
pub open spec fn lowest_shown(points: Seq<SeriesPoint>, w: Window) -> u64
    decreases points.len(),
{
    if points.len() == 0 {
        INFINITY
    } else {
        let before = lowest_shown(points.drop_last(), w);
        let p = points.last();
        if w.from <= p.t <= w.to && below(p.value_bits, before) {
            p.value_bits
        } else {
            before
        }
    }
}

/// The greatest value the window shows; negative infinity where it shows none.
pub open spec fn highest_shown(points: Seq<SeriesPoint>, w: Window) -> u64
    decreases points.len(),
{
    if points.len() == 0 {
        NEGATIVE_INFINITY
    } else {
        let before = highest_shown(points.drop_last(), w);
        let p = points.last();
        if w.from <= p.t <= w.to && below(before, p.value_bits) {
            p.value_bits
        } else {
            before
        }
    }
}

pub open spec fn or_zero(bits: u64) -> u64 {
    if is_finite(bits) {
        bits
    } else {
        0
    }
}

impl BinnedSeriesLane {
    /// Whether this is `lane` binned over `w`.
    pub open spec fn tells(&self, lane: SeriesLane, w: Window) -> bool {
        &&& self.key@ == lane.key@
        &&& self.bins@ == bins_to(lane.points@, w, w.width as int)
        &&& self.visible == how_many(lane.points@, |p: SeriesPoint| w.from <= p.t <= w.to)
        &&& self.before == how_many(lane.points@, |p: SeriesPoint| p.t < w.from)
        &&& self.after == how_many(lane.points@, |p: SeriesPoint| p.t > w.to)
        &&& self.min_bits == or_zero(lowest_shown(lane.points@, w))
        &&& self.max_bits == or_zero(highest_shown(lane.points@, w))
    }
}

proof fn how_many_push(points: Seq<SeriesPoint>, i: int, test: spec_fn(SeriesPoint) -> bool)
    requires
        0 <= i < points.len(),
    ensures
        how_many(points.take(i + 1), test) == how_many(points.take(i), test) + if test(points[i]) {
            1nat
        } else {
            0
        },
{
    assert(points.take(i + 1) =~= points.take(i).push(points[i]));
    points.take(i).lemma_filter_push(points[i], test);
}

proof fn extent_counts(points: Seq<SeriesPoint>, w: Window, c: int)
    requires
        points.len() <= u64::MAX,
    ensures
        extent_in(points, w, c) is Some ==> extent_in(points, w, c)->0.count <= points.len(),
    decreases points.len(),
{
    if points.len() > 0 {
        extent_counts(points.drop_last(), w, c);
    }
}

/// Bins one sample tap's points over a window.
#[verifier::rlimit(40)]
pub fn bin_series(lane: &SeriesLane, from: u64, to: u64, width: usize) -> (r: BinnedSeriesLane)
    requires
        from <= to,
        width > 0,
    ensures
        r.tells(*lane, (Window { from: from as nat, to: to as nat, width: width as nat })),
{
    let ghost w = Window { from: from as nat, to: to as nat, width: width as nat };
    let ghost shown = |p: SeriesPoint| w.from <= p.t <= w.to;
    let ghost early = |p: SeriesPoint| p.t < w.from;
    let ghost late = |p: SeriesPoint| p.t > w.to;
    let mut slots: Vec<Option<Extent>> = Vec::new();
    for c in 0..width
        invariant
            slots.len() == c,
            forall|k: int| 0 <= k < c ==> (#[trigger] slots@[k]) is None,
    {
        slots.push(None);
    }
    let span: u64 = if to > from {
        to - from
    } else {
        1
    };
    let n: usize = lane.points.len();
    let mut visible: usize = 0;
    let mut before: usize = 0;
    let mut after: usize = 0;
    let mut lo: u64 = INFINITY;
    let mut hi: u64 = NEGATIVE_INFINITY;
    let ghost points = lane.points@;
    assert(points.take(0) =~= Seq::empty());
    proof {
        reveal(Seq::filter);
        assert(how_many(points.take(0), shown) == 0);
        assert(how_many(points.take(0), early) == 0);
        assert(how_many(points.take(0), late) == 0);
    }
    for i in 0..n
        invariant
            from <= to,
            width > 0,
            w == (Window { from: from as nat, to: to as nat, width: width as nat }),
            shown == (|p: SeriesPoint| w.from <= p.t <= w.to),
            early == (|p: SeriesPoint| p.t < w.from),
            late == (|p: SeriesPoint| p.t > w.to),
            span == w.span(),
            points == lane.points@,
            n == lane.points.len(),
            slots.len() == width,
            forall|c: int|
                0 <= c < width ==> #[trigger] slots@[c] == extent_in(points.take(i as int), w, c),
            visible == how_many(points.take(i as int), shown),
            before == how_many(points.take(i as int), early),
            after == how_many(points.take(i as int), late),
            visible <= i,
            before <= i,
            after <= i,
            lo == lowest_shown(points.take(i as int), w),
            hi == highest_shown(points.take(i as int), w),
    {
        let p = lane.points[i];
        let ghost done = points.take(i as int);
        let ghost next = points.take(i + 1);
        proof {
            assert(next.drop_last() =~= done);
            assert(next.last() == p);
            how_many_push(points, i as int, shown);
            how_many_push(points, i as int, early);
            how_many_push(points, i as int, late);
        }
        let ghost slots0 = slots@;
        if p.t < from {
            before = before + 1;
        } else if p.t > to {
            after = after + 1;
        } else {
            let c: usize = bin_of(p.t - from, span, width);
            assert(w.plots(p, c as int));
            proof {
                extent_counts(done, w, c as int);
                assert(slots0[c as int] == extent_in(done, w, c as int));
            }
            let grown = extend(slots[c], p.value_bits);
            slots.set(c, Some(grown));
            if less(p.value_bits, lo) {
                lo = p.value_bits;
            }
            if less(hi, p.value_bits) {
                hi = p.value_bits;
            }
            visible = visible + 1;
        }
        assert forall|k: int| 0 <= k < width implies #[trigger] slots@[k] == extent_in(next, w, k) by {
            assert(slots0[k] == extent_in(done, w, k));
        }
    }
    assert(points.take(n as int) =~= points);
    let mut bins: Vec<SeriesBin> = Vec::new();
    for c in 0..width
        invariant
            slots.len() == width,
            forall|k: int| 0 <= k < width ==> #[trigger] slots@[k] == extent_in(points, w, k),
            bins@ == bins_to(points, w, c as int),
    {
        assert(slots@[c as int] == extent_in(points, w, c as int));
        if let Some(e) = slots[c] {
            bins.push(
                SeriesBin { c, min_bits: e.min_bits, max_bits: e.max_bits, count: e.count },
            );
        }
    }
    BinnedSeriesLane {
        key: lane.key.clone(),
        bins,
        visible,
        before,
        after,
        min_bits: if finite(lo) {
            lo
        } else {
            0
        },
        max_bits: if finite(hi) {
            hi
        } else {
            0
        },
    }
}

// ---- laws --------------------------------------------------------------------

/// A column says the least and the greatest of the samples drawn in it, both among them, and
/// how many there are; a column in which none is drawn says nothing.
pub proof fn a_column_spans_its_samples(points: Seq<SeriesPoint>, w: Window, c: int)
    requires
        points.len() < u64::MAX,
    ensures
        match extent_in(points, w, c) {
            Some(e) => {
                &&& exists|i: int|
                    0 <= i < points.len() && w.plots(#[trigger] points[i], c)
                        && points[i].value_bits == e.min_bits
                &&& exists|i: int|
                    0 <= i < points.len() && w.plots(#[trigger] points[i], c)
                        && points[i].value_bits == e.max_bits
                &&& forall|i: int|
                    0 <= i < points.len() && w.plots(#[trigger] points[i], c) ==> !below(
                        points[i].value_bits,
                        e.min_bits,
                    ) && !below(e.max_bits, points[i].value_bits)
                &&& e.count == points.filter(|p: SeriesPoint| w.plots(p, c)).len()
            },
            None => forall|i: int| 0 <= i < points.len() ==> !w.plots(#[trigger] points[i], c),
        },
    decreases points.len(),
{
    reveal(Seq::filter);
    if points.len() > 0 {
        let rest = points.drop_last();
        let p = points.last();
        let before = extent_in(rest, w, c);
        a_column_spans_its_samples(rest, w, c);
        extent_counts(rest, w, c);
        assert forall|i: int| 0 <= i < rest.len() implies rest[i] == #[trigger] points[i] by {}
        if before is None {
            none_is_drawn(rest, w, c);
        }
        if before is Some {
            let e = before->0;
            let low = choose|i: int|
                0 <= i < rest.len() && w.plots(#[trigger] rest[i], c) && rest[i].value_bits
                    == e.min_bits;
            let high = choose|i: int|
                0 <= i < rest.len() && w.plots(#[trigger] rest[i], c) && rest[i].value_bits
                    == e.max_bits;
            assert(points[low] == rest[low] && points[high] == rest[high]);
        }
        if w.plots(p, c) {
            let now = extended(before, p.value_bits);
            let end = points.len() - 1;
            assert(points[end] == p);
            if before is Some {
                let e = before->0;
                assert forall|i: int|
                    0 <= i < points.len() && w.plots(#[trigger] points[i], c) implies !below(
                    points[i].value_bits,
                    now.min_bits,
                ) && !below(now.max_bits, points[i].value_bits) by {
                    let v = points[i].value_bits;
                    below_is_an_order(v, p.value_bits, e.min_bits);
                    below_is_an_order(e.max_bits, p.value_bits, v);
                    below_is_an_order(v, v, v);
                    if i < rest.len() {
                        assert(w.plots(rest[i], c));
                    }
                }
            }
        } else {
            assert forall|i: int|
                0 <= i < points.len() && w.plots(#[trigger] points[i], c) implies i < rest.len()
                && w.plots(rest[i], c) by {}
        }
    }
}

proof fn none_is_drawn(points: Seq<SeriesPoint>, w: Window, c: int)
    requires
        forall|i: int| 0 <= i < points.len() ==> !w.plots(#[trigger] points[i], c),
    ensures
        points.filter(|p: SeriesPoint| w.plots(p, c)).len() == 0,
    decreases points.len(),
{
    reveal(Seq::filter);
    if points.len() > 0 {
        none_is_drawn(points.drop_last(), w, c);
        assert(!w.plots(points[points.len() - 1], c));
    }
}

/// Every column in which a sample is drawn has a bin, and only those; the bins come in the
/// order of their columns.
pub proof fn every_drawn_column_has_a_bin(points: Seq<SeriesPoint>, w: Window, n: int)
    requires
        0 <= n <= w.width <= usize::MAX,
        points.len() < u64::MAX,
    ensures
        ({
            let bins = bins_to(points, w, n);
            &&& forall|k: int|
                0 <= k < bins.len() ==> 0 <= (#[trigger] bins[k]).c < n && extent_in(
                    points,
                    w,
                    bins[k].c as int,
                ) == Some(
                    Extent {
                        min_bits: bins[k].min_bits,
                        max_bits: bins[k].max_bits,
                        count: bins[k].count,
                    },
                )
            &&& forall|j: int, k: int|
                0 <= j < k < bins.len() ==> (#[trigger] bins[j]).c < (#[trigger] bins[k]).c
            &&& forall|i: int|
                0 <= i < points.len() && w.from <= (#[trigger] points[i]).t <= w.to && w.column(
                    points[i].t,
                ) < n ==> exists|k: int|
                    0 <= k < bins.len() && (#[trigger] bins[k]).c == w.column(points[i].t)
        }),
    decreases n,
{
    if n > 0 {
        every_drawn_column_has_a_bin(points, w, n - 1);
        a_column_spans_its_samples(points, w, n - 1);
        let before = bins_to(points, w, n - 1);
        let bins = bins_to(points, w, n);
        assert forall|k: int| 0 <= k < before.len() implies bins[k] == #[trigger] before[k] by {}
        assert forall|i: int|
            0 <= i < points.len() && w.from <= (#[trigger] points[i]).t <= w.to && w.column(
                points[i].t,
            ) < n implies exists|k: int|
            0 <= k < bins.len() && (#[trigger] bins[k]).c == w.column(points[i].t) by {
            let c = w.column(points[i].t);
            if c < n - 1 {
                let k = choose|k: int| 0 <= k < before.len() && (#[trigger] before[k]).c == c;
                assert(bins[k] == before[k]);
            } else {
                assert(w.plots(points[i], n - 1));
                assert(bins[bins.len() - 1].c == c);
            }
        }
    }
}

proof fn shown_extremes(points: Seq<SeriesPoint>, w: Window)
    ensures
        ({
            let low = lowest_shown(points, w);
            let high = highest_shown(points, w);
            &&& low == INFINITY || exists|i: int|
                0 <= i < points.len() && w.from <= (#[trigger] points[i]).t <= w.to
                    && points[i].value_bits == low
            &&& high == NEGATIVE_INFINITY || exists|i: int|
                0 <= i < points.len() && w.from <= (#[trigger] points[i]).t <= w.to
                    && points[i].value_bits == high
            &&& forall|i: int|
                0 <= i < points.len() && w.from <= (#[trigger] points[i]).t <= w.to ==> !below(
                    points[i].value_bits,
                    low,
                ) && !below(high, points[i].value_bits)
        }),
    decreases points.len(),
{
    if points.len() > 0 {
        let rest = points.drop_last();
        let p = points.last();
        shown_extremes(rest, w);
        let low = lowest_shown(rest, w);
        let high = highest_shown(rest, w);
        assert forall|i: int| 0 <= i < rest.len() implies #[trigger] rest[i] == points[i] by {}
        assert(points[points.len() - 1] == p);
        if low != INFINITY {
            let i = choose|i: int|
                0 <= i < rest.len() && w.from <= (#[trigger] rest[i]).t <= w.to
                    && rest[i].value_bits == low;
            assert(points[i].value_bits == low);
        }
        if high != NEGATIVE_INFINITY {
            let i = choose|i: int|
                0 <= i < rest.len() && w.from <= (#[trigger] rest[i]).t <= w.to
                    && rest[i].value_bits == high;
            assert(points[i].value_bits == high);
        }
        assert forall|i: int|
            0 <= i < points.len() && w.from <= (#[trigger] points[i]).t <= w.to implies !below(
            points[i].value_bits,
            lowest_shown(points, w),
        ) && !below(highest_shown(points, w), points[i].value_bits) by {
            let v = points[i].value_bits;
            below_is_an_order(v, p.value_bits, low);
            below_is_an_order(high, p.value_bits, v);
            below_is_an_order(v, v, v);
            if i < rest.len() {
                assert(rest[i] == points[i]);
            }
        }
    }
}

/// A strip's scale runs from the least to the greatest sample that its window shows, both
/// among them; a window that shows none has no scale.
pub proof fn a_scale_spans_what_is_shown(strip: BinnedSeriesLane, lane: SeriesLane, w: Window)
    requires
        strip.tells(lane, w),
        forall|i: int| 0 <= i < lane.points@.len() ==> is_finite(
            (#[trigger] lane.points@[i]).value_bits,
        ),
    ensures
        ({
            let points = lane.points@;
            let shown = exists|i: int|
                0 <= i < points.len() && w.from <= (#[trigger] points[i]).t <= w.to;
            &&& !shown ==> strip.min_bits == 0 && strip.max_bits == 0
            &&& shown ==> exists|i: int|
                0 <= i < points.len() && w.from <= (#[trigger] points[i]).t <= w.to
                    && points[i].value_bits == strip.min_bits
            &&& shown ==> exists|i: int|
                0 <= i < points.len() && w.from <= (#[trigger] points[i]).t <= w.to
                    && points[i].value_bits == strip.max_bits
            &&& forall|i: int|
                0 <= i < points.len() && w.from <= (#[trigger] points[i]).t <= w.to ==> !below(
                    points[i].value_bits,
                    strip.min_bits,
                ) && !below(strip.max_bits, points[i].value_bits)
        }),
{
    shown_extremes(lane.points@, w);
}

} // verus!
