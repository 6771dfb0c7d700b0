//! One tap's live sample series: decimated, never truncated.

use vstd::prelude::*;
use vstd::string::*;
use vstd::arithmetic::div_mod::{
    lemma_div_is_ordered, lemma_div_multiples_vanish, lemma_fundamental_div_mod_converse,
};
use vstd::arithmetic::power2::{
    lemma2_to64, lemma_pow2_pos, lemma_pow2_strictly_increases, lemma_pow2_unfold, pow2,
};
use crate::text::opt_view;

verus! {

/// Points kept per series. Beyond this the series decimates two to one.
pub const MAX_SERIES_POINTS: usize = 50_000;

/// One sample: when it arrived, and the bits of its value as an IEEE 754 double.
#[derive(Debug, Clone, Copy, PartialEq, Eq, Structural)]
pub struct Point {
    pub rx_utc_ms: u64,
    pub value_bits: u64,
}

/// A series that keeps the whole run, one point in `stride`.
#[derive(Debug)]
pub struct Series {
    pub points: Vec<Point>,
    pub unit: Option<String>,
    /// One point kept per `stride` arriving; zero reads as one.
    pub stride: u32,
    /// Samples seen since the last one kept.
    pub skipped: u32,
    /// Every sample this tap has produced, kept or not.
    pub total: u64,
}

/// What a [`Series`] holds.
pub ghost struct SeriesState {
    pub points: Seq<Point>,
    pub unit: Option<Seq<char>>,
    pub stride: u32,
    pub skipped: u32,
    pub total: nat,
}

impl View for Series {
    type V = SeriesState;

    open spec fn view(&self) -> SeriesState {
        SeriesState {
            points: self.points@,
            unit: opt_view(self.unit),
            stride: self.stride,
            skipped: self.skipped,
            total: self.total as nat,
        }
    }
}

/// Every other point, the first one first.
pub open spec fn every_other(points: Seq<Point>) -> Seq<Point> {
    Seq::new(((points.len() + 1) / 2) as nat, |i: int| points[2 * i])
}

/// Twice a stride, as far as it can be counted.
pub open spec fn doubled(stride: u32) -> u32 {
    if stride > u32::MAX / 2 {
        u32::MAX
    } else {
        (stride * 2) as u32
    }
}

impl SeriesState {
    pub open spec fn empty() -> SeriesState {
        SeriesState { points: Seq::empty(), unit: None, stride: 0, skipped: 0, total: 0 }
    }

    /// The stride in force.
    pub open spec fn step(self) -> u32 {
        if self.stride == 0 {
            1
        } else {
            self.stride
        }
    }

    /// Whether the next sample is one that is kept.
    pub open spec fn keeps_next(self) -> bool {
        self.skipped + 1 >= self.step()
    }

    /// Whether the next sample is one too many, so that every other point goes.
    pub open spec fn thins_next(self) -> bool {
        self.keeps_next() && self.points.len() >= MAX_SERIES_POINTS
    }

    /// The series after a sample.
    pub open spec fn after(self, sample: Point, unit: Option<Seq<char>>) -> SeriesState {
        let told = if self.unit is Some {
            self.unit
        } else {
            unit
        };
        let points = self.points.push(sample);
        let full = points.len() > MAX_SERIES_POINTS;
        if !self.keeps_next() {
            SeriesState {
                unit: told,
                stride: self.step(),
                skipped: (self.skipped + 1) as u32,
                total: self.total + 1,
                ..self
            }
        } else {
            SeriesState {
                points: if full {
                    every_other(points)
                } else {
                    points
                },
                unit: told,
                stride: if full {
                    doubled(self.step())
                } else {
                    self.step()
                },
                skipped: 0,
                total: self.total + 1,
            }
        }
    }

    pub open spec fn wf(self) -> bool {
        &&& self.points.len() <= MAX_SERIES_POINTS
        &&& self.skipped < self.step()
    }

    /// The series shows exactly every `stride`-th sample of `run`, from the first one on.
    pub open spec fn shows(self, run: Seq<Point>) -> bool {
        &&& self.wf()
        &&& self.total == run.len()
        &&& run.len() == 0 ==> self.points.len() == 0 && self.skipped == 0 && self.step() == 1
        &&& run.len() > 0 ==> {
            &&& self.points.len() > 0
            &&& run.len() - 1 == (self.points.len() - 1) * self.step() + self.skipped
        }
        &&& forall|i: int|
            0 <= i < self.points.len() ==> #[trigger] self.points[i] == run[i * self.step()]
    }
}

impl Series {
    /// A series nothing has arrived on.
    pub fn new() -> (r: Series)
        ensures
            r@ == SeriesState::empty(),
            r@.wf(),
    {
        Series { points: Vec::new(), unit: None, stride: 0, skipped: 0, total: 0 }
    }

    /// Takes one sample in. Returns whether it was kept.
    pub fn push(&mut self, rx_utc_ms: u64, value_bits: u64, unit: Option<&str>) -> (r: bool)
        requires
            old(self)@.wf(),
            old(self).total < u64::MAX,
        ensures
            final(self)@.wf(),
            r == old(self)@.keeps_next(),
            final(self)@ == old(self)@.after(
                (Point { rx_utc_ms, value_bits }),
                match unit {
                    Some(u) => Some(u@),
                    None => None,
                },
            ),
    {
        if self.stride == 0 {
            self.stride = 1;
        }
        if self.unit.is_none() {
            self.unit = match unit {
                Some(u) => Some(u.to_owned()),
                None => None,
            };
        }
        self.total = self.total + 1;
        if self.skipped + 1 < self.stride {
            self.skipped = self.skipped + 1;
            return false;
        }
        self.skipped = 0;
        self.points.push(Point { rx_utc_ms, value_bits });
        if self.points.len() > MAX_SERIES_POINTS {
            let mut keep: Vec<Point> = Vec::new();
            let n: usize = self.points.len();
            let mut i: usize = 0;
            while i < n
                invariant
                    n == self.points.len(),
                    n <= 50_001,
                    i == 2 * keep.len(),
                    i <= n + 1,
                    forall|j: int| 0 <= j < keep.len() ==> keep@[j] == self.points@[2 * j],
                decreases n + 1 - i,
            {
                keep.push(self.points[i]);
                i = i + 2;
            }
            assert(keep@ =~= every_other(self.points@));
            self.points = keep;
            self.stride = if self.stride > u32::MAX / 2 {
                u32::MAX
            } else {
                self.stride * 2
            };
        }
        true
    }

    /// The stride as it is shown: never zero.
    pub fn shown_stride(&self) -> (r: u32)
        ensures
            r == self@.step(),
    {
        if self.stride == 0 {
            1
        } else {
            self.stride
        }
    }
}

proof fn within_the_run(i: int, n: int, k: int, skipped: int)
    requires
        0 <= i < n,
        k >= 1,
        skipped >= 0,
    ensures
        0 <= i * k <= (n - 1) * k + skipped,
{
    assert(i * k <= (n - 1) * k) by (nonlinear_arith)
        requires
            0 <= i <= n - 1,
            k >= 1,
    ;
    assert(0 <= i * k) by (nonlinear_arith)
        requires
            i >= 0,
            k >= 1,
    ;
}

/// A series goes on showing the whole run, evenly: if it shows every `stride`-th
/// sample of `run`, then after one more sample it does so of the longer run. The
/// first sample is among them throughout.
pub proof fn a_series_covers_the_whole_run(
    s: SeriesState,
    run: Seq<Point>,
    sample: Point,
    unit: Option<Seq<char>>,
)
    requires
        s.shows(run),
        s.thins_next() ==> s.step() <= u32::MAX / 2,
    ensures
        s.after(sample, unit).shows(run.push(sample)),
        s.after(sample, unit).points[0] == run.push(sample)[0],
{
    let t = s.after(sample, unit);
    let longer = run.push(sample);
    let n = s.points.len();
    let k = s.step() as int;
    if s.keeps_next() {
        let points = s.points.push(sample);
        assert(n * k == run.len()) by (nonlinear_arith)
            requires
                run.len() > 0 ==> run.len() - 1 == (n - 1) * k + s.skipped,
                run.len() == 0 ==> n == 0,
                run.len() > 0 ==> s.skipped + 1 == k,
        ;
        assert forall|i: int| 0 <= i < points.len() implies points[i] == longer[i * k] by {
            if i < n {
                within_the_run(i, n as int, k, s.skipped as int);
                assert(points[i] == s.points[i]);
            }
        }
        if points.len() > MAX_SERIES_POINTS {
            assert(points.len() == 50_001);
            assert forall|i: int| 0 <= i < t.points.len() implies t.points[i] == longer[i * t.step()] by {
                assert(t.points[i] == points[2 * i]);
                assert((2 * i) * k == i * (2 * k)) by (nonlinear_arith);
            }
            assert((t.points.len() - 1) * (2 * k) == n * k) by (nonlinear_arith)
                requires
                    n == 50_000,
                    t.points.len() == 25_001,
            ;
        } else {
            assert((points.len() - 1) * k == n * k);
        }
        assert(0 * k == 0);
    } else {
        assert forall|i: int| 0 <= i < n implies t.points[i] == longer[i * k] by {
            within_the_run(i, n as int, k, s.skipped as int);
            assert(t.points[i] == s.points[i]);
        }
        assert(0 * k == 0);
    }
}

/// A series starts out showing the empty run.
pub proof fn a_new_series_shows_nothing()
    ensures
        SeriesState::empty().shows(Seq::empty()),
{
}

// ---- a whole run -------------------------------------------------------------

/// A sample of a run, and the unit it names where it names one.
pub ghost struct Arrived {
    pub point: Point,
    pub unit: Option<Seq<char>>,
}

/// The series of a whole run.
pub open spec fn series_of(run: Seq<Arrived>) -> SeriesState
    decreases run.len(),
{
    if run.len() == 0 {
        SeriesState::empty()
    } else {
        series_of(run.drop_last()).after(run.last().point, run.last().unit)
    }
}

pub open spec fn points_of(run: Seq<Arrived>) -> Seq<Point> {
    Seq::new(run.len(), |i: int| run[i].point)
}

/// The first unit that a run names.
pub open spec fn first_unit(run: Seq<Arrived>) -> Option<Seq<char>>
    decreases run.len(),
{
    if run.len() == 0 {
        None
    } else {
        match first_unit(run.drop_last()) {
            Some(u) => Some(u),
            None => run.last().unit,
        }
    }
}

/// How many of `n` samples are kept where one in `stride` is, the first one first.
pub open spec fn kept_of(n: nat, stride: nat) -> nat {
    ((n + stride - 1) / stride as int) as nat
}

/// Whether `stride` is the least power of two that brings `n` samples within the cap.
pub open spec fn is_least_stride(stride: nat, n: nat) -> bool {
    exists|e: nat|
        {
            &&& stride == #[trigger] pow2(e)
            &&& kept_of(n, stride) <= MAX_SERIES_POINTS
            &&& forall|j: nat| j < e ==> kept_of(n, #[trigger] pow2(j)) > MAX_SERIES_POINTS
        }
}

/// The longest run whose stride can be counted.
pub const MAX_COUNTED_RUN: u64 = 107_374_182_400_000;

proof fn a_whole_run(run: Seq<Arrived>) -> (e: nat)
    requires
        run.len() <= MAX_COUNTED_RUN,
    ensures
        series_of(run).shows(points_of(run)),
        series_of(run).unit == first_unit(run),
        series_of(run).step() == pow2(e),
        e > 0 ==> run.len() > MAX_SERIES_POINTS * pow2((e - 1) as nat),
    decreases run.len(),
{
    lemma2_to64();
    if run.len() == 0 {
        assert(points_of(run) =~= Seq::empty());
        0
    } else {
        let before = run.drop_last();
        let e = a_whole_run(before);
        let s = series_of(before);
        let x = run.last();
        assert(points_of(before).push(x.point) =~= points_of(run));
        if s.thins_next() {
            let k = s.step() as int;
            assert(before.len() >= 50_000 * k) by (nonlinear_arith)
                requires
                    before.len() - 1 == (50_000 - 1) * k + s.skipped,
                    s.skipped + 1 == k,
            ;
            assert(k < 0x8000_0000);
            lemma_pow2_unfold(e + 1);
            a_series_covers_the_whole_run(s, points_of(before), x.point, x.unit);
            e + 1
        } else {
            a_series_covers_the_whole_run(s, points_of(before), x.point, x.unit);
            e
        }
    }
}

/// A series shows its whole run, evenly. It counts every sample; its stride is the least
/// power of two that brings the run within the cap; its points are the samples at the
/// multiples of the stride, from the first one on; and its unit is the first that a sample
/// named.
pub proof fn a_run_is_shown_evenly(run: Seq<Arrived>)
    requires
        run.len() <= MAX_COUNTED_RUN,
    ensures
        ({
            let s = series_of(run);
            let stride = s.step() as nat;
            &&& s.total == run.len()
            &&& is_least_stride(stride, run.len())
            &&& s.points.len() == kept_of(run.len(), stride)
            &&& forall|i: int|
                0 <= i < s.points.len() ==> #[trigger] s.points[i] == run[i * stride].point
            &&& s.unit == first_unit(run)
        }),
{
    let e = a_whole_run(run);
    let s = series_of(run);
    let n = run.len();
    let stride = s.step() as nat;
    if n > 0 {
        let len = s.points.len() as int;
        assert(kept_of(n, stride) == len) by {
            assert(n + stride - 1 == len * stride + s.skipped) by (nonlinear_arith)
                requires
                    n - 1 == (len - 1) * stride + s.skipped,
            ;
            lemma_fundamental_div_mod_converse(
                n + stride - 1,
                stride as int,
                len,
                s.skipped as int,
            );
        }
        assert forall|i: int| 0 <= i < s.points.len() implies #[trigger] s.points[i] == run[i
            * stride].point by {
            within_the_run(i, len, stride as int, s.skipped as int);
            assert(s.points[i] == points_of(run)[i * s.step()]);
        }
    } else {
        assert(kept_of(0, stride) == 0) by {
            lemma2_to64();
            lemma_fundamental_div_mod_converse(stride - 1, stride as int, 0, stride - 1);
        }
    }
    assert forall|j: nat| j < e implies kept_of(n, #[trigger] pow2(j)) > MAX_SERIES_POINTS by {
        let q = pow2(j) as int;
        let p = pow2((e - 1) as nat) as int;
        lemma_pow2_pos(j);
        if j < e - 1 {
            lemma_pow2_strictly_increases(j, (e - 1) as nat);
        }
        assert(50_001 * q <= n + q - 1) by (nonlinear_arith)
            requires
                q <= p,
                n > 50_000 * p,
        ;
        lemma_div_is_ordered(50_001 * q, n + q - 1, q);
        lemma_div_multiples_vanish(50_001, q);
        assert(q * 50_001 == 50_001 * q) by (nonlinear_arith);
    }
    assert(is_least_stride(stride, n)) by {
        assert(stride == pow2(e));
    }
}

} // verus!
