//! Marks, the lanes they stand in, and the bins they are drawn from.

use vstd::prelude::*;
use vstd::string::*;
use crate::double::{bin, bin_of};

verus! {

/// How far a lane's index is shifted to make a mark's id: two to the fortieth.
pub const ROWS_PER_LANE: u64 = 1_099_511_627_776;

/// How many lanes an id can tell apart.
pub const LANES: u64 = 16_777_216;

/// The last row an id can name.
pub const ROW_MASK: u64 = 1_099_511_627_775;

/// The id of a row of a lane.
pub open spec fn id_of(lane: int, row: int) -> int {
    (lane % LANES as int) * ROWS_PER_LANE + row % ROWS_PER_LANE as int
}

/// The id of the mark that row `row` of lane `lane` makes.
pub fn mark_id(lane: usize, row: usize) -> (r: u64)
    ensures
        r == id_of(lane as int, row as int),
{
    let l: u64 = (lane as u64) % LANES;
    let w: u64 = (row as u64) % ROWS_PER_LANE;
    l * ROWS_PER_LANE + w
}

/// The lane and the row that an id names, where the machine can count that far.
#[verifier::truncate]
pub fn split_mark_id(id: u64) -> (r: (usize, usize))
    ensures
        r.0 == id as int / ROWS_PER_LANE as int,
        id as int % ROWS_PER_LANE as int <= usize::MAX ==> r.1 == id as int % ROWS_PER_LANE as int,
{
    ((id / ROWS_PER_LANE) as usize, (id % ROWS_PER_LANE) as usize)
}

/// An id names its lane and its row: the mark and the row are one object.
pub proof fn an_id_names_its_row(lane: int, row: int)
    requires
        0 <= lane < LANES,
        0 <= row < ROWS_PER_LANE,
    ensures
        0 <= id_of(lane, row) <= u64::MAX,
        id_of(lane, row) / ROWS_PER_LANE as int == lane,
        id_of(lane, row) % ROWS_PER_LANE as int == row,
{
}

/// One thing that happened, and where it stands on the axis.
#[derive(Debug)]
pub struct Mark {
    /// Where it stands, and nothing where the axis has no position for it.
    pub t: Option<u64>,
    /// The receipt stamp; none for a mark the device under test stamped itself.
    pub core_rx_utc_ms: Option<u64>,
    /// `gatt`, `struct`, `console` or `marker`.
    pub kind: &'static str,
    pub sub: String,
    /// Placed across two clocks.
    pub uncertain: bool,
    /// The lane and the row it came from.
    pub id: u64,
    pub label: String,
}

impl Mark {
    /// A copy of this mark.
    pub fn copied(&self) -> (r: Mark)
        ensures
            r == *self,
    {
        Mark {
            t: self.t,
            core_rx_utc_ms: self.core_rx_utc_ms,
            kind: self.kind,
            sub: self.sub.clone(),
            uncertain: self.uncertain,
            id: self.id,
            label: self.label.clone(),
        }
    }
}

/// One lane of marks, and the accounting of what is not drawn in it.
#[derive(Debug)]
pub struct MarkLane {
    pub key: String,
    pub label: String,
    pub kind: &'static str,
    /// `rows`, `text` or `trace-markers`: how a mark's detail is reached.
    pub source: &'static str,
    /// The tap this lane came from. Empty for the lane of a trace's own markers, which
    /// belongs to the trace as a whole.
    pub tap: String,
    /// Every event in this lane, placed or not.
    pub total: usize,
    pub placed: usize,
    /// Events before the axis opens, and after it closes.
    pub before: usize,
    pub after: usize,
    pub dropped_by_cap: usize,
    pub note: Option<String>,
    pub marks: Vec<Mark>,
}

/// A run of bins holding marks of one lane. It carries the mark where it holds one.
#[derive(Debug)]
pub struct MarkRun {
    pub c0: usize,
    pub c1: usize,
    pub count: usize,
    pub one: Option<Mark>,
}

/// A lane's marks, binned over a window.
#[derive(Debug)]
pub struct BinnedMarkLane {
    pub key: String,
    pub runs: Vec<MarkRun>,
    /// Marks inside the window.
    pub visible: usize,
    /// Placed marks before the window, and after it.
    pub before: usize,
    pub after: usize,
}

/// A window, cut into bins.
pub ghost struct Window {
    pub from: nat,
    pub to: nat,
    pub width: nat,
}

impl Window {
    pub open spec fn shows(self, t: Option<u64>) -> bool {
        t is Some && self.from <= t->0 <= self.to
    }

    pub open spec fn misses_before(self, t: Option<u64>) -> bool {
        t is Some && t->0 < self.from
    }

    pub open spec fn misses_after(self, t: Option<u64>) -> bool {
        t is Some && t->0 > self.to
    }

    pub open spec fn span(self) -> nat {
        if self.to > self.from {
            (self.to - self.from) as nat
        } else {
            1
        }
    }

    /// The bin an instant of the window falls in.
    pub open spec fn column(self, t: u64) -> nat {
        bin((t - self.from) as nat, self.span(), self.width)
    }

    /// Whether a mark is drawn in column `c`.
    pub open spec fn draws(self, m: Mark, c: int) -> bool {
        self.shows(m.t) && self.column(m.t->0) == c
    }
}

/// How many marks are drawn in column `c`.
pub open spec fn count_in(marks: Seq<Mark>, w: Window, c: int) -> nat
    decreases marks.len(),
{
    if marks.len() == 0 {
        0
    } else {
        count_in(marks.drop_last(), w, c) + if w.draws(marks.last(), c) {
            1nat
        } else {
            0
        }
    }
}

/// The last mark drawn in column `c`.
pub open spec fn last_in(marks: Seq<Mark>, w: Window, c: int) -> Option<Mark>
    decreases marks.len(),
{
    if marks.len() == 0 {
        None
    } else if w.draws(marks.last(), c) {
        Some(marks.last())
    } else {
        last_in(marks.drop_last(), w, c)
    }
}

/// How many marks are drawn in the columns from `a` up to `b`.
pub open spec fn count_between(marks: Seq<Mark>, w: Window, a: int, b: int) -> nat
    decreases b - a,
{
    if a >= b {
        0
    } else {
        count_between(marks, w, a, b - 1) + count_in(marks, w, b - 1)
    }
}

/// The first column from `c` on that holds no mark.
pub open spec fn stretch_end(marks: Seq<Mark>, w: Window, c: int) -> int
    decreases w.width - c,
{
    if 0 <= c < w.width && count_in(marks, w, c) > 0 {
        stretch_end(marks, w, c + 1)
    } else {
        c
    }
}

/// What a [`MarkRun`] says.
pub ghost struct RunOf {
    pub c0: int,
    pub c1: int,
    pub count: nat,
    pub one: Option<Mark>,
}

impl View for MarkRun {
    type V = RunOf;

    open spec fn view(&self) -> RunOf {
        RunOf { c0: self.c0 as int, c1: self.c1 as int, count: self.count as nat, one: self.one }
    }
}

pub open spec fn runs_of(runs: Seq<MarkRun>) -> Seq<RunOf> {
    Seq::new(runs.len(), |i: int| runs[i]@)
}

/// The run that begins at the occupied column `c`: the whole stretch of occupied
/// columns, and the mark itself where it holds exactly one.
pub open spec fn run_at(marks: Seq<Mark>, w: Window, c: int) -> RunOf {
    let end = stretch_end(marks, w, c);
    let count = count_between(marks, w, c, end);
    RunOf {
        c0: c,
        c1: end - 1,
        count,
        one: if count == 1 {
            last_in(marks, w, c)
        } else {
            None
        },
    }
}

/// The runs from column `c` on: the stretches of occupied columns, in order.
pub open spec fn runs_from(marks: Seq<Mark>, w: Window, c: int) -> Seq<RunOf>
    decreases w.width - c,
    when 0 <= c <= w.width
{
    if c >= w.width {
        Seq::empty()
    } else if count_in(marks, w, c) == 0 {
        runs_from(marks, w, c + 1)
    } else if c < stretch_end(marks, w, c) <= w.width {
        seq![run_at(marks, w, c)] + runs_from(marks, w, stretch_end(marks, w, c))
    } else {
        Seq::empty()
    }
}

/// How many of the marks satisfy a test.
pub open spec fn tally(marks: Seq<Mark>, test: spec_fn(Mark) -> bool) -> nat {
    marks.filter(test).len()
}

pub proof fn stretch_end_bounds(marks: Seq<Mark>, w: Window, c: int)
    requires
        0 <= c <= w.width,
    ensures
        c <= stretch_end(marks, w, c) <= w.width,
        forall|k: int|
            c <= k < stretch_end(marks, w, c) ==> #[trigger] count_in(marks, w, k) > 0,
        stretch_end(marks, w, c) < w.width ==> count_in(marks, w, stretch_end(marks, w, c)) == 0,
    decreases w.width - c,
{
    if c < w.width && count_in(marks, w, c) > 0 {
        stretch_end_bounds(marks, w, c + 1);
    }
}

proof fn count_between_of_last(marks: Seq<Mark>, w: Window, a: int, b: int)
    requires
        marks.len() > 0,
    ensures
        count_between(marks, w, a, b) <= count_between(marks.drop_last(), w, a, b) + 1,
        !(w.shows(marks.last().t) && a <= w.column(marks.last().t->0) < b) ==> count_between(
            marks,
            w,
            a,
            b,
        ) == count_between(marks.drop_last(), w, a, b),
    decreases b - a,
{
    if a < b {
        count_between_of_last(marks, w, a, b - 1);
    }
}

/// The columns together hold no more marks than there are.
pub proof fn count_between_bounds(marks: Seq<Mark>, w: Window, a: int, b: int)
    ensures
        count_between(marks, w, a, b) <= marks.len(),
    decreases marks.len(),
{
    if marks.len() == 0 {
        count_between_of_nothing(marks, w, a, b);
    } else {
        count_between_bounds(marks.drop_last(), w, a, b);
        count_between_of_last(marks, w, a, b);
    }
}

proof fn count_between_of_nothing(marks: Seq<Mark>, w: Window, a: int, b: int)
    requires
        marks.len() == 0,
    ensures
        count_between(marks, w, a, b) == 0,
    decreases b - a,
{
    if a < b {
        count_between_of_nothing(marks, w, a, b - 1);
    }
}

proof fn count_in_bounds(marks: Seq<Mark>, w: Window, c: int)
    ensures
        count_in(marks, w, c) <= marks.len(),
    decreases marks.len(),
{
    if marks.len() > 0 {
        count_in_bounds(marks.drop_last(), w, c);
    }
}

/// One counting step of a tally.
proof fn tally_push(marks: Seq<Mark>, i: int, test: spec_fn(Mark) -> bool)
    requires
        0 <= i < marks.len(),
    ensures
        tally(marks.take(i + 1), test) == tally(marks.take(i), test) + if test(marks[i]) {
            1nat
        } else {
            0
        },
{
    assert(marks.take(i + 1) =~= marks.take(i).push(marks[i]));
    marks.take(i).lemma_filter_push(marks[i], test);
}

impl BinnedMarkLane {
    /// Whether this is `lane` binned over `w`.
    pub open spec fn tells(&self, lane: MarkLane, w: Window) -> bool {
        &&& self.key@ == lane.key@
        &&& runs_of(self.runs@) == runs_from(lane.marks@, w, 0)
        &&& self.visible == tally(lane.marks@, |m: Mark| w.shows(m.t))
        &&& self.before == tally(lane.marks@, |m: Mark| w.misses_before(m.t))
        &&& self.after == tally(lane.marks@, |m: Mark| w.misses_after(m.t))
    }
}

/// What the marks of a lane come to, column by column.
struct Columns {
    counts: Vec<usize>,
    one: Vec<Option<usize>>,
    visible: usize,
    before: usize,
    after: usize,
}

fn columns_of(marks: &Vec<Mark>, from: u64, to: u64, width: usize) -> (r: Columns)
    requires
        from <= to,
        width > 0,
    ensures
        ({
            let w = Window { from: from as nat, to: to as nat, width: width as nat };
            &&& r.counts.len() == width
            &&& r.one.len() == width
            &&& forall|c: int|
                0 <= c < width ==> #[trigger] r.counts@[c] == count_in(marks@, w, c)
            &&& forall|c: int|
                0 <= c < width && r.counts@[c] == 1 ==> (#[trigger] r.one@[c]) is Some
                    && r.one@[c]->0 < marks.len() && last_in(marks@, w, c) == Some(
                    marks@[r.one@[c]->0 as int],
                )
            &&& r.visible == tally(marks@, |m: Mark| w.shows(m.t))
            &&& r.before == tally(marks@, |m: Mark| w.misses_before(m.t))
            &&& r.after == tally(marks@, |m: Mark| w.misses_after(m.t))
        }),
{
    let ghost w = Window { from: from as nat, to: to as nat, width: width as nat };
    let ghost shown = |m: Mark| w.shows(m.t);
    let ghost early = |m: Mark| w.misses_before(m.t);
    let ghost late = |m: Mark| w.misses_after(m.t);
    let mut counts: Vec<usize> = Vec::new();
    let mut one: Vec<Option<usize>> = Vec::new();
    for c in 0..width
        invariant
            counts.len() == c,
            one.len() == c,
            forall|k: int| 0 <= k < c ==> counts@[k] == 0,
    {
        counts.push(0);
        one.push(None);
    }
    let span: u64 = if to > from {
        to - from
    } else {
        1
    };
    let mut visible: usize = 0;
    let mut before: usize = 0;
    let mut after: usize = 0;
    assert(marks@.take(0) =~= Seq::empty());
    proof {
        reveal(Seq::filter);
        assert(tally(marks@.take(0), shown) == 0);
        assert(tally(marks@.take(0), early) == 0);
        assert(tally(marks@.take(0), late) == 0);
    }
    for i in 0..marks.len()
        invariant
            from <= to,
            width > 0,
            w == (Window { from: from as nat, to: to as nat, width: width as nat }),
            shown == (|m: Mark| w.shows(m.t)),
            early == (|m: Mark| w.misses_before(m.t)),
            late == (|m: Mark| w.misses_after(m.t)),
            span == w.span(),
            counts.len() == width,
            one.len() == width,
            forall|c: int|
                0 <= c < width ==> #[trigger] counts@[c] == count_in(marks@.take(i as int), w, c),
            forall|c: int|
                0 <= c < width && counts@[c] == 1 ==> (#[trigger] one@[c]) is Some && one@[c]->0 < i
                    && last_in(marks@.take(i as int), w, c) == Some(marks@[one@[c]->0 as int]),
            visible == tally(marks@.take(i as int), shown),
            before == tally(marks@.take(i as int), early),
            after == tally(marks@.take(i as int), late),
            visible <= i,
            before <= i,
            after <= i,
    {
        let ghost done = marks@.take(i as int);
        let ghost next = marks@.take(i + 1);
        let ghost m = marks@[i as int];
        proof {
            assert(next.drop_last() =~= done);
            assert(next.last() == m);
            tally_push(marks@, i as int, shown);
            tally_push(marks@, i as int, early);
            tally_push(marks@, i as int, late);
        }
        if let Some(t) = marks[i].t {
            if t < from {
                before = before + 1;
            } else if t > to {
                after = after + 1;
            } else {
                let c: usize = bin_of(t - from, span, width);
                let ghost counts0 = counts@;
                let ghost one0 = one@;
                assert(w.draws(m, c as int));
                proof {
                    count_in_bounds(done, w, c as int);
                }
                let n: usize = counts[c] + 1;
                counts.set(c, n);
                one.set(
                    c,
                    if n == 1 {
                        Some(i)
                    } else {
                        None
                    },
                );
                visible = visible + 1;
                assert forall|k: int| 0 <= k < width implies #[trigger] counts@[k] == count_in(
                    next,
                    w,
                    k,
                ) by {
                    assert(counts0[k] == count_in(done, w, k));
                }
                assert forall|k: int| 0 <= k < width && counts@[k] == 1 implies (
                #[trigger] one@[k]) is Some && one@[k]->0 < i + 1 && last_in(next, w, k) == Some(
                    marks@[one@[k]->0 as int],
                ) by {
                    if k != c {
                        assert(counts0[k] == 1);
                        assert(one0[k] is Some);
                    }
                }
            }
        }
        assert forall|k: int| 0 <= k < width implies #[trigger] counts@[k] == count_in(next, w, k) by {
            if !w.shows(m.t) {
                assert(count_in(next, w, k) == count_in(done, w, k));
            }
        }
    }
    assert(marks@.take(marks@.len() as int) =~= marks@);
    Columns { counts, one, visible, before, after }
}

/// Bins one lane's marks over a window.
///
/// A stretch of occupied bins is one run. One that holds exactly one mark carries it;
/// any other is a cluster that says it is one.
pub fn bin_marks(lane: &MarkLane, from: u64, to: u64, width: usize) -> (r: BinnedMarkLane)
    requires
        from <= to,
        width > 0,
    ensures
        r.tells(*lane, (Window { from: from as nat, to: to as nat, width: width as nat })),
{
    let ghost w = Window { from: from as nat, to: to as nat, width: width as nat };
    let ghost marks = lane.marks@;
    let columns = columns_of(&lane.marks, from, to, width);
    let mut runs: Vec<MarkRun> = Vec::new();
    let mut c: usize = 0;
    assert(runs_of(runs@) =~= Seq::empty());
    assert(runs_of(runs@) + runs_from(marks, w, 0) =~= runs_from(marks, w, 0));
    while c < width
        invariant
            w == (Window { from: from as nat, to: to as nat, width: width as nat }),
            marks == lane.marks@,
            c <= width,
            columns.counts.len() == width,
            columns.one.len() == width,
            forall|k: int| 0 <= k < width ==> #[trigger] columns.counts@[k] == count_in(marks, w, k),
            forall|k: int|
                0 <= k < width && columns.counts@[k] == 1 ==> (#[trigger] columns.one@[k]) is Some
                    && columns.one@[k]->0 < marks.len() && last_in(marks, w, k) == Some(
                    marks[columns.one@[k]->0 as int],
                ),
            runs_of(runs@) + runs_from(marks, w, c as int) == runs_from(marks, w, 0),
        decreases width - c,
    {
        assert(columns.counts@[c as int] == count_in(marks, w, c as int));
        if columns.counts[c] == 0 {
            c = c + 1;
        } else {
            let start: usize = c;
            let mut count: usize = 0;
            proof {
                stretch_end_bounds(marks, w, start as int);
            }
            while c < width && columns.counts[c] > 0
                invariant
                    w == (Window { from: from as nat, to: to as nat, width: width as nat }),
                    marks == lane.marks@,
                    start <= c <= width,
                    columns.counts.len() == width,
                    forall|k: int|
                        0 <= k < width ==> #[trigger] columns.counts@[k] == count_in(marks, w, k),
                    stretch_end(marks, w, start as int) == stretch_end(marks, w, c as int),
                    count == count_between(marks, w, start as int, c as int),
                decreases width - c,
            {
                assert(columns.counts@[c as int] == count_in(marks, w, c as int));
                proof {
                    count_between_bounds(marks, w, start as int, c + 1);
                    assert(marks.len() == lane.marks.len());
                }
                count = count + columns.counts[c];
                c = c + 1;
            }
            proof {
                if c < width {
                    assert(columns.counts@[c as int] == count_in(marks, w, c as int));
                }
                assert(stretch_end(marks, w, c as int) == c);
            }
            let one = if count == 1 {
                proof {
                    one_column(marks, w, start as int, c as int);
                    assert(columns.counts@[start as int] == count_in(marks, w, start as int));
                    assert(columns.one@[start as int] is Some);
                }
                match columns.one[start] {
                    Some(i) => Some(lane.marks[i].copied()),
                    None => None,
                }
            } else {
                None
            };
            let run = MarkRun { c0: start, c1: c - 1, count, one };
            let ghost was = runs_of(runs@);
            assert(run@ == run_at(marks, w, start as int));
            runs.push(run);
            proof {
                assert(runs_of(runs@) =~= was.push(run@));
                assert(runs_of(runs@) + runs_from(marks, w, c as int) =~= was + (seq![run@]
                    + runs_from(marks, w, c as int)));
            }
        }
    }
    assert(runs_of(runs@) + runs_from(marks, w, width as int) =~= runs_of(runs@));
    BinnedMarkLane {
        key: lane.key.clone(),
        runs,
        visible: columns.visible,
        before: columns.before,
        after: columns.after,
    }
}

/// A stretch that holds one mark is one column.
proof fn one_column(marks: Seq<Mark>, w: Window, a: int, b: int)
    requires
        a < b,
        count_between(marks, w, a, b) == 1,
        forall|k: int| a <= k < b ==> #[trigger] count_in(marks, w, k) > 0,
    ensures
        b == a + 1,
        count_in(marks, w, a) == 1,
{
    reveal_with_fuel(count_between, 3);
    assert(count_in(marks, w, b - 1) > 0);
    if b > a + 1 {
        assert(count_in(marks, w, b - 2) > 0);
    }
}

/// Every placed mark is before the window, in it, or after it.
pub proof fn every_placed_mark_is_counted(marks: Seq<Mark>, w: Window)
    requires
        w.from <= w.to,
    ensures
        tally(marks, |m: Mark| w.misses_before(m.t)) + tally(marks, |m: Mark| w.shows(m.t)) + tally(
            marks,
            |m: Mark| w.misses_after(m.t),
        ) == tally(marks, |m: Mark| m.t is Some),
    decreases marks.len(),
{
    let early = |m: Mark| w.misses_before(m.t);
    let shown = |m: Mark| w.shows(m.t);
    let late = |m: Mark| w.misses_after(m.t);
    let placed = |m: Mark| m.t is Some;
    if marks.len() == 0 {
        reveal(Seq::filter);
    } else {
        let n = marks.len() as int;
        every_placed_mark_is_counted(marks.drop_last(), w);
        assert(marks.take(n) =~= marks);
        assert(marks.take(n - 1) =~= marks.drop_last());
        tally_push(marks, n - 1, early);
        tally_push(marks, n - 1, shown);
        tally_push(marks, n - 1, late);
        tally_push(marks, n - 1, placed);
    }
}

/// A run that presents itself as one mark holds one mark; a cluster carries none.
pub proof fn a_cluster_carries_no_mark(marks: Seq<Mark>, w: Window, c: int)
    requires
        0 <= c < w.width,
        count_in(marks, w, c) > 0,
    ensures
        run_at(marks, w, c).count >= 1,
        run_at(marks, w, c).one is Some <==> run_at(marks, w, c).count == 1,
        run_at(marks, w, c).one is Some ==> w.draws(run_at(marks, w, c).one->0, c),
{
    stretch_end_bounds(marks, w, c);
    let end = stretch_end(marks, w, c);
    count_between_grows(marks, w, c, end);
    last_in_is_drawn(marks, w, c);
}

proof fn count_between_grows(marks: Seq<Mark>, w: Window, a: int, b: int)
    requires
        a < b,
    ensures
        count_between(marks, w, a, b) >= count_in(marks, w, a),
    decreases b - a,
{
    if b > a + 1 {
        count_between_grows(marks, w, a, b - 1);
    } else {
        reveal_with_fuel(count_between, 2);
    }
}

proof fn last_in_is_drawn(marks: Seq<Mark>, w: Window, c: int)
    ensures
        last_in(marks, w, c) is Some <==> count_in(marks, w, c) > 0,
        last_in(marks, w, c) is Some ==> w.draws(last_in(marks, w, c)->0, c),
    decreases marks.len(),
{
    if marks.len() > 0 {
        last_in_is_drawn(marks.drop_last(), w, c);
    }
}

/// As many marks are counted in a column as are drawn there.
pub proof fn a_column_counts_what_is_drawn(marks: Seq<Mark>, w: Window, c: int)
    ensures
        count_in(marks, w, c) == marks.filter(
            |m: Mark|
                m.t is Some && w.from <= m.t->0 <= w.to && w.column(m.t->0) == c,
        ).len(),
    decreases marks.len(),
{
    reveal(Seq::filter);
    if marks.len() > 0 {
        a_column_counts_what_is_drawn(marks.drop_last(), w, c);
    }
}

proof fn a_drawn_mark_is_counted(marks: Seq<Mark>, w: Window, i: int)
    requires
        0 <= i < marks.len(),
        w.shows(marks[i].t),
    ensures
        count_in(marks, w, w.column(marks[i].t->0) as int) > 0,
    decreases marks.len(),
{
    if i < marks.len() - 1 {
        a_drawn_mark_is_counted(marks.drop_last(), w, i);
    }
}

/// The runs are the stretches of columns that hold a mark: each begins and ends with its
/// stretch, they come in order with a free column between two, and no column with a mark is
/// outside them.
pub proof fn runs_are_the_occupied_stretches(marks: Seq<Mark>, w: Window, c: int)
    requires
        0 <= c <= w.width,
    ensures
        ({
            let runs = runs_from(marks, w, c);
            &&& forall|k: int|
                0 <= k < runs.len() ==> {
                    &&& c <= (#[trigger] runs[k]).c0 <= runs[k].c1 < w.width
                    &&& forall|x: int|
                        runs[k].c0 <= x <= runs[k].c1 ==> #[trigger] count_in(marks, w, x) > 0
                    &&& runs[k].c1 + 1 < w.width ==> count_in(marks, w, runs[k].c1 + 1) == 0
                    &&& runs[k].count == count_between(marks, w, runs[k].c0, runs[k].c1 + 1)
                    &&& runs[k].one is Some <==> runs[k].count == 1
                }
            &&& forall|j: int, k: int|
                0 <= j < k < runs.len() ==> (#[trigger] runs[j]).c1 + 1 < (#[trigger] runs[k]).c0
            &&& forall|x: int|
                c <= x < w.width && #[trigger] count_in(marks, w, x) > 0 ==> exists|k: int|
                    0 <= k < runs.len() && (#[trigger] runs[k]).c0 <= x <= runs[k].c1
        }),
    decreases w.width - c,
{
    if c < w.width {
        let runs = runs_from(marks, w, c);
        if count_in(marks, w, c) == 0 {
            runs_are_the_occupied_stretches(marks, w, c + 1);
        } else {
            stretch_end_bounds(marks, w, c);
            let end = stretch_end(marks, w, c);
            assert(c < end) by {
                assert(end == stretch_end(marks, w, c + 1));
                stretch_end_bounds(marks, w, c + 1);
            }
            let rest = runs_from(marks, w, end);
            runs_are_the_occupied_stretches(marks, w, end);
            let first = run_at(marks, w, c);
            last_in_is_drawn(marks, w, c);
            assert(runs =~= seq![first] + rest);
            assert(runs[0] == first);
            assert forall|k: int| 0 <= k < rest.len() implies runs[k + 1] == #[trigger] rest[k] by {
            }
            assert forall|k: int| 1 <= k < runs.len() implies #[trigger] runs[k] == rest[k - 1] by {
            }
            assert forall|k: int| 0 <= k < rest.len() implies (#[trigger] rest[k]).c0 > end by {
                if rest[k].c0 == end {
                    assert(count_in(marks, w, end) > 0);
                }
            }
            assert forall|x: int|
                c <= x < w.width && #[trigger] count_in(marks, w, x) > 0 implies exists|k: int|
                0 <= k < runs.len() && (#[trigger] runs[k]).c0 <= x <= runs[k].c1 by {
                if x < end {
                    assert(runs[0].c0 <= x <= runs[0].c1);
                } else {
                    let k = choose|k: int|
                        0 <= k < rest.len() && (#[trigger] rest[k]).c0 <= x <= rest[k].c1;
                    assert(runs[k + 1] == rest[k]);
                }
            }
        }
    }
}

/// Every mark that a window shows is drawn in one of its runs.
pub proof fn every_shown_mark_is_in_a_run(lane: MarkLane, binned: BinnedMarkLane, w: Window, i: int)
    requires
        binned.tells(lane, w),
        w.width > 0,
        0 <= i < lane.marks@.len(),
        lane.marks@[i].t is Some,
        w.from <= lane.marks@[i].t->0 <= w.to,
    ensures
        exists|k: int|
            0 <= k < binned.runs@.len() && (#[trigger] binned.runs@[k]).c0 <= w.column(
                lane.marks@[i].t->0,
            ) <= binned.runs@[k].c1,
{
    let marks = lane.marks@;
    let x = w.column(marks[i].t->0) as int;
    a_drawn_mark_is_counted(marks, w, i);
    runs_are_the_occupied_stretches(marks, w, 0);
    let runs = runs_from(marks, w, 0);
    assert(count_in(marks, w, x) > 0);
    let k = choose|k: int| 0 <= k < runs.len() && (#[trigger] runs[k]).c0 <= x <= runs[k].c1;
    assert(runs_of(binned.runs@)[k] == binned.runs@[k]@);
}

} // verus!
