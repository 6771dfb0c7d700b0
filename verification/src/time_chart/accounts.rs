//! What a chart accounts for: every event of a lane is placed or counted as missed, marks
//! stand in the order of their positions, each has an id of its own that names its lane,
//! and the chart says how many its lanes dropped.

use vstd::prelude::*;
use vstd::string::*;
use crate::projection::Projection;
use crate::sorting::{one_stable_order, stable_order};
use crate::streams::StreamEntry;
use crate::studies_api::table::Grid;
use crate::time_chart::gather::{
    a_window_covers_what_was_stamped, answered, lane_place, lanes_made, makes_lane, marker_lanes,
    some_event_at, some_sample_at, wants, TapRead, Wanted,
};
use crate::time_chart::lanes::{axis_column_of, raws, row_events, RawLane};
use crate::time_chart::marks::{an_id_names_its_row, Mark, MarkLane, LANES, ROWS_PER_LANE};
use crate::time_chart::view::{
    chosen, dropped_to, every_event_is_accounted_for, is_placed, placed_to, sort_key, sort_keys,
    ChartInput, Gathered, StepBands, TimeChartView,
};

verus! {

/// Whether one mark may stand before another: by position, and those without one last. A
/// mark at the last instant there is may stand among those.
pub open spec fn in_order(a: Mark, b: Mark) -> bool {
    match (a.t, b.t) {
        (Some(x), Some(y)) => x <= y,
        (None, Some(y)) => y == u64::MAX,
        (_, None) => true,
    }
}

/// How many of the marks have a position.
pub open spec fn with_position(marks: Seq<Mark>) -> nat
    decreases marks.len(),
{
    if marks.len() == 0 {
        0
    } else {
        with_position(marks.drop_last()) + if marks.last().t is Some {
            1nat
        } else {
            0
        }
    }
}

impl MarkLane {
    /// Whether what a lane counts adds up, and its marks are in order.
    pub open spec fn adds_up(&self) -> bool {
        &&& self.placed == with_position(self.marks@)
        &&& self.placed + self.before + self.after == self.marks@.len()
        &&& self.marks@.len() + self.dropped_by_cap <= self.total
        &&& forall|a: int, b: int|
            0 <= a < b < self.marks@.len() ==> in_order(
                #[trigger] self.marks@[a],
                #[trigger] self.marks@[b],
            )
    }
}

/// The row that event `k` of a lane came from.
pub open spec fn event_row(raw: RawLane, k: int) -> int {
    let natives = raw.native@.len() as int;
    if k < natives {
        raw.native@[k].row_index as int
    } else {
        raw.marks@[k - natives].row_index as int
    }
}

/// What holds of the events of a lane, whichever stream it is of: there are no more of
/// them than the lane's total, and each came from a row of its own among those.
pub open spec fn from_own_rows(raw: RawLane) -> bool {
    let n = raw.native@.len() + raw.marks@.len();
    &&& n + raw.dropped_by_cap <= raw.total
    &&& forall|k: int| 0 <= k < n ==> 0 <= #[trigger] event_row(raw, k) < raw.total
    &&& forall|j: int, k: int|
        0 <= j < k < n ==> #[trigger] event_row(raw, j) != #[trigger] event_row(raw, k)
}

proof fn row_events_are_of_rows(g: Grid, gatt: bool, stamp: int, n: int)
    requires
        0 <= n,
    ensures
        row_events(g, gatt, stamp, n).len() <= n,
        forall|k: int|
            0 <= k < row_events(g, gatt, stamp, n).len() ==> (#[trigger] row_events(
                g,
                gatt,
                stamp,
                n,
            )[k]).row_index < n,
        forall|j: int, k: int|
            0 <= j < k < row_events(g, gatt, stamp, n).len() ==> (#[trigger] row_events(
                g,
                gatt,
                stamp,
                n,
            )[j]).row_index < (#[trigger] row_events(g, gatt, stamp, n)[k]).row_index,
    decreases n,
{
    if n > 0 {
        row_events_are_of_rows(g, gatt, stamp, n - 1);
    }
}

proof fn a_stream_gives_own_rows(lane: RawLane, e: StreamEntry, read: TapRead)
    requires
        makes_lane(e),
        match wants(e) {
            Wanted::Nothing => true,
            Wanted::Table => read is Table || read is Failed,
            Wanted::Text => read is Bytes || read is Failed,
        },
        lane.is_of(e, read),
    ensures
        from_own_rows(lane),
{
    if let TapRead::Table(table) = read {
        if let Some(stamp) = axis_column_of(table@.columns) {
            let gatt = lane.kind@ == "gatt"@;
            let n = table@.rows.len() as int;
            row_events_are_of_rows(table@, gatt, stamp, n);
            let events = row_events(table@, gatt, stamp, n);
            if lane.native@.len() == 0 && lane.marks@.len() > 0 {
                assert(raws(lane.marks@).len() == lane.marks@.len());
                assert forall|k: int| 0 <= k < lane.marks@.len() implies #[trigger] event_row(lane, k)
                    == events[k].row_index by {
                    assert(raws(lane.marks@)[k] == lane.marks@[k]@);
                }
            }
        }
    }
}

/// Each lane is the markers' or some stream's.
proof fn a_lane_is_of_a_stream(entries: Seq<StreamEntry>, n: int, at: int) -> (k: int)
    requires
        0 <= n <= entries.len(),
        0 <= at < lanes_made(entries, n),
    ensures
        0 <= k < n,
        makes_lane(entries[k]),
        lanes_made(entries, k) == at,
    decreases n,
{
    if n > 0 && at < lanes_made(entries, n - 1) {
        a_lane_is_of_a_stream(entries, n - 1, at)
    } else {
        n - 1
    }
}

proof fn lanes_are_from_own_rows(input: ChartInput, gathered: Gathered, i: int)
    requires
        answered(input.entries@, input.reads@),
        gathered.is_of(input),
        0 <= i < gathered.lanes@.len(),
    ensures
        from_own_rows(gathered.lanes@[i]),
{
    let markers = marker_lanes(input.trace) as int;
    if i < markers {
        assert(gathered.lanes@[0].holds_markers(input.trace->0));
    } else {
        let n = input.entries@.len() as int;
        let k = a_lane_is_of_a_stream(input.entries@, n, i - markers);
        assert(lane_place(input.trace, input.entries@, k) == i);
        assert(makes_lane(input.entries@[k]));
        a_stream_gives_own_rows(gathered.lanes@[i], input.entries@[k], input.reads@[k]);
    }
}

proof fn marks_are_of_events(lane: MarkLane, raw: RawLane, at: int, proj: Projection) -> (order: Seq<
    usize,
>)
    requires
        lane.places(raw, at, proj),
    ensures
        stable_order(sort_keys(raw, proj), order),
        lane.marks@.len() == order.len(),
        forall|k: int|
            0 <= k < order.len() ==> is_placed(
                #[trigger] lane.marks@[k],
                raw,
                at,
                proj,
                order[k] as int,
            ),
{
    choose|order: Seq<usize>|
        {
            &&& stable_order(sort_keys(raw, proj), order)
            &&& lane.marks@.len() == order.len()
            &&& forall|k: int|
                0 <= k < order.len() ==> is_placed(
                    #[trigger] lane.marks@[k],
                    raw,
                    at,
                    proj,
                    order[k] as int,
                )
        }
}

/// How many of a list hold.
pub open spec fn holding(list: Seq<bool>) -> nat
    decreases list.len(),
{
    if list.len() == 0 {
        0
    } else {
        holding(list.drop_last()) + if list.last() {
            1nat
        } else {
            0
        }
    }
}

proof fn one_less_is_holding(list: Seq<bool>, i: int)
    requires
        0 <= i < list.len(),
    ensures
        holding(list) == holding(list.remove(i)) + if list[i] {
            1nat
        } else {
            0
        },
    decreases list.len(),
{
    if i == list.len() - 1 {
        assert(list.remove(i) =~= list.drop_last());
    } else {
        one_less_is_holding(list.drop_last(), i);
        assert(list.remove(i).drop_last() =~= list.drop_last().remove(i));
        assert(list.remove(i).last() == list.last());
    }
}

/// In whatever order a list is taken, as many of it hold.
pub proof fn any_order_holds_as_many(list: Seq<bool>, order: Seq<int>)
    requires
        order.len() == list.len(),
        order.no_duplicates(),
        forall|i: int| 0 <= i < order.len() ==> 0 <= #[trigger] order[i] < list.len(),
        forall|k: int| 0 <= k < list.len() ==> #[trigger] order.contains(k),
    ensures
        holding(Seq::new(order.len(), |i: int| list[order[i]])) == holding(list),
    decreases list.len(),
{
    let taken = Seq::new(order.len(), |i: int| list[order[i]]);
    if list.len() > 0 {
        let n = list.len() - 1;
        assert(order.contains(n));
        let at = order.index_of(n);
        let rest = order.remove(at);
        let fewer = list.drop_last();
        assert forall|i: int| 0 <= i < rest.len() implies 0 <= #[trigger] rest[i] < fewer.len() by {
            let j = if i < at { i } else { i + 1 };
            assert(rest[i] == order[j]);
            assert(order[j] != order[at]);
        }
        assert forall|k: int| 0 <= k < fewer.len() implies #[trigger] rest.contains(k) by {
            assert(order.contains(k));
            let j = order.index_of(k);
            assert(rest[if j < at { j } else { j - 1 }] == k);
        }
        any_order_holds_as_many(fewer, rest);
        one_less_is_holding(taken, at);
        assert(taken.remove(at) =~= Seq::new(rest.len(), |i: int| fewer[rest[i]]));
    } else {
        assert(taken =~= list);
    }
}

proof fn marks_with_a_position(marks: Seq<Mark>)
    ensures
        with_position(marks) == holding(Seq::new(marks.len(), |i: int| marks[i].t is Some)),
    decreases marks.len(),
{
    let list = Seq::new(marks.len(), |i: int| marks[i].t is Some);
    if marks.len() > 0 {
        let fewer = marks.drop_last();
        marks_with_a_position(fewer);
        assert(list.drop_last() =~= Seq::new(fewer.len(), |i: int| fewer[i].t is Some));
    }
}

/// Whether event `k` of a lane has a position.
spec fn event_placed(raw: RawLane, proj: Projection, k: int) -> bool {
    let natives = raw.native@.len() as int;
    k < natives || proj.position(raw.marks@[k - natives].core_rx_utc_ms) is Some
}

proof fn events_with_a_position(raw: RawLane, proj: Projection, n: int)
    requires
        0 <= n <= raw.native@.len() + raw.marks@.len(),
    ensures
        n <= raw.native@.len() ==> holding(
            Seq::new(n as nat, |k: int| event_placed(raw, proj, k)),
        ) == n,
        n >= raw.native@.len() ==> holding(
            Seq::new(n as nat, |k: int| event_placed(raw, proj, k)),
        ) == raw.native@.len() + placed_to(raw.marks@, proj, n - raw.native@.len()),
    decreases n,
{
    let list = Seq::new(n as nat, |k: int| event_placed(raw, proj, k));
    if n > 0 {
        events_with_a_position(raw, proj, n - 1);
        assert(list.drop_last() =~= Seq::new(
            (n - 1) as nat,
            |k: int| event_placed(raw, proj, k),
        ));
    }
}

proof fn marks_are_counted(lane: MarkLane, raw: RawLane, at: int, proj: Projection)
    requires
        lane.places(raw, at, proj),
    ensures
        lane.placed == with_position(lane.marks@),
{
    let order = marks_are_of_events(lane, raw, at, proj);
    let keys = sort_keys(raw, proj);
    let n = keys.len() as int;
    let list = Seq::new(n as nat, |k: int| event_placed(raw, proj, k));
    let taken = Seq::new(order.len(), |i: int| order[i] as int);
    assert forall|k: int| 0 <= k < n implies #[trigger] taken.contains(k) by {
        assert(lane.marks.len() == order.len());
        assert(order.contains(k as usize));
        assert(taken[order.index_of(k as usize)] == k);
    }
    any_order_holds_as_many(list, taken);
    marks_with_a_position(lane.marks@);
    assert forall|i: int| 0 <= i < lane.marks@.len() implies (#[trigger] lane.marks@[i]).t is Some
        == list[taken[i]] by {
        assert(is_placed(lane.marks@[i], raw, at, proj, order[i] as int));
    }
    assert(Seq::new(lane.marks@.len(), |i: int| lane.marks@[i].t is Some) =~= Seq::new(
        taken.len(),
        |i: int| list[taken[i]],
    ));
    events_with_a_position(raw, proj, n);
}

/// What a chart shows of each lane adds up: as many marks have a position as it says are
/// placed; every event that was kept is placed, or missed
/// before the window or after it; what was kept and what was dropped is no more than the
/// lane's total; and the marks are in order.
pub proof fn every_lane_adds_up(
    view: TimeChartView,
    input: ChartInput,
    gathered: Gathered,
    values: Seq<Vec<Option<u64>>>,
    steps: Option<StepBands>,
    proj: Projection,
    i: int,
)
    requires
        input.wf(),
        gathered.is_of(input),
        view.tells(input, gathered, values, steps, proj),
        0 <= i < view.lanes@.len(),
    ensures
        view.lanes@[i].adds_up(),
{
    let lane = view.lanes@[i];
    let raw = gathered.lanes@[i];
    lanes_are_from_own_rows(input, gathered, i);
    assert(lane.places(raw, i, proj));
    every_event_is_accounted_for(raw.marks@, proj, raw.marks@.len() as int);
    marks_are_counted(lane, raw, i, proj);
    let keys = sort_keys(raw, proj);
    let order = marks_are_of_events(lane, raw, i, proj);
    assert forall|a: int, b: int| 0 <= a < b < lane.marks@.len() implies in_order(
        #[trigger] lane.marks@[a],
        #[trigger] lane.marks@[b],
    ) by {
        assert(is_placed(lane.marks@[a], raw, i, proj, order[a] as int));
        assert(is_placed(lane.marks@[b], raw, i, proj, order[b] as int));
        assert(keys[order[a] as int] == sort_key(raw, proj, order[a] as int));
        assert(keys[order[b] as int] == sort_key(raw, proj, order[b] as int));
    }
}

/// A study that no trace draws is drawn over everything it stamped: its axis covers both
/// edges of every step and every event, and each end of it is one of those or a sample.
pub proof fn an_axis_covers_every_step(
    view: TimeChartView,
    input: ChartInput,
    gathered: Gathered,
    values: Seq<Vec<Option<u64>>>,
    steps: Option<StepBands>,
)
    requires
        input.wf(),
        gathered.is_of(input),
        input.trace_axis is None,
        gathered.window is Some,
        view.tells(
            input,
            gathered,
            values,
            steps,
            chosen(input.trace_axis, gathered.window),
        ),
    ensures
        view.axis.placeable,
        view.axis.t_from <= view.axis.t_to,
        view.axis.window_from_ms == view.axis.t_from,
        view.axis.window_to_ms == view.axis.t_to,
        forall|k: int|
            0 <= k < input.steps@.len() ==> view.axis.t_from <= (
            #[trigger] input.steps@[k]).started_utc_ms && input.steps@[k].ended_utc_ms
                <= view.axis.t_to,
        forall|i: int, k: int|
            0 <= i < gathered.lanes@.len() && 0 <= k < gathered.lanes@[i].marks@.len()
                ==> view.axis.t_from <= (
            #[trigger] gathered.lanes@[i].marks@[k]).core_rx_utc_ms <= view.axis.t_to,
        some_event_at(gathered.lanes@, view.axis.t_from as nat) || some_sample_at(
            input.reads@,
            gathered.sampled@,
            view.axis.t_from as nat,
        ) || exists|k: int|
            0 <= k < input.steps@.len() && view.axis.t_from == (
            #[trigger] input.steps@[k]).started_utc_ms,
        some_event_at(gathered.lanes@, view.axis.t_to as nat) || some_sample_at(
            input.reads@,
            gathered.sampled@,
            view.axis.t_to as nat,
        ) || exists|k: int|
            0 <= k < input.steps@.len() && view.axis.t_to == (
            #[trigger] input.steps@[k]).ended_utc_ms,
{
    a_window_covers_what_was_stamped(
        input.steps@,
        gathered.lanes@,
        input.reads@,
        gathered.sampled@,
    );
    assert forall|i: int, k: int|
        0 <= i < gathered.lanes@.len() && 0 <= k < gathered.lanes@[i].marks@.len() implies view.axis.t_from
        <= (#[trigger] gathered.lanes@[i].marks@[k]).core_rx_utc_ms <= view.axis.t_to by {
        assert(some_event_at(
            gathered.lanes@,
            gathered.lanes@[i].marks@[k].core_rx_utc_ms as nat,
        ));
    }
}

/// Where a study has no window, there is nothing of it to draw: no event, no sample, and no
/// step that ends after one begins.
pub proof fn a_study_without_a_window_stamped_nothing(input: ChartInput, gathered: Gathered)
    requires
        input.wf(),
        gathered.is_of(input),
        gathered.window is None,
    ensures
        forall|i: int|
            0 <= i < gathered.lanes@.len() ==> (#[trigger] gathered.lanes@[i]).marks@.len() == 0,
        forall|ms: nat| !#[trigger] some_sample_at(input.reads@, gathered.sampled@, ms),
        forall|k: int|
            0 <= k < input.steps@.len() ==> (#[trigger] input.steps@[k]).ended_utc_ms
                < input.steps@[k].started_utc_ms,
{
    a_window_covers_what_was_stamped(
        input.steps@,
        gathered.lanes@,
        input.reads@,
        gathered.sampled@,
    );
    assert forall|i: int| 0 <= i < gathered.lanes@.len() implies (
    #[trigger] gathered.lanes@[i]).marks@.len() == 0 by {
        if gathered.lanes@[i].marks@.len() > 0 {
            assert(some_event_at(
                gathered.lanes@,
                gathered.lanes@[i].marks@[0].core_rx_utc_ms as nat,
            ));
        }
    }
}

/// Marks past their lane's cap, over the first `n` lanes of a chart.
pub open spec fn dropped_over(lanes: Seq<MarkLane>, n: int) -> int
    decreases n,
{
    if n <= 0 {
        0
    } else {
        dropped_over(lanes, n - 1) + lanes[n - 1].dropped_by_cap
    }
}

proof fn lanes_drop_as_many(
    lanes: Seq<MarkLane>,
    raws: Seq<RawLane>,
    proj: Projection,
    n: int,
)
    requires
        0 <= n <= lanes.len(),
        forall|i: int| 0 <= i < lanes.len() ==> (#[trigger] lanes[i]).places(raws[i], i, proj),
    ensures
        dropped_over(lanes, n) == dropped_to(raws, n),
    decreases n,
{
    if n > 0 {
        lanes_drop_as_many(lanes, raws, proj, n - 1);
        assert(lanes[n - 1].places(raws[n - 1], n - 1, proj));
    }
}

/// A chart says how many marks its lanes dropped in all, and starts at the first epoch.
pub proof fn a_chart_says_what_its_lanes_dropped(
    view: TimeChartView,
    input: ChartInput,
    gathered: Gathered,
    values: Seq<Vec<Option<u64>>>,
    steps: Option<StepBands>,
    proj: Projection,
)
    requires
        input.wf(),
        gathered.is_of(input),
        view.tells(input, gathered, values, steps, proj),
    ensures
        view.marks_dropped_by_cap == dropped_over(view.lanes@, view.lanes@.len() as int),
        view.axis_epoch == 0,
{
    lanes_drop_as_many(view.lanes@, gathered.lanes@, proj, view.lanes@.len() as int);
}

/// Each mark's id names its lane.
pub proof fn every_mark_names_its_lane(
    view: TimeChartView,
    input: ChartInput,
    gathered: Gathered,
    values: Seq<Vec<Option<u64>>>,
    steps: Option<StepBands>,
    proj: Projection,
    i: int,
    a: int,
)
    requires
        input.wf(),
        gathered.is_of(input),
        view.tells(input, gathered, values, steps, proj),
        0 <= i < view.lanes@.len(),
        i < LANES,
        0 <= a < view.lanes@[i].marks@.len(),
    ensures
        view.lanes@[i].marks@[a].id as int / ROWS_PER_LANE as int == i,
{
    let raw = gathered.lanes@[i];
    assert(view.lanes@[i].places(raw, i, proj));
    let order = marks_are_of_events(view.lanes@[i], raw, i, proj);
    assert(is_placed(view.lanes@[i].marks@[a], raw, i, proj, order[a] as int));
    an_id_names_its_row(i, event_row(raw, order[a] as int) % ROWS_PER_LANE as int);
}

/// Each mark of a chart has an id of its own: no two marks of a chart have the same.
pub proof fn every_mark_has_an_id_of_its_own(
    view: TimeChartView,
    input: ChartInput,
    gathered: Gathered,
    values: Seq<Vec<Option<u64>>>,
    steps: Option<StepBands>,
    proj: Projection,
    i: int,
    a: int,
    j: int,
    b: int,
)
    requires
        input.wf(),
        gathered.is_of(input),
        view.tells(input, gathered, values, steps, proj),
        view.lanes@.len() <= LANES,
        0 <= i < view.lanes@.len(),
        0 <= j < view.lanes@.len(),
        view.lanes@[i].total <= ROWS_PER_LANE,
        view.lanes@[j].total <= ROWS_PER_LANE,
        0 <= a < view.lanes@[i].marks@.len(),
        0 <= b < view.lanes@[j].marks@.len(),
        i != j || a != b,
    ensures
        view.lanes@[i].marks@[a].id != view.lanes@[j].marks@[b].id,
{
    let first = marks_are_of_events(view.lanes@[i], gathered.lanes@[i], i, proj);
    let second = marks_are_of_events(view.lanes@[j], gathered.lanes@[j], j, proj);
    lanes_are_from_own_rows(input, gathered, i);
    lanes_are_from_own_rows(input, gathered, j);
    let raw = gathered.lanes@[i];
    let other = gathered.lanes@[j];
    assert(view.lanes@[i].places(raw, i, proj));
    assert(view.lanes@[j].places(other, j, proj));
    let p = first[a] as int;
    let q = second[b] as int;
    assert(is_placed(view.lanes@[i].marks@[a], raw, i, proj, p));
    assert(is_placed(view.lanes@[j].marks@[b], other, j, proj, q));
    an_id_names_its_row(i, event_row(raw, p));
    an_id_names_its_row(j, event_row(other, q));
    if i == j {
        one_stable_order(sort_keys(raw, proj), first, second);
        if p < q {
            assert(event_row(raw, p) != event_row(raw, q));
        } else if q < p {
            assert(event_row(raw, q) != event_row(raw, p));
        }
    }
}

} // verus!
