//! One numeric column of a tap, binned for a plot: the least, the greatest and the
//! number of its values in each bin.

use vstd::prelude::*;
use vstd::string::*;
use crate::reading::{below, below_is_an_order, extend, extended, Extent};
use crate::studies_api::column::{is_number, numeric};
use crate::studies_api::table::{cell_at, column_of, column_of_is, opt_index, position, Grid, Table};
use crate::text::{opt_view, texts, trim, trimmed};
use crate::time_chart::lanes::{join, listed_with};

verus! {

/// Bins in one answer.
pub const MAX_SERIES_BINS: usize = 4_000;

/// Why a series cannot be drawn.
#[derive(Debug)]
pub enum SeriesError {
    /// No column was named, and none can be plotted.
    NothingToPlot(String),
    /// The column that was named is not there.
    NoSuchColumn(String),
}

/// Which column is plotted, and against which.
#[derive(Debug)]
pub struct SeriesPlan {
    pub column: String,
    pub column_index: usize,
    /// The tap's own stamp; where it has none, the plot is against the row's number.
    pub time_column: Option<String>,
    pub time_index: Option<usize>,
    pub numeric_columns: Vec<String>,
}

/// The column that is plotted: the one named, else the first numeric one.
pub open spec fn asked_column(g: Grid, named: Option<Seq<char>>) -> Option<Seq<char>> {
    match named {
        Some(c) => Some(c),
        None => if g.numeric_names().len() > 0 {
            Some(g.numeric_names()[0])
        } else {
            None
        },
    }
}

pub open spec fn nothing_to_plot(tap: Seq<char>, g: Grid) -> Seq<char> {
    "tap '"@ + tap + "' has no numeric column to plot — its columns are: "@ + listed_with(
        g.columns,
        ", "@,
    )
}

pub open spec fn no_such_column(tap: Seq<char>, column: Seq<char>, g: Grid) -> Seq<char> {
    "tap '"@ + tap + "' has no column named '"@ + column + "' — it has: "@ + listed_with(
        g.columns,
        ", "@,
    )
}

impl SeriesPlan {
    /// Whether this plots `column` of the table.
    pub open spec fn plots(&self, g: Grid, column: Seq<char>) -> bool {
        &&& self.column@ == column
        &&& Some(self.column_index as int) == column_of(g.columns, column)
        &&& opt_view(self.time_column) == g.stamp_name()
        &&& opt_index(self.time_index) == (match g.stamp_name() {
            Some(stamp) => column_of(g.columns, stamp),
            None => None,
        })
        &&& texts(self.numeric_columns@) == g.numeric_names()
    }
}

/// Decides which column of a tap is plotted, and against which.
pub fn series_plan(tap: &str, table: &Table, column: &Option<String>) -> (r: Result<
    SeriesPlan,
    SeriesError,
>)
    ensures
        match asked_column(table@, opt_view(*column)) {
            None => r matches Err(SeriesError::NothingToPlot(e)) && e@ == nothing_to_plot(
                tap@,
                table@,
            ),
            Some(c) => match column_of(table@.columns, c) {
                Some(i) => r matches Ok(plan) && plan.plots(table@, c),
                None => r matches Err(SeriesError::NoSuchColumn(e)) && e@ == no_such_column(
                    tap@,
                    c,
                    table@,
                ),
            },
        },
{
    let numeric_columns = table.numeric_columns();
    assert(texts(numeric_columns@).len() == numeric_columns@.len());
    let asked = match column {
        Some(c) => c.clone(),
        None => {
            if numeric_columns.len() == 0 {
                let mut e = "tap '".to_owned();
                e.append(tap);
                e.append("' has no numeric column to plot — its columns are: ");
                e.append(join(&table.columns, ", ").as_str());
                return Err(SeriesError::NothingToPlot(e));
            }
            assert(texts(numeric_columns@)[0] == numeric_columns@[0]@);
            numeric_columns[0].clone()
        },
    };
    match position(&table.columns, asked.as_str()) {
        None => {
            let mut e = "tap '".to_owned();
            e.append(tap);
            e.append("' has no column named '");
            e.append(asked.as_str());
            e.append("' — it has: ");
            e.append(join(&table.columns, ", ").as_str());
            Err(SeriesError::NoSuchColumn(e))
        },
        Some(column_index) => {
            let time_column = table.time_column();
            let time_index = match &time_column {
                Some(stamp) => position(&table.columns, stamp.as_str()),
                None => None,
            };
            Ok(
                SeriesPlan {
                    column: asked,
                    column_index,
                    time_column,
                    time_index,
                    numeric_columns,
                },
            )
        },
    }
}

/// One value to plot, as it is written.
#[derive(Debug)]
pub struct SeriesCell {
    pub row: usize,
    pub value: String,
    /// Where it stands; its row where that is not written as a number.
    pub x: Option<String>,
}

/// What a [`SeriesCell`] says.
pub ghost struct CellState {
    pub row: int,
    pub value: Seq<char>,
    pub x: Option<Seq<char>>,
}

impl View for SeriesCell {
    type V = CellState;

    open spec fn view(&self) -> CellState {
        CellState { row: self.row as int, value: self.value@, x: opt_view(self.x) }
    }
}

pub open spec fn cells_of(list: Seq<SeriesCell>) -> Seq<CellState> {
    Seq::new(list.len(), |i: int| list[i]@)
}

/// A cell where it reads as a number, trimmed.
pub open spec fn number_cell(row: Seq<Seq<char>>, column: Option<int>) -> Option<Seq<char>> {
    match cell_at(row, column) {
        Some(c) if numeric(trimmed(c)) => Some(trimmed(c)),
        _ => None,
    }
}

/// The values of the first `n` rows that read as numbers.
pub open spec fn plottable(g: Grid, column: int, time: Option<int>, n: int) -> Seq<CellState>
    decreases n,
{
    if n <= 0 {
        Seq::empty()
    } else {
        let before = plottable(g, column, time, n - 1);
        match number_cell(g.rows[n - 1], Some(column)) {
            Some(value) => before.push(
                CellState { row: n - 1, value, x: number_cell(g.rows[n - 1], time) },
            ),
            None => before,
        }
    }
}

/// How many of the first `n` rows hold something in the column that is no number.
pub open spec fn unreadable(g: Grid, column: int, n: int) -> nat
    decreases n,
{
    if n <= 0 {
        0
    } else {
        unreadable(g, column, n - 1) + if column < g.rows[n - 1].len() && number_cell(
            g.rows[n - 1],
            Some(column),
        ) is None {
            1nat
        } else {
            0
        }
    }
}

fn number_at(table: &Table, i: usize, column: Option<usize>) -> (r: Option<String>)
    requires
        i < table.rows.len(),
    ensures
        opt_view(r) == number_cell(table@.rows[i as int], opt_index(column)),
{
    match column {
        Some(c) => if c < table.rows[i].len() {
            assert(table@.rows[i as int][c as int] == table.rows@[i as int]@[c as int]@);
            let t = trim(table.rows[i][c].as_str());
            if is_number(t.as_str()) {
                Some(t)
            } else {
                None
            }
        } else {
            None
        },
        None => None,
    }
}

/// The values to plot, as they are written, and how many rows hold something else.
pub fn series_cells(table: &Table, plan: &SeriesPlan) -> (r: (Vec<SeriesCell>, usize))
    ensures
        cells_of(r.0@) == plottable(
            table@,
            plan.column_index as int,
            opt_index(plan.time_index),
            table@.rows.len() as int,
        ),
        r.1 == unreadable(table@, plan.column_index as int, table@.rows.len() as int),
{
    let mut out: Vec<SeriesCell> = Vec::new();
    let mut unparsed: usize = 0;
    let ghost c = plan.column_index as int;
    let ghost time = opt_index(plan.time_index);
    assert(cells_of(out@) =~= Seq::empty());
    for i in 0..table.rows.len()
        invariant
            c == plan.column_index,
            time == opt_index(plan.time_index),
            cells_of(out@) == plottable(table@, c, time, i as int),
            unparsed == unreadable(table@, c, i as int),
            unparsed <= i,
    {
        match number_at(table, i, Some(plan.column_index)) {
            Some(value) => {
                let ghost was = cells_of(out@);
                let cell = SeriesCell { row: i, value, x: number_at(table, i, plan.time_index) };
                out.push(cell);
                assert(cells_of(out@) =~= was.push(cell@));
            },
            None => {
                if plan.column_index < table.rows[i].len() {
                    unparsed = unparsed + 1;
                }
            },
        }
    }
    (out, unparsed)
}

/// How many bins are drawn: as many as are asked for, within bounds.
pub fn series_width(width: Option<usize>) -> (r: usize)
    ensures
        r == (match width {
            Some(n) => if n < 1 {
                1
            } else if n > MAX_SERIES_BINS {
                MAX_SERIES_BINS
            } else {
                n
            },
            None => 600,
        }),
        1 <= r <= MAX_SERIES_BINS,
{
    match width {
        Some(n) => if n < 1 {
            1
        } else if n > MAX_SERIES_BINS {
            MAX_SERIES_BINS
        } else {
            n
        },
        None => 600,
    }
}

/// The extent of bin `slot`, over the first `n` values.
pub open spec fn slot_extent(values: Seq<u64>, slots: Seq<Option<usize>>, slot: int, n: int) -> Option<
    Extent,
>
    decreases n,
{
    if n <= 0 {
        None
    } else {
        let before = slot_extent(values, slots, slot, n - 1);
        if slots[n - 1] is Some && slots[n - 1]->0 == slot {
            Some(extended(before, values[n - 1]))
        } else {
            before
        }
    }
}

proof fn slot_extent_counts(values: Seq<u64>, slots: Seq<Option<usize>>, slot: int, n: int)
    requires
        0 <= n <= u64::MAX,
    ensures
        slot_extent(values, slots, slot, n) is Some ==> slot_extent(
            values,
            slots,
            slot,
            n,
        )->0.count <= n,
    decreases n,
{
    if n > 0 {
        slot_extent_counts(values, slots, slot, n - 1);
    }
}

/// The extent of each bin. `slots` holds the bin of each value, and nothing where it is
/// outside the window.
pub fn fold_bins(values: &Vec<u64>, slots: &Vec<Option<usize>>, width: usize) -> (r: Vec<
    Option<Extent>,
>)
    requires
        values@.len() == slots@.len(),
        forall|i: int|
            0 <= i < slots@.len() && (#[trigger] slots@[i]) is Some ==> slots@[i]->0 < width,
    ensures
        r@.len() == width,
        forall|c: int|
            0 <= c < width ==> #[trigger] r@[c] == slot_extent(
                values@,
                slots@,
                c,
                values@.len() as int,
            ),
{
    let mut bins: Vec<Option<Extent>> = Vec::new();
    for c in 0..width
        invariant
            bins.len() == c,
            forall|k: int| 0 <= k < c ==> (#[trigger] bins@[k]) is None,
    {
        bins.push(None);
    }
    for i in 0..values.len()
        invariant
            values@.len() == slots@.len(),
            forall|k: int|
                0 <= k < slots@.len() && (#[trigger] slots@[k]) is Some ==> slots@[k]->0 < width,
            bins.len() == width,
            forall|c: int|
                0 <= c < width ==> #[trigger] bins@[c] == slot_extent(values@, slots@, c, i as int),
    {
        let ghost was = bins@;
        if let Some(c) = slots[i] {
            proof {
                assert(slots@[i as int] is Some);
                slot_extent_counts(values@, slots@, c as int, i as int);
                assert(was[c as int] == slot_extent(values@, slots@, c as int, i as int));
            }
            let grown = extend(bins[c], values[i]);
            bins.set(c, Some(grown));
        }
        assert forall|c: int| 0 <= c < width implies #[trigger] bins@[c] == slot_extent(
            values@,
            slots@,
            c,
            i + 1,
        ) by {
            assert(was[c] == slot_extent(values@, slots@, c, i as int));
        }
    }
    bins
}

// ---- laws --------------------------------------------------------------------

/// The column that is named is the one that is plotted, whatever it holds; where none is
/// named it is the first that holds numbers.
pub proof fn the_named_column_is_plotted(g: Grid, named: Option<Seq<char>>)
    ensures
        named is Some ==> asked_column(g, named) == named,
        named is None && g.numeric_names().len() > 0 ==> asked_column(g, named) == Some(
            g.numeric_names()[0],
        ),
        named is None && g.numeric_names().len() == 0 ==> asked_column(g, named) is None,
{
}

/// Each value that is plotted is its own row's, without the whitespace around it, and stands
/// where that row says; the rows come in order, each once, and every row whose cell reads as
/// a number is among them.
pub proof fn each_value_is_its_rows_own(g: Grid, column: int, time: Option<int>, n: int)
    requires
        0 <= column,
        0 <= n <= g.rows.len(),
    ensures
        ({
            let cells = plottable(g, column, time, n);
            &&& forall|k: int|
                0 <= k < cells.len() ==> {
                    let row = g.rows[(#[trigger] cells[k]).row];
                    &&& 0 <= cells[k].row < n
                    &&& column < row.len()
                    &&& cells[k].value == trimmed(row[column])
                    &&& numeric(cells[k].value)
                    &&& cells[k].x is Some ==> time is Some && 0 <= time->0 < row.len()
                        && cells[k].x->0 == trimmed(row[time->0]) && numeric(cells[k].x->0)
                    &&& time is Some && 0 <= time->0 < row.len() && numeric(
                        trimmed(row[time->0]),
                    ) ==> cells[k].x is Some
                }
            &&& forall|j: int, k: int|
                0 <= j < k < cells.len() ==> (#[trigger] cells[j]).row < (#[trigger] cells[k]).row
            &&& forall|i: int|
                0 <= i < n && column < (#[trigger] g.rows[i]).len() && numeric(
                    trimmed(g.rows[i][column]),
                ) ==> exists|k: int| 0 <= k < cells.len() && (#[trigger] cells[k]).row == i
        }),
    decreases n,
{
    if n > 0 {
        each_value_is_its_rows_own(g, column, time, n - 1);
        let before = plottable(g, column, time, n - 1);
        let cells = plottable(g, column, time, n);
        assert forall|i: int|
            0 <= i < n && column < (#[trigger] g.rows[i]).len() && numeric(
                trimmed(g.rows[i][column]),
            ) implies exists|k: int| 0 <= k < cells.len() && (#[trigger] cells[k]).row == i by {
            if i < n - 1 {
                let k = choose|k: int| 0 <= k < before.len() && (#[trigger] before[k]).row == i;
                assert(cells[k] == before[k]);
            } else {
                assert(cells[cells.len() - 1].row == i);
            }
        }
        assert forall|k: int| 0 <= k < before.len() implies cells[k] == #[trigger] before[k] by {}
    }
}

/// Every row that has the column is either plotted or counted as unreadable.
pub proof fn every_row_is_plotted_or_counted(g: Grid, column: int, time: Option<int>, n: int)
    requires
        0 <= column,
        0 <= n <= g.rows.len(),
    ensures
        plottable(g, column, time, n).len() + unreadable(g, column, n) == g.rows.take(n).filter(
            |row: Seq<Seq<char>>| column < row.len(),
        ).len(),
    decreases n,
{
    reveal(Seq::filter);
    if n > 0 {
        every_row_is_plotted_or_counted(g, column, time, n - 1);
        assert(g.rows.take(n).drop_last() =~= g.rows.take(n - 1));
        assert(g.rows.take(n).last() == g.rows[n - 1]);
    }
}

/// A bin says the least and the greatest of the values that fall in it, both among them, and
/// how many there are; a bin that nothing falls in says nothing.
pub proof fn a_bin_spans_its_values(
    values: Seq<u64>,
    slots: Seq<Option<usize>>,
    slot: int,
    n: int,
)
    requires
        0 <= n <= values.len(),
        n <= slots.len(),
        n < u64::MAX,
    ensures
        match slot_extent(values, slots, slot, n) {
            Some(e) => {
                &&& exists|i: int| 0 <= i < n && #[trigger] falls_in(slots, slot, i) && values[i]
                    == e.min_bits
                &&& exists|i: int| 0 <= i < n && #[trigger] falls_in(slots, slot, i) && values[i]
                    == e.max_bits
                &&& forall|i: int|
                    0 <= i < n && #[trigger] falls_in(slots, slot, i) ==> !below(
                        values[i],
                        e.min_bits,
                    ) && !below(e.max_bits, values[i])
                &&& e.count == Seq::new(n as nat, |i: int| i).filter(
                    |i: int| falls_in(slots, slot, i),
                ).len()
            },
            None => forall|i: int| 0 <= i < n ==> !#[trigger] falls_in(slots, slot, i),
        },
    decreases n,
{
    reveal(Seq::filter);
    let all = Seq::new(n as nat, |i: int| i);
    let test = |i: int| falls_in(slots, slot, i);
    if n > 0 {
        a_bin_spans_its_values(values, slots, slot, n - 1);
        assert(all.drop_last() =~= Seq::new((n - 1) as nat, |i: int| i));
        a_filter_is_no_longer(all.drop_last(), test);
        let before = slot_extent(values, slots, slot, n - 1);
        let v = values[n - 1];
        if falls_in(slots, slot, n - 1) {
            if before is None {
                none_is_kept(all.drop_last(), test);
            } else {
                let e = before->0;
                assert forall|i: int|
                    0 <= i < n && #[trigger] falls_in(slots, slot, i) implies !below(
                    values[i],
                    extended(before, v).min_bits,
                ) && !below(extended(before, v).max_bits, values[i]) by {
                    below_is_an_order(values[i], v, e.min_bits);
                    below_is_an_order(e.max_bits, v, values[i]);
                    below_is_an_order(v, v, v);
                }
            }
        }
    } else {
        assert(all =~= Seq::empty());
    }
}

proof fn a_filter_is_no_longer(s: Seq<int>, test: spec_fn(int) -> bool)
    ensures
        s.filter(test).len() <= s.len(),
    decreases s.len(),
{
    reveal(Seq::filter);
    if s.len() > 0 {
        a_filter_is_no_longer(s.drop_last(), test);
    }
}

proof fn none_is_kept(s: Seq<int>, test: spec_fn(int) -> bool)
    requires
        forall|i: int| 0 <= i < s.len() ==> !test(#[trigger] s[i]),
    ensures
        s.filter(test).len() == 0,
    decreases s.len(),
{
    reveal(Seq::filter);
    if s.len() > 0 {
        none_is_kept(s.drop_last(), test);
        assert(!test(s[s.len() - 1]));
    }
}

/// Whether value `i` falls in bin `slot`.
pub open spec fn falls_in(slots: Seq<Option<usize>>, slot: int, i: int) -> bool {
    slots[i] is Some && slots[i]->0 == slot
}

/// A plan names the first column of the name that was asked for, and the table's own stamp
/// with the first column of that name, where it has one.
pub proof fn a_plan_names_its_columns(plan: SeriesPlan, g: Grid, column: Seq<char>)
    requires
        plan.plots(g, column),
    ensures
        plan.column@ == column,
        plan.column_index < g.columns.len(),
        g.columns[plan.column_index as int] == column,
        forall|j: int| 0 <= j < plan.column_index ==> #[trigger] g.columns[j] != column,
        plan.time_column is Some <==> g.stamp_name() is Some,
        plan.time_column is Some ==> plan.time_column->0@ == g.stamp_name()->0,
        plan.time_index is Some ==> plan.time_column is Some && plan.time_index->0
            < g.columns.len() && g.columns[plan.time_index->0 as int] == plan.time_column->0@,
        texts(plan.numeric_columns@) == g.numeric_names(),
{
    column_of_is(g.columns, column);
    if g.stamp_name() is Some {
        column_of_is(g.columns, g.stamp_name()->0);
    }
}

} // verus!
