//! One tap's rendered capture, as columns and rows.

use vstd::prelude::*;
use vstd::string::*;
use crate::live_study::console::strip_cr;
use crate::studies_api::column::{is_number, numeric};
use crate::text::{
    char_rows, chars_of, same, split_chars, split_on, text_of, texts, trim, trim_chars, trimmed,
};

verus! {

/// Rows that decide what kind of column a column is.
pub const SAMPLED_ROWS: usize = 200;

/// One tap's rendered capture.
#[derive(Debug)]
pub struct Table {
    pub columns: Vec<String>,
    pub rows: Vec<Vec<String>>,
}

/// What a [`Table`] holds.
pub ghost struct Grid {
    pub columns: Seq<Seq<char>>,
    pub rows: Seq<Seq<Seq<char>>>,
}

impl View for Table {
    type V = Grid;

    open spec fn view(&self) -> Grid {
        Grid {
            columns: texts(self.columns@),
            rows: Seq::new(self.rows@.len(), |i: int| texts(self.rows@[i]@)),
        }
    }
}

/// The lines of `text` that hold anything but whitespace.
pub open spec fn written_lines(text: Seq<char>) -> Seq<Seq<char>> {
    split_on(text, '\n').filter(|line: Seq<char>| trimmed(line).len() > 0)
}

/// The column names of a header line.
pub open spec fn header_cells(line: Seq<char>) -> Seq<Seq<char>> {
    split_on(strip_cr(line), ',').map_values(|c: Seq<char>| trimmed(c))
}

/// `cells`, filled with empty ones up to `width`. Those past it stay.
pub open spec fn padded(cells: Seq<Seq<char>>, width: nat) -> Seq<Seq<char>> {
    Seq::new(
        if cells.len() < width {
            width
        } else {
            cells.len()
        },
        |i: int|
            if i < cells.len() {
                cells[i]
            } else {
                Seq::empty()
            },
    )
}

/// The table that a rendered capture makes.
pub open spec fn parsed(text: Seq<char>) -> Grid {
    let written = written_lines(text);
    if written.len() == 0 {
        Grid { columns: Seq::empty(), rows: Seq::empty() }
    } else {
        let columns = header_cells(written[0]);
        Grid {
            columns,
            rows: Seq::new(
                (written.len() - 1) as nat,
                |i: int| padded(split_on(strip_cr(written[i + 1]), ','), columns.len()),
            ),
        }
    }
}

/// The columns that hold an arrival stamp.
pub open spec fn is_stamp(name: Seq<char>) -> bool {
    name == "rx_utc_ms"@ || name == "core_rx_utc_ms"@
}

/// Whether a column holds an arrival stamp.
pub fn is_time_column(name: &str) -> (r: bool)
    ensures
        r == is_stamp(name@),
{
    same(name, "rx_utc_ms") || same(name, "core_rx_utc_ms")
}

/// Where `name` first stands among `columns`.
pub open spec fn column_of(columns: Seq<Seq<char>>, name: Seq<char>) -> Option<int>
    decreases columns.len(),
{
    if columns.len() == 0 {
        None
    } else {
        match column_of(columns.drop_last(), name) {
            Some(i) => Some(i),
            None => if columns.last() == name {
                Some(columns.len() - 1)
            } else {
                None
            },
        }
    }
}

pub proof fn column_of_is(columns: Seq<Seq<char>>, name: Seq<char>)
    ensures
        match column_of(columns, name) {
            Some(i) => 0 <= i < columns.len() && columns[i] == name && forall|j: int|
                0 <= j < i ==> columns[j] != name,
            None => forall|j: int| 0 <= j < columns.len() ==> columns[j] != name,
        },
    decreases columns.len(),
{
    if columns.len() > 0 {
        column_of_is(columns.drop_last(), name);
        assert(forall|j: int| 0 <= j < columns.len() - 1 ==> columns.drop_last()[j] == columns[j]);
    }
}

pub open spec fn opt_index(x: Option<usize>) -> Option<int> {
    match x {
        Some(i) => Some(i as int),
        None => None,
    }
}

/// Where `name` first stands among `columns`.
pub fn position(columns: &Vec<String>, name: &str) -> (r: Option<usize>)
    ensures
        opt_index(r) == column_of(texts(columns@), name@),
        r is Some ==> r->0 < columns.len(),
{
    proof {
        column_of_is(texts(columns@), name@);
    }
    for i in 0..columns.len()
        invariant
            forall|j: int| 0 <= j < i ==> columns@[j]@ != name@,
    {
        if same(columns[i].as_str(), name) {
            proof {
                column_of_is(texts(columns@), name@);
                assert(texts(columns@)[i as int] == name@);
                let found = column_of(texts(columns@), name@)->0;
                assert(texts(columns@)[found] == columns@[found]@);
            }
            return Some(i);
        }
    }
    proof {
        column_of_is(texts(columns@), name@);
    }
    None
}

/// The cell of `row` at `i`, where it has one.
pub open spec fn cell_at(row: Seq<Seq<char>>, i: Option<int>) -> Option<Seq<char>> {
    match i {
        Some(k) if 0 <= k < row.len() => Some(row[k]),
        _ => None,
    }
}

impl Grid {
    /// How many rows decide what kind of column a column is.
    pub open spec fn sampled(self) -> int {
        if self.rows.len() <= SAMPLED_ROWS {
            self.rows.len() as int
        } else {
            SAMPLED_ROWS as int
        }
    }

    /// Whether row `k` has anything in column `i`.
    pub open spec fn holds(self, k: int, i: int) -> bool {
        i < self.rows[k].len() && trimmed(self.rows[k][i]).len() > 0
    }

    /// A column is numeric where some sampled row has anything in it, all of that reads
    /// as numbers, and it is no stamp.
    pub open spec fn is_numeric(self, i: int) -> bool {
        &&& !is_stamp(self.columns[i])
        &&& exists|k: int| 0 <= k < self.sampled() && self.holds(k, i)
        &&& forall|k: int|
            0 <= k < self.sampled() && #[trigger] self.holds(k, i) ==> numeric(
                trimmed(self.rows[k][i]),
            )
    }

    /// The numeric columns among the first `n`, in order.
    pub open spec fn numeric_to(self, n: int) -> Seq<Seq<char>>
        decreases n,
    {
        if n <= 0 {
            Seq::empty()
        } else if self.is_numeric(n - 1) {
            self.numeric_to(n - 1).push(self.columns[n - 1])
        } else {
            self.numeric_to(n - 1)
        }
    }

    /// The numeric columns, in order.
    pub open spec fn numeric_names(self) -> Seq<Seq<char>> {
        self.numeric_to(self.columns.len() as int)
    }

    /// The first column that holds a stamp.
    pub open spec fn stamp_name(self) -> Option<Seq<char>> {
        let stamps = self.columns.filter(|c: Seq<char>| is_stamp(c));
        if stamps.len() > 0 {
            Some(stamps[0])
        } else {
            None
        }
    }
}

fn strip_return(line: &Vec<char>) -> (r: Vec<char>)
    ensures
        r@ == strip_cr(line@),
{
    let mut n: usize = line.len();
    if n > 0 && line[n - 1] == '\r' {
        n = n - 1;
    }
    let mut out: Vec<char> = Vec::new();
    for i in 0..n
        invariant
            n <= line.len(),
            out@ =~= line@.take(i as int),
    {
        out.push(line[i]);
    }
    assert(out@ =~= strip_cr(line@));
    out
}

/// The lines of `text` that hold anything but whitespace.
fn lines_written(text: &str) -> (r: Vec<Vec<char>>)
    ensures
        char_rows(r@) == written_lines(text@),
{
    let cs = chars_of(text);
    let all = split_chars(cs.as_slice(), '\n');
    let mut out: Vec<Vec<char>> = Vec::new();
    let ghost keep = |line: Seq<char>| trimmed(line).len() > 0;
    let ghost rows = char_rows(all@);
    assert(rows.take(0) =~= Seq::empty());
    assert(char_rows(out@) =~= rows.take(0).filter(keep)) by {
        reveal(Seq::filter);
    }
    for i in 0..all.len()
        invariant
            rows == char_rows(all@),
            keep == (|line: Seq<char>| trimmed(line).len() > 0),
            char_rows(out@) == rows.take(i as int).filter(keep),
    {
        assert(rows.take(i + 1) =~= rows.take(i as int).push(rows[i as int]));
        proof {
            rows.take(i as int).lemma_filter_push(rows[i as int], keep);
        }
        if trim_chars(all[i].as_slice()).len() > 0 {
            let ghost was = char_rows(out@);
            let copy = copy_chars(&all[i]);
            out.push(copy);
            assert(char_rows(out@) =~= was.push(copy@));
        }
    }
    assert(rows.take(rows.len() as int) =~= rows);
    out
}

fn copy_chars(cs: &Vec<char>) -> (r: Vec<char>)
    ensures
        r@ == cs@,
{
    let mut out: Vec<char> = Vec::new();
    for i in 0..cs.len()
        invariant
            out@ =~= cs@.take(i as int),
    {
        out.push(cs[i]);
    }
    out
}

fn header_of(line: &Vec<char>) -> (r: Vec<String>)
    ensures
        texts(r@) == header_cells(line@),
{
    let bare = strip_return(line);
    let cells = split_chars(bare.as_slice(), ',');
    let mut out: Vec<String> = Vec::new();
    for i in 0..cells.len()
        invariant
            out.len() == i,
            forall|j: int| 0 <= j < i ==> (#[trigger] out@[j])@ == trimmed(cells@[j]@),
    {
        let t = trim_chars(cells[i].as_slice());
        out.push(text_of(t.as_slice()));
    }
    assert(texts(out@) =~= header_cells(line@));
    out
}

fn row_of(line: &Vec<char>, width: usize) -> (r: Vec<String>)
    ensures
        texts(r@) == padded(split_on(strip_cr(line@), ','), width as nat),
{
    let bare = strip_return(line);
    let cells = split_chars(bare.as_slice(), ',');
    let mut out: Vec<String> = Vec::new();
    for i in 0..cells.len()
        invariant
            out.len() == i,
            forall|j: int| 0 <= j < i ==> (#[trigger] out@[j])@ == cells@[j]@,
    {
        out.push(text_of(cells[i].as_slice()));
    }
    let ghost n = cells@.len();
    while out.len() < width
        invariant
            n == cells@.len(),
            n <= out.len(),
            out.len() <= width || out.len() == n,
            forall|j: int| 0 <= j < n ==> (#[trigger] out@[j])@ == cells@[j]@,
            forall|j: int| n <= j < out.len() ==> (#[trigger] out@[j])@ == Seq::<char>::empty(),
        decreases width - out.len(),
    {
        out.push(String::new());
    }
    assert(texts(out@) =~= padded(split_on(strip_cr(line@), ','), width as nat));
    out
}

impl Table {
    /// Splits a rendered capture.
    ///
    /// A row with another number of cells than the header is kept: a short one is
    /// filled up with empty cells, a long one keeps its extra ones, so nothing shifts
    /// columns.
    pub fn parse(text: &str) -> (r: Table)
        ensures
            r@ == parsed(text@),
    {
        let written = lines_written(text);
        assert(written@.len() == written_lines(text@).len());
        if written.len() == 0 {
            let r = Table { columns: Vec::new(), rows: Vec::new() };
            assert(r@.columns =~= parsed(text@).columns);
            assert(r@.rows =~= parsed(text@).rows);
            return r;
        }
        assert(written@[0]@ == written_lines(text@)[0]);
        let columns = header_of(&written[0]);
        assert(columns.len() == parsed(text@).columns.len());
        let mut rows: Vec<Vec<String>> = Vec::new();
        for i in 1..written.len()
            invariant
                char_rows(written@) == written_lines(text@),
                written.len() > 0,
                columns.len() == parsed(text@).columns.len(),
                rows.len() == i - 1,
                forall|j: int|
                    0 <= j < i - 1 ==> texts((#[trigger] rows@[j])@) == parsed(text@).rows[j],
        {
            assert(written@[i as int]@ == written_lines(text@)[i as int]);
            rows.push(row_of(&written[i], columns.len()));
        }
        let r = Table { columns, rows };
        assert(r@.rows =~= parsed(text@).rows);
        r
    }

    /// Whether column `i` is numeric.
    fn column_is_numeric(&self, i: usize) -> (r: bool)
        requires
            i < self.columns.len(),
        ensures
            r == self@.is_numeric(i as int),
    {
        assert(self@.columns[i as int] == self.columns@[i as int]@);
        if is_time_column(self.columns[i].as_str()) {
            return false;
        }
        let n: usize = if self.rows.len() <= SAMPLED_ROWS {
            self.rows.len()
        } else {
            SAMPLED_ROWS
        };
        let mut seen = false;
        for k in 0..n
            invariant
                n <= self.rows.len(),
                n == self@.sampled(),
                seen == (exists|j: int| 0 <= j < k && self@.holds(j, i as int)),
                forall|j: int|
                    0 <= j < k && #[trigger] self@.holds(j, i as int) ==> numeric(
                        trimmed(self@.rows[j][i as int]),
                    ),
        {
            assert(self@.rows[k as int] == texts(self.rows@[k as int]@));
            if i < self.rows[k].len() {
                assert(self@.rows[k as int][i as int] == self.rows@[k as int]@[i as int]@);
                let t = trim(self.rows[k][i].as_str());
                if !t.as_str().is_empty() {
                    assert(self@.holds(k as int, i as int));
                    if !is_number(t.as_str()) {
                        return false;
                    }
                    seen = true;
                }
            }
        }
        seen
    }

    /// The columns whose values read as numbers, decided from the data.
    pub fn numeric_columns(&self) -> (r: Vec<String>)
        ensures
            texts(r@) == self@.numeric_names(),
    {
        let mut out: Vec<String> = Vec::new();
        assert(texts(out@) =~= self@.numeric_to(0));
        for i in 0..self.columns.len()
            invariant
                texts(out@) == self@.numeric_to(i as int),
        {
            if self.column_is_numeric(i) {
                let ghost was = texts(out@);
                out.push(self.columns[i].clone());
                assert(texts(out@) =~= was.push(self@.columns[i as int]));
            }
        }
        out
    }

    /// The column to plot against, where the tap has a stamp of its own.
    pub fn time_column(&self) -> (r: Option<String>)
        ensures
            (match r {
                Some(name) => Some(name@),
                None => None,
            }) == self@.stamp_name(),
    {
        let ghost keep = |c: Seq<char>| is_stamp(c);
        let ghost all = self@.columns;
        assert(all.take(0).filter(keep) =~= Seq::empty()) by {
            assert(all.take(0) =~= Seq::empty());
            reveal(Seq::filter);
        }
        for i in 0..self.columns.len()
            invariant
                keep == (|c: Seq<char>| is_stamp(c)),
                all == self@.columns,
                all.take(i as int).filter(keep).len() == 0,
        {
            assert(all[i as int] == self.columns@[i as int]@);
            assert(all.take(i + 1) =~= all.take(i as int).push(all[i as int]));
            proof {
                all.take(i as int).lemma_filter_push(all[i as int], keep);
            }
            if is_time_column(self.columns[i].as_str()) {
                proof {
                    filter_of_a_prefix(all, keep, i + 1);
                    assert(all.take(i + 1).filter(keep)[0] == all[i as int]);
                }
                return Some(self.columns[i].clone());
            }
        }
        assert(all.take(all.len() as int) =~= all);
        None
    }

    /// A copy of row `i`.
    pub fn row_copy(&self, i: usize) -> (r: Vec<String>)
        requires
            i < self.rows.len(),
        ensures
            texts(r@) == self@.rows[i as int],
    {
        crate::text::copy_list(&self.rows[i])
    }

    /// The cell of row `i` in a column, trimmed; empty where there is none.
    pub fn cell(&self, i: usize, column: Option<usize>) -> (r: String)
        requires
            i < self.rows.len(),
        ensures
            r@ == shown_cell(self@.rows[i as int], opt_index(column)),
    {
        match column {
            Some(k) => if k < self.rows[i].len() {
                assert(self@.rows[i as int][k as int] == self.rows@[i as int]@[k as int]@);
                trim(self.rows[i][k].as_str())
            } else {
                String::new()
            },
            None => String::new(),
        }
    }
}

/// A cell as it is shown: trimmed, and empty where there is none.
pub open spec fn shown_cell(row: Seq<Seq<char>>, column: Option<int>) -> Seq<char> {
    match cell_at(row, column) {
        Some(c) => trimmed(c),
        None => Seq::empty(),
    }
}

/// What a filter keeps of a prefix is a prefix of what it keeps.
pub proof fn filter_of_a_prefix<A>(s: Seq<A>, keep: spec_fn(A) -> bool, n: int)
    requires
        0 <= n <= s.len(),
    ensures
        s.take(n).filter(keep).is_prefix_of(s.filter(keep)),
{
    assert(s =~= s.take(n) + s.skip(n));
    Seq::filter_distributes_over_add(s.take(n), s.skip(n), keep);
}

/// A table keeps every written line after the header as a row, and no row is narrower
/// than the header: nothing is dropped and nothing shifts columns.
pub proof fn every_line_is_a_row(text: Seq<char>)
    requires
        written_lines(text).len() > 0,
    ensures
        parsed(text).rows.len() == written_lines(text).len() - 1,
        forall|i: int|
            0 <= i < parsed(text).rows.len() ==> {
                let cells = split_on(strip_cr(written_lines(text)[i + 1]), ',');
                &&& (#[trigger] parsed(text).rows[i]).len() >= parsed(text).columns.len()
                &&& cells.is_prefix_of(parsed(text).rows[i])
            },
{
    assert forall|i: int| 0 <= i < parsed(text).rows.len() implies {
        let cells = split_on(strip_cr(written_lines(text)[i + 1]), ',');
        &&& (#[trigger] parsed(text).rows[i]).len() >= parsed(text).columns.len()
        &&& cells.is_prefix_of(parsed(text).rows[i])
    } by {
        let cells = split_on(strip_cr(written_lines(text)[i + 1]), ',');
        assert(cells =~= parsed(text).rows[i].take(cells.len() as int));
    }
}

proof fn numeric_to_holds(g: Grid, n: int, k: int)
    requires
        0 <= n <= g.columns.len(),
        0 <= k < g.numeric_to(n).len(),
    ensures
        exists|i: int| 0 <= i < n && g.columns[i] == g.numeric_to(n)[k] && g.is_numeric(i),
    decreases n,
{
    if n > 0 {
        if g.is_numeric(n - 1) && k == g.numeric_to(n).len() - 1 {
            assert(g.columns[n - 1] == g.numeric_to(n)[k] && g.is_numeric(n - 1));
        } else {
            numeric_to_holds(g, n - 1, k);
        }
    }
}

/// A stamp is the axis and is never offered as a series.
pub proof fn a_stamp_is_never_numeric(g: Grid, k: int)
    requires
        0 <= k < g.numeric_names().len(),
    ensures
        !is_stamp(g.numeric_names()[k]),
{
    numeric_to_holds(g, g.columns.len() as int, k);
}

/// The two stamps of a table are stamps, and no other column is.
pub proof fn a_stamp_is_known_by_its_name(name: Seq<char>)
    ensures
        is_stamp("rx_utc_ms"@),
        is_stamp("core_rx_utc_ms"@),
        name != "rx_utc_ms"@ && name != "core_rx_utc_ms"@ ==> !is_stamp(name),
{
}

/// A table is plotted against the first column that holds a stamp.
pub proof fn the_first_stamp_is_the_axis(g: Grid, i: int)
    requires
        0 <= i < g.columns.len(),
        g.columns[i] == "rx_utc_ms"@ || g.columns[i] == "core_rx_utc_ms"@,
        forall|j: int|
            0 <= j < i ==> #[trigger] g.columns[j] != "rx_utc_ms"@ && g.columns[j]
                != "core_rx_utc_ms"@,
    ensures
        g.stamp_name() == Some(g.columns[i]),
{
    let test = |c: Seq<char>| is_stamp(c);
    reveal(Seq::filter);
    assert(g.columns.take(i + 1).drop_last() =~= g.columns.take(i));
    none_is_kept(g.columns.take(i), test);
    assert(g.columns.take(i + 1).filter(test) =~= seq![g.columns[i]]);
    filter_of_a_prefix(g.columns, test, i + 1);
    assert(g.columns.filter(test)[0] == g.columns.take(i + 1).filter(test)[0]);
}

/// A table without a stamp is plotted against nothing of its own.
pub proof fn without_a_stamp_there_is_no_axis(g: Grid)
    requires
        forall|j: int|
            0 <= j < g.columns.len() ==> #[trigger] g.columns[j] != "rx_utc_ms"@ && g.columns[j]
                != "core_rx_utc_ms"@,
    ensures
        g.stamp_name() is None,
{
    none_is_kept(g.columns, |c: Seq<char>| is_stamp(c));
}

proof fn none_is_kept(s: Seq<Seq<char>>, test: spec_fn(Seq<char>) -> bool)
    requires
        forall|j: int| 0 <= j < s.len() ==> !test(#[trigger] s[j]),
    ensures
        s.filter(test).len() == 0,
    decreases s.len(),
{
    reveal(Seq::filter);
    if s.len() > 0 {
        none_is_kept(s.drop_last(), test);
        assert(!test(s[s.len() - 1]));
    }
}

/// A column is offered exactly where it is no stamp and one of its first two hundred rows
/// has a number in it, and none anything that is no number.
pub proof fn a_column_of_numbers_is_offered(g: Grid, n: int, name: Seq<char>)
    requires
        0 <= n <= g.columns.len(),
    ensures
        g.numeric_to(n).contains(name) <==> exists|i: int|
            0 <= i < n && #[trigger] g.columns[i] == name && name != "rx_utc_ms"@ && name
                != "core_rx_utc_ms"@ && (exists|k: int|
                0 <= k < g.rows.len() && k < 200 && i < (#[trigger] g.rows[k]).len() && numeric(
                    trimmed(g.rows[k][i]),
                ) && trimmed(g.rows[k][i]).len() > 0) && (forall|k: int|
                0 <= k < g.rows.len() && k < 200 && i < (#[trigger] g.rows[k]).len() && trimmed(
                    g.rows[k][i],
                ).len() > 0 ==> numeric(trimmed(g.rows[k][i]))),
    decreases n,
{
    if n > 0 {
        a_column_of_numbers_is_offered(g, n - 1, name);
        let before = g.numeric_to(n - 1);
        let now = g.numeric_to(n);
        let i = n - 1;
        assert(g.is_numeric(i) <==> g.columns[i] != "rx_utc_ms"@ && g.columns[i]
            != "core_rx_utc_ms"@ && (exists|k: int|
            0 <= k < g.rows.len() && k < 200 && i < (#[trigger] g.rows[k]).len() && numeric(
                trimmed(g.rows[k][i]),
            ) && trimmed(g.rows[k][i]).len() > 0) && (forall|k: int|
            0 <= k < g.rows.len() && k < 200 && i < (#[trigger] g.rows[k]).len() && trimmed(
                g.rows[k][i],
            ).len() > 0 ==> numeric(trimmed(g.rows[k][i])))) by {
            assert forall|k: int| 0 <= k < g.sampled() implies (g.holds(k, i) <==> i < (
            #[trigger] g.rows[k]).len() && trimmed(g.rows[k][i]).len() > 0) by {}
            if g.is_numeric(i) {
                let k = choose|k: int| 0 <= k < g.sampled() && g.holds(k, i);
                assert(g.rows[k].len() > i);
                assert forall|k: int|
                    0 <= k < g.rows.len() && k < 200 && i < (#[trigger] g.rows[k]).len()
                        && trimmed(g.rows[k][i]).len() > 0 implies numeric(
                    trimmed(g.rows[k][i]),
                ) by {
                    assert(g.holds(k, i));
                }
            }
        }
        if now.contains(name) {
            let k = choose|k: int| 0 <= k < now.len() && now[k] == name;
            if k < before.len() {
                assert(before[k] == name);
                assert(before.contains(name));
            }
        }
        if before.contains(name) {
            let k = choose|k: int| 0 <= k < before.len() && before[k] == name;
            assert(now[k] == name);
        }
        if g.is_numeric(i) && g.columns[i] == name {
            assert(now[now.len() - 1] == name);
        }
    }
}

/// A row keeps each of its cells where it is, and has empty ones only behind them.
pub proof fn a_cell_stays_in_its_column(cells: Seq<Seq<char>>, width: nat, i: int)
    requires
        0 <= i < padded(cells, width).len(),
    ensures
        padded(cells, width).len() >= width,
        padded(cells, width).len() >= cells.len(),
        padded(cells, width).len() == width || padded(cells, width).len() == cells.len(),
        i < cells.len() ==> padded(cells, width)[i] == cells[i],
        i >= cells.len() ==> padded(cells, width)[i].len() == 0,
{
}

/// A line is a row where it holds anything but whitespace, and only there.
pub proof fn a_blank_line_is_no_row(text: Seq<char>)
    ensures
        forall|i: int|
            0 <= i < written_lines(text).len() ==> trimmed(#[trigger] written_lines(text)[i]).len()
                > 0,
        forall|k: int|
            0 <= k < split_on(text, '\n').len() && trimmed(#[trigger] split_on(text, '\n')[k]).len()
                > 0 ==> written_lines(text).contains(split_on(text, '\n')[k]),
{
    what_is_kept(split_on(text, '\n'));
}

proof fn what_is_kept(lines: Seq<Seq<char>>)
    ensures
        ({
            let kept = lines.filter(|line: Seq<char>| trimmed(line).len() > 0);
            &&& forall|i: int| 0 <= i < kept.len() ==> trimmed(#[trigger] kept[i]).len() > 0
            &&& forall|k: int|
                0 <= k < lines.len() && trimmed(#[trigger] lines[k]).len() > 0 ==> kept.contains(
                    lines[k],
                )
        }),
    decreases lines.len(),
{
    reveal(Seq::filter);
    let test = |line: Seq<char>| trimmed(line).len() > 0;
    if lines.len() > 0 {
        let rest = lines.drop_last();
        what_is_kept(rest);
        let before = rest.filter(test);
        let kept = lines.filter(test);
        assert forall|k: int|
            0 <= k < lines.len() && trimmed(#[trigger] lines[k]).len() > 0 implies kept.contains(
            lines[k],
        ) by {
            if k < rest.len() {
                assert(rest[k] == lines[k]);
                assert(before.contains(lines[k]));
                let j = choose|j: int| 0 <= j < before.len() && before[j] == lines[k];
                assert(kept[j] == lines[k]);
            } else {
                assert(kept[kept.len() - 1] == lines[k]);
            }
        }
        assert forall|i: int| 0 <= i < kept.len() implies trimmed(#[trigger] kept[i]).len() > 0 by {
            if i < before.len() {
                assert(kept[i] == before[i]);
            }
        }
    }
}

/// A header names its columns without the whitespace around them, one more than it has
/// commas.
pub proof fn a_header_names_its_columns(line: Seq<char>, i: int)
    requires
        0 <= i < split_on(strip_cr(line), ',').len(),
    ensures
        header_cells(line).len() == split_on(strip_cr(line), ',').len(),
        header_cells(line)[i] == trimmed(split_on(strip_cr(line), ',')[i]),
{
}

} // verus!
