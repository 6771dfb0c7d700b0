//! The three ways a tap's capture is read: a page of its table, a page of its console,
//! and its first bytes.

use vstd::prelude::*;
use vstd::string::*;
use vstd::utf8::{decode_utf8, valid_utf8};
use crate::live_study::console::strip_cr;
use crate::studies_api::table::Table;
use crate::text::{
    char_rows, chars_of, copy_list, hex, hex_of, same, split_chars, split_on,
    split_on_is_never_empty, text_of, texts,
};

verus! {

/// Rows in one page of a table.
pub const MAX_ROWS_PER_PAGE: usize = 500;

/// Lines in one page of a console.
pub const MAX_TEXT_LINES: usize = 2_000;

/// What bytes read as where those that are no UTF-8 are replaced.
pub uninterp spec fn lossy_utf8(bytes: Seq<u8>) -> Seq<char>;

/// `String::from_utf8_lossy`: bytes that are UTF-8 read as what they encode. What stands
/// for the others is not said here.
#[verifier::external_body]
pub(crate) fn lossy_text(bytes: &[u8]) -> (r: String)
    ensures
        r@ == lossy_utf8(bytes@),
        valid_utf8(bytes@) ==> r@ == decode_utf8(bytes@),
{
    String::from_utf8_lossy(bytes).into_owned()
}

impl Table {
    /// The table that a capture's bytes make.
    pub fn from_bytes(bytes: &[u8]) -> (r: Table)
        ensures
            r@ == crate::studies_api::table::parsed(lossy_utf8(bytes@)),
    {
        let text = lossy_text(bytes);
        Table::parse(text.as_str())
    }
}

// ---- a page ------------------------------------------------------------------

/// `n`, moved into `lo..=hi`.
pub open spec fn clamped(n: int, lo: int, hi: int) -> int {
    if n < lo {
        lo
    } else if n > hi {
        hi
    } else {
        n
    }
}

pub open spec fn or_else(n: Option<usize>, default: int) -> int {
    match n {
        Some(v) => v as int,
        None => default,
    }
}

/// Where a page begins.
pub open spec fn page_from(from: Option<usize>, total: int) -> int {
    clamped(or_else(from, 0), 0, total)
}

/// Where a page of at most `limit` items ends.
pub open spec fn page_to(
    from: Option<usize>,
    limit: Option<usize>,
    default: int,
    most: int,
    total: int,
) -> int {
    clamped(page_from(from, total) + clamped(or_else(limit, default), 1, most), 0, total)
}

fn page_bounds(
    from: Option<usize>,
    limit: Option<usize>,
    default: usize,
    most: usize,
    total: usize,
) -> (r: (usize, usize))
    requires
        most >= 1,
    ensures
        r.0 == page_from(from, total as int),
        r.1 == page_to(from, limit, default as int, most as int, total as int),
        r.0 <= r.1 <= total,
{
    let start: usize = match from {
        Some(f) => if f <= total {
            f
        } else {
            total
        },
        None => 0,
    };
    let asked: usize = match limit {
        Some(l) => l,
        None => default,
    };
    let size: usize = if asked < 1 {
        1
    } else if asked > most {
        most
    } else {
        asked
    };
    let end: usize = if total - start <= size {
        total
    } else {
        start + size
    };
    (start, end)
}

// ---- rows --------------------------------------------------------------------

/// Which rows are asked for.
#[derive(Debug)]
pub struct RowsQuery {
    pub from: Option<usize>,
    pub limit: Option<usize>,
}

/// One page of a table.
#[derive(Debug)]
pub struct RowsPage {
    pub columns: Vec<String>,
    pub rows: Vec<Vec<String>>,
    pub from: usize,
    pub total: usize,
    pub numeric_columns: Vec<String>,
    pub time_column: Option<String>,
}

/// One page of a tap's table, with the columns that can be plotted.
pub fn rows_page(table: &Table, q: &RowsQuery) -> (r: RowsPage)
    ensures
        texts(r.columns@) == table@.columns,
        r.from == page_from(q.from, table@.rows.len() as int),
        r.total == table@.rows.len(),
        ({
            let to = page_to(
                q.from,
                q.limit,
                100,
                MAX_ROWS_PER_PAGE as int,
                table@.rows.len() as int,
            );
            &&& r.rows@.len() == to - r.from
            &&& forall|i: int|
                0 <= i < r.rows@.len() ==> texts((#[trigger] r.rows@[i])@) == table@.rows[r.from + i]
        }),
        texts(r.numeric_columns@) == table@.numeric_names(),
        (match r.time_column {
            Some(name) => Some(name@),
            None => None,
        }) == table@.stamp_name(),
{
    let (from, to) = page_bounds(q.from, q.limit, 100, MAX_ROWS_PER_PAGE, table.rows.len());
    let mut rows: Vec<Vec<String>> = Vec::new();
    for i in from..to
        invariant
            from <= to <= table.rows.len(),
            rows.len() == i - from,
            forall|j: int|
                0 <= j < i - from ==> texts((#[trigger] rows@[j])@) == table@.rows[from + j],
    {
        rows.push(table.row_copy(i));
    }
    RowsPage {
        columns: copy_list(&table.columns),
        rows,
        from,
        total: table.rows.len(),
        numeric_columns: table.numeric_columns(),
        time_column: table.time_column(),
    }
}

/// Whether a cached table is the one of this study's tap.
pub fn cached_is(study_id: &str, tap: &str, cached: &CachedTable) -> (r: bool)
    ensures
        r == (cached.study_id@ == study_id@ && cached.tap@ == tap@),
{
    same(cached.study_id.as_str(), study_id) && same(cached.tap.as_str(), tap)
}

/// The one table that is kept, and whose it is.
#[derive(Debug)]
pub struct CachedTable {
    pub study_id: String,
    pub tap: String,
    pub table: Table,
}

// ---- text --------------------------------------------------------------------

/// Which lines are asked for.
#[derive(Debug)]
pub struct TextQuery {
    pub from: Option<usize>,
    pub limit: Option<usize>,
}

/// One page of a console.
#[derive(Debug)]
pub struct TextPage {
    pub lines: Vec<String>,
    pub from: usize,
    pub total: usize,
    /// The last line, where it never got a newline.
    pub partial: Option<String>,
    pub bytes: usize,
}

/// The lines of a console that got their newline.
pub open spec fn ended_lines(text: Seq<char>) -> Seq<Seq<char>> {
    split_on(text, '\n').drop_last()
}

/// What stands after the last newline, where anything does.
pub open spec fn unended(text: Seq<char>) -> Option<Seq<char>> {
    if text.len() == 0 || text.last() == '\n' {
        None
    } else {
        Some(split_on(text, '\n').last())
    }
}

/// One page of a console's text, `bytes` long.
pub fn text_page(text: &str, bytes: usize, q: &TextQuery) -> (r: TextPage)
    ensures
        r.from == page_from(q.from, ended_lines(text@).len() as int),
        r.total == ended_lines(text@).len(),
        ({
            let to = page_to(
                q.from,
                q.limit,
                500,
                MAX_TEXT_LINES as int,
                ended_lines(text@).len() as int,
            );
            &&& r.lines@.len() == to - r.from
            &&& forall|i: int|
                0 <= i < r.lines@.len() ==> (#[trigger] r.lines@[i])@ == strip_cr(
                    ended_lines(text@)[r.from + i],
                )
        }),
        (match r.partial {
            Some(p) => Some(p@),
            None => None,
        }) == unended(text@),
        r.bytes == bytes,
{
    let cs = chars_of(text);
    let pieces = split_chars(cs.as_slice(), '\n');
    let ghost all = split_on(text@, '\n');
    assert(char_rows(pieces@) == all);
    let total: usize = pieces.len() - 1;
    let ends_complete = cs.len() == 0 || cs[cs.len() - 1] == '\n';
    assert(all.last() == pieces@[total as int]@);
    let partial = if ends_complete {
        None
    } else {
        Some(text_of(pieces[total].as_slice()))
    };
    let (from, to) = page_bounds(q.from, q.limit, 500, MAX_TEXT_LINES, total);
    let mut lines: Vec<String> = Vec::new();
    for i in from..to
        invariant
            all == split_on(text@, '\n'),
            char_rows(pieces@) == all,
            total == pieces.len() - 1,
            from <= to <= total,
            lines.len() == i - from,
            forall|j: int|
                0 <= j < i - from ==> (#[trigger] lines@[j])@ == strip_cr(
                    ended_lines(text@)[from + j],
                ),
    {
        let mut n: usize = pieces[i].len();
        if n > 0 && pieces[i][n - 1] == '\r' {
            n = n - 1;
        }
        let line = text_of(vstd::slice::slice_subrange(pieces[i].as_slice(), 0, n));
        assert(all[i as int] == pieces@[i as int]@);
        assert(line@ =~= strip_cr(ended_lines(text@)[i as int]));
        lines.push(line);
    }
    TextPage { lines, from, total, partial, bytes }
}

/// One page of a console's capture.
pub fn stream_text(bytes: &[u8], q: &TextQuery) -> (r: TextPage)
    ensures
        ({
            let text = lossy_utf8(bytes@);
            let to = page_to(
                q.from,
                q.limit,
                500,
                MAX_TEXT_LINES as int,
                ended_lines(text).len() as int,
            );
            &&& r.from == page_from(q.from, ended_lines(text).len() as int)
            &&& r.total == ended_lines(text).len()
            &&& r.lines@.len() == to - r.from
            &&& forall|i: int|
                0 <= i < r.lines@.len() ==> (#[trigger] r.lines@[i])@ == strip_cr(
                    ended_lines(text)[r.from + i],
                )
            &&& (match r.partial {
                Some(p) => Some(p@),
                None => None,
            }) == unended(text)
        }),
        r.bytes == bytes@.len(),
{
    let text = lossy_text(bytes);
    text_page(text.as_str(), bytes.len(), q)
}

/// Nothing of a console is lost or made up: its lines and its remainder, with the
/// newlines between them, are its text.
pub proof fn a_console_is_its_lines(text: Seq<char>)
    ensures
        joined(split_on(text, '\n'), '\n') == text,
        unended(text) is None ==> split_on(text, '\n').last().len() == 0,
{
    joined_split(text, '\n');
    if text.len() > 0 && text.last() == '\n' {
        split_on_is_never_empty(text.drop_last(), '\n');
    }
}

/// The pieces with `sep` between them.
pub open spec fn joined(pieces: Seq<Seq<char>>, sep: char) -> Seq<char>
    decreases pieces.len(),
{
    if pieces.len() == 0 {
        Seq::empty()
    } else if pieces.len() == 1 {
        pieces[0]
    } else {
        joined(pieces.drop_last(), sep).push(sep) + pieces.last()
    }
}

proof fn joined_split(text: Seq<char>, sep: char)
    ensures
        joined(split_on(text, sep), sep) == text,
    decreases text.len(),
{
    if text.len() == 0 {
        assert(split_on(text, sep)[0] =~= text);
    } else {
        let t = text.drop_last();
        let before = split_on(t, sep);
        joined_split(t, sep);
        split_on_is_never_empty(t, sep);
        assert(t.push(text.last()) =~= text);
        if text.last() == sep {
            let now = before.push(Seq::empty());
            assert(now.drop_last() =~= before);
            assert(joined(now, sep) =~= text);
        } else {
            let now = before.drop_last().push(before.last().push(text.last()));
            assert(now.drop_last() =~= before.drop_last());
            if before.len() == 1 {
                assert(joined(now, sep) =~= text);
            } else {
                assert(joined(now, sep) =~= joined(before, sep).push(text.last()));
            }
        }
    }
}

// ---- head --------------------------------------------------------------------

/// How many bytes are asked for.
#[derive(Debug)]
pub struct HeadQuery {
    pub bytes: Option<usize>,
}

/// The first bytes of a capture, as lines of a dump.
#[derive(Debug)]
pub struct HeadPage {
    pub lines: Vec<String>,
    pub shown_bytes: usize,
    pub total_bytes: usize,
}

/// How many bytes of a capture `total` long are shown.
pub open spec fn head_len(bytes: Option<usize>, total: int) -> int {
    clamped(clamped(or_else(bytes, 512), 16, 8_192), 0, total)
}

/// A byte as a character that can be printed.
pub open spec fn printable(b: u8) -> char {
    if 0x20 <= b < 0x7f {
        b as char
    } else {
        '.'
    }
}

/// Two hexadecimal digits per byte, with a space between two bytes.
pub open spec fn hex_column(bytes: Seq<u8>) -> Seq<char>
    decreases bytes.len(),
{
    if bytes.len() == 0 {
        Seq::empty()
    } else if bytes.len() == 1 {
        hex(bytes[0] as nat, 2)
    } else {
        hex_column(bytes.drop_last()) + " "@ + hex(bytes.last() as nat, 2)
    }
}

/// `s`, filled with spaces up to `width`.
pub open spec fn filled(s: Seq<char>, width: nat) -> Seq<char> {
    if s.len() < width {
        s + Seq::new((width - s.len()) as nat, |i: int| ' ')
    } else {
        s
    }
}

/// One line of a dump: the offset, sixteen bytes in hexadecimal, and the same bytes as
/// characters.
pub open spec fn dump_line(offset: nat, bytes: Seq<u8>) -> Seq<char> {
    hex(offset, 8) + "  "@ + filled(hex_column(bytes), 47) + "  "@ + bytes.map_values(
        |b: u8| printable(b),
    )
}

/// The bytes of line `i` of a dump of the first `shown` bytes.
pub open spec fn dump_chunk(bytes: Seq<u8>, shown: int, i: int) -> Seq<u8> {
    bytes.subrange(16 * i, clamped(16 * i + 16, 0, shown))
}

fn push_text(out: &mut Vec<char>, s: &str)
    ensures
        final(out)@ == old(out)@ + s@,
{
    let cs = chars_of(s);
    let ghost start = out@;
    for i in 0..cs.len()
        invariant
            cs@ == s@,
            out@ =~= start + s@.take(i as int),
    {
        out.push(cs[i]);
    }
    assert(s@.take(s@.len() as int) =~= s@);
}

fn dump(offset: u64, bytes: &[u8]) -> (r: String)
    ensures
        r@ == dump_line(offset as nat, bytes@),
{
    let mut column: Vec<char> = Vec::new();
    for i in 0..bytes.len()
        invariant
            column@ == hex_column(bytes@.take(i as int)),
    {
        let ghost next = bytes@.take(i + 1);
        assert(next.drop_last() =~= bytes@.take(i as int));
        if i > 0 {
            push_text(&mut column, " ");
        }
        let two = hex_of(bytes[i] as u64, 2);
        push_text(&mut column, two.as_str());
        assert(column@ =~= hex_column(next));
    }
    assert(bytes@.take(bytes@.len() as int) =~= bytes@);
    let ghost written = column@;
    while column.len() < 47
        invariant
            column.len() <= 47 || column@ == written,
            column.len() >= written.len(),
            column@ =~= written + Seq::new((column.len() - written.len()) as nat, |i: int| ' '),
        decreases 47 - column.len(),
    {
        column.push(' ');
    }
    assert(column@ =~= filled(hex_column(bytes@), 47));
    let mut out = hex_of(offset, 8);
    out.append("  ");
    out.append(text_of(column.as_slice()).as_str());
    out.append("  ");
    let ghost before = out@;
    for i in 0..bytes.len()
        invariant
            out@ =~= before + bytes@.map_values(|b: u8| printable(b)).take(i as int),
    {
        let b = bytes[i];
        let c = if 0x20 <= b && b < 0x7f {
            b as char
        } else {
            '.'
        };
        out.push(c);
    }
    assert(out@ =~= dump_line(offset as nat, bytes@));
    out
}

/// The first bytes of a capture.
pub fn stream_head(bytes: &[u8], q: &HeadQuery) -> (r: HeadPage)
    ensures
        r.shown_bytes == head_len(q.bytes, bytes@.len() as int),
        r.total_bytes == bytes@.len(),
        r.lines@.len() == (r.shown_bytes + 15) / 16,
        forall|i: int|
            0 <= i < r.lines@.len() ==> (#[trigger] r.lines@[i])@ == dump_line(
                (16 * i) as nat,
                dump_chunk(bytes@, r.shown_bytes as int, i),
            ),
{
    let asked: usize = match q.bytes {
        Some(n) => n,
        None => 512,
    };
    let want: usize = if asked < 16 {
        16
    } else if asked > 8_192 {
        8_192
    } else {
        asked
    };
    let shown: usize = if want <= bytes.len() {
        want
    } else {
        bytes.len()
    };
    let mut lines: Vec<String> = Vec::new();
    let mut at: usize = 0;
    while at < shown
        invariant
            shown <= bytes.len(),
            shown <= 8_192,
            at == 16 * lines.len(),
            at < shown + 16,
            forall|i: int|
                0 <= i < lines.len() ==> (#[trigger] lines@[i])@ == dump_line(
                    (16 * i) as nat,
                    dump_chunk(bytes@, shown as int, i),
                ),
        decreases shown + 16 - at,
    {
        let end: usize = if at + 16 <= shown {
            at + 16
        } else {
            shown
        };
        let chunk = vstd::slice::slice_subrange(bytes, at, end);
        lines.push(dump(at as u64, chunk));
        at = at + 16;
    }
    HeadPage { lines, shown_bytes: shown, total_bytes: bytes.len() }
}

// ---- download ----------------------------------------------------------------

/// Which of a tap's files is asked for.
#[derive(Debug)]
pub struct DownloadQuery {
    pub raw: Option<String>,
}

/// Whether the byte-for-byte capture is asked for.
pub fn wants_raw(q: &DownloadQuery) -> (r: bool)
    ensures
        r == (q.raw is Some && (q.raw->0@ == "1"@ || q.raw->0@ == "true"@)),
{
    match &q.raw {
        Some(raw) => same(raw.as_str(), "1") || same(raw.as_str(), "true"),
        None => false,
    }
}

/// Letters, digits, hyphens and underscores.
pub open spec fn is_safe(c: char) -> bool {
    'a' <= c <= 'z' || 'A' <= c <= 'Z' || '0' <= c <= '9' || c == '-' || c == '_'
}

/// `s` with a hyphen for every character that is not safe in a file name.
pub open spec fn safe(s: Seq<char>) -> Seq<char> {
    s.map_values(
        |c: char|
            if is_safe(c) {
                c
            } else {
                '-'
            },
    )
}

/// Decides [`is_safe`].
pub fn safe_char(c: char) -> (r: bool)
    ensures
        r == is_safe(c),
{
    ('a' <= c && c <= 'z') || ('A' <= c && c <= 'Z') || ('0' <= c && c <= '9') || c == '-' || c
        == '_'
}

/// `s` with a hyphen for every character that is not safe in a file name.
pub fn safe_filename(s: &str) -> (r: String)
    ensures
        r@ == safe(s@),
{
    let cs = chars_of(s);
    let mut out = String::new();
    for i in 0..cs.len()
        invariant
            cs@ == s@,
            out@ =~= safe(s@).take(i as int),
    {
        if safe_char(cs[i]) {
            out.push(cs[i]);
        } else {
            out.push('-');
        }
    }
    assert(safe(s@).take(s@.len() as int) =~= safe(s@));
    out
}

/// The name a tap's capture is downloaded under.
pub fn download_name(study_id: &str, tap: &str) -> (r: String)
    ensures
        r@ == safe(study_id@) + "-"@ + safe(tap@) + ".dat"@,
{
    let mut out = safe_filename(study_id);
    out.append("-");
    out.append(safe_filename(tap).as_str());
    out.append(".dat");
    out
}

/// A safe name holds nothing that leaves a directory, whatever it was made from.
pub proof fn a_safe_name_stays_where_it_is(s: Seq<char>)
    ensures
        safe(s).len() == s.len(),
        forall|i: int| 0 <= i < safe(s).len() ==> is_safe(#[trigger] safe(s)[i]),
        !safe(s).contains('/'),
        !safe(s).contains('\\'),
        !safe(s).contains('.'),
        !safe(s).contains('"'),
{
}

/// A page begins where it is asked to, and at the beginning where nothing is asked; it holds
/// as many as are asked for, at least one and at most `most`, as far as there are any.
pub proof fn a_page_is_what_was_asked_for(
    from: Option<usize>,
    limit: Option<usize>,
    default: int,
    most: int,
    total: int,
)
    requires
        1 <= default <= most,
        0 <= total,
    ensures
        ({
            let a = page_from(from, total);
            let b = page_to(from, limit, default, most, total);
            &&& 0 <= a <= b <= total
            &&& b - a <= most
            &&& a < total ==> a < b
            &&& from is None ==> a == 0
            &&& from is Some && from->0 <= total ==> a == from->0
            &&& from is Some && from->0 > total ==> a == total && b == total
            &&& limit is Some && 1 <= limit->0 <= most && a + limit->0 <= total ==> b == a
                + limit->0
            &&& limit is Some && limit->0 > most && a + most <= total ==> b == a + most
            &&& limit is None && a + default <= total ==> b == a + default
            &&& limit is Some && limit->0 >= total && most >= total ==> b == total
        }),
{
}

/// The first bytes that are shown are as many as were asked for, within bounds, and all of
/// them where there are fewer.
pub proof fn a_head_is_what_was_asked_for(bytes: Option<usize>, total: int)
    requires
        0 <= total,
    ensures
        0 <= head_len(bytes, total) <= total,
        head_len(bytes, total) <= 8_192,
        total <= 16 ==> head_len(bytes, total) == total,
        bytes is None && total >= 512 ==> head_len(bytes, total) == 512,
        bytes is None && total < 512 ==> head_len(bytes, total) == total,
        bytes is Some && 16 <= bytes->0 <= 8_192 && bytes->0 <= total ==> head_len(bytes, total)
            == bytes->0,
{
}

/// A byte that is shown stands in its own line, at its own place, and is the byte of the
/// capture.
pub proof fn a_byte_is_dumped_in_its_place(bytes: Seq<u8>, shown: int, j: int)
    requires
        0 <= j < shown <= bytes.len(),
    ensures
        j % 16 < dump_chunk(bytes, shown, j / 16).len() <= 16,
        dump_chunk(bytes, shown, j / 16)[j % 16] == bytes[j],
{
}

proof fn two_digits(n: nat)
    ensures
        hex(n, 2).len() == 2,
        hex(n, 2)[0] == crate::text::digit(((n / 16) % 16) as int),
        hex(n, 2)[1] == crate::text::digit((n % 16) as int),
{
    reveal_with_fuel(hex, 3);
}

proof fn hex_column_at(bytes: Seq<u8>, i: int)
    requires
        0 <= i < bytes.len(),
    ensures
        hex_column(bytes).len() == 3 * bytes.len() - 1,
        hex_column(bytes)[3 * i] == crate::text::digit(bytes[i] as int / 16),
        hex_column(bytes)[3 * i + 1] == crate::text::digit(bytes[i] as int % 16),
        i + 1 < bytes.len() ==> hex_column(bytes)[3 * i + 2] == ' ',
    decreases bytes.len(),
{
    reveal_strlit(" ");
    let last = bytes.last();
    two_digits(last as nat);
    assert((last as nat / 16) % 16 == last as nat / 16);
    if bytes.len() > 1 {
        let rest = bytes.drop_last();
        hex_column_at(rest, 0);
        if i < rest.len() {
            hex_column_at(rest, i);
        }
    }
}

/// A line of a dump says each of its bytes twice: as two hexadecimal digits, the high one
/// first, with a space behind, and as the character it is where it can be printed.
pub proof fn a_line_says_each_byte_twice(offset: nat, bytes: Seq<u8>, i: int)
    requires
        0 <= i < bytes.len() <= 16,
    ensures
        ({
            let line = dump_line(offset, bytes);
            &&& line.len() == 59 + bytes.len()
            &&& line[10 + 3 * i] == crate::text::digit(bytes[i] as int / 16)
            &&& line[11 + 3 * i] == crate::text::digit(bytes[i] as int % 16)
            &&& line[12 + 3 * i] == ' '
            &&& 0x20 <= bytes[i] < 0x7f ==> line[59 + i] == bytes[i] as char
            &&& bytes[i] < 0x20 || bytes[i] >= 0x7f ==> line[59 + i] == '.'
        }),
{
    reveal_strlit("  ");
    hex_column_at(bytes, i);
    eight_digits(offset);
    let hexed = filled(hex_column(bytes), 47);
    assert(hexed.len() == 47);
    let shown = bytes.map_values(|b: u8| printable(b));
    let head = hex(offset, 8) + "  "@;
    let line = dump_line(offset, bytes);
    assert(head.len() == 10);
    assert(line == head + hexed + "  "@ + shown);
    assert(line[10 + 3 * i] == hexed[3 * i]);
    assert(line[11 + 3 * i] == hexed[3 * i + 1]);
    if 3 * i + 2 < 47 {
        assert(line[12 + 3 * i] == hexed[3 * i + 2]);
    }
    assert(line[59 + i] == shown[i]);
}

proof fn eight_digits(n: nat)
    ensures
        hex(n, 8).len() == 8,
{
    reveal_with_fuel(hex, 9);
}

/// A name keeps every letter, digit, hyphen and underscore in its place, and has a hyphen
/// for anything else.
pub proof fn a_safe_name_keeps_what_is_safe(s: Seq<char>, i: int)
    requires
        0 <= i < s.len(),
    ensures
        'a' <= s[i] <= 'z' || 'A' <= s[i] <= 'Z' || '0' <= s[i] <= '9' || s[i] == '_' ==> safe(
            s,
        )[i] == s[i],
        !('a' <= s[i] <= 'z' || 'A' <= s[i] <= 'Z' || '0' <= s[i] <= '9' || s[i] == '_') ==> safe(
            s,
        )[i] == '-',
{
}

/// A line that ends is counted, and what follows the last newline is a line of its own kind:
/// there are as many lines as newlines, none of them holds one, and what is left is there
/// exactly where the text does not end with one.
pub proof fn a_line_is_ended_by_its_newline(text: Seq<char>)
    ensures
        ended_lines(text).len() == text.filter(|c: char| c == '\n').len(),
        unended(text) is Some <==> text.len() > 0 && text[text.len() - 1] != '\n',
        forall|i: int|
            0 <= i < ended_lines(text).len() ==> !(#[trigger] ended_lines(text)[i]).contains('\n'),
        unended(text) is Some ==> !unended(text)->0.contains('\n'),
{
    split_on_is_never_empty(text, '\n');
    as_many_pieces_as_separators(text, '\n');
    crate::live_study::console::pieces_hold_no_separator(text, '\n');
}

proof fn as_many_pieces_as_separators(text: Seq<char>, sep: char)
    ensures
        split_on(text, sep).len() == text.filter(|c: char| c == sep).len() + 1,
    decreases text.len(),
{
    reveal(Seq::filter);
    if text.len() > 0 {
        as_many_pieces_as_separators(text.drop_last(), sep);
        split_on_is_never_empty(text.drop_last(), sep);
    }
}

} // verus!
