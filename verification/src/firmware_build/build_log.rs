//! The build logs kept on disk: what each is called, what its name says, and which of
//! them are kept.

use vstd::prelude::*;
use vstd::string::*;
use crate::path::{last_dot_is, stem_of, stem_with};
use crate::sorting::{sorted_order, stable_order};
use crate::studies_api::pages::{safe, safe_filename};
use crate::text::{
    before, chars_of, dec, decimal, decimal_digits, digit, digit_of, digits_value, number,
    parse_u64, same, text_of,
};

verus! {

/// How many build logs are kept.
pub const MAX_KEPT_LOGS: usize = 50;

/// The first number that does not fit in thirteen digits.
pub const STAMP_LIMIT: u64 = 10_000_000_000_000;

/// The last `width` decimal digits of `n`.
pub open spec fn last_digits(n: nat, width: nat) -> Seq<char>
    decreases width,
{
    if width == 0 {
        Seq::empty()
    } else {
        last_digits(n / 10, (width - 1) as nat).push(digit((n % 10) as int))
    }
}

/// A stamp in decimal, at least thirteen digits of it.
pub open spec fn stamp_digits(n: nat) -> Seq<char> {
    if n < STAMP_LIMIT {
        last_digits(n, 13)
    } else {
        decimal(n)
    }
}

pub open spec fn outcome_word(ok: bool) -> Seq<char> {
    if ok {
        "ok"@
    } else {
        "failed"@
    }
}

/// The name of a build's log without its extension.
pub open spec fn log_stem(started_utc_ms: nat, project: Seq<char>, ok: bool) -> Seq<char> {
    stamp_digits(started_utc_ms) + "-"@ + safe(project) + "-"@ + outcome_word(ok)
}

fn digits_13(n: u64, width: usize) -> (r: Vec<char>)
    ensures
        r@ == last_digits(n as nat, width as nat),
    decreases width,
{
    if width == 0 {
        Vec::new()
    } else {
        let mut out = digits_13(n / 10, width - 1);
        out.push(digit_of((n % 10) as u8));
        out
    }
}

fn outcome_of(ok: bool) -> (r: &'static str)
    ensures
        r@ == outcome_word(ok),
{
    if ok {
        "ok"
    } else {
        "failed"
    }
}

/// The name a build's log is kept under: when it began, of what it was, and how it
/// ended.
pub fn log_name(started_utc_ms: u64, project: &str, ok: bool) -> (r: String)
    ensures
        r@ == log_stem(started_utc_ms as nat, project@, ok) + ".log"@,
{
    let mut name = if started_utc_ms < STAMP_LIMIT {
        let cs = digits_13(started_utc_ms, 13);
        text_of(cs.as_slice())
    } else {
        dec(started_utc_ms)
    };
    name.append("-");
    name.append(safe_filename(project).as_str());
    name.append("-");
    name.append(outcome_of(ok));
    name.append(".log");
    name
}

/// What a log begins with.
pub open spec fn header_text(
    started_utc_ms: nat,
    project: Seq<char>,
    descriptor: Seq<char>,
    ok: bool,
) -> Seq<char> {
    "# embarch-ui build log\n# project: "@ + project + "\n# target: "@ + descriptor
        + "\n# started_utc_ms: "@ + decimal(started_utc_ms) + "\n# result: "@ + outcome_word(ok)
        + "\n\n"@
}

/// The whole text of a log: what it was a build of, then what the build said.
pub fn log_text(started_utc_ms: u64, project: &str, descriptor: &str, ok: bool, body: &str) -> (r:
    String)
    ensures
        r@ == header_text(started_utc_ms as nat, project@, descriptor@, ok) + body@,
{
    let mut text = "# embarch-ui build log\n# project: ".to_owned();
    text.append(project);
    text.append("\n# target: ");
    text.append(descriptor);
    text.append("\n# started_utc_ms: ");
    text.append(dec(started_utc_ms).as_str());
    text.append("\n# result: ");
    text.append(outcome_of(ok));
    text.append("\n\n");
    text.append(body);
    text
}

// ---- reading names -----------------------------------------------------------

/// One entry of the list of build logs.
#[derive(Debug)]
pub struct BuildLogEntry {
    /// The file's own name.
    pub id: String,
    pub started_utc_ms: u64,
    pub project: String,
    pub descriptor: String,
    pub ok: bool,
    pub bytes: u64,
}

/// Whether `s` ends with `tail`.
pub open spec fn ends(s: Seq<char>, tail: Seq<char>) -> bool {
    s.len() >= tail.len() && s.skip(s.len() - tail.len()) == tail
}

/// `s` without the extensions `.log` it ends with.
pub open spec fn bare_name(s: Seq<char>) -> Seq<char>
    decreases s.len(),
{
    if s.len() >= 4 && ends(s, ".log"@) {
        bare_name(s.take(s.len() - 4))
    } else {
        s
    }
}

/// Where a character first stands.
pub open spec fn first_at(s: Seq<char>, c: char) -> Option<int>
    decreases s.len(),
{
    if s.len() == 0 {
        None
    } else {
        match first_at(s.drop_last(), c) {
            Some(i) => Some(i),
            None => if s.last() == c {
                Some(s.len() - 1)
            } else {
                None
            },
        }
    }
}

/// Where a character last stands.
pub open spec fn last_at(s: Seq<char>, c: char) -> Option<int>
    decreases s.len(),
{
    if s.len() == 0 {
        None
    } else if s.last() == c {
        Some(s.len() - 1)
    } else {
        last_at(s.drop_last(), c)
    }
}

/// What stands before the first hyphen.
pub open spec fn head_of(s: Seq<char>) -> Seq<char> {
    match first_at(s, '-') {
        Some(i) => s.take(i),
        None => s,
    }
}

/// What stands after the first hyphen.
pub open spec fn rest_of(s: Seq<char>) -> Seq<char> {
    match first_at(s, '-') {
        Some(i) => s.skip(i + 1),
        None => Seq::empty(),
    }
}

/// What a log's name says: when its build began, of what it was, and whether it went
/// well.
pub ghost struct LogFields {
    pub started_utc_ms: nat,
    pub project: Seq<char>,
    pub ok: bool,
}

/// What the name of a log says, where it is the name of one.
pub open spec fn fields_of(id: Seq<char>) -> Option<LogFields> {
    let stem = bare_name(id);
    let rest = rest_of(stem);
    if stem_of(id, "log"@) is None {
        None
    } else {
        match number(head_of(stem)) {
            None => None,
            Some(started_utc_ms) => Some(
                match last_at(rest, '-') {
                    Some(i) => LogFields {
                        started_utc_ms,
                        project: rest.take(i),
                        ok: rest.skip(i + 1) == "ok"@,
                    },
                    None => LogFields { started_utc_ms, project: rest, ok: false },
                },
            ),
        }
    }
}

pub proof fn first_at_is(s: Seq<char>, c: char, i: int)
    requires
        0 <= i < s.len(),
        s[i] == c,
        forall|j: int| 0 <= j < i ==> s[j] != c,
    ensures
        first_at(s, c) == Some(i),
    decreases s.len(),
{
    if i < s.len() - 1 {
        first_at_is(s.drop_last(), c, i);
    } else {
        first_at_is_none(s.drop_last(), c);
    }
}

pub proof fn first_at_is_none(s: Seq<char>, c: char)
    requires
        forall|j: int| 0 <= j < s.len() ==> s[j] != c,
    ensures
        first_at(s, c) is None,
    decreases s.len(),
{
    if s.len() > 0 {
        first_at_is_none(s.drop_last(), c);
        assert(s[s.len() - 1] != c);
    }
}

pub proof fn last_at_is(s: Seq<char>, c: char, i: int)
    requires
        0 <= i < s.len(),
        s[i] == c,
        forall|j: int| i < j < s.len() ==> s[j] != c,
    ensures
        last_at(s, c) == Some(i),
    decreases s.len(),
{
    if i < s.len() - 1 {
        assert(s[s.len() - 1] != c);
        last_at_is(s.drop_last(), c, i);
    }
}

pub proof fn last_at_is_none(s: Seq<char>, c: char)
    requires
        forall|j: int| 0 <= j < s.len() ==> s[j] != c,
    ensures
        last_at(s, c) is None,
    decreases s.len(),
{
    if s.len() > 0 {
        assert(s[s.len() - 1] != c);
        last_at_is_none(s.drop_last(), c);
    }
}

fn piece(cs: &Vec<char>, from: usize, to: usize) -> (r: Vec<char>)
    requires
        from <= to <= cs.len(),
    ensures
        r@ == cs@.subrange(from as int, to as int),
{
    let mut out: Vec<char> = Vec::new();
    for i in from..to
        invariant
            from <= to <= cs.len(),
            out@ =~= cs@.subrange(from as int, i as int),
    {
        out.push(cs[i]);
    }
    out
}

fn ends_in_log(cs: &Vec<char>, n: usize) -> (r: bool)
    requires
        n <= cs.len(),
    ensures
        r == ends(cs@.take(n as int), ".log"@),
{
    proof {
        reveal_strlit(".log");
    }
    let r = n >= 4 && cs[n - 4] == '.' && cs[n - 3] == 'l' && cs[n - 2] == 'o' && cs[n - 1] == 'g';
    proof {
        if n >= 4 {
            let t = cs@.take(n as int).skip(n - 4);
            assert(t[0] == cs@[n - 4] && t[1] == cs@[n - 3] && t[2] == cs@[n - 2] && t[3] == cs@[n
                - 1]);
            if r {
                assert(t =~= ".log"@);
            }
        }
    }
    r
}

fn bare_chars(id: &str) -> (r: Vec<char>)
    ensures
        r@ == bare_name(id@),
{
    let cs = chars_of(id);
    let mut n: usize = cs.len();
    assert(id@.take(n as int) =~= id@);
    proof {
        reveal_strlit(".log");
    }
    while ends_in_log(&cs, n)
        invariant
            cs@ == id@,
            n <= cs.len(),
            bare_name(id@) == bare_name(id@.take(n as int)),
            ".log"@.len() == 4,
        decreases n,
    {
        assert(id@.take(n as int).take(n - 4) =~= id@.take(n - 4));
        n = n - 4;
    }
    let out = piece(&cs, 0, n);
    assert(out@ =~= id@.take(n as int));
    out
}

fn split_first(stem: &Vec<char>) -> (r: (String, Vec<char>))
    ensures
        r.0@ == head_of(stem@),
        r.1@ == rest_of(stem@),
{
    let n: usize = stem.len();
    let mut dash: usize = 0;
    while dash < n && stem[dash] != '-'
        invariant
            dash <= n,
            n == stem.len(),
            forall|j: int| 0 <= j < dash ==> stem@[j] != '-',
        decreases n - dash,
    {
        dash = dash + 1;
    }
    let head = piece(stem, 0, dash);
    if dash < n {
        proof {
            first_at_is(stem@, '-', dash as int);
        }
        let rest = piece(stem, dash + 1, n);
        assert(head@ =~= head_of(stem@));
        assert(rest@ =~= rest_of(stem@));
        (text_of(head.as_slice()), rest)
    } else {
        proof {
            first_at_is_none(stem@, '-');
        }
        assert(head@ =~= head_of(stem@));
        (text_of(head.as_slice()), Vec::new())
    }
}

fn split_last(rest: &Vec<char>) -> (r: (String, bool))
    ensures
        match last_at(rest@, '-') {
            Some(i) => r.0@ == rest@.take(i) && r.1 == (rest@.skip(i + 1) == "ok"@),
            None => r.0@ == rest@ && !r.1,
        },
{
    let n: usize = rest.len();
    let mut last: usize = n;
    while last > 0 && rest[last - 1] != '-'
        invariant
            last <= n,
            n == rest.len(),
            forall|j: int| last <= j < n ==> rest@[j] != '-',
        decreases last,
    {
        last = last - 1;
    }
    if last > 0 {
        proof {
            last_at_is(rest@, '-', last - 1);
        }
        let project = piece(rest, 0, last - 1);
        let status = piece(rest, last, n);
        assert(project@ =~= rest@.take(last - 1));
        assert(status@ =~= rest@.skip(last as int));
        let word = text_of(status.as_slice());
        (text_of(project.as_slice()), same(word.as_str(), "ok"))
    } else {
        proof {
            last_at_is_none(rest@, '-');
        }
        (text_of(rest.as_slice()), false)
    }
}

/// What the name of a log says, where it is the name of one, and how big the log is.
pub fn log_entry(id: &str, bytes: u64) -> (r: Option<BuildLogEntry>)
    ensures
        match fields_of(id@) {
            None => r is None,
            Some(f) => {
                &&& r is Some
                &&& r->0.id@ == id@
                &&& r->0.started_utc_ms == f.started_utc_ms
                &&& r->0.project@ == f.project
                &&& r->0.descriptor@.len() == 0
                &&& r->0.ok == f.ok
                &&& r->0.bytes == bytes
            },
        },
{
    if stem_with(id, "log").is_none() {
        return None;
    }
    let stem = bare_chars(id);
    let (head, rest) = split_first(&stem);
    match parse_u64(head.as_str()) {
        Some(started_utc_ms) => {
            let (project, ok) = split_last(&rest);
            Some(
                BuildLogEntry {
                    id: id.to_owned(),
                    started_utc_ms,
                    project,
                    descriptor: String::new(),
                    ok,
                    bytes,
                },
            )
        },
        None => None,
    }
}

/// The order in which logs are listed: the newest first.
pub fn log_order(entries: &Vec<BuildLogEntry>) -> (r: Vec<usize>)
    ensures
        stable_order(
            entries@.map_values(|e: BuildLogEntry| (u64::MAX - e.started_utc_ms) as u64),
            r@,
        ),
{
    let mut keys: Vec<u64> = Vec::new();
    for i in 0..entries.len()
        invariant
            keys.len() == i,
            forall|j: int| 0 <= j < i ==> keys@[j] == (u64::MAX - entries@[j].started_utc_ms) as u64,
    {
        keys.push(u64::MAX - entries[i].started_utc_ms);
    }
    assert(keys@ =~= entries@.map_values(
        |e: BuildLogEntry| (u64::MAX - e.started_utc_ms) as u64,
    ));
    sorted_order(&keys)
}

// ---- laws of names -----------------------------------------------------------

proof fn last_digits_are_digits(n: nat, width: nat)
    requires
        n < pow10(width),
    ensures
        last_digits(n, width).len() == width,
        digits_value(last_digits(n, width)) == Some(n),
        forall|i: int| 0 <= i < width ==> '0' <= #[trigger] last_digits(n, width)[i] <= '9',
    decreases width,
{
    if width > 0 {
        assert(n / 10 < pow10((width - 1) as nat)) by {
            assert(pow10(width) == 10 * pow10((width - 1) as nat));
        }
        last_digits_are_digits(n / 10, (width - 1) as nat);
        assert(last_digits(n, width).drop_last() =~= last_digits(n / 10, (width - 1) as nat));
    }
}

pub open spec fn pow10(k: nat) -> nat
    decreases k,
{
    if k == 0 {
        1
    } else {
        10 * pow10((k - 1) as nat)
    }
}

proof fn pow10_13()
    ensures
        pow10(13) == STAMP_LIMIT,
{
    reveal_with_fuel(pow10, 14);
}

proof fn stamp_digits_are_digits(n: nat)
    ensures
        stamp_digits(n).len() > 0,
        digits_value(stamp_digits(n)) == Some(n),
        forall|i: int|
            0 <= i < stamp_digits(n).len() ==> '0' <= #[trigger] stamp_digits(n)[i] <= '9',
{
    if n < STAMP_LIMIT {
        pow10_13();
        last_digits_are_digits(n, 13);
    } else {
        decimal_digits(n);
    }
}

/// A log's name says what it was written with: when its build began, of what it was and
/// how it ended.
pub proof fn a_log_name_says_what_it_was(started_utc_ms: nat, project: Seq<char>, ok: bool)
    requires
        started_utc_ms <= u64::MAX,
    ensures
        fields_of(log_stem(started_utc_ms, project, ok) + ".log"@) == Some(
            LogFields { started_utc_ms, project: safe(project), ok },
        ),
{
    reveal_strlit(".log");
    reveal_strlit("log");
    reveal_strlit("-");
    reveal_strlit("ok");
    reveal_strlit("failed");
    let digits = stamp_digits(started_utc_ms);
    stamp_digits_are_digits(started_utc_ms);
    let word = outcome_word(ok);
    let stem = log_stem(started_utc_ms, project, ok);
    let id = stem + ".log"@;
    let n = stem.len() as int;
    // The extension.
    assert(id[n] == '.');
    assert forall|j: int| n < j < id.len() implies id[j] != '.' by {
        assert(id[j] == ".log"@[j - n]);
    }
    last_dot_is(id, n);
    assert(id.skip(n + 1) =~= "log"@);
    assert(id.len() > 4);
    assert(stem_of(id, "log"@) is Some) by {
        assert(id != ".."@) by {
            reveal_strlit("..");
        }
    }
    // The stem.
    assert(id.skip(id.len() - 4) =~= ".log"@);
    assert(id.take(id.len() - 4) =~= stem);
    assert(stem.last() == word.last());
    assert(!ends(stem, ".log"@)) by {
        if stem.len() >= 4 && stem.skip(stem.len() - 4) == ".log"@ {
            assert(stem.skip(stem.len() - 4)[3] == stem.last());
        }
    }
    assert(bare_name(id) == bare_name(stem));
    assert(bare_name(stem) == stem);
    // The stamp.
    let d = digits.len() as int;
    assert(stem[d] == '-');
    assert forall|j: int| 0 <= j < d implies stem[j] != '-' by {
        assert(stem[j] == digits[j]);
    }
    first_at_is(stem, '-', d);
    assert(head_of(stem) =~= digits);
    assert(digits[0] != '+');
    assert(number(digits) == Some(started_utc_ms));
    // The rest.
    let rest = safe(project) + "-"@ + word;
    assert(rest_of(stem) =~= rest);
    let p = safe(project).len() as int;
    assert(rest[p] == '-');
    assert forall|j: int| p < j < rest.len() implies rest[j] != '-' by {
        assert(rest[j] == word[j - p - 1]);
    }
    last_at_is(rest, '-', p);
    assert(rest.take(p) =~= safe(project));
    assert(rest.skip(p + 1) =~= word);
    if !ok {
        assert(word.len() != "ok"@.len());
    }
}

proof fn before_after_prefix(p: Seq<char>, x: Seq<char>, y: Seq<char>)
    ensures
        before(p + x, p + y) == before(x, y),
    decreases p.len(),
{
    if p.len() == 0 {
        assert(p + x =~= x);
        assert(p + y =~= y);
    } else {
        assert((p + x).drop_first() =~= p.drop_first() + x);
        assert((p + y).drop_first() =~= p.drop_first() + y);
        before_after_prefix(p.drop_first(), x, y);
    }
}

proof fn digits_sort(a: nat, b: nat, width: nat, x: Seq<char>, y: Seq<char>)
    requires
        a < b,
        b < pow10(width),
    ensures
        before(last_digits(a, width) + x, last_digits(b, width) + y),
    decreases width,
{
    if width > 0 {
        let w = (width - 1) as nat;
        let da = seq![digit((a % 10) as int)];
        let db = seq![digit((b % 10) as int)];
        assert(last_digits(a, width) + x =~= last_digits(a / 10, w) + (da + x));
        assert(last_digits(b, width) + y =~= last_digits(b / 10, w) + (db + y));
        if a / 10 < b / 10 {
            assert(b / 10 < pow10(w)) by {
                assert(pow10(width) == 10 * pow10(w));
            }
            digits_sort(a / 10, b / 10, w, da + x, db + y);
        } else {
            assert(a / 10 == b / 10);
            before_after_prefix(last_digits(a / 10, w), da + x, db + y);
            assert((da + x)[0] == digit((a % 10) as int));
            assert((db + y)[0] == digit((b % 10) as int));
        }
    }
}

/// The names of logs sort by when their builds began, as long as that fits in thirteen
/// digits.
pub proof fn log_names_sort_chronologically(
    earlier: nat,
    later: nat,
    a: Seq<char>,
    b: Seq<char>,
    a_ok: bool,
    b_ok: bool,
)
    requires
        earlier < later,
        later < STAMP_LIMIT,
    ensures
        before(log_stem(earlier, a, a_ok) + ".log"@, log_stem(later, b, b_ok) + ".log"@),
{
    pow10_13();
    let x = "-"@ + safe(a) + "-"@ + outcome_word(a_ok) + ".log"@;
    let y = "-"@ + safe(b) + "-"@ + outcome_word(b_ok) + ".log"@;
    digits_sort(earlier, later, 13, x, y);
    assert(log_stem(earlier, a, a_ok) + ".log"@ =~= last_digits(earlier, 13) + x);
    assert(log_stem(later, b, b_ok) + ".log"@ =~= last_digits(later, 13) + y);
}

// ---- keeping -----------------------------------------------------------------

/// Which logs go: the oldest by name, past as many as are kept.
///
/// `names` are those in the directory; the answer lists their places.
pub fn prune(names: &Vec<String>) -> (r: Vec<usize>)
    ensures
        exists|order: Seq<usize>|
            {
                &&& stable_order(names@, order)
                &&& r@ == (if names@.len() <= MAX_KEPT_LOGS {
                    Seq::empty()
                } else {
                    order.take(names@.len() - MAX_KEPT_LOGS)
                })
            },
        names@.len() <= MAX_KEPT_LOGS ==> r@.len() == 0,
        names@.len() > MAX_KEPT_LOGS ==> r@.len() == names@.len() - MAX_KEPT_LOGS,
        forall|g: int, k: int|
            #![trigger r@[g], names@[k]]
            0 <= g < r@.len() && 0 <= k < names@.len() && !r@.contains(k as usize) ==> !before(
                names@[k]@,
                names@[r@[g] as int]@,
            ),
{
    let order = sorted_order(names);
    let mut out: Vec<usize> = Vec::new();
    let gone: usize = if names.len() <= MAX_KEPT_LOGS {
        0
    } else {
        names.len() - MAX_KEPT_LOGS
    };
    for i in 0..gone
        invariant
            gone <= order.len(),
            out@ =~= order@.take(i as int),
    {
        out.push(order[i]);
    }
    assert(stable_order(names@, order@));
    proof {
        if names@.len() > MAX_KEPT_LOGS {
            the_oldest_logs_go(names@, order@);
        }
    }
    assert(order@.take(0) =~= Seq::empty());
    out
}

/// Whether an id names a log and nothing else: the right extension, no separator, and
/// no way up.
pub open spec fn is_log_id(id: Seq<char>) -> bool {
    &&& id.len() > 0
    &&& ends(id, ".log"@)
    &&& !id.contains('/')
    &&& !id.contains('\\')
    &&& forall|i: int| 0 <= i < id.len() - 1 ==> !(#[trigger] id[i] == '.' && id[i + 1] == '.')
}

/// Decides whether an id names a log, or says that it does not.
pub fn check_log_id(id: &str) -> (r: Result<(), String>)
    ensures
        r is Ok == is_log_id(id@),
        r matches Err(e) ==> e@ == "'"@ + id@ + "' is not a build log id"@,
{
    let cs = chars_of(id);
    let n: usize = cs.len();
    proof {
        reveal_strlit(".log");
        assert(id@.take(n as int) =~= id@);
    }
    let mut good = ends_in_log(&cs, n);
    let ghost extension = good;
    for i in 0..n
        invariant
            cs@ == id@,
            n == cs.len(),
            good == (extension && forall|j: int|
                0 <= j < i ==> {
                    &&& #[trigger] id@[j] != '/'
                    &&& id@[j] != '\\'
                    &&& !(j + 1 < n && id@[j] == '.' && id@[j + 1] == '.')
                }),
    {
        let c = cs[i];
        if c == '/' || c == '\\' || (c == '.' && i + 1 < n && cs[i + 1] == '.') {
            assert(!(id@[i as int] != '/' && id@[i as int] != '\\' && !(i + 1 < n && id@[i as int]
                == '.' && id@[i + 1] == '.')));
            good = false;
        }
    }
    proof {
        if good {
            assert(forall|j: int| 0 <= j < n ==> #[trigger] id@[j] != '/' && id@[j] != '\\');
        } else if is_log_id(id@) {
            let j = choose|j: int|
                0 <= j < n && !(#[trigger] id@[j] != '/' && id@[j] != '\\' && !(j + 1 < n && id@[j]
                    == '.' && id@[j + 1] == '.'));
            assert(id@.contains(id@[j]));
        }
    }
    if good {
        Ok(())
    } else {
        let mut e = "'".to_owned();
        e.append(id);
        e.append("' is not a build log id");
        Err(e)
    }
}

/// A log's own name is an id of one.
pub proof fn a_log_name_is_a_log_id(started_utc_ms: nat, project: Seq<char>, ok: bool)
    ensures
        is_log_id(log_stem(started_utc_ms, project, ok) + ".log"@),
{
    reveal_strlit(".log");
    reveal_strlit("-");
    reveal_strlit("ok");
    reveal_strlit("failed");
    let digits = stamp_digits(started_utc_ms);
    stamp_digits_are_digits(started_utc_ms);
    let word = outcome_word(ok);
    let stem = log_stem(started_utc_ms, project, ok);
    let id = stem + ".log"@;
    let n = stem.len() as int;
    assert(id.skip(id.len() - 4) =~= ".log"@);
    assert forall|j: int| 0 <= j < n implies #[trigger] id[j] != '/' && id[j] != '\\' && id[j] != '.' by {
        let d = digits.len() as int;
        let p = safe(project).len() as int;
        if j < d {
            assert(id[j] == digits[j]);
        } else if d < j < d + 1 + p {
            assert(id[j] == safe(project)[j - d - 1]);
        } else if j > d + 1 + p {
            assert(id[j] == word[j - d - p - 2]);
        }
    }
    assert forall|j: int| n <= j < id.len() implies #[trigger] id[j] == ".log"@[j - n] by {}
    assert(!id.contains('/'));
    assert(!id.contains('\\'));
}

/// The logs that go are the first by name: none that stays comes before one of them.
pub proof fn the_oldest_logs_go(names: Seq<String>, order: Seq<usize>)
    requires
        stable_order(names, order),
        MAX_KEPT_LOGS < names.len() <= usize::MAX,
    ensures
        ({
            let gone = order.take(names.len() - MAX_KEPT_LOGS);
            forall|g: int, k: int|
                #![trigger gone[g], names[k]]
                0 <= g < gone.len() && 0 <= k < names.len() && !gone.contains(k as usize)
                    ==> !before(names[k]@, names[gone[g] as int]@)
        }),
{
    let gone = order.take(names.len() - MAX_KEPT_LOGS);
    assert forall|g: int, k: int|
        #![trigger gone[g], names[k]]
        0 <= g < gone.len() && 0 <= k < names.len() && !gone.contains(k as usize) implies !before(
        names[k]@,
        names[gone[g] as int]@,
    ) by {
        assert(order.contains(k as usize));
        let at = choose|at: int| 0 <= at < order.len() && order[at] == k as usize;
        if at < gone.len() {
            assert(gone[at] == k as usize);
        }
        assert(gone[g] == order[g]);
        let a = names[order[g] as int]@;
        let b = names[order[at] as int]@;
        crate::text::before_is_total(a, b);
        crate::text::before_is_total(a, a);
    }
}

/// The log that began last is listed first.
pub proof fn logs_are_listed_newest_first(entries: Seq<BuildLogEntry>, order: Seq<usize>, i: int, j: int)
    requires
        stable_order(
            entries.map_values(|e: BuildLogEntry| (u64::MAX - e.started_utc_ms) as u64),
            order,
        ),
        0 <= i < j < order.len(),
    ensures
        entries[order[i] as int].started_utc_ms >= entries[order[j] as int].started_utc_ms,
        order.len() == entries.len(),
{
    let keys = entries.map_values(|e: BuildLogEntry| (u64::MAX - e.started_utc_ms) as u64);
    assert(keys[order[i] as int] <= keys[order[j] as int]);
}

/// An id with a separator in it, with a way up or with another ending names no log.
pub proof fn an_id_names_nothing_but_a_log(id: Seq<char>, i: int)
    requires
        0 <= i < id.len(),
    ensures
        id[i] == '/' || id[i] == '\\' ==> !is_log_id(id),
        i + 1 < id.len() && id[i] == '.' && id[i + 1] == '.' ==> !is_log_id(id),
        id.len() < 4 || id.skip(id.len() - 4) != ".log"@ ==> !is_log_id(id),
{
    reveal_strlit(".log");
    assert(id.contains(id[i]));
}

/// A log begins with what it was a build of, and says how that went.
pub proof fn a_log_begins_with_what_it_was(
    started_utc_ms: nat,
    project: Seq<char>,
    descriptor: Seq<char>,
)
    ensures
        ({
            let head = "# embarch-ui build log\n# project: "@ + project + "\n# target: "@
                + descriptor + "\n# started_utc_ms: "@ + decimal(started_utc_ms)
                + "\n# result: "@;
            &&& header_text(started_utc_ms, project, descriptor, true) == head + "ok"@ + "\n\n"@
            &&& header_text(started_utc_ms, project, descriptor, false) == head + "failed"@
                + "\n\n"@
        }),
        outcome_word(true) != outcome_word(false),
{
    reveal_strlit("ok");
    reveal_strlit("failed");
    assert("ok"@.len() != "failed"@.len());
}

} // verus!
