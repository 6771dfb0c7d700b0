//! A console: text that arrives in chunks, assembled into lines.
//!
//! A chunk can end in the middle of a line. The remainder is carried as a partial
//! line and never padded into a whole one. Of a remainder past the length of a line only
//! its beginning is carried, and that there was more.

use std::collections::VecDeque;
use vstd::prelude::*;
use vstd::string::*;
use vstd::std_specs::vecdeque::*;
use crate::text::{
    a_cut_fits, byte_len, byte_len_of_a_prefix, char_rows, chars_of, cut, cut_text, split_chars,
    split_on, split_on_is_never_empty, text_of, width_of,
};

verus! {

/// Lines kept per console.
pub const MAX_CONSOLE_LINES: usize = 2_000;

/// Bytes kept per console, over all its lines.
pub const MAX_CONSOLE_BYTES: usize = 262_144;

/// A line longer than this is cut, and the cut is stated on the line. No more than this
/// is held of a line that has not ended either: text that arrives with no newline in it
/// does not make a console grow.
pub const MAX_CONSOLE_LINE_BYTES: usize = 8_192;

/// One line of a console.
#[derive(Debug)]
pub struct ConsoleLine {
    /// Monotonic within a session.
    pub seq: u64,
    pub step_index: u32,
    pub rx_utc_ms: u64,
    pub text: String,
    /// Set on a line that was cut at [`MAX_CONSOLE_LINE_BYTES`].
    pub truncated: bool,
}

/// What a [`ConsoleLine`] says.
pub ghost struct Line {
    pub seq: nat,
    pub step_index: u32,
    pub rx_utc_ms: u64,
    pub text: Seq<char>,
    pub truncated: bool,
}

impl View for ConsoleLine {
    type V = Line;

    open spec fn view(&self) -> Line {
        Line {
            seq: self.seq as nat,
            step_index: self.step_index,
            rx_utc_ms: self.rx_utc_ms,
            text: self.text@,
            truncated: self.truncated,
        }
    }
}

impl ConsoleLine {
    /// A copy of this line.
    pub fn copied(&self) -> (r: ConsoleLine)
        ensures
            r@ == self@,
    {
        ConsoleLine {
            seq: self.seq,
            step_index: self.step_index,
            rx_utc_ms: self.rx_utc_ms,
            text: self.text.clone(),
            truncated: self.truncated,
        }
    }
}

pub open spec fn lines(list: Seq<ConsoleLine>) -> Seq<Line> {
    Seq::new(list.len(), |i: int| list[i]@)
}

/// A chunk's own step and arrival.
pub ghost struct Stamp {
    pub step_index: u32,
    pub rx_utc_ms: u64,
}

/// What arrived of an unfinished line past what is held of it.
#[derive(Debug, Clone, Copy, PartialEq, Eq, Structural)]
pub enum Past {
    Nothing,
    /// A carriage return alone, which is no part of the line if it ends here.
    Return,
    More,
}

/// A console's lines and the remainder that is not a line yet.
#[derive(Debug)]
pub struct Console {
    pub lines: VecDeque<ConsoleLine>,
    /// Bytes over all of `lines`.
    pub bytes: u128,
    /// What arrived since the last newline, up to the length of a line.
    pub partial: String,
    /// What arrived past that.
    pub partial_past: Past,
    pub partial_step: u32,
    pub partial_rx_utc_ms: u64,
    /// Lines dropped off the front because a cap was hit.
    pub dropped: u64,
    /// Every line this console has ever produced, dropped ones included.
    pub total: u64,
}

/// What a [`Console`] holds.
pub ghost struct ConsoleState {
    pub lines: Seq<Line>,
    pub rest: Rest,
    pub stamp: Stamp,
    pub dropped: nat,
    pub total: nat,
}

impl View for Console {
    type V = ConsoleState;

    open spec fn view(&self) -> ConsoleState {
        ConsoleState {
            lines: lines(self.lines@),
            rest: Rest { text: self.partial@, past: self.partial_past },
            stamp: Stamp { step_index: self.partial_step, rx_utc_ms: self.partial_rx_utc_ms },
            dropped: self.dropped as nat,
            total: self.total as nat,
        }
    }
}

/// `s` without the carriage return it may end with.
pub open spec fn strip_cr(s: Seq<char>) -> Seq<char> {
    if s.len() > 0 && s.last() == '\r' {
        s.drop_last()
    } else {
        s
    }
}

/// The line that `text` makes once its newline has arrived.
pub open spec fn line_of(text: Seq<char>, seq: nat, stamp: Stamp) -> Line {
    Line {
        seq,
        step_index: stamp.step_index,
        rx_utc_ms: stamp.rx_utc_ms,
        text: cut(strip_cr(text), MAX_CONSOLE_LINE_BYTES as nat),
        truncated: byte_len(strip_cr(text)) > MAX_CONSOLE_LINE_BYTES,
    }
}

/// What is held of a line that has not ended.
pub ghost struct Rest {
    /// Its beginning, at most as long as a line.
    pub text: Seq<char>,
    pub past: Past,
}

/// What of an unfinished line is past the length of a line.
pub open spec fn past_of(s: Seq<char>) -> Past {
    if byte_len(s) <= MAX_CONSOLE_LINE_BYTES {
        Past::Nothing
    } else if s.last() == '\r' && byte_len(s) == MAX_CONSOLE_LINE_BYTES + 1 {
        Past::Return
    } else {
        Past::More
    }
}

impl Rest {
    /// What is held of an unfinished line `s`.
    pub open spec fn of(s: Seq<char>) -> Rest {
        Rest { text: cut(s, MAX_CONSOLE_LINE_BYTES as nat), past: past_of(s) }
    }

    pub open spec fn empty() -> Rest {
        Rest { text: Seq::empty(), past: Past::Nothing }
    }

    /// What is held once `t`, which holds no newline, has arrived too.
    pub open spec fn with(self, t: Seq<char>) -> Rest {
        match self.past {
            Past::Nothing => Rest::of(self.text + t),
            Past::Return => if t.len() == 0 {
                self
            } else {
                Rest { past: Past::More, ..self }
            },
            Past::More => self,
        }
    }

    /// The line that this makes once its newline has arrived.
    pub open spec fn line(self, seq: nat, stamp: Stamp) -> Line {
        Line {
            seq,
            step_index: stamp.step_index,
            rx_utc_ms: stamp.rx_utc_ms,
            text: if self.past is Nothing {
                strip_cr(self.text)
            } else {
                self.text
            },
            truncated: self.past is More,
        }
    }

    pub open spec fn wf(self) -> bool {
        &&& byte_len(self.text) <= MAX_CONSOLE_LINE_BYTES
        &&& !self.text.contains('\n')
    }
}

/// The bytes of a run of lines.
pub open spec fn bytes_of(list: Seq<Line>) -> nat
    decreases list.len(),
{
    if list.len() == 0 {
        0
    } else {
        bytes_of(list.drop_first()) + byte_len(list.first().text)
    }
}

/// What is kept of a run of lines: the longest suffix within both caps.
pub open spec fn kept(list: Seq<Line>) -> Seq<Line>
    decreases list.len(),
{
    if list.len() > 0 && (list.len() > MAX_CONSOLE_LINES || bytes_of(list) > MAX_CONSOLE_BYTES) {
        kept(list.drop_first())
    } else {
        list
    }
}

impl ConsoleState {
    /// A console nothing has arrived on.
    pub open spec fn empty() -> ConsoleState {
        ConsoleState {
            lines: Seq::empty(),
            rest: Rest::empty(),
            stamp: Stamp { step_index: 0, rx_utc_ms: 0 },
            dropped: 0,
            total: 0,
        }
    }

    /// The stamp of the line being assembled once a chunk stamped `stamp` arrives: the
    /// remainder's own, and the chunk's where there is none.
    pub open spec fn open_stamp(self, stamp: Stamp) -> Stamp {
        if self.rest.text.len() == 0 {
            stamp
        } else {
            self.stamp
        }
    }

    /// What is held of the text up to newline `i` of a chunk: the remainder goes on into
    /// the first piece. The last one is the new remainder.
    pub open spec fn piece(self, text: Seq<char>, i: int) -> Rest {
        if i == 0 {
            self.rest.with(split_on(text, '\n')[0])
        } else {
            Rest::of(split_on(text, '\n')[i])
        }
    }

    /// The lines a chunk completes. Each carries the stamp of the chunk it started in,
    /// and the numbers go on from `seq`.
    pub open spec fn completed(self, seq: nat, stamp: Stamp, text: Seq<char>) -> Seq<Line> {
        Seq::new(
            newlines(text),
            |i: int|
                self.piece(text, i).line(
                    (seq + i + 1) as nat,
                    if i == 0 {
                        self.open_stamp(stamp)
                    } else {
                        stamp
                    },
                ),
        )
    }

    /// The console after a chunk.
    pub open spec fn after(self, seq: nat, stamp: Stamp, text: Seq<char>) -> ConsoleState {
        let fresh = self.completed(seq, stamp, text);
        let all = self.lines + fresh;
        ConsoleState {
            lines: kept(all),
            rest: self.piece(text, newlines(text) as int),
            stamp: if fresh.len() == 0 {
                self.open_stamp(stamp)
            } else {
                stamp
            },
            dropped: self.dropped + (all.len() - kept(all).len()) as nat,
            total: self.total + fresh.len(),
        }
    }

    /// The caps hold, the remainder is no longer than a line and holds no newline, and
    /// every line ever produced is either kept or counted as dropped.
    pub open spec fn wf(self) -> bool {
        &&& self.lines.len() <= MAX_CONSOLE_LINES
        &&& bytes_of(self.lines) <= MAX_CONSOLE_BYTES
        &&& self.rest.wf()
        &&& self.dropped + self.lines.len() == self.total
    }
}

// ---- a line held back ----------------------------------------------------------

proof fn byte_len_adds(a: Seq<char>, b: Seq<char>)
    ensures
        byte_len(a + b) == byte_len(a) + byte_len(b),
    decreases b.len(),
{
    if b.len() == 0 {
        assert(a + b =~= a);
    } else {
        assert((a + b).drop_last() =~= a + b.drop_last());
        byte_len_adds(a, b.drop_last());
    }
}

/// What follows a text that is too long already does not change where it is cut.
proof fn cut_of_more(s: Seq<char>, t: Seq<char>, cap: nat)
    requires
        byte_len(s) > cap,
    ensures
        cut(s + t, cap) == cut(s, cap),
    decreases t.len(),
{
    byte_len_adds(s, t);
    if t.len() == 0 {
        assert(s + t =~= s);
    } else {
        assert((s + t).drop_last() =~= s + t.drop_last());
        cut_of_more(s, t.drop_last(), cap);
    }
}

/// Holding back is done piece by piece: what is held of two texts in a row is what is
/// held of them as one.
pub proof fn held_back_in_two(s: Seq<char>, t: Seq<char>)
    ensures
        Rest::of(s).with(t) == Rest::of(s + t),
{
    byte_len_adds(s, t);
    if byte_len(s) > MAX_CONSOLE_LINE_BYTES {
        if t.len() == 0 {
            assert(s + t =~= s);
        } else {
            cut_of_more(s, t, MAX_CONSOLE_LINE_BYTES as nat);
            byte_len_of_a_prefix(t, 0);
        }
    }
}

/// The same of a remainder.
proof fn held_on(r: Rest, a: Seq<char>, b: Seq<char>)
    ensures
        r.with(a).with(b) == r.with(a + b),
{
    if r.past is Nothing {
        held_back_in_two(r.text + a, b);
        assert(r.text + a + b =~= r.text + (a + b));
    } else if a.len() == 0 {
        assert(a + b =~= b);
    }
}

/// Holding back loses nothing of the line: what is held of `s` makes the line that `s`
/// makes.
pub proof fn a_line_held_back_is_the_line(s: Seq<char>, seq: nat, stamp: Stamp)
    ensures
        Rest::of(s).line(seq, stamp) == line_of(s, seq, stamp),
{
    let cap = MAX_CONSOLE_LINE_BYTES as nat;
    a_cut_fits(s, cap);
    a_cut_fits(strip_cr(s), cap);
    if s.len() > 0 && s.last() == '\r' {
        assert(byte_len(s) == byte_len(s.drop_last()) + 1);
        assert(s.drop_last().push('\r') =~= s);
        if byte_len(s) > cap {
            assert(cut(s, cap) == cut(s.drop_last(), cap));
        }
    }
}

/// What is held is no longer than a line, and holds no newline where the text held none.
proof fn rest_is_wf(r: Rest, t: Seq<char>)
    requires
        r.wf(),
        !t.contains('\n'),
    ensures
        r.with(t).wf(),
        Rest::of(t).wf(),
{
    let cap = MAX_CONSOLE_LINE_BYTES as nat;
    a_cut_fits(t, cap);
    let full = r.text + t;
    a_cut_fits(full, cap);
    let k = cut(full, cap);
    if k.contains('\n') {
        let j = choose|j: int| 0 <= j < k.len() && k[j] == '\n';
        assert(full[j] == '\n');
        if j < r.text.len() {
            assert(r.text[j] == '\n');
        } else {
            assert(t[j - r.text.len()] == '\n');
        }
    }
    let k2 = cut(t, cap);
    if k2.contains('\n') {
        let j = choose|j: int| 0 <= j < k2.len() && k2[j] == '\n';
        assert(t[j] == '\n');
    }
}

proof fn nothing_held(t: Seq<char>)
    ensures
        Rest::empty().with(t) == Rest::of(t),
{
    assert(Seq::<char>::empty() + t =~= t);
}

proof fn strip_cr_fits(s: Seq<char>)
    ensures
        byte_len(strip_cr(s)) <= byte_len(s),
{
}

fn past_the_line(s: &Vec<char>, n: u128) -> (r: Past)
    requires
        n == byte_len(s@),
    ensures
        r == past_of(s@),
{
    if n <= 8_192 {
        Past::Nothing
    } else if s.len() > 0 && s[s.len() - 1] == '\r' && n == 8_193 {
        Past::Return
    } else {
        Past::More
    }
}

/// What is held of a remainder once a piece has arrived too.
fn hold(partial: &str, past: Past, piece: &Vec<char>) -> (r: (String, Past))
    ensures
        (Rest { text: r.0@, past: r.1 }) == (Rest { text: partial@, past }).with(piece@),
{
    match past {
        Past::Nothing => {
            let mut full = partial.to_owned();
            full.append(text_of(piece.as_slice()).as_str());
            let cs = chars_of(full.as_str());
            let n: u128 = full_byte_len(full.as_str());
            let (text, size, over) = cut_text(full.as_str(), MAX_CONSOLE_LINE_BYTES);
            let now = past_the_line(&cs, n);
            (text, now)
        },
        Past::Return => if piece.len() == 0 {
            (partial.to_owned(), Past::Return)
        } else {
            (partial.to_owned(), Past::More)
        },
        Past::More => (partial.to_owned(), Past::More),
    }
}

/// The text of a line, and whether it was cut.
fn ended(text: String, past: Past) -> (r: (String, bool))
    ensures
        ({
            let line = (Rest { text: text@, past }).line(
                0,
                (Stamp { step_index: 0, rx_utc_ms: 0 }),
            );
            r.0@ == line.text && r.1 == line.truncated
        }),
{
    if past != Past::Nothing {
        return (text, past == Past::More);
    }
    let cs = chars_of(text.as_str());
    let n: usize = cs.len();
    if n > 0 && cs[n - 1] == '\r' {
        let line = text_of(vstd::slice::slice_subrange(cs.as_slice(), 0, n - 1));
        assert(line@ =~= text@.drop_last());
        (line, false)
    } else {
        (text, false)
    }
}

// ---- what is kept --------------------------------------------------------------

proof fn bytes_of_push(list: Seq<Line>, x: Line)
    ensures
        bytes_of(list.push(x)) == bytes_of(list) + byte_len(x.text),
    decreases list.len(),
{
    reveal_with_fuel(bytes_of, 2);
    if list.len() == 0 {
        assert(list.push(x).drop_first() =~= Seq::empty());
    } else {
        assert(list.push(x).drop_first() =~= list.drop_first().push(x));
        bytes_of_push(list.drop_first(), x);
    }
}

/// Whether a run of lines is within both caps.
pub open spec fn within_caps(list: Seq<Line>) -> bool {
    list.len() <= MAX_CONSOLE_LINES && bytes_of(list) <= MAX_CONSOLE_BYTES
}

/// What is kept is a suffix within both caps, and no longer suffix is.
pub proof fn kept_is_the_longest_suffix(list: Seq<Line>)
    ensures
        kept(list).len() <= list.len(),
        kept(list) == list.skip(list.len() - kept(list).len()),
        kept(list).len() <= MAX_CONSOLE_LINES,
        bytes_of(kept(list)) <= MAX_CONSOLE_BYTES,
        forall|k: int|
            kept(list).len() < k <= list.len() ==> !within_caps(#[trigger] list.skip(list.len() - k)),
    decreases list.len(),
{
    assert(list.skip(0) =~= list);
    if list.len() > 0 && (list.len() > MAX_CONSOLE_LINES || bytes_of(list) > MAX_CONSOLE_BYTES) {
        let rest = list.drop_first();
        kept_is_the_longest_suffix(rest);
        let n = kept(list).len();
        assert(rest.skip(rest.len() - n) =~= list.skip(list.len() - n));
        assert forall|k: int| n < k <= list.len() implies !within_caps(
            #[trigger] list.skip(list.len() - k),
        ) by {
            if k < list.len() {
                assert(rest.skip(rest.len() - k) =~= list.skip(list.len() - k));
            }
        }
    }
}

proof fn bytes_of_more(a: Seq<Line>, b: Seq<Line>)
    ensures
        bytes_of(a + b) >= bytes_of(a),
    decreases b.len(),
{
    if b.len() == 0 {
        assert(a + b =~= a);
    } else {
        bytes_of_more(a, b.drop_last());
        assert(a + b =~= (a + b.drop_last()).push(b.last()));
        bytes_of_push(a + b.drop_last(), b.last());
    }
}

/// Dropping what is over the caps in two steps keeps what one step keeps.
proof fn kept_in_two(a: Seq<Line>, b: Seq<Line>)
    ensures
        kept(kept(a) + b) == kept(a + b),
    decreases a.len(),
{
    if a.len() > 0 && (a.len() > MAX_CONSOLE_LINES || bytes_of(a) > MAX_CONSOLE_BYTES) {
        bytes_of_more(a, b);
        assert((a + b).drop_first() =~= a.drop_first() + b);
        kept_in_two(a.drop_first(), b);
    }
}

/// No piece holds the separator.
pub proof fn pieces_hold_no_separator(s: Seq<char>, sep: char)
    ensures
        split_on(s, sep).len() > 0,
        forall|i: int| 0 <= i < split_on(s, sep).len() ==> !(#[trigger] split_on(s, sep)[i]).contains(
            sep,
        ),
    decreases s.len(),
{
    if s.len() > 0 {
        pieces_hold_no_separator(s.drop_last(), sep);
        let before = split_on(s.drop_last(), sep);
        let now = split_on(s, sep);
        assert forall|i: int| 0 <= i < now.len() implies !(#[trigger] now[i]).contains(sep) by {
            if s.last() == sep {
                if i < before.len() {
                    assert(now[i] == before[i]);
                }
            } else {
                if i < before.len() - 1 {
                    assert(now[i] == before[i]);
                } else {
                    assert(!before.last().contains(sep));
                    assert(now[i] == before.last().push(s.last()));
                    if now[i].contains(sep) {
                        let j = choose|j: int| 0 <= j < now[i].len() && now[i][j] == sep;
                        assert(before.last()[j] == sep);
                    }
                }
            }
        }
    } else {
        assert(split_on(s, sep)[0] =~= Seq::empty());
    }
}

impl Console {
    pub open spec fn wf(&self) -> bool {
        &&& self@.wf()
        &&& self.bytes == bytes_of(self@.lines)
    }

    /// A console nothing has arrived on.
    pub fn new() -> (r: Console)
        ensures
            r.wf(),
            r@ == ConsoleState::empty(),
    {
        let r = Console {
            lines: VecDeque::new(),
            bytes: 0,
            partial: String::new(),
            partial_past: Past::Nothing,
            partial_step: 0,
            partial_rx_utc_ms: 0,
            dropped: 0,
            total: 0,
        };
        assert(r@.lines =~= Seq::empty());
        assert(r@.rest.text =~= Seq::empty());
        r
    }

    /// Feeds one verbatim chunk in, returning the lines it completed.
    ///
    /// Splits on newlines only, and takes one trailing carriage return off each line.
    /// Nothing else about the text is touched.
    pub fn push_chunk(
        &mut self,
        seq: &mut u64,
        step_index: u32,
        rx_utc_ms: u64,
        text: &str,
    ) -> (r: Vec<ConsoleLine>)
        requires
            old(self).wf(),
            *old(seq) + newlines(text@) <= u64::MAX,
            old(self).total + newlines(text@) <= u64::MAX,
        ensures
            final(self).wf(),
            final(self)@ == old(self)@.after(
                *old(seq) as nat,
                (Stamp { step_index, rx_utc_ms }),
                text@,
            ),
            lines(r@) == old(self)@.completed(
                *old(seq) as nat,
                (Stamp { step_index, rx_utc_ms }),
                text@,
            ),
            *final(seq) == *old(seq) + r@.len(),
    {
        let ghost stamp = Stamp { step_index, rx_utc_ms };
        let ghost start = self@;
        let ghost seq0 = *seq as nat;
        if self.partial.as_str().is_empty() {
            self.partial_step = step_index;
            self.partial_rx_utc_ms = rx_utc_ms;
        }
        let cs = chars_of(text);
        let pieces = split_chars(cs.as_slice(), '\n');
        let ghost fresh = start.completed(seq0, stamp, text@);
        assert(char_rows(pieces@) == split_on(text@, '\n'));
        proof {
            pieces_hold_no_separator(text@, '\n');
        }

        let mut completed: Vec<ConsoleLine> = Vec::new();
        let end: usize = pieces.len() - 1;
        for i in 0..end
            invariant
                end == pieces.len() - 1,
                end == newlines(text@),
                char_rows(pieces@) == split_on(text@, '\n'),
                forall|k: int|
                    0 <= k < pieces.len() ==> !(#[trigger] split_on(text@, '\n')[k]).contains('\n'),
                fresh == start.completed(seq0, stamp, text@),
                fresh.len() == end,
                stamp == (Stamp { step_index, rx_utc_ms }),
                start.wf(),
                seq0 + end <= u64::MAX,
                start.total + end <= u64::MAX,
                *seq == seq0 + i,
                self.total == start.total + i,
                self.dropped == start.dropped,
                self.bytes == bytes_of(self@.lines),
                self@.lines =~= start.lines + fresh.take(i as int),
                self.bytes <= 262_144 + 8_192 * i,
                lines(completed@) =~= fresh.take(i as int),
                self@.rest == (if i == 0 {
                    start.rest
                } else {
                    Rest::empty()
                }),
                self@.stamp == (if i == 0 {
                    start.open_stamp(stamp)
                } else {
                    stamp
                }),
        {
            let ghost held = self@.rest;
            assert(char_rows(pieces@)[i as int] == pieces@[i as int]@);
            proof {
                rest_is_wf(held, pieces@[i as int]@);
                nothing_held(pieces@[i as int]@);
            }
            let (whole, past) = hold(self.partial.as_str(), self.partial_past, &pieces[i]);
            let ghost rest = Rest { text: whole@, past };
            assert(rest == start.piece(text@, i as int));
            let (line, truncated) = ended(whole, past);
            proof {
                strip_cr_fits(rest.text);
            }
            let size: u128 = full_byte_len(line.as_str());
            *seq = *seq + 1;
            self.total = self.total + 1;
            let entry = ConsoleLine {
                seq: *seq,
                step_index: self.partial_step,
                rx_utc_ms: self.partial_rx_utc_ms,
                text: line,
                truncated,
            };
            let copy = entry.copied();
            let ghost was = self@.lines;
            assert(entry@ == fresh[i as int]);
            assert(fresh.take(i + 1) =~= fresh.take(i as int).push(fresh[i as int]));
            self.bytes = self.bytes + size;
            self.lines.push_back(entry);
            assert(self@.lines =~= was.push(entry@));
            proof {
                bytes_of_push(was, entry@);
            }
            completed.push(copy);
            self.partial = String::new();
            self.partial_past = Past::Nothing;
            assert(self@.rest.text =~= Seq::empty());
            self.partial_step = step_index;
            self.partial_rx_utc_ms = rx_utc_ms;
        }
        assert(fresh.take(end as int) =~= fresh);
        assert(char_rows(pieces@)[end as int] == pieces@[end as int]@);
        proof {
            rest_is_wf(self@.rest, pieces@[end as int]@);
            nothing_held(pieces@[end as int]@);
        }
        let (partial, past) = hold(self.partial.as_str(), self.partial_past, &pieces[end]);
        self.partial = partial;
        self.partial_past = past;
        proof {
            kept_is_the_longest_suffix(start.lines + fresh);
        }
        self.trim_front();
        completed
    }

    /// Drops lines off the front until both caps hold.
    fn trim_front(&mut self)
        requires
            old(self).bytes == bytes_of(old(self)@.lines),
            old(self).dropped + old(self).lines@.len() <= u64::MAX,
        ensures
            final(self).bytes == bytes_of(final(self)@.lines),
            final(self)@ == (ConsoleState {
                lines: kept(old(self)@.lines),
                dropped: old(self)@.dropped + (old(self)@.lines.len() - kept(
                    old(self)@.lines,
                ).len()) as nat,
                ..old(self)@
            }),
    {
        proof {
            kept_is_the_longest_suffix(self@.lines);
        }
        while self.lines.len() > MAX_CONSOLE_LINES || self.bytes > 262_144
            invariant
                self.bytes == bytes_of(self@.lines),
                kept(self@.lines) == kept(old(self)@.lines),
                self.lines@.len() <= old(self).lines@.len(),
                self.dropped == old(self).dropped + (old(self).lines@.len() - self.lines@.len()),
                old(self).dropped + old(self).lines@.len() <= u64::MAX,
                self.partial == old(self).partial,
                self.partial_past == old(self).partial_past,
                self.partial_step == old(self).partial_step,
                self.partial_rx_utc_ms == old(self).partial_rx_utc_ms,
                self.total == old(self).total,
            decreases self.lines@.len(),
        {
            let ghost was = self@.lines;
            match self.lines.pop_front() {
                Some(gone) => {
                    assert(self@.lines =~= was.drop_first());
                    assert(gone@ == was.first());
                    let n: u128 = full_byte_len(gone.text.as_str());
                    self.bytes = self.bytes - n;
                    self.dropped = self.dropped + 1;
                },
                None => {
                    assert(was =~= Seq::empty());
                    return;
                },
            }
        }
    }
}

/// How many newlines `text` holds.
pub open spec fn newlines(text: Seq<char>) -> nat {
    (split_on(text, '\n').len() - 1) as nat
}

/// What stands before a text goes into its first piece.
proof fn split_on_prefixed(x: Seq<char>, b: Seq<char>, sep: char)
    requires
        !x.contains(sep),
    ensures
        split_on(b, sep).len() > 0,
        split_on(x + b, sep).len() == split_on(b, sep).len(),
        split_on(x + b, sep)[0] == x + split_on(b, sep)[0],
        forall|i: int|
            1 <= i < split_on(b, sep).len() ==> #[trigger] split_on(x + b, sep)[i] == split_on(b, sep)[i],
    decreases b.len(),
{
    split_on_is_never_empty(b, sep);
    if b.len() == 0 {
        assert(x + b =~= x);
        split_on_without(x, sep);
        split_on_without(b, sep);
        assert(x + split_on(b, sep)[0] =~= x);
    } else {
        let c = b.drop_last();
        split_on_prefixed(x, c, sep);
        assert((x + b).drop_last() =~= x + c);
        let was = split_on(x + c, sep);
        let now = split_on(x + b, sep);
        if b.last() != sep && was.len() == 1 {
            assert(now[0] =~= x + split_on(b, sep)[0]);
        }
    }
}

/// A text without the separator is one piece.
pub proof fn split_on_without(s: Seq<char>, sep: char)
    requires
        !s.contains(sep),
    ensures
        split_on(s, sep) == seq![s],
    decreases s.len(),
{
    if s.len() == 0 {
        assert(s =~= Seq::empty());
    } else {
        let t = s.drop_last();
        assert(s.last() != sep);
        if t.contains(sep) {
            let j = choose|j: int| 0 <= j < t.len() && t[j] == sep;
            assert(s[j] == sep);
        }
        split_on_without(t, sep);
        assert(t.push(s.last()) =~= s);
        assert(split_on(s, sep) =~= seq![s]);
    }
}

/// A chunk completes one line for each newline in it, whatever was carried over.
pub proof fn one_line_per_newline(c: ConsoleState, seq: nat, stamp: Stamp, text: Seq<char>)
    ensures
        c.completed(seq, stamp, text).len() == newlines(text),
{
}

/// Splitting in two steps: the last piece of the first part goes on into the second.
pub proof fn split_on_in_two(a: Seq<char>, b: Seq<char>, sep: char)
    ensures
        split_on(a, sep).len() > 0,
        split_on(split_on(a, sep).last() + b, sep).len() > 0,
        split_on(a + b, sep) == split_on(a, sep).drop_last() + split_on(
            split_on(a, sep).last() + b,
            sep,
        ),
    decreases b.len(),
{
    split_on_is_never_empty(a, sep);
    let rest = split_on(a, sep).last();
    split_on_is_never_empty(rest + b, sep);
    if b.len() == 0 {
        pieces_hold_no_separator(a, sep);
        assert(a + b =~= a);
        assert(rest + b =~= rest);
        split_on_without(rest, sep);
        assert(split_on(a, sep) =~= split_on(a, sep).drop_last() + seq![rest]);
    } else {
        let c = b.drop_last();
        split_on_in_two(a, c, sep);
        assert((a + b).drop_last() =~= a + c);
        assert((rest + b).drop_last() =~= rest + c);
        assert(split_on(a + b, sep) =~= split_on(a, sep).drop_last() + split_on(rest + b, sep));
    }
}

/// Nothing is lost by holding back only the beginning of a line: where `open` is all that
/// arrived since the last newline, a chunk completes the lines of `open` and the chunk
/// taken together, and what is then held is of what follows their last newline.
pub proof fn a_chunk_completes_the_lines_of_its_text(
    c: ConsoleState,
    open: Seq<char>,
    seq: nat,
    stamp: Stamp,
    text: Seq<char>,
)
    requires
        c.rest == Rest::of(open),
        !open.contains('\n'),
    ensures
        ({
            let pieces = split_on(open + text, '\n');
            let fresh = c.completed(seq, stamp, text);
            &&& fresh.len() == pieces.len() - 1
            &&& forall|i: int|
                0 <= i < fresh.len() ==> #[trigger] fresh[i] == line_of(
                    pieces[i],
                    (seq + i + 1) as nat,
                    if i == 0 {
                        c.open_stamp(stamp)
                    } else {
                        stamp
                    },
                )
            &&& c.after(seq, stamp, text).rest == Rest::of(pieces.last())
            &&& !pieces.last().contains('\n')
        }),
{
    let pieces = split_on(open + text, '\n');
    let fresh = c.completed(seq, stamp, text);
    split_on_prefixed(open, text, '\n');
    pieces_hold_no_separator(open + text, '\n');
    held_back_in_two(open, split_on(text, '\n')[0]);
    assert forall|i: int| 0 <= i < pieces.len() implies c.piece(text, i) == Rest::of(
        #[trigger] pieces[i],
    ) by {
        if i > 0 {
            assert(pieces[i] == split_on(text, '\n')[i]);
        }
    }
    assert forall|i: int| 0 <= i < fresh.len() implies #[trigger] fresh[i] == line_of(
        pieces[i],
        (seq + i + 1) as nat,
        if i == 0 {
            c.open_stamp(stamp)
        } else {
            stamp
        },
    ) by {
        a_line_held_back_is_the_line(
            pieces[i],
            (seq + i + 1) as nat,
            if i == 0 {
                c.open_stamp(stamp)
            } else {
                stamp
            },
        );
    }
    assert(pieces[pieces.len() - 1] == pieces.last());
}

/// The pieces of two chunks in a row are those of the two as one chunk.
proof fn pieces_in_two(c: ConsoleState, seq: nat, stamp: Stamp, a: Seq<char>, b: Seq<char>)
    ensures
        ({
            let n = newlines(a) as int;
            let mid = c.after(seq, stamp, a);
            &&& newlines(a + b) == n + newlines(b)
            &&& forall|i: int| 0 <= i < n ==> #[trigger] c.piece(a + b, i) == c.piece(a, i)
            &&& forall|i: int|
                0 <= i <= newlines(b) ==> c.piece(a + b, n + i) == #[trigger] mid.piece(b, i)
        }),
{
    let n = newlines(a) as int;
    let mid = c.after(seq, stamp, a);
    split_on_in_two(a, b, '\n');
    pieces_hold_no_separator(a, '\n');
    let x = split_on(a, '\n').last();
    split_on_prefixed(x, b, '\n');
    let both = split_on(a + b, '\n');
    assert(both.len() == n + split_on(b, '\n').len());
    assert forall|i: int| 0 <= i < n implies #[trigger] c.piece(a + b, i) == c.piece(a, i) by {
        assert(both[i] == split_on(a, '\n')[i]);
    }
    assert forall|i: int| 0 <= i <= newlines(b) implies c.piece(a + b, n + i)
        == #[trigger] mid.piece(b, i) by {
        assert(both[n + i] == split_on(x + b, '\n')[i]);
        if i == 0 {
            let y = split_on(b, '\n')[0];
            if n == 0 {
                held_on(c.rest, x, y);
            } else {
                held_back_in_two(x, y);
            }
        }
    }
}

/// Where a chunk ends changes no line: two chunks in a row complete the lines, and
/// leave the remainder, of the two as one chunk. Only the stamps can differ.
pub proof fn chunking_changes_no_line(
    c: ConsoleState,
    seq: nat,
    first: Stamp,
    second: Stamp,
    a: Seq<char>,
    b: Seq<char>,
)
    ensures
        ({
            let apart = c.completed(seq, first, a) + c.after(seq, first, a).completed(
                seq + c.completed(seq, first, a).len(),
                second,
                b,
            );
            let together = c.completed(seq, first, a + b);
            &&& apart.len() == together.len()
            &&& forall|i: int|
                0 <= i < apart.len() ==> {
                    &&& (#[trigger] apart[i]).text == together[i].text
                    &&& apart[i].truncated == together[i].truncated
                    &&& apart[i].seq == together[i].seq
                }
            &&& c.after(seq, first, a).after(
                seq + c.completed(seq, first, a).len(),
                second,
                b,
            ).rest == c.after(seq, first, a + b).rest
        }),
{
    pieces_in_two(c, seq, first, a, b);
    let fresh = c.completed(seq, first, a);
    let mid = c.after(seq, first, a);
    let later = mid.completed(seq + fresh.len(), second, b);
    let together = c.completed(seq, first, a + b);
    let n = newlines(a) as int;
    assert(c.piece(a + b, n + newlines(b)) == mid.piece(b, newlines(b) as int));
    assert forall|i: int| 0 <= i < (fresh + later).len() implies {
        &&& (#[trigger] (fresh + later)[i]).text == together[i].text
        &&& (fresh + later)[i].truncated == together[i].truncated
        &&& (fresh + later)[i].seq == together[i].seq
    } by {
        if i < n {
            assert(c.piece(a + b, i) == c.piece(a, i));
        } else {
            assert(c.piece(a + b, n + (i - n)) == mid.piece(b, i - n));
        }
    }
}

/// Where a chunk was cut never shows: two chunks of one stamp complete the very lines of
/// the two as one chunk, and leave the very same console.
pub proof fn a_cut_between_chunks_never_shows(
    c: ConsoleState,
    seq: nat,
    stamp: Stamp,
    a: Seq<char>,
    b: Seq<char>,
)
    requires
        c.wf(),
    ensures
        ({
            let mid = c.after(seq, stamp, a);
            let next = seq + c.completed(seq, stamp, a).len();
            &&& c.completed(seq, stamp, a) + mid.completed(next, stamp, b) == c.completed(
                seq,
                stamp,
                a + b,
            )
            &&& mid.after(next, stamp, b) == c.after(seq, stamp, a + b)
        }),
{
    chunking_changes_no_line(c, seq, stamp, stamp, a, b);
    pieces_in_two(c, seq, stamp, a, b);
    let n = newlines(a) as int;
    let fresh = c.completed(seq, stamp, a);
    let mid = c.after(seq, stamp, a);
    let next = seq + fresh.len();
    let later = mid.completed(next, stamp, b);
    let together = c.completed(seq, stamp, a + b);
    // A remainder that went on keeps its stamp; one that began in either chunk has the
    // stamp of both.
    if n == 0 {
        let x = split_on(a, '\n')[0];
        split_on_is_never_empty(a, '\n');
        assert(mid.rest == c.rest.with(x));
        if c.rest.text.len() > 0 {
            held_text_stays(c.rest, x);
        }
    }
    assert(mid.open_stamp(stamp) == (if n == 0 {
        c.open_stamp(stamp)
    } else {
        stamp
    }));
    assert forall|i: int| 0 <= i < together.len() implies (fresh + later)[i]
        == #[trigger] together[i] by {
        if i < n {
            assert(c.piece(a + b, i) == c.piece(a, i));
        } else {
            assert(c.piece(a + b, n + (i - n)) == mid.piece(b, i - n));
        }
    }
    assert(fresh + later =~= together);
    kept_in_two(c.lines + fresh, later);
    assert(c.lines + fresh + later =~= c.lines + together);
    kept_is_the_longest_suffix(c.lines + fresh);
    kept_is_the_longest_suffix(mid.lines + later);
    kept_is_the_longest_suffix(c.lines + together);
}

/// A remainder that is there stays there.
proof fn held_text_stays(r: Rest, t: Seq<char>)
    requires
        r.wf(),
        r.text.len() > 0,
    ensures
        r.with(t).text.len() > 0,
{
    let full = r.text + t;
    let cap = MAX_CONSOLE_LINE_BYTES as nat;
    a_cut_fits(full, cap);
    if cut(full, cap).len() == 0 {
        assert(full.take(r.text.len() as int) =~= r.text);
        cut_is_not_shorter(full, cap, r.text.len() as int);
    }
}

/// A cut takes no more than it has to.
proof fn cut_is_not_shorter(s: Seq<char>, cap: nat, k: int)
    requires
        0 <= k <= s.len(),
        byte_len(s.take(k)) <= cap,
    ensures
        cut(s, cap).len() >= k,
    decreases s.len(),
{
    if k == s.len() {
        assert(s.take(k) =~= s);
    } else if !(s.len() == 0 || byte_len(s) <= cap) {
        assert(s.drop_last().take(k) =~= s.take(k));
        cut_is_not_shorter(s.drop_last(), cap, k);
    }
}

/// How many bytes `s` takes.
pub fn full_byte_len(s: &str) -> (r: u128)
    ensures
        r == byte_len(s@),
{
    let cs = chars_of(s);
    let mut n: u128 = 0;
    assert(s@.take(0) =~= Seq::<char>::empty());
    for i in 0..cs.len()
        invariant
            cs@ == s@,
            n == byte_len(s@.take(i as int)),
            n <= 4 * i,
    {
        assert(s@.take(i + 1).drop_last() =~= s@.take(i as int));
        n = n + width_of(cs[i]) as u128;
    }
    assert(s@.take(s@.len() as int) =~= s@);
    n
}

/// A console holds up to two thousand lines and a quarter of a mebibyte of their text, both
/// included.
pub proof fn a_console_is_full_only_past_its_caps(list: Seq<Line>)
    ensures
        within_caps(list) <==> list.len() <= 2_000 && bytes_of(list) <= 262_144,
{
}

} // verus!
