//! Plain text: the character sequences every other module reads and writes.
//!
//! A text is modelled by its view, the sequence of its characters. Byte
//! lengths are those of its UTF-8 encoding.

use vstd::prelude::*;
use vstd::string::*;

verus! {

/// `String::push` appends one character.
pub assume_specification[ String::push ](s: &mut String, c: char)
    ensures
        final(s)@ == old(s)@.push(c),
;

/// The characters of `s`, one by one.
pub fn chars_of(s: &str) -> (r: Vec<char>)
    ensures
        r@ == s@,
{
    let mut out: Vec<char> = Vec::new();
    for c in it: s.chars()
        invariant
            it.seq() == s@,
            out@ == s@.take(it.index() as int),
    {
        out.push(c);
    }
    out
}

/// The text those characters make.
pub fn text_of(cs: &[char]) -> (r: String)
    ensures
        r@ == cs@,
{
    let mut out = String::new();
    for i in 0..cs.len()
        invariant
            out@ == cs@.take(i as int),
    {
        out.push(cs[i]);
    }
    out
}

/// What a list of texts reads as.
pub open spec fn texts(list: Seq<String>) -> Seq<Seq<char>> {
    Seq::new(list.len(), |i: int| list[i]@)
}

/// What a list of character runs reads as.
pub open spec fn char_rows(list: Seq<Vec<char>>) -> Seq<Seq<char>> {
    Seq::new(list.len(), |i: int| list[i]@)
}

/// Whether two texts hold the same characters.
pub fn same(a: &str, b: &str) -> (r: bool)
    ensures
        r == (a@ == b@),
{
    let x = chars_of(a);
    let y = chars_of(b);
    if x.len() != y.len() {
        return false;
    }
    for i in 0..x.len()
        invariant
            x@ == a@,
            y@ == b@,
            x.len() == y.len(),
            forall|j: int| 0 <= j < i ==> x@[j] == y@[j],
    {
        if x[i] != y[i] {
            return false;
        }
    }
    assert(x@ =~= y@);
    true
}

/// Whether `list` holds a text with the characters of `x`.
pub fn list_has(list: &Vec<String>, x: &str) -> (r: bool)
    ensures
        r == texts(list@).contains(x@),
{
    for i in 0..list.len()
        invariant
            forall|j: int| 0 <= j < i ==> texts(list@)[j] != x@,
    {
        if same(list[i].as_str(), x) {
            assert(texts(list@)[i as int] == x@);
            return true;
        }
    }
    false
}

/// A copy of a list of texts.
pub fn copy_list(list: &Vec<String>) -> (r: Vec<String>)
    ensures
        texts(r@) == texts(list@),
{
    let mut out: Vec<String> = Vec::new();
    for i in 0..list.len()
        invariant
            out.len() == i,
            forall|j: int| 0 <= j < i ==> out@[j]@ == list@[j]@,
    {
        out.push(list[i].clone());
    }
    assert(texts(out@) =~= texts(list@));
    out
}

/// A copy of a text that may be absent.
pub fn copy_opt(x: &Option<String>) -> (r: Option<String>)
    ensures
        r == *x,
{
    match x {
        Some(s) => Some(s.clone()),
        None => None,
    }
}

/// What a text that may be absent reads as.
pub open spec fn opt_view(x: Option<String>) -> Option<Seq<char>> {
    match x {
        Some(s) => Some(s@),
        None => None,
    }
}

/// Whether two texts that may be absent are both absent or the same text.
pub fn same_opt(a: &Option<String>, b: &Option<String>) -> (r: bool)
    ensures
        r == (opt_view(*a) == opt_view(*b)),
{
    match (a, b) {
        (Some(x), Some(y)) => same(x.as_str(), y.as_str()),
        (None, None) => true,
        _ => false,
    }
}

// ---- whitespace ----------------------------------------------------------

/// The characters with Unicode's `White_Space` property.
pub open spec fn is_space(c: char) -> bool {
    ||| '\u{9}' <= c <= '\u{d}'
    ||| c == ' '
    ||| c == '\u{85}'
    ||| c == '\u{a0}'
    ||| c == '\u{1680}'
    ||| '\u{2000}' <= c <= '\u{200a}'
    ||| c == '\u{2028}'
    ||| c == '\u{2029}'
    ||| c == '\u{202f}'
    ||| c == '\u{205f}'
    ||| c == '\u{3000}'
}

/// Decides [`is_space`].
pub fn space(c: char) -> (r: bool)
    ensures
        r == is_space(c),
{
    ('\u{9}' <= c && c <= '\u{d}') || c == ' ' || c == '\u{85}' || c == '\u{a0}'
        || c == '\u{1680}' || ('\u{2000}' <= c && c <= '\u{200a}') || c == '\u{2028}'
        || c == '\u{2029}' || c == '\u{202f}' || c == '\u{205f}' || c == '\u{3000}'
}

/// `s` without the whitespace it starts with.
pub open spec fn trim_left(s: Seq<char>) -> Seq<char>
    decreases s.len(),
{
    if s.len() > 0 && is_space(s[0]) {
        trim_left(s.drop_first())
    } else {
        s
    }
}

/// `s` without the whitespace it ends with.
pub open spec fn trim_right(s: Seq<char>) -> Seq<char>
    decreases s.len(),
{
    if s.len() > 0 && is_space(s.last()) {
        trim_right(s.drop_last())
    } else {
        s
    }
}

/// `s` without the whitespace at either end.
pub open spec fn trimmed(s: Seq<char>) -> Seq<char> {
    trim_right(trim_left(s))
}

/// [`trimmed`] on characters.
pub fn trim_chars(cs: &[char]) -> (r: Vec<char>)
    ensures
        r@ == trimmed(cs@),
{
    let mut a: usize = 0;
    assert(cs@.subrange(0, cs@.len() as int) =~= cs@);
    while a < cs.len() && space(cs[a])
        invariant
            a <= cs.len(),
            trim_left(cs@) == trim_left(cs@.subrange(a as int, cs@.len() as int)),
        decreases cs.len() - a,
    {
        proof {
            let t = cs@.subrange(a as int, cs@.len() as int);
            assert(t.drop_first() =~= cs@.subrange(a + 1, cs@.len() as int));
        }
        a = a + 1;
    }
    let mut b: usize = cs.len();
    while b > a && space(cs[b - 1])
        invariant
            a <= b <= cs.len(),
            trimmed(cs@) == trim_right(cs@.subrange(a as int, b as int)),
        decreases b,
    {
        proof {
            let t = cs@.subrange(a as int, b as int);
            assert(t.drop_last() =~= cs@.subrange(a as int, b - 1));
        }
        b = b - 1;
    }
    let mut out: Vec<char> = Vec::new();
    for i in a..b
        invariant
            a <= b <= cs.len(),
            out@ == cs@.subrange(a as int, i as int),
    {
        out.push(cs[i]);
        assert(out@ =~= cs@.subrange(a as int, i + 1));
    }
    out
}

/// `s` without the whitespace at either end.
pub fn trim(s: &str) -> (r: String)
    ensures
        r@ == trimmed(s@),
{
    let cs = chars_of(s);
    let t = trim_chars(cs.as_slice());
    text_of(t.as_slice())
}

/// Whether nothing is left of `s` once it is trimmed.
pub fn blank(s: &str) -> (r: bool)
    ensures
        r == (trimmed(s@).len() == 0),
{
    let cs = chars_of(s);
    trim_chars(cs.as_slice()).len() == 0
}

// ---- splitting -----------------------------------------------------------

/// The pieces of `s` between the characters `sep`: always one more than there are
/// of those.
pub open spec fn split_on(s: Seq<char>, sep: char) -> Seq<Seq<char>>
    decreases s.len(),
{
    if s.len() == 0 {
        seq![Seq::empty()]
    } else {
        let before = split_on(s.drop_last(), sep);
        if s.last() == sep {
            before.push(Seq::empty())
        } else {
            before.drop_last().push(before.last().push(s.last()))
        }
    }
}

pub proof fn split_on_is_never_empty(s: Seq<char>, sep: char)
    ensures
        split_on(s, sep).len() > 0,
    decreases s.len(),
{
    if s.len() > 0 {
        split_on_is_never_empty(s.drop_last(), sep);
    }
}

/// [`split_on`] on characters.
pub fn split_chars(cs: &[char], sep: char) -> (r: Vec<Vec<char>>)
    ensures
        char_rows(r@) == split_on(cs@, sep),
        r.len() > 0,
{
    let mut done: Vec<Vec<char>> = Vec::new();
    let mut piece: Vec<char> = Vec::new();
    assert(cs@.take(0) =~= Seq::<char>::empty());
    assert(char_rows(done@).push(piece@) =~= split_on(cs@.take(0), sep));
    for i in 0..cs.len()
        invariant
            char_rows(done@).push(piece@) == split_on(cs@.take(i as int), sep),
    {
        let ghost before = char_rows(done@).push(piece@);
        let ghost t = cs@.take(i + 1);
        assert(t.drop_last() =~= cs@.take(i as int));
        if cs[i] == sep {
            let ghost was = piece;
            done.push(piece);
            piece = Vec::new();
            assert(char_rows(done@).push(piece@) =~= before.push(Seq::empty()));
        } else {
            piece.push(cs[i]);
            assert(piece@ =~= before.last().push(cs@[i as int]));
            assert(char_rows(done@).push(piece@) =~= before.drop_last().push(
                before.last().push(t.last()),
            ));
        }
    }
    assert(cs@.take(cs@.len() as int) =~= cs@);
    let ghost was = char_rows(done@);
    done.push(piece);
    assert(char_rows(done@) =~= was.push(piece@));
    done
}

/// The pieces of `s` between the characters `sep`.
pub fn split(s: &str, sep: char) -> (r: Vec<String>)
    ensures
        texts(r@) == split_on(s@, sep),
        r.len() > 0,
{
    let cs = chars_of(s);
    let pieces = split_chars(cs.as_slice(), sep);
    let mut out: Vec<String> = Vec::new();
    for i in 0..pieces.len()
        invariant
            out.len() == i,
            forall|j: int| 0 <= j < i ==> out@[j]@ == pieces@[j]@,
    {
        out.push(text_of(pieces[i].as_slice()));
    }
    assert(texts(out@) =~= char_rows(pieces@));
    out
}

// ---- numbers in text -----------------------------------------------------

pub open spec fn digit(d: int) -> char {
    if d == 0 {
        '0'
    } else if d == 1 {
        '1'
    } else if d == 2 {
        '2'
    } else if d == 3 {
        '3'
    } else if d == 4 {
        '4'
    } else if d == 5 {
        '5'
    } else if d == 6 {
        '6'
    } else if d == 7 {
        '7'
    } else if d == 8 {
        '8'
    } else if d == 9 {
        '9'
    } else if d == 10 {
        'a'
    } else if d == 11 {
        'b'
    } else if d == 12 {
        'c'
    } else if d == 13 {
        'd'
    } else if d == 14 {
        'e'
    } else {
        'f'
    }
}

/// The digit of `d`, up to fifteen.
pub fn digit_of(d: u8) -> (r: char)
    requires
        d < 16,
    ensures
        r == digit(d as int),
{
    match d {
        0 => '0',
        1 => '1',
        2 => '2',
        3 => '3',
        4 => '4',
        5 => '5',
        6 => '6',
        7 => '7',
        8 => '8',
        9 => '9',
        10 => 'a',
        11 => 'b',
        12 => 'c',
        13 => 'd',
        14 => 'e',
        _ => 'f',
    }
}

/// `n` in decimal, without leading zeros.
pub open spec fn decimal(n: nat) -> Seq<char>
    decreases n,
{
    if n < 10 {
        seq![digit(n as int)]
    } else {
        decimal(n / 10).push(digit((n % 10) as int))
    }
}

/// The last `width` hexadecimal digits of `n`.
pub open spec fn hex(n: nat, width: nat) -> Seq<char>
    decreases width,
{
    if width == 0 {
        Seq::empty()
    } else {
        hex(n / 16, (width - 1) as nat).push(digit((n % 16) as int))
    }
}

fn dec_chars(n: u64) -> (r: Vec<char>)
    ensures
        r@ == decimal(n as nat),
    decreases n,
{
    if n < 10 {
        let mut out: Vec<char> = Vec::new();
        out.push(digit_of(n as u8));
        assert(out@ =~= decimal(n as nat));
        out
    } else {
        let mut out = dec_chars(n / 10);
        out.push(digit_of((n % 10) as u8));
        out
    }
}

/// `n` in decimal.
pub fn dec(n: u64) -> (r: String)
    ensures
        r@ == decimal(n as nat),
{
    let cs = dec_chars(n);
    text_of(cs.as_slice())
}

/// `n` in hexadecimal, cut or filled with zeros to `width` digits.
pub fn hex_of(n: u64, width: usize) -> (r: String)
    ensures
        r@ == hex(n as nat, width as nat),
{
    let cs = hex_chars(n, width);
    text_of(cs.as_slice())
}

fn hex_chars(n: u64, width: usize) -> (r: Vec<char>)
    ensures
        r@ == hex(n as nat, width as nat),
    decreases width,
{
    if width == 0 {
        Vec::new()
    } else {
        let mut out = hex_chars(n / 16, width - 1);
        out.push(digit_of((n % 16) as u8));
        out
    }
}

/// The value of a decimal digit.
pub open spec fn digit_value(c: char) -> Option<nat> {
    if '0' <= c <= '9' {
        Some((c as int - '0' as int) as nat)
    } else {
        None
    }
}

/// The number that a run of decimal digits writes; `None` where a character is no
/// digit. The empty run writes zero.
pub open spec fn digits_value(s: Seq<char>) -> Option<nat>
    decreases s.len(),
{
    if s.len() == 0 {
        Some(0)
    } else {
        match (digits_value(s.drop_last()), digit_value(s.last())) {
            (Some(high), Some(low)) => Some(high * 10 + low),
            _ => None,
        }
    }
}

/// `s` without the plus sign it may start with.
pub open spec fn unsigned(s: Seq<char>) -> Seq<char> {
    if s.len() > 0 && s[0] == '+' {
        s.drop_first()
    } else {
        s
    }
}

/// The number that `s` writes in decimal, with an optional plus sign, where it fits
/// in 64 bits.
pub open spec fn number(s: Seq<char>) -> Option<nat> {
    if unsigned(s).len() == 0 {
        None
    } else {
        match digits_value(unsigned(s)) {
            Some(n) if n <= u64::MAX => Some(n),
            _ => None,
        }
    }
}

pub open spec fn opt_nat(n: Option<u64>) -> Option<nat> {
    match n {
        Some(v) => Some(v as nat),
        None => None,
    }
}

proof fn digits_value_grows(s: Seq<char>, k: int)
    requires
        0 <= k <= s.len(),
        digits_value(s) is Some,
    ensures
        digits_value(s.take(k)) is Some,
        digits_value(s.take(k))->0 <= digits_value(s)->0,
    decreases s.len(),
{
    if k == s.len() {
        assert(s.take(k) =~= s);
    } else {
        digits_value_grows(s.drop_last(), k);
        assert(s.drop_last().take(k) =~= s.take(k));
        let high = digits_value(s.drop_last())->0;
        assert(high <= high * 10);
    }
}

/// The number that `s` writes: what `number` says of it.
pub fn parse_u64(s: &str) -> (r: Option<u64>)
    ensures
        opt_nat(r) == number(s@),
{
    let cs = chars_of(s);
    let from: usize = if cs.len() > 0 && cs[0] == '+' {
        1
    } else {
        0
    };
    let ghost digits = unsigned(s@);
    assert(digits =~= s@.subrange(from as int, s@.len() as int));
    if from == cs.len() {
        return None;
    }
    let mut n: u64 = 0;
    for i in from..cs.len()
        invariant
            cs@ == s@,
            from <= cs.len(),
            digits.len() > 0,
            digits == unsigned(s@),
            digits == s@.subrange(from as int, s@.len() as int),
            digits_value(digits.take(i - from)) == Some(n as nat),
    {
        let c = cs[i];
        let ghost next = digits.take(i + 1 - from);
        assert(next.drop_last() =~= digits.take(i - from));
        assert(next.last() == c);
        if !('0' <= c && c <= '9') {
            proof {
                if digits_value(digits) is Some {
                    digits_value_grows(digits, i + 1 - from);
                }
            }
            return None;
        }
        let d: u64 = (c as u64) - ('0' as u64);
        if n > (u64::MAX - d) / 10 {
            proof {
                assert(n * 10 + d > u64::MAX);
                if digits_value(digits) is Some {
                    digits_value_grows(digits, i + 1 - from);
                }
            }
            return None;
        }
        n = n * 10 + d;
    }
    assert(digits.take(digits.len() as int) =~= digits);
    Some(n)
}

/// What [`dec`] writes, [`parse_u64`] reads back.
pub proof fn a_decimal_reads_back(n: nat)
    requires
        n <= u64::MAX,
    ensures
        number(decimal(n)) == Some(n),
{
    decimal_digits(n);
    assert(decimal(n)[0] != '+');
}

pub proof fn decimal_digits(n: nat)
    ensures
        decimal(n).len() > 0,
        digits_value(decimal(n)) == Some(n),
        forall|i: int| 0 <= i < decimal(n).len() ==> '0' <= #[trigger] decimal(n)[i] <= '9',
    decreases n,
{
    reveal_with_fuel(digits_value, 2);
    if n < 10 {
        assert(decimal(n).drop_last() =~= Seq::empty());
    } else {
        decimal_digits(n / 10);
        assert(decimal(n).drop_last() =~= decimal(n / 10));
    }
}

// ---- bytes -----------------------------------------------------------------

/// How many bytes the UTF-8 encoding of a character takes.
pub open spec fn char_width(c: char) -> nat {
    if c <= '\u{7f}' {
        1
    } else if c <= '\u{7ff}' {
        2
    } else if c <= '\u{ffff}' {
        3
    } else {
        4
    }
}

/// How many bytes the UTF-8 encoding of a text takes.
pub open spec fn byte_len(s: Seq<char>) -> nat
    decreases s.len(),
{
    if s.len() == 0 {
        0
    } else {
        byte_len(s.drop_last()) + char_width(s.last())
    }
}

/// The longest prefix of `s` that takes at most `cap` bytes.
pub open spec fn cut(s: Seq<char>, cap: nat) -> Seq<char>
    decreases s.len(),
{
    if s.len() == 0 || byte_len(s) <= cap {
        s
    } else {
        cut(s.drop_last(), cap)
    }
}

pub proof fn byte_len_of_a_prefix(s: Seq<char>, k: int)
    requires
        0 <= k <= s.len(),
    ensures
        byte_len(s.take(k)) <= byte_len(s),
        byte_len(s) >= s.len(),
    decreases s.len(),
{
    if k == s.len() {
        assert(s.take(k) =~= s);
        if s.len() > 0 {
            byte_len_of_a_prefix(s.drop_last(), k - 1);
        }
    } else {
        byte_len_of_a_prefix(s.drop_last(), k);
        assert(s.drop_last().take(k) =~= s.take(k));
    }
}

proof fn cut_is_the_prefix(s: Seq<char>, cap: nat, k: int)
    requires
        0 <= k <= s.len(),
        byte_len(s.take(k)) <= cap,
        k < s.len() ==> byte_len(s.take(k + 1)) > cap,
    ensures
        cut(s, cap) == s.take(k),
    decreases s.len(),
{
    if k == s.len() {
        assert(s.take(k) =~= s);
    } else {
        byte_len_of_a_prefix(s, k + 1);
        assert(s.drop_last().take(k) =~= s.take(k));
        if k + 1 < s.len() {
            assert(s.drop_last().take(k + 1) =~= s.take(k + 1));
        }
        cut_is_the_prefix(s.drop_last(), cap, k);
    }
}

/// A cut text fits the cap, is a prefix of the text, and is the whole of it exactly
/// when that fits.
pub proof fn a_cut_fits(s: Seq<char>, cap: nat)
    ensures
        byte_len(cut(s, cap)) <= cap,
        cut(s, cap).is_prefix_of(s),
        cut(s, cap) == s <==> byte_len(s) <= cap,
    decreases s.len(),
{
    if !(s.len() == 0 || byte_len(s) <= cap) {
        a_cut_fits(s.drop_last(), cap);
    }
}

/// How many bytes a character takes.
pub fn width_of(c: char) -> (r: usize)
    ensures
        r == char_width(c),
        1 <= r <= 4,
{
    if c <= '\u{7f}' {
        1
    } else if c <= '\u{7ff}' {
        2
    } else if c <= '\u{ffff}' {
        3
    } else {
        4
    }
}

/// The longest prefix of `s` within `cap` bytes, its length in bytes, and whether
/// anything was left out.
pub fn cut_text(s: &str, cap: usize) -> (r: (String, usize, bool))
    requires
        cap <= usize::MAX - 4,
    ensures
        r.0@ == cut(s@, cap as nat),
        r.1 == byte_len(r.0@),
        r.1 <= cap,
        r.2 == (byte_len(s@) > cap),
{
    let cs = chars_of(s);
    let mut out = String::new();
    let mut used: usize = 0;
    let mut k: usize = 0;
    assert(s@.take(0) =~= Seq::<char>::empty());
    while k < cs.len()
        invariant
            cs@ == s@,
            k <= cs.len(),
            out@ == s@.take(k as int),
            used == byte_len(out@),
            used <= cap,
            cap <= usize::MAX - 4,
        decreases cs.len() - k,
    {
        let w: usize = width_of(cs[k]);
        let ghost next = s@.take(k + 1);
        assert(next.drop_last() =~= s@.take(k as int));
        assert(next =~= out@.push(cs@[k as int]));
        if used + w > cap {
            proof {
                cut_is_the_prefix(s@, cap as nat, k as int);
                byte_len_of_a_prefix(s@, k + 1);
            }
            return (out, used, true);
        }
        out.push(cs[k]);
        used = used + w;
        k = k + 1;
    }
    assert(s@.take(k as int) =~= s@);
    (out, used, false)
}

/// The first `n` characters of `s`, or all of it where it has fewer.
pub fn first_chars(s: &str, n: usize) -> (r: String)
    ensures
        r@ == (if s@.len() <= n {
            s@
        } else {
            s@.take(n as int)
        }),
{
    let cs = chars_of(s);
    let end: usize = if cs.len() <= n {
        cs.len()
    } else {
        n
    };
    let mut out = String::new();
    for i in 0..end
        invariant
            cs@ == s@,
            end <= cs.len(),
            out@ == s@.take(i as int),
    {
        out.push(cs[i]);
    }
    assert(s@.take(s@.len() as int) =~= s@);
    out
}

// ---- order -----------------------------------------------------------------

/// The order of texts: by the first character in which they differ, and a prefix
/// before what it is a prefix of.
pub open spec fn before(a: Seq<char>, b: Seq<char>) -> bool
    decreases a.len(),
{
    if b.len() == 0 {
        false
    } else if a.len() == 0 {
        true
    } else if a[0] != b[0] {
        a[0] < b[0]
    } else {
        before(a.drop_first(), b.drop_first())
    }
}

/// Of two different texts exactly one comes before the other, and none before itself.
pub proof fn before_is_total(a: Seq<char>, b: Seq<char>)
    ensures
        a == b ==> !before(a, b) && !before(b, a),
        a != b ==> before(a, b) != before(b, a),
    decreases a.len(),
{
    if a.len() > 0 && b.len() > 0 && a[0] == b[0] {
        before_is_total(a.drop_first(), b.drop_first());
        if a.drop_first() == b.drop_first() {
            assert(a =~= seq![a[0]] + a.drop_first());
            assert(b =~= seq![b[0]] + b.drop_first());
        }
    } else if a.len() == 0 && b.len() == 0 {
        assert(a =~= b);
    }
}

pub proof fn before_is_transitive(a: Seq<char>, b: Seq<char>, c: Seq<char>)
    requires
        before(a, b),
        before(b, c),
    ensures
        before(a, c),
    decreases a.len(),
{
    if a.len() > 0 && a[0] == b[0] && b[0] == c[0] {
        before_is_transitive(a.drop_first(), b.drop_first(), c.drop_first());
    }
}

/// Decides [`before`].
pub fn comes_before(a: &str, b: &str) -> (r: bool)
    ensures
        r == before(a@, b@),
{
    let x = chars_of(a);
    let y = chars_of(b);
    let mut i: usize = 0;
    assert(x@.skip(0) =~= x@);
    assert(y@.skip(0) =~= y@);
    while i < x.len() && i < y.len() && x[i] == y[i]
        invariant
            i <= x.len(),
            i <= y.len(),
            before(x@, y@) == before(x@.skip(i as int), y@.skip(i as int)),
        decreases x.len() - i,
    {
        assert(x@.skip(i as int).drop_first() =~= x@.skip(i + 1));
        assert(y@.skip(i as int).drop_first() =~= y@.skip(i + 1));
        i = i + 1;
    }
    if i == y.len() {
        false
    } else if i == x.len() {
        true
    } else {
        x[i] < y[i]
    }
}

// ---- laws --------------------------------------------------------------------

proof fn left_is_cut(s: Seq<char>)
    ensures
        trim_left(s).len() <= s.len(),
        trim_left(s) == s.skip(s.len() - trim_left(s).len()),
        forall|i: int| 0 <= i < s.len() - trim_left(s).len() ==> is_space(#[trigger] s[i]),
        trim_left(s).len() > 0 ==> !is_space(trim_left(s)[0]),
    decreases s.len(),
{
    if s.len() > 0 && is_space(s[0]) {
        let rest = s.drop_first();
        left_is_cut(rest);
        assert(trim_left(s) =~= s.skip(s.len() - trim_left(s).len()));
        assert forall|i: int| 0 <= i < s.len() - trim_left(s).len() implies is_space(
            #[trigger] s[i],
        ) by {
            if i > 0 {
                assert(rest[i - 1] == s[i]);
            }
        }
    } else {
        assert(s.skip(0) =~= s);
    }
}

proof fn right_is_cut(s: Seq<char>)
    ensures
        trim_right(s).len() <= s.len(),
        trim_right(s) == s.take(trim_right(s).len() as int),
        forall|i: int| trim_right(s).len() <= i < s.len() ==> is_space(#[trigger] s[i]),
        trim_right(s).len() > 0 ==> !is_space(trim_right(s).last()),
    decreases s.len(),
{
    if s.len() > 0 && is_space(s.last()) {
        let rest = s.drop_last();
        right_is_cut(rest);
        assert(trim_right(s) =~= s.take(trim_right(s).len() as int));
        assert forall|i: int| trim_right(s).len() <= i < s.len() implies is_space(
            #[trigger] s[i],
        ) by {
            if i < rest.len() {
                assert(rest[i] == s[i]);
            }
        }
    } else {
        assert(s.take(s.len() as int) =~= s);
    }
}

/// A trimmed text is the text without the whitespace around it: a stretch of it that neither
/// begins nor ends with whitespace, with nothing but whitespace on either side.
pub proof fn trimming_takes_only_what_is_around(s: Seq<char>)
    ensures
        exists|a: int, b: int|
            0 <= a <= b <= s.len() && trimmed(s) == #[trigger] s.subrange(a, b) && (forall|i: int|
                0 <= i < a ==> is_space(#[trigger] s[i])) && (forall|i: int|
                b <= i < s.len() ==> is_space(#[trigger] s[i])),
        trimmed(s).len() > 0 ==> !is_space(trimmed(s)[0]) && !is_space(trimmed(s).last()),
{
    let left = trim_left(s);
    let t = trimmed(s);
    left_is_cut(s);
    right_is_cut(left);
    let a = s.len() - left.len();
    let b = a + t.len();
    assert(t =~= s.subrange(a, b));
    assert forall|i: int| b <= i < s.len() implies is_space(#[trigger] s[i]) by {
        assert(left[i - a] == s[i]);
    }
    if t.len() > 0 {
        assert(t[0] == left[0]);
    }
}

/// Trimming what is trimmed changes nothing, and neither does trimming a text with no
/// whitespace at either end.
pub proof fn trimming_once_is_enough(s: Seq<char>)
    requires
        s.len() == 0 || !is_space(s[0]) && !is_space(s.last()),
    ensures
        trimmed(s) == s,
{
}

/// Texts sort by the first character in which they differ, and a text before any that goes
/// on from it.
pub proof fn the_first_difference_decides(a: Seq<char>, b: Seq<char>, k: int)
    requires
        0 <= k <= a.len(),
        k <= b.len(),
        a.take(k) == b.take(k),
    ensures
        k == a.len() && k < b.len() ==> before(a, b),
        k < a.len() && k < b.len() && a[k] < b[k] ==> before(a, b) && !before(b, a),
        k == b.len() ==> !before(a, b),
    decreases k,
{
    if k > 0 {
        assert(a.take(k)[0] == a[0] && b.take(k)[0] == b[0]);
        let x = a.drop_first();
        let y = b.drop_first();
        assert(x.take(k - 1) =~= a.take(k).drop_first());
        assert(y.take(k - 1) =~= b.take(k).drop_first());
        the_first_difference_decides(x, y, k - 1);
    }
}

/// Two texts in a row take as many bytes as both, and no character takes fewer than one or
/// more than four.
pub proof fn bytes_add_up(a: Seq<char>, b: Seq<char>)
    ensures
        byte_len(a + b) == byte_len(a) + byte_len(b),
        a.len() <= byte_len(a) <= 4 * a.len(),
        (forall|i: int| 0 <= i < a.len() ==> (#[trigger] a[i]) <= '\u{7f}') ==> byte_len(a)
            == a.len(),
    decreases a.len() + b.len(),
{
    if a.len() > 0 {
        bytes_add_up(a.drop_last(), Seq::empty());
        if forall|i: int| 0 <= i < a.len() ==> (#[trigger] a[i]) <= '\u{7f}' {
            assert forall|i: int| 0 <= i < a.drop_last().len() implies (
            #[trigger] a.drop_last()[i]) <= '\u{7f}' by {
                assert(a.drop_last()[i] == a[i]);
            }
            assert(a[a.len() - 1] <= '\u{7f}');
        }
    }
    if b.len() > 0 {
        bytes_add_up(a, b.drop_last());
        assert((a + b).drop_last() =~= a + b.drop_last());
        assert((a + b).last() == b.last());
    } else {
        assert(a + b =~= a);
    }
}

} // verus!
