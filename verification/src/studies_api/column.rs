//! Which texts read as floating-point numbers.

use vstd::prelude::*;
use vstd::string::*;
use crate::text::chars_of;

verus! {

pub open spec fn is_digit(c: char) -> bool {
    '0' <= c <= '9'
}

/// Only digits, possibly none.
pub open spec fn all_digits(s: Seq<char>) -> bool {
    forall|i: int| 0 <= i < s.len() ==> is_digit(#[trigger] s[i])
}

/// Digits, at least one.
pub open spec fn some_digits(s: Seq<char>) -> bool {
    s.len() > 0 && all_digits(s)
}

pub open spec fn is_sign(c: char) -> bool {
    c == '+' || c == '-'
}

/// `s` without the sign it may start with.
pub open spec fn bare(s: Seq<char>) -> Seq<char> {
    if s.len() > 0 && is_sign(s[0]) {
        s.drop_first()
    } else {
        s
    }
}

pub open spec fn lower(c: char) -> char {
    if 'A' <= c <= 'Z' {
        (c as int + 32) as char
    } else {
        c
    }
}

/// `s` in lower case, as far as ASCII goes.
pub open spec fn lowered(s: Seq<char>) -> Seq<char> {
    s.map_values(|c: char| lower(c))
}

/// Digits with at most one point among them, and at least one digit.
pub open spec fn is_mantissa(s: Seq<char>) -> bool {
    ||| some_digits(s)
    ||| exists|dot: int|
        0 <= dot < s.len() && s[dot] == '.' && #[trigger] all_digits(s.take(dot)) && all_digits(
            s.skip(dot + 1),
        ) && s.len() > 1
}

/// A mantissa, with an exponent or without.
pub open spec fn is_decimal(s: Seq<char>) -> bool {
    ||| is_mantissa(s)
    ||| exists|e: int|
        0 <= e < s.len() && (s[e] == 'e' || s[e] == 'E') && #[trigger] is_mantissa(s.take(e))
            && some_digits(bare(s.skip(e + 1)))
}

/// Whether `s` reads as a floating-point number: a sign, then `inf`, `infinity` or
/// `nan` in any case, or a decimal number.
pub open spec fn numeric(s: Seq<char>) -> bool {
    ||| is_decimal(bare(s))
    ||| lowered(bare(s)) == "inf"@
    ||| lowered(bare(s)) == "infinity"@
    ||| lowered(bare(s)) == "nan"@
}

fn digits_between(cs: &Vec<char>, from: usize, to: usize) -> (r: bool)
    requires
        from <= to <= cs.len(),
    ensures
        r == all_digits(cs@.subrange(from as int, to as int)),
{
    let ghost piece = cs@.subrange(from as int, to as int);
    for i in from..to
        invariant
            from <= to <= cs.len(),
            piece == cs@.subrange(from as int, to as int),
            forall|j: int| 0 <= j < i - from ==> is_digit(#[trigger] piece[j]),
    {
        if !('0' <= cs[i] && cs[i] <= '9') {
            assert(!is_digit(piece[i - from]));
            return false;
        }
    }
    true
}

fn mantissa_between(cs: &Vec<char>, from: usize, to: usize) -> (r: bool)
    requires
        from <= to <= cs.len(),
    ensures
        r == is_mantissa(cs@.subrange(from as int, to as int)),
{
    let ghost s = cs@.subrange(from as int, to as int);
    let mut dot: usize = from;
    while dot < to && cs[dot] != '.'
        invariant
            from <= dot <= to <= cs.len(),
            s == cs@.subrange(from as int, to as int),
            forall|j: int| 0 <= j < dot - from ==> #[trigger] s[j] != '.',
        decreases to - dot,
    {
        dot = dot + 1;
    }
    if dot == to {
        proof {
            // No point stands in it.
            if exists|d: int|
                0 <= d < s.len() && s[d] == '.' && #[trigger] all_digits(s.take(d)) && all_digits(
                    s.skip(d + 1),
                ) && s.len() > 1 {
                let d = choose|d: int|
                    0 <= d < s.len() && s[d] == '.' && #[trigger] all_digits(s.take(d))
                        && all_digits(s.skip(d + 1)) && s.len() > 1;
                assert(s[d] != '.');
            }
        }
        from < to && digits_between(cs, from, to)
    } else {
        let ghost k = dot - from;
        assert(s[k] == '.');
        assert(s.take(k) =~= cs@.subrange(from as int, dot as int));
        assert(s.skip(k + 1) =~= cs@.subrange(dot + 1, to as int));
        proof {
            assert(!all_digits(s)) by {
                assert(!is_digit(s[k]));
            }
            if exists|d: int|
                0 <= d < s.len() && s[d] == '.' && #[trigger] all_digits(s.take(d)) && all_digits(
                    s.skip(d + 1),
                ) && s.len() > 1 {
                let d = choose|d: int|
                    0 <= d < s.len() && s[d] == '.' && #[trigger] all_digits(s.take(d))
                        && all_digits(s.skip(d + 1)) && s.len() > 1;
                if d < k {
                    assert(s[d] != '.');
                } else if d > k {
                    assert(s.take(d)[k] == s[k]);
                    assert(!is_digit(s.take(d)[k]));
                }
            }
        }
        to - from > 1 && digits_between(cs, from, dot) && digits_between(cs, dot + 1, to)
    }
}

fn decimal_from(cs: &Vec<char>, from: usize) -> (r: bool)
    requires
        from <= cs.len(),
    ensures
        r == is_decimal(cs@.skip(from as int)),
{
    let ghost s = cs@.skip(from as int);
    let mut e: usize = from;
    while e < cs.len() && cs[e] != 'e' && cs[e] != 'E'
        invariant
            from <= e <= cs.len(),
            s == cs@.skip(from as int),
            forall|j: int| 0 <= j < e - from ==> #[trigger] s[j] != 'e' && s[j] != 'E',
        decreases cs.len() - e,
    {
        e = e + 1;
    }
    let ghost k = e - from;
    assert(s.take(k) =~= cs@.subrange(from as int, e as int));
    if e == cs.len() {
        assert(s.take(k) =~= s);
        proof {
            if exists|d: int|
                0 <= d < s.len() && (s[d] == 'e' || s[d] == 'E') && #[trigger] is_mantissa(s.take(d))
                    && some_digits(bare(s.skip(d + 1))) {
                let d = choose|d: int|
                    0 <= d < s.len() && (s[d] == 'e' || s[d] == 'E') && #[trigger] is_mantissa(
                        s.take(d),
                    ) && some_digits(bare(s.skip(d + 1)));
                assert(s[d] != 'e' && s[d] != 'E');
            }
        }
        mantissa_between(cs, from, e)
    } else {
        let mut x: usize = e + 1;
        if x < cs.len() && (cs[x] == '+' || cs[x] == '-') {
            x = x + 1;
        }
        proof {
            assert(s[k] == cs@[e as int]);
            let rest = s.skip(k + 1);
            assert(rest =~= cs@.skip(e + 1));
            assert(bare(rest) =~= cs@.subrange(x as int, cs@.len() as int));
            mantissa_letters(s, k);
            if exists|d: int|
                0 <= d < s.len() && (s[d] == 'e' || s[d] == 'E') && #[trigger] is_mantissa(s.take(d))
                    && some_digits(bare(s.skip(d + 1))) {
                let d = choose|d: int|
                    0 <= d < s.len() && (s[d] == 'e' || s[d] == 'E') && #[trigger] is_mantissa(
                        s.take(d),
                    ) && some_digits(bare(s.skip(d + 1)));
                if d < k {
                    assert(s[d] != 'e' && s[d] != 'E');
                } else if d > k {
                    mantissa_letters(s.take(d), k);
                }
            }
        }
        mantissa_between(cs, from, e) && x < cs.len() && digits_between(cs, x, cs.len())
    }
}

/// A mantissa holds no letter.
proof fn mantissa_letters(s: Seq<char>, k: int)
    requires
        0 <= k < s.len(),
        s[k] == 'e' || s[k] == 'E',
    ensures
        !is_mantissa(s),
{
    assert(!is_digit(s[k]));
    if exists|d: int|
        0 <= d < s.len() && s[d] == '.' && #[trigger] all_digits(s.take(d)) && all_digits(
            s.skip(d + 1),
        ) && s.len() > 1 {
        let d = choose|d: int|
            0 <= d < s.len() && s[d] == '.' && #[trigger] all_digits(s.take(d)) && all_digits(
                s.skip(d + 1),
            ) && s.len() > 1;
        if k < d {
            assert(s.take(d)[k] == s[k]);
        } else if k > d {
            assert(s.skip(d + 1)[k - d - 1] == s[k]);
        }
    }
}

fn lower_of(c: char) -> (r: char)
    ensures
        r == lower(c),
{
    match c {
        'A' => 'a',
        'B' => 'b',
        'C' => 'c',
        'D' => 'd',
        'E' => 'e',
        'F' => 'f',
        'G' => 'g',
        'H' => 'h',
        'I' => 'i',
        'J' => 'j',
        'K' => 'k',
        'L' => 'l',
        'M' => 'm',
        'N' => 'n',
        'O' => 'o',
        'P' => 'p',
        'Q' => 'q',
        'R' => 'r',
        'S' => 's',
        'T' => 't',
        'U' => 'u',
        'V' => 'v',
        'W' => 'w',
        'X' => 'x',
        'Y' => 'y',
        'Z' => 'z',
        _ => c,
    }
}

/// A character in lower case, as far as ASCII goes.
pub fn ascii_lower(c: char) -> (r: char)
    ensures
        r == lower(c),
{
    lower_of(c)
}

fn lowered_is(cs: &Vec<char>, from: usize, word: &str) -> (r: bool)
    requires
        from <= cs.len(),
    ensures
        r == (lowered(cs@.skip(from as int)) == word@),
{
    let w = chars_of(word);
    let ghost s = lowered(cs@.skip(from as int));
    if cs.len() - from != w.len() {
        return false;
    }
    for i in 0..w.len()
        invariant
            w@ == word@,
            from <= cs.len(),
            cs.len() - from == w.len(),
            s == lowered(cs@.skip(from as int)),
            forall|j: int| 0 <= j < i ==> s[j] == word@[j],
    {
        assert(s[i as int] == lower(cs@[from + i]));
        if lower_of(cs[from + i]) != w[i] {
            return false;
        }
    }
    assert(s =~= word@);
    true
}

/// Whether `s` reads as a floating-point number.
pub fn is_number(s: &str) -> (r: bool)
    ensures
        r == numeric(s@),
{
    let cs = chars_of(s);
    let from: usize = if cs.len() > 0 && (cs[0] == '+' || cs[0] == '-') {
        1
    } else {
        0
    };
    assert(bare(s@) =~= cs@.skip(from as int));
    decimal_from(&cs, from) || lowered_is(&cs, from, "inf") || lowered_is(&cs, from, "infinity")
        || lowered_is(&cs, from, "nan")
}

// ---- laws --------------------------------------------------------------------

/// Digits read as a number, with a sign before them or without, and so do digits with a
/// point before, after or among them.
pub proof fn digits_read_as_a_number(a: Seq<char>, b: Seq<char>)
    requires
        forall|i: int| 0 <= i < a.len() ==> '0' <= #[trigger] a[i] <= '9',
        forall|i: int| 0 <= i < b.len() ==> '0' <= #[trigger] b[i] <= '9',
        a.len() + b.len() > 0,
    ensures
        a.len() > 0 ==> numeric(a),
        a.len() > 0 ==> numeric(seq!['-'] + a) && numeric(seq!['+'] + a),
        numeric(a + seq!['.'] + b),
        numeric(seq!['-'] + (a + seq!['.'] + b)),
{
    let s = a + seq!['.'] + b;
    assert(all_digits(a) && all_digits(b));
    assert(s.take(a.len() as int) =~= a);
    assert(s.skip(a.len() as int + 1) =~= b);
    assert(s[a.len() as int] == '.');
    assert(is_mantissa(s));
    assert(bare(s) =~= s);
    assert(bare(a) =~= a);
    assert((seq!['-'] + s).drop_first() =~= s);
    assert((seq!['-'] + a).drop_first() =~= a);
    assert((seq!['+'] + a).drop_first() =~= a);
}

/// A number with a power of ten behind it, signed or not, reads as a number.
pub proof fn a_power_of_ten_may_follow(a: Seq<char>, x: Seq<char>)
    requires
        a.len() > 0,
        x.len() > 0,
        forall|i: int| 0 <= i < a.len() ==> '0' <= #[trigger] a[i] <= '9',
        forall|i: int| 0 <= i < x.len() ==> '0' <= #[trigger] x[i] <= '9',
    ensures
        numeric(a + seq!['e'] + x),
        numeric(a + seq!['E'] + x),
        numeric(a + seq!['e'] + (seq!['-'] + x)),
        numeric(a + seq!['e'] + (seq!['+'] + x)),
{
    let n = a.len() as int;
    let minus = seq!['-'] + x;
    let plus = seq!['+'] + x;
    assert(minus.drop_first() =~= x);
    assert(plus.drop_first() =~= x);
    assert(some_digits(a) && some_digits(x));
    assert(bare(x) =~= x);
    let s1 = a + seq!['e'] + x;
    let s2 = a + seq!['E'] + x;
    let s3 = a + seq!['e'] + minus;
    let s4 = a + seq!['e'] + plus;
    assert(s1.take(n) =~= a && s2.take(n) =~= a && s3.take(n) =~= a && s4.take(n) =~= a);
    assert(s1.skip(n + 1) =~= x && s2.skip(n + 1) =~= x);
    assert(s3.skip(n + 1) =~= minus && s4.skip(n + 1) =~= plus);
    assert(is_mantissa(s1.take(n)) && is_mantissa(s2.take(n)));
    assert(is_mantissa(s3.take(n)) && is_mantissa(s4.take(n)));
    assert(bare(s1) =~= s1 && bare(s2) =~= s2 && bare(s3) =~= s3 && bare(s4) =~= s4);
    assert(s1[n] == 'e' && s2[n] == 'E' && s3[n] == 'e' && s4[n] == 'e');
}

proof fn a_mantissa_has_a_digit(s: Seq<char>)
    requires
        is_mantissa(s),
    ensures
        exists|i: int| 0 <= i < s.len() && '0' <= #[trigger] s[i] <= '9',
{
    if some_digits(s) {
        assert('0' <= s[0] <= '9');
    } else {
        let dot = choose|dot: int|
            0 <= dot < s.len() && s[dot] == '.' && #[trigger] all_digits(s.take(dot))
                && all_digits(s.skip(dot + 1)) && s.len() > 1;
        if dot > 0 {
            assert(is_digit(s.take(dot)[0]));
            assert('0' <= s[0] <= '9');
        } else {
            assert(is_digit(s.skip(1)[0]));
            assert('0' <= s[1] <= '9');
        }
    }
}

/// What reads as a number has a digit in it, or is one of three words with a sign before it
/// or without: nothing, a sign and a point alone are none.
pub proof fn a_number_has_a_digit(s: Seq<char>)
    requires
        numeric(s),
        forall|i: int| 0 <= i < s.len() ==> !('0' <= #[trigger] s[i] <= '9'),
    ensures
        s.len() >= 3,
        lowered(s) == "inf"@ || lowered(s) == "infinity"@ || lowered(s) == "nan"@ || (s[0] == '+'
            || s[0] == '-') && (lowered(s.skip(1)) == "inf"@ || lowered(s.skip(1)) == "infinity"@
            || lowered(s.skip(1)) == "nan"@),
{
    reveal_strlit("inf");
    reveal_strlit("infinity");
    reveal_strlit("nan");
    let b = bare(s);
    let off = s.len() - b.len();
    assert forall|i: int| 0 <= i < b.len() implies b[i] == #[trigger] s[i + off] by {}
    if is_decimal(b) {
        let m = if is_mantissa(b) {
            b
        } else {
            b.take(
                choose|e: int|
                    0 <= e < b.len() && (b[e] == 'e' || b[e] == 'E') && #[trigger] is_mantissa(
                        b.take(e),
                    ) && some_digits(bare(b.skip(e + 1))),
            )
        };
        a_mantissa_has_a_digit(m);
        let i = choose|i: int| 0 <= i < m.len() && '0' <= #[trigger] m[i] <= '9';
        assert(m[i] == b[i]);
        assert(s[i + off] == b[i]);
        assert(false);
    }
    assert(lowered(b).len() == b.len());
    if off > 0 {
        assert(s.skip(1) =~= b);
    }
}

/// A capital letter is lowered to the same letter, and nothing else is changed.
pub proof fn a_capital_is_lowered(c: char)
    ensures
        'A' <= c <= 'Z' ==> 'a' <= lower(c) <= 'z' && lower(c) as int - 'a' as int == c as int
            - 'A' as int,
        !('A' <= c <= 'Z') ==> lower(c) == c,
{
}

} // verus!
