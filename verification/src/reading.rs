//! Values as the bits of IEEE 754 doubles: how they are ordered.

use vstd::prelude::*;

verus! {

/// The bit that says a double is negative.
pub const SIGN: u64 = 0x8000_0000_0000_0000;

/// The bits of positive infinity: the first magnitude that is not finite.
pub const INFINITY: u64 = 0x7ff0_0000_0000_0000;

/// The bits of negative infinity.
pub const NEGATIVE_INFINITY: u64 = 0xfff0_0000_0000_0000;

/// The bits without the sign.
pub open spec fn magnitude(bits: u64) -> u64 {
    if bits >= SIGN {
        (bits - SIGN) as u64
    } else {
        bits
    }
}

pub open spec fn is_nan(bits: u64) -> bool {
    magnitude(bits) > INFINITY
}

pub open spec fn is_finite(bits: u64) -> bool {
    magnitude(bits) < INFINITY
}

/// Where a double stands among the others: the two zeros at one place.
pub open spec fn rank(bits: u64) -> int {
    if bits >= SIGN {
        -(magnitude(bits) as int)
    } else {
        bits as int
    }
}

/// The order of doubles. A value that is not a number is neither below nor above any.
pub open spec fn below(a: u64, b: u64) -> bool {
    !is_nan(a) && !is_nan(b) && rank(a) < rank(b)
}

/// Decides [`is_finite`].
pub fn finite(bits: u64) -> (r: bool)
    ensures
        r == is_finite(bits),
{
    if bits >= SIGN {
        bits - SIGN < INFINITY
    } else {
        bits < INFINITY
    }
}

fn nan(bits: u64) -> (r: bool)
    ensures
        r == is_nan(bits),
{
    if bits >= SIGN {
        bits - SIGN > INFINITY
    } else {
        bits > INFINITY
    }
}

/// Decides [`below`].
pub fn less(a: u64, b: u64) -> (r: bool)
    ensures
        r == below(a, b),
{
    if nan(a) || nan(b) {
        return false;
    }
    if a >= SIGN {
        if b >= SIGN {
            a - SIGN > b - SIGN
        } else {
            a - SIGN > 0 || b > 0
        }
    } else {
        if b >= SIGN {
            false
        } else {
            a < b
        }
    }
}

/// Values below and above each other are ordered as numbers are.
pub proof fn below_is_an_order(a: u64, b: u64, c: u64)
    ensures
        !below(a, a),
        below(a, b) ==> !below(b, a),
        below(a, b) && below(b, c) ==> below(a, c),
{
}

/// The least value, the greatest and how many there are, of the values seen so far.
#[derive(Debug, Clone, Copy, PartialEq, Eq, Structural)]
pub struct Extent {
    pub min_bits: u64,
    pub max_bits: u64,
    pub count: u64,
}

/// The extent of one value more. A value replaces a bound only where it is beyond it.
pub open spec fn extended(x: Option<Extent>, bits: u64) -> Extent {
    match x {
        None => Extent { min_bits: bits, max_bits: bits, count: 1 },
        Some(e) => Extent {
            min_bits: if below(bits, e.min_bits) {
                bits
            } else {
                e.min_bits
            },
            max_bits: if below(e.max_bits, bits) {
                bits
            } else {
                e.max_bits
            },
            count: (e.count + 1) as u64,
        },
    }
}

/// Takes one value into an extent.
pub fn extend(x: Option<Extent>, bits: u64) -> (r: Extent)
    requires
        x is Some ==> x->0.count < u64::MAX,
    ensures
        r == extended(x, bits),
{
    match x {
        None => Extent { min_bits: bits, max_bits: bits, count: 1 },
        Some(e) => Extent {
            min_bits: if less(bits, e.min_bits) {
                bits
            } else {
                e.min_bits
            },
            max_bits: if less(e.max_bits, bits) {
                bits
            } else {
                e.max_bits
            },
            count: e.count + 1,
        },
    }
}

/// Doubles are ordered as the numbers they are: a positive one by its bits, a negative one
/// against them, every negative one before every positive one, the two zeros at one place,
/// and what is no number nowhere.
pub proof fn doubles_are_ordered_as_numbers(a: u64, b: u64)
    ensures
        a < b <= 0x7ff0_0000_0000_0000 ==> below(a, b) && !below(b, a),
        0x8000_0000_0000_0000 <= a < b <= 0xfff0_0000_0000_0000 ==> below(b, a) && !below(a, b),
        0x8000_0000_0000_0000 < a <= 0xfff0_0000_0000_0000 && b <= 0x7ff0_0000_0000_0000 ==> below(
            a,
            b,
        ) && !below(b, a),
        a == 0 && b == 0x8000_0000_0000_0000 ==> !below(a, b) && !below(b, a),
        a > 0xfff0_0000_0000_0000 || (0x7ff0_0000_0000_0000 < a < 0x8000_0000_0000_0000) ==> !below(
            a,
            b,
        ) && !below(b, a),
        is_finite(a) <==> a < 0x7ff0_0000_0000_0000 || (0x8000_0000_0000_0000 <= a
            < 0xfff0_0000_0000_0000),
{
}

/// One value more leaves neither bound inside what was seen: each is the bound before or the
/// value, and the value lies beyond neither.
pub proof fn an_extent_takes_in_a_value(x: Option<Extent>, bits: u64)
    requires
        x is Some ==> x->0.count < u64::MAX,
    ensures
        ({
            let e = extended(x, bits);
            &&& !below(bits, e.min_bits)
            &&& !below(e.max_bits, bits)
            &&& x is None ==> e.min_bits == bits && e.max_bits == bits && e.count == 1
            &&& x is Some ==> e.count == x->0.count + 1 && !below(x->0.min_bits, e.min_bits)
                && !below(e.max_bits, x->0.max_bits) && (e.min_bits == x->0.min_bits || e.min_bits
                == bits) && (e.max_bits == x->0.max_bits || e.max_bits == bits)
        }),
{
}

} // verus!
