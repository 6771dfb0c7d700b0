//! The arithmetic of IEEE 754 doubles that places a mark in a bin, in integers.
//!
//! A positive double is a whole number of at most 53 bits times a power of two. Each
//! operation rounds its exact result to the nearest of those, ties to the even one.

use vstd::prelude::*;
use vstd::arithmetic::power2::{lemma_pow2_adds, lemma_pow2_pos, lemma_pow2_unfold, lemma2_to64, lemma_pow2_strictly_increases, pow2};

verus! {

/// `m` times two to the `e`.
pub ghost struct Double {
    pub m: nat,
    pub e: int,
}

/// The whole number nearest to `n / d`, and of two the even one.
pub open spec fn nearest(n: nat, d: nat) -> nat {
    let q = n / d;
    let r = n % d;
    if 2 * r < d || (2 * r == d && q % 2 == 0) {
        q
    } else {
        q + 1
    }
}

/// The numerator of `n / d` over two to the `e`.
pub open spec fn over(n: nat, e: int) -> nat {
    if e < 0 {
        n * pow2((-e) as nat)
    } else {
        n
    }
}

/// The denominator of `n / d` over two to the `e`.
pub open spec fn under(d: nat, e: int) -> nat {
    if e < 0 {
        d
    } else {
        d * pow2(e as nat)
    }
}

pub open spec fn lowest() -> nat {
    4_503_599_627_370_496
}

/// Whether `n / d` over two to the `e` has a whole part of 53 bits.
pub open spec fn fits(n: nat, d: nat, e: int) -> bool {
    lowest() * under(d, e) <= over(n, e) < 2 * lowest() * under(d, e)
}

/// The power of two that a double near `n / d` counts in.
pub open spec fn exponent(n: nat, d: nat) -> int {
    choose|e: int| fits(n, d, e)
}

/// The double nearest to `n / d` times two to the `k`.
pub open spec fn rounded(n: nat, d: nat, k: int) -> Double {
    let e = exponent(n, d);
    Double { m: nearest(over(n, e), under(d, e)), e: e + k }
}

/// The double nearest to a whole number.
pub open spec fn of_int(n: nat) -> Double {
    rounded(n, 1, 0)
}

/// The quotient of two doubles.
pub open spec fn quotient(x: Double, y: Double) -> Double {
    rounded(x.m, y.m, x.e - y.e)
}

/// The product of two doubles.
pub open spec fn product(x: Double, y: Double) -> Double {
    rounded(x.m * y.m, 1, x.e + y.e)
}

/// The whole part of a double.
pub open spec fn floor(x: Double) -> nat {
    if x.e < 0 {
        x.m / pow2((-x.e) as nat)
    } else {
        x.m * pow2(x.e as nat)
    }
}

/// The bin of `width` that an instant falls in, `offset` into a window `span` long: the
/// whole part of `offset * (width / span)`, each of those operations rounded, and the
/// last bin where that is past it.
pub open spec fn bin(offset: nat, span: nat, width: nat) -> nat {
    let at = if offset == 0 {
        0
    } else {
        floor(product(of_int(offset), quotient(of_int(width), of_int(span))))
    };
    if at < width {
        at
    } else {
        (width - 1) as nat
    }
}

proof fn one_exponent(n: nat, d: nat, a: int, b: int)
    requires
        n > 0,
        d > 0,
        fits(n, d, a),
        fits(n, d, b),
    ensures
        a == b,
{
    if a < b {
        smaller_does_not_fit(n, d, a, b);
    } else if b < a {
        smaller_does_not_fit(n, d, b, a);
    }
}

/// Two to the power of the difference.
proof fn smaller_does_not_fit(n: nat, d: nat, a: int, b: int)
    requires
        n > 0,
        d > 0,
        a < b,
        fits(n, d, b),
    ensures
        !fits(n, d, a),
{
    let l = lowest() as int;
    lemma_pow2_pos((b - a) as nat);
    pow2_at_least_two((b - a) as nat);
    if b < 0 {
        // over(a) == over(b) * pow2(b - a)
        let p = pow2((-b) as nat) as int;
        let q = pow2((b - a) as nat) as int;
        lemma_pow2_adds((-b) as nat, (b - a) as nat);
        assert(pow2((-a) as nat) == p * q);
        assert(n * (p * q) >= 2 * (n * p)) by (nonlinear_arith)
            requires
                n > 0,
                p >= 0,
                q >= 2,
        ;
        assert(over(n, a) >= 2 * over(n, b));
        assert(2 * l * d == 2 * (l * d)) by (nonlinear_arith);
    } else if a >= 0 {
        let p = pow2(a as nat) as int;
        let q = pow2((b - a) as nat) as int;
        lemma_pow2_adds(a as nat, (b - a) as nat);
        lemma_pow2_pos(a as nat);
        assert(pow2(b as nat) == p * q);
        assert(d * (p * q) >= 2 * (d * p)) by (nonlinear_arith)
            requires
                d > 0,
                p > 0,
                q >= 2,
        ;
        assert(under(d, b) >= 2 * under(d, a));
        assert(l * under(d, b) >= 2 * l * under(d, a)) by (nonlinear_arith)
            requires
                under(d, b) >= 2 * under(d, a),
                l > 0,
        ;
    } else {
        // a < 0 <= b
        let p = pow2((-a) as nat) as int;
        let q = pow2(b as nat) as int;
        lemma_pow2_pos((-a) as nat);
        lemma_pow2_pos(b as nat);
        pow2_at_least_two((-a) as nat);
        assert(n * p >= 2 * n) by (nonlinear_arith)
            requires
                n > 0,
                p >= 2,
        ;
        assert(d * q >= d) by (nonlinear_arith)
            requires
                d > 0,
                q >= 1,
        ;
        assert(l * (d * q) >= l * d) by (nonlinear_arith)
            requires
                d * q >= d,
                l > 0,
        ;
        assert(2 * l * d == 2 * (l * d)) by (nonlinear_arith);
    }
}

proof fn pow2_at_least_two(k: nat)
    requires
        k >= 1,
    ensures
        pow2(k) >= 2,
{
    lemma2_to64();
    if k > 1 {
        lemma_pow2_strictly_increases(1, k);
    }
}

/// A positive double, as far as it is computed with.
struct Scaled {
    m: u64,
    e: i64,
}

impl Scaled {
    spec fn is(&self, x: Double) -> bool {
        self.m == x.m && self.e == x.e
    }
}

/// The double nearest to `n / d` times two to the `k`.
fn round(n: u128, d: u128, k: i64) -> (r: Scaled)
    requires
        0 < n <= 0x40_0000_0000_0000_0000_0000_0000_00u128,
        0 < d <= 0x20_0000_0000_0000,
        -1_000 <= k <= 1_000,
    ensures
        r.is(rounded(n as nat, d as nat, k as int)),
        0x10_0000_0000_0000 <= r.m <= 0x20_0000_0000_0000,
        k - 200 <= r.e <= k + 200,
{
    let mut big: u128 = n;
    let mut small: u128 = d;
    let mut e: i64 = 0;
    proof {
        lemma2_to64();
    }
    while big >= 0x20_0000_0000_0000 * small
        invariant
            0 < n <= 0x40_0000_0000_0000_0000_0000_0000_00u128,
            0 < d <= 0x20_0000_0000_0000,
            0 <= e <= 150,
            big == n,
            small == d * pow2(e as nat),
            small >= e,
            small > 0,
            e == 0 ==> small == d,
            e > 0 ==> big >= 0x10_0000_0000_0000 * small,
            small <= 0x4_0000_0000_0000_0000u128,
        decreases 0x8_0000_0000_0000_0000u128 - small,
    {
        proof {
            lemma_pow2_unfold((e + 1) as nat);
            assert(d * (2 * pow2(e as nat)) == 2 * (d * pow2(e as nat))) by (nonlinear_arith);
            doublings(e as nat, small as nat, d as nat);
        }
        small = small * 2;
        e = e + 1;
    }
    let ghost up = e;
    proof {
        assert(n * pow2(0) == n) by {
            lemma2_to64();
        }
    }
    while big < 0x10_0000_0000_0000 * small
        invariant
            0 < n <= 0x40_0000_0000_0000_0000_0000_0000_00u128,
            0 < d <= 0x20_0000_0000_0000,
            up >= 0,
            -150 <= e <= up,
            up <= 150,
            big > 0,
            big < 0x20_0000_0000_0000 * small,
            e < up ==> up == 0,
            up > 0 ==> big >= 0x10_0000_0000_0000 * small,
            up == 0 ==> small == d && big == n * pow2((-e) as nat),
            up > 0 ==> e == up && big == n && small == d * pow2(e as nat),
            small <= 0x4_0000_0000_0000_0000u128,
        decreases 0x20_0000_0000_0000 * small - big,
    {
        proof {
            lemma_pow2_unfold((1 - e) as nat);
            assert(n * (2 * pow2((-e) as nat)) == 2 * (n * pow2((-e) as nat))) by (nonlinear_arith);
            halvings((-e) as nat, n as nat, big as nat);
        }
        big = big * 2;
        e = e - 1;
    }
    proof {
        lemma2_to64();
        if up == 0 && e == 0 {
            assert(d * pow2(0) == d);
        }
        assert(over(n as nat, e as int) == big);
        assert(under(d as nat, e as int) == small);
        assert(fits(n as nat, d as nat, e as int));
        one_exponent(n as nat, d as nat, e as int, exponent(n as nat, d as nat));
    }
    let q: u128 = big / small;
    let r: u128 = big % small;
    proof {
        vstd::arithmetic::div_mod::lemma_fundamental_div_mod(big as int, small as int);
        assert(0x10_0000_0000_0000 <= q < 0x20_0000_0000_0000) by (nonlinear_arith)
            requires
                big == small * q + r,
                0 <= r < small,
                0x10_0000_0000_0000 * small <= big,
                big < 2 * 0x10_0000_0000_0000 * small,
                q >= 0,
        ;
    }
    let m: u128 = if 2 * r < small || (2 * r == small && q % 2 == 0) {
        q
    } else {
        q + 1
    };
    Scaled { m: m as u64, e: e + k }
}

proof fn doublings(e: nat, small: nat, d: nat)
    requires
        small == d * pow2(e),
        d > 0,
        small <= 0x2_0000_0000_0000_0000,
    ensures
        e <= 65,
{
    lemma_pow2_pos(e);
    assert(d * pow2(e) >= pow2(e)) by (nonlinear_arith)
        requires
            d >= 1,
            pow2(e) > 0,
    ;
    if e > 65 {
        lemma2_to64();
        lemma_pow2_unfold(65);
        lemma_pow2_strictly_increases(65, e);
    }
}

proof fn halvings(e: nat, n: nat, big: nat)
    requires
        big == n * pow2(e),
        n > 0,
        big < 0x10_0000_0000_0000 * 0x4_0000_0000_0000_0000,
    ensures
        e <= 128,
{
    lemma_pow2_pos(e);
    assert(n * pow2(e) >= pow2(e)) by (nonlinear_arith)
        requires
            n >= 1,
            pow2(e) > 0,
    ;
    if e > 128 {
        lemma2_to64();
        lemma_pow2_adds(64, 64);
        lemma_pow2_strictly_increases(128, e);
    }
}

fn power(k: u32) -> (r: u128)
    requires
        k <= 64,
    ensures
        r == pow2(k as nat),
        0 < r <= 0x1_0000_0000_0000_0000,
{
    let mut p: u128 = 1;
    proof {
        lemma2_to64();
    }
    for i in 0..k
        invariant
            k <= 64,
            p == pow2(i as nat),
            0 < p,
    {
        proof {
            lemma2_to64();
            lemma_pow2_unfold((i + 1) as nat);
            if i < 64 {
                lemma_pow2_strictly_increases(i as nat, 64);
            }
        }
        p = p * 2;
    }
    proof {
        lemma2_to64();
        if k < 64 {
            lemma_pow2_strictly_increases(k as nat, 64);
        }
    }
    p
}

/// The bin that an instant falls in.
pub fn bin_of(offset: u64, span: u64, width: usize) -> (r: usize)
    requires
        span > 0,
        width > 0,
    ensures
        r == bin(offset as nat, span as nat, width as nat),
        r < width,
{
    if offset == 0 {
        return 0;
    }
    let a = round(offset as u128, 1, 0);
    let w = round(width as u128, 1, 0);
    let s = round(span as u128, 1, 0);
    let scale = round(w.m as u128, s.m as u128, w.e - s.e);
    assert((a.m as u128) * (scale.m as u128) <= 0x40_0000_0000_0000_0000_0000_0000_00u128)
        by (nonlinear_arith)
        requires
            a.m <= 0x20_0000_0000_0000,
            scale.m <= 0x20_0000_0000_0000,
    ;
    assert((a.m as u128) * (scale.m as u128) > 0) by (nonlinear_arith)
        requires
            a.m > 0,
            scale.m > 0,
    ;
    let p = round((a.m as u128) * (scale.m as u128), 1, a.e + scale.e);
    let ghost x = product(
        of_int(offset as nat),
        quotient(of_int(width as nat), of_int(span as nat)),
    );
    assert(p.is(x));
    let last: u128 = (width - 1) as u128;
    if p.e >= 0 {
        if p.e > 64 {
            proof {
                lemma2_to64();
                lemma_pow2_strictly_increases(64, p.e as nat);
                let y = pow2(p.e as nat);
                assert(p.m * y >= y) by (nonlinear_arith)
                    requires
                        p.m >= 1,
                        y >= 0,
                ;
            }
            return width - 1;
        }
        let t = power(p.e as u32);
        assert(p.m * t <= 0x20_0000_0000_0000 * 0x1_0000_0000_0000_0000) by (nonlinear_arith)
            requires
                p.m <= 0x20_0000_0000_0000,
                t <= 0x1_0000_0000_0000_0000,
        ;
        let at: u128 = (p.m as u128) * t;
        if at < last {
            at as usize
        } else {
            width - 1
        }
    } else {
        if p.e < -64 {
            proof {
                lemma2_to64();
                lemma_pow2_strictly_increases(64, (-p.e) as nat);
                vstd::arithmetic::div_mod::lemma_basic_div(p.m as int, pow2((-p.e) as nat) as int);
            }
            return 0;
        }
        let t = power((-p.e) as u32);
        let at: u128 = (p.m as u128) / t;
        if at < last {
            at as usize
        } else {
            width - 1
        }
    }
}

// ---- laws --------------------------------------------------------------------

/// The nearest whole number is at most a half away, and the even one where it is just that.
pub proof fn the_nearest_is_at_most_a_half_away(n: nat, d: nat)
    requires
        d > 0,
    ensures
        2 * n <= 2 * (nearest(n, d) * d) + d,
        2 * (nearest(n, d) * d) <= 2 * n + d,
        2 * n == 2 * (nearest(n, d) * d) + d || 2 * (nearest(n, d) * d) == 2 * n + d ==> nearest(
            n,
            d,
        ) % 2 == 0,
{
    let q = n / d;
    let r = n % d;
    vstd::arithmetic::div_mod::lemma_fundamental_div_mod(n as int, d as int);
    vstd::arithmetic::div_mod::lemma_mod_bound(n as int, d as int);
    assert(n == q * d + r) by (nonlinear_arith)
        requires
            n == d * q + r,
    ;
    assert((q + 1) * d == q * d + d) by (nonlinear_arith);
    assert(nearest(n, d) == q || nearest(n, d) == q + 1);
}

/// The whole part of a number is the last one that is not past it.
pub proof fn a_whole_part_is_not_past_its_number(m: nat, k: nat)
    ensures
        floor(Double { m, e: k as int }) == m * pow2(k),
        k > 0 ==> floor(Double { m, e: -(k as int) }) * pow2(k) <= m,
        k > 0 ==> m < (floor(Double { m, e: -(k as int) }) + 1) * pow2(k),
{
    if k > 0 {
        let p = pow2(k);
        vstd::arithmetic::power2::lemma_pow2_pos(k);
        let q = floor(Double { m, e: -(k as int) });
        assert(q == m / p);
        vstd::arithmetic::div_mod::lemma_fundamental_div_mod(m as int, p as int);
        vstd::arithmetic::div_mod::lemma_mod_bound(m as int, p as int);
        assert(q * p <= m < (q + 1) * p) by (nonlinear_arith)
            requires
                m == p * q + m % p,
                0 <= m % p < p,
        ;
    }
}

/// A window opens in its first bin, and no bin is past the last.
pub proof fn a_window_opens_in_its_first_bin(offset: nat, span: nat, width: nat)
    requires
        width > 0,
    ensures
        bin(0, span, width) == 0,
        bin(offset, span, width) < width,
        width == 1 ==> bin(offset, span, width) == 0,
{
}

/// A number is rounded to fifty-three bits, and to within half of the last of them.
pub proof fn a_number_is_rounded_to_half_its_last_bit(n: nat, d: nat, k: int, e: int)
    requires
        n > 0,
        d > 0,
        fits(n, d, e),
    ensures
        ({
            let r = rounded(n, d, k);
            let top = if e < 0 {
                n * pow2((-e) as nat)
            } else {
                n
            };
            let bottom = if e < 0 {
                d
            } else {
                d * pow2(e as nat)
            };
            &&& r.e == e + k
            &&& 0x10_0000_0000_0000 <= r.m <= 0x20_0000_0000_0000
            &&& 2 * top <= 2 * (r.m * bottom) + bottom
            &&& 2 * (r.m * bottom) <= 2 * top + bottom
        }),
{
    one_exponent(n, d, e, exponent(n, d));
    let top = over(n, e);
    let bottom = under(d, e);
    if e >= 0 {
        lemma_pow2_pos(e as nat);
        assert(d * pow2(e as nat) > 0) by (nonlinear_arith)
            requires
                d > 0,
                pow2(e as nat) > 0,
        ;
    }
    the_nearest_is_at_most_a_half_away(top, bottom);
    let m = nearest(top, bottom);
    let q = top / bottom;
    vstd::arithmetic::div_mod::lemma_fundamental_div_mod(top as int, bottom as int);
    vstd::arithmetic::div_mod::lemma_mod_bound(top as int, bottom as int);
    assert(lowest() <= q < 2 * lowest()) by (nonlinear_arith)
        requires
            bottom > 0,
            lowest() * bottom <= top < 2 * lowest() * bottom,
            top == bottom * q + top % bottom,
            0 <= top % bottom < bottom,
    ;
    assert(m == q || m == q + 1);
}

/// A quotient and a product are rounded once, from the exact result.
pub proof fn a_result_is_rounded_once(x: Double, y: Double)
    ensures
        quotient(x, y) == rounded(x.m, y.m, x.e - y.e),
        product(x, y) == rounded(x.m * y.m, 1, x.e + y.e),
        of_int(x.m) == rounded(x.m, 1, 0),
{
}

} // verus!
