//! Single-precision arithmetic on non-negative values, in integers.
//!
//! A value is a fraction of two integers. An operation is exact first; its
//! result is then rounded to the 24 significant bits of a single-precision
//! number, to the nearest one and to the even one on a tie.

use vstd::prelude::*;

verus! {

/// The smallest significand with 24 bits.
pub const SIGNIFICAND_MIN: u128 = 0x80_0000;

/// One past the largest significand with 24 bits.
pub const SIGNIFICAND_END: u128 = 0x100_0000;

/// `n / d` rounded to the nearest integer, and to the even one on a tie.
pub open spec fn half_even(n: nat, d: nat) -> nat {
    let q = n / d;
    let r = n % d;
    if 2 * r < d || (2 * r == d && q % 2 == 0) {
        q
    } else {
        q + 1
    }
}

/// A value of at least `2^23`, rounded to 24 significant bits.
pub open spec fn rounded_large(n: nat, d: nat) -> nat
    decreases n - d,
{
    if n < d * SIGNIFICAND_END || d == 0 {
        half_even(n, d)
    } else {
        2 * rounded_large(n, 2 * d)
    }
}

/// A value below `2^24`, rounded to 24 significant bits, as a fraction.
pub open spec fn rounded_small(n: nat, d: nat) -> (nat, nat)
    decreases d * SIGNIFICAND_END - n,
{
    if n >= d * SIGNIFICAND_MIN || n == 0 {
        (half_even(n, d), 1)
    } else {
        let (num, den) = rounded_small(2 * n, d);
        (num, 2 * den)
    }
}

/// An integer as a single-precision number, which is an integer again.
pub open spec fn rounded_integer(n: nat) -> nat {
    if n < SIGNIFICAND_END {
        n
    } else {
        rounded_large(n, 1)
    }
}

/// The nearest integer to `n / d`, away from zero on a tie.
pub open spec fn half_up(n: nat, d: nat) -> nat {
    (2 * n + d) / (2 * d)
}

fn half_even_exec(n: u128, d: u128) -> (out: u128)
    requires
        d > 0,
        n <= 0xffff_ffff_ffff_ffff_ffff_ffff,
        d <= 0xffff_ffff_ffff_ffff_ffff_ffff,
    ensures
        out == half_even(n as nat, d as nat),
        out <= n + 1,
{
    let q: u128 = n / d;
    let r: u128 = n % d;
    assert(q <= n) by (nonlinear_arith)
        requires
            q == n / d,
            d >= 1,
    ;
    if 2 * r < d || (2 * r == d && q % 2 == 0) {
        q
    } else {
        q + 1
    }
}

/// Rounds an integer to single precision.
pub fn round_integer(n: u32) -> (out: u64)
    ensures
        out == rounded_integer(n as nat),
        out <= 0x2_0000_0000,
        n > 0 ==> out > 0,
{
    if (n as u128) < SIGNIFICAND_END {
        return n as u64;
    }
    // Double the divisor until the quotient has 24 bits.
    let mut d: u128 = 1;
    while (n as u128) >= d * SIGNIFICAND_END
        invariant
            1 <= d <= 0x200,
            n >= SIGNIFICAND_END,
            n >= d * SIGNIFICAND_MIN,
            rounded_integer(n as nat) == d * rounded_large(n as nat, d as nat),
        decreases 0x400 - d,
    {
        assert(n >= d * SIGNIFICAND_END);
        assert(d * (2 * rounded_large(n as nat, (2 * d) as nat)) == (2 * d) * rounded_large(
            n as nat,
            (2 * d) as nat,
        )) by (nonlinear_arith);
        d = 2 * d;
    }
    let q: u128 = half_even_exec(n as u128, d);
    proof {
        let r = n as int % d as int;
        let f = n as int / d as int;
        assert(0x80_0000 <= f < 0x100_0000) by (nonlinear_arith)
            requires
                f == n as int / d as int,
                d > 0,
                n >= d * 0x80_0000,
                n < d * 0x100_0000,
        ;
        assert(0 < d * q <= 0x200 * 0x100_0000) by (nonlinear_arith)
            requires
                0 < d <= 0x200,
                0 < q <= 0x100_0000,
        ;
    }
    (d * q) as u64
}

/// Rounds a fraction below `2^24` to single precision.
pub fn round_fraction(n: u128, d: u128) -> (out: (u128, u128))
    requires
        0 < n < d * SIGNIFICAND_END,
        0 < d <= 0x200_0000_0000_0000,
    ensures
        (out.0 as nat, out.1 as nat) == rounded_small(n as nat, d as nat),
        0 < out.0 <= SIGNIFICAND_END,
        1 <= out.1 <= d * SIGNIFICAND_END,
        out.0 * d <= 2 * (n * out.1),
{
    let mut m: u128 = n;
    let mut b: u128 = 1;
    while m < d * SIGNIFICAND_MIN
        invariant
            0 < n,
            0 < d <= 0x200_0000_0000_0000,
            0 < m < d * SIGNIFICAND_END,
            1 <= b <= m,
            m == n * b,
            ({
                let (num, den) = rounded_small(m as nat, d as nat);
                rounded_small(n as nat, d as nat) == (num, den * b as nat)
            }),
        decreases d * SIGNIFICAND_END - m,
    {
        proof {
            let (num, den) = rounded_small((2 * m) as nat, d as nat);
            assert((2 * den) * b == den * (2 * b)) by (nonlinear_arith);
            assert(2 * (n * b) == n * (2 * b)) by (nonlinear_arith);
        }
        m = 2 * m;
        b = 2 * b;
    }
    let q: u128 = half_even_exec(m, d);
    proof {
        let f = m as int / d as int;
        assert(0x80_0000 <= f < 0x100_0000) by (nonlinear_arith)
            requires
                f == m as int / d as int,
                d > 0,
                m >= d * 0x80_0000,
                m < d * 0x100_0000,
        ;
        assert(q * d <= 2 * m) by (nonlinear_arith)
            requires
                q <= m as int / d as int + 1,
                d > 0,
                m >= d * 0x80_0000,
        ;
    }
    (q, b)
}

/// Rounding to single precision keeps the order: a fraction of at least `c`
/// stays at least `c`.
pub proof fn rounding_keeps_lower_bound(n: nat, d: nat, c: nat)
    requires
        d > 0,
        n > 0,
        n >= c * d,
    ensures
        rounded_small(n, d).0 >= c * rounded_small(n, d).1,
    decreases d * SIGNIFICAND_END - n,
{
    if n >= d * SIGNIFICAND_MIN {
        assert(n / d >= c) by (nonlinear_arith)
            requires
                n >= c * d,
                d > 0,
        ;
    } else {
        assert(2 * n >= (2 * c) * d) by (nonlinear_arith)
            requires
                n >= c * d,
        ;
        rounding_keeps_lower_bound(2 * n, d, 2 * c);
        let (num, den) = rounded_small(2 * n, d);
        assert((2 * c) * den == c * (2 * den)) by (nonlinear_arith);
    }
}

/// A fraction that is an integer with at most 24 significant bits is not
/// changed by rounding.
pub proof fn rounding_keeps_integers(n: nat, d: nat)
    requires
        0 < n < SIGNIFICAND_END,
        d > 0,
    ensures
        rounded_small(n * d, d).0 == n * rounded_small(n * d, d).1,
        rounded_small(n * d, d).1 > 0,
    decreases SIGNIFICAND_END - n,
{
    assert(n * d > 0) by (nonlinear_arith)
        requires
            n > 0,
            d > 0,
    ;
    if n < SIGNIFICAND_MIN {
        assert(n * d < d * SIGNIFICAND_MIN) by (nonlinear_arith)
            requires
                n < SIGNIFICAND_MIN,
                d > 0,
        ;
        rounding_keeps_integers(2 * n, d);
        assert(2 * (n * d) == (2 * n) * d) by (nonlinear_arith);
        let (num, den) = rounded_small(2 * (n * d), d);
        assert((2 * n) * den == n * (2 * den)) by (nonlinear_arith);
        assert(rounded_small(n * d, d) == (num, 2 * den));
    } else {
        assert(n * d >= d * SIGNIFICAND_MIN) by (nonlinear_arith)
            requires
                n >= SIGNIFICAND_MIN,
                d > 0,
        ;
        assert((n * d) / d == n && (n * d) % d == 0) by {
            vstd::arithmetic::div_mod::lemma_div_multiples_vanish(n as int, d as int);
            vstd::arithmetic::div_mod::lemma_mod_multiples_basic(n as int, d as int);
            vstd::arithmetic::mul::lemma_mul_is_commutative(n as int, d as int);
        }
        assert(rounded_small(n * d, d) == (n, 1nat));
        assert(n * 1 == n);
    }
}

/// A rounded value is a proper fraction.
pub proof fn rounded_has_denominator(n: nat, d: nat)
    requires
        d > 0,
    ensures
        rounded_small(n, d).1 > 0,
    decreases d * SIGNIFICAND_END - n,
{
    if n < d * SIGNIFICAND_MIN && n > 0 {
        rounded_has_denominator(2 * n, d);
    }
}

/// Whether `x` is at most `y` and `k` millionths of it.
pub open spec fn at_most(x: (nat, nat), y: (nat, nat), k: nat) -> bool {
    x.0 * y.1 * 1_000_000 <= y.0 * x.1 * (1_000_000 + k)
}

/// Whether two fractions differ by at most `k` millionths.
pub open spec fn near(x: (nat, nat), y: (nat, nat), k: nat) -> bool {
    at_most(x, y, k) && at_most(y, x, k)
}

/// Small excesses add up.
pub proof fn at_most_chains(x: (nat, nat), y: (nat, nat), z: (nat, nat), j: nat, k: nat)
    requires
        at_most(x, y, j),
        at_most(y, z, k),
        y.1 > 0,
        y.0 > 0,
        j <= 900,
        k <= 900,
    ensures
        at_most(x, z, j + k + 1),
{
    let (a, b) = x;
    let (c, d) = y;
    let (e, f) = z;
    let m = 1_000_000nat;
    let s = m + j;
    let t = m + k;
    let u = m + (j + k + 1);
    let l = (a * f) * (m * m);
    let r = (e * b) * (s * t);
    assert(l * (c * d) <= r * (c * d)) by {
        assert((a * d * m) * (c * f * m) <= (c * b * s) * (e * d * t)) by (nonlinear_arith)
            requires
                a * d * m <= c * b * s,
                c * f * m <= e * d * t,
        ;
        assert((a * d * m) * (c * f * m) == ((a * f) * (m * m)) * (c * d)) by (nonlinear_arith);
        assert((c * b * s) * (e * d * t) == ((e * b) * (s * t)) * (c * d)) by (nonlinear_arith);
    }
    assert(l <= r) by (nonlinear_arith)
        requires
            l * (c * d) <= r * (c * d),
            c > 0,
            d > 0,
    ;
    assert(s * t <= u * m) by (nonlinear_arith)
        requires
            s == 1_000_000 + j,
            t == 1_000_000 + k,
            u == 1_000_000 + j + k + 1,
            m == 1_000_000,
            j <= 900,
            k <= 900,
    ;
    assert((e * b) * (s * t) <= (e * b) * (u * m)) by (nonlinear_arith)
        requires
            s * t <= u * m,
    ;
    assert((a * f) * (m * m) == (a * f * m) * m) by (nonlinear_arith);
    assert((e * b) * (u * m) == (e * b * u) * m) by (nonlinear_arith);
    assert(a * f * m <= e * b * u) by (nonlinear_arith)
        requires
            (a * f * m) * m <= (e * b * u) * m,
            m > 0,
    ;
}

/// Small differences add up.
pub proof fn near_chains(x: (nat, nat), y: (nat, nat), z: (nat, nat), j: nat, k: nat)
    requires
        near(x, y, j),
        near(y, z, k),
        y.1 > 0,
        y.0 > 0,
        j <= 900,
        k <= 900,
    ensures
        near(x, z, j + k + 1),
{
    at_most_chains(x, y, z, j, k);
    at_most_chains(z, y, x, k, j);
}

proof fn at_most_scales(x: (nat, nat), y: (nat, nat), by: (nat, nat), k: nat)
    requires
        at_most(x, y, k),
    ensures
        at_most((x.0 * by.0, x.1 * by.1), (y.0 * by.0, y.1 * by.1), k),
{
    let (a, b) = x;
    let (c, d) = y;
    let (p, q) = by;
    let m = 1_000_000nat;
    let u = m + k;
    assert((a * p) * (d * q) * m == (a * d * m) * (p * q)) by (nonlinear_arith);
    assert((c * p) * (b * q) * u == (c * b * u) * (p * q)) by (nonlinear_arith);
    assert((a * d * m) * (p * q) <= (c * b * u) * (p * q)) by (nonlinear_arith)
        requires
            a * d * m <= c * b * u,
    ;
}

/// Two near fractions stay near when both are multiplied by a third.
pub proof fn near_scales(x: (nat, nat), y: (nat, nat), by: (nat, nat), k: nat)
    requires
        near(x, y, k),
    ensures
        near((x.0 * by.0, x.1 * by.1), (y.0 * by.0, y.1 * by.1), k),
{
    at_most_scales(x, y, by, k);
    at_most_scales(y, x, by, k);
}

/// The inverses of two near fractions are near.
pub proof fn near_inverts(x: (nat, nat), y: (nat, nat), k: nat)
    requires
        near(x, y, k),
    ensures
        near((x.1, x.0), (y.1, y.0), k),
{
    assert(x.0 * y.1 == y.1 * x.0) by (nonlinear_arith);
    assert(y.0 * x.1 == x.1 * y.0) by (nonlinear_arith);
}

/// The nearest integer is at most half a unit off.
proof fn half_even_is_near(n: nat, d: nat)
    requires
        d > 0,
        n >= d * SIGNIFICAND_MIN,
    ensures
        near((half_even(n, d), 1), (n, d), 1),
        half_even(n, d) > 0,
{
    let q = n / d;
    let r = n % d;
    vstd::arithmetic::div_mod::lemma_fundamental_div_mod(n as int, d as int);
    let p = half_even(n, d);
    assert(q >= 0x80_0000) by (nonlinear_arith)
        requires
            n == d * q + r,
            r < d,
            n >= d * 0x80_0000,
    ;
    assert(p == q ==> p * d == d * q) by (nonlinear_arith);
    assert(p == q + 1 ==> p * d == d * q + d) by (nonlinear_arith);
    let pd = p * d;
    assert(2 * pd <= 2 * n + d && 2 * n <= 2 * pd + d);
    assert(n * 1 == n);
    assert(pd * 1_000_000 <= n * 1_000_001);
    assert(n * 1_000_000 <= pd * 1_000_001);
}

/// A fraction hardly changes when it is rounded.
pub proof fn rounding_is_near(n: nat, d: nat)
    requires
        n > 0,
        d > 0,
    ensures
        near(rounded_small(n, d), (n, d), 1),
        rounded_small(n, d).0 > 0,
        rounded_small(n, d).1 > 0,
    decreases d * SIGNIFICAND_END - n,
{
    if n >= d * SIGNIFICAND_MIN {
        half_even_is_near(n, d);
    } else {
        rounding_is_near(2 * n, d);
        let (num, den) = rounded_small(2 * n, d);
        assert((2 * n) * den == n * (2 * den)) by (nonlinear_arith);
    }
}

proof fn rounding_large_is_near(n: nat, d: nat)
    requires
        d > 0,
        n >= d * SIGNIFICAND_MIN,
    ensures
        near((rounded_large(n, d), 1), (n, d), 1),
        rounded_large(n, d) > 0,
    decreases n - d,
{
    if n < d * SIGNIFICAND_END {
        half_even_is_near(n, d);
    } else {
        rounding_large_is_near(n, 2 * d);
        let r = rounded_large(n, 2 * d);
        assert(r * (2 * d) == (2 * r) * d) by (nonlinear_arith);
    }
}

/// An integer hardly changes when it is rounded.
pub proof fn rounding_integer_is_near(n: nat)
    requires
        n > 0,
    ensures
        near((rounded_integer(n), 1), (n, 1), 1),
        rounded_integer(n) > 0,
{
    if n >= SIGNIFICAND_END {
        rounding_large_is_near(n, 1);
    } else {
        assert(n * 1 == n);
        assert(n * 1_000_000 <= n * 1_000_001);
    }
}

/// A fraction that is an integer rounds to that integer.
pub proof fn half_up_of_integer(n: nat, d: nat)
    requires
        d > 0,
    ensures
        half_up(n * d, d) == n,
{
    assert((2 * (n * d) + d) / (2 * d) == n) by (nonlinear_arith)
        requires
            d > 0,
    ;
}

proof fn half_even_is_nearest(n: nat, d: nat)
    requires
        d > 0,
    ensures
        2 * (half_even(n, d) * d) <= 2 * n + d,
        2 * n <= 2 * (half_even(n, d) * d) + d,
        2 * (half_even(n, d) * d) == 2 * n + d || 2 * n == 2 * (half_even(n, d) * d) + d
            ==> half_even(n, d) % 2 == 0,
{
    let q = n / d;
    let r = n % d;
    vstd::arithmetic::div_mod::lemma_fundamental_div_mod(n as int, d as int);
    assert(n == q * d + r) by (nonlinear_arith)
        requires
            n == d * q + r,
    ;
    assert((q + 1) * d == q * d + d) by (nonlinear_arith);
}

proof fn small_is_rounded_to_24_bits(n: nat, d: nat) -> (e: nat)
    requires
        n > 0,
        d > 0,
        n < d * SIGNIFICAND_END,
    ensures
        ({
            let (q, b) = rounded_small(n, d);
            &&& b == vstd::arithmetic::power2::pow2(e)
            &&& n >= d * SIGNIFICAND_MIN ==> e == 0
            &&& d * SIGNIFICAND_MIN <= n * b < d * SIGNIFICAND_END
            &&& 2 * (q * d) <= 2 * (n * b) + d
            &&& 2 * (n * b) <= 2 * (q * d) + d
            &&& 2 * (q * d) == 2 * (n * b) + d || 2 * (n * b) == 2 * (q * d) + d ==> q % 2 == 0
        }),
    decreases d * SIGNIFICAND_END - n,
{
    if n >= d * SIGNIFICAND_MIN {
        vstd::arithmetic::power2::lemma2_to64();
        half_even_is_nearest(n, d);
        assert(n * 1 == n);
        0
    } else {
        let e = small_is_rounded_to_24_bits(2 * n, d) + 1;
        let (q, b) = rounded_small(2 * n, d);
        vstd::arithmetic::power2::lemma_pow2_unfold(e);
        assert(n * (2 * b) == (2 * n) * b) by (nonlinear_arith);
        e
    }
}

proof fn large_is_rounded_to_24_bits(n: nat, d: nat) -> (e: nat)
    requires
        d > 0,
        n >= d * SIGNIFICAND_MIN,
    ensures
        ({
            let step = d * vstd::arithmetic::power2::pow2(e);
            let out = rounded_large(n, d);
            let q = half_even(n, step as nat);
            &&& out == vstd::arithmetic::power2::pow2(e) * q
            &&& step * SIGNIFICAND_MIN <= n < step * SIGNIFICAND_END
        }),
    decreases n - d,
{
    vstd::arithmetic::power2::lemma2_to64();
    if n < d * SIGNIFICAND_END {
        assert(d * 1 == d);
        0
    } else {
        let e = large_is_rounded_to_24_bits(n, 2 * d) + 1;
        vstd::arithmetic::power2::lemma_pow2_unfold(e);
        let p = vstd::arithmetic::power2::pow2((e - 1) as nat);
        assert((2 * d) * p == d * (2 * p)) by (nonlinear_arith);
        let q = half_even(n, ((2 * d) * p) as nat);
        assert(2 * (p * q) == (2 * p) * q) by (nonlinear_arith);
        e
    }
}

/// A fraction is rounded to the nearest one whose numerator has 24 bits and whose
/// denominator is a power of two, and on a tie to that with the even numerator.
pub proof fn fraction_is_rounded_to_24_bits(n: u128, d: u128, out: (u128, u128)) -> (e: nat)
    requires
        call_ensures(round_fraction, (n, d), out),
        0 < n < d * 0x100_0000,
        0 < d <= 0x200_0000_0000_0000,
    ensures
        out.1 == vstd::arithmetic::power2::pow2(e),
        n >= d * 0x80_0000 ==> out.1 == 1,
        d * 0x80_0000 <= n * out.1 < d * 0x100_0000,
        2 * (out.0 * d) <= 2 * (n * out.1) + d,
        2 * (n * out.1) <= 2 * (out.0 * d) + d,
        2 * (out.0 * d) == 2 * (n * out.1) + d || 2 * (n * out.1) == 2 * (out.0 * d) + d
            ==> out.0 % 2 == 0,
{
    vstd::arithmetic::power2::lemma2_to64();
    small_is_rounded_to_24_bits(n as nat, d as nat)
}

/// An integer of up to 24 bits stays; a longer one is rounded to the nearest multiple
/// of the power of two that leaves 24 bits, and on a tie to the even one.
pub proof fn integer_is_rounded_to_24_bits(n: u32, out: u64) -> (bits: (nat, nat))
    requires
        call_ensures(round_integer, (n,), out),
    ensures
        n < 0x100_0000 ==> out == n,
        n >= 0x100_0000 ==> ({
            let (e, q) = bits;
            let step = vstd::arithmetic::power2::pow2(e);
            &&& out == step * q
            &&& step * 0x80_0000 <= n < step * 0x100_0000
            &&& 2 * out <= 2 * n + step
            &&& 2 * n <= 2 * out + step
            &&& 2 * out == 2 * n + step || 2 * n == 2 * out + step ==> q % 2 == 0
        }),
{
    if n < 0x100_0000 {
        (0, 0)
    } else {
        let e = large_is_rounded_to_24_bits(n as nat, 1);
        let step = vstd::arithmetic::power2::pow2(e);
        vstd::arithmetic::power2::lemma_pow2_pos(e);
        assert(1 * step == step);
        let q = half_even(n as nat, step);
        half_even_is_nearest(n as nat, step);
        assert(step * q == q * step) by (nonlinear_arith);
        (e, q)
    }
}

} // verus!
