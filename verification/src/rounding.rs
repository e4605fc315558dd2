//! Rounding a ratio of natural numbers to a double-precision magnitude.
//!
//! Magnitudes are counted in units of `2^-1074`, the least positive
//! double-precision number, so that every finite magnitude is a natural
//! number: a significand below `2^53` times a power of two. A ratio goes to
//! the nearest such number, and to the one with the even significand where
//! two are equally near.

use vstd::prelude::*;
use vstd::arithmetic::div_mod::{
    lemma_div_multiples_vanish_quotient, lemma_fundamental_div_mod,
    lemma_fundamental_div_mod_converse, lemma_truncate_middle,
};
use vstd::arithmetic::mul::{lemma_mul_is_commutative, lemma_mul_strictly_positive};
use vstd::arithmetic::power2::{
    lemma2_to64, lemma2_to64_rest, lemma_pow2_adds, lemma_pow2_pos, lemma_pow2_strictly_increases,
    lemma_pow2_unfold, pow2,
};

verus! {

/// The integer nearest to `a / b`, the even one of two that are equally
/// near.
pub open spec fn nearest_even(a: nat, b: nat) -> nat
    recommends
        b > 0,
{
    let q = a / b;
    let r = a % b;
    if 2 * r < b || (2 * r == b && q % 2 == 0) {
        q
    } else {
        q + 1
    }
}

/// The number of low bits that a natural number has beyond fifty-three.
pub open spec fn excess_bits(n: nat) -> nat
    decreases n,
{
    if n < 0x20_0000_0000_0000 {
        0
    } else {
        1 + excess_bits(n / 2)
    }
}

/// The step between the magnitudes around `a / b`: the power of two that
/// leaves fifty-three bits of the ratio before it.
pub open spec fn step(a: nat, b: nat) -> nat
    recommends
        b > 0,
{
    pow2(excess_bits(a / b))
}

/// The magnitude nearest to `a / b`: the ratio is rounded to a multiple of
/// the step.
pub open spec fn rounded(a: nat, b: nat) -> nat
    recommends
        b > 0,
{
    nearest_even(a, b * step(a, b)) * step(a, b)
}

/// The bits of a magnitude: exponent field and fraction, without the sign.
/// From `2^2098` units on, the magnitude is beyond the finite numbers and
/// the bits are those of infinity.
pub open spec fn magnitude_bits(units: nat) -> nat {
    let j = excess_bits(units);
    if j * 0x10_0000_0000_0000 + units / pow2(j) >= 0x7FF0_0000_0000_0000 {
        0x7FF0_0000_0000_0000
    } else {
        j * 0x10_0000_0000_0000 + units / pow2(j)
    }
}

/// A common factor of numerator and denominator does not change the nearest
/// integer.
pub proof fn lemma_nearest_even_scales(a: nat, b: nat, k: nat)
    requires
        b > 0,
        k > 0,
    ensures
        nearest_even(a * k, b * k) == nearest_even(a, b),
{
    lemma_div_multiples_vanish_quotient(k as int, a as int, b as int);
    lemma_truncate_middle(a as int, k as int, b as int);
    lemma_mul_is_commutative(a as int, k as int);
    lemma_mul_is_commutative(b as int, k as int);
    let r = a % b;
    assert((a * k) % (b * k) == k * r);
    assert(2 * (k * r) < b * k <==> 2 * r < b) by (nonlinear_arith)
        requires
            k > 0,
    ;
    assert(2 * (k * r) == b * k <==> 2 * r == b) by (nonlinear_arith)
        requires
            k > 0,
    ;
}

/// A number between `2^(52+j)` and `2^(53+j)` has `j` bits in excess; one
/// below `2^53` has none.
pub proof fn lemma_excess_bits(n: nat, j: nat)
    requires
        n < pow2(53 + j),
        j > 0 ==> pow2(52 + j) <= n,
    ensures
        excess_bits(n) == j,
    decreases j,
{
    lemma2_to64_rest();
    if j > 0 {
        lemma_pow2_unfold(53 + j);
        lemma_pow2_unfold(52 + j);
        if j > 1 {
            lemma_pow2_unfold((52 + j - 1) as nat);
            lemma_pow2_pos((52 + j - 2) as nat);
        }
        assert(n >= 0x20_0000_0000_0000) by {
            if j > 1 {
                lemma_pow2_strictly_increases(53, 52 + j);
            }
        }
        lemma_excess_bits(n / 2, (j - 1) as nat);
    }
}

/// A common factor of numerator and denominator does not change the
/// rounded ratio.
pub proof fn lemma_rounded_scales(a: nat, b: nat, k: nat)
    requires
        b > 0,
        k > 0,
    ensures
        rounded(a * k, b * k) == rounded(a, b),
{
    lemma_div_multiples_vanish_quotient(k as int, a as int, b as int);
    lemma_mul_is_commutative(a as int, k as int);
    lemma_mul_is_commutative(b as int, k as int);
    let j = excess_bits(a / b);
    lemma_pow2_pos(j);
    lemma_mul_strictly_positive(b as int, pow2(j) as int);
    lemma_nearest_even_scales(a, b * pow2(j), k);
    assert((b * pow2(j)) * k == (b * k) * pow2(j)) by (nonlinear_arith);
}

/// Where the ratio lies between `2^(52+j)` and `2^(53+j)`, or below `2^53`
/// for `j == 0`, it is rounded to a multiple of `2^j`.
pub proof fn lemma_rounded_at(a: nat, b: nat, j: nat)
    requires
        b > 0,
        a < pow2(53 + j) * b,
        j > 0 ==> pow2(52 + j) * b <= a,
    ensures
        rounded(a, b) == nearest_even(a, b * pow2(j)) * pow2(j),
{
    lemma_fundamental_div_mod(a as int, b as int);
    let q = a / b;
    let r = a % b;
    assert(q < pow2(53 + j)) by (nonlinear_arith)
        requires
            a == b * q + r,
            0 <= r,
            b > 0,
            a < pow2(53 + j) * b,
    ;
    if j > 0 {
        assert(q >= pow2(52 + j)) by (nonlinear_arith)
            requires
                a == b * q + r,
                r < b,
                b > 0,
                pow2(52 + j) * b <= a,
        ;
    }
    lemma_excess_bits(q, j);
}

/// The bits of a magnitude that is a significand of at most fifty-four bits
/// times a power of two: the exponent goes into the field above the
/// fraction, and a significand of `2^53` carries into it.
pub proof fn lemma_magnitude_bits(k: nat, j: nat)
    requires
        k <= 0x20_0000_0000_0000,
        j > 0 ==> k >= 0x10_0000_0000_0000,
    ensures
        magnitude_bits(k * pow2(j)) == if j * 0x10_0000_0000_0000 + k >= 0x7FF0_0000_0000_0000 {
            0x7FF0_0000_0000_0000nat
        } else {
            j * 0x10_0000_0000_0000 + k
        },
{
    lemma2_to64();
    lemma2_to64_rest();
    let n = k * pow2(j);
    lemma_pow2_pos(j);
    if k < 0x20_0000_0000_0000 {
        lemma_pow2_adds(53, j);
        lemma_pow2_adds(52, j);
        assert(n < pow2(53 + j)) by (nonlinear_arith)
            requires
                n == k * pow2(j),
                k < 0x20_0000_0000_0000,
                pow2(j) > 0,
                pow2(53 + j) == 0x20_0000_0000_0000 * pow2(j),
        ;
        if j > 0 {
            assert(pow2(52 + j) <= n) by (nonlinear_arith)
                requires
                    n == k * pow2(j),
                    k >= 0x10_0000_0000_0000,
                    pow2(j) > 0,
                    pow2(52 + j) == 0x10_0000_0000_0000 * pow2(j),
            ;
        }
        lemma_excess_bits(n, j);
        lemma_fundamental_div_mod_converse(n as int, pow2(j) as int, k as int, 0);
    } else {
        lemma_pow2_adds(53, j);
        lemma_pow2_unfold(53 + j + 1);
        lemma_pow2_unfold(j + 1);
        assert(n == pow2(53 + j));
        assert(52 + (j + 1) == 53 + j);
        lemma_excess_bits(n, j + 1);
        assert(n == 0x10_0000_0000_0000 * pow2(j + 1)) by (nonlinear_arith)
            requires
                n == 0x20_0000_0000_0000 * pow2(j),
                pow2(j + 1) == 2 * pow2(j),
        ;
        lemma_pow2_pos(j + 1);
        lemma_fundamental_div_mod_converse(
            n as int,
            pow2(j + 1) as int,
            0x10_0000_0000_0000,
            0,
        );
    }
}

/// A number with `j` bits in excess lies between `2^(52+j)` and
/// `2^(53+j)`; one with none lies below `2^53`.
pub proof fn lemma_excess_bits_bounds(n: nat)
    ensures
        n < pow2(53 + excess_bits(n)),
        excess_bits(n) > 0 ==> pow2(52 + excess_bits(n)) <= n,
    decreases n,
{
    lemma2_to64_rest();
    if n >= 0x20_0000_0000_0000 {
        let j = excess_bits(n / 2);
        lemma_excess_bits_bounds(n / 2);
        lemma_pow2_unfold(53 + j + 1);
        lemma_pow2_unfold(52 + j + 1);
        assert(53 + (1 + j) == 53 + j + 1);
        assert(52 + (1 + j) == 52 + j + 1);
    }
}

/// How far the magnitude `v` is from the ratio `a / b`, times `b`.
pub open spec fn gap(a: nat, b: nat, v: nat) -> nat {
    if v * b >= a {
        (v * b - a) as nat
    } else {
        (a - v * b) as nat
    }
}

/// No integer is nearer to a ratio than the one that `nearest_even` picks.
pub proof fn lemma_nearest_even_is_nearest(a: nat, c: nat, t: nat)
    requires
        c > 0,
    ensures
        gap(a, c, nearest_even(a, c)) <= gap(a, c, t),
{
    lemma_fundamental_div_mod(a as int, c as int);
    let q = a / c;
    let r = a % c;
    let n = nearest_even(a, c);
    assert(n * c - a == if n == q {
        -(r as int)
    } else {
        c - r
    }) by (nonlinear_arith)
        requires
            a == c * q + r,
            n == q || n == q + 1,
    ;
    if t <= q {
        assert(a - t * c >= r) by (nonlinear_arith)
            requires
                a == c * q + r,
                t <= q,
                c > 0,
        ;
    } else {
        assert(t * c - a >= c - r) by (nonlinear_arith)
            requires
                a == c * q + r,
                t >= q + 1,
                c > 0,
        ;
    }
}

/// The rounded ratio is a significand of at most `2^53` times the power of
/// two that the excess of the ratio gives.
pub proof fn lemma_rounded_significand(a: nat, b: nat)
    requires
        b > 0,
    ensures
        nearest_even(a, b * pow2(excess_bits(a / b))) <= 0x20_0000_0000_0000,
        excess_bits(a / b) > 0 ==> nearest_even(a, b * pow2(excess_bits(a / b)))
            >= 0x10_0000_0000_0000,
{
    lemma2_to64_rest();
    let j = excess_bits(a / b);
    let c = b * pow2(j);
    lemma_pow2_pos(j);
    lemma_mul_strictly_positive(b as int, pow2(j) as int);
    lemma_excess_bits_bounds(a / b);
    lemma_pow2_adds(53, j);
    lemma_pow2_adds(52, j);
    lemma_fundamental_div_mod(a as int, b as int);
    lemma_fundamental_div_mod(a as int, c as int);
    let f = a / b;
    let q = a / c;
    assert(q < 0x20_0000_0000_0000) by (nonlinear_arith)
        requires
            a == b * f + a % b,
            a % b < b,
            a == c * q + a % c,
            0 <= a % c,
            c == b * pow2(j),
            f < 0x20_0000_0000_0000 * pow2(j),
            b > 0,
            pow2(j) > 0,
    ;
    if j > 0 {
        assert(q >= 0x10_0000_0000_0000) by (nonlinear_arith)
            requires
                a == b * f + a % b,
                0 <= a % b,
                a == c * q + a % c,
                a % c < c,
                c == b * pow2(j),
                f >= 0x10_0000_0000_0000 * pow2(j),
                b > 0,
                pow2(j) > 0,
        ;
    }
}

/// A magnitude that double precision can hold, the bound of the finite
/// numbers apart: a significand below `2^53` times a power of two.
pub open spec fn representable(v: nat) -> bool {
    exists|m: nat, j: nat| m < 0x20_0000_0000_0000 && v == #[trigger] (m * pow2(j))
}

/// The rounded ratio is a magnitude that double precision can hold.
pub proof fn law_rounded_is_representable(a: nat, b: nat)
    requires
        b > 0,
    ensures
        representable(rounded(a, b)),
{
    let j = excess_bits(a / b);
    let n = nearest_even(a, b * pow2(j));
    lemma_rounded_significand(a, b);
    if n < 0x20_0000_0000_0000 {
        assert(rounded(a, b) == n * pow2(j));
    } else {
        lemma_pow2_unfold(j + 1);
        assert(n * pow2(j) == 0x10_0000_0000_0000 * pow2(j + 1)) by (nonlinear_arith)
            requires
                n == 0x20_0000_0000_0000,
                pow2(j + 1) == 2 * pow2(j),
        ;
        assert(rounded(a, b) == 0x10_0000_0000_0000nat * pow2(j + 1));
    }
}

/// No magnitude that double precision can hold is nearer to the ratio than
/// the rounded one.
pub proof fn law_rounded_is_nearest(a: nat, b: nat, m: nat, i: nat)
    requires
        b > 0,
        m < 0x20_0000_0000_0000,
    ensures
        gap(a, b, rounded(a, b)) <= gap(a, b, m * pow2(i)),
{
    lemma2_to64_rest();
    let j = excess_bits(a / b);
    let c = b * pow2(j);
    let n = nearest_even(a, c);
    let v = m * pow2(i);
    lemma_pow2_pos(j);
    lemma_pow2_pos(i);
    lemma_mul_strictly_positive(b as int, pow2(j) as int);
    assert((n * pow2(j)) * b == n * c) by (nonlinear_arith)
        requires
            c == b * pow2(j),
    ;
    assert(gap(a, b, rounded(a, b)) == gap(a, c, n));
    if i >= j {
        let t = m * pow2((i - j) as nat);
        lemma_pow2_adds((i - j) as nat, j);
        assert(v * b == t * c) by (nonlinear_arith)
            requires
                v == m * pow2(i),
                t == m * pow2((i - j) as nat),
                pow2(i) == pow2((i - j) as nat) * pow2(j),
                c == b * pow2(j),
        ;
        lemma_nearest_even_is_nearest(a, c, t);
    } else {
        let w = 0x10_0000_0000_0000nat * pow2(j);
        lemma_excess_bits_bounds(a / b);
        lemma_pow2_adds(52, j);
        lemma_pow2_adds(53, i);
        if 53 + i < 52 + j {
            lemma_pow2_strictly_increases(53 + i, 52 + j);
        }
        lemma_fundamental_div_mod(a as int, b as int);
        assert(v * b <= w * b && w * b <= a) by (nonlinear_arith)
            requires
                v == m * pow2(i),
                m < 0x20_0000_0000_0000,
                pow2(i) > 0,
                pow2(53 + i) == 0x20_0000_0000_0000 * pow2(i),
                pow2(53 + i) <= pow2(52 + j),
                w == pow2(52 + j),
                w <= a / b,
                a == b * (a / b) + a % b,
                0 <= a % b,
                b > 0,
        ;
        assert(w * b == 0x10_0000_0000_0000 * c) by (nonlinear_arith)
            requires
                w == 0x10_0000_0000_0000nat * pow2(j),
                c == b * pow2(j),
        ;
        lemma_nearest_even_is_nearest(a, c, 0x10_0000_0000_0000);
    }
}

/// Where the ratio lies midway between two multiples of the step, the
/// rounded one is the even multiple.
pub proof fn law_ties_go_to_even(a: nat, b: nat)
    requires
        b > 0,
        2 * (a % (b * step(a, b))) == b * step(a, b),
    ensures
        (rounded(a, b) / step(a, b)) % 2 == 0,
{
    let c = b * step(a, b);
    let q = a / c;
    let n = nearest_even(a, c);
    lemma_pow2_pos(excess_bits(a / b));
    assert(n % 2 == 0) by {
        if q % 2 != 0 {
            assert(n == q + 1);
            assert((q + 1) % 2 == 0) by (nonlinear_arith)
                requires
                    q % 2 != 0,
            ;
        }
    }
    lemma_fundamental_div_mod_converse(rounded(a, b) as int, step(a, b) as int, n as int, 0);
}

} // verus!
