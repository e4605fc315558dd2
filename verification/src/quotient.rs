//! Double-precision numbers from integers, and their quotients.
//!
//! Both are computed on the bit patterns, in integer arithmetic, and give
//! the bits that round-to-nearest, ties-to-even arithmetic gives.

use vstd::prelude::*;
use vstd::arithmetic::div_mod::{lemma_fundamental_div_mod, lemma_fundamental_div_mod_converse};
use vstd::arithmetic::power2::{
    lemma2_to64, lemma2_to64_rest, lemma_pow2_adds, lemma_pow2_pos, lemma_pow2_strictly_increases,
    lemma_pow2_unfold, pow2,
};
use crate::double::Double;
use crate::error::ErrorKind;
use crate::rounding::{
    excess_bits, lemma_excess_bits_bounds, lemma_magnitude_bits, lemma_nearest_even_scales,
    lemma_rounded_at, lemma_rounded_scales, lemma_rounded_significand, magnitude_bits,
    nearest_even, rounded, step,
};

verus! {

/// Computes the integer nearest to `a / b`, the even one of two that are
/// equally near.
fn nearest(a: u128, b: u128) -> (n: u128)
    requires
        0 < b <= 0x4000_0000_0000_0000_0000_0000_0000_0000,
        a < 0x8000_0000_0000_0000_0000_0000_0000_0000,
    ensures
        n == nearest_even(a as nat, b as nat),
        n <= a / b + 1,
        n >= a / b,
{
    let q: u128 = a / b;
    let r: u128 = a % b;
    if 2 * r < b || (2 * r == b && q % 2 == 0) {
        q
    } else {
        q + 1
    }
}

/// Computes a power of two.
fn power_of_two(e: u32) -> (p: u128)
    requires
        e <= 120,
    ensures
        p == pow2(e as nat),
        p > 0,
{
    let mut p: u128 = 1;
    let mut i: u32 = 0;
    proof {
        lemma2_to64();
    }
    while i < e
        invariant
            i <= e <= 120,
            p == pow2(i as nat),
            p > 0,
        decreases e - i,
    {
        proof {
            lemma_pow2_unfold((i + 1) as nat);
            if i + 1 < 120 {
                lemma_pow2_strictly_increases((i + 1) as nat, 120);
            }
            lemma_pow2_120();
        }
        p = p * 2;
        i = i + 1;
    }
    p
}

proof fn lemma_pow2_120()
    ensures
        pow2(120) == 0x100_0000_0000_0000_0000_0000_0000_0000,
{
    lemma2_to64_rest();
    lemma_pow2_adds(60, 60);
}

/// Shifts a positive number left until its highest bit is set, and tells by
/// how many places.
fn normalize(v: u64) -> (r: (u64, u32))
    requires
        v > 0,
    ensures
        r.0 == v * pow2(r.1 as nat),
        r.0 >= 0x8000_0000_0000_0000,
        r.1 <= 63,
{
    let mut m: u64 = v;
    let mut z: u32 = 0;
    proof {
        lemma2_to64();
    }
    while m < 0x8000_0000_0000_0000
        invariant
            m == v * pow2(z as nat),
            v > 0,
            m > 0,
            z <= 63,
        decreases 63 - z,
    {
        proof {
            lemma_pow2_unfold((z + 1) as nat);
            assert(v * pow2((z + 1) as nat) == 2 * (v * pow2(z as nat))) by (nonlinear_arith)
                requires
                    pow2((z + 1) as nat) == 2 * pow2(z as nat),
            ;
            if z == 63 {
                lemma2_to64_rest();
                assert(v * pow2(63) >= 0x8000_0000_0000_0000) by (nonlinear_arith)
                    requires
                        v >= 1,
                        pow2(63) == 0x8000_0000_0000_0000,
                ;
            }
        }
        m = m * 2;
        z = z + 1;
    }
    (m, z)
}

/// The magnitude nearest to `mx / my * 2^s`, in units.
pub open spec fn rounded_ratio(mx: nat, my: nat, s: int) -> nat {
    if s >= 0 {
        rounded(mx * pow2(s as nat), my)
    } else {
        rounded(mx, my * pow2((-s) as nat))
    }
}

/// Rounds the ratio of two normalized numbers, scaled by a power of two, to
/// a magnitude, and gives its bits.
fn round_ratio(mx: u64, my: u64, s: i64) -> (bits: u64)
    requires
        mx >= 0x8000_0000_0000_0000,
        my >= 0x8000_0000_0000_0000,
        -4096 <= s <= 4096,
    ensures
        bits == magnitude_bits(rounded_ratio(mx as nat, my as nat, s as int)),
        bits <= 0x7FF0_0000_0000_0000,
        s < 2000 ==> bits < 0x7FF0_0000_0000_0000,
{
    proof {
        lemma2_to64();
        lemma2_to64_rest();
    }
    let p: i64 = if mx >= my {
        52
    } else {
        53
    };
    if s >= p {
        let j: i64 = s - p;
        let factor: u128 = if mx >= my {
            0x10_0000_0000_0000
        } else {
            0x20_0000_0000_0000
        };
        let top: u128 = (mx as u128) * factor;
        let k: u128 = nearest(top, my as u128);
        proof {
            let jn = j as nat;
            let a = mx as nat * pow2(s as nat);
            lemma_pow2_adds(p as nat, jn);
            lemma_pow2_adds(52, jn);
            lemma_pow2_adds(53, jn);
            lemma_pow2_pos(jn);
            assert(factor == pow2(p as nat));
            assert(a == top * pow2(jn)) by (nonlinear_arith)
                requires
                    a == mx as nat * pow2(s as nat),
                    pow2(s as nat) == factor * pow2(jn),
                    top == mx * factor,
            ;
            assert(a < pow2(53 + jn) * my && pow2(52 + jn) * my <= a) by (nonlinear_arith)
                requires
                    a == top * pow2(jn),
                    pow2(jn) > 0,
                    pow2(53 + jn) == 0x20_0000_0000_0000 * pow2(jn),
                    pow2(52 + jn) == 0x10_0000_0000_0000 * pow2(jn),
                    top < 0x20_0000_0000_0000 * my,
                    0x10_0000_0000_0000 * my <= top,
            ;
            lemma_rounded_at(a, my as nat, jn);
            lemma_nearest_even_scales(top as nat, my as nat, pow2(jn));
            assert(top / (my as u128) >= 0x10_0000_0000_0000 && top / (my as u128)
                < 0x20_0000_0000_0000) by (nonlinear_arith)
                requires
                    top < 0x20_0000_0000_0000 * my,
                    0x10_0000_0000_0000 * my <= top,
                    my > 0,
            ;
            lemma_magnitude_bits(k as nat, jn);
        }
        if j >= 2046 {
            return 0x7FF0_0000_0000_0000;
        }
        let bits: u64 = (j as u64) * 0x10_0000_0000_0000 + (k as u64);
        if bits >= 0x7FF0_0000_0000_0000 {
            0x7FF0_0000_0000_0000
        } else {
            bits
        }
    } else if s >= 0 {
        let scale: u128 = power_of_two(s as u32);
        proof {
            if s < 52 {
                lemma_pow2_strictly_increases(s as nat, 52);
            }
            assert(mx * scale < 0x20_0000_0000_0000 * my) by (nonlinear_arith)
                requires
                    scale <= 0x10_0000_0000_0000,
                    scale < 0x10_0000_0000_0000 || mx < my,
                    0x8000_0000_0000_0000 <= mx < 0x1_0000_0000_0000_0000,
                    0x8000_0000_0000_0000 <= my < 0x1_0000_0000_0000_0000,
            ;
        }
        let top: u128 = (mx as u128) * scale;
        let k: u128 = nearest(top, my as u128);
        proof {
            lemma_rounded_at(top as nat, my as nat, 0);
            assert(top / (my as u128) < 0x20_0000_0000_0000) by (nonlinear_arith)
                requires
                    top < 0x20_0000_0000_0000 * my,
                    my > 0,
            ;
            lemma_magnitude_bits(k as nat, 0);
        }
        k as u64
    } else if s >= -2 {
        let scale: u128 = power_of_two((-s) as u32);
        assert(scale == 2 || scale == 4);
        let bottom: u128 = (my as u128) * scale;
        let k: u128 = nearest(mx as u128, bottom);
        proof {
            assert(mx < pow2(53) * bottom) by (nonlinear_arith)
                requires
                    mx < bottom,
                    pow2(53) == 0x20_0000_0000_0000,
            ;
            lemma_rounded_at(mx as nat, bottom as nat, 0);
            assert((mx as u128) / bottom == 0) by (nonlinear_arith)
                requires
                    mx < bottom,
            ;
            lemma_magnitude_bits(k as nat, 0);
        }
        k as u64
    } else {
        proof {
            let n = (-s) as nat;
            if n > 3 {
                lemma_pow2_strictly_increases(3, n);
            }
            let bottom = my as nat * pow2(n);
            assert(bottom > 2 * mx) by (nonlinear_arith)
                requires
                    bottom == my as nat * pow2(n),
                    pow2(n) >= 8,
                    mx < 0x1_0000_0000_0000_0000,
                    my >= 0x8000_0000_0000_0000,
            ;
            assert(mx < pow2(53) * bottom) by (nonlinear_arith)
                requires
                    mx < bottom,
                    pow2(53) == 0x20_0000_0000_0000,
            ;
            lemma_rounded_at(mx as nat, bottom, 0);
            lemma_fundamental_div_mod_converse(
                mx as int,
                bottom as int,
                0,
                mx as int,
            );
            assert(nearest_even(mx as nat, bottom) == 0);
            lemma_magnitude_bits(0, 0);
        }
        0
    }
}

/// The ratio of two numbers that are given by parts, each an integer times
/// a power of two, is the ratio of the integers, shifted by `zx` and `zy`
/// places, scaled by the power of two that is left.
proof fn lemma_ratio_of_parts(sx: nat, ex: nat, sy: nat, ey: nat, zx: nat, zy: nat)
    requires
        sy > 0,
    ensures
        rounded(sx * pow2(ex), sy * pow2(ey)) == rounded_ratio(
            sx * pow2(zx),
            sy * pow2(zy),
            ex + zy - ey - zx,
        ),
{
    let a = sx * pow2(ex);
    let b = sy * pow2(ey);
    let mx = sx * pow2(zx);
    let my = sy * pow2(zy);
    let up = ex + zy;
    let down = ey + zx;
    let k = pow2(zx + zy);
    lemma_pow2_pos(ey);
    lemma_pow2_pos(zy);
    lemma_pow2_pos(zx + zy);
    lemma_pow2_pos(up);
    lemma_pow2_pos(down);
    lemma_pow2_adds(zx, zy);
    lemma_pow2_adds(ex, zy);
    lemma_pow2_adds(ey, zx);
    assert(b > 0) by (nonlinear_arith)
        requires
            b == sy * pow2(ey),
            sy > 0,
            pow2(ey) > 0,
    ;
    assert(my > 0) by (nonlinear_arith)
        requires
            my == sy * pow2(zy),
            sy > 0,
            pow2(zy) > 0,
    ;
    assert(a * k == mx * pow2(up)) by (nonlinear_arith)
        requires
            a == sx * pow2(ex),
            mx == sx * pow2(zx),
            k == pow2(zx) * pow2(zy),
            pow2(up) == pow2(ex) * pow2(zy),
    ;
    assert(b * k == my * pow2(down)) by (nonlinear_arith)
        requires
            b == sy * pow2(ey),
            my == sy * pow2(zy),
            k == pow2(zx) * pow2(zy),
            pow2(down) == pow2(ey) * pow2(zx),
    ;
    lemma_rounded_scales(a, b, k);
    if up >= down {
        let s = (up - down) as nat;
        lemma_pow2_adds(s, down);
        assert(mx * pow2(up) == (mx * pow2(s)) * pow2(down)) by (nonlinear_arith)
            requires
                pow2(up) == pow2(s) * pow2(down),
        ;
        lemma_rounded_scales(mx * pow2(s), my, pow2(down));
    } else {
        let s = (down - up) as nat;
        lemma_pow2_adds(s, up);
        lemma_pow2_pos(s);
        assert(my * pow2(down) == (my * pow2(s)) * pow2(up)) by (nonlinear_arith)
            requires
                pow2(down) == pow2(s) * pow2(up),
        ;
        assert(my * pow2(s) > 0) by (nonlinear_arith)
            requires
                my > 0,
                pow2(s) > 0,
        ;
        lemma_rounded_scales(mx, my * pow2(s), pow2(up));
    }
}

/// The bit that a sign sets.
pub open spec fn sign_bits(negative: bool) -> nat {
    if negative {
        0x8000_0000_0000_0000
    } else {
        0
    }
}

impl Double {
    /// The double-precision number nearest to an integer.
    pub open spec fn of_int(n: int) -> Double {
        let magnitude = if n < 0 {
            -n
        } else {
            n
        };
        Double {
            bits: (sign_bits(n < 0) + magnitude_bits(rounded(magnitude as nat * pow2(1074), 1)))
                as u64,
        }
    }

    /// Division is defined here for a dividend that is a number or an
    /// infinity and a divisor that is greater than zero, unless both are
    /// infinite.
    pub open spec fn divisible_by(self, by: Double) -> bool {
        !self.is_nan() && by.is_positive() && !(self.is_infinite() && by.is_infinite())
    }

    /// The quotient in double precision: the sign of the dividend, and the
    /// magnitude nearest to the ratio of the magnitudes. An infinite
    /// dividend stays as it is; an infinite divisor gives zero.
    pub open spec fn over(self, by: Double) -> Double {
        if self.is_infinite() {
            self
        } else if by.is_infinite() {
            Double { bits: sign_bits(self.sign_bit()) as u64 }
        } else {
            Double {
                bits: (sign_bits(self.sign_bit()) + magnitude_bits(
                    rounded(self.units() * pow2(1074), by.units()),
                )) as u64,
            }
        }
    }

    /// Splits the magnitude of a finite number into significand and power
    /// of two.
    fn parts(&self) -> (r: (u64, i64))
        requires
            self.is_finite(),
        ensures
            r.0 == self.significand(),
            r.1 == self.exponent() + 1074,
            r.0 < 0x20_0000_0000_0000,
            0 <= r.1 <= 2045,
    {
        let field: u64 = (self.bits / 0x10_0000_0000_0000) % 2048;
        let fraction: u64 = self.bits % 0x10_0000_0000_0000;
        if field == 0 {
            (fraction, 0)
        } else {
            (0x10_0000_0000_0000 + fraction, (field - 1) as i64)
        }
    }

    /// Converts an integer to the nearest double-precision number.
    pub fn from_i64(n: i64) -> (number: Double)
        ensures
            number == Double::of_int(n as int),
            number.is_finite(),
            n > 0 ==> number.is_positive(),
    {
        proof {
            law_number_of_integer(n as int);
            if n > 0 {
                lemma_pow2_pos(1074);
                assert(n as nat * pow2(1074) >= 1) by (nonlinear_arith)
                    requires
                        n >= 1,
                        pow2(1074) >= 1,
                ;
                lemma_rounded_is_positive(n as nat * pow2(1074), 1);
                let number = Double::of_int(n as int);
                assert(number.significand() > 0) by (nonlinear_arith)
                    requires
                        number.significand() * pow2((number.exponent() + 1074) as nat) > 0,
                ;
            }
        }
        if n == 0 {
            proof {
                assert(0nat * pow2(1074) == 0) by (nonlinear_arith);
                lemma_zero_rounds_to_zero(1);
            }
            return Double { bits: 0 };
        }
        let sign: u64 = if n < 0 {
            0x8000_0000_0000_0000
        } else {
            0
        };
        let magnitude: u64 = if n < 0 {
            if n == i64::MIN {
                0x8000_0000_0000_0000
            } else {
                (-n) as u64
            }
        } else {
            n as u64
        };
        let (m, z) = normalize(magnitude);
        proof {
            lemma2_to64();
            lemma2_to64_rest();
            lemma_ratio_of_parts(magnitude as nat, 1074, 1, 0, z as nat, 63);
        }
        let bits: u64 = round_ratio(m, 0x8000_0000_0000_0000, 1137 - z as i64);
        Double { bits: sign + bits }
    }

    /// Divides by a number greater than zero, in double precision.
    ///
    /// `InvalidInput` is returned for a divisor that is not greater than
    /// zero, for a dividend that is no number, and for two infinities.
    pub fn divide(self, by: Double) -> (quotient: Result<Double, ErrorKind>)
        ensures
            quotient == if self.divisible_by(by) {
                Ok::<Double, ErrorKind>(self.over(by))
            } else {
                Err::<Double, ErrorKind>(ErrorKind::InvalidInput)
            },
            quotient matches Ok(q) ==> !q.is_nan(),
    {
        let field: u64 = (self.bits / 0x10_0000_0000_0000) % 2048;
        let fraction: u64 = self.bits % 0x10_0000_0000_0000;
        let by_field: u64 = (by.bits / 0x10_0000_0000_0000) % 2048;
        if (field == 2047 && fraction != 0) || !by.exceeds_zero() {
            return Err(ErrorKind::InvalidInput);
        }
        if field == 2047 {
            return if by_field == 2047 {
                Err(ErrorKind::InvalidInput)
            } else {
                Ok(self)
            };
        }
        let sign: u64 = if self.bits >= 0x8000_0000_0000_0000 {
            0x8000_0000_0000_0000
        } else {
            0
        };
        if by_field == 2047 {
            return Ok(Double { bits: sign });
        }
        let (sx, jx) = self.parts();
        let (sy, jy) = by.parts();
        if sx == 0 {
            proof {
                lemma_pow2_pos(jy as nat);
                assert(by.units() > 0) by (nonlinear_arith)
                    requires
                        by.units() == sy as nat * pow2(jy as nat),
                        sy > 0,
                        pow2(jy as nat) > 0,
                ;
                assert(self.units() * pow2(1074) == 0) by (nonlinear_arith)
                    requires
                        self.units() == 0nat * pow2(jx as nat),
                ;
                lemma_zero_rounds_to_zero(by.units());
            }
            return Ok(Double { bits: sign });
        }
        let (mx, zx) = normalize(sx);
        let (my, zy) = normalize(sy);
        proof {
            lemma_pow2_adds(jx as nat, 1074);
            assert(self.units() * pow2(1074) == sx as nat * pow2((jx + 1074) as nat))
                by (nonlinear_arith)
                requires
                    self.units() == sx as nat * pow2(jx as nat),
                    pow2((jx + 1074) as nat) == pow2(jx as nat) * pow2(1074),
            ;
            lemma_ratio_of_parts(
                sx as nat,
                (jx + 1074) as nat,
                sy as nat,
                jy as nat,
                zx as nat,
                zy as nat,
            );
        }
        let s: i64 = jx + 1074 + zy as i64 - jy - zx as i64;
        let bits: u64 = round_ratio(mx, my, s);
        Ok(Double { bits: sign + bits })
    }
}

/// The number whose bits are a sign and the bits of a rounded ratio has
/// that sign; it is finite with the rounded ratio as its magnitude where
/// that lies below `2^2098` units, and infinite from there on.
proof fn lemma_number_of_rounded(negative: bool, a: nat, b: nat)
    requires
        b > 0,
    ensures
        ({
            let number = Double {
                bits: (sign_bits(negative) + magnitude_bits(rounded(a, b))) as u64,
            };
            &&& number.sign_bit() == negative
            &&& !number.is_nan()
            &&& rounded(a, b) < pow2(2098) ==> number.is_finite() && number.units() == rounded(a, b)
            &&& rounded(a, b) >= pow2(2098) ==> number.is_infinite()
        }),
{
    lemma2_to64();
    lemma2_to64_rest();
    let j = excess_bits(a / b);
    let n = nearest_even(a, b * pow2(j));
    let u = rounded(a, b);
    let raw = j * 0x10_0000_0000_0000 + n;
    lemma_rounded_significand(a, b);
    lemma_magnitude_bits(n, j);
    lemma_pow2_pos(j);
    assert(u == n * pow2(j));
    lemma_pow2_adds(52, j);
    lemma_pow2_adds(53, j);
    lemma_pow2_adds(52, 2046);
    lemma_pow2_adds(53, 2045);
    if raw >= 0x7FF0_0000_0000_0000 {
        assert(j >= 2045);
        if j == 2045 {
            assert(n == 0x20_0000_0000_0000);
        } else {
            if j > 2046 {
                lemma_pow2_strictly_increases(2046, j);
            }
            assert(u >= pow2(2098)) by (nonlinear_arith)
                requires
                    u == n * pow2(j),
                    n >= 0x10_0000_0000_0000,
                    pow2(j) >= pow2(2046),
                    pow2(2098) == 0x10_0000_0000_0000 * pow2(2046),
            ;
        }
    } else {
        assert(j <= 2046);
        if j < 2045 {
            lemma_pow2_strictly_increases(j, 2045);
        }
        assert(u < pow2(2098)) by (nonlinear_arith)
            requires
                u == n * pow2(j),
                pow2(j) > 0,
                j < 2045 ==> pow2(j) < pow2(2045),
                j < 2045 ==> n <= 0x20_0000_0000_0000,
                j == 2045 ==> n < 0x20_0000_0000_0000,
                j == 2046 ==> false,
                j <= 2046,
                pow2(2098) == 0x20_0000_0000_0000 * pow2(2045),
        ;
        let number = Double { bits: (sign_bits(negative) + raw) as u64 };
        if n < 0x10_0000_0000_0000 {
            assert(j == 0);
            assert(number.exponent_field() == 0);
            assert(number.fraction_field() == n);
        } else if n < 0x20_0000_0000_0000 {
            assert(number.exponent_field() == j + 1);
            assert(number.fraction_field() == n - 0x10_0000_0000_0000);
        } else {
            assert(number.exponent_field() == j + 2);
            assert(number.fraction_field() == 0);
            lemma_pow2_unfold(j + 1);
            assert(0x10_0000_0000_0000 * pow2(j + 1) == n * pow2(j)) by (nonlinear_arith)
                requires
                    n == 0x20_0000_0000_0000,
                    pow2(j + 1) == 2 * pow2(j),
            ;
        }
    }
}

/// A finite number over a finite number greater than zero has the sign of
/// the dividend. Its magnitude is the ratio of the magnitudes, rounded,
/// where that is below `2^1024`; else the quotient is infinite.
pub proof fn law_quotient_is_the_rounded_ratio(x: Double, by: Double)
    requires
        x.is_finite(),
        by.is_finite(),
        by.is_positive(),
    ensures
        x.over(by).sign_bit() == x.sign_bit(),
        !x.over(by).is_nan(),
        rounded(x.units() * pow2(1074), by.units()) < pow2(2098) ==> x.over(by).is_finite()
            && x.over(by).units() == rounded(x.units() * pow2(1074), by.units()),
        rounded(x.units() * pow2(1074), by.units()) >= pow2(2098) ==> x.over(by).is_infinite(),
{
    lemma_pow2_pos((by.exponent() + 1074) as nat);
    assert(by.units() > 0) by (nonlinear_arith)
        requires
            by.units() == by.significand() * pow2((by.exponent() + 1074) as nat),
            by.significand() > 0,
            pow2((by.exponent() + 1074) as nat) > 0,
    ;
    lemma_number_of_rounded(x.sign_bit(), x.units() * pow2(1074), by.units());
}

/// The number nearest to an integer is finite, has the sign of the integer,
/// and has the magnitude of the integer, rounded.
pub proof fn law_number_of_integer(n: int)
    requires
        i64::MIN <= n <= i64::MAX,
    ensures
        Double::of_int(n).is_finite(),
        Double::of_int(n).sign_bit() == (n < 0),
        Double::of_int(n).units() == rounded(
            (if n < 0 {
                -n
            } else {
                n
            }) as nat * pow2(1074),
            1,
        ),
{
    lemma2_to64_rest();
    let magnitude = (if n < 0 {
        -n
    } else {
        n
    }) as nat;
    let a = magnitude * pow2(1074);
    lemma_pow2_adds(64, 1074);
    lemma_pow2_adds(53, 1085);
    lemma_pow2_pos(1074);
    lemma_pow2_strictly_increases(1138, 2098);
    assert(a < pow2(53 + 1085) * 1) by (nonlinear_arith)
        requires
            a == magnitude * pow2(1074),
            magnitude < 0x1_0000_0000_0000_0000,
            pow2(1074) > 0,
            pow2(1138) == 0x1_0000_0000_0000_0000 * pow2(1074),
    ;
    lemma_rounded_below(a, 1, 1138);
    lemma_number_of_rounded(n < 0, a, 1);
}

/// A ratio of at least one is rounded to a magnitude above zero.
proof fn lemma_rounded_is_positive(a: nat, b: nat)
    requires
        0 < b <= a,
    ensures
        rounded(a, b) > 0,
{
    let j = excess_bits(a / b);
    let n = nearest_even(a, b * pow2(j));
    lemma_rounded_significand(a, b);
    lemma_pow2_pos(j);
    if j == 0 {
        lemma2_to64();
        lemma_fundamental_div_mod(a as int, b as int);
        assert(a / b >= 1) by (nonlinear_arith)
            requires
                a == b * (a / b) + a % b,
                a % b < b,
                0 < b <= a,
        ;
        assert(b * pow2(0) == b);
    }
    assert(n * pow2(j) > 0) by (nonlinear_arith)
        requires
            n > 0,
            pow2(j) > 0,
    ;
}

/// A ratio below a power of two of at least fifty-three bits is rounded to
/// that power at most.
proof fn lemma_rounded_below(a: nat, b: nat, bound: nat)
    requires
        b > 0,
        bound >= 53,
        a < pow2(bound) * b,
    ensures
        rounded(a, b) <= pow2(bound),
{
    lemma2_to64_rest();
    let j = excess_bits(a / b);
    let n = nearest_even(a, b * pow2(j));
    lemma_rounded_significand(a, b);
    lemma_excess_bits_bounds(a / b);
    lemma_fundamental_div_mod(a as int, b as int);
    let f = a / b;
    assert(f < pow2(bound)) by (nonlinear_arith)
        requires
            a == b * f + a % b,
            0 <= a % b,
            b > 0,
            a < pow2(bound) * b,
    ;
    lemma_pow2_pos(j);
    lemma_pow2_adds(53, j);
    if j == 0 {
        if 53 < bound {
            lemma_pow2_strictly_increases(53, bound);
        }
        assert(n * pow2(0) <= pow2(bound)) by (nonlinear_arith)
            requires
                n <= 0x20_0000_0000_0000,
                pow2(0) == 1,
                pow2(bound) >= 0x20_0000_0000_0000,
        ;
    } else {
        assert(52 + j < bound) by {
            if 52 + j >= bound {
                if 52 + j > bound {
                    lemma_pow2_strictly_increases(bound, 52 + j);
                }
            }
        }
        if 53 + j < bound {
            lemma_pow2_strictly_increases(53 + j, bound);
        }
        assert(n * pow2(j) <= pow2(bound)) by (nonlinear_arith)
            requires
                n <= 0x20_0000_0000_0000,
                pow2(j) > 0,
                pow2(53 + j) == 0x20_0000_0000_0000 * pow2(j),
                pow2(53 + j) <= pow2(bound),
        ;
    }
}

/// Zero over anything is rounded to zero, whose bits are all clear.
proof fn lemma_zero_rounds_to_zero(b: nat)
    requires
        b > 0,
    ensures
        magnitude_bits(rounded(0, b)) == 0,
{
    lemma2_to64();
    assert(0nat / b == 0) by (nonlinear_arith)
        requires
            b > 0,
    ;
    assert(excess_bits(0) == 0);
    assert(step(0, b) == 1);
    assert(0nat % (b * 1) == 0 && 0nat / (b * 1) == 0) by (nonlinear_arith)
        requires
            b > 0,
    ;
    assert(rounded(0, b) == 0);
    assert(0nat / pow2(0) == 0);
}

} // verus!
