//! Double-precision numbers, held by their bit patterns.
//!
//! A pattern has a sign bit, eleven exponent bits and fifty-two fraction
//! bits. The number it stands for is `significand * 2^exponent`, negated
//! where the sign bit is set; patterns with all exponent bits set stand for
//! the infinities and for values that are no numbers.

use vstd::prelude::*;
use vstd::arithmetic::power2::{lemma2_to64, lemma2_to64_rest, lemma_pow2_strictly_increases, pow2};
use vstd::bits::lemma_u64_shr_is_div;
use vstd::bits::lemma_u64_shl_is_mul;

verus! {

/// A double-precision number.
#[derive(Clone, Copy, Debug, PartialEq, Eq, Structural)]
pub struct Double {
    /// The sixty-four bits of the number, sign bit first.
    pub bits: u64,
}

impl Double {
    /// The sign bit is set.
    pub open spec fn sign_bit(self) -> bool {
        self.bits >= 0x8000_0000_0000_0000
    }

    /// The eleven bits below the sign bit.
    pub open spec fn exponent_field(self) -> nat {
        ((self.bits / 0x10_0000_0000_0000) % 2048) as nat
    }

    /// The lowest fifty-two bits.
    pub open spec fn fraction_field(self) -> nat {
        (self.bits % 0x10_0000_0000_0000) as nat
    }

    /// The pattern stands for no number.
    pub open spec fn is_nan(self) -> bool {
        self.exponent_field() == 2047 && self.fraction_field() != 0
    }

    /// The pattern stands for an infinity.
    pub open spec fn is_infinite(self) -> bool {
        self.exponent_field() == 2047 && self.fraction_field() == 0
    }

    /// The pattern stands for a number.
    pub open spec fn is_finite(self) -> bool {
        self.exponent_field() < 2047
    }

    /// The integer whose multiple by a power of two the magnitude is.
    pub open spec fn significand(self) -> nat {
        if self.exponent_field() == 0 {
            self.fraction_field()
        } else {
            0x10_0000_0000_0000 + self.fraction_field()
        }
    }

    /// The power of two by which the significand is scaled.
    pub open spec fn exponent(self) -> int {
        if self.exponent_field() == 0 {
            -1074
        } else {
            self.exponent_field() - 1075
        }
    }

    /// The magnitude of a finite number, in units of `2^-1074`.
    pub open spec fn units(self) -> nat {
        self.significand() * pow2((self.exponent() + 1074) as nat)
    }

    /// The number is greater than zero: positive infinity counts, zero of
    /// either sign and values that are no numbers do not.
    pub open spec fn is_positive(self) -> bool {
        !self.sign_bit() && !self.is_nan() && (self.is_infinite() || self.significand() > 0)
    }

    /// The least integer that is not below a finite number.
    pub open spec fn ceiling(self) -> int {
        let m = self.significand() as int;
        let e = self.exponent();
        if e >= 0 {
            if self.sign_bit() {
                -(m * pow2(e as nat))
            } else {
                m * pow2(e as nat)
            }
        } else {
            let d = pow2((-e) as nat) as int;
            if self.sign_bit() {
                -(m / d)
            } else {
                (m + d - 1) / d
            }
        }
    }

    /// The ceiling as a signed 64-bit integer: what lies beyond the range
    /// goes to the nearest end of it, and what is no number goes to zero.
    pub open spec fn rounded_up(self) -> i64 {
        if self.is_nan() {
            0
        } else if self.is_infinite() {
            if self.sign_bit() {
                i64::MIN
            } else {
                i64::MAX
            }
        } else if self.ceiling() < i64::MIN {
            i64::MIN
        } else if self.ceiling() > i64::MAX {
            i64::MAX
        } else {
            self.ceiling() as i64
        }
    }

    /// The number with the given bits.
    pub fn from_bits(bits: u64) -> (number: Double)
        ensures
            number.bits == bits,
    {
        Double { bits }
    }

    /// The bits of the number.
    pub fn to_bits(&self) -> (bits: u64)
        ensures
            bits == self.bits,
    {
        self.bits
    }

    /// Tells whether the number is greater than zero.
    pub fn exceeds_zero(&self) -> (positive: bool)
        ensures
            positive == self.is_positive(),
    {
        self.bits != 0 && self.bits <= 0x7FF0_0000_0000_0000
    }
}

/// Rounds a double-precision number up to the next integer, as a signed
/// 64-bit value. Infinities and numbers beyond the range give the nearest
/// end of the range; a value that is no number gives zero.
pub fn round_up_to_i64(v: Double) -> (n: i64)
    ensures
        n == v.rounded_up(),
{
    let negative: bool = v.bits >= 0x8000_0000_0000_0000;
    let field: u64 = (v.bits / 0x10_0000_0000_0000) % 2048;
    let fraction: u64 = v.bits % 0x10_0000_0000_0000;
    if field == 2047 {
        return if fraction != 0 {
            0
        } else if negative {
            i64::MIN
        } else {
            i64::MAX
        };
    }
    let m: u64 = if field == 0 {
        fraction
    } else {
        0x10_0000_0000_0000 + fraction
    };
    if field >= 1075 {
        let up: u64 = field - 1075;
        if up >= 11 {
            proof {
                lemma2_to64();
                if up > 11 {
                    lemma_pow2_strictly_increases(11, up as nat);
                }
                assert(m * pow2(up as nat) >= 0x8000_0000_0000_0000) by (nonlinear_arith)
                    requires
                        m >= 0x10_0000_0000_0000,
                        pow2(up as nat) >= 0x800,
                ;
            }
            return if negative {
                i64::MIN
            } else {
                i64::MAX
            };
        }
        proof {
            lemma2_to64();
            if up < 10 {
                lemma_pow2_strictly_increases(up as nat, 10);
            }
            assert(m * pow2(up as nat) < 0x8000_0000_0000_0000) by (nonlinear_arith)
                requires
                    m < 0x20_0000_0000_0000,
                    pow2(up as nat) <= 0x400,
            ;
            lemma_u64_shl_is_mul(m, up);
        }
        let whole: u64 = m << up;
        return if negative {
            -(whole as i64)
        } else {
            whole as i64
        };
    }
    let down: u64 = if field == 0 {
        1074
    } else {
        1075 - field
    };
    if down >= 53 {
        proof {
            lemma2_to64_rest();
            if down > 53 {
                lemma_pow2_strictly_increases(53, down as nat);
            }
            lemma_small_quotients(m as int, pow2(down as nat) as int);
        }
        return if negative || m == 0 {
            0
        } else {
            1
        };
    }
    proof {
        lemma2_to64();
        lemma2_to64_rest();
        lemma_pow2_strictly_increases(0, down as nat);
        lemma_pow2_strictly_increases(down as nat, 53);
        lemma_u64_shr_is_div(m, down);
        lemma_u64_shl_is_mul(1, down);
    }
    let whole: u64 = m >> down;
    let unit: u64 = 1u64 << down;
    let part: u64 = m % unit;
    proof {
        lemma_ceiling_quotient(m as int, unit as int);
        assert(whole < 0x10_0000_0000_0000) by (nonlinear_arith)
            requires
                whole == m as int / unit as int,
                m < 0x20_0000_0000_0000,
                unit >= 2,
        ;
    }
    if negative {
        -(whole as i64)
    } else if part != 0 {
        whole as i64 + 1
    } else {
        whole as i64
    }
}

/// Below the divisor, the quotient is zero and the rounded-up quotient is at
/// most one.
proof fn lemma_small_quotients(m: int, d: int)
    requires
        0 <= m < d,
    ensures
        m / d == 0,
        (m + d - 1) / d == if m == 0 {
            0int
        } else {
            1int
        },
{
    assert(m / d == 0) by (nonlinear_arith)
        requires
            0 <= m < d,
    ;
    if m == 0 {
        assert((d - 1) / d == 0) by (nonlinear_arith)
            requires
                0 < d,
        ;
    } else {
        assert((m + d - 1) / d == 1) by (nonlinear_arith)
            requires
                0 < m < d,
        ;
    }
}

/// Rounding a quotient up adds one exactly where the division leaves a rest.
proof fn lemma_ceiling_quotient(m: int, d: int)
    requires
        0 <= m,
        0 < d,
    ensures
        (m + d - 1) / d == if m % d == 0 {
            m / d
        } else {
            m / d + 1
        },
{
    assert((m + d - 1) / d == if m % d == 0 {
        m / d
    } else {
        m / d + 1
    }) by (nonlinear_arith)
        requires
            0 <= m,
            0 < d,
    ;
}

} // verus!
