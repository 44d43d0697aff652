//! Draws: the values a random source hands out.
//!
//! A draw is a fraction in the half-open interval from 0 to 1, held in
//! fixed point with 64 fractional bits. Every bit pattern is a valid draw,
//! so no draw can ever reach 1 and no index computed from one can leave
//! its table.

use vstd::arithmetic::div_mod::lemma_basic_div;
use vstd::arithmetic::power2::{lemma2_to64, lemma_pow2_strictly_increases, pow2};
use vstd::bits::{lemma_u64_shl_is_mul, lemma_u64_shr_is_div};
use vstd::prelude::*;

verus! {

/// The denominator of every draw: 2^64.
pub open spec fn unit() -> int {
    0x1_0000_0000_0000_0000
}

/// One value from a random source: the fraction `bits / 2^64`.
#[derive(Clone, Copy, Debug, PartialEq, Eq, Structural)]
pub struct Draw {
    pub bits: u64,
}

/// The whole part of 2^64 times the magnitude of the number that `bits`
/// encodes in the IEEE 754 binary64 format: bit 63 the sign, eleven bits of
/// exponent below it, then 52 bits of fraction. The number's magnitude is
/// the significand times 2^(exponent - 1075), where a zero exponent field
/// (zero, and the subnormal numbers) counts as 1 and has no implicit bit.
pub open spec fn binary64_scaled(bits: u64) -> int {
    let field = (bits / 0x10_0000_0000_0000) % 0x800;
    let fraction = bits % 0x10_0000_0000_0000;
    let exponent = if field == 0 {
        1
    } else {
        field as int
    };
    let significand = if field == 0 {
        fraction as int
    } else {
        0x10_0000_0000_0000 + fraction
    };
    if exponent >= 1011 {
        significand * pow2((exponent - 1011) as nat)
    } else {
        significand / (pow2((1011 - exponent) as nat) as int)
    }
}

/// Whether `bits` encodes no number at all in the binary64 format: the
/// exponent field is all ones and the fraction is not zero.
pub open spec fn binary64_is_nan(bits: u64) -> bool {
    (bits / 0x10_0000_0000_0000) % 0x800 == 0x7ff && bits % 0x10_0000_0000_0000 != 0
}

/// The draw that stands for the number that `bits` encodes in the binary64
/// format.
///
/// For a number in the half-open interval from 0 to 1 this is the number
/// itself, cut off after 64 binary places. A number of 1 or more, infinity
/// included, stands for the largest draw; a negative number, and an
/// encoding that is not a number, for zero.
pub open spec fn binary64_draw(bits: u64) -> int {
    if bits >= 0x8000_0000_0000_0000 || binary64_is_nan(bits) {
        0
    } else if binary64_scaled(bits) > 0xffff_ffff_ffff_ffff {
        0xffff_ffff_ffff_ffff
    } else {
        binary64_scaled(bits)
    }
}

impl Draw {
    /// The whole part of this draw times `span`.
    pub open spec fn floor_of(self, span: int) -> int {
        (self.bits * span) / unit()
    }

    /// Whether this draw is strictly less than `percent / 100`.
    pub open spec fn under(self, percent: int) -> bool {
        self.bits * 100 < percent * unit()
    }

    /// The draw `bits / 2^64`.
    pub fn from_bits(bits: u64) -> (d: Draw)
        ensures
            d.bits == bits,
    {
        Draw { bits }
    }

    /// The draw for the number that `bits` encodes in the IEEE 754 binary64
    /// format, clamped into the half-open interval from 0 to 1.
    pub fn from_binary64(bits: u64) -> (d: Draw)
        ensures
            d.bits == binary64_draw(bits),
    {
        let field = (bits / 0x10_0000_0000_0000) % 0x800;
        let fraction = bits % 0x10_0000_0000_0000;
        let significand = 0x10_0000_0000_0000 + fraction;
        proof {
            lemma2_to64();
        }
        if bits >= 0x8000_0000_0000_0000 || (field == 0x7ff && fraction != 0) {
            Draw { bits: 0 }
        } else if field >= 1023 {
            proof {
                let up = (field - 1011) as nat;
                if up > 12 {
                    lemma_pow2_strictly_increases(12, up);
                }
                assert(significand * pow2(up) > u64::MAX) by (nonlinear_arith)
                    requires
                        significand >= 0x10_0000_0000_0000,
                        pow2(up) >= 0x1000,
                ;
            }
            Draw { bits: u64::MAX }
        } else if field == 0 {
            proof {
                lemma_pow2_strictly_increases(64, 1010);
                lemma_basic_div(fraction as int, pow2(1010) as int);
            }
            Draw { bits: 0 }
        } else if field >= 1011 {
            let up = field - 1011;
            proof {
                if up < 11 {
                    lemma_pow2_strictly_increases(up as nat, 11);
                }
                assert(significand * pow2(up as nat) <= u64::MAX) by (nonlinear_arith)
                    requires
                        significand < 0x20_0000_0000_0000,
                        pow2(up as nat) <= 0x800,
                ;
                lemma_u64_shl_is_mul(significand, up);
            }
            Draw { bits: significand << up }
        } else {
            let down = 1011 - field;
            if down < 64 {
                proof {
                    lemma_u64_shr_is_div(significand, down);
                }
                Draw { bits: significand >> down }
            } else {
                proof {
                    if down > 64 {
                        lemma_pow2_strictly_increases(64, down as nat);
                    }
                    lemma_basic_div(significand as int, pow2(down as nat) as int);
                }
                Draw { bits: 0 }
            }
        }
    }

    /// The smallest draw, 0.
    pub fn zero() -> (d: Draw)
        ensures
            d.bits == 0,
    {
        Draw { bits: 0 }
    }

    /// Scales the draw to an index below `span`: the whole part of the draw
    /// times `span`.
    pub fn scale(self, span: u32) -> (n: u32)
        ensures
            n == self.floor_of(span as int),
            span > 0 ==> n < span,
            span == 0 ==> n == 0,
    {
        proof {
            lemma_floor_of_bounds(self, span as int);
        }
        let wide: u128 = (self.bits as u128) * (span as u128);
        (wide / 0x1_0000_0000_0000_0000u128) as u32
    }

    /// Tests the draw against a threshold given in hundredths: `true` when
    /// the draw is strictly less than `percent / 100`.
    pub fn is_under(self, percent: u8) -> (b: bool)
        ensures
            b == self.under(percent as int),
    {
        (self.bits as u128) * 100u128 < (percent as u128) * 0x1_0000_0000_0000_0000u128
    }
}

/// A draw scaled by a non-negative span stays below the span, and is zero
/// for an empty span.
pub proof fn lemma_floor_of_bounds(d: Draw, span: int)
    requires
        0 <= span,
    ensures
        0 <= d.bits * span <= (unit() - 1) * span,
        0 <= d.floor_of(span),
        span > 0 ==> d.floor_of(span) < span,
        span == 0 ==> d.floor_of(span) == 0,
{
    let top = 0xffff_ffff_ffff_ffff * span;
    assert(0 <= d.bits * span <= top) by (nonlinear_arith)
        requires
            0 <= d.bits <= 0xffff_ffff_ffff_ffff,
            0 <= span,
            top == 0xffff_ffff_ffff_ffff * span,
    ;
}

} // verus!
