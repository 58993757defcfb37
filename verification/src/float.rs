use vstd::arithmetic::power2::*;
use vstd::bits::*;
use vstd::prelude::*;

verus! {

/// The bit that holds the sign of a binary64 number.
pub const SIGN_BIT: u64 = 0x8000_0000_0000_0000;

/// Two to the power 52: the weight of the bit that a normal binary64 number leaves out of
/// its fraction field.
pub const HIDDEN_BIT: u64 = 0x10_0000_0000_0000;

/// A binary64 floating-point number, held by its bit pattern: one sign bit, eleven bits of
/// exponent, 52 bits of fraction. Every pattern is a number, an infinity or a NaN.
#[derive(Clone, Copy, Debug)]
pub struct Float {
    pub bits: u64,
}

/// The position of the leading one bit of a positive number; zero for zero.
pub open spec fn top_bit(a: nat) -> nat
    decreases a,
{
    if a < 2 {
        0
    } else {
        1 + top_bit(a / 2)
    }
}

/// The multiple of `unit` nearest to `a`; of two equally near, the even multiple.
pub open spec fn round_half_even(a: nat, unit: nat) -> nat {
    let q = a / unit;
    let r = a % unit;
    if 2 * r > unit || (2 * r == unit && q % 2 == 1) {
        (q + 1) * unit
    } else {
        q * unit
    }
}

/// The natural number nearest to `a` that 53 bits of significand can hold: `a` itself
/// below two to the power 53, else `a` rounded, half to even, to a multiple of the power of
/// two that its 53rd bit from the top weighs.
pub open spec fn nearest_representable(a: nat) -> nat {
    if a < pow2(53) {
        a
    } else {
        round_half_even(a, pow2((top_bit(a) - 52) as nat))
    }
}

/// A number that lies between two successive powers of two has its leading bit at the
/// lower one.
pub proof fn lemma_top_bit_between(a: nat, p: nat)
    requires
        pow2(p) <= a < pow2(p + 1),
    ensures
        top_bit(a) == p,
    decreases p,
{
    lemma2_to64();
    if p == 0 {
    } else {
        lemma_pow2_unfold(p);
        lemma_pow2_unfold(p + 1);
        lemma_top_bit_between(a / 2, (p - 1) as nat);
    }
}

/// Rounding gives a multiple of the unit that is at most half a unit away.
pub proof fn lemma_round_half_even_is_near(a: nat, unit: nat)
    requires
        unit > 0,
    ensures
        round_half_even(a, unit) % unit == 0,
        2 * (round_half_even(a, unit) - a) <= unit,
        2 * (a - round_half_even(a, unit)) <= unit,
        a % unit == 0 ==> round_half_even(a, unit) == a,
{
    let q = a / unit;
    let r = a % unit;
    vstd::arithmetic::div_mod::lemma_fundamental_div_mod(a as int, unit as int);
    vstd::arithmetic::div_mod::lemma_mod_multiples_basic(q as int, unit as int);
    vstd::arithmetic::div_mod::lemma_mod_multiples_basic((q + 1) as int, unit as int);
    assert((q + 1) * unit == q * unit + unit) by (nonlinear_arith);
    assert(unit * q == q * unit) by (nonlinear_arith);
}

/// The magnitude of an integer.
pub open spec fn magnitude(v: int) -> nat {
    if v < 0 {
        (-v) as nat
    } else {
        v as nat
    }
}

impl Float {
    /// Whether the sign bit is set.
    pub open spec fn negative(self) -> bool {
        self.bits >= SIGN_BIT
    }

    /// The exponent field.
    pub open spec fn exponent(self) -> nat {
        ((self.bits / HIDDEN_BIT) % 2048) as nat
    }

    /// The fraction field.
    pub open spec fn fraction(self) -> nat {
        (self.bits % HIDDEN_BIT) as nat
    }

    /// Whether the pattern is a NaN.
    pub open spec fn is_nan_spec(self) -> bool {
        self.exponent() == 2047 && self.fraction() != 0
    }

    /// Whether the pattern is one of the two infinities.
    pub open spec fn is_infinite_spec(self) -> bool {
        self.exponent() == 2047 && self.fraction() == 0
    }

    /// Whether the pattern is a number.
    pub open spec fn is_finite_spec(self) -> bool {
        self.exponent() < 2047
    }

    /// Whether the pattern is one of the two zeros.
    pub open spec fn is_zero_spec(self) -> bool {
        self.bits == 0 || self.bits == SIGN_BIT
    }

    /// The significand of a number, as a natural number: the number's magnitude is
    /// `significand * 2^scale`.
    pub open spec fn significand(self) -> nat {
        if self.exponent() == 0 {
            self.fraction()
        } else {
            HIDDEN_BIT as nat + self.fraction()
        }
    }

    /// The power of two that weighs the significand of a number.
    pub open spec fn scale(self) -> int {
        if self.exponent() == 0 {
            -1074
        } else {
            self.exponent() - 1075
        }
    }

    /// The whole part of the magnitude of a number.
    pub open spec fn whole_magnitude(self) -> nat {
        if self.scale() >= 0 {
            self.significand() * pow2(self.scale() as nat)
        } else {
            self.significand() / pow2((-self.scale()) as nat)
        }
    }

    /// Whether a number has no fractional part.
    pub open spec fn is_integral(self) -> bool {
        self.scale() >= 0 || self.significand() % pow2((-self.scale()) as nat) == 0
    }

    /// A number cut off toward zero at the decimal point.
    pub open spec fn truncated(self) -> int {
        if self.negative() {
            -(self.whole_magnitude() as int)
        } else {
            self.whole_magnitude() as int
        }
    }

    /// The nearest 64-bit integer toward zero: zero for a NaN, and the least or greatest
    /// 64-bit integer for what lies below or above them all.
    pub open spec fn to_integer_spec(self) -> i64 {
        if self.is_nan_spec() {
            0
        } else if self.is_infinite_spec() {
            if self.negative() {
                i64::MIN
            } else {
                i64::MAX
            }
        } else if self.truncated() < i64::MIN {
            i64::MIN
        } else if self.truncated() > i64::MAX {
            i64::MAX
        } else {
            self.truncated() as i64
        }
    }

    /// The pattern with the given sign, exponent field and fraction field.
    pub open spec fn compose_spec(negative: bool, exponent: nat, fraction: nat) -> Float {
        Float {
            bits: ((if negative {
                SIGN_BIT as nat
            } else {
                0
            }) + exponent * HIDDEN_BIT + fraction) as u64,
        }
    }

    /// The number nearest to the integer `v`, half-way cases going to the even significand:
    /// positive zero for zero; else the leading bit of the rounded magnitude gives the
    /// exponent, and the magnitude scaled to 53 bits gives the significand.
    pub open spec fn of_integer(v: int) -> Float {
        let near = nearest_representable(magnitude(v));
        let top = top_bit(near);
        let significand: int = if top <= 52 {
            (near * pow2((52 - top) as nat)) as int
        } else {
            near as int / pow2((top - 52) as nat) as int
        };
        if v == 0 {
            Float { bits: 0 }
        } else {
            Float::compose_spec(v < 0, 1023 + top, (significand - HIDDEN_BIT) as nat)
        }
    }

    /// The number with the given bit pattern.
    pub fn from_bits(bits: u64) -> (float: Float)
        ensures
            float.bits == bits,
    {
        Float { bits }
    }

    /// The bit pattern.
    pub fn to_bits(self) -> (bits: u64)
        ensures
            bits == self.bits,
    {
        self.bits
    }

    /// Whether the pattern is a NaN.
    pub fn is_nan(&self) -> (nan: bool)
        ensures
            nan == self.is_nan_spec(),
    {
        (self.bits / HIDDEN_BIT) % 2048 == 2047 && self.bits % HIDDEN_BIT != 0
    }

    /// Whether this is zero, of either sign.
    pub fn is_zero(&self) -> (zero: bool)
        ensures
            zero == self.is_zero_spec(),
    {
        self.bits == 0 || self.bits == SIGN_BIT
    }

    /// Converts to a 64-bit integer by cutting off the fractional part. A NaN gives zero;
    /// what lies outside the 64-bit integers gives the nearest of them.
    pub fn to_integer(self) -> (value: i64)
        ensures
            value == self.to_integer_spec(),
    {
        let exponent = (self.bits / HIDDEN_BIT) % 2048;
        let fraction = self.bits % HIDDEN_BIT;
        let negative = self.bits >= SIGN_BIT;
        proof {
            lemma2_to64();
            lemma2_to64_rest();
        }
        if exponent == 2047 {
            return if fraction != 0 {
                0
            } else if negative {
                i64::MIN
            } else {
                i64::MAX
            };
        }
        if exponent < 1023 {
            proof {
                let down = (-self.scale()) as nat;
                if down > 53 {
                    lemma_pow2_strictly_increases(53, down);
                }
                vstd::arithmetic::div_mod::lemma_basic_div(
                    self.significand() as int,
                    pow2(down) as int,
                );
            }
            return 0;
        }
        let significand = HIDDEN_BIT + fraction;
        if exponent >= 1086 {
            proof {
                let up = self.scale() as nat;
                if up > 11 {
                    lemma_pow2_strictly_increases(11, up);
                }
                assert(self.significand() == significand);
                assert(self.whole_magnitude() == significand * pow2(up));
                assert(significand * pow2(up) >= 0x8000_0000_0000_0000) by (nonlinear_arith)
                    requires
                        significand >= 0x10_0000_0000_0000,
                        pow2(up) >= 0x800,
                ;
            }
            return if negative {
                i64::MIN
            } else {
                i64::MAX
            };
        }
        let magnitude: u64 = if exponent >= 1075 {
            let up = exponent - 1075;
            proof {
                if up < 10 {
                    lemma_pow2_strictly_increases(up as nat, 10);
                }
                assert(significand * pow2(up as nat) < 0x8000_0000_0000_0000) by (nonlinear_arith)
                    requires
                        significand < 0x20_0000_0000_0000,
                        pow2(up as nat) <= 0x400,
                ;
                lemma_u64_shl_is_mul(significand, up);
            }
            significand << up
        } else {
            let down = 1075 - exponent;
            proof {
                lemma_u64_shr_is_div(significand, down);
            }
            significand >> down
        };
        assert(magnitude == self.whole_magnitude());
        if negative {
            -(magnitude as i64)
        } else {
            magnitude as i64
        }
    }

    /// The pattern with the given sign, exponent field and fraction field.
    pub fn compose(negative: bool, exponent: u64, fraction: u64) -> (float: Float)
        requires
            exponent < 2048,
            fraction < HIDDEN_BIT,
        ensures
            float == Float::compose_spec(negative, exponent as nat, fraction as nat),
            float.negative() == negative,
            float.exponent() == exponent,
            float.fraction() == fraction,
    {
        let sign: u64 = if negative {
            SIGN_BIT
        } else {
            0
        };
        Float { bits: sign + exponent * HIDDEN_BIT + fraction }
    }

    /// Converts a 64-bit integer to the nearest number; of two equally near, to the one
    /// whose significand is even. Integers of magnitude up to two to the power 53 convert
    /// without loss.
    pub fn from_integer(value: i64) -> (float: Float)
        ensures
            float == Float::of_integer(value as int),
            float.is_finite_spec(),
            float.is_integral(),
            float.negative() == (value < 0),
            float.whole_magnitude() == nearest_representable(magnitude(value as int)),
            value == 0 ==> float.bits == 0,
            value != 0 ==> float.exponent() == 1023 + top_bit(
                nearest_representable(magnitude(value as int)),
            ),
            -0x20_0000_0000_0000 <= value <= 0x20_0000_0000_0000 ==> float.to_integer_spec()
                == value,
    {
        proof {
            lemma2_to64();
            lemma2_to64_rest();
        }
        if value == 0 {
            let zero = Float { bits: 0 };
            proof {
                lemma_pow2_pos(1074);
                assert(zero.exponent() == 0 && zero.fraction() == 0);
                assert(zero.significand() == 0 && zero.scale() == -1074);
                vstd::arithmetic::div_mod::lemma_small_mod(0, pow2(1074));
                vstd::arithmetic::div_mod::lemma_basic_div(0, pow2(1074) as int);
                assert(zero.whole_magnitude() == 0);
                assert(zero.is_integral());
            }
            return zero;
        }
        let negative = value < 0;
        let a: u64 = if value == i64::MIN {
            SIGN_BIT
        } else if negative {
            (-value) as u64
        } else {
            value as u64
        };
        assert(a == magnitude(value as int));
        let mut p: u64 = 63;
        let mut bound: u64 = SIGN_BIT;
        while a < bound
            invariant
                1 <= a,
                p <= 63,
                bound == pow2(p as nat),
                a < pow2((p + 1) as nat),
            decreases p,
        {
            proof {
                lemma2_to64();
                if p > 0 {
                    lemma_pow2_unfold(p as nat);
                }
            }
            p = p - 1;
            bound = bound / 2;
        }
        proof {
            lemma_top_bit_between(a as nat, p as nat);
        }
        let float = if p <= 52 {
            let up = 52 - p;
            proof {
                lemma_pow2_adds(p as nat, up as nat);
                lemma_pow2_adds((p + 1) as nat, up as nat);
                lemma_pow2_pos(up as nat);
                assert(pow2(p as nat) * pow2(up as nat) <= a * pow2(up as nat) < pow2(
                    (p + 1) as nat,
                ) * pow2(up as nat)) by (nonlinear_arith)
                    requires
                        pow2(p as nat) <= a < pow2((p + 1) as nat),
                        pow2(up as nat) > 0,
                ;
                lemma_u64_shl_is_mul(a, up);
            }
            let significand = a << up;
            let float = Float::compose(negative, 1023 + p, significand - HIDDEN_BIT);
            proof {
                let unit = pow2(up as nat);
                assert(float.exponent() == 1023 + p && float.fraction() == significand
                    - HIDDEN_BIT);
                assert(float.significand() == a * unit);
                if up > 0 {
                    assert(float.scale() == -(up as int));
                    vstd::arithmetic::div_mod::lemma_div_by_multiple(a as int, unit as int);
                    vstd::arithmetic::div_mod::lemma_mod_multiples_basic(a as int, unit as int);
                    assert(float.whole_magnitude() == (a * unit) / (unit as int));
                    assert(float.is_integral());
                } else {
                    assert(float.scale() == 0);
                    assert(a * unit == a) by (nonlinear_arith)
                        requires
                            unit == 1,
                    ;
                    assert(float.whole_magnitude() == (a * unit) * unit);
                }
                assert(float.whole_magnitude() == a);
                assert(float == Float::of_integer(value as int));
            }
            float
        } else {
            let down = p - 52;
            proof {
                lemma_pow2_adds(52, down as nat);
                lemma_pow2_adds(53, down as nat);
                lemma_pow2_pos(down as nat);
                lemma_pow2_strictly_increases(down as nat, 12);
                lemma_u64_shl_is_mul(1, down);
                lemma_u64_shr_is_div(a, down);
            }
            let unit: u64 = 1u64 << down;
            let quotient = a >> down;
            let rest = a % unit;
            proof {
                vstd::arithmetic::div_mod::lemma_fundamental_div_mod(a as int, unit as int);
                assert(pow2(52) <= quotient < pow2(53)) by (nonlinear_arith)
                    requires
                        a == unit * quotient + rest,
                        0 <= rest < unit,
                        pow2(52) * unit <= a < pow2(53) * unit,
                ;
            }
            let round_up = 2 * rest > unit || (2 * rest == unit && quotient % 2 == 1);
            let rounded = if round_up {
                quotient + 1
            } else {
                quotient
            };
            let ghost near = nearest_representable(a as nat);
            assert(near == rounded * unit);
            if rounded == 2 * HIDDEN_BIT {
                let float = Float::compose(negative, 1024 + p, 0);
                proof {
                    lemma_pow2_adds(52, (down + 1) as nat);
                    lemma_pow2_unfold((down + 1) as nat);
                    lemma_pow2_unfold((p + 2) as nat);
                    assert(near == pow2(52) * pow2((down + 1) as nat)) by (nonlinear_arith)
                        requires
                            near == rounded * unit,
                            rounded == 2 * pow2(52),
                            pow2((down + 1) as nat) == 2 * unit,
                    ;
                    lemma_top_bit_between(near, (p + 1) as nat);
                    vstd::arithmetic::div_mod::lemma_div_by_multiple(
                        pow2(52) as int,
                        pow2((down + 1) as nat) as int,
                    );
                    assert(float == Float::of_integer(value as int));
                }
                float
            } else {
                let float = Float::compose(negative, 1023 + p, rounded - HIDDEN_BIT);
                proof {
                    lemma_pow2_unfold((p + 1) as nat);
                    assert(pow2(52) * unit <= rounded * unit < pow2(53) * unit)
                        by (nonlinear_arith)
                        requires
                            pow2(52) <= rounded < pow2(53),
                            unit > 0,
                    ;
                    lemma_top_bit_between(near, p as nat);
                    vstd::arithmetic::div_mod::lemma_div_by_multiple(rounded as int, unit as int);
                    assert(float == Float::of_integer(value as int));
                }
                float
            }
        };
        proof {
            if -0x20_0000_0000_0000 <= value <= 0x20_0000_0000_0000 {
                if a == 0x20_0000_0000_0000 {
                    lemma_round_half_even_is_near(a as nat, pow2(1));
                }
                assert(nearest_representable(a as nat) == a);
            }
        }
        float
    }
}

impl PartialEq for Float {
    /// Equality of the numbers, not of the patterns: the two zeros are equal, and a NaN
    /// equals nothing, itself included.
    fn eq(&self, other: &Float) -> (equal: bool) {
        !self.is_nan() && !other.is_nan() && (self.bits == other.bits || (self.is_zero()
            && other.is_zero()))
    }
}

impl vstd::std_specs::cmp::PartialEqSpecImpl for Float {
    open spec fn obeys_eq_spec() -> bool {
        true
    }

    open spec fn eq_spec(&self, other: &Float) -> bool {
        !self.is_nan_spec() && !other.is_nan_spec() && (self.bits == other.bits || (
        self.is_zero_spec() && other.is_zero_spec()))
    }
}

} // verus!