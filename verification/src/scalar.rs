//! Numbers that arrive as IEEE 754 doubles.
use vstd::arithmetic::power2::{lemma2_to64, lemma2_to64_rest, lemma_pow2_unfold, pow2};
use vstd::prelude::*;

verus! {

/// A double-precision number, held as its bit pattern. The crate decides by
/// such numbers but never computes with them.
#[derive(Debug, Clone, Copy, PartialEq, Eq, Structural)]
pub struct Scalar {
    pub bits: u64,
}

/// The bit pattern of the sign: every pattern from here on is negative.
pub const SIGN: u64 = 0x8000_0000_0000_0000;

/// The magnitude of infinity; only NaNs have greater ones.
pub const INFINITE: u64 = 0x7FF0_0000_0000_0000;

/// The bit pattern of zero.
pub const ZERO: u64 = 0;

/// The bit pattern of one.
pub const ONE: u64 = 0x3FF0_0000_0000_0000;

/// Where the mantissa of a double ends and its exponent starts.
pub const MANTISSA: u64 = 0x10_0000_0000_0000;

/// The bit pattern of the double `m * 2^(e - 52)`, for a positive `m` below
/// `2 * MANTISSA`: `m` is doubled until it fills the mantissa, and the
/// exponent pays for it.
pub open spec fn normalized(m: int, e: int) -> int
    decreases 2 * MANTISSA - m,
{
    if 0 < m < MANTISSA {
        normalized(m * 2, e - 1)
    } else {
        (1022 + e) * MANTISSA + m
    }
}

/// The double of an integer.
pub open spec fn double(v: int) -> Scalar {
    if v == 0 {
        Scalar { bits: ZERO }
    } else if v < 0 {
        Scalar { bits: (SIGN + normalized(-v, 52)) as u64 }
    } else {
        Scalar { bits: normalized(v, 52) as u64 }
    }
}

/// A normalized pattern lies where its exponent says.
proof fn lemma_normalized_bounds(m: int, e: int, rest: nat)
    requires
        0 < m < 2 * MANTISSA,
        0 <= e,
        m * pow2(rest) >= MANTISSA,
        rest <= e,
    ensures
        0 < normalized(m, e),
        normalized(m, e) < (1024 + e) * MANTISSA,
    decreases 2 * MANTISSA - m,
{
    if m < MANTISSA {
        if rest == 0 {
            assert(pow2(0) == 1) by {
                lemma2_to64();
            }
            assert(m * 1 == m);
        } else {
            lemma_pow2_unfold(rest);
            assert(m * pow2(rest) == (m * 2) * pow2((rest - 1) as nat)) by (nonlinear_arith)
                requires
                    pow2(rest) == 2 * pow2((rest - 1) as nat),
            ;
            lemma_normalized_bounds(m * 2, e - 1, (rest - 1) as nat);
        }
    } else {
        assert((1022 + e) * MANTISSA + m < (1024 + e) * MANTISSA) by (nonlinear_arith)
            requires
                m < 2 * MANTISSA,
        ;
        assert((1022 + e) * MANTISSA + m > 0) by (nonlinear_arith)
            requires
                m > 0,
                e >= 0,
        ;
    }
}

/// Normalizing keeps the order.
proof fn lemma_normalized_monotone(a: int, b: int, e: int, rest: nat)
    requires
        0 < a < b < 2 * MANTISSA,
        0 <= e,
        a * pow2(rest) >= MANTISSA,
        rest <= e,
    ensures
        normalized(a, e) < normalized(b, e),
    decreases 2 * MANTISSA - a,
{
    if a < MANTISSA {
        if rest == 0 {
            assert(pow2(0) == 1) by {
                lemma2_to64();
            }
            assert(a * 1 == a);
        } else {
            lemma_pow2_unfold(rest);
            assert(a * pow2(rest) == (a * 2) * pow2((rest - 1) as nat)) by (nonlinear_arith)
                requires
                    pow2(rest) == 2 * pow2((rest - 1) as nat),
            ;
            if b < MANTISSA {
                lemma_normalized_monotone(a * 2, b * 2, e - 1, (rest - 1) as nat);
            } else {
                lemma_normalized_bounds(a * 2, e - 1, (rest - 1) as nat);
                assert((1022 + e) * MANTISSA + b >= (1024 + (e - 1)) * MANTISSA)
                    by (nonlinear_arith)
                    requires
                        b >= MANTISSA,
                ;
            }
        }
    }
}

/// A positive 32-bit integer is doubled at most 52 times.
proof fn lemma_small(v: int)
    requires
        0 < v <= 0x8000_0000,
    ensures
        v < 2 * MANTISSA,
        v * pow2(52) >= MANTISSA,
        0 < normalized(v, 52) < INFINITE,
{
    assert(pow2(52) == MANTISSA) by {
        lemma2_to64();
        lemma2_to64_rest();
    }
    assert(v * pow2(52) >= MANTISSA) by (nonlinear_arith)
        requires
            pow2(52) == MANTISSA,
            v > 0,
    ;
    lemma_normalized_bounds(v, 52, 52);
    assert((1024 + 52) * MANTISSA < INFINITE);
}

/// The doubles of 32-bit integers are no NaNs and order as the integers do.
pub proof fn lemma_double(a: int, b: int)
    requires
        i32::MIN <= a <= i32::MAX,
        i32::MIN <= b <= i32::MAX,
    ensures
        !double(a).nan(),
        double(a).below(double(b)) <==> a < b,
        double(a).at_most(double(b)) <==> a <= b,
        double(a).equals(double(b)) <==> a == b,
{
    if a != 0 {
        lemma_small(if a < 0 { -a } else { a });
    }
    if b != 0 {
        lemma_small(if b < 0 { -b } else { b });
    }
    if 0 < a < b {
        lemma_normalized_monotone(a, b, 52, 52);
    }
    if 0 < b < a {
        lemma_normalized_monotone(b, a, 52, 52);
    }
    if a < b < 0 {
        lemma_normalized_monotone(-b, -a, 52, 52);
    }
    if b < a < 0 {
        lemma_normalized_monotone(-a, -b, 52, 52);
    }
}

impl Scalar {
    pub open spec fn negative(self) -> bool {
        self.bits >= SIGN
    }

    /// The bit pattern without the sign: it grows with the absolute value.
    pub open spec fn magnitude(self) -> int {
        if self.negative() {
            self.bits - SIGN
        } else {
            self.bits as int
        }
    }

    pub open spec fn nan(self) -> bool {
        self.magnitude() > INFINITE
    }

    /// A number that orders as the double does; both zeros have rank zero.
    pub open spec fn rank(self) -> int {
        if self.negative() {
            -self.magnitude()
        } else {
            self.magnitude()
        }
    }

    /// The double's `<`: false wherever a NaN takes part.
    pub open spec fn below(self, other: Scalar) -> bool {
        !self.nan() && !other.nan() && self.rank() < other.rank()
    }

    /// The double's `<=`: false wherever a NaN takes part.
    pub open spec fn at_most(self, other: Scalar) -> bool {
        !self.nan() && !other.nan() && self.rank() <= other.rank()
    }

    /// The double's `==`: no NaN equals anything, and both zeros are equal.
    pub open spec fn equals(self, other: Scalar) -> bool {
        !self.nan() && !other.nan() && self.rank() == other.rank()
    }

    pub open spec fn absolute(self) -> Scalar {
        Scalar { bits: self.magnitude() as u64 }
    }

    /// The nearest number from zero to one; a NaN stays as it is.
    pub open spec fn clamped(self) -> Scalar {
        if self.below(Scalar { bits: ZERO }) {
            Scalar { bits: ZERO }
        } else if (Scalar { bits: ONE }).below(self) {
            Scalar { bits: ONE }
        } else {
            self
        }
    }

    /// The nearest number from `low` to `high`; a NaN stays as it is.
    pub open spec fn confined(self, low: Scalar, high: Scalar) -> Scalar {
        if self.below(low) {
            low
        } else if high.below(self) {
            high
        } else {
            self
        }
    }

    fn weight(&self) -> (m: u64)
        ensures
            m == self.magnitude(),
    {
        if self.bits >= SIGN {
            self.bits - SIGN
        } else {
            self.bits
        }
    }

    pub fn is_nan(&self) -> (r: bool)
        ensures
            r == self.nan(),
    {
        self.weight() > INFINITE
    }

    pub fn lt(&self, other: &Scalar) -> (r: bool)
        ensures
            r == self.below(*other),
    {
        if self.is_nan() || other.is_nan() {
            return false;
        }
        let a = self.weight();
        let b = other.weight();
        if self.bits >= SIGN {
            if other.bits >= SIGN {
                a > b
            } else {
                a > 0 || b > 0
            }
        } else {
            if other.bits >= SIGN {
                false
            } else {
                a < b
            }
        }
    }

    pub fn le(&self, other: &Scalar) -> (r: bool)
        ensures
            r == self.at_most(*other),
    {
        if self.is_nan() || other.is_nan() {
            return false;
        }
        !other.lt(self)
    }

    pub fn same(&self, other: &Scalar) -> (r: bool)
        ensures
            r == self.equals(*other),
    {
        self.le(other) && other.le(self)
    }

    pub fn abs(&self) -> (r: Scalar)
        ensures
            r == self.absolute(),
    {
        Scalar { bits: self.weight() }
    }

    /// The double of an integer.
    pub fn from_int(v: i32) -> (r: Scalar)
        ensures
            r == double(v as int),
    {
        if v == 0 {
            return Scalar { bits: ZERO };
        }
        let start: u64 = if v < 0 {
            (-(v as i64)) as u64
        } else {
            v as u64
        };
        proof {
            lemma_small(start as int);
        }
        let mut m: u64 = start;
        let mut e: u64 = 52;
        while m < MANTISSA
            invariant
                0 < m < 2 * MANTISSA,
                0 <= e <= 52,
                m * pow2(e as nat) >= MANTISSA,
                normalized(m as int, e as int) == normalized(start as int, 52),
            decreases 2 * MANTISSA - m,
        {
            proof {
                if e == 0 {
                    assert(pow2(0) == 1) by {
                        lemma2_to64();
                    }
                    assert(m * 1 == m);
                } else {
                    lemma_pow2_unfold(e as nat);
                    assert(m * pow2(e as nat) == (m * 2) * pow2((e - 1) as nat))
                        by (nonlinear_arith)
                        requires
                            pow2(e as nat) == 2 * pow2((e - 1) as nat),
                    ;
                }
            }
            m = m * 2;
            e = e - 1;
        }
        proof {
            lemma_normalized_bounds(m as int, e as int, e as nat);
        }
        let bits: u64 = (1022 + e) * MANTISSA + m;
        Scalar {
            bits: if v < 0 {
                SIGN + bits
            } else {
                bits
            },
        }
    }

    pub fn clamp(&self, low: &Scalar, high: &Scalar) -> (r: Scalar)
        ensures
            r == self.confined(*low, *high),
    {
        if self.lt(low) {
            *low
        } else if high.lt(self) {
            *high
        } else {
            *self
        }
    }

    pub fn clamp_unit(&self) -> (r: Scalar)
        ensures
            r == self.clamped(),
    {
        if self.lt(&Scalar { bits: ZERO }) {
            Scalar { bits: ZERO }
        } else if (Scalar { bits: ONE }).lt(self) {
            Scalar { bits: ONE }
        } else {
            *self
        }
    }
}

/// The order on numbers that are not NaN is total and transitive, and what
/// was clamped lies from zero to one.
pub proof fn lemma_scalar_order(a: Scalar, b: Scalar, c: Scalar)
    requires
        !a.nan(),
        !b.nan(),
        !c.nan(),
    ensures
        a.at_most(b) || b.at_most(a),
        a.at_most(b) && b.at_most(c) ==> a.at_most(c),
        a.below(b) <==> !b.at_most(a),
        (Scalar { bits: ZERO }).at_most(a.clamped()),
        a.clamped().at_most(Scalar { bits: ONE }),
        (Scalar { bits: ZERO }).at_most(a.absolute()),
{
}

/// The double of an integer has the absolute value of that integer.
pub proof fn lemma_double_size(v: int)
    requires
        -0x8000_0000 <= v <= 0x7FFF_FFFF,
    ensures
        double(v).absolute() == double(if v < 0 {
            -v
        } else {
            v
        }),
{
    if v != 0 {
        lemma_small(if v < 0 {
            -v
        } else {
            v
        });
    }
}

/// The doubles of some small integers.
pub proof fn lemma_small_doubles()
    ensures
        double(0).bits == 0,
        double(1).bits == 0x3FF0_0000_0000_0000,
        double(12).bits == 0x4028_0000_0000_0000,
{
    reveal_with_fuel(normalized, 60);
}

} // verus!
