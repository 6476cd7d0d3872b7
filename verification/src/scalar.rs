//! Double-precision numbers, held by their IEEE 754 encoding.
//!
//! A [`Scalar`] is the 64-bit pattern of a binary64 number. The library never
//! computes with such a number. It orders them, selects among them and flips
//! their sign, and each of these is a statement about the encoding alone:
//! the sign is the top bit, and among numbers of one sign the larger
//! magnitude has the larger encoding.

use vstd::prelude::*;

verus! {

/// The sign bit of an encoding.
pub const SIGN: u64 = 0x8000_0000_0000_0000;

/// The encoding of positive infinity. A larger magnitude is not a number.
pub const INFINITY: u64 = 0x7ff0_0000_0000_0000;

/// The encoding of one.
pub const ONE: u64 = 0x3ff0_0000_0000_0000;

/// A double-precision number, as its encoding.
///
/// `==` on scalars compares encodings: it tells `-0` from `+0` and finds a
/// NaN equal to itself. The comparison of the numbers is [`Scalar::same`].
#[derive(Clone, Copy, Debug, PartialEq, Eq, Structural)]
pub struct Scalar {
    pub bits: u64,
}

impl Scalar {
    /// The encoding without its sign bit.
    pub open spec fn magnitude(self) -> int {
        if self.bits >= SIGN {
            self.bits - SIGN
        } else {
            self.bits as int
        }
    }

    pub open spec fn spec_is_sign_negative(self) -> bool {
        self.bits >= SIGN
    }

    pub open spec fn spec_is_nan(self) -> bool {
        self.magnitude() > INFINITY
    }

    /// The place of a number in the order of all numbers: its magnitude,
    /// counted downwards for a negative number. Both zeros have rank 0.
    pub open spec fn rank(self) -> int {
        if self.spec_is_sign_negative() {
            -self.magnitude()
        } else {
            self.magnitude()
        }
    }

    pub open spec fn spec_lt(self, other: Scalar) -> bool {
        !self.spec_is_nan() && !other.spec_is_nan() && self.rank() < other.rank()
    }

    pub open spec fn spec_le(self, other: Scalar) -> bool {
        !self.spec_is_nan() && !other.spec_is_nan() && self.rank() <= other.rank()
    }

    /// The two encodings stand for equal numbers.
    pub open spec fn spec_same(self, other: Scalar) -> bool {
        !self.spec_is_nan() && !other.spec_is_nan() && self.rank() == other.rank()
    }

    pub open spec fn spec_negated(self) -> Scalar {
        Scalar {
            bits: if self.bits >= SIGN {
                (self.bits - SIGN) as u64
            } else {
                (self.bits + SIGN) as u64
            },
        }
    }

    pub open spec fn spec_abs(self) -> Scalar {
        Scalar { bits: self.magnitude() as u64 }
    }

    pub open spec fn spec_max(self, other: Scalar) -> Scalar {
        if self.spec_is_nan() {
            other
        } else if other.spec_is_nan() {
            self
        } else if self.spec_lt(other) {
            other
        } else {
            self
        }
    }

    pub open spec fn spec_min(self, other: Scalar) -> Scalar {
        if self.spec_is_nan() {
            other
        } else if other.spec_is_nan() {
            self
        } else if other.spec_lt(self) {
            other
        } else {
            self
        }
    }

    pub open spec fn spec_clamp(self, low: Scalar, high: Scalar) -> Scalar {
        if self.spec_lt(low) {
            low
        } else if high.spec_lt(self) {
            high
        } else {
            self
        }
    }

    /// Positive zero.
    pub open spec fn spec_zero() -> Scalar {
        Scalar { bits: 0 }
    }

    /// One.
    pub open spec fn spec_one() -> Scalar {
        Scalar { bits: ONE }
    }

    /// Positive infinity.
    pub open spec fn spec_infinity() -> Scalar {
        Scalar { bits: INFINITY }
    }

    #[verifier::when_used_as_spec(spec_zero)]
    pub fn zero() -> (r: Scalar)
        ensures
            r == Scalar::spec_zero(),
    {
        Scalar { bits: 0 }
    }

    #[verifier::when_used_as_spec(spec_one)]
    pub fn one() -> (r: Scalar)
        ensures
            r == Scalar::spec_one(),
    {
        Scalar { bits: ONE }
    }

    #[verifier::when_used_as_spec(spec_infinity)]
    pub fn infinity() -> (r: Scalar)
        ensures
            r == Scalar::spec_infinity(),
    {
        Scalar { bits: INFINITY }
    }

    pub fn from_bits(bits: u64) -> (r: Scalar)
        ensures
            r.bits == bits,
    {
        Scalar { bits }
    }

    pub fn to_bits(self) -> (r: u64)
        ensures
            r == self.bits,
    {
        self.bits
    }

    /// Whether the sign bit is set. It is set for `-0` too, and may be set
    /// for a NaN.
    #[verifier::when_used_as_spec(spec_is_sign_negative)]
    pub fn is_sign_negative(self) -> (r: bool)
        ensures
            r == self.spec_is_sign_negative(),
    {
        self.bits >= SIGN
    }

    /// Whether the encoding is that of no number.
    #[verifier::when_used_as_spec(spec_is_nan)]
    pub fn is_nan(self) -> (r: bool)
        ensures
            r == self.spec_is_nan(),
    {
        if self.bits >= SIGN {
            self.bits - SIGN > INFINITY
        } else {
            self.bits > INFINITY
        }
    }

    /// `self < other`, which is false as soon as one side is a NaN.
    #[verifier::when_used_as_spec(spec_lt)]
    pub fn lt(self, other: Scalar) -> (r: bool)
        ensures
            r == self.spec_lt(other),
    {
        if self.is_nan() || other.is_nan() {
            return false;
        }
        if self.bits >= SIGN {
            if other.bits >= SIGN {
                self.bits > other.bits
            } else {
                self.bits > SIGN || other.bits > 0
            }
        } else {
            other.bits < SIGN && self.bits < other.bits
        }
    }

    /// `self <= other`, which is false as soon as one side is a NaN.
    #[verifier::when_used_as_spec(spec_le)]
    pub fn le(self, other: Scalar) -> (r: bool)
        ensures
            r == self.spec_le(other),
    {
        !self.is_nan() && !other.is_nan() && !other.lt(self)
    }

    /// `self == other` as numbers: `-0` equals `+0`, and a NaN equals
    /// nothing.
    #[verifier::when_used_as_spec(spec_same)]
    pub fn same(self, other: Scalar) -> (r: bool)
        ensures
            r == self.spec_same(other),
    {
        self.le(other) && other.le(self)
    }

    /// The number with its sign flipped; the magnitude is untouched.
    #[verifier::when_used_as_spec(spec_negated)]
    pub fn negated(self) -> (r: Scalar)
        ensures
            r == self.spec_negated(),
    {
        if self.bits >= SIGN {
            Scalar { bits: self.bits - SIGN }
        } else {
            Scalar { bits: self.bits + SIGN }
        }
    }

    /// The number with its sign bit cleared.
    #[verifier::when_used_as_spec(spec_abs)]
    pub fn abs(self) -> (r: Scalar)
        ensures
            r == self.spec_abs(),
    {
        if self.bits >= SIGN {
            Scalar { bits: self.bits - SIGN }
        } else {
            self
        }
    }

    /// The larger of two numbers. A NaN yields to the other side; of two
    /// equal numbers `self` is returned.
    #[verifier::when_used_as_spec(spec_max)]
    pub fn max(self, other: Scalar) -> (r: Scalar)
        ensures
            r == self.spec_max(other),
    {
        if self.is_nan() {
            other
        } else if other.is_nan() {
            self
        } else if self.lt(other) {
            other
        } else {
            self
        }
    }

    /// The smaller of two numbers. A NaN yields to the other side; of two
    /// equal numbers `self` is returned.
    #[verifier::when_used_as_spec(spec_min)]
    pub fn min(self, other: Scalar) -> (r: Scalar)
        ensures
            r == self.spec_min(other),
    {
        if self.is_nan() {
            other
        } else if other.is_nan() {
            self
        } else if other.lt(self) {
            other
        } else {
            self
        }
    }

    /// `self` moved into `[low, high]`: `low` where `self < low`, `high`
    /// where `self > high`, and `self` otherwise, a NaN included.
    #[verifier::when_used_as_spec(spec_clamp)]
    pub fn clamp(self, low: Scalar, high: Scalar) -> (r: Scalar)
        ensures
            r == self.spec_clamp(low, high),
    {
        if self.lt(low) {
            low
        } else if high.lt(self) {
            high
        } else {
            self
        }
    }
}

/// Of two numbers exactly one holds: the first is smaller, they are equal,
/// or the second is smaller.
pub proof fn lemma_trichotomy(a: Scalar, b: Scalar)
    requires
        !a.is_nan(),
        !b.is_nan(),
    ensures
        a.lt(b) || a.same(b) || b.lt(a),
        !(a.lt(b) && a.same(b)),
        !(a.lt(b) && b.lt(a)),
        !(a.same(b) && b.lt(a)),
        a.le(b) <==> a.lt(b) || a.same(b),
{
}

/// `<=` is transitive.
pub proof fn lemma_le_transitive(a: Scalar, b: Scalar, c: Scalar)
    requires
        a.le(b),
        b.le(c),
    ensures
        a.le(c),
{
}

/// Flipping the sign turns the order round, and twice is the identity.
pub proof fn lemma_negated_reverses(a: Scalar, b: Scalar)
    ensures
        a.negated().negated() == a,
        a.negated().is_nan() == a.is_nan(),
        a.negated().rank() == -a.rank(),
        a.lt(b) <==> b.negated().lt(a.negated()),
{
}

/// The maximum is an upper bound of both numbers and one of them; the
/// minimum likewise from below.
pub proof fn lemma_max_min(a: Scalar, b: Scalar)
    requires
        !a.is_nan(),
        !b.is_nan(),
    ensures
        a.max(b) == a || a.max(b) == b,
        a.le(a.max(b)) && b.le(a.max(b)),
        a.min(b) == a || a.min(b) == b,
        a.min(b).le(a) && a.min(b).le(b),
{
}

} // verus!
