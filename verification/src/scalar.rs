//! Real numbers as the renderer stores them: IEEE-754 binary64 values carried
//! by their 64-bit patterns.
//!
//! Nothing in this module does arithmetic on the numbers. It orders them,
//! selects among them and changes their sign, all of which are exact
//! operations on the bit pattern.

use vstd::prelude::*;

verus! {

/// The bit that holds the sign of a binary64 value.
pub const SIGN_BIT: u64 = 0x8000_0000_0000_0000;

/// The magnitude bits of positive infinity. Every larger magnitude is a NaN.
pub const INFINITY_BITS: u64 = 0x7ff0_0000_0000_0000;

/// The bit pattern of the number one.
pub const ONE_BITS: u64 = 0x3ff0_0000_0000_0000;

/// A binary64 value, identified by its bit pattern.
///
/// Two scalars are `==` when their patterns are equal, so the two zeros are
/// distinct values that compare as equal numbers (`same_number`).
#[derive(Clone, Copy, Debug, PartialEq, Eq, Structural)]
pub struct Scalar {
    pub bits: u64,
}

impl Scalar {
    /// Whether the sign bit is set.
    pub open spec fn negative(self) -> bool {
        self.bits >= SIGN_BIT
    }

    /// The pattern without its sign bit: exponent and fraction read as one
    /// integer. Among numbers of one sign a larger magnitude is a number
    /// further from zero.
    pub open spec fn magnitude(self) -> int {
        if self.negative() {
            self.bits - SIGN_BIT
        } else {
            self.bits as int
        }
    }

    /// Whether the pattern encodes no number.
    pub open spec fn nan(self) -> bool {
        self.magnitude() > INFINITY_BITS
    }

    /// The position of the value on the number line: the magnitude, counted
    /// downwards from zero for negative values. Both zeros have rank zero.
    pub open spec fn rank(self) -> int {
        if self.negative() {
            -self.magnitude()
        } else {
            self.magnitude()
        }
    }

    /// `self < other` as numbers. False whenever either side is a NaN.
    pub open spec fn lt_spec(self, other: Scalar) -> bool {
        !self.nan() && !other.nan() && self.rank() < other.rank()
    }

    /// `self <= other` as numbers. False whenever either side is a NaN.
    pub open spec fn le_spec(self, other: Scalar) -> bool {
        !self.nan() && !other.nan() && self.rank() <= other.rank()
    }

    /// The two patterns encode the same number.
    pub open spec fn same_number(self, other: Scalar) -> bool {
        !self.nan() && !other.nan() && self.rank() == other.rank()
    }

    /// The value with its sign bit flipped.
    pub open spec fn neg_spec(self) -> Scalar {
        if self.negative() {
            Scalar { bits: (self.bits - SIGN_BIT) as u64 }
        } else {
            Scalar { bits: (self.bits + SIGN_BIT) as u64 }
        }
    }

    /// The value with its sign bit cleared.
    pub open spec fn abs_spec(self) -> Scalar {
        Scalar { bits: self.magnitude() as u64 }
    }

    /// The smaller of two numbers. A NaN on one side yields the other side.
    pub open spec fn min_spec(self, other: Scalar) -> Scalar {
        if other.nan() || self.lt_spec(other) {
            self
        } else {
            other
        }
    }

    /// The larger of two numbers. A NaN on one side yields the other side.
    pub open spec fn max_spec(self, other: Scalar) -> Scalar {
        if other.nan() || other.lt_spec(self) {
            self
        } else {
            other
        }
    }

    pub fn from_bits(bits: u64) -> (s: Scalar)
        ensures
            s.bits == bits,
    {
        Scalar { bits }
    }

    pub fn to_bits(self) -> (bits: u64)
        ensures
            bits == self.bits,
    {
        self.bits
    }

    /// Positive zero.
    pub fn zero() -> (s: Scalar)
        ensures
            s.bits == 0,
            s.rank() == 0,
            !s.nan(),
    {
        Scalar { bits: 0 }
    }

    /// The number one.
    pub fn one() -> (s: Scalar)
        ensures
            s.bits == ONE_BITS,
            s.rank() == ONE_BITS,
            !s.nan(),
    {
        Scalar { bits: ONE_BITS }
    }

    pub fn is_negative(self) -> (b: bool)
        ensures
            b == self.negative(),
    {
        self.bits >= SIGN_BIT
    }

    pub fn is_nan(self) -> (b: bool)
        ensures
            b == self.nan(),
    {
        let mag: u64 = if self.bits >= SIGN_BIT {
            self.bits - SIGN_BIT
        } else {
            self.bits
        };
        mag > INFINITY_BITS
    }

    /// The rank as a machine integer.
    pub fn rank_of(self) -> (r: i64)
        ensures
            r == self.rank(),
    {
        if self.bits >= SIGN_BIT {
            let mag: u64 = self.bits - SIGN_BIT;
            let m: i64 = mag as i64;
            -m
        } else {
            self.bits as i64
        }
    }

    /// The scalar of a given rank; for rank zero, positive zero.
    pub fn from_rank(rank: i64) -> (s: Scalar)
        requires
            rank > i64::MIN,
        ensures
            s.rank() == rank,
            s.bits == if rank >= 0 {
                rank as int
            } else {
                SIGN_BIT - rank
            },
    {
        if rank >= 0 {
            Scalar { bits: rank as u64 }
        } else {
            let mag: i64 = -rank;
            Scalar { bits: SIGN_BIT + (mag as u64) }
        }
    }

    pub fn lt(self, other: Scalar) -> (b: bool)
        ensures
            b == self.lt_spec(other),
    {
        !self.is_nan() && !other.is_nan() && self.rank_of() < other.rank_of()
    }

    pub fn le(self, other: Scalar) -> (b: bool)
        ensures
            b == self.le_spec(other),
    {
        !self.is_nan() && !other.is_nan() && self.rank_of() <= other.rank_of()
    }

    pub fn neg(self) -> (s: Scalar)
        ensures
            s == self.neg_spec(),
    {
        if self.bits >= SIGN_BIT {
            Scalar { bits: self.bits - SIGN_BIT }
        } else {
            Scalar { bits: self.bits + SIGN_BIT }
        }
    }

    pub fn abs(self) -> (s: Scalar)
        ensures
            s == self.abs_spec(),
    {
        if self.bits >= SIGN_BIT {
            Scalar { bits: self.bits - SIGN_BIT }
        } else {
            self
        }
    }

    pub fn min(self, other: Scalar) -> (s: Scalar)
        ensures
            s == self.min_spec(other),
    {
        if other.is_nan() || self.lt(other) {
            self
        } else {
            other
        }
    }

    pub fn max(self, other: Scalar) -> (s: Scalar)
        ensures
            s == self.max_spec(other),
    {
        if other.is_nan() || other.lt(self) {
            self
        } else {
            other
        }
    }
}

/// Negation reverses the order of numbers, keeps NaNs NaNs, and is its own
/// inverse.
pub proof fn lemma_neg(a: Scalar, b: Scalar)
    ensures
        a.neg_spec().nan() == a.nan(),
        a.neg_spec().rank() == -a.rank(),
        a.neg_spec().neg_spec() == a,
        a.lt_spec(b) == b.neg_spec().lt_spec(a.neg_spec()),
{
}

/// The absolute value is never below zero and keeps the magnitude.
pub proof fn lemma_abs(a: Scalar)
    ensures
        a.abs_spec().nan() == a.nan(),
        a.abs_spec().rank() == a.magnitude(),
        a.abs_spec().rank() >= 0,
        !a.abs_spec().negative(),
{
}

/// Of two numbers the minimum is below both and the maximum above both, and
/// each is one of the two.
pub proof fn lemma_min_max(a: Scalar, b: Scalar)
    requires
        !a.nan(),
        !b.nan(),
    ensures
        a.min_spec(b).le_spec(a),
        a.min_spec(b).le_spec(b),
        a.le_spec(a.max_spec(b)),
        b.le_spec(a.max_spec(b)),
        a.min_spec(b) == a || a.min_spec(b) == b,
        a.max_spec(b) == a || a.max_spec(b) == b,
{
}

/// On numbers `<=` is a total preorder and `<` is its strict part.
pub proof fn lemma_order(a: Scalar, b: Scalar, c: Scalar)
    requires
        !a.nan(),
        !b.nan(),
        !c.nan(),
    ensures
        a.le_spec(a),
        a.le_spec(b) || b.le_spec(a),
        a.le_spec(b) && b.le_spec(c) ==> a.le_spec(c),
        a.lt_spec(b) <==> !b.le_spec(a),
        a.le_spec(b) && b.le_spec(a) <==> a.same_number(b),
{
}

} // verus!
