//! Floating-point numbers, carried by their bits.
//!
//! A configuration is full of them and a reading can be one, but what this crate does with a
//! number is keep it, compare it and take it apart. All of that can be done on the bits of its
//! IEEE 754 form, so that is what a number is here; arithmetic on it belongs to whoever draws.

use vstd::prelude::*;

verus! {

/// The whole of anything that is counted in shares: a position along a way, an opacity.
///
/// As many parts as a single-precision number tells apart between a half and one, so a share
/// loses nothing on its way to whoever draws it.
pub const WHOLE: u32 = 0x100_0000;

/// The whole number nearest a fraction, the larger one where two are as near.
pub open spec fn nearest(n: int, d: int) -> int {
    (2 * n + d) / (2 * d)
}

/// A double-precision number, by its bits.
#[derive(Clone, Copy, Debug, Default, PartialEq, Eq, Structural)]
pub struct Number {
    pub bits: u64,
}

/// The bits of positive infinity, above which lie the numbers that are not numbers.
pub const INFINITY: u64 = 0x7ff0_0000_0000_0000;

/// The bits of negative infinity.
pub const NEGATIVE_INFINITY: u64 = 0xfff0_0000_0000_0000;

/// The bits of what is not a number.
pub const UNDEFINED: u64 = 0x7ff8_0000_0000_0000;

/// The first bit pattern with its sign bit set.
pub const SIGN: u64 = 0x8000_0000_0000_0000;

/// One more than the largest fraction a number's bits hold.
pub const FRACTION: u64 = 0x10_0000_0000_0000;

/// The bits of the numbers a configuration falls back on.
pub const ZERO: u64 = 0;

pub const ONE: u64 = 0x3ff0_0000_0000_0000;

pub const SIX: u64 = 0x4018_0000_0000_0000;

pub const EIGHT: u64 = 0x4020_0000_0000_0000;

pub const TEN: u64 = 0x4024_0000_0000_0000;

pub const SIXTEEN: u64 = 0x4030_0000_0000_0000;

pub const FORTY: u64 = 0x4044_0000_0000_0000;

pub const HUNDRED: u64 = 0x4059_0000_0000_0000;

/// Three hundred and sixty.
pub const WIDE: u64 = 0x4076_8000_0000_0000;

/// The largest finite single-precision number.
pub const WIDEST: u64 = 0x47ef_ffff_e000_0000;

impl Number {
    /// How far from zero, as a count of the representable numbers in between.
    pub open spec fn magnitude(self) -> int {
        if self.bits >= SIGN {
            self.bits - SIGN
        } else {
            self.bits as int
        }
    }

    /// Where the number stands among all of them. The two zeroes stand in one place.
    pub open spec fn rank(self) -> int {
        if self.bits >= SIGN {
            -self.magnitude()
        } else {
            self.magnitude()
        }
    }

    /// Whether this is a number at all.
    pub open spec fn comparable(self) -> bool {
        self.magnitude() <= INFINITY
    }

    pub open spec fn finite(self) -> bool {
        self.magnitude() < INFINITY
    }

    pub open spec fn less(self, other: Number) -> bool {
        self.comparable() && other.comparable() && self.rank() < other.rank()
    }

    pub open spec fn equal(self, other: Number) -> bool {
        self.comparable() && other.comparable() && self.rank() == other.rank()
    }

    /// The larger of two numbers; the other one where one of them is not a number.
    pub open spec fn larger(self, other: Number) -> Number {
        if !self.comparable() || self.less(other) {
            other
        } else {
            self
        }
    }

    /// The smaller of two numbers; the other one where one of them is not a number.
    pub open spec fn smaller(self, other: Number) -> Number {
        if !self.comparable() || other.less(self) {
            other
        } else {
            self
        }
    }

    /// The whole number that a finite number is, times two to the power of its scale and but for
    /// its sign.
    pub open spec fn significand(self) -> int {
        if self.magnitude() < FRACTION {
            self.magnitude()
        } else {
            FRACTION + self.magnitude() % FRACTION as int
        }
    }

    /// The power of two a finite number's significand is taken times.
    pub open spec fn scale(self) -> int {
        if self.magnitude() < FRACTION {
            -1074
        } else {
            self.magnitude() / FRACTION as int - 1075
        }
    }

    /// The significand of a finite number, and its scale.
    pub fn parts(self) -> (r: (u64, i64))
        requires
            self.finite(),
        ensures
            r.0 == self.significand(),
            r.1 == self.scale(),
            r.0 < 2 * FRACTION,
            -1074 <= r.1 <= 971,
            r.1 > -1074 ==> r.0 >= FRACTION,
    {
        let m: u64 = self.far();
        if m < FRACTION {
            (m, -1074)
        } else {
            (FRACTION + m % FRACTION, (m / FRACTION) as i64 - 1075)
        }
    }

    fn far(self) -> (n: u64)
        ensures
            n == self.magnitude(),
    {
        if self.bits >= SIGN {
            self.bits - SIGN
        } else {
            self.bits
        }
    }

    /// Whether this is neither infinite nor something that is not a number.
    pub fn is_finite(self) -> (r: bool)
        ensures
            r == self.finite(),
    {
        self.far() < INFINITY
    }

    pub fn is_comparable(self) -> (r: bool)
        ensures
            r == self.comparable(),
    {
        self.far() <= INFINITY
    }

    pub fn lt(self, other: Number) -> (r: bool)
        ensures
            r == self.less(other),
    {
        self.is_comparable() && other.is_comparable() && self.stands_before(other)
    }

    /// Whether this stands before another among all of them, and what is not a number beyond every
    /// one that is, on the side its sign says.
    pub fn stands_before(self, other: Number) -> (r: bool)
        ensures
            r == (self.rank() < other.rank()),
    {
        let a = self.far();
        let b = other.far();
        if self.bits >= SIGN {
            if other.bits >= SIGN {
                b < a
            } else {
                a > 0 || b > 0
            }
        } else if other.bits >= SIGN {
            false
        } else {
            a < b
        }
    }

    /// Whether two numbers are the same number.
    pub fn is(self, other: Number) -> (r: bool)
        ensures
            r == self.equal(other),
    {
        self.is_comparable() && other.is_comparable() && !self.lt(other) && !other.lt(self)
    }

    /// The larger of two numbers.
    pub fn max(self, other: Number) -> (r: Number)
        ensures
            r == self.larger(other),
    {
        if !self.is_comparable() || self.lt(other) {
            other
        } else {
            self
        }
    }

    /// The smaller of two numbers.
    pub fn min(self, other: Number) -> (r: Number)
        ensures
            r == self.smaller(other),
    {
        if !self.is_comparable() || other.lt(self) {
            other
        } else {
            self
        }
    }

    /// The number as far from zero on the other side of it.
    pub open spec fn opposite(self) -> Number {
        Number {
            bits: if self.bits >= SIGN {
                (self.bits - SIGN) as u64
            } else {
                (self.bits + SIGN) as u64
            },
        }
    }

    pub fn negated(self) -> (r: Number)
        ensures
            r == self.opposite(),
            self.rank() == -r.rank(),
    {
        Number {
            bits: if self.bits >= SIGN {
                self.bits - SIGN
            } else {
                self.bits + SIGN
            },
        }
    }
}

} // verus!
