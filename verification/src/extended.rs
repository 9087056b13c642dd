//! Numbers of any size, and what floating point has beside them: the two infinities, and what is
//! not a number.
//!
//! A file of the kernel is read as floating point, which tells apart steps of two to the power of
//! -1074 and goes on past the largest number to infinity. What is worked out from it is worked
//! out exactly, in those steps.

use crate::natural::{Natural, Whole};
use crate::number::{Number, INFINITY, NEGATIVE_INFINITY, SIGN, UNDEFINED};
use crate::status::{Amount, AmountView};
use vstd::arithmetic::power2::pow2;
use vstd::prelude::*;

verus! {

/// How many doublings lie between the smallest step of a number and one.
pub const FINEST: usize = 1074;

/// A number, or what is beside them all.
#[derive(Debug)]
pub enum Extended {
    Finite(Whole),
    /// More than any number.
    Above,
    /// Less than any number.
    Below,
    /// Not a number.
    Undefined,
}

/// What an `Extended` says.
pub enum ExtendedView {
    Finite(int),
    Above,
    Below,
    Undefined,
}

impl View for Extended {
    type V = ExtendedView;

    open spec fn view(&self) -> ExtendedView {
        match self {
            Extended::Finite(n) => ExtendedView::Finite(n@),
            Extended::Above => ExtendedView::Above,
            Extended::Below => ExtendedView::Below,
            Extended::Undefined => ExtendedView::Undefined,
        }
    }
}

/// How many of the smallest steps a finite number is from nothing.
pub open spec fn steps(n: Number) -> int {
    let far = n.significand() * pow2((n.scale() + FINEST) as nat);
    if n.bits >= SIGN {
        -far
    } else {
        far
    }
}

/// A number in its smallest steps.
pub open spec fn in_steps(n: Number) -> ExtendedView {
    if !n.comparable() {
        ExtendedView::Undefined
    } else if n.finite() {
        ExtendedView::Finite(steps(n))
    } else if n.bits >= SIGN {
        ExtendedView::Below
    } else {
        ExtendedView::Above
    }
}

/// Which side of nothing this is on: one above it, minus one below it.
pub open spec fn side(a: ExtendedView) -> int {
    match a {
        ExtendedView::Finite(n) => if n > 0 {
            1
        } else if n < 0 {
            -1
        } else {
            0
        },
        ExtendedView::Above => 1,
        ExtendedView::Below => -1,
        ExtendedView::Undefined => 0,
    }
}

/// The sum of two. What is endless stays so, but no sum is both ways endless.
pub open spec fn sum(a: ExtendedView, b: ExtendedView) -> ExtendedView {
    match (a, b) {
        (ExtendedView::Undefined, _) => ExtendedView::Undefined,
        (_, ExtendedView::Undefined) => ExtendedView::Undefined,
        (ExtendedView::Finite(x), ExtendedView::Finite(y)) => ExtendedView::Finite(x + y),
        (ExtendedView::Finite(_), _) => b,
        (_, ExtendedView::Finite(_)) => a,
        (ExtendedView::Above, ExtendedView::Above) => a,
        (ExtendedView::Below, ExtendedView::Below) => a,
        _ => ExtendedView::Undefined,
    }
}

/// One taken times another. What is endless stays so, but not taken no times at all.
pub open spec fn product(a: ExtendedView, b: ExtendedView) -> ExtendedView {
    match (a, b) {
        (ExtendedView::Undefined, _) => ExtendedView::Undefined,
        (_, ExtendedView::Undefined) => ExtendedView::Undefined,
        (ExtendedView::Finite(x), ExtendedView::Finite(y)) => ExtendedView::Finite(x * y),
        _ => if side(a) == 0 || side(b) == 0 {
            ExtendedView::Undefined
        } else if side(a) == side(b) {
            ExtendedView::Above
        } else {
            ExtendedView::Below
        },
    }
}

/// The one as far from nothing on the other side of it.
pub open spec fn opposite(a: ExtendedView) -> ExtendedView {
    match a {
        ExtendedView::Finite(n) => ExtendedView::Finite(-n),
        ExtendedView::Above => ExtendedView::Below,
        ExtendedView::Below => ExtendedView::Above,
        ExtendedView::Undefined => ExtendedView::Undefined,
    }
}

/// How far from nothing, whichever way.
pub open spec fn size(a: ExtendedView) -> ExtendedView {
    if side(a) < 0 {
        opposite(a)
    } else {
        a
    }
}

/// So much, divided by a number.
pub open spec fn divided(a: ExtendedView, by: int) -> AmountView {
    match a {
        ExtendedView::Finite(of) => AmountView::Ratio { of, by },
        ExtendedView::Above => AmountView::Float(Number { bits: INFINITY }),
        ExtendedView::Below => AmountView::Float(Number { bits: NEGATIVE_INFINITY }),
        ExtendedView::Undefined => AmountView::Float(Number { bits: UNDEFINED }),
    }
}

fn side_of(a: &Extended) -> (r: i32)
    ensures
        r == side(a@),
{
    match a {
        Extended::Finite(n) => if n.is_negative() {
            -1
        } else if n.far().is_zero() {
            0
        } else {
            1
        },
        Extended::Above => 1,
        Extended::Below => -1,
        Extended::Undefined => 0,
    }
}

impl Extended {
    /// A number in its smallest steps.
    pub fn of(n: Number) -> (r: Extended)
        ensures
            r@ == in_steps(n),
    {
        if !n.is_comparable() {
            return Extended::Undefined;
        }
        let negative = n.bits >= SIGN;
        if !n.is_finite() {
            return if negative {
                Extended::Below
            } else {
                Extended::Above
            };
        }
        let (significand, scale) = n.parts();
        let far = Natural::of(significand as u128).doubled((scale + 1074) as usize);
        Extended::Finite(
            if negative {
                Whole { gained: Natural::of(0), lost: far }
            } else {
                Whole { gained: far, lost: Natural::of(0) }
            },
        )
    }

    pub fn copy(&self) -> (r: Extended)
        ensures
            r@ == self@,
    {
        match self {
            Extended::Finite(n) => Extended::Finite(n.copy()),
            Extended::Above => Extended::Above,
            Extended::Below => Extended::Below,
            Extended::Undefined => Extended::Undefined,
        }
    }

    pub fn plus(&self, other: &Extended) -> (r: Extended)
        ensures
            r@ == sum(self@, other@),
    {
        match (self, other) {
            (Extended::Undefined, _) => Extended::Undefined,
            (_, Extended::Undefined) => Extended::Undefined,
            (Extended::Finite(x), Extended::Finite(y)) => Extended::Finite(x.plus(y)),
            (Extended::Finite(_), _) => other.copy(),
            (_, Extended::Finite(_)) => self.copy(),
            (Extended::Above, Extended::Above) => Extended::Above,
            (Extended::Below, Extended::Below) => Extended::Below,
            _ => Extended::Undefined,
        }
    }

    pub fn times(&self, other: &Extended) -> (r: Extended)
        ensures
            r@ == product(self@, other@),
    {
        match (self, other) {
            (Extended::Undefined, _) => Extended::Undefined,
            (_, Extended::Undefined) => Extended::Undefined,
            (Extended::Finite(x), Extended::Finite(y)) => Extended::Finite(x.times(y)),
            _ => {
                let a: i32 = side_of(self);
                let b: i32 = side_of(other);
                if a == 0 || b == 0 {
                    Extended::Undefined
                } else if a == b {
                    Extended::Above
                } else {
                    Extended::Below
                }
            },
        }
    }

    pub fn opposite(&self) -> (r: Extended)
        ensures
            r@ == opposite(self@),
    {
        match self {
            Extended::Finite(n) => Extended::Finite(n.opposite()),
            Extended::Above => Extended::Below,
            Extended::Below => Extended::Above,
            Extended::Undefined => Extended::Undefined,
        }
    }

    /// How far from nothing this is.
    pub fn size(&self) -> (r: Extended)
        ensures
            r@ == size(self@),
    {
        if side_of(self) < 0 {
            self.opposite()
        } else {
            self.copy()
        }
    }

    /// So much, divided by a number.
    pub fn over(&self, by: Natural) -> (a: Amount)
        ensures
            a@ == divided(self@, by@ as int),
    {
        match self {
            Extended::Finite(of) => Amount::Ratio { of: of.copy(), by },
            Extended::Above => Amount::Float(Number { bits: INFINITY }),
            Extended::Below => Amount::Float(Number { bits: NEGATIVE_INFINITY }),
            Extended::Undefined => Amount::Float(Number { bits: UNDEFINED }),
        }
    }

    /// Whether this is more than nothing.
    pub fn is_positive(&self) -> (r: bool)
        ensures
            r == (side(self@) > 0),
    {
        side_of(self) > 0
    }
}

} // verus!
