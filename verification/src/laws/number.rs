//! Numbers are what their bits say in IEEE 754, and are told apart by how much they are.

use crate::extended::steps;
use crate::number::Number;
use vstd::arithmetic::power2::{lemma_pow2_pos, lemma_pow2_strictly_increases};
use vstd::arithmetic::power2::{lemma_pow2_unfold, pow2};
use vstd::prelude::*;

verus! {

/// How many of the smallest steps the number with these bits is, but for its sign: as many as
/// the fraction says, or as the fraction and the bit that is left out say, doubled as often as
/// the exponent says.
pub open spec fn told_by_bits(bits: int) -> int {
    let exponent = bits / 0x10_0000_0000_0000;
    let fraction = bits % 0x10_0000_0000_0000;
    if exponent == 0 {
        fraction
    } else {
        (0x10_0000_0000_0000 + fraction) * pow2((exponent - 1) as nat)
    }
}

/// A finite number is what its bits say: without the sign bit so many steps, and with it as many
/// the other way.
pub proof fn law_a_number_is_what_its_bits_say(n: Number)
    requires
        n.finite(),
    ensures
        n.bits < 0x8000_0000_0000_0000 ==> steps(n) == told_by_bits(n.bits as int),
        n.bits >= 0x8000_0000_0000_0000 ==> steps(n) == -told_by_bits(
            n.bits - 0x8000_0000_0000_0000,
        ),
{
    let m = n.magnitude();
    if m < 0x10_0000_0000_0000 {
        assert(m / 0x10_0000_0000_0000 == 0);
        vstd::arithmetic::power2::lemma2_to64();
        assert(n.significand() * 1 == n.significand());
    } else {
        assert(n.scale() + 1074 == m / 0x10_0000_0000_0000 - 1);
    }
}

/// What is not a number is less than none and more than none, and past every finite number lies
/// one end or the other.
pub proof fn law_nothing_is_past_the_ends(n: Number, f: Number)
    requires
        f.finite(),
    ensures
        n.bits % 0x8000_0000_0000_0000 > 0x7ff0_0000_0000_0000 ==> !n.less(f) && !f.less(n)
            && !n.less(n),
        n.bits == 0x7ff0_0000_0000_0000 ==> f.less(n) && !n.less(f),
        n.bits == 0xfff0_0000_0000_0000 ==> n.less(f) && !f.less(n),
{
}

/// More bits are more steps.
proof fn lemma_more(a: int, b: int)
    requires
        0 <= a < b < 0x7ff0_0000_0000_0000,
    ensures
        told_by_bits(a) < told_by_bits(b),
        0 <= told_by_bits(a),
{
    let unit = 0x10_0000_0000_0000int;
    let (e, f) = (a / unit, a % unit);
    let (g, h) = (b / unit, b % unit);
    assert(e <= g);
    assert(e == g ==> f < h);
    if e > 0 {
        lemma_pow2_pos((e - 1) as nat);
        let p = pow2((e - 1) as nat) as int;
        assert((unit + f) * p >= 0) by (nonlinear_arith)
            requires
                p > 0,
                unit + f >= 0,
        ;
    }
    if g > 0 {
        lemma_pow2_pos((g - 1) as nat);
        let q = pow2((g - 1) as nat) as int;
        if e == 0 {
            assert((unit + h) * q >= unit) by (nonlinear_arith)
                requires
                    q >= 1,
                    h >= 0,
                    unit == 0x10_0000_0000_0000,
            ;
        } else {
            let p = pow2((e - 1) as nat) as int;
            if e == g {
                assert((unit + f) * p < (unit + h) * p) by (nonlinear_arith)
                    requires
                        f < h,
                        p > 0,
                ;
            } else {
                lemma_pow2_unfold(e as nat);
                if e < g - 1 {
                    lemma_pow2_strictly_increases(e as nat, (g - 1) as nat);
                }
                assert(q >= 2 * p);
                assert((unit + f) * p < (unit + h) * q) by (nonlinear_arith)
                    requires
                        q >= 2 * p,
                        p > 0,
                        0 <= f < unit,
                        h >= 0,
                ;
            }
        }
    }
}

/// One number is less than another exactly when it is fewer steps, and the same when it is as
/// many; and what is not a number is neither less nor more than anything, nor the same.
pub proof fn law_less_is_fewer_steps(a: Number, b: Number)
    ensures
        a.finite() && b.finite() ==> (a.less(b) <==> steps(a) < steps(b)),
        a.finite() && b.finite() ==> (a.equal(b) <==> steps(a) == steps(b)),
        !a.comparable() || !b.comparable() ==> !a.less(b) && !a.equal(b),
{
    if a.finite() && b.finite() {
        law_a_number_is_what_its_bits_say(a);
        law_a_number_is_what_its_bits_say(b);
        let (m, n) = (a.magnitude(), b.magnitude());
        if m < n {
            lemma_more(m, n);
        }
        if n < m {
            lemma_more(n, m);
        }
        if m > 0 {
            lemma_more(0, m);
        }
        if n > 0 {
            lemma_more(0, n);
        }
        assert(told_by_bits(0) == 0);
    }
}

/// The larger of two numbers is one of them, and neither is more; and so for the smaller.
pub proof fn law_the_larger_is_no_less(a: Number, b: Number)
    requires
        a.finite(),
        b.finite(),
    ensures
        steps(a.larger(b)) >= steps(a) && steps(a.larger(b)) >= steps(b),
        a.larger(b) == a || a.larger(b) == b,
        steps(a.smaller(b)) <= steps(a) && steps(a.smaller(b)) <= steps(b),
        a.smaller(b) == a || a.smaller(b) == b,
        steps(a.opposite()) == -steps(a),
{
    law_less_is_fewer_steps(a, b);
    law_less_is_fewer_steps(b, a);
    law_a_number_is_what_its_bits_say(a);
    law_a_number_is_what_its_bits_say(a.opposite());
}

} // verus!
