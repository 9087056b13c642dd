//! How far a notch moves the brightness.

use crate::collect::backlight::{best, landing, law_no_controller_is_preferred_over_the_one_chosen};
use crate::collect::backlight::{notified_path, preferred, resolved, wanted};
use crate::extended::steps;
use crate::laws::number::law_less_is_fewer_steps;
use crate::number::{nearest, Number};
use crate::text::{has_text, text_before};
use vstd::arithmetic::power2::{lemma_pow2_adds, lemma_pow2_pos, pow2};
use vstd::prelude::*;

verus! {

/// The steps in a one.
pub open spec fn one() -> int {
    pow2(1074) as int
}

/// A hundred times where a notch of so many percent leads, in steps: what there is and that
/// share of the most.
pub open spec fn aimed(current: int, step: Number, max: int) -> int {
    current * 100 * one() + steps(step) * max
}

/// The nearest whole number is no more than half away.
proof fn lemma_nearest(a: int, b: int)
    requires
        0 <= a,
        0 < b,
    ensures
        2 * b * nearest(a, b) <= 2 * a + b < 2 * b * (nearest(a, b) + 1),
{
    let q = (2 * a + b) / (2 * b);
    assert(2 * b * q <= 2 * a + b < 2 * b * (q + 1)) by (nonlinear_arith)
        requires
            q == (2 * a + b) / (2 * b),
            0 < b,
    ;
}

/// Multiplying both sides keeps what is nearest.
proof fn lemma_scaled(a: int, b: int, k: int, r: int)
    requires
        2 * b * r <= 2 * a + b < 2 * b * (r + 1),
        0 < k,
    ensures
        2 * (b * k) * r <= 2 * (a * k) + b * k < 2 * (b * k) * (r + 1),
{
    assert(2 * (b * k) * r == (2 * b * r) * k) by (nonlinear_arith);
    assert(2 * (a * k) + b * k == (2 * a + b) * k) by (nonlinear_arith);
    assert(2 * (b * k) * (r + 1) == (2 * b * (r + 1)) * k) by (nonlinear_arith);
    assert((2 * b * r) * k <= (2 * a + b) * k < (2 * b * (r + 1)) * k) by (nonlinear_arith)
        requires
            2 * b * r <= 2 * a + b < 2 * b * (r + 1),
            0 < k,
    ;
}

/// A notch of so many percent leads to the whole number nearest to that share of the most beyond
/// what there is, and no further than the ends.
pub proof fn law_a_notch_is_a_share_of_the_most(current: u64, step: Number, max: u64)
    requires
        step.finite(),
        max > 0,
    ensures
        ({
            let r = landing(current as int, step, max as int);
            let aim = aimed(current as int, step, max as int);
            &&& 0 <= r <= max
            &&& aim <= 0 ==> r == 0
            &&& aim > 0 && r < max ==> 2 * (100 * one()) * r <= 2 * aim + 100 * one() < 2 * (100
                * one()) * (r + 1)
            &&& aim > 0 && r == max ==> 2 * (100 * one()) * max <= 2 * aim + 100 * one()
        }),
{
    let e = step.scale();
    let up = if e > 0 {
        e as nat
    } else {
        0
    };
    let down = if e < 0 {
        (-e) as nat
    } else {
        0
    };
    let n = step.significand() * max * pow2(up);
    let d = 100 * pow2(down);
    let c = current as int;
    let moved = if step.bits >= 0x8000_0000_0000_0000 {
        c * d - n
    } else {
        c * d + n
    };
    let k = pow2((1074 - down) as nat) as int;
    lemma_pow2_pos((1074 - down) as nat);
    lemma_pow2_pos(down);
    lemma_pow2_pos(1074);
    lemma_pow2_adds(down, (1074 - down) as nat);
    lemma_pow2_adds(up, (1074 - down) as nat);
    let w = one();
    let pd = pow2(down) as int;
    let pu = pow2(up) as int;
    let sig = step.significand() as int;
    let m = max as int;
    assert(pd * k == w);
    assert(d * k == 100 * w) by (nonlinear_arith)
        requires
            d == 100 * pd,
            pd * k == w,
    ;
    let size = sig * pow2((e + 1074) as nat);
    assert(pu * k == pow2((e + 1074) as nat)) by {
        assert(up + (1074 - down) == e + 1074);
    }
    assert(n * k == size * m) by (nonlinear_arith)
        requires
            n == sig * m * pu,
            size == sig * (pu * k),
    ;
    assert(c * d * k == c * 100 * w) by (nonlinear_arith)
        requires
            d * k == 100 * w,
    ;
    let aim = aimed(c, step, m);
    if step.bits >= 0x8000_0000_0000_0000 {
        assert(steps(step) == -size);
        assert((c * d - n) * k == c * d * k - n * k) by (nonlinear_arith);
        assert((-size) * m == -(size * m)) by (nonlinear_arith);
    } else {
        assert(steps(step) == size);
        assert((c * d + n) * k == c * d * k + n * k) by (nonlinear_arith);
    }
    assert(moved * k == aim);
    assert(moved <= 0 <==> aim <= 0) by (nonlinear_arith)
        requires
            moved * k == aim,
            k > 0,
    ;
    if moved > 0 {
        lemma_nearest(moved, d as int);
        let near = nearest(moved, d as int);
        lemma_scaled(moved, d as int, k, near);
        assert(near >= 0) by (nonlinear_arith)
            requires
                2 * (d as int) * (near + 1) > 2 * moved + d,
                moved > 0,
                d > 0,
        ;
        if near > max {
            assert(2 * (100 * w) * m <= 2 * (100 * w) * near) by (nonlinear_arith)
                requires
                    m < near,
                    w > 0,
            ;
        }
    }
}

/// A notch always moves, unless there is no further to go: where the nearest is what there is
/// already, it is one more for a notch up and one less for a notch down.
pub proof fn law_a_notch_always_moves(current: u64, step: Number, max: u64)
    requires
        step.finite(),
        max > 0,
        current <= max,
    ensures
        ({
            let near = landing(current as int, step, max as int);
            let after = wanted(current, step, max);
            &&& near != current ==> after == near
            &&& near == current && steps(step) > 0 ==> after == (if current < max {
                current + 1
            } else {
                max as int
            })
            &&& near == current && steps(step) <= 0 ==> after == (if current > 0 {
                current - 1
            } else {
                0
            })
        }),
{
    let nothing = Number { bits: 0 };
    law_less_is_fewer_steps(nothing, step);
    law_a_notch_is_a_share_of_the_most(current, step, max);
    vstd::arithmetic::power2::lemma2_to64();
    assert(nothing.significand() == 0 && nothing.scale() == -1074);
    assert(0 * pow2(0) == 0);
    assert(steps(nothing) == 0);
}

/// A keyboard's light is not the screen's: any other controller is chosen before it, and of two
/// alike the one whose name comes first.
pub proof fn law_the_screen_is_chosen_before_a_keyboard(names: Seq<Seq<char>>, i: int)
    requires
        0 <= i < names.len(),
        !has_text(names[i], "kbd"@),
    ensures
        best(names, names.len() as int) matches Some(at) && 0 <= at < names.len() && !has_text(
            names[at],
            "kbd"@,
        ) && !text_before(names[i], names[at]),
{
    law_no_controller_is_preferred_over_the_one_chosen(names, names.len() as int);
    let at = best(names, names.len() as int)->0;
    assert(!preferred(names[i], names[at]));
}

/// The controller that was chosen stays as long as it is there, and another is chosen once it is
/// gone.
pub proof fn law_a_controller_stays_while_it_is_there(device: Seq<char>, names: Seq<Seq<char>>)
    ensures
        names.contains(device) ==> resolved(Some(device), names) == Some(device),
        !names.contains(device) ==> resolved(Some(device), names) == resolved(None, names),
        names.len() == 0 ==> resolved(None, names) is None,
        names.len() > 0 ==> (resolved(None, names) matches Some(name) && names.contains(name)),
{
    if names.len() > 0 {
        law_no_controller_is_preferred_over_the_one_chosen(names, names.len() as int);
        let at = best(names, names.len() as int)->0;
        assert(names.contains(names[at]));
    }
}

/// What is watched of a controller is how bright it is, in its own directory.
pub proof fn law_a_controller_is_watched_in_its_own_directory(class: Seq<char>, name: Seq<char>)
    ensures
        notified_path(class, name) == class + seq!['/'] + name + "/actual_brightness"@,
{
    reveal_strlit("/");
    assert("/"@ =~= seq!['/']);
}

} // verus!
