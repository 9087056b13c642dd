//! Display brightness, from `/sys/class/backlight`.

use crate::collect::unread::{because, read, Cause, Unread, UnreadView};
use crate::number::{nearest, Number, FRACTION, SIGN, ZERO};
use crate::status::{about, no_fields, specs_view, with, Amount, AmountView, FieldSpec, FieldView};
use crate::status::{Fields, Kind, Reading, ReadingView, State, Unit, Value, ValueView};
use crate::text::{comes_before, contains, has_text, natural, opt_view, owned, parse_u64, same};
use crate::text::text_before;
use crate::text::{lemma_text_order, texts, trim, trimmed};
use vstd::arithmetic::div_mod::lemma_hoist_over_denominator;
use vstd::arithmetic::power2::{lemma2_to64, lemma2_to64_rest, lemma_pow2_adds};
use vstd::arithmetic::power2::{lemma_pow2_pos, lemma_pow2_strictly_increases};
use vstd::arithmetic::power2::{lemma_pow2_unfold, pow2};
use vstd::prelude::*;
use vstd::string::*;

verus! {

/// What this source publishes.
pub open spec fn published() -> Seq<FieldView> {
    seq![
        FieldView { name: "brightness"@, kind: Kind::Num(Unit::Percent) },
        FieldView { name: "device"@, kind: Kind::Text },
    ]
}

/// What this source publishes.
pub fn fields() -> (r: Vec<FieldSpec>)
    ensures
        specs_view(r@) == published(),
{
    let r = vec![
        FieldSpec::new("brightness", Kind::Num(Unit::Percent)),
        FieldSpec::new("device", Kind::Text),
    ];
    assert(specs_view(r@) =~= published());
    r
}

/// Whether one controller is preferred over another: a keyboard backlight is a backlight, but
/// it is not what the bar is about, and everything else goes by name.
pub open spec fn preferred(a: Seq<char>, b: Seq<char>) -> bool {
    let keyboard_a = has_text(a, "kbd"@);
    let keyboard_b = has_text(b, "kbd"@);
    (!keyboard_a && keyboard_b) || (keyboard_a == keyboard_b && text_before(a, b))
}

fn prefers(a: &str, b: &str) -> (r: bool)
    ensures
        r == preferred(a@, b@),
{
    let keyboard_a = contains(a, "kbd");
    let keyboard_b = contains(b, "kbd");
    (!keyboard_a && keyboard_b) || (keyboard_a == keyboard_b && comes_before(a, b))
}

/// The controller to read among the first `upto` of these.
pub open spec fn best(names: Seq<Seq<char>>, upto: int) -> Option<int>
    decreases upto,
{
    if upto <= 0 || upto > names.len() {
        None
    } else {
        match best(names, upto - 1) {
            None => Some(upto - 1),
            Some(i) => if preferred(names[upto - 1], names[i]) {
                Some(upto - 1)
            } else {
                Some(i)
            },
        }
    }
}

/// Choose a controller among these, by name. A machine with no backlight has none, which is an
/// answer rather than a failure.
pub fn pick(names: &Vec<String>) -> (r: Option<usize>)
    ensures
        match r {
            Some(i) => best(texts(names@), names@.len() as int) == Some(i as int) && i
                < names@.len(),
            None => names@.len() == 0,
        },
{
    let ghost all = texts(names@);
    let mut chosen: Option<usize> = None;
    for i in 0..names.len()
        invariant
            all == texts(names@),
            match chosen {
                Some(k) => best(all, i as int) == Some(k as int) && k < i,
                None => i == 0,
            },
    {
        assert(all[i as int] == names@[i as int]@);
        chosen = match chosen {
            None => Some(i),
            Some(k) => {
                assert(all[k as int] == names@[k as int]@);
                if prefers(names[i].as_str(), names[k].as_str()) {
                    Some(i)
                } else {
                    Some(k)
                }
            },
        };
    }
    chosen
}

/// The choice does not depend on the order controllers are listed in: no other one is
/// preferred over it.
pub proof fn law_no_controller_is_preferred_over_the_one_chosen(names: Seq<Seq<char>>, upto: int)
    requires
        0 <= upto <= names.len(),
    ensures
        match best(names, upto) {
            None => upto == 0,
            Some(i) => 0 <= i < upto && forall|j: int|
                0 <= j < upto ==> !preferred(#[trigger] names[j], names[i]),
        },
    decreases upto,
{
    if upto > 0 {
        law_no_controller_is_preferred_over_the_one_chosen(names, upto - 1);
        let now = best(names, upto)->0;
        assert forall|j: int| 0 <= j < upto implies !preferred(#[trigger] names[j], names[now]) by {
            lemma_text_order(names[j], names[now], names[upto - 1]);
            lemma_text_order(names[now], names[now], names[now]);
            if best(names, upto - 1) is Some {
                let i = best(names, upto - 1)->0;
                lemma_text_order(names[j], names[now], names[i]);
                lemma_text_order(names[now], names[i], names[j]);
                lemma_text_order(names[now], names[j], names[i]);
            }
        }
    }
}

/// A number the kernel writes in a file, with the file it is in.
pub open spec fn number_in(text: Seq<char>, file: Seq<char>) -> Result<u64, UnreadView> {
    match natural(trimmed(text), u64::MAX as nat) {
        Some(n) => Ok(n as u64),
        None => Err(because(Cause::NotANumber, file)),
    }
}

fn number(text: &str, file: &str) -> (r: Result<u64, Unread>)
    ensures
        match r {
            Ok(n) => number_in(text@, file@) == Ok::<u64, UnreadView>(n),
            Err(e) => number_in(text@, file@) == Err::<u64, UnreadView>(e@),
        },
{
    match parse_u64(trim(text).as_str()) {
        Some(n) => Ok(n),
        None => Err(Unread::new(Cause::NotANumber, file)),
    }
}

/// What the files of a controller hold.
#[derive(Debug)]
pub struct Controller {
    pub name: String,
    pub brightness: String,
    pub max_brightness: String,
}

/// A controller's brightness as a share of what it can do. The raw numbers mean nothing on
/// their own: one panel counts to 255, another to 96000.
pub open spec fn share_of(c: Controller) -> Result<ValueView, UnreadView> {
    match number_in(c.brightness@, "brightness"@) {
        Err(e) => Err(e),
        Ok(current) => match number_in(c.max_brightness@, "max_brightness"@) {
            Err(e) => Err(e),
            Ok(max) => if max == 0 {
                Err(because(Cause::ZeroMaximum, c.name@))
            } else {
                Ok(
                    ValueView::Num {
                        v: AmountView::Share {
                            part: if current < max {
                                current as int
                            } else {
                                max as int
                            },
                            whole: max as int,
                        },
                        unit: Unit::Percent,
                    },
                )
            },
        },
    }
}

fn share(c: &Controller) -> (r: Result<Value, Unread>)
    ensures
        read(r) == share_of(*c),
{
    let current = number(c.brightness.as_str(), "brightness")?;
    let max = number(c.max_brightness.as_str(), "max_brightness")?;
    if max == 0 {
        return Err(Unread::new(Cause::ZeroMaximum, c.name.as_str()));
    }
    let part: u64 = if current < max {
        current
    } else {
        max
    };
    Ok(
        Value::Num {
            v: Amount::share(part as u128, max as u128),
            unit: Unit::Percent,
        },
    )
}

/// What is shown of a controller's brightness.
pub open spec fn shown(brightness: ValueView, device: ValueView) -> ReadingView {
    let f = with(no_fields(), "brightness"@, brightness);
    let f = with(f, "device"@, device);
    ReadingView { fields: about(f, "brightness"@), state: State::Idle }
}

/// The brightness of the display.
#[derive(Debug)]
pub struct Backlight {
    /// The controller being read. Resolved on the first tick rather than at start-up, so a
    /// display connected later is still found.
    pub device: Option<String>,
}

/// The controller to read: the last one while it is still there, and otherwise one chosen
/// again.
pub open spec fn resolved(device: Option<Seq<char>>, names: Seq<Seq<char>>) -> Option<Seq<char>> {
    match device {
        Some(d) => if names.contains(d) {
            Some(d)
        } else {
            match best(names, names.len() as int) {
                Some(i) => Some(names[i]),
                None => None,
            }
        },
        None => match best(names, names.len() as int) {
            Some(i) => Some(names[i]),
            None => None,
        },
    }
}

impl Backlight {
    pub fn new() -> (b: Backlight)
        ensures
            b.device is None,
    {
        Backlight { device: None }
    }

    /// The controller to read among these, choosing one again if the last has gone away.
    pub fn resolve(&mut self, names: &Vec<String>) -> (r: Option<String>)
        ensures
            opt_view(r) == resolved(
                opt_view(old(self).device),
                texts(names@),
            ),
            opt_view(final(self).device) == opt_view(r),
    {
        let ghost all = texts(names@);
        if let Some(d) = &self.device {
            for i in 0..names.len()
                invariant
                    all == texts(names@),
                    *self == *old(self),
                    self.device == Some(*d),
                    forall|j: int| 0 <= j < i ==> #[trigger] all[j] != d@,
            {
                assert(all[i as int] == names@[i as int]@);
                if same(names[i].as_str(), d.as_str()) {
                    return Some(d.clone());
                }
            }
        }
        match pick(names) {
            Some(i) => {
                assert(all[i as int] == names@[i as int]@);
                self.device = Some(names[i].clone());
                Some(names[i].clone())
            },
            None => {
                self.device = None;
                None
            },
        }
    }

    /// What the controller that was resolved says, as a reading. A machine with no backlight is
    /// ordinary, not broken: the fields have nothing to report.
    pub fn read(&self, controller: Option<&Controller>) -> (r: Result<Reading, Unread>)
        ensures
            read(r) == match controller {
                None => Ok(shown(ValueView::Absent, ValueView::Absent)),
                Some(c) => match share_of(*c) {
                    Ok(v) => Ok(shown(v, ValueView::Text(c.name@))),
                    Err(e) => Err(e),
                },
            },
    {
        let (brightness, device) = match controller {
            None => (Value::Absent, Value::Absent),
            Some(c) => (share(c)?, Value::Text(c.name.clone())),
        };
        let mut fields = Fields::new();
        fields.set("brightness", brightness);
        fields.set("device", device);
        fields.set_primary("brightness");
        Ok(Reading { fields, state: State::Idle })
    }
}

/// Where moving by so many hundredths of the whole range lands, on the nearest number there is
/// and no further than either end.
///
/// The step is a finite number's significand times two to the power of its scale. What is not a
/// number lands on nothing, and what is infinite at an end.
pub open spec fn landing(current: int, step: Number, max: int) -> int {
    if !step.comparable() {
        0
    } else if !step.finite() {
        if step.bits >= SIGN {
            0
        } else {
            max
        }
    } else {
        let e = step.scale();
        let n = step.significand() * max * pow2(
            if e > 0 {
                e as nat
            } else {
                0
            },
        );
        let d = 100 * pow2(
            if e < 0 {
                (-e) as nat
            } else {
                0
            },
        );
        let moved = if step.bits >= SIGN {
            current * d - n
        } else {
            current * d + n
        };
        if moved <= 0 {
            0
        } else if nearest(moved, d as int) > max {
            max
        } else {
            nearest(moved, d as int)
        }
    }
}

proof fn lemma_up(current: int, n: int, d: int)
    requires
        d > 0,
    ensures
        nearest(current * d + n, d) == current + (2 * n + d) / (2 * d),
{
    lemma_hoist_over_denominator(2 * n + d, current, (2 * d) as nat);
    assert(current * (2 * d) == 2 * (current * d)) by (nonlinear_arith);
}

proof fn lemma_down(current: int, n: int, d: int)
    requires
        d > 0,
    ensures
        nearest(current * d - n, d) == current - (2 * n + d - 1) / (2 * d),
{
    let q = (2 * n + d - 1) / (2 * d);
    let r = (2 * n + d - 1) % (2 * d);
    let cut = (d - 2 * n) / (2 * d);
    assert(cut == -q) by (nonlinear_arith)
        requires
            d > 0,
            cut == (d - 2 * n) / (2 * d),
            q == (2 * n + d - 1) / (2 * d),
    ;
    lemma_hoist_over_denominator(d - 2 * n, current, (2 * d) as nat);
    assert(current * (2 * d) == 2 * (current * d)) by (nonlinear_arith);
}

proof fn lemma_down_to_nothing(current: int, n: int, d: int)
    requires
        d > 0,
        current * d - n <= 0,
    ensures
        (2 * n + d - 1) / (2 * d) >= current,
{
    assert((2 * n + d - 1) / (2 * d) >= current) by (nonlinear_arith)
        requires
            d > 0,
            current * d - n <= 0,
    ;
}

proof fn lemma_nearest_is_something(moved: int, d: int)
    requires
        d > 0,
        moved > 0,
    ensures
        nearest(moved, d) >= 0,
{
    assert((2 * moved + d) / (2 * d) >= 0) by (nonlinear_arith)
        requires
            d > 0,
            moved > 0,
    ;
}

/// Two to a power that leaves room for what it is multiplied with.
fn power(k: u32) -> (r: u128)
    requires
        k <= 112,
    ensures
        r == pow2(k as nat),
        0 < r <= 0x1_0000_0000_0000_0000_0000_0000_0000,
{
    let mut r: u128 = 1;
    proof {
        lemma2_to64();
        lemma_power_most();
    }
    for i in 0..k
        invariant
            k <= 112,
            r == pow2(i as nat),
            pow2(112) == 0x1_0000_0000_0000_0000_0000_0000_0000,
    {
        proof {
            lemma_pow2_unfold((i + 1) as nat);
            if i + 1 < 112 {
                lemma_pow2_strictly_increases((i + 1) as nat, 112);
            }
        }
        r = 2 * r;
    }
    proof {
        lemma_pow2_pos(k as nat);
        if k < 112 {
            lemma_pow2_strictly_increases(k as nat, 112);
        }
    }
    r
}

proof fn lemma_power_most()
    ensures
        pow2(112) == 0x1_0000_0000_0000_0000_0000_0000_0000,
        pow2(52) == FRACTION,
        pow2(20) == 0x10_0000,
{
    lemma2_to64();
    lemma2_to64_rest();
    lemma_pow2_adds(56, 56);
    assert(0x100_0000_0000_0000 * 0x100_0000_0000_0000
        == 0x1_0000_0000_0000_0000_0000_0000_0000int);
}

/// Where a step that is a part of one lands.
fn landed_near(current: u64, n: u128, k: u32, max: u64, down: bool) -> (r: u64)
    requires
        n < 0x20_0000_0000_0000_0000_0000_0000_0000,
        1 <= k <= 1074,
    ensures
        ({
            let d = 100 * pow2(k as nat);
            let moved = if down {
                current * d - n
            } else {
                current * d + n
            };
            r == if moved <= 0 {
                0
            } else if nearest(moved, d as int) > max {
                max as int
            } else {
                nearest(moved, d as int)
            }
        }),
{
    let ghost d = 100 * pow2(k as nat);
    proof {
        lemma_pow2_pos(k as nat);
        lemma_power_most();
    }
    let q: u128 = if k > 112 {
        proof {
            lemma_pow2_strictly_increases(112, k as nat);
            let n = n as int;
            assert((2 * n + d) / (2 * d as int) == 0 && (2 * n + d - 1) / (2 * d as int) == 0)
                by (nonlinear_arith)
                requires
                    0 <= 2 * n < d,
            ;
        }
        0
    } else {
        let d: u128 = 100 * power(k);
        if down {
            (2 * n + d - 1) / (2 * d)
        } else {
            (2 * n + d) / (2 * d)
        }
    };
    proof {
        let n = n as int;
        lemma_up(current as int, n, d as int);
        lemma_down(current as int, n, d as int);
        if current * d - n <= 0 {
            lemma_down_to_nothing(current as int, n, d as int);
        } else {
            lemma_nearest_is_something(current * d - n, d as int);
        }
        assert(current * d >= 0) by (nonlinear_arith)
            requires
                current >= 0,
                d > 0,
        ;
        assert(0 <= (2 * n + d) / (2 * d as int) <= n + 1) by (nonlinear_arith)
            requires
                0 <= n,
                d > 0,
        ;
        if current * d + n <= 0 {
            assert(current == 0 && n == 0) by (nonlinear_arith)
                requires
                    current * d + n <= 0,
                    current >= 0,
                    n >= 0,
                    d > 0,
            ;
            assert((2 * n + d) / (2 * d as int) == 0) by (nonlinear_arith)
                requires
                    n == 0,
                    d > 0,
            ;
        }
    }
    if down {
        if q >= current as u128 {
            0
        } else {
            let left: u64 = current - q as u64;
            if left > max {
                max
            } else {
                left
            }
        }
    } else {
        let reached: u128 = current as u128 + q;
        if reached > max as u128 {
            max
        } else {
            reached as u64
        }
    }
}

/// Where a step of many whole ranges down lands.
fn landed_far(current: u64, significand: u64, e: u32, max: u64) -> (r: u64)
    requires
        FRACTION <= significand < 2 * FRACTION,
        max > 0,
        e <= 971,
    ensures
        ({
            let moved = current * 100 - significand * max * pow2(e as nat);
            r == if moved <= 0 {
                0
            } else if nearest(moved, 100) > max {
                max as int
            } else {
                nearest(moved, 100)
            }
        }),
{
    let ghost p = pow2(e as nat) as int;
    proof {
        lemma_pow2_pos(e as nat);
        lemma_power_most();
    }
    if e >= 20 {
        proof {
            if e > 20 {
                lemma_pow2_strictly_increases(20, e as nat);
            }
            assert(significand * max * p >= FRACTION * 0x10_0000) by (nonlinear_arith)
                requires
                    significand >= FRACTION,
                    max >= 1,
                    p >= 0x10_0000,
            ;
        }
        return 0;
    }
    proof {
        lemma_pow2_strictly_increases(e as nat, 20);
    }
    let times: u128 = power(e);
    assert(significand * times <= 2 * FRACTION * 0x10_0000) by (nonlinear_arith)
        requires
            significand <= 2 * FRACTION,
            times <= 0x10_0000,
    ;
    let whole: u128 = significand as u128 * times;
    assert(significand * max * p == whole * max) by (nonlinear_arith)
        requires
            whole == significand * p,
    ;
    match whole.checked_mul(max as u128) {
        None => 0,
        Some(n) => {
            let all: u128 = current as u128 * 100;
            if n >= all {
                return 0;
            }
            let moved: u128 = all - n;
            let near: u128 = (2 * moved + 100) / 200;
            if near > max as u128 {
                max
            } else {
                near as u64
            }
        },
    }
}

/// Where moving by so many hundredths of the whole range lands.
fn landed(current: u64, step: Number, max: u64) -> (r: u64)
    requires
        max > 0,
    ensures
        r == landing(current as int, step, max as int),
        r <= max,
{
    if !step.is_comparable() {
        return 0;
    }
    let down = step.bits >= SIGN;
    if !step.is_finite() {
        return if down {
            0
        } else {
            max
        };
    }
    let (significand, e) = step.parts();
    proof {
        lemma2_to64();
        let one = significand as int;
        assert(0 <= one * max < 2 * FRACTION * 0x1_0000_0000_0000_0000) by (nonlinear_arith)
            requires
                0 <= one < 2 * FRACTION,
                0 < max < 0x1_0000_0000_0000_0000,
        ;
        assert(one * max * 1 == one * max) by (nonlinear_arith);
    }
    if e < 0 {
        landed_near(current, significand as u128 * max as u128, (-e) as u32, max, down)
    } else if down {
        landed_far(current, significand, e as u32, max)
    } else {
        proof {
            let p = pow2(e as nat) as int;
            lemma_pow2_pos(e as nat);
            let n = significand * max * p;
            assert(n >= 100 * max) by (nonlinear_arith)
                requires
                    n == significand * max * p,
                    significand >= 100,
                    max >= 1,
                    p >= 1,
            ;
            let moved = current * 100 + n;
            let d: int = 100;
            assert((2 * moved + d) / (2 * d) >= max) by (nonlinear_arith)
                requires
                    moved >= 100 * max,
                    d == 100,
            ;
        }
        max
    }
}

/// The brightness to write, where a scroll lands on `landed` of a range up to `max`. A step too
/// small to land on a new number still moves: a scroll that does nothing is a broken scroll.
pub open spec fn nudged(current: u64, landed: u64, max: u64, up: bool) -> u64 {
    if landed != current {
        landed
    } else if up {
        if current < max {
            (current + 1) as u64
        } else {
            max
        }
    } else if current > 0 {
        (current - 1) as u64
    } else {
        0
    }
}

/// The brightness to write after a scroll.
pub open spec fn wanted(current: u64, step: Number, max: u64) -> u64 {
    nudged(
        current,
        landing(current as int, step, max as int) as u64,
        max,
        Number { bits: ZERO }.less(step),
    )
}

/// The brightness to write to a controller to move it by so many hundredths of its whole range,
/// or nothing where it is already what it would be.
///
/// A share of the range rather than of the current value: a step that shrinks as the panel
/// darkens takes ever smaller bites and never arrives at either end.
pub fn adjust(controller: Option<&Controller>, step: Number) -> (r: Result<Option<u64>, Unread>)
    ensures
        match controller {
            None => r matches Err(e) && e@ == because(Cause::NoController, Seq::empty()),
            Some(c) => match number_in(c.max_brightness@, "max_brightness"@) {
                Err(why) => r matches Err(e) && e@ == why,
                Ok(max) => match number_in(c.brightness@, "brightness"@) {
                    Err(why) => r matches Err(e) && e@ == why,
                    Ok(current) => if max == 0 {
                        r matches Err(e) && e@ == because(Cause::ZeroMaximum, c.name@)
                    } else if wanted(current, step, max) == current {
                        r == Ok::<Option<u64>, Unread>(None)
                    } else {
                        r == Ok::<Option<u64>, Unread>(Some(wanted(current, step, max)))
                    },
                },
            },
        },
{
    let c = match controller {
        None => return Err(Unread::plainly(Cause::NoController)),
        Some(c) => c,
    };
    let max: u64 = match number(c.max_brightness.as_str(), "max_brightness") {
        Ok(n) => n,
        Err(e) => return Err(e),
    };
    let current: u64 = match number(c.brightness.as_str(), "brightness") {
        Ok(n) => n,
        Err(e) => return Err(e),
    };
    if max == 0 {
        return Err(Unread::new(Cause::ZeroMaximum, c.name.as_str()));
    }
    let up = Number { bits: ZERO }.lt(step);
    let landed: u64 = landed(current, step, max);
    let wanted: u64 = if landed != current {
        landed
    } else if up {
        if current < max {
            current + 1
        } else {
            max
        }
    } else if current > 0 {
        current - 1
    } else {
        0
    };
    if wanted == current {
        Ok(None)
    } else {
        Ok(Some(wanted))
    }
}

proof fn lemma_landing(current: int, step: Number, max: int)
    requires
        0 <= current <= max,
        step.comparable(),
    ensures
        0 <= landing(current, step, max) <= max,
        step.bits < SIGN ==> landing(current, step, max) >= current,
        step.bits >= SIGN ==> landing(current, step, max) <= current,
{
    if step.finite() {
        let e = step.scale();
        let p = pow2(
            if e > 0 {
                e as nat
            } else {
                0
            },
        ) as int;
        let q = pow2(
            if e < 0 {
                (-e) as nat
            } else {
                0
            },
        ) as int;
        lemma_pow2_pos(
            if e > 0 {
                e as nat
            } else {
                0
            },
        );
        lemma_pow2_pos(
            if e < 0 {
                (-e) as nat
            } else {
                0
            },
        );
        let n = step.significand() * max * p;
        let d = 100 * q;
        let s = step.significand();
        assert(n >= 0) by (nonlinear_arith)
            requires
                s >= 0,
                max >= 0,
                p >= 0,
                n == s * max * p,
        ;
        lemma_up(current, n, d);
        lemma_down(current, n, d);
        assert((2 * n + d) / (2 * d) >= 0 && (2 * n + d - 1) / (2 * d) >= 0) by (nonlinear_arith)
            requires
                n >= 0,
                d > 0,
        ;
        if current * d - n > 0 {
            lemma_nearest_is_something(current * d - n, d);
        }
        if current * d + n > 0 {
            lemma_nearest_is_something(current * d + n, d);
        } else {
            assert(current == 0) by (nonlinear_arith)
                requires
                    current * d + n <= 0,
                    current >= 0,
                    n >= 0,
                    d > 0,
            ;
        }
    }
}

/// A scroll always moves, the way it is turned, until it is at an end, and never past one.
pub proof fn law_a_scroll_moves_until_the_end(current: u64, step: Number, max: u64)
    requires
        current <= max,
        step.comparable(),
        step.rank() != 0,
    ensures
        wanted(current, step, max) <= max,
        step.rank() > 0 && current < max ==> wanted(current, step, max) > current,
        step.rank() < 0 && current > 0 ==> wanted(current, step, max) < current,
        step.rank() > 0 && current == max ==> wanted(current, step, max) == max,
        step.rank() < 0 && current == 0 ==> wanted(current, step, max) == 0,
{
    lemma_landing(current as int, step, max as int);
}

/// The file the kernel notifies on when the brightness of a controller changes: what the panel
/// is doing, rather than what was last asked for.
pub open spec fn notified_path(class: Seq<char>, name: Seq<char>) -> Seq<char> {
    class + "/"@ + name + "/actual_brightness"@
}

/// The file the kernel notifies on, of the controller chosen among these, in the directory the
/// kernel lists them in.
pub fn watch_path(class: &str, names: &Vec<String>) -> (r: Option<String>)
    ensures
        match r {
            Some(path) => names@.len() > 0 && path@ == notified_path(
                class@,
                texts(names@)[best(texts(names@), names@.len() as int)->0],
            ),
            None => names@.len() == 0,
        },
{
    match pick(names) {
        None => None,
        Some(i) => {
            assert(texts(names@)[i as int] == names@[i as int]@);
            Some(
                owned(class).concat("/").concat(names[i].as_str()).concat("/actual_brightness"),
            )
        },
    }
}

} // verus!
