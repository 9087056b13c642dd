//! Lengths of time, written the way a person would: "500ms", "2s", "1m", "1h".

use crate::config::refusal::{about, Slip, SlipView, Why};
use crate::text::{all_digits, chars_of, digit, digit_value, digits_value, is_digit, parted, piece};
use crate::text::{same, split_once, trim, trimmed};
use crate::time::Duration;
use vstd::arithmetic::div_mod::{lemma_div_denominator, lemma_hoist_over_denominator};
use vstd::arithmetic::power::{lemma_pow0, lemma_pow1, lemma_pow_adds, lemma_pow_positive, pow};
use vstd::prelude::*;

verus! {

/// The nanoseconds in a year, which is the longest interval a source may be given.
///
/// A deadline is a point in time plus the wait, and a wait that fails is doubled several times
/// over. A year is already far longer than anything a bar is waiting for, and a year doubled
/// that often is still nowhere near the end of the range.
pub const YEAR: u128 = 31_536_000_000_000_000;

/// The nanoseconds in a millisecond, which is the shortest interval a source may be given.
pub const MILLISECOND: u128 = 1_000_000;

/// The length of the run of digits and points a text starts with.
pub open spec fn number_len(s: Seq<char>) -> nat
    decreases s.len(),
{
    if s.len() == 0 || !(is_digit(s[0]) || s[0] == '.') {
        0
    } else {
        1 + number_len(s.drop_first())
    }
}

/// What stands before and after the point of a number, where there is a digit in it and no
/// more than one point.
pub open spec fn number_parts(s: Seq<char>) -> Option<(Seq<char>, Seq<char>)> {
    let parts = match parted(s, '.') {
        Some(both) => both,
        None => (s, Seq::empty()),
    };
    if all_digits(parts.0) && all_digits(parts.1) && parts.0.len() + parts.1.len() > 0 {
        Some(parts)
    } else {
        None
    }
}

/// The nanoseconds in one of a unit.
pub open spec fn unit_nanos(unit: Seq<char>) -> Option<int> {
    if unit == "ms"@ {
        Some(1_000_000)
    } else if unit == "s"@ {
        Some(1_000_000_000)
    } else if unit == "m"@ {
        Some(60_000_000_000)
    } else if unit == "h"@ {
        Some(3_600_000_000_000)
    } else {
        None
    }
}

/// So many of a unit, counted in half nanoseconds and rounded down.
pub open spec fn half_nanos(whole: Seq<char>, fraction: Seq<char>, unit: int) -> int {
    (2 * unit * digits_value(whole + fraction)) / pow(10, fraction.len())
}

/// The length of time a text writes: a decimal number and a unit, from a millisecond to a
/// year, rounded to the nearest nanosecond.
///
/// A bare number is refused. `interval = 2` reads as two of something, and which something is
/// exactly the thing worth being explicit about.
pub open spec fn written_duration(written: Seq<char>) -> Result<Duration, SlipView> {
    let text = trimmed(written);
    let n = number_len(text) as int;
    let unit = trimmed(text.skip(n));
    if n >= text.len() {
        Err(about(Why::NeedsUnit, text))
    } else {
        match number_parts(text.take(n)) {
            None => Err(about(Why::NotANumber, text.take(n))),
            Some((whole, fraction)) => if digits_value(whole + fraction) == 0 {
                Err(about(Why::NotPositive, text))
            } else {
                match unit_nanos(unit) {
                    None => Err(about(Why::UnknownUnit, unit)),
                    Some(nanos) => {
                        let halves = half_nanos(whole, fraction, nanos);
                        if halves < 2 * MILLISECOND {
                            Err(about(Why::TooShort, text))
                        } else if halves > 2 * YEAR {
                            Err(about(Why::TooLong, text))
                        } else {
                            Ok(Duration { nanos: ((halves + 1) / 2) as u128 })
                        }
                    },
                }
            },
        }
    }
}

proof fn lemma_number_len(s: Seq<char>, n: int)
    requires
        0 <= n <= s.len(),
        forall|i: int| 0 <= i < n ==> is_digit(#[trigger] s[i]) || s[i] == '.',
        n == s.len() || !(is_digit(s[n]) || s[n] == '.'),
    ensures
        number_len(s) == n,
    decreases s.len(),
{
    if n > 0 {
        let t = s.drop_first();
        assert forall|i: int| 0 <= i < n - 1 implies is_digit(#[trigger] t[i]) || t[i] == '.' by {
            assert(t[i] == s[i + 1]);
        }
        assert(is_digit(s[0]) || s[0] == '.');
        lemma_number_len(t, n - 1);
    }
}

/// A run of digits parts into the number before some place in it and the number after.
proof fn lemma_digits_part(a: Seq<char>, b: Seq<char>)
    ensures
        digits_value(a + b) == digits_value(a) * pow(10, b.len()) + digits_value(b),
    decreases b.len(),
{
    if b.len() == 0 {
        assert(a + b =~= a);
        lemma_pow0(10);
        assert(digits_value(a) * 1 == digits_value(a));
    } else {
        let shorter = b.drop_last();
        lemma_digits_part(a, shorter);
        assert((a + b).drop_last() =~= a + shorter);
        lemma_pow_adds(10, shorter.len(), 1);
        lemma_pow1(10);
        let p = pow(10, shorter.len());
        let x = digits_value(a) as int;
        let y = digits_value(shorter) as int;
        assert((x * p + y) * 10 == x * (p * 10) + y * 10) by (nonlinear_arith);
    }
}

/// The fraction of so many halves a run of digits after the point is worth, taken from its
/// last digit to its first.
spec fn share(fraction: Seq<char>, halves: int) -> int
    decreases fraction.len(),
{
    if fraction.len() == 0 {
        0
    } else {
        (digit_value(fraction[0]) * halves + share(fraction.drop_first(), halves)) / 10
    }
}

proof fn lemma_share(fraction: Seq<char>, halves: int)
    requires
        halves >= 0,
    ensures
        share(fraction, halves) == (halves * digits_value(fraction)) / pow(10, fraction.len()),
    decreases fraction.len(),
{
    if fraction.len() == 0 {
        lemma_pow0(10);
        assert(halves * 0 == 0);
    } else {
        let rest = fraction.drop_first();
        let first = seq![fraction[0]];
        lemma_share(rest, halves);
        assert(fraction =~= first + rest);
        lemma_digits_part(first, rest);
        let d = digit_value(fraction[0]) as int;
        assert(first.drop_last() =~= Seq::<char>::empty());
        assert(digits_value(first.drop_last()) == 0);
        assert(first.last() == fraction[0]);
        assert(digits_value(first) == d);
        let p = pow(10, rest.len());
        let v = digits_value(rest) as int;
        lemma_pow_positive(10, rest.len());
        lemma_pow_adds(10, rest.len(), 1);
        lemma_pow1(10);
        let x = halves * v;
        assert(x >= 0) by (nonlinear_arith)
            requires
                x == halves * v,
                halves >= 0,
                v >= 0,
        ;
        lemma_hoist_over_denominator(x, d * halves, p as nat);
        assert(halves * (d * p + v) == x + d * halves * p) by (nonlinear_arith)
            requires
                x == halves * v,
        ;
        assert(x + d * halves * p >= 0) by (nonlinear_arith)
            requires
                x >= 0,
                d >= 0,
                halves >= 0,
                p > 0,
        ;
        lemma_div_denominator(x + d * halves * p, p, 10);
    }
}

/// Counting the whole part and the fraction apart comes to the same.
proof fn lemma_halves(whole: Seq<char>, fraction: Seq<char>, unit: int)
    requires
        unit >= 0,
    ensures
        half_nanos(whole, fraction, unit) == 2 * unit * digits_value(whole) + share(
            fraction,
            2 * unit,
        ),
{
    let h = 2 * unit;
    let p = pow(10, fraction.len());
    let a = digits_value(whole) as int;
    let b = digits_value(fraction) as int;
    lemma_digits_part(whole, fraction);
    lemma_share(fraction, h);
    lemma_pow_positive(10, fraction.len());
    lemma_hoist_over_denominator(h * b, h * a, p as nat);
    assert(h * (a * p + b) == h * b + h * a * p) by (nonlinear_arith);
}

proof fn lemma_digits_bound(s: Seq<char>, n: int)
    requires
        0 <= n <= s.len(),
    ensures
        digits_value(s.take(n)) <= digits_value(s),
    decreases s.len() - n,
{
    if n < s.len() {
        lemma_digits_bound(s, n + 1);
        assert(s.take(n + 1).drop_last() =~= s.take(n));
    } else {
        assert(s.take(n) =~= s);
    }
}

/// More of any unit than this is longer than a year.
const TOO_MANY: u64 = 1_000_000_000_000;

/// The number a run of digits writes, unless it is too large for any unit.
fn whole_number(v: &Vec<char>) -> (r: Option<u64>)
    requires
        all_digits(v@),
    ensures
        match r {
            Some(n) => n == digits_value(v@) && n <= TOO_MANY,
            None => digits_value(v@) > TOO_MANY,
        },
{
    let mut value: u64 = 0;
    assert(v@.take(0) =~= Seq::<char>::empty());
    for i in 0..v.len()
        invariant
            all_digits(v@),
            value == digits_value(v@.take(i as int)),
            value <= TOO_MANY,
    {
        proof {
            assert(is_digit(v@[i as int]));
            assert(v@.take(i + 1).drop_last() =~= v@.take(i as int));
            lemma_digits_bound(v@, i + 1);
        }
        value = value * 10 + ((v[i] as u32) - ('0' as u32)) as u64;
        if value > TOO_MANY {
            return None;
        }
    }
    assert(v@.take(v@.len() as int) =~= v@);
    Some(value)
}

fn fraction_share(v: &Vec<char>, halves: u128) -> (r: u128)
    requires
        all_digits(v@),
        halves <= 0x1000_0000_0000_0000,
    ensures
        r == share(v@, halves as int),
        r <= halves,
{
    let mut at: usize = v.len();
    let mut sum: u128 = 0;
    assert(v@.skip(v@.len() as int) =~= Seq::<char>::empty());
    while at > 0
        invariant
            at <= v@.len(),
            all_digits(v@),
            halves <= 0x1000_0000_0000_0000,
            sum == share(v@.skip(at as int), halves as int),
            sum <= halves,
        decreases at,
    {
        at = at - 1;
        let ghost rest = v@.skip(at as int);
        proof {
            assert(rest.drop_first() =~= v@.skip(at + 1));
            assert(rest[0] == v@[at as int]);
            assert(is_digit(v@[at as int]));
        }
        let d: u128 = ((v[at] as u32) - ('0' as u32)) as u128;
        proof {
            assert(d * halves <= 9 * halves) by (nonlinear_arith)
                requires
                    d <= 9,
            ;
            assert(0 <= d * halves) by (nonlinear_arith);
        }
        sum = (d * halves + sum) / 10;
    }
    assert(v@.skip(0) =~= v@);
    sum
}

fn only_digits(v: &Vec<char>) -> (r: bool)
    ensures
        r == all_digits(v@),
{
    for i in 0..v.len()
        invariant
            forall|j: int| 0 <= j < i ==> is_digit(#[trigger] v@[j]),
    {
        if !digit(v[i]) {
            assert(!is_digit(v@[i as int]));
            return false;
        }
    }
    true
}

fn parts_of(number: &str) -> (r: Option<(Vec<char>, Vec<char>)>)
    ensures
        match r {
            Some(p) => number_parts(number@) == Some((p.0@, p.1@)) && all_digits(p.0@)
                && all_digits(p.1@),
            None => number_parts(number@) is None,
        },
{
    let parts: (Vec<char>, Vec<char>) = match split_once(number, '.') {
        Some((whole, fraction)) => (chars_of(whole.as_str()), chars_of(fraction.as_str())),
        None => (chars_of(number), Vec::new()),
    };
    if only_digits(&parts.0) && only_digits(&parts.1) && (parts.0.len() > 0 || parts.1.len() > 0) {
        Some(parts)
    } else {
        None
    }
}

fn unit_of(unit: &str) -> (r: Option<u64>)
    ensures
        match r {
            Some(n) => unit_nanos(unit@) == Some(n as int) && 1_000_000 <= n <= 3_600_000_000_000,
            None => unit_nanos(unit@) is None,
        },
{
    if same(unit, "ms") {
        Some(1_000_000)
    } else if same(unit, "s") {
        Some(1_000_000_000)
    } else if same(unit, "m") {
        Some(60_000_000_000)
    } else if same(unit, "h") {
        Some(3_600_000_000_000)
    } else {
        None
    }
}

fn all_zero(v: &Vec<char>) -> (r: bool)
    requires
        all_digits(v@),
    ensures
        r == (digits_value(v@) == 0),
{
    assert(v@.take(0) =~= Seq::<char>::empty());
    for i in 0..v.len()
        invariant
            all_digits(v@),
            digits_value(v@.take(i as int)) == 0,
    {
        proof {
            assert(is_digit(v@[i as int]));
            assert(v@.take(i + 1).drop_last() =~= v@.take(i as int));
            lemma_digits_bound(v@, i + 1);
        }
        if v[i] != '0' {
            return false;
        }
    }
    assert(v@.take(v@.len() as int) =~= v@);
    true
}

/// So many of a unit in half nanoseconds, unless that is longer than a year.
fn halves_of(whole: &Vec<char>, fraction: &Vec<char>, unit: u64) -> (r: Option<u128>)
    requires
        all_digits(whole@),
        all_digits(fraction@),
        1_000_000 <= unit <= 3_600_000_000_000,
    ensures
        match r {
            Some(h) => h == half_nanos(whole@, fraction@, unit as int) && h <= 2 * YEAR,
            None => half_nanos(whole@, fraction@, unit as int) > 2 * YEAR,
        },
{
    let doubled: u128 = 2 * (unit as u128);
    let part = fraction_share(fraction, doubled);
    proof {
        lemma_halves(whole@, fraction@, unit as int);
    }
    match whole_number(whole) {
        None => {
            assert(2 * unit * digits_value(whole@) > 2 * YEAR) by (nonlinear_arith)
                requires
                    unit >= 1_000_000,
                    digits_value(whole@) > TOO_MANY,
            ;
            None
        },
        Some(n) => {
            assert(doubled * n <= 7_200_000_000_000 * 1_000_000_000_000) by (nonlinear_arith)
                requires
                    doubled <= 7_200_000_000_000,
                    n <= 1_000_000_000_000,
            ;
            assert(0 <= doubled * n) by (nonlinear_arith);
            let sum: u128 = doubled * (n as u128) + part;
            if sum > 2 * YEAR {
                None
            } else {
                Some(sum)
            }
        },
    }
}

/// Parse a duration written the way a person would.
pub fn parse_duration(written: &str) -> (r: Result<Duration, Slip>)
    ensures
        match r {
            Ok(d) => written_duration(written@) == Ok::<Duration, SlipView>(d) && MILLISECOND
                <= d.nanos <= YEAR,
            Err(slip) => written_duration(written@) == Err::<Duration, SlipView>(slip@),
        },
{
    let text = trim(written);
    let v = chars_of(text.as_str());
    let mut n: usize = 0;
    while n < v.len() && (digit(v[n]) || v[n] == '.')
        invariant
            n <= v@.len(),
            forall|i: int| 0 <= i < n ==> is_digit(#[trigger] v@[i]) || v@[i] == '.',
        decreases v@.len() - n,
    {
        n = n + 1;
    }
    proof {
        lemma_number_len(v@, n as int);
    }
    if n == v.len() {
        return Err(Slip::about(Why::NeedsUnit, text.as_str()));
    }
    let number = piece(v.as_slice(), 0, n);
    assert(number@ =~= text@.take(n as int));
    let tail = piece(v.as_slice(), n, v.len());
    assert(tail@ =~= text@.skip(n as int));
    let unit = trim(tail.as_str());
    match parts_of(number.as_str()) {
        None => Err(Slip::about(Why::NotANumber, number.as_str())),
        Some((whole, fraction)) => {
            proof {
                let p = pow(10, fraction@.len());
                let a = digits_value(whole@) as int;
                lemma_digits_part(whole@, fraction@);
                lemma_pow_positive(10, fraction@.len());
                assert(a * p == 0 <==> a == 0) by (nonlinear_arith)
                    requires
                        p > 0,
                        a >= 0,
                ;
                assert(a * p >= 0) by (nonlinear_arith)
                    requires
                        p > 0,
                        a >= 0,
                ;
            }
            if all_zero(&whole) && all_zero(&fraction) {
                return Err(Slip::about(Why::NotPositive, text.as_str()));
            }
            match unit_of(unit.as_str()) {
                None => Err(Slip::about(Why::UnknownUnit, unit.as_str())),
                Some(nanos) => match halves_of(&whole, &fraction, nanos) {
                    None => Err(Slip::about(Why::TooLong, text.as_str())),
                    Some(halves) => if halves < 2 * MILLISECOND {
                        Err(Slip::about(Why::TooShort, text.as_str()))
                    } else {
                        Ok(Duration { nanos: (halves + 1) / 2 })
                    },
                },
            }
        },
    }
}

} // verus!
