//! Natural numbers of any size.
//!
//! What a battery holds is a product of two of the kernel's figures, what a machine holds is a
//! sum of those, and whether two quantities are the same is a question about products of such
//! sums. No machine word holds all of that, so these grow as far as they have to.

use crate::text::{all_digits, digits_value, is_digit};
use vstd::arithmetic::div_mod::lemma_fundamental_div_mod_converse;
use vstd::arithmetic::power2::{lemma2_to64, lemma_pow2_adds, lemma_pow2_strictly_increases};
use vstd::arithmetic::power2::{lemma_pow2_unfold, pow2};
use vstd::prelude::*;

verus! {

/// One more than the largest digit.
pub const BASE: u64 = 0x1_0000_0000;

/// The number a run of digits stands for, the most significant one first.
pub open spec fn worth(digits: Seq<u32>) -> nat
    decreases digits.len(),
{
    if digits.len() == 0 {
        0
    } else {
        worth(digits.drop_last()) * (BASE as nat) + digits.last() as nat
    }
}

/// The number the first `upto` digits stand for.
pub open spec fn front(digits: Seq<u32>, upto: int) -> nat {
    worth(digits.take(upto))
}

proof fn lemma_front(digits: Seq<u32>, upto: int)
    requires
        0 < upto <= digits.len(),
    ensures
        front(digits, upto) == front(digits, upto - 1) * BASE + digits[upto - 1],
{
    assert(digits.take(upto).drop_last() =~= digits.take(upto - 1));
}

proof fn lemma_push(digits: Seq<u32>, d: u32)
    ensures
        worth(digits.push(d)) == worth(digits) * BASE + d,
{
    assert(digits.push(d).drop_last() =~= digits);
}

/// Ten, taken times itself so often.
pub open spec fn tens(n: nat) -> nat
    decreases n,
{
    if n == 0 {
        1
    } else {
        10 * tens((n - 1) as nat)
    }
}

/// A natural number.
#[derive(Debug)]
pub struct Natural {
    /// Its digits to the base of 2^32, the most significant one first.
    pub digits: Vec<u32>,
}

impl View for Natural {
    type V = nat;

    open spec fn view(&self) -> nat {
        worth(self.digits@)
    }
}

fn digits_of(n: u128) -> (v: Vec<u32>)
    ensures
        worth(v@) == n,
    decreases n,
{
    if n == 0 {
        return Vec::new();
    }
    let base = BASE as u128;
    assert(n / base < n) by (nonlinear_arith)
        requires
            n > 0,
            base == 0x1_0000_0000,
    ;
    let mut v = digits_of(n / base);
    let d: u32 = (n % base) as u32;
    proof {
        lemma_push(v@, d);
        assert(n == (n / base) * base + n % base) by (nonlinear_arith)
            requires
                base > 0,
        ;
    }
    v.push(d);
    v
}

/// The sum of the first digits of two numbers and of what is carried into it.
fn summed(a: &Vec<u32>, m: usize, b: &Vec<u32>, n: usize, carry: u64) -> (v: Vec<u32>)
    requires
        m <= a@.len(),
        n <= b@.len(),
        carry <= 1,
    ensures
        worth(v@) == front(a@, m as int) + front(b@, n as int) + carry,
    decreases m + n,
{
    if m == 0 && n == 0 {
        assert(a@.take(0) =~= Seq::<u32>::empty() && b@.take(0) =~= Seq::<u32>::empty());
        return digits_of(carry as u128);
    }
    let x: u64 = if m > 0 {
        a[m - 1] as u64
    } else {
        0
    };
    let y: u64 = if n > 0 {
        b[n - 1] as u64
    } else {
        0
    };
    let i: usize = if m > 0 {
        m - 1
    } else {
        0
    };
    let j: usize = if n > 0 {
        n - 1
    } else {
        0
    };
    proof {
        if m > 0 {
            lemma_front(a@, m as int);
        } else {
            assert(a@.take(0) =~= Seq::<u32>::empty());
        }
        if n > 0 {
            lemma_front(b@, n as int);
        } else {
            assert(b@.take(0) =~= Seq::<u32>::empty());
        }
    }
    let all: u64 = x + y + carry;
    let mut v = summed(a, i, b, j, all / BASE);
    let d: u32 = (all % BASE) as u32;
    proof {
        lemma_push(v@, d);
        let p = front(a@, i as int);
        let q = front(b@, j as int);
        let over = all / BASE;
        assert((p + q + over) * BASE + d == p * BASE + q * BASE + all) by (nonlinear_arith)
            requires
                all == over * BASE + d,
        ;
    }
    v.push(d);
    v
}

/// What is left of the first digits of a number once those of another and what was borrowed
/// are taken away.
fn taken(a: &Vec<u32>, m: usize, b: &Vec<u32>, n: usize, borrow: u64) -> (v: Vec<u32>)
    requires
        m <= a@.len(),
        n <= b@.len(),
        borrow <= 1,
        front(b@, n as int) + borrow <= front(a@, m as int),
    ensures
        worth(v@) == front(a@, m as int) - front(b@, n as int) - borrow,
    decreases m + n,
{
    if m == 0 && n == 0 {
        assert(a@.take(0) =~= Seq::<u32>::empty() && b@.take(0) =~= Seq::<u32>::empty());
        return Vec::new();
    }
    let x: u64 = if m > 0 {
        a[m - 1] as u64
    } else {
        0
    };
    let y: u64 = if n > 0 {
        b[n - 1] as u64
    } else {
        0
    };
    let i: usize = if m > 0 {
        m - 1
    } else {
        0
    };
    let j: usize = if n > 0 {
        n - 1
    } else {
        0
    };
    proof {
        if m > 0 {
            lemma_front(a@, m as int);
        } else {
            assert(a@.take(0) =~= Seq::<u32>::empty());
        }
        if n > 0 {
            lemma_front(b@, n as int);
        } else {
            assert(b@.take(0) =~= Seq::<u32>::empty());
        }
    }
    let more: u64 = if x < y + borrow {
        1
    } else {
        0
    };
    let d: u32 = (x + more * BASE - y - borrow) as u32;
    let ghost p = front(a@, i as int);
    let ghost q = front(b@, j as int);
    assert(q + more <= p) by (nonlinear_arith)
        requires
            q * BASE + y + borrow <= p * BASE + x,
            d == x + more * BASE - y - borrow,
            0 <= d < BASE,
    ;
    let mut v = taken(a, i, b, j, more);
    proof {
        lemma_push(v@, d);
        assert((p - q - more) * BASE + d == p * BASE + x - (q * BASE + y) - borrow)
            by (nonlinear_arith)
            requires
                d == x + more * BASE - y - borrow,
        ;
    }
    v.push(d);
    v
}

/// The first digits of a number taken a few times, and what is carried into that.
fn multiplied(a: &Vec<u32>, m: usize, by: u32, carry: u32) -> (v: Vec<u32>)
    requires
        m <= a@.len(),
    ensures
        worth(v@) == front(a@, m as int) * by + carry,
    decreases m,
{
    if m == 0 {
        assert(a@.take(0) =~= Seq::<u32>::empty());
        assert(0 * by == 0) by (nonlinear_arith);
        return digits_of(carry as u128);
    }
    let x: u64 = a[m - 1] as u64;
    assert(x * by <= 0xffff_ffff * 0xffff_ffff) by (nonlinear_arith)
        requires
            0 <= x <= 0xffff_ffff,
            0 <= by <= 0xffff_ffff,
    ;
    let all: u64 = x * by as u64 + carry as u64;
    let over: u32 = (all / BASE) as u32;
    let d: u32 = (all % BASE) as u32;
    let mut v = multiplied(a, m - 1, by, over);
    proof {
        lemma_push(v@, d);
        lemma_front(a@, m as int);
        let p = front(a@, m - 1);
        assert((p * by + over) * BASE + d == (p * BASE + x) * by + carry) by (nonlinear_arith)
            requires
                x * by + carry == over * BASE + d,
        ;
    }
    v.push(d);
    v
}

/// How two numbers compare.
#[derive(Clone, Copy, Debug, PartialEq, Eq, Structural)]
enum Sizes {
    Smaller,
    Alike,
    Larger,
}

/// How the first digits of two numbers compare.
fn sized(a: &Vec<u32>, m: usize, b: &Vec<u32>, n: usize) -> (r: Sizes)
    requires
        m <= a@.len(),
        n <= b@.len(),
    ensures
        match r {
            Sizes::Smaller => front(a@, m as int) < front(b@, n as int),
            Sizes::Alike => front(a@, m as int) == front(b@, n as int),
            Sizes::Larger => front(a@, m as int) > front(b@, n as int),
        },
    decreases m + n,
{
    if m == 0 && n == 0 {
        assert(a@.take(0) =~= Seq::<u32>::empty() && b@.take(0) =~= Seq::<u32>::empty());
        return Sizes::Alike;
    }
    let x: u32 = if m > 0 {
        a[m - 1]
    } else {
        0
    };
    let y: u32 = if n > 0 {
        b[n - 1]
    } else {
        0
    };
    let i: usize = if m > 0 {
        m - 1
    } else {
        0
    };
    let j: usize = if n > 0 {
        n - 1
    } else {
        0
    };
    proof {
        if m > 0 {
            lemma_front(a@, m as int);
        } else {
            assert(a@.take(0) =~= Seq::<u32>::empty());
        }
        if n > 0 {
            lemma_front(b@, n as int);
        } else {
            assert(b@.take(0) =~= Seq::<u32>::empty());
        }
    }
    let high = sized(a, i, b, j);
    proof {
        let p = front(a@, i as int);
        let q = front(b@, j as int);
        if p < q {
            assert(p * BASE + x < q * BASE + y) by (nonlinear_arith)
                requires
                    p + 1 <= q,
                    x < BASE,
            ;
        } else if q < p {
            assert(q * BASE + y < p * BASE + x) by (nonlinear_arith)
                requires
                    q + 1 <= p,
                    y < BASE,
            ;
        }
    }
    match high {
        Sizes::Alike => if x < y {
            Sizes::Smaller
        } else if y < x {
            Sizes::Larger
        } else {
            Sizes::Alike
        },
        other => other,
    }
}

impl Natural {
    pub fn of(n: u128) -> (r: Natural)
        ensures
            r@ == n,
    {
        Natural { digits: digits_of(n) }
    }

    pub fn copy(&self) -> (r: Natural)
        ensures
            r@ == self@,
    {
        let digits = self.digits.clone();
        assert(digits@ =~= self.digits@);
        Natural { digits }
    }

    pub fn plus(&self, other: &Natural) -> (r: Natural)
        ensures
            r@ == self@ + other@,
    {
        proof {
            assert(self.digits@.take(self.digits@.len() as int) =~= self.digits@);
            assert(other.digits@.take(other.digits@.len() as int) =~= other.digits@);
        }
        Natural {
            digits: summed(&self.digits, self.digits.len(), &other.digits, other.digits.len(), 0),
        }
    }

    pub fn minus(&self, other: &Natural) -> (r: Natural)
        requires
            other@ <= self@,
        ensures
            r@ == self@ - other@,
    {
        proof {
            assert(self.digits@.take(self.digits@.len() as int) =~= self.digits@);
            assert(other.digits@.take(other.digits@.len() as int) =~= other.digits@);
        }
        Natural {
            digits: taken(&self.digits, self.digits.len(), &other.digits, other.digits.len(), 0),
        }
    }

    pub fn times(&self, other: &Natural) -> (r: Natural)
        ensures
            r@ == self@ * other@,
    {
        let mut all = Natural { digits: Vec::new() };
        proof {
            assert(self.digits@.take(self.digits@.len() as int) =~= self.digits@);
            assert(other.digits@.take(0) =~= Seq::<u32>::empty());
            assert(self@ * 0 == 0) by (nonlinear_arith);
        }
        for i in 0..other.digits.len()
            invariant
                front(self.digits@, self.digits@.len() as int) == self@,
                all@ == self@ * front(other.digits@, i as int),
        {
            let d: u32 = other.digits[i];
            let more = Natural { digits: multiplied(&self.digits, self.digits.len(), d, 0) };
            let mut shifted = all;
            proof {
                lemma_push(shifted.digits@, 0);
                lemma_front(other.digits@, i + 1);
                let a = self@;
                let f = front(other.digits@, i as int);
                assert((a * f) * BASE + a * d == a * (f * BASE + d)) by (nonlinear_arith);
            }
            shifted.digits.push(0);
            all = shifted.plus(&more);
        }
        assert(other.digits@.take(other.digits@.len() as int) =~= other.digits@);
        all
    }

    fn against(&self, other: &Natural) -> (r: Sizes)
        ensures
            match r {
                Sizes::Smaller => self@ < other@,
                Sizes::Alike => self@ == other@,
                Sizes::Larger => self@ > other@,
            },
    {
        proof {
            assert(self.digits@.take(self.digits@.len() as int) =~= self.digits@);
            assert(other.digits@.take(other.digits@.len() as int) =~= other.digits@);
        }
        sized(&self.digits, self.digits.len(), &other.digits, other.digits.len())
    }

    /// Whether this is less than another.
    pub fn below(&self, other: &Natural) -> (r: bool)
        ensures
            r == (self@ < other@),
    {
        match self.against(other) {
            Sizes::Smaller => true,
            _ => false,
        }
    }

    /// Whether two numbers are the same.
    pub fn same(&self, other: &Natural) -> (r: bool)
        ensures
            r == (self@ == other@),
    {
        match self.against(other) {
            Sizes::Alike => true,
            _ => false,
        }
    }

    pub fn is_zero(&self) -> (r: bool)
        ensures
            r == (self@ == 0),
    {
        self.same(&Natural::of(0))
    }

    /// The number some digits write in decimal.
    pub fn written(digits: &Vec<char>) -> (r: Natural)
        requires
            all_digits(digits@),
        ensures
            r@ == digits_value(digits@),
    {
        let mut n = Natural::of(0);
        assert(digits@.take(0) =~= Seq::<char>::empty());
        for i in 0..digits.len()
            invariant
                all_digits(digits@),
                n@ == digits_value(digits@.take(i as int)),
        {
            proof {
                assert(digits@.take(i + 1).drop_last() =~= digits@.take(i as int));
                assert(is_digit(digits@[i as int]));
            }
            let c = digits[i];
            let d: u32 = (c as u32) - ('0' as u32);
            n = n.times(&Natural::of(10)).plus(&Natural::of(d as u128));
        }
        assert(digits@.take(digits@.len() as int) =~= digits@);
        n
    }

    /// Ten, taken times itself so often.
    pub fn power_of_ten(n: usize) -> (r: Natural)
        ensures
            r@ == tens(n as nat),
            r@ > 0,
    {
        let mut all = Natural::of(1);
        for i in 0..n
            invariant
                all@ == tens(i as nat),
                all@ > 0,
        {
            all = Natural::of(10).times(&all);
        }
        all
    }

    /// The number doubled so often.
    pub fn doubled(&self, twos: usize) -> (r: Natural)
        ensures
            r@ == self@ * pow2(twos as nat),
    {
        let mut all = self.copy();
        proof {
            lemma2_to64();
            assert(self@ * 1 == self@);
        }
        for i in 0..twos / 32
            invariant
                all@ == self@ * pow2((32 * i) as nat),
        {
            proof {
                lemma_push(all.digits@, 0);
                lemma2_to64();
                lemma_pow2_adds((32 * i) as nat, 32);
                let n = self@;
                let p = pow2((32 * i) as nat);
                assert((n * p) * BASE == n * (p * BASE)) by (nonlinear_arith);
            }
            all.digits.push(0);
        }
        let rest: usize = twos % 32;
        let mut few: u32 = 1;
        for i in 0..rest
            invariant
                rest < 32,
                few == pow2(i as nat),
        {
            proof {
                lemma2_to64();
                lemma_pow2_unfold((i + 1) as nat);
                if i + 1 < 31 {
                    lemma_pow2_strictly_increases((i + 1) as nat, 31);
                }
            }
            few = few * 2;
        }
        proof {
            let n = self@;
            let p = pow2((32 * (twos / 32)) as nat);
            let q = pow2(rest as nat);
            lemma_pow2_adds((32 * (twos / 32)) as nat, rest as nat);
            assert((n * p) * q == n * (p * q)) by (nonlinear_arith);
        }
        all.times(&Natural::of(few as u128))
    }

    /// How often another number goes into this one, which is less often than `limit`.
    pub fn quotient(&self, by: &Natural, limit: u64) -> (q: u64)
        requires
            by@ > 0,
            self@ < by@ * limit,
        ensures
            q == self@ / by@,
            q < limit,
    {
        let mut low: u64 = 0;
        let mut high: u64 = limit;
        proof {
            assert(by@ * 0 == 0) by (nonlinear_arith);
            assert(limit > 0) by (nonlinear_arith)
                requires
                    0 <= self@ < by@ * limit,
                    by@ > 0,
            ;
        }
        while high - low > 1
            invariant
                by@ > 0,
                low < high <= limit,
                by@ * low <= self@ < by@ * high,
            decreases high - low,
        {
            let middle: u64 = low + (high - low) / 2;
            if self.below(&by.times(&Natural::of(middle as u128))) {
                high = middle;
            } else {
                low = middle;
            }
        }
        proof {
            let n = self@ as int;
            let d = by@ as int;
            let r = n - d * low;
            assert(r < d) by (nonlinear_arith)
                requires
                    n < d * high,
                    high == low + 1,
                    r == n - d * low,
            ;
            assert(n == low * d + r) by (nonlinear_arith)
                requires
                    r == n - d * low,
            ;
            lemma_fundamental_div_mod_converse(n, d, low as int, r);
        }
        low
    }
}

/// A whole number, as what was added up to it and what was taken away.
#[derive(Debug)]
pub struct Whole {
    pub gained: Natural,
    pub lost: Natural,
}

impl View for Whole {
    type V = int;

    open spec fn view(&self) -> int {
        self.gained@ - self.lost@
    }
}

impl Whole {
    pub fn of(n: Natural) -> (r: Whole)
        ensures
            r@ == n@,
    {
        Whole { gained: n, lost: Natural::of(0) }
    }

    pub fn nothing() -> (r: Whole)
        ensures
            r@ == 0,
    {
        Whole { gained: Natural::of(0), lost: Natural::of(0) }
    }

    pub fn copy(&self) -> (r: Whole)
        ensures
            r@ == self@,
    {
        Whole { gained: self.gained.copy(), lost: self.lost.copy() }
    }

    /// The number as far from nothing on the other side of it.
    pub fn opposite(&self) -> (r: Whole)
        ensures
            r@ == -self@,
    {
        Whole { gained: self.lost.copy(), lost: self.gained.copy() }
    }

    /// One number taken times another.
    pub fn times(&self, other: &Whole) -> (r: Whole)
        ensures
            r@ == self@ * other@,
    {
        proof {
            let (a, b) = (self.gained@ as int, self.lost@ as int);
            let (c, d) = (other.gained@ as int, other.lost@ as int);
            assert((a - b) * (c - d) == (a * c + b * d) - (a * d + b * c)) by (nonlinear_arith);
        }
        Whole {
            gained: self.gained.times(&other.gained).plus(&self.lost.times(&other.lost)),
            lost: self.gained.times(&other.lost).plus(&self.lost.times(&other.gained)),
        }
    }

    /// Whether two numbers are the same.
    pub fn same(&self, other: &Whole) -> (r: bool)
        ensures
            r == (self@ == other@),
    {
        self.gained.plus(&other.lost).same(&other.gained.plus(&self.lost))
    }

    /// Whether this is less than another.
    pub fn below(&self, other: &Whole) -> (r: bool)
        ensures
            r == (self@ < other@),
    {
        self.gained.plus(&other.lost).below(&other.gained.plus(&self.lost))
    }

    pub fn plus(&self, other: &Whole) -> (r: Whole)
        ensures
            r@ == self@ + other@,
    {
        Whole { gained: self.gained.plus(&other.gained), lost: self.lost.plus(&other.lost) }
    }

    /// How far from nothing this is.
    pub fn far(&self) -> (r: Natural)
        ensures
            r@ == if self@ < 0 {
                -self@
            } else {
                self@
            },
    {
        if self.gained.below(&self.lost) {
            self.lost.minus(&self.gained)
        } else {
            self.gained.minus(&self.lost)
        }
    }

    pub fn is_negative(&self) -> (r: bool)
        ensures
            r == (self@ < 0),
    {
        self.gained.below(&self.lost)
    }
}

} // verus!
