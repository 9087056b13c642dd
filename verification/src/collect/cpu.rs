//! Processor utilization, from `/proc/stat`.

use crate::collect::unread::{because, read, Cause, Unread, UnreadView};
use crate::status::{about, no_fields, specs_view, with, Amount, AmountView, FieldSpec, FieldView};
use crate::status::{Fields, Kind, Reading, ReadingView, State, Unit, Value, ValueView};
use crate::text::{lines, lines_of, natural, parse_u64, split_whitespace, stands_at, starts_with};
use crate::text::{texts, words_of};
use vstd::prelude::*;

verus! {

/// What this source publishes.
pub open spec fn published() -> Seq<FieldView> {
    seq![
        FieldView { name: "utilization"@, kind: Kind::Num(Unit::Percent) },
    ]
}

/// What this source publishes.
pub fn fields() -> (r: Vec<FieldSpec>)
    ensures
        specs_view(r@) == published(),
{
    let r = vec![
        FieldSpec::new("utilization", Kind::Num(Unit::Percent)),
    ];
    assert(specs_view(r@) =~= published());
    r
}

/// The two totals utilisation is worked out from, in kernel ticks.
#[derive(Clone, Copy, Debug, PartialEq, Eq, Structural)]
pub struct Times {
    /// Every state the kernel counts, idle included.
    pub total: u128,
    /// Time the processor had nothing to do, which is idle plus waiting on io.
    pub idle: u128,
}

impl View for Times {
    type V = Times;

    open spec fn view(&self) -> Times {
        *self
    }
}

/// The first line from `from` on that sums every core.
pub open spec fn aggregate(all: Seq<Seq<char>>, from: int) -> Option<Seq<char>>
    decreases all.len() - from,
{
    if from < 0 || from >= all.len() {
        None
    } else if stands_at(all[from], "cpu "@, 0) {
        Some(all[from])
    } else {
        aggregate(all, from + 1)
    }
}

/// The numbers these words write, from `from` on.
pub open spec fn counters(words: Seq<Seq<char>>, from: int) -> Result<Seq<nat>, UnreadView>
    decreases words.len() - from,
{
    if from < 0 || from >= words.len() {
        Ok(Seq::empty())
    } else {
        match natural(words[from], u64::MAX as nat) {
            None => Err(because(Cause::NotANumber, words[from])),
            Some(n) => match counters(words, from + 1) {
                Err(e) => Err(e),
                Ok(rest) => Ok(seq![n] + rest),
            },
        }
    }
}

/// The sum of these numbers.
pub open spec fn sum(values: Seq<nat>) -> nat
    decreases values.len(),
{
    if values.len() == 0 {
        0
    } else {
        sum(values.drop_last()) + values.last()
    }
}

/// The part of the counters that is time with nothing to do: the fourth is idle and the fifth,
/// which not every kernel has, is waiting on io.
pub open spec fn idle_part(values: Seq<nat>) -> nat {
    (if values.len() > 3 {
        values[3]
    } else {
        0
    }) + (if values.len() > 4 {
        values[4]
    } else {
        0
    })
}

/// What the aggregate line of the statistics counts.
pub open spec fn times_of(text: Seq<char>) -> Result<Times, UnreadView> {
    match aggregate(lines_of(text), 0) {
        None => Err(because(Cause::NoCpuLine, Seq::empty())),
        Some(line) => match counters(words_of(line), 1) {
            Err(e) => Err(e),
            Ok(values) => if values.len() < 4 {
                Err(because(Cause::TooFewFields(values.len() as u64), Seq::empty()))
            } else {
                Ok(Times { total: sum(values) as u128, idle: idle_part(values) as u128 })
            },
        },
    }
}

/// What a list of numbers says.
spec fn numbers(v: Seq<u64>) -> Seq<nat> {
    Seq::new(v.len(), |i: int| v[i] as nat)
}

spec fn counted_so_far(done: Seq<nat>, rest: Result<Seq<nat>, UnreadView>) -> Result<
    Seq<nat>,
    UnreadView,
> {
    match rest {
        Ok(more) => Ok(done + more),
        Err(e) => Err(e),
    }
}

fn read_counters(words: &Vec<String>) -> (r: Result<Vec<u64>, Unread>)
    ensures
        match r {
            Ok(v) => counters(texts(words@), 1) == Ok::<Seq<nat>, UnreadView>(numbers(v@)),
            Err(e) => counters(texts(words@), 1) == Err::<Seq<nat>, UnreadView>(e@),
        },
{
    let ghost all = texts(words@);
    let mut out: Vec<u64> = Vec::new();
    let ghost none = Seq::<nat>::empty();
    assert(numbers(out@) =~= none);
    proof {
        let rest = counters(all, 1);
        if rest is Ok {
            assert(none + rest->Ok_0 =~= rest->Ok_0);
        }
    }
    let mut i: usize = 1;
    while i < words.len()
        invariant
            1 <= i,
            all == texts(words@),
            counters(all, 1) == counted_so_far(numbers(out@), counters(all, i as int)),
        decreases words@.len() - i,
    {
        let ghost before = numbers(out@);
        assert(all[i as int] == words@[i as int]@);
        match parse_u64(words[i].as_str()) {
            None => {
                return Err(Unread::new(Cause::NotANumber, words[i].as_str()));
            },
            Some(n) => {
                out.push(n);
                proof {
                    assert(numbers(out@) =~= before.push(n as nat));
                    let rest = counters(all, i + 1);
                    if rest is Ok {
                        assert(before + (seq![n as nat] + rest->Ok_0) =~= before.push(n as nat)
                            + rest->Ok_0);
                    }
                }
            },
        }
        i = i + 1;
    }
    assert(numbers(out@) + none =~= numbers(out@));
    Ok(out)
}

fn find_aggregate(all: &Vec<String>) -> (r: Option<&String>)
    ensures
        match r {
            Some(line) => aggregate(texts(all@), 0) == Some(line@),
            None => aggregate(texts(all@), 0) is None,
        },
{
    let ghost views = texts(all@);
    for i in 0..all.len()
        invariant
            views == texts(all@),
            aggregate(views, 0) == aggregate(views, i as int),
    {
        assert(views[i as int] == all@[i as int]@);
        if starts_with(all[i].as_str(), "cpu ") {
            return Some(&all[i]);
        }
    }
    None
}

/// Read the aggregate `cpu` line, which sums every core.
///
/// The fields are user, nice, system, idle, iowait, irq, softirq, steal, and two more the kernel
/// counts for guests. Only the total and the idle part matter here.
pub fn parse(text: &str) -> (r: Result<Times, Unread>)
    ensures
        read(r) == times_of(text@),
{
    let all = lines(text);
    match find_aggregate(&all) {
        None => Err(Unread::plainly(Cause::NoCpuLine)),
        Some(line) => {
            let words = split_whitespace(line.as_str());
            let values = read_counters(&words)?;
            if values.len() < 4 {
                return Err(Unread::plainly(Cause::TooFewFields(values.len() as u64)));
            }
            let ghost counted = numbers(values@);
            let mut total: u128 = 0;
            assert(counted.take(0) =~= Seq::<nat>::empty());
            for i in 0..values.len()
                invariant
                    counted == numbers(values@),
                    total == sum(counted.take(i as int)),
                    total <= i * u64::MAX,
                    values@.len() <= usize::MAX,
            {
                proof {
                    assert(counted.take(i + 1).drop_last() =~= counted.take(i as int));
                    assert(counted.take(i + 1).last() == values@[i as int]);
                    assert(i * u64::MAX + u64::MAX == (i + 1) * u64::MAX) by (nonlinear_arith);
                    assert((i + 1) * u64::MAX <= 0x1_0000_0000_0000_0000 * u64::MAX)
                        by (nonlinear_arith)
                        requires
                            i + 1 <= 0x1_0000_0000_0000_0000,
                    ;
                }
                total = total + values[i] as u128;
            }
            assert(counted.take(counted.len() as int) =~= counted);
            let waiting: u128 = if values.len() > 4 {
                values[4] as u128
            } else {
                0
            };
            Ok(Times { total, idle: values[3] as u128 + waiting })
        },
    }
}

/// The share of an interval that was not idle. Nothing is reported when the counters did not
/// move, which happens if two readings land in the same tick, and when they went backwards,
/// which means the counters were reset.
pub open spec fn busy_share(previous: Times, now: Times) -> Option<AmountView> {
    let total = now.total - previous.total;
    let idle = now.idle - previous.idle;
    if total <= 0 || idle < 0 {
        None
    } else {
        Some(
            AmountView::Share {
                part: if idle > total {
                    0
                } else {
                    total - idle
                },
                whole: total,
            },
        )
    }
}

/// The share of the interval that was not idle, as a percentage.
pub fn utilization(previous: Times, now: Times) -> (r: Option<Amount>)
    ensures
        match r {
            Some(a) => busy_share(previous, now) == Some(a@),
            None => busy_share(previous, now) is None,
        },
{
    if now.total < previous.total || now.idle < previous.idle {
        return None;
    }
    let total: u128 = now.total - previous.total;
    let idle: u128 = now.idle - previous.idle;
    if total == 0 {
        return None;
    }
    let busy: u128 = if idle > total {
        0
    } else {
        total - idle
    };
    Some(Amount::share(busy, total))
}

/// Utilisation is a share: whatever the counters say, it is between nothing and all.
pub proof fn law_utilization_is_a_share(previous: Times, now: Times)
    ensures
        busy_share(previous, now) matches Some(share) ==> (share matches AmountView::Share {
            part,
            whole,
        } && 0 <= part <= whole && 0 < whole),
{
}

/// What is shown of a sample, given the one before it.
pub open spec fn shown(previous: Option<Times>, now: Times) -> ReadingView {
    let value = match previous {
        None => ValueView::Absent,
        Some(before) => match busy_share(before, now) {
            Some(v) => ValueView::Num { v, unit: Unit::Percent },
            None => ValueView::Absent,
        },
    };
    ReadingView {
        fields: about(with(no_fields(), "utilization"@, value), "utilization"@),
        state: State::Idle,
    }
}

/// Processor utilization, which is a difference between two samples.
#[derive(Debug)]
pub struct Cpu {
    pub previous: Option<Times>,
}

impl Cpu {
    /// Start from a first sample of the statistics, where there is one. Failing here is not
    /// worth reporting: the first tick will try again and say so.
    pub fn new(first: Option<&str>) -> (c: Cpu)
        ensures
            c.previous == match first {
                None => None,
                Some(text) => match times_of(text@) {
                    Ok(times) => Some(times),
                    Err(_) => None,
                },
            },
    {
        let previous = match first {
            None => None,
            Some(text) => match parse(text) {
                Ok(times) => Some(times),
                Err(_) => None,
            },
        };
        Cpu { previous }
    }

    /// Take another sample of the statistics.
    ///
    /// Without a previous sample there is no interval to average over, so the field has
    /// nothing to report rather than a number that would be wrong.
    pub fn read(&mut self, text: &str) -> (r: Result<Reading, Unread>)
        ensures
            match times_of(text@) {
                Err(e) => read(r) == Err::<ReadingView, UnreadView>(e) && *final(self) == *old(
                    self,
                ),
                Ok(now) => read(r) == Ok::<ReadingView, UnreadView>(
                    shown(old(self).previous, now),
                ) && final(self).previous == Some(now),
            },
    {
        let now = parse(text)?;
        let previous = self.previous;
        self.previous = Some(now);
        let value = match previous {
            None => Value::Absent,
            Some(before) => match utilization(before, now) {
                Some(v) => Value::Num { v, unit: Unit::Percent },
                None => Value::Absent,
            },
        };
        let mut fields = Fields::new();
        fields.set("utilization", value);
        fields.set_primary("utilization");
        Ok(Reading { fields, state: State::Idle })
    }
}

} // verus!
