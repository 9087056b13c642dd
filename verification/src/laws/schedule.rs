//! When a source is read.

use crate::collect::registry::{changes, due_from, fresh, guard, opened, place};
use crate::collect::registry::{stretch, ticked, to_read, EntryView};
use crate::collect::which::{arrives, Which};
use crate::status::{same_pages, ReadingView, State};
use crate::time::{Duration, Instant};
use vstd::arithmetic::power2::{lemma2_to64, pow2};
use vstd::prelude::*;

verus! {

/// How often an interval is doubled after so many failures in a row: once for each, five times
/// at most.
pub open spec fn doublings(failures: int) -> nat {
    if failures > 5 {
        5
    } else {
        failures as nat
    }
}

pub proof fn lemma_stretch(failures: int)
    requires
        0 <= failures,
    ensures
        stretch(failures) == pow2(doublings(failures)),
{
    lemma2_to64();
}

/// A source that was read well is read again one interval later, unless the kernel reports its
/// changes, in which case it is left alone; the clock aside, which is read at the boundary.
pub proof fn law_a_good_read_waits_one_interval(
    e: EntryView,
    reading: ReadingView,
    now: Instant,
    wall: Option<u128>,
)
    requires
        !(e.which is Time),
        now.nanos + e.interval.nanos <= u128::MAX,
    ensures
        !e.watched ==> (ticked(e, Ok(reading), now, wall).due matches Some(due) && due.nanos
            == now.nanos + e.interval.nanos),
        e.watched ==> ticked(e, Ok(reading), now, wall).due is None,
        ticked(e, Ok(reading), now, wall).failures == 0,
{
    assert(e.interval.nanos * 1 == e.interval.nanos);
}

/// What was read well is what is shown, unless it would be drawn as what is shown already, and
/// then nothing has to be drawn; what failed shows what it showed, as an error, and has to be
/// drawn where any of it was none yet.
pub proof fn law_what_is_read_is_shown(
    e: EntryView,
    reading: ReadingView,
    why: Seq<char>,
    now: Instant,
    wall: Option<u128>,
)
    ensures
        ({
            let after = ticked(e, Ok(reading), now, wall);
            &&& same_pages(e.readings, seq![reading]) ==> after.readings == e.readings
            &&& !same_pages(e.readings, seq![reading]) ==> after.readings == seq![reading]
            &&& changes(e, Ok(reading)) <==> !same_pages(e.readings, seq![reading])
            &&& !after.reported
            &&& after.which == e.which && after.interval == e.interval && after.watched
                == e.watched
        }),
        ({
            let after = ticked(e, Err(why), now, wall);
            &&& after.readings.len() == e.readings.len()
            &&& forall|i: int|
                0 <= i < e.readings.len() ==> #[trigger] after.readings[i] == (ReadingView {
                    state: State::Error,
                    ..e.readings[i]
                })
            &&& changes(e, Err(why)) <==> exists|i: int|
                0 <= i < e.readings.len() && (#[trigger] e.readings[i]).state != State::Error
            &&& after.reported
            &&& after.which == e.which && after.interval == e.interval && after.watched
                == e.watched
        }),
{
    let stale = ticked(e, Err(why), now, wall).readings;
    if exists|i: int|
        0 <= i < e.readings.len() && (#[trigger] e.readings[i]).state != State::Error {
        let i = choose|i: int|
            0 <= i < e.readings.len() && (#[trigger] e.readings[i]).state != State::Error;
        assert(stale[i].state == State::Error);
    } else {
        assert(stale =~= e.readings) by {
            assert forall|i: int| 0 <= i < stale.len() implies stale[i] == e.readings[i] by {
                assert(e.readings[i].state == State::Error);
            }
        }
    }
}

/// After its k-th failure in a row a source is asked again so many intervals later as doubling
/// one k times gives, five times at most, whether it is watched or not.
pub proof fn law_a_failure_doubles_the_wait(
    e: EntryView,
    why: Seq<char>,
    now: Instant,
    wall: Option<u128>,
)
    requires
        e.failures < u32::MAX,
        now.nanos + e.interval.nanos * 32 <= u128::MAX,
    ensures
        ({
            let after = ticked(e, Err(why), now, wall);
            &&& after.failures == e.failures + 1
            &&& after.due matches Some(due) && due.nanos == now.nanos + e.interval.nanos * pow2(
                doublings(e.failures + 1),
            )
        }),
{
    let k = e.failures + 1;
    lemma_stretch(k);
    lemma2_to64();
    assert(e.interval.nanos * stretch(k) <= e.interval.nanos * 32) by (nonlinear_arith)
        requires
            stretch(k) <= 32,
    ;
}

/// A source that works is never asked later than it would be had it failed at the same moment,
/// and so never less often.
pub proof fn law_failing_is_never_asked_sooner(
    e: EntryView,
    reading: ReadingView,
    why: Seq<char>,
    now: Instant,
    wall: Option<u128>,
)
    requires
        !e.watched,
        !(e.which is Time),
        e.failures < u32::MAX,
        now.nanos + e.interval.nanos * 32 <= u128::MAX,
    ensures
        ticked(e, Ok(reading), now, wall).due->0.nanos <= ticked(
            e,
            Err(why),
            now,
            wall,
        ).due->0.nanos,
{
    law_a_good_read_waits_one_interval(e, reading, now, wall);
    law_a_failure_doubles_the_wait(e, why, now, wall);
    let k = e.failures + 1;
    lemma_stretch(k);
    assert(e.interval.nanos * 2 <= e.interval.nanos * stretch(k)) by (nonlinear_arith)
        requires
            stretch(k) >= 2,
    ;
}

/// The clock that was read well is read again just past the next whole multiple of its interval
/// on the wall clock: within an interval and the guard, and the guard is no more than two
/// milliseconds.
pub proof fn law_the_clock_is_read_at_the_boundary(
    e: EntryView,
    reading: ReadingView,
    now: Instant,
    since: u128,
)
    requires
        e.which is Time,
        !e.watched,
        0 < e.interval.nanos <= u64::MAX,
        now.nanos + 2 * u64::MAX <= u128::MAX,
    ensures
        ({
            let after = ticked(e, Ok(reading), now, Some(since));
            let interval = e.interval.nanos as int;
            &&& after.read_at == Some(since)
            &&& after.due matches Some(due) && {
                let wait = due.nanos - now.nanos;
                &&& 0 < wait <= interval + guard(interval)
                &&& (since + wait - guard(interval)) % interval == 0
                &&& 0 <= guard(interval) <= 2_000_000
            }
        }),
{
    let interval = e.interval.nanos as int;
    assert(e.interval.nanos * 1 == interval);
    assert(0 <= since as int % interval < interval) by (nonlinear_arith)
        requires
            interval > 0,
    ;
    crate::collect::registry::law_alignment_aims_just_past_the_next_boundary(
        since as int,
        interval,
    );
}

proof fn lemma_due(entries: Seq<EntryView>, now: Instant, wall: Option<u128>, from: int)
    requires
        0 <= from <= entries.len(),
    ensures
        forall|k: int|
            0 <= k < due_from(entries, now, wall, from).len() ==> from <= (
            #[trigger] due_from(entries, now, wall, from)[k]) < entries.len() && to_read(
                entries[due_from(entries, now, wall, from)[k]],
                now,
                wall,
            ),
        forall|i: int|
            from <= i < entries.len() && to_read(#[trigger] entries[i], now, wall) ==> due_from(
                entries,
                now,
                wall,
                from,
            ).contains(i),
        forall|j: int, k: int|
            0 <= j < k < due_from(entries, now, wall, from).len() ==> (
            #[trigger] due_from(entries, now, wall, from)[j]) < (
            #[trigger] due_from(entries, now, wall, from)[k]),
    decreases entries.len() - from,
{
    if from < entries.len() {
        lemma_due(entries, now, wall, from + 1);
        let rest = due_from(entries, now, wall, from + 1);
        let all = due_from(entries, now, wall, from);
        if to_read(entries[from], now, wall) {
            assert(all =~= seq![from] + rest);
            assert(all[0] == from);
            assert forall|i: int| from <= i < entries.len() && to_read(
                #[trigger] entries[i],
                now,
                wall,
            ) implies all.contains(i) by {
                if i > from {
                    let k = choose|k: int| 0 <= k < rest.len() && rest[k] == i;
                    assert(all[k + 1] == i);
                }
            }
            assert forall|k: int| 0 < k < all.len() implies #[trigger] all[k] == rest[k - 1] by {}
        }
    }
}

/// The sources that are read at a moment are exactly those whose deadline has come, and a clock
/// that holds a reading of a bucket of time that is over; each once, in order.
pub proof fn law_what_is_due_is_read(
    entries: Seq<EntryView>,
    now: Instant,
    wall: Option<u128>,
    i: int,
)
    requires
        0 <= i < entries.len(),
    ensures
        ({
            let due = due_from(entries, now, wall, 0);
            &&& entries[i].due matches Some(at) ==> (at.nanos <= now.nanos ==> due.contains(i))
            &&& !(entries[i].which is Time) && (entries[i].due matches Some(at) ==> now.nanos
                < at.nanos) ==> !due.contains(i)
            &&& entries[i].which is Time && (entries[i].due matches Some(at) ==> now.nanos
                < at.nanos) ==> (due.contains(i) <==> (entries[i].read_at matches Some(then) && (
            wall matches Some(clock) && exists|boundary: int|
                #![trigger boundary * entries[i].interval.nanos]
                then < boundary * entries[i].interval.nanos <= clock && 0
                    < entries[i].interval.nanos)) || (entries[i].interval.nanos == 0 && (
            entries[i].read_at matches Some(then) && (wall matches Some(clock) && then < clock))))
            &&& forall|j: int, k: int| 0 <= j < k < due.len() ==> (#[trigger] due[j]) < (
                #[trigger] due[k])
        }),
{
    lemma_due(entries, now, wall, 0);
    let due = due_from(entries, now, wall, 0);
    let e = entries[i];
    if due.contains(i) {
        let k = choose|k: int| 0 <= k < due.len() && due[k] == i;
        assert(to_read(entries[due[k]], now, wall));
    }
    if e.which is Time && e.read_at is Some && wall is Some {
        let then = e.read_at->0 as int;
        let clock = wall->0 as int;
        let step = e.interval.nanos as int;
        if step > 0 {
            let a = then / step;
            let b = clock / step;
            vstd::arithmetic::div_mod::lemma_fundamental_div_mod(then, step);
            vstd::arithmetic::div_mod::lemma_fundamental_div_mod(clock, step);
            vstd::arithmetic::div_mod::lemma_mod_bound(then, step);
            vstd::arithmetic::div_mod::lemma_mod_bound(clock, step);
            if b > a {
                assert(then < b * step <= clock) by (nonlinear_arith)
                    requires
                        then == step * a + then % step,
                        clock == step * b + clock % step,
                        0 <= then % step < step,
                        0 <= clock % step,
                        b >= a + 1,
                ;
            }
            if exists|boundary: int|
                #![trigger boundary * e.interval.nanos]
                then < boundary * e.interval.nanos <= clock && 0 < e.interval.nanos {
                let boundary = choose|boundary: int|
                    #![trigger boundary * e.interval.nanos]
                    then < boundary * e.interval.nanos <= clock && 0 < e.interval.nanos;
                assert(b > a) by (nonlinear_arith)
                    requires
                        then < boundary * step <= clock,
                        then == step * a + then % step,
                        clock == step * b + clock % step,
                        0 <= then % step,
                        0 <= clock % step < step,
                        step > 0,
                ;
            }
        }
    }
}

/// Every source that is asked for is kept, at the interval it is asked for, and is due at once
/// unless it arrives on its own.
pub proof fn law_what_is_asked_for_is_kept(
    wanted: Seq<(Which, Duration)>,
    now: Instant,
    k: int,
)
    requires
        0 <= k < wanted.len(),
    ensures
        exists|i: int|
            0 <= i < opened(wanted, now).len() && (#[trigger] opened(wanted, now)[i]).which
                == wanted[k].0@ && opened(wanted, now)[i].interval == wanted[k].1
                && opened(wanted, now)[i].failures == 0 && (if arrives(wanted[k].0@) {
                opened(wanted, now)[i].due is None
            } else {
                opened(wanted, now)[i].due == Some(now) && !opened(wanted, now)[i].watched
            }),
    decreases wanted.len(),
{
    let rest = wanted.drop_last();
    let before = opened(rest, now);
    let (which, interval) = wanted.last();
    let at = place(before, which@, 0);
    crate::collect::registry::lemma_place(before, which@, 0);
    let all = opened(wanted, now);
    assert(all == before.insert(at, fresh(which@, interval, now)));
    if k == wanted.len() - 1 {
        assert(all[at] == fresh(which@, interval, now));
    } else {
        law_what_is_asked_for_is_kept(rest, now, k);
        assert(rest[k] == wanted[k]);
        let i = choose|i: int|
            0 <= i < before.len() && (#[trigger] before[i]).which == rest[k].0@
                && before[i].interval == rest[k].1 && before[i].failures == 0 && (if arrives(
                rest[k].0@,
            ) {
                before[i].due is None
            } else {
                before[i].due == Some(now) && !before[i].watched
            });
        if i < at {
            assert(all[i] == before[i]);
        } else {
            assert(all[i + 1] == before[i]);
        }
    }
}

} // verus!
