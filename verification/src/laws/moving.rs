//! How what is drawn moves, and when something turns to say that it is being waited for.

use crate::app::spin::{is_slow, next_wanted, slow, soonest};
use crate::app::travel::{apart, between, eased, going_under, gone_of, has_arrived, moved_along};
use crate::app::travel::{on_their_way, position, set_out, time_for, turned, where_is, TravelView};
use crate::collect::which::WhichView;
use crate::time::{Duration, Instant};
use vstd::prelude::*;

verus! {

/// The whole way, in the parts it is counted in.
pub open spec fn whole_way() -> int {
    16_777_216
}

/// A way is eased the same at both its ends: what is gone at one moment and what is left as long
/// before the end make up the whole way, but for the part that is rounded off.
pub proof fn law_a_way_is_eased_the_same_at_both_ends(share: int)
    requires
        0 <= share <= whole_way(),
    ensures
        whole_way() - 1 <= eased(share) + eased(whole_way() - share) <= whole_way(),
        0 <= eased(share) <= whole_way(),
{
    let w = whole_way();
    let rest = w - share;
    let a = share * share * (3 * w - 2 * share);
    let b = rest * rest * (3 * w - 2 * rest);
    assert(a + b == w * (w * w)) by (nonlinear_arith)
        requires
            a == share * share * (3 * w - 2 * share),
            b == rest * rest * (3 * w - 2 * rest),
            rest == w - share,
    ;
    assert(a >= 0) by (nonlinear_arith)
        requires
            a == share * share * (3 * w - 2 * share),
            0 <= share <= w,
    ;
    assert(b >= 0) by (nonlinear_arith)
        requires
            b == rest * rest * (3 * w - 2 * rest),
            0 <= rest <= w,
    ;
    lemma_two_parts(a, b, w, w * w);
}

proof fn lemma_two_parts(a: int, b: int, w: int, d: int)
    requires
        a >= 0,
        b >= 0,
        d > 0,
        a + b == w * d,
    ensures
        w - 1 <= a / d + b / d <= w,
        0 <= a / d <= w,
{
    let q = a / d;
    let r = b / d;
    assert(q * d <= a < q * d + d) by (nonlinear_arith)
        requires
            q == a / d,
            d > 0,
    ;
    assert(r * d <= b < r * d + d) by (nonlinear_arith)
        requires
            r == b / d,
            d > 0,
    ;
    assert(q >= 0 && r >= 0) by (nonlinear_arith)
        requires
            q == a / d,
            r == b / d,
            a >= 0,
            b >= 0,
            d > 0,
    ;
    assert((q + r) * d <= w * d < (q + r + 2) * d) by (nonlinear_arith)
        requires
            q * d <= a < q * d + d,
            r * d <= b < r * d + d,
            a + b == w * d,
    ;
    assert(q + r <= w < q + r + 2) by (nonlinear_arith)
        requires
            (q + r) * d <= w * d < (q + r + 2) * d,
            d > 0,
    ;
}

/// A way starts slowly: up to its middle less is gone than the time would make of it.
pub proof fn law_a_way_starts_slowly(share: int)
    requires
        0 <= share,
        2 * share <= whole_way(),
    ensures
        eased(share) <= share,
{
    let w = whole_way();
    let d = w * w;
    let a = share * share * (3 * w - 2 * share);
    assert(share * (3 * w - 2 * share) <= w * w) by (nonlinear_arith)
        requires
            0 <= share,
            2 * share <= w,
    ;
    let inner = share * (3 * w - 2 * share);
    assert(a == share * inner) by (nonlinear_arith)
        requires
            a == share * share * (3 * w - 2 * share),
            inner == share * (3 * w - 2 * share),
    ;
    assert(share * inner <= share * d) by (nonlinear_arith)
        requires
            inner <= d,
            0 <= share,
    ;
    assert(a / d <= share) by (nonlinear_arith)
        requires
            a <= share * d,
            d > 0,
    ;
}

/// How much of the time is gone: none of it at first, all of it at the end, and in between the
/// share of it that is, to the last whole part.
pub proof fn law_time_goes_evenly(gone: int, over: int)
    requires
        0 <= gone,
        0 < over,
    ensures
        gone >= over ==> gone_of(gone, over) == whole_way(),
        gone < over ==> gone_of(gone, over) * over <= gone * whole_way() < (gone_of(gone, over) + 1)
            * over,
{
    if gone < over {
        let w = whole_way();
        let q = gone * w / over;
        assert(q * over <= gone * w < (q + 1) * over) by (nonlinear_arith)
            requires
                q == gone * w / over,
                over > 0,
        ;
    }
}

/// What travels is between where it started and where it goes, the share of the way that is
/// gone.
pub proof fn law_a_travel_is_on_its_way(from: int, to: int, share: int)
    requires
        0 <= share <= whole_way(),
    ensures
        from <= to ==> from <= between(from, to, share) <= to,
        to <= from ==> to <= between(from, to, share) <= from,
        ({
            let gone = apart(from, between(from, to, share));
            gone * whole_way() <= apart(from, to) * share < (gone + 1) * whole_way()
        }),
{
    let w = whole_way();
    let span = apart(from, to);
    let q = span * share / w;
    assert(q * w <= span * share < (q + 1) * w) by (nonlinear_arith)
        requires
            q == span * share / w,
            w > 0,
    ;
    assert(0 <= q <= span) by (nonlinear_arith)
        requires
            q == span * share / w,
            0 <= share <= w,
            0 <= span,
            w > 0,
    ;
}

/// What is sent somewhere starts at once, from where it is, or from the other end where it is
/// nowhere, and goes where it is sent; and takes the share of its time that the way is of the
/// whole way, to the nanosecond.
pub proof fn law_a_travel_starts_from_where_it_is(
    v: Seq<TravelView>,
    name: Seq<char>,
    to: u32,
    over: Duration,
    now: Instant,
)
    requires
        to <= whole_way(),
        over.nanos <= u64::MAX,
        where_is(v, name) matches Some(at) ==> at <= whole_way(),
    ensures
        ({
            let t = turned(v, name, to, over, now);
            let way = apart(t.from as int, to as int);
            &&& t.name == name && t.to == to && t.started == now && t.at == t.from
            &&& where_is(v, name) is None ==> t.from == whole_way() - to
            &&& where_is(v, name) matches Some(at) ==> t.from == at
            &&& way == whole_way() ==> t.over == over
            &&& t.over.nanos * whole_way() <= over.nanos * way < (t.over.nanos + 1) * whole_way()
        }),
{
    let t = turned(v, name, to, over, now);
    let w = whole_way();
    let way = apart(t.from as int, to as int);
    let all = over.nanos as int;
    assert(way <= w);
    if way < w {
        let q = all * way / w;
        assert(q * w <= all * way < (q + 1) * w) by (nonlinear_arith)
            requires
                q == all * way / w,
                w > 0,
        ;
        assert(0 <= q <= all) by (nonlinear_arith)
            requires
                q == all * way / w,
                0 <= all,
                0 <= way <= w,
                w > 0,
        ;
        assert(time_for(t.from as int, to as int, all) == q);
        assert(t.over.nanos == q);
    } else {
        assert(t.over == over);
        assert(all * way == all * w);
    }
    let took = t.over.nanos as int;
    assert((took + 1) * w == took * w + w) by (nonlinear_arith);
}

/// Another wording comes in all the way from nothing, over its own time, and the one that leaves
/// is the one it says.
pub proof fn law_a_wording_comes_in_all_the_way(
    name: Seq<char>,
    leaving: usize,
    over: Duration,
    now: Instant,
)
    ensures
        ({
            let t = set_out(name, leaving, over, now);
            &&& t.name == name && t.leaving == leaving
            &&& t.from == 0 && t.at == 0 && t.to == whole_way()
            &&& t.started == now && t.over == over
        }),
{
}

/// What has not arrived goes on, each one as far as the time says, and what has is done.
pub proof fn law_what_has_not_arrived_goes_on(v: Seq<TravelView>, now: Instant, i: int)
    requires
        0 <= i < v.len(),
    ensures
        has_arrived(v[i], now) <==> now.nanos >= v[i].started.nanos + v[i].over.nanos
            || v[i].over.nanos == 0,
        !has_arrived(v[i], now) ==> on_their_way(v, now).contains(
            (TravelView { at: position(v[i], now) as u32, ..v[i] }),
        ),
    decreases v.len(),
{
    let all = on_their_way(v, now);
    let front = v.drop_last();
    let rest = on_their_way(front, now);
    if !has_arrived(v[i], now) {
        let gone = moved_along(v[i], now);
        if i < front.len() {
            law_what_has_not_arrived_goes_on(front, now, i);
            assert(front[i] == v[i]);
            let k = choose|k: int| 0 <= k < rest.len() && rest[k] == gone;
            assert(all[k] == gone);
        } else {
            assert(all[all.len() - 1] == gone);
        }
    }
}

/// Nothing goes on that was not going.
pub proof fn law_nothing_goes_on_that_was_not_going(v: Seq<TravelView>, now: Instant, t: TravelView)
    requires
        on_their_way(v, now).contains(t),
    ensures
        exists|i: int|
            0 <= i < v.len() && !has_arrived(#[trigger] v[i], now) && t == moved_along(v[i], now),
    decreases v.len(),
{
    let all = on_their_way(v, now);
    if v.len() > 0 {
        let front = v.drop_last();
        let rest = on_their_way(front, now);
        let k = choose|k: int| 0 <= k < all.len() && all[k] == t;
        if k < rest.len() {
            assert(rest[k] == t);
            assert(rest.contains(t));
            law_nothing_goes_on_that_was_not_going(front, now, t);
            let i = choose|i: int|
                0 <= i < front.len() && !has_arrived(#[trigger] front[i], now) && t == moved_along(
                    front[i],
                    now,
                );
            assert(v[i] == front[i]);
        } else {
            assert(v[v.len() - 1] == v.last());
        }
    }
}

proof fn lemma_going(v: Seq<TravelView>, name: Seq<char>, from: int)
    requires
        0 <= from <= v.len(),
    ensures
        match going_under(v, name, from) {
            Some(i) => from <= i < v.len() && v[i].name == name,
            None => forall|j: int| from <= j < v.len() ==> (#[trigger] v[j]).name != name,
        },
    decreases v.len() - from,
{
    if from < v.len() && v[from].name != name {
        lemma_going(v, name, from + 1);
    }
}

/// Where something is, is where the travel of its name is, and nowhere where there is none.
pub proof fn law_something_is_where_its_travel_is(v: Seq<TravelView>, name: Seq<char>)
    ensures
        match where_is(v, name) {
            Some(at) => exists|i: int|
                0 <= i < v.len() && (#[trigger] v[i]).name == name && v[i].at == at,
            None => forall|i: int| 0 <= i < v.len() ==> (#[trigger] v[i]).name != name,
        },
{
    lemma_going(v, name, 0);
    if let Some(i) = going_under(v, name, 0) {
        assert(v[i].name == name);
    }
}

/// A program is waited for visibly once it has run for four tenths of a second.
pub proof fn law_a_program_is_slow_after_four_tenths(started: Instant, now: Instant)
    ensures
        is_slow(started, now) <==> now.nanos >= started.nanos + 400_000_000,
{
}

proof fn lemma_slow(runs: Seq<(WhichView, Instant)>, now: Instant, i: int)
    requires
        0 <= i < runs.len(),
        is_slow(runs[i].1, now),
    ensures
        slow(runs, now).contains(runs[i].0),
    decreases runs.len(),
{
    let all = slow(runs, now);
    let front = runs.drop_last();
    let rest = slow(front, now);
    if i < front.len() {
        assert(front[i] == runs[i]);
        lemma_slow(front, now, i);
        let k = choose|k: int| 0 <= k < rest.len() && rest[k] == runs[i].0;
        assert(all[k] == runs[i].0);
    } else {
        assert(all[all.len() - 1] == runs[i].0);
    }
}

/// Every program that is slow is waited for visibly.
pub proof fn law_every_slow_program_is_waited_for(
    runs: Seq<(WhichView, Instant)>,
    now: Instant,
    i: int,
)
    requires
        0 <= i < runs.len(),
        now.nanos >= runs[i].1.nanos + 400_000_000,
    ensures
        slow(runs, now).contains(runs[i].0),
{
    lemma_slow(runs, now, i);
}

proof fn lemma_soonest(runs: Seq<(WhichView, Instant)>, now: Instant)
    requires
        forall|i: int| 0 <= i < runs.len() ==> (#[trigger] runs[i]).1.nanos + 400_000_000
            <= u128::MAX,
        slow(runs, now).len() == 0,
    ensures
        runs.len() == 0 ==> soonest(runs, now) is None,
        runs.len() > 0 ==> (soonest(runs, now) matches Some(at) && (forall|i: int|
            0 <= i < runs.len() ==> at.nanos <= (#[trigger] runs[i]).1.nanos + 400_000_000)
            && (exists|i: int|
            0 <= i < runs.len() && at.nanos == (#[trigger] runs[i]).1.nanos + 400_000_000)),
    decreases runs.len(),
{
    if runs.len() > 0 {
        let front = runs.drop_last();
        assert forall|i: int| 0 <= i < front.len() implies (#[trigger] front[i]).1.nanos
            + 400_000_000 <= u128::MAX by {
            assert(front[i] == runs[i]);
        }
        lemma_soonest(front, now);
        let at = soonest(runs, now)->0;
        let last = runs.len() - 1;
        assert(runs[last] == runs.last());
        assert forall|i: int| 0 <= i < runs.len() implies at.nanos <= (#[trigger] runs[i]).1.nanos
            + 400_000_000 by {
            if i < front.len() {
                assert(front[i] == runs[i]);
            }
        }
        if front.len() > 0 && at == soonest(front, now)->0 {
            let i = choose|i: int|
                0 <= i < front.len() && at.nanos == (#[trigger] front[i]).1.nanos + 400_000_000;
            assert(runs[i] == front[i]);
        } else {
            assert(at.nanos == runs[last].1.nanos + 400_000_000);
        }
    }
}

/// While a program is waited for visibly it turns again six hundredths of a second later; until
/// one is slow, there is nothing to do before the first of them would be; and where none runs
/// there is nothing to do at all.
pub proof fn law_turning_is_looked_at_when_it_matters(
    runs: Seq<(WhichView, Instant)>,
    now: Instant,
    i: int,
)
    requires
        now.nanos + 60_000_000 <= u128::MAX,
        forall|j: int| 0 <= j < runs.len() ==> (#[trigger] runs[j]).1.nanos + 400_000_000
            <= u128::MAX,
    ensures
        runs.len() == 0 ==> next_wanted(runs, now) is None,
        0 <= i < runs.len() && now.nanos >= runs[i].1.nanos + 400_000_000 ==> (next_wanted(
            runs,
            now,
        ) matches Some(at) && at.nanos == now.nanos + 60_000_000),
        slow(runs, now).len() == 0 && 0 <= i < runs.len() ==> (next_wanted(
            runs,
            now,
        ) matches Some(at) && at.nanos <= runs[i].1.nanos + 400_000_000 && at.nanos > now.nanos),
{
    if 0 <= i < runs.len() && now.nanos >= runs[i].1.nanos + 400_000_000 {
        lemma_slow(runs, now, i);
    }
    if slow(runs, now).len() == 0 && 0 <= i < runs.len() {
        lemma_soonest(runs, now);
        let at = soonest(runs, now)->0;
        let k = choose|k: int|
            0 <= k < runs.len() && at.nanos == (#[trigger] runs[k]).1.nanos + 400_000_000;
        if is_slow(runs[k].1, now) {
            lemma_slow(runs, now, k);
        }
    }
}

} // verus!
