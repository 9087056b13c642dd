//! Scrolling, counted in whole steps.

use vstd::prelude::*;

verus! {

/// How finely scrolling is counted: this many parts to one step.
///
/// A wheel counts a hundred and twenty to a notch and a touchpad reports in parts of a pixel, two
/// hundred and fifty-six of them, fifteen pixels to a step. This is the smallest number both
/// come out whole in.
pub const STEP: i64 = 3840;

/// How many parts one of a wheel's hundred-and-twentieths is worth.
pub const WHEEL_PARTS: i64 = 32;

/// One scroll event along one axis.
#[derive(Clone, Copy, Debug, PartialEq, Eq, Structural)]
pub struct AxisScroll {
    /// What a modern compositor sends, counting a hundred and twenty to a notch.
    pub value120: i32,
    /// The older form, in whole notches.
    pub discrete: i32,
    /// How far a finger has travelled, in the parts of a pixel the protocol counts in.
    pub travelled: i32,
    /// The end of a kinetic scroll.
    pub stop: bool,
}

/// How far one event moves, in parts of a step.
pub open spec fn moved(axis: AxisScroll) -> int {
    if axis.value120 != 0 {
        axis.value120 * WHEEL_PARTS
    } else if axis.discrete != 0 {
        axis.discrete * STEP
    } else {
        axis.travelled as int
    }
}

/// What is left of the parts carried once an event has come in: a scroll back starts from
/// nothing.
pub open spec fn kept(carried: int, parts: int) -> int {
    if (carried < 0) == (parts < 0) {
        carried
    } else {
        0
    }
}

/// The whole steps in so many parts, leaving the rest on the side nearer nothing.
pub open spec fn whole(parts: int) -> int {
    if parts < 0 {
        -(-parts / STEP as int)
    } else {
        parts / STEP as int
    }
}

/// The steps one event is worth, and what is carried to the next one.
pub open spec fn stepped(axis: AxisScroll, carried: int) -> (int, int) {
    if axis.stop || moved(axis) == 0 {
        (0, 0)
    } else {
        let all = kept(carried, moved(axis)) + moved(axis);
        (whole(all), all - whole(all) * STEP)
    }
}

/// The steps a run of events is worth, and what is carried past its end.
pub open spec fn stepped_through(events: Seq<AxisScroll>, carried: int) -> (int, int)
    decreases events.len(),
{
    if events.len() == 0 {
        (0, carried)
    } else {
        let before = stepped_through(events.drop_last(), carried);
        let last = stepped(events.last(), before.1);
        (before.0 + last.0, last.1)
    }
}

/// How far a run of events moves, in parts of a step.
pub open spec fn moved_through(events: Seq<AxisScroll>) -> int
    decreases events.len(),
{
    if events.len() == 0 {
        0
    } else {
        moved_through(events.drop_last()) + moved(events.last())
    }
}

/// How many whole steps a scroll event is worth, carrying the remainder in `carried`.
///
/// What does not reach a whole step is carried, so slow scrolling still arrives, and it is
/// dropped when the direction changes so a scroll back does not start part-way.
pub fn steps_of(axis: &AxisScroll, carried: &mut i64) -> (steps: i32)
    requires
        -STEP < *old(carried) < STEP,
    ensures
        (steps as int, *final(carried) as int) == stepped(*axis, *old(carried) as int),
        -STEP < *final(carried) < STEP,
{
    let parts: i64 = if axis.value120 != 0 {
        axis.value120 as i64 * WHEEL_PARTS
    } else if axis.discrete != 0 {
        axis.discrete as i64 * STEP
    } else {
        axis.travelled as i64
    };
    if axis.stop || parts == 0 {
        *carried = 0;
        return 0;
    }
    let all: i64 = if (*carried < 0) == (parts < 0) {
        *carried + parts
    } else {
        parts
    };
    let steps: i64 = if all < 0 {
        -(-all / STEP)
    } else {
        all / STEP
    };
    *carried = all - steps * STEP;
    steps as i32
}

/// Nothing is lost while a scroll keeps to one direction: however finely it arrives, the steps
/// it was worth and what is still carried make up the whole of how far it moved.
pub proof fn law_one_direction_loses_nothing(events: Seq<AxisScroll>, up: bool)
    requires
        forall|i: int|
            0 <= i < events.len() ==> !(#[trigger] events[i]).stop && moved(events[i]) != 0 && (
            moved(events[i]) < 0) == up,
    ensures
        stepped_through(events, 0).0 * STEP + stepped_through(events, 0).1 == moved_through(events),
        -STEP < stepped_through(events, 0).1 < STEP,
    decreases events.len(),
{
    lemma_one_direction(events, up);
}

proof fn lemma_one_direction(events: Seq<AxisScroll>, up: bool)
    requires
        forall|i: int|
            0 <= i < events.len() ==> !(#[trigger] events[i]).stop && moved(events[i]) != 0 && (
            moved(events[i]) < 0) == up,
    ensures
        stepped_through(events, 0).0 * STEP + stepped_through(events, 0).1 == moved_through(events),
        -STEP < stepped_through(events, 0).1 < STEP,
        up ==> stepped_through(events, 0).1 <= 0,
        !up ==> stepped_through(events, 0).1 >= 0,
    decreases events.len(),
{
    if events.len() > 0 {
        let before = events.drop_last();
        assert forall|i: int| 0 <= i < before.len() implies !(#[trigger] before[i]).stop && moved(
            before[i],
        ) != 0 && (moved(before[i]) < 0) == up by {
            assert(before[i] == events[i]);
        }
        lemma_one_direction(before, up);
        assert(events.last() == events[events.len() - 1]);
        let carried = stepped_through(before, 0).1;
        let parts = moved(events.last());
        assert(kept(carried, parts) == carried || carried == 0);
    }
}

/// The end of a scroll leaves nothing behind to leak into the next one.
pub proof fn law_a_stop_clears_what_was_carried(axis: AxisScroll, carried: int)
    requires
        axis.stop,
    ensures
        stepped(axis, carried) == (0int, 0int),
{
}

} // verus!
