//! Saying out loud that a command is being waited for.
//!
//! A command that answers quickly never draws anything, which is the point: the spinner is what
//! a slow command gets, and a fast one costs nothing to have waited for.

use crate::collect::which::{key, Which, WhichView};
use crate::config::whole::sources_view;
use crate::time::{Duration, Instant};
use vstd::prelude::*;

verus! {

/// How long a command's program runs before the bar says out loud that it is waiting, in
/// nanoseconds.
pub const SPIN_AFTER: u128 = 400_000_000;

/// How long one step of a spinner's turn lasts, in nanoseconds, and so the only rate at which
/// the bar animates while it waits.
pub const SPIN_STEP: u128 = 60_000_000;

/// The commands that are being waited for, and the spinner that says so.
#[derive(Debug)]
pub struct Spinner {
    /// Commands with a run on its way, and when that run started.
    pub running: Vec<(Which, Instant)>,
    /// Commands that have been waited for long enough to say so.
    pub waiting: Vec<Which>,
    /// Which step of its turn the spinner is on, of how many.
    pub spin: usize,
    pub frames: usize,
    /// Whether a timer is driving it.
    pub scheduled: bool,
}

/// What a list of runs says.
pub open spec fn runs_view(v: Seq<(Which, Instant)>) -> Seq<(WhichView, Instant)> {
    Seq::new(v.len(), |i: int| (v[i].0@, v[i].1))
}

/// The runs that are not of a source.
pub open spec fn without(runs: Seq<(WhichView, Instant)>, which: WhichView) -> Seq<
    (WhichView, Instant),
>
    decreases runs.len(),
{
    if runs.len() == 0 {
        runs
    } else {
        let rest = without(runs.drop_last(), which);
        if key(runs.last().0) == key(which) {
            rest
        } else {
            rest.push(runs.last())
        }
    }
}

/// The sources that are not this one.
pub open spec fn but(sources: Seq<WhichView>, which: WhichView) -> Seq<WhichView>
    decreases sources.len(),
{
    if sources.len() == 0 {
        sources
    } else {
        let rest = but(sources.drop_last(), which);
        if key(sources.last()) == key(which) {
            rest
        } else {
            rest.push(sources.last())
        }
    }
}

/// Whether a run has taken long enough to say so.
pub open spec fn is_slow(started: Instant, now: Instant) -> bool {
    now.nanos - started.nanos >= SPIN_AFTER
}

/// The commands among the runs that have been waited for long enough to say so.
pub open spec fn slow(runs: Seq<(WhichView, Instant)>, now: Instant) -> Seq<WhichView>
    decreases runs.len(),
{
    if runs.len() == 0 {
        Seq::empty()
    } else {
        let rest = slow(runs.drop_last(), now);
        if is_slow(runs.last().1, now) {
            rest.push(runs.last().0)
        } else {
            rest
        }
    }
}

/// When the next of the other runs will have taken that long.
pub open spec fn soonest(runs: Seq<(WhichView, Instant)>, now: Instant) -> Option<Instant>
    decreases runs.len(),
{
    if runs.len() == 0 {
        None
    } else {
        let rest = soonest(runs.drop_last(), now);
        if is_slow(runs.last().1, now) {
            rest
        } else {
            let due = Instant { nanos: (runs.last().1.nanos + SPIN_AFTER) as u128 };
            match rest {
                Some(s) => if s.nanos <= due.nanos {
                    Some(s)
                } else {
                    Some(due)
                },
                None => Some(due),
            }
        }
    }
}

/// When the spinner is next wanted: after another step while something is waited for, and
/// otherwise when something will be. Nothing stops the timer.
pub open spec fn next_wanted(runs: Seq<(WhichView, Instant)>, now: Instant) -> Option<Instant> {
    if slow(runs, now).len() > 0 {
        Some(Instant { nanos: (now.nanos + SPIN_STEP) as u128 })
    } else {
        soonest(runs, now)
    }
}

impl Spinner {
    pub open spec fn wf(self) -> bool {
        &&& self.frames > 0
        &&& self.spin < self.frames
        &&& forall|i: int| 0 <= i < self.running@.len() ==> (#[trigger] self.running@[i]).1.wf()
    }

    /// Nothing is being waited for.
    pub fn new(frames: usize) -> (s: Spinner)
        requires
            frames > 0,
        ensures
            s.wf(),
            s.running@.len() == 0,
            s.waiting@.len() == 0,
            s.spin == 0,
            s.frames == frames,
            !s.scheduled,
    {
        Spinner { running: Vec::new(), waiting: Vec::new(), spin: 0, frames, scheduled: false }
    }

    /// Take a source out of the runs.
    fn drop_run(&mut self, which: &Which)
        ensures
            runs_view(final(self).running@) == without(runs_view(old(self).running@), which@),
            old(self).wf() ==> final(self).wf(),
            final(self).waiting == old(self).waiting,
            final(self).spin == old(self).spin,
            final(self).frames == old(self).frames,
            final(self).scheduled == old(self).scheduled,
    {
        let ghost all = runs_view(self.running@);
        let ghost well = old(self).wf();
        let mut kept: Vec<(Which, Instant)> = Vec::new();
        let long = self.running.len();
        assert(all.take(0) =~= Seq::<(WhichView, Instant)>::empty());
        assert(runs_view(kept@) =~= without(all.take(0), which@));
        for i in 0..long
            invariant
                long == self.running@.len(),
                *self == *old(self),
                all == runs_view(self.running@),
                runs_view(kept@) == without(all.take(i as int), which@),
                well == old(self).wf(),
                well ==> forall|j: int| 0 <= j < kept@.len() ==> (#[trigger] kept@[j]).1.wf(),
        {
            let ghost before = runs_view(kept@);
            proof {
                assert(all.take(i + 1).drop_last() =~= all.take(i as int));
                assert(all.take(i + 1).last() == (
                    self.running@[i as int].0@,
                    self.running@[i as int].1,
                ));
            }
            if !self.running[i].0.same(which) {
                let one = (self.running[i].0.copy(), self.running[i].1);
                let ghost seen = (one.0@, one.1);
                kept.push(one);
                assert(runs_view(kept@) =~= before.push(seen));
            }
        }
        assert(all.take(all.len() as int) =~= all);
        self.running = kept;
    }

    /// A command has answered, so whatever was said about waiting for it stops being said.
    pub fn answered(&mut self, which: &Which)
        ensures
            runs_view(final(self).running@) == without(runs_view(old(self).running@), which@),
            sources_view(final(self).waiting@) == but(sources_view(old(self).waiting@), which@),
            old(self).wf() ==> final(self).wf(),
            final(self).spin == old(self).spin,
            final(self).frames == old(self).frames,
            final(self).scheduled == old(self).scheduled,
    {
        self.drop_run(which);
        let ghost all = sources_view(self.waiting@);
        let mut kept: Vec<Which> = Vec::new();
        let long = self.waiting.len();
        assert(all.take(0) =~= Seq::<WhichView>::empty());
        assert(sources_view(kept@) =~= but(all.take(0), which@));
        for i in 0..long
            invariant
                long == self.waiting@.len(),
                all == sources_view(self.waiting@),
                sources_view(kept@) == but(all.take(i as int), which@),
        {
            let ghost before = sources_view(kept@);
            proof {
                assert(all.take(i + 1).drop_last() =~= all.take(i as int));
                assert(all.take(i + 1).last() == self.waiting@[i as int]@);
            }
            if !self.waiting[i].same(which) {
                let one = self.waiting[i].copy();
                let ghost seen = one@;
                kept.push(one);
                assert(sources_view(kept@) =~= before.push(seen));
            }
        }
        assert(all.take(all.len() as int) =~= all);
        self.waiting = kept;
    }

    /// Note that a command's program is running, and say whether a timer is now wanted.
    ///
    /// Nothing is drawn from here: starting a spinner for a script that answers in ten
    /// milliseconds would be a flicker bought with a wake-up.
    pub fn on_command_started(&mut self, which: &Which, now: Instant) -> (needed: bool)
        requires
            old(self).wf(),
            now.wf(),
        ensures
            final(self).wf(),
            runs_view(final(self).running@) == without(
                runs_view(old(self).running@),
                which@,
            ).push((which@, now)),
            final(self).waiting == old(self).waiting,
            final(self).spin == old(self).spin,
            final(self).frames == old(self).frames,
            final(self).scheduled,
            needed == !old(self).scheduled,
    {
        self.drop_run(which);
        let ghost before = runs_view(self.running@);
        self.running.push((which.copy(), now));
        assert(runs_view(self.running@) =~= before.push((which@, now)));
        let needed = !self.scheduled;
        self.scheduled = true;
        needed
    }

    /// Advance the spinner if anything has been waited for long enough. Says when it is next
    /// wanted, and whether the bar is to be drawn again: a spinner that has just appeared or
    /// just gone changes the bar as much as one that has turned.
    pub fn on_spin(&mut self, now: Instant) -> (r: (Option<Instant>, bool))
        requires
            old(self).wf(),
            now.wf(),
        ensures
            final(self).wf(),
            final(self).running == old(self).running,
            final(self).frames == old(self).frames,
            sources_view(final(self).waiting@) == slow(runs_view(old(self).running@), now),
            final(self).spin == if final(self).waiting@.len() > 0 {
                if old(self).spin + 1 == old(self).frames {
                    0
                } else {
                    old(self).spin + 1
                }
            } else {
                old(self).spin as int
            },
            r.0 == next_wanted(runs_view(old(self).running@), now),
            final(self).scheduled == (r.0 is Some),
            r.1 == (final(self).waiting@.len() > 0 || old(self).waiting@.len() > 0),
    {
        let ghost all = runs_view(self.running@);
        let was = self.waiting.len();
        let mut waiting: Vec<Which> = Vec::new();
        let mut first: Option<Instant> = None;
        let long = self.running.len();
        assert(all.take(0) =~= Seq::<(WhichView, Instant)>::empty());
        assert(sources_view(waiting@) =~= slow(all.take(0), now));
        for i in 0..long
            invariant
                long == self.running@.len(),
                *self == *old(self),
                self.wf(),
                all == runs_view(self.running@),
                sources_view(waiting@) == slow(all.take(i as int), now),
                first == soonest(all.take(i as int), now),
        {
            let ghost before = sources_view(waiting@);
            proof {
                assert(all.take(i + 1).drop_last() =~= all.take(i as int));
                assert(all.take(i + 1).last() == (
                    self.running@[i as int].0@,
                    self.running@[i as int].1,
                ));
                assert(self.running@[i as int].1.wf());
            }
            let started = self.running[i].1;
            if now.nanos >= started.nanos && now.nanos - started.nanos >= SPIN_AFTER {
                let one = self.running[i].0.copy();
                let ghost seen = one@;
                waiting.push(one);
                assert(sources_view(waiting@) =~= before.push(seen));
            } else {
                let due = started.after(Duration { nanos: SPIN_AFTER });
                first = match first {
                    Some(s) => if s.nanos <= due.nanos {
                        Some(s)
                    } else {
                        Some(due)
                    },
                    None => Some(due),
                };
            }
        }
        assert(all.take(all.len() as int) =~= all);
        let some = waiting.len() > 0;
        if some {
            self.spin = if self.spin + 1 == self.frames {
                0
            } else {
                self.spin + 1
            };
        }
        self.waiting = waiting;
        let next = if some {
            Some(now.after(Duration { nanos: SPIN_STEP }))
        } else {
            first
        };
        self.scheduled = next.is_some();
        (next, some || was > 0)
    }
}

/// Whether every command has one run.
pub open spec fn run_once(runs: Seq<(WhichView, Instant)>) -> bool {
    forall|i: int, j: int|
        0 <= i < j < runs.len() ==> key((#[trigger] runs[i]).0) != key((#[trigger] runs[j]).0)
}

proof fn lemma_without(runs: Seq<(WhichView, Instant)>, which: WhichView)
    ensures
        forall|k: int|
            0 <= k < without(runs, which).len() ==> key((#[trigger] without(runs, which)[k]).0)
                != key(which) && exists|i: int|
                0 <= i < runs.len() && #[trigger] runs[i] == without(runs, which)[k],
    decreases runs.len(),
{
    if runs.len() > 0 {
        let before = runs.drop_last();
        lemma_without(before, which);
        let rest = without(before, which);
        let all = without(runs, which);
        assert forall|k: int| 0 <= k < all.len() implies key((#[trigger] all[k]).0) != key(which)
            && exists|i: int| 0 <= i < runs.len() && #[trigger] runs[i] == all[k] by {
            if k < rest.len() {
                assert(all[k] == rest[k]);
                let i = choose|i: int| 0 <= i < before.len() && #[trigger] before[i] == rest[k];
                assert(runs[i] == all[k]);
            } else {
                assert(runs[runs.len() - 1] == all[k]);
            }
        }
    }
}

/// A command is waited for once, however often it is started: its last run takes the place of
/// the one before.
pub proof fn law_a_command_is_waited_for_once(
    runs: Seq<(WhichView, Instant)>,
    which: WhichView,
    now: Instant,
)
    requires
        run_once(runs),
    ensures
        run_once(without(runs, which)),
        run_once(without(runs, which).push((which, now))),
    decreases runs.len(),
{
    lemma_without(runs, which);
    if runs.len() > 0 {
        let before = runs.drop_last();
        assert forall|i: int, j: int| 0 <= i < j < before.len() implies key(
            (#[trigger] before[i]).0,
        ) != key((#[trigger] before[j]).0) by {
            assert(before[i] == runs[i] && before[j] == runs[j]);
        }
        law_a_command_is_waited_for_once(before, which, now);
        lemma_without(before, which);
        let rest = without(before, which);
        let all = without(runs, which);
        assert forall|i: int, j: int| 0 <= i < j < all.len() implies key((#[trigger] all[i]).0)
            != key((#[trigger] all[j]).0) by {
            assert(all[i] == rest[i]);
            if j < rest.len() {
                assert(all[j] == rest[j]);
            } else {
                let k = choose|k: int| 0 <= k < before.len() && #[trigger] before[k] == rest[i];
                assert(runs[k] == all[i]);
                assert(all[j] == runs[runs.len() - 1]);
            }
        }
    }
}

/// A timer runs only while something is being waited for: with every command answered, none is
/// wanted, and while one is out, one always is.
pub proof fn law_a_timer_runs_only_while_something_is_out(
    runs: Seq<(WhichView, Instant)>,
    now: Instant,
)
    ensures
        next_wanted(runs, now) is Some <==> runs.len() > 0,
    decreases runs.len(),
{
    if runs.len() > 0 {
        law_a_timer_runs_only_while_something_is_out(runs.drop_last(), now);
    }
}

/// A command is waited for out loud exactly while a run of it has taken long: a quick one never
/// is, and a slow one always is.
pub proof fn law_only_a_slow_command_spins(
    runs: Seq<(WhichView, Instant)>,
    now: Instant,
    which: WhichView,
)
    ensures
        slow(runs, now).contains(which) <==> exists|i: int|
            0 <= i < runs.len() && (#[trigger] runs[i]).0 == which && is_slow(runs[i].1, now),
    decreases runs.len(),
{
    if runs.len() > 0 {
        let before = runs.drop_last();
        let rest = slow(before, now);
        let all = slow(runs, now);
        law_only_a_slow_command_spins(before, now, which);
        if all.contains(which) {
            let k = choose|k: int| 0 <= k < all.len() && all[k] == which;
            if k < rest.len() {
                assert(rest[k] == which);
                let i = choose|i: int|
                    0 <= i < before.len() && (#[trigger] before[i]).0 == which && is_slow(
                        before[i].1,
                        now,
                    );
                assert(runs[i].0 == which);
            } else {
                assert(runs[runs.len() - 1].0 == which);
            }
        }
        if exists|i: int|
            0 <= i < runs.len() && (#[trigger] runs[i]).0 == which && is_slow(runs[i].1, now) {
            let i = choose|i: int|
                0 <= i < runs.len() && (#[trigger] runs[i]).0 == which && is_slow(runs[i].1, now);
            if i == runs.len() - 1 {
                assert(all[rest.len() as int] == which);
            } else {
                assert(before[i].0 == which);
                let k = choose|k: int| 0 <= k < rest.len() && rest[k] == which;
                assert(all[k] == which);
            }
        }
    }
}

} // verus!
