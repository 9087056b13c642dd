//! A bar that keeps out of sight until the pointer reaches its edge.

use crate::time::{Duration, Instant};
use vstd::prelude::*;

verus! {

/// One bar that keeps out of sight until the pointer reaches its edge.
///
/// Only a deadline is kept: a bar that is shown and hovered, pinned or hidden counts nothing
/// down.
#[derive(Clone, Copy, Debug, PartialEq, Eq, Structural)]
pub struct Autohide {
    pub delay: Duration,
    pub is_pinned: bool,
    pub hovered: bool,
    pub is_hidden: bool,
    pub hide_at: Option<Instant>,
}

/// A bar counting down to being hidden, unless something keeps it where it is.
pub open spec fn waiting(a: Autohide, now: Instant, held: bool) -> Autohide {
    Autohide {
        hide_at: if a.is_hidden || a.hovered || a.is_pinned || held {
            None
        } else {
            Some(Instant { nanos: (now.nanos + a.delay.nanos) as u128 })
        },
        ..a
    }
}

/// A bar that the pointer has arrived at.
pub open spec fn entered(a: Autohide) -> Autohide {
    Autohide { hovered: true, hide_at: None, is_hidden: false, ..a }
}

/// A bar that the pointer has gone from. An open menu keeps the bar it hangs from.
pub open spec fn left(a: Autohide, now: Instant, held: bool) -> Autohide {
    waiting(Autohide { hovered: false, ..a }, now, held)
}

/// A bar pinned in view, or let go.
pub open spec fn pinned_as(a: Autohide, pinned: bool, now: Instant, held: bool) -> Autohide {
    if pinned {
        Autohide { is_pinned: true, hide_at: None, is_hidden: false, ..a }
    } else {
        waiting(Autohide { is_pinned: false, ..a }, now, held)
    }
}

/// Whether a bar's time has come.
pub open spec fn is_due(a: Autohide, now: Instant) -> bool {
    match a.hide_at {
        Some(at) => at.nanos <= now.nanos,
        None => false,
    }
}

/// A bar hidden if its time has come.
pub open spec fn stepped(a: Autohide, now: Instant) -> Autohide {
    if is_due(a, now) {
        Autohide { hide_at: None, is_hidden: true, ..a }
    } else {
        a
    }
}

impl Autohide {
    /// Nothing counts down while a bar is hidden, under the pointer or pinned.
    pub open spec fn wf(self) -> bool {
        self.delay.wf() && (self.hide_at is Some ==> !self.is_hidden && !self.hovered
            && !self.is_pinned)
    }

    /// A bar starts out of the way; the pointer or a signal is what brings it out.
    pub fn new(delay: Duration) -> (a: Autohide)
        requires
            delay.wf(),
        ensures
            a.wf(),
            a == (Autohide {
                delay,
                is_pinned: false,
                hovered: false,
                is_hidden: true,
                hide_at: None,
            }),
    {
        Autohide { delay, is_pinned: false, hovered: false, is_hidden: true, hide_at: None }
    }

    pub fn hidden(&self) -> (r: bool)
        ensures
            r == self.is_hidden,
    {
        self.is_hidden
    }

    /// When this bar hides next, if anything is counting down.
    pub fn due(&self) -> (r: Option<Instant>)
        ensures
            r == self.hide_at,
    {
        self.hide_at
    }

    /// The pointer has arrived, returning whether that brought the bar out.
    pub fn enter(&mut self) -> (r: bool)
        requires
            old(self).wf(),
        ensures
            final(self).wf(),
            *final(self) == entered(*old(self)),
            r == old(self).is_hidden,
    {
        let was = self.is_hidden;
        self.hovered = true;
        self.hide_at = None;
        self.is_hidden = false;
        was
    }

    /// The pointer has gone. `held` is an open menu, which keeps the bar it hangs from.
    pub fn leave(&mut self, now: Instant, held: bool)
        requires
            old(self).wf(),
            now.wf(),
        ensures
            final(self).wf(),
            *final(self) == left(*old(self), now, held),
    {
        self.hovered = false;
        self.hide_at = None;
        self.wait(now, held);
    }

    /// Pin the bar in view or let it hide again, returning whether that brought it out.
    pub fn pin(&mut self, pinned: bool, now: Instant, held: bool) -> (r: bool)
        requires
            old(self).wf(),
            now.wf(),
        ensures
            final(self).wf(),
            *final(self) == pinned_as(*old(self), pinned, now, held),
            r == (pinned && old(self).is_hidden),
    {
        self.is_pinned = pinned;
        self.hide_at = None;
        if pinned {
            let was = self.is_hidden;
            self.is_hidden = false;
            return was;
        }
        self.wait(now, held);
        false
    }

    pub fn pinned(&self) -> (r: bool)
        ensures
            r == self.is_pinned,
    {
        self.is_pinned
    }

    /// Take another delay without disturbing where the bar is in hiding.
    ///
    /// A countdown already running keeps the deadline it was given: moving it would either hide
    /// a bar early or hold out one that was about to go.
    pub fn set_delay(&mut self, delay: Duration)
        requires
            old(self).wf(),
            delay.wf(),
        ensures
            final(self).wf(),
            *final(self) == (Autohide { delay, ..*old(self) }),
    {
        self.delay = delay;
    }

    /// Start counting down again once whatever held the bar out has let go.
    pub fn wait(&mut self, now: Instant, held: bool)
        requires
            old(self).wf(),
            now.wf(),
        ensures
            final(self).wf(),
            *final(self) == waiting(*old(self), now, held),
    {
        let staying = self.is_hidden || self.hovered || self.is_pinned || held;
        self.hide_at = if staying {
            None
        } else {
            Some(now.after(self.delay))
        };
    }

    /// Hide the bar if its time has come, returning whether it did.
    pub fn step(&mut self, now: Instant) -> (r: bool)
        requires
            old(self).wf(),
        ensures
            final(self).wf(),
            *final(self) == stepped(*old(self), now),
            r == is_due(*old(self), now),
    {
        match self.hide_at {
            Some(at) => {
                if at.nanos <= now.nanos {
                    self.hide_at = None;
                    self.is_hidden = true;
                    true
                } else {
                    false
                }
            },
            None => false,
        }
    }
}

/// A bar that the pointer left, with nothing holding it, is hidden once its delay is over and
/// not before.
pub proof fn law_a_bar_goes_after_its_delay(a: Autohide, gone: Instant, now: Instant)
    requires
        a.wf(),
        gone.wf(),
        !a.is_hidden,
        !a.is_pinned,
    ensures
        stepped(left(a, gone, false), now).is_hidden <==> now.nanos >= gone.nanos + a.delay.nanos,
{
}

/// A bar that is pinned, held by a menu or under the pointer never hides, however late it is.
pub proof fn law_a_bar_that_is_kept_never_hides(
    a: Autohide,
    gone: Instant,
    held: bool,
    now: Instant,
)
    requires
        a.wf(),
        gone.wf(),
        !a.is_hidden,
    ensures
        a.is_pinned || held ==> !stepped(left(a, gone, held), now).is_hidden,
        !stepped(entered(a), now).is_hidden,
        !stepped(pinned_as(a, true, gone, held), now).is_hidden,
{
}

/// Coming back before the delay is over takes back the leaving.
pub proof fn law_coming_back_keeps_the_bar_out(a: Autohide, gone: Instant, held: bool)
    requires
        a.wf(),
        gone.wf(),
    ensures
        entered(left(a, gone, held)) == entered(a),
{
}

} // verus!
