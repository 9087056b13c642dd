//! Sources that are read on a thread of their own, because reading them can wait.
//!
//! A filesystem answers when it answers, which for a network mount whose server has gone is not
//! a length of time anyone can put a number on. Read on the thread that draws, that would stop
//! the whole bar. One thread per source rather than one for all of them: a source which stalls
//! stalls nothing else.

use crate::collect::registry::{backoff, stretch, stretchable};
use crate::collect::unread::Unread;
use crate::collect::which::{is_watchable, Which, WhichView};
use crate::status::Reading;
use crate::time::Duration;
use vstd::prelude::*;

verus! {

/// A reading from a source read away from the bar's own thread.
#[derive(Debug)]
pub struct Taken {
    pub which: Which,
    /// What the read came to, since a source that cannot be read has to say so the same way one
    /// read on the timer does.
    pub read: Result<Reading, Unread>,
}

/// Whether a source read on its own thread keeps a way to be asked early. Kernel notifications
/// are requests just like configured buttons and signals.
pub open spec fn askable(w: WhichView, configured: bool) -> bool {
    configured || is_watchable(w)
}

/// Whether this worker needs an early-refresh channel.
pub fn needs_trigger(which: &Which, configured: bool) -> (r: bool)
    ensures
        r == askable(which@, configured),
{
    configured || which.watchable()
}

/// What happened to a thread that reads one source.
#[derive(Clone, Copy, Debug, PartialEq, Eq, Structural)]
pub enum Happened {
    /// It was started.
    Begun,
    /// It read its source, well or not.
    Took(bool),
    /// It sent what it read.
    Sent,
    /// Nobody is listening any more.
    Unheard,
    /// It was asked for a reading.
    Asked,
    /// Nothing is left to ask it.
    Unasked,
    /// It waited as long as it meant to.
    Elapsed,
}

/// What a thread that reads one source does next.
#[derive(Clone, Copy, Debug, PartialEq, Eq, Structural)]
pub enum Next {
    /// Read the source.
    Read,
    /// Send what was read.
    Send,
    /// Wait until something asks, but no longer than this. However often it was asked
    /// meanwhile, it wants one reading.
    AwaitAskFor(Duration),
    /// Wait this long.
    Sleep(Duration),
    /// There is nothing left to do.
    Stop,
}

/// A thread that reads one source: how often, whether anything can ask it for a reading early,
/// and how many times in a row it has failed.
#[derive(Clone, Copy, Debug, PartialEq, Eq, Structural)]
pub struct Reader {
    pub interval: Duration,
    pub askable: bool,
    pub failures: u32,
}

/// How long a source is left alone: a mount that has gone or an interface that was unplugged is
/// asked less and less often rather than at its full rate forever.
pub open spec fn rest(r: Reader) -> Duration {
    Duration { nanos: (r.interval.nanos * stretch(r.failures as int)) as u128 }
}

/// What comes next. Nobody listening is what stops the thread, which is how it ends when the
/// bar does.
pub open spec fn does(r: Reader, h: Happened) -> Next {
    match h {
        Happened::Begun | Happened::Asked | Happened::Elapsed => Next::Read,
        Happened::Took(_) => Next::Send,
        Happened::Unheard => Next::Stop,
        Happened::Sent => if r.askable {
            Next::AwaitAskFor(rest(r))
        } else {
            Next::Sleep(rest(r))
        },
        Happened::Unasked => Next::Sleep(rest(r)),
    }
}

/// How many times in a row a source has failed, after this.
pub open spec fn failed(r: Reader, h: Happened) -> u32 {
    match h {
        Happened::Took(true) => 0,
        Happened::Took(false) => if r.failures < u32::MAX {
            (r.failures + 1) as u32
        } else {
            r.failures
        },
        _ => r.failures,
    }
}

impl Reader {
    pub fn new(which: &Which, interval: Duration, configured: bool) -> (r: Reader)
        ensures
            r == (Reader { interval, askable: askable(which@, configured), failures: 0 }),
    {
        Reader { interval, askable: needs_trigger(which, configured), failures: 0 }
    }

    /// Take in what happened, and say what to do next.
    pub fn next(&mut self, happened: Happened) -> (n: Next)
        requires
            happened is Sent || happened is Unasked ==> stretchable(
                old(self).interval,
                old(self).failures as int,
            ),
        ensures
            *final(self) == (Reader { failures: failed(*old(self), happened), ..*old(self) }),
            n == does(*old(self), happened),
    {
        match happened {
            Happened::Begun | Happened::Asked | Happened::Elapsed => Next::Read,
            Happened::Took(well) => {
                if well {
                    self.failures = 0;
                } else if self.failures < u32::MAX {
                    self.failures = self.failures + 1;
                }
                Next::Send
            },
            Happened::Unheard => Next::Stop,
            Happened::Sent => {
                let wait = backoff(self.interval, self.failures);
                if self.askable {
                    Next::AwaitAskFor(wait)
                } else {
                    Next::Sleep(wait)
                }
            },
            Happened::Unasked => Next::Sleep(backoff(self.interval, self.failures)),
        }
    }
}

/// A source the kernel can report a change on always keeps a way to be asked.
pub proof fn law_every_watchable_source_can_be_asked(w: WhichView, configured: bool)
    requires
        is_watchable(w),
    ensures
        askable(w, configured),
{
}

/// A source that fails is left alone no less long than before, and one that was read well is
/// back at its own interval.
pub proof fn law_failing_is_asked_less_often(r: Reader, well: bool)
    requires
        stretchable(r.interval, r.failures as int),
        stretchable(r.interval, failed(r, Happened::Took(well)) as int),
    ensures
        ({
            let after = Reader { failures: failed(r, Happened::Took(well)), ..r };
            &&& !well ==> rest(after).nanos >= rest(r).nanos
            &&& well ==> rest(after) == r.interval
        }),
{
    let a = stretch(r.failures as int);
    let b = stretch(failed(r, Happened::Took(well)) as int);
    assert(r.interval.nanos * 1 == r.interval.nanos);
    assert(0 <= r.interval.nanos * a <= r.interval.nanos * 32) by (nonlinear_arith)
        requires
            1 <= a <= 32,
    ;
    assert(0 <= r.interval.nanos * b <= r.interval.nanos * 32) by (nonlinear_arith)
        requires
            1 <= b <= 32,
    ;
    if !well {
        assert(a <= b);
        assert(r.interval.nanos * a <= r.interval.nanos * b) by (nonlinear_arith)
            requires
                a <= b,
        ;
    }
}

} // verus!
