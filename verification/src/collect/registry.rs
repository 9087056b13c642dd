//! What the sources of a configuration last said, and when each is next due.
//!
//! One deadline serves the whole set: the loop sleeps until the earliest, then reads everything
//! that has come due and redraws once. Ten modules on the same interval cause one wake-up, not
//! ten.

use crate::collect::which::{arrives, description, key, Which, WhichView};
use crate::status::{blank_reading, lemma_same_pages, readings_view, same_pages, same_reading, Reading};
use crate::status::{ReadingView, State};
use crate::text::{comes_before, lemma_text_order, text_before};
use crate::time::{Duration, Instant, LONGEST};
use vstd::prelude::*;

verus! {

/// How far the wait is allowed to stretch while a source keeps failing: doubled this often.
pub const MAX_BACKOFF: u32 = 5;

/// How far past the boundary an aligned reading aims, at most, in nanoseconds.
///
/// Aiming exactly at the minute is a coin toss, and losing it is expensive: a timer that fires
/// a hair early reads a clock that still says the minute before, and that wording then stands
/// for the whole of the next minute.
pub const ALIGNMENT_GUARD: u128 = 2_000_000;

/// Two to the power of the doublings a number of failures brings.
pub open spec fn stretch(failures: int) -> int {
    if failures <= 0 {
        1
    } else if failures == 1 {
        2
    } else if failures == 2 {
        4
    } else if failures == 3 {
        8
    } else if failures == 4 {
        16
    } else {
        32
    }
}

/// Whether an interval stretched by this many failures is a length of time.
pub open spec fn stretchable(interval: Duration, failures: int) -> bool {
    interval.nanos * stretch(failures) <= LONGEST
}

/// How long to wait before reading a source again, given how often reading it has failed.
///
/// Doubling while a source is failing is what keeps a missing sensor or an interface that was
/// unplugged from being asked at its full rate forever.
pub fn backoff(interval: Duration, failures: u32) -> (d: Duration)
    requires
        stretchable(interval, failures as int),
    ensures
        d.nanos == interval.nanos * stretch(failures as int),
        d.wf(),
{
    let times: u128 = if failures == 0 {
        1
    } else if failures == 1 {
        2
    } else if failures == 2 {
        4
    } else if failures == 3 {
        8
    } else if failures == 4 {
        16
    } else {
        32
    };
    Duration { nanos: interval.nanos * times }
}

/// A source that keeps failing is never asked more often than before, and never less often
/// than the stretched interval.
pub proof fn law_waiting_grows_and_stops_growing(failures: int, more: int)
    requires
        0 <= failures <= more,
    ensures
        stretch(0) == 1,
        stretch(failures) <= stretch(more) <= 32,
        failures < more <= MAX_BACKOFF ==> stretch(failures) < stretch(more),
        MAX_BACKOFF <= failures ==> stretch(failures) == 32,
{
}

/// The guard an interval can afford: the whole of it, or a quarter of a short one.
pub open spec fn guard(interval: int) -> int {
    if ALIGNMENT_GUARD <= interval / 4 {
        ALIGNMENT_GUARD as int
    } else {
        interval / 4
    }
}

/// The guard this interval can afford.
pub fn guard_for(interval: Duration) -> (d: Duration)
    ensures
        d.nanos == guard(interval.nanos as int),
{
    Duration { nanos: ALIGNMENT_GUARD }.shorter(Duration { nanos: interval.nanos / 4 })
}

/// How far ahead the next whole multiple of an interval is.
pub open spec fn to_boundary(since_epoch: int, interval: int) -> int {
    interval - since_epoch % interval
}

/// The wait that lands just after the next whole multiple of an interval on the wall clock, or
/// as many nanoseconds and the guard as 64 bits count where that is further off.
pub open spec fn aligned_wait(since_epoch: int, interval: int) -> int {
    if interval == 0 {
        0
    } else if to_boundary(since_epoch, interval) > u64::MAX {
        u64::MAX + guard(interval)
    } else {
        to_boundary(since_epoch, interval) + guard(interval)
    }
}

/// The wait that lands just after the next whole multiple of `interval` on the wall clock,
/// which is `since_epoch` into its era.
///
/// A remainder is never rounded up to a whole interval: a reading taken a fraction of a
/// millisecond early waits for the boundary in front of it, not for the one after.
pub fn align_from(since_epoch: Duration, interval: Duration) -> (d: Duration)
    ensures
        d.nanos == aligned_wait(since_epoch.nanos as int, interval.nanos as int),
        d.wf(),
{
    if interval.nanos == 0 {
        return interval;
    }
    let past: u128 = since_epoch.nanos % interval.nanos;
    let ahead: u128 = interval.nanos - past;
    let remaining: u128 = if ahead > u64::MAX as u128 {
        u64::MAX as u128
    } else {
        ahead
    };
    Duration { nanos: remaining + guard_for(interval).nanos }
}

/// An aligned reading lands just past a boundary: the wait is more than nothing, it ends
/// exactly the guard after a whole multiple of the interval, and that is the first such point
/// the guard's width or more away. That is so of every boundary that is no more nanoseconds
/// away than 64 bits count.
pub proof fn law_alignment_aims_just_past_the_next_boundary(since_epoch: int, interval: int)
    requires
        0 <= since_epoch,
        0 < interval,
        to_boundary(since_epoch, interval) <= u64::MAX,
    ensures
        0 < aligned_wait(since_epoch, interval) <= interval + guard(interval),
        (since_epoch + aligned_wait(since_epoch, interval) - guard(interval)) % interval == 0,
        guard(interval) <= interval / 4,
{
    let past = since_epoch % interval;
    let whole = since_epoch / interval;
    vstd::arithmetic::div_mod::lemma_fundamental_div_mod(since_epoch, interval);
    assert(0 <= past < interval) by (nonlinear_arith)
        requires
            0 < interval,
            past == since_epoch % interval,
    ;
    assert(since_epoch + (interval - past) == interval * (whole + 1)) by (nonlinear_arith)
        requires
            since_epoch == interval * whole + past,
    ;
    vstd::arithmetic::div_mod::lemma_mod_multiples_basic(whole + 1, interval);
    assert(interval * (whole + 1) == (whole + 1) * interval) by (nonlinear_arith);
}

/// What the registry keeps of one source.
#[derive(Debug)]
pub struct Entry {
    pub which: Which,
    pub interval: Duration,
    /// The last thing this said, and never empty. Kept across a failure, so a momentary error
    /// does not blank a module that was working a second ago.
    pub readings: Vec<Reading>,
    /// When to read next, or nothing at all while the kernel is reporting changes.
    pub due: Option<Instant>,
    /// Whether a watcher is reporting this source's changes, so it costs no wake-ups.
    pub watched: bool,
    /// Consecutive failures, which lengthen the wait before trying again.
    pub failures: u32,
    /// Whether the current failure has been reported, so a broken sensor is reported once.
    pub reported: bool,
    /// What the wall clock said when an aligned source was last read, in nanoseconds since the
    /// epoch, where it is set after the epoch.
    pub read_at: Option<u128>,
}

/// What an `Entry` says.
#[verifier::ext_equal]
pub struct EntryView {
    pub which: WhichView,
    pub interval: Duration,
    pub readings: Seq<ReadingView>,
    pub due: Option<Instant>,
    pub watched: bool,
    pub failures: u32,
    pub reported: bool,
    pub read_at: Option<u128>,
}

impl View for Entry {
    type V = EntryView;

    open spec fn view(&self) -> EntryView {
        EntryView {
            which: self.which@,
            interval: self.interval,
            readings: readings_view(self.readings@),
            due: self.due,
            watched: self.watched,
            failures: self.failures,
            reported: self.reported,
            read_at: self.read_at,
        }
    }
}

/// What a list of entries says.
pub open spec fn entries_view(entries: Seq<Entry>) -> Seq<EntryView> {
    Seq::new(entries.len(), |i: int| entries[i]@)
}

/// Whether an entry is one that can always be scheduled: it holds something, and its interval
/// can be stretched as far as it ever is.
pub open spec fn entry_wf(e: EntryView) -> bool {
    e.readings.len() > 0 && stretchable(e.interval, MAX_BACKOFF as int)
}

/// Whether an entry can be scheduled now: it is left to its watcher, or the interval stretched
/// by its failures is a length of time.
pub open spec fn schedulable(e: EntryView) -> bool {
    (e.watched && e.failures == 0) || stretchable(e.interval, e.failures as int)
}

/// The bucket of an interval a point in time falls in.
pub open spec fn bucket(at: int, interval: int) -> int {
    at / if interval < 1 {
        1
    } else {
        interval
    }
}

/// Whether an aligned reading is about a boundary the wall clock has already left.
///
/// The deadline is on the monotonic clock, which does not run while the machine is suspended;
/// the reading is about the wall clock, which does. So a laptop that slept through three
/// boundaries wakes with a clock that is right about none of them and a deadline still in the
/// future.
pub open spec fn is_late(e: EntryView, wall: Option<u128>) -> bool {
    e.which is Time && (e.read_at matches Some(then) && (wall matches Some(now) && bucket(
        now as int,
        e.interval.nanos as int,
    ) > bucket(then as int, e.interval.nanos as int)))
}

/// Whether an entry should be read: it is due on the timer, or it holds a reading the wall
/// clock has left behind.
pub open spec fn to_read(e: EntryView, now: Instant, wall: Option<u128>) -> bool {
    (e.due matches Some(due) && due.nanos <= now.nanos) || is_late(e, wall)
}

/// When an entry that was just read should be read next.
///
/// A watched source is read when it changes. It goes back on the timer only while it is
/// failing, so a sensor that has broken is still retried.
pub open spec fn next_read(e: EntryView, now: Instant, wall: Option<u128>) -> Option<Instant> {
    if e.watched && e.failures == 0 {
        None
    } else {
        let wait = e.interval.nanos * stretch(e.failures as int);
        Some(
            Instant {
                nanos: (now.nanos + if e.which is Time && e.failures == 0 {
                    match wall {
                        Some(since) => aligned_wait(since as int, wait),
                        // A clock set before the epoch is not one to schedule against.
                        None => wait,
                    }
                } else {
                    wait
                }) as u128,
            },
        )
    }
}

/// The same readings, each rated as an error.
pub open spec fn staled(readings: Seq<ReadingView>) -> Seq<ReadingView> {
    readings.map_values(|r: ReadingView| ReadingView { state: State::Error, ..r })
}

/// What is held once something was said: that, unless it would be drawn as what is held already.
pub open spec fn replaced(held: Seq<ReadingView>, said: Seq<ReadingView>) -> Seq<ReadingView> {
    if same_pages(held, said) {
        held
    } else {
        said
    }
}

/// An entry once a read has come to something. A reading replaces what was held, where it would
/// be drawn otherwise; a failure keeps the last good reading on screen, marked as stale.
pub open spec fn recorded(e: EntryView, read: Result<ReadingView, Seq<char>>) -> EntryView {
    match read {
        Ok(reading) => EntryView {
            readings: replaced(e.readings, seq![reading]),
            failures: 0,
            reported: false,
            ..e
        },
        Err(_) => EntryView {
            readings: staled(e.readings),
            failures: if e.failures == u32::MAX {
                u32::MAX
            } else {
                (e.failures + 1) as u32
            },
            reported: true,
            ..e
        },
    }
}

/// Whether recording a read changes what is drawn. A source that reads the same again, or
/// stays broken, has nothing for the bar to redraw.
pub open spec fn changes(e: EntryView, read: Result<ReadingView, Seq<char>>) -> bool {
    match read {
        Ok(reading) => !same_pages(e.readings, seq![reading]),
        Err(_) => staled(e.readings) != e.readings,
    }
}

/// What a read came to.
pub open spec fn read_view(read: Result<Reading, String>) -> Result<ReadingView, Seq<char>> {
    match read {
        Ok(reading) => Ok(reading@),
        Err(why) => Err(why@),
    }
}

impl Entry {
    fn late(&self, wall: Option<u128>) -> (r: bool)
        ensures
            r == is_late(self@, wall),
    {
        if !self.which.aligned() {
            return false;
        }
        match (self.read_at, wall) {
            (Some(then), Some(now)) => {
                let step: u128 = if self.interval.nanos < 1 {
                    1
                } else {
                    self.interval.nanos
                };
                now / step > then / step
            },
            _ => false,
        }
    }

    fn should_read(&self, now: Instant, wall: Option<u128>) -> (r: bool)
        ensures
            r == to_read(self@, now, wall),
    {
        let due = match self.due {
            Some(due) => due.nanos <= now.nanos,
            None => false,
        };
        due || self.late(wall)
    }

    fn next_due(&self, now: Instant, wall: Option<u128>) -> (r: Option<Instant>)
        requires
            schedulable(self@),
            now.wf(),
        ensures
            r == next_read(self@, now, wall),
    {
        if self.watched && self.failures == 0 {
            return None;
        }
        let wait = backoff(self.interval, self.failures);
        if !self.which.aligned() || self.failures > 0 {
            return Some(now.after(wait));
        }
        match wall {
            Some(since) => {
                proof {
                    let times = stretch(self.failures as int);
                    assert(times == 1);
                    assert(self.interval.nanos * times == self.interval.nanos) by (nonlinear_arith)
                        requires
                            times == 1,
                    ;
                }
                let wait = align_from(Duration { nanos: since }, wait);
                Some(Instant { nanos: now.nanos + wait.nanos })
            },
            None => Some(now.after(wait)),
        }
    }

    /// Rate every reading as an error, and say whether any of them was not one already.
    fn stale(&mut self) -> (changed: bool)
        ensures
            final(self)@ == (EntryView { readings: staled(old(self)@.readings), ..old(self)@ }),
            changed == (staled(old(self)@.readings) != old(self)@.readings),
    {
        let ghost start = self@;
        let ghost all = self@.readings;
        let total: usize = self.readings.len();
        let mut changed = false;
        for i in 0..total
            invariant
                total == self.readings@.len(),
                total == all.len(),
                start == old(self)@,
                all == start.readings,
                self@ == (EntryView { readings: self@.readings, ..start }),
                forall|j: int|
                    0 <= j < i ==> (#[trigger] self.readings@[j])@ == (ReadingView {
                        state: State::Error,
                        ..all[j]
                    }),
                forall|j: int| i <= j < total ==> (#[trigger] self.readings@[j])@ == all[j],
                changed ==> exists|j: int|
                    0 <= j < i && (#[trigger] all[j]).state != State::Error,
                !changed ==> forall|j: int|
                    0 <= j < i ==> (#[trigger] all[j]).state == State::Error,
        {
            assert(self.readings@[i as int]@ == all[i as int]);
            if self.readings[i].state != State::Error {
                changed = true;
                assert(all[i as int].state != State::Error);
            }
            self.readings[i].state = State::Error;
        }
        proof {
            assert(self@.readings =~= staled(all));
            if changed {
                let j = choose|j: int|
                    0 <= j < total && (#[trigger] all[j]).state != State::Error;
                assert(staled(all)[j] != all[j]);
            } else {
                assert(staled(all) =~= all);
            }
        }
        changed
    }

    /// Keep what a read came to, and say whether it changes what is drawn.
    fn record(&mut self, read: Result<Reading, String>) -> (changed: bool)
        ensures
            final(self)@ == recorded(old(self)@, read_view(read)),
            changed == changes(old(self)@, read_view(read)),
    {
        match read {
            Ok(reading) => {
                self.failures = 0;
                self.reported = false;
                let ghost shown = reading@;
                if self.readings.len() == 1 && self.readings[0].same(&reading) {
                    assert(same_pages(old(self)@.readings, seq![shown]));
                    return false;
                }
                proof {
                    let all = old(self)@.readings;
                    if same_pages(all, seq![shown]) {
                        assert(same_reading(all[0], seq![shown][0]));
                    }
                }
                self.readings = vec![reading];
                assert(self@.readings =~= seq![shown]);
                true
            },
            Err(_) => {
                let changed = self.stale();
                self.failures = if self.failures == u32::MAX {
                    u32::MAX
                } else {
                    self.failures + 1
                };
                self.reported = true;
                changed
            },
        }
    }
}

/// The sources a configuration asks for, and when each is next due.
#[derive(Debug)]
pub struct Registry {
    pub entries: Vec<Entry>,
}

impl View for Registry {
    type V = Seq<EntryView>;

    open spec fn view(&self) -> Seq<EntryView> {
        entries_view(self.entries@)
    }
}

/// Whether every entry is one that can be scheduled.
pub open spec fn registry_wf(entries: Seq<EntryView>) -> bool {
    forall|i: int| 0 <= i < entries.len() ==> entry_wf(#[trigger] entries[i])
}

/// A source as it is first kept: due at once, unless it arrives on its own.
pub open spec fn fresh(which: WhichView, interval: Duration, now: Instant) -> EntryView {
    EntryView {
        which,
        interval,
        readings: seq![blank_reading()],
        due: if arrives(which) {
            None
        } else {
            Some(now)
        },
        watched: arrives(which),
        failures: 0,
        reported: false,
        read_at: None,
    }
}

/// Where a source goes among entries in order: before the first one, from `from` on, that is
/// described by a later text.
pub open spec fn place(entries: Seq<EntryView>, which: WhichView, from: int) -> int
    decreases entries.len() - from,
{
    if from < 0 || from >= entries.len() || text_before(
        description(which),
        description(entries[from].which),
    ) {
        from
    } else {
        place(entries, which, from + 1)
    }
}

/// The entries for these sources, in the order of what they are described by. A stable order
/// keeps a log from depending on the order the sources were collected in.
pub open spec fn opened(wanted: Seq<(Which, Duration)>, now: Instant) -> Seq<EntryView>
    decreases wanted.len(),
{
    if wanted.len() == 0 {
        Seq::empty()
    } else {
        let before = opened(wanted.drop_last(), now);
        let (which, interval) = wanted.last();
        before.insert(place(before, which@, 0), fresh(which@, interval, now))
    }
}

/// Whether every source is asked for once.
pub open spec fn asked_once(wanted: Seq<(Which, Duration)>) -> bool {
    forall|i: int, j: int|
        0 <= i < j < wanted.len() ==> key((#[trigger] wanted[i]).0@) != key(
            (#[trigger] wanted[j]).0@,
        )
}

/// Whether every source has one entry.
pub open spec fn kept_once(entries: Seq<EntryView>) -> bool {
    forall|i: int, j: int|
        0 <= i < j < entries.len() ==> key((#[trigger] entries[i]).which) != key(
            (#[trigger] entries[j]).which,
        )
}

/// Whether every entry is for a source that is asked for.
spec fn all_asked_for(entries: Seq<EntryView>, wanted: Seq<(Which, Duration)>) -> bool {
    forall|i: int|
        0 <= i < entries.len() ==> exists|k: int|
            0 <= k < wanted.len() && (#[trigger] entries[i]).which == (#[trigger] wanted[k]).0@
}

proof fn lemma_kept_once(wanted: Seq<(Which, Duration)>, now: Instant)
    requires
        asked_once(wanted),
    ensures
        kept_once(opened(wanted, now)),
        all_asked_for(opened(wanted, now), wanted),
    decreases wanted.len(),
{
    if wanted.len() > 0 {
        let rest = wanted.drop_last();
        assert forall|i: int, j: int| 0 <= i < j < rest.len() implies key(
            (#[trigger] rest[i]).0@,
        ) != key((#[trigger] rest[j]).0@) by {
            assert(rest[i] == wanted[i] && rest[j] == wanted[j]);
        }
        lemma_kept_once(rest, now);
        let before = opened(rest, now);
        let (which, interval) = wanted.last();
        let at = place(before, which@, 0);
        lemma_place(before, which@, 0);
        let all = before.insert(at, fresh(which@, interval, now));
        assert forall|i: int| 0 <= i < before.len() implies key((#[trigger] before[i]).which)
            != key(which@) by {
            let k = choose|k: int|
                0 <= k < rest.len() && before[i].which == (#[trigger] rest[k]).0@;
            assert(rest[k] == wanted[k]);
            assert(wanted[wanted.len() - 1] == wanted.last());
        }
        assert forall|i: int, j: int| 0 <= i < j < all.len() implies key(
            (#[trigger] all[i]).which,
        ) != key((#[trigger] all[j]).which) by {
            if i != at {
                assert(all[i] == before[if i < at { i } else { i - 1 }]);
            }
            if j != at {
                assert(all[j] == before[if j < at { j } else { j - 1 }]);
            }
        }
        assert forall|i: int| 0 <= i < all.len() implies exists|k: int|
            0 <= k < wanted.len() && (#[trigger] all[i]).which == (#[trigger] wanted[k]).0@ by {
            if i == at {
                assert(wanted[wanted.len() - 1].0@ == all[i].which);
            } else {
                let o = if i < at {
                    i
                } else {
                    i - 1
                };
                assert(all[i] == before[o]);
                let k = choose|k: int|
                    0 <= k < rest.len() && before[o].which == (#[trigger] rest[k]).0@;
                assert(wanted[k] == rest[k]);
            }
        }
    }
}

pub proof fn lemma_place(entries: Seq<EntryView>, which: WhichView, from: int)
    requires
        0 <= from <= entries.len(),
    ensures
        from <= place(entries, which, from) <= entries.len(),
        forall|i: int|
            from <= i < place(entries, which, from) ==> !text_before(
                description(which),
                description((#[trigger] entries[i]).which),
            ),
        place(entries, which, from) < entries.len() ==> text_before(
            description(which),
            description(entries[place(entries, which, from)].which),
        ),
    decreases entries.len() - from,
{
    if from < entries.len() && !text_before(
        description(which),
        description(entries[from].which),
    ) {
        lemma_place(entries, which, from + 1);
    }
}

/// The entries of a registry are in the order of what they are described by, one for each
/// source that was asked for.
pub proof fn law_entries_are_in_order(wanted: Seq<(Which, Duration)>, now: Instant)
    ensures
        opened(wanted, now).len() == wanted.len(),
        forall|i: int, j: int|
            0 <= i < j < opened(wanted, now).len() ==> !text_before(
                description((#[trigger] opened(wanted, now)[j]).which),
                description((#[trigger] opened(wanted, now)[i]).which),
            ),
    decreases wanted.len(),
{
    if wanted.len() > 0 {
        let before = opened(wanted.drop_last(), now);
        law_entries_are_in_order(wanted.drop_last(), now);
        let (which, interval) = wanted.last();
        let at = place(before, which@, 0);
        lemma_place(before, which@, 0);
        let all = before.insert(at, fresh(which@, interval, now));
        let d = description(which@);
        assert forall|i: int, j: int| 0 <= i < j < all.len() implies !text_before(
            description((#[trigger] all[j]).which),
            description((#[trigger] all[i]).which),
        ) by {
            if j < at {
                assert(all[i] == before[i] && all[j] == before[j]);
            } else if i > at {
                assert(all[i] == before[i - 1] && all[j] == before[j - 1]);
            } else if j == at {
                assert(all[i] == before[i]);
            } else {
                assert(all[j] == before[j - 1]);
                let y = description(before[j - 1].which);
                let z = description(before[at].which);
                lemma_text_order(d, z, y);
                lemma_text_order(z, y, d);
                lemma_text_order(y, z, d);
                lemma_text_order(d, y, z);
                if at < j - 1 {
                    assert(!text_before(y, z));
                }
                assert(text_before(d, y));
                if i < at {
                    assert(all[i] == before[i]);
                    assert(!text_before(y, description(before[i].which)));
                } else {
                    assert(all[i].which == which@);
                }
            }
        }
    }
}

/// Where a source stands among entries, from `from` on.
pub open spec fn entry_at(entries: Seq<EntryView>, which: WhichView, from: int) -> Option<int>
    decreases entries.len() - from,
{
    if from < 0 || from >= entries.len() {
        None
    } else if key(entries[from].which) == key(which) {
        Some(from)
    } else {
        entry_at(entries, which, from + 1)
    }
}

pub proof fn lemma_entry_at(entries: Seq<EntryView>, which: WhichView, from: int)
    requires
        0 <= from <= entries.len(),
    ensures
        entry_at(entries, which, from) matches Some(at) ==> from <= at < entries.len() && key(
            entries[at].which,
        ) == key(which),
    decreases entries.len() - from,
{
    if from < entries.len() && key(entries[from].which) != key(which) {
        lemma_entry_at(entries, which, from + 1);
    }
}

/// The readings a publication holds: one with nothing in it is a source that ran and had
/// nothing to say, which is one empty reading rather than no reading at all.
pub open spec fn published(readings: Seq<ReadingView>) -> Seq<ReadingView> {
    if readings.len() == 0 {
        seq![blank_reading()]
    } else {
        readings
    }
}

/// The earlier of two deadlines.
pub open spec fn sooner(a: Option<Instant>, b: Option<Instant>) -> Option<Instant> {
    match (a, b) {
        (Some(x), Some(y)) => if y.nanos < x.nanos {
            b
        } else {
            a
        },
        (None, _) => b,
        (_, None) => a,
    }
}

/// The earliest deadline of the first `upto` entries.
pub open spec fn earliest(entries: Seq<EntryView>, upto: int) -> Option<Instant>
    decreases upto,
{
    if upto <= 0 || upto > entries.len() {
        None
    } else {
        sooner(earliest(entries, upto - 1), entries[upto - 1].due)
    }
}

/// The loop wakes for nothing later than it has to and nothing that is not scheduled: the
/// earliest deadline is one of the entries', and none of them is before it.
pub proof fn law_the_earliest_deadline_is_the_first(entries: Seq<EntryView>, upto: int)
    requires
        0 <= upto <= entries.len(),
    ensures
        match earliest(entries, upto) {
            None => forall|i: int| 0 <= i < upto ==> (#[trigger] entries[i]).due is None,
            Some(at) => {
                &&& exists|i: int| 0 <= i < upto && (#[trigger] entries[i]).due == Some(at)
                &&& forall|i: int|
                    0 <= i < upto ==> ((#[trigger] entries[i]).due matches Some(due) ==> at.nanos
                        <= due.nanos)
            },
        },
    decreases upto,
{
    if upto > 0 {
        law_the_earliest_deadline_is_the_first(entries, upto - 1);
        let before = earliest(entries, upto - 1);
        let last = entries[upto - 1].due;
        if earliest(entries, upto) is Some {
            if earliest(entries, upto) == last {
                assert(entries[upto - 1].due == earliest(entries, upto));
            } else {
                let i = choose|i: int| 0 <= i < upto - 1 && (#[trigger] entries[i]).due == before;
                assert(entries[i].due == earliest(entries, upto));
            }
        }
    }
}

/// The indices from `from` on of the entries that should be read.
pub open spec fn due_from(
    entries: Seq<EntryView>,
    now: Instant,
    wall: Option<u128>,
    from: int,
) -> Seq<int>
    decreases entries.len() - from,
{
    if from < 0 || from >= entries.len() {
        Seq::empty()
    } else if to_read(entries[from], now, wall) {
        seq![from] + due_from(entries, now, wall, from + 1)
    } else {
        due_from(entries, now, wall, from + 1)
    }
}

/// What a list of indices says.
pub open spec fn indices(v: Seq<usize>) -> Seq<int> {
    Seq::new(v.len(), |i: int| v[i] as int)
}

/// An entry once it has been read on the timer: what the read came to is kept, and it is
/// scheduled again.
pub open spec fn ticked(
    e: EntryView,
    read: Result<ReadingView, Seq<char>>,
    now: Instant,
    wall: Option<u128>,
) -> EntryView {
    let kept = recorded(e, read);
    let timed = EntryView {
        read_at: if e.which is Time {
            wall
        } else {
            kept.read_at
        },
        ..kept
    };
    EntryView { due: next_read(timed, now, wall), ..timed }
}

impl Registry {
    /// Keep an entry for each source the configuration names, at the shortest interval any
    /// module asked it for.
    pub fn new(wanted: &Vec<(Which, Duration)>, now: Instant) -> (r: Registry)
        requires
            asked_once(wanted@),
        ensures
            r@ == opened(wanted@, now),
            kept_once(r@),
    {
        proof {
            lemma_kept_once(wanted@, now);
        }
        let mut entries: Vec<Entry> = Vec::new();
        assert(wanted@.take(0) =~= Seq::<(Which, Duration)>::empty());
        assert(entries_view(entries@) =~= opened(wanted@.take(0), now));
        for i in 0..wanted.len()
            invariant
                entries_view(entries@) == opened(wanted@.take(i as int), now),
        {
            let ghost before = entries_view(entries@);
            let which = wanted[i].0.copy();
            let name = which.describe();
            let mut at: usize = 0;
            while at < entries.len() && !comes_before(
                name.as_str(),
                entries[at].which.describe().as_str(),
            )
                invariant
                    at <= entries@.len(),
                    before == entries_view(entries@),
                    name@ == description(which@),
                    place(before, which@, 0) == place(before, which@, at as int),
                decreases entries@.len() - at,
            {
                assert(before[at as int] == entries@[at as int]@);
                at = at + 1;
            }
            proof {
                if at < entries@.len() {
                    assert(before[at as int] == entries@[at as int]@);
                }
            }
            let pushed = which.pushed();
            let due = if pushed {
                None
            } else {
                Some(now)
            };
            let readings = vec![Reading::blank()];
            assert(readings_view(readings@) =~= seq![blank_reading()]);
            let entry = Entry {
                which,
                interval: wanted[i].1,
                readings,
                due,
                watched: pushed,
                failures: 0,
                reported: false,
                read_at: None,
            };
            let ghost made = entry@;
            assert(made =~= fresh(wanted@[i as int].0@, wanted@[i as int].1, now));
            entries.insert(at, entry);
            proof {
                assert(entries_view(entries@) =~= before.insert(at as int, made));
                assert(wanted@.take(i + 1).drop_last() =~= wanted@.take(i as int));
                assert(wanted@.take(i + 1).last() == wanted@[i as int]);
            }
        }
        assert(wanted@.take(wanted@.len() as int) =~= wanted@);
        Registry { entries }
    }

    pub fn is_empty(&self) -> (r: bool)
        ensures
            r == (self@.len() == 0),
    {
        self.entries.len() == 0
    }

    fn find(&self, which: &Which) -> (r: Option<usize>)
        ensures
            match r {
                Some(at) => entry_at(self@, which@, 0) == Some(at as int) && at
                    < self.entries@.len(),
                None => entry_at(self@, which@, 0) is None,
            },
    {
        let ghost all = self@;
        for i in 0..self.entries.len()
            invariant
                all == entries_view(self.entries@),
                entry_at(all, which@, 0) == entry_at(all, which@, i as int),
        {
            assert(all[i as int] == self.entries@[i as int]@);
            if self.entries[i].which.same(which) {
                return Some(i);
            }
        }
        None
    }

    /// Which entries should be read now.
    pub fn due(&self, now: Instant, wall: Option<u128>) -> (r: Vec<usize>)
        ensures
            indices(r@) == due_from(self@, now, wall, 0),
            forall|i: int| 0 <= i < r@.len() ==> (#[trigger] r@[i]) < self@.len(),
    {
        let ghost all = self@;
        let mut out: Vec<usize> = Vec::new();
        assert(indices(out@) + due_from(all, now, wall, 0) =~= due_from(all, now, wall, 0));
        for i in 0..self.entries.len()
            invariant
                all == entries_view(self.entries@),
                due_from(all, now, wall, 0) == indices(out@) + due_from(all, now, wall, i as int),
                forall|j: int| 0 <= j < out@.len() ==> (#[trigger] out@[j]) < all.len(),
        {
            let ghost before = indices(out@);
            assert(all[i as int] == self.entries@[i as int]@);
            if self.entries[i].should_read(now, wall) {
                out.push(i);
                proof {
                    assert(indices(out@) =~= before.push(i as int));
                    let rest = due_from(all, now, wall, i + 1);
                    assert(before + (seq![i as int] + rest) =~= before.push(i as int) + rest);
                }
            }
        }
        assert(indices(out@) + Seq::<int>::empty() =~= indices(out@));
        out
    }

    /// Take what reading one entry came to, schedule it again, and say whether anything
    /// changed. `wall` and `now` are what the two clocks said after the read, the wall clock
    /// first: whatever happens between the two is then time the deadline is late by rather
    /// than early by.
    pub fn tick(
        &mut self,
        at: usize,
        read: Result<Reading, String>,
        wall: Option<u128>,
        now: Instant,
    ) -> (changed: bool)
        requires
            at < old(self)@.len(),
            schedulable(recorded(old(self)@[at as int], read_view(read))),
            now.wf(),
        ensures
            final(self)@ == old(self)@.update(
                at as int,
                ticked(old(self)@[at as int], read_view(read), now, wall),
            ),
            changed == changes(old(self)@[at as int], read_view(read)),
            // What was read well is read again one interval later, and what failed is asked
            // again no sooner than that.
            read is Ok && !(old(self)@[at as int].which is Time) && now.nanos + old(
                self,
            )@[at as int].interval.nanos <= u128::MAX ==> (if old(self)@[at as int].watched {
                final(self)@[at as int].due is None
            } else {
                final(self)@[at as int].due == Some(
                    Instant { nanos: (now.nanos + old(self)@[at as int].interval.nanos) as u128 },
                )
            }),
    {
        let ghost before = self@;
        let ghost one = self.entries@[at as int]@;
        assert(before[at as int] == one);
        let aligned = self.entries[at].which.aligned();
        let changed = self.entries[at].record(read);
        assert(self.entries@[at as int]@ == recorded(one, read_view(read)));
        if aligned {
            self.entries[at].read_at = wall;
        }
        let due = self.entries[at].next_due(now, wall);
        self.entries[at].due = due;
        proof {
            assert(self.entries@[at as int]@ =~= ticked(one, read_view(read), now, wall));
            assert(self@ =~= before.update(at as int, ticked(one, read_view(read), now, wall)));
            assert(one.interval.nanos * 1 == one.interval.nanos);
        }
        changed
    }

    /// Take a reading from the thread that owns a source that can block, and say whether the
    /// bar has anything new to draw.
    pub fn arrived(&mut self, which: &Which, read: Result<Reading, String>) -> (changed: bool)
        ensures
            match entry_at(old(self)@, which@, 0) {
                None => !changed && final(self)@ == old(self)@,
                Some(at) => {
                    &&& changed == changes(old(self)@[at], read_view(read))
                    &&& final(self)@ == old(self)@.update(
                        at,
                        recorded(old(self)@[at], read_view(read)),
                    )
                },
            },
    {
        let ghost before = self@;
        match self.find(which) {
            None => false,
            Some(at) => {
                let ghost one = self.entries@[at as int]@;
                assert(before[at as int] == one);
                let changed = self.entries[at].record(read);
                assert(self@ =~= before.update(at as int, recorded(one, read_view(read))));
                changed
            },
        }
    }

    /// Read one source again at the next opportunity, whatever its interval said.
    ///
    /// A source that arrives has nothing to read, and is asked through its own trigger
    /// instead.
    pub fn refresh(&mut self, which: &Which, now: Instant)
        ensures
            final(self)@ == match entry_at(old(self)@, which@, 0) {
                Some(at) => if arrives(which@) {
                    old(self)@
                } else {
                    old(self)@.update(at, EntryView { due: Some(now), ..old(self)@[at] })
                },
                None => old(self)@,
            },
    {
        let ghost before = self@;
        if which.pushed() {
            return;
        }
        if let Some(at) = self.find(which) {
            assert(before[at as int] == self.entries@[at as int]@);
            self.entries[at].due = Some(now);
            assert(self@ =~= before.update(
                at as int,
                EntryView { due: Some(now), ..before[at as int] },
            ));
        }
    }

    /// Take what a source sent of its own accord: one reading, or a page each, and say whether
    /// it changes what is drawn.
    pub fn push(&mut self, which: &Which, readings: Vec<Reading>) -> (changed: bool)
        ensures
            match entry_at(old(self)@, which@, 0) {
                None => !changed && final(self)@ == old(self)@,
                Some(at) => {
                    let sent = published(readings_view(readings@));
                    &&& changed == !same_pages(old(self)@[at].readings, sent)
                    &&& final(self)@ == old(self)@.update(
                        at,
                        EntryView {
                            readings: replaced(old(self)@[at].readings, sent),
                            ..old(self)@[at]
                        },
                    )
                },
            },
    {
        let ghost before = self@;
        match self.find(which) {
            None => false,
            Some(at) => {
                let ghost sent = published(readings_view(readings@));
                assert(before[at as int] == self.entries@[at as int]@);
                let readings = if readings.len() == 0 {
                    let one = vec![Reading::blank()];
                    assert(readings_view(one@) =~= seq![blank_reading()]);
                    one
                } else {
                    readings
                };
                assert(readings_view(readings@) == sent);
                if same_readings(&self.entries[at].readings, &readings) {
                    assert(self@ =~= before.update(at as int, before[at as int]));
                    return false;
                }
                self.entries[at].readings = readings;
                assert(self@ =~= before.update(
                    at as int,
                    EntryView { readings: sent, ..before[at as int] },
                ));
                true
            },
        }
    }

    /// Say that the kernel is reporting this source's changes, or has stopped.
    ///
    /// A watched source is taken off the timer once it has been read: it is read when its
    /// watcher says something moved.
    pub fn set_watched(&mut self, which: &Which, watched: bool, now: Instant)
        ensures
            final(self)@ == match entry_at(old(self)@, which@, 0) {
                None => old(self)@,
                Some(at) => old(self)@.update(
                    at,
                    EntryView {
                        watched,
                        due: if !watched && old(self)@[at].due is None {
                            Some(now)
                        } else {
                            old(self)@[at].due
                        },
                        ..old(self)@[at]
                    },
                ),
            },
    {
        let ghost before = self@;
        if let Some(at) = self.find(which) {
            assert(before[at as int] == self.entries@[at as int]@);
            self.entries[at].watched = watched;
            if !watched && self.entries[at].due.is_none() {
                self.entries[at].due = Some(now);
            }
            assert(self@ =~= before.update(at as int, self.entries@[at as int]@));
        }
    }

    /// Whether anything is still due to be read on a timer.
    pub fn is_scheduled(&self) -> (r: bool)
        ensures
            r == exists|i: int| 0 <= i < self@.len() && (#[trigger] self@[i]).due is Some,
    {
        let ghost all = self@;
        for i in 0..self.entries.len()
            invariant
                all == entries_view(self.entries@),
                all == self@,
                forall|j: int| 0 <= j < i ==> (#[trigger] all[j]).due is None,
        {
            assert(all[i as int] == self.entries@[i as int]@);
            if self.entries[i].due.is_some() {
                assert(self@[i as int].due is Some);
                return true;
            }
        }
        false
    }

    /// When the loop should wake up next, if anything is scheduled at all.
    pub fn next_due(&self) -> (r: Option<Instant>)
        ensures
            r == earliest(self@, self@.len() as int),
    {
        let ghost all = self@;
        let mut least: Option<Instant> = None;
        for i in 0..self.entries.len()
            invariant
                all == entries_view(self.entries@),
                least == earliest(all, i as int),
        {
            assert(all[i as int] == self.entries@[i as int]@);
            least = match (least, self.entries[i].due) {
                (Some(x), Some(y)) => if y.nanos < x.nanos {
                    Some(y)
                } else {
                    Some(x)
                },
                (None, due) => due,
                (had, None) => had,
            };
        }
        least
    }

    /// The page a module is scrolled to, and how many there are to scroll through.
    ///
    /// The index is the module's, not the source's, so it wraps: a fetch that came back with
    /// fewer places than the last one leaves a module pointing past the end, and it should
    /// show something rather than nothing.
    pub fn showing(&self, which: &Which, index: usize) -> (r: Option<(&Reading, usize)>)
        ensures
            match entry_at(self@, which@, 0) {
                None => r is None,
                Some(at) => {
                    let readings = self@[at].readings;
                    if readings.len() == 0 {
                        r is None
                    } else {
                        r matches Some((reading, pages)) && pages == readings.len() && reading@
                            == readings[index as int % readings.len() as int]
                    }
                },
            },
    {
        match self.find(which) {
            None => None,
            Some(at) => {
                assert(self@[at as int] == self.entries@[at as int]@);
                let pages: usize = self.entries[at].readings.len();
                if pages == 0 {
                    return None;
                }
                Some((&self.entries[at].readings[index % pages], pages))
            },
        }
    }

    /// One page of what a source last said.
    pub fn page(&self, which: &Which, index: usize) -> (r: Option<&Reading>)
        ensures
            match entry_at(self@, which@, 0) {
                None => r is None,
                Some(at) => {
                    let readings = self@[at].readings;
                    if readings.len() == 0 {
                        r is None
                    } else {
                        r matches Some(reading) && reading@ == readings[index as int
                            % readings.len() as int]
                    }
                },
            },
    {
        match self.showing(which, index) {
            Some((reading, _)) => Some(reading),
            None => None,
        }
    }

    /// What a source last said, or its first page when it said several things at once.
    pub fn reading(&self, which: &Which) -> (r: Option<&Reading>)
        ensures
            match entry_at(self@, which@, 0) {
                None => r is None,
                Some(at) => if self@[at].readings.len() == 0 {
                    r is None
                } else {
                    r matches Some(reading) && reading@ == self@[at].readings[0]
                },
            },
    {
        self.page(which, 0)
    }

    /// How many pages a source last said.
    pub fn pages(&self, which: &Which) -> (n: usize)
        ensures
            n == match entry_at(self@, which@, 0) {
                None => 0,
                Some(at) => self@[at].readings.len() as int,
            },
    {
        match self.showing(which, 0) {
            Some((_, pages)) => pages,
            None => 0,
        }
    }

    /// A registry holding one reading that never changes.
    pub fn fixture(which: Which, reading: Reading, now: Instant) -> (r: Registry)
        requires
            now.wf(),
        ensures
            r@ == seq![settled(which@, seq![reading@], now)],
    {
        let ghost shown = reading@;
        let readings = vec![reading];
        assert(readings_view(readings@) =~= seq![shown]);
        Registry::fixture_pages(which, readings, now)
    }

    /// The same, for several sources at once.
    pub fn fixtures(sources: Vec<(Which, Reading)>, now: Instant) -> (r: Registry)
        requires
            now.wf(),
        ensures
            r@ == Seq::new(
                sources@.len(),
                |i: int| settled(sources@[i].0@, seq![sources@[i].1@], now),
            ),
    {
        let ghost all = sources@;
        let mut rest = sources;
        let mut turned: Vec<Entry> = Vec::new();
        while rest.len() > 0
            invariant
                now.wf(),
                rest@.len() + turned@.len() == all.len(),
                rest@ == all.take(rest@.len() as int),
                forall|i: int|
                    0 <= i < turned@.len() ==> (#[trigger] turned@[i])@ == settled(
                        all[all.len() - 1 - i].0@,
                        seq![all[all.len() - 1 - i].1@],
                        now,
                    ),
            decreases rest@.len(),
        {
            match rest.pop() {
                Some((which, reading)) => {
                    let mut one = Registry::fixture(which, reading, now);
                    proof {
                        assert(one@.len() == 1);
                        assert(one@[0] == one.entries@[0]@);
                    }
                    match one.entries.pop() {
                        Some(entry) => {
                            turned.push(entry);
                        },
                        None => {},
                    }
                },
                None => {},
            }
        }
        let mut entries: Vec<Entry> = Vec::new();
        while turned.len() > 0
            invariant
                entries@.len() + turned@.len() == all.len(),
                forall|i: int|
                    0 <= i < turned@.len() ==> (#[trigger] turned@[i])@ == settled(
                        all[all.len() - 1 - i].0@,
                        seq![all[all.len() - 1 - i].1@],
                        now,
                    ),
                forall|i: int|
                    0 <= i < entries@.len() ==> (#[trigger] entries@[i])@ == settled(
                        all[i].0@,
                        seq![all[i].1@],
                        now,
                    ),
            decreases turned@.len(),
        {
            match turned.pop() {
                Some(entry) => {
                    entries.push(entry);
                },
                None => {},
            }
        }
        let r = Registry { entries };
        assert(r@ =~= Seq::new(
            all.len(),
            |i: int| settled(all[i].0@, seq![all[i].1@], now),
        ));
        r
    }

    /// The same, for a source that published several readings at once.
    pub fn fixture_pages(which: Which, readings: Vec<Reading>, now: Instant) -> (r: Registry)
        requires
            now.wf(),
        ensures
            r@ == seq![settled(which@, readings_view(readings@), now)],
    {
        let ghost expected = settled(which@, readings_view(readings@), now);
        let entry = Entry {
            which,
            interval: Duration::from_secs(1),
            readings,
            due: Some(now.after(Duration::from_secs(3600))),
            watched: false,
            failures: 0,
            reported: false,
            read_at: None,
        };
        assert(entry@ =~= expected);
        let r = Registry { entries: vec![entry] };
        assert(r@ =~= seq![expected]);
        r
    }
}

/// A source that said something and is not due for an hour.
pub open spec fn settled(which: WhichView, readings: Seq<ReadingView>, now: Instant) -> EntryView {
    EntryView {
        which,
        interval: Duration { nanos: 1_000_000_000 },
        readings,
        due: Some(Instant { nanos: (now.nanos + 3_600_000_000_000) as u128 }),
        watched: false,
        failures: 0,
        reported: false,
        read_at: None,
    }
}

fn same_readings(a: &Vec<Reading>, b: &Vec<Reading>) -> (r: bool)
    ensures
        r == same_pages(readings_view(a@), readings_view(b@)),
{
    let ghost x = readings_view(a@);
    let ghost y = readings_view(b@);
    if a.len() != b.len() {
        return false;
    }
    for i in 0..a.len()
        invariant
            a@.len() == b@.len(),
            x == readings_view(a@),
            y == readings_view(b@),
            forall|j: int| 0 <= j < i ==> same_reading(#[trigger] x[j], y[j]),
    {
        assert(x[i as int] == a@[i as int]@ && y[i as int] == b@[i as int]@);
        if !a[i].same(&b[i]) {
            return false;
        }
    }
    true
}

/// Whatever happens to it, a registry keeps every source it was opened for, once, in its place
/// and on its interval, and never holds one without a reading.
pub open spec fn keeps(before: Seq<EntryView>, after: Seq<EntryView>) -> bool {
    &&& after.len() == before.len()
    &&& kept_once(before) ==> kept_once(after)
    &&& forall|i: int|
        0 <= i < before.len() ==> (#[trigger] after[i]).which == before[i].which
            && after[i].interval == before[i].interval && (before[i].readings.len() > 0
            ==> after[i].readings.len() > 0)
}

/// Reading a source, hearing from it, or hearing of it from a watcher keeps every source.
pub proof fn law_a_registry_keeps_its_sources(
    entries: Seq<EntryView>,
    at: int,
    read: Result<ReadingView, Seq<char>>,
    readings: Seq<ReadingView>,
    now: Instant,
    wall: Option<u128>,
)
    requires
        0 <= at < entries.len(),
    ensures
        keeps(entries, entries.update(at, ticked(entries[at], read, now, wall))),
        keeps(entries, entries.update(at, recorded(entries[at], read))),
        keeps(
            entries,
            entries.update(
                at,
                EntryView {
                    readings: replaced(entries[at].readings, published(readings)),
                    ..entries[at]
                },
            ),
        ),
{
    assert(staled(entries[at].readings).len() == entries[at].readings.len());
}

/// Every source a configuration names can be scheduled from the start, as long as its interval
/// can be stretched as far as it ever is.
pub proof fn law_a_registry_can_be_scheduled(wanted: Seq<(Which, Duration)>, now: Instant)
    requires
        forall|i: int|
            0 <= i < wanted.len() ==> stretchable(
                (#[trigger] wanted[i]).1,
                MAX_BACKOFF as int,
            ),
    ensures
        registry_wf(opened(wanted, now)),
    decreases wanted.len(),
{
    if wanted.len() > 0 {
        let rest = wanted.drop_last();
        assert forall|i: int| 0 <= i < rest.len() implies stretchable(
            (#[trigger] rest[i]).1,
            MAX_BACKOFF as int,
        ) by {
            assert(rest[i] == wanted[i]);
        }
        law_a_registry_can_be_scheduled(rest, now);
        let before = opened(rest, now);
        let (which, interval) = wanted.last();
        assert(wanted[wanted.len() - 1] == wanted.last());
        let at = place(before, which@, 0);
        lemma_place(before, which@, 0);
        let all = before.insert(at, fresh(which@, interval, now));
        assert forall|i: int| 0 <= i < all.len() implies entry_wf(#[trigger] all[i]) by {
            if i < at {
                assert(all[i] == before[i]);
            } else if i > at {
                assert(all[i] == before[i - 1]);
            }
        }
    }
}

/// Whatever is read or published, every source can be scheduled then and afterwards.
pub proof fn law_a_registry_stays_schedulable(
    entries: Seq<EntryView>,
    at: int,
    read: Result<ReadingView, Seq<char>>,
    readings: Seq<ReadingView>,
    now: Instant,
    wall: Option<u128>,
)
    requires
        registry_wf(entries),
        0 <= at < entries.len(),
    ensures
        schedulable(recorded(entries[at], read)),
        registry_wf(entries.update(at, ticked(entries[at], read, now, wall))),
        registry_wf(entries.update(at, recorded(entries[at], read))),
        registry_wf(
            entries.update(
                at,
                EntryView {
                    readings: replaced(entries[at].readings, published(readings)),
                    ..entries[at]
                },
            ),
        ),
{
    let e = entries[at];
    assert(entry_wf(e));
    let failures = recorded(e, read).failures as int;
    assert(e.interval.nanos * stretch(failures) <= e.interval.nanos * 32) by (nonlinear_arith)
        requires
            stretch(failures) <= 32,
    ;
}

/// A failure keeps the last good reading: what is drawn after it says the same, and is only
/// rated as an error.
pub proof fn law_a_failure_keeps_the_last_reading(e: EntryView, why: Seq<char>, i: int)
    requires
        0 <= i < e.readings.len(),
    ensures
        recorded(e, Err(why)).readings.len() == e.readings.len(),
        recorded(e, Err(why)).readings[i].fields == e.readings[i].fields,
        recorded(e, Err(why)).readings[i].state == State::Error,
        !changes(recorded(e, Err(why)), Err(why)),
{
    let stale = staled(e.readings);
    assert(staled(stale) =~= stale);
}

/// Reading the same again changes nothing, once it has been read.
pub proof fn law_the_same_reading_is_no_change(e: EntryView, reading: ReadingView)
    ensures
        !changes(recorded(e, Ok(reading)), Ok(reading)),
{
    lemma_same_pages(seq![reading]);
}

} // verus!
