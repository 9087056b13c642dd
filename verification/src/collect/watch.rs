//! Being told, instead of asking.
//!
//! Some of what the bar shows changes only when something changes it, and the kernel will say
//! when that happens. A source watched this way needs no interval at all: it is read when the
//! value moves and never in between. One thread waits on every watched file at once.

use crate::collect::which::{Which, WhichView};
use crate::text::{blank, is_blank};
use vstd::prelude::*;

verus! {

/// What the watcher tells the event loop.
#[derive(Debug)]
pub enum Event {
    /// The kernel reports this source's value has moved.
    Changed(Which),
    /// The file went away, so this source goes back to being read on its interval.
    Lost(Which),
}

/// What an `Event` says.
pub enum EventView {
    Changed(WhichView),
    Lost(WhichView),
}

impl View for Event {
    type V = EventView;

    open spec fn view(&self) -> EventView {
        match self {
            Event::Changed(w) => EventView::Changed(w@),
            Event::Lost(w) => EventView::Lost(w@),
        }
    }
}

/// What a list of events says.
pub open spec fn events_view(v: Seq<Event>) -> Seq<EventView> {
    Seq::new(v.len(), |i: int| v[i]@)
}

/// What waiting said about a watched file.
#[derive(Clone, Copy, Debug, PartialEq, Eq, Structural)]
pub enum Report {
    /// Nothing.
    Quiet,
    /// Something happened, and the file still reads.
    Moved,
    /// Something happened, and the file can no longer be read. A change and a file that
    /// vanished both arrive the same way, and only the read tells them apart.
    Gone,
}

/// What a file that something happened to says about itself, once it was read. The read has to
/// happen, or waiting reports the same change for ever; what it says is thrown away, but an
/// attribute that is empty is a file that has gone.
pub open spec fn reported(text: Option<Seq<char>>) -> Report {
    match text {
        Some(t) => if is_blank(t) {
            Report::Gone
        } else {
            Report::Moved
        },
        None => Report::Gone,
    }
}

/// What reading a file says about it: its text, or nothing where it could not be read.
pub fn consumed(text: Option<&str>) -> (r: Report)
    ensures
        r == reported(
            match text {
                Some(t) => Some(t@),
                None => None,
            },
        ),
{
    match text {
        Some(t) => if blank(t) {
            Report::Gone
        } else {
            Report::Moved
        },
        None => Report::Gone,
    }
}

/// What to do once waiting is over.
#[derive(Clone, Copy, Debug, PartialEq, Eq, Structural)]
pub enum Woken {
    /// Look at what was reported.
    Look,
    /// Wait again.
    Again,
    /// Stop watching.
    Stop,
}

/// What to do once waiting came back with this, and was interrupted or not. A failure that is
/// no interruption is the end of watching.
pub fn woken(ready: i32, interrupted: bool) -> (w: Woken)
    ensures
        w == if ready >= 0 {
            Woken::Look
        } else if interrupted {
            Woken::Again
        } else {
            Woken::Stop
        },
{
    if ready >= 0 {
        Woken::Look
    } else if interrupted {
        Woken::Again
    } else {
        Woken::Stop
    }
}

/// What the reports from `from` on say happened.
pub open spec fn happened(watched: Seq<Which>, reports: Seq<Report>, from: int) -> Seq<EventView>
    decreases reports.len() - from,
{
    if from < 0 || from >= reports.len() || from >= watched.len() {
        Seq::empty()
    } else {
        let rest = happened(watched, reports, from + 1);
        match reports[from] {
            Report::Quiet => rest,
            Report::Moved => seq![EventView::Changed(watched[from]@)] + rest,
            Report::Gone => seq![EventView::Lost(watched[from]@)] + rest,
        }
    }
}

/// Which of the files are still watched, by where they stood.
pub open spec fn still_watched(reports: Seq<Report>, from: int) -> Seq<usize>
    decreases reports.len() - from,
{
    if from < 0 || from >= reports.len() {
        Seq::empty()
    } else if reports[from] == Report::Gone {
        still_watched(reports, from + 1)
    } else {
        seq![from as usize] + still_watched(reports, from + 1)
    }
}

/// What was reported: what to tell the event loop, in order, and which of the watched files
/// stay, by where they stood.
#[derive(Debug)]
pub struct Sifted {
    pub events: Vec<Event>,
    pub kept: Vec<usize>,
}

/// Sort out what waiting reported about each watched file.
pub fn sift(watched: &Vec<Which>, reports: &Vec<Report>) -> (s: Sifted)
    requires
        watched@.len() == reports@.len(),
    ensures
        events_view(s.events@) == happened(watched@, reports@, 0),
        s.kept@ == still_watched(reports@, 0),
{
    let mut events: Vec<Event> = Vec::new();
    let mut kept: Vec<usize> = Vec::new();
    let ghost all = happened(watched@, reports@, 0);
    let ghost stay = still_watched(reports@, 0);
    assert(events_view(events@) + all =~= all);
    assert(kept@ + stay =~= stay);
    for i in 0..reports.len()
        invariant
            watched@.len() == reports@.len(),
            all == events_view(events@) + happened(watched@, reports@, i as int),
            stay == kept@ + still_watched(reports@, i as int),
    {
        let ghost before = events_view(events@);
        let ghost had = kept@;
        let ghost rest = happened(watched@, reports@, i + 1);
        let ghost left = still_watched(reports@, i + 1);
        match reports[i] {
            Report::Quiet => {
                kept.push(i);
            },
            Report::Moved => {
                let event = Event::Changed(watched[i].copy());
                let ghost one = event@;
                events.push(event);
                kept.push(i);
                assert(events_view(events@) =~= before.push(one));
                assert(before + (seq![one] + rest) =~= before.push(one) + rest);
            },
            Report::Gone => {
                let event = Event::Lost(watched[i].copy());
                let ghost one = event@;
                events.push(event);
                assert(events_view(events@) =~= before.push(one));
                assert(before + (seq![one] + rest) =~= before.push(one) + rest);
            },
        }
        assert(had + (seq![i] + left) =~= had.push(i) + left);
    }
    assert(events_view(events@) + Seq::<EventView>::empty() =~= events_view(events@));
    assert(kept@ + Seq::<usize>::empty() =~= kept@);
    Sifted { events, kept }
}

/// What is left to tell once watching stops: whatever is still being watched has lost its
/// watcher, so it needs its interval back.
pub fn abandon(watched: &Vec<Which>) -> (events: Vec<Event>)
    ensures
        events@.len() == watched@.len(),
        forall|i: int|
            0 <= i < watched@.len() ==> (#[trigger] events@[i])@ == EventView::Lost(watched@[i]@),
{
    let mut events: Vec<Event> = Vec::new();
    for i in 0..watched.len()
        invariant
            events@.len() == i,
            forall|j: int|
                0 <= j < i ==> (#[trigger] events@[j])@ == EventView::Lost(watched@[j]@),
    {
        events.push(Event::Lost(watched[i].copy()));
    }
    events
}

/// A source that is watched stays watched, or the event loop is told that it is not: nothing
/// falls between the two.
pub proof fn law_a_source_stays_watched_or_is_reported_lost(
    watched: Seq<Which>,
    reports: Seq<Report>,
    from: int,
    i: int,
)
    requires
        watched.len() == reports.len(),
        watched.len() <= usize::MAX,
        0 <= from <= i < watched.len(),
    ensures
        reports[i] == Report::Gone ==> happened(watched, reports, from).contains(
            EventView::Lost(watched[i]@),
        ),
        reports[i] != Report::Gone ==> still_watched(reports, from).contains(i as usize),
    decreases i - from,
{
    let events = happened(watched, reports, from);
    let kept = still_watched(reports, from);
    if from == i {
        if reports[i] == Report::Gone {
            assert(events[0] == EventView::Lost(watched[i]@));
        } else {
            assert(kept[0] == i as usize);
        }
    } else {
        law_a_source_stays_watched_or_is_reported_lost(watched, reports, from + 1, i);
        let rest = happened(watched, reports, from + 1);
        let left = still_watched(reports, from + 1);
        if reports[i] == Report::Gone {
            let k = choose|k: int|
                0 <= k < rest.len() && rest[k] == EventView::Lost(watched[i]@);
            let shift = events.len() - rest.len();
            assert(events[k + shift] == EventView::Lost(watched[i]@));
        } else {
            let k = choose|k: int| 0 <= k < left.len() && left[k] == i as usize;
            let shift = kept.len() - left.len();
            assert(kept[k + shift] == i as usize);
        }
    }
}

} // verus!
