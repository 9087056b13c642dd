//! The sources behind the bar: asking them, and taking in what they say.

use crate::collect::registry::{entry_at, kept_once, lemma_entry_at, opened, published, replaced};
use crate::collect::registry::{EntryView, Registry};
use crate::collect::watch::{Event, EventView};
use crate::collect::which::{arrives, key, Which, WhichView};
use crate::config::module::ModuleView;
use crate::config::source::{Source, SourceView};
use crate::config::whole::{all_modules, refs_view, signalled, signals_view, sources_view, wanted};
use crate::config::whole::{wanted_view, Config};
use crate::status::{readings_view, Reading};
use crate::text::same;
use crate::time::{Duration, Instant};
use vstd::prelude::*;

verus! {

/// The way to ask a source for another reading before its schedule would have one.
///
/// One pending ask is enough: several notifications or impatient clicks still want one fresh
/// reading, not one per event.
#[derive(Clone, Copy, Debug, PartialEq, Eq, Structural)]
pub struct Trigger {
    pub pending: bool,
}

impl Trigger {
    pub fn new() -> (t: Trigger)
        ensures
            !t.pending,
    {
        Trigger { pending: false }
    }

    pub fn ask(&mut self)
        ensures
            final(self).pending,
    {
        self.pending = true;
    }

    /// Take the ask that is pending, if one is.
    pub fn take(&mut self) -> (r: bool)
        ensures
            r == old(self).pending,
            !final(self).pending,
    {
        let was = self.pending;
        self.pending = false;
        was
    }
}

/// The sources behind the bar.
#[derive(Debug)]
pub struct App {
    pub config: Config,
    /// What the bar measures for itself.
    pub native: Registry,
    /// Which sources each realtime signal reads again.
    pub signals: Vec<(i32, Vec<Which>)>,
    /// The sources that are asked where they are read, rather than on the shared timer.
    pub triggers: Vec<Which>,
    /// Whether a timer is waiting to read sources. There is none once every source left is
    /// watched, since then there is nothing to wait for.
    pub collect_scheduled: bool,
}

/// Whether a source is asked where it is read.
pub open spec fn triggered(triggers: Seq<Which>, which: WhichView) -> bool {
    exists|i: int| 0 <= i < triggers.len() && key((#[trigger] triggers[i])@) == key(which)
}

/// The sources with one of them due now, if it is read on the shared timer.
pub open spec fn brought_forward(
    entries: Seq<EntryView>,
    which: WhichView,
    now: Instant,
) -> Seq<EntryView> {
    match entry_at(entries, which, 0) {
        Some(at) => if arrives(which) {
            entries
        } else {
            entries.update(at, EntryView { due: Some(now), ..entries[at] })
        },
        None => entries,
    }
}

/// The sources with these due now, up to `upto`, but for those that are asked where they are
/// read.
pub open spec fn all_forward(
    entries: Seq<EntryView>,
    sources: Seq<WhichView>,
    triggers: Seq<Which>,
    now: Instant,
    upto: int,
) -> Seq<EntryView>
    decreases upto,
{
    if upto <= 0 || upto > sources.len() {
        entries
    } else {
        let before = all_forward(entries, sources, triggers, now, upto - 1);
        if triggered(triggers, sources[upto - 1]) {
            before
        } else {
            brought_forward(before, sources[upto - 1], now)
        }
    }
}

/// Those of these that are asked where they are read, up to `upto`.
pub open spec fn all_asked(sources: Seq<WhichView>, triggers: Seq<Which>, upto: int) -> Seq<
    WhichView,
>
    decreases upto,
{
    if upto <= 0 || upto > sources.len() {
        Seq::empty()
    } else {
        let before = all_asked(sources, triggers, upto - 1);
        if triggered(triggers, sources[upto - 1]) {
            before.push(sources[upto - 1])
        } else {
            before
        }
    }
}

/// The sources a signal reads again, from `from` on.
pub open spec fn signal_sources(
    signals: Seq<(i32, Seq<WhichView>)>,
    offset: i32,
    from: int,
) -> Seq<WhichView>
    decreases signals.len() - from,
{
    if from < 0 || from >= signals.len() {
        Seq::empty()
    } else if signals[from].0 == offset {
        signals[from].1
    } else {
        signal_sources(signals, offset, from + 1)
    }
}

/// The source behind a module of a name, from `from` on: that of the first of the name, where
/// the bar reads it.
pub open spec fn source_behind(modules: Seq<ModuleView>, name: Seq<char>, from: int) -> Option<
    WhichView,
>
    decreases modules.len() - from,
{
    if from < 0 || from >= modules.len() {
        None
    } else if modules[from].name == name {
        match modules[from].source {
            SourceView::Native(which) => Some(which),
            _ => None,
        }
    } else {
        source_behind(modules, name, from + 1)
    }
}

/// What a watcher saying something does to the sources: a change is a reading brought forward,
/// and a lost watch puts its source back on its interval.
pub open spec fn watched(entries: Seq<EntryView>, event: EventView, now: Instant) -> Seq<
    EntryView,
> {
    match event {
        EventView::Changed(which) => brought_forward(entries, which, now),
        EventView::Lost(which) => match entry_at(entries, which, 0) {
            None => entries,
            Some(at) => entries.update(
                at,
                EntryView {
                    watched: false,
                    due: if entries[at].due is None {
                        Some(now)
                    } else {
                        entries[at].due
                    },
                    ..entries[at]
                },
            ),
        },
    }
}

/// Whether any source is waiting for the timer.
pub open spec fn any_due(entries: Seq<EntryView>) -> bool {
    exists|i: int| 0 <= i < entries.len() && (#[trigger] entries[i]).due is Some
}

/// What was published by a source, taken in.
pub open spec fn took_in(entries: Seq<EntryView>, which: WhichView, readings: Seq<Reading>) -> Seq<
    EntryView,
> {
    match entry_at(entries, which, 0) {
        None => entries,
        Some(at) => entries.update(
            at,
            EntryView {
                readings: replaced(entries[at].readings, published(readings_view(readings))),
                ..entries[at]
            },
        ),
    }
}

/// Nothing is different but what the sources say.
pub open spec fn same_but_native(a: App, b: App) -> bool {
    a.config == b.config && a.signals == b.signals && a.triggers == b.triggers
        && a.collect_scheduled == b.collect_scheduled
}

impl App {
    /// A bar of this configuration, with every source it names to be read at once.
    pub fn new(config: Config, now: Instant) -> (a: App)
        ensures
            a.config == config,
            exists|w: Seq<(Which, Duration)>|
                wanted_view(w) == wanted(all_modules(config@.positions)) && a.native@
                    == #[trigger] opened(w, now),
            signals_view(a.signals@) == signalled(all_modules(config@.positions)),
            kept_once(a.native@),
            a.triggers@.len() == 0,
            a.collect_scheduled,
    {
        let sources = config.collectors();
        let native = Registry::new(&sources, now);
        assert(native@ == opened(sources@, now));
        let signals = config.signals();
        App { config, native, signals, triggers: Vec::new(), collect_scheduled: true }
    }

    /// Remember that a source is asked where it is read.
    pub fn set_trigger(&mut self, which: &Which)
        ensures
            final(self).config == old(self).config,
            final(self).native == old(self).native,
            final(self).signals == old(self).signals,
            final(self).collect_scheduled == old(self).collect_scheduled,
            forall|w: WhichView| #[trigger]
                triggered(final(self).triggers@, w) == (triggered(old(self).triggers@, w) || key(w)
                    == key(which@)),
    {
        if self.is_triggered(which) {
            return;
        }
        let ghost before = self.triggers@;
        self.triggers.push(which.copy());
        proof {
            let after = self.triggers@;
            assert forall|w: WhichView| #[trigger] triggered(after, w) == (triggered(before, w)
                || key(w) == key(which@)) by {
                assert(after[before.len() as int]@ == which@);
                if triggered(before, w) {
                    let i = choose|i: int|
                        0 <= i < before.len() && key((#[trigger] before[i])@) == key(w);
                    assert(after[i] == before[i]);
                }
                if triggered(after, w) {
                    let i = choose|i: int|
                        0 <= i < after.len() && key((#[trigger] after[i])@) == key(w);
                    if i < before.len() {
                        assert(before[i] == after[i]);
                    }
                }
            }
        }
    }

    fn is_triggered(&self, which: &Which) -> (r: bool)
        ensures
            r == triggered(self.triggers@, which@),
    {
        for i in 0..self.triggers.len()
            invariant
                forall|j: int| 0 <= j < i ==> key((#[trigger] self.triggers@[j])@) != key(which@),
        {
            if self.triggers[i].same(which) {
                return true;
            }
        }
        false
    }

    /// Ask one source for a fresh reading, however that source is read: one that is read on the
    /// shared timer is brought forward there, and this returns whether it is to be asked where
    /// it is read instead.
    pub fn refresh_source(&mut self, which: &Which, now: Instant) -> (ask: bool)
        ensures
            same_but_native(*old(self), *final(self)),
            ask == triggered(old(self).triggers@, which@),
            final(self).native@ == if ask {
                old(self).native@
            } else {
                brought_forward(old(self).native@, which@, now)
            },
    {
        if self.is_triggered(which) {
            return true;
        }
        self.native.refresh(which, now);
        false
    }

    /// Read again whatever a signal asks for, returning the sources to be asked where they are
    /// read.
    pub fn on_signal(&mut self, offset: i32, now: Instant) -> (ask: Vec<Which>)
        ensures
            same_but_native(*old(self), *final(self)),
            ({
                let sources = signal_sources(signals_view(old(self).signals@), offset, 0);
                let n = sources.len() as int;
                &&& final(self).native@ == all_forward(
                    old(self).native@,
                    sources,
                    old(self).triggers@,
                    now,
                    n,
                )
                &&& sources_view(ask@) == all_asked(sources, old(self).triggers@, n)
            }),
    {
        let ghost all = signals_view(self.signals@);
        let ghost wanted = signal_sources(all, offset, 0);
        let ghost start = self.native@;
        let ghost asked_where = self.triggers@;
        let mut ask: Vec<Which> = Vec::new();
        let long = self.signals.len();
        let mut at: usize = 0;
        while at < long && self.signals[at].0 != offset
            invariant
                long == self.signals@.len(),
                at <= long,
                *self == *old(self),
                all == signals_view(self.signals@),
                wanted == signal_sources(all, offset, at as int),
            decreases long - at,
        {
            assert(all[at as int].0 == self.signals@[at as int].0);
            at = at + 1;
        }
        if at == long {
            assert(sources_view(ask@) =~= all_asked(wanted, asked_where, 0));
            return ask;
        }
        assert(all[at as int].0 == self.signals@[at as int].0);
        assert(all[at as int].1 == sources_view(self.signals@[at as int].1@));
        assert(wanted == sources_view(self.signals@[at as int].1@));
        let many = self.signals[at].1.len();
        assert(sources_view(ask@) =~= all_asked(wanted, asked_where, 0));
        for i in 0..many
            invariant
                same_but_native(*old(self), *self),
                at < self.signals@.len(),
                many == self.signals@[at as int].1@.len(),
                wanted == sources_view(self.signals@[at as int].1@),
                asked_where == self.triggers@,
                self.native@ == all_forward(start, wanted, asked_where, now, i as int),
                sources_view(ask@) == all_asked(wanted, asked_where, i as int),
        {
            let ghost before = sources_view(ask@);
            let which = self.signals[at].1[i].copy();
            assert(wanted[i as int] == which@);
            if self.refresh_source(&which, now) {
                let ghost seen = which@;
                ask.push(which);
                assert(sources_view(ask@) =~= before.push(seen));
            }
        }
        ask
    }

    /// The source behind a module, by name.
    pub fn source_of(&self, name: &str) -> (r: Option<Which>)
        ensures
            match r {
                Some(w) => source_behind(all_modules(self.config@.positions), name@, 0) == Some(
                    w@,
                ),
                None => source_behind(all_modules(self.config@.positions), name@, 0) is None,
            },
    {
        let modules = self.config.modules();
        let ghost all = all_modules(self.config@.positions);
        for i in 0..modules.len()
            invariant
                all == refs_view(modules@),
                all == all_modules(self.config@.positions),
                source_behind(all, name@, 0) == source_behind(all, name@, i as int),
        {
            assert(all[i as int] == modules@[i as int]@);
            let module = modules[i];
            if same(module.name.as_str(), name) {
                return match &module.source {
                    Source::Native(which) => Some(which.copy()),
                    _ => None,
                };
            }
        }
        None
    }

    /// Take the sources a watcher covers off the timer.
    pub fn on_watching(&mut self, covered: &Vec<Which>, now: Instant)
        ensures
            same_but_native(*old(self), *final(self)),
            final(self).native@ == all_covered(old(self).native@, covered@, covered@.len() as int),
    {
        let ghost start = self.native@;
        for i in 0..covered.len()
            invariant
                same_but_native(*old(self), *self),
                start == old(self).native@,
                self.native@ == all_covered(start, covered@, i as int),
        {
            self.native.set_watched(&covered[i], true, now);
        }
    }

    /// Act on what a watcher says. What the kernel reports is a request like any other, so a
    /// source that is read elsewhere is asked there: this returns whether it is to be.
    pub fn on_watch(&mut self, event: &Event, now: Instant) -> (ask: bool)
        ensures
            same_but_native(*old(self), *final(self)),
            ask == match event@ {
                EventView::Changed(which) => triggered(old(self).triggers@, which),
                EventView::Lost(_) => false,
            },
            final(self).native@ == if ask {
                old(self).native@
            } else {
                watched(old(self).native@, event@, now)
            },
    {
        match event {
            Event::Changed(which) => self.refresh_source(which, now),
            Event::Lost(which) => {
                self.native.set_watched(which, false, now);
                false
            },
        }
    }

    /// Whether the timer has to be started again, because something waits for it and it had
    /// stopped.
    pub fn wants_timer(&mut self) -> (needed: bool)
        ensures
            final(self).config == old(self).config,
            final(self).native == old(self).native,
            final(self).signals == old(self).signals,
            final(self).triggers == old(self).triggers,
            needed == (!old(self).collect_scheduled && any_due(old(self).native@)),
            final(self).collect_scheduled == (old(self).collect_scheduled || needed),
    {
        let needed = !self.collect_scheduled && self.native.is_scheduled();
        if needed {
            self.collect_scheduled = true;
        }
        needed
    }

    /// When the timer's own callback next wants to be called, which is what says whether the
    /// timer still exists.
    pub fn on_collect(&mut self) -> (next: Option<Instant>)
        ensures
            final(self).config == old(self).config,
            final(self).native == old(self).native,
            final(self).signals == old(self).signals,
            final(self).triggers == old(self).triggers,
            next == crate::collect::registry::earliest(
                old(self).native@,
                old(self).native@.len() as int,
            ),
            final(self).collect_scheduled == (next is Some),
    {
        let next = self.native.next_due();
        self.collect_scheduled = next.is_some();
        next
    }

    /// Take in what a source published of its own accord, and say whether that is anything new.
    pub fn on_published(&mut self, which: &Which, readings: Vec<Reading>) -> (changed: bool)
        ensures
            same_but_native(*old(self), *final(self)),
            final(self).native@ == took_in(old(self).native@, which@, readings@),
            changed == (final(self).native@ != old(self).native@),
    {
        let ghost before = self.native@;
        let changed = self.native.push(which, readings);
        proof {
            if let Some(at) = entry_at(before, which@, 0) {
                lemma_entry_at(before, which@, 0);
                if !changed {
                    assert(self.native@ =~= before);
                } else {
                    assert(self.native@[at].readings != before[at].readings);
                }
            }
        }
        changed
    }
}

/// The sources with these watched, up to `upto`.
pub open spec fn all_covered(entries: Seq<EntryView>, covered: Seq<Which>, upto: int) -> Seq<
    EntryView,
>
    decreases upto,
{
    if upto <= 0 || upto > covered.len() {
        entries
    } else {
        let before = all_covered(entries, covered, upto - 1);
        match entry_at(before, covered[upto - 1]@, 0) {
            None => before,
            Some(at) => before.update(at, EntryView { watched: true, ..before[at] }),
        }
    }
}

/// Losing its watch puts a source back on the timer, so that it is never left unread.
pub proof fn law_a_lost_source_is_read_again(
    entries: Seq<EntryView>,
    which: WhichView,
    now: Instant,
)
    requires
        entry_at(entries, which, 0) is Some,
    ensures
        any_due(watched(entries, EventView::Lost(which), now)),
{
    lemma_entry_at(entries, which, 0);
    let at = entry_at(entries, which, 0)->0;
    assert(watched(entries, EventView::Lost(which), now)[at].due is Some);
}

} // verus!
