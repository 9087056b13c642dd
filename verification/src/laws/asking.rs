//! Who is asked to read again, and when.

use crate::app::source::{all_asked, all_covered, all_forward, brought_forward, signal_sources};
use crate::app::source::{source_behind, took_in, triggered, watched};
use crate::collect::registry::{entry_at, kept_once, lemma_entry_at, stretch, EntryView};
use crate::collect::slow::{does, failed, Happened, Next, Reader};
use crate::collect::watch::EventView;
use crate::collect::which::{arrives, key, Which, WhichView};
use crate::config::module::ModuleView;
use crate::config::source::SourceView;
use crate::config::whole::{askable, has_source, offset_at, signalled, with_source};
use crate::laws::schedule::{doublings, lemma_stretch};
use crate::status::{readings_view, same_pages, Reading};
use crate::time::Instant;
use vstd::arithmetic::power2::{lemma2_to64, pow2};
use vstd::prelude::*;

verus! {

/// The one entry of a source is found, where there is one.
proof fn lemma_found(entries: Seq<EntryView>, which: WhichView, from: int, at: int)
    requires
        0 <= from <= at < entries.len(),
        key(entries[at].which) == key(which),
        forall|j: int| from <= j < at ==> key((#[trigger] entries[j]).which) != key(which),
    ensures
        entry_at(entries, which, from) == Some(at),
    decreases at - from,
{
    if from < at {
        lemma_found(entries, which, from + 1, at);
    }
}

proof fn lemma_the_entry(entries: Seq<EntryView>, which: WhichView, at: int)
    requires
        kept_once(entries),
        0 <= at < entries.len(),
        key(entries[at].which) == key(which),
    ensures
        entry_at(entries, which, 0) == Some(at),
{
    assert forall|j: int| 0 <= j < at implies key((#[trigger] entries[j]).which) != key(which) by {
        assert(key(entries[j].which) != key(entries[at].which));
    }
    lemma_found(entries, which, 0, at);
}

/// A source that is asked for is due at once, and nothing else about it or about any other
/// changes; one whose readings arrive by themselves is left to its own thread.
pub proof fn law_a_source_asked_for_is_due_at_once(
    entries: Seq<EntryView>,
    which: WhichView,
    now: Instant,
    at: int,
)
    requires
        kept_once(entries),
        0 <= at < entries.len(),
    ensures
        ({
            let after = brought_forward(entries, which, now);
            &&& after.len() == entries.len()
            &&& key(entries[at].which) == key(which) && !arrives(which) ==> after[at] == (
            EntryView { due: Some(now), ..entries[at] })
            &&& key(entries[at].which) != key(which) || arrives(which) ==> after[at] == entries[at]
        }),
{
    lemma_entry_at(entries, which, 0);
    if key(entries[at].which) == key(which) {
        lemma_the_entry(entries, which, at);
    }
}

proof fn lemma_all_forward(
    entries: Seq<EntryView>,
    sources: Seq<WhichView>,
    triggers: Seq<Which>,
    now: Instant,
    upto: int,
)
    requires
        kept_once(entries),
        0 <= upto <= sources.len(),
    ensures
        ({
            let after = all_forward(entries, sources, triggers, now, upto);
            &&& kept_once(after)
            &&& after.len() == entries.len()
            &&& forall|at: int|
                0 <= at < entries.len() ==> #[trigger] after[at] == (EntryView {
                    due: after[at].due,
                    ..entries[at]
                }) && (after[at].due == entries[at].due || after[at].due == Some(now))
            &&& forall|at: int, i: int|
                0 <= at < entries.len() && 0 <= i < upto && key(entries[at].which) == key(
                    #[trigger] sources[i],
                ) && !triggered(triggers, sources[i]) && !arrives(sources[i])
                    ==> (#[trigger] after[at]).due == Some(now)
        }),
    decreases upto,
{
    if upto > 0 {
        lemma_all_forward(entries, sources, triggers, now, upto - 1);
        let before = all_forward(entries, sources, triggers, now, upto - 1);
        let after = all_forward(entries, sources, triggers, now, upto);
        assert forall|at: int| 0 <= at < entries.len() implies {
            &&& #[trigger] after[at] == (EntryView { due: after[at].due, ..entries[at] })
            &&& after[at].due == entries[at].due || after[at].due == Some(now)
            &&& before[at].due == Some(now) ==> after[at].due == Some(now)
        } by {
            law_a_source_asked_for_is_due_at_once(before, sources[upto - 1], now, at);
            assert(before[at].which == entries[at].which);
        }
        assert(after.len() == entries.len()) by {
            if entries.len() > 0 {
                law_a_source_asked_for_is_due_at_once(before, sources[upto - 1], now, 0);
            }
        }
        assert forall|at: int, i: int|
            0 <= at < entries.len() && 0 <= i < upto && key(entries[at].which) == key(
                #[trigger] sources[i],
            ) && !triggered(triggers, sources[i]) && !arrives(sources[i]) implies (
        #[trigger] after[at]).due == Some(now) by {
            law_a_source_asked_for_is_due_at_once(before, sources[upto - 1], now, at);
            assert(before[at].which == entries[at].which);
            if i < upto - 1 {
                assert(before[at].due == Some(now));
            }
        }
        assert forall|i: int, j: int| 0 <= i < j < after.len() implies key(
            (#[trigger] after[i]).which,
        ) != key((#[trigger] after[j]).which) by {
            assert(key(entries[i].which) != key(entries[j].which));
        }
    }
}

/// Every source a signal is for is asked: those with a thread of their own through it, and any
/// other by being due at once. Nothing else changes, and no other source is touched.
pub proof fn law_a_signal_asks_every_source_it_is_for(
    entries: Seq<EntryView>,
    sources: Seq<WhichView>,
    triggers: Seq<Which>,
    now: Instant,
    at: int,
    i: int,
)
    requires
        kept_once(entries),
        0 <= at < entries.len(),
        0 <= i < sources.len(),
        key(entries[at].which) == key(sources[i]),
    ensures
        ({
            let n = sources.len() as int;
            let after = all_forward(entries, sources, triggers, now, n);
            &&& triggered(triggers, sources[i]) ==> all_asked(sources, triggers, n).contains(
                sources[i],
            )
            &&& !triggered(triggers, sources[i]) && !arrives(sources[i]) ==> after[at].due == Some(
                now,
            )
            &&& after.len() == entries.len()
            &&& after[at] == (EntryView { due: after[at].due, ..entries[at] })
        }),
{
    let n = sources.len() as int;
    lemma_all_forward(entries, sources, triggers, now, n);
    lemma_all_asked(sources, triggers, n, i);
}

proof fn lemma_all_asked(sources: Seq<WhichView>, triggers: Seq<Which>, upto: int, i: int)
    requires
        0 <= i < upto <= sources.len(),
    ensures
        triggered(triggers, sources[i]) ==> all_asked(sources, triggers, upto).contains(sources[i]),
    decreases upto,
{
    let asked = all_asked(sources, triggers, upto);
    let before = all_asked(sources, triggers, upto - 1);
    if triggered(triggers, sources[i]) {
        if i < upto - 1 {
            lemma_all_asked(sources, triggers, upto - 1, i);
            let k = choose|k: int| 0 <= k < before.len() && before[k] == sources[i];
            assert(asked[k] == sources[i]);
        } else {
            assert(asked[asked.len() - 1] == sources[i]);
        }
    }
}

proof fn lemma_offset_at(signals: Seq<(i32, Seq<WhichView>)>, offset: i32, from: int)
    requires
        0 <= from <= signals.len(),
    ensures
        match offset_at(signals, offset, from) {
            Some(at) => from <= at < signals.len() && signals[at].0 == offset && signal_sources(
                signals,
                offset,
                from,
            ) == signals[at].1,
            None => signal_sources(signals, offset, from).len() == 0 && forall|j: int|
                from <= j < signals.len() ==> (#[trigger] signals[j]).0 != offset,
        },
    decreases signals.len() - from,
{
    if from < signals.len() && signals[from].0 != offset {
        lemma_offset_at(signals, offset, from + 1);
    }
}

/// What changes at one place of a list, or is put behind it, changes what is found there and
/// nothing else.
proof fn lemma_sources_after(
    signals: Seq<(i32, Seq<WhichView>)>,
    offset: i32,
    sources: Seq<WhichView>,
    other: i32,
    from: int,
)
    requires
        0 <= from <= signals.len(),
    ensures
        ({
            let after = match offset_at(signals, offset, 0) {
                Some(at) => signals.update(at, (offset, sources)),
                None => signals.push((offset, sources)),
            };
            &&& other != offset ==> signal_sources(after, other, from) == signal_sources(
                signals,
                other,
                from,
            )
            &&& from == 0 ==> signal_sources(after, offset, 0) == sources
        }),
    decreases signals.len() - from,
{
    lemma_offset_at(signals, offset, 0);
    let after = match offset_at(signals, offset, 0) {
        Some(at) => signals.update(at, (offset, sources)),
        None => signals.push((offset, sources)),
    };
    if from < signals.len() {
        lemma_sources_after(signals, offset, sources, other, from + 1);
        if other != offset && after[from].0 != other {
            assert(signals[from].0 != other);
        }
    } else {
        reveal_with_fuel(signal_sources, 3);
    }
    if from == 0 {
        let at = match offset_at(signals, offset, 0) {
            Some(at) => at,
            None => signals.len() as int,
        };
        assert forall|j: int| 0 <= j < at implies (#[trigger] after[j]).0 != offset by {
            lemma_first_offset(signals, offset, 0);
            assert(after[j] == signals[j]);
        }
        lemma_first_sources(after, offset, 0, at);
    }
}

proof fn lemma_first_offset(signals: Seq<(i32, Seq<WhichView>)>, offset: i32, from: int)
    requires
        0 <= from <= signals.len(),
    ensures
        match offset_at(signals, offset, from) {
            Some(at) => forall|j: int| from <= j < at ==> (#[trigger] signals[j]).0 != offset,
            None => forall|j: int|
                from <= j < signals.len() ==> (#[trigger] signals[j]).0 != offset,
        },
    decreases signals.len() - from,
{
    if from < signals.len() && signals[from].0 != offset {
        lemma_first_offset(signals, offset, from + 1);
    }
}

proof fn lemma_first_sources(
    signals: Seq<(i32, Seq<WhichView>)>,
    offset: i32,
    from: int,
    at: int,
)
    requires
        0 <= from <= at < signals.len(),
        signals[at].0 == offset,
        forall|j: int| from <= j < at ==> (#[trigger] signals[j]).0 != offset,
    ensures
        signal_sources(signals, offset, from) == signals[at].1,
    decreases at - from,
{
    if from < at {
        lemma_first_sources(signals, offset, from + 1, at);
    }
}

/// A signal is for the source of every module that names it, and for no other: a module's source
/// is among those of an offset exactly when some module shows that source under that offset.
pub proof fn law_a_signal_is_for_the_modules_that_name_it(
    modules: Seq<ModuleView>,
    offset: i32,
    which: WhichView,
)
    ensures
        has_source(signal_sources(signalled(modules), offset, 0), which) <==> exists|i: int|
            0 <= i < modules.len() && (#[trigger] modules[i]).signal == Some(offset) && (
            modules[i].source matches SourceView::Native(w) && key(w) == key(which)),
    decreases modules.len(),
{
    if modules.len() > 0 {
        let front = modules.drop_last();
        let last = modules.last();
        law_a_signal_is_for_the_modules_that_name_it(front, offset, which);
        let before = signalled(front);
        assert(modules[modules.len() - 1] == last);
        if exists|i: int|
            0 <= i < front.len() && (#[trigger] front[i]).signal == Some(offset) && (
            front[i].source matches SourceView::Native(w) && key(w) == key(which)) {
            let i = choose|i: int|
                0 <= i < front.len() && (#[trigger] front[i]).signal == Some(offset) && (
                front[i].source matches SourceView::Native(w) && key(w) == key(which));
            assert(modules[i] == front[i]);
        }
        if exists|i: int|
            0 <= i < modules.len() && (#[trigger] modules[i]).signal == Some(offset) && (
            modules[i].source matches SourceView::Native(w) && key(w) == key(which)) && i
                < front.len() {
            let i = choose|i: int|
                0 <= i < modules.len() && (#[trigger] modules[i]).signal == Some(offset) && (
                modules[i].source matches SourceView::Native(w) && key(w) == key(which)) && i
                    < front.len();
            assert(modules[i] == front[i]);
        }
        if let (Some(own), SourceView::Native(w)) = (last.signal, last.source) {
            lemma_offset_at(before, own, 0);
            let at = offset_at(before, own, 0);
            let sources = match at {
                Some(i) => with_source(before[i].1, w),
                None => seq![w],
            };
            lemma_sources_after(before, own, sources, offset, 0);
            let was = signal_sources(before, own, 0);
            if own == offset {
                assert(signal_sources(signalled(modules), offset, 0) == sources);
                lemma_with_source(was, w, which);
                if at is None {
                    assert(sources =~= was.push(w));
                    assert(!has_source(was, w));
                }
            }
        }
    }
}

/// A list that a source is added to has that source, and what it had.
proof fn lemma_with_source(sources: Seq<WhichView>, w: WhichView, which: WhichView)
    ensures
        has_source(with_source(sources, w), which) <==> has_source(sources, which) || key(w) == key(
            which,
        ),
{
    let after = with_source(sources, w);
    if has_source(sources, which) {
        let i = choose|i: int| 0 <= i < sources.len() && key(#[trigger] sources[i]) == key(which);
        assert(key(after[i]) == key(which));
    }
    if key(w) == key(which) {
        if has_source(sources, w) {
            let i = choose|i: int| 0 <= i < sources.len() && key(#[trigger] sources[i]) == key(w);
            assert(key(after[i]) == key(which));
        } else {
            assert(key(after[sources.len() as int]) == key(which));
        }
    }
    if has_source(after, which) && !has_source(sources, which) {
        let i = choose|i: int| 0 <= i < after.len() && key(#[trigger] after[i]) == key(which);
        if i < sources.len() {
            assert(key(sources[i]) == key(which));
        }
    }
}

/// A source can be asked for exactly when some module that shows it has a signal or a button for
/// that.
pub proof fn law_a_source_can_be_asked_for_where_a_module_says_so(
    modules: Seq<ModuleView>,
    which: WhichView,
)
    ensures
        has_source(askable(modules), which) <==> exists|i: int|
            0 <= i < modules.len() && ((#[trigger] modules[i]).signal is Some
                || modules[i].refresh_button is Some) && (
            modules[i].source matches SourceView::Native(w) && key(w) == key(which)),
    decreases modules.len(),
{
    if modules.len() > 0 {
        let front = modules.drop_last();
        let last = modules.last();
        law_a_source_can_be_asked_for_where_a_module_says_so(front, which);
        assert(modules[modules.len() - 1] == last);
        if exists|i: int|
            0 <= i < front.len() && ((#[trigger] front[i]).signal is Some
                || front[i].refresh_button is Some) && (
            front[i].source matches SourceView::Native(w) && key(w) == key(which)) {
            let i = choose|i: int|
                0 <= i < front.len() && ((#[trigger] front[i]).signal is Some
                    || front[i].refresh_button is Some) && (
                front[i].source matches SourceView::Native(w) && key(w) == key(which));
            assert(modules[i] == front[i]);
        }
        if exists|i: int|
            0 <= i < modules.len() && ((#[trigger] modules[i]).signal is Some
                || modules[i].refresh_button is Some) && (
            modules[i].source matches SourceView::Native(w) && key(w) == key(which)) && i
                < front.len() {
            let i = choose|i: int|
                0 <= i < modules.len() && ((#[trigger] modules[i]).signal is Some
                    || modules[i].refresh_button is Some) && (
                modules[i].source matches SourceView::Native(w) && key(w) == key(which)) && i
                    < front.len();
            assert(modules[i] == front[i]);
        }
        if let SourceView::Native(w) = last.source {
            lemma_with_source(askable(front), w, which);
        }
    }
}

/// A source whose watcher is lost is read again at once, on its own clock from then on, and one
/// whose watcher has something to say is due at once.
pub proof fn law_a_watched_source_is_read_when_it_changes(
    entries: Seq<EntryView>,
    which: WhichView,
    now: Instant,
    at: int,
)
    requires
        kept_once(entries),
        0 <= at < entries.len(),
    ensures
        ({
            let changed = watched(entries, EventView::Changed(which), now);
            let lost = watched(entries, EventView::Lost(which), now);
            &&& changed.len() == entries.len() && lost.len() == entries.len()
            &&& key(entries[at].which) == key(which) ==> {
                &&& !arrives(which) ==> changed[at].due == Some(now)
                &&& !lost[at].watched
                &&& entries[at].due is None ==> lost[at].due == Some(now)
                &&& entries[at].due is Some ==> lost[at].due == entries[at].due
                &&& lost[at].readings == entries[at].readings
            }
            &&& key(entries[at].which) != key(which) ==> changed[at] == entries[at] && lost[at]
                == entries[at]
        }),
{
    lemma_entry_at(entries, which, 0);
    law_a_source_asked_for_is_due_at_once(entries, which, now, at);
    if key(entries[at].which) == key(which) {
        lemma_the_entry(entries, which, at);
    }
}

/// What a source publishes is what it shows, unless it would be drawn as it is already; and no
/// other source is touched.
pub proof fn law_what_is_published_is_shown(
    entries: Seq<EntryView>,
    which: WhichView,
    readings: Seq<Reading>,
    at: int,
)
    requires
        kept_once(entries),
        0 <= at < entries.len(),
        readings.len() > 0,
    ensures
        ({
            let after = took_in(entries, which, readings);
            &&& after.len() == entries.len()
            &&& key(entries[at].which) == key(which) ==> {
                &&& same_pages(entries[at].readings, readings_view(readings)) ==> after[at]
                    == entries[at]
                &&& !same_pages(entries[at].readings, readings_view(readings)) ==> after[at] == (
                EntryView { readings: readings_view(readings), ..entries[at] })
            }
            &&& key(entries[at].which) != key(which) ==> after[at] == entries[at]
        }),
{
    lemma_entry_at(entries, which, 0);
    if key(entries[at].which) == key(which) {
        lemma_the_entry(entries, which, at);
    }
}

/// A source with a thread of its own is read, says what it read, and waits: for its interval,
/// doubled once for each failure in a row and five times at most, or until somebody asks.
pub proof fn law_a_thread_reads_and_then_waits(r: Reader)
    requires
        r.interval.nanos * 32 <= u128::MAX,
    ensures
        does(r, Happened::Begun) == Next::Read,
        does(r, Happened::Asked) == Next::Read,
        does(r, Happened::Elapsed) == Next::Read,
        does(r, Happened::Took(true)) == Next::Send && does(r, Happened::Took(false)) == Next::Send,
        does(r, Happened::Unheard) == Next::Stop,
        ({
            let wait = match does(r, Happened::Sent) {
                Next::AwaitAskFor(d) => d.nanos as int,
                Next::Sleep(d) => d.nanos as int,
                _ => -1,
            };
            &&& wait == r.interval.nanos * pow2(doublings(r.failures as int))
            &&& does(r, Happened::Sent) is AwaitAskFor <==> r.askable
            &&& does(r, Happened::Unasked) matches Next::Sleep(d) && d.nanos == wait
        }),
        failed(r, Happened::Took(true)) == 0,
        r.failures < u32::MAX ==> failed(r, Happened::Took(false)) == r.failures + 1,
        failed(r, Happened::Sent) == r.failures && failed(r, Happened::Asked) == r.failures,
{
    let k = r.failures as int;
    lemma_stretch(k);
    lemma2_to64();
    assert(0 <= r.interval.nanos * stretch(k) <= r.interval.nanos * 32) by (nonlinear_arith)
        requires
            0 <= stretch(k) <= 32,
    ;
}

/// The source behind a module is that of the first of its name.
pub proof fn law_a_module_is_asked_for_by_name(modules: Seq<ModuleView>, name: Seq<char>, i: int)
    requires
        0 <= i < modules.len(),
        modules[i].name == name,
        forall|j: int| 0 <= j < i ==> (#[trigger] modules[j]).name != name,
    ensures
        modules[i].source matches SourceView::Native(w) ==> source_behind(modules, name, 0) == Some(
            w,
        ),
        !(modules[i].source is Native) ==> source_behind(modules, name, 0) is None,
{
    lemma_behind(modules, name, 0, i);
}

proof fn lemma_behind(modules: Seq<ModuleView>, name: Seq<char>, from: int, i: int)
    requires
        0 <= from <= i < modules.len(),
        modules[i].name == name,
        forall|j: int| from <= j < i ==> (#[trigger] modules[j]).name != name,
    ensures
        source_behind(modules, name, from) == source_behind(modules, name, i),
    decreases i - from,
{
    if from < i {
        lemma_behind(modules, name, from + 1, i);
    }
}

/// Every source whose changes the kernel reports is watched from then on, and nothing else about
/// it, or about any other, changes.
pub proof fn law_what_is_reported_is_watched(
    entries: Seq<EntryView>,
    covered: Seq<Which>,
    upto: int,
    at: int,
)
    requires
        kept_once(entries),
        0 <= upto <= covered.len(),
        0 <= at < entries.len(),
    ensures
        ({
            let after = all_covered(entries, covered, upto);
            &&& after.len() == entries.len()
            &&& after[at] == (EntryView { watched: after[at].watched, ..entries[at] })
            &&& after[at].watched <==> entries[at].watched || exists|i: int|
                0 <= i < upto && key((#[trigger] covered[i])@) == key(entries[at].which)
        }),
    decreases upto,
{
    if upto > 0 {
        law_what_is_reported_is_watched(entries, covered, upto - 1, at);
        lemma_covered_once(entries, covered, upto - 1);
        let before = all_covered(entries, covered, upto - 1);
        let which = covered[upto - 1]@;
        lemma_entry_at(before, which, 0);
        if key(before[at].which) == key(which) {
            lemma_the_entry(before, which, at);
        }
    }
}

proof fn lemma_covered_once(entries: Seq<EntryView>, covered: Seq<Which>, upto: int)
    requires
        kept_once(entries),
        0 <= upto <= covered.len(),
    ensures
        kept_once(all_covered(entries, covered, upto)),
        all_covered(entries, covered, upto).len() == entries.len(),
        forall|j: int|
            0 <= j < entries.len() ==> (#[trigger] all_covered(entries, covered, upto)[j]).which
                == entries[j].which,
    decreases upto,
{
    if upto > 0 {
        lemma_covered_once(entries, covered, upto - 1);
        let before = all_covered(entries, covered, upto - 1);
        let after = all_covered(entries, covered, upto);
        lemma_entry_at(before, covered[upto - 1]@, 0);
        assert forall|i: int, j: int| 0 <= i < j < after.len() implies key(
            (#[trigger] after[i]).which,
        ) != key((#[trigger] after[j]).which) by {
            assert(key(before[i].which) != key(before[j].which));
        }
    }
}

} // verus!
