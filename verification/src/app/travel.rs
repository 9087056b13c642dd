//! Folds and wordings on their way from one end to the other.
//!
//! This module owns what is travelling, where it has got to and when it arrives, and whether a
//! timer is wanted for it. When that timer runs is for the event loop to say.

use crate::number::WHOLE;
use crate::text::same;
use crate::time::{Duration, Instant};
use vstd::prelude::*;

verus! {

/// One thing on its way between two ends.
#[derive(Debug)]
pub struct Travel {
    pub name: String,
    /// The wording being left, for a module moving from one wording to the next.
    pub leaving: usize,
    pub from: u32,
    pub to: u32,
    pub started: Instant,
    pub over: Duration,
    /// Where it had got to when it was last moved along.
    pub at: u32,
}

/// What a `Travel` says.
#[verifier::ext_equal]
pub struct TravelView {
    pub name: Seq<char>,
    pub leaving: usize,
    pub from: u32,
    pub to: u32,
    pub started: Instant,
    pub over: Duration,
    pub at: u32,
}

impl TravelView {
    /// Whether it lies between the two ends, and takes a length of time there is.
    pub open spec fn wf(self) -> bool {
        self.from <= WHOLE && self.to <= WHOLE && self.at <= WHOLE && self.over.wf()
    }
}

impl View for Travel {
    type V = TravelView;

    open spec fn view(&self) -> TravelView {
        TravelView {
            name: self.name@,
            leaving: self.leaving,
            from: self.from,
            to: self.to,
            started: self.started,
            over: self.over,
            at: self.at,
        }
    }
}

/// How long ago a moment was, if it was.
pub open spec fn since(then: Instant, now: Instant) -> int {
    if now.nanos < then.nanos {
        0
    } else {
        now.nanos - then.nanos
    }
}

/// Whether something has arrived.
pub open spec fn has_arrived(t: TravelView, now: Instant) -> bool {
    since(t.started, now) >= t.over.nanos
}

/// How much of its time something has had, as a share of the whole.
pub open spec fn gone_of(gone: int, over: int) -> int {
    if gone >= over {
        WHOLE as int
    } else {
        gone * WHOLE / over
    }
}

/// A share of the time made into a share of the way, so what travels leaves and arrives slowly.
pub open spec fn eased(share: int) -> int {
    share * share * (3 * WHOLE - 2 * share) / (WHOLE * WHOLE)
}

/// What lies so much of the way from one end to the other.
pub open spec fn between(from: int, to: int, share: int) -> int {
    if from <= to {
        from + (to - from) * share / WHOLE as int
    } else {
        from - (from - to) * share / WHOLE as int
    }
}

/// Where something has got to at a moment.
pub open spec fn position(t: TravelView, now: Instant) -> int {
    between(
        t.from as int,
        t.to as int,
        eased(gone_of(since(t.started, now), t.over.nanos as int)),
    )
}

/// Something moved along to where it has got to.
pub open spec fn moved_along(t: TravelView, now: Instant) -> TravelView {
    TravelView { at: position(t, now) as u32, ..t }
}

proof fn lemma_gone_of(gone: int, over: int)
    requires
        0 <= gone,
        0 <= over,
    ensures
        0 <= gone_of(gone, over) <= WHOLE,
{
    if gone < over {
        assert(0 <= gone * WHOLE / over <= WHOLE) by (nonlinear_arith)
            requires
                0 <= gone < over,
        ;
    }
}

proof fn lemma_eased(share: int)
    requires
        0 <= share <= WHOLE,
    ensures
        0 <= share * share * (3 * WHOLE - 2 * share) <= WHOLE * WHOLE * WHOLE,
        0 <= eased(share) <= WHOLE,
{
    let w = WHOLE as int;
    assert(0 <= share * share * (3 * w - 2 * share) <= w * w * w) by {
        lemma_easing_rises(share, w, w);
        assert(w * w * (3 * w - 2 * w) == w * w * w) by (nonlinear_arith);
        assert(0 <= share * share * (3 * w - 2 * share)) by (nonlinear_arith)
            requires
                0 <= share <= w,
        ;
    }
    let n = share * share * (3 * w - 2 * share);
    assert(0 <= n / (w * w) <= w) by (nonlinear_arith)
        requires
            0 <= n <= w * w * w,
            w > 0,
    ;
}

/// The easing never turns back.
proof fn lemma_easing_rises(less: int, more: int, w: int)
    requires
        0 <= less <= more <= w,
    ensures
        less * less * (3 * w - 2 * less) <= more * more * (3 * w - 2 * more),
{
    let d = more - less;
    let rise = 3 * w * (more + less) - 2 * (more * more + more * less + less * less);
    assert(more * more * (3 * w - 2 * more) - less * less * (3 * w - 2 * less) == d * rise)
        by (nonlinear_arith)
        requires
            d == more - less,
            rise == 3 * w * (more + less) - 2 * (more * more + more * less + less * less),
    ;
    assert(3 * w * (more + less) >= 3 * more * (more + less)) by (nonlinear_arith)
        requires
            0 <= less <= more <= w,
    ;
    assert(3 * more * (more + less) == 3 * (more * more) + 3 * (more * less)) by (nonlinear_arith);
    assert(more * more >= less * less && more * less >= less * less) by (nonlinear_arith)
        requires
            0 <= less <= more,
    ;
    assert(d * rise >= 0) by (nonlinear_arith)
        requires
            d >= 0,
            rise >= 0,
    ;
}

proof fn lemma_between(from: int, to: int, share: int)
    requires
        0 <= from <= WHOLE,
        0 <= to <= WHOLE,
        0 <= share <= WHOLE,
    ensures
        from <= to ==> from <= between(from, to, share) <= to,
        to <= from ==> to <= between(from, to, share) <= from,
{
    let w = WHOLE as int;
    let span = if from <= to {
        to - from
    } else {
        from - to
    };
    assert(0 <= span * share / w <= span) by (nonlinear_arith)
        requires
            0 <= span,
            0 <= share <= w,
            w > 0,
    ;
}

proof fn lemma_position(t: TravelView, now: Instant)
    requires
        t.wf(),
    ensures
        0 <= position(t, now) <= WHOLE,
        moved_along(t, now).wf(),
        t.from <= t.to ==> t.from <= position(t, now) <= t.to,
        t.to <= t.from ==> t.to <= position(t, now) <= t.from,
{
    let share = gone_of(since(t.started, now), t.over.nanos as int);
    lemma_gone_of(since(t.started, now), t.over.nanos as int);
    lemma_eased(share);
    lemma_between(t.from as int, t.to as int, eased(share));
}

impl Travel {
    pub open spec fn wf(&self) -> bool {
        self@.wf()
    }

    /// Where this has got to, eased so it leaves and arrives slowly.
    pub fn position(&self, now: Instant) -> (at: u32)
        requires
            self.wf(),
        ensures
            at == position(self@, now),
    {
        let gone: u128 = if now.nanos < self.started.nanos {
            0
        } else {
            now.nanos - self.started.nanos
        };
        let w: u128 = WHOLE as u128;
        let over: u128 = self.over.nanos;
        proof {
            lemma_gone_of(gone as int, over as int);
            lemma_eased(gone_of(gone as int, over as int));
            lemma_position(self@, now);
            if gone < over {
                assert(gone * w <= over * w) by (nonlinear_arith)
                    requires
                        gone <= over,
                ;
            }
        }
        let share: u128 = if gone >= over {
            w
        } else {
            gone * w / over
        };
        assert(share * share <= w * w) by (nonlinear_arith)
            requires
                share <= w,
        ;
        let eased_share: u128 = share * share * (3 * w - 2 * share) / (w * w);
        let span: u128 = if self.from <= self.to {
            (self.to - self.from) as u128
        } else {
            (self.from - self.to) as u128
        };
        assert(span * eased_share <= w * w) by (nonlinear_arith)
            requires
                span <= w,
                eased_share <= w,
        ;
        let moved: u128 = span * eased_share / w;
        assert(moved <= span) by (nonlinear_arith)
            requires
                moved == span * eased_share / w as int,
                eased_share <= w,
                w > 0,
        ;
        if self.from <= self.to {
            self.from + moved as u32
        } else {
            self.from - moved as u32
        }
    }

    pub fn arrived(&self, now: Instant) -> (r: bool)
        ensures
            r == has_arrived(self@, now),
    {
        if now.nanos < self.started.nanos {
            self.over.nanos == 0
        } else {
            now.nanos - self.started.nanos >= self.over.nanos
        }
    }

    fn copy(&self) -> (t: Travel)
        ensures
            t@ == self@,
    {
        Travel {
            name: self.name.clone(),
            leaving: self.leaving,
            from: self.from,
            to: self.to,
            started: self.started,
            over: self.over,
            at: self.at,
        }
    }
}

/// What a list of these says.
pub open spec fn travels_view(v: Seq<Travel>) -> Seq<TravelView> {
    Seq::new(v.len(), |i: int| v[i]@)
}

/// Whether each of these is well formed, and no two share a name.
pub open spec fn all_apart(v: Seq<TravelView>) -> bool {
    &&& forall|i: int| 0 <= i < v.len() ==> (#[trigger] v[i]).wf()
    &&& forall|i: int, j: int| 0 <= i < j < v.len() ==> (#[trigger] v[i]).name != (#[trigger] v[j]).name
}

/// Those of another name.
pub open spec fn others(v: Seq<TravelView>, name: Seq<char>) -> Seq<TravelView>
    decreases v.len(),
{
    if v.len() == 0 {
        v
    } else {
        let rest = others(v.drop_last(), name);
        if v.last().name == name {
            rest
        } else {
            rest.push(v.last())
        }
    }
}

/// Those still on their way, moved along to where they have got to.
pub open spec fn on_their_way(v: Seq<TravelView>, now: Instant) -> Seq<TravelView>
    decreases v.len(),
{
    if v.len() == 0 {
        v
    } else {
        let rest = on_their_way(v.drop_last(), now);
        if has_arrived(v.last(), now) {
            rest
        } else {
            rest.push(moved_along(v.last(), now))
        }
    }
}

/// The first of a name, from `from` on.
pub open spec fn going_under(v: Seq<TravelView>, name: Seq<char>, from: int) -> Option<int>
    decreases v.len() - from,
{
    if from < 0 || from >= v.len() {
        None
    } else if v[from].name == name {
        Some(from)
    } else {
        going_under(v, name, from + 1)
    }
}

/// Where something of a name has got to, while it is on its way.
pub open spec fn where_is(v: Seq<TravelView>, name: Seq<char>) -> Option<u32> {
    match going_under(v, name, 0) {
        Some(i) => Some(v[i].at),
        None => None,
    }
}

/// How far apart two positions are.
pub open spec fn apart(a: int, b: int) -> int {
    if a <= b {
        b - a
    } else {
        a - b
    }
}

/// How long a way takes, when all of it would take `over`.
pub open spec fn time_for(from: int, to: int, over: int) -> int {
    if apart(from, to) < WHOLE {
        over * apart(from, to) / WHOLE as int
    } else {
        over
    }
}

/// What is sent towards one end, from wherever it had got to or else from the other end.
pub open spec fn turned(
    v: Seq<TravelView>,
    name: Seq<char>,
    to: u32,
    over: Duration,
    now: Instant,
) -> TravelView {
    let from = match where_is(v, name) {
        Some(at) => at,
        None => (WHOLE - to) as u32,
    };
    TravelView {
        name,
        leaving: 0,
        from,
        to,
        started: now,
        over: Duration { nanos: time_for(from as int, to as int, over.nanos as int) as u128 },
        at: from,
    }
}

/// What sets out on the whole of the way.
pub open spec fn set_out(
    name: Seq<char>,
    leaving: usize,
    over: Duration,
    now: Instant,
) -> TravelView {
    TravelView { name, leaving, from: 0, to: WHOLE, started: now, over, at: 0 }
}

proof fn lemma_others(v: Seq<TravelView>, name: Seq<char>)
    requires
        all_apart(v),
    ensures
        all_apart(others(v, name)),
        forall|i: int| 0 <= i < others(v, name).len() ==> (#[trigger] others(v, name)[i]).name != name,
        forall|i: int|
            0 <= i < others(v, name).len() ==> v.contains(#[trigger] others(v, name)[i]),
    decreases v.len(),
{
    if v.len() > 0 {
        let before = v.drop_last();
        assert forall|i: int| 0 <= i < before.len() implies (#[trigger] before[i]).wf() by {
            assert(v[i].wf());
        }
        lemma_others(before, name);
        let rest = others(before, name);
        assert forall|i: int| 0 <= i < rest.len() implies v.contains(#[trigger] rest[i])
            && rest[i].name != v.last().name by {
            assert(before.contains(rest[i]));
            let k = choose|k: int| 0 <= k < before.len() && before[k] == rest[i];
            assert(v[k] == rest[i]);
            assert(v[k].name != v[v.len() - 1].name);
        }
        assert(v[v.len() - 1].wf());
        assert(v.contains(v.last()));
    }
}

proof fn lemma_on_their_way(v: Seq<TravelView>, now: Instant)
    requires
        all_apart(v),
    ensures
        all_apart(on_their_way(v, now)),
        forall|i: int|
            0 <= i < on_their_way(v, now).len() ==> named_in(
                v,
                (#[trigger] on_their_way(v, now)[i]).name,
            ),
    decreases v.len(),
{
    if v.len() > 0 {
        let before = v.drop_last();
        assert forall|i: int| 0 <= i < before.len() implies (#[trigger] before[i]).wf() by {
            assert(v[i].wf());
        }
        lemma_on_their_way(before, now);
        let rest = on_their_way(before, now);
        assert forall|i: int| 0 <= i < rest.len() implies named_in(v, (#[trigger] rest[i]).name)
            && rest[i].name != v.last().name by {
            assert(named_in(before, rest[i].name));
            let k = choose|k: int| 0 <= k < before.len() && #[trigger] before[k].name == rest[i].name;
            assert(v[k].name == rest[i].name);
            assert(v[k].name != v[v.len() - 1].name);
        }
        assert(v[v.len() - 1].wf());
        assert(named_in(v, v[v.len() - 1].name));
        lemma_position(v.last(), now);
    }
}

/// Whether one of these has a name.
pub open spec fn named_in(v: Seq<TravelView>, name: Seq<char>) -> bool {
    exists|i: int| 0 <= i < v.len() && #[trigger] v[i].name == name
}

/// Everything of one kind that is on its way.
#[derive(Debug)]
pub struct Folds {
    pub travelling: Vec<Travel>,
}

impl View for Folds {
    type V = Seq<TravelView>;

    open spec fn view(&self) -> Seq<TravelView> {
        travels_view(self.travelling@)
    }
}

impl Folds {
    pub open spec fn wf(&self) -> bool {
        all_apart(self@)
    }

    pub fn new() -> (f: Folds)
        ensures
            f@ == Seq::<TravelView>::empty(),
            f.wf(),
    {
        let f = Folds { travelling: Vec::new() };
        assert(f@ =~= Seq::<TravelView>::empty());
        f
    }

    fn find(&self, name: &str) -> (r: Option<usize>)
        ensures
            match r {
                Some(i) => going_under(self@, name@, 0) == Some(i as int) && i
                    < self.travelling@.len(),
                None => going_under(self@, name@, 0) is None,
            },
    {
        let ghost all = self@;
        for i in 0..self.travelling.len()
            invariant
                all == travels_view(self.travelling@),
                all == self@,
                going_under(all, name@, 0) == going_under(all, name@, i as int),
        {
            assert(all[i as int] == self.travelling@[i as int]@);
            if same(self.travelling[i].name.as_str(), name) {
                return Some(i);
            }
        }
        None
    }

    /// Where something of a name has got to, while it is on its way.
    pub fn at(&self, name: &str) -> (r: Option<u32>)
        ensures
            r == where_is(self@, name@),
    {
        match self.find(name) {
            Some(i) => Some(self.travelling[i].at),
            None => None,
        }
    }

    /// Forget something whose configuration no longer asks for animation.
    pub fn settle(&mut self, name: &str)
        requires
            old(self).wf(),
        ensures
            final(self)@ == others(old(self)@, name@),
            final(self).wf(),
    {
        let ghost all = self@;
        let mut kept: Vec<Travel> = Vec::new();
        let long = self.travelling.len();
        assert(all.take(0) =~= Seq::<TravelView>::empty());
        assert(travels_view(kept@) =~= others(all.take(0), name@));
        for i in 0..long
            invariant
                long == self.travelling@.len(),
                all == travels_view(self.travelling@),
                travels_view(kept@) == others(all.take(i as int), name@),
        {
            let ghost before = travels_view(kept@);
            proof {
                assert(all.take(i + 1).drop_last() =~= all.take(i as int));
                assert(all.take(i + 1).last() == self.travelling@[i as int]@);
            }
            if !same(self.travelling[i].name.as_str(), name) {
                let one = self.travelling[i].copy();
                let ghost seen = one@;
                kept.push(one);
                assert(travels_view(kept@) =~= before.push(seen));
            }
        }
        proof {
            assert(all.take(all.len() as int) =~= all);
            lemma_others(all, name@);
        }
        self.travelling = kept;
    }

    fn send(&mut self, one: Travel)
        requires
            old(self).wf(),
            one.wf(),
        ensures
            final(self)@ == others(old(self)@, one@.name).push(one@),
            final(self).wf(),
    {
        let ghost all = self@;
        proof {
            lemma_others(all, one@.name);
        }
        self.settle(one.name.as_str());
        let ghost before = self@;
        let ghost seen = one@;
        self.travelling.push(one);
        assert(self@ =~= before.push(seen));
    }

    /// Send something towards `to`, from wherever it had got to.
    ///
    /// A whole travel takes `over` exactly; one that has only part of the way left takes only
    /// that part of it.
    pub fn turn(&mut self, name: String, to: u32, over: Duration, now: Instant)
        requires
            old(self).wf(),
            to <= WHOLE,
            over.wf(),
        ensures
            final(self)@ == others(old(self)@, name@).push(
                turned(old(self)@, name@, to, over, now),
            ),
            final(self).wf(),
    {
        let ghost all = self@;
        let from: u32 = match self.find(name.as_str()) {
            Some(i) => {
                assert(all[i as int].wf());
                self.travelling[i].at
            },
            None => WHOLE - to,
        };
        let span: u32 = if from <= to {
            to - from
        } else {
            from - to
        };
        let w: u128 = WHOLE as u128;
        assert(over.nanos * span <= over.nanos * w && over.nanos * span / w as int <= over.nanos)
            by (nonlinear_arith)
            requires
                span <= w,
                0 <= over.nanos,
                w > 0,
        ;
        let wanted: u128 = if span < WHOLE {
            over.nanos * span as u128 / w
        } else {
            over.nanos
        };
        let one = Travel {
            name,
            leaving: 0,
            from,
            to,
            started: now,
            over: Duration { nanos: wanted },
            at: from,
        };
        self.send(one);
    }

    /// Start a whole travel from the wording a click just left.
    pub fn start(&mut self, name: String, leaving: usize, over: Duration, now: Instant)
        requires
            old(self).wf(),
            over.wf(),
        ensures
            final(self)@ == others(old(self)@, name@).push(set_out(name@, leaving, over, now)),
            final(self).wf(),
    {
        let one = Travel { name, leaving, from: 0, to: WHOLE, started: now, over, at: 0 };
        self.send(one);
    }

    /// Move everything along, returning whether any remain and whether the frame changed.
    ///
    /// Arriving lets go of a travel entirely, so what has arrived is drawn as what is settled.
    pub fn step(&mut self, now: Instant) -> (r: (bool, bool))
        requires
            old(self).wf(),
        ensures
            final(self)@ == on_their_way(old(self)@, now),
            final(self).wf(),
            r.0 == (final(self)@.len() > 0),
            r.1 == (final(self)@.len() > 0 || old(self)@.len() > 0),
    {
        let ghost all = self@;
        let mut kept: Vec<Travel> = Vec::new();
        let long = self.travelling.len();
        assert(all.take(0) =~= Seq::<TravelView>::empty());
        assert(travels_view(kept@) =~= on_their_way(all.take(0), now));
        for i in 0..long
            invariant
                long == self.travelling@.len(),
                all == travels_view(self.travelling@),
                all_apart(all),
                travels_view(kept@) == on_their_way(all.take(i as int), now),
        {
            let ghost before = travels_view(kept@);
            proof {
                assert(all.take(i + 1).drop_last() =~= all.take(i as int));
                assert(all.take(i + 1).last() == self.travelling@[i as int]@);
                assert(all[i as int].wf());
            }
            if !self.travelling[i].arrived(now) {
                let mut one = self.travelling[i].copy();
                let at = one.position(now);
                one.at = at;
                let ghost seen = one@;
                assert(seen == moved_along(all[i as int], now));
                kept.push(one);
                assert(travels_view(kept@) =~= before.push(seen));
            }
        }
        proof {
            assert(all.take(all.len() as int) =~= all);
            lemma_on_their_way(all, now);
        }
        let going = kept.len() > 0;
        self.travelling = kept;
        (going, going || long > 0)
    }

    pub fn idle(&self) -> (r: bool)
        ensures
            r == (self@.len() == 0),
    {
        self.travelling.len() == 0
    }
}

/// All that one shared timer drives.
#[derive(Debug)]
pub struct Travels {
    pub folds: Folds,
    pub module_folds: Folds,
    pub wordings: Folds,
    pub scheduled: bool,
}

/// Whether anything at all is on its way.
pub open spec fn any_going(t: Travels) -> bool {
    t.folds@.len() > 0 || t.module_folds@.len() > 0 || t.wordings@.len() > 0
}

impl Travels {
    pub open spec fn wf(&self) -> bool {
        self.folds.wf() && self.module_folds.wf() && self.wordings.wf()
    }

    pub fn new() -> (t: Travels)
        ensures
            t.wf(),
            !any_going(t),
            !t.scheduled,
    {
        Travels {
            folds: Folds::new(),
            module_folds: Folds::new(),
            wordings: Folds::new(),
            scheduled: false,
        }
    }

    /// Move everything along, returning whether any remain and whether the frame changed.
    pub fn step(&mut self, now: Instant) -> (r: (bool, bool))
        requires
            old(self).wf(),
        ensures
            final(self).wf(),
            final(self).folds@ == on_their_way(old(self).folds@, now),
            final(self).module_folds@ == on_their_way(old(self).module_folds@, now),
            final(self).wordings@ == on_their_way(old(self).wordings@, now),
            r.0 == any_going(*final(self)),
            r.1 == (any_going(*final(self)) || any_going(*old(self))),
            final(self).scheduled == r.0,
    {
        let (folding, folds_changed) = self.folds.step(now);
        let (module_folding, module_folds_changed) = self.module_folds.step(now);
        let (switching, wordings_changed) = self.wordings.step(now);
        let going = folding || module_folding || switching;
        self.scheduled = going;
        (going, folds_changed || module_folds_changed || wordings_changed)
    }

    /// Claim the timer once when new work appears.
    pub fn claim(&mut self) -> (r: bool)
        ensures
            r == (!old(self).scheduled && any_going(*old(self))),
            final(self).scheduled == (old(self).scheduled || r),
            final(self).folds == old(self).folds,
            final(self).module_folds == old(self).module_folds,
            final(self).wordings == old(self).wordings,
    {
        if self.scheduled || (self.folds.idle() && self.module_folds.idle()
            && self.wordings.idle()) {
            return false;
        }
        self.scheduled = true;
        true
    }

    /// Give back a timer which could not be installed.
    pub fn release(&mut self)
        ensures
            !final(self).scheduled,
            final(self).folds == old(self).folds,
            final(self).module_folds == old(self).module_folds,
            final(self).wordings == old(self).wordings,
    {
        self.scheduled = false;
    }
}

/// A travel sets out from one end and arrives at the other.
pub proof fn law_a_travel_starts_and_ends_where_it_says(t: TravelView, now: Instant)
    requires
        t.wf(),
        t.over.nanos > 0,
    ensures
        now.nanos <= t.started.nanos ==> position(t, now) == t.from,
        has_arrived(t, now) ==> position(t, now) == t.to,
{
    let w = WHOLE as int;
    if now.nanos <= t.started.nanos {
        assert(gone_of(0, t.over.nanos as int) == 0) by (nonlinear_arith)
            requires
                t.over.nanos > 0,
        ;
        assert(eased(0) == 0) by (nonlinear_arith);
        let span = apart(t.from as int, t.to as int);
        assert(span * 0 / w == 0) by (nonlinear_arith)
            requires
                w > 0,
        ;
    }
    if has_arrived(t, now) {
        assert(eased(w) == w) by (nonlinear_arith)
            requires
                w == WHOLE,
        ;
        let span = apart(t.from as int, t.to as int);
        assert(span * w / w == span) by (nonlinear_arith)
            requires
                w > 0,
        ;
    }
}

/// A travel never turns back on its way: later, it is no further from where it is going.
pub proof fn law_a_travel_only_comes_closer(t: TravelView, now: Instant, later: Instant)
    requires
        t.wf(),
        now.nanos <= later.nanos,
    ensures
        apart(position(t, later), t.to as int) <= apart(position(t, now), t.to as int),
{
    let w = WHOLE as int;
    let over = t.over.nanos as int;
    let early = since(t.started, now);
    let late = since(t.started, later);
    let a = gone_of(early, over);
    let b = gone_of(late, over);
    lemma_gone_of(early, over);
    lemma_gone_of(late, over);
    assert(a <= b) by {
        if late < over {
            assert(early * w / over <= late * w / over) by (nonlinear_arith)
                requires
                    0 <= early <= late,
                    over > 0,
                    w > 0,
            ;
        }
    }
    lemma_easing_rises(a, b, w);
    lemma_eased(a);
    lemma_eased(b);
    let low = a * a * (3 * w - 2 * a);
    let high = b * b * (3 * w - 2 * b);
    assert(low / (w * w) <= high / (w * w)) by (nonlinear_arith)
        requires
            low <= high,
            w > 0,
    ;
    let span = apart(t.from as int, t.to as int);
    assert(span * eased(a) / w <= span * eased(b) / w) by (nonlinear_arith)
        requires
            eased(a) <= eased(b),
            span >= 0,
            w > 0,
    ;
    lemma_position(t, now);
    lemma_position(t, later);
}

/// Turning around takes no more time than the way back is of the whole.
pub proof fn law_turning_around_uses_only_the_remaining_distance(
    v: Seq<TravelView>,
    name: Seq<char>,
    to: u32,
    over: Duration,
    now: Instant,
)
    requires
        all_apart(v),
        to <= WHOLE,
        over.wf(),
    ensures
        ({
            let t = turned(v, name, to, over, now);
            &&& t.over.nanos * WHOLE <= over.nanos * apart(t.from as int, t.to as int)
            &&& where_is(v, name) is None && (to == 0 || to == WHOLE) ==> t.over == over
            &&& where_is(v, name) == Some(to) ==> has_arrived(t, now)
        }),
{
    lemma_where_is(v, name, 0);
    let t = turned(v, name, to, over, now);
    let w = WHOLE as int;
    let span = apart(t.from as int, t.to as int);
    let n = over.nanos as int;
    assert(0 <= n * span / w <= n && n * span / w * w <= n * span) by (nonlinear_arith)
        requires
            0 <= n,
            0 <= span <= w,
            w > 0,
    ;
    if span == 0 {
        assert(n * span / w == 0) by (nonlinear_arith)
            requires
                span == 0,
                w > 0,
        ;
    }
    if span == w {
        assert(n * w == n * span);
    }
}

proof fn lemma_where_is(v: Seq<TravelView>, name: Seq<char>, from: int)
    requires
        all_apart(v),
        0 <= from,
    ensures
        going_under(v, name, from) matches Some(i) ==> 0 <= i < v.len() && v[i].name == name
            && v[i].at <= WHOLE,
    decreases v.len() - from,
{
    if from < v.len() {
        assert(v[from].wf());
        lemma_where_is(v, name, from + 1);
    }
}

/// Everything arrives: once what is on its way has had its time, nothing is left of it.
pub proof fn law_everything_arrives(v: Seq<TravelView>, now: Instant)
    requires
        forall|i: int|
            0 <= i < v.len() ==> (#[trigger] v[i]).started.nanos + v[i].over.nanos <= now.nanos,
    ensures
        on_their_way(v, now).len() == 0,
    decreases v.len(),
{
    if v.len() > 0 {
        let before = v.drop_last();
        assert forall|i: int| 0 <= i < before.len() implies (#[trigger] before[i]).started.nanos
            + before[i].over.nanos <= now.nanos by {
            assert(before[i] == v[i]);
        }
        law_everything_arrives(before, now);
        assert(v.last() == v[v.len() - 1]);
    }
}

/// Settling one leaves every other on its way, as it was.
pub proof fn law_settling_one_leaves_the_others(v: Seq<TravelView>, name: Seq<char>, t: TravelView)
    ensures
        others(v, name).contains(t) <==> v.contains(t) && t.name != name,
    decreases v.len(),
{
    if v.len() > 0 {
        let before = v.drop_last();
        let rest = others(before, name);
        let all = others(v, name);
        law_settling_one_leaves_the_others(before, name, t);
        if all.contains(t) {
            let k = choose|k: int| 0 <= k < all.len() && all[k] == t;
            if k < rest.len() {
                assert(rest[k] == t);
                let i = choose|i: int| 0 <= i < before.len() && before[i] == t;
                assert(v[i] == t);
            } else {
                assert(v[v.len() - 1] == t);
            }
        }
        if v.contains(t) && t.name != name {
            let i = choose|i: int| 0 <= i < v.len() && v[i] == t;
            if i < before.len() {
                assert(before[i] == t);
                let k = choose|k: int| 0 <= k < rest.len() && rest[k] == t;
                assert(all[k] == t);
            } else {
                assert(all[rest.len() as int] == t);
            }
        }
    }
}

} // verus!
