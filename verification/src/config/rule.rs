//! Conditional restyling of a module.

use crate::config::known::{find_table, named_table, Known, Wardrobe, WardrobeView};
use crate::config::raw::RawState;
use crate::config::refusal::{about, at4, plainly, put, refused, slipped, Refusal, RefusalView};
use crate::config::refusal::{Slip, SlipView, Why};
use crate::config::source::{copy_pairs, pairs_view, source_fields, Source, SourceView};
use crate::config::style::{overlaid, Style, StyleView};
use crate::number::{Number, WIDEST};
use crate::status::{kind_named, kind_of_field, main_said, said, specs_view, value_reads_as};
use crate::status::{Amount, AmountView, FieldSpec, FieldView, Fields, FieldsView, Kind, State};
use crate::status::ValueView;
use crate::table::Table;
use crate::text::{contains, copy_text, has_text, opt_view, same};
use vstd::prelude::*;

verus! {

/// What a module currently is, for matching state rules against.
#[derive(Clone, Copy, Debug, PartialEq, Eq, Structural)]
pub struct StateFlags {
    pub urgent: bool,
    pub focused: bool,
    pub visible: bool,
    /// How the source rates what it is reporting.
    pub state: State,
}

impl Default for StateFlags {
    fn default() -> (f: StateFlags)
        ensures
            f == (StateFlags {
                urgent: false,
                focused: false,
                visible: false,
                state: State::Idle,
            }),
    {
        StateFlags { urgent: false, focused: false, visible: false, state: State::Idle }
    }
}

/// One conditional restyling of a module.
#[derive(Debug)]
pub struct StateRule {
    pub urgent: bool,
    pub hover: bool,
    pub focused: bool,
    pub visible: bool,
    /// Matches when the source rates itself this way.
    pub state: Option<State>,
    /// The field the bounds read. Without one they read the source's primary value.
    pub field: Option<String>,
    /// What the named field has to say, compared without case.
    pub equals: Option<String>,
    /// Fields that all have to read what they are paired with, compared without case.
    pub fields: Table<String>,
    /// Substring the module's text must contain.
    pub contains: Option<String>,
    /// Whether that substring is removed from the drawn text once matched.
    pub strip: bool,
    pub below: Option<Number>,
    pub above: Option<Number>,
    /// What `above` leaves of a hundred.
    pub headroom: Option<Number>,
    pub style: Style,
}

/// What a `StateRule` says.
#[verifier::ext_equal]
pub struct RuleView {
    pub urgent: bool,
    pub hover: bool,
    pub focused: bool,
    pub visible: bool,
    pub state: Option<State>,
    pub field: Option<Seq<char>>,
    pub equals: Option<Seq<char>>,
    pub fields: Seq<(Seq<char>, Seq<char>)>,
    pub contains: Option<Seq<char>>,
    pub strip: bool,
    pub below: Option<Number>,
    pub above: Option<Number>,
    pub headroom: Option<Number>,
    pub style: StyleView,
}

impl View for StateRule {
    type V = RuleView;

    open spec fn view(&self) -> RuleView {
        RuleView {
            urgent: self.urgent,
            hover: self.hover,
            focused: self.focused,
            visible: self.visible,
            state: self.state,
            field: opt_view(self.field),
            equals: opt_view(self.equals),
            fields: pairs_view(self.fields@),
            contains: opt_view(self.contains),
            strip: self.strip,
            below: self.below,
            above: self.above,
            headroom: self.headroom,
            style: self.style@,
        }
    }
}

/// The value a rule compares: the field it names, or what the source is mainly about.
pub open spec fn compared(rule: RuleView, fields: FieldsView) -> Option<ValueView> {
    match rule.field {
        Some(name) => said(fields, name),
        None => main_said(fields),
    }
}

/// The number a rule's bounds are held against.
pub open spec fn bounded(rule: RuleView, fields: FieldsView) -> Option<AmountView> {
    match compared(rule, fields) {
        Some(ValueView::Num { v, .. }) => Some(v),
        _ => None,
    }
}

/// Whether every one of these fields reads what it is paired with.
pub open spec fn all_read(pairs: Seq<(Seq<char>, Seq<char>)>, fields: FieldsView) -> bool {
    forall|i: int|
        0 <= i < pairs.len() ==> (said(fields, (#[trigger] pairs[i]).0) matches Some(v)
            && value_reads_as(v, pairs[i].1))
}

/// Whether a rule states any condition at all.
pub open spec fn conditional(rule: RuleView) -> bool {
    ||| rule.urgent
    ||| rule.hover
    ||| rule.focused
    ||| rule.visible
    ||| rule.state is Some
    ||| rule.contains is Some
    ||| rule.equals is Some
    ||| rule.fields.len() > 0
    ||| rule.below is Some
    ||| rule.above is Some
}

/// Whether a rule applies: it states something, and everything it states holds. `value` is the
/// number its bounds are held against.
pub open spec fn applies(
    rule: RuleView,
    flags: StateFlags,
    hovered: bool,
    fields: FieldsView,
    value: Option<Number>,
    text: Seq<char>,
) -> bool {
    &&& conditional(rule)
    &&& rule.urgent ==> flags.urgent
    &&& rule.state matches Some(state) ==> flags.state == state
    &&& rule.hover ==> hovered
    &&& rule.focused ==> flags.focused
    &&& rule.visible ==> flags.visible
    &&& rule.contains matches Some(needle) ==> has_text(text, needle)
    &&& rule.equals matches Some(wanted) ==> (compared(rule, fields) matches Some(v)
        && value_reads_as(v, wanted))
    &&& all_read(rule.fields, fields)
    &&& rule.below matches Some(limit) ==> (value matches Some(v) && v.less(limit))
    &&& rule.above matches Some(limit) ==> (value matches Some(v) && limit.less(v))
}

/// How many things a rule insists on, so that a rule naming two readings beats one naming
/// either alone: muted headphones are not just headphones, and not just muted.
pub open spec fn insists(rule: RuleView) -> int {
    (if rule.urgent {
        1int
    } else {
        0
    }) + (if rule.focused {
        1int
    } else {
        0
    }) + (if rule.state is Some {
        1int
    } else {
        0
    }) + (if rule.contains is Some {
        1int
    } else {
        0
    }) + (if rule.equals is Some {
        1int
    } else {
        0
    }) + rule.fields.len()
}

/// How tight a rule's bound is. A rule without one is as loose as a number can say.
pub open spec fn tightness(rule: RuleView) -> Number {
    let widest = Number { bits: WIDEST };
    (match rule.below {
        Some(v) => v,
        None => widest,
    }).smaller(
        match rule.headroom {
            Some(v) => v,
            None => widest,
        },
    )
}

/// Whether one rule is tried before another: the one that insists on more, and among those the
/// one with the tighter bound, so that "below 15" wins over "below 30".
pub open spec fn precedes(a: RuleView, b: RuleView) -> bool {
    insists(a) > insists(b) || (insists(a) == insists(b) && tightness(a).less(tightness(b)))
}

impl StateRule {
    /// The number this rule's bounds are held against, where the source published one.
    pub fn bounded_by<'a>(&self, fields: &'a Fields) -> (r: Option<&'a Amount>)
        ensures
            match r {
                Some(a) => bounded(self@, fields@) == Some(a@),
                None => bounded(self@, fields@) is None,
            },
    {
        let value = match &self.field {
            Some(name) => fields.get(name.as_str()),
            None => fields.primary(),
        };
        match value {
            Some(v) => v.num(),
            None => None,
        }
    }

    fn fields_read(&self, fields: &Fields) -> (r: bool)
        ensures
            r == all_read(self@.fields, fields@),
    {
        let ghost all = self@.fields;
        let pairs = self.fields.entries();
        for i in 0..pairs.len()
            invariant
                all == self@.fields,
                all == pairs_view(pairs@),
                forall|j: int|
                    0 <= j < i ==> (said(fields@, (#[trigger] all[j]).0) matches Some(v)
                        && value_reads_as(v, all[j].1)),
        {
            assert(all[i as int] == (pairs@[i as int].0@, pairs@[i as int].1@));
            let ok = match fields.get(pairs[i].0.as_str()) {
                Some(v) => v.reads_as(pairs[i].1.as_str()),
                None => false,
            };
            if !ok {
                return false;
            }
        }
        true
    }

    fn states_anything(&self) -> (r: bool)
        ensures
            r == conditional(self@),
    {
        self.urgent || self.hover || self.focused || self.visible || self.state.is_some()
            || self.contains.is_some() || self.equals.is_some() || self.fields.len() > 0
            || self.below.is_some() || self.above.is_some()
    }

    /// Whether this rule applies right now. Every condition it states has to hold, and a rule
    /// stating none never fires.
    ///
    /// `fields` is what the source published, `value` the number among them that the bounds
    /// are held against, and `text` what the format made of them. Every condition but
    /// `contains` reads what was published, because a rule keyed on the wording would be
    /// reading the bar's own output rather than anything that was measured.
    pub fn matches(
        &self,
        flags: StateFlags,
        hovered: bool,
        fields: &Fields,
        value: Option<Number>,
        text: &str,
    ) -> (r: bool)
        ensures
            r == applies(self@, flags, hovered, fields@, value, text@),
            // What is asked for has to be so.
            r ==> (self.urgent ==> flags.urgent) && (self.hover ==> hovered) && (self.focused
                ==> flags.focused) && (self.visible ==> flags.visible),
            r ==> (self.state matches Some(state) ==> flags.state == state),
            r ==> (self.contains matches Some(needle) ==> has_text(text@, needle@)),
            r ==> (self.below matches Some(limit) ==> (value matches Some(v) && v.less(limit))),
            r ==> (self.above matches Some(limit) ==> (value matches Some(v) && limit.less(v))),
            // And where only bounds are asked for, they are all there is to it.
            !self.urgent && !self.hover && !self.focused && !self.visible && self.state is None
                && self.contains is None && self.equals is None && self.fields@.len() == 0 ==> {
                &&& self.below is None && self.above is None ==> !r
                &&& self.below is Some && self.above is None ==> r == (value is Some
                    && value->0.less(self.below->0))
                &&& self.below is None && self.above is Some ==> r == (value is Some
                    && self.above->0.less(value->0))
                &&& self.below is Some && self.above is Some ==> r == (value is Some
                    && self.above->0.less(value->0) && value->0.less(self.below->0))
            },
    {
        if self.urgent && !flags.urgent {
            return false;
        }
        if let Some(state) = self.state {
            if flags.state != state {
                return false;
            }
        }
        if self.hover && !hovered {
            return false;
        }
        if self.focused && !flags.focused {
            return false;
        }
        if self.visible && !flags.visible {
            return false;
        }
        if let Some(needle) = &self.contains {
            if !contains(text, needle.as_str()) {
                return false;
            }
        }
        if let Some(wanted) = &self.equals {
            let value = match &self.field {
                Some(name) => fields.get(name.as_str()),
                None => fields.primary(),
            };
            let ok = match value {
                Some(v) => v.reads_as(wanted.as_str()),
                None => false,
            };
            if !ok {
                return false;
            }
        }
        if !self.fields_read(fields) {
            return false;
        }
        if let Some(limit) = self.below {
            let ok = match value {
                Some(v) => v.lt(limit),
                None => false,
            };
            if !ok {
                return false;
            }
        }
        if let Some(limit) = self.above {
            let ok = match value {
                Some(v) => limit.lt(v),
                None => false,
            };
            if !ok {
                return false;
            }
        }
        self.states_anything()
    }

    fn insistence(&self) -> (n: u128)
        ensures
            n == insists(self@),
    {
        let mut n: u128 = self.fields.len() as u128;
        if self.urgent {
            n = n + 1;
        }
        if self.focused {
            n = n + 1;
        }
        if self.state.is_some() {
            n = n + 1;
        }
        if self.contains.is_some() {
            n = n + 1;
        }
        if self.equals.is_some() {
            n = n + 1;
        }
        n
    }

    fn bound(&self) -> (b: Number)
        ensures
            b == tightness(self@),
    {
        let widest = Number { bits: WIDEST };
        let below = match self.below {
            Some(v) => v,
            None => widest,
        };
        let headroom = match self.headroom {
            Some(v) => v,
            None => widest,
        };
        below.min(headroom)
    }

    /// Whether this rule is tried before another.
    pub fn before(&self, other: &StateRule) -> (r: bool)
        ensures
            r == precedes(self@, other@),
    {
        let a = self.insistence();
        let b = other.insistence();
        a > b || (a == b && self.bound().lt(other.bound()))
    }
}

/// Rules under the names a configuration gives them.
pub open spec fn rules_view(rules: Seq<(String, StateRule)>) -> Seq<(Seq<char>, RuleView)> {
    Seq::new(rules.len(), |i: int| (rules[i].0@, rules[i].1@))
}

/// Where a rule goes among rules in order: before the first one, from `from` on, that it
/// precedes.
pub open spec fn slot(
    sorted: Seq<(Seq<char>, RuleView)>,
    rule: RuleView,
    from: int,
) -> int
    decreases sorted.len() - from,
{
    if from < 0 || from >= sorted.len() || precedes(rule, sorted[from].1) {
        from
    } else {
        slot(sorted, rule, from + 1)
    }
}

/// Rules in the order they are tried: tightest first, and otherwise in the order given.
pub open spec fn ranked(rules: Seq<(Seq<char>, RuleView)>) -> Seq<(Seq<char>, RuleView)>
    decreases rules.len(),
{
    if rules.len() == 0 {
        rules
    } else {
        let sorted = ranked(rules.drop_last());
        sorted.insert(slot(sorted, rules.last().1, 0), rules.last())
    }
}

proof fn lemma_slot(sorted: Seq<(Seq<char>, RuleView)>, rule: RuleView, from: int)
    requires
        0 <= from <= sorted.len(),
    ensures
        from <= slot(sorted, rule, from) <= sorted.len(),
        forall|i: int|
            from <= i < slot(sorted, rule, from) ==> !precedes(rule, (#[trigger] sorted[i]).1),
        slot(sorted, rule, from) < sorted.len() ==> precedes(
            rule,
            sorted[slot(sorted, rule, from)].1,
        ),
    decreases sorted.len() - from,
{
    if from < sorted.len() && !precedes(rule, sorted[from].1) {
        lemma_slot(sorted, rule, from + 1);
    }
}

/// Whether a rule's bound is a number.
pub open spec fn sound_bound(rule: RuleView) -> bool {
    tightness(rule).comparable()
}

proof fn lemma_precedes_runs_on(a: RuleView, b: RuleView, c: RuleView)
    requires
        sound_bound(a),
        sound_bound(b),
        sound_bound(c),
        precedes(a, b),
        !precedes(c, b),
    ensures
        precedes(a, c),
{
}

/// Rules are tried in order: none of them precedes one that is tried before it. And they are
/// the rules that were given, no more and no fewer.
pub proof fn law_rules_are_ranked(rules: Seq<(Seq<char>, RuleView)>)
    requires
        forall|i: int| 0 <= i < rules.len() ==> sound_bound((#[trigger] rules[i]).1),
    ensures
        forall|i: int, j: int|
            0 <= i < j < ranked(rules).len() ==> !precedes(
                (#[trigger] ranked(rules)[j]).1,
                (#[trigger] ranked(rules)[i]).1,
            ),
        ranked(rules).to_multiset() == rules.to_multiset(),
    decreases rules.len(),
{
    broadcast use vstd::seq_lib::group_to_multiset_ensures;

    if rules.len() > 0 {
        let shorter = rules.drop_last();
        let last = rules.last();
        assert forall|i: int| 0 <= i < shorter.len() implies sound_bound(
            (#[trigger] shorter[i]).1,
        ) by {
            assert(shorter[i] == rules[i]);
        }
        law_rules_are_ranked(shorter);
        let sorted = ranked(shorter);
        let at = slot(sorted, last.1, 0);
        lemma_slot(sorted, last.1, 0);
        let all = sorted.insert(at, last);
        assert forall|i: int| 0 <= i < sorted.len() implies sound_bound(
            (#[trigger] sorted[i]).1,
        ) by {
            assert(sorted.to_multiset().contains(sorted[i]));
            assert(shorter.contains(sorted[i]));
        }
        assert(sound_bound(last.1));
        assert forall|i: int, j: int| 0 <= i < j < all.len() implies !precedes(
            (#[trigger] all[j]).1,
            (#[trigger] all[i]).1,
        ) by {
            if j < at {
                assert(all[i] == sorted[i] && all[j] == sorted[j]);
            } else if i > at {
                assert(all[i] == sorted[i - 1] && all[j] == sorted[j - 1]);
            } else if j == at {
                assert(all[i] == sorted[i]);
            } else {
                assert(all[j] == sorted[j - 1]);
                let y = sorted[j - 1].1;
                if at < j - 1 {
                    assert(!precedes(y, sorted[at].1));
                    lemma_precedes_runs_on(last.1, sorted[at].1, y);
                }
                assert(precedes(last.1, y));
                if i < at {
                    assert(all[i] == sorted[i]);
                    assert(!precedes(sorted[j - 1].1, sorted[i].1));
                } else {
                    assert(all[i] == last);
                }
            }
        }
        assert(rules =~= shorter.push(last));
        assert(all.to_multiset() =~= sorted.to_multiset().insert(last));
        assert(rules.to_multiset() =~= shorter.to_multiset().insert(last));
    }
}

/// Put rules in the order they are tried.
pub fn rank_rules(rules: Vec<(String, StateRule)>) -> (r: Vec<(String, StateRule)>)
    ensures
        rules_view(r@) == ranked(rules_view(rules@)),
{
    let ghost all = rules_view(rules@);
    let mut rest = rules;
    let mut out: Vec<(String, StateRule)> = Vec::new();
    // Taken from the front of a list that is turned round, so that each is moved once.
    let mut turned: Vec<(String, StateRule)> = Vec::new();
    assert(rules_view(rest@) =~= all);
    while rest.len() > 0
        invariant
            rest@.len() + turned@.len() == all.len(),
            forall|i: int|
                0 <= i < rest@.len() ==> (rest@[i].0@, (#[trigger] rest@[i]).1@) == all[i],
            forall|i: int|
                0 <= i < turned@.len() ==> (turned@[i].0@, (#[trigger] turned@[i]).1@) == all[
                    all.len() - 1 - i
                ],
        decreases rest@.len(),
    {
        match rest.pop() {
            Some(pair) => {
                turned.push(pair);
            },
            None => {},
        }
    }
    assert(rules_view(out@) =~= ranked(all.take(0)));
    while turned.len() > 0
        invariant
            turned@.len() <= all.len(),
            forall|i: int|
                0 <= i < turned@.len() ==> (turned@[i].0@, (#[trigger] turned@[i]).1@) == all[
                    all.len() - 1 - i
                ],
            rules_view(out@) == ranked(all.take(all.len() - turned@.len())),
        decreases turned@.len(),
    {
        let ghost done = all.len() - turned@.len();
        match turned.pop() {
            Some(pair) => {
                let ghost sorted = rules_view(out@);
                let ghost one = (pair.0@, pair.1@);
                let mut at: usize = 0;
                while at < out.len() && !pair.1.before(&out[at].1)
                    invariant
                        at <= out@.len(),
                        sorted == rules_view(out@),
                        slot(sorted, pair.1@, 0) == slot(sorted, pair.1@, at as int),
                    decreases out@.len() - at,
                {
                    assert(sorted[at as int] == (out@[at as int].0@, out@[at as int].1@));
                    at = at + 1;
                }
                proof {
                    if at < out@.len() {
                        assert(sorted[at as int] == (out@[at as int].0@, out@[at as int].1@));
                    }
                    assert(slot(sorted, pair.1@, 0) == at);
                }
                out.insert(at, pair);
                proof {
                    assert(rules_view(out@) =~= sorted.insert(at as int, one));
                    let more = all.take(done + 1);
                    assert(more.drop_last() =~= all.take(done as int));
                    assert(more.last() == one);
                }
            },
            None => {},
        }
    }
    assert(all.take(all.len() as int) =~= all);
    out
}

/// The names a configuration uses for how a source rates itself.
pub open spec fn written_state(name: Seq<char>) -> Option<State> {
    if name == "idle"@ {
        Some(State::Idle)
    } else if name == "info"@ {
        Some(State::Info)
    } else if name == "good"@ {
        Some(State::Good)
    } else if name == "warning"@ {
        Some(State::Warning)
    } else if name == "critical"@ {
        Some(State::Critical)
    } else if name == "error"@ {
        Some(State::Error)
    } else {
        None
    }
}

pub fn parse_state(name: &str) -> (r: Result<State, Slip>)
    ensures
        match r {
            Ok(state) => written_state(name@) == Some(state),
            Err(slip) => written_state(name@) is None && slip@ == about(Why::UnknownState, name@),
        },
{
    if same(name, "idle") {
        Ok(State::Idle)
    } else if same(name, "info") {
        Ok(State::Info)
    } else if same(name, "good") {
        Ok(State::Good)
    } else if same(name, "warning") {
        Ok(State::Warning)
    } else if same(name, "critical") {
        Ok(State::Critical)
    } else if same(name, "error") {
        Ok(State::Error)
    } else {
        Err(Slip::about(Why::UnknownState, name))
    }
}

/// Whether a rule may compare this kind of field against a word: text, and a flag, which is
/// drawn as one of two words and reads as either.
pub open spec fn holds_a_word(kind: Kind) -> bool {
    kind == Kind::Text || kind == Kind::Flag
}

fn compares_to_a_word(kind: Kind) -> (r: bool)
    ensures
        r == holds_a_word(kind),
{
    kind == Kind::Text || kind == Kind::Flag
}

/// What is wrong with the field a rule names, if anything is.
///
/// A field a rule reads has to be one the source publishes, and has to hold the kind of thing
/// the rule asks of it, or the rule could never fire.
pub open spec fn field_trouble(s: RawState, fields: Seq<FieldView>) -> Option<SlipView> {
    match s.field {
        None => None,
        Some(field) => match kind_named(fields, field@, 0) {
            None => Some(about(Why::UnpublishedField, field@)),
            Some(kind) => {
                let number = s.above is Some || s.below is Some;
                let word = s.equals is Some;
                if number && !(kind is Num) {
                    Some(about(Why::NotNumeric(kind), field@))
                } else if word && !holds_a_word(kind) {
                    Some(about(Why::NotAWord(kind), field@))
                } else if !number && !word {
                    Some(about(Why::NothingCompared, field@))
                } else {
                    None
                }
            },
        },
    }
}

/// What is wrong with the fields a combined rule names, from `from` on.
pub open spec fn combined_trouble(
    pairs: Seq<(String, String)>,
    fields: Seq<FieldView>,
    from: int,
) -> Option<SlipView>
    decreases pairs.len() - from,
{
    if from < 0 || from >= pairs.len() {
        None
    } else {
        match kind_named(fields, pairs[from].0@, 0) {
            None => Some(about(Why::UnpublishedField, pairs[from].0@)),
            Some(kind) => if !holds_a_word(kind) {
                Some(about(Why::NotAWord(kind), pairs[from].0@))
            } else {
                combined_trouble(pairs, fields, from + 1)
            },
        }
    }
}

fn check_field(s: &RawState, fields: &Vec<FieldSpec>) -> (r: Result<(), Slip>)
    ensures
        match r {
            Ok(_) => field_trouble(*s, specs_view(fields@)) is None,
            Err(slip) => field_trouble(*s, specs_view(fields@)) == Some(slip@),
        },
{
    match &s.field {
        None => Ok(()),
        Some(field) => match kind_of_field(fields, field.as_str()) {
            None => Err(Slip::about(Why::UnpublishedField, field.as_str())),
            Some(kind) => {
                let number = s.above.is_some() || s.below.is_some();
                let word = s.equals.is_some();
                let numeric = match kind {
                    Kind::Num(_) => true,
                    _ => false,
                };
                if number && !numeric {
                    Err(Slip::about(Why::NotNumeric(kind), field.as_str()))
                } else if word && !compares_to_a_word(kind) {
                    Err(Slip::about(Why::NotAWord(kind), field.as_str()))
                } else if !number && !word {
                    Err(Slip::about(Why::NothingCompared, field.as_str()))
                } else {
                    Ok(())
                }
            },
        },
    }
}

fn check_combined(pairs: &Vec<(String, String)>, fields: &Vec<FieldSpec>) -> (r: Result<(), Slip>)
    ensures
        match r {
            Ok(_) => combined_trouble(pairs@, specs_view(fields@), 0) is None,
            Err(slip) => combined_trouble(pairs@, specs_view(fields@), 0) == Some(slip@),
        },
{
    for i in 0..pairs.len()
        invariant
            combined_trouble(pairs@, specs_view(fields@), 0) == combined_trouble(
                pairs@,
                specs_view(fields@),
                i as int,
            ),
    {
        match kind_of_field(fields, pairs[i].0.as_str()) {
            None => {
                return Err(Slip::about(Why::UnpublishedField, pairs[i].0.as_str()));
            },
            Some(kind) => {
                if !compares_to_a_word(kind) {
                    return Err(Slip::about(Why::NotAWord(kind), pairs[i].0.as_str()));
                }
            },
        }
    }
    Ok(())
}

/// What a state wears: the module's style with the keys of the named table over it, and the
/// state's own keys over that, so that per-module settings such as the icon survive.
pub open spec fn state_style(s: RawState, style: StyleView, w: WardrobeView, known: Known) -> Result<
    StyleView,
    SlipView,
> {
    let icons = known.icons@;
    match s.style {
        None => overlaid(style, s.overrides, w.palette, icons),
        Some(name) => match named_table(w.tables, name@, 0) {
            None => Err(about(Why::UnknownStyle, name@)),
            Some(named) => match overlaid(style, named, w.palette, icons) {
                Err(slip) => Err(slip),
                Ok(under) => overlaid(under, s.overrides, w.palette, icons),
            },
        },
    }
}

/// The rating a state asks for.
pub open spec fn state_rating(s: RawState) -> Result<Option<State>, SlipView> {
    match s.state {
        None => Ok(None),
        Some(name) => match written_state(name@) {
            Some(state) => Ok(Some(state)),
            None => Err(about(Why::UnknownState, name@)),
        },
    }
}

/// The rule a state writes, for a module of this source that wears this style.
pub open spec fn rule_of(
    s: RawState,
    style: StyleView,
    source: SourceView,
    w: WardrobeView,
    known: Known,
) -> Result<RuleView, SlipView> {
    let fields = source_fields(source, known.elsewhere@);
    match state_style(s, style, w, known) {
        Err(slip) => Err(slip),
        Ok(style) => match state_rating(s) {
            Err(slip) => Err(slip),
            Ok(state) => match field_trouble(s, fields) {
                Some(slip) => Err(slip),
                None => match combined_trouble(s.fields@, fields, 0) {
                    Some(slip) => Err(slip),
                    // A native source publishes values, so a rule that reads its wording
                    // would be reading the format's output rather than what was measured.
                    None => if (s.contains is Some || s.strip) && !(source is Provider) {
                        Err(plainly(Why::MatchesText))
                    } else {
                        Ok(
                            RuleView {
                                urgent: s.urgent,
                                hover: s.hover,
                                focused: s.focused,
                                visible: s.visible,
                                state,
                                field: opt_view(s.field),
                                equals: opt_view(s.equals),
                                fields: pairs_view(s.fields@),
                                contains: opt_view(s.contains),
                                strip: s.strip,
                                below: s.below,
                                above: s.above,
                                headroom: s.headroom,
                                style,
                            },
                        )
                    },
                },
            },
        },
    }
}

fn resolve_state_style(s: &RawState, style: &Style, w: &Wardrobe, known: &Known) -> (r: Result<
    Style,
    Slip,
>)
    ensures
        slipped(r) == state_style(*s, style@, w@, *known),
{
    match &s.style {
        None => style.overlay(&s.overrides, &w.palette, &known.icons),
        Some(name) => match find_table(w.tables, name.as_str()) {
            None => Err(Slip::about(Why::UnknownStyle, name.as_str())),
            Some(named) => {
                let under = style.overlay(named, &w.palette, &known.icons)?;
                under.overlay(&s.overrides, &w.palette, &known.icons)
            },
        },
    }
}

fn resolve_rule(
    s: &RawState,
    style: &Style,
    source: &Source,
    fields: &Vec<FieldSpec>,
    w: &Wardrobe,
    known: &Known,
) -> (r: Result<StateRule, Slip>)
    requires
        specs_view(fields@) == source_fields(source@, known.elsewhere@),
    ensures
        slipped(r) == rule_of(*s, style@, source@, w@, *known),
{
    let style = resolve_state_style(s, style, w, known)?;
    let state = match &s.state {
        None => None,
        Some(name) => Some(parse_state(name.as_str())?),
    };
    check_field(s, fields)?;
    check_combined(s.fields.entries(), fields)?;
    let provider = match source {
        Source::Provider => true,
        _ => false,
    };
    if (s.contains.is_some() || s.strip) && !provider {
        return Err(Slip::plainly(Why::MatchesText));
    }
    Ok(
        StateRule {
            urgent: s.urgent,
            hover: s.hover,
            focused: s.focused,
            visible: s.visible,
            state,
            field: copy_text(&s.field),
            equals: copy_text(&s.equals),
            fields: copy_pairs(&s.fields),
            contains: copy_text(&s.contains),
            strip: s.strip,
            below: s.below,
            above: s.above,
            headroom: s.headroom,
            style,
        },
    )
}

/// The rules a module's states write, from `from` on, under their names.
pub open spec fn rules_of(
    module: Seq<char>,
    states: Seq<(String, RawState)>,
    from: int,
    style: StyleView,
    source: SourceView,
    w: WardrobeView,
    known: Known,
) -> Result<Seq<(Seq<char>, RuleView)>, RefusalView>
    decreases states.len() - from,
{
    if from < 0 || from >= states.len() {
        Ok(Seq::empty())
    } else {
        match rule_of(states[from].1, style, source, w, known) {
            Err(slip) => Err(
                refused(seq!["module"@, module, "states"@, states[from].0@], slip),
            ),
            Ok(rule) => match rules_of(module, states, from + 1, style, source, w, known) {
                Err(e) => Err(e),
                Ok(rest) => Ok(seq![(states[from].0@, rule)] + rest),
            },
        }
    }
}

spec fn ruled_so_far(
    done: Seq<(Seq<char>, RuleView)>,
    rest: Result<Seq<(Seq<char>, RuleView)>, RefusalView>,
) -> Result<Seq<(Seq<char>, RuleView)>, RefusalView> {
    match rest {
        Ok(more) => Ok(done + more),
        Err(e) => Err(e),
    }
}

/// Resolve the rules of a module, in the order its states are given.
pub fn resolve_rules(
    module: &str,
    states: &Vec<(String, RawState)>,
    style: &Style,
    source: &Source,
    w: &Wardrobe,
    known: &Known,
) -> (r: Result<Vec<(String, StateRule)>, Refusal>)
    ensures
        match r {
            Ok(v) => rules_of(module@, states@, 0, style@, source@, w@, *known) == Ok::<
                Seq<(Seq<char>, RuleView)>,
                RefusalView,
            >(rules_view(v@)),
            Err(e) => rules_of(module@, states@, 0, style@, source@, w@, *known) == Err::<
                Seq<(Seq<char>, RuleView)>,
                RefusalView,
            >(e@),
        },
{
    let fields = source.fields(&known.elsewhere);
    let mut out: Vec<(String, StateRule)> = Vec::new();
    let ghost none = Seq::<(Seq<char>, RuleView)>::empty();
    assert(rules_view(out@) =~= none);
    proof {
        let rest = rules_of(module@, states@, 0, style@, source@, w@, *known);
        if rest is Ok {
            assert(none + rest->Ok_0 =~= rest->Ok_0);
        }
    }
    for i in 0..states.len()
        invariant
            specs_view(fields@) == source_fields(source@, known.elsewhere@),
            rules_of(module@, states@, 0, style@, source@, w@, *known) == ruled_so_far(
                rules_view(out@),
                rules_of(module@, states@, i as int, style@, source@, w@, *known),
            ),
    {
        let ghost before = rules_view(out@);
        let rule = put(
            resolve_rule(&states[i].1, style, source, &fields, w, known),
            at4("module", module, "states", states[i].0.as_str()),
        )?;
        let ghost shown = rule@;
        out.push((states[i].0.clone(), rule));
        proof {
            let one = (states@[i as int].0@, shown);
            assert(rules_view(out@) =~= before.push(one));
            let rest = rules_of(module@, states@, i + 1, style@, source@, w@, *known);
            if rest is Ok {
                assert(before + (seq![one] + rest->Ok_0) =~= before.push(one) + rest->Ok_0);
            }
        }
    }
    assert(rules_view(out@) + Seq::<(Seq<char>, RuleView)>::empty() =~= rules_view(out@));
    Ok(out)
}

} // verus!
