//! Which state rule applies, and which of two is tried first.

use crate::config::rule::{applies, bounded, precedes, RuleView, StateFlags};
use crate::extended::steps;
use crate::laws::number::law_less_is_fewer_steps;
use crate::number::Number;
use crate::status::{AmountView, FieldsView, State, Unit, ValueView};
use vstd::prelude::*;

verus! {

/// Whether a rule asks for nothing.
pub open spec fn asks_nothing(rule: RuleView) -> bool {
    &&& !rule.urgent && !rule.hover && !rule.focused && !rule.visible
    &&& rule.state is None && rule.contains is None && rule.equals is None
    &&& rule.fields.len() == 0
    &&& rule.below is None && rule.above is None
}

/// What is asked of a rule: what the module is like, and what its source published.
pub struct Asked {
    pub flags: StateFlags,
    pub hovered: bool,
    pub fields: FieldsView,
    pub value: Option<Number>,
    pub text: Seq<char>,
}

/// Whether a rule applies to this.
pub open spec fn wears(rule: RuleView, a: Asked) -> bool {
    applies(rule, a.flags, a.hovered, a.fields, a.value, a.text)
}

/// Whether what a rule asks for already is so, and asking for nothing is.
pub open spec fn meets(rule: RuleView, a: Asked) -> bool {
    asks_nothing(rule) || wears(rule, a)
}

/// A rule that asks for nothing never applies.
pub proof fn law_asking_for_nothing_never_applies(rule: RuleView, a: Asked)
    requires
        asks_nothing(rule),
    ensures
        !wears(rule, a),
{
}

/// A rule that asks for one more thing applies exactly when it applied without it, or asked for
/// nothing else, and the thing is so: the flags of the module are what it asks them to be.
pub proof fn law_a_flag_has_to_be_up(rule: RuleView, a: Asked, state: State)
    ensures
        !rule.urgent ==> (wears(RuleView { urgent: true, ..rule }, a) <==> meets(rule, a)
            && a.flags.urgent),
        !rule.hover ==> (wears(RuleView { hover: true, ..rule }, a) <==> meets(rule, a)
            && a.hovered),
        !rule.focused ==> (wears(RuleView { focused: true, ..rule }, a) <==> meets(rule, a)
            && a.flags.focused),
        !rule.visible ==> (wears(RuleView { visible: true, ..rule }, a) <==> meets(rule, a)
            && a.flags.visible),
        rule.state is None ==> (wears(RuleView { state: Some(state), ..rule }, a) <==> meets(
            rule,
            a,
        ) && a.flags.state == state),
{
    assert(RuleView { urgent: true, ..rule }.fields == rule.fields);
}

/// A rule that asks for a text applies only where the text stands somewhere in what the module
/// says, letter by letter.
pub proof fn law_a_text_has_to_be_there(rule: RuleView, a: Asked, needle: Seq<char>)
    requires
        rule.contains is None,
    ensures
        wears(RuleView { contains: Some(needle), ..rule }, a) <==> meets(rule, a) && exists|at: int|
            0 <= at <= a.text.len() - needle.len() && #[trigger] a.text.subrange(
                at,
                at + needle.len(),
            ) == needle,
{
    let more = RuleView { contains: Some(needle), ..rule };
    if exists|at: int|
        0 <= at <= a.text.len() - needle.len() && #[trigger] a.text.subrange(
            at,
            at + needle.len(),
        ) == needle {
        let at = choose|at: int|
            0 <= at <= a.text.len() - needle.len() && #[trigger] a.text.subrange(
                at,
                at + needle.len(),
            ) == needle;
        assert(crate::text::stands_at(a.text, needle, at));
        assert(crate::text::has_text(a.text, needle));
    }
    if crate::text::has_text(a.text, needle) {
        let at = choose|at: int| #[trigger] crate::text::stands_at(a.text, needle, at);
        assert(a.text.subrange(at, at + needle.len()) == needle);
    }
}

/// A rule that asks for a number under a limit applies exactly where there is a number and it is
/// fewer steps than the limit, and so at every smaller one and at no larger one.
pub proof fn law_below_is_below(rule: RuleView, a: Asked, limit: Number, other: Number)
    requires
        rule.below is None,
        limit.finite(),
        a.value matches Some(v) ==> v.finite(),
        other.finite(),
    ensures
        ({
            let low = RuleView { below: Some(limit), ..rule };
            &&& a.value is None ==> !wears(low, a)
            &&& a.value matches Some(v) ==> (wears(low, a) <==> meets(rule, a) && steps(v) < steps(
                limit,
            ))
            &&& asks_nothing(rule) ==> (a.value matches Some(v) ==> (wears(low, a) && steps(other)
                <= steps(v) ==> wears(low, Asked { value: Some(other), ..a })))
            &&& asks_nothing(rule) && steps(limit) <= steps(other) ==> !wears(
                low,
                Asked { value: Some(other), ..a },
            )
        }),
{
    law_less_is_fewer_steps(other, limit);
    if let Some(v) = a.value {
        law_less_is_fewer_steps(v, limit);
    }
}

/// A rule that asks for a number over a limit applies exactly where there is a number and it is
/// more steps than the limit, and so at every larger one and at no smaller one.
pub proof fn law_above_is_above(rule: RuleView, a: Asked, limit: Number, other: Number)
    requires
        rule.above is None,
        limit.finite(),
        a.value matches Some(v) ==> v.finite(),
        other.finite(),
    ensures
        ({
            let high = RuleView { above: Some(limit), ..rule };
            &&& a.value is None ==> !wears(high, a)
            &&& a.value matches Some(v) ==> (wears(high, a) <==> meets(rule, a) && steps(limit)
                < steps(v))
            &&& asks_nothing(rule) ==> (a.value matches Some(v) ==> (wears(high, a) && steps(v)
                <= steps(other) ==> wears(high, Asked { value: Some(other), ..a })))
            &&& asks_nothing(rule) && steps(other) <= steps(limit) ==> !wears(
                high,
                Asked { value: Some(other), ..a },
            )
        }),
{
    law_less_is_fewer_steps(limit, other);
    if let Some(v) = a.value {
        law_less_is_fewer_steps(limit, v);
    }
}

/// Whether two letters are the same but for their case.
pub open spec fn alike(a: char, b: char) -> bool {
    a == b || (('a' <= a <= 'z' || 'A' <= a <= 'Z') && (('a' <= b <= 'z' || 'A' <= b <= 'Z')) && (
    a as int - b as int == 32 || b as int - a as int == 32))
}

/// A rule that asks what a field reads applies exactly where the field is there and reads it: a
/// text letter by letter but for the case, and a flag as one of the words it is drawn with.
pub proof fn law_a_field_has_to_read_what_is_asked(
    rule: RuleView,
    a: Asked,
    name: Seq<char>,
    wanted: Seq<char>,
    text: Seq<char>,
)
    requires
        rule.equals is None,
    ensures
        ({
            let asking = RuleView { equals: Some(wanted), field: Some(name), ..rule };
            let plain = RuleView { field: Some(name), ..rule };
            &&& !a.fields.values.dom().contains(name) ==> !wears(asking, a)
            &&& a.fields.values.dom().contains(name) && a.fields.values[name] == ValueView::Text(
                text,
            ) ==> (wears(asking, a) <==> meets(plain, a) && text.len() == wanted.len()
                && forall|i: int| 0 <= i < text.len() ==> alike(#[trigger] text[i], wanted[i]))
            &&& a.fields.values.dom().contains(name) && a.fields.values[name] == ValueView::Flag(
                true,
            ) && wanted == "no"@ ==> !wears(asking, a)
            &&& a.fields.values.dom().contains(name) && a.fields.values[name] == ValueView::Flag(
                true,
            ) && wanted == "yes"@ ==> (wears(asking, a) <==> meets(plain, a))
            &&& a.fields.values.dom().contains(name) && a.fields.values[name] == ValueView::Flag(
                false,
            ) && wanted == "no"@ ==> (wears(asking, a) <==> meets(plain, a))
            &&& a.fields.values.dom().contains(name) && a.fields.values[name] is Num ==> !wears(
                asking,
                a,
            )
        }),
{
    let x = crate::text::ascii_lowercase(text);
    let y = crate::text::ascii_lowercase(wanted);
    if x == y {
        assert(x.len() == y.len());
        assert forall|i: int| 0 <= i < text.len() implies alike(#[trigger] text[i], wanted[i]) by {
            assert(x[i] == y[i]);
        }
    }
    if text.len() == wanted.len() && forall|i: int|
        0 <= i < text.len() ==> alike(#[trigger] text[i], wanted[i]) {
        assert forall|i: int| 0 <= i < text.len() implies x[i] == y[i] by {
            assert(alike(text[i], wanted[i]));
        }
        assert(x =~= y);
    }
    reveal_strlit("no");
    reveal_strlit("yes");
    reveal_strlit("true");
    reveal_strlit("false");
    let no = crate::text::ascii_lowercase("no"@);
    let yes = crate::text::ascii_lowercase("yes"@);
    assert(no.len() == 2 && yes.len() == 3);
    assert(crate::text::ascii_lowercase("true"@).len() == 4);
}

/// A rule that asks it of several fields applies exactly where each of them is so, one at a time.
pub proof fn law_every_field_has_to_read_what_is_asked(
    rule: RuleView,
    a: Asked,
    name: Seq<char>,
    wanted: Seq<char>,
)
    requires
        asks_nothing(rule),
    ensures
        ({
            let first = RuleView { equals: Some(wanted), field: Some(name), ..rule };
            let one = RuleView { fields: seq![(name, wanted)], ..rule };
            wears(one, a) <==> wears(first, a)
        }),
        forall|pairs: Seq<(Seq<char>, Seq<char>)>|
            #![trigger pairs.push((name, wanted))]
            pairs.len() > 0 ==> (wears(
                RuleView { fields: pairs.push((name, wanted)), ..rule },
                a,
            ) <==> wears(RuleView { fields: pairs, ..rule }, a) && wears(
                RuleView { fields: seq![(name, wanted)], ..rule },
                a,
            )),
{
    assert forall|pairs: Seq<(Seq<char>, Seq<char>)>|
        #![trigger pairs.push((name, wanted))]
        pairs.len() > 0 implies (wears(
        RuleView { fields: pairs.push((name, wanted)), ..rule },
        a,
    ) <==> wears(RuleView { fields: pairs, ..rule }, a) && wears(
        RuleView { fields: seq![(name, wanted)], ..rule },
        a,
    )) by {
        let more = pairs.push((name, wanted));
        let one = seq![(name, wanted)];
        assert(one[0] == (name, wanted));
        assert(more[pairs.len() as int] == one[0]);
        assert forall|i: int| 0 <= i < pairs.len() implies #[trigger] more[i] == pairs[i] by {}
        if wears(RuleView { fields: more, ..rule }, a) {
            assert forall|i: int| 0 <= i < pairs.len() implies (crate::status::said(
                a.fields,
                (#[trigger] pairs[i]).0,
            ) matches Some(v) && crate::status::value_reads_as(v, pairs[i].1)) by {
                assert(more[i] == pairs[i]);
            }
        }
    }
    let one = seq![(name, wanted)];
    assert(one[0] == (name, wanted));
}

/// The number a rule's bounds are held against is the one of the field it names, or without a
/// name that of the field the source is mainly about; and what is no number bounds nothing.
pub proof fn law_bounds_are_held_against_the_field_named(
    rule: RuleView,
    fields: FieldsView,
    name: Seq<char>,
    v: AmountView,
    unit: Unit,
)
    requires
        fields.values.dom().contains(name),
    ensures
        rule.field == Some(name) && fields.values[name] == (ValueView::Num { v, unit }) ==> bounded(
            rule,
            fields,
        ) == Some(v),
        rule.field is None && fields.primary == Some(name) && fields.values[name] == (
        ValueView::Num { v, unit }) ==> bounded(rule, fields) == Some(v),
        rule.field == Some(name) && !(fields.values[name] is Num) ==> bounded(rule, fields) is None,
        rule.field is None && fields.primary is None ==> bounded(rule, fields) is None,
{
}

/// A rule that insists on more is tried first: asking for anything beside what another asks, but
/// for a bound, the pointer or being in sight, puts a rule before it.
pub proof fn law_insisting_on_more_comes_first(
    rule: RuleView,
    state: State,
    text: Seq<char>,
    pair: (Seq<char>, Seq<char>),
)
    ensures
        !rule.urgent ==> precedes(RuleView { urgent: true, ..rule }, rule),
        !rule.focused ==> precedes(RuleView { focused: true, ..rule }, rule),
        rule.state is None ==> precedes(RuleView { state: Some(state), ..rule }, rule),
        rule.contains is None ==> precedes(RuleView { contains: Some(text), ..rule }, rule),
        rule.equals is None ==> precedes(RuleView { equals: Some(text), ..rule }, rule),
        precedes(RuleView { fields: rule.fields.push(pair), ..rule }, rule),
        !precedes(rule, rule),
{
}

/// Of two rules that insist on as much the one with the tighter bound is tried first: the lower
/// limit to be under, and the higher one to be over, which leaves less of a hundred.
pub proof fn law_the_tighter_bound_comes_first(rule: RuleView, tight: Number, loose: Number)
    requires
        rule.below is None,
        rule.headroom is None,
        tight.finite(),
        loose.finite(),
        steps(tight) < steps(loose),
        loose.less(Number { bits: 0x47ef_ffff_e000_0000 }),
    ensures
        precedes(RuleView { below: Some(tight), ..rule }, RuleView { below: Some(loose), ..rule }),
        !precedes(RuleView { below: Some(loose), ..rule }, RuleView { below: Some(tight), ..rule }),
        precedes(
            RuleView { headroom: Some(tight), ..rule },
            RuleView { headroom: Some(loose), ..rule },
        ),
        precedes(RuleView { below: Some(tight), ..rule }, rule),
{
    law_less_is_fewer_steps(tight, loose);
    law_less_is_fewer_steps(loose, tight);
}

} // verus!
