//! When two readings are the same, and so when nothing has to be drawn.

use crate::status::{comes_to, plain_decimal, said, same_amount, same_pages, same_reading};
use crate::status::{same_said, same_value, value_reads_as};
use crate::status::{AmountView, FieldsView, ReadingView, State, Unit, ValueView};
use crate::laws::text::{free_of, law_a_text_is_parted_at_the_first};
use crate::natural::tens;
use crate::text::{all_digits, ascii_lowercase, digits_value, is_digit};
use vstd::prelude::*;

verus! {

/// Values of two kinds, or in two units, are never the same, and texts, flags and times are only
/// where they are alike to the letter.
pub proof fn law_what_differs_is_not_the_same(
    s: Seq<char>,
    t: Seq<char>,
    a: bool,
    b: bool,
    m: int,
    n: int,
    v: AmountView,
    u: AmountView,
    one: Unit,
    other: Unit,
)
    ensures
        same_value(ValueView::Text(s), ValueView::Text(t)) <==> s == t,
        same_value(ValueView::Flag(a), ValueView::Flag(b)) <==> a == b,
        same_value(ValueView::Time(m), ValueView::Time(n)) <==> m == n,
        same_value(ValueView::Dur(m), ValueView::Dur(n)) <==> m == n,
        same_value(ValueView::Num { v, unit: one }, ValueView::Num { v: u, unit: other }) ==> one
            == other,
        !same_value(ValueView::Text(s), ValueView::Absent),
        !same_value(ValueView::Text(s), ValueView::Flag(a)),
        !same_value(ValueView::Num { v, unit: one }, ValueView::Absent),
        !same_value(ValueView::Num { v, unit: one }, ValueView::Text(s)),
        same_value(ValueView::Absent, ValueView::Absent),
{
}

/// Numbers are the same where they come to as much, however they are counted: a count where it
/// is the same count, a share where it is the same share of the whole, a rate where it is as much
/// in the same time.
pub proof fn law_numbers_are_the_same_where_they_come_to_as_much(
    m: int,
    n: int,
    a: int,
    b: int,
    unit: Unit,
)
    requires
        a > 0,
        b > 0,
    ensures
        ({
            let num = |v: AmountView| ValueView::Num { v, unit };
            &&& same_value(num(AmountView::Count(m)), num(AmountView::Count(n))) <==> m == n
            &&& same_value(num(AmountView::Signed(m)), num(AmountView::Signed(n))) <==> m == n
            &&& same_value(num(AmountView::Count(m)), num(AmountView::Signed(n))) <==> m == n
            &&& same_value(
                num(AmountView::Share { part: m, whole: a }),
                num(AmountView::Share { part: n, whole: b }),
            ) <==> m * b == n * a
            &&& same_value(
                num(AmountView::Ratio { of: m, by: a }),
                num(AmountView::Ratio { of: n, by: b }),
            ) <==> m * b == n * a
            &&& same_value(
                num(AmountView::Rate { count: m, over: a }),
                num(AmountView::Rate { count: n, over: b }),
            ) <==> m * b == n * a
            &&& same_value(num(AmountView::Count(m)), num(AmountView::Share { part: n, whole: b }))
                <==> m * b == n * 100
        }),
{
    assert((m * 100) * b == 100 * (m * b)) by (nonlinear_arith);
    assert((n * 100) * a == 100 * (n * a)) by (nonlinear_arith);
    assert((m * 1_000_000_000) * b == 1_000_000_000 * (m * b)) by (nonlinear_arith);
    assert((n * 1_000_000_000) * a == 1_000_000_000 * (n * a)) by (nonlinear_arith);
    if m == n && a == b {
        assert(m * b == n * a);
    }
}

/// Two readings are the same only where they are rated the same, are mainly about the same
/// field, and say the same under every name.
pub proof fn law_readings_are_the_same_name_by_name(
    a: ReadingView,
    b: ReadingView,
    name: Seq<char>,
)
    requires
        same_reading(a, b),
    ensures
        a.state == b.state,
        a.fields.primary == b.fields.primary,
        said(a.fields, name) is Some <==> said(b.fields, name) is Some,
        said(a.fields, name) matches Some(v) ==> same_value(v, said(b.fields, name)->0),
{
    assert(same_said(said(a.fields, name), said(b.fields, name)));
}

/// Changing how a reading is rated, what it is mainly about, or what one field says makes it
/// another.
pub proof fn law_a_change_makes_another_reading(
    r: ReadingView,
    state: State,
    primary: Option<Seq<char>>,
    name: Seq<char>,
    v: ValueView,
)
    ensures
        state != r.state ==> !same_reading(r, (ReadingView { state, ..r })),
        primary != r.fields.primary ==> !same_reading(
            r,
            (ReadingView { fields: (FieldsView { primary, ..r.fields }), ..r }),
        ),
        r.fields.values.dom().contains(name) && !same_value(r.fields.values[name], v)
            ==> !same_reading(
            r,
            (ReadingView {
                fields: (FieldsView { values: r.fields.values.insert(name, v), ..r.fields }),
                ..r
            }),
        ),
{
    let other = ReadingView {
        fields: (FieldsView { values: r.fields.values.insert(name, v), ..r.fields }),
        ..r
    };
    if r.fields.values.dom().contains(name) && same_reading(r, other) {
        law_readings_are_the_same_name_by_name(r, other, name);
        assert(other.fields.values[name] == v);
    }
}

/// Two runs of readings are the same only where they are as long and each page is the same.
pub proof fn law_pages_are_the_same_one_by_one(
    a: Seq<ReadingView>,
    b: Seq<ReadingView>,
    i: int,
)
    ensures
        a.len() != b.len() ==> !same_pages(a, b),
        0 <= i < a.len() && i < b.len() && !same_reading(a[i], b[i]) ==> !same_pages(a, b),
{
}

/// What a value reads as: a text as itself, whatever the case, and a flag as yes or true, or as
/// no or false. A number reads as no word.
pub proof fn law_a_value_reads_as_a_word(s: Seq<char>, word: Seq<char>, v: AmountView, unit: Unit)
    ensures
        value_reads_as(ValueView::Text(s), word) <==> ascii_lowercase(s) == ascii_lowercase(word),
        value_reads_as(ValueView::Flag(true), word) <==> ascii_lowercase(word) == "yes"@
            || ascii_lowercase(word) == "true"@,
        value_reads_as(ValueView::Flag(false), word) <==> ascii_lowercase(word) == "no"@
            || ascii_lowercase(word) == "false"@,
        !value_reads_as(ValueView::Num { v, unit }, word),
        !value_reads_as(ValueView::Absent, word),
{
    reveal_strlit("yes");
    reveal_strlit("true");
    reveal_strlit("no");
    reveal_strlit("false");
    assert(ascii_lowercase("yes"@) =~= "yes"@);
    assert(ascii_lowercase("true"@) =~= "true"@);
    assert(ascii_lowercase("no"@) =~= "no"@);
    assert(ascii_lowercase("false"@) =~= "false"@);
}

/// A number that is written in digits is as much as they write.
pub proof fn law_digits_come_to_what_they_write(digits: Seq<char>, n: int, unit: Unit)
    requires
        digits.len() > 0,
        all_digits(digits),
    ensures
        ({
            let num = |v: AmountView| ValueView::Num { v, unit };
            &&& same_value(num(AmountView::Written(digits)), num(AmountView::Count(n))) <==> n
                == digits_value(digits)
            &&& same_value(
                num(AmountView::Written(seq!['-'] + digits)),
                num(AmountView::Signed(n)),
            ) <==> n + digits_value(digits) == 0
        }),
{
    assert(is_digit(digits[0]));
    let none = Seq::<char>::empty();
    assert(free_of(digits, '.')) by {
        assert forall|i: int| 0 <= i < digits.len() implies #[trigger] digits[i] != '.' by {
            assert(is_digit(digits[i]));
        }
    }
    law_a_text_is_parted_at_the_first(digits, '.', none);
    assert(digits + none =~= digits);
    let signed = seq!['-'] + digits;
    assert(signed.drop_first() =~= digits);
    let value = digits_value(digits) as int;
    assert(tens(none.len()) == 1);
    assert(digits[0] != '+' && digits[0] != '-');
    assert(plain_decimal(digits) == Some((value, 1int)));
    assert(signed[0] == '-');
    assert(plain_decimal(signed) == Some((-value, 1int)));
    assert(comes_to(AmountView::Written(digits)) == Some((value, 1int)));
    assert(comes_to(AmountView::Written(signed)) == Some((-value, 1int)));
    assert(comes_to(AmountView::Count(n)) == Some((n, 1int)));
    assert(comes_to(AmountView::Signed(n)) == Some((n, 1int)));
    assert(same_amount(AmountView::Written(digits), AmountView::Count(n)) <==> value * 1 == n * 1);
    assert(same_amount(AmountView::Written(signed), AmountView::Signed(n)) <==> (-value) * 1 == n
        * 1);
}

} // verus!
