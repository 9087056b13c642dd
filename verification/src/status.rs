//! What a source publishes: named values, and how it rates them.

use crate::natural::{tens, Natural, Whole};
use crate::number::Number;
use crate::text::{all_digits, chars_of, digit, digits_value, eq_ignore_ascii_case, is_digit, owned};
use crate::text::{parted, piece, same, same_ignoring_case, split_once, unsigned_number};
use crate::time::Duration;
use vstd::prelude::*;

verus! {

/// How a source rates what it is reporting.
#[derive(Clone, Copy, Debug, PartialEq, Eq, Structural)]
pub enum State {
    Idle,
    Info,
    Good,
    Warning,
    Critical,
    Error,
}

/// What a number counts.
#[derive(Clone, Copy, Debug, PartialEq, Eq, Structural)]
pub enum Unit {
    Plain,
    Percent,
    Bytes,
    BytesPerSec,
    Celsius,
    Watts,
}

/// What kind of value a field holds.
#[derive(Clone, Copy, Debug, PartialEq, Eq, Structural)]
pub enum Kind {
    Num(Unit),
    Text,
    Flag,
    Time,
    Dur,
}

/// What a click or a scroll can change.
#[derive(Clone, Copy, Debug, PartialEq, Eq, Structural)]
pub enum Control {
    Brightness,
    Volume,
    Media,
}

/// A field a source publishes, and the kind of value it holds.
#[derive(Debug)]
pub struct FieldSpec {
    pub name: String,
    pub kind: Kind,
}

/// What a `FieldSpec` says.
pub struct FieldView {
    pub name: Seq<char>,
    pub kind: Kind,
}

impl View for FieldSpec {
    type V = FieldView;

    open spec fn view(&self) -> FieldView {
        FieldView { name: self.name@, kind: self.kind }
    }
}

impl FieldSpec {
    pub fn new(name: &str, kind: Kind) -> (f: FieldSpec)
        ensures
            f@ == (FieldView { name: name@, kind }),
    {
        FieldSpec { name: owned(name), kind }
    }

    pub fn copy(&self) -> (f: FieldSpec)
        ensures
            f@ == self@,
    {
        FieldSpec { name: self.name.clone(), kind: self.kind }
    }
}

/// What a list of fields says.
pub open spec fn specs_view(fields: Seq<FieldSpec>) -> Seq<FieldView> {
    Seq::new(fields.len(), |i: int| fields[i]@)
}

/// The kind of the first field of this name from `from` on.
pub open spec fn kind_named(fields: Seq<FieldView>, name: Seq<char>, from: int) -> Option<Kind>
    decreases fields.len() - from,
{
    if from < 0 || from >= fields.len() {
        None
    } else if fields[from].name == name {
        Some(fields[from].kind)
    } else {
        kind_named(fields, name, from + 1)
    }
}

/// The kind of the field of this name, if there is one.
pub fn kind_of_field(fields: &Vec<FieldSpec>, name: &str) -> (r: Option<Kind>)
    ensures
        r == kind_named(specs_view(fields@), name@, 0),
{
    let ghost all = specs_view(fields@);
    for i in 0..fields.len()
        invariant
            all == specs_view(fields@),
            kind_named(all, name@, 0) == kind_named(all, name@, i as int),
    {
        assert(all[i as int] == fields@[i as int]@);
        if same(fields[i].name.as_str(), name) {
            return Some(fields[i].kind);
        }
    }
    None
}

/// Copies of a list of fields.
pub fn copy_specs(fields: &Vec<FieldSpec>) -> (r: Vec<FieldSpec>)
    ensures
        specs_view(r@) == specs_view(fields@),
{
    let mut out: Vec<FieldSpec> = Vec::new();
    for i in 0..fields.len()
        invariant
            out@.len() == i,
            forall|j: int| 0 <= j < i ==> out@[j]@ == #[trigger] fields@[j]@,
    {
        out.push(fields[i].copy());
    }
    assert(specs_view(out@) =~= specs_view(fields@));
    out
}

/// A quantity, kept as what it is worked out from, so that nothing is rounded before it is
/// drawn.
#[derive(Debug)]
pub enum Amount {
    Count(u128),
    /// `part` as a percentage of `whole`.
    Share { part: Natural, whole: Natural },
    /// One number divided by another.
    Ratio { of: Whole, by: Natural },
    /// A signed whole number.
    Signed(i64),
    /// So many in a length of time, for each second of it.
    Rate { count: u64, over: Duration },
    /// A decimal number, as it was written.
    Written(String),
    /// A decimal number, as it was written, as a percentage of a whole number.
    WrittenShare { written: String, among: u64 },
    /// A number that arrived as floating point.
    Float(Number),
}

/// What an `Amount` says.
pub enum AmountView {
    Count(int),
    Share { part: int, whole: int },
    Ratio { of: int, by: int },
    Signed(int),
    Rate { count: int, over: int },
    Written(Seq<char>),
    WrittenShare { written: Seq<char>, among: int },
    Float(Number),
}

impl View for Amount {
    type V = AmountView;

    open spec fn view(&self) -> AmountView {
        match self {
            Amount::Count(n) => AmountView::Count(*n as int),
            Amount::Share { part, whole } => AmountView::Share {
                part: part@ as int,
                whole: whole@ as int,
            },
            Amount::Ratio { of, by } => AmountView::Ratio { of: of@, by: by@ as int },
            Amount::Signed(n) => AmountView::Signed(*n as int),
            Amount::Rate { count, over } => AmountView::Rate {
                count: *count as int,
                over: over.nanos as int,
            },
            Amount::Written(s) => AmountView::Written(s@),
            Amount::WrittenShare { written, among } => AmountView::WrittenShare {
                written: written@,
                among: *among as int,
            },
            Amount::Float(n) => AmountView::Float(*n),
        }
    }
}

/// The number a text writes out in full, as one divided by another: digits, a point among or
/// around them where there is one, and a sign where there is one.
pub open spec fn plain_decimal(s: Seq<char>) -> Option<(int, int)> {
    let u = unsigned_number(s);
    let (whole, fraction) = match parted(u, '.') {
        Some((whole, fraction)) => (whole, fraction),
        None => (u, Seq::empty()),
    };
    if all_digits(whole) && all_digits(fraction) && whole.len() + fraction.len() > 0 {
        let n = digits_value(whole + fraction) as int;
        Some(
            (
                if s[0] == '-' {
                    -n
                } else {
                    n
                },
                tens(fraction.len()) as int,
            ),
        )
    } else {
        None
    }
}

/// What a quantity comes to, as one number divided by another that is more than nothing. A
/// number that arrived as floating point, one written with an exponent and one that is divided
/// by nothing are none of these.
pub open spec fn comes_to(a: AmountView) -> Option<(int, int)> {
    match a {
        AmountView::Count(n) => Some((n, 1)),
        AmountView::Share { part, whole } => if whole > 0 {
            Some((part * 100, whole))
        } else {
            None
        },
        AmountView::Ratio { of, by } => if by > 0 {
            Some((of, by))
        } else {
            None
        },
        AmountView::Signed(n) => Some((n, 1)),
        AmountView::Rate { count, over } => if over > 0 {
            Some((count * 1_000_000_000, over))
        } else {
            None
        },
        AmountView::Written(s) => plain_decimal(s),
        AmountView::WrittenShare { written, among } => match plain_decimal(written) {
            Some((n, d)) => if among > 0 {
                Some((n * 100, d * among))
            } else {
                None
            },
            None => None,
        },
        AmountView::Float(_) => None,
    }
}

/// Whether two quantities are the same, however they were worked out.
pub open spec fn same_amount(a: AmountView, b: AmountView) -> bool {
    a == b || (comes_to(a) matches Some((n, d)) && (comes_to(b) matches Some((m, e)) && n * e == m
        * d))
}

/// One number divided by another.
struct Quotient {
    negative: bool,
    of: Natural,
    by: Natural,
}

impl Quotient {
    spec fn above(self) -> int {
        if self.negative {
            -(self.of@ as int)
        } else {
            self.of@ as int
        }
    }

    fn same(&self, other: &Quotient) -> (r: bool)
        requires
            self.by@ > 0,
            other.by@ > 0,
        ensures
            r == (self.above() * other.by@ == other.above() * self.by@),
    {
        let r = self.of.times(&other.by).same(&other.of.times(&self.by)) && (self.negative
            == other.negative || self.of.is_zero());
        proof {
            let a = self.of@ as int;
            let b = self.by@ as int;
            let c = other.of@ as int;
            let d = other.by@ as int;
            assert((-a) * d == -(a * d)) by (nonlinear_arith);
            assert((-c) * b == -(c * b)) by (nonlinear_arith);
            assert(a * d >= 0 && c * b >= 0 && (a * d == 0 <==> a == 0) && (c * b == 0 <==> c
                == 0)) by (nonlinear_arith)
                requires
                    a >= 0,
                    b > 0,
                    c >= 0,
                    d > 0,
            ;
        }
        r
    }
}

fn read_plain(s: &str) -> (r: Option<Quotient>)
    ensures
        match r {
            Some(q) => q.by@ > 0 && plain_decimal(s@) == Some((q.above(), q.by@ as int)),
            None => plain_decimal(s@) is None,
        },
{
    let v = chars_of(s);
    let signed = v.len() > 0 && (v[0] == '+' || v[0] == '-');
    let u = if signed {
        piece(v.as_slice(), 1, v.len())
    } else {
        owned(s)
    };
    proof {
        if signed {
            assert(u@ =~= s@.drop_first());
        }
        assert(u@ == unsigned_number(s@));
    }
    let (whole, fraction) = match split_once(u.as_str(), '.') {
        Some(parts) => parts,
        None => (u, String::new()),
    };
    let mut digits = chars_of(whole.as_str());
    let after = chars_of(fraction.as_str());
    if !digits_only(&digits) || !digits_only(&after) {
        return None;
    }
    if digits.len() == 0 && after.len() == 0 {
        return None;
    }
    let ghost before = digits@;
    for i in 0..after.len()
        invariant
            digits@ == before + after@.take(i as int),
    {
        digits.push(after[i]);
        assert(before + after@.take(i + 1) =~= (before + after@.take(i as int)).push(
            after@[i as int],
        ));
    }
    assert(digits@ =~= whole@ + fraction@);
    assert(all_digits(digits@)) by {
        assert forall|i: int| 0 <= i < digits@.len() implies is_digit(#[trigger] digits@[i]) by {
            if i < before.len() {
                assert(is_digit(before[i]));
            } else {
                assert(is_digit(after@[i - before.len()]));
            }
        }
    }
    Some(
        Quotient {
            negative: v.len() > 0 && v[0] == '-',
            of: Natural::written(&digits),
            by: Natural::power_of_ten(after.len()),
        },
    )
}

fn digits_only(v: &Vec<char>) -> (r: bool)
    ensures
        r == all_digits(v@),
{
    for i in 0..v.len()
        invariant
            forall|j: int| 0 <= j < i ==> is_digit(#[trigger] v@[j]),
    {
        if !digit(v[i]) {
            return false;
        }
    }
    true
}

impl Amount {
    /// One count as a percentage of another.
    pub fn share(part: u128, whole: u128) -> (a: Amount)
        ensures
            a@ == (AmountView::Share { part: part as int, whole: whole as int }),
    {
        Amount::Share { part: Natural::of(part), whole: Natural::of(whole) }
    }

    fn quotient(&self) -> (r: Option<Quotient>)
        ensures
            match r {
                Some(q) => q.by@ > 0 && comes_to(self@) == Some((q.above(), q.by@ as int)),
                None => comes_to(self@) is None,
            },
    {
        match self {
            Amount::Count(n) => Some(
                Quotient { negative: false, of: Natural::of(*n), by: Natural::of(1) },
            ),
            Amount::Share { part, whole } => if whole.is_zero() {
                None
            } else {
                Some(
                    Quotient {
                        negative: false,
                        of: part.times(&Natural::of(100)),
                        by: whole.copy(),
                    },
                )
            },
            Amount::Ratio { of, by } => if by.is_zero() {
                None
            } else {
                Some(Quotient { negative: of.is_negative(), of: of.far(), by: by.copy() })
            },
            Amount::Signed(n) => {
                let far: i128 = if *n < 0 {
                    -(*n as i128)
                } else {
                    *n as i128
                };
                Some(
                    Quotient {
                        negative: *n < 0,
                        of: Natural::of(far as u128),
                        by: Natural::of(1),
                    },
                )
            },
            Amount::Rate { count, over } => if over.nanos == 0 {
                None
            } else {
                Some(
                    Quotient {
                        negative: false,
                        of: Natural::of(*count as u128).times(&Natural::of(1_000_000_000)),
                        by: Natural::of(over.nanos),
                    },
                )
            },
            Amount::Written(s) => read_plain(s.as_str()),
            Amount::WrittenShare { written, among } => match read_plain(written.as_str()) {
                None => None,
                Some(q) => {
                    if *among == 0 {
                        return None;
                    }
                    let by = q.by.times(&Natural::of(*among as u128));
                    proof {
                        let n = q.of@ as int;
                        assert((-n) * 100 == -(n * 100)) by (nonlinear_arith);
                        let d = q.by@;
                        let a = *among as nat;
                        assert(d * a > 0) by (nonlinear_arith)
                            requires
                                d > 0,
                                a > 0,
                        ;
                    }
                    Some(
                        Quotient {
                            negative: q.negative,
                            of: q.of.times(&Natural::of(100)),
                            by,
                        },
                    )
                },
            },
            Amount::Float(_) => None,
        }
    }

    /// Whether two quantities were worked out from the same things.
    fn alike(&self, other: &Amount) -> (r: bool)
        ensures
            r == (self@ == other@),
    {
        match (self, other) {
            (Amount::Count(a), Amount::Count(b)) => *a == *b,
            (Amount::Share { part: a, whole: b }, Amount::Share { part: c, whole: d }) => a.same(c)
                && b.same(d),
            (Amount::Ratio { of: a, by: b }, Amount::Ratio { of: c, by: d }) => a.same(c)
                && b.same(d),
            (Amount::Signed(a), Amount::Signed(b)) => *a == *b,
            (Amount::Rate { count: a, over: b }, Amount::Rate { count: c, over: d }) => *a == *c
                && b.nanos == d.nanos,
            (Amount::Written(a), Amount::Written(b)) => same(a.as_str(), b.as_str()),
            (
                Amount::WrittenShare { written: a, among: b },
                Amount::WrittenShare { written: c, among: d },
            ) => same(a.as_str(), c.as_str()) && *b == *d,
            (Amount::Float(a), Amount::Float(b)) => *a == *b,
            _ => false,
        }
    }

    /// Whether two quantities are the same, however they were worked out.
    pub fn same(&self, other: &Amount) -> (r: bool)
        ensures
            r == same_amount(self@, other@),
    {
        if self.alike(other) {
            return true;
        }
        match (self.quotient(), other.quotient()) {
            (Some(a), Some(b)) => a.same(&b),
            _ => false,
        }
    }
}

/// One published value.
#[derive(Debug)]
pub enum Value {
    Num { v: Amount, unit: Unit },
    Text(String),
    Flag(bool),
    /// A point in time, in nanoseconds since the epoch.
    Time(u128),
    Dur(Duration),
    /// A field the source knows about but cannot supply.
    Absent,
}

/// What a `Value` says.
pub enum ValueView {
    Num { v: AmountView, unit: Unit },
    Text(Seq<char>),
    Flag(bool),
    Time(int),
    Dur(int),
    Absent,
}

impl View for Value {
    type V = ValueView;

    open spec fn view(&self) -> ValueView {
        match self {
            Value::Num { v, unit } => ValueView::Num { v: v@, unit: *unit },
            Value::Text(s) => ValueView::Text(s@),
            Value::Flag(b) => ValueView::Flag(*b),
            Value::Time(n) => ValueView::Time(*n as int),
            Value::Dur(d) => ValueView::Dur(d.nanos as int),
            Value::Absent => ValueView::Absent,
        }
    }
}

/// Whether a value reads as this word: text as itself, ignoring case, and a flag as either
/// of the words it is drawn with.
pub open spec fn value_reads_as(v: ValueView, word: Seq<char>) -> bool {
    match v {
        ValueView::Text(s) => same_ignoring_case(s, word),
        ValueView::Flag(true) => same_ignoring_case(word, "yes"@) || same_ignoring_case(
            word,
            "true"@,
        ),
        ValueView::Flag(false) => same_ignoring_case(word, "no"@) || same_ignoring_case(
            word,
            "false"@,
        ),
        _ => false,
    }
}

/// Whether two values would be drawn the same.
pub open spec fn same_value(a: ValueView, b: ValueView) -> bool {
    match (a, b) {
        (ValueView::Num { v, unit }, ValueView::Num { v: w, unit: counted }) => unit == counted
            && same_amount(v, w),
        _ => a == b,
    }
}

impl Value {
    /// A value that is there, or one that is not.
    pub fn text_or_absent(s: Option<String>) -> (v: Value)
        ensures
            v@ == match s {
                Some(t) => ValueView::Text(t@),
                None => ValueView::Absent,
            },
    {
        match s {
            Some(t) => Value::Text(t),
            None => Value::Absent,
        }
    }

    pub fn same(&self, other: &Value) -> (r: bool)
        ensures
            r == same_value(self@, other@),
    {
        match (self, other) {
            (Value::Num { v: a, unit: b }, Value::Num { v: c, unit: d }) => a.same(c) && *b == *d,
            (Value::Text(a), Value::Text(b)) => same(a.as_str(), b.as_str()),
            (Value::Flag(a), Value::Flag(b)) => *a == *b,
            (Value::Time(a), Value::Time(b)) => *a == *b,
            (Value::Dur(a), Value::Dur(b)) => a.nanos == b.nanos,
            (Value::Absent, Value::Absent) => true,
            _ => false,
        }
    }

    /// Whether this reads as a word, ignoring case.
    pub fn reads_as(&self, word: &str) -> (r: bool)
        ensures
            r == value_reads_as(self@, word@),
    {
        match self {
            Value::Text(s) => eq_ignore_ascii_case(s.as_str(), word),
            Value::Flag(b) => if *b {
                eq_ignore_ascii_case(word, "yes") || eq_ignore_ascii_case(word, "true")
            } else {
                eq_ignore_ascii_case(word, "no") || eq_ignore_ascii_case(word, "false")
            },
            _ => false,
        }
    }

    /// The number this value is, if it is one.
    pub fn num(&self) -> (r: Option<&Amount>)
        ensures
            match r {
                Some(a) => self@ matches ValueView::Num { v, .. } && v == a@,
                None => !(self@ is Num),
            },
    {
        match self {
            Value::Num { v, .. } => Some(v),
            _ => None,
        }
    }
}

/// Named values, and which of them the source is mainly about.
#[derive(Debug)]
pub struct Fields {
    pub entries: Vec<(String, Value)>,
    pub primary: Option<String>,
}

/// What `Fields` say.
pub struct FieldsView {
    pub values: Map<Seq<char>, ValueView>,
    pub primary: Option<Seq<char>>,
}

/// Where a name first stands, or past the end when it does not.
pub open spec fn place(entries: Seq<(String, Value)>, name: Seq<char>) -> int
    decreases entries.len(),
{
    if entries.len() == 0 || entries[0].0@ == name {
        0
    } else {
        1 + place(entries.drop_first(), name)
    }
}

impl View for Fields {
    type V = FieldsView;

    open spec fn view(&self) -> FieldsView {
        FieldsView {
            values: Map::new(
                |name: Seq<char>| place(self.entries@, name) < self.entries@.len(),
                |name: Seq<char>| self.entries@[place(self.entries@, name)].1@,
            ),
            primary: match self.primary {
                Some(name) => Some(name@),
                None => None,
            },
        }
    }
}

/// What fields say under a name.
pub open spec fn said(f: FieldsView, name: Seq<char>) -> Option<ValueView> {
    if f.values.dom().contains(name) {
        Some(f.values[name])
    } else {
        None
    }
}

/// What fields say about what the source is mainly about.
pub open spec fn main_said(f: FieldsView) -> Option<ValueView> {
    match f.primary {
        Some(name) => said(f, name),
        None => None,
    }
}

/// Whether the same is said twice, or nothing both times.
pub open spec fn same_said(a: Option<ValueView>, b: Option<ValueView>) -> bool {
    match (a, b) {
        (Some(v), Some(w)) => same_value(v, w),
        (None, None) => true,
        _ => false,
    }
}

/// Whether two sets of fields would be drawn the same: they are mainly about the same field, and
/// say the same under every name.
pub open spec fn same_fields(a: FieldsView, b: FieldsView) -> bool {
    a.primary == b.primary && forall|name: Seq<char>|
        same_said(said(a, name), #[trigger] said(b, name))
}

/// Fields that say nothing.
pub open spec fn no_fields() -> FieldsView {
    FieldsView { values: Map::empty(), primary: None }
}

/// The same fields with one of them set.
pub open spec fn with(f: FieldsView, name: Seq<char>, v: ValueView) -> FieldsView {
    FieldsView { values: f.values.insert(name, v), ..f }
}

/// The same fields, mainly about this one.
pub open spec fn about(f: FieldsView, name: Seq<char>) -> FieldsView {
    FieldsView { primary: Some(name), ..f }
}

proof fn lemma_place(entries: Seq<(String, Value)>, name: Seq<char>)
    ensures
        0 <= place(entries, name) <= entries.len(),
        place(entries, name) < entries.len() ==> entries[place(entries, name)].0@ == name,
        forall|i: int| 0 <= i < place(entries, name) ==> entries[i].0@ != name,
    decreases entries.len(),
{
    if entries.len() == 0 || entries[0].0@ == name {
    } else {
        lemma_place(entries.drop_first(), name);
        assert forall|i: int| 0 <= i < place(entries, name) implies entries[i].0@ != name by {
            if i > 0 {
                assert(entries.drop_first()[i - 1] == entries[i]);
            }
        }
    }
}

proof fn lemma_place_is(entries: Seq<(String, Value)>, name: Seq<char>, at: int)
    requires
        0 <= at <= entries.len(),
        forall|i: int| 0 <= i < at ==> entries[i].0@ != name,
        at == entries.len() || entries[at].0@ == name,
    ensures
        place(entries, name) == at,
{
    lemma_place(entries, name);
    let p = place(entries, name);
    if p < at {
        assert(entries[p].0@ == name);
    }
}

impl Fields {
    pub fn new() -> (f: Fields)
        ensures
            f@ == no_fields(),
    {
        let f = Fields { entries: Vec::new(), primary: None };
        assert(f@.values =~= Map::<Seq<char>, ValueView>::empty());
        f
    }

    fn find(&self, name: &str) -> (at: usize)
        ensures
            at == place(self.entries@, name@),
            at <= self.entries@.len(),
    {
        let mut at: usize = 0;
        while at < self.entries.len() && !same(self.entries[at].0.as_str(), name)
            invariant
                at <= self.entries@.len(),
                forall|i: int| 0 <= i < at ==> self.entries@[i].0@ != name@,
            decreases self.entries@.len() - at,
        {
            at = at + 1;
        }
        proof {
            lemma_place_is(self.entries@, name@, at as int);
        }
        at
    }

    pub fn get(&self, name: &str) -> (r: Option<&Value>)
        ensures
            match r {
                Some(v) => said(self@, name@) == Some(v@),
                None => said(self@, name@) is None,
            },
    {
        let at = self.find(name);
        if at < self.entries.len() {
            Some(&self.entries[at].1)
        } else {
            None
        }
    }

    pub fn set(&mut self, name: &str, value: Value)
        ensures
            final(self)@ == with(old(self)@, name@, value@),
    {
        let ghost before = self.entries@;
        let ghost shown = value@;
        let at = self.find(name);
        if at < self.entries.len() {
            self.entries.set(at, (owned(name), value));
        } else {
            self.entries.push((owned(name), value));
        }
        proof {
            let after = self.entries@;
            lemma_place(before, name@);
            lemma_place_is(after, name@, at as int);
            assert forall|other: Seq<char>| other != name@ implies {
                &&& (place(after, other) < after.len()) == (place(before, other) < before.len())
                &&& place(before, other) < before.len() ==> after[place(after, other)].1@
                    == before[place(before, other)].1@
            } by {
                lemma_place(before, other);
                let p = place(before, other);
                if p < before.len() {
                    assert(p != at);
                    lemma_place_is(after, other, p);
                } else {
                    assert forall|i: int| 0 <= i < after.len() implies after[i].0@ != other by {
                        if i < before.len() && i != at {
                            assert(after[i] == before[i]);
                        }
                    }
                    lemma_place_is(after, other, after.len() as int);
                }
            }
            assert(self@.values =~= with(old(self)@, name@, shown).values);
        }
    }

    /// What the source is mainly about.
    pub fn set_primary(&mut self, name: &str)
        ensures
            final(self)@ == about(old(self)@, name@),
    {
        self.primary = Some(owned(name));
    }

    pub fn primary(&self) -> (r: Option<&Value>)
        ensures
            match r {
                Some(v) => main_said(self@) == Some(v@),
                None => main_said(self@) is None,
            },
    {
        match &self.primary {
            Some(name) => self.get(name.as_str()),
            None => None,
        }
    }

    /// Whether every value here is the same there.
    fn within(&self, other: &Fields) -> (r: bool)
        ensures
            r == (forall|name: Seq<char>|
                said(self@, name) is Some ==> same_said(
                    said(self@, name),
                    #[trigger] said(other@, name),
                )),
    {
        proof {
            assert forall|name: Seq<char>| place(self.entries@, name) < 0 implies same_said(
                said(self@, name),
                #[trigger] said(other@, name),
            ) by {
                lemma_place(self.entries@, name);
            }
        }
        for i in 0..self.entries.len()
            invariant
                forall|name: Seq<char>|
                    place(self.entries@, name) < i ==> same_said(
                        said(self@, name),
                        #[trigger] said(other@, name),
                    ),
        {
            let ghost name = self.entries@[i as int].0@;
            let here = self.find(self.entries[i].0.as_str());
            if here == i {
                let ok = match other.get(self.entries[i].0.as_str()) {
                    Some(v) => self.entries[i].1.same(v),
                    None => false,
                };
                if !ok {
                    assert(said(self@, name) == Some(self.entries@[i as int].1@));
                    assert(!same_said(said(self@, name), said(other@, name)));
                    return false;
                }
            }
            assert forall|n: Seq<char>| place(self.entries@, n) < i + 1 implies same_said(
                said(self@, n),
                #[trigger] said(other@, n),
            ) by {
                lemma_place(self.entries@, n);
            }
        }
        proof {
            assert forall|n: Seq<char>| said(self@, n) is Some implies same_said(
                said(self@, n),
                #[trigger] said(other@, n),
            ) by {
                lemma_place(self.entries@, n);
            }
        }
        true
    }

    /// Whether everything that is said there is said here.
    fn covers(&self, other: &Fields) -> (r: bool)
        ensures
            r == (forall|name: Seq<char>|
                (#[trigger] said(other@, name)) is Some ==> said(self@, name) is Some),
    {
        for i in 0..other.entries.len()
            invariant
                forall|j: int|
                    0 <= j < i ==> said(self@, (#[trigger] other.entries@[j]).0@) is Some,
        {
            if self.get(other.entries[i].0.as_str()).is_none() {
                proof {
                    let name = other.entries@[i as int].0@;
                    lemma_place(other.entries@, name);
                    assert(said(other@, name) is Some);
                }
                return false;
            }
        }
        proof {
            assert forall|name: Seq<char>| (#[trigger] said(other@, name)) is Some implies said(
                self@,
                name,
            ) is Some by {
                lemma_place(other.entries@, name);
                assert(other.entries@[place(other.entries@, name)].0@ == name);
            }
        }
        true
    }

    /// Whether two sets of fields say the same thing.
    pub fn same(&self, other: &Fields) -> (r: bool)
        ensures
            r == same_fields(self@, other@),
    {
        let alike = match (&self.primary, &other.primary) {
            (Some(a), Some(b)) => same(a.as_str(), b.as_str()),
            (None, None) => true,
            _ => false,
        };
        if !alike {
            return false;
        }
        let r = self.within(other) && self.covers(other);
        proof {
            if r {
                assert forall|n: Seq<char>| same_said(said(self@, n), #[trigger] said(other@, n)) by {
                    if said(self@, n) is None {
                        assert(said(other@, n) is None);
                    }
                }
            }
        }
        r
    }
}

/// What a collector produces for one tick.
#[derive(Debug)]
pub struct Reading {
    pub fields: Fields,
    pub state: State,
}

/// What a `Reading` says.
pub struct ReadingView {
    pub fields: FieldsView,
    pub state: State,
}

impl View for Reading {
    type V = ReadingView;

    open spec fn view(&self) -> ReadingView {
        ReadingView { fields: self.fields@, state: self.state }
    }
}

/// Whether two readings would be drawn the same.
pub open spec fn same_reading(a: ReadingView, b: ReadingView) -> bool {
    a.state == b.state && same_fields(a.fields, b.fields)
}

/// Whether two runs of readings would be drawn the same, page by page.
pub open spec fn same_pages(a: Seq<ReadingView>, b: Seq<ReadingView>) -> bool {
    a.len() == b.len() && forall|i: int|
        0 <= i < a.len() ==> same_reading(#[trigger] a[i], b[i])
}

/// A reading with nothing in it.
pub open spec fn blank_reading() -> ReadingView {
    ReadingView { fields: no_fields(), state: State::Idle }
}

/// What a run of readings says.
pub open spec fn readings_view(readings: Seq<Reading>) -> Seq<ReadingView> {
    Seq::new(readings.len(), |i: int| readings[i]@)
}

impl Reading {
    /// A reading with nothing in it.
    pub fn blank() -> (r: Reading)
        ensures
            r@ == blank_reading(),
    {
        Reading { fields: Fields::new(), state: State::Idle }
    }

    /// Whether this reading would draw the same as another.
    pub fn same(&self, other: &Reading) -> (r: bool)
        ensures
            r == same_reading(self@, other@),
    {
        self.state == other.state && self.fields.same(&other.fields)
    }
}

/// Being the same is what it says: everything is the same as itself, whichever of the two comes
/// first, and what is the same as one thing is the same as whatever that is the same as.
pub proof fn law_being_the_same_is_an_equivalence(a: AmountView, b: AmountView, c: AmountView)
    ensures
        same_amount(a, a),
        same_amount(a, b) == same_amount(b, a),
        same_amount(a, b) && same_amount(b, c) ==> same_amount(a, c),
{
    if a != b && b != c && same_amount(a, b) && same_amount(b, c) {
        let (n, d) = comes_to(a)->0;
        let (m, e) = comes_to(b)->0;
        let (o, f) = comes_to(c)->0;
        lemma_comes_to(b);
        assert(n * f == o * d) by (nonlinear_arith)
            requires
                n * e == m * d,
                m * f == o * e,
                e > 0,
        {
            assert((n * f - o * d) * e == (n * e) * f - (o * e) * d) by (nonlinear_arith);
            assert((m * d) * f - (m * f) * d == 0) by (nonlinear_arith);
            let gap = n * f - o * d;
            assert(gap == 0) by (nonlinear_arith)
                requires
                    gap * e == 0,
                    e > 0,
            ;
        }
    }
}

proof fn lemma_tens(n: nat)
    ensures
        tens(n) > 0,
    decreases n,
{
    if n > 0 {
        lemma_tens((n - 1) as nat);
    }
}

proof fn lemma_comes_to(a: AmountView)
    ensures
        comes_to(a) matches Some((_, d)) ==> d > 0,
{
    match a {
        AmountView::Written(s) => {
            lemma_tens_of(s);
        },
        AmountView::WrittenShare { written, among } => {
            lemma_tens_of(written);
            if let Some((_, d)) = plain_decimal(written) {
                if among > 0 {
                    assert(d * among > 0) by (nonlinear_arith)
                        requires
                            d > 0,
                            among > 0,
                    ;
                }
            }
        },
        _ => {},
    }
}

proof fn lemma_tens_of(s: Seq<char>)
    ensures
        plain_decimal(s) matches Some((_, d)) ==> d > 0,
{
    match parted(unsigned_number(s), '.') {
        Some((_, fraction)) => {
            lemma_tens(fraction.len());
        },
        None => {
            lemma_tens(0);
        },
    }
}

/// Nothing is nothing, however long it took: a link that carries nothing is at the same rate
/// whatever time passed between two samples of it.
pub proof fn law_nothing_at_all_is_the_same_rate(over: int, again: int)
    requires
        over > 0,
        again > 0,
    ensures
        same_amount(
            AmountView::Rate { count: 0, over },
            AmountView::Rate { count: 0, over: again },
        ),
{
    assert(0 * 1_000_000_000 * again == 0 * 1_000_000_000 * over) by (nonlinear_arith);
}

/// Every reading would be drawn the same as itself.
pub proof fn lemma_same_pages(a: Seq<ReadingView>)
    ensures
        same_pages(a, a),
{
}

} // verus!
