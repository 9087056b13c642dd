//! A value read off the bus.

use crate::text::same;
use vstd::prelude::*;

verus! {

/// A value read off the bus.
///
/// The numeric kinds are collapsed where nothing tells them apart: what matters at the far
/// end is whether it is a number, a string, or something with parts. A floating-point number
/// is carried by its IEEE 754 bits.
#[derive(Debug, PartialEq)]
pub enum Value {
    Bool(bool),
    Int(i64),
    Float(u64),
    Str(String),
    /// A byte array, kept as bytes.
    Bytes(Vec<u8>),
    /// An array, or a struct: both are a run of values.
    List(Vec<Value>),
    /// `a{sv}` and friends, which is how every property bundle arrives.
    Dict(Vec<(Value, Value)>),
}

/// What a `Value` says, with its containers as sequences.
pub enum ValueView {
    Bool(bool),
    Int(int),
    Float(u64),
    Str(Seq<char>),
    Bytes(Seq<u8>),
    List(Seq<ValueView>),
    Dict(Seq<(ValueView, ValueView)>),
}

impl View for Value {
    type V = ValueView;

    open spec fn view(&self) -> ValueView
        decreases self,
    {
        match self {
            Value::Bool(b) => ValueView::Bool(*b),
            Value::Int(i) => ValueView::Int(*i as int),
            Value::Float(f) => ValueView::Float(*f),
            Value::Str(s) => ValueView::Str(s@),
            Value::Bytes(b) => ValueView::Bytes(b@),
            Value::List(v) => ValueView::List(
                Seq::new(
                    v@.len(),
                    |i: int|
                        if 0 <= i < v@.len() {
                            v@[i].view()
                        } else {
                            ValueView::Bool(false)
                        },
                ),
            ),
            Value::Dict(v) => ValueView::Dict(
                Seq::new(
                    v@.len(),
                    |i: int|
                        if 0 <= i < v@.len() {
                            (v@[i].0.view(), v@[i].1.view())
                        } else {
                            (ValueView::Bool(false), ValueView::Bool(false))
                        },
                ),
            ),
        }
    }
}

/// The views of a run of values.
pub open spec fn values_view(v: Seq<Value>) -> Seq<ValueView> {
    Seq::new(v.len(), |i: int| v[i]@)
}

/// The views of a run of dictionary entries.
pub open spec fn entries_view(v: Seq<(Value, Value)>) -> Seq<(ValueView, ValueView)> {
    Seq::new(v.len(), |i: int| (v[i].0@, v[i].1@))
}

pub proof fn lemma_list_view(v: Vec<Value>)
    ensures
        Value::List(v)@ == ValueView::List(values_view(v@)),
{
    reveal_with_fuel(<Value as View>::view, 2);
    assert(Value::List(v)@->List_0 =~= values_view(v@));
}

pub proof fn lemma_dict_view(v: Vec<(Value, Value)>)
    ensures
        Value::Dict(v)@ == ValueView::Dict(entries_view(v@)),
{
    reveal_with_fuel(<Value as View>::view, 2);
    assert(Value::Dict(v)@->Dict_0 =~= entries_view(v@));
}

/// The value stored under a string key in the entries from `from` on.
pub open spec fn entry_under(
    entries: Seq<(ValueView, ValueView)>,
    key: Seq<char>,
    from: int,
) -> Option<ValueView>
    decreases entries.len() - from,
{
    if from < 0 || from >= entries.len() {
        None
    } else if entries[from].0 == ValueView::Str(key) {
        Some(entries[from].1)
    } else {
        entry_under(entries, key, from + 1)
    }
}

/// The first string in a value, whether it is one or a list of them.
pub open spec fn first_text(v: ValueView) -> Option<Seq<char>>
    decreases v, 0int,
{
    match v {
        ValueView::Str(s) => Some(s),
        ValueView::List(vs) => first_text_among(vs, vs.len() as int),
        _ => None,
    }
}

/// The first string among the last `n` values of a run.
pub open spec fn first_text_among(vs: Seq<ValueView>, n: int) -> Option<Seq<char>>
    decreases vs, n,
{
    if n <= 0 || n > vs.len() {
        None
    } else {
        match first_text(vs[vs.len() - n]) {
            Some(s) => Some(s),
            None => first_text_among(vs, n - 1),
        }
    }
}

impl Value {
    pub fn as_str(&self) -> (r: Option<&str>)
        ensures
            match r {
                Some(s) => self@ == ValueView::Str(s@),
                None => !(self@ is Str),
            },
    {
        match self {
            Value::Str(s) => Some(s.as_str()),
            _ => None,
        }
    }

    pub fn as_int(&self) -> (r: Option<i64>)
        ensures
            match r {
                Some(n) => self@ == ValueView::Int(n as int),
                None => !(self@ is Int),
            },
    {
        match self {
            Value::Int(v) => Some(*v),
            _ => None,
        }
    }

    pub fn as_bytes(&self) -> (r: Option<&[u8]>)
        ensures
            match r {
                Some(b) => self@ == ValueView::Bytes(b@),
                None => !(self@ is Bytes),
            },
    {
        match self {
            Value::Bytes(b) => Some(b.as_slice()),
            _ => None,
        }
    }

    /// The values in an array or a struct, so a caller can walk one without matching.
    pub fn items(&self) -> (r: &[Value])
        ensures
            match self@ {
                ValueView::List(vs) => values_view(r@) == vs,
                _ => r@.len() == 0,
            },
    {
        match self {
            Value::List(values) => {
                proof {
                    lemma_list_view(*values);
                }
                values.as_slice()
            },
            _ => &[],
        }
    }

    /// The value stored under a string key, for the dictionaries D-Bus answers with.
    pub fn get(&self, key: &str) -> (r: Option<&Value>)
        ensures
            match (self@, r) {
                (ValueView::Dict(es), Some(v)) => entry_under(es, key@, 0) == Some(v@),
                (ValueView::Dict(es), None) => entry_under(es, key@, 0) is None,
                (_, found) => found is None,
            },
    {
        match self {
            Value::Dict(entries) => {
                proof {
                    lemma_dict_view(*entries);
                }
                let ghost es = entries_view(entries@);
                for i in 0..entries.len()
                    invariant
                        self@ == ValueView::Dict(es),
                        es == entries_view(entries@),
                        entry_under(es, key@, 0) == entry_under(es, key@, i as int),
                {
                    assert(es[i as int] == (entries@[i as int].0@, entries@[i as int].1@));
                    if let Value::Str(s) = &entries[i].0 {
                        if same(s.as_str(), key) {
                            return Some(&entries[i].1);
                        }
                    }
                }
                None
            },
            _ => None,
        }
    }

    /// The first string in this value, whether it is one or a list of them.
    ///
    /// An MPRIS artist is a list because a track can have several, and a bar has room for
    /// one; a title is a plain string. Both are asked the same question.
    pub fn first_str(&self) -> (r: Option<&str>)
        ensures
            match r {
                Some(s) => first_text(self@) == Some(s@),
                None => first_text(self@) is None,
            },
        decreases self,
    {
        match self {
            Value::Str(s) => Some(s.as_str()),
            Value::List(values) => {
                proof {
                    lemma_list_view(*values);
                }
                let ghost vs = values_view(values@);
                for i in 0..values.len()
                    invariant
                        self matches Value::List(v) && v == values,
                        self@ == ValueView::List(vs),
                        vs == values_view(values@),
                        first_text_among(vs, vs.len() as int) == first_text_among(
                            vs,
                            vs.len() - i,
                        ),
                {
                    assert(vs[i as int] == values@[i as int]@);
                    match values[i].first_str() {
                        Some(s) => {
                            return Some(s);
                        },
                        None => {},
                    }
                }
                None
            },
            _ => None,
        }
    }
}

} // verus!
