//! The wall clock.

use crate::status::{no_fields, specs_view, with, FieldSpec, FieldView, Fields, Kind, Reading};
use crate::status::{ReadingView, State, Value, ValueView};
use vstd::prelude::*;

verus! {

/// What this source publishes.
pub open spec fn published() -> Seq<FieldView> {
    seq![
        FieldView { name: "now"@, kind: Kind::Time },
    ]
}

/// What this source publishes.
pub fn fields() -> (r: Vec<FieldSpec>)
    ensures
        specs_view(r@) == published(),
{
    let r = vec![
        FieldSpec::new("now", Kind::Time),
    ];
    assert(specs_view(r@) =~= published());
    r
}

/// The wall clock. There is nothing to read and nothing that can fail: the value is the instant
/// the tick happened.
#[derive(Debug)]
pub struct Time {}

impl Time {
    /// The reading of a tick at this many nanoseconds since the epoch.
    pub fn read(&self, now: u128) -> (r: Reading)
        ensures
            r@ == (ReadingView {
                fields: with(no_fields(), "now"@, ValueView::Time(now as int)),
                state: State::Idle,
            }),
    {
        let mut fields = Fields::new();
        fields.set("now", Value::Time(now));
        Reading { fields, state: State::Idle }
    }
}

} // verus!
