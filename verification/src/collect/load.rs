//! Load averages, from `/proc/loadavg`.

use crate::collect::unread::{because, read, Cause, Unread, UnreadView};
use crate::status::{about, no_fields, specs_view, with, Amount, AmountView, FieldSpec, FieldView};
use crate::status::{Fields, Kind, Reading, ReadingView, State, Unit, Value, ValueView};
use crate::text::{is_float, split_whitespace, texts, words_of, writes_float};
use vstd::prelude::*;

verus! {

/// What this source publishes.
pub open spec fn published() -> Seq<FieldView> {
    seq![
        FieldView { name: "one"@, kind: Kind::Num(Unit::Plain) },
        FieldView { name: "five"@, kind: Kind::Num(Unit::Plain) },
        FieldView { name: "fifteen"@, kind: Kind::Num(Unit::Plain) },
        FieldView { name: "percent"@, kind: Kind::Num(Unit::Percent) },
    ]
}

/// What this source publishes.
pub fn fields() -> (r: Vec<FieldSpec>)
    ensures
        specs_view(r@) == published(),
{
    let r = vec![
        FieldSpec::new("one", Kind::Num(Unit::Plain)),
        FieldSpec::new("five", Kind::Num(Unit::Plain)),
        FieldSpec::new("fifteen", Kind::Num(Unit::Plain)),
        FieldSpec::new("percent", Kind::Num(Unit::Percent)),
    ];
    assert(specs_view(r@) =~= published());
    r
}

/// The three averages, as the kernel writes them.
#[derive(Debug)]
pub struct Averages {
    pub one: String,
    pub five: String,
    pub fifteen: String,
}

/// What `Averages` say.
#[verifier::ext_equal]
pub struct AveragesView {
    pub one: Seq<char>,
    pub five: Seq<char>,
    pub fifteen: Seq<char>,
}

impl View for Averages {
    type V = AveragesView;

    open spec fn view(&self) -> AveragesView {
        AveragesView { one: self.one@, five: self.five@, fifteen: self.fifteen@ }
    }
}

/// What is wrong with one of the averages.
pub open spec fn average_trouble(words: Seq<Seq<char>>, i: int) -> Option<UnreadView> {
    if words.len() <= i {
        Some(because(Cause::NoField(i as u64), Seq::empty()))
    } else if !is_float(words[i]) {
        Some(because(Cause::NotANumber, words[i]))
    } else {
        None
    }
}

/// The three averages. The rest of the line is the running and total process count and the last
/// pid, neither of which a bar has any use for.
pub open spec fn averages_of(text: Seq<char>) -> Result<AveragesView, UnreadView> {
    let words = words_of(text);
    match average_trouble(words, 0) {
        Some(e) => Err(e),
        None => match average_trouble(words, 1) {
            Some(e) => Err(e),
            None => match average_trouble(words, 2) {
                Some(e) => Err(e),
                None => Ok(
                    AveragesView { one: words[0], five: words[1], fifteen: words[2] },
                ),
            },
        },
    }
}

fn average(words: &Vec<String>, i: usize) -> (r: Result<String, Unread>)
    ensures
        match r {
            Ok(s) => average_trouble(texts(words@), i as int) is None && s@ == texts(
                words@,
            )[i as int],
            Err(e) => average_trouble(texts(words@), i as int) == Some(e@),
        },
{
    let ghost all = texts(words@);
    if words.len() <= i {
        return Err(Unread::plainly(Cause::NoField(i as u64)));
    }
    assert(all[i as int] == words@[i as int]@);
    if !writes_float(words[i].as_str()) {
        return Err(Unread::new(Cause::NotANumber, words[i].as_str()));
    }
    Ok(words[i].clone())
}

/// Read the three averages.
pub fn parse(text: &str) -> (r: Result<Averages, Unread>)
    ensures
        read(r) == averages_of(text@),
{
    let words = split_whitespace(text);
    let one = average(&words, 0)?;
    let five = average(&words, 1)?;
    let fifteen = average(&words, 2)?;
    Ok(Averages { one, five, fifteen })
}

/// A number as it was written.
pub open spec fn written_value(s: Seq<char>) -> ValueView {
    ValueView::Num { v: AmountView::Written(s), unit: Unit::Plain }
}

/// What is shown of the load of a machine with so many processors. The raw one-minute figure is
/// what a load module is about; the share is there for a threshold that wants to mean the same
/// thing on every machine.
pub open spec fn shown(a: AveragesView, cores: u64) -> ReadingView {
    let f = with(no_fields(), "one"@, written_value(a.one));
    let f = with(f, "five"@, written_value(a.five));
    let f = with(f, "fifteen"@, written_value(a.fifteen));
    let f = with(
        f,
        "percent"@,
        ValueView::Num {
            v: AmountView::WrittenShare { written: a.one, among: cores as int },
            unit: Unit::Percent,
        },
    );
    ReadingView { fields: about(f, "one"@), state: State::Idle }
}

/// The load of a machine.
#[derive(Debug)]
pub struct Load {}

impl Load {
    /// What a text of the kernel's says about the load, on a machine with so many processors.
    pub fn read(&self, text: &str, cores: u64) -> (r: Result<Reading, Unread>)
        requires
            cores > 0,
        ensures
            read(r) == match averages_of(text@) {
                Ok(a) => Ok(shown(a, cores)),
                Err(e) => Err(e),
            },
    {
        let a = parse(text)?;
        let share = Value::Num {
            v: Amount::WrittenShare { written: a.one.clone(), among: cores },
            unit: Unit::Percent,
        };
        let mut fields = Fields::new();
        fields.set("one", Value::Num { v: Amount::Written(a.one), unit: Unit::Plain });
        fields.set("five", Value::Num { v: Amount::Written(a.five), unit: Unit::Plain });
        fields.set("fifteen", Value::Num { v: Amount::Written(a.fifteen), unit: Unit::Plain });
        fields.set("percent", share);
        fields.set_primary("one");
        Ok(Reading { fields, state: State::Idle })
    }
}

} // verus!
