//! A module whose readings come from a program of one's own.
//!
//! Without an interval the command streams: it is started once and each line it prints is a
//! reading. With one it answers: it is run to completion and what it printed is the reading.

use crate::status::{about, blank_reading, kind_named, kind_of_field, no_fields, readings_view};
use crate::status::{specs_view, with, Amount, AmountView, FieldSpec, FieldView, Fields, FieldsView};
use crate::status::{Kind, Reading, ReadingView, State, Unit, Value, ValueView};
use crate::text::{ascii_lowercase, before_last, blank, is_blank, is_float, lines, lines_of, owned};
use crate::text::{parted, pieces, same, split, split_once, strip_last, text_from, text_of, texts};
use crate::text::{to_ascii_lowercase, trim, trimmed, writes_float};
use crate::time::{Duration, Instant};
use vstd::prelude::*;

verus! {

/// How often a command module's program is run, and what running it means.
#[derive(Clone, Copy, Debug, PartialEq, Eq, Structural)]
pub enum Run {
    /// Started once and left running: a reading for every line it prints.
    Stream,
    /// Run to completion this often, taking what it printed as the reading.
    Every(Duration),
    /// Run to completion at startup, and after that only when something asks.
    Once,
}

/// What a command publishes when its configuration declares nothing: the line it printed.
pub open spec fn plain_fields() -> Seq<FieldView> {
    seq![FieldView { name: "text"@, kind: Kind::Text }]
}

/// What a command publishes when its configuration declares nothing: the line it printed.
pub fn plain() -> (r: Vec<FieldSpec>)
    ensures
        specs_view(r@) == plain_fields(),
{
    let r = vec![FieldSpec::new("text", Kind::Text)];
    assert(specs_view(r@) =~= plain_fields());
    r
}

/// How a command rates what it is reporting.
pub open spec fn rated(word: Seq<char>) -> Option<State> {
    let w = ascii_lowercase(trimmed(word));
    if w == "good"@ || w == "ok"@ {
        Some(State::Good)
    } else if w == "warning"@ || w == "warn"@ {
        Some(State::Warning)
    } else if w == "critical"@ || w == "crit"@ {
        Some(State::Critical)
    } else if w == "error"@ {
        Some(State::Error)
    } else if w == "idle"@ || w.len() == 0 {
        Some(State::Idle)
    } else {
        None
    }
}

/// How a command rates what it is reporting.
pub fn state_of(word: &str) -> (r: Option<State>)
    ensures
        r == rated(word@),
{
    let text = to_ascii_lowercase(trim(word).as_str());
    let w = text.as_str();
    if same(w, "good") || same(w, "ok") {
        Some(State::Good)
    } else if same(w, "warning") || same(w, "warn") {
        Some(State::Warning)
    } else if same(w, "critical") || same(w, "crit") {
        Some(State::Critical)
    } else if same(w, "error") {
        Some(State::Error)
    } else if same(w, "idle") || w.is_empty() {
        Some(State::Idle)
    } else {
        None
    }
}

/// The text of a number: without the percent sign a percentage may end with, since that is how
/// a script most naturally prints one.
pub open spec fn number_text(value: Seq<char>, unit: Unit) -> Seq<char> {
    trimmed(
        if unit == Unit::Percent {
            match before_last(value, '%') {
                Some(short) => short,
                None => value,
            }
        } else {
            value
        },
    )
}

/// A value as the kind of thing the configuration said it would be.
///
/// A field declared as a number that arrives as a word is absent rather than text: the format
/// and any threshold were written against a number.
pub open spec fn value_as(value: Seq<char>, kind: Kind) -> ValueView {
    let t = trimmed(value);
    if t.len() == 0 {
        ValueView::Absent
    } else {
        match kind {
            Kind::Num(unit) => if is_float(number_text(t, unit)) {
                ValueView::Num { v: AmountView::Written(number_text(t, unit)), unit }
            } else {
                ValueView::Absent
            },
            _ => ValueView::Text(t),
        }
    }
}

/// A value as the kind of thing the configuration said it would be.
pub fn value_of(value: &str, kind: Kind) -> (v: Value)
    ensures
        v@ == value_as(value@, kind),
{
    let t = trim(value);
    if t.as_str().is_empty() {
        return Value::Absent;
    }
    match kind {
        Kind::Num(unit) => {
            let number = if unit == Unit::Percent {
                match strip_last(t.as_str(), '%') {
                    Some(short) => trim(short.as_str()),
                    None => trim(t.as_str()),
                }
            } else {
                trim(t.as_str())
            };
            if writes_float(number.as_str()) {
                Value::Num { v: Amount::Written(number), unit }
            } else {
                Value::Absent
            }
        },
        _ => Value::Text(t),
    }
}

/// What has been made of the first pairs of a line.
pub struct Pairs {
    pub fields: FieldsView,
    pub state: State,
    pub primary: Option<Seq<char>>,
}

/// What one more pair makes of it.
///
/// `state` is the one key that is read rather than drawn. Of the others only those that were
/// declared are taken: a command is somebody else's program and may print anything. The first
/// number is what an unqualified bound compares against.
pub open spec fn paired(p: Pairs, pair: Seq<char>, declared: Seq<FieldView>) -> Pairs {
    match parted(pair, '=') {
        None => p,
        Some((k, value)) => {
            let key = trimmed(k);
            if key == "state"@ {
                Pairs {
                    state: match rated(value) {
                        Some(state) => state,
                        None => State::Idle,
                    },
                    ..p
                }
            } else {
                match kind_named(declared, key, 0) {
                    None => p,
                    Some(kind) => Pairs {
                        fields: with(p.fields, key, value_as(value, kind)),
                        primary: if p.primary is None && value_as(value, kind) is Num {
                            Some(key)
                        } else {
                            p.primary
                        },
                        ..p
                    },
                }
            }
        },
    }
}

/// What the first `upto` pairs of a line come to.
pub open spec fn pairs_upto(pairs: Seq<Seq<char>>, declared: Seq<FieldView>, upto: int) -> Pairs
    decreases upto,
{
    if upto <= 0 || upto > pairs.len() {
        Pairs { fields: no_fields(), state: State::Idle, primary: None }
    } else {
        paired(pairs_upto(pairs, declared, upto - 1), pairs[upto - 1], declared)
    }
}

/// One line of output, as a reading.
///
/// A line with no `=` in it is the whole of what the command had to say. Otherwise the line is
/// tab-separated `key=value` pairs, because a tab is the one character a value is unlikely to
/// contain and every language can print one.
pub open spec fn line_reading(line: Seq<char>, declared: Seq<FieldView>) -> ReadingView {
    if parted(line, '=') is None {
        ReadingView {
            fields: if kind_named(declared, "text"@, 0) is Some {
                about(with(no_fields(), "text"@, ValueView::Text(line)), "text"@)
            } else {
                no_fields()
            },
            state: State::Idle,
        }
    } else {
        let pairs = pieces(line, '\t');
        let p = pairs_upto(pairs, declared, pairs.len() as int);
        ReadingView {
            fields: match p.primary {
                Some(name) => about(p.fields, name),
                None => if declared.len() > 0 {
                    about(p.fields, declared[0].name)
                } else {
                    p.fields
                },
            },
            state: p.state,
        }
    }
}

fn take_pairs(line: &str, declared: &Vec<FieldSpec>) -> (r: (Fields, State, Option<String>))
    ensures
        ({
            let pairs = pieces(line@, '\t');
            let p = pairs_upto(pairs, specs_view(declared@), pairs.len() as int);
            &&& r.0@ == p.fields
            &&& r.1 == p.state
            &&& match r.2 {
                Some(name) => p.primary == Some(name@),
                None => p.primary is None,
            }
        }),
{
    let list = split(line, '\t');
    let ghost all = pieces(line@, '\t');
    let ghost known = specs_view(declared@);
    let mut fields = Fields::new();
    let mut state = State::Idle;
    let mut primary: Option<String> = None;
    for i in 0..list.len()
        invariant
            all == texts(list@),
            known == specs_view(declared@),
            fields@ == pairs_upto(all, known, i as int).fields,
            state == pairs_upto(all, known, i as int).state,
            match primary {
                Some(name) => pairs_upto(all, known, i as int).primary == Some(name@),
                None => pairs_upto(all, known, i as int).primary is None,
            },
    {
        assert(all[i as int] == list@[i as int]@);
        match split_once(list[i].as_str(), '=') {
            None => {},
            Some((k, value)) => {
                let name = trim(k.as_str());
                if same(name.as_str(), "state") {
                    state = match state_of(value.as_str()) {
                        Some(s) => s,
                        None => State::Idle,
                    };
                } else {
                    match kind_of_field(declared, name.as_str()) {
                        None => {},
                        Some(kind) => {
                            let parsed = value_of(value.as_str(), kind);
                            let number = match parsed {
                                Value::Num { .. } => true,
                                _ => false,
                            };
                            if primary.is_none() && number {
                                primary = Some(name.clone());
                            }
                            fields.set(name.as_str(), parsed);
                        },
                    }
                }
            },
        }
    }
    (fields, state, primary)
}

/// One line of output, as a reading.
pub fn reading_of(line: &str, declared: &Vec<FieldSpec>) -> (r: Reading)
    ensures
        r@ == line_reading(line@, specs_view(declared@)),
{
    let ghost known = specs_view(declared@);
    if split_once(line, '=').is_none() {
        let mut fields = Fields::new();
        if kind_of_field(declared, "text").is_some() {
            fields.set("text", Value::Text(owned(line)));
            fields.set_primary("text");
        }
        return Reading { fields, state: State::Idle };
    }
    let (mut fields, state, primary) = take_pairs(line, declared);
    match primary {
        Some(name) => {
            fields.set_primary(name.as_str());
        },
        None => {
            if declared.len() > 0 {
                assert(known[0] == declared@[0]@);
                fields.set_primary(declared[0].name.as_str());
            }
        },
    }
    Reading { fields, state }
}

/// The lines from `from` on that have something on them.
pub open spec fn with_something(all: Seq<Seq<char>>, from: int) -> Seq<Seq<char>>
    decreases all.len() - from,
{
    if from < 0 || from >= all.len() {
        Seq::empty()
    } else if is_blank(all[from]) {
        with_something(all, from + 1)
    } else {
        seq![all[from]] + with_something(all, from + 1)
    }
}

/// The lines a command had something on.
pub open spec fn lines_said(output: Seq<char>) -> Seq<Seq<char>> {
    with_something(lines_of(output), 0)
}

/// The lines a command had something on, which is a reading each when a module pages.
pub fn said(output: &str) -> (r: Vec<String>)
    ensures
        texts(r@) == lines_said(output@),
{
    let list = lines(output);
    let ghost all = lines_of(output@);
    let mut out: Vec<String> = Vec::new();
    assert(texts(out@) + with_something(all, 0) =~= with_something(all, 0));
    for i in 0..list.len()
        invariant
            all == texts(list@),
            with_something(all, 0) == texts(out@) + with_something(all, i as int),
    {
        let ghost before = texts(out@);
        assert(all[i as int] == list@[i as int]@);
        if !blank(list[i].as_str()) {
            out.push(list[i].clone());
            proof {
                let one = all[i as int];
                assert(texts(out@) =~= before.push(one));
                let rest = with_something(all, i + 1);
                assert(before + (seq![one] + rest) =~= before.push(one) + rest);
            }
        }
    }
    assert(texts(out@) + Seq::<Seq<char>>::empty() =~= texts(out@));
    out
}

/// The line of a command's output that is its answer: the last one with anything on it.
pub fn last_word(output: &str) -> (r: Option<String>)
    ensures
        match r {
            Some(line) => lines_said(output@).len() > 0 && line@ == lines_said(output@).last(),
            None => lines_said(output@).len() == 0,
        },
{
    let mut list = said(output);
    let ghost all = texts(list@);
    match list.pop() {
        Some(line) => {
            assert(all.last() == line@);
            Some(line)
        },
        None => None,
    }
}

/// What is shown when a command could not be run.
pub open spec fn failure(why: Seq<char>) -> ReadingView {
    ReadingView {
        fields: about(with(no_fields(), "text"@, ValueView::Text(why)), "text"@),
        state: State::Error,
    }
}

/// What the bar shows when the command could not be run at all.
pub fn failed(why: String) -> (r: Reading)
    ensures
        r@ == failure(why@),
{
    let mut fields = Fields::new();
    fields.set("text", Value::Text(why));
    fields.set_primary("text");
    Reading { fields, state: State::Error }
}

/// The lines of a run that are readings: all that had something on them where the module
/// pages, and otherwise the last of those.
pub open spec fn answered(output: Seq<char>, pages: bool) -> Seq<Seq<char>> {
    let all = lines_said(output);
    if pages || all.len() == 0 {
        all
    } else {
        seq![all.last()]
    }
}

/// The readings a run of a command comes to. It is never none of them: a run that worked and
/// had nothing to say is one empty reading.
pub open spec fn answer_of(
    output: Result<Seq<char>, Seq<char>>,
    declared: Seq<FieldView>,
    pages: bool,
) -> Seq<ReadingView> {
    match output {
        Err(why) => seq![failure(why)],
        Ok(text) => {
            let lines = answered(text, pages);
            if lines.len() == 0 {
                seq![blank_reading()]
            } else {
                Seq::new(lines.len(), |i: int| line_reading(lines[i], declared))
            }
        },
    }
}

/// What a run of a command came to, where the texts of it are taken as they are.
pub open spec fn output_view(output: Result<String, String>) -> Result<Seq<char>, Seq<char>> {
    match output {
        Ok(text) => Ok(text@),
        Err(why) => Err(why@),
    }
}

/// Turn what a command printed, or why it could not be run, into readings.
///
/// Ordinarily the last non-empty line is the answer: a script that prints several has said
/// several things and the most recent is what a bar should be showing. With `pages`, every
/// non-empty line is a reading instead, in the order they were printed.
pub fn answer(output: Result<String, String>, declared: &Vec<FieldSpec>, pages: bool) -> (r: Vec<
    Reading,
>)
    ensures
        readings_view(r@) == answer_of(output_view(output), specs_view(declared@), pages),
{
    let ghost known = specs_view(declared@);
    match output {
        Err(why) => {
            let ghost shown = failure(why@);
            let r = vec![failed(why)];
            assert(readings_view(r@) =~= seq![shown]);
            r
        },
        Ok(text) => {
            let list = if pages {
                said(text.as_str())
            } else {
                match last_word(text.as_str()) {
                    Some(line) => {
                        let ghost one = line@;
                        let v = vec![line];
                        assert(texts(v@) =~= seq![one]);
                        v
                    },
                    None => {
                        let v: Vec<String> = Vec::new();
                        assert(texts(v@) =~= lines_said(text@));
                        v
                    },
                }
            };
            let ghost all = answered(text@, pages);
            assert(texts(list@) == all);
            if list.len() == 0 {
                let r = vec![Reading::blank()];
                assert(readings_view(r@) =~= seq![blank_reading()]);
                return r;
            }
            let mut out: Vec<Reading> = Vec::new();
            for i in 0..list.len()
                invariant
                    all == texts(list@),
                    known == specs_view(declared@),
                    out@.len() == i,
                    forall|j: int|
                        0 <= j < i ==> (#[trigger] out@[j])@ == line_reading(all[j], known),
            {
                assert(all[i as int] == list@[i as int]@);
                out.push(reading_of(list[i].as_str(), declared));
            }
            assert(readings_view(out@) =~= Seq::new(
                all.len(),
                |i: int| line_reading(all[i], known),
            ));
            out
        },
    }
}

/// The most one run of a command may print before it is stopped, in bytes.
///
/// A run's output is held whole, because the answer is the last line of it, so a program stuck
/// in a printing loop would otherwise grow the bar until the machine gave out.
pub const OUTPUT_LIMIT: usize = 1_048_576;

/// How reading a command's output goes.
#[derive(Debug)]
pub enum Ended {
    /// There is more to read.
    Reading,
    /// The command closed its output, which is how a run that worked ends.
    Output(String),
    /// The deadline passed first. Whatever had been read by then is dropped: half an answer
    /// is worse than none, because the half would be published as a whole one.
    Overran,
    /// It printed more than the limit, and was not going to be believed anyway.
    Flooded,
}

/// What an `Ended` says.
pub enum EndedView {
    Reading,
    Output(Seq<char>),
    Overran,
    Flooded,
}

impl View for Ended {
    type V = EndedView;

    open spec fn view(&self) -> EndedView {
        match self {
            Ended::Reading => EndedView::Reading,
            Ended::Output(text) => EndedView::Output(text@),
            Ended::Overran => EndedView::Overran,
            Ended::Flooded => EndedView::Flooded,
        }
    }
}

/// What has been printed once one more read is taken: everything, as long as it is no more than
/// a run may print.
pub open spec fn gathered(bytes: Seq<u8>, chunk: Seq<u8>) -> Seq<u8> {
    if bytes.len() + chunk.len() > OUTPUT_LIMIT {
        bytes
    } else {
        bytes + chunk
    }
}

/// How reading goes on once one more read is taken. A read of nothing is the end of the output.
pub open spec fn goes_on(bytes: Seq<u8>, chunk: Seq<u8>) -> EndedView {
    if chunk.len() == 0 {
        EndedView::Output(text_from(bytes))
    } else if bytes.len() + chunk.len() > OUTPUT_LIMIT {
        EndedView::Flooded
    } else {
        EndedView::Reading
    }
}

/// What a command has printed so far.
///
/// The bytes are kept and decoded once at the end rather than read by read. A character outside
/// ASCII is several bytes, a pipe splits where it likes, and decoding half of one turns it into
/// replacement characters that no later read can put back together.
#[derive(Debug)]
pub struct Printed {
    pub bytes: Vec<u8>,
}

impl Printed {
    pub fn new() -> (p: Printed)
        ensures
            p.bytes@ == Seq::<u8>::empty(),
    {
        Printed { bytes: Vec::new() }
    }

    /// Take what one read came to. A read of nothing is the end of the output.
    pub fn took(&mut self, chunk: &[u8]) -> (r: Ended)
        requires
            old(self).bytes@.len() <= OUTPUT_LIMIT,
        ensures
            final(self).bytes@.len() <= OUTPUT_LIMIT,
            final(self).bytes@ == gathered(old(self).bytes@, chunk@),
            r@ == goes_on(old(self).bytes@, chunk@),
    {
        if chunk.len() == 0 {
            assert(self.bytes@ + chunk@ =~= self.bytes@);
            return Ended::Output(text_of(self.bytes.as_slice()));
        }
        if chunk.len() > OUTPUT_LIMIT - self.bytes.len() {
            return Ended::Flooded;
        }
        let ghost before = self.bytes@;
        for i in 0..chunk.len()
            invariant
                self.bytes@ == before + chunk@.take(i as int),
        {
            self.bytes.push(chunk[i]);
            assert(before + chunk@.take(i + 1) =~= (before + chunk@.take(i as int)).push(
                chunk@[i as int],
            ));
        }
        assert(chunk@.take(chunk@.len() as int) =~= chunk@);
        Ended::Reading
    }
}

/// The bytes of a run of reads, one behind the other.
pub open spec fn put_together(chunks: Seq<Seq<u8>>) -> Seq<u8>
    decreases chunks.len(),
{
    if chunks.len() == 0 {
        Seq::empty()
    } else {
        put_together(chunks.drop_last()) + chunks.last()
    }
}

/// What has been printed once a run of reads was taken, one after the other.
pub open spec fn gathered_from(chunks: Seq<Seq<u8>>) -> Seq<u8>
    decreases chunks.len(),
{
    if chunks.len() == 0 {
        Seq::empty()
    } else {
        gathered(gathered_from(chunks.drop_last()), chunks.last())
    }
}

/// Two reads taken one after the other leave what their bytes in one read leave, and the text at
/// the end is that of all the bytes.
pub proof fn law_two_reads_leave_what_one_does(bytes: Seq<u8>, a: Seq<u8>, b: Seq<u8>)
    requires
        bytes.len() + a.len() + b.len() <= OUTPUT_LIMIT,
    ensures
        gathered(gathered(bytes, a), b) == gathered(bytes, a + b),
        goes_on(gathered(gathered(bytes, a), b), Seq::empty()) == EndedView::Output(
            text_from(bytes + a + b),
        ),
{
    assert(bytes + a + b =~= bytes + (a + b));
}

/// A character split across two reads survives: output that arrives in any number of pieces
/// comes to the text of all of its bytes, wherever they were split.
pub proof fn law_output_in_pieces_is_read_whole(chunks: Seq<Seq<u8>>)
    requires
        put_together(chunks).len() <= OUTPUT_LIMIT,
    ensures
        gathered_from(chunks) == put_together(chunks),
        goes_on(gathered_from(chunks), Seq::empty()) == EndedView::Output(
            text_from(put_together(chunks)),
        ),
    decreases chunks.len(),
{
    if chunks.len() > 0 {
        law_output_in_pieces_is_read_whole(chunks.drop_last());
    }
}

/// Output that is more than a run may print is refused wherever it was split: some read of it is
/// the one too many, or the whole of it in one read is.
pub proof fn law_a_flood_is_a_flood_in_pieces(chunks: Seq<Seq<u8>>)
    requires
        put_together(chunks).len() > OUTPUT_LIMIT,
    ensures
        goes_on(Seq::empty(), put_together(chunks)) == EndedView::Flooded,
        exists|i: int|
            0 <= i < chunks.len() && goes_on(
                gathered_from(#[trigger] chunks.take(i)),
                chunks[i],
            ) == EndedView::Flooded,
    decreases chunks.len(),
{
    let before = chunks.drop_last();
    let last = chunks.len() - 1;
    if put_together(before).len() > OUTPUT_LIMIT {
        law_a_flood_is_a_flood_in_pieces(before);
        let i = choose|i: int|
            0 <= i < before.len() && goes_on(gathered_from(#[trigger] before.take(i)), before[i])
                == EndedView::Flooded;
        assert(before.take(i) =~= chunks.take(i));
        assert(before[i] == chunks[i]);
    } else {
        law_output_in_pieces_is_read_whole(before);
        assert(chunks.take(last) =~= before);
        assert(goes_on(gathered_from(chunks.take(last)), chunks[last]) == EndedView::Flooded);
    }
}

/// The milliseconds left until a deadline, or nothing once it has passed.
pub open spec fn left(deadline: Instant, now: Instant) -> Option<int> {
    if now.nanos >= deadline.nanos {
        None
    } else {
        let millis = (deadline.nanos - now.nanos) as int / 1_000_000;
        Some(
            if millis > i32::MAX {
                i32::MAX as int
            } else {
                millis
            },
        )
    }
}

/// How long a read may wait for a command to say something, in milliseconds, or nothing once
/// its deadline has passed.
pub fn wait_for_output(deadline: Instant, now: Instant) -> (r: Option<i32>)
    ensures
        match r {
            Some(millis) => left(deadline, now) == Some(millis as int),
            None => left(deadline, now) is None,
        },
{
    if now.nanos >= deadline.nanos {
        return None;
    }
    let millis: u128 = (deadline.nanos - now.nanos) / 1_000_000;
    if millis > i32::MAX as u128 {
        Some(i32::MAX)
    } else {
        Some(millis as i32)
    }
}

/// The longest step a wait for a command to exit is made in, in nanoseconds.
pub const STEP: u128 = 5_000_000;

/// How long to wait before asking again whether a command has exited, or nothing once its
/// deadline has passed.
pub fn wait_for_exit(deadline: Instant, now: Instant) -> (r: Option<Duration>)
    ensures
        match r {
            Some(d) => now.nanos < deadline.nanos && d.nanos == if deadline.nanos - now.nanos
                < STEP {
                deadline.nanos - now.nanos
            } else {
                STEP as int
            },
            None => now.nanos >= deadline.nanos,
        },
{
    if now.nanos >= deadline.nanos {
        return None;
    }
    let remaining: u128 = deadline.nanos - now.nanos;
    if remaining < STEP {
        Some(Duration { nanos: remaining })
    } else {
        Some(Duration { nanos: STEP })
    }
}

/// How long to wait before starting a command again after it has stopped, at first and at the
/// longest, in nanoseconds.
///
/// A command that exits at once would otherwise be started as fast as the machine can fork.
pub const FIRST_WAIT: u128 = 1_000_000_000;

pub const LONGEST_WAIT: u128 = 60_000_000_000;

/// What happened to the thread behind a command.
#[derive(Clone, Copy, Debug, PartialEq, Eq, Structural)]
pub enum Happened {
    /// The thread has started.
    Begun,
    /// It was said that a run has begun.
    SaidStarted,
    /// The command ran to its end, or failed to.
    Ran,
    /// The readings of a run were sent.
    Published,
    /// What a failed stream comes to was sent.
    PublishedFailure,
    /// Nobody listens any more.
    Unheard,
    /// Something asked for another reading.
    Asked,
    /// The wait is over.
    Elapsed,
    /// Nothing is left that could ask.
    Unasked,
    /// A streaming command ended of its own accord.
    StreamEnded,
    /// A streaming command could not be started or read.
    StreamFailed,
}

/// What the thread behind a command does next.
#[derive(Clone, Copy, Debug, PartialEq, Eq, Structural)]
pub enum Next {
    /// Say that a run has begun.
    SayStarted,
    /// Run the command to its end.
    RunToEnd,
    /// Run the command and send a reading for every line.
    Stream,
    /// Send the readings of the run.
    Publish,
    /// Send what the failure of a stream comes to.
    PublishFailure,
    /// Wait until something asks.
    AwaitAsk,
    /// Wait until something asks, but no longer than this.
    AwaitAskFor(Duration),
    /// Wait this long.
    Sleep(Duration),
    /// There is nothing left to do.
    Stop,
}

/// The thread behind a command: how the command is run, whether anything can ask it for
/// another reading, and how long it waits before starting a stream again.
#[derive(Clone, Copy, Debug, PartialEq, Eq, Structural)]
pub struct Worker {
    pub run: Run,
    pub askable: bool,
    pub wait: Duration,
}

/// What the thread behind a command does about what happened.
///
/// A streaming command is kept running. One that answers once is done when it has answered,
/// unless something can ask it again. One that answers on an interval waits the interval out,
/// or until something asks; a failed run is tried again at its own interval rather than backed
/// off.
pub open spec fn does(w: Worker, h: Happened) -> Next {
    match h {
        Happened::Unheard => Next::Stop,
        Happened::SaidStarted => Next::RunToEnd,
        Happened::Ran => Next::Publish,
        Happened::StreamEnded | Happened::PublishedFailure => Next::Sleep(w.wait),
        Happened::StreamFailed => Next::PublishFailure,
        Happened::Begun | Happened::Asked | Happened::Elapsed => if w.run == Run::Stream {
            Next::Stream
        } else {
            Next::SayStarted
        },
        Happened::Published => match w.run {
            Run::Stream => Next::Stream,
            Run::Once => if w.askable {
                Next::AwaitAsk
            } else {
                Next::Stop
            },
            Run::Every(period) => if w.askable {
                Next::AwaitAskFor(period)
            } else {
                Next::Sleep(period)
            },
        },
        Happened::Unasked => match w.run {
            Run::Every(period) => Next::Sleep(period),
            _ => Next::Stop,
        },
    }
}

/// The wait before a stream is started again doubles each time it is waited out, up to the
/// longest.
pub open spec fn waited(w: Worker, h: Happened) -> Duration {
    if h == Happened::StreamEnded || h == Happened::PublishedFailure {
        Duration {
            nanos: if w.wait.nanos * 2 > LONGEST_WAIT {
                LONGEST_WAIT
            } else {
                (w.wait.nanos * 2) as u128
            },
        }
    } else {
        w.wait
    }
}

impl Worker {
    pub open spec fn wf(self) -> bool {
        self.wait.nanos <= LONGEST_WAIT
    }

    /// The thread behind a command. A streaming command is never asked: it says what it has
    /// when it has it, and there is no run to bring forward.
    pub fn new(run: Run, askable: bool) -> (w: Worker)
        ensures
            w.wf(),
            w == (Worker {
                run,
                askable: askable && run != Run::Stream,
                wait: Duration { nanos: FIRST_WAIT },
            }),
    {
        Worker {
            run,
            askable: askable && run != Run::Stream,
            wait: Duration { nanos: FIRST_WAIT },
        }
    }

    /// What to do next, given what happened.
    pub fn next(&mut self, h: Happened) -> (n: Next)
        requires
            old(self).wf(),
        ensures
            n == does(*old(self), h),
            *final(self) == (Worker { wait: waited(*old(self), h), ..*old(self) }),
            final(self).wf(),
    {
        match h {
            Happened::Unheard => Next::Stop,
            Happened::SaidStarted => Next::RunToEnd,
            Happened::Ran => Next::Publish,
            Happened::StreamEnded | Happened::PublishedFailure => {
                let wait = self.wait;
                let doubled: u128 = wait.nanos * 2;
                self.wait = Duration {
                    nanos: if doubled > LONGEST_WAIT {
                        LONGEST_WAIT
                    } else {
                        doubled
                    },
                };
                Next::Sleep(wait)
            },
            Happened::StreamFailed => Next::PublishFailure,
            Happened::Begun | Happened::Asked | Happened::Elapsed => if self.run == Run::Stream {
                Next::Stream
            } else {
                Next::SayStarted
            },
            Happened::Published => match self.run {
                Run::Stream => Next::Stream,
                Run::Once => if self.askable {
                    Next::AwaitAsk
                } else {
                    Next::Stop
                },
                Run::Every(period) => if self.askable {
                    Next::AwaitAskFor(period)
                } else {
                    Next::Sleep(period)
                },
            },
            Happened::Unasked => match self.run {
                Run::Every(period) => Next::Sleep(period),
                _ => Next::Stop,
            },
        }
    }
}

/// A broken stream is never started again sooner than before, and never waited for longer than
/// a minute.
pub proof fn law_a_stream_is_restarted_less_and_less_often(w: Worker, h: Happened)
    requires
        w.wf(),
    ensures
        w.wait.nanos <= waited(w, h).nanos <= LONGEST_WAIT,
{
}

/// A command that nobody can ask and that answers once is done when it has answered.
pub proof fn law_a_command_nobody_can_ask_is_done(w: Worker)
    requires
        w.run == Run::Once,
        !w.askable,
    ensures
        does(w, Happened::Published) == Next::Stop,
{
}

} // verus!
