//! What a program says, and when it is run.

use crate::collect::command::{answer_of, does, goes_on, gathered, left, line_reading};
use crate::collect::command::{lines_said, pairs_upto, rated, value_as, waited, with_something};
use crate::collect::command::{EndedView, Happened, Next, Run, Worker};
use crate::laws::text::{free_of, law_a_text_is_parted_at_the_first};
use crate::laws::text::{law_lines_are_what_line_feeds_leave, law_trimming_takes_the_spaces_around};
use crate::status::{kind_named, AmountView, FieldView, Kind, State};
use crate::status::{Unit, ValueView};
use crate::text::{ascii_lowercase, is_blank, is_float, is_space, lines_of, parted, pieces, text_from, trimmed};
use crate::time::{Duration, Instant};
use vstd::prelude::*;

verus! {

/// Whether a pair is about this name: what is in front of its equals sign is the name, but for
/// the spaces around it.
pub open spec fn is_about(pair: Seq<char>, name: Seq<char>) -> bool {
    parted(pair, '=') matches Some((k, _)) && trimmed(k) == name
}

/// What a pair says, behind its equals sign.
pub open spec fn says(pair: Seq<char>) -> Seq<char> {
    match parted(pair, '=') {
        Some((_, value)) => value,
        None => Seq::empty(),
    }
}

/// Whether pair `i` is the last of the first `upto` that is about this name.
pub open spec fn is_last_about(pairs: Seq<Seq<char>>, upto: int, name: Seq<char>, i: int) -> bool {
    &&& 0 <= i < upto
    &&& is_about(pairs[i], name)
    &&& forall|j: int| i < j < upto ==> !is_about(#[trigger] pairs[j], name)
}

proof fn lemma_last_goes_on(pairs: Seq<Seq<char>>, upto: int, name: Seq<char>)
    requires
        0 < upto <= pairs.len(),
    ensures
        is_about(pairs[upto - 1], name) ==> is_last_about(pairs, upto, name, upto - 1),
        !is_about(pairs[upto - 1], name) ==> forall|i: int|
            #[trigger] is_last_about(pairs, upto, name, i) <==> is_last_about(
                pairs,
                upto - 1,
                name,
                i,
            ),
{
}

proof fn lemma_pairs(pairs: Seq<Seq<char>>, declared: Seq<FieldView>, upto: int, name: Seq<char>)
    requires
        0 <= upto <= pairs.len(),
        name != "state"@,
    ensures
        ({
            let values = pairs_upto(pairs, declared, upto).fields.values;
            &&& forall|i: int|
                #[trigger] is_last_about(pairs, upto, name, i) && kind_named(declared, name, 0)
                    is Some ==> {
                    &&& values.dom().contains(name)
                    &&& values[name] == value_as(says(pairs[i]), kind_named(declared, name, 0)->0)
                }
            &&& (forall|i: int| 0 <= i < upto ==> !is_about(#[trigger] pairs[i], name))
                ==> !values.dom().contains(name)
            &&& kind_named(declared, name, 0) is None ==> !values.dom().contains(name)
        }),
    decreases upto,
{
    if upto > 0 {
        lemma_pairs(pairs, declared, upto - 1, name);
        lemma_last_goes_on(pairs, upto, name);
        if is_about(pairs[upto - 1], name) {
            assert forall|i: int| is_last_about(pairs, upto, name, i) implies i == upto - 1 by {
                if i < upto - 1 {
                    assert(!is_about(pairs[upto - 1], name));
                }
            }
        }
    }
}

proof fn lemma_state(pairs: Seq<Seq<char>>, declared: Seq<FieldView>, upto: int)
    requires
        0 <= upto <= pairs.len(),
    ensures
        ({
            let state = pairs_upto(pairs, declared, upto).state;
            &&& forall|i: int|
                #[trigger] is_last_about(pairs, upto, "state"@, i) ==> state == (match rated(
                    says(pairs[i]),
                ) {
                    Some(s) => s,
                    None => State::Idle,
                })
            &&& (forall|i: int| 0 <= i < upto ==> !is_about(#[trigger] pairs[i], "state"@))
                ==> state == State::Idle
        }),
    decreases upto,
{
    if upto > 0 {
        lemma_state(pairs, declared, upto - 1);
        lemma_last_goes_on(pairs, upto, "state"@);
        if is_about(pairs[upto - 1], "state"@) {
            assert forall|i: int| is_last_about(pairs, upto, "state"@, i) implies i == upto
                - 1 by {
                if i < upto - 1 {
                    assert(!is_about(pairs[upto - 1], "state"@));
                }
            }
        }
    }
}

/// A line of pairs gives each field it declares what the last pair about it says, and a field
/// that no pair is about nothing at all. What is not declared is not there.
pub proof fn law_a_field_is_what_its_pair_says(
    line: Seq<char>,
    declared: Seq<FieldView>,
    name: Seq<char>,
    i: int,
)
    requires
        parted(line, '=') is Some,
        name != "state"@,
    ensures
        ({
            let pairs = pieces(line, '\t');
            let values = line_reading(line, declared).fields.values;
            &&& is_last_about(pairs, pairs.len() as int, name, i) && kind_named(declared, name, 0)
                is Some ==> {
                &&& values.dom().contains(name)
                &&& values[name] == value_as(says(pairs[i]), kind_named(declared, name, 0)->0)
            }
            &&& (forall|j: int| 0 <= j < pairs.len() ==> !is_about(#[trigger] pairs[j], name))
                ==> !values.dom().contains(name)
            &&& kind_named(declared, name, 0) is None ==> !values.dom().contains(name)
        }),
{
    let pairs = pieces(line, '\t');
    lemma_pairs(pairs, declared, pairs.len() as int, name);
}

/// A line of pairs rates itself with what the last pair about its state says, and not at all
/// where none is, or where it says a word nobody knows.
pub proof fn law_a_line_rates_itself(line: Seq<char>, declared: Seq<FieldView>, i: int)
    ensures
        ({
            let pairs = pieces(line, '\t');
            let state = line_reading(line, declared).state;
            &&& parted(line, '=') is None ==> state == State::Idle
            &&& parted(line, '=') is Some && is_last_about(
                pairs,
                pairs.len() as int,
                "state"@,
                i,
            ) ==> state == (match rated(says(pairs[i])) {
                Some(s) => s,
                None => State::Idle,
            })
            &&& (forall|j: int| 0 <= j < pairs.len() ==> !is_about(#[trigger] pairs[j], "state"@))
                ==> state == State::Idle
        }),
{
    let pairs = pieces(line, '\t');
    lemma_state(pairs, declared, pairs.len() as int);
}

/// A line without an equals sign is a text, and is kept whole where a text is declared.
pub proof fn law_a_plain_line_is_a_text(line: Seq<char>, declared: Seq<FieldView>)
    requires
        free_of(line, '='),
    ensures
        ({
            let r = line_reading(line, declared);
            &&& r.state == State::Idle
            &&& kind_named(declared, "text"@, 0) is Some ==> {
                &&& r.fields.values == Map::<Seq<char>, ValueView>::empty().insert(
                    "text"@,
                    ValueView::Text(line),
                )
                &&& r.fields.primary == Some("text"@)
            }
            &&& kind_named(declared, "text"@, 0) is None ==> r.fields.values == Map::<
                Seq<char>,
                ValueView,
            >::empty() && r.fields.primary is None
        }),
{
    law_a_text_is_parted_at_the_first(line, '=', Seq::empty());
}

/// The words a program can rate itself with, in whatever case they are written.
pub proof fn law_a_program_rates_itself_in_words(word: Seq<char>)
    ensures
        ({
            let w = ascii_lowercase(trimmed(word));
            &&& w == "good"@ || w == "ok"@ ==> rated(word) == Some(State::Good)
            &&& w == "warning"@ || w == "warn"@ ==> rated(word) == Some(State::Warning)
            &&& w == "critical"@ || w == "crit"@ ==> rated(word) == Some(State::Critical)
            &&& w == "error"@ ==> rated(word) == Some(State::Error)
            &&& w == "idle"@ || w.len() == 0 ==> rated(word) == Some(State::Idle)
        }),
{
    reveal_strlit("good");
    reveal_strlit("ok");
    reveal_strlit("warning");
    reveal_strlit("warn");
    reveal_strlit("critical");
    reveal_strlit("crit");
    reveal_strlit("error");
    reveal_strlit("idle");
    assert("good"@.len() == 4 && "warn"@.len() == 4 && "crit"@.len() == 4 && "idle"@.len() == 4);
    assert("ok"@.len() == 2 && "warning"@.len() == 7 && "critical"@.len() == 8);
    assert("error"@.len() == 5);
    assert("good"@[0] == 'g' && "warn"@[0] == 'w' && "crit"@[0] == 'c' && "idle"@[0] == 'i');
}

/// A value is what is written, without the spaces around it, and nothing where nothing is; a
/// number is one only where it writes one, and a percentage may have its sign behind it.
pub proof fn law_a_value_is_what_is_written(value: Seq<char>, unit: Unit)
    ensures
        trimmed(value).len() == 0 ==> value_as(value, Kind::Text) == ValueView::Absent && value_as(
            value,
            Kind::Num(unit),
        ) == ValueView::Absent,
        trimmed(value).len() > 0 ==> value_as(value, Kind::Text) == ValueView::Text(trimmed(value)),
        trimmed(value).len() > 0 && unit != Unit::Percent ==> {
            let t = trimmed(trimmed(value));
            value_as(value, Kind::Num(unit)) == if is_float(t) {
                ValueView::Num { v: AmountView::Written(t), unit }
            } else {
                ValueView::Absent
            }
        },
{
}

proof fn lemma_with_something(all: Seq<Seq<char>>, more: Seq<Seq<char>>, from: int)
    requires
        0 <= from <= all.len(),
    ensures
        with_something(all + more, from) == with_something(all, from) + with_something(more, 0),
    decreases all.len() - from,
{
    let both = all + more;
    if from < all.len() {
        lemma_with_something(all, more, from + 1);
        assert(both[from] == all[from]);
        assert(with_something(both, from) =~= with_something(all, from) + with_something(more, 0));
    } else {
        lemma_something_shifts(all, more, 0);
        assert(with_something(all, from) =~= Seq::<Seq<char>>::empty());
        assert(Seq::<Seq<char>>::empty() + with_something(more, 0) =~= with_something(more, 0));
    }
}

proof fn lemma_something_shifts(all: Seq<Seq<char>>, more: Seq<Seq<char>>, k: int)
    requires
        0 <= k <= more.len(),
    ensures
        with_something(all + more, all.len() + k) == with_something(more, k),
    decreases more.len() - k,
{
    if k < more.len() {
        lemma_something_shifts(all, more, k + 1);
        assert((all + more)[all.len() + k] == more[k]);
    }
}

/// What a program says is its lines, one by one, but for those with nothing in them.
pub proof fn law_a_program_says_its_lines(line: Seq<char>, rest: Seq<char>)
    requires
        free_of(line, '\n'),
        line.len() > 0 ==> line.last() != '\r',
    ensures
        is_blank(line) ==> lines_said(line + seq!['\n'] + rest) == lines_said(rest),
        !is_blank(line) ==> lines_said(line + seq!['\n'] + rest) == seq![line] + lines_said(rest),
        !is_blank(line) ==> lines_said(line) == seq![line],
        is_blank(line) ==> lines_said(line).len() == 0,
{
    law_lines_are_what_line_feeds_leave(line, rest);
    lemma_with_something(seq![line], lines_of(rest), 0);
    reveal_with_fuel(with_something, 3);
    let one = with_something(seq![line], 0);
    if is_blank(line) {
        assert(one =~= Seq::<Seq<char>>::empty());
        assert(one + lines_said(rest) =~= lines_said(rest));
    } else {
        assert(one =~= seq![line]);
    }
    if line.len() == 0 {
        assert(lines_of(line) =~= Seq::<Seq<char>>::empty());
    }
}

/// A program that failed says why, as an error; one that said nothing leaves nothing to show; of
/// one that turns pages every line is shown, and of any other the last.
pub proof fn law_the_last_line_is_what_is_shown(
    output: Result<Seq<char>, Seq<char>>,
    declared: Seq<FieldView>,
)
    ensures
        output matches Err(why) ==> forall|pages: bool|
            {
                let said = #[trigger] answer_of(output, declared, pages);
                &&& said.len() == 1
                &&& said[0].state == State::Error
                &&& said[0].fields.values == Map::<Seq<char>, ValueView>::empty().insert(
                    "text"@,
                    ValueView::Text(why),
                )
                &&& said[0].fields.primary == Some("text"@)
            },
        output matches Ok(text) ==> {
            let lines = lines_said(text);
            &&& lines.len() > 0 ==> answer_of(output, declared, false) == seq![
                line_reading(lines[lines.len() - 1], declared),
            ]
            &&& lines.len() > 0 ==> answer_of(output, declared, true).len() == lines.len()
            &&& lines.len() > 0 ==> forall|i: int|
                0 <= i < lines.len() ==> #[trigger] answer_of(output, declared, true)[i]
                    == line_reading(lines[i], declared)
            &&& lines.len() == 0 ==> forall|pages: bool|
                {
                    let said = #[trigger] answer_of(output, declared, pages);
                    &&& said.len() == 1
                    &&& said[0].fields.values == Map::<Seq<char>, ValueView>::empty()
                    &&& said[0].state == State::Idle
                }
        },
{
    if let Ok(text) = output {
        let lines = lines_said(text);
        if lines.len() > 0 {
            assert(answer_of(output, declared, false) =~= seq![
                line_reading(lines[lines.len() - 1], declared),
            ]);
        }
    }
}

/// A program that has nothing more to say is done, one that says more than a mebibyte is stopped,
/// and any other is read on.
pub proof fn law_a_program_is_read_to_its_end(bytes: Seq<u8>, chunk: Seq<u8>)
    ensures
        chunk.len() == 0 ==> goes_on(bytes, chunk) == EndedView::Output(text_from(bytes)),
        chunk.len() > 0 && bytes.len() + chunk.len() > 1024 * 1024 ==> goes_on(bytes, chunk)
            == EndedView::Flooded,
        chunk.len() > 0 && bytes.len() + chunk.len() <= 1024 * 1024 ==> goes_on(bytes, chunk)
            == EndedView::Reading && gathered(bytes, chunk) == bytes + chunk,
{
}

/// A program is waited for until its time is up, and no longer.
pub proof fn law_a_program_is_waited_for_until_its_time_is_up(deadline: Instant, now: Instant)
    ensures
        now.nanos >= deadline.nanos <==> left(deadline, now) is None,
        left(deadline, now) matches Some(millis) ==> {
            &&& 0 <= millis <= i32::MAX
            &&& now.nanos + millis * 1_000_000 <= deadline.nanos
            &&& millis < i32::MAX ==> deadline.nanos < now.nanos + (millis + 1) * 1_000_000
        },
{
}

/// A program is run first of all, and again each time its period is over or it is asked for; one
/// that is run once and cannot be asked for is not run again; and a stream that ends is waited
/// for longer each time, up to a minute.
pub proof fn law_a_program_is_run_as_it_is_written(w: Worker, period: Duration)
    ensures
        w.run != Run::Stream ==> {
            &&& does(w, Happened::Begun) == Next::SayStarted
            &&& does(w, Happened::Asked) == Next::SayStarted
            &&& does(w, Happened::Elapsed) == Next::SayStarted
            &&& does(w, Happened::SaidStarted) == Next::RunToEnd
            &&& does(w, Happened::Ran) == Next::Publish
        },
        w.run == Run::Every(period) ==> {
            &&& w.askable ==> does(w, Happened::Published) == Next::AwaitAskFor(period)
            &&& !w.askable ==> does(w, Happened::Published) == Next::Sleep(period)
            &&& does(w, Happened::Unasked) == Next::Sleep(period)
        },
        w.run == Run::Once ==> {
            &&& w.askable ==> does(w, Happened::Published) == Next::AwaitAsk
            &&& !w.askable ==> does(w, Happened::Published) == Next::Stop
            &&& does(w, Happened::Unasked) == Next::Stop
        },
        w.run == Run::Stream ==> {
            &&& does(w, Happened::Begun) == Next::Stream
            &&& does(w, Happened::Elapsed) == Next::Stream
            &&& does(w, Happened::StreamEnded) == Next::Sleep(w.wait)
            &&& does(w, Happened::StreamFailed) == Next::PublishFailure
            &&& does(w, Happened::PublishedFailure) == Next::Sleep(w.wait)
        },
        does(w, Happened::Unheard) == Next::Stop,
        w.wait.nanos <= 30_000_000_000 ==> waited(w, Happened::StreamEnded).nanos == 2
            * w.wait.nanos && waited(w, Happened::PublishedFailure).nanos == 2 * w.wait.nanos,
        w.wait.nanos > 30_000_000_000 ==> waited(w, Happened::StreamEnded).nanos
            == 60_000_000_000 && waited(w, Happened::PublishedFailure).nanos == 60_000_000_000,
        waited(w, Happened::Published) == w.wait && waited(w, Happened::Ran) == w.wait,
{
}

/// A percentage is the number in front of its sign, or the number where it has none.
pub proof fn law_a_percentage_may_have_its_sign(number: Seq<char>)
    requires
        number.len() > 0,
        !is_space(number[0]) && !is_space(number.last()),
        number.last() != '%',
    ensures
        value_as(number + seq!['%'], Kind::Num(Unit::Percent)) == value_as(
            number,
            Kind::Num(Unit::Percent),
        ),
        value_as(number, Kind::Num(Unit::Percent)) == (if is_float(number) {
            ValueView::Num { v: AmountView::Written(number), unit: Unit::Percent }
        } else {
            ValueView::Absent
        }),
{
    let signed = number + seq!['%'];
    let none = Seq::<char>::empty();
    law_trimming_takes_the_spaces_around(none, number, none);
    assert(none + number + none =~= number);
    assert(signed[0] == number[0]);
    law_trimming_takes_the_spaces_around(none, signed, none);
    assert(none + signed + none =~= signed);
    assert(signed.drop_last() =~= number);
}

} // verus!
