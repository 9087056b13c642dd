use dbar::collect::command::{answer, last_word, plain, reading_of, said, state_of};
use dbar::collect::command::{wait_for_exit, wait_for_output, Ended, Happened, Next, Printed};
use dbar::collect::command::{Run, Worker, OUTPUT_LIMIT};
use dbar::status::{Amount, FieldSpec, Kind, Reading, State, Unit, Value};
use dbar::time::{Duration, Instant};

#[test]
fn a_scripts_answer_is_the_last_line_with_anything_on_it() {
    assert_eq!(last_word("42\n").as_deref(), Some("42"));
    // Trailing blank lines are how a shell script ends, not something it said.
    assert_eq!(last_word("42\n\n\n").as_deref(), Some("42"));
    // A script that says several things has most recently said the last of them.
    assert_eq!(
        last_word("starting\nworking\ndone\n").as_deref(),
        Some("done")
    );
    assert_eq!(
        last_word("only line, no newline").as_deref(),
        Some("only line, no newline")
    );
}

/// What a paging module gets: one reading per line that had anything on it, in the order they
/// were printed, so three cities come back in the order they were asked about.
#[test]
fn a_paging_command_says_one_thing_per_line() {
    let out = "temp=1\n\ntemp=2\ntemp=3\n";
    let lines = said(out);
    assert_eq!(lines, ["temp=1", "temp=2", "temp=3"]);
}

#[test]
fn a_script_that_printed_nothing_has_nothing_to_say() {
    assert_eq!(last_word(""), None);
    assert_eq!(last_word("\n \n\t\n"), None);
}

/// What a module in a configuration would declare for these tests.
fn declared() -> Vec<FieldSpec> {
    vec![
        FieldSpec::new("text", Kind::Text),
        FieldSpec::new("count", Kind::Num(Unit::Plain)),
        FieldSpec::new("used", Kind::Num(Unit::Percent)),
        FieldSpec::new("name", Kind::Text),
        FieldSpec::new("title", Kind::Text),
        FieldSpec::new("by", Kind::Text),
        FieldSpec::new("artist", Kind::Text),
    ]
}

fn read(line: &str) -> Reading {
    reading_of(line, &declared())
}

fn text_of(reading: &Reading, name: &str) -> Option<String> {
    match reading.fields.get(name) {
        Some(Value::Text(t)) => Some(t.clone()),
        _ => None,
    }
}

fn number(a: &Amount) -> f64 {
    match a {
        Amount::Written(s) => s.parse().expect("a written amount is a number"),
        other => panic!("{other:?} was not written"),
    }
}

fn num_of(reading: &Reading, name: &str) -> Option<f64> {
    reading.fields.get(name).and_then(|v| v.num()).map(number)
}

/// The simplest thing a command can be is one that prints a line, so a line that says nothing
/// about fields is the line itself.
#[test]
fn a_plain_line_is_the_whole_of_what_was_said() {
    let r = read("3 updates");
    assert_eq!(text_of(&r, "text").as_deref(), Some("3 updates"));
    assert_eq!(r.state, State::Idle);
}

#[test]
fn pairs_become_the_fields_they_name() {
    let r = read("count=3\tname=deploy");
    assert_eq!(num_of(&r, "count"), Some(3.0));
    assert_eq!(text_of(&r, "name").as_deref(), Some("deploy"));
}

/// A value with a space in it is ordinary; a tab is what separates one field from the next,
/// which is why it is the separator.
#[test]
fn a_value_may_have_spaces_in_it() {
    let r = read("title=all along the watchtower\tby=hendrix");
    assert_eq!(
        text_of(&r, "title").as_deref(),
        Some("all along the watchtower")
    );
    assert_eq!(text_of(&r, "by").as_deref(), Some("hendrix"));
}

/// A percentage is a percentage, so `above` and `below` compare against it and a format can
/// render it as one.
#[test]
fn a_trailing_percent_makes_it_a_percentage() {
    let r = read("used=42%");
    assert!(matches!(
        r.fields.get("used"),
        Some(Value::Num {
            unit: Unit::Percent,
            ..
        })
    ));
    assert_eq!(num_of(&r, "used"), Some(42.0));
}

/// An empty value is a field the command knows about but cannot supply, which is what makes a
/// conditional part of a format disappear rather than draw a gap.
#[test]
fn an_empty_value_is_absent_rather_than_blank() {
    let r = read("artist=\ttitle=silence");
    assert!(matches!(r.fields.get("artist"), Some(Value::Absent)));
    assert_eq!(text_of(&r, "title").as_deref(), Some("silence"));
}

/// `state` is read rather than drawn: it is how the command rates itself, and it is what a
/// `state = "warning"` rule matches on.
#[test]
fn state_is_taken_and_not_shown() {
    let r = read("state=warning\tcount=9");
    assert_eq!(r.state, State::Warning);
    assert!(r.fields.get("state").is_none());
    assert_eq!(num_of(&r, "count"), Some(9.0));
}

#[test]
fn a_state_nobody_recognises_is_not_a_state() {
    assert_eq!(state_of("sideways"), None);
    assert_eq!(read("state=sideways").state, State::Idle);
}

/// The first number is what an unqualified `above` or `below` reads, so a rule that names no
/// field still has something to compare.
#[test]
fn the_first_number_is_what_a_bound_compares_against() {
    let r = read("name=deploy\tcount=7");
    assert_eq!(
        r.fields.primary().and_then(|v| v.num()).map(number),
        Some(7.0)
    );
}

/// A command may print anything; a module takes only what it said it would, so a format can be
/// checked against the declaration at startup.
#[test]
fn a_field_the_module_never_declared_is_not_taken() {
    let r = read("count=2\tsurprise=17");
    assert_eq!(num_of(&r, "count"), Some(2.0));
    assert!(r.fields.get("surprise").is_none());
}

/// A number that arrives as a word is missing rather than shown: the format and any threshold
/// were written against a number.
#[test]
fn a_number_that_is_not_one_is_absent() {
    let r = read("count=lots");
    assert!(matches!(r.fields.get("count"), Some(Value::Absent)));
}

fn output(pieces: &[&[u8]]) -> String {
    let mut printed = Printed::new();
    for piece in pieces {
        assert!(matches!(printed.took(piece), Ended::Reading));
    }
    match printed.took(&[]) {
        Ended::Output(text) => text,
        other => panic!("{other:?} is not the end of the output"),
    }
}

/// Output arrives in whatever pieces the pipe felt like, and a character outside ASCII is
/// several bytes. Decoding each read on its own turns one split character into two replacement
/// characters, which no amount of reading afterwards can repair.
#[test]
fn a_character_split_across_two_reads_survives() {
    // The two bytes of "é", written either side of a pause.
    let output = output(&[b"\xc3", b"\xa9\n"]);
    assert_eq!(last_word(&output).as_deref(), Some("\u{e9}"));
}

/// Output that arrives in pieces over time is still all of it.
#[test]
fn output_written_in_pieces_is_read_whole() {
    let output = output(&[b"one\n", b"two\n", b"three\n"]);
    assert_eq!(said(&output), ["one", "two", "three"]);
}

#[test]
fn a_program_that_will_not_stop_printing_is_stopped() {
    let mut printed = Printed::new();
    assert!(matches!(
        printed.took(&vec![b'x'; OUTPUT_LIMIT]),
        Ended::Reading
    ));
    assert!(matches!(printed.took(b"x"), Ended::Flooded));
    assert_eq!(printed.bytes.len(), OUTPUT_LIMIT);
}

#[test]
fn a_deadline_is_waited_for_and_not_past() {
    let deadline = Instant {
        nanos: 2_000_000_000,
    };
    let at = |nanos| Instant { nanos };
    assert_eq!(wait_for_output(deadline, at(500_000_000)), Some(1500));
    assert_eq!(wait_for_output(deadline, at(2_000_000_000)), None);
    assert_eq!(
        wait_for_exit(deadline, at(0)),
        Some(Duration::from_millis(5))
    );
    assert_eq!(
        wait_for_exit(deadline, at(1_999_000_000)),
        Some(Duration::from_millis(1))
    );
    assert_eq!(wait_for_exit(deadline, at(3_000_000_000)), None);
}

#[test]
fn a_run_is_its_last_line_or_a_page_each() {
    let run = |pages| answer(Ok("count=1\ncount=2\n".to_string()), &declared(), pages);
    assert_eq!(run(false).len(), 1);
    assert_eq!(num_of(&run(false)[0], "count"), Some(2.0));
    assert_eq!(run(true).len(), 2);
    assert_eq!(num_of(&run(true)[0], "count"), Some(1.0));
    let nothing = answer(Ok("\n".to_string()), &declared(), true);
    assert_eq!(nothing.len(), 1);
    let failed = answer(Err("no such program".to_string()), &plain(), false);
    assert_eq!(failed[0].state, State::Error);
    assert_eq!(text_of(&failed[0], "text").as_deref(), Some("no such program"));
}

#[test]
fn a_stream_that_stops_is_started_less_and_less_often() {
    let mut worker = Worker::new(Run::Stream, true);
    assert_eq!(worker.next(Happened::Begun), Next::Stream);
    assert_eq!(
        worker.next(Happened::StreamEnded),
        Next::Sleep(Duration::from_secs(1))
    );
    assert_eq!(
        worker.next(Happened::StreamEnded),
        Next::Sleep(Duration::from_secs(2))
    );
    for _ in 0..10 {
        worker.next(Happened::StreamEnded);
    }
    assert_eq!(
        worker.next(Happened::StreamEnded),
        Next::Sleep(Duration::from_secs(60))
    );
    let mut once = Worker::new(Run::Once, false);
    assert_eq!(once.next(Happened::Published), Next::Stop);
    let mut asked = Worker::new(Run::Once, true);
    assert_eq!(asked.next(Happened::Published), Next::AwaitAsk);
    let minute = Duration::from_secs(60);
    let mut every = Worker::new(Run::Every(minute), true);
    assert_eq!(every.next(Happened::Published), Next::AwaitAskFor(minute));
}
