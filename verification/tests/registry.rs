use dbar::app::source::Trigger;
use dbar::collect::registry::{align_from, backoff, guard_for, Entry, Registry};
use dbar::collect::registry::{ALIGNMENT_GUARD, MAX_BACKOFF};
use dbar::collect::which::Which;
use dbar::status::{Amount, Fields, Reading, State, Unit, Value};
use dbar::time::{Duration, Instant, LONGEST};

/// Every source, so a new one cannot be added without the checks below covering it.
fn all() -> Vec<Which> {
    vec![
        Which::Cpu,
        Which::Memory,
        Which::Battery,
        Which::Backlight,
        Which::Load,
        Which::Temperature(None),
        Which::Disk("/".to_string()),
        Which::Network(None),
        Which::Time,
    ]
}

fn at(secs: u64) -> Instant {
    Instant {
        nanos: secs as u128 * 1_000_000_000,
    }
}

fn plus(a: Duration, b: Duration) -> Duration {
    Duration {
        nanos: a.nanos + b.nanos,
    }
}

fn times(a: Duration, n: u128) -> Duration {
    Duration { nanos: a.nanos * n }
}

/// The names of the fields a wording mentions.
fn mentioned(wording: &str) -> Vec<String> {
    wording
        .split('$')
        .skip(1)
        .map(|rest| {
            rest.chars()
                .take_while(|c| c.is_ascii_alphanumeric() || *c == '_')
                .collect()
        })
        .collect()
}

#[test]
fn every_source_has_a_default_format_it_can_actually_render() {
    for which in all() {
        let names = mentioned(which.default_format());
        assert!(!names.is_empty(), "{} says nothing", which.name());
        for name in names {
            assert!(
                which.fields().iter().any(|f| f.name == name),
                "{} default format mentions ${name}",
                which.name()
            );
        }
    }
}

fn used(v: u128) -> Reading {
    let mut fields = Fields::new();
    fields.set(
        "used",
        Value::Num {
            v: Amount::Count(v),
            unit: Unit::Percent,
        },
    );
    Reading {
        fields,
        state: State::Idle,
    }
}

fn said(text: &str) -> Reading {
    let mut fields = Fields::new();
    fields.set("text", Value::Text(text.to_string()));
    Reading {
        fields,
        state: State::Idle,
    }
}

/// Sources whose read can wait on a driver, daemon or filesystem are never read on the bar's
/// own thread: their readings arrive from a thread of their own, and the registry only holds
/// them.
#[test]
fn a_source_that_can_block_is_not_read_on_the_timer() {
    let disk = Which::Disk("/".to_string());
    assert!(disk.blocking() && disk.pushed());
    let wifi = Which::Network(None);
    assert!(wifi.blocking() && wifi.pushed());
    let battery = Which::Battery;
    assert!(battery.blocking() && battery.pushed());
    let temperature = Which::Temperature(Some("nvme".to_string()));
    assert!(temperature.blocking() && temperature.pushed());
    let default_temperature = Which::Temperature(None);
    assert!(!default_temperature.blocking() && !default_temperature.pushed());
    for which in all() {
        assert_eq!(
            which.blocking(),
            matches!(
                which,
                Which::Battery
                    | Which::Temperature(Some(_))
                    | Which::Disk(_)
                    | Which::Network(_)
            ),
            "{} is classified wrongly",
            which.describe()
        );
    }

    let wanted = vec![
        (disk.copy(), Duration::from_secs(1)),
        (battery, Duration::from_secs(1)),
        (temperature, Duration::from_secs(1)),
    ];
    let mut registry = Registry::new(&wanted, at(1));
    assert!(
        registry.due(at(100), Some(1)).is_empty(),
        "the timer has nothing to read"
    );
    assert!(registry.next_due().is_none(), "and nothing to wake up for");

    // What the thread sends is kept, and counts the same way a timed reading does.
    assert!(registry.arrived(&disk, Ok(used(41))), "a first reading");
    assert!(!registry.arrived(&disk, Ok(used(41))), "the same again");
    assert!(registry.arrived(&disk, Ok(used(42))), "and a different one");
    assert!(
        registry.arrived(&disk, Err("the mount has gone".to_string())),
        "going stale is a change"
    );
    assert!(
        !registry.arrived(&disk, Err("still gone".to_string())),
        "staying stale is not"
    );
}

/// A source that arrives reports whenever its own world moved, which is far more often than
/// what a bar draws moves. The registry says so, so nothing above it lays the bar out again to
/// discover it.
#[test]
fn a_pushed_reading_that_changes_nothing_says_so() {
    let mut registry = Registry::new(&vec![(Which::Audio, Duration::from_secs(1))], at(1));
    assert!(registry.push(&Which::Audio, vec![said("40%")]), "the first");
    assert!(!registry.push(&Which::Audio, vec![said("40%")]), "the same");
    assert!(registry.push(&Which::Audio, vec![said("45%")]), "a change");
    // Pages are compared whole: the same readings in another order is a change.
    assert!(registry.push(&Which::Audio, vec![said("a"), said("b")]));
    assert!(!registry.push(&Which::Audio, vec![said("a"), said("b")]));
    assert!(registry.push(&Which::Audio, vec![said("b"), said("a")]));
}

#[test]
fn refresh_requests_are_bounded_and_coalesced() {
    let mut trigger = Trigger::new();
    trigger.ask();
    trigger.ask();
    trigger.ask();
    assert!(trigger.take());
    assert!(!trigger.take());
}

/// A source that has gone is asked less and less often, wherever it is read: the shared timer
/// and the thread of a source that can block ask the same question of the same function, so
/// moving a read off the main thread cannot quietly turn a missing mount into a request every
/// two seconds forever.
#[test]
fn a_failing_source_is_asked_less_and_less_often() {
    let interval = Duration::from_secs(2);
    assert_eq!(backoff(interval, 0), interval);
    assert_eq!(backoff(interval, 1), times(interval, 2));
    assert_eq!(backoff(interval, 5), times(interval, 32));
    // And stops doubling, rather than growing until it overflows.
    let capped = backoff(interval, MAX_BACKOFF);
    assert_eq!(backoff(interval, MAX_BACKOFF + 100), capped);
    assert_eq!(capped, times(interval, 2u128.pow(MAX_BACKOFF)));
}

fn entry(interval: Duration, due: Instant) -> Entry {
    Entry {
        which: Which::Cpu,
        interval,
        readings: vec![Reading::blank()],
        due: Some(due),
        watched: false,
        failures: 0,
        reported: false,
        read_at: None,
    }
}

/// A registry of one source whose answers the test dictates.
struct Scripted {
    registry: Registry,
    answers: Vec<Option<&'static str>>,
}

fn scripted(answers: Vec<Option<&'static str>>) -> Scripted {
    Scripted {
        registry: Registry {
            entries: vec![entry(Duration::from_secs(1), at(1))],
        },
        answers,
    }
}

impl Scripted {
    fn tick(&mut self, now: Instant) -> bool {
        let mut changed = false;
        for index in self.registry.due(now, Some(now.nanos)) {
            let read = match self.answers.remove(0) {
                Some(text) => Ok(said(text)),
                None => Err("the sensor said no".to_string()),
            };
            changed |= self.registry.tick(index, read, Some(now.nanos), now);
        }
        changed
    }
}

/// A source that reads the same value again has nothing for the bar to redraw, and says so: a
/// redraw repaints the whole surface, so a disk that is still 41% full would otherwise cost a
/// full frame every time its interval came round.
#[test]
fn a_reading_that_did_not_change_is_not_a_change() {
    let mut registry = Registry {
        entries: vec![entry(Duration::from_secs(1), at(1))],
    };
    assert!(
        registry.tick(0, Ok(used(41)), Some(1), at(1)),
        "the first reading is new"
    );
    registry.entries[0].due = Some(at(1));
    assert!(
        !registry.tick(0, Ok(used(41)), Some(1), at(1)),
        "the same reading again is not"
    );

    // A source that has gone is drawn as stale once, not repainted for as long as it stays
    // broken.
    let nothing = || Err("nothing to read".to_string());
    let mut failing = Registry {
        entries: vec![entry(Duration::from_secs(1), at(1))],
    };
    assert!(
        failing.tick(0, nothing(), Some(1), at(1)),
        "going stale is a change"
    );
    failing.entries[0].due = Some(at(1));
    assert!(
        !failing.tick(0, nothing(), Some(1), at(1)),
        "staying stale is not"
    );
}

#[test]
fn a_parameterised_source_says_what_it_is_pointed_at() {
    // Two disk modules on different paths are two sources to read, and a log that called both
    // "disk" would be no help at all.
    let root = Which::Disk("/".to_string());
    let home = Which::Disk("/home".to_string());
    assert_ne!(root, home);
    assert_eq!(root.name(), home.name());
    assert_eq!(home.describe(), "disk /home");
    // An unparameterised one has nothing to add.
    assert_eq!(Which::Cpu.describe(), "cpu");
}

/// A source that says several things at once holds them all, and the module picks one.
/// Everything else about a page is what a reading always was.
#[test]
fn a_publication_of_several_readings_is_a_page_each() {
    let mut registry = Registry::new(&vec![(Which::Audio, Duration::from_secs(1))], at(1));
    registry.push(&Which::Audio, vec![said("one"), said("two")]);
    assert_eq!(registry.pages(&Which::Audio), 2);
    let text = |index: usize| match registry.page(&Which::Audio, index) {
        Some(reading) => match reading.fields.get("text") {
            Some(Value::Text(t)) => t.clone(),
            other => panic!("text is {other:?}"),
        },
        None => panic!("no page {index}"),
    };
    assert_eq!(text(0), "one");
    assert_eq!(text(1), "two");
    // Past the end wraps, so a module left pointing at a page a later fetch no longer has
    // still draws something.
    assert_eq!(text(2), "one");
}

/// A run that printed nothing is one empty reading, not no readings: a module with no pages at
/// all would have nothing to draw and nothing left to click.
#[test]
fn a_source_that_said_nothing_still_has_a_page() {
    let mut registry = Registry::new(&vec![(Which::Audio, Duration::from_secs(1))], at(1));
    registry.push(&Which::Audio, Vec::new());
    assert_eq!(registry.pages(&Which::Audio), 1);
    assert!(registry.page(&Which::Audio, 0).is_some());
}

fn text_of(registry: &Registry) -> Option<String> {
    match registry.reading(&Which::Cpu)?.fields.get("text")? {
        Value::Text(t) => Some(t.clone()),
        _ => None,
    }
}

#[test]
fn a_failure_keeps_the_last_good_reading_on_screen() {
    let mut scripted = scripted(vec![Some("first"), None]);
    assert!(scripted.tick(at(1)));
    assert_eq!(text_of(&scripted.registry).as_deref(), Some("first"));

    // Due again straight away, so the failing read happens now.
    scripted.registry.entries[0].due = Some(at(1));
    assert!(scripted.tick(at(1)));
    assert_eq!(
        text_of(&scripted.registry).as_deref(),
        Some("first"),
        "a momentary failure should not blank a module that was working"
    );
    assert_eq!(
        scripted.registry.reading(&Which::Cpu).map(|r| r.state),
        Some(State::Error)
    );
}

#[test]
fn a_failing_collector_is_tried_less_and_less_often() {
    let mut scripted = scripted(vec![None, None, None]);
    let mut waits = Vec::new();
    for _ in 0..3 {
        let before = at(1);
        scripted.registry.entries[0].due = Some(before);
        scripted.tick(before);
        let due = scripted.registry.entries[0]
            .due
            .expect("a failing collector is tried again");
        waits.push(due.nanos - before.nanos);
    }
    assert!(
        waits[0] < waits[1] && waits[1] < waits[2],
        "the wait should grow while it keeps failing: {waits:?}"
    );
}

#[test]
fn nothing_is_read_before_it_is_due() {
    let mut scripted = scripted(vec![Some("only once")]);
    assert!(scripted.tick(at(1)));
    // The answers are exhausted, so a second read would panic rather than fail.
    assert!(
        !scripted.tick(at(1)),
        "a collector should not be read before it is due"
    );
}

#[test]
fn a_watched_source_costs_no_wake_ups() {
    let mut scripted = scripted(vec![Some("read once")]);
    scripted.registry.set_watched(&Which::Cpu, true, at(1));
    assert!(scripted.tick(at(1)), "it is still read once to have a value");
    assert_eq!(
        scripted.registry.next_due(),
        None,
        "a watched source should be waited on rather than asked"
    );
    assert!(!scripted.registry.is_scheduled());
}

#[test]
fn a_watched_source_that_fails_is_still_tried_again() {
    // Whatever the watcher is reporting, a collector that cannot read has to be retried, or a
    // sensor that came back would never be noticed.
    let mut scripted = scripted(vec![None]);
    scripted.registry.set_watched(&Which::Cpu, true, at(1));
    scripted.tick(at(1));
    assert!(scripted.registry.next_due().is_some());
}

#[test]
fn losing_a_watch_puts_the_source_back_on_its_interval() {
    let mut scripted = scripted(vec![Some("first"), Some("second")]);
    scripted.registry.set_watched(&Which::Cpu, true, at(1));
    scripted.tick(at(1));
    assert!(!scripted.registry.is_scheduled());

    scripted.registry.set_watched(&Which::Cpu, false, at(1));
    assert!(
        scripted.registry.is_scheduled(),
        "it is due straight away"
    );
    assert!(scripted.tick(at(1)));
    assert!(
        scripted.registry.next_due().is_some(),
        "and on its interval after"
    );
}

#[test]
fn alignment_lands_inside_the_interval() {
    let since = std::time::SystemTime::now()
        .duration_since(std::time::UNIX_EPOCH)
        .expect("the clock is set");
    for secs in [1, 5, 60] {
        let interval = Duration::from_secs(secs);
        let wait = align_from(
            Duration {
                nanos: since.as_nanos(),
            },
            interval,
        );
        assert!(
            wait.nanos > 0 && wait <= plus(interval, guard_for(interval)),
            "for {secs}s"
        );
    }
}

/// A clock that is a whole minute wrong for a whole minute, which is what rounding a tiny
/// remainder up to a full interval used to do.
///
/// A timer aimed at the minute can fire a fraction of a millisecond before it. The reading
/// taken then says the minute before, so the next one has to be taken at the boundary that is
/// moments away - not at the one after it.
#[test]
fn a_reading_taken_a_hair_early_waits_for_the_boundary_it_missed() {
    let minute = Duration::from_secs(60);
    // Half a millisecond before a minute boundary.
    let hair = Duration {
        nanos: Duration::from_secs(600).nanos - Duration::from_micros(500).nanos,
    };
    let wait = align_from(hair, minute);
    assert!(
        wait < Duration::from_millis(10),
        "waited {wait:?} rather than crossing the boundary in front of it"
    );
    assert!(wait.nanos > 0, "and it is still in the future");
}

/// The shortest interval a configuration may ask for is a millisecond, which is shorter than
/// the guard. A guard that outran its own interval would step over the boundaries it is there
/// to land just after.
#[test]
fn the_guard_never_outruns_a_short_interval() {
    let most = Duration {
        nanos: ALIGNMENT_GUARD,
    };
    for (interval, longest) in [
        (Duration::from_millis(1), Duration::from_micros(250)),
        (Duration::from_millis(4), Duration::from_millis(1)),
        (Duration::from_millis(8), most),
        (Duration::from_secs(60), most),
    ] {
        assert_eq!(guard_for(interval), longest, "for {interval:?}");
        // However far into the interval the clock is, the wait still lands inside the next one
        // rather than past it.
        for offset in [0, 1, 7, 999_999] {
            let wait = align_from(
                plus(Duration::from_secs(600), Duration::from_nanos(offset)),
                interval,
            );
            assert!(
                wait <= plus(interval, longest),
                "{interval:?} at +{offset}ns waited {wait:?}"
            );
        }
    }
}

/// A machine that suspends stops the monotonic clock the deadline sits on but not the wall
/// clock the reading is about, so a resume can find a clock module holding a minute that went
/// by while it slept, with its deadline still in the future.
#[test]
fn a_clock_that_slept_through_its_minute_is_read_again() {
    let hour = 3600 * 1_000_000_000;
    let wall = 1_000 * hour + 10_000_000_000;
    let now = at(500);
    let mut registry = Registry::new(&vec![(Which::Time, Duration::from_secs(60))], now);
    let minute = |wall: u128| said(&format!("{}", wall / 60_000_000_000));
    assert_eq!(registry.due(now, Some(wall)), [0]);
    registry.tick(0, Ok(minute(wall)), Some(wall), now);

    let due = registry.entries[0].due.expect("a deadline");
    assert!(due > now, "the deadline is still in front of it");
    assert!(
        registry.due(now, Some(wall)).is_empty(),
        "and the reading it holds is about the minute it is in"
    );

    // Waking an hour later, with that deadline still unreached.
    let woken = wall + hour;
    assert_eq!(registry.due(now, Some(woken)), [0]);
    assert!(
        registry.tick(0, Ok(minute(woken)), Some(woken), now),
        "so the tick reads it rather than waiting out a deadline from before the sleep"
    );
    // Both readings aim at the same boundary, so the deadline barely moves; what matters is
    // that the reading it now holds is about the minute the bar is in.
    assert!(
        registry.entries[0].due.expect("a new deadline") > now,
        "and it is scheduled for a boundary still in front of it"
    );
    assert!(registry.due(now, Some(woken)).is_empty());
}

/// Everywhere else the wait is the time left plus the guard, and a reading taken on the
/// boundary itself waits for the next one rather than firing again immediately.
#[test]
fn alignment_aims_just_past_each_boundary() {
    let minute = Duration::from_secs(60);
    assert_eq!(
        align_from(Duration::from_secs(630), minute),
        plus(Duration::from_secs(30), guard_for(minute)),
        "halfway through a minute"
    );
    assert_eq!(
        align_from(Duration::from_secs(600), minute),
        plus(minute, guard_for(minute)),
        "exactly on a boundary"
    );
    assert_eq!(
        align_from(
            plus(Duration::from_secs(600), Duration::from_millis(1)),
            minute
        ),
        plus(
            Duration {
                nanos: minute.nanos - Duration::from_millis(1).nanos
            },
            guard_for(minute)
        ),
        "a millisecond past one"
    );
}

#[test]
fn entries_stand_in_the_order_of_their_names() {
    let second = Duration::from_secs(1);
    let registry = Registry::new(
        &vec![
            (Which::Memory, second),
            (Which::Disk("/home".to_string()), second),
            (Which::Cpu, second),
            (Which::Disk("/".to_string()), second),
        ],
        at(1),
    );
    let names: Vec<String> = registry.entries.iter().map(|e| e.which.describe()).collect();
    assert_eq!(names, ["cpu", "disk /", "disk /home", "memory"]);
    assert_eq!(registry.next_due(), Some(at(1)));
    assert!(!registry.is_empty());
}

#[test]
fn an_idle_link_is_no_change_whatever_time_passed() {
    let mut registry = Registry::new(&vec![(Which::Cpu, Duration::from_secs(1))], at(1));
    let idle = |millis| {
        let mut fields = Fields::new();
        let v = Amount::Rate {
            count: 0,
            over: Duration::from_millis(millis),
        };
        fields.set("down", Value::Num { v, unit: Unit::BytesPerSec });
        Reading { fields, state: State::Idle }
    };
    assert!(registry.tick(0, Ok(idle(1000)), Some(1), at(1)));
    assert!(!registry.tick(0, Ok(idle(1003)), Some(1), at(2)));
    assert!(!registry.push(&Which::Cpu, vec![idle(2500)]));
}

#[test]
fn a_wait_is_stretched_as_far_as_it_is_asked_and_aligned_as_far_as_it_is_counted() {
    let long = Duration { nanos: LONGEST };
    assert_eq!(backoff(long, 0), long);
    // A boundary further off than 64 bits count nanoseconds is waited for that long.
    assert_eq!(
        align_from(Duration { nanos: 0 }, long),
        Duration {
            nanos: u64::MAX as u128 + ALIGNMENT_GUARD
        }
    );
    assert_eq!(
        align_from(Duration { nanos: LONGEST - 5 }, long),
        Duration {
            nanos: 5 + ALIGNMENT_GUARD
        }
    );
}
