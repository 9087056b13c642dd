use dbar::collect::audio::{port_of, Command as AudioCommand, LevelProperty, Levels, Route};
use dbar::collect::audio::{card_of, levels_in, route_of, RouteProperty, Setting, Sinks, Target};
use dbar::collect::backlight::{self, Backlight, Controller};
use dbar::collect::battery::{Battery, Cell, Status, Supply, Total, WATT};
use dbar::collect::cpu::{self, Cpu, Times};
use dbar::collect::disk::{self, Blocks, Disk, Space};
use dbar::collect::load::{self, Load};
use dbar::collect::media::{self, Command as MediaCommand, Media, Playing};
use dbar::collect::memory::{self, Memory};
use dbar::collect::network::{self, Interface, Network, Radio, RadioStep, Sample};
use dbar::collect::slow::{needs_trigger, Happened, Next, Reader};
use dbar::collect::temperature::{self, Chip, SensorFiles, Temperature};
use dbar::collect::time::Time;
use dbar::collect::watch::{abandon, consumed, sift, woken, Event, Report, Woken};
use dbar::collect::which::{Watch, Which};
use dbar::dbus::value::Value as Reply;
use dbar::extended::Extended;
use dbar::natural::{Natural, Whole};
use dbar::number::Number;
use dbar::status::{Amount, Fields, State, Unit, Value};
use dbar::time::{Duration, Instant};

/// How much one digit of a natural number outweighs the next, as a power of two.
const DIGIT: i32 = 32;

/// How many digits of a natural number are more than floating point tells apart.
const ENOUGH: usize = 4;

/// What a natural number starts with, and the power of two that it is to be taken times.
fn leading(n: &Natural) -> (f64, i32) {
    let zeros = n.digits.iter().take_while(|d| **d == 0).count();
    let digits = &n.digits[zeros..];
    let some = digits.len().min(ENOUGH);
    let start = digits[..some]
        .iter()
        .fold(0.0, |sum, d| sum * f64::powi(2.0, DIGIT) + f64::from(*d));
    (start, DIGIT * (digits.len() - some) as i32)
}

/// One natural number, taken so often, divided by another.
fn divided(of: &Natural, times: f64, by: &Natural) -> f64 {
    let (a, up) = leading(of);
    let (b, down) = leading(by);
    a * times / b * f64::powi(2.0, up - down)
}

/// The number an amount stands for.
fn number(a: &Amount) -> f64 {
    match a {
        Amount::Count(n) => *n as f64,
        Amount::Share { part, whole } => divided(part, 100.0, whole),
        Amount::Ratio { of, by } => {
            let sign = if of.is_negative() { -1.0 } else { 1.0 };
            divided(&of.far(), sign, by)
        }
        Amount::Signed(n) => *n as f64,
        Amount::Rate { count, over } => *count as f64 / (over.nanos as f64 / 1e9),
        Amount::Written(s) => s.parse().expect("a written amount is a number"),
        Amount::WrittenShare { written, among } => {
            written.parse::<f64>().expect("a number") * 100.0 / *among as f64
        }
        Amount::Float(n) => f64::from_bits(n.bits),
    }
}

fn num(fields: &Fields, name: &str) -> Option<f64> {
    fields.get(name)?.num().map(number)
}

fn is_absent(fields: &Fields, name: &str) -> bool {
    matches!(fields.get(name), Some(Value::Absent))
}

fn is_text(fields: &Fields, name: &str, text: &str) -> bool {
    matches!(fields.get(name), Some(Value::Text(t)) if t == text)
}

fn at(secs: u64) -> Instant {
    Instant { nanos: secs as u128 * 1_000_000_000 }
}

// --- processor -------------------------------------------------------------------------

const STAT: &str = "\
cpu  10 20 30 40 50 60 70 80 0 0
cpu0 5 10 15 20 25 30 35 40 0 0
intr 12345
";

#[test]
fn the_aggregate_line_is_the_one_read() {
    let times = cpu::parse(STAT).expect("the sample parses");
    assert_eq!(times.total, 10 + 20 + 30 + 40 + 50 + 60 + 70 + 80);
    // Idle plus iowait.
    assert_eq!(times.idle, 40 + 50);
}

#[test]
fn utilisation_is_the_share_of_the_interval_that_was_busy() {
    let previous = Times {
        total: 100,
        idle: 100,
    };
    let now = Times {
        total: 200,
        idle: 175,
    };
    // 100 ticks passed, 75 of them idle.
    assert_eq!(
        cpu::utilization(previous, now).map(|a| number(&a)),
        Some(25.0)
    );
}

#[test]
fn nothing_is_reported_when_the_counters_did_not_move() {
    let same = Times {
        total: 100,
        idle: 50,
    };
    assert!(cpu::utilization(same, same).is_none());
}

#[test]
fn cpu_counters_going_backwards_report_nothing_rather_than_nonsense() {
    let previous = Times {
        total: 200,
        idle: 100,
    };
    let now = Times {
        total: 100,
        idle: 50,
    };
    assert!(cpu::utilization(previous, now).is_none());
}

#[test]
fn a_stat_file_without_a_cpu_line_is_an_error() {
    assert!(cpu::parse("intr 1\nctxt 2\n").is_err());
    assert!(cpu::parse("cpu  10 20\n").is_err());
    assert!(cpu::parse("cpu  a b c d\n").is_err());
}

#[test]
fn what_is_wrong_with_the_statistics_is_said() {
    let message = |text: &str| cpu::parse(text).expect_err("it does not parse").message();
    assert_eq!(message("intr 1\n"), "/proc/stat has no aggregate cpu line");
    assert!(message("cpu  10 20\n").contains("too few fields"));
    assert!(message("cpu  a b c d\n").contains("is not a number"));
}

#[test]
fn the_processor_is_busy_by_the_difference_of_two_ticks() {
    let mut cpu = Cpu::new(Some("cpu  0 0 0 100 0 0 0 0\n"));
    let reading = cpu.read("cpu  50 0 0 150 0 0 0 0\n").expect("it parses");
    assert_eq!(num(&reading.fields, "utilization"), Some(50.0));
    // A tick that cannot be read leaves what it is compared against alone.
    assert!(cpu.read("nothing").is_err());
    let reading = cpu.read("cpu  75 0 0 225 0 0 0 0\n").expect("it parses");
    assert_eq!(num(&reading.fields, "utilization"), Some(25.0));
}

// --- memory ----------------------------------------------------------------------------

const MEMINFO: &str = "\
MemTotal:       16000000 kB
MemFree:          500000 kB
MemAvailable:    8000000 kB
Buffers:          200000 kB
Cached:          6000000 kB
SwapTotal:       4000000 kB
SwapFree:        3000000 kB
";

#[test]
fn used_is_total_less_available_not_total_less_free() {
    let info = memory::parse(MEMINFO).expect("the sample parses");
    assert_eq!(info.total, 16_000_000 * 1024);
    assert_eq!(info.available, 8_000_000 * 1024);
    assert_eq!(info.used(), 8_000_000 * 1024);
    assert_eq!(info.swap_used(), 1_000_000 * 1024);
}

#[test]
fn a_machine_without_swap_reports_no_swap_rather_than_an_empty_one() {
    let text = "MemTotal: 100 kB\nMemAvailable: 50 kB\nSwapTotal: 0 kB\nSwapFree: 0 kB\n";
    let info = memory::parse(text).expect("the sample parses");
    assert_eq!(info.swap_total, None);
    assert!(matches!(
        memory::percent(info.swap_used(), info.swap_total),
        Value::Absent
    ));
}

#[test]
fn free_stands_in_when_the_kernel_is_too_old_for_available() {
    let text = "MemTotal: 100 kB\nMemFree: 40 kB\n";
    let info = memory::parse(text).expect("the sample parses");
    assert_eq!(info.available, 40 * 1024);
}

#[test]
fn a_percentage_is_a_share_of_the_total() {
    let info = memory::parse(MEMINFO).expect("the sample parses");
    assert!(matches!(
        memory::percent(info.used(), Some(info.total)),
        Value::Num { v, .. } if (number(&v) - 50.0).abs() < f64::EPSILON
    ));
}

#[test]
fn a_meminfo_without_a_total_is_an_error() {
    assert!(memory::parse("MemFree: 40 kB\n").is_err());
    assert!(memory::parse("MemTotal: lots kB\n").is_err());
    assert!(memory::parse("MemTotal: 10 MB\n").is_err());
}

#[test]
fn what_is_wrong_with_the_memory_is_said() {
    let message = |text: &str| memory::parse(text).expect_err("it does not parse").message();
    assert_eq!(
        message("MemFree: 40 kB\n"),
        "/proc/meminfo has no MemTotal line"
    );
    assert!(message("MemTotal: lots kB\n").contains("lots"));
    assert!(message("MemTotal: 10 MB\n").contains("unexpected unit"));
    assert!(message("MemTotal:\n").contains("there is no value"));
}

#[test]
fn memory_is_published_in_bytes_and_shares() {
    let reading = Memory {}.read(MEMINFO).expect("the sample parses");
    assert_eq!(num(&reading.fields, "percent"), Some(50.0));
    assert_eq!(num(&reading.fields, "used"), Some(8_000_000.0 * 1024.0));
}

// --- disk ------------------------------------------------------------------------------

#[test]
fn a_percentage_leaves_the_root_reserve_out_of_the_total() {
    let disk = Disk::new("/".to_string());
    let blocks = Blocks {
        fragment: 4096,
        block: 4096,
        total: 1000,
        free: 400,
        available: 350,
    };
    assert!(disk::is_countable(blocks));
    let fields = disk.read(blocks).fields;
    let percent = num(&fields, "percent").expect("a mounted filesystem has a percentage");
    assert!((0.0..=100.0).contains(&percent), "{percent}");

    // A disk with no room left for an ordinary program reads as full, whatever is still held
    // back for root.
    let space = Space {
        total: 100,
        used: 95,
        available: 0,
        free: 5,
    };
    let usable = space.used + space.available;
    assert_eq!(space.used as f64 * 100.0 / usable as f64, 100.0);
    let full = disk
        .read(Blocks {
            fragment: 1,
            block: 1,
            total: 100,
            free: 5,
            available: 0,
        })
        .fields;
    assert_eq!(num(&full, "percent"), Some(100.0));
}

#[test]
fn the_path_asked_about_is_published() {
    let disk = Disk::new("/".to_string());
    let fields = disk
        .read(Blocks {
            fragment: 512,
            block: 4096,
            total: 10,
            free: 5,
            available: 5,
        })
        .fields;
    assert!(is_text(&fields, "path", "/"));
    assert_eq!(num(&fields, "total"), Some(5120.0));
}

#[test]
fn a_filesystem_no_machine_could_hold_is_not_counted() {
    assert!(!disk::is_countable(Blocks {
        fragment: u64::MAX,
        block: 1,
        total: 2,
        free: 0,
        available: 0,
    }));
}

// --- load ------------------------------------------------------------------------------

#[test]
fn the_three_averages_are_read_and_the_rest_ignored() {
    let load = load::parse("0.63 1.17 1.41 1/4464 160973\n").expect("the sample parses");
    let read: Vec<f64> = [load.one, load.five, load.fifteen]
        .iter()
        .map(|s| s.parse().expect("a number"))
        .collect();
    assert_eq!(read, [0.63, 1.17, 1.41]);
}

#[test]
fn a_line_that_is_not_three_numbers_is_an_error() {
    assert!(load::parse("0.63 1.17\n").is_err());
    assert!(load::parse("busy quiet idle\n").is_err());
    assert!(load::parse("").is_err());
}

#[test]
fn a_load_is_a_share_of_the_processors_there_are() {
    let reading = Load {}.read("2.00 1.00 0.50 1/2 3\n", 4).expect("it parses");
    assert_eq!(num(&reading.fields, "one"), Some(2.0));
    assert_eq!(num(&reading.fields, "percent"), Some(50.0));
    let e = Load {}.read("1 2\n", 4).expect_err("a field is missing");
    assert!(e.message().contains("no field"), "{}", e.message());
}

#[test]
fn the_time_is_what_the_clock_says() {
    let reading = Time {}.read(1_700_000_000_000_000_000);
    assert!(matches!(
        reading.fields.get("now"),
        Some(Value::Time(1_700_000_000_000_000_000))
    ));
}

// --- battery ---------------------------------------------------------------------------

/// The number a file is read as.
fn figure_in(text: Option<String>) -> Option<Number> {
    let value: f64 = text?.trim().parse().ok()?;
    Some(Number {
        bits: value.to_bits(),
    })
}

fn supply(files: &[(&str, &str)]) -> Supply {
    let file = |name: &str| {
        files
            .iter()
            .find(|(n, _)| *n == name)
            .map(|(_, v)| format!("{v}\n"))
    };
    let figure = |name: &str| figure_in(file(name));
    Supply {
        kind: file("type"),
        present: figure("present"),
        status: file("status"),
        energy_now: figure("energy_now"),
        energy_full: figure("energy_full"),
        energy_full_design: figure("energy_full_design"),
        power_now: figure("power_now"),
        voltage_now: figure("voltage_now"),
        charge_now: figure("charge_now"),
        charge_full: figure("charge_full"),
        charge_full_design: figure("charge_full_design"),
        current_now: figure("current_now"),
        charge_control_end_threshold: figure("charge_control_end_threshold"),
        charge_stop_threshold: figure("charge_stop_threshold"),
    }
}

/// A battery of the energy family, as a laptop reports one.
fn energy(status: &'static str, now: &'static str) -> Vec<(&'static str, &'static str)> {
    vec![
        ("type", "Battery"),
        ("present", "1"),
        ("status", status),
        ("energy_now", now),
        ("energy_full", "50000000"),
        ("energy_full_design", "54000000"),
        ("power_now", "10000000"),
    ]
}

fn battery(devices: &[&[(&str, &str)]]) -> Fields {
    let supplies = devices.iter().map(|files| supply(files)).collect();
    Battery::new().read(&supplies).fields
}

fn lasts(fields: &Fields, secs: u64) -> bool {
    matches!(fields.get("time"), Some(Value::Dur(d)) if *d == Duration::from_secs(secs))
}

#[test]
fn charge_is_a_share_of_what_the_battery_holds_at_full() {
    let fields = battery(&[&energy("Discharging", "25000000")]);
    assert_eq!(num(&fields, "percent"), Some(50.0));
    // 50 Wh capacity against 54 Wh when new.
    assert!(matches!(num(&fields, "health"), Some(h) if (h - 92.59).abs() < 0.01));
}

#[test]
fn the_charge_family_becomes_the_energy_family_through_the_voltage() {
    let fields = battery(&[&[
        ("type", "Battery"),
        ("present", "1"),
        ("status", "Discharging"),
        ("charge_now", "2000000"),
        ("charge_full", "4000000"),
        ("current_now", "1000000"),
        ("voltage_now", "12000000"),
    ]]);
    assert_eq!(num(&fields, "percent"), Some(50.0));
    // Two hours of charge left at the rate it is going.
    assert!(lasts(&fields, 7200));
}

#[test]
fn time_left_counts_down_when_discharging_and_up_when_charging() {
    // 25 Wh left at 10 W.
    assert!(lasts(&battery(&[&energy("Discharging", "25000000")]), 9000));
    // 25 Wh still to take on at 10 W.
    assert!(lasts(&battery(&[&energy("Charging", "25000000")]), 9000));
}

#[test]
fn a_battery_that_is_not_moving_has_no_time_until_anything() {
    let mut files = energy("Not charging", "25000000");
    files.retain(|(f, _)| *f != "power_now");
    files.push(("power_now", "0"));
    assert!(is_absent(&battery(&[&files]), "time"));
}

#[test]
fn several_batteries_are_one_number() {
    let fields = battery(&[
        &energy("Discharging", "25000000"),
        &energy("Full", "50000000"),
    ]);
    // 75 Wh of a 100 Wh machine.
    assert_eq!(num(&fields, "percent"), Some(75.0));
    // One cell draining is what the machine is doing, whatever the other says.
    assert!(is_text(&fields, "status", "discharging"));
    // Both cells' draw, added.
    assert_eq!(num(&fields, "power"), Some(20.0));
}

#[test]
fn the_busiest_battery_speaks_for_the_machine() {
    // Draining beats charging beats holding beats full beats unknown.
    let order = [
        Status::Unknown,
        Status::Full,
        Status::NotCharging,
        Status::Charging,
        Status::Discharging,
    ];
    for (i, quieter) in order.iter().enumerate() {
        for busier in &order[i + 1..] {
            assert!(
                busier.urgency() > quieter.urgency(),
                "{busier:?} should outrank {quieter:?}"
            );
        }
    }
}

#[test]
fn a_machine_with_no_battery_reports_nothing_rather_than_failing() {
    let fields = battery(&[&[("type", "Mains"), ("online", "1")]]);
    for name in ["percent", "status", "power", "time", "health"] {
        assert!(
            is_absent(&fields, name),
            "${name} should have nothing to report"
        );
    }
}

#[test]
fn an_empty_bay_is_not_a_flat_battery() {
    let fields = battery(&[&[("type", "Battery"), ("present", "0"), ("status", "Unknown")]]);
    assert!(is_absent(&fields, "percent"));
}

fn whole(n: u128) -> Extended {
    Extended::Finite(Whole::of(Natural::of(n)))
}

#[test]
fn only_a_draining_battery_is_worth_alarming_about() {
    let cases = [
        ("Discharging", 10, State::Critical),
        ("Discharging", 20, State::Warning),
        ("Discharging", 80, State::Idle),
        // The same charge with the charger in is not a problem.
        ("Charging", 10, State::Info),
        ("Full", 100, State::Good),
        ("Not charging", 60, State::Idle),
    ];
    for (status, percent, expected) in cases {
        let total = Total {
            cell: Cell {
                now: whole(percent),
                full: whole(100),
                design: None,
                watts: Some(whole(10)),
                status: Status::parse(status),
                threshold: None,
            },
        };
        assert_eq!(total.state(), expected, "{status} at {percent}%");
    }
}

#[test]
fn a_charge_cap_is_reported_only_when_something_is_capping() {
    let mut capped = energy("Not charging", "40000000");
    capped.push(("charge_control_end_threshold", "80"));
    assert_eq!(num(&battery(&[&capped]), "threshold"), Some(80.0));

    // A battery allowed to fill has no cap worth mentioning.
    let mut open = energy("Charging", "40000000");
    open.push(("charge_control_end_threshold", "100"));
    assert!(is_absent(&battery(&[&open]), "threshold"));
}

#[test]
fn a_battery_held_at_its_threshold_is_not_a_problem() {
    let mut held = energy("Not charging", "40000000");
    held.push(("charge_control_end_threshold", "80"));
    let fields = battery(&[&held]);
    assert!(is_text(&fields, "status", "not charging"));
    // Sitting at a cap for days is working as intended, so there is nothing to alarm about and
    // nothing counting down.
    assert!(is_absent(&fields, "time"));
}

#[test]
fn a_capacity_of_zero_is_not_a_battery() {
    let fields = battery(&[&[
        ("type", "Battery"),
        ("present", "1"),
        ("status", "Unknown"),
        ("energy_now", "0"),
        ("energy_full", "0"),
    ]]);
    assert!(is_absent(&fields, "percent"));
}

#[test]
fn a_draw_has_a_size_and_no_direction() {
    let mut files = energy("Discharging", "25000000");
    files.retain(|(f, _)| *f != "power_now");
    files.push(("power_now", "-5000000"));
    let fields = battery(&[&files]);
    assert_eq!(num(&fields, "power"), Some(5.0));
    assert!(lasts(&fields, 18000));
    assert_eq!(WATT, 1_000_000_000_000);
}

#[test]
fn a_charge_past_full_is_full_and_a_rate_too_small_says_nothing() {
    let mut files = energy("Discharging", "60000000");
    files.retain(|(f, _)| *f != "power_now");
    files.push(("power_now", "1"));
    let fields = battery(&[&files]);
    assert_eq!(num(&fields, "percent"), Some(100.0));
    assert!(is_absent(&fields, "time"));
}

#[test]
fn every_battery_that_is_listed_is_added_up() {
    let one = energy("Discharging", "25000000");
    let supplies: Vec<Supply> = (0..1500).map(|_| supply(&one)).collect();
    let fields = Battery::new().read(&supplies).fields;
    assert_eq!(num(&fields, "percent"), Some(50.0));
    assert_eq!(num(&fields, "power"), Some(15_000.0));
    assert!(lasts(&fields, 9000));
}

#[test]
fn a_figure_is_believed_as_far_as_the_kernel_counts() {
    let files = |now: &'static str, full: &'static str| {
        vec![
            ("type", "Battery"),
            ("status", "Discharging"),
            ("energy_now", now),
            ("energy_full", full),
            ("power_now", full),
        ]
    };
    let fields = battery(&[&files("1000000000001", "2000000000002")]);
    assert_eq!(num(&fields, "percent"), Some(50.0));
    assert!(lasts(&fields, 1800));
    // The largest figure there is, of two batteries of the charge family at as large a voltage.
    let most = "18446744073709551615";
    let huge = [
        ("type", "Battery"),
        ("status", "Discharging"),
        ("charge_now", most),
        ("charge_full", most),
        ("current_now", most),
        ("voltage_now", most),
    ];
    let fields = battery(&[&huge, &huge]);
    assert_eq!(num(&fields, "percent"), Some(100.0));
    assert!(lasts(&fields, 3600));
    // A figure need not be a whole number.
    let fields = battery(&[&files("1.5", "2e0")]);
    assert_eq!(num(&fields, "percent"), Some(75.0));
    assert!(lasts(&fields, 2700));
    // What is no number is no figure.
    assert!(is_absent(&battery(&[&files("half", "2")]), "percent"));
}

#[test]
fn what_floating_point_has_beside_numbers_is_carried_through() {
    let files = |status: &'static str, now: &'static str, full: &'static str, draw: &'static str| {
        vec![
            ("type", "Battery"),
            ("status", status),
            ("energy_now", now),
            ("energy_full", full),
            ("power_now", draw),
            ("charge_stop_threshold", "79.5"),
        ]
    };
    // Endlessly much of something is all of it, and it never runs out.
    let fields = battery(&[&files("Discharging", "inf", "50", "1")]);
    assert_eq!(num(&fields, "percent"), Some(100.0));
    assert!(is_absent(&fields, "time"));
    assert_eq!(num(&fields, "threshold"), Some(79.5));
    // Something is nothing of what is endless.
    let fields = battery(&[&files("Discharging", "50", "inf", "inf")]);
    assert_eq!(num(&fields, "percent"), Some(0.0));
    assert_eq!(num(&fields, "power"), Some(f64::INFINITY));
    assert!(lasts(&fields, 0));
    // Neither of two endless things is any part of the other.
    let fields = battery(&[&files("Charging", "inf", "inf", "1")]);
    assert!(matches!(num(&fields, "percent"), Some(n) if n.is_nan()));
    assert!(lasts(&fields, 0));
    // What is not a number is no capacity, and leaves no other one.
    let fields = battery(&[
        &files("Full", "1", "nan", "1"),
        &energy("Full", "50000000"),
    ]);
    assert!(is_absent(&fields, "percent"));
    // A charge that is not a number is shown as that, and is nothing to be alarmed about.
    let supplies = vec![supply(&files("Discharging", "nan", "50", "nan"))];
    let reading = Battery::new().read(&supplies);
    assert!(matches!(num(&reading.fields, "percent"), Some(n) if n.is_nan()));
    assert!(is_absent(&reading.fields, "time"));
    assert_eq!(reading.state, State::Idle);
    // Less than any number is empty.
    let supplies = vec![supply(&files("Discharging", "-inf", "50", "1"))];
    let reading = Battery::new().read(&supplies);
    assert_eq!(num(&reading.fields, "percent"), Some(0.0));
    assert_eq!(reading.state, State::Critical);
}

#[test]
fn a_battery_below_nothing_is_taken_off_the_others() {
    let mut below = energy("Discharging", "25000000");
    below.retain(|(f, _)| *f != "energy_now");
    below.push(("energy_now", "-5000000"));
    let fields = battery(&[&energy("Full", "50000000"), &below]);
    // 45 Wh of a 100 Wh machine, at 20 W.
    assert_eq!(num(&fields, "percent"), Some(45.0));
    assert!(lasts(&fields, 8100));
    // Alone it is empty, and lasts for no time that could be told.
    let alone = battery(&[&below]);
    assert_eq!(num(&alone, "percent"), Some(0.0));
    assert!(is_absent(&alone, "time"));
}

#[test]
fn natural_numbers_grow_as_far_as_they_have_to() {
    let most = Natural::of(u128::MAX);
    let square = most.times(&most);
    assert!(most.below(&square));
    // (2^128 - 1)^2 is 2^256 - 2^129 + 1.
    let one = Natural::of(1);
    let power = most.plus(&one);
    let expected = power.times(&power).minus(&power.times(&Natural::of(2))).plus(&one);
    assert!(square.same(&expected));
    // A share of it that fits: 2^128 - 1 over 2^65 is 2^63 - 1 and something.
    let by = most.times(&Natural::of(1 << 65));
    assert_eq!(square.quotient(&by, u64::MAX), (1 << 63) - 1);
    assert!(Natural::of(0).is_zero());
    assert!(Natural::written(&"340282366920938463463374607431768211455".chars().collect())
        .same(&most));
    assert!(Natural::power_of_ten(20).same(&Natural::of(100_000_000_000_000_000_000)));
}

// --- what is the same ------------------------------------------------------------------

#[test]
fn quantities_are_the_same_by_value() {
    let over = |secs| Duration::from_secs(secs);
    let rate = |count, secs| Amount::Rate { count, over: over(secs) };
    assert!(rate(0, 1).same(&rate(0, 2)));
    assert!(rate(100, 1).same(&rate(200, 2)));
    assert!(!rate(100, 1).same(&rate(100, 2)));
    assert!(Amount::share(1, 2).same(&Amount::share(50, 100)));
    assert!(!Amount::share(1, 2).same(&Amount::share(51, 100)));
    assert!(Amount::share(1, 2).same(&Amount::Count(50)));
    let ratio = |of, by| Amount::Ratio {
        of: Whole::of(Natural::of(of)),
        by: Natural::of(by),
    };
    assert!(ratio(46_000, 1000).same(&ratio(92_000, 2000)));
    assert!(!ratio(46_000, 1000).same(&ratio(46_000, 2000)));
    assert!(Amount::Signed(-45).same(&Amount::Signed(-45)));
    assert!(!Amount::Signed(-45).same(&Amount::Signed(45)));
    let written = |s: &str| Amount::Written(s.to_string());
    assert!(written("5").same(&written("5.0")));
    assert!(written("+0.50").same(&written(".5")));
    assert!(!written("-5").same(&written("5")));
    assert!(written("1e3").same(&written("1e3")));
    let load = |s: &str, among| Amount::WrittenShare { written: s.to_string(), among };
    assert!(load("1.00", 4).same(&load("2", 8)));
    assert!(!load("1.00", 4).same(&load("1.00", 8)));
    // What is divided by nothing is only what it was worked out from.
    assert!(Amount::share(1, 0).same(&Amount::share(1, 0)));
    assert!(!Amount::share(1, 0).same(&Amount::share(2, 0)));
}

// --- temperature -----------------------------------------------------------------------

fn chip(name: &str, files: &[(&str, &str)]) -> Chip {
    let file = |wanted: String| {
        files
            .iter()
            .find(|(n, _)| *n == wanted)
            .map(|(_, v)| format!("{v}\n"))
    };
    let sensors = (1..=32)
        .map(|i| SensorFiles {
            input: figure_in(file(format!("temp{i}_input"))),
            label: file(format!("temp{i}_label")),
        })
        .collect();
    Chip::read(&format!("{name}\n"), &sensors)
}

fn degrees(milli: Number) -> f64 {
    f64::from_bits(milli.bits) / 1000.0
}

#[test]
fn a_sensor_need_not_read_a_whole_number() {
    let one = chip("k10temp", &[("temp1_input", "45000.5"), ("temp2_input", "-3")]);
    assert_eq!(one.sensors.len(), 1);
    let reading = temperature::reading_of(&one);
    assert_eq!(num(&reading.fields, "temp"), Some(45.0005));
    assert_eq!(num(&reading.fields, "average"), Some(45.0005));
    assert_eq!(reading.state, State::Idle);
    let edge = |input: &str| temperature::reading_of(&chip("a", &[("temp1_input", input)])).state;
    assert_eq!(edge("74999.5"), State::Idle);
    assert_eq!(edge("75000"), State::Warning);
    assert_eq!(edge("89999.5"), State::Warning);
    assert_eq!(edge("90000"), State::Critical);
    // Endlessly hot is hot, and what is not a number beyond that and nothing to alarm about.
    let endless = chip("a", &[("temp1_input", "inf"), ("temp2_input", "1000")]);
    let reading = temperature::reading_of(&endless);
    assert_eq!(num(&reading.fields, "temp"), Some(f64::INFINITY));
    assert_eq!(num(&reading.fields, "average"), Some(f64::INFINITY));
    assert_eq!(reading.state, State::Critical);
    let lost = chip("a", &[("temp1_input", "nan"), ("temp2_input", "inf")]);
    let reading = temperature::reading_of(&lost);
    assert!(matches!(num(&reading.fields, "temp"), Some(n) if n.is_nan()));
    assert!(matches!(num(&reading.fields, "average"), Some(n) if n.is_nan()));
    assert_eq!(reading.state, State::Idle);
}

#[test]
fn the_processor_is_preferred_over_every_other_sensor() {
    let chips = vec![
        chip("acpitz", &[("temp1_input", "40000")]),
        chip("nvme", &[("temp1_input", "38850")]),
        chip(
            "k10temp",
            &[("temp1_input", "46625"), ("temp1_label", "Tctl")],
        ),
        chip("amdgpu", &[("temp1_input", "44000")]),
    ];
    let picked = temperature::pick(&chips, None).expect("a processor sensor is present");
    let chip = &chips[picked];
    assert_eq!(chip.name, "k10temp");
    assert_eq!(degrees(chip.hottest().unwrap().milli), 46.625);
    assert_eq!(chip.hottest().unwrap().label.as_deref(), Some("Tctl"));
}

#[test]
fn a_named_chip_is_read_instead() {
    let chips = vec![
        chip("k10temp", &[("temp1_input", "46625")]),
        chip("amdgpu", &[("temp1_input", "44000")]),
    ];
    assert_eq!(
        chips[temperature::pick(&chips, Some("amdgpu")).unwrap()].name,
        "amdgpu"
    );
    assert!(temperature::pick(&chips, Some("nonesuch")).is_none());
}

#[test]
fn sensors_for_hardware_that_is_not_fitted_are_ignored() {
    // A ThinkPad lists eight and wires up two.
    let chips = vec![chip(
        "thinkpad",
        &[
            ("temp1_input", "46000"),
            ("temp1_label", "CPU"),
            ("temp2_input", "0"),
            ("temp2_label", "GPU"),
            ("temp3_input", "0"),
            ("temp4_input", ""),
        ],
    )];
    let chip = &chips[temperature::pick(&chips, Some("thinkpad")).expect("the chip is present")];
    assert_eq!(chip.sensors.len(), 1, "only the wired-up sensor counts");
    assert_eq!(degrees(chip.hottest().unwrap().milli), 46.0);
    // An unfitted sensor reading zero must not drag the average down.
    let reading = temperature::reading_of(chip);
    assert_eq!(num(&reading.fields, "average"), Some(46.0));
}

#[test]
fn the_hottest_sensor_on_the_chip_is_the_one_reported() {
    let chips = vec![chip(
        "k10temp",
        &[
            ("temp1_input", "40000"),
            ("temp1_label", "Tctl"),
            ("temp2_input", "60000"),
            ("temp2_label", "Tccd1"),
        ],
    )];
    let chip = &chips[temperature::pick(&chips, Some("k10temp")).expect("the chip is present")];
    assert_eq!(degrees(chip.hottest().unwrap().milli), 60.0);
    assert_eq!(chip.hottest().unwrap().label.as_deref(), Some("Tccd1"));
    let reading = temperature::reading_of(chip);
    assert_eq!(num(&reading.fields, "average"), Some(50.0));
}

#[test]
fn a_chip_that_cannot_be_found_is_reported_rather_than_drawn_empty() {
    let chips = vec![chip("nvme", &[("temp1_input", "38850")])];
    let e = Temperature::new(None)
        .read(&chips)
        .expect_err("a machine with no processor sensor cannot be read");
    assert!(e.message().contains("processor"), "{}", e.message());

    let e = Temperature::new(Some("nonesuch".to_string()))
        .read(&chips)
        .expect_err("a chip that is not there is a mistake");
    assert!(e.message().contains("nonesuch"), "{}", e.message());
}

#[test]
fn how_hot_is_worth_alarming_about() {
    let chips = vec![chip("k10temp", &[("temp1_input", "95000")])];
    let state = |chips: Vec<Chip>| {
        Temperature::new(None)
            .read(&chips)
            .expect("reads")
            .state
    };
    assert_eq!(state(chips), State::Critical);
    assert_eq!(
        state(vec![chip("coretemp", &[("temp1_input", "75000")])]),
        State::Warning
    );
    assert_eq!(
        state(vec![chip("zenpower", &[("temp1_input", "74999")])]),
        State::Idle
    );
}

// --- backlight -------------------------------------------------------------------------

fn names(list: &[&str]) -> Vec<String> {
    list.iter().map(|s| s.to_string()).collect()
}

#[test]
fn a_panel_is_preferred_over_a_keyboard() {
    let all = names(&["kbd_backlight", "intel_backlight"]);
    let picked = backlight::pick(&all).expect("a controller is present");
    assert_eq!(all[picked], "intel_backlight");
}

#[test]
fn a_machine_with_no_backlight_class_is_not_an_error() {
    assert_eq!(backlight::pick(&Vec::new()), None);
}

#[test]
fn brightness_is_a_share_of_the_maximum() {
    let mut collector = Backlight::new();
    let device = collector
        .resolve(&names(&["acpi_video0"]))
        .expect("there is one");
    let reading = collector
        .read(Some(&Controller {
            name: device,
            brightness: "48\n".to_string(),
            max_brightness: "96\n".to_string(),
        }))
        .expect("the fixture reads");
    assert!(matches!(
        reading.fields.primary(),
        Some(Value::Num { v, .. }) if (number(v) - 50.0).abs() < f64::EPSILON
    ));
}

#[test]
fn a_missing_controller_reports_nothing_rather_than_failing() {
    let mut collector = Backlight::new();
    assert!(collector.resolve(&Vec::new()).is_none());
    let reading = collector
        .read(None)
        .expect("an absent backlight is not an error");
    assert!(matches!(reading.fields.primary(), Some(Value::Absent)));
}

fn panel(brightness: u64, max: u64) -> Controller {
    Controller {
        name: "intel_backlight".to_string(),
        brightness: format!("{brightness}\n"),
        max_brightness: format!("{max}\n"),
    }
}

/// What a scroll writes to a panel, or what it goes on holding.
fn scrolled(current: u64, max: u64, step: f64) -> u64 {
    let step = Number {
        bits: step.to_bits(),
    };
    backlight::adjust(Some(&panel(current, max)), step)
        .expect("the panel reads")
        .unwrap_or(current)
}

#[test]
fn a_scroll_moves_a_share_of_the_whole_range() {
    assert_eq!(scrolled(48, 96, 25.0), 72);
    assert_eq!(scrolled(72, 96, -25.0), 48);
}

#[test]
fn a_step_never_runs_past_either_end() {
    assert_eq!(scrolled(90, 96, 50.0), 96);
    assert_eq!(scrolled(96, 96, -500.0), 0);
    assert_eq!(scrolled(90, 96, f64::INFINITY), 96);
    assert_eq!(scrolled(90, 96, f64::NEG_INFINITY), 0);
    assert_eq!(scrolled(90, 96, 1e300), 96);
    assert_eq!(scrolled(90, 96, -1e300), 0);
    assert_eq!(scrolled(u64::MAX, 1, -1e17), 1);
    assert_eq!(scrolled(u64::MAX, u64::MAX, -1e17), 0);
}

#[test]
fn a_step_too_small_to_land_on_a_new_number_still_moves() {
    // A panel counting to ten has no 5% to give, and a scroll that does nothing is a broken
    // scroll rather than a subtle one.
    assert_eq!(scrolled(5, 10, 5.0), 6);
    assert_eq!(scrolled(6, 10, -5.0), 5);
    assert_eq!(scrolled(5, 10, 1e-300), 6);
    assert_eq!(scrolled(5, 10, -1e-300), 4);
    // At either end there is nowhere left to go.
    assert_eq!(scrolled(10, 10, 5.0), 10);
    assert_eq!(scrolled(0, 10, -5.0), 0);
}

#[test]
fn a_step_lands_on_the_nearest_number() {
    // Half way between two numbers it lands on the larger.
    assert_eq!(scrolled(10, 30, 5.0), 12);
    assert_eq!(scrolled(10, 30, -5.0), 9);
    assert_eq!(scrolled(40_000, 96_000, 2.5), 42_400);
    assert_eq!(scrolled(40_000, 96_000, -0.1), 39_904);
}

#[test]
fn a_machine_with_no_backlight_says_so_rather_than_writing_somewhere_else() {
    let five = Number {
        bits: 5.0f64.to_bits(),
    };
    let nowhere = backlight::adjust(None, five).expect_err("there is nothing to change");
    assert_eq!(nowhere.message(), "no backlight controller to change");
    let dark = backlight::adjust(Some(&panel(1, 0)), five).expect_err("it cannot shine");
    assert_eq!(
        dark.message(),
        "intel_backlight reports a maximum brightness of zero"
    );
}

#[test]
fn a_controller_is_kept_while_it_is_there() {
    let mut collector = Backlight::new();
    let two = names(&["b", "a"]);
    assert_eq!(collector.resolve(&two).as_deref(), Some("a"));
    assert_eq!(
        collector.resolve(&names(&["c", "a"])).as_deref(),
        Some("a")
    );
    assert_eq!(collector.resolve(&names(&["c"])).as_deref(), Some("c"));
    assert_eq!(
        backlight::watch_path("/sys/class/backlight", &two).as_deref(),
        Some("/sys/class/backlight/a/actual_brightness")
    );
}

#[test]
fn a_panel_that_cannot_shine_says_so() {
    let read = |brightness: &str, max: &str| {
        Backlight::new()
            .read(Some(&Controller {
                name: "panel".to_string(),
                brightness: brightness.to_string(),
                max_brightness: max.to_string(),
            }))
            .expect_err("it cannot be read")
            .message()
    };
    assert_eq!(
        read("1", "0"),
        "panel reports a maximum brightness of zero"
    );
    assert!(read("x", "9").contains("brightness"));
    assert!(read("1", "y").contains("max_brightness"));
}

// --- network ---------------------------------------------------------------------------

fn interface(name: &str, hardware: bool, state: &str, rx: u64, tx: u64) -> Interface {
    Interface {
        name: name.to_string(),
        device: hardware,
        statistics: true,
        operstate: Some(format!("{state}\n")),
        rx_bytes: Some(format!("{rx}\n")),
        tx_bytes: Some(format!("{tx}\n")),
    }
}

#[test]
fn container_interfaces_are_not_the_network() {
    let all = vec![
        interface("lo", false, "unknown", 1, 1),
        interface("docker0", false, "up", 1, 1),
        interface("veth17ba980", false, "up", 1, 1),
        interface("veth1a436d0", false, "up", 1, 1),
        interface("wlp3s0", true, "up", 100, 200),
    ];
    let picked = network::pick(&all).expect("the wireless card is hardware");
    assert_eq!(all[picked].name, "wlp3s0");
}

#[test]
fn an_interface_that_is_up_beats_one_that_is_not() {
    let all = vec![
        // Sorts first by name, so only the link state can put the other ahead.
        interface("enp2s0f0", true, "down", 0, 0),
        interface("wlp3s0", true, "up", 100, 200),
    ];
    assert_eq!(all[network::pick(&all).unwrap()].name, "wlp3s0");
}

#[test]
fn a_rate_needs_two_samples() {
    let all = vec![interface("wlp3s0", true, "up", 1000, 2000)];
    let mut net = Network::new(Some("wlp3s0".to_string()));

    // Nothing to divide by yet, so the first tick reports no rate rather than a wrong one
    // worked out against the interface's whole uptime.
    let first = net
        .read(&all, at(100), None, None)
        .expect("the fixture reads")
        .fields;
    assert!(is_absent(&first, "down"));
    assert_eq!(num(&first, "received"), Some(1000.0));

    // Two seconds later, a thousand more bytes in.
    let previous = net.previous.as_mut().expect("the first sample was kept");
    previous.at = at(98);
    previous.received = 0;
    previous.sent = 0;

    let second = net
        .read(&all, at(100), None, None)
        .expect("the fixture reads")
        .fields;
    let down = num(&second, "down").expect("a rate");
    assert!((down - 500.0).abs() < 1.0, "{down} should be about 500 B/s");
}

#[test]
fn network_counters_going_backwards_report_nothing_rather_than_nonsense() {
    let sample = |received: u64, secs: u64| Sample {
        device: "wlp3s0".to_string(),
        state: "up".to_string(),
        received,
        sent: 100,
        at: at(secs),
    };
    let now = sample(100, 10);
    let previous = sample(1000, 9);
    assert!(now.rate(&previous, true).is_none());
    assert!(sample(100, 9).rate(&sample(100, 9), true).is_none());
}

#[test]
fn naming_an_interface_that_is_not_there_is_reported() {
    let all = vec![interface("wlp3s0", true, "up", 1, 1)];
    let mut net = Network::new(Some("nonesuch".to_string()));
    let e = net
        .read(&all, at(1), None, None)
        .expect_err("an interface that is not there is a mistake");
    assert!(e.message().contains("nonesuch"), "{}", e.message());
}

#[test]
fn a_machine_with_no_hardware_interface_reports_nothing() {
    let all = vec![interface("lo", false, "unknown", 0, 0)];
    let mut net = Network::new(None);
    let fields = net
        .read(&all, at(1), None, None)
        .expect("this is not an error")
        .fields;
    assert!(is_absent(&fields, "device"));
}

#[test]
fn a_switch_of_interface_reports_no_rate() {
    let mut net = Network::new(None);
    let cable = vec![
        interface("eth0", true, "up", 5_000_000, 1),
        interface("wlan0", true, "down", 0, 0),
    ];
    net.read(&cable, at(1), None, None).expect("reads");
    let radio = vec![
        interface("eth0", true, "down", 5_000_000, 1),
        interface("wlan0", true, "up", 9_000_000, 1),
    ];
    let reading = net
        .read(&radio, at(2), Some("Cafe".to_string()), Some(-45))
        .expect("reads");
    assert!(is_text(&reading.fields, "device", "wlan0"));
    assert!(is_absent(&reading.fields, "down"));
    assert!(is_text(&reading.fields, "ssid", "Cafe"));
    assert_eq!(num(&reading.fields, "dbm"), Some(-45.0));
    assert_eq!(reading.state, State::Good);
}

#[test]
fn a_counter_that_cannot_be_read_says_which() {
    let mut one = interface("eth0", true, "up", 1, 1);
    one.rx_bytes = None;
    let e = Sample::read(&one, at(1)).expect_err("there is no counter");
    assert_eq!(e.message(), "rx_bytes could not be read");
    one.rx_bytes = Some("1".to_string());
    one.tx_bytes = Some("many".to_string());
    let e = Sample::read(&one, at(1)).expect_err("that is no counter");
    assert!(e.message().contains("tx_bytes"), "{}", e.message());
}

#[test]
fn a_radio_is_opened_once_and_a_cable_is_never_asked() {
    assert_eq!(Radio::Unopened.step(false), RadioStep::Skip);
    assert_eq!(Radio::Unopened.step(true), RadioStep::OpenAndAsk);
    assert_eq!(Radio::opened(true).step(true), RadioStep::Ask);
    assert_eq!(Radio::opened(false).step(true), RadioStep::Skip);
    assert_eq!(Radio::Open.asked(false), Radio::Unopened);
    assert_eq!(Radio::Open.asked(true), Radio::Open);
}

// --- media -----------------------------------------------------------------------------

fn playing(status: &str, title: Option<&str>) -> Playing {
    Playing {
        title: title.map(str::to_string),
        artist: None,
        album: None,
        status: status.to_string(),
        player: None,
    }
}

#[test]
fn a_player_that_is_playing_beats_one_that_is_paused() {
    assert!(
        playing("playing", Some("a song")).interest()
            > playing("paused", Some("another")).interest()
    );
    assert!(
        playing("paused", Some("a song")).interest()
            > playing("stopped", Some("another")).interest()
    );
}

#[test]
fn a_player_with_nothing_loaded_is_worth_nothing() {
    assert_eq!(playing("stopped", None).interest(), 0);
    // A browser tab that has stopped still holds the last thing it played, and that is worth
    // showing when nothing else is.
    assert!(playing("stopped", Some("a song")).interest() > 0);
}

#[test]
fn every_command_survives_the_pipe() {
    for command in [
        MediaCommand::PlayPause,
        MediaCommand::Next,
        MediaCommand::Previous,
    ] {
        let byte = match command {
            MediaCommand::PlayPause => 0,
            MediaCommand::Next => 1,
            MediaCommand::Previous => 2,
        };
        assert_eq!(command.to_byte(), byte);
        assert_eq!(MediaCommand::from_byte(byte), Some(command));
    }
    assert_eq!(MediaCommand::from_byte(9), None);
}

#[test]
fn a_player_says_what_it_is_playing() {
    let text = |s: &str| Reply::Str(s.to_string());
    let metadata = Reply::Dict(vec![
        (text("xesam:title"), text("Purple Haze")),
        (
            text("xesam:artist"),
            Reply::List(vec![text("Hendrix"), text("Redding")]),
        ),
    ]);
    let reply = vec![Reply::Dict(vec![
        (text("Metadata"), metadata),
        (text("PlaybackStatus"), text("Playing")),
    ])];
    let said = media::asked(&reply, Some("A Player".to_string())).expect("it answered");
    assert_eq!(said.title.as_deref(), Some("Purple Haze"));
    assert_eq!(said.artist.as_deref(), Some("Hendrix"));
    assert_eq!(said.album, None);
    assert_eq!(said.status, "playing");
    assert_eq!(said.player.as_deref(), Some("A Player"));
    assert!(media::asked(&Vec::new(), None).is_none());
    // One that does not say is stopped.
    let said = media::asked(&vec![Reply::Dict(Vec::new())], None).expect("it answered");
    assert_eq!(said.status, "stopped");
}

#[test]
fn only_players_are_looked_at_and_the_keenest_is_shown() {
    let text = |s: &str| Reply::Str(s.to_string());
    let names = vec![Reply::List(vec![
        text("org.freedesktop.DBus"),
        text("org.mpris.MediaPlayer2.one"),
        text(":1.4"),
        text("org.mpris.MediaPlayer2.two"),
    ])];
    assert_eq!(
        media::players(&names),
        ["org.mpris.MediaPlayer2.one", "org.mpris.MediaPlayer2.two"]
    );

    let mut media = Media::new();
    let found = vec![
        ("one".to_string(), playing("paused", Some("a"))),
        ("two".to_string(), playing("playing", Some("b"))),
        ("three".to_string(), playing("playing", Some("c"))),
    ];
    let reading = media.publish(&found).expect("something new");
    assert!(is_text(&reading.fields, "title", "b"));
    assert_eq!(media.name.as_deref(), Some("two"));
    assert!(media.publish(&found).is_none(), "nothing has changed");
    let reading = media.publish(&Vec::new()).expect("it has gone");
    assert!(is_absent(&reading.fields, "title"));
    assert!(media.name.is_none());
}

// --- audio -----------------------------------------------------------------------------

/// The names come from real cards: a profile puts the socket in the sink's own name, while a
/// card with routes puts it in the route's.
#[test]
fn a_socket_is_recognised_however_the_card_spells_it() {
    for (name, want) in [
        ("analog-output-headphones", "headphones"),
        ("[Out] Headphones", "headphones"),
        (
            "alsa_output.pci-0000_06_00.6.HiFi__Headphones__sink",
            "headphones",
        ),
        ("analog-output-speaker", "speaker"),
        (
            "alsa_output.pci-0000_06_00.6.HiFi__Speaker__sink",
            "speaker",
        ),
        ("[Out] Speaker", "speaker"),
        ("hdmi-output-0", "hdmi"),
        ("analog-output-lineout", "line-out"),
        ("bluez_output.AC_12_2F_00_11_22.1", "bluetooth"),
    ] {
        assert_eq!(port_of(name), want, "for {name:?}");
    }
}

/// A headset over Bluetooth is worth calling headphones: what a person wants to see is that
/// the sound is on their head, not which radio carried it there.
#[test]
fn a_bluetooth_headset_counts_as_headphones() {
    assert_eq!(port_of("bluez_output.XX.headset-head-unit"), "headphones");
}

/// A card nobody has taught us about keeps a word of its own rather than being called speakers
/// and quietly showing the wrong icon.
#[test]
fn an_unknown_socket_is_not_guessed_at() {
    assert_eq!(port_of("some-vendor-thing"), "other");
    assert_eq!(port_of(""), "other");
}

fn percent(v: f64) -> Number {
    Number { bits: v.to_bits() }
}

fn levels(volume: f64, muted: bool) -> Levels {
    Levels {
        volume: percent(volume),
        muted,
        channels: 2,
    }
}

#[test]
fn the_default_output_is_the_one_that_speaks() {
    let mut sinks = Sinks::new();
    sinks.sink_added(7, "one".to_string(), Some("Speaker".to_string()));
    sinks.sink_added(8, "two".to_string(), None);
    assert!(sinks.sink_levels(7, levels(40.0, false)).is_none());
    assert!(sinks
        .metadata(Some("default.audio.source"), Some("{\"name\":\"one\"}"))
        .is_none());

    let reading = sinks
        .metadata(Some("default.audio.sink"), Some("{\"name\":\"one\"}"))
        .expect("there is a default now");
    assert_eq!(num(&reading.fields, "volume"), Some(40.0));
    assert!(matches!(
        reading.fields.get("muted"),
        Some(Value::Flag(false))
    ));
    assert!(is_text(&reading.fields, "device", "Speaker"));
    assert!(is_text(&reading.fields, "port", "other"));

    assert!(sinks.sink_levels(7, levels(40.0, false)).is_none());
    assert!(sinks.sink_levels(7, levels(40.0, true)).is_some());
    // What is not an object with a name in it names nothing.
    assert!(sinks.metadata(Some("default.audio.sink"), Some("one")).is_none());
    assert!(sinks.default.is_none());
    assert!(sinks.removed(99).is_none());
}

#[test]
fn a_hardware_output_is_read_and_set_on_its_cards_route() {
    let mut sinks = Sinks::new();
    sinks.sink_added(7, "one".to_string(), None);
    sinks.card_added(3);
    sinks.default_is(Some("one".to_string()));
    sinks.sink_levels(7, levels(100.0, false));
    sinks.sink_described(7, card_of(Some("3"), Some("1")));
    let reading = sinks
        .card_route(
            3,
            1,
            Route {
                index: 5,
                levels: levels(20.0, false),
                name: Some("analog-output-headphones".to_string()),
            },
        )
        .expect("the route is what speaks");
    assert_eq!(num(&reading.fields, "volume"), Some(20.0));
    assert!(is_text(&reading.fields, "port", "headphones"));

    let change = sinks.apply(AudioCommand::ToggleMute).expect("it can be set");
    assert_eq!(
        change.target,
        Target::Route {
            card: 3,
            index: 5,
            output: 1
        }
    );
    assert!(matches!(change.setting, Setting::Mute(true)));
    let change = sinks
        .apply(AudioCommand::Volume(percent(5.0)))
        .expect("it can be set");
    assert!(matches!(
        change.setting,
        Setting::Volume { from, step, channels: 2 }
            if from == percent(20.0) && step == percent(5.0)
    ));

    let reading = sinks.removed(3).expect("the card has gone");
    assert_eq!(num(&reading.fields, "volume"), Some(100.0));
    assert_eq!(
        sinks.apply(AudioCommand::ToggleMute).expect("a node").target,
        Target::Node(7)
    );
}

#[test]
fn only_a_whole_outward_route_is_one() {
    let props = || {
        RouteProperty::Props(vec![
            LevelProperty::Channels {
                count: 2,
                loudest: Some(percent(45.0)),
            },
            LevelProperty::Other,
            LevelProperty::Mute(false),
        ])
    };
    let whole = vec![
        RouteProperty::Index(4),
        RouteProperty::Device(2),
        RouteProperty::Outward(true),
        props(),
        RouteProperty::Name("hdmi-output-0".to_string()),
    ];
    let (output, route) = route_of(&whole).expect("it says everything");
    assert_eq!((output, route.index), (2, 4));
    assert_eq!(route.levels.channels, 2);
    assert_eq!(route.name.as_deref(), Some("hdmi-output-0"));
    let inward = vec![
        RouteProperty::Index(4),
        RouteProperty::Device(2),
        RouteProperty::Outward(false),
        props(),
    ];
    assert!(route_of(&inward).is_none());
    assert!(levels_in(&vec![LevelProperty::Mute(true)]).is_none());
    assert_eq!(card_of(Some("3"), Some("-1")), Some((3, -1)));
    assert_eq!(card_of(Some("3"), Some("2147483648")), None);
    assert_eq!(card_of(None, Some("1")), None);
}

// --- reading away from the bar's thread ------------------------------------------------

#[test]
fn every_watchable_worker_keeps_a_trigger_for_kernel_notifications() {
    let all = Which::all_watchable();
    let workers: Vec<&Which> = all.iter().filter(|which| which.blocking()).collect();
    assert!(!workers.is_empty(), "the assertion must cover a worker");
    for which in workers {
        assert!(
            needs_trigger(which, false),
            "{} has no trigger",
            which.name()
        );
    }
    assert!(!needs_trigger(&Which::Cpu, false));
    assert!(needs_trigger(&Which::Cpu, true));
}

#[test]
fn a_source_that_fails_is_left_alone_for_longer() {
    let second = Duration::from_secs(1);
    let mut reader = Reader::new(&Which::Disk("/".to_string()), second, false);
    assert_eq!(reader.next(Happened::Begun), Next::Read);
    assert_eq!(reader.next(Happened::Took(false)), Next::Send);
    assert_eq!(
        reader.next(Happened::Sent),
        Next::Sleep(Duration::from_secs(2))
    );
    assert_eq!(reader.next(Happened::Took(false)), Next::Send);
    assert_eq!(
        reader.next(Happened::Sent),
        Next::Sleep(Duration::from_secs(4))
    );
    reader.next(Happened::Took(true));
    assert_eq!(reader.next(Happened::Sent), Next::Sleep(second));
    assert_eq!(reader.next(Happened::Unheard), Next::Stop);

    let mut reader = Reader::new(&Which::Battery, second, false);
    assert_eq!(reader.next(Happened::Sent), Next::AwaitAskFor(second));
    assert_eq!(reader.next(Happened::Unasked), Next::Sleep(second));
    assert_eq!(reader.next(Happened::Asked), Next::Read);
}

#[test]
fn every_watchable_source_names_a_file_or_none_at_all() {
    // Whether the hardware is here decides the answer, so only the shape is checked: a path
    // that is offered has to be one that could be opened.
    let panel = backlight::watch_path("/sys/class/backlight", &names(&["intel_backlight"]));
    for backlight in [None, panel] {
        for which in Which::all_watchable() {
            if let Some(Watch::Attribute(path)) = which.watch(backlight.clone()) {
                assert!(
                    path.starts_with('/'),
                    "{} offers a relative path",
                    which.describe()
                );
            }
        }
    }
}

#[test]
fn an_empty_attribute_is_a_file_that_has_gone() {
    assert_eq!(consumed(Some("")), Report::Gone);
    assert_eq!(consumed(Some("\n")), Report::Gone);
    assert_eq!(consumed(None), Report::Gone);
    assert_eq!(consumed(Some("42\n")), Report::Moved);
}

#[test]
fn what_is_lost_is_said_and_what_stays_is_kept() {
    let watched = vec![Which::Backlight, Which::Battery, Which::Cpu];
    let sifted = sift(&watched, &vec![Report::Moved, Report::Gone, Report::Quiet]);
    assert_eq!(sifted.kept, [0, 2]);
    assert_eq!(sifted.events.len(), 2);
    assert!(matches!(&sifted.events[0], Event::Changed(Which::Backlight)));
    assert!(matches!(&sifted.events[1], Event::Lost(Which::Battery)));
    let left = abandon(&watched);
    assert_eq!(left.len(), 3);
    assert!(left.iter().all(|e| matches!(e, Event::Lost(_))));
    assert_eq!(woken(1, false), Woken::Look);
    assert_eq!(woken(-1, true), Woken::Again);
    assert_eq!(woken(-1, false), Woken::Stop);
}

#[test]
fn a_unit_goes_with_every_number() {
    let reading = Memory {}.read(MEMINFO).expect("the sample parses");
    assert!(matches!(
        reading.fields.get("used"),
        Some(Value::Num {
            unit: Unit::Bytes,
            ..
        })
    ));
}
