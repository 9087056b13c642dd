//! What the sources show of what the kernel says.

use crate::collect::backlight;
use crate::collect::battery::{self, CellView, Status};
use crate::collect::cpu::{self, Times};
use crate::collect::disk::{self, Blocks};
use crate::collect::load;
use crate::collect::memory::{self, Info};
use crate::collect::network::{self, Interface, SampleView};
use crate::collect::temperature::{self, ChipView, SensorView};
use crate::extended::{in_steps, ExtendedView};
use crate::status::{AmountView, ReadingView, State, Unit, ValueView};
use crate::text::{lines_of, natural, parted, trimmed, words_of};
use vstd::arithmetic::power2::pow2;
use vstd::prelude::*;

verus! {

/// Whether a reading says this under a name.
pub open spec fn says(r: ReadingView, name: Seq<char>, v: ValueView) -> bool {
    r.fields.values.dom().contains(name) && r.fields.values[name] == v
}

/// So many percent, as one count of another.
pub open spec fn percent(part: int, whole: int) -> ValueView {
    ValueView::Num { v: AmountView::Share { part, whole }, unit: Unit::Percent }
}

/// So many bytes.
pub open spec fn bytes(n: int) -> ValueView {
    ValueView::Num { v: AmountView::Count(n), unit: Unit::Bytes }
}

// The processor.

/// The processor is as busy as the time between two samples that it did not idle, of all of it.
/// The first sample says nothing, and neither do two that no time lies between.
pub proof fn law_the_processor_is_busy_when_it_does_not_idle(previous: Times, now: Times)
    ensures
        says(cpu::shown(None, now), "utilization"@, ValueView::Absent),
        previous.total < now.total && previous.idle <= now.idle && now.idle - previous.idle
            <= now.total - previous.total ==> says(
            cpu::shown(Some(previous), now),
            "utilization"@,
            percent(
                (now.total - previous.total) - (now.idle - previous.idle),
                now.total - previous.total,
            ),
        ),
        now.total <= previous.total ==> says(
            cpu::shown(Some(previous), now),
            "utilization"@,
            ValueView::Absent,
        ),
        cpu::shown(Some(previous), now).fields.primary == Some("utilization"@),
{
}

proof fn lemma_aggregate(all: Seq<Seq<char>>, from: int)
    requires
        0 <= from <= all.len(),
    ensures
        cpu::aggregate(all, from) matches Some(line) ==> exists|i: int|
            from <= i < all.len() && #[trigger] all[i] == line && line.len() >= 4 && line.take(4)
                == "cpu "@,
    decreases all.len() - from,
{
    if from < all.len() {
        reveal_strlit("cpu ");
        if crate::text::stands_at(all[from], "cpu "@, 0) {
            assert(all[from].take(4) =~= all[from].subrange(0, 4));
            assert(all[from] == all[from]);
        } else {
            lemma_aggregate(all, from + 1);
        }
    }
}

proof fn lemma_counters(words: Seq<Seq<char>>, from: int)
    requires
        0 <= from <= words.len(),
        cpu::counters(words, from) is Ok,
    ensures
        cpu::counters(words, from)->Ok_0.len() == words.len() - from,
        forall|i: int|
            0 <= i < words.len() - from ==> natural(words[i + from], u64::MAX as nat) == Some(
                #[trigger] cpu::counters(words, from)->Ok_0[i],
            ),
    decreases words.len() - from,
{
    if from < words.len() {
        lemma_counters(words, from + 1);
        let rest = cpu::counters(words, from + 1)->Ok_0;
        let all = cpu::counters(words, from)->Ok_0;
        assert forall|i: int| 0 <= i < words.len() - from implies natural(
            words[i + from],
            u64::MAX as nat,
        ) == Some(#[trigger] all[i]) by {
            if i > 0 {
                assert(all[i] == rest[i - 1]);
                assert(words[i + from] == words[(i - 1) + (from + 1)]);
            }
        }
    }
}

/// The numbers behind the first word of a line.
pub open spec fn counters_of(line: Seq<char>) -> Seq<nat> {
    Seq::new(
        (words_of(line).len() - 1) as nat,
        |i: int| natural(words_of(line)[i + 1], u64::MAX as nat)->0,
    )
}

/// The counters of the processor are those of the line that starts with its name: all of them
/// together are its time, and the fourth and the fifth together its idle time.
pub proof fn law_idle_time_is_the_fourth_and_the_fifth_counter(text: Seq<char>)
    requires
        cpu::times_of(text) is Ok,
    ensures
        exists|line: Seq<char>|
            {
                let values = counters_of(line);
                let all = values.fold_left(0nat, |a: nat, b: nat| a + b);
                &&& #[trigger] lines_of(text).contains(line)
                &&& line.len() >= 4 && line.take(4) == "cpu "@
                &&& values.len() >= 4
                &&& all <= u128::MAX ==> cpu::times_of(text)->Ok_0.total == all
                &&& cpu::times_of(text)->Ok_0.idle == values[3] + if values.len() > 4 {
                    values[4]
                } else {
                    0
                }
            },
{
    let all = lines_of(text);
    lemma_aggregate(all, 0);
    let line = cpu::aggregate(all, 0)->0;
    let i = choose|i: int| 0 <= i < all.len() && #[trigger] all[i] == line;
    assert(all.contains(line));
    let words = words_of(line);
    let values = cpu::counters(words, 1)->Ok_0;
    assert(words.len() > 0);
    lemma_counters(words, 1);
    assert(values =~= counters_of(line)) by {
        assert forall|i: int| 0 <= i < values.len() implies values[i] == counters_of(line)[i] by {
            assert(natural(words[i + 1], u64::MAX as nat) == Some(values[i]));
        }
    }
    lemma_sum(values);
    assert(natural(words[4], u64::MAX as nat) == Some(values[3]));
    if values.len() > 4 {
        assert(natural(words[5], u64::MAX as nat) == Some(values[4]));
    }
}

proof fn lemma_sum(values: Seq<nat>)
    ensures
        values.fold_left(0nat, |a: nat, b: nat| a + b) == cpu::sum(values),
    decreases values.len(),
{
    if values.len() > 0 {
        lemma_sum(values.drop_last());
    }
}

// Memory.

/// Memory that is in use is what is not available of all there is, and never less than none;
/// swap says nothing where there is none.
pub proof fn law_memory_in_use_is_what_is_not_available(i: Info)
    ensures
        says(memory::shown(i), "total"@, bytes(i.total as int)),
        says(memory::shown(i), "available"@, bytes(i.available as int)),
        i.available <= i.total ==> says(
            memory::shown(i),
            "used"@,
            bytes(i.total - i.available),
        ),
        i.available <= i.total && i.total > 0 ==> says(
            memory::shown(i),
            "percent"@,
            percent(i.total - i.available, i.total as int),
        ),
        i.available > i.total ==> says(memory::shown(i), "used"@, bytes(0)),
        i.swap_total matches Some(t) ==> says(memory::shown(i), "swap_total"@, bytes(t as int)),
        i.swap_total matches Some(t) ==> (i.swap_free <= t ==> says(
            memory::shown(i),
            "swap_used"@,
            bytes(t - i.swap_free),
        )),
        i.swap_total matches Some(t) ==> (0 < t && i.swap_free <= t ==> says(
            memory::shown(i),
            "swap_percent"@,
            percent(t - i.swap_free, t as int),
        )),
        i.swap_total is None ==> says(memory::shown(i), "swap_total"@, ValueView::Absent) && says(
            memory::shown(i),
            "swap_used"@,
            ValueView::Absent,
        ) && says(memory::shown(i), "swap_percent"@, ValueView::Absent),
        memory::shown(i).fields.primary == Some("percent"@),
{
    reveal_strlit("percent");
    reveal_strlit("used");
    reveal_strlit("total");
    reveal_strlit("available");
    reveal_strlit("swap_percent");
    reveal_strlit("swap_used");
    reveal_strlit("swap_total");
    assert("percent"@.len() == 7 && "used"@.len() == 4 && "total"@.len() == 5);
    assert("swap_percent"@.len() == 12 && "swap_used"@.len() == 9 && "swap_total"@.len() == 10);
    assert("available"@.len() == 9 && "available"@[0] != "swap_used"@[0]);
}

/// What stands behind the first colon of a line.
pub open spec fn behind_colon(line: Seq<char>) -> Seq<char> {
    match parted(line, ':') {
        Some((_, rest)) => rest,
        None => Seq::empty(),
    }
}

proof fn lemma_last_said(all: Seq<Seq<char>>, name: Seq<char>, upto: int, i: int)
    requires
        0 <= i < upto <= all.len(),
        parted(all[i], ':') matches Some((key, _)) && key == name,
        memory::size_of(behind_colon(all[i]), name) is Ok,
        forall|j: int|
            i < j < upto ==> !(parted(#[trigger] all[j], ':') matches Some((key, _)) && key == name),
    ensures
        memory::last_said(all, name, upto) == Some(
            memory::size_of(behind_colon(all[i]), name)->Ok_0,
        ),
    decreases upto,
{
    if i < upto - 1 {
        lemma_last_said(all, name, upto - 1, i);
        assert(!(parted(all[upto - 1], ':') matches Some((key, _)) && key == name));
    }
}

/// A line of memory is so many kilobytes of a thousand and twenty-four, under its own name and
/// no other: what is read as the total is what the line of the total says.
pub proof fn law_memory_is_counted_in_kilobytes(text: Seq<char>, i: int, rest: Seq<char>, n: nat)
    requires
        0 <= i < lines_of(text).len(),
        memory::info_of(text) is Ok,
        n <= u64::MAX,
        words_of(rest).len() > 0,
        natural(words_of(rest)[0], u64::MAX as nat) == Some(n),
        words_of(rest).len() > 1 ==> words_of(rest)[1] == "kB"@,
    ensures
        parted(lines_of(text)[i], ':') == Some(("MemTotal"@, rest)) && (forall|j: int|
            i < j < lines_of(text).len() ==> !(parted(
                #[trigger] lines_of(text)[j],
                ':',
            ) matches Some((key, _)) && key == "MemTotal"@)) ==> memory::info_of(text)->Ok_0.total
            == n * 1024,
        parted(lines_of(text)[i], ':') == Some(("MemAvailable"@, rest)) && (forall|j: int|
            i < j < lines_of(text).len() ==> !(parted(
                #[trigger] lines_of(text)[j],
                ':',
            ) matches Some((key, _)) && key == "MemAvailable"@)) ==> memory::info_of(
            text,
        )->Ok_0.available == n * 1024,
        parted(lines_of(text)[i], ':') == Some(("SwapFree"@, rest)) && (forall|j: int|
            i < j < lines_of(text).len() ==> !(parted(
                #[trigger] lines_of(text)[j],
                ':',
            ) matches Some((key, _)) && key == "SwapFree"@)) ==> memory::info_of(
            text,
        )->Ok_0.swap_free == n * 1024,
        parted(lines_of(text)[i], ':') == Some(("SwapTotal"@, rest)) && n > 0 && (forall|j: int|
            i < j < lines_of(text).len() ==> !(parted(
                #[trigger] lines_of(text)[j],
                ':',
            ) matches Some((key, _)) && key == "SwapTotal"@)) ==> memory::info_of(
            text,
        )->Ok_0.swap_total == Some((n * 1024) as u128),
{
    let all = lines_of(text);
    let upto = all.len() as int;
    if parted(all[i], ':') == Some(("MemTotal"@, rest)) && forall|j: int|
        i < j < all.len() ==> !(parted(#[trigger] all[j], ':') matches Some((key, _)) && key
            == "MemTotal"@) {
        lemma_last_said(all, "MemTotal"@, upto, i);
    }
    if parted(all[i], ':') == Some(("MemAvailable"@, rest)) && forall|j: int|
        i < j < all.len() ==> !(parted(#[trigger] all[j], ':') matches Some((key, _)) && key
            == "MemAvailable"@) {
        lemma_last_said(all, "MemAvailable"@, upto, i);
    }
    if parted(all[i], ':') == Some(("SwapFree"@, rest)) && forall|j: int|
        i < j < all.len() ==> !(parted(#[trigger] all[j], ':') matches Some((key, _)) && key
            == "SwapFree"@) {
        lemma_last_said(all, "SwapFree"@, upto, i);
    }
    if parted(all[i], ':') == Some(("SwapTotal"@, rest)) && forall|j: int|
        i < j < all.len() ==> !(parted(#[trigger] all[j], ':') matches Some((key, _)) && key
            == "SwapTotal"@) {
        lemma_last_said(all, "SwapTotal"@, upto, i);
    }
}

// Disks.

/// A disk is measured in its fragments: what is used is all but what is free, and it is as full
/// as that is of what an ordinary program could ever use.
pub proof fn law_a_disk_is_as_full_as_what_is_used_of_what_could_be(b: Blocks, path: Seq<char>)
    requires
        b.fragment > 0,
        b.free <= b.total,
        b.total * b.fragment <= u64::MAX,
        b.available * b.fragment <= u64::MAX,
    ensures
        ({
            let r = disk::shown(disk::space_of(b), path);
            let used = (b.total - b.free) * b.fragment;
            &&& says(r, "total"@, bytes(b.total * b.fragment))
            &&& says(r, "free"@, bytes(b.free * b.fragment))
            &&& says(r, "available"@, bytes(b.available * b.fragment))
            &&& says(r, "used"@, bytes(used))
            &&& says(r, "path"@, ValueView::Text(path))
            &&& used + b.available * b.fragment > 0 ==> says(
                r,
                "percent"@,
                percent(used, used + b.available * b.fragment),
            )
            &&& r.fields.primary == Some("percent"@)
        }),
{
    reveal_strlit("percent");
    reveal_strlit("used");
    reveal_strlit("total");
    reveal_strlit("available");
    reveal_strlit("free");
    reveal_strlit("path");
    assert("percent"@.len() == 7 && "used"@.len() == 4 && "total"@.len() == 5);
    assert("available"@.len() == 9 && "free"@.len() == 4 && "path"@.len() == 4);
    assert("used"@[0] == 'u' && "free"@[0] == 'f' && "path"@[0] == 'p');
    let (t, f, s) = (b.total as int, b.free as int, b.fragment as int);
    assert((t - f) * s == t * s - f * s && f * s <= t * s && 0 <= f * s) by (nonlinear_arith)
        requires
            0 <= f <= t,
            s > 0,
    ;
    assert(0 <= b.available * b.fragment) by (nonlinear_arith);
}

// Load.

/// The load is shown as it is written, in its order: over one minute, five and fifteen; and the
/// first is also shown as a share of the processors.
pub proof fn law_the_load_is_shown_as_it_is_written(text: Seq<char>, cores: u64)
    requires
        load::averages_of(text) is Ok,
    ensures
        ({
            let r = load::shown(load::averages_of(text)->Ok_0, cores);
            let words = words_of(text);
            let plain = |w: Seq<char>|
                ValueView::Num { v: AmountView::Written(w), unit: Unit::Plain };
            &&& words.len() >= 3
            &&& says(r, "one"@, plain(words[0]))
            &&& says(r, "five"@, plain(words[1]))
            &&& says(r, "fifteen"@, plain(words[2]))
            &&& says(
                r,
                "percent"@,
                ValueView::Num {
                    v: AmountView::WrittenShare { written: words[0], among: cores as int },
                    unit: Unit::Percent,
                },
            )
            &&& r.fields.primary == Some("one"@)
        }),
{
    reveal_strlit("one");
    reveal_strlit("five");
    reveal_strlit("fifteen");
    reveal_strlit("percent");
    assert("one"@.len() == 3 && "five"@.len() == 4 && "fifteen"@.len() == 7 && "percent"@.len()
        == 7);
    assert("fifteen"@[0] == 'f' && "percent"@[0] == 'p');
}

// The network.

/// What came in and what went out are shown each under its own name: how much in all, and how
/// much of it since the last sample of the same interface, over the time between the two.
pub proof fn law_down_is_what_came_in_and_up_what_went_out(
    now: SampleView,
    last: SampleView,
    ssid: Option<Seq<char>>,
    dbm: Option<i8>,
)
    requires
        last.device == now.device,
        last.at.nanos < now.at.nanos,
        last.received <= now.received,
        last.sent <= now.sent,
    ensures
        ({
            let r = network::shown(now, Some(last), ssid, dbm);
            let over = now.at.nanos - last.at.nanos;
            let rate = |count: int|
                ValueView::Num { v: AmountView::Rate { count, over }, unit: Unit::BytesPerSec };
            &&& says(r, "down"@, rate(now.received - last.received))
            &&& says(r, "up"@, rate(now.sent - last.sent))
            &&& says(r, "received"@, bytes(now.received as int))
            &&& says(r, "sent"@, bytes(now.sent as int))
            &&& says(r, "device"@, ValueView::Text(now.device))
            &&& says(r, "state"@, ValueView::Text(now.state))
            &&& ssid matches Some(name) ==> says(r, "ssid"@, ValueView::Text(name))
            &&& ssid is None ==> says(r, "ssid"@, ValueView::Absent)
            &&& dbm matches Some(n) ==> says(
                r,
                "dbm"@,
                ValueView::Num { v: AmountView::Signed(n as int), unit: Unit::Plain },
            )
            &&& dbm is None ==> says(r, "dbm"@, ValueView::Absent)
            &&& r.fields.primary == Some("down"@)
            &&& now.state == "up"@ ==> r.state == State::Good
            &&& now.state == "down"@ ==> r.state == State::Warning
        }),
{
    reveal_strlit("down");
    reveal_strlit("up");
    reveal_strlit("device");
    reveal_strlit("state");
    reveal_strlit("ssid");
    reveal_strlit("signal");
    reveal_strlit("dbm");
    reveal_strlit("received");
    reveal_strlit("sent");
    assert("down"@.len() == 4 && "up"@.len() == 2 && "device"@.len() == 6 && "state"@.len() == 5);
    assert("ssid"@.len() == 4 && "signal"@.len() == 6 && "dbm"@.len() == 3 && "received"@.len()
        == 8 && "sent"@.len() == 4);
    assert("down"@[0] == 'd' && "ssid"@[1] == 's' && "sent"@[1] == 'e' && "ssid"@[0] == 's');
    assert("device"@[0] == 'd' && "signal"@[0] == 's');
}

/// A sample is what the files of the interface say: what came in under what it received, and
/// what went out under what it sent.
pub proof fn law_a_sample_is_what_the_files_say(
    i: Interface,
    at: crate::time::Instant,
    came: nat,
    went: nat,
)
    requires
        i.rx_bytes matches Some(t) && natural(trimmed(t@), u64::MAX as nat) == Some(came),
        i.tx_bytes matches Some(t) && natural(trimmed(t@), u64::MAX as nat) == Some(went),
        came <= u64::MAX,
        went <= u64::MAX,
    ensures
        network::sampled(i, at) matches Ok(s) && s.received == came && s.sent == went && s.device
            == i.name@ && s.at == at && (i.operstate matches Some(t) ==> s.state == trimmed(t@)),
{
}

/// Of two pieces of hardware the one that is up is watched, whatever they are called; and a name
/// that is asked for is the one that is watched, up or not.
pub proof fn law_the_link_that_is_up_is_watched(
    all: Seq<Interface>,
    name: Seq<char>,
    a: int,
    b: int,
)
    requires
        0 <= a < all.len(),
        0 <= b < all.len(),
        all[a].device && all[a].statistics,
        all[a].operstate matches Some(t) && trimmed(t@) == "up"@,
        all[b].operstate matches Some(t) ==> trimmed(t@) != "up"@,
    ensures
        network::chosen(None, all) != Ok::<Option<int>, crate::collect::unread::UnreadView>(
            Some(b),
        ),
        network::chosen(None, all) matches Ok(Some(i)) && 0 <= i < all.len() && all[i].device
            && all[i].statistics,
        network::chosen(Some(name), all) matches Ok(Some(i)) ==> 0 <= i < all.len()
            && all[i].name@ == name,
{
    network::law_no_hardware_is_preferred_over_the_one_watched(all, all.len() as int);
    lemma_called(all, name, 0);
    assert(network::is_hardware(all[a]));
    assert(network::is_up(all[a]) && !network::is_up(all[b]));
}

proof fn lemma_called(all: Seq<Interface>, name: Seq<char>, from: int)
    requires
        0 <= from <= all.len(),
    ensures
        network::called(all, name, from) matches Some(i) ==> from <= i < all.len() && all[i].name@
            == name && all[i].statistics,
    decreases all.len() - from,
{
    if from < all.len() && !(all[from].name@ == name && all[from].statistics) {
        lemma_called(all, name, from + 1);
    }
}

// Brightness.

/// The brightness is what the controller is at, of the most it goes to, never more than that;
/// and the controller shown is the one it was read from.
pub proof fn law_brightness_is_a_share_of_the_most(
    c: backlight::Controller,
    current: nat,
    max: nat,
)
    requires
        natural(trimmed(c.brightness@), u64::MAX as nat) == Some(current),
        natural(trimmed(c.max_brightness@), u64::MAX as nat) == Some(max),
        0 < max <= u64::MAX,
        current <= u64::MAX,
    ensures
        current <= max ==> backlight::share_of(c) == Ok::<
            ValueView,
            crate::collect::unread::UnreadView,
        >(percent(current as int, max as int)),
        current > max ==> backlight::share_of(c) == Ok::<
            ValueView,
            crate::collect::unread::UnreadView,
        >(percent(max as int, max as int)),
        says(
            backlight::shown(percent(current as int, max as int), ValueView::Text(c.name@)),
            "brightness"@,
            percent(current as int, max as int),
        ),
        says(
            backlight::shown(percent(current as int, max as int), ValueView::Text(c.name@)),
            "device"@,
            ValueView::Text(c.name@),
        ),
{
    reveal_strlit("brightness");
    reveal_strlit("device");
    assert("brightness"@.len() == 10 && "device"@.len() == 6);
}

// Temperature.

/// A chip shows its hottest sensor, in degrees, a thousandth of what the sensor says, and is hot
/// from ninety degrees on and warm from seventy-five.
pub proof fn law_a_chip_shows_its_hottest_sensor(c: ChipView, n: int)
    requires
        0 < c.sensors.len(),
        temperature::hottest_of(c.sensors, c.sensors.len() as int) matches Some(s)
            && s.milli.finite() && in_steps(s.milli) == ExtendedView::Finite(n),
    ensures
        ({
            let r = temperature::shown(c);
            let s = temperature::hottest_of(c.sensors, c.sensors.len() as int)->0;
            let one = vstd::arithmetic::power2::pow2(1074) as int;
            &&& says(
                r,
                "temp"@,
                ValueView::Num {
                    v: AmountView::Ratio { of: n, by: 1000 * one },
                    unit: Unit::Celsius,
                },
            )
            &&& says(r, "chip"@, ValueView::Text(c.name))
            &&& s.label matches Some(label) ==> says(r, "label"@, ValueView::Text(label))
            &&& s.label is None ==> says(r, "label"@, ValueView::Absent)
            &&& r.fields.primary == Some("temp"@)
            &&& n >= 90_000 * one ==> r.state == State::Critical
            &&& 75_000 * one <= n < 90_000 * one ==> r.state == State::Warning
            &&& n < 75_000 * one ==> r.state == State::Idle
        }),
{
    reveal_strlit("temp");
    reveal_strlit("average");
    reveal_strlit("label");
    reveal_strlit("chip");
    assert("temp"@.len() == 4 && "average"@.len() == 7 && "label"@.len() == 5 && "chip"@.len()
        == 4);
    assert("temp"@[0] == 't' && "chip"@[0] == 'c');
    let s = temperature::hottest_of(c.sensors, c.sensors.len() as int)->0;
    let hot = crate::number::Number { bits: temperature::HOT };
    let warm = crate::number::Number { bits: temperature::WARM };
    crate::laws::number::law_less_is_fewer_steps(hot, s.milli);
    crate::laws::number::law_less_is_fewer_steps(warm, s.milli);
    crate::laws::number::law_a_number_is_what_its_bits_say(hot);
    crate::laws::number::law_a_number_is_what_its_bits_say(warm);
    lemma_ninety_thousand();
    assert((1000 * 1) * vstd::arithmetic::power2::pow2(1074) == 1000
        * vstd::arithmetic::power2::pow2(1074)) by (nonlinear_arith);
}

/// The average is what every sensor of the chip says, added up and shared among them.
pub proof fn law_the_average_is_over_every_sensor(c: ChipView, more: SensorView, n: int, total: int)
    requires
        0 < c.sensors.len(),
        temperature::milli_sum(c.sensors, c.sensors.len() as int) == ExtendedView::Finite(total),
        in_steps(more.milli) == ExtendedView::Finite(n),
    ensures
        says(
            temperature::shown(c),
            "average"@,
            ValueView::Num {
                v: AmountView::Ratio {
                    of: total,
                    by: 1000 * (c.sensors.len() as int) * (pow2(1074) as int),
                },
                unit: Unit::Celsius,
            },
        ),
        temperature::milli_sum(c.sensors.push(more), c.sensors.len() as int + 1)
            == ExtendedView::Finite(total + n),
{
    reveal_strlit("temp");
    reveal_strlit("average");
    reveal_strlit("label");
    reveal_strlit("chip");
    assert("temp"@.len() == 4 && "average"@.len() == 7 && "label"@.len() == 5 && "chip"@.len()
        == 4);
    assert(temperature::hottest_of(c.sensors, c.sensors.len() as int) is Some);
    lemma_sum_front(c.sensors, more, c.sensors.len() as int);
}

proof fn lemma_sum_front(sensors: Seq<SensorView>, more: SensorView, n: int)
    requires
        0 <= n <= sensors.len(),
    ensures
        temperature::milli_sum(sensors.push(more), n) == temperature::milli_sum(sensors, n),
    decreases n,
{
    if n > 0 {
        lemma_sum_front(sensors, more, n - 1);
        assert(sensors.push(more)[n - 1] == sensors[n - 1]);
    }
}

/// The processor, the memory, a disk and the load are never rated: how much of them is too much
/// is for the configuration to say.
pub proof fn law_what_is_too_much_is_not_for_the_source_to_say(
    before: Option<Times>,
    now: Times,
    i: Info,
    s: disk::Space,
    path: Seq<char>,
    a: load::AveragesView,
    cores: u64,
)
    ensures
        cpu::shown(before, now).state == State::Idle,
        memory::shown(i).state == State::Idle,
        disk::shown(s, path).state == State::Idle,
        load::shown(a, cores).state == State::Idle,
{
}

/// What ninety thousand and seventy-five thousand are, in steps.
proof fn lemma_ninety_thousand()
    ensures
        crate::laws::number::told_by_bits(0x40f5_f900_0000_0000) == 90_000
            * vstd::arithmetic::power2::pow2(1074),
        crate::laws::number::told_by_bits(0x40f2_4f80_0000_0000) == 75_000
            * vstd::arithmetic::power2::pow2(1074),
{
    use_pow2();
}

proof fn use_pow2()
    ensures
        crate::laws::number::told_by_bits(0x40f5_f900_0000_0000) == 90_000
            * vstd::arithmetic::power2::pow2(1074),
        crate::laws::number::told_by_bits(0x40f2_4f80_0000_0000) == 75_000
            * vstd::arithmetic::power2::pow2(1074),
{
    let e = 0x40fint;
    assert(0x40f5_f900_0000_0000int / 0x10_0000_0000_0000 == e);
    assert(0x40f2_4f80_0000_0000int / 0x10_0000_0000_0000 == e);
    let f = 0x40f5_f900_0000_0000int % 0x10_0000_0000_0000;
    let g = 0x40f2_4f80_0000_0000int % 0x10_0000_0000_0000;
    assert(f == 0x5_f900_0000_0000);
    assert(g == 0x2_4f80_0000_0000);
    // The exponent leaves thirty-six doublings less than there are steps in one.
    let p = vstd::arithmetic::power2::pow2(1038);
    vstd::arithmetic::power2::lemma_pow2_adds(1038, 36);
    vstd::arithmetic::power2::lemma2_to64_rest();
    assert((0x10_0000_0000_0000 + f) * p == 90_000 * (p * 0x10_0000_0000)) by (nonlinear_arith)
        requires
            f == 0x5_f900_0000_0000,
    ;
    assert((0x10_0000_0000_0000 + g) * p == 75_000 * (p * 0x10_0000_0000)) by (nonlinear_arith)
        requires
            g == 0x2_4f80_0000_0000,
    ;
}

// Batteries.

/// A battery is as full as what it holds now is of what it holds at full, and as sound as that
/// is of what it held when new; it lasts what it holds over what it draws, and takes what it
/// lacks over what it takes on.
pub proof fn law_a_battery_is_as_full_as_what_it_holds(
    cells: Seq<CellView>,
    now: int,
    full: int,
    new: int,
    watts: int,
)
    requires
        cells.len() == 1,
        cells[0].now == ExtendedView::Finite(now),
        cells[0].full == ExtendedView::Finite(full),
        cells[0].design == Some(ExtendedView::Finite(new)),
        cells[0].watts == Some(ExtendedView::Finite(watts)),
        0 <= now <= full <= new,
        0 < full,
        0 < watts,
        full < 240 * watts,
    ensures
        ({
            let r = battery::shown(cells);
            let hour = 3_600_000_000_000int;
            &&& says(r, "percent"@, percent(now, full))
            &&& says(r, "health"@, percent(full, new))
            &&& says(
                r,
                "power"@,
                ValueView::Num {
                    v: AmountView::Ratio { of: watts, by: 1_000_000_000_000int * pow2(2148) },
                    unit: Unit::Watts,
                },
            )
            &&& cells[0].status == Status::Discharging ==> says(
                r,
                "time"@,
                ValueView::Dur((now * hour) / watts),
            ) && says(r, "status"@, ValueView::Text("discharging"@))
            &&& cells[0].status == Status::Charging ==> says(
                r,
                "time"@,
                ValueView::Dur(((full - now) * hour) / watts),
            ) && says(r, "status"@, ValueView::Text("charging"@))
            &&& cells[0].status == Status::Full ==> says(r, "time"@, ValueView::Absent) && says(
                r,
                "status"@,
                ValueView::Text("full"@),
            )
            &&& cells[0].threshold matches Some(n) ==> says(
                r,
                "threshold"@,
                ValueView::Num { v: AmountView::Float(n), unit: Unit::Percent },
            )
            &&& cells[0].threshold is None ==> says(r, "threshold"@, ValueView::Absent)
            &&& r.fields.primary == Some("percent"@)
            &&& cells[0].status == Status::Discharging ==> {
                &&& now * 100 < 15 * full ==> r.state == State::Critical
                &&& 15 * full <= now * 100 && now * 100 < 30 * full ==> r.state == State::Warning
                &&& 30 * full <= now * 100 ==> r.state == State::Idle
            }
            &&& cells[0].status == Status::Charging ==> r.state == State::Info
            &&& cells[0].status == Status::Full ==> r.state == State::Good
        }),
{
    reveal_strlit("percent");
    reveal_strlit("status");
    reveal_strlit("power");
    reveal_strlit("time");
    reveal_strlit("health");
    reveal_strlit("threshold");
    assert("percent"@.len() == 7 && "status"@.len() == 6 && "power"@.len() == 5 && "time"@.len()
        == 4 && "health"@.len() == 6 && "threshold"@.len() == 9);
    assert("status"@[0] == 's' && "health"@[0] == 'h');
    reveal_with_fuel(battery::together, 3);
    let t = battery::together(cells, 1);
    assert(t.now == ExtendedView::Finite(now));
    assert(t.full == ExtendedView::Finite(full));
    assert(t.status == cells[0].status && t.threshold == cells[0].threshold);
    assert(battery::total_of(cells) == Some(t));
}

/// Batteries are added together: another one adds what it holds to what the others hold, at full
/// as now.
pub proof fn law_batteries_are_added_together(cells: Seq<CellView>, n: int, now: int, full: int)
    requires
        0 < n <= cells.len(),
        battery::together(cells, n - 1).now is Finite,
        battery::together(cells, n - 1).full is Finite,
        cells[n - 1].now == ExtendedView::Finite(now),
        cells[n - 1].full == ExtendedView::Finite(full),
    ensures
        battery::together(cells, n).now == ExtendedView::Finite(
            battery::together(cells, n - 1).now->Finite_0 + now,
        ),
        battery::together(cells, n).full == ExtendedView::Finite(
            battery::together(cells, n - 1).full->Finite_0 + full,
        ),
        cells[n - 1].design is None ==> battery::together(cells, n).design is None,
        cells[n - 1].watts is None ==> battery::together(cells, n).watts == battery::together(
            cells,
            n - 1,
        ).watts,
{
}

} // verus!
