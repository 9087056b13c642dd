//! What a battery or a sensor is read from.

use crate::collect::battery::{cap, cell_of, cells_of, is_battery, status_of, together};
use crate::collect::battery::{CellView, Status, Supply};
use crate::collect::temperature::{chip_named, chosen, sensor_of, sensors_of, ChipView};
use crate::collect::temperature::{SensorFiles, SensorView};
use crate::extended::{steps, ExtendedView};
use crate::laws::number::law_less_is_fewer_steps;
use crate::number::Number;
use crate::text::trimmed;
use vstd::arithmetic::power2::pow2;
use vstd::prelude::*;

verus! {

/// A million ones, in steps: what the kernel counts in millionths is taken times this, so that
/// it stands beside what is counted as a product of two.
pub open spec fn millionths() -> int {
    1_000_000 * pow2(1074) as int
}

/// What a number of so many steps is taken times to be.
pub open spec fn times(n: Option<Number>, by: int, out: Option<ExtendedView>) -> bool {
    &&& n is None ==> out is None
    &&& n matches Some(n) ==> (n.finite() ==> out == Some(ExtendedView::Finite(steps(n) * by)))
}

/// The same, whichever way it goes.
pub open spec fn times_at_least(n: Option<Number>, by: int, out: Option<ExtendedView>) -> bool {
    &&& n is None ==> out is None
    &&& n matches Some(n) ==> (n.finite() ==> out == Some(
        ExtendedView::Finite(
            if steps(n) * by < 0 {
                -(steps(n) * by)
            } else {
                steps(n) * by
            },
        ),
    ))
}

/// A battery that counts energy holds what it counts, and draws the power it counts.
pub proof fn law_a_battery_holds_the_energy_it_counts(s: Supply)
    requires
        s.energy_now matches Some(n) && n.finite(),
        s.energy_full matches Some(n) && n.finite(),
        cell_of(s) is Some,
    ensures
        ({
            let c = cell_of(s)->0;
            &&& c.now == ExtendedView::Finite(steps(s.energy_now->0) * millionths())
            &&& c.full == ExtendedView::Finite(steps(s.energy_full->0) * millionths())
            &&& times(s.energy_full_design, millionths(), c.design)
            &&& times_at_least(s.power_now, millionths(), c.watts)
        }),
{
}

/// A battery that counts charge holds what that is at its voltage, and draws the current it
/// counts at that voltage.
pub proof fn law_a_battery_holds_the_charge_it_counts(s: Supply)
    requires
        s.energy_now is None,
        s.charge_now matches Some(n) && n.finite(),
        s.charge_full matches Some(n) && n.finite(),
        s.voltage_now matches Some(n) && n.finite(),
        cell_of(s) is Some,
    ensures
        ({
            let c = cell_of(s)->0;
            let volts = steps(s.voltage_now->0);
            &&& c.now == ExtendedView::Finite(steps(s.charge_now->0) * volts)
            &&& c.full == ExtendedView::Finite(steps(s.charge_full->0) * volts)
            &&& times(s.charge_full_design, volts, c.design)
            &&& times_at_least(s.current_now, volts, c.watts)
        }),
{
}

/// A battery that is not there, that does not say what it holds, or that can hold nothing is no
/// battery.
pub proof fn law_an_empty_bay_is_no_battery(s: Supply)
    ensures
        s.present matches Some(p) ==> (p.finite() && steps(p) == 0 ==> cell_of(s) is None),
        s.energy_now is Some && s.energy_full is None ==> cell_of(s) is None,
        s.energy_now is None && (s.voltage_now is None || s.charge_now is None || s.charge_full
            is None) ==> cell_of(s) is None,
        s.energy_now is Some && (s.energy_full matches Some(full) && full.finite() && steps(full)
            * millionths() <= 0) ==> cell_of(s) is None,
{
    let nothing = Number { bits: 0 };
    if let Some(p) = s.present {
        law_less_is_fewer_steps(p, nothing);
        assert(nothing.significand() == 0);
        assert(steps(nothing) == 0) by {
            assert(0 * pow2(0) == 0);
            assert(nothing.scale() == -1074);
        }
    }
}

/// The kernel's words for what a battery does.
pub proof fn law_a_battery_does_what_its_word_says(text: Seq<char>)
    ensures
        trimmed(text) == "Charging"@ <==> status_of(text) == Status::Charging,
        trimmed(text) == "Discharging"@ <==> status_of(text) == Status::Discharging,
        trimmed(text) == "Full"@ <==> status_of(text) == Status::Full,
        trimmed(text) == "Not charging"@ <==> status_of(text) == Status::NotCharging,
{
    reveal_strlit("Charging");
    reveal_strlit("Discharging");
    reveal_strlit("Full");
    reveal_strlit("Not charging");
    assert("Charging"@.len() == 8 && "Discharging"@.len() == 11 && "Full"@.len() == 4);
    assert("Not charging"@.len() == 12);
}

/// Where a battery stops charging is what the first of its two files says, and counts only
/// between nothing and full.
pub proof fn law_a_battery_stops_where_it_says(s: Supply)
    ensures
        ({
            let said = if s.charge_control_end_threshold is Some {
                s.charge_control_end_threshold
            } else {
                s.charge_stop_threshold
            };
            let nothing = Number { bits: 0 };
            let full = Number { bits: 0x4059_0000_0000_0000 };
            &&& said is None ==> cap(s) is None
            &&& said matches Some(n) ==> (if nothing.less(n) && n.less(full) {
                cap(s) == Some(n)
            } else {
                cap(s) is None
            })
        }),
{
}

/// Of all the supplies only batteries are read, each one once and in order.
pub proof fn law_only_batteries_are_read(all: Seq<Supply>, s: Supply)
    ensures
        ({
            let more = all.push(s);
            let battery = s.kind matches Some(t) && trimmed(t@) == "Battery"@;
            &&& battery && cell_of(s) is Some ==> cells_of(more, 0) == cells_of(all, 0).push(
                cell_of(s)->0,
            )
            &&& !battery || cell_of(s) is None ==> cells_of(more, 0) == cells_of(all, 0)
        }),
        cells_of(Seq::empty(), 0).len() == 0,
{
    lemma_cells(all, s, 0);
}

proof fn lemma_cells(all: Seq<Supply>, s: Supply, from: int)
    requires
        0 <= from <= all.len(),
    ensures
        ({
            let more = all.push(s);
            let battery = s.kind matches Some(t) && trimmed(t@) == "Battery"@;
            &&& battery && cell_of(s) is Some ==> cells_of(more, from) == cells_of(all, from).push(
                cell_of(s)->0,
            )
            &&& !battery || cell_of(s) is None ==> cells_of(more, from) == cells_of(all, from)
        }),
    decreases all.len() - from,
{
    let more = all.push(s);
    if from < all.len() {
        lemma_cells(all, s, from + 1);
        assert(more[from] == all[from]);
        if is_battery(s) && cell_of(s) is Some {
            assert(cells_of(more, from) =~= cells_of(all, from).push(cell_of(s)->0));
        }
    } else {
        assert(more[from] == s);
        assert(cells_of(more, from + 1) =~= Seq::<CellView>::empty());
        assert(cells_of(all, from) =~= Seq::<CellView>::empty());
        if is_battery(s) && cell_of(s) is Some {
            assert(cells_of(more, from) =~= cells_of(all, from).push(cell_of(s)->0));
        }
    }
}

/// How much more a battery's own word counts than another's: one that drains before one that
/// charges, that before one that holds, that before one that is full, and that before one nobody
/// knows.
pub open spec fn counts_for(s: Status) -> int {
    match s {
        Status::Discharging => 5,
        Status::Charging => 4,
        Status::NotCharging => 3,
        Status::Full => 2,
        Status::Unknown => 1,
    }
}

/// Several batteries do what the one that counts for most does.
pub proof fn law_the_one_that_counts_for_most_speaks(cells: Seq<CellView>, n: int)
    requires
        0 < n <= cells.len(),
    ensures
        forall|i: int|
            0 <= i < n ==> counts_for((#[trigger] cells[i]).status) <= counts_for(
                together(cells, n).status,
            ),
        exists|i: int| 0 <= i < n && (#[trigger] cells[i]).status == together(cells, n).status,
        together(cells, n).threshold == cells[0].threshold,
    decreases n,
{
    if n > 1 {
        law_the_one_that_counts_for_most_speaks(cells, n - 1);
        let i = choose|i: int|
            0 <= i < n - 1 && (#[trigger] cells[i]).status == together(cells, n - 1).status;
        assert(cells[i].status == together(cells, n - 1).status);
        assert(cells[n - 1].status == cells[n - 1].status);
    } else {
        reveal_with_fuel(together, 2);
        assert(cells[0].status == together(cells, 1).status);
    }
}

/// A sensor is one that reads more than nothing, under the label it has, without the spaces
/// around it.
pub proof fn law_a_sensor_reads_more_than_nothing(f: SensorFiles)
    requires
        f.input matches Some(n) ==> n.finite(),
    ensures
        f.input is None ==> sensor_of(f) is None,
        f.input matches Some(n) ==> (sensor_of(f) is Some <==> steps(n) > 0),
        sensor_of(f) matches Some(s) ==> {
            &&& f.input == Some(s.milli)
            &&& f.label is None ==> s.label is None
            &&& f.label matches Some(t) ==> s.label == (if trimmed(t@).len() == 0 {
                None
            } else {
                Some(trimmed(t@))
            })
        },
{
    let nothing = Number { bits: 0 };
    if let Some(n) = f.input {
        law_less_is_fewer_steps(n, nothing);
        law_less_is_fewer_steps(nothing, n);
        assert(steps(nothing) == 0) by {
            assert(nothing.significand() == 0 && nothing.scale() == -1074);
            assert(0 * pow2(0) == 0);
        }
    }
}

proof fn lemma_chip_named(chips: Seq<ChipView>, name: Seq<char>, wired: bool, from: int)
    requires
        0 <= from <= chips.len(),
    ensures
        match chip_named(chips, name, wired, from) {
            Some(i) => from <= i < chips.len() && chips[i].name == name && (!wired
                || chips[i].sensors.len() > 0),
            None => forall|j: int|
                from <= j < chips.len() ==> (#[trigger] chips[j]).name != name || (wired
                    && chips[j].sensors.len() == 0),
        },
    decreases chips.len() - from,
{
    if from < chips.len() && !(chips[from].name == name && (!wired || chips[from].sensors.len()
        > 0)) {
        lemma_chip_named(chips, name, wired, from + 1);
    }
}

/// Whether one of the chips goes by this name and has a sensor.
pub open spec fn reads(chips: Seq<ChipView>, name: Seq<char>) -> bool {
    exists|i: int|
        0 <= i < chips.len() && (#[trigger] chips[i]).name == name && chips[i].sensors.len() > 0
}

/// The chip that is read is the one that is named; and where none is, a processor's own, the
/// kinds tried in the order in which they are likely to be there.
pub proof fn law_the_chip_that_is_named_is_read(chips: Seq<ChipView>, name: Seq<char>)
    ensures
        match chosen(chips, Some(name)) {
            Some(i) => 0 <= i < chips.len() && chips[i].name == name,
            None => forall|j: int| 0 <= j < chips.len() ==> (#[trigger] chips[j]).name != name,
        },
        match chosen(chips, None) {
            Some(i) => {
                &&& 0 <= i < chips.len() && chips[i].sensors.len() > 0
                &&& reads(chips, "k10temp"@) ==> chips[i].name == "k10temp"@
                &&& !reads(chips, "k10temp"@) && reads(chips, "coretemp"@) ==> chips[i].name
                    == "coretemp"@
                &&& !reads(chips, "k10temp"@) && !reads(chips, "coretemp"@) && reads(
                    chips,
                    "zenpower"@,
                ) ==> chips[i].name == "zenpower"@
                &&& !reads(chips, "k10temp"@) && !reads(chips, "coretemp"@) && !reads(
                    chips,
                    "zenpower"@,
                ) ==> chips[i].name == "cpu_thermal"@
            },
            None => !reads(chips, "k10temp"@) && !reads(chips, "coretemp"@) && !reads(
                chips,
                "zenpower"@,
            ) && !reads(chips, "cpu_thermal"@),
        },
{
    lemma_chip_named(chips, name, false, 0);
    lemma_reads(chips, "k10temp"@);
    lemma_reads(chips, "coretemp"@);
    lemma_reads(chips, "zenpower"@);
    lemma_reads(chips, "cpu_thermal"@);
}

proof fn lemma_reads(chips: Seq<ChipView>, name: Seq<char>)
    ensures
        match chip_named(chips, name, true, 0) {
            Some(i) => 0 <= i < chips.len() && chips[i].name == name && chips[i].sensors.len() > 0
                && reads(chips, name),
            None => !reads(chips, name),
        },
{
    lemma_chip_named(chips, name, true, 0);
    if let Some(i) = chip_named(chips, name, true, 0) {
        assert(chips[i].name == name);
    }
}

/// A chip has a sensor for each of its files that reads one, in order.
pub proof fn law_each_file_is_a_sensor(files: Seq<SensorFiles>, f: SensorFiles)
    ensures
        sensor_of(f) is Some ==> sensors_of(files.push(f), 0) == sensors_of(files, 0).push(
            sensor_of(f)->0,
        ),
        sensor_of(f) is None ==> sensors_of(files.push(f), 0) == sensors_of(files, 0),
        sensors_of(Seq::empty(), 0).len() == 0,
{
    lemma_sensors(files, f, 0);
}

proof fn lemma_sensors(files: Seq<SensorFiles>, f: SensorFiles, from: int)
    requires
        0 <= from <= files.len(),
    ensures
        sensor_of(f) is Some ==> sensors_of(files.push(f), from) == sensors_of(files, from).push(
            sensor_of(f)->0,
        ),
        sensor_of(f) is None ==> sensors_of(files.push(f), from) == sensors_of(files, from),
    decreases files.len() - from,
{
    let more = files.push(f);
    if from < files.len() {
        lemma_sensors(files, f, from + 1);
        assert(more[from] == files[from]);
        if sensor_of(f) is Some {
            assert(sensors_of(more, from) =~= sensors_of(files, from).push(sensor_of(f)->0));
        }
    } else {
        assert(more[from] == f);
        assert(sensors_of(more, from + 1) =~= Seq::<SensorView>::empty());
        assert(sensors_of(files, from) =~= Seq::<SensorView>::empty());
        if sensor_of(f) is Some {
            assert(sensors_of(more, from) =~= sensors_of(files, from).push(sensor_of(f)->0));
        }
    }
}

} // verus!
