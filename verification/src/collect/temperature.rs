//! Temperatures, from `/sys/class/hwmon`.

use crate::collect::unread::{because, read, Cause, Unread};
use crate::extended::{divided, in_steps, sum, Extended, ExtendedView, FINEST};
use crate::natural::{Natural, Whole};
use crate::number::{Number, ZERO};
use crate::status::{about, no_fields, specs_view, with, FieldSpec, FieldView};
use crate::status::{Fields, Kind, Reading, ReadingView, State, Unit, Value, ValueView};
use crate::text::{copy_text, opt_view, same, trim, trimmed};
use vstd::arithmetic::power2::pow2;
use vstd::prelude::*;

verus! {

/// What this source publishes.
pub open spec fn published() -> Seq<FieldView> {
    seq![
        FieldView { name: "temp"@, kind: Kind::Num(Unit::Celsius) },
        FieldView { name: "average"@, kind: Kind::Num(Unit::Celsius) },
        FieldView { name: "label"@, kind: Kind::Text },
        FieldView { name: "chip"@, kind: Kind::Text },
    ]
}

/// What this source publishes.
pub fn fields() -> (r: Vec<FieldSpec>)
    ensures
        specs_view(r@) == published(),
{
    let r = vec![
        FieldSpec::new("temp", Kind::Num(Unit::Celsius)),
        FieldSpec::new("average", Kind::Num(Unit::Celsius)),
        FieldSpec::new("label", Kind::Text),
        FieldSpec::new("chip", Kind::Text),
    ];
    assert(specs_view(r@) =~= published());
    r
}

/// From seventy-five thousand millidegrees on, by its bits, the processor is working but not in
/// trouble.
pub const WARM: u64 = 0x40f2_4f80_0000_0000;

/// From ninety thousand millidegrees on, by its bits, most parts throttle.
pub const HOT: u64 = 0x40f5_f900_0000_0000;

/// One sensor of a chip, in millidegrees.
#[derive(Debug)]
pub struct Sensor {
    pub milli: Number,
    pub label: Option<String>,
}

/// What a `Sensor` says.
#[verifier::ext_equal]
pub struct SensorView {
    pub milli: Number,
    pub label: Option<Seq<char>>,
}

impl View for Sensor {
    type V = SensorView;

    open spec fn view(&self) -> SensorView {
        SensorView { milli: self.milli, label: opt_view(self.label) }
    }
}

/// A chip and the sensors on it that are wired up.
#[derive(Debug)]
pub struct Chip {
    pub name: String,
    pub sensors: Vec<Sensor>,
}

/// What a `Chip` says.
#[verifier::ext_equal]
pub struct ChipView {
    pub name: Seq<char>,
    pub sensors: Seq<SensorView>,
}

/// What a list of sensors says.
pub open spec fn sensors_view(sensors: Seq<Sensor>) -> Seq<SensorView> {
    Seq::new(sensors.len(), |i: int| sensors[i]@)
}

impl View for Chip {
    type V = ChipView;

    open spec fn view(&self) -> ChipView {
        ChipView { name: self.name@, sensors: sensors_view(self.sensors@) }
    }
}

/// What a list of chips says.
pub open spec fn chips_view(chips: Seq<Chip>) -> Seq<ChipView> {
    Seq::new(chips.len(), |i: int| chips[i]@)
}

/// What the files of one sensor hold, where they could be read: the number that its temperature
/// is read as, and its label.
#[derive(Debug)]
pub struct SensorFiles {
    pub input: Option<Number>,
    pub label: Option<String>,
}

/// The label of a sensor, where it has one with something in it.
pub open spec fn label_of(text: Option<Seq<char>>) -> Option<Seq<char>> {
    match text {
        Some(t) => if trimmed(t).len() == 0 {
            None
        } else {
            Some(trimmed(t))
        },
        None => None,
    }
}

/// Whether a number is another or less. What is not a number is neither.
pub open spec fn no_more_than(a: Number, b: Number) -> bool {
    a.less(b) || a.equal(b)
}

/// The sensor these files describe. Firmware lists sensors for hardware that is not fitted, and
/// they read zero: that is nothing to report rather than a very cold processor.
pub open spec fn sensor_of(f: SensorFiles) -> Option<SensorView> {
    match f.input {
        None => None,
        Some(milli) => if no_more_than(milli, Number { bits: ZERO }) {
            None
        } else {
            Some(SensorView { milli, label: label_of(opt_view(f.label)) })
        },
    }
}

/// The sensors these files describe, from `from` on.
pub open spec fn sensors_of(files: Seq<SensorFiles>, from: int) -> Seq<SensorView>
    decreases files.len() - from,
{
    if from < 0 || from >= files.len() {
        Seq::empty()
    } else {
        match sensor_of(files[from]) {
            Some(s) => seq![s] + sensors_of(files, from + 1),
            None => sensors_of(files, from + 1),
        }
    }
}

fn read_sensor(f: &SensorFiles) -> (r: Option<Sensor>)
    ensures
        match r {
            Some(s) => sensor_of(*f) == Some(s@),
            None => sensor_of(*f) is None,
        },
{
    match f.input {
        None => None,
        Some(milli) => {
            let nothing = Number { bits: ZERO };
            if milli.lt(nothing) || milli.is(nothing) {
                return None;
            }
            let label = match &f.label {
                None => None,
                Some(l) => {
                    let short = trim(l.as_str());
                    if short.as_str().is_empty() {
                        None
                    } else {
                        Some(short)
                    }
                },
            };
            Some(Sensor { milli, label })
        },
    }
}

/// The hottest of the first `upto` sensors, and the last of those that are equally hot. What is
/// not a number is beyond every number, on the side its sign says.
pub open spec fn hottest_of(sensors: Seq<SensorView>, upto: int) -> Option<SensorView>
    decreases upto,
{
    if upto <= 0 || upto > sensors.len() {
        None
    } else {
        match hottest_of(sensors, upto - 1) {
            None => Some(sensors[upto - 1]),
            Some(s) => if sensors[upto - 1].milli.rank() >= s.milli.rank() {
                Some(sensors[upto - 1])
            } else {
                Some(s)
            },
        }
    }
}

/// The sum of the first `upto` sensors, in the smallest steps of a millidegree.
pub open spec fn milli_sum(sensors: Seq<SensorView>, upto: int) -> ExtendedView
    decreases upto,
{
    if upto <= 0 || upto > sensors.len() {
        ExtendedView::Finite(0)
    } else {
        sum(milli_sum(sensors, upto - 1), in_steps(sensors[upto - 1].milli))
    }
}

/// No sensor is hotter than the hottest, which is one of them.
pub proof fn law_no_sensor_is_hotter(sensors: Seq<SensorView>, upto: int)
    requires
        0 <= upto <= sensors.len(),
    ensures
        match hottest_of(sensors, upto) {
            None => upto == 0,
            Some(s) => {
                &&& exists|i: int| 0 <= i < upto && #[trigger] sensors[i] == s
                &&& forall|i: int| 0 <= i < upto ==> (#[trigger] sensors[i]).milli.rank()
                    <= s.milli.rank()
            },
        },
    decreases upto,
{
    if upto > 0 {
        law_no_sensor_is_hotter(sensors, upto - 1);
        let before = hottest_of(sensors, upto - 1);
        let now = hottest_of(sensors, upto)->0;
        if now == sensors[upto - 1] {
            assert(sensors[upto - 1] == now);
        } else {
            let i = choose|i: int| 0 <= i < upto - 1 && #[trigger] sensors[i] == before->0;
            assert(sensors[i] == now);
        }
    }
}

impl Chip {
    /// The chip of a name whose sensors these files describe.
    pub fn read(name: &str, files: &Vec<SensorFiles>) -> (c: Chip)
        ensures
            c@ == (ChipView { name: trimmed(name@), sensors: sensors_of(files@, 0) }),
    {
        let mut sensors: Vec<Sensor> = Vec::new();
        assert(sensors_view(sensors@) + sensors_of(files@, 0) =~= sensors_of(files@, 0));
        for i in 0..files.len()
            invariant
                sensors_of(files@, 0) == sensors_view(sensors@) + sensors_of(files@, i as int),
        {
            let ghost before = sensors_view(sensors@);
            if let Some(s) = read_sensor(&files[i]) {
                let ghost one = s@;
                sensors.push(s);
                proof {
                    assert(sensors_view(sensors@) =~= before.push(one));
                    let rest = sensors_of(files@, i + 1);
                    assert(before + (seq![one] + rest) =~= before.push(one) + rest);
                }
            }
        }
        assert(sensors_view(sensors@) + Seq::<SensorView>::empty() =~= sensors_view(sensors@));
        Chip { name: trim(name), sensors }
    }

    pub fn hottest(&self) -> (r: Option<&Sensor>)
        ensures
            match r {
                Some(s) => hottest_of(self@.sensors, self@.sensors.len() as int) == Some(s@),
                None => self@.sensors.len() == 0,
            },
    {
        let ghost all = self@.sensors;
        let mut best: Option<&Sensor> = None;
        for i in 0..self.sensors.len()
            invariant
                all == sensors_view(self.sensors@),
                match best {
                    Some(s) => hottest_of(all, i as int) == Some(s@),
                    None => i == 0,
                },
        {
            assert(all[i as int] == self.sensors@[i as int]@);
            best = match best {
                None => Some(&self.sensors[i]),
                Some(s) => if !self.sensors[i].milli.stands_before(s.milli) {
                    Some(&self.sensors[i])
                } else {
                    Some(s)
                },
            };
        }
        best
    }

    /// The sum of the chip's sensors, in the smallest steps of a millidegree.
    pub fn sum(&self) -> (n: Extended)
        ensures
            n@ == milli_sum(self@.sensors, self@.sensors.len() as int),
    {
        let ghost all = self@.sensors;
        let mut n = Extended::Finite(Whole::nothing());
        for i in 0..self.sensors.len()
            invariant
                all == sensors_view(self.sensors@),
                n@ == milli_sum(all, i as int),
        {
            assert(all[i as int] == self.sensors@[i as int]@);
            n = n.plus(&Extended::of(self.sensors[i].milli));
        }
        n
    }
}

/// The first chip of a name from `from` on, with a sensor where one is asked for.
pub open spec fn chip_named(
    chips: Seq<ChipView>,
    name: Seq<char>,
    wired: bool,
    from: int,
) -> Option<int>
    decreases chips.len() - from,
{
    if from < 0 || from >= chips.len() {
        None
    } else if chips[from].name == name && (!wired || chips[from].sensors.len() > 0) {
        Some(from)
    } else {
        chip_named(chips, name, wired, from + 1)
    }
}

/// The chip to read: the one named, or the processor's own. Drivers that report the processor
/// package are looked for by name, most specific first, because every other chip is also a real
/// temperature and none of them is the answer.
pub open spec fn chosen(chips: Seq<ChipView>, wanted: Option<Seq<char>>) -> Option<int> {
    match wanted {
        Some(name) => chip_named(chips, name, false, 0),
        None => match chip_named(chips, "k10temp"@, true, 0) {
            Some(i) => Some(i),
            None => match chip_named(chips, "coretemp"@, true, 0) {
                Some(i) => Some(i),
                None => match chip_named(chips, "zenpower"@, true, 0) {
                    Some(i) => Some(i),
                    None => chip_named(chips, "cpu_thermal"@, true, 0),
                },
            },
        },
    }
}

fn find_chip(chips: &Vec<Chip>, name: &str, wired: bool) -> (r: Option<usize>)
    ensures
        match r {
            Some(i) => chip_named(chips_view(chips@), name@, wired, 0) == Some(i as int) && i
                < chips@.len(),
            None => chip_named(chips_view(chips@), name@, wired, 0) is None,
        },
{
    let ghost all = chips_view(chips@);
    for i in 0..chips.len()
        invariant
            all == chips_view(chips@),
            chip_named(all, name@, wired, 0) == chip_named(all, name@, wired, i as int),
    {
        assert(all[i as int] == chips@[i as int]@);
        if same(chips[i].name.as_str(), name) && (!wired || chips[i].sensors.len() > 0) {
            return Some(i);
        }
    }
    None
}

/// The chip to read, among these in the order of their directories.
pub fn pick(chips: &Vec<Chip>, wanted: Option<&str>) -> (r: Option<usize>)
    ensures
        match r {
            Some(i) => chosen(
                chips_view(chips@),
                match wanted {
                    Some(w) => Some(w@),
                    None => None,
                },
            ) == Some(i as int) && i < chips@.len(),
            None => chosen(
                chips_view(chips@),
                match wanted {
                    Some(w) => Some(w@),
                    None => None,
                },
            ) is None,
        },
{
    match wanted {
        Some(name) => find_chip(chips, name, false),
        None => match find_chip(chips, "k10temp", true) {
            Some(i) => Some(i),
            None => match find_chip(chips, "coretemp", true) {
                Some(i) => Some(i),
                None => match find_chip(chips, "zenpower", true) {
                    Some(i) => Some(i),
                    None => find_chip(chips, "cpu_thermal", true),
                },
            },
        },
    }
}

/// So many steps of a thousandth of a degree, as an average over so many sensors.
pub open spec fn degrees(milli: ExtendedView, sensors: int) -> ValueView {
    ValueView::Num {
        v: divided(milli, (1000 * sensors) * pow2(FINEST as nat)),
        unit: Unit::Celsius,
    }
}

fn celsius(milli: Extended, sensors: usize) -> (v: Value)
    ensures
        v@ == degrees(milli@, sensors as int),
{
    let by = Natural::of(1000).times(&Natural::of(sensors as u128)).doubled(FINEST);
    Value::Num { v: milli.over(by), unit: Unit::Celsius }
}

/// A text, or nothing.
pub open spec fn text_or_absent(s: Option<Seq<char>>) -> ValueView {
    match s {
        Some(t) => ValueView::Text(t),
        None => ValueView::Absent,
    }
}

/// How hot is worth alarming about.
pub open spec fn alarm(milli: Number) -> State {
    if no_more_than(Number { bits: HOT }, milli) {
        State::Critical
    } else if no_more_than(Number { bits: WARM }, milli) {
        State::Warning
    } else {
        State::Idle
    }
}

/// What is shown of a chip.
pub open spec fn shown(c: ChipView) -> ReadingView {
    let n = c.sensors.len() as int;
    match hottest_of(c.sensors, n) {
        None => {
            let f = with(no_fields(), "temp"@, ValueView::Absent);
            let f = with(f, "average"@, ValueView::Absent);
            let f = with(f, "label"@, ValueView::Absent);
            let f = with(f, "chip"@, ValueView::Text(c.name));
            ReadingView { fields: about(f, "temp"@), state: State::Idle }
        },
        Some(s) => {
            let f = with(no_fields(), "temp"@, degrees(in_steps(s.milli), 1));
            let f = with(f, "average"@, degrees(milli_sum(c.sensors, n), n));
            let f = with(f, "label"@, text_or_absent(s.label));
            let f = with(f, "chip"@, ValueView::Text(c.name));
            ReadingView { fields: about(f, "temp"@), state: alarm(s.milli) }
        },
    }
}

/// The temperature of a machine, or of one of its chips.
#[derive(Debug)]
pub struct Temperature {
    /// The chip named in the configuration, or nothing to look for the processor.
    pub wanted: Option<String>,
}

impl Temperature {
    pub fn new(wanted: Option<String>) -> (t: Temperature)
        ensures
            opt_view(t.wanted) == opt_view(wanted),
    {
        Temperature { wanted }
    }

    /// What the chips of a machine say, as a reading. Naming a chip that is not there is a
    /// mistake worth reporting; finding no processor sensor at all is a machine that cannot be
    /// read, and it says so.
    pub fn read(&self, chips: &Vec<Chip>) -> (r: Result<Reading, Unread>)
        ensures
            read(r) == match chosen(chips_view(chips@), opt_view(self.wanted)) {
                Some(i) => Ok(shown(chips@[i]@)),
                None => Err(
                    match self.wanted {
                        Some(name) => because(Cause::NoChip, name@),
                        None => because(Cause::NoSensor, Seq::empty()),
                    },
                ),
            },
    {
        let wanted = match &self.wanted {
            Some(name) => Some(name.as_str()),
            None => None,
        };
        match pick(chips, wanted) {
            None => match &self.wanted {
                Some(name) => Err(Unread::new(Cause::NoChip, name.as_str())),
                None => Err(Unread::plainly(Cause::NoSensor)),
            },
            Some(i) => Ok(reading_of(&chips[i])),
        }
    }
}

/// What is shown of a chip.
pub fn reading_of(chip: &Chip) -> (r: Reading)
    ensures
        r@ == shown(chip@),
{
    let mut fields = Fields::new();
    match chip.hottest() {
        None => {
            fields.set("temp", Value::Absent);
            fields.set("average", Value::Absent);
            fields.set("label", Value::Absent);
            fields.set("chip", Value::Text(chip.name.clone()));
            fields.set_primary("temp");
            Reading { fields, state: State::Idle }
        },
        Some(hottest) => {
            fields.set("temp", celsius(Extended::of(hottest.milli), 1));
            fields.set("average", celsius(chip.sum(), chip.sensors.len()));
            fields.set("label", Value::text_or_absent(copy_text(&hottest.label)));
            fields.set("chip", Value::Text(chip.name.clone()));
            fields.set_primary("temp");
            let (hot, warm) = (Number { bits: HOT }, Number { bits: WARM });
            let state = if hot.lt(hottest.milli) || hot.is(hottest.milli) {
                State::Critical
            } else if warm.lt(hottest.milli) || warm.is(hottest.milli) {
                State::Warning
            } else {
                State::Idle
            };
            Reading { fields, state }
        },
    }
}

} // verus!
