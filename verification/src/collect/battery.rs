//! The battery, from `/sys/class/power_supply`.

use crate::extended::{divided, in_steps, opposite, product, side, size, sum, Extended, ExtendedView};
use crate::extended::FINEST;
use crate::natural::{Natural, Whole};
use crate::number::{Number, HUNDRED, UNDEFINED, ZERO};
use crate::status::{about, no_fields, specs_view, with, Amount, AmountView, FieldSpec, FieldView};
use crate::status::{Fields, Kind, Reading, ReadingView, State, Unit, Value, ValueView};
use crate::text::{owned, same, trim, trimmed};
use crate::time::Duration;
use vstd::arithmetic::power2::pow2;
use vstd::prelude::*;

verus! {

/// What this source publishes.
pub open spec fn published() -> Seq<FieldView> {
    seq![
        FieldView { name: "percent"@, kind: Kind::Num(Unit::Percent) },
        FieldView { name: "status"@, kind: Kind::Text },
        FieldView { name: "power"@, kind: Kind::Num(Unit::Watts) },
        FieldView { name: "time"@, kind: Kind::Dur },
        FieldView { name: "health"@, kind: Kind::Num(Unit::Percent) },
        FieldView { name: "threshold"@, kind: Kind::Num(Unit::Percent) },
    ]
}

/// What this source publishes.
pub fn fields() -> (r: Vec<FieldSpec>)
    ensures
        specs_view(r@) == published(),
{
    let r = vec![
        FieldSpec::new("percent", Kind::Num(Unit::Percent)),
        FieldSpec::new("status", Kind::Text),
        FieldSpec::new("power", Kind::Num(Unit::Watts)),
        FieldSpec::new("time", Kind::Dur),
        FieldSpec::new("health", Kind::Num(Unit::Percent)),
        FieldSpec::new("threshold", Kind::Num(Unit::Percent)),
    ];
    assert(specs_view(r@) =~= published());
    r
}

/// Below this many percent, a battery that is draining is `Warning`.
pub const LOW: u64 = 30;

/// Below this, `Critical`.
pub const URGENT: u64 = 15;

/// A length of time nobody is told about: a rate that has only just been sampled can be small
/// enough to imply centuries.
pub const HOURS: u64 = 240;

/// The nanoseconds in an hour.
pub const HOUR: u64 = 3_600_000_000_000;

/// The picowatts in a watt.
pub const WATT: u64 = 1_000_000_000_000;

/// What a battery is doing.
#[derive(Clone, Copy, Debug, PartialEq, Eq, Structural)]
pub enum Status {
    Charging,
    Discharging,
    Full,
    /// Plugged in, but deliberately not charging: a charge threshold is holding it.
    NotCharging,
    Unknown,
}

/// What the kernel's word for it says a battery is doing.
pub open spec fn status_of(text: Seq<char>) -> Status {
    let word = trimmed(text);
    if word == "Charging"@ {
        Status::Charging
    } else if word == "Discharging"@ {
        Status::Discharging
    } else if word == "Full"@ {
        Status::Full
    } else if word == "Not charging"@ {
        Status::NotCharging
    } else {
        Status::Unknown
    }
}

impl Status {
    pub fn parse(text: &str) -> (s: Status)
        ensures
            s == status_of(text@),
    {
        let word = trim(text);
        if same(word.as_str(), "Charging") {
            Status::Charging
        } else if same(word.as_str(), "Discharging") {
            Status::Discharging
        } else if same(word.as_str(), "Full") {
            Status::Full
        } else if same(word.as_str(), "Not charging") {
            Status::NotCharging
        } else {
            Status::Unknown
        }
    }

    /// How much this status has to say about what the machine is doing, for deciding which of
    /// several batteries speaks for all of them.
    pub open spec fn weight(self) -> int {
        match self {
            Status::Unknown => 0,
            Status::Full => 1,
            Status::NotCharging => 2,
            Status::Charging => 3,
            Status::Discharging => 4,
        }
    }

    pub fn urgency(self) -> (n: u8)
        ensures
            n == self.weight(),
    {
        match self {
            Status::Unknown => 0,
            Status::Full => 1,
            Status::NotCharging => 2,
            Status::Charging => 3,
            Status::Discharging => 4,
        }
    }

    /// The word for it, lowercased, so that whoever matches on it does not have to know how the
    /// kernel capitalises.
    pub open spec fn word(self) -> Seq<char> {
        match self {
            Status::Charging => "charging"@,
            Status::Discharging => "discharging"@,
            Status::Full => "full"@,
            Status::NotCharging => "not charging"@,
            Status::Unknown => "unknown"@,
        }
    }

    pub fn name(self) -> (s: &'static str)
        ensures
            s@ == self.word(),
    {
        match self {
            Status::Charging => "charging",
            Status::Discharging => "discharging",
            Status::Full => "full",
            Status::NotCharging => "not charging",
            Status::Unknown => "unknown",
        }
    }
}

/// What the files of one power supply hold, where they could be read: texts, and the numbers that
/// the other files are read as.
#[derive(Debug)]
pub struct Supply {
    pub kind: Option<String>,
    pub status: Option<String>,
    pub present: Option<Number>,
    pub energy_now: Option<Number>,
    pub energy_full: Option<Number>,
    pub energy_full_design: Option<Number>,
    pub power_now: Option<Number>,
    pub voltage_now: Option<Number>,
    pub charge_now: Option<Number>,
    pub charge_full: Option<Number>,
    pub charge_full_design: Option<Number>,
    pub current_now: Option<Number>,
    pub charge_control_end_threshold: Option<Number>,
    pub charge_stop_threshold: Option<Number>,
}

/// How many of the unit that everything is added up in make one step of a millionth.
///
/// A number counts in steps, so a charge times a voltage counts in steps of steps, each of a
/// millionth of a millionth of a watt-hour, or of a watt. That is the unit.
pub open spec fn micro() -> int {
    1_000_000 * pow2(FINEST as nat) as int
}

/// How many of that unit make a watt-hour, or a watt.
pub open spec fn unit() -> int {
    WATT * pow2((2 * FINEST) as nat)
}

/// One battery, in the same unit whichever family the kernel reported it in.
#[derive(Debug)]
pub struct Cell {
    pub now: Extended,
    pub full: Extended,
    pub design: Option<Extended>,
    pub watts: Option<Extended>,
    pub status: Status,
    /// Where charging stops, in percent, when something has capped it below full.
    pub threshold: Option<Number>,
}

/// What a `Cell` says.
pub struct CellView {
    pub now: ExtendedView,
    pub full: ExtendedView,
    pub design: Option<ExtendedView>,
    pub watts: Option<ExtendedView>,
    pub status: Status,
    pub threshold: Option<Number>,
}

/// What a figure that may be missing says.
pub open spec fn figure_view(n: Option<Extended>) -> Option<ExtendedView> {
    match n {
        Some(n) => Some(n@),
        None => None,
    }
}

impl View for Cell {
    type V = CellView;

    open spec fn view(&self) -> CellView {
        CellView {
            now: self.now@,
            full: self.full@,
            design: figure_view(self.design),
            watts: figure_view(self.watts),
            status: self.status,
            threshold: self.threshold,
        }
    }
}

/// A figure times another.
pub open spec fn scaled(n: Option<Number>, by: ExtendedView) -> Option<ExtendedView> {
    match n {
        Some(n) => Some(product(in_steps(n), by)),
        None => None,
    }
}

/// How large a figure is, whichever way it goes. The sign is not consistent across drivers, and
/// the direction is what the status is for.
pub open spec fn magnitude(n: Option<ExtendedView>) -> Option<ExtendedView> {
    match n {
        Some(n) => Some(size(n)),
        None => None,
    }
}

/// The percentage charging stops at, if something is holding it below full. The two files are
/// the same setting under different kernel versions.
pub open spec fn cap(s: Supply) -> Option<Number> {
    let stop = match s.charge_control_end_threshold {
        Some(n) => Some(n),
        None => s.charge_stop_threshold,
    };
    match stop {
        Some(n) => if (Number { bits: ZERO }).less(n) && n.less(Number { bits: HUNDRED }) {
            Some(n)
        } else {
            None
        },
        None => None,
    }
}

/// What a battery holds now, at full and when new, and what it is drawing. The energy family is
/// millionths of watt-hours and watts; the charge family is millionths of ampere-hours and
/// amperes, which become the same thing through the voltage in millionths.
pub open spec fn contents(s: Supply) -> Option<
    (ExtendedView, ExtendedView, Option<ExtendedView>, Option<ExtendedView>),
> {
    match s.energy_now {
        Some(now) => match s.energy_full {
            Some(full) => {
                let by = ExtendedView::Finite(micro());
                Some(
                    (
                        product(in_steps(now), by),
                        product(in_steps(full), by),
                        scaled(s.energy_full_design, by),
                        scaled(s.power_now, by),
                    ),
                )
            },
            None => None,
        },
        None => match (s.voltage_now, s.charge_now, s.charge_full) {
            (Some(volts), Some(now), Some(full)) => {
                let by = in_steps(volts);
                Some(
                    (
                        product(in_steps(now), by),
                        product(in_steps(full), by),
                        scaled(s.charge_full_design, by),
                        scaled(s.current_now, by),
                    ),
                )
            },
            _ => None,
        },
    }
}

/// Whether a capacity is nothing or less.
pub open spec fn holds_nothing(full: ExtendedView) -> bool {
    full != ExtendedView::Undefined && side(full) <= 0
}

/// The battery these files describe. A bay with nothing in it still has a directory, and a
/// battery reporting a capacity of zero cannot be a share of anything.
pub open spec fn cell_of(s: Supply) -> Option<CellView> {
    if s.present matches Some(p) && p.equal(Number { bits: ZERO }) {
        None
    } else {
        match contents(s) {
            None => None,
            Some((now, full, design, watts)) => if holds_nothing(full) {
                None
            } else {
                Some(
                    CellView {
                        now,
                        full,
                        design,
                        watts: magnitude(watts),
                        status: match s.status {
                            Some(t) => status_of(t@),
                            None => Status::Unknown,
                        },
                        threshold: cap(s),
                    },
                )
            },
        }
    }
}

/// Figures as they were worked out.
spec fn worked_out(c: (Extended, Extended, Option<Extended>, Option<Extended>)) -> (
    ExtendedView,
    ExtendedView,
    Option<ExtendedView>,
    Option<ExtendedView>,
) {
    (c.0@, c.1@, figure_view(c.2), figure_view(c.3))
}

fn maybe_times(n: Option<Number>, by: &Extended) -> (r: Option<Extended>)
    ensures
        figure_view(r) == scaled(n, by@),
{
    match n {
        Some(n) => Some(Extended::of(n).times(by)),
        None => None,
    }
}

fn read_contents(s: &Supply) -> (r: Option<(Extended, Extended, Option<Extended>, Option<Extended>)>)
    ensures
        match r {
            Some(c) => contents(*s) == Some(worked_out(c)),
            None => contents(*s) is None,
        },
{
    match s.energy_now {
        Some(now) => match s.energy_full {
            Some(full) => {
                let by = Extended::Finite(Whole::of(Natural::of(1_000_000).doubled(FINEST)));
                Some(
                    (
                        Extended::of(now).times(&by),
                        Extended::of(full).times(&by),
                        maybe_times(s.energy_full_design, &by),
                        maybe_times(s.power_now, &by),
                    ),
                )
            },
            None => None,
        },
        None => match (s.voltage_now, s.charge_now, s.charge_full) {
            (Some(volts), Some(now), Some(full)) => {
                let by = Extended::of(volts);
                Some(
                    (
                        Extended::of(now).times(&by),
                        Extended::of(full).times(&by),
                        maybe_times(s.charge_full_design, &by),
                        maybe_times(s.current_now, &by),
                    ),
                )
            },
            _ => None,
        },
    }
}

fn read_cap(s: &Supply) -> (r: Option<Number>)
    ensures
        r == cap(*s),
{
    let stop = match s.charge_control_end_threshold {
        Some(n) => Some(n),
        None => s.charge_stop_threshold,
    };
    match stop {
        Some(n) => if (Number { bits: ZERO }).lt(n) && n.lt(Number { bits: HUNDRED }) {
            Some(n)
        } else {
            None
        },
        None => None,
    }
}

impl Cell {
    /// The battery these files describe, if they describe one.
    pub fn read(s: &Supply) -> (r: Option<Cell>)
        ensures
            match r {
                Some(c) => cell_of(*s) == Some(c@),
                None => cell_of(*s) is None,
            },
    {
        if let Some(p) = s.present {
            if p.is(Number { bits: ZERO }) {
                return None;
            }
        }
        let status = match &s.status {
            Some(t) => Status::parse(t.as_str()),
            None => Status::Unknown,
        };
        match read_contents(s) {
            None => None,
            Some((now, full, design, watts)) => {
                let some = match full {
                    Extended::Undefined => true,
                    _ => full.is_positive(),
                };
                if !some {
                    return None;
                }
                let watts = match watts {
                    Some(w) => Some(w.size()),
                    None => None,
                };
                Some(Cell { now, full, design, watts, status, threshold: read_cap(s) })
            },
        }
    }
}

/// Whether a power supply is a battery. It is also the mains adapter, a UPS or a wireless mouse,
/// and only a battery has a charge to report.
pub open spec fn is_battery(s: Supply) -> bool {
    match s.kind {
        Some(t) => trimmed(t@) == "Battery"@,
        None => false,
    }
}

/// The batteries among these supplies, from `from` on.
pub open spec fn cells_of(all: Seq<Supply>, from: int) -> Seq<CellView>
    decreases all.len() - from,
{
    if from < 0 || from >= all.len() {
        Seq::empty()
    } else if !is_battery(all[from]) {
        cells_of(all, from + 1)
    } else {
        match cell_of(all[from]) {
            Some(c) => seq![c] + cells_of(all, from + 1),
            None => cells_of(all, from + 1),
        }
    }
}

/// What a list of cells says.
pub open spec fn cells_view(cells: Seq<Cell>) -> Seq<CellView> {
    Seq::new(cells.len(), |i: int| cells[i]@)
}

/// The batteries among these supplies, in the order they are listed.
pub fn batteries(all: &Vec<Supply>) -> (cells: Vec<Cell>)
    ensures
        cells_view(cells@) == cells_of(all@, 0),
{
    let mut cells: Vec<Cell> = Vec::new();
    assert(cells_view(cells@) + cells_of(all@, 0) =~= cells_of(all@, 0));
    for i in 0..all.len()
        invariant
            cells_of(all@, 0) == cells_view(cells@) + cells_of(all@, i as int),
    {
        let battery = match &all[i].kind {
            Some(t) => same(trim(t.as_str()).as_str(), "Battery"),
            None => false,
        };
        let ghost before = cells_view(cells@);
        if battery {
            if let Some(c) = Cell::read(&all[i]) {
                let ghost one = c@;
                cells.push(c);
                proof {
                    assert(cells_view(cells@) =~= before.push(one));
                    let rest = cells_of(all@, i + 1);
                    assert(before + (seq![one] + rest) =~= before.push(one) + rest);
                }
            }
        }
    }
    assert(cells_view(cells@) + Seq::<CellView>::empty() =~= cells_view(cells@));
    cells
}

/// What the first `upto` batteries hold together: now and at full. One that cannot say what it
/// held when new makes the whole figure unanswerable; those that cannot say what they draw are
/// passed over; and the busiest decides what the machine is doing, since one draining while
/// another sits full means the machine is draining.
pub open spec fn together(cells: Seq<CellView>, upto: int) -> CellView
    decreases upto,
{
    if upto <= 0 || upto > cells.len() {
        CellView {
            now: ExtendedView::Finite(0),
            full: ExtendedView::Finite(0),
            design: Some(ExtendedView::Finite(0)),
            watts: None,
            status: cells[0].status,
            threshold: cells[0].threshold,
        }
    } else {
        let before = together(cells, upto - 1);
        let c = cells[upto - 1];
        CellView {
            now: sum(before.now, c.now),
            full: sum(before.full, c.full),
            design: match (before.design, c.design) {
                (Some(a), Some(b)) => Some(sum(a, b)),
                _ => None,
            },
            watts: match (before.watts, c.watts) {
                (Some(a), Some(b)) => Some(sum(a, b)),
                (None, Some(b)) => Some(b),
                (a, None) => a,
            },
            status: if c.status.weight() > before.status.weight() {
                c.status
            } else {
                before.status
            },
            threshold: before.threshold,
        }
    }
}

/// These batteries, added together, if they hold anything that the rest can be a share of.
pub open spec fn total_of(cells: Seq<CellView>) -> Option<CellView> {
    if cells.len() == 0 {
        None
    } else {
        let t = together(cells, cells.len() as int);
        if side(t.full) > 0 {
            Some(t)
        } else {
            None
        }
    }
}

/// Every battery in the machine, added together.
#[derive(Debug)]
pub struct Total {
    pub cell: Cell,
}

fn added(a: Option<Extended>, b: &Option<Extended>) -> (r: Option<Extended>)
    ensures
        figure_view(r) == match (figure_view(a), figure_view(*b)) {
            (Some(a), Some(b)) => Some(sum(a, b)),
            (None, Some(b)) => Some(b),
            (a, None) => a,
        },
{
    match (a, b) {
        (Some(a), Some(b)) => Some(a.plus(b)),
        (None, Some(b)) => Some(b.copy()),
        (a, None) => a,
    }
}

fn part_of(a: &Extended, b: &Extended) -> (r: Amount)
    requires
        side(b@) > 0,
    ensures
        r@ == portion(a@, b@),
{
    match (a, b) {
        (Extended::Finite(n), Extended::Finite(m)) => {
            let held = n.far();
            let whole = m.far();
            let part = if n.is_negative() {
                Natural::of(0)
            } else if whole.below(&held) {
                whole.copy()
            } else {
                held
            };
            Amount::Share { part, whole }
        },
        (Extended::Above, Extended::Finite(_)) => Amount::Count(100),
        (Extended::Below, Extended::Finite(_)) => Amount::Count(0),
        (Extended::Finite(_), _) => Amount::Count(0),
        _ => Amount::Float(Number { bits: UNDEFINED }),
    }
}

impl Total {
    /// Whether this holds anything that the rest can be a share of.
    pub open spec fn wf(self) -> bool {
        side(self.cell@.full) > 0
    }

    /// These batteries, added together, if they hold anything.
    pub fn of(cells: &Vec<Cell>) -> (r: Option<Total>)
        ensures
            match r {
                Some(t) => t.wf() && total_of(cells_view(cells@)) == Some(t.cell@),
                None => total_of(cells_view(cells@)) is None,
            },
    {
        if cells.len() == 0 {
            return None;
        }
        let ghost all = cells_view(cells@);
        assert(all[0] == cells@[0]@);
        let mut t = Cell {
            now: Extended::Finite(Whole::nothing()),
            full: Extended::Finite(Whole::nothing()),
            design: Some(Extended::Finite(Whole::nothing())),
            watts: None,
            status: cells[0].status,
            threshold: cells[0].threshold,
        };
        assert(t@ == together(all, 0));
        for i in 0..cells.len()
            invariant
                all == cells_view(cells@),
                t@ == together(all, i as int),
        {
            assert(all[i as int] == cells@[i as int]@);
            let c = &cells[i];
            t = Cell {
                now: t.now.plus(&c.now),
                full: t.full.plus(&c.full),
                design: match (&t.design, &c.design) {
                    (Some(a), Some(b)) => Some(a.plus(b)),
                    _ => None,
                },
                watts: added(t.watts, &c.watts),
                status: if c.status.urgency() > t.status.urgency() {
                    c.status
                } else {
                    t.status
                },
                threshold: t.threshold,
            };
            assert(t@ == together(all, i + 1));
        }
        if t.full.is_positive() {
            Some(Total { cell: t })
        } else {
            None
        }
    }

    /// How full the machine is.
    pub fn percent(&self) -> (a: Amount)
        requires
            self.wf(),
        ensures
            a@ == charge(self.cell@),
    {
        part_of(&self.cell.now, &self.cell.full)
    }

    /// What is left at full against what the battery held when new.
    pub fn health(&self) -> (a: Option<Amount>)
        requires
            self.wf(),
        ensures
            match a {
                Some(a) => fitness(self.cell@) == Some(a@),
                None => fitness(self.cell@) is None,
            },
    {
        match &self.cell.design {
            None => None,
            Some(design) => if design.is_positive() {
                Some(part_of(&self.cell.full, design))
            } else {
                None
            },
        }
    }

    /// Until empty, or until full, at the rate it is going right now.
    pub fn remaining(&self) -> (r: Option<Duration>)
        requires
            self.wf(),
        ensures
            match r {
                Some(d) => lasting(self.cell@) == Some(d.nanos as int),
                None => lasting(self.cell@) is None,
            },
    {
        let watts = match &self.cell.watts {
            Some(w) => w,
            None => {
                return None;
            },
        };
        let left = match self.cell.status {
            Status::Discharging => self.cell.now.copy(),
            Status::Charging => {
                let more = self.cell.full.plus(&self.cell.now.opposite());
                if more.is_positive() {
                    more
                } else {
                    Extended::Finite(Whole::nothing())
                }
            },
            _ => {
                return None;
            },
        };
        if !watts.is_positive() {
            return None;
        }
        match (left, watts) {
            (Extended::Finite(left), Extended::Finite(watts)) => {
                if left.is_negative() {
                    return None;
                }
                let left = left.far();
                let watts = watts.far();
                assert(watts@ * (HOURS as nat) == HOURS * watts@) by (nonlinear_arith);
                if !left.below(&watts.times(&Natural::of(HOURS as u128))) {
                    return None;
                }
                proof {
                    let l = left@ as int;
                    let w = watts@ as int;
                    assert(l * HOUR < w * (HOURS * HOUR)) by (nonlinear_arith)
                        requires
                            l < w * HOURS,
                    ;
                }
                let limit: u64 = HOURS * HOUR;
                let nanos: u64 = left.times(&Natural::of(HOUR as u128)).quotient(&watts, limit);
                Some(Duration { nanos: nanos as u128 })
            },
            (Extended::Finite(_), _) => Some(Duration { nanos: 0 }),
            _ => None,
        }
    }

    /// How the battery rates its own situation. Only one that is actually draining is worth
    /// alarming about: the same charge with the charger in is fine.
    pub fn state(&self) -> (s: State)
        requires
            self.wf(),
        ensures
            s == alarm(self.cell@),
    {
        match self.cell.status {
            Status::Discharging => {
                if self.is_under(URGENT) {
                    State::Critical
                } else if self.is_under(LOW) {
                    State::Warning
                } else {
                    State::Idle
                }
            },
            Status::Charging => State::Info,
            Status::Full => State::Good,
            Status::NotCharging => State::Idle,
            Status::Unknown => State::Idle,
        }
    }

    /// Whether less than so many percent are left.
    fn is_under(&self, percent: u64) -> (r: bool)
        requires
            self.wf(),
        ensures
            r == under(self.cell@, percent as int),
    {
        match (&self.cell.now, &self.cell.full) {
            (Extended::Finite(now), Extended::Finite(full)) => {
                let hundred = Whole::of(Natural::of(100));
                let some = Whole::of(Natural::of(percent as u128));
                proof {
                    let p = percent as int;
                    assert(p * full@ == full@ * p) by (nonlinear_arith);
                }
                now.times(&hundred).below(&full.times(&some))
            },
            (Extended::Below, Extended::Finite(_)) => true,
            (Extended::Finite(_), _) => true,
            _ => false,
        }
    }
}

/// One thing as a percentage of another that is more than nothing, never below nothing nor above
/// all of it. What is endless is all of what is not, which is nothing of it; and of two endless
/// things neither is any part of the other.
pub open spec fn portion(a: ExtendedView, b: ExtendedView) -> AmountView {
    match (a, b) {
        (ExtendedView::Finite(n), ExtendedView::Finite(whole)) => AmountView::Share {
            part: if n < 0 {
                0
            } else if n > whole {
                whole
            } else {
                n
            },
            whole,
        },
        (ExtendedView::Above, ExtendedView::Finite(_)) => AmountView::Count(100),
        (ExtendedView::Below, ExtendedView::Finite(_)) => AmountView::Count(0),
        (ExtendedView::Finite(_), _) => AmountView::Count(0),
        _ => AmountView::Float(Number { bits: UNDEFINED }),
    }
}

/// How full batteries are.
pub open spec fn charge(t: CellView) -> AmountView {
    portion(t.now, t.full)
}

/// What batteries still hold at full, against what they held when new.
pub open spec fn fitness(t: CellView) -> Option<AmountView> {
    match t.design {
        Some(design) => if side(design) > 0 {
            Some(portion(t.full, design))
        } else {
            None
        },
        None => None,
    }
}

/// What batteries have left to give, or to take on. Nothing when nothing is moving.
pub open spec fn to_go(t: CellView) -> Option<ExtendedView> {
    match t.status {
        Status::Discharging => Some(t.now),
        Status::Charging => {
            let more = sum(t.full, opposite(t.now));
            Some(
                if side(more) > 0 {
                    more
                } else {
                    ExtendedView::Finite(0)
                },
            )
        },
        _ => None,
    }
}

/// How long batteries last, or take to fill, in nanoseconds. There is no answer when nothing is
/// moving, rather than an infinite one.
pub open spec fn lasting(t: CellView) -> Option<int> {
    match (t.watts, to_go(t)) {
        (Some(watts), Some(left)) => if side(watts) <= 0 {
            None
        } else {
            match (left, watts) {
                (ExtendedView::Finite(left), ExtendedView::Finite(watts)) => if left < 0 || left
                    >= HOURS * watts {
                    None
                } else {
                    Some((left * HOUR) / watts)
                },
                (ExtendedView::Finite(_), _) => Some(0),
                _ => None,
            }
        },
        _ => None,
    }
}

/// Whether batteries that hold something are less than so many percent full.
pub open spec fn under(t: CellView, percent: int) -> bool {
    match (t.now, t.full) {
        (ExtendedView::Finite(now), ExtendedView::Finite(full)) => now * 100 < percent * full,
        (ExtendedView::Below, ExtendedView::Finite(_)) => true,
        (ExtendedView::Finite(_), _) => true,
        _ => false,
    }
}

/// How batteries rate their own situation.
pub open spec fn alarm(t: CellView) -> State {
    match t.status {
        Status::Discharging => if under(t, URGENT as int) {
            State::Critical
        } else if under(t, LOW as int) {
            State::Warning
        } else {
            State::Idle
        },
        Status::Charging => State::Info,
        Status::Full => State::Good,
        Status::NotCharging => State::Idle,
        Status::Unknown => State::Idle,
    }
}

/// A number of percent, or nothing.
pub open spec fn share_value(a: Option<AmountView>) -> ValueView {
    match a {
        Some(v) => ValueView::Num { v, unit: Unit::Percent },
        None => ValueView::Absent,
    }
}

fn shown_share(a: Option<Amount>) -> (v: Value)
    ensures
        v@ == share_value(
            match a {
                Some(v) => Some(v@),
                None => None,
            },
        ),
{
    match a {
        Some(v) => Value::Num { v, unit: Unit::Percent },
        None => Value::Absent,
    }
}

/// What is shown of the batteries of a machine.
pub open spec fn shown(cells: Seq<CellView>) -> ReadingView {
    let main = about(no_fields(), "percent"@);
    match total_of(cells) {
        None => {
            let f = with(main, "percent"@, ValueView::Absent);
            let f = with(f, "status"@, ValueView::Absent);
            let f = with(f, "power"@, ValueView::Absent);
            let f = with(f, "time"@, ValueView::Absent);
            let f = with(f, "health"@, ValueView::Absent);
            let f = with(f, "threshold"@, ValueView::Absent);
            ReadingView { fields: f, state: State::Idle }
        },
        Some(t) => {
            let f = with(main, "percent"@, share_value(Some(charge(t))));
            let f = with(f, "status"@, ValueView::Text(t.status.word()));
            let f = with(
                f,
                "power"@,
                match t.watts {
                    Some(w) => ValueView::Num {
                        v: divided(w, unit()),
                        unit: Unit::Watts,
                    },
                    None => ValueView::Absent,
                },
            );
            let f = with(
                f,
                "time"@,
                match lasting(t) {
                    Some(d) => ValueView::Dur(d),
                    None => ValueView::Absent,
                },
            );
            let f = with(f, "health"@, share_value(fitness(t)));
            let f = with(
                f,
                "threshold"@,
                share_value(
                    match t.threshold {
                        Some(n) => Some(AmountView::Float(n)),
                        None => None,
                    },
                ),
            );
            ReadingView { fields: f, state: alarm(t) }
        },
    }
}

/// The charge of a machine.
#[derive(Debug)]
pub struct Battery {}

impl Battery {
    pub fn new() -> (b: Battery)
        ensures
            b == (Battery {  }),
    {
        Battery {  }
    }

    /// What the power supplies of a machine say, as a reading. They are listed on every tick
    /// rather than once, so a battery that is removed or plugged in is noticed. A machine with
    /// none is ordinary rather than an error, and has nothing to report.
    pub fn read(&self, supplies: &Vec<Supply>) -> (r: Reading)
        ensures
            r@ == shown(cells_of(supplies@, 0)),
    {
        let cells = batteries(supplies);
        let mut fields = Fields::new();
        fields.set_primary("percent");
        match Total::of(&cells) {
            None => {
                fields.set("percent", Value::Absent);
                fields.set("status", Value::Absent);
                fields.set("power", Value::Absent);
                fields.set("time", Value::Absent);
                fields.set("health", Value::Absent);
                fields.set("threshold", Value::Absent);
                Reading { fields, state: State::Idle }
            },
            Some(total) => {
                fields.set("percent", shown_share(Some(total.percent())));
                fields.set("status", Value::Text(owned(total.cell.status.name())));
                fields.set(
                    "power",
                    match &total.cell.watts {
                        Some(w) => Value::Num {
                            v: w.over(Natural::of(WATT as u128).doubled(2 * FINEST)),
                            unit: Unit::Watts,
                        },
                        None => Value::Absent,
                    },
                );
                fields.set(
                    "time",
                    match total.remaining() {
                        Some(d) => Value::Dur(d),
                        None => Value::Absent,
                    },
                );
                fields.set("health", shown_share(total.health()));
                fields.set(
                    "threshold",
                    shown_share(
                        match total.cell.threshold {
                            Some(t) => Some(Amount::Float(t)),
                            None => None,
                        },
                    ),
                );
                Reading { fields, state: total.state() }
            },
        }
    }
}

/// A machine is never below empty nor above full, and nothing is divided by nothing.
pub proof fn law_charge_is_a_share(t: CellView)
    requires
        t.full matches ExtendedView::Finite(full) && full > 0,
        t.now is Finite,
    ensures
        charge(t) matches AmountView::Share { part, whole } && 0 <= part <= whole && whole > 0,
        t.design matches Some(ExtendedView::Finite(design)) ==> (fitness(t) matches Some(f) ==> (
        f matches AmountView::Share { part, whole } && 0 < part <= whole)),
{
}

/// Only a battery that is draining is alarmed about, whatever is left in it.
pub proof fn law_only_draining_is_alarming(t: CellView)
    requires
        t.status != Status::Discharging,
    ensures
        alarm(t) != State::Warning,
        alarm(t) != State::Critical,
{
}

/// The busiest battery speaks for the machine: no battery's status outweighs that of all of
/// them together, which is the status of one of them.
pub proof fn law_the_busiest_battery_speaks_for_all(cells: Seq<CellView>, upto: int)
    requires
        0 < upto <= cells.len(),
    ensures
        exists|i: int| 0 <= i < upto && #[trigger] cells[i].status == together(cells, upto).status,
        forall|i: int|
            0 <= i < upto ==> (#[trigger] cells[i]).status.weight() <= together(
                cells,
                upto,
            ).status.weight(),
    decreases upto,
{
    if upto == 1 {
        assert(together(cells, 0).status == cells[0].status);
        assert(cells[0].status == together(cells, upto).status);
    } else {
        law_the_busiest_battery_speaks_for_all(cells, upto - 1);
        let before = together(cells, upto - 1).status;
        let i = choose|i: int| 0 <= i < upto - 1 && #[trigger] cells[i].status == before;
        if cells[upto - 1].status.weight() > before.weight() {
            assert(cells[upto - 1].status == together(cells, upto).status);
        } else {
            assert(cells[i].status == together(cells, upto).status);
        }
    }
}

} // verus!
