//! Network throughput, from `/sys/class/net`.

use crate::collect::unread::{because, read, Cause, Unread, UnreadView};
use crate::status::{about, no_fields, specs_view, with, Amount, AmountView, FieldSpec, FieldView};
use crate::status::{Fields, Kind, Reading, ReadingView, State, Unit, Value, ValueView};
use crate::text::{comes_before, lemma_text_order, natural, opt_view, owned, parse_u64, same};
use crate::text::{text_before, trim, trimmed};
use crate::time::{Duration, Instant};
use vstd::prelude::*;

verus! {

/// What this source publishes.
pub open spec fn published() -> Seq<FieldView> {
    seq![
        FieldView { name: "down"@, kind: Kind::Num(Unit::BytesPerSec) },
        FieldView { name: "up"@, kind: Kind::Num(Unit::BytesPerSec) },
        FieldView { name: "device"@, kind: Kind::Text },
        FieldView { name: "state"@, kind: Kind::Text },
        FieldView { name: "received"@, kind: Kind::Num(Unit::Bytes) },
        FieldView { name: "sent"@, kind: Kind::Num(Unit::Bytes) },
        FieldView { name: "ssid"@, kind: Kind::Text },
        FieldView { name: "signal"@, kind: Kind::Num(Unit::Percent) },
        FieldView { name: "dbm"@, kind: Kind::Num(Unit::Plain) },
    ]
}

/// What this source publishes.
pub fn fields() -> (r: Vec<FieldSpec>)
    ensures
        specs_view(r@) == published(),
{
    let r = vec![
        FieldSpec::new("down", Kind::Num(Unit::BytesPerSec)),
        FieldSpec::new("up", Kind::Num(Unit::BytesPerSec)),
        FieldSpec::new("device", Kind::Text),
        FieldSpec::new("state", Kind::Text),
        FieldSpec::new("received", Kind::Num(Unit::Bytes)),
        FieldSpec::new("sent", Kind::Num(Unit::Bytes)),
        FieldSpec::new("ssid", Kind::Text),
        FieldSpec::new("signal", Kind::Num(Unit::Percent)),
        FieldSpec::new("dbm", Kind::Num(Unit::Plain)),
    ];
    assert(specs_view(r@) =~= published());
    r
}

/// An interface the kernel lists, and what its files say about it.
#[derive(Debug)]
pub struct Interface {
    pub name: String,
    /// Whether there is a device behind it. Loopback, bridges and the `veth` pairs every
    /// container brings have none, which is what keeps a bar off them.
    pub device: bool,
    /// Whether it keeps statistics.
    pub statistics: bool,
    /// What the kernel says the link is doing, where it says.
    pub operstate: Option<String>,
    /// How many bytes came in, and went out, as the kernel wrote them.
    pub rx_bytes: Option<String>,
    pub tx_bytes: Option<String>,
}

/// Whether the link of an interface is up.
pub open spec fn is_up(i: Interface) -> bool {
    match i.operstate {
        Some(s) => trimmed(s@) == "up"@,
        None => false,
    }
}

/// Whether an interface is real hardware.
pub open spec fn is_hardware(i: Interface) -> bool {
    i.device && i.statistics
}

/// Whether one interface is preferred over another: one that is up first, then by name so the
/// choice does not depend on the order they are listed in.
pub open spec fn preferred(a: Interface, b: Interface) -> bool {
    (is_up(a) && !is_up(b)) || (is_up(a) == is_up(b) && text_before(a.name@, b.name@))
}

fn up(i: &Interface) -> (r: bool)
    ensures
        r == is_up(*i),
{
    match &i.operstate {
        Some(s) => same(trim(s.as_str()).as_str(), "up"),
        None => false,
    }
}

/// The interface to watch among the first `upto` of these: real hardware, preferring one that
/// is actually up.
pub open spec fn best(all: Seq<Interface>, upto: int) -> Option<int>
    decreases upto,
{
    if upto <= 0 || upto > all.len() {
        None
    } else if !is_hardware(all[upto - 1]) {
        best(all, upto - 1)
    } else {
        match best(all, upto - 1) {
            None => Some(upto - 1),
            Some(i) => if preferred(all[upto - 1], all[i]) {
                Some(upto - 1)
            } else {
                Some(i)
            },
        }
    }
}

/// The interface to watch among these.
pub fn pick(all: &Vec<Interface>) -> (r: Option<usize>)
    ensures
        match r {
            Some(i) => best(all@, all@.len() as int) == Some(i as int) && i < all@.len(),
            None => best(all@, all@.len() as int) is None,
        },
{
    let mut chosen: Option<usize> = None;
    for i in 0..all.len()
        invariant
            match chosen {
                Some(k) => best(all@, i as int) == Some(k as int) && k < i,
                None => best(all@, i as int) is None,
            },
    {
        if all[i].device && all[i].statistics {
            chosen = match chosen {
                None => Some(i),
                Some(k) => {
                    let (a, b) = (up(&all[i]), up(&all[k]));
                    let first = comes_before(all[i].name.as_str(), all[k].name.as_str());
                    if (a && !b) || (a == b && first) {
                        Some(i)
                    } else {
                        Some(k)
                    }
                },
            };
        }
    }
    chosen
}

/// The interface that is watched is hardware, and no other hardware is preferred over it: one
/// that is up is never passed over for one that is not.
pub proof fn law_no_hardware_is_preferred_over_the_one_watched(all: Seq<Interface>, upto: int)
    requires
        0 <= upto <= all.len(),
    ensures
        match best(all, upto) {
            None => forall|j: int| 0 <= j < upto ==> !is_hardware(#[trigger] all[j]),
            Some(i) => {
                &&& 0 <= i < upto
                &&& is_hardware(all[i])
                &&& forall|j: int|
                    0 <= j < upto && is_hardware(#[trigger] all[j]) ==> !preferred(all[j], all[i])
            },
        },
    decreases upto,
{
    if upto > 0 {
        law_no_hardware_is_preferred_over_the_one_watched(all, upto - 1);
        if let Some(now) = best(all, upto) {
            assert forall|j: int| 0 <= j < upto && is_hardware(#[trigger] all[j]) implies
                !preferred(all[j], all[now]) by {
                lemma_text_order(all[now].name@, all[now].name@, all[now].name@);
                lemma_text_order(all[j].name@, all[now].name@, all[upto - 1].name@);
                if let Some(i) = best(all, upto - 1) {
                    lemma_text_order(all[j].name@, all[now].name@, all[i].name@);
                    lemma_text_order(all[now].name@, all[j].name@, all[i].name@);
                }
            }
        }
    }
}

/// The first interface of a name from `from` on that keeps statistics.
pub open spec fn called(all: Seq<Interface>, name: Seq<char>, from: int) -> Option<int>
    decreases all.len() - from,
{
    if from < 0 || from >= all.len() {
        None
    } else if all[from].name@ == name && all[from].statistics {
        Some(from)
    } else {
        called(all, name, from + 1)
    }
}

/// Which interface to read: the one named, which has to be there, or the one to watch. It is
/// chosen again on every tick, so unplugging the cable moves the module to the wireless card.
pub open spec fn chosen(
    wanted: Option<Seq<char>>,
    all: Seq<Interface>,
) -> Result<Option<int>, UnreadView> {
    match wanted {
        Some(name) => match called(all, name, 0) {
            Some(i) => Ok(Some(i)),
            None => Err(because(Cause::NoInterface, name)),
        },
        None => Ok(best(all, all.len() as int)),
    }
}

/// What an interface had counted at one moment.
#[derive(Debug)]
pub struct Sample {
    pub device: String,
    pub state: String,
    pub received: u64,
    pub sent: u64,
    pub at: Instant,
}

/// What a `Sample` says.
#[verifier::ext_equal]
pub struct SampleView {
    pub device: Seq<char>,
    pub state: Seq<char>,
    pub received: u64,
    pub sent: u64,
    pub at: Instant,
}

impl View for Sample {
    type V = SampleView;

    open spec fn view(&self) -> SampleView {
        SampleView {
            device: self.device@,
            state: self.state@,
            received: self.received,
            sent: self.sent,
            at: self.at,
        }
    }
}

/// What the kernel counted, in a file of this name.
pub open spec fn counted(text: Option<Seq<char>>, file: Seq<char>) -> Result<u64, UnreadView> {
    match text {
        None => Err(because(Cause::Unreadable, file)),
        Some(t) => match natural(trimmed(t), u64::MAX as nat) {
            Some(n) => Ok(n as u64),
            None => Err(because(Cause::NotANumber, file)),
        },
    }
}

fn counter(text: &Option<String>, file: &str) -> (r: Result<u64, Unread>)
    ensures
        match r {
            Ok(n) => counted(opt_view(*text), file@) == Ok::<u64, UnreadView>(n),
            Err(e) => counted(opt_view(*text), file@) == Err::<u64, UnreadView>(e@),
        },
{
    match text {
        None => Err(Unread::new(Cause::Unreadable, file)),
        Some(t) => match parse_u64(trim(t.as_str()).as_str()) {
            Some(n) => Ok(n),
            None => Err(Unread::new(Cause::NotANumber, file)),
        },
    }
}

/// What an interface has counted so far.
pub open spec fn sampled(i: Interface, at: Instant) -> Result<SampleView, UnreadView> {
    match counted(opt_view(i.rx_bytes), "rx_bytes"@) {
        Err(e) => Err(e),
        Ok(received) => match counted(opt_view(i.tx_bytes), "tx_bytes"@) {
            Err(e) => Err(e),
            Ok(sent) => Ok(
                SampleView {
                    device: i.name@,
                    state: match i.operstate {
                        Some(s) => trimmed(s@),
                        None => "unknown"@,
                    },
                    received,
                    sent,
                    at,
                },
            ),
        },
    }
}

/// Bytes since an earlier sample, over the time since. Nothing to report when the counters went
/// backwards, which happens when an interface is brought down and up again, or when no time has
/// passed.
pub open spec fn rate_since(now: SampleView, before: SampleView, down: bool) -> Option<AmountView> {
    let (n, b) = if down {
        (now.received, before.received)
    } else {
        (now.sent, before.sent)
    };
    if now.at.nanos <= before.at.nanos || n < b {
        None
    } else {
        Some(
            AmountView::Rate {
                count: n - b,
                over: now.at.nanos - before.at.nanos,
            },
        )
    }
}

impl Sample {
    pub fn read(i: &Interface, at: Instant) -> (r: Result<Sample, Unread>)
        ensures
            read(r) == sampled(*i, at),
    {
        let received = counter(&i.rx_bytes, "rx_bytes")?;
        let sent = counter(&i.tx_bytes, "tx_bytes")?;
        let state = match &i.operstate {
            Some(s) => trim(s.as_str()),
            None => owned("unknown"),
        };
        Ok(Sample { device: i.name.clone(), state, received, sent, at })
    }

    /// Bytes a second since the previous sample.
    pub fn rate(&self, previous: &Sample, down: bool) -> (r: Option<Amount>)
        ensures
            match r {
                Some(a) => rate_since(self@, previous@, down) == Some(a@),
                None => rate_since(self@, previous@, down) is None,
            },
    {
        let (now, before) = if down {
            (self.received, previous.received)
        } else {
            (self.sent, previous.sent)
        };
        if self.at.nanos <= previous.at.nanos || now < before {
            return None;
        }
        let over = Duration { nanos: self.at.nanos - previous.at.nanos };
        Some(Amount::Rate { count: now - before, over })
    }
}

/// A rate, or nothing.
pub open spec fn rate_value(a: Option<AmountView>) -> ValueView {
    match a {
        Some(v) => ValueView::Num { v, unit: Unit::BytesPerSec },
        None => ValueView::Absent,
    }
}

fn shown_rate(a: Option<Amount>) -> (v: Value)
    ensures
        v@ == rate_value(
            match a {
                Some(v) => Some(v@),
                None => None,
            },
        ),
{
    match a {
        Some(v) => Value::Num { v, unit: Unit::BytesPerSec },
        None => Value::Absent,
    }
}

/// A number of bytes.
pub open spec fn bytes(n: u64) -> ValueView {
    ValueView::Num { v: AmountView::Count(n as int), unit: Unit::Bytes }
}

/// How well a card can hear, in dBm, where it can hear at all.
pub open spec fn decibels(dbm: Option<i8>) -> ValueView {
    match dbm {
        Some(n) => ValueView::Num { v: AmountView::Signed(n as int), unit: Unit::Plain },
        None => ValueView::Absent,
    }
}

/// What a rate is worked out against: the last sample, where it was of the same interface. The
/// counters of a different one are not comparable, so the first tick after a switch reports no
/// rate rather than an enormous one.
pub open spec fn comparable(now: SampleView, last: Option<SampleView>) -> Option<SampleView> {
    match last {
        Some(p) => if p.device == now.device {
            Some(p)
        } else {
            None
        },
        None => None,
    }
}

/// The rate against a sample, where there is one to go by.
pub open spec fn rate_against(
    now: SampleView,
    before: Option<SampleView>,
    down: bool,
) -> Option<AmountView> {
    match before {
        Some(p) => rate_since(now, p, down),
        None => None,
    }
}

/// How a link in this state is rated. One that is down is worth saying so, but it is not an
/// error: an unplugged cable is a fact about the machine.
pub open spec fn link_state(state: Seq<char>) -> State {
    if state == "up"@ {
        State::Good
    } else if state == "down"@ {
        State::Warning
    } else {
        State::Idle
    }
}

/// What is shown of a sample, after the last one, on a network of this name, heard this well.
/// How loud that is as a share of anything is not for a card to say.
pub open spec fn shown(
    now: SampleView,
    last: Option<SampleView>,
    ssid: Option<Seq<char>>,
    dbm: Option<i8>,
) -> ReadingView {
    let before = comparable(now, last);
    let f = with(no_fields(), "down"@, rate_value(rate_against(now, before, true)));
    let f = with(f, "up"@, rate_value(rate_against(now, before, false)));
    let f = with(f, "device"@, ValueView::Text(now.device));
    let f = with(f, "state"@, ValueView::Text(now.state));
    let f = with(
        f,
        "ssid"@,
        match ssid {
            Some(s) => ValueView::Text(s),
            None => ValueView::Absent,
        },
    );
    let f = with(f, "signal"@, ValueView::Absent);
    let f = with(f, "dbm"@, decibels(dbm));
    let f = with(f, "received"@, bytes(now.received));
    let f = with(f, "sent"@, bytes(now.sent));
    ReadingView { fields: about(f, "down"@), state: link_state(now.state) }
}

/// What is shown on a machine with no hardware interface at all. It is unusual but not broken:
/// there is simply nothing to say.
pub open spec fn shown_without_hardware() -> ReadingView {
    let f = with(no_fields(), "down"@, ValueView::Absent);
    let f = with(f, "up"@, ValueView::Absent);
    let f = with(f, "device"@, ValueView::Absent);
    let f = with(f, "state"@, ValueView::Absent);
    let f = with(f, "received"@, ValueView::Absent);
    let f = with(f, "sent"@, ValueView::Absent);
    let f = with(f, "ssid"@, ValueView::Absent);
    let f = with(f, "signal"@, ValueView::Absent);
    let f = with(f, "dbm"@, ValueView::Absent);
    ReadingView { fields: about(f, "down"@), state: State::Idle }
}

/// The network throughput of a machine, or of one of its interfaces.
#[derive(Debug)]
pub struct Network {
    /// The interface named in the configuration, or nothing to pick one.
    pub wanted: Option<String>,
    /// The last sample, to work a rate out against.
    pub previous: Option<Sample>,
}

/// What the last sample says, where there is one.
pub open spec fn last_view(s: Option<Sample>) -> Option<SampleView> {
    match s {
        Some(s) => Some(s@),
        None => None,
    }
}

impl Network {
    pub fn new(wanted: Option<String>) -> (n: Network)
        ensures
            opt_view(n.wanted) == opt_view(wanted),
            n.previous is None,
    {
        Network { wanted, previous: None }
    }

    /// The interface to read among these.
    pub fn choose_among(&self, all: &Vec<Interface>) -> (r: Result<Option<usize>, Unread>)
        ensures
            match r {
                Ok(Some(i)) => i < all@.len() && chosen(opt_view(self.wanted), all@) == Ok::<
                    Option<int>,
                    UnreadView,
                >(Some(i as int)),
                Ok(None) => chosen(opt_view(self.wanted), all@) == Ok::<Option<int>, UnreadView>(
                    None,
                ),
                Err(e) => chosen(opt_view(self.wanted), all@) == Err::<Option<int>, UnreadView>(
                    e@,
                ),
            },
    {
        match &self.wanted {
            None => Ok(pick(all)),
            Some(name) => {
                for i in 0..all.len()
                    invariant
                        self.wanted == Some(*name),
                        called(all@, name@, 0) == called(all@, name@, i as int),
                {
                    if same(all[i].name.as_str(), name.as_str()) && all[i].statistics {
                        return Ok(Some(i));
                    }
                }
                Err(Unread::new(Cause::NoInterface, name.as_str()))
            },
        }
    }

    /// What the interfaces of a machine say at one moment, as a reading, on a network of this
    /// name and heard this well, where the interface that is read has joined one. A sample is
    /// kept to work the next rate out against, unless nothing could be read.
    pub fn read(
        &mut self,
        all: &Vec<Interface>,
        at: Instant,
        ssid: Option<String>,
        dbm: Option<i8>,
    ) -> (r: Result<Reading, Unread>)
        ensures
            final(self).wanted == old(self).wanted,
            match chosen(opt_view(old(self).wanted), all@) {
                Err(e) => read(r) == Err::<ReadingView, UnreadView>(e) && final(self).previous
                    == old(self).previous,
                Ok(None) => read(r) == Ok::<ReadingView, UnreadView>(shown_without_hardware())
                    && final(self).previous == old(self).previous,
                Ok(Some(i)) => match sampled(all@[i], at) {
                    Err(e) => read(r) == Err::<ReadingView, UnreadView>(e) && final(self).previous
                        == old(self).previous,
                    Ok(now) => {
                        &&& read(r) == Ok::<ReadingView, UnreadView>(
                            shown(now, last_view(old(self).previous), opt_view(ssid), dbm),
                        )
                        &&& last_view(final(self).previous) == Some(now)
                    },
                },
            },
    {
        let device = match self.choose_among(all)? {
            Some(i) => i,
            None => {
                return Ok(nothing());
            },
        };
        let now = Sample::read(&all[device], at)?;
        let before = match &self.previous {
            Some(p) => if same(p.device.as_str(), now.device.as_str()) {
                Some(p)
            } else {
                None
            },
            None => None,
        };
        let (down, up) = match before {
            Some(p) => (now.rate(p, true), now.rate(p, false)),
            None => (None, None),
        };
        let reading = reading_of(&now, down, up, ssid, dbm);
        self.previous = Some(now);
        Ok(reading)
    }
}

/// What is shown of a sample, at these rates.
fn reading_of(
    now: &Sample,
    down: Option<Amount>,
    up: Option<Amount>,
    ssid: Option<String>,
    dbm: Option<i8>,
) -> (r: Reading)
    ensures
        forall|last: Option<SampleView>|
            {
                &&& rate_against(now@, #[trigger] comparable(now@, last), true) == match down {
                    Some(v) => Some(v@),
                    None => None,
                }
                &&& rate_against(now@, comparable(now@, last), false) == match up {
                    Some(v) => Some(v@),
                    None => None,
                }
            } ==> r@ == shown(now@, last, opt_view(ssid), dbm),
{
    let mut fields = Fields::new();
    fields.set("down", shown_rate(down));
    fields.set("up", shown_rate(up));
    fields.set("device", Value::Text(now.device.clone()));
    fields.set("state", Value::Text(now.state.clone()));
    fields.set("ssid", Value::text_or_absent(ssid));
    fields.set("signal", Value::Absent);
    fields.set(
        "dbm",
        match dbm {
            Some(n) => Value::Num { v: Amount::Signed(n as i64), unit: Unit::Plain },
            None => Value::Absent,
        },
    );
    fields.set(
        "received",
        Value::Num { v: Amount::Count(now.received as u128), unit: Unit::Bytes },
    );
    fields.set("sent", Value::Num { v: Amount::Count(now.sent as u128), unit: Unit::Bytes });
    fields.set_primary("down");
    let state = if same(now.state.as_str(), "up") {
        State::Good
    } else if same(now.state.as_str(), "down") {
        State::Warning
    } else {
        State::Idle
    };
    Reading { fields, state }
}

/// What is shown on a machine with no hardware interface at all.
fn nothing() -> (r: Reading)
    ensures
        r@ == shown_without_hardware(),
{
    let mut fields = Fields::new();
    fields.set("down", Value::Absent);
    fields.set("up", Value::Absent);
    fields.set("device", Value::Absent);
    fields.set("state", Value::Absent);
    fields.set("received", Value::Absent);
    fields.set("sent", Value::Absent);
    fields.set("ssid", Value::Absent);
    fields.set("signal", Value::Absent);
    fields.set("dbm", Value::Absent);
    fields.set_primary("down");
    Reading { fields, state: State::Idle }
}

/// A rate needs two samples of one interface: the first tick, and the first after a switch,
/// report none.
pub proof fn law_a_rate_needs_two_samples_of_one_interface(
    now: SampleView,
    last: Option<SampleView>,
    ssid: Option<Seq<char>>,
    dbm: Option<i8>,
)
    requires
        match last {
            Some(p) => p.device != now.device,
            None => true,
        },
    ensures
        shown(now, last, ssid, dbm).fields.values["down"@] == ValueView::Absent,
        shown(now, last, ssid, dbm).fields.values["up"@] == ValueView::Absent,
{
    lemma_names_differ();
}

proof fn lemma_names_differ()
    ensures
        "down"@ != "up"@,
        "down"@ != "device"@,
        "down"@ != "state"@,
        "down"@ != "ssid"@,
        "down"@ != "signal"@,
        "down"@ != "dbm"@,
        "down"@ != "received"@,
        "down"@ != "sent"@,
        "up"@ != "device"@,
        "up"@ != "state"@,
        "up"@ != "ssid"@,
        "up"@ != "signal"@,
        "up"@ != "dbm"@,
        "up"@ != "received"@,
        "up"@ != "sent"@,
{
    reveal_strlit("down");
    reveal_strlit("up");
    reveal_strlit("device");
    reveal_strlit("state");
    reveal_strlit("ssid");
    reveal_strlit("signal");
    reveal_strlit("dbm");
    reveal_strlit("received");
    reveal_strlit("sent");
    assert("down"@.len() == 4 && "up"@.len() == 2 && "device"@.len() == 6 && "dbm"@.len() == 3);
    assert("state"@.len() == 5 && "signal"@.len() == 6 && "received"@.len() == 8);
    assert("down"@[0] == 'd' && "ssid"@[0] == 's' && "sent"@[0] == 's');
}

/// What is known of the machine's wireless stack. It is opened the first time a wireless
/// interface is read and kept afterwards; a machine with no wireless never opens it at all.
#[derive(Clone, Copy, Debug, PartialEq, Eq, Structural)]
pub enum Radio {
    Unopened,
    Open,
    /// The stack has refused, so it is not asked again.
    Refused,
}

/// What to do to learn the network an interface has joined.
#[derive(Clone, Copy, Debug, PartialEq, Eq, Structural)]
pub enum RadioStep {
    /// There is nothing to learn.
    Skip,
    /// Open the stack, then ask.
    OpenAndAsk,
    Ask,
}

impl Radio {
    /// What to do about an interface that has a radio behind it, or has none. A cable is never
    /// asked.
    pub fn step(self, wireless: bool) -> (s: RadioStep)
        ensures
            s == if !wireless || self == Radio::Refused {
                RadioStep::Skip
            } else if self == Radio::Unopened {
                RadioStep::OpenAndAsk
            } else {
                RadioStep::Ask
            },
    {
        if !wireless {
            return RadioStep::Skip;
        }
        match self {
            Radio::Refused => RadioStep::Skip,
            Radio::Unopened => RadioStep::OpenAndAsk,
            Radio::Open => RadioStep::Ask,
        }
    }

    /// What is known once the stack was opened, or could not be.
    pub fn opened(well: bool) -> (r: Radio)
        ensures
            r == if well {
                Radio::Open
            } else {
                Radio::Refused
            },
    {
        if well {
            Radio::Open
        } else {
            Radio::Refused
        }
    }

    /// What is known once the stack was asked. One that failed is dropped rather than kept in a
    /// state nothing understands; the next tick opens a new one.
    pub fn asked(self, well: bool) -> (r: Radio)
        ensures
            r == if well {
                self
            } else {
                Radio::Unopened
            },
    {
        if well {
            self
        } else {
            Radio::Unopened
        }
    }
}

} // verus!
