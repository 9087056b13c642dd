//! The things a native module can be built on.

use crate::collect::command::Run;
use crate::collect::{audio, backlight, battery, cpu, disk, load, media, memory, network};
use crate::collect::{temperature, time};
use crate::status::{copy_specs, specs_view, FieldSpec, FieldView};
use crate::text::{copy_text, copy_texts, joined, opt_view, owned, same, same_opts, same_texts, texts};
use crate::time::Duration;
use vstd::prelude::*;

verus! {

/// A command module: what to run, and what it says it will publish.
///
/// Two modules naming the same command the same way share one process, so the argv and how it
/// is run decide identity. The declared fields are for checking the configuration, not for
/// telling one command from another.
#[derive(Debug)]
pub struct CommandSpec {
    pub argv: Vec<String>,
    /// Whether the command streams, answers on an interval, or answers once.
    pub run: Run,
    /// Whether every line of a run is a reading of its own, rather than the last one being the
    /// answer.
    pub pages: bool,
    /// What the configuration declares that the command prints.
    pub fields: Vec<FieldSpec>,
    /// How long one run is given before it is stopped.
    pub timeout: Duration,
}

/// What a `CommandSpec` says.
#[verifier::ext_equal]
pub struct CommandView {
    pub argv: Seq<Seq<char>>,
    pub run: Run,
    pub pages: bool,
    pub fields: Seq<FieldView>,
    pub timeout: Duration,
}

impl View for CommandSpec {
    type V = CommandView;

    open spec fn view(&self) -> CommandView {
        CommandView {
            argv: texts(self.argv@),
            run: self.run,
            pages: self.pages,
            fields: specs_view(self.fields@),
            timeout: self.timeout,
        }
    }
}

/// What tells one command from another: everything but the fields it declares.
pub open spec fn command_key(c: CommandView) -> CommandView {
    CommandView { fields: Seq::empty(), ..c }
}

impl CommandSpec {
    /// Whether two of these are one command.
    pub fn same(&self, other: &CommandSpec) -> (r: bool)
        ensures
            r == (command_key(self@) == command_key(other@)),
    {
        same_texts(&self.argv, &other.argv) && self.run == other.run && self.pages == other.pages
            && self.timeout == other.timeout
    }

    pub fn copy(&self) -> (c: CommandSpec)
        ensures
            c@ == self@,
    {
        CommandSpec {
            argv: copy_texts(&self.argv),
            run: self.run,
            pages: self.pages,
            fields: copy_specs(&self.fields),
            timeout: self.timeout,
        }
    }
}

/// One thing a native module can be built on.
///
/// Some of these carry what they are pointed at, because "the disk" and "the network" are not
/// single things. Two modules watching the same path share one reading while two watching
/// different paths do not.
#[derive(Debug)]
pub enum Which {
    Audio,
    Media,
    Cpu,
    Memory,
    Battery,
    Backlight,
    Load,
    Temperature(Option<String>),
    Disk(String),
    Network(Option<String>),
    Time,
    /// A program of one's own.
    Command(CommandSpec),
}

/// What a `Which` says.
pub enum WhichView {
    Audio,
    Media,
    Cpu,
    Memory,
    Battery,
    Backlight,
    Load,
    Temperature(Option<Seq<char>>),
    Disk(Seq<char>),
    Network(Option<Seq<char>>),
    Time,
    Command(CommandView),
}

impl View for Which {
    type V = WhichView;

    open spec fn view(&self) -> WhichView {
        match self {
            Which::Audio => WhichView::Audio,
            Which::Media => WhichView::Media,
            Which::Cpu => WhichView::Cpu,
            Which::Memory => WhichView::Memory,
            Which::Battery => WhichView::Battery,
            Which::Backlight => WhichView::Backlight,
            Which::Load => WhichView::Load,
            Which::Temperature(chip) => WhichView::Temperature(opt_view(*chip)),
            Which::Disk(path) => WhichView::Disk(path@),
            Which::Network(device) => WhichView::Network(opt_view(*device)),
            Which::Time => WhichView::Time,
            Which::Command(spec) => WhichView::Command(spec@),
        }
    }
}

/// What tells one source from another.
pub open spec fn key(w: WhichView) -> WhichView {
    match w {
        WhichView::Command(spec) => WhichView::Command(command_key(spec)),
        other => other,
    }
}

/// The bare name of a source, without whatever it is pointed at.
pub open spec fn name_of(w: WhichView) -> Seq<char> {
    match w {
        WhichView::Audio => "audio"@,
        WhichView::Media => "media"@,
        WhichView::Cpu => "cpu"@,
        WhichView::Memory => "memory"@,
        WhichView::Battery => "battery"@,
        WhichView::Backlight => "backlight"@,
        WhichView::Load => "load"@,
        WhichView::Temperature(_) => "temperature"@,
        WhichView::Disk(_) => "disk"@,
        WhichView::Network(_) => "network"@,
        WhichView::Time => "time"@,
        WhichView::Command(_) => "command"@,
    }
}

/// How a source appears in a log: with what it is pointed at, where it is pointed at
/// something.
pub open spec fn description(w: WhichView) -> Seq<char> {
    match w {
        WhichView::Disk(path) => "disk "@ + path,
        WhichView::Temperature(Some(chip)) => "temperature "@ + chip,
        WhichView::Network(Some(device)) => "network "@ + device,
        other => name_of(other),
    }
}

/// What a source publishes.
pub open spec fn fields_of(w: WhichView) -> Seq<FieldView> {
    match w {
        WhichView::Audio => audio::published(),
        WhichView::Media => media::published(),
        WhichView::Cpu => cpu::published(),
        WhichView::Memory => memory::published(),
        WhichView::Battery => battery::published(),
        WhichView::Backlight => backlight::published(),
        WhichView::Load => load::published(),
        WhichView::Temperature(_) => temperature::published(),
        WhichView::Disk(_) => disk::published(),
        WhichView::Network(_) => network::published(),
        WhichView::Time => time::published(),
        WhichView::Command(spec) => spec.fields,
    }
}

/// What a module says when the configuration does not give it a format.
pub open spec fn default_wording(w: WhichView) -> Seq<char> {
    match w {
        WhichView::Audio => " $volume "@,
        WhichView::Media => " $title{  $artist} "@,
        WhichView::Cpu => " $utilization "@,
        WhichView::Memory => " $percent "@,
        WhichView::Battery => " $percent "@,
        WhichView::Backlight => " $brightness "@,
        WhichView::Load => " $one "@,
        WhichView::Temperature(_) => " $temp "@,
        WhichView::Disk(_) => " $available "@,
        WhichView::Network(_) => " $down  $up "@,
        WhichView::Time => " $now.time(f:'%a %d %b %H:%M') "@,
        WhichView::Command(_) => " $text "@,
    }
}

/// How many seconds pass between readings, when the configuration does not say.
pub open spec fn default_seconds(w: WhichView) -> int {
    match w {
        WhichView::Cpu | WhichView::Memory | WhichView::Load | WhichView::Network(_) => 2,
        WhichView::Temperature(_) | WhichView::Backlight => 5,
        WhichView::Battery => 30,
        _ => 60,
    }
}

/// Whether reading a source can wait on something outside the event loop's control.
pub open spec fn can_block(w: WhichView) -> bool {
    match w {
        WhichView::Battery | WhichView::Disk(_) | WhichView::Network(_) => true,
        WhichView::Temperature(chip) => chip is Some,
        _ => false,
    }
}

/// Whether a source arrives on its own rather than being read on the shared timer.
pub open spec fn arrives(w: WhichView) -> bool {
    w is Audio || w is Media || w is Command || can_block(w)
}

/// How the kernel reports a change to a source.
#[derive(Debug)]
pub enum Watch {
    /// A file the kernel announces a write to.
    Attribute(String),
    /// A kind of device the kernel announces changes of.
    Uevent(String),
}

/// What a `Watch` says.
pub enum WatchView {
    Attribute(Seq<char>),
    Uevent(Seq<char>),
}

impl View for Watch {
    type V = WatchView;

    open spec fn view(&self) -> WatchView {
        match self {
            Watch::Attribute(path) => WatchView::Attribute(path@),
            Watch::Uevent(kind) => WatchView::Uevent(kind@),
        }
    }
}

/// Whether the kernel can report a change on a source. One that it cannot is read on an
/// interval; one that it can is read on an interval only while nothing reports on it.
pub open spec fn is_watchable(w: WhichView) -> bool {
    w is Backlight || w is Battery
}

/// How the kernel reports a change to a source, if it does, where `backlight` is the file the
/// brightness is announced on.
pub open spec fn watched_by(w: WhichView, backlight: Option<Seq<char>>) -> Option<WatchView> {
    match w {
        WhichView::Backlight => match backlight {
            Some(path) => Some(WatchView::Attribute(path)),
            None => None,
        },
        WhichView::Battery => Some(WatchView::Uevent("power_supply"@)),
        _ => None,
    }
}

impl Which {
    /// The bare source name, without whatever it is pointed at.
    pub fn name(&self) -> (r: &'static str)
        ensures
            r@ == name_of(self@),
    {
        match self {
            Which::Audio => "audio",
            Which::Media => "media",
            Which::Cpu => "cpu",
            Which::Memory => "memory",
            Which::Battery => "battery",
            Which::Backlight => "backlight",
            Which::Load => "load",
            Which::Temperature(_) => "temperature",
            Which::Disk(_) => "disk",
            Which::Network(_) => "network",
            Which::Time => "time",
            Which::Command(_) => "command",
        }
    }

    /// How this source appears in a log, which for a parameterised one includes what it is
    /// pointed at, or there is no telling two of them apart.
    pub fn describe(&self) -> (r: String)
        ensures
            r@ == description(self@),
    {
        match self {
            Which::Disk(path) => joined("disk ", path.as_str()),
            Which::Temperature(Some(chip)) => joined("temperature ", chip.as_str()),
            Which::Network(Some(device)) => joined("network ", device.as_str()),
            other => owned(other.name()),
        }
    }

    /// What this source publishes.
    pub fn fields(&self) -> (r: Vec<FieldSpec>)
        ensures
            specs_view(r@) == fields_of(self@),
    {
        match self {
            Which::Audio => audio::fields(),
            Which::Media => media::fields(),
            Which::Cpu => cpu::fields(),
            Which::Memory => memory::fields(),
            Which::Battery => battery::fields(),
            Which::Backlight => backlight::fields(),
            Which::Load => load::fields(),
            Which::Temperature(_) => temperature::fields(),
            Which::Disk(_) => disk::fields(),
            Which::Network(_) => network::fields(),
            Which::Time => time::fields(),
            Which::Command(spec) => copy_specs(&spec.fields),
        }
    }

    /// What the module says when the configuration does not give it a format.
    pub fn default_format(&self) -> (r: &'static str)
        ensures
            r@ == default_wording(self@),
    {
        match self {
            Which::Audio => " $volume ",
            Which::Media => " $title{  $artist} ",
            Which::Cpu => " $utilization ",
            Which::Memory => " $percent ",
            Which::Battery => " $percent ",
            Which::Backlight => " $brightness ",
            Which::Load => " $one ",
            Which::Temperature(_) => " $temp ",
            Which::Disk(_) => " $available ",
            Which::Network(_) => " $down  $up ",
            Which::Time => " $now.time(f:'%a %d %b %H:%M') ",
            Which::Command(_) => " $text ",
        }
    }

    /// How often to read, when the configuration does not say.
    pub fn default_interval(&self) -> (d: Duration)
        ensures
            d.nanos == default_seconds(self@) * 1_000_000_000,
            d.wf(),
    {
        match self {
            Which::Cpu | Which::Memory | Which::Load | Which::Network(_) => Duration::from_secs(2),
            Which::Temperature(_) | Which::Backlight => Duration::from_secs(5),
            Which::Battery => Duration::from_secs(30),
            _ => Duration::from_secs(60),
        }
    }

    /// Whether readings should land on the wall clock rather than drifting from start-up.
    ///
    /// A clock that ticks 1.3 seconds after every minute is visibly wrong for most of a
    /// second; nothing else cares when in the second it is sampled.
    pub fn aligned(&self) -> (r: bool)
        ensures
            r == (self@ is Time),
    {
        match self {
            Which::Time => true,
            _ => false,
        }
    }

    /// Whether this source arrives on its own rather than being read.
    pub fn pushed(&self) -> (r: bool)
        ensures
            r == arrives(self@),
    {
        match self {
            Which::Audio | Which::Media | Which::Command(_) => true,
            other => other.blocking(),
        }
    }

    /// Whether reading this source can wait on something outside the event loop's control.
    ///
    /// A filesystem answers when it does, which for a network mount may be never; a wireless
    /// link is a request and a wait for the driver. Battery and explicitly chosen temperature
    /// attributes may ask firmware through their drivers.
    pub fn blocking(&self) -> (r: bool)
        ensures
            r == can_block(self@),
    {
        match self {
            Which::Battery | Which::Disk(_) | Which::Network(_) => true,
            Which::Temperature(chip) => chip.is_some(),
            _ => false,
        }
    }

    /// Whether the kernel can report a change on this source.
    pub fn watchable(&self) -> (r: bool)
        ensures
            r == is_watchable(self@),
    {
        match self {
            Which::Backlight | Which::Battery => true,
            _ => false,
        }
    }

    /// Every source the kernel can report a change on, so the watcher knows what to try.
    pub fn all_watchable() -> (v: Vec<Which>)
        ensures
            v@.len() == 2,
            v@[0]@ is Backlight,
            v@[1]@ is Battery,
    {
        vec![Which::Backlight, Which::Battery]
    }

    /// How the kernel reports a change to this source, if it does. `backlight` is the file the
    /// brightness is announced on, where the machine has one.
    pub fn watch(&self, backlight: Option<String>) -> (r: Option<Watch>)
        ensures
            match r {
                Some(w) => watched_by(self@, opt_view(backlight)) == Some(w@),
                None => watched_by(self@, opt_view(backlight)) is None,
            },
    {
        match self {
            Which::Backlight => match backlight {
                Some(path) => Some(Watch::Attribute(path)),
                None => None,
            },
            Which::Battery => Some(Watch::Uevent(owned("power_supply"))),
            _ => None,
        }
    }

    /// Whether two of these are one source to read.
    pub fn same(&self, other: &Which) -> (r: bool)
        ensures
            r == (key(self@) == key(other@)),
    {
        match (self, other) {
            (Which::Audio, Which::Audio) => true,
            (Which::Media, Which::Media) => true,
            (Which::Cpu, Which::Cpu) => true,
            (Which::Memory, Which::Memory) => true,
            (Which::Battery, Which::Battery) => true,
            (Which::Backlight, Which::Backlight) => true,
            (Which::Load, Which::Load) => true,
            (Which::Temperature(a), Which::Temperature(b)) => same_opts(a, b),
            (Which::Disk(a), Which::Disk(b)) => same(a.as_str(), b.as_str()),
            (Which::Network(a), Which::Network(b)) => same_opts(a, b),
            (Which::Time, Which::Time) => true,
            (Which::Command(a), Which::Command(b)) => a.same(b),
            _ => false,
        }
    }

    pub fn copy(&self) -> (w: Which)
        ensures
            w@ == self@,
    {
        match self {
            Which::Audio => Which::Audio,
            Which::Media => Which::Media,
            Which::Cpu => Which::Cpu,
            Which::Memory => Which::Memory,
            Which::Battery => Which::Battery,
            Which::Backlight => Which::Backlight,
            Which::Load => Which::Load,
            Which::Temperature(chip) => Which::Temperature(copy_text(chip)),
            Which::Disk(path) => Which::Disk(path.clone()),
            Which::Network(device) => Which::Network(copy_text(device)),
            Which::Time => Which::Time,
            Which::Command(spec) => Which::Command(spec.copy()),
        }
    }
}

impl PartialEq for Which {
    fn eq(&self, other: &Which) -> (r: bool) {
        self.same(other)
    }
}

impl vstd::std_specs::cmp::PartialEqSpecImpl for Which {
    open spec fn obeys_eq_spec() -> bool {
        true
    }

    open spec fn eq_spec(&self, other: &Which) -> bool {
        key(self@) == key(other@)
    }
}

impl PartialEq for CommandSpec {
    fn eq(&self, other: &CommandSpec) -> (r: bool) {
        self.same(other)
    }
}

impl vstd::std_specs::cmp::PartialEqSpecImpl for CommandSpec {
    open spec fn obeys_eq_spec() -> bool {
        true
    }

    open spec fn eq_spec(&self, other: &CommandSpec) -> bool {
        command_key(self@) == command_key(other@)
    }
}

} // verus!
