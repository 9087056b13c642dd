//! Why a configuration is refused, and where.

use crate::config::button::{button_name, job_key, Button, Job};
use crate::config::icon::Icon;
use crate::number::Number;
use crate::status::{Kind, Unit};
use crate::text::{decimal, decimal_of, joined, owned, texts};
use vstd::prelude::*;
use vstd::string::*;

verus! {

/// Why a source cannot be asked for a reading.
#[derive(Clone, Copy, Debug, PartialEq, Eq, Structural)]
pub enum Unaskable {
    /// A streaming command speaks when it has something to say.
    Streams,
    /// The source arrives when it changes.
    Arrives,
    /// The source is not one the bar reads.
    Elsewhere,
}

/// What is wrong with a configuration.
#[derive(Clone, Copy, Debug, PartialEq, Eq, Structural)]
pub enum Why {
    NeedsUnit,
    NotANumber,
    NotPositive,
    UnknownUnit,
    TooShort,
    TooLong,
    NotAPercentage,
    StepOutOfRange,
    NotHexadecimal,
    ColorLength,
    UnknownColor,
    UnknownIcon,
    UnknownStyle,
    UnknownState,
    UnknownFieldKind,
    NoCommand,
    PagesOfStream,
    TimeoutOfStream,
    UnknownSource,
    Misplaced,
    ScopeMisplaced,
    UnpublishedField,
    NotNumeric(Kind),
    NotAWord(Kind),
    NothingCompared,
    MatchesText,
    IntervalUnread,
    SignalRefused(Unaskable),
    SignalOutOfRange { offset: i32, highest: i32 },
    RefreshRefused(Unaskable),
    ScrollAndControls,
    ScrollOfCommand,
    ScrollOfUnset,
    ControlsOfUnplayed,
    UnreadFormat,
    BadFormat,
    UnpublishedInFormat,
    AnimationTooLong,
    AnimationWithoutFold,
    AnimationWithoutWordings,
    CollapsedWithoutFold,
    NoCollapseButton,
    NoCollapsedIcon,
    FoldsToNothing,
    NoIconToFoldTo,
    StateWithoutIcon,
    EmptyIcon,
    IconWithoutSize,
    IconTooWide,
    Unmeasured { icon: Icon, icon_size: Number, padding: Number },
    NothingToMute,
    NoProgram(Button),
    ButtonTwice { button: Button, first: Job, second: Job },
    ButtonReserved { button: Button, job: Job },
    OpacityOutOfRange,
    UnknownGroup,
    UnjoinableWidth,
    UnjoinableGroup,
    KindDisagrees { seen: Kind, declared: Kind },
    TooManyPrograms(u64),
}

/// What is wrong, and with which words.
#[derive(Debug)]
pub struct Slip {
    pub why: Why,
    pub word: String,
    pub other: String,
}

/// What a `Slip` says.
#[verifier::ext_equal]
pub struct SlipView {
    pub why: Why,
    pub word: Seq<char>,
    pub other: Seq<char>,
}

impl View for Slip {
    type V = SlipView;

    open spec fn view(&self) -> SlipView {
        SlipView { why: self.why, word: self.word@, other: self.other@ }
    }
}

/// A slip that is about one word.
pub open spec fn about(why: Why, word: Seq<char>) -> SlipView {
    SlipView { why, word, other: Seq::empty() }
}

/// A slip that is about no word in particular.
pub open spec fn plainly(why: Why) -> SlipView {
    SlipView { why, word: Seq::empty(), other: Seq::empty() }
}

impl Slip {
    pub fn about(why: Why, word: &str) -> (s: Slip)
        ensures
            s@ == about(why, word@),
    {
        let s = Slip { why, word: owned(word), other: String::new() };
        assert(s@ =~= about(why, word@));
        s
    }

    pub fn plainly(why: Why) -> (s: Slip)
        ensures
            s@ == plainly(why),
    {
        let s = Slip { why, word: String::new(), other: String::new() };
        assert(s@ =~= plainly(why));
        s
    }
}

/// A place in a configuration: the tables down to it, and the key it is under, if any.
#[derive(Debug)]
pub struct Place {
    pub tables: Vec<String>,
    pub key: String,
}

/// What a `Place` says.
#[verifier::ext_equal]
pub struct PlaceView {
    pub tables: Seq<Seq<char>>,
    pub key: Seq<char>,
}

impl View for Place {
    type V = PlaceView;

    open spec fn view(&self) -> PlaceView {
        PlaceView { tables: texts(self.tables@), key: self.key@ }
    }
}

/// A slip, and where it was made.
#[derive(Debug)]
pub struct Refusal {
    pub at: Place,
    pub slip: Slip,
}

/// What a `Refusal` says.
#[verifier::ext_equal]
pub struct RefusalView {
    pub at: PlaceView,
    pub slip: SlipView,
}

impl View for Refusal {
    type V = RefusalView;

    open spec fn view(&self) -> RefusalView {
        RefusalView { at: self.at@, slip: self.slip@ }
    }
}

/// A table.
pub open spec fn table(tables: Seq<Seq<char>>) -> PlaceView {
    PlaceView { tables, key: Seq::empty() }
}

/// A key of a table.
pub open spec fn keyed(tables: Seq<Seq<char>>, key: Seq<char>) -> PlaceView {
    PlaceView { tables, key }
}

/// What a reading that may be refused came to.
pub open spec fn told<T: View>(r: Result<T, Refusal>) -> Result<T::V, RefusalView> {
    match r {
        Ok(t) => Ok(t@),
        Err(e) => Err(e@),
    }
}

/// What a reading that may slip came to.
pub open spec fn slipped<T: View>(r: Result<T, Slip>) -> Result<T::V, SlipView> {
    match r {
        Ok(t) => Ok(t@),
        Err(e) => Err(e@),
    }
}

/// What a reading that may slip came to, once it is said where it was made.
pub open spec fn placed<T>(r: Result<T, SlipView>, at: PlaceView) -> Result<T, RefusalView> {
    match r {
        Ok(t) => Ok(t),
        Err(slip) => Err(RefusalView { at, slip }),
    }
}

/// A slip in a table.
pub open spec fn refused(tables: Seq<Seq<char>>, slip: SlipView) -> RefusalView {
    RefusalView { at: table(tables), slip }
}

impl Refusal {
    pub fn new(at: Place, slip: Slip) -> (r: Refusal)
        ensures
            r@ == (RefusalView { at: at@, slip: slip@ }),
    {
        Refusal { at, slip }
    }
}

/// Say where a slip was made.
pub fn put<T>(r: Result<T, Slip>, at: Place) -> (out: Result<T, Refusal>)
    ensures
        match (r, out) {
            (Ok(a), Ok(b)) => a == b,
            (Err(slip), Err(e)) => e@ == (RefusalView { at: at@, slip: slip@ }),
            _ => false,
        },
{
    match r {
        Ok(t) => Ok(t),
        Err(slip) => Err(Refusal::new(at, slip)),
    }
}

/// The configuration as a whole.
pub fn at0() -> (p: Place)
    ensures
        p@ == table(Seq::empty()),
{
    let p = Place { tables: Vec::new(), key: String::new() };
    assert(p@ =~= table(Seq::empty()));
    p
}

/// A table one name deep.
pub fn at1(a: &str) -> (p: Place)
    ensures
        p@ == table(seq![a@]),
{
    let tables = vec![owned(a)];
    assert(texts(tables@) =~= seq![a@]);
    let p = Place { tables, key: String::new() };
    assert(p@ =~= table(seq![a@]));
    p
}

/// A table two names deep.
pub fn at2(a: &str, b: &str) -> (p: Place)
    ensures
        p@ == table(seq![a@, b@]),
{
    let tables = vec![owned(a), owned(b)];
    assert(texts(tables@) =~= seq![a@, b@]);
    let p = Place { tables, key: String::new() };
    assert(p@ =~= table(seq![a@, b@]));
    p
}

/// A table three names deep.
pub fn at3(a: &str, b: &str, c: &str) -> (p: Place)
    ensures
        p@ == table(seq![a@, b@, c@]),
{
    let tables = vec![owned(a), owned(b), owned(c)];
    assert(texts(tables@) =~= seq![a@, b@, c@]);
    let p = Place { tables, key: String::new() };
    assert(p@ =~= table(seq![a@, b@, c@]));
    p
}

/// A table four names deep.
pub fn at4(a: &str, b: &str, c: &str, d: &str) -> (p: Place)
    ensures
        p@ == table(seq![a@, b@, c@, d@]),
{
    let tables = vec![owned(a), owned(b), owned(c), owned(d)];
    assert(texts(tables@) =~= seq![a@, b@, c@, d@]);
    let p = Place { tables, key: String::new() };
    assert(p@ =~= table(seq![a@, b@, c@, d@]));
    p
}

impl Place {
    /// A key of this table.
    pub fn under(self, key: &str) -> (p: Place)
        ensures
            p@ == keyed(self@.tables, key@),
    {
        Place { tables: self.tables, key: owned(key) }
    }
}

/// The words around what a message is about: before its details, before its word, before its
/// other word, and after them.
pub open spec fn wording(why: Why) -> (Seq<char>, Seq<char>, Seq<char>, Seq<char>) {
    match why {
        Why::NeedsUnit => (""@, "\""@, "\" needs a unit: try s, ms, m or h"@, ""@),
        Why::NotANumber => (""@, "\""@, "\" is not a number"@, ""@),
        Why::NotPositive => (""@, "\""@, "\" must be a positive length of time"@, ""@),
        Why::UnknownUnit => ("unknown unit "@, "\""@, "\"; use ms, s, m or h"@, ""@),
        Why::TooShort => (""@, "\""@, "\" is shorter than a millisecond, which is as often as a source can be read"@, ""@),
        Why::TooLong => (""@, "\""@, "\" is longer than a year, which is longer than can be scheduled"@, ""@),
        Why::NotAPercentage => (""@, "\""@, "\" is not a percentage like \"5%\""@, ""@),
        Why::StepOutOfRange => ("a scroll step is between 0 and 100 percent, not "@, "\""@, "\""@, ""@),
        Why::NotHexadecimal => (""@, "\""@, "\" is not a hexadecimal color"@, ""@),
        Why::ColorLength => (""@, "\""@, "\" is not a color of 3, 4, 6 or 8 digits"@, ""@),
        Why::UnknownColor => ("unknown color reference "@, "$"@, ""@, ""@),
        Why::UnknownIcon => ("unknown native icon "@, "\"$"@, "\""@, ""@),
        Why::UnknownStyle => ("references unknown style "@, "\""@, "\""@, ""@),
        Why::UnknownState => ("unknown state "@, "\""@, "\"; expected idle, info, good, warning, critical or error"@, ""@),
        Why::UnknownFieldKind => (""@, "\""@, "\" is not a field kind; use number, percent or text"@, ""@),
        Why::NoCommand => ("reads from a command but names none; add `command = [\"program\", \"argument\"]`"@, ""@, ""@, ""@),
        Why::PagesOfStream => ("asks for pages, but a streaming command sends a reading per line as it prints them; give it an `interval` for a run whose lines are pages of one answer"@, ""@, ""@, ""@),
        Why::TimeoutOfStream => ("sets `timeout`, but a streaming command is meant to keep running; a timeout only applies to a command that is run for an answer, which is what an `interval` asks for"@, ""@, ""@, ""@),
        Why::UnknownSource => ("has unknown source "@, "\""@, "\"; expected one of cpu, memory, battery, backlight, load, temperature, disk, network, time, provider, tray, sway:window, sway:workspaces or sway:language"@, ""@),
        Why::Misplaced => ("sets "@, "`"@, "`, which only a "@, " module reads"@),
        Why::ScopeMisplaced => ("sets `scope`, which only a sway:window or sway:workspaces module reads"@, ""@, ""@, ""@),
        Why::UnpublishedField => ("keys on "@, "$"@, ", which the source of the module does not publish"@, ""@),
        Why::NotNumeric(_) => ("is "@, "; it compares $"@, " against a number, which that is not"@, ""@),
        Why::NotAWord(_) => ("is "@, "; it compares $"@, " against a word, which that is not"@, ""@),
        Why::NothingCompared => ("names "@, "$"@, " but says nothing about it; add `above`, `below` or `equals`"@, ""@),
        Why::MatchesText => ("matches on text, which only makes sense for a module fed by an external provider; key on a value or on `state` instead"@, ""@, ""@, ""@),
        Why::IntervalUnread => ("sets an interval, but its source is not one the bar reads; how often it updates is the business of the provider"@, ""@, ""@, ""@),
        Why::SignalRefused(_) => ("sets a signal, but "@, ""@, ""@, ""@),
        Why::SignalOutOfRange { .. } => ("asks for signal "@, "; they are counted from SIGRTMIN"@, ""@, ""@),
        Why::RefreshRefused(_) => ("gives a button to refreshing it, but "@, ""@, ""@, ""@),
        Why::ScrollAndControls => ("sets both scroll and controls; a player is operated by its buttons, and a step means nothing to it"@, ""@, ""@, ""@),
        Why::ScrollOfCommand => ("asks to be scrolled, but a command is read rather than set; `pages = true` is what puts its readings on the wheel"@, ""@, ""@, ""@),
        Why::ScrollOfUnset => ("asks to be scrolled, but only what can also be set may be: a backlight or the volume"@, ""@, ""@, ""@),
        Why::ControlsOfUnplayed => ("asks for controls, which only a media module has; a backlight or the volume takes scroll instead"@, ""@, ""@, ""@),
        Why::UnreadFormat => ("the format "@, "\""@, "\" was not read"@, ""@),
        Why::BadFormat => ("the format "@, "\""@, "\" cannot be read"@, ""@),
        Why::UnpublishedInFormat => ("the format names "@, "$"@, ", which the source does not publish; it publishes "@, ""@),
        Why::AnimationTooLong => ("an animation of more than ten seconds is longer than the bar may redraw at screen rate"@, ""@, ""@, ""@),
        Why::AnimationWithoutFold => ("collapse_animation without collapsible"@, ""@, ""@, ""@),
        Why::AnimationWithoutWordings => ("alt_animation without format_alt"@, ""@, ""@, ""@),
        Why::CollapsedWithoutFold => ("a collapsed style without collapsible"@, ""@, ""@, ""@),
        Why::NoCollapseButton => ("collapsible requires an explicit collapse_button"@, ""@, ""@, ""@),
        Why::NoCollapsedIcon => ("collapsible requires an icon"@, ""@, ""@, ""@),
        Why::FoldsToNothing => ("icon is \"none\", so folding would leave nothing to see or click"@, ""@, ""@, ""@),
        Why::NoIconToFoldTo => ("is collapsible but has no icon, and no collapsed icon to fold to; folded down it would leave nothing to see or click"@, ""@, ""@, ""@),
        Why::StateWithoutIcon => ("no icon, and the module folds to whichever icon it is wearing; give the state one, or give the collapsed table an icon to fold to"@, ""@, ""@, ""@),
        Why::EmptyIcon => ("the icon folded to is empty, so there would be nothing to click"@, ""@, ""@, ""@),
        Why::IconWithoutSize => ("a native icon needs a positive finite icon_size"@, ""@, ""@, ""@),
        Why::IconTooWide => ("the icon needs more than max_width, so there would be nothing left to expand it with"@, ""@, ""@, ""@),
        Why::Unmeasured { .. } => ("the width of the icon folded to has not been measured"@, ""@, ""@, ""@),
        Why::NothingToMute => ("sets `mute_button`, but nothing about it can be muted; a module operates the volume once it names a `scroll` step"@, ""@, ""@, ""@),
        Why::NoProgram(_) => ("on_click."@, " names no program to run"@, ""@, ""@),
        Why::ButtonTwice { .. } => ("gives the "@, ""@, ""@, ""@),
        Why::ButtonReserved { .. } => ("reserves the "@, ", as module \""@, "\" does; a group answers for its whole island, so the module would never see that press"@, ""@),
        Why::OpacityOutOfRange => ("opacity has to be between 0.0 and 1.0"@, ""@, ""@, ""@),
        Why::UnknownGroup => ("group "@, "\""@, "\" is used but not defined"@, ""@),
        Why::UnjoinableWidth => ("width must be finite and positive, and overlap finite"@, ""@, ""@, ""@),
        Why::UnjoinableGroup => ("joins group "@, "\""@, "\", which must have opacity = 1 and padding = 0"@, ""@),
        Why::KindDisagrees { .. } => ("declares "@, " as field \""@, "\", which module \""@, "\" declares otherwise; the two run the same command on the same schedule, so they share one reading"@),
        Why::TooManyPrograms(_) => ("this configuration runs "@, " programs at once, and no more than 32 can be kept track of; use fewer command modules"@, ""@, ""@),
    }
}

fn words(why: Why) -> (r: (&'static str, &'static str, &'static str, &'static str))
    ensures
        (r.0@, r.1@, r.2@, r.3@) == wording(why),
{
    match why {
        Why::NeedsUnit => ("", "\"", "\" needs a unit: try s, ms, m or h", ""),
        Why::NotANumber => ("", "\"", "\" is not a number", ""),
        Why::NotPositive => ("", "\"", "\" must be a positive length of time", ""),
        Why::UnknownUnit => ("unknown unit ", "\"", "\"; use ms, s, m or h", ""),
        Why::TooShort => ("", "\"", "\" is shorter than a millisecond, which is as often as a source can be read", ""),
        Why::TooLong => ("", "\"", "\" is longer than a year, which is longer than can be scheduled", ""),
        Why::NotAPercentage => ("", "\"", "\" is not a percentage like \"5%\"", ""),
        Why::StepOutOfRange => ("a scroll step is between 0 and 100 percent, not ", "\"", "\"", ""),
        Why::NotHexadecimal => ("", "\"", "\" is not a hexadecimal color", ""),
        Why::ColorLength => ("", "\"", "\" is not a color of 3, 4, 6 or 8 digits", ""),
        Why::UnknownColor => ("unknown color reference ", "$", "", ""),
        Why::UnknownIcon => ("unknown native icon ", "\"$", "\"", ""),
        Why::UnknownStyle => ("references unknown style ", "\"", "\"", ""),
        Why::UnknownState => ("unknown state ", "\"", "\"; expected idle, info, good, warning, critical or error", ""),
        Why::UnknownFieldKind => ("", "\"", "\" is not a field kind; use number, percent or text", ""),
        Why::NoCommand => ("reads from a command but names none; add `command = [\"program\", \"argument\"]`", "", "", ""),
        Why::PagesOfStream => ("asks for pages, but a streaming command sends a reading per line as it prints them; give it an `interval` for a run whose lines are pages of one answer", "", "", ""),
        Why::TimeoutOfStream => ("sets `timeout`, but a streaming command is meant to keep running; a timeout only applies to a command that is run for an answer, which is what an `interval` asks for", "", "", ""),
        Why::UnknownSource => ("has unknown source ", "\"", "\"; expected one of cpu, memory, battery, backlight, load, temperature, disk, network, time, provider, tray, sway:window, sway:workspaces or sway:language", ""),
        Why::Misplaced => ("sets ", "`", "`, which only a ", " module reads"),
        Why::ScopeMisplaced => ("sets `scope`, which only a sway:window or sway:workspaces module reads", "", "", ""),
        Why::UnpublishedField => ("keys on ", "$", ", which the source of the module does not publish", ""),
        Why::NotNumeric(_) => ("is ", "; it compares $", " against a number, which that is not", ""),
        Why::NotAWord(_) => ("is ", "; it compares $", " against a word, which that is not", ""),
        Why::NothingCompared => ("names ", "$", " but says nothing about it; add `above`, `below` or `equals`", ""),
        Why::MatchesText => ("matches on text, which only makes sense for a module fed by an external provider; key on a value or on `state` instead", "", "", ""),
        Why::IntervalUnread => ("sets an interval, but its source is not one the bar reads; how often it updates is the business of the provider", "", "", ""),
        Why::SignalRefused(_) => ("sets a signal, but ", "", "", ""),
        Why::SignalOutOfRange { .. } => ("asks for signal ", "; they are counted from SIGRTMIN", "", ""),
        Why::RefreshRefused(_) => ("gives a button to refreshing it, but ", "", "", ""),
        Why::ScrollAndControls => ("sets both scroll and controls; a player is operated by its buttons, and a step means nothing to it", "", "", ""),
        Why::ScrollOfCommand => ("asks to be scrolled, but a command is read rather than set; `pages = true` is what puts its readings on the wheel", "", "", ""),
        Why::ScrollOfUnset => ("asks to be scrolled, but only what can also be set may be: a backlight or the volume", "", "", ""),
        Why::ControlsOfUnplayed => ("asks for controls, which only a media module has; a backlight or the volume takes scroll instead", "", "", ""),
        Why::UnreadFormat => ("the format ", "\"", "\" was not read", ""),
        Why::BadFormat => ("the format ", "\"", "\" cannot be read", ""),
        Why::UnpublishedInFormat => ("the format names ", "$", ", which the source does not publish; it publishes ", ""),
        Why::AnimationTooLong => ("an animation of more than ten seconds is longer than the bar may redraw at screen rate", "", "", ""),
        Why::AnimationWithoutFold => ("collapse_animation without collapsible", "", "", ""),
        Why::AnimationWithoutWordings => ("alt_animation without format_alt", "", "", ""),
        Why::CollapsedWithoutFold => ("a collapsed style without collapsible", "", "", ""),
        Why::NoCollapseButton => ("collapsible requires an explicit collapse_button", "", "", ""),
        Why::NoCollapsedIcon => ("collapsible requires an icon", "", "", ""),
        Why::FoldsToNothing => ("icon is \"none\", so folding would leave nothing to see or click", "", "", ""),
        Why::NoIconToFoldTo => ("is collapsible but has no icon, and no collapsed icon to fold to; folded down it would leave nothing to see or click", "", "", ""),
        Why::StateWithoutIcon => ("no icon, and the module folds to whichever icon it is wearing; give the state one, or give the collapsed table an icon to fold to", "", "", ""),
        Why::EmptyIcon => ("the icon folded to is empty, so there would be nothing to click", "", "", ""),
        Why::IconWithoutSize => ("a native icon needs a positive finite icon_size", "", "", ""),
        Why::IconTooWide => ("the icon needs more than max_width, so there would be nothing left to expand it with", "", "", ""),
        Why::Unmeasured { .. } => ("the width of the icon folded to has not been measured", "", "", ""),
        Why::NothingToMute => ("sets `mute_button`, but nothing about it can be muted; a module operates the volume once it names a `scroll` step", "", "", ""),
        Why::NoProgram(_) => ("on_click.", " names no program to run", "", ""),
        Why::ButtonTwice { .. } => ("gives the ", "", "", ""),
        Why::ButtonReserved { .. } => ("reserves the ", ", as module \"", "\" does; a group answers for its whole island, so the module would never see that press", ""),
        Why::OpacityOutOfRange => ("opacity has to be between 0.0 and 1.0", "", "", ""),
        Why::UnknownGroup => ("group ", "\"", "\" is used but not defined", ""),
        Why::UnjoinableWidth => ("width must be finite and positive, and overlap finite", "", "", ""),
        Why::UnjoinableGroup => ("joins group ", "\"", "\", which must have opacity = 1 and padding = 0", ""),
        Why::KindDisagrees { .. } => ("declares ", " as field \"", "\", which module \"", "\" declares otherwise; the two run the same command on the same schedule, so they share one reading"),
        Why::TooManyPrograms(_) => ("this configuration runs ", " programs at once, and no more than 32 can be kept track of; use fewer command modules", "", ""),
    }
}

/// What a message calls a kind of value.
pub open spec fn kind_name(kind: Kind) -> Seq<char> {
    match kind {
        Kind::Num(Unit::Percent) => "percent"@,
        Kind::Num(_) => "number"@,
        Kind::Text => "text"@,
        Kind::Flag => "flag"@,
        Kind::Time => "time"@,
        Kind::Dur => "duration"@,
    }
}

fn kind_word(kind: Kind) -> (r: &'static str)
    ensures
        r@ == kind_name(kind),
{
    match kind {
        Kind::Num(unit) => if unit == Unit::Percent {
            "percent"
        } else {
            "number"
        },
        Kind::Text => "text",
        Kind::Flag => "flag",
        Kind::Time => "time",
        Kind::Dur => "duration",
    }
}

/// Why a source cannot be asked, in words.
pub open spec fn unaskable_text(why: Unaskable) -> Seq<char> {
    match why {
        Unaskable::Streams => "a streaming command speaks when it has something to say; give it an `interval` for there to be a run to bring forward"@,
        Unaskable::Arrives => "this source arrives when it changes rather than being read, so there is nothing to ask it for"@,
        Unaskable::Elsewhere => "its source is not one the bar reads, so there is no reading to bring forward; a provider and the compositor both speak when they have something to say"@,
    }
}

fn unaskable_words(why: Unaskable) -> (r: &'static str)
    ensures
        r@ == unaskable_text(why),
{
    match why {
        Unaskable::Streams => "a streaming command speaks when it has something to say; give it an `interval` for there to be a run to bring forward",
        Unaskable::Arrives => "this source arrives when it changes rather than being read, so there is nothing to ask it for",
        Unaskable::Elsewhere => "its source is not one the bar reads, so there is no reading to bring forward; a provider and the compositor both speak when they have something to say",
    }
}

/// A number with its sign, in decimal.
pub open spec fn signed_decimal(n: int) -> Seq<char> {
    if n < 0 {
        "-"@ + decimal((-n) as nat)
    } else {
        decimal(n as nat)
    }
}

fn signed_decimal_of(n: i32) -> (s: String)
    ensures
        s@ == signed_decimal(n as int),
{
    if n < 0 {
        let far: i64 = -(n as i64);
        joined("-", decimal_of(far as u64).as_str())
    } else {
        decimal_of(n as u64)
    }
}

/// What a message says beyond its words.
pub open spec fn details(why: Why) -> Seq<char> {
    match why {
        Why::NotNumeric(kind) | Why::NotAWord(kind) => kind_name(kind),
        Why::SignalRefused(reason) | Why::RefreshRefused(reason) => unaskable_text(reason),
        Why::SignalOutOfRange { offset, highest } => signed_decimal(offset as int)
            + ", but only 0 to "@ + signed_decimal(highest as int) + " exist on this system"@,
        Why::NoProgram(button) => button_name(button),
        Why::ButtonTwice { button, first, second } => button_name(button) + " button to both "@
            + job_key(first) + " and "@ + job_key(second),
        Why::ButtonReserved { button, job } => button_name(button) + " button, which goes to "@
            + job_key(job),
        Why::KindDisagrees { seen, declared } => kind_name(declared) + " and not "@ + kind_name(
            seen,
        ),
        Why::TooManyPrograms(n) => decimal(n as nat),
        _ => Seq::empty(),
    }
}

fn detail(why: Why) -> (s: String)
    ensures
        s@ == details(why),
{
    match why {
        Why::NotNumeric(kind) | Why::NotAWord(kind) => owned(kind_word(kind)),
        Why::SignalRefused(reason) | Why::RefreshRefused(reason) => owned(unaskable_words(reason)),
        Why::SignalOutOfRange { offset, highest } => signed_decimal_of(offset).concat(
            ", but only 0 to ",
        ).concat(signed_decimal_of(highest).as_str()).concat(" exist on this system"),
        Why::NoProgram(button) => owned(button.name()),
        Why::ButtonTwice { button, first, second } => owned(button.name()).concat(
            " button to both ",
        ).concat(first.key()).concat(" and ").concat(second.key()),
        Why::ButtonReserved { button, job } => owned(button.name()).concat(
            " button, which goes to ",
        ).concat(job.key()),
        Why::KindDisagrees { seen, declared } => owned(kind_word(declared)).concat(
            " and not ",
        ).concat(kind_word(seen)),
        Why::TooManyPrograms(n) => decimal_of(n),
        _ => String::new(),
    }
}

/// The names of a place from `from` on, each after a dot.
pub open spec fn dotted(at: Seq<Seq<char>>, from: int) -> Seq<char>
    decreases at.len() - from,
{
    if from < 0 || from >= at.len() {
        Seq::empty()
    } else {
        "."@ + at[from] + dotted(at, from + 1)
    }
}

/// Where a refusal was made, the way a configuration writes its tables.
pub open spec fn place_text(at: PlaceView) -> Seq<char> {
    if at.tables.len() == 0 {
        Seq::empty()
    } else {
        "["@ + at.tables[0] + dotted(at.tables, 1) + (if at.key.len() == 0 {
            "]: "@
        } else {
            "] "@ + at.key + ": "@
        })
    }
}

/// What a refusal says.
pub open spec fn message_text(e: RefusalView) -> Seq<char> {
    let w = wording(e.slip.why);
    place_text(e.at) + w.0 + details(e.slip.why) + w.1 + e.slip.word + w.2 + e.slip.other + w.3
}

fn place(p: &Place) -> (s: String)
    ensures
        s@ == place_text(p@),
{
    let at = &p.tables;
    if at.len() == 0 {
        return String::new();
    }
    let ghost all = texts(at@);
    let mut s = joined("[", at[0].as_str());
    let ghost start = s@;
    let mut i: usize = 1;
    assert(start + dotted(all, 1) =~= s@ + dotted(all, i as int));
    while i < at.len()
        invariant
            1 <= i <= at@.len(),
            all == texts(at@),
            start + dotted(all, 1) == s@ + dotted(all, i as int),
        decreases at@.len() - i,
    {
        let ghost before = s@;
        s.append(".");
        s.append(at[i].as_str());
        assert(all[i as int] == at@[i as int]@);
        assert(before + ("."@ + all[i as int] + dotted(all, i + 1)) =~= s@ + dotted(all, i + 1));
        i = i + 1;
    }
    assert(s@ =~= s@ + dotted(all, i as int));
    if p.key.as_str().is_empty() {
        s.append("]: ");
    } else {
        let ghost tables = s@;
        s.append("] ");
        s.append(p.key.as_str());
        s.append(": ");
        assert(s@ =~= tables + ("] "@ + p.key@ + ": "@));
    }
    s
}

impl Refusal {
    /// What to tell the person who wrote the configuration.
    pub fn message(&self) -> (s: String)
        ensures
            s@ == message_text(self@),
    {
        let w = words(self.slip.why);
        place(&self.at).concat(w.0).concat(detail(self.slip.why).as_str()).concat(w.1).concat(
            self.slip.word.as_str(),
        ).concat(w.2).concat(self.slip.other.as_str()).concat(w.3)
    }
}

} // verus!
