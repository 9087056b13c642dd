//! A module: what it shows, what it wears, and what a pointer does to it.

use crate::collect::command::Run;
use crate::collect::which::{arrives, can_block, default_seconds, Which, WhichView};
use crate::config::button::{action_of, argv_view, ActionsView, Button, ClickActions, Job};
use crate::config::duration::{parse_duration, written_duration};
use crate::config::icon::{icon_view, IconSpec, IconView};
use crate::config::known::{find_wording, names_in, Known, Wardrobe, WardrobeView};
use crate::config::raw::{RawClickActions, RawCollapsedStyle, RawModule, RawStep};
use crate::config::refusal::{about, at2, at3, at4, keyed, plainly, put, refused, slipped, table};
use crate::config::refusal::{told, Refusal, RefusalView, Slip, SlipView, Unaskable, Why};
use crate::config::rule::{rank_rules, ranked, resolve_rules, rules_of, rules_view, RuleView};
use crate::config::rule::StateRule;
use crate::config::source::{control_of, controlled, resolve_source, source_fields, source_of};
use crate::config::source::{source_wording, Source, SourceView};
use crate::config::style::{check_collapsed_icon, find_style, fold_trouble, named_style, overlaid};
use crate::config::style::{style_view, Style, StyleView};
use crate::number::{Number, HUNDRED, ZERO};
use crate::status::{kind_named, kind_of_field, specs_view, Control, FieldSpec, FieldView};
use crate::text::{before_last, blank, copy_texts, decimal, decimal_of, is_blank, joined, owned};
use crate::text::{strip_last, texts, trim, trimmed};
use crate::time::Duration;
use vstd::prelude::*;
use vstd::string::*;

verus! {

/// The longest a fold or a change of wording may be given to travel, in nanoseconds.
///
/// These are the only things on the bar that redraw at screen rate, so this is a ceiling on
/// how long a click can hold it there rather than a length anyone should reach for.
pub const LONGEST_ANIMATION: u128 = 10_000_000_000;

/// What a module says: a wording, and the fields it names.
#[derive(Debug)]
pub struct Format {
    pub written: String,
    pub names: Vec<String>,
}

/// What a `Format` says.
#[verifier::ext_equal]
pub struct FormatView {
    pub written: Seq<char>,
    pub names: Seq<Seq<char>>,
}

impl View for Format {
    type V = FormatView;

    open spec fn view(&self) -> FormatView {
        FormatView { written: self.written@, names: texts(self.names@) }
    }
}

/// What a list of formats says.
pub open spec fn formats_view(formats: Seq<Format>) -> Seq<FormatView> {
    Seq::new(formats.len(), |i: int| formats[i]@)
}

/// What folding a module down to its icon does.
#[derive(Debug)]
pub struct ModuleCollapse {
    pub button: Button,
    /// What the folded module is drawn in, for one that wrote a `collapsed` table. Without
    /// one it keeps whatever it would have worn open.
    pub style: Option<Style>,
    /// The icon a fold leaves behind, for a `collapsed` table that named one. Without one the
    /// fold shows whatever the module is wearing.
    pub icon: Option<IconSpec>,
    /// How long the module takes to reach its other width, if it travels at all.
    pub animation: Option<Duration>,
}

/// What a `ModuleCollapse` says.
#[verifier::ext_equal]
pub struct FoldView {
    pub button: Button,
    pub style: Option<StyleView>,
    pub icon: Option<IconView>,
    pub animation: Option<Duration>,
}

impl View for ModuleCollapse {
    type V = FoldView;

    open spec fn view(&self) -> FoldView {
        FoldView {
            button: self.button,
            style: style_view(self.style),
            icon: icon_view(self.icon),
            animation: self.animation,
        }
    }
}

/// One module of a group.
#[derive(Debug)]
pub struct Module {
    pub name: String,
    pub source: Source,
    /// How often the source behind this module is read. Only native sources are read by the
    /// bar, so this is `None` for everything else.
    pub interval: Option<Duration>,
    /// The offset from SIGRTMIN that reads this module's source again.
    pub signal: Option<i32>,
    /// What a click or a scroll here operates, and by how much where that means anything.
    pub control: Option<(Control, Number)>,
    /// How this module folds down to its icon, for one the configuration lets fold.
    pub collapse: Option<ModuleCollapse>,
    /// Which button moves through `format_alt`. Meaningless without further wordings.
    pub alt_button: Button,
    /// Which button reads this module's source again.
    pub refresh_button: Option<Button>,
    /// Which button mutes and unmutes, for a module that operates the volume.
    pub mute_button: Option<Button>,
    /// Programs to run when this module is clicked.
    pub on_click: Option<ClickActions>,
    /// What the module says, checked against the source's fields.
    pub format: Format,
    /// The further wordings a click moves through, in order.
    pub format_alt: Vec<Format>,
    /// How long the module takes to get from the width one wording asked for to the next.
    pub alt_animation: Option<Duration>,
    pub style: Style,
    /// Checked in order; the first match replaces the module's style.
    pub states: Vec<StateRule>,
}

/// What a `Module` says.
#[verifier::ext_equal]
pub struct ModuleView {
    pub name: Seq<char>,
    pub source: SourceView,
    pub interval: Option<Duration>,
    pub signal: Option<i32>,
    pub control: Option<(Control, Number)>,
    pub collapse: Option<FoldView>,
    pub alt_button: Button,
    pub refresh_button: Option<Button>,
    pub mute_button: Option<Button>,
    pub on_click: Option<ActionsView>,
    pub format: FormatView,
    pub format_alt: Seq<FormatView>,
    pub alt_animation: Option<Duration>,
    pub style: StyleView,
    pub states: Seq<RuleView>,
}

/// What a list of rules says.
pub open spec fn states_view(states: Seq<StateRule>) -> Seq<RuleView> {
    Seq::new(states.len(), |i: int| states[i]@)
}

/// What a fold that may be missing says.
pub open spec fn fold_view(fold: Option<ModuleCollapse>) -> Option<FoldView> {
    match fold {
        Some(f) => Some(f@),
        None => None,
    }
}

/// What actions that may be missing say.
pub open spec fn actions_view(actions: Option<ClickActions>) -> Option<ActionsView> {
    match actions {
        Some(a) => Some(a@),
        None => None,
    }
}

impl View for Module {
    type V = ModuleView;

    open spec fn view(&self) -> ModuleView {
        ModuleView {
            name: self.name@,
            source: self.source@,
            interval: self.interval,
            signal: self.signal,
            control: self.control,
            collapse: fold_view(self.collapse),
            alt_button: self.alt_button,
            refresh_button: self.refresh_button,
            mute_button: self.mute_button,
            on_click: actions_view(self.on_click),
            format: self.format@,
            format_alt: formats_view(self.format_alt@),
            alt_animation: self.alt_animation,
            style: self.style@,
            states: states_view(self.states@),
        }
    }
}

/// What a list of modules says.
pub open spec fn modules_view(modules: Seq<Module>) -> Seq<ModuleView> {
    Seq::new(modules.len(), |i: int| modules[i]@)
}

/// The first of these names, from `from` on, that no field has.
pub open spec fn unpublished(names: Seq<Seq<char>>, fields: Seq<FieldView>, from: int) -> Option<
    Seq<char>,
>
    decreases names.len() - from,
{
    if from < 0 || from >= names.len() {
        None
    } else if kind_named(fields, names[from], 0) is None {
        Some(names[from])
    } else {
        unpublished(names, fields, from + 1)
    }
}

/// The names of these fields up to `to`, with commas between them.
pub open spec fn listed(fields: Seq<FieldView>, to: int) -> Seq<char>
    decreases to,
{
    if to <= 0 || to > fields.len() {
        Seq::empty()
    } else if to == 1 {
        fields[0].name
    } else {
        listed(fields, to - 1) + ", "@ + fields[to - 1].name
    }
}

/// A wording read, and checked against what the source can publish.
pub open spec fn format_of(text: Seq<char>, fields: Seq<FieldView>, known: Known) -> Result<
    FormatView,
    SlipView,
> {
    match names_in(known.wordings@, text, 0) {
        None => Err(about(Why::UnreadFormat, text)),
        Some(None) => Err(about(Why::BadFormat, text)),
        Some(Some(names)) => match unpublished(names, fields, 0) {
            Some(name) => Err(
                SlipView {
                    why: Why::UnpublishedInFormat,
                    word: name,
                    other: listed(fields, fields.len() as int),
                },
            ),
            None => Ok(FormatView { written: text, names }),
        },
    }
}

fn list_fields(fields: &Vec<FieldSpec>) -> (s: String)
    ensures
        s@ == listed(specs_view(fields@), fields@.len() as int),
{
    let ghost all = specs_view(fields@);
    let mut s = String::new();
    assert(s@ =~= listed(all, 0));
    for i in 0..fields.len()
        invariant
            all == specs_view(fields@),
            s@ == listed(all, i as int),
    {
        assert(all[i as int] == fields@[i as int]@);
        if i > 0 {
            s.append(", ");
        }
        let ghost before = s@;
        s.append(fields[i].name.as_str());
        assert(s@ =~= listed(all, i + 1));
    }
    s
}

fn first_unpublished(names: &Vec<String>, fields: &Vec<FieldSpec>) -> (r: Option<String>)
    ensures
        match r {
            Some(name) => unpublished(texts(names@), specs_view(fields@), 0) == Some(name@),
            None => unpublished(texts(names@), specs_view(fields@), 0) is None,
        },
{
    let ghost all = texts(names@);
    for i in 0..names.len()
        invariant
            all == texts(names@),
            unpublished(all, specs_view(fields@), 0) == unpublished(
                all,
                specs_view(fields@),
                i as int,
            ),
    {
        assert(all[i as int] == names@[i as int]@);
        if kind_of_field(fields, names[i].as_str()).is_none() {
            return Some(names[i].clone());
        }
    }
    None
}

/// Read a module's format and check it against what its source can publish.
///
/// Checking here means a typo in a field name is a message when the bar starts, rather than a
/// module that silently says nothing.
pub fn resolve_format(text: &str, fields: &Vec<FieldSpec>, known: &Known) -> (r: Result<
    Format,
    Slip,
>)
    ensures
        slipped(r) == format_of(text@, specs_view(fields@), *known),
{
    match find_wording(&known.wordings, text) {
        None => Err(Slip::about(Why::UnreadFormat, text)),
        Some(wording) => match &wording.names {
            None => Err(Slip::about(Why::BadFormat, text)),
            Some(names) => match first_unpublished(names, fields) {
                Some(name) => Err(
                    Slip {
                        why: Why::UnpublishedInFormat,
                        word: name,
                        other: list_fields(fields),
                    },
                ),
                None => Ok(Format { written: owned(text), names: copy_texts(names) }),
            },
        },
    }
}

/// What the place of a further wording is called: the first by its key alone, and any other by
/// its position as well, since a list of wordings has no other name to give one.
pub open spec fn wording_place(index: int) -> Seq<char> {
    if index == 0 {
        "format_alt"@
    } else {
        "format_alt, wording "@ + decimal((index + 1) as nat)
    }
}

/// The further wordings of a module, from `from` on.
pub open spec fn wordings_of(
    module: Seq<char>,
    written: Seq<String>,
    from: int,
    fields: Seq<FieldView>,
    known: Known,
) -> Result<Seq<FormatView>, RefusalView>
    decreases written.len() - from,
{
    if from < 0 || from >= written.len() {
        Ok(Seq::empty())
    } else {
        match format_of(written[from]@, fields, known) {
            Err(slip) => Err(
                RefusalView { at: keyed(seq!["module"@, module], wording_place(from)), slip },
            ),
            Ok(format) => match wordings_of(module, written, from + 1, fields, known) {
                Err(e) => Err(e),
                Ok(rest) => Ok(seq![format] + rest),
            },
        }
    }
}

spec fn worded_so_far(done: Seq<FormatView>, rest: Result<Seq<FormatView>, RefusalView>) -> Result<
    Seq<FormatView>,
    RefusalView,
> {
    match rest {
        Ok(more) => Ok(done + more),
        Err(e) => Err(e),
    }
}

fn resolve_wordings(
    module: &str,
    written: &Vec<String>,
    fields: &Vec<FieldSpec>,
    known: &Known,
) -> (r: Result<Vec<Format>, Refusal>)
    ensures
        match r {
            Ok(v) => wordings_of(module@, written@, 0, specs_view(fields@), *known) == Ok::<
                Seq<FormatView>,
                RefusalView,
            >(formats_view(v@)),
            Err(e) => wordings_of(module@, written@, 0, specs_view(fields@), *known) == Err::<
                Seq<FormatView>,
                RefusalView,
            >(e@),
        },
{
    let ghost all = specs_view(fields@);
    let mut out: Vec<Format> = Vec::new();
    let ghost none = Seq::<FormatView>::empty();
    assert(formats_view(out@) =~= none);
    proof {
        let rest = wordings_of(module@, written@, 0, all, *known);
        if rest is Ok {
            assert(none + rest->Ok_0 =~= rest->Ok_0);
        }
    }
    for i in 0..written.len()
        invariant
            all == specs_view(fields@),
            wordings_of(module@, written@, 0, all, *known) == worded_so_far(
                formats_view(out@),
                wordings_of(module@, written@, i as int, all, *known),
            ),
    {
        let ghost before = formats_view(out@);
        let place = if i == 0 {
            owned("format_alt")
        } else {
            joined("format_alt, wording ", decimal_of(i as u64 + 1).as_str())
        };
        let format = put(
            resolve_format(written[i].as_str(), fields, known),
            at2("module", module).under(place.as_str()),
        )?;
        let ghost shown = format@;
        out.push(format);
        proof {
            assert(formats_view(out@) =~= before.push(shown));
            let rest = wordings_of(module@, written@, i + 1, all, *known);
            if rest is Ok {
                assert(before + (seq![shown] + rest->Ok_0) =~= before.push(shown) + rest->Ok_0);
            }
        }
    }
    assert(formats_view(out@) + Seq::<FormatView>::empty() =~= formats_view(out@));
    Ok(out)
}

/// A length of time under a key, where the key is written.
pub open spec fn timed(written: Option<String>, module: Seq<char>, key: Seq<char>) -> Result<
    Option<Duration>,
    RefusalView,
> {
    match written {
        None => Ok(None),
        Some(s) => match written_duration(s@) {
            Ok(d) => Ok(Some(d)),
            Err(slip) => Err(RefusalView { at: keyed(seq!["module"@, module], key), slip }),
        },
    }
}

fn resolve_time(written: &Option<String>, module: &str, key: &str) -> (r: Result<
    Option<Duration>,
    Refusal,
>)
    ensures
        match r {
            Ok(d) => timed(*written, module@, key@) == Ok::<Option<Duration>, RefusalView>(d),
            Err(e) => timed(*written, module@, key@) == Err::<Option<Duration>, RefusalView>(e@),
        },
{
    match written {
        None => Ok(None),
        Some(s) => {
            let d = put(parse_duration(s.as_str()), at2("module", module).under(key))?;
            Ok(Some(d))
        },
    }
}

/// How often a module's source is read.
///
/// A command module's interval says how its program is run rather than when the bar reads it.
/// Only the bar's own collectors are on a schedule the bar controls, so an interval on anything
/// else is refused.
pub open spec fn interval_of(module: Seq<char>, m: RawModule, source: SourceView) -> Result<
    Option<Duration>,
    RefusalView,
> {
    match source {
        SourceView::Native(WhichView::Command(_)) => Ok(None),
        _ => match timed(m.interval, module, "interval"@) {
            Err(e) => Err(e),
            Ok(Some(d)) => if source is Native {
                Ok(Some(d))
            } else {
                Err(refused(seq!["module"@, module], plainly(Why::IntervalUnread)))
            },
            Ok(None) => match source {
                SourceView::Native(which) => Ok(
                    Some(Duration { nanos: (default_seconds(which) * 1_000_000_000) as u128 }),
                ),
                _ => Ok(None),
            },
        },
    }
}

fn resolve_interval(module: &str, m: &RawModule, source: &Source) -> (r: Result<
    Option<Duration>,
    Refusal,
>)
    ensures
        match r {
            Ok(d) => interval_of(module@, *m, source@) == Ok::<Option<Duration>, RefusalView>(d),
            Err(e) => interval_of(module@, *m, source@) == Err::<Option<Duration>, RefusalView>(
                e@,
            ),
        },
{
    match source {
        Source::Native(which) => match which {
            Which::Command(_) => Ok(None),
            other => {
                let written = resolve_time(&m.interval, module, "interval")?;
                match written {
                    Some(d) => Ok(Some(d)),
                    None => Ok(Some(other.default_interval())),
                }
            },
        },
        _ => {
            let written = resolve_time(&m.interval, module, "interval")?;
            match written {
                Some(_) => Err(
                    Refusal::new(at2("module", module), Slip::plainly(Why::IntervalUnread)),
                ),
                None => Ok(None),
            }
        },
    }
}

/// Why a source cannot be read again on demand, for one that cannot.
///
/// Everything the bar reads itself can be, wherever it is read. Of the sources that arrive
/// rather than being read, only a command can be asked, and only one that answers.
pub open spec fn unaskable(source: SourceView) -> Option<Unaskable> {
    match source {
        SourceView::Native(WhichView::Command(spec)) => if spec.run == Run::Stream {
            Some(Unaskable::Streams)
        } else {
            None
        },
        SourceView::Native(which) => if arrives(which) && !can_block(which) {
            Some(Unaskable::Arrives)
        } else {
            None
        },
        _ => Some(Unaskable::Elsewhere),
    }
}

/// Whether a source can be read again on demand, and why not when it cannot.
pub fn can_refresh(source: &Source) -> (r: Result<(), Unaskable>)
    ensures
        match r {
            Ok(_) => unaskable(source@) is None,
            Err(why) => unaskable(source@) == Some(why),
        },
{
    match source {
        Source::Native(which) => match which {
            Which::Command(spec) => if spec.run == Run::Stream {
                Err(Unaskable::Streams)
            } else {
                Ok(())
            },
            other => if other.pushed() && !other.blocking() {
                Err(Unaskable::Arrives)
            } else {
                Ok(())
            },
        },
        _ => Err(Unaskable::Elsewhere),
    }
}

/// What is wrong with the signal a module asks for, where `highest` is the last one there is.
pub open spec fn signal_trouble(m: RawModule, source: SourceView, highest: i32) -> Option<
    SlipView,
> {
    match m.signal {
        None => None,
        Some(offset) => match unaskable(source) {
            Some(why) => Some(plainly(Why::SignalRefused(why))),
            None => if offset < 0 || offset > highest {
                Some(plainly(Why::SignalOutOfRange { offset, highest }))
            } else {
                None
            },
        },
    }
}

fn check_signal(m: &RawModule, source: &Source, highest: i32) -> (r: Result<(), Slip>)
    ensures
        match r {
            Ok(_) => signal_trouble(*m, source@, highest) is None,
            Err(slip) => signal_trouble(*m, source@, highest) == Some(slip@),
        },
{
    match m.signal {
        None => Ok(()),
        Some(offset) => match can_refresh(source) {
            Err(why) => Err(Slip::plainly(Why::SignalRefused(why))),
            Ok(_) => if offset < 0 || offset > highest {
                Err(Slip::plainly(Why::SignalOutOfRange { offset, highest }))
            } else {
                Ok(())
            },
        },
    }
}

/// The number a percentage writes: what is left of it without the sign at its end.
pub open spec fn percent_text_of(written: Seq<char>) -> Seq<char> {
    match before_last(trimmed(written), '%') {
        Some(text) => text,
        None => trimmed(written),
    }
}

/// The number a percentage writes, as text: "5%", or "5" for the same thing.
pub fn percent_text(written: &str) -> (r: String)
    ensures
        r@ == percent_text_of(written@),
{
    let text = trim(written);
    match strip_last(text.as_str(), '%') {
        Some(short) => short,
        None => text,
    }
}

/// A step written as a percentage: more than nothing and no more than the whole range.
///
/// It is a share of the whole range rather than of the current value, because a scroll that
/// moves less the darker it gets never reaches either end.
pub open spec fn step_of(raw: RawStep) -> Result<Number, SlipView> {
    match raw.value {
        None => Err(about(Why::NotAPercentage, raw.written@)),
        Some(step) => if step.finite() && (Number { bits: ZERO }).less(step) && !(Number {
            bits: HUNDRED,
        }).less(step) {
            Ok(step)
        } else {
            Err(about(Why::StepOutOfRange, raw.written@))
        },
    }
}

pub fn parse_percent(raw: &RawStep) -> (r: Result<Number, Slip>)
    ensures
        match r {
            Ok(n) => step_of(*raw) == Ok::<Number, SlipView>(n),
            Err(slip) => step_of(*raw) == Err::<Number, SlipView>(slip@),
        },
{
    match raw.value {
        None => Err(Slip::about(Why::NotAPercentage, raw.written.as_str())),
        Some(step) => {
            let zero = Number { bits: ZERO };
            let hundred = Number { bits: HUNDRED };
            if step.is_finite() && zero.lt(step) && !hundred.lt(step) {
                Ok(step)
            } else {
                Err(Slip::about(Why::StepOutOfRange, raw.written.as_str()))
            }
        },
    }
}

/// What a module operates, and by how much.
pub open spec fn control_for(m: RawModule, step: Option<Number>, source: SourceView) -> Result<
    Option<(Control, Number)>,
    SlipView,
> {
    let controls = m.controls == Some(true);
    match step {
        Some(step) => if controls {
            Err(plainly(Why::ScrollAndControls))
        } else {
            match controlled(source) {
                Some(what) => Ok(Some((what, step))),
                None => match source {
                    SourceView::Native(WhichView::Command(_)) => Err(
                        plainly(Why::ScrollOfCommand),
                    ),
                    _ => Err(plainly(Why::ScrollOfUnset)),
                },
            }
        },
        None => if controls {
            match source {
                SourceView::Native(WhichView::Media) => Ok(
                    Some((Control::Media, Number { bits: ZERO })),
                ),
                _ => Err(plainly(Why::ControlsOfUnplayed)),
            }
        } else {
            Ok(None)
        },
    }
}

fn resolve_control(m: &RawModule, step: Option<Number>, source: &Source) -> (r: Result<
    Option<(Control, Number)>,
    Slip,
>)
    ensures
        match r {
            Ok(c) => control_for(*m, step, source@) == Ok::<Option<(Control, Number)>, SlipView>(
                c,
            ),
            Err(slip) => control_for(*m, step, source@) == Err::<
                Option<(Control, Number)>,
                SlipView,
            >(slip@),
        },
{
    let controls = match m.controls {
        Some(c) => c,
        None => false,
    };
    match step {
        Some(step) => {
            if controls {
                return Err(Slip::plainly(Why::ScrollAndControls));
            }
            match control_of(source) {
                Some(what) => Ok(Some((what, step))),
                None => match source {
                    Source::Native(which) => match which {
                        Which::Command(_) => Err(Slip::plainly(Why::ScrollOfCommand)),
                        _ => Err(Slip::plainly(Why::ScrollOfUnset)),
                    },
                    _ => Err(Slip::plainly(Why::ScrollOfUnset)),
                },
            }
        },
        None => {
            if !controls {
                return Ok(None);
            }
            match source {
                Source::Native(which) => match which {
                    Which::Media => Ok(Some((Control::Media, Number { bits: ZERO }))),
                    _ => Err(Slip::plainly(Why::ControlsOfUnplayed)),
                },
                _ => Err(Slip::plainly(Why::ControlsOfUnplayed)),
            }
        },
    }
}

/// What a `collapsed` table comes to: the style it names, or the one it is folded from, with
/// its own keys over that. The table says only what differs, which for most is the icon.
pub open spec fn collapsed_style(
    raw: Option<RawCollapsedStyle>,
    under: StyleView,
    w: WardrobeView,
    known: Known,
) -> Result<Option<StyleView>, SlipView> {
    match raw {
        None => Ok(None),
        Some(collapsed) => {
            let start = match collapsed.style {
                None => Some(under),
                Some(name) => named_style(w.styles, name@, 0),
            };
            match start {
                None => Err(about(Why::UnknownStyle, collapsed.style->0@)),
                Some(style) => match overlaid(
                    style,
                    collapsed.overrides,
                    w.palette,
                    known.icons@,
                ) {
                    Err(slip) => Err(slip),
                    Ok(style) => Ok(Some(style)),
                },
            }
        },
    }
}

pub fn resolve_collapsed(
    raw: &Option<RawCollapsedStyle>,
    under: &Style,
    w: &Wardrobe,
    known: &Known,
) -> (r: Result<Option<Style>, Slip>)
    ensures
        match r {
            Ok(s) => collapsed_style(*raw, under@, w@, *known) == Ok::<Option<StyleView>, SlipView>(
                style_view(s),
            ),
            Err(slip) => collapsed_style(*raw, under@, w@, *known) == Err::<
                Option<StyleView>,
                SlipView,
            >(slip@),
        },
{
    match raw {
        None => Ok(None),
        Some(collapsed) => {
            let style = match &collapsed.style {
                None => under.overlay(&collapsed.overrides, &w.palette, &known.icons)?,
                Some(name) => match find_style(&w.styles, name.as_str()) {
                    None => {
                        return Err(Slip::about(Why::UnknownStyle, name.as_str()));
                    },
                    Some(start) => start.overlay(
                        &collapsed.overrides,
                        &w.palette,
                        &known.icons,
                    )?,
                },
            };
            Ok(Some(style))
        },
    }
}

/// What is wrong with folding to the icon of whichever state a module is in, from `from` on.
pub open spec fn states_fold_trouble(
    module: Seq<char>,
    states: Seq<(Seq<char>, RuleView)>,
    from: int,
    collapsed: Option<StyleView>,
    known: Known,
) -> Option<RefusalView>
    decreases states.len() - from,
{
    if from < 0 || from >= states.len() {
        None
    } else {
        let here = seq!["module"@, module, "states"@, states[from].0];
        let rule = states[from].1;
        match rule.style.icon {
            None => Some(refused(here, plainly(Why::StateWithoutIcon))),
            Some(icon) => match fold_trouble(
                icon,
                match collapsed {
                    Some(style) => style,
                    None => rule.style,
                },
                known.footprints@,
            ) {
                Some(slip) => Some(refused(here, slip)),
                None => states_fold_trouble(module, states, from + 1, collapsed, known),
            },
        }
    }
}

/// The icon a module folds to.
///
/// Folding to nothing is the one thing a fold may not do: the icon it leaves is the only way
/// back. A `collapsed` table that names an icon settles it. Otherwise the fold wears the
/// module's own icon, which means every appearance it can wear has to have one.
pub open spec fn folded_icon(
    module: Seq<char>,
    m: RawModule,
    style: StyleView,
    collapsed: Option<StyleView>,
    states: Seq<(Seq<char>, RuleView)>,
    known: Known,
) -> Result<Option<IconView>, RefusalView> {
    let here = seq!["module"@, module];
    let worn = match collapsed {
        Some(s) => s,
        None => style,
    };
    let wrote = m.collapsed matches Some(c) && c.overrides.icon is Some;
    if wrote {
        match worn.icon {
            None => Err(
                refused(seq!["module"@, module, "collapsed"@], plainly(Why::FoldsToNothing)),
            ),
            Some(icon) => match fold_trouble(icon, worn, known.footprints@) {
                Some(slip) => Err(refused(here, slip)),
                None => Ok(Some(icon)),
            },
        }
    } else {
        match style.icon {
            None => Err(refused(here, plainly(Why::NoIconToFoldTo))),
            Some(icon) => match fold_trouble(icon, worn, known.footprints@) {
                Some(slip) => Err(refused(here, slip)),
                None => match states_fold_trouble(module, states, 0, collapsed, known) {
                    Some(e) => Err(e),
                    None => Ok(None),
                },
            },
        }
    }
}

/// How a module folds down to its icon, for one the configuration lets fold.
pub open spec fn fold_of(
    module: Seq<char>,
    m: RawModule,
    style: StyleView,
    states: Seq<(Seq<char>, RuleView)>,
    w: WardrobeView,
    known: Known,
) -> Result<Option<FoldView>, RefusalView> {
    let here = seq!["module"@, module];
    let table = seq!["module"@, module, "collapsed"@];
    match collapsed_style(m.collapsed, style, w, known) {
        Err(slip) => Err(refused(table, slip)),
        Ok(collapsed) => match timed(m.collapse_animation, module, "collapse_animation"@) {
            Err(e) => Err(e),
            Ok(animation) => if m.collapsible == Some(true) {
                match folded_icon(module, m, style, collapsed, states, known) {
                    Err(e) => Err(e),
                    Ok(icon) => if animation matches Some(d) && d.nanos > LONGEST_ANIMATION {
                        Err(
                            RefusalView {
                                at: keyed(here, "collapse_animation"@),
                                slip: plainly(Why::AnimationTooLong),
                            },
                        )
                    } else {
                        Ok(
                            Some(
                                FoldView {
                                    button: match m.collapse_button {
                                        Some(button) => button,
                                        None => Button::Right,
                                    },
                                    style: collapsed,
                                    icon,
                                    animation,
                                },
                            ),
                        )
                    },
                }
            } else if animation is Some {
                Err(refused(here, plainly(Why::AnimationWithoutFold)))
            } else if collapsed is Some {
                Err(refused(table, plainly(Why::CollapsedWithoutFold)))
            } else {
                Ok(None)
            },
        },
    }
}

fn check_states_fold(
    module: &str,
    states: &Vec<(String, StateRule)>,
    collapsed: &Option<Style>,
    known: &Known,
) -> (r: Result<(), Refusal>)
    ensures
        match r {
            Ok(_) => states_fold_trouble(
                module@,
                rules_view(states@),
                0,
                style_view(*collapsed),
                *known,
            ) is None,
            Err(e) => states_fold_trouble(
                module@,
                rules_view(states@),
                0,
                style_view(*collapsed),
                *known,
            ) == Some(e@),
        },
{
    let ghost all = rules_view(states@);
    let ghost folded = style_view(*collapsed);
    for i in 0..states.len()
        invariant
            all == rules_view(states@),
            folded == style_view(*collapsed),
            states_fold_trouble(module@, all, 0, folded, *known) == states_fold_trouble(
                module@,
                all,
                i as int,
                folded,
                *known,
            ),
    {
        assert(all[i as int] == (states@[i as int].0@, states@[i as int].1@));
        let rule = &states[i].1;
        match &rule.style.icon {
            None => {
                return Err(
                    Refusal::new(
                        at4("module", module, "states", states[i].0.as_str()),
                        Slip::plainly(Why::StateWithoutIcon),
                    ),
                );
            },
            Some(icon) => {
                let worn = match collapsed {
                    Some(style) => style,
                    None => &rule.style,
                };
                put(
                    check_collapsed_icon(icon, worn, &known.footprints),
                    at4("module", module, "states", states[i].0.as_str()),
                )?;
            },
        }
    }
    Ok(())
}

fn resolve_folded_icon(
    module: &str,
    m: &RawModule,
    style: &Style,
    collapsed: &Option<Style>,
    states: &Vec<(String, StateRule)>,
    known: &Known,
) -> (r: Result<Option<IconSpec>, Refusal>)
    ensures
        match r {
            Ok(icon) => folded_icon(
                module@,
                *m,
                style@,
                style_view(*collapsed),
                rules_view(states@),
                *known,
            ) == Ok::<Option<IconView>, RefusalView>(icon_view(icon)),
            Err(e) => folded_icon(
                module@,
                *m,
                style@,
                style_view(*collapsed),
                rules_view(states@),
                *known,
            ) == Err::<Option<IconView>, RefusalView>(e@),
        },
{
    let worn = match collapsed {
        Some(s) => s,
        None => style,
    };
    let wrote = match &m.collapsed {
        Some(c) => c.overrides.icon.is_some(),
        None => false,
    };
    if wrote {
        match &worn.icon {
            None => Err(
                Refusal::new(
                    at3("module", module, "collapsed"),
                    Slip::plainly(Why::FoldsToNothing),
                ),
            ),
            Some(icon) => {
                put(
                    check_collapsed_icon(icon, worn, &known.footprints),
                    at2("module", module),
                )?;
                Ok(Some(icon.copy()))
            },
        }
    } else {
        match &style.icon {
            None => Err(Refusal::new(at2("module", module), Slip::plainly(Why::NoIconToFoldTo))),
            Some(icon) => {
                put(
                    check_collapsed_icon(icon, worn, &known.footprints),
                    at2("module", module),
                )?;
                check_states_fold(module, states, collapsed, known)?;
                Ok(None)
            },
        }
    }
}

fn resolve_fold(
    module: &str,
    m: &RawModule,
    style: &Style,
    states: &Vec<(String, StateRule)>,
    w: &Wardrobe,
    known: &Known,
) -> (r: Result<Option<ModuleCollapse>, Refusal>)
    ensures
        match r {
            Ok(fold) => fold_of(module@, *m, style@, rules_view(states@), w@, *known) == Ok::<
                Option<FoldView>,
                RefusalView,
            >(fold_view(fold)),
            Err(e) => fold_of(module@, *m, style@, rules_view(states@), w@, *known) == Err::<
                Option<FoldView>,
                RefusalView,
            >(e@),
        },
{
    let collapsed = put(
        resolve_collapsed(&m.collapsed, style, w, known),
        at3("module", module, "collapsed"),
    )?;
    let animation = resolve_time(&m.collapse_animation, module, "collapse_animation")?;
    let collapsible = match m.collapsible {
        Some(c) => c,
        None => false,
    };
    if collapsible {
        let icon = resolve_folded_icon(module, m, style, &collapsed, states, known)?;
        if let Some(d) = animation {
            if d.nanos > LONGEST_ANIMATION {
                return Err(
                    Refusal::new(
                        at2("module", module).under("collapse_animation"),
                        Slip::plainly(Why::AnimationTooLong),
                    ),
                );
            }
        }
        let button = match m.collapse_button {
            Some(button) => button,
            None => Button::Right,
        };
        Ok(Some(ModuleCollapse { button, style: collapsed, icon, animation }))
    } else {
        if animation.is_some() {
            return Err(
                Refusal::new(at2("module", module), Slip::plainly(Why::AnimationWithoutFold)),
            );
        }
        if collapsed.is_some() {
            return Err(
                Refusal::new(
                    at3("module", module, "collapsed"),
                    Slip::plainly(Why::CollapsedWithoutFold),
                ),
            );
        }
        Ok(None)
    }
}

/// One button's program. An empty list is a mistake rather than a way of saying "do nothing",
/// and so is a program with no name: the key was written, so something was meant by it.
pub open spec fn program_of(written: Option<Vec<String>>, button: Button) -> Result<
    Option<Seq<Seq<char>>>,
    SlipView,
> {
    match written {
        None => Ok(None),
        Some(argv) => if argv@.len() == 0 || is_blank(argv@[0]@) {
            Err(plainly(Why::NoProgram(button)))
        } else {
            Ok(Some(texts(argv@)))
        },
    }
}

/// The programs a module runs when it is clicked.
pub open spec fn actions_of(raw: Option<RawClickActions>) -> Result<Option<ActionsView>, SlipView> {
    match raw {
        None => Ok(None),
        Some(raw) => match program_of(raw.left, Button::Left) {
            Err(slip) => Err(slip),
            Ok(left) => match program_of(raw.middle, Button::Middle) {
                Err(slip) => Err(slip),
                Ok(middle) => match program_of(raw.right, Button::Right) {
                    Err(slip) => Err(slip),
                    Ok(right) => Ok(Some(ActionsView { left, middle, right })),
                },
            },
        },
    }
}

fn resolve_program(written: &Option<Vec<String>>, button: Button) -> (r: Result<
    Option<Vec<String>>,
    Slip,
>)
    ensures
        match r {
            Ok(v) => program_of(*written, button) == Ok::<Option<Seq<Seq<char>>>, SlipView>(
                argv_view(v),
            ),
            Err(slip) => program_of(*written, button) == Err::<Option<Seq<Seq<char>>>, SlipView>(
                slip@,
            ),
        },
{
    match written {
        None => Ok(None),
        Some(argv) => {
            if argv.len() == 0 || blank(argv[0].as_str()) {
                return Err(Slip::plainly(Why::NoProgram(button)));
            }
            Ok(Some(copy_texts(argv)))
        },
    }
}

/// Turn `on_click` as written into argvs, rejecting a button given nothing to run.
pub fn click_actions(raw: &Option<RawClickActions>) -> (r: Result<Option<ClickActions>, Slip>)
    ensures
        match r {
            Ok(a) => actions_of(*raw) == Ok::<Option<ActionsView>, SlipView>(actions_view(a)),
            Err(slip) => actions_of(*raw) == Err::<Option<ActionsView>, SlipView>(slip@),
        },
{
    match raw {
        None => Ok(None),
        Some(raw) => {
            let left = resolve_program(&raw.left, Button::Left)?;
            let middle = resolve_program(&raw.middle, Button::Middle)?;
            let right = resolve_program(&raw.right, Button::Right)?;
            Ok(Some(ClickActions { left, middle, right }))
        },
    }
}

/// One job, where it is given to a button.
pub open spec fn given(button: Option<Button>, job: Job) -> Seq<(Button, Job)> {
    match button {
        Some(b) => seq![(b, job)],
        None => Seq::empty(),
    }
}

/// A button that runs a program, where it does.
pub open spec fn given_program(actions: Option<ActionsView>, button: Button) -> Seq<(Button, Job)> {
    match actions {
        Some(a) => if action_of(a, button) is Some {
            seq![(button, Job::Program(button))]
        } else {
            Seq::empty()
        },
        None => Seq::empty(),
    }
}

/// Every button a module has given a job, and the job.
///
/// A module with no further wordings has not claimed its button for them, and a scroll notch
/// is not a button and collides with nothing here.
pub open spec fn claimed(m: ModuleView) -> Seq<(Button, Job)> {
    given(
        if m.format_alt.len() > 0 {
            Some(m.alt_button)
        } else {
            None
        },
        Job::Wordings,
    ) + given(
        match m.collapse {
            Some(fold) => Some(fold.button),
            None => None,
        },
        Job::Fold,
    ) + given(m.refresh_button, Job::Refresh) + given(
        match m.control {
            Some((Control::Media, _)) => Some(Button::Left),
            _ => None,
        },
        Job::Controls,
    ) + given(m.mute_button, Job::Mute) + given_program(m.on_click, Button::Left) + given_program(
        m.on_click,
        Button::Middle,
    ) + given_program(m.on_click, Button::Right)
}

/// The first of these claims, before `to`, on a button.
pub open spec fn claimant(claims: Seq<(Button, Job)>, button: Button, from: int, to: int) -> Option<
    Job,
>
    decreases to - from,
{
    if from < 0 || from >= to || from >= claims.len() {
        None
    } else if claims[from].0 == button {
        Some(claims[from].1)
    } else {
        claimant(claims, button, from + 1, to)
    }
}

/// What is wrong with these claims, from `from` on: two things that want the same button.
///
/// A button does one thing. Silently letting the first claimant win would make the loser a key
/// that is present, spelled correctly and simply ignored.
pub open spec fn claim_trouble(claims: Seq<(Button, Job)>, from: int) -> Option<SlipView>
    decreases claims.len() - from,
{
    if from < 0 || from >= claims.len() {
        None
    } else {
        match claimant(claims, claims[from].0, 0, from) {
            Some(first) => Some(
                plainly(
                    Why::ButtonTwice { button: claims[from].0, first, second: claims[from].1 },
                ),
            ),
            None => claim_trouble(claims, from + 1),
        }
    }
}

fn give(claims: &mut Vec<(Button, Job)>, button: Option<Button>, job: Job)
    ensures
        final(claims)@ == old(claims)@ + given(button, job),
{
    match button {
        Some(b) => {
            claims.push((b, job));
            assert(claims@ =~= old(claims)@ + given(button, job));
        },
        None => {
            assert(claims@ =~= old(claims)@ + given(button, job));
        },
    }
}

fn give_program(claims: &mut Vec<(Button, Job)>, actions: &Option<ClickActions>, button: Button)
    ensures
        final(claims)@ == old(claims)@ + given_program(actions_view(*actions), button),
{
    let runs = match actions {
        Some(a) => a.for_button(button).is_some(),
        None => false,
    };
    if runs {
        claims.push((button, Job::Program(button)));
    }
    assert(claims@ =~= old(claims)@ + given_program(actions_view(*actions), button));
}

/// Every button this module has given a job, and the job.
///
/// One list, so the two places that care - a module against itself, and a module against the
/// group it sits in - are asking the same question of the same answer.
pub fn buttons_claimed(m: &Module) -> (r: Vec<(Button, Job)>)
    ensures
        r@ == claimed(m@),
{
    let mut claims: Vec<(Button, Job)> = Vec::new();
    let wordings = if m.format_alt.len() > 0 {
        Some(m.alt_button)
    } else {
        None
    };
    give(&mut claims, wordings, Job::Wordings);
    let fold = match &m.collapse {
        Some(fold) => Some(fold.button),
        None => None,
    };
    give(&mut claims, fold, Job::Fold);
    give(&mut claims, m.refresh_button, Job::Refresh);
    let controls = match m.control {
        Some((what, _)) => if what == Control::Media {
            Some(Button::Left)
        } else {
            None
        },
        None => None,
    };
    give(&mut claims, controls, Job::Controls);
    give(&mut claims, m.mute_button, Job::Mute);
    give_program(&mut claims, &m.on_click, Button::Left);
    give_program(&mut claims, &m.on_click, Button::Middle);
    give_program(&mut claims, &m.on_click, Button::Right);
    assert(claims@ =~= claimed(m@));
    claims
}

/// The first of these claims, before `to`, on a button.
pub fn find_claimant(claims: &Vec<(Button, Job)>, button: Button, to: usize) -> (r: Option<Job>)
    requires
        to <= claims@.len(),
    ensures
        r == claimant(claims@, button, 0, to as int),
{
    for i in 0..to
        invariant
            to <= claims@.len(),
            claimant(claims@, button, 0, to as int) == claimant(
                claims@,
                button,
                i as int,
                to as int,
            ),
    {
        if claims[i].0 == button {
            return Some(claims[i].1);
        }
    }
    None
}

/// Reject a module where two things want the same button.
fn claim_buttons(claims: &Vec<(Button, Job)>) -> (r: Result<(), Slip>)
    ensures
        match r {
            Ok(_) => claim_trouble(claims@, 0) is None,
            Err(slip) => claim_trouble(claims@, 0) == Some(slip@),
        },
{
    for i in 0..claims.len()
        invariant
            claim_trouble(claims@, 0) == claim_trouble(claims@, i as int),
    {
        if let Some(first) = find_claimant(claims, claims[i].0, i) {
            return Err(
                Slip::plainly(
                    Why::ButtonTwice { button: claims[i].0, first, second: claims[i].1 },
                ),
            );
        }
    }
    Ok(())
}

/// The style a module wears: the one it names, or the starting point, with its own keys over
/// that.
pub open spec fn worn_style(module: Seq<char>, m: RawModule, w: WardrobeView, known: Known) -> Result<
    StyleView,
    RefusalView,
> {
    let here = seq!["module"@, module];
    let start = match m.style {
        None => Some(w.base),
        Some(name) => named_style(w.styles, name@, 0),
    };
    match start {
        None => Err(refused(here, about(Why::UnknownStyle, m.style->0@))),
        Some(style) => match overlaid(style, m.overrides, w.palette, known.icons@) {
            Ok(style) => Ok(style),
            Err(slip) => Err(refused(here, slip)),
        },
    }
}

fn resolve_style(module: &str, m: &RawModule, w: &Wardrobe, known: &Known) -> (r: Result<
    Style,
    Refusal,
>)
    ensures
        told(r) == worn_style(module@, *m, w@, *known),
{
    match &m.style {
        None => put(
            w.base.overlay(&m.overrides, &w.palette, &known.icons),
            at2("module", module),
        ),
        Some(name) => match find_style(&w.styles, name.as_str()) {
            None => Err(
                Refusal::new(at2("module", module), Slip::about(Why::UnknownStyle, name.as_str())),
            ),
            Some(start) => put(
                start.overlay(&m.overrides, &w.palette, &known.icons),
                at2("module", module),
            ),
        },
    }
}

/// How long a module takes to travel between its wordings.
pub open spec fn travel_of(module: Seq<char>, m: RawModule) -> Result<
    Option<Duration>,
    RefusalView,
> {
    let here = seq!["module"@, module];
    match timed(m.alt_animation, module, "alt_animation"@) {
        Err(e) => Err(e),
        Ok(None) => Ok(None),
        Ok(Some(d)) => if m.format_alt@.len() == 0 {
            Err(refused(here, plainly(Why::AnimationWithoutWordings)))
        } else if d.nanos > LONGEST_ANIMATION {
            Err(
                RefusalView {
                    at: keyed(here, "alt_animation"@),
                    slip: plainly(Why::AnimationTooLong),
                },
            )
        } else {
            Ok(Some(d))
        },
    }
}

fn resolve_travel(module: &str, m: &RawModule) -> (r: Result<Option<Duration>, Refusal>)
    ensures
        match r {
            Ok(d) => travel_of(module@, *m) == Ok::<Option<Duration>, RefusalView>(d),
            Err(e) => travel_of(module@, *m) == Err::<Option<Duration>, RefusalView>(e@),
        },
{
    let travel = resolve_time(&m.alt_animation, module, "alt_animation")?;
    if let Some(d) = travel {
        if m.format_alt.len() == 0 {
            return Err(
                Refusal::new(at2("module", module), Slip::plainly(Why::AnimationWithoutWordings)),
            );
        }
        if d.nanos > LONGEST_ANIMATION {
            return Err(
                Refusal::new(
                    at2("module", module).under("alt_animation"),
                    Slip::plainly(Why::AnimationTooLong),
                ),
            );
        }
    }
    Ok(travel)
}

/// What is wrong with the buttons a module names, before they are held against each other.
///
/// Muting is the volume's alone, and only a source that can be asked can be refreshed.
pub open spec fn button_trouble(
    m: RawModule,
    control: Option<(Control, Number)>,
    source: SourceView,
) -> Option<SlipView> {
    if m.mute_button is Some && !(control matches Some((Control::Volume, _))) {
        Some(plainly(Why::NothingToMute))
    } else if m.refresh_button is Some && unaskable(source) is Some {
        Some(plainly(Why::RefreshRefused(unaskable(source)->0)))
    } else {
        None
    }
}

fn check_buttons(m: &RawModule, control: Option<(Control, Number)>, source: &Source) -> (r: Result<
    (),
    Slip,
>)
    ensures
        match r {
            Ok(_) => button_trouble(*m, control, source@) is None,
            Err(slip) => button_trouble(*m, control, source@) == Some(slip@),
        },
{
    let volume = match control {
        Some((what, _)) => what == Control::Volume,
        None => false,
    };
    if m.mute_button.is_some() && !volume {
        return Err(Slip::plainly(Why::NothingToMute));
    }
    if m.refresh_button.is_some() {
        if let Err(why) = can_refresh(source) {
            return Err(Slip::plainly(Why::RefreshRefused(why)));
        }
    }
    Ok(())
}

/// The scroll step a module writes, where it writes one.
pub open spec fn scroll_of(module: Seq<char>, m: RawModule) -> Result<
    Option<Number>,
    RefusalView,
> {
    match m.scroll {
        None => Ok(None),
        Some(raw) => match step_of(raw) {
            Ok(step) => Ok(Some(step)),
            Err(slip) => Err(
                RefusalView { at: keyed(seq!["module"@, module], "scroll"@), slip },
            ),
        },
    }
}

fn resolve_scroll(module: &str, m: &RawModule) -> (r: Result<Option<Number>, Refusal>)
    ensures
        match r {
            Ok(n) => scroll_of(module@, *m) == Ok::<Option<Number>, RefusalView>(n),
            Err(e) => scroll_of(module@, *m) == Err::<Option<Number>, RefusalView>(e@),
        },
{
    match &m.scroll {
        None => Ok(None),
        Some(raw) => {
            let step = put(parse_percent(raw), at2("module", module).under("scroll"))?;
            Ok(Some(step))
        },
    }
}

/// What a module operates, with the place of anything wrong with that.
pub open spec fn operated(module: Seq<char>, m: RawModule, source: SourceView) -> Result<
    Option<(Control, Number)>,
    RefusalView,
> {
    match scroll_of(module, m) {
        Err(e) => Err(e),
        Ok(step) => match control_for(m, step, source) {
            Err(slip) => Err(refused(seq!["module"@, module], slip)),
            Ok(control) => Ok(control),
        },
    }
}

/// The wording a module writes, or the one its source starts with.
pub open spec fn main_wording(m: RawModule, source: SourceView) -> Seq<char> {
    match m.format {
        Some(s) => s@,
        None => source_wording(source),
    }
}

/// The rules of a ranked list, without the names they had.
pub open spec fn rules_alone(rules: Seq<(Seq<char>, RuleView)>) -> Seq<RuleView> {
    Seq::new(rules.len(), |i: int| rules[i].1)
}

/// A module, once its source, its style and its rules are known.
pub open spec fn finished(
    name: Seq<char>,
    m: RawModule,
    source: SourceView,
    style: StyleView,
    states: Seq<(Seq<char>, RuleView)>,
    w: WardrobeView,
    known: Known,
    highest: i32,
) -> Result<ModuleView, RefusalView> {
    let here = seq!["module"@, name];
    let fields = source_fields(source, known.elsewhere@);
    let interval = interval_of(name, m, source);
    let signal = signal_trouble(m, source, highest);
    let scroll = scroll_of(name, m);
    let fold = fold_of(name, m, style, states, w, known);
    let control = operated(name, m, source);
    let format = format_of(main_wording(m, source), fields, known);
    let wordings = wordings_of(name, m.format_alt@, 0, fields, known);
    let travel = travel_of(name, m);
    let actions = actions_of(m.on_click);
    if interval is Err {
        Err(interval->Err_0)
    } else if signal is Some {
        Err(refused(here, signal->0))
    } else if scroll is Err {
        Err(scroll->Err_0)
    } else if fold is Err {
        Err(fold->Err_0)
    } else if control is Err {
        Err(control->Err_0)
    } else if format is Err {
        Err(RefusalView { at: keyed(here, "format"@), slip: format->Err_0 })
    } else if wordings is Err {
        Err(wordings->Err_0)
    } else if travel is Err {
        Err(travel->Err_0)
    } else if button_trouble(m, control->Ok_0, source) is Some {
        Err(refused(here, button_trouble(m, control->Ok_0, source)->0))
    } else if actions is Err {
        Err(refused(here, actions->Err_0))
    } else {
        let made = ModuleView {
            name,
            source,
            interval: interval->Ok_0,
            signal: m.signal,
            control: control->Ok_0,
            collapse: fold->Ok_0,
            alt_button: match m.alt_button {
                Some(button) => button,
                None => Button::Left,
            },
            refresh_button: m.refresh_button,
            // Carried only where there is something to mute, so a press on anything else
            // falls through to whatever the module was already forwarding it to.
            mute_button: if control->Ok_0 matches Some((Control::Volume, _)) {
                Some(
                    match m.mute_button {
                        Some(button) => button,
                        None => Button::Middle,
                    },
                )
            } else {
                None
            },
            on_click: actions->Ok_0,
            format: format->Ok_0,
            format_alt: wordings->Ok_0,
            alt_animation: travel->Ok_0,
            style,
            states: rules_alone(states),
        };
        match claim_trouble(claimed(made), 0) {
            Some(slip) => Err(refused(here, slip)),
            None => Ok(made),
        }
    }
}

/// A module the configuration writes a table for.
pub open spec fn module_of(
    name: Seq<char>,
    m: RawModule,
    w: WardrobeView,
    known: Known,
    highest: i32,
) -> Result<ModuleView, RefusalView> {
    match source_of(name, m, known.icons@) {
        Err(e) => Err(e),
        Ok(source) => match worn_style(name, m, w, known) {
            Err(e) => Err(e),
            Ok(style) => match rules_of(name, m.states@, 0, style, source, w, known) {
                Err(e) => Err(e),
                Ok(rules) => finished(name, m, source, style, ranked(rules), w, known, highest),
            },
        },
    }
}

/// A module that is listed in a group but never configured: a block of the provider's, in the
/// starting style.
pub open spec fn plain_module(name: Seq<char>, style: StyleView, format: FormatView) -> ModuleView {
    ModuleView {
        name,
        source: SourceView::Provider,
        interval: None,
        signal: None,
        control: None,
        collapse: None,
        alt_button: Button::Left,
        refresh_button: None,
        mute_button: None,
        on_click: None,
        format,
        format_alt: Seq::empty(),
        alt_animation: None,
        style,
        states: Seq::empty(),
    }
}

/// The wording of a block of the provider's that says nothing of its own.
pub open spec fn provider_format(known: Known) -> Result<FormatView, SlipView> {
    format_of("$text"@, known.elsewhere@.provider, known)
}

/// The rules of a ranked list, without the names they had.
fn drop_names(rules: Vec<(String, StateRule)>) -> (r: Vec<StateRule>)
    ensures
        states_view(r@) == rules_alone(rules_view(rules@)),
{
    let ghost all = rules_view(rules@);
    let mut rest = rules;
    let mut turned: Vec<StateRule> = Vec::new();
    while rest.len() > 0
        invariant
            rest@.len() + turned@.len() == all.len(),
            forall|i: int| 0 <= i < rest@.len() ==> (#[trigger] rest@[i]).1@ == all[i].1,
            forall|i: int|
                0 <= i < turned@.len() ==> (#[trigger] turned@[i])@ == all[all.len() - 1 - i].1,
        decreases rest@.len(),
    {
        match rest.pop() {
            Some(pair) => {
                turned.push(pair.1);
            },
            None => {},
        }
    }
    let mut out: Vec<StateRule> = Vec::new();
    while turned.len() > 0
        invariant
            out@.len() + turned@.len() == all.len(),
            forall|i: int|
                0 <= i < turned@.len() ==> (#[trigger] turned@[i])@ == all[all.len() - 1 - i].1,
            forall|i: int| 0 <= i < out@.len() ==> (#[trigger] out@[i])@ == all[i].1,
        decreases turned@.len(),
    {
        match turned.pop() {
            Some(rule) => {
                out.push(rule);
            },
            None => {},
        }
    }
    assert(states_view(out@) =~= rules_alone(all));
    out
}

/// Resolve a module the configuration writes a table for. `highest` is the last realtime
/// signal there is above SIGRTMIN.
pub fn resolve_module(name: &str, m: &RawModule, w: &Wardrobe, known: &Known, highest: i32) -> (r:
    Result<Module, Refusal>)
    ensures
        told(r) == module_of(name@, *m, w@, *known, highest),
{
    let source = resolve_source(name, m, &known.icons)?;
    let style = resolve_style(name, m, w, known)?;
    let rules = resolve_rules(name, m.states.entries(), &style, &source, w, known)?;
    let states = rank_rules(rules);
    let module = finish_module(name, m, source, style, states, w, known, highest)?;
    put(claim_buttons(&buttons_claimed(&module)), at2("module", name))?;
    Ok(module)
}

/// Everything of `finished` but the last check, of the buttons against each other.
spec fn unclaimed(
    name: Seq<char>,
    m: RawModule,
    source: SourceView,
    style: StyleView,
    states: Seq<(Seq<char>, RuleView)>,
    w: WardrobeView,
    known: Known,
    highest: i32,
    r: Result<ModuleView, RefusalView>,
) -> bool {
    let whole = finished(name, m, source, style, states, w, known, highest);
    match r {
        Err(e) => whole == Err::<ModuleView, RefusalView>(e),
        Ok(made) => whole == match claim_trouble(claimed(made), 0) {
            Some(slip) => Err(refused(seq!["module"@, name], slip)),
            None => Ok(made),
        },
    }
}

fn finish_module(
    name: &str,
    m: &RawModule,
    source: Source,
    style: Style,
    states: Vec<(String, StateRule)>,
    w: &Wardrobe,
    known: &Known,
    highest: i32,
) -> (r: Result<Module, Refusal>)
    ensures
        unclaimed(
            name@,
            *m,
            source@,
            style@,
            rules_view(states@),
            w@,
            *known,
            highest,
            told(r),
        ),
{
    let fields = source.fields(&known.elsewhere);
    let interval = resolve_interval(name, m, &source)?;
    put(check_signal(m, &source, highest), at2("module", name))?;
    let step = resolve_scroll(name, m)?;
    let collapse = resolve_fold(name, m, &style, &states, w, known)?;
    let control = put(resolve_control(m, step, &source), at2("module", name))?;
    let text = match &m.format {
        Some(s) => s.clone(),
        None => owned(source.default_format()),
    };
    let format = put(
        resolve_format(text.as_str(), &fields, known),
        at2("module", name).under("format"),
    )?;
    let format_alt = resolve_wordings(name, &m.format_alt, &fields, known)?;
    let alt_animation = resolve_travel(name, m)?;
    put(check_buttons(m, control, &source), at2("module", name))?;
    let on_click = put(click_actions(&m.on_click), at2("module", name))?;
    let alt_button = match m.alt_button {
        Some(button) => button,
        None => Button::Left,
    };
    let mute = match m.mute_button {
        Some(button) => button,
        None => Button::Middle,
    };
    let mute_button = match control {
        Some((what, _)) => if what == Control::Volume {
            Some(mute)
        } else {
            None
        },
        None => None,
    };
    let states = drop_names(states);
    Ok(
        Module {
            name: owned(name),
            source,
            interval,
            signal: m.signal,
            control,
            collapse,
            alt_button,
            refresh_button: m.refresh_button,
            mute_button,
            on_click,
            format,
            format_alt,
            alt_animation,
            style,
            states,
        },
    )
}

/// A block of the provider's that the configuration says nothing about.
pub fn plain_block(name: &str, style: &Style, known: &Known) -> (r: Result<Module, Slip>)
    ensures
        slipped(r) == match provider_format(*known) {
            Ok(format) => Ok(plain_module(name@, style@, format)),
            Err(slip) => Err(slip),
        },
{
    let format = resolve_format("$text", &known.elsewhere.provider, known)?;
    let module = Module {
        name: owned(name),
        source: Source::Provider,
        interval: None,
        signal: None,
        control: None,
        collapse: None,
        alt_button: Button::Left,
        refresh_button: None,
        mute_button: None,
        on_click: None,
        format,
        format_alt: Vec::new(),
        alt_animation: None,
        style: style.copy(),
        states: Vec::new(),
    };
    assert(module@ =~= plain_module(name@, style@, format@));
    Ok(module)
}

proof fn lemma_claimant(claims: Seq<(Button, Job)>, button: Button, from: int, to: int)
    requires
        0 <= from <= to <= claims.len(),
    ensures
        claimant(claims, button, from, to) is None ==> forall|i: int|
            from <= i < to ==> (#[trigger] claims[i]).0 != button,
    decreases to - from,
{
    if from < to && claims[from].0 != button {
        lemma_claimant(claims, button, from + 1, to);
    }
}

proof fn lemma_no_claim_trouble(claims: Seq<(Button, Job)>, from: int)
    requires
        0 <= from <= claims.len(),
        claim_trouble(claims, from) is None,
    ensures
        forall|i: int, j: int|
            0 <= i < j < claims.len() && from <= j ==> (#[trigger] claims[i]).0 != (
            #[trigger] claims[j]).0,
    decreases claims.len() - from,
{
    if from < claims.len() {
        lemma_claimant(claims, claims[from].0, 0, from);
        lemma_no_claim_trouble(claims, from + 1);
        assert forall|i: int, j: int| 0 <= i < j < claims.len() && from <= j implies (
        #[trigger] claims[i]).0 != (#[trigger] claims[j]).0 by {
            if j == from {
            }
        }
    }
}

/// A button does one thing: no module of a configuration that was accepted gives one button
/// two jobs.
pub proof fn law_a_button_does_one_thing(
    name: Seq<char>,
    m: RawModule,
    w: WardrobeView,
    known: Known,
    highest: i32,
)
    requires
        module_of(name, m, w, known, highest) is Ok,
    ensures
        ({
            let claims = claimed(module_of(name, m, w, known, highest)->Ok_0);
            forall|i: int, j: int|
                0 <= i < j < claims.len() ==> (#[trigger] claims[i]).0 != (#[trigger] claims[j]).0
        }),
{
    let made = module_of(name, m, w, known, highest)->Ok_0;
    assert(claim_trouble(claimed(made), 0) is None);
    lemma_no_claim_trouble(claimed(made), 0);
}

/// A module that folds leaves something to click on: whatever it is folded from, the icon it
/// shows folded has no trouble being drawn.
pub proof fn law_a_fold_leaves_an_icon(
    name: Seq<char>,
    m: RawModule,
    style: StyleView,
    states: Seq<(Seq<char>, RuleView)>,
    w: WardrobeView,
    known: Known,
)
    requires
        fold_of(name, m, style, states, w, known) matches Ok(Some(_)),
    ensures
        ({
            let fold = fold_of(name, m, style, states, w, known)->Ok_0->0;
            let worn = match fold.style {
                Some(s) => s,
                None => style,
            };
            match fold.icon {
                Some(icon) => fold_trouble(icon, worn, known.footprints@) is None,
                None => {
                    &&& style.icon matches Some(icon) && fold_trouble(
                        icon,
                        worn,
                        known.footprints@,
                    ) is None
                    &&& forall|i: int|
                        0 <= i < states.len() ==> ((#[trigger] states[i]).1.style.icon matches Some(
                            icon,
                        ) && fold_trouble(
                            icon,
                            match fold.style {
                                Some(s) => s,
                                None => states[i].1.style,
                            },
                            known.footprints@,
                        ) is None)
                },
            }
        }),
{
    let fold = fold_of(name, m, style, states, w, known)->Ok_0->0;
    if fold.icon is None {
        lemma_states_fold(name, states, 0, fold.style, known);
    }
}

proof fn lemma_states_fold(
    name: Seq<char>,
    states: Seq<(Seq<char>, RuleView)>,
    from: int,
    collapsed: Option<StyleView>,
    known: Known,
)
    requires
        0 <= from <= states.len(),
        states_fold_trouble(name, states, from, collapsed, known) is None,
    ensures
        forall|i: int|
            from <= i < states.len() ==> ((#[trigger] states[i]).1.style.icon matches Some(icon)
                && fold_trouble(
                icon,
                match collapsed {
                    Some(s) => s,
                    None => states[i].1.style,
                },
                known.footprints@,
            ) is None),
    decreases states.len() - from,
{
    if from < states.len() {
        lemma_states_fold(name, states, from + 1, collapsed, known);
    }
}

/// A module that writes no signal, or one that two systems have, is the same on both.
pub proof fn lemma_module_anywhere(
    name: Seq<char>,
    m: RawModule,
    w: WardrobeView,
    known: Known,
    a: i32,
    b: i32,
)
    requires
        m.signal matches Some(offset) ==> 0 <= offset <= a && offset <= b,
    ensures
        module_of(name, m, w, known, a) == module_of(name, m, w, known, b),
{
}

} // verus!
