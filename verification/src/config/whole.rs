//! A configuration with everything in it looked up.

use crate::collect::registry::asked_once;
use crate::collect::which::{default_seconds, key, CommandSpec, CommandView, Which, WhichView};
use crate::color::{quieter, Color};
use crate::config::group::{lemma_group_anywhere, signals_within, group_of, groups_view, resolve_group, resolve_separator};
use crate::config::group::{separator_of, Group, GroupView, Separator};
use crate::config::known::{Known, Wardrobe, WardrobeView};
use crate::config::module::{modules_view, Module, ModuleView};
use crate::config::raw::{BarLayer, Edge, RawBar, RawConfig, RawGroup, RawMenu};
use crate::config::raw::{RawModule, RawPosition, RawSeparator, SeparatorShape};
use crate::config::refusal::{about, at0, at2, plainly, put, refused, told, Refusal, RefusalView};
use crate::config::refusal::{Slip, SlipView, Why};
use crate::config::share::{check_sharing, commands_in, commands_view, list_commands, share_fields};
use crate::config::share::{shared_modules, sharing_trouble};
use crate::config::source::{Source, SourceView};
use crate::config::style::{base, color_of, palette_of, resolve_styles, styles_of};
use crate::config::style::{Palette, Style, StyleView};
use crate::number::{Number, FORTY, ONE, ZERO};
use crate::text::{copy_texts, is_blank, is_float, parted_last, rsplit_once, same, texts};
use crate::text::{trim, trimmed, writes_float};
use crate::time::Duration;
use vstd::prelude::*;

verus! {

/// How many programs can be kept track of at once.
pub const AT_ONCE: u64 = 32;

/// The bar itself.
#[derive(Debug)]
pub struct Bar {
    pub height: u32,
    pub position: Edge,
    pub layer: BarLayer,
    pub margin: i32,
    pub gap: Number,
    pub font_family: String,
    pub font_size: Number,
    /// Families to try for characters the bar's own font cannot draw. Empty means the
    /// configuration named none.
    pub font_fallback: Vec<String>,
    /// Icon edge length used unless a style or module overrides it.
    pub icon_size: Number,
    pub background: Color,
    pub radius: Number,
    pub exclusive: bool,
    /// The screens this bar appears on, empty for all of them.
    pub outputs: Vec<String>,
    /// Which icon theme a tray item's named icon is looked for in.
    pub icon_theme: String,
}

/// What a `Bar` says.
#[verifier::ext_equal]
pub struct BarView {
    pub height: u32,
    pub position: Edge,
    pub layer: BarLayer,
    pub margin: i32,
    pub gap: Number,
    pub font_family: Seq<char>,
    pub font_size: Number,
    pub font_fallback: Seq<Seq<char>>,
    pub icon_size: Number,
    pub background: Color,
    pub radius: Number,
    pub exclusive: bool,
    pub outputs: Seq<Seq<char>>,
    pub icon_theme: Seq<char>,
}

impl View for Bar {
    type V = BarView;

    open spec fn view(&self) -> BarView {
        BarView {
            height: self.height,
            position: self.position,
            layer: self.layer,
            margin: self.margin,
            gap: self.gap,
            font_family: self.font_family@,
            font_size: self.font_size,
            font_fallback: texts(self.font_fallback@),
            icon_size: self.icon_size,
            background: self.background,
            radius: self.radius,
            exclusive: self.exclusive,
            outputs: texts(self.outputs@),
            icon_theme: self.icon_theme@,
        }
    }
}

/// Whether a list names this.
pub open spec fn names(list: Seq<Seq<char>>, name: Seq<char>) -> bool {
    list.contains(name)
}

/// Whether a bar belongs on a screen of this name.
///
/// A screen the compositor has not named yet is taken only by a bar that asked for every
/// screen: a list of names cannot be checked against a screen that has none.
pub open spec fn shown_on(outputs: Seq<Seq<char>>, name: Option<Seq<char>>) -> bool {
    outputs.len() == 0 || names(outputs, "*"@) || (name matches Some(n) && names(outputs, n))
}

fn listed(list: &Vec<String>, name: &str) -> (r: bool)
    ensures
        r == names(texts(list@), name@),
{
    let ghost all = texts(list@);
    for i in 0..list.len()
        invariant
            all == texts(list@),
            forall|j: int| 0 <= j < i ==> #[trigger] all[j] != name@,
    {
        assert(all[i as int] == list@[i as int]@);
        if same(list[i].as_str(), name) {
            return true;
        }
    }
    false
}

impl Bar {
    /// Whether this bar belongs on a screen the compositor calls `name`.
    pub fn shows_on(&self, name: Option<&str>) -> (r: bool)
        ensures
            r == shown_on(
                self@.outputs,
                match name {
                    Some(n) => Some(n@),
                    None => None,
                },
            ),
    {
        if self.outputs.len() == 0 || listed(&self.outputs, "*") {
            return true;
        }
        match name {
            Some(n) => listed(&self.outputs, n),
            None => false,
        }
    }
}

/// How the menu behind a tray icon is painted.
#[derive(Clone, Copy, Debug, PartialEq, Eq, Structural)]
pub struct Menu {
    pub background: Color,
    pub foreground: Color,
    pub highlight: Color,
    pub highlight_foreground: Color,
    pub disabled: Color,
    pub separator: Color,
    pub padding: Number,
    pub radius: Number,
    pub max_width: Number,
}

/// How to start an external i3bar-protocol provider, when a module reads from one.
#[derive(Debug)]
pub struct I3Bar {
    pub command: String,
    pub args: Vec<String>,
    /// Stable names for the provider's blocks, by position.
    pub names: Vec<String>,
}

/// What an `I3Bar` says.
#[verifier::ext_equal]
pub struct I3BarView {
    pub command: Seq<char>,
    pub args: Seq<Seq<char>>,
    pub names: Seq<Seq<char>>,
}

impl View for I3Bar {
    type V = I3BarView;

    open spec fn view(&self) -> I3BarView {
        I3BarView {
            command: self.command@,
            args: texts(self.args@),
            names: texts(self.names@),
        }
    }
}

/// One alignment: independent groups, optionally connected by shared separators.
#[derive(Debug)]
pub struct Position {
    pub groups: Vec<Group>,
    pub separator: Option<Separator>,
}

/// What a `Position` says.
#[verifier::ext_equal]
pub struct PositionView {
    pub groups: Seq<GroupView>,
    pub separator: Option<Separator>,
}

impl View for Position {
    type V = PositionView;

    open spec fn view(&self) -> PositionView {
        PositionView { groups: groups_view(self.groups@), separator: self.separator }
    }
}

/// What a list of positions says.
pub open spec fn positions_view(positions: Seq<Position>) -> Seq<PositionView> {
    Seq::new(positions.len(), |i: int| positions[i]@)
}

/// A configuration with everything in it looked up.
#[derive(Debug)]
pub struct Config {
    pub bar: Bar,
    pub menu: Menu,
    pub i3bar: I3Bar,
    /// Groups on the left, in the center and on the right.
    pub positions: Vec<Position>,
}

/// What a `Config` says.
#[verifier::ext_equal]
pub struct ConfigView {
    pub bar: BarView,
    pub menu: Menu,
    pub i3bar: I3BarView,
    pub positions: Seq<PositionView>,
}

impl View for Config {
    type V = ConfigView;

    open spec fn view(&self) -> ConfigView {
        ConfigView {
            bar: self.bar@,
            menu: self.menu,
            i3bar: self.i3bar@,
            positions: positions_view(self.positions@),
        }
    }
}

/// The family and the size in a text like "Inter 10". Without a size at its end, or without
/// anything before one, the whole text is the family.
pub open spec fn font_parts(s: Seq<char>) -> (Seq<char>, Option<Seq<char>>) {
    let text = trimmed(s);
    match parted_last(text, ' ') {
        Some((family, size)) => if is_float(size) && !is_blank(family) {
            (trimmed(family), Some(size))
        } else {
            (text, None)
        },
        None => (text, None),
    }
}

/// Split a "Family Name 12" font text into its family and, where it has one, its size.
pub fn parse_font(s: &str) -> (r: (String, Option<String>))
    ensures
        font_parts(s@) == (r.0@, match r.1 {
            Some(size) => Some(size@),
            None => None,
        }),
{
    let text = trim(s);
    match rsplit_once(text.as_str(), ' ') {
        Some((family, size)) => if writes_float(size.as_str()) && !crate::text::blank(
            family.as_str(),
        ) {
            (trim(family.as_str()), Some(size))
        } else {
            (text, None)
        },
        None => (text, None),
    }
}

/// The color a key writes, or another.
pub open spec fn color_or(
    written: Option<String>,
    otherwise: Color,
    palette: Seq<(Seq<char>, Color)>,
) -> Result<Color, SlipView> {
    match written {
        Some(c) => color_of(c@, palette),
        None => Ok(otherwise),
    }
}

fn color_key(written: &Option<String>, otherwise: Color, palette: &Palette) -> (r: Result<
    Color,
    Refusal,
>)
    ensures
        match r {
            Ok(c) => color_or(*written, otherwise, palette@) == Ok::<Color, SlipView>(c),
            Err(e) => color_or(*written, otherwise, palette@) is Err && e@ == refused(
                Seq::empty(),
                color_or(*written, otherwise, palette@)->Err_0,
            ),
        },
{
    match written {
        Some(c) => put(palette.get(c.as_str()), at0()),
        None => Ok(otherwise),
    }
}

/// The bar as written, resolved. It is at least a pixel high, and its icons follow its font
/// unless it says how large they are.
pub open spec fn bar_of(raw: RawBar, palette: Seq<(Seq<char>, Color)>, known: Known) -> Result<
    BarView,
    RefusalView,
> {
    match color_or(raw.background.color, Color { r: 0, g: 0, b: 0, a: 0 }, palette) {
        Err(slip) => Err(refused(Seq::empty(), slip)),
        Ok(background) => Ok(
            BarView {
                height: if raw.height < 1 {
                    1
                } else {
                    raw.height
                },
                position: raw.position,
                layer: raw.layer,
                margin: raw.margin,
                gap: raw.gap,
                font_family: font_parts(raw.font@).0,
                font_size: known.font_size,
                font_fallback: texts(raw.fallback@),
                icon_size: match raw.icon_size {
                    Some(v) => v.larger(Number { bits: ZERO }),
                    None => known.icon_size,
                },
                background,
                radius: raw.background.radius,
                exclusive: raw.exclusive,
                outputs: texts(raw.outputs@),
                icon_theme: raw.icon_theme@,
            },
        ),
    }
}

fn resolve_bar(raw: &RawBar, palette: &Palette, known: &Known) -> (r: Result<Bar, Refusal>)
    ensures
        told(r) == bar_of(*raw, palette@, *known),
{
    let (font_family, _) = parse_font(raw.font.as_str());
    let background = color_key(&raw.background.color, Color::transparent(), palette)?;
    Ok(
        Bar {
            height: if raw.height < 1 {
                1
            } else {
                raw.height
            },
            position: raw.position,
            layer: raw.layer,
            margin: raw.margin,
            gap: raw.gap,
            font_family,
            font_size: known.font_size,
            font_fallback: copy_texts(&raw.fallback),
            icon_size: match raw.icon_size {
                Some(v) => v.max(Number { bits: ZERO }),
                None => known.icon_size,
            },
            background,
            radius: raw.background.radius,
            exclusive: raw.exclusive,
            outputs: copy_texts(&raw.outputs),
            icon_theme: raw.icon_theme.clone(),
        },
    )
}

/// How much of the starting foreground the row of a menu under the pointer is filled with, a row
/// that cannot be chosen is written in and the line between two rows is drawn in, as shares of
/// the whole: eighteen, forty-five and twenty-five hundredths.
pub const HIGHLIGHT: u32 = 3_019_899;

pub const DISABLED: u32 = 7_549_747;

pub const RULE: u32 = 4_194_304;

/// The menu as written, resolved. It is not part of the bar's own surface, so what it does not
/// say is taken from the bar and from the style every module starts out with.
pub open spec fn menu_of(
    raw: RawMenu,
    bar_background: Color,
    start: StyleView,
    palette: Seq<(Seq<char>, Color)>,
) -> Result<Menu, SlipView> {
    let background = color_or(raw.background, bar_background, palette);
    let foreground = color_or(raw.foreground, start.foreground, palette);
    let highlight = color_or(raw.highlight, quieter(start.foreground, HIGHLIGHT as int), palette);
    let highlight_foreground = color_or(raw.highlight_foreground, start.foreground, palette);
    let disabled = color_or(raw.disabled, quieter(start.foreground, DISABLED as int), palette);
    let separator = color_or(raw.separator, quieter(start.foreground, RULE as int), palette);
    if background is Err {
        Err(background->Err_0)
    } else if foreground is Err {
        Err(foreground->Err_0)
    } else if highlight is Err {
        Err(highlight->Err_0)
    } else if highlight_foreground is Err {
        Err(highlight_foreground->Err_0)
    } else if disabled is Err {
        Err(disabled->Err_0)
    } else if separator is Err {
        Err(separator->Err_0)
    } else {
        Ok(
            Menu {
                background: background->Ok_0,
                foreground: foreground->Ok_0,
                highlight: highlight->Ok_0,
                highlight_foreground: highlight_foreground->Ok_0,
                disabled: disabled->Ok_0,
                separator: separator->Ok_0,
                padding: raw.padding.larger(Number { bits: ZERO }),
                radius: raw.radius.larger(Number { bits: ZERO }),
                max_width: raw.max_width.larger(Number { bits: FORTY }),
            },
        )
    }
}

fn resolve_menu(
    raw: &RawMenu,
    bar_background: Color,
    start: &Style,
    palette: &Palette,
) -> (r: Result<Menu, Refusal>)
    ensures
        match r {
            Ok(m) => menu_of(*raw, bar_background, start@, palette@) == Ok::<
                Menu,
                SlipView,
            >(m),
            Err(e) => menu_of(*raw, bar_background, start@, palette@) is Err && e@
                == refused(
                Seq::empty(),
                menu_of(*raw, bar_background, start@, palette@)->Err_0,
            ),
        },
{
    let background = color_key(&raw.background, bar_background, palette)?;
    let foreground = color_key(&raw.foreground, start.foreground, palette)?;
    let highlight = color_key(&raw.highlight, start.foreground.faded(HIGHLIGHT), palette)?;
    let highlight_foreground = color_key(&raw.highlight_foreground, start.foreground, palette)?;
    let disabled = color_key(&raw.disabled, start.foreground.faded(DISABLED), palette)?;
    let separator = color_key(&raw.separator, start.foreground.faded(RULE), palette)?;
    let zero = Number { bits: ZERO };
    Ok(
        Menu {
            background,
            foreground,
            highlight,
            highlight_foreground,
            disabled,
            separator,
            padding: raw.padding.max(zero),
            radius: raw.radius.max(zero),
            max_width: raw.max_width.max(Number { bits: FORTY }),
        },
    )
}

/// The separator between the groups of a position: one with a shape, a finite width above zero
/// and a finite overlap, or none.
pub open spec fn joint(raw: Option<RawSeparator>, palette: Seq<(Seq<char>, Color)>) -> Result<
    Option<Separator>,
    SlipView,
> {
    match raw {
        None => Ok(None),
        Some(s) => match separator_of(s, palette) {
            Err(slip) => Err(slip),
            Ok(sep) => if sep.shape == SeparatorShape::Nothing {
                Ok(None)
            } else if !sep.width.finite() || !(Number { bits: ZERO }).less(sep.width)
                || !sep.overlap.finite() {
                Err(plainly(Why::UnjoinableWidth))
            } else {
                Ok(Some(sep))
            },
        },
    }
}

fn resolve_joint(raw: &Option<RawSeparator>, palette: &Palette) -> (r: Result<
    Option<Separator>,
    Slip,
>)
    ensures
        match r {
            Ok(s) => joint(*raw, palette@) == Ok::<Option<Separator>, SlipView>(s),
            Err(slip) => joint(*raw, palette@) == Err::<Option<Separator>, SlipView>(slip@),
        },
{
    match raw {
        None => Ok(None),
        Some(s) => {
            let sep = resolve_separator(s, palette)?;
            if sep.shape == SeparatorShape::Nothing {
                return Ok(None);
            }
            let zero = Number { bits: ZERO };
            if !sep.width.is_finite() || !zero.lt(sep.width) || !sep.overlap.is_finite() {
                return Err(Slip::plainly(Why::UnjoinableWidth));
            }
            Ok(Some(sep))
        },
    }
}

/// The table of a group, looked for from `from` on.
pub open spec fn group_table(tables: Seq<(String, RawGroup)>, name: Seq<char>, from: int) -> Option<
    RawGroup,
>
    decreases tables.len() - from,
{
    if from < 0 || from >= tables.len() {
        None
    } else if tables[from].0@ == name {
        Some(tables[from].1)
    } else {
        group_table(tables, name, from + 1)
    }
}

fn find_group<'a>(tables: &'a Vec<(String, RawGroup)>, name: &str) -> (r: Option<&'a RawGroup>)
    ensures
        match r {
            Some(t) => group_table(tables@, name@, 0) == Some(*t),
            None => group_table(tables@, name@, 0) is None,
        },
{
    for i in 0..tables.len()
        invariant
            group_table(tables@, name@, 0) == group_table(tables@, name@, i as int),
    {
        if same(tables[i].0.as_str(), name) {
            return Some(&tables[i].1);
        }
    }
    None
}

/// A group of a position. Groups that are joined meet edge to edge, so each has to be all
/// there and have no padding.
#[verifier::opaque]
pub open spec fn placed_group(
    side: Seq<char>,
    joined: bool,
    name: Seq<char>,
    groups: Seq<(String, RawGroup)>,
    modules: Seq<(String, RawModule)>,
    w: WardrobeView,
    known: Known,
    highest: i32,
) -> Result<GroupView, RefusalView> {
    match group_table(groups, name, 0) {
        None => Err(refused(Seq::empty(), about(Why::UnknownGroup, name))),
        Some(g) => match group_of(name, g, modules, w, known, highest) {
            Err(e) => Err(e),
            Ok(group) => if joined && (!group.opacity.equal(Number { bits: ONE })
                || !group.padding.equal(Number { bits: ZERO })) {
                Err(refused(seq![side, "separator"@], about(Why::UnjoinableGroup, name)))
            } else {
                Ok(group)
            },
        },
    }
}

fn place_group(
    side: &str,
    joined: bool,
    name: &str,
    groups: &Vec<(String, RawGroup)>,
    modules: &Vec<(String, RawModule)>,
    w: &Wardrobe,
    known: &Known,
    highest: i32,
) -> (r: Result<Group, Refusal>)
    ensures
        told(r) == placed_group(
            side@,
            joined,
            name@,
            groups@,
            modules@,
            w@,
            *known,
            highest,
        ),
{
    proof {
        reveal(placed_group);
    }
    match find_group(groups, name) {
        None => Err(Refusal::new(at0(), Slip::about(Why::UnknownGroup, name))),
        Some(g) => {
            let group = resolve_group(name, g, modules, w, known, highest)?;
            if joined && (!group.opacity.is(Number { bits: ONE }) || !group.padding.is(
                Number { bits: ZERO },
            )) {
                return Err(
                    Refusal::new(
                        at2(side, "separator"),
                        Slip::about(Why::UnjoinableGroup, name),
                    ),
                );
            }
            Ok(group)
        },
    }
}

/// The groups of a position, from `from` on.
pub open spec fn placed_groups(
    side: Seq<char>,
    joined: bool,
    names: Seq<String>,
    from: int,
    groups: Seq<(String, RawGroup)>,
    modules: Seq<(String, RawModule)>,
    w: WardrobeView,
    known: Known,
    highest: i32,
) -> Result<Seq<GroupView>, RefusalView>
    decreases names.len() - from,
{
    if from < 0 || from >= names.len() {
        Ok(Seq::empty())
    } else {
        match placed_group(side, joined, names[from]@, groups, modules, w, known, highest) {
            Err(e) => Err(e),
            Ok(group) => match placed_groups(
                side,
                joined,
                names,
                from + 1,
                groups,
                modules,
                w,
                known,
                highest,
            ) {
                Err(e) => Err(e),
                Ok(rest) => Ok(seq![group] + rest),
            },
        }
    }
}

spec fn grouped_so_far(done: Seq<GroupView>, rest: Result<Seq<GroupView>, RefusalView>) -> Result<
    Seq<GroupView>,
    RefusalView,
> {
    match rest {
        Ok(more) => Ok(done + more),
        Err(e) => Err(e),
    }
}

fn place_groups(
    side: &str,
    joined: bool,
    names: &Vec<String>,
    groups: &Vec<(String, RawGroup)>,
    modules: &Vec<(String, RawModule)>,
    w: &Wardrobe,
    known: &Known,
    highest: i32,
) -> (r: Result<Vec<Group>, Refusal>)
    ensures
        match r {
            Ok(v) => placed_groups(
                side@,
                joined,
                names@,
                0,
                groups@,
                modules@,
                w@,
                *known,
                highest,
            ) == Ok::<Seq<GroupView>, RefusalView>(groups_view(v@)),
            Err(e) => placed_groups(
                side@,
                joined,
                names@,
                0,
                groups@,
                modules@,
                w@,
                *known,
                highest,
            ) == Err::<Seq<GroupView>, RefusalView>(e@),
        },
{
    let mut out: Vec<Group> = Vec::new();
    let ghost none = Seq::<GroupView>::empty();
    assert(groups_view(out@) =~= none);
    proof {
        let rest = placed_groups(
            side@,
            joined,
            names@,
            0,
            groups@,
            modules@,
            w@,
            *known,
            highest,
        );
        if rest is Ok {
            assert(none + rest->Ok_0 =~= rest->Ok_0);
        }
    }
    for i in 0..names.len()
        invariant
            placed_groups(
                side@,
                joined,
                names@,
                0,
                groups@,
                modules@,
                w@,
                *known,
                highest,
            ) == grouped_so_far(
                groups_view(out@),
                placed_groups(
                    side@,
                    joined,
                    names@,
                    i as int,
                    groups@,
                    modules@,
                    w@,
                    *known,
                    highest,
                ),
            ),
    {
        let ghost before = groups_view(out@);
        let group = place_group(
            side,
            joined,
            names[i].as_str(),
            groups,
            modules,
            w,
            known,
            highest,
        )?;
        let ghost shown = group@;
        out.push(group);
        proof {
            assert(groups_view(out@) =~= before.push(shown));
            let rest = placed_groups(
                side@,
                joined,
                names@,
                i + 1,
                groups@,
                modules@,
                w@,
                *known,
                highest,
            );
            if rest is Ok {
                assert(before + (seq![shown] + rest->Ok_0) =~= before.push(shown) + rest->Ok_0);
            }
        }
    }
    assert(groups_view(out@) + Seq::<GroupView>::empty() =~= groups_view(out@));
    Ok(out)
}

/// One alignment as written, resolved.
#[verifier::opaque]
pub open spec fn position_of(
    side: Seq<char>,
    raw: RawPosition,
    groups: Seq<(String, RawGroup)>,
    modules: Seq<(String, RawModule)>,
    w: WardrobeView,
    known: Known,
    highest: i32,
) -> Result<PositionView, RefusalView> {
    match joint(raw.separator, w.palette) {
        Err(slip) => Err(refused(seq![side, "separator"@], slip)),
        Ok(separator) => match placed_groups(
            side,
            separator is Some,
            raw.groups@,
            0,
            groups,
            modules,
            w,
            known,
            highest,
        ) {
            Err(e) => Err(e),
            Ok(groups) => Ok(PositionView { groups, separator }),
        },
    }
}

fn resolve_position(
    side: &str,
    raw: &RawPosition,
    groups: &Vec<(String, RawGroup)>,
    modules: &Vec<(String, RawModule)>,
    w: &Wardrobe,
    known: &Known,
    highest: i32,
) -> (r: Result<Position, Refusal>)
    ensures
        told(r) == position_of(side@, *raw, groups@, modules@, w@, *known, highest),
{
    proof {
        reveal(position_of);
    }
    let separator = put(resolve_joint(&raw.separator, &w.palette), at2(side, "separator"))?;
    let groups = place_groups(
        side,
        separator.is_some(),
        &raw.groups,
        groups,
        modules,
        w,
        known,
        highest,
    )?;
    Ok(Position { groups, separator })
}

/// The modules of groups, in order.
pub open spec fn modules_of_groups(groups: Seq<GroupView>) -> Seq<ModuleView>
    decreases groups.len(),
{
    if groups.len() == 0 {
        Seq::empty()
    } else {
        modules_of_groups(groups.drop_last()) + groups.last().modules
    }
}

/// The modules of positions, in order.
pub open spec fn all_modules(positions: Seq<PositionView>) -> Seq<ModuleView>
    decreases positions.len(),
{
    if positions.len() == 0 {
        Seq::empty()
    } else {
        all_modules(positions.drop_last()) + modules_of_groups(positions.last().groups)
    }
}

proof fn lemma_commands_in(a: Seq<ModuleView>, b: Seq<ModuleView>)
    ensures
        commands_in(a + b) == commands_in(a) + commands_in(b),
    decreases b.len(),
{
    if b.len() == 0 {
        assert(a + b =~= a);
        assert(commands_in(a) + commands_in(b) =~= commands_in(a));
    } else {
        lemma_commands_in(a, b.drop_last());
        assert((a + b).drop_last() =~= a + b.drop_last());
        assert((a + b).last() == b.last());
        assert(commands_in(a + b) =~= commands_in(a) + commands_in(b));
    }
}

fn commands_of_groups(out: &mut Vec<(String, CommandSpec)>, groups: &Vec<Group>)
    ensures
        commands_view(final(out)@) == commands_view(old(out)@) + commands_in(
            modules_of_groups(groups_view(groups@)),
        ),
{
    let ghost start = commands_view(out@);
    let ghost all = groups_view(groups@);
    assert(all.take(0) =~= Seq::<GroupView>::empty());
    assert(start + commands_in(modules_of_groups(all.take(0))) =~= start);
    for i in 0..groups.len()
        invariant
            all == groups_view(groups@),
            commands_view(out@) == start + commands_in(modules_of_groups(all.take(i as int))),
    {
        list_commands(out, &groups[i].modules);
        proof {
            let more = all.take(i + 1);
            assert(more.drop_last() =~= all.take(i as int));
            assert(more.last() == groups@[i as int]@);
            lemma_commands_in(modules_of_groups(all.take(i as int)), more.last().modules);
            assert(commands_view(out@) =~= start + commands_in(modules_of_groups(more)));
        }
    }
    assert(all.take(all.len() as int) =~= all);
}

fn commands_of(positions: &Vec<Position>) -> (r: Vec<(String, CommandSpec)>)
    ensures
        commands_view(r@) == commands_in(all_modules(positions_view(positions@))),
{
    let mut out: Vec<(String, CommandSpec)> = Vec::new();
    let ghost all = positions_view(positions@);
    assert(all.take(0) =~= Seq::<PositionView>::empty());
    assert(commands_view(out@) =~= commands_in(all_modules(all.take(0))));
    for i in 0..positions.len()
        invariant
            all == positions_view(positions@),
            commands_view(out@) == commands_in(all_modules(all.take(i as int))),
    {
        commands_of_groups(&mut out, &positions[i].groups);
        proof {
            let more = all.take(i + 1);
            assert(more.drop_last() =~= all.take(i as int));
            assert(more.last() == positions@[i as int]@);
            lemma_commands_in(
                all_modules(all.take(i as int)),
                modules_of_groups(more.last().groups),
            );
        }
    }
    assert(all.take(all.len() as int) =~= all);
    out
}

/// A group whose modules have the fields their commands are run with.
pub open spec fn shared_group(
    commands: Seq<(Seq<char>, CommandView)>,
    g: GroupView,
) -> GroupView {
    GroupView { modules: shared_modules(commands, g.modules), ..g }
}

/// A position whose modules have the fields their commands are run with.
pub open spec fn shared_position(
    commands: Seq<(Seq<char>, CommandView)>,
    p: PositionView,
) -> PositionView {
    PositionView {
        groups: Seq::new(p.groups.len(), |i: int| shared_group(commands, p.groups[i])),
        ..p
    }
}

/// Positions whose modules have the fields their commands are run with.
pub open spec fn shared_positions(positions: Seq<PositionView>) -> Seq<PositionView> {
    let commands = commands_in(all_modules(positions));
    Seq::new(positions.len(), |i: int| shared_position(commands, positions[i]))
}

fn share_group(g: &mut Group, commands: &Vec<(String, CommandSpec)>)
    ensures
        final(g)@ == shared_group(commands_view(commands@), old(g)@),
{
    share_fields(&mut g.modules, commands);
}

fn share_position(p: &mut Position, commands: &Vec<(String, CommandSpec)>)
    ensures
        final(p)@ == shared_position(commands_view(commands@), old(p)@),
{
    let ghost start = groups_view(p.groups@);
    let ghost all = commands_view(commands@);
    let ghost separator = p.separator;
    let total: usize = p.groups.len();
    for i in 0..total
        invariant
            total == p.groups@.len(),
            total == start.len(),
            all == commands_view(commands@),
            p.separator == separator,
            forall|j: int| 0 <= j < i ==> (#[trigger] p.groups@[j])@ == shared_group(all, start[j]),
            forall|j: int| i <= j < total ==> (#[trigger] p.groups@[j])@ == start[j],
    {
        share_group(&mut p.groups[i], commands);
    }
    assert(p@ =~= shared_position(all, old(p)@));
}

/// Give every module built on one command the fields all of them declared.
pub fn share_command_fields(positions: &mut Vec<Position>) -> (r: Result<(), Refusal>)
    ensures
        match r {
            Ok(_) => {
                &&& sharing_trouble(
                    commands_in(all_modules(positions_view(old(positions)@))),
                    0,
                ) is None
                &&& positions_view(final(positions)@) == shared_positions(
                    positions_view(old(positions)@),
                )
            },
            Err(e) => {
                &&& sharing_trouble(
                    commands_in(all_modules(positions_view(old(positions)@))),
                    0,
                ) == Some(e@)
                &&& *final(positions) == *old(positions)
            },
        },
{
    let commands = commands_of(positions);
    check_sharing(&commands)?;
    let ghost start = positions_view(positions@);
    let ghost all = commands_view(commands@);
    let total: usize = positions.len();
    for i in 0..total
        invariant
            total == positions@.len(),
            total == start.len(),
            all == commands_view(commands@),
            forall|j: int|
                0 <= j < i ==> (#[trigger] positions@[j])@ == shared_position(all, start[j]),
            forall|j: int| i <= j < total ==> (#[trigger] positions@[j])@ == start[j],
    {
        share_position(&mut positions[i], &commands);
    }
    assert(positions_view(positions@) =~= shared_positions(start));
    Ok(())
}

/// How often a module's source is read.
pub open spec fn pace(m: ModuleView, which: WhichView) -> Duration {
    match m.interval {
        Some(d) => d,
        None => Duration { nanos: (default_seconds(which) * 1_000_000_000) as u128 },
    }
}

/// The shorter of two lengths of time.
pub open spec fn shorter(a: Duration, b: Duration) -> Duration {
    if a.nanos <= b.nanos {
        a
    } else {
        b
    }
}

/// Where a source stands among these, from `from` on.
pub open spec fn wanted_at(wanted: Seq<(WhichView, Duration)>, which: WhichView, from: int) -> Option<
    int,
>
    decreases wanted.len() - from,
{
    if from < 0 || from >= wanted.len() {
        None
    } else if key(wanted[from].0) == key(which) {
        Some(from)
    } else {
        wanted_at(wanted, which, from + 1)
    }
}

/// The sources these modules need, each at the shortest interval any of them asks for.
pub open spec fn wanted(modules: Seq<ModuleView>) -> Seq<(WhichView, Duration)>
    decreases modules.len(),
{
    if modules.len() == 0 {
        Seq::empty()
    } else {
        let before = wanted(modules.drop_last());
        match modules.last().source {
            SourceView::Native(which) => {
                let interval = pace(modules.last(), which);
                match wanted_at(before, which, 0) {
                    Some(at) => before.update(at, (before[at].0, shorter(before[at].1, interval))),
                    None => before.push((which, interval)),
                }
            },
            _ => before,
        }
    }
}

/// What a list of sources and intervals says.
pub open spec fn wanted_view(wanted: Seq<(Which, Duration)>) -> Seq<(WhichView, Duration)> {
    Seq::new(wanted.len(), |i: int| (wanted[i].0@, wanted[i].1))
}

proof fn lemma_wanted_at(wanted: Seq<(WhichView, Duration)>, which: WhichView, from: int)
    requires
        0 <= from <= wanted.len(),
    ensures
        match wanted_at(wanted, which, from) {
            Some(at) => from <= at < wanted.len() && key(wanted[at].0) == key(which),
            None => forall|i: int|
                from <= i < wanted.len() ==> key((#[trigger] wanted[i]).0) != key(which),
        },
    decreases wanted.len() - from,
{
    if from < wanted.len() && key(wanted[from].0) != key(which) {
        lemma_wanted_at(wanted, which, from + 1);
    }
}

fn find_wanted(wanted: &Vec<(Which, Duration)>, which: &Which) -> (r: Option<usize>)
    ensures
        match r {
            Some(at) => wanted_at(wanted_view(wanted@), which@, 0) == Some(at as int) && at
                < wanted@.len(),
            None => wanted_at(wanted_view(wanted@), which@, 0) is None,
        },
{
    let ghost all = wanted_view(wanted@);
    for i in 0..wanted.len()
        invariant
            all == wanted_view(wanted@),
            wanted_at(all, which@, 0) == wanted_at(all, which@, i as int),
    {
        assert(all[i as int] == (wanted@[i as int].0@, wanted@[i as int].1));
        if wanted[i].0.same(which) {
            return Some(i);
        }
    }
    None
}

/// What references to modules say.
pub open spec fn refs_view(modules: Seq<&Module>) -> Seq<ModuleView> {
    Seq::new(modules.len(), |i: int| modules[i]@)
}

/// The kinds of source a bar has to start something for.
#[derive(Clone, Copy, Debug, PartialEq, Eq, Structural)]
pub enum Need {
    Tray,
    Language,
    Mode,
    Windows,
    Workspaces,
}

/// Whether a source is of a kind.
pub open spec fn is_of(source: SourceView, need: Need) -> bool {
    match need {
        Need::Tray => source is Tray,
        Need::Language => source is SwayLanguage,
        Need::Mode => source is SwayMode,
        Need::Windows => source is SwayWindow,
        Need::Workspaces => source is SwayWorkspaces,
    }
}

/// Whether any of these modules has a source of a kind.
pub open spec fn needed(modules: Seq<ModuleView>, need: Need) -> bool {
    exists|i: int| 0 <= i < modules.len() && is_of((#[trigger] modules[i]).source, need)
}

/// Whether a group shows a block of the provider's.
pub open spec fn shows_blocks(g: GroupView) -> bool {
    g.wildcard || exists|i: int|
        0 <= i < g.modules.len() && (#[trigger] g.modules[i]).source is Provider
}

/// Whether a position shows a block of the provider's.
pub open spec fn position_shows_blocks(p: PositionView) -> bool {
    exists|i: int| 0 <= i < p.groups.len() && shows_blocks(#[trigger] p.groups[i])
}

/// Whether anything in these positions comes from an external status provider.
pub open spec fn provider_needed(positions: Seq<PositionView>) -> bool {
    exists|i: int| 0 <= i < positions.len() && position_shows_blocks(#[trigger] positions[i])
}

/// How many of the first `upto` sources run a program.
pub open spec fn programs_among(wanted: Seq<(WhichView, Duration)>, upto: int) -> nat
    decreases upto,
{
    if upto <= 0 || upto > wanted.len() {
        0
    } else {
        programs_among(wanted, upto - 1) + if wanted[upto - 1].0 is Command {
            1nat
        } else {
            0
        }
    }
}

/// How many programs a configuration runs at once: one for each command, however many modules
/// show it, and the provider where there is one.
pub open spec fn programs(positions: Seq<PositionView>) -> nat {
    let sources = wanted(all_modules(positions));
    programs_among(sources, sources.len() as int) + if provider_needed(positions) {
        1nat
    } else {
        0
    }
}

fn group_shows_blocks(g: &Group) -> (r: bool)
    ensures
        r == shows_blocks(g@),
{
    if g.wildcard {
        return true;
    }
    let ghost all = g@.modules;
    for i in 0..g.modules.len()
        invariant
            all == modules_view(g.modules@),
            forall|j: int| 0 <= j < i ==> !((#[trigger] all[j]).source is Provider),
    {
        assert(all[i as int] == g.modules@[i as int]@);
        if let Source::Provider = &g.modules[i].source {
            return true;
        }
    }
    false
}

fn position_blocks(p: &Position) -> (r: bool)
    ensures
        r == position_shows_blocks(p@),
{
    let ghost all = p@.groups;
    for i in 0..p.groups.len()
        invariant
            all == groups_view(p.groups@),
            all == p@.groups,
            forall|j: int| 0 <= j < i ==> !shows_blocks(#[trigger] all[j]),
    {
        assert(all[i as int] == p.groups@[i as int]@);
        if group_shows_blocks(&p.groups[i]) {
            return true;
        }
    }
    false
}

/// The sources a signal asks for, and those asked for by the others.
pub open spec fn signalled(modules: Seq<ModuleView>) -> Seq<(i32, Seq<WhichView>)>
    decreases modules.len(),
{
    if modules.len() == 0 {
        Seq::empty()
    } else {
        let before = signalled(modules.drop_last());
        match (modules.last().signal, modules.last().source) {
            (Some(offset), SourceView::Native(which)) => match offset_at(before, offset, 0) {
                Some(at) => before.update(at, (offset, with_source(before[at].1, which))),
                None => before.push((offset, seq![which])),
            },
            _ => before,
        }
    }
}

/// Where an offset stands among these, from `from` on.
pub open spec fn offset_at(signals: Seq<(i32, Seq<WhichView>)>, offset: i32, from: int) -> Option<
    int,
>
    decreases signals.len() - from,
{
    if from < 0 || from >= signals.len() {
        None
    } else if signals[from].0 == offset {
        Some(from)
    } else {
        offset_at(signals, offset, from + 1)
    }
}

/// Whether a source is among these.
pub open spec fn has_source(sources: Seq<WhichView>, which: WhichView) -> bool {
    exists|i: int| 0 <= i < sources.len() && key(#[trigger] sources[i]) == key(which)
}

/// These sources and another, which is not added twice.
pub open spec fn with_source(sources: Seq<WhichView>, which: WhichView) -> Seq<WhichView> {
    if has_source(sources, which) {
        sources
    } else {
        sources.push(which)
    }
}

/// The sources of these modules that something can ask to be read again.
pub open spec fn askable(modules: Seq<ModuleView>) -> Seq<WhichView>
    decreases modules.len(),
{
    if modules.len() == 0 {
        Seq::empty()
    } else {
        let before = askable(modules.drop_last());
        let m = modules.last();
        match m.source {
            SourceView::Native(which) => if m.signal is Some || m.refresh_button is Some {
                with_source(before, which)
            } else {
                before
            },
            _ => before,
        }
    }
}

/// What a list of sources says.
pub open spec fn sources_view(sources: Seq<Which>) -> Seq<WhichView> {
    Seq::new(sources.len(), |i: int| sources[i]@)
}

/// What a list of signals and their sources says.
pub open spec fn signals_view(signals: Seq<(i32, Vec<Which>)>) -> Seq<(i32, Seq<WhichView>)> {
    Seq::new(signals.len(), |i: int| (signals[i].0, sources_view(signals[i].1@)))
}

fn add_source(sources: &mut Vec<Which>, which: &Which)
    ensures
        sources_view(final(sources)@) == with_source(sources_view(old(sources)@), which@),
{
    let ghost all = sources_view(sources@);
    for i in 0..sources.len()
        invariant
            *sources == *old(sources),
            all == sources_view(sources@),
            forall|j: int| 0 <= j < i ==> key(#[trigger] all[j]) != key(which@),
    {
        assert(all[i as int] == sources@[i as int]@);
        if sources[i].same(which) {
            return;
        }
    }
    sources.push(which.copy());
    assert(sources_view(sources@) =~= all.push(which@));
}

fn find_offset(signals: &Vec<(i32, Vec<Which>)>, offset: i32) -> (r: Option<usize>)
    ensures
        match r {
            Some(at) => offset_at(signals_view(signals@), offset, 0) == Some(at as int) && at
                < signals@.len(),
            None => offset_at(signals_view(signals@), offset, 0) is None,
        },
{
    let ghost all = signals_view(signals@);
    for i in 0..signals.len()
        invariant
            all == signals_view(signals@),
            offset_at(all, offset, 0) == offset_at(all, offset, i as int),
    {
        assert(all[i as int] == (signals@[i as int].0, sources_view(signals@[i as int].1@)));
        if signals[i].0 == offset {
            return Some(i);
        }
    }
    None
}

proof fn lemma_offset_at(signals: Seq<(i32, Seq<WhichView>)>, offset: i32, from: int)
    requires
        0 <= from <= signals.len(),
    ensures
        match offset_at(signals, offset, from) {
            Some(at) => from <= at < signals.len() && signals[at].0 == offset,
            None => forall|i: int| from <= i < signals.len() ==> (#[trigger] signals[i]).0
                != offset,
        },
    decreases signals.len() - from,
{
    if from < signals.len() && signals[from].0 != offset {
        lemma_offset_at(signals, offset, from + 1);
    }
}

impl Config {
    fn modules_of<'a>(out: &mut Vec<&'a Module>, groups: &'a Vec<Group>)
        ensures
            refs_view(final(out)@) == refs_view(old(out)@) + modules_of_groups(
                groups_view(groups@),
            ),
    {
        let ghost start = refs_view(out@);
        let ghost all = groups_view(groups@);
        assert(all.take(0) =~= Seq::<GroupView>::empty());
        assert(start + modules_of_groups(all.take(0)) =~= start);
        for i in 0..groups.len()
            invariant
                all == groups_view(groups@),
                refs_view(out@) == start + modules_of_groups(all.take(i as int)),
        {
            let ghost before = refs_view(out@);
            let modules = &groups[i].modules;
            let ghost here = modules_view(modules@);
            assert(before + here.take(0) =~= before);
            for j in 0..modules.len()
                invariant
                    here == modules_view(modules@),
                    refs_view(out@) == before + here.take(j as int),
            {
                let ghost so_far = refs_view(out@);
                out.push(&modules[j]);
                assert(refs_view(out@) =~= so_far.push(here[j as int]));
                assert(before + here.take(j + 1) =~= so_far.push(here[j as int]));
            }
            proof {
                assert(here.take(here.len() as int) =~= here);
                let more = all.take(i + 1);
                assert(more.drop_last() =~= all.take(i as int));
                assert(more.last() == groups@[i as int]@);
                assert(start + (modules_of_groups(all.take(i as int)) + here) =~= start
                    + modules_of_groups(all.take(i as int)) + here);
            }
        }
        assert(all.take(all.len() as int) =~= all);
    }

    /// Every module in the configuration, wherever it sits.
    pub fn modules(&self) -> (r: Vec<&Module>)
        ensures
            refs_view(r@) == all_modules(self@.positions),
    {
        let mut out: Vec<&Module> = Vec::new();
        let ghost all = self@.positions;
        assert(all.take(0) =~= Seq::<PositionView>::empty());
        assert(refs_view(out@) =~= all_modules(all.take(0)));
        for i in 0..self.positions.len()
            invariant
                all == positions_view(self.positions@),
                refs_view(out@) == all_modules(all.take(i as int)),
        {
            Config::modules_of(&mut out, &self.positions[i].groups);
            proof {
                let more = all.take(i + 1);
                assert(more.drop_last() =~= all.take(i as int));
                assert(more.last() == self.positions@[i as int]@);
            }
        }
        assert(all.take(all.len() as int) =~= all);
        out
    }

    /// The collectors this configuration needs, each at the shortest interval any module asked
    /// it for. Two modules showing the same thing are read once.
    pub fn collectors(&self) -> (r: Vec<(Which, Duration)>)
        ensures
            wanted_view(r@) == wanted(all_modules(self@.positions)),
            asked_once(r@),
    {
        let modules = self.modules();
        let ghost all = all_modules(self@.positions);
        let mut out: Vec<(Which, Duration)> = Vec::new();
        assert(all.take(0) =~= Seq::<ModuleView>::empty());
        assert(wanted_view(out@) =~= wanted(all.take(0)));
        for i in 0..modules.len()
            invariant
                all == refs_view(modules@),
                wanted_view(out@) == wanted(all.take(i as int)),
        {
            let ghost before = wanted_view(out@);
            let module: &Module = modules[i];
            proof {
                assert(all.take(i + 1).drop_last() =~= all.take(i as int));
                assert(all.take(i + 1).last() == module@);
            }
            if let Source::Native(which) = &module.source {
                let interval = match module.interval {
                    Some(d) => d,
                    None => which.default_interval(),
                };
                match find_wanted(&out, which) {
                    Some(at) => {
                        assert(before[at as int] == (out@[at as int].0@, out@[at as int].1));
                        let least = out[at].1.shorter(interval);
                        let name = out[at].0.copy();
                        out.set(at, (name, least));
                        assert(wanted_view(out@) =~= before.update(
                            at as int,
                            (before[at as int].0, shorter(before[at as int].1, interval)),
                        ));
                    },
                    None => {
                        out.push((which.copy(), interval));
                        assert(wanted_view(out@) =~= before.push((which@, interval)));
                    },
                }
            }
        }
        proof {
            assert(all.take(all.len() as int) =~= all);
            law_a_source_is_wanted_once(all);
            let listed = wanted(all);
            assert forall|i: int, j: int| 0 <= i < j < out@.len() implies key(
                (#[trigger] out@[i]).0@,
            ) != key((#[trigger] out@[j]).0@) by {
                assert(listed[i].0 == out@[i].0@ && listed[j].0 == out@[j].0@);
            }
        }
        out
    }

    /// Which sources each realtime signal reads again, by offset from SIGRTMIN.
    ///
    /// One signal may refresh several sources, and several modules may share one signal; what
    /// is refreshed is the source behind them, since that is what does the reading.
    pub fn signals(&self) -> (r: Vec<(i32, Vec<Which>)>)
        ensures
            signals_view(r@) == signalled(all_modules(self@.positions)),
    {
        let modules = self.modules();
        let ghost all = all_modules(self@.positions);
        let mut out: Vec<(i32, Vec<Which>)> = Vec::new();
        assert(all.take(0) =~= Seq::<ModuleView>::empty());
        assert(signals_view(out@) =~= signalled(all.take(0)));
        for i in 0..modules.len()
            invariant
                all == refs_view(modules@),
                signals_view(out@) == signalled(all.take(i as int)),
        {
            let ghost before = signals_view(out@);
            let module: &Module = modules[i];
            proof {
                assert(all.take(i + 1).drop_last() =~= all.take(i as int));
                assert(all.take(i + 1).last() == module@);
            }
            if let Some(offset) = module.signal {
                if let Source::Native(which) = &module.source {
                    match find_offset(&out, offset) {
                        Some(at) => {
                            proof {
                                lemma_offset_at(before, offset, 0);
                                assert(before[at as int] == (
                                    out@[at as int].0,
                                    sources_view(out@[at as int].1@),
                                ));
                            }
                            add_source(&mut out[at].1, which);
                            assert(signals_view(out@) =~= before.update(
                                at as int,
                                (offset, with_source(before[at as int].1, which@)),
                            ));
                        },
                        None => {
                            let sources = vec![which.copy()];
                            assert(sources_view(sources@) =~= seq![which@]);
                            out.push((offset, sources));
                            assert(signals_view(out@) =~= before.push((offset, seq![which@])));
                        },
                    }
                }
            }
        }
        assert(all.take(all.len() as int) =~= all);
        out
    }

    /// The sources something in this configuration can ask to be read again.
    ///
    /// A command whose module has neither a signal nor a button for it is never asked, and
    /// then a command that answers once is done when it has answered.
    pub fn refreshable(&self) -> (r: Vec<Which>)
        ensures
            sources_view(r@) == askable(all_modules(self@.positions)),
    {
        let modules = self.modules();
        let ghost all = all_modules(self@.positions);
        let mut out: Vec<Which> = Vec::new();
        assert(all.take(0) =~= Seq::<ModuleView>::empty());
        assert(sources_view(out@) =~= askable(all.take(0)));
        for i in 0..modules.len()
            invariant
                all == refs_view(modules@),
                sources_view(out@) == askable(all.take(i as int)),
        {
            let module: &Module = modules[i];
            proof {
                assert(all.take(i + 1).drop_last() =~= all.take(i as int));
                assert(all.take(i + 1).last() == module@);
            }
            if let Source::Native(which) = &module.source {
                if module.signal.is_some() || module.refresh_button.is_some() {
                    add_source(&mut out, which);
                }
            }
        }
        assert(all.take(all.len() as int) =~= all);
        out
    }

    fn needs(&self, need: Need) -> (r: bool)
        ensures
            r == needed(all_modules(self@.positions), need),
    {
        let modules = self.modules();
        let ghost all = all_modules(self@.positions);
        for i in 0..modules.len()
            invariant
                all == refs_view(modules@),
                all == all_modules(self@.positions),
                forall|j: int| 0 <= j < i ==> !is_of((#[trigger] all[j]).source, need),
        {
            let module: &Module = modules[i];
            assert(all[i as int] == module@);
            let found = match (&module.source, need) {
                (Source::Tray(_), Need::Tray) => true,
                (Source::SwayLanguage(_), Need::Language) => true,
                (Source::SwayMode, Need::Mode) => true,
                (Source::SwayWindow(_), Need::Windows) => true,
                (Source::SwayWorkspaces(_), Need::Workspaces) => true,
                _ => false,
            };
            if found {
                return true;
            }
        }
        false
    }

    /// Whether anything on the bar shows the system tray.
    pub fn needs_tray(&self) -> (r: bool)
        ensures
            r == needed(all_modules(self@.positions), Need::Tray),
    {
        self.needs(Need::Tray)
    }

    /// Whether anything on the bar shows the keyboard layout.
    pub fn needs_language(&self) -> (r: bool)
        ensures
            r == needed(all_modules(self@.positions), Need::Language),
    {
        self.needs(Need::Language)
    }

    /// Whether anything on the bar draws the compositor's binding mode.
    pub fn needs_mode(&self) -> (r: bool)
        ensures
            r == needed(all_modules(self@.positions), Need::Mode),
    {
        self.needs(Need::Mode)
    }

    /// Whether anything on the bar draws the focused window.
    pub fn needs_windows(&self) -> (r: bool)
        ensures
            r == needed(all_modules(self@.positions), Need::Windows),
    {
        self.needs(Need::Windows)
    }

    /// Whether anything on the bar draws the workspace list.
    pub fn needs_workspaces(&self) -> (r: bool)
        ensures
            r == needed(all_modules(self@.positions), Need::Workspaces),
    {
        self.needs(Need::Workspaces)
    }

    /// Whether anything in this configuration comes from an external status provider.
    ///
    /// Nothing does on a native configuration, and then there is no child process to run.
    pub fn needs_provider(&self) -> (r: bool)
        ensures
            r == provider_needed(self@.positions),
    {
        let ghost all = self@.positions;
        for i in 0..self.positions.len()
            invariant
                all == positions_view(self.positions@),
                forall|j: int| 0 <= j < i ==> !position_shows_blocks(#[trigger] all[j]),
        {
            assert(all[i as int] == self.positions@[i as int]@);
            if position_blocks(&self.positions[i]) {
                return true;
            }
        }
        false
    }

    /// How many programs this configuration runs at once.
    pub fn how_many_programs(&self) -> (n: u128)
        ensures
            n == programs(self@.positions),
    {
        let sources = self.collectors();
        let ghost all = wanted_view(sources@);
        let mut n: u128 = 0;
        for i in 0..sources.len()
            invariant
                all == wanted_view(sources@),
                n == programs_among(all, i as int),
                n <= i,
        {
            assert(all[i as int] == (sources@[i as int].0@, sources@[i as int].1));
            if let Which::Command(_) = &sources[i].0 {
                n = n + 1;
            }
        }
        if self.needs_provider() {
            n = n + 1;
        }
        n
    }
}

/// Three positions, or the first that is refused.
pub open spec fn three(
    left: Result<PositionView, RefusalView>,
    center: Result<PositionView, RefusalView>,
    right: Result<PositionView, RefusalView>,
) -> Result<Seq<PositionView>, RefusalView> {
    if left is Err {
        Err(left->Err_0)
    } else if center is Err {
        Err(center->Err_0)
    } else if right is Err {
        Err(right->Err_0)
    } else {
        Ok(seq![left->Ok_0, center->Ok_0, right->Ok_0])
    }
}

/// The three positions of a configuration.
#[verifier::opaque]
pub open spec fn positions_of(raw: RawConfig, w: WardrobeView, known: Known, highest: i32) -> Result<
    Seq<PositionView>,
    RefusalView,
> {
    let groups = raw.groups@;
    let modules = raw.modules@;
    three(
        position_of("left"@, raw.left, groups, modules, w, known, highest),
        position_of("center"@, raw.center, groups, modules, w, known, highest),
        position_of("right"@, raw.right, groups, modules, w, known, highest),
    )
}

fn resolve_positions(raw: &RawConfig, w: &Wardrobe, known: &Known, highest: i32) -> (r: Result<
    Vec<Position>,
    Refusal,
>)
    ensures
        match r {
            Ok(v) => positions_of(*raw, w@, *known, highest) == Ok::<
                Seq<PositionView>,
                RefusalView,
            >(positions_view(v@)),
            Err(e) => positions_of(*raw, w@, *known, highest) == Err::<
                Seq<PositionView>,
                RefusalView,
            >(e@),
        },
{
    proof {
        reveal(positions_of);
    }
    let left = resolve_position("left", &raw.left, raw.groups.entries(), raw.modules.entries(), w, known, highest)?;
    let center = resolve_position(
        "center",
        &raw.center,
        raw.groups.entries(),
        raw.modules.entries(),
        w,
        known,
        highest,
    )?;
    let right = resolve_position(
        "right",
        &raw.right,
        raw.groups.entries(),
        raw.modules.entries(),
        w,
        known,
        highest,
    )?;
    let ghost shown = seq![left@, center@, right@];
    let out = vec![left, center, right];
    assert(positions_view(out@) =~= shown);
    Ok(out)
}

/// A configuration as written, resolved. `highest` is the last realtime signal there is above
/// SIGRTMIN.
///
/// Everything that can be wrong with one is found here, in this order: the named colors, the
/// bar, the named styles, the three positions and what is in them, the menu, what modules that
/// share a command disagree about, and how many programs there would be to stop.
pub open spec fn config_of(raw: RawConfig, known: Known, highest: i32) -> Result<
    ConfigView,
    RefusalView,
> {
    match palette_of(raw.colors@, 0) {
        Err(e) => Err(e),
        Ok(palette) => match bar_of(raw.bar, palette, known) {
            Err(e) => Err(e),
            Ok(bar) => {
                let start = base(bar.icon_size);
                match styles_of(raw.styles@, 0, start, palette, known.icons@) {
                    Err(e) => Err(e),
                    Ok(styles) => {
                        let w = WardrobeView { palette, tables: raw.styles@, styles, base: start };
                        match positions_of(raw, w, known, highest) {
                            Err(e) => Err(e),
                            Ok(positions) => completed(raw, bar, start, palette, positions),
                        }
                    },
                }
            },
        },
    }
}

/// A configuration, once its positions are resolved.
pub open spec fn completed(
    raw: RawConfig,
    bar: BarView,
    start: StyleView,
    palette: Seq<(Seq<char>, Color)>,
    positions: Seq<PositionView>,
) -> Result<ConfigView, RefusalView> {
    match menu_of(raw.menu, bar.background, start, palette) {
        Err(slip) => Err(refused(Seq::empty(), slip)),
        Ok(menu) => match sharing_trouble(commands_in(all_modules(positions)), 0) {
            Some(e) => Err(e),
            None => {
                let shared = shared_positions(positions);
                if programs(shared) > AT_ONCE {
                    Err(
                        refused(
                            Seq::empty(),
                            plainly(Why::TooManyPrograms(programs(shared) as u64)),
                        ),
                    )
                } else {
                    Ok(
                        ConfigView {
                            bar,
                            menu,
                            i3bar: I3BarView {
                                command: raw.i3bar.command@,
                                args: texts(raw.i3bar.args@),
                                names: texts(raw.i3bar.names@),
                            },
                            positions: shared,
                        },
                    )
                }
            },
        },
    }
}

fn complete(
    raw: &RawConfig,
    bar: Bar,
    start: &Style,
    palette: &Palette,
    positions: Vec<Position>,
) -> (r: Result<Config, Refusal>)
    ensures
        told(r) == completed(*raw, bar@, start@, palette@, positions_view(positions@)),
{
    let menu = resolve_menu(&raw.menu, bar.background, start, palette)?;
    let mut positions = positions;
    share_command_fields(&mut positions)?;
    let config = Config {
        bar,
        menu,
        i3bar: I3Bar {
            command: raw.i3bar.command.clone(),
            args: copy_texts(&raw.i3bar.args),
            names: copy_texts(&raw.i3bar.names),
        },
        positions,
    };
    let n = config.how_many_programs();
    if n > AT_ONCE as u128 {
        return Err(Refusal::new(at0(), Slip::plainly(Why::TooManyPrograms(n as u64))));
    }
    Ok(config)
}

/// `libc::SIGRTMAX`: the number of the last realtime signal, which the C library of the
/// machine decides. Nothing is claimed of it.
#[verifier::external_body]
fn last_signal() -> (n: i32) {
    libc::SIGRTMAX()
}

/// `libc::SIGRTMIN`: the number of the first realtime signal a program may use, which the C
/// library of the machine decides. Nothing is claimed of it.
#[verifier::external_body]
fn first_signal() -> (n: i32) {
    libc::SIGRTMIN()
}

/// How many numbers there are above `first` up to `last`.
pub open spec fn span(first: int, last: int) -> int {
    if last <= first {
        0
    } else if last - first > i32::MAX {
        i32::MAX as int
    } else {
        last - first
    }
}

/// How many signals there are above the first realtime one, given the first and the last.
pub fn signals_between(first: i32, last: i32) -> (n: i32)
    ensures
        n == span(first as int, last as int),
{
    let far: i64 = last as i64 - first as i64;
    if far <= 0 {
        0
    } else if far > i32::MAX as i64 {
        i32::MAX
    } else {
        far as i32
    }
}

/// How many realtime signals this system has above SIGRTMIN.
///
/// The range is decided by the C library rather than fixed, because the first few are reserved
/// for the threading implementation.
pub fn signal_range() -> (n: i32)
    ensures
        n >= 0,
{
    signals_between(first_signal(), last_signal())
}

impl Config {
    /// Resolve a configuration for a system with this many realtime signals above SIGRTMIN.
    pub fn resolve_for(raw: &RawConfig, known: &Known, highest: i32) -> (r: Result<Config, Refusal>)
        ensures
            told(r) == config_of(*raw, *known, highest),
    {
        let palette = Palette::new(&raw.colors)?;
        let bar = resolve_bar(&raw.bar, &palette, known)?;
        let start = Style::base(bar.icon_size);
        let styles = resolve_styles(&raw.styles, &start, &palette, &known.icons)?;
        let w = Wardrobe { palette, tables: &raw.styles, styles, base: start };
        let positions = resolve_positions(raw, &w, known, highest)?;
        complete(raw, bar, &w.base, &w.palette, positions)
    }

    /// Resolve a configuration for this system.
    pub fn resolve(raw: &RawConfig, known: &Known) -> (r: Result<Config, Refusal>)
        ensures
            exists|highest: i32| highest >= 0 && told(r) == #[trigger] config_of(
                *raw,
                *known,
                highest,
            ),
    {
        let highest = signal_range();
        Config::resolve_for(raw, known, highest)
    }
}

proof fn lemma_groups_anywhere(
    side: Seq<char>,
    joined: bool,
    names: Seq<String>,
    from: int,
    groups: Seq<(String, RawGroup)>,
    modules: Seq<(String, RawModule)>,
    w: WardrobeView,
    known: Known,
    a: i32,
    b: i32,
)
    requires
        0 <= from <= names.len(),
        signals_within(modules, a),
        signals_within(modules, b),
    ensures
        placed_groups(side, joined, names, from, groups, modules, w, known, a) == placed_groups(
            side,
            joined,
            names,
            from,
            groups,
            modules,
            w,
            known,
            b,
        ),
    decreases names.len() - from,
{
    if from < names.len() {
        lemma_groups_anywhere(side, joined, names, from + 1, groups, modules, w, known, a, b);
        let name = names[from]@;
        assert(placed_group(side, joined, name, groups, modules, w, known, a) == placed_group(
            side,
            joined,
            name,
            groups,
            modules,
            w,
            known,
            b,
        )) by {
            reveal(placed_group);
            if let Some(g) = group_table(groups, name, 0) {
                lemma_group_anywhere(name, g, modules, w, known, a, b);
            }
        }
    }
}

proof fn lemma_position_anywhere(
    side: Seq<char>,
    raw: RawPosition,
    groups: Seq<(String, RawGroup)>,
    modules: Seq<(String, RawModule)>,
    w: WardrobeView,
    known: Known,
    a: i32,
    b: i32,
)
    requires
        signals_within(modules, a),
        signals_within(modules, b),
    ensures
        position_of(side, raw, groups, modules, w, known, a) == position_of(
            side,
            raw,
            groups,
            modules,
            w,
            known,
            b,
        ),
{
    reveal(position_of);
    if let Ok(separator) = joint(raw.separator, w.palette) {
        lemma_groups_anywhere(
            side,
            separator is Some,
            raw.groups@,
            0,
            groups,
            modules,
            w,
            known,
            a,
            b,
        );
    }
}

/// Only a signal depends on the system: a configuration whose modules write no signal, or only
/// signals that two systems both have, resolves to the same on both, and is refused on one for
/// what it is refused for on the other.
pub proof fn law_only_a_signal_depends_on_the_system(
    raw: RawConfig,
    known: Known,
    a: i32,
    b: i32,
)
    requires
        signals_within(raw.modules@, a),
        signals_within(raw.modules@, b),
    ensures
        config_of(raw, known, a) == config_of(raw, known, b),
{
    if let Ok(palette) = palette_of(raw.colors@, 0) {
        if let Ok(bar) = bar_of(raw.bar, palette, known) {
            let start = base(bar.icon_size);
            if let Ok(styles) = styles_of(raw.styles@, 0, start, palette, known.icons@) {
                let w = WardrobeView { palette, tables: raw.styles@, styles, base: start };
                let (groups, modules) = (raw.groups@, raw.modules@);
                reveal(positions_of);
                lemma_position_anywhere("left"@, raw.left, groups, modules, w, known, a, b);
                lemma_position_anywhere("center"@, raw.center, groups, modules, w, known, a, b);
                lemma_position_anywhere("right"@, raw.right, groups, modules, w, known, a, b);
            }
        }
    }
}

/// A configuration that was accepted runs no more programs than can be stopped.
pub proof fn law_accepted_programs_can_be_stopped(raw: RawConfig, known: Known, highest: i32)
    requires
        config_of(raw, known, highest) is Ok,
    ensures
        programs(config_of(raw, known, highest)->Ok_0.positions) <= AT_ONCE,
{
}

/// A source is read once however many modules show it: no two of the sources a configuration
/// needs are the same one.
pub proof fn law_a_source_is_wanted_once(modules: Seq<ModuleView>)
    ensures
        forall|i: int, j: int|
            0 <= i < j < wanted(modules).len() ==> key((#[trigger] wanted(modules)[i]).0) != key(
                (#[trigger] wanted(modules)[j]).0,
            ),
    decreases modules.len(),
{
    if modules.len() > 0 {
        let before = wanted(modules.drop_last());
        law_a_source_is_wanted_once(modules.drop_last());
        if let SourceView::Native(which) = modules.last().source {
            lemma_wanted_at(before, which, 0);
        }
    }
}

/// Whether no two of these are the same source.
pub open spec fn distinct(sources: Seq<WhichView>) -> bool {
    forall|i: int, j: int|
        0 <= i < j < sources.len() ==> key(#[trigger] sources[i]) != key(#[trigger] sources[j])
}

/// A signal is listed once, and so is every source it reads again.
pub proof fn law_a_signal_is_listed_once(modules: Seq<ModuleView>)
    ensures
        forall|i: int, j: int|
            0 <= i < j < signalled(modules).len() ==> (#[trigger] signalled(modules)[i]).0 != (
            #[trigger] signalled(modules)[j]).0,
        forall|i: int|
            0 <= i < signalled(modules).len() ==> distinct((#[trigger] signalled(modules)[i]).1),
    decreases modules.len(),
{
    if modules.len() > 0 {
        let before = signalled(modules.drop_last());
        law_a_signal_is_listed_once(modules.drop_last());
        if let (Some(offset), SourceView::Native(_)) = (
            modules.last().signal,
            modules.last().source,
        ) {
            lemma_offset_at(before, offset, 0);
        }
    }
}

/// A source that can be asked to be read again is listed once.
pub proof fn law_an_askable_source_is_listed_once(modules: Seq<ModuleView>)
    ensures
        distinct(askable(modules)),
    decreases modules.len(),
{
    if modules.len() > 0 {
        law_an_askable_source_is_listed_once(modules.drop_last());
    }
}

/// Whether a source is wanted at least this often.
pub open spec fn wanted_within(
    sources: Seq<(WhichView, Duration)>,
    which: WhichView,
    interval: Duration,
) -> bool {
    exists|k: int|
        0 <= k < sources.len() && key((#[trigger] sources[k]).0) == key(which)
            && sources[k].1.nanos <= interval.nanos
}

/// Whether a module asks for a source at exactly this interval.
pub open spec fn asked(modules: Seq<ModuleView>, which: WhichView, interval: Duration) -> bool {
    exists|i: int|
        0 <= i < modules.len() && ((#[trigger] modules[i]).source matches SourceView::Native(w)
            && key(w) == key(which) && pace(modules[i], w) == interval)
}

/// Nobody waits longer than they said: every native module's source is among those wanted, at
/// an interval no longer than the module's own, and every interval is one that some module
/// asked for.
pub proof fn law_the_shortest_interval_wins(modules: Seq<ModuleView>)
    ensures
        forall|i: int|
            0 <= i < modules.len() ==> ((#[trigger] modules[i]).source matches SourceView::Native(
                which,
            ) ==> wanted_within(wanted(modules), which, pace(modules[i], which))),
        forall|k: int|
            0 <= k < wanted(modules).len() ==> asked(
                modules,
                (#[trigger] wanted(modules)[k]).0,
                wanted(modules)[k].1,
            ),
    decreases modules.len(),
{
    if modules.len() > 0 {
        let shorter_list = modules.drop_last();
        let before = wanted(shorter_list);
        let after = wanted(modules);
        let last = modules.last();
        law_the_shortest_interval_wins(shorter_list);
        if let SourceView::Native(which) = last.source {
            lemma_wanted_at(before, which, 0);
            let interval = pace(last, which);
            match wanted_at(before, which, 0) {
                Some(at) => {
                    assert(key(after[at].0) == key(which) && after[at].1.nanos
                        <= interval.nanos);
                },
                None => {
                    assert(key(after[before.len() as int].0) == key(which));
                },
            }
            assert(wanted_within(after, which, interval));
        }
        assert forall|i: int| 0 <= i < modules.len() implies ((
        #[trigger] modules[i]).source matches SourceView::Native(which) ==> wanted_within(
            after,
            which,
            pace(modules[i], which),
        )) by {
            if i < modules.len() - 1 {
                assert(shorter_list[i] == modules[i]);
                if let SourceView::Native(which) = modules[i].source {
                    let k = choose|k: int|
                        0 <= k < before.len() && key((#[trigger] before[k]).0) == key(which)
                            && before[k].1.nanos <= pace(modules[i], which).nanos;
                    assert(key(after[k].0) == key(which) && after[k].1.nanos
                        <= before[k].1.nanos);
                }
            }
        }
        assert forall|k: int| 0 <= k < after.len() implies asked(
            modules,
            (#[trigger] after[k]).0,
            after[k].1,
        ) by {
            lemma_asked(modules, before, after, k);
        }
    }
}

proof fn lemma_asked(
    modules: Seq<ModuleView>,
    before: Seq<(WhichView, Duration)>,
    after: Seq<(WhichView, Duration)>,
    k: int,
)
    requires
        modules.len() > 0,
        before == wanted(modules.drop_last()),
        after == wanted(modules),
        0 <= k < after.len(),
        forall|k: int|
            0 <= k < before.len() ==> asked(
                modules.drop_last(),
                (#[trigger] before[k]).0,
                before[k].1,
            ),
    ensures
        asked(modules, after[k].0, after[k].1),
{
    let last = modules.last();
    if let SourceView::Native(which) = last.source {
        lemma_wanted_at(before, which, 0);
        let interval = pace(last, which);
        if key(after[k].0) == key(which) && after[k].1 == interval {
            assert(modules[modules.len() - 1] == last);
        } else {
            lemma_asked_before(modules, before, after, k);
        }
    } else {
        lemma_asked_before(modules, before, after, k);
    }
}

proof fn lemma_asked_before(
    modules: Seq<ModuleView>,
    before: Seq<(WhichView, Duration)>,
    after: Seq<(WhichView, Duration)>,
    k: int,
)
    requires
        modules.len() > 0,
        0 <= k < before.len(),
        k < after.len(),
        after[k] == before[k],
        asked(modules.drop_last(), before[k].0, before[k].1),
    ensures
        asked(modules, after[k].0, after[k].1),
{
    let i = choose|i: int|
        0 <= i < modules.drop_last().len() && ((
        #[trigger] modules.drop_last()[i]).source matches SourceView::Native(w) && key(w) == key(
            before[k].0,
        ) && pace(modules.drop_last()[i], w) == before[k].1);
    assert(modules[i] == modules.drop_last()[i]);
}

} // verus!
