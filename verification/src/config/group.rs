//! A group of modules: an island of the bar.

use crate::color::Color;
use crate::config::button::{Button, Job};
use crate::config::duration::{parse_duration, written_duration};
use crate::config::known::{Known, Wardrobe, WardrobeView};
use crate::config::module::{lemma_module_anywhere, buttons_claimed, claimant, claimed, collapsed_style, find_claimant};
use crate::config::module::{module_of, modules_view, plain_block, plain_module, provider_format};
use crate::config::module::{resolve_collapsed, resolve_module, Module, ModuleView};
use crate::config::module::LONGEST_ANIMATION;
use crate::config::raw::{Direction, EdgeShape, RawEdges, RawEnds, RawGroup, RawModule};
use crate::config::raw::{RawSeparator, SeparatorShape};
use crate::config::refusal::{about, at0, at2, at3, keyed, plainly, put, refused, told};
use crate::config::refusal::{table, Refusal, RefusalView, Slip, SlipView, Why};
use crate::config::style::{check_collapsed_icon, color_of, find_style, fold_trouble, named_style};
use crate::config::style::{Palette, Style, StyleView};
use crate::number::{Number, ONE, TEN, ZERO};
use crate::text::{owned, same};
use crate::time::Duration;
use vstd::prelude::*;

verus! {

/// Where a separator takes its color from.
#[derive(Clone, Copy, Debug, PartialEq, Eq, Structural)]
pub enum SeparatorColor {
    /// The background of the module before the separator.
    Previous,
    /// The background of the module after it.
    Next,
    /// The foreground of the module before it.
    Foreground,
    /// The group background.
    Background,
    Fixed(Color),
}

/// The transition between two modules, or between two groups.
#[derive(Clone, Copy, Debug, PartialEq, Eq, Structural)]
pub struct Separator {
    pub shape: SeparatorShape,
    /// Horizontal space the transition occupies between two modules.
    pub width: Number,
    pub direction: Direction,
    pub color: SeparatorColor,
    /// Bleed drawn past each side, to hide seams between antialiased edges.
    pub overlap: Number,
}

/// The separator of a group that does not write one.
pub open spec fn no_separator() -> Separator {
    Separator {
        shape: SeparatorShape::Nothing,
        width: Number { bits: TEN },
        direction: Direction::Right,
        color: SeparatorColor::Previous,
        overlap: Number { bits: ZERO },
    }
}

impl Default for Separator {
    fn default() -> (s: Separator)
        ensures
            s == no_separator(),
    {
        Separator {
            shape: SeparatorShape::Nothing,
            width: Number { bits: TEN },
            direction: Direction::Right,
            color: SeparatorColor::Previous,
            overlap: Number { bits: ZERO },
        }
    }
}

/// How a group's outer boundary meets the bar behind it.
///
/// A separator is a transition between two modules; this is the same transition between a
/// module and nothing.
#[derive(Clone, Copy, Debug, PartialEq, Eq, Structural)]
pub struct Ends {
    pub left: SeparatorShape,
    pub right: SeparatorShape,
    pub width: Number,
    pub overlap: Number,
    pub direction: Option<Direction>,
}

impl Ends {
    /// Space the left end needs beside the modules, which is none unless it is drawn.
    pub fn left_width(&self) -> (n: Number)
        ensures
            n == if self.left == SeparatorShape::Nothing {
                Number { bits: ZERO }
            } else {
                self.width
            },
    {
        if self.left == SeparatorShape::Nothing {
            Number { bits: ZERO }
        } else {
            self.width
        }
    }

    /// Space the right end needs beside the modules, which is none unless it is drawn.
    pub fn right_width(&self) -> (n: Number)
        ensures
            n == if self.right == SeparatorShape::Nothing {
                Number { bits: ZERO }
            } else {
                self.width
            },
    {
        if self.right == SeparatorShape::Nothing {
            Number { bits: ZERO }
        } else {
            self.width
        }
    }
}

/// How a group's corners are drawn.
#[derive(Clone, Copy, Debug, PartialEq, Eq, Structural)]
pub struct Edges {
    pub left: EdgeShape,
    pub right: EdgeShape,
    pub radius: Number,
}

/// What folding a whole group does.
#[derive(Debug)]
pub struct GroupCollapse {
    pub button: Button,
    pub style: Style,
    /// How long the island takes to reach its other width, if it travels at all.
    pub animation: Option<Duration>,
}

/// What a `GroupCollapse` says.
#[verifier::ext_equal]
pub struct GroupFoldView {
    pub button: Button,
    pub style: StyleView,
    pub animation: Option<Duration>,
}

impl View for GroupCollapse {
    type V = GroupFoldView;

    open spec fn view(&self) -> GroupFoldView {
        GroupFoldView { button: self.button, style: self.style@, animation: self.animation }
    }
}

/// One island of the bar.
#[derive(Debug)]
pub struct Group {
    pub name: String,
    pub collapse: Option<GroupCollapse>,
    pub background: Color,
    /// How much of the finished island reaches the screen, from nothing to all of it.
    pub opacity: Number,
    pub padding: Number,
    pub spacing: Number,
    pub separator: Separator,
    pub edges: Edges,
    pub ends: Ends,
    /// Whether the group takes every block the provider emits.
    pub wildcard: bool,
    pub modules: Vec<Module>,
}

/// What a `Group` says.
#[verifier::ext_equal]
pub struct GroupView {
    pub name: Seq<char>,
    pub collapse: Option<GroupFoldView>,
    pub background: Color,
    pub opacity: Number,
    pub padding: Number,
    pub spacing: Number,
    pub separator: Separator,
    pub edges: Edges,
    pub ends: Ends,
    pub wildcard: bool,
    pub modules: Seq<ModuleView>,
}

/// What a fold that may be missing says.
pub open spec fn group_fold_view(fold: Option<GroupCollapse>) -> Option<GroupFoldView> {
    match fold {
        Some(f) => Some(f@),
        None => None,
    }
}

impl View for Group {
    type V = GroupView;

    open spec fn view(&self) -> GroupView {
        GroupView {
            name: self.name@,
            collapse: group_fold_view(self.collapse),
            background: self.background,
            opacity: self.opacity,
            padding: self.padding,
            spacing: self.spacing,
            separator: self.separator,
            edges: self.edges,
            ends: self.ends,
            wildcard: self.wildcard,
            modules: modules_view(self.modules@),
        }
    }
}

/// What a list of groups says.
pub open spec fn groups_view(groups: Seq<Group>) -> Seq<GroupView> {
    Seq::new(groups.len(), |i: int| groups[i]@)
}

/// Where a separator takes its color from, as written: one of four words, or a color.
pub open spec fn written_separator_color(
    spec: Seq<char>,
    palette: Seq<(Seq<char>, Color)>,
) -> Result<SeparatorColor, SlipView> {
    if spec == "previous"@ {
        Ok(SeparatorColor::Previous)
    } else if spec == "next"@ {
        Ok(SeparatorColor::Next)
    } else if spec == "foreground"@ {
        Ok(SeparatorColor::Foreground)
    } else if spec == "background"@ {
        Ok(SeparatorColor::Background)
    } else {
        match color_of(spec, palette) {
            Ok(c) => Ok(SeparatorColor::Fixed(c)),
            Err(slip) => Err(slip),
        }
    }
}

/// A separator as written. Neither its width nor its overlap goes below zero.
pub open spec fn separator_of(raw: RawSeparator, palette: Seq<(Seq<char>, Color)>) -> Result<
    Separator,
    SlipView,
> {
    match written_separator_color(raw.color@, palette) {
        Err(slip) => Err(slip),
        Ok(color) => Ok(
            Separator {
                shape: raw.shape,
                width: raw.width.larger(Number { bits: ZERO }),
                direction: raw.direction,
                color,
                overlap: raw.overlap.larger(Number { bits: ZERO }),
            },
        ),
    }
}

fn parse_separator_color(spec: &str, palette: &Palette) -> (r: Result<SeparatorColor, Slip>)
    ensures
        match r {
            Ok(c) => written_separator_color(spec@, palette@) == Ok::<SeparatorColor, SlipView>(c),
            Err(slip) => written_separator_color(spec@, palette@) == Err::<
                SeparatorColor,
                SlipView,
            >(slip@),
        },
{
    if same(spec, "previous") {
        Ok(SeparatorColor::Previous)
    } else if same(spec, "next") {
        Ok(SeparatorColor::Next)
    } else if same(spec, "foreground") {
        Ok(SeparatorColor::Foreground)
    } else if same(spec, "background") {
        Ok(SeparatorColor::Background)
    } else {
        let c = palette.get(spec)?;
        Ok(SeparatorColor::Fixed(c))
    }
}

pub fn resolve_separator(raw: &RawSeparator, palette: &Palette) -> (r: Result<Separator, Slip>)
    ensures
        match r {
            Ok(s) => separator_of(*raw, palette@) == Ok::<Separator, SlipView>(s),
            Err(slip) => separator_of(*raw, palette@) == Err::<Separator, SlipView>(slip@),
        },
{
    let color = parse_separator_color(raw.color.as_str(), palette)?;
    let zero = Number { bits: ZERO };
    Ok(
        Separator {
            shape: raw.shape,
            width: raw.width.max(zero),
            direction: raw.direction,
            color,
            overlap: raw.overlap.max(zero),
        },
    )
}

/// How a group folds, for one the configuration lets fold.
pub open spec fn group_fold_of(name: Seq<char>, g: RawGroup, w: WardrobeView, known: Known) -> Result<
    Option<GroupFoldView>,
    RefusalView,
> {
    let here = seq!["group"@, name];
    let table = seq!["group"@, name, "collapsed"@];
    match collapsed_style(g.collapsed, w.base, w, known) {
        Err(slip) => Err(refused(table, slip)),
        Ok(collapsed) => if !g.collapsible {
            if g.collapse_animation is Some {
                Err(refused(here, plainly(Why::AnimationWithoutFold)))
            } else {
                Ok(None)
            }
        } else {
            let style = match collapsed {
                Some(s) => s,
                None => w.base,
            };
            match g.collapse_button {
                None => Err(refused(here, plainly(Why::NoCollapseButton))),
                Some(button) => match style.icon {
                    None => Err(refused(table, plainly(Why::NoCollapsedIcon))),
                    Some(icon) => match fold_trouble(icon, style, known.footprints@) {
                        Some(slip) => Err(refused(table, slip)),
                        None => match group_travel(name, g) {
                            Err(e) => Err(e),
                            Ok(animation) => Ok(
                                Some(GroupFoldView { button, style, animation }),
                            ),
                        },
                    },
                },
            }
        },
    }
}

/// How long a group's fold takes.
pub open spec fn group_travel(name: Seq<char>, g: RawGroup) -> Result<
    Option<Duration>,
    RefusalView,
> {
    let key = keyed(seq!["group"@, name], "collapse_animation"@);
    match g.collapse_animation {
        None => Ok(None),
        Some(s) => match written_duration(s@) {
            Err(slip) => Err(RefusalView { at: key, slip }),
            Ok(d) => if d.nanos > LONGEST_ANIMATION {
                Err(RefusalView { at: key, slip: plainly(Why::AnimationTooLong) })
            } else {
                Ok(Some(d))
            },
        },
    }
}

fn resolve_group_travel(name: &str, g: &RawGroup) -> (r: Result<Option<Duration>, Refusal>)
    ensures
        match r {
            Ok(d) => group_travel(name@, *g) == Ok::<Option<Duration>, RefusalView>(d),
            Err(e) => group_travel(name@, *g) == Err::<Option<Duration>, RefusalView>(e@),
        },
{
    match &g.collapse_animation {
        None => Ok(None),
        Some(s) => {
            let d = put(
                parse_duration(s.as_str()),
                at2("group", name).under("collapse_animation"),
            )?;
            if d.nanos > LONGEST_ANIMATION {
                return Err(
                    Refusal::new(
                        at2("group", name).under("collapse_animation"),
                        Slip::plainly(Why::AnimationTooLong),
                    ),
                );
            }
            Ok(Some(d))
        },
    }
}

fn resolve_group_fold(name: &str, g: &RawGroup, w: &Wardrobe, known: &Known) -> (r: Result<
    Option<GroupCollapse>,
    Refusal,
>)
    ensures
        match r {
            Ok(fold) => group_fold_of(name@, *g, w@, *known) == Ok::<
                Option<GroupFoldView>,
                RefusalView,
            >(group_fold_view(fold)),
            Err(e) => group_fold_of(name@, *g, w@, *known) == Err::<
                Option<GroupFoldView>,
                RefusalView,
            >(e@),
        },
{
    let collapsed = put(
        resolve_collapsed(&g.collapsed, &w.base, w, known),
        at3("group", name, "collapsed"),
    )?;
    if !g.collapsible {
        if g.collapse_animation.is_some() {
            return Err(
                Refusal::new(at2("group", name), Slip::plainly(Why::AnimationWithoutFold)),
            );
        }
        return Ok(None);
    }
    let style = match collapsed {
        Some(s) => s,
        None => w.base.copy(),
    };
    match g.collapse_button {
        None => Err(Refusal::new(at2("group", name), Slip::plainly(Why::NoCollapseButton))),
        Some(button) => {
            match &style.icon {
                None => {
                    return Err(
                        Refusal::new(
                            at3("group", name, "collapsed"),
                            Slip::plainly(Why::NoCollapsedIcon),
                        ),
                    );
                },
                Some(icon) => {
                    put(
                        check_collapsed_icon(icon, &style, &known.footprints),
                        at3("group", name, "collapsed"),
                    )?;
                },
            }
            let animation = resolve_group_travel(name, g)?;
            Ok(Some(GroupCollapse { button, style, animation }))
        },
    }
}

/// The table of a module, looked for from `from` on.
pub open spec fn module_table(tables: Seq<(String, RawModule)>, name: Seq<char>, from: int) -> Option<
    RawModule,
>
    decreases tables.len() - from,
{
    if from < 0 || from >= tables.len() {
        None
    } else if tables[from].0@ == name {
        Some(tables[from].1)
    } else {
        module_table(tables, name, from + 1)
    }
}

fn find_module<'a>(tables: &'a Vec<(String, RawModule)>, name: &str) -> (r: Option<&'a RawModule>)
    ensures
        match r {
            Some(t) => module_table(tables@, name@, 0) == Some(*t),
            None => module_table(tables@, name@, 0) is None,
        },
{
    for i in 0..tables.len()
        invariant
            module_table(tables@, name@, 0) == module_table(tables@, name@, i as int),
    {
        if same(tables[i].0.as_str(), name) {
            return Some(&tables[i].1);
        }
    }
    None
}

/// The module a group lists under a name. One that is never configured still renders, with
/// defaults.
#[verifier::opaque]
pub open spec fn member(
    name: Seq<char>,
    tables: Seq<(String, RawModule)>,
    w: WardrobeView,
    known: Known,
    highest: i32,
) -> Result<ModuleView, RefusalView> {
    match module_table(tables, name, 0) {
        Some(m) => module_of(name, m, w, known, highest),
        None => match provider_format(known) {
            Ok(format) => Ok(plain_module(name, w.base, format)),
            Err(slip) => Err(
                RefusalView { at: keyed(seq!["module"@, name], "format"@), slip },
            ),
        },
    }
}

fn resolve_member(
    name: &str,
    tables: &Vec<(String, RawModule)>,
    w: &Wardrobe,
    known: &Known,
    highest: i32,
) -> (r: Result<Module, Refusal>)
    ensures
        told(r) == member(name@, tables@, w@, *known, highest),
{
    proof {
        reveal(member);
    }
    match find_module(tables, name) {
        Some(m) => resolve_module(name, m, w, known, highest),
        None => put(plain_block(name, &w.base, known), at2("module", name).under("format")),
    }
}

/// The modules a group lists, from `from` on, without the wildcard.
pub open spec fn members(
    names: Seq<String>,
    from: int,
    tables: Seq<(String, RawModule)>,
    w: WardrobeView,
    known: Known,
    highest: i32,
) -> Result<Seq<ModuleView>, RefusalView>
    decreases names.len() - from,
{
    if from < 0 || from >= names.len() {
        Ok(Seq::empty())
    } else if names[from]@ == "*"@ {
        members(names, from + 1, tables, w, known, highest)
    } else {
        match member(names[from]@, tables, w, known, highest) {
            Err(e) => Err(e),
            Ok(module) => match members(names, from + 1, tables, w, known, highest) {
                Err(e) => Err(e),
                Ok(rest) => Ok(seq![module] + rest),
            },
        }
    }
}

spec fn joined_so_far(done: Seq<ModuleView>, rest: Result<Seq<ModuleView>, RefusalView>) -> Result<
    Seq<ModuleView>,
    RefusalView,
> {
    match rest {
        Ok(more) => Ok(done + more),
        Err(e) => Err(e),
    }
}

fn resolve_members(
    names: &Vec<String>,
    tables: &Vec<(String, RawModule)>,
    w: &Wardrobe,
    known: &Known,
    highest: i32,
) -> (r: Result<Vec<Module>, Refusal>)
    ensures
        match r {
            Ok(v) => members(names@, 0, tables@, w@, *known, highest) == Ok::<
                Seq<ModuleView>,
                RefusalView,
            >(modules_view(v@)),
            Err(e) => members(names@, 0, tables@, w@, *known, highest) == Err::<
                Seq<ModuleView>,
                RefusalView,
            >(e@),
        },
{
    let mut out: Vec<Module> = Vec::new();
    let ghost none = Seq::<ModuleView>::empty();
    assert(modules_view(out@) =~= none);
    proof {
        let rest = members(names@, 0, tables@, w@, *known, highest);
        if rest is Ok {
            assert(none + rest->Ok_0 =~= rest->Ok_0);
        }
    }
    for i in 0..names.len()
        invariant
            members(names@, 0, tables@, w@, *known, highest) == joined_so_far(
                modules_view(out@),
                members(names@, i as int, tables@, w@, *known, highest),
            ),
    {
        if !same(names[i].as_str(), "*") {
            let ghost before = modules_view(out@);
            let module = resolve_member(names[i].as_str(), tables, w, known, highest)?;
            let ghost shown = module@;
            out.push(module);
            proof {
                assert(modules_view(out@) =~= before.push(shown));
                let rest = members(names@, i + 1, tables@, w@, *known, highest);
                if rest is Ok {
                    assert(before + (seq![shown] + rest->Ok_0) =~= before.push(shown)
                        + rest->Ok_0);
                }
            }
        }
    }
    assert(modules_view(out@) + Seq::<ModuleView>::empty() =~= modules_view(out@));
    Ok(out)
}

/// What is wrong with a group reserving a button, given its modules from `from` on.
///
/// The group wins at the pointer, since it answers for its whole island, so a module's key for
/// that button would still be there, still spelled correctly, and never again do anything.
pub open spec fn reserve_trouble(modules: Seq<ModuleView>, button: Button, from: int) -> Option<
    SlipView,
>
    decreases modules.len() - from,
{
    if from < 0 || from >= modules.len() {
        None
    } else {
        let claims = claimed(modules[from]);
        match claimant(claims, button, 0, claims.len() as int) {
            Some(job) => Some(about(Why::ButtonReserved { button, job }, modules[from].name)),
            None => reserve_trouble(modules, button, from + 1),
        }
    }
}

/// Reject a group that reserves a button one of its own modules is already using.
fn claim_group_button(modules: &Vec<Module>, button: Button) -> (r: Result<(), Slip>)
    ensures
        match r {
            Ok(_) => reserve_trouble(modules_view(modules@), button, 0) is None,
            Err(slip) => reserve_trouble(modules_view(modules@), button, 0) == Some(slip@),
        },
{
    let ghost all = modules_view(modules@);
    for i in 0..modules.len()
        invariant
            all == modules_view(modules@),
            reserve_trouble(all, button, 0) == reserve_trouble(all, button, i as int),
    {
        assert(all[i as int] == modules@[i as int]@);
        let claims = buttons_claimed(&modules[i]);
        if let Some(job) = find_claimant(&claims, button, claims.len()) {
            return Err(
                Slip::about(Why::ButtonReserved { button, job }, modules[i].name.as_str()),
            );
        }
    }
    Ok(())
}

/// Whether a group takes every block the provider emits.
pub open spec fn takes_all(names: Seq<String>) -> bool {
    exists|i: int| 0 <= i < names.len() && (#[trigger] names[i])@ == "*"@
}

fn has_wildcard(names: &Vec<String>) -> (r: bool)
    ensures
        r == takes_all(names@),
{
    for i in 0..names.len()
        invariant
            forall|j: int| 0 <= j < i ==> (#[trigger] names@[j])@ != "*"@,
    {
        if same(names[i].as_str(), "*") {
            return true;
        }
    }
    false
}

/// The separator of a group: the one it writes, or none.
pub open spec fn group_separator(raw: Option<RawSeparator>, palette: Seq<(Seq<char>, Color)>) -> Result<
    Separator,
    SlipView,
> {
    match raw {
        None => Ok(no_separator()),
        Some(s) => separator_of(s, palette),
    }
}

/// A number as written, or another, but not below zero.
pub open spec fn raised(written: Option<Number>, otherwise: Number) -> Number {
    (match written {
        Some(n) => n,
        None => otherwise,
    }).larger(Number { bits: ZERO })
}

fn raise(written: Option<Number>, otherwise: Number) -> (n: Number)
    ensures
        n == raised(written, otherwise),
{
    let zero = Number { bits: ZERO };
    match written {
        Some(n) => n.max(zero),
        None => otherwise.max(zero),
    }
}

/// The ends of a group: as written, with the measures of its separator where it names none.
pub open spec fn ends_of(raw: Option<RawEnds>, separator: Separator) -> Ends {
    match raw {
        Some(e) => Ends {
            left: e.left,
            right: e.right,
            width: raised(e.width, separator.width),
            overlap: raised(e.overlap, separator.overlap),
            direction: e.direction,
        },
        None => Ends {
            left: SeparatorShape::Nothing,
            right: SeparatorShape::Nothing,
            width: Number { bits: ZERO },
            overlap: Number { bits: ZERO },
            direction: None,
        },
    }
}

fn resolve_ends(raw: &Option<RawEnds>, separator: &Separator) -> (e: Ends)
    ensures
        e == ends_of(*raw, *separator),
{
    match raw {
        Some(e) => Ends {
            left: e.left,
            right: e.right,
            width: raise(e.width, separator.width),
            overlap: raise(e.overlap, separator.overlap),
            direction: e.direction,
        },
        None => Ends {
            left: SeparatorShape::Nothing,
            right: SeparatorShape::Nothing,
            width: Number { bits: ZERO },
            overlap: Number { bits: ZERO },
            direction: None,
        },
    }
}

/// The corners of a group. Without a table of their own both simply use the group radius.
pub open spec fn edges_of(raw: Option<RawEdges>, radius: Number) -> Edges {
    match raw {
        Some(e) => Edges {
            left: e.left,
            right: e.right,
            radius: match e.radius {
                Some(n) => n,
                None => radius,
            },
        },
        None => Edges { left: EdgeShape::Round, right: EdgeShape::Round, radius },
    }
}

fn resolve_edges(raw: &Option<RawEdges>, radius: Number) -> (e: Edges)
    ensures
        e == edges_of(*raw, radius),
{
    match raw {
        Some(e) => Edges {
            left: e.left,
            right: e.right,
            radius: match e.radius {
                Some(n) => n,
                None => radius,
            },
        },
        None => Edges { left: EdgeShape::Round, right: EdgeShape::Round, radius },
    }
}

/// Whether an opacity is between nothing and all.
pub open spec fn opaque_enough(n: Number) -> bool {
    n.comparable() && !n.less(Number { bits: ZERO }) && !(Number { bits: ONE }).less(n)
}

/// How much of a group reaches the screen, where it says.
pub open spec fn opacity_of(g: RawGroup) -> Number {
    match g.opacity {
        Some(n) => n,
        None => Number { bits: ONE },
    }
}

/// The background of a group.
pub open spec fn group_background(g: RawGroup, palette: Seq<(Seq<char>, Color)>) -> Result<
    Color,
    SlipView,
> {
    match g.background {
        Some(c) => color_of(c@, palette),
        None => Ok(Color { r: 0, g: 0, b: 0, a: 0 }),
    }
}

/// The modules a group ends up with: those it lists, or one that stands for every block, which
/// wears the style called `default`.
pub open spec fn populated(wildcard: bool, modules: Seq<ModuleView>, w: WardrobeView, known: Known) -> Result<
    Seq<ModuleView>,
    SlipView,
> {
    if wildcard && modules.len() == 0 {
        let style = match named_style(w.styles, "default"@, 0) {
            Some(s) => s,
            None => w.base,
        };
        match provider_format(known) {
            Err(slip) => Err(slip),
            Ok(format) => Ok(seq![plain_module("*"@, style, format)]),
        }
    } else {
        Ok(modules)
    }
}

fn populate(wildcard: bool, modules: Vec<Module>, w: &Wardrobe, known: &Known) -> (r: Result<
    Vec<Module>,
    Slip,
>)
    ensures
        match r {
            Ok(v) => populated(wildcard, modules_view(modules@), w@, *known) == Ok::<
                Seq<ModuleView>,
                SlipView,
            >(modules_view(v@)),
            Err(slip) => populated(wildcard, modules_view(modules@), w@, *known) == Err::<
                Seq<ModuleView>,
                SlipView,
            >(slip@),
        },
{
    if wildcard && modules.len() == 0 {
        let style = match find_style(&w.styles, "default") {
            Some(s) => s,
            None => &w.base,
        };
        let module = plain_block("*", style, known)?;
        let ghost shown = module@;
        let out = vec![module];
        assert(modules_view(out@) =~= seq![shown]);
        Ok(out)
    } else {
        Ok(modules)
    }
}

/// A group as written, resolved.
pub open spec fn group_of(
    name: Seq<char>,
    g: RawGroup,
    tables: Seq<(String, RawModule)>,
    w: WardrobeView,
    known: Known,
    highest: i32,
) -> Result<GroupView, RefusalView> {
    let here = seq!["group"@, name];
    let fold = group_fold_of(name, g, w, known);
    let listed = members(g.modules@, 0, tables, w, known, highest);
    let separator = group_separator(g.separator, w.palette);
    let background = group_background(g, w.palette);
    let wildcard = takes_all(g.modules@);
    if fold is Err {
        Err(fold->Err_0)
    } else if listed is Err {
        Err(listed->Err_0)
    } else if fold->Ok_0 matches Some(f) && reserve_trouble(listed->Ok_0, f.button, 0) is Some {
        Err(refused(here, reserve_trouble(listed->Ok_0, fold->Ok_0->0.button, 0)->0))
    } else if separator is Err {
        Err(refused(seq!["group"@, name, "separator"@], separator->Err_0))
    } else if !opaque_enough(opacity_of(g)) {
        Err(refused(here, plainly(Why::OpacityOutOfRange)))
    } else if background is Err {
        Err(refused(here, background->Err_0))
    } else {
        match populated(wildcard, listed->Ok_0, w, known) {
            Err(slip) => Err(refused(Seq::empty(), slip)),
            Ok(modules) => Ok(
                GroupView {
                    name,
                    collapse: fold->Ok_0,
                    background: background->Ok_0,
                    opacity: opacity_of(g),
                    padding: g.padding,
                    spacing: g.spacing,
                    separator: separator->Ok_0,
                    edges: edges_of(g.edges, g.radius),
                    ends: ends_of(g.ends, separator->Ok_0),
                    wildcard,
                    modules,
                },
            ),
        }
    }
}

/// Resolve a group and everything in it. `highest` is the last realtime signal there is above
/// SIGRTMIN.
pub fn resolve_group(
    name: &str,
    g: &RawGroup,
    tables: &Vec<(String, RawModule)>,
    w: &Wardrobe,
    known: &Known,
    highest: i32,
) -> (r: Result<Group, Refusal>)
    ensures
        told(r) == group_of(name@, *g, tables@, w@, *known, highest),
{
    let collapse = resolve_group_fold(name, g, w, known)?;
    let listed = resolve_members(&g.modules, tables, w, known, highest)?;
    if let Some(fold) = &collapse {
        put(claim_group_button(&listed, fold.button), at2("group", name))?;
    }
    let separator = match &g.separator {
        None => Separator::default(),
        Some(s) => put(resolve_separator(s, &w.palette), at3("group", name, "separator"))?,
    };
    let opacity = match g.opacity {
        Some(n) => n,
        None => Number { bits: ONE },
    };
    let zero = Number { bits: ZERO };
    let one = Number { bits: ONE };
    if !(opacity.is_comparable() && !opacity.lt(zero) && !one.lt(opacity)) {
        return Err(Refusal::new(at2("group", name), Slip::plainly(Why::OpacityOutOfRange)));
    }
    let background = match &g.background {
        Some(c) => put(w.palette.get(c.as_str()), at2("group", name))?,
        None => Color::transparent(),
    };
    let wildcard = has_wildcard(&g.modules);
    let modules = put(populate(wildcard, listed, w, known), at0())?;
    Ok(
        Group {
            name: owned(name),
            collapse,
            background,
            opacity,
            padding: g.padding,
            spacing: g.spacing,
            separator,
            edges: resolve_edges(&g.edges, g.radius),
            ends: resolve_ends(&g.ends, &separator),
            wildcard,
            modules,
        },
    )
}

proof fn lemma_reserved(modules: Seq<ModuleView>, button: Button, from: int, i: int, j: int)
    requires
        0 <= from <= i < modules.len(),
        reserve_trouble(modules, button, from) is None,
        0 <= j < claimed(modules[i]).len(),
    ensures
        claimed(modules[i])[j].0 != button,
    decreases modules.len() - from,
{
    let claims = claimed(modules[from]);
    if from == i {
        lemma_unclaimed(claims, button, 0, j);
    } else {
        lemma_reserved(modules, button, from + 1, i, j);
    }
}

proof fn lemma_unclaimed(claims: Seq<(Button, Job)>, button: Button, from: int, j: int)
    requires
        0 <= from <= j < claims.len(),
        claimant(claims, button, from, claims.len() as int) is None,
    ensures
        claims[j].0 != button,
    decreases claims.len() - from,
{
    if from < j {
        lemma_unclaimed(claims, button, from + 1, j);
    }
}

/// A button a group reserves for folding is one that none of its modules uses.
pub proof fn law_a_group_takes_no_button_from_its_modules(
    name: Seq<char>,
    g: RawGroup,
    tables: Seq<(String, RawModule)>,
    w: WardrobeView,
    known: Known,
    highest: i32,
)
    requires
        group_of(name, g, tables, w, known, highest) is Ok,
    ensures
        ({
            let group = group_of(name, g, tables, w, known, highest)->Ok_0;
            group.collapse matches Some(fold) ==> forall|i: int, j: int|
                0 <= i < group.modules.len() && 0 <= j < claimed(group.modules[i]).len() ==> (
                #[trigger] claimed(group.modules[i])[j]).0 != fold.button
        }),
{
    let group = group_of(name, g, tables, w, known, highest)->Ok_0;
    let listed = members(g.modules@, 0, tables, w, known, highest)->Ok_0;
    if group.collapse is Some {
        let button = group.collapse->0.button;
        assert forall|i: int, j: int|
            0 <= i < group.modules.len() && 0 <= j < claimed(
                group.modules[i],
            ).len() implies (#[trigger] claimed(group.modules[i])[j]).0 != button by {
            if takes_all(g.modules@) && listed.len() == 0 {
                assert(claimed(group.modules[i]).len() == 0);
            } else {
                lemma_reserved(listed, button, 0, i, j);
            }
        }
    }
}

/// Whether every signal these modules write is one a system has that has this many.
pub open spec fn signals_within(tables: Seq<(String, RawModule)>, highest: i32) -> bool {
    forall|i: int|
        0 <= i < tables.len() ==> ((#[trigger] tables[i]).1.signal matches Some(offset) ==> 0
            <= offset <= highest)
}

proof fn lemma_module_table(tables: Seq<(String, RawModule)>, name: Seq<char>, from: int)
    requires
        0 <= from <= tables.len(),
    ensures
        module_table(tables, name, from) matches Some(m) ==> exists|i: int|
            from <= i < tables.len() && (#[trigger] tables[i]).1 == m,
    decreases tables.len() - from,
{
    if from < tables.len() {
        if tables[from].0@ == name {
            assert(tables[from].1 == tables[from].1);
        } else {
            lemma_module_table(tables, name, from + 1);
        }
    }
}

proof fn lemma_members_anywhere(
    names: Seq<String>,
    from: int,
    tables: Seq<(String, RawModule)>,
    w: WardrobeView,
    known: Known,
    a: i32,
    b: i32,
)
    requires
        0 <= from <= names.len(),
        signals_within(tables, a),
        signals_within(tables, b),
    ensures
        members(names, from, tables, w, known, a) == members(names, from, tables, w, known, b),
    decreases names.len() - from,
{
    if from < names.len() {
        lemma_members_anywhere(names, from + 1, tables, w, known, a, b);
        let name = names[from]@;
        assert(member(name, tables, w, known, a) == member(name, tables, w, known, b)) by {
            reveal(member);
            lemma_module_table(tables, name, 0);
            if let Some(m) = module_table(tables, name, 0) {
                let i = choose|i: int| 0 <= i < tables.len() && (#[trigger] tables[i]).1 == m;
                assert(tables[i].1 == m);
                lemma_module_anywhere(name, m, w, known, a, b);
            }
        }
    }
}

/// A group whose modules write only signals that two systems have is the same on both.
pub proof fn lemma_group_anywhere(
    name: Seq<char>,
    g: RawGroup,
    tables: Seq<(String, RawModule)>,
    w: WardrobeView,
    known: Known,
    a: i32,
    b: i32,
)
    requires
        signals_within(tables, a),
        signals_within(tables, b),
    ensures
        group_of(name, g, tables, w, known, a) == group_of(name, g, tables, w, known, b),
{
    lemma_members_anywhere(g.modules@, 0, tables, w, known, a, b);
}

} // verus!
