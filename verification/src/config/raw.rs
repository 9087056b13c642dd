//! A configuration as it is written, before anything in it is looked up.

use crate::config::button::Button;
use crate::number::{Number, EIGHT, SIX, TEN, WIDE, ZERO};
use crate::table::Table;
use crate::text::owned;
use vstd::prelude::*;

verus! {

/// Which edge of the screen the bar is on.
#[derive(Clone, Copy, Debug, PartialEq, Eq, Structural)]
pub enum Edge {
    Top,
    Bottom,
}

/// Which layer-shell layer the bar sits on, and so what it is drawn over.
#[derive(Clone, Copy, Debug, PartialEq, Eq, Structural)]
pub enum BarLayer {
    Background,
    Bottom,
    Top,
    Overlay,
}

/// How much of the session a module drawn from the compositor is about.
#[derive(Clone, Copy, Debug, Default, PartialEq, Eq, Structural)]
pub enum Scope {
    /// Only what is on the screen this bar is on.
    #[default]
    Output,
    /// Everything, whichever screen it is on.
    Session,
}

/// The shape of a transition.
#[derive(Clone, Copy, Debug, Default, PartialEq, Eq, Structural)]
pub enum SeparatorShape {
    #[default]
    Nothing,
    Line,
    Slant,
    Chevron,
    Notch,
    Round,
    Curve,
}

/// Which way a shape points.
#[derive(Clone, Copy, Debug, Default, PartialEq, Eq, Structural)]
pub enum Direction {
    #[default]
    Right,
    Left,
}

/// How an outer corner is drawn.
#[derive(Clone, Copy, Debug, Default, PartialEq, Eq, Structural)]
pub enum EdgeShape {
    #[default]
    Round,
    Square,
}

/// The whole file.
#[derive(Debug, Default)]
pub struct RawConfig {
    pub bar: RawBar,
    pub menu: RawMenu,
    pub i3bar: RawI3Bar,
    pub colors: Table<String>,
    pub left: RawPosition,
    pub center: RawPosition,
    pub right: RawPosition,
    pub styles: Table<RawStyle>,
    pub groups: Table<RawGroup>,
    pub modules: Table<RawModule>,
}

#[derive(Debug)]
pub struct RawBar {
    pub height: u32,
    pub position: Edge,
    /// Where the bar sits in the compositor's stack.
    pub layer: BarLayer,
    pub margin: i32,
    pub gap: Number,
    pub font: String,
    /// Families to draw characters `font` has no glyph for.
    pub fallback: Vec<String>,
    /// Base icon size; defaults to a multiple of the font size.
    pub icon_size: Option<Number>,
    pub background: RawBarBackground,
    /// Reserve space so windows are not covered.
    pub exclusive: bool,
    /// Which screens to appear on. Empty, or a single "*", is every screen there is.
    pub outputs: Vec<String>,
    /// The icon theme a tray item's named icon is looked for in.
    pub icon_theme: String,
}

#[derive(Debug, Default)]
pub struct RawBarBackground {
    pub color: Option<String>,
    pub radius: Number,
}

impl Default for RawBar {
    fn default() -> (b: RawBar)
        ensures
            b.height == 34,
            b.position == Edge::Top,
            b.layer == BarLayer::Top,
            b.margin == 0,
            b.gap.bits == SIX,
            b.font@ == "sans-serif 10"@,
            b.fallback@.len() == 0,
            b.icon_size is None,
            b.background.color is None,
            b.background.radius.bits == ZERO,
            b.exclusive,
            b.outputs@.len() == 0,
            b.icon_theme@ == "hicolor"@,
    {
        RawBar {
            height: 34,
            position: Edge::Top,
            layer: BarLayer::Top,
            margin: 0,
            gap: Number { bits: SIX },
            font: owned("sans-serif 10"),
            fallback: Vec::new(),
            icon_size: None,
            background: RawBarBackground { color: None, radius: Number { bits: ZERO } },
            exclusive: true,
            outputs: Vec::new(),
            icon_theme: owned("hicolor"),
        }
    }
}

/// The menu a tray item opens, as written.
#[derive(Debug)]
pub struct RawMenu {
    /// What the menu is made of. Defaults to the bar's own background.
    pub background: Option<String>,
    pub foreground: Option<String>,
    /// The row under the pointer.
    pub highlight: Option<String>,
    pub highlight_foreground: Option<String>,
    /// What a row that cannot be chosen is written in.
    pub disabled: Option<String>,
    pub separator: Option<String>,
    pub padding: Number,
    pub radius: Number,
    /// How wide a menu may get before its labels are cut short.
    pub max_width: Number,
}

impl Default for RawMenu {
    fn default() -> (m: RawMenu)
        ensures
            m.background is None && m.foreground is None && m.highlight is None,
            m.highlight_foreground is None && m.disabled is None && m.separator is None,
            m.padding.bits == EIGHT,
            m.radius.bits == EIGHT,
            m.max_width.bits == WIDE,
    {
        RawMenu {
            background: None,
            foreground: None,
            highlight: None,
            highlight_foreground: None,
            disabled: None,
            separator: None,
            padding: Number { bits: EIGHT },
            radius: Number { bits: EIGHT },
            max_width: Number { bits: WIDE },
        }
    }
}

#[derive(Debug)]
pub struct RawI3Bar {
    pub command: String,
    pub args: Vec<String>,
    /// Names for the provider's blocks, in the order it emits them.
    pub names: Vec<String>,
}

impl Default for RawI3Bar {
    fn default() -> (b: RawI3Bar)
        ensures
            b.command@ == "i3status-rs"@,
            b.args@.len() == 0,
            b.names@.len() == 0,
    {
        RawI3Bar { command: owned("i3status-rs"), args: Vec::new(), names: Vec::new() }
    }
}

#[derive(Debug, Default)]
pub struct RawPosition {
    pub groups: Vec<String>,
    pub separator: Option<RawSeparator>,
}

#[derive(Debug, Default)]
pub struct RawStyle {
    pub background: Option<String>,
    pub foreground: Option<String>,
    pub padding: Option<Number>,
    pub radius: Option<Number>,
    pub min_width: Option<Number>,
    pub max_width: Option<Number>,
    pub icon: Option<String>,
    pub icon_size: Option<Number>,
    /// Space between an icon and the text beside it.
    pub icon_gap: Option<Number>,
}

#[derive(Debug, Default)]
pub struct RawCollapsedStyle {
    pub style: Option<String>,
    pub overrides: RawStyle,
}

#[derive(Debug, Default)]
pub struct RawGroup {
    pub collapsible: bool,
    pub collapse_button: Option<Button>,
    /// How long the fold takes.
    pub collapse_animation: Option<String>,
    pub collapsed: Option<RawCollapsedStyle>,
    pub modules: Vec<String>,
    pub background: Option<String>,
    pub opacity: Option<Number>,
    pub radius: Number,
    pub padding: Number,
    pub spacing: Number,
    pub separator: Option<RawSeparator>,
    pub edges: Option<RawEdges>,
    pub ends: Option<RawEnds>,
}

/// The transition drawn where a group meets the bar.
#[derive(Debug, Default)]
pub struct RawEnds {
    pub left: SeparatorShape,
    pub right: SeparatorShape,
    /// Falls back to the width of the group's own separators.
    pub width: Option<Number>,
    pub overlap: Option<Number>,
    pub direction: Option<Direction>,
}

#[derive(Debug)]
pub struct RawSeparator {
    pub shape: SeparatorShape,
    pub width: Number,
    pub direction: Direction,
    pub color: String,
    pub overlap: Number,
}

impl Default for RawSeparator {
    fn default() -> (s: RawSeparator)
        ensures
            s.shape == SeparatorShape::Nothing,
            s.width.bits == TEN,
            s.direction == Direction::Right,
            s.color@ == "previous"@,
            s.overlap.bits == ZERO,
    {
        RawSeparator {
            shape: SeparatorShape::Nothing,
            width: Number { bits: TEN },
            direction: Direction::Right,
            color: owned("previous"),
            overlap: Number { bits: ZERO },
        }
    }
}

#[derive(Debug, Default)]
pub struct RawEdges {
    pub left: EdgeShape,
    pub right: EdgeShape,
    /// Falls back to the group's own `radius`.
    pub radius: Option<Number>,
}

/// What to run when a module is clicked, by button, each an argv where it is written.
#[derive(Debug, Default)]
pub struct RawClickActions {
    pub left: Option<Vec<String>>,
    pub middle: Option<Vec<String>>,
    pub right: Option<Vec<String>>,
}

/// A step written as a percentage, and the number it reads as without its sign.
#[derive(Debug, Default)]
pub struct RawStep {
    pub written: String,
    pub value: Option<Number>,
}

#[derive(Debug, Default)]
pub struct RawModule {
    /// Name of a `[style.*]` table to inherit from.
    pub style: Option<String>,
    /// Where the content comes from.
    pub source: Option<String>,
    /// What the module says, written against the source's fields.
    pub format: Option<String>,
    /// Further wordings, which a click moves through and back round.
    pub format_alt: Vec<String>,
    /// How long the module takes to travel between two of those wordings: "150ms".
    pub alt_animation: Option<String>,
    /// How often to read: "2s", "500ms", "1m".
    pub interval: Option<String>,
    /// Which filesystem a `disk` module is about.
    pub path: Option<String>,
    /// Which interface a `network` module watches.
    pub interface: Option<String>,
    /// Which hwmon chip a `temperature` module reads.
    pub chip: Option<String>,
    /// What a `sway:language` module calls each layout.
    pub layouts: Table<String>,
    /// Native or textual icons for `sway:workspaces`, keyed by name.
    pub icons: Table<String>,
    /// How much of the session a compositor module is about.
    pub scope: Option<Scope>,
    /// Whether a `tray` module draws the items whose applications say they are passive.
    pub show_passive: Option<bool>,
    /// The ids a `tray` module puts first, in the order it puts them.
    pub order: Vec<String>,
    /// A command module's argv.
    pub command: Vec<String>,
    /// Further arguments for that command.
    pub params: Vec<String>,
    /// Whether every line the command prints is a reading of its own.
    pub pages: bool,
    /// How long the command is given to answer before it is stopped.
    pub timeout: Option<String>,
    /// What that command publishes, and what kind each is: `number`, `percent` or `text`.
    pub fields: Table<String>,
    /// Read this module's source again on SIGRTMIN+N.
    pub signal: Option<i32>,
    /// What one scroll notch over this module is worth: "5%".
    pub scroll: Option<RawStep>,
    /// Whether clicks on this module operate what it is showing.
    pub controls: Option<bool>,
    /// Whether a click folds this module down to its icon, and back.
    pub collapsible: Option<bool>,
    /// Which button moves through `format_alt`.
    pub alt_button: Option<Button>,
    /// Which button folds the module down to its icon.
    pub collapse_button: Option<Button>,
    /// How long the fold takes: "150ms".
    pub collapse_animation: Option<String>,
    /// What the module wears folded down.
    pub collapsed: Option<RawCollapsedStyle>,
    /// Which button reads this module's source again.
    pub refresh_button: Option<Button>,
    /// Which button mutes and unmutes.
    pub mute_button: Option<Button>,
    /// What to run when this module is clicked, by button.
    pub on_click: Option<RawClickActions>,
    /// Conditional restyling, in the order of the names.
    pub states: Table<RawState>,
    pub overrides: RawStyle,
}

#[derive(Debug, Default)]
pub struct RawState {
    /// Name of a `[style.*]` table whose keys are applied over the module's own.
    pub style: Option<String>,
    /// Matches when the source itself rates what it is reporting this way.
    pub state: Option<String>,
    /// The field a bound applies to.
    pub field: Option<String>,
    /// Matches when the named field reads exactly this, ignoring case.
    pub equals: Option<String>,
    /// Matches when every field named here reads what it is paired with, ignoring case.
    pub fields: Table<String>,
    /// Matches when the block's percentage is under this.
    pub below: Option<Number>,
    /// Matches when the block's percentage is over this.
    pub above: Option<Number>,
    /// What `above` leaves of a hundred.
    pub headroom: Option<Number>,
    /// Matches when the provider marks the block urgent.
    pub urgent: bool,
    /// Matches while the pointer is over the module.
    pub hover: bool,
    /// Matches the focused workspace.
    pub focused: bool,
    /// Matches a workspace shown on some output.
    pub visible: bool,
    /// Matches when the module's text contains this.
    pub contains: Option<String>,
    /// Remove the matched text from what is drawn.
    pub strip: bool,
    pub overrides: RawStyle,
}

} // verus!
