//! What a press or a wheel notch on a module means.

use crate::config::button::{action_of, number_of, Button, ClickActions};
use crate::number::Number;
use crate::status::Control;
use vstd::prelude::*;

verus! {

/// How the i3bar protocol numbers a wheel notch, which is what click dispatch speaks.
pub const SCROLL_UP: u32 = 4;

pub const SCROLL_DOWN: u32 = 5;

/// Linux input button codes, as a pointer delivers them.
pub const BTN_LEFT: u32 = 0x110;

pub const BTN_RIGHT: u32 = 0x111;

pub const BTN_MIDDLE: u32 = 0x112;

/// The i3bar protocol's number for a Linux button code.
pub open spec fn protocol_number(code: u32) -> Option<u32> {
    if code == BTN_LEFT {
        Some(1)
    } else if code == BTN_MIDDLE {
        Some(2)
    } else if code == BTN_RIGHT {
        Some(3)
    } else {
        None
    }
}

/// Map a Linux button code onto the i3bar protocol's button numbering.
pub fn i3bar_button(code: u32) -> (r: Option<u32>)
    ensures
        r == protocol_number(code),
{
    if code == BTN_LEFT {
        Some(1)
    } else if code == BTN_MIDDLE {
        Some(2)
    } else if code == BTN_RIGHT {
        Some(3)
    } else {
        None
    }
}

/// Map the i3bar protocol's numbering back onto the buttons a configuration can name.
///
/// Scroll notches have no name in the configuration, because a notch is a step in a direction
/// rather than a press.
pub fn button_of(number: u32) -> (r: Option<Button>)
    ensures
        r == pressed(number),
{
    match number {
        1 => Some(Button::Left),
        2 => Some(Button::Middle),
        3 => Some(Button::Right),
        _ => None,
    }
}

/// The button of a number, if it is that of one.
pub open spec fn pressed(number: u32) -> Option<Button> {
    if number == 1 {
        Some(Button::Left)
    } else if number == 2 {
        Some(Button::Middle)
    } else if number == 3 {
        Some(Button::Right)
    } else {
        None
    }
}

/// A button's number is its own, so a press is never taken for another.
pub proof fn law_a_button_is_known_by_its_number(b: Button, number: u32)
    ensures
        pressed(number_of(b)) == Some(b),
        pressed(number) matches Some(p) ==> number_of(p) == number,
{
}

/// What a click on something that is shown reaches.
#[derive(Debug)]
pub enum ActionTarget {
    /// A command for the compositor.
    Sway(String),
    /// Something the bar can change itself, and how much a notch is worth.
    Control { what: Control, step: Number },
    /// An application in the tray.
    Tray { key: String },
    /// A block of the status provider.
    I3Bar { name: Option<String>, instance: Option<String> },
}

/// A rectangle on a surface, by its edges.
#[derive(Clone, Copy, Debug, PartialEq, Eq, Structural)]
pub struct Area {
    pub left: Number,
    pub top: Number,
    pub right: Number,
    pub bottom: Number,
}

/// Whether a point lies in a rectangle: on its left and top edges, and short of the others.
pub open spec fn lies_in(a: Area, x: Number, y: Number) -> bool {
    (a.left.less(x) || a.left.equal(x)) && x.less(a.right) && (a.top.less(y) || a.top.equal(y))
        && y.less(a.bottom)
}

impl Area {
    pub fn holds(self, x: Number, y: Number) -> (r: bool)
        ensures
            r == lies_in(self, x, y),
    {
        (self.left.lt(x) || self.left.is(x)) && x.lt(self.right) && (self.top.lt(y) || self.top.is(
            y,
        )) && y.lt(self.bottom)
    }
}

/// A module as it was laid out: where it is, and what it does about being clicked.
#[derive(Debug)]
pub struct PlacedModule {
    pub area: Area,
    pub action: Option<ActionTarget>,
    /// What the module is called, where anything is remembered against it.
    pub name: Option<String>,
    /// How many wordings it has, where it has further ones.
    pub alt: Option<usize>,
    pub alt_button: Button,
    pub refresh: Option<Button>,
    pub mute: Option<Button>,
    /// How many readings its source published, where it is paged.
    pub paged: Option<usize>,
    pub collapsible: bool,
    pub collapse_button: Button,
    pub on_click: Option<ClickActions>,
}

/// What a press or a wheel notch on a module means.
///
/// Deciding is kept apart from doing: what a gesture means is about the module the pointer
/// landed on and nothing else.
#[derive(Clone, Copy, Debug, PartialEq, Eq, Structural)]
pub enum Gesture {
    /// Run the program the configuration gave this button.
    Run(Button),
    /// Read the module's source again.
    Refresh,
    /// Turn to another of the readings its source published, of `count` in all.
    Page { count: usize, forward: bool },
    /// Move on to the next of this many wordings.
    Alt(usize),
    /// Fold the module down to its icon, or unfold it.
    Collapse,
    /// Mute what the module is showing, or unmute it.
    Mute,
    /// Nothing here wanted it; whatever the module is showing gets it.
    Forward,
}

/// Whether a module runs a program of the user's own for a button.
pub open spec fn runs(m: PlacedModule, number: u32) -> bool {
    match (pressed(number), m.on_click) {
        (Some(b), Some(actions)) => action_of(actions@, b) is Some,
        _ => false,
    }
}

/// Whether a button that may not be there is the one of this number.
pub open spec fn answers(b: Option<Button>, number: u32) -> bool {
    match b {
        Some(b) => number_of(b) == number,
        None => false,
    }
}

/// At least one.
pub open spec fn at_least_one(n: usize) -> usize {
    if n == 0 {
        1
    } else {
        n
    }
}

/// What a button does on a module.
///
/// A program of the user's own comes first: it is the one thing on a module that the
/// configuration asked for outright. Muting comes before the name is asked about, since it acts
/// on the sound server rather than on anything remembered against a module. The wheel is not a
/// button, so paging takes nothing away from what the presses do.
pub open spec fn meaning(m: PlacedModule, number: u32) -> Gesture {
    if runs(m, number) {
        Gesture::Run(pressed(number)->0)
    } else if answers(m.mute, number) {
        Gesture::Mute
    } else if m.name is None {
        Gesture::Forward
    } else if answers(m.refresh, number) {
        Gesture::Refresh
    } else if m.paged is Some && (number == SCROLL_UP || number == SCROLL_DOWN) {
        Gesture::Page { count: at_least_one(m.paged->0), forward: number == SCROLL_DOWN }
    } else if m.alt is Some && number == number_of(m.alt_button) {
        Gesture::Alt(at_least_one(m.alt->0))
    } else if m.collapsible && number == number_of(m.collapse_button) {
        Gesture::Collapse
    } else {
        Gesture::Forward
    }
}

fn wants(b: Option<Button>, number: u32) -> (r: bool)
    ensures
        r == answers(b, number),
{
    match b {
        Some(b) => b.number() == number,
        None => false,
    }
}

/// What this button does on this module.
pub fn gesture(module: &PlacedModule, button: u32) -> (g: Gesture)
    ensures
        g == meaning(*module, button),
{
    if let Some(pressed) = button_of(button) {
        if let Some(actions) = &module.on_click {
            if actions.for_button(pressed).is_some() {
                return Gesture::Run(pressed);
            }
        }
    }
    if wants(module.mute, button) {
        return Gesture::Mute;
    }
    if module.name.is_none() {
        return Gesture::Forward;
    }
    if wants(module.refresh, button) {
        return Gesture::Refresh;
    }
    if let Some(count) = module.paged {
        if button == SCROLL_UP || button == SCROLL_DOWN {
            return Gesture::Page {
                count: if count == 0 {
                    1
                } else {
                    count
                },
                forward: button == SCROLL_DOWN,
            };
        }
    }
    if let Some(views) = module.alt {
        if button == module.alt_button.number() {
            return Gesture::Alt(
                if views == 0 {
                    1
                } else {
                    views
                },
            );
        }
    }
    if module.collapsible && button == module.collapse_button.number() {
        return Gesture::Collapse;
    }
    Gesture::Forward
}

/// A program of the user's own is never kept from its button by anything built in.
pub proof fn law_a_program_comes_before_anything_built_in(m: PlacedModule, b: Button)
    requires
        m.on_click is Some,
        action_of(m.on_click->0@, b) is Some,
    ensures
        meaning(m, number_of(b)) == Gesture::Run(b),
{
}

/// Paging answers to the wheel and to nothing else, and everything else answers to presses: a
/// notch never does what a button does.
pub proof fn law_a_notch_is_no_press(m: PlacedModule, number: u32)
    ensures
        number == SCROLL_UP || number == SCROLL_DOWN ==> (meaning(m, number) is Page || meaning(
            m,
            number,
        ) is Forward),
        meaning(m, number) is Page ==> number == SCROLL_UP || number == SCROLL_DOWN,
{
}

/// A group as it was laid out.
#[derive(Debug)]
pub struct PlacedGroup {
    pub area: Area,
    /// What the group is called and the button that folds it, where one does.
    pub collapse: Option<(String, Button)>,
    pub modules: Vec<PlacedModule>,
}

/// Everything a bar laid out.
#[derive(Debug)]
pub struct Frame {
    pub groups: Vec<PlacedGroup>,
}

/// What a click landed on.
#[derive(Debug)]
pub enum ClickTarget<'a> {
    /// A group, by name, which folds.
    Group(&'a str),
    Module(&'a PlacedModule),
}

/// What a click landed on, by where it stands.
pub enum Hit {
    Group(int),
    Module(int, int),
}

/// The name that a group folds under, where it does.
pub open spec fn folding_name(g: PlacedGroup) -> Option<Seq<char>> {
    match g.collapse {
        Some((name, _)) => Some(name@),
        None => None,
    }
}

/// Whether a click at a point folds a group.
pub open spec fn folds(g: PlacedGroup, x: Number, y: Number, number: u32) -> bool {
    match g.collapse {
        Some((_, b)) => number_of(b) == number && lies_in(g.area, x, y),
        None => false,
    }
}

/// The first group that a click folds, from `from` on.
pub open spec fn folded_group(
    groups: Seq<PlacedGroup>,
    x: Number,
    y: Number,
    number: u32,
    from: int,
) -> Option<int>
    decreases groups.len() - from,
{
    if from < 0 || from >= groups.len() {
        None
    } else if folds(groups[from], x, y, number) {
        Some(from)
    } else {
        folded_group(groups, x, y, number, from + 1)
    }
}

/// The first of these modules under a point, from `from` on.
pub open spec fn under(modules: Seq<PlacedModule>, x: Number, y: Number, from: int) -> Option<int>
    decreases modules.len() - from,
{
    if from < 0 || from >= modules.len() {
        None
    } else if lies_in(modules[from].area, x, y) {
        Some(from)
    } else {
        under(modules, x, y, from + 1)
    }
}

/// The first module under a point, from the group at `from` on.
pub open spec fn module_under(
    groups: Seq<PlacedGroup>,
    x: Number,
    y: Number,
    from: int,
) -> Option<(int, int)>
    decreases groups.len() - from,
{
    if from < 0 || from >= groups.len() {
        None
    } else {
        match under(groups[from].modules@, x, y, 0) {
            Some(i) => Some((from, i)),
            None => module_under(groups, x, y, from + 1),
        }
    }
}

/// What a click lands on: a group whose button it is, anywhere in the group, and otherwise the
/// module under it.
pub open spec fn landed(f: Frame, x: Number, y: Number, number: u32) -> Option<Hit> {
    match folded_group(f.groups@, x, y, number, 0) {
        Some(g) => Some(Hit::Group(g)),
        None => match module_under(f.groups@, x, y, 0) {
            Some((g, m)) => Some(Hit::Module(g, m)),
            None => None,
        },
    }
}

impl Frame {
    /// The module under a point.
    pub fn module_at(&self, x: Number, y: Number) -> (r: Option<&PlacedModule>)
        ensures
            match r {
                Some(m) => module_under(self.groups@, x, y, 0) matches Some((g, i)) && 0 <= g
                    < self.groups@.len() && 0 <= i < self.groups@[g].modules@.len() && *m
                    == self.groups@[g].modules@[i],
                None => module_under(self.groups@, x, y, 0) is None,
            },
    {
        for g in 0..self.groups.len()
            invariant
                module_under(self.groups@, x, y, 0) == module_under(self.groups@, x, y, g as int),
        {
            let modules = &self.groups[g].modules;
            let ghost inside = self.groups@[g as int].modules@;
            for i in 0..modules.len()
                invariant
                    g < self.groups@.len(),
                    modules == self.groups@[g as int].modules,
                    inside == modules@,
                    module_under(self.groups@, x, y, 0) == module_under(
                        self.groups@,
                        x,
                        y,
                        g as int,
                    ),
                    under(inside, x, y, 0) == under(inside, x, y, i as int),
            {
                if modules[i].area.holds(x, y) {
                    assert(module_under(self.groups@, x, y, 0) == Some((g as int, i as int)));
                    return Some(&modules[i]);
                }
            }
        }
        None
    }

    /// What a click lands on.
    pub fn click_at(&self, x: Number, y: Number, button: u32) -> (r: Option<ClickTarget<'_>>)
        ensures
            match r {
                Some(ClickTarget::Group(name)) => landed(*self, x, y, button) matches Some(
                    Hit::Group(g),
                ) && 0 <= g < self.groups@.len() && folding_name(self.groups@[g])
                    == Some(name@),
                Some(ClickTarget::Module(m)) => landed(*self, x, y, button) matches Some(
                    Hit::Module(g, i),
                ) && 0 <= g < self.groups@.len() && 0 <= i < self.groups@[g].modules@.len() && *m
                    == self.groups@[g].modules@[i],
                None => landed(*self, x, y, button) is None,
            },
    {
        for g in 0..self.groups.len()
            invariant
                folded_group(self.groups@, x, y, button, 0) == folded_group(
                    self.groups@,
                    x,
                    y,
                    button,
                    g as int,
                ),
        {
            let group = &self.groups[g];
            if let Some((name, b)) = &group.collapse {
                if b.number() == button && group.area.holds(x, y) {
                    return Some(ClickTarget::Group(name.as_str()));
                }
            }
        }
        match self.module_at(x, y) {
            Some(m) => Some(ClickTarget::Module(m)),
            None => None,
        }
    }
}

/// A group's own button reaches the group wherever in it the click lands, whatever the modules
/// there would do with it.
pub proof fn law_a_groups_button_precedes_its_modules(
    f: Frame,
    g: int,
    x: Number,
    y: Number,
    number: u32,
)
    requires
        0 <= g < f.groups@.len(),
        folds(f.groups@[g], x, y, number),
    ensures
        landed(f, x, y, number) matches Some(Hit::Group(h)) && folds(f.groups@[h], x, y, number),
{
    lemma_folded_group(f.groups@, x, y, number, 0, g);
}

proof fn lemma_folded_group(
    groups: Seq<PlacedGroup>,
    x: Number,
    y: Number,
    number: u32,
    from: int,
    g: int,
)
    requires
        0 <= from <= g < groups.len(),
        folds(groups[g], x, y, number),
    ensures
        folded_group(groups, x, y, number, from) matches Some(h) && folds(
            groups[h],
            x,
            y,
            number,
        ),
    decreases g - from,
{
    if !folds(groups[from], x, y, number) {
        lemma_folded_group(groups, x, y, number, from + 1, g);
    }
}

/// Which way a scroll goes and how many notches it is worth, given how many steps it is worth
/// down.
pub fn notches(steps: i32) -> (r: (u32, u32))
    ensures
        r.0 == if steps < 0 {
            SCROLL_UP
        } else {
            SCROLL_DOWN
        },
        r.1 == if steps < 0 {
            -steps
        } else {
            steps as int
        },
{
    if steps < 0 {
        (SCROLL_UP, (-(steps as i64)) as u32)
    } else {
        (SCROLL_DOWN, steps as u32)
    }
}

} // verus!
