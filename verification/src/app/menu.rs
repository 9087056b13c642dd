//! The menus that tray icons open, and the submenus below them.
//!
//! A stack rather than one surface, because a menu that opens another has to keep the first on
//! screen: the second hangs from a row of it.

use crate::config::raw::Edge;
use crate::number::Number;
use crate::text::{owned, same};
use vstd::prelude::*;

verus! {

/// One row of a menu.
#[derive(Clone, Copy, Debug, PartialEq, Eq, Structural)]
pub struct Row {
    pub id: i32,
    pub enabled: bool,
    /// Whether it opens another menu.
    pub submenu: bool,
    /// Whether a click on it can be a choice at all.
    pub selectable: bool,
}

/// One menu on screen.
#[derive(Debug)]
pub struct OpenMenu {
    /// The tray item this menu belongs to, so a choice can be sent back to it.
    pub key: String,
    /// The screen the menu stack is hanging from, so it can be taken down with the bar when
    /// that screen goes.
    pub output: u32,
    /// The row it was opened from, for a submenu.
    pub parent: i32,
    pub rows: Vec<Row>,
    /// Which row the pointer is on.
    pub hover: Option<usize>,
    pub dirty: bool,
}

/// An item whose menu is being opened, while its rows are still being read.
///
/// The screen is remembered as itself rather than by its place among the bars: one unplugged
/// between the ask and the answer moves every bar after it along.
#[derive(Debug)]
pub struct Opening {
    pub output: u32,
    pub key: String,
    pub x: Number,
    pub width: Number,
}

/// What a menu hangs from.
#[derive(Clone, Copy, Debug, PartialEq, Eq, Structural)]
pub enum Hook {
    /// A tray icon on a bar.
    Bar { bar: usize, x: Number, width: Number },
    /// A row of a menu that is already open.
    Row { level: usize, row: usize, id: i32 },
}

/// The menus that are open, outermost first, and the one that is being opened.
#[derive(Debug)]
pub struct Menus {
    pub open: Vec<OpenMenu>,
    pub opening: Option<Opening>,
    /// The row whose submenu was asked for and has not come, and the level it is on.
    pub in_flight: Option<(usize, i32)>,
}

/// Where a screen is among the bars, from `from` on.
pub open spec fn bar_on(outputs: Seq<u32>, output: u32, from: int) -> Option<int>
    decreases outputs.len() - from,
{
    if from < 0 || from >= outputs.len() {
        None
    } else if outputs[from] == output {
        Some(from)
    } else {
        bar_on(outputs, output, from + 1)
    }
}

fn find_bar(outputs: &Vec<u32>, output: u32) -> (r: Option<usize>)
    ensures
        match r {
            Some(i) => bar_on(outputs@, output, 0) == Some(i as int) && i < outputs@.len(),
            None => bar_on(outputs@, output, 0) is None,
        },
{
    for i in 0..outputs.len()
        invariant
            bar_on(outputs@, output, 0) == bar_on(outputs@, output, i as int),
    {
        if outputs[i] == output {
            return Some(i);
        }
    }
    None
}

/// Where a row of an id is, from `from` on.
pub open spec fn row_of(rows: Seq<Row>, id: i32, from: int) -> Option<int>
    decreases rows.len() - from,
{
    if from < 0 || from >= rows.len() {
        None
    } else if rows[from].id == id {
        Some(from)
    } else {
        row_of(rows, id, from + 1)
    }
}

/// Whether a row of an id opens another menu.
pub open spec fn opens(rows: Seq<Row>, id: i32) -> bool {
    exists|i: int| 0 <= i < rows.len() && (#[trigger] rows[i]).id == id && rows[i].submenu
}

fn find_row(rows: &Vec<Row>, id: i32) -> (r: Option<usize>)
    ensures
        match r {
            Some(i) => row_of(rows@, id, 0) == Some(i as int) && i < rows@.len(),
            None => row_of(rows@, id, 0) is None && forall|i: int|
                0 <= i < rows@.len() ==> (#[trigger] rows@[i]).id != id,
        },
{
    for i in 0..rows.len()
        invariant
            row_of(rows@, id, 0) == row_of(rows@, id, i as int),
            forall|j: int| 0 <= j < i ==> (#[trigger] rows@[j]).id != id,
    {
        if rows[i].id == id {
            return Some(i);
        }
    }
    None
}

fn opens_another(rows: &Vec<Row>, id: i32) -> (r: bool)
    ensures
        r == opens(rows@, id),
{
    for i in 0..rows.len()
        invariant
            forall|j: int| 0 <= j < i ==> !((#[trigger] rows@[j]).id == id && rows@[j].submenu),
    {
        if rows[i].id == id && rows[i].submenu {
            return true;
        }
    }
    false
}

/// The first open menu of an item with a row of an id that opens another, from `from` on.
pub open spec fn level_of(
    open: Seq<OpenMenu>,
    key: Seq<char>,
    id: i32,
    from: int,
) -> Option<int>
    decreases open.len() - from,
{
    if from < 0 || from >= open.len() {
        None
    } else if open[from].key@ == key && opens(open[from].rows@, id) {
        Some(from)
    } else {
        level_of(open, key, id, from + 1)
    }
}

/// What a menu that has come hangs from: the module for an item's own menu, the row for a
/// submenu. There is nothing to hang it from where the click that asked for it is long gone or
/// was for something else, where the screen has gone meanwhile, where the row is no longer
/// there, or where it has no rows.
pub open spec fn hook_for(
    m: Menus,
    key: Seq<char>,
    parent: i32,
    rows: Seq<Row>,
    outputs: Seq<u32>,
) -> Option<Hook> {
    if rows.len() == 0 {
        None
    } else if parent == 0 {
        match m.opening {
            Some(o) => if o.key@ == key {
                match bar_on(outputs, o.output, 0) {
                    Some(bar) => Some(Hook::Bar { bar: bar as usize, x: o.x, width: o.width }),
                    None => None,
                }
            } else {
                None
            },
            None => None,
        }
    } else {
        match level_of(m.open@, key, parent, 0) {
            Some(level) => match row_of(m.open@[level].rows@, parent, 0) {
                Some(row) => Some(
                    Hook::Row { level: level as usize, row: row as usize, id: parent },
                ),
                None => None,
            },
            None => None,
        }
    }
}

/// How many menus stay open under what a new one hangs from: a submenu replaces anything
/// already open below the level it came from, and an item's own menu replaces everything.
pub open spec fn staying(m: Menus, hook: Option<Hook>) -> int {
    match hook {
        None => m.open@.len() as int,
        Some(Hook::Bar { .. }) => 0,
        Some(Hook::Row { level, .. }) => level + 1,
    }
}

/// Which corner of something.
#[derive(Clone, Copy, Debug, PartialEq, Eq, Structural)]
pub enum Corner {
    TopLeft,
    TopRight,
    BottomLeft,
    BottomRight,
}

/// Which corner of what it hangs from a menu is put at, and which way it grows from there: away
/// from the edge the bar is at, and a submenu beside its row.
pub open spec fn facing(edge: Edge, hook: Hook) -> (Corner, Corner) {
    match hook {
        Hook::Bar { .. } => match edge {
            Edge::Top => (Corner::BottomLeft, Corner::BottomRight),
            Edge::Bottom => (Corner::TopLeft, Corner::TopRight),
        },
        Hook::Row { .. } => (Corner::TopRight, Corner::BottomRight),
    }
}

/// Which corner of what it hangs from a menu is put at, and which way it grows from there.
pub fn menu_facing(edge: Edge, hook: Hook) -> (r: (Corner, Corner))
    ensures
        r == facing(edge, hook),
{
    match hook {
        Hook::Bar { .. } => match edge {
            Edge::Top => (Corner::BottomLeft, Corner::BottomRight),
            Edge::Bottom => (Corner::TopLeft, Corner::TopRight),
        },
        Hook::Row { .. } => (Corner::TopRight, Corner::BottomRight),
    }
}

/// How a menu may be moved to stay on screen.
#[derive(Clone, Copy, Debug, PartialEq, Eq, Structural)]
pub struct Constraints {
    pub slide_x: bool,
    pub slide_y: bool,
    pub flip_x: bool,
    pub flip_y: bool,
}

/// How a menu may be moved to stay on screen: it slides along the bar rather than hanging off
/// the end of the screen, and flips to the other side of what it hangs from when there is no
/// room the way it was asked for. A submenu flips across its row as well.
pub fn menu_constraints(submenu: bool) -> (c: Constraints)
    ensures
        c == (Constraints { slide_x: true, slide_y: true, flip_x: submenu, flip_y: true }),
{
    Constraints { slide_x: true, slide_y: true, flip_x: submenu, flip_y: true }
}

/// The submenu that the row under the pointer opens, if it opens one.
pub open spec fn pointed_at(rows: Seq<Row>, hover: Option<usize>) -> Option<i32> {
    match hover {
        Some(i) => if i < rows.len() && rows[i as int].enabled && rows[i as int].submenu {
            Some(rows[i as int].id)
        } else {
            None
        },
        None => None,
    }
}

/// The submenu that the row under the pointer opens.
pub fn pointed_submenu(rows: &Vec<Row>, hover: Option<usize>) -> (r: Option<i32>)
    ensures
        r == pointed_at(rows@, hover),
{
    match hover {
        Some(i) => if i < rows.len() && rows[i].enabled && rows[i].submenu {
            Some(rows[i].id)
        } else {
            None
        },
        None => None,
    }
}

/// Whether the submenu of a row is open already, or on its way.
pub open spec fn is_current(open: Option<i32>, in_flight: Option<(usize, i32)>, id: i32) -> bool {
    open == Some(id) || (match in_flight {
        Some((_, row)) => row == id,
        None => false,
    })
}

/// Whether the submenu of a row is open already, or on its way, and so not asked for again.
pub fn submenu_is_current(open: Option<i32>, in_flight: Option<(usize, i32)>, id: i32) -> (r: bool)
    ensures
        r == is_current(open, in_flight, id),
{
    let there = match open {
        Some(row) => row == id,
        None => false,
    };
    let coming = match in_flight {
        Some((_, row)) => row == id,
        None => false,
    };
    there || coming
}

/// Whether the pointer leaving a menu is given a moment before what was opened from it closes:
/// with a submenu open below, one waiting to be opened, or one on its way.
pub fn submenu_leave_needs_grace(below: usize, waiting: bool, in_flight: bool) -> (r: bool)
    ensures
        r == (below > 0 || waiting || in_flight),
{
    below > 0 || waiting || in_flight
}

/// What following the pointer across a menu comes to.
#[derive(Debug)]
pub enum Pointed {
    /// It is on the row it was on.
    Same,
    /// It is on another row, and there is nothing to ask for.
    Moved,
    /// It is on a row that opens another menu, which is asked for.
    Ask { key: String, id: i32 },
}

impl Menus {
    /// Every open menu belongs to one item and hangs from one screen.
    pub open spec fn wf(self) -> bool {
        forall|i: int|
            0 <= i < self.open@.len() ==> (#[trigger] self.open@[i]).output == self.open@[0].output
                && self.open@[i].key@ == self.open@[0].key@
    }

    pub fn new() -> (m: Menus)
        ensures
            m.wf(),
            m.open@.len() == 0,
            m.opening is None,
            m.in_flight is None,
    {
        Menus { open: Vec::new(), opening: None, in_flight: None }
    }

    /// Close every menu that is open.
    pub fn close(&mut self)
        ensures
            final(self).wf(),
            final(self).open@.len() == 0,
            final(self).opening is None,
            final(self).in_flight is None,
    {
        self.open = Vec::new();
        self.opening = None;
        self.in_flight = None;
    }

    /// Remember where to hang the menu that an item is being asked for.
    pub fn ask(&mut self, output: u32, key: &str, x: Number, width: Number)
        ensures
            final(self).wf(),
            final(self).open@.len() == 0,
            final(self).in_flight is None,
            final(self).opening matches Some(o) && o.output == output && o.key@ == key@ && o.x == x
                && o.width == width,
    {
        self.open = Vec::new();
        self.in_flight = None;
        self.opening = Some(Opening { output, key: owned(key), x, width });
    }

    fn keep(&mut self, many: usize)
        requires
            old(self).wf(),
            many <= old(self).open@.len(),
        ensures
            final(self).wf(),
            final(self).open@ == old(self).open@.take(many as int),
            final(self).opening == old(self).opening,
            final(self).in_flight == old(self).in_flight,
    {
        let ghost before = self.open@;
        self.open.truncate(many);
        proof {
            assert(self.open@ =~= before.take(many as int));
            assert forall|i: int| 0 <= i < self.open@.len() implies (#[trigger] self.open@[i]).output
                == self.open@[0].output && self.open@[i].key@ == self.open@[0].key@ by {
                assert(before[i].output == before[0].output);
                assert(before[i].key@ == before[0].key@);
            }
        }
    }

    /// Find what a menu that has come hangs from, and close what it replaces.
    pub fn hang(&mut self, key: &str, parent: i32, rows: &Vec<Row>, outputs: &Vec<u32>) -> (r:
        Option<Hook>)
        requires
            old(self).wf(),
        ensures
            final(self).wf(),
            r == hook_for(*old(self), key@, parent, rows@, outputs@),
            final(self).open@ == old(self).open@.take(staying(*old(self), r)),
            final(self).opening == if rows@.len() == 0 || parent == 0 {
                None
            } else {
                old(self).opening
            },
            final(self).in_flight == if parent != 0 && rows@.len() > 0 {
                None
            } else {
                old(self).in_flight
            },
            r matches Some(Hook::Bar { bar, .. }) ==> bar < outputs@.len(),
            r matches Some(Hook::Row { level, row, .. }) ==> level < final(self).open@.len() && row
                < final(self).open@[level as int].rows@.len() && final(self).open@[level as int].key@ == key@,
    {
        let ghost before = self.open@;
        assert(before.take(before.len() as int) =~= before);
        if rows.len() == 0 {
            self.opening = None;
            return None;
        }
        if parent == 0 {
            let (matched, output, x, width) = match &self.opening {
                Some(o) => (same(o.key.as_str(), key), o.output, o.x, o.width),
                None => {
                    return None;
                },
            };
            self.opening = None;
            if !matched {
                return None;
            }
            return match find_bar(outputs, output) {
                Some(bar) => {
                    self.keep(0);
                    Some(Hook::Bar { bar, x, width })
                },
                None => None,
            };
        }
        self.in_flight = None;
        let long = self.open.len();
        for level in 0..long
            invariant
                long == self.open@.len(),
                self.wf(),
                self.open@ == before,
                before == old(self).open@,
                self.opening == old(self).opening,
                self.in_flight is None,
                parent != 0,
                rows@.len() > 0,
                level_of(before, key@, parent, 0) == level_of(before, key@, parent, level as int),
        {
            if same(self.open[level].key.as_str(), key) && opens_another(
                &self.open[level].rows,
                parent,
            ) {
                let found = find_row(&self.open[level].rows, parent);
                return match found {
                    Some(row) => {
                        self.keep(level + 1);
                        Some(Hook::Row { level, row, id: parent })
                    },
                    None => None,
                };
            }
        }
        None
    }

    /// A menu is on screen now, hanging from this.
    pub fn opened(&mut self, hook: Hook, key: &str, rows: Vec<Row>, outputs: &Vec<u32>)
        requires
            old(self).wf(),
            match hook {
                Hook::Bar { bar, .. } => bar < outputs@.len() && old(self).open@.len() == 0,
                Hook::Row { level, .. } => level + 1 == old(self).open@.len() && old(
                    self,
                ).open@[level as int].key@ == key@,
            },
        ensures
            final(self).wf(),
            final(self).opening == old(self).opening,
            final(self).in_flight == old(self).in_flight,
            final(self).open@.len() == old(self).open@.len() + 1,
            final(self).open@.drop_last() == old(self).open@,
            ({
                let top = final(self).open@.last();
                &&& top.key@ == key@
                &&& top.rows == rows
                &&& top.hover is None
                &&& top.dirty
                &&& top.output == match hook {
                    Hook::Bar { bar, .. } => outputs@[bar as int],
                    Hook::Row { level, .. } => old(self).open@[level as int].output,
                }
                &&& top.parent == match hook {
                    Hook::Bar { .. } => 0,
                    Hook::Row { id, .. } => id,
                }
            }),
    {
        let ghost before = self.open@;
        let (output, parent) = match hook {
            Hook::Bar { bar, .. } => (outputs[bar], 0),
            Hook::Row { level, id, .. } => (self.open[level].output, id),
        };
        self.open.push(
            OpenMenu { key: owned(key), output, parent, rows, hover: None, dirty: true },
        );
        proof {
            assert(self.open@.drop_last() =~= before);
            assert forall|i: int| 0 <= i < self.open@.len() implies (#[trigger] self.open@[i]).output
                == self.open@[0].output && self.open@[i].key@ == self.open@[0].key@ by {
                if i < before.len() {
                    assert(before[i].output == before[0].output);
                    assert(before[i].key@ == before[0].key@);
                } else if before.len() > 0 {
                    let last = before.len() - 1;
                    assert(before[last].output == before[0].output);
                    assert(before[last].key@ == before[0].key@);
                }
            }
        }
    }

    /// Follow the pointer across a menu. Moving onto a row that opens another menu opens it,
    /// and moving off it closes whatever it opened, which is what makes a menu feel like a menu.
    pub fn pointer(&mut self, index: usize, hover: Option<usize>) -> (r: Pointed)
        requires
            old(self).wf(),
            index < old(self).open@.len(),
        ensures
            final(self).wf(),
            final(self).opening == old(self).opening,
            match followed(*old(self), index as int, hover) {
                Follow::Same => r is Same && *final(self) == *old(self),
                Follow::Stay => {
                    &&& r is Moved
                    &&& final(self).open@ == hovered(old(self).open@, index as int, hover)
                    &&& final(self).in_flight == old(self).in_flight
                },
                Follow::Close => {
                    &&& r is Moved
                    &&& final(self).open@ == hovered(old(self).open@, index as int, hover).take(
                        index + 1,
                    )
                    &&& final(self).in_flight is None
                },
                Follow::Ask(row) => {
                    &&& r matches Pointed::Ask { key, id } && key@ == old(
                        self,
                    ).open@[index as int].key@ && id == row
                    &&& final(self).open@ == hovered(old(self).open@, index as int, hover).take(
                        index + 1,
                    )
                    &&& final(self).in_flight == Some((index, row))
                },
            },
    {
        let ghost before = self.open@;
        let was = self.open[index].hover;
        let still = match (was, hover) {
            (Some(a), Some(b)) => a == b,
            (None, None) => true,
            _ => false,
        };
        if still {
            return Pointed::Same;
        }
        self.open[index].hover = hover;
        self.open[index].dirty = true;
        proof {
            assert(self.open@ =~= hovered(before, index as int, hover));
            assert forall|i: int| 0 <= i < self.open@.len() implies (#[trigger] self.open@[i]).output
                == self.open@[0].output && self.open@[i].key@ == self.open@[0].key@ by {
                assert(before[i].output == before[0].output);
                assert(before[i].key@ == before[0].key@);
            }
        }
        let pointed = pointed_submenu(&self.open[index].rows, hover);
        let long = self.open.len();
        let below = if index + 1 < long {
            Some(self.open[index + 1].parent)
        } else {
            None
        };
        match pointed {
            Some(id) => {
                if submenu_is_current(below, self.in_flight, id) {
                    return Pointed::Moved;
                }
                let key = self.open[index].key.clone();
                self.keep(index + 1);
                self.in_flight = Some((index, id));
                Pointed::Ask { key, id }
            },
            None => {
                self.keep(index + 1);
                self.in_flight = None;
                Pointed::Moved
            },
        }
    }

    /// Act on a click on a row of a menu: the choice to send, of which item. A row that opens
    /// another menu is opened by the pointer resting on it, so a click on one is not a choice.
    /// The menu has done its job either way, once there is one.
    pub fn click(&mut self, index: usize, row: Option<usize>) -> (r: Option<(String, i32)>)
        requires
            old(self).wf(),
            index < old(self).open@.len(),
        ensures
            final(self).wf(),
            match choice(old(self).open@[index as int], row) {
                Some(id) => {
                    &&& r matches Some((key, chose)) && key@ == old(self).open@[index as int].key@
                        && chose == id
                    &&& final(self).open@.len() == 0
                    &&& final(self).opening is None
                    &&& final(self).in_flight is None
                },
                None => r is None && *final(self) == *old(self),
            },
    {
        let menu = &self.open[index];
        let (key, id) = match row {
            Some(i) => {
                if i >= menu.rows.len() || !menu.rows[i].selectable || menu.rows[i].submenu {
                    return None;
                }
                (menu.key.clone(), menu.rows[i].id)
            },
            None => {
                return None;
            },
        };
        self.close();
        Some((key, id))
    }

    /// A menu was taken away, which is what a click anywhere else looks like. Everything opened
    /// from it goes with it.
    pub fn done(&mut self, index: usize)
        requires
            old(self).wf(),
            index < old(self).open@.len(),
        ensures
            final(self).wf(),
            final(self).open@ == old(self).open@.take(index as int),
            final(self).opening == old(self).opening,
            final(self).in_flight == old(self).in_flight,
    {
        self.keep(index);
    }

    /// A screen has gone. A menu hangs from a bar, and one being opened is waiting for a screen
    /// that will not be there when the rows arrive: both go with it.
    pub fn output_gone(&mut self, output: u32)
        requires
            old(self).wf(),
        ensures
            final(self).wf(),
            if hangs_from(*old(self), output) {
                final(self).open@.len() == 0 && final(self).opening is None && final(self).in_flight is None
            } else {
                *final(self) == *old(self)
            },
    {
        let first = self.open.len() > 0 && self.open[0].output == output;
        let awaited = match &self.opening {
            Some(o) => o.output == output,
            None => false,
        };
        if first || awaited {
            self.close();
        }
    }
}

/// What moving the pointer in a menu comes to.
pub enum Follow {
    /// It is on the row it was on.
    Same,
    /// What is open below stays.
    Stay,
    /// What is open below is closed.
    Close,
    /// What is open below is closed, and another menu is asked for.
    Ask(i32),
}

/// The row that the menu below a level was opened from.
pub open spec fn opened_below(open: Seq<OpenMenu>, index: int) -> Option<i32> {
    if index + 1 < open.len() {
        Some(open[index + 1].parent)
    } else {
        None
    }
}

/// What moving the pointer in a menu comes to.
pub open spec fn followed(m: Menus, index: int, hover: Option<usize>) -> Follow {
    if m.open@[index].hover == hover {
        Follow::Same
    } else {
        match pointed_at(m.open@[index].rows@, hover) {
            Some(id) => if is_current(opened_below(m.open@, index), m.in_flight, id) {
                Follow::Stay
            } else {
                Follow::Ask(id)
            },
            None => Follow::Close,
        }
    }
}

/// The menus with the pointer on another row of one of them.
pub open spec fn hovered(open: Seq<OpenMenu>, index: int, hover: Option<usize>) -> Seq<OpenMenu> {
    open.update(index, OpenMenu { hover, dirty: true, ..open[index] })
}

/// What a click on a row of a menu chooses.
pub open spec fn choice(m: OpenMenu, row: Option<usize>) -> Option<i32> {
    match row {
        Some(i) => if i < m.rows@.len() && m.rows@[i as int].selectable
            && !m.rows@[i as int].submenu {
            Some(m.rows@[i as int].id)
        } else {
            None
        },
        None => None,
    }
}

/// Whether a menu hangs from a screen, or is about to.
pub open spec fn hangs_from(m: Menus, output: u32) -> bool {
    (m.open@.len() > 0 && m.open@[0].output == output) || (match m.opening {
        Some(o) => o.output == output,
        None => false,
    })
}

/// A submenu replaces what was open below its row and leaves what is above alone: the stack is
/// one longer than the level the row is on, once it is there.
pub proof fn law_a_submenu_replaces_only_what_was_below(
    m: Menus,
    key: Seq<char>,
    parent: i32,
    rows: Seq<Row>,
    outputs: Seq<u32>,
)
    requires
        parent != 0,
    ensures
        hook_for(m, key, parent, rows, outputs) matches Some(hook) ==> (hook matches Hook::Row {
            level,
            ..
        } && level < m.open@.len() && staying(m, Some(hook)) == level + 1),
    decreases m.open@.len(),
{
    assert(m.open.len() == m.open@.len());
    lemma_level(m.open@, key, parent, 0);
}

proof fn lemma_level(open: Seq<OpenMenu>, key: Seq<char>, id: i32, from: int)
    requires
        0 <= from <= open.len(),
    ensures
        level_of(open, key, id, from) matches Some(level) ==> from <= level < open.len(),
    decreases open.len() - from,
{
    if from < open.len() {
        lemma_level(open, key, id, from + 1);
    }
}

} // verus!
