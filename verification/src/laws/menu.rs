//! Where a menu hangs, what opens under the pointer, and what a click in it chooses.

use crate::app::menu::{bar_on, choice, facing, followed, hangs_from, hook_for, hovered};
use crate::app::menu::{level_of, opens, pointed_at, row_of, staying};
use crate::app::menu::{Corner, Follow, Hook, Menus, OpenMenu, Row};
use crate::config::raw::Edge;
use crate::number::Number;
use vstd::prelude::*;

verus! {

proof fn lemma_bar_on(outputs: Seq<u32>, output: u32, from: int)
    requires
        0 <= from <= outputs.len(),
    ensures
        match bar_on(outputs, output, from) {
            Some(i) => from <= i < outputs.len() && outputs[i] == output,
            None => forall|j: int| from <= j < outputs.len() ==> #[trigger] outputs[j] != output,
        },
    decreases outputs.len() - from,
{
    if from < outputs.len() && outputs[from] != output {
        lemma_bar_on(outputs, output, from + 1);
    }
}

proof fn lemma_row_of(rows: Seq<Row>, id: i32, from: int)
    requires
        0 <= from <= rows.len(),
    ensures
        match row_of(rows, id, from) {
            Some(i) => from <= i < rows.len() && rows[i].id == id,
            None => forall|j: int| from <= j < rows.len() ==> (#[trigger] rows[j]).id != id,
        },
    decreases rows.len() - from,
{
    if from < rows.len() && rows[from].id != id {
        lemma_row_of(rows, id, from + 1);
    }
}

proof fn lemma_level_of(open: Seq<OpenMenu>, key: Seq<char>, id: i32, from: int)
    requires
        0 <= from <= open.len(),
    ensures
        match level_of(open, key, id, from) {
            Some(i) => from <= i < open.len() && open[i].key@ == key && opens(open[i].rows@, id),
            None => forall|j: int|
                from <= j < open.len() ==> (#[trigger] open[j]).key@ != key || !opens(
                    open[j].rows@,
                    id,
                ),
        },
    decreases open.len() - from,
{
    if from < open.len() && !(open[from].key@ == key && opens(open[from].rows@, id)) {
        lemma_level_of(open, key, id, from + 1);
    }
}

/// A menu hangs from the bar it was asked for on, at the icon that was clicked, and a submenu
/// from the row that opens it. One that nobody asked for, or that has nothing in it, hangs
/// nowhere.
pub proof fn law_a_menu_hangs_where_it_was_asked_for(
    m: Menus,
    key: Seq<char>,
    parent: i32,
    rows: Seq<Row>,
    outputs: Seq<u32>,
)
    requires
        outputs.len() <= usize::MAX,
        m.open@.len() <= usize::MAX,
        forall|i: int|
            0 <= i < m.open@.len() ==> (#[trigger] m.open@[i]).rows@.len() <= usize::MAX,
    ensures
        rows.len() == 0 ==> hook_for(m, key, parent, rows, outputs) is None,
        match hook_for(m, key, parent, rows, outputs) {
            Some(Hook::Bar { bar, x, width }) => {
                &&& parent == 0
                &&& m.opening matches Some(o) && o.key@ == key && o.x == x && o.width == width
                    && bar < outputs.len() && outputs[bar as int] == o.output
            },
            Some(Hook::Row { level, row, id }) => {
                &&& parent != 0 && id == parent
                &&& level < m.open@.len() && m.open@[level as int].key@ == key
                &&& row < m.open@[level as int].rows@.len()
                &&& m.open@[level as int].rows@[row as int].id == parent
                &&& opens(m.open@[level as int].rows@, parent)
            },
            None => {
                ||| rows.len() == 0
                ||| parent == 0 && (m.opening is None || m.opening->0.key@ != key
                    || !outputs.contains(m.opening->0.output))
                ||| parent != 0 && forall|i: int|
                    0 <= i < m.open@.len() ==> (#[trigger] m.open@[i]).key@ != key || !opens(
                        m.open@[i].rows@,
                        parent,
                    )
            },
        },
{
    if rows.len() > 0 && parent == 0 {
        if let Some(o) = m.opening {
            lemma_bar_on(outputs, o.output, 0);
        }
    }
    if rows.len() > 0 && parent != 0 {
        lemma_level_of(m.open@, key, parent, 0);
        if let Some(level) = level_of(m.open@, key, parent, 0) {
            lemma_row_of(m.open@[level].rows@, parent, 0);
            if row_of(m.open@[level].rows@, parent, 0) is None {
                let i = choose|i: int|
                    0 <= i < m.open@[level].rows@.len() && (#[trigger] m.open@[level].rows@[i]).id
                        == parent && m.open@[level].rows@[i].submenu;
                assert(m.open@[level].rows@[i].id != parent);
            }
        }
    }
}

/// A menu that hangs from the bar replaces every other; one that hangs from a row replaces what
/// was below the row's menu and leaves what is above; and nothing is replaced by a menu that
/// hangs nowhere.
pub proof fn law_a_menu_replaces_what_was_below(
    m: Menus,
    bar: usize,
    x: Number,
    width: Number,
    level: usize,
    row: usize,
    id: i32,
)
    ensures
        staying(m, Some(Hook::Bar { bar, x, width })) == 0,
        staying(m, Some(Hook::Row { level, row, id })) == level + 1,
        staying(m, None) == m.open@.len(),
{
}

/// A menu grows away from the edge its bar is on, and a submenu to the right of its row.
pub proof fn law_a_menu_grows_away_from_its_bar(
    bar: usize,
    x: Number,
    width: Number,
    level: usize,
    row: usize,
    id: i32,
    edge: Edge,
)
    ensures
        facing(Edge::Top, Hook::Bar { bar, x, width }) == (
            Corner::BottomLeft,
            Corner::BottomRight,
        ),
        facing(Edge::Bottom, Hook::Bar { bar, x, width }) == (Corner::TopLeft, Corner::TopRight),
        facing(edge, Hook::Row { level, row, id }) == (Corner::TopRight, Corner::BottomRight),
{
}

/// A row opens a submenu under the pointer exactly when it has one and can be chosen.
pub proof fn law_a_row_opens_its_own_submenu(rows: Seq<Row>, hover: Option<usize>, id: i32)
    ensures
        pointed_at(rows, hover) == Some(id) <==> (hover matches Some(i) && i < rows.len()
            && rows[i as int].id == id && rows[i as int].enabled && rows[i as int].submenu),
        pointed_at(rows, None) is None,
{
}

/// Moving onto a row whose submenu is there or on its way changes nothing below it; onto another
/// with a submenu asks for that one; and onto one without any closes what was open below.
pub proof fn law_the_pointer_opens_one_submenu_at_a_time(
    m: Menus,
    index: int,
    hover: Option<usize>,
    id: i32,
)
    requires
        0 <= index < m.open@.len(),
    ensures
        ({
            let does = followed(m, index, hover);
            let there = index + 1 < m.open@.len() && m.open@[index + 1].parent == id;
            let coming = m.in_flight matches Some((_, row)) && row == id;
            &&& does is Same <==> m.open@[index].hover == hover
            &&& !(does is Same) && pointed_at(m.open@[index].rows@, hover) == Some(id) ==> {
                &&& there || coming <==> does is Stay
                &&& !there && !coming ==> does == Follow::Ask(id)
            }
            &&& !(does is Same) && pointed_at(m.open@[index].rows@, hover) is None ==> does is Close
        }),
{
}

/// Where the pointer is, is all that moving it changes of the menus above and of the one it is
/// in, which is drawn again.
pub proof fn law_moving_the_pointer_moves_the_pointer(
    open: Seq<OpenMenu>,
    index: int,
    hover: Option<usize>,
)
    requires
        0 <= index < open.len(),
    ensures
        ({
            let after = hovered(open, index, hover);
            &&& after.len() == open.len()
            &&& after[index].hover == hover
            &&& after[index].dirty
            &&& after[index].key == open[index].key
            &&& after[index].rows == open[index].rows
            &&& after[index].parent == open[index].parent
            &&& after[index].output == open[index].output
            &&& forall|j: int|
                0 <= j < open.len() && j != index ==> #[trigger] after[j] == open[j]
        }),
{
}

/// A click chooses the row it lands on, where the row can be chosen and does not open a menu.
pub proof fn law_a_click_chooses_the_row_it_lands_on(m: OpenMenu, row: Option<usize>, id: i32)
    ensures
        choice(m, row) == Some(id) <==> (row matches Some(i) && i < m.rows@.len()
            && m.rows@[i as int].id == id && m.rows@[i as int].selectable
            && !m.rows@[i as int].submenu),
        choice(m, None) is None,
{
}

/// The menus go with the screen they are on, or were asked for on, and with no other.
pub proof fn law_menus_go_with_their_screen(m: Menus, output: u32)
    ensures
        m.open@.len() == 0 && m.opening is None ==> !hangs_from(m, output),
        m.open@.len() > 0 && m.open@[0].output == output ==> hangs_from(m, output),
        m.opening matches Some(o) ==> (o.output == output ==> hangs_from(m, output)),
        hangs_from(m, output) ==> (m.open@.len() > 0 && m.open@[0].output == output) || (
        m.opening is Some && m.opening->0.output == output),
{
}

} // verus!
