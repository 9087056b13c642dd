//! What a press, a click or a notch does, and to what.

use crate::app::click::{asks_for_menu, counted, deed_of, forwarded, item_of, moves, page_after};
use crate::app::click::{folded_after, turned, wording_after, DeedView, Move, Showing};
use crate::app::click::{among, TrayItem, Word};
use crate::app::gesture::{landed, lies_in, meaning, module_under, pressed, protocol_number};
use crate::app::gesture::{folded_group, folds, under, ActionTarget, Area, Frame, Gesture, Hit};
use crate::app::gesture::{PlacedGroup, PlacedModule};
use crate::collect::media::Command;
use crate::config::button::{action_of, Button};
use crate::extended::steps;
use crate::laws::number::law_less_is_fewer_steps;
use crate::number::Number;
use crate::status::Control;
use crate::text::opt_view;
use vstd::prelude::*;

verus! {

/// The number a button goes by.
pub open spec fn goes_by(b: Button) -> u32 {
    match b {
        Button::Left => 1,
        Button::Middle => 2,
        Button::Right => 3,
    }
}

/// The buttons of a mouse go by one, two and three, left to right, whatever the kernel calls
/// them, and no other button goes by anything.
pub proof fn law_a_button_goes_by_its_number(code: u32, number: u32, b: Button)
    ensures
        code == 0x110 ==> protocol_number(code) == Some(1u32),
        code == 0x112 ==> protocol_number(code) == Some(2u32),
        code == 0x111 ==> protocol_number(code) == Some(3u32),
        code < 0x110 || code > 0x112 ==> protocol_number(code) is None,
        pressed(number) == Some(b) <==> number == goes_by(b),
        pressed(number) is None <==> number == 0 || number > 3,
{
}

/// Whether the module runs a program of its own at this button.
pub open spec fn has_program(m: PlacedModule, b: Button) -> bool {
    m.on_click matches Some(actions) && (match b {
        Button::Left => actions.left is Some,
        Button::Middle => actions.middle is Some,
        Button::Right => actions.right is Some,
    })
}

/// Whether a module does something of its own at a button, whatever it is.
pub open spec fn has_use_for(m: PlacedModule, b: Button) -> bool {
    ||| has_program(m, b)
    ||| m.mute == Some(b)
    ||| m.refresh == Some(b)
    ||| m.alt is Some && m.alt_button == b
    ||| m.collapsible && m.collapse_button == b
}

/// A press does what the module has its button for: first the program, then muting, reading
/// again, turning the wordings and folding; and what it has no use for is handed on.
pub proof fn law_a_press_does_what_its_button_is_for(m: PlacedModule, b: Button)
    requires
        m.name is Some,
    ensures
        ({
            let does = meaning(m, goes_by(b));
            &&& has_program(m, b) <==> does == Gesture::Run(b)
            &&& does == Gesture::Mute <==> !has_program(m, b) && m.mute == Some(b)
            &&& does == Gesture::Refresh <==> !has_program(m, b) && m.mute != Some(b) && m.refresh
                == Some(b)
            &&& !has_program(m, b) && m.mute != Some(b) && m.refresh != Some(b) ==> {
                &&& m.alt is Some && m.alt_button == b ==> does == Gesture::Alt(
                    if m.alt->0 == 0 {
                        1
                    } else {
                        m.alt->0
                    },
                )
                &&& !(m.alt is Some && m.alt_button == b) && m.collapsible && m.collapse_button
                    == b ==> does == Gesture::Collapse
            }
            &&& does == Gesture::Forward <==> !has_use_for(m, b)
            &&& !(does is Page)
        }),
{
    let number = goes_by(b);
    assert(pressed(number) == Some(b));
    match m.on_click {
        Some(actions) => {
            assert(action_of(actions@, b) is Some == has_program(m, b));
        },
        None => {},
    }
}

/// What runs at a press is the program that is written for the button that was pressed.
pub proof fn law_a_press_runs_its_own_program(m: PlacedModule, b: Button, items: Seq<TrayItem>)
    requires
        has_program(m, b),
    ensures
        ({
            let argv = match b {
                Button::Left => m.on_click->0.left->0,
                Button::Middle => m.on_click->0.middle->0,
                Button::Right => m.on_click->0.right->0,
            };
            deed_of(m, goes_by(b), items) == DeedView::Run(crate::text::texts(argv@))
        }),
{
    assert(pressed(goes_by(b)) == Some(b));
    assert(action_of(m.on_click->0@, b) is Some);
}

/// A notch up turns a page back and a notch down turns one forward, where there are pages, and
/// is handed on where there are none.
pub proof fn law_a_notch_turns_pages(m: PlacedModule, up: bool)
    requires
        m.name is Some,
    ensures
        ({
            let number = if up {
                4u32
            } else {
                5u32
            };
            &&& m.paged matches Some(n) ==> meaning(m, number) == (Gesture::Page {
                count: if n == 0 {
                    1
                } else {
                    n
                },
                forward: !up,
            })
            &&& m.paged is None ==> meaning(m, number) == Gesture::Forward
        }),
{
}

/// Turning forward shows the next and after the last the first; turning back shows the one
/// before and before the first the last.
pub proof fn law_turning_goes_round(showing: int, count: int)
    requires
        0 <= showing < count,
    ensures
        showing + 1 < count ==> turned(showing, count, true) == showing + 1,
        showing + 1 == count ==> turned(showing, count, true) == 0,
        showing > 0 ==> turned(showing, count, false) == showing - 1,
        showing == 0 ==> turned(showing, count, false) == count - 1,
{
    if showing > 0 {
        assert((showing + count - 1) % count == showing - 1) by (nonlinear_arith)
            requires
                0 < showing < count,
        ;
    } else {
        assert((count - 1) % count == count - 1) by (nonlinear_arith)
            requires
                0 < count,
        ;
    }
    if showing + 1 == count {
        assert(count % count == 0) by (nonlinear_arith)
            requires
                0 < count,
        ;
    } else {
        assert((showing + 1) % count == showing + 1) by (nonlinear_arith)
            requires
                0 <= showing,
                showing + 1 < count,
        ;
    }
}

/// A click turns the wordings, turns the page or folds the module that was clicked: what it
/// shows afterwards is the next of what it showed.
pub proof fn law_a_click_turns_what_was_clicked(before: Showing, m: PlacedModule, button: u32)
    requires
        m.name is Some,
    ensures
        ({
            let name = m.name->0@;
            &&& meaning(m, button) matches Gesture::Alt(n) ==> wording_after(
                before,
                m,
                button,
                name,
            ) == turned(counted(before.alt@, name, 0) as int, n as int, true)
            &&& meaning(m, button) matches Gesture::Page { count, forward } ==> page_after(
                before,
                m,
                button,
                name,
            ) == turned(counted(before.pages@, name, 0) as int, count as int, forward)
            &&& meaning(m, button) is Collapse ==> folded_after(before, m, button, name) == !among(
                before.collapsed@,
                name,
            )
            &&& !(meaning(m, button) is Alt) ==> wording_after(before, m, button, name) == counted(
                before.alt@,
                name,
                0,
            )
            &&& !(meaning(m, button) is Page) ==> page_after(before, m, button, name) == counted(
                before.pages@,
                name,
                0,
            )
            &&& !(meaning(m, button) is Collapse) ==> folded_after(before, m, button, name)
                == among(before.collapsed@, name)
        }),
{
}

/// A notch up is louder, brighter and the next track; a notch down quieter, darker and the one
/// before; a click plays or pauses; and nothing else changes anything.
pub proof fn law_a_notch_up_is_more(step: Number, button: u32)
    ensures
        moves(Control::Volume, step, 4) == Move::Volume(step),
        moves(Control::Volume, step, 5) == Move::Volume(step.opposite()),
        moves(Control::Brightness, step, 4) == Move::Brightness(step),
        moves(Control::Brightness, step, 5) == Move::Brightness(step.opposite()),
        moves(Control::Media, step, 4) == Move::Media(Command::Next),
        moves(Control::Media, step, 5) == Move::Media(Command::Previous),
        moves(Control::Media, step, 1) == Move::Media(Command::PlayPause),
        button != 4 && button != 5 ==> moves(Control::Volume, step, button) == Move::Nothing
            && moves(Control::Brightness, step, button) == Move::Nothing,
        button != 1 && button != 4 && button != 5 ==> moves(Control::Media, step, button)
            == Move::Nothing,
{
}

/// The opposite of a finite number is as many steps the other way.
pub proof fn law_the_opposite_is_as_much_the_other_way(n: Number)
    requires
        n.finite(),
    ensures
        steps(n.opposite()) == -steps(n),
{
}

/// Whether the first item of a key has a menu that this button asks for: the right one always,
/// and the left one where the item is nothing but its menu.
pub proof fn law_a_menu_is_asked_for_with_the_right_button(
    items: Seq<TrayItem>,
    key: Seq<char>,
    i: int,
    button: u32,
)
    requires
        0 <= i < items.len(),
        items[i].key@ == key,
        forall|j: int| 0 <= j < i ==> (#[trigger] items[j]).key@ != key,
    ensures
        asks_for_menu(items, key, 3) <==> items[i].has_menu,
        asks_for_menu(items, key, 1) <==> items[i].has_menu && items[i].is_menu,
        button != 1 && button != 3 ==> !asks_for_menu(items, key, button),
{
    lemma_item(items, key, 0, i);
}

proof fn lemma_item(items: Seq<TrayItem>, key: Seq<char>, from: int, i: int)
    requires
        0 <= from <= i < items.len(),
        items[i].key@ == key,
        forall|j: int| from <= j < i ==> (#[trigger] items[j]).key@ != key,
    ensures
        item_of(items, key, from) == Some(i),
    decreases i - from,
{
    if from < i {
        lemma_item(items, key, from + 1, i);
    }
}

/// What is handed on goes where the module says: to the compositor for a left click alone, to
/// the tray item as what the button means to it, and to the provider always.
pub proof fn law_what_is_handed_on_goes_where_it_should(
    command: String,
    key: String,
    name: Option<String>,
    instance: Option<String>,
    button: u32,
    items: Seq<TrayItem>,
)
    ensures
        forwarded(None, button, items) == DeedView::Nothing,
        button == 1 ==> forwarded(Some(ActionTarget::Sway(command)), button, items)
            == DeedView::Sway(command@),
        button != 1 ==> forwarded(Some(ActionTarget::Sway(command)), button, items)
            == DeedView::Nothing,
        forwarded(Some(ActionTarget::I3Bar { name, instance }), button, items) == (
        DeedView::Block { name: opt_view(name), instance: opt_view(instance) }),
        asks_for_menu(items, key@, button) ==> forwarded(
            Some(ActionTarget::Tray { key }),
            button,
            items,
        ) == DeedView::Menu(key@),
        !asks_for_menu(items, key@, button) ==> {
            let to = Some(ActionTarget::Tray { key });
            &&& button == 1 ==> forwarded(to, button, items) == DeedView::Tray(
                key@,
                Word::Activate,
            )
            &&& button == 2 ==> forwarded(to, button, items) == DeedView::Tray(
                key@,
                Word::Secondary,
            )
            &&& button == 4 ==> forwarded(to, button, items) == DeedView::Tray(
                key@,
                Word::Scroll(-1i32),
            )
            &&& button == 5 ==> forwarded(to, button, items) == DeedView::Tray(
                key@,
                Word::Scroll(1i32),
            )
            &&& button == 0 || button == 3 || button > 5 ==> forwarded(to, button, items)
                == DeedView::Nothing
        },
{
}

/// A point lies in an area from its left edge to just short of its right one, and from its top
/// to just short of its bottom.
pub proof fn law_an_area_ends_short_of_its_far_edges(a: Area, x: Number, y: Number)
    requires
        a.left.finite() && a.right.finite() && a.top.finite() && a.bottom.finite(),
        x.finite() && y.finite(),
    ensures
        lies_in(a, x, y) <==> steps(a.left) <= steps(x) < steps(a.right) && steps(a.top) <= steps(y)
            < steps(a.bottom),
{
    law_less_is_fewer_steps(a.left, x);
    law_less_is_fewer_steps(x, a.left);
    law_less_is_fewer_steps(x, a.right);
    law_less_is_fewer_steps(a.top, y);
    law_less_is_fewer_steps(y, a.top);
    law_less_is_fewer_steps(y, a.bottom);
}

proof fn lemma_under(modules: Seq<PlacedModule>, x: Number, y: Number, from: int)
    requires
        0 <= from <= modules.len(),
    ensures
        match under(modules, x, y, from) {
            Some(i) => from <= i < modules.len() && lies_in(modules[i].area, x, y),
            None => forall|j: int|
                from <= j < modules.len() ==> !lies_in((#[trigger] modules[j]).area, x, y),
        },
    decreases modules.len() - from,
{
    if from < modules.len() && !lies_in(modules[from].area, x, y) {
        lemma_under(modules, x, y, from + 1);
    }
}

proof fn lemma_module_under(groups: Seq<PlacedGroup>, x: Number, y: Number, from: int)
    requires
        0 <= from <= groups.len(),
    ensures
        match module_under(groups, x, y, from) {
            Some((g, i)) => {
                &&& from <= g < groups.len()
                &&& 0 <= i < groups[g].modules@.len()
                &&& lies_in(groups[g].modules@[i].area, x, y)
            },
            None => forall|g: int, i: int|
                from <= g < groups.len() && 0 <= i < groups[g].modules@.len() ==> !lies_in(
                    (#[trigger] groups[g].modules@[i]).area,
                    x,
                    y,
                ),
        },
    decreases groups.len() - from,
{
    if from < groups.len() {
        lemma_under(groups[from].modules@, x, y, 0);
        lemma_module_under(groups, x, y, from + 1);
    }
}

proof fn lemma_folded_group(
    groups: Seq<PlacedGroup>,
    x: Number,
    y: Number,
    number: u32,
    from: int,
)
    requires
        0 <= from <= groups.len(),
    ensures
        match folded_group(groups, x, y, number, from) {
            Some(g) => from <= g < groups.len() && folds(groups[g], x, y, number),
            None => forall|g: int|
                from <= g < groups.len() ==> !folds(#[trigger] groups[g], x, y, number),
        },
    decreases groups.len() - from,
{
    if from < groups.len() && !folds(groups[from], x, y, number) {
        lemma_folded_group(groups, x, y, number, from + 1);
    }
}

/// A click lands on a group that folds at its button where one is under it, else on the module
/// that is under it, and on nothing where neither is.
pub proof fn law_a_click_lands_on_what_is_under_it(f: Frame, x: Number, y: Number, number: u32)
    ensures
        match landed(f, x, y, number) {
            Some(Hit::Group(g)) => {
                &&& 0 <= g < f.groups@.len()
                &&& lies_in(f.groups@[g].area, x, y)
                &&& f.groups@[g].collapse matches Some((_, b)) && goes_by(b) == number
            },
            Some(Hit::Module(g, i)) => {
                &&& 0 <= g < f.groups@.len()
                &&& 0 <= i < f.groups@[g].modules@.len()
                &&& lies_in(f.groups@[g].modules@[i].area, x, y)
                &&& forall|h: int|
                    0 <= h < f.groups@.len() ==> !(lies_in((#[trigger] f.groups@[h]).area, x, y) && (
                    f.groups@[h].collapse matches Some((_, b)) && goes_by(b) == number))
            },
            None => forall|g: int, i: int|
                0 <= g < f.groups@.len() && 0 <= i < f.groups@[g].modules@.len() ==> !lies_in(
                    (#[trigger] f.groups@[g].modules@[i]).area,
                    x,
                    y,
                ),
        },
{
    lemma_folded_group(f.groups@, x, y, number, 0);
    lemma_module_under(f.groups@, x, y, 0);
    if folded_group(f.groups@, x, y, number, 0) is None {
        assert forall|h: int| 0 <= h < f.groups@.len() implies !(lies_in(
            (#[trigger] f.groups@[h]).area,
            x,
            y,
        ) && (f.groups@[h].collapse matches Some((_, b)) && goes_by(b) == number)) by {
            assert(!folds(f.groups@[h], x, y, number));
        }
    }
}

} // verus!
