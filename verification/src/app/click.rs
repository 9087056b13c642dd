//! What a click does: what it changes of what is shown, and what has to be done about it.

use crate::app::gesture::{gesture, meaning, ActionTarget, Gesture, PlacedModule};
use crate::app::gesture::{SCROLL_DOWN, SCROLL_UP};
use crate::collect::media;
use crate::config::button::action_of;
use crate::number::Number;
use crate::status::Control;
use crate::text::{copy_text, copy_texts, opt_view, owned, same, texts};
use vstd::arithmetic::div_mod::{lemma_add_mod_noop, lemma_mod_bound};
use vstd::arithmetic::div_mod::{lemma_mod_self_0, lemma_small_mod};
use vstd::prelude::*;

verus! {

/// What modules are showing, by name, where a click has changed it.
#[derive(Debug)]
pub struct Showing {
    /// Modules showing another than their first wording.
    pub alt: Vec<(String, usize)>,
    /// Which page each module is turned to, for a source that says several things at once.
    pub pages: Vec<(String, usize)>,
    /// Modules folded down to their icon.
    pub collapsed: Vec<String>,
}

/// What is counted under a name, from `from` on: nothing, unless something was.
pub open spec fn counted(v: Seq<(String, usize)>, name: Seq<char>, from: int) -> usize
    decreases v.len() - from,
{
    if from < 0 || from >= v.len() {
        0
    } else if v[from].0@ == name {
        v[from].1
    } else {
        counted(v, name, from + 1)
    }
}

/// Whether a name is among names.
pub open spec fn among(v: Seq<String>, name: Seq<char>) -> bool {
    exists|i: int| 0 <= i < v.len() && (#[trigger] v[i])@ == name
}

/// Whether every name is counted under once.
pub open spec fn counted_once(v: Seq<(String, usize)>) -> bool {
    forall|i: int, j: int| 0 <= i < j < v.len() ==> (#[trigger] v[i]).0@ != (#[trigger] v[j]).0@
}

/// Whether every name is there once.
pub open spec fn named_once(v: Seq<String>) -> bool {
    forall|i: int, j: int| 0 <= i < j < v.len() ==> (#[trigger] v[i])@ != (#[trigger] v[j])@
}

proof fn lemma_counted_update(v: Seq<(String, usize)>, w: Seq<(String, usize)>, at: int, from: int)
    requires
        0 <= at < v.len(),
        0 <= from <= v.len(),
        w.len() == v.len(),
        w[at].0@ == v[at].0@,
        forall|i: int| 0 <= i < v.len() && i != at ==> #[trigger] w[i] == v[i],
        forall|i: int| 0 <= i < at ==> (#[trigger] v[i]).0@ != v[at].0@,
    ensures
        from <= at ==> counted(w, v[at].0@, from) == w[at].1,
        forall|name: Seq<char>|
            name != v[at].0@ ==> #[trigger] counted(w, name, from) == counted(v, name, from),
    decreases v.len() - from,
{
    if from < v.len() {
        lemma_counted_update(v, w, at, from + 1);
        if from != at {
            assert(w[from] == v[from]);
        }
        assert forall|name: Seq<char>| name != v[at].0@ implies #[trigger] counted(w, name, from)
            == counted(v, name, from) by {
            assert(counted(w, name, from + 1) == counted(v, name, from + 1));
        }
    }
}

proof fn lemma_counted_push(v: Seq<(String, usize)>, one: (String, usize), from: int)
    requires
        0 <= from <= v.len(),
        forall|i: int| from <= i < v.len() ==> (#[trigger] v[i]).0@ != one.0@,
    ensures
        counted(v.push(one), one.0@, from) == one.1,
        forall|name: Seq<char>|
            name != one.0@ ==> #[trigger] counted(v.push(one), name, from) == counted(
                v,
                name,
                from,
            ),
    decreases v.len() - from,
{
    let w = v.push(one);
    if from < v.len() {
        lemma_counted_push(v, one, from + 1);
        assert(w[from] == v[from]);
        assert forall|name: Seq<char>| name != one.0@ implies #[trigger] counted(w, name, from)
            == counted(v, name, from) by {
            assert(counted(w, name, from + 1) == counted(v, name, from + 1));
        }
    } else {
        assert(w[from] == one);
        assert forall|name: Seq<char>| name != one.0@ implies #[trigger] counted(w, name, from)
            == counted(v, name, from) by {
            assert(counted(w, name, from + 1) == 0);
        }
    }
}

fn count(v: &Vec<(String, usize)>, name: &str) -> (n: usize)
    ensures
        n == counted(v@, name@, 0),
{
    for i in 0..v.len()
        invariant
            counted(v@, name@, 0) == counted(v@, name@, i as int),
    {
        if same(v[i].0.as_str(), name) {
            return v[i].1;
        }
    }
    0
}

fn set_count(v: &mut Vec<(String, usize)>, name: &str, n: usize)
    ensures
        counted_once(old(v)@) ==> counted_once(final(v)@),
        counted(final(v)@, name@, 0) == n,
        forall|other: Seq<char>|
            other != name@ ==> #[trigger] counted(final(v)@, other, 0) == counted(
                old(v)@,
                other,
                0,
            ),
{
    let long = v.len();
    for i in 0..long
        invariant
            v@ == old(v)@,
            long == v@.len(),
            forall|j: int| 0 <= j < i ==> (#[trigger] v@[j]).0@ != name@,
    {
        if same(v[i].0.as_str(), name) {
            let ghost before = v@;
            v[i].1 = n;
            proof {
                lemma_counted_update(before, v@, i as int, 0);
            }
            return;
        }
    }
    proof {
        assert forall|one: (String, usize)| one.0@ == name@ implies counted(
            #[trigger] v@.push(one),
            name@,
            0,
        ) == one.1 && forall|other: Seq<char>|
            other != name@ ==> #[trigger] counted(v@.push(one), other, 0) == counted(
                v@,
                other,
                0,
            ) by {
            lemma_counted_push(v@, one, 0);
        }
    }
    v.push((owned(name), n));
}

fn toggle(v: &mut Vec<String>, name: &str)
    ensures
        named_once(old(v)@) ==> named_once(final(v)@),
        forall|other: Seq<char>|
            #[trigger] among(final(v)@, other) == if other == name@ {
                !among(old(v)@, other)
            } else {
                among(old(v)@, other)
            },
{
    let ghost before = v@;
    let mut kept: Vec<String> = Vec::new();
    let mut found = false;
    for i in 0..v.len()
        invariant
            v@ == before,
            found == exists|j: int| 0 <= j < i && (#[trigger] before[j])@ == name@,
            forall|j: int|
                0 <= j < kept@.len() ==> (#[trigger] kept@[j])@ != name@ && among(
                    before,
                    kept@[j]@,
                ),
            forall|j: int|
                0 <= j < kept@.len() ==> among(before.take(i as int), (#[trigger] kept@[j])@),
            named_once(before) ==> named_once(kept@),
            forall|j: int|
                0 <= j < i && (#[trigger] before[j])@ != name@ ==> among(kept@, before[j]@),
    {
        let ghost had = kept@;
        assert(before[i as int] == v@[i as int]);
        proof {
            assert forall|j: int| 0 <= j < had.len() implies among(
                before.take(i + 1),
                (#[trigger] had[j])@,
            ) && (named_once(before) ==> had[j]@ != before[i as int]@) by {
                let upto = before.take(i as int);
                let k = choose|k: int| 0 <= k < upto.len() && (#[trigger] upto[k])@ == had[j]@;
                assert(before.take(i + 1)[k]@ == had[j]@);
                assert(before[k]@ == had[j]@);
            }
            assert(before.take(i + 1)[i as int]@ == before[i as int]@);
        }
        if same(v[i].as_str(), name) {
            found = true;
        } else {
            kept.push(v[i].clone());
            proof {
                assert(kept@[had.len() as int]@ == before[i as int]@);
                assert(among(before, before[i as int]@));
                assert forall|j: int| 0 <= j <= i && (#[trigger] before[j])@ != name@ implies among(
                    kept@,
                    before[j]@,
                ) by {
                    if j < i {
                        let k = choose|k: int| 0 <= k < had.len() && (#[trigger] had[k])@
                            == before[j]@;
                        assert(kept@[k]@ == before[j]@);
                    } else {
                        assert(kept@[had.len() as int]@ == before[j]@);
                    }
                }
            }
        }
    }
    let ghost without = kept@;
    if !found {
        kept.push(owned(name));
    }
    proof {
        assert(found == among(before, name@));
        assert forall|other: Seq<char>| #[trigger] among(kept@, other) == if other == name@ {
            !among(before, other)
        } else {
            among(before, other)
        } by {
            if other == name@ {
                if !found {
                    assert(kept@[without.len() as int]@ == name@);
                }
            } else if among(before, other) {
                let j = choose|j: int| 0 <= j < before.len() && (#[trigger] before[j])@ == other;
                assert(among(without, before[j]@));
                let k = choose|k: int| 0 <= k < without.len() && (#[trigger] without[k])@ == other;
                assert(kept@[k]@ == other);
            } else if among(kept@, other) {
                let k = choose|k: int| 0 <= k < kept@.len() && (#[trigger] kept@[k])@ == other;
                assert(k < without.len());
                assert(without[k]@ == other);
            }
        }
    }
    *v = kept;
}

/// The page after this one of so many, or before it, and round to the other end.
pub open spec fn turned(showing: int, count: int, forward: bool) -> int {
    if forward {
        (showing + 1) % count
    } else {
        (showing + count - 1) % count
    }
}

fn turn(showing: usize, count: usize, forward: bool) -> (n: usize)
    requires
        count > 0,
    ensures
        n == turned(showing as int, count as int, forward),
        n < count,
{
    let at = showing % count;
    proof {
        let (s, c) = (showing as int, count as int);
        lemma_mod_bound(s, c);
        lemma_small_mod(at as nat, count as nat);
        lemma_mod_self_0(c);
        if forward {
            lemma_add_mod_noop(s, 1, c);
            lemma_add_mod_noop(at as int, 1, c);
            if at + 1 < c {
                lemma_small_mod((at + 1) as nat, count as nat);
            }
        } else {
            lemma_add_mod_noop(s, c - 1, c);
            lemma_add_mod_noop(at as int, c - 1, c);
            if at > 0 {
                lemma_add_mod_noop(at - 1, c, c);
                lemma_small_mod((at - 1) as nat, count as nat);
                assert(at + (c - 1) == (at - 1) + c);
            } else {
                lemma_small_mod((count - 1) as nat, count as nat);
            }
        }
    }
    if forward {
        if at + 1 == count {
            0
        } else {
            at + 1
        }
    } else if at == 0 {
        count - 1
    } else {
        at - 1
    }
}

/// Turning forward and back again is turning nothing, and so is the other way round.
pub proof fn law_turning_back_undoes_turning(showing: int, count: int, forward: bool)
    requires
        0 <= showing < count,
    ensures
        turned(turned(showing, count, forward), count, !forward) == showing,
{
    if forward {
        if showing + 1 < count {
            lemma_small_mod((showing + 1) as nat, count as nat);
            lemma_add_mod_noop(showing, count, count);
            lemma_small_mod(showing as nat, count as nat);
            assert((showing + 1) + count - 1 == showing + count);
        } else {
            assert(showing + 1 == count);
            lemma_small_mod((count - 1) as nat, count as nat);
        }
    } else if showing > 0 {
        lemma_add_mod_noop(showing - 1, count, count);
        lemma_small_mod((showing - 1) as nat, count as nat);
        assert(showing + count - 1 == (showing - 1) + count);
        lemma_small_mod(showing as nat, count as nat);
    } else {
        lemma_small_mod((count - 1) as nat, count as nat);
    }
}

/// What the bar can be asked to change itself.
#[derive(Clone, Copy, Debug, PartialEq, Eq, Structural)]
pub enum Move {
    Nothing,
    Media(media::Command),
    /// Move the volume by so many percentage points.
    Volume(Number),
    /// Move the brightness by so many percentage points.
    Brightness(Number),
}

/// What a press or a notch asks of something the bar can change. A player has buttons rather
/// than a range: the left one plays and pauses, and the wheel moves between tracks.
pub open spec fn moves(what: Control, step: Number, button: u32) -> Move {
    let delta = if button == SCROLL_UP {
        step
    } else {
        step.opposite()
    };
    match what {
        Control::Media => if button == 1 {
            Move::Media(media::Command::PlayPause)
        } else if button == SCROLL_UP {
            Move::Media(media::Command::Next)
        } else if button == SCROLL_DOWN {
            Move::Media(media::Command::Previous)
        } else {
            Move::Nothing
        },
        Control::Volume => if button == SCROLL_UP || button == SCROLL_DOWN {
            Move::Volume(delta)
        } else {
            Move::Nothing
        },
        Control::Brightness => if button == SCROLL_UP || button == SCROLL_DOWN {
            Move::Brightness(delta)
        } else {
            Move::Nothing
        },
    }
}

/// What a press or a notch asks of something the bar can change.
pub fn control(what: Control, step: Number, button: u32) -> (m: Move)
    ensures
        m == moves(what, step, button),
{
    let wheel = button == SCROLL_UP || button == SCROLL_DOWN;
    let delta = if button == SCROLL_UP {
        step
    } else {
        step.negated()
    };
    match what {
        Control::Media => if button == 1 {
            Move::Media(media::Command::PlayPause)
        } else if button == SCROLL_UP {
            Move::Media(media::Command::Next)
        } else if button == SCROLL_DOWN {
            Move::Media(media::Command::Previous)
        } else {
            Move::Nothing
        },
        Control::Volume => if wheel {
            Move::Volume(delta)
        } else {
            Move::Nothing
        },
        Control::Brightness => if wheel {
            Move::Brightness(delta)
        } else {
            Move::Nothing
        },
    }
}

/// What a tray icon's application can be told.
#[derive(Clone, Copy, Debug, PartialEq, Eq, Structural)]
pub enum Word {
    Activate,
    Secondary,
    /// A wheel notch, in the direction the protocol numbers it.
    Scroll(i32),
}

/// What a click on a tray icon tells its application, which decides what a click means.
pub open spec fn told(button: u32) -> Option<Word> {
    if button == 1 {
        Some(Word::Activate)
    } else if button == 2 {
        Some(Word::Secondary)
    } else if button == 4 {
        Some(Word::Scroll(-1i32))
    } else if button == 5 {
        Some(Word::Scroll(1))
    } else {
        None
    }
}

/// What a click on a tray icon tells its application.
pub fn tell_tray(button: u32) -> (r: Option<Word>)
    ensures
        r == told(button),
{
    match button {
        1 => Some(Word::Activate),
        2 => Some(Word::Secondary),
        4 => Some(Word::Scroll(-1)),
        5 => Some(Word::Scroll(1)),
        _ => None,
    }
}

/// An item of the tray, and what it says about its menu.
#[derive(Debug)]
pub struct TrayItem {
    pub key: String,
    pub has_menu: bool,
    /// Whether it offers nothing but its menu.
    pub is_menu: bool,
}

/// The item of a key, from `from` on.
pub open spec fn item_of(items: Seq<TrayItem>, key: Seq<char>, from: int) -> Option<int>
    decreases items.len() - from,
{
    if from < 0 || from >= items.len() {
        None
    } else if items[from].key@ == key {
        Some(from)
    } else {
        item_of(items, key, from + 1)
    }
}

/// Whether a click on a tray icon asks for its menu. A right click does, and so does a left one
/// on an item that says it is one: several offer no activation at all and that is how they say
/// so.
pub open spec fn asks_for_menu(items: Seq<TrayItem>, key: Seq<char>, button: u32) -> bool {
    match item_of(items, key, 0) {
        Some(i) => items[i].has_menu && (button == 3 || (button == 1 && items[i].is_menu)),
        None => false,
    }
}

fn wants_menu(items: &Vec<TrayItem>, key: &str, button: u32) -> (r: bool)
    ensures
        r == asks_for_menu(items@, key@, button),
{
    for i in 0..items.len()
        invariant
            item_of(items@, key@, 0) == item_of(items@, key@, i as int),
    {
        if same(items[i].key.as_str(), key) {
            return items[i].has_menu && (button == 3 || (button == 1 && items[i].is_menu));
        }
    }
    false
}

/// What has to be done about a click.
#[derive(Debug)]
pub enum Deed {
    Nothing,
    /// Run a program.
    Run(Vec<String>),
    /// Ask the source of a module for a fresh reading.
    Refresh(String),
    /// Draw again what is shown now.
    Redraw,
    /// Mute, or unmute.
    Mute,
    /// Run a command of the compositor's.
    Sway(String),
    /// Change something.
    Change(Move),
    /// Ask for a tray item's menu.
    Menu(String),
    /// Tell a tray item's application.
    Tray(String, Word),
    /// Tell the status provider that a block was clicked.
    Block { name: Option<String>, instance: Option<String> },
}

/// What a `Deed` says.
pub enum DeedView {
    Nothing,
    Run(Seq<Seq<char>>),
    Refresh(Seq<char>),
    Redraw,
    Mute,
    Sway(Seq<char>),
    Change(Move),
    Menu(Seq<char>),
    Tray(Seq<char>, Word),
    Block { name: Option<Seq<char>>, instance: Option<Seq<char>> },
}

impl View for Deed {
    type V = DeedView;

    open spec fn view(&self) -> DeedView {
        match self {
            Deed::Nothing => DeedView::Nothing,
            Deed::Run(argv) => DeedView::Run(texts(argv@)),
            Deed::Refresh(name) => DeedView::Refresh(name@),
            Deed::Redraw => DeedView::Redraw,
            Deed::Mute => DeedView::Mute,
            Deed::Sway(command) => DeedView::Sway(command@),
            Deed::Change(m) => DeedView::Change(*m),
            Deed::Menu(key) => DeedView::Menu(key@),
            Deed::Tray(key, word) => DeedView::Tray(key@, *word),
            Deed::Block { name, instance } => DeedView::Block {
                name: opt_view(*name),
                instance: opt_view(*instance),
            },
        }
    }
}

/// What a click that nothing on a module wanted does to what the module is showing.
pub open spec fn forwarded(
    action: Option<ActionTarget>,
    button: u32,
    items: Seq<TrayItem>,
) -> DeedView {
    match action {
        None => DeedView::Nothing,
        Some(ActionTarget::Sway(command)) => if button == 1 {
            DeedView::Sway(command@)
        } else {
            DeedView::Nothing
        },
        Some(ActionTarget::Control { what, step }) => DeedView::Change(moves(what, step, button)),
        Some(ActionTarget::Tray { key }) => if asks_for_menu(items, key@, button) {
            DeedView::Menu(key@)
        } else {
            match told(button) {
                Some(word) => DeedView::Tray(key@, word),
                None => DeedView::Nothing,
            }
        },
        Some(ActionTarget::I3Bar { name, instance }) => DeedView::Block {
            name: opt_view(name),
            instance: opt_view(instance),
        },
    }
}

fn forward(action: &Option<ActionTarget>, button: u32, items: &Vec<TrayItem>) -> (d: Deed)
    ensures
        d@ == forwarded(*action, button, items@),
{
    match action {
        None => Deed::Nothing,
        Some(ActionTarget::Sway(command)) => if button == 1 {
            Deed::Sway(command.clone())
        } else {
            Deed::Nothing
        },
        Some(ActionTarget::Control { what, step }) => Deed::Change(control(*what, *step, button)),
        Some(ActionTarget::Tray { key }) => if wants_menu(items, key.as_str(), button) {
            Deed::Menu(key.clone())
        } else {
            match tell_tray(button) {
                Some(word) => Deed::Tray(key.clone(), word),
                None => Deed::Nothing,
            }
        },
        Some(ActionTarget::I3Bar { name, instance }) => Deed::Block {
            name: copy_text(name),
            instance: copy_text(instance),
        },
    }
}

/// What a click on a module has done about it.
pub open spec fn deed_of(m: PlacedModule, button: u32, items: Seq<TrayItem>) -> DeedView {
    match meaning(m, button) {
        Gesture::Run(b) => match m.on_click {
            Some(actions) => match action_of(actions@, b) {
                Some(argv) => DeedView::Run(argv),
                None => DeedView::Nothing,
            },
            None => DeedView::Nothing,
        },
        Gesture::Mute => DeedView::Mute,
        Gesture::Refresh => match m.name {
            Some(name) => DeedView::Refresh(name@),
            None => DeedView::Nothing,
        },
        Gesture::Page { .. } | Gesture::Alt(_) | Gesture::Collapse => DeedView::Redraw,
        Gesture::Forward => forwarded(m.action, button, items),
    }
}

/// Which page a module of a name is turned to, after a click on a module.
pub open spec fn page_after(
    before: Showing,
    m: PlacedModule,
    button: u32,
    name: Seq<char>,
) -> int {
    let was = counted(before.pages@, name, 0) as int;
    match (meaning(m, button), m.name) {
        (Gesture::Page { count, forward }, Some(own)) => if own@ == name {
            turned(was, count as int, forward)
        } else {
            was
        },
        _ => was,
    }
}

/// Which wording a module of a name is showing, after a click on a module.
pub open spec fn wording_after(
    before: Showing,
    m: PlacedModule,
    button: u32,
    name: Seq<char>,
) -> int {
    let was = counted(before.alt@, name, 0) as int;
    match (meaning(m, button), m.name) {
        (Gesture::Alt(views), Some(own)) => if own@ == name {
            turned(was, views as int, true)
        } else {
            was
        },
        _ => was,
    }
}

/// Whether a module of a name is folded, after a click on a module.
pub open spec fn folded_after(
    before: Showing,
    m: PlacedModule,
    button: u32,
    name: Seq<char>,
) -> bool {
    let was = among(before.collapsed@, name);
    match (meaning(m, button), m.name) {
        (Gesture::Collapse, Some(own)) => if own@ == name {
            !was
        } else {
            was
        },
        _ => was,
    }
}

impl Showing {
    /// Whether everything is remembered of a name once.
    pub open spec fn wf(self) -> bool {
        counted_once(self.alt@) && counted_once(self.pages@) && named_once(self.collapsed@)
    }

    /// Every module as it is to begin with.
    pub fn new() -> (s: Showing)
        ensures
            s.wf(),
            forall|name: Seq<char>| #[trigger] counted(s.alt@, name, 0) == 0,
            forall|name: Seq<char>| #[trigger] counted(s.pages@, name, 0) == 0,
            forall|name: Seq<char>| !#[trigger] among(s.collapsed@, name),
    {
        Showing { alt: Vec::new(), pages: Vec::new(), collapsed: Vec::new() }
    }

    /// Which of its wordings a module is showing.
    pub fn wording(&self, name: &str) -> (n: usize)
        ensures
            n == counted(self.alt@, name@, 0),
    {
        count(&self.alt, name)
    }

    /// Which page a module is turned to.
    pub fn page(&self, name: &str) -> (n: usize)
        ensures
            n == counted(self.pages@, name@, 0),
    {
        count(&self.pages, name)
    }

    /// Whether a module is folded down to its icon.
    pub fn is_folded(&self, name: &str) -> (r: bool)
        ensures
            r == among(self.collapsed@, name@),
    {
        for i in 0..self.collapsed.len()
            invariant
                forall|j: int| 0 <= j < i ==> (#[trigger] self.collapsed@[j])@ != name@,
        {
            if same(self.collapsed[i].as_str(), name) {
                return true;
            }
        }
        false
    }

    /// Fold what has a name, or unfold it: what a click on a group that folds comes to.
    pub fn fold(&mut self, name: &str)
        ensures
            old(self).wf() ==> final(self).wf(),
            forall|other: Seq<char>|
                #[trigger] among(final(self).collapsed@, other) == if other == name@ {
                    !among(old(self).collapsed@, other)
                } else {
                    among(old(self).collapsed@, other)
                },
            final(self).alt == old(self).alt,
            final(self).pages == old(self).pages,
    {
        toggle(&mut self.collapsed, name);
    }

    /// Change what is shown the way a click on a module says, and say what has to be done about
    /// it.
    pub fn dispatch_click(
        &mut self,
        module: &PlacedModule,
        button: u32,
        items: &Vec<TrayItem>,
    ) -> (d: Deed)
        ensures
            d@ == deed_of(*module, button, items@),
            old(self).wf() ==> final(self).wf(),
            forall|name: Seq<char>| #[trigger]
                counted(final(self).pages@, name, 0) == page_after(
                    *old(self),
                    *module,
                    button,
                    name,
                ),
            forall|name: Seq<char>| #[trigger]
                counted(final(self).alt@, name, 0) == wording_after(
                    *old(self),
                    *module,
                    button,
                    name,
                ),
            forall|name: Seq<char>| #[trigger]
                among(final(self).collapsed@, name) == folded_after(
                    *old(self),
                    *module,
                    button,
                    name,
                ),
    {
        match gesture(module, button) {
            Gesture::Run(b) => match &module.on_click {
                Some(actions) => match actions.for_button(b) {
                    Some(argv) => Deed::Run(copy_texts(argv)),
                    None => Deed::Nothing,
                },
                None => Deed::Nothing,
            },
            Gesture::Mute => Deed::Mute,
            Gesture::Refresh => match &module.name {
                Some(name) => Deed::Refresh(name.clone()),
                None => Deed::Nothing,
            },
            Gesture::Page { count: pages, forward } => {
                if let Some(name) = &module.name {
                    let was = count(&self.pages, name.as_str());
                    set_count(&mut self.pages, name.as_str(), turn(was, pages, forward));
                }
                Deed::Redraw
            },
            Gesture::Alt(views) => {
                if let Some(name) = &module.name {
                    let was = count(&self.alt, name.as_str());
                    set_count(&mut self.alt, name.as_str(), turn(was, views, true));
                }
                Deed::Redraw
            },
            Gesture::Collapse => {
                if let Some(name) = &module.name {
                    toggle(&mut self.collapsed, name.as_str());
                }
                Deed::Redraw
            },
            Gesture::Forward => forward(&module.action, button, items),
        }
    }
}

/// Folding a module a second time unfolds it: clicking twice on what folds it leaves it as it
/// was.
pub proof fn law_folding_twice_is_folding_nothing(
    first: Showing,
    second: Showing,
    m: PlacedModule,
    button: u32,
    name: Seq<char>,
)
    requires
        meaning(m, button) == Gesture::Collapse,
        among(second.collapsed@, name) == folded_after(first, m, button, name),
    ensures
        folded_after(second, m, button, name) == among(first.collapsed@, name),
{
}

/// A click on a module changes nothing that is remembered of any other.
pub proof fn law_a_click_leaves_other_modules_alone(
    before: Showing,
    m: PlacedModule,
    button: u32,
    name: Seq<char>,
)
    requires
        m.name is None || m.name->0@ != name,
    ensures
        page_after(before, m, button, name) == counted(before.pages@, name, 0),
        wording_after(before, m, button, name) == counted(before.alt@, name, 0),
        folded_after(before, m, button, name) == among(before.collapsed@, name),
{
}

} // verus!
