//! A group is what its table writes, and holds the modules it lists.

use crate::color::Color;
use crate::config::group::{group_of, member, members, module_table};
use crate::config::group::{written_separator_color, SeparatorColor};
use crate::config::known::{Known, WardrobeView};
use crate::config::module::{module_of, ModuleView};
use crate::config::raw::{EdgeShape, RawGroup, RawModule, SeparatorShape};
use crate::config::refusal::{RefusalView, SlipView};
use crate::config::source::SourceView;
use crate::config::style::color_of;
use crate::laws::module::time_taken;
use crate::laws::style::length_taken;
use crate::number::Number;
use vstd::prelude::*;

verus! {

/// Where in its table a group's color comes from: what it writes, or nothing at all, which lets
/// everything through.
pub open spec fn background_taken(
    written: Option<String>,
    after: Color,
    palette: Seq<(Seq<char>, Color)>,
) -> bool {
    &&& written is None ==> after.a == 0
    &&& written matches Some(text) ==> color_of(text@, palette) == Ok::<Color, SlipView>(after)
}

/// How a group looks is what its table writes, and what it leaves out is plain: it covers what
/// is behind it, both its edges are round by its own radius, and it has no ends and no
/// separators.
#[verifier::rlimit(40)]
pub proof fn law_a_group_is_what_its_table_writes(
    name: Seq<char>,
    g: RawGroup,
    tables: Seq<(String, RawModule)>,
    w: WardrobeView,
    known: Known,
    highest: i32,
)
    requires
        group_of(name, g, tables, w, known, highest) is Ok,
    ensures
        ({
            let made = group_of(name, g, tables, w, known, highest)->Ok_0;
            let one = Number { bits: 0x3ff0_0000_0000_0000 };
            let zero = Number { bits: 0 };
            &&& made.name == name
            &&& made.padding == g.padding
            &&& made.spacing == g.spacing
            &&& background_taken(g.background, made.background, w.palette)
            &&& made.opacity == (match g.opacity {
                Some(v) => v,
                None => one,
            })
            &&& made.opacity.comparable() && !made.opacity.less(zero) && !one.less(made.opacity)
            &&& g.edges is None ==> made.edges.left == EdgeShape::Round && made.edges.right
                == EdgeShape::Round && made.edges.radius == g.radius
            &&& g.edges matches Some(e) ==> {
                &&& made.edges.left == e.left
                &&& made.edges.right == e.right
                &&& made.edges.radius == (match e.radius {
                    Some(v) => v,
                    None => g.radius,
                })
            }
            &&& g.ends is None ==> made.ends.left == SeparatorShape::Nothing && made.ends.right
                == SeparatorShape::Nothing && made.ends.direction is None
            &&& g.ends matches Some(e) ==> {
                &&& made.ends.left == e.left
                &&& made.ends.right == e.right
                &&& made.ends.direction == e.direction
                &&& e.width is Some ==> length_taken(e.width, zero, made.ends.width)
                &&& e.overlap is Some ==> length_taken(e.overlap, zero, made.ends.overlap)
                &&& e.width is None ==> length_taken(
                    Some(made.separator.width),
                    zero,
                    made.ends.width,
                )
                &&& e.overlap is None ==> length_taken(
                    Some(made.separator.overlap),
                    zero,
                    made.ends.overlap,
                )
            }
            &&& g.separator is None ==> made.separator.shape == SeparatorShape::Nothing
            &&& g.separator matches Some(s) ==> {
                &&& made.separator.shape == s.shape
                &&& made.separator.direction == s.direction
                &&& length_taken(Some(s.width), zero, made.separator.width)
                &&& length_taken(Some(s.overlap), zero, made.separator.overlap)
                &&& written_separator_color(s.color@, w.palette) == Ok::<SeparatorColor, SlipView>(
                    made.separator.color,
                )
            }
            &&& made.collapse is Some <==> g.collapsible
            &&& made.collapse matches Some(fold) ==> {
                &&& g.collapse_button == Some(fold.button)
                &&& fold.style.icon is Some
                &&& time_taken(g.collapse_animation, fold.animation)
                &&& g.collapsed is None ==> fold.style == w.base
            }
        }),
{
}

/// The color of a separator is that of one of the modules it stands between, or of the words in
/// the one before it, or of the bar, or one of its own.
pub proof fn law_a_separator_takes_the_color_it_names(
    text: Seq<char>,
    palette: Seq<(Seq<char>, Color)>,
)
    ensures
        text == "previous"@ ==> written_separator_color(text, palette) == Ok::<
            SeparatorColor,
            SlipView,
        >(SeparatorColor::Previous),
        text == "next"@ ==> written_separator_color(text, palette) == Ok::<
            SeparatorColor,
            SlipView,
        >(SeparatorColor::Next),
        text == "foreground"@ ==> written_separator_color(text, palette) == Ok::<
            SeparatorColor,
            SlipView,
        >(SeparatorColor::Foreground),
        text == "background"@ ==> written_separator_color(text, palette) == Ok::<
            SeparatorColor,
            SlipView,
        >(SeparatorColor::Background),
        text.len() > 0 && (text[0] == '#' || text[0] == '$') ==> match color_of(text, palette) {
            Ok(c) => written_separator_color(text, palette) == Ok::<SeparatorColor, SlipView>(
                SeparatorColor::Fixed(c),
            ),
            Err(slip) => written_separator_color(text, palette) == Err::<SeparatorColor, SlipView>(
                slip,
            ),
        },
{
    reveal_strlit("previous");
    reveal_strlit("next");
    reveal_strlit("foreground");
    reveal_strlit("background");
    assert("foreground"@[0] == 'f' && "background"@[0] == 'b');
    assert("previous"@[0] == 'p' && "next"@[0] == 'n');
}

/// The place, in the order of a list, of each name of it that is not the star.
pub open spec fn told_apart(names: Seq<String>, upto: int) -> Seq<int>
    decreases upto,
{
    if upto <= 0 || upto > names.len() {
        Seq::empty()
    } else if names[upto - 1]@ == "*"@ {
        told_apart(names, upto - 1)
    } else {
        told_apart(names, upto - 1).push(upto - 1)
    }
}

/// The first table of a name is the one.
proof fn lemma_module_table(tables: Seq<(String, RawModule)>, name: Seq<char>, from: int)
    requires
        0 <= from <= tables.len(),
    ensures
        match module_table(tables, name, from) {
            Some(m) => exists|i: int|
                from <= i < tables.len() && (#[trigger] tables[i]).0@ == name && tables[i].1 == m,
            None => forall|i: int| from <= i < tables.len() ==> (#[trigger] tables[i]).0@ != name,
        },
    decreases tables.len() - from,
{
    if from < tables.len() && tables[from].0@ != name {
        lemma_module_table(tables, name, from + 1);
    } else if from < tables.len() {
        assert(tables[from].0@ == name);
    }
}

/// Whether a module is the one of this name: what the table of the name says, or, where there is
/// none, what the provider sends under that name, in the bar's own style.
pub open spec fn is_member(
    made: ModuleView,
    name: Seq<char>,
    tables: Seq<(String, RawModule)>,
    w: WardrobeView,
    known: Known,
    highest: i32,
) -> bool {
    &&& made.name == name
    &&& (exists|i: int|
        {
            &&& 0 <= i < tables.len()
            &&& (#[trigger] tables[i]).0@ == name
            &&& module_of(name, tables[i].1, w, known, highest) == Ok::<ModuleView, RefusalView>(
                made,
            )
        }) || {
        &&& forall|i: int| 0 <= i < tables.len() ==> (#[trigger] tables[i]).0@ != name
        &&& made.source == SourceView::Provider
        &&& made.style == w.base
        &&& made.states.len() == 0
        &&& made.format.written == "$text"@
    }
}

proof fn lemma_member(
    name: Seq<char>,
    tables: Seq<(String, RawModule)>,
    w: WardrobeView,
    known: Known,
    highest: i32,
)
    requires
        member(name, tables, w, known, highest) is Ok,
    ensures
        is_member(member(name, tables, w, known, highest)->Ok_0, name, tables, w, known, highest),
{
    reveal(member);
    lemma_module_table(tables, name, 0);
}

/// What stands from place `from` on is what is listed from there on.
proof fn lemma_members(
    names: Seq<String>,
    from: int,
    tables: Seq<(String, RawModule)>,
    w: WardrobeView,
    known: Known,
    highest: i32,
)
    requires
        0 <= from <= names.len(),
        members(names, from, tables, w, known, highest) is Ok,
    ensures
        ({
            let made = members(names, from, tables, w, known, highest)->Ok_0;
            let told = told_from(names, from);
            &&& made.len() == told.len()
            &&& forall|i: int|
                0 <= i < made.len() ==> is_member(
                    #[trigger] made[i],
                    names[told[i]]@,
                    tables,
                    w,
                    known,
                    highest,
                )
        }),
    decreases names.len() - from,
{
    if from < names.len() {
        lemma_members(names, from + 1, tables, w, known, highest);
        if names[from]@ != "*"@ {
            lemma_member(names[from]@, tables, w, known, highest);
            let rest = members(names, from + 1, tables, w, known, highest)->Ok_0;
            let made = members(names, from, tables, w, known, highest)->Ok_0;
            let told = told_from(names, from);
            assert forall|i: int| 0 <= i < made.len() implies is_member(
                #[trigger] made[i],
                names[told[i]]@,
                tables,
                w,
                known,
                highest,
            ) by {
                if i > 0 {
                    assert(made[i] == rest[i - 1]);
                    assert(told[i] == told_from(names, from + 1)[i - 1]);
                }
            }
        }
    }
}

/// The places from `from` on of the names that are not the star.
spec fn told_from(names: Seq<String>, from: int) -> Seq<int>
    decreases names.len() - from,
{
    if from < 0 || from >= names.len() {
        Seq::empty()
    } else if names[from]@ == "*"@ {
        told_from(names, from + 1)
    } else {
        seq![from] + told_from(names, from + 1)
    }
}

proof fn lemma_told(names: Seq<String>, from: int)
    requires
        0 <= from <= names.len(),
    ensures
        told_apart(names, names.len() as int) == told_apart(names, from) + told_from(names, from),
    decreases names.len() - from,
{
    if from < names.len() {
        lemma_told(names, from + 1);
        assert(told_apart(names, from + 1) + told_from(names, from + 1) =~= told_apart(names, from)
            + told_from(names, from));
    } else {
        assert(told_apart(names, from) + Seq::<int>::empty() =~= told_apart(names, from));
    }
}

/// A group holds a module for each name it lists, in the order it lists them, each one what the
/// table of its name writes; the star is no module, but says that the group takes what no other
/// group lists.
pub proof fn law_a_group_holds_what_it_lists(
    name: Seq<char>,
    g: RawGroup,
    tables: Seq<(String, RawModule)>,
    w: WardrobeView,
    known: Known,
    highest: i32,
)
    requires
        group_of(name, g, tables, w, known, highest) is Ok,
    ensures
        ({
            let made = group_of(name, g, tables, w, known, highest)->Ok_0;
            let listed = told_apart(g.modules@, g.modules@.len() as int);
            &&& made.wildcard <==> exists|i: int|
                0 <= i < g.modules@.len() && (#[trigger] g.modules@[i])@ == "*"@
            &&& !made.wildcard || listed.len() > 0 ==> {
                &&& made.modules.len() == listed.len()
                &&& forall|i: int|
                    0 <= i < made.modules.len() ==> is_member(
                        #[trigger] made.modules[i],
                        g.modules@[listed[i]]@,
                        tables,
                        w,
                        known,
                        highest,
                    )
            }
            &&& made.wildcard && listed.len() == 0 ==> made.modules.len() == 1
                && made.modules[0].name == "*"@ && made.modules[0].source == SourceView::Provider
        }),
{
    lemma_members(g.modules@, 0, tables, w, known, highest);
    lemma_told(g.modules@, 0);
    assert(told_apart(g.modules@, 0) + told_from(g.modules@, 0) =~= told_from(g.modules@, 0));
}

} // verus!
