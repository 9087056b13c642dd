//! A configuration is what its file writes, where it writes it.

use crate::collect::which::{CommandView, WhichView};
use crate::color::Color;
use crate::config::group::{group_of, GroupView};
use crate::config::known::{Known, WardrobeView};
use crate::config::module::ModuleView;
use crate::config::raw::{RawBar, RawConfig, RawGroup, RawMenu, RawModule, RawPosition};
use crate::config::raw::{RawStyle, SeparatorShape};
use crate::config::refusal::{RefusalView, SlipView};
use crate::config::share::{command_behind, commands_in};
use crate::config::style::{base, literal_color, palette_of, styles_of, StyleView};
use crate::config::whole::{all_modules, bar_of, config_of, group_table, menu_of, placed_group};
use crate::config::whole::{placed_groups, position_of, positions_of, programs, shared_position};
use crate::config::whole::{modules_of_groups, position_shows_blocks, programs_among};
use crate::config::whole::{provider_needed, shown_on, shows_blocks, BarView, Menu, PositionView};
use crate::laws::style::{color_taken, keys_taken, law_a_written_key_is_worn, length_taken};
use crate::number::Number;
use crate::text::texts;
use crate::time::Duration;
use vstd::prelude::*;

verus! {

/// A bar is what its table writes: at least a pixel high, and as its own table says in every
/// other way, with nothing behind it where it writes no color.
pub proof fn law_a_bar_is_what_its_table_writes(
    raw: RawBar,
    palette: Seq<(Seq<char>, Color)>,
    known: Known,
)
    requires
        bar_of(raw, palette, known) is Ok,
    ensures
        ({
            let bar = bar_of(raw, palette, known)->Ok_0;
            &&& bar.height >= 1
            &&& raw.height >= 1 ==> bar.height == raw.height
            &&& bar.position == raw.position
            &&& bar.layer == raw.layer
            &&& bar.margin == raw.margin
            &&& bar.gap == raw.gap
            &&& bar.exclusive == raw.exclusive
            &&& bar.radius == raw.background.radius
            &&& bar.icon_theme == raw.icon_theme@
            &&& bar.font_size == known.font_size
            &&& bar.font_fallback.len() == raw.fallback@.len()
            &&& forall|i: int|
                0 <= i < bar.font_fallback.len() ==> #[trigger] bar.font_fallback[i]
                    == raw.fallback@[i]@
            &&& bar.outputs.len() == raw.outputs@.len()
            &&& forall|i: int|
                0 <= i < bar.outputs.len() ==> #[trigger] bar.outputs[i] == raw.outputs@[i]@
            &&& length_taken(raw.icon_size, known.icon_size, bar.icon_size)
            &&& color_taken(
                raw.background.color,
                (Color { r: 0, g: 0, b: 0, a: 0 }),
                bar.background,
                palette,
            )
        }),
{
}

/// A bar is on a screen it names, on every one where it names none or the star, and on no other;
/// a screen without a name gets only a bar that is on every one.
pub proof fn law_a_bar_is_where_it_says(outputs: Seq<Seq<char>>, name: Seq<char>)
    ensures
        outputs.len() == 0 ==> shown_on(outputs, Some(name)) && shown_on(outputs, None),
        outputs.contains("*"@) ==> shown_on(outputs, Some(name)) && shown_on(outputs, None),
        outputs.contains(name) ==> shown_on(outputs, Some(name)),
        outputs.len() > 0 && !outputs.contains("*"@) ==> !shown_on(outputs, None),
        outputs.len() > 0 && !outputs.contains("*"@) && !outputs.contains(name) ==> !shown_on(
            outputs,
            Some(name),
        ),
{
}

/// Whether a color is another of which only so many percent are left, to the nearest part.
pub open spec fn quieter_by(quiet: Color, loud: Color, percent: int) -> bool {
    &&& quiet.r == loud.r && quiet.g == loud.g && quiet.b == loud.b
    &&& loud.a * percent - 51 <= quiet.a * 100 <= loud.a * percent + 51
}

/// A style starts plain: light text on nothing, eight to either side of it, square, as wide as it
/// is, and with the bar's own icon size but no icon.
pub proof fn law_a_style_starts_plain(icon_size: Number)
    ensures
        ({
            let plain = base(icon_size);
            let zero = Number { bits: 0 };
            &&& plain.background == (Color { r: 0, g: 0, b: 0, a: 0 })
            &&& plain.foreground == (Color { r: 205, g: 214, b: 244, a: 255 })
            &&& plain.padding == (Number { bits: 0x4020_0000_0000_0000 })
            &&& plain.radius == zero && plain.min_width == zero && plain.max_width == zero
            &&& plain.icon is None && plain.icon_gap is None && plain.icon_size == icon_size
        }),
{
}

/// No more than thirty-two programs run at once, the provider among them.
pub proof fn law_only_so_many_programs_run(raw: RawConfig, known: Known, highest: i32)
    requires
        config_of(raw, known, highest) is Ok,
    ensures
        programs(config_of(raw, known, highest)->Ok_0.positions) <= 32,
{
}

/// A menu is what its table writes; and where it writes nothing it looks like the bar: on its
/// background, in the color of its text, with quieter ones for what stands out less.
pub proof fn law_a_menu_is_what_its_table_writes(
    raw: RawMenu,
    bar: Color,
    start: StyleView,
    palette: Seq<(Seq<char>, Color)>,
)
    requires
        menu_of(raw, bar, start, palette) is Ok,
    ensures
        ({
            let menu = menu_of(raw, bar, start, palette)->Ok_0;
            let zero = Number { bits: 0 };
            &&& color_taken(raw.background, bar, menu.background, palette)
            &&& color_taken(raw.foreground, start.foreground, menu.foreground, palette)
            &&& color_taken(
                raw.highlight_foreground,
                start.foreground,
                menu.highlight_foreground,
                palette,
            )
            &&& color_taken(raw.highlight, menu.highlight, menu.highlight, palette)
            &&& color_taken(raw.disabled, menu.disabled, menu.disabled, palette)
            &&& color_taken(raw.separator, menu.separator, menu.separator, palette)
            &&& raw.highlight is None ==> quieter_by(menu.highlight, start.foreground, 18)
            &&& raw.disabled is None ==> quieter_by(menu.disabled, start.foreground, 45)
            &&& raw.separator is None ==> quieter_by(menu.separator, start.foreground, 25)
            &&& raw.highlight is None && raw.disabled is None && raw.separator is None
                ==> menu.highlight.a <= menu.separator.a <= menu.disabled.a
            &&& length_taken(Some(raw.padding), zero, menu.padding)
            &&& length_taken(Some(raw.radius), zero, menu.radius)
            &&& !menu.max_width.less(Number { bits: 0x4044_0000_0000_0000 })
            &&& raw.max_width.comparable() && !raw.max_width.less(
                Number { bits: 0x4044_0000_0000_0000 },
            ) ==> menu.max_width == raw.max_width
        }),
{
    let a = start.foreground.a as int;
    assert(a * 3_019_899 <= a * 4_194_304 <= a * 7_549_747 <= a * 16_777_216);
}

/// Whether a text writes this color.
#[verifier::opaque]
pub open spec fn writes(text: Seq<char>, c: Color) -> bool {
    literal_color(text) == Ok::<Color, SlipView>(c)
}

proof fn lemma_palette(raw: Seq<(String, String)>, from: int)
    requires
        0 <= from <= raw.len(),
        palette_of(raw, from) is Ok,
    ensures
        ({
            let made = palette_of(raw, from)->Ok_0;
            &&& made.len() == raw.len() - from
            &&& forall|i: int|
                0 <= i < made.len() ==> {
                    &&& (#[trigger] made[i]).0 == raw[from + i].0@
                    &&& writes(raw[from + i].1@, made[i].1)
                }
        }),
    decreases raw.len() - from,
{
    if from < raw.len() {
        lemma_palette(raw, from + 1);
        let made = palette_of(raw, from)->Ok_0;
        let rest = palette_of(raw, from + 1)->Ok_0;
        assert forall|i: int| 0 <= i < made.len() implies (#[trigger] made[i]).0 == raw[from
            + i].0@ && writes(raw[from + i].1@, made[i].1) by {
            if i > 0 {
                assert(made[i] == rest[i - 1]);
            } else {
                reveal(writes);
            }
        }
    }
}

/// A palette has each color under the name it is written under.
pub proof fn law_a_palette_has_each_color_under_its_name(raw: Seq<(String, String)>)
    requires
        palette_of(raw, 0) is Ok,
    ensures
        ({
            let made = palette_of(raw, 0)->Ok_0;
            &&& made.len() == raw.len()
            &&& forall|i: int|
                0 <= i < made.len() ==> {
                    &&& (#[trigger] made[i]).0 == raw[i].0@
                    &&& writes(raw[i].1@, made[i].1)
                }
        }),
{
    lemma_palette(raw, 0);
}

proof fn lemma_styles(
    raw: Seq<(String, RawStyle)>,
    from: int,
    start: StyleView,
    palette: Seq<(Seq<char>, Color)>,
    icons: Seq<Seq<char>>,
)
    requires
        0 <= from <= raw.len(),
        styles_of(raw, from, start, palette, icons) is Ok,
    ensures
        ({
            let made = styles_of(raw, from, start, palette, icons)->Ok_0;
            &&& made.len() == raw.len() - from
            &&& forall|i: int|
                0 <= i < made.len() ==> {
                    &&& (#[trigger] made[i]).0 == raw[from + i].0@
                    &&& keys_taken(raw[from + i].1, start, made[i].1, palette, icons)
                }
        }),
    decreases raw.len() - from,
{
    if from < raw.len() {
        lemma_styles(raw, from + 1, start, palette, icons);
        law_a_written_key_is_worn(start, raw[from].1, palette, icons);
        let made = styles_of(raw, from, start, palette, icons)->Ok_0;
        let rest = styles_of(raw, from + 1, start, palette, icons)->Ok_0;
        assert forall|i: int| 0 <= i < made.len() implies {
            &&& (#[trigger] made[i]).0 == raw[from + i].0@
            &&& keys_taken(raw[from + i].1, start, made[i].1, palette, icons)
        } by {
            if i > 0 {
                assert(made[i] == rest[i - 1]);
            }
        }
    }
}

/// A named style is what the table of its name writes over the bar's own.
pub proof fn law_a_named_style_is_what_its_table_writes(
    raw: Seq<(String, RawStyle)>,
    start: StyleView,
    palette: Seq<(Seq<char>, Color)>,
    icons: Seq<Seq<char>>,
)
    requires
        styles_of(raw, 0, start, palette, icons) is Ok,
    ensures
        ({
            let made = styles_of(raw, 0, start, palette, icons)->Ok_0;
            &&& made.len() == raw.len()
            &&& forall|i: int|
                0 <= i < made.len() ==> {
                    &&& (#[trigger] made[i]).0 == raw[i].0@
                    &&& keys_taken(raw[i].1, start, made[i].1, palette, icons)
                }
        }),
{
    lemma_styles(raw, 0, start, palette, icons);
}

/// Whether a group is what a table of its name writes.
#[verifier::opaque]
pub open spec fn is_group(
    made: GroupView,
    name: Seq<char>,
    groups: Seq<(String, RawGroup)>,
    modules: Seq<(String, RawModule)>,
    w: WardrobeView,
    known: Known,
    highest: i32,
) -> bool {
    &&& made.name == name
    &&& exists|i: int|
        {
            &&& 0 <= i < groups.len()
            &&& (#[trigger] groups[i]).0@ == name
            &&& group_of(name, groups[i].1, modules, w, known, highest) == Ok::<
                GroupView,
                RefusalView,
            >(made)
        }
}

proof fn lemma_group_table(tables: Seq<(String, RawGroup)>, name: Seq<char>, from: int)
    requires
        0 <= from <= tables.len(),
        group_table(tables, name, from) is Some,
    ensures
        exists|i: int|
            from <= i < tables.len() && (#[trigger] tables[i]).0@ == name && tables[i].1
                == group_table(tables, name, from)->0,
    decreases tables.len() - from,
{
    if from < tables.len() && tables[from].0@ != name {
        lemma_group_table(tables, name, from + 1);
    } else if from < tables.len() {
        assert(tables[from].0@ == name);
    }
}

proof fn lemma_one_placed(
    side: Seq<char>,
    joined: bool,
    name: Seq<char>,
    groups: Seq<(String, RawGroup)>,
    modules: Seq<(String, RawModule)>,
    w: WardrobeView,
    known: Known,
    highest: i32,
)
    requires
        placed_group(side, joined, name, groups, modules, w, known, highest) is Ok,
    ensures
        ({
            let made = placed_group(
                side,
                joined,
                name,
                groups,
                modules,
                w,
                known,
                highest,
            )->Ok_0;
            &&& is_group(made, name, groups, modules, w, known, highest)
            &&& joined ==> made.padding.equal(Number { bits: 0 }) && made.opacity.equal(
                Number { bits: 0x3ff0_0000_0000_0000 },
            )
        }),
{
    reveal(placed_group);
    reveal(is_group);
    lemma_group_table(groups, name, 0);
}

proof fn lemma_placed(
    side: Seq<char>,
    joined: bool,
    names: Seq<String>,
    from: int,
    groups: Seq<(String, RawGroup)>,
    modules: Seq<(String, RawModule)>,
    w: WardrobeView,
    known: Known,
    highest: i32,
)
    requires
        0 <= from <= names.len(),
        placed_groups(side, joined, names, from, groups, modules, w, known, highest) is Ok,
    ensures
        ({
            let made = placed_groups(
                side,
                joined,
                names,
                from,
                groups,
                modules,
                w,
                known,
                highest,
            )->Ok_0;
            &&& made.len() == names.len() - from
            &&& forall|i: int|
                0 <= i < made.len() ==> is_group(
                    #[trigger] made[i],
                    names[from + i]@,
                    groups,
                    modules,
                    w,
                    known,
                    highest,
                )
            &&& joined ==> forall|i: int|
                0 <= i < made.len() ==> (#[trigger] made[i]).padding.equal(Number { bits: 0 })
                    && made[i].opacity.equal(Number { bits: 0x3ff0_0000_0000_0000 })
        }),
    decreases names.len() - from,
{
    if from < names.len() {
        lemma_placed(side, joined, names, from + 1, groups, modules, w, known, highest);
        let name = names[from]@;
        lemma_one_placed(side, joined, name, groups, modules, w, known, highest);
        let made = placed_groups(
            side,
            joined,
            names,
            from,
            groups,
            modules,
            w,
            known,
            highest,
        )->Ok_0;
        let rest = placed_groups(
            side,
            joined,
            names,
            from + 1,
            groups,
            modules,
            w,
            known,
            highest,
        )->Ok_0;
        assert forall|i: int| 0 <= i < made.len() implies is_group(
            #[trigger] made[i],
            names[from + i]@,
            groups,
            modules,
            w,
            known,
            highest,
        ) by {
            if i > 0 {
                assert(made[i] == rest[i - 1]);
            }
        }
        if joined {
            assert forall|i: int| 0 <= i < made.len() implies (#[trigger] made[i]).padding.equal(
                Number { bits: 0 },
            ) && made[i].opacity.equal(Number { bits: 0x3ff0_0000_0000_0000 }) by {
                if i > 0 {
                    assert(made[i] == rest[i - 1]);
                }
            }
        }
    }
}

/// A position holds the groups it lists, in the order it lists them, each one what the table of
/// its name writes. Groups that are joined are solid and have no padding, so that they meet.
pub proof fn law_a_position_holds_what_it_lists(
    side: Seq<char>,
    raw: RawPosition,
    groups: Seq<(String, RawGroup)>,
    modules: Seq<(String, RawModule)>,
    w: WardrobeView,
    known: Known,
    highest: i32,
)
    requires
        position_of(side, raw, groups, modules, w, known, highest) is Ok,
    ensures
        ({
            let made = position_of(side, raw, groups, modules, w, known, highest)->Ok_0;
            &&& made.groups.len() == raw.groups@.len()
            &&& forall|i: int|
                0 <= i < made.groups.len() ==> is_group(
                    #[trigger] made.groups[i],
                    raw.groups@[i]@,
                    groups,
                    modules,
                    w,
                    known,
                    highest,
                )
            &&& made.separator is Some <==> (raw.separator matches Some(s) && s.shape
                != SeparatorShape::Nothing)
            &&& made.separator matches Some(sep) ==> {
                &&& sep.shape == raw.separator->0.shape
                &&& sep.direction == raw.separator->0.direction
                &&& sep.width == raw.separator->0.width
                &&& sep.width.finite() && (Number { bits: 0 }).less(sep.width)
                &&& forall|i: int|
                    0 <= i < made.groups.len() ==> (#[trigger] made.groups[i]).padding.equal(
                        Number { bits: 0 },
                    ) && made.groups[i].opacity.equal(Number { bits: 0x3ff0_0000_0000_0000 })
            }
        }),
{
    reveal(position_of);
    let joined = position_of(side, raw, groups, modules, w, known, highest)->Ok_0.separator is Some;
    lemma_placed(side, joined, raw.groups@, 0, groups, modules, w, known, highest);
}

/// Whether one group is another whose commands may have been given more fields to read, and
/// nothing else.
pub open spec fn same_but_fields(shown: GroupView, made: GroupView) -> bool {
    &&& shown == (GroupView { modules: shown.modules, ..made })
    &&& shown.modules.len() == made.modules.len()
    &&& forall|i: int|
        0 <= i < made.modules.len() ==> #[trigger] shown.modules[i] == (ModuleView {
            source: shown.modules[i].source,
            ..made.modules[i]
        })
    &&& forall|i: int|
        0 <= i < made.modules.len() && command_behind(made.modules[i]) is None
            ==> #[trigger] shown.modules[i] == made.modules[i]
}

/// Whether a group that is shown is what a table of its name writes.
pub open spec fn shows_group(
    shown: GroupView,
    name: Seq<char>,
    groups: Seq<(String, RawGroup)>,
    modules: Seq<(String, RawModule)>,
    w: WardrobeView,
    known: Known,
    highest: i32,
) -> bool {
    exists|made: GroupView|
        same_but_fields(shown, made) && #[trigger] is_group(
            made,
            name,
            groups,
            modules,
            w,
            known,
            highest,
        )
}

/// Whether what is shown at one end of the bar is what that end's table lists.
pub open spec fn is_position(
    shown: PositionView,
    raw: RawPosition,
    groups: Seq<(String, RawGroup)>,
    modules: Seq<(String, RawModule)>,
    w: WardrobeView,
    known: Known,
    highest: i32,
) -> bool {
    &&& shown.groups.len() == raw.groups@.len()
    &&& forall|i: int|
        0 <= i < shown.groups.len() ==> shows_group(
            #[trigger] shown.groups[i],
            raw.groups@[i]@,
            groups,
            modules,
            w,
            known,
            highest,
        )
    &&& shown.separator is Some <==> (raw.separator matches Some(s) && s.shape
        != SeparatorShape::Nothing)
}

proof fn lemma_shared(
    side: Seq<char>,
    commands: Seq<(Seq<char>, CommandView)>,
    raw: RawPosition,
    groups: Seq<(String, RawGroup)>,
    modules: Seq<(String, RawModule)>,
    w: WardrobeView,
    known: Known,
    highest: i32,
)
    requires
        position_of(side, raw, groups, modules, w, known, highest) is Ok,
    ensures
        is_position(
            shared_position(
                commands,
                position_of(side, raw, groups, modules, w, known, highest)->Ok_0,
            ),
            raw,
            groups,
            modules,
            w,
            known,
            highest,
        ),
{
    law_a_position_holds_what_it_lists(side, raw, groups, modules, w, known, highest);
    let made = position_of(side, raw, groups, modules, w, known, highest)->Ok_0;
    let shown = shared_position(commands, made);
    assert forall|i: int| 0 <= i < shown.groups.len() implies shows_group(
        #[trigger] shown.groups[i],
        raw.groups@[i]@,
        groups,
        modules,
        w,
        known,
        highest,
    ) by {
        let g = made.groups[i];
        assert(is_group(g, raw.groups@[i]@, groups, modules, w, known, highest));
        assert(same_but_fields(shown.groups[i], g));
    }
}

/// A configuration shows on the left what the left table lists, in the center what the center
/// table lists, and on the right what the right table lists; it has the bar and the menu its
/// tables write, and runs the provider it names.
pub proof fn law_a_configuration_is_what_its_file_writes(
    raw: RawConfig,
    known: Known,
    highest: i32,
)
    requires
        config_of(raw, known, highest) is Ok,
    ensures
        ({
            let c = config_of(raw, known, highest)->Ok_0;
            let palette = palette_of(raw.colors@, 0)->Ok_0;
            let start = base(c.bar.icon_size);
            let w = WardrobeView {
                palette,
                tables: raw.styles@,
                styles: styles_of(raw.styles@, 0, start, palette, known.icons@)->Ok_0,
                base: start,
            };
            &&& bar_of(raw.bar, palette, known) == Ok::<BarView, RefusalView>(c.bar)
            &&& menu_of(raw.menu, c.bar.background, start, palette) == Ok::<Menu, SlipView>(c.menu)
            &&& c.i3bar.command == raw.i3bar.command@
            &&& c.i3bar.args == texts(raw.i3bar.args@)
            &&& c.i3bar.names == texts(raw.i3bar.names@)
            &&& c.positions.len() == 3
            &&& is_position(
                c.positions[0],
                raw.left,
                raw.groups@,
                raw.modules@,
                w,
                known,
                highest,
            )
            &&& is_position(
                c.positions[1],
                raw.center,
                raw.groups@,
                raw.modules@,
                w,
                known,
                highest,
            )
            &&& is_position(
                c.positions[2],
                raw.right,
                raw.groups@,
                raw.modules@,
                w,
                known,
                highest,
            )
        }),
{
    reveal(positions_of);
    let palette = palette_of(raw.colors@, 0)->Ok_0;
    let bar = bar_of(raw.bar, palette, known)->Ok_0;
    let start = base(bar.icon_size);
    let w = WardrobeView {
        palette,
        tables: raw.styles@,
        styles: styles_of(raw.styles@, 0, start, palette, known.icons@)->Ok_0,
        base: start,
    };
    let positions = positions_of(raw, w, known, highest)->Ok_0;
    let commands = commands_in(all_modules(positions));
    lemma_shared("left"@, commands, raw.left, raw.groups@, raw.modules@, w, known, highest);
    lemma_shared("center"@, commands, raw.center, raw.groups@, raw.modules@, w, known, highest);
    lemma_shared("right"@, commands, raw.right, raw.groups@, raw.modules@, w, known, highest);
}

proof fn lemma_modules_of_groups(groups: Seq<GroupView>, g: int, k: int)
    requires
        0 <= g < groups.len(),
        0 <= k < groups[g].modules.len(),
    ensures
        modules_of_groups(groups).contains(groups[g].modules[k]),
    decreases groups.len(),
{
    let all = modules_of_groups(groups);
    let front = groups.drop_last();
    let before = modules_of_groups(front);
    let m = groups[g].modules[k];
    if g < front.len() {
        lemma_modules_of_groups(front, g, k);
        let i = choose|i: int| 0 <= i < before.len() && before[i] == m;
        assert(all[i] == m);
    } else {
        assert(all[before.len() + k] == m);
    }
}

/// Every module that is shown anywhere is one of the modules of the configuration.
pub proof fn law_every_module_shown_is_counted(positions: Seq<PositionView>, p: int, g: int, k: int)
    requires
        0 <= p < positions.len(),
        0 <= g < positions[p].groups.len(),
        0 <= k < positions[p].groups[g].modules.len(),
    ensures
        all_modules(positions).contains(positions[p].groups[g].modules[k]),
    decreases positions.len(),
{
    let all = all_modules(positions);
    let front = positions.drop_last();
    let before = all_modules(front);
    let m = positions[p].groups[g].modules[k];
    if p < front.len() {
        law_every_module_shown_is_counted(front, p, g, k);
        let i = choose|i: int| 0 <= i < before.len() && before[i] == m;
        assert(all[i] == m);
    } else {
        let own = modules_of_groups(positions.last().groups);
        lemma_modules_of_groups(positions.last().groups, g, k);
        let i = choose|i: int| 0 <= i < own.len() && own[i] == m;
        assert(all[before.len() + i] == m);
    }
}

/// The provider runs where a module shows a block of it, or a group takes whatever it sends, and
/// nowhere else.
pub proof fn law_the_provider_runs_where_it_is_shown(
    positions: Seq<PositionView>,
    p: int,
    g: int,
    k: int,
)
    ensures
        0 <= p < positions.len() && 0 <= g < positions[p].groups.len()
            && positions[p].groups[g].wildcard ==> provider_needed(positions),
        0 <= p < positions.len() && 0 <= g < positions[p].groups.len() && 0 <= k
            < positions[p].groups[g].modules.len() && positions[p].groups[g].modules[k].source
            is Provider ==> provider_needed(positions),
        (forall|i: int, j: int|
            0 <= i < positions.len() && 0 <= j < positions[i].groups.len() ==> !(
            #[trigger] positions[i].groups[j]).wildcard && forall|l: int|
                0 <= l < positions[i].groups[j].modules.len() ==> !((
                #[trigger] positions[i].groups[j].modules[l]).source is Provider))
            ==> !provider_needed(positions),
{
    if 0 <= p < positions.len() && 0 <= g < positions[p].groups.len() {
        let group = positions[p].groups[g];
        if 0 <= k < group.modules.len() && group.modules[k].source is Provider {
            assert(shows_blocks(group));
            assert(position_shows_blocks(positions[p]));
        }
        if group.wildcard {
            assert(shows_blocks(group));
            assert(position_shows_blocks(positions[p]));
        }
    }
    if provider_needed(positions) {
        let i = choose|i: int|
            0 <= i < positions.len() && position_shows_blocks(#[trigger] positions[i]);
        let j = choose|j: int|
            0 <= j < positions[i].groups.len() && shows_blocks(#[trigger] positions[i].groups[j]);
        let group = positions[i].groups[j];
        if !group.wildcard {
            let l = choose|l: int|
                0 <= l < group.modules.len() && (#[trigger] group.modules[l]).source is Provider;
            assert(positions[i].groups[j].modules[l].source is Provider);
        }
    }
}

/// One program runs for each command that is wanted, and none for anything else.
pub proof fn law_each_command_is_a_program(
    wanted: Seq<(WhichView, Duration)>,
    which: WhichView,
    every: Duration,
    n: int,
)
    requires
        0 <= n <= wanted.len(),
    ensures
        programs_among(wanted.push((which, every)), wanted.len() as int + 1) == programs_among(
            wanted,
            wanted.len() as int,
        ) + (if which is Command {
            1nat
        } else {
            0
        }),
        programs_among(wanted, 0) == 0,
{
    lemma_programs_front(wanted, (which, every), wanted.len() as int);
}

proof fn lemma_programs_front(
    wanted: Seq<(WhichView, Duration)>,
    more: (WhichView, Duration),
    n: int,
)
    requires
        0 <= n <= wanted.len(),
    ensures
        programs_among(wanted.push(more), n) == programs_among(wanted, n),
    decreases n,
{
    if n > 0 {
        lemma_programs_front(wanted, more, n - 1);
        assert(wanted.push(more)[n - 1] == wanted[n - 1]);
    }
}

} // verus!
