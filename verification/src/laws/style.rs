//! What a style says, key by key.

use crate::color::Color;
use crate::config::icon::{written_icon, IconView};
use crate::config::raw::RawStyle;
use crate::config::refusal::SlipView;
use crate::config::style::{color_of, literal_color, named_color, overlaid, StyleView};
use crate::number::Number;
use vstd::prelude::*;

verus! {

/// Whether a color key came out as it is written: what it writes, or what was underneath.
pub open spec fn color_taken(
    written: Option<String>,
    under: Color,
    after: Color,
    palette: Seq<(Seq<char>, Color)>,
) -> bool {
    &&& written is None ==> after == under
    &&& written matches Some(text) ==> color_of(text@, palette) == Ok::<Color, SlipView>(after)
}

/// Whether a number key came out as it is written: what it writes, or what was underneath.
pub open spec fn number_taken(written: Option<Number>, under: Number, after: Number) -> bool {
    &&& written is None ==> after == under
    &&& written matches Some(v) ==> after == v
}

/// The same, for a number that is written as nothing where it is below that.
pub open spec fn length_taken(written: Option<Number>, under: Number, after: Number) -> bool {
    let nothing = Number { bits: 0 };
    &&& written is None ==> after == under
    &&& written matches Some(v) ==> if v.comparable() && !v.less(nothing) {
        after == v
    } else {
        after == nothing
    }
}

/// Whether a style is what a table writes over another, key by key.
pub open spec fn keys_taken(
    over: RawStyle,
    under: StyleView,
    after: StyleView,
    palette: Seq<(Seq<char>, Color)>,
    icons: Seq<Seq<char>>,
) -> bool {
    &&& color_taken(over.background, under.background, after.background, palette)
    &&& color_taken(over.foreground, under.foreground, after.foreground, palette)
    &&& number_taken(over.padding, under.padding, after.padding)
    &&& number_taken(over.radius, under.radius, after.radius)
    &&& number_taken(over.min_width, under.min_width, after.min_width)
    &&& length_taken(over.max_width, under.max_width, after.max_width)
    &&& length_taken(over.icon_size, under.icon_size, after.icon_size)
    &&& over.icon_gap is None ==> after.icon_gap == under.icon_gap
    &&& over.icon_gap matches Some(v) ==> (after.icon_gap matches Some(gap) && length_taken(
        Some(v),
        v,
        gap,
    ))
    &&& over.icon is None ==> after.icon == under.icon
    &&& over.icon matches Some(text) ==> written_icon(text@, icons) == Ok::<
        Option<IconView>,
        SlipView,
    >(after.icon)
}

/// Each key that a table writes is what the style says once the table is over it, and each key
/// it does not write stays what it was.
pub proof fn law_a_written_key_is_worn(
    under: StyleView,
    over: RawStyle,
    palette: Seq<(Seq<char>, Color)>,
    icons: Seq<Seq<char>>,
)
    requires
        overlaid(under, over, palette, icons) is Ok,
    ensures
        keys_taken(over, under, overlaid(under, over, palette, icons)->Ok_0, palette, icons),
{
}

/// A table is refused exactly where it writes a color or an icon that is.
pub proof fn law_a_style_is_refused_for_what_it_writes(
    under: StyleView,
    over: RawStyle,
    palette: Seq<(Seq<char>, Color)>,
    icons: Seq<Seq<char>>,
)
    ensures
        overlaid(under, over, palette, icons) is Err <==> {
            ||| over.background matches Some(text) && color_of(text@, palette) is Err
            ||| over.foreground matches Some(text) && color_of(text@, palette) is Err
            ||| over.icon matches Some(text) && written_icon(text@, icons) is Err
        },
{
}

/// A table that writes nothing changes nothing, and is never refused.
pub proof fn law_writing_nothing_changes_nothing(
    under: StyleView,
    over: RawStyle,
    palette: Seq<(Seq<char>, Color)>,
    icons: Seq<Seq<char>>,
)
    requires
        over.background is None && over.foreground is None && over.padding is None,
        over.radius is None && over.min_width is None && over.max_width is None,
        over.icon is None && over.icon_size is None && over.icon_gap is None,
    ensures
        overlaid(under, over, palette, icons) == Ok::<StyleView, SlipView>(under),
{
}

proof fn lemma_named_color(palette: Seq<(Seq<char>, Color)>, name: Seq<char>, from: int)
    requires
        0 <= from <= palette.len(),
    ensures
        match named_color(palette, name, from) {
            Some(c) => exists|i: int| from <= i < palette.len() && #[trigger] palette[i] == (name, c),
            None => forall|i: int| from <= i < palette.len() ==> (#[trigger] palette[i]).0 != name,
        },
    decreases palette.len() - from,
{
    if from < palette.len() && palette[from].0 != name {
        lemma_named_color(palette, name, from + 1);
    } else if from < palette.len() {
        assert(palette[from] == (name, palette[from].1));
    }
}

/// A dollar and a name is the color the palette has under the name, and is refused where it has
/// none; without the dollar the palette does not matter.
pub proof fn law_a_dollar_names_a_color(
    text: Seq<char>,
    name: Seq<char>,
    palette: Seq<(Seq<char>, Color)>,
    other: Seq<(Seq<char>, Color)>,
)
    ensures
        text == seq!['$'] + name ==> match color_of(text, palette) {
            Ok(c) => exists|i: int| 0 <= i < palette.len() && #[trigger] palette[i] == (name, c),
            Err(_) => forall|i: int|
                0 <= i < palette.len() ==> (#[trigger] palette[i]).0 != name,
        },
        (text.len() == 0 || text[0] != '$') ==> color_of(text, palette) == color_of(text, other)
            && color_of(text, palette) == literal_color(text),
{
    reveal_strlit("$");
    if text == seq!['$'] + name {
        assert(text.take(1) =~= "$"@);
        assert(text.skip(1) =~= name);
        assert(text.subrange(0, 1) =~= "$"@);
        lemma_named_color(palette, name, 0);
    }
    if text.len() > 0 && text[0] != '$' {
        assert(text.take(1)[0] != "$"@[0]);
        assert(text.subrange(0, 1)[0] != "$"@[0]);
    }
}

} // verus!
