//! Colors by name, and the style a module wears.

use crate::color::{written_color, BadColor, Color};
use crate::config::icon::{copy_icon, icon_view, written_icon, Catalogue, Icon, IconSpec, IconView};
use crate::config::raw::RawStyle;
use crate::config::refusal::{about, at2, plainly, put, refused, slipped, told, Refusal};
use crate::config::refusal::{RefusalView, Slip, SlipView, Why};
use crate::number::{Number, EIGHT, SIXTEEN, ZERO};
use crate::table::{lemma_same_names, Table};
use crate::text::{after_prefix, same, strip_prefix};
use vstd::prelude::*;

verus! {

/// Named colors, so a configuration can say `background = "$surface"`.
#[derive(Debug)]
pub struct Palette {
    pub named: Table<Color>,
}

/// The names of a palette, and their colors, in order.
pub open spec fn palette_view(named: Seq<(String, Color)>) -> Seq<(Seq<char>, Color)> {
    Seq::new(named.len(), |i: int| (named[i].0@, named[i].1))
}

impl View for Palette {
    type V = Seq<(Seq<char>, Color)>;

    open spec fn view(&self) -> Seq<(Seq<char>, Color)> {
        palette_view(self.named@)
    }
}

/// The color of a name, looked for from `from` on.
pub open spec fn named_color(
    palette: Seq<(Seq<char>, Color)>,
    name: Seq<char>,
    from: int,
) -> Option<Color>
    decreases palette.len() - from,
{
    if from < 0 || from >= palette.len() {
        None
    } else if palette[from].0 == name {
        Some(palette[from].1)
    } else {
        named_color(palette, name, from + 1)
    }
}

/// A text read as a color.
pub open spec fn literal_color(s: Seq<char>) -> Result<Color, SlipView> {
    match written_color(s) {
        Ok(c) => Ok(c),
        Err(BadColor::NotHexadecimal) => Err(about(Why::NotHexadecimal, s)),
        Err(BadColor::WrongLength) => Err(about(Why::ColorLength, s)),
    }
}

/// A color as a configuration writes it: `$name` for one of its own, or the color itself.
pub open spec fn color_of(spec: Seq<char>, palette: Seq<(Seq<char>, Color)>) -> Result<
    Color,
    SlipView,
> {
    match after_prefix(spec, "$"@) {
        Some(name) => match named_color(palette, name, 0) {
            Some(c) => Ok(c),
            None => Err(about(Why::UnknownColor, name)),
        },
        None => literal_color(spec),
    }
}

/// The colors a configuration names, from `from` on. A named color is not itself a reference,
/// which keeps looking one up from going in circles.
pub open spec fn palette_of(raw: Seq<(String, String)>, from: int) -> Result<
    Seq<(Seq<char>, Color)>,
    RefusalView,
>
    decreases raw.len() - from,
{
    if from < 0 || from >= raw.len() {
        Ok(Seq::empty())
    } else {
        match literal_color(raw[from].1@) {
            Err(slip) => Err(refused(seq!["colors"@, raw[from].0@], slip)),
            Ok(c) => match palette_of(raw, from + 1) {
                Err(e) => Err(e),
                Ok(rest) => Ok(seq![(raw[from].0@, c)] + rest),
            },
        }
    }
}

/// A color read by itself.
pub fn parse_color(s: &str) -> (r: Result<Color, Slip>)
    ensures
        match r {
            Ok(c) => literal_color(s@) == Ok::<Color, SlipView>(c),
            Err(slip) => literal_color(s@) == Err::<Color, SlipView>(slip@),
        },
{
    match Color::parse(s) {
        Ok(c) => Ok(c),
        Err(bad) => match bad {
            BadColor::NotHexadecimal => Err(Slip::about(Why::NotHexadecimal, s)),
            BadColor::WrongLength => Err(Slip::about(Why::ColorLength, s)),
        },
    }
}

/// The colors found so far, and those still to be read.
spec fn read_so_far(
    done: Seq<(Seq<char>, Color)>,
    rest: Result<Seq<(Seq<char>, Color)>, RefusalView>,
) -> Result<Seq<(Seq<char>, Color)>, RefusalView> {
    match rest {
        Ok(more) => Ok(done + more),
        Err(e) => Err(e),
    }
}

impl Palette {
    pub fn new(colors: &Table<String>) -> (r: Result<Palette, Refusal>)
        ensures
            told(r) == palette_of(colors@, 0),
    {
        let raw = colors.entries();
        let mut named: Vec<(String, Color)> = Vec::new();
        assert(palette_view(named@) =~= Seq::<(Seq<char>, Color)>::empty());
        proof {
            let rest = palette_of(raw@, 0);
            if rest is Ok {
                assert(Seq::<(Seq<char>, Color)>::empty() + rest->Ok_0 =~= rest->Ok_0);
            }
        }
        for i in 0..raw.len()
            invariant
                raw@ == colors@,
                named@.len() == i,
                forall|j: int| 0 <= j < i ==> (#[trigger] named@[j]).0@ == raw@[j].0@,
                palette_of(raw@, 0) == read_so_far(
                    palette_view(named@),
                    palette_of(raw@, i as int),
                ),
        {
            let ghost before = palette_view(named@);
            match parse_color(raw[i].1.as_str()) {
                Err(slip) => {
                    return Err(Refusal::new(at2("colors", raw[i].0.as_str()), slip));
                },
                Ok(c) => {
                    named.push((raw[i].0.clone(), c));
                    proof {
                        let one = (raw@[i as int].0@, c);
                        assert(palette_view(named@) =~= before.push(one));
                        let rest = palette_of(raw@, i + 1);
                        if rest is Ok {
                            assert(before + (seq![one] + rest->Ok_0) =~= before.push(one)
                                + rest->Ok_0);
                        }
                    }
                },
            }
        }
        assert(palette_view(named@) + Seq::<(Seq<char>, Color)>::empty() =~= palette_view(named@));
        proof {
            lemma_same_names(raw@, named@);
        }
        Ok(Palette { named: Table::of(named) })
    }

    /// The color a configuration writes.
    pub fn get(&self, spec: &str) -> (r: Result<Color, Slip>)
        ensures
            match r {
                Ok(c) => color_of(spec@, self@) == Ok::<Color, SlipView>(c),
                Err(slip) => color_of(spec@, self@) == Err::<Color, SlipView>(slip@),
            },
    {
        match strip_prefix(spec, "$") {
            None => parse_color(spec),
            Some(name) => {
                let ghost all = self@;
                let named = self.named.entries();
                for i in 0..named.len()
                    invariant
                        all == self@,
                        all == palette_view(named@),
                        named_color(all, name@, 0) == named_color(all, name@, i as int),
                        color_of(spec@, all) == match named_color(all, name@, 0) {
                            Some(c) => Ok(c),
                            None => Err(about(Why::UnknownColor, name@)),
                        },
                {
                    assert(all[i as int] == (named@[i as int].0@, named@[i as int].1));
                    if same(named[i].0.as_str(), name.as_str()) {
                        return Ok(named[i].1);
                    }
                }
                Err(Slip::about(Why::UnknownColor, name.as_str()))
            },
        }
    }
}

/// What a module wears.
#[derive(Debug)]
pub struct Style {
    pub background: Color,
    pub foreground: Color,
    pub padding: Number,
    pub radius: Number,
    pub min_width: Number,
    /// Widest the module may draw, in logical pixels. Zero leaves it unbounded.
    pub max_width: Number,
    pub icon: Option<IconSpec>,
    /// Icon edge length in logical pixels, independent of the font size.
    pub icon_size: Number,
    /// Space between the icon and the text. Absent means a share of the icon size.
    pub icon_gap: Option<Number>,
}

/// What a `Style` says.
#[verifier::ext_equal]
pub struct StyleView {
    pub background: Color,
    pub foreground: Color,
    pub padding: Number,
    pub radius: Number,
    pub min_width: Number,
    pub max_width: Number,
    pub icon: Option<IconView>,
    pub icon_size: Number,
    pub icon_gap: Option<Number>,
}

impl View for Style {
    type V = StyleView;

    open spec fn view(&self) -> StyleView {
        StyleView {
            background: self.background,
            foreground: self.foreground,
            padding: self.padding,
            radius: self.radius,
            min_width: self.min_width,
            max_width: self.max_width,
            icon: icon_view(self.icon),
            icon_size: self.icon_size,
            icon_gap: self.icon_gap,
        }
    }
}

/// What a style that may be missing says.
pub open spec fn style_view(style: Option<Style>) -> Option<StyleView> {
    match style {
        Some(s) => Some(s@),
        None => None,
    }
}

/// The starting point of the cascade, carrying the bar-wide icon size.
pub open spec fn base(icon_size: Number) -> StyleView {
    StyleView {
        background: Color { r: 0, g: 0, b: 0, a: 0 },
        foreground: Color { r: 0xcd, g: 0xd6, b: 0xf4, a: 0xff },
        padding: Number { bits: EIGHT },
        radius: Number { bits: ZERO },
        min_width: Number { bits: ZERO },
        max_width: Number { bits: ZERO },
        icon: None,
        icon_size,
        icon_gap: None,
    }
}

/// What a color key writes, over what was there.
pub open spec fn color_over(
    written: Option<String>,
    under: Color,
    palette: Seq<(Seq<char>, Color)>,
) -> Result<Color, SlipView> {
    match written {
        Some(c) => color_of(c@, palette),
        None => Ok(under),
    }
}

/// What a number key writes, over what was there.
pub open spec fn number_over(written: Option<Number>, under: Number) -> Number {
    match written {
        Some(v) => v,
        None => under,
    }
}

/// The same, for a number that is not allowed below zero.
pub open spec fn raised_over(written: Option<Number>, under: Number) -> Number {
    match written {
        Some(v) => v.larger(Number { bits: ZERO }),
        None => under,
    }
}

/// What an icon key writes, over what was there.
pub open spec fn icon_over(
    written: Option<String>,
    under: Option<IconView>,
    icons: Seq<Seq<char>>,
) -> Result<Option<IconView>, SlipView> {
    match written {
        Some(s) => written_icon(s@, icons),
        None => Ok(under),
    }
}

/// A style with the keys of a table over it: each key that is written replaces what was there,
/// and the rest of the style stays.
pub open spec fn overlaid(
    under: StyleView,
    over: RawStyle,
    palette: Seq<(Seq<char>, Color)>,
    icons: Seq<Seq<char>>,
) -> Result<StyleView, SlipView> {
    match color_over(over.background, under.background, palette) {
        Err(slip) => Err(slip),
        Ok(background) => match color_over(over.foreground, under.foreground, palette) {
            Err(slip) => Err(slip),
            Ok(foreground) => match icon_over(over.icon, under.icon, icons) {
                Err(slip) => Err(slip),
                Ok(icon) => Ok(
                    StyleView {
                        background,
                        foreground,
                        padding: number_over(over.padding, under.padding),
                        radius: number_over(over.radius, under.radius),
                        min_width: number_over(over.min_width, under.min_width),
                        max_width: raised_over(over.max_width, under.max_width),
                        icon,
                        icon_size: raised_over(over.icon_size, under.icon_size),
                        icon_gap: match over.icon_gap {
                            Some(v) => Some(v.larger(Number { bits: ZERO })),
                            None => under.icon_gap,
                        },
                    },
                ),
            },
        },
    }
}

fn color_key(written: &Option<String>, under: Color, palette: &Palette) -> (r: Result<Color, Slip>)
    ensures
        match r {
            Ok(c) => color_over(*written, under, palette@) == Ok::<Color, SlipView>(c),
            Err(slip) => color_over(*written, under, palette@) == Err::<Color, SlipView>(slip@),
        },
{
    match written {
        Some(c) => palette.get(c.as_str()),
        None => Ok(under),
    }
}

fn number_key(written: Option<Number>, under: Number) -> (r: Number)
    ensures
        r == number_over(written, under),
{
    match written {
        Some(v) => v,
        None => under,
    }
}

fn raised_key(written: Option<Number>, under: Number) -> (r: Number)
    ensures
        r == raised_over(written, under),
{
    match written {
        Some(v) => v.max(Number { bits: ZERO }),
        None => under,
    }
}

impl Style {
    /// The starting point of the cascade, carrying the bar-wide icon size.
    pub fn base(icon_size: Number) -> (s: Style)
        ensures
            s@ == base(icon_size),
    {
        Style {
            background: Color::transparent(),
            foreground: Color::rgba(0xcd, 0xd6, 0xf4, 0xff),
            padding: Number { bits: EIGHT },
            radius: Number { bits: ZERO },
            min_width: Number { bits: ZERO },
            max_width: Number { bits: ZERO },
            icon: None,
            icon_size,
            icon_gap: None,
        }
    }

    pub fn copy(&self) -> (s: Style)
        ensures
            s@ == self@,
    {
        Style {
            background: self.background,
            foreground: self.foreground,
            padding: self.padding,
            radius: self.radius,
            min_width: self.min_width,
            max_width: self.max_width,
            icon: copy_icon(&self.icon),
            icon_size: self.icon_size,
            icon_gap: self.icon_gap,
        }
    }

    /// Apply the written keys of `over` on top of this style.
    pub fn overlay(&self, over: &RawStyle, palette: &Palette, icons: &Catalogue) -> (r: Result<
        Style,
        Slip,
    >)
        ensures
            slipped(r) == overlaid(self@, *over, palette@, icons@),
            // Each key is what the table writes, and where it writes none what was underneath.
            r matches Ok(s) ==> {
                &&& match over.background {
                    Some(text) => color_of(text@, palette@) == Ok::<Color, SlipView>(s.background),
                    None => s.background == self.background,
                }
                &&& match over.foreground {
                    Some(text) => color_of(text@, palette@) == Ok::<Color, SlipView>(s.foreground),
                    None => s.foreground == self.foreground,
                }
                &&& match over.padding {
                    Some(v) => s.padding == v,
                    None => s.padding == self.padding,
                }
                &&& match over.radius {
                    Some(v) => s.radius == v,
                    None => s.radius == self.radius,
                }
                &&& match over.min_width {
                    Some(v) => s.min_width == v,
                    None => s.min_width == self.min_width,
                }
                &&& match over.max_width {
                    Some(v) => s.max_width == v.larger(Number { bits: 0 }),
                    None => s.max_width == self.max_width,
                }
                &&& match over.icon {
                    Some(text) => written_icon(text@, icons@) == Ok::<Option<IconView>, SlipView>(
                        icon_view(s.icon),
                    ),
                    None => icon_view(s.icon) == icon_view(self.icon),
                }
                &&& match over.icon_size {
                    Some(v) => s.icon_size == v.larger(Number { bits: 0 }),
                    None => s.icon_size == self.icon_size,
                }
                &&& match over.icon_gap {
                    Some(v) => s.icon_gap == Some(v.larger(Number { bits: 0 })),
                    None => s.icon_gap == self.icon_gap,
                }
            },
    {
        let background = color_key(&over.background, self.background, palette)?;
        let foreground = color_key(&over.foreground, self.foreground, palette)?;
        let icon = match &over.icon {
            Some(name) => IconSpec::parse(name.as_str(), icons)?,
            None => copy_icon(&self.icon),
        };
        Ok(
            Style {
                background,
                foreground,
                padding: number_key(over.padding, self.padding),
                radius: number_key(over.radius, self.radius),
                min_width: number_key(over.min_width, self.min_width),
                max_width: raised_key(over.max_width, self.max_width),
                icon,
                icon_size: raised_key(over.icon_size, self.icon_size),
                icon_gap: match over.icon_gap {
                    Some(v) => Some(v.max(Number { bits: ZERO })),
                    None => self.icon_gap,
                },
            },
        )
    }
}

impl Default for Style {
    fn default() -> (s: Style)
        ensures
            s@ == base(Number { bits: SIXTEEN }),
    {
        Style::base(Number { bits: SIXTEEN })
    }
}

/// Named styles.
pub open spec fn styles_view(styles: Seq<(String, Style)>) -> Seq<(Seq<char>, StyleView)> {
    Seq::new(styles.len(), |i: int| (styles[i].0@, styles[i].1@))
}

/// The style of a name, looked for from `from` on.
pub open spec fn named_style(
    styles: Seq<(Seq<char>, StyleView)>,
    name: Seq<char>,
    from: int,
) -> Option<StyleView>
    decreases styles.len() - from,
{
    if from < 0 || from >= styles.len() {
        None
    } else if styles[from].0 == name {
        Some(styles[from].1)
    } else {
        named_style(styles, name, from + 1)
    }
}

/// The style of a name, if there is one.
pub fn find_style<'a>(named: &'a Table<Style>, name: &str) -> (r: Option<&'a Style>)
    ensures
        match r {
            Some(s) => named_style(styles_view(named@), name@, 0) == Some(s@),
            None => named_style(styles_view(named@), name@, 0) is None,
        },
{
    let styles = named.entries();
    let ghost all = styles_view(styles@);
    for i in 0..styles.len()
        invariant
            all == styles_view(named@),
            all == styles_view(styles@),
            named_style(all, name@, 0) == named_style(all, name@, i as int),
    {
        assert(all[i as int] == (styles@[i as int].0@, styles@[i as int].1@));
        if same(styles[i].0.as_str(), name) {
            return Some(&styles[i].1);
        }
    }
    None
}

/// The styles a configuration names, from `from` on, each over the starting point.
pub open spec fn styles_of(
    raw: Seq<(String, RawStyle)>,
    from: int,
    start: StyleView,
    palette: Seq<(Seq<char>, Color)>,
    icons: Seq<Seq<char>>,
) -> Result<Seq<(Seq<char>, StyleView)>, RefusalView>
    decreases raw.len() - from,
{
    if from < 0 || from >= raw.len() {
        Ok(Seq::empty())
    } else {
        match overlaid(start, raw[from].1, palette, icons) {
            Err(slip) => Err(refused(seq!["style"@, raw[from].0@], slip)),
            Ok(style) => match styles_of(raw, from + 1, start, palette, icons) {
                Err(e) => Err(e),
                Ok(rest) => Ok(seq![(raw[from].0@, style)] + rest),
            },
        }
    }
}

spec fn styled_so_far(
    done: Seq<(Seq<char>, StyleView)>,
    rest: Result<Seq<(Seq<char>, StyleView)>, RefusalView>,
) -> Result<Seq<(Seq<char>, StyleView)>, RefusalView> {
    match rest {
        Ok(more) => Ok(done + more),
        Err(e) => Err(e),
    }
}

/// Resolve the named styles against the starting point, once.
pub fn resolve_styles(
    written: &Table<RawStyle>,
    start: &Style,
    palette: &Palette,
    icons: &Catalogue,
) -> (r: Result<Table<Style>, Refusal>)
    ensures
        match r {
            Ok(v) => styles_of(written@, 0, start@, palette@, icons@) == Ok::<
                Seq<(Seq<char>, StyleView)>,
                RefusalView,
            >(styles_view(v@)),
            Err(e) => styles_of(written@, 0, start@, palette@, icons@) == Err::<
                Seq<(Seq<char>, StyleView)>,
                RefusalView,
            >(e@),
        },
{
    let raw = written.entries();
    let mut out: Vec<(String, Style)> = Vec::new();
    let ghost none = Seq::<(Seq<char>, StyleView)>::empty();
    assert(styles_view(out@) =~= none);
    proof {
        let rest = styles_of(raw@, 0, start@, palette@, icons@);
        if rest is Ok {
            assert(none + rest->Ok_0 =~= rest->Ok_0);
        }
    }
    for i in 0..raw.len()
        invariant
            raw@ == written@,
            out@.len() == i,
            forall|j: int| 0 <= j < i ==> (#[trigger] out@[j]).0@ == raw@[j].0@,
            styles_of(raw@, 0, start@, palette@, icons@) == styled_so_far(
                styles_view(out@),
                styles_of(raw@, i as int, start@, palette@, icons@),
            ),
    {
        let ghost before = styles_view(out@);
        let style = put(
            start.overlay(&raw[i].1, palette, icons),
            at2("style", raw[i].0.as_str()),
        )?;
        let ghost shown = style@;
        out.push((raw[i].0.clone(), style));
        proof {
            let one = (raw@[i as int].0@, shown);
            assert(styles_view(out@) =~= before.push(one));
            let rest = styles_of(raw@, i + 1, start@, palette@, icons@);
            if rest is Ok {
                assert(before + (seq![one] + rest->Ok_0) =~= before.push(one) + rest->Ok_0);
            }
        }
    }
    assert(styles_view(out@) + Seq::<(Seq<char>, StyleView)>::empty() =~= styles_view(out@));
    proof {
        lemma_same_names(raw@, out@);
    }
    Ok(Table::of(out))
}

/// How wide a geometric icon of one size is with one padding on either side.
#[derive(Clone, Copy, Debug, PartialEq, Eq, Structural)]
pub struct Footprint {
    pub icon: Icon,
    pub icon_size: Number,
    pub padding: Number,
    pub width: Number,
}

/// The width measured for an icon, looked for from `from` on.
pub open spec fn measured(
    footprints: Seq<Footprint>,
    icon: Icon,
    icon_size: Number,
    padding: Number,
    from: int,
) -> Option<Number>
    decreases footprints.len() - from,
{
    if from < 0 || from >= footprints.len() {
        None
    } else if footprints[from].icon == icon && footprints[from].icon_size == icon_size
        && footprints[from].padding == padding {
        Some(footprints[from].width)
    } else {
        measured(footprints, icon, icon_size, padding, from + 1)
    }
}

fn measure(
    footprints: &Vec<Footprint>,
    icon: Icon,
    icon_size: Number,
    padding: Number,
) -> (r: Option<Number>)
    ensures
        r == measured(footprints@, icon, icon_size, padding, 0),
{
    for i in 0..footprints.len()
        invariant
            measured(footprints@, icon, icon_size, padding, 0) == measured(
                footprints@,
                icon,
                icon_size,
                padding,
                i as int,
            ),
    {
        let f = footprints[i];
        if f.icon == icon && f.icon_size == icon_size && f.padding == padding {
            return Some(f.width);
        }
    }
    None
}

/// What is wrong with the icon a fold leaves behind, if anything is.
///
/// It is the only thing left to click on to open the thing again, so an icon that cannot be
/// drawn is not a narrow module: it is one that disappears. Geometry is checked against the
/// width it will take; a glyph can only be checked for being there at all.
pub open spec fn fold_trouble(
    icon: IconView,
    style: StyleView,
    footprints: Seq<Footprint>,
) -> Option<SlipView> {
    let zero = Number { bits: ZERO };
    match icon {
        IconView::Text(glyph) => if glyph.len() == 0 {
            Some(plainly(Why::EmptyIcon))
        } else {
            None
        },
        IconView::Native(native) => if !style.icon_size.finite() || !zero.less(style.icon_size) {
            Some(plainly(Why::IconWithoutSize))
        } else if !zero.less(style.max_width) {
            None
        } else {
            match measured(footprints, native, style.icon_size, style.padding, 0) {
                None => Some(
                    plainly(
                        Why::Unmeasured {
                            icon: native,
                            icon_size: style.icon_size,
                            padding: style.padding,
                        },
                    ),
                ),
                Some(width) => if style.max_width.less(width.larger(style.min_width)) {
                    Some(plainly(Why::IconTooWide))
                } else {
                    None
                },
            }
        },
    }
}

/// Check that an icon a fold leaves behind can be drawn.
pub fn check_collapsed_icon(icon: &IconSpec, style: &Style, footprints: &Vec<Footprint>) -> (r:
    Result<(), Slip>)
    ensures
        match r {
            Ok(_) => fold_trouble(icon@, style@, footprints@) is None,
            Err(slip) => fold_trouble(icon@, style@, footprints@) == Some(slip@),
        },
{
    let zero = Number { bits: ZERO };
    match icon {
        IconSpec::Text(glyph) => {
            if glyph.as_str().is_empty() {
                return Err(Slip::plainly(Why::EmptyIcon));
            }
            Ok(())
        },
        IconSpec::Native(native) => {
            if !style.icon_size.is_finite() || !zero.lt(style.icon_size) {
                return Err(Slip::plainly(Why::IconWithoutSize));
            }
            if !zero.lt(style.max_width) {
                return Ok(());
            }
            match measure(footprints, *native, style.icon_size, style.padding) {
                None => Err(
                    Slip::plainly(
                        Why::Unmeasured {
                            icon: *native,
                            icon_size: style.icon_size,
                            padding: style.padding,
                        },
                    ),
                ),
                Some(width) => if style.max_width.lt(width.max(style.min_width)) {
                    Err(Slip::plainly(Why::IconTooWide))
                } else {
                    Ok(())
                },
            }
        },
    }
}

} // verus!
