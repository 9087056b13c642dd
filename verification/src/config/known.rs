//! What resolving a configuration has to be told: what is drawn elsewhere, and what is looked
//! up along the way.

use crate::config::icon::Catalogue;
use crate::config::raw::RawStyle;
use crate::config::source::Elsewhere;
use crate::config::style::{styles_view, Footprint, Palette, Style, StyleView};
use crate::color::Color;
use crate::number::Number;
use crate::table::Table;
use crate::text::{same, texts};
use vstd::prelude::*;

verus! {

/// A wording of a module: how it is written and, where it can be read, the fields it names.
#[derive(Debug)]
pub struct Wording {
    pub written: String,
    pub names: Option<Vec<String>>,
}

/// What the parts of the bar that draw know about a configuration.
#[derive(Debug)]
pub struct Known {
    /// The icons drawn as geometry.
    pub icons: Catalogue,
    /// What the sources the bar does not measure itself publish.
    pub elsewhere: Elsewhere,
    /// Every wording the configuration uses.
    pub wordings: Vec<Wording>,
    /// How wide the icons that modules fold to are.
    pub footprints: Vec<Footprint>,
    /// The size the bar's font is written with.
    pub font_size: Number,
    /// The icon size that goes with that font.
    pub icon_size: Number,
}

/// The colors and styles a configuration names, and the style everything starts from.
#[derive(Debug)]
pub struct Wardrobe<'a> {
    pub palette: Palette,
    /// The styles as they are written.
    pub tables: &'a Table<RawStyle>,
    /// The styles over the starting point.
    pub styles: Table<Style>,
    pub base: Style,
}

/// What a `Wardrobe` says.
#[verifier::ext_equal]
pub struct WardrobeView {
    pub palette: Seq<(Seq<char>, Color)>,
    pub tables: Seq<(String, RawStyle)>,
    pub styles: Seq<(Seq<char>, StyleView)>,
    pub base: StyleView,
}

impl<'a> View for Wardrobe<'a> {
    type V = WardrobeView;

    open spec fn view(&self) -> WardrobeView {
        WardrobeView {
            palette: self.palette@,
            tables: self.tables@,
            styles: styles_view(self.styles@),
            base: self.base@,
        }
    }
}

/// The table of a name, looked for from `from` on.
pub open spec fn named_table(tables: Seq<(String, RawStyle)>, name: Seq<char>, from: int) -> Option<
    RawStyle,
>
    decreases tables.len() - from,
{
    if from < 0 || from >= tables.len() {
        None
    } else if tables[from].0@ == name {
        Some(tables[from].1)
    } else {
        named_table(tables, name, from + 1)
    }
}

/// The table of a name, if there is one.
pub fn find_table<'a>(written: &'a Table<RawStyle>, name: &str) -> (r: Option<&'a RawStyle>)
    ensures
        match r {
            Some(t) => named_table(written@, name@, 0) == Some(*t),
            None => named_table(written@, name@, 0) is None,
        },
{
    let tables = written.entries();
    for i in 0..tables.len()
        invariant
            tables@ == written@,
            named_table(tables@, name@, 0) == named_table(tables@, name@, i as int),
    {
        if same(tables[i].0.as_str(), name) {
            return Some(&tables[i].1);
        }
    }
    None
}

/// The fields a wording names: nothing where it is not known, and nothing inside that where it
/// cannot be read.
pub open spec fn names_in(wordings: Seq<Wording>, written: Seq<char>, from: int) -> Option<
    Option<Seq<Seq<char>>>,
>
    decreases wordings.len() - from,
{
    if from < 0 || from >= wordings.len() {
        None
    } else if wordings[from].written@ == written {
        Some(
            match wordings[from].names {
                Some(names) => Some(texts(names@)),
                None => None,
            },
        )
    } else {
        names_in(wordings, written, from + 1)
    }
}

/// The wording of a text, if it is known.
pub fn find_wording<'a>(wordings: &'a Vec<Wording>, written: &str) -> (r: Option<&'a Wording>)
    ensures
        match r {
            Some(w) => names_in(wordings@, written@, 0) == Some(
                match w.names {
                    Some(names) => Some(texts(names@)),
                    None => None,
                },
            ),
            None => names_in(wordings@, written@, 0) is None,
        },
{
    for i in 0..wordings.len()
        invariant
            names_in(wordings@, written@, 0) == names_in(wordings@, written@, i as int),
    {
        if same(wordings[i].written.as_str(), written) {
            return Some(&wordings[i]);
        }
    }
    None
}

} // verus!
