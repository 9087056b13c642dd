//! The icons a configuration can ask for.

use crate::config::refusal::{Slip, SlipView, Why};
use crate::text::{after_prefix, owned, same, strip_prefix, texts};
use vstd::prelude::*;

verus! {

/// One of the icons drawn as geometry, by its place among their names.
#[derive(Clone, Copy, Debug, PartialEq, Eq, Structural)]
pub struct Icon {
    pub index: usize,
}

/// The names of the icons drawn as geometry.
#[derive(Debug)]
pub struct Catalogue {
    pub names: Vec<String>,
}

/// Where a name first stands from `from` on.
pub open spec fn named_icon(names: Seq<Seq<char>>, name: Seq<char>, from: int) -> Option<Icon>
    decreases names.len() - from,
{
    if from < 0 || from >= names.len() {
        None
    } else if names[from] == name {
        Some(Icon { index: from as usize })
    } else {
        named_icon(names, name, from + 1)
    }
}

impl View for Catalogue {
    type V = Seq<Seq<char>>;

    open spec fn view(&self) -> Seq<Seq<char>> {
        texts(self.names@)
    }
}

impl Catalogue {
    /// The icon of this name, if there is one.
    pub fn find(&self, name: &str) -> (r: Option<Icon>)
        ensures
            r == named_icon(self@, name@, 0),
    {
        let ghost all = self@;
        for i in 0..self.names.len()
            invariant
                all == texts(self.names@),
                named_icon(all, name@, 0) == named_icon(all, name@, i as int),
        {
            assert(all[i as int] == self.names@[i as int]@);
            if same(self.names[i].as_str(), name) {
                return Some(Icon { index: i });
            }
        }
        None
    }
}

/// An icon a configuration asked for: geometry of the bar's own, or ordinary shaped text.
#[derive(Debug)]
pub enum IconSpec {
    Native(Icon),
    Text(String),
}

/// What an `IconSpec` says.
pub enum IconView {
    Native(Icon),
    Text(Seq<char>),
}

impl View for IconSpec {
    type V = IconView;

    open spec fn view(&self) -> IconView {
        match self {
            IconSpec::Native(icon) => IconView::Native(*icon),
            IconSpec::Text(s) => IconView::Text(s@),
        }
    }
}

/// What an icon that may be missing says.
pub open spec fn icon_view(icon: Option<IconSpec>) -> Option<IconView> {
    match icon {
        Some(i) => Some(i@),
        None => None,
    }
}

/// The icon a configuration writes: `none` for no icon, `$name` for one of the bar's own,
/// anything else as text.
pub open spec fn written_icon(spec: Seq<char>, icons: Seq<Seq<char>>) -> Result<
    Option<IconView>,
    SlipView,
> {
    match after_prefix(spec, "$"@) {
        Some(name) => match named_icon(icons, name, 0) {
            Some(icon) => Ok(Some(IconView::Native(icon))),
            None => Err(SlipView { why: Why::UnknownIcon, word: name, other: Seq::empty() }),
        },
        None => if spec == "none"@ {
            Ok(None)
        } else {
            Ok(Some(IconView::Text(spec)))
        },
    }
}

impl IconSpec {
    /// Read one written icon.
    ///
    /// Every place that takes an icon reads it through here, so the three answers mean the
    /// same thing in a style, a state, a collapsed table and a workspace mapping alike.
    ///
    /// A misspelled `$name` is an error, which is the whole reason the sigil is there: without
    /// it there is no telling a typo from a glyph nobody can see.
    pub fn parse(spec: &str, icons: &Catalogue) -> (r: Result<Option<IconSpec>, Slip>)
        ensures
            match r {
                Ok(icon) => written_icon(spec@, icons@) == Ok::<Option<IconView>, SlipView>(
                    icon_view(icon),
                ),
                Err(slip) => written_icon(spec@, icons@) == Err::<Option<IconView>, SlipView>(
                    slip@,
                ),
            },
    {
        match strip_prefix(spec, "$") {
            Some(name) => match icons.find(name.as_str()) {
                Some(icon) => Ok(Some(IconSpec::Native(icon))),
                None => Err(Slip::about(Why::UnknownIcon, name.as_str())),
            },
            None => if same(spec, "none") {
                Ok(None)
            } else {
                Ok(Some(IconSpec::Text(owned(spec))))
            },
        }
    }

    pub fn copy(&self) -> (i: IconSpec)
        ensures
            i@ == self@,
    {
        match self {
            IconSpec::Native(icon) => IconSpec::Native(*icon),
            IconSpec::Text(s) => IconSpec::Text(s.clone()),
        }
    }
}

/// A copy of an icon that may be missing.
pub fn copy_icon(icon: &Option<IconSpec>) -> (r: Option<IconSpec>)
    ensures
        icon_view(r) == icon_view(*icon),
{
    match icon {
        Some(i) => Some(i.copy()),
        None => None,
    }
}

} // verus!
