//! The bars, one to a screen: which screens have one, how big it is, and when it is drawn.

use crate::config::raw::Edge;
use crate::config::whole::{shown_on, Bar as BarConfig};
use crate::text::{opt_view, owned, same_opts, same_texts, texts};
use vstd::prelude::*;

verus! {

/// One bar: what belongs to its surface rather than to what is drawn on it.
#[derive(Debug)]
pub struct Bar {
    pub output: u32,
    /// What the compositor calls this screen, once it has said.
    pub name: Option<String>,
    /// Surface size in logical pixels.
    pub width: u32,
    pub height: u32,
    pub scale: i32,
    pub configured: bool,
    pub dirty: bool,
    pub frame_pending: bool,
    /// The size and scale of the last buffer actually put on screen, when there is one.
    pub presented: Option<(u32, u32, i32)>,
}

/// At least one.
pub open spec fn at_least_one(n: i32) -> i32 {
    if n < 1 {
        1
    } else {
        n
    }
}

/// How a bar sits on its screen.
#[derive(Clone, Copy, Debug)]
pub struct Placement {
    /// At the top, right, bottom and left.
    pub margins: (i32, i32, i32, i32),
    /// How much of the screen it keeps windows out of.
    pub zone: i32,
    /// How large a buffer to begin with: the pool grows when one does not fit.
    pub bytes: usize,
}

/// How many bytes the first buffer of a bar is given.
pub open spec fn first_bytes(width: u32, height: u32, scale: i32) -> int {
    let s = at_least_one(scale) as int;
    let across = width * s;
    (if across < 1 {
        1
    } else {
        across
    }) * height * s * 4
}

/// Whether a bar of this size can be placed within what a machine can count.
pub open spec fn placeable(height: u32, margin: i32, width: u32, scale: i32) -> bool {
    &&& i32::MIN <= height + margin <= i32::MAX
    &&& first_bytes(width, height, scale) <= usize::MAX
    &&& first_bytes(width, height, scale) <= u64::MAX
}

/// How a bar sits on its screen: margins on every side but the one away from its edge.
pub fn placement(cfg: &BarConfig, width: u32, scale: i32) -> (p: Placement)
    requires
        placeable(cfg.height, cfg.margin, width, scale),
    ensures
        p.margins == match cfg.position {
            Edge::Top => (cfg.margin, cfg.margin, 0i32, cfg.margin),
            Edge::Bottom => (0i32, cfg.margin, cfg.margin, cfg.margin),
        },
        p.zone == if cfg.exclusive {
            cfg.height + cfg.margin
        } else {
            0
        },
        p.bytes == first_bytes(width, cfg.height, scale),
{
    let m = cfg.margin;
    let margins = match cfg.position {
        Edge::Top => (m, m, 0, m),
        Edge::Bottom => (0, m, m, m),
    };
    let zone: i32 = if cfg.exclusive {
        (cfg.height as i64 + m as i64) as i32
    } else {
        0
    };
    let s: u128 = if scale < 1 {
        1
    } else {
        scale as u128
    };
    let h = cfg.height as u128;
    proof {
        assert(width * s <= 0xffff_ffff * 0x7fff_ffff) by (nonlinear_arith)
            requires
                width <= 0xffff_ffff,
                s <= 0x7fff_ffff,
        ;
    }
    let across = width as u128 * s;
    let across = if across < 1 {
        1
    } else {
        across
    };
    proof {
        assert(across * h <= 0x7fff_fffe_8000_0001 * 0xffff_ffff) by (nonlinear_arith)
            requires
                across <= 0x7fff_fffe_8000_0001,
                h <= 0xffff_ffff,
        ;
        assert(across * h * s <= 0x7fff_fffe_8000_0001 * 0xffff_ffff * 0x7fff_ffff)
            by (nonlinear_arith)
            requires
                across * h <= 0x7fff_fffe_8000_0001 * 0xffff_ffff,
                across * h >= 0,
                s <= 0x7fff_ffff,
        ;
        assert(across * h >= 0) by (nonlinear_arith);
    }
    let bytes = across * h * s * 4;
    Placement { margins, zone, bytes: bytes as usize }
}

/// Whether a bar is to be drawn now: it has something to draw, the compositor is ready for it,
/// and it has a size.
pub open spec fn drawable(b: Bar) -> bool {
    b.dirty && !b.frame_pending && b.configured && b.width != 0
}

/// Whether the pixels on screen are already right: nothing has moved since the last buffer, and
/// that was of this size and scale. Then nothing is painted and nobody is woken.
pub open spec fn presented_already(b: Bar, damaged: bool) -> bool {
    !damaged && b.presented == Some((b.width, b.height, b.scale))
}

/// The size of a bar's buffer, in pixels: across, down, and the bytes of one line.
pub open spec fn buffer_size(b: Bar) -> (int, int, int) {
    let s = at_least_one(b.scale) as int;
    (b.width * s, b.height * s, b.width * s * 4)
}

impl Bar {
    /// A bar that has just been put on a screen. The compositor says how large it is.
    pub fn new(output: u32, name: Option<String>, height: u32, scale: i32) -> (b: Bar)
        ensures
            b == (Bar {
                output,
                name,
                width: 0,
                height,
                scale: at_least_one(scale),
                configured: false,
                dirty: true,
                frame_pending: false,
                presented: None,
            }),
    {
        Bar {
            output,
            name,
            width: 0,
            height,
            scale: if scale < 1 {
                1
            } else {
                scale
            },
            configured: false,
            dirty: true,
            frame_pending: false,
            presented: None,
        }
    }

    pub fn wants_drawing(&self) -> (r: bool)
        ensures
            r == drawable(*self),
    {
        self.dirty && !self.frame_pending && self.configured && self.width != 0
    }

    /// Whether there is nothing to present, given whether anything the frame shows has moved.
    pub fn is_presented(&self, damaged: bool) -> (r: bool)
        ensures
            r == presented_already(*self, damaged),
    {
        !damaged && match self.presented {
            Some((w, h, s)) => w == self.width && h == self.height && s == self.scale,
            None => false,
        }
    }

    /// The size of the buffer to draw, in pixels, if a buffer can be that large.
    pub fn buffer(&self) -> (r: Option<(i32, i32, i32)>)
        ensures
            match r {
                Some((w, h, stride)) => buffer_size(*self) == (w as int, h as int, stride as int),
                None => buffer_size(*self).2 > i32::MAX || buffer_size(*self).1 > i32::MAX,
            },
    {
        let s: i128 = if self.scale < 1 {
            1
        } else {
            self.scale as i128
        };
        proof {
            assert(0 <= self.width * s <= 0xffff_ffff * 0x7fff_ffff) by (nonlinear_arith)
                requires
                    self.width <= 0xffff_ffff,
                    1 <= s <= 0x7fff_ffff,
            ;
            assert(0 <= self.height * s <= 0xffff_ffff * 0x7fff_ffff) by (nonlinear_arith)
                requires
                    self.height <= 0xffff_ffff,
                    1 <= s <= 0x7fff_ffff,
            ;
        }
        let w = self.width as i128 * s;
        let h = self.height as i128 * s;
        let stride = w * 4;
        if stride > i32::MAX as i128 || h > i32::MAX as i128 {
            return None;
        }
        Some((w as i32, h as i32, stride as i32))
    }

    /// A buffer of the bar's size is on screen, and the compositor will say when the next may
    /// follow.
    pub fn present(&mut self)
        ensures
            *final(self) == (Bar {
                frame_pending: true,
                presented: Some((old(self).width, old(self).height, old(self).scale)),
                ..*old(self)
            }),
    {
        self.frame_pending = true;
        self.presented = Some((self.width, self.height, self.scale));
    }

    /// The compositor has said how large the bar is, where it is not for the bar to say. That
    /// invalidates any expectation of a frame.
    pub fn configure(&mut self, width: u32, height: u32)
        ensures
            *final(self) == (Bar {
                width: if width != 0 {
                    width
                } else {
                    old(self).width
                },
                height: if height != 0 {
                    height
                } else {
                    old(self).height
                },
                configured: true,
                frame_pending: false,
                dirty: true,
                ..*old(self)
            }),
    {
        if width != 0 {
            self.width = width;
        }
        if height != 0 {
            self.height = height;
        }
        self.configured = true;
        self.frame_pending = false;
        self.dirty = true;
    }

    /// The scale of the screen has changed, returning whether that is anything new.
    pub fn rescale(&mut self, scale: i32) -> (r: bool)
        ensures
            r == (at_least_one(scale) != old(self).scale),
            *final(self) == if r {
                Bar { scale: at_least_one(scale), dirty: true, ..*old(self) }
            } else {
                *old(self)
            },
    {
        let scale: i32 = if scale < 1 {
            1
        } else {
            scale
        };
        if scale == self.scale {
            return false;
        }
        self.scale = scale;
        self.dirty = true;
        true
    }
}

/// What of a buffer has to be taken again, for a rectangle from one corner to another: out by a
/// pixel on every side, since antialiasing reaches a little past the shape that asked for it,
/// but within the buffer. Nothing, where that leaves nothing.
pub open spec fn taken_again(
    x0: i32,
    y0: i32,
    x1: i32,
    y1: i32,
    width: i32,
    height: i32,
) -> Option<(int, int, int, int)> {
    let left = if x0 - 1 < 0 {
        0
    } else {
        x0 - 1
    };
    let top = if y0 - 1 < 0 {
        0
    } else {
        y0 - 1
    };
    let right = if x1 + 1 > width {
        width as int
    } else {
        x1 + 1
    };
    let bottom = if y1 + 1 > height {
        height as int
    } else {
        y1 + 1
    };
    if right > left && bottom > top {
        Some((left, top, right - left, bottom - top))
    } else {
        None
    }
}

/// What of a buffer has to be taken again, for a rectangle from one corner to another.
pub fn damaged(x0: i32, y0: i32, x1: i32, y1: i32, width: i32, height: i32) -> (r: Option<
    (i32, i32, i32, i32),
>)
    ensures
        match r {
            Some((x, y, w, h)) => taken_again(x0, y0, x1, y1, width, height) == Some(
                (x as int, y as int, w as int, h as int),
            ),
            None => taken_again(x0, y0, x1, y1, width, height) is None,
        },
{
    let left: i64 = if x0 < 1 {
        0
    } else {
        x0 as i64 - 1
    };
    let top: i64 = if y0 < 1 {
        0
    } else {
        y0 as i64 - 1
    };
    let right: i64 = if x1 as i64 + 1 > width as i64 {
        width as i64
    } else {
        x1 as i64 + 1
    };
    let bottom: i64 = if y1 as i64 + 1 > height as i64 {
        height as i64
    } else {
        y1 as i64 + 1
    };
    if right > left && bottom > top {
        Some((left as i32, top as i32, (right - left) as i32, (bottom - top) as i32))
    } else {
        None
    }
}

/// What has to be taken again lies within the buffer, and covers the rectangle where that does.
pub proof fn law_damage_lies_within_the_buffer(
    x0: i32,
    y0: i32,
    x1: i32,
    y1: i32,
    width: i32,
    height: i32,
)
    ensures
        taken_again(x0, y0, x1, y1, width, height) matches Some((x, y, w, h)) ==> 0 <= x && 0 <= y
            && w > 0 && h > 0 && x + w <= width && y + h <= height,
        0 <= x0 < x1 <= width && 0 <= y0 < y1 <= height ==> (taken_again(
            x0,
            y0,
            x1,
            y1,
            width,
            height,
        ) matches Some((x, y, w, h)) && x <= x0 && y <= y0 && x1 <= x + w && y1 <= y + h),
{
}

/// Every bar there is, in the order their screens were announced.
#[derive(Debug)]
pub struct Bars {
    pub bars: Vec<Bar>,
    /// Whether it was said that there is a bar nowhere.
    pub nowhere_warned: bool,
}

/// Where the bar of a screen is, from `from` on.
pub open spec fn on_output(bars: Seq<Bar>, output: u32, from: int) -> Option<int>
    decreases bars.len() - from,
{
    if from < 0 || from >= bars.len() {
        None
    } else if bars[from].output == output {
        Some(from)
    } else {
        on_output(bars, output, from + 1)
    }
}

/// What to do about a screen.
#[derive(Clone, Copy, Debug, PartialEq, Eq, Structural)]
pub enum Screen {
    /// Nothing.
    Leave,
    /// Put a bar on it.
    Add,
    /// Take the bar off it.
    Drop,
    /// Draw its bar again: it has learned its name.
    Redraw(usize),
}

/// Whether a screen that has just been announced gets a bar: one that has none already, if the
/// configuration asks for one there.
pub open spec fn announced(bars: Seq<Bar>, output: u32, wanted: bool) -> Screen {
    if on_output(bars, output, 0) is Some || !wanted {
        Screen::Leave
    } else {
        Screen::Add
    }
}

/// What a change to a screen comes to. Its name may have only just arrived, and with it the
/// answer to whether a bar was wanted there at all.
pub open spec fn changed(bars: Seq<Bar>, output: u32, name: Option<Seq<char>>, wanted: bool) -> Screen {
    match on_output(bars, output, 0) {
        Some(i) => if !wanted {
            Screen::Drop
        } else if opt_view(bars[i].name) != name {
            Screen::Redraw(i as usize)
        } else {
            Screen::Leave
        },
        None => if wanted {
            Screen::Add
        } else {
            Screen::Leave
        },
    }
}

/// A name that may not be there yet, as text.
pub open spec fn name_view(name: Option<&str>) -> Option<Seq<char>> {
    match name {
        Some(n) => Some(n@),
        None => None,
    }
}

/// The bars, all of them to be drawn again.
pub open spec fn all_dirty(bars: Seq<Bar>) -> Seq<Bar> {
    Seq::new(bars.len(), |i: int| Bar { dirty: true, ..bars[i] })
}

impl Bars {
    /// No screen has two bars.
    pub open spec fn wf(self) -> bool {
        forall|i: int, j: int|
            0 <= i < j < self.bars@.len() ==> (#[trigger] self.bars@[i]).output
                != (#[trigger] self.bars@[j]).output
    }

    pub fn new() -> (b: Bars)
        ensures
            b.wf(),
            b.bars@.len() == 0,
            !b.nowhere_warned,
    {
        Bars { bars: Vec::new(), nowhere_warned: false }
    }

    /// Where the bar of a screen is.
    pub fn find(&self, output: u32) -> (r: Option<usize>)
        ensures
            match r {
                Some(i) => on_output(self.bars@, output, 0) == Some(i as int) && i
                    < self.bars@.len() && self.bars@[i as int].output == output,
                None => on_output(self.bars@, output, 0) is None && forall|i: int|
                    0 <= i < self.bars@.len() ==> (#[trigger] self.bars@[i]).output != output,
            },
    {
        for i in 0..self.bars.len()
            invariant
                on_output(self.bars@, output, 0) == on_output(self.bars@, output, i as int),
                forall|j: int| 0 <= j < i ==> (#[trigger] self.bars@[j]).output != output,
        {
            if self.bars[i].output == output {
                return Some(i);
            }
        }
        None
    }

    /// What to do about a screen that has just been announced.
    pub fn new_output(&self, cfg: &BarConfig, output: u32, name: Option<&str>) -> (s: Screen)
        ensures
            s == announced(
                self.bars@,
                output,
                shown_on(texts(cfg.outputs@), name_view(name)),
            ),
    {
        if self.find(output).is_some() {
            return Screen::Leave;
        }
        if !cfg.shows_on(name) {
            return Screen::Leave;
        }
        Screen::Add
    }

    /// Put a bar on a screen that has none.
    pub fn add_bar(&mut self, bar: Bar)
        requires
            old(self).wf(),
            on_output(old(self).bars@, bar.output, 0) is None,
        ensures
            final(self).wf(),
            final(self).bars@ == old(self).bars@.push(bar),
            !final(self).nowhere_warned,
    {
        let found = self.find(bar.output);
        self.bars.push(bar);
        self.nowhere_warned = false;
    }

    /// Take the bar off a screen, returning where it was.
    pub fn drop_bar(&mut self, output: u32) -> (r: Option<usize>)
        requires
            old(self).wf(),
        ensures
            final(self).wf(),
            final(self).nowhere_warned == old(self).nowhere_warned,
            match r {
                Some(i) => on_output(old(self).bars@, output, 0) == Some(i as int) && final(self).bars@ == old(self).bars@.remove(i as int),
                None => on_output(old(self).bars@, output, 0) is None && final(self).bars@ == old(
                    self,
                ).bars@,
            },
    {
        let ghost before = self.bars@;
        match self.find(output) {
            Some(i) => {
                let _ = self.bars.remove(i);
                proof {
                    assert forall|a: int, b: int| 0 <= a < b < self.bars@.len() implies (
                    #[trigger] self.bars@[a]).output != (#[trigger] self.bars@[b]).output by {
                        let c = if a < i {
                            a
                        } else {
                            a + 1
                        };
                        let d = if b < i {
                            b
                        } else {
                            b + 1
                        };
                        assert(self.bars@[a] == before[c] && self.bars@[b] == before[d]);
                        assert(before[c].output != before[d].output);
                    }
                }
                Some(i)
            },
            None => None,
        }
    }

    /// Take in that a screen has changed, and say what that comes to. A bar that has just
    /// learned its name is showing the wrong screen's workspaces until it draws again.
    pub fn update_output(&mut self, cfg: &BarConfig, output: u32, name: Option<String>) -> (s:
        Screen)
        requires
            old(self).wf(),
        ensures
            final(self).wf(),
            final(self).nowhere_warned == old(self).nowhere_warned,
            s == changed(
                old(self).bars@,
                output,
                opt_view(name),
                shown_on(texts(cfg.outputs@), opt_view(name)),
            ),
            match s {
                Screen::Redraw(i) => {
                    &&& i < old(self).bars@.len()
                    &&& final(self).bars@.len() == old(self).bars@.len()
                    &&& final(self).bars@[i as int] == (Bar {
                        name,
                        dirty: true,
                        ..old(self).bars@[i as int]
                    })
                    &&& forall|j: int|
                        0 <= j < old(self).bars@.len() && j != i ==> #[trigger] final(self).bars@[j] == old(self).bars@[j]
                },
                _ => final(self).bars@ == old(self).bars@,
            },
    {
        let wanted = match &name {
            Some(n) => cfg.shows_on(Some(n.as_str())),
            None => cfg.shows_on(None),
        };
        match self.find(output) {
            Some(i) => {
                if !wanted {
                    return Screen::Drop;
                }
                if same_opts(&self.bars[i].name, &name) {
                    return Screen::Leave;
                }
                let ghost before = self.bars@;
                self.bars[i].name = name;
                self.bars[i].dirty = true;
                proof {
                    assert forall|a: int, b: int| 0 <= a < b < self.bars@.len() implies (
                    #[trigger] self.bars@[a]).output != (#[trigger] self.bars@[b]).output by {
                        assert(self.bars@[a].output == before[a].output);
                        assert(self.bars@[b].output == before[b].output);
                    }
                }
                Screen::Redraw(i)
            },
            None => if wanted {
                Screen::Add
            } else {
                Screen::Leave
            },
        }
    }

    /// Mark every bar as needing a redraw: they all show the same thing, so a reading arriving
    /// is a redraw on each screen.
    pub fn invalidate(&mut self)
        requires
            old(self).wf(),
        ensures
            final(self).wf(),
            final(self).bars@ == all_dirty(old(self).bars@),
            final(self).nowhere_warned == old(self).nowhere_warned,
    {
        let ghost before = self.bars@;
        let long = self.bars.len();
        for i in 0..long
            invariant
                long == self.bars@.len(),
                long == before.len(),
                self.nowhere_warned == old(self).nowhere_warned,
                forall|j: int|
                    0 <= j < i ==> #[trigger] self.bars@[j] == (Bar { dirty: true, ..before[j] }),
                forall|j: int| i <= j < long ==> #[trigger] self.bars@[j] == before[j],
        {
            self.bars[i].dirty = true;
        }
        assert(self.bars@ =~= all_dirty(before));
        proof {
            assert forall|a: int, b: int| 0 <= a < b < self.bars@.len() implies (
            #[trigger] self.bars@[a]).output != (#[trigger] self.bars@[b]).output by {
                assert(before[a].output != before[b].output);
            }
        }
    }

    /// Whether it is to be said that a configuration names screens that are not here, which is
    /// otherwise a bar that simply never appears. It is said once.
    pub fn warn_if_nowhere(&mut self, cfg: &BarConfig) -> (r: bool)
        ensures
            r == (old(self).bars@.len() == 0 && !old(self).nowhere_warned && cfg.outputs@.len()
                > 0),
            final(self).bars == old(self).bars,
            final(self).nowhere_warned == (old(self).nowhere_warned || r),
    {
        if self.bars.len() > 0 || self.nowhere_warned || cfg.outputs.len() == 0 {
            return false;
        }
        self.nowhere_warned = true;
        true
    }
}

/// What is to be said about how many blocks the status provider sends.
#[derive(Clone, Copy, Debug, PartialEq, Eq, Structural)]
pub enum NameTrouble {
    Nothing,
    /// It sends fewer than are named: it is still starting up, and the names are held back,
    /// because a short list would show one block's value under another block's name.
    Starting,
    /// It sends more than are named: the extra ones keep the names the provider gave them.
    Extra,
}

/// What is to be said about a provider that sends this many blocks where this many are named.
pub open spec fn name_trouble(blocks: usize, names: usize, said: bool) -> NameTrouble {
    if names == 0 || blocks == names || said {
        NameTrouble::Nothing
    } else if blocks < names {
        NameTrouble::Starting
    } else {
        NameTrouble::Extra
    }
}

/// Notices that are given once rather than on every draw.
#[derive(Debug)]
pub struct Notices {
    pub name_count_warned: bool,
    /// The names of the items when it was last said that nothing matched them.
    pub warned_names: Option<Vec<String>>,
}

/// What an item is called in a notice.
pub open spec fn called(name: Option<String>) -> Seq<char> {
    match name {
        Some(n) => n@,
        None => "<unnamed>"@,
    }
}

/// What items are called in a notice.
pub open spec fn all_called(items: Seq<Option<String>>) -> Seq<Seq<char>> {
    Seq::new(items.len(), |i: int| called(items[i]))
}

/// The names that may have been said.
pub open spec fn said_names(names: Option<Vec<String>>) -> Option<Seq<Seq<char>>> {
    match names {
        Some(v) => Some(texts(v@)),
        None => None,
    }
}

impl Notices {
    pub fn new() -> (n: Notices)
        ensures
            !n.name_count_warned,
            n.warned_names is None,
    {
        Notices { name_count_warned: false, warned_names: None }
    }

    /// What is to be said about how many blocks the status provider sends. That it sends too
    /// many is said once.
    pub fn warn_about_names(&mut self, blocks: usize, names: usize) -> (t: NameTrouble)
        ensures
            t == name_trouble(blocks, names, old(self).name_count_warned),
            final(self).name_count_warned == (old(self).name_count_warned || t
                == NameTrouble::Extra),
            final(self).warned_names == old(self).warned_names,
    {
        if names == 0 || blocks == names || self.name_count_warned {
            return NameTrouble::Nothing;
        }
        if blocks < names {
            return NameTrouble::Starting;
        }
        self.name_count_warned = true;
        NameTrouble::Extra
    }

    /// Whether to point out that nothing the status provider sends is shown anywhere, which
    /// would otherwise leave a blank bar with no explanation of why: the names to say. It is
    /// said again only when the names have changed.
    pub fn warn_if_nothing_matched(
        &mut self,
        drawn: usize,
        items: &Vec<Option<String>>,
        native: bool,
    ) -> (r: Option<Vec<String>>)
        ensures
            final(self).name_count_warned == old(self).name_count_warned,
            if drawn > 0 || items@.len() == 0 || native {
                r is None && final(self).warned_names is None
            } else if said_names(old(self).warned_names) == Some(all_called(items@)) {
                r is None && final(self).warned_names == old(self).warned_names
            } else {
                &&& r matches Some(names) && texts(names@) == all_called(items@)
                &&& said_names(final(self).warned_names) == Some(all_called(items@))
            },
    {
        if drawn > 0 || items.len() == 0 || native {
            self.warned_names = None;
            return None;
        }
        let names = call_all(items);
        if let Some(said) = &self.warned_names {
            if same_texts(said, &names) {
                return None;
            }
        }
        self.warned_names = Some(call_all(items));
        Some(names)
    }
}

fn call_all(items: &Vec<Option<String>>) -> (names: Vec<String>)
    ensures
        texts(names@) == all_called(items@),
{
    let mut names: Vec<String> = Vec::new();
    for i in 0..items.len()
        invariant
            names@.len() == i,
            forall|j: int| 0 <= j < i ==> (#[trigger] names@[j])@ == called(items@[j]),
    {
        let name = match &items[i] {
            Some(n) => n.clone(),
            None => owned("<unnamed>"),
        };
        names.push(name);
    }
    assert(texts(names@) =~= all_called(items@));
    names
}

} // verus!
