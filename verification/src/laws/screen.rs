//! When a bar is drawn, how large, how much of it, and when it is gone.

use crate::app::autohide::{entered, left, pinned_as, stepped, Autohide};
use crate::app::screen::{announced, buffer_size, changed, drawable, first_bytes, name_trouble};
use crate::app::screen::{on_output, presented_already, taken_again, Bar, NameTrouble, Screen};
use crate::app::scroll::{moved, stepped as scrolled, AxisScroll};
use crate::text::opt_view;
use crate::time::Instant;
use vstd::prelude::*;

verus! {

/// A bar is drawn when something on it changed, the compositor is ready for it, and it has a
/// size.
pub proof fn law_a_bar_is_drawn_when_it_changed(b: Bar)
    ensures
        drawable(b) <==> b.dirty && b.configured && !b.frame_pending && b.width > 0,
{
}

/// A bar is shown already exactly when nothing on it is damaged and it was shown last at this
/// size and scale.
pub proof fn law_a_bar_is_shown_at_its_own_size(b: Bar, damaged: bool, w: u32, h: u32, s: i32)
    requires
        b.presented == Some((w, h, s)),
    ensures
        presented_already(b, damaged) <==> !damaged && b.width == w && b.height == h && b.scale
            == s,
        presented_already((Bar { presented: None, ..b }), damaged) == false,
{
}

/// A buffer has as many pixels each way as the scale puts in one, and four bytes for each.
pub proof fn law_a_buffer_holds_every_pixel(b: Bar)
    ensures
        b.scale >= 1 ==> buffer_size(b) == (
            b.width * b.scale,
            b.height * b.scale,
            b.width * b.scale * 4,
        ),
        b.scale < 1 ==> buffer_size(b) == (b.width as int, b.height as int, b.width * 4),
{
}

/// The memory a bar starts with holds a whole buffer of it.
pub proof fn law_a_bar_starts_with_room_for_itself(width: u32, height: u32, scale: i32, b: Bar)
    requires
        b.width == width && b.height == height && b.scale == scale,
        width > 0,
    ensures
        first_bytes(width, height, scale) == buffer_size(b).2 * buffer_size(b).1,
{
    let s = if scale < 1 {
        1int
    } else {
        scale as int
    };
    assert(width * s >= 1) by (nonlinear_arith)
        requires
            width > 0,
            s >= 1,
    ;
    let across = width * s;
    assert(across * height * s * 4 == (across * 4) * (height * s)) by (nonlinear_arith);
}

/// A pixel is taken again exactly when it is in the buffer and no more than one away from what
/// changed.
pub proof fn law_what_changed_is_taken_again(
    x0: i32,
    y0: i32,
    x1: i32,
    y1: i32,
    width: i32,
    height: i32,
    x: int,
    y: int,
)
    ensures
        ({
            let near = 0 <= x < width && 0 <= y < height && x0 - 1 <= x < x1 + 1 && y0 - 1 <= y < y1
                + 1;
            match taken_again(x0, y0, x1, y1, width, height) {
                Some((left, top, wide, high)) => near <==> left <= x < left + wide && top <= y < top
                    + high,
                None => !near,
            }
        }),
{
}

proof fn lemma_on_output(bars: Seq<Bar>, output: u32, from: int)
    requires
        0 <= from <= bars.len(),
    ensures
        match on_output(bars, output, from) {
            Some(i) => from <= i < bars.len() && bars[i].output == output,
            None => forall|j: int| from <= j < bars.len() ==> (#[trigger] bars[j]).output != output,
        },
    decreases bars.len() - from,
{
    if from < bars.len() && bars[from].output != output {
        lemma_on_output(bars, output, from + 1);
    }
}

/// A screen gets a bar when it is wanted there and has none, loses it when it is not, and has it
/// drawn again when the screen goes by another name.
pub proof fn law_a_screen_has_a_bar_where_it_is_wanted(
    bars: Seq<Bar>,
    output: u32,
    name: Option<Seq<char>>,
    wanted: bool,
)
    requires
        bars.len() <= usize::MAX,
    ensures
        ({
            let there = exists|i: int|
                0 <= i < bars.len() && (#[trigger] bars[i]).output == output;
            let does = changed(bars, output, name, wanted);
            &&& does == Screen::Add <==> wanted && !there
            &&& does == Screen::Drop <==> !wanted && there
            &&& does matches Screen::Redraw(i) ==> wanted && i < bars.len() && bars[i as int].output
                == output && opt_view(bars[i as int].name) != name
            &&& announced(bars, output, wanted) == (if wanted && !there {
                Screen::Add
            } else {
                Screen::Leave
            })
        }),
        forall|i: int|
            0 <= i < bars.len() && (#[trigger] bars[i]).output == output && (forall|j: int|
                0 <= j < i ==> (#[trigger] bars[j]).output != output) && wanted ==> changed(
                bars,
                output,
                name,
                wanted,
            ) == (if opt_view(bars[i].name) != name {
                Screen::Redraw(i as usize)
            } else {
                Screen::Leave
            }),
{
    lemma_on_output(bars, output, 0);
    if let Some(i) = on_output(bars, output, 0) {
        assert(bars[i].output == output);
        assert forall|k: int|
            0 <= k < bars.len() && (#[trigger] bars[k]).output == output && (forall|j: int|
                0 <= j < k ==> (#[trigger] bars[j]).output != output) && wanted implies changed(
            bars,
            output,
            name,
            wanted,
        ) == (if opt_view(bars[k].name) != name {
            Screen::Redraw(k as usize)
        } else {
            Screen::Leave
        }) by {
            lemma_first_on_output(bars, output, 0, k);
        }
    }
}

proof fn lemma_first_on_output(bars: Seq<Bar>, output: u32, from: int, k: int)
    requires
        0 <= from <= k < bars.len(),
        bars[k].output == output,
        forall|j: int| from <= j < k ==> (#[trigger] bars[j]).output != output,
    ensures
        on_output(bars, output, from) == Some(k),
    decreases k - from,
{
    if from < k {
        lemma_first_on_output(bars, output, from + 1, k);
    }
}

/// A provider that sends fewer blocks than are named is starting up, one that sends more is told
/// off once, and neither where nothing is named.
pub proof fn law_a_provider_is_told_off_once(blocks: usize, names: usize, said: bool)
    ensures
        name_trouble(blocks, names, said) == NameTrouble::Extra <==> 0 < names < blocks && !said,
        name_trouble(blocks, names, said) == NameTrouble::Starting <==> blocks < names && !said,
{
}

/// A notch of a wheel is a hundred and twenty of its finest parts and one of its coarse ones, and
/// fifteen of what a pad counts; and each is a step, up or down.
pub proof fn law_a_notch_is_a_step(n: i32)
    requires
        -1000 <= n <= 1000,
        n != 0,
    ensures
        ({
            let fine = AxisScroll {
                value120: (n * 120) as i32,
                discrete: 0,
                travelled: 0,
                stop: false,
            };
            let coarse = AxisScroll { value120: 0, discrete: n, travelled: 0, stop: false };
            let pad = AxisScroll {
                value120: 0,
                discrete: 0,
                travelled: (n * 15 * 256) as i32,
                stop: false,
            };
            &&& scrolled(fine, 0) == (n as int, 0int)
            &&& scrolled(coarse, 0) == (n as int, 0int)
            &&& scrolled(pad, 0) == (n as int, 0int)
        }),
{
}

/// What a scroll does not make a step of is carried to the next one in the same direction, and
/// dropped at one the other way.
pub proof fn law_what_is_left_of_a_step_is_carried(axis: AxisScroll, carried: int)
    requires
        -3840 < carried < 3840,
    ensures
        ({
            let (made, rest) = scrolled(axis, carried);
            let same_way = (carried < 0) == (moved(axis) < 0);
            &&& axis.stop || moved(axis) == 0 ==> made == 0 && rest == 0
            &&& !axis.stop && moved(axis) != 0 ==> {
                &&& -3840 < rest < 3840
                &&& made * 3840 + rest == moved(axis) + if same_way {
                    carried
                } else {
                    0
                }
                &&& moved(axis) > 0 ==> made >= 0 && rest >= 0
                &&& moved(axis) < 0 ==> made <= 0 && rest <= 0
            }
        }),
{
}

/// A bar that is out is hidden once its delay is over with nothing to keep it: the pointer is
/// off it, nobody pinned it, and nothing is open. Until then it stays.
pub proof fn law_a_bar_is_hidden_when_nothing_keeps_it(
    a: Autohide,
    now: Instant,
    later: Instant,
    held: bool,
)
    requires
        !a.is_hidden,
        now.nanos + a.delay.nanos <= u128::MAX,
    ensures
        ({
            let gone = left(a, now, held);
            let kept_out = a.is_pinned || held;
            &&& !gone.hovered && gone.is_pinned == a.is_pinned && gone.delay == a.delay
            &&& !kept_out && later.nanos >= now.nanos + a.delay.nanos ==> stepped(
                gone,
                later,
            ).is_hidden
            &&& !kept_out && later.nanos < now.nanos + a.delay.nanos ==> !stepped(
                gone,
                later,
            ).is_hidden
            &&& kept_out ==> !stepped(gone, later).is_hidden
        }),
{
}

/// The pointer on the bar brings it out, and so does pinning it; and unpinning it starts its
/// delay where the pointer is not on it.
pub proof fn law_pointing_and_pinning_bring_a_bar_out(
    a: Autohide,
    now: Instant,
    later: Instant,
    held: bool,
)
    requires
        now.nanos + a.delay.nanos <= u128::MAX,
    ensures
        !entered(a).is_hidden && entered(a).hovered && !stepped(entered(a), later).is_hidden,
        !pinned_as(a, true, now, held).is_hidden && pinned_as(a, true, now, held).is_pinned,
        !stepped(pinned_as(a, true, now, held), later).is_hidden,
        !pinned_as(a, false, now, held).is_pinned,
        pinned_as(a, false, now, held).is_hidden == a.is_hidden,
        !a.is_hidden && !a.hovered && !held ==> (stepped(
            pinned_as(a, false, now, held),
            later,
        ).is_hidden <==> later.nanos >= now.nanos + a.delay.nanos),
        a.hovered || held ==> stepped(pinned_as(a, false, now, held), later).is_hidden
            == a.is_hidden,
{
}

} // verus!
