//! Color parsing for the `#rrggbb[aa]` forms used in the config and in i3bar blocks.

use crate::number::{nearest, WHOLE};
use crate::text::chars_of;
use vstd::prelude::*;

verus! {

/// Straight (non-premultiplied) 8-bit RGBA.
#[derive(Clone, Copy, Debug, PartialEq, Eq, Structural)]
pub struct Color {
    pub r: u8,
    pub g: u8,
    pub b: u8,
    pub a: u8,
}

/// Why a text is not a color.
#[derive(Clone, Copy, Debug, PartialEq, Eq, Structural)]
pub enum BadColor {
    /// It holds something else than hexadecimal digits.
    NotHexadecimal,
    /// It is not one of the four lengths a color is written in.
    WrongLength,
}

/// The number a hexadecimal digit stands for.
pub open spec fn hex_value(c: char) -> Option<int> {
    if '0' <= c <= '9' {
        Some(c as u32 - '0' as u32)
    } else if 'a' <= c <= 'f' {
        Some(c as u32 - 'a' as u32 + 10)
    } else if 'A' <= c <= 'F' {
        Some(c as u32 - 'A' as u32 + 10)
    } else {
        None
    }
}

/// A text without the `#` it may start with.
pub open spec fn without_hash(s: Seq<char>) -> Seq<char> {
    if s.len() > 0 && s[0] == '#' {
        s.drop_first()
    } else {
        s
    }
}

pub open spec fn all_hex(h: Seq<char>) -> bool {
    forall|i: int| 0 <= i < h.len() ==> hex_value(#[trigger] h[i]) is Some
}

/// The channel two digits write.
pub open spec fn hex_pair(h: Seq<char>, i: int) -> u8 {
    (hex_value(h[i])->0 * 16 + hex_value(h[i + 1])->0) as u8
}

/// The channel one digit writes: in the short forms each digit is doubled, so `c` means `cc`.
pub open spec fn hex_single(h: Seq<char>, i: int) -> u8 {
    (hex_value(h[i])->0 * 17) as u8
}

/// The color a text writes: `#rgb`, `#rgba`, `#rrggbb` or `#rrggbbaa`, with the `#` optional
/// and a missing alpha opaque.
pub open spec fn written_color(s: Seq<char>) -> Result<Color, BadColor> {
    let h = without_hash(s);
    if !all_hex(h) {
        Err(BadColor::NotHexadecimal)
    } else if h.len() == 3 {
        Ok(Color { r: hex_single(h, 0), g: hex_single(h, 1), b: hex_single(h, 2), a: 0xff })
    } else if h.len() == 4 {
        Ok(
            Color {
                r: hex_single(h, 0),
                g: hex_single(h, 1),
                b: hex_single(h, 2),
                a: hex_single(h, 3),
            },
        )
    } else if h.len() == 6 {
        Ok(Color { r: hex_pair(h, 0), g: hex_pair(h, 2), b: hex_pair(h, 4), a: 0xff })
    } else if h.len() == 8 {
        Ok(
            Color {
                r: hex_pair(h, 0),
                g: hex_pair(h, 2),
                b: hex_pair(h, 4),
                a: hex_pair(h, 6),
            },
        )
    } else {
        Err(BadColor::WrongLength)
    }
}

/// A share no larger than the whole.
pub open spec fn at_most_whole(t: u32) -> int {
    if t <= WHOLE {
        t as int
    } else {
        WHOLE as int
    }
}

/// So much of one number and the rest of another, in parts of the whole.
pub open spec fn blend(a: int, b: int, t: int) -> int {
    a * (WHOLE - t) + b * t
}

/// One channel of two colors mixed by the light each of them lets through.
pub open spec fn mixed_channel(a: int, alpha: int, b: int, other: int, t: int) -> int {
    nearest(blend(a * alpha, b * other, t), blend(alpha, other, t))
}

/// One color so much of the way towards another.
pub open spec fn mixed(from: Color, to: Color, t: int) -> Color {
    if blend(from.a as int, to.a as int, t) == 0 {
        Color { r: 0, g: 0, b: 0, a: 0 }
    } else {
        Color {
            r: mixed_channel(from.r as int, from.a as int, to.r as int, to.a as int, t) as u8,
            g: mixed_channel(from.g as int, from.a as int, to.g as int, to.a as int, t) as u8,
            b: mixed_channel(from.b as int, from.a as int, to.b as int, to.a as int, t) as u8,
            a: nearest(blend(from.a as int, to.a as int, t), WHOLE as int) as u8,
        }
    }
}

/// The same color at a fraction of its opacity.
pub open spec fn quieter(c: Color, factor: int) -> Color {
    Color { a: nearest(c.a * factor, WHOLE as int) as u8, ..c }
}

proof fn lemma_blend(a: int, b: int, most: int, t: int)
    requires
        0 <= a <= most,
        0 <= b <= most,
        0 <= t <= WHOLE,
    ensures
        0 <= blend(a, b, t) <= most * WHOLE,
{
    let w = WHOLE as int;
    assert(0 <= a * (w - t) + b * t <= most * w) by (nonlinear_arith)
        requires
            0 <= a <= most,
            0 <= b <= most,
            0 <= t <= w,
    ;
}

proof fn lemma_nearest(n: int, d: int, most: int)
    requires
        0 <= n <= most * d,
        d > 0,
        most >= 0,
    ensures
        0 <= nearest(n, d) <= most,
{
    assert(0 <= (2 * n + d) / (2 * d) <= most) by (nonlinear_arith)
        requires
            0 <= n <= most * d,
            d > 0,
            most >= 0,
    ;
}

proof fn lemma_mixed_channel(a: int, alpha: int, b: int, other: int, t: int)
    requires
        0 <= a <= 255,
        0 <= b <= 255,
        0 <= alpha <= 255,
        0 <= other <= 255,
        0 <= t <= WHOLE,
        blend(alpha, other, t) > 0,
    ensures
        0 <= blend(a * alpha, b * other, t) <= 255 * blend(alpha, other, t),
        0 <= mixed_channel(a, alpha, b, other, t) <= 255,
{
    let w = WHOLE as int;
    assert(0 <= a * alpha * (w - t) <= 255 * (alpha * (w - t))) by (nonlinear_arith)
        requires
            0 <= a <= 255,
            0 <= alpha,
            0 <= t <= w,
    ;
    assert(0 <= b * other * t <= 255 * (other * t)) by (nonlinear_arith)
        requires
            0 <= b <= 255,
            0 <= other,
            0 <= t,
    ;
    lemma_nearest(blend(a * alpha, b * other, t), blend(alpha, other, t), 255);
}

fn mix_channel(a: u8, alpha: u8, b: u8, other: u8, t: u32) -> (r: u8)
    requires
        t <= WHOLE,
        blend(alpha as int, other as int, t as int) > 0,
    ensures
        r == mixed_channel(a as int, alpha as int, b as int, other as int, t as int),
{
    proof {
        lemma_mixed_channel(a as int, alpha as int, b as int, other as int, t as int);
        lemma_blend(alpha as int, other as int, 255, t as int);
        assert(0 <= a * alpha <= 65025 && 0 <= b * other <= 65025) by (nonlinear_arith)
            requires
                0 <= a <= 255,
                0 <= alpha <= 255,
                0 <= b <= 255,
                0 <= other <= 255,
        ;
        let x = a * alpha;
        let y = b * other;
        let left = WHOLE - t;
        assert(0 <= x * left <= 65025 * WHOLE && 0 <= y * t <= 65025 * WHOLE) by (nonlinear_arith)
            requires
                0 <= x <= 65025,
                0 <= y <= 65025,
                0 <= left <= WHOLE,
                0 <= t <= WHOLE,
        ;
        assert(0 <= alpha * left <= 255 * WHOLE && 0 <= other * t <= 255 * WHOLE)
            by (nonlinear_arith)
            requires
                0 <= alpha <= 255,
                0 <= other <= 255,
                0 <= left <= WHOLE,
                0 <= t <= WHOLE,
        ;
    }
    let t: u64 = t as u64;
    let left: u64 = WHOLE as u64 - t;
    let n: u64 = a as u64 * alpha as u64 * left + b as u64 * other as u64 * t;
    let d: u64 = alpha as u64 * left + other as u64 * t;
    ((2 * n + d) / (2 * d)) as u8
}

fn hex(c: char) -> (r: Option<u8>)
    ensures
        match r {
            Some(n) => hex_value(c) == Some(n as int) && n < 16,
            None => hex_value(c) is None,
        },
{
    if '0' <= c && c <= '9' {
        Some((c as u32 - '0' as u32) as u8)
    } else if 'a' <= c && c <= 'f' {
        Some((c as u32 - 'a' as u32 + 10) as u8)
    } else if 'A' <= c && c <= 'F' {
        Some((c as u32 - 'A' as u32 + 10) as u8)
    } else {
        None
    }
}

impl Color {
    /// No color at all.
    pub fn transparent() -> (c: Color)
        ensures
            c == (Color { r: 0, g: 0, b: 0, a: 0 }),
    {
        Color { r: 0, g: 0, b: 0, a: 0 }
    }

    pub fn rgba(r: u8, g: u8, b: u8, a: u8) -> (c: Color)
        ensures
            c == (Color { r, g, b, a }),
    {
        Color { r, g, b, a }
    }

    /// Parse `#rgb`, `#rgba`, `#rrggbb` or `#rrggbbaa`. The leading `#` is optional.
    pub fn parse(s: &str) -> (r: Result<Color, BadColor>)
        ensures
            r == written_color(s@),
    {
        let v = chars_of(s);
        let from: usize = if v.len() > 0 && v[0] == '#' {
            1
        } else {
            0
        };
        let ghost h = without_hash(s@);
        assert(h =~= v@.skip(from as int));
        let mut digits: Vec<u8> = Vec::new();
        let mut i: usize = from;
        while i < v.len()
            invariant
                from <= i <= v@.len(),
                h == v@.skip(from as int),
                h == without_hash(s@),
                digits@.len() == i - from,
                forall|j: int|
                    0 <= j < i - from ==> hex_value(#[trigger] h[j]) == Some(digits@[j] as int)
                        && digits@[j] < 16,
            decreases v@.len() - i,
        {
            assert(h[i - from] == v@[i as int]);
            match hex(v[i]) {
                None => {
                    assert(!all_hex(h));
                    return Err(BadColor::NotHexadecimal);
                },
                Some(n) => {
                    digits.push(n);
                },
            }
            i = i + 1;
        }
        assert(all_hex(h));
        let n: usize = digits.len();
        let d = &digits;
        assert(forall|j: int| 0 <= j < n ==> d@[j] == hex_value(#[trigger] h[j])->0);
        if n == 3 {
            Ok(Color::rgba(d[0] * 17, d[1] * 17, d[2] * 17, 0xff))
        } else if n == 4 {
            Ok(Color::rgba(d[0] * 17, d[1] * 17, d[2] * 17, d[3] * 17))
        } else if n == 6 {
            Ok(Color::rgba(d[0] * 16 + d[1], d[2] * 16 + d[3], d[4] * 16 + d[5], 0xff))
        } else if n == 8 {
            Ok(
                Color::rgba(
                    d[0] * 16 + d[1],
                    d[2] * 16 + d[3],
                    d[4] * 16 + d[5],
                    d[6] * 16 + d[7],
                ),
            )
        } else {
            Err(BadColor::WrongLength)
        }
    }

    pub fn is_transparent(self) -> (r: bool)
        ensures
            r == (self.a == 0),
    {
        self.a == 0
    }

    /// This color `t` of the way towards `other`.
    ///
    /// Mixed by the light each lets through. Blending the channels as they are written would
    /// drag a transparent color's channels into the middle of the travel, so a fade from a
    /// module's fill to no fill at all would go out through black rather than through its own
    /// color.
    pub fn mix(self, other: Color, t: u32) -> (c: Color)
        ensures
            c == mixed(self, other, at_most_whole(t)),
    {
        let t: u32 = if t <= WHOLE {
            t
        } else {
            WHOLE
        };
        proof {
            lemma_blend(self.a as int, other.a as int, 255, t as int);
            lemma_nearest(blend(self.a as int, other.a as int, t as int), WHOLE as int, 255);
            let left = WHOLE - t;
            assert(0 <= self.a * left <= 255 * WHOLE && 0 <= other.a * t <= 255 * WHOLE)
                by (nonlinear_arith)
                requires
                    0 <= self.a <= 255,
                    0 <= other.a <= 255,
                    0 <= left <= WHOLE,
                    0 <= t <= WHOLE,
            ;
        }
        let alpha: u64 = self.a as u64 * (WHOLE - t) as u64 + other.a as u64 * t as u64;
        if alpha == 0 {
            return Color::transparent();
        }
        Color {
            r: mix_channel(self.r, self.a, other.r, other.a, t),
            g: mix_channel(self.g, self.a, other.g, other.a, t),
            b: mix_channel(self.b, self.a, other.b, other.a, t),
            a: ((2 * alpha + WHOLE as u64) / (2 * WHOLE as u64)) as u8,
        }
    }

    /// The same color at a fraction of its opacity.
    ///
    /// What a menu wants for a row it will not let you choose and for the rule between two
    /// groups of rows: the same ink, quieter, rather than a second color the config has to be
    /// told about.
    pub fn faded(self, factor: u32) -> (c: Color)
        ensures
            c == quieter(self, at_most_whole(factor)),
    {
        let factor: u32 = if factor <= WHOLE {
            factor
        } else {
            WHOLE
        };
        proof {
            assert(0 <= self.a * factor <= 255 * WHOLE) by (nonlinear_arith)
                requires
                    0 <= self.a <= 255,
                    0 <= factor <= WHOLE,
            ;
            lemma_nearest(self.a * factor, WHOLE as int, 255);
        }
        let n: u64 = self.a as u64 * factor as u64;
        Color { a: ((2 * n + WHOLE as u64) / (2 * WHOLE as u64)) as u8, ..self }
    }
}

proof fn lemma_nearest_whole(n: int, d: int)
    requires
        d > 0,
    ensures
        nearest(n * d, d) == n,
{
    assert((2 * (n * d) + d) / (2 * d) == n) by (nonlinear_arith)
        requires
            d > 0,
    ;
}

/// Mixing sets out from the one color and arrives at the other, unless neither lets anything
/// through there.
pub proof fn law_mixing_starts_and_ends_where_it_says(from: Color, to: Color)
    ensures
        from.a > 0 ==> mixed(from, to, 0) == from,
        to.a > 0 ==> mixed(from, to, WHOLE as int) == to,
{
    let w = WHOLE as int;
    assert forall|a: int, b: int| #[trigger] blend(a, b, 0) == a * w by {
        assert(a * (w - 0) + b * 0 == a * w) by (nonlinear_arith);
    }
    assert forall|a: int, b: int| #[trigger] blend(a, b, w) == b * w by {
        assert(a * (w - w) + b * w == b * w) by (nonlinear_arith);
    }
    lemma_nearest_whole(from.a as int, w);
    lemma_nearest_whole(to.a as int, w);
    lemma_mixed_end(from.r as int, from.a as int);
    lemma_mixed_end(from.g as int, from.a as int);
    lemma_mixed_end(from.b as int, from.a as int);
    lemma_mixed_end(to.r as int, to.a as int);
    lemma_mixed_end(to.g as int, to.a as int);
    lemma_mixed_end(to.b as int, to.a as int);
}

proof fn lemma_mixed_end(a: int, alpha: int)
    ensures
        alpha > 0 ==> nearest(a * alpha * WHOLE, alpha * WHOLE) == a,
{
    let w = WHOLE as int;
    if alpha > 0 {
        assert(a * alpha * w == a * (alpha * w)) by (nonlinear_arith);
        assert(alpha * w > 0) by (nonlinear_arith)
            requires
                alpha > 0,
                w > 0,
        ;
        lemma_nearest_whole(a, alpha * w);
    }
}

/// A fade to nothing goes out through the color's own channels: whatever is written under a
/// transparent color never shows.
pub proof fn law_a_fade_keeps_its_own_color(from: Color, to: Color, t: int)
    requires
        from.a > 0,
        to.a == 0,
        0 <= t < WHOLE,
    ensures
        mixed(from, to, t).r == from.r,
        mixed(from, to, t).g == from.g,
        mixed(from, to, t).b == from.b,
{
    let w = WHOLE as int;
    let alpha = from.a as int;
    let d = alpha * (w - t);
    assert(d > 0) by (nonlinear_arith)
        requires
            alpha > 0,
            t < w,
            d == alpha * (w - t),
    ;
    assert(blend(alpha, 0, t) == d) by (nonlinear_arith)
        requires
            d == alpha * (w - t),
            w == WHOLE,
    ;
    assert forall|a: int, b: int| #[trigger] blend(a * alpha, b * 0, t) == a * d by {
        assert(a * alpha * (w - t) + b * 0 * t == a * (alpha * (w - t))) by (nonlinear_arith);
    }
    lemma_nearest_whole(from.r as int, d);
    lemma_nearest_whole(from.g as int, d);
    lemma_nearest_whole(from.b as int, d);
}

} // verus!
