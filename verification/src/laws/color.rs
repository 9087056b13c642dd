//! What a color is written as, and what becomes of it.

use crate::color::{all_hex, hex_pair, hex_single, hex_value, mixed, quieter, written_color, BadColor};
use crate::color::Color;
use vstd::prelude::*;

verus! {

/// The sixteen digits a color is written with.
pub open spec fn hexadecimal(n: int) -> char {
    if n < 10 {
        (48 + n) as char
    } else {
        (87 + n) as char
    }
}

/// The two digits of a channel.
pub open spec fn channel(n: u8) -> Seq<char> {
    seq![hexadecimal(n as int / 16), hexadecimal(n as int % 16)]
}

/// A color is what it is written as: red, green and blue, two digits each, and how much it lets
/// through where that is written; with a hash in front or without.
pub proof fn law_a_color_is_read_as_it_is_written(c: Color)
    ensures
        written_color(channel(c.r) + channel(c.g) + channel(c.b) + channel(c.a)) == Ok::<
            Color,
            BadColor,
        >(c),
        written_color(seq!['#'] + (channel(c.r) + channel(c.g) + channel(c.b) + channel(c.a)))
            == Ok::<Color, BadColor>(c),
        written_color(channel(c.r) + channel(c.g) + channel(c.b)) == Ok::<Color, BadColor>(
            Color { a: 255, ..c },
        ),
        written_color(seq!['#'] + (channel(c.r) + channel(c.g) + channel(c.b))) == Ok::<
            Color,
            BadColor,
        >(Color { a: 255, ..c }),
{
    let (r, g, b, a) = (channel(c.r), channel(c.g), channel(c.b), channel(c.a));
    let long = r + g + b + a;
    let short = r + g + b;
    lemma_channel(c.r);
    lemma_channel(c.g);
    lemma_channel(c.b);
    lemma_channel(c.a);
    assert((seq!['#'] + long).drop_first() =~= long);
    assert((seq!['#'] + short).drop_first() =~= short);
    assert(long.len() == 8 && short.len() == 6);
    assert(long[0] == r[0] && long[1] == r[1] && long[2] == g[0] && long[3] == g[1]);
    assert(long[4] == b[0] && long[5] == b[1] && long[6] == a[0] && long[7] == a[1]);
    assert(short[0] == r[0] && short[1] == r[1] && short[2] == g[0] && short[3] == g[1]);
    assert(short[4] == b[0] && short[5] == b[1]);
    lemma_read_long(long, c);
    lemma_read_short(short, c);
}

proof fn lemma_channel(n: u8)
    ensures
        hex_value(channel(n)[0]) == Some(n as int / 16),
        hex_value(channel(n)[1]) == Some(n as int % 16),
        channel(n)[0] != '#',
{
    lemma_digit(n as int / 16);
    lemma_digit(n as int % 16);
}

proof fn lemma_digit(n: int)
    requires
        0 <= n < 16,
    ensures
        hex_value(hexadecimal(n)) == Some(n),
        hexadecimal(n) != '#',
{
    if n < 10 {
        let c = (48 + n) as char;
        assert(c as u32 == 48 + n);
    } else {
        let c = (87 + n) as char;
        assert(c as u32 == 87 + n);
    }
}

proof fn lemma_read_long(h: Seq<char>, c: Color)
    requires
        h.len() == 8,
        h[0] != '#',
        hex_value(h[0]) == Some(c.r as int / 16) && hex_value(h[1]) == Some(c.r as int % 16),
        hex_value(h[2]) == Some(c.g as int / 16) && hex_value(h[3]) == Some(c.g as int % 16),
        hex_value(h[4]) == Some(c.b as int / 16) && hex_value(h[5]) == Some(c.b as int % 16),
        hex_value(h[6]) == Some(c.a as int / 16) && hex_value(h[7]) == Some(c.a as int % 16),
    ensures
        written_color(h) == Ok::<Color, BadColor>(c),
        written_color(seq!['#'] + h) == Ok::<Color, BadColor>(c),
{
    assert((seq!['#'] + h).drop_first() =~= h);
    assert(all_hex(h)) by {
        assert forall|i: int| 0 <= i < 8 implies hex_value(#[trigger] h[i]) is Some by {
            assert(i == 0 || i == 1 || i == 2 || i == 3 || i == 4 || i == 5 || i == 6 || i == 7);
        }
    }
    assert(hex_pair(h, 0) == c.r && hex_pair(h, 2) == c.g && hex_pair(h, 4) == c.b && hex_pair(h, 6)
        == c.a);
}

proof fn lemma_read_short(h: Seq<char>, c: Color)
    requires
        h.len() == 6,
        h[0] != '#',
        hex_value(h[0]) == Some(c.r as int / 16) && hex_value(h[1]) == Some(c.r as int % 16),
        hex_value(h[2]) == Some(c.g as int / 16) && hex_value(h[3]) == Some(c.g as int % 16),
        hex_value(h[4]) == Some(c.b as int / 16) && hex_value(h[5]) == Some(c.b as int % 16),
    ensures
        written_color(h) == Ok::<Color, BadColor>(Color { a: 255, ..c }),
        written_color(seq!['#'] + h) == Ok::<Color, BadColor>(Color { a: 255, ..c }),
{
    assert((seq!['#'] + h).drop_first() =~= h);
    assert(all_hex(h)) by {
        assert forall|i: int| 0 <= i < 6 implies hex_value(#[trigger] h[i]) is Some by {
            assert(i == 0 || i == 1 || i == 2 || i == 3 || i == 4 || i == 5);
        }
    }
    assert(hex_pair(h, 0) == c.r && hex_pair(h, 2) == c.g && hex_pair(h, 4) == c.b);
}

/// A color written with one digit a channel is the one with each digit written twice.
pub proof fn law_a_short_color_is_a_long_one(h: Seq<char>)
    requires
        h.len() == 3 || h.len() == 4,
        h[0] != '#',
        written_color(h) is Ok,
    ensures
        written_color(h) == written_color(Seq::new(2 * h.len(), |i: int| h[i / 2])),
{
    let twice = Seq::new(2 * h.len(), |i: int| h[i / 2]);
    assert(twice[0] == h[0]);
    assert(all_hex(twice)) by {
        assert forall|i: int| 0 <= i < twice.len() implies hex_value(#[trigger] twice[i]) is Some by {
            assert(hex_value(h[i / 2]) is Some);
        }
    }
    assert(hex_value(h[0]) is Some && hex_value(h[1]) is Some && hex_value(h[2]) is Some);
    assert(hex_pair(twice, 0) == hex_single(h, 0));
    assert(hex_pair(twice, 2) == hex_single(h, 1));
    assert(hex_pair(twice, 4) == hex_single(h, 2));
    if h.len() == 4 {
        assert(hex_value(h[3]) is Some);
        assert(hex_pair(twice, 6) == hex_single(h, 3));
    }
}

/// Mixing keeps every channel and the opacity between those of the two colors, where neither
/// lets anything through.
pub proof fn law_mixing_stays_between(from: Color, to: Color, t: int)
    requires
        from.a == 255,
        to.a == 255,
        0 <= t <= 0x100_0000,
    ensures
        ({
            let m = mixed(from, to, t);
            &&& from.r <= to.r ==> from.r <= m.r <= to.r
            &&& to.r <= from.r ==> to.r <= m.r <= from.r
            &&& from.g <= to.g ==> from.g <= m.g <= to.g
            &&& to.g <= from.g ==> to.g <= m.g <= from.g
            &&& from.b <= to.b ==> from.b <= m.b <= to.b
            &&& to.b <= from.b ==> to.b <= m.b <= from.b
            &&& m.a == 255
        }),
{
    lemma_between(from.r as int, to.r as int, t);
    lemma_between(from.g as int, to.g as int, t);
    lemma_between(from.b as int, to.b as int, t);
    let whole = 0x100_0000int;
    assert(255 * (whole - t) + 255 * t == 255 * whole) by (nonlinear_arith);
    assert((2 * (255 * whole) + whole) / (2 * whole) == 255) by (nonlinear_arith)
        requires
            whole == 0x100_0000,
    ;
}

proof fn lemma_between(a: int, b: int, t: int)
    requires
        0 <= a <= 255,
        0 <= b <= 255,
        0 <= t <= 0x100_0000,
    ensures
        ({
            let m = crate::color::mixed_channel(a, 255, b, 255, t);
            &&& a <= b ==> a <= m <= b
            &&& b <= a ==> b <= m <= a
        }),
{
    let whole = 0x100_0000int;
    let n = (a * 255) * (whole - t) + (b * 255) * t;
    let d = 255 * (whole - t) + 255 * t;
    assert(d == 255 * whole) by (nonlinear_arith)
        requires
            d == 255 * (whole - t) + 255 * t,
    ;
    assert((a <= b ==> a * d <= n <= b * d) && (b <= a ==> b * d <= n <= a * d))
        by (nonlinear_arith)
        requires
            n == (a * 255) * (whole - t) + (b * 255) * t,
            d == 255 * whole,
            0 <= t <= whole,
    ;
    let m = (2 * n + d) / (2 * d);
    let low = if a <= b {
        a
    } else {
        b
    };
    let high = if a <= b {
        b
    } else {
        a
    };
    assert(low <= m <= high) by {
        vstd::arithmetic::div_mod::lemma_fundamental_div_mod(2 * n + d, 2 * d);
        vstd::arithmetic::div_mod::lemma_mod_bound(2 * n + d, 2 * d);
        let r = (2 * n + d) % (2 * d);
        assert(low <= m) by (nonlinear_arith)
            requires
                2 * n + d == 2 * d * m + r,
                0 <= r < 2 * d,
                low * d <= n,
                d > 0,
        ;
        assert(m <= high) by (nonlinear_arith)
            requires
                2 * n + d == 2 * d * m + r,
                0 <= r < 2 * d,
                n <= high * d,
                d > 0,
        ;
    }
}

/// A fade keeps the color and lets more through the less is left of it: the opacity is nearest
/// the share, all of it at the whole and none at nothing, and never more than it was.
pub proof fn law_a_fade_only_lets_more_through(c: Color, factor: int)
    requires
        0 <= factor <= 0x100_0000,
    ensures
        ({
            let f = quieter(c, factor);
            &&& f.r == c.r && f.g == c.g && f.b == c.b
            &&& f.a <= c.a
            &&& factor == 0x100_0000 ==> f.a == c.a
            &&& factor == 0 ==> f.a == 0
            &&& -0x80_0000 <= f.a * 0x100_0000 - c.a * factor <= 0x80_0000
        }),
{
    let whole = 0x100_0000int;
    let n = c.a * factor;
    assert(0 <= n <= c.a * whole) by (nonlinear_arith)
        requires
            n == c.a * factor,
            0 <= factor <= whole,
            c.a >= 0,
    ;
    assert(factor == 0 ==> n == 0) by (nonlinear_arith)
        requires
            n == c.a * factor,
    ;
    assert(factor == whole ==> n == c.a * whole) by (nonlinear_arith)
        requires
            n == c.a * factor,
    ;
    let q = (2 * n + whole) / (2 * whole);
    assert(0 <= q <= c.a && -0x80_0000 <= q * whole - n <= 0x80_0000);
    assert(q == crate::number::nearest(n, whole));
}

} // verus!
