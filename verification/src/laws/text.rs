//! What texts are taken apart into.

use crate::text::{all_digits, decimal, digits_value, find, is_digit, is_space, lines_of};
use crate::text::{natural, parted, parted_last, pieces, text_before, trimmed, trimmed_end};
use crate::text::{ascii_lowercase, digits_len, is_decimal, is_exponent, is_float};
use crate::text::{trimmed_start, word_len, words_of};
use vstd::prelude::*;

verus! {

/// Whether nothing in a text is this character.
pub open spec fn free_of(s: Seq<char>, c: char) -> bool {
    forall|i: int| 0 <= i < s.len() ==> #[trigger] s[i] != c
}

/// Whether nothing in a text is a space.
pub open spec fn unspaced(s: Seq<char>) -> bool {
    forall|i: int| 0 <= i < s.len() ==> !is_space(#[trigger] s[i])
}

/// Whether a text is spaces and nothing else.
pub open spec fn spaces(s: Seq<char>) -> bool {
    forall|i: int| 0 <= i < s.len() ==> is_space(#[trigger] s[i])
}

/// The characters that are spaces: the blank and the tab, what ends lines, and a few more that
/// leave room. No letter, digit or sign is one.
pub proof fn law_what_a_space_is(c: char)
    ensures
        c == ' ' || c == '\t' || c == '\n' || c == '\r' ==> is_space(c),
        '!' <= c <= '~' ==> !is_space(c),
{
}

proof fn lemma_start(a: Seq<char>, s: Seq<char>)
    requires
        spaces(a),
        s.len() == 0 || !is_space(s[0]),
    ensures
        trimmed_start(a + s) == s,
    decreases a.len(),
{
    if a.len() == 0 {
        assert(a + s =~= s);
    } else {
        let rest = a.drop_first();
        assert((a + s)[0] == a[0]);
        assert((a + s).drop_first() =~= rest + s);
        assert forall|i: int| 0 <= i < rest.len() implies is_space(#[trigger] rest[i]) by {
            assert(rest[i] == a[i + 1]);
        }
        lemma_start(rest, s);
    }
}

proof fn lemma_end(s: Seq<char>, b: Seq<char>)
    requires
        spaces(b),
        s.len() == 0 || !is_space(s.last()),
    ensures
        trimmed_end(s + b) == s,
    decreases b.len(),
{
    if b.len() == 0 {
        assert(s + b =~= s);
    } else {
        let rest = b.drop_last();
        assert((s + b).last() == b.last());
        assert(b.last() == b[b.len() - 1]);
        assert((s + b).drop_last() =~= s + rest);
        assert forall|i: int| 0 <= i < rest.len() implies is_space(#[trigger] rest[i]) by {
            assert(rest[i] == b[i]);
        }
        lemma_end(s, rest);
    }
}

/// Trimming takes the spaces around a text and nothing else.
pub proof fn law_trimming_takes_the_spaces_around(a: Seq<char>, s: Seq<char>, b: Seq<char>)
    requires
        spaces(a),
        spaces(b),
        s.len() == 0 || (!is_space(s[0]) && !is_space(s.last())),
    ensures
        trimmed(a + s + b) == s,
{
    if s.len() == 0 {
        let all = a + s + b;
        assert forall|i: int| 0 <= i < all.len() implies is_space(#[trigger] all[i]) by {
            if i < a.len() {
                assert(all[i] == a[i]);
            } else {
                assert(all[i] == b[i - a.len()]);
            }
        }
        lemma_start(all, Seq::empty());
        assert(all + Seq::<char>::empty() =~= all);
    } else {
        assert(a + s + b =~= a + (s + b));
        assert((s + b)[0] == s[0]);
        lemma_start(a, s + b);
        lemma_end(s, b);
    }
}

proof fn lemma_word(w: Seq<char>, rest: Seq<char>)
    requires
        unspaced(w),
        rest.len() == 0 || is_space(rest[0]),
    ensures
        word_len(w + rest) == w.len(),
    decreases w.len(),
{
    if w.len() == 0 {
        assert(w + rest =~= rest);
    } else {
        let less = w.drop_first();
        assert((w + rest)[0] == w[0]);
        assert((w + rest).drop_first() =~= less + rest);
        assert forall|i: int| 0 <= i < less.len() implies !is_space(#[trigger] less[i]) by {
            assert(less[i] == w[i + 1]);
        }
        lemma_word(less, rest);
    }
}

/// The words of a text are what its spaces leave: a word in front of a space is the first word
/// and the others follow, and a space in front of everything is none.
pub proof fn law_words_are_what_spaces_leave(w: Seq<char>, space: char, rest: Seq<char>)
    requires
        unspaced(w),
        is_space(space),
    ensures
        w.len() > 0 ==> words_of(w + seq![space] + rest) == seq![w] + words_of(rest),
        w.len() > 0 ==> words_of(w) == seq![w],
        words_of(seq![space] + rest) == words_of(rest),
{
    let tail = seq![space] + rest;
    assert(tail.drop_first() =~= rest);
    assert(words_of(tail) == words_of(rest));
    if w.len() > 0 {
        let all = w + tail;
        assert(w + seq![space] + rest =~= all);
        lemma_word(w, tail);
        assert(all[0] == w[0]);
        assert(all.take(w.len() as int) =~= w);
        assert(all.skip(w.len() as int) =~= tail);
        lemma_word(w, Seq::empty());
        assert(w + Seq::<char>::empty() =~= w);
        assert(w.take(w.len() as int) =~= w);
        assert(w.skip(w.len() as int) =~= Seq::<char>::empty());
        assert(words_of(Seq::<char>::empty()) =~= Seq::<Seq<char>>::empty());
        assert(seq![w] + Seq::<Seq<char>>::empty() =~= seq![w]);
    }
}

proof fn lemma_found(a: Seq<char>, c: char, b: Seq<char>)
    requires
        free_of(a, c),
    ensures
        find(a + seq![c] + b, c) == a.len(),
        find(a, c) == a.len(),
    decreases a.len(),
{
    let all = a + seq![c] + b;
    if a.len() == 0 {
        assert(all[0] == c);
    } else {
        let less = a.drop_first();
        assert(all[0] == a[0]);
        assert(all.drop_first() =~= less + seq![c] + b);
        assert forall|i: int| 0 <= i < less.len() implies #[trigger] less[i] != c by {
            assert(less[i] == a[i + 1]);
        }
        lemma_found(less, c, b);
    }
}

/// A text is parted at the first of a character: in front of it and behind it, without it. Where
/// there is none it is not parted.
pub proof fn law_a_text_is_parted_at_the_first(a: Seq<char>, c: char, b: Seq<char>)
    requires
        free_of(a, c),
    ensures
        parted(a + seq![c] + b, c) == Some((a, b)),
        parted(a, c) is None,
        pieces(a + seq![c] + b, c) == seq![a] + pieces(b, c),
        pieces(a, c) == seq![a],
{
    let all = a + seq![c] + b;
    lemma_found(a, c, b);
    assert(all.take(a.len() as int) =~= a);
    assert(all.skip(a.len() as int + 1) =~= b);
}

/// A text is parted from behind at the last of a character.
pub proof fn law_a_text_is_parted_at_the_last(a: Seq<char>, c: char, b: Seq<char>)
    requires
        free_of(b, c),
    ensures
        parted_last(a + seq![c] + b, c) == Some((a, b)),
    decreases b.len(),
{
    let all = a + seq![c] + b;
    if b.len() == 0 {
        assert(all.last() == c);
        assert(all.drop_last() =~= a);
        assert(b =~= Seq::<char>::empty());
    } else {
        let less = b.drop_last();
        assert(all.last() == b.last());
        assert(b.last() == b[b.len() - 1]);
        assert(all.drop_last() =~= a + seq![c] + less);
        assert forall|i: int| 0 <= i < less.len() implies #[trigger] less[i] != c by {
            assert(less[i] == b[i]);
        }
        law_a_text_is_parted_at_the_last(a, c, less);
        assert(less.push(b.last()) =~= b);
    }
}

/// The lines of a text are what its line feeds leave: the first one without its line feed, and
/// without the carriage return in front of that, and then the others; and what is behind the
/// last line feed is a line where it is anything.
pub proof fn law_lines_are_what_line_feeds_leave(line: Seq<char>, rest: Seq<char>)
    requires
        free_of(line, '\n'),
    ensures
        line.len() == 0 || line.last() != '\r' ==> lines_of(line + seq!['\n'] + rest) == seq![line]
            + lines_of(rest),
        lines_of(line + seq!['\r', '\n'] + rest) == seq![line] + lines_of(rest),
        line.len() > 0 ==> lines_of(line) == seq![line],
        lines_of(Seq::<char>::empty()).len() == 0,
{
    let all = line + seq!['\n'] + rest;
    lemma_found(line, '\n', rest);
    assert(all.take(line.len() as int) =~= line);
    assert(all.skip(line.len() as int + 1) =~= rest);
    let longer = line.push('\r');
    let more = line + seq!['\r', '\n'] + rest;
    assert(more =~= longer + seq!['\n'] + rest);
    assert forall|i: int| 0 <= i < longer.len() implies #[trigger] longer[i] != '\n' by {
        if i < line.len() {
            assert(longer[i] == line[i]);
        }
    }
    lemma_found(longer, '\n', rest);
    assert(more.take(longer.len() as int) =~= longer);
    assert(more.skip(longer.len() as int + 1) =~= rest);
    assert(longer.drop_last() =~= line);
}

proof fn lemma_decimal(n: nat)
    ensures
        decimal(n).len() > 0,
        all_digits(decimal(n)),
        digits_value(decimal(n)) == n,
    decreases n,
{
    let s = decimal(n);
    if n < 10 {
        assert(s.drop_last() =~= Seq::<char>::empty());
        let c = (48 + n) as char;
        assert(s.last() == c);
        assert(c as u32 == 48 + n);
        assert(digits_value(s.drop_last()) == 0);
    } else {
        lemma_decimal(n / 10);
        let less = decimal(n / 10);
        assert(s.drop_last() =~= less);
        let c = (48 + n % 10) as char;
        assert(s.last() == c);
        assert(c as u32 == 48 + n % 10);
        assert forall|i: int| 0 <= i < s.len() implies is_digit(#[trigger] s[i]) by {
            if i < less.len() {
                assert(s[i] == less[i]);
            }
        }
    }
}

/// A number that is written in decimal is read as itself, with a plus sign or without.
pub proof fn law_a_number_is_read_as_it_is_written(n: nat, most: nat)
    ensures
        n <= most ==> natural(decimal(n), most) == Some(n),
        n <= most ==> natural(seq!['+'] + decimal(n), most) == Some(n),
        n > most ==> natural(decimal(n), most) is None,
{
    lemma_decimal(n);
    let s = decimal(n);
    assert(is_digit(s[0]));
    let signed = seq!['+'] + s;
    assert(signed.drop_first() =~= s);
}

/// What holds anything but digits is no number.
pub proof fn law_what_is_not_digits_is_no_number(s: Seq<char>, most: nat, i: int)
    requires
        0 < i < s.len(),
        !('0' <= s[i] <= '9'),
    ensures
        natural(s, most) is None,
{
    if s[0] == '+' {
        assert(s.drop_first()[i - 1] == s[i]);
    }
}

/// One text stands before another exactly where it does at the first place they differ, or is
/// the beginning of it.
pub proof fn law_texts_are_ordered_where_they_differ(
    front: Seq<char>,
    a: char,
    b: char,
    x: Seq<char>,
    y: Seq<char>,
)
    requires
        a != b,
    ensures
        text_before(front + seq![a] + x, front + seq![b] + y) <==> a < b,
        text_before(front, front + seq![b] + y),
        !text_before(front + seq![b] + y, front),
        !text_before(front, front),
    decreases front.len(),
{
    let (p, q) = (front + seq![a] + x, front + seq![b] + y);
    if front.len() > 0 {
        let less = front.drop_first();
        law_texts_are_ordered_where_they_differ(less, a, b, x, y);
        assert(p.drop_first() =~= less + seq![a] + x);
        assert(q.drop_first() =~= less + seq![b] + y);
        assert(p[0] == front[0] && q[0] == front[0]);
    } else {
        assert(p[0] == a && q[0] == b);
    }
}

proof fn lemma_digits_in_front(digits: Seq<char>, rest: Seq<char>)
    requires
        all_digits(digits),
        rest.len() == 0 || !is_digit(rest[0]),
    ensures
        digits_len(digits + rest) == digits.len(),
    decreases digits.len(),
{
    let all = digits + rest;
    if digits.len() > 0 {
        lemma_digits_in_front(digits.drop_first(), rest);
        assert(all.drop_first() =~= digits.drop_first() + rest);
        assert(all[0] == digits[0]);
        assert(is_digit(digits[0]));
    } else {
        assert(all =~= rest);
    }
}

/// Digits write a number, and so they do with a point among them, in front of them or behind
/// them, with an exponent, and with a sign; nothing at all does not, and neither does a point
/// alone.
pub proof fn law_digits_write_a_number(
    whole: Seq<char>,
    part: Seq<char>,
    power: Seq<char>,
    sign: char,
)
    requires
        all_digits(whole),
        all_digits(part),
        all_digits(power),
        power.len() > 0,
        sign == '+' || sign == '-',
    ensures
        whole.len() > 0 ==> is_float(whole),
        whole.len() + part.len() > 0 ==> is_float(whole + seq!['.'] + part),
        whole.len() > 0 ==> is_float(whole + seq!['e'] + power),
        whole.len() > 0 ==> is_float(seq![sign] + whole),
        !is_float(Seq::empty()),
        !is_float(seq!['.']),
        whole.len() > 0 ==> !is_float(whole + seq!['x']),
{
    reveal_strlit("inf");
    reveal_strlit("infinity");
    reveal_strlit("nan");
    let none = Seq::<char>::empty();
    lemma_digits_in_front(whole, none);
    assert(whole + none =~= whole);
    assert(whole.skip(whole.len() as int) =~= none);
    if whole.len() > 0 {
        assert(is_digit(whole[0]));
        assert(is_decimal(whole));
        let signed = seq![sign] + whole;
        assert(signed.drop_first() =~= whole);
    }
    let pointed = whole + seq!['.'] + part;
    let behind = seq!['.'] + part;
    assert(pointed =~= whole + behind);
    lemma_digits_in_front(whole, behind);
    assert(pointed.skip(whole.len() as int) =~= behind);
    assert(behind.drop_first() =~= part);
    lemma_digits_in_front(part, none);
    assert(part + none =~= part);
    assert(part.skip(part.len() as int) =~= none);
    if whole.len() + part.len() > 0 {
        assert(is_decimal(pointed));
        assert(pointed[0] == '.' || is_digit(pointed[0])) by {
            if whole.len() > 0 {
                assert(pointed[0] == whole[0]);
            }
        }
    }
    let raised = whole + seq!['e'] + power;
    let high = seq!['e'] + power;
    assert(raised =~= whole + high);
    lemma_digits_in_front(whole, high);
    assert(raised.skip(whole.len() as int) =~= high);
    assert(high.drop_first() =~= power);
    assert(is_digit(power[0]));
    if whole.len() > 0 {
        assert(raised[0] == whole[0]);
        assert(is_exponent(high));
        assert(is_decimal(raised));
    }
    assert(ascii_lowercase(none).len() == 0 && ascii_lowercase("inf"@).len() == 3
        && ascii_lowercase("infinity"@).len() == 8 && ascii_lowercase("nan"@).len() == 3);
    assert(!is_decimal(none)) by {
        assert(none.skip(0) =~= none);
    }
    let point = seq!['.'];
    assert(ascii_lowercase(point).len() == 1);
    assert(!is_decimal(point)) by {
        assert(point.skip(0) =~= point);
        assert(point.drop_first() =~= none);
        assert(none.skip(0) =~= none);
    }
    if whole.len() > 0 {
        let odd = whole + seq!['x'];
        lemma_digits_in_front(whole, seq!['x']);
        assert(odd.skip(whole.len() as int) =~= seq!['x']);
        assert(odd[0] == whole[0]);
        assert(ascii_lowercase(odd).last() == 'x');
        assert("inf"@.last() == 'f' && "infinity"@.last() == 'y' && "nan"@.last() == 'n');
        assert(ascii_lowercase("inf"@) =~= "inf"@);
        assert(ascii_lowercase("infinity"@) =~= "infinity"@);
        assert(ascii_lowercase("nan"@) =~= "nan"@);
    }
}

} // verus!
