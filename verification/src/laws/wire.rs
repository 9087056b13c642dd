//! How values stand on the bus, byte by byte.

use crate::dbus::message::Message;
use crate::dbus::reader::{le32, lemma_round_up, read_value, round_up};
use crate::dbus::signature::{alignment, Fault};
use crate::dbus::value::{entry_under, first_text, first_text_among, ValueView};
use crate::dbus::writer::{le_bytes, pad, signature_of_arg, written, written_entries, Arg};
use crate::dbus::writer::{written_items, written_signature, written_text};
use crate::dbus::bus::{hexed, sorted};
use vstd::prelude::*;
use vstd::utf8::encode_utf8;

verus! {

/// A boundary is the first multiple that is not behind.
pub proof fn law_a_boundary_is_the_next_multiple(n: int, to: int)
    requires
        0 <= n,
        to == 1 || to == 2 || to == 4 || to == 8,
    ensures
        round_up(n, to) % to == 0,
        n <= round_up(n, to) < n + to,
{
    lemma_round_up(n, to);
}

/// What the bus asks a value of each type to start on.
pub proof fn law_a_value_starts_on_its_own_boundary(rest: Seq<char>)
    ensures
        alignment(seq!['y'] + rest) == 1,
        alignment(seq!['g'] + rest) == 1,
        alignment(seq!['v'] + rest) == 1,
        alignment(seq!['n'] + rest) == 2,
        alignment(seq!['q'] + rest) == 2,
        alignment(seq!['b'] + rest) == 4,
        alignment(seq!['i'] + rest) == 4,
        alignment(seq!['u'] + rest) == 4,
        alignment(seq!['s'] + rest) == 4,
        alignment(seq!['o'] + rest) == 4,
        alignment(seq!['a'] + rest) == 4,
        alignment(seq!['x'] + rest) == 8,
        alignment(seq!['t'] + rest) == 8,
        alignment(seq!['d'] + rest) == 8,
        alignment(seq!['('] + rest) == 8,
        alignment(seq!['{'] + rest) == 8,
{
    assert((seq!['y'] + rest)[0] == 'y');
    assert((seq!['g'] + rest)[0] == 'g');
    assert((seq!['v'] + rest)[0] == 'v');
    assert((seq!['n'] + rest)[0] == 'n');
    assert((seq!['q'] + rest)[0] == 'q');
    assert((seq!['b'] + rest)[0] == 'b');
    assert((seq!['i'] + rest)[0] == 'i');
    assert((seq!['u'] + rest)[0] == 'u');
    assert((seq!['s'] + rest)[0] == 's');
    assert((seq!['o'] + rest)[0] == 'o');
    assert((seq!['a'] + rest)[0] == 'a');
    assert((seq!['x'] + rest)[0] == 'x');
    assert((seq!['t'] + rest)[0] == 't');
    assert((seq!['d'] + rest)[0] == 'd');
    assert((seq!['('] + rest)[0] == '(');
    assert((seq!['{'] + rest)[0] == '{');
}

/// The four bytes of a number, the small end first.
pub open spec fn small_end_first(b: Seq<u8>, n: int) -> bool {
    b.len() == 4 && b[0] + 256 * b[1] + 65_536 * b[2] + 16_777_216 * b[3] == n
}

/// A number takes four bytes, the small end first, on a boundary of four, behind zeroes.
pub proof fn law_a_number_is_four_bytes(n: u32, at: int)
    requires
        0 <= at,
    ensures
        ({
            let w = written(Arg::U32(n), at);
            &&& 4 <= w.len() < 8
            &&& (at + w.len()) % 4 == 0
            &&& small_end_first(w.skip(w.len() - 4), n as int)
            &&& forall|i: int| 0 <= i < w.len() - 4 ==> #[trigger] w[i] == 0
        }),
{
    lemma_round_up(at, 4);
    reveal(le_bytes);
    let w = written(Arg::U32(n), at);
    assert(w.skip(w.len() - 4) =~= le_bytes(n as int));
}

/// A negative number is what is left of all that four bytes can count once it is taken away, and
/// a flag is one or nothing.
pub proof fn law_signs_and_flags_are_numbers(n: i32, at: int)
    ensures
        n >= 0 ==> written(Arg::I32(n), at) == written(Arg::U32(n as u32), at),
        n < 0 ==> written(Arg::I32(n), at) == written(Arg::U32((n + 0x1_0000_0000) as u32), at),
        written(Arg::Bool(true), at) == written(Arg::U32(1), at),
        written(Arg::Bool(false), at) == written(Arg::U32(0), at),
{
}

/// A text is its length, its bytes, and a zero that the length does not count; a path is a text.
pub proof fn law_a_text_is_its_length_and_its_bytes(s: &str, at: int)
    requires
        0 <= at,
        at % 4 == 0,
        encode_utf8(s@).len() < 0x1_0000_0000,
    ensures
        ({
            let w = written(Arg::Str(s), at);
            let text = encode_utf8(s@);
            &&& w.len() == text.len() + 5
            &&& small_end_first(w.take(4), text.len() as int)
            &&& w.subrange(4, 4 + text.len() as int) == text
            &&& w.last() == 0
        }),
        written(Arg::Path(s), at) == written(Arg::Str(s), at),
{
    lemma_round_up(at, 4);
    reveal(le_bytes);
    let w = written(Arg::Str(s), at);
    let text = encode_utf8(s@);
    assert(pad(at, 4) =~= Seq::<u8>::empty());
    assert(w.take(4) =~= le_bytes(text.len() as int));
    assert(w.subrange(4, 4 + text.len() as int) =~= text);
}

/// A signature is a byte for its length, its bytes, and a zero.
pub proof fn law_a_signature_is_short(s: &str, at: int)
    requires
        encode_utf8(s@).len() < 256,
    ensures
        ({
            let w = written(Arg::Sig(s), at);
            let text = encode_utf8(s@);
            &&& w.len() == text.len() + 2
            &&& w[0] == text.len()
            &&& w.subrange(1, 1 + text.len() as int) == text
            &&& w.last() == 0
        }),
{
    let w = written(Arg::Sig(s), at);
    let text = encode_utf8(s@);
    assert(w.subrange(1, 1 + text.len() as int) =~= text);
}

/// A variant is the signature of what is in it, and then that.
pub proof fn law_a_variant_says_what_is_in_it(inner: &Arg, at: int)
    requires
        encode_utf8(signature_of_arg(*inner)).len() < 256,
    ensures
        ({
            let w = written(Arg::Var(inner), at);
            let sig = encode_utf8(signature_of_arg(*inner));
            let n = sig.len() as int;
            &&& w.len() >= n + 2
            &&& w[0] == n
            &&& w.subrange(1, 1 + n) == sig
            &&& w[n + 1] == 0
            &&& w.skip(n + 2) == written(*inner, at + n + 2)
        }),
{
    let w = written(Arg::Var(inner), at);
    let sig = encode_utf8(signature_of_arg(*inner));
    let n = sig.len() as int;
    assert(w.subrange(1, 1 + n) =~= sig);
    assert(w.skip(n + 2) =~= written(*inner, at + n + 2));
}

/// An array is the length of its contents, which the padding in front of them does not count
/// for, and its contents, from the boundary its items ask for.
#[verifier::rlimit(40)]
pub proof fn law_an_array_is_its_length_and_its_items(
    element: &str,
    items: Vec<Arg>,
    at: int,
)
    requires
        0 <= at,
        at % 4 == 0,
        written_items(items@, items@.len() as int).len() < 0x1_0000_0000,
        element@.len() > 0,
    ensures
        ({
            let w = written(Arg::Array(element, items), at);
            let inner = written_items(items@, items@.len() as int);
            let start = w.len() - inner.len();
            &&& small_end_first(w.take(4), inner.len() as int)
            &&& 4 <= start < 4 + alignment(element@)
            &&& (at + start) % alignment(element@) == 0
            &&& w.skip(start) == inner
            &&& forall|i: int| 4 <= i < start ==> #[trigger] w[i] == 0
        }),
{
    let w = written(Arg::Array(element, items), at);
    let inner = written_items(items@, items@.len() as int);
    let length = le_bytes(inner.len() as int);
    let padding = pad(at + 4, alignment(element@));
    lemma_round_up(at, 4);
    assert(pad(at, 4) =~= Seq::<u8>::empty());
    assert(small_end_first(length, inner.len() as int)) by {
        reveal(le_bytes);
    }
    assert(pad(at, 4) + length =~= length);
    assert(w == length + padding + inner);
    lemma_parts(length, padding, inner);
    lemma_padding(at + 4, alignment(element@));
}

proof fn lemma_parts(length: Seq<u8>, padding: Seq<u8>, inner: Seq<u8>)
    requires
        length.len() == 4,
    ensures
        ({
            let w = length + padding + inner;
            &&& w.take(4) == length
            &&& w.skip(4 + padding.len() as int) == inner
            &&& forall|i: int| 4 <= i < 4 + padding.len() ==> #[trigger] w[i] == padding[i - 4]
        }),
{
    let w = length + padding + inner;
    assert(w.take(4) =~= length);
    assert(w.skip(4 + padding.len() as int) =~= inner);
}

proof fn lemma_padding(n: int, to: int)
    requires
        0 <= n,
        to == 1 || to == 2 || to == 4 || to == 8,
    ensures
        0 <= pad(n, to).len() < to,
        (n + pad(n, to).len()) % to == 0,
        forall|i: int| 0 <= i < pad(n, to).len() ==> #[trigger] pad(n, to)[i] == 0,
{
    lemma_round_up(n, to);
}

/// Items stand one behind the other, each where the one before it ends.
pub proof fn law_items_stand_one_behind_the_other(items: Seq<Arg>, n: int)
    requires
        0 < n <= items.len(),
    ensures
        ({
            let before = written_items(items, n - 1);
            written_items(items, n) == before + written(items[n - 1], before.len() as int)
        }),
        written_items(items, 0).len() == 0,
{
}

/// The entries of a dictionary each start on a boundary of eight: the key, the signature of the
/// value, and the value.
#[verifier::rlimit(40)]
pub proof fn law_an_entry_starts_on_a_boundary_of_eight(entries: Seq<(&str, Arg)>, n: int)
    requires
        0 < n <= entries.len(),
        encode_utf8(entries[n - 1].0@).len() < 0x1_0000_0000,
    ensures
        ({
            let before = written_entries(entries, n - 1);
            let after = written_entries(entries, n);
            let start = round_up(before.len() as int, 8);
            let key = encode_utf8(entries[n - 1].0@);
            let end = start + 4 + key.len() as int;
            &&& start % 8 == 0 && before.len() <= start < before.len() + 8
            &&& after.take(before.len() as int) == before
            &&& small_end_first(after.subrange(start, start + 4), key.len() as int)
            &&& after.subrange(start + 4, end) == key
            &&& after[end] == 0
        }),
{
    let before = written_entries(entries, n - 1);
    let after = written_entries(entries, n);
    let start = round_up(before.len() as int, 8);
    let key = encode_utf8(entries[n - 1].0@);
    let padding = pad(before.len() as int, 8);
    let length = le_bytes(key.len() as int);
    let sig = written_signature(signature_of_arg(entries[n - 1].1));
    let keyed = before + padding + (length + key + seq![0u8]);
    let value = written(entries[n - 1].1, (keyed + sig).len() as int);
    lemma_round_up(before.len() as int, 8);
    lemma_round_up(start, 4);
    assert(small_end_first(length, key.len() as int)) by {
        reveal(le_bytes);
    }
    assert(pad(start, 4) =~= Seq::<u8>::empty());
    assert((before + padding).len() == start);
    assert(written_text(entries[n - 1].0@, start) =~= length + key + seq![0u8]);
    assert(after == keyed + sig + value);
    lemma_entry(before, padding, length, key, sig, value);
}

proof fn lemma_entry(
    before: Seq<u8>,
    padding: Seq<u8>,
    length: Seq<u8>,
    key: Seq<u8>,
    sig: Seq<u8>,
    value: Seq<u8>,
)
    requires
        length.len() == 4,
    ensures
        ({
            let all = before + padding + (length + key + seq![0u8]) + sig + value;
            let start = before.len() + padding.len() as int;
            let end = start + 4 + key.len() as int;
            &&& all.take(before.len() as int) == before
            &&& all.subrange(start, start + 4) == length
            &&& all.subrange(start + 4, end) == key
            &&& all[end] == 0
        }),
{
    let all = before + padding + (length + key + seq![0u8]) + sig + value;
    let start = before.len() + padding.len() as int;
    let end = start + 4 + key.len() as int;
    assert(all.take(before.len() as int) =~= before);
    assert(all.subrange(start, start + 4) =~= length);
    assert(all.subrange(start + 4, end) =~= key);
}

/// Each kind of argument goes by its own letter.
pub proof fn law_each_kind_has_its_letter(s: &str, b: bool, i: i32, u: u32, inner: &Arg)
    ensures
        signature_of_arg(Arg::Str(s)) == seq!['s'],
        signature_of_arg(Arg::Path(s)) == seq!['o'],
        signature_of_arg(Arg::Sig(s)) == seq!['g'],
        signature_of_arg(Arg::Bool(b)) == seq!['b'],
        signature_of_arg(Arg::I32(i)) == seq!['i'],
        signature_of_arg(Arg::U32(u)) == seq!['u'],
        signature_of_arg(Arg::Var(inner)) == seq!['v'],
{
}

/// A number is read from its bytes, the small end first, from the next boundary of its own
/// width; the letter says how wide it is and whether its highest bit is a sign.
#[verifier::rlimit(40)]
pub proof fn law_numbers_are_read_by_their_letters(bytes: Seq<u8>, pos: int)
    requires
        0 <= pos,
        pos % 8 == 0,
        pos + 8 <= bytes.len(),
    ensures
        ({
            let b = |i: int| bytes[pos + i] as int;
            let two = b(0) + 256 * b(1);
            let four = two + 65_536 * b(2) + 16_777_216 * b(3);
            let eight = four + 0x1_0000_0000 * (b(4) + 256 * b(5) + 65_536 * b(6) + 16_777_216 * b(
                7,
            ));
            &&& read_value(bytes, pos, seq!['y']) == Ok::<(ValueView, int), Fault>(
                (ValueView::Int(b(0)), pos + 1),
            )
            &&& read_value(bytes, pos, seq!['q']) == Ok::<(ValueView, int), Fault>(
                (ValueView::Int(two), pos + 2),
            )
            &&& read_value(bytes, pos, seq!['n']) == Ok::<(ValueView, int), Fault>(
                (
                    ValueView::Int(
                        if two < 0x8000 {
                            two
                        } else {
                            two - 0x1_0000
                        },
                    ),
                    pos + 2,
                ),
            )
            &&& read_value(bytes, pos, seq!['u']) == Ok::<(ValueView, int), Fault>(
                (ValueView::Int(four), pos + 4),
            )
            &&& read_value(bytes, pos, seq!['i']) == Ok::<(ValueView, int), Fault>(
                (
                    ValueView::Int(
                        if four < 0x8000_0000 {
                            four
                        } else {
                            four - 0x1_0000_0000
                        },
                    ),
                    pos + 4,
                ),
            )
            &&& read_value(bytes, pos, seq!['b']) == Ok::<(ValueView, int), Fault>(
                (ValueView::Bool(four != 0), pos + 4),
            )
            &&& read_value(bytes, pos, seq!['x']) == Ok::<(ValueView, int), Fault>(
                (
                    ValueView::Int(
                        if eight < 0x8000_0000_0000_0000 {
                            eight
                        } else {
                            eight - 0x1_0000_0000_0000_0000
                        },
                    ),
                    pos + 8,
                ),
            )
            &&& read_value(bytes, pos, seq!['d']) == Ok::<(ValueView, int), Fault>(
                (ValueView::Float(eight as u64), pos + 8),
            )
        }),
{
    lemma_round_up(pos, 8);
    lemma_round_up(pos, 4);
    lemma_round_up(pos, 2);
    let all = bytes.subrange(pos, pos + 8);
    assert(all.take(4) =~= bytes.subrange(pos, pos + 4));
    assert(all.skip(4) =~= bytes.subrange(pos + 4, pos + 8));
    assert(le32(all.skip(4)) == bytes[pos + 4] + 256 * bytes[pos + 5] + 65_536 * bytes[pos + 6]
        + 16_777_216 * bytes[pos + 7]);
}

/// Under a name a dictionary has the first thing that was put there.
pub proof fn law_a_dictionary_has_what_was_put_in_it_first(
    entries: Seq<(ValueView, ValueView)>,
    key: Seq<char>,
    at: int,
)
    ensures
        0 <= at < entries.len() && entries[at].0 == ValueView::Str(key) && (forall|j: int|
            0 <= j < at ==> (#[trigger] entries[j]).0 != ValueView::Str(key)) ==> entry_under(
            entries,
            key,
            0,
        ) == Some(entries[at].1),
        (forall|j: int|
            0 <= j < entries.len() ==> (#[trigger] entries[j]).0 != ValueView::Str(key))
            ==> entry_under(entries, key, 0) is None,
{
    lemma_under(entries, key, 0, at);
}

proof fn lemma_under(entries: Seq<(ValueView, ValueView)>, key: Seq<char>, from: int, at: int)
    requires
        0 <= from <= entries.len(),
    ensures
        from <= at < entries.len() && entries[at].0 == ValueView::Str(key) && (forall|j: int|
            from <= j < at ==> (#[trigger] entries[j]).0 != ValueView::Str(key)) ==> entry_under(
            entries,
            key,
            from,
        ) == Some(entries[at].1),
        (forall|j: int|
            from <= j < entries.len() ==> (#[trigger] entries[j]).0 != ValueView::Str(key))
            ==> entry_under(entries, key, from) is None,
    decreases entries.len() - from,
{
    if from < entries.len() {
        lemma_under(entries, key, from + 1, at);
    }
}

/// The first text of a text is itself, and that of a list is that of the first item that has
/// one.
pub proof fn law_the_first_text_is_the_first(vs: Seq<ValueView>, s: Seq<char>, at: int)
    ensures
        first_text(ValueView::Str(s)) == Some(s),
        0 <= at < vs.len() && first_text(vs[at]) == Some(s) && (forall|j: int|
            0 <= j < at ==> first_text(#[trigger] vs[j]) is None) ==> first_text(
            ValueView::List(vs),
        ) == Some(s),
        (forall|j: int| 0 <= j < vs.len() ==> first_text(#[trigger] vs[j]) is None)
            ==> first_text(ValueView::List(vs)) is None,
{
    lemma_first_text(vs, s, at, vs.len() as int);
}

proof fn lemma_first_text(vs: Seq<ValueView>, s: Seq<char>, at: int, n: int)
    requires
        0 <= n <= vs.len(),
    ensures
        vs.len() - n <= at < vs.len() && first_text(vs[at]) == Some(s) && (forall|j: int|
            vs.len() - n <= j < at ==> first_text(#[trigger] vs[j]) is None) ==> first_text_among(
            vs,
            n,
        ) == Some(s),
        (forall|j: int| vs.len() - n <= j < vs.len() ==> first_text(#[trigger] vs[j]) is None)
            ==> first_text_among(vs, n) is None,
    decreases n,
{
    if n > 0 {
        lemma_first_text(vs, s, at, n - 1);
        assert(vs[vs.len() - n] == vs[vs.len() - n]);
    }
}

/// A message that arrives while a call waits is the answer exactly when it quotes the call's
/// serial; any other is kept, behind those that were kept before it.
pub proof fn law_an_answer_quotes_the_serial_of_its_call(
    held: Seq<Message>,
    message: Message,
    serial: u32,
    r: Option<Message>,
    after: Seq<Message>,
)
    requires
        sorted(held, message, serial, r, after),
    ensures
        message.reply_serial == Some(serial) <==> r is Some,
        r is Some ==> r->0 == message && after == held,
        r is None ==> after == held.push(message),
{
}

/// Whether digit `i` of a text stands in these as a three and the digit.
pub open spec fn told_as_hex(told: Seq<char>, s: Seq<char>, i: int) -> bool {
    told[2 * i] == '3' && told[2 * i + 1] == s[i]
}

/// Each digit of who we are is told in hexadecimal: a three, and the digit.
pub proof fn law_digits_are_told_in_hexadecimal(s: Seq<char>)
    ensures
        hexed(s).len() == 2 * s.len(),
        forall|i: int| 0 <= i < s.len() ==> #[trigger] told_as_hex(hexed(s), s, i),
    decreases s.len(),
{
    if s.len() > 0 {
        let front = s.drop_last();
        law_digits_are_told_in_hexadecimal(front);
        assert forall|i: int| 0 <= i < s.len() implies #[trigger] told_as_hex(
            hexed(s),
            s,
            i,
        ) by {
            if i < front.len() {
                assert(told_as_hex(hexed(front), front, i));
            }
        }
    }
}

} // verus!
