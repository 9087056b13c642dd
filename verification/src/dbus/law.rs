//! What is written reads back as itself.

use crate::dbus::reader::{is_alignment, le32, lemma_round_up, on_boundary, read_entries, read_items, read_text, read_u32, read_value, read_variant, round_up, signed};
use crate::dbus::signature::{alignment, first_type, lemma_array_type, one_type, type_end, Fault};
use crate::dbus::value::ValueView;
use crate::dbus::writer::{le_bytes, pad, signature_of_arg, unsigned, written, written_entries, written_items, written_signature, written_text, written_u32, Arg};
use crate::text::text_from;
use vstd::prelude::*;
use vstd::utf8::{encode_utf8, encode_utf8_decode_utf8, encode_utf8_valid_utf8};

verus! {

/// What a value that is sent says.
pub open spec fn meaning(arg: Arg) -> ValueView
    decreases arg, 0int,
{
    match arg {
        Arg::Str(s) => ValueView::Str(s@),
        Arg::Path(s) => ValueView::Str(s@),
        Arg::Sig(s) => ValueView::Str(s@),
        Arg::Bool(flag) => ValueView::Bool(flag),
        Arg::I32(n) => ValueView::Int(n as int),
        Arg::U32(n) => ValueView::Int(n as int),
        Arg::Var(inner) => meaning(*inner),
        Arg::Array(_, items) => ValueView::List(meanings(items@, 0)),
        Arg::Dict(entries) => ValueView::Dict(entry_meanings(entries@, 0)),
    }
}

/// What the values of a list say, from the one at `from` on.
pub open spec fn meanings(items: Seq<Arg>, from: int) -> Seq<ValueView>
    decreases items, items.len() - from,
{
    if from < 0 || from >= items.len() {
        Seq::empty()
    } else {
        seq![meaning(items[from])] + meanings(items, from + 1)
    }
}

/// What the entries of a dictionary say, from the one at `from` on.
pub open spec fn entry_meanings(entries: Seq<(&str, Arg)>, from: int) -> Seq<
    (ValueView, ValueView),
>
    decreases entries, entries.len() - from,
{
    if from < 0 || from >= entries.len() {
        Seq::empty()
    } else {
        seq![(ValueView::Str(entries[from].0@), meaning(entries[from].1))] + entry_meanings(
            entries,
            from + 1,
        )
    }
}

/// Whether something inside a value has to start on an eight-byte boundary.
pub open spec fn needs_eight(arg: Arg) -> bool
    decreases arg, 0int,
{
    match arg {
        Arg::Var(inner) => needs_eight(*inner),
        Arg::Array(element, items) => alignment(element@) == 8 || any_needs_eight(
            items@,
            items@.len() as int,
        ),
        Arg::Dict(_) => true,
        _ => false,
    }
}

pub open spec fn any_needs_eight(items: Seq<Arg>, n: int) -> bool
    decreases items, n,
{
    if n <= 0 || n > items.len() {
        false
    } else {
        any_needs_eight(items, n - 1) || needs_eight(items[n - 1])
    }
}

/// Where the contents of an array start, for one written where `at` bytes already stand.
pub open spec fn contents_at(at: int, to: int) -> int {
    round_up(round_up(at, 4) + 4, to)
}

/// Whether a value can be written so that it reads back, where `at` bytes already stand.
///
/// Lengths have to fit the fields they are written in; a list has to hold what it says it
/// holds, and not be one of the two kinds that read back as something else than a list; and
/// since the contents of an array are laid out from nothing, an array whose contents do not
/// start on an eight-byte boundary can hold nothing that asks for one.
pub open spec fn faithful(arg: Arg, at: int) -> bool
    decreases arg, 0int,
{
    match arg {
        Arg::Str(s) => encode_utf8(s@).len() < 0x1_0000_0000,
        Arg::Path(s) => encode_utf8(s@).len() < 0x1_0000_0000,
        Arg::Sig(s) => encode_utf8(s@).len() < 256,
        Arg::Var(inner) => faithful_variant(*inner, at),
        Arg::Array(element, items) => {
            &&& one_type(element@)
            &&& element@[0] != 'y'
            &&& element@[0] != '{'
            &&& written_items(items@, items@.len() as int).len() < 0x1_0000_0000
            &&& contents_at(at, alignment(element@)) % 8 == 0 || !any_needs_eight(
                items@,
                items@.len() as int,
            )
            &&& faithful_items(items@, items@.len() as int, element@)
        },
        Arg::Dict(entries) => {
            &&& written_entries(entries@, entries@.len() as int).len() < 0x1_0000_0000
            &&& faithful_entries(entries@, entries@.len() as int)
        },
        _ => true,
    }
}

/// The same for a value wrapped in a variant, whose signature stands in front of it.
pub open spec fn faithful_variant(inner: Arg, at: int) -> bool
    decreases inner, 1int,
{
    &&& encode_utf8(signature_of_arg(inner)).len() < 256
    &&& faithful(inner, at + written_signature(signature_of_arg(inner)).len())
}

pub open spec fn faithful_items(items: Seq<Arg>, n: int, element: Seq<char>) -> bool
    decreases items, n,
{
    if n <= 0 || n > items.len() {
        true
    } else {
        &&& faithful_items(items, n - 1, element)
        &&& signature_of_arg(items[n - 1]) == element
        &&& faithful(items[n - 1], written_items(items, n - 1).len() as int)
    }
}

/// Where the key of entry `n` starts, and where its value does.
pub open spec fn key_at(entries: Seq<(&str, Arg)>, n: int) -> int {
    round_up(written_entries(entries, n).len() as int, 8)
}

pub open spec fn value_at(entries: Seq<(&str, Arg)>, n: int) -> int {
    key_at(entries, n) + written_text(entries[n].0@, key_at(entries, n)).len()
}

pub open spec fn faithful_entries(entries: Seq<(&str, Arg)>, n: int) -> bool
    decreases entries, n,
{
    if n <= 0 || n > entries.len() {
        true
    } else {
        &&& faithful_entries(entries, n - 1)
        &&& encode_utf8(entries[n - 1].0@).len() < 0x1_0000_0000
        &&& faithful_variant(entries[n - 1].1, value_at(entries, n - 1))
    }
}

/// Whether `b` stands in `buf` at `pos`.
pub open spec fn stands(buf: Seq<u8>, pos: int, b: Seq<u8>) -> bool {
    &&& 0 <= pos
    &&& pos + b.len() <= buf.len()
    &&& buf.subrange(pos, pos + b.len()) == b
}

pub proof fn lemma_stands_parts(buf: Seq<u8>, pos: int, a: Seq<u8>, b: Seq<u8>)
    requires
        stands(buf, pos, a + b),
    ensures
        stands(buf, pos, a),
        stands(buf, pos + a.len(), b),
{
    let ab = buf.subrange(pos, pos + a.len() + b.len());
    assert(ab == a + b);
    assert forall|i: int| 0 <= i < a.len() implies buf.subrange(pos, pos + a.len())[i] == a[i] by {
        assert(ab[i] == (a + b)[i]);
    }
    assert(buf.subrange(pos, pos + a.len()) =~= a);
    assert forall|i: int| 0 <= i < b.len() implies buf.subrange(
        pos + a.len(),
        pos + a.len() + b.len(),
    )[i] == b[i] by {
        assert(ab[a.len() + i] == (a + b)[a.len() + i]);
    }
    assert(buf.subrange(pos + a.len(), pos + a.len() + b.len()) =~= b);
}

pub proof fn lemma_round_up_shift(shift: int, n: int, to: int)
    requires
        is_alignment(to),
        on_boundary(shift, to),
        0 <= shift,
        0 <= n,
    ensures
        round_up(shift + n, to) == shift + round_up(n, to),
{
    reveal(round_up);
}

proof fn lemma_alignment(s: Seq<char>)
    ensures
        is_alignment(alignment(s)),
{
}

pub proof fn lemma_pad(at: int, to: int)
    requires
        is_alignment(to),
        0 <= at,
    ensures
        pad(at, to).len() == round_up(at, to) - at,
{
    lemma_round_up(at, to);
}

pub proof fn lemma_le(n: int)
    requires
        0 <= n < 0x1_0000_0000,
    ensures
        le_bytes(n).len() == 4,
        le32(le_bytes(n)) == n,
{
    reveal(le_bytes);
    let b = le_bytes(n);
    assert(b[0] == n % 256);
    assert(b[1] == n / 256 % 256);
    assert(b[2] == n / 65536 % 256);
    assert(b[3] == n / 16777216 % 256);
    assert(n / 65536 == n / 256 / 256);
    assert(n / 16777216 == n / 65536 / 256);
}

proof fn lemma_read_u32(buf: Seq<u8>, shift: int, at: int, n: int)
    requires
        0 <= at,
        0 <= shift,
        shift % 4 == 0,
        0 <= n < 0x1_0000_0000,
        stands(buf, shift + at, written_u32(n, at)),
    ensures
        written_u32(n, at).len() == round_up(at, 4) - at + 4,
        read_u32(buf, shift + at) == Ok::<(int, int), Fault>(
            (n, shift + at + written_u32(n, at).len()),
        ),
{
    lemma_pad(at, 4);
    lemma_stands_parts(buf, shift + at, pad(at, 4), le_bytes(n));
    lemma_round_up_shift(shift, at, 4);
    lemma_le(n);
}

proof fn lemma_text(s: Seq<char>)
    ensures
        text_from(encode_utf8(s)) == s,
{
    encode_utf8_valid_utf8(s);
    encode_utf8_decode_utf8(s);
}

proof fn lemma_read_text(buf: Seq<u8>, shift: int, at: int, s: Seq<char>)
    requires
        0 <= at,
        0 <= shift,
        shift % 4 == 0,
        encode_utf8(s).len() < 0x1_0000_0000,
        stands(buf, shift + at, written_text(s, at)),
    ensures
        read_text(buf, shift + at, false) == Ok::<(Seq<char>, int), Fault>(
            (s, shift + at + written_text(s, at).len()),
        ),
{
    let text = encode_utf8(s);
    let n = text.len() as int;
    let length = written_u32(n, at);
    lemma_stands_parts(buf, shift + at, length + text, seq![0u8]);
    lemma_stands_parts(buf, shift + at, length, text);
    lemma_read_u32(buf, shift, at, n);
    lemma_text(s);
}

proof fn lemma_read_signature(buf: Seq<u8>, pos: int, s: Seq<char>)
    requires
        encode_utf8(s).len() < 256,
        stands(buf, pos, written_signature(s)),
    ensures
        read_text(buf, pos, true) == Ok::<(Seq<char>, int), Fault>(
            (s, pos + written_signature(s).len()),
        ),
{
    let text = encode_utf8(s);
    let first = seq![(text.len() % 256) as u8];
    lemma_stands_parts(buf, pos, first + text, seq![0u8]);
    lemma_stands_parts(buf, pos, first, text);
    lemma_text(s);
}

/// The type of a value that can be written is one complete type.
pub proof fn lemma_signature_is_one_type(arg: Arg)
    requires
        arg matches Arg::Array(element, _) ==> one_type(element@),
    ensures
        one_type(signature_of_arg(arg)),
{
    let s = signature_of_arg(arg);
    match arg {
        Arg::Array(element, _) => {
            lemma_array_type(element@);
        },
        Arg::Dict(_) => {
            reveal_with_fuel(type_end, 6);
            assert(s[0] == 'a' && s[1] == '{' && s[2] == 's' && s[3] == 'v' && s[4] == '}');
            assert(type_end(s, 4, 1) == Ok::<int, Fault>(5));
            assert(type_end(s, 3, 1) == Ok::<int, Fault>(5));
            assert(type_end(s, 2, 1) == Ok::<int, Fault>(5));
            assert(type_end(s, 1, 0) == Ok::<int, Fault>(5));
        },
        _ => {
            assert(s.len() == 1);
            assert(type_end(s, 0, 0) == Ok::<int, Fault>(1));
        },
    }
}

proof fn lemma_written_some(arg: Arg, at: int)
    requires
        0 <= at,
    ensures
        written(arg, at).len() > 0,
{
    reveal(le_bytes);
}

/// A value wrapped in a variant and written reads back as the value.
pub proof fn law_variant_reads_back(buf: Seq<u8>, shift: int, at: int, inner: Arg)
    requires
        0 <= at,
        0 <= shift,
        shift % 8 == 0 || (shift % 4 == 0 && !needs_eight(inner)),
        faithful_variant(inner, at),
        ({
            let sig = written_signature(signature_of_arg(inner));
            stands(buf, shift + at, sig + written(inner, at + sig.len()))
        }),
    ensures
        ({
            let sig = written_signature(signature_of_arg(inner));
            read_variant(buf, shift + at) == Ok::<(ValueView, int), Fault>(
                (meaning(inner), shift + at + sig.len() + written(inner, at + sig.len()).len()),
            )
        }),
    decreases inner, 1int,
{
    let s = signature_of_arg(inner);
    let sig = written_signature(s);
    lemma_stands_parts(buf, shift + at, sig, written(inner, at + sig.len()));
    lemma_read_signature(buf, shift + at, s);
    lemma_signature_is_one_type(inner);
    assert(s.take(s.len() as int) == s);
    law_value_reads_back(buf, shift, at + sig.len(), inner);
}

/// Every value the bar writes reads back as itself: wherever in a message it stands, reading
/// by its own signature gives what it says, and ends where it ended.
///
/// `shift` is how far the buffer it was written into is from the front of the message.
pub proof fn law_value_reads_back(buf: Seq<u8>, shift: int, at: int, arg: Arg)
    requires
        0 <= at,
        0 <= shift,
        shift % 8 == 0 || (shift % 4 == 0 && !needs_eight(arg)),
        faithful(arg, at),
        stands(buf, shift + at, written(arg, at)),
    ensures
        read_value(buf, shift + at, signature_of_arg(arg)) == Ok::<(ValueView, int), Fault>(
            (meaning(arg), shift + at + written(arg, at).len()),
        ),
    decreases arg, 0int,
{
    assert(shift % 4 == 0);
    if !(arg is Array) && !(arg is Dict) {
        lemma_plain_value(buf, shift + at, signature_of_arg(arg));
    }
    match arg {
        Arg::Str(s) => {
            lemma_read_text(buf, shift, at, s@);
        },
        Arg::Path(s) => {
            lemma_read_text(buf, shift, at, s@);
        },
        Arg::Sig(s) => {
            lemma_read_signature(buf, shift + at, s@);
        },
        Arg::Bool(flag) => {
            lemma_read_u32(
                buf,
                shift,
                at,
                if flag {
                    1
                } else {
                    0
                },
            );
        },
        Arg::I32(n) => {
            lemma_read_u32(buf, shift, at, unsigned(n));
        },
        Arg::U32(n) => {
            lemma_read_u32(buf, shift, at, n as int);
        },
        Arg::Var(inner) => {
            law_variant_reads_back(buf, shift, at, *inner);
        },
        Arg::Array(element, items) => {
            lemma_array_reads_back(buf, shift, at, element, items);
        },
        Arg::Dict(entries) => {
            lemma_dict_reads_back(buf, shift, at, entries);
        },
    }
}

/// Reading a value of a plain type is reading its one part.
proof fn lemma_plain_value(buf: Seq<u8>, pos: int, sig: Seq<char>)
    requires
        0 <= pos,
        sig.len() == 1,
    ensures
        sig[0] == 's' || sig[0] == 'o' || sig[0] == 'g' ==> read_value(buf, pos, sig) == match read_text(
            buf,
            pos,
            sig[0] == 'g',
        ) {
            Err(e) => Err::<(ValueView, int), Fault>(e),
            Ok((t, p)) => Ok((ValueView::Str(t), p)),
        },
        sig[0] == 'b' ==> read_value(buf, pos, sig) == match read_u32(buf, pos) {
            Err(e) => Err::<(ValueView, int), Fault>(e),
            Ok((n, p)) => Ok((ValueView::Bool(n != 0), p)),
        },
        sig[0] == 'i' || sig[0] == 'u' ==> read_value(buf, pos, sig) == match read_u32(buf, pos) {
            Err(e) => Err::<(ValueView, int), Fault>(e),
            Ok((n, p)) => Ok(
                (
                    ValueView::Int(
                        if sig[0] == 'i' {
                            signed(n, 0x8000_0000)
                        } else {
                            n
                        },
                    ),
                    p,
                ),
            ),
        },
        sig[0] == 'v' ==> read_value(buf, pos, sig) == read_variant(buf, pos),
{
}

/// Where an array written as its length, its padding and its contents puts them.
proof fn lemma_array_layout(buf: Seq<u8>, shift: int, at: int, inner: Seq<u8>, to: int)
    requires
        0 <= at,
        0 <= shift,
        shift % 4 == 0,
        is_alignment(to),
        on_boundary(shift, to),
        inner.len() < 0x1_0000_0000,
        ({
            let length = written_u32(inner.len() as int, at);
            stands(buf, shift + at, length + pad(at + length.len(), to) + inner)
        }),
    ensures
        ({
            let length = written_u32(inner.len() as int, at);
            let p = shift + at + length.len();
            let start = shift + contents_at(at, to);
            &&& read_u32(buf, shift + at) == Ok::<(int, int), Fault>((inner.len() as int, p))
            &&& start == round_up(p, to)
            &&& start % 4 == 0
            &&& start > shift + at
            &&& stands(buf, start, inner)
            &&& start + inner.len() == shift + at + (length + pad(at + length.len(), to)
                + inner).len()
        }),
{
    let length = written_u32(inner.len() as int, at);
    let padding = pad(at + length.len(), to);
    lemma_stands_parts(buf, shift + at, length + padding, inner);
    lemma_stands_parts(buf, shift + at, length, padding);
    lemma_read_u32(buf, shift, at, inner.len() as int);
    lemma_pad(at + length.len(), to);
    lemma_round_up_shift(shift, at + length.len(), to);
    lemma_round_up(at, 4);
    lemma_contents_four(at, to);
}

/// Reading an array of anything but bytes and dictionary entries is reading its elements.
proof fn lemma_list_value(
    buf: Seq<u8>,
    pos: int,
    el: Seq<char>,
    length: int,
    p: int,
    start: int,
    vs: Seq<ValueView>,
    q: int,
)
    requires
        0 <= pos,
        0 <= start,
        read_u32(buf, pos) == Ok::<(int, int), Fault>((length, p)),
        first_type(el) == Ok::<int, Fault>(el.len() as int),
        el.len() > 0,
        el[0] != 'y',
        el[0] != '{',
        start == round_up(p, alignment(el)),
        start + length <= buf.len(),
        read_items(buf, start, start + length, el) == Ok::<(Seq<ValueView>, int), Fault>((vs, q)),
    ensures
        read_value(buf, pos, seq!['a'] + el) == Ok::<(ValueView, int), Fault>(
            (ValueView::List(vs), q),
        ),
{
    let sig = seq!['a'] + el;
    assert(sig.drop_first() =~= el);
    assert(el.take(el.len() as int) =~= el);
    assert(el != seq!['y']);
}

/// Reading an array of dictionary entries is reading those.
proof fn lemma_dict_value(
    buf: Seq<u8>,
    pos: int,
    length: int,
    p: int,
    start: int,
    es: Seq<(ValueView, ValueView)>,
    q: int,
)
    requires
        0 <= pos,
        0 <= start,
        read_u32(buf, pos) == Ok::<(int, int), Fault>((length, p)),
        start == round_up(p, 8),
        start + length <= buf.len(),
        read_entries(buf, start, start + length, seq!['{', 's', 'v', '}']) == Ok::<
            (Seq<(ValueView, ValueView)>, int),
            Fault,
        >((es, q)),
    ensures
        read_value(buf, pos, seq!['a', '{', 's', 'v', '}']) == Ok::<(ValueView, int), Fault>(
            (ValueView::Dict(es), q),
        ),
{
    let sig = seq!['a', '{', 's', 'v', '}'];
    let el = seq!['{', 's', 'v', '}'];
    assert(sig.drop_first() =~= el);
    lemma_entry_type(el);
    assert(el.take(4) =~= el);
    assert(el != seq!['y']) by {
        assert(el.len() == 4);
    }
}

proof fn lemma_array_written(element: &str, items: Vec<Arg>, at: int)
    requires
        written_items(items@, items@.len() as int).len() < 0x1_0000_0000,
    ensures
        ({
            let inner = written_items(items@, items@.len() as int);
            let length = written_u32(inner.len() as int, at);
            written(Arg::Array(element, items), at) == length + pad(
                at + length.len(),
                alignment(element@),
            ) + inner
        }),
{
}

proof fn lemma_dict_written(entries: Vec<(&str, Arg)>, at: int)
    requires
        written_entries(entries@, entries@.len() as int).len() < 0x1_0000_0000,
    ensures
        ({
            let inner = written_entries(entries@, entries@.len() as int);
            let length = written_u32(inner.len() as int, at);
            written(Arg::Dict(entries), at) == length + pad(at + length.len(), 8) + inner
        }),
{
}

/// Contents that start where they have to start somewhere in an aligned buffer.
proof fn lemma_contents_shift(shift: int, contents: int)
    requires
        shift % 8 == 0,
        contents % 8 == 0,
    ensures
        (shift + contents) % 8 == 0,
{
}

proof fn lemma_array_reads_back(
    buf: Seq<u8>,
    shift: int,
    at: int,
    element: &str,
    items: Vec<Arg>,
)
    requires
        0 <= at,
        0 <= shift,
        shift % 8 == 0 || (shift % 4 == 0 && !needs_eight(Arg::Array(element, items))),
        faithful(Arg::Array(element, items), at),
        stands(buf, shift + at, written(Arg::Array(element, items), at)),
    ensures
        ({
            let arg = Arg::Array(element, items);
            read_value(buf, shift + at, signature_of_arg(arg)) == Ok::<(ValueView, int), Fault>(
                (meaning(arg), shift + at + written(arg, at).len()),
            )
        }),
    decreases items, items@.len() + 1,
{
    let arg = Arg::Array(element, items);
    let el = element@;
    let inner = written_items(items@, items@.len() as int);
    let to = alignment(el);
    let length = written_u32(inner.len() as int, at);
    lemma_alignment(el);
    assert(to == 8 ==> needs_eight(arg));
    lemma_array_written(element, items, at);
    lemma_array_layout(buf, shift, at, inner, to);
    let p = shift + at + length.len();
    let start = shift + contents_at(at, to);
    if shift % 8 == 0 && contents_at(at, to) % 8 == 0 {
        lemma_contents_shift(shift, contents_at(at, to));
    }
    assert(written_items(items@, 0) == Seq::<u8>::empty());
    lemma_items_read_back(buf, start, items@, 0, el);
    lemma_list_value(
        buf,
        shift + at,
        el,
        inner.len() as int,
        p,
        start,
        meanings(items@, 0),
        start + inner.len(),
    );
}

proof fn lemma_dict_reads_back(buf: Seq<u8>, shift: int, at: int, entries: Vec<(&str, Arg)>)
    requires
        0 <= at,
        0 <= shift,
        shift % 8 == 0,
        faithful(Arg::Dict(entries), at),
        stands(buf, shift + at, written(Arg::Dict(entries), at)),
    ensures
        ({
            let arg = Arg::Dict(entries);
            read_value(buf, shift + at, signature_of_arg(arg)) == Ok::<(ValueView, int), Fault>(
                (meaning(arg), shift + at + written(arg, at).len()),
            )
        }),
    decreases entries, entries@.len() + 2,
{
    let arg = Arg::Dict(entries);
    let inner = written_entries(entries@, entries@.len() as int);
    let length = written_u32(inner.len() as int, at);
    lemma_dict_written(entries, at);
    lemma_array_layout(buf, shift, at, inner, 8);
    let p = shift + at + length.len();
    let start = shift + contents_at(at, 8);
    lemma_round_up(p, 8);
    assert(written_entries(entries@, 0) == Seq::<u8>::empty());
    lemma_entries_read_back(buf, start, entries@, 0);
    lemma_dict_value(
        buf,
        shift + at,
        inner.len() as int,
        p,
        start,
        entry_meanings(entries@, 0),
        start + inner.len(),
    );
}

proof fn lemma_entry_type(el: Seq<char>)
    requires
        el == seq!['{', 's', 'v', '}'],
    ensures
        first_type(el) == Ok::<int, Fault>(4),
{
    reveal_with_fuel(type_end, 6);
    assert(type_end(el, 3, 1) == Ok::<int, Fault>(4));
    assert(type_end(el, 2, 1) == Ok::<int, Fault>(4));
    assert(type_end(el, 1, 1) == Ok::<int, Fault>(4));
}

proof fn lemma_contents_four(at: int, to: int)
    requires
        0 <= at,
        is_alignment(to),
    ensures
        contents_at(at, to) % 4 == 0,
        contents_at(at, to) > at,
{
    lemma_round_up(at, 4);
    lemma_round_up(round_up(at, 4) + 4, to);
    reveal(round_up);
    if to == 1 {
    } else if to == 2 {
    } else if to == 4 {
    } else {
    }
}

pub proof fn lemma_items_front(items: Seq<Arg>, k: int, n: int)
    requires
        0 <= k <= n <= items.len(),
    ensures
        written_items(items, k).len() <= written_items(items, n).len(),
        written_items(items, n).take(written_items(items, k).len() as int) == written_items(
            items,
            k,
        ),
        k < n ==> written_items(items, k).len() < written_items(items, n).len(),
    decreases n - k,
{
    let a = written_items(items, k);
    if k < n {
        lemma_items_front(items, k, n - 1);
        let b = written_items(items, n - 1);
        let last = written(items[n - 1], b.len() as int);
        lemma_written_some(items[n - 1], b.len() as int);
        assert(written_items(items, n) == b + last);
        assert((b + last).take(a.len() as int) == b.take(a.len() as int));
    } else {
        assert(a.take(a.len() as int) == a);
    }
}

proof fn lemma_faithful_item(items: Seq<Arg>, n: int, k: int, element: Seq<char>)
    requires
        0 <= k < n <= items.len(),
        faithful_items(items, n, element),
    ensures
        signature_of_arg(items[k]) == element,
        faithful(items[k], written_items(items, k).len() as int),
    decreases n,
{
    if k < n - 1 {
        lemma_faithful_item(items, n - 1, k, element);
    }
}

proof fn lemma_none_needs_eight(items: Seq<Arg>, n: int, k: int)
    requires
        0 <= k < n <= items.len(),
        !any_needs_eight(items, n),
    ensures
        !needs_eight(items[k]),
    decreases n,
{
    if k < n - 1 {
        lemma_none_needs_eight(items, n - 1, k);
    }
}

/// The bytes of item `k` stand in a buffer that holds the whole list.
pub proof fn lemma_item_stands(buf: Seq<u8>, base: int, items: Seq<Arg>, k: int)
    requires
        0 <= k < items.len(),
        stands(buf, base, written_items(items, items.len() as int)),
    ensures
        ({
            let before = written_items(items, k).len() as int;
            stands(buf, base + before, written(items[k], before))
        }),
{
    let all = written_items(items, items.len() as int);
    let next = written_items(items, k + 1);
    let before = written_items(items, k);
    lemma_items_front(items, k + 1, items.len() as int);
    assert(all == next + all.skip(next.len() as int));
    lemma_stands_parts(buf, base, next, all.skip(next.len() as int));
    assert(next == before + written(items[k], before.len() as int));
    lemma_stands_parts(buf, base, before, written(items[k], before.len() as int));
}

proof fn lemma_items_read_back(
    buf: Seq<u8>,
    base: int,
    items: Seq<Arg>,
    k: int,
    element: Seq<char>,
)
    requires
        0 <= k <= items.len(),
        0 <= base,
        base % 8 == 0 || (base % 4 == 0 && !any_needs_eight(items, items.len() as int)),
        faithful_items(items, items.len() as int, element),
        stands(buf, base, written_items(items, items.len() as int)),
    ensures
        ({
            let end = base + written_items(items, items.len() as int).len();
            read_items(buf, base + written_items(items, k).len(), end, element) == Ok::<
                (Seq<ValueView>, int),
                Fault,
            >((meanings(items, k), end))
        }),
    decreases items, items.len() - k,
{
    let n = items.len() as int;
    let before = written_items(items, k).len() as int;
    lemma_items_front(items, k, n);
    if k < n {
        lemma_faithful_item(items, n, k, element);
        if base % 8 != 0 {
            lemma_none_needs_eight(items, n, k);
        }
        lemma_item_stands(buf, base, items, k);
        law_value_reads_back(buf, base, before, items[k]);
        lemma_written_some(items[k], before);
        assert(written_items(items, k + 1) == written_items(items, k) + written(items[k], before));
        lemma_items_read_back(buf, base, items, k + 1, element);
    }
}

proof fn lemma_entries_front(entries: Seq<(&str, Arg)>, k: int, n: int)
    requires
        0 <= k <= n <= entries.len(),
    ensures
        written_entries(entries, k).len() <= written_entries(entries, n).len(),
        written_entries(entries, n).take(written_entries(entries, k).len() as int)
            == written_entries(entries, k),
        k < n ==> written_entries(entries, k).len() < written_entries(entries, n).len(),
    decreases n - k,
{
    let a = written_entries(entries, k);
    if k < n {
        lemma_entries_front(entries, k, n - 1);
        let b = written_entries(entries, n - 1);
        let all = written_entries(entries, n);
        lemma_entry_parts(entries, n - 1);
        assert(all.take(a.len() as int) == b.take(a.len() as int));
    } else {
        assert(a.take(a.len() as int) == a);
    }
}

/// What entry `k` adds to the entries before it.
pub open spec fn entry_bytes(entries: Seq<(&str, Arg)>, k: int) -> Seq<u8> {
    let before = written_entries(entries, k).len() as int;
    let value = entries[k].1;
    let sig = written_signature(signature_of_arg(value));
    pad(before, 8) + (written_text(entries[k].0@, key_at(entries, k)) + (sig + written(
        value,
        value_at(entries, k) + sig.len(),
    )))
}

proof fn lemma_entry_parts(entries: Seq<(&str, Arg)>, k: int)
    requires
        0 <= k < entries.len(),
    ensures
        written_entries(entries, k + 1) == written_entries(entries, k) + entry_bytes(entries, k),
        entry_bytes(entries, k).len() > 0,
{
    let before = written_entries(entries, k);
    lemma_pad(before.len() as int, 8);
    let aligned = before + pad(before.len() as int, 8);
    assert(aligned.len() == key_at(entries, k));
    let keyed = aligned + written_text(entries[k].0@, aligned.len() as int);
    assert(keyed.len() == value_at(entries, k));
    assert(written_entries(entries, k + 1) =~= before + entry_bytes(entries, k));
}

proof fn lemma_faithful_entry(entries: Seq<(&str, Arg)>, n: int, k: int)
    requires
        0 <= k < n <= entries.len(),
        faithful_entries(entries, n),
    ensures
        encode_utf8(entries[k].0@).len() < 0x1_0000_0000,
        faithful_variant(entries[k].1, value_at(entries, k)),
    decreases n,
{
    if k < n - 1 {
        lemma_faithful_entry(entries, n - 1, k);
    }
}

/// Where the key and the value of entry `k` stand.
proof fn lemma_entry_layout(buf: Seq<u8>, base: int, entries: Seq<(&str, Arg)>, k: int)
    requires
        0 <= k < entries.len(),
        0 <= base,
        base % 8 == 0,
        stands(buf, base, written_entries(entries, entries.len() as int)),
    ensures
        ({
            let pos = base + written_entries(entries, k).len();
            let value = entries[k].1;
            let sig = written_signature(signature_of_arg(value));
            &&& pos <= round_up(pos, 8)
            &&& base + key_at(entries, k) == round_up(pos, 8)
            &&& stands(
                buf,
                base + key_at(entries, k),
                written_text(entries[k].0@, key_at(entries, k)),
            )
            &&& stands(
                buf,
                base + value_at(entries, k),
                sig + written(value, value_at(entries, k) + sig.len()),
            )
            &&& base + value_at(entries, k) + sig.len() + written(
                value,
                value_at(entries, k) + sig.len(),
            ).len() == base + written_entries(entries, k + 1).len()
        }),
{
    let n = entries.len() as int;
    let all = written_entries(entries, n);
    let before = written_entries(entries, k);
    let pos = base + before.len();
    let value = entries[k].1;
    let sig = written_signature(signature_of_arg(value));
    let key = written_text(entries[k].0@, key_at(entries, k));
    let wrapped = sig + written(value, value_at(entries, k) + sig.len());
    let padding = pad(before.len() as int, 8);
    lemma_entry_parts(entries, k);
    let next = written_entries(entries, k + 1);
    lemma_entries_front(entries, k + 1, n);
    assert(all =~= next + all.skip(next.len() as int));
    lemma_stands_parts(buf, base, next, all.skip(next.len() as int));
    lemma_stands_parts(buf, base, before, entry_bytes(entries, k));
    lemma_pad(before.len() as int, 8);
    lemma_stands_parts(buf, pos, padding, key + wrapped);
    lemma_round_up_shift(base, before.len() as int, 8);
    lemma_round_up(before.len() as int, 8);
    lemma_stands_parts(buf, base + key_at(entries, k), key, wrapped);
    assert(entry_bytes(entries, k).len() == padding.len() + key.len() + wrapped.len());
}

/// The key and the value of entry `k` read back from where they stand.
#[verifier::spinoff_prover]
proof fn lemma_entry_reads_back(buf: Seq<u8>, base: int, entries: Seq<(&str, Arg)>, k: int)
    requires
        0 <= k < entries.len(),
        0 <= base,
        base % 8 == 0,
        faithful_entries(entries, entries.len() as int),
        stands(buf, base, written_entries(entries, entries.len() as int)),
    ensures
        ({
            let pos = base + written_entries(entries, k).len();
            let start = round_up(pos, 8);
            let middle = base + value_at(entries, k);
            let end = base + written_entries(entries, k + 1).len();
            &&& pos <= start
            &&& start <= middle
            &&& pos < end
            &&& read_value(buf, start, seq!['s']) == Ok::<(ValueView, int), Fault>(
                (ValueView::Str(entries[k].0@), middle),
            )
            &&& read_value(buf, middle, seq!['v']) == Ok::<(ValueView, int), Fault>(
                (meaning(entries[k].1), end),
            )
        }),
    decreases entries, entries.len() - k,
{
    lemma_entry_layout(buf, base, entries, k);
    lemma_faithful_entry(entries, entries.len() as int, k);
    lemma_round_up(written_entries(entries, k).len() as int, 8);
    lemma_key_reads_back(buf, base, key_at(entries, k), entries[k].0@);
    lemma_plain_value(buf, base + value_at(entries, k), seq!['v']);
    law_variant_reads_back(buf, base, value_at(entries, k), entries[k].1);
}

proof fn lemma_key_reads_back(buf: Seq<u8>, base: int, at: int, key: Seq<char>)
    requires
        0 <= base,
        0 <= at,
        base % 8 == 0,
        encode_utf8(key).len() < 0x1_0000_0000,
        stands(buf, base + at, written_text(key, at)),
    ensures
        read_value(buf, base + at, seq!['s']) == Ok::<(ValueView, int), Fault>(
            (ValueView::Str(key), base + at + written_text(key, at).len()),
        ),
{
    lemma_plain_value(buf, base + at, seq!['s']);
    lemma_read_text(buf, base, at, key);
}

proof fn lemma_entries_read_back(buf: Seq<u8>, base: int, entries: Seq<(&str, Arg)>, k: int)
    requires
        0 <= k <= entries.len(),
        0 <= base,
        base % 8 == 0,
        faithful_entries(entries, entries.len() as int),
        stands(buf, base, written_entries(entries, entries.len() as int)),
    ensures
        ({
            let end = base + written_entries(entries, entries.len() as int).len();
            read_entries(
                buf,
                base + written_entries(entries, k).len(),
                end,
                seq!['{', 's', 'v', '}'],
            ) == Ok::<(Seq<(ValueView, ValueView)>, int), Fault>(
                (entry_meanings(entries, k), end),
            )
        }),
    decreases entries, entries.len() - k + 1,
{
    let n = entries.len() as int;
    let el = seq!['{', 's', 'v', '}'];
    let pos = base + written_entries(entries, k).len();
    lemma_entries_front(entries, k, n);
    if k < n {
        lemma_entry_reads_back(buf, base, entries, k);
        let inside = el.subrange(1, 3);
        assert(inside =~= seq!['s', 'v']);
        assert(first_type(inside) == Ok::<int, Fault>(1)) by {
            assert(inside[0] == 's');
        }
        assert(inside.take(1) =~= seq!['s']);
        assert(inside.skip(1) =~= seq!['v']);
        lemma_entries_read_back(buf, base, entries, k + 1);
    }
}

} // verus!
