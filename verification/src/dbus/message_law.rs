//! A message that is built parses back as itself.

use crate::dbus::law::{faithful, faithful_variant, law_value_reads_back, law_variant_reads_back, lemma_item_stands, lemma_le, lemma_pad, lemma_round_up_shift, lemma_signature_is_one_type, lemma_stands_parts, meaning, meanings, stands};
use crate::dbus::bus::{call_fields, message_length, refusal_fields, reply_fields, signal_fields};
use crate::dbus::message::{bare, built, kind_of, parsed, read_fields, with_field, Kind, MessageView};
use crate::dbus::reader::{le32, left, lemma_round_up, read_bytes, read_run, read_u32, read_variant, round_up};
use crate::dbus::signature::{lemma_one_type_in_front, one_type, Fault};
use crate::dbus::value::ValueView;
use crate::dbus::writer::{le_bytes, pad, signature_of_arg, signature_of_args, written, written_fields, written_items, written_signature, Arg};
use vstd::prelude::*;
use vstd::utf8::{encode_utf8, is_ascii_chars_encode_utf8};

verus! {

/// Whether every one of the first `n` arguments can be written so that it reads back.
pub open spec fn faithful_args(args: Seq<Arg>, n: int) -> bool
    decreases n,
{
    if n <= 0 || n > args.len() {
        true
    } else {
        &&& faithful_args(args, n - 1)
        &&& faithful(args[n - 1], written_items(args, n - 1).len() as int)
    }
}

/// Where the variant of header field `n` starts, behind its code.
pub open spec fn variant_at(fields: Seq<(u8, Arg)>, n: int) -> int {
    round_up(written_fields(fields, n).len() as int, 8) + 1
}

/// Whether every one of the first `n` header fields can be written so that it reads back.
pub open spec fn faithful_fields(fields: Seq<(u8, Arg)>, n: int) -> bool
    decreases n,
{
    if n <= 0 || n > fields.len() {
        true
    } else {
        &&& faithful_fields(fields, n - 1)
        &&& faithful_variant(fields[n - 1].1, variant_at(fields, n - 1))
    }
}

/// What the first `n` header fields say of a message, and the signature they give its body.
pub open spec fn told(m: MessageView, fields: Seq<(u8, Arg)>, n: int) -> (MessageView, Seq<char>)
    decreases n,
{
    if n <= 0 || n > fields.len() {
        (m, Seq::empty())
    } else {
        let (before, sig) = told(m, fields, n - 1);
        with_field(before, sig, fields[n - 1].0, meaning(fields[n - 1].1))
    }
}

/// The signatures of the arguments from `k` on.
spec fn signature_from(args: Seq<Arg>, k: int) -> Seq<char>
    decreases args.len() - k,
{
    if k < 0 || k >= args.len() {
        Seq::empty()
    } else {
        signature_of_arg(args[k]) + signature_from(args, k + 1)
    }
}

proof fn lemma_signature_from(args: Seq<Arg>, k: int)
    requires
        0 <= k <= args.len(),
    ensures
        signature_of_args(args, args.len() as int) == signature_of_args(args, k) + signature_from(
            args,
            k,
        ),
    decreases args.len() - k,
{
    if k < args.len() {
        lemma_signature_from(args, k + 1);
        assert(signature_of_args(args, k + 1) + signature_from(args, k + 1) =~= signature_of_args(
            args,
            k,
        ) + (signature_of_arg(args[k]) + signature_from(args, k + 1)));
    } else {
        assert(signature_of_args(args, k) + Seq::<char>::empty() =~= signature_of_args(args, k));
    }
}

proof fn lemma_faithful_arg(args: Seq<Arg>, n: int, k: int)
    requires
        0 <= k < n <= args.len(),
        faithful_args(args, n),
    ensures
        faithful(args[k], written_items(args, k).len() as int),
    decreases n,
{
    if k < n - 1 {
        lemma_faithful_arg(args, n - 1, k);
    }
}

/// Reading a run that starts with one complete type is reading that type, then the rest.
proof fn lemma_run_step(
    buf: Seq<u8>,
    pos: int,
    one: Seq<char>,
    rest: Seq<char>,
    v: ValueView,
    p: int,
    vs: Seq<ValueView>,
    q: int,
)
    requires
        0 <= pos <= p,
        one_type(one),
        crate::dbus::reader::read_value(buf, pos, one) == Ok::<(ValueView, int), Fault>((v, p)),
        read_run(buf, p, rest) == Ok::<(Seq<ValueView>, int), Fault>((vs, q)),
    ensures
        read_run(buf, pos, one + rest) == Ok::<(Seq<ValueView>, int), Fault>((seq![v] + vs, q)),
{
    lemma_one_type_in_front(one, rest);
    let n = one.len() as int;
    assert((one + rest).take(n) =~= one);
    assert((one + rest).skip(n) =~= rest);
}

proof fn lemma_run_reads_back(buf: Seq<u8>, base: int, args: Seq<Arg>, k: int)
    requires
        0 <= k <= args.len(),
        0 <= base,
        base % 8 == 0,
        faithful_args(args, args.len() as int),
        stands(buf, base, written_items(args, args.len() as int)),
    ensures
        ({
            let end = base + written_items(args, args.len() as int).len();
            read_run(buf, base + written_items(args, k).len(), signature_from(args, k)) == Ok::<
                (Seq<ValueView>, int),
                Fault,
            >((meanings(args, k), end))
        }),
    decreases args.len() - k,
{
    let n = args.len() as int;
    if k < n {
        let before = written_items(args, k).len() as int;
        lemma_faithful_arg(args, n, k);
        lemma_item_stands(buf, base, args, k);
        law_value_reads_back(buf, base, before, args[k]);
        assert(written_items(args, k + 1) == written_items(args, k) + written(args[k], before));
        lemma_run_reads_back(buf, base, args, k + 1);
        lemma_signature_is_one_type(args[k]);
        lemma_run_step(
            buf,
            base + before,
            signature_of_arg(args[k]),
            signature_from(args, k + 1),
            meaning(args[k]),
            base + written_items(args, k + 1).len(),
            meanings(args, k + 1),
            base + written_items(args, n).len(),
        );
    }
}

/// What header field `k` adds to the fields before it.
spec fn field_bytes(fields: Seq<(u8, Arg)>, k: int) -> Seq<u8> {
    let before = written_fields(fields, k).len() as int;
    let value = fields[k].1;
    let sig = written_signature(signature_of_arg(value));
    pad(before, 8) + (seq![fields[k].0] + (sig + written(value, variant_at(fields, k) + sig.len())))
}

proof fn lemma_field_parts(fields: Seq<(u8, Arg)>, k: int)
    requires
        0 <= k < fields.len(),
    ensures
        written_fields(fields, k + 1) == written_fields(fields, k) + field_bytes(fields, k),
        field_bytes(fields, k).len() > 0,
{
    let before = written_fields(fields, k);
    lemma_pad(before.len() as int, 8);
    assert(written_fields(fields, k + 1) =~= before + field_bytes(fields, k));
}

proof fn lemma_fields_front(fields: Seq<(u8, Arg)>, k: int, n: int)
    requires
        0 <= k <= n <= fields.len(),
    ensures
        written_fields(fields, k).len() <= written_fields(fields, n).len(),
        written_fields(fields, n).take(written_fields(fields, k).len() as int) == written_fields(
            fields,
            k,
        ),
        k < n ==> written_fields(fields, k).len() < written_fields(fields, n).len(),
    decreases n - k,
{
    let a = written_fields(fields, k);
    if k < n {
        lemma_fields_front(fields, k, n - 1);
        let b = written_fields(fields, n - 1);
        lemma_field_parts(fields, n - 1);
        assert(written_fields(fields, n).take(a.len() as int) =~= b.take(a.len() as int));
    } else {
        assert(a.take(a.len() as int) =~= a);
    }
}

proof fn lemma_faithful_field(fields: Seq<(u8, Arg)>, n: int, k: int)
    requires
        0 <= k < n <= fields.len(),
        faithful_fields(fields, n),
    ensures
        faithful_variant(fields[k].1, variant_at(fields, k)),
    decreases n,
{
    if k < n - 1 {
        lemma_faithful_field(fields, n - 1, k);
    }
}

/// Where the code and the value of header field `k` stand.
proof fn lemma_field_layout(buf: Seq<u8>, base: int, fields: Seq<(u8, Arg)>, k: int)
    requires
        0 <= k < fields.len(),
        0 <= base,
        base % 8 == 0,
        stands(buf, base, written_fields(fields, fields.len() as int)),
    ensures
        ({
            let pos = base + written_fields(fields, k).len();
            let start = base + variant_at(fields, k) - 1;
            let sig = written_signature(signature_of_arg(fields[k].1));
            let wrapped = sig + written(fields[k].1, variant_at(fields, k) + sig.len());
            &&& start == round_up(pos, 8)
            &&& pos <= start
            &&& stands(buf, start, seq![fields[k].0])
            &&& stands(buf, start + 1, wrapped)
            &&& start + 1 + wrapped.len() == base + written_fields(fields, k + 1).len()
        }),
{
    let n = fields.len() as int;
    let all = written_fields(fields, n);
    let before = written_fields(fields, k);
    let pos = base + before.len();
    let sig = written_signature(signature_of_arg(fields[k].1));
    let wrapped = sig + written(fields[k].1, variant_at(fields, k) + sig.len());
    let padding = pad(before.len() as int, 8);
    let next = written_fields(fields, k + 1);
    lemma_field_parts(fields, k);
    lemma_fields_front(fields, k + 1, n);
    assert(all =~= next + all.skip(next.len() as int));
    lemma_stands_parts(buf, base, next, all.skip(next.len() as int));
    lemma_stands_parts(buf, base, before, field_bytes(fields, k));
    lemma_pad(before.len() as int, 8);
    lemma_stands_parts(buf, pos, padding, seq![fields[k].0] + wrapped);
    lemma_round_up_shift(base, before.len() as int, 8);
    lemma_round_up(before.len() as int, 8);
    lemma_stands_parts(buf, base + variant_at(fields, k) - 1, seq![fields[k].0], wrapped);
    assert(field_bytes(fields, k).len() == padding.len() + 1 + wrapped.len());
}

/// Header field `k` reads back from where it stands: its code, then its value.
proof fn lemma_field_reads_back(buf: Seq<u8>, base: int, fields: Seq<(u8, Arg)>, k: int)
    requires
        0 <= k < fields.len(),
        0 <= base,
        base % 8 == 0,
        faithful_fields(fields, fields.len() as int),
        stands(buf, base, written_fields(fields, fields.len() as int)),
    ensures
        ({
            let pos = base + written_fields(fields, k).len();
            let start = round_up(pos, 8);
            let end = base + written_fields(fields, k + 1).len();
            &&& pos <= start < end
            &&& read_bytes(buf, start, 1) == Ok::<(Seq<u8>, int), Fault>(
                (seq![fields[k].0], start + 1),
            )
            &&& read_variant(buf, start + 1) == Ok::<(ValueView, int), Fault>(
                (meaning(fields[k].1), end),
            )
        }),
{
    lemma_field_layout(buf, base, fields, k);
    lemma_round_up(written_fields(fields, k).len() as int, 8);
    lemma_faithful_field(fields, fields.len() as int, k);
    law_variant_reads_back(buf, base, variant_at(fields, k), fields[k].1);
}

proof fn lemma_fields_read_back(
    buf: Seq<u8>,
    base: int,
    m: MessageView,
    fields: Seq<(u8, Arg)>,
    k: int,
)
    requires
        0 <= k <= fields.len(),
        0 <= base,
        base % 8 == 0,
        faithful_fields(fields, fields.len() as int),
        stands(buf, base, written_fields(fields, fields.len() as int)),
    ensures
        ({
            let n = fields.len() as int;
            let end = base + written_fields(fields, n).len();
            read_fields(
                buf,
                base + written_fields(fields, k).len(),
                end,
                told(m, fields, k).0,
                told(m, fields, k).1,
            ) == Ok::<(MessageView, Seq<char>, int), Fault>(
                (told(m, fields, n).0, told(m, fields, n).1, end),
            )
        }),
    decreases fields.len() - k,
{
    let n = fields.len() as int;
    lemma_fields_front(fields, k, n);
    if k < n {
        lemma_field_reads_back(buf, base, fields, k);
        lemma_fields_read_back(buf, base, m, fields, k + 1);
    }
}

/// Where the parts of a message stand, whatever they hold.
proof fn lemma_parts_stand(
    fixed: Seq<u8>,
    first: Seq<u8>,
    second: Seq<u8>,
    third: Seq<u8>,
    header: Seq<u8>,
    padding: Seq<u8>,
    body: Seq<u8>,
)
    requires
        fixed.len() == 4,
        first.len() == 4,
        second.len() == 4,
        third.len() == 4,
    ensures
        ({
            let raw = fixed + first + second + third + header + padding + body;
            let start = 16 + header.len() + padding.len() as int;
            &&& raw.len() == start + body.len()
            &&& raw[0] == fixed[0]
            &&& raw[1] == fixed[1]
            &&& raw.subrange(4, 8) == first
            &&& raw.subrange(8, 12) == second
            &&& raw.subrange(12, 16) == third
            &&& stands(raw, 16, header)
            &&& stands(raw, start, body)
        }),
{
    let raw = fixed + first + second + third + header + padding + body;
    let start = 16 + header.len() + padding.len() as int;
    assert(raw.subrange(4, 8) =~= first);
    assert(raw.subrange(8, 12) =~= second);
    assert(raw.subrange(12, 16) =~= third);
    assert(raw.subrange(16, 16int + header.len()) =~= header);
    assert(raw.subrange(start, start + body.len()) =~= body);
}

/// How a built message is laid out: its numbers, its header fields, and its body.
proof fn lemma_built_layout(
    serial: u32,
    kind: u8,
    flags: u8,
    fields: Seq<(u8, Arg)>,
    arguments: Seq<Arg>,
)
    requires
        written_fields(fields, fields.len() as int).len() < 0x1_0000_0000,
        written_items(arguments, arguments.len() as int).len() < 0x1_0000_0000,
    ensures
        ({
            let raw = built(serial, kind, flags, fields, arguments);
            let header = written_fields(fields, fields.len() as int);
            let body = written_items(arguments, arguments.len() as int);
            let start = round_up(16int + header.len(), 8);
            &&& raw.len() == start + body.len()
            &&& 16 <= raw.len()
            &&& raw[0] == 0x6c
            &&& raw[1] == kind
            &&& le32(raw.subrange(4, 8)) == body.len()
            &&& le32(raw.subrange(8, 12)) == serial
            &&& le32(raw.subrange(12, 16)) == header.len()
            &&& stands(raw, 16, header)
            &&& stands(raw, start, body)
            &&& start % 8 == 0
            &&& start >= 16int + header.len()
        }),
{
    reveal(built);
    let raw = built(serial, kind, flags, fields, arguments);
    let header = written_fields(fields, fields.len() as int);
    let body = written_items(arguments, arguments.len() as int);
    let fixed = seq![0x6cu8, kind, flags, 1u8];
    let first = le_bytes(body.len() as int);
    let second = le_bytes(serial as int);
    let third = le_bytes(header.len() as int);
    let padding = pad(16int + header.len(), 8);
    lemma_pad(16int + header.len(), 8);
    lemma_round_up(16int + header.len(), 8);
    lemma_le(serial as int);
    lemma_le(header.len() as int);
    lemma_le(body.len() as int);
    lemma_parts_stand(fixed, first, second, third, header, padding, body);
}

/// A message that is built parses back as itself: its kind and serial, what its header fields
/// say, and the arguments it carries.
pub proof fn law_message_reads_back(
    serial: u32,
    kind: u8,
    flags: u8,
    fields: Seq<(u8, Arg)>,
    arguments: Seq<Arg>,
)
    requires
        kind_of(kind) is Some,
        written_fields(fields, fields.len() as int).len() < 0x1_0000_0000,
        written_items(arguments, arguments.len() as int).len() < 0x1_0000_0000,
        faithful_fields(fields, fields.len() as int),
        faithful_args(arguments, arguments.len() as int),
        // The signature its header names is that of the arguments it carries.
        told(bare(kind_of(kind)->0, serial as int), fields, fields.len() as int).1
            == signature_of_args(arguments, arguments.len() as int),
    ensures
        parsed(built(serial, kind, flags, fields, arguments)) == Ok::<MessageView, Fault>(
            (MessageView {
                body: meanings(arguments, 0),
                ..told(bare(kind_of(kind)->0, serial as int), fields, fields.len() as int).0
            }),
        ),
{
    let raw = built(serial, kind, flags, fields, arguments);
    let header = written_fields(fields, fields.len() as int);
    let body = written_items(arguments, arguments.len() as int);
    let m = bare(kind_of(kind)->0, serial as int);
    lemma_built_layout(serial, kind, flags, fields, arguments);
    lemma_round_up(8, 4);
    lemma_round_up(12, 4);
    assert(read_u32(raw, 8) == Ok::<(int, int), Fault>((serial as int, 12)));
    assert(read_u32(raw, 12) == Ok::<(int, int), Fault>((header.len() as int, 16)));
    assert(written_fields(fields, 0) =~= Seq::<u8>::empty());
    lemma_fields_read_back(raw, 16, m, fields, 0);
    let start = round_up(16int + header.len(), 8);
    assert(written_items(arguments, 0) =~= Seq::<u8>::empty());
    lemma_run_reads_back(raw, start, arguments, 0);
    lemma_signature_from(arguments, 0);
    assert(signature_of_args(arguments, 0) + signature_from(arguments, 0) =~= signature_from(
        arguments,
        0,
    ));
}

/// Messages sent back to back come apart again: however much follows a built message, the
/// length its header gives is its own.
pub proof fn law_built_message_is_framed(
    serial: u32,
    kind: u8,
    flags: u8,
    fields: Seq<(u8, Arg)>,
    arguments: Seq<Arg>,
    rest: Seq<u8>,
)
    requires
        written_fields(fields, fields.len() as int).len() < 0x1_0000_0000,
        written_items(arguments, arguments.len() as int).len() < 0x1_0000_0000,
    ensures
        ({
            let raw = built(serial, kind, flags, fields, arguments);
            &&& message_length(raw + rest) == Some(raw.len() as int)
            &&& (raw + rest).take(raw.len() as int) == raw
            &&& (raw + rest).skip(raw.len() as int) == rest
        }),
{
    let raw = built(serial, kind, flags, fields, arguments);
    lemma_built_layout(serial, kind, flags, fields, arguments);
    assert((raw + rest).subrange(12, 16) =~= raw.subrange(12, 16));
    assert((raw + rest).subrange(4, 8) =~= raw.subrange(4, 8));
    assert((raw + rest).take(raw.len() as int) =~= raw);
    assert((raw + rest).skip(raw.len() as int) =~= rest);
}

/// A reply quotes the serial of the call it answers, and carries what it was given, or the
/// caller waits for its own timeout instead.
pub proof fn law_reply_names_its_call(
    serial: u32,
    to: u32,
    sender: Option<&str>,
    sig: &str,
    arguments: Seq<Arg>,
)
    requires
        sig@ == signature_of_args(arguments, arguments.len() as int),
        encode_utf8(sig@).len() < 256,
        sender matches Some(who) ==> encode_utf8(who@).len() < 0xffff_0000,
        written_items(arguments, arguments.len() as int).len() < 0x1_0000_0000,
        faithful_args(arguments, arguments.len() as int),
    ensures
        parsed(built(serial, 2, 1, reply_fields(to, sender, sig, arguments.len()), arguments))
            == Ok::<MessageView, Fault>(
            (MessageView {
                reply_serial: Some(to as int),
                body: meanings(arguments, 0),
                ..bare(Kind::Return, serial as int)
            }),
        ),
{
    let fields = reply_fields(to, sender, sig, arguments.len());
    let n = fields.len() as int;
    let m = bare(Kind::Return, serial as int);
    lemma_reply_fields(to, sender, sig, arguments.len());
    reveal_with_fuel(told, 4);
    assert(to as int % 0x1_0000_0000 == to);
    let quoted = MessageView { reply_serial: Some(to as int), ..m };
    assert(told(m, fields, 1) == (quoted, Seq::<char>::empty()));
    if sender is Some {
        assert(told(m, fields, 2) == (quoted, Seq::<char>::empty()));
    }
    assert(told(m, fields, n).0 == quoted);
    if arguments.len() == 0 {
        assert(signature_of_args(arguments, 0) =~= Seq::<char>::empty());
    }
    assert(told(m, fields, n).1 == sig@);
    law_message_reads_back(serial, 2, 1, fields, arguments);
}

/// The header fields of a reply can be written so that they read back.
proof fn lemma_reply_fields(to: u32, sender: Option<&str>, sig: &str, count: nat)
    requires
        encode_utf8(sig@).len() < 256,
        sender matches Some(who) ==> encode_utf8(who@).len() < 0xffff_0000,
    ensures
        ({
            let fields = reply_fields(to, sender, sig, count);
            &&& faithful_fields(fields, fields.len() as int)
            &&& written_fields(fields, fields.len() as int).len() < 0x1_0000_0000
        }),
{
    let fields = reply_fields(to, sender, sig, count);
    reveal_with_fuel(room, 4);
    lemma_plain_fields(fields, fields.len() as int);
}

/// How many bytes of text a plain header field holds.
pub open spec fn text_size(value: Arg) -> int {
    match value {
        Arg::U32(_) => 0,
        Arg::Str(s) => encode_utf8(s@).len() as int,
        Arg::Path(s) => encode_utf8(s@).len() as int,
        Arg::Sig(s) => encode_utf8(s@).len() as int,
        _ => 0,
    }
}

/// Whether a header field holds a number or a text, as every one the bar writes does.
pub open spec fn plain(value: Arg) -> bool {
    match value {
        Arg::U32(_) => true,
        Arg::Str(_) => true,
        Arg::Path(_) => true,
        Arg::Sig(s) => encode_utf8(s@).len() < 256,
        _ => false,
    }
}

/// The bytes of text in the first `n` header fields, and room for what stands around each.
pub open spec fn room(fields: Seq<(u8, Arg)>, n: int) -> int
    decreases n,
{
    if n <= 0 || n > fields.len() {
        0
    } else {
        room(fields, n - 1) + text_size(fields[n - 1].1) + 32
    }
}

proof fn lemma_short_signature(s: Seq<char>)
    requires
        s.len() == 1,
        s[0] == 's' || s[0] == 'u' || s[0] == 'g' || s[0] == 'o',
    ensures
        encode_utf8(s).len() == 1,
{
    is_ascii_chars_encode_utf8(s);
}

/// How much a plain header field adds to the ones before it.
proof fn lemma_field_growth(fields: Seq<(u8, Arg)>, k: int)
    requires
        0 <= k < fields.len(),
        plain(fields[k].1),
    ensures
        written_fields(fields, k + 1).len() <= written_fields(fields, k).len() + text_size(
            fields[k].1,
        ) + 32,
        encode_utf8(signature_of_arg(fields[k].1)).len() == 1,
{
    let before = written_fields(fields, k);
    let sig = written_signature(signature_of_arg(fields[k].1));
    let at = variant_at(fields, k) + sig.len();
    lemma_short_signature(signature_of_arg(fields[k].1));
    lemma_field_parts(fields, k);
    lemma_pad(before.len() as int, 8);
    lemma_round_up(before.len() as int, 8);
    lemma_pad(at, 4);
    lemma_round_up(at, 4);
    reveal(le_bytes);
}

/// Plain header fields can be written so that they read back, as long as their length fits the
/// header's number.
proof fn lemma_plain_fields(fields: Seq<(u8, Arg)>, n: int)
    requires
        0 <= n <= fields.len(),
        forall|k: int| 0 <= k < n ==> plain((#[trigger] fields[k]).1),
        room(fields, n) < 0x1_0000_0000,
    ensures
        faithful_fields(fields, n),
        written_fields(fields, n).len() <= room(fields, n),
        room(fields, n) >= 0,
    decreases n,
{
    if n > 0 {
        assert(text_size(fields[n - 1].1) >= 0);
        lemma_plain_fields(fields, n - 1);
        lemma_field_growth(fields, n - 1);
    }
}

/// The header fields that stand in the bytes from `pos` up to `end`: each one's code and what it
/// holds, in the order they stand.
pub open spec fn listed(raw: Seq<u8>, pos: int, end: int) -> Seq<(u8, ValueView)>
    decreases left(raw, pos),
    when 0 <= pos
{
    if pos >= end {
        Seq::empty()
    } else {
        match read_bytes(raw, round_up(pos, 8), 1) {
            Err(_) => Seq::empty(),
            Ok((code, p)) => match read_variant(raw, p) {
                Err(_) => Seq::empty(),
                Ok((v, q)) => if q < p {
                    Seq::empty()
                } else {
                    proof {
                        lemma_round_up(pos, 8);
                    }
                    seq![(code[0], v)] + listed(raw, q, end)
                },
            },
        }
    }
}

/// The header fields of a message, as they stand behind its fixed sixteen bytes.
pub open spec fn header_of(raw: Seq<u8>) -> Seq<(u8, ValueView)> {
    listed(raw, 16, 16 + le32(raw.subrange(12, 16)))
}

/// Whether a header holds exactly one field of this code, and it is this text.
pub open spec fn holds_once(header: Seq<(u8, ValueView)>, code: u8, text: Seq<char>) -> bool {
    exists|i: int|
        {
            &&& 0 <= i < header.len()
            &&& #[trigger] header[i] == (code, ValueView::Str(text))
            &&& forall|j: int| 0 <= j < header.len() && (#[trigger] header[j]).0 == code ==> j == i
        }
}

/// Whether a header holds no field of this code.
pub open spec fn holds_none(header: Seq<(u8, ValueView)>, code: u8) -> bool {
    forall|j: int| 0 <= j < header.len() ==> (#[trigger] header[j]).0 != code
}

/// The header fields from `k` on, as a reader understands them.
spec fn meant(fields: Seq<(u8, Arg)>, k: int) -> Seq<(u8, ValueView)> {
    Seq::new((fields.len() - k) as nat, |i: int| (fields[k + i].0, meaning(fields[k + i].1)))
}

proof fn lemma_listed(buf: Seq<u8>, base: int, fields: Seq<(u8, Arg)>, k: int)
    requires
        0 <= k <= fields.len(),
        0 <= base,
        base % 8 == 0,
        faithful_fields(fields, fields.len() as int),
        stands(buf, base, written_fields(fields, fields.len() as int)),
    ensures
        listed(
            buf,
            base + written_fields(fields, k).len(),
            base + written_fields(fields, fields.len() as int).len(),
        ) == meant(fields, k),
    decreases fields.len() - k,
{
    let n = fields.len() as int;
    lemma_fields_front(fields, k, n);
    if k < n {
        lemma_field_reads_back(buf, base, fields, k);
        lemma_listed(buf, base, fields, k + 1);
        assert(meant(fields, k) =~= seq![(fields[k].0, meaning(fields[k].1))] + meant(
            fields,
            k + 1,
        ));
    } else {
        assert(meant(fields, k) =~= Seq::<(u8, ValueView)>::empty());
    }
}

/// The header of a built message holds the fields it was built with.
proof fn lemma_header_of(
    serial: u32,
    kind: u8,
    flags: u8,
    fields: Seq<(u8, Arg)>,
    arguments: Seq<Arg>,
)
    requires
        written_fields(fields, fields.len() as int).len() < 0x1_0000_0000,
        written_items(arguments, arguments.len() as int).len() < 0x1_0000_0000,
        faithful_fields(fields, fields.len() as int),
    ensures
        header_of(built(serial, kind, flags, fields, arguments)) == meant(fields, 0),
        built(serial, kind, flags, fields, arguments).len() >= 16,
        built(serial, kind, flags, fields, arguments)[2] == flags,
        built(serial, kind, flags, fields, arguments)[3] == 1,
{
    let raw = built(serial, kind, flags, fields, arguments);
    lemma_built_layout(serial, kind, flags, fields, arguments);
    assert(written_fields(fields, 0) =~= Seq::<u8>::empty());
    lemma_listed(raw, 16, fields, 0);
    reveal(built);
}

/// The signature of no arguments is no text at all.
proof fn lemma_no_signature(arguments: Seq<Arg>)
    requires
        arguments.len() == 0,
    ensures
        signature_of_args(arguments, arguments.len() as int) == Seq::<char>::empty(),
{
    assert(signature_of_args(arguments, 0) =~= Seq::<char>::empty());
}

/// Whether arguments can be put behind a header: their signature fits its byte, and each reads
/// back as itself.
pub open spec fn sendable(arguments: Seq<Arg>) -> bool {
    &&& encode_utf8(signature_of_args(arguments, arguments.len() as int)).len() < 256
    &&& written_items(arguments, arguments.len() as int).len() < 0x1_0000_0000
    &&& faithful_args(arguments, arguments.len() as int)
}

/// Whether these bytes are a call of `member` of `interface`, made to the object at `path` of
/// whoever goes by `destination`, with these arguments. It is the bus that reads the
/// destination, and a call without it, or with another name in it, reaches someone else.
pub open spec fn is_the_call(
    raw: Seq<u8>,
    serial: u32,
    destination: Seq<char>,
    path: Seq<char>,
    interface: Seq<char>,
    member: Seq<char>,
    arguments: Seq<Arg>,
) -> bool {
    let header = header_of(raw);
    &&& holds_once(header, 1, path)
    &&& holds_once(header, 2, interface)
    &&& holds_once(header, 3, member)
    &&& holds_once(header, 6, destination)
    &&& holds_none(header, 4)
    &&& holds_none(header, 5)
    &&& holds_none(header, 7)
    // A call waits for its answer.
    &&& raw[2] == 0
    &&& raw[3] == 1
    &&& parsed(raw) == Ok::<MessageView, Fault>(
        (MessageView {
            kind: Kind::MethodCall,
            serial: serial as int,
            path: Some(path),
            interface: Some(interface),
            member: Some(member),
            sender: None,
            error: None,
            reply_serial: None,
            body: meanings(arguments, 0),
        }),
    )
}

/// A call reaches whom it is made to: its bytes hold the destination, the path, the interface
/// and the member once each, every one under its own code, and parse back as that call.
pub proof fn law_a_call_names_whom_it_is_made_to(
    serial: u32,
    destination: &str,
    path: &str,
    interface: &str,
    member: &str,
    sig: &str,
    arguments: Seq<Arg>,
)
    requires
        sig@ == signature_of_args(arguments, arguments.len() as int),
        sendable(arguments),
        encode_utf8(destination@).len() + encode_utf8(path@).len() + encode_utf8(interface@).len()
            + encode_utf8(member@).len() < 0xffff_0000,
    ensures
        is_the_call(
            built(
                serial,
                1,
                0,
                call_fields(path, interface, member, destination, sig, arguments.len()),
                arguments,
            ),
            serial,
            destination@,
            path@,
            interface@,
            member@,
            arguments,
        ),
{
    let fields = call_fields(path, interface, member, destination, sig, arguments.len());
    let n = fields.len() as int;
    let m = bare(Kind::MethodCall, serial as int);
    reveal_with_fuel(room, 6);
    lemma_plain_fields(fields, n);
    lemma_header_of(serial, 1, 0, fields, arguments);
    let header = meant(fields, 0);
    assert(header[0] == (1u8, ValueView::Str(path@)));
    assert(header[1] == (2u8, ValueView::Str(interface@)));
    assert(header[2] == (3u8, ValueView::Str(member@)));
    assert(header[3] == (6u8, ValueView::Str(destination@)));
    assert(n == 5 ==> header[4] == (8u8, ValueView::Str(sig@)));
    reveal_with_fuel(told, 6);
    let named = MessageView {
        path: Some(path@),
        interface: Some(interface@),
        member: Some(member@),
        ..m
    };
    assert(told(m, fields, 4) == (named, Seq::<char>::empty()));
    if arguments.len() == 0 {
        lemma_no_signature(arguments);
    }
    law_message_reads_back(serial, 1, 0, fields, arguments);
}

/// Every header field is read as what its code says: the path, the interface, the member, the
/// error, the serial that is answered, and who sent it. Whom it is for is for the bus alone.
#[verifier::rlimit(40)]
pub proof fn law_each_field_is_read_under_its_code(
    serial: u32,
    kind: u8,
    flags: u8,
    path: &str,
    interface: &str,
    member: &str,
    error: &str,
    reply: u32,
    destination: &str,
    sender: &str,
    sig: &str,
    arguments: Seq<Arg>,
)
    requires
        1 <= kind <= 4,
        sig@ == signature_of_args(arguments, arguments.len() as int),
        sendable(arguments),
        encode_utf8(path@).len() + encode_utf8(interface@).len() + encode_utf8(member@).len()
            + encode_utf8(error@).len() + encode_utf8(destination@).len() + encode_utf8(
            sender@,
        ).len() < 0xffff_0000,
    ensures
        parsed(
            built(
                serial,
                kind,
                flags,
                seq![
                    (1u8, Arg::Path(path)),
                    (2u8, Arg::Str(interface)),
                    (3u8, Arg::Str(member)),
                    (4u8, Arg::Str(error)),
                    (5u8, Arg::U32(reply)),
                    (6u8, Arg::Str(destination)),
                    (7u8, Arg::Str(sender)),
                    (8u8, Arg::Sig(sig)),
                ],
                arguments,
            ),
        ) == Ok::<MessageView, Fault>(
            (MessageView {
                kind: if kind == 1 {
                    Kind::MethodCall
                } else if kind == 2 {
                    Kind::Return
                } else if kind == 3 {
                    Kind::Error
                } else {
                    Kind::Signal
                },
                serial: serial as int,
                path: Some(path@),
                interface: Some(interface@),
                member: Some(member@),
                sender: Some(sender@),
                error: Some(error@),
                reply_serial: Some(reply as int),
                body: meanings(arguments, 0),
            }),
        ),
{
    let fields = seq![
        (1u8, Arg::Path(path)),
        (2u8, Arg::Str(interface)),
        (3u8, Arg::Str(member)),
        (4u8, Arg::Str(error)),
        (5u8, Arg::U32(reply)),
        (6u8, Arg::Str(destination)),
        (7u8, Arg::Str(sender)),
        (8u8, Arg::Sig(sig)),
    ];
    let m = bare(kind_of(kind)->0, serial as int);
    reveal_with_fuel(room, 9);
    lemma_plain_fields(fields, 8);
    reveal_with_fuel(told, 9);
    assert(reply as int % 0x1_0000_0000 == reply);
    assert(told(m, fields, 8).1 == sig@);
    law_message_reads_back(serial, kind, flags, fields, arguments);
}

/// Whether these bytes announce `member` of `interface` from the object at `path`, to whoever
/// listens.
pub open spec fn is_the_signal(
    raw: Seq<u8>,
    serial: u32,
    path: Seq<char>,
    interface: Seq<char>,
    member: Seq<char>,
    arguments: Seq<Arg>,
) -> bool {
    let header = header_of(raw);
    &&& holds_once(header, 1, path)
    &&& holds_once(header, 2, interface)
    &&& holds_once(header, 3, member)
    &&& holds_none(header, 4)
    &&& holds_none(header, 5)
    &&& holds_none(header, 6)
    &&& holds_none(header, 7)
    &&& raw[2] == 1
    &&& raw[3] == 1
    &&& parsed(raw) == Ok::<MessageView, Fault>(
        (MessageView {
            kind: Kind::Signal,
            serial: serial as int,
            path: Some(path),
            interface: Some(interface),
            member: Some(member),
            sender: None,
            error: None,
            reply_serial: None,
            body: meanings(arguments, 0),
        }),
    )
}

/// A signal is announced to nobody in particular, and parses back as what was announced.
pub proof fn law_a_signal_says_what_happened(
    serial: u32,
    path: &str,
    interface: &str,
    member: &str,
    sig: &str,
    arguments: Seq<Arg>,
)
    requires
        sig@ == signature_of_args(arguments, arguments.len() as int),
        sendable(arguments),
        encode_utf8(path@).len() + encode_utf8(interface@).len() + encode_utf8(member@).len()
            < 0xffff_0000,
    ensures
        is_the_signal(
            built(
                serial,
                4,
                1,
                signal_fields(path, interface, member, sig, arguments.len()),
                arguments,
            ),
            serial,
            path@,
            interface@,
            member@,
            arguments,
        ),
{
    let fields = signal_fields(path, interface, member, sig, arguments.len());
    let n = fields.len() as int;
    let m = bare(Kind::Signal, serial as int);
    reveal_with_fuel(room, 5);
    lemma_plain_fields(fields, n);
    lemma_header_of(serial, 4, 1, fields, arguments);
    let header = meant(fields, 0);
    assert(header[0] == (1u8, ValueView::Str(path@)));
    assert(header[1] == (2u8, ValueView::Str(interface@)));
    assert(header[2] == (3u8, ValueView::Str(member@)));
    assert(n == 4 ==> header[3] == (8u8, ValueView::Str(sig@)));
    reveal_with_fuel(told, 5);
    let named = MessageView {
        path: Some(path@),
        interface: Some(interface@),
        member: Some(member@),
        ..m
    };
    assert(told(m, fields, 3) == (named, Seq::<char>::empty()));
    if arguments.len() == 0 {
        lemma_no_signature(arguments);
    }
    law_message_reads_back(serial, 4, 1, fields, arguments);
}

/// Whether these bytes answer the call made under serial `to`, and go back to whoever made it.
pub open spec fn is_the_reply(
    raw: Seq<u8>,
    serial: u32,
    to: u32,
    caller: Option<Seq<char>>,
    arguments: Seq<Arg>,
) -> bool {
    let header = header_of(raw);
    &&& match caller {
        Some(who) => holds_once(header, 6, who),
        None => holds_none(header, 6),
    }
    &&& holds_none(header, 1)
    &&& holds_none(header, 2)
    &&& holds_none(header, 3)
    &&& holds_none(header, 4)
    &&& holds_none(header, 7)
    // An answer is not itself answered.
    &&& raw[2] == 1
    &&& raw[3] == 1
    &&& parsed(raw) == Ok::<MessageView, Fault>(
        (MessageView {
            kind: Kind::Return,
            serial: serial as int,
            path: None,
            interface: None,
            member: None,
            sender: None,
            error: None,
            reply_serial: Some(to as int),
            body: meanings(arguments, 0),
        }),
    )
}

/// A reply goes back to whoever made the call, quotes the serial of that call, and carries what
/// it was given.
pub proof fn law_a_reply_goes_back_to_its_caller(
    serial: u32,
    to: u32,
    sender: Option<&str>,
    sig: &str,
    arguments: Seq<Arg>,
)
    requires
        sig@ == signature_of_args(arguments, arguments.len() as int),
        sendable(arguments),
        sender matches Some(who) ==> encode_utf8(who@).len() < 0xffff_0000,
    ensures
        is_the_reply(
            built(serial, 2, 1, reply_fields(to, sender, sig, arguments.len()), arguments),
            serial,
            to,
            match sender {
                Some(who) => Some(who@),
                None => None,
            },
            arguments,
        ),
{
    let fields = reply_fields(to, sender, sig, arguments.len());
    let n = fields.len() as int;
    reveal_with_fuel(room, 4);
    lemma_plain_fields(fields, n);
    lemma_header_of(serial, 2, 1, fields, arguments);
    let header = meant(fields, 0);
    assert(header[0].0 == 5);
    if let Some(who) = sender {
        assert(header[1] == (6u8, ValueView::Str(who@)));
        assert(n == 3 ==> header[2] == (8u8, ValueView::Str(sig@)));
    } else {
        assert(n == 2 ==> header[1] == (8u8, ValueView::Str(sig@)));
    }
    law_reply_names_its_call(serial, to, sender, sig, arguments);
}

/// Whether these bytes refuse the call made under serial `to` with the error `name`, tell why in
/// `text`, and go back to whoever made it.
pub open spec fn is_the_refusal(
    raw: Seq<u8>,
    serial: u32,
    to: u32,
    caller: Option<Seq<char>>,
    name: Seq<char>,
    text: Seq<char>,
) -> bool {
    let header = header_of(raw);
    &&& match caller {
        Some(who) => holds_once(header, 6, who),
        None => holds_none(header, 6),
    }
    &&& holds_once(header, 4, name)
    &&& holds_none(header, 1)
    &&& holds_none(header, 2)
    &&& holds_none(header, 3)
    &&& holds_none(header, 7)
    &&& raw[2] == 1
    &&& raw[3] == 1
    &&& parsed(raw) == Ok::<MessageView, Fault>(
        (MessageView {
            kind: Kind::Error,
            serial: serial as int,
            path: None,
            interface: None,
            member: None,
            sender: None,
            error: Some(name),
            reply_serial: Some(to as int),
            body: seq![ValueView::Str(text)],
        }),
    )
}

/// A refusal goes back to whoever made the call, quotes its serial, and gives the error's name
/// and what there is to say about it.
pub proof fn law_a_refusal_goes_back_to_its_caller(
    serial: u32,
    to: u32,
    sender: Option<&str>,
    name: &str,
    text: &str,
)
    requires
        encode_utf8(name@).len() + (match sender {
            Some(who) => encode_utf8(who@).len() as int,
            None => 0,
        }) < 0xffff_0000,
        encode_utf8(text@).len() < 0xffff_0000,
    ensures
        is_the_refusal(
            built(serial, 3, 1, refusal_fields(name, to, sender, "s"), seq![Arg::Str(text)]),
            serial,
            to,
            match sender {
                Some(who) => Some(who@),
                None => None,
            },
            name@,
            text@,
        ),
{
    let fields = refusal_fields(name, to, sender, "s");
    let n = fields.len() as int;
    let m = bare(Kind::Error, serial as int);
    let arguments: Seq<Arg> = seq![Arg::Str(text)];
    reveal_strlit("s");
    lemma_short_signature("s"@);
    reveal_with_fuel(room, 5);
    lemma_plain_fields(fields, n);
    reveal_with_fuel(written_items, 2);
    reveal_with_fuel(faithful_args, 2);
    reveal_with_fuel(signature_of_args, 2);
    reveal_with_fuel(meanings, 2);
    assert(written_items(arguments, 0) =~= Seq::<u8>::empty());
    lemma_pad(0, 4);
    lemma_round_up(0, 4);
    reveal(le_bytes);
    assert(signature_of_args(arguments, 1) =~= "s"@);
    lemma_header_of(serial, 3, 1, fields, arguments);
    let header = meant(fields, 0);
    assert(header[0] == (4u8, ValueView::Str(name@)));
    assert(header[1].0 == 5);
    reveal_with_fuel(told, 5);
    assert(to as int % 0x1_0000_0000 == to);
    let quoted = MessageView { error: Some(name@), reply_serial: Some(to as int), ..m };
    assert(told(m, fields, 2) == (quoted, Seq::<char>::empty()));
    if let Some(who) = sender {
        assert(header[2] == (6u8, ValueView::Str(who@)));
        assert(header[3].0 == 8);
    } else {
        assert(header[2].0 == 8);
    }
    law_message_reads_back(serial, 3, 1, fields, arguments);
    assert(meanings(arguments, 0) =~= seq![ValueView::Str(text@)]);
}

} // verus!
