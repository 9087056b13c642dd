//! Writing the marshalled form: what the bar sends, and the header around it.

use crate::dbus::reader::{is_alignment, round_up};
use crate::dbus::signature::{alignment, alignment_of};
use crate::text::{chars_of, owned};
use vstd::prelude::*;
use vstd::string::*;
use vstd::utf8::encode_utf8;

verus! {

/// A value the bar sends.
///
/// Reading has to be general because the bus decides what arrives. Writing does not: this is
/// exactly the set of things a bar puts on the wire.
#[derive(Debug)]
pub enum Arg<'a> {
    Str(&'a str),
    /// An object path, which is a string the bus type-checks differently.
    Path(&'a str),
    /// A signature, whose length is one byte.
    Sig(&'a str),
    Bool(bool),
    I32(i32),
    U32(u32),
    /// A variant, which is how a property answer and a header field are both wrapped.
    Var(&'a Arg<'a>),
    /// An array of one element type, named because an empty one still has to say what it is
    /// empty of.
    Array(&'a str, Vec<Arg<'a>>),
    /// `a{sv}`, which is what `GetAll` answers with.
    Dict(Vec<(&'a str, Arg<'a>)>),
}

/// The type a value marshals as.
pub open spec fn signature_of_arg(arg: Arg) -> Seq<char> {
    match arg {
        Arg::Str(_) => seq!['s'],
        Arg::Path(_) => seq!['o'],
        Arg::Sig(_) => seq!['g'],
        Arg::Bool(_) => seq!['b'],
        Arg::I32(_) => seq!['i'],
        Arg::U32(_) => seq!['u'],
        Arg::Var(_) => seq!['v'],
        Arg::Array(element, _) => seq!['a'] + element@,
        Arg::Dict(_) => seq!['a', '{', 's', 'v', '}'],
    }
}

/// The signature of the first `n` of a list of arguments.
pub open spec fn signature_of_args(args: Seq<Arg>, n: int) -> Seq<char>
    decreases n,
{
    if n <= 0 {
        Seq::empty()
    } else {
        signature_of_args(args, n - 1) + signature_of_arg(args[n - 1])
    }
}

/// The zeroes between `at` and the next multiple of `to`.
pub open spec fn pad(at: int, to: int) -> Seq<u8> {
    Seq::new((round_up(at, to) - at) as nat, |i: int| 0u8)
}

/// A number as four bytes, least significant first.
#[verifier::opaque]
pub open spec fn le_bytes(n: int) -> Seq<u8> {
    seq![
        (n % 256) as u8,
        (n / 256 % 256) as u8,
        (n / 65536 % 256) as u8,
        (n / 16777216 % 256) as u8,
    ]
}

/// A number written where `at` bytes already stand.
pub open spec fn written_u32(n: int, at: int) -> Seq<u8> {
    pad(at, 4) + le_bytes(n)
}

/// A string written where `at` bytes already stand: the low 32 bits of its length, its text,
/// and a terminator.
pub open spec fn written_text(s: Seq<char>, at: int) -> Seq<u8> {
    let text = encode_utf8(s);
    written_u32((text.len() % 0x1_0000_0000) as int, at) + text + seq![0u8]
}

/// A signature: one byte of length, its text, and a terminator.
pub open spec fn written_signature(s: Seq<char>) -> Seq<u8> {
    let text = encode_utf8(s);
    seq![(text.len() % 256) as u8] + text + seq![0u8]
}

/// The unsigned number with the bits of a signed one.
pub open spec fn unsigned(n: i32) -> int {
    if n < 0 {
        n + 0x1_0000_0000
    } else {
        n as int
    }
}

/// The bytes a value adds where `at` bytes already stand.
pub open spec fn written(arg: Arg, at: int) -> Seq<u8>
    decreases arg, 0int,
{
    match arg {
        Arg::Str(s) => written_text(s@, at),
        Arg::Path(s) => written_text(s@, at),
        Arg::Sig(s) => written_signature(s@),
        Arg::Bool(flag) => written_u32(
            if flag {
                1
            } else {
                0
            },
            at,
        ),
        Arg::I32(n) => written_u32(unsigned(n), at),
        Arg::U32(n) => written_u32(n as int, at),
        Arg::Var(inner) => {
            let sig = written_signature(signature_of_arg(*inner));
            sig + written(*inner, at + sig.len())
        },
        // The contents are written apart, from nothing, and measured before they are put
        // behind their length and the padding their element type asks for.
        Arg::Array(element, items) => {
            let inner = written_items(items@, items@.len() as int);
            let length = written_u32((inner.len() % 0x1_0000_0000) as int, at);
            length + pad(at + length.len(), alignment(element@)) + inner
        },
        Arg::Dict(entries) => {
            let inner = written_entries(entries@, entries@.len() as int);
            let length = written_u32((inner.len() % 0x1_0000_0000) as int, at);
            length + pad(at + length.len(), 8) + inner
        },
    }
}

/// The first `n` values of a list, one after the other, from nothing.
pub open spec fn written_items(items: Seq<Arg>, n: int) -> Seq<u8>
    decreases items, n,
{
    if n <= 0 || n > items.len() {
        Seq::empty()
    } else {
        let before = written_items(items, n - 1);
        before + written(items[n - 1], before.len() as int)
    }
}

/// The first `n` entries of a dictionary, each on an eight-byte boundary, from nothing.
pub open spec fn written_entries(entries: Seq<(&str, Arg)>, n: int) -> Seq<u8>
    decreases entries, n,
{
    if n <= 0 || n > entries.len() {
        Seq::empty()
    } else {
        let before = written_entries(entries, n - 1);
        let aligned = before + pad(before.len() as int, 8);
        let keyed = aligned + written_text(entries[n - 1].0@, aligned.len() as int);
        let signed = keyed + written_signature(signature_of_arg(entries[n - 1].1));
        signed + written(entries[n - 1].1, signed.len() as int)
    }
}

/// The first `n` header fields of a message: each a code and a variant, on an eight-byte
/// boundary.
pub open spec fn written_fields(fields: Seq<(u8, Arg)>, n: int) -> Seq<u8>
    decreases n,
{
    if n <= 0 || n > fields.len() {
        Seq::empty()
    } else {
        let before = written_fields(fields, n - 1);
        let aligned = before + pad(before.len() as int, 8);
        let coded = aligned.push(fields[n - 1].0);
        let signed = coded + written_signature(signature_of_arg(fields[n - 1].1));
        signed + written(fields[n - 1].1, signed.len() as int)
    }
}

impl<'a> Arg<'a> {
    /// The type this value marshals as.
    pub fn signature(&self) -> (s: String)
        ensures
            s@ == signature_of_arg(*self),
    {
        proof {
            reveal_strlit("s");
            reveal_strlit("o");
            reveal_strlit("g");
            reveal_strlit("b");
            reveal_strlit("i");
            reveal_strlit("u");
            reveal_strlit("v");
            reveal_strlit("a");
            reveal_strlit("a{sv}");
        }
        let s = match self {
            Arg::Str(_) => owned("s"),
            Arg::Path(_) => owned("o"),
            Arg::Sig(_) => owned("g"),
            Arg::Bool(_) => owned("b"),
            Arg::I32(_) => owned("i"),
            Arg::U32(_) => owned("u"),
            Arg::Var(_) => owned("v"),
            Arg::Array(element, _) => owned("a").concat(element),
            Arg::Dict(_) => owned("a{sv}"),
        };
        assert(s@ =~= signature_of_arg(*self));
        s
    }
}

/// The signature of a whole argument list.
pub fn signature_of(arguments: &Vec<Arg>) -> (s: String)
    ensures
        s@ == signature_of_args(arguments@, arguments@.len() as int),
{
    let mut s = String::new();
    for i in 0..arguments.len()
        invariant
            s@ == signature_of_args(arguments@, i as int),
    {
        let one = arguments[i].signature();
        s.append(one.as_str());
    }
    s
}

/// How many bytes there are from `have` to the next multiple of `to`.
fn gap(have: usize, to: usize) -> (missing: usize)
    requires
        is_alignment(to as int),
    ensures
        missing == round_up(have as int, to as int) - have,
{
    if to == 8 {
        let over: usize = have % 8;
        assert(round_up(have as int, 8) == if over == 0 {
            have as int
        } else {
            have + (8 - over)
        }) by {
            reveal(round_up);
        }
        if over == 0 {
            0
        } else {
            8 - over
        }
    } else if to == 4 {
        let over: usize = have % 4;
        assert(round_up(have as int, 4) == if over == 0 {
            have as int
        } else {
            have + (4 - over)
        }) by {
            reveal(round_up);
        }
        if over == 0 {
            0
        } else {
            4 - over
        }
    } else if to == 2 {
        assert(round_up(have as int, 2) == have + have % 2) by {
            reveal(round_up);
        }
        have % 2
    } else {
        assert(round_up(have as int, to as int) == have) by {
            reveal(round_up);
        }
        0
    }
}

/// Writes the marshalled form.
pub struct Writer {
    pub bytes: Vec<u8>,
}

impl Writer {
    pub fn new() -> (w: Writer)
        ensures
            w.bytes@ == Seq::<u8>::empty(),
    {
        Writer { bytes: Vec::new() }
    }

    /// Fill with zeroes up to the next multiple of `to`.
    pub fn align(&mut self, to: usize)
        requires
            is_alignment(to as int),
        ensures
            final(self).bytes@ == old(self).bytes@ + pad(
                old(self).bytes@.len() as int,
                to as int,
            ),
    {
        let ghost from = self.bytes@;
        let missing = gap(self.bytes.len(), to);
        for i in 0..missing
            invariant
                self.bytes@ == from + Seq::new(i as nat, |j: int| 0u8),
        {
            self.bytes.push(0);
            assert(self.bytes@ =~= from + Seq::new((i + 1) as nat, |j: int| 0u8));
        }
    }

    pub fn byte(&mut self, value: u8)
        ensures
            final(self).bytes@ == old(self).bytes@.push(value),
    {
        self.bytes.push(value);
    }

    pub fn u32(&mut self, value: u32)
        ensures
            final(self).bytes@ == old(self).bytes@ + written_u32(
                value as int,
                old(self).bytes@.len() as int,
            ),
    {
        proof {
            reveal(le_bytes);
        }
        let ghost from = self.bytes@;
        self.align(4);
        self.bytes.push((value % 256) as u8);
        self.bytes.push((value / 256 % 256) as u8);
        self.bytes.push((value / 65536 % 256) as u8);
        self.bytes.push((value / 16777216 % 256) as u8);
        assert(self.bytes@ =~= from + written_u32(value as int, from.len() as int));
    }

    /// Bytes as they are.
    pub fn raw(&mut self, bytes: &[u8])
        ensures
            final(self).bytes@ == old(self).bytes@ + bytes@,
    {
        let ghost from = self.bytes@;
        for i in 0..bytes.len()
            invariant
                self.bytes@ == from + bytes@.take(i as int),
        {
            self.bytes.push(bytes[i]);
            assert(bytes@.take(i + 1) == bytes@.take(i as int).push(bytes@[i as int]));
        }
        assert(bytes@.take(bytes@.len() as int) == bytes@);
    }

    /// The low 32 bits of a length.
    fn length(&mut self, count: usize)
        ensures
            final(self).bytes@ == old(self).bytes@ + written_u32(
                (count as int) % 0x1_0000_0000,
                old(self).bytes@.len() as int,
            ),
    {
        self.u32((count as u64 % 0x1_0000_0000) as u32);
    }

    pub fn string(&mut self, value: &str)
        ensures
            final(self).bytes@ == old(self).bytes@ + written_text(
                value@,
                old(self).bytes@.len() as int,
            ),
    {
        let ghost from = self.bytes@;
        let text = value.as_bytes();
        self.length(text.len());
        self.raw(text);
        self.bytes.push(0);
        assert(self.bytes@ =~= from + written_text(value@, from.len() as int));
    }

    /// A signature, whose length is a single byte because it can never be long.
    pub fn signature(&mut self, value: &str)
        ensures
            final(self).bytes@ == old(self).bytes@ + written_signature(value@),
    {
        let ghost from = self.bytes@;
        let text = value.as_bytes();
        self.byte((text.len() % 256) as u8);
        self.raw(text);
        self.bytes.push(0);
        assert(self.bytes@ =~= from + written_signature(value@));
    }

    /// One value, marshalled as the type it says it is.
    pub fn arg(&mut self, value: &Arg)
        ensures
            final(self).bytes@ == old(self).bytes@ + written(
                *value,
                old(self).bytes@.len() as int,
            ),
        decreases value,
    {
        let ghost from = self.bytes@;
        match value {
            Arg::Str(text) => self.string(text),
            Arg::Path(text) => self.string(text),
            Arg::Sig(text) => self.signature(text),
            Arg::Bool(flag) => self.u32(
                if *flag {
                    1
                } else {
                    0
                },
            ),
            Arg::I32(number) => self.u32(
                if *number < 0 {
                    (*number as i64 + 0x1_0000_0000) as u32
                } else {
                    *number as u32
                },
            ),
            Arg::U32(number) => self.u32(*number),
            Arg::Var(inner) => {
                self.signature(inner.signature().as_str());
                self.arg(inner);
                assert(self.bytes@ =~= from + written(*value, from.len() as int));
            },
            Arg::Array(element, items) => {
                let mut inner = Writer::new();
                for i in 0..items.len()
                    invariant
                        value matches Arg::Array(e, v) && v == items,
                        inner.bytes@ == written_items(items@, i as int),
                {
                    inner.arg(&items[i]);
                }
                self.length(inner.bytes.len());
                let to = alignment_of(chars_of(element).as_slice());
                self.align(to);
                self.raw(inner.bytes.as_slice());
                assert(self.bytes@ =~= from + written(*value, from.len() as int));
            },
            Arg::Dict(entries) => {
                let mut inner = Writer::new();
                for i in 0..entries.len()
                    invariant
                        value matches Arg::Dict(v) && v == entries,
                        inner.bytes@ == written_entries(entries@, i as int),
                {
                    inner.align(8);
                    inner.string(entries[i].0);
                    inner.signature(entries[i].1.signature().as_str());
                    inner.arg(&entries[i].1);
                }
                self.length(inner.bytes.len());
                self.align(8);
                self.raw(inner.bytes.as_slice());
                assert(self.bytes@ =~= from + written(*value, from.len() as int));
            },
        }
    }

    /// The array of (code, variant) pairs that says what a message is.
    pub fn header_fields(&mut self, fields: &Vec<(u8, Arg)>)
        ensures
            ({
                let inner = written_fields(fields@, fields@.len() as int);
                final(self).bytes@ == old(self).bytes@ + written_u32(
                    (inner.len() % 0x1_0000_0000) as int,
                    old(self).bytes@.len() as int,
                ) + inner
            }),
    {
        // The array's contents are measured from where they start, and each field inside
        // begins on an eight-byte boundary of its own.
        let mut inner = Writer::new();
        for i in 0..fields.len()
            invariant
                inner.bytes@ == written_fields(fields@, i as int),
        {
            inner.align(8);
            inner.byte(fields[i].0);
            inner.signature(fields[i].1.signature().as_str());
            inner.arg(&fields[i].1);
        }
        self.length(inner.bytes.len());
        self.raw(inner.bytes.as_slice());
    }
}

} // verus!
