//! Reading the marshalled form, one value at a time, following a signature.

use crate::dbus::signature::{alignment, alignment_of, first_type, first_type_len, lemma_first_type, Fault};
use crate::dbus::value::{entries_view, lemma_dict_view, lemma_list_view, values_view, Value, ValueView};
use crate::text::{chars_of, text_from, text_of};
use vstd::prelude::*;
use vstd::slice::slice_subrange;

verus! {

/// The first multiple of `to` that is not before `n`, for the boundaries a value can be asked
/// to start on.
#[verifier::opaque]
pub open spec fn round_up(n: int, to: int) -> int {
    if to == 8 {
        (n + 7) / 8 * 8
    } else if to == 4 {
        (n + 3) / 4 * 4
    } else if to == 2 {
        (n + 1) / 2 * 2
    } else {
        n
    }
}

/// Whether a position is on such a boundary.
pub open spec fn on_boundary(n: int, to: int) -> bool {
    if to == 8 {
        n % 8 == 0
    } else if to == 4 {
        n % 4 == 0
    } else if to == 2 {
        n % 2 == 0
    } else {
        true
    }
}

/// The boundaries a value can be asked to start on.
pub open spec fn is_alignment(to: int) -> bool {
    to == 1 || to == 2 || to == 4 || to == 8
}

pub proof fn lemma_round_up(n: int, to: int)
    requires
        0 <= n,
        is_alignment(to),
    ensures
        n <= round_up(n, to) < n + to,
        on_boundary(round_up(n, to), to),
        round_up(n, to) <= round_up(n, 8),
        on_boundary(n, to) ==> round_up(n, to) == n,
{
    reveal(round_up);
    if to == 1 {
    } else if to == 2 {
    } else if to == 4 {
    } else {
        assert(to == 8);
    }
}

/// What a length, rounded up to eight, covers is not left by rounding up less.
proof fn lemma_round_up_within(n: int, len: int, to: int)
    requires
        0 <= n <= round_up(len, 8),
        0 <= len,
        is_alignment(to),
    ensures
        n <= round_up(n, to) <= round_up(len, 8),
{
    reveal(round_up);
    if to == 1 {
    } else if to == 2 {
    } else if to == 4 {
    } else {
        assert(to == 8);
    }
}

/// The first multiple of `to` that is not before `n`.
pub fn boundary(n: usize, to: usize) -> (r: usize)
    requires
        is_alignment(to as int),
        round_up(n as int, to as int) <= usize::MAX,
    ensures
        r == round_up(n as int, to as int),
{
    proof {
        reveal(round_up);
    }
    match to {
        1 => n,
        2 => if n % 2 == 0 {
            n
        } else {
            n + (2 - n % 2)
        },
        4 => if n % 4 == 0 {
            n
        } else {
            n + (4 - n % 4)
        },
        _ => if n % 8 == 0 {
            n
        } else {
            n + (8 - n % 8)
        },
    }
}

/// Two bytes as a number, least significant first.
pub open spec fn le16(b: Seq<u8>) -> int {
    b[0] + 256 * b[1]
}

/// Four bytes as a number, least significant first.
pub open spec fn le32(b: Seq<u8>) -> int {
    b[0] + 256 * b[1] + 65536 * b[2] + 16777216 * b[3]
}

/// Eight bytes as a number, least significant first.
pub open spec fn le64(b: Seq<u8>) -> int {
    le32(b.take(4)) + 4294967296 * le32(b.skip(4))
}

/// An unsigned number of some width, read as the signed number with the same bits; `half` is
/// the first number whose top bit is set.
pub open spec fn signed(raw: int, half: int) -> int {
    if raw < half {
        raw
    } else {
        raw - 2 * half
    }
}

/// How much is left to read.
pub open spec fn left(bytes: Seq<u8>, pos: int) -> nat {
    if pos <= bytes.len() {
        (bytes.len() - pos) as nat
    } else {
        0
    }
}

/// The next `count` bytes, and where they end.
pub open spec fn read_bytes(bytes: Seq<u8>, pos: int, count: int) -> Result<(Seq<u8>, int), Fault> {
    if pos + count > bytes.len() {
        Err(Fault::Truncated)
    } else {
        Ok((bytes.subrange(pos, pos + count), pos + count))
    }
}

/// The next 32-bit number, on its own boundary, and where it ends.
pub open spec fn read_u32(bytes: Seq<u8>, pos: int) -> Result<(int, int), Fault> {
    match read_bytes(bytes, round_up(pos, 4), 4) {
        Err(e) => Err(e),
        Ok((b, p)) => Ok((le32(b), p)),
    }
}

/// The next string: its length, its text, and a terminator the length does not count.
pub open spec fn read_text(bytes: Seq<u8>, pos: int, short: bool) -> Result<
    (Seq<char>, int),
    Fault,
> {
    let length = if short {
        match read_bytes(bytes, pos, 1) {
            Err(e) => Err(e),
            Ok((b, p)) => Ok((b[0] as int, p)),
        }
    } else {
        read_u32(bytes, pos)
    };
    match length {
        Err(e) => Err(e),
        Ok((n, p)) => match read_bytes(bytes, p, n) {
            Err(e) => Err(e),
            Ok((b, q)) => match read_bytes(bytes, q, 1) {
                Err(e) => Err(e),
                Ok((_, end)) => Ok((text_from(b), end)),
            },
        },
    }
}

/// The next variant: its own signature, then one value of that type.
pub open spec fn read_variant(bytes: Seq<u8>, pos: int) -> Result<(ValueView, int), Fault>
    decreases left(bytes, pos), 0nat, 1nat,
    when 0 <= pos
{
    match read_text(bytes, pos, true) {
        Err(e) => Err(e),
        Ok((sig, p)) => match first_type(sig) {
            Err(e) => Err(e),
            Ok(n) => read_value(bytes, p, sig.take(n)),
        },
    }
}

/// The next value of the type `sig` describes, and where it ends.
pub open spec fn read_value(bytes: Seq<u8>, pos: int, sig: Seq<char>) -> Result<
    (ValueView, int),
    Fault,
>
    decreases left(bytes, pos), sig.len(), 2nat,
    when 0 <= pos
{
    if sig.len() == 0 {
        Err(Fault::EmptyType)
    } else if sig[0] == 'y' {
        match read_bytes(bytes, pos, 1) {
            Err(e) => Err(e),
            Ok((b, p)) => Ok((ValueView::Int(b[0] as int), p)),
        }
    } else if sig[0] == 'b' {
        match read_u32(bytes, pos) {
            Err(e) => Err(e),
            Ok((n, p)) => Ok((ValueView::Bool(n != 0), p)),
        }
    } else if sig[0] == 'n' || sig[0] == 'q' {
        match read_bytes(bytes, round_up(pos, 2), 2) {
            Err(e) => Err(e),
            Ok((b, p)) => Ok(
                (
                    ValueView::Int(
                        if sig[0] == 'n' {
                            signed(le16(b), 0x8000)
                        } else {
                            le16(b)
                        },
                    ),
                    p,
                ),
            ),
        }
    } else if sig[0] == 'i' || sig[0] == 'u' || sig[0] == 'h' {
        match read_u32(bytes, pos) {
            Err(e) => Err(e),
            Ok((n, p)) => Ok(
                (
                    ValueView::Int(
                        if sig[0] == 'i' {
                            signed(n, 0x8000_0000)
                        } else {
                            n
                        },
                    ),
                    p,
                ),
            ),
        }
    } else if sig[0] == 'x' || sig[0] == 't' || sig[0] == 'd' {
        match read_bytes(bytes, round_up(pos, 8), 8) {
            Err(e) => Err(e),
            Ok((b, p)) => Ok(
                (
                    if sig[0] == 'd' {
                        ValueView::Float(le64(b) as u64)
                    } else {
                        ValueView::Int(signed(le64(b), 0x8000_0000_0000_0000))
                    },
                    p,
                ),
            ),
        }
    } else if sig[0] == 's' || sig[0] == 'o' || sig[0] == 'g' {
        match read_text(bytes, pos, sig[0] == 'g') {
            Err(e) => Err(e),
            Ok((t, p)) => Ok((ValueView::Str(t), p)),
        }
    } else if sig[0] == 'v' {
        read_variant(bytes, pos)
    } else if sig[0] == 'a' {
        let inner = sig.drop_first();
        match read_u32(bytes, pos) {
            Err(e) => Err(e),
            Ok((length, p)) => match first_type(inner) {
                Err(e) => Err(e),
                Ok(n) => {
                    let element = inner.take(n);
                    let start = round_up(p, alignment(element));
                    let end = start + length;
                    proof {
                        lemma_first_type(inner);
                        lemma_round_up(pos, 4);
                        lemma_round_up(p, alignment(element));
                    }
                    if end > bytes.len() {
                        Err(Fault::ArrayTooLong)
                    } else if element == seq!['y'] {
                        Ok((ValueView::Bytes(bytes.subrange(start, end)), end))
                    } else if element[0] == '{' {
                        match read_entries(bytes, start, end, element) {
                            Err(e) => Err(e),
                            Ok((es, q)) => Ok((ValueView::Dict(es), q)),
                        }
                    } else {
                        match read_items(bytes, start, end, element) {
                            Err(e) => Err(e),
                            Ok((vs, q)) => Ok((ValueView::List(vs), q)),
                        }
                    }
                },
            },
        }
    } else if sig[0] == '(' {
        if sig.len() < 2 {
            Err(Fault::UnfinishedSignature)
        } else {
            proof {
                lemma_round_up(pos, 8);
            }
            match read_run(bytes, round_up(pos, 8), sig.subrange(1, sig.len() - 1)) {
                Err(e) => Err(e),
                Ok((vs, q)) => Ok((ValueView::List(vs), q)),
            }
        }
    } else {
        Err(Fault::UnknownType(sig[0]))
    }
}

/// One value of each type in a signature, in order, and where the last of them ends.
pub open spec fn read_run(bytes: Seq<u8>, pos: int, sig: Seq<char>) -> Result<
    (Seq<ValueView>, int),
    Fault,
>
    decreases left(bytes, pos), sig.len(), 3nat,
    when 0 <= pos
{
    if sig.len() == 0 {
        Ok((Seq::empty(), pos))
    } else {
        match first_type(sig) {
            Err(e) => Err(e),
            Ok(n) => {
                proof {
                    lemma_first_type(sig);
                }
                match read_value(bytes, pos, sig.take(n)) {
                    Err(e) => Err(e),
                    Ok((v, p)) => if p < pos {
                        Err(Fault::Stuck)
                    } else {
                        match read_run(bytes, p, sig.skip(n)) {
                            Err(e) => Err(e),
                            Ok((vs, q)) => Ok((seq![v] + vs, q)),
                        }
                    },
                }
            },
        }
    }
}

/// Values of one type, one after the other, until `end` is reached.
pub open spec fn read_items(bytes: Seq<u8>, pos: int, end: int, element: Seq<char>) -> Result<
    (Seq<ValueView>, int),
    Fault,
>
    decreases left(bytes, pos), element.len(), 3nat,
    when 0 <= pos && end <= bytes.len()
{
    if pos >= end {
        Ok((Seq::empty(), pos))
    } else {
        match read_value(bytes, pos, element) {
            Err(e) => Err(e),
            Ok((v, p)) => if p <= pos {
                Err(Fault::Stuck)
            } else {
                match read_items(bytes, p, end, element) {
                    Err(e) => Err(e),
                    Ok((vs, q)) => Ok((seq![v] + vs, q)),
                }
            },
        }
    }
}

/// Dictionary entries of one type, each on an eight-byte boundary, until `end` is reached.
pub open spec fn read_entries(bytes: Seq<u8>, pos: int, end: int, element: Seq<char>) -> Result<
    (Seq<(ValueView, ValueView)>, int),
    Fault,
>
    decreases left(bytes, pos), element.len(), 3nat,
    when 0 <= pos && end <= bytes.len()
{
    if pos >= end {
        Ok((Seq::empty(), pos))
    } else if element.len() < 2 {
        Err(Fault::UnfinishedSignature)
    } else {
        let inside = element.subrange(1, element.len() - 1);
        let start = round_up(pos, 8);
        proof {
            lemma_round_up(pos, 8);
        }
        match first_type(inside) {
            Err(e) => Err(e),
            Ok(n) => {
                proof {
                    lemma_first_type(inside);
                }
                match read_value(bytes, start, inside.take(n)) {
                    Err(e) => Err(e),
                    Ok((k, p)) => if p < start {
                        Err(Fault::Stuck)
                    } else {
                        match read_value(bytes, p, inside.skip(n)) {
                            Err(e) => Err(e),
                            Ok((v, q)) => if q <= pos {
                                Err(Fault::Stuck)
                            } else {
                                match read_entries(bytes, q, end, element) {
                                    Err(e) => Err(e),
                                    Ok((es, r)) => Ok((seq![(k, v)] + es, r)),
                                }
                            },
                        }
                    },
                }
            },
        }
    }
}

/// Reads the marshalled form, one value at a time, following a signature.
pub struct Reader<'a> {
    pub bytes: &'a [u8],
    pub position: usize,
}

/// What a reading step promises: the outcome the specification names, and on success the
/// reader standing where the value ended.
pub open spec fn stepped<T, V>(
    before: Reader,
    after: Reader,
    outcome: Result<T, Fault>,
    expected: Result<(V, int), Fault>,
    shown: spec_fn(T) -> V,
) -> bool {
    &&& after.bytes@ == before.bytes@
    &&& after.wf()
    &&& after.position >= before.position
    &&& match outcome {
        Ok(v) => expected == Ok::<(V, int), Fault>((shown(v), after.position as int)),
        Err(e) => expected == Err::<(V, int), Fault>(e),
    }
}

impl<'a> Reader<'a> {
    /// A reader stands within the bytes, or on the boundary just past them, and the bytes
    /// leave room for that boundary to be counted.
    pub open spec fn wf(self) -> bool {
        &&& self.bytes@.len() + 8 <= usize::MAX
        &&& self.position <= round_up(self.bytes@.len() as int, 8)
    }

    pub fn new(bytes: &'a [u8]) -> (r: Reader<'a>)
        requires
            bytes@.len() + 8 <= usize::MAX,
        ensures
            r.wf(),
            r.bytes@ == bytes@,
            r.position == 0,
    {
        proof {
            lemma_round_up(bytes@.len() as int, 8);
        }
        Reader { bytes, position: 0 }
    }

    /// Move to the next multiple of `to`.
    pub fn align(&mut self, to: usize)
        requires
            old(self).wf(),
            is_alignment(to as int),
        ensures
            final(self).wf(),
            final(self).bytes@ == old(self).bytes@,
            final(self).position == round_up(old(self).position as int, to as int),
            final(self).position >= old(self).position,
    {
        proof {
            lemma_round_up(self.bytes@.len() as int, 8);
            lemma_round_up_within(self.position as int, self.bytes@.len() as int, to as int);
        }
        self.position = boundary(self.position, to);
    }

    /// The next `count` bytes.
    pub fn take(&mut self, count: usize) -> (r: Result<&'a [u8], Fault>)
        requires
            old(self).wf(),
        ensures
            final(self).wf(),
            final(self).bytes@ == old(self).bytes@,
            final(self).position >= old(self).position,
            match r {
                Ok(b) => read_bytes(old(self).bytes@, old(self).position as int, count as int)
                    == Ok::<(Seq<u8>, int), Fault>((b@, final(self).position as int)),
                Err(e) => read_bytes(old(self).bytes@, old(self).position as int, count as int)
                    == Err::<(Seq<u8>, int), Fault>(e),
            },
    {
        proof {
            lemma_round_up(self.bytes@.len() as int, 8);
        }
        if self.position > self.bytes.len() || count > self.bytes.len() - self.position {
            return Err(Fault::Truncated);
        }
        let end: usize = self.position + count;
        let slice = slice_subrange(self.bytes, self.position, end);
        self.position = end;
        Ok(slice)
    }

    pub fn byte(&mut self) -> (r: Result<u8, Fault>)
        requires
            old(self).wf(),
        ensures
            final(self).wf(),
            final(self).bytes@ == old(self).bytes@,
            final(self).position >= old(self).position,
            match (r, read_bytes(old(self).bytes@, old(self).position as int, 1)) {
                (Ok(n), Ok((b, p))) => n == b[0] && p == final(self).position,
                (Err(e), Err(f)) => e == f,
                _ => false,
            },
    {
        let b = self.take(1)?;
        Ok(b[0])
    }

    pub fn u32(&mut self) -> (r: Result<u32, Fault>)
        requires
            old(self).wf(),
        ensures
            final(self).wf(),
            final(self).bytes@ == old(self).bytes@,
            final(self).position >= old(self).position,
            match r {
                Ok(n) => read_u32(old(self).bytes@, old(self).position as int) == Ok::<
                    (int, int),
                    Fault,
                >((n as int, final(self).position as int)),
                Err(e) => read_u32(old(self).bytes@, old(self).position as int) == Err::<
                    (int, int),
                    Fault,
                >(e),
            },
    {
        self.align(4);
        let b = self.take(4)?;
        Ok(number32(b))
    }

    /// A string, whose length is one byte for a signature and four for anything else.
    pub fn string(&mut self, length_is_a_byte: bool) -> (r: Result<String, Fault>)
        requires
            old(self).wf(),
        ensures
            final(self).wf(),
            final(self).bytes@ == old(self).bytes@,
            final(self).position >= old(self).position,
            match r {
                Ok(s) => read_text(
                    old(self).bytes@,
                    old(self).position as int,
                    length_is_a_byte,
                ) == Ok::<(Seq<char>, int), Fault>((s@, final(self).position as int)),
                Err(e) => read_text(
                    old(self).bytes@,
                    old(self).position as int,
                    length_is_a_byte,
                ) == Err::<(Seq<char>, int), Fault>(e),
            },
    {
        let length: u32 = if length_is_a_byte {
            self.byte()? as u32
        } else {
            self.u32()?
        };
        let b = self.take_long(length)?;
        let text = text_of(b);
        // Strings are stored with a terminator that is not counted in the length.
        let _ = self.take(1)?;
        Ok(text)
    }

    /// The next `count` bytes, for a count read off the wire.
    fn take_long(&mut self, count: u32) -> (r: Result<&'a [u8], Fault>)
        requires
            old(self).wf(),
        ensures
            final(self).wf(),
            final(self).bytes@ == old(self).bytes@,
            final(self).position >= old(self).position,
            match r {
                Ok(b) => read_bytes(old(self).bytes@, old(self).position as int, count as int)
                    == Ok::<(Seq<u8>, int), Fault>((b@, final(self).position as int)),
                Err(e) => read_bytes(old(self).bytes@, old(self).position as int, count as int)
                    == Err::<(Seq<u8>, int), Fault>(e),
            },
    {
        if count as u64 > self.bytes.len() as u64 {
            return Err(Fault::Truncated);
        }
        self.take(count as usize)
    }

    /// A variant: its own signature, then one value of that type.
    pub fn variant(&mut self) -> (r: Result<Value, Fault>)
        requires
            old(self).wf(),
        ensures
            stepped(
                *old(self),
                *final(self),
                r,
                read_variant(old(self).bytes@, old(self).position as int),
                |v: Value| v@,
            ),
        decreases left(old(self).bytes@, old(self).position as int), 0nat, 1nat,
    {
        let sig = chars_of(self.string(true)?.as_str());
        let n = first_type_len(sig.as_slice())?;
        proof {
            lemma_first_type(sig@);
            assert(sig@.subrange(0, n as int) == sig@.take(n as int));
        }
        self.value(slice_subrange(sig.as_slice(), 0, n))
    }

    /// One value of the type this signature describes.
    pub fn value(&mut self, signature: &[char]) -> (r: Result<Value, Fault>)
        requires
            old(self).wf(),
        ensures
            stepped(
                *old(self),
                *final(self),
                r,
                read_value(old(self).bytes@, old(self).position as int, signature@),
                |v: Value| v@,
            ),
        decreases left(old(self).bytes@, old(self).position as int), signature@.len(), 2nat,
    {
        if signature.len() == 0 {
            return Err(Fault::EmptyType);
        }
        let kind = signature[0];
        match kind {
            'y' => {
                let b = self.byte()?;
                Ok(Value::Int(b as i64))
            },
            'b' => {
                let n = self.u32()?;
                Ok(Value::Bool(n != 0))
            },
            'n' | 'q' => {
                self.align(2);
                let b = self.take(2)?;
                let raw: i64 = b[0] as i64 + 256 * b[1] as i64;
                if kind == 'n' && raw >= 0x8000 {
                    Ok(Value::Int(raw - 0x1_0000))
                } else {
                    Ok(Value::Int(raw))
                }
            },
            'i' | 'u' | 'h' => {
                let raw: i64 = self.u32()? as i64;
                if kind == 'i' && raw >= 0x8000_0000 {
                    Ok(Value::Int(raw - 0x1_0000_0000))
                } else {
                    Ok(Value::Int(raw))
                }
            },
            'x' | 't' | 'd' => {
                self.align(8);
                let b = self.take(8)?;
                let raw = number64(b);
                if kind == 'd' {
                    Ok(Value::Float(raw))
                } else {
                    Ok(Value::Int(signed64(raw)))
                }
            },
            's' | 'o' => {
                let text = self.string(false)?;
                Ok(Value::Str(text))
            },
            'g' => {
                let text = self.string(true)?;
                Ok(Value::Str(text))
            },
            'v' => self.variant(),
            'a' => self.array(signature),
            '(' => {
                if signature.len() < 2 {
                    return Err(Fault::UnfinishedSignature);
                }
                let inside = slice_subrange(signature, 1, signature.len() - 1);
                proof {
                    lemma_round_up(self.position as int, 8);
                }
                self.align(8);
                let values = self.run(inside)?;
                proof {
                    lemma_list_view(values);
                }
                Ok(Value::List(values))
            },
            _ => Err(Fault::UnknownType(kind)),
        }
    }

    /// An array: its length in bytes, then elements until that many have been read.
    fn array(&mut self, signature: &[char]) -> (r: Result<Value, Fault>)
        requires
            old(self).wf(),
            signature@.len() > 0,
            signature@[0] == 'a',
        ensures
            stepped(
                *old(self),
                *final(self),
                r,
                read_value(old(self).bytes@, old(self).position as int, signature@),
                |v: Value| v@,
            ),
        decreases left(old(self).bytes@, old(self).position as int), signature@.len(), 1nat,
    {
        let ghost from = self.position as int;
        proof {
            lemma_round_up(from, 4);
        }
        let length = self.u32()?;
        let inner = slice_subrange(signature, 1, signature.len());
        assert(inner@ == signature@.drop_first());
        let n = first_type_len(inner)?;
        proof {
            lemma_first_type(inner@);
            assert(inner@.subrange(0, n as int) == inner@.take(n as int));
        }
        let element = slice_subrange(inner, 0, n);
        // The array's length counts its contents, which start after the padding its element
        // type asks for.
        let to = alignment_of(element);
        proof {
            lemma_round_up(self.position as int, to as int);
        }
        self.align(to);
        if self.position > self.bytes.len() || length as u64 > (self.bytes.len() - self.position) as u64 {
            return Err(Fault::ArrayTooLong);
        }
        let end: usize = self.position + length as usize;
        // Bytes are taken whole rather than one value at a time.
        if element.len() == 1 && element[0] == 'y' {
            assert(element@ == seq!['y']);
            let b = self.take(length as usize)?;
            let bytes = vstd::slice::slice_to_vec(b);
            return Ok(Value::Bytes(bytes));
        }
        if element[0] == '{' {
            assert(element@ != seq!['y']);
            let entries = self.entries(end, element)?;
            proof {
                lemma_dict_view(entries);
            }
            Ok(Value::Dict(entries))
        } else {
            assert(element@ == seq!['y'] ==> element@.len() == 1 && element@[0] == 'y');
            let values = self.items(end, element)?;
            proof {
                lemma_list_view(values);
            }
            Ok(Value::List(values))
        }
    }

    /// Values of one type until `end`.
    fn items(&mut self, end: usize, element: &[char]) -> (r: Result<Vec<Value>, Fault>)
        requires
            old(self).wf(),
            end <= old(self).bytes@.len(),
        ensures
            stepped(
                *old(self),
                *final(self),
                r,
                read_items(
                    old(self).bytes@,
                    old(self).position as int,
                    end as int,
                    element@,
                ),
                |v: Vec<Value>| values_view(v@),
            ),
        decreases left(old(self).bytes@, old(self).position as int), element@.len(), 3nat,
    {
        let ghost bytes = self.bytes@;
        let ghost from = self.position as int;
        let mut values: Vec<Value> = Vec::new();
        proof {
            lemma_nothing_before(values_view(values@));
        }
        while self.position < end
            invariant
                self.wf(),
                self.bytes@ == bytes,
                bytes == old(self).bytes@,
                from == old(self).position,
                from <= self.position,
                end <= bytes.len(),
                read_items(bytes, from, end as int, element@) == after(
                    values_view(values@),
                    read_items(bytes, self.position as int, end as int, element@),
                ),
            decreases left(bytes, self.position as int),
        {
            let before: usize = self.position;
            let ghost done = values_view(values@);
            let v = self.value(element)?;
            if self.position <= before {
                return Err(Fault::Stuck);
            }
            values.push(v);
            proof {
                assert(values_view(values@) == done.push(v@));
                lemma_one_more(
                    done,
                    v@,
                    read_items(bytes, self.position as int, end as int, element@),
                );
            }
        }
        assert(values_view(values@) + Seq::<ValueView>::empty() == values_view(values@));
        Ok(values)
    }

    /// One value of each type in a signature.
    pub fn run(&mut self, signature: &[char]) -> (r: Result<Vec<Value>, Fault>)
        requires
            old(self).wf(),
        ensures
            stepped(
                *old(self),
                *final(self),
                r,
                read_run(old(self).bytes@, old(self).position as int, signature@),
                |v: Vec<Value>| values_view(v@),
            ),
        decreases left(old(self).bytes@, old(self).position as int), signature@.len(), 3nat,
    {
        let ghost bytes = self.bytes@;
        let ghost from = self.position as int;
        let mut values: Vec<Value> = Vec::new();
        let mut at: usize = 0;
        proof {
            lemma_nothing_before(values_view(values@));
            assert(signature@.skip(0) == signature@);
        }
        while at < signature.len()
            invariant
                self.wf(),
                self.bytes@ == bytes,
                bytes == old(self).bytes@,
                from == old(self).position,
                from <= self.position,
                at <= signature@.len(),
                read_run(bytes, from, signature@) == after(
                    values_view(values@),
                    read_run(bytes, self.position as int, signature@.skip(at as int)),
                ),
            decreases signature@.len() - at,
        {
            let ghost done = values_view(values@);
            let rest = slice_subrange(signature, at, signature.len());
            assert(rest@ == signature@.skip(at as int));
            let n = first_type_len(rest)?;
            proof {
                lemma_first_type(rest@);
                assert(rest@.subrange(0, n as int) == rest@.take(n as int));
                assert(rest@.skip(n as int) == signature@.skip(at + n));
            }
            let v = self.value(slice_subrange(rest, 0, n))?;
            values.push(v);
            at = at + n;
            proof {
                assert(values_view(values@) == done.push(v@));
                lemma_one_more(
                    done,
                    v@,
                    read_run(bytes, self.position as int, signature@.skip(at as int)),
                );
            }
        }
        assert(values_view(values@) + Seq::<ValueView>::empty() == values_view(values@));
        Ok(values)
    }

    /// Dictionary entries of one type until `end`.
    fn entries(&mut self, end: usize, element: &[char]) -> (r: Result<Vec<(Value, Value)>, Fault>)
        requires
            old(self).wf(),
            end <= old(self).bytes@.len(),
        ensures
            stepped(
                *old(self),
                *final(self),
                r,
                read_entries(
                    old(self).bytes@,
                    old(self).position as int,
                    end as int,
                    element@,
                ),
                |v: Vec<(Value, Value)>| entries_view(v@),
            ),
        decreases left(old(self).bytes@, old(self).position as int), element@.len(), 3nat,
    {
        let ghost bytes = self.bytes@;
        let ghost from = self.position as int;
        let mut entries: Vec<(Value, Value)> = Vec::new();
        proof {
            lemma_nothing_before(entries_view(entries@));
        }
        while self.position < end
            invariant
                self.wf(),
                self.bytes@ == bytes,
                bytes == old(self).bytes@,
                from == old(self).position,
                from <= self.position,
                end <= bytes.len(),
                read_entries(bytes, from, end as int, element@) == after(
                    entries_view(entries@),
                    read_entries(bytes, self.position as int, end as int, element@),
                ),
            decreases left(bytes, self.position as int),
        {
            let before: usize = self.position;
            let ghost done = entries_view(entries@);
            if element.len() < 2 {
                return Err(Fault::UnfinishedSignature);
            }
            proof {
                lemma_round_up(before as int, 8);
            }
            self.align(8);
            let inside = slice_subrange(element, 1, element.len() - 1);
            let n = first_type_len(inside)?;
            proof {
                lemma_first_type(inside@);
                assert(inside@.subrange(0, n as int) == inside@.take(n as int));
                assert(inside@.subrange(n as int, inside@.len() as int) == inside@.skip(n as int));
            }
            let key = self.value(slice_subrange(inside, 0, n))?;
            let value = self.value(slice_subrange(inside, n, inside.len()))?;
            if self.position <= before {
                return Err(Fault::Stuck);
            }
            let ghost entry = (key@, value@);
            entries.push((key, value));
            proof {
                assert(entries_view(entries@) == done.push(entry));
                lemma_one_more(
                    done,
                    entry,
                    read_entries(bytes, self.position as int, end as int, element@),
                );
            }
        }
        assert(entries_view(entries@) + Seq::<(ValueView, ValueView)>::empty() == entries_view(
            entries@,
        ));
        Ok(entries)
    }
}

/// What was read before, put in front of what is still to be read.
pub open spec fn after<V>(done: Seq<V>, rest: Result<(Seq<V>, int), Fault>) -> Result<
    (Seq<V>, int),
    Fault,
> {
    match rest {
        Ok((vs, q)) => Ok((done + vs, q)),
        Err(e) => Err(e),
    }
}

proof fn lemma_nothing_before<V>(done: Seq<V>)
    requires
        done.len() == 0,
    ensures
        forall|rest: Result<(Seq<V>, int), Fault>| #[trigger] after(done, rest) == rest,
{
    assert forall|rest: Result<(Seq<V>, int), Fault>| #[trigger] after(done, rest) == rest by {
        if let Ok((vs, q)) = rest {
            assert(done + vs == vs);
        }
    }
}

proof fn lemma_one_more<V>(done: Seq<V>, v: V, rest: Result<(Seq<V>, int), Fault>)
    ensures
        after(done, after(seq![v], rest)) == after(done.push(v), rest),
{
    if let Ok((vs, q)) = rest {
        assert(done + (seq![v] + vs) == done.push(v) + vs);
    }
}

/// Four bytes as a number.
pub fn number32(b: &[u8]) -> (n: u32)
    requires
        b@.len() >= 4,
    ensures
        n == le32(b@),
{
    b[0] as u32 + 256 * b[1] as u32 + 65536 * b[2] as u32 + 16777216 * b[3] as u32
}

/// Eight bytes as a number.
fn number64(b: &[u8]) -> (n: u64)
    requires
        b@.len() == 8,
    ensures
        n == le64(b@),
{
    let low = number32(slice_subrange(b, 0, 4));
    let high = number32(slice_subrange(b, 4, 8));
    proof {
        assert(b@.subrange(0, 4) == b@.take(4));
        assert(b@.subrange(4, 8) == b@.skip(4));
    }
    low as u64 + 4294967296 * high as u64
}

/// The signed number with the same bits.
fn signed64(raw: u64) -> (n: i64)
    ensures
        n == signed(raw as int, 0x8000_0000_0000_0000),
{
    if raw < 0x8000_0000_0000_0000 {
        raw as i64
    } else {
        (raw - 0x8000_0000_0000_0000) as i64 + i64::MIN
    }
}

} // verus!
