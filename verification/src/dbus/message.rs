//! Whole messages: the header that says what one is, and the values it carries.

use crate::dbus::reader::{left, lemma_round_up, read_bytes, read_run, read_u32, read_variant, round_up, Reader};
use crate::dbus::signature::Fault;
use crate::dbus::value::{values_view, Value, ValueView};
use crate::dbus::writer::{le_bytes, pad, written_fields, written_items, Arg, Writer};
use crate::text::{chars_of, opt_view, same_opt};
use vstd::prelude::*;

verus! {

/// What kind of message this is. The bar only distinguishes what it acts on.
#[derive(Clone, Copy, Debug, PartialEq, Eq, Structural)]
pub enum Kind {
    MethodCall,
    Return,
    Error,
    Signal,
}

#[derive(Debug)]
pub struct Message {
    pub kind: Kind,
    /// This message's own serial, which is what a reply to it has to quote.
    pub serial: u32,
    pub path: Option<String>,
    pub interface: Option<String>,
    pub member: Option<String>,
    pub sender: Option<String>,
    pub error: Option<String>,
    pub reply_serial: Option<u32>,
    pub body: Vec<Value>,
}

/// What a `Message` says.
pub struct MessageView {
    pub kind: Kind,
    pub serial: int,
    pub path: Option<Seq<char>>,
    pub interface: Option<Seq<char>>,
    pub member: Option<Seq<char>>,
    pub sender: Option<Seq<char>>,
    pub error: Option<Seq<char>>,
    pub reply_serial: Option<int>,
    pub body: Seq<ValueView>,
}

impl View for Message {
    type V = MessageView;

    open spec fn view(&self) -> MessageView {
        MessageView {
            kind: self.kind,
            serial: self.serial as int,
            path: opt_view(self.path),
            interface: opt_view(self.interface),
            member: opt_view(self.member),
            sender: opt_view(self.sender),
            error: opt_view(self.error),
            reply_serial: match self.reply_serial {
                Some(n) => Some(n as int),
                None => None,
            },
            body: values_view(self.body@),
        }
    }
}

impl Message {
    /// Whether this is the signal it says it is, which is the question every handler asks.
    pub fn is_signal(&self, interface: &str, member: &str) -> (r: bool)
        ensures
            r == (self@.kind == Kind::Signal && self@.interface == Some(interface@) && self@.member
                == Some(member@)),
    {
        self.kind == Kind::Signal && same_opt(&self.interface, interface) && same_opt(
            &self.member,
            member,
        )
    }

    /// Whether this is a call of the method it says it is, which is the question every
    /// object the bar serves asks.
    pub fn is_call(&self, interface: &str, member: &str) -> (r: bool)
        ensures
            r == (self@.kind == Kind::MethodCall && self@.interface == Some(interface@)
                && self@.member == Some(member@)),
    {
        self.kind == Kind::MethodCall && same_opt(&self.interface, interface) && same_opt(
            &self.member,
            member,
        )
    }
}

/// The kind a message says it is.
pub open spec fn kind_of(code: u8) -> Option<Kind> {
    match code {
        1 => Some(Kind::MethodCall),
        2 => Some(Kind::Return),
        3 => Some(Kind::Error),
        4 => Some(Kind::Signal),
        _ => None,
    }
}

/// One marshalled message.
#[verifier::opaque]
pub open spec fn built(
    serial: u32,
    kind: u8,
    flags: u8,
    fields: Seq<(u8, Arg)>,
    arguments: Seq<Arg>,
) -> Seq<u8> {
    let body = written_items(arguments, arguments.len() as int);
    let header = written_fields(fields, fields.len() as int);
    let front = seq![0x6cu8, kind, flags, 1u8] + le_bytes((body.len() % 0x1_0000_0000) as int)
        + le_bytes(serial as int) + le_bytes((header.len() % 0x1_0000_0000) as int) + header;
    front + pad(front.len() as int, 8) + body
}

/// One marshalled message, ready for the socket.
pub fn build_message(
    serial: u32,
    kind: u8,
    flags: u8,
    fields: &Vec<(u8, Arg)>,
    arguments: &Vec<Arg>,
) -> (bytes: Vec<u8>)
    ensures
        bytes@ == built(serial, kind, flags, fields@, arguments@),
{
    let mut body = Writer::new();
    for i in 0..arguments.len()
        invariant
            body.bytes@ == written_items(arguments@, i as int),
    {
        body.arg(&arguments[i]);
    }
    let mut out = Writer::new();
    out.byte(0x6c);
    out.byte(kind);
    out.byte(flags);
    out.byte(1);  // protocol version
    out.u32((body.bytes.len() as u64 % 0x1_0000_0000) as u32);
    out.u32(serial);
    out.header_fields(fields);
    out.align(8);
    out.raw(body.bytes.as_slice());
    proof {
        let b = written_items(arguments@, arguments@.len() as int);
        let h = written_fields(fields@, fields@.len() as int);
        reveal(built);
        reveal(le_bytes);
        lemma_round_up(4, 4);
        lemma_round_up(8, 4);
        lemma_round_up(12, 4);
        assert(pad(4, 4) =~= Seq::<u8>::empty());
        assert(pad(8, 4) =~= Seq::<u8>::empty());
        assert(pad(12, 4) =~= Seq::<u8>::empty());
        let front = seq![0x6cu8, kind, flags, 1u8] + le_bytes(
            (b.len() % 0x1_0000_0000) as int,
        ) + le_bytes(serial as int) + le_bytes((h.len() % 0x1_0000_0000) as int) + h;
        assert(out.bytes@ =~= front + pad(front.len() as int, 8) + b);
    }
    out.bytes
}

/// A header field taken into what is known of a message so far, along with the signature of
/// its body. A field of a kind nobody asked for, or holding something else than it should,
/// changes nothing.
pub open spec fn with_field(m: MessageView, sig: Seq<char>, code: u8, v: ValueView) -> (
    MessageView,
    Seq<char>,
) {
    match v {
        ValueView::Str(s) => match code {
            1 => (MessageView { path: Some(s), ..m }, sig),
            2 => (MessageView { interface: Some(s), ..m }, sig),
            3 => (MessageView { member: Some(s), ..m }, sig),
            4 => (MessageView { error: Some(s), ..m }, sig),
            7 => (MessageView { sender: Some(s), ..m }, sig),
            8 => (m, s),
            _ => (m, sig),
        },
        ValueView::Int(n) => if code == 5 {
            (MessageView { reply_serial: Some(n % 0x1_0000_0000), ..m }, sig)
        } else {
            (m, sig)
        },
        _ => (m, sig),
    }
}

/// The header fields from `pos` up to `end`, taken into what is known so far.
pub open spec fn read_fields(
    raw: Seq<u8>,
    pos: int,
    end: int,
    m: MessageView,
    sig: Seq<char>,
) -> Result<(MessageView, Seq<char>, int), Fault>
    decreases left(raw, pos),
    when 0 <= pos
{
    if pos >= end {
        Ok((m, sig, pos))
    } else {
        match read_bytes(raw, round_up(pos, 8), 1) {
            Err(e) => Err(e),
            Ok((code, p)) => match read_variant(raw, p) {
                Err(e) => Err(e),
                Ok((v, q)) => if q < p {
                    Err(Fault::Stuck)
                } else {
                    let (next, next_sig) = with_field(m, sig, code[0], v);
                    proof {
                        lemma_round_up(pos, 8);
                    }
                    read_fields(raw, q, end, next, next_sig)
                },
            },
        }
    }
}

/// A message with nothing in it yet.
pub open spec fn bare(kind: Kind, serial: int) -> MessageView {
    MessageView {
        kind,
        serial,
        path: None,
        interface: None,
        member: None,
        sender: None,
        error: None,
        reply_serial: None,
        body: Seq::empty(),
    }
}

/// What a marshalled message says.
pub open spec fn parsed(raw: Seq<u8>) -> Result<MessageView, Fault> {
    if raw.len() < 16 {
        Err(Fault::ShortHeader)
    } else if raw[0] != 0x6c {
        Err(Fault::BigEndian)
    } else {
        match kind_of(raw[1]) {
            None => Err(Fault::UnknownKind(raw[1])),
            Some(kind) => match (read_u32(raw, 8), read_u32(raw, 12)) {
                (Ok((serial, _)), Ok((length, _))) => match read_fields(
                    raw,
                    16,
                    16 + length,
                    bare(kind, serial),
                    Seq::empty(),
                ) {
                    Err(e) => Err(e),
                    Ok((m, sig, p)) => match read_run(raw, round_up(p, 8), sig) {
                        Err(e) => Err(e),
                        Ok((body, _)) => Ok(MessageView { body, ..m }),
                    },
                },
                _ => Err(Fault::Truncated),
            },
        }
    }
}

/// The low 32 bits of a number.
fn low32(v: i64) -> (n: u32)
    ensures
        n == (v as int) % 0x1_0000_0000,
{
    if v >= 0 {
        (v as u64 % 0x1_0000_0000) as u32
    } else {
        let k: u64 = (-(v + 1)) as u64;
        (0xffff_ffff - k % 0x1_0000_0000) as u32
    }
}

/// Read header fields until `end`, and the signature of the body they name.
fn header_fields(reader: &mut Reader, end: u64, kind: Kind, serial: u32) -> (r: Result<
    (Message, String),
    Fault,
>)
    requires
        old(reader).wf(),
    ensures
        final(reader).wf(),
        final(reader).bytes@ == old(reader).bytes@,
        ({
            let expected = read_fields(
                old(reader).bytes@,
                old(reader).position as int,
                end as int,
                bare(kind, serial as int),
                Seq::empty(),
            );
            match r {
                Ok(t) => expected == Ok::<(MessageView, Seq<char>, int), Fault>(
                    (t.0@, t.1@, final(reader).position as int),
                ),
                Err(e) => expected == Err::<(MessageView, Seq<char>, int), Fault>(e),
            }
        }),
{
    let mut message = Message {
        kind,
        serial,
        path: None,
        interface: None,
        member: None,
        sender: None,
        error: None,
        reply_serial: None,
        body: Vec::new(),
    };
    let mut signature = String::new();
    let ghost raw = reader.bytes@;
    proof {
        assert(message@.body =~= Seq::<ValueView>::empty());
    }
    let ghost expected = read_fields(
        raw,
        reader.position as int,
        end as int,
        message@,
        signature@,
    );
    while (reader.position as u64) < end
        invariant
            reader.wf(),
            reader.bytes@ == raw,
            raw == old(reader).bytes@,
            message.body@.len() == 0,
            expected == read_fields(
                old(reader).bytes@,
                old(reader).position as int,
                end as int,
                bare(kind, serial as int),
                Seq::empty(),
            ),
            expected == read_fields(raw, reader.position as int, end as int, message@, signature@),
        decreases left(raw, reader.position as int),
    {
        let ghost before = message@;
        let ghost old_sig = signature@;
        proof {
            lemma_round_up(reader.position as int, 8);
        }
        reader.align(8);
        let code = reader.byte()?;
        let value = reader.variant()?;
        let ghost shown = value@;
        take_field(&mut message, &mut signature, code, value);
        assert((message@, signature@) == with_field(before, old_sig, code, shown));
    }
    Ok((message, signature))
}

/// Take one header field into a message, or into the signature of its body.
fn take_field(message: &mut Message, signature: &mut String, code: u8, value: Value)
    ensures
        (final(message)@, final(signature)@) == with_field(
            old(message)@,
            old(signature)@,
            code,
            value@,
        ),
        final(message).body@ == old(message).body@,
{
    match value {
        Value::Str(v) => {
            if code == 1 {
                message.path = Some(v);
            } else if code == 2 {
                message.interface = Some(v);
            } else if code == 3 {
                message.member = Some(v);
            } else if code == 4 {
                message.error = Some(v);
            } else if code == 7 {
                message.sender = Some(v);
            } else if code == 8 {
                *signature = v;
            }
        },
        Value::Int(v) => {
            if code == 5 {
                message.reply_serial = Some(low32(v));
            }
        },
        _ => {},
    }
}

/// Read a whole message.
pub fn parse_message(raw: &[u8]) -> (r: Result<Message, Fault>)
    requires
        raw@.len() + 8 <= usize::MAX,
    ensures
        match r {
            Ok(m) => parsed(raw@) == Ok::<MessageView, Fault>(m@),
            Err(e) => parsed(raw@) == Err::<MessageView, Fault>(e),
        },
{
    if raw.len() < 16 {
        return Err(Fault::ShortHeader);
    }
    if raw[0] != 0x6c {
        // Every implementation in use is little-endian, and a big-endian one would need its
        // own reader rather than a swapped byte here and there.
        return Err(Fault::BigEndian);
    }
    let kind = match raw[1] {
        1 => Kind::MethodCall,
        2 => Kind::Return,
        3 => Kind::Error,
        4 => Kind::Signal,
        other => {
            return Err(Fault::UnknownKind(other));
        },
    };
    proof {
        lemma_round_up(raw@.len() as int, 8);
        lemma_round_up(8, 4);
        lemma_round_up(12, 4);
    }
    let mut reader = Reader::new(raw);
    reader.position = 8;
    let serial = reader.u32()?;
    let length = reader.u32()?;
    let end: u64 = reader.position as u64 + length as u64;
    let (mut message, signature) = header_fields(&mut reader, end, kind, serial)?;
    let ghost header = message@;
    reader.align(8);
    let body = reader.run(chars_of(signature.as_str()).as_slice())?;
    message.body = body;
    assert(message@ == (MessageView { body: values_view(body@), ..header }));
    Ok(message)
}

} // verus!
