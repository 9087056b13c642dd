//! A connection to the bus, but for the socket: what is put on the wire, where one message
//! ends and the next begins, and which of the messages that arrive answer a call.

use crate::dbus::message::{build_message, built, parse_message, parsed, Kind, Message, MessageView};
use crate::dbus::message_law::{is_the_call, is_the_refusal, is_the_reply, is_the_signal, law_a_call_names_whom_it_is_made_to, law_a_refusal_goes_back_to_its_caller, law_a_reply_goes_back_to_its_caller, law_a_signal_says_what_happened, sendable};
use crate::dbus::reader::{le32, number32, round_up};
use crate::dbus::signature::Fault;
use crate::dbus::value::{values_view, Value, ValueView};
use crate::dbus::writer::{signature_of, signature_of_args, Arg};
use crate::text::{decimal, opt_view, owned, pieces, same, split, split_once, starts_with, strip_prefix, texts, trim, trimmed, after_prefix, parted, stands_at};
use std::collections::VecDeque;
use vstd::prelude::*;
use vstd::slice::slice_subrange;
use vstd::string::*;
use vstd::utf8::encode_utf8;

verus! {

/// The socket one `key=value` pair of a bus address names.
pub open spec fn pair_socket(pair: Seq<char>) -> Option<Seq<char>> {
    match parted(pair, '=') {
        None => None,
        Some((key, value)) => if key == "path"@ {
            Some(value)
        } else if key == "abstract"@ {
            // An abstract socket is named with a leading nul.
            Some(seq!['\0'] + value)
        } else {
            None
        },
    }
}

/// The first socket the pairs from `from` on name.
pub open spec fn pairs_socket(pairs: Seq<Seq<char>>, from: int) -> Option<Seq<char>>
    decreases pairs.len() - from,
{
    if from < 0 || from >= pairs.len() {
        None
    } else {
        match pair_socket(pairs[from]) {
            Some(path) => Some(path),
            None => pairs_socket(pairs, from + 1),
        }
    }
}

/// The socket one way of connecting names, if it is a unix socket.
pub open spec fn way_socket(way: Seq<char>) -> Option<Seq<char>> {
    match after_prefix(trimmed(way), "unix:"@) {
        None => None,
        Some(rest) => pairs_socket(pieces(rest, ','), 0),
    }
}

/// The first socket the ways of connecting from `from` on name.
pub open spec fn ways_socket(ways: Seq<Seq<char>>, from: int) -> Option<Seq<char>>
    decreases ways.len() - from,
{
    if from < 0 || from >= ways.len() {
        None
    } else {
        match way_socket(ways[from]) {
            Some(path) => Some(path),
            None => ways_socket(ways, from + 1),
        }
    }
}

fn pair_path(pair: &str) -> (r: Option<String>)
    ensures
        match r {
            Some(s) => pair_socket(pair@) == Some(s@),
            None => pair_socket(pair@) is None,
        },
{
    match split_once(pair, '=') {
        None => None,
        Some((key, value)) => if same(key.as_str(), "path") {
            Some(value)
        } else if same(key.as_str(), "abstract") {
            let mut path = String::new();
            path.push('\0');
            path.append(value.as_str());
            assert(path@ =~= seq!['\0'] + value@);
            Some(path)
        } else {
            None
        },
    }
}

fn way_path(way: &str) -> (r: Option<String>)
    ensures
        match r {
            Some(s) => way_socket(way@) == Some(s@),
            None => way_socket(way@) is None,
        },
{
    match strip_prefix(trim(way).as_str(), "unix:") {
        None => None,
        Some(rest) => {
            let pairs = split(rest.as_str(), ',');
            let ghost all = pieces(rest@, ',');
            for i in 0..pairs.len()
                invariant
                    all == texts(pairs@),
                    way_socket(way@) == pairs_socket(all, 0),
                    pairs_socket(all, 0) == pairs_socket(all, i as int),
            {
                assert(all[i as int] == pairs@[i as int]@);
                match pair_path(pairs[i].as_str()) {
                    Some(path) => {
                        return Some(path);
                    },
                    None => {},
                }
            }
            None
        },
    }
}

/// The socket in a bus address, which may list several ways to connect.
pub fn socket_path(address: &str) -> (r: Option<String>)
    ensures
        match r {
            Some(s) => ways_socket(pieces(address@, ';'), 0) == Some(s@),
            None => ways_socket(pieces(address@, ';'), 0) is None,
        },
{
    let ways = split(address, ';');
    let ghost all = pieces(address@, ';');
    for i in 0..ways.len()
        invariant
            all == texts(ways@),
            all == pieces(address@, ';'),
            ways_socket(all, 0) == ways_socket(all, i as int),
    {
        assert(all[i as int] == ways@[i as int]@);
        match way_path(ways[i].as_str()) {
            Some(path) => {
                return Some(path);
            },
            None => {},
        }
    }
    None
}

/// Digits as the bus wants them: each byte in hexadecimal, which for a digit is a three and
/// the digit.
pub open spec fn hexed(s: Seq<char>) -> Seq<char>
    decreases s.len(),
{
    if s.len() == 0 {
        Seq::empty()
    } else {
        hexed(s.drop_last()) + seq!['3', s.last()]
    }
}

fn hex_digits(n: u32) -> (s: String)
    ensures
        s@ == hexed(decimal(n as nat)),
    decreases n,
{
    let last: u8 = (48 + n % 10) as u8;
    let digit = last as char;
    let mut s = if n < 10 {
        String::new()
    } else {
        hex_digits(n / 10)
    };
    let ghost before = s@;
    s.push('3');
    s.push(digit);
    proof {
        let all = decimal(n as nat);
        assert(all.last() == digit);
        if n < 10 {
            assert(all.drop_last() =~= Seq::<char>::empty());
        } else {
            assert(all.drop_last() =~= decimal((n / 10) as nat));
        }
        assert(s@ =~= hexed(all.drop_last()) + seq!['3', digit]);
    }
    s
}

/// The line that opens the EXTERNAL handshake, which proves who we are with the credentials
/// the kernel already attached to the socket.
pub fn auth_line(uid: u32) -> (s: String)
    ensures
        s@ == "AUTH EXTERNAL "@ + hexed(decimal(uid as nat)) + "\r\n"@,
{
    owned("AUTH EXTERNAL ").concat(hex_digits(uid).as_str()).concat("\r\n")
}

/// Whether the bus accepted the handshake.
pub fn auth_accepted(reply: &str) -> (r: bool)
    ensures
        r == stands_at(reply@, "OK"@, 0),
{
    starts_with(reply, "OK")
}

/// Whether a line of the handshake has been read whole: it ends with its terminator, or has
/// grown longer than any line the bus sends.
pub fn line_done(line: &Vec<u8>) -> (r: bool)
    ensures
        r == (line@.len() >= 512 || (line@.len() >= 2 && line@[line@.len() - 2] == 0x0d
            && line@.last() == 0x0a)),
{
    line.len() >= 512 || (line.len() >= 2 && line[line.len() - 2] == 0x0d && line[line.len() - 1]
        == 0x0a)
}

/// What the bus said about a name that was asked for.
#[derive(Clone, Copy, Debug, PartialEq, Eq, Structural)]
pub enum NameRequest {
    /// It is ours now.
    Owner,
    /// Someone else has it, and we are behind them in the queue.
    Queued,
    /// Someone else has it and would not give it up.
    Taken,
    /// We already had it.
    AlreadyOurs,
}

/// What the answer to a request for a name says, or the number nobody has defined.
pub fn name_request(reply: &Vec<Value>) -> (r: Result<NameRequest, Option<i64>>)
    ensures
        ({
            let first = if reply@.len() > 0 {
                reply@[0]@
            } else {
                ValueView::Bool(false)
            };
            match r {
                Ok(said) => first == ValueView::Int(
                    match said {
                        NameRequest::Owner => 1,
                        NameRequest::Queued => 2,
                        NameRequest::Taken => 3,
                        NameRequest::AlreadyOurs => 4,
                    },
                ),
                Err(Some(n)) => first == ValueView::Int(n as int) && !(1 <= n <= 4),
                Err(None) => !(first is Int),
            }
        }),
{
    let said: Option<i64> = if reply.len() > 0 {
        reply[0].as_int()
    } else {
        None
    };
    match said {
        Some(1) => Ok(NameRequest::Owner),
        Some(2) => Ok(NameRequest::Queued),
        Some(3) => Ok(NameRequest::Taken),
        Some(4) => Ok(NameRequest::AlreadyOurs),
        other => Err(other),
    }
}

/// Why a call came to nothing: the error the other side named, and what it said about it.
#[derive(Debug)]
pub struct CallFailed {
    pub member: String,
    pub name: String,
    pub detail: String,
}

/// The header fields of a method call.
pub open spec fn call_fields<'a>(
    path: &'a str,
    interface: &'a str,
    member: &'a str,
    destination: &'a str,
    signature: &'a str,
    count: nat,
) -> Seq<(u8, Arg<'a>)> {
    let named = seq![
        (1u8, Arg::Path(path)),
        (2u8, Arg::Str(interface)),
        (3u8, Arg::Str(member)),
        (6u8, Arg::Str(destination)),
    ];
    if count > 0 {
        named.push((8u8, Arg::Sig(signature)))
    } else {
        named
    }
}

/// The header fields of a signal.
pub open spec fn signal_fields<'a>(
    path: &'a str,
    interface: &'a str,
    member: &'a str,
    signature: &'a str,
    count: nat,
) -> Seq<(u8, Arg<'a>)> {
    let named = seq![
        (1u8, Arg::Path(path)),
        (2u8, Arg::Str(interface)),
        (3u8, Arg::Str(member)),
    ];
    if count > 0 {
        named.push((8u8, Arg::Sig(signature)))
    } else {
        named
    }
}

/// The header fields of a reply: the serial it quotes, and whoever made the call.
pub open spec fn reply_fields<'a>(
    serial: u32,
    sender: Option<&'a str>,
    signature: &'a str,
    count: nat,
) -> Seq<(u8, Arg<'a>)> {
    let quoted = seq![(5u8, Arg::U32(serial))];
    let addressed = match sender {
        Some(name) => quoted.push((6u8, Arg::Str(name))),
        None => quoted,
    };
    if count > 0 {
        addressed.push((8u8, Arg::Sig(signature)))
    } else {
        addressed
    }
}

/// The header fields of a refusal.
pub open spec fn refusal_fields<'a>(
    name: &'a str,
    serial: u32,
    sender: Option<&'a str>,
    signature: &'a str,
) -> Seq<(u8, Arg<'a>)> {
    let quoted = seq![(4u8, Arg::Str(name)), (5u8, Arg::U32(serial))];
    let addressed = match sender {
        Some(who) => quoted.push((6u8, Arg::Str(who))),
        None => quoted,
    };
    addressed.push((8u8, Arg::Sig(signature)))
}

/// How many bytes the message at the front of what has arrived takes, once its header is
/// there: the fixed header and the fields, padded to eight, and the body.
pub open spec fn message_length(pending: Seq<u8>) -> Option<int> {
    if pending.len() < 16 {
        None
    } else {
        Some(
            round_up(16 + le32(pending.subrange(12, 16)), 8) + le32(pending.subrange(4, 8)),
        )
    }
}

/// Everything about a connection but its socket.
pub struct Bus {
    /// The serial of the last message sent.
    pub serial: u32,
    /// Left over from a read that took in more than one message, since the bus is free to
    /// send them back to back.
    pub pending: Vec<u8>,
    /// Messages that arrived while a call was waiting for its own answer.
    pub deferred: VecDeque<Message>,
}

impl Bus {
    pub fn new() -> (bus: Bus)
        ensures
            bus.serial == 0,
            bus.pending@.len() == 0,
            bus.deferred@.len() == 0,
    {
        Bus { serial: 0, pending: Vec::new(), deferred: VecDeque::new() }
    }

    /// The serial of the next message, counting round to zero.
    fn next_serial(&mut self) -> (serial: u32)
        ensures
            serial == (old(self).serial + 1) % 0x1_0000_0000,
            final(self).serial == serial,
            final(self).pending == old(self).pending,
            final(self).deferred == old(self).deferred,
    {
        self.serial = self.serial.wrapping_add(1);
        self.serial
    }

    /// A method call, and the serial it is sent under.
    pub fn call_message(
        &mut self,
        destination: &str,
        path: &str,
        interface: &str,
        member: &str,
        arguments: &Vec<Arg>,
    ) -> (r: (u32, Vec<u8>))
        ensures
            r.0 == (old(self).serial + 1) % 0x1_0000_0000,
            final(self).serial == r.0,
            final(self).pending == old(self).pending,
            final(self).deferred == old(self).deferred,
            exists|sig: &str|
                {
                    &&& sig@ == signature_of_args(arguments@, arguments@.len() as int)
                    &&& r.1@ == built(
                        r.0,
                        1,
                        0,
                        #[trigger] call_fields(
                            path,
                            interface,
                            member,
                            destination,
                            sig,
                            arguments@.len(),
                        ),
                        arguments@,
                    )
                },
            sendable(arguments@) && encode_utf8(destination@).len() + encode_utf8(path@).len()
                + encode_utf8(interface@).len() + encode_utf8(member@).len() < 0xffff_0000
                ==> is_the_call(
                r.1@,
                r.0,
                destination@,
                path@,
                interface@,
                member@,
                arguments@,
            ),
    {
        let signature = signature_of(arguments);
        let sig: &str = signature.as_str();
        let mut fields: Vec<(u8, Arg)> = Vec::new();
        fields.push((1, Arg::Path(path)));
        fields.push((2, Arg::Str(interface)));
        fields.push((3, Arg::Str(member)));
        fields.push((6, Arg::Str(destination)));
        if arguments.len() > 0 {
            fields.push((8, Arg::Sig(sig)));
        }
        assert(fields@ =~= call_fields(
            path,
            interface,
            member,
            destination,
            sig,
            arguments@.len(),
        ));
        let serial = self.next_serial();
        let bytes = build_message(serial, 1, 0, &fields, arguments);
        proof {
            if sendable(arguments@) && encode_utf8(destination@).len() + encode_utf8(path@).len()
                + encode_utf8(interface@).len() + encode_utf8(member@).len() < 0xffff_0000 {
                law_a_call_names_whom_it_is_made_to(
                    serial,
                    destination,
                    path,
                    interface,
                    member,
                    sig,
                    arguments@,
                );
            }
        }
        (serial, bytes)
    }

    /// The answer to a call that was made to one of the objects the bar serves.
    pub fn reply_message(&mut self, to: &Message, arguments: &Vec<Arg>) -> (bytes: Vec<u8>)
        ensures
            final(self).serial == (old(self).serial + 1) % 0x1_0000_0000,
            final(self).pending == old(self).pending,
            final(self).deferred == old(self).deferred,
            exists|sig: &str, sender: Option<&str>|
                {
                    &&& sig@ == signature_of_args(arguments@, arguments@.len() as int)
                    &&& names(sender, to@.sender)
                    &&& bytes@ == built(
                        final(self).serial,
                        2,
                        1,
                        #[trigger] reply_fields(to.serial, sender, sig, arguments@.len()),
                        arguments@,
                    )
                },
            sendable(arguments@) && (to@.sender matches Some(who) ==> encode_utf8(who).len()
                < 0xffff_0000) ==> is_the_reply(
                bytes@,
                final(self).serial,
                to.serial,
                to@.sender,
                arguments@,
            ),
    {
        let signature = signature_of(arguments);
        let sig: &str = signature.as_str();
        let mut fields: Vec<(u8, Arg)> = Vec::new();
        fields.push((5, Arg::U32(to.serial)));
        let sender: Option<&str> = text_ref(&to.sender);
        if let Some(who) = sender {
            fields.push((6, Arg::Str(who)));
        }
        if arguments.len() > 0 {
            fields.push((8, Arg::Sig(sig)));
        }
        assert(fields@ =~= reply_fields(to.serial, sender, sig, arguments@.len()));
        let serial = self.next_serial();
        // A reply is not itself replied to, so the no-reply-expected flag is set.
        let bytes = build_message(serial, 2, 1, &fields, arguments);
        proof {
            if sendable(arguments@) && (to@.sender matches Some(who) ==> encode_utf8(who).len()
                < 0xffff_0000) {
                law_a_reply_goes_back_to_its_caller(serial, to.serial, sender, sig, arguments@);
            }
        }
        bytes
    }

    /// The refusal of a call, which a caller reads as plainly as an answer.
    pub fn error_message(&mut self, to: &Message, name: &str, text: &str) -> (bytes: Vec<u8>)
        ensures
            final(self).serial == (old(self).serial + 1) % 0x1_0000_0000,
            final(self).pending == old(self).pending,
            final(self).deferred == old(self).deferred,
            exists|sender: Option<&str>|
                {
                    &&& names(sender, to@.sender)
                    &&& bytes@ == built(
                        final(self).serial,
                        3,
                        1,
                        #[trigger] refusal_fields(name, to.serial, sender, "s"),
                        seq![Arg::Str(text)],
                    )
                },
            encode_utf8(name@).len() + (match to@.sender {
                Some(who) => encode_utf8(who).len() as int,
                None => 0,
            }) < 0xffff_0000 && encode_utf8(text@).len() < 0xffff_0000 ==> is_the_refusal(
                bytes@,
                final(self).serial,
                to.serial,
                to@.sender,
                name@,
                text@,
            ),
    {
        let mut fields: Vec<(u8, Arg)> = Vec::new();
        fields.push((4, Arg::Str(name)));
        fields.push((5, Arg::U32(to.serial)));
        let sender: Option<&str> = text_ref(&to.sender);
        if let Some(who) = sender {
            fields.push((6, Arg::Str(who)));
        }
        fields.push((8, Arg::Sig("s")));
        assert(fields@ =~= refusal_fields(name, to.serial, sender, "s"));
        let mut arguments: Vec<Arg> = Vec::new();
        arguments.push(Arg::Str(text));
        assert(arguments@ =~= seq![Arg::Str(text)]);
        let serial = self.next_serial();
        let bytes = build_message(serial, 3, 1, &fields, &arguments);
        proof {
            if encode_utf8(name@).len() + (match to@.sender {
                Some(who) => encode_utf8(who).len() as int,
                None => 0,
            }) < 0xffff_0000 && encode_utf8(text@).len() < 0xffff_0000 {
                law_a_refusal_goes_back_to_its_caller(serial, to.serial, sender, name, text);
            }
        }
        bytes
    }

    /// Something announced from an object the bar serves, to whoever asked to hear it.
    pub fn signal_message(
        &mut self,
        path: &str,
        interface: &str,
        member: &str,
        arguments: &Vec<Arg>,
    ) -> (bytes: Vec<u8>)
        ensures
            final(self).serial == (old(self).serial + 1) % 0x1_0000_0000,
            final(self).pending == old(self).pending,
            final(self).deferred == old(self).deferred,
            exists|sig: &str|
                {
                    &&& sig@ == signature_of_args(arguments@, arguments@.len() as int)
                    &&& bytes@ == built(
                        final(self).serial,
                        4,
                        1,
                        #[trigger] signal_fields(
                            path,
                            interface,
                            member,
                            sig,
                            arguments@.len(),
                        ),
                        arguments@,
                    )
                },
            sendable(arguments@) && encode_utf8(path@).len() + encode_utf8(interface@).len()
                + encode_utf8(member@).len() < 0xffff_0000 ==> is_the_signal(
                bytes@,
                final(self).serial,
                path@,
                interface@,
                member@,
                arguments@,
            ),
    {
        let signature = signature_of(arguments);
        let sig: &str = signature.as_str();
        let mut fields: Vec<(u8, Arg)> = Vec::new();
        fields.push((1, Arg::Path(path)));
        fields.push((2, Arg::Str(interface)));
        fields.push((3, Arg::Str(member)));
        if arguments.len() > 0 {
            fields.push((8, Arg::Sig(sig)));
        }
        assert(fields@ =~= signal_fields(path, interface, member, sig, arguments@.len()));
        let serial = self.next_serial();
        let bytes = build_message(serial, 4, 1, &fields, arguments);
        proof {
            if sendable(arguments@) && encode_utf8(path@).len() + encode_utf8(interface@).len()
                + encode_utf8(member@).len() < 0xffff_0000 {
                law_a_signal_says_what_happened(serial, path, interface, member, sig, arguments@);
            }
        }
        bytes
    }

    /// What the socket gave, behind what has not been read yet.
    pub fn feed(&mut self, bytes: &[u8])
        ensures
            final(self).pending@ == old(self).pending@ + bytes@,
            final(self).serial == old(self).serial,
            final(self).deferred == old(self).deferred,
    {
        let ghost before = self.pending@;
        for i in 0..bytes.len()
            invariant
                self.pending@ == before + bytes@.take(i as int),
                self.serial == old(self).serial,
                self.deferred == old(self).deferred,
        {
            self.pending.push(bytes[i]);
            assert(bytes@.take(i + 1) == bytes@.take(i as int).push(bytes@[i as int]));
        }
        assert(bytes@.take(bytes@.len() as int) == bytes@);
    }

    /// One message out of what has already arrived, if a whole one is there. It leaves what
    /// has arrived whether it can be read or not.
    pub fn take_message(&mut self) -> (r: Result<Option<Message>, Fault>)
        requires
            old(self).pending@.len() + 8 <= usize::MAX,
        ensures
            final(self).serial == old(self).serial,
            final(self).deferred == old(self).deferred,
            match message_length(old(self).pending@) {
                Some(total) if total <= old(self).pending@.len() => {
                    &&& final(self).pending@ == old(self).pending@.skip(total)
                    &&& match r {
                        Ok(Some(m)) => parsed(old(self).pending@.take(total)) == Ok::<
                            MessageView,
                            Fault,
                        >(m@),
                        Ok(None) => false,
                        Err(e) => parsed(old(self).pending@.take(total)) == Err::<
                            MessageView,
                            Fault,
                        >(e),
                    }
                },
                _ => r matches Ok(None) && final(self).pending@ == old(self).pending@,
            },
    {
        if self.pending.len() < 16 {
            return Ok(None);
        }
        // The length of the fields array sits at the end of the fixed header, and the body
        // follows it once padded to eight.
        let fields_length = number32(slice_subrange(self.pending.as_slice(), 12, 16));
        let body_length = number32(slice_subrange(self.pending.as_slice(), 4, 8));
        let front: u64 = 16 + fields_length as u64;
        proof {
            reveal(round_up);
        }
        let total: u64 = (front + 7) / 8 * 8 + body_length as u64;
        if (self.pending.len() as u64) < total {
            return Ok(None);
        }
        let mut raw = self.pending.split_off(total as usize);
        std::mem::swap(&mut self.pending, &mut raw);
        match parse_message(raw.as_slice()) {
            Ok(message) => Ok(Some(message)),
            Err(e) => Err(e),
        }
    }

    /// Whether a message is already in hand, so a caller waiting on the socket knows to come
    /// back before sleeping on it again.
    pub fn has_deferred(&self) -> (r: bool)
        ensures
            r == (self.deferred@.len() > 0),
    {
        self.deferred.len() > 0
    }

    /// The first of the messages that were set aside, which come out before anything that
    /// arrives after them.
    pub fn take_deferred(&mut self) -> (r: Option<Message>)
        ensures
            handed_out(*old(self), r, *final(self)),
    {
        let ghost before = self.deferred@;
        let first = self.deferred.pop_front();
        proof {
            if first is Some {
                assert(before =~= seq![first->0] + self.deferred@);
            }
        }
        first
    }

    /// Put messages that arrived ahead of an answer where they will be found again: in the
    /// order they arrived, behind anything that was already waiting.
    pub fn set_aside(&mut self, held: VecDeque<Message>)
        ensures
            put_aside(*old(self), held@, *final(self)),
    {
        let mut rest = held;
        self.deferred.append(&mut rest);
    }
}

/// A name that may be missing, borrowed.
fn text_ref(s: &Option<String>) -> (r: Option<&str>)
    ensures
        names(r, opt_view(*s)),
{
    match s {
        Some(t) => Some(t.as_str()),
        None => None,
    }
}

/// Whether a borrowed name that may be missing is this one.
pub open spec fn names(s: Option<&str>, t: Option<Seq<char>>) -> bool {
    match (s, t) {
        (Some(a), Some(b)) => a@ == b,
        (None, None) => true,
        _ => false,
    }
}

/// Whether a message answers the call with this serial.
pub open spec fn answers(message: Message, serial: u32) -> bool {
    message@.reply_serial == Some(serial as int)
}

/// What becomes of a message that arrives while a call is waiting: it is handed back if it
/// answers the call, and otherwise held behind the others.
pub open spec fn sorted(
    held: Seq<Message>,
    message: Message,
    serial: u32,
    r: Option<Message>,
    after: Seq<Message>,
) -> bool {
    if answers(message, serial) {
        r == Some(message) && after == held
    } else {
        r is None && after == held.push(message)
    }
}

/// What putting messages aside comes to: they wait behind those that do already.
pub open spec fn put_aside(before: Bus, held: Seq<Message>, after: Bus) -> bool {
    &&& after.serial == before.serial
    &&& after.pending == before.pending
    &&& after.deferred@ == before.deferred@ + held
}

/// What asking for a message that was put aside comes to: the first of them, and nothing of what
/// the socket gave is touched.
pub open spec fn handed_out(before: Bus, r: Option<Message>, after: Bus) -> bool {
    &&& after.serial == before.serial
    &&& after.pending == before.pending
    &&& match r {
        Some(m) => before.deferred@.len() > 0 && before.deferred@ == seq![m] + after.deferred@,
        None => before.deferred@.len() == 0 && after.deferred@ == before.deferred@,
    }
}

/// What was held while the first `upto` of these arrived ahead of an answer.
proof fn lemma_held(
    arrivals: Seq<Message>,
    serial: u32,
    held: Seq<Seq<Message>>,
    sorting: Seq<Option<Message>>,
    upto: int,
)
    requires
        0 <= upto <= arrivals.len(),
        held.len() == arrivals.len() + 1,
        sorting.len() == arrivals.len(),
        held[0].len() == 0,
        forall|i: int| 0 <= i < arrivals.len() ==> !answers(#[trigger] arrivals[i], serial),
        forall|i: int|
            0 <= i < arrivals.len() ==> sorted(
                held[i],
                #[trigger] arrivals[i],
                serial,
                sorting[i],
                held[i + 1],
            ),
    ensures
        held[upto] == arrivals.take(upto),
    decreases upto,
{
    if upto > 0 {
        lemma_held(arrivals, serial, held, sorting, upto - 1);
        let m = arrivals[upto - 1];
        assert(sorted(held[upto - 1], m, serial, sorting[upto - 1], held[upto]));
        assert(arrivals.take(upto) =~= arrivals.take(upto - 1).push(m));
    } else {
        assert(held[0] =~= arrivals.take(0));
    }
}

/// Nothing that arrives ahead of an answer is lost or comes out of order.
///
/// Messages arrive while a call waits, none of which answers it, and are held aside one by one;
/// when the call is over they are put aside on a connection where nothing was waiting. Asked as
/// often as there were messages, the connection hands them out in the order they arrived,
/// without touching what the socket gave: it has one in hand before each of them, and none
/// after the last.
pub proof fn law_nothing_ahead_of_an_answer_is_lost(
    arrivals: Seq<Message>,
    serial: u32,
    held: Seq<Seq<Message>>,
    sorting: Seq<Option<Message>>,
    waiting: Bus,
    buses: Seq<Bus>,
    handed: Seq<Option<Message>>,
    upto: int,
)
    requires
        0 <= upto <= arrivals.len(),
        held.len() == arrivals.len() + 1,
        sorting.len() == arrivals.len(),
        held[0].len() == 0,
        forall|i: int| 0 <= i < arrivals.len() ==> !answers(#[trigger] arrivals[i], serial),
        forall|i: int|
            0 <= i < arrivals.len() ==> sorted(
                held[i],
                #[trigger] arrivals[i],
                serial,
                sorting[i],
                held[i + 1],
            ),
        waiting.deferred@.len() == 0,
        buses.len() == arrivals.len() + 1,
        handed.len() == arrivals.len(),
        put_aside(waiting, held[arrivals.len() as int], buses[0]),
        forall|i: int|
            0 <= i < arrivals.len() ==> handed_out(
                buses[i],
                #[trigger] handed[i],
                buses[i + 1],
            ),
    ensures
        forall|i: int| 0 <= i < upto ==> #[trigger] handed[i] == Some(arrivals[i]),
        buses[upto].deferred@ == arrivals.skip(upto),
        buses[upto].pending == waiting.pending,
        buses[upto].deferred@.len() > 0 <==> upto < arrivals.len(),
    decreases upto,
{
    let n = arrivals.len() as int;
    if upto == 0 {
        lemma_held(arrivals, serial, held, sorting, n);
        assert(arrivals.take(n) =~= arrivals);
        assert(waiting.deferred@ + arrivals =~= arrivals.skip(0));
    } else {
        law_nothing_ahead_of_an_answer_is_lost(
            arrivals,
            serial,
            held,
            sorting,
            waiting,
            buses,
            handed,
            upto - 1,
        );
        let before = buses[upto - 1].deferred@;
        assert(handed_out(buses[upto - 1], handed[upto - 1], buses[upto]));
        let m = handed[upto - 1]->0;
        assert(before[0] == m);
        assert(before[0] == arrivals[upto - 1]);
        assert(buses[upto].deferred@ =~= before.skip(1));
        assert(before.skip(1) =~= arrivals.skip(upto));
    }
}

/// A message that arrived while a call was waiting: handed back if it answers the call, and
/// otherwise held aside behind the others.
///
/// What is ahead of an answer is other people's business: a signal that changes what is
/// drawn, or a call from an application that is waiting. Dropping either is how a bar loses
/// an update or hangs a program.
pub fn sort_arrival(held: &mut VecDeque<Message>, message: Message, serial: u32) -> (r: Option<
    Message,
>)
    ensures
        sorted(old(held)@, message, serial, r, final(held)@),
{
    let answers = match message.reply_serial {
        Some(n) => n == serial,
        None => false,
    };
    if answers {
        Some(message)
    } else {
        held.push_back(message);
        None
    }
}

/// What an answer comes to: the values it carries, or the failure it reports.
pub fn answered(answer: Message, member: &str) -> (r: Result<Vec<Value>, CallFailed>)
    ensures
        match r {
            Ok(values) => answer.kind != Kind::Error && values_view(values@) == answer@.body,
            Err(e) => {
                &&& answer.kind == Kind::Error
                &&& e.member@ == member@
                &&& e.name@ == match answer@.error {
                    Some(name) => name,
                    None => "an unnamed error"@,
                }
                &&& e.detail@ == if answer@.body.len() > 0 && answer@.body[0] is Str {
                    answer@.body[0]->Str_0
                } else {
                    ""@
                }
            },
        },
{
    if answer.kind == Kind::Error {
        let name = match &answer.error {
            Some(name) => owned(name.as_str()),
            None => owned("an unnamed error"),
        };
        let detail = if answer.body.len() > 0 {
            assert(answer@.body[0] == answer.body@[0]@);
            match answer.body[0].as_str() {
                Some(text) => owned(text),
                None => owned(""),
            }
        } else {
            owned("")
        };
        return Err(CallFailed { member: owned(member), name, detail });
    }
    Ok(answer.body)
}

} // verus!
