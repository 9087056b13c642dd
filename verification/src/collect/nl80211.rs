//! Asking the wireless stack what network an interface is on.
//!
//! The name of a network is not in `/sys`. The kernel keeps it in nl80211's cached scan
//! results, while the associated access point and signal are station information. Reading the
//! station on every tick tells when the association changes; the larger scan-cache dump is
//! needed only then, and never asks the radio to perform a scan.

use crate::text::{copy_text, opt_view, text_from, text_of};
use crate::time::Instant;
use vstd::prelude::*;

verus! {

/// The control family, which every generic netlink socket starts by talking to.
pub const GENL_ID_CTRL: u16 = 0x10;

pub const CTRL_CMD_GETFAMILY: u8 = 3;

pub const CTRL_ATTR_FAMILY_ID: u16 = 1;

pub const CTRL_ATTR_FAMILY_NAME: u16 = 2;

pub const NL80211_CMD_GET_STATION: u8 = 17;

pub const NL80211_CMD_GET_SCAN: u8 = 32;

pub const NL80211_ATTR_IFINDEX: u16 = 3;

pub const NL80211_ATTR_MAC: u16 = 6;

pub const NL80211_ATTR_STA_INFO: u16 = 21;

pub const NL80211_ATTR_BSS: u16 = 47;

/// Inside `STA_INFO`: the last signal, in dBm, as a signed byte.
pub const NL80211_STA_INFO_SIGNAL: u16 = 7;

/// Inside `BSS`: which access point it is, what state it is in, and what it announced.
pub const NL80211_BSS_BSSID: u16 = 1;

pub const NL80211_BSS_INFORMATION_ELEMENTS: u16 = 6;

pub const NL80211_BSS_STATUS: u16 = 9;

pub const NL80211_BSS_BEACON_IES: u16 = 11;

/// The address of the whole multi-link device, when the BSS is one link of one.
pub const NL80211_BSS_MLD_ADDR: u16 = 22;

pub const NL80211_BSS_STATUS_ASSOCIATED: u32 = 1;

pub const NL80211_BSS_STATUS_IBSS_JOINED: u32 = 2;

/// How many attribute types there are. The two bits of a type above these are flags, not part
/// of the attribute number.
pub const NLA_TYPES: u16 = 0x4000;

pub const NLMSG_ERROR: u16 = 2;

pub const NLMSG_DONE: u16 = 3;

pub const NLM_F_REQUEST: u16 = 1;

/// Answer for everything, not just one.
pub const NLM_F_DUMP: u16 = 0x300;

/// A request for everything.
pub const NLM_F_REQUEST_DUMP: u16 = 0x301;

pub const HEADER: usize = 16;

pub const GENL_HEADER: usize = 4;

/// Dumps in a row that find no name before the retry slows to [`UNNAMED_INTERVAL`].
///
/// A station appears a moment before the scan cache is stamped with the association, so the
/// name is usually there on the next read; a few immediate retries cover that.
pub const UNNAMED_TRIES: u32 = 3;

/// How long an association the scan cache could not name waits before it is asked about again,
/// in nanoseconds.
///
/// The retry never stops, because a cache the kernel has not filled in yet fills in later.
pub const UNNAMED_INTERVAL: u128 = 30_000_000_000;

/// The order a machine keeps the bytes of a number in, which is the order netlink speaks.
#[derive(Clone, Copy, Debug, PartialEq, Eq, Structural)]
pub enum ByteOrder {
    Little,
    Big,
}

/// The number two bytes are.
pub open spec fn number16(order: ByteOrder, b: Seq<u8>) -> int {
    match order {
        ByteOrder::Little => b[0] + 0x100 * b[1],
        ByteOrder::Big => 0x100 * b[0] + b[1],
    }
}

/// The number four bytes are.
pub open spec fn number32(order: ByteOrder, b: Seq<u8>) -> int {
    match order {
        ByteOrder::Little => b[0] + 0x100 * b[1] + 0x1_0000 * b[2] + 0x100_0000 * b[3],
        ByteOrder::Big => 0x100_0000 * b[0] + 0x1_0000 * b[1] + 0x100 * b[2] + b[3],
    }
}

/// A number as two bytes.
#[verifier::opaque]
pub open spec fn bytes16(order: ByteOrder, n: int) -> Seq<u8> {
    match order {
        ByteOrder::Little => seq![(n % 256) as u8, (n / 256 % 256) as u8],
        ByteOrder::Big => seq![(n / 256 % 256) as u8, (n % 256) as u8],
    }
}

/// A number as four bytes.
#[verifier::opaque]
pub open spec fn bytes32(order: ByteOrder, n: int) -> Seq<u8> {
    match order {
        ByteOrder::Little => seq![
            (n % 256) as u8,
            (n / 0x100 % 256) as u8,
            (n / 0x1_0000 % 256) as u8,
            (n / 0x100_0000 % 256) as u8,
        ],
        ByteOrder::Big => seq![
            (n / 0x100_0000 % 256) as u8,
            (n / 0x1_0000 % 256) as u8,
            (n / 0x100 % 256) as u8,
            (n % 256) as u8,
        ],
    }
}

fn read16(order: ByteOrder, b: &[u8], at: usize) -> (n: u16)
    requires
        at + 2 <= b@.len(),
    ensures
        n == number16(order, b@.skip(at as int)),
        n == number16(order, b@.subrange(at as int, at + 2)),
{
    match order {
        ByteOrder::Little => b[at] as u16 + 0x100 * (b[at + 1] as u16),
        ByteOrder::Big => 0x100 * (b[at] as u16) + b[at + 1] as u16,
    }
}

fn read32(order: ByteOrder, b: &[u8], at: usize) -> (n: u32)
    requires
        at + 4 <= b@.len(),
    ensures
        n == number32(order, b@.skip(at as int)),
{
    let (w, x, y, z) = (b[at] as u32, b[at + 1] as u32, b[at + 2] as u32, b[at + 3] as u32);
    match order {
        ByteOrder::Little => w + 0x100 * x + 0x1_0000 * y + 0x100_0000 * z,
        ByteOrder::Big => 0x100_0000 * w + 0x1_0000 * x + 0x100 * y + z,
    }
}

/// Numbers are as long as they are, and are read as they were written.
pub proof fn lemma_numbers(order: ByteOrder, long: int, short: int)
    ensures
        bytes32(order, long).len() == 4,
        bytes16(order, short).len() == 2,
        0 <= long < 0x1_0000_0000 ==> number32(order, bytes32(order, long)) == long,
        0 <= short < 0x1_0000 ==> number16(order, bytes16(order, short)) == short,
{
    reveal(bytes16);
    reveal(bytes32);
}

/// Put a number of two bytes at the end.
pub fn put16(order: ByteOrder, n: u16, out: &mut Vec<u8>)
    ensures
        final(out)@ == old(out)@ + bytes16(order, n as int),
        final(out)@.len() == old(out)@.len() + 2,
{
    let low = (n % 256) as u8;
    let high = (n / 256 % 256) as u8;
    match order {
        ByteOrder::Little => {
            out.push(low);
            out.push(high);
        },
        ByteOrder::Big => {
            out.push(high);
            out.push(low);
        },
    }
    proof {
        reveal(bytes16);
    }
    assert(out@ =~= old(out)@ + bytes16(order, n as int));
}

/// Put a number of four bytes at the end.
pub fn put32(order: ByteOrder, n: u32, out: &mut Vec<u8>)
    ensures
        final(out)@ == old(out)@ + bytes32(order, n as int),
        final(out)@.len() == old(out)@.len() + 4,
{
    let w = (n % 256) as u8;
    let x = (n / 0x100 % 256) as u8;
    let y = (n / 0x1_0000 % 256) as u8;
    let z = (n / 0x100_0000 % 256) as u8;
    match order {
        ByteOrder::Little => {
            out.push(w);
            out.push(x);
            out.push(y);
            out.push(z);
        },
        ByteOrder::Big => {
            out.push(z);
            out.push(y);
            out.push(x);
            out.push(w);
        },
    }
    proof {
        reveal(bytes32);
    }
    assert(out@ =~= old(out)@ + bytes32(order, n as int));
}

fn put(value: &[u8], out: &mut Vec<u8>)
    ensures
        final(out)@ == old(out)@ + value@,
{
    for i in 0..value.len()
        invariant
            out@ == old(out)@ + value@.take(i as int),
    {
        out.push(value[i]);
        assert(value@.take(i + 1) =~= value@.take(i as int).push(value@[i as int]));
    }
    assert(value@.take(value@.len() as int) =~= value@);
}

fn copied(b: &[u8], from: usize, to: usize) -> (v: Vec<u8>)
    requires
        from <= to <= b@.len(),
    ensures
        v@ == b@.subrange(from as int, to as int),
{
    let mut v: Vec<u8> = Vec::new();
    for i in from..to
        invariant
            from <= to <= b@.len(),
            v@ == b@.subrange(from as int, i as int),
    {
        v.push(b[i]);
        assert(b@.subrange(from as int, i + 1) =~= b@.subrange(from as int, i as int).push(
            b@[i as int],
        ));
    }
    v
}

/// A length rounded up to four bytes.
pub open spec fn padded(length: int) -> int {
    (length + 3) / 4 * 4
}

/// The four bytes every generic netlink message starts with.
pub open spec fn genl(command: u8, version: u8) -> Seq<u8> {
    seq![command, version, 0u8, 0u8]
}

pub fn genl_header(command: u8, version: u8) -> (v: Vec<u8>)
    ensures
        v@ == genl(command, version),
{
    let v = vec![command, version, 0, 0];
    assert(v@ =~= genl(command, version));
    v
}

/// One netlink attribute: a length, a type, and a padded payload. What of the length does not
/// fit in two bytes is left out.
pub open spec fn attribute_of(order: ByteOrder, kind: u16, value: Seq<u8>) -> Seq<u8> {
    let length = 4 + value.len();
    bytes16(order, (length % 0x1_0000) as int) + bytes16(order, kind as int) + value + Seq::new(
        (padded(length as int) - length) as nat,
        |i: int| 0u8,
    )
}

pub fn attribute(order: ByteOrder, kind: u16, value: &[u8]) -> (out: Vec<u8>)
    requires
        value@.len() + 8 <= usize::MAX,
    ensures
        out@ == attribute_of(order, kind, value@),
        out@.len() == padded((4 + value@.len()) as int),
{
    let length = 4 + value.len();
    let mut out: Vec<u8> = Vec::new();
    put16(order, (length % 0x1_0000) as u16, &mut out);
    put16(order, kind, &mut out);
    put(value, &mut out);
    let ghost written = out@;
    let gap = (length + 3) / 4 * 4 - length;
    for i in 0..gap
        invariant
            out@ == written + Seq::new(i as nat, |i: int| 0u8),
    {
        out.push(0);
        assert(Seq::new(i as nat, |i: int| 0u8).push(0u8) =~= Seq::new(
            (i + 1) as nat,
            |i: int| 0u8,
        ));
        assert(out@ =~= written + Seq::new((i + 1) as nat, |i: int| 0u8));
    }
    assert(out@ =~= attribute_of(order, kind, value@));
    out
}

/// What follows the generic netlink header in a message, which is where its attributes are. A
/// message shorter than its own header holds nothing.
pub open spec fn body_of(payload: Seq<u8>) -> Seq<u8> {
    if payload.len() < GENL_HEADER {
        Seq::empty()
    } else {
        payload.skip(GENL_HEADER as int)
    }
}

pub fn genl_body(payload: &[u8]) -> (v: Vec<u8>)
    ensures
        v@ == body_of(payload@),
{
    if payload.len() < GENL_HEADER {
        Vec::new()
    } else {
        copied(payload, GENL_HEADER, payload.len())
    }
}

/// A run of attributes, leaving out whatever does not fit. A run that says an attribute is
/// longer than what is left is truncated, and there is nothing after it worth reading either.
pub open spec fn attributes_of(order: ByteOrder, rest: Seq<u8>) -> Seq<(u16, Seq<u8>)>
    decreases rest.len(),
{
    if rest.len() < 4 {
        Seq::empty()
    } else {
        let length = number16(order, rest.take(2));
        let kind = number16(order, rest.subrange(2, 4)) % (NLA_TYPES as int);
        if length < 4 || length > rest.len() {
            Seq::empty()
        } else {
            seq![(kind as u16, rest.subrange(4, length))] + attributes_of(
                order,
                rest.skip(step_over(length, rest.len() as int)),
            )
        }
    }
}

/// What a list of attributes says.
pub open spec fn listed(v: Seq<(u16, Vec<u8>)>) -> Seq<(u16, Seq<u8>)> {
    Seq::new(v.len(), |i: int| (v[i].0, v[i].1@))
}

/// Walk a run of attributes.
pub fn attributes(order: ByteOrder, run: &[u8]) -> (r: Vec<(u16, Vec<u8>)>)
    ensures
        listed(r@) == attributes_of(order, run@),
{
    let mut r: Vec<(u16, Vec<u8>)> = Vec::new();
    let mut at: usize = 0;
    proof {
        assert(run@.skip(0) =~= run@);
        assert(listed(r@) + attributes_of(order, run@) =~= attributes_of(order, run@));
    }
    while run.len() - at >= 4
        invariant_except_break
            at <= run@.len(),
            attributes_of(order, run@) == listed(r@) + attributes_of(order, run@.skip(at as int)),
        ensures
            listed(r@) == attributes_of(order, run@),
        decreases run@.len() - at,
    {
        let ghost rest = run@.skip(at as int);
        let ghost before = listed(r@);
        let length = read16(order, run, at) as usize;
        let kind = read16(order, run, at + 2) % NLA_TYPES;
        assert(rest.take(2) =~= run@.subrange(at as int, at + 2));
        assert(rest.subrange(2, 4) =~= run@.subrange(at + 2, at + 4));
        if length < 4 || length > run.len() - at {
            assert(before + Seq::<(u16, Seq<u8>)>::empty() =~= before);
            break;
        }
        let value = copied(run, at + 4, at + length);
        assert(value@ =~= rest.subrange(4, length as int));
        let far = step(length, run.len() - at);
        let ghost one = (kind, value@);
        r.push((kind, value));
        proof {
            assert(rest.skip(far as int) =~= run@.skip(at + far));
            assert(listed(r@) =~= before.push(one));
            let after = attributes_of(order, run@.skip(at + far));
            assert(before + (seq![one] + after) =~= before.push(one) + after);
        }
        at = at + far;
        proof {
            if run@.len() - at < 4 {
                assert(listed(r@) + Seq::<(u16, Seq<u8>)>::empty() =~= listed(r@));
            }
        }
    }
    r
}

/// What was written as an attribute is read as it was written, whatever stands behind it: its
/// type, without the flags, and its payload, without the padding.
pub proof fn law_an_attribute_is_read_as_it_was_written(
    order: ByteOrder,
    kind: u16,
    value: Seq<u8>,
    rest: Seq<u8>,
)
    requires
        value.len() + 4 < 0x1_0000,
    ensures
        attributes_of(order, attribute_of(order, kind, value) + rest) == seq![
            ((kind % NLA_TYPES) as u16, value),
        ] + attributes_of(order, rest),
{
    let length = (4 + value.len()) as int;
    let one = attribute_of(order, kind, value);
    let all = one + rest;
    lemma_numbers(order, 0, length);
    lemma_numbers(order, 0, kind as int);
    assert(one.len() == padded(length));
    assert(all.take(2) =~= bytes16(order, length));
    assert(all.subrange(2, 4) =~= bytes16(order, kind as int));
    assert(all.subrange(4, length) =~= value);
    assert(all.skip(step_over(length, all.len() as int)) =~= rest);
}

/// How a run of messages ends.
#[derive(Clone, Copy, Debug, PartialEq, Eq, Structural)]
pub enum Ending {
    /// With the end of the bytes: more may follow.
    Open,
    /// With the kernel saying that there is no more.
    Over,
    /// With a message that does not fit its own length.
    Misfit,
    /// With an error that does not say what it is.
    Unsaid,
    /// With the kernel refusing: the error it gave, as it gave it.
    Refused(i32),
}

/// The signed number with these 32 bits.
pub open spec fn signed32(n: int) -> int {
    if n < 0x8000_0000 {
        n
    } else {
        n - 0x1_0000_0000
    }
}

/// What stands first in a run of messages.
#[derive(Clone, Copy, Debug, PartialEq, Eq, Structural)]
pub enum First {
    /// A message of this length, with a body to read.
    Body(usize),
    /// Something that ends the run.
    Ends(Ending),
}

/// What stands first in a run of messages. An error starts with its number, negated, and zero
/// is no error but an acknowledgement.
#[verifier::opaque]
pub open spec fn first_of(order: ByteOrder, rest: Seq<u8>) -> First {
    if rest.len() < HEADER {
        First::Ends(Ending::Open)
    } else {
        let length = number32(order, rest);
        let kind = number16(order, rest.subrange(4, 6));
        if length < HEADER || length > rest.len() {
            First::Ends(Ending::Misfit)
        } else if kind == NLMSG_DONE {
            First::Ends(Ending::Over)
        } else if kind == NLMSG_ERROR {
            let code = number32(order, rest.skip(HEADER as int));
            if length < HEADER + 4 {
                First::Ends(Ending::Unsaid)
            } else if code == 0 {
                First::Ends(Ending::Over)
            } else {
                First::Ends(Ending::Refused(signed32(code) as i32))
            }
        } else {
            First::Body(length as usize)
        }
    }
}

/// How far the next message is, past one of this length: messages are padded to four bytes.
pub open spec fn step_over(length: int, left: int) -> int {
    if padded(length) < left {
        padded(length)
    } else {
        left
    }
}

/// The bodies of a run of messages, and how it ends.
pub open spec fn messages_of(order: ByteOrder, rest: Seq<u8>) -> (Seq<Seq<u8>>, Ending)
    decreases rest.len(),
{
    match first_of(order, rest) {
        First::Ends(ending) => (Seq::empty(), ending),
        First::Body(length) => if length < HEADER || length > rest.len() {
            (Seq::empty(), Ending::Misfit)
        } else {
            let (bodies, ending) = messages_of(
                order,
                rest.skip(step_over(length as int, rest.len() as int)),
            );
            (seq![rest.subrange(HEADER as int, length as int)] + bodies, ending)
        },
    }
}

/// What a list of bodies says.
pub open spec fn bodies_view(v: Seq<Vec<u8>>) -> Seq<Seq<u8>> {
    Seq::new(v.len(), |i: int| v[i]@)
}

fn first(order: ByteOrder, run: &[u8], at: usize) -> (r: First)
    requires
        at <= run@.len(),
    ensures
        r == first_of(order, run@.skip(at as int)),
        r matches First::Body(length) ==> HEADER <= length <= run@.len() - at,
{
    proof {
        reveal(first_of);
    }
    if run.len() - at < HEADER {
        return First::Ends(Ending::Open);
    }
    let ghost rest = run@.skip(at as int);
    let length = read32(order, run, at) as usize;
    let kind = read16(order, run, at + 4);
    assert(rest.subrange(4, 6) =~= run@.subrange(at + 4, at + 6));
    if length < HEADER || length > run.len() - at {
        return First::Ends(Ending::Misfit);
    }
    if kind == NLMSG_DONE {
        return First::Ends(Ending::Over);
    }
    if kind == NLMSG_ERROR {
        if length < HEADER + 4 {
            return First::Ends(Ending::Unsaid);
        }
        let code = read32(order, run, at + HEADER);
        assert(rest.skip(HEADER as int) =~= run@.skip(at + HEADER));
        if code == 0 {
            return First::Ends(Ending::Over);
        }
        return First::Ends(
            Ending::Refused(
                if code < 0x8000_0000 {
                    code as i32
                } else {
                    (code as i64 - 0x1_0000_0000) as i32
                },
            ),
        );
    }
    First::Body(length)
}

fn step(length: usize, left: usize) -> (n: usize)
    requires
        0 < length <= left,
    ensures
        n == step_over(length as int, left as int),
        0 < n <= left,
{
    if length % 4 == 0 {
        length
    } else if left - length < 4 - length % 4 {
        left
    } else {
        length + (4 - length % 4)
    }
}

/// Walk a run of messages, putting their bodies behind those there already are.
fn walk(order: ByteOrder, run: &[u8], bodies: &mut Vec<Vec<u8>>) -> (ending: Ending)
    ensures
        bodies_view(final(bodies)@) == bodies_view(old(bodies)@) + messages_of(order, run@).0,
        ending == messages_of(order, run@).1,
{
    let ghost start = bodies_view(bodies@);
    let ghost all = messages_of(order, run@);
    let total = run.len();
    let mut at: usize = 0;
    assert(run@.skip(0) =~= run@);
    loop
        invariant
            at <= total,
            total == run@.len(),
            start == bodies_view(old(bodies)@),
            all == messages_of(order, run@),
            start + all.0 == bodies_view(bodies@) + messages_of(order, run@.skip(at as int)).0,
            all.1 == messages_of(order, run@.skip(at as int)).1,
        decreases run@.len() - at,
    {
        let ghost rest = run@.skip(at as int);
        let ghost before = bodies_view(bodies@);
        match first(order, run, at) {
            First::Ends(ending) => {
                assert(before + Seq::<Seq<u8>>::empty() =~= before);
                return ending;
            },
            First::Body(length) => {
                let one = copied(run, at + HEADER, at + length);
                let ghost body = one@;
                bodies.push(one);
                let far = step(length, total - at);
                proof {
                    assert(body =~= rest.subrange(HEADER as int, length as int));
                    assert(rest.skip(far as int) =~= run@.skip(at + far));
                    assert(bodies_view(bodies@) =~= before.push(body));
                    let after = messages_of(order, run@.skip(at + far)).0;
                    assert(before + (seq![body] + after) =~= before.push(body) + after);
                }
                at = at + far;
            },
        }
    }
}

/// A message: its length, type, flags and sequence number, the port of the socket, which is
/// zero for its own, and the payload. What of the length does not fit is left out.
pub open spec fn message_of(
    order: ByteOrder,
    kind: u16,
    flags: u16,
    sequence: u32,
    payload: Seq<u8>,
) -> Seq<u8> {
    bytes32(order, ((HEADER + payload.len()) % 0x1_0000_0000) as int) + bytes16(order, kind as int)
        + bytes16(order, flags as int) + bytes32(order, sequence as int) + bytes32(order, 0)
        + payload
}

/// A message that is neither an end nor an error is read as it was written, whatever stands
/// behind it: its body comes first, and the rest is read after its padding.
pub proof fn law_a_message_is_read_as_it_was_written(
    order: ByteOrder,
    kind: u16,
    flags: u16,
    sequence: u32,
    payload: Seq<u8>,
    gap: Seq<u8>,
    rest: Seq<u8>,
)
    requires
        kind != NLMSG_DONE,
        kind != NLMSG_ERROR,
        HEADER + payload.len() < 0x1_0000_0000,
        HEADER + payload.len() <= usize::MAX,
        gap.len() == padded((HEADER + payload.len()) as int) - (HEADER + payload.len()),
    ensures
        messages_of(order, message_of(order, kind, flags, sequence, payload) + gap + rest) == (
            seq![payload] + messages_of(order, rest).0,
            messages_of(order, rest).1,
        ),
{
    let length = (HEADER + payload.len()) as int;
    let l = bytes32(order, length);
    let k = bytes16(order, kind as int);
    let (f, q, z) = (
        bytes16(order, flags as int),
        bytes32(order, sequence as int),
        bytes32(order, 0),
    );
    let all = l + k + f + q + z + payload + gap + rest;
    assert(all == message_of(order, kind, flags, sequence, payload) + gap + rest);
    lemma_numbers(order, length, kind as int);
    lemma_numbers(order, sequence as int, flags as int);
    lemma_numbers(order, 0, 0);
    assert(l.len() == 4 && k.len() == 2 && f.len() == 2 && q.len() == 4 && z.len() == 4);
    lemma_read_back(order, l, k, f + q + z, payload, gap, rest);
    assert(l + k + (f + q + z) + payload + gap + rest =~= all);
}

/// A message in pieces is read piece by piece.
proof fn lemma_read_back(
    order: ByteOrder,
    l: Seq<u8>,
    k: Seq<u8>,
    more: Seq<u8>,
    payload: Seq<u8>,
    gap: Seq<u8>,
    rest: Seq<u8>,
)
    requires
        l.len() == 4,
        k.len() == 2,
        more.len() == 10,
        number32(order, l) == HEADER + payload.len(),
        number16(order, k) != NLMSG_DONE,
        number16(order, k) != NLMSG_ERROR,
        HEADER + payload.len() <= usize::MAX,
        gap.len() == padded((HEADER + payload.len()) as int) - (HEADER + payload.len()),
    ensures
        messages_of(order, l + k + more + payload + gap + rest) == (
            seq![payload] + messages_of(order, rest).0,
            messages_of(order, rest).1,
        ),
{
    let length = (HEADER + payload.len()) as int;
    let all = l + k + more + payload + gap + rest;
    assert(number32(order, all) == length) by {
        assert(all[0] == l[0] && all[1] == l[1] && all[2] == l[2] && all[3] == l[3]);
    }
    assert(all.subrange(4, 6) =~= k);
    assert(first_of(order, all) == First::Body(length as usize)) by {
        reveal(first_of);
    }
    assert(all.subrange(HEADER as int, length) =~= payload);
    assert(all.skip(step_over(length, all.len() as int)) =~= rest);
}

/// What has come of a request so far.
#[derive(Debug)]
pub struct Replies {
    pub bodies: Vec<Vec<u8>>,
}

/// Why a request came to nothing.
#[derive(Clone, Copy, Debug, PartialEq, Eq, Structural)]
pub enum Fault {
    /// A message does not fit its own length.
    Misfit,
    /// An error does not say what it is.
    Unsaid,
    /// The kernel refused, with this error as it gave it.
    Refused(i32),
    /// There is no wireless stack to talk to.
    NoFamily,
}

/// Whether reading goes on after a run of messages, or what is wrong with it. A dump is read
/// until the kernel says that it is over; a plain request is answered at once, so waiting for
/// an end that is never sent would wait for ever.
pub open spec fn goes_on(ending: Ending, dump: bool, empty: bool) -> Result<bool, Fault> {
    match ending {
        Ending::Open => Ok(dump && !empty),
        Ending::Over => Ok(false),
        Ending::Misfit => Err(Fault::Misfit),
        Ending::Unsaid => Err(Fault::Unsaid),
        Ending::Refused(code) => Err(Fault::Refused(code)),
    }
}

impl Replies {
    pub fn new() -> (r: Replies)
        ensures
            r.bodies@.len() == 0,
    {
        Replies { bodies: Vec::new() }
    }

    /// Take in what was read from the socket, and say whether to read on.
    pub fn receive(&mut self, order: ByteOrder, bytes: &[u8], dump: bool) -> (r: Result<bool, Fault>)
        ensures
            bodies_view(final(self).bodies@) == bodies_view(old(self).bodies@) + messages_of(
                order,
                bytes@,
            ).0,
            r == goes_on(messages_of(order, bytes@).1, dump, bytes@.len() == 0),
    {
        match walk(order, bytes, &mut self.bodies) {
            Ending::Open => Ok(dump && bytes.len() != 0),
            Ending::Over => Ok(false),
            Ending::Misfit => Err(Fault::Misfit),
            Ending::Unsaid => Err(Fault::Unsaid),
            Ending::Refused(code) => Err(Fault::Refused(code)),
        }
    }
}

/// The last attribute of a kind that holds at least so many bytes.
pub open spec fn last_of(all: Seq<(u16, Seq<u8>)>, kind: u16, least: int) -> Option<Seq<u8>>
    decreases all.len(),
{
    if all.len() == 0 {
        None
    } else if all.last().0 == kind && all.last().1.len() >= least {
        Some(all.last().1)
    } else {
        last_of(all.drop_last(), kind, least)
    }
}

fn find_last(all: &Vec<(u16, Vec<u8>)>, kind: u16, least: usize) -> (r: Option<&Vec<u8>>)
    ensures
        match r {
            Some(v) => last_of(listed(all@), kind, least as int) == Some(v@) && v@.len() >= least,
            None => last_of(listed(all@), kind, least as int) is None,
        },
{
    let ghost seen = listed(all@);
    let mut i = all.len();
    assert(seen.take(i as int) =~= seen);
    while i > 0
        invariant
            i <= all@.len(),
            seen == listed(all@),
            last_of(seen, kind, least as int) == last_of(seen.take(i as int), kind, least as int),
        decreases i,
    {
        i = i - 1;
        assert(seen.take(i + 1).drop_last() =~= seen.take(i as int));
        assert(seen.take(i + 1).last() == (all@[i as int].0, all@[i as int].1@));
        if all[i].0 == kind && all[i].1.len() >= least {
            return Some(&all[i].1);
        }
    }
    None
}

/// The signed number with these eight bits.
pub open spec fn signed8(n: u8) -> i8 {
    if n < 0x80 {
        n as i8
    } else {
        (n - 0x100) as i8
    }
}

/// The last signal that the details among these attributes give.
pub open spec fn signal_of(order: ByteOrder, all: Seq<(u16, Seq<u8>)>) -> Option<i8>
    decreases all.len(),
{
    if all.len() == 0 {
        None
    } else {
        let found = if all.last().0 == NL80211_ATTR_STA_INFO {
            last_of(attributes_of(order, all.last().1), NL80211_STA_INFO_SIGNAL, 1)
        } else {
            None
        };
        match found {
            Some(b) => Some(signed8(b[0])),
            None => signal_of(order, all.drop_last()),
        }
    }
}

fn find_signal(order: ByteOrder, all: &Vec<(u16, Vec<u8>)>) -> (r: Option<i8>)
    ensures
        r == signal_of(order, listed(all@)),
{
    let ghost seen = listed(all@);
    let mut i = all.len();
    assert(seen.take(i as int) =~= seen);
    while i > 0
        invariant
            i <= all@.len(),
            seen == listed(all@),
            signal_of(order, seen) == signal_of(order, seen.take(i as int)),
        decreases i,
    {
        i = i - 1;
        assert(seen.take(i + 1).drop_last() =~= seen.take(i as int));
        assert(seen.take(i + 1).last() == (all@[i as int].0, all@[i as int].1@));
        if all[i].0 == NL80211_ATTR_STA_INFO {
            let inner = attributes(order, all[i].1.as_slice());
            if let Some(b) = find_last(&inner, NL80211_STA_INFO_SIGNAL, 1) {
                let n = b[0];
                return Some(
                    if n < 0x80 {
                        n as i8
                    } else {
                        (n as i16 - 0x100) as i8
                    },
                );
            }
        }
    }
    None
}

/// The access point a card is talking to, as a station dump describes it.
///
/// The peer address is not optional. It is what tells one association from the next, and so
/// what a name is remembered by.
#[derive(Clone, Copy, Debug, PartialEq, Eq)]
pub struct Station {
    pub bssid: [u8; 6],
    pub signal: Option<i8>,
}

fn address(v: &Vec<u8>) -> (a: [u8; 6])
    requires
        v@.len() >= 6,
    ensures
        a@ == v@.take(6),
{
    let a = [v[0], v[1], v[2], v[3], v[4], v[5]];
    assert(a@ =~= v@.take(6));
    a
}

fn same_address(a: &[u8; 6], b: &[u8; 6]) -> (r: bool)
    ensures
        r == (a@ == b@),
{
    for i in 0..6usize
        invariant
            forall|j: int| 0 <= j < i ==> a@[j] == b@[j],
    {
        if a[i] != b[i] {
            return false;
        }
    }
    assert(a@ =~= b@);
    true
}

/// The peer and signal of one station reply. One with no peer address is no use, whatever else
/// it carries.
pub open spec fn station_in(order: ByteOrder, payload: Seq<u8>) -> Option<(Seq<u8>, Option<i8>)> {
    let all = attributes_of(order, body_of(payload));
    match last_of(all, NL80211_ATTR_MAC, 6) {
        Some(b) => Some((b.take(6), signal_of(order, all))),
        None => None,
    }
}

/// Read the associated peer and signal from one station reply.
pub fn station(order: ByteOrder, payload: &[u8]) -> (r: Option<Station>)
    ensures
        match r {
            Some(s) => station_in(order, payload@) == Some((s.bssid@, s.signal)),
            None => station_in(order, payload@) is None,
        },
{
    let body = genl_body(payload);
    let all = attributes(order, body.as_slice());
    match find_last(&all, NL80211_ATTR_MAC, 6) {
        Some(b) => Some(Station { bssid: address(b), signal: find_signal(order, &all) }),
        None => None,
    }
}

/// The name among information elements: an id byte, a length byte, then its bytes, and element
/// zero is the name. A hidden network's beacon carries it with nothing in it, which is the
/// absence of a name. A name is bytes rather than text, and nothing promises that it is UTF-8.
pub open spec fn ssid_in(rest: Seq<u8>) -> Option<Seq<char>>
    decreases rest.len(),
{
    if rest.len() < 2 || rest[1] + 2 > rest.len() {
        None
    } else if rest[0] == 0 {
        if rest[1] == 0 {
            None
        } else {
            Some(text_from(rest.subrange(2, 2 + rest[1])))
        }
    } else {
        ssid_in(rest.skip(2 + rest[1]))
    }
}

pub fn ssid_from_ies(elements: &[u8]) -> (r: Option<String>)
    ensures
        opt_view(r) == ssid_in(elements@),
{
    let mut at: usize = 0;
    assert(elements@.skip(0) =~= elements@);
    while elements.len() - at >= 2
        invariant
            at <= elements@.len(),
            ssid_in(elements@) == ssid_in(elements@.skip(at as int)),
        decreases elements@.len() - at,
    {
        let kind = elements[at];
        let length = elements[at + 1] as usize;
        let ghost rest = elements@.skip(at as int);
        if length > elements.len() - at - 2 {
            return None;
        }
        if kind == 0 {
            if length == 0 {
                return None;
            }
            let name = copied(elements, at + 2, at + 2 + length);
            assert(name@ =~= rest.subrange(2, 2 + length));
            return Some(text_of(name.as_slice()));
        }
        assert(rest.skip(2 + length) =~= elements@.skip(at + 2 + length));
        at = at + 2 + length;
    }
    None
}

/// Whether the details of a scan result describe the association with this peer. Either of its
/// addresses answers to that: a multi-link association is a station at the device's own
/// address, while each BSS behind it is one link with an address of its own. An ad-hoc cell has
/// no such peer at all, so a joined one is taken on its status alone.
pub open spec fn is_ours(order: ByteOrder, inner: Seq<(u16, Seq<u8>)>, bssid: Seq<u8>) -> bool {
    match last_of(inner, NL80211_BSS_STATUS, 4) {
        None => false,
        Some(b) => {
            let status = number32(order, b);
            if status == NL80211_BSS_STATUS_ASSOCIATED {
                (match last_of(inner, NL80211_BSS_BSSID, 6) {
                    Some(p) => p.take(6) == bssid,
                    None => false,
                }) || (match last_of(inner, NL80211_BSS_MLD_ADDR, 6) {
                    Some(p) => p.take(6) == bssid,
                    None => false,
                })
            } else {
                status == NL80211_BSS_STATUS_IBSS_JOINED
            }
        },
    }
}

/// The name the details of a scan result announce: in the probe response, or else in the
/// beacon.
pub open spec fn announced(inner: Seq<(u16, Seq<u8>)>) -> Option<Seq<char>> {
    let probed = match last_of(inner, NL80211_BSS_INFORMATION_ELEMENTS, 0) {
        Some(b) => ssid_in(b),
        None => None,
    };
    match probed {
        Some(s) => Some(s),
        None => match last_of(inner, NL80211_BSS_BEACON_IES, 0) {
            Some(b) => ssid_in(b),
            None => None,
        },
    }
}

/// The name of the association with this peer that one scan result gives.
pub open spec fn result_ssid(
    order: ByteOrder,
    one: (u16, Seq<u8>),
    bssid: Seq<u8>,
) -> Option<Seq<char>> {
    let inner = attributes_of(order, one.1);
    if one.0 == NL80211_ATTR_BSS && is_ours(order, inner, bssid) {
        announced(inner)
    } else {
        None
    }
}

/// The first name that these results give, from `from` on.
pub open spec fn first_ssid(
    order: ByteOrder,
    all: Seq<(u16, Seq<u8>)>,
    bssid: Seq<u8>,
    from: int,
) -> Option<Seq<char>>
    decreases all.len() - from,
{
    if from < 0 || from >= all.len() {
        None
    } else {
        match result_ssid(order, all[from], bssid) {
            Some(s) => Some(s),
            None => first_ssid(order, all, bssid, from + 1),
        }
    }
}

/// The name of the association with this peer that a scan reply gives.
pub open spec fn ssid_for(order: ByteOrder, payload: Seq<u8>, bssid: Seq<u8>) -> Option<Seq<char>> {
    first_ssid(order, attributes_of(order, body_of(payload)), bssid, 0)
}

fn ours(order: ByteOrder, inner: &Vec<(u16, Vec<u8>)>, bssid: &[u8; 6]) -> (r: bool)
    ensures
        r == is_ours(order, listed(inner@), bssid@),
{
    match find_last(inner, NL80211_BSS_STATUS, 4) {
        None => false,
        Some(b) => {
            let status = read32(order, b.as_slice(), 0);
            assert(b@.skip(0) =~= b@);
            if status == NL80211_BSS_STATUS_ASSOCIATED {
                let peer = match find_last(inner, NL80211_BSS_BSSID, 6) {
                    Some(p) => same_address(&address(p), bssid),
                    None => false,
                };
                let link = match find_last(inner, NL80211_BSS_MLD_ADDR, 6) {
                    Some(p) => same_address(&address(p), bssid),
                    None => false,
                };
                peer || link
            } else {
                status == NL80211_BSS_STATUS_IBSS_JOINED
            }
        },
    }
}

fn announcement(inner: &Vec<(u16, Vec<u8>)>) -> (r: Option<String>)
    ensures
        opt_view(r) == announced(listed(inner@)),
{
    let probed = match find_last(inner, NL80211_BSS_INFORMATION_ELEMENTS, 0) {
        Some(b) => ssid_from_ies(b.as_slice()),
        None => None,
    };
    match probed {
        Some(s) => Some(s),
        None => match find_last(inner, NL80211_BSS_BEACON_IES, 0) {
            Some(b) => ssid_from_ies(b.as_slice()),
            None => None,
        },
    }
}

/// Read the name from a scan reply only when it describes the current association.
pub fn associated_ssid(order: ByteOrder, payload: &[u8], bssid: [u8; 6]) -> (r: Option<String>)
    ensures
        opt_view(r) == ssid_for(order, payload@, bssid@),
{
    let body = genl_body(payload);
    let all = attributes(order, body.as_slice());
    let ghost seen = listed(all@);
    for i in 0..all.len()
        invariant
            seen == listed(all@),
            seen == attributes_of(order, body_of(payload@)),
            first_ssid(order, seen, bssid@, 0) == first_ssid(order, seen, bssid@, i as int),
    {
        assert(seen[i as int] == (all@[i as int].0, all@[i as int].1@));
        if all[i].0 == NL80211_ATTR_BSS {
            let inner = attributes(order, all[i].1.as_slice());
            if ours(order, &inner, &bssid) {
                if let Some(ssid) = announcement(&inner) {
                    return Some(ssid);
                }
            }
        }
    }
    None
}

/// The last station that these replies describe.
pub open spec fn last_station(order: ByteOrder, bodies: Seq<Seq<u8>>) -> Option<
    (Seq<u8>, Option<i8>),
>
    decreases bodies.len(),
{
    if bodies.len() == 0 {
        None
    } else {
        match station_in(order, bodies.last()) {
            Some(s) => Some(s),
            None => last_station(order, bodies.drop_last()),
        }
    }
}

/// The last name that these replies give the association with this peer.
pub open spec fn last_ssid(order: ByteOrder, bodies: Seq<Seq<u8>>, bssid: Seq<u8>) -> Option<
    Seq<char>,
>
    decreases bodies.len(),
{
    if bodies.len() == 0 {
        None
    } else {
        match ssid_for(order, bodies.last(), bssid) {
            Some(s) => Some(s),
            None => last_ssid(order, bodies.drop_last(), bssid),
        }
    }
}

/// The last number that these replies give the wireless family.
pub open spec fn last_family(order: ByteOrder, bodies: Seq<Seq<u8>>) -> Option<int>
    decreases bodies.len(),
{
    if bodies.len() == 0 {
        None
    } else {
        match last_of(attributes_of(order, body_of(bodies.last())), CTRL_ATTR_FAMILY_ID, 2) {
            Some(b) => Some(number16(order, b.take(2))),
            None => last_family(order, bodies.drop_last()),
        }
    }
}

impl Replies {
    /// The associated access point and how strong its link is. A card that has joined nothing
    /// has no station, which is an answer rather than a failure.
    pub fn station(&self, order: ByteOrder) -> (r: Option<Station>)
        ensures
            match r {
                Some(s) => last_station(order, bodies_view(self.bodies@)) == Some(
                    (s.bssid@, s.signal),
                ),
                None => last_station(order, bodies_view(self.bodies@)) is None,
            },
    {
        let ghost all = bodies_view(self.bodies@);
        let mut i = self.bodies.len();
        assert(all.take(i as int) =~= all);
        while i > 0
            invariant
                i <= self.bodies@.len(),
                all == bodies_view(self.bodies@),
                last_station(order, all) == last_station(order, all.take(i as int)),
            decreases i,
        {
            i = i - 1;
            assert(all.take(i + 1).drop_last() =~= all.take(i as int));
            assert(all.take(i + 1).last() == self.bodies@[i as int]@);
            if let Some(s) = station(order, self.bodies[i].as_slice()) {
                return Some(s);
            }
        }
        None
    }

    /// The name of the network joined through this access point.
    pub fn ssid(&self, order: ByteOrder, bssid: [u8; 6]) -> (r: Option<String>)
        ensures
            opt_view(r) == last_ssid(order, bodies_view(self.bodies@), bssid@),
            // Every result is looked at, and the last one that names a network is the one.
            match r {
                None => forall|i: int|
                    0 <= i < self.bodies@.len() ==> ssid_for(
                        order,
                        (#[trigger] self.bodies@[i])@,
                        bssid@,
                    ) is None,
                Some(name) => exists|i: int|
                    {
                        &&& 0 <= i < self.bodies@.len()
                        &&& ssid_for(order, (#[trigger] self.bodies@[i])@, bssid@) == Some(name@)
                        &&& forall|j: int|
                            i < j < self.bodies@.len() ==> ssid_for(
                                order,
                                (#[trigger] self.bodies@[j])@,
                                bssid@,
                            ) is None
                    },
            },
    {
        let ghost all = bodies_view(self.bodies@);
        let mut i = self.bodies.len();
        assert(all.take(i as int) =~= all);
        while i > 0
            invariant
                i <= self.bodies@.len(),
                all == bodies_view(self.bodies@),
                last_ssid(order, all, bssid@) == last_ssid(order, all.take(i as int), bssid@),
                forall|j: int|
                    i <= j < self.bodies@.len() ==> ssid_for(
                        order,
                        (#[trigger] self.bodies@[j])@,
                        bssid@,
                    ) is None,
            decreases i,
        {
            i = i - 1;
            assert(all.take(i + 1).drop_last() =~= all.take(i as int));
            assert(all.take(i + 1).last() == self.bodies@[i as int]@);
            if let Some(s) = associated_ssid(order, self.bodies[i].as_slice(), bssid) {
                return Some(s);
            }
        }
        None
    }

    /// The number nl80211 answers to on this machine, which is assigned at boot.
    pub fn family(&self, order: ByteOrder) -> (r: Option<u16>)
        ensures
            match r {
                Some(n) => last_family(order, bodies_view(self.bodies@)) == Some(n as int),
                None => last_family(order, bodies_view(self.bodies@)) is None,
            },
    {
        let ghost all = bodies_view(self.bodies@);
        let mut i = self.bodies.len();
        assert(all.take(i as int) =~= all);
        while i > 0
            invariant
                i <= self.bodies@.len(),
                all == bodies_view(self.bodies@),
                last_family(order, all) == last_family(order, all.take(i as int)),
            decreases i,
        {
            i = i - 1;
            assert(all.take(i + 1).drop_last() =~= all.take(i as int));
            assert(all.take(i + 1).last() == self.bodies@[i as int]@);
            let body = genl_body(self.bodies[i].as_slice());
            let found = attributes(order, body.as_slice());
            if let Some(b) = find_last(&found, CTRL_ATTR_FAMILY_ID, 2) {
                assert(b@.take(2) =~= b@.subrange(0, 2));
                return Some(read16(order, b.as_slice(), 0));
            }
        }
        None
    }
}

/// What the last scan-cache dump found, and which association it was for.
#[derive(Debug)]
pub struct CachedNetwork {
    pub ifindex: u32,
    pub bssid: [u8; 6],
    /// Kept even when it is `None`: an association the scan cache cannot name is an answer too,
    /// and one worth remembering rather than dumping the whole cache for again.
    pub ssid: Option<String>,
    /// Dumps in a row that have found no name for this association, and when the last of them
    /// was. Both are only ever read while there is no name.
    pub misses: u32,
    pub asked: Instant,
}

/// What a `CachedNetwork` says.
#[verifier::ext_equal]
pub struct CachedView {
    pub ifindex: u32,
    pub bssid: Seq<u8>,
    pub ssid: Option<Seq<char>>,
    pub misses: u32,
    pub asked: Instant,
}

impl View for CachedNetwork {
    type V = CachedView;

    open spec fn view(&self) -> CachedView {
        CachedView {
            ifindex: self.ifindex,
            bssid: self.bssid@,
            ssid: opt_view(self.ssid),
            misses: self.misses,
            asked: self.asked,
        }
    }
}

impl CachedNetwork {
    pub fn is_for(&self, ifindex: u32, bssid: [u8; 6]) -> (r: bool)
        ensures
            r == (self@.ifindex == ifindex && self@.bssid == bssid@),
    {
        self.ifindex == ifindex && same_address(&self.bssid, &bssid)
    }
}

/// What a read should do with the association the station dump just described.
#[derive(Debug)]
pub enum Lookup {
    /// The cache already answers for this association.
    Cached(Option<String>),
    /// The scan cache has to be read, after this many dumps that found nothing.
    Dump { misses: u32 },
}

/// What a `Lookup` says.
pub enum LookupView {
    Cached(Option<Seq<char>>),
    Dump { misses: u32 },
}

impl View for Lookup {
    type V = LookupView;

    open spec fn view(&self) -> LookupView {
        match self {
            Lookup::Cached(s) => LookupView::Cached(opt_view(*s)),
            Lookup::Dump { misses } => LookupView::Dump { misses: *misses },
        }
    }
}

/// Whether so long has passed since an association was asked about that it is asked about
/// again.
pub open spec fn waited_out(asked: Instant, now: Instant) -> bool {
    now.nanos - asked.nanos >= UNNAMED_INTERVAL
}

/// Whether the cache answers, or the scan cache is read: a name is held until the access point
/// changes, and an association with no name is retried at once a few times and slowly after
/// that.
pub open spec fn looked_up(
    cache: Option<CachedView>,
    ifindex: u32,
    bssid: Seq<u8>,
    now: Instant,
) -> LookupView {
    match cache {
        None => LookupView::Dump { misses: 0 },
        Some(c) => if c.ifindex != ifindex || c.bssid != bssid {
            LookupView::Dump { misses: 0 }
        } else if c.ssid is Some {
            LookupView::Cached(c.ssid)
        } else if c.misses < UNNAMED_TRIES || waited_out(c.asked, now) {
            LookupView::Dump { misses: c.misses }
        } else {
            LookupView::Cached(None)
        },
    }
}

/// What the cache says, where there is one.
pub open spec fn cache_view(c: Option<CachedNetwork>) -> Option<CachedView> {
    match c {
        Some(c) => Some(c@),
        None => None,
    }
}

/// Decide between the cache and a scan-cache dump.
pub fn lookup(cache: &Option<CachedNetwork>, ifindex: u32, bssid: [u8; 6], now: Instant) -> (r:
    Lookup)
    ensures
        r@ == looked_up(cache_view(*cache), ifindex, bssid@, now),
{
    match cache {
        None => Lookup::Dump { misses: 0 },
        Some(network) => {
            if !network.is_for(ifindex, bssid) {
                return Lookup::Dump { misses: 0 };
            }
            if network.ssid.is_some() {
                return Lookup::Cached(copy_text(&network.ssid));
            }
            let waited = now.nanos >= network.asked.nanos && now.nanos - network.asked.nanos
                >= UNNAMED_INTERVAL;
            if network.misses < UNNAMED_TRIES || waited {
                return Lookup::Dump { misses: network.misses };
            }
            Lookup::Cached(None)
        },
    }
}

/// What is remembered after a dump that gave an association this name, or none.
pub open spec fn remembered(
    ifindex: u32,
    bssid: Seq<u8>,
    ssid: Option<Seq<char>>,
    misses: u32,
    now: Instant,
) -> CachedView {
    CachedView {
        ifindex,
        bssid,
        ssid,
        misses: if ssid is Some {
            0
        } else if misses < u32::MAX {
            (misses + 1) as u32
        } else {
            misses
        },
        asked: now,
    }
}

/// A name that was found is held for as long as the association lasts, and is not asked about
/// again; any other association is asked about at once.
pub proof fn law_a_name_is_held_until_the_association_changes(
    ifindex: u32,
    bssid: Seq<u8>,
    ssid: Option<Seq<char>>,
    misses: u32,
    then: Instant,
    other: u32,
    peer: Seq<u8>,
    now: Instant,
)
    ensures
        ssid is Some ==> looked_up(
            Some(remembered(ifindex, bssid, ssid, misses, then)),
            ifindex,
            bssid,
            now,
        ) == LookupView::Cached(ssid),
        other != ifindex || peer != bssid ==> looked_up(
            Some(remembered(ifindex, bssid, ssid, misses, then)),
            other,
            peer,
            now,
        ) == (LookupView::Dump { misses: 0 }),
{
}

/// An association with no name is asked about again at once only so often, and after that once
/// it was left alone for a while: never sooner, and always then.
pub proof fn law_an_unnamed_association_is_asked_about_again(
    ifindex: u32,
    bssid: Seq<u8>,
    misses: u32,
    then: Instant,
    now: Instant,
)
    ensures
        looked_up(
            Some(remembered(ifindex, bssid, None, misses, then)),
            ifindex,
            bssid,
            now,
        ) is Dump <==> (misses + 1 < UNNAMED_TRIES || waited_out(then, now)),
{
}

/// What to do about an interface, once its station is known.
#[derive(Debug)]
pub enum Step {
    /// The network it is on and how well it can hear it, in dBm.
    Answer { ssid: Option<String>, signal: Option<i8> },
    /// Ask for the scan cache, for the access point of this address.
    Dump { station: Station, misses: u32 },
}

/// What is known of the wireless stack, kept because it is asked again every tick.
#[derive(Debug)]
pub struct Wireless {
    pub family: u16,
    pub sequence: u32,
    pub network: Option<CachedNetwork>,
}

/// The payload that asks for the number of the wireless family.
pub open spec fn family_payload(order: ByteOrder) -> Seq<u8> {
    genl(CTRL_CMD_GETFAMILY, 1) + attribute_of(
        order,
        CTRL_ATTR_FAMILY_NAME,
        seq![110u8, 108u8, 56u8, 48u8, 50u8, 49u8, 49u8, 0u8],
    )
}

/// The payload of a command about an interface.
pub open spec fn interface_payload(order: ByteOrder, command: u8, ifindex: u32) -> Seq<u8> {
    genl(command, 0) + attribute_of(order, NL80211_ATTR_IFINDEX, bytes32(order, ifindex as int))
}

/// The sequence number after this one.
pub open spec fn next_sequence(n: u32) -> u32 {
    if n == u32::MAX {
        0
    } else {
        (n + 1) as u32
    }
}

impl Wireless {
    /// A stack that has not said which family it is yet.
    pub fn new() -> (w: Wireless)
        ensures
            w.family == GENL_ID_CTRL,
            w.sequence == 0,
            w.network is None,
    {
        Wireless { family: GENL_ID_CTRL, sequence: 0, network: None }
    }

    /// The message to send, under the next sequence number.
    pub fn message(&mut self, order: ByteOrder, kind: u16, flags: u16, payload: &[u8]) -> (out: Vec<
        u8,
    >)
        requires
            HEADER + payload@.len() <= usize::MAX,
        ensures
            final(self).sequence == next_sequence(old(self).sequence),
            final(self).family == old(self).family,
            final(self).network == old(self).network,
            out@ == message_of(
                order,
                kind,
                flags,
                next_sequence(old(self).sequence),
                payload@,
            ),
    {
        self.sequence = self.sequence.wrapping_add(1);
        let length = ((HEADER + payload.len()) as u64 % 0x1_0000_0000) as u32;
        let mut out: Vec<u8> = Vec::new();
        put32(order, length, &mut out);
        put16(order, kind, &mut out);
        put16(order, flags, &mut out);
        put32(order, self.sequence, &mut out);
        put32(order, 0, &mut out);
        put(payload, &mut out);
        assert(out@ =~= message_of(order, kind, flags, self.sequence, payload@));
        out
    }

    /// The message that asks which number nl80211 answers to.
    pub fn ask_family(&mut self, order: ByteOrder) -> (out: Vec<u8>)
        ensures
            final(self).sequence == next_sequence(old(self).sequence),
            final(self).family == old(self).family,
            final(self).network == old(self).network,
            out@ == message_of(
                order,
                GENL_ID_CTRL,
                NLM_F_REQUEST,
                next_sequence(old(self).sequence),
                family_payload(order),
            ),
    {
        let name: Vec<u8> = vec![110, 108, 56, 48, 50, 49, 49, 0];
        assert(name@ =~= seq![110u8, 108u8, 56u8, 48u8, 50u8, 49u8, 49u8, 0u8]);
        let mut payload = genl_header(CTRL_CMD_GETFAMILY, 1);
        let named = attribute(order, CTRL_ATTR_FAMILY_NAME, name.as_slice());
        put(named.as_slice(), &mut payload);
        self.message(order, GENL_ID_CTRL, NLM_F_REQUEST, payload.as_slice())
    }

    /// The message that asks for everything of a command about an interface.
    pub fn ask(&mut self, order: ByteOrder, command: u8, ifindex: u32) -> (out: Vec<u8>)
        ensures
            final(self).sequence == next_sequence(old(self).sequence),
            final(self).family == old(self).family,
            final(self).network == old(self).network,
            out@ == message_of(
                order,
                old(self).family,
                NLM_F_REQUEST_DUMP,
                next_sequence(old(self).sequence),
                interface_payload(order, command, ifindex),
            ),
    {
        let mut index: Vec<u8> = Vec::new();
        put32(order, ifindex, &mut index);
        assert(index@ =~= bytes32(order, ifindex as int));
        let mut payload = genl_header(command, 0);
        let about = attribute(order, NL80211_ATTR_IFINDEX, index.as_slice());
        put(about.as_slice(), &mut payload);
        let family = self.family;
        self.message(order, family, NLM_F_REQUEST_DUMP, payload.as_slice())
    }

    /// Keep the number that the replies give, or say that there is none: a machine with no
    /// wireless has no family to find.
    pub fn resolve_family(&mut self, order: ByteOrder, replies: &Replies) -> (r: Result<(), Fault>)
        ensures
            final(self).sequence == old(self).sequence,
            final(self).network == old(self).network,
            match last_family(order, bodies_view(replies.bodies@)) {
                Some(n) => r == Ok::<(), Fault>(()) && final(self).family == n,
                None => r == Err::<(), Fault>(Fault::NoFamily) && final(self).family == old(
                    self,
                ).family,
            },
    {
        match replies.family(order) {
            Some(n) => {
                self.family = n;
                Ok(())
            },
            None => Err(Fault::NoFamily),
        }
    }

    /// What to do about an interface, once its station is known. One that has joined nothing is
    /// on no network, and what was remembered is forgotten.
    pub fn state_of(&mut self, ifindex: u32, station: Option<Station>, now: Instant) -> (r: Step)
        ensures
            final(self).family == old(self).family,
            final(self).sequence == old(self).sequence,
            match station {
                None => r == (Step::Answer { ssid: None, signal: None })
                    && final(self).network is None,
                Some(s) => {
                    &&& final(self).network == old(self).network
                    &&& match looked_up(
                        cache_view(old(self).network),
                        ifindex,
                        s.bssid@,
                        now,
                    ) {
                        LookupView::Cached(name) => r matches Step::Answer { ssid, signal }
                            && opt_view(ssid) == name && signal == s.signal,
                        LookupView::Dump { misses } => r == (Step::Dump { station: s, misses }),
                    }
                },
            },
    {
        match station {
            None => {
                self.network = None;
                Step::Answer { ssid: None, signal: None }
            },
            Some(s) => match lookup(&self.network, ifindex, s.bssid, now) {
                Lookup::Cached(ssid) => Step::Answer { ssid, signal: s.signal },
                Lookup::Dump { misses } => Step::Dump { station: s, misses },
            },
        }
    }

    /// Remember the name that a dump gave an association, or that it gave none.
    pub fn remember(
        &mut self,
        ifindex: u32,
        station: Station,
        misses: u32,
        ssid: Option<String>,
        now: Instant,
    ) -> (r: Step)
        ensures
            final(self).family == old(self).family,
            final(self).sequence == old(self).sequence,
            cache_view(final(self).network) == Some(
                remembered(ifindex, station.bssid@, opt_view(ssid), misses, now),
            ),
            r matches Step::Answer { ssid: name, signal } && opt_view(name) == opt_view(ssid)
                && signal == station.signal,
    {
        let known = copy_text(&ssid);
        let misses: u32 = if known.is_some() {
            0
        } else if misses < u32::MAX {
            misses + 1
        } else {
            misses
        };
        self.network = Some(
            CachedNetwork { ifindex, bssid: station.bssid, ssid: known, misses, asked: now },
        );
        Step::Answer { ssid, signal: station.signal }
    }
}

} // verus!
