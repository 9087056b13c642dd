//! Which network a card has joined.

use crate::collect::nl80211::{attribute_of, attributes_of, body_of, bytes16, bytes32};
use crate::collect::nl80211::{first_ssid, interface_payload, last_family, last_of, last_ssid, result_ssid};
use crate::collect::nl80211::{last_station, law_an_attribute_is_read_as_it_was_written, lemma_numbers};
use crate::collect::nl80211::{number32, signed32, signed8, ssid_for, ssid_in};
use crate::collect::nl80211::{station_in, ByteOrder};
use crate::text::text_from;
use crate::collect::nl80211::{family_payload, first_of, goes_on, looked_up, message_of};
use crate::collect::nl80211::{messages_of, next_sequence, number16, remembered, Ending, Fault};
use crate::collect::nl80211::{First, LookupView, CTRL_CMD_GETFAMILY, GENL_ID_CTRL};
use crate::collect::nl80211::{NL80211_CMD_GET_SCAN, NL80211_CMD_GET_STATION, NLMSG_DONE};
use crate::collect::nl80211::{NLMSG_ERROR, NLM_F_REQUEST, NLM_F_REQUEST_DUMP};
use crate::time::Instant;
use vstd::prelude::*;

verus! {

/// Every result of a dump is looked at: it names a network exactly when one of its results does,
/// and the name is that of the last one that does.
pub proof fn law_every_result_of_a_dump_is_looked_at(
    order: ByteOrder,
    bodies: Seq<Seq<u8>>,
    bssid: Seq<u8>,
)
    ensures
        match last_ssid(order, bodies, bssid) {
            None => forall|i: int|
                0 <= i < bodies.len() ==> ssid_for(order, #[trigger] bodies[i], bssid) is None,
            Some(name) => exists|i: int|
                0 <= i < bodies.len() && ssid_for(order, #[trigger] bodies[i], bssid) == Some(name)
                    && forall|j: int|
                    i < j < bodies.len() ==> ssid_for(order, #[trigger] bodies[j], bssid) is None,
        },
    decreases bodies.len(),
{
    if bodies.len() > 0 {
        let before = bodies.drop_last();
        let last = bodies.len() - 1;
        law_every_result_of_a_dump_is_looked_at(order, before, bssid);
        assert forall|i: int| 0 <= i < before.len() implies #[trigger] before[i] == bodies[i] by {}
        assert(bodies[last] == bodies.last());
        if ssid_for(order, bodies.last(), bssid) is None {
            match last_ssid(order, before, bssid) {
                Some(name) => {
                    let i = choose|i: int|
                        0 <= i < before.len() && ssid_for(order, #[trigger] before[i], bssid)
                            == Some(name) && forall|j: int|
                            i < j < before.len() ==> ssid_for(
                                order,
                                #[trigger] before[j],
                                bssid,
                            ) is None;
                    assert(bodies[i] == before[i]);
                    assert forall|j: int| i < j < bodies.len() implies ssid_for(
                        order,
                        #[trigger] bodies[j],
                        bssid,
                    ) is None by {
                        if j < last {
                            assert(before[j] == bodies[j]);
                        }
                    }
                },
                None => {
                    assert forall|i: int| 0 <= i < bodies.len() implies ssid_for(
                        order,
                        #[trigger] bodies[i],
                        bssid,
                    ) is None by {
                        if i < last {
                            assert(before[i] == bodies[i]);
                        }
                    }
                },
            }
        }
    }
}

/// Every answer about a station is looked at: the last one that tells one is the station.
pub proof fn law_every_answer_about_a_station_is_looked_at(order: ByteOrder, bodies: Seq<Seq<u8>>)
    ensures
        match last_station(order, bodies) {
            None => forall|i: int|
                0 <= i < bodies.len() ==> station_in(order, #[trigger] bodies[i]) is None,
            Some(s) => exists|i: int|
                0 <= i < bodies.len() && station_in(order, #[trigger] bodies[i]) == Some(s)
                    && forall|j: int|
                    i < j < bodies.len() ==> station_in(order, #[trigger] bodies[j]) is None,
        },
    decreases bodies.len(),
{
    if bodies.len() > 0 {
        let before = bodies.drop_last();
        let last = bodies.len() - 1;
        law_every_answer_about_a_station_is_looked_at(order, before);
        assert(bodies[last] == bodies.last());
        if station_in(order, bodies.last()) is None {
            match last_station(order, before) {
                Some(s) => {
                    let i = choose|i: int|
                        0 <= i < before.len() && station_in(order, #[trigger] before[i]) == Some(s)
                            && forall|j: int|
                            i < j < before.len() ==> station_in(order, #[trigger] before[j])
                                is None;
                    assert(bodies[i] == before[i]);
                    assert forall|j: int| i < j < bodies.len() implies station_in(
                        order,
                        #[trigger] bodies[j],
                    ) is None by {
                        if j < last {
                            assert(before[j] == bodies[j]);
                        }
                    }
                },
                None => {
                    assert forall|i: int| 0 <= i < bodies.len() implies station_in(
                        order,
                        #[trigger] bodies[i],
                    ) is None by {
                        if i < last {
                            assert(before[i] == bodies[i]);
                        }
                    }
                },
            }
        }
    }
}

/// The last attribute of a kind that is long enough is the one that counts, and there is one
/// exactly where one is listed.
pub proof fn law_the_last_attribute_counts(all: Seq<(u16, Seq<u8>)>, kind: u16, least: int)
    ensures
        match last_of(all, kind, least) {
            None => forall|i: int|
                0 <= i < all.len() ==> !((#[trigger] all[i]).0 == kind && all[i].1.len() >= least),
            Some(v) => exists|i: int|
                0 <= i < all.len() && #[trigger] all[i] == (kind, v) && v.len() >= least
                    && forall|j: int|
                    i < j < all.len() ==> !((#[trigger] all[j]).0 == kind && all[j].1.len()
                        >= least),
        },
    decreases all.len(),
{
    if all.len() > 0 {
        let before = all.drop_last();
        let last = all.len() - 1;
        law_the_last_attribute_counts(before, kind, least);
        assert(all[last] == all.last());
        if all.last().0 == kind && all.last().1.len() >= least {
            assert(all[last] == (kind, all.last().1));
        } else {
            match last_of(before, kind, least) {
                Some(v) => {
                    let i = choose|i: int|
                        0 <= i < before.len() && #[trigger] before[i] == (kind, v) && v.len()
                            >= least && forall|j: int|
                            i < j < before.len() ==> !((#[trigger] before[j]).0 == kind
                                && before[j].1.len() >= least);
                    assert(all[i] == (kind, v));
                    assert forall|j: int| i < j < all.len() implies !((#[trigger] all[j]).0 == kind
                        && all[j].1.len() >= least) by {
                        if j < last {
                            assert(before[j] == all[j]);
                        }
                    }
                },
                None => {
                    assert forall|i: int| 0 <= i < all.len() implies !((#[trigger] all[i]).0 == kind
                        && all[i].1.len() >= least) by {
                        if i < last {
                            assert(before[i] == all[i]);
                        }
                    }
                },
            }
        }
    }
}

/// A signed byte is the number from -128 to 127 that differs from its bits by a multiple of 256;
/// and so for 32 bits.
pub proof fn law_a_sign_is_the_highest_bit(n: u8, m: int)
    requires
        0 <= m < 0x1_0000_0000,
    ensures
        n < 128 ==> signed8(n) == n,
        n >= 128 ==> signed8(n) == n - 256,
        -0x8000_0000 <= signed32(m) < 0x8000_0000,
        (signed32(m) - m) % 0x1_0000_0000 == 0,
{
}

/// The bytes of an attribute, as they are.
#[verifier::opaque]
spec fn bytes_of(order: ByteOrder, kind: u16, value: Seq<u8>) -> Seq<u8> {
    attribute_of(order, kind, value)
}

/// The attributes some bytes list, as they are.
#[verifier::opaque]
spec fn listing(order: ByteOrder, bytes: Seq<u8>) -> Seq<(u16, Seq<u8>)> {
    attributes_of(order, bytes)
}

/// The station a payload tells, as it is.
#[verifier::opaque]
spec fn station_at(order: ByteOrder, payload: Seq<u8>) -> Option<(Seq<u8>, Option<i8>)> {
    station_in(order, payload)
}

/// The name a payload gives, as it is.
#[verifier::opaque]
spec fn name_at(order: ByteOrder, payload: Seq<u8>, asked: Seq<u8>) -> Option<Seq<char>> {
    ssid_for(order, payload, asked)
}

/// One attribute by itself is listed by itself, and one in front of others in front of them.
proof fn lemma_listed(order: ByteOrder, kind: u16, value: Seq<u8>, rest: Seq<u8>)
    requires
        value.len() + 4 < 0x1_0000,
        kind < 0x4000,
    ensures
        bytes_of(order, kind, value) == attribute_of(order, kind, value),
        listing(order, bytes_of(order, kind, value)) == seq![(kind, value)],
        listing(order, bytes_of(order, kind, value) + rest) == seq![(kind, value)] + listing(
            order,
            rest,
        ),
        bytes_of(order, kind, value).len() <= value.len() + 8,
{
    reveal(bytes_of);
    reveal(listing);
    let none = Seq::<u8>::empty();
    let one = attribute_of(order, kind, value);
    lemma_numbers(order, 0, kind as int);
    lemma_numbers(order, 0, ((4 + value.len()) % 0x1_0000) as int);
    law_an_attribute_is_read_as_it_was_written(order, kind, value, rest);
    law_an_attribute_is_read_as_it_was_written(order, kind, value, none);
    assert(one + none =~= one);
    assert(attributes_of(order, none) =~= Seq::<(u16, Seq<u8>)>::empty());
    assert(seq![(kind, value)] + Seq::<(u16, Seq<u8>)>::empty() =~= seq![(kind, value)]);
}

proof fn lemma_station_listed(
    order: ByteOrder,
    payload: Seq<u8>,
    inner: Seq<u8>,
    address: Seq<u8>,
    signal: u8,
)
    requires
        address.len() == 6,
        listing(order, body_of(payload)) == seq![(6u16, address), (21u16, inner)],
        listing(order, inner) == seq![(7u16, seq![signal])],
    ensures
        station_at(order, payload) == Some((address, Some(signed8(signal)))),
{
    reveal(listing);
    reveal(station_at);
    let all = seq![(6u16, address), (21u16, inner)];
    let parts = seq![(7u16, seq![signal])];
    assert(parts.last() == (7u16, seq![signal]));
    assert(last_of(parts, 7, 1) == Some(seq![signal]));
    assert(all.last() == (21u16, inner));
    assert(all.drop_last().last() == (6u16, address));
    assert(last_of(all, 6, 6) == last_of(all.drop_last(), 6, 6));
    assert(address.take(6) =~= address);
}

proof fn lemma_station_told(order: ByteOrder, front: Seq<u8>, address: Seq<u8>, signal: u8)
    requires
        front.len() == 4,
        address.len() == 6,
    ensures
        ({
            let inner = bytes_of(order, 7, seq![signal]);
            let body = bytes_of(order, 6, address) + bytes_of(order, 21, inner);
            station_at(order, front + body) == Some((address, Some(signed8(signal))))
        }),
{
    let none = Seq::<u8>::empty();
    let inner = bytes_of(order, 7, seq![signal]);
    lemma_listed(order, 7, seq![signal], none);
    let second = bytes_of(order, 21, inner);
    lemma_listed(order, 21, inner, none);
    let body = bytes_of(order, 6, address) + second;
    lemma_listed(order, 6, address, second);
    assert((front + body).skip(4) =~= body);
    assert(seq![(6u16, address)] + seq![(21u16, inner)] =~= seq![(6u16, address), (21u16, inner)]);
    lemma_station_listed(order, front + body, inner, address, signal);
}

/// What a station is told by: its address under attribute 6, and inside attribute 21 its signal
/// under attribute 7. A station that is told so is read so.
pub proof fn law_a_station_is_read_as_it_is_told(
    order: ByteOrder,
    front: Seq<u8>,
    address: Seq<u8>,
    signal: u8,
)
    requires
        front.len() == 4,
        address.len() == 6,
    ensures
        ({
            let told = front + (attribute_of(order, 6, address) + attribute_of(
                order,
                21,
                attribute_of(order, 7, seq![signal]),
            ));
            station_in(order, told) matches Some((bssid, dbm)) && bssid == address && dbm == Some(
                if signal < 128 {
                    signal as i8
                } else {
                    (signal - 256) as i8
                },
            )
        }),
{
    let inner = attribute_of(order, 7, seq![signal]);
    let body = attribute_of(order, 6, address) + attribute_of(order, 21, inner);
    lemma_station_told(order, front, address, signal);
    reveal(station_at);
    assert(bytes_of(order, 7, seq![signal]) == inner) by {
        reveal(bytes_of);
    }
    assert(bytes_of(order, 6, address) + bytes_of(order, 21, inner) == body) by {
        reveal(bytes_of);
    }
}

/// The bytes of a result of a scan: its status, the address of its access point, and what it
/// announces.
pub open spec fn result_of(
    order: ByteOrder,
    status: u32,
    address: Seq<u8>,
    elements: Seq<u8>,
) -> Seq<u8> {
    attribute_of(
        order,
        47,
        attribute_of(order, 9, bytes32(order, status as int)) + (attribute_of(order, 1, address)
            + attribute_of(order, 6, elements)),
    )
}

proof fn lemma_result_listed(
    order: ByteOrder,
    payload: Seq<u8>,
    inner: Seq<u8>,
    number: Seq<u8>,
    address: Seq<u8>,
    elements: Seq<u8>,
    asked: Seq<u8>,
)
    requires
        address.len() == 6,
        number.len() == 4,
        listing(order, body_of(payload)) == seq![(47u16, inner)],
        listing(order, inner) == seq![(9u16, number), (1u16, address), (6u16, elements)],
    ensures
        name_at(order, payload, asked) == (if (number32(order, number) == 1 && address == asked)
            || number32(order, number) == 2 {
            ssid_in(elements)
        } else {
            None
        }),
{
    reveal(listing);
    reveal(name_at);
    let parts = seq![(9u16, number), (1u16, address), (6u16, elements)];
    let all = seq![(47u16, inner)];
    let two = parts.drop_last();
    let one = two.drop_last();
    assert(two =~= seq![(9u16, number), (1u16, address)]);
    assert(one =~= seq![(9u16, number)]);
    assert(one.drop_last() =~= Seq::<(u16, Seq<u8>)>::empty());
    assert(parts.last() == (6u16, elements));
    assert(two.last() == (1u16, address));
    assert(one.last() == (9u16, number));
    assert(address.take(6) =~= address);
    assert(last_of(one, 9, 4) == Some(number));
    assert(last_of(two, 9, 4) == Some(number));
    assert(last_of(parts, 9, 4) == Some(number));
    assert(last_of(two, 1, 6) == Some(address));
    assert(last_of(parts, 1, 6) == Some(address));
    assert(last_of(parts, 6, 0) == Some(elements));
    assert(last_of(one.drop_last(), 22, 6) is None);
    assert(last_of(one, 22, 6) is None);
    assert(last_of(two, 22, 6) is None);
    assert(last_of(parts, 22, 6) is None);
    assert(last_of(one.drop_last(), 11, 0) is None);
    assert(last_of(one, 11, 0) is None);
    assert(last_of(two, 11, 0) is None);
    assert(last_of(parts, 11, 0) is None);
    assert(all[0] == (47u16, inner));
    assert(first_ssid(order, all, asked, 1) is None);
    assert(result_ssid(order, all[0], asked) == ssid_for(order, payload, asked));
}

proof fn lemma_result_told(
    order: ByteOrder,
    front: Seq<u8>,
    number: Seq<u8>,
    address: Seq<u8>,
    asked: Seq<u8>,
    elements: Seq<u8>,
)
    requires
        front.len() == 4,
        number.len() == 4,
        address.len() == 6,
        elements.len() < 0x8000,
    ensures
        ({
            let inner = bytes_of(order, 9, number) + (bytes_of(order, 1, address) + bytes_of(
                order,
                6,
                elements,
            ));
            name_at(order, front + bytes_of(order, 47, inner), asked) == (if (number32(
                order,
                number,
            ) == 1 && address == asked) || number32(order, number) == 2 {
                ssid_in(elements)
            } else {
                None
            })
        }),
{
    let none = Seq::<u8>::empty();
    let third = bytes_of(order, 6, elements);
    let second = bytes_of(order, 1, address);
    let first = bytes_of(order, 9, number);
    let inner = first + (second + third);
    lemma_listed(order, 6, elements, none);
    lemma_listed(order, 1, address, third);
    lemma_listed(order, 9, number, second + third);
    assert(inner.len() < 0xfff0);
    let body = bytes_of(order, 47, inner);
    lemma_listed(order, 47, inner, none);
    assert((front + body).skip(4) =~= body);
    assert(seq![(9u16, number)] + (seq![(1u16, address)] + seq![(6u16, elements)]) =~= seq![
        (9u16, number),
        (1u16, address),
        (6u16, elements),
    ]);
    lemma_result_listed(order, front + body, inner, number, address, elements, asked);
}

/// An access point the card is associated with names the network, by what it announces, where
/// its address is the one asked about; with another address, or with no association, it names
/// none.
pub proof fn law_the_associated_access_point_names_the_network(
    order: ByteOrder,
    front: Seq<u8>,
    status: u32,
    address: Seq<u8>,
    asked: Seq<u8>,
    elements: Seq<u8>,
)
    requires
        front.len() == 4,
        address.len() == 6,
        elements.len() < 0x8000,
    ensures
        ({
            let told = front + result_of(order, status, address, elements);
            &&& status == 1 && asked == address ==> ssid_for(order, told, asked) == ssid_in(
                elements,
            )
            &&& status == 1 && asked != address ==> ssid_for(order, told, asked) is None
            &&& status == 2 ==> ssid_for(order, told, asked) == ssid_in(elements)
            &&& status != 1 && status != 2 ==> ssid_for(order, told, asked) is None
        }),
{
    let number = bytes32(order, status as int);
    lemma_numbers(order, status as int, 0);
    lemma_result_told(order, front, number, address, asked, elements);
    reveal(name_at);
    assert(bytes_of(order, 9, number) + (bytes_of(order, 1, address) + bytes_of(
        order,
        6,
        elements,
    )) == attribute_of(order, 9, number) + (attribute_of(order, 1, address) + attribute_of(
        order,
        6,
        elements,
    ))) by {
        reveal(bytes_of);
    }
    assert(bytes_of(
        order,
        47,
        attribute_of(order, 9, number) + (attribute_of(order, 1, address) + attribute_of(
            order,
            6,
            elements,
        )),
    ) == result_of(order, status, address, elements)) by {
        reveal(bytes_of);
    }
}

/// What an access point announces is a run of elements, each a number, a length and that many
/// bytes; the name is the first one of number nothing that is not empty, wherever it stands, and
/// what stands behind it does not matter.
pub proof fn law_the_name_is_the_element_of_number_nothing(
    number: u8,
    value: Seq<u8>,
    rest: Seq<u8>,
)
    requires
        value.len() < 256,
    ensures
        ({
            let all = seq![number, value.len() as u8] + value + rest;
            &&& number == 0 && value.len() > 0 ==> ssid_in(all) == Some(text_from(value))
            &&& number == 0 && value.len() == 0 ==> ssid_in(all) is None
            &&& number != 0 ==> ssid_in(all) == ssid_in(rest)
        }),
{
    let all = seq![number, value.len() as u8] + value + rest;
    assert(all[0] == number && all[1] == value.len());
    assert(all.subrange(2, 2int + value.len()) =~= value);
    assert(all.skip(2int + value.len()) =~= rest);
}

/// What the family of the wireless stack is told by, under attribute 1, is what it is read as.
pub proof fn law_the_family_is_read_as_it_is_told(order: ByteOrder, front: Seq<u8>, family: u16)
    requires
        front.len() == 4,
    ensures
        last_family(order, seq![front + attribute_of(order, 1, bytes16(order, family as int))])
            == Some(family as int),
{
    let none = Seq::<u8>::empty();
    let value = bytes16(order, family as int);
    lemma_numbers(order, 0, family as int);
    let one = attribute_of(order, 1, value);
    assert((front + one).skip(4) =~= one);
    assert(one + none =~= one);
    assert(value.len() == 2);
    law_an_attribute_is_read_as_it_was_written(order, 1, value, none);
    assert(attributes_of(order, none) =~= Seq::<(u16, Seq<u8>)>::empty());
    let all = attributes_of(order, one);
    assert(all =~= seq![(1u16, value)]);
    assert(all.last() == (1u16, value));
    assert(value.take(2) =~= value);
    let bodies = seq![front + one];
    assert(bodies.last() == front + one);
}

/// A question about an interface names the command in its first byte, and the interface under
/// attribute 3, and nothing else.
pub proof fn law_a_question_names_its_interface(order: ByteOrder, command: u8, ifindex: u32)
    ensures
        ({
            let asked = interface_payload(order, command, ifindex);
            &&& asked[0] == command
            &&& attributes_of(order, asked.skip(4)) == seq![
                (3u16, bytes32(order, ifindex as int)),
            ]
            &&& number32(order, bytes32(order, ifindex as int)) == ifindex
        }),
{
    let none = Seq::<u8>::empty();
    let value = bytes32(order, ifindex as int);
    lemma_numbers(order, ifindex as int, 0);
    let one = attribute_of(order, 3, value);
    assert(interface_payload(order, command, ifindex).skip(4) =~= one);
    assert(one + none =~= one);
    assert(value.len() == 4);
    law_an_attribute_is_read_as_it_was_written(order, 3, value, none);
    assert(attributes_of(order, none) =~= Seq::<(u16, Seq<u8>)>::empty());
}

/// The numbers the kernel goes by: its end and its errors, the controller of families and what
/// it is asked, and the two questions about an interface.
pub proof fn law_the_kernel_goes_by_its_numbers(order: ByteOrder)
    ensures
        NLMSG_ERROR == 2 && NLMSG_DONE == 3,
        NLM_F_REQUEST_DUMP == 0x301 && NLM_F_REQUEST == 1,
        GENL_ID_CTRL == 0x10 && CTRL_CMD_GETFAMILY == 3,
        NL80211_CMD_GET_STATION == 17 && NL80211_CMD_GET_SCAN == 32,
        family_payload(order) == seq![3u8, 1u8, 0u8, 0u8] + attribute_of(
            order,
            2,
            seq![110u8, 108u8, 56u8, 48u8, 50u8, 49u8, 49u8, 0u8],
        ),
{
    assert(family_payload(order) =~= seq![3u8, 1u8, 0u8, 0u8] + attribute_of(
        order,
        2,
        seq![110u8, 108u8, 56u8, 48u8, 50u8, 49u8, 49u8, 0u8],
    ));
}

/// A message starts with its length, its header counted in, then its kind, its flags and its
/// number, each where the kernel looks for it, and then what it carries.
pub proof fn law_a_message_says_what_it_is_first(
    order: ByteOrder,
    kind: u16,
    flags: u16,
    sequence: u32,
    payload: Seq<u8>,
)
    requires
        16 + payload.len() < 0x1_0000_0000,
    ensures
        ({
            let m = message_of(order, kind, flags, sequence, payload);
            &&& m.len() == 16 + payload.len()
            &&& number32(order, m.subrange(0, 4)) == m.len()
            &&& number16(order, m.subrange(4, 6)) == kind
            &&& number16(order, m.subrange(6, 8)) == flags
            &&& number32(order, m.subrange(8, 12)) == sequence
            &&& number32(order, m.subrange(12, 16)) == 0
            &&& m.skip(16) == payload
        }),
{
    let m = message_of(order, kind, flags, sequence, payload);
    let l = bytes32(order, 16 + payload.len() as int);
    let k = bytes16(order, kind as int);
    let f = bytes16(order, flags as int);
    let q = bytes32(order, sequence as int);
    let z = bytes32(order, 0);
    lemma_numbers(order, 16 + payload.len() as int, kind as int);
    lemma_numbers(order, sequence as int, flags as int);
    lemma_numbers(order, 0, 0);
    assert(l.len() == 4 && k.len() == 2 && f.len() == 2 && q.len() == 4 && z.len() == 4);
    assert(m =~= l + k + f + q + z + payload);
    assert(m.subrange(0, 4) =~= l);
    assert(m.subrange(4, 6) =~= k);
    assert(m.subrange(6, 8) =~= f);
    assert(m.subrange(8, 12) =~= q);
    assert(m.subrange(12, 16) =~= z);
    assert(m.skip(16) =~= payload);
}

/// Each message gets a number of its own: the next one, and round again after the last.
pub proof fn law_a_message_gets_the_next_number(n: u32)
    ensures
        n < u32::MAX ==> next_sequence(n) == n + 1,
        n == u32::MAX ==> next_sequence(n) == 0,
{
}

/// A dump is read until it is over, anything else until it was answered; and what is wrong with
/// an answer is what is wrong with the question.
pub proof fn law_a_dump_is_read_until_it_is_over(code: i32, dump: bool, empty: bool)
    ensures
        goes_on(Ending::Over, dump, empty) == Ok::<bool, Fault>(false),
        goes_on(Ending::Open, true, false) == Ok::<bool, Fault>(true),
        goes_on(Ending::Open, true, true) == Ok::<bool, Fault>(false),
        goes_on(Ending::Open, false, empty) == Ok::<bool, Fault>(false),
        goes_on(Ending::Misfit, dump, empty) == Err::<bool, Fault>(Fault::Misfit),
        goes_on(Ending::Unsaid, dump, empty) == Err::<bool, Fault>(Fault::Unsaid),
        goes_on(Ending::Refused(code), dump, empty) == Err::<bool, Fault>(Fault::Refused(code)),
{
}

/// What the kernel says is over is over, what it refuses is refused for the reason it gives, and
/// an acknowledgement is no refusal.
#[verifier::rlimit(40)]
pub proof fn law_the_kernel_has_the_last_word(
    order: ByteOrder,
    flags: u16,
    sequence: u32,
    payload: Seq<u8>,
    rest: Seq<u8>,
)
    requires
        16 + payload.len() < 0x1_0000_0000,
    ensures
        messages_of(order, message_of(order, 3, flags, sequence, payload) + rest) == (
            Seq::<Seq<u8>>::empty(),
            Ending::Over,
        ),
        payload.len() >= 4 ==> {
            let code = number32(order, payload);
            messages_of(order, message_of(order, 2, flags, sequence, payload) + rest) == (
                Seq::<Seq<u8>>::empty(),
                if code == 0 {
                    Ending::Over
                } else {
                    Ending::Refused(signed32(code) as i32)
                },
            )
        },
        payload.len() < 4 ==> messages_of(
            order,
            message_of(order, 2, flags, sequence, payload) + rest,
        ) == (Seq::<Seq<u8>>::empty(), Ending::Unsaid),
{
    lemma_ending(order, 3, flags, sequence, payload, rest);
    lemma_ending(order, 2, flags, sequence, payload, rest);
}

proof fn lemma_ending(
    order: ByteOrder,
    kind: u16,
    flags: u16,
    sequence: u32,
    payload: Seq<u8>,
    rest: Seq<u8>,
)
    requires
        16 + payload.len() < 0x1_0000_0000,
    ensures
        ({
            let all = message_of(order, kind, flags, sequence, payload) + rest;
            let code = number32(order, payload);
            &&& kind == 3 ==> first_of(order, all) == First::Ends(Ending::Over)
            &&& kind == 2 && payload.len() < 4 ==> first_of(order, all) == First::Ends(
                Ending::Unsaid,
            )
            &&& kind == 2 && payload.len() >= 4 ==> first_of(order, all) == First::Ends(
                if code == 0 {
                    Ending::Over
                } else {
                    Ending::Refused(signed32(code) as i32)
                },
            )
        }),
{
    law_a_message_says_what_it_is_first(order, kind, flags, sequence, payload);
    let m = message_of(order, kind, flags, sequence, payload);
    let all = m + rest;
    assert(number32(order, all) == number32(order, m.subrange(0, 4)));
    assert(all.subrange(4, 6) =~= m.subrange(4, 6));
    if payload.len() >= 4 {
        let behind = all.skip(16);
        assert(behind =~= payload + rest);
        assert(behind[0] == payload[0] && behind[1] == payload[1] && behind[2] == payload[2]
            && behind[3] == payload[3]);
    }
    reveal(first_of);
}

/// An association nobody has a name for is asked about three times at once, and then every
/// thirty seconds.
pub proof fn law_an_association_without_a_name_is_asked_about_again(
    ifindex: u32,
    bssid: Seq<u8>,
    misses: u32,
    then: Instant,
    now: Instant,
)
    requires
        misses < u32::MAX,
    ensures
        ({
            let kept = remembered(ifindex, bssid, None, misses, then);
            &&& kept.misses == misses + 1 && kept.asked == then && kept.ssid is None
            &&& kept.ifindex == ifindex && kept.bssid == bssid
            &&& looked_up(Some(kept), ifindex, bssid, now) == (if misses + 1 < 3 || now.nanos
                >= then.nanos + 30_000_000_000 {
                LookupView::Dump { misses: (misses + 1) as u32 }
            } else {
                LookupView::Cached(None)
            })
        }),
        looked_up(None, ifindex, bssid, now) == (LookupView::Dump { misses: 0 }),
{
}

} // verus!
