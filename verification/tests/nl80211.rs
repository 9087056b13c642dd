use dbar::collect::nl80211::{associated_ssid, attribute, attributes, genl_body, genl_header};
use dbar::collect::nl80211::{lookup, ssid_from_ies, station, ByteOrder, CachedNetwork, Fault};
use dbar::collect::nl80211::{Lookup, Replies, Station, Step, Wireless};
use dbar::collect::nl80211::{CTRL_ATTR_FAMILY_ID, CTRL_ATTR_FAMILY_NAME};
use dbar::collect::nl80211::{NL80211_ATTR_BSS, NL80211_ATTR_IFINDEX, NL80211_ATTR_MAC};
use dbar::collect::nl80211::{NL80211_ATTR_STA_INFO, NL80211_BSS_BEACON_IES, NL80211_BSS_BSSID};
use dbar::collect::nl80211::{NL80211_BSS_INFORMATION_ELEMENTS, NL80211_BSS_MLD_ADDR};
use dbar::collect::nl80211::{NL80211_BSS_STATUS, NL80211_BSS_STATUS_ASSOCIATED};
use dbar::collect::nl80211::{NL80211_BSS_STATUS_IBSS_JOINED, NL80211_CMD_GET_SCAN};
use dbar::collect::nl80211::{NL80211_CMD_GET_STATION, NL80211_STA_INFO_SIGNAL};
use dbar::collect::nl80211::{UNNAMED_INTERVAL, UNNAMED_TRIES};
use dbar::time::Instant;

fn native() -> ByteOrder {
    if 1u16.to_ne_bytes()[0] == 1 {
        ByteOrder::Little
    } else {
        ByteOrder::Big
    }
}

fn one(kind: u16, value: &[u8]) -> Vec<u8> {
    attribute(native(), kind, value)
}

fn all(run: &[u8]) -> Vec<(u16, Vec<u8>)> {
    attributes(native(), run)
}

fn ssid(reply: &[u8], bssid: [u8; 6]) -> Option<String> {
    associated_ssid(native(), reply, bssid)
}

fn later(then: Instant, nanos: u128) -> Instant {
    Instant {
        nanos: then.nanos + nanos,
    }
}

const START: Instant = Instant {
    nanos: 1_000_000_000_000,
};

#[test]
fn an_attribute_is_padded_to_four_bytes() {
    // Seven bytes of name plus the terminator is eight, and the header four.
    let built = one(CTRL_ATTR_FAMILY_NAME, b"nl80211\0");
    assert_eq!(built.len(), 12);
    assert_eq!(u16::from_ne_bytes([built[0], built[1]]) as usize, 12);

    // Five bytes of payload become eight, so the next attribute starts aligned.
    let padded = one(1, b"12345");
    assert_eq!(padded.len(), 12);
    assert_eq!(u16::from_ne_bytes([padded[0], padded[1]]), 9);
}

/// Everything here is bytes off a socket, and a truncated message is nothing to report, not
/// something to crash over.
#[test]
fn a_message_shorter_than_its_own_header_holds_nothing() {
    assert!(genl_body(&[]).is_empty());
    assert!(genl_body(&[1, 2, 3]).is_empty());
    assert!(genl_body(&[1, 2, 3, 4]).is_empty());
    assert_eq!(genl_body(&[1, 2, 3, 4, 9, 9]), &[9, 9]);
    // And what it hands over is walked without reading past it either.
    assert_eq!(all(&genl_body(&[0, 0, 0, 0, 1])).len(), 0);
}

#[test]
fn attributes_are_walked_over_their_padding() {
    let mut run = Vec::new();
    run.extend_from_slice(&one(NL80211_ATTR_IFINDEX, &7u32.to_ne_bytes()));
    run.extend_from_slice(&one(NL80211_ATTR_MAC, b"123456"));

    let found = all(&run);
    assert_eq!(found.len(), 2);
    assert_eq!(found[0].0, NL80211_ATTR_IFINDEX);
    assert_eq!(found[0].1, 7u32.to_ne_bytes());
    assert_eq!(found[1].0, NL80211_ATTR_MAC);
    assert_eq!(found[1].1, b"123456");
}

#[test]
fn a_truncated_attribute_ends_the_walk_rather_than_reading_past_it() {
    let mut run = one(NL80211_ATTR_MAC, b"123456");
    run.truncate(6);
    assert_eq!(all(&run).len(), 0);
}

#[test]
fn attribute_flags_are_not_part_of_the_type() {
    let nested = one(NL80211_ATTR_BSS | 0x8000, b"bss");
    assert_eq!(
        all(&nested).first(),
        Some(&(NL80211_ATTR_BSS, b"bss".to_vec()))
    );
}

const AP: [u8; 6] = [1, 2, 3, 4, 5, 6];
const OTHER_AP: [u8; 6] = [6, 5, 4, 3, 2, 1];

#[test]
fn a_station_reply_carries_the_cache_key_and_signal() {
    let mut details = Vec::new();
    details.extend_from_slice(&one(NL80211_STA_INFO_SIGNAL, &[(-45i8) as u8]));

    let mut reply = genl_header(NL80211_CMD_GET_STATION, 0);
    reply.extend_from_slice(&one(NL80211_ATTR_MAC, &AP));
    reply.extend_from_slice(&one(NL80211_ATTR_STA_INFO | 0x8000, &details));

    assert_eq!(
        station(native(), &reply),
        Some(Station {
            bssid: AP,
            signal: Some(-45),
        })
    );
}

#[test]
fn a_station_with_no_signal_is_still_an_association() {
    let mut reply = genl_header(NL80211_CMD_GET_STATION, 0);
    reply.extend_from_slice(&one(NL80211_ATTR_MAC, &AP));
    reply.extend_from_slice(&one(NL80211_ATTR_STA_INFO | 0x8000, &[]));

    assert_eq!(
        station(native(), &reply),
        Some(Station {
            bssid: AP,
            signal: None,
        })
    );
}

#[test]
fn a_station_reply_without_a_peer_address_is_no_station_at_all() {
    let mut details = Vec::new();
    details.extend_from_slice(&one(NL80211_STA_INFO_SIGNAL, &[(-45i8) as u8]));

    let mut reply = genl_header(NL80211_CMD_GET_STATION, 0);
    reply.extend_from_slice(&one(NL80211_ATTR_STA_INFO | 0x8000, &details));

    assert_eq!(station(native(), &reply), None);
}

#[test]
fn an_ssid_cache_entry_belongs_to_one_interface_and_access_point() {
    let cached = named("Cafe");
    assert!(cached.is_for(3, AP));
    assert!(!cached.is_for(4, AP));
    assert!(!cached.is_for(3, OTHER_AP));
}

fn is_dump(found: &Lookup, after: u32) -> bool {
    matches!(found, Lookup::Dump { misses } if *misses == after)
}

#[test]
fn a_name_is_held_until_the_access_point_changes() {
    let cached = Some(named("Cafe"));
    let much_later = later(START, UNNAMED_INTERVAL * 100);
    assert!(matches!(
        lookup(&cached, 3, AP, much_later),
        Lookup::Cached(Some(name)) if name == "Cafe"
    ));
    assert!(is_dump(&lookup(&cached, 3, OTHER_AP, much_later), 0));
    assert!(is_dump(&lookup(&None, 3, AP, much_later), 0));
}

/// An association appears a moment before the scan cache can name it, so the first misses are
/// retried at once - but not every tick after that, or the cache saves nothing at all.
#[test]
fn an_association_with_no_name_is_retried_at_once_only_so_often() {
    let mut cache = None;
    let mut dumps = 0;
    // A read every two seconds for as long as one wait lasts: what happens after it is the
    // next test's business.
    for read in 0..UNNAMED_INTERVAL / 1_000_000_000 / 2 {
        let now = later(START, read * 2 * 1_000_000_000);
        if let Lookup::Dump { misses } = lookup(&cache, 3, AP, now) {
            dumps += 1;
            cache = Some(unnamed(misses + 1, now));
        }
    }
    assert_eq!(dumps, UNNAMED_TRIES);
}

/// The scan cache is not always slow for a reason of the association's own, so a name that
/// turns up late has to reach the bar rather than being shut out for good.
#[test]
fn an_association_with_no_name_is_asked_about_again_later() {
    let cache = Some(unnamed(UNNAMED_TRIES, START));
    assert!(matches!(
        lookup(&cache, 3, AP, later(START, UNNAMED_INTERVAL / 2)),
        Lookup::Cached(None)
    ));
    assert!(is_dump(
        &lookup(&cache, 3, AP, later(START, UNNAMED_INTERVAL)),
        UNNAMED_TRIES
    ));

    let settled = Some(unnamed(UNNAMED_TRIES * 1000, START));
    assert!(is_dump(
        &lookup(&settled, 3, AP, later(START, UNNAMED_INTERVAL)),
        UNNAMED_TRIES * 1000
    ));
}

fn named(ssid: &str) -> CachedNetwork {
    CachedNetwork {
        ifindex: 3,
        bssid: AP,
        ssid: Some(ssid.to_string()),
        misses: 0,
        asked: START,
    }
}

fn unnamed(misses: u32, asked: Instant) -> CachedNetwork {
    CachedNetwork {
        ifindex: 3,
        bssid: AP,
        ssid: None,
        misses,
        asked,
    }
}

#[test]
fn only_an_associated_scan_result_supplies_its_ssid() {
    let reply = scan_reply(
        AP,
        NL80211_BSS_STATUS_ASSOCIATED,
        Some(b"\x00\x04Cafe"),
        None,
    );
    assert_eq!(ssid(&reply, AP).as_deref(), Some("Cafe"));

    let authenticated = scan_reply(AP, 0, Some(b"\x00\x0aNot joined"), None);
    assert_eq!(ssid(&authenticated, AP), None);
}

#[test]
fn an_associated_entry_for_another_access_point_is_not_ours() {
    let reply = scan_reply(
        OTHER_AP,
        NL80211_BSS_STATUS_ASSOCIATED,
        Some(b"\x00\x08Next door"),
        None,
    );
    assert_eq!(ssid(&reply, AP), None);
}

/// An IBSS cell's address belongs to no one station, so the peer cannot be matched against it
/// and the status has to be enough.
#[test]
fn beacon_ies_supply_the_ssid_when_probe_ies_do_not() {
    let reply = scan_reply(
        OTHER_AP,
        NL80211_BSS_STATUS_IBSS_JOINED,
        Some(&[1, 1, 0x82]),
        Some(b"\x00\x04mesh"),
    );
    assert_eq!(ssid(&reply, AP).as_deref(), Some("mesh"));
}

#[test]
fn a_hidden_networks_empty_name_falls_through_to_the_other_elements() {
    assert_eq!(ssid_from_ies(&[0, 0]), None);

    let reply = scan_reply(
        AP,
        NL80211_BSS_STATUS_ASSOCIATED,
        Some(b"\x00\x00"),
        Some(b"\x00\x04Cafe"),
    );
    assert_eq!(ssid(&reply, AP).as_deref(), Some("Cafe"));
}

/// A multi-link association is a station at the device's own address, and the BSS behind it is
/// one link with a BSSID that is not that address.
#[test]
fn a_multi_link_association_is_found_by_the_devices_own_address() {
    const MLD: [u8; 6] = [0xaa, 0xbb, 0xcc, 0xdd, 0xee, 0xff];

    let mut bss = Vec::new();
    bss.extend_from_slice(&one(NL80211_BSS_BSSID, &AP));
    bss.extend_from_slice(&one(NL80211_BSS_MLD_ADDR, &MLD));
    bss.extend_from_slice(&one(
        NL80211_BSS_STATUS,
        &NL80211_BSS_STATUS_ASSOCIATED.to_ne_bytes(),
    ));
    bss.extend_from_slice(&one(NL80211_BSS_INFORMATION_ELEMENTS, b"\x00\x04Cafe"));

    let mut reply = genl_header(NL80211_CMD_GET_SCAN, 0);
    reply.extend_from_slice(&one(NL80211_ATTR_BSS | 0x8000, &bss));

    assert_eq!(ssid(&reply, MLD).as_deref(), Some("Cafe"));
    // The link's own address still answers, which is what a station dump gives when the
    // association is not a multi-link one.
    assert_eq!(ssid(&reply, AP).as_deref(), Some("Cafe"));
    assert_eq!(ssid(&reply, OTHER_AP), None);
}

#[test]
fn a_malformed_information_element_is_not_read_past_its_length() {
    assert_eq!(ssid_from_ies(&[1, 8, 1, 2]), None);
    assert_eq!(ssid_from_ies(&[1]), None);
}

fn scan_reply(
    bssid: [u8; 6],
    status: u32,
    probe_ies: Option<&[u8]>,
    beacon_ies: Option<&[u8]>,
) -> Vec<u8> {
    let mut bss = Vec::new();
    bss.extend_from_slice(&one(NL80211_BSS_BSSID, &bssid));
    bss.extend_from_slice(&one(NL80211_BSS_STATUS, &status.to_ne_bytes()));
    if let Some(ies) = probe_ies {
        bss.extend_from_slice(&one(NL80211_BSS_INFORMATION_ELEMENTS, ies));
    }
    if let Some(ies) = beacon_ies {
        bss.extend_from_slice(&one(NL80211_BSS_BEACON_IES, ies));
    }

    let mut reply = genl_header(NL80211_CMD_GET_SCAN, 0);
    reply.extend_from_slice(&one(NL80211_ATTR_BSS | 0x8000, &bss));
    reply
}

#[test]
fn a_name_that_is_not_utf8_is_shown_all_the_same() {
    assert_eq!(
        ssid_from_ies(&[0, 2, 0xff, b'x']).as_deref(),
        Some("\u{fffd}x")
    );
}

#[test]
fn both_byte_orders_read_what_they_wrote() {
    for order in [ByteOrder::Little, ByteOrder::Big] {
        let run = attribute(order, 5, b"abc");
        assert_eq!(attributes(order, &run), vec![(5u16, b"abc".to_vec())]);
    }
    assert_eq!(attribute(ByteOrder::Little, 5, b"a")[..4], [5, 0, 5, 0]);
    assert_eq!(attribute(ByteOrder::Big, 5, b"a")[..4], [0, 5, 0, 5]);
}

fn message(kind: u16, payload: &[u8]) -> Vec<u8> {
    let mut out = Vec::new();
    out.extend_from_slice(&(16 + payload.len() as u32).to_ne_bytes());
    out.extend_from_slice(&kind.to_ne_bytes());
    out.extend_from_slice(&[0; 10]);
    out.extend_from_slice(payload);
    while out.len() % 4 != 0 {
        out.push(0);
    }
    out
}

#[test]
fn a_dump_is_read_until_the_kernel_says_so() {
    let mut replies = Replies::new();
    let mut run = message(20, b"one");
    run.extend_from_slice(&message(20, b"three"));
    assert_eq!(replies.receive(native(), &run, true), Ok(true));
    assert_eq!(replies.bodies, vec![b"one".to_vec(), b"three".to_vec()]);
    assert_eq!(replies.receive(native(), &message(3, &[]), true), Ok(false));
    assert_eq!(replies.receive(native(), &[], true), Ok(false));
    // A plain request is answered at once, and nothing follows.
    assert_eq!(
        Replies::new().receive(native(), &message(20, b"x"), false),
        Ok(false)
    );
}

#[test]
fn a_reply_that_is_wrong_says_how() {
    let wrong = |bytes: &[u8]| Replies::new().receive(native(), bytes, true);
    assert_eq!(wrong(&message(2, &0i32.to_ne_bytes())), Ok(false));
    assert_eq!(
        wrong(&message(2, &(-19i32).to_ne_bytes())),
        Err(Fault::Refused(-19))
    );
    assert_eq!(wrong(&message(2, &[1, 2])), Err(Fault::Unsaid));
    let mut long = message(20, b"abcd");
    long[..4].copy_from_slice(&99u32.to_ne_bytes());
    assert_eq!(wrong(&long), Err(Fault::Misfit));
    let mut wireless = Wireless::new();
    assert_eq!(
        wireless.resolve_family(native(), &Replies::new()),
        Err(Fault::NoFamily)
    );
}

#[test]
fn the_wireless_stack_is_asked_by_its_own_number() {
    let order = native();
    let mut wireless = Wireless::new();
    let asked = wireless.ask_family(order);
    assert_eq!(asked.len(), 16 + 4 + 12);
    assert_eq!(&asked[24..32], b"nl80211\0");

    let mut body = genl_header(1, 1);
    body.extend_from_slice(&one(CTRL_ATTR_FAMILY_ID, &28u16.to_ne_bytes()));
    let mut replies = Replies::new();
    assert_eq!(replies.receive(order, &message(16, &body), false), Ok(false));
    assert_eq!(wireless.resolve_family(order, &replies), Ok(()));
    assert_eq!(wireless.family, 28);

    let asked = wireless.ask(order, NL80211_CMD_GET_STATION, 3);
    assert_eq!(u16::from_ne_bytes([asked[4], asked[5]]), 28);
    assert_eq!(u32::from_ne_bytes([asked[8], asked[9], asked[10], asked[11]]), 2);
    assert_eq!(&asked[24..28], &3u32.to_ne_bytes());
}

#[test]
fn a_name_is_dumped_for_once_and_forgotten_with_the_association() {
    let order = native();
    let mut wireless = Wireless::new();
    let there = Station {
        bssid: AP,
        signal: Some(-50),
    };
    let Step::Dump { station, misses } = wireless.state_of(3, Some(there), START) else {
        panic!("nothing is known yet");
    };
    assert_eq!((station, misses), (there, 0));

    let mut replies = Replies::new();
    let scan = scan_reply(
        AP,
        NL80211_BSS_STATUS_ASSOCIATED,
        Some(b"\x00\x04Cafe"),
        None,
    );
    assert_eq!(replies.receive(order, &message(28, &scan), true), Ok(true));
    let ssid = replies.ssid(order, AP);
    assert_eq!(ssid.as_deref(), Some("Cafe"));
    wireless.remember(3, station, misses, ssid, START);

    assert!(matches!(
        wireless.state_of(3, Some(there), START),
        Step::Answer { ssid: Some(name), signal: Some(-50) } if name == "Cafe"
    ));
    assert!(matches!(
        wireless.state_of(3, None, START),
        Step::Answer {
            ssid: None,
            signal: None
        }
    ));
    assert!(wireless.network.is_none());
}
