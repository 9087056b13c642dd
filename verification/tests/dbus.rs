use std::collections::VecDeque;

use dbar::dbus::bus::{answered, name_request, socket_path, sort_arrival, Bus, NameRequest};
use dbar::dbus::message::{build_message, parse_message, Kind};
use dbar::dbus::reader::Reader;
use dbar::dbus::signature::{split_type, Fault};
use dbar::dbus::value::Value;
use dbar::dbus::writer::{Arg, Writer};

fn read(bytes: &[u8], signature: &str) -> Result<Value, Fault> {
    let signature: Vec<char> = signature.chars().collect();
    Reader::new(bytes).value(&signature)
}

#[test]
fn a_bus_address_names_its_socket() {
    assert_eq!(
        socket_path("unix:path=/run/user/1000/bus").as_deref(),
        Some("/run/user/1000/bus")
    );
    assert_eq!(
        socket_path("unix:path=/run/user/1000/bus,guid=deadbeef").as_deref(),
        Some("/run/user/1000/bus")
    );
    // Several addresses, and the first usable one wins.
    assert_eq!(
        socket_path("tcp:host=localhost,port=1;unix:path=/tmp/bus").as_deref(),
        Some("/tmp/bus")
    );
    assert_eq!(socket_path("tcp:host=localhost,port=1"), None);
}

#[test]
fn a_signature_is_split_into_whole_types() {
    assert_eq!(split_type("s").unwrap(), ("s", ""));
    assert_eq!(split_type("sv").unwrap(), ("s", "v"));
    assert_eq!(split_type("a{sv}s").unwrap(), ("a{sv}", "s"));
    assert_eq!(split_type("(sub)a{ss}").unwrap(), ("(sub)", "a{ss}"));
    assert_eq!(split_type("aas").unwrap(), ("aas", ""));
    assert!(split_type("a{sv").is_err());
}

/// Marshal what the bus would send for `a{sv}`, so the reader is tested against the shape a
/// property bundle actually arrives in.
fn properties(entries: &[(&str, char, &str)]) -> Vec<u8> {
    let mut out = Writer::new();
    // The length comes first, then the entries on the eight-byte boundary a dict entry has to
    // start on.
    out.u32(0);
    out.align(8);
    let start = out.bytes.len();
    for (key, kind, value) in entries {
        out.align(8);
        out.string(key);
        out.signature(&kind.to_string());
        match kind {
            's' => out.string(value),
            'b' => out.u32(u32::from(*value == "true")),
            _ => panic!("the fixture only writes strings and booleans"),
        }
    }
    let length = (out.bytes.len() - start) as u32;
    out.bytes[..4].copy_from_slice(&length.to_le_bytes());
    out.bytes
}

#[test]
fn a_property_bundle_reads_back_as_a_map() {
    let bytes = properties(&[
        ("PlaybackStatus", 's', "Playing"),
        ("CanPlay", 'b', "true"),
        ("Identity", 's', "A Player"),
    ]);
    let value = read(&bytes, "a{sv}").expect("the fixture is well formed");

    assert_eq!(
        value.get("PlaybackStatus").and_then(Value::as_str),
        Some("Playing")
    );
    assert_eq!(value.get("CanPlay"), Some(&Value::Bool(true)));
    assert_eq!(
        value.get("Identity").and_then(Value::as_str),
        Some("A Player")
    );
    assert_eq!(value.get("Missing"), None);
}

#[test]
fn an_artist_is_read_whether_it_is_one_name_or_a_list() {
    let one = Value::Str("Someone".to_string());
    assert_eq!(one.first_str(), Some("Someone"));

    let several = Value::List(vec![
        Value::Str("First".to_string()),
        Value::Str("Second".to_string()),
    ]);
    assert_eq!(several.first_str(), Some("First"));

    assert_eq!(Value::List(Vec::new()).first_str(), None);
}

/// Write one value and read it straight back. A marshaller is only ever wrong by a byte of
/// padding, and the bus refuses such a message without saying which byte.
fn round_trip(value: &Arg) -> Value {
    let mut out = Writer::new();
    out.arg(value);
    read(&out.bytes, &value.signature()).expect("what was just written reads back")
}

#[test]
fn every_value_dbar_writes_reads_back_as_itself() {
    assert_eq!(round_trip(&Arg::Bool(true)), Value::Bool(true));
    assert_eq!(round_trip(&Arg::Bool(false)), Value::Bool(false));
    assert_eq!(round_trip(&Arg::I32(-7)), Value::Int(-7));
    assert_eq!(
        round_trip(&Arg::U32(4_000_000_000)),
        Value::Int(4_000_000_000)
    );
    assert_eq!(round_trip(&Arg::Str("hello")), Value::Str("hello".into()));
    assert_eq!(round_trip(&Arg::Str("")), Value::Str(String::new()));
    assert_eq!(
        round_trip(&Arg::Path("/StatusNotifierItem")),
        Value::Str("/StatusNotifierItem".into())
    );
    assert_eq!(round_trip(&Arg::Sig("a{sv}")), Value::Str("a{sv}".into()));
}

#[test]
fn a_variant_reads_back_as_what_it_wrapped() {
    assert_eq!(round_trip(&Arg::Var(&Arg::I32(3))), Value::Int(3));
    assert_eq!(
        round_trip(&Arg::Var(&Arg::Str("Passive"))),
        Value::Str("Passive".into())
    );
}

#[test]
fn an_array_reads_back_with_its_elements_in_order() {
    let items = vec![Arg::Str("one"), Arg::Str("two"), Arg::Str("three")];
    let value = round_trip(&Arg::Array("s", items));
    let read: Vec<&str> = value.items().iter().filter_map(Value::as_str).collect();
    assert_eq!(read, ["one", "two", "three"]);

    // An empty array still says what it is empty of, and reads back as nothing.
    assert_eq!(
        round_trip(&Arg::Array("s", Vec::new())),
        Value::List(Vec::new())
    );
}

/// `a{sv}` is what every `GetAll` answers with, and its entries are the one place eight-byte
/// alignment inside an array is load-bearing.
#[test]
fn a_property_bundle_dbar_writes_reads_back_as_a_map() {
    let entries = vec![
        ("Id", Arg::Str("dbar")),
        ("ProtocolVersion", Arg::I32(0)),
        ("IsStatusNotifierHostRegistered", Arg::Bool(true)),
    ];
    let value = round_trip(&Arg::Dict(entries));
    assert_eq!(value.get("Id").and_then(Value::as_str), Some("dbar"));
    assert_eq!(value.get("ProtocolVersion"), Some(&Value::Int(0)));
    assert_eq!(
        value.get("IsStatusNotifierHostRegistered"),
        Some(&Value::Bool(true))
    );
}

/// Padding is only visible when one value has to push the next along, so the sizes are
/// deliberately awkward.
#[test]
fn values_after_an_odd_one_are_still_aligned() {
    let mut out = Writer::new();
    for value in [Arg::Bool(true), Arg::Str("x"), Arg::U32(9), Arg::Str("yz")] {
        out.arg(&value);
    }
    let mut reader = Reader::new(&out.bytes);
    assert_eq!(reader.value(&['b']).unwrap(), Value::Bool(true));
    assert_eq!(reader.value(&['s']).unwrap(), Value::Str("x".into()));
    assert_eq!(reader.value(&['u']).unwrap(), Value::Int(9));
    assert_eq!(reader.value(&['s']).unwrap(), Value::Str("yz".into()));
}

/// A whole message, marshalled and parsed back: the header fields, the body and the serial a
/// reply has to quote all have to agree at once.
#[test]
fn a_message_dbar_builds_parses_back_as_itself() {
    let raw = build_message(
        42,
        4, // a signal
        1,
        &vec![
            (1u8, Arg::Path("/StatusNotifierWatcher")),
            (2u8, Arg::Str("org.kde.StatusNotifierWatcher")),
            (3u8, Arg::Str("StatusNotifierItemRegistered")),
            (8u8, Arg::Sig("s")),
        ],
        &vec![Arg::Str(":1.72/StatusNotifierItem")],
    );
    let message = parse_message(&raw).expect("what was just built parses");
    assert_eq!(message.serial, 42);
    assert!(message.is_signal(
        "org.kde.StatusNotifierWatcher",
        "StatusNotifierItemRegistered"
    ));
    assert_eq!(message.path.as_deref(), Some("/StatusNotifierWatcher"));
    assert_eq!(
        message.body.first().and_then(Value::as_str),
        Some(":1.72/StatusNotifierItem")
    );
}

/// A reply quotes the serial of the call it answers and is addressed back at whoever made it,
/// or the caller waits for its own timeout instead.
#[test]
fn a_reply_names_the_call_it_answers() {
    let raw = build_message(
        8,
        2,
        1,
        &vec![
            (5u8, Arg::U32(1234)),
            (6u8, Arg::Str(":1.9")),
            (8u8, Arg::Sig("v")),
        ],
        &vec![Arg::Var(&Arg::I32(0))],
    );
    let message = parse_message(&raw).expect("a reply parses");
    assert_eq!(message.kind, Kind::Return);
    assert_eq!(message.reply_serial, Some(1234));
    assert_eq!(message.body.first(), Some(&Value::Int(0)));
}

/// An icon arrives as `ay`, and reading it a byte at a time would cost thirty-two bytes for
/// every one on the wire.
#[test]
fn a_byte_array_is_read_as_bytes() {
    let mut out = Writer::new();
    let pixels: Vec<u8> = (0..64u8).collect();
    out.u32(pixels.len() as u32);
    out.bytes.extend_from_slice(&pixels);
    let value = read(&out.bytes, "ay").expect("bytes read back");
    assert_eq!(value.as_bytes(), Some(pixels.as_slice()));
}

#[test]
fn a_truncated_message_is_an_error_rather_than_a_panic() {
    let bytes = properties(&[("PlaybackStatus", 's', "Playing")]);
    for cut in 1..bytes.len() {
        // Whatever it stops at, it says so rather than reading past the end.
        let _ = read(&bytes[..cut], "a{sv}");
    }
}

#[test]
fn each_fault_has_bytes_that_give_it() {
    assert_eq!(parse_message(&[0x6c, 1]).err(), Some(Fault::ShortHeader));
    let mut raw = build_message(1, 2, 0, &Vec::new(), &Vec::new());
    raw[0] = b'B';
    assert_eq!(parse_message(&raw).err(), Some(Fault::BigEndian));
    raw[0] = b'l';
    raw[1] = 9;
    assert_eq!(parse_message(&raw).err(), Some(Fault::UnknownKind(9)));
    assert_eq!(split_type(")").err(), Some(Fault::UnopenedBracket));
    assert_eq!(split_type("(").err(), Some(Fault::UnfinishedSignature));
    assert_eq!(read(&[1, 0], "u").err(), Some(Fault::Truncated));
    assert_eq!(read(&[9, 0, 0, 0], "as").err(), Some(Fault::ArrayTooLong));
    assert_eq!(read(&[], "").err(), Some(Fault::EmptyType));
    assert_eq!(read(&[0; 8], "z").err(), Some(Fault::UnknownType('z')));
    assert_eq!(read(&[1, 0, 0, 0, 0, 0, 0, 0, 0], "a()").err(), Some(Fault::Stuck));
}

#[test]
fn text_that_is_not_utf8_is_read_all_the_same() {
    // A length of two, two bytes that encode nothing, and the terminator.
    let value = read(&[2, 0, 0, 0, 0xff, 0xfe, 0], "s").expect("it is a string");
    assert_eq!(value.as_str(), Some("\u{fffd}\u{fffd}"));
    let value = read(&[2, 0, 0, 0, 0xc3, 0xa9, 0], "s").expect("it is a string");
    assert_eq!(value.as_str(), Some("\u{e9}"));
}

#[test]
fn a_stream_of_messages_is_taken_apart_where_they_meet() {
    let mut bus = Bus::new();
    let (first, one) = bus.call_message(":1.1", "/a", "b.c", "D", &vec![Arg::Str("x")]);
    let (second, two) = bus.call_message(":1.1", "/a", "b.c", "E", &Vec::new());
    assert_eq!((first, second), (1, 2));

    let mut reader = Bus::new();
    reader.feed(&one[..10]);
    assert!(reader.take_message().expect("not enough yet").is_none());
    reader.feed(&one[10..]);
    reader.feed(&two);
    let message = reader.take_message().expect("whole").expect("there is one");
    assert!(message.is_call("b.c", "D"));
    assert_eq!(message.body, vec![Value::Str("x".to_string())]);
    let message = reader.take_message().expect("whole").expect("another");
    assert!(message.is_call("b.c", "E"));
    assert!(reader.take_message().expect("no more").is_none());
}

#[test]
fn what_arrives_before_an_answer_is_held_and_not_lost() {
    let mut bus = Bus::new();
    let signal = bus.signal_message("/p", "i.f", "Changed", &Vec::new());
    let signal = parse_message(&signal).expect("it parses");
    let reply = build_message(
        9,
        2,
        1,
        &vec![(5u8, Arg::U32(7)), (8u8, Arg::Sig("b"))],
        &vec![Arg::Bool(true)],
    );
    let reply = parse_message(&reply).expect("it parses");

    let mut held = VecDeque::new();
    assert!(sort_arrival(&mut held, signal, 7).is_none());
    let answer = sort_arrival(&mut held, reply, 7).expect("this answers it");
    assert_eq!(held.len(), 1);
    assert_eq!(
        answered(answer, "Get").expect("not an error"),
        vec![Value::Bool(true)]
    );
    bus.set_aside(held);
    assert!(bus.has_deferred());
    assert!(bus.take_deferred().expect("held").is_signal("i.f", "Changed"));
    assert!(!bus.has_deferred());
}

#[test]
fn a_refusal_says_what_the_other_side_named_it() {
    let mut bus = Bus::new();
    let (_, call) = bus.call_message(":1.1", "/a", "b.c", "D", &Vec::new());
    let call = parse_message(&call).expect("it parses");
    let error = bus.error_message(&call, "org.example.No", "not today");
    let failed = answered(parse_message(&error).expect("it parses"), "D").expect_err("an error");
    assert_eq!(failed.member, "D");
    assert_eq!(failed.name, "org.example.No");
    assert_eq!(failed.detail, "not today");
}

#[test]
fn a_name_is_ours_or_says_why_not() {
    assert_eq!(name_request(&vec![Value::Int(1)]), Ok(NameRequest::Owner));
    assert_eq!(name_request(&vec![Value::Int(2)]), Ok(NameRequest::Queued));
    assert_eq!(name_request(&vec![Value::Int(3)]), Ok(NameRequest::Taken));
    assert_eq!(
        name_request(&vec![Value::Int(4)]),
        Ok(NameRequest::AlreadyOurs)
    );
    assert_eq!(name_request(&vec![Value::Int(5)]), Err(Some(5)));
    assert_eq!(name_request(&Vec::new()), Err(None));
}

#[test]
fn what_arrives_ahead_of_an_answer_comes_out_in_order() {
    let mut bus = Bus::new();
    let mut held = VecDeque::new();
    for member in ["First", "Second", "Third"] {
        let signal = bus.signal_message("/a", "i.f", member, &Vec::new());
        let signal = parse_message(&signal).expect("it parses");
        assert!(sort_arrival(&mut held, signal, 77).is_none());
    }
    bus.set_aside(held);
    for member in ["First", "Second", "Third"] {
        assert!(bus.has_deferred());
        assert!(bus.take_deferred().expect("held").is_signal("i.f", member));
    }
    assert!(!bus.has_deferred());
    assert!(bus.take_deferred().is_none());
}
