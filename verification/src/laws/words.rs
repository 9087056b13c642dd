//! Where a refusal says it is, what is watched, and what the words of others mean.

use crate::collect::audio::card_said;
use crate::collect::media::{own_name, Command};
use crate::collect::network::{self, SampleView};
use crate::collect::watch::{reported, Report};
use crate::collect::which::{watched_by, WatchView, WhichView};
use crate::config::module::ModuleView;
use crate::config::refusal::{details, dotted, message_text, place_text, wording, RefusalView};
use crate::config::whole::{font_parts, needed, span, Need};
use crate::dbus::bus::{pair_socket, pairs_socket, way_socket, ways_socket};
use crate::dbus::value::ValueView as ReplyView;
use crate::laws::text::{free_of, law_a_text_is_parted_at_the_first};
use crate::laws::text::{law_a_text_is_parted_at_the_last, law_trimming_takes_the_spaces_around};
use crate::status::{State, ValueView};
use crate::table::{inserted, slot};
use crate::text::{has_text, is_blank, is_float, is_space, pieces, stands_at, whole_number};
use crate::text::{all_digits, digits_value, is_digit, text_before};
use vstd::prelude::*;

verus! {

/// A text that is put between two others stands in what they make.
proof fn lemma_stands(a: Seq<char>, s: Seq<char>, b: Seq<char>)
    ensures
        has_text(a + s + b, s),
{
    let all = a + s + b;
    assert(all.subrange(a.len() as int, a.len() + s.len() as int) =~= s);
    assert(stands_at(all, s, a.len() as int));
}

/// A refusal says where it is first: the table, in brackets, its names dotted, and the key; and
/// what it is about stands in it.
pub proof fn law_a_refusal_says_where_it_is(e: RefusalView, a: Seq<char>, b: Seq<char>)
    ensures
        e.at.tables == seq![a, b] && e.at.key.len() == 0 ==> {
            let front = "["@ + a + ("."@ + b) + "]: "@;
            stands_at(message_text(e), front, 0)
        },
        e.at.tables == seq![a, b] && e.at.key.len() > 0 ==> {
            let front = "["@ + a + ("."@ + b) + ("] "@ + e.at.key + ": "@);
            stands_at(message_text(e), front, 0)
        },
        e.at.tables.len() == 0 ==> place_text(e.at).len() == 0,
        has_text(message_text(e), e.slip.word),
        has_text(message_text(e), e.slip.other),
{
    let w = wording(e.slip.why);
    let d = details(e.slip.why);
    let place = place_text(e.at);
    let all = message_text(e);
    assert(all =~= (place + w.0 + d + w.1) + e.slip.word + (w.2 + e.slip.other + w.3));
    lemma_stands(place + w.0 + d + w.1, e.slip.word, w.2 + e.slip.other + w.3);
    assert(all =~= (place + w.0 + d + w.1 + e.slip.word + w.2) + e.slip.other + w.3);
    lemma_stands(place + w.0 + d + w.1 + e.slip.word + w.2, e.slip.other, w.3);
    if e.at.tables == seq![a, b] {
        reveal_with_fuel(dotted, 3);
        assert(dotted(e.at.tables, 2) =~= Seq::<char>::empty());
        assert(dotted(e.at.tables, 1) =~= "."@ + b);
        let end = if e.at.key.len() == 0 {
            "]: "@
        } else {
            "] "@ + e.at.key + ": "@
        };
        let front = "["@ + a + ("."@ + b) + end;
        assert(place =~= front);
        assert(all.subrange(0, place.len() as int) =~= place);
    }
}

/// A battery is watched by what the kernel says of power supplies, the backlight by its own
/// file, and nothing else is watched.
pub proof fn law_what_is_watched(w: WhichView, path: Option<Seq<char>>)
    ensures
        w is Battery ==> watched_by(w, path) == Some(WatchView::Uevent("power_supply"@)),
        w is Backlight ==> watched_by(w, path) == (match path {
            Some(p) => Some(WatchView::Attribute(p)),
            None => None,
        }),
        !(w is Battery) && !(w is Backlight) ==> watched_by(w, path) is None,
{
}

/// A watched file that says something has changed; one that says nothing, or is gone, is gone.
pub proof fn law_a_file_that_says_nothing_is_gone(text: Seq<char>)
    ensures
        reported(None) == Report::Gone,
        reported(Some(text)) == Report::Moved <==> exists|i: int|
            0 <= i < text.len() && !is_space(#[trigger] text[i]),
        reported(Some(text)) != Report::Quiet,
{
}

/// What a player is told is what it is called.
pub proof fn law_a_player_is_told_by_name(c: Command)
    ensures
        c is PlayPause ==> c.method() == "PlayPause"@,
        c is Next ==> c.method() == "Next"@,
        c is Previous ==> c.method() == "Previous"@,
{
}

/// A counter that went back, another interface, or a clock that did not move is no rate.
pub proof fn law_a_counter_that_went_back_is_no_rate(
    now: SampleView,
    last: SampleView,
    ssid: Option<Seq<char>>,
    dbm: Option<i8>,
)
    ensures
        ({
            let r = network::shown(now, Some(last), ssid, dbm);
            let first = network::shown(now, None, ssid, dbm);
            &&& now.received < last.received || last.device != now.device || now.at.nanos
                <= last.at.nanos ==> r.fields.values["down"@] == ValueView::Absent
            &&& now.sent < last.sent || last.device != now.device || now.at.nanos <= last.at.nanos
                ==> r.fields.values["up"@] == ValueView::Absent
            &&& first.fields.values["down"@] == ValueView::Absent
            &&& first.fields.values["up"@] == ValueView::Absent
        }),
{
    reveal_strlit("down");
    reveal_strlit("up");
    reveal_strlit("device");
    reveal_strlit("state");
    reveal_strlit("ssid");
    reveal_strlit("signal");
    reveal_strlit("dbm");
    reveal_strlit("received");
    reveal_strlit("sent");
    assert("down"@.len() == 4 && "up"@.len() == 2 && "device"@.len() == 6 && "state"@.len() == 5);
    assert("ssid"@.len() == 4 && "signal"@.len() == 6 && "dbm"@.len() == 3 && "received"@.len()
        == 8 && "sent"@.len() == 4);
    assert("down"@[0] == 'd' && "ssid"@[1] == 's' && "sent"@[1] == 'e' && "ssid"@[0] == 's'
        && "sent"@[0] == 's');
}

/// A font is a family and a size, apart from the last space in it; and where no number is behind
/// that, all of it is the family.
pub proof fn law_a_font_is_a_family_and_a_size(family: Seq<char>, size: Seq<char>)
    requires
        family.len() > 0 && !is_space(family[0]) && !is_space(family.last()),
        size.len() > 0 && !is_space(size.last()),
        free_of(size, ' '),
    ensures
        is_float(size) ==> font_parts(family + seq![' '] + size) == (family, Some(size)),
        !is_float(size) ==> font_parts(family + seq![' '] + size) == (
            family + seq![' '] + size,
            None::<Seq<char>>,
        ),
{
    let all = family + seq![' '] + size;
    assert(all[0] == family[0]);
    assert(all.last() == size.last());
    law_trimming_takes_the_spaces_around(Seq::empty(), all, Seq::empty());
    assert(Seq::<char>::empty() + all + Seq::<char>::empty() =~= all);
    law_a_text_is_parted_at_the_last(family, ' ', size);
    law_trimming_takes_the_spaces_around(Seq::empty(), family, Seq::empty());
    assert(Seq::<char>::empty() + family + Seq::<char>::empty() =~= family);
    assert(!is_blank(family)) by {
        assert(!is_space(family[0]));
    }
}

/// Something is needed exactly where some module shows it.
pub proof fn law_what_is_shown_is_needed(modules: Seq<ModuleView>, i: int)
    requires
        0 <= i < modules.len(),
    ensures
        modules[i].source is Tray ==> needed(modules, Need::Tray),
        modules[i].source is SwayLanguage ==> needed(modules, Need::Language),
        modules[i].source is SwayMode ==> needed(modules, Need::Mode),
        modules[i].source is SwayWindow ==> needed(modules, Need::Windows),
        modules[i].source is SwayWorkspaces ==> needed(modules, Need::Workspaces),
        (forall|j: int| 0 <= j < modules.len() ==> (#[trigger] modules[j]).source is Native)
            ==> !needed(modules, Need::Tray) && !needed(modules, Need::Language) && !needed(
            modules,
            Need::Mode,
        ) && !needed(modules, Need::Windows) && !needed(modules, Need::Workspaces),
{
}

/// There are as many signals as lie between the first and the last.
pub proof fn law_signals_are_counted_from_the_first(first: i32, last: i32)
    ensures
        last <= first ==> span(first as int, last as int) == 0,
        first < last && last - first <= i32::MAX ==> span(first as int, last as int) == last
            - first,
{
}

/// A minus in front of digits makes the number they write negative.
pub proof fn law_a_minus_makes_a_number_negative(digits: Seq<char>, most: nat)
    requires
        digits.len() > 0,
        all_digits(digits),
        digits_value(digits) <= most,
    ensures
        whole_number(seq!['-'] + digits, most) == Some(-(digits_value(digits) as int)),
{
    assert((seq!['-'] + digits).drop_first() =~= digits);
}

/// A socket is where a path leads, and in no directory at all where it is an abstract one.
pub proof fn law_a_pair_names_a_socket(value: Seq<char>)
    ensures
        pair_socket("path"@ + seq!['='] + value) == Some(value),
        pair_socket("abstract"@ + seq!['='] + value) == Some(seq!['\0'] + value),
        pair_socket("guid"@ + seq!['='] + value) is None,
{
    reveal_strlit("path");
    reveal_strlit("abstract");
    reveal_strlit("guid");
    assert("path"@.len() == 4 && "abstract"@.len() == 8 && "guid"@.len() == 4);
    assert("path"@[0] == 'p' && "guid"@[0] == 'g');
    assert(free_of("path"@, '='));
    assert(free_of("abstract"@, '='));
    assert(free_of("guid"@, '='));
    law_a_text_is_parted_at_the_first("path"@, '=', value);
    law_a_text_is_parted_at_the_first("abstract"@, '=', value);
    law_a_text_is_parted_at_the_first("guid"@, '=', value);
}

/// The first pair that names a socket is the one, and so is the first way to connect that does.
pub proof fn law_the_first_socket_is_the_one(
    pairs: Seq<Seq<char>>,
    ways: Seq<Seq<char>>,
    i: int,
)
    ensures
        0 <= i < pairs.len() && pair_socket(pairs[i]) is Some && (forall|j: int|
            0 <= j < i ==> pair_socket(#[trigger] pairs[j]) is None) ==> pairs_socket(pairs, 0)
            == pair_socket(pairs[i]),
        0 <= i < ways.len() && way_socket(ways[i]) is Some && (forall|j: int|
            0 <= j < i ==> way_socket(#[trigger] ways[j]) is None) ==> ways_socket(ways, 0)
            == way_socket(ways[i]),
{
    lemma_pairs_socket(pairs, 0, i);
    lemma_ways_socket(ways, 0, i);
}

proof fn lemma_pairs_socket(pairs: Seq<Seq<char>>, from: int, i: int)
    requires
        0 <= from,
    ensures
        from <= i < pairs.len() && pair_socket(pairs[i]) is Some && (forall|j: int|
            from <= j < i ==> pair_socket(#[trigger] pairs[j]) is None) ==> pairs_socket(
            pairs,
            from,
        ) == pair_socket(pairs[i]),
    decreases pairs.len() - from,
{
    if from < pairs.len() {
        lemma_pairs_socket(pairs, from + 1, i);
    }
}

proof fn lemma_ways_socket(ways: Seq<Seq<char>>, from: int, i: int)
    requires
        0 <= from,
    ensures
        from <= i < ways.len() && way_socket(ways[i]) is Some && (forall|j: int|
            from <= j < i ==> way_socket(#[trigger] ways[j]) is None) ==> ways_socket(ways, from)
            == way_socket(ways[i]),
    decreases ways.len() - from,
{
    if from < ways.len() {
        lemma_ways_socket(ways, from + 1, i);
    }
}

/// A unix way to connect names the socket its one pair names, and any other way none.
pub proof fn law_a_unix_way_names_its_socket(pair: Seq<char>)
    requires
        pair.len() > 0,
        !is_space(pair.last()),
        free_of(pair, ','),
    ensures
        way_socket("unix:"@ + pair) == pair_socket(pair),
        way_socket("tcp:"@ + pair) is None,
{
    reveal_strlit("unix:");
    reveal_strlit("tcp:");
    let way = "unix:"@ + pair;
    let other = "tcp:"@ + pair;
    assert(way[0] == 'u' && other[0] == 't');
    assert(way.last() == pair.last() && other.last() == pair.last());
    law_trimming_takes_the_spaces_around(Seq::empty(), way, Seq::empty());
    law_trimming_takes_the_spaces_around(Seq::empty(), other, Seq::empty());
    assert(Seq::<char>::empty() + way + Seq::<char>::empty() =~= way);
    assert(Seq::<char>::empty() + other + Seq::<char>::empty() =~= other);
    assert(way.subrange(0, 5) =~= "unix:"@);
    assert(way.skip(5) =~= pair);
    if stands_at(other, "unix:"@, 0) {
        assert(other.subrange(0, 5)[0] == "unix:"@[0]);
    }
    law_a_text_is_parted_at_the_first(pair, ',', Seq::empty());
    reveal_with_fuel(pairs_socket, 3);
    assert(pieces(pair, ',') =~= seq![pair]);
}

proof fn lemma_slot<T>(entries: Seq<(String, T)>, name: Seq<char>, from: int)
    requires
        0 <= from <= entries.len(),
    ensures
        from <= slot(entries, name, from) <= entries.len(),
        forall|j: int|
            from <= j < slot(entries, name, from) ==> text_before((#[trigger] entries[j]).0@, name),
        slot(entries, name, from) < entries.len() ==> !text_before(
            entries[slot(entries, name, from)].0@,
            name,
        ),
    decreases entries.len() - from,
{
    if from < entries.len() && text_before(entries[from].0@, name) {
        lemma_slot(entries, name, from + 1);
    }
}

/// A table has under a name what was put there last, and everything it had under any other name.
pub proof fn law_a_table_has_what_was_put_there_last<T>(
    entries: Seq<(String, T)>,
    name: String,
    value: T,
    j: int,
)
    ensures
        inserted(entries, name, value).contains((name, value)),
        0 <= j < entries.len() && entries[j].0@ != name@ ==> inserted(
            entries,
            name,
            value,
        ).contains(entries[j]),
        inserted(entries, name, value).len() <= entries.len() + 1,
{
    let at = slot(entries, name@, 0);
    let after = inserted(entries, name, value);
    lemma_slot(entries, name@, 0);
    assert(after[at] == (name, value));
    if 0 <= j < entries.len() && entries[j].0@ != name@ {
        if at < entries.len() && entries[at].0@ == name@ {
            assert(after[j] == entries[j]);
        } else if j < at {
            assert(after[j] == entries[j]);
        } else {
            assert(after[j + 1] == entries[j]);
        }
    }
}

/// A player goes by the text it answers with, and by no name where it answers anything else.
pub proof fn law_a_player_goes_by_what_it_answers(name: Seq<char>, rest: Seq<ReplyView>, n: int)
    ensures
        own_name(seq![ReplyView::Str(name)] + rest) == Some(name),
        own_name(seq![ReplyView::Int(n)] + rest) is None,
        own_name(Seq::empty()) is None,
{
    assert((seq![ReplyView::Str(name)] + rest)[0] == ReplyView::Str(name));
    assert((seq![ReplyView::Int(n)] + rest)[0] == ReplyView::Int(n));
}

/// A sink is carried by the card and the output whose numbers it gives, and by none where it
/// leaves one of them out.
pub proof fn law_a_sink_is_carried_by_the_card_it_gives(card: Seq<char>, output: Seq<char>)
    requires
        card.len() > 0 && all_digits(card) && digits_value(card) <= u32::MAX,
        output.len() > 0 && all_digits(output) && digits_value(output) < 0x8000_0000,
    ensures
        card_said(Some(card), Some(output)) == Some(
            (digits_value(card) as u32, digits_value(output) as i32),
        ),
        card_said(Some(card), None) is None,
        card_said(None, Some(output)) is None,
{
    assert(is_digit(card[0]) && is_digit(output[0]));
}

/// With no hardware there is nothing to show, and nothing to rate.
pub proof fn law_no_hardware_shows_nothing(name: Seq<char>)
    ensures
        ({
            let r = network::shown_without_hardware();
            &&& r.state == State::Idle
            &&& r.fields.values.dom().contains(name) ==> r.fields.values[name]
                == ValueView::Absent
        }),
{
}

} // verus!
