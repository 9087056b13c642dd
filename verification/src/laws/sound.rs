//! What is playing, how loud, and through what.

use crate::collect::audio::{current_of, levels_said, named, place, playing_at, route_place};
use crate::collect::audio::{route_said, saying, socket, wanted, numbered_once};
use crate::collect::audio::{channels_said, index_said, mute_said, name_said};
use crate::collect::audio::{output_said, outward_said, route_levels_said, volume_said};
use crate::collect::audio::{shown as sounds, Command as Turn, LevelProperty, Levels, Route};
use crate::collect::audio::{RouteProperty, SaidView, Setting, Sink, Sinks, Target};
use crate::collect::media::{law_the_player_shown_is_worth_the_most, player_says};
use crate::collect::media::{players_among, shown as plays, speaks, worth, PlayingView};
use crate::dbus::value::ValueView as ReplyView;
use crate::laws::wire::law_a_dictionary_has_what_was_put_in_it_first;
use crate::number::Number;
use crate::status::{AmountView, State, Unit, ValueView};
use crate::text::{ascii_lowercase, has_text, lowercase_text, opt_view, stands_at};
use vstd::prelude::*;

verus! {

/// Whether a field shows this text, and nothing where there is none or it is empty.
pub open spec fn shows_text(value: ValueView, text: Option<Seq<char>>) -> bool {
    &&& text is None || text->0.len() == 0 ==> value == ValueView::Absent
    &&& text is Some && text->0.len() > 0 ==> value == ValueView::Text(text->0)
}

proof fn lemma_media_names()
    ensures
        "title"@ != "artist"@ && "title"@ != "album"@ && "title"@ != "status"@,
        "title"@ != "player"@ && "artist"@ != "album"@ && "artist"@ != "status"@,
        "artist"@ != "player"@ && "album"@ != "status"@ && "album"@ != "player"@,
        "status"@ != "player"@,
{
    reveal_strlit("title");
    reveal_strlit("artist");
    reveal_strlit("album");
    reveal_strlit("status");
    reveal_strlit("player");
    assert("title"@.len() == 5 && "album"@.len() == 5);
    assert("artist"@.len() == 6 && "status"@.len() == 6 && "player"@.len() == 6);
    assert("title"@[0] == 't' && "album"@[0] == 'a');
    assert("artist"@[0] == 'a' && "status"@[0] == 's' && "player"@[0] == 'p');
}

/// A player is shown by what it says of itself, each field under its own name.
pub proof fn law_a_player_is_shown_as_it_says(p: PlayingView)
    ensures
        ({
            let r = plays(Some(p));
            &&& r.state == State::Idle
            &&& r.fields.primary == Some("title"@)
            &&& shows_text(r.fields.values["title"@], p.title)
            &&& shows_text(r.fields.values["artist"@], p.artist)
            &&& shows_text(r.fields.values["album"@], p.album)
            &&& shows_text(r.fields.values["status"@], Some(p.status))
            &&& shows_text(r.fields.values["player"@], p.player)
        }),
        ({
            let r = plays(None);
            &&& r.fields.values["title"@] == ValueView::Absent
            &&& r.fields.values["artist"@] == ValueView::Absent
            &&& r.fields.values["album"@] == ValueView::Absent
            &&& r.fields.values["status"@] == ValueView::Absent
            &&& r.fields.values["player"@] == ValueView::Absent
        }),
{
    lemma_media_names();
}

/// One that plays comes before one that is paused, that before one that has a track, and one
/// with neither is not shown at all; of two that are worth the same the first is shown.
pub proof fn law_what_plays_is_shown(found: Seq<PlayingView>)
    ensures
        match speaks(found) {
            Some(i) => {
                &&& 0 <= i < found.len()
                &&& found[i].status == "playing"@ || found[i].status == "paused"@ || found[i].title
                    is Some
                &&& forall|j: int|
                    0 <= j < found.len() && (#[trigger] found[j]).status == "playing"@
                        ==> found[i].status == "playing"@ && i <= j
                &&& (exists|j: int|
                    0 <= j < found.len() && (#[trigger] found[j]).status == "paused"@)
                    ==> found[i].status == "playing"@ || found[i].status == "paused"@
            },
            None => forall|j: int|
                0 <= j < found.len() ==> (#[trigger] found[j]).status != "playing"@
                    && found[j].status != "paused"@ && found[j].title is None,
        },
{
    reveal_strlit("playing");
    reveal_strlit("paused");
    assert("playing"@.len() == 7 && "paused"@.len() == 6);
    law_the_player_shown_is_worth_the_most(found, found.len() as int);
    if let Some(i) = speaks(found) {
        assert forall|j: int|
            0 <= j < found.len() && (#[trigger] found[j]).status == "playing"@ implies found[i].status
            == "playing"@ && i <= j by {
            assert(worth(found[j]) == 3);
            if j < i {
                assert(worth(found[j]) < worth(found[i]));
            }
        }
        if exists|j: int| 0 <= j < found.len() && (#[trigger] found[j]).status == "paused"@ {
            let j = choose|j: int|
                0 <= j < found.len() && (#[trigger] found[j]).status == "paused"@;
            assert(worth(found[j]) == 2);
        }
    } else {
        assert forall|j: int| 0 <= j < found.len() implies (#[trigger] found[j]).status
            != "playing"@ && found[j].status != "paused"@ && found[j].title is None by {
            assert(worth(found[j]) <= 0);
        }
    }
}

/// The players are those of the names on the bus that start as a player's does, in order.
pub proof fn law_players_are_known_by_their_names(names: Seq<ReplyView>, name: Seq<char>)
    ensures
        ({
            let more = names.push(ReplyView::Str(name));
            if stands_at(name, "org.mpris.MediaPlayer2."@, 0) {
                players_among(more, 0) == players_among(names, 0).push(name)
            } else {
                players_among(more, 0) == players_among(names, 0)
            }
        }),
        players_among(Seq::empty(), 0).len() == 0,
{
    lemma_players(names, name, 0);
}

proof fn lemma_players(names: Seq<ReplyView>, name: Seq<char>, from: int)
    requires
        0 <= from <= names.len(),
    ensures
        ({
            let more = names.push(ReplyView::Str(name));
            if stands_at(name, "org.mpris.MediaPlayer2."@, 0) {
                players_among(more, from) == players_among(names, from).push(name)
            } else {
                players_among(more, from) == players_among(names, from)
            }
        }),
    decreases names.len() - from,
{
    let more = names.push(ReplyView::Str(name));
    if from < names.len() {
        lemma_players(names, name, from + 1);
        assert(more[from] == names[from]);
        if stands_at(name, "org.mpris.MediaPlayer2."@, 0) {
            assert(players_among(more, from) =~= players_among(names, from).push(name));
        }
    } else {
        reveal_with_fuel(players_among, 2);
        assert(more[from] == ReplyView::Str(name));
        if stands_at(name, "org.mpris.MediaPlayer2."@, 0) {
            assert(players_among(more, from) =~= players_among(names, from).push(name));
        }
    }
}

/// What a player says of its track is under the track's own names, and how it plays under its
/// status.
pub proof fn law_a_track_is_told_under_its_own_names(
    title: Seq<char>,
    artist: Seq<char>,
    album: Seq<char>,
    status: Seq<char>,
    identity: Option<Seq<char>>,
)
    ensures
        ({
            let track = ReplyView::Dict(
                seq![
                    (ReplyView::Str("xesam:title"@), ReplyView::Str(title)),
                    (ReplyView::Str("xesam:artist"@), ReplyView::Str(artist)),
                    (ReplyView::Str("xesam:album"@), ReplyView::Str(album)),
                ],
            );
            let told = ReplyView::Dict(
                seq![
                    (ReplyView::Str("Metadata"@), track),
                    (ReplyView::Str("PlaybackStatus"@), ReplyView::Str(status)),
                ],
            );
            let p = player_says(told, identity);
            &&& p.title == Some(title)
            &&& p.artist == Some(artist)
            &&& p.album == Some(album)
            &&& p.status == lowercase_text(status)
            &&& p.player == identity
        }),
{
    reveal_strlit("xesam:title");
    reveal_strlit("xesam:artist");
    reveal_strlit("xesam:album");
    reveal_strlit("Metadata");
    reveal_strlit("PlaybackStatus");
    let a = "xesam:title"@;
    let b = "xesam:artist"@;
    let c = "xesam:album"@;
    assert(a.len() == 11 && b.len() == 12 && c.len() == 11);
    assert(a[6] == 't' && c[6] == 'a');
    assert("Metadata"@.len() == 8 && "PlaybackStatus"@.len() == 14);
    let inner = seq![
        (ReplyView::Str(a), ReplyView::Str(title)),
        (ReplyView::Str(b), ReplyView::Str(artist)),
        (ReplyView::Str(c), ReplyView::Str(album)),
    ];
    law_a_dictionary_has_what_was_put_in_it_first(inner, a, 0);
    law_a_dictionary_has_what_was_put_in_it_first(inner, b, 1);
    law_a_dictionary_has_what_was_put_in_it_first(inner, c, 2);
    let told = seq![
        (ReplyView::Str("Metadata"@), ReplyView::Dict(inner)),
        (ReplyView::Str("PlaybackStatus"@), ReplyView::Str(status)),
    ];
    law_a_dictionary_has_what_was_put_in_it_first(told, "Metadata"@, 0);
    law_a_dictionary_has_what_was_put_in_it_first(told, "PlaybackStatus"@, 1);
}

/// The sound is shown by its volume, whether it is muted, and through what it leaves, each under
/// its own name.
pub proof fn law_the_sound_is_shown_as_it_is(s: SaidView)
    ensures
        ({
            let r = sounds(s);
            &&& r.state == State::Idle
            &&& r.fields.primary == Some("volume"@)
            &&& r.fields.values["volume"@] == (ValueView::Num {
                v: AmountView::Float(s.volume),
                unit: Unit::Percent,
            })
            &&& r.fields.values["muted"@] == ValueView::Flag(s.muted)
            &&& r.fields.values["device"@] == (match s.device {
                Some(t) => ValueView::Text(t),
                None => ValueView::Absent,
            })
            &&& r.fields.values["port"@] == (match s.port {
                Some(t) => ValueView::Text(t),
                None => ValueView::Absent,
            })
        }),
{
    reveal_strlit("volume");
    reveal_strlit("muted");
    reveal_strlit("device");
    reveal_strlit("port");
    assert("volume"@.len() == 6 && "muted"@.len() == 5 && "device"@.len() == 6);
    assert("port"@.len() == 4);
    assert("volume"@[0] == 'v' && "device"@[0] == 'd');
}

/// What is told last of levels is what they are, and telling one of them leaves the others.
pub proof fn law_levels_are_what_was_told_last(
    props: Seq<LevelProperty>,
    count: usize,
    volume: Number,
    muted: bool,
)
    ensures
        ({
            let louder = props.push(
                LevelProperty::Channels { count, loudest: Some(volume) },
            );
            let quieter = props.push(LevelProperty::Mute(muted));
            let same = props.push(LevelProperty::Other);
            &&& levels_said(same) == levels_said(props)
            &&& levels_said(louder) matches Some(l) ==> l.volume == volume && l.channels == count
            &&& levels_said(quieter) matches Some(l) ==> l.muted == muted
            &&& levels_said(props) matches Some(was) ==> {
                &&& levels_said(louder) == Some(Levels { volume, channels: count, ..was })
                &&& levels_said(quieter) == Some(Levels { muted, ..was })
            }
            &&& levels_said(louder.push(LevelProperty::Mute(muted))) == Some(
                Levels { volume, muted, channels: count },
            )
        }),
        levels_said(Seq::empty()) is None,
{
    let n = props.len() as int;
    let told = LevelProperty::Channels { count, loudest: Some(volume) };
    let louder = props.push(told);
    lemma_levels_front(props, told, n);
    lemma_levels_front(props, LevelProperty::Mute(muted), n);
    lemma_levels_front(props, LevelProperty::Other, n);
    lemma_levels_front(louder, LevelProperty::Mute(muted), n + 1);
}

proof fn lemma_levels_front(props: Seq<LevelProperty>, more: LevelProperty, n: int)
    requires
        0 <= n <= props.len(),
    ensures
        volume_said(props.push(more), n) == volume_said(props, n),
        mute_said(props.push(more), n) == mute_said(props, n),
        channels_said(props.push(more), n) == channels_said(props, n),
    decreases n,
{
    if n > 0 {
        lemma_levels_front(props, more, n - 1);
        assert(props.push(more)[n - 1] == props[n - 1]);
    }
}

/// A route is what was told of it last, and is one only where it leads outward and has a number,
/// an output and levels.
pub proof fn law_a_route_is_what_was_told_of_it(
    index: i32,
    output: i32,
    props: Vec<LevelProperty>,
    name: String,
)
    requires
        levels_said(props@) is Some,
    ensures
        ({
            let told = seq![
                RouteProperty::Index(index),
                RouteProperty::Device(output),
                RouteProperty::Outward(true),
                RouteProperty::Props(props),
            ];
            &&& route_said(told) == Some(
                (output, index, levels_said(props@)->0, None::<Seq<char>>),
            )
            &&& route_said(told.push(RouteProperty::Name(name))) == Some(
                (output, index, levels_said(props@)->0, Some(name@)),
            )
            &&& route_said(told.push(RouteProperty::Outward(false))) is None
        }),
{
    reveal_with_fuel(index_said, 6);
    reveal_with_fuel(output_said, 6);
    reveal_with_fuel(outward_said, 6);
    reveal_with_fuel(route_levels_said, 6);
    reveal_with_fuel(name_said, 6);
}

proof fn lemma_named_sink(v: Seq<(u32, Sink)>, name: Seq<char>, from: int)
    requires
        0 <= from <= v.len(),
    ensures
        match named(v, name, from) {
            Some(i) => from <= i < v.len() && v[i].1.name@ == name && forall|j: int|
                from <= j < i ==> (#[trigger] v[j]).1.name@ != name,
            None => forall|j: int| from <= j < v.len() ==> (#[trigger] v[j]).1.name@ != name,
        },
    decreases v.len() - from,
{
    if from < v.len() && v[from].1.name@ != name {
        lemma_named_sink(v, name, from + 1);
    }
}

proof fn lemma_place<T>(v: Seq<(u32, T)>, id: u32, from: int)
    requires
        0 <= from <= v.len(),
    ensures
        match place(v, id, from) {
            Some(i) => from <= i < v.len() && v[i].0 == id && forall|j: int|
                from <= j < i ==> (#[trigger] v[j]).0 != id,
            None => forall|j: int| from <= j < v.len() ==> (#[trigger] v[j]).0 != id,
        },
    decreases v.len() - from,
{
    if from < v.len() && v[from].0 != id {
        lemma_place(v, id, from + 1);
    }
}

proof fn lemma_route_place(v: Seq<(i32, Route)>, output: i32, from: int)
    requires
        0 <= from <= v.len(),
    ensures
        match route_place(v, output, from) {
            Some(i) => from <= i < v.len() && v[i].0 == output && forall|j: int|
                from <= j < i ==> (#[trigger] v[j]).0 != output,
            None => forall|j: int| from <= j < v.len() ==> (#[trigger] v[j]).0 != output,
        },
    decreases v.len() - from,
{
    if from < v.len() && v[from].0 != output {
        lemma_route_place(v, output, from + 1);
    }
}

/// The sound that is heard is that of the sink that is the default, and of no other.
pub proof fn law_the_default_sink_is_heard(s: Sinks)
    ensures
        s.default is None ==> saying(s) is None,
        s.default matches Some(name) ==> match current_of(s) {
            Some(i) => {
                &&& 0 <= i < s.sinks@.len()
                &&& s.sinks@[i].1.name@ == name@
                &&& saying(s) matches Some(said) ==> said.device == opt_view(
                    s.sinks@[i].1.description,
                )
            },
            None => saying(s) is None && forall|j: int|
                0 <= j < s.sinks@.len() ==> (#[trigger] s.sinks@[j]).1.name@ != name@,
        },
{
    if let Some(name) = s.default {
        lemma_named_sink(s.sinks@, name@, 0);
    }
}

/// A sink that a card carries is as loud as the route it leaves by, is changed there, and leaves
/// by the socket the route is named after; any other is as loud as it says itself, and is
/// changed itself.
pub proof fn law_a_carried_sink_is_as_loud_as_its_route(
    s: Sinks,
    i: int,
    c: int,
    r: int,
    turn: Turn,
)
    requires
        current_of(s) == Some(i),
        0 <= i < s.sinks@.len(),
    ensures
        ({
            let sink = s.sinks@[i].1;
            &&& sink.card is None ==> {
                &&& playing_at(s) == sink.levels
                &&& sink.levels is Some ==> (saying(s) matches Some(said) && said.port == Some(
                    socket(sink.name@),
                ))
                &&& wanted(s, turn) matches Some(change) ==> change.target == Target::Node(
                    s.sinks@[i].0,
                )
            }
            &&& numbered_once(s.cards@) && 0 <= c < s.cards@.len() && 0 <= r
                < s.cards@[c].1.routes@.len() && (forall|q: int|
                0 <= q < r ==> (#[trigger] s.cards@[c].1.routes@[q]).0
                    != s.cards@[c].1.routes@[r].0) && sink.card == Some(
                (s.cards@[c].0, s.cards@[c].1.routes@[r].0),
            ) ==> {
                let route = s.cards@[c].1.routes@[r].1;
                &&& playing_at(s) == Some(route.levels)
                &&& saying(s) matches Some(said) && said.volume == route.levels.volume
                    && said.muted == route.levels.muted
                &&& saying(s) matches Some(said) && said.port == (match route.name {
                    Some(name) => Some(socket(name@)),
                    None => None,
                })
                &&& wanted(s, turn) matches Some(change) && change.target == (Target::Route {
                    card: s.cards@[c].0,
                    index: route.index,
                    output: s.cards@[c].1.routes@[r].0,
                })
            }
        }),
{
    let sink = s.sinks@[i].1;
    if sink.card is Some && 0 <= c < s.cards@.len() && 0 <= r < s.cards@[c].1.routes@.len() {
        lemma_place(s.cards@, s.cards@[c].0, 0);
        lemma_route_place(s.cards@[c].1.routes@, s.cards@[c].1.routes@[r].0, 0);
    }
}

/// Turning the sound starts from how loud it is, by the step that was asked for, on as many
/// channels as there are and on one where nothing says.
pub proof fn law_turning_starts_from_what_is_heard(s: Sinks, step: Number)
    ensures
        playing_at(s) is None ==> wanted(s, Turn::Volume(step)) is None,
        playing_at(s) matches Some(levels) ==> (wanted(s, Turn::Volume(step)) matches Some(change)
            && change.setting == (Setting::Volume {
            from: levels.volume,
            step,
            channels: if levels.channels == 0 {
                1
            } else {
                levels.channels
            },
        })),
{
}

/// A socket is named after what is plugged into it: what says headphones or headset, before
/// what says speaker, before a screen, before the air, before a line.
pub proof fn law_a_socket_is_named_after_what_is_plugged_in(name: Seq<char>)
    ensures
        ({
            let s = ascii_lowercase(name);
            let phones = has_text(s, "headphone"@) || has_text(s, "headset"@);
            let speaker = has_text(s, "speaker"@);
            let screen = has_text(s, "hdmi"@) || has_text(s, "displayport"@);
            let air = has_text(s, "bluez"@) || has_text(s, "bluetooth"@) || has_text(s, "a2dp"@)
                || has_text(s, "sco"@);
            let line = has_text(s, "lineout"@) || has_text(s, "line-out"@);
            &&& phones ==> socket(name) == "headphones"@
            &&& !phones && speaker ==> socket(name) == "speaker"@
            &&& !phones && !speaker && screen ==> socket(name) == "hdmi"@
            &&& !phones && !speaker && !screen && air ==> socket(name) == "bluetooth"@
            &&& !phones && !speaker && !screen && !air && line ==> socket(name) == "line-out"@
            &&& !phones && !speaker && !screen && !air && !line ==> socket(name) == "other"@
        }),
{
}

} // verus!
