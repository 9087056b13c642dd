//! What the media player of the session is playing.

use crate::dbus::message::{Kind as MessageKind, Message};
use crate::dbus::value::{entry_under, first_text, values_view, Value as Reply, ValueView as ReplyView};
use crate::status::{about, no_fields, specs_view, with, FieldSpec, FieldView, Fields, Kind};
use crate::status::{Reading, ReadingView, State, Value, ValueView};
use crate::text::{copy_text, lowercase, lowercase_text, opt_view, owned, same, same_opts, stands_at};
use crate::text::{starts_with, texts};
use vstd::prelude::*;

verus! {

/// What this source publishes.
pub open spec fn published() -> Seq<FieldView> {
    seq![
        FieldView { name: "title"@, kind: Kind::Text },
        FieldView { name: "artist"@, kind: Kind::Text },
        FieldView { name: "album"@, kind: Kind::Text },
        FieldView { name: "status"@, kind: Kind::Text },
        FieldView { name: "player"@, kind: Kind::Text },
    ]
}

/// What this source publishes.
pub fn fields() -> (r: Vec<FieldSpec>)
    ensures
        specs_view(r@) == published(),
{
    let r = vec![
        FieldSpec::new("title", Kind::Text),
        FieldSpec::new("artist", Kind::Text),
        FieldSpec::new("album", Kind::Text),
        FieldSpec::new("status", Kind::Text),
        FieldSpec::new("player", Kind::Text),
    ];
    assert(specs_view(r@) =~= published());
    r
}

/// What every player's name on the bus starts with.
pub fn prefix() -> (s: &'static str)
    ensures
        s@ == "org.mpris.MediaPlayer2."@,
{
    "org.mpris.MediaPlayer2."
}

/// What the bar can ask a player to do.
#[derive(Clone, Copy, Debug, PartialEq, Eq, Structural)]
pub enum Command {
    PlayPause,
    Next,
    Previous,
}

impl Command {
    /// The name of the method that does it.
    pub open spec fn method(self) -> Seq<char> {
        match self {
            Command::PlayPause => "PlayPause"@,
            Command::Next => "Next"@,
            Command::Previous => "Previous"@,
        }
    }

    pub fn member(self) -> (s: &'static str)
        ensures
            s@ == self.method(),
    {
        match self {
            Command::PlayPause => "PlayPause",
            Command::Next => "Next",
            Command::Previous => "Previous",
        }
    }

    /// The byte it is on its way to the thread that waits on the bus.
    pub open spec fn byte(self) -> u8 {
        match self {
            Command::PlayPause => 0,
            Command::Next => 1,
            Command::Previous => 2,
        }
    }

    pub fn to_byte(self) -> (b: u8)
        ensures
            b == self.byte(),
    {
        match self {
            Command::PlayPause => 0,
            Command::Next => 1,
            Command::Previous => 2,
        }
    }

    pub fn from_byte(byte: u8) -> (r: Option<Command>)
        ensures
            match r {
                Some(c) => c.byte() == byte,
                None => forall|c: Command| (#[trigger] c.byte()) != byte,
            },
    {
        match byte {
            0 => Some(Command::PlayPause),
            1 => Some(Command::Next),
            2 => Some(Command::Previous),
            _ => None,
        }
    }
}

/// A command is told from every other by its byte, so none is mistaken on the way.
pub proof fn law_every_command_has_a_byte_of_its_own(a: Command, b: Command)
    requires
        a.byte() == b.byte(),
    ensures
        a == b,
{
}

/// What one player last said about itself.
#[derive(Debug)]
pub struct Playing {
    pub title: Option<String>,
    pub artist: Option<String>,
    pub album: Option<String>,
    pub status: String,
    pub player: Option<String>,
}

/// What a `Playing` says.
#[verifier::ext_equal]
pub struct PlayingView {
    pub title: Option<Seq<char>>,
    pub artist: Option<Seq<char>>,
    pub album: Option<Seq<char>>,
    pub status: Seq<char>,
    pub player: Option<Seq<char>>,
}

impl View for Playing {
    type V = PlayingView;

    open spec fn view(&self) -> PlayingView {
        PlayingView {
            title: opt_view(self.title),
            artist: opt_view(self.artist),
            album: opt_view(self.album),
            status: self.status@,
            player: opt_view(self.player),
        }
    }
}

/// How much a player is worth showing: one that is playing beats one that is paused, which
/// beats one that is stopped with something loaded; one with nothing to say loses to anything.
pub open spec fn worth(p: PlayingView) -> int {
    if p.status == "playing"@ {
        3
    } else if p.status == "paused"@ {
        2
    } else if p.title is Some {
        1
    } else {
        0
    }
}

impl Playing {
    /// Whether this player is worth showing over another.
    pub fn interest(&self) -> (n: u8)
        ensures
            n == worth(self@),
    {
        if same(self.status.as_str(), "playing") {
            3
        } else if same(self.status.as_str(), "paused") {
            2
        } else if self.title.is_some() {
            1
        } else {
            0
        }
    }

    pub fn same(&self, other: &Playing) -> (r: bool)
        ensures
            r == (self@ == other@),
    {
        same_opts(&self.title, &other.title) && same_opts(&self.artist, &other.artist)
            && same_opts(&self.album, &other.album) && same(
            self.status.as_str(),
            other.status.as_str(),
        ) && same_opts(&self.player, &other.player)
    }

    pub fn copy(&self) -> (p: Playing)
        ensures
            p@ == self@,
    {
        Playing {
            title: copy_text(&self.title),
            artist: copy_text(&self.artist),
            album: copy_text(&self.album),
            status: self.status.clone(),
            player: copy_text(&self.player),
        }
    }
}

/// What stands under a name in what a player answered.
pub open spec fn under(v: ReplyView, name: Seq<char>) -> Option<ReplyView> {
    match v {
        ReplyView::Dict(entries) => entry_under(entries, name, 0),
        _ => None,
    }
}

/// What the track a player has loaded says about itself under a name: a text, or the first of a
/// list of them.
pub open spec fn track_says(properties: ReplyView, name: Seq<char>) -> Option<Seq<char>> {
    match under(properties, "Metadata"@) {
        Some(metadata) => match under(metadata, name) {
            Some(v) => first_text(v),
            None => None,
        },
        None => None,
    }
}

/// What a player says about itself, given its properties and its own name for itself. Its
/// status is lowercased, so that whoever matches on it does not have to know how the player
/// capitalises.
pub open spec fn player_says(properties: ReplyView, identity: Option<Seq<char>>) -> PlayingView {
    PlayingView {
        title: track_says(properties, "xesam:title"@),
        artist: track_says(properties, "xesam:artist"@),
        album: track_says(properties, "xesam:album"@),
        status: lowercase_text(
            match under(properties, "PlaybackStatus"@) {
                Some(ReplyView::Str(s)) => s,
                _ => "stopped"@,
            },
        ),
        player: identity,
    }
}

fn look_under<'a>(v: &'a Reply, name: &str) -> (r: Option<&'a Reply>)
    ensures
        match r {
            Some(found) => under(v@, name@) == Some(found@),
            None => under(v@, name@) is None,
        },
{
    v.get(name)
}

fn track_text(properties: &Reply, name: &str) -> (r: Option<String>)
    ensures
        opt_view(r) == track_says(properties@, name@),
{
    match look_under(properties, "Metadata") {
        Some(metadata) => match look_under(metadata, name) {
            Some(v) => match v.first_str() {
                Some(s) => Some(owned(s)),
                None => None,
            },
            None => None,
        },
        None => None,
    }
}

/// What one player says about itself: the answer to being asked for all of its properties, and
/// its own name for itself, where it gave one. A player that answered nothing says nothing.
pub fn asked(reply: &Vec<Reply>, identity: Option<String>) -> (r: Option<Playing>)
    ensures
        match r {
            Some(p) => reply@.len() > 0 && p@ == player_says(reply@[0]@, opt_view(identity)),
            None => reply@.len() == 0,
        },
{
    if reply.len() == 0 {
        return None;
    }
    let properties = &reply[0];
    let status = match look_under(properties, "PlaybackStatus") {
        Some(v) => match v.as_str() {
            Some(s) => lowercase(s),
            None => lowercase("stopped"),
        },
        None => lowercase("stopped"),
    };
    Some(
        Playing {
            title: track_text(properties, "xesam:title"),
            artist: track_text(properties, "xesam:artist"),
            album: track_text(properties, "xesam:album"),
            status,
            player: identity,
        },
    )
}

/// The player's own name for itself, in the answer to being asked for it.
pub open spec fn own_name(reply: Seq<ReplyView>) -> Option<Seq<char>> {
    if reply.len() == 0 {
        None
    } else {
        match reply[0] {
            ReplyView::Str(s) => Some(s),
            _ => None,
        }
    }
}

/// The player's own name for itself, which is friendlier than its bus name.
pub fn identity(reply: &Vec<Reply>) -> (r: Option<String>)
    ensures
        opt_view(r) == own_name(values_view(reply@)),
{
    if reply.len() == 0 {
        return None;
    }
    assert(values_view(reply@)[0] == reply@[0]@);
    match reply[0].as_str() {
        Some(s) => Some(owned(s)),
        None => None,
    }
}

/// Whether a name on the bus is that of a player.
pub open spec fn is_player(name: ReplyView) -> bool {
    match name {
        ReplyView::Str(s) => stands_at(s, "org.mpris.MediaPlayer2."@, 0),
        _ => false,
    }
}

/// The players among the names on the bus, from `from` on.
pub open spec fn players_among(names: Seq<ReplyView>, from: int) -> Seq<Seq<char>>
    decreases names.len() - from,
{
    if from < 0 || from >= names.len() {
        Seq::empty()
    } else if is_player(names[from]) {
        seq![names[from]->Str_0] + players_among(names, from + 1)
    } else {
        players_among(names, from + 1)
    }
}

/// The names that the answer to being asked for them all gives.
pub open spec fn names_in(reply: Seq<ReplyView>) -> Seq<ReplyView> {
    if reply.len() == 0 {
        Seq::empty()
    } else {
        match reply[0] {
            ReplyView::List(names) => names,
            _ => Seq::empty(),
        }
    }
}

/// The players on the bus, by the answer to being asked for every name on it.
pub fn players(reply: &Vec<Reply>) -> (r: Vec<String>)
    ensures
        texts(r@) == players_among(names_in(values_view(reply@)), 0),
{
    let mut r: Vec<String> = Vec::new();
    let ghost all = names_in(values_view(reply@));
    if reply.len() == 0 {
        assert(texts(r@) =~= players_among(all, 0));
        return r;
    }
    assert(values_view(reply@)[0] == reply@[0]@);
    let names = reply[0].items();
    assert(values_view(names@) =~= all);
    assert(texts(r@) + players_among(all, 0) =~= players_among(all, 0));
    for i in 0..names.len()
        invariant
            all == values_view(names@),
            players_among(all, 0) == texts(r@) + players_among(all, i as int),
    {
        assert(all[i as int] == names@[i as int]@);
        let ghost before = texts(r@);
        if let Some(name) = names[i].as_str() {
            if starts_with(name, prefix()) {
                r.push(owned(name));
                proof {
                    assert(texts(r@) =~= before.push(name@));
                    let rest = players_among(all, i + 1);
                    assert(before + (seq![name@] + rest) =~= before.push(name@) + rest);
                }
            }
        }
    }
    assert(texts(r@) + Seq::<Seq<char>>::empty() =~= texts(r@));
    r
}

/// The first of the most interesting among the first `upto` players.
pub open spec fn keenest(found: Seq<PlayingView>, upto: int) -> Option<int>
    decreases upto,
{
    if upto <= 0 || upto > found.len() {
        None
    } else {
        match keenest(found, upto - 1) {
            None => Some(upto - 1),
            Some(i) => if worth(found[upto - 1]) > worth(found[i]) {
                Some(upto - 1)
            } else {
                Some(i)
            },
        }
    }
}

/// The player to show among these, if any of them has anything to say.
pub open spec fn speaks(found: Seq<PlayingView>) -> Option<int> {
    match keenest(found, found.len() as int) {
        Some(i) => if worth(found[i]) == 0 {
            None
        } else {
            Some(i)
        },
        None => None,
    }
}

/// What a list of players says.
pub open spec fn found_view(found: Seq<(String, Playing)>) -> Seq<PlayingView> {
    Seq::new(found.len(), |i: int| found[i].1@)
}

/// The most interesting player on the bus. Nothing to say is not nothing to report: the module
/// draws nothing, rather than keeping the last track it saw for ever.
pub fn look(found: &Vec<(String, Playing)>) -> (r: Option<usize>)
    ensures
        match r {
            Some(i) => i < found@.len() && speaks(found_view(found@)) == Some(i as int),
            None => speaks(found_view(found@)) is None,
        },
{
    let ghost all = found_view(found@);
    let mut best: Option<usize> = None;
    for i in 0..found.len()
        invariant
            all == found_view(found@),
            match best {
                Some(k) => keenest(all, i as int) == Some(k as int) && k < i,
                None => i == 0,
            },
    {
        assert(all[i as int] == found@[i as int].1@);
        best = match best {
            None => Some(i),
            Some(k) => {
                assert(all[k as int] == found@[k as int].1@);
                if found[i].1.interest() > found[k].1.interest() {
                    Some(i)
                } else {
                    Some(k)
                }
            },
        };
    }
    match best {
        Some(k) => {
            assert(all[k as int] == found@[k as int].1@);
            if found[k].1.interest() == 0 {
                None
            } else {
                Some(k)
            }
        },
        None => None,
    }
}

/// The player that is shown is worth no less than any other, so one that is playing is never
/// passed over for one that is not, and of those worth the same the first is shown.
pub proof fn law_the_player_shown_is_worth_the_most(found: Seq<PlayingView>, upto: int)
    requires
        0 <= upto <= found.len(),
    ensures
        match keenest(found, upto) {
            None => upto == 0,
            Some(i) => {
                &&& 0 <= i < upto
                &&& forall|j: int| 0 <= j < upto ==> worth(#[trigger] found[j]) <= worth(found[i])
                &&& forall|j: int| 0 <= j < i ==> worth(#[trigger] found[j]) < worth(found[i])
            },
        },
    decreases upto,
{
    if upto > 0 {
        law_the_player_shown_is_worth_the_most(found, upto - 1);
    }
}

/// A text, where there is one with something in it. A track with no title is one the player has
/// not loaded yet, and a format that mentions it draws nothing rather than an empty gap.
pub open spec fn text_value(s: Option<Seq<char>>) -> ValueView {
    match s {
        Some(t) => if t.len() == 0 {
            ValueView::Absent
        } else {
            ValueView::Text(t)
        },
        None => ValueView::Absent,
    }
}

fn shown_text(s: Option<String>) -> (v: Value)
    ensures
        v@ == text_value(opt_view(s)),
{
    match s {
        Some(t) => if t.as_str().is_empty() {
            Value::Absent
        } else {
            Value::Text(t)
        },
        None => Value::Absent,
    }
}

/// A player that says nothing at all.
pub open spec fn silence() -> PlayingView {
    PlayingView { title: None, artist: None, album: None, status: Seq::empty(), player: None }
}

/// What is shown of a player, or of there being none.
pub open spec fn shown(playing: Option<PlayingView>) -> ReadingView {
    let p = match playing {
        Some(p) => p,
        None => silence(),
    };
    let f = with(no_fields(), "title"@, text_value(p.title));
    let f = with(f, "artist"@, text_value(p.artist));
    let f = with(f, "album"@, text_value(p.album));
    let f = with(f, "status"@, text_value(Some(p.status)));
    let f = with(f, "player"@, text_value(p.player));
    ReadingView { fields: about(f, "title"@), state: State::Idle }
}

/// What is shown of a player.
pub fn reading_of(playing: Option<Playing>) -> (r: Reading)
    ensures
        r@ == shown(
            match playing {
                Some(p) => Some(p@),
                None => None,
            },
        ),
{
    let p = match playing {
        Some(p) => p,
        None => Playing {
            title: None,
            artist: None,
            album: None,
            status: String::new(),
            player: None,
        },
    };
    let mut fields = Fields::new();
    fields.set("title", shown_text(p.title));
    fields.set("artist", shown_text(p.artist));
    fields.set("album", shown_text(p.album));
    fields.set("status", shown_text(Some(p.status)));
    fields.set("player", shown_text(p.player));
    fields.set_primary("title");
    Reading { fields, state: State::Idle }
}

/// Which player is being shown, and what it last said.
#[derive(Debug)]
pub struct Media {
    pub showing: Option<Playing>,
    pub name: Option<String>,
}

/// What a player that may not be there says.
pub open spec fn maybe(p: Option<Playing>) -> Option<PlayingView> {
    match p {
        Some(p) => Some(p@),
        None => None,
    }
}

/// What the player of a choice says.
pub open spec fn chosen(found: Seq<(String, Playing)>) -> Option<PlayingView> {
    match speaks(found_view(found)) {
        Some(i) => Some(found[i].1@),
        None => None,
    }
}

/// The name of the player of a choice.
pub open spec fn chosen_name(found: Seq<(String, Playing)>) -> Option<Seq<char>> {
    match speaks(found_view(found)) {
        Some(i) => Some(found[i].0@),
        None => None,
    }
}

impl Media {
    pub fn new() -> (m: Media)
        ensures
            m.showing is None,
            m.name is None,
    {
        Media { showing: None, name: None }
    }

    /// Whether a message can change which player is worth showing, or what it says. All of them
    /// are rare enough to answer by asking again.
    pub fn concerns(message: &Message) -> (r: bool)
        ensures
            r == ((message@.kind == MessageKind::Signal && message@.interface == Some(
                "org.freedesktop.DBus.Properties"@,
            ) && message@.member == Some("PropertiesChanged"@)) || (message@.kind
                == MessageKind::Signal && message@.interface == Some("org.freedesktop.DBus"@)
                && message@.member == Some("NameOwnerChanged"@))),
    {
        message.is_signal("org.freedesktop.DBus.Properties", "PropertiesChanged")
            || message.is_signal("org.freedesktop.DBus", "NameOwnerChanged")
    }

    /// Take in the players there are, and say what to show if that has changed.
    pub fn publish(&mut self, found: &Vec<(String, Playing)>) -> (r: Option<Reading>)
        ensures
            opt_view(final(self).name) == chosen_name(found@),
            maybe(final(self).showing) == chosen(found@),
            match r {
                Some(reading) => maybe(old(self).showing) != chosen(found@) && reading@ == shown(
                    chosen(found@),
                ),
                None => maybe(old(self).showing) == chosen(found@),
            },
    {
        let choice = look(found);
        self.name = match choice {
            Some(i) => Some(found[i].0.clone()),
            None => None,
        };
        let playing = match choice {
            Some(i) => Some(found[i].1.copy()),
            None => None,
        };
        let unchanged = match (&self.showing, &playing) {
            (Some(a), Some(b)) => a.same(b),
            (None, None) => true,
            _ => false,
        };
        if unchanged {
            return None;
        }
        self.showing = match &playing {
            Some(p) => Some(p.copy()),
            None => None,
        };
        Some(reading_of(playing))
    }
}

} // verus!
