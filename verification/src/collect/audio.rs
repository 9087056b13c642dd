//! The volume of the sink the session plays to.

use crate::number::Number;
use crate::status::{about, no_fields, specs_view, with, Amount, AmountView, FieldSpec, FieldView};
use crate::status::{Fields, Kind, Reading, ReadingView, State, Unit, Value, ValueView};
use crate::text::{ascii_lowercase, contains, copy_text, has_text, natural, opt_view, owned};
use crate::text::{parse_u64, parse_whole, same, same_opts, to_ascii_lowercase, whole_number};
use vstd::prelude::*;

verus! {

/// What this source publishes.
pub open spec fn published() -> Seq<FieldView> {
    seq![
        FieldView { name: "volume"@, kind: Kind::Num(Unit::Percent) },
        FieldView { name: "muted"@, kind: Kind::Flag },
        FieldView { name: "device"@, kind: Kind::Text },
        FieldView { name: "port"@, kind: Kind::Text },
    ]
}

/// What this source publishes.
pub fn fields() -> (r: Vec<FieldSpec>)
    ensures
        specs_view(r@) == published(),
{
    let r = vec![
        FieldSpec::new("volume", Kind::Num(Unit::Percent)),
        FieldSpec::new("muted", Kind::Flag),
        FieldSpec::new("device", Kind::Text),
        FieldSpec::new("port", Kind::Text),
    ];
    assert(specs_view(r@) =~= published());
    r
}

/// What `serde_json` reads as the text under a key of the object that a text is: nothing where
/// the text is not JSON, is no object, has no such key, or holds something else under it.
pub uninterp spec fn json_text(text: Seq<char>, key: Seq<char>) -> Option<Seq<char>>;

/// `serde_json::from_str` into a `serde_json::Value`, then its `get` and `as_str`. The text under
/// a key is a function of the text and the key; which one it is, is only named here.
#[verifier::external_body]
fn json_member(text: &str, key: &str) -> (r: Option<String>)
    ensures
        opt_view(r) == json_text(text@, key@),
{
    let value = serde_json::from_str::<serde_json::Value>(text).ok()?;
    value.get(key)?.as_str().map(str::to_string)
}

/// A volume, however it is expressed.
#[derive(Clone, Copy, Debug)]
pub struct Levels {
    /// In the percentage points a person sees.
    pub volume: Number,
    pub muted: bool,
    /// How many channels it is written in. Setting a volume means writing one figure per
    /// channel, and a stereo figure sent to a mono sink is not a volume at all.
    pub channels: usize,
}

/// One output that is listed, and what it last said about itself.
#[derive(Debug)]
pub struct Sink {
    pub name: String,
    pub description: Option<String>,
    /// The node's own volume, which is where a virtual sink keeps it.
    pub levels: Option<Levels>,
    /// The card this output belongs to, and which of its routes carries this output.
    pub card: Option<(u32, i32)>,
}

/// One of the ways sound leaves a card.
#[derive(Debug)]
pub struct Route {
    pub index: i32,
    pub levels: Levels,
    /// The card's own name for this route, such as `analog-output-headphones`.
    pub name: Option<String>,
}

/// A sound card, and the volumes its outputs are actually controlled by, by the output index
/// the sink names, since a card has one route per jack.
///
/// A hardware output's volume is a property of the route the card is using, not of the node in
/// front of it. The node has a volume too, and for these it is a second, quieter gain nobody
/// asked for, so the route is what is read and what is set.
#[derive(Debug)]
pub struct Card {
    pub routes: Vec<(i32, Route)>,
}

/// Which socket the sound leaves by, as one of a few known words.
pub open spec fn socket(name: Seq<char>) -> Seq<char> {
    let s = ascii_lowercase(name);
    if has_text(s, "headphone"@) || has_text(s, "headset"@) {
        "headphones"@
    } else if has_text(s, "speaker"@) {
        "speaker"@
    } else if has_text(s, "hdmi"@) || has_text(s, "displayport"@) {
        "hdmi"@
    } else if has_text(s, "bluez"@) || has_text(s, "bluetooth"@) || has_text(s, "a2dp"@)
        || has_text(s, "sco"@) {
        "bluetooth"@
    } else if has_text(s, "lineout"@) || has_text(s, "line-out"@) {
        "line-out"@
    } else {
        "other"@
    }
}

/// Which socket a route's own name describes.
///
/// Cards name their routes themselves, and those names vary between drivers, so a name is
/// reduced to one of a few words a state rule can match. Anything unrecognised keeps `other`
/// rather than guessing.
pub fn port_of(name: &str) -> (r: &'static str)
    ensures
        r@ == socket(name@),
{
    let lowered = to_ascii_lowercase(name);
    let s = lowered.as_str();
    if contains(s, "headphone") || contains(s, "headset") {
        "headphones"
    } else if contains(s, "speaker") {
        "speaker"
    } else if contains(s, "hdmi") || contains(s, "displayport") {
        "hdmi"
    } else if contains(s, "bluez") || contains(s, "bluetooth") || contains(s, "a2dp") || contains(
        s,
        "sco",
    ) {
        "bluetooth"
    } else if contains(s, "lineout") || contains(s, "line-out") {
        "line-out"
    } else {
        "other"
    }
}

/// A property of a volume.
#[derive(Clone, Copy, Debug)]
pub enum LevelProperty {
    /// The volumes of its channels: how many there are, and the loudest, in percent. Every
    /// channel has its own volume and a person has one; the loudest is what they would call it.
    Channels { count: usize, loudest: Option<Number> },
    Mute(bool),
    /// Something that is nothing to do with how loud it is.
    Other,
}

/// How many channels the last volumes among the first `upto` properties are of.
pub open spec fn channels_said(props: Seq<LevelProperty>, upto: int) -> usize
    decreases upto,
{
    if upto <= 0 || upto > props.len() {
        0
    } else {
        match props[upto - 1] {
            LevelProperty::Channels { count, .. } => count,
            _ => channels_said(props, upto - 1),
        }
    }
}

/// The loudest of the last volumes among the first `upto` properties.
pub open spec fn volume_said(props: Seq<LevelProperty>, upto: int) -> Option<Number>
    decreases upto,
{
    if upto <= 0 || upto > props.len() {
        None
    } else {
        match props[upto - 1] {
            LevelProperty::Channels { loudest, .. } => loudest,
            _ => volume_said(props, upto - 1),
        }
    }
}

/// Whether the last word on it among the first `upto` properties is that it is muted.
pub open spec fn mute_said(props: Seq<LevelProperty>, upto: int) -> Option<bool>
    decreases upto,
{
    if upto <= 0 || upto > props.len() {
        None
    } else {
        match props[upto - 1] {
            LevelProperty::Mute(m) => Some(m),
            _ => mute_said(props, upto - 1),
        }
    }
}

/// The volume and mute among properties, if both are.
pub open spec fn levels_said(props: Seq<LevelProperty>) -> Option<Levels> {
    let n = props.len() as int;
    match (volume_said(props, n), mute_said(props, n)) {
        (Some(volume), Some(muted)) => Some(
            Levels { volume, muted, channels: channels_said(props, n) },
        ),
        _ => None,
    }
}

/// The volume and mute among properties, wherever they came from.
pub fn levels_in(props: &Vec<LevelProperty>) -> (r: Option<Levels>)
    ensures
        r == levels_said(props@),
{
    let mut volume: Option<Number> = None;
    let mut muted: Option<bool> = None;
    let mut channels: usize = 0;
    for i in 0..props.len()
        invariant
            volume == volume_said(props@, i as int),
            muted == mute_said(props@, i as int),
            channels == channels_said(props@, i as int),
    {
        match props[i] {
            LevelProperty::Channels { count, loudest } => {
                channels = count;
                volume = loudest;
            },
            LevelProperty::Mute(m) => {
                muted = Some(m);
            },
            LevelProperty::Other => {},
        }
    }
    match (volume, muted) {
        (Some(volume), Some(muted)) => Some(Levels { volume, muted, channels }),
        _ => None,
    }
}

/// A property of a route.
#[derive(Debug)]
pub enum RouteProperty {
    Index(i32),
    /// Which output the route carries.
    Device(i32),
    /// Whether sound leaves by it.
    Outward(bool),
    Props(Vec<LevelProperty>),
    Name(String),
    /// Something that is nothing to do with an output.
    Other,
}

/// The last index among the first `upto` properties.
pub open spec fn index_said(props: Seq<RouteProperty>, upto: int) -> Option<i32>
    decreases upto,
{
    if upto <= 0 || upto > props.len() {
        None
    } else {
        match props[upto - 1] {
            RouteProperty::Index(n) => Some(n),
            _ => index_said(props, upto - 1),
        }
    }
}

/// The last output among the first `upto` properties.
pub open spec fn output_said(props: Seq<RouteProperty>, upto: int) -> Option<i32>
    decreases upto,
{
    if upto <= 0 || upto > props.len() {
        None
    } else {
        match props[upto - 1] {
            RouteProperty::Device(n) => Some(n),
            _ => output_said(props, upto - 1),
        }
    }
}

/// Whether the last word on it among the first `upto` properties is that sound leaves.
pub open spec fn outward_said(props: Seq<RouteProperty>, upto: int) -> bool
    decreases upto,
{
    if upto <= 0 || upto > props.len() {
        false
    } else {
        match props[upto - 1] {
            RouteProperty::Outward(b) => b,
            _ => outward_said(props, upto - 1),
        }
    }
}

/// What the last properties of a volume among the first `upto` say.
pub open spec fn route_levels_said(props: Seq<RouteProperty>, upto: int) -> Option<Levels>
    decreases upto,
{
    if upto <= 0 || upto > props.len() {
        None
    } else {
        match props[upto - 1] {
            RouteProperty::Props(inner) => levels_said(inner@),
            _ => route_levels_said(props, upto - 1),
        }
    }
}

/// The last name among the first `upto` properties.
pub open spec fn name_said(props: Seq<RouteProperty>, upto: int) -> Option<Seq<char>>
    decreases upto,
{
    if upto <= 0 || upto > props.len() {
        None
    } else {
        match props[upto - 1] {
            RouteProperty::Name(s) => Some(s@),
            _ => name_said(props, upto - 1),
        }
    }
}

/// The output route that properties describe, and which output it belongs to: the output, the
/// index, the volume and the name. A card answers with every route it has, input ones included,
/// and only the outputs are anything to do with a volume on the bar.
pub open spec fn route_said(props: Seq<RouteProperty>) -> Option<
    (i32, i32, Levels, Option<Seq<char>>),
> {
    let n = props.len() as int;
    if !outward_said(props, n) {
        None
    } else {
        match (output_said(props, n), index_said(props, n), route_levels_said(props, n)) {
            (Some(output), Some(index), Some(levels)) => Some(
                (output, index, levels, name_said(props, n)),
            ),
            _ => None,
        }
    }
}

/// The output route that properties describe, and which output it belongs to.
pub fn route_of(props: &Vec<RouteProperty>) -> (r: Option<(i32, Route)>)
    ensures
        match r {
            Some((output, route)) => route_said(props@) == Some(
                (output, route.index, route.levels, opt_view(route.name)),
            ),
            None => route_said(props@) is None,
        },
{
    let mut index: Option<i32> = None;
    let mut output: Option<i32> = None;
    let mut levels: Option<Levels> = None;
    let mut outward = false;
    let mut name: Option<String> = None;
    for i in 0..props.len()
        invariant
            index == index_said(props@, i as int),
            output == output_said(props@, i as int),
            levels == route_levels_said(props@, i as int),
            outward == outward_said(props@, i as int),
            opt_view(name) == name_said(props@, i as int),
    {
        match &props[i] {
            RouteProperty::Index(n) => {
                index = Some(*n);
            },
            RouteProperty::Device(n) => {
                output = Some(*n);
            },
            RouteProperty::Outward(b) => {
                outward = *b;
            },
            RouteProperty::Props(inner) => {
                levels = levels_in(inner);
            },
            RouteProperty::Name(s) => {
                name = Some(s.clone());
            },
            RouteProperty::Other => {},
        }
    }
    if !outward {
        return None;
    }
    match (output, index, levels) {
        (Some(output), Some(index), Some(levels)) => Some((output, Route { index, levels, name })),
        _ => None,
    }
}

/// Where in a list something is kept under a number, from `from` on.
pub open spec fn place<T>(v: Seq<(u32, T)>, id: u32, from: int) -> Option<int>
    decreases v.len() - from,
{
    if from < 0 || from >= v.len() {
        None
    } else if v[from].0 == id {
        Some(from)
    } else {
        place(v, id, from + 1)
    }
}

fn find<T>(v: &Vec<(u32, T)>, id: u32) -> (r: Option<usize>)
    ensures
        match r {
            Some(i) => place(v@, id, 0) == Some(i as int) && i < v@.len() && v@[i as int].0 == id,
            None => place(v@, id, 0) is None,
        },
{
    for i in 0..v.len()
        invariant
            place(v@, id, 0) == place(v@, id, i as int),
    {
        if v[i].0 == id {
            return Some(i);
        }
    }
    None
}

/// What is kept under a number once this is put there: in place of what was, or last.
pub open spec fn kept<T>(v: Seq<(u32, T)>, id: u32, t: T) -> Seq<(u32, T)> {
    match place(v, id, 0) {
        Some(i) => v.update(i, (id, t)),
        None => v.push((id, t)),
    }
}

fn keep<T>(v: &mut Vec<(u32, T)>, id: u32, t: T)
    ensures
        final(v)@ == kept(old(v)@, id, t),
{
    match find(v, id) {
        Some(i) => {
            v.set(i, (id, t));
        },
        None => {
            v.push((id, t));
        },
    }
}

/// What is kept once whatever is kept under a number is not.
pub open spec fn dropped<T>(v: Seq<(u32, T)>, id: u32) -> Seq<(u32, T)> {
    match place(v, id, 0) {
        Some(i) => v.remove(i),
        None => v,
    }
}

fn forget<T>(v: &mut Vec<(u32, T)>, id: u32) -> (known: bool)
    ensures
        final(v)@ == dropped(old(v)@, id),
        known == (place(old(v)@, id, 0) is Some),
{
    match find(v, id) {
        Some(i) => {
            let _ = v.remove(i);
            true
        },
        None => false,
    }
}

/// Whether every number stands once.
pub open spec fn numbered_once<T>(v: Seq<(u32, T)>) -> bool {
    forall|i: int, j: int| 0 <= i < j < v.len() ==> (#[trigger] v[i]).0 != (#[trigger] v[j]).0
}

proof fn lemma_place<T>(v: Seq<(u32, T)>, id: u32, from: int)
    requires
        0 <= from <= v.len(),
    ensures
        match place(v, id, from) {
            Some(i) => from <= i < v.len() && v[i].0 == id,
            None => forall|i: int| from <= i < v.len() ==> (#[trigger] v[i]).0 != id,
        },
    decreases v.len() - from,
{
    if from < v.len() && v[from].0 != id {
        lemma_place(v, id, from + 1);
    }
}

/// What the sound server numbers is kept under its number once, whatever is put there or
/// dropped.
pub proof fn law_a_number_stands_once<T>(v: Seq<(u32, T)>, id: u32, t: T)
    requires
        numbered_once(v),
    ensures
        numbered_once(kept(v, id, t)),
        numbered_once(dropped(v, id)),
        place(kept(v, id, t), id, 0) matches Some(i) && kept(v, id, t)[i] == (id, t),
        place(dropped(v, id), id, 0) is None,
{
    lemma_place(v, id, 0);
    lemma_place(kept(v, id, t), id, 0);
    lemma_place(dropped(v, id), id, 0);
    match place(v, id, 0) {
        Some(at) => {
            assert(kept(v, id, t)[at].0 == id);
            let less = dropped(v, id);
            assert forall|i: int, j: int| 0 <= i < j < less.len() implies (#[trigger] less[i]).0
                != (#[trigger] less[j]).0 by {
                assert(less[i] == v[if i < at { i } else { i + 1 }]);
                assert(less[j] == v[if j < at { j } else { j + 1 }]);
            }
            assert forall|i: int| 0 <= i < less.len() implies (#[trigger] less[i]).0 != id by {
                assert(less[i] == v[if i < at { i } else { i + 1 }]);
                assert(v[at].0 == id);
            }
        },
        None => {
            assert(kept(v, id, t)[v.len() as int].0 == id);
        },
    }
}

/// Where among the routes of a card an output's is, from `from` on.
pub open spec fn route_place(v: Seq<(i32, Route)>, output: i32, from: int) -> Option<int>
    decreases v.len() - from,
{
    if from < 0 || from >= v.len() {
        None
    } else if v[from].0 == output {
        Some(from)
    } else {
        route_place(v, output, from + 1)
    }
}

fn find_route(v: &Vec<(i32, Route)>, output: i32) -> (r: Option<usize>)
    ensures
        match r {
            Some(i) => route_place(v@, output, 0) == Some(i as int) && i < v@.len(),
            None => route_place(v@, output, 0) is None,
        },
{
    for i in 0..v.len()
        invariant
            route_place(v@, output, 0) == route_place(v@, output, i as int),
    {
        if v[i].0 == output {
            return Some(i);
        }
    }
    None
}

/// Where among the outputs the one of a name is, from `from` on.
pub open spec fn named(v: Seq<(u32, Sink)>, name: Seq<char>, from: int) -> Option<int>
    decreases v.len() - from,
{
    if from < 0 || from >= v.len() {
        None
    } else if v[from].1.name@ == name {
        Some(from)
    } else {
        named(v, name, from + 1)
    }
}

/// What was last said: the volume, whether it is muted, what plays it and by which socket.
#[derive(Debug)]
pub struct Said {
    pub volume: Number,
    pub muted: bool,
    pub device: Option<String>,
    pub port: Option<String>,
}

/// What a `Said` says.
#[verifier::ext_equal]
pub struct SaidView {
    pub volume: Number,
    pub muted: bool,
    pub device: Option<Seq<char>>,
    pub port: Option<Seq<char>>,
}

impl View for Said {
    type V = SaidView;

    open spec fn view(&self) -> SaidView {
        SaidView {
            volume: self.volume,
            muted: self.muted,
            device: opt_view(self.device),
            port: opt_view(self.port),
        }
    }
}

/// Whether saying one thing after another changes nothing.
pub open spec fn unchanged(last: Option<SaidView>, now: SaidView) -> bool {
    match last {
        Some(l) => l.volume.equal(now.volume) && l.muted == now.muted && l.device == now.device
            && l.port == now.port,
        None => false,
    }
}

/// What is shown of what was said.
pub open spec fn shown(s: SaidView) -> ReadingView {
    let f = with(
        no_fields(),
        "volume"@,
        ValueView::Num { v: AmountView::Float(s.volume), unit: Unit::Percent },
    );
    let f = with(f, "muted"@, ValueView::Flag(s.muted));
    let f = with(
        f,
        "device"@,
        match s.device {
            Some(t) => ValueView::Text(t),
            None => ValueView::Absent,
        },
    );
    let f = with(
        f,
        "port"@,
        match s.port {
            Some(t) => ValueView::Text(t),
            None => ValueView::Absent,
        },
    );
    ReadingView { fields: about(f, "volume"@), state: State::Idle }
}

/// What is shown of what was said.
pub fn reading_of(s: &Said) -> (r: Reading)
    ensures
        r@ == shown(s@),
{
    let mut fields = Fields::new();
    fields.set("volume", Value::Num { v: Amount::Float(s.volume), unit: Unit::Percent });
    fields.set("muted", Value::Flag(s.muted));
    fields.set("device", Value::text_or_absent(copy_text(&s.device)));
    fields.set("port", Value::text_or_absent(copy_text(&s.port)));
    fields.set_primary("volume");
    Reading { fields, state: State::Idle }
}

/// What the bar can ask for, when a person scrolls or clicks on the volume.
#[derive(Clone, Copy, Debug)]
pub enum Command {
    /// Move the volume by this many of the percentage points a person sees.
    Volume(Number),
    /// Mute, or unmute, whichever it is not.
    ToggleMute,
}

/// What to change about an output.
#[derive(Clone, Copy, Debug)]
pub enum Setting {
    /// The volume of each of so many channels: this much, moved by a step, in percent, and
    /// neither below nothing nor above everything.
    Volume { from: Number, step: Number, channels: usize },
    Mute(bool),
}

/// Where to change it.
#[derive(Clone, Copy, Debug, PartialEq, Eq, Structural)]
pub enum Target {
    /// On a card's route, which is where the volume of a hardware output lives.
    Route { card: u32, index: i32, output: i32 },
    /// On the node, which is all that a virtual output has.
    Node(u32),
}

/// A change to ask for.
#[derive(Clone, Copy, Debug)]
pub struct Change {
    pub target: Target,
    pub setting: Setting,
}

/// Everything that is known of what plays sound.
#[derive(Debug)]
pub struct Sinks {
    /// The output the volume keys move.
    pub default: Option<String>,
    pub sinks: Vec<(u32, Sink)>,
    pub cards: Vec<(u32, Card)>,
    /// What was last said, so an event that changes nothing does not redraw the bar.
    pub last: Option<Said>,
}

/// What was last said, where anything was.
pub open spec fn last_view(s: Option<Said>) -> Option<SaidView> {
    match s {
        Some(s) => Some(s@),
        None => None,
    }
}

/// The output the volume keys move, which is the one a click here should move too.
pub open spec fn current_of(s: Sinks) -> Option<int> {
    match s.default {
        Some(name) => named(s.sinks@, name@, 0),
        None => None,
    }
}

/// The route carrying an output, when its card has one: where the card is, and where on it.
pub open spec fn carried_by(s: Sinks, sink: Sink) -> Option<(int, int)> {
    match sink.card {
        None => None,
        Some((card, output)) => match place(s.cards@, card, 0) {
            None => None,
            Some(c) => match route_place(s.cards@[c].1.routes@, output, 0) {
                None => None,
                Some(r) => Some((c, r)),
            },
        },
    }
}

/// What the default output is playing at, from wherever its volume really lives.
pub open spec fn playing_at(s: Sinks) -> Option<Levels> {
    match current_of(s) {
        None => None,
        Some(i) => {
            let sink = s.sinks@[i].1;
            match carried_by(s, sink) {
                Some((c, r)) => Some(s.cards@[c].1.routes@[r].1.levels),
                None => sink.levels,
            }
        },
    }
}

/// Which socket the default output is leaving by, when its card says. An output with no route
/// to ask, such as a virtual one or a Bluetooth device, has its own name stand in.
pub open spec fn leaving_by(s: Sinks) -> Option<Seq<char>> {
    match current_of(s) {
        None => None,
        Some(i) => {
            let sink = s.sinks@[i].1;
            match carried_by(s, sink) {
                Some((c, r)) => match s.cards@[c].1.routes@[r].1.name {
                    Some(name) => Some(socket(name@)),
                    None => None,
                },
                None => Some(socket(sink.name@)),
            }
        },
    }
}

/// What the default output is saying now. The socket is part of it, so plugging headphones in
/// redraws the bar even though the volume has not moved.
pub open spec fn saying(s: Sinks) -> Option<SaidView> {
    match playing_at(s) {
        None => None,
        Some(levels) => Some(
            SaidView {
                volume: levels.volume,
                muted: levels.muted,
                device: match current_of(s) {
                    Some(i) => opt_view(s.sinks@[i].1.description),
                    None => None,
                },
                port: leaving_by(s),
            },
        ),
    }
}

/// What is sent: what the default output is saying, if it is saying anything new.
pub open spec fn sent(s: Sinks) -> Option<SaidView> {
    match saying(s) {
        Some(now) => if unchanged(last_view(s.last), now) {
            None
        } else {
            Some(now)
        },
        None => None,
    }
}

/// What is known is the same, but for what was last said.
pub open spec fn same_knowledge(a: Sinks, b: Sinks) -> bool {
    a.default == b.default && a.sinks == b.sinks && a.cards == b.cards
}

/// What was sent and what is remembered of it, of what was known.
pub open spec fn published_from(before: Sinks, after: Sinks, r: Option<Reading>) -> bool {
    &&& same_knowledge(before, after)
    &&& match sent(before) {
        Some(now) => r is Some && r->0@ == shown(now) && last_view(after.last) == Some(now),
        None => r is None && after.last == before.last,
    }
}

impl Sinks {
    pub fn new() -> (s: Sinks)
        ensures
            s.default is None,
            s.sinks@.len() == 0,
            s.cards@.len() == 0,
            s.last is None,
    {
        Sinks { default: None, sinks: Vec::new(), cards: Vec::new(), last: None }
    }

    /// The output the volume keys move.
    pub fn current(&self) -> (r: Option<usize>)
        ensures
            match r {
                Some(i) => current_of(*self) == Some(i as int) && i < self.sinks@.len(),
                None => current_of(*self) is None,
            },
    {
        match &self.default {
            None => None,
            Some(name) => {
                for i in 0..self.sinks.len()
                    invariant
                        self.default == Some(*name),
                        named(self.sinks@, name@, 0) == named(self.sinks@, name@, i as int),
                {
                    if same(self.sinks[i].1.name.as_str(), name.as_str()) {
                        return Some(i);
                    }
                }
                None
            },
        }
    }

    /// The route carrying an output, when its card has one.
    pub fn carrier(&self, sink: &Sink) -> (r: Option<(usize, usize)>)
        ensures
            match r {
                Some((c, r)) => carried_by(*self, *sink) == Some((c as int, r as int)) && c
                    < self.cards@.len() && r < self.cards@[c as int].1.routes@.len(),
                None => carried_by(*self, *sink) is None,
            },
    {
        match sink.card {
            None => None,
            Some((card, output)) => match find(&self.cards, card) {
                None => None,
                Some(c) => match find_route(&self.cards[c].1.routes, output) {
                    None => None,
                    Some(r) => Some((c, r)),
                },
            },
        }
    }

    /// Which socket the default output is leaving by, when its card says.
    pub fn port(&self) -> (r: Option<&'static str>)
        ensures
            match r {
                Some(s) => leaving_by(*self) == Some(s@),
                None => leaving_by(*self) is None,
            },
    {
        let sink = match self.current() {
            Some(i) => &self.sinks[i].1,
            None => {
                return None;
            },
        };
        match self.carrier(sink) {
            Some((c, r)) => match &self.cards[c].1.routes[r].1.name {
                Some(name) => Some(port_of(name.as_str())),
                None => None,
            },
            None => Some(port_of(sink.name.as_str())),
        }
    }

    /// What the default output is playing at, from wherever its volume really lives.
    pub fn levels(&self) -> (r: Option<Levels>)
        ensures
            r == playing_at(*self),
    {
        let sink = match self.current() {
            Some(i) => &self.sinks[i].1,
            None => {
                return None;
            },
        };
        match self.carrier(sink) {
            Some((c, r)) => Some(self.cards[c].1.routes[r].1.levels),
            None => sink.levels,
        }
    }

    /// Say what the default output is now saying, if it is saying anything new.
    pub fn publish(&mut self) -> (r: Option<Reading>)
        ensures
            published_from(*old(self), *final(self), r),
    {
        let levels = match self.levels() {
            Some(levels) => levels,
            None => {
                return None;
            },
        };
        let device = match self.current() {
            Some(i) => copy_text(&self.sinks[i].1.description),
            None => None,
        };
        let port = match self.port() {
            Some(s) => Some(owned(s)),
            None => None,
        };
        let now = Said { volume: levels.volume, muted: levels.muted, device, port };
        let repeated = match &self.last {
            Some(l) => l.volume.is(now.volume) && l.muted == now.muted && same_opts(
                &l.device,
                &now.device,
            ) && same_opts(&l.port, &now.port),
            None => false,
        };
        if repeated {
            return None;
        }
        let reading = reading_of(&now);
        self.last = Some(now);
        Some(reading)
    }

    /// An output has appeared.
    pub fn sink_added(&mut self, id: u32, name: String, description: Option<String>)
        ensures
            final(self).default == old(self).default,
            final(self).cards == old(self).cards,
            final(self).last == old(self).last,
            final(self).sinks@ == kept(
                old(self).sinks@,
                id,
                (Sink { name, description, levels: None, card: None }),
            ),
    {
        keep(&mut self.sinks, id, Sink { name, description, levels: None, card: None });
    }

    /// A card has appeared.
    pub fn card_added(&mut self, id: u32)
        ensures
            final(self).default == old(self).default,
            final(self).sinks == old(self).sinks,
            final(self).last == old(self).last,
            exists|card: Card|
                #![auto]
                final(self).cards@ == kept(old(self).cards@, id, card) && card.routes@.len() == 0,
    {
        let card = Card { routes: Vec::new() };
        keep(&mut self.cards, id, card);
    }

    /// An output has described itself, and which card it belongs to where that is among what
    /// changed: saying nothing about the card is not the card going away.
    pub fn sink_described(&mut self, id: u32, card: Option<(u32, i32)>) -> (r: Option<Reading>)
        ensures
            exists|mid: Sinks|
                {
                    &&& #[trigger] published_from(mid, *final(self), r)
                    &&& mid.default == old(self).default
                    &&& mid.cards == old(self).cards
                    &&& mid.last == old(self).last
                    &&& mid.sinks@ == match (place(old(self).sinks@, id, 0), card) {
                        (Some(i), Some(c)) => old(self).sinks@.update(
                            i,
                            (
                                old(self).sinks@[i].0,
                                Sink { card: Some(c), ..old(self).sinks@[i].1 },
                            ),
                        ),
                        _ => old(self).sinks@,
                    }
                },
    {
        if let Some(i) = find(&self.sinks, id) {
            if card.is_some() {
                self.sinks[i].1.card = card;
            }
        }
        let ghost mid = *self;
        let r = self.publish();
        assert(published_from(mid, *self, r));
        r
    }

    /// An output has said what it is playing at.
    pub fn sink_levels(&mut self, id: u32, levels: Levels) -> (r: Option<Reading>)
        ensures
            exists|mid: Sinks|
                {
                    &&& #[trigger] published_from(mid, *final(self), r)
                    &&& mid.default == old(self).default
                    &&& mid.cards == old(self).cards
                    &&& mid.last == old(self).last
                    &&& mid.sinks@ == match place(old(self).sinks@, id, 0) {
                        Some(i) => old(self).sinks@.update(
                            i,
                            (
                                old(self).sinks@[i].0,
                                Sink { levels: Some(levels), ..old(self).sinks@[i].1 },
                            ),
                        ),
                        None => old(self).sinks@,
                    }
                },
    {
        if let Some(i) = find(&self.sinks, id) {
            self.sinks[i].1.levels = Some(levels);
        }
        let ghost mid = *self;
        let r = self.publish();
        assert(published_from(mid, *self, r));
        r
    }

    /// A card has said what one of its routes is set to.
    pub fn card_route(&mut self, id: u32, output: i32, route: Route) -> (r: Option<Reading>)
        ensures
            exists|mid: Sinks|
                {
                    &&& #[trigger] published_from(mid, *final(self), r)
                    &&& mid.default == old(self).default
                    &&& mid.sinks == old(self).sinks
                    &&& mid.last == old(self).last
                    &&& match place(old(self).cards@, id, 0) {
                        Some(i) => {
                            &&& mid.cards@.len() == old(self).cards@.len()
                            &&& forall|j: int|
                                0 <= j < mid.cards@.len() && j != i ==> (#[trigger] mid.cards@[j])
                                    == old(self).cards@[j]
                            &&& mid.cards@[i].0 == id
                            &&& mid.cards@[i].1.routes@ == match route_place(
                                old(self).cards@[i].1.routes@,
                                output,
                                0,
                            ) {
                                Some(k) => old(self).cards@[i].1.routes@.update(k, (output, route)),
                                None => old(self).cards@[i].1.routes@.push((output, route)),
                            }
                        },
                        None => mid.cards@ == old(self).cards@,
                    }
                },
    {
        if let Some(i) = find(&self.cards, id) {
            match find_route(&self.cards[i].1.routes, output) {
                Some(k) => {
                    self.cards[i].1.routes.set(k, (output, route));
                },
                None => {
                    self.cards[i].1.routes.push((output, route));
                },
            }
        }
        let ghost mid = *self;
        let r = self.publish();
        assert(published_from(mid, *self, r));
        r
    }

    /// Something is gone: an output or a card, or something that was neither.
    pub fn removed(&mut self, id: u32) -> (r: Option<Reading>)
        ensures
            place(old(self).sinks@, id, 0) is None && place(old(self).cards@, id, 0) is None ==> r
                is None && final(self).sinks@ == old(self).sinks@ && final(self).cards@ == old(
                self,
            ).cards@ && final(self).default == old(self).default && final(self).last == old(
                self,
            ).last,
            place(old(self).sinks@, id, 0) is Some || place(old(self).cards@, id, 0) is Some ==> (
            exists|mid: Sinks|
                {
                    &&& #[trigger] published_from(mid, *final(self), r)
                    &&& mid.default == old(self).default
                    &&& mid.last == old(self).last
                    &&& mid.sinks@ == dropped(old(self).sinks@, id)
                    &&& mid.cards@ == dropped(old(self).cards@, id)
                }),
    {
        let sink = forget(&mut self.sinks, id);
        let card = forget(&mut self.cards, id);
        if sink || card {
            let ghost mid = *self;
            let r = self.publish();
            assert(published_from(mid, *self, r));
            r
        } else {
            None
        }
    }

    /// Another output is the default one now, or none is.
    pub fn default_is(&mut self, name: Option<String>) -> (r: Option<Reading>)
        ensures
            exists|mid: Sinks|
                {
                    &&& #[trigger] published_from(mid, *final(self), r)
                    &&& mid.default == name
                    &&& mid.sinks == old(self).sinks
                    &&& mid.cards == old(self).cards
                    &&& mid.last == old(self).last
                },
    {
        self.default = name;
        let ghost mid = *self;
        let r = self.publish();
        assert(published_from(mid, *self, r));
        r
    }

    /// The metadata that names the defaults has changed. Only one of its keys is about what the
    /// volume keys move, and its value is an object with the name of the output in it.
    pub fn metadata(&mut self, key: Option<&str>, value: Option<&str>) -> (r: Option<Reading>)
        ensures
            match key {
                Some(k) => k@ != "default.audio.sink"@,
                None => true,
            } ==> r is None && *final(self) == *old(self),
            match key {
                Some(k) => k@ == "default.audio.sink"@,
                None => false,
            } ==> (exists|mid: Sinks|
                {
                    &&& #[trigger] published_from(mid, *final(self), r)
                    &&& opt_view(mid.default) == match value {
                        Some(v) => json_text(v@, "name"@),
                        None => None,
                    }
                    &&& mid.sinks == old(self).sinks
                    &&& mid.cards == old(self).cards
                    &&& mid.last == old(self).last
                }),
    {
        match key {
            None => None,
            Some(k) => {
                if !same(k, "default.audio.sink") {
                    return None;
                }
                let name = match value {
                    Some(v) => json_member(v, "name"),
                    None => None,
                };
                self.default_is(name)
            },
        }
    }

    /// What to ask of the default output. Nothing is recorded here: the volume on the bar is
    /// what is reported back a moment later, so what is drawn is what was accepted rather than
    /// what was asked for.
    pub fn apply(&self, command: Command) -> (r: Option<Change>)
        ensures
            r == wanted(*self, command),
    {
        let i = match self.current() {
            Some(i) => i,
            None => {
                return None;
            },
        };
        let levels = match self.levels() {
            Some(levels) => levels,
            None => {
                return None;
            },
        };
        let setting = match command {
            Command::Volume(step) => Setting::Volume {
                from: levels.volume,
                step,
                channels: if levels.channels == 0 {
                    1
                } else {
                    levels.channels
                },
            },
            Command::ToggleMute => Setting::Mute(!levels.muted),
        };
        let target = match self.carrier(&self.sinks[i].1) {
            Some((c, r)) => {
                let output = match self.sinks[i].1.card {
                    Some((_, output)) => output,
                    None => 0,
                };
                Target::Route {
                    card: self.cards[c].0,
                    index: self.cards[c].1.routes[r].1.index,
                    output,
                }
            },
            None => Target::Node(self.sinks[i].0),
        };
        Some(Change { target, setting })
    }
}

/// What is asked of the default output, where there is one and it says what it is playing at.
pub open spec fn wanted(s: Sinks, command: Command) -> Option<Change> {
    match (current_of(s), playing_at(s)) {
        (Some(i), Some(levels)) => {
            let (id, sink) = s.sinks@[i];
            Some(
                Change {
                    target: match (carried_by(s, sink), sink.card) {
                        (Some((c, r)), Some((_, output))) => Target::Route {
                            card: s.cards@[c].0,
                            index: s.cards@[c].1.routes@[r].1.index,
                            output,
                        },
                        _ => Target::Node(id),
                    },
                    setting: match command {
                        Command::Volume(step) => Setting::Volume {
                            from: levels.volume,
                            step,
                            channels: if levels.channels == 0 {
                                1
                            } else {
                                levels.channels
                            },
                        },
                        Command::ToggleMute => Setting::Mute(!levels.muted),
                    },
                },
            )
        },
        _ => None,
    }
}

/// Saying it again changes nothing: once something was sent, the same is not sent twice.
pub proof fn law_the_same_is_not_said_twice(before: Sinks, after: Sinks, r: Option<Reading>)
    requires
        published_from(before, after, r),
        match saying(before) {
            Some(now) => now.volume.comparable(),
            None => true,
        },
    ensures
        sent(after) is None,
{
    assert(saying(after) == saying(before));
}

/// A mute that is toggled and reported back is toggled back by the next: what is asked for is
/// always the opposite of what is.
pub proof fn law_toggling_asks_for_the_opposite(s: Sinks)
    ensures
        wanted(s, Command::ToggleMute) matches Some(change) ==> (change.setting matches Setting::Mute(
            m,
        ) && m != playing_at(s)->0.muted),
{
}

/// Whether a node is an output, by its class, and so worth following where it has a name.
pub fn is_sink(class: Option<&str>) -> (r: bool)
    ensures
        r == match class {
            Some(c) => c@ == "Audio/Sink"@,
            None => false,
        },
{
    match class {
        Some(c) => same(c, "Audio/Sink"),
        None => false,
    }
}

/// Whether a device is a sound card, by its class.
pub fn is_card(class: Option<&str>) -> (r: bool)
    ensures
        r == match class {
            Some(c) => c@ == "Audio/Device"@,
            None => false,
        },
{
    match class {
        Some(c) => same(c, "Audio/Device"),
        None => false,
    }
}

/// Whether metadata is the one that names the defaults.
pub fn is_defaults(name: Option<&str>) -> (r: bool)
    ensures
        r == match name {
            Some(n) => n@ == "default"@,
            None => false,
        },
{
    match name {
        Some(n) => same(n, "default"),
        None => false,
    }
}

/// The signed number of 32 bits that a text writes.
pub open spec fn small_number(s: Seq<char>) -> Option<i32> {
    match whole_number(s, 0x8000_0000) {
        Some(n) => if n < 0x8000_0000 {
            Some(n as i32)
        } else {
            None
        },
        None => None,
    }
}

/// Which card an output belongs to, and which of the card's outputs it is, by what it says of
/// both. An output that does not say both says neither.
pub open spec fn card_said(device: Option<Seq<char>>, profile: Option<Seq<char>>) -> Option<
    (u32, i32),
> {
    match (device, profile) {
        (Some(d), Some(p)) => match (natural(d, u32::MAX as nat), small_number(p)) {
            (Some(id), Some(output)) => Some((id as u32, output)),
            _ => None,
        },
        _ => None,
    }
}

pub fn card_of(device: Option<&str>, profile: Option<&str>) -> (r: Option<(u32, i32)>)
    ensures
        r == card_said(
            match device {
                Some(s) => Some(s@),
                None => None,
            },
            match profile {
                Some(s) => Some(s@),
                None => None,
            },
        ),
{
    let (d, p) = match (device, profile) {
        (Some(d), Some(p)) => (d, p),
        _ => {
            return None;
        },
    };
    let id = match parse_u64(d) {
        Some(n) => n,
        None => {
            return None;
        },
    };
    if id > 0xffff_ffff {
        return None;
    }
    match parse_whole(p, 0x8000_0000) {
        Some(n) => if n < 0x8000_0000 {
            Some((id as u32, n as i32))
        } else {
            None
        },
        None => None,
    }
}

} // verus!
