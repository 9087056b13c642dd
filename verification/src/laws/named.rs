//! What the names and figures in a configuration stand for.

use crate::collect::command::Run;
use crate::collect::which::{arrives, can_block, default_seconds, default_wording, fields_of, key};
use crate::collect::which::{CommandView, WhichView};
use crate::config::button::{action_of, button_name, job_key, ActionsView, Button, Job};
use crate::config::duration::{half_nanos, number_len, number_parts, unit_nanos, written_duration};
use crate::config::icon::{named_icon, written_icon, IconView};
use crate::config::module::{percent_text_of, step_of};
use crate::config::raw::{RawModule, RawStep, Scope};
use crate::config::refusal::SlipView;
use crate::config::source::{controlled, declared_fields, source_of, workspace_icons, SourceView};
use crate::laws::text::{free_of, law_a_text_is_parted_at_the_first};
use crate::laws::text::law_trimming_takes_the_spaces_around;
use crate::number::Number;
use crate::status::{Control, FieldView, Kind, Unit};
use crate::text::{all_digits, digits_value, is_digit, is_space, texts};
use crate::time::Duration;
use vstd::arithmetic::power::pow;
use vstd::prelude::*;

verus! {

/// The nanoseconds in one of what a unit counts.
pub open spec fn nanos_in(unit: Seq<char>) -> int {
    if unit == seq!['m', 's'] {
        1_000_000
    } else if unit == seq!['s'] {
        1_000_000_000
    } else if unit == seq!['m'] {
        60int * 1_000_000_000
    } else if unit == seq!['h'] {
        3_600int * 1_000_000_000
    } else {
        0
    }
}

proof fn lemma_unit(unit: Seq<char>)
    requires
        nanos_in(unit) > 0,
    ensures
        unit_nanos(unit) == Some(nanos_in(unit)),
        unit.len() > 0,
        !is_digit(unit[0]) && unit[0] != '.',
        !is_space(unit[0]) && !is_space(unit.last()),
{
    reveal_strlit("ms");
    reveal_strlit("s");
    reveal_strlit("m");
    reveal_strlit("h");
    assert("ms"@ =~= seq!['m', 's']);
    assert("s"@ =~= seq!['s']);
    assert("m"@ =~= seq!['m']);
    assert("h"@ =~= seq!['h']);
    assert(seq!['m', 's'].len() == 2);
    assert(seq!['s'][0] == 's' && seq!['m'][0] == 'm' && seq!['h'][0] == 'h');
}

proof fn lemma_number_len(number: Seq<char>, rest: Seq<char>)
    requires
        forall|i: int| 0 <= i < number.len() ==> is_digit(#[trigger] number[i]) || number[i] == '.',
        rest.len() > 0,
        !is_digit(rest[0]) && rest[0] != '.',
    ensures
        number_len(number + rest) == number.len(),
    decreases number.len(),
{
    let all = number + rest;
    if number.len() > 0 {
        lemma_number_len(number.drop_first(), rest);
        assert(all.drop_first() =~= number.drop_first() + rest);
        assert(all[0] == number[0]);
    } else {
        assert(all =~= rest);
    }
}

/// A duration is so many of its unit as its digits write, whatever spaces stand around it: a
/// thousandth of a second, a second, a minute or an hour each. It is no shorter than a
/// thousandth of a second and no longer than a year.
pub proof fn law_a_duration_is_so_many_of_its_unit(
    before: Seq<char>,
    digits: Seq<char>,
    unit: Seq<char>,
    behind: Seq<char>,
)
    requires
        forall|i: int| 0 <= i < before.len() ==> is_space(#[trigger] before[i]),
        forall|i: int| 0 <= i < behind.len() ==> is_space(#[trigger] behind[i]),
        digits.len() > 0,
        all_digits(digits),
        nanos_in(unit) > 0,
    ensures
        ({
            let n = digits_value(digits) * nanos_in(unit);
            let read = written_duration(before + (digits + unit) + behind);
            &&& 1_000_000 <= n <= 31_536_000int * 1_000_000_000 ==> (read matches Ok(d)
                && d.nanos == n)
            &&& n < 1_000_000 || n > 31_536_000int * 1_000_000_000 ==> read is Err
        }),
{
    let text = digits + unit;
    lemma_unit(unit);
    assert(text[0] == digits[0]);
    assert(is_digit(digits[0]));
    assert(text.last() == unit.last());
    law_trimming_takes_the_spaces_around(before, text, behind);
    lemma_number_len(digits, unit);
    let n = number_len(text) as int;
    assert(text.take(n) =~= digits);
    assert(text.skip(n) =~= unit);
    law_trimming_takes_the_spaces_around(Seq::empty(), unit, Seq::empty());
    assert(Seq::<char>::empty() + unit + Seq::<char>::empty() =~= unit);
    assert(free_of(digits, '.')) by {
        assert forall|i: int| 0 <= i < digits.len() implies #[trigger] digits[i] != '.' by {
            assert(is_digit(digits[i]));
        }
    }
    law_a_text_is_parted_at_the_first(digits, '.', Seq::empty());
    assert(digits + Seq::<char>::empty() =~= digits);
    assert(number_parts(digits) == Some((digits, Seq::<char>::empty())));
    vstd::arithmetic::power::lemma_pow0(10);
    let value = digits_value(digits) as int;
    let nanos = nanos_in(unit);
    assert(half_nanos(digits, Seq::empty(), nanos) == 2 * nanos * value);
    assert(2 * nanos * value == 2 * (value * nanos)) by (nonlinear_arith);
    if value == 0 {
        assert(value * nanos == 0) by (nonlinear_arith)
            requires
                value == 0,
        ;
    }
    assert((2 * (value * nanos) + 1) / 2 == value * nanos);
}

/// Digits behind a point are tenths, hundredths and so on of the unit, to the nearest
/// nanosecond.
pub proof fn law_a_duration_may_be_a_part_of_its_unit(
    whole: Seq<char>,
    part: Seq<char>,
    unit: Seq<char>,
)
    requires
        whole.len() > 0,
        all_digits(whole),
        all_digits(part),
        nanos_in(unit) > 0,
    ensures
        written_duration(whole + seq!['.'] + part + unit) matches Ok(d) ==> {
            let p = pow(10, part.len());
            let n = digits_value(whole + part) * nanos_in(unit);
            2 * n - p <= 2 * d.nanos * p <= 2 * n + p
        },
{
    let number = whole + seq!['.'] + part;
    let text = number + unit;
    lemma_unit(unit);
    assert(text[0] == whole[0]);
    assert(is_digit(whole[0]));
    assert(text.last() == unit.last());
    law_trimming_takes_the_spaces_around(Seq::empty(), text, Seq::empty());
    assert(Seq::<char>::empty() + text + Seq::<char>::empty() =~= text);
    assert forall|i: int| 0 <= i < number.len() implies is_digit(#[trigger] number[i]) || number[i]
        == '.' by {
        if i < whole.len() {
            assert(number[i] == whole[i]);
        } else if i > whole.len() {
            assert(number[i] == part[i - whole.len() - 1]);
        }
    }
    lemma_number_len(number, unit);
    let n = number_len(text) as int;
    assert(text.take(n) =~= number);
    assert(text.skip(n) =~= unit);
    law_trimming_takes_the_spaces_around(Seq::empty(), unit, Seq::empty());
    assert(Seq::<char>::empty() + unit + Seq::<char>::empty() =~= unit);
    assert(free_of(whole, '.')) by {
        assert forall|i: int| 0 <= i < whole.len() implies #[trigger] whole[i] != '.' by {
            assert(is_digit(whole[i]));
        }
    }
    law_a_text_is_parted_at_the_first(whole, '.', part);
    if let Ok(d) = written_duration(text) {
        let p = pow(10, part.len());
        vstd::arithmetic::power::lemma_pow_positive(10, part.len());
        let value = digits_value(whole + part) as int;
        let nanos = nanos_in(unit);
        let doubled = 2 * nanos * value;
        let halves = half_nanos(whole, part, nanos);
        assert(doubled == 2 * (value * nanos)) by (nonlinear_arith)
            requires
                doubled == 2 * nanos * value,
        ;
        assert(halves == doubled / p);
        assert(halves * p <= doubled < halves * p + p) by (nonlinear_arith)
            requires
                halves == doubled / p,
                p > 0,
        ;
        let got = d.nanos as int;
        assert(got == (halves + 1) / 2);
        assert(2 * got == halves || 2 * got == halves + 1);
        assert(2 * got * p == halves * p || 2 * got * p == halves * p + p) by (nonlinear_arith)
            requires
                2 * got == halves || 2 * got == halves + 1,
        ;
    }
}

/// A source that needs nothing said about it is known by its name alone.
pub proof fn law_a_source_is_known_by_its_name(
    module: Seq<char>,
    m: RawModule,
    icons: Seq<Seq<char>>,
)
    requires
        source_of(module, m, icons) is Ok,
    ensures
        ({
            let made = source_of(module, m, icons)->Ok_0;
            &&& m.source is None ==> made == SourceView::Provider
            &&& m.source matches Some(name) ==> {
                &&& name@ == "provider"@ <==> made == SourceView::Provider
                &&& name@ == "audio"@ <==> made == SourceView::Native(WhichView::Audio)
                &&& name@ == "media"@ <==> made == SourceView::Native(WhichView::Media)
                &&& name@ == "cpu"@ <==> made == SourceView::Native(WhichView::Cpu)
                &&& name@ == "memory"@ <==> made == SourceView::Native(WhichView::Memory)
                &&& name@ == "battery"@ <==> made == SourceView::Native(WhichView::Battery)
                &&& name@ == "backlight"@ <==> made == SourceView::Native(WhichView::Backlight)
                &&& name@ == "load"@ <==> made == SourceView::Native(WhichView::Load)
                &&& name@ == "time"@ <==> made == SourceView::Native(WhichView::Time)
                &&& name@ == "sway:mode"@ <==> made == SourceView::SwayMode
                &&& name@ == "temperature"@ <==> (made matches SourceView::Native(
                    WhichView::Temperature(_),
                ))
                &&& name@ == "disk"@ <==> (made matches SourceView::Native(WhichView::Disk(_)))
                &&& name@ == "network"@ <==> (made matches SourceView::Native(
                    WhichView::Network(_),
                ))
                &&& name@ == "command"@ <==> (made matches SourceView::Native(
                    WhichView::Command(_),
                ))
                &&& name@ == "sway:window"@ <==> made is SwayWindow
                &&& name@ == "sway:workspaces"@ <==> made is SwayWorkspaces
                &&& name@ == "sway:language"@ <==> made is SwayLanguage
                &&& name@ == "tray"@ <==> made is Tray
            }
        }),
{
    lemma_names_differ();
}

/// No two sources go by the same name.
proof fn lemma_names_differ()
    ensures
        "provider"@.len() == 8 && "audio"@.len() == 5 && "media"@.len() == 5,
        "cpu"@.len() == 3 && "memory"@.len() == 6 && "battery"@.len() == 7,
        "backlight"@.len() == 9 && "load"@.len() == 4 && "time"@.len() == 4,
        "sway:mode"@.len() == 9 && "temperature"@.len() == 11 && "disk"@.len() == 4,
        "network"@.len() == 7 && "command"@.len() == 7 && "sway:window"@.len() == 11,
        "sway:workspaces"@.len() == 15 && "sway:language"@.len() == 13 && "tray"@.len() == 4,
        "audio"@[0] == 'a' && "media"@[0] == 'm',
        "battery"@[0] == 'b' && "network"@[0] == 'n' && "command"@[0] == 'c',
        "backlight"@[0] == 'b' && "sway:mode"@[0] == 's',
        "temperature"@[0] == 't' && "sway:window"@[0] == 's',
        "load"@[0] == 'l' && "time"@[1] == 'i' && "disk"@[0] == 'd' && "tray"@[1] == 'r',
        "time"@[0] == 't' && "tray"@[0] == 't',
{
    reveal_strlit("provider");
    reveal_strlit("audio");
    reveal_strlit("media");
    reveal_strlit("cpu");
    reveal_strlit("memory");
    reveal_strlit("battery");
    reveal_strlit("backlight");
    reveal_strlit("load");
    reveal_strlit("time");
    reveal_strlit("sway:mode");
    reveal_strlit("temperature");
    reveal_strlit("disk");
    reveal_strlit("network");
    reveal_strlit("command");
    reveal_strlit("sway:window");
    reveal_strlit("sway:workspaces");
    reveal_strlit("sway:language");
    reveal_strlit("tray");
}

/// A source that something is said about has it from its own key, and where the key is not there
/// reads the root of the file system, every chip, or whatever interface is in use, and shows
/// what is on its own screen.
pub proof fn law_a_source_reads_what_it_is_told_to(
    module: Seq<char>,
    m: RawModule,
    icons: Seq<Seq<char>>,
)
    requires
        source_of(module, m, icons) is Ok,
    ensures
        match source_of(module, m, icons)->Ok_0 {
            SourceView::Native(WhichView::Disk(path)) => path == (match m.path {
                Some(p) => p@,
                None => seq!['/'],
            }),
            SourceView::Native(WhichView::Temperature(chip)) => chip == (match m.chip {
                Some(c) => Some(c@),
                None => None,
            }),
            SourceView::Native(WhichView::Network(device)) => device == (match m.interface {
                Some(i) => Some(i@),
                None => None,
            }),
            SourceView::SwayWindow(scope) => scope == (match m.scope {
                Some(s) => s,
                None => Scope::Output,
            }),
            SourceView::SwayWorkspaces(said) => said.scope == (match m.scope {
                Some(s) => s,
                None => Scope::Output,
            }),
            SourceView::Tray(said) => {
                &&& said.show_passive == (m.show_passive != Some(false))
                &&& said.order == texts(m.order@)
            },
            SourceView::Native(WhichView::Command(spec)) => {
                &&& spec.argv == texts(m.command@) + texts(m.params@)
                &&& m.command@.len() > 0
                &&& spec.pages == m.pages
                &&& m.interval is None ==> spec.run == Run::Stream
                &&& m.interval is Some ==> spec.run != Run::Stream
                &&& m.timeout is None ==> spec.timeout.nanos == 30_000_000_000
                &&& m.timeout matches Some(text) ==> written_duration(text@) == Ok::<
                    Duration,
                    SlipView,
                >(spec.timeout)
                &&& spec.run matches Run::Every(period) ==> written_duration(m.interval->0@)
                    == Ok::<Duration, SlipView>(period)
                &&& m.fields@.len() > 0 ==> {
                    &&& spec.fields.len() == m.fields@.len()
                    &&& forall|i: int|
                        0 <= i < spec.fields.len() ==> is_declared(
                            #[trigger] spec.fields[i],
                            m.fields@[i].0@,
                            m.fields@[i].1@,
                        )
                }
            },
            _ => true,
        },
{
    reveal_strlit("/");
    assert("/"@ =~= seq!['/']);
    if m.fields@.len() > 0 && declared_fields(m.fields@, 0) is Ok {
        lemma_declared(m.fields@, 0);
    }
}

/// Whether a field has the name it is declared under, and is of the kind that is declared: a
/// number, a percentage or a text.
pub open spec fn is_declared(field: FieldView, name: Seq<char>, kind: Seq<char>) -> bool {
    &&& field.name == name
    &&& kind == "number"@ <==> field.kind == Kind::Num(Unit::Plain)
    &&& kind == "percent"@ <==> field.kind == Kind::Num(Unit::Percent)
    &&& kind == "text"@ <==> field.kind == Kind::Text
}

proof fn lemma_declared(raw: Seq<(String, String)>, from: int)
    requires
        0 <= from <= raw.len(),
        declared_fields(raw, from) is Ok,
    ensures
        ({
            let made = declared_fields(raw, from)->Ok_0;
            &&& made.len() == raw.len() - from
            &&& forall|i: int|
                0 <= i < made.len() ==> is_declared(
                    #[trigger] made[i],
                    raw[from + i].0@,
                    raw[from + i].1@,
                )
        }),
    decreases raw.len() - from,
{
    if from < raw.len() {
        lemma_declared(raw, from + 1);
        reveal_strlit("number");
        reveal_strlit("percent");
        reveal_strlit("text");
        assert("number"@.len() == 6 && "percent"@.len() == 7 && "text"@.len() == 4);
        let made = declared_fields(raw, from)->Ok_0;
        let rest = declared_fields(raw, from + 1)->Ok_0;
        assert forall|i: int| 0 <= i < made.len() implies is_declared(
            #[trigger] made[i],
            raw[from + i].0@,
            raw[from + i].1@,
        ) by {
            if i > 0 {
                assert(made[i] == rest[i - 1]);
            }
        }
    }
}

/// Volume is what scrolling over the sound changes and brightness over the backlight, and
/// nothing else is changed by scrolling.
pub proof fn law_scrolling_changes_what_is_shown(source: SourceView)
    ensures
        controlled(source) == Some(Control::Volume) <==> source == SourceView::Native(
            WhichView::Audio,
        ),
        controlled(source) == Some(Control::Brightness) <==> source == SourceView::Native(
            WhichView::Backlight,
        ),
        controlled(source) != Some(Control::Media),
{
}

/// A notch is more than nothing and no more than all there is.
pub proof fn law_a_notch_is_a_share(raw: RawStep)
    ensures
        match step_of(raw) {
            Ok(step) => raw.value == Some(step) && step.finite() && (Number { bits: 0 }).less(step)
                && !(Number { bits: 0x4059_0000_0000_0000 }).less(step),
            Err(_) => raw.value is None || !raw.value->0.finite() || !(Number { bits: 0 }).less(
                raw.value->0,
            ) || (Number { bits: 0x4059_0000_0000_0000 }).less(raw.value->0),
        },
{
}

proof fn lemma_named_icon(icons: Seq<Seq<char>>, name: Seq<char>, from: int)
    requires
        0 <= from <= icons.len() <= usize::MAX,
    ensures
        match named_icon(icons, name, from) {
            Some(icon) => from <= icon.index < icons.len() && icons[icon.index as int] == name,
            None => forall|i: int| from <= i < icons.len() ==> #[trigger] icons[i] != name,
        },
    decreases icons.len() - from,
{
    if from < icons.len() && icons[from] != name {
        lemma_named_icon(icons, name, from + 1);
    }
}

/// A dollar and a name is the icon the catalogue has under the name; the word none is no icon;
/// and anything else is the text itself.
pub proof fn law_an_icon_is_named_or_written(
    text: Seq<char>,
    name: Seq<char>,
    icons: Seq<Seq<char>>,
)
    requires
        icons.len() <= usize::MAX,
    ensures
        text == seq!['$'] + name ==> match written_icon(text, icons) {
            Ok(icon) => icon matches Some(IconView::Native(i)) && i.index < icons.len()
                && icons[i.index as int] == name,
            Err(_) => !icons.contains(name),
        },
        text == "none"@ ==> written_icon(text, icons) == Ok::<Option<IconView>, SlipView>(None),
        (text.len() == 0 || text[0] != '$') && text != "none"@ ==> written_icon(text, icons)
            == Ok::<Option<IconView>, SlipView>(Some(IconView::Text(text))),
{
    reveal_strlit("$");
    reveal_strlit("none");
    if text == seq!['$'] + name {
        assert(text.subrange(0, 1) =~= "$"@);
        assert(text.skip(1) =~= name);
        lemma_named_icon(icons, name, 0);
    } else if text.len() > 0 && text[0] != '$' {
        assert(text.subrange(0, 1)[0] != "$"@[0]);
    }
}

/// What runs at a click is what is written for the button that was pressed.
pub proof fn law_a_click_runs_its_own_program(
    left: Option<Seq<Seq<char>>>,
    middle: Option<Seq<Seq<char>>>,
    right: Option<Seq<Seq<char>>>,
)
    ensures
        action_of((ActionsView { left, middle, right }), Button::Left) == left,
        action_of((ActionsView { left, middle, right }), Button::Middle) == middle,
        action_of((ActionsView { left, middle, right }), Button::Right) == right,
{
}

/// How often a source is read where nothing says: what moves all the time every two seconds,
/// heat and light every five, a battery every thirty, and the rest once a minute.
pub proof fn law_a_source_is_read_as_often_as_it_moves(w: WhichView)
    ensures
        w is Cpu || w is Memory || w is Load || w is Network ==> default_seconds(w) == 2,
        w is Temperature || w is Backlight ==> default_seconds(w) == 5,
        w is Battery ==> default_seconds(w) == 30,
        w is Audio || w is Media || w is Disk || w is Time || w is Command ==> default_seconds(w)
            == 60,
{
}

/// Whether a field has this name and is of this kind.
pub open spec fn is_field(f: FieldView, name: Seq<char>, kind: Kind) -> bool {
    f.name == name && f.kind == kind
}

/// What each source publishes, under which name, and in what it is counted.
pub proof fn law_each_source_publishes_its_own_fields(w: WhichView)
    ensures
        w is Audio ==> {
            &&& fields_of(w).len() == 4
            &&& is_field(fields_of(w)[0], "volume"@, Kind::Num(Unit::Percent))
            &&& is_field(fields_of(w)[1], "muted"@, Kind::Flag)
            &&& is_field(fields_of(w)[2], "device"@, Kind::Text)
            &&& is_field(fields_of(w)[3], "port"@, Kind::Text)
        },
        w is Media ==> {
            &&& fields_of(w).len() == 5
            &&& is_field(fields_of(w)[0], "title"@, Kind::Text)
            &&& is_field(fields_of(w)[1], "artist"@, Kind::Text)
            &&& is_field(fields_of(w)[2], "album"@, Kind::Text)
            &&& is_field(fields_of(w)[3], "status"@, Kind::Text)
            &&& is_field(fields_of(w)[4], "player"@, Kind::Text)
        },
        w is Cpu ==> {
            &&& fields_of(w).len() == 1
            &&& is_field(fields_of(w)[0], "utilization"@, Kind::Num(Unit::Percent))
        },
        w is Memory ==> {
            &&& fields_of(w).len() == 7
            &&& is_field(fields_of(w)[0], "percent"@, Kind::Num(Unit::Percent))
            &&& is_field(fields_of(w)[1], "used"@, Kind::Num(Unit::Bytes))
            &&& is_field(fields_of(w)[2], "total"@, Kind::Num(Unit::Bytes))
            &&& is_field(fields_of(w)[3], "available"@, Kind::Num(Unit::Bytes))
            &&& is_field(fields_of(w)[4], "swap_percent"@, Kind::Num(Unit::Percent))
            &&& is_field(fields_of(w)[5], "swap_used"@, Kind::Num(Unit::Bytes))
            &&& is_field(fields_of(w)[6], "swap_total"@, Kind::Num(Unit::Bytes))
        },
        w is Battery ==> {
            &&& fields_of(w).len() == 6
            &&& is_field(fields_of(w)[0], "percent"@, Kind::Num(Unit::Percent))
            &&& is_field(fields_of(w)[1], "status"@, Kind::Text)
            &&& is_field(fields_of(w)[2], "power"@, Kind::Num(Unit::Watts))
            &&& is_field(fields_of(w)[3], "time"@, Kind::Dur)
            &&& is_field(fields_of(w)[4], "health"@, Kind::Num(Unit::Percent))
            &&& is_field(fields_of(w)[5], "threshold"@, Kind::Num(Unit::Percent))
        },
        w is Backlight ==> {
            &&& fields_of(w).len() == 2
            &&& is_field(fields_of(w)[0], "brightness"@, Kind::Num(Unit::Percent))
            &&& is_field(fields_of(w)[1], "device"@, Kind::Text)
        },
        w is Load ==> {
            &&& fields_of(w).len() == 4
            &&& is_field(fields_of(w)[0], "one"@, Kind::Num(Unit::Plain))
            &&& is_field(fields_of(w)[1], "five"@, Kind::Num(Unit::Plain))
            &&& is_field(fields_of(w)[2], "fifteen"@, Kind::Num(Unit::Plain))
            &&& is_field(fields_of(w)[3], "percent"@, Kind::Num(Unit::Percent))
        },
        w is Temperature ==> {
            &&& fields_of(w).len() == 4
            &&& is_field(fields_of(w)[0], "temp"@, Kind::Num(Unit::Celsius))
            &&& is_field(fields_of(w)[1], "average"@, Kind::Num(Unit::Celsius))
            &&& is_field(fields_of(w)[2], "label"@, Kind::Text)
            &&& is_field(fields_of(w)[3], "chip"@, Kind::Text)
        },
        w is Disk ==> {
            &&& fields_of(w).len() == 6
            &&& is_field(fields_of(w)[0], "percent"@, Kind::Num(Unit::Percent))
            &&& is_field(fields_of(w)[1], "used"@, Kind::Num(Unit::Bytes))
            &&& is_field(fields_of(w)[2], "total"@, Kind::Num(Unit::Bytes))
            &&& is_field(fields_of(w)[3], "available"@, Kind::Num(Unit::Bytes))
            &&& is_field(fields_of(w)[4], "free"@, Kind::Num(Unit::Bytes))
            &&& is_field(fields_of(w)[5], "path"@, Kind::Text)
        },
        w is Network ==> {
            &&& fields_of(w).len() == 9
            &&& is_field(fields_of(w)[0], "down"@, Kind::Num(Unit::BytesPerSec))
            &&& is_field(fields_of(w)[1], "up"@, Kind::Num(Unit::BytesPerSec))
            &&& is_field(fields_of(w)[2], "device"@, Kind::Text)
            &&& is_field(fields_of(w)[3], "state"@, Kind::Text)
            &&& is_field(fields_of(w)[4], "received"@, Kind::Num(Unit::Bytes))
            &&& is_field(fields_of(w)[5], "sent"@, Kind::Num(Unit::Bytes))
            &&& is_field(fields_of(w)[6], "ssid"@, Kind::Text)
            &&& is_field(fields_of(w)[7], "signal"@, Kind::Num(Unit::Percent))
            &&& is_field(fields_of(w)[8], "dbm"@, Kind::Num(Unit::Plain))
        },
        w is Time ==> {
            &&& fields_of(w).len() == 1
            &&& is_field(fields_of(w)[0], "now"@, Kind::Time)
        },
{
}

/// What a module says where nothing says what it should: the one thing its source is for.
pub proof fn law_a_source_says_what_it_is_for(w: WhichView)
    ensures
        w is Audio ==> default_wording(w) == " $volume "@,
        w is Media ==> default_wording(w) == " $title{  $artist} "@,
        w is Cpu ==> default_wording(w) == " $utilization "@,
        w is Memory || w is Battery ==> default_wording(w) == " $percent "@,
        w is Backlight ==> default_wording(w) == " $brightness "@,
        w is Load ==> default_wording(w) == " $one "@,
        w is Temperature ==> default_wording(w) == " $temp "@,
        w is Disk ==> default_wording(w) == " $available "@,
        w is Network ==> default_wording(w) == " $down  $up "@,
        w is Time ==> default_wording(w) == " $now.time(f:'%a %d %b %H:%M') "@,
        w is Command ==> default_wording(w) == " $text "@,
{
}

/// What a button is called, and what each thing a button can do is written as.
pub proof fn law_buttons_and_what_they_do_have_names(b: Button, job: Job)
    ensures
        b is Left ==> button_name(b) == "left"@,
        b is Middle ==> button_name(b) == "middle"@,
        b is Right ==> button_name(b) == "right"@,
        job is Wordings ==> job_key(job) == "format_alt"@,
        job is Fold ==> job_key(job) == "collapsible"@,
        job is Refresh ==> job_key(job) == "refresh_button"@,
        job is Controls ==> job_key(job) == "controls"@,
        job is Mute ==> job_key(job) == "mute_button"@,
        job == Job::Program(Button::Left) ==> job_key(job) == "on_click.left"@,
        job == Job::Program(Button::Middle) ==> job_key(job) == "on_click.middle"@,
        job == Job::Program(Button::Right) ==> job_key(job) == "on_click.right"@,
{
}

/// What can keep its reader waiting is read on a thread of its own, and so is a chip that is
/// asked for by name; what is read there arrives, as what sound, players and programs say does.
pub proof fn law_what_can_keep_waiting_arrives(w: WhichView)
    ensures
        can_block(w) <==> w is Battery || w is Disk || w is Network || (
        w matches WhichView::Temperature(chip) && chip is Some),
        arrives(w) <==> can_block(w) || w is Audio || w is Media || w is Command,
{
}

/// Two commands are one source exactly when they are the same program, run the same way: which
/// fields a module reads of it does not make another.
pub proof fn law_one_program_is_one_source(a: CommandView, b: CommandView)
    ensures
        key(WhichView::Command(a)) == key(WhichView::Command(b)) <==> {
            &&& a.argv == b.argv
            &&& a.run == b.run
            &&& a.pages == b.pages
            &&& a.timeout == b.timeout
        },
{
    let (x, y) = (key(WhichView::Command(a)), key(WhichView::Command(b)));
    if x == y {
        assert(x->Command_0.argv == y->Command_0.argv);
        assert(x->Command_0.run == y->Command_0.run);
        assert(x->Command_0.pages == y->Command_0.pages);
        assert(x->Command_0.timeout == y->Command_0.timeout);
    }
}

/// A workspace has the icon that is written for its name, and a layout the name that is written
/// for it, each in the order they are written.
pub proof fn law_names_are_mapped_to_what_is_written_for_them(
    module: Seq<char>,
    m: RawModule,
    icons: Seq<Seq<char>>,
)
    requires
        source_of(module, m, icons) is Ok,
    ensures
        match source_of(module, m, icons)->Ok_0 {
            SourceView::SwayWorkspaces(said) => {
                &&& said.icons.len() == m.icons@.len()
                &&& forall|i: int|
                    0 <= i < said.icons.len() ==> is_mapped(
                        #[trigger] said.icons[i],
                        m.icons@[i].0@,
                        m.icons@[i].1@,
                        icons,
                    )
            },
            SourceView::SwayLanguage(layouts) => {
                &&& layouts.len() == m.layouts@.len()
                &&& forall|i: int|
                    0 <= i < layouts.len() ==> #[trigger] layouts[i] == (
                        m.layouts@[i].0@,
                        m.layouts@[i].1@,
                    )
            },
            _ => true,
        },
{
    if source_of(module, m, icons)->Ok_0 is SwayWorkspaces {
        lemma_workspace_icons(module, m.icons@, 0, icons);
    }
}

/// Whether a name is mapped to the icon a text writes.
pub open spec fn is_mapped(
    made: (Seq<char>, Option<IconView>),
    name: Seq<char>,
    text: Seq<char>,
    icons: Seq<Seq<char>>,
) -> bool {
    made.0 == name && written_icon(text, icons) == Ok::<Option<IconView>, SlipView>(made.1)
}

proof fn lemma_workspace_icons(
    module: Seq<char>,
    raw: Seq<(String, String)>,
    from: int,
    icons: Seq<Seq<char>>,
)
    requires
        0 <= from <= raw.len(),
        workspace_icons(module, raw, from, icons) is Ok,
    ensures
        ({
            let made = workspace_icons(module, raw, from, icons)->Ok_0;
            &&& made.len() == raw.len() - from
            &&& forall|i: int|
                0 <= i < made.len() ==> is_mapped(
                    #[trigger] made[i],
                    raw[from + i].0@,
                    raw[from + i].1@,
                    icons,
                )
        }),
    decreases raw.len() - from,
{
    if from < raw.len() {
        lemma_workspace_icons(module, raw, from + 1, icons);
        let made = workspace_icons(module, raw, from, icons)->Ok_0;
        let rest = workspace_icons(module, raw, from + 1, icons)->Ok_0;
        assert forall|i: int| 0 <= i < made.len() implies is_mapped(
            #[trigger] made[i],
            raw[from + i].0@,
            raw[from + i].1@,
            icons,
        ) by {
            if i > 0 {
                assert(made[i] == rest[i - 1]);
            }
        }
    }
}

/// A step may be written with the sign of a percentage behind it, and spaces around it.
pub proof fn law_a_step_may_have_its_sign(number: Seq<char>)
    requires
        number.len() > 0,
        !is_space(number[0]) && !is_space(number.last()),
        number.last() != '%',
    ensures
        percent_text_of(number) == number,
        percent_text_of(number + seq!['%']) == number,
{
    let none = Seq::<char>::empty();
    let signed = number + seq!['%'];
    law_trimming_takes_the_spaces_around(none, number, none);
    assert(none + number + none =~= number);
    assert(signed[0] == number[0]);
    law_trimming_takes_the_spaces_around(none, signed, none);
    assert(none + signed + none =~= signed);
    assert(signed.drop_last() =~= number);
}

} // verus!
