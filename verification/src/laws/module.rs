//! A module is what its table writes.

use crate::collect::which::WhichView;
use crate::config::button::Button;
use crate::config::duration::written_duration;
use crate::config::known::{named_table, Known, WardrobeView};
use crate::config::module::{module_of, wordings_of, worn_style};
use crate::config::raw::{RawModule, RawState, RawStyle};
use crate::config::refusal::{RefusalView, SlipView};
use crate::config::rule::{ranked, rule_of, rules_of, slot, RuleView};
use crate::config::source::{source_fields, source_of, SourceView};
use crate::config::style::{named_style, overlaid, StyleView};
use crate::laws::style::{keys_taken, law_a_written_key_is_worn};
use crate::status::{Control, FieldView, State};
use crate::text::texts;
use crate::time::Duration;
use vstd::prelude::*;

verus! {

/// Whether the text of a duration came out as the time it writes.
pub open spec fn time_taken(written: Option<String>, after: Option<Duration>) -> bool {
    &&& written is None ==> after is None
    &&& written matches Some(text) ==> (after matches Some(d) && written_duration(text@) == Ok::<
        Duration,
        SlipView,
    >(d))
}

/// Whether the program of a button came out as it is written.
pub open spec fn program_taken(written: Option<Vec<String>>, after: Option<Seq<Seq<char>>>) -> bool {
    &&& written is None ==> after is None
    &&& written matches Some(argv) ==> after == Some(texts(argv@))
}

proof fn lemma_wordings(
    module: Seq<char>,
    written: Seq<String>,
    from: int,
    fields: Seq<FieldView>,
    known: Known,
)
    requires
        0 <= from <= written.len(),
        wordings_of(module, written, from, fields, known) is Ok,
    ensures
        ({
            let made = wordings_of(module, written, from, fields, known)->Ok_0;
            &&& made.len() == written.len() - from
            &&& forall|i: int|
                0 <= i < made.len() ==> (#[trigger] made[i]).written == written[from + i]@
        }),
    decreases written.len() - from,
{
    if from < written.len() {
        lemma_wordings(module, written, from + 1, fields, known);
    }
}

/// What a module is called, when it is asked for, which buttons do what, what runs at a click,
/// and how its wordings read is what its table writes; and what the table leaves out is what it
/// has always been: the left button turns wordings, the right one folds, and the middle one
/// mutes where there is something to mute.
#[verifier::rlimit(40)]
pub proof fn law_a_module_is_what_its_table_writes(
    name: Seq<char>,
    m: RawModule,
    w: WardrobeView,
    known: Known,
    highest: i32,
)
    requires
        module_of(name, m, w, known, highest) is Ok,
    ensures
        ({
            let made = module_of(name, m, w, known, highest)->Ok_0;
            &&& made.name == name
            &&& source_of(name, m, known.icons@) == Ok::<SourceView, RefusalView>(made.source)
            &&& made.signal == m.signal
            &&& made.signal matches Some(offset) ==> 0 <= offset <= highest
            &&& made.refresh_button == m.refresh_button
            &&& made.alt_button == (match m.alt_button {
                Some(button) => button,
                None => Button::Left,
            })
            &&& made.mute_button is Some <==> (made.control matches Some((Control::Volume, _)))
            &&& made.mute_button matches Some(b) ==> b == (match m.mute_button {
                Some(button) => button,
                None => Button::Middle,
            })
            &&& made.collapse is Some <==> m.collapsible == Some(true)
            &&& made.collapse matches Some(fold) ==> {
                &&& fold.button == (match m.collapse_button {
                    Some(button) => button,
                    None => Button::Right,
                })
                &&& time_taken(m.collapse_animation, fold.animation)
                &&& fold.style is Some <==> m.collapsed is Some
            }
            &&& made.on_click is Some <==> m.on_click is Some
            &&& made.on_click matches Some(a) ==> {
                &&& program_taken(m.on_click->0.left, a.left)
                &&& program_taken(m.on_click->0.middle, a.middle)
                &&& program_taken(m.on_click->0.right, a.right)
            }
            &&& m.format matches Some(text) ==> made.format.written == text@
            &&& made.format_alt.len() == m.format_alt@.len()
            &&& forall|i: int|
                0 <= i < made.format_alt.len() ==> (#[trigger] made.format_alt[i]).written
                    == m.format_alt@[i]@
            &&& time_taken(m.alt_animation, made.alt_animation)
            &&& made.states.len() == m.states@.len()
        }),
{
    let source = source_of(name, m, known.icons@)->Ok_0;
    let style = worn_style(name, m, w, known)->Ok_0;
    let rules = rules_of(name, m.states@, 0, style, source, w, known)->Ok_0;
    lemma_wordings(name, m.format_alt@, 0, source_fields(source, known.elsewhere@), known);
    lemma_rules(name, m.states@, 0, style, source, w, known);
    lemma_ranked_len(rules);
}

/// How often a module's source is read is what its table writes, and where it writes nothing
/// what the source asks for; a source that tells of its own accord is not read at all.
pub proof fn law_a_module_is_read_as_often_as_it_writes(
    name: Seq<char>,
    m: RawModule,
    w: WardrobeView,
    known: Known,
    highest: i32,
)
    requires
        module_of(name, m, w, known, highest) is Ok,
    ensures
        ({
            let made = module_of(name, m, w, known, highest)->Ok_0;
            match made.source {
                SourceView::Native(WhichView::Command(_)) => made.interval is None,
                SourceView::Native(_) => made.interval is Some && (m.interval matches Some(text)
                    ==> written_duration(text@) == Ok::<Duration, SlipView>(made.interval->0)),
                _ => made.interval is None && m.interval is None,
            }
        }),
{
}

pub proof fn lemma_named_style(styles: Seq<(Seq<char>, StyleView)>, name: Seq<char>, from: int)
    requires
        0 <= from <= styles.len(),
    ensures
        match named_style(styles, name, from) {
            Some(style) => exists|i: int|
                from <= i < styles.len() && #[trigger] styles[i] == (name, style),
            None => forall|i: int| from <= i < styles.len() ==> (#[trigger] styles[i]).0 != name,
        },
    decreases styles.len() - from,
{
    if from < styles.len() && styles[from].0 != name {
        lemma_named_style(styles, name, from + 1);
    } else if from < styles.len() {
        assert(styles[from] == (name, styles[from].1));
    }
}

/// A module wears the style it names, or the bar's own where it names none, with the keys of its
/// own table over that.
pub proof fn law_a_module_wears_the_style_it_names(
    name: Seq<char>,
    m: RawModule,
    w: WardrobeView,
    known: Known,
    highest: i32,
)
    requires
        module_of(name, m, w, known, highest) is Ok,
    ensures
        ({
            let made = module_of(name, m, w, known, highest)->Ok_0;
            match m.style {
                None => keys_taken(m.overrides, w.base, made.style, w.palette, known.icons@),
                Some(worn) => exists|i: int|
                    {
                        &&& 0 <= i < w.styles.len()
                        &&& (#[trigger] w.styles[i]).0 == worn@
                        &&& keys_taken(
                            m.overrides,
                            w.styles[i].1,
                            made.style,
                            w.palette,
                            known.icons@,
                        )
                    },
            }
        }),
{
    let made = module_of(name, m, w, known, highest)->Ok_0;
    match m.style {
        None => {
            law_a_written_key_is_worn(w.base, m.overrides, w.palette, known.icons@);
        },
        Some(worn) => {
            lemma_named_style(w.styles, worn@, 0);
            let under = named_style(w.styles, worn@, 0)->0;
            law_a_written_key_is_worn(under, m.overrides, w.palette, known.icons@);
            let i = choose|i: int| 0 <= i < w.styles.len() && #[trigger] w.styles[i] == (
                worn@,
                under,
            );
            assert(w.styles[i].1 == under);
        },
    }
}

proof fn lemma_rules(
    module: Seq<char>,
    states: Seq<(String, RawState)>,
    from: int,
    style: StyleView,
    source: SourceView,
    w: WardrobeView,
    known: Known,
)
    requires
        0 <= from <= states.len(),
        rules_of(module, states, from, style, source, w, known) is Ok,
    ensures
        ({
            let made = rules_of(module, states, from, style, source, w, known)->Ok_0;
            &&& made.len() == states.len() - from
            &&& forall|i: int|
                0 <= i < made.len() ==> {
                    &&& (#[trigger] made[i]).0 == states[from + i].0@
                    &&& rule_of(states[from + i].1, style, source, w, known) == Ok::<
                        RuleView,
                        SlipView,
                    >(made[i].1)
                }
        }),
    decreases states.len() - from,
{
    if from < states.len() {
        lemma_rules(module, states, from + 1, style, source, w, known);
    }
}

proof fn lemma_ranked_len(rules: Seq<(Seq<char>, RuleView)>)
    ensures
        ranked(rules).len() == rules.len(),
    decreases rules.len(),
{
    if rules.len() > 0 {
        lemma_ranked_len(rules.drop_last());
        lemma_slot_within(ranked(rules.drop_last()), rules.last().1, 0);
    }
}

proof fn lemma_slot_within(rules: Seq<(Seq<char>, RuleView)>, rule: RuleView, from: int)
    requires
        0 <= from <= rules.len(),
    ensures
        from <= slot(rules, rule, from) <= rules.len(),
    decreases rules.len() - from,
{
    if from < rules.len() {
        lemma_slot_within(rules, rule, from + 1);
    }
}

proof fn lemma_named_table(
    tables: Seq<(String, RawStyle)>,
    name: Seq<char>,
    from: int,
)
    requires
        0 <= from <= tables.len(),
    ensures
        match named_table(tables, name, from) {
            Some(table) => exists|i: int|
                from <= i < tables.len() && (#[trigger] tables[i]).0@ == name && tables[i].1
                    == table,
            None => forall|i: int| from <= i < tables.len() ==> (#[trigger] tables[i]).0@ != name,
        },
    decreases tables.len() - from,
{
    if from < tables.len() && tables[from].0@ != name {
        lemma_named_table(tables, name, from + 1);
    } else if from < tables.len() {
        assert(tables[from].0@ == name);
    }
}

/// A state rule asks for what its table writes, neither more nor less.
pub proof fn law_a_state_asks_for_what_its_table_writes(
    s: RawState,
    style: StyleView,
    source: SourceView,
    w: WardrobeView,
    known: Known,
)
    requires
        rule_of(s, style, source, w, known) is Ok,
    ensures
        ({
            let rule = rule_of(s, style, source, w, known)->Ok_0;
            &&& rule.urgent == s.urgent
            &&& rule.hover == s.hover
            &&& rule.focused == s.focused
            &&& rule.visible == s.visible
            &&& rule.strip == s.strip
            &&& rule.below == s.below
            &&& rule.above == s.above
            &&& rule.headroom == s.headroom
            &&& rule.state is Some <==> s.state is Some
            &&& s.field is None ==> rule.field is None
            &&& s.field matches Some(text) ==> rule.field == Some(text@)
            &&& s.equals is None ==> rule.equals is None
            &&& s.equals matches Some(text) ==> rule.equals == Some(text@)
            &&& s.contains is None ==> rule.contains is None
            &&& s.contains matches Some(text) ==> rule.contains == Some(text@)
            &&& rule.fields.len() == s.fields@.len()
            &&& forall|i: int|
                0 <= i < rule.fields.len() ==> #[trigger] rule.fields[i] == (
                    s.fields@[i].0@,
                    s.fields@[i].1@,
                )
        }),
{
}

/// A state wears its module's style, with the keys of the style it names over that, and its own
/// keys over both.
pub proof fn law_a_state_wears_its_keys_over_its_modules(
    s: RawState,
    style: StyleView,
    source: SourceView,
    w: WardrobeView,
    known: Known,
)
    requires
        rule_of(s, style, source, w, known) is Ok,
    ensures
        ({
            let rule = rule_of(s, style, source, w, known)->Ok_0;
            match s.style {
                None => keys_taken(s.overrides, style, rule.style, w.palette, known.icons@),
                Some(worn) => exists|i: int, between: StyleView|
                    {
                        &&& 0 <= i < w.tables.len()
                        &&& (#[trigger] w.tables[i]).0@ == worn@
                        &&& #[trigger] keys_taken(
                            w.tables[i].1,
                            style,
                            between,
                            w.palette,
                            known.icons@,
                        )
                        &&& keys_taken(s.overrides, between, rule.style, w.palette, known.icons@)
                    },
            }
        }),
{
    let icons = known.icons@;
    match s.style {
        None => {
            law_a_written_key_is_worn(style, s.overrides, w.palette, icons);
        },
        Some(worn) => {
            lemma_named_table(w.tables, worn@, 0);
            let table = named_table(w.tables, worn@, 0)->0;
            let i = choose|i: int|
                0 <= i < w.tables.len() && (#[trigger] w.tables[i]).0@ == worn@ && w.tables[i].1
                    == table;
            law_a_written_key_is_worn(style, table, w.palette, icons);
            let between = overlaid(style, table, w.palette, icons)->Ok_0;
            law_a_written_key_is_worn(between, s.overrides, w.palette, icons);
            assert(w.tables[i].1 == table);
            assert(keys_taken(w.tables[i].1, style, between, w.palette, icons));
        },
    }
}

/// The words a state is rated by are the names of the ratings.
pub proof fn law_a_rating_is_called_by_its_name(
    s: RawState,
    rule: RuleView,
    style: StyleView,
    source: SourceView,
    w: WardrobeView,
    known: Known,
)
    requires
        rule_of(s, style, source, w, known) == Ok::<RuleView, SlipView>(rule),
    ensures
        s.state matches Some(word) ==> {
            &&& word@ == "idle"@ ==> rule.state == Some(State::Idle)
            &&& word@ == "info"@ ==> rule.state == Some(State::Info)
            &&& word@ == "good"@ ==> rule.state == Some(State::Good)
            &&& word@ == "warning"@ ==> rule.state == Some(State::Warning)
            &&& word@ == "critical"@ ==> rule.state == Some(State::Critical)
            &&& word@ == "error"@ ==> rule.state == Some(State::Error)
        },
{
    reveal_strlit("idle");
    reveal_strlit("info");
    reveal_strlit("good");
    reveal_strlit("warning");
    reveal_strlit("critical");
    reveal_strlit("error");
    assert("idle"@.len() == 4 && "info"@.len() == 4 && "good"@.len() == 4);
    assert("warning"@.len() == 7 && "critical"@.len() == 8 && "error"@.len() == 5);
    assert("idle"@[1] == 'd' && "info"@[1] == 'n' && "good"@[1] == 'o');
}

} // verus!
