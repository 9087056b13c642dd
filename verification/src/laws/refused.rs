//! What a configuration cannot say, and so what can be relied on once it is accepted.

use crate::collect::command::Run;
use crate::collect::which::{default_seconds, WhichView};
use crate::config::button::{action_of, Button, Job};
use crate::config::group::group_of;
use crate::config::known::{Known, WardrobeView};
use crate::config::module::{claimed, collapsed_style, format_of, given, given_program};
use crate::config::module::{law_a_button_does_one_thing, module_of, unaskable, unpublished, ModuleView};
use crate::config::raw::{RawCollapsedStyle, RawGroup, RawModule, RawState};
use crate::config::refusal::SlipView;
use crate::config::rule::rule_of;
use crate::config::source::{key_trouble, misplaced, owned_keys, source_fields, source_of};
use crate::config::source::{source_name, SourceView};
use crate::config::style::{named_style, StyleView};
use crate::laws::module::lemma_named_style;
use crate::laws::style::{keys_taken, law_a_written_key_is_worn};
use crate::status::{kind_named, Control, FieldView, Kind};
use vstd::prelude::*;

verus! {

/// What each button of a module is taken by, for each thing a button can be taken by.
pub open spec fn taken_by(m: ModuleView) -> Seq<Option<Button>> {
    let program = |b: Button|
        match m.on_click {
            Some(a) => if action_of(a, b) is Some {
                Some(b)
            } else {
                None
            },
            None => None,
        };
    seq![
        if m.format_alt.len() > 0 {
            Some(m.alt_button)
        } else {
            None
        },
        match m.collapse {
            Some(fold) => Some(fold.button),
            None => None,
        },
        m.refresh_button,
        match m.control {
            Some((Control::Media, _)) => Some(Button::Left),
            _ => None,
        },
        m.mute_button,
        program(Button::Left),
        program(Button::Middle),
        program(Button::Right),
    ]
}

/// How many of the first `n` are there.
spec fn so_many(taken: Seq<Option<Button>>, n: int) -> int
    decreases n,
{
    if n <= 0 || n > taken.len() {
        0
    } else {
        so_many(taken, n - 1) + if taken[n - 1] is Some {
            1int
        } else {
            0
        }
    }
}

/// The buttons of claims, in order.
spec fn buttons(claims: Seq<(Button, Job)>) -> Seq<Button> {
    Seq::new(claims.len(), |i: int| claims[i].0)
}

/// The buttons that are there among the first `n`, in order.
spec fn flat(taken: Seq<Option<Button>>, n: int) -> Seq<Button>
    decreases n,
{
    if n <= 0 || n > taken.len() {
        Seq::empty()
    } else {
        match taken[n - 1] {
            Some(b) => flat(taken, n - 1).push(b),
            None => flat(taken, n - 1),
        }
    }
}

proof fn lemma_flat(taken: Seq<Option<Button>>, n: int, k: int)
    requires
        0 <= k < n <= taken.len(),
        taken[k] is Some,
    ensures
        0 <= so_many(taken, k) < flat(taken, n).len(),
        flat(taken, n)[so_many(taken, k)] == taken[k]->0,
        flat(taken, n).len() == so_many(taken, n),
    decreases n,
{
    lemma_flat_len(taken, n);
    lemma_flat_len(taken, n - 1);
    lemma_some(taken, k);
    if k < n - 1 {
        lemma_flat(taken, n - 1, k);
    }
}

proof fn lemma_flat_len(taken: Seq<Option<Button>>, n: int)
    ensures
        0 <= n <= taken.len() ==> flat(taken, n).len() == so_many(taken, n),
    decreases n,
{
    if 0 < n <= taken.len() {
        lemma_flat_len(taken, n - 1);
    }
}

proof fn lemma_given(
    claims: Seq<(Button, Job)>,
    more: Seq<(Button, Job)>,
    b: Option<Button>,
    job: Job,
    taken: Seq<Option<Button>>,
    n: int,
)
    requires
        0 <= n < taken.len(),
        more == given(b, job),
        taken[n] == b,
        buttons(claims) == flat(taken, n),
    ensures
        buttons(claims + more) == flat(taken, n + 1),
{
    assert(buttons(claims + more) =~= flat(taken, n + 1));
}

proof fn lemma_claims(m: ModuleView)
    ensures
        buttons(claimed(m)) == flat(taken_by(m), 8),
{
    let t = taken_by(m);
    let none = Seq::<(Button, Job)>::empty();
    let c0 = given(t[0], Job::Wordings);
    let c1 = given(t[1], Job::Fold);
    let c2 = given(t[2], Job::Refresh);
    let c3 = given(t[3], Job::Controls);
    let c4 = given(t[4], Job::Mute);
    let c5 = given_program(m.on_click, Button::Left);
    let c6 = given_program(m.on_click, Button::Middle);
    let c7 = given_program(m.on_click, Button::Right);
    assert(buttons(none) =~= flat(t, 0));
    assert(none + c0 =~= c0);
    lemma_given(none, c0, t[0], Job::Wordings, t, 0);
    lemma_given(c0, c1, t[1], Job::Fold, t, 1);
    lemma_given(c0 + c1, c2, t[2], Job::Refresh, t, 2);
    lemma_given(c0 + c1 + c2, c3, t[3], Job::Controls, t, 3);
    lemma_given(c0 + c1 + c2 + c3, c4, t[4], Job::Mute, t, 4);
    lemma_given(c0 + c1 + c2 + c3 + c4, c5, t[5], Job::Program(Button::Left), t, 5);
    lemma_given(c0 + c1 + c2 + c3 + c4 + c5, c6, t[6], Job::Program(Button::Middle), t, 6);
    lemma_given(c0 + c1 + c2 + c3 + c4 + c5 + c6, c7, t[7], Job::Program(Button::Right), t, 7);
}

proof fn lemma_so_many(taken: Seq<Option<Button>>, a: int, b: int)
    requires
        0 <= a < b <= taken.len(),
        taken[a] is Some,
    ensures
        so_many(taken, a) < so_many(taken, b),
        0 <= so_many(taken, a),
    decreases b,
{
    if a < b - 1 {
        lemma_so_many(taken, a, b - 1);
    } else {
        lemma_some(taken, a);
    }
}

proof fn lemma_some(taken: Seq<Option<Button>>, n: int)
    ensures
        0 <= so_many(taken, n),
    decreases n,
{
    if 0 < n <= taken.len() {
        lemma_some(taken, n - 1);
    }
}

/// No button of a module is taken by two things: not by turning wordings, folding, reading
/// again, playing, muting or a program and another of them.
pub proof fn law_no_button_is_taken_twice(
    name: Seq<char>,
    m: RawModule,
    w: WardrobeView,
    known: Known,
    highest: i32,
    a: int,
    b: int,
)
    requires
        module_of(name, m, w, known, highest) is Ok,
        0 <= a < b < 8,
    ensures
        ({
            let taken = taken_by(module_of(name, m, w, known, highest)->Ok_0);
            taken[a] is Some && taken[b] is Some ==> taken[a] != taken[b]
        }),
{
    let made = module_of(name, m, w, known, highest)->Ok_0;
    let taken = taken_by(made);
    law_a_button_does_one_thing(name, m, w, known, highest);
    lemma_claims(made);
    if taken[a] is Some && taken[b] is Some {
        lemma_so_many(taken, a, b);
        lemma_flat(taken, 8, a);
        lemma_flat(taken, 8, b);
        let claims = claimed(made);
        assert(buttons(claims)[so_many(taken, a)] == claims[so_many(taken, a)].0);
        assert(buttons(claims)[so_many(taken, b)] == claims[so_many(taken, b)].0);
        assert(claimed(made)[so_many(taken, a)].0 != claimed(made)[so_many(taken, b)].0);
    }
}

/// A key that only one source reads is not there for any other.
pub proof fn law_a_key_belongs_to_its_source(
    module: Seq<char>,
    m: RawModule,
    icons: Seq<Seq<char>>,
)
    requires
        source_of(module, m, icons) is Ok,
    ensures
        ({
            let name = match m.source {
                Some(s) => s@,
                None => "provider"@,
            };
            &&& m.path is Some ==> name == "disk"@
            &&& m.interface is Some ==> name == "network"@
            &&& m.chip is Some ==> name == "temperature"@
            &&& m.command@.len() > 0 ==> name == "command"@
            &&& m.fields@.len() > 0 ==> name == "command"@
            &&& m.params@.len() > 0 ==> name == "command"@
            &&& m.pages ==> name == "command"@
            &&& m.timeout is Some ==> name == "command"@
            &&& m.layouts@.len() > 0 ==> name == "sway:language"@
            &&& m.icons@.len() > 0 ==> name == "sway:workspaces"@
            &&& m.show_passive is Some ==> name == "tray"@
            &&& m.order@.len() > 0 ==> name == "tray"@
            &&& m.scope is Some ==> name == "sway:window"@ || name == "sway:workspaces"@
        }),
{
    assert(key_trouble(m) is None);
    reveal_with_fuel(misplaced, 13);
    let keys = owned_keys(m);
    let name = source_name(m);
    assert(keys.len() == 12);
    assert(misplaced(keys, name, 0) is None);
}

/// A source can be asked to read again unless it only tells of its own accord: a program that
/// streams, the sound, a player, and whatever is not the bar's own to read.
pub proof fn law_what_tells_of_its_own_accord_is_not_asked(source: SourceView)
    ensures
        unaskable(source) is None <==> (source matches SourceView::Native(which) && !(which is Audio)
            && !(which is Media) && (which matches WhichView::Command(c) ==> c.run
            != Run::Stream)),
{
}

/// A module with a signal, or with a button to read it again, has a source that can be asked.
pub proof fn law_only_what_can_be_asked_has_a_signal(
    name: Seq<char>,
    m: RawModule,
    w: WardrobeView,
    known: Known,
    highest: i32,
)
    requires
        module_of(name, m, w, known, highest) is Ok,
        m.signal is Some || m.refresh_button is Some,
    ensures
        module_of(name, m, w, known, highest)->Ok_0.source matches SourceView::Native(which)
            && !(which is Audio) && !(which is Media) && (which matches WhichView::Command(c)
            ==> c.run != Run::Stream),
{
}

/// What a scroll or a click changes: the sound by the step that is written, the light by the
/// step that is written, and players where they are asked for; and nothing where nothing is.
pub proof fn law_a_module_changes_what_it_says(
    name: Seq<char>,
    m: RawModule,
    w: WardrobeView,
    known: Known,
    highest: i32,
)
    requires
        module_of(name, m, w, known, highest) is Ok,
    ensures
        ({
            let made = module_of(name, m, w, known, highest)->Ok_0;
            match made.control {
                Some((Control::Volume, step)) => made.source == SourceView::Native(
                    WhichView::Audio,
                ) && (m.scroll matches Some(raw) && raw.value == Some(step)),
                Some((Control::Brightness, step)) => made.source == SourceView::Native(
                    WhichView::Backlight,
                ) && (m.scroll matches Some(raw) && raw.value == Some(step)),
                Some((Control::Media, _)) => made.source == SourceView::Native(WhichView::Media)
                    && m.controls == Some(true) && m.scroll is None,
                None => m.scroll is None && m.controls != Some(true),
            }
        }),
{
}

/// How often a source is read where its table does not say.
pub proof fn law_a_module_is_read_by_its_source_where_it_does_not_say(
    name: Seq<char>,
    m: RawModule,
    w: WardrobeView,
    known: Known,
    highest: i32,
)
    requires
        module_of(name, m, w, known, highest) is Ok,
        m.interval is None,
    ensures
        ({
            let made = module_of(name, m, w, known, highest)->Ok_0;
            made.source matches SourceView::Native(which) ==> (!(which is Command) ==> (
            made.interval matches Some(d) && d.nanos == default_seconds(which) * 1_000_000_000))
        }),
{
}

/// Nothing moves for longer than ten seconds, and nothing moves that has nowhere to go.
pub proof fn law_nothing_moves_for_long(
    name: Seq<char>,
    m: RawModule,
    w: WardrobeView,
    known: Known,
    highest: i32,
)
    requires
        module_of(name, m, w, known, highest) is Ok,
    ensures
        ({
            let made = module_of(name, m, w, known, highest)->Ok_0;
            &&& made.alt_animation matches Some(d) ==> d.nanos <= 10_000_000_000
                && m.format_alt@.len() > 0
            &&& made.collapse matches Some(fold) ==> (fold.animation matches Some(d) ==> d.nanos
                <= 10_000_000_000)
            &&& made.collapse is None ==> m.collapse_animation is None && m.collapsed is None
        }),
{
}

/// Whether one of these fields goes by this name.
pub open spec fn is_published(fields: Seq<FieldView>, name: Seq<char>) -> bool {
    exists|i: int| 0 <= i < fields.len() && (#[trigger] fields[i]).name == name
}

proof fn lemma_kind_named(fields: Seq<FieldView>, name: Seq<char>, from: int)
    requires
        0 <= from <= fields.len(),
    ensures
        match kind_named(fields, name, from) {
            Some(kind) => exists|i: int|
                from <= i < fields.len() && (#[trigger] fields[i]).name == name && fields[i].kind
                    == kind,
            None => forall|i: int| from <= i < fields.len() ==> (#[trigger] fields[i]).name != name,
        },
    decreases fields.len() - from,
{
    if from < fields.len() && fields[from].name != name {
        lemma_kind_named(fields, name, from + 1);
    } else if from < fields.len() {
        assert(fields[from].name == name);
    }
}

proof fn lemma_unpublished(names: Seq<Seq<char>>, fields: Seq<FieldView>, from: int)
    requires
        0 <= from <= names.len(),
    ensures
        unpublished(names, fields, from) is None <==> forall|i: int|
            from <= i < names.len() ==> is_published(fields, #[trigger] names[i]),
    decreases names.len() - from,
{
    if from < names.len() {
        lemma_unpublished(names, fields, from + 1);
        lemma_kind_named(fields, names[from], 0);
        if kind_named(fields, names[from], 0) is None {
            assert(!is_published(fields, names[from]));
        } else {
            assert(is_published(fields, names[from]));
        }
    }
}

/// A wording names only what the source of its module publishes, and reads as it is written.
pub proof fn law_a_wording_names_what_is_published(
    text: Seq<char>,
    fields: Seq<FieldView>,
    known: Known,
)
    ensures
        format_of(text, fields, known) matches Ok(f) ==> {
            &&& f.written == text
            &&& forall|i: int|
                0 <= i < f.names.len() ==> is_published(fields, #[trigger] f.names[i])
        },
{
    if let Ok(f) = format_of(text, fields, known) {
        lemma_unpublished(f.names, fields, 0);
    }
}

/// A rule reads a field that is there and of the kind it asks about: numbers for its bounds, and
/// words for what it compares. What a module says is only there to be searched where a provider
/// says it.
pub proof fn law_a_rule_reads_what_is_there(
    s: RawState,
    style: StyleView,
    source: SourceView,
    w: WardrobeView,
    known: Known,
)
    requires
        rule_of(s, style, source, w, known) is Ok,
    ensures
        ({
            let fields = source_fields(source, known.elsewhere@);
            &&& s.field matches Some(name) ==> exists|i: int|
                {
                    &&& 0 <= i < fields.len()
                    &&& (#[trigger] fields[i]).name == name@
                    &&& s.above is Some || s.below is Some ==> fields[i].kind is Num
                    &&& s.equals is Some ==> fields[i].kind == Kind::Text || fields[i].kind
                        == Kind::Flag
                    &&& s.above is Some || s.below is Some || s.equals is Some
                }
            &&& s.contains is Some || s.strip ==> source is Provider
        }),
{
    let fields = source_fields(source, known.elsewhere@);
    if let Some(name) = s.field {
        lemma_kind_named(fields, name@, 0);
        let kind = kind_named(fields, name@, 0)->0;
        let i = choose|i: int|
            0 <= i < fields.len() && (#[trigger] fields[i]).name == name@ && fields[i].kind == kind;
        assert(fields[i].name == name@);
    }
}

/// What is folded wears the keys its own table writes, over the style the table names or, where
/// it names none, over what it was folded from.
pub proof fn law_what_is_folded_wears_its_own_keys(
    raw: RawCollapsedStyle,
    under: StyleView,
    w: WardrobeView,
    known: Known,
)
    requires
        collapsed_style(Some(raw), under, w, known) is Ok,
    ensures
        ({
            let worn = collapsed_style(Some(raw), under, w, known)->Ok_0;
            &&& worn is Some
            &&& match raw.style {
                None => keys_taken(raw.overrides, under, worn->0, w.palette, known.icons@),
                Some(name) => exists|i: int|
                    {
                        &&& 0 <= i < w.styles.len()
                        &&& (#[trigger] w.styles[i]).0 == name@
                        &&& keys_taken(
                            raw.overrides,
                            w.styles[i].1,
                            worn->0,
                            w.palette,
                            known.icons@,
                        )
                    },
            }
        }),
        collapsed_style(None, under, w, known) == Ok::<Option<StyleView>, SlipView>(None),
{
    match raw.style {
        None => {
            law_a_written_key_is_worn(under, raw.overrides, w.palette, known.icons@);
        },
        Some(name) => {
            lemma_named_style(w.styles, name@, 0);
            let start = named_style(w.styles, name@, 0)->0;
            law_a_written_key_is_worn(start, raw.overrides, w.palette, known.icons@);
            let i = choose|i: int| 0 <= i < w.styles.len() && #[trigger] w.styles[i] == (
                name@,
                start,
            );
            assert(w.styles[i].0 == name@);
        },
    }
}

/// A module or a group that folds wears, folded, what its own table says.
pub proof fn law_a_fold_wears_its_own_table(
    name: Seq<char>,
    m: RawModule,
    g: RawGroup,
    tables: Seq<(String, RawModule)>,
    w: WardrobeView,
    known: Known,
    highest: i32,
)
    ensures
        module_of(name, m, w, known, highest) matches Ok(made) ==> (made.collapse matches Some(fold)
            ==> collapsed_style(m.collapsed, made.style, w, known) == Ok::<
            Option<StyleView>,
            SlipView,
        >(fold.style)),
        group_of(name, g, tables, w, known, highest) matches Ok(made) ==> (
        made.collapse matches Some(fold) ==> (g.collapsed is Some ==> collapsed_style(
            g.collapsed,
            w.base,
            w,
            known,
        ) == Ok::<Option<StyleView>, SlipView>(Some(fold.style)))),
{
}

} // verus!
