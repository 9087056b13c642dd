//! Where a module's content comes from.

use crate::collect::command::{plain, plain_fields, Run};
use crate::collect::which::{default_wording, fields_of, CommandSpec, CommandView, Which};
use crate::collect::which::WhichView;
use crate::config::duration::{parse_duration, written_duration};
use crate::config::icon::{icon_view, written_icon, Catalogue, IconSpec, IconView};
use crate::config::raw::{RawModule, Scope};
use crate::config::refusal::{about, at2, at3, keyed, plainly, put, refused};
use crate::config::refusal::{told, Refusal, RefusalView, Slip, SlipView, Why};
use crate::status::{copy_specs, specs_view, Control, FieldSpec, FieldView, Kind, Unit};
use crate::table::{lemma_same_names, Table};
use crate::text::{copy_text, copy_texts, eq_ignore_ascii_case, joined, opt_view, owned, same};
use crate::text::{same_ignoring_case, texts, trim, trimmed};
use crate::time::Duration;
use vstd::prelude::*;
use vstd::string::*;

verus! {

/// How long a command gets to answer before it is stopped, in seconds.
///
/// Long enough that a script fetching something over a slow network still gets there, and
/// short enough that one which never will does not sit in front of a spinner forever.
pub const DEFAULT_COMMAND_TIMEOUT: u64 = 30;

/// What an item of the system tray says about itself.
#[derive(Clone, Copy, Debug, PartialEq, Eq, Structural)]
pub enum Status {
    Passive,
    Active,
    NeedsAttention,
}

/// Which tray items a module shows, and in what order.
#[derive(Debug, Default)]
pub struct TrayView {
    pub show_passive: bool,
    /// Item ids, first to last. An id the tray does not have costs nothing.
    pub order: Vec<String>,
}

/// What a `TrayView` says.
#[verifier::ext_equal]
pub struct TraySaid {
    pub show_passive: bool,
    pub order: Seq<Seq<char>>,
}

impl View for TrayView {
    type V = TraySaid;

    open spec fn view(&self) -> TraySaid {
        TraySaid { show_passive: self.show_passive, order: texts(self.order@) }
    }
}

/// Where an id first stands from `from` on.
pub open spec fn ranked(order: Seq<Seq<char>>, id: Seq<char>, from: int) -> Option<int>
    decreases order.len() - from,
{
    if from < 0 || from >= order.len() {
        None
    } else if order[from] == id {
        Some(from)
    } else {
        ranked(order, id, from + 1)
    }
}

impl TrayView {
    /// Whether this item is one the configuration asked to see.
    pub fn shows(&self, status: Status) -> (r: bool)
        ensures
            r == (self@.show_passive || status != Status::Passive),
    {
        self.show_passive || status != Status::Passive
    }

    /// Where an item sits: the position the configuration gave its id, or after everything
    /// named.
    pub fn rank(&self, id: &str) -> (r: usize)
        ensures
            match ranked(self@.order, id@, 0) {
                Some(at) => r == at,
                None => r == usize::MAX,
            },
    {
        let ghost all = self@.order;
        for i in 0..self.order.len()
            invariant
                all == texts(self.order@),
                ranked(all, id@, 0) == ranked(all, id@, i as int),
        {
            assert(all[i as int] == self.order@[i as int]@);
            if same(self.order[i].as_str(), id) {
                return i;
            }
        }
        usize::MAX
    }
}

/// Which workspaces a module shows and the decoration beside each name.
#[derive(Debug, Default)]
pub struct WorkspaceView {
    pub scope: Scope,
    /// Workspace name to decoration. `default` is used when no exact name is present. A
    /// workspace mapped to nothing wears nothing.
    pub icons: Table<Option<IconSpec>>,
}

/// What a `WorkspaceView` says.
#[verifier::ext_equal]
pub struct WorkspacesSaid {
    pub scope: Scope,
    pub icons: Seq<(Seq<char>, Option<IconView>)>,
}

/// The names of a mapping and what they are mapped to, in order.
pub open spec fn icons_view(icons: Seq<(String, Option<IconSpec>)>) -> Seq<
    (Seq<char>, Option<IconView>),
> {
    Seq::new(icons.len(), |i: int| (icons[i].0@, icon_view(icons[i].1)))
}

impl View for WorkspaceView {
    type V = WorkspacesSaid;

    open spec fn view(&self) -> WorkspacesSaid {
        WorkspacesSaid { scope: self.scope, icons: icons_view(self.icons@) }
    }
}

/// What a name is mapped to, looked for from `from` on.
pub open spec fn mapped(
    icons: Seq<(Seq<char>, Option<IconView>)>,
    name: Seq<char>,
    from: int,
) -> Option<Option<IconView>>
    decreases icons.len() - from,
{
    if from < 0 || from >= icons.len() {
        None
    } else if icons[from].0 == name {
        Some(icons[from].1)
    } else {
        mapped(icons, name, from + 1)
    }
}

/// What a workspace wears: what its own name is mapped to, or what `default` is.
pub open spec fn worn(icons: Seq<(Seq<char>, Option<IconView>)>, name: Seq<char>) -> Option<
    Option<IconView>,
> {
    match mapped(icons, name, 0) {
        Some(icon) => Some(icon),
        None => mapped(icons, "default"@, 0),
    }
}

impl WorkspaceView {
    fn find(&self, name: &str) -> (r: Option<&Option<IconSpec>>)
        ensures
            match r {
                Some(icon) => mapped(self@.icons, name@, 0) == Some(icon_view(*icon)),
                None => mapped(self@.icons, name@, 0) is None,
            },
    {
        let ghost all = self@.icons;
        let icons = self.icons.entries();
        for i in 0..icons.len()
            invariant
                all == self@.icons,
                all == icons_view(icons@),
                mapped(all, name@, 0) == mapped(all, name@, i as int),
        {
            assert(all[i as int] == (icons@[i as int].0@, icon_view(icons@[i as int].1)));
            if same(icons[i].0.as_str(), name) {
                return Some(&icons[i].1);
            }
        }
        None
    }

    /// What a workspace wears, if the configuration says.
    pub fn icon(&self, name: &str) -> (r: Option<&Option<IconSpec>>)
        ensures
            match r {
                Some(icon) => worn(self@.icons, name@) == Some(icon_view(*icon)),
                None => worn(self@.icons, name@) is None,
            },
    {
        match self.find(name) {
            Some(icon) => Some(icon),
            None => self.find("default"),
        }
    }
}

/// Where a module's content comes from.
#[derive(Debug)]
pub enum Source {
    /// Something the bar measures itself.
    Native(Which),
    /// A block from an external status provider, matched by name.
    Provider,
    /// The title of the focused window, on this screen or in the session.
    SwayWindow(Scope),
    /// One entry per workspace, expanded at layout time.
    SwayWorkspaces(WorkspaceView),
    /// The active keyboard layout, with the short forms the module gives its layouts.
    SwayLanguage(Table<String>),
    /// The binding mode the compositor is in.
    SwayMode,
    /// One entry per application in the system tray, expanded at layout time.
    Tray(TrayView),
}

/// What a `Source` says.
pub enum SourceView {
    Native(WhichView),
    Provider,
    SwayWindow(Scope),
    SwayWorkspaces(WorkspacesSaid),
    SwayLanguage(Seq<(Seq<char>, Seq<char>)>),
    SwayMode,
    Tray(TraySaid),
}

/// What a list of pairs says.
pub open spec fn pairs_view(pairs: Seq<(String, String)>) -> Seq<(Seq<char>, Seq<char>)> {
    Seq::new(pairs.len(), |i: int| (pairs[i].0@, pairs[i].1@))
}

impl View for Source {
    type V = SourceView;

    open spec fn view(&self) -> SourceView {
        match self {
            Source::Native(which) => SourceView::Native(which@),
            Source::Provider => SourceView::Provider,
            Source::SwayWindow(scope) => SourceView::SwayWindow(*scope),
            Source::SwayWorkspaces(view) => SourceView::SwayWorkspaces(view@),
            Source::SwayLanguage(layouts) => SourceView::SwayLanguage(pairs_view(layouts@)),
            Source::SwayMode => SourceView::SwayMode,
            Source::Tray(view) => SourceView::Tray(view@),
        }
    }
}

/// A copy of a table of texts.
pub fn copy_pairs(table: &Table<String>) -> (r: Table<String>)
    ensures
        pairs_view(r@) == pairs_view(table@),
{
    let pairs = table.entries();
    let mut out: Vec<(String, String)> = Vec::new();
    for i in 0..pairs.len()
        invariant
            out@.len() == i,
            forall|j: int|
                0 <= j < i ==> out@[j].0@ == (#[trigger] pairs@[j]).0@ && out@[j].1@
                    == pairs@[j].1@,
    {
        out.push((pairs[i].0.clone(), pairs[i].1.clone()));
    }
    assert(pairs_view(out@) =~= pairs_view(pairs@));
    proof {
        lemma_same_names(pairs@, out@);
    }
    Table::of(out)
}

/// What the sources the bar does not measure itself publish.
#[derive(Debug)]
pub struct Elsewhere {
    pub provider: Vec<FieldSpec>,
    pub window: Vec<FieldSpec>,
    pub workspaces: Vec<FieldSpec>,
    pub language: Vec<FieldSpec>,
    pub mode: Vec<FieldSpec>,
    pub tray: Vec<FieldSpec>,
}

/// What `Elsewhere` says.
pub struct ElsewhereView {
    pub provider: Seq<FieldView>,
    pub window: Seq<FieldView>,
    pub workspaces: Seq<FieldView>,
    pub language: Seq<FieldView>,
    pub mode: Seq<FieldView>,
    pub tray: Seq<FieldView>,
}

impl View for Elsewhere {
    type V = ElsewhereView;

    open spec fn view(&self) -> ElsewhereView {
        ElsewhereView {
            provider: specs_view(self.provider@),
            window: specs_view(self.window@),
            workspaces: specs_view(self.workspaces@),
            language: specs_view(self.language@),
            mode: specs_view(self.mode@),
            tray: specs_view(self.tray@),
        }
    }
}

/// What a format written against a source may name.
pub open spec fn source_fields(s: SourceView, elsewhere: ElsewhereView) -> Seq<FieldView> {
    match s {
        SourceView::Native(which) => fields_of(which),
        SourceView::Provider => elsewhere.provider,
        SourceView::SwayWindow(_) => elsewhere.window,
        SourceView::SwayWorkspaces(_) => elsewhere.workspaces,
        SourceView::SwayLanguage(_) => elsewhere.language,
        SourceView::SwayMode => elsewhere.mode,
        SourceView::Tray(_) => elsewhere.tray,
    }
}

/// What a module says when the configuration does not give it a format.
///
/// Each source has one thing it is obviously for, so the common case needs no format at all. A
/// tray item is its icon and says nothing.
pub open spec fn source_wording(s: SourceView) -> Seq<char> {
    match s {
        SourceView::Native(which) => default_wording(which),
        SourceView::Provider => "$text"@,
        SourceView::SwayWindow(_) => "$title"@,
        SourceView::SwayWorkspaces(_) => "$name"@,
        SourceView::SwayLanguage(_) => " $short "@,
        SourceView::SwayMode => " $mode "@,
        SourceView::Tray(_) => ""@,
    }
}

/// What a module can be made to change by scrolling, if anything.
pub open spec fn controlled(s: SourceView) -> Option<Control> {
    match s {
        SourceView::Native(WhichView::Backlight) => Some(Control::Brightness),
        SourceView::Native(WhichView::Audio) => Some(Control::Volume),
        _ => None,
    }
}

impl Source {
    /// What a format written against this source may name.
    pub fn fields(&self, elsewhere: &Elsewhere) -> (r: Vec<FieldSpec>)
        ensures
            specs_view(r@) == source_fields(self@, elsewhere@),
    {
        match self {
            Source::Native(which) => which.fields(),
            Source::Provider => copy_specs(&elsewhere.provider),
            Source::SwayWindow(_) => copy_specs(&elsewhere.window),
            Source::SwayWorkspaces(_) => copy_specs(&elsewhere.workspaces),
            Source::SwayLanguage(_) => copy_specs(&elsewhere.language),
            Source::SwayMode => copy_specs(&elsewhere.mode),
            Source::Tray(_) => copy_specs(&elsewhere.tray),
        }
    }

    /// What the module says when the configuration does not give it a format.
    pub fn default_format(&self) -> (r: &'static str)
        ensures
            r@ == source_wording(self@),
    {
        match self {
            Source::Native(which) => which.default_format(),
            Source::Provider => "$text",
            Source::SwayWindow(_) => "$title",
            Source::SwayWorkspaces(_) => "$name",
            Source::SwayLanguage(_) => " $short ",
            Source::SwayMode => " $mode ",
            Source::Tray(_) => "",
        }
    }
}

/// What a module can be made to change by scrolling, if anything.
///
/// The bar changes these itself rather than running a helper: it already knows where the
/// brightness lives and holds the connection the volume travels over.
pub fn control_of(source: &Source) -> (r: Option<Control>)
    ensures
        r == controlled(source@),
{
    match source {
        Source::Native(which) => match which {
            Which::Backlight => Some(Control::Brightness),
            Which::Audio => Some(Control::Volume),
            _ => None,
        },
        _ => None,
    }
}

/// The kind a command module says one of its fields will hold.
pub open spec fn declared_kind(name: Seq<char>) -> Option<Kind> {
    if name == "number"@ {
        Some(Kind::Num(Unit::Plain))
    } else if name == "percent"@ {
        Some(Kind::Num(Unit::Percent))
    } else if name == "text"@ {
        Some(Kind::Text)
    } else {
        None
    }
}

fn field_kind(name: &str) -> (r: Result<Kind, Slip>)
    ensures
        match r {
            Ok(kind) => declared_kind(name@) == Some(kind),
            Err(slip) => declared_kind(name@) is None && slip@ == about(
                Why::UnknownFieldKind,
                name@,
            ),
        },
{
    if same(name, "number") {
        Ok(Kind::Num(Unit::Plain))
    } else if same(name, "percent") {
        Ok(Kind::Num(Unit::Percent))
    } else if same(name, "text") {
        Ok(Kind::Text)
    } else {
        Err(Slip::about(Why::UnknownFieldKind, name))
    }
}

/// The fields a command module declares, from `from` on.
pub open spec fn declared_fields(raw: Seq<(String, String)>, from: int) -> Result<
    Seq<FieldView>,
    SlipView,
>
    decreases raw.len() - from,
{
    if from < 0 || from >= raw.len() {
        Ok(Seq::empty())
    } else {
        match declared_kind(raw[from].1@) {
            None => Err(about(Why::UnknownFieldKind, raw[from].1@)),
            Some(kind) => match declared_fields(raw, from + 1) {
                Err(slip) => Err(slip),
                Ok(rest) => Ok(seq![FieldView { name: raw[from].0@, kind }] + rest),
            },
        }
    }
}

spec fn declared_so_far(done: Seq<FieldView>, rest: Result<Seq<FieldView>, SlipView>) -> Result<
    Seq<FieldView>,
    SlipView,
> {
    match rest {
        Ok(more) => Ok(done + more),
        Err(slip) => Err(slip),
    }
}

fn read_fields(raw: &Vec<(String, String)>) -> (r: Result<Vec<FieldSpec>, Slip>)
    ensures
        match r {
            Ok(v) => declared_fields(raw@, 0) == Ok::<Seq<FieldView>, SlipView>(specs_view(v@)),
            Err(slip) => declared_fields(raw@, 0) == Err::<Seq<FieldView>, SlipView>(slip@),
        },
{
    let mut out: Vec<FieldSpec> = Vec::new();
    let ghost none = Seq::<FieldView>::empty();
    assert(specs_view(out@) =~= none);
    proof {
        let rest = declared_fields(raw@, 0);
        if rest is Ok {
            assert(none + rest->Ok_0 =~= rest->Ok_0);
        }
    }
    for i in 0..raw.len()
        invariant
            declared_fields(raw@, 0) == declared_so_far(
                specs_view(out@),
                declared_fields(raw@, i as int),
            ),
    {
        let ghost before = specs_view(out@);
        let kind = field_kind(raw[i].1.as_str())?;
        out.push(FieldSpec::new(raw[i].0.as_str(), kind));
        proof {
            let one = FieldView { name: raw@[i as int].0@, kind };
            assert(specs_view(out@) =~= before.push(one));
            let rest = declared_fields(raw@, i + 1);
            if rest is Ok {
                assert(before + (seq![one] + rest->Ok_0) =~= before.push(one) + rest->Ok_0);
            }
        }
    }
    assert(specs_view(out@) + Seq::<FieldView>::empty() =~= specs_view(out@));
    Ok(out)
}

/// How a command module's program is run, given its interval: absent means it streams, a
/// period means run it that often, and "once" means run it at startup and never again.
pub open spec fn written_run(written: Option<String>) -> Result<Run, SlipView> {
    match written {
        None => Ok(Run::Stream),
        Some(s) => if same_ignoring_case(trimmed(s@), "once"@) {
            Ok(Run::Once)
        } else {
            match written_duration(s@) {
                Ok(period) => Ok(Run::Every(period)),
                Err(slip) => Err(slip),
            }
        },
    }
}

pub fn parse_run(written: &Option<String>) -> (r: Result<Run, Slip>)
    ensures
        match r {
            Ok(run) => written_run(*written) == Ok::<Run, SlipView>(run),
            Err(slip) => written_run(*written) == Err::<Run, SlipView>(slip@),
        },
{
    match written {
        None => Ok(Run::Stream),
        Some(s) => {
            if eq_ignore_ascii_case(trim(s.as_str()).as_str(), "once") {
                return Ok(Run::Once);
            }
            let period = parse_duration(s.as_str())?;
            Ok(Run::Every(period))
        },
    }
}

/// How long a command is given to answer.
pub open spec fn written_timeout(written: Option<String>) -> Result<Duration, SlipView> {
    match written {
        Some(s) => written_duration(s@),
        None => Ok(Duration { nanos: 30_000_000_000 }),
    }
}

fn parse_timeout(written: &Option<String>) -> (r: Result<Duration, Slip>)
    ensures
        match r {
            Ok(d) => written_timeout(*written) == Ok::<Duration, SlipView>(d),
            Err(slip) => written_timeout(*written) == Err::<Duration, SlipView>(slip@),
        },
{
    match written {
        Some(s) => parse_duration(s.as_str()),
        None => Ok(Duration::from_secs(DEFAULT_COMMAND_TIMEOUT)),
    }
}

/// The command a module runs: its argv and its parameters after it, how it is run, and what it
/// declares.
pub open spec fn command_of(module: Seq<char>, m: RawModule) -> Result<CommandView, RefusalView> {
    let here = seq!["module"@, module];
    let fields = if m.fields@.len() == 0 {
        Ok(plain_fields())
    } else {
        declared_fields(m.fields@, 0)
    };
    if m.command@.len() == 0 {
        Err(refused(here, plainly(Why::NoCommand)))
    } else if fields is Err {
        Err(refused(seq!["module"@, module, "fields"@], fields->Err_0))
    } else {
        match written_run(m.interval) {
            Err(slip) => Err(
                RefusalView {
                    at: keyed(here, "interval, which takes a period or \"once\""@),
                    slip,
                },
            ),
            Ok(run) => if m.pages && run == Run::Stream {
                Err(refused(here, plainly(Why::PagesOfStream)))
            } else {
                match written_timeout(m.timeout) {
                    Err(slip) => Err(RefusalView { at: keyed(here, "timeout"@), slip }),
                    Ok(timeout) => if m.timeout is Some && run == Run::Stream {
                        Err(refused(here, plainly(Why::TimeoutOfStream)))
                    } else {
                        Ok(
                            CommandView {
                                argv: texts(m.command@) + texts(m.params@),
                                run,
                                pages: m.pages,
                                fields: fields->Ok_0,
                                timeout,
                            },
                        )
                    },
                }
            },
        }
    }
}

fn resolve_command(module: &str, m: &RawModule) -> (r: Result<CommandSpec, Refusal>)
    ensures
        told(r) == command_of(module@, *m),
{
    if m.command.len() == 0 {
        return Err(Refusal::new(at2("module", module), Slip::plainly(Why::NoCommand)));
    }
    let mut argv = copy_texts(&m.command);
    let mut params = copy_texts(&m.params);
    let ghost first = texts(argv@);
    let ghost second = texts(params@);
    argv.append(&mut params);
    assert(texts(argv@) =~= first + second);
    let fields = if m.fields.len() == 0 {
        plain()
    } else {
        put(read_fields(m.fields.entries()), at3("module", module, "fields"))?
    };
    let run = put(
        parse_run(&m.interval),
        at2("module", module).under("interval, which takes a period or \"once\""),
    )?;
    if m.pages && run == Run::Stream {
        return Err(Refusal::new(at2("module", module), Slip::plainly(Why::PagesOfStream)));
    }
    let timeout = put(parse_timeout(&m.timeout), at2("module", module).under("timeout"))?;
    if m.timeout.is_some() && run == Run::Stream {
        return Err(Refusal::new(at2("module", module), Slip::plainly(Why::TimeoutOfStream)));
    }
    Ok(CommandSpec { argv, run, pages: m.pages, fields, timeout })
}

/// What a place in a table of workspaces is called.
pub open spec fn workspace_place(workspace: Seq<char>) -> Seq<char> {
    "workspace \""@ + workspace + "\""@
}

/// The decorations a module maps its workspaces to, from `from` on.
pub open spec fn workspace_icons(
    module: Seq<char>,
    raw: Seq<(String, String)>,
    from: int,
    icons: Seq<Seq<char>>,
) -> Result<Seq<(Seq<char>, Option<IconView>)>, RefusalView>
    decreases raw.len() - from,
{
    if from < 0 || from >= raw.len() {
        Ok(Seq::empty())
    } else {
        match written_icon(raw[from].1@, icons) {
            Err(slip) => Err(
                RefusalView {
                    at: keyed(seq!["module"@, module], workspace_place(raw[from].0@)),
                    slip,
                },
            ),
            Ok(icon) => match workspace_icons(module, raw, from + 1, icons) {
                Err(e) => Err(e),
                Ok(rest) => Ok(seq![(raw[from].0@, icon)] + rest),
            },
        }
    }
}

spec fn mapped_so_far(
    done: Seq<(Seq<char>, Option<IconView>)>,
    rest: Result<Seq<(Seq<char>, Option<IconView>)>, RefusalView>,
) -> Result<Seq<(Seq<char>, Option<IconView>)>, RefusalView> {
    match rest {
        Ok(more) => Ok(done + more),
        Err(e) => Err(e),
    }
}

fn resolve_workspaces(module: &str, table: &Table<String>, icons: &Catalogue) -> (r: Result<
    Table<Option<IconSpec>>,
    Refusal,
>)
    ensures
        match r {
            Ok(v) => workspace_icons(module@, table@, 0, icons@) == Ok::<
                Seq<(Seq<char>, Option<IconView>)>,
                RefusalView,
            >(icons_view(v@)),
            Err(e) => workspace_icons(module@, table@, 0, icons@) == Err::<
                Seq<(Seq<char>, Option<IconView>)>,
                RefusalView,
            >(e@),
        },
{
    let raw = table.entries();
    let mut out: Vec<(String, Option<IconSpec>)> = Vec::new();
    let ghost none = Seq::<(Seq<char>, Option<IconView>)>::empty();
    assert(icons_view(out@) =~= none);
    proof {
        let rest = workspace_icons(module@, raw@, 0, icons@);
        if rest is Ok {
            assert(none + rest->Ok_0 =~= rest->Ok_0);
        }
    }
    for i in 0..raw.len()
        invariant
            raw@ == table@,
            out@.len() == i,
            forall|j: int| 0 <= j < i ==> (#[trigger] out@[j]).0@ == raw@[j].0@,
            workspace_icons(module@, raw@, 0, icons@) == mapped_so_far(
                icons_view(out@),
                workspace_icons(module@, raw@, i as int, icons@),
            ),
    {
        let ghost before = icons_view(out@);
        let mut place = joined("workspace \"", raw[i].0.as_str());
        place.append("\"");
        let icon = put(
            IconSpec::parse(raw[i].1.as_str(), icons),
            at2("module", module).under(place.as_str()),
        )?;
        let ghost shown = icon_view(icon);
        out.push((raw[i].0.clone(), icon));
        proof {
            let one = (raw@[i as int].0@, shown);
            assert(icons_view(out@) =~= before.push(one));
            let rest = workspace_icons(module@, raw@, i + 1, icons@);
            if rest is Ok {
                assert(before + (seq![one] + rest->Ok_0) =~= before.push(one) + rest->Ok_0);
            }
        }
    }
    assert(icons_view(out@) + Seq::<(Seq<char>, Option<IconView>)>::empty() =~= icons_view(out@));
    proof {
        lemma_same_names(raw@, out@);
    }
    Ok(Table::of(out))
}

/// The name of the source a module asks for.
pub open spec fn source_name(m: RawModule) -> Seq<char> {
    match m.source {
        Some(s) => s@,
        None => "provider"@,
    }
}

/// How much of the session a module is about, when it does not say.
pub open spec fn scope_of(m: RawModule) -> Scope {
    match m.scope {
        Some(scope) => scope,
        None => Scope::Output,
    }
}

/// The source a module names, pointed at what its own keys say.
///
/// A disk module has to be pointed at something, and the root filesystem is what one is
/// usually about.
pub open spec fn named_source(module: Seq<char>, m: RawModule, icons: Seq<Seq<char>>) -> Result<
    SourceView,
    RefusalView,
> {
    let name = source_name(m);
    if name == "provider"@ {
        Ok(SourceView::Provider)
    } else if name == "sway:window"@ {
        Ok(SourceView::SwayWindow(scope_of(m)))
    } else if name == "sway:workspaces"@ {
        match workspace_icons(module, m.icons@, 0, icons) {
            Ok(mapped) => Ok(
                SourceView::SwayWorkspaces(WorkspacesSaid { scope: scope_of(m), icons: mapped }),
            ),
            Err(e) => Err(e),
        }
    } else if name == "sway:language"@ {
        Ok(SourceView::SwayLanguage(pairs_view(m.layouts@)))
    } else if name == "sway:mode"@ {
        Ok(SourceView::SwayMode)
    } else if name == "tray"@ {
        Ok(
            SourceView::Tray(
                TraySaid {
                    show_passive: match m.show_passive {
                        Some(shown) => shown,
                        None => true,
                    },
                    order: texts(m.order@),
                },
            ),
        )
    } else if name == "command"@ {
        match command_of(module, m) {
            Ok(command) => Ok(SourceView::Native(WhichView::Command(command))),
            Err(e) => Err(e),
        }
    } else if name == "audio"@ {
        Ok(SourceView::Native(WhichView::Audio))
    } else if name == "media"@ {
        Ok(SourceView::Native(WhichView::Media))
    } else if name == "cpu"@ {
        Ok(SourceView::Native(WhichView::Cpu))
    } else if name == "memory"@ {
        Ok(SourceView::Native(WhichView::Memory))
    } else if name == "battery"@ {
        Ok(SourceView::Native(WhichView::Battery))
    } else if name == "backlight"@ {
        Ok(SourceView::Native(WhichView::Backlight))
    } else if name == "load"@ {
        Ok(SourceView::Native(WhichView::Load))
    } else if name == "time"@ {
        Ok(SourceView::Native(WhichView::Time))
    } else if name == "temperature"@ {
        Ok(SourceView::Native(WhichView::Temperature(opt_view(m.chip))))
    } else if name == "disk"@ {
        Ok(
            SourceView::Native(
                WhichView::Disk(
                    match m.path {
                        Some(path) => path@,
                        None => "/"@,
                    },
                ),
            ),
        )
    } else if name == "network"@ {
        Ok(SourceView::Native(WhichView::Network(opt_view(m.interface))))
    } else {
        Err(refused(seq!["module"@, module], about(Why::UnknownSource, name)))
    }
}

fn resolve_named(module: &str, m: &RawModule, icons: &Catalogue) -> (r: Result<Source, Refusal>)
    ensures
        told(r) == named_source(module@, *m, icons@),
{
    let name = match &m.source {
        Some(s) => s.clone(),
        None => owned("provider"),
    };
    let n = name.as_str();
    let scope = match m.scope {
        Some(scope) => scope,
        None => Scope::Output,
    };
    if same(n, "provider") {
        Ok(Source::Provider)
    } else if same(n, "sway:window") {
        Ok(Source::SwayWindow(scope))
    } else if same(n, "sway:workspaces") {
        let icons = resolve_workspaces(module, &m.icons, icons)?;
        Ok(Source::SwayWorkspaces(WorkspaceView { scope, icons }))
    } else if same(n, "sway:language") {
        Ok(Source::SwayLanguage(copy_pairs(&m.layouts)))
    } else if same(n, "sway:mode") {
        Ok(Source::SwayMode)
    } else if same(n, "tray") {
        let show_passive = match m.show_passive {
            Some(shown) => shown,
            None => true,
        };
        Ok(Source::Tray(TrayView { show_passive, order: copy_texts(&m.order) }))
    } else if same(n, "command") {
        let command = resolve_command(module, m)?;
        Ok(Source::Native(Which::Command(command)))
    } else if same(n, "audio") {
        Ok(Source::Native(Which::Audio))
    } else if same(n, "media") {
        Ok(Source::Native(Which::Media))
    } else if same(n, "cpu") {
        Ok(Source::Native(Which::Cpu))
    } else if same(n, "memory") {
        Ok(Source::Native(Which::Memory))
    } else if same(n, "battery") {
        Ok(Source::Native(Which::Battery))
    } else if same(n, "backlight") {
        Ok(Source::Native(Which::Backlight))
    } else if same(n, "load") {
        Ok(Source::Native(Which::Load))
    } else if same(n, "time") {
        Ok(Source::Native(Which::Time))
    } else if same(n, "temperature") {
        Ok(Source::Native(Which::Temperature(copy_text(&m.chip))))
    } else if same(n, "disk") {
        let path = match &m.path {
            Some(path) => path.clone(),
            None => owned("/"),
        };
        Ok(Source::Native(Which::Disk(path)))
    } else if same(n, "network") {
        Ok(Source::Native(Which::Network(copy_text(&m.interface))))
    } else {
        Err(Refusal::new(at2("module", module), Slip::about(Why::UnknownSource, n)))
    }
}

/// The keys that belong to one source each: the key, whether the module writes it, and the
/// source that reads it.
pub open spec fn owned_keys(m: RawModule) -> Seq<(Seq<char>, bool, Seq<char>)> {
    seq![
        ("path"@, m.path is Some, "disk"@),
        ("interface"@, m.interface is Some, "network"@),
        ("chip"@, m.chip is Some, "temperature"@),
        ("command"@, m.command@.len() > 0, "command"@),
        ("fields"@, m.fields@.len() > 0, "command"@),
        ("params"@, m.params@.len() > 0, "command"@),
        ("pages"@, m.pages, "command"@),
        ("timeout"@, m.timeout is Some, "command"@),
        ("layouts"@, m.layouts@.len() > 0, "sway:language"@),
        ("icons"@, m.icons@.len() > 0, "sway:workspaces"@),
        ("show_passive"@, m.show_passive is Some, "tray"@),
        ("order"@, m.order@.len() > 0, "tray"@),
    ]
}

/// The first key from `from` on that is written on a module its source does not read.
pub open spec fn misplaced(
    keys: Seq<(Seq<char>, bool, Seq<char>)>,
    name: Seq<char>,
    from: int,
) -> Option<SlipView>
    decreases keys.len() - from,
{
    if from < 0 || from >= keys.len() {
        None
    } else if keys[from].1 && name != keys[from].2 {
        Some(SlipView { why: Why::Misplaced, word: keys[from].0, other: keys[from].2 })
    } else {
        misplaced(keys, name, from + 1)
    }
}

/// What is wrong with the keys a module writes, given its source.
///
/// A key that belongs to a source this module is not built on would silently do nothing, and
/// silently doing nothing is how a configuration comes to be wrong for months.
pub open spec fn key_trouble(m: RawModule) -> Option<SlipView> {
    let name = source_name(m);
    match misplaced(owned_keys(m), name, 0) {
        Some(slip) => Some(slip),
        None => if m.scope is Some && name != "sway:window"@ && name != "sway:workspaces"@ {
            Some(plainly(Why::ScopeMisplaced))
        } else {
            None
        },
    }
}

/// What a list of keys says.
spec fn keys_view(keys: Seq<(&'static str, bool, &'static str)>) -> Seq<
    (Seq<char>, bool, Seq<char>),
> {
    Seq::new(keys.len(), |i: int| (keys[i].0@, keys[i].1, keys[i].2@))
}

fn list_keys(m: &RawModule) -> (r: Vec<(&'static str, bool, &'static str)>)
    ensures
        keys_view(r@) == owned_keys(*m),
{
    let keys: Vec<(&'static str, bool, &'static str)> = vec![
        ("path", m.path.is_some(), "disk"),
        ("interface", m.interface.is_some(), "network"),
        ("chip", m.chip.is_some(), "temperature"),
        ("command", m.command.len() > 0, "command"),
        ("fields", m.fields.len() > 0, "command"),
        ("params", m.params.len() > 0, "command"),
        ("pages", m.pages, "command"),
        ("timeout", m.timeout.is_some(), "command"),
        ("layouts", m.layouts.len() > 0, "sway:language"),
        ("icons", m.icons.len() > 0, "sway:workspaces"),
        ("show_passive", m.show_passive.is_some(), "tray"),
        ("order", m.order.len() > 0, "tray"),
    ];
    assert(keys_view(keys@) =~= owned_keys(*m));
    keys
}

fn find_misplaced(keys: &Vec<(&'static str, bool, &'static str)>, name: &str) -> (r: Option<Slip>)
    ensures
        match r {
            Some(slip) => misplaced(keys_view(keys@), name@, 0) == Some(slip@),
            None => misplaced(keys_view(keys@), name@, 0) is None,
        },
{
    let ghost all = keys_view(keys@);
    for i in 0..keys.len()
        invariant
            all == keys_view(keys@),
            misplaced(all, name@, 0) == misplaced(all, name@, i as int),
    {
        assert(all[i as int] == (keys@[i as int].0@, keys@[i as int].1, keys@[i as int].2@));
        if keys[i].1 && !same(name, keys[i].2) {
            return Some(
                Slip { why: Why::Misplaced, word: owned(keys[i].0), other: owned(keys[i].2) },
            );
        }
    }
    None
}

fn check_keys(m: &RawModule) -> (r: Result<(), Slip>)
    ensures
        match r {
            Ok(_) => key_trouble(*m) is None,
            Err(slip) => key_trouble(*m) == Some(slip@),
        },
{
    let name = match &m.source {
        Some(s) => s.clone(),
        None => owned("provider"),
    };
    let n = name.as_str();
    match find_misplaced(&list_keys(m), n) {
        Some(slip) => Err(slip),
        None => if m.scope.is_some() && !same(n, "sway:window") && !same(n, "sway:workspaces") {
            Err(Slip::plainly(Why::ScopeMisplaced))
        } else {
            Ok(())
        },
    }
}

/// Where a module's content comes from.
pub open spec fn source_of(module: Seq<char>, m: RawModule, icons: Seq<Seq<char>>) -> Result<
    SourceView,
    RefusalView,
> {
    match named_source(module, m, icons) {
        Err(e) => Err(e),
        Ok(source) => match key_trouble(m) {
            Some(slip) => Err(refused(seq!["module"@, module], slip)),
            None => Ok(source),
        },
    }
}

/// Work out where a module's content comes from.
///
/// Some sources are pointed at something - a filesystem, an interface - and take that from the
/// module's own keys rather than from the source name, so the name stays a plain word and the
/// parameter reads as what it is.
pub fn resolve_source(module: &str, m: &RawModule, icons: &Catalogue) -> (r: Result<
    Source,
    Refusal,
>)
    ensures
        told(r) == source_of(module@, *m, icons@),
{
    let source = resolve_named(module, m, icons)?;
    put(check_keys(m), at2("module", module))?;
    Ok(source)
}

/// A command that names no program.
pub open spec fn bare_command() -> CommandView {
    CommandView {
        argv: Seq::empty(),
        run: Run::Stream,
        pages: false,
        fields: plain_fields(),
        timeout: Duration { nanos: 30_000_000_000 },
    }
}

/// Every source a module can be built on, under the name a configuration writes for it.
///
/// The parameterised ones stand here as what they are without their parameter, because this
/// exists to answer what a source publishes, and that does not depend on where it is pointed.
pub open spec fn listed_sources() -> Seq<(Seq<char>, SourceView)> {
    seq![
        ("cpu"@, SourceView::Native(WhichView::Cpu)),
        ("memory"@, SourceView::Native(WhichView::Memory)),
        ("battery"@, SourceView::Native(WhichView::Battery)),
        ("backlight"@, SourceView::Native(WhichView::Backlight)),
        ("load"@, SourceView::Native(WhichView::Load)),
        ("temperature"@, SourceView::Native(WhichView::Temperature(None))),
        ("disk"@, SourceView::Native(WhichView::Disk("/"@))),
        ("network"@, SourceView::Native(WhichView::Network(None))),
        ("time"@, SourceView::Native(WhichView::Time)),
        ("audio"@, SourceView::Native(WhichView::Audio)),
        ("media"@, SourceView::Native(WhichView::Media)),
        ("command"@, SourceView::Native(WhichView::Command(bare_command()))),
        ("provider"@, SourceView::Provider),
        ("sway:window"@, SourceView::SwayWindow(Scope::Output)),
        ("sway:workspaces"@, SourceView::SwayWorkspaces(WorkspacesSaid { scope: Scope::Output, icons: Seq::empty() })),
        ("sway:language"@, SourceView::SwayLanguage(Seq::empty())),
        ("sway:mode"@, SourceView::SwayMode),
        ("tray"@, SourceView::Tray(TraySaid { show_passive: false, order: Seq::empty() })),
    ]
}

/// What a list of names and sources says.
pub open spec fn named_view(v: Seq<(&'static str, Source)>) -> Seq<(Seq<char>, SourceView)> {
    Seq::new(v.len(), |i: int| (v[i].0@, v[i].1@))
}

/// Every source a module can be built on, under the name a configuration writes for it.
pub fn sources() -> (r: Vec<(&'static str, Source)>)
    ensures
        named_view(r@) == listed_sources(),
{
    let command = CommandSpec {
        argv: Vec::new(),
        run: Run::Stream,
        pages: false,
        fields: plain(),
        timeout: Duration::from_secs(DEFAULT_COMMAND_TIMEOUT),
    };
    assert(command@ =~= bare_command());
    let workspaces = WorkspaceView { scope: Scope::Output, icons: Table::new() };
    assert(workspaces@ =~= (WorkspacesSaid { scope: Scope::Output, icons: Seq::empty() }));
    let layouts: Table<String> = Table::new();
    assert(pairs_view(layouts@) =~= Seq::empty());
    let tray = TrayView { show_passive: false, order: Vec::new() };
    assert(tray@ =~= (TraySaid { show_passive: false, order: Seq::empty() }));
    let r: Vec<(&'static str, Source)> = vec![
        ("cpu", Source::Native(Which::Cpu)),
        ("memory", Source::Native(Which::Memory)),
        ("battery", Source::Native(Which::Battery)),
        ("backlight", Source::Native(Which::Backlight)),
        ("load", Source::Native(Which::Load)),
        ("temperature", Source::Native(Which::Temperature(None))),
        ("disk", Source::Native(Which::Disk(owned("/")))),
        ("network", Source::Native(Which::Network(None))),
        ("time", Source::Native(Which::Time)),
        ("audio", Source::Native(Which::Audio)),
        ("media", Source::Native(Which::Media)),
        ("command", Source::Native(Which::Command(command))),
        ("provider", Source::Provider),
        ("sway:window", Source::SwayWindow(Scope::Output)),
        ("sway:workspaces", Source::SwayWorkspaces(workspaces)),
        ("sway:language", Source::SwayLanguage(layouts)),
        ("sway:mode", Source::SwayMode),
        ("tray", Source::Tray(tray)),
    ];
    assert(named_view(r@) =~= listed_sources());
    r
}

/// Whether a name is one of those listed.
pub open spec fn is_listed(name: Seq<char>) -> bool {
    exists|i: int| 0 <= i < listed_sources().len() && (#[trigger] listed_sources()[i]).0 == name
}

/// The sources that are listed are those a module can name, and no others: a module whose
/// source is not listed is refused for that, and one whose source is listed is not.
pub proof fn law_the_sources_listed_are_those_that_can_be_named(
    module: Seq<char>,
    m: RawModule,
    icons: Seq<Seq<char>>,
)
    ensures
        is_listed(source_name(m)) <==> !(named_source(module, m, icons) matches Err(e)
            && e.slip.why == Why::UnknownSource),
{
    let name = source_name(m);
    let all = listed_sources();
    lemma_workspace_icons_why(module, m.icons@, 0, icons);
    lemma_command_why(module, m);
    assert(all[0].0 == "cpu"@);
    assert(all[1].0 == "memory"@);
    assert(all[2].0 == "battery"@);
    assert(all[3].0 == "backlight"@);
    assert(all[4].0 == "load"@);
    assert(all[5].0 == "temperature"@);
    assert(all[6].0 == "disk"@);
    assert(all[7].0 == "network"@);
    assert(all[8].0 == "time"@);
    assert(all[9].0 == "audio"@);
    assert(all[10].0 == "media"@);
    assert(all[11].0 == "command"@);
    assert(all[12].0 == "provider"@);
    assert(all[13].0 == "sway:window"@);
    assert(all[14].0 == "sway:workspaces"@);
    assert(all[15].0 == "sway:language"@);
    assert(all[16].0 == "sway:mode"@);
    assert(all[17].0 == "tray"@);
    if is_listed(name) {
        let i = choose|i: int| 0 <= i < all.len() && (#[trigger] all[i]).0 == name;
        assert(all[i].0 == name);
    }
}

proof fn lemma_duration_why(s: Seq<char>)
    ensures
        written_duration(s) matches Err(slip) ==> slip.why != Why::UnknownSource,
{
}

proof fn lemma_declared_why(raw: Seq<(String, String)>, from: int)
    ensures
        declared_fields(raw, from) matches Err(slip) ==> slip.why != Why::UnknownSource,
    decreases raw.len() - from,
{
    if 0 <= from < raw.len() {
        lemma_declared_why(raw, from + 1);
    }
}

proof fn lemma_command_why(module: Seq<char>, m: RawModule)
    ensures
        command_of(module, m) matches Err(e) ==> e.slip.why != Why::UnknownSource,
{
    lemma_declared_why(m.fields@, 0);
    if let Some(s) = m.interval {
        lemma_duration_why(s@);
    }
    if let Some(s) = m.timeout {
        lemma_duration_why(s@);
    }
}

proof fn lemma_workspace_icons_why(
    module: Seq<char>,
    raw: Seq<(String, String)>,
    from: int,
    icons: Seq<Seq<char>>,
)
    ensures
        workspace_icons(module, raw, from, icons) matches Err(e) ==> e.slip.why
            != Why::UnknownSource,
    decreases raw.len() - from,
{
    if 0 <= from < raw.len() {
        lemma_workspace_icons_why(module, raw, from + 1, icons);
    }
}

/// What is listed for a source is what a module on it publishes: wherever the module points
/// it, and as long as a command declares nothing of its own.
pub proof fn law_a_listed_source_publishes_what_it_says(
    module: Seq<char>,
    m: RawModule,
    icons: Seq<Seq<char>>,
    elsewhere: ElsewhereView,
    i: int,
)
    requires
        0 <= i < listed_sources().len(),
        source_name(m) == listed_sources()[i].0,
        m.fields@.len() == 0,
        named_source(module, m, icons) is Ok,
    ensures
        source_fields(named_source(module, m, icons)->Ok_0, elsewhere) == source_fields(
            listed_sources()[i].1,
            elsewhere,
        ),
{
    lemma_names_differ();
    let all = listed_sources();
    let name = source_name(m);
    assert(i == 0 ==> name == "cpu"@);
    assert(i == 1 ==> name == "memory"@);
    assert(i == 2 ==> name == "battery"@);
    assert(i == 3 ==> name == "backlight"@);
    assert(i == 4 ==> name == "load"@);
    assert(i == 5 ==> name == "temperature"@);
    assert(i == 6 ==> name == "disk"@);
    assert(i == 7 ==> name == "network"@);
    assert(i == 8 ==> name == "time"@);
    assert(i == 9 ==> name == "audio"@);
    assert(i == 10 ==> name == "media"@);
    assert(i == 11 ==> name == "command"@);
    assert(i == 12 ==> name == "provider"@);
    assert(i == 13 ==> name == "sway:window"@);
    assert(i == 14 ==> name == "sway:workspaces"@);
    assert(i == 15 ==> name == "sway:language"@);
    assert(i == 16 ==> name == "sway:mode"@);
    assert(i == 17 ==> name == "tray"@);
}

/// No two of the names sources are listed under are the same.
proof fn lemma_names_differ()
    ensures
        "sway:window"@ != "provider"@,
        "sway:workspaces"@ != "provider"@,
        "sway:workspaces"@ != "sway:window"@,
        "sway:language"@ != "provider"@,
        "sway:language"@ != "sway:window"@,
        "sway:language"@ != "sway:workspaces"@,
        "sway:mode"@ != "provider"@,
        "sway:mode"@ != "sway:window"@,
        "sway:mode"@ != "sway:workspaces"@,
        "sway:mode"@ != "sway:language"@,
        "tray"@ != "provider"@,
        "tray"@ != "sway:window"@,
        "tray"@ != "sway:workspaces"@,
        "tray"@ != "sway:language"@,
        "tray"@ != "sway:mode"@,
        "command"@ != "provider"@,
        "command"@ != "sway:window"@,
        "command"@ != "sway:workspaces"@,
        "command"@ != "sway:language"@,
        "command"@ != "sway:mode"@,
        "command"@ != "tray"@,
        "audio"@ != "provider"@,
        "audio"@ != "sway:window"@,
        "audio"@ != "sway:workspaces"@,
        "audio"@ != "sway:language"@,
        "audio"@ != "sway:mode"@,
        "audio"@ != "tray"@,
        "audio"@ != "command"@,
        "media"@ != "provider"@,
        "media"@ != "sway:window"@,
        "media"@ != "sway:workspaces"@,
        "media"@ != "sway:language"@,
        "media"@ != "sway:mode"@,
        "media"@ != "tray"@,
        "media"@ != "command"@,
        "media"@ != "audio"@,
        "cpu"@ != "provider"@,
        "cpu"@ != "sway:window"@,
        "cpu"@ != "sway:workspaces"@,
        "cpu"@ != "sway:language"@,
        "cpu"@ != "sway:mode"@,
        "cpu"@ != "tray"@,
        "cpu"@ != "command"@,
        "cpu"@ != "audio"@,
        "cpu"@ != "media"@,
        "memory"@ != "provider"@,
        "memory"@ != "sway:window"@,
        "memory"@ != "sway:workspaces"@,
        "memory"@ != "sway:language"@,
        "memory"@ != "sway:mode"@,
        "memory"@ != "tray"@,
        "memory"@ != "command"@,
        "memory"@ != "audio"@,
        "memory"@ != "media"@,
        "memory"@ != "cpu"@,
        "battery"@ != "provider"@,
        "battery"@ != "sway:window"@,
        "battery"@ != "sway:workspaces"@,
        "battery"@ != "sway:language"@,
        "battery"@ != "sway:mode"@,
        "battery"@ != "tray"@,
        "battery"@ != "command"@,
        "battery"@ != "audio"@,
        "battery"@ != "media"@,
        "battery"@ != "cpu"@,
        "battery"@ != "memory"@,
        "backlight"@ != "provider"@,
        "backlight"@ != "sway:window"@,
        "backlight"@ != "sway:workspaces"@,
        "backlight"@ != "sway:language"@,
        "backlight"@ != "sway:mode"@,
        "backlight"@ != "tray"@,
        "backlight"@ != "command"@,
        "backlight"@ != "audio"@,
        "backlight"@ != "media"@,
        "backlight"@ != "cpu"@,
        "backlight"@ != "memory"@,
        "backlight"@ != "battery"@,
        "load"@ != "provider"@,
        "load"@ != "sway:window"@,
        "load"@ != "sway:workspaces"@,
        "load"@ != "sway:language"@,
        "load"@ != "sway:mode"@,
        "load"@ != "tray"@,
        "load"@ != "command"@,
        "load"@ != "audio"@,
        "load"@ != "media"@,
        "load"@ != "cpu"@,
        "load"@ != "memory"@,
        "load"@ != "battery"@,
        "load"@ != "backlight"@,
        "time"@ != "provider"@,
        "time"@ != "sway:window"@,
        "time"@ != "sway:workspaces"@,
        "time"@ != "sway:language"@,
        "time"@ != "sway:mode"@,
        "time"@ != "tray"@,
        "time"@ != "command"@,
        "time"@ != "audio"@,
        "time"@ != "media"@,
        "time"@ != "cpu"@,
        "time"@ != "memory"@,
        "time"@ != "battery"@,
        "time"@ != "backlight"@,
        "time"@ != "load"@,
        "temperature"@ != "provider"@,
        "temperature"@ != "sway:window"@,
        "temperature"@ != "sway:workspaces"@,
        "temperature"@ != "sway:language"@,
        "temperature"@ != "sway:mode"@,
        "temperature"@ != "tray"@,
        "temperature"@ != "command"@,
        "temperature"@ != "audio"@,
        "temperature"@ != "media"@,
        "temperature"@ != "cpu"@,
        "temperature"@ != "memory"@,
        "temperature"@ != "battery"@,
        "temperature"@ != "backlight"@,
        "temperature"@ != "load"@,
        "temperature"@ != "time"@,
        "disk"@ != "provider"@,
        "disk"@ != "sway:window"@,
        "disk"@ != "sway:workspaces"@,
        "disk"@ != "sway:language"@,
        "disk"@ != "sway:mode"@,
        "disk"@ != "tray"@,
        "disk"@ != "command"@,
        "disk"@ != "audio"@,
        "disk"@ != "media"@,
        "disk"@ != "cpu"@,
        "disk"@ != "memory"@,
        "disk"@ != "battery"@,
        "disk"@ != "backlight"@,
        "disk"@ != "load"@,
        "disk"@ != "time"@,
        "disk"@ != "temperature"@,
        "network"@ != "provider"@,
        "network"@ != "sway:window"@,
        "network"@ != "sway:workspaces"@,
        "network"@ != "sway:language"@,
        "network"@ != "sway:mode"@,
        "network"@ != "tray"@,
        "network"@ != "command"@,
        "network"@ != "audio"@,
        "network"@ != "media"@,
        "network"@ != "cpu"@,
        "network"@ != "memory"@,
        "network"@ != "battery"@,
        "network"@ != "backlight"@,
        "network"@ != "load"@,
        "network"@ != "time"@,
        "network"@ != "temperature"@,
        "network"@ != "disk"@,
{
    reveal_strlit("provider");
    reveal_strlit("sway:window");
    reveal_strlit("sway:workspaces");
    reveal_strlit("sway:language");
    reveal_strlit("sway:mode");
    reveal_strlit("tray");
    reveal_strlit("command");
    reveal_strlit("audio");
    reveal_strlit("media");
    reveal_strlit("cpu");
    reveal_strlit("memory");
    reveal_strlit("battery");
    reveal_strlit("backlight");
    reveal_strlit("load");
    reveal_strlit("time");
    reveal_strlit("temperature");
    reveal_strlit("disk");
    reveal_strlit("network");
    assert("provider"@.len() == 8);
    assert("sway:window"@.len() == 11);
    assert("sway:workspaces"@.len() == 15);
    assert("sway:language"@.len() == 13);
    assert("sway:mode"@.len() == 9);
    assert("tray"@.len() == 4);
    assert("command"@.len() == 7);
    assert("audio"@.len() == 5);
    assert("media"@.len() == 5);
    assert("cpu"@.len() == 3);
    assert("memory"@.len() == 6);
    assert("battery"@.len() == 7);
    assert("backlight"@.len() == 9);
    assert("load"@.len() == 4);
    assert("time"@.len() == 4);
    assert("temperature"@.len() == 11);
    assert("disk"@.len() == 4);
    assert("network"@.len() == 7);
    assert("media"@[0] == 'm');
    assert("audio"@[0] == 'a');
    assert("battery"@[0] == 'b');
    assert("command"@[0] == 'c');
    assert("backlight"@[0] == 'b');
    assert("sway:mode"@[0] == 's');
    assert("load"@[0] == 'l');
    assert("tray"@[0] == 't');
    assert("time"@[1] == 'i');
    assert("tray"@[1] == 'r');
    assert("time"@[0] == 't');
    assert("temperature"@[0] == 't');
    assert("sway:window"@[0] == 's');
    assert("disk"@[0] == 'd');
    assert("network"@[0] == 'n');
}

} // verus!
