use dbar::app::source::App;
use dbar::collect::command::{plain, Run};
use dbar::collect::registry::backoff;
use dbar::collect::watch::Event;
use dbar::collect::which::{CommandSpec, Which};
use dbar::color::Color;
use dbar::config::button::Button;
use dbar::config::duration::parse_duration;
use dbar::config::icon::{Catalogue, IconSpec};
use dbar::config::known::{Known, Wording};
use dbar::config::module::{parse_percent, percent_text, Module};
use dbar::config::raw::{BarLayer, Direction, Edge, EdgeShape, RawBar, RawBarBackground};
use dbar::config::raw::{RawClickActions, RawCollapsedStyle, RawConfig, RawEdges, RawEnds};
use dbar::config::raw::{RawGroup, RawI3Bar, RawMenu, RawModule, RawPosition, RawSeparator};
use dbar::config::raw::{RawState, RawStep, RawStyle, Scope, SeparatorShape};
use dbar::config::refusal::{Place, Refusal, Slip, Why};
use dbar::config::rule::{parse_state, StateFlags};
use dbar::config::source::{sources, Elsewhere, Source, DEFAULT_COMMAND_TIMEOUT};
use dbar::config::style::Footprint;
use dbar::config::whole::{signal_range, Config, AT_ONCE};
use dbar::table::Table;
use dbar::number::Number;
use dbar::status::{Amount, Control, FieldSpec, Fields, Kind, State, Unit, Value};
use dbar::time::{Duration, Instant};

// --- reading a configuration as it is written --------------------------------------------

type Written<T> = Result<T, String>;

fn n(v: f64) -> Number {
    Number { bits: v.to_bits() }
}

/// One table, whose keys have to be all taken.
struct Keys {
    left: Vec<(String, toml::Value)>,
}

impl Keys {
    fn of(value: toml::Value) -> Written<Keys> {
        match value {
            toml::Value::Table(t) => Ok(Keys {
                left: t.into_iter().collect(),
            }),
            other => Err(format!("{other:?} is not a table")),
        }
    }

    fn take(&mut self, key: &str) -> Option<toml::Value> {
        let at = self.left.iter().position(|(k, _)| k == key)?;
        Some(self.left.remove(at).1)
    }

    fn done(self) -> Written<()> {
        match self.left.first() {
            Some((key, _)) => Err(format!("unknown field `{key}`")),
            None => Ok(()),
        }
    }

    fn text(&mut self, key: &str) -> Written<Option<String>> {
        match self.take(key) {
            None => Ok(None),
            Some(toml::Value::String(s)) => Ok(Some(s)),
            Some(other) => Err(format!("{key}: {other:?} is not text")),
        }
    }

    fn number(&mut self, key: &str) -> Written<Option<Number>> {
        match self.take(key) {
            None => Ok(None),
            Some(toml::Value::Float(v)) => Ok(Some(n(v as f32 as f64))),
            Some(toml::Value::Integer(v)) => Ok(Some(n(v as f32 as f64))),
            Some(other) => Err(format!("{key}: {other:?} is not a number")),
        }
    }

    fn whole(&mut self, key: &str) -> Written<Option<i64>> {
        match self.take(key) {
            None => Ok(None),
            Some(toml::Value::Integer(v)) => Ok(Some(v)),
            Some(other) => Err(format!("{key}: {other:?} is not a whole number")),
        }
    }

    fn flag(&mut self, key: &str) -> Written<Option<bool>> {
        match self.take(key) {
            None => Ok(None),
            Some(toml::Value::Boolean(b)) => Ok(Some(b)),
            Some(other) => Err(format!("{key}: {other:?} is not a flag")),
        }
    }

    fn list(&mut self, key: &str) -> Written<Vec<String>> {
        match self.take(key) {
            None => Ok(Vec::new()),
            Some(toml::Value::Array(items)) => items
                .into_iter()
                .map(|item| match item {
                    toml::Value::String(s) => Ok(s),
                    other => Err(format!("{key}: {other:?} is not text")),
                })
                .collect(),
            Some(other) => Err(format!("{key}: {other:?} is not a list")),
        }
    }

    fn optional_list(&mut self, key: &str) -> Written<Option<Vec<String>>> {
        match self.left.iter().any(|(k, _)| k == key) {
            true => self.list(key).map(Some),
            false => Ok(None),
        }
    }

    fn one_or_several(&mut self, key: &str) -> Written<Vec<String>> {
        if let Some((_, toml::Value::String(_))) = self.left.iter().find(|(k, _)| k == key) {
            return Ok(self.text(key)?.into_iter().collect());
        }
        self.list(key)
    }

    fn table(&mut self, key: &str) -> Written<Option<Keys>> {
        self.take(key).map(Keys::of).transpose()
    }

    fn pairs(&mut self, key: &str) -> Written<Table<String>> {
        let mut named = Table::new();
        if let Some(table) = self.table(key)? {
            for (k, v) in table.left {
                match v {
                    toml::Value::String(s) => named = named.insert(k, s),
                    other => return Err(format!("{key}.{k}: {other:?} is not text")),
                }
            }
        }
        Ok(named)
    }

    fn tables<T>(&mut self, key: &str, read: fn(Keys) -> Written<T>) -> Written<Table<T>> {
        let mut named = Table::new();
        if let Some(table) = self.table(key)? {
            for (k, v) in table.left {
                named = named.insert(k, read(Keys::of(v)?)?);
            }
        }
        Ok(named)
    }

    fn choice<T: Copy>(&mut self, key: &str, among: &[(&str, T)]) -> Written<Option<T>> {
        let Some(word) = self.text(key)? else {
            return Ok(None);
        };
        match among.iter().find(|(w, _)| *w == word) {
            Some((_, t)) => Ok(Some(*t)),
            None => Err(format!("{key}: unknown variant `{word}`")),
        }
    }

    fn button(&mut self, key: &str) -> Written<Option<Button>> {
        self.choice(
            key,
            &[
                ("left", Button::Left),
                ("middle", Button::Middle),
                ("right", Button::Right),
            ],
        )
    }

    fn shape(&mut self, key: &str) -> Written<Option<SeparatorShape>> {
        self.choice(
            key,
            &[
                ("none", SeparatorShape::Nothing),
                ("line", SeparatorShape::Line),
                ("slant", SeparatorShape::Slant),
                ("chevron", SeparatorShape::Chevron),
                ("notch", SeparatorShape::Notch),
                ("round", SeparatorShape::Round),
                ("curve", SeparatorShape::Curve),
            ],
        )
    }

    fn direction(&mut self, key: &str) -> Written<Option<Direction>> {
        self.choice(key, &[("right", Direction::Right), ("left", Direction::Left)])
    }

    fn style(&mut self) -> Written<RawStyle> {
        Ok(RawStyle {
            background: self.text("background")?,
            foreground: self.text("foreground")?,
            padding: self.number("padding")?,
            radius: self.number("radius")?,
            min_width: self.number("min_width")?,
            max_width: self.number("max_width")?,
            icon: self.text("icon")?,
            icon_size: self.number("icon_size")?,
            icon_gap: self.number("icon_gap")?,
        })
    }
}

fn style(mut t: Keys) -> Written<RawStyle> {
    let read = t.style()?;
    t.done()?;
    Ok(read)
}

fn collapsed(mut t: Keys) -> Written<RawCollapsedStyle> {
    let read = RawCollapsedStyle {
        style: t.text("style")?,
        overrides: t.style()?,
    };
    t.done()?;
    Ok(read)
}

fn separator(mut t: Keys) -> Written<RawSeparator> {
    let plain = RawSeparator::default();
    let read = RawSeparator {
        shape: t.shape("shape")?.unwrap_or(plain.shape),
        width: t.number("width")?.unwrap_or(plain.width),
        direction: t.direction("direction")?.unwrap_or(plain.direction),
        color: t.text("color")?.unwrap_or(plain.color),
        overlap: t.number("overlap")?.unwrap_or(plain.overlap),
    };
    t.done()?;
    Ok(read)
}

fn position(t: Option<Keys>) -> Written<RawPosition> {
    let Some(mut t) = t else {
        return Ok(RawPosition::default());
    };
    let read = RawPosition {
        groups: t.list("groups")?,
        separator: t.table("separator")?.map(separator).transpose()?,
    };
    t.done()?;
    Ok(read)
}

fn group(mut t: Keys) -> Written<RawGroup> {
    let plain = RawGroup::default();
    let edge = |t: &mut Keys, key: &str| {
        t.choice(
            key,
            &[("round", EdgeShape::Round), ("none", EdgeShape::Square)],
        )
    };
    let edges = match t.table("edges")? {
        Some(mut e) => {
            let read = RawEdges {
                left: edge(&mut e, "left")?.unwrap_or_default(),
                right: edge(&mut e, "right")?.unwrap_or_default(),
                radius: e.number("radius")?,
            };
            e.done()?;
            Some(read)
        }
        None => None,
    };
    let ends = match t.table("ends")? {
        Some(mut e) => {
            let read = RawEnds {
                left: e.shape("left")?.unwrap_or_default(),
                right: e.shape("right")?.unwrap_or_default(),
                width: e.number("width")?,
                overlap: e.number("overlap")?,
                direction: e.direction("direction")?,
            };
            e.done()?;
            Some(read)
        }
        None => None,
    };
    let read = RawGroup {
        collapsible: t.flag("collapsible")?.unwrap_or(false),
        collapse_button: t.button("collapse_button")?,
        collapse_animation: t.text("collapse_animation")?,
        collapsed: t.table("collapsed")?.map(collapsed).transpose()?,
        modules: t.list("modules")?,
        background: t.text("background")?,
        opacity: t.number("opacity")?,
        radius: t.number("radius")?.unwrap_or(plain.radius),
        padding: t.number("padding")?.unwrap_or(plain.padding),
        spacing: t.number("spacing")?.unwrap_or(plain.spacing),
        separator: t.table("separator")?.map(separator).transpose()?,
        edges,
        ends,
    };
    t.done()?;
    Ok(read)
}

fn state(mut t: Keys) -> Written<RawState> {
    let above = t.number("above")?;
    let read = RawState {
        style: t.text("style")?,
        state: t.text("state")?,
        field: t.text("field")?,
        equals: t.text("equals")?,
        fields: t.pairs("fields")?,
        below: t.number("below")?,
        above,
        headroom: above.map(|a| n(100.0 - f64::from_bits(a.bits))),
        urgent: t.flag("urgent")?.unwrap_or(false),
        hover: t.flag("hover")?.unwrap_or(false),
        focused: t.flag("focused")?.unwrap_or(false),
        visible: t.flag("visible")?.unwrap_or(false),
        contains: t.text("contains")?,
        strip: t.flag("strip")?.unwrap_or(false),
        overrides: t.style()?,
    };
    t.done()?;
    Ok(read)
}

fn step(written: String) -> RawStep {
    let value = percent_text(&written).parse::<f64>().ok().map(n);
    RawStep { written, value }
}

fn module(mut t: Keys) -> Written<RawModule> {
    let on_click = match t.table("on_click")? {
        Some(mut c) => {
            let read = RawClickActions {
                left: c.optional_list("left")?,
                middle: c.optional_list("middle")?,
                right: c.optional_list("right")?,
            };
            c.done()?;
            Some(read)
        }
        None => None,
    };
    let read = RawModule {
        style: t.text("style")?,
        source: t.text("source")?,
        format: t.text("format")?,
        format_alt: t.one_or_several("format_alt")?,
        alt_animation: t.text("alt_animation")?,
        interval: t.text("interval")?,
        path: t.text("path")?,
        interface: t.text("interface")?,
        chip: t.text("chip")?,
        layouts: t.pairs("layouts")?,
        icons: t.pairs("icons")?,
        scope: t.choice(
            "scope",
            &[("output", Scope::Output), ("session", Scope::Session)],
        )?,
        show_passive: t.flag("show_passive")?,
        order: t.list("order")?,
        command: t.list("command")?,
        params: t.list("params")?,
        pages: t.flag("pages")?.unwrap_or(false),
        timeout: t.text("timeout")?,
        fields: t.pairs("fields")?,
        signal: t.whole("signal")?.map(|v| v as i32),
        scroll: t.text("scroll")?.map(step),
        controls: t.flag("controls")?,
        collapsible: t.flag("collapsible")?,
        alt_button: t.button("alt_button")?,
        collapse_button: t.button("collapse_button")?,
        collapse_animation: t.text("collapse_animation")?,
        collapsed: t.table("collapsed")?.map(collapsed).transpose()?,
        refresh_button: t.button("refresh_button")?,
        mute_button: t.button("mute_button")?,
        on_click,
        states: t.tables("states", state)?,
        overrides: t.style()?,
    };
    t.done()?;
    Ok(read)
}

fn bar(t: Option<Keys>) -> Written<RawBar> {
    let plain = RawBar::default();
    let Some(mut t) = t else {
        return Ok(plain);
    };
    let background = match t.table("background")? {
        Some(mut b) => {
            let read = RawBarBackground {
                color: b.text("color")?,
                radius: b.number("radius")?.unwrap_or_default(),
            };
            b.done()?;
            read
        }
        None => plain.background,
    };
    let read = RawBar {
        height: t.whole("height")?.map_or(plain.height, |v| v as u32),
        position: t
            .choice("position", &[("top", Edge::Top), ("bottom", Edge::Bottom)])?
            .unwrap_or(plain.position),
        layer: t
            .choice(
                "layer",
                &[
                    ("background", BarLayer::Background),
                    ("bottom", BarLayer::Bottom),
                    ("top", BarLayer::Top),
                    ("overlay", BarLayer::Overlay),
                ],
            )?
            .unwrap_or(plain.layer),
        margin: t.whole("margin")?.map_or(plain.margin, |v| v as i32),
        gap: t.number("gap")?.unwrap_or(plain.gap),
        font: t.text("font")?.unwrap_or(plain.font),
        fallback: t.list("fallback")?,
        icon_size: t.number("icon_size")?,
        background,
        exclusive: t.flag("exclusive")?.unwrap_or(plain.exclusive),
        outputs: t.list("outputs")?,
        icon_theme: t.text("icon_theme")?.unwrap_or(plain.icon_theme),
    };
    t.done()?;
    Ok(read)
}

fn raw(text: &str) -> Written<RawConfig> {
    let table = text.parse::<toml::Table>().map_err(|e| e.to_string())?;
    let mut t = Keys::of(toml::Value::Table(table))?;
    let read = RawConfig {
        bar: bar(t.table("bar")?)?,
        menu: RawMenu::default(),
        i3bar: RawI3Bar::default(),
        colors: t.pairs("colors")?,
        left: position(t.table("left")?)?,
        center: position(t.table("center")?)?,
        right: position(t.table("right")?)?,
        styles: t.tables("style", style)?,
        groups: t.tables("group", group)?,
        modules: t.tables("module", module)?,
    };
    t.done()?;
    Ok(read)
}

// --- what the parts that draw know -------------------------------------------------------

fn catalogue() -> Catalogue {
    let names = [
        "cpu",
        "memory",
        "volume",
        "volume-muted",
        "headphones",
        "headphones-muted",
    ];
    Catalogue {
        names: names.iter().map(|s| s.to_string()).collect(),
    }
}

fn elsewhere() -> Elsewhere {
    let text = |names: &[&str]| names.iter().map(|s| FieldSpec::new(s, Kind::Text)).collect();
    Elsewhere {
        provider: text(&["text"]),
        window: text(&["title"]),
        workspaces: text(&["name"]),
        language: text(&["layout", "short"]),
        mode: text(&["mode"]),
        tray: text(&[]),
    }
}

/// The fields a wording names.
fn wording(written: &str) -> Wording {
    let names = written
        .split('$')
        .skip(1)
        .map(|rest| {
            rest.chars()
                .take_while(|c| c.is_ascii_alphanumeric() || *c == '_')
                .collect()
        })
        .collect();
    Wording {
        written: written.to_string(),
        names: Some(names),
    }
}

fn known(raw: &RawConfig) -> Known {
    let mut wordings = Vec::new();
    for (_, module) in raw.modules.entries() {
        wordings.extend(module.format.iter().map(|s| wording(s)));
        wordings.extend(module.format_alt.iter().map(|s| wording(s)));
    }
    for (_, source) in sources() {
        wordings.push(wording(source.default_format()));
    }
    Known {
        icons: catalogue(),
        elsewhere: elsewhere(),
        wordings,
        footprints: Vec::new(),
        font_size: n(10.0),
        icon_size: n(16.0),
    }
}

/// Resolve a configuration, measuring the icons it folds to as it asks for them.
fn parse(text: &str) -> Result<Config, String> {
    let raw = raw(text)?;
    let mut known = known(&raw);
    loop {
        let refused = match Config::resolve(&raw, &known) {
            Ok(config) => return Ok(config),
            Err(refused) => refused,
        };
        match refused.slip.why {
            Why::Unmeasured {
                icon,
                icon_size,
                padding,
            } => {
                let across = f64::from_bits(icon_size.bits) + 2.0 * f64::from_bits(padding.bits);
                known.footprints.push(Footprint {
                    icon,
                    icon_size,
                    padding,
                    width: n(across),
                });
            }
            _ => return Err(refused.message()),
        }
    }
}

fn said(slip: Slip) -> String {
    let at = Place {
        tables: Vec::new(),
        key: String::new(),
    };
    Refusal::new(at, slip).message()
}

fn first(config: &Config) -> &Module {
    config.modules()[0]
}

fn called<'a>(config: &'a Config, name: &str) -> &'a Module {
    config
        .modules()
        .into_iter()
        .find(|m| m.name == name)
        .expect("the module is there")
}

// --- the rest -----------------------------------------------------------------------------

/// A configuration with one module, so a button test says only what it is about.
fn one_module(body: &str) -> String {
    format!(
        r#"
[bar]
height = 30

[right]
groups = ["g"]

[group.g]
modules = ["m"]

[module.m]
{body}
"#
    )
}

fn spec_of(config: &Config) -> &CommandSpec {
    match &first(config).source {
        Source::Native(Which::Command(spec)) => spec,
        other => panic!("source is {other:?}"),
    }
}

/// How a command module's program is run, given what its `interval` says.
fn run_of(interval: &str) -> Run {
    let body = match interval.is_empty() {
        true => "source = \"command\"\ncommand = [\"true\"]".to_string(),
        false => {
            format!("source = \"command\"\ncommand = [\"true\"]\ninterval = \"{interval}\"")
        }
    };
    let cfg = parse(&one_module(&body)).expect("a command module");
    spec_of(&cfg).run
}

#[test]
fn a_command_with_no_interval_streams() {
    // The cheapest arrangement, and so the one you get by saying nothing: no process is
    // started to find out that nothing changed.
    assert_eq!(run_of(""), Run::Stream);
}

#[test]
fn an_interval_runs_the_command_again_that_often() {
    assert_eq!(run_of("30s"), Run::Every(Duration::from_secs(30)));
    assert_eq!(run_of("2m"), Run::Every(Duration::from_secs(120)));
}

#[test]
fn once_runs_it_at_startup_and_then_only_when_asked() {
    assert_eq!(run_of("once"), Run::Once);
    assert_eq!(run_of("ONCE"), Run::Once, "case is not the point");
}

#[test]
fn an_interval_that_would_never_stop_running_is_refused() {
    // A command run every no-time forks as fast as the machine can. Durations are already
    // required to be positive, which covers it.
    let e = parse(&one_module(
        "source = \"command\"\ncommand = [\"true\"]\ninterval = \"0s\"",
    ))
    .expect_err("a zero interval never stops running");
    assert!(e.contains("positive"), "{e}");
}

#[test]
fn an_interval_that_is_neither_a_period_nor_once_says_so() {
    let message = parse(&one_module(
        "source = \"command\"\ncommand = [\"true\"]\ninterval = \"sometimes\"",
    ))
    .expect_err("that is not a schedule");
    assert!(message.contains("once"), "{message}");
}

fn command(argv: &str, run: Run, pages: bool, timeout: Duration) -> CommandSpec {
    CommandSpec {
        argv: vec![argv.to_string()],
        run,
        pages,
        fields: plain(),
        timeout,
    }
}

#[test]
fn the_same_program_on_two_schedules_is_two_programs() {
    // Identity is the argv and how it is run: two modules that want the same script at
    // different rates want two of it, and sharing one would give one of them the other's
    // schedule.
    let patience = Duration::from_secs(DEFAULT_COMMAND_TIMEOUT);
    let every = |secs| Run::Every(Duration::from_secs(secs));
    let a = command("s", every(1), false, patience);
    let b = command("s", every(60), false, patience);
    let same = a.copy();
    assert!(!a.same(&b));
    assert!(a.same(&same));

    // And so is the deadline: one module willing to wait a minute for a script and another
    // that is not are asking for different things from the same program.
    let patient = command("s", every(1), false, Duration::from_secs(60));
    assert!(!a.same(&patient));
}

/// The list the help answers from and the list a module may name have to be the same list.
#[test]
fn every_source_a_module_can_name_is_one_the_help_lists() {
    for (name, listed) in sources() {
        let body = match name {
            "command" => format!("source = \"{name}\"\ncommand = [\"true\"]"),
            _ => format!("source = \"{name}\""),
        };
        let cfg = parse(&one_module(&body))
            .unwrap_or_else(|e| panic!("a module reading from {name:?}: {e}"));
        let resolved = &first(&cfg).source;
        let names = |source: &Source| -> Vec<String> {
            source
                .fields(&elsewhere())
                .into_iter()
                .map(|f| f.name)
                .collect()
        };
        assert_eq!(
            names(&listed),
            names(resolved),
            "{name} publishes something else than it says"
        );
    }
}

/// Two modules on one command share a process, so they have to share a schema too: what only
/// one of them declared would otherwise be parsed out of the output and thrown away, leaving a
/// module that validated and then drew nothing.
#[test]
fn modules_sharing_a_command_share_every_field_they_declared() {
    let text = r#"
[bar]
height = 30

[right]
groups = ["g"]

[group.g]
modules = ["temp", "wind"]

[module.temp]
source = "command"
command = ["weather"]
interval = "10m"
fields = { temp = "number" }
format = "$temp"

[module.wind]
source = "command"
command = ["weather"]
interval = "10m"
fields = { wind = "number" }
format = "$wind"
"#;
    let cfg = parse(text).expect("two modules on one command");
    for module in cfg.modules() {
        let Source::Native(Which::Command(spec)) = &module.source else {
            panic!("{} is not a command module", module.name);
        };
        let names: Vec<&str> = spec.fields.iter().map(|f| f.name.as_str()).collect();
        assert_eq!(names, ["temp", "wind"], "in module {:?}", module.name);
    }

    // And one command, not two: the schemas differing is not what tells two of them apart.
    assert_eq!(cfg.collectors().len(), 1);
}

/// Sharing a reading means agreeing about what is in it. Two modules that do not are told so
/// by name, rather than one of them silently deciding.
#[test]
fn modules_sharing_a_command_may_not_disagree_about_a_field() {
    let text = r#"
[bar]
height = 30

[right]
groups = ["g"]

[group.g]
modules = ["a", "b"]

[module.a]
source = "command"
command = ["weather"]
interval = "10m"
fields = { load = "number" }
format = "$load"

[module.b]
source = "command"
command = ["weather"]
interval = "10m"
fields = { load = "text" }
format = "$load"
"#;
    let message = parse(text).expect_err("two kinds for one field");
    assert!(
        message.contains("\"a\"") && message.contains("\"b\""),
        "{message}"
    );
    assert!(message.contains("load"), "{message}");
}

/// A bar that draws nothing the compositor knows must not connect to it: two sockets, two
/// threads and a tree read on every window title are the cost of asking.
#[test]
fn a_config_says_which_halves_of_the_compositor_it_needs() {
    let native = parse(
        "[bar]\nheight = 30\n\n[right]\ngroups = [\"g\"]\n\n\
             [group.g]\nmodules = [\"cpu\"]\n\n[module.cpu]\nsource = \"cpu\"\n",
    )
    .expect("a native config");
    assert!(!native.needs_windows());
    assert!(!native.needs_workspaces());
    assert!(!native.needs_language());
    assert!(!native.needs_mode());

    let desktop = parse(
        "[bar]\nheight = 30\n\n[right]\ngroups = [\"g\"]\n\n\
             [group.g]\nmodules = [\"ws\"]\n\n[module.ws]\nsource = \"sway:workspaces\"\n",
    )
    .expect("a workspace config");
    // A workspace list is not a window title: the tree is what costs, and nothing here reads
    // it.
    assert!(desktop.needs_workspaces());
    assert!(!desktop.needs_windows());
}

/// The argv a command module ends up with, given what it wrote.
fn argv_of(body: &str) -> Vec<String> {
    let cfg = parse(&one_module(body)).expect("a command module");
    spec_of(&cfg).argv.clone()
}

/// The knobs are arguments, in the order they were written: what they mean is the script's
/// business, which is what keeps one script good for two cities.
#[test]
fn params_are_handed_to_the_command_as_further_arguments() {
    let argv = argv_of(
        "source = \"command\"\ncommand = [\"weather\", \"--quiet\"]\n\
             params = [\"metric\", \"45.25,19.83\"]",
    );
    assert_eq!(argv, ["weather", "--quiet", "metric", "45.25,19.83"]);
}

/// Two modules running the same script with different knobs want two of it, since what is run
/// is what tells one command from another.
#[test]
fn changing_a_param_asks_for_a_different_command() {
    let here = argv_of("source = \"command\"\ncommand = [\"w\"]\nparams = [\"here\"]");
    let there = argv_of("source = \"command\"\ncommand = [\"w\"]\nparams = [\"there\"]");
    assert_ne!(here, there);
}

/// One command asked about three places says three things, and the module scrolls between
/// them.
#[test]
fn a_command_can_publish_a_page_per_line() {
    let cfg = parse(&one_module(
        "source = \"command\"\ncommand = [\"weather\"]\ninterval = \"once\"\npages = true",
    ))
    .expect("a command with pages");
    assert!(spec_of(&cfg).pages);
}

#[test]
fn a_command_is_given_a_deadline_whether_it_asks_for_one_or_not() {
    let cfg = parse(&one_module(
        "source = \"command\"\ncommand = [\"w\"]\ninterval = \"1s\"",
    ))
    .expect("a command module");
    assert_eq!(
        spec_of(&cfg).timeout,
        Duration::from_secs(DEFAULT_COMMAND_TIMEOUT)
    );

    let cfg = parse(&one_module(
        "source = \"command\"\ncommand = [\"w\"]\ninterval = \"1s\"\ntimeout = \"2s\"",
    ))
    .expect("a command module with a deadline");
    assert_eq!(spec_of(&cfg).timeout, Duration::from_secs(2));
}

/// The table of running programs is a fixed size, because a signal handler reads it and a
/// handler may not take a lock. A configuration that could overrun it is refused when it is
/// read: the alternative is a program silently left behind when the bar stops.
///
/// What counts is the collector, not the module. Two modules that name the same command share
/// one collector and so one program, the way two modules reading the processor share one
/// reading.
#[test]
fn a_config_that_runs_more_programs_than_can_be_stopped_is_refused() {
    // `how_many` modules, each running its own program unless `share` is set, in which case
    // they all name the same one.
    let modules = |how_many: usize, share: bool| {
        let names: Vec<String> = (0..how_many).map(|n| format!("run{n}")).collect();
        let mut text = format!("[left]\ngroups = [\"g\"]\n[group.g]\nmodules = {names:?}\n");
        for (n, name) in names.iter().enumerate() {
            let argv = match share {
                true => "\"true\"".to_string(),
                false => format!("\"true\", \"{n}\""),
            };
            text += &format!(
                "[module.{name}]\nsource = \"command\"\ncommand = [{argv}]\nformat = \"$text\"\n"
            );
        }
        text
    };
    let all = AT_ONCE as usize;
    parse(&modules(all, false)).expect("as many programs as dbar can keep track of");
    // Sharing one command is one program, however many modules show it.
    parse(&modules(all + 20, true)).expect("many modules, one program");

    let message = parse(&modules(all + 1, false))
        .expect_err("one more program than dbar can keep track of");
    assert!(message.contains(&format!("{all}")), "{message}");
    assert!(message.contains("command modules"), "{message}");
}

/// A streaming command is meant to sit there, so a deadline on one would mean killing a
/// working program for doing its job.
#[test]
fn a_streaming_command_cannot_be_given_a_deadline() {
    let message = parse(&one_module(
        "source = \"command\"\ncommand = [\"tail\"]\ntimeout = \"2s\"",
    ))
    .expect_err("a streaming command has nothing to time out");
    assert!(message.contains("timeout"), "{message}");
    assert!(message.contains("interval"), "{message}");
}

#[test]
fn a_deadline_on_a_module_that_runs_nothing_is_rejected() {
    let message = parse(&one_module("source = \"cpu\"\ntimeout = \"2s\""))
        .expect_err("only a command has a run to time out");
    assert!(message.contains("timeout"), "{message}");
    assert!(message.contains("command"), "{message}");
}

/// Paging is what a run's lines mean, so two modules that read them differently are two
/// commands rather than one they would have to agree about.
#[test]
fn paging_tells_one_command_from_another() {
    let patience = Duration::from_secs(DEFAULT_COMMAND_TIMEOUT);
    let plain = command("w", Run::Once, false, patience);
    let paged = command("w", Run::Once, true, patience);
    assert!(!plain.same(&paged));
}

#[test]
fn a_streaming_command_has_no_lines_to_page_between() {
    let message = parse(&one_module(
        "source = \"command\"\ncommand = [\"tail\"]\npages = true",
    ))
    .expect_err("a streaming command sends a reading per line as it goes");
    assert!(message.contains("interval"), "{message}");
}

#[test]
fn pages_belong_to_a_command_and_nothing_else() {
    let message = parse(&one_module("source = \"cpu\"\npages = true"))
        .expect_err("a cpu module publishes one reading");
    assert!(message.contains("pages"), "{message}");
}

/// `scroll` is for what dbar can set as well as read. A command module is scrolled too, but
/// through its pages, so the error says which key that is.
#[test]
fn scrolling_a_command_points_at_pages() {
    let message = parse(&one_module(
        "source = \"command\"\ncommand = [\"w\"]\nscroll = \"5%\"",
    ))
    .expect_err("a command is not something dbar can set");
    assert!(message.contains("pages = true"), "{message}");
}

#[test]
fn params_belong_to_a_command_and_nothing_else() {
    let message = parse(&one_module("source = \"cpu\"\nparams = [\"metric\"]"))
        .expect_err("a cpu module runs nothing to pass them to");
    assert!(message.contains("params"), "{message}");
    assert!(message.contains("command"), "{message}");
}

/// A reading that costs a request to somebody else's server is worth asking for rather than
/// taking on a schedule, and this is what asks.
#[test]
fn a_button_can_ask_a_source_to_be_read_again() {
    let cfg = parse(&one_module(
        "source = \"command\"\ncommand = [\"weather\"]\ninterval = \"once\"\n\
             refresh_button = \"left\"",
    ))
    .expect("a command that answers when asked");
    assert_eq!(first(&cfg).refresh_button, Some(Button::Left));
    assert_eq!(cfg.refreshable().len(), 1, "something can ask for it");
}

/// A command nothing can ask keeps no way of being asked, so one that answers once is done
/// when it has answered rather than parking a thread on a question that cannot come.
#[test]
fn a_command_nobody_can_ask_is_not_askable() {
    let cfg = parse(&one_module(
        "source = \"command\"\ncommand = [\"uname\"]\ninterval = \"once\"",
    ))
    .expect("a command module");
    assert!(cfg.refreshable().is_empty());
}

#[test]
fn a_streaming_command_has_no_run_to_bring_forward() {
    let message = parse(&one_module(
        "source = \"command\"\ncommand = [\"tail\"]\nrefresh_button = \"left\"",
    ))
    .expect_err("a streaming command speaks for itself");
    assert!(message.contains("interval"), "{message}");
}

/// The volume arrives when it moves. Asking for it would be asking a collector that exists
/// only to say it cannot answer, so the configuration says so instead.
#[test]
fn a_source_that_arrives_on_its_own_cannot_be_asked() {
    for key in ["refresh_button = \"left\"", "signal = 3"] {
        let message = parse(&one_module(&format!("source = \"audio\"\n{key}")))
            .expect_err("the volume is not read");
        assert!(message.contains("arrives when it changes"), "{message}");
    }
}

#[test]
fn refreshing_cannot_take_a_button_something_else_has() {
    let message = parse(&one_module(
        "source = \"command\"\ncommand = [\"weather\"]\ninterval = \"once\"\n\
             format_alt = \"$text!\"\nrefresh_button = \"left\"",
    ))
    .expect_err("the left button was already turning the page");
    assert!(message.contains("format_alt"), "{message}");
    assert!(message.contains("refresh_button"), "{message}");
}

#[test]
fn a_click_can_run_a_program_of_your_own() {
    let cfg = parse(&one_module(
        "source = \"time\"\non_click = { left = [\"cal\", \"-3\"] }",
    ))
    .expect("a clock with something to run");
    let actions = first(&cfg).on_click.as_ref().expect("on_click was written");
    assert_eq!(
        actions.for_button(Button::Left),
        Some(&vec!["cal".to_string(), "-3".to_string()])
    );
    assert_eq!(actions.for_button(Button::Right), None);
}

#[test]
fn a_button_given_nothing_to_run_is_a_mistake_worth_stopping_for() {
    let message = parse(&one_module(
        "source = \"time\"\non_click = { left = [\"\"] }",
    ))
    .expect_err("an empty program name runs nothing");
    assert!(message.contains("on_click.left"), "{message}");
    assert!(message.contains("[module.m]"), "{message}");

    // An empty list is no way of saying "do nothing".
    let message = parse(&one_module("source = \"time\"\non_click = { right = [] }"))
        .expect_err("an empty list runs nothing");
    assert!(message.contains("on_click.right"), "{message}");
}

#[test]
fn further_wordings_answer_to_the_left_button_unless_told_otherwise() {
    let cfg = parse(&one_module(
        "source = \"cpu\"\nformat_alt = \"$utilization\"",
    ))
    .expect("a module with a second wording");
    assert_eq!(first(&cfg).alt_button, Button::Left);

    let moved = parse(&one_module(
        "source = \"cpu\"\nformat_alt = \"$utilization\"\nalt_button = \"middle\"",
    ))
    .expect("the button is the config's to choose");
    assert_eq!(first(&moved).alt_button, Button::Middle);
}

#[test]
fn two_things_wanting_one_button_is_a_startup_error() {
    // The left button cannot both run a program and move through wordings; picking a winner
    // silently would leave the loser spelled correctly and doing nothing.
    let message = parse(&one_module(
        "source = \"cpu\"\nformat_alt = \"$utilization\"\non_click = { left = [\"true\"] }",
    ))
    .expect_err("the left button was given away twice");
    assert!(message.contains("left"), "{message}");
    assert!(message.contains("format_alt"), "{message}");
    assert!(message.contains("on_click.left"), "{message}");

    // Moving one of them off it settles the matter.
    parse(&one_module(
        "source = \"cpu\"\nformat_alt = \"$utilization\"\nalt_button = \"middle\"\non_click = { left = [\"true\"] }",
    ))
    .expect("nothing is claimed twice now");
}

fn fold_button(module: &Module) -> Button {
    module.collapse.as_ref().expect("it folds").button
}

#[test]
fn folding_answers_to_the_right_button_unless_told_otherwise() {
    let cfg = parse(&one_module(
        "source = \"cpu\"\ncollapsible = true\nicon = \"$cpu\"",
    ))
    .expect("a module that folds");
    assert_eq!(fold_button(first(&cfg)), Button::Right);

    // Moved off the right, which then leaves the right free for something else.
    let moved = parse(&one_module(
        "source = \"cpu\"\ncollapsible = true\nicon = \"$cpu\"\ncollapse_button = \"middle\"\non_click = { right = [\"true\"] }",
    ))
    .expect("nothing is claimed twice");
    assert_eq!(fold_button(first(&moved)), Button::Middle);
    assert!(first(&moved).on_click.is_some());
}

#[test]
fn muting_answers_to_the_middle_button_unless_told_otherwise() {
    let cfg = parse(&one_module("source = \"audio\"\nscroll = \"5%\"")).expect("a volume module");
    assert_eq!(first(&cfg).mute_button, Some(Button::Middle));

    // Moved onto the left, with the wordings moved off it so nothing is claimed twice.
    let moved = parse(&one_module(
        "source = \"audio\"\nscroll = \"5%\"\nmute_button = \"left\"\nformat_alt = [\" $volume \"]\nalt_button = \"right\"",
    ))
    .expect("nothing is claimed twice");
    assert_eq!(first(&moved).mute_button, Some(Button::Left));

    // A module with nothing to mute carries no button for it, so the press falls through to
    // whatever the module was forwarding to.
    let cpu = parse(&one_module("source = \"cpu\"")).expect("a cpu module");
    assert_eq!(first(&cpu).mute_button, None);
}

#[test]
fn muting_is_refused_where_there_is_nothing_to_mute() {
    let e = parse(&one_module("source = \"cpu\"\nmute_button = \"left\""))
        .expect_err("a cpu module cannot be muted");
    assert!(e.contains("mute_button"), "{e}");
}

#[test]
fn the_button_that_mutes_is_claimed_like_any_other() {
    // The volume's own button is taken, so a program cannot be given the same one.
    let e = parse(&one_module(
        "source = \"audio\"\nscroll = \"5%\"\non_click = { middle = [\"true\"] }",
    ))
    .expect_err("muting is already on the middle");
    assert!(e.contains("mute_button"), "{e}");

    // Moving the mute frees the button it left behind.
    parse(&one_module(
        "source = \"audio\"\nscroll = \"5%\"\nmute_button = \"right\"\non_click = { middle = [\"true\"] }",
    ))
    .expect("the middle is free once muting has moved off it");
}

#[test]
fn a_button_a_native_control_already_uses_is_claimed_too() {
    // `controls` on a player is the left button, and a right click folds any module down, so
    // neither is free to be given away a second time.
    let e = parse(&one_module(
        "source = \"media\"\ncontrols = true\non_click = { left = [\"true\"] }",
    ))
    .expect_err("play and pause are already on the left");
    assert!(e.contains("controls"), "{e}");

    let e = parse(&one_module(
        "source = \"cpu\"\ncollapsible = true\non_click = { right = [\"true\"] }",
    ))
    .expect_err("folding is already on the right");
    assert!(e.contains("collapsible"), "{e}");
}

#[test]
fn a_format_naming_an_unknown_field_is_rejected() {
    let config = r##"
[left]
groups = ["g"]

[group.g]
modules = ["cpu"]

[module.cpu]
format = "$nope"
"##;
    let message = parse(config).expect_err("an unknown field must be reported");
    assert!(message.contains("[module.cpu]"), "{message}");
    assert!(message.contains("$nope"), "{message}");
}

#[test]
fn a_format_is_checked_against_the_source_it_reads() {
    let config = r##"
[left]
groups = ["g"]

[group.g]
modules = ["win"]

[module.win]
source = "sway:window"
format = "$text"
"##;
    // `$text` is the provider's field; the window module publishes `$title`.
    let e = parse(config).expect_err("the wrong source's field must be reported");
    assert!(e.contains("title"), "{e}");
}

#[test]
fn a_layout_mapping_belongs_to_the_module_that_reads_it() {
    let config = |source: &str| {
        format!(
            r##"
[left]
groups = ["g"]

[group.g]
modules = ["lang"]

[module.lang]
source = "{source}"

[module.lang.layouts]
"English (US)" = "EN"
"##
        )
    };

    let parsed = parse(&config("sway:language")).expect("parses");
    assert!(parsed.needs_language());
    let Source::SwayLanguage(layouts) = &first(&parsed).source else {
        panic!("the module should read the compositor's keyboard layout");
    };
    assert_eq!(
        layouts.entries(),
        &vec![("English (US)".to_string(), "EN".to_string())]
    );

    // On anything else the table would quietly do nothing, which is how a config comes to be
    // wrong for months.
    let e = parse(&config("cpu")).expect_err("a misplaced mapping must be reported");
    assert!(e.contains("layouts"), "{e}");
}

#[test]
fn a_workspace_icon_must_name_a_native_icon() {
    let config = r##"
[left]
groups = ["g"]

[group.g]
modules = ["ws"]

[module.ws]
source = "sway:workspaces"
icons = { "1" = "$not-an-icon" }
"##;
    let error = parse(config).expect_err("an unknown workspace icon must be rejected");
    assert!(error.contains("workspace \"1\""), "{error}");
    assert!(
        error.contains("unknown native icon \"$not-an-icon\""),
        "{error}"
    );
}

#[test]
fn a_bar_without_a_language_module_never_asks_for_one() {
    let config = r##"
[left]
groups = ["g"]

[group.g]
modules = ["win"]

[module.win]
source = "sway:window"
"##;
    assert!(!parse(config).expect("parses").needs_language());
}

#[test]
fn durations_need_a_unit() {
    assert_eq!(parse_duration("2s").unwrap(), Duration::from_secs(2));
    assert_eq!(parse_duration("500ms").unwrap(), Duration::from_millis(500));
    assert_eq!(parse_duration("1m").unwrap(), Duration::from_secs(60));
    assert_eq!(parse_duration(" 1h ").unwrap(), Duration::from_secs(3600));
    assert_eq!(parse_duration("0.5s").unwrap(), Duration::from_millis(500));

    // "2" reads as two of something, and which something is the point.
    assert!(parse_duration("2").is_err());
    assert!(parse_duration("2w").is_err());
    assert!(parse_duration("0s").is_err());
    assert!(parse_duration("-1s").is_err());
    assert!(parse_duration("s").is_err());
}

/// A flag is compared against the words it is drawn with, so a source that publishes one where
/// it used to publish text does not silence every config that matched on the word. The audio
/// module's `muted` is exactly that: it was `"yes"` and `"no"` as text before it was the flag
/// it always was.
#[test]
fn a_state_rule_matches_a_flag_by_the_word_it_is_drawn_with() {
    let config = |compare: &str| {
        format!(
            r##"
[left]
groups = ["g"]
[group.g]
modules = ["vol"]
[module.vol]
source = "audio"
format = "$volume"
[module.vol.states.quiet]
{compare}
foreground = "#ff0000"
"##
        )
    };
    // Both ways of writing the rule are accepted against a field that is a flag.
    for compare in [
        "field = \"muted\"\nequals = \"yes\"",
        "fields = { muted = \"yes\" }",
        "field = \"muted\"\nequals = \"true\"",
    ] {
        parse(&config(compare))
            .unwrap_or_else(|e| panic!("{compare:?} should be a rule about a flag: {e}"));
    }
    // And a number is still not a word.
    assert!(parse(&config("field = \"volume\"\nequals = \"yes\"")).is_err());

    // What the matching itself does, which is what a config written against the old text
    // depends on.
    let yes = Value::Flag(true);
    let no = Value::Flag(false);
    assert!(yes.reads_as("yes") && yes.reads_as("YES") && yes.reads_as("true"));
    assert!(no.reads_as("no") && no.reads_as("false"));
    assert!(!yes.reads_as("no") && !no.reads_as("yes"));
    // Text goes on reading as itself.
    assert!(Value::Text("headphones".into()).reads_as("HeadPhones"));
}

/// A length is refused at both ends rather than rounded into something that looks like an
/// answer. Too small used to arrive as zero, which leaves a collector due the moment it has
/// been read - a bar reading a source as fast as the machine can, which is what an interval
/// exists to prevent. Too large used to panic in the conversion, so a config nobody could run
/// took the whole check down rather than being reported.
#[test]
fn a_length_of_time_has_two_ends() {
    assert_eq!(parse_duration("1ms").unwrap(), Duration::from_millis(1));

    for shorter in ["0.0000000001s", "0.0001ms", "0.00000001m"] {
        let e = said(parse_duration(shorter).expect_err("shorter than dbar can schedule"));
        assert!(e.contains("shorter"), "{e}");
    }
    // The last two fit in a `Duration` and are still not schedules: a deadline is an `Instant`
    // plus the wait, and a wait that keeps failing is doubled.
    for longer in [
        "999999999999999999999999999s",
        "99999999999999999999h",
        "9223372036854775808s",
        "1000000000000000000s",
    ] {
        let e = said(parse_duration(longer).expect_err("longer than dbar can schedule"));
        assert!(e.contains("longer"), "{e}");
    }

    // A year is allowed, and survives everything scheduling does to it.
    let year = parse_duration("8760h").expect("a year is a length of time");
    let latest = backoff(year, u32::MAX);
    let nanos = u64::try_from(latest.nanos).expect("it can be counted");
    assert!(
        std::time::Instant::now()
            .checked_add(std::time::Duration::from_nanos(nanos))
            .is_some(),
        "the longest allowed interval does not survive being backed off"
    );
}

#[test]
fn a_collector_is_read_once_however_many_modules_show_it() {
    let config = r##"
[left]
groups = ["g"]

[group.g]
modules = ["a", "b"]

[module.a]
source = "cpu"
interval = "5s"

[module.b]
source = "cpu"
interval = "1s"
"##;
    let collectors = parse(config).expect("parses").collectors();
    assert_eq!(collectors.len(), 1);
    // The shortest interval anyone asked for wins, so nobody waits longer than they said.
    assert_eq!(collectors[0].0, Which::Cpu);
    assert_eq!(collectors[0].1, Duration::from_secs(1));
}

#[test]
fn a_native_config_needs_no_provider() {
    let native = r##"
[left]
groups = ["g"]

[group.g]
modules = ["clock"]

[module.clock]
source = "time"
"##;
    assert!(!parse(native).expect("parses").needs_provider());

    let external = r##"
[left]
groups = ["g"]

[group.g]
modules = ["net"]
"##;
    assert!(parse(external).expect("parses").needs_provider());
}

#[test]
fn an_interval_on_a_source_dbar_does_not_read_is_rejected() {
    let config = r##"
[left]
groups = ["g"]

[group.g]
modules = ["cpu"]

[module.cpu]
interval = "1s"
"##;
    let e = parse(config).expect_err("an interval on a provider module is a mistake");
    assert!(e.contains("interval"), "{e}");
}

#[test]
fn an_unknown_source_says_what_the_sources_are() {
    let config = r##"
[left]
groups = ["g"]

[group.g]
modules = ["x"]

[module.x]
source = "nonesuch"
"##;
    let message = parse(config).expect_err("an unknown source is a mistake");
    assert!(message.contains("nonesuch"), "{message}");
    assert!(message.contains("cpu"), "{message}");
}

#[test]
fn matching_on_text_is_only_for_provider_modules() {
    let native = r##"
[left]
groups = ["g"]

[group.g]
modules = ["cpu"]

[module.cpu]
source = "cpu"

[module.cpu.states.busy]
contains = "busy"
"##;
    let e = parse(native).expect_err("a native source publishes values, not wording");
    assert!(e.contains("text"), "{e}");

    // The same rule is exactly right for a module fed rendered text.
    let provider = native.replace("source = \"cpu\"\n", "");
    assert!(parse(&provider).is_ok());
}

#[test]
fn a_threshold_field_has_to_be_a_number_the_source_publishes() {
    let template = r##"
[left]
groups = ["g"]

[group.g]
modules = ["mem"]

[module.mem]
source = "memory"

[module.mem.states.rule]
field = "FIELD"
above = 10
"##;
    assert!(parse(&template.replace("FIELD", "swap_percent")).is_ok());

    let unknown = parse(&template.replace("FIELD", "nonesuch"))
        .expect_err("a field the source does not publish is a mistake");
    assert!(unknown.contains("nonesuch"), "{unknown}");

    let wrong_kind = r##"
[left]
groups = ["g"]

[group.g]
modules = ["clock"]

[module.clock]
source = "time"

[module.clock.states.rule]
field = "now"
above = 10
"##;
    let e = parse(wrong_kind).expect_err("a bound on a time could never fire");
    assert!(e.contains("number"), "{e}");
}

#[test]
fn a_rule_comparing_a_word_needs_a_field_that_holds_one() {
    let template = r##"
[left]
groups = ["g"]

[group.g]
modules = ["bat"]

[module.bat]
source = "battery"

[module.bat.states.rule]
field = "FIELD"
COMPARE
"##;
    let ok = template
        .replace("FIELD", "status")
        .replace("COMPARE", "equals = \"charging\"");
    assert!(parse(&ok).is_ok());

    // A word against a number, and a number against a word, are both mistakes.
    let wrong_kind = template
        .replace("FIELD", "percent")
        .replace("COMPARE", "equals = \"charging\"");
    let e = parse(&wrong_kind).expect_err("percent holds no word");
    assert!(e.contains("word"), "{e}");

    let wrong_bound = template
        .replace("FIELD", "status")
        .replace("COMPARE", "above = 10");
    let e = parse(&wrong_bound).expect_err("status holds no number");
    assert!(e.contains("number"), "{e}");

    // Naming a field and then saying nothing about it can never fire.
    let silent = template.replace("FIELD", "status").replace("COMPARE", "");
    let e = parse(&silent).expect_err("a rule with no comparison is a mistake");
    assert!(e.contains("equals"), "{e}");
}

#[test]
fn state_names_are_the_ones_a_source_can_report() {
    assert_eq!(parse_state("critical").unwrap(), State::Critical);
    assert_eq!(parse_state("error").unwrap(), State::Error);
    let e = said(parse_state("urgent").expect_err("urgent is a flag, not a rating"));
    assert!(e.contains("warning"), "{e}");
}

#[test]
fn a_second_wording_is_checked_like_the_first() {
    let config = r##"
[left]
groups = ["g"]

[group.g]
modules = ["cpu"]

[module.cpu]
source = "cpu"
format_alt = "$nonesuch"
"##;
    let message = parse(config).expect_err("format_alt is checked too");
    assert!(message.contains("format_alt"), "{message}");
    assert!(message.contains("nonesuch"), "{message}");
}

#[test]
fn a_module_may_have_one_further_wording_or_several() {
    let config = parse(
        r#"
[right]
groups = ["g"]

[group.g]
modules = ["one", "several"]

[module.one]
source = "cpu"
format_alt = " $utilization "

[module.several]
source = "network"
format_alt = [" $down ", " $signal ", " $dbm "]
"#,
    )
    .expect("both spellings are allowed");
    let wordings = |name: &str| called(&config, name).format_alt.len();
    assert_eq!(wordings("one"), 1);
    assert_eq!(wordings("several"), 3);
}

#[test]
fn a_wording_that_names_a_field_the_source_lacks_says_which_one() {
    let message = parse(
        r#"
[right]
groups = ["g"]

[group.g]
modules = ["net"]

[module.net]
source = "network"
format_alt = [" $down ", " $nonsense "]
"#,
    )
    .expect_err("the second wording names nothing");
    assert!(message.contains("wording 2"), "{message}");
    assert!(message.contains("nonsense"), "{message}");
}

#[test]
fn folding_needs_something_left_to_click_on() {
    let message = parse(
        r#"
[right]
groups = ["g"]

[group.g]
modules = ["cpu"]

[module.cpu]
source = "cpu"
collapsible = true
"#,
    )
    .expect_err("a module with no icon has nothing to fold down to");
    assert!(message.contains("icon"), "{message}");

    parse(
        r#"
[right]
groups = ["g"]

[group.g]
modules = ["cpu"]

[module.cpu]
source = "cpu"
icon = "$cpu"
collapsible = true
"#,
    )
    .expect("with an icon it is fine");
}

#[test]
fn only_what_dbar_can_set_may_be_scrolled() {
    let broken = r#"
[right]
groups = ["g"]

[group.g]
modules = ["cpu"]

[module.cpu]
source = "cpu"
scroll = "5%"
"#;
    let message = parse(broken).expect_err("cpu cannot be scrolled");
    assert!(message.contains("cpu"), "{message}");

    let fine = r#"
[right]
groups = ["g"]

[group.g]
modules = ["light"]

[module.light]
source = "backlight"
scroll = "5%"
"#;
    let config = parse(fine).expect("a backlight can be scrolled");
    assert_eq!(
        called(&config, "light").control,
        Some((Control::Brightness, n(5.0)))
    );
}

/// A bar with nothing to say about screens goes on all of them, including one plugged in
/// later, which is what a session with one monitor has always had.
#[test]
fn a_bar_that_names_no_screens_goes_on_every_one() {
    let bar = parse("[bar]\nheight = 20\n").expect("parses").bar;
    assert!(bar.shows_on(Some("DP-1")));
    assert!(bar.shows_on(None));
}

#[test]
fn a_bar_that_names_screens_goes_only_on_those() {
    let bar = parse("[bar]\noutputs = [\"DP-1\", \"DP-2\"]\n")
        .expect("parses")
        .bar;
    assert!(bar.shows_on(Some("DP-1")));
    assert!(!bar.shows_on(Some("HDMI-A-1")));
    // A screen the compositor has not named yet cannot be one of two written down.
    assert!(!bar.shows_on(None));

    let all = parse("[bar]\noutputs = [\"*\"]\n").expect("parses").bar;
    assert!(all.shows_on(Some("HDMI-A-1")));
    assert!(all.shows_on(None));
}

/// `scope` is about what is on a screen, so it means nothing on a module that is not drawn
/// from the compositor - and a key that quietly does nothing is how a config comes to be wrong
/// for months.
#[test]
fn scope_on_a_module_that_is_not_about_a_screen_is_rejected() {
    let config = r##"
[left]
groups = ["g"]

[group.g]
modules = ["cpu"]

[module.cpu]
source = "cpu"
scope = "session"
"##;
    let message = parse(config).expect_err("scope means nothing to a cpu module");
    assert!(message.contains("scope"), "{message}");
    assert!(message.contains("sway:window"), "{message}");
}

#[test]
fn a_compositor_module_is_about_its_own_screen_unless_it_says_otherwise() {
    let config = r##"
[left]
groups = ["g"]

[group.g]
modules = ["ws", "win"]

[module.ws]
source = "sway:workspaces"

[module.win]
source = "sway:window"
scope = "session"
"##;
    let cfg = parse(config).expect("parses");
    assert!(matches!(
        &called(&cfg, "ws").source,
        Source::SwayWorkspaces(view) if view.scope == Scope::Output && view.icons.is_empty()
    ));
    assert!(matches!(
        called(&cfg, "win").source,
        Source::SwayWindow(Scope::Session)
    ));
}

#[test]
fn a_scroll_step_is_a_percentage_or_an_error_saying_so() {
    let percent = |written: &str| parse_percent(&step(written.to_string()));
    for written in ["0%", "101%", "some"] {
        assert!(percent(written).is_err(), "{written} was accepted");
    }
    assert_eq!(percent("5%").ok(), Some(n(5.0)));
    assert_eq!(percent(" 2.5 ").ok(), Some(n(2.5)));
}

#[test]
fn a_signal_names_the_sources_it_reads_again() {
    let config = r##"
[left]
groups = ["g"]

[group.g]
modules = ["light", "light2", "cpu"]

[module.light]
source = "backlight"
signal = 8

[module.light2]
source = "backlight"
signal = 8

[module.cpu]
source = "cpu"
signal = 9
"##;
    let signals = parse(config).expect("parses").signals();
    let at = |offset: i32| {
        &signals
            .iter()
            .find(|(o, _)| *o == offset)
            .expect("the signal is there")
            .1
    };
    // Two modules on one source and one signal is still one source to read.
    assert_eq!(at(8), &vec![Which::Backlight]);
    assert_eq!(at(9), &vec![Which::Cpu]);
}

#[test]
fn a_signal_outside_the_realtime_range_is_rejected() {
    let template = r##"
[left]
groups = ["g"]

[group.g]
modules = ["light"]

[module.light]
source = "backlight"
signal = N
"##;
    assert!(parse(&template.replace("N", "0")).is_ok());
    assert!(parse(&template.replace("N", "-1")).is_err());
    let too_high = (signal_range() + 1).to_string();
    let e = parse(&template.replace("N", &too_high))
        .expect_err("a signal this system does not have is a mistake");
    assert!(e.contains("SIGRTMIN"), "{e}");
}

#[test]
fn a_signal_on_a_source_dbar_does_not_read_is_rejected() {
    let config = r##"
[left]
groups = ["g"]

[group.g]
modules = ["cpu"]

[module.cpu]
signal = 8
"##;
    let e = parse(config).expect_err("a provider handles its own signals");
    assert!(e.contains("signal"), "{e}");
}

#[test]
fn the_bar_sits_above_ordinary_windows_unless_told_otherwise() {
    assert_eq!(parse("").unwrap().bar.layer, BarLayer::Top);
    let config = parse("[bar]\nlayer = \"bottom\"\n").unwrap();
    assert_eq!(config.bar.layer, BarLayer::Bottom);
    let e = parse("[bar]\nlayer = \"above\"\n").expect_err("not a layer");
    assert!(e.contains("layer"), "{e}");
}

#[test]
fn an_island_is_all_there_unless_it_asks_not_to_be() {
    let group = |line: &str| {
        format!(
            "[right]\ngroups = [\"system\"]\n\
                 [group.system]\nmodules = [\"cpu\"]\n{line}\n\
                 [module.cpu]\nsource = \"cpu\"\n"
        )
    };
    let opacity = |toml: &str| {
        parse(toml).map(|c| {
            c.positions
                .iter()
                .flat_map(|p| &p.groups)
                .next()
                .expect("the group was placed")
                .opacity
        })
    };

    assert_eq!(
        opacity(&group("")).expect("a group needs no opacity"),
        n(1.0)
    );
    assert_eq!(
        opacity(&group("opacity = 0.5")).expect("half is fine"),
        n(0.5)
    );

    // Named, and pointing at the group, so the mistake is findable at startup rather than at
    // three in the morning.
    for bad in ["opacity = 1.8", "opacity = -0.2"] {
        let message = opacity(&group(bad)).expect_err("outside 0.0 to 1.0");
        assert!(message.contains("opacity"), "{message}");
        assert!(message.contains("group.system"), "{message}");
    }
}

/// A state that is a combination of readings has to beat the rules that name either half, or
/// muted headphones would show whichever of the two got sorted first.
#[test]
fn a_rule_naming_two_readings_beats_one_naming_either() {
    let config = r##"
[right]
groups = ["g"]

[group.g]
modules = ["volume"]

[module.volume]
source = "audio"
icon = "$volume"

[module.volume.states.zz_both]
fields = { muted = "yes", port = "headphones" }
icon = "$headphones-muted"

[module.volume.states.muted]
field = "muted"
equals = "yes"
icon = "$volume-muted"

[module.volume.states.port]
field = "port"
equals = "headphones"
icon = "$headphones"
"##;
    let cfg = parse(config).expect("parses");
    let module = first(&cfg);

    let says = |muted: &str, port: &str| -> Option<String> {
        let mut fields = Fields::new();
        fields.set("muted", Value::Text(muted.to_string()));
        fields.set("port", Value::Text(port.to_string()));
        module
            .states
            .iter()
            .find(|rule| rule.matches(StateFlags::default(), false, &fields, None, ""))
            .and_then(|rule| rule.style.icon.as_ref())
            .map(|icon| match icon {
                IconSpec::Native(icon) => catalogue().names[icon.index].clone(),
                other => panic!("{other:?} is not a native icon"),
            })
    };

    assert_eq!(
        says("yes", "headphones").as_deref(),
        Some("headphones-muted")
    );
    assert_eq!(says("yes", "speaker").as_deref(), Some("volume-muted"));
    assert_eq!(says("no", "headphones").as_deref(), Some("headphones"));
    assert_eq!(
        says("no", "speaker"),
        None,
        "nothing unusual is being reported"
    );
}

/// A combined rule is checked against the source the same way a single one is.
#[test]
fn a_combined_rule_cannot_name_a_field_the_source_does_not_publish() {
    let config = r##"
[right]
groups = ["g"]

[group.g]
modules = ["volume"]

[module.volume]
source = "audio"

[module.volume.states.odd]
fields = { muted = "yes", jack = "in" }
"##;
    let message = parse(config).expect_err("jack is not an audio field");
    assert!(message.contains("$jack"), "{message}");
}

#[test]
fn group_joins_are_opt_in_and_validate_their_groups() {
    let config = |separator: &str, group: &str| {
        format!(
            r#"
[right]
groups = ["g"]
{separator}
[group.g]
modules = ["cpu"]
{group}
[module.cpu]
source = "cpu"
"#
        )
    };
    for separator in ["", "[right.separator]\nshape = 'none'"] {
        let cfg = parse(&config(separator, "opacity = 0.5\npadding = 3")).unwrap();
        assert!(cfg.positions[2].separator.is_none());
        assert_eq!(cfg.positions[2].groups[0].opacity, n(0.5));
    }
    let joined = "[right.separator]\nshape = 'slant'\nwidth = 6";
    let cfg = parse(&config(joined, "")).unwrap();
    assert_eq!(cfg.positions[2].separator.unwrap().width, n(6.0));
    assert!(cfg.positions[..2].iter().all(|p| p.separator.is_none()));
    for group in ["opacity = 0.5", "padding = 3"] {
        let error = parse(&config(joined, group)).unwrap_err();
        assert!(
            error.contains("right.separator") && error.contains("group \"g\""),
            "{error}"
        );
    }
    for bad in [
        "width = 0",
        "width = -1",
        "width = inf",
        "overlap = inf",
        "color = '$missing'",
        "shape = 'unknown'",
    ] {
        let separator = format!(
            "[right.separator]\n{}\n{bad}",
            if bad.starts_with("shape") {
                ""
            } else {
                "shape = 'slant'"
            }
        );
        assert!(parse(&config(&separator, "")).is_err(), "{bad}");
    }
}

/// A group answers for its whole island, so a button it reserves never reaches the modules
/// inside it. dbar refuses to let a module hand one button two jobs; a group taking a button a
/// module is already using is the same mistake one level up, and the module's key would be
/// there, spelled correctly, and dead.
#[test]
fn a_group_may_not_reserve_a_button_one_of_its_modules_uses() {
    let config = |group: &str, module: &str| {
        format!(
            "[left]\ngroups = ['g']\n[group.g]\nmodules = ['m']\ncollapsible = true\n\
                 collapse_button = '{group}'\ncollapsed = {{ icon = '$cpu' }}\n\
                 [module.m]\nsource = 'cpu'\n{module}\n"
        )
    };

    for (button, module, by) in [
        (
            "right",
            "collapsible = true
icon = '$cpu'",
            "collapsible",
        ),
        ("left", "format_alt = '$utilization'", "format_alt"),
        ("middle", "refresh_button = 'middle'", "refresh_button"),
        ("left", "on_click = { left = ['true'] }", "on_click.left"),
    ] {
        let message = parse(&config(button, module))
            .expect_err("the group and the module both want that button");
        assert!(message.contains(by), "{message}");
        assert!(message.contains("\"m\""), "{message}");
        assert!(message.contains(button), "{message}");
    }

    // A module operating the volume claims the button that mutes it.
    let volume = "[left]\ngroups = ['g']\n[group.g]\nmodules = ['m']\ncollapsible = true\n\
             collapse_button = 'middle'\ncollapsed = { icon = '$cpu' }\n\
             [module.m]\nsource = 'audio'\nscroll = '5%'\n";
    let e = parse(volume).expect_err("middle mutes");
    assert!(e.contains("mute_button"), "{e}");

    // And a module that leaves the reserved button alone is fine, however much else it does
    // with the other two.
    parse(&config(
        "right",
        "format_alt = '$utilization'\nrefresh_button = 'middle'",
    ))
    .expect("nothing here wants the right button");
}

#[test]
fn a_fold_is_instant_unless_the_config_gives_it_a_time() {
    let prefix = "[left]\ngroups = ['system']\n[group.system]\nmodules = []\n";
    let read = |extra: &str| parse(&format!("{prefix}{extra}"));
    let shut = "collapsible = true\ncollapse_button = 'right'\ncollapsed = { icon = '$cpu' }";
    let animation = |cfg: &Config| {
        cfg.positions[0].groups[0]
            .collapse
            .as_ref()
            .unwrap()
            .animation
    };

    // The default is the behaviour that costs nothing: a fold is one redraw.
    assert!(animation(&read(shut).unwrap()).is_none());
    assert_eq!(
        animation(&read(&format!("{shut}\ncollapse_animation = '150ms'")).unwrap()),
        Some(Duration::from_millis(150))
    );
    for (extra, message) in [
        (format!("{shut}\ncollapse_animation = '150'"), "unit"),
        (
            "collapse_animation = '150ms'".to_string(),
            "without collapsible",
        ),
        // A fold redraws at screen rate for the whole of its span, so a long one is not a
        // slower animation - it is the permanent tick the bar exists without.
        (format!("{shut}\ncollapse_animation = '15s'"), "longer than"),
        (format!("{shut}\ncollapse_animation = '1h'"), "longer than"),
    ] {
        let error = read(&extra).unwrap_err();
        assert!(
            error.contains(message),
            "{error:?} should mention {message}"
        );
    }
}

/// A wording swaps in one redraw unless the config gives it a span to travel over, and a span
/// belongs to a module that has somewhere to travel to.
#[test]
fn a_wording_swap_is_instant_unless_the_config_gives_it_a_time() {
    let prefix = "[left]\ngroups = ['g']\n[group.g]\nmodules = ['m']\n[module.m]\n\
                      source = 'cpu'\n";
    let read = |extra: &str| parse(&format!("{prefix}{extra}"));
    let animation = |cfg: &Config| cfg.positions[0].groups[0].modules[0].alt_animation;
    let alt = "format_alt = '$utilization'";

    assert!(animation(&read(alt).unwrap()).is_none());
    assert_eq!(
        animation(&read(&format!("{alt}\nalt_animation = '120ms'")).unwrap()),
        Some(Duration::from_millis(120))
    );
    for (extra, message) in [
        (format!("{alt}\nalt_animation = '120'"), "unit"),
        // Nowhere to travel to, so the key is one that would be spelled correctly and do
        // nothing at all.
        ("alt_animation = '120ms'".to_string(), "without format_alt"),
        // The same ceiling a fold answers to: past it this is not a slower travel, it is the
        // permanent tick the bar exists without.
        (format!("{alt}\nalt_animation = '15s'"), "longer than"),
    ] {
        let error = read(&extra).unwrap_err();
        assert!(
            error.contains(message),
            "{error:?} should mention {message}"
        );
    }
}

#[test]
fn group_collapse_defaults_requirements_and_style_cascade() {
    let prefix = "[left]\ngroups = ['system']\n[group.system]\nmodules = []\n";
    let read = |extra: &str| parse(&format!("{prefix}{extra}"));
    let cfg = read("").unwrap();
    assert_eq!(cfg.positions[0].groups[0].name, "system");
    assert!(cfg.positions[0].groups[0].collapse.is_none());
    for (extra, message) in [
        ("collapsible = true", "collapse_button"),
        ("collapsible = true\ncollapse_button = 'right'", "icon"),
        ("collapsible = true\ncollapse_button = 'wheel'", "wheel"),
        (
            "collapsible = true\ncollapse_button = 'right'\ncollapsed = { icon = '$bogus' }",
            "unknown native icon",
        ),
        (
            "collapsible = true\ncollapse_button = 'right'\ncollapsed = { icon = 'none' }",
            "icon",
        ),
        (
            "collapsible = true\ncollapse_button = 'right'\ncollapsed = { icon = '$cpu', icon_size = 0 }",
            "icon_size",
        ),
        (
            "collapsible = true\ncollapse_button = 'right'\ncollapsed = { icon = '$cpu', icon_size = -1 }",
            "icon_size",
        ),
        (
            "collapsible = true\ncollapse_button = 'right'\ncollapsed = { icon = '$cpu', icon_size = inf }",
            "icon_size",
        ),
        (
            "collapsible = true\ncollapse_button = 'right'\ncollapsed = { style = 'missing' }",
            "unknown style",
        ),
        ("collapsed = { typo = 1 }", "unknown field"),
    ] {
        let error = read(extra).unwrap_err();
        assert!(error.contains(message), "{error}");
    }
    for button in ["left", "middle", "right"] {
        let cfg = read(&format!(
            "collapsible = true\ncollapse_button = '{button}'\ncollapsed = {{ icon = '$cpu' }}"
        ))
        .unwrap();
        let collapse = cfg.positions[0].groups[0].collapse.as_ref().unwrap();
        assert_eq!(collapse.button.name(), button);
        assert_eq!(
            collapse.style.padding,
            dbar::config::style::Style::base(n(16.0)).padding
        );
        assert_eq!(collapse.style.icon_size, cfg.bar.icon_size);
    }
    let cfg = read("collapsible = true\ncollapse_button = 'middle'\ncollapsed = { style = 'tile', icon = '$cpu', padding = 7 }\n[style.tile]\nbackground = '#123456'\nicon = '$memory'\nicon_size = 12\npadding = 3").unwrap();
    let style = &cfg.positions[0].groups[0]
        .collapse
        .as_ref()
        .unwrap()
        .style;
    assert!(matches!(
        style.icon,
        Some(IconSpec::Native(icon)) if Some(icon) == catalogue().find("cpu")
    ));
    assert_eq!(style.icon_size, n(12.0));
    assert_eq!(style.padding, n(7.0));
    assert_eq!(style.background, Color::parse("#123456").unwrap());
    assert!(
        read("collapsible = false\ncollapse_button = 'right'\ncollapsed = { icon = '$cpu' }")
            .unwrap()
            .positions[0]
            .groups[0]
            .collapse
            .is_none()
    );
    // Group reservation must not relax conflicting bindings inside the child.
    let error = parse("[left]\ngroups = ['g']\n[group.g]\nmodules = ['m']\ncollapsible = true\ncollapse_button = 'left'\ncollapsed = { icon = '$cpu' }\n[module.m]\nformat_alt = 'alt'\non_click = { left = ['true'] }").unwrap_err();
    assert!(error.contains("on_click.left"));
}

// --- beyond those -------------------------------------------------------------------------

#[test]
fn a_color_is_written_in_hexadecimal() {
    assert_eq!(
        Color::parse("#12345678").unwrap(),
        Color::rgba(0x12, 0x34, 0x56, 0x78)
    );
    assert_eq!(
        Color::parse("#abcdef").unwrap(),
        Color::rgba(0xab, 0xcd, 0xef, 0xff)
    );
    assert!(Color::parse("#12345").is_err());
    assert!(Color::parse("#12345g").is_err());
    assert!(Color::transparent().is_transparent());
}

#[test]
fn a_signal_brings_forward_what_it_names() {
    let config = parse(
        r##"
[left]
groups = ["g"]

[group.g]
modules = ["light", "run"]

[module.light]
source = "backlight"
signal = 8

[module.run]
source = "command"
command = ["w"]
interval = "once"
signal = 8
"##,
    )
    .expect("parses");
    let at = |secs: u64| Instant {
        nanos: secs as u128 * 1_000_000_000,
    };
    let mut app = App::new(config, at(1));
    let run = app.source_of("run").expect("a source of its own");
    app.set_trigger(&run);
    assert!(app.source_of("nonesuch").is_none());
    let index = app
        .native
        .entries
        .iter()
        .position(|e| e.which == Which::Backlight)
        .expect("the backlight is read");
    app.native.entries[index].due = Some(at(100));
    let asked = app.on_signal(8, at(2));
    assert_eq!(asked, vec![run]);
    assert_eq!(app.native.entries[index].due, Some(at(2)));
    assert!(app.on_signal(9, at(3)).is_empty());

    // What the kernel reports is a request like any other.
    let run = app.source_of("run").expect("a source of its own");
    assert!(app.on_watch(&Event::Changed(run.copy()), at(4)));
    assert!(!app.on_watch(&Event::Changed(Which::Backlight), at(4)));
    assert_eq!(app.native.entries[index].due, Some(at(4)));
    app.native.entries[index].due = None;
    assert!(!app.on_watch(&Event::Lost(Which::Backlight), at(2)));
    assert_eq!(app.on_collect(), Some(at(2)));
    assert!(!app.wants_timer());
}

#[test]
fn a_palette_names_colors_and_an_unknown_one_is_refused() {
    let config = |color: &str| {
        format!(
            "[colors]\nink = '#010203'\n[left]\ngroups = ['g']\n[group.g]\nmodules = ['cpu']\n\
             background = '{color}'\n[module.cpu]\nsource = 'cpu'\n"
        )
    };
    let cfg = parse(&config("$ink")).expect("the palette names it");
    assert_eq!(
        cfg.positions[0].groups[0].background,
        Color::rgba(1, 2, 3, 255)
    );
    let e = parse(&config("$blood")).expect_err("nothing is called that");
    assert!(e.contains("blood"), "{e}");
}

#[test]
fn a_percentage_is_a_unit_a_command_may_publish() {
    let cfg = parse(&one_module(
        "source = 'command'\ncommand = ['w']\nfields = { used = 'percent' }\nformat = '$used'",
    ))
    .expect("parses");
    let spec = spec_of(&cfg);
    assert!(matches!(spec.fields[0].kind, Kind::Num(Unit::Percent)));
}

#[test]
fn an_end_takes_room_only_where_it_is_drawn() {
    let cfg = parse(
        "[left]\ngroups = ['g']\n[group.g]\nmodules = ['cpu']\n\
         edges = { left = 'none', radius = 4 }\n\
         ends = { left = 'slant', width = 6 }\n[module.cpu]\nsource = 'cpu'\n",
    )
    .expect("a group with one end");
    let group = &cfg.positions[0].groups[0];
    assert_eq!(group.ends.left_width(), n(6.0));
    assert_eq!(group.ends.right_width(), n(0.0));
    assert_eq!(group.edges.left, EdgeShape::Square);
    assert_eq!(group.edges.right, EdgeShape::Round);
    assert!(!cfg.needs_tray());
}

#[test]
fn a_bar_with_a_tray_needs_one() {
    let cfg = parse(&one_module("source = \"tray\"")).expect("a tray");
    assert!(cfg.needs_tray());
}

#[test]
fn a_menu_is_quieter_than_what_is_written_on_the_bar() {
    let cfg = parse("").expect("parses");
    let ink = cfg.menu.foreground;
    assert_eq!(ink.a, 255);
    assert_eq!(cfg.menu.highlight, Color { a: 46, ..ink });
    assert_eq!(cfg.menu.disabled, Color { a: 115, ..ink });
    assert_eq!(cfg.menu.separator, Color { a: 64, ..ink });
}

#[test]
fn a_bound_is_held_against_the_number_a_rule_names() {
    let cfg = parse(&one_module(
        "source = \"memory\"\nstates = { full = { field = \"swap_percent\", above = 50 } }",
    ))
    .expect("parses");
    let rule = &first(&cfg).states[0];
    let mut fields = Fields::new();
    assert!(rule.bounded_by(&fields).is_none());
    fields.set(
        "swap_percent",
        Value::Num {
            v: Amount::Count(60),
            unit: Unit::Percent,
        },
    );
    assert!(matches!(rule.bounded_by(&fields), Some(Amount::Count(60))));
    assert!(rule.matches(StateFlags::default(), false, &fields, Some(n(60.0)), ""));
    assert!(!rule.matches(StateFlags::default(), false, &fields, Some(n(50.0)), ""));
    assert!(!rule.matches(StateFlags::default(), false, &fields, None, ""));
}

/// A source that is read on a thread of its own is still read, so it can be asked.
#[test]
fn a_source_that_is_read_elsewhere_can_be_asked() {
    for source in ["disk", "network", "battery", "backlight"] {
        let cfg = parse(&one_module(&format!(
            "source = \"{source}\"\nrefresh_button = \"left\"\nsignal = 1"
        )))
        .expect("it is read");
        assert_eq!(cfg.refreshable().len(), 1);
        assert_eq!(cfg.signals().len(), 1);
    }
}

#[test]
fn a_table_keeps_its_names_once_and_in_order() {
    let table = Table::new()
        .insert("b".to_string(), 1)
        .insert("a".to_string(), 2)
        .insert("c".to_string(), 3)
        .insert("b".to_string(), 4);
    assert_eq!(table.len(), 3);
    assert_eq!(
        table.entries(),
        &vec![
            ("a".to_string(), 2),
            ("b".to_string(), 4),
            ("c".to_string(), 3)
        ]
    );
}

#[test]
fn only_a_signal_depends_on_the_system() {
    let resolved = |text: &str, highest| {
        let raw = raw(text).expect("it is a configuration");
        match Config::resolve_for(&raw, &known(&raw), highest) {
            Ok(config) => format!("{config:?}"),
            Err(refused) => refused.message(),
        }
    };
    let plain = one_module("source = \"time\"");
    assert_eq!(resolved(&plain, 0), resolved(&plain, 30));
    let signalled = one_module("source = \"time\"\nsignal = 3");
    assert_eq!(resolved(&signalled, 3), resolved(&signalled, 30));
    assert_ne!(resolved(&signalled, 2), resolved(&signalled, 30));
}
