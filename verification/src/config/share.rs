//! What modules built on one command share.
//!
//! Two modules naming the same program on the same schedule share one process and one reading,
//! and the declared fields are not part of what tells two commands apart. So the modules are
//! given the fields that all of them declared, and a name two of them disagree about is an
//! error rather than a silent choice between the two.

use crate::collect::which::{command_key, CommandSpec, CommandView, Which, WhichView};
use crate::config::module::{modules_view, Module, ModuleView};
use crate::config::refusal::{at1, refused, Refusal, RefusalView, Slip, SlipView, Why};
use crate::config::source::{Source, SourceView};
use crate::status::{copy_specs, specs_view, FieldSpec, FieldView};
use crate::text::{joined, owned, same};
use vstd::prelude::*;
use vstd::string::*;

verus! {

/// The command a module runs, if it runs one.
pub open spec fn command_behind(m: ModuleView) -> Option<CommandView> {
    match m.source {
        SourceView::Native(WhichView::Command(spec)) => Some(spec),
        _ => None,
    }
}

/// The commands that modules run, in order, each with the name of its module.
pub open spec fn commands_in(modules: Seq<ModuleView>) -> Seq<(Seq<char>, CommandView)>
    decreases modules.len(),
{
    if modules.len() == 0 {
        Seq::empty()
    } else {
        let before = commands_in(modules.drop_last());
        match command_behind(modules.last()) {
            Some(spec) => before.push((modules.last().name, spec)),
            None => before,
        }
    }
}

/// What a list of commands says.
pub open spec fn commands_view(commands: Seq<(String, CommandSpec)>) -> Seq<
    (Seq<char>, CommandView),
> {
    Seq::new(commands.len(), |i: int| (commands[i].0@, commands[i].1@))
}

/// The field of a name among those seen so far, and the module it was first declared by.
pub open spec fn seen_as(
    seen: Seq<(FieldView, Seq<char>)>,
    name: Seq<char>,
    from: int,
) -> Option<(FieldView, Seq<char>)>
    decreases seen.len() - from,
{
    if from < 0 || from >= seen.len() {
        None
    } else if seen[from].0.name == name {
        Some(seen[from])
    } else {
        seen_as(seen, name, from + 1)
    }
}

/// The fields seen so far with those of one more module, from `from` on.
pub open spec fn merged(
    seen: Seq<(FieldView, Seq<char>)>,
    fields: Seq<FieldView>,
    module: Seq<char>,
    from: int,
) -> Result<Seq<(FieldView, Seq<char>)>, SlipView>
    decreases fields.len() - from,
{
    if from < 0 || from >= fields.len() {
        Ok(seen)
    } else {
        match seen_as(seen, fields[from].name, 0) {
            None => merged(seen.push((fields[from], module)), fields, module, from + 1),
            Some((field, first)) => if field.kind != fields[from].kind {
                Err(
                    SlipView {
                        why: Why::KindDisagrees {
                            seen: field.kind,
                            declared: fields[from].kind,
                        },
                        word: fields[from].name,
                        other: first,
                    },
                )
            } else {
                merged(seen, fields, module, from + 1)
            },
        }
    }
}

/// The fields that the first `upto` commands declare for one of them.
pub open spec fn schema(
    commands: Seq<(Seq<char>, CommandView)>,
    key: CommandView,
    upto: int,
) -> Result<Seq<(FieldView, Seq<char>)>, SlipView>
    decreases upto,
{
    if upto <= 0 || upto > commands.len() {
        Ok(Seq::empty())
    } else {
        match schema(commands, key, upto - 1) {
            Err(slip) => Err(slip),
            Ok(seen) => if command_key(commands[upto - 1].1) == key {
                merged(seen, commands[upto - 1].1.fields, commands[upto - 1].0, 0)
            } else {
                Ok(seen)
            },
        }
    }
}

/// Where a module is, in a message that names two of them.
pub open spec fn module_place(name: Seq<char>) -> Seq<char> {
    "module \""@ + name + "\""@
}

/// What is wrong with what these commands declare, from `from` on: a field that two modules
/// on one command hold to be of two kinds.
pub open spec fn sharing_trouble(commands: Seq<(Seq<char>, CommandView)>, from: int) -> Option<
    RefusalView,
>
    decreases commands.len() - from,
{
    if from < 0 || from >= commands.len() {
        None
    } else {
        match schema(commands, command_key(commands[from].1), from + 1) {
            Err(slip) => Some(refused(seq![module_place(commands[from].0)], slip)),
            Ok(_) => sharing_trouble(commands, from + 1),
        }
    }
}

/// The fields alone, without who declared them.
pub open spec fn fields_alone(seen: Seq<(FieldView, Seq<char>)>) -> Seq<FieldView> {
    Seq::new(seen.len(), |i: int| seen[i].0)
}

/// Whether the modules on one command declare different things.
pub open spec fn mixed(commands: Seq<(Seq<char>, CommandView)>, spec: CommandView) -> bool {
    exists|i: int|
        0 <= i < commands.len() && command_key((#[trigger] commands[i]).1) == command_key(spec)
            && commands[i].1.fields != spec.fields
}

/// The fields a command is run with: its own where every module on it declares the same, and
/// otherwise those of all of them.
pub open spec fn shared_fields(commands: Seq<(Seq<char>, CommandView)>, spec: CommandView) -> Seq<
    FieldView,
> {
    if mixed(commands, spec) {
        match schema(commands, command_key(spec), commands.len() as int) {
            Ok(seen) => fields_alone(seen),
            Err(_) => spec.fields,
        }
    } else {
        spec.fields
    }
}

/// A module with the fields its command is run with.
pub open spec fn shared_module(commands: Seq<(Seq<char>, CommandView)>, m: ModuleView) -> ModuleView {
    match command_behind(m) {
        None => m,
        Some(spec) => ModuleView {
            source: SourceView::Native(
                WhichView::Command(
                    CommandView { fields: shared_fields(commands, spec), ..spec },
                ),
            ),
            ..m
        },
    }
}

/// What a list of fields with the modules that declared them says.
spec fn seen_view(seen: Seq<(FieldSpec, String)>) -> Seq<(FieldView, Seq<char>)> {
    Seq::new(seen.len(), |i: int| (seen[i].0@, seen[i].1@))
}

fn find_seen<'a>(seen: &'a Vec<(FieldSpec, String)>, name: &str) -> (r: Option<&'a (
    FieldSpec,
    String,
)>)
    ensures
        match r {
            Some(p) => seen_as(seen_view(seen@), name@, 0) == Some((p.0@, p.1@)),
            None => seen_as(seen_view(seen@), name@, 0) is None,
        },
{
    let ghost all = seen_view(seen@);
    for i in 0..seen.len()
        invariant
            all == seen_view(seen@),
            seen_as(all, name@, 0) == seen_as(all, name@, i as int),
    {
        assert(all[i as int] == (seen@[i as int].0@, seen@[i as int].1@));
        if same(seen[i].0.name.as_str(), name) {
            return Some(&seen[i]);
        }
    }
    None
}

fn merge(seen: Vec<(FieldSpec, String)>, fields: &Vec<FieldSpec>, module: &str) -> (r: Result<
    Vec<(FieldSpec, String)>,
    Slip,
>)
    ensures
        match r {
            Ok(v) => merged(seen_view(seen@), specs_view(fields@), module@, 0) == Ok::<
                Seq<(FieldView, Seq<char>)>,
                SlipView,
            >(seen_view(v@)),
            Err(slip) => merged(seen_view(seen@), specs_view(fields@), module@, 0) == Err::<
                Seq<(FieldView, Seq<char>)>,
                SlipView,
            >(slip@),
        },
{
    let ghost start = seen_view(seen@);
    let ghost all = specs_view(fields@);
    let mut out = seen;
    for i in 0..fields.len()
        invariant
            start == seen_view(seen@),
            all == specs_view(fields@),
            merged(start, all, module@, 0) == merged(seen_view(out@), all, module@, i as int),
    {
        let ghost before = seen_view(out@);
        assert(all[i as int] == fields@[i as int]@);
        let mut fresh = false;
        match find_seen(&out, fields[i].name.as_str()) {
            None => {
                fresh = true;
            },
            Some(p) => {
                if p.0.kind != fields[i].kind {
                    return Err(
                        Slip {
                            why: Why::KindDisagrees { seen: p.0.kind, declared: fields[i].kind },
                            word: fields[i].name.clone(),
                            other: p.1.clone(),
                        },
                    );
                }
            },
        }
        if fresh {
            out.push((fields[i].copy(), owned(module)));
            assert(seen_view(out@) =~= before.push((all[i as int], module@)));
        }
    }
    Ok(out)
}

fn gather(commands: &Vec<(String, CommandSpec)>, spec: &CommandSpec, upto: usize) -> (r: Result<
    Vec<(FieldSpec, String)>,
    Slip,
>)
    requires
        upto <= commands@.len(),
    ensures
        match r {
            Ok(v) => schema(commands_view(commands@), command_key(spec@), upto as int) == Ok::<
                Seq<(FieldView, Seq<char>)>,
                SlipView,
            >(seen_view(v@)),
            Err(slip) => schema(commands_view(commands@), command_key(spec@), upto as int) == Err::<
                Seq<(FieldView, Seq<char>)>,
                SlipView,
            >(slip@),
        },
    decreases upto,
{
    let ghost all = commands_view(commands@);
    if upto == 0 {
        let none: Vec<(FieldSpec, String)> = Vec::new();
        assert(seen_view(none@) =~= Seq::<(FieldView, Seq<char>)>::empty());
        return Ok(none);
    }
    let seen = gather(commands, spec, upto - 1)?;
    assert(all[upto - 1] == (commands@[upto - 1].0@, commands@[upto - 1].1@));
    if commands[upto - 1].1.same(spec) {
        merge(seen, &commands[upto - 1].1.fields, commands[upto - 1].0.as_str())
    } else {
        Ok(seen)
    }
}

/// Reject modules that share a command and disagree about what is in its reading.
pub fn check_sharing(commands: &Vec<(String, CommandSpec)>) -> (r: Result<(), Refusal>)
    ensures
        match r {
            Ok(_) => sharing_trouble(commands_view(commands@), 0) is None,
            Err(e) => sharing_trouble(commands_view(commands@), 0) == Some(e@),
        },
{
    let ghost all = commands_view(commands@);
    for i in 0..commands.len()
        invariant
            all == commands_view(commands@),
            sharing_trouble(all, 0) == sharing_trouble(all, i as int),
    {
        assert(all[i as int] == (commands@[i as int].0@, commands@[i as int].1@));
        match gather(commands, &commands[i].1, i + 1) {
            Ok(_) => {},
            Err(slip) => {
                let mut place = joined("module \"", commands[i].0.as_str());
                place.append("\"");
                return Err(Refusal::new(at1(place.as_str()), slip));
            },
        }
    }
    Ok(())
}

fn same_fields(a: &Vec<FieldSpec>, b: &Vec<FieldSpec>) -> (r: bool)
    ensures
        r == (specs_view(a@) == specs_view(b@)),
{
    let ghost x = specs_view(a@);
    let ghost y = specs_view(b@);
    if a.len() != b.len() {
        assert(x.len() != y.len());
        return false;
    }
    for i in 0..a.len()
        invariant
            x == specs_view(a@),
            y == specs_view(b@),
            a@.len() == b@.len(),
            forall|j: int| 0 <= j < i ==> #[trigger] x[j] == y[j],
    {
        assert(x[i as int] == a@[i as int]@ && y[i as int] == b@[i as int]@);
        if !same(a[i].name.as_str(), b[i].name.as_str()) || a[i].kind != b[i].kind {
            assert(x[i as int] != y[i as int]);
            return false;
        }
    }
    assert(x =~= y);
    true
}

fn is_mixed(commands: &Vec<(String, CommandSpec)>, spec: &CommandSpec) -> (r: bool)
    ensures
        r == mixed(commands_view(commands@), spec@),
{
    let ghost all = commands_view(commands@);
    for i in 0..commands.len()
        invariant
            all == commands_view(commands@),
            forall|j: int|
                0 <= j < i ==> !(command_key((#[trigger] all[j]).1) == command_key(spec@)
                    && all[j].1.fields != spec@.fields),
    {
        assert(all[i as int] == (commands@[i as int].0@, commands@[i as int].1@));
        if commands[i].1.same(spec) && !same_fields(&commands[i].1.fields, &spec.fields) {
            return true;
        }
    }
    false
}

/// The fields a command is run with.
fn fields_for(commands: &Vec<(String, CommandSpec)>, spec: &CommandSpec) -> (r: Vec<FieldSpec>)
    ensures
        specs_view(r@) == shared_fields(commands_view(commands@), spec@),
{
    if !is_mixed(commands, spec) {
        return copy_specs(&spec.fields);
    }
    match gather(commands, spec, commands.len()) {
        Err(_) => copy_specs(&spec.fields),
        Ok(seen) => {
            let mut out: Vec<FieldSpec> = Vec::new();
            for i in 0..seen.len()
                invariant
                    out@.len() == i,
                    forall|j: int| 0 <= j < i ==> (#[trigger] out@[j])@ == seen@[j].0@,
            {
                out.push(seen[i].0.copy());
            }
            assert(specs_view(out@) =~= fields_alone(seen_view(seen@)));
            out
        },
    }
}

/// The commands that modules run, in order, each with the name of its module.
pub fn list_commands(out: &mut Vec<(String, CommandSpec)>, modules: &Vec<Module>)
    ensures
        commands_view(final(out)@) == commands_view(old(out)@) + commands_in(
            modules_view(modules@),
        ),
{
    let ghost start = commands_view(out@);
    let ghost all = modules_view(modules@);
    assert(all.take(0) =~= Seq::<ModuleView>::empty());
    assert(start + commands_in(all.take(0)) =~= start);
    for i in 0..modules.len()
        invariant
            all == modules_view(modules@),
            commands_view(out@) == start + commands_in(all.take(i as int)),
    {
        let ghost before = commands_view(out@);
        assert(all.take(i + 1).drop_last() =~= all.take(i as int));
        assert(all.take(i + 1).last() == modules@[i as int]@);
        let ghost listed = commands_in(all.take(i as int));
        if let Source::Native(which) = &modules[i].source {
            if let Which::Command(spec) = which {
                out.push((modules[i].name.clone(), spec.copy()));
                proof {
                    let one = (modules@[i as int].name@, spec@);
                    assert(commands_view(out@) =~= before.push(one));
                    assert(before.push(one) =~= start + listed.push(one));
                }
            }
        }
    }
    assert(all.take(all.len() as int) =~= all);
}

/// Give a module the fields its command is run with.
fn share_one(m: &mut Module, commands: &Vec<(String, CommandSpec)>)
    ensures
        final(m)@ == shared_module(commands_view(commands@), old(m)@),
{
    let fields = match &m.source {
        Source::Native(which) => match which {
            Which::Command(spec) => Some(fields_for(commands, spec)),
            _ => None,
        },
        _ => None,
    };
    if let Some(fields) = fields {
        if let Source::Native(which) = &mut m.source {
            if let Which::Command(spec) = which {
                spec.fields = fields;
            }
        }
    }
}

/// Modules with the fields their commands are run with.
pub open spec fn shared_modules(
    commands: Seq<(Seq<char>, CommandView)>,
    modules: Seq<ModuleView>,
) -> Seq<ModuleView> {
    Seq::new(modules.len(), |i: int| shared_module(commands, modules[i]))
}

/// Give modules the fields their commands are run with.
pub fn share_fields(modules: &mut Vec<Module>, commands: &Vec<(String, CommandSpec)>)
    ensures
        modules_view(final(modules)@) == shared_modules(
            commands_view(commands@),
            modules_view(old(modules)@),
        ),
{
    let ghost start = modules_view(modules@);
    let ghost all = commands_view(commands@);
    let total: usize = modules.len();
    for i in 0..total
        invariant
            total == modules@.len(),
            total == start.len(),
            all == commands_view(commands@),
            forall|j: int| 0 <= j < i ==> (#[trigger] modules@[j])@ == shared_module(all, start[j]),
            forall|j: int| i <= j < total ==> (#[trigger] modules@[j])@ == start[j],
    {
        share_one(&mut modules[i], commands);
    }
    assert(modules_view(modules@) =~= shared_modules(all, start));
}

proof fn lemma_seen(seen: Seq<(FieldView, Seq<char>)>, name: Seq<char>, from: int)
    requires
        0 <= from <= seen.len(),
    ensures
        seen_as(seen, name, from) matches Some(found) ==> found.0.name == name && exists|k: int|
            from <= k < seen.len() && #[trigger] seen[k] == found,
    decreases seen.len() - from,
{
    if from < seen.len() && seen[from].0.name != name {
        lemma_seen(seen, name, from + 1);
        if seen_as(seen, name, from + 1) is Some {
            let found = seen_as(seen, name, from + 1)->0;
            let k = choose|k: int| from + 1 <= k < seen.len() && #[trigger] seen[k] == found;
            assert(seen[k] == found);
        }
    } else if from < seen.len() {
        assert(seen[from] == seen_as(seen, name, from)->0);
    }
}

/// Whether a field is among those seen.
pub open spec fn was_seen(seen: Seq<(FieldView, Seq<char>)>, field: FieldView) -> bool {
    exists|k: int| 0 <= k < seen.len() && (#[trigger] seen[k]).0 == field
}

proof fn lemma_merged(
    seen: Seq<(FieldView, Seq<char>)>,
    fields: Seq<FieldView>,
    module: Seq<char>,
    from: int,
)
    requires
        0 <= from <= fields.len(),
        merged(seen, fields, module, from) is Ok,
    ensures
        forall|f: FieldView|
            #[trigger] was_seen(seen, f) ==> was_seen(merged(seen, fields, module, from)->Ok_0, f),
        forall|j: int|
            from <= j < fields.len() ==> was_seen(
                merged(seen, fields, module, from)->Ok_0,
                #[trigger] fields[j],
            ),
    decreases fields.len() - from,
{
    if from < fields.len() {
        let one = fields[from];
        let out = merged(seen, fields, module, from)->Ok_0;
        match seen_as(seen, one.name, 0) {
            None => {
                let more = seen.push((one, module));
                lemma_merged(more, fields, module, from + 1);
                assert(more[seen.len() as int].0 == one);
                assert(was_seen(more, one));
                assert forall|f: FieldView| #[trigger] was_seen(seen, f) implies was_seen(out, f) by {
                    let k = choose|k: int| 0 <= k < seen.len() && (#[trigger] seen[k]).0 == f;
                    assert(more[k].0 == f);
                    assert(was_seen(more, f));
                }
            },
            Some(found) => {
                lemma_seen(seen, one.name, 0);
                lemma_merged(seen, fields, module, from + 1);
                let k = choose|k: int| 0 <= k < seen.len() && #[trigger] seen[k] == found;
                assert(seen[k].0 == one);
                assert(was_seen(seen, one));
            },
        }
    }
}

proof fn lemma_schema(commands: Seq<(Seq<char>, CommandView)>, command: CommandView, upto: int)
    requires
        0 <= upto <= commands.len(),
        schema(commands, command, upto) is Ok,
    ensures
        forall|i: int, j: int|
            0 <= i < upto && command_key((#[trigger] commands[i]).1) == command && 0 <= j
                < commands[i].1.fields.len() ==> was_seen(
                schema(commands, command, upto)->Ok_0,
                #[trigger] commands[i].1.fields[j],
            ),
    decreases upto,
{
    if upto > 0 {
        lemma_schema(commands, command, upto - 1);
        let before = schema(commands, command, upto - 1)->Ok_0;
        let last = commands[upto - 1];
        if command_key(last.1) == command {
            lemma_merged(before, last.1.fields, last.0, 0);
        }
        let out = schema(commands, command, upto)->Ok_0;
        assert forall|i: int, j: int|
            0 <= i < upto && command_key((#[trigger] commands[i]).1) == command && 0 <= j
                < commands[i].1.fields.len() implies was_seen(
            out,
            #[trigger] commands[i].1.fields[j],
        ) by {
            if i < upto - 1 {
                assert(was_seen(before, commands[i].1.fields[j]));
            }
        }
    }
}

proof fn lemma_untroubled(commands: Seq<(Seq<char>, CommandView)>, from: int, i: int)
    requires
        0 <= from <= i < commands.len(),
        sharing_trouble(commands, from) is None,
    ensures
        schema(commands, command_key(commands[i].1), i + 1) is Ok,
    decreases i - from,
{
    if from < i {
        lemma_untroubled(commands, from + 1, i);
    }
}

proof fn lemma_schema_exists(commands: Seq<(Seq<char>, CommandView)>, command: CommandView, upto: int)
    requires
        0 <= upto <= commands.len(),
        sharing_trouble(commands, 0) is None,
    ensures
        schema(commands, command, upto) is Ok,
    decreases upto,
{
    if upto > 0 {
        lemma_schema_exists(commands, command, upto - 1);
        if command_key(commands[upto - 1].1) == command {
            lemma_untroubled(commands, 0, upto - 1);
        }
    }
}

/// Modules that share a command share every field any of them declared: once nothing is wrong
/// with what they declare, two modules on one command are run with the same fields, and each
/// field either of them declares is among those.
pub proof fn law_sharing_a_command_shares_its_fields(
    commands: Seq<(Seq<char>, CommandView)>,
    a: int,
    b: int,
    j: int,
)
    requires
        sharing_trouble(commands, 0) is None,
        0 <= a < commands.len(),
        0 <= b < commands.len(),
        command_key(commands[a].1) == command_key(commands[b].1),
        0 <= j < commands[a].1.fields.len(),
    ensures
        shared_fields(commands, commands[a].1) == shared_fields(commands, commands[b].1),
        shared_fields(commands, commands[b].1).contains(commands[a].1.fields[j]),
{
    let command = command_key(commands[a].1);
    let x = commands[a].1;
    let y = commands[b].1;
    if !mixed(commands, x) {
        assert(y.fields == x.fields);
        assert(!mixed(commands, y)) by {
            if mixed(commands, y) {
                let i = choose|i: int|
                    0 <= i < commands.len() && command_key((#[trigger] commands[i]).1)
                        == command_key(y) && commands[i].1.fields != y.fields;
                assert(commands[i].1.fields == x.fields);
            }
        }
    } else {
        let i = choose|i: int|
            0 <= i < commands.len() && command_key((#[trigger] commands[i]).1) == command_key(x)
                && commands[i].1.fields != x.fields;
        assert(mixed(commands, y)) by {
            if x.fields != y.fields {
                assert(command_key(commands[a].1) == command_key(y));
            } else {
                assert(commands[i].1.fields != y.fields);
            }
        }
        lemma_schema_exists(commands, command, commands.len() as int);
        lemma_schema(commands, command, commands.len() as int);
        let seen = schema(commands, command, commands.len() as int)->Ok_0;
        assert(was_seen(seen, commands[a].1.fields[j]));
        let k = choose|k: int|
            0 <= k < seen.len() && (#[trigger] seen[k]).0 == commands[a].1.fields[j];
        assert(fields_alone(seen)[k] == commands[a].1.fields[j]);
    }
}

} // verus!
