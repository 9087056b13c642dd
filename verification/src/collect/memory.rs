//! Memory in use, from `/proc/meminfo`.

use crate::collect::unread::{because, read, Cause, Unread, UnreadView};
use crate::status::{about, no_fields, specs_view, with, Amount, AmountView, FieldSpec, FieldView};
use crate::status::{Fields, Kind, Reading, ReadingView, State, Unit, Value, ValueView};
use crate::text::{lines, lines_of, natural, parse_u64, parted, same, split_once, split_whitespace};
use crate::text::{texts, words_of};
use vstd::prelude::*;

verus! {

/// What this source publishes.
pub open spec fn published() -> Seq<FieldView> {
    seq![
        FieldView { name: "percent"@, kind: Kind::Num(Unit::Percent) },
        FieldView { name: "used"@, kind: Kind::Num(Unit::Bytes) },
        FieldView { name: "total"@, kind: Kind::Num(Unit::Bytes) },
        FieldView { name: "available"@, kind: Kind::Num(Unit::Bytes) },
        FieldView { name: "swap_percent"@, kind: Kind::Num(Unit::Percent) },
        FieldView { name: "swap_used"@, kind: Kind::Num(Unit::Bytes) },
        FieldView { name: "swap_total"@, kind: Kind::Num(Unit::Bytes) },
    ]
}

/// What this source publishes.
pub fn fields() -> (r: Vec<FieldSpec>)
    ensures
        specs_view(r@) == published(),
{
    let r = vec![
        FieldSpec::new("percent", Kind::Num(Unit::Percent)),
        FieldSpec::new("used", Kind::Num(Unit::Bytes)),
        FieldSpec::new("total", Kind::Num(Unit::Bytes)),
        FieldSpec::new("available", Kind::Num(Unit::Bytes)),
        FieldSpec::new("swap_percent", Kind::Num(Unit::Percent)),
        FieldSpec::new("swap_used", Kind::Num(Unit::Bytes)),
        FieldSpec::new("swap_total", Kind::Num(Unit::Bytes)),
    ];
    assert(specs_view(r@) =~= published());
    r
}

/// The memory of a machine, in bytes.
#[derive(Clone, Copy, Debug, PartialEq, Eq, Structural)]
pub struct Info {
    pub total: u128,
    pub available: u128,
    /// Absent on a machine built without swap, which is not the same as swap being empty.
    pub swap_total: Option<u128>,
    pub swap_free: u128,
}

impl View for Info {
    type V = Info;

    open spec fn view(&self) -> Info {
        *self
    }
}

/// What is left of one number without another, and never less than nothing.
pub open spec fn less(a: int, b: int) -> int {
    if a < b {
        0
    } else {
        a - b
    }
}

/// The memory in use. What is available can be taken back by a program that asks for it, so it
/// does not count.
pub open spec fn in_use(i: Info) -> int {
    less(i.total as int, i.available as int)
}

/// The swap in use.
pub open spec fn swap_in_use(i: Info) -> int {
    less(
        match i.swap_total {
            Some(t) => t as int,
            None => 0,
        },
        i.swap_free as int,
    )
}

impl Info {
    pub fn used(self) -> (n: u128)
        ensures
            n == in_use(self),
    {
        if self.total < self.available {
            0
        } else {
            self.total - self.available
        }
    }

    pub fn swap_used(self) -> (n: u128)
        ensures
            n == swap_in_use(self),
    {
        let total: u128 = match self.swap_total {
            Some(t) => t,
            None => 0,
        };
        if total < self.swap_free {
            0
        } else {
            total - self.swap_free
        }
    }
}

/// The value of a line, in bytes. Every size the kernel writes there is in kibibytes and says
/// so, and `name` is the line it is in.
pub open spec fn size_of(rest: Seq<char>, name: Seq<char>) -> Result<u128, UnreadView> {
    let words = words_of(rest);
    if words.len() == 0 {
        Err(because(Cause::NoValue, name))
    } else {
        match natural(words[0], u64::MAX as nat) {
            None => Err(because(Cause::NotANumber, words[0])),
            Some(n) => if words.len() > 1 && words[1] != "kB"@ && words[1] != "KB"@ {
                Err(because(Cause::UnknownUnit, words[1]))
            } else {
                Ok((n * 1024) as u128)
            },
        }
    }
}

fn kilobytes(rest: &str, name: &str) -> (r: Result<u128, Unread>)
    ensures
        match r {
            Ok(n) => size_of(rest@, name@) == Ok::<u128, UnreadView>(n),
            Err(e) => size_of(rest@, name@) == Err::<u128, UnreadView>(e@),
        },
{
    let words = split_whitespace(rest);
    let ghost all = words_of(rest@);
    if words.len() == 0 {
        return Err(Unread::new(Cause::NoValue, name));
    }
    assert(all[0] == words@[0]@);
    match parse_u64(words[0].as_str()) {
        None => Err(Unread::new(Cause::NotANumber, words[0].as_str())),
        Some(n) => {
            if words.len() > 1 {
                assert(all[1] == words@[1]@);
                if !same(words[1].as_str(), "kB") && !same(words[1].as_str(), "KB") {
                    return Err(Unread::new(Cause::UnknownUnit, words[1].as_str()));
                }
            }
            Ok(n as u128 * 1024)
        },
    }
}

/// What the last line of a name says, up to `upto`.
pub open spec fn last_said(
    all: Seq<Seq<char>>,
    name: Seq<char>,
    upto: int,
) -> Option<u128>
    decreases upto,
{
    if upto <= 0 || upto > all.len() {
        None
    } else {
        match parted(all[upto - 1], ':') {
            Some((key, rest)) => if key == name && size_of(rest, name) is Ok {
                Some(size_of(rest, name)->Ok_0)
            } else {
                last_said(all, name, upto - 1)
            },
            None => last_said(all, name, upto - 1),
        }
    }
}

/// Whether a line is one of the handful that matter.
pub open spec fn matters(name: Seq<char>) -> bool {
    name == "MemTotal"@ || name == "MemAvailable"@ || name == "MemFree"@ || name == "SwapTotal"@
        || name == "SwapFree"@
}

/// What is wrong with the lines that matter, from `from` on.
pub open spec fn line_trouble(all: Seq<Seq<char>>, from: int) -> Option<UnreadView>
    decreases all.len() - from,
{
    if from < 0 || from >= all.len() {
        None
    } else {
        match parted(all[from], ':') {
            Some((name, rest)) => if matters(name) && size_of(rest, name) is Err {
                Some(size_of(rest, name)->Err_0)
            } else {
                line_trouble(all, from + 1)
            },
            None => line_trouble(all, from + 1),
        }
    }
}

/// What a text of the kernel's says about memory. On a kernel too old to say what is available,
/// what is free is the closest honest answer.
pub open spec fn info_of(text: Seq<char>) -> Result<Info, UnreadView> {
    let all = lines_of(text);
    let n = all.len() as int;
    match line_trouble(all, 0) {
        Some(e) => Err(e),
        None => match last_said(all, "MemTotal"@, n) {
            None => Err(because(Cause::NoTotal, Seq::empty())),
            Some(total) => Ok(
                Info {
                    total,
                    available: match last_said(all, "MemAvailable"@, n) {
                        Some(v) => v,
                        None => match last_said(all, "MemFree"@, n) {
                            Some(v) => v,
                            None => 0,
                        },
                    },
                    swap_total: match last_said(all, "SwapTotal"@, n) {
                        Some(t) => if t > 0 {
                            Some(t)
                        } else {
                            None
                        },
                        None => None,
                    },
                    swap_free: match last_said(all, "SwapFree"@, n) {
                        Some(v) => v,
                        None => 0,
                    },
                },
            ),
        },
    }
}

proof fn lemma_names_differ()
    ensures
        "MemTotal"@ != "MemAvailable"@,
        "MemTotal"@ != "MemFree"@,
        "MemTotal"@ != "SwapTotal"@,
        "MemTotal"@ != "SwapFree"@,
        "MemAvailable"@ != "MemFree"@,
        "MemAvailable"@ != "SwapTotal"@,
        "MemAvailable"@ != "SwapFree"@,
        "MemFree"@ != "SwapTotal"@,
        "MemFree"@ != "SwapFree"@,
        "SwapTotal"@ != "SwapFree"@,
{
    reveal_strlit("MemTotal");
    reveal_strlit("MemAvailable");
    reveal_strlit("MemFree");
    reveal_strlit("SwapTotal");
    reveal_strlit("SwapFree");
    assert("MemTotal"@.len() == 8);
    assert("MemAvailable"@.len() == 12);
    assert("MemFree"@.len() == 7);
    assert("SwapTotal"@.len() == 9);
    assert("SwapFree"@.len() == 8);
    assert("MemTotal"@[0] == 'M');
    assert("SwapFree"@[0] == 'S');
}

/// Read the handful of lines that matter, each `Name:  <value> kB`.
pub fn parse(text: &str) -> (r: Result<Info, Unread>)
    ensures
        read(r) == info_of(text@),
{
    let list = lines(text);
    let ghost all = lines_of(text@);
    let mut total: Option<u128> = None;
    let mut available: Option<u128> = None;
    let mut free: Option<u128> = None;
    let mut swap_total: Option<u128> = None;
    let mut swap_free: Option<u128> = None;
    for i in 0..list.len()
        invariant
            all == texts(list@),
            all == lines_of(text@),
            line_trouble(all, 0) == line_trouble(all, i as int),
            total == last_said(all, "MemTotal"@, i as int),
            available == last_said(all, "MemAvailable"@, i as int),
            free == last_said(all, "MemFree"@, i as int),
            swap_total == last_said(all, "SwapTotal"@, i as int),
            swap_free == last_said(all, "SwapFree"@, i as int),
    {
        proof {
            lemma_names_differ();
        }
        assert(all[i as int] == list@[i as int]@);
        if let Some((name, rest)) = split_once(list[i].as_str(), ':') {
            let n = name.as_str();
            if same(n, "MemTotal") {
                total = Some(kilobytes(rest.as_str(), n)?);
            } else if same(n, "MemAvailable") {
                available = Some(kilobytes(rest.as_str(), n)?);
            } else if same(n, "MemFree") {
                free = Some(kilobytes(rest.as_str(), n)?);
            } else if same(n, "SwapTotal") {
                swap_total = Some(kilobytes(rest.as_str(), n)?);
            } else if same(n, "SwapFree") {
                swap_free = Some(kilobytes(rest.as_str(), n)?);
            }
        }
    }
    match total {
        None => Err(Unread::plainly(Cause::NoTotal)),
        Some(total) => {
            let available: u128 = match available {
                Some(v) => v,
                None => match free {
                    Some(v) => v,
                    None => 0,
                },
            };
            let swap_total = match swap_total {
                Some(t) => if t > 0 {
                    Some(t)
                } else {
                    None
                },
                None => None,
            };
            let swap_free: u128 = match swap_free {
                Some(v) => v,
                None => 0,
            };
            Ok(Info { total, available, swap_total, swap_free })
        },
    }
}

/// A number of bytes, or nothing.
pub open spec fn bytes_value(v: Option<u128>) -> ValueView {
    match v {
        Some(n) => ValueView::Num { v: AmountView::Count(n as int), unit: Unit::Bytes },
        None => ValueView::Absent,
    }
}

fn bytes(v: Option<u128>) -> (r: Value)
    ensures
        r@ == bytes_value(v),
{
    match v {
        Some(n) => Value::Num { v: Amount::Count(n), unit: Unit::Bytes },
        None => Value::Absent,
    }
}

/// A share of a total, or nothing when there is no total to be a share of.
///
/// A machine with no swap has no swap percentage - not zero percent - so a format that mentions
/// it can disappear rather than claim the swap is empty.
pub open spec fn share_value(used: int, total: Option<u128>) -> ValueView {
    match total {
        Some(t) => if t > 0 {
            ValueView::Num {
                v: AmountView::Share { part: used, whole: t as int },
                unit: Unit::Percent,
            }
        } else {
            ValueView::Absent
        },
        None => ValueView::Absent,
    }
}

/// A share of a total, or nothing when there is no total to be a share of.
pub fn percent(used: u128, total: Option<u128>) -> (r: Value)
    ensures
        r@ == share_value(used as int, total),
{
    match total {
        Some(t) => if t > 0 {
            Value::Num { v: Amount::share(used, t), unit: Unit::Percent }
        } else {
            Value::Absent
        },
        None => Value::Absent,
    }
}

/// What is shown of the memory of a machine.
pub open spec fn shown(i: Info) -> ReadingView {
    let f = with(no_fields(), "percent"@, share_value(in_use(i), Some(i.total)));
    let f = with(f, "used"@, bytes_value(Some(in_use(i) as u128)));
    let f = with(f, "total"@, bytes_value(Some(i.total)));
    let f = with(f, "available"@, bytes_value(Some(i.available)));
    let f = with(f, "swap_percent"@, share_value(swap_in_use(i), i.swap_total));
    let f = with(
        f,
        "swap_used"@,
        bytes_value(
            match i.swap_total {
                Some(_) => Some(swap_in_use(i) as u128),
                None => None,
            },
        ),
    );
    let f = with(f, "swap_total"@, bytes_value(i.swap_total));
    ReadingView { fields: about(f, "percent"@), state: State::Idle }
}

/// The memory of a machine.
#[derive(Debug)]
pub struct Memory {}

impl Memory {
    /// What a text of the kernel's says about memory, as a reading.
    pub fn read(&self, text: &str) -> (r: Result<Reading, Unread>)
        ensures
            read(r) == match info_of(text@) {
                Ok(info) => Ok(shown(info)),
                Err(e) => Err(e),
            },
    {
        let info = parse(text)?;
        let mut fields = Fields::new();
        fields.set("percent", percent(info.used(), Some(info.total)));
        fields.set("used", bytes(Some(info.used())));
        fields.set("total", bytes(Some(info.total)));
        fields.set("available", bytes(Some(info.available)));
        fields.set("swap_percent", percent(info.swap_used(), info.swap_total));
        fields.set(
            "swap_used",
            bytes(
                match info.swap_total {
                    Some(_) => Some(info.swap_used()),
                    None => None,
                },
            ),
        );
        fields.set("swap_total", bytes(info.swap_total));
        fields.set_primary("percent");
        Ok(Reading { fields, state: State::Idle })
    }
}

/// Used memory is never more than there is.
pub proof fn law_used_is_within_total(i: Info)
    ensures
        0 <= in_use(i) <= i.total,
        i.swap_total matches Some(t) ==> 0 <= swap_in_use(i) <= t,
        i.swap_total is None ==> swap_in_use(i) == 0,
{
}

} // verus!
