//! How full a filesystem is.

use crate::status::{about, no_fields, specs_view, with, Amount, AmountView, FieldSpec, FieldView};
use crate::status::{Fields, Kind, Reading, ReadingView, State, Unit, Value, ValueView};
use vstd::prelude::*;

verus! {

/// What this source publishes.
pub open spec fn published() -> Seq<FieldView> {
    seq![
        FieldView { name: "percent"@, kind: Kind::Num(Unit::Percent) },
        FieldView { name: "used"@, kind: Kind::Num(Unit::Bytes) },
        FieldView { name: "total"@, kind: Kind::Num(Unit::Bytes) },
        FieldView { name: "available"@, kind: Kind::Num(Unit::Bytes) },
        FieldView { name: "free"@, kind: Kind::Num(Unit::Bytes) },
        FieldView { name: "path"@, kind: Kind::Text },
    ]
}

/// What this source publishes.
pub fn fields() -> (r: Vec<FieldSpec>)
    ensures
        specs_view(r@) == published(),
{
    let r = vec![
        FieldSpec::new("percent", Kind::Num(Unit::Percent)),
        FieldSpec::new("used", Kind::Num(Unit::Bytes)),
        FieldSpec::new("total", Kind::Num(Unit::Bytes)),
        FieldSpec::new("available", Kind::Num(Unit::Bytes)),
        FieldSpec::new("free", Kind::Num(Unit::Bytes)),
        FieldSpec::new("path", Kind::Text),
    ];
    assert(specs_view(r@) =~= published());
    r
}

/// What a filesystem reports about its blocks.
#[derive(Clone, Copy, Debug, PartialEq, Eq, Structural)]
pub struct Blocks {
    /// The size the counts are in, where the filesystem says.
    pub fragment: u64,
    /// The preferred size for io, which stands in where it does not.
    pub block: u64,
    pub total: u64,
    pub free: u64,
    /// Free for an ordinary program, without the reserve of the administrator.
    pub available: u64,
}

/// The space on a filesystem, in bytes.
#[derive(Clone, Copy, Debug, PartialEq, Eq, Structural)]
pub struct Space {
    pub total: u128,
    pub used: u128,
    pub available: u128,
    pub free: u128,
}

/// The size of the blocks that are counted. The preferred size for io is not the same thing,
/// and is a common way to get this wrong.
pub open spec fn unit_size(b: Blocks) -> int {
    if b.fragment > 0 {
        b.fragment as int
    } else {
        b.block as int
    }
}

/// The space that a count of blocks is.
pub open spec fn space_of(b: Blocks) -> Space {
    let total = b.total * unit_size(b);
    let free = b.free * unit_size(b);
    Space {
        total: total as u128,
        used: (if total < free {
            0
        } else {
            total - free
        }) as u128,
        available: (b.available * unit_size(b)) as u128,
        free: free as u128,
    }
}

/// Whether the bytes of a filesystem can be counted in 64 bits.
pub open spec fn countable(b: Blocks) -> bool {
    b.total * unit_size(b) <= u64::MAX && b.free * unit_size(b) <= u64::MAX && b.available
        * unit_size(b) <= u64::MAX
}

/// Whether the bytes of a filesystem can be counted in 64 bits.
pub fn is_countable(b: Blocks) -> (r: bool)
    ensures
        r == countable(b),
{
    let size: u128 = if b.fragment > 0 {
        b.fragment as u128
    } else {
        b.block as u128
    };
    proof {
        lemma_product(b.total, size as int);
        lemma_product(b.free, size as int);
        lemma_product(b.available, size as int);
    }
    let most: u128 = u64::MAX as u128;
    b.total as u128 * size <= most && b.free as u128 * size <= most && b.available as u128 * size
        <= most
}

/// The space that a count of blocks is.
pub fn measure(b: Blocks) -> (s: Space)
    requires
        countable(b),
    ensures
        s == space_of(b),
        s.used <= s.total <= u64::MAX,
        s.available <= u64::MAX,
{
    let size: u128 = if b.fragment > 0 {
        b.fragment as u128
    } else {
        b.block as u128
    };
    proof {
        lemma_product(b.total, size as int);
        lemma_product(b.free, size as int);
        lemma_product(b.available, size as int);
    }
    let total: u128 = b.total as u128 * size;
    let free: u128 = b.free as u128 * size;
    let available: u128 = b.available as u128 * size;
    let used: u128 = if total < free {
        0
    } else {
        total - free
    };
    Space { total, used, available, free }
}

proof fn lemma_product(count: u64, size: int)
    requires
        0 <= size <= u64::MAX,
    ensures
        0 <= count * size <= 0xffff_ffff_ffff_ffff * 0xffff_ffff_ffff_ffff,
{
    assert(0 <= count * size <= 0xffff_ffff_ffff_ffff * 0xffff_ffff_ffff_ffff) by (nonlinear_arith)
        requires
            0 <= size <= 0xffff_ffff_ffff_ffff,
            0 <= count <= 0xffff_ffff_ffff_ffff,
    ;
}

/// A number of bytes.
pub open spec fn bytes_value(n: u128) -> ValueView {
    ValueView::Num { v: AmountView::Count(n as int), unit: Unit::Bytes }
}

/// How full a filesystem is: of what is in use and what could still be written. The reserve of
/// the administrator belongs to neither, so counting it would make a full disk read as less.
pub open spec fn fullness(s: Space) -> ValueView {
    let usable = s.used + s.available;
    if usable == 0 {
        ValueView::Absent
    } else {
        ValueView::Num {
            v: AmountView::Share { part: s.used as int, whole: usable },
            unit: Unit::Percent,
        }
    }
}

/// What is shown of a filesystem.
pub open spec fn shown(s: Space, path: Seq<char>) -> ReadingView {
    let f = with(no_fields(), "percent"@, fullness(s));
    let f = with(f, "used"@, bytes_value(s.used));
    let f = with(f, "total"@, bytes_value(s.total));
    let f = with(f, "available"@, bytes_value(s.available));
    let f = with(f, "free"@, bytes_value(s.free));
    let f = with(f, "path"@, ValueView::Text(path));
    ReadingView { fields: about(f, "percent"@), state: State::Idle }
}

fn bytes(n: u128) -> (v: Value)
    ensures
        v@ == bytes_value(n),
{
    Value::Num { v: Amount::Count(n), unit: Unit::Bytes }
}

/// How full a filesystem is.
#[derive(Debug)]
pub struct Disk {
    pub path: String,
}

impl Disk {
    pub fn new(path: String) -> (d: Disk)
        ensures
            d.path@ == path@,
    {
        Disk { path }
    }

    /// What a filesystem reports, as a reading.
    pub fn read(&self, blocks: Blocks) -> (r: Reading)
        requires
            countable(blocks),
        ensures
            r@ == shown(space_of(blocks), self.path@),
    {
        let s = measure(blocks);
        let usable: u128 = s.used + s.available;
        let percent = if usable == 0 {
            Value::Absent
        } else {
            Value::Num { v: Amount::share(s.used, usable), unit: Unit::Percent }
        };
        let mut fields = Fields::new();
        fields.set("percent", percent);
        fields.set("used", bytes(s.used));
        fields.set("total", bytes(s.total));
        fields.set("available", bytes(s.available));
        fields.set("free", bytes(s.free));
        fields.set("path", Value::Text(self.path.clone()));
        fields.set_primary("percent");
        Reading { fields, state: State::Idle }
    }
}

/// A disk with no room left for an ordinary program reads as full, whatever is still held back.
pub proof fn law_a_disk_without_room_is_full(s: Space)
    requires
        s.available == 0,
        s.used > 0,
    ensures
        fullness(s) == (ValueView::Num {
            v: AmountView::Share { part: s.used as int, whole: s.used as int },
            unit: Unit::Percent,
        }),
{
}

} // verus!
