//! Alignment arithmetic and half-open ranges that are walked one step at a
//! time.

use vstd::prelude::*;

verus! {

/// The value `val` rounded down to a multiple of `unit`.
pub open spec fn floor_to(val: int, unit: int) -> int {
    val - val % unit
}

/// The value `val` rounded up to a multiple of `unit`.
pub open spec fn ceil_to(val: int, unit: int) -> int {
    floor_to(val + unit - 1, unit)
}

/// Rounds `val` up to the next multiple of two to the power `order`: the
/// least value at or above `val` whose low `order` bits are clear.
#[allow(non_snake_case)]
pub fn ALIGN_UP(val: u64, order: u64) -> (r: u64)
    requires
        order < 64,
        val + (1u64 << order) - 1 <= u64::MAX,
    ensures
        val <= r,
        r - val < (1u64 << order),
        r & (((1u64 << order) - 1) as u64) == 0,
{
    let unit: u64 = 1u64 << order;
    assert(unit >= 1) by (bit_vector)
        requires
            unit == 1u64 << order,
            order < 64,
    ;
    let o: u64 = unit - 1;
    let bumped: u64 = val + o;
    let r: u64 = bumped & !o;
    assert(val <= r && r - val <= o && r & o == 0) by (bit_vector)
        requires
            r == bumped & !o,
            bumped == val + o,
            val + o <= 0xffff_ffff_ffff_ffffu64,
            unit == 1u64 << order,
            o == (unit - 1) as u64,
            order < 64,
    ;
    r
}

/// Rounds `val` down to a multiple of two to the power `order`: the greatest
/// value at or below `val` whose low `order` bits are clear.
#[allow(non_snake_case)]
pub fn ALIGN_DOWN(val: u64, order: u64) -> (r: u64)
    requires
        order < 64,
    ensures
        r <= val,
        val - r < (1u64 << order),
        r & (((1u64 << order) - 1) as u64) == 0,
{
    let unit: u64 = 1u64 << order;
    assert(unit >= 1) by (bit_vector)
        requires
            unit == 1u64 << order,
            order < 64,
    ;
    let o: u64 = unit - 1;
    let r: u64 = val & !o;
    assert(r <= val && val - r <= o && r & o == 0) by (bit_vector)
        requires
            r == val & !o,
            unit == 1u64 << order,
            o == (unit - 1) as u64,
            order < 64,
    ;
    r
}

/// Rounds `val` down to a page boundary.
#[allow(non_snake_case)]
pub fn PG_ROUND_DOWN(val: u64) -> (r: u64)
    ensures
        r == floor_to(val as int, 4096),
{
    assert(val & !4095u64 == val - val % 4096) by (bit_vector);
    val & !4095
}

/// Rounds `val` up to a page boundary.
#[allow(non_snake_case)]
pub fn PG_ROUND_UP(val: u64) -> (r: u64)
    requires
        val + 4095 <= u64::MAX,
    ensures
        r == ceil_to(val as int, 4096),
{
    let bumped: u64 = val + 4095;
    assert(bumped & !4095u64 == bumped - bumped % 4096) by (bit_vector);
    bumped & !4095
}

/// Where a page-table entry holds the page number of the physical address
/// `pa`: the page number, moved past the ten flag bits.
#[allow(non_snake_case)]
pub fn PA2PPN(pa: u64) -> (r: u64)
    ensures
        r == (pa / 4096) * 1024,
{
    assert((pa >> 12u64) << 10u64 == (pa / 4096) * 1024) by (bit_vector);
    (pa >> 12) << 10
}

/// The physical address of the page that the entry `pte` names: its 44-bit
/// page number, from bit 10 on, times the page size.
#[allow(non_snake_case)]
pub fn PTE2PA(pte: u64) -> (r: u64)
    ensures
        r == ((pte / 1024) % 0x1000_0000_0000) * 4096,
{
    assert(((pte >> 10u64) & 0xfff_ffff_ffffu64) << 12u64 == ((pte / 1024) % 0x1000_0000_0000) * 4096)
        by (bit_vector);
    ((pte >> 10) & 0xfff_ffff_ffff) << 12
}

} // verus!

verus! {

/// A value that stands at a position in a sequence and can move to the next
/// one.
pub trait StepByOne: Sized {
    /// Where the value stands.
    spec fn position(&self) -> nat;

    /// Moves to the next position.
    fn step_one(&mut self)
        requires
            old(self).position() < u64::MAX,
        ensures
            final(self).position() == old(self).position() + 1,
    ;

    /// Whether two values stand at the same position.
    fn same_position(&self, other: &Self) -> (r: bool)
        ensures
            r == (self.position() == other.position()),
    ;
}

/// The half-open range of positions from `begin` to `end`.
#[derive(Clone, Copy, Debug)]
pub struct SimpleRange<T: StepByOne + Copy> {
    pub begin: T,
    pub end: T,
}

impl<T: StepByOne + Copy> SimpleRange<T> {
    /// The range ends at or after its beginning.
    pub open spec fn wf(&self) -> bool {
        self.begin.position() <= self.end.position()
    }

    /// How many positions the range holds.
    pub open spec fn len(&self) -> int {
        self.end.position() - self.begin.position()
    }

    pub fn new(begin: T, end: T) -> (r: Self)
        ensures
            r.begin == begin,
            r.end == end,
    {
        Self { begin, end }
    }

    pub fn get_begin(&self) -> (r: T)
        ensures
            r == self.begin,
    {
        self.begin
    }

    pub fn get_end(&self) -> (r: T)
        ensures
            r == self.end,
    {
        self.end
    }

    /// A walk over the range that starts at its beginning.
    pub fn iter(&self) -> (r: SimpleRangeIterator<T>)
        ensures
            r.current == self.begin,
            r.end == self.end,
    {
        SimpleRangeIterator { current: self.begin, end: self.end }
    }

    /// A walk over the range that starts at its beginning.
    pub fn into_iter(self) -> (r: SimpleRangeIterator<T>)
        ensures
            r.current == self.begin,
            r.end == self.end,
    {
        SimpleRangeIterator { current: self.begin, end: self.end }
    }
}

/// A walk over a range: `current` is the next value to hand out.
pub struct SimpleRangeIterator<T: StepByOne + Copy> {
    pub current: T,
    pub end: T,
}

impl<T: StepByOne + Copy> SimpleRangeIterator<T> {
    /// How many values are still to come.
    pub open spec fn remaining(&self) -> int {
        self.end.position() - self.current.position()
    }

    /// Hands out the current value and steps past it, or `None` at the end
    /// of the range.
    pub fn next(&mut self) -> (r: Option<T>)
        requires
            old(self).remaining() >= 0,
            old(self).end.position() <= u64::MAX,
        ensures
            final(self).end == old(self).end,
            old(self).remaining() == 0 ==> r is None && final(self).current == old(self).current,
            old(self).remaining() > 0 ==> r == Some(old(self).current)
                && final(self).remaining() == old(self).remaining() - 1,
    {
        if self.current.same_position(&self.end) {
            None
        } else {
            let ret = self.current;
            self.current.step_one();
            Some(ret)
        }
    }
}

} // verus!
