//! Physical and virtual addresses, the frames they fall in, and the guards
//! that own frames.

use vstd::prelude::*;
use std::sync::Arc;
use crate::mm::arithmetics::{SimpleRange, StepByOne};
use crate::mm::layout::PAGE_SIZE;
use crate::allocator::frame_allocator::{
    allocate_one_frame, deallocate_one_frame, is_first_fit, AllocError, FrameAllocator,
};

verus! {

/// Frame numbers below this bound have a base address that fits in a machine
/// word.
pub const FRAME_NUMBER_LIMIT: u64 = 0x10_0000_0000_0000;

/// A physical address. It names memory and owns none.
#[derive(Debug, Clone, Copy, PartialEq, Eq, Structural, PartialOrd, Ord)]
pub struct PhysAddr(pub u64);

impl PhysAddr {
    pub fn new(pa: u64) -> (r: Self)
        ensures
            r.0 == pa,
    {
        Self(pa)
    }

    pub fn is_page_aligned(&self) -> (r: bool)
        ensures
            r == (self.0 % 4096 == 0),
    {
        self.0 % PAGE_SIZE == 0
    }

    /// The base of the page that holds the address.
    pub fn align_down(self) -> (r: Self)
        ensures
            r.0 == self.0 - self.0 % 4096,
    {
        Self(self.0 - self.0 % PAGE_SIZE)
    }

    /// The address itself where it is a page base, else the base of the
    /// next page.
    pub fn align_up(self) -> (r: Self)
        requires
            self.0 + 4095 <= u64::MAX,
        ensures
            r.0 == (self.0 + 4095) - (self.0 + 4095) % 4096,
    {
        let bumped: u64 = self.0 + (PAGE_SIZE - 1);
        Self(bumped - bumped % PAGE_SIZE)
    }

    /// The address as a machine word.
    pub fn as_usize(&self) -> (r: u64)
        ensures
            r == self.0,
    {
        self.0
    }

    /// The address as a machine word.
    pub fn into_usize(self) -> (r: u64)
        ensures
            r == self.0,
    {
        self.0
    }

    /// The number of the page that holds the address, for pages of
    /// `page_size` bytes.
    pub fn get_number(self, page_size: u64) -> (r: u64)
        requires
            page_size != 0,
        ensures
            r == self.0 / page_size,
    {
        self.0 / page_size
    }

    /// The address `rhs` bytes further on.
    pub fn plus(self, rhs: u64) -> (r: Self)
        requires
            self.0 + rhs <= u64::MAX,
        ensures
            r.0 == self.0 + rhs,
    {
        Self(self.0 + rhs)
    }

    /// How many bytes the address lies beyond `rhs`.
    pub fn minus(self, rhs: Self) -> (r: u64)
        requires
            rhs.0 <= self.0,
        ensures
            r == self.0 - rhs.0,
    {
        self.0 - rhs.0
    }

    /// The address in the same page at byte offset `offset` (of which the
    /// low twelve bits count).
    pub fn with_offset(self, offset: u64) -> (r: Self)
        ensures
            r.0 == (self.0 - self.0 % 4096) + offset % 4096,
    {
        let addr: u64 = self.0;
        assert((addr & !0xfffu64) | (offset & 0xfffu64) == (addr - addr % 4096) + offset % 4096)
            by (bit_vector);
        Self((addr & !0xfff) | (offset & 0xfff))
    }
}

/// Of a virtual address, the index into the page-table node of the given
/// level: nine bits, those of level 0 just above the page offset.
pub open spec fn spec_pte_index(va: int, level: int) -> int {
    if level == 0 {
        (va / 4096) % 512
    } else if level == 1 {
        (va / 4096 / 512) % 512
    } else {
        (va / 4096 / 512 / 512) % 512
    }
}

/// A virtual address.
#[derive(Clone, Copy, PartialEq, Eq, Structural, PartialOrd, Ord, Debug)]
pub struct VirtAddr(pub u64);

impl VirtAddr {
    pub fn new(addr: u64) -> (r: Self)
        ensures
            r.0 == addr,
    {
        Self(addr)
    }

    /// The virtual address that an identity mapping gives to `addr`.
    pub fn from_identical(addr: PhysAddr) -> (r: Self)
        ensures
            r.0 == addr.0,
    {
        Self(addr.0)
    }

    pub fn is_page_aligned(&self) -> (r: bool)
        ensures
            r == (self.0 % 4096 == 0),
    {
        self.0 % PAGE_SIZE == 0
    }

    /// The base of the page that holds the address.
    pub fn align_down(self) -> (r: Self)
        ensures
            r.0 == self.0 - self.0 % 4096,
    {
        Self(self.0 - self.0 % PAGE_SIZE)
    }

    /// The address itself where it is a page base, else the base of the
    /// next page.
    pub fn align_up(self) -> (r: Self)
        requires
            self.0 + 4095 <= u64::MAX,
        ensures
            r.0 == (self.0 + 4095) - (self.0 + 4095) % 4096,
    {
        let bumped: u64 = self.0 + (PAGE_SIZE - 1);
        Self(bumped - bumped % PAGE_SIZE)
    }

    /// The address as a machine word.
    pub fn as_usize(&self) -> (r: u64)
        ensures
            r == self.0,
    {
        self.0
    }

    /// The address as a machine word.
    pub fn into_usize(self) -> (r: u64)
        ensures
            r == self.0,
    {
        self.0
    }

    /// The number of the page that holds the address, for pages of
    /// `page_size` bytes.
    pub fn get_number(self, page_size: u64) -> (r: u64)
        requires
            page_size != 0,
        ensures
            r == self.0 / page_size,
    {
        self.0 / page_size
    }

    /// The address `rhs` bytes further on.
    pub fn plus(self, rhs: u64) -> (r: Self)
        requires
            self.0 + rhs <= u64::MAX,
        ensures
            r.0 == self.0 + rhs,
    {
        Self(self.0 + rhs)
    }

    /// How many bytes the address lies beyond `rhs`.
    pub fn minus(self, rhs: Self) -> (r: u64)
        requires
            rhs.0 <= self.0,
        ensures
            r == self.0 - rhs.0,
    {
        self.0 - rhs.0
    }

    /// The index into the page-table node of the given level, 2 for the
    /// root and 0 for the leaves.
    pub fn pte_index(&self, level: usize) -> (r: usize)
        requires
            level <= 2,
        ensures
            r == spec_pte_index(self.0 as int, level as int),
            r < 512,
    {
        let vpn: u64 = VirtFrame::from_virt_addr(*self).number;
        let index: u64 = if level == 0 {
            vpn % 512
        } else if level == 1 {
            (vpn / 512) % 512
        } else {
            (vpn / 512 / 512) % 512
        };
        index as usize
    }

    /// The offset of the address within its page.
    pub fn offset(&self) -> (r: u64)
        ensures
            r == self.0 % 4096,
    {
        self.0 % PAGE_SIZE
    }
}

/// A page of physical memory, named by its page number.
#[derive(Clone, Copy, PartialEq, Eq, Structural, PartialOrd, Ord, Debug)]
pub struct Frame {
    pub number: u64,
}

impl Frame {
    pub fn from_ppn(ppn: u64) -> (r: Self)
        ensures
            r.number == ppn,
    {
        Self { number: ppn }
    }

    /// The frame that holds `pa`.
    pub fn from_phys_addr(pa: PhysAddr) -> (r: Self)
        ensures
            r.number == pa.0 / 4096,
            r.number < FRAME_NUMBER_LIMIT,
    {
        Self { number: pa.get_number(PAGE_SIZE) }
    }

    /// The address of the frame's first byte.
    pub fn get_base_phys_addr(&self) -> (r: PhysAddr)
        requires
            self.number < FRAME_NUMBER_LIMIT,
        ensures
            r.0 == self.number * 4096,
    {
        PhysAddr(self.number * PAGE_SIZE)
    }
}

impl StepByOne for Frame {
    open spec fn position(&self) -> nat {
        self.number as nat
    }

    fn step_one(&mut self) {
        self.number = self.number + 1;
    }

    fn same_position(&self, other: &Self) -> (r: bool) {
        self.number == other.number
    }
}

pub type FrameRange = SimpleRange<Frame>;

impl SimpleRange<Frame> {
    /// How many frames the range holds.
    pub fn n_pages(&self) -> (r: u64)
        requires
            self.wf(),
        ensures
            r == self.len(),
    {
        self.get_end().number - self.get_begin().number
    }
}

/// The owner of one frame that a frame allocator handed out. The frame goes
/// back to the allocator through `release`.
#[derive(Debug)]
pub struct FrameGuard {
    inner: Frame,
}

impl FrameGuard {
    /// The frame that the guard owns.
    pub closed spec fn frame(&self) -> Frame {
        self.inner
    }

    /// Takes one frame from `allocator`. The caller clears the memory of the
    /// frame before it is used.
    pub fn allocate_zeroed(allocator: &mut FrameAllocator) -> (r: Result<Self, AllocError>)
        requires
            old(allocator).wf(),
        ensures
            final(allocator).wf(),
            final(allocator).allocated_since(old(allocator)),
            match r {
                Ok(guard) => {
                    let i = old(allocator).frame_slot(guard.frame().number);
                    &&& is_first_fit(old(allocator).page_allocated@, i, 1)
                    &&& final(allocator).page_allocated@ == old(allocator).page_allocated@.update(
                        i,
                        1usize,
                    )
                    &&& final(allocator).owns_frame(guard.frame().number)
                    &&& final(allocator).free_frames() == old(allocator).free_frames() - 1
                },
                Err(e) => {
                    &&& e == AllocError::ENoFrame
                    &&& old(allocator).free_frames() == 0
                    &&& final(allocator).page_allocated@ == old(allocator).page_allocated@
                },
            },
    {
        match allocate_one_frame(allocator) {
            Ok(pa) => {
                let ghost i = old(allocator).addr_slot(pa.0);
                assert(pa.0 / 4096 == old(allocator).base_addr / 4096 + i);
                Ok(Self { inner: Frame::from_phys_addr(pa) })
            },
            Err(e) => Err(e),
        }
    }

    /// Starts to manage `frame`.
    pub fn from_frame(frame: Frame) -> (r: Self)
        ensures
            r.frame() == frame,
    {
        Self { inner: frame }
    }

    pub fn inner_ref_mut(&mut self) -> (r: &mut Frame)
        ensures
            *r == old(self).frame(),
            final(self).frame() == *final(r),
    {
        &mut self.inner
    }

    pub fn inner_ref(&self) -> (r: &Frame)
        ensures
            *r == self.frame(),
    {
        &self.inner
    }

    /// A copy of the frame for use outside.
    pub fn get_frame(&self) -> (r: Frame)
        ensures
            r == self.frame(),
    {
        self.inner
    }

    /// Gives up the frame without handing it back to an allocator.
    pub fn take(self) -> (r: Frame)
        ensures
            r == self.frame(),
    {
        self.inner
    }

    /// Hands the frame back to `allocator`, which handed it out.
    pub fn release(self, allocator: &mut FrameAllocator)
        requires
            old(allocator).wf(),
            old(allocator).owns_frame(self.frame().number),
        ensures
            final(allocator).wf(),
            final(allocator).base_addr == old(allocator).base_addr,
            final(allocator).page_allocated@ == old(allocator).page_allocated@.update(
                old(allocator).frame_slot(self.frame().number),
                0usize,
            ),
            final(allocator).free_frames() == old(allocator).free_frames() + 1,
    {
        proof {
            assert(old(allocator).base_addr / 4096 + old(allocator).page_allocated@.len()
                <= 0x1000_0000_0000);
        }
        deallocate_one_frame(allocator, self.inner.get_base_phys_addr());
    }
}

/// A page of a virtual address space, named by its page number.
#[derive(Clone, Copy, PartialEq, Eq, Structural, PartialOrd, Ord, Debug)]
pub struct VirtFrame {
    pub number: u64,
}

impl VirtFrame {
    /// The virtual frame that an identity mapping gives to `phys_frame`.
    pub fn from_identical(phys_frame: Frame) -> (r: Self)
        ensures
            r.number == phys_frame.number,
    {
        Self { number: phys_frame.number }
    }

    /// The virtual frame that holds `va`.
    pub fn from_virt_addr(va: VirtAddr) -> (r: Self)
        ensures
            r.number == va.0 / 4096,
            r.number < FRAME_NUMBER_LIMIT,
    {
        let base_addr: u64 = va.align_down().into_usize();
        let vpn: u64 = base_addr / PAGE_SIZE;
        Self { number: vpn }
    }

    /// The address of the frame's first byte.
    pub fn get_base_virt_addr(&self) -> (r: VirtAddr)
        requires
            self.number < FRAME_NUMBER_LIMIT,
        ensures
            r.0 == self.number * 4096,
    {
        VirtAddr(self.number * PAGE_SIZE)
    }
}

impl StepByOne for VirtFrame {
    open spec fn position(&self) -> nat {
        self.number as nat
    }

    fn step_one(&mut self) {
        self.number = self.number + 1;
    }

    fn same_position(&self, other: &Self) -> (r: bool) {
        self.number == other.number
    }
}

pub type VirtFrameRange = SimpleRange<VirtFrame>;

impl SimpleRange<VirtFrame> {
    /// The virtual range that an identity mapping gives to `phys_rng`.
    pub fn from_identical(phys_rng: FrameRange) -> (r: Self)
        ensures
            r.begin.number == phys_rng.begin.number,
            r.end.number == phys_rng.end.number,
    {
        Self::new(
            VirtFrame::from_identical(phys_rng.get_begin()),
            VirtFrame::from_identical(phys_rng.get_end()),
        )
    }

    /// How many frames the range holds.
    pub fn n_pages(&self) -> (r: u64)
        requires
            self.wf(),
        ensures
            r == self.len(),
    {
        self.get_end().number - self.get_begin().number
    }
}

/// What backs one page of a virtual area.
#[derive(Debug)]
pub enum VirtFrameGuard {
    /// A frame that the area owns alone.
    ExclusivelyAllocated(FrameGuard),
    /// A frame shared copy-on-write.
    CowShared(Arc<FrameGuard>),
    /// A frame that the area maps and does not own.
    PhysBorrowed(Frame),
}

impl VirtFrameGuard {
    /// The frame behind the guard.
    pub open spec fn frame(&self) -> Frame {
        match self {
            VirtFrameGuard::ExclusivelyAllocated(guard) => guard.frame(),
            VirtFrameGuard::CowShared(guard) => guard.frame(),
            VirtFrameGuard::PhysBorrowed(frame) => *frame,
        }
    }

    /// The base physical address of the frame behind the guard, as a machine
    /// word.
    pub fn as_usize(&self) -> (r: u64)
        requires
            self.frame().number < FRAME_NUMBER_LIMIT,
        ensures
            r == self.frame().number * 4096,
    {
        match &self {
            VirtFrameGuard::ExclusivelyAllocated(frame_guard) => {
                frame_guard.get_frame().get_base_phys_addr().as_usize()
            },
            VirtFrameGuard::CowShared(frame_guard_arc) => {
                frame_guard_arc.get_frame().get_base_phys_addr().as_usize()
            },
            VirtFrameGuard::PhysBorrowed(frame) => frame.get_base_phys_addr().as_usize(),
        }
    }
}

} // verus!

verus! {

impl From<PhysAddr> for Frame {
    /// The frame that holds `pa`.
    fn from(pa: PhysAddr) -> (r: Self) {
        Self::from_phys_addr(pa.align_down())
    }
}

impl vstd::std_specs::convert::FromSpecImpl<PhysAddr> for Frame {
    open spec fn obeys_from_spec() -> bool {
        true
    }

    open spec fn from_spec(pa: PhysAddr) -> Self {
        Frame { number: pa.0 / 4096 }
    }
}

impl From<Frame> for FrameGuard {
    /// Starts to manage `value`.
    fn from(value: Frame) -> (r: Self) {
        Self { inner: value }
    }
}

impl vstd::std_specs::convert::FromSpecImpl<Frame> for FrameGuard {
    open spec fn obeys_from_spec() -> bool {
        true
    }

    closed spec fn from_spec(value: Frame) -> Self {
        FrameGuard { inner: value }
    }
}

} // verus!
