//! Virtual areas and the address spaces that are made of them.

use vstd::prelude::*;
use std::collections::BTreeMap;
use crate::allocator::frame_allocator::{AllocError, FrameAllocator};
use crate::mm::layout::{
    kernel_ranges, KernelSections, CLINT_BASE, CLINT_SIZE, MAX_PA, MAX_VA, PAGE_SIZE, PLIC_BASE,
    PLIC_SIZE, TEXT_BASE_USER_VA, TRAMPOLINE_BASE_VA, TRAPFRAME_BASE_USER_VA, TRAPFRAME_SIZE,
    UART_BASE, UART_SIZE, VIRTIO_BASE, VIRTIO_SIZE,
};
use crate::mm::memory::{
    Frame, FrameGuard, FrameRange, PhysAddr, VirtAddr, VirtFrame, VirtFrameGuard, VirtFrameRange,
};
use crate::mm::arithmetics::StepByOne;
use crate::mm::page_table::{
    counts, fresh_lacks, lacking_after_pages, lemma_fresh_counts, lemma_lacking_none_stays,
    lemma_pages_lack_counts,
    pages_lack, PTEFlags, PageFlags, PageTableGuard,
};

verus! {

/// A range of pages of a virtual address space, with the flags of its pages
/// and the frames that back them.
///
/// An area that is mapped identically has every page of its range backed by
/// the frame of the same number, and keeps no frame. In any other area a page
/// is backed where `virt_frames` holds a frame for its base address.
#[derive(Debug)]
pub struct VirtArea {
    /// The pages of the area.
    pub virt_frame_range: VirtFrameRange,
    /// For the base address of a page, what backs the page.
    pub virt_frames: BTreeMap<u64, VirtFrameGuard>,
    /// The flags of every page of the area.
    pub permissions: PageFlags,
    /// Whether each page is backed by the frame of the same number.
    pub is_identically_mapped: bool,
    /// A name for listings.
    pub name: String,
}

impl VirtArea {
    /// The range lies within the 27 bits of page number that a page table
    /// reads, and the flags fit in the ten flag bits of an entry. Every
    /// page of the range is backed. A frame is kept for the base address of
    /// a page of the range and for no other address, and has a page number
    /// of 44 bits.
    pub open spec fn wf(&self) -> bool {
        &&& self.virt_frame_range.begin.number <= self.virt_frame_range.end.number
        &&& self.virt_frame_range.end.number <= 0x800_0000
        &&& self.permissions.bits < 1024
        &&& forall|va: u64| #[trigger]
            self.virt_frames@.contains_key(va) ==> {
                &&& self.virt_frames@[va].frame().number < 0x1000_0000_0000
                &&& va % 4096 == 0
                &&& self.virt_frame_range.begin.number <= va / 4096
                    < self.virt_frame_range.end.number
            }
        &&& forall|vpn: int|
            self.virt_frame_range.begin.number <= vpn < self.virt_frame_range.end.number
                ==> #[trigger] self.backed(vpn)
    }

    /// The page with number `vpn` belongs to the area and is backed.
    pub open spec fn backed(&self, vpn: int) -> bool {
        &&& self.virt_frame_range.begin.number <= vpn < self.virt_frame_range.end.number
        &&& self.is_identically_mapped || self.virt_frames@.contains_key((vpn * 4096) as u64)
    }

    /// The base address of the frame that backs the page with number `vpn`.
    pub open spec fn backing(&self, vpn: int) -> u64 {
        if self.is_identically_mapped {
            (vpn * 4096) as u64
        } else {
            (self.virt_frames@[(vpn * 4096) as u64].frame().number * 4096) as u64
        }
    }

    /// A page of the area is backed by a frame that is shared copy-on-write.
    pub open spec fn has_shared(&self) -> bool {
        exists|vpn: int|
            #![trigger self.backed(vpn)]
            self.backed(vpn) && !self.is_identically_mapped
                && self.virt_frames@[(vpn * 4096) as u64] is CowShared
    }

    /// The flags of the entries that map the pages of the area.
    pub open spec fn entry_flags(&self) -> PTEFlags {
        self.permissions.as_pte_flags().with(PTEFlags::VALID)
    }

    /// What a page table holds for the area once it maps its backed pages
    /// with numbers below `limit`.
    pub open spec fn entries_below(&self, limit: int) -> Map<int, (u64, PTEFlags)> {
        Map::new(
            |vpn: int| self.backed(vpn) && vpn < limit,
            |vpn: int| (self.backing(vpn), self.entry_flags()),
        )
    }

    /// What a page table holds for the area once it maps it.
    pub open spec fn entries(&self) -> Map<int, (u64, PTEFlags)> {
        self.entries_below(self.virt_frame_range.end.number as int)
    }

    /// An area of the pages that hold the bytes from `va_begin` up to
    /// `va_end`, with no page backed yet.
    pub fn new(va_begin: VirtAddr, va_end: VirtAddr, perms: PageFlags) -> (r: Self)
        requires
            va_end.0 + 4095 <= u64::MAX,
        ensures
            r.virt_frame_range.begin.number == va_begin.0 / 4096,
            r.virt_frame_range.end.number == (va_end.0 + 4095) / 4096,
            r.virt_frames@ == Map::<u64, VirtFrameGuard>::empty(),
            r.permissions == perms,
            !r.is_identically_mapped,
            r.name@ == Seq::<char>::empty(),
    {
        let begin: VirtFrame = VirtFrame::from_virt_addr(va_begin.align_down());
        let end: VirtFrame = VirtFrame::from_virt_addr(va_end.align_up());
        Self {
            virt_frame_range: VirtFrameRange::new(begin, end),
            virt_frames: BTreeMap::new(),
            permissions: perms,
            is_identically_mapped: false,
            name: String::new(),
        }
    }

    /// An area that maps the pages that hold the bytes from `pa_begin` up to
    /// `pa_end` each to the frame of its own number. It keeps no frame: the
    /// memory is nobody's to give back.
    pub fn identically_mapped(pa_begin: PhysAddr, pa_end: PhysAddr, perms: PageFlags) -> (r: Self)
        requires
            pa_end.0 + 4095 <= u64::MAX,
        ensures
            r.virt_frame_range.begin.number == pa_begin.0 / 4096,
            r.virt_frame_range.end.number == (pa_end.0 + 4095) / 4096,
            r.virt_frames@ == Map::<u64, VirtFrameGuard>::empty(),
            r.permissions == perms,
            r.is_identically_mapped,
            r.name@ == Seq::<char>::empty(),
    {
        let pa_begin: Frame = Frame::from_phys_addr(pa_begin.align_down());
        let pa_end: Frame = Frame::from_phys_addr(pa_end.align_up());
        let phys_rng: FrameRange = FrameRange::new(pa_begin, pa_end);
        Self {
            virt_frame_range: VirtFrameRange::from_identical(phys_rng),
            virt_frames: BTreeMap::new(),
            permissions: perms,
            is_identically_mapped: true,
            name: String::new(),
        }
    }

    /// The area of the trampoline page: the one page at the top of the
    /// address space, readable and executable, backed by the frame that
    /// holds `trampoline_start`, which the area does not own.
    pub fn make_trampoline(trampoline_start: PhysAddr) -> (r: Self)
        ensures
            r.virt_frame_range.begin.number == 0x3ff_ffff,
            r.virt_frame_range.end.number == 0x400_0000,
            r.virt_frames@ == Map::<u64, VirtFrameGuard>::empty().insert(
                TRAMPOLINE_BASE_VA,
                VirtFrameGuard::PhysBorrowed(Frame { number: trampoline_start.0 / 4096 }),
            ),
            r.permissions.bits == PageFlags::READABLE | PageFlags::EXECUTABLE,
            !r.is_identically_mapped,
            r.name@ == "trampoline"@,
    {
        let va_begin: VirtAddr = VirtAddr::new(TRAMPOLINE_BASE_VA);
        let va_end: VirtAddr = VirtAddr::new(MAX_VA);
        let perms: PageFlags = PageFlags::from_bits_retain(
            PageFlags::READABLE | PageFlags::EXECUTABLE,
        );
        let mut virt_area: VirtArea = VirtArea::new(va_begin, va_end, perms);
        let phys_frame: Frame = Frame::from_phys_addr(trampoline_start);
        virt_area.track_frame(va_begin, VirtFrameGuard::PhysBorrowed(phys_frame));
        virt_area.set_name("trampoline");
        virt_area
    }

    /// The area of a trapframe: one page below the trampoline, readable and
    /// writable, backed by a frame of `allocator` that the area owns. Returns
    /// the area and the base address of that frame.
    pub fn make_trapframe(allocator: &mut FrameAllocator) -> (r: Result<(Self, PhysAddr), AllocError>)
        requires
            old(allocator).wf(),
        ensures
            final(allocator).wf(),
            final(allocator).allocated_since(old(allocator)),
            match r {
                Ok((area, pa)) => {
                    &&& area.virt_frame_range.begin.number == TRAPFRAME_BASE_USER_VA / 4096
                    &&& area.virt_frame_range.end.number == TRAPFRAME_BASE_USER_VA / 4096 + 1
                    &&& area.virt_frames@.dom() == set![TRAPFRAME_BASE_USER_VA]
                    &&& area.virt_frames@[TRAPFRAME_BASE_USER_VA] is ExclusivelyAllocated
                    &&& area.virt_frames@[TRAPFRAME_BASE_USER_VA].frame().number * 4096 == pa.0
                    &&& area.permissions.bits == PageFlags::READABLE | PageFlags::WRITABLE
                    &&& !area.is_identically_mapped
                    &&& area.name@ == "trapframe"@
                    &&& final(allocator).owns_frame(pa.0 / 4096)
                    &&& !old(allocator).owns_frame(pa.0 / 4096)
                    &&& final(allocator).free_frames() == old(allocator).free_frames() - 1
                },
                Err(e) => {
                    &&& e == AllocError::ENoFrame
                    &&& old(allocator).free_frames() == 0
                    &&& final(allocator).page_allocated@ == old(allocator).page_allocated@
                },
            },
    {
        let va_begin: VirtAddr = VirtAddr::new(TRAPFRAME_BASE_USER_VA);
        let va_end: VirtAddr = VirtAddr::new(TRAPFRAME_BASE_USER_VA + TRAPFRAME_SIZE).align_up();
        let perms: PageFlags = PageFlags::from_bits_retain(
            PageFlags::READABLE | PageFlags::WRITABLE,
        );
        let mut virt_area: VirtArea = VirtArea::new(va_begin, va_end, perms);
        let phys_frame: FrameGuard = match FrameGuard::allocate_zeroed(allocator) {
            Ok(guard) => guard,
            Err(e) => {
                return Err(e);
            },
        };
        let pa: PhysAddr = phys_frame.get_frame().get_base_phys_addr();
        virt_area.track_frame(va_begin, VirtFrameGuard::ExclusivelyAllocated(phys_frame));
        virt_area.set_name("trapframe");
        assert(virt_area.virt_frames@.dom() =~= set![TRAPFRAME_BASE_USER_VA]);
        Ok((virt_area, pa))
    }

    /// The area of the first page of a user stack: the page at
    /// `user_stack_va`, readable and writable from user mode, backed by a
    /// frame of `allocator` that the area owns. Returns the area and the
    /// base address of that frame.
    pub fn make_initial_user_stack(allocator: &mut FrameAllocator, user_stack_va: VirtAddr) -> (r:
        Result<(Self, PhysAddr), AllocError>)
        requires
            old(allocator).wf(),
            user_stack_va.0 + 4096 + 4095 <= u64::MAX,
        ensures
            final(allocator).wf(),
            final(allocator).allocated_since(old(allocator)),
            match r {
                Ok((area, pa)) => {
                    &&& area.virt_frame_range.begin.number == user_stack_va.0 / 4096
                    &&& area.virt_frame_range.end.number == (user_stack_va.0 + 4096 + 4095) / 4096
                    &&& area.virt_frames@.dom() == set![user_stack_va.0]
                    &&& area.virt_frames@[user_stack_va.0] is ExclusivelyAllocated
                    &&& area.virt_frames@[user_stack_va.0].frame().number * 4096 == pa.0
                    &&& area.permissions.bits == PageFlags::READABLE | PageFlags::WRITABLE
                        | PageFlags::USER
                    &&& !area.is_identically_mapped
                    &&& area.name@ == "user stack"@
                    &&& final(allocator).owns_frame(pa.0 / 4096)
                    &&& !old(allocator).owns_frame(pa.0 / 4096)
                    &&& final(allocator).free_frames() == old(allocator).free_frames() - 1
                },
                Err(e) => {
                    &&& e == AllocError::ENoFrame
                    &&& old(allocator).free_frames() == 0
                    &&& final(allocator).page_allocated@ == old(allocator).page_allocated@
                },
            },
    {
        let va_begin: VirtAddr = user_stack_va;
        let va_end: VirtAddr = user_stack_va.plus(PAGE_SIZE);
        let perms: PageFlags = PageFlags::from_bits_retain(
            PageFlags::READABLE | PageFlags::WRITABLE | PageFlags::USER,
        );
        let mut virt_area: VirtArea = VirtArea::new(va_begin, va_end, perms);
        let phys_frame: FrameGuard = match FrameGuard::allocate_zeroed(allocator) {
            Ok(guard) => guard,
            Err(e) => {
                return Err(e);
            },
        };
        let pa: PhysAddr = phys_frame.get_frame().get_base_phys_addr();
        virt_area.track_frame(va_begin, VirtFrameGuard::ExclusivelyAllocated(phys_frame));
        virt_area.set_name("user stack");
        assert(virt_area.virt_frames@.dom() =~= set![user_stack_va.0]);
        Ok((virt_area, pa))
    }

    pub fn permissions(&self) -> (r: PageFlags)
        ensures
            r == self.permissions,
    {
        self.permissions
    }

    /// Lets `frame_guard` back the page at `va`, in place of what backed it.
    pub fn track_frame(&mut self, va: VirtAddr, frame_guard: VirtFrameGuard)
        ensures
            final(self).virt_frames@ == old(self).virt_frames@.insert(va.0, frame_guard),
            final(self).virt_frame_range == old(self).virt_frame_range,
            final(self).permissions == old(self).permissions,
            final(self).is_identically_mapped == old(self).is_identically_mapped,
            final(self).name == old(self).name,
    {
        self.virt_frames.insert(va.as_usize(), frame_guard);
    }

    /// What backs the pages of the area, for changes.
    pub fn get_virt_frames(&mut self) -> (r: &mut BTreeMap<u64, VirtFrameGuard>)
        ensures
            *r == old(self).virt_frames,
            final(self).virt_frames == *final(r),
            final(self).virt_frame_range == old(self).virt_frame_range,
            final(self).permissions == old(self).permissions,
            final(self).is_identically_mapped == old(self).is_identically_mapped,
            final(self).name == old(self).name,
    {
        &mut self.virt_frames
    }

    pub fn set_name(&mut self, name: &str)
        ensures
            final(self).name@ == name@,
            final(self).virt_frame_range == old(self).virt_frame_range,
            final(self).virt_frames == old(self).virt_frames,
            final(self).permissions == old(self).permissions,
            final(self).is_identically_mapped == old(self).is_identically_mapped,
    {
        self.name = name.to_owned();
    }

    /// The addresses at which the area begins and ends, its flags and its
    /// name, as a listing shows them.
    pub fn print_info(&self) -> (r: (u64, u64, PageFlags, &String))
        requires
            self.virt_frame_range.begin.number < crate::mm::memory::FRAME_NUMBER_LIMIT,
            self.virt_frame_range.end.number < crate::mm::memory::FRAME_NUMBER_LIMIT,
        ensures
            r.0 == self.virt_frame_range.end.number * 4096,
            r.1 == self.virt_frame_range.begin.number * 4096,
            r.2 == self.permissions,
            *r.3 == self.name,
    {
        let va_begin: VirtAddr = self.virt_frame_range.get_begin().get_base_virt_addr();
        let va_end: VirtAddr = self.virt_frame_range.get_end().get_base_virt_addr();
        (va_end.as_usize(), va_begin.as_usize(), self.permissions, &self.name)
    }
}

} // verus!

verus! {

/// What a page table holds once it maps the first `k` of `areas`, each over
/// what the ones before it left.
pub open spec fn mapped_upto(areas: Seq<VirtArea>, k: int) -> Map<int, (u64, PTEFlags)>
    decreases k,
{
    if k <= 0 {
        Map::empty()
    } else {
        mapped_upto(areas, k - 1).union_prefer_right(areas[k - 1].entries())
    }
}

/// The ranges of pages of `areas`, each as first and one-past-last page
/// number.
pub open spec fn area_ranges(areas: Seq<VirtArea>) -> Seq<(int, int)> {
    Seq::new(
        areas.len(),
        |i: int|
            (
                areas[i].virt_frame_range.begin.number as int,
                areas[i].virt_frame_range.end.number as int,
            ),
    )
}

/// How many nodes are lacking to map the pages of the ranges from the
/// `i`-th on, one range after the other, where `m` says how many the walk
/// for each page lacks at first.
pub open spec fn ranges_lack(m: spec_fn(int) -> int, ranges: Seq<(int, int)>, i: int) -> int
    decreases ranges.len() - i,
{
    if i < 0 || i >= ranges.len() {
        0
    } else {
        pages_lack(m, ranges[i].0, ranges[i].1) + ranges_lack(
            lacking_after_pages(m, ranges[i].0, ranges[i].1),
            ranges,
            i + 1,
        )
    }
}

/// How many nodes the walk for each page lacks once the pages of the ranges
/// from the `i`-th on are mapped.
pub open spec fn lacking_after_ranges(
    m: spec_fn(int) -> int,
    ranges: Seq<(int, int)>,
    i: int,
) -> spec_fn(int) -> int
    decreases ranges.len() - i,
{
    if i < 0 || i >= ranges.len() {
        m
    } else {
        lacking_after_ranges(lacking_after_pages(m, ranges[i].0, ranges[i].1), ranges, i + 1)
    }
}

/// Ranges lack no negative number of nodes.
pub proof fn lemma_ranges_lack_counts(m: spec_fn(int) -> int, ranges: Seq<(int, int)>, i: int)
    requires
        counts(m),
    ensures
        ranges_lack(m, ranges, i) >= 0,
    decreases ranges.len() - i,
{
    if 0 <= i < ranges.len() {
        lemma_pages_lack_counts(m, ranges[i].0, ranges[i].1);
        lemma_ranges_lack_counts(
            lacking_after_pages(m, ranges[i].0, ranges[i].1),
            ranges,
            i + 1,
        );
    }
}

/// A page whose walk lacks no node lacks none after more ranges are mapped.
pub proof fn lemma_lacking_none_stays_ranges(
    m: spec_fn(int) -> int,
    ranges: Seq<(int, int)>,
    i: int,
    v: int,
)
    requires
        m(v) == 0,
    ensures
        lacking_after_ranges(m, ranges, i)(v) == 0,
    decreases ranges.len() - i,
{
    if 0 <= i < ranges.len() {
        lemma_lacking_none_stays(m, ranges[i].0, ranges[i].1, v);
        lemma_lacking_none_stays_ranges(
            lacking_after_pages(m, ranges[i].0, ranges[i].1),
            ranges,
            i + 1,
            v,
        );
    }
}

/// In a well-formed area that is not mapped identically, each address that
/// a frame is kept for is the base of a backed page of the area, and the
/// area has that frame for the page.
pub proof fn lemma_backings_mapped(area: &VirtArea, va: u64)
    requires
        area.wf(),
        !area.is_identically_mapped,
        area.virt_frames@.contains_key(va),
    ensures
        area.backed(va as int / 4096),
        area.entries().contains_key(va as int / 4096),
        area.entries()[va as int / 4096] == (
            (area.virt_frames@[va].frame().number * 4096) as u64,
            area.entry_flags(),
        ),
{
    assert(((va as int / 4096) * 4096) as u64 == va);
}

/// Each of `areas` is well formed and holds no shared frame, and no two of
/// them share a page.
pub open spec fn areas_ok(areas: Seq<VirtArea>) -> bool {
    &&& forall|i: int| 0 <= i < areas.len() ==> (#[trigger] areas[i]).wf() && !areas[i].has_shared()
    &&& forall|i: int, j: int|
        0 <= i < j < areas.len() ==> (#[trigger] areas[i]).virt_frame_range.end.number <= (
        #[trigger] areas[j]).virt_frame_range.begin.number || areas[j].virt_frame_range.end.number
            <= areas[i].virt_frame_range.begin.number
}

/// A page that is mapped once the first `k` areas are belongs to one of
/// them.
pub proof fn lemma_mapped_is_backed(areas: Seq<VirtArea>, k: int, vpn: int) -> (j: int)
    requires
        0 <= k <= areas.len(),
        mapped_upto(areas, k).contains_key(vpn),
    ensures
        0 <= j < k,
        areas[j].backed(vpn),
    decreases k,
{
    if areas[k - 1].entries().contains_key(vpn) {
        k - 1
    } else {
        lemma_mapped_is_backed(areas, k - 1, vpn)
    }
}

/// Once the first `k` areas are mapped, each page of each of them is mapped
/// as its area has it.
pub proof fn lemma_mapped_holds_area(areas: Seq<VirtArea>, k: int, j: int)
    requires
        areas_ok(areas),
        0 <= j < k <= areas.len(),
    ensures
        areas[j].entries().submap_of(mapped_upto(areas, k)),
    decreases k,
{
    if j < k - 1 {
        lemma_mapped_holds_area(areas, k - 1, j);
        assert forall|vpn: int| areas[j].entries().contains_key(vpn) implies !areas[k
            - 1].entries().contains_key(vpn) by {
            assert(areas[j].backed(vpn));
        }
    }
}

/// One more area at the end changes nothing of what the areas before it
/// give.
pub proof fn lemma_mapped_prefix(areas: Seq<VirtArea>, more: VirtArea, k: int)
    requires
        0 <= k <= areas.len(),
    ensures
        mapped_upto(areas.push(more), k) == mapped_upto(areas, k),
    decreases k,
{
    if k > 0 {
        lemma_mapped_prefix(areas, more, k - 1);
        assert(areas.push(more)[k - 1] == areas[k - 1]);
    }
}

/// An address space: a page table, and the virtual areas that it maps.
pub struct AddrSpace {
    page_table: PageTableGuard,
    virt_areas: Vec<VirtArea>,
}

impl AddrSpace {
    /// The page table of the space.
    pub closed spec fn table(&self) -> PageTableGuard {
        self.page_table
    }

    /// The areas of the space, in the order in which they were mapped.
    pub closed spec fn areas(&self) -> Seq<VirtArea> {
        self.virt_areas@
    }

    /// The page table is a tree, and each area is well formed and holds no
    /// shared frame.
    pub open spec fn valid(&self) -> bool {
        &&& self.table().wf()
        &&& forall|i: int|
            0 <= i < self.areas().len() ==> (#[trigger] self.areas()[i]).wf()
                && !self.areas()[i].has_shared()
    }

    /// The page table maps every backed page of every area as the area has
    /// it.
    pub open spec fn consistent(&self) -> bool {
        forall|i: int|
            0 <= i < self.areas().len() ==> self.table().maps_area(&#[trigger] self.areas()[i])
    }

    /// The first area is the trampoline page.
    pub open spec fn trampoline_first(&self) -> bool {
        &&& self.areas().len() >= 1
        &&& self.areas()[0].virt_frame_range.begin.number == 0x3ff_ffff
        &&& self.areas()[0].virt_frame_range.end.number == 0x400_0000
        &&& !self.areas()[0].is_identically_mapped
        &&& self.areas()[0].virt_frames@.contains_key(TRAMPOLINE_BASE_VA)
        &&& self.areas()[0].virt_frames@[TRAMPOLINE_BASE_VA] is PhysBorrowed
        &&& self.areas()[0].permissions.bits == PageFlags::READABLE | PageFlags::EXECUTABLE
    }

    /// The space is valid, no two of its areas share a page, the trampoline
    /// comes first, and the page table maps the backed pages of the areas
    /// and nothing else.
    pub open spec fn wf(&self) -> bool {
        &&& self.table().wf()
        &&& areas_ok(self.areas())
        &&& self.trampoline_first()
        &&& self.table()@ == mapped_upto(self.areas(), self.areas().len() as int)
    }

    /// A page of the space belongs to an area.
    pub open spec fn covers(&self, vpn: int) -> bool {
        exists|i: int|
            0 <= i < self.areas().len() && (#[trigger] self.areas()[i]).virt_frame_range.begin.number
                <= vpn < self.areas()[i].virt_frame_range.end.number
    }

    /// A well-formed space is valid and consistent.
    pub proof fn lemma_wf_consistent(&self)
        requires
            self.wf(),
        ensures
            self.valid(),
            self.consistent(),
    {
        assert forall|i: int| 0 <= i < self.areas().len() implies self.table().maps_area(
            &#[trigger] self.areas()[i],
        ) by {
            lemma_mapped_holds_area(self.areas(), self.areas().len() as int, i);
        }
    }

    /// The page table of the space.
    pub fn get_page_table(&self) -> (r: &PageTableGuard)
        ensures
            *r == self.table(),
    {
        &self.page_table
    }

    /// How many areas the space has.
    pub fn n_areas(&self) -> (r: usize)
        ensures
            r == self.areas().len(),
    {
        self.virt_areas.len()
    }

    /// The `i`-th area of the space.
    pub fn area(&self, i: usize) -> (r: &VirtArea)
        requires
            i < self.areas().len(),
        ensures
            *r == self.areas()[i as int],
    {
        &self.virt_areas[i]
    }

    /// Whether the page table maps every backed page of every area as the
    /// area has it.
    pub fn verify(&self) -> (r: bool)
        requires
            self.valid(),
        ensures
            r == self.consistent(),
            self.wf() ==> r,
    {
        proof {
            if self.wf() {
                self.lemma_wf_consistent();
            }
        }
        let mut i: usize = self.virt_areas.len();
        while i > 0
            invariant
                self.valid(),
                self.wf() ==> self.consistent(),
                i <= self.areas().len(),
                forall|j: int|
                    i <= j < self.areas().len() ==> self.table().maps_area(
                        &#[trigger] self.areas()[j],
                    ),
            decreases i,
        {
            i = i - 1;
            assert(self.areas()[i as int].wf());
            if !self.page_table.verify_virt_area_mapping(&self.virt_areas[i]) {
                return false;
            }
        }
        true
    }

    /// The value of the address-translation register that selects this
    /// space.
    pub fn make_satp(&self) -> (r: u64)
        requires
            self.table().wf(),
        ensures
            r == 0x8000_0000_0000_0000 + self.table().frame_no(0),
    {
        self.page_table.make_satp()
    }

    /// The frame of the root of the page table, which the
    /// address-translation register names when the space is loaded.
    pub fn get_root_frame(&self) -> (r: Frame)
        requires
            self.table().wf(),
        ensures
            r.number == self.table().frame_no(0),
    {
        self.page_table.get_root_frame()
    }

    /// The physical address that `va` is mapped to, with the flags of the
    /// mapping, or `None` where an entry on the way is not valid.
    pub fn translate(&self, va: VirtAddr) -> (r: Option<(PhysAddr, PageFlags)>)
        requires
            self.table().wf(),
        ensures
            r == match self.table().spec_translate(va.0) {
                Some((pa, flags)) => Some((pa, PageFlags { bits: flags.bits })),
                None => None,
            },
    {
        match self.page_table.translate(va) {
            Some((pa, pte_flags)) => Some((pa, PageFlags::from_pte_flags(pte_flags))),
            None => None,
        }
    }

    /// Whether the space can be locked and unlocked: whether it maps the
    /// page of each node of its page table far enough for the entry of the
    /// page to exist.
    pub fn can_lock(&self) -> (r: bool)
        requires
            self.table().wf(),
        ensures
            r == self.table().reaches_nodes(),
    {
        self.page_table.nodes_are_reached()
    }

    /// Whether the frames of the page table are handed out by `allocator`.
    pub fn is_owned_by(&self, allocator: &FrameAllocator) -> (r: bool)
        requires
            self.table().wf(),
        ensures
            r == self.table().owned_by(allocator),
    {
        self.page_table.is_owned_by(allocator)
    }

    /// Makes the pages of the nodes of the page table read-only in this
    /// space. The caller runs under another address space meanwhile.
    pub fn lock_space(&mut self)
        requires
            old(self).table().wf(),
            old(self).table().reaches_nodes(),
        ensures
            final(self).areas() == old(self).areas(),
            final(self).table().wf(),
            final(self).table().reaches_nodes(),
            final(self).table().rewritten_from(
                &old(self).table(),
                false,
                old(self).table().node_count(),
            ),
            final(self).table().frame_no(0) == old(self).table().frame_no(0),
    {
        proof {
            self.page_table.lemma_has_root();
        }
        self.page_table.lock_table();
    }

    /// Makes the pages of the nodes of the page table writable in this
    /// space again. The caller runs under another address space meanwhile.
    pub fn unlock_space(&mut self)
        requires
            old(self).table().wf(),
            old(self).table().reaches_nodes(),
        ensures
            final(self).areas() == old(self).areas(),
            final(self).table().wf(),
            final(self).table().reaches_nodes(),
            final(self).table().rewritten_from(
                &old(self).table(),
                true,
                old(self).table().node_count(),
            ),
            final(self).table().frame_no(0) == old(self).table().frame_no(0),
    {
        proof {
            self.page_table.lemma_has_root();
        }
        self.page_table.unlock_table();
    }

    /// The space of the given areas: a new page table that maps them one
    /// after the other.
    fn from_areas(allocator: &mut FrameAllocator, virt_areas: Vec<VirtArea>) -> (r: Result<
        Self,
        AllocError,
    >)
        requires
            old(allocator).wf(),
            areas_ok(virt_areas@),
        ensures
            final(allocator).wf(),
            final(allocator).allocated_since(old(allocator)),
            r is Ok <==> old(allocator).free_frames() >= 1 + ranges_lack(
                fresh_lacks(),
                area_ranges(virt_areas@),
                0,
            ),
            match r {
                Ok(space) => {
                    &&& space.areas() == virt_areas@
                    &&& space.table().wf()
                    &&& space.table().owned_by(final(allocator))
                    &&& space.table()@ == mapped_upto(virt_areas@, virt_areas@.len() as int)
                    &&& space.table().lacks() == lacking_after_ranges(
                        fresh_lacks(),
                        area_ranges(virt_areas@),
                        0,
                    )
                    &&& final(allocator).free_frames() == old(allocator).free_frames() - 1
                        - ranges_lack(fresh_lacks(), area_ranges(virt_areas@), 0)
                },
                Err(e) => {
                    &&& e == AllocError::ENoFrame
                    &&& final(allocator).free_frames() == 0
                },
            },
    {
        let ghost ranges = area_ranges(virt_areas@);
        let ghost total = ranges_lack(fresh_lacks(), ranges, 0);
        let ghost shape = lacking_after_ranges(fresh_lacks(), ranges, 0);
        proof {
            lemma_fresh_counts();
            lemma_ranges_lack_counts(fresh_lacks(), ranges, 0);
        }
        let mut page_table: PageTableGuard = match PageTableGuard::allocate(allocator) {
            Ok(table) => table,
            Err(e) => {
                return Err(e);
            },
        };
        let n: usize = virt_areas.len();
        let mut i: usize = 0;
        while i < n
            invariant
                i <= n,
                n == virt_areas@.len(),
                areas_ok(virt_areas@),
                ranges == area_ranges(virt_areas@),
                allocator.wf(),
                allocator.allocated_since(old(allocator)),
                page_table.wf(),
                page_table.owned_by(allocator),
                page_table@ == mapped_upto(virt_areas@, i as int),
                total == ranges_lack(fresh_lacks(), ranges, 0),
                shape == lacking_after_ranges(fresh_lacks(), ranges, 0),
                total == old(allocator).free_frames() - 1 - allocator.free_frames() + ranges_lack(
                    page_table.lacks(),
                    ranges,
                    i as int,
                ),
                shape == lacking_after_ranges(page_table.lacks(), ranges, i as int),
            decreases n - i,
        {
            proof {
                assert(virt_areas@[i as int].wf());
                assert forall|vpn: int| virt_areas@[i as int].backed(vpn) implies !page_table@.contains_key(
                    vpn,
                ) by {
                    if page_table@.contains_key(vpn) {
                        let j = lemma_mapped_is_backed(virt_areas@, i as int, vpn);
                        assert(virt_areas@[j].backed(vpn));
                    }
                }
                assert(ranges[i as int] == (
                    virt_areas@[i as int].virt_frame_range.begin.number as int,
                    virt_areas@[i as int].virt_frame_range.end.number as int,
                ));
                page_table.lemma_lacks_counts();
                lemma_pages_lack_counts(page_table.lacks(), ranges[i as int].0, ranges[i as int].1);
                lemma_ranges_lack_counts(
                    lacking_after_pages(page_table.lacks(), ranges[i as int].0, ranges[i as int].1),
                    ranges,
                    i + 1,
                );
            }
            match page_table.map_virt_area_allocate(allocator, &virt_areas[i]) {
                Ok(_) => {},
                Err(e) => {
                    return Err(e);
                },
            }
            i = i + 1;
        }
        proof {
            crate::allocator::frame_allocator::lemma_free_frames_bounds(*allocator);
        }
        Ok(Self { page_table, virt_areas })
    }
}

} // verus!

verus! {

/// The ranges of pages that the kernel maps, in the order in which it maps
/// them: the trampoline page, then those that it maps identically.
pub open spec fn kernel_page_ranges(s: KernelSections) -> Seq<(int, int)> {
    seq![(0x3ff_ffffint, 0x400_0000int)] + kernel_ranges(s)
}

/// The flags of the `i`-th range that the kernel maps identically: `.text`
/// readable and executable, `.rodata` readable, all others readable and
/// writable.
pub open spec fn kernel_perms(i: int) -> u16 {
    if i == 4 {
        2
    } else if i == 5 {
        10
    } else {
        6
    }
}

impl AddrSpace {
    /// The identically mapped area of a kernel section.
    fn kernel_area(pa_begin: u64, pa_end: u64, perms: u16, name: &str) -> (r: VirtArea)
        requires
            pa_begin / 4096 <= (pa_end + 4095) / 4096 <= 0x3ff_ffff,
            perms < 1024,
        ensures
            r.virt_frame_range.begin.number == pa_begin / 4096,
            r.virt_frame_range.end.number == (pa_end + 4095) / 4096,
            r.permissions.bits == perms,
            r.is_identically_mapped,
            r.wf(),
            !r.has_shared(),
    {
        let mut area: VirtArea = VirtArea::identically_mapped(
            PhysAddr::new(pa_begin),
            PhysAddr::new(pa_end),
            PageFlags::from_bits_retain(perms),
        );
        area.set_name(name);
        area
    }

    /// The address space of the kernel: the trampoline page, and then,
    /// mapped identically, the heap, the boot stack, `.bss`, `.data`,
    /// `.rodata`, `.text`, and the registers of virtio, UART, PLIC and
    /// CLINT.
    pub fn make_kernel(allocator: &mut FrameAllocator, sections: &KernelSections) -> (r: Result<
        Self,
        AllocError,
    >)
        requires
            old(allocator).wf(),
            sections.wf(),
        ensures
            final(allocator).wf(),
            final(allocator).allocated_since(old(allocator)),
            r is Ok <==> old(allocator).free_frames() >= 1 + ranges_lack(
                fresh_lacks(),
                kernel_page_ranges(*sections),
                0,
            ),
            match r {
                Ok(space) => {
                    &&& space.wf()
                    &&& space.table().owned_by(final(allocator))
                    &&& space.areas().len() == 11
                    &&& space.areas()[0].virt_frames@[TRAMPOLINE_BASE_VA].frame().number
                        == sections.trampoline_start / 4096
                    &&& forall|i: int|
                        0 <= i < 10 ==> {
                            &&& (#[trigger] space.areas()[i + 1]).is_identically_mapped
                            &&& space.areas()[i + 1].virt_frame_range.begin.number
                                == kernel_ranges(*sections)[i].0
                            &&& space.areas()[i + 1].virt_frame_range.end.number == kernel_ranges(
                                *sections,
                            )[i].1
                            &&& space.areas()[i + 1].permissions.bits == kernel_perms(i)
                        }
                },
                Err(e) => {
                    &&& e == AllocError::ENoFrame
                    &&& final(allocator).free_frames() == 0
                },
            },
    {
        proof {
            assert(2u16 | 4u16 == 6u16 && 2u16 | 8u16 == 10u16) by (bit_vector);
            assert forall|i: int| 0 <= i < 10 implies (#[trigger] kernel_ranges(*sections)[i]).0
                <= kernel_ranges(*sections)[i].1 <= 0x3ff_ffff by {}
        }
        let ghost ranges = kernel_ranges(*sections);
        assert(ranges[0].0 <= ranges[0].1 <= 0x3ff_ffff);
        assert(ranges[1].0 <= ranges[1].1 <= 0x3ff_ffff);
        assert(ranges[2].0 <= ranges[2].1 <= 0x3ff_ffff);
        assert(ranges[3].0 <= ranges[3].1 <= 0x3ff_ffff);
        assert(ranges[4].0 <= ranges[4].1 <= 0x3ff_ffff);
        assert(ranges[5].0 <= ranges[5].1 <= 0x3ff_ffff);
        let rw: u16 = PageFlags::READABLE | PageFlags::WRITABLE;
        let rx: u16 = PageFlags::READABLE | PageFlags::EXECUTABLE;
        let mut virt_areas: Vec<VirtArea> = Vec::new();
        virt_areas.push(VirtArea::make_trampoline(PhysAddr::new(sections.trampoline_start)));
        virt_areas.push(Self::kernel_area(sections.heap_start, sections.heap_end, rw, "heap"));
        virt_areas.push(
            Self::kernel_area(
                sections.kernel_stack_start,
                sections.kernel_stack_end,
                rw,
                "kernel boot stack",
            ),
        );
        virt_areas.push(
            Self::kernel_area(sections.bss_start, sections.bss_end, rw, ".bss (+kernel heap)"),
        );
        virt_areas.push(Self::kernel_area(sections.data_start, sections.data_end, rw, ".data"));
        virt_areas.push(
            Self::kernel_area(
                sections.rodata_start,
                sections.rodata_end,
                PageFlags::READABLE,
                ".rodata",
            ),
        );
        virt_areas.push(Self::kernel_area(sections.text_start, sections.text_end, rx, ".text"));
        virt_areas.push(Self::kernel_area(VIRTIO_BASE, VIRTIO_BASE + VIRTIO_SIZE, rw, "virtio"));
        virt_areas.push(Self::kernel_area(UART_BASE, UART_BASE + UART_SIZE, rw, "uart"));
        virt_areas.push(Self::kernel_area(PLIC_BASE, PLIC_BASE + PLIC_SIZE, rw, "plic"));
        virt_areas.push(Self::kernel_area(CLINT_BASE, CLINT_BASE + CLINT_SIZE, rw, "clint"));
        proof {
            let areas = virt_areas@;
            assert(areas.len() == 11);
            assert(areas[0].wf() && !areas[0].has_shared());
            assert forall|i: int| 0 <= i < 10 implies {
                &&& (#[trigger] areas[i + 1]).is_identically_mapped
                &&& areas[i + 1].virt_frame_range.begin.number == ranges[i].0
                &&& areas[i + 1].virt_frame_range.end.number == ranges[i].1
                &&& areas[i + 1].permissions.bits == kernel_perms(i)
                &&& areas[i + 1].wf()
                &&& !areas[i + 1].has_shared()
            } by {
                if i == 0 {
                } else if i == 1 {
                } else if i == 2 {
                } else if i == 3 {
                } else if i == 4 {
                } else if i == 5 {
                } else if i == 6 {
                } else if i == 7 {
                } else if i == 8 {
                } else {
                }
            }
            assert forall|i: int| 0 <= i < areas.len() implies (#[trigger] areas[i]).wf()
                && !areas[i].has_shared() by {
                if i > 0 {
                    assert(areas[(i - 1) + 1].wf());
                }
            }
            assert forall|i: int, j: int| 0 <= i < j < areas.len() implies (
            #[trigger] areas[i]).virt_frame_range.end.number <= (
            #[trigger] areas[j]).virt_frame_range.begin.number
                || areas[j].virt_frame_range.end.number
                <= areas[i].virt_frame_range.begin.number by {
                assert(areas[(j - 1) + 1].virt_frame_range.end.number == ranges[j - 1].1);
                assert(ranges[j - 1].1 <= 0x3ff_ffff);
                if i > 0 {
                    assert(areas[(i - 1) + 1].virt_frame_range.end.number == ranges[i - 1].1);
                    assert(ranges[i - 1].1 <= ranges[j - 1].0 || ranges[j - 1].1 <= ranges[i
                        - 1].0);
                }
            }
            assert(area_ranges(areas) =~= kernel_page_ranges(*sections)) by {
                assert forall|i: int| 0 <= i < 11 implies area_ranges(areas)[i]
                    == kernel_page_ranges(*sections)[i] by {
                    if i > 0 {
                        assert(areas[(i - 1) + 1].virt_frame_range.end.number == ranges[i - 1].1);
                    }
                }
            }
        }
        Self::from_areas(allocator, virt_areas)
    }

    /// The address space of the first user process: the trampoline page, one
    /// page of user stack, and the text of the program. The text is the
    /// `init_text_len` bytes from the frame of `init_text` on, which lie in
    /// the kernel image; it is mapped page by page from the base of program
    /// text on, and the stack page lies right above its last page. The
    /// trapframe is not mapped yet.
    pub fn make_init(
        allocator: &mut FrameAllocator,
        trampoline_start: PhysAddr,
        init_text: PhysAddr,
        init_text_len: u64,
    ) -> (r: Result<Self, AllocError>)
        requires
            old(allocator).wf(),
            trampoline_start.0 < MAX_PA,
            init_text.0 + init_text_len + 4096 <= MAX_PA,
            TEXT_BASE_USER_VA + init_text_len + 3 * 4096 <= TRAPFRAME_BASE_USER_VA,
        ensures
            final(allocator).wf(),
            final(allocator).allocated_since(old(allocator)),
            r is Ok <==> old(allocator).free_frames() >= 2 + ranges_lack(
                fresh_lacks(),
                Self::init_ranges(init_text_len),
                0,
            ),
            match r {
                Ok(space) => {
                    &&& space.wf()
                    &&& space.table().owned_by(final(allocator))
                    &&& space.areas().len() == 3
                    &&& final(allocator).free_frames() == old(allocator).free_frames() - 2
                        - ranges_lack(fresh_lacks(), Self::init_ranges(init_text_len), 0)
                    &&& !space.covers(Self::trapframe_vpn())
                    &&& space.table().missing_levels(Self::trapframe_vpn()) == 0
                    &&& space.areas()[0].virt_frames@[TRAMPOLINE_BASE_VA].frame().number
                        == trampoline_start.0 / 4096
                    &&& space.areas()[1].virt_frame_range.begin.number == Self::init_stack_vpn(
                        init_text_len,
                    )
                    &&& space.areas()[1].virt_frame_range.end.number == Self::init_stack_vpn(
                        init_text_len,
                    ) + 1
                    &&& !space.areas()[1].is_identically_mapped
                    &&& space.areas()[1].virt_frames@.dom() == set![
                        (Self::init_stack_vpn(init_text_len) * 4096) as u64,
                    ]
                    &&& space.areas()[1].virt_frames@[(Self::init_stack_vpn(init_text_len)
                        * 4096) as u64] is ExclusivelyAllocated
                    &&& final(allocator).owns_frame(
                        space.areas()[1].virt_frames@[(Self::init_stack_vpn(init_text_len)
                            * 4096) as u64].frame().number,
                    )
                    &&& !old(allocator).owns_frame(
                        space.areas()[1].virt_frames@[(Self::init_stack_vpn(init_text_len)
                            * 4096) as u64].frame().number,
                    )
                    &&& space.areas()[1].permissions.bits == 22
                    &&& space.areas()[2].virt_frame_range.begin.number == 16
                    &&& space.areas()[2].virt_frame_range.end.number == Self::init_stack_vpn(
                        init_text_len,
                    )
                    &&& !space.areas()[2].is_identically_mapped
                    &&& forall|vpn: int|
                        16 <= vpn < Self::init_stack_vpn(init_text_len)
                            ==> #[trigger] space.areas()[2].virt_frames@[(vpn * 4096) as u64]
                            == VirtFrameGuard::PhysBorrowed(
                            Frame { number: (init_text.0 / 4096 + vpn - 16) as u64 },
                        )
                    &&& space.areas()[2].permissions.bits == 26
                },
                Err(e) => {
                    &&& e == AllocError::ENoFrame
                    &&& final(allocator).free_frames() == 0
                },
            },
    {
        proof {
            assert(2u16 | 4u16 | 16u16 == 22u16 && 2u16 | 8u16 | 16u16 == 26u16 && 2u16 | 8u16
                == 10u16) by (bit_vector);
            lemma_fresh_counts();
            lemma_ranges_lack_counts(fresh_lacks(), Self::init_ranges(init_text_len), 0);
        }
        let mut virt_areas: Vec<VirtArea> = Vec::new();
        let text_va_begin: VirtAddr = VirtAddr::new(TEXT_BASE_USER_VA);
        let text_va_end: VirtAddr = text_va_begin.plus(init_text_len).align_up();
        let user_stack_va: VirtAddr = text_va_end;
        virt_areas.push(VirtArea::make_trampoline(trampoline_start));
        let stack_area: VirtArea = match VirtArea::make_initial_user_stack(
            allocator,
            user_stack_va,
        ) {
            Ok((area, _)) => area,
            Err(e) => {
                return Err(e);
            },
        };
        virt_areas.push(stack_area);
        let perms: PageFlags = PageFlags::from_bits_retain(
            PageFlags::READABLE | PageFlags::EXECUTABLE | PageFlags::USER,
        );
        let mut text_area: VirtArea = VirtArea::new(text_va_begin, text_va_end, perms);
        let first: u64 = Frame::from_phys_addr(init_text).number;
        let n_pages: u64 = text_va_end.as_usize() / PAGE_SIZE - TEXT_BASE_USER_VA / PAGE_SIZE;
        let mut page: u64 = 0;
        while page < n_pages
            invariant
                page <= n_pages,
                n_pages == Self::init_stack_vpn(init_text_len) - 16,
                first == init_text.0 / 4096,
                init_text.0 + init_text_len + 4096 <= MAX_PA,
                TEXT_BASE_USER_VA + init_text_len + 3 * 4096 <= TRAPFRAME_BASE_USER_VA,
                text_area.virt_frame_range.begin.number == 16,
                text_area.virt_frame_range.end.number == Self::init_stack_vpn(init_text_len),
                text_area.permissions == perms,
                !text_area.is_identically_mapped,
                forall|va: u64|
                    text_area.virt_frames@.contains_key(va) <==> va % 4096 == 0 && 16 <= va / 4096
                        < 16 + page,
                forall|vpn: int|
                    16 <= vpn < 16 + page ==> #[trigger] text_area.virt_frames@[(vpn
                        * 4096) as u64] == VirtFrameGuard::PhysBorrowed(
                        Frame { number: (init_text.0 / 4096 + vpn - 16) as u64 },
                    ),
            decreases n_pages - page,
        {
            let ghost before = text_area.virt_frames@;
            let va: VirtAddr = VirtAddr::new(TEXT_BASE_USER_VA + page * PAGE_SIZE);
            let phys_frame: Frame = Frame::from_ppn(first + page);
            text_area.track_frame(va, VirtFrameGuard::PhysBorrowed(phys_frame));
            page = page + 1;
            proof {
                assert forall|vpn: int| 16 <= vpn < 16 + page implies #[trigger] text_area.virt_frames@[(
                vpn * 4096) as u64] == VirtFrameGuard::PhysBorrowed(
                    Frame { number: (init_text.0 / 4096 + vpn - 16) as u64 },
                ) by {
                    if vpn < 16 + page - 1 {
                        assert(before[(vpn * 4096) as u64] == VirtFrameGuard::PhysBorrowed(
                            Frame { number: (init_text.0 / 4096 + vpn - 16) as u64 },
                        ));
                    }
                }
            }
        }
        text_area.set_name(".text");
        virt_areas.push(text_area);
        let ghost mid_allocator = *allocator;
        proof {
            let areas = virt_areas@;
            assert(areas[0].wf() && !areas[0].has_shared());
            assert(areas[1].wf() && !areas[1].has_shared()) by {
                assert(areas[1].virt_frames@.dom().contains(user_stack_va.0));
                assert(mid_allocator.owns_frame(
                    areas[1].virt_frames@[user_stack_va.0].frame().number,
                ));
                assert(mid_allocator.base_addr / 4096 + mid_allocator.page_allocated@.len()
                    <= 0x1000_0000_0000);
                assert(areas[1].backed(Self::init_stack_vpn(init_text_len)));
            }
            assert(areas[2].wf() && !areas[2].has_shared()) by {
                assert forall|vpn: int|
                    areas[2].virt_frame_range.begin.number <= vpn
                        < areas[2].virt_frame_range.end.number implies #[trigger] areas[2].backed(
                    vpn,
                ) by {
                    assert(areas[2].virt_frames@.contains_key((vpn * 4096) as u64));
                }
                assert forall|va: u64| #[trigger]
                    areas[2].virt_frames@.contains_key(va) implies areas[2].virt_frames@[va].frame().number
                    < 0x1000_0000_0000 by {
                    let vpn = va as int / 4096;
                    assert((vpn * 4096) as u64 == va);
                    assert(areas[2].virt_frames@[(vpn * 4096) as u64]
                        == VirtFrameGuard::PhysBorrowed(
                        Frame { number: (init_text.0 / 4096 + vpn - 16) as u64 },
                    ));
                }
                assert forall|vpn: int|
                    #![trigger areas[2].backed(vpn)]
                    !(areas[2].backed(vpn) && areas[2].virt_frames@[(vpn * 4096) as u64]
                        is CowShared) by {
                    if areas[2].backed(vpn) {
                        assert(areas[2].virt_frames@[(vpn * 4096) as u64]
                            == VirtFrameGuard::PhysBorrowed(
                            Frame { number: (init_text.0 / 4096 + vpn - 16) as u64 },
                        ));
                    }
                }
            }
            assert(area_ranges(areas) =~= Self::init_ranges(init_text_len));
        }
        match Self::from_areas(allocator, virt_areas) {
            Ok(space) => {
                proof {
                    assert(!space.covers(Self::trapframe_vpn())) by {
                        assert forall|i: int| 0 <= i < space.areas().len() implies !((
                        #[trigger] space.areas()[i]).virt_frame_range.begin.number
                            <= Self::trapframe_vpn()
                            < space.areas()[i].virt_frame_range.end.number) by {
                            if i == 0 {
                            } else if i == 1 {
                            } else {
                            }
                        }
                    }
                    let ranges = Self::init_ranges(init_text_len);
                    let tf = Self::trapframe_vpn();
                    reveal_with_fuel(lacking_after_ranges, 2);
                    reveal_with_fuel(lacking_after_pages, 2);
                    let after_trampoline = lacking_after_pages(
                        fresh_lacks(),
                        0x3ff_ffff,
                        0x400_0000,
                    );
                    assert(after_trampoline(tf) == 0);
                    lemma_lacking_none_stays_ranges(after_trampoline, ranges, 1, tf);
                    space.table().lemma_lacks(tf);
                    space.table().lemma_owned_later(&*allocator, allocator);
                }
                Ok(space)
            },
            Err(e) => Err(e),
        }
    }

    /// The ranges of pages of the first user process, in the order in which
    /// they are mapped: the trampoline page, the stack page, and the pages of
    /// the text.
    pub open spec fn init_ranges(init_text_len: u64) -> Seq<(int, int)> {
        seq![
            (0x3ff_ffffint, 0x400_0000int),
            (Self::init_stack_vpn(init_text_len), Self::init_stack_vpn(init_text_len) + 1),
            (16int, Self::init_stack_vpn(init_text_len)),
        ]
    }

    /// The page number of the trapframe page.
    pub open spec fn trapframe_vpn() -> int {
        0x3ff_fffd
    }

    /// The page number of the stack page of the first user process, for a
    /// program text of `init_text_len` bytes: the page right above the pages
    /// of the text.
    pub open spec fn init_stack_vpn(init_text_len: u64) -> int {
        (TEXT_BASE_USER_VA + init_text_len + 4095) / 4096
    }

    /// The area `area` is that of a trapframe in the frame at `pa`: the one
    /// page of the trapframe, readable and writable and not for user mode,
    /// backed by that frame, which the area owns.
    pub open spec fn is_trapframe_area(area: VirtArea, pa: PhysAddr) -> bool {
        &&& area.virt_frame_range.begin.number == Self::trapframe_vpn()
        &&& area.virt_frame_range.end.number == Self::trapframe_vpn() + 1
        &&& !area.is_identically_mapped
        &&& area.permissions.bits == 6
        &&& area.virt_frames@.dom() == set![TRAPFRAME_BASE_USER_VA]
        &&& area.virt_frames@[TRAPFRAME_BASE_USER_VA] is ExclusivelyAllocated
        &&& area.virt_frames@[TRAPFRAME_BASE_USER_VA].frame().number * 4096 == pa.0
    }

    /// Gives the space a trapframe: a page below the trampoline, backed by a
    /// new frame of `allocator`. Returns the base address of that frame.
    pub fn init_trapframe(&mut self, allocator: &mut FrameAllocator) -> (r: Result<
        PhysAddr,
        AllocError,
    >)
        requires
            old(self).wf(),
            old(allocator).wf(),
            old(self).table().owned_by(old(allocator)),
            !old(self).covers(Self::trapframe_vpn()),
        ensures
            final(allocator).wf(),
            final(allocator).allocated_since(old(allocator)),
            final(self).wf(),
            final(self).table().owned_by(final(allocator)),
            final(self).table().node_count() >= old(self).table().node_count(),
            final(self).table().frame_no(0) == old(self).table().frame_no(0),
            forall|i: int|
                0 <= i < old(self).table().node_count() ==> #[trigger] final(self).table().frame_no(i) == old(self).table().frame_no(i),
            r is Ok <==> old(allocator).free_frames() >= 1 + old(self).table().missing_levels(
                Self::trapframe_vpn(),
            ),
            match r {
                Ok(pa) => {
                    &&& pa.0 % 4096 == 0
                    &&& pa.0 < MAX_PA
                    &&& final(allocator).owns_frame(pa.0 / 4096)
                    &&& !old(allocator).owns_frame(pa.0 / 4096)
                    &&& final(allocator).free_frames() == old(allocator).free_frames() - 1 - old(self).table().missing_levels(Self::trapframe_vpn())
                    &&& Self::is_trapframe_area(
                        final(self).areas()[old(self).areas().len() as int],
                        pa,
                    )
                    &&& final(self).areas().len() == old(self).areas().len() + 1
                    &&& forall|i: int|
                        0 <= i < old(self).areas().len() ==> #[trigger] final(self).areas()[i]
                            == old(self).areas()[i]
                    &&& final(self).covers(Self::trapframe_vpn())
                    &&& final(self).table()@ == old(self).table()@.insert(
                        Self::trapframe_vpn(),
                        (pa.0, PTEFlags { bits: 7 }),
                    )
                },
                Err(e) => {
                    &&& e == AllocError::ENoFrame
                    &&& final(allocator).free_frames() == 0
                    &&& final(self).areas() == old(self).areas()
                    &&& final(self).table()@ == old(self).table()@
                },
            },
    {
        proof {
            assert(2u16 | 4u16 == 6u16 && 6u16 | 1u16 == 7u16) by (bit_vector);
            self.page_table.lemma_missing_levels(Self::trapframe_vpn());
            self.page_table.lemma_lacks(Self::trapframe_vpn());
            reveal_with_fuel(pages_lack, 2);
        }
        let ghost start_allocator = *allocator;
        let (area, pa) = match VirtArea::make_trapframe(allocator) {
            Ok(made) => made,
            Err(e) => {
                proof {
                    crate::allocator::frame_allocator::lemma_same_free_frames(
                        start_allocator,
                        *allocator,
                    );
                    self.page_table.lemma_owned_later(&start_allocator, allocator);
                }
                return Err(e);
            },
        };
        let ghost vpn = Self::trapframe_vpn();
        let ghost before = self.table()@;
        proof {
            self.page_table.lemma_owned_later(&start_allocator, allocator);
            assert(area.virt_frames@.dom().contains(TRAPFRAME_BASE_USER_VA));
            assert(allocator.base_addr / 4096 + allocator.page_allocated@.len()
                <= 0x1000_0000_0000);
            assert(area.backed(Self::trapframe_vpn()));
            assert(area.wf());
            assert(!area.has_shared());
            assert forall|v: int| area.backed(v) implies !self.page_table@.contains_key(v) by {
                if self.page_table@.contains_key(v) {
                    let j = lemma_mapped_is_backed(self.areas(), self.areas().len() as int, v);
                    assert(self.areas()[j].backed(v));
                }
            }
            assert(area.entries_below(vpn) =~= Map::<int, (u64, PTEFlags)>::empty());
            assert(area.entries() =~= Map::<int, (u64, PTEFlags)>::empty().insert(
                vpn,
                (pa.0, PTEFlags { bits: 7 }),
            ));
        }
        let ghost mid_allocator = *allocator;
        match self.page_table.map_virt_area_allocate(allocator, &area) {
            Ok(_) => {},
            Err(e) => {
                proof {
                    assert(allocator.allocated_since(old(allocator)));
                    assert(self.page_table@ =~= before);
                }
                return Err(e);
            },
        }
        let ghost old_areas = self.areas();
        self.virt_areas.push(area);
        proof {
            assert(allocator.allocated_since(old(allocator)));
            lemma_mapped_prefix(old_areas, area, old_areas.len() as int);
            assert(self.areas()[old_areas.len() as int] == area);
            assert(self.page_table@ =~= before.insert(vpn, (pa.0, PTEFlags { bits: 7 })));
            assert(areas_ok(self.areas())) by {
                assert forall|i: int| 0 <= i < self.areas().len() implies (
                #[trigger] self.areas()[i]).wf() && !self.areas()[i].has_shared() by {
                    if i < old_areas.len() {
                        assert(self.areas()[i] == old_areas[i]);
                    }
                }
                assert forall|i: int, j: int| 0 <= i < j < self.areas().len() implies (
                #[trigger] self.areas()[i]).virt_frame_range.end.number <= (
                #[trigger] self.areas()[j]).virt_frame_range.begin.number
                    || self.areas()[j].virt_frame_range.end.number
                    <= self.areas()[i].virt_frame_range.begin.number by {
                    assert(self.areas()[i] == old_areas[i]);
                    if j < old_areas.len() {
                        assert(self.areas()[j] == old_areas[j]);
                    }
                }
            }
            assert(self.areas()[0] == old_areas[0]);
        }
        Ok(pa)
    }
}

} // verus!

verus! {

impl VirtArea {
    /// The page with number `vpn` is backed by a frame that the area owns.
    pub open spec fn exclusive_at(&self, vpn: int) -> bool {
        &&& self.backed(vpn)
        &&& !self.is_identically_mapped
        &&& self.virt_frames@[(vpn * 4096) as u64] is ExclusivelyAllocated
    }

    /// The page number of the frame that backs the page with number `vpn`.
    pub open spec fn frame_at(&self, vpn: int) -> u64 {
        self.virt_frames@[(vpn * 4096) as u64].frame().number
    }

    /// The area owns a frame whose slot in the table of `allocator` is `s`.
    pub open spec fn owns_slot(&self, allocator: &FrameAllocator, s: int) -> bool {
        exists|vpn: int|
            #![trigger self.exclusive_at(vpn)]
            self.exclusive_at(vpn) && allocator.frame_slot(self.frame_at(vpn)) == s
    }

    /// Each frame that the area owns is handed out by `allocator` as an
    /// allocation of its own, and no two pages are backed by the same owned
    /// frame.
    pub open spec fn frames_owned_by(&self, allocator: &FrameAllocator) -> bool {
        &&& forall|vpn: int| #[trigger]
            self.exclusive_at(vpn) ==> allocator.owns_frame(self.frame_at(vpn))
        &&& forall|v1: int, v2: int|
            #![trigger self.exclusive_at(v1), self.exclusive_at(v2)]
            self.exclusive_at(v1) && self.exclusive_at(v2) && v1 != v2 ==> self.frame_at(v1)
                != self.frame_at(v2)
    }

    /// Hands the frames that the area owns back to `allocator`. The area is
    /// no more.
    pub fn release(self, allocator: &mut FrameAllocator)
        requires
            self.wf(),
            old(allocator).wf(),
            self.frames_owned_by(old(allocator)),
        ensures
            final(allocator).wf(),
            final(allocator).base_addr == old(allocator).base_addr,
            final(allocator).page_allocated@.len() == old(allocator).page_allocated@.len(),
            forall|s: int|
                0 <= s < old(allocator).page_allocated@.len() ==> final(allocator).page_allocated@[s] == if self.owns_slot(old(allocator), s) {
                    0
                } else {
                    old(allocator).page_allocated@[s]
                },
    {
        let end: VirtFrame = self.virt_frame_range.get_end();
        let mut v_frame: VirtFrame = self.virt_frame_range.get_begin();
        let identity: bool = self.is_identically_mapped;
        let mut frames: BTreeMap<u64, VirtFrameGuard> = self.virt_frames;
        let ghost begin = v_frame.number as int;
        while !v_frame.same_position(&end)
            invariant
                self.wf(),
                self.frames_owned_by(old(allocator)),
                identity == self.is_identically_mapped,
                end == self.virt_frame_range.end,
                begin == self.virt_frame_range.begin.number,
                begin <= v_frame.number <= end.number,
                allocator.wf(),
                allocator.base_addr == old(allocator).base_addr,
                allocator.page_allocated@.len() == old(allocator).page_allocated@.len(),
                forall|k: u64|
                    k >= v_frame.number * 4096 ==> frames@.contains_key(k)
                        == self.virt_frames@.contains_key(k),
                forall|k: u64|
                    k >= v_frame.number * 4096 && #[trigger] frames@.contains_key(k) ==> frames@[k]
                        == self.virt_frames@[k],
                forall|vpn: int|
                    v_frame.number <= vpn && #[trigger] self.exclusive_at(vpn)
                        ==> allocator.owns_frame(self.frame_at(vpn)),
                forall|s: int|
                    0 <= s < allocator.page_allocated@.len() ==> allocator.page_allocated@[s]
                        == if exists|vpn: int|
                        #![trigger self.exclusive_at(vpn)]
                        vpn < v_frame.number && self.exclusive_at(vpn) && allocator.frame_slot(
                            self.frame_at(vpn),
                        ) == s {
                        0
                    } else {
                        old(allocator).page_allocated@[s]
                    },
            decreases end.number - v_frame.number,
        {
            let va: VirtAddr = v_frame.get_base_virt_addr();
            let ghost vpn = v_frame.number as int;
            let ghost before = *allocator;
            let mut released: bool = false;
            if !identity {
                match frames.remove(&va.as_usize()) {
                    Some(VirtFrameGuard::ExclusivelyAllocated(guard)) => {
                        assert(self.virt_frames@.contains_key(va.0));
                        assert(self.exclusive_at(vpn));
                        assert(guard.frame().number == self.frame_at(vpn));
                        guard.release(allocator);
                        released = true;
                    },
                    _ => {},
                }
            }
            v_frame.step_one();
            proof {
                assert(released == self.exclusive_at(vpn)) by {
                    if !identity && self.virt_frames@.contains_key(va.0) {
                        assert(self.backed(vpn));
                    }
                }
                assert forall|w: int|
                    v_frame.number <= w && #[trigger] self.exclusive_at(w)
                    implies allocator.owns_frame(self.frame_at(w)) by {
                    assert(before.owns_frame(self.frame_at(w)));
                    if released {
                        assert(self.frame_at(w) != self.frame_at(vpn));
                    }
                }
                assert forall|s: int|
                    0 <= s < allocator.page_allocated@.len() implies allocator.page_allocated@[s]
                    == if exists|w: int|
                    #![trigger self.exclusive_at(w)]
                    w < v_frame.number && self.exclusive_at(w) && allocator.frame_slot(
                        self.frame_at(w),
                    ) == s {
                    0
                } else {
                    old(allocator).page_allocated@[s]
                } by {
                    let was = exists|w: int|
                        #![trigger self.exclusive_at(w)]
                        w < vpn && self.exclusive_at(w) && before.frame_slot(self.frame_at(w))
                            == s;
                    if released && before.frame_slot(self.frame_at(vpn)) == s {
                        assert(self.exclusive_at(vpn) && vpn < v_frame.number);
                    } else if was {
                        let w = choose|w: int|
                            #![trigger self.exclusive_at(w)]
                            w < vpn && self.exclusive_at(w) && before.frame_slot(
                                self.frame_at(w),
                            ) == s;
                        assert(self.exclusive_at(w) && w < v_frame.number);
                    } else {
                        assert forall|w: int|
                            #![trigger self.exclusive_at(w)]
                            w < v_frame.number && self.exclusive_at(w) implies allocator.frame_slot(
                            self.frame_at(w),
                        ) != s by {
                            if w == vpn {
                            } else {
                                assert(w < vpn);
                            }
                        }
                    }
                }
            }
        }
        proof {
            assert forall|s: int| 0 <= s < old(allocator).page_allocated@.len() implies (exists|w: int|
                #![trigger self.exclusive_at(w)]
                w < end.number && self.exclusive_at(w) && allocator.frame_slot(self.frame_at(w))
                    == s) == self.owns_slot(old(allocator), s) by {
                if self.owns_slot(old(allocator), s) {
                    let w = choose|w: int|
                        #![trigger self.exclusive_at(w)]
                        self.exclusive_at(w) && old(allocator).frame_slot(self.frame_at(w)) == s;
                    assert(w < end.number && self.exclusive_at(w));
                }
            }
        }
    }
}

impl AddrSpace {
    /// Hands the frames of the page table back to `allocator`, and returns
    /// the areas, whose frames are the caller's to hand back. The space is
    /// no more.
    pub fn release(self, allocator: &mut FrameAllocator) -> (r: Vec<VirtArea>)
        requires
            self.table().wf(),
            old(allocator).wf(),
            self.table().owned_by(old(allocator)),
        ensures
            r@ == self.areas(),
            final(allocator).wf(),
            final(allocator).base_addr == old(allocator).base_addr,
            final(allocator).page_allocated@.len() == old(allocator).page_allocated@.len(),
            final(allocator).free_frames() == old(allocator).free_frames()
                + self.table().node_count(),
            forall|i: int|
                0 <= i < self.table().node_count() ==> final(allocator).page_allocated@[old(allocator).frame_slot(#[trigger] self.table().frame_no(i))] == 0,
            forall|s: int|
                0 <= s < old(allocator).page_allocated@.len() && (forall|i: int|
                    0 <= i < self.table().node_count() ==> old(allocator).frame_slot(
                        #[trigger] self.table().frame_no(i),
                    ) != s) ==> final(allocator).page_allocated@[s] == old(allocator).page_allocated@[s],
    {
        let areas: Vec<VirtArea> = self.virt_areas;
        self.page_table.release(allocator);
        areas
    }
}

} // verus!
