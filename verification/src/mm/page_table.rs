//! Sv39 page tables: entries, their flags, and the three-level tree that
//! maps virtual pages to physical frames.

use vstd::prelude::*;
use crate::allocator::frame_allocator::{AllocError, FrameAllocator};
use crate::mm::address_space::VirtArea;
use crate::mm::arithmetics::StepByOne;
use crate::mm::memory::{
    spec_pte_index, Frame, FrameGuard, PhysAddr, VirtAddr, VirtFrame, VirtFrameGuard,
    VirtFrameRange,
};

verus! {

/// The flags of a page-table entry, one bit each. The constants are the
/// masks of the single flags.
#[derive(Clone, Copy, Debug, PartialEq, Eq, Structural)]
pub struct PTEFlags {
    pub bits: u16,
}

impl PTEFlags {
    pub const VALID: u16 = 1;

    pub const READABLE: u16 = 2;

    pub const WRITABLE: u16 = 4;

    pub const EXECUTABLE: u16 = 8;

    pub const USER: u16 = 16;

    pub const GLOBAL: u16 = 32;

    pub const ACCESSED: u16 = 64;

    pub const DIRTY: u16 = 128;

    /// Marks a page shared copy-on-write. The hardware ignores it.
    pub const COW: u16 = 256;

    /// Every bit is one of the nine flags.
    pub open spec fn is_known(&self) -> bool {
        self.bits & 0x1ff == self.bits
    }

    /// Every flag of `mask` is set.
    pub open spec fn has(&self, mask: u16) -> bool {
        self.bits & mask == mask
    }

    /// The flags together with those of `mask`.
    pub open spec fn with(&self, mask: u16) -> PTEFlags {
        PTEFlags { bits: self.bits | mask }
    }

    /// The flags that are not flags of `mask`.
    pub open spec fn without(&self, mask: u16) -> PTEFlags {
        PTEFlags { bits: self.bits & !mask }
    }

    pub fn empty() -> (r: Self)
        ensures
            r.bits == 0,
    {
        Self { bits: 0 }
    }

    /// All nine flags.
    pub fn all() -> (r: Self)
        ensures
            r.bits == 0x1ff,
    {
        Self { bits: 0x1ff }
    }

    pub fn bits(&self) -> (r: u16)
        ensures
            r == self.bits,
    {
        self.bits
    }

    /// The flags with the given bits, unless a bit is none of the nine.
    pub fn from_bits(bits: u16) -> (r: Option<Self>)
        ensures
            r == if bits & 0x1ff == bits {
                Some(PTEFlags { bits })
            } else {
                None
            },
    {
        if bits & 0x1ff == bits {
            Some(Self { bits })
        } else {
            None
        }
    }

    /// The flags among the given bits.
    pub fn from_bits_truncate(bits: u16) -> (r: Self)
        ensures
            r.bits == bits & 0x1ff,
            r.is_known(),
    {
        assert((bits & 0x1ff) & 0x1ff == bits & 0x1ff) by (bit_vector);
        Self { bits: bits & 0x1ff }
    }

    /// The given bits as they are.
    pub fn from_bits_retain(bits: u16) -> (r: Self)
        ensures
            r.bits == bits,
    {
        Self { bits }
    }

    pub fn is_empty(&self) -> (r: bool)
        ensures
            r == (self.bits == 0),
    {
        self.bits == 0
    }

    /// Whether every flag of `mask` is set.
    pub fn contains(&self, mask: u16) -> (r: bool)
        ensures
            r == self.has(mask),
    {
        self.bits & mask == mask
    }

    /// The flags of either.
    pub fn union(self, other: PTEFlags) -> (r: Self)
        ensures
            r == self.with(other.bits),
    {
        Self { bits: self.bits | other.bits }
    }

    /// The flags of both.
    pub fn intersection(self, other: PTEFlags) -> (r: Self)
        ensures
            r.bits == self.bits & other.bits,
    {
        Self { bits: self.bits & other.bits }
    }

    /// The flags that are not flags of `other`.
    pub fn difference(self, other: PTEFlags) -> (r: Self)
        ensures
            r == self.without(other.bits),
    {
        Self { bits: self.bits & !other.bits }
    }
}

/// The flags that the owner of a virtual area chooses: a subset of those of
/// a page-table entry.
#[derive(Clone, Copy, Debug, PartialEq, Eq, Structural)]
pub struct PageFlags {
    pub bits: u16,
}

impl PageFlags {
    pub const READABLE: u16 = 2;

    pub const WRITABLE: u16 = 4;

    pub const EXECUTABLE: u16 = 8;

    pub const USER: u16 = 16;

    /// Every bit is one of the four flags.
    pub open spec fn is_known(&self) -> bool {
        self.bits & 0x1e == self.bits
    }

    /// Every flag of `mask` is set.
    pub open spec fn has(&self, mask: u16) -> bool {
        self.bits & mask == mask
    }

    /// The flags together with those of `mask`.
    pub open spec fn with(&self, mask: u16) -> PageFlags {
        PageFlags { bits: self.bits | mask }
    }

    /// The same bits as flags of a page-table entry.
    pub open spec fn as_pte_flags(&self) -> PTEFlags {
        PTEFlags { bits: self.bits }
    }

    pub fn empty() -> (r: Self)
        ensures
            r.bits == 0,
    {
        Self { bits: 0 }
    }

    pub fn bits(&self) -> (r: u16)
        ensures
            r == self.bits,
    {
        self.bits
    }

    /// The flags with the given bits, unless a bit is none of the four.
    pub fn from_bits(bits: u16) -> (r: Option<Self>)
        ensures
            r == if bits & 0x1e == bits {
                Some(PageFlags { bits })
            } else {
                None
            },
    {
        if bits & 0x1e == bits {
            Some(Self { bits })
        } else {
            None
        }
    }

    /// The given bits as they are.
    pub fn from_bits_retain(bits: u16) -> (r: Self)
        ensures
            r.bits == bits,
    {
        Self { bits }
    }

    /// Whether every flag of `mask` is set.
    pub fn contains(&self, mask: u16) -> (r: bool)
        ensures
            r == self.has(mask),
    {
        self.bits & mask == mask
    }

    /// The flags of either.
    pub fn union(self, other: PageFlags) -> (r: Self)
        ensures
            r == self.with(other.bits),
    {
        Self { bits: self.bits | other.bits }
    }

    /// The same bits as flags of a page-table entry.
    pub fn to_pte_flags(self) -> (r: PTEFlags)
        ensures
            r == self.as_pte_flags(),
    {
        PTEFlags::from_bits_retain(self.bits())
    }

    /// The bits of `flags` as flags of a virtual area.
    pub fn from_pte_flags(flags: PTEFlags) -> (r: Self)
        ensures
            r.bits == flags.bits,
    {
        Self::from_bits_retain(flags.bits())
    }
}

/// The bits of the entry that names the frame of `pa` with `flags`: the low
/// ten bits of the flags, and from bit 10 on the low 44 bits of the page
/// number.
pub open spec fn entry_bits(pa: u64, flags: PTEFlags) -> u64 {
    (((pa / 4096) % 0x1000_0000_0000) * 1024 + flags.bits % 1024) as u64
}

/// One entry of a page-table node.
#[derive(Clone, Copy, Debug, PartialEq, Eq, Structural)]
pub struct PageTableEntry {
    pub bits: u64,
}

impl PageTableEntry {
    /// The flags of the entry.
    pub open spec fn spec_flags(&self) -> PTEFlags {
        PTEFlags { bits: (self.bits % 1024) as u16 }
    }

    /// The page number that the entry names.
    pub open spec fn spec_ppn(&self) -> u64 {
        ((self.bits / 1024) % 0x1000_0000_0000) as u64
    }

    /// The entry has its valid flag.
    pub open spec fn spec_valid(&self) -> bool {
        self.spec_flags().has(PTEFlags::VALID)
    }

    /// The entry that names the frame of `pa` with `flags`.
    pub fn new(pa: PhysAddr, flags: PTEFlags) -> (r: Self)
        ensures
            r.bits == entry_bits(pa.0, flags),
    {
        Self { bits: Self::make_entry(pa, flags) }
    }

    /// The entry with no bit set.
    pub fn empty() -> (r: Self)
        ensures
            r.bits == 0,
    {
        Self { bits: 0 }
    }

    fn make_entry(pa: PhysAddr, flags: PTEFlags) -> (r: u64)
        ensures
            r == entry_bits(pa.0, flags),
    {
        let frame: Frame = Frame::from_phys_addr(pa);
        let number: u64 = frame.number;
        let low: u64 = flags.bits() as u64;
        assert(((number & 0xfff_ffff_ffffu64) << 10u64) | (low & 0x3ffu64) == (number
            % 0x1000_0000_0000) * 1024 + low % 1024) by (bit_vector);
        ((number & 0xfff_ffff_ffff) << 10) | (low & 0x3ff)
    }

    pub fn flags(&self) -> (r: PTEFlags)
        ensures
            r == self.spec_flags(),
    {
        let bits: u64 = self.bits;
        assert(bits & 0x3ffu64 == bits % 1024) by (bit_vector);
        let flags_raw: u64 = self.bits & 0x3ff;
        PTEFlags::from_bits_retain(flags_raw as u16)
    }

    /// The base address of the frame that the entry names.
    pub fn referencing_address(&self) -> (r: PhysAddr)
        ensures
            r.0 == self.spec_ppn() * 4096,
    {
        PhysAddr::new(crate::mm::arithmetics::PTE2PA(self.bits))
    }

    /// The frame that the entry names.
    pub fn referencing_frame(&self) -> (r: Frame)
        ensures
            r.number == self.spec_ppn(),
    {
        let pa: PhysAddr = self.referencing_address();
        Frame::from_phys_addr(pa)
    }

    pub fn is_valid(&self) -> (r: bool)
        ensures
            r == self.spec_valid(),
    {
        self.flags().contains(PTEFlags::VALID)
    }
}

/// An entry gives back the frame and the flags that it was made of, where
/// the frame lies below the end of the physical address space and the flags
/// fit in ten bits.
pub proof fn lemma_entry_round_trip(pa: u64, flags: PTEFlags)
    requires
        pa < 0x100_0000_0000_0000,
        flags.bits < 1024,
    ensures
        (PageTableEntry { bits: entry_bits(pa, flags) }).spec_ppn() == pa / 4096,
        (PageTableEntry { bits: entry_bits(pa, flags) }).spec_flags() == flags,
{
}

} // verus!

verus! {

/// How many entries a page-table node holds.
pub const ENTRY_PER_TABLE: usize = 512;

/// The page number of the virtual address `va`, of which a page table reads
/// the low 27 bits.
pub open spec fn vpn_of(va: u64) -> int {
    ((va / 4096) % 0x800_0000) as int
}

/// A handle on the frame that holds a page-table node. It owns nothing.
#[derive(Debug)]
pub struct PageTableNode {
    pub base_addr: PhysAddr,
}

impl PageTableNode {
    /// The node that `frame` holds.
    pub fn from_frame(frame: &Frame) -> (r: Self)
        requires
            frame.number < crate::mm::memory::FRAME_NUMBER_LIMIT,
        ensures
            r.base_addr.0 == frame.number * 4096,
    {
        Self { base_addr: frame.get_base_phys_addr() }
    }
}

/// How many nodes the walk for each page lacks once page `p` is mapped with
/// its nodes, where `m` says how many it lacked before: none for the pages
/// that share the lowest node with `p`, one at most for those that share
/// the middle node, and for all others as many as before.
pub open spec fn lacking_after(m: spec_fn(int) -> int, p: int) -> spec_fn(int) -> int {
    |v: int|
        if v / 512 == p / 512 {
            0int
        } else if v / 512 / 512 == p / 512 / 512 {
            if m(v) < 1 {
                m(v)
            } else {
                1int
            }
        } else {
            m(v)
        }
}

/// How many nodes are lacking to map the pages from `from` up to `to`, one
/// after the other, where `m` says how many the walk for each page lacks at
/// first.
pub open spec fn pages_lack(m: spec_fn(int) -> int, from: int, to: int) -> int
    decreases to - from,
{
    if from >= to {
        0
    } else {
        m(from) + pages_lack(lacking_after(m, from), from + 1, to)
    }
}

/// How many nodes the walk for each page lacks once the pages from `from`
/// up to `to` are mapped.
pub open spec fn lacking_after_pages(m: spec_fn(int) -> int, from: int, to: int) -> spec_fn(
    int,
) -> int
    decreases to - from,
{
    if from >= to {
        m
    } else {
        lacking_after_pages(lacking_after(m, from), from + 1, to)
    }
}

/// What a table without a mapping lacks: both nodes below the root, for
/// each page.
pub open spec fn fresh_lacks() -> spec_fn(int) -> int {
    |v: int|
        if 0 <= v < 0x800_0000 {
            2int
        } else {
            0int
        }
}

/// No count of `m` is below zero.
pub open spec fn counts(m: spec_fn(int) -> int) -> bool {
    forall|v: int| #[trigger] m(v) >= 0
}

/// A table without a mapping lacks no negative number of nodes.
pub proof fn lemma_fresh_counts()
    ensures
        counts(fresh_lacks()),
{
    assert forall|v: int| #[trigger] fresh_lacks()(v) >= 0 by {}
}

/// Mapping a page leaves counts that are not below zero.
pub proof fn lemma_counts_after(m: spec_fn(int) -> int, p: int)
    requires
        counts(m),
    ensures
        counts(lacking_after(m, p)),
{
    assert forall|v: int| #[trigger] lacking_after(m, p)(v) >= 0 by {
        assert(m(v) >= 0);
    }
}

/// Mapping pages leaves counts that are not below zero, and lacks no
/// negative number of nodes.
pub proof fn lemma_pages_lack_counts(m: spec_fn(int) -> int, from: int, to: int)
    requires
        counts(m),
    ensures
        pages_lack(m, from, to) >= 0,
        counts(lacking_after_pages(m, from, to)),
    decreases to - from,
{
    if from < to {
        lemma_counts_after(m, from);
        assert(m(from) >= 0);
        lemma_pages_lack_counts(lacking_after(m, from), from + 1, to);
    }
}

/// A page whose walk lacks no node lacks none after more pages are mapped.
pub proof fn lemma_lacking_none_stays(m: spec_fn(int) -> int, from: int, to: int, v: int)
    requires
        m(v) == 0,
    ensures
        lacking_after_pages(m, from, to)(v) == 0,
    decreases to - from,
{
    if from < to {
        lemma_lacking_none_stays(lacking_after(m, from), from + 1, to, v);
    }
}

/// Which of `frames` is the frame with page number `ppn`.
pub closed spec fn node_in(frames: Seq<FrameGuard>, ppn: u64) -> Option<int> {
    if exists|i: int| 0 <= i < frames.len() && frames[i].frame().number == ppn {
        Some(choose|i: int| 0 <= i < frames.len() && frames[i].frame().number == ppn)
    } else {
        None
    }
}

impl PageTableEntry {
    /// The base address of the frame that the entry names, and its flags.
    pub open spec fn target(&self) -> (u64, PTEFlags) {
        ((self.spec_ppn() * 4096) as u64, self.spec_flags())
    }
}

/// A page table: its root node, the frames of all its nodes, and what the
/// nodes hold.
///
/// The nodes form a tree of three levels. An entry of the root or of a node
/// of the middle level names, when it is valid, the frame of a node of the
/// level below. A valid entry of a node of the lowest level maps a page.
pub struct PageTableGuard {
    /// The root node.
    root_node: PageTableNode,
    /// The frames of the nodes, that of the root first. They go back to the
    /// allocator with the table.
    node_frames: Vec<FrameGuard>,
    /// The entries of the nodes, 512 for each frame of `node_frames`, in the
    /// order of the frames.
    tables: Vec<PageTableEntry>,
    /// For each node its level, 2 for the root and 0 for the lowest, and the
    /// bits of the page number that lead to it.
    tags: Ghost<Seq<(int, int)>>,
}

impl PageTableGuard {
    /// How many nodes the table has.
    pub closed spec fn node_count(&self) -> int {
        self.node_frames@.len() as int
    }

    /// The page number of the frame of node `i`.
    pub closed spec fn frame_no(&self, i: int) -> u64 {
        self.node_frames@[i].frame().number
    }

    /// Entry `k` of node `i`.
    pub closed spec fn slot(&self, i: int, k: int) -> PageTableEntry {
        self.tables@[i * 512 + k]
    }

    /// The node that the frame with page number `ppn` holds.
    closed spec fn node_of(&self, ppn: u64) -> Option<int> {
        node_in(self.node_frames@, ppn)
    }

    /// The node that entry `k` of node `i` leads to.
    closed spec fn child(&self, i: int, k: int) -> Option<int> {
        if self.slot(i, k).spec_valid() {
            self.node_of(self.slot(i, k).spec_ppn())
        } else {
            None
        }
    }

    /// The node of the lowest level that the walk from the root reaches by
    /// entry `i2` of the root and entry `i1` of the node below it.
    closed spec fn leaf_node(&self, i2: int, i1: int) -> Option<int> {
        match self.child(0, i2) {
            Some(n1) => self.child(n1, i1),
            None => None,
        }
    }

    /// The entry of the lowest level that the walk from the root reaches for
    /// the page number `vpn`, or `None` where an entry on the way is not
    /// valid. The entry itself need not be valid.
    pub closed spec fn entry(&self, vpn: int) -> Option<PageTableEntry> {
        match self.leaf_node((vpn / 512 / 512) % 512, (vpn / 512) % 512) {
            Some(n0) => Some(self.slot(n0, vpn % 512)),
            None => None,
        }
    }

    /// How many nodes the walk for `vpn` lacks.
    pub closed spec fn missing_levels(&self, vpn: int) -> int {
        match self.child(0, (vpn / 512 / 512) % 512) {
            Some(n1) => match self.child(n1, (vpn / 512) % 512) {
                Some(_) => 0,
                None => 1,
            },
            None => 2,
        }
    }

    /// How many nodes the walk for each page lacks.
    pub closed spec fn lacks(&self) -> spec_fn(int) -> int {
        |v: int|
            if 0 <= v < 0x800_0000 {
                self.missing_levels(v)
            } else {
                0int
            }
    }

    /// The pages that the table maps: for each page number with a valid
    /// entry, the base address of the frame and the flags.
    pub open spec fn view(&self) -> Map<int, (u64, PTEFlags)> {
        Map::new(
            |vpn: int|
                0 <= vpn < 0x800_0000 && self.entry(vpn) is Some
                    && self.entry(vpn).unwrap().spec_valid(),
            |vpn: int| self.entry(vpn).unwrap().target(),
        )
    }

    /// The nodes form a tree: each has its 512 entries and a frame of its
    /// own, and each valid entry above the lowest level leads to a node of
    /// the level below.
    pub closed spec fn wf(&self) -> bool {
        &&& self.node_count() >= 1
        &&& self.tags@.len() == self.node_count()
        &&& self.tables@.len() == self.node_count() * 512
        &&& self.root_node.base_addr.0 == self.frame_no(0) * 4096
        &&& self.tags@[0] == (2int, 0int)
        &&& forall|i: int|
            0 <= i < self.node_count() ==> #[trigger] self.frame_no(i) < 0x1000_0000_0000
        &&& forall|i: int, j: int|
            0 <= i < self.node_count() && 0 <= j < self.node_count() && i != j
                ==> #[trigger] self.frame_no(i) != #[trigger] self.frame_no(j)
        &&& forall|i: int, k: int|
            0 <= i < self.node_count() && 0 <= k < 512 && self.tags@[i].0 >= 1 && (
            #[trigger] self.slot(i, k)).spec_valid() ==> {
                &&& self.node_of(self.slot(i, k).spec_ppn()) is Some
                &&& self.tags@[self.node_of(self.slot(i, k).spec_ppn()).unwrap()] == (
                    self.tags@[i].0 - 1,
                    self.tags@[i].1 * 512 + k,
                )
            }
    }

    /// Every frame of a node is handed out by `allocator` as an allocation
    /// of its own.
    pub closed spec fn owned_by(&self, allocator: &FrameAllocator) -> bool {
        forall|i: int|
            0 <= i < self.node_count() ==> allocator.owns_frame(#[trigger] self.frame_no(i))
    }

    /// A node is the only one with its frame.
    proof fn lemma_node_of(&self, i: int)
        requires
            self.wf(),
            0 <= i < self.node_count(),
        ensures
            self.node_of(self.frame_no(i)) == Some(i),
    {
        self.lemma_node_of_apart(i);
    }

    /// The frame of the root node.
    pub fn get_root_frame(&self) -> (r: Frame)
        requires
            self.wf(),
        ensures
            r.number == self.frame_no(0),
    {
        Frame::from_phys_addr(self.root_node.base_addr)
    }

    /// The value of the address-translation register that selects this
    /// table: mode 8 in the top four bits, and the page number of the root.
    pub fn make_satp(&self) -> (r: u64)
        requires
            self.wf(),
        ensures
            r == 0x8000_0000_0000_0000 + self.frame_no(0),
    {
        let ptr: u64 = self.root_node.base_addr.as_usize();
        let number: u64 = ptr >> 12;
        assert(number == ptr / 4096) by (bit_vector)
            requires
                number == ptr >> 12u64,
        ;
        assert(0x8000_0000_0000_0000u64 | number == 0x8000_0000_0000_0000u64 + number)
            by (bit_vector)
            requires
                number < 0x1000_0000_0000u64,
        ;
        0x8000_0000_0000_0000u64 | number
    }

    /// A table with an empty root node in a frame of `allocator`.
    pub fn allocate(allocator: &mut FrameAllocator) -> (r: Result<Self, AllocError>)
        requires
            old(allocator).wf(),
        ensures
            final(allocator).wf(),
            final(allocator).allocated_since(old(allocator)),
            match r {
                Ok(table) => {
                    &&& table.wf()
                    &&& table.owned_by(final(allocator))
                    &&& table@ == Map::<int, (u64, PTEFlags)>::empty()
                    &&& table.node_count() == 1
                    &&& table.lacks() == fresh_lacks()
                    &&& forall|vpn: int| table.entry(vpn) is None
                    &&& final(allocator).free_frames() == old(allocator).free_frames() - 1
                },
                Err(e) => {
                    &&& e == AllocError::ENoFrame
                    &&& old(allocator).free_frames() == 0
                    &&& final(allocator).page_allocated@ == old(allocator).page_allocated@
                },
            },
    {
        let root_node_frame_guard = match FrameGuard::allocate_zeroed(allocator) {
            Ok(guard) => guard,
            Err(e) => {
                return Err(e);
            },
        };
        let root_node = PageTableNode::from_frame(root_node_frame_guard.inner_ref());
        let mut tables: Vec<PageTableEntry> = Vec::new();
        let mut k: usize = 0;
        while k < ENTRY_PER_TABLE
            invariant
                k <= 512,
                tables@.len() == k,
                forall|j: int| 0 <= j < k ==> tables@[j].bits == 0,
            decreases 512 - k,
        {
            tables.push(PageTableEntry::empty());
            k = k + 1;
        }
        let mut node_frames: Vec<FrameGuard> = Vec::new();
        node_frames.push(root_node_frame_guard);
        let tags: Ghost<Seq<(int, int)>> = Ghost(Seq::empty().push((2int, 0int)));
        let table = Self { root_node, node_frames, tables, tags };
        proof {
            assert(table.frame_no(0) < 0x1000_0000_0000);
            assert forall|i: int, k: int| 0 <= i < table.node_count() && 0 <= k < 512 implies !(
            #[trigger] table.slot(i, k)).spec_valid() by {
                lemma_zero_entry();
            }
            assert forall|vpn: int| table.entry(vpn) is None by {
                assert(!table.slot(0, (vpn / 512 / 512) % 512).spec_valid());
            }
            assert forall|vpn: int| table.missing_levels(vpn) == 2 by {
                assert(!table.slot(0, (vpn / 512 / 512) % 512).spec_valid());
            }
            assert(table.lacks() =~= fresh_lacks());
            assert(table@ =~= Map::<int, (u64, PTEFlags)>::empty());
        }
        Ok(table)
    }
}

/// The entry with no bit set is not valid.
pub proof fn lemma_zero_entry()
    ensures
        !(PageTableEntry { bits: 0 }).spec_valid(),
        (PageTableEntry { bits: 0 }).spec_flags().bits == 0,
{
    assert(0u16 & 1u16 != 1u16) by (bit_vector);
}

} // verus!

verus! {

/// The three indices of a virtual address are those of its page number.
pub proof fn lemma_indices(va: u64)
    ensures
        0 <= vpn_of(va) < 0x800_0000,
        spec_pte_index(va as int, 2) == (vpn_of(va) / 512 / 512) % 512,
        spec_pte_index(va as int, 1) == (vpn_of(va) / 512) % 512,
        spec_pte_index(va as int, 0) == vpn_of(va) % 512,
{
    let v: u64 = va / 4096;
    let w: u64 = v % 0x800_0000;
    assert((w / 512 / 512) % 512 == (v / 512 / 512) % 512 && (w / 512) % 512 == (v / 512) % 512
        && w % 512 == v % 512) by (bit_vector)
        requires
            w == v % 0x800_0000u64,
    ;
}

/// A page number is made of its three indices.
pub proof fn lemma_vpn_parts(vpn: int)
    requires
        0 <= vpn < 0x800_0000,
    ensures
        vpn == ((vpn / 512 / 512) % 512) * 512 * 512 + ((vpn / 512) % 512) * 512 + vpn % 512,
        0 <= (vpn / 512 / 512) % 512 < 512,
        0 <= (vpn / 512) % 512 < 512,
        0 <= vpn % 512 < 512,
{
}

impl PageTableGuard {
    /// All but the entries of the nodes is the same in both tables.
    closed spec fn same_nodes(&self, other: &PageTableGuard) -> bool {
        &&& self.root_node.base_addr == other.root_node.base_addr
        &&& self.node_frames@ == other.node_frames@
        &&& self.tags@ == other.tags@
        &&& self.tables@.len() == other.tables@.len()
    }

    /// The frames of the nodes are told apart by their numbers.
    closed spec fn frames_apart(&self) -> bool {
        forall|i: int, j: int|
            0 <= i < self.node_count() && 0 <= j < self.node_count() && i != j
                ==> #[trigger] self.frame_no(i) != #[trigger] self.frame_no(j)
    }

    /// A node is the only one with its frame.
    proof fn lemma_node_of_apart(&self, i: int)
        requires
            self.frames_apart(),
            0 <= i < self.node_count(),
        ensures
            self.node_of(self.frame_no(i)) == Some(i),
    {
        let frames = self.node_frames@;
        let ppn = self.frame_no(i);
        assert(0 <= i < frames.len() && frames[i].frame().number == ppn);
        let j = choose|j: int| 0 <= j < frames.len() && frames[j].frame().number == ppn;
        assert(self.frame_no(j) == ppn);
    }

    /// No node has a frame that is none of the frames.
    proof fn lemma_node_of_none(&self, ppn: u64)
        requires
            forall|j: int| 0 <= j < self.node_count() ==> self.frame_no(j) != ppn,
        ensures
            self.node_of(ppn) is None,
    {
        let frames = self.node_frames@;
        assert forall|j: int| 0 <= j < frames.len() implies frames[j].frame().number != ppn by {
            assert(self.frame_no(j) != ppn);
        }
    }

    /// The nodes on the walk have the levels and prefixes of the walk.
    proof fn lemma_walk_tags(&self, i2: int, i1: int)
        requires
            self.wf(),
            0 <= i2 < 512,
            0 <= i1 < 512,
        ensures
            self.child(0, i2) is Some ==> {
                let n1 = self.child(0, i2).unwrap();
                &&& 0 <= n1 < self.node_count()
                &&& self.tags@[n1] == (1int, i2)
                &&& self.child(n1, i1) is Some ==> {
                    let n0 = self.child(n1, i1).unwrap();
                    &&& 0 <= n0 < self.node_count()
                    &&& self.tags@[n0] == (0int, i2 * 512 + i1)
                }
            },
    {
        if self.child(0, i2) is Some {
            assert(self.slot(0, i2).spec_valid());
            let n1 = self.child(0, i2).unwrap();
            if self.child(n1, i1) is Some {
                assert(self.slot(n1, i1).spec_valid());
            }
        }
    }

    /// Writing an entry of the lowest level changes what the table holds
    /// for one page number and for no other.
    proof fn lemma_leaf_write(
        &self,
        new: &PageTableGuard,
        n0: int,
        e: PageTableEntry,
        vpn: int,
    )
        requires
            self.wf(),
            new.same_nodes(self),
            0 <= vpn < 0x800_0000,
            self.leaf_node((vpn / 512 / 512) % 512, (vpn / 512) % 512) == Some(n0),
            new.tables@ == self.tables@.update(n0 * 512 + vpn % 512, e),
        ensures
            new.wf(),
            new.entry(vpn) == Some(e),
            forall|other: int|
                0 <= other < 0x800_0000 && other != vpn ==> #[trigger] new.entry(other)
                    == self.entry(other),
            forall|other: int| #[trigger] new.missing_levels(other) == self.missing_levels(other),
    {
        let i2 = (vpn / 512 / 512) % 512;
        let i1 = (vpn / 512) % 512;
        let i0 = vpn % 512;
        lemma_vpn_parts(vpn);
        self.lemma_walk_tags(i2, i1);
        let n1 = self.child(0, i2).unwrap();
        assert(self.tags@[n0] == (0int, i2 * 512 + i1));
        assert forall|i: int| 0 <= i < new.node_count() implies #[trigger] new.frame_no(i)
            == self.frame_no(i) by {}
        assert forall|ppn: u64| #[trigger] new.node_of(ppn) == self.node_of(ppn) by {}
        assert forall|i: int, k: int|
            0 <= i < self.node_count() && 0 <= k < 512 && i != n0 implies #[trigger] new.slot(i, k)
            == self.slot(i, k) by {}
        assert forall|i: int, k: int|
            0 <= i < self.node_count() && 0 <= k < 512 && self.tags@[i].0 >= 1 implies new.child(
            i,
            k,
        ) == self.child(i, k) by {
            assert(new.slot(i, k) == self.slot(i, k));
        }
        assert(new.wf()) by {
            assert forall|i: int, k: int|
                0 <= i < new.node_count() && 0 <= k < 512 && new.tags@[i].0 >= 1 && (
                #[trigger] new.slot(i, k)).spec_valid() implies {
                &&& new.node_of(new.slot(i, k).spec_ppn()) is Some
                &&& new.tags@[new.node_of(new.slot(i, k).spec_ppn()).unwrap()] == (
                    new.tags@[i].0 - 1,
                    new.tags@[i].1 * 512 + k,
                )
            } by {
                assert(new.slot(i, k) == self.slot(i, k));
            }
        }
        assert(new.child(0, i2) == self.child(0, i2));
        assert(new.child(n1, i1) == self.child(n1, i1));
        assert(new.slot(n0, i0) == e);
        assert forall|other: int| 0 <= other < 0x800_0000 && other != vpn implies #[trigger] new.entry(
            other,
        ) == self.entry(other) by {
            let j2 = (other / 512 / 512) % 512;
            let j1 = (other / 512) % 512;
            let j0 = other % 512;
            lemma_vpn_parts(other);
            self.lemma_walk_tags(j2, j1);
            assert(new.child(0, j2) == self.child(0, j2));
            if self.child(0, j2) is Some {
                let m1 = self.child(0, j2).unwrap();
                assert(new.child(m1, j1) == self.child(m1, j1));
                if self.child(m1, j1) is Some {
                    let m0 = self.child(m1, j1).unwrap();
                    if m0 == n0 {
                        assert(j2 * 512 + j1 == i2 * 512 + i1);
                        assert(j0 != i0);
                        assert(new.slot(m0, j0) == self.slot(m0, j0));
                    } else {
                        assert(new.slot(m0, j0) == self.slot(m0, j0));
                    }
                }
            }
        }
        assert forall|other: int| #[trigger]
            new.missing_levels(other) == self.missing_levels(other) by {
            let j2 = (other / 512 / 512) % 512;
            let j1 = (other / 512) % 512;
            self.lemma_walk_tags(j2, j1);
            assert(new.child(0, j2) == self.child(0, j2));
            if self.child(0, j2) is Some {
                let m1 = self.child(0, j2).unwrap();
                assert(new.child(m1, j1) == self.child(m1, j1));
            }
        }
    }

    /// The node, if any, that the frame with page number `ppn` holds.
    fn find_node(&self, ppn: u64) -> (r: Option<usize>)
        requires
            self.wf(),
        ensures
            match r {
                Some(i) => i < self.node_count() && self.node_of(ppn) == Some(i as int),
                None => self.node_of(ppn) is None,
            },
    {
        let n: usize = self.node_frames.len();
        let mut i: usize = 0;
        while i < n
            invariant
                self.wf(),
                n == self.node_count(),
                i <= n,
                forall|j: int| 0 <= j < i ==> self.frame_no(j) != ppn,
            decreases n - i,
        {
            if self.node_frames[i].get_frame().number == ppn {
                proof {
                    self.lemma_node_of(i as int);
                }
                return Some(i);
            }
            i = i + 1;
        }
        proof {
            self.lemma_node_of_none(ppn);
        }
        None
    }

    /// Entry `index` of node `node`.
    fn entry_at(&self, node: usize, index: usize) -> (r: PageTableEntry)
        requires
            self.tables@.len() == self.node_count() * 512,
            node < self.node_count(),
            index < 512,
        ensures
            r == self.slot(node as int, index as int),
    {
        let len: usize = self.tables.len();
        self.tables[node * ENTRY_PER_TABLE + index]
    }

    /// The node that entry `index` of node `node` leads to.
    fn step(&self, node: usize, index: usize) -> (r: Option<usize>)
        requires
            self.wf(),
            node < self.node_count(),
            index < 512,
        ensures
            match r {
                Some(c) => c < self.node_count() && self.child(node as int, index as int) == Some(
                    c as int,
                ),
                None => self.child(node as int, index as int) is None,
            },
    {
        let pte: PageTableEntry = self.entry_at(node, index);
        if !pte.is_valid() {
            return None;
        }
        self.find_node(pte.referencing_frame().number)
    }

    /// The node of the lowest level on the walk for `va`, or `None` where an
    /// entry on the way is not valid.
    fn locate(&self, va: VirtAddr) -> (r: Option<usize>)
        requires
            self.wf(),
        ensures
            match r {
                Some(n0) => n0 < self.node_count() && self.leaf_node(
                    (vpn_of(va.0) / 512 / 512) % 512,
                    (vpn_of(va.0) / 512) % 512,
                ) == Some(n0 as int),
                None => self.entry(vpn_of(va.0)) is None,
            },
    {
        proof {
            lemma_indices(va.0);
        }
        let n1: usize = match self.step(0, va.pte_index(2)) {
            Some(n) => n,
            None => {
                return None;
            },
        };
        self.step(n1, va.pte_index(1))
    }

    /// The entry of the lowest level for `va`, or `None` where an entry on
    /// the way to it is not valid.
    pub fn find(&self, va: VirtAddr) -> (r: Option<PageTableEntry>)
        requires
            self.wf(),
        ensures
            r == self.entry(vpn_of(va.0)),
    {
        proof {
            lemma_indices(va.0);
        }
        match self.locate(va) {
            Some(n0) => Some(self.entry_at(n0, va.pte_index(0))),
            None => None,
        }
    }

    /// What `translate` returns for `va`: the address within the frame that
    /// the entry for `va` names, and the flags of the entry.
    pub open spec fn spec_translate(&self, va: u64) -> Option<(PhysAddr, PTEFlags)> {
        match self.entry(vpn_of(va)) {
            Some(e) => Some((PhysAddr((e.spec_ppn() * 4096 + va % 4096) as u64), e.spec_flags())),
            None => None,
        }
    }

    /// The physical address that `va` is mapped to, with the flags of the
    /// mapping, or `None` where an entry on the way is not valid.
    pub fn translate(&self, va: VirtAddr) -> (r: Option<(PhysAddr, PTEFlags)>)
        requires
            self.wf(),
        ensures
            r == self.spec_translate(va.0),
    {
        let pte: PageTableEntry = match self.find(va) {
            Some(pte) => pte,
            None => {
                return None;
            },
        };
        Some((pte.referencing_address().with_offset(va.offset()), pte.flags()))
    }
}

} // verus!

verus! {

/// An entry made with the valid flag is valid.
pub proof fn lemma_made_valid(pa: u64, flags: PTEFlags)
    ensures
        (PageTableEntry { bits: entry_bits(pa, flags.with(PTEFlags::VALID)) }).spec_valid(),
{
    let f: u16 = flags.bits;
    assert(((f | 1u16) % 1024u16) & 1u16 == 1u16) by (bit_vector);
}

impl PageTableGuard {
    /// What `later` holds for a page number is what this table holds for
    /// it, or this table holds nothing for it and `later` an empty entry or
    /// nothing.
    pub closed spec fn grows_to(&self, later: &PageTableGuard) -> bool {
        forall|vpn: int|
            0 <= vpn < 0x800_0000 ==> {
                ||| #[trigger] later.entry(vpn) == self.entry(vpn)
                ||| self.entry(vpn) is None && (later.entry(vpn) is None || later.entry(vpn)
                    == Some(PageTableEntry { bits: 0 }))
            }
    }

    /// A table that has only grown maps what it mapped.
    pub proof fn lemma_grows_same_view(&self, later: &PageTableGuard)
        requires
            self.grows_to(later),
        ensures
            later@ == self@,
    {
        lemma_zero_entry();
        assert forall|vpn: int| self@.contains_key(vpn) <==> later@.contains_key(vpn) by {
            if 0 <= vpn < 0x800_0000 {
                assert(later.entry(vpn) == self.entry(vpn) || (self.entry(vpn) is None && (
                later.entry(vpn) is None || later.entry(vpn) == Some(PageTableEntry { bits: 0 }))));
            }
        }
        assert(later@ =~= self@);
    }

    /// Growing is transitive.
    proof fn lemma_grows_trans(&self, mid: &PageTableGuard, later: &PageTableGuard)
        requires
            self.grows_to(mid),
            mid.grows_to(later),
        ensures
            self.grows_to(later),
    {
        assert forall|vpn: int| 0 <= vpn < 0x800_0000 implies {
            ||| #[trigger] later.entry(vpn) == self.entry(vpn)
            ||| self.entry(vpn) is None && (later.entry(vpn) is None || later.entry(vpn) == Some(
                PageTableEntry { bits: 0 },
            ))
        } by {
            assert(mid.entry(vpn) == self.entry(vpn) || (self.entry(vpn) is None && (mid.entry(
                vpn,
            ) is None || mid.entry(vpn) == Some(PageTableEntry { bits: 0 }))));
            assert(later.entry(vpn) == mid.entry(vpn) || (mid.entry(vpn) is None && (
            later.entry(vpn) is None || later.entry(vpn) == Some(PageTableEntry { bits: 0 }))));
        }
    }

    /// Sets entry `index` of node `node`.
    fn set_slot(&mut self, node: usize, index: usize, e: PageTableEntry)
        requires
            old(self).tables@.len() == old(self).node_count() * 512,
            node < old(self).node_count(),
            index < 512,
        ensures
            final(self).same_nodes(old(self)),
            final(self).tables@ == old(self).tables@.update(node * 512 + index, e),
    {
        let len: usize = self.tables.len();
        self.tables.set(node * ENTRY_PER_TABLE + index, e);
    }

    /// Takes a frame for one more node, with no entry set, and keeps the
    /// guard of the frame.
    fn allocate_node(&mut self, allocator: &mut FrameAllocator, Ghost(tag): Ghost<(int, int)>) -> (r:
        Result<Frame, AllocError>)
        requires
            old(self).wf(),
            old(allocator).wf(),
            old(self).owned_by(old(allocator)),
        ensures
            final(allocator).wf(),
            final(allocator).allocated_since(old(allocator)),
            final(self).wf(),
            final(self).owned_by(final(allocator)),
            match r {
                Ok(frame) => {
                    &&& final(self).node_count() == old(self).node_count() + 1
                    &&& final(self).tags@ == old(self).tags@.push(tag)
                    &&& frame.number == final(self).frame_no(old(self).node_count())
                    &&& forall|i: int|
                        0 <= i < old(self).node_count() ==> #[trigger] final(self).frame_no(i)
                            == old(self).frame_no(i)
                    &&& forall|i: int, k: int|
                        0 <= i < old(self).node_count() && 0 <= k < 512 ==> #[trigger] final(self).slot(i, k) == old(self).slot(i, k)
                    &&& forall|k: int|
                        0 <= k < 512 ==> (#[trigger] final(self).slot(
                            old(self).node_count(),
                            k,
                        )).bits == 0
                    &&& forall|i: int, k: int|
                        0 <= i < old(self).node_count() && 0 <= k < 512 && old(self).tags@[i].0
                            >= 1 ==> #[trigger] final(self).child(i, k) == old(self).child(i, k)
                    &&& forall|vpn: int| #[trigger] final(self).entry(vpn) == old(self).entry(vpn)
                    &&& final(allocator).free_frames() == old(allocator).free_frames() - 1
                },
                Err(e) => {
                    &&& e == AllocError::ENoFrame
                    &&& *final(self) == *old(self)
                    &&& old(allocator).free_frames() == 0
                    &&& final(allocator).page_allocated@ == old(allocator).page_allocated@
                },
            },
    {
        let node_frame = match FrameGuard::allocate_zeroed(allocator) {
            Ok(guard) => guard,
            Err(e) => {
                return Err(e);
            },
        };
        let frame: Frame = node_frame.get_frame();
        let ghost before = *self;
        proof {
            assert forall|j: int| 0 <= j < before.node_count() implies before.frame_no(j)
                != frame.number by {
                assert(old(allocator).owns_frame(before.frame_no(j)));
            }
        }
        self.node_frames.push(node_frame);
        let mut k: usize = 0;
        while k < ENTRY_PER_TABLE
            invariant
                k <= 512,
                self.root_node == before.root_node,
                self.tags == before.tags,
                self.node_frames@ == before.node_frames@.push(node_frame),
                self.tables@.len() == before.tables@.len() + k,
                forall|j: int| 0 <= j < before.tables@.len() ==> self.tables@[j] == before.tables@[j],
                forall|j: int|
                    before.tables@.len() <= j < before.tables@.len() + k ==> self.tables@[j].bits
                        == 0,
            decreases 512 - k,
        {
            self.tables.push(PageTableEntry::empty());
            k = k + 1;
        }
        self.tags = Ghost(self.tags@.push(tag));
        proof {
            let n = before.node_count();
            assert forall|i: int| 0 <= i < n implies #[trigger] self.frame_no(i)
                == before.frame_no(i) by {}
            assert(self.frame_no(n) == frame.number);
            assert(allocator.owns_frame(frame.number));
            assert(self.frame_no(n) < 0x1000_0000_0000) by {
                assert(allocator.base_addr / 4096 + allocator.page_allocated@.len()
                    <= 0x1000_0000_0000);
            }
            assert forall|i: int, k: int| 0 <= i < n && 0 <= k < 512 implies #[trigger] self.slot(
                i,
                k,
            ) == before.slot(i, k) by {}
            assert forall|k: int| 0 <= k < 512 implies (#[trigger] self.slot(n, k)).bits == 0 by {}
            assert(self.frames_apart());
            assert forall|i: int, k: int|
                0 <= i < n && 0 <= k < 512 && before.tags@[i].0 >= 1 implies #[trigger] self.child(
                i,
                k,
            ) == before.child(i, k) by {
                assert(self.slot(i, k) == before.slot(i, k));
                if before.slot(i, k).spec_valid() {
                    let c = before.node_of(before.slot(i, k).spec_ppn()).unwrap();
                    before.lemma_node_of(c);
                    assert(self.frame_no(c) == before.frame_no(c));
                    self.lemma_node_of_apart(c);
                }
            }
            assert(self.wf()) by {
                lemma_zero_entry();
                assert forall|i: int, k: int|
                    0 <= i < self.node_count() && 0 <= k < 512 && self.tags@[i].0 >= 1 && (
                    #[trigger] self.slot(i, k)).spec_valid() implies {
                    &&& self.node_of(self.slot(i, k).spec_ppn()) is Some
                    &&& self.tags@[self.node_of(self.slot(i, k).spec_ppn()).unwrap()] == (
                        self.tags@[i].0 - 1,
                        self.tags@[i].1 * 512 + k,
                    )
                } by {
                    if i < n {
                        assert(self.slot(i, k) == before.slot(i, k));
                        assert(self.child(i, k) == before.child(i, k));
                    } else {
                        assert(self.slot(n, k).bits == 0);
                    }
                }
            }
            assert(self.owned_by(allocator)) by {
                assert forall|i: int| 0 <= i < self.node_count() implies allocator.owns_frame(
                    #[trigger] self.frame_no(i),
                ) by {
                    if i < n {
                        assert(old(allocator).owns_frame(before.frame_no(i)));
                    }
                }
            }
            assert forall|vpn: int| #[trigger] self.entry(vpn) == before.entry(vpn) by {
                let j2 = (vpn / 512 / 512) % 512;
                let j1 = (vpn / 512) % 512;
                before.lemma_walk_tags(j2, j1);
                assert(self.child(0, j2) == before.child(0, j2));
                if before.child(0, j2) is Some {
                    let m1 = before.child(0, j2).unwrap();
                    assert(self.child(m1, j1) == before.child(m1, j1));
                    if before.child(m1, j1) is Some {
                        let m0 = before.child(m1, j1).unwrap();
                        assert(self.slot(m0, vpn % 512) == before.slot(m0, vpn % 512));
                    }
                }
            }
        }
        Ok(frame)
    }
}

} // verus!

verus! {

impl PageTableGuard {
    /// Making an entry above the lowest level lead to a node with no entry
    /// set keeps the tree a tree, and gives the table nothing but empty
    /// entries that it did not hold.
    proof fn lemma_link(&self, new: &PageTableGuard, q: int, k: int, e: PageTableEntry, m: int)
        requires
            self.wf(),
            new.same_nodes(self),
            0 <= q < self.node_count(),
            0 <= k < 512,
            0 <= m < self.node_count(),
            self.tags@[q].0 >= 1,
            !self.slot(q, k).spec_valid(),
            new.tables@ == self.tables@.update(q * 512 + k, e),
            e.spec_valid(),
            e.spec_ppn() == self.frame_no(m),
            self.tags@[m] == (self.tags@[q].0 - 1, self.tags@[q].1 * 512 + k),
            forall|kk: int| 0 <= kk < 512 ==> (#[trigger] self.slot(m, kk)).bits == 0,
        ensures
            new.wf(),
            new.child(q, k) == Some(m),
            forall|i: int, kk: int|
                0 <= i < self.node_count() && 0 <= kk < 512 && self.tags@[i].0 >= 1 && !(i == q
                    && kk == k) ==> #[trigger] new.child(i, kk) == self.child(i, kk),
            forall|i: int, kk: int|
                0 <= i < self.node_count() && 0 <= kk < 512 && !(i == q && kk == k)
                    ==> #[trigger] new.slot(i, kk) == self.slot(i, kk),
            self.grows_to(new),
    {
        lemma_zero_entry();
        assert forall|i: int| 0 <= i < new.node_count() implies #[trigger] new.frame_no(i)
            == self.frame_no(i) by {}
        assert forall|i: int, kk: int|
            0 <= i < self.node_count() && 0 <= kk < 512 && !(i == q && kk == k)
            implies #[trigger] new.slot(i, kk) == self.slot(i, kk) by {}
        assert(new.slot(q, k) == e);
        self.lemma_node_of(m);
        assert(new.child(q, k) == Some(m));
        assert forall|i: int, kk: int|
            0 <= i < self.node_count() && 0 <= kk < 512 && self.tags@[i].0 >= 1 && !(i == q && kk
                == k) implies #[trigger] new.child(i, kk) == self.child(i, kk) by {
            assert(new.slot(i, kk) == self.slot(i, kk));
        }
        assert(new.wf()) by {
            assert forall|i: int, kk: int|
                0 <= i < new.node_count() && 0 <= kk < 512 && new.tags@[i].0 >= 1 && (
                #[trigger] new.slot(i, kk)).spec_valid() implies {
                &&& new.node_of(new.slot(i, kk).spec_ppn()) is Some
                &&& new.tags@[new.node_of(new.slot(i, kk).spec_ppn()).unwrap()] == (
                    new.tags@[i].0 - 1,
                    new.tags@[i].1 * 512 + kk,
                )
            } by {
                if !(i == q && kk == k) {
                    assert(new.slot(i, kk) == self.slot(i, kk));
                }
            }
        }
        assert forall|vpn: int| 0 <= vpn < 0x800_0000 implies {
            ||| #[trigger] new.entry(vpn) == self.entry(vpn)
            ||| self.entry(vpn) is None && (new.entry(vpn) is None || new.entry(vpn) == Some(
                PageTableEntry { bits: 0 },
            ))
        } by {
            let j2 = (vpn / 512 / 512) % 512;
            let j1 = (vpn / 512) % 512;
            let j0 = vpn % 512;
            lemma_vpn_parts(vpn);
            self.lemma_walk_tags(j2, j1);
            if q == 0 && k == j2 {
                assert(self.child(0, j2) is None);
                assert(new.slot(m, j1) == self.slot(m, j1));
                assert(new.child(m, j1) is None);
            } else {
                assert(new.child(0, j2) == self.child(0, j2));
                if self.child(0, j2) is Some {
                    let n1 = self.child(0, j2).unwrap();
                    if q == n1 && k == j1 {
                        assert(self.child(n1, j1) is None);
                        assert(new.slot(m, j0) == self.slot(m, j0));
                        assert(new.entry(vpn) == Some(new.slot(m, j0)));
                    } else {
                        assert(new.child(n1, j1) == self.child(n1, j1));
                        if self.child(n1, j1) is Some {
                            let n0 = self.child(n1, j1).unwrap();
                            assert(new.slot(n0, j0) == self.slot(n0, j0));
                        }
                    }
                }
            }
        }
    }

    /// Gives entry `index` of node `node`, which is not valid, a new node to
    /// lead to, and returns which node that is.
    fn grow(&mut self, allocator: &mut FrameAllocator, node: usize, index: usize) -> (r: Result<
        usize,
        AllocError,
    >)
        requires
            old(self).wf(),
            old(allocator).wf(),
            old(self).owned_by(old(allocator)),
            node < old(self).node_count(),
            index < 512,
            old(self).tags@[node as int].0 >= 1,
            !old(self).slot(node as int, index as int).spec_valid(),
        ensures
            final(allocator).wf(),
            final(allocator).allocated_since(old(allocator)),
            final(self).wf(),
            final(self).owned_by(final(allocator)),
            match r {
                Ok(c) => {
                    &&& c == old(self).node_count()
                    &&& final(self).node_count() == old(self).node_count() + 1
                    &&& final(self).child(node as int, index as int) == Some(c as int)
                    &&& final(self).tags@ == old(self).tags@.push(
                        (
                            old(self).tags@[node as int].0 - 1,
                            old(self).tags@[node as int].1 * 512 + index,
                        ),
                    )
                    &&& forall|k: int|
                        0 <= k < 512 ==> (#[trigger] final(self).slot(c as int, k)).bits == 0
                    &&& forall|i: int, k: int|
                        0 <= i < old(self).node_count() && 0 <= k < 512 && old(self).tags@[i].0
                            >= 1 && !(i == node && k == index) ==> #[trigger] final(self).child(
                            i,
                            k,
                        ) == old(self).child(i, k)
                    &&& old(self).grows_to(final(self))
                    &&& forall|i: int|
                        0 <= i < old(self).node_count() ==> #[trigger] final(self).frame_no(i)
                            == old(self).frame_no(i)
                    &&& final(allocator).free_frames() == old(allocator).free_frames() - 1
                },
                Err(e) => {
                    &&& e == AllocError::ENoFrame
                    &&& *final(self) == *old(self)
                    &&& old(allocator).free_frames() == 0
                    &&& final(allocator).page_allocated@ == old(allocator).page_allocated@
                },
            },
    {
        let ghost tag = (self.tags@[node as int].0 - 1, self.tags@[node as int].1 * 512 + index);
        let frame: Frame = match self.allocate_node(allocator, Ghost(tag)) {
            Ok(frame) => frame,
            Err(e) => {
                return Err(e);
            },
        };
        let ghost mid = *self;
        let c: usize = self.node_frames.len() - 1;
        let node_pa: PhysAddr = frame.get_base_phys_addr();
        let e: PageTableEntry = PageTableEntry::new(
            node_pa,
            PTEFlags::from_bits_retain(PTEFlags::VALID),
        );
        self.set_slot(node, index, e);
        proof {
            lemma_made_valid(node_pa.0, PTEFlags { bits: 0 });
            assert(0u16 | 1u16 == 1u16) by (bit_vector);
            lemma_entry_round_trip(node_pa.0, PTEFlags { bits: 1 });
            assert(mid.slot(node as int, index as int) == old(self).slot(node as int, index as int));
            mid.lemma_link(self, node as int, index as int, e, c as int);
            assert(old(self).grows_to(&mid));
            old(self).lemma_grows_trans(&mid, self);
            assert forall|i: int, k: int|
                0 <= i < old(self).node_count() && 0 <= k < 512 && old(self).tags@[i].0 >= 1 && !(i
                    == node && k == index) implies #[trigger] self.child(i, k) == old(self).child(
                i,
                k,
            ) by {
                assert(mid.child(i, k) == old(self).child(i, k));
                assert(self.child(i, k) == mid.child(i, k));
            }
            assert forall|k: int| 0 <= k < 512 implies (#[trigger] self.slot(c as int, k)).bits
                == 0 by {
                assert(self.slot(c as int, k) == mid.slot(c as int, k));
            }
            assert(self.owned_by(allocator)) by {
                assert forall|i: int| 0 <= i < self.node_count() implies allocator.owns_frame(
                    #[trigger] self.frame_no(i),
                ) by {
                    assert(self.frame_no(i) == mid.frame_no(i));
                }
            }
            assert forall|i: int| 0 <= i < old(self).node_count() implies #[trigger] self.frame_no(
                i,
            ) == old(self).frame_no(i) by {
                assert(self.frame_no(i) == mid.frame_no(i));
            }
        }
        Ok(c)
    }

    /// The node of the lowest level on the walk for `va`, after giving the
    /// walk the nodes that it lacked.
    fn find_allocate(&mut self, allocator: &mut FrameAllocator, va: VirtAddr) -> (r: Result<
        usize,
        AllocError,
    >)
        requires
            old(self).wf(),
            old(allocator).wf(),
            old(self).owned_by(old(allocator)),
        ensures
            final(allocator).wf(),
            final(allocator).allocated_since(old(allocator)),
            final(self).wf(),
            final(self).owned_by(final(allocator)),
            old(self).grows_to(final(self)),
            final(self).node_count() >= old(self).node_count(),
            final(self).frame_no(0) == old(self).frame_no(0),
            forall|i: int|
                0 <= i < old(self).node_count() ==> #[trigger] final(self).frame_no(i) == old(self).frame_no(i),
            r is Ok <==> old(allocator).free_frames() >= old(self).missing_levels(vpn_of(va.0)),
            match r {
                Ok(n0) => {
                    &&& n0 < final(self).node_count()
                    &&& final(self).leaf_node(
                        (vpn_of(va.0) / 512 / 512) % 512,
                        (vpn_of(va.0) / 512) % 512,
                    ) == Some(n0 as int)
                    &&& final(allocator).free_frames() == old(allocator).free_frames() - old(self).missing_levels(vpn_of(va.0))
                    &&& forall|v: int|
                        0 <= v < 0x800_0000 ==> #[trigger] final(self).missing_levels(v)
                            == lacking_after(old(self).lacks(), vpn_of(va.0))(v)
                },
                Err(e) => {
                    &&& e == AllocError::ENoFrame
                    &&& final(allocator).free_frames() == 0
                },
            },
    {
        proof {
            lemma_indices(va.0);
            crate::allocator::frame_allocator::lemma_free_frames_bounds(*allocator);
        }
        let i2: usize = va.pte_index(2);
        let i1: usize = va.pte_index(1);
        let ghost vpn = vpn_of(va.0);
        let first: Option<usize> = self.step(0, i2);
        let n1: usize = match first {
            Some(n) => n,
            None => {
                match self.grow(allocator, 0, i2) {
                    Ok(n) => n,
                    Err(e) => {
                        assert(old(self).missing_levels(vpn) == 2);
                        return Err(e);
                    },
                }
            },
        };
        let ghost mid = *self;
        let ghost mid_allocator = *allocator;
        proof {
            old(self).lemma_walk_tags(i2 as int, i1 as int);
            mid.lemma_walk_tags(i2 as int, i1 as int);
            assert(mid.child(0, i2 as int) == Some(n1 as int));
            assert(mid.tags@[n1 as int] == (1int, i2 as int));
            if first is None {
                lemma_zero_entry();
                assert(mid.slot(n1 as int, i1 as int).bits == 0);
                assert(mid.child(n1 as int, i1 as int) is None);
                assert(old(self).missing_levels(vpn) == 2);
                assert(mid_allocator.free_frames() == old(allocator).free_frames() - 1);
            } else {
                assert(mid.child(n1 as int, i1 as int) == old(self).child(n1 as int, i1 as int));
                assert(old(self).missing_levels(vpn) <= 1);
                assert(mid_allocator.free_frames() == old(allocator).free_frames());
            }
        }
        let second: Option<usize> = self.step(n1, i1);
        let n0: usize = match second {
            Some(n) => n,
            None => {
                match self.grow(allocator, n1, i1) {
                    Ok(n) => n,
                    Err(e) => {
                        proof {
                            assert(old(self).missing_levels(vpn) >= 1);
                        }
                        return Err(e);
                    },
                }
            },
        };
        proof {
            crate::allocator::frame_allocator::lemma_free_frames_bounds(*allocator);
            old(self).lemma_grows_trans(&mid, self);
            assert(self.child(0, i2 as int) == Some(n1 as int));
            assert(self.child(n1 as int, i1 as int) == Some(n0 as int));
            if second is None {
                assert(allocator.free_frames() == mid_allocator.free_frames() - 1);
                if first is Some {
                    assert(old(self).missing_levels(vpn) == 1);
                }
            } else {
                assert(first is Some);
                assert(old(self).missing_levels(vpn) == 0);
            }
            lemma_vpn_parts(vpn);
            lemma_zero_entry();
            assert forall|v: int| 0 <= v < 0x800_0000 implies #[trigger] self.missing_levels(v)
                == lacking_after(old(self).lacks(), vpn)(v) by {
                let j2 = (v / 512 / 512) % 512;
                let j1 = (v / 512) % 512;
                lemma_vpn_parts(v);
                old(self).lemma_walk_tags(j2, j1);
                assert(old(self).lacks()(v) == old(self).missing_levels(v));
                if j2 != i2 {
                    assert(mid.child(0, j2) == old(self).child(0, j2));
                    assert(self.child(0, j2) == mid.child(0, j2));
                    if old(self).child(0, j2) is Some {
                        let m1 = old(self).child(0, j2).unwrap();
                        assert(mid.tags@[m1] == old(self).tags@[m1]);
                        assert(mid.child(m1, j1) == old(self).child(m1, j1));
                        assert(self.child(m1, j1) == mid.child(m1, j1));
                    }
                } else if j1 != i1 {
                    assert(self.child(n1 as int, j1) == mid.child(n1 as int, j1));
                    if first is None {
                        assert(mid.slot(n1 as int, j1).bits == 0);
                        assert(mid.child(n1 as int, j1) is None);
                    } else {
                        assert(mid.child(n1 as int, j1) == old(self).child(n1 as int, j1));
                    }
                }
            }
        }
        Ok(n0)
    }
}

} // verus!

verus! {

impl PageTableGuard {
    /// The entry that `map_one` and `map_one_allocate` write for a page of
    /// the frame of `pa` with `flags`.
    pub open spec fn mapping_entry(pa: u64, flags: PTEFlags) -> PageTableEntry {
        PageTableEntry { bits: entry_bits(pa, flags.with(PTEFlags::VALID)) }
    }

    /// Writes the entry `e` for `va` into node `n0`, the node of the lowest
    /// level on the walk for `va`.
    fn write_leaf(&mut self, n0: usize, va: VirtAddr, e: PageTableEntry)
        requires
            old(self).wf(),
            n0 < old(self).node_count(),
            old(self).leaf_node(
                (vpn_of(va.0) / 512 / 512) % 512,
                (vpn_of(va.0) / 512) % 512,
            ) == Some(n0 as int),
        ensures
            final(self).wf(),
            final(self).node_count() == old(self).node_count(),
            final(self).frame_no(0) == old(self).frame_no(0),
            forall|i: int|
                0 <= i < old(self).node_count() ==> #[trigger] final(self).frame_no(i) == old(self).frame_no(i),
            final(self).entry(vpn_of(va.0)) == Some(e),
            forall|other: int|
                0 <= other < 0x800_0000 && other != vpn_of(va.0) ==> #[trigger] final(self).entry(
                    other,
                ) == old(self).entry(other),
            forall|other: int| #[trigger]
                final(self).missing_levels(other) == old(self).missing_levels(other),
    {
        proof {
            lemma_indices(va.0);
        }
        self.set_slot(n0, va.pte_index(0), e);
        proof {
            old(self).lemma_leaf_write(self, n0 as int, e, vpn_of(va.0));
            assert forall|i: int| 0 <= i < old(self).node_count() implies #[trigger] self.frame_no(
                i,
            ) == old(self).frame_no(i) by {}
        }
    }

    /// Maps the page of `va` to the frame of `pa` with `flags`, where the
    /// walk for `va` lacks no node. Returns `None`, and changes nothing,
    /// where it lacks one.
    pub fn map_one(&mut self, va: VirtAddr, pa: PhysAddr, flags: PTEFlags) -> (r: Option<()>)
        requires
            old(self).wf(),
            !old(self)@.contains_key(vpn_of(va.0)),
        ensures
            final(self).wf(),
            final(self).node_count() == old(self).node_count(),
            final(self).frame_no(0) == old(self).frame_no(0),
            forall|i: int|
                0 <= i < old(self).node_count() ==> #[trigger] final(self).frame_no(i) == old(self).frame_no(i),
            r is Some <==> old(self).entry(vpn_of(va.0)) is Some,
            match r {
                Some(_) => {
                    &&& final(self).entry(vpn_of(va.0)) == Some(Self::mapping_entry(pa.0, flags))
                    &&& final(self)@ == old(self)@.insert(
                        vpn_of(va.0),
                        Self::mapping_entry(pa.0, flags).target(),
                    )
                },
                None => *final(self) == *old(self),
            },
    {
        let n0: usize = match self.locate(va) {
            Some(n0) => n0,
            None => {
                return None;
            },
        };
        let stored: PTEFlags = flags.union(PTEFlags::from_bits_retain(PTEFlags::VALID));
        self.write_leaf(n0, va, PageTableEntry::new(pa, stored));
        proof {
            lemma_indices(va.0);
            lemma_made_valid(pa.0, flags);
            assert(self@ =~= old(self)@.insert(
                vpn_of(va.0),
                Self::mapping_entry(pa.0, flags).target(),
            ));
        }
        Some(())
    }

    /// Maps the page of `va` to the frame of `pa` with `flags`, and first
    /// gives the walk for `va` the nodes that it lacks, in frames of
    /// `allocator`.
    pub fn map_one_allocate(
        &mut self,
        allocator: &mut FrameAllocator,
        va: VirtAddr,
        pa: PhysAddr,
        flags: PTEFlags,
    ) -> (r: Result<(), AllocError>)
        requires
            old(self).wf(),
            old(allocator).wf(),
            old(self).owned_by(old(allocator)),
            !old(self)@.contains_key(vpn_of(va.0)),
        ensures
            final(allocator).wf(),
            final(allocator).allocated_since(old(allocator)),
            final(self).wf(),
            final(self).owned_by(final(allocator)),
            final(self).node_count() >= old(self).node_count(),
            final(self).frame_no(0) == old(self).frame_no(0),
            forall|i: int|
                0 <= i < old(self).node_count() ==> #[trigger] final(self).frame_no(i) == old(self).frame_no(i),
            r is Ok <==> old(allocator).free_frames() >= old(self).missing_levels(vpn_of(va.0)),
            match r {
                Ok(_) => {
                    &&& final(self).entry(vpn_of(va.0)) == Some(Self::mapping_entry(pa.0, flags))
                    &&& final(self)@ == old(self)@.insert(
                        vpn_of(va.0),
                        Self::mapping_entry(pa.0, flags).target(),
                    )
                    &&& final(allocator).free_frames() == old(allocator).free_frames() - old(self).missing_levels(vpn_of(va.0))
                    &&& final(self).lacks() == lacking_after(old(self).lacks(), vpn_of(va.0))
                },
                Err(e) => {
                    &&& e == AllocError::ENoFrame
                    &&& final(self)@ == old(self)@
                    &&& final(allocator).free_frames() == 0
                },
            },
    {
        let n0: usize = match self.find_allocate(allocator, va) {
            Ok(n0) => n0,
            Err(e) => {
                proof {
                    old(self).lemma_grows_same_view(self);
                }
                return Err(e);
            },
        };
        let ghost mid = *self;
        let stored: PTEFlags = flags.union(PTEFlags::from_bits_retain(PTEFlags::VALID));
        self.write_leaf(n0, va, PageTableEntry::new(pa, stored));
        proof {
            lemma_indices(va.0);
            lemma_made_valid(pa.0, flags);
            old(self).lemma_grows_same_view(&mid);
            assert(self@ =~= mid@.insert(vpn_of(va.0), Self::mapping_entry(pa.0, flags).target()));
            assert forall|v: int| #[trigger]
                self.lacks()(v) == lacking_after(old(self).lacks(), vpn_of(va.0))(v) by {
                if 0 <= v < 0x800_0000 {
                    assert(self.missing_levels(v) == mid.missing_levels(v));
                }
            }
            assert(self.lacks() =~= lacking_after(old(self).lacks(), vpn_of(va.0)));
            assert forall|i: int| 0 <= i < old(self).node_count() implies #[trigger] self.frame_no(
                i,
            ) == old(self).frame_no(i) by {
                assert(self.frame_no(i) == mid.frame_no(i));
            }
            assert(self.owned_by(allocator)) by {
                assert forall|i: int| 0 <= i < self.node_count() implies allocator.owns_frame(
                    #[trigger] self.frame_no(i),
                ) by {
                    assert(self.frame_no(i) == mid.frame_no(i));
                }
            }
        }
        Ok(())
    }
}

/// A page that was mapped to a page-aligned address below the end of the
/// physical address space, with flags that fit in ten bits, translates to
/// that address and those flags with the valid flag, each byte of the page
/// to its byte of the frame.
pub proof fn lemma_mapped_translates(
    table: PageTableGuard,
    va: u64,
    pa: u64,
    flags: PTEFlags,
)
    requires
        pa % 4096 == 0,
        pa < 0x100_0000_0000_0000,
        flags.bits < 1024,
        table.entry(vpn_of(va)) == Some(PageTableGuard::mapping_entry(pa, flags)),
    ensures
        table.spec_translate(va) == Some(
            (PhysAddr((pa + va % 4096) as u64), flags.with(PTEFlags::VALID)),
        ),
        table@.contains_key(vpn_of(va)),
        table@[vpn_of(va)] == (pa, flags.with(PTEFlags::VALID)),
{
    let f: u16 = flags.bits;
    assert(f < 1024 ==> (f | 1u16) < 1024) by (bit_vector);
    lemma_entry_round_trip(pa, flags.with(PTEFlags::VALID));
    lemma_made_valid(pa, flags);
    lemma_indices(va);
}

/// A page that the table maps translates to the frame that the table holds
/// for it, each byte of the page to its byte of the frame, with the flags
/// that the table holds for it.
pub proof fn lemma_view_translates(table: PageTableGuard, va: u64)
    requires
        table@.contains_key(vpn_of(va)),
    ensures
        table.spec_translate(va) == Some(
            (PhysAddr((table@[vpn_of(va)].0 + va % 4096) as u64), table@[vpn_of(va)].1),
        ),
{
    let e = table.entry(vpn_of(va)).unwrap();
    assert(table@[vpn_of(va)] == e.target());
    assert(e.spec_ppn() * 4096 < 0x100_0000_0000_0000);
}

/// Mapping one page leaves what the table holds for every other page.
pub proof fn lemma_mapping_stays(
    before: PageTableGuard,
    after: PageTableGuard,
    mapped: int,
    target: (u64, PTEFlags),
    other: int,
)
    requires
        after@ == before@.insert(mapped, target),
        other != mapped,
    ensures
        after@.contains_key(other) == before@.contains_key(other),
        before@.contains_key(other) ==> after@[other] == before@[other],
{
}

} // verus!

verus! {

impl PageTableGuard {
    /// The table maps every backed page of `area` to the frame that backs
    /// it, with the flags of the area and the valid flag.
    pub open spec fn maps_area(&self, area: &VirtArea) -> bool {
        area.entries().submap_of(self@)
    }

    /// Maps every page of `virt_area` to the frame that backs it, with the
    /// flags of the area, from the lowest page up. Nodes that the table lacks
    /// come from `allocator`. Where `allocator` runs out, the pages below the
    /// one that was being mapped stay mapped.
    pub fn map_virt_area_allocate(
        &mut self,
        allocator: &mut FrameAllocator,
        virt_area: &VirtArea,
    ) -> (r: Result<(), AllocError>)
        requires
            old(self).wf(),
            old(allocator).wf(),
            old(self).owned_by(old(allocator)),
            virt_area.wf(),
            !virt_area.has_shared(),
            forall|vpn: int| virt_area.backed(vpn) ==> !old(self)@.contains_key(vpn),
        ensures
            final(allocator).wf(),
            final(allocator).allocated_since(old(allocator)),
            final(self).wf(),
            final(self).owned_by(final(allocator)),
            final(self).node_count() >= old(self).node_count(),
            final(self).frame_no(0) == old(self).frame_no(0),
            forall|i: int|
                0 <= i < old(self).node_count() ==> #[trigger] final(self).frame_no(i) == old(self).frame_no(i),
            r is Ok <==> old(allocator).free_frames() >= pages_lack(
                old(self).lacks(),
                virt_area.virt_frame_range.begin.number as int,
                virt_area.virt_frame_range.end.number as int,
            ),
            match r {
                Ok(_) => {
                    &&& final(self)@ == old(self)@.union_prefer_right(virt_area.entries())
                    &&& final(self).lacks() == lacking_after_pages(
                        old(self).lacks(),
                        virt_area.virt_frame_range.begin.number as int,
                        virt_area.virt_frame_range.end.number as int,
                    )
                    &&& final(allocator).free_frames() == old(allocator).free_frames()
                        - pages_lack(
                        old(self).lacks(),
                        virt_area.virt_frame_range.begin.number as int,
                        virt_area.virt_frame_range.end.number as int,
                    )
                },
                Err(e) => {
                    &&& e == AllocError::ENoFrame
                    &&& final(allocator).free_frames() == 0
                    &&& exists|limit: int|
                        virt_area.virt_frame_range.begin.number <= limit
                            < virt_area.virt_frame_range.end.number && final(self)@ == old(self)@.union_prefer_right(#[trigger] virt_area.entries_below(limit))
                },
            },
    {
        let flags: PTEFlags = virt_area.permissions().to_pte_flags();
        let rng: VirtFrameRange = virt_area.virt_frame_range;
        let end: VirtFrame = rng.get_end();
        let mut v_frame: VirtFrame = rng.get_begin();
        let ghost begin: int = v_frame.number as int;
        let ghost total: int = pages_lack(old(self).lacks(), begin, end.number as int);
        let ghost shape = lacking_after_pages(old(self).lacks(), begin, end.number as int);
        assert(self@ =~= old(self)@.union_prefer_right(
            virt_area.entries_below(v_frame.number as int),
        ));
        while !v_frame.same_position(&end)
            invariant
                self.wf(),
                allocator.wf(),
                allocator.allocated_since(old(allocator)),
                self.owned_by(allocator),
                virt_area.wf(),
                !virt_area.has_shared(),
                end == virt_area.virt_frame_range.end,
                begin == virt_area.virt_frame_range.begin.number,
                flags == virt_area.permissions.as_pte_flags(),
                begin <= v_frame.number <= end.number,
                forall|vpn: int| virt_area.backed(vpn) ==> !old(self)@.contains_key(vpn),
                self@ == old(self)@.union_prefer_right(
                    virt_area.entries_below(v_frame.number as int),
                ),
                self.node_count() >= old(self).node_count(),
                self.frame_no(0) == old(self).frame_no(0),
                forall|i: int|
                    0 <= i < old(self).node_count() ==> #[trigger] self.frame_no(i) == old(self).frame_no(i),
                total == pages_lack(old(self).lacks(), begin, end.number as int),
                shape == lacking_after_pages(old(self).lacks(), begin, end.number as int),
                total == old(allocator).free_frames() - allocator.free_frames() + pages_lack(
                    self.lacks(),
                    v_frame.number as int,
                    end.number as int,
                ),
                shape == lacking_after_pages(
                    self.lacks(),
                    v_frame.number as int,
                    end.number as int,
                ),
            decreases end.number - v_frame.number,
        {
            let va: VirtAddr = v_frame.get_base_virt_addr();
            let ghost vpn: int = v_frame.number as int;
            let ghost before = *self;
            proof {
                self.lemma_lacks(vpn);
                self.lemma_lacks_counts();
                lemma_counts_after(self.lacks(), vpn);
                lemma_pages_lack_counts(lacking_after(self.lacks(), vpn), vpn + 1, end.number as int);
                assert(virt_area.backed(vpn));
            }
            assert(vpn_of(va.0) == vpn);
            let mut mapped: Option<PhysAddr> = None;
            if virt_area.is_identically_mapped {
                mapped = Some(PhysAddr::new(va.as_usize()));
            } else {
                match virt_area.virt_frames.get(&va.as_usize()) {
                    Some(virt_frame_guard) => {
                        match virt_frame_guard {
                            VirtFrameGuard::ExclusivelyAllocated(phys_frame_guard) => {
                                mapped = Some(phys_frame_guard.inner_ref().get_base_phys_addr());
                            },
                            VirtFrameGuard::CowShared(_phys_frame_guard_arc) => {
                                // No area that is mapped holds a shared frame.
                            },
                            VirtFrameGuard::PhysBorrowed(phys_frame) => {
                                mapped = Some(phys_frame.get_base_phys_addr());
                            },
                        }
                    },
                    None => {
                        // Every page of the area is backed.
                    },
                }
            }
            match mapped {
                Some(pa) => {
                    assert(pa.0 == virt_area.backing(vpn));
                    match self.map_one_allocate(allocator, va, pa, flags) {
                        Ok(_) => {},
                        Err(e) => {
                            assert(self@ == old(self)@.union_prefer_right(
                                virt_area.entries_below(vpn),
                            ));
                            assert forall|i: int|
                                0 <= i < old(self).node_count() implies #[trigger] self.frame_no(i)
                                == old(self).frame_no(i) by {
                                assert(self.frame_no(i) == before.frame_no(i));
                            }
                            return Err(e);
                        },
                    }
                    proof {
                        lemma_area_entry(virt_area, vpn);
                        assert forall|i: int| 0 <= i < old(self).node_count() implies #[trigger] self.frame_no(
                            i,
                        ) == old(self).frame_no(i) by {
                            assert(self.frame_no(i) == before.frame_no(i));
                        }
                    }
                },
                None => {
                    assert(false);
                },
            }
            v_frame.step_one();
            assert(self@ =~= old(self)@.union_prefer_right(
                virt_area.entries_below(v_frame.number as int),
            ));
        }
        proof {
            crate::allocator::frame_allocator::lemma_free_frames_bounds(*allocator);
        }
        Ok(())
    }

    /// Whether the table maps every backed page of `virt_area` to the frame
    /// that backs it, with the flags of the area and the valid flag.
    pub fn verify_virt_area_mapping(&self, virt_area: &VirtArea) -> (r: bool)
        requires
            self.wf(),
            virt_area.wf(),
            !virt_area.has_shared(),
        ensures
            r == self.maps_area(virt_area),
    {
        let flags: PTEFlags = virt_area.permissions().to_pte_flags().union(
            PTEFlags::from_bits_retain(PTEFlags::VALID),
        );
        let rng: VirtFrameRange = virt_area.virt_frame_range;
        let end: VirtFrame = rng.get_end();
        let mut v_frame: VirtFrame = rng.get_begin();
        while !v_frame.same_position(&end)
            invariant
                self.wf(),
                virt_area.wf(),
                !virt_area.has_shared(),
                end == virt_area.virt_frame_range.end,
                flags == virt_area.entry_flags(),
                virt_area.virt_frame_range.begin.number <= v_frame.number <= end.number,
                virt_area.entries_below(v_frame.number as int).submap_of(self@),
            decreases end.number - v_frame.number,
        {
            let va: VirtAddr = v_frame.get_base_virt_addr();
            let ghost vpn: int = v_frame.number as int;
            assert(vpn_of(va.0) == vpn);
            let mut intended: Option<PhysAddr> = None;
            if virt_area.is_identically_mapped {
                intended = Some(PhysAddr::new(va.as_usize()));
            } else {
                match virt_area.virt_frames.get(&va.as_usize()) {
                    Some(virt_frame_guard) => {
                        assert(virt_area.virt_frames@.contains_key(va.0));
                        assert(virt_area.backed(vpn));
                        match virt_frame_guard {
                            VirtFrameGuard::ExclusivelyAllocated(phys_frame_guard) => {
                                intended = Some(phys_frame_guard.inner_ref().get_base_phys_addr());
                            },
                            VirtFrameGuard::CowShared(_phys_frame_guard_arc) => {
                                // No area that is verified holds a shared frame.
                            },
                            VirtFrameGuard::PhysBorrowed(phys_frame) => {
                                intended = Some(phys_frame.get_base_phys_addr());
                            },
                        }
                    },
                    None => {},
                }
            }
            match intended {
                Some(pa) => {
                    assert(virt_area.backed(vpn) && pa.0 == virt_area.backing(vpn));
                    proof {
                        let f: u16 = virt_area.permissions.bits;
                        assert((f | 1u16) & 1u16 == 1u16) by (bit_vector);
                    }
                    let found: bool = match self.find(va) {
                        Some(pte) => pte.referencing_address().as_usize() == pa.as_usize()
                            && pte.flags().bits() == flags.bits(),
                        None => false,
                    };
                    if !found {
                        proof {
                            let wanted = virt_area.entries();
                            assert(wanted.dom().contains(vpn));
                            assert(wanted[vpn] == (virt_area.backing(vpn), virt_area.entry_flags()));
                            if wanted.submap_of(self@) {
                                assert(self@.dom().contains(vpn));
                                assert(self@[vpn] == wanted[vpn]);
                                let e = self.entry(vpn).unwrap();
                                assert(e.target() == wanted[vpn]);
                                assert(false);
                            }
                        }
                        return false;
                    }
                    proof {
                        let e = self.entry(vpn).unwrap();
                        assert(e.spec_flags() == virt_area.entry_flags());
                        assert(e.spec_valid());
                        assert(self@.contains_key(vpn));
                        assert(self@[vpn] == (virt_area.backing(vpn), virt_area.entry_flags()));
                    }
                },
                None => {
                    assert(!virt_area.backed(vpn));
                },
            }
            v_frame.step_one();
            proof {
                let below = virt_area.entries_below(vpn);
                let next = virt_area.entries_below(vpn + 1);
                assert forall|k: int| next.contains_key(k) implies #[trigger] self@.contains_key(k)
                    && self@[k] == next[k] by {
                    if k < vpn {
                        assert(below.contains_key(k));
                        assert(below[k] == next[k]);
                    }
                }
            }
        }
        true
    }
}

/// The entry that maps a backed page of a well-formed area names the frame
/// that backs the page and holds the flags of the area with the valid flag.
pub proof fn lemma_area_entry(area: &VirtArea, vpn: int)
    requires
        area.wf(),
        area.backed(vpn),
    ensures
        PageTableGuard::mapping_entry(
            area.backing(vpn),
            area.permissions.as_pte_flags(),
        ).target() == (area.backing(vpn), area.entry_flags()),
{
    let f: u16 = area.permissions.bits;
    assert(f < 1024 ==> (f | 1u16) < 1024) by (bit_vector);
    if !area.is_identically_mapped {
        assert(area.virt_frames@.contains_key((vpn * 4096) as u64));
    }
    lemma_entry_round_trip(area.backing(vpn), area.entry_flags());
}

} // verus!

verus! {

/// The entry `e` with its writable flag set or cleared, as `lock_table` and
/// `unlock_table` write it back.
pub open spec fn rewritten(e: PageTableEntry, writable: bool) -> PageTableEntry {
    PageTableEntry {
        bits: entry_bits(
            (e.spec_ppn() * 4096) as u64,
            if writable {
                e.spec_flags().with(PTEFlags::WRITABLE)
            } else {
                e.spec_flags().without(PTEFlags::WRITABLE)
            },
        ),
    }
}

/// Writing an entry back a second time changes nothing, and the entry that
/// is written back names the same frame.
pub proof fn lemma_rewritten_twice(e: PageTableEntry, writable: bool)
    ensures
        rewritten(rewritten(e, writable), writable) == rewritten(e, writable),
        rewritten(e, writable).spec_ppn() == e.spec_ppn(),
        rewritten(e, writable).spec_flags() == if writable {
            e.spec_flags().with(PTEFlags::WRITABLE)
        } else {
            e.spec_flags().without(PTEFlags::WRITABLE)
        },
{
    let f: u16 = e.spec_flags().bits;
    assert(f < 1024 ==> (f | 4u16) < 1024 && (f & !4u16) < 1024 && (f | 4u16) | 4u16 == f | 4u16
        && (f & !4u16) & !4u16 == f & !4u16) by (bit_vector);
    let flags = if writable {
        e.spec_flags().with(PTEFlags::WRITABLE)
    } else {
        e.spec_flags().without(PTEFlags::WRITABLE)
    };
    lemma_entry_round_trip((e.spec_ppn() * 4096) as u64, flags);
}

impl PageTableGuard {
    /// One of the first `count` nodes lies in the frame whose number, as a
    /// page number, is `vpn`.
    pub closed spec fn holds_node_below(&self, vpn: int, count: int) -> bool {
        exists|i: int|
            0 <= i < count && i < self.node_count() && vpn_of(
                (#[trigger] self.frame_no(i) * 4096) as u64,
            ) == vpn
    }

    /// A node lies in the frame whose number, as a page number, is `vpn`.
    pub open spec fn holds_node(&self, vpn: int) -> bool {
        self.holds_node_below(vpn, self.node_count())
    }

    /// The walk for the page of each node frame, taken as a virtual page of
    /// the same number, lacks no node.
    pub closed spec fn reaches_nodes(&self) -> bool {
        forall|i: int|
            0 <= i < self.node_count() ==> self.entry(
                vpn_of((#[trigger] self.frame_no(i) * 4096) as u64),
            ) is Some
    }

    /// The table holds what `before` held, but for the pages of the first
    /// `count` node frames, whose entries are written back with the writable
    /// flag set or cleared.
    pub closed spec fn rewritten_from(
        &self,
        before: &PageTableGuard,
        writable: bool,
        count: int,
    ) -> bool {
        &&& self.node_count() == before.node_count()
        &&& forall|i: int|
            0 <= i < self.node_count() ==> #[trigger] self.frame_no(i) == before.frame_no(i)
        &&& forall|vpn: int|
            0 <= vpn < 0x800_0000 ==> #[trigger] self.entry(vpn) == if before.holds_node_below(
                vpn,
                count,
            ) {
                Some(rewritten(before.entry(vpn).unwrap(), writable))
            } else {
                before.entry(vpn)
            }
        &&& forall|vpn: int| #[trigger] self.missing_levels(vpn) == before.missing_levels(vpn)
    }

    /// Writes the entry for the page of each node frame back with the
    /// writable flag set or cleared.
    fn rewrite_node_pages(&mut self, writable: bool)
        requires
            old(self).wf(),
            old(self).reaches_nodes(),
        ensures
            final(self).wf(),
            final(self).reaches_nodes(),
            final(self).rewritten_from(old(self), writable, old(self).node_count()),
    {
        let n: usize = self.node_frames.len();
        let mut i: usize = 0;
        while i < n
            invariant
                i <= n,
                n == old(self).node_count(),
                old(self).wf(),
                old(self).reaches_nodes(),
                self.wf(),
                self.rewritten_from(old(self), writable, i as int),
            decreases n - i,
        {
            assert(self.frame_no(i as int) < 0x1000_0000_0000);
            let node_pa: PhysAddr = self.node_frames[i].get_frame().get_base_phys_addr();
            let va: VirtAddr = VirtAddr::from_identical(node_pa);
            let ghost vpn = vpn_of(va.0);
            let ghost mid = *self;
            proof {
                lemma_indices(va.0);
                assert(self.frame_no(i as int) == old(self).frame_no(i as int));
                assert(old(self).entry(vpn) is Some);
                assert(self.entry(vpn) is Some);
            }
            let n0: usize = match self.locate(va) {
                Some(n0) => n0,
                None => {
                    // Every node page is reached.
                    return ;
                },
            };
            let pte: PageTableEntry = self.entry_at(n0, va.pte_index(0));
            let flags: PTEFlags = if writable {
                pte.flags().union(PTEFlags::from_bits_retain(PTEFlags::WRITABLE))
            } else {
                pte.flags().difference(PTEFlags::from_bits_retain(PTEFlags::WRITABLE))
            };
            let e: PageTableEntry = PageTableEntry::new(pte.referencing_address(), flags);
            self.write_leaf(n0, va, e);
            proof {
                assert(e == rewritten(pte, writable));
                lemma_rewritten_twice(old(self).entry(vpn).unwrap(), writable);
                assert(old(self).holds_node_below(vpn, i + 1));
                assert forall|other: int| 0 <= other < 0x800_0000 implies #[trigger] self.entry(
                    other,
                ) == if old(self).holds_node_below(other, i + 1) {
                    Some(rewritten(old(self).entry(other).unwrap(), writable))
                } else {
                    old(self).entry(other)
                } by {
                    if other != vpn {
                        assert(self.entry(other) == mid.entry(other));
                        assert(old(self).holds_node_below(other, i + 1) == old(self).holds_node_below(other, i as int));
                    }
                }
                assert(self.rewritten_from(old(self), writable, i + 1));
            }
            i = i + 1;
        }
        proof {
            assert forall|j: int| 0 <= j < self.node_count() implies self.entry(
                vpn_of((#[trigger] self.frame_no(j) * 4096) as u64),
            ) is Some by {
                let v = vpn_of((self.frame_no(j) * 4096) as u64);
                assert(self.frame_no(j) == old(self).frame_no(j));
                assert(old(self).entry(v) is Some);
            }
        }
    }

    /// Makes the page of every node frame read-only in this table, so that
    /// a stray write to a node faults. The table must map the node frames
    /// identically.
    pub fn lock_table(&mut self)
        requires
            old(self).wf(),
            old(self).reaches_nodes(),
        ensures
            final(self).wf(),
            final(self).reaches_nodes(),
            final(self).rewritten_from(old(self), false, old(self).node_count()),
            final(self).node_count() == old(self).node_count(),
            forall|i: int|
                0 <= i < old(self).node_count() ==> #[trigger] final(self).frame_no(i) == old(self).frame_no(i),
    {
        self.rewrite_node_pages(false);
    }

    /// Makes the page of every node frame writable in this table again.
    pub fn unlock_table(&mut self)
        requires
            old(self).wf(),
            old(self).reaches_nodes(),
        ensures
            final(self).wf(),
            final(self).reaches_nodes(),
            final(self).rewritten_from(old(self), true, old(self).node_count()),
            final(self).node_count() == old(self).node_count(),
            forall|i: int|
                0 <= i < old(self).node_count() ==> #[trigger] final(self).frame_no(i) == old(self).frame_no(i),
    {
        self.rewrite_node_pages(true);
    }

    /// What a table holds after `lock_table` or `unlock_table`: for the page
    /// of a node frame the entry written back, for any other page what it
    /// held. The nodes lie in the frames in which they lay, and no walk lacks
    /// more or fewer nodes.
    pub proof fn lemma_rewritten_entry(
        &self,
        before: &PageTableGuard,
        writable: bool,
        vpn: int,
    )
        requires
            self.rewritten_from(before, writable, before.node_count()),
            0 <= vpn < 0x800_0000,
        ensures
            self.node_count() == before.node_count(),
            forall|i: int|
                0 <= i < before.node_count() ==> #[trigger] self.frame_no(i) == before.frame_no(
                    i,
                ),
            self.holds_node(vpn) == before.holds_node(vpn),
            self.missing_levels(vpn) == before.missing_levels(vpn),
            self.entry(vpn) == if before.holds_node(vpn) {
                Some(rewritten(before.entry(vpn).unwrap(), writable))
            } else {
                before.entry(vpn)
            },
    {
        if before.holds_node(vpn) {
            let i = choose|i: int|
                0 <= i < before.node_count() && i < before.node_count() && vpn_of(
                    (#[trigger] before.frame_no(i) * 4096) as u64,
                ) == vpn;
            assert(self.frame_no(i) == before.frame_no(i));
        }
        if self.holds_node(vpn) {
            let i = choose|i: int|
                0 <= i < self.node_count() && i < self.node_count() && vpn_of(
                    (#[trigger] self.frame_no(i) * 4096) as u64,
                ) == vpn;
            assert(self.frame_no(i) == before.frame_no(i));
        }
    }

    /// Locking a table and unlocking it again gives the table that was
    /// there, where the entry for the page of each node was writable and
    /// held no bit beyond its page number and flags.
    pub proof fn lemma_lock_then_unlock(
        before: &PageTableGuard,
        locked: &PageTableGuard,
        unlocked: &PageTableGuard,
    )
        requires
            locked.rewritten_from(before, false, before.node_count()),
            unlocked.rewritten_from(locked, true, locked.node_count()),
            forall|vpn: int|
                0 <= vpn < 0x800_0000 && before.holds_node(vpn) ==> {
                    &&& (#[trigger] before.entry(vpn)) is Some
                    &&& before.entry(vpn).unwrap().bits < 0x40_0000_0000_0000
                    &&& before.entry(vpn).unwrap().spec_flags().has(PTEFlags::WRITABLE)
                },
        ensures
            unlocked.node_count() == before.node_count(),
            forall|i: int|
                0 <= i < before.node_count() ==> #[trigger] unlocked.frame_no(i)
                    == before.frame_no(i),
            forall|vpn: int|
                0 <= vpn < 0x800_0000 ==> #[trigger] unlocked.entry(vpn) == before.entry(vpn),
            unlocked@ == before@,
    {
        assert forall|vpn: int| 0 <= vpn < 0x800_0000 implies #[trigger] unlocked.entry(vpn)
            == before.entry(vpn) by {
            locked.lemma_rewritten_entry(before, false, vpn);
            unlocked.lemma_rewritten_entry(locked, true, vpn);
            if before.holds_node(vpn) {
                let e = before.entry(vpn).unwrap();
                let l = rewritten(e, false);
                lemma_rewritten_twice(e, false);
                lemma_rewritten_twice(l, true);
                let f: u16 = e.spec_flags().bits;
                assert(f < 1024 && f & 4u16 == 4u16 ==> (f & !4u16) | 4u16 == f) by (bit_vector);
                assert(rewritten(l, true).bits == e.bits);
            }
        }
        assert forall|i: int| 0 <= i < before.node_count() implies #[trigger] unlocked.frame_no(
            i,
        ) == before.frame_no(i) by {
            locked.lemma_rewritten_entry(before, false, 0);
            unlocked.lemma_rewritten_entry(locked, true, 0);
            assert(unlocked.frame_no(i) == locked.frame_no(i));
        }
        locked.lemma_rewritten_entry(before, false, 0);
        unlocked.lemma_rewritten_entry(locked, true, 0);
        assert(unlocked@ =~= before@);
    }

    /// A table has its root, which is its first node.
    pub proof fn lemma_has_root(&self)
        requires
            self.wf(),
        ensures
            self.node_count() >= 1,
    {
    }

    /// What `lacks` says of a page is what the walk for the page lacks.
    pub proof fn lemma_lacks(&self, vpn: int)
        requires
            0 <= vpn < 0x800_0000,
        ensures
            self.lacks()(vpn) == self.missing_levels(vpn),
            0 <= self.missing_levels(vpn) <= 2,
    {
    }

    /// No walk lacks less than no node.
    pub proof fn lemma_lacks_counts(&self)
        ensures
            counts(self.lacks()),
    {
        assert forall|v: int| #[trigger] self.lacks()(v) >= 0 by {}
    }

    /// A walk lacks two nodes at most.
    pub proof fn lemma_missing_levels(&self, vpn: int)
        ensures
            0 <= self.missing_levels(vpn) <= 2,
    {
    }

    /// Whether every frame of a node is handed out by `allocator` as an
    /// allocation of its own.
    pub fn is_owned_by(&self, allocator: &FrameAllocator) -> (r: bool)
        requires
            self.wf(),
        ensures
            r == self.owned_by(allocator),
    {
        let n: usize = self.node_frames.len();
        let first: u64 = allocator.base_addr / 4096;
        let len: usize = allocator.page_allocated.len();
        let mut i: usize = 0;
        while i < n
            invariant
                i <= n,
                n == self.node_count(),
                first == allocator.base_addr / 4096,
                len == allocator.page_allocated@.len(),
                forall|j: int| 0 <= j < i ==> allocator.owns_frame(#[trigger] self.frame_no(j)),
            decreases n - i,
        {
            let number: u64 = self.node_frames[i].get_frame().number;
            let owned: bool = number >= first && number - first < len as u64
                && allocator.page_allocated[(number - first) as usize] == 1;
            if !owned {
                assert(!allocator.owns_frame(self.frame_no(i as int)));
                return false;
            }
            i = i + 1;
        }
        true
    }

    /// Whether the walk for the page of each node frame, taken as a virtual
    /// page of the same number, lacks no node.
    pub fn nodes_are_reached(&self) -> (r: bool)
        requires
            self.wf(),
        ensures
            r == self.reaches_nodes(),
    {
        let n: usize = self.node_frames.len();
        let mut i: usize = 0;
        while i < n
            invariant
                i <= n,
                n == self.node_count(),
                self.wf(),
                forall|j: int|
                    0 <= j < i ==> self.entry(vpn_of((#[trigger] self.frame_no(j) * 4096) as u64))
                        is Some,
            decreases n - i,
        {
            assert(self.frame_no(i as int) < 0x1000_0000_0000);
            let node_pa: PhysAddr = self.node_frames[i].get_frame().get_base_phys_addr();
            if self.find(VirtAddr::from_identical(node_pa)).is_none() {
                return false;
            }
            i = i + 1;
        }
        true
    }

    /// A table stays owned by an allocator that only hands out more frames.
    pub proof fn lemma_owned_later(&self, before: &FrameAllocator, after: &FrameAllocator)
        requires
            self.owned_by(before),
            after.allocated_since(before),
        ensures
            self.owned_by(after),
    {
        assert forall|i: int| 0 <= i < self.node_count() implies after.owns_frame(
            #[trigger] self.frame_no(i),
        ) by {
            assert(before.owns_frame(self.frame_no(i)));
        }
    }

    /// The frame of node `i` is the frame of a node.
    pub proof fn lemma_holds_node(&self, i: int)
        requires
            0 <= i < self.node_count(),
        ensures
            self.holds_node(vpn_of((self.frame_no(i) * 4096) as u64)),
    {
    }
}

} // verus!

verus! {

/// Once a table maps an area that is mapped identically, every page-aligned
/// address of the area translates to itself, with the flags of the area and
/// the valid flag.
pub proof fn lemma_identity_area_translates(
    before: PageTableGuard,
    after: PageTableGuard,
    area: VirtArea,
    p: u64,
)
    requires
        area.wf(),
        area.is_identically_mapped,
        after@ == before@.union_prefer_right(area.entries()),
        p % 4096 == 0,
        area.virt_frame_range.begin.number * 4096 <= p < area.virt_frame_range.end.number * 4096,
    ensures
        after.spec_translate(p) == Some((PhysAddr(p), area.entry_flags())),
{
    let vpn = p as int / 4096;
    assert(area.backed(vpn));
    assert(area.entries().contains_key(vpn));
    assert(vpn_of(p) == vpn);
    lemma_view_translates(after, p);
}

} // verus!

verus! {

impl PageTableGuard {
    /// How many nodes the table has.
    pub fn n_nodes(&self) -> (r: usize)
        ensures
            r == self.node_count(),
    {
        self.node_frames.len()
    }

    /// The frame of node `i`. The root is node 0.
    pub fn node_frame(&self, i: usize) -> (r: Frame)
        requires
            i < self.node_count(),
        ensures
            r.number == self.frame_no(i as int),
    {
        self.node_frames[i].get_frame()
    }

    /// The 512 entries of node `i`, as the frame of the node holds them.
    pub fn node_entries(&self, i: usize) -> (r: Vec<PageTableEntry>)
        requires
            self.wf(),
            i < self.node_count(),
        ensures
            r@.len() == 512,
            forall|k: int| 0 <= k < 512 ==> r@[k] == self.slot(i as int, k),
    {
        let mut out: Vec<PageTableEntry> = Vec::new();
        let mut k: usize = 0;
        while k < ENTRY_PER_TABLE
            invariant
                k <= 512,
                self.wf(),
                i < self.node_count(),
                out@.len() == k,
                forall|j: int| 0 <= j < k ==> out@[j] == self.slot(i as int, j),
            decreases 512 - k,
        {
            out.push(self.entry_at(i, k));
            k = k + 1;
        }
        out
    }

    /// Hands the frames of all nodes back to `allocator`, the last one
    /// first. The table is no more.
    pub fn release(self, allocator: &mut FrameAllocator)
        requires
            self.wf(),
            old(allocator).wf(),
            self.owned_by(old(allocator)),
        ensures
            final(allocator).wf(),
            final(allocator).base_addr == old(allocator).base_addr,
            final(allocator).page_allocated@.len() == old(allocator).page_allocated@.len(),
            final(allocator).free_frames() == old(allocator).free_frames() + self.node_count(),
            forall|i: int|
                0 <= i < self.node_count() ==> final(allocator).page_allocated@[old(allocator).frame_slot(#[trigger] self.frame_no(i))] == 0,
            forall|s: int|
                0 <= s < old(allocator).page_allocated@.len() && (forall|i: int|
                    0 <= i < self.node_count() ==> old(allocator).frame_slot(
                        #[trigger] self.frame_no(i),
                    ) != s) ==> final(allocator).page_allocated@[s] == old(allocator).page_allocated@[s],
    {
        let ghost n = self.node_count();
        let mut frames: Vec<FrameGuard> = self.node_frames;
        proof {
            assert forall|i: int| 0 <= i < n implies frames@[i].frame().number == self.frame_no(
                i,
            ) by {}
        }
        while frames.len() > 0
            invariant
                frames@.len() <= n,
                n == self.node_count(),
                self.wf(),
                self.owned_by(old(allocator)),
                allocator.wf(),
                allocator.base_addr == old(allocator).base_addr,
                allocator.page_allocated@.len() == old(allocator).page_allocated@.len(),
                allocator.free_frames() == old(allocator).free_frames() + n - frames@.len(),
                forall|i: int|
                    0 <= i < frames@.len() ==> frames@[i].frame().number == self.frame_no(i),
                forall|i: int|
                    0 <= i < frames@.len() ==> allocator.owns_frame(#[trigger] self.frame_no(i)),
                forall|i: int|
                    frames@.len() <= i < n ==> allocator.page_allocated@[allocator.frame_slot(
                        #[trigger] self.frame_no(i),
                    )] == 0,
                forall|s: int|
                    0 <= s < allocator.page_allocated@.len() && (forall|i: int|
                        0 <= i < n ==> allocator.frame_slot(#[trigger] self.frame_no(i)) != s)
                        ==> allocator.page_allocated@[s] == old(allocator).page_allocated@[s],
            decreases frames@.len(),
        {
            let ghost last = frames@.len() - 1;
            let ghost before = *allocator;
            let guard: FrameGuard = frames.pop().unwrap();
            assert(guard.frame().number == self.frame_no(last));
            assert(allocator.owns_frame(self.frame_no(last)));
            guard.release(allocator);
            proof {
                assert forall|i: int| 0 <= i < frames@.len() implies allocator.owns_frame(
                    #[trigger] self.frame_no(i),
                ) by {
                    assert(before.owns_frame(self.frame_no(i)));
                    assert(self.frame_no(i) != self.frame_no(last));
                }
                assert forall|i: int| frames@.len() <= i < n implies allocator.page_allocated@[allocator.frame_slot(
                    #[trigger] self.frame_no(i),
                )] == 0 by {
                    assert(old(allocator).owns_frame(self.frame_no(i)));
                    assert(old(allocator).owns_frame(self.frame_no(last)));
                    if i != last {
                        assert(self.frame_no(i) != self.frame_no(last));
                        assert(before.page_allocated@[before.frame_slot(self.frame_no(i))] == 0);
                    }
                }
                assert forall|s: int|
                    0 <= s < allocator.page_allocated@.len() && (forall|i: int|
                        0 <= i < n ==> allocator.frame_slot(#[trigger] self.frame_no(i)) != s)
                    implies allocator.page_allocated@[s] == old(allocator).page_allocated@[s] by {
                    assert(allocator.frame_slot(self.frame_no(last)) != s);
                    assert(forall|i: int|
                        0 <= i < n ==> before.frame_slot(#[trigger] self.frame_no(i)) != s);
                }
            }
        }
    }
}

} // verus!

verus! {

impl From<PageFlags> for PTEFlags {
    fn from(perms: PageFlags) -> (r: Self) {
        Self::from_bits_retain(perms.bits())
    }
}

impl vstd::std_specs::convert::FromSpecImpl<PageFlags> for PTEFlags {
    open spec fn obeys_from_spec() -> bool {
        true
    }

    open spec fn from_spec(perms: PageFlags) -> Self {
        PTEFlags { bits: perms.bits }
    }
}

impl From<PTEFlags> for PageFlags {
    fn from(flags: PTEFlags) -> (r: Self) {
        Self::from_bits_retain(flags.bits())
    }
}

impl vstd::std_specs::convert::FromSpecImpl<PTEFlags> for PageFlags {
    open spec fn obeys_from_spec() -> bool {
        true
    }

    open spec fn from_spec(flags: PTEFlags) -> Self {
        PageFlags { bits: flags.bits }
    }
}

impl From<PageTableEntry> for Frame {
    /// The frame that the entry names.
    fn from(entry: PageTableEntry) -> (r: Self) {
        entry.referencing_frame()
    }
}

impl vstd::std_specs::convert::FromSpecImpl<PageTableEntry> for Frame {
    open spec fn obeys_from_spec() -> bool {
        true
    }

    open spec fn from_spec(entry: PageTableEntry) -> Self {
        Frame { number: entry.spec_ppn() }
    }
}

} // verus!
