//! A first-fit allocator of page frames from one contiguous physical window.
//!
//! Each slot of the table stands for one frame of the window. A free frame
//! has a zero slot. An allocation of `n` frames writes `n` into each of its
//! `n` slots, so that the length of a run can be read off its first slot.

use vstd::prelude::*;
use crate::mm::layout::{MAX_PA, PAGE_SIZE};
use crate::mm::memory::PhysAddr;

verus! {

/// Why an allocation failed.
#[derive(Clone, Copy, Debug, PartialEq, Eq, Structural)]
pub enum AllocError {
    /// No run of free frames is long enough.
    ENoFrame,
}

/// The `n` slots from `i` on lie within the table and are all free.
pub open spec fn free_run(s: Seq<usize>, i: int, n: int) -> bool {
    &&& 0 <= i
    &&& 0 <= n
    &&& i + n <= s.len()
    &&& forall|j: int| i <= j < i + n ==> s[j] == 0
}

/// The slot `i` begins the first run of `n` free slots.
pub open spec fn is_first_fit(s: Seq<usize>, i: int, n: int) -> bool {
    &&& free_run(s, i, n)
    &&& forall|j: int| 0 <= j < i ==> !free_run(s, j, n)
}

/// The table `s` with the `n` slots from `i` on set to `v`.
pub open spec fn mark(s: Seq<usize>, i: int, n: int, v: usize) -> Seq<usize> {
    Seq::new(s.len(), |j: int| if i <= j < i + n { v } else { s[j] })
}

/// Read from slot `i` on, the table is a sequence of free slots and of runs,
/// each run made of as many slots as the number that each of them holds.
pub open spec fn runs_from(s: Seq<usize>, i: int) -> bool
    decreases s.len() - i,
{
    if i < 0 || i >= s.len() {
        true
    } else if s[i] == 0 {
        runs_from(s, i + 1)
    } else {
        &&& i + s[i] <= s.len()
        &&& forall|j: int| i <= j < i + s[i] ==> s[j] == s[i]
        &&& runs_from(s, i + s[i])
    }
}

/// Reading the table from slot `i` on as `runs_from` does, a free slot or a
/// run begins at `k`, or the table ends there.
pub open spec fn boundary(s: Seq<usize>, i: int, k: int) -> bool
    decreases s.len() - i,
{
    if k == i {
        true
    } else if i < 0 || i >= s.len() || i > k {
        false
    } else if s[i] == 0 {
        boundary(s, i + 1, k)
    } else if i + s[i] > s.len() {
        false
    } else {
        boundary(s, i + s[i], k)
    }
}

/// A boundary lies at or after the slot from which the table is read.
proof fn lemma_boundary_after(s: Seq<usize>, a: int, k: int)
    requires
        boundary(s, a, k),
    ensures
        a <= k,
{
}

/// From a boundary on, the table reads as it does from the start.
proof fn lemma_runs_from_boundary(s: Seq<usize>, a: int, k: int)
    requires
        0 <= a,
        runs_from(s, a),
        boundary(s, a, k),
    ensures
        runs_from(s, k),
    decreases s.len() - a,
{
    if a != k {
        if s[a] == 0 {
            lemma_runs_from_boundary(s, a + 1, k);
        } else {
            lemma_runs_from_boundary(s, a + s[a], k);
        }
    }
}

/// A run of allocated frames begins at slot `k`.
pub open spec fn is_run_start(s: Seq<usize>, k: int) -> bool {
    &&& 0 <= k < s.len()
    &&& s[k] != 0
    &&& boundary(s, 0, k)
}

/// How many frames hold `size` bytes.
pub open spec fn pages_for(size: u64) -> int {
    (size + 4095) / 4096
}

/// The number of free slots among the first `k`.
pub open spec fn free_before(s: Seq<usize>, k: int) -> int
    decreases k,
{
    if k <= 0 {
        0
    } else {
        free_before(s, k - 1) + if s[k - 1] == 0 { 1int } else { 0int }
    }
}

/// Two tables that agree from `a` on read alike from `a` on.
proof fn lemma_runs_from_suffix(s: Seq<usize>, t: Seq<usize>, a: int)
    requires
        s.len() == t.len(),
        0 <= a,
        forall|j: int| a <= j < s.len() ==> s[j] == t[j],
        runs_from(s, a),
    ensures
        runs_from(t, a),
    decreases s.len() - a,
{
    if a < s.len() {
        if s[a] == 0 {
            lemma_runs_from_suffix(s, t, a + 1);
        } else {
            lemma_runs_from_suffix(s, t, a + s[a]);
        }
    }
}

/// Free slots can be skipped.
proof fn lemma_skip_free(s: Seq<usize>, i: int, n: int)
    requires
        free_run(s, i, n),
        runs_from(s, i),
    ensures
        runs_from(s, i + n),
    decreases n,
{
    if n > 0 {
        lemma_skip_free(s, i, n - 1);
    }
}

/// Free slots can be put in front.
proof fn lemma_prepend_free(s: Seq<usize>, i: int, n: int)
    requires
        free_run(s, i, n),
        runs_from(s, i + n),
    ensures
        runs_from(s, i),
    decreases n,
{
    if n > 0 {
        assert(free_run(s, i + 1, n - 1));
        lemma_prepend_free(s, i + 1, n - 1);
    }
}

/// Marking a run of free slots as allocated keeps the table readable, and
/// the run begins at a boundary.
proof fn lemma_mark_allocated(s: Seq<usize>, a: int, i: int, n: int)
    requires
        0 <= a <= i,
        n >= 1,
        n <= usize::MAX,
        free_run(s, i, n),
        runs_from(s, a),
    ensures
        runs_from(mark(s, i, n, n as usize), a),
        boundary(mark(s, i, n, n as usize), a, i),
    decreases s.len() - a,
{
    let t = mark(s, i, n, n as usize);
    if a == i {
        lemma_skip_free(s, i, n);
        lemma_runs_from_suffix(s, t, i + n);
    } else {
        assert(s[i] == 0);
        if s[a] == 0 {
            lemma_mark_allocated(s, a + 1, i, n);
        } else {
            if i < a + s[a] {
                assert(s[i] == s[a]);
            }
            lemma_mark_allocated(s, a + s[a], i, n);
        }
    }
}

/// Clearing a run of allocated slots keeps the table readable.
proof fn lemma_mark_free(s: Seq<usize>, a: int, k: int)
    requires
        0 <= a <= k < s.len(),
        s[k] != 0,
        boundary(s, a, k),
        runs_from(s, a),
    ensures
        runs_from(mark(s, k, s[k] as int, 0), a),
    decreases s.len() - a,
{
    let t = mark(s, k, s[k] as int, 0);
    if a == k {
        lemma_runs_from_suffix(s, t, k + s[k]);
        assert(free_run(t, k, s[k] as int));
        lemma_prepend_free(t, k, s[k] as int);
    } else {
        if s[a] == 0 {
            lemma_mark_free(s, a + 1, k);
        } else {
            lemma_boundary_after(s, a + s[a], k);
            lemma_mark_free(s, a + s[a], k);
        }
    }
}

/// A slot that holds 1 is a run of its own.
proof fn lemma_single_is_boundary(s: Seq<usize>, a: int, k: int)
    requires
        0 <= a <= k < s.len(),
        runs_from(s, a),
        s[k] == 1,
    ensures
        boundary(s, a, k),
    decreases s.len() - a,
{
    if a < k {
        if s[a] == 0 {
            lemma_single_is_boundary(s, a + 1, k);
        } else {
            lemma_single_is_boundary(s, a + s[a], k);
        }
    }
}

/// Every allocated slot lies in a run that begins at a boundary, and holds
/// what the first slot of that run holds.
proof fn lemma_slot_in_run(s: Seq<usize>, a: int, j: int) -> (k: int)
    requires
        0 <= a <= j < s.len(),
        runs_from(s, a),
        s[j] != 0,
    ensures
        a <= k <= j < k + s[k],
        s[k] == s[j],
        boundary(s, a, k),
    decreases s.len() - a,
{
    if s[a] == 0 {
        lemma_slot_in_run(s, a + 1, j)
    } else if j < a + s[a] {
        a
    } else {
        lemma_slot_in_run(s, a + s[a], j)
    }
}

/// A run that begins at a boundary ends before the next boundary.
proof fn lemma_runs_apart(s: Seq<usize>, a: int, k1: int, k2: int)
    requires
        0 <= a <= k1 < k2 <= s.len(),
        runs_from(s, a),
        boundary(s, a, k1),
        boundary(s, a, k2),
        s[k1] != 0,
    ensures
        k1 + s[k1] <= k2,
    decreases s.len() - a,
{
    if a < k1 {
        if s[a] == 0 {
            lemma_runs_apart(s, a + 1, k1, k2);
        } else {
            lemma_boundary_after(s, a + s[a], k1);
            lemma_runs_apart(s, a + s[a], k1, k2);
        }
    } else {
        lemma_boundary_after(s, k1 + s[k1], k2);
    }
}

/// Setting a free slot to a value other than zero leaves one free slot less.
proof fn lemma_free_before_update(s: Seq<usize>, i: int, v: usize, k: int)
    requires
        0 <= i < s.len(),
        0 <= k <= s.len(),
        s[i] == 0,
        v != 0,
    ensures
        free_before(s.update(i, v), k) == free_before(s, k) - if i < k { 1int } else { 0int },
    decreases k,
{
    if k > 0 {
        lemma_free_before_update(s, i, v, k - 1);
    }
}

/// Clearing an allocated slot leaves one free slot more.
proof fn lemma_free_before_clear(s: Seq<usize>, i: int, k: int)
    requires
        0 <= i < s.len(),
        0 <= k <= s.len(),
        s[i] != 0,
    ensures
        free_before(s.update(i, 0usize), k) == free_before(s, k) + if i < k { 1int } else { 0int },
    decreases k,
{
    if k > 0 {
        lemma_free_before_clear(s, i, k - 1);
    }
}

/// A table with a free slot counts at least one, and a table that counts at
/// least one has a free slot.
proof fn lemma_free_before_positive(s: Seq<usize>, k: int)
    requires
        0 <= k <= s.len(),
    ensures
        0 <= free_before(s, k) <= k,
        free_before(s, k) > 0 <==> exists|j: int| 0 <= j < k && s[j] == 0,
    decreases k,
{
    if k > 0 {
        lemma_free_before_positive(s, k - 1);
        if s[k - 1] == 0 {
            assert(0 <= k - 1 < k && s[k - 1] == 0);
        }
    }
}

/// The frames of a physical window and which of them are handed out.
pub struct FrameAllocator {
    /// One slot for each frame of the window: zero for a free frame, else
    /// the number of frames of the allocation that the frame belongs to.
    pub page_allocated: Vec<usize>,
    /// The address of the window's first byte.
    pub base_addr: u64,
}

impl FrameAllocator {
    /// The window begins at a page boundary and ends within the physical
    /// address space, and the table is a sequence of free slots and of
    /// whole runs.
    pub open spec fn wf(&self) -> bool {
        &&& self.base_addr % 4096 == 0
        &&& self.base_addr + self.page_allocated@.len() * 4096 <= MAX_PA
        &&& runs_from(self.page_allocated@, 0)
    }

    /// The address of the frame of slot `i`.
    pub open spec fn slot_addr(&self, i: int) -> int {
        self.base_addr + i * 4096
    }

    /// The slot of the frame that holds the address `addr`.
    pub open spec fn addr_slot(&self, addr: u64) -> int {
        (addr - self.base_addr) / 4096
    }

    /// The slot of the frame with page number `number`.
    pub open spec fn frame_slot(&self, number: u64) -> int {
        number - self.base_addr / 4096
    }

    /// The frame with page number `number` lies in the window and is handed
    /// out as an allocation of its own.
    pub open spec fn owns_frame(&self, number: u64) -> bool {
        &&& 0 <= self.frame_slot(number) < self.page_allocated@.len()
        &&& self.page_allocated@[self.frame_slot(number)] == 1
    }

    /// The allocator has the window that `earlier` had, and every frame that
    /// was handed out then is handed out still, in the same allocation.
    pub open spec fn allocated_since(&self, earlier: &FrameAllocator) -> bool {
        &&& self.base_addr == earlier.base_addr
        &&& self.page_allocated@.len() == earlier.page_allocated@.len()
        &&& forall|i: int|
            0 <= i < earlier.page_allocated@.len() && earlier.page_allocated@[i] != 0
                ==> self.page_allocated@[i] == earlier.page_allocated@[i]
    }

    /// How many frames of the window are free.
    pub open spec fn free_frames(&self) -> int {
        free_before(self.page_allocated@, self.page_allocated@.len() as int)
    }

    /// An allocator for the `n_pages` frames from `base_addr` on, all free.
    pub fn new(base_addr: u64, n_pages: usize) -> (r: Self)
        requires
            base_addr % 4096 == 0,
            base_addr + n_pages * 4096 <= MAX_PA,
        ensures
            r.wf(),
            r.base_addr == base_addr,
            r.page_allocated@.len() == n_pages,
            forall|i: int| 0 <= i < n_pages ==> r.page_allocated@[i] == 0,
    {
        let mut page_allocated: Vec<usize> = Vec::new();
        let mut i: usize = 0;
        while i < n_pages
            invariant
                i <= n_pages,
                page_allocated@.len() == i,
                forall|j: int| 0 <= j < i ==> page_allocated@[j] == 0,
            decreases n_pages - i,
        {
            page_allocated.push(0);
            i = i + 1;
        }
        proof {
            assert(free_run(page_allocated@, 0, n_pages as int));
            lemma_prepend_free(page_allocated@, 0, n_pages as int);
        }
        Self { page_allocated, base_addr }
    }

    /// Hands out the first run of free frames that holds `size` bytes, and
    /// returns the address of its first byte.
    pub fn allocate(&mut self, size: u64) -> (r: Result<PhysAddr, AllocError>)
        requires
            old(self).wf(),
        ensures
            final(self).wf(),
            final(self).base_addr == old(self).base_addr,
            final(self).page_allocated@.len() == old(self).page_allocated@.len(),
            match r {
                Ok(pa) => {
                    let i = old(self).addr_slot(pa.0);
                    &&& is_first_fit(old(self).page_allocated@, i, pages_for(size))
                    &&& pa.0 == old(self).slot_addr(i)
                    &&& final(self).page_allocated@ == mark(
                        old(self).page_allocated@,
                        i,
                        pages_for(size),
                        pages_for(size) as usize,
                    )
                    &&& size >= 1 ==> is_run_start(final(self).page_allocated@, i)
                },
                Err(e) => {
                    &&& e == AllocError::ENoFrame
                    &&& forall|i: int| !free_run(old(self).page_allocated@, i, pages_for(size))
                    &&& final(self).page_allocated@ == old(self).page_allocated@
                },
            },
    {
        let wide: u64 = size / PAGE_SIZE + if size % PAGE_SIZE == 0 { 0u64 } else { 1u64 };
        let len: usize = self.page_allocated.len();
        if wide > len as u64 {
            return Err(AllocError::ENoFrame);
        }
        let npages: usize = wide as usize;
        let mut i: usize = 0;
        while i <= len - npages
            invariant
                old(self).wf(),
                npages <= len,
                len == self.page_allocated@.len(),
                npages == pages_for(size),
                *self == *old(self),
                forall|j: int| 0 <= j < i ==> !free_run(self.page_allocated@, j, npages as int),
            decreases len - i,
        {
            if self.is_free_run(i, npages) {
                self.mark_run(i, npages, npages);
                proof {
                    let s = old(self).page_allocated@;
                    if npages >= 1 {
                        lemma_mark_allocated(s, 0, i as int, npages as int);
                    } else {
                        assert(self.page_allocated@ =~= s);
                    }
                    assert(old(self).addr_slot((self.base_addr + i * 4096) as u64) == i);
                }
                return Ok(PhysAddr::new(self.base_addr + (i as u64) * PAGE_SIZE));
            }
            i = i + 1;
        }
        proof {
            assert forall|k: int| !free_run(self.page_allocated@, k, npages as int) by {
                if free_run(self.page_allocated@, k, npages as int) {
                    assert(k < i);
                }
            }
        }
        Err(AllocError::ENoFrame)
    }

    /// Whether the `n` slots from `i` on are all free.
    fn is_free_run(&self, i: usize, n: usize) -> (r: bool)
        requires
            i + n <= self.page_allocated@.len(),
        ensures
            r == free_run(self.page_allocated@, i as int, n as int),
    {
        let len: usize = self.page_allocated.len();
        let mut j: usize = 0;
        while j < n
            invariant
                j <= n,
                i + n <= len,
                len == self.page_allocated@.len(),
                forall|t: int| i <= t < i + j ==> self.page_allocated@[t] == 0,
            decreases n - j,
        {
            if self.page_allocated[i + j] != 0 {
                return false;
            }
            j = j + 1;
        }
        true
    }

    /// Sets the `n` slots from `i` on to `v`.
    fn mark_run(&mut self, i: usize, n: usize, v: usize)
        requires
            i + n <= old(self).page_allocated@.len(),
        ensures
            final(self).base_addr == old(self).base_addr,
            final(self).page_allocated@ == mark(old(self).page_allocated@, i as int, n as int, v),
    {
        let len: usize = self.page_allocated.len();
        assert(self.page_allocated@ =~= mark(old(self).page_allocated@, i as int, 0, v));
        let mut t: usize = 0;
        while t < n
            invariant
                t <= n,
                i + n <= len,
                len == self.page_allocated@.len(),
                self.base_addr == old(self).base_addr,
                self.page_allocated@ == mark(old(self).page_allocated@, i as int, t as int, v),
            decreases n - t,
        {
            self.page_allocated.set(i + t, v);
            t = t + 1;
            assert(self.page_allocated@ =~= mark(old(self).page_allocated@, i as int, t as int, v));
        }
    }

    /// Takes back the run of frames that begins at the frame of `addr`.
    pub fn deallocate(&mut self, addr: PhysAddr)
        requires
            old(self).wf(),
            old(self).base_addr <= addr.0,
            is_run_start(old(self).page_allocated@, old(self).addr_slot(addr.0)),
        ensures
            final(self).wf(),
            final(self).base_addr == old(self).base_addr,
            final(self).page_allocated@ == mark(
                old(self).page_allocated@,
                old(self).addr_slot(addr.0),
                old(self).page_allocated@[old(self).addr_slot(addr.0)] as int,
                0,
            ),
    {
        let len: usize = self.page_allocated.len();
        let begin_wide: u64 = (addr.0 - self.base_addr) / PAGE_SIZE;
        assert(begin_wide == old(self).addr_slot(addr.0));
        let begin_idx: usize = begin_wide as usize;
        let npages: usize = self.page_allocated[begin_idx];
        proof {
            lemma_runs_from_boundary(self.page_allocated@, 0, begin_idx as int);
            lemma_mark_free(self.page_allocated@, 0, begin_idx as int);
        }
        self.mark_run(begin_idx, npages, 0);
    }
}

/// Hands out one frame of `allocator` and returns its base address.
pub fn allocate_one_frame(allocator: &mut FrameAllocator) -> (r: Result<PhysAddr, AllocError>)
    requires
        old(allocator).wf(),
    ensures
        final(allocator).wf(),
        final(allocator).base_addr == old(allocator).base_addr,
        final(allocator).page_allocated@.len() == old(allocator).page_allocated@.len(),
        match r {
            Ok(pa) => {
                let i = old(allocator).addr_slot(pa.0);
                &&& is_first_fit(old(allocator).page_allocated@, i, 1)
                &&& pa.0 == old(allocator).slot_addr(i)
                &&& final(allocator).page_allocated@ == old(allocator).page_allocated@.update(
                    i,
                    1usize,
                )
                &&& final(allocator).free_frames() == old(allocator).free_frames() - 1
            },
            Err(e) => {
                &&& e == AllocError::ENoFrame
                &&& old(allocator).free_frames() == 0
                &&& final(allocator).page_allocated@ == old(allocator).page_allocated@
            },
        },
{
    let r = allocator.allocate(PAGE_SIZE);
    proof {
        let s = old(allocator).page_allocated@;
        lemma_free_before_positive(s, s.len() as int);
        match r {
            Ok(pa) => {
                let i = old(allocator).addr_slot(pa.0);
                assert(pages_for(PAGE_SIZE) == 1);
                assert(s[i] == 0);
                assert(mark(s, i, 1, 1usize) =~= s.update(i, 1usize));
                lemma_free_before_update(s, i, 1usize, s.len() as int);
                assert(allocator.page_allocated@ == s.update(i, 1usize));
                assert(allocator.free_frames() == old(allocator).free_frames() - 1);
            },
            Err(_) => {
                if exists|j: int| 0 <= j < s.len() && s[j] == 0 {
                    let j = choose|j: int| 0 <= j < s.len() && s[j] == 0;
                    assert(free_run(s, j, 1));
                }
            },
        }
    }
    r
}

/// Takes back the frame of `allocator` whose base address is `pa`.
pub fn deallocate_one_frame(allocator: &mut FrameAllocator, pa: PhysAddr)
    requires
        old(allocator).wf(),
        pa.0 % 4096 == 0,
        old(allocator).owns_frame(pa.0 / 4096),
    ensures
        final(allocator).wf(),
        final(allocator).base_addr == old(allocator).base_addr,
        final(allocator).page_allocated@ == old(allocator).page_allocated@.update(
            old(allocator).frame_slot(pa.0 / 4096),
            0usize,
        ),
        final(allocator).free_frames() == old(allocator).free_frames() + 1,
{
    proof {
        let s = old(allocator).page_allocated@;
        let k = old(allocator).frame_slot(pa.0 / 4096);
        lemma_free_before_clear(s, k, s.len() as int);
        assert(old(allocator).addr_slot(pa.0) == k);
        lemma_single_is_boundary(s, 0, k);
        assert(mark(s, k, 1, 0usize) =~= s.update(k, 0usize));
    }
    allocator.deallocate(pa);
}

/// The number of free frames lies between zero and the number of frames.
pub proof fn lemma_free_frames_bounds(allocator: FrameAllocator)
    ensures
        0 <= allocator.free_frames() <= allocator.page_allocated@.len(),
{
    lemma_free_before_positive(
        allocator.page_allocated@,
        allocator.page_allocated@.len() as int,
    );
}

/// Two allocators with the same table have as many free frames.
pub proof fn lemma_same_free_frames(a: FrameAllocator, b: FrameAllocator)
    requires
        a.page_allocated@ == b.page_allocated@,
    ensures
        a.free_frames() == b.free_frames(),
{
}

/// In a well-formed table every allocated slot belongs to a run that begins
/// at a boundary and holds the length of that run, and two runs share no
/// slot.
pub proof fn lemma_runs_partition(allocator: FrameAllocator)
    requires
        allocator.wf(),
    ensures
        forall|j: int|
            0 <= j < allocator.page_allocated@.len() && allocator.page_allocated@[j] != 0
                ==> exists|k: int|
                is_run_start(allocator.page_allocated@, k) && k <= j < k
                    + allocator.page_allocated@[k] && #[trigger] allocator.page_allocated@[j]
                    == allocator.page_allocated@[k],
        forall|k1: int, k2: int|
            #![trigger is_run_start(allocator.page_allocated@, k1), is_run_start(allocator.page_allocated@, k2)]
            is_run_start(allocator.page_allocated@, k1) && is_run_start(
                allocator.page_allocated@,
                k2,
            ) && k1 < k2 ==> k1 + allocator.page_allocated@[k1] <= k2,
{
    let s = allocator.page_allocated@;
    assert forall|j: int| 0 <= j < s.len() && s[j] != 0 implies exists|k: int|
        is_run_start(s, k) && k <= j < k + s[k] && #[trigger] s[j] == s[k] by {
        let k = lemma_slot_in_run(s, 0, j);
        assert(is_run_start(s, k) && k <= j < k + s[k] && s[j] == s[k]);
    }
    assert forall|k1: int, k2: int|
        #![trigger is_run_start(s, k1), is_run_start(s, k2)]
        is_run_start(s, k1) && is_run_start(s, k2) && k1 < k2 implies k1 + s[k1] <= k2 by {
        lemma_runs_apart(s, 0, k1, k2);
    }
}

/// After room for at least one byte was allocated, a run begins at the slot
/// of the address that came, so that the address can be handed back.
pub proof fn lemma_allocated_is_run_start(
    before: FrameAllocator,
    between: FrameAllocator,
    size: u64,
    pa: PhysAddr,
)
    requires
        before.wf(),
        size >= 1,
        between.base_addr == before.base_addr,
        is_first_fit(before.page_allocated@, before.addr_slot(pa.0), pages_for(size)),
        between.page_allocated@ == mark(
            before.page_allocated@,
            before.addr_slot(pa.0),
            pages_for(size),
            pages_for(size) as usize,
        ),
    ensures
        between.wf(),
        is_run_start(between.page_allocated@, between.addr_slot(pa.0)),
        between.page_allocated@[between.addr_slot(pa.0)] == pages_for(size),
{
    let s = before.page_allocated@;
    let i = before.addr_slot(pa.0);
    assert(before.page_allocated.len() == s.len());
    lemma_mark_allocated(s, 0, i, pages_for(size));
}

/// Allocating room for `size` bytes and handing back the address that came
/// gives the table that was there before.
pub proof fn lemma_allocate_then_deallocate(
    before: FrameAllocator,
    between: FrameAllocator,
    after: FrameAllocator,
    size: u64,
    pa: PhysAddr,
)
    requires
        before.wf(),
        size >= 1,
        between.base_addr == before.base_addr,
        is_first_fit(before.page_allocated@, before.addr_slot(pa.0), pages_for(size)),
        pa.0 == before.slot_addr(before.addr_slot(pa.0)),
        between.page_allocated@ == mark(
            before.page_allocated@,
            before.addr_slot(pa.0),
            pages_for(size),
            pages_for(size) as usize,
        ),
        after.page_allocated@ == mark(
            between.page_allocated@,
            between.addr_slot(pa.0),
            between.page_allocated@[between.addr_slot(pa.0)] as int,
            0,
        ),
    ensures
        is_run_start(between.page_allocated@, between.addr_slot(pa.0)),
        after.page_allocated@ == before.page_allocated@,
{
    let s = before.page_allocated@;
    let i = before.addr_slot(pa.0);
    let n = pages_for(size);
    assert(before.page_allocated.len() == s.len());
    lemma_mark_allocated(s, 0, i, n);
    assert(between.page_allocated@[i] == n as usize);
    assert(after.page_allocated@ =~= s);
}

} // verus!
