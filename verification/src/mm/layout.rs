//! Physical and virtual memory layout of the machine.

use vstd::prelude::*;

verus! {

/// One beyond the highest virtual address in use. This is one bit less than
/// Sv39 allows, so that no address needs sign extension.
pub const MAX_VA: u64 = 0x40_0000_0000;

/// Base-two logarithm of the page size.
pub const PAGE_ORDER: u64 = 12;

/// Bytes in one page.
pub const PAGE_SIZE: u64 = 4096;

/// One beyond the highest physical address that a page-table entry can name.
pub const MAX_PA: u64 = 0x100_0000_0000_0000;

/// The trampoline page sits at the top of every address space.
pub const TRAMPOLINE_BASE_VA: u64 = MAX_VA - PAGE_SIZE;

/// Where the kernel image is loaded.
pub const KERNEL_BASE: u64 = 0x8000_0000;

/// One beyond the last byte of physical memory.
pub const PHYS_TOP: u64 = KERNEL_BASE + 128 * 1024 * 1024;

/// Bytes in the statically reserved heap for kernel data structures.
pub const KERNEL_HEAP_SIZE: u64 = 1024 * 1024;

/// Bytes in the kernel stack of a process.
pub const KERNEL_STACK_SIZE: u64 = PAGE_SIZE * 2;

/// Bytes in the user stack of a process.
pub const USER_STACK_SIZE: u64 = PAGE_SIZE * 2;

/// Registers of the 16550 UART.
pub const UART_BASE: u64 = 0x1000_0000;

pub const UART0: u64 = UART_BASE;

pub const UART_SIZE: u64 = PAGE_SIZE;

/// The virtio MMIO interface.
pub const VIRTIO_BASE: u64 = 0x1000_1000;

pub const VIRTIO0: u64 = VIRTIO_BASE;

pub const VIRTIO_SIZE: u64 = PAGE_SIZE;

/// The core-local interruptor, which holds the timer.
pub const CLINT_BASE: u64 = 0x200_0000;

pub const CLINT_MTIMECMP_BASE: u64 = CLINT_BASE + 0x4000;

pub const CLINT_MTIME_BASE: u64 = CLINT_BASE + 0xbff8;

pub const CLINT_SIZE: u64 = 0x1_0000;

/// The platform-level interrupt controller.
pub const PLIC_BASE: u64 = 0x0c00_0000;

pub const PLIC_PRIORITY: u64 = PLIC_BASE;

pub const PLIC_PENDING: u64 = PLIC_BASE + 0x1000;

pub const PLIC_SIZE: u64 = 0x40_0000;

/// Every process sees its own trapframe at this address.
pub const TRAPFRAME_BASE_USER_VA: u64 = TRAMPOLINE_BASE_VA - 2 * PAGE_SIZE;

pub const TRAPFRAME_SIZE: u64 = PAGE_SIZE;

/// Where the text of a user program begins.
pub const TEXT_BASE_USER_VA: u64 = 0x1_0000;

/// Where the linker put the sections of the kernel image and the memory
/// around it. Each section is the half-open byte range from its start to its
/// end.
#[derive(Clone, Copy, Debug)]
pub struct KernelSections {
    pub heap_start: u64,
    pub heap_end: u64,
    pub kernel_stack_start: u64,
    pub kernel_stack_end: u64,
    pub bss_start: u64,
    pub bss_end: u64,
    pub data_start: u64,
    pub data_end: u64,
    pub rodata_start: u64,
    pub rodata_end: u64,
    pub text_start: u64,
    pub text_end: u64,
    pub trampoline_start: u64,
}

/// The ranges of pages that the kernel maps identically, as first and
/// one-past-last page number, in the order in which they are mapped: heap,
/// boot stack, `.bss`, `.data`, `.rodata`, `.text`, virtio, UART, PLIC,
/// CLINT.
pub open spec fn kernel_ranges(s: KernelSections) -> Seq<(int, int)> {
    seq![
        (s.heap_start as int / 4096, (s.heap_end as int + 4095) / 4096),
        (s.kernel_stack_start as int / 4096, (s.kernel_stack_end as int + 4095) / 4096),
        (s.bss_start as int / 4096, (s.bss_end as int + 4095) / 4096),
        (s.data_start as int / 4096, (s.data_end as int + 4095) / 4096),
        (s.rodata_start as int / 4096, (s.rodata_end as int + 4095) / 4096),
        (s.text_start as int / 4096, (s.text_end as int + 4095) / 4096),
        (0x10001int, 0x10002int),
        (0x10000int, 0x10001int),
        (0xc000int, 0xc400int),
        (0x2000int, 0x2010int),
    ]
}

/// The first page of the bytes from `start` on, and the page after the last
/// page of the bytes up to `end`.
fn pages_of(start: u64, end: u64) -> (r: (u64, u64))
    ensures
        r.0 == start as int / 4096,
        r.1 == (end as int + 4095) / 4096,
{
    (start / PAGE_SIZE, end / PAGE_SIZE + if end % PAGE_SIZE == 0 { 0u64 } else { 1u64 })
}

impl KernelSections {
    /// The ranges of pages that the kernel maps identically.
    fn page_ranges(&self) -> (r: Vec<(u64, u64)>)
        ensures
            r@.len() == 10,
            forall|i: int|
                0 <= i < 10 ==> (#[trigger] r@[i]).0 == kernel_ranges(*self)[i].0 && r@[i].1
                    == kernel_ranges(*self)[i].1,
    {
        let mut ranges: Vec<(u64, u64)> = Vec::new();
        ranges.push(pages_of(self.heap_start, self.heap_end));
        ranges.push(pages_of(self.kernel_stack_start, self.kernel_stack_end));
        ranges.push(pages_of(self.bss_start, self.bss_end));
        ranges.push(pages_of(self.data_start, self.data_end));
        ranges.push(pages_of(self.rodata_start, self.rodata_end));
        ranges.push(pages_of(self.text_start, self.text_end));
        ranges.push(pages_of(VIRTIO_BASE, VIRTIO_BASE + VIRTIO_SIZE));
        ranges.push(pages_of(UART_BASE, UART_BASE + UART_SIZE));
        ranges.push(pages_of(PLIC_BASE, PLIC_BASE + PLIC_SIZE));
        ranges.push(pages_of(CLINT_BASE, CLINT_BASE + CLINT_SIZE));
        ranges
    }

    /// Whether the sections can be mapped as the kernel maps them.
    pub fn is_valid(&self) -> (r: bool)
        ensures
            r == self.wf(),
    {
        if self.trampoline_start >= MAX_PA {
            return false;
        }
        let ranges: Vec<(u64, u64)> = self.page_ranges();
        let mut i: usize = 0;
        while i < 10
            invariant
                i <= 10,
                ranges@.len() == 10,
                forall|k: int|
                    0 <= k < 10 ==> (#[trigger] ranges@[k]).0 == kernel_ranges(*self)[k].0
                        && ranges@[k].1 == kernel_ranges(*self)[k].1,
                forall|k: int|
                    0 <= k < i ==> (#[trigger] kernel_ranges(*self)[k]).0 <= kernel_ranges(
                        *self,
                    )[k].1 <= 0x3ff_ffff,
                forall|k: int, j: int|
                    0 <= k < j < 10 && k < i ==> (#[trigger] kernel_ranges(*self)[k]).1 <= (
                    #[trigger] kernel_ranges(*self)[j]).0 || kernel_ranges(*self)[j].1
                        <= kernel_ranges(*self)[k].0,
            decreases 10 - i,
        {
            let range: (u64, u64) = ranges[i];
            assert(range.0 == kernel_ranges(*self)[i as int].0);
            if range.0 > range.1 || range.1 > 0x3ff_ffff {
                return false;
            }
            let mut j: usize = i + 1;
            while j < 10
                invariant
                    i < j <= 10,
                    ranges@.len() == 10,
                    range == ranges@[i as int],
                    forall|k: int|
                        0 <= k < 10 ==> (#[trigger] ranges@[k]).0 == kernel_ranges(*self)[k].0
                            && ranges@[k].1 == kernel_ranges(*self)[k].1,
                    forall|m: int|
                        i < m < j ==> kernel_ranges(*self)[i as int].1 <= (
                        #[trigger] kernel_ranges(*self)[m]).0 || kernel_ranges(*self)[m].1
                            <= kernel_ranges(*self)[i as int].0,
                decreases 10 - j,
            {
                let other: (u64, u64) = ranges[j];
                assert(other.0 == kernel_ranges(*self)[j as int].0);
                if !(range.1 <= other.0 || other.1 <= range.0) {
                    return false;
                }
                j = j + 1;
            }
            i = i + 1;
        }
        true
    }

    /// Every range of pages that the kernel maps identically begins at or
    /// before its end and ends at or before the trampoline page, no two of
    /// them share a page, and the trampoline lies within the physical
    /// address space.
    pub open spec fn wf(&self) -> bool {
        &&& self.trampoline_start < MAX_PA
        &&& forall|i: int|
            0 <= i < 10 ==> (#[trigger] kernel_ranges(*self)[i]).0 <= kernel_ranges(*self)[i].1
                <= 0x3ff_ffff
        &&& forall|i: int, j: int|
            0 <= i < j < 10 ==> (#[trigger] kernel_ranges(*self)[i]).1 <= (#[trigger] kernel_ranges(
                *self,
            )[j]).0 || kernel_ranges(*self)[j].1 <= kernel_ranges(*self)[i].0
    }
}

} // verus!
