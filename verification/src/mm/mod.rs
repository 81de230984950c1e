//! Addresses, frames, page tables and address spaces.

pub mod address_space;
pub mod arithmetics;
pub mod layout;
pub mod memory;
pub mod page_table;

use vstd::prelude::*;

verus! {

/// What a hart writes when it turns paging on.
#[derive(Clone, Copy, Debug, PartialEq, Eq, Structural)]
pub struct HartPaging {
    /// The page number of the root of the kernel page table, for the
    /// address-translation register in Sv39 mode.
    pub root_ppn: u64,
    /// The scratch register: the address at which every process sees its
    /// own trapframe.
    pub sscratch: u64,
}

/// What a hart writes to turn paging on under the kernel address space
/// `kernel_space`.
pub fn hart_init(kernel_space: &address_space::AddrSpace) -> (r: HartPaging)
    requires
        kernel_space.table().wf(),
    ensures
        r.root_ppn == kernel_space.table().frame_no(0),
        r.sscratch == layout::TRAPFRAME_BASE_USER_VA,
{
    HartPaging {
        root_ppn: kernel_space.get_root_frame().number,
        sscratch: layout::TRAPFRAME_BASE_USER_VA,
    }
}

} // verus!
