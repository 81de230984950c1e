//! Instruction page faults of user processes.

use vstd::prelude::*;
use crate::mm::address_space::AddrSpace;
use crate::mm::memory::{PhysAddr, VirtAddr};
use crate::mm::page_table::PageFlags;

verus! {

/// What an instruction page fault at an address turns out to be.
#[derive(Clone, Copy, Debug, PartialEq, Eq, Structural)]
pub enum PageFaultVerdict {
    /// The walk for the address lacks a node.
    NotMapped,
    /// The page is mapped, but not for execution.
    NotExecutable,
    /// The page is mapped for execution, but not for user mode.
    NotUser,
    /// The page is mapped for execution in user mode, to this address and
    /// with these flags.
    Mapped(PhysAddr, PageFlags),
}

/// The handler of instruction page faults.
pub struct InstructionPageFaultHandler {}

impl InstructionPageFaultHandler {
    /// What `handle` finds for the translation `translated` of the faulting
    /// address.
    pub open spec fn verdict(translated: Option<(PhysAddr, PageFlags)>) -> PageFaultVerdict {
        match translated {
            None => PageFaultVerdict::NotMapped,
            Some((pa, flags)) => if !flags.has(PageFlags::EXECUTABLE) {
                PageFaultVerdict::NotExecutable
            } else if !flags.has(PageFlags::USER) {
                PageFaultVerdict::NotUser
            } else {
                PageFaultVerdict::Mapped(pa, flags)
            },
        }
    }

    /// Looks up the faulting address `va` in the address space of the
    /// process and says what is wrong with it.
    pub fn handle(user_space: &AddrSpace, va: u64) -> (r: PageFaultVerdict)
        requires
            user_space.table().wf(),
        ensures
            r == Self::verdict(
                match user_space.table().spec_translate(va) {
                    Some((pa, flags)) => Some((pa, PageFlags { bits: flags.bits })),
                    None => None,
                },
            ),
    {
        match user_space.translate(VirtAddr::new(va)) {
            Some((pa, flags)) => {
                if !flags.contains(PageFlags::EXECUTABLE) {
                    PageFaultVerdict::NotExecutable
                } else if !flags.contains(PageFlags::USER) {
                    PageFaultVerdict::NotUser
                } else {
                    PageFaultVerdict::Mapped(pa, flags)
                }
            },
            None => PageFaultVerdict::NotMapped,
        }
    }
}

} // verus!
