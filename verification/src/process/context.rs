//! The trap context: what the trampoline saves of a process when it traps
//! into the kernel, and what it needs to find its way there.

use vstd::prelude::*;
use crate::mm::layout::PAGE_SIZE;
use crate::mm::memory::{PhysAddr, VirtAddr};
use crate::trap::syscall::Syscall;

verus! {

/// The register that holds the hart id while in the kernel.
pub const TP: usize = 4;

/// The stack pointer.
pub const SP: usize = 2;

/// The register that holds the number of a system call.
pub const A7: usize = 17;

/// How many words a trap context has.
pub const TRAP_CONTEXT_WORDS: usize = 37;

/// The user context of a process, saved while its kernel thread runs. A trap
/// need not be a call, so every register is saved.
///
/// The trampoline reads and writes the context as 37 words, in the order of
/// the fields: the 32 registers come first.
#[derive(Clone, Debug)]
pub struct TrapContext {
    /// Words 0 to 31: the general purpose registers.
    pub user_regs: [u64; 32],
    /// Word 32: the value of the address-translation register for the
    /// kernel's page table.
    pub kernel_satp: u64,
    /// Word 33: the top of the kernel stack of the process.
    pub kernel_sp: u64,
    /// Word 34: the hart id, kept in `tp` while in the kernel.
    pub kernel_hartid: u64,
    /// Word 35: where the process goes on in user space.
    pub sepc: u64,
    /// Word 36: the address of the trap handler in the kernel.
    pub trap_handler: u64,
}

impl TrapContext {
    /// The word at offset `i` of the context.
    pub open spec fn word(&self, i: int) -> u64 {
        if 0 <= i < 32 {
            self.user_regs@[i]
        } else if i == 32 {
            self.kernel_satp
        } else if i == 33 {
            self.kernel_sp
        } else if i == 34 {
            self.kernel_hartid
        } else if i == 35 {
            self.sepc
        } else {
            self.trap_handler
        }
    }

    /// A context with every word zero.
    pub fn new() -> (r: Self)
        ensures
            forall|i: int| 0 <= i < 37 ==> r.word(i) == 0,
    {
        Self {
            user_regs: [0u64; 32],
            kernel_satp: 0,
            kernel_sp: 0,
            kernel_hartid: 0,
            sepc: 0,
            trap_handler: 0,
        }
    }

    /// The context that the 37 words `words` make, in the order in which the
    /// trampoline writes them.
    pub fn from_words(words: &Vec<u64>) -> (r: Self)
        requires
            words@.len() == 37,
        ensures
            forall|i: int| 0 <= i < 37 ==> r.word(i) == words@[i],
    {
        let mut user_regs: [u64; 32] = [0u64; 32];
        let mut i: usize = 0;
        while i < 32
            invariant
                i <= 32,
                words@.len() == 37,
                forall|j: int| 0 <= j < i ==> user_regs@[j] == words@[j],
            decreases 32 - i,
        {
            user_regs[i] = words[i];
            i = i + 1;
        }
        Self {
            user_regs,
            kernel_satp: words[32],
            kernel_sp: words[33],
            kernel_hartid: words[34],
            sepc: words[35],
            trap_handler: words[36],
        }
    }

    /// The 37 words of the context, in the order in which the trampoline
    /// reads them.
    pub fn words(&self) -> (r: Vec<u64>)
        ensures
            r@.len() == 37,
            forall|i: int| 0 <= i < 37 ==> r@[i] == self.word(i),
    {
        let mut out: Vec<u64> = Vec::new();
        let mut i: usize = 0;
        while i < 32
            invariant
                i <= 32,
                out@.len() == i,
                forall|j: int| 0 <= j < i ==> out@[j] == self.user_regs@[j],
            decreases 32 - i,
        {
            out.push(self.user_regs[i]);
            i = i + 1;
        }
        out.push(self.kernel_satp);
        out.push(self.kernel_sp);
        out.push(self.kernel_hartid);
        out.push(self.sepc);
        out.push(self.trap_handler);
        out
    }

    pub fn set_tp(&mut self, tp: u64)
        ensures
            final(self).user_regs@ == old(self).user_regs@.update(TP as int, tp),
            final(self).kernel_satp == old(self).kernel_satp,
            final(self).kernel_sp == old(self).kernel_sp,
            final(self).kernel_hartid == old(self).kernel_hartid,
            final(self).sepc == old(self).sepc,
            final(self).trap_handler == old(self).trap_handler,
    {
        self.user_regs[TP] = tp;
    }

    pub fn set_trap_handler(&mut self, addr: VirtAddr)
        ensures
            final(self).trap_handler == addr.0,
            final(self).user_regs == old(self).user_regs,
            final(self).kernel_satp == old(self).kernel_satp,
            final(self).kernel_sp == old(self).kernel_sp,
            final(self).kernel_hartid == old(self).kernel_hartid,
            final(self).sepc == old(self).sepc,
    {
        self.trap_handler = addr.as_usize();
    }

    /// Sets where the process goes on in user space.
    pub fn set_user_space_execution_addr(&mut self, addr: VirtAddr)
        ensures
            final(self).sepc == addr.0,
            final(self).user_regs == old(self).user_regs,
            final(self).kernel_satp == old(self).kernel_satp,
            final(self).kernel_sp == old(self).kernel_sp,
            final(self).kernel_hartid == old(self).kernel_hartid,
            final(self).trap_handler == old(self).trap_handler,
    {
        self.sepc = addr.as_usize();
    }

    /// Sets where the process goes on in user space.
    pub fn set_user_space_pc(&mut self, addr: VirtAddr)
        ensures
            final(self).sepc == addr.0,
            final(self).user_regs == old(self).user_regs,
            final(self).kernel_satp == old(self).kernel_satp,
            final(self).kernel_sp == old(self).kernel_sp,
            final(self).kernel_hartid == old(self).kernel_hartid,
            final(self).trap_handler == old(self).trap_handler,
    {
        self.set_user_space_execution_addr(addr);
    }

    /// Where the process goes on in user space.
    pub fn get_user_space_pc(&self) -> (r: u64)
        ensures
            r == self.sepc,
    {
        self.sepc
    }

    /// Moves the point where the process goes on `bytes` further, around
    /// the end of the address space where it reaches it.
    pub fn incr_user_space_pc(&mut self, bytes: u64)
        ensures
            final(self).sepc == (old(self).sepc + bytes) % 0x1_0000_0000_0000_0000,
            final(self).user_regs == old(self).user_regs,
            final(self).kernel_satp == old(self).kernel_satp,
            final(self).kernel_sp == old(self).kernel_sp,
            final(self).kernel_hartid == old(self).kernel_hartid,
            final(self).trap_handler == old(self).trap_handler,
    {
        self.sepc = self.sepc.wrapping_add(bytes);
    }

    /// The system call that the process asks for, by the number in register
    /// `a7`, or `None` where no system call has that number.
    pub fn get_syscall(&self) -> (r: Option<Syscall>)
        ensures
            self.user_regs@[A7 as int] <= 20 ==> r is Some && r.unwrap().spec_number()
                == self.user_regs@[A7 as int],
            self.user_regs@[A7 as int] > 20 ==> r is None,
    {
        Syscall::from(self.user_regs[A7])
    }

    /// Points the user stack pointer at the top of the page at `base_addr`:
    /// the stack grows downwards.
    pub fn set_user_stack(&mut self, base_addr: PhysAddr)
        requires
            base_addr.0 % 4096 == 0,
            base_addr.0 + 4096 <= u64::MAX,
        ensures
            final(self).user_regs@ == old(self).user_regs@.update(
                SP as int,
                (base_addr.0 + 4096) as u64,
            ),
            final(self).kernel_satp == old(self).kernel_satp,
            final(self).kernel_sp == old(self).kernel_sp,
            final(self).kernel_hartid == old(self).kernel_hartid,
            final(self).sepc == old(self).sepc,
            final(self).trap_handler == old(self).trap_handler,
    {
        self.user_regs[SP] = base_addr.as_usize() + PAGE_SIZE;
    }

    /// Points the kernel stack pointer at the top of the page at
    /// `base_addr`: the stack grows downwards.
    pub fn set_kernel_stack(&mut self, base_addr: PhysAddr)
        requires
            base_addr.0 % 4096 == 0,
            base_addr.0 + 4096 <= u64::MAX,
        ensures
            final(self).kernel_sp == base_addr.0 + 4096,
            final(self).user_regs == old(self).user_regs,
            final(self).kernel_satp == old(self).kernel_satp,
            final(self).kernel_hartid == old(self).kernel_hartid,
            final(self).sepc == old(self).sepc,
            final(self).trap_handler == old(self).trap_handler,
    {
        self.kernel_sp = base_addr.as_usize() + PAGE_SIZE;
    }

    pub fn set_kernel_page_table(&mut self, satp: u64)
        ensures
            final(self).kernel_satp == satp,
            final(self).user_regs == old(self).user_regs,
            final(self).kernel_sp == old(self).kernel_sp,
            final(self).kernel_hartid == old(self).kernel_hartid,
            final(self).sepc == old(self).sepc,
            final(self).trap_handler == old(self).trap_handler,
    {
        self.kernel_satp = satp;
    }

    pub fn get_kernel_page_table(&self) -> (r: u64)
        ensures
            r == self.kernel_satp,
    {
        self.kernel_satp
    }
}

} // verus!
