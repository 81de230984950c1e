//! What the kernel decides when a trap arrives and when it returns to user
//! mode.
//!
//! The registers are read and written by the caller. A function here takes
//! what was read and returns what is to be written or done.

pub mod page_fault;
pub mod syscall;

use vstd::prelude::*;
use crate::mm::address_space::AddrSpace;
use crate::mm::layout::{TRAMPOLINE_BASE_VA, TRAPFRAME_BASE_USER_VA};
use crate::process::process::ProcessControlBlock;

verus! {

/// Why the hart trapped, as the cause register tells it.
#[derive(Clone, Copy, Debug, PartialEq, Eq, Structural)]
pub enum TrapCause {
    SupervisorSoft,
    SupervisorTimer,
    SupervisorExternal,
    UnknownInterrupt,
    UserEnvCall,
    InstructionPageFault,
    LoadPageFault,
    /// Any other exception, with its code.
    OtherException(u64),
}

/// Why the kernel gives up.
#[derive(Clone, Copy, Debug, PartialEq, Eq, Structural)]
pub enum TrapError {
    /// A timer interrupt arrived in supervisor mode, where the timer is the
    /// business of the core-local interruptor.
    UnexpectedTimer,
    /// An interrupt of a kind that the kernel does not know.
    UnknownInterrupt,
    /// An exception while in the kernel.
    KernelException,
    /// An interrupt from user mode that the kernel does not handle.
    UnsupportedInterrupt,
    /// A load from an address that is not mapped.
    LoadPageFault,
    /// An exception from user mode that the kernel does not handle.
    UnsupportedException,
    /// The scratch register does not hold the address of the trapframe.
    ScratchNotTrapframe,
    /// The hart does not run under the kernel page table that the process
    /// records.
    WrongKernelTable,
    /// The process has no trap context or no address space.
    NotInitialised,
    /// The trampoline is not where it must be in an address space.
    TrampolineNotMapped,
}

/// What the kernel does about a trap from user mode.
#[derive(Clone, Copy, Debug, PartialEq, Eq, Structural)]
pub enum UserTrapAction {
    /// Handle the system call, then return to user mode.
    SystemCall,
    /// Look into the instruction page fault, then return to user mode.
    InstructionPageFault,
}

/// The address of the trap vector while in the kernel, which the trap
/// vector register holds in direct mode.
pub fn init_hart(kernelvec: u64) -> (r: u64)
    ensures
        r == kernelvec,
{
    kernelvec
}

/// What the kernel does about a trap that arrives while it runs: it goes on
/// after a software or an external interrupt, and gives up on all else.
pub fn kerneltrap(cause: TrapCause) -> (r: Result<(), TrapError>)
    ensures
        r == match cause {
            TrapCause::SupervisorSoft => Ok::<(), TrapError>(()),
            TrapCause::SupervisorExternal => Ok(()),
            TrapCause::SupervisorTimer => Err(TrapError::UnexpectedTimer),
            TrapCause::UnknownInterrupt => Err(TrapError::UnknownInterrupt),
            _ => Err(TrapError::KernelException),
        },
{
    match cause {
        TrapCause::SupervisorSoft => Ok(()),
        TrapCause::SupervisorTimer => Err(TrapError::UnexpectedTimer),
        TrapCause::SupervisorExternal => Ok(()),
        TrapCause::UnknownInterrupt => Err(TrapError::UnknownInterrupt),
        _ => Err(TrapError::KernelException),
    }
}

/// What the kernel does about a trap from user mode, once interrupts are
/// off and the trap vector is that of the kernel: a system call and an
/// instruction page fault are handled, all else is given up on. After the
/// action the kernel returns to user mode.
pub fn usertrap(cause: TrapCause) -> (r: Result<UserTrapAction, TrapError>)
    ensures
        r == match cause {
            TrapCause::UserEnvCall => Ok::<UserTrapAction, TrapError>(UserTrapAction::SystemCall),
            TrapCause::InstructionPageFault => Ok(UserTrapAction::InstructionPageFault),
            TrapCause::LoadPageFault => Err(TrapError::LoadPageFault),
            TrapCause::OtherException(_) => Err(TrapError::UnsupportedException),
            _ => Err(TrapError::UnsupportedInterrupt),
        },
{
    match cause {
        TrapCause::UserEnvCall => Ok(UserTrapAction::SystemCall),
        TrapCause::InstructionPageFault => Ok(UserTrapAction::InstructionPageFault),
        TrapCause::LoadPageFault => Err(TrapError::LoadPageFault),
        TrapCause::OtherException(_) => Err(TrapError::UnsupportedException),
        _ => Err(TrapError::UnsupportedInterrupt),
    }
}

/// What the hart is given on its way back to user mode.
#[derive(Clone, Copy, Debug, PartialEq, Eq, Structural)]
pub struct UserReturn {
    /// The trap vector: the trampoline, at the address at which every
    /// address space maps it.
    pub stvec: u64,
    /// The value of the address-translation register that selects the user
    /// address space.
    pub user_satp: u64,
}

/// Prepares the return of the process `pcb` to user mode on hart `hartid`,
/// given what the scratch register and the address-translation register
/// hold. The trap vector becomes the trampoline, the hart id goes into
/// register `tp` of the trap context, and the caller is told which address
/// space to switch to. The caller sets the previous privilege to user mode
/// and enables interrupts for it.
pub fn usertrapret(pcb: &mut ProcessControlBlock, hartid: u64, sscratch: u64, satp: u64) -> (r:
    Result<UserReturn, TrapError>)
    requires
        old(pcb).state().user_space() is Some ==> old(pcb).state().user_space().unwrap().table().wf(),
    ensures
        final(pcb).pid() == old(pcb).pid(),
        final(pcb).stack() == old(pcb).stack(),
        final(pcb).state().user_space() == old(pcb).state().user_space(),
        final(pcb).state().trap_context_pa() == old(pcb).state().trap_context_pa(),
        final(pcb).state().status() == old(pcb).state().status(),
        r == if sscratch != TRAPFRAME_BASE_USER_VA {
            Err::<UserReturn, TrapError>(TrapError::ScratchNotTrapframe)
        } else if old(pcb).state().trap_context_pa() is None || old(pcb).state().user_space()
            is None {
            Err(TrapError::NotInitialised)
        } else if satp != old(pcb).state().context().kernel_satp {
            Err(TrapError::WrongKernelTable)
        } else {
            Ok(
                (UserReturn {
                    stvec: TRAMPOLINE_BASE_VA,
                    user_satp: (0x8000_0000_0000_0000
                        + old(pcb).state().user_space().unwrap().table().frame_no(0)) as u64,
                }),
            )
        },
        final(pcb).state().context().kernel_satp == old(pcb).state().context().kernel_satp,
        final(pcb).state().context().kernel_sp == old(pcb).state().context().kernel_sp,
        final(pcb).state().context().kernel_hartid == old(pcb).state().context().kernel_hartid,
        final(pcb).state().context().sepc == old(pcb).state().context().sepc,
        final(pcb).state().context().trap_handler == old(pcb).state().context().trap_handler,
        final(pcb).state().context().user_regs@ == if sscratch == TRAPFRAME_BASE_USER_VA && old(pcb).state().trap_context_pa() is Some && old(pcb).state().user_space() is Some {
            old(pcb).state().context().user_regs@.update(4, hartid)
        } else {
            old(pcb).state().context().user_regs@
        },
{
    if sscratch != TRAPFRAME_BASE_USER_VA {
        return Err(TrapError::ScratchNotTrapframe);
    }
    if !pcb.inner.is_initialised() {
        return Err(TrapError::NotInitialised);
    }
    pcb.inner.write_trap_context().set_tp(hartid);
    if satp != pcb.inner.get_context_ref_or_else_panic().get_kernel_page_table() {
        return Err(TrapError::WrongKernelTable);
    }
    let user_satp: u64 = pcb.inner.get_user_space_ref_or_else_panic().make_satp();
    Ok(UserReturn { stvec: TRAMPOLINE_BASE_VA, user_satp })
}

/// The address at which the hart enters the routine that returns to user
/// mode: as far into the trampoline page as the routine lies behind the
/// start of the trampoline in the kernel image. `uservec_pa` is where the
/// trampoline starts in the image, and `userret_pa` where the routine does.
///
/// Both address spaces must translate that address to the same place, and
/// the user address space must translate the trampoline page to the start of
/// the trampoline.
pub fn userret_on_trampoline(
    user_space: &AddrSpace,
    kernel_space: &AddrSpace,
    uservec_pa: u64,
    userret_pa: u64,
) -> (r: Result<u64, TrapError>)
    requires
        user_space.table().wf(),
        kernel_space.table().wf(),
        uservec_pa <= userret_pa,
        userret_pa - uservec_pa < 4096,
    ensures
        r == if user_space.table().spec_translate(
            (TRAMPOLINE_BASE_VA + (userret_pa - uservec_pa)) as u64,
        ) is Some && kernel_space.table().spec_translate(
            (TRAMPOLINE_BASE_VA + (userret_pa - uservec_pa)) as u64,
        ) is Some && user_space.table().spec_translate(
            (TRAMPOLINE_BASE_VA + (userret_pa - uservec_pa)) as u64,
        ).unwrap().0 == kernel_space.table().spec_translate(
            (TRAMPOLINE_BASE_VA + (userret_pa - uservec_pa)) as u64,
        ).unwrap().0 && user_space.table().spec_translate(TRAMPOLINE_BASE_VA) is Some
            && user_space.table().spec_translate(TRAMPOLINE_BASE_VA).unwrap().0.0 == uservec_pa {
            Ok::<u64, TrapError>((TRAMPOLINE_BASE_VA + (userret_pa - uservec_pa)) as u64)
        } else {
            Err(TrapError::TrampolineNotMapped)
        },
{
    let offset: u64 = userret_pa - uservec_pa;
    let addr: u64 = TRAMPOLINE_BASE_VA + offset;
    let in_user = user_space.translate(crate::mm::memory::VirtAddr::new(addr));
    let in_kernel = kernel_space.translate(crate::mm::memory::VirtAddr::new(addr));
    let trampoline = user_space.translate(crate::mm::memory::VirtAddr::new(TRAMPOLINE_BASE_VA));
    match (in_user, in_kernel, trampoline) {
        (Some((user_pa, _)), Some((kernel_pa, _)), Some((trampoline_pa, _))) => {
            if user_pa.as_usize() == kernel_pa.as_usize() && trampoline_pa.as_usize()
                == uservec_pa {
                Ok(addr)
            } else {
                Err(TrapError::TrampolineNotMapped)
            }
        },
        _ => Err(TrapError::TrampolineNotMapped),
    }
}

} // verus!
