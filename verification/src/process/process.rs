//! Process control blocks.

use vstd::prelude::*;
use crate::allocator::frame_allocator::{AllocError, FrameAllocator};
use crate::mm::address_space::AddrSpace;
use crate::mm::layout::{MAX_PA, TEXT_BASE_USER_VA, TRAPFRAME_BASE_USER_VA};
use crate::mm::memory::{Frame, FrameGuard, PhysAddr, VirtAddr};
use crate::mm::page_table::{lemma_indices, lemma_zero_entry, PTEFlags};
use crate::process::context::TrapContext;

verus! {

/// What a process is doing.
#[derive(Clone, Copy, Debug, PartialEq, Eq, Structural)]
pub enum ProcStatus {
    RUNNING,
    RUNNABLE,
    ZOMBIE,
}

impl ProcStatus {
    /// A runnable process may start to run, and a running process may
    /// become runnable again or exit. A process that has exited stays so.
    pub open spec fn may_become(self, next: ProcStatus) -> bool {
        match (self, next) {
            (ProcStatus::RUNNABLE, ProcStatus::RUNNING) => true,
            (ProcStatus::RUNNING, ProcStatus::RUNNABLE) => true,
            (ProcStatus::RUNNING, ProcStatus::ZOMBIE) => true,
            _ => false,
        }
    }

    /// Whether a process in this state may go over to `next`.
    pub fn can_become(self, next: ProcStatus) -> (r: bool)
        ensures
            r == self.may_become(next),
    {
        match (self, next) {
            (ProcStatus::RUNNABLE, ProcStatus::RUNNING) => true,
            (ProcStatus::RUNNING, ProcStatus::RUNNABLE) => true,
            (ProcStatus::RUNNING, ProcStatus::ZOMBIE) => true,
            _ => false,
        }
    }
}

/// The kernel stack of a process: one frame, which the user address space of
/// the process does not see.
#[derive(Debug)]
pub struct KernelStackGuard {
    inner: FrameGuard,
}

impl KernelStackGuard {
    /// The frame of the stack.
    pub closed spec fn spec_frame(&self) -> Frame {
        self.inner.frame()
    }

    /// A kernel stack in a new frame of `allocator`.
    pub fn allocate(allocator: &mut FrameAllocator) -> (r: Result<Self, AllocError>)
        requires
            old(allocator).wf(),
        ensures
            final(allocator).wf(),
            final(allocator).allocated_since(old(allocator)),
            match r {
                Ok(stack) => {
                    &&& final(allocator).owns_frame(stack.spec_frame().number)
                    &&& !old(allocator).owns_frame(stack.spec_frame().number)
                    &&& final(allocator).free_frames() == old(allocator).free_frames() - 1
                },
                Err(e) => {
                    &&& e == AllocError::ENoFrame
                    &&& old(allocator).free_frames() == 0
                    &&& final(allocator).page_allocated@ == old(allocator).page_allocated@
                },
            },
    {
        match FrameGuard::allocate_zeroed(allocator) {
            Ok(inner) => Ok(Self { inner }),
            Err(e) => Err(e),
        }
    }

    /// A kernel stack in `frame`.
    pub fn from_frame(frame: Frame) -> (r: Self)
        ensures
            r.spec_frame() == frame,
    {
        Self { inner: FrameGuard::from_frame(frame) }
    }

    /// The frame of the stack.
    pub fn frame(&self) -> (r: Frame)
        ensures
            r == self.spec_frame(),
    {
        self.inner.get_frame()
    }

    /// Hands the frame of the stack back to `allocator`.
    pub fn release(self, allocator: &mut FrameAllocator)
        requires
            old(allocator).wf(),
            old(allocator).owns_frame(self.spec_frame().number),
        ensures
            final(allocator).wf(),
            final(allocator).base_addr == old(allocator).base_addr,
            final(allocator).page_allocated@ == old(allocator).page_allocated@.update(
                old(allocator).frame_slot(self.spec_frame().number),
                0usize,
            ),
            final(allocator).free_frames() == old(allocator).free_frames() + 1,
    {
        self.inner.release(allocator);
    }
}

/// What of a process changes while it lives.
pub struct PCBInner {
    /// The base address of the frame that holds the trap context, once the
    /// process has one. The frame belongs to the user address space.
    trap_context: Option<PhysAddr>,
    /// What the frame of the trap context holds.
    context: TrapContext,
    /// The user address space of the process, once it has one.
    user_addr_space: Option<AddrSpace>,
    status: ProcStatus,
}

impl PCBInner {
    /// The base address of the frame of the trap context.
    pub closed spec fn trap_context_pa(&self) -> Option<PhysAddr> {
        self.trap_context
    }

    /// The trap context.
    pub closed spec fn context(&self) -> TrapContext {
        self.context
    }

    /// The user address space.
    pub closed spec fn user_space(&self) -> Option<AddrSpace> {
        self.user_addr_space
    }

    /// What the process is doing.
    pub closed spec fn status(&self) -> ProcStatus {
        self.status
    }

    /// Where the process has a trap context, the frame of the context is
    /// page-aligned, and the user address space maps the trapframe page to
    /// it, readable and writable and not for user mode.
    pub open spec fn trapframe_mapped(&self) -> bool {
        self.trap_context_pa() is Some ==> {
            &&& self.user_space() is Some
            &&& self.trap_context_pa().unwrap().0 % 4096 == 0
            &&& self.user_space().unwrap().table()@.contains_key(AddrSpace::trapframe_vpn())
            &&& self.user_space().unwrap().table()@[AddrSpace::trapframe_vpn()] == (
                self.trap_context_pa().unwrap().0,
                PTEFlags { bits: 7 },
            )
        }
    }

    /// Where the trapframe is mapped as `trapframe_mapped` says, the address
    /// of the trapframe translates to the frame that the process records,
    /// readable and writable and not for user mode.
    pub proof fn lemma_trapframe_translates(&self)
        requires
            self.trap_context_pa() is Some,
            self.trapframe_mapped(),
        ensures
            self.trap_context_pa().unwrap().0 % 4096 == 0,
            self.user_space().unwrap().table().spec_translate(TRAPFRAME_BASE_USER_VA) == Some(
                (self.trap_context_pa().unwrap(), PTEFlags { bits: 7 }),
            ),
    {
        lemma_indices(TRAPFRAME_BASE_USER_VA);
        assert(crate::mm::page_table::vpn_of(TRAPFRAME_BASE_USER_VA)
            == AddrSpace::trapframe_vpn());
        crate::mm::page_table::lemma_view_translates(
            self.user_space().unwrap().table(),
            TRAPFRAME_BASE_USER_VA,
        );
    }

    /// The state of a process that has neither an address space nor a trap
    /// context yet.
    pub fn new() -> (r: Self)
        ensures
            r.trap_context_pa() is None,
            r.user_space() is None,
            r.status() == ProcStatus::RUNNABLE,
            r.trapframe_mapped(),
    {
        Self {
            trap_context: None,
            context: TrapContext::new(),
            user_addr_space: None,
            status: ProcStatus::RUNNABLE,
        }
    }

    /// Gives the process its user address space.
    pub fn set_user_space(&mut self, space: AddrSpace)
        requires
            old(self).trap_context_pa() is None,
        ensures
            final(self).user_space() == Some(space),
            final(self).trap_context_pa() is None,
            final(self).context() == old(self).context(),
            final(self).status() == old(self).status(),
    {
        self.user_addr_space = Some(space);
    }

    /// Records where the trap context lies.
    pub fn initialise_trap_context(&mut self, ctx: PhysAddr)
        ensures
            final(self).trap_context_pa() == Some(ctx),
            final(self).context() == old(self).context(),
            final(self).user_space() == old(self).user_space(),
            final(self).status() == old(self).status(),
    {
        self.trap_context = Some(ctx);
    }

    /// The trap context, for changes.
    pub fn write_trap_context(&mut self) -> (r: &mut TrapContext)
        requires
            old(self).trap_context_pa() is Some,
        ensures
            *r == old(self).context(),
            final(self).context() == *final(r),
            final(self).trap_context_pa() == old(self).trap_context_pa(),
            final(self).user_space() == old(self).user_space(),
            final(self).status() == old(self).status(),
    {
        &mut self.context
    }

    /// The user address space, for changes.
    pub fn write_user_space(&mut self) -> (r: &mut AddrSpace)
        requires
            old(self).user_space() is Some,
        ensures
            Some(*r) == old(self).user_space(),
            final(self).user_space() == Some(*final(r)),
            final(self).trap_context_pa() == old(self).trap_context_pa(),
            final(self).context() == old(self).context(),
            final(self).status() == old(self).status(),
    {
        self.user_addr_space.as_mut().unwrap()
    }

    /// Puts `context` in the place of the trap context: what the trampoline
    /// saved when the process trapped.
    pub fn load_trap_context(&mut self, context: TrapContext)
        requires
            old(self).trap_context_pa() is Some,
        ensures
            final(self).context() == context,
            final(self).trap_context_pa() == old(self).trap_context_pa(),
            final(self).user_space() == old(self).user_space(),
            final(self).status() == old(self).status(),
    {
        self.context = context;
    }

    /// The user address space.
    pub fn get_user_space_ref_or_else_panic(&self) -> (r: &AddrSpace)
        requires
            self.user_space() is Some,
        ensures
            Some(*r) == self.user_space(),
    {
        self.user_addr_space.as_ref().unwrap()
    }

    /// The trap context.
    pub fn get_context_ref_or_else_panic(&self) -> (r: &TrapContext)
        requires
            self.trap_context_pa() is Some,
        ensures
            *r == self.context(),
    {
        &self.context
    }

    /// The base address of the frame of the trap context, once the process
    /// has one.
    pub fn get_trap_context_pa(&self) -> (r: Option<PhysAddr>)
        ensures
            r == self.trap_context_pa(),
    {
        self.trap_context
    }

    /// Whether the process has both its address space and its trap context.
    pub fn is_initialised(&self) -> (r: bool)
        ensures
            r == (self.trap_context_pa() is Some && self.user_space() is Some),
    {
        self.trap_context.is_some() && self.user_addr_space.is_some()
    }

    /// What the process is doing.
    pub fn get_status(&self) -> (r: ProcStatus)
        ensures
            r == self.status(),
    {
        self.status
    }

    /// Moves the process to the state `next`.
    pub fn set_status(&mut self, next: ProcStatus)
        requires
            old(self).status().may_become(next),
        ensures
            final(self).status() == next,
            final(self).trap_context_pa() == old(self).trap_context_pa(),
            final(self).context() == old(self).context(),
            final(self).user_space() == old(self).user_space(),
    {
        self.status = next;
    }

    /// Makes the process ready to run for the first time: gives its address
    /// space a trapframe in a frame of `allocator`, records where the frame
    /// lies, checks the address space, and fills the trap context. The
    /// kernel stack is the page at `kernel_stack_pa`, `kernel_satp` selects
    /// the kernel's page table, and `trap_handler` is the kernel address of
    /// the handler of user traps. Register `tp` is left as it is: it is set
    /// each time the process is sent to a hart.
    pub fn first_execution_init(
        &mut self,
        allocator: &mut FrameAllocator,
        kernel_stack_pa: PhysAddr,
        kernel_satp: u64,
        trap_handler: VirtAddr,
    ) -> (r: Result<(), AllocError>)
        requires
            old(allocator).wf(),
            old(self).user_space() is Some,
            old(self).user_space().unwrap().wf(),
            old(self).user_space().unwrap().table().owned_by(old(allocator)),
            !old(self).user_space().unwrap().covers(AddrSpace::trapframe_vpn()),
            kernel_stack_pa.0 % 4096 == 0,
            kernel_stack_pa.0 < MAX_PA,
        ensures
            final(allocator).wf(),
            final(allocator).allocated_since(old(allocator)),
            final(self).user_space() is Some,
            final(self).user_space().unwrap().wf(),
            final(self).user_space().unwrap().table().owned_by(final(allocator)),
            final(self).status() == old(self).status(),
            final(self).user_space().unwrap().table().node_count() >= old(self).user_space().unwrap().table().node_count(),
            final(self).user_space().unwrap().table().frame_no(0) == old(self).user_space().unwrap().table().frame_no(0),
            forall|i: int|
                0 <= i < old(self).user_space().unwrap().table().node_count() ==> #[trigger] final(self).user_space().unwrap().table().frame_no(i) == old(self).user_space().unwrap().table().frame_no(i),
            r is Ok <==> old(allocator).free_frames() >= 1 + old(self).user_space().unwrap().table().missing_levels(AddrSpace::trapframe_vpn()),
            match r {
                Ok(_) => {
                    &&& final(self).trap_context_pa() is Some
                    &&& final(self).trapframe_mapped()
                    &&& final(allocator).owns_frame(final(self).trap_context_pa().unwrap().0 / 4096)
                    &&& !old(allocator).owns_frame(final(self).trap_context_pa().unwrap().0 / 4096)
                    &&& final(allocator).free_frames() == old(allocator).free_frames() - 1 - old(self).user_space().unwrap().table().missing_levels(AddrSpace::trapframe_vpn())
                    &&& final(self).user_space().unwrap().table().spec_translate(
                        TRAPFRAME_BASE_USER_VA,
                    ) == Some((final(self).trap_context_pa().unwrap(), PTEFlags { bits: 7 }))
                    &&& final(self).user_space().unwrap().table()@ == old(self).user_space().unwrap().table()@.insert(
                        AddrSpace::trapframe_vpn(),
                        (final(self).trap_context_pa().unwrap().0, PTEFlags { bits: 7 }),
                    )
                    &&& final(self).context().kernel_sp == kernel_stack_pa.0 + 4096
                    &&& final(self).context().trap_handler == trap_handler.0
                    &&& final(self).context().sepc == TEXT_BASE_USER_VA
                    &&& final(self).context().kernel_satp == kernel_satp
                    &&& final(self).context().user_regs == old(self).context().user_regs
                    &&& final(self).context().kernel_hartid == old(self).context().kernel_hartid
                },
                Err(e) => {
                    &&& e == AllocError::ENoFrame
                    &&& final(allocator).free_frames() == 0
                    &&& final(self).trap_context_pa() == old(self).trap_context_pa()
                    &&& final(self).context() == old(self).context()
                    &&& final(self).user_space().unwrap().areas() == old(self).user_space().unwrap().areas()
                },
            },
    {
        let trapframe_pa: PhysAddr = match self.user_addr_space.as_mut() {
            Some(space) => match space.init_trapframe(allocator) {
                Ok(pa) => pa,
                Err(e) => {
                    return Err(e);
                },
            },
            None => {
                // The process has its address space.
                return Err(AllocError::ENoFrame);
            },
        };
        self.initialise_trap_context(trapframe_pa);
        let user_space: &AddrSpace = self.get_user_space_ref_or_else_panic();
        proof {
            user_space.lemma_wf_consistent();
        }
        let verified: bool = user_space.verify();
        assert(verified);
        let translated: Option<(PhysAddr, crate::mm::page_table::PageFlags)> = user_space.translate(
            VirtAddr::new(TRAPFRAME_BASE_USER_VA),
        );
        proof {
            lemma_indices(TRAPFRAME_BASE_USER_VA);
            let table = user_space.table();
            assert(table@.contains_key(AddrSpace::trapframe_vpn()));
            assert(crate::mm::page_table::vpn_of(TRAPFRAME_BASE_USER_VA) == AddrSpace::trapframe_vpn());
            crate::mm::page_table::lemma_view_translates(table, TRAPFRAME_BASE_USER_VA);
            assert(translated is Some && translated.unwrap().0 == trapframe_pa);
        }
        let ctx: &mut TrapContext = self.write_trap_context();
        ctx.set_kernel_stack(kernel_stack_pa);
        ctx.set_trap_handler(trap_handler);
        ctx.set_user_space_pc(VirtAddr::new(TEXT_BASE_USER_VA));
        ctx.set_kernel_page_table(kernel_satp);
        Ok(())
    }
}

} // verus!

verus! {

/// A process: its id, its kernel stack, and its changing state.
pub struct ProcessControlBlock {
    pub pid: usize,
    /// The kernel stack. The user address space does not see it, so the
    /// process keeps it here.
    pub kernel_stack: KernelStackGuard,
    pub inner: PCBInner,
}

impl ProcessControlBlock {
    /// The id of the process.
    pub open spec fn pid(&self) -> usize {
        self.pid
    }

    /// The kernel stack of the process.
    pub open spec fn stack(&self) -> KernelStackGuard {
        self.kernel_stack
    }

    /// The changing state of the process.
    pub open spec fn state(&self) -> PCBInner {
        self.inner
    }

    /// A runnable process with the id `pid` and a kernel stack in a new
    /// frame of `allocator`, without an address space yet.
    pub fn allocate(allocator: &mut FrameAllocator, pid: usize) -> (r: Result<Self, AllocError>)
        requires
            old(allocator).wf(),
        ensures
            final(allocator).wf(),
            final(allocator).allocated_since(old(allocator)),
            match r {
                Ok(pcb) => {
                    &&& pcb.pid() == pid
                    &&& pcb.state().trap_context_pa() is None
                    &&& pcb.state().user_space() is None
                    &&& pcb.state().status() == ProcStatus::RUNNABLE
                    &&& final(allocator).owns_frame(pcb.stack().spec_frame().number)
                    &&& final(allocator).free_frames() == old(allocator).free_frames() - 1
                },
                Err(e) => {
                    &&& e == AllocError::ENoFrame
                    &&& old(allocator).free_frames() == 0
                    &&& final(allocator).page_allocated@ == old(allocator).page_allocated@
                },
            },
    {
        let kernel_stack: KernelStackGuard = match KernelStackGuard::allocate(allocator) {
            Ok(stack) => stack,
            Err(e) => {
                return Err(e);
            },
        };
        Ok(Self { pid, kernel_stack, inner: PCBInner::new() })
    }

    pub fn get_pid(&self) -> (r: usize)
        ensures
            r == self.pid(),
    {
        self.pid
    }

    /// The base address of the frame of the kernel stack.
    pub fn get_kernel_stack_phys_addr(&self) -> (r: PhysAddr)
        requires
            self.stack().spec_frame().number < 0x1000_0000_0000,
        ensures
            r.0 == self.stack().spec_frame().number * 4096,
    {
        self.kernel_stack.frame().get_base_phys_addr()
    }

    /// Makes the process ready to run for the first time, with its own
    /// kernel stack. See `PCBInner::first_execution_init`.
    pub fn first_execution_init(
        &mut self,
        allocator: &mut FrameAllocator,
        kernel_satp: u64,
        trap_handler: VirtAddr,
    ) -> (r: Result<(), AllocError>)
        requires
            old(allocator).wf(),
            old(self).stack().spec_frame().number < 0x1000_0000_0000,
            old(self).state().user_space() is Some,
            old(self).state().user_space().unwrap().wf(),
            old(self).state().user_space().unwrap().table().owned_by(old(allocator)),
            !old(self).state().user_space().unwrap().covers(AddrSpace::trapframe_vpn()),
        ensures
            final(allocator).wf(),
            final(allocator).allocated_since(old(allocator)),
            final(self).pid() == old(self).pid(),
            final(self).stack() == old(self).stack(),
            final(self).state().user_space() is Some,
            final(self).state().user_space().unwrap().wf(),
            final(self).state().user_space().unwrap().table().owned_by(final(allocator)),
            final(self).state().status() == old(self).state().status(),
            final(self).state().user_space().unwrap().table().node_count() >= old(self).state().user_space().unwrap().table().node_count(),
            final(self).state().user_space().unwrap().table().frame_no(0) == old(self).state().user_space().unwrap().table().frame_no(0),
            forall|i: int|
                0 <= i < old(self).state().user_space().unwrap().table().node_count()
                    ==> #[trigger] final(self).state().user_space().unwrap().table().frame_no(i)
                    == old(self).state().user_space().unwrap().table().frame_no(i),
            r is Ok <==> old(allocator).free_frames() >= 1 + old(self).state().user_space().unwrap().table().missing_levels(AddrSpace::trapframe_vpn()),
            match r {
                Ok(_) => {
                    &&& final(self).state().trap_context_pa() is Some
                    &&& final(self).state().trapframe_mapped()
                    &&& final(self).state().user_space().unwrap().table().spec_translate(
                        TRAPFRAME_BASE_USER_VA,
                    ) == Some(
                        (final(self).state().trap_context_pa().unwrap(), PTEFlags { bits: 7 }),
                    )
                    &&& final(self).state().context().kernel_sp == old(self).stack().spec_frame().number * 4096 + 4096
                    &&& final(self).state().context().trap_handler == trap_handler.0
                    &&& final(self).state().context().sepc == TEXT_BASE_USER_VA
                    &&& final(self).state().context().kernel_satp == kernel_satp
                    &&& final(self).state().context().user_regs == old(self).state().context().user_regs
                },
                Err(e) => {
                    &&& e == AllocError::ENoFrame
                    &&& final(allocator).free_frames() == 0
                    &&& final(self).state().trap_context_pa() == old(self).state().trap_context_pa()
                },
            },
    {
        let kernel_stack_pa: PhysAddr = self.get_kernel_stack_phys_addr();
        self.inner.first_execution_init(allocator, kernel_stack_pa, kernel_satp, trap_handler)
    }
}

/// The control block of the first user process, ready to run: process 0,
/// with the address space of `AddrSpace::make_init` for the program text of
/// `init_text_len` bytes at `init_text`.
pub fn make_initcode_uninitialised(
    allocator: &mut FrameAllocator,
    pid: usize,
    trampoline_start: PhysAddr,
    init_text: PhysAddr,
    init_text_len: u64,
    kernel_satp: u64,
    trap_handler: VirtAddr,
) -> (r: Result<ProcessControlBlock, AllocError>)
    requires
        old(allocator).wf(),
        pid == 0,
        trampoline_start.0 < MAX_PA,
        init_text.0 + init_text_len + 4096 <= MAX_PA,
        TEXT_BASE_USER_VA + init_text_len + 3 * 4096 <= TRAPFRAME_BASE_USER_VA,
    ensures
        final(allocator).wf(),
        final(allocator).allocated_since(old(allocator)),
        r is Ok <==> old(allocator).free_frames() >= 4 + crate::mm::address_space::ranges_lack(
            crate::mm::page_table::fresh_lacks(),
            AddrSpace::init_ranges(init_text_len),
            0,
        ),
        match r {
            Ok(pcb) => {
                &&& pcb.pid() == 0
                &&& pcb.state().status() == ProcStatus::RUNNABLE
                &&& pcb.state().user_space() is Some
                &&& pcb.state().user_space().unwrap().wf()
                &&& pcb.state().user_space().unwrap().table().owned_by(final(allocator))
                &&& pcb.state().trap_context_pa() is Some
                &&& pcb.state().trapframe_mapped()
                &&& pcb.state().user_space().unwrap().table().spec_translate(
                    TRAPFRAME_BASE_USER_VA,
                ) == Some((pcb.state().trap_context_pa().unwrap(), PTEFlags { bits: 7 }))
                &&& pcb.state().context().kernel_sp == pcb.stack().spec_frame().number * 4096
                    + 4096
                &&& pcb.state().context().trap_handler == trap_handler.0
                &&& pcb.state().context().sepc == TEXT_BASE_USER_VA
                &&& pcb.state().context().kernel_satp == kernel_satp
            },
            Err(e) => {
                &&& e == AllocError::ENoFrame
                &&& final(allocator).free_frames() == 0
            },
        },
{
    proof {
        crate::mm::page_table::lemma_fresh_counts();
        crate::mm::address_space::lemma_ranges_lack_counts(
            crate::mm::page_table::fresh_lacks(),
            AddrSpace::init_ranges(init_text_len),
            0,
        );
    }
    let mut pcb: ProcessControlBlock = match ProcessControlBlock::allocate(allocator, pid) {
        Ok(pcb) => pcb,
        Err(e) => {
            return Err(e);
        },
    };
    let ghost after_stack = *allocator;
    let space: AddrSpace = match AddrSpace::make_init(
        allocator,
        trampoline_start,
        init_text,
        init_text_len,
    ) {
        Ok(space) => space,
        Err(e) => {
            return Err(e);
        },
    };
    pcb.inner.set_user_space(space);
    proof {
        assert(after_stack.base_addr / 4096 + after_stack.page_allocated@.len()
            <= 0x1000_0000_0000);
    }
    proof {
        crate::allocator::frame_allocator::lemma_free_frames_bounds(*allocator);
    }
    match pcb.first_execution_init(allocator, kernel_satp, trap_handler) {
        Ok(_) => {},
        Err(e) => {
            return Err(e);
        },
    }
    Ok(pcb)
}

} // verus!
