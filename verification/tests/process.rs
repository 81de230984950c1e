use kernel::allocator::frame_allocator::{AllocError, FrameAllocator};
use kernel::clint::CLINT_TIMECMP;
use kernel::cpu::{current_process, make_cpus};
use kernel::mm::address_space::AddrSpace;
use kernel::mm::layout::{TEXT_BASE_USER_VA, TRAMPOLINE_BASE_VA, TRAPFRAME_BASE_USER_VA};
use kernel::mm::memory::{Frame, PhysAddr, VirtAddr};
use kernel::mm::page_table::PageFlags;
use kernel::plic::{
    Plic, PLIC_MCLAIM, PLIC_MENABLE, PLIC_MPRIORITY, PLIC_SCLAIM, PLIC_SENABLE, PLIC_SPRIORITY,
    URT0_IRQ, VIRTIO0_IRQ,
};
use kernel::process::context::TrapContext;
use kernel::process::manager::ProcessManager;
use kernel::process::process::{
    make_initcode_uninitialised, KernelStackGuard, PCBInner, ProcStatus, ProcessControlBlock,
};
use kernel::symbols::{N_CPUS, N_PROCS, SCHEDULER_INTERVAL};
use kernel::trap::page_fault::{InstructionPageFaultHandler, PageFaultVerdict};
use kernel::trap::syscall::{Syscall, SystemCallHandler};
use kernel::trap::{
    init_hart, kerneltrap, usertrap, usertrapret, userret_on_trampoline, TrapCause, TrapError,
    UserReturn, UserTrapAction,
};
use kernel::uart::{Uart, UART_BASE_ADDR};

const HEAP_START: u64 = 0x8002_0000;
const TRAMPOLINE_PA: u64 = 0x8000_1000;
const TEXT_PA: u64 = 0x8000_6000;
const KERNEL_SATP: u64 = (8 << 60) | 0x80123;
const HANDLER: u64 = 0x8000_2468;

fn init_pcb(allocator: &mut FrameAllocator) -> ProcessControlBlock {
    make_initcode_uninitialised(
        allocator,
        0,
        PhysAddr::new(TRAMPOLINE_PA),
        PhysAddr::new(TEXT_PA),
        3000,
        KERNEL_SATP,
        VirtAddr::new(HANDLER),
    )
    .unwrap()
}

#[test]
fn trap_context_layout() {
    let mut ctx = TrapContext::new();
    assert_eq!(ctx.words(), vec![0u64; 37]);
    ctx.set_tp(5);
    ctx.set_user_stack(PhysAddr::new(0x8765_4000));
    ctx.set_kernel_page_table(32);
    ctx.set_kernel_stack(PhysAddr::new(0x8000_3000));
    ctx.kernel_hartid = 34;
    ctx.set_user_space_execution_addr(VirtAddr::new(35));
    ctx.set_trap_handler(VirtAddr::new(36));
    let words = ctx.words();
    assert_eq!(words.len(), 37);
    assert_eq!(words[4], 5);
    assert_eq!(words[2], 0x8765_5000);
    assert_eq!(words[32], 32);
    assert_eq!(words[33], 0x8000_4000);
    assert_eq!(words[34], 34);
    assert_eq!(words[35], 35);
    assert_eq!(words[36], 36);
    assert_eq!(words.iter().filter(|w| **w != 0).count(), 7);
    assert_eq!(ctx.get_kernel_page_table(), 32);
    ctx.set_user_space_pc(VirtAddr::new(0x1_0000));
    assert_eq!(ctx.get_user_space_pc(), 0x1_0000);
    ctx.incr_user_space_pc(4);
    assert_eq!(ctx.get_user_space_pc(), 0x1_0004);
    ctx.set_user_space_pc(VirtAddr::new(u64::MAX - 1));
    ctx.incr_user_space_pc(4);
    assert_eq!(ctx.get_user_space_pc(), 2);
    ctx.user_regs[17] = 17;
    assert_eq!(ctx.get_syscall(), Some(Syscall::SysGetpid));
    ctx.user_regs[17] = 21;
    assert_eq!(ctx.get_syscall(), None);
}

#[test]
fn syscall_numbers() {
    let all = [
        Syscall::SysFork,
        Syscall::SysExit,
        Syscall::SysWait,
        Syscall::SysPipe,
        Syscall::SysRead,
        Syscall::SysWrite,
        Syscall::SysClose,
        Syscall::SysKill,
        Syscall::SysExec,
        Syscall::SysOpen,
        Syscall::SysMknod,
        Syscall::SysUnlink,
        Syscall::SysFstat,
        Syscall::SysLink,
        Syscall::SysMkdir,
        Syscall::SysChdir,
        Syscall::SysDup,
        Syscall::SysGetpid,
        Syscall::SysSbrk,
        Syscall::SysSleep,
        Syscall::SysUptime,
    ];
    for (number, call) in all.iter().enumerate() {
        assert_eq!(call.number(), number as u64);
        assert_eq!(Syscall::from(number as u64), Some(*call));
    }
    assert_eq!(Syscall::from(21), None);
    assert_eq!(Syscall::from(u64::MAX), None);
}

#[test]
fn new_process_has_a_stack_and_nothing_else() {
    let mut allocator = FrameAllocator::new(HEAP_START, 4);
    let pcb = ProcessControlBlock::allocate(&mut allocator, 7).unwrap();
    assert_eq!(pcb.get_pid(), 7);
    assert_eq!(pcb.get_kernel_stack_phys_addr(), PhysAddr::new(HEAP_START));
    assert_eq!(pcb.kernel_stack.frame().number, HEAP_START >> 12);
    assert_eq!(pcb.inner.get_status(), ProcStatus::RUNNABLE);
    assert_eq!(pcb.inner.get_trap_context_pa(), None);
    assert!(!pcb.inner.is_initialised());
    let stack = KernelStackGuard::from_frame(Frame::from_ppn(9));
    assert_eq!(stack.frame().number, 9);
    let mut empty = FrameAllocator::new(HEAP_START, 0);
    assert!(matches!(ProcessControlBlock::allocate(&mut empty, 0), Err(AllocError::ENoFrame)));
    pcb.kernel_stack.release(&mut allocator);
    assert_eq!(allocator.page_allocated, vec![0, 0, 0, 0]);
}

#[test]
fn first_execution_init_maps_the_trapframe_and_fills_the_context() {
    let mut allocator = FrameAllocator::new(HEAP_START, 64);
    let pcb = init_pcb(&mut allocator);
    assert_eq!(pcb.get_pid(), 0);
    let inner = &pcb.inner;
    assert!(inner.is_initialised());
    let trapframe_pa = inner.get_trap_context_pa().unwrap();
    assert!(trapframe_pa.is_page_aligned());
    let space = inner.get_user_space_ref_or_else_panic();
    assert!(space.verify());
    // the trapframe page translates to the frame that the process records
    assert_eq!(
        space.translate(VirtAddr::new(TRAPFRAME_BASE_USER_VA)),
        Some((trapframe_pa, PageFlags::from_bits_retain(7)))
    );
    // the text translates to the first byte of the program: R|X|U|V
    assert_eq!(
        space.translate(VirtAddr::new(TEXT_BASE_USER_VA)),
        Some((PhysAddr::new(TEXT_PA), PageFlags::from_bits_retain(27)))
    );
    let ctx = inner.get_context_ref_or_else_panic();
    // the kernel stack grows down from the top of its page
    assert_eq!(ctx.kernel_sp, pcb.get_kernel_stack_phys_addr().as_usize() + 4096);
    assert_eq!(ctx.kernel_sp, HEAP_START + 4096);
    assert_eq!(ctx.trap_handler, HANDLER);
    assert_eq!(ctx.sepc, TEXT_BASE_USER_VA);
    assert_eq!(ctx.kernel_satp, KERNEL_SATP);
    assert_eq!(ctx.user_regs, [0u64; 32]);
}

#[test]
fn first_execution_init_by_hand() {
    let mut allocator = FrameAllocator::new(HEAP_START, 64);
    let mut pcb = ProcessControlBlock::allocate(&mut allocator, 0).unwrap();
    let space = AddrSpace::make_init(
        &mut allocator,
        PhysAddr::new(TRAMPOLINE_PA),
        PhysAddr::new(TEXT_PA),
        10,
    )
    .unwrap();
    pcb.inner.set_user_space(space);
    assert!(!pcb.inner.is_initialised());
    pcb.first_execution_init(&mut allocator, KERNEL_SATP, VirtAddr::new(HANDLER)).unwrap();
    assert!(pcb.inner.is_initialised());
    pcb.inner.write_trap_context().set_tp(3);
    assert_eq!(pcb.inner.get_context_ref_or_else_panic().user_regs[4], 3);
    let mut inner = PCBInner::new();
    inner.initialise_trap_context(PhysAddr::new(0x9000));
    assert_eq!(inner.get_trap_context_pa(), Some(PhysAddr::new(0x9000)));
    inner.set_status(ProcStatus::RUNNING);
    assert_eq!(inner.get_status(), ProcStatus::RUNNING);
}

#[test]
fn init_process_needs_frames() {
    // a kernel stack, a user stack, a trapframe, and five nodes: the root and two
    // each for the low and for the high end of the address space
    for frames in 0..8 {
        let mut allocator = FrameAllocator::new(HEAP_START, frames);
        let r = make_initcode_uninitialised(
            &mut allocator,
            0,
            PhysAddr::new(TRAMPOLINE_PA),
            PhysAddr::new(TEXT_PA),
            3000,
            KERNEL_SATP,
            VirtAddr::new(HANDLER),
        );
        assert!(matches!(r, Err(AllocError::ENoFrame)), "{frames} frames");
    }
    let mut allocator = FrameAllocator::new(HEAP_START, 8);
    init_pcb(&mut allocator);
    assert!(allocator.page_allocated.iter().all(|s| *s == 1));
}

#[test]
fn manager_creates_the_init_process() {
    let mut allocator = FrameAllocator::new(HEAP_START, 64);
    let mut manager = ProcessManager::new();
    manager
        .create_initcode(
            &mut allocator,
            PhysAddr::new(TRAMPOLINE_PA),
            PhysAddr::new(TEXT_PA),
            3000,
            KERNEL_SATP,
            VirtAddr::new(HANDLER),
        )
        .unwrap();
    assert!(manager.has_process(0));
    assert!(manager.get(0).inner.is_initialised());
    assert_eq!(manager.pop_one(), Some(0));
    let mut cpus = make_cpus();
    assert_eq!(cpus.len(), N_CPUS);
    assert_eq!(cpus[3].hartid(), 3);
    assert_eq!(current_process(&cpus, 0), None);
    cpus[0].set_executing_process(0);
    assert_eq!(current_process(&cpus, 0), Some(0));
    assert_eq!(current_process(&cpus, 1), None);
    assert_eq!(cpus[0].take_executing_process(), Some(0));
    assert_eq!(cpus[0].take_executing_process(), None);
    let mut empty = FrameAllocator::new(HEAP_START, 2);
    let mut manager = ProcessManager::new();
    let r = manager.create_initcode(
        &mut empty,
        PhysAddr::new(TRAMPOLINE_PA),
        PhysAddr::new(TEXT_PA),
        3000,
        KERNEL_SATP,
        VirtAddr::new(HANDLER),
    );
    assert_eq!(r, Err(AllocError::ENoFrame));
    assert!(!manager.has_process(0));
    assert_eq!(manager.pop_one(), None);
}

#[test]
fn ecall_round_trip() {
    let mut allocator = FrameAllocator::new(HEAP_START, 64);
    let mut pcb = init_pcb(&mut allocator);
    pcb.inner.write_trap_context().user_regs[17] = 5;
    let user_satp = pcb.inner.get_user_space_ref_or_else_panic().make_satp();
    // the process traps into the kernel with an environment call
    assert_eq!(init_hart(0x8000_0100), 0x8000_0100);
    assert_eq!(usertrap(TrapCause::UserEnvCall), Ok(UserTrapAction::SystemCall));
    let call = SystemCallHandler::handle(pcb.inner.write_trap_context());
    assert_eq!(call, Some(Syscall::SysWrite));
    // and goes back to user mode
    let back = usertrapret(&mut pcb, 2, TRAPFRAME_BASE_USER_VA, KERNEL_SATP);
    assert_eq!(back, Ok(UserReturn { stvec: TRAMPOLINE_BASE_VA, user_satp }));
    let ctx = pcb.inner.get_context_ref_or_else_panic();
    assert_eq!(ctx.sepc, TEXT_BASE_USER_VA + 4);
    assert_eq!(ctx.user_regs[4], 2);
}

#[test]
fn return_to_user_mode_checks_the_registers() {
    let mut allocator = FrameAllocator::new(HEAP_START, 64);
    let mut pcb = init_pcb(&mut allocator);
    assert_eq!(
        usertrapret(&mut pcb, 1, TRAPFRAME_BASE_USER_VA + 8, KERNEL_SATP),
        Err(TrapError::ScratchNotTrapframe)
    );
    assert_eq!(pcb.inner.get_context_ref_or_else_panic().user_regs[4], 0);
    assert_eq!(
        usertrapret(&mut pcb, 1, TRAPFRAME_BASE_USER_VA, KERNEL_SATP + 1),
        Err(TrapError::WrongKernelTable)
    );
    assert_eq!(pcb.inner.get_context_ref_or_else_panic().user_regs[4], 1);
    let mut bare = ProcessControlBlock::allocate(&mut allocator, 1).unwrap();
    assert_eq!(
        usertrapret(&mut bare, 1, TRAPFRAME_BASE_USER_VA, KERNEL_SATP),
        Err(TrapError::NotInitialised)
    );
}

#[test]
fn trap_dispatch() {
    assert_eq!(kerneltrap(TrapCause::SupervisorSoft), Ok(()));
    assert_eq!(kerneltrap(TrapCause::SupervisorExternal), Ok(()));
    assert_eq!(kerneltrap(TrapCause::SupervisorTimer), Err(TrapError::UnexpectedTimer));
    assert_eq!(kerneltrap(TrapCause::UnknownInterrupt), Err(TrapError::UnknownInterrupt));
    assert_eq!(kerneltrap(TrapCause::UserEnvCall), Err(TrapError::KernelException));
    assert_eq!(kerneltrap(TrapCause::OtherException(2)), Err(TrapError::KernelException));
    assert_eq!(usertrap(TrapCause::InstructionPageFault), Ok(UserTrapAction::InstructionPageFault));
    assert_eq!(usertrap(TrapCause::LoadPageFault), Err(TrapError::LoadPageFault));
    assert_eq!(usertrap(TrapCause::OtherException(2)), Err(TrapError::UnsupportedException));
    assert_eq!(usertrap(TrapCause::SupervisorSoft), Err(TrapError::UnsupportedInterrupt));
    assert_eq!(usertrap(TrapCause::SupervisorTimer), Err(TrapError::UnsupportedInterrupt));
}

#[test]
fn instruction_page_faults() {
    let mut allocator = FrameAllocator::new(HEAP_START, 64);
    let pcb = init_pcb(&mut allocator);
    let space = pcb.inner.get_user_space_ref_or_else_panic();
    assert_eq!(
        InstructionPageFaultHandler::handle(space, TEXT_BASE_USER_VA + 12),
        PageFaultVerdict::Mapped(PhysAddr::new(TEXT_PA + 12), PageFlags::from_bits_retain(27))
    );
    // the stack, right above the one page of text, is not executable
    assert_eq!(
        space.translate(VirtAddr::new(TEXT_BASE_USER_VA + 4096)).unwrap().1.bits(),
        23
    );
    assert_eq!(
        InstructionPageFaultHandler::handle(space, TEXT_BASE_USER_VA + 4096),
        PageFaultVerdict::NotExecutable
    );
    // the trampoline is not for user mode
    assert_eq!(
        InstructionPageFaultHandler::handle(space, TRAMPOLINE_BASE_VA),
        PageFaultVerdict::NotUser
    );
    assert_eq!(InstructionPageFaultHandler::handle(space, 0x4000_0000), PageFaultVerdict::NotMapped);
}

#[test]
fn return_routine_lies_on_the_trampoline_in_both_spaces() {
    let mut allocator = FrameAllocator::new(HEAP_START, 256);
    let pcb = init_pcb(&mut allocator);
    let user = pcb.inner.get_user_space_ref_or_else_panic();
    let other = AddrSpace::make_init(
        &mut allocator,
        PhysAddr::new(TRAMPOLINE_PA),
        PhysAddr::new(TEXT_PA),
        10,
    )
    .unwrap();
    assert_eq!(
        userret_on_trampoline(user, &other, TRAMPOLINE_PA, TRAMPOLINE_PA + 0x90),
        Ok(TRAMPOLINE_BASE_VA + 0x90)
    );
    // a space with its trampoline elsewhere
    let elsewhere = AddrSpace::make_init(
        &mut allocator,
        PhysAddr::new(TRAMPOLINE_PA + 4096),
        PhysAddr::new(TEXT_PA),
        10,
    )
    .unwrap();
    assert_eq!(
        userret_on_trampoline(user, &elsewhere, TRAMPOLINE_PA, TRAMPOLINE_PA + 0x90),
        Err(TrapError::TrampolineNotMapped)
    );
    assert_eq!(
        userret_on_trampoline(&elsewhere, &elsewhere, TRAMPOLINE_PA, TRAMPOLINE_PA + 0x90),
        Err(TrapError::TrampolineNotMapped)
    );
}

#[test]
fn device_registers() {
    assert_eq!(PLIC_MENABLE(0), 0x0c00_2000);
    assert_eq!(PLIC_MENABLE(2), 0x0c00_2200);
    assert_eq!(PLIC_SENABLE(1), 0x0c00_2180);
    assert_eq!(PLIC_MPRIORITY(1), 0x0c20_2000);
    assert_eq!(PLIC_SPRIORITY(1), 0x0c20_3000);
    assert_eq!(PLIC_MCLAIM(1), 0x0c20_2004);
    assert_eq!(PLIC_SCLAIM(3), 0x0c20_7004);
    assert_eq!(CLINT_TIMECMP(0), 0x200_4000);
    assert_eq!(CLINT_TIMECMP(3), 0x200_4018);
    assert_eq!((URT0_IRQ, VIRTIO0_IRQ), (10, 1));
    assert_eq!((N_PROCS, SCHEDULER_INTERVAL), (128, 1_000_000));
    let plic = Plic::new();
    assert_eq!(plic.next(0), None);
    assert_eq!(plic.next(10), Some(10));
    assert_eq!(plic.complete(1, 10), (0x0c20_3004, 10));
    assert_eq!(plic.set_priority(0, 10, 9), (0x0c20_1028, 1));
    assert_eq!(plic.set_threshold(1, 15), (0x0c20_3000, 7));
    assert_eq!(plic.enable(0, 10, 2), (0x0c00_2080, 0x402));
    assert!(plic.is_pending(1, 0b10));
    assert!(!plic.is_pending(2, 0b10));
    assert_eq!(plic.init(10), (0x0c00_0028, 1));
    let mut uart = Uart::new(UART_BASE_ADDR);
    assert_eq!(uart.base_addr, 0x1000_0000);
    assert_eq!(uart.get(0, 65), None);
    assert_eq!(uart.get(1, 65), Some(65));
    assert!(uart.can_put(0x20));
    assert!(!uart.can_put(0x1f));
    assert_eq!(
        uart.init(),
        vec![(3, 3), (2, 1), (1, 1), (3, 0x83), (0, 80), (1, 2), (3, 3)]
    );
}

#[test]
fn trap_context_from_words() {
    let words: Vec<u64> = (100..137).collect();
    let ctx = TrapContext::from_words(&words);
    assert_eq!(ctx.user_regs[0], 100);
    assert_eq!(ctx.user_regs[31], 131);
    assert_eq!(ctx.kernel_satp, 132);
    assert_eq!(ctx.kernel_sp, 133);
    assert_eq!(ctx.kernel_hartid, 134);
    assert_eq!(ctx.sepc, 135);
    assert_eq!(ctx.trap_handler, 136);
    assert_eq!(ctx.words(), words);
    let mut inner = PCBInner::new();
    inner.initialise_trap_context(PhysAddr::new(0x9000));
    inner.load_trap_context(ctx);
    assert_eq!(inner.get_context_ref_or_else_panic().sepc, 135);
}

#[test]
fn user_space_can_be_changed_in_place() {
    let mut allocator = FrameAllocator::new(HEAP_START, 64);
    let mut pcb = ProcessControlBlock::allocate(&mut allocator, 0).unwrap();
    let space = AddrSpace::make_init(
        &mut allocator,
        PhysAddr::new(TRAMPOLINE_PA),
        PhysAddr::new(TEXT_PA),
        10,
    )
    .unwrap();
    pcb.inner.set_user_space(space);
    let pa = pcb.inner.write_user_space().init_trapframe(&mut allocator).unwrap();
    assert_eq!(
        pcb.inner.get_user_space_ref_or_else_panic().translate(VirtAddr::new(TRAPFRAME_BASE_USER_VA)),
        Some((pa, PageFlags::from_bits_retain(7)))
    );
}
