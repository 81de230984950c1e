//! System calls and their numbers.

use vstd::prelude::*;

verus! {

/// The system calls, each with its number.
#[derive(Clone, Copy, Debug, PartialEq, Eq, Structural)]
pub enum Syscall {
    SysFork,
    SysExit,
    SysWait,
    SysPipe,
    SysRead,
    SysWrite,
    SysClose,
    SysKill,
    SysExec,
    SysOpen,
    SysMknod,
    SysUnlink,
    SysFstat,
    SysLink,
    SysMkdir,
    SysChdir,
    SysDup,
    SysGetpid,
    SysSbrk,
    SysSleep,
    SysUptime,
}

impl Syscall {
    /// The number of the system call.
    pub open spec fn spec_number(self) -> u64 {
        match self {
            Syscall::SysFork => 0,
            Syscall::SysExit => 1,
            Syscall::SysWait => 2,
            Syscall::SysPipe => 3,
            Syscall::SysRead => 4,
            Syscall::SysWrite => 5,
            Syscall::SysClose => 6,
            Syscall::SysKill => 7,
            Syscall::SysExec => 8,
            Syscall::SysOpen => 9,
            Syscall::SysMknod => 10,
            Syscall::SysUnlink => 11,
            Syscall::SysFstat => 12,
            Syscall::SysLink => 13,
            Syscall::SysMkdir => 14,
            Syscall::SysChdir => 15,
            Syscall::SysDup => 16,
            Syscall::SysGetpid => 17,
            Syscall::SysSbrk => 18,
            Syscall::SysSleep => 19,
            Syscall::SysUptime => 20,
        }
    }

    /// The number of the system call.
    pub fn number(self) -> (r: u64)
        ensures
            r == self.spec_number(),
            r <= 20,
    {
        match self {
            Syscall::SysFork => 0,
            Syscall::SysExit => 1,
            Syscall::SysWait => 2,
            Syscall::SysPipe => 3,
            Syscall::SysRead => 4,
            Syscall::SysWrite => 5,
            Syscall::SysClose => 6,
            Syscall::SysKill => 7,
            Syscall::SysExec => 8,
            Syscall::SysOpen => 9,
            Syscall::SysMknod => 10,
            Syscall::SysUnlink => 11,
            Syscall::SysFstat => 12,
            Syscall::SysLink => 13,
            Syscall::SysMkdir => 14,
            Syscall::SysChdir => 15,
            Syscall::SysDup => 16,
            Syscall::SysGetpid => 17,
            Syscall::SysSbrk => 18,
            Syscall::SysSleep => 19,
            Syscall::SysUptime => 20,
        }
    }

    /// The system call with the number `value`, if there is one.
    pub fn from(value: u64) -> (r: Option<Self>)
        ensures
            value <= 20 ==> r is Some && r.unwrap().spec_number() == value,
            value > 20 ==> r is None,
    {
        match value {
            0 => Some(Syscall::SysFork),
            1 => Some(Syscall::SysExit),
            2 => Some(Syscall::SysWait),
            3 => Some(Syscall::SysPipe),
            4 => Some(Syscall::SysRead),
            5 => Some(Syscall::SysWrite),
            6 => Some(Syscall::SysClose),
            7 => Some(Syscall::SysKill),
            8 => Some(Syscall::SysExec),
            9 => Some(Syscall::SysOpen),
            10 => Some(Syscall::SysMknod),
            11 => Some(Syscall::SysUnlink),
            12 => Some(Syscall::SysFstat),
            13 => Some(Syscall::SysLink),
            14 => Some(Syscall::SysMkdir),
            15 => Some(Syscall::SysChdir),
            16 => Some(Syscall::SysDup),
            17 => Some(Syscall::SysGetpid),
            18 => Some(Syscall::SysSbrk),
            19 => Some(Syscall::SysSleep),
            20 => Some(Syscall::SysUptime),
            _ => None,
        }
    }
}

} // verus!

verus! {

/// The handler of system calls.
pub struct SystemCallHandler {}

impl SystemCallHandler {
    /// Handles the system call that the process behind `ctx` asked for:
    /// moves the point where the process goes on past the call instruction,
    /// so that the call is not made again, and returns which call it is,
    /// or `None` where no system call has the number in `a7`.
    pub fn handle(ctx: &mut crate::process::context::TrapContext) -> (r: Option<Syscall>)
        ensures
            final(ctx).sepc == (old(ctx).sepc + 4) % 0x1_0000_0000_0000_0000,
            final(ctx).user_regs == old(ctx).user_regs,
            final(ctx).kernel_satp == old(ctx).kernel_satp,
            final(ctx).kernel_sp == old(ctx).kernel_sp,
            final(ctx).kernel_hartid == old(ctx).kernel_hartid,
            final(ctx).trap_handler == old(ctx).trap_handler,
            old(ctx).user_regs@[17] <= 20 ==> r is Some && r.unwrap().spec_number() == old(ctx).user_regs@[17],
            old(ctx).user_regs@[17] > 20 ==> r is None,
    {
        ctx.incr_user_space_pc(4);
        ctx.get_syscall()
    }
}

} // verus!
