//! Limits of the machine and of the kernel.

use vstd::prelude::*;

verus! {

/// How many harts the kernel supports. The boot stack has room for as many.
pub const N_CPUS: usize = 8;

/// How many processes there may be at first.
pub const N_PROCS: usize = 128;

/// How many timer ticks lie between two scheduler interrupts.
pub const SCHEDULER_INTERVAL: u64 = 1_000_000;

} // verus!
