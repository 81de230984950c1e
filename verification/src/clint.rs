//! The core-local interruptor.

use vstd::prelude::*;
use crate::mm::layout::CLINT_MTIMECMP_BASE;

verus! {

/// The address of the timer-compare register of hart `hart`.
#[allow(non_snake_case)]
pub fn CLINT_TIMECMP(hart: u64) -> (r: u64)
    requires
        hart <= 0xffff_ffff,
    ensures
        r == 0x200_4000 + 8 * hart,
{
    CLINT_MTIMECMP_BASE + 8 * hart
}

} // verus!
