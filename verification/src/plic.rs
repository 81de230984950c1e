//! The platform-level interrupt controller: where its registers lie, and
//! what is written to them.

use vstd::prelude::*;
use crate::mm::layout::PLIC_BASE;

verus! {

/// Enable bits for machine mode.
pub const PLIC_MENABLE_BASE: u64 = PLIC_BASE + 0x2000;

/// Enable bits for supervisor mode.
pub const PLIC_SENABLE_BASE: u64 = PLIC_BASE + 0x2080;

/// Priority threshold for machine mode.
pub const PLIC_MPRIORITY_BASE: u64 = PLIC_BASE + 0x20_0000;

/// Priority threshold for supervisor mode.
pub const PLIC_SPRIORITY_BASE: u64 = PLIC_BASE + 0x20_1000;

/// Claim register for machine mode.
pub const PLIC_MCLAIM_BASE: u64 = PLIC_BASE + 0x20_0004;

/// Claim register for supervisor mode.
pub const PLIC_SCLAIM_BASE: u64 = PLIC_BASE + 0x20_1004;

/// The interrupt of the UART.
pub const URT0_IRQ: u32 = 10;

/// The interrupt of the virtio device.
pub const VIRTIO0_IRQ: u32 = 1;

#[allow(non_snake_case)]
pub fn PLIC_MENABLE(hart: u64) -> (r: u64)
    requires
        hart <= 0xffff_ffff,
    ensures
        r == 0x0c00_2000 + hart * 0x100,
{
    PLIC_MENABLE_BASE + hart * 0x100
}

#[allow(non_snake_case)]
pub fn PLIC_SENABLE(hart: u64) -> (r: u64)
    requires
        hart <= 0xffff_ffff,
    ensures
        r == 0x0c00_2080 + hart * 0x100,
{
    PLIC_SENABLE_BASE + hart * 0x100
}

#[allow(non_snake_case)]
pub fn PLIC_MPRIORITY(hart: u64) -> (r: u64)
    requires
        hart <= 0xffff_ffff,
    ensures
        r == 0x0c20_0000 + hart * 0x2000,
{
    PLIC_MPRIORITY_BASE + hart * 0x2000
}

#[allow(non_snake_case)]
pub fn PLIC_SPRIORITY(hart: u64) -> (r: u64)
    requires
        hart <= 0xffff_ffff,
    ensures
        r == 0x0c20_1000 + hart * 0x2000,
{
    PLIC_SPRIORITY_BASE + hart * 0x2000
}

#[allow(non_snake_case)]
pub fn PLIC_MCLAIM(hart: u64) -> (r: u64)
    requires
        hart <= 0xffff_ffff,
    ensures
        r == 0x0c20_0004 + hart * 0x2000,
{
    PLIC_MCLAIM_BASE + hart * 0x2000
}

#[allow(non_snake_case)]
pub fn PLIC_SCLAIM(hart: u64) -> (r: u64)
    requires
        hart <= 0xffff_ffff,
    ensures
        r == 0x0c20_1004 + hart * 0x2000,
{
    PLIC_SCLAIM_BASE + hart * 0x2000
}

/// The interrupt controller. Its methods say which register an operation
/// touches and what it writes; the access itself is the caller's.
pub struct Plic {}

impl Plic {
    pub fn new() -> (r: Self) {
        Plic {  }
    }

    /// The interrupt that the claim register names, given what was read
    /// from it: none where it reads zero.
    pub fn next(&self, claimed: u32) -> (r: Option<u32>)
        ensures
            r == if claimed == 0 {
                None
            } else {
                Some(claimed)
            },
    {
        if claimed == 0 {
            None
        } else {
            Some(claimed)
        }
    }

    /// Where the completion of interrupt `id` is written on hart `hart`,
    /// and what is written.
    pub fn complete(&self, hart: u64, id: u32) -> (r: (u64, u32))
        requires
            hart <= 0xffff_ffff,
        ensures
            r == ((0x0c20_1004 + hart * 0x2000) as u64, id),
    {
        (PLIC_SCLAIM(hart), id)
    }

    /// Where the priority of interrupt `id` is written on hart `hart`, and
    /// what is written: the low three bits of `prio`.
    pub fn set_priority(&self, hart: u64, id: u32, prio: u8) -> (r: (u64, u32))
        requires
            hart <= 0xffff_ffff,
        ensures
            r.0 == 0x0c20_1000 + hart * 0x2000 + 4 * id,
            r.1 == prio % 8,
    {
        assert(prio & 7 == prio % 8) by (bit_vector);
        (PLIC_SPRIORITY(hart) + 4 * (id as u64), (prio & 7) as u32)
    }

    /// Where the threshold is written on hart `hart`, and what is written:
    /// the low three bits of `tsh`. Interrupts of a priority at or below the
    /// threshold are masked.
    pub fn set_threshold(&self, hart: u64, tsh: u8) -> (r: (u64, u32))
        requires
            hart <= 0xffff_ffff,
        ensures
            r.0 == 0x0c20_1000 + hart * 0x2000,
            r.1 == tsh % 8,
    {
        assert(tsh & 7 == tsh % 8) by (bit_vector);
        (PLIC_SPRIORITY(hart), (tsh & 7) as u32)
    }

    /// Where interrupt `id` is enabled on hart `hart`, and what is written
    /// there, given the bits `enabled` that the register holds: the same
    /// bits with bit `id` set.
    pub fn enable(&self, hart: u64, id: u32, enabled: u32) -> (r: (u64, u32))
        requires
            hart <= 0xffff_ffff,
            id < 32,
        ensures
            r.0 == 0x0c00_2080 + hart * 0x100,
            r.1 == enabled | (1u32 << id),
    {
        (PLIC_SENABLE(hart), enabled | (1u32 << id))
    }

    /// Whether interrupt `id` is pending, given the bits `pending` of the
    /// pending register.
    pub fn is_pending(&self, id: u32, pending: u32) -> (r: bool)
        requires
            id < 32,
        ensures
            r == (pending & (1u32 << id) != 0),
    {
        pending & (1u32 << id) != 0
    }

    /// Where interrupt `id` is given a priority other than zero, which
    /// enables it, and what is written.
    pub fn init(&self, id: u32) -> (r: (u64, u32))
        ensures
            r == ((0x0c00_0000 + 4 * id) as u64, 1u32),
    {
        (PLIC_BASE + 4 * (id as u64), 1)
    }
}

} // verus!
