//! The memory subsystem of a small supervisor-mode kernel for RV64 with Sv39
//! paging: a frame allocator over a fixed physical window, three-level page
//! tables, virtual areas and address spaces, the trap context that carries a
//! process across the user/kernel boundary, and the slot tables that hand
//! out process ids.
//!
//! Hardware state is never touched here. Page-table nodes are values that the
//! caller writes out to the frames that back them; register reads arrive as
//! arguments and register writes leave as results.

pub mod allocator;
pub mod clint;
pub mod common;
pub mod cpu;
pub mod mm;
pub mod plic;
pub mod process;
pub mod symbols;
pub mod trap;
pub mod uart;
