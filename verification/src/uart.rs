//! The 16550 UART.

use vstd::prelude::*;

verus! {

/// Where the registers of the UART lie.
pub const UART_BASE_ADDR: u64 = 0x1000_0000;

/// The receive holding register, for input bytes.
pub const RHR: u64 = 0;

/// The transmit holding register, for output bytes.
pub const THR: u64 = 0;

/// The interrupt enable register.
pub const IER: u64 = 1;

/// The FIFO control register.
pub const FCR: u64 = 2;

/// The line control register.
pub const LCR: u64 = 3;

/// The line status register.
pub const LSR: u64 = 5;

/// The bit of the line status register that says that the transmit holding
/// register can take another byte.
pub const LSR_TX_IDLE: u8 = 32;

/// A UART, by the address of its registers.
pub struct Uart {
    pub base_addr: u64,
}

impl Uart {
    pub fn new(base_addr: u64) -> (r: Self)
        ensures
            r.base_addr == base_addr,
    {
        Uart { base_addr }
    }

    /// The byte that was received, given what the line control register and
    /// the receive holding register hold: none while the low bit of the
    /// first is clear.
    pub fn get(&self, line_control: u8, received: u8) -> (r: Option<u8>)
        ensures
            r == if line_control & 1 == 0 {
                None
            } else {
                Some(received)
            },
    {
        if line_control & 1 == 0 {
            None
        } else {
            Some(received)
        }
    }

    /// Whether a byte can be put, given what the line status register holds.
    pub fn can_put(&self, line_status: u8) -> (r: bool)
        ensures
            r == (line_status & LSR_TX_IDLE != 0),
    {
        line_status & LSR_TX_IDLE != 0
    }

    /// What `init` writes, in order, as offsets of registers and bytes: a
    /// word length of eight bits, the FIFO, receive interrupts, then the
    /// divisor 592 behind the divisor latch, and the latch closed again.
    pub fn init(&mut self) -> (r: Vec<(u64, u8)>)
        ensures
            r@ == seq![
                (3u64, 3u8),
                (2u64, 1u8),
                (1u64, 1u8),
                (3u64, 131u8),
                (0u64, 80u8),
                (1u64, 2u8),
                (3u64, 3u8),
            ],
            final(self).base_addr == old(self).base_addr,
    {
        let lcr: u8 = 3;
        let divisor: u16 = 592;
        let divisor_least: u8 = (divisor & 0xff) as u8;
        let divisor_most: u8 = (divisor >> 8) as u8;
        assert(592u16 & 0xff == 80 && 592u16 >> 8u16 == 2 && 3u8 | 128u8 == 131) by (bit_vector);
        let mut writes: Vec<(u64, u8)> = Vec::new();
        writes.push((LCR, lcr));
        writes.push((FCR, 1));
        writes.push((IER, 1));
        writes.push((LCR, lcr | 128));
        writes.push((0, divisor_least));
        writes.push((1, divisor_most));
        writes.push((LCR, lcr));
        assert(writes@ =~= seq![
            (3u64, 3u8),
            (2u64, 1u8),
            (1u64, 1u8),
            (3u64, 131u8),
            (0u64, 80u8),
            (1u64, 2u8),
            (3u64, 3u8),
        ]);
        writes
    }
}

} // verus!
