//! The PL011 UART (AArch64 serial console) handle.
use vstd::prelude::*;

verus! {

/// Data register address.
pub const UART0_DR: usize = 0x0900_0000;
/// Flag register address.
pub const UART0_FR: usize = 0x0900_0018;
/// Flag: receive FIFO empty.
pub const RXFE: u32 = 0x10;
/// Flag: transmit FIFO full.
pub const TXFF: u32 = 0x20;

/// The UART; its registers are fixed, so the handle carries nothing.
pub struct Uart;

/// Whether the flag register value `fr` says a byte can be read.
pub fn can_read(fr: u32) -> (r: bool)
    ensures
        r == (fr & RXFE == 0),
{
    fr & RXFE == 0
}

/// Whether the flag register value `fr` says a byte can be written.
pub fn can_write(fr: u32) -> (r: bool)
    ensures
        r == (fr & TXFF == 0),
{
    fr & TXFF == 0
}

} // verus!
