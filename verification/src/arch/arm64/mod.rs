//! AArch64: decoding keys read from the PL011 UART, and the causes of
//! synchronous exceptions.
use vstd::prelude::*;
use crate::keyboard::{KEY_UP, KEY_DOWN, KEY_RIGHT, KEY_LEFT};

pub mod paging;
pub mod syscall;
pub mod timer;

verus! {

/// Whether `first` starts an escape sequence, after which two more bytes
/// are read from the UART.
pub fn escape_follows(first: u8) -> (r: bool)
    ensures
        r == (first == 0x1B),
{
    first == 0x1B
}

/// The key for bytes read from the UART: `first` (None when nothing was
/// waiting) and, after an escape byte, the next two reads. Arrow keys,
/// CR as '\n', backspace/DEL as '\u{8}', printable ASCII as itself.
pub open spec fn uart_key(first: Option<u8>, c1: Option<u8>, c2: Option<u8>) -> Option<char> {
    match first {
        None => None,
        Some(b) => if b == 0x1B {
            if c1 == Some(0x5Bu8) {
                if c2 == Some(0x41u8) { Some(KEY_UP) }
                else if c2 == Some(0x42u8) { Some(KEY_DOWN) }
                else if c2 == Some(0x43u8) { Some(KEY_RIGHT) }
                else if c2 == Some(0x44u8) { Some(KEY_LEFT) }
                else { None }
            } else {
                None
            }
        } else if b == 0x0D {
            Some('\n')
        } else if b == 0x08 || b == 0x7F {
            Some('\u{8}')
        } else if 0x20 <= b && b <= 0x7E {
            Some(b as char)
        } else {
            None
        },
    }
}

/// Decode a key from UART reads (see `uart_key`).
pub fn try_get_key(first: Option<u8>, c1: Option<u8>, c2: Option<u8>) -> (r: Option<char>)
    ensures
        r == uart_key(first, c1, c2),
{
    let byte = match first {
        Some(b) => b,
        None => {
            return None;
        },
    };
    if byte == 0x1B {
        if c1 == Some(0x5Bu8) {
            return match c2 {
                Some(0x41u8) => Some(KEY_UP),
                Some(0x42u8) => Some(KEY_DOWN),
                Some(0x43u8) => Some(KEY_RIGHT),
                Some(0x44u8) => Some(KEY_LEFT),
                _ => None,
            };
        }
        return None;
    }
    if byte == 0x0D {
        return Some('\n');
    }
    if byte == 0x08 || byte == 0x7F {
        return Some('\u{8}');
    }
    if byte >= 0x20 && byte <= 0x7E {
        return Some(byte as char);
    }
    None
}

/// The exception class in bits 26-31 of ESR_EL1.
pub fn exception_class(esr: u64) -> (r: u64)
    ensures
        r == (esr / 0x400_0000) % 64,
{
    proof {
        assert((esr >> 26) & 0x3F == (esr / 0x400_0000) % 64) by (bit_vector);
    }
    (esr >> 26) & 0x3F
}

/// What an exception of class `ec` taken in the kernel was.
pub fn kernel_cause(ec: u64) -> (r: &'static str)
    ensures
        r == (if ec == 0x15 {
            "SVC (Supervisor Call) from AArch64"
        } else if ec == 0x20 || ec == 0x21 {
            "Instruction Abort"
        } else if ec == 0x24 || ec == 0x25 {
            "Data Abort (Page Fault / Invalid Memory)"
        } else if ec == 0x22 || ec == 0x23 {
            "PC Alignment Fault"
        } else if ec == 0x26 || ec == 0x27 {
            "SP Alignment Fault"
        } else {
            "Unknown"
        }),
{
    if ec == 0x15 {
        "SVC (Supervisor Call) from AArch64"
    } else if ec == 0x20 || ec == 0x21 {
        "Instruction Abort"
    } else if ec == 0x24 || ec == 0x25 {
        "Data Abort (Page Fault / Invalid Memory)"
    } else if ec == 0x22 || ec == 0x23 {
        "PC Alignment Fault"
    } else if ec == 0x26 || ec == 0x27 {
        "SP Alignment Fault"
    } else {
        "Unknown"
    }
}

/// What an exception of class `ec` taken from user mode was; `None` for a
/// class reported by its number.
pub fn user_cause(ec: u64) -> (r: Option<&'static str>)
    ensures
        r == (if ec == 0x15 {
            Some("SVC — should not reach user_sync_handler")
        } else if ec == 0x20 || ec == 0x21 {
            Some("Instruction Abort from EL0")
        } else if ec == 0x24 || ec == 0x25 {
            Some("Data Abort from EL0 (page fault)")
        } else if ec == 0 {
            Some("Unknown reason from EL0")
        } else {
            None::<&'static str>
        }),
{
    if ec == 0x15 {
        Some("SVC — should not reach user_sync_handler")
    } else if ec == 0x20 || ec == 0x21 {
        Some("Instruction Abort from EL0")
    } else if ec == 0x24 || ec == 0x25 {
        Some("Data Abort from EL0 (page fault)")
    } else if ec == 0 {
        Some("Unknown reason from EL0")
    } else {
        None
    }
}

} // verus!
