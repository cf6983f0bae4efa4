//! Page faults: reading the error code the CPU pushes.
use vstd::prelude::*;

verus! {

/// Error code bits: the page was present, the access was a write, it came
/// from user mode, it was an instruction fetch from a no-execute page.
pub const PF_PRESENT: u64 = 0x1;
pub const PF_WRITE: u64 = 0x2;
pub const PF_USER: u64 = 0x4;
pub const PF_NX: u64 = 0x10;

/// The words that describe a page fault's error code `code`: whether the
/// page was present, the kind of access, the mode, and "NX" for a fetch
/// from a no-execute page (else empty).
pub fn decode_error_code(code: u64) -> (r: (&'static str, &'static str, &'static str, &'static str))
    ensures
        r.0 == (if code & PF_PRESENT != 0 { "present" } else { "not-present" }),
        r.1 == (if code & PF_WRITE != 0 { "write" } else { "read/fetch" }),
        r.2 == (if code & PF_USER != 0 { "user-mode" } else { "supervisor" }),
        r.3 == (if code & PF_NX != 0 { "NX" } else { "" }),
{
    let present = if code & PF_PRESENT != 0 { "present" } else { "not-present" };
    let rw = if code & PF_WRITE != 0 { "write" } else { "read/fetch" };
    let user = if code & PF_USER != 0 { "user-mode" } else { "supervisor" };
    let nx = if code & PF_NX != 0 { "NX" } else { "" };
    (present, rw, user, nx)
}

/// Whether a fault with error code `code` came from user mode: such a
/// fault ends the task, any other halts the system.
pub fn is_user_fault(code: u64) -> (r: bool)
    ensures
        r == (code & PF_USER != 0),
{
    code & PF_USER != 0
}

} // verus!
