//! Kernel capability system — fine-grained permissions beyond the UID.
use vstd::prelude::*;

verus! {

pub const CAP_MEMORY: u32 = 1;
pub const CAP_NETWORK: u32 = 2;
pub const CAP_FILESYSTEM: u32 = 4;
pub const CAP_DRIVER: u32 = 8;
pub const CAP_DEBUG: u32 = 16;
pub const CAP_POWER: u32 = 32;
pub const CAP_MODULE: u32 = 64;

/// All capabilities.
pub const ALL_CAPS: u32 = 127;

/// Kernel tasks (UID 0) have all capabilities.
pub const KERNEL_CAPS: u32 = ALL_CAPS;

/// Does the capability set `caps` include (any bit of) `cap`?
pub fn has_cap(caps: u32, cap: u32) -> (r: bool)
    ensures
        r == (caps & cap != 0),
{
    (caps & cap) != 0
}

/// A short label for a capability set: "ALL", "none" or "partial".
pub fn caps_to_str(caps: u32) -> (r: &'static str)
    ensures
        caps == ALL_CAPS ==> r@ == "ALL"@,
        caps != ALL_CAPS && caps == 0 ==> r@ == "none"@,
        caps != ALL_CAPS && caps != 0 ==> r@ == "partial"@,
{
    if caps == ALL_CAPS {
        return "ALL";
    }
    if caps == 0 {
        return "none";
    }
    "partial"
}

} // verus!
