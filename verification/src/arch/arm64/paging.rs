//! AArch64 translation table descriptors (4 KiB granule).
use vstd::prelude::*;

verus! {

/// A translation table: 512 descriptors.
pub struct Table {
    pub entries: [u64; 512],
}

pub const DESC_BLOCK: u64 = 0b01;
pub const DESC_TABLE: u64 = 0b11;
/// Access flag.
pub const AF: u64 = 0x400;
/// Inner shareable.
pub const SH_INNER: u64 = 0x300;
/// MAIR index 0: normal memory.
pub const ATTR_NORMAL: u64 = 0;
/// MAIR index 1: device memory.
pub const ATTR_DEVICE: u64 = 0x4;
/// AP[2:1] = 0b01: read/write at EL0 and EL1.
pub const AP_EL0_RW: u64 = 0x40;
/// Execute-never.
pub const XN: u64 = 0x40_0000_0000_0000;
/// Privileged execute-never.
pub const PXN: u64 = 0x20_0000_0000_0000;

/// A 2 MiB block of normal, inner-shareable memory at `pa`.
pub fn normal_block(pa: u64) -> (r: u64)
    ensures
        r == pa | ATTR_NORMAL | SH_INNER | AF | DESC_BLOCK,
{
    pa | ATTR_NORMAL | SH_INNER | AF | DESC_BLOCK
}

/// A 2 MiB block of device memory at `pa`.
pub fn device_block(pa: u64) -> (r: u64)
    ensures
        r == pa | ATTR_DEVICE | AF | DESC_BLOCK,
{
    pa | ATTR_DEVICE | AF | DESC_BLOCK
}

/// A descriptor pointing at the next-level table at `table_addr`.
pub fn table_desc(table_addr: u64) -> (r: u64)
    ensures
        r == table_addr | DESC_TABLE,
{
    table_addr | DESC_TABLE
}

/// Access bits of a 4 KiB page: AP[2:1] from writability and EL0 access,
/// XN and PXN when not executable.
pub open spec fn page_flags(writable: bool, user: bool, executable: bool) -> u64 {
    let ap: u64 = if writable {
        if user { AP_EL0_RW } else { 0 }
    } else {
        if user { 0xC0 } else { 0x80 }
    };
    let xn: u64 = if executable { 0 } else { XN | PXN };
    ap | xn
}

/// A 4 KiB page descriptor for `pa`.
pub fn page_4k_desc(pa: u64, writable: bool, user: bool, executable: bool) -> (r: u64)
    ensures
        r == pa | AF | SH_INNER | 0b11u64 | page_flags(writable, user, executable),
{
    let mut flags = pa | AF | SH_INNER;
    flags = flags | 0b11;
    let ap: u64 = if writable {
        if user { AP_EL0_RW } else { 0 }
    } else {
        if user { 0xC0 } else { 0x80 }
    };
    let xn: u64 = if executable { 0 } else { XN | PXN };
    let r = flags | ap | xn;
    assert(r == pa | AF | SH_INNER | 0b11u64 | (ap | xn)) by (bit_vector)
        requires
            r == (((pa | AF | SH_INNER) | 0b11u64) | ap) | xn,
    ;
    r
}

} // verus!
