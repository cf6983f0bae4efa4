//! ACPI tables: finding the RSDP, the system description tables' entries,
//! and the cores and APIC addresses that the MADT lists. The tables are
//! handed in as the bytes found in memory at their addresses.
use vstd::prelude::*;
use crate::bytes::{le16, le32, le64, read_u16_le, read_u32_le, read_u64_le};
use crate::smp::{CpuInfo, MAX_CORES};

verus! {

/// Default physical address of the Local APIC registers.
pub const DEFAULT_LAPIC_ADDR: u32 = 0xFEE0_0000;

/// Length of the common ACPI table header.
pub const ACPI_HEADER_LEN: usize = 36;

/// Length of the RSDP structure.
pub const RSDP_LEN: usize = 36;

/// The APIC addresses the MADT gives.
#[derive(Clone, Copy, PartialEq, Eq, Structural, Debug)]
pub struct ApicAddrs {
    pub local_apic_addr: u32,
    pub io_apic_addr: u32,
    pub io_apic_gsi_base: u32,
}

impl ApicAddrs {
    /// The addresses before any MADT is read.
    pub fn new() -> (a: Self)
        ensures
            a == (ApicAddrs { local_apic_addr: DEFAULT_LAPIC_ADDR, io_apic_addr: 0, io_apic_gsi_base: 0 }),
    {
        ApicAddrs { local_apic_addr: DEFAULT_LAPIC_ADDR, io_apic_addr: 0, io_apic_gsi_base: 0 }
    }
}

/// The sum of the bytes of `s`.
pub open spec fn byte_sum(s: Seq<u8>) -> int
    decreases s.len(),
{
    if s.len() == 0 { 0 } else { byte_sum(s.drop_last()) + s.last() }
}

/// Whether the bytes sum to zero modulo 256.
pub fn verify_checksum(bytes: &[u8]) -> (r: bool)
    ensures
        r == (byte_sum(bytes@) % 256 == 0),
{
    let mut sum: u8 = 0;
    let mut i: usize = 0;
    while i < bytes.len()
        invariant
            0 <= i <= bytes.len(),
            sum == byte_sum(bytes@.subrange(0, i as int)) % 256,
        decreases bytes.len() - i,
    {
        let ghost prev = bytes@.subrange(0, i as int);
        sum = ((sum as u16 + bytes[i] as u16) % 256) as u8;
        i = i + 1;
        proof {
            let cur = bytes@.subrange(0, i as int);
            assert(cur.drop_last() =~= prev);
            assert((byte_sum(prev) % 256 + bytes@[i - 1]) % 256 == (byte_sum(prev) + bytes@[i - 1]) % 256) by (nonlinear_arith);
        }
    }
    assert(bytes@.subrange(0, i as int) =~= bytes@);
    sum == 0
}

/// "RSD PTR ", the RSDP signature.
pub open spec fn rsdp_signature() -> Seq<u8> {
    seq![0x52u8, 0x53u8, 0x44u8, 0x20u8, 0x50u8, 0x54u8, 0x52u8, 0x20u8]
}

/// Whether an RSDP starts at `i` of `m`: the signature, and its first 20
/// bytes summing to zero modulo 256.
pub open spec fn rsdp_at(m: Seq<u8>, i: int) -> bool {
    m.subrange(i, i + 8) == rsdp_signature() && byte_sum(m.subrange(i, i + 20)) % 256 == 0
}

/// The first 16-byte slot from slot `k` of `m` that holds a whole RSDP
/// structure and starts an RSDP.
pub open spec fn first_rsdp(m: Seq<u8>, k: int) -> Option<int>
    decreases m.len() - 16 * k,
{
    if k < 0 || 16 * k + 36 > m.len() {
        None
    } else if rsdp_at(m, 16 * k) {
        Some(k)
    } else {
        first_rsdp(m, k + 1)
    }
}

/// Search memory `mem`, whose first byte is at 16-aligned address `base`,
/// for the RSDP on a 16-byte boundary; its address.
pub fn scan_for_rsdp(mem: &[u8], base: usize) -> (r: Option<usize>)
    requires
        base + mem.len() <= usize::MAX,
    ensures
        r == (match first_rsdp(mem@, 0) {
            Some(k) => Some((base + 16 * k) as usize),
            None => None::<usize>,
        }),
{
    let sig: [u8; 8] = [0x52, 0x53, 0x44, 0x20, 0x50, 0x54, 0x52, 0x20];
    let mut off: usize = 0;
    while off <= mem.len() && mem.len() - off >= RSDP_LEN
        invariant
            off % 16 == 0,
            off <= mem.len() + 16,
            base + mem.len() <= usize::MAX,
            sig@ == rsdp_signature(),
            first_rsdp(mem@, 0) == first_rsdp(mem@, off as int / 16),
        decreases mem.len() + 16 - off,
    {
        let head = crate::text::sub_slice(mem, off, off + 8);
        if crate::text::bytes_eq(head, sig.as_slice()) {
            if verify_checksum(crate::text::sub_slice(mem, off, off + 20)) {
                return Some(base + off);
            }
        }
        assert((off + 16) / 16 == off / 16 + 1);
        off = off + 16;
    }
    None
}

/// The table addresses listed in system description table `t` (XSDT with
/// `width` 8, RSDT with 4): one per `width` bytes after the header, as the
/// length in the header counts them.
pub open spec fn table_entries(t: Seq<u8>, width: int) -> Seq<u64> {
    let count = (le32(t, 4) - 36) / width;
    Seq::new(count as nat, |i: int| if width == 8 { le64(t, 36 + i * 8) as u64 } else { le32(t, 36 + i * 4) as u64 })
}

/// Read the table addresses listed in system description table `t`.
pub fn sdt_entries(t: &[u8], width: usize) -> (v: Vec<u64>)
    requires
        width == 4 || width == 8,
        t.len() >= 36,
        le32(t@, 4) >= 36,
        le32(t@, 4) <= t.len(),
    ensures
        v@ == table_entries(t@, width as int),
{
    let len = read_u32_le(t, 4) as usize;
    let count = (len - 36) / width;
    let mut v: Vec<u64> = Vec::new();
    let mut i: usize = 0;
    while i < count
        invariant
            0 <= i <= count,
            count == (le32(t@, 4) - 36) / width as int,
            width == 4 || width == 8,
            le32(t@, 4) <= t.len(),
            v@.len() == i,
            forall|j: int| 0 <= j < i ==> #[trigger] v@[j] == table_entries(t@, width as int)[j],
        decreases count - i,
    {
        proof {
            assert(36 + i * width + width <= le32(t@, 4)) by (nonlinear_arith)
                requires
                    i < count,
                    count == (le32(t@, 4) - 36) / width as int,
                    width > 0,
            ;
        }
        if width == 8 {
            v.push(read_u64_le(t, 36 + i * 8));
        } else {
            v.push(read_u32_le(t, 36 + i * 4) as u64);
        }
        i = i + 1;
    }
    assert(v@ =~= table_entries(t@, width as int));
    v
}

/// The first of the listed tables that has a nonzero address and
/// signature `target`: `sigs[i]` is the signature found at `addrs[i]`.
pub open spec fn first_table(addrs: Seq<u64>, sigs: Seq<Seq<u8>>, target: Seq<u8>, i: int) -> Option<u64>
    decreases addrs.len() - i,
{
    if i < 0 || i >= addrs.len() || i >= sigs.len() {
        None
    } else if addrs[i] != 0 && sigs[i] == target {
        Some(addrs[i])
    } else {
        first_table(addrs, sigs, target, i + 1)
    }
}

/// The address of the first listed table with signature `target`.
pub fn find_table(addrs: &[u64], sigs: &[[u8; 4]], target: &[u8; 4]) -> (r: Option<u64>)
    requires
        addrs.len() == sigs.len(),
    ensures
        r == first_table(addrs@, sigs@.map_values(|s: [u8; 4]| s@), target@, 0),
{
    let ghost views = sigs@.map_values(|s: [u8; 4]| s@);
    let mut i: usize = 0;
    while i < addrs.len()
        invariant
            addrs.len() == sigs.len(),
            0 <= i <= addrs.len(),
            views == sigs@.map_values(|s: [u8; 4]| s@),
            first_table(addrs@, views, target@, 0) == first_table(addrs@, views, target@, i as int),
        decreases addrs.len() - i,
    {
        if addrs[i] != 0 {
            let s = sigs[i];
            if crate::text::bytes_eq(s.as_slice(), target.as_slice()) {
                return Some(addrs[i]);
            }
        }
        i = i + 1;
    }
    None
}

/// What one MADT record at `off` of `m` does: a Local APIC record (type
/// 0) whose enabled flag is set adds a core while fewer than `MAX_CORES`
/// are known, the first being the bootstrap core; an I/O APIC record
/// (type 1) gives its address and interrupt base; an address override
/// (type 5) with a nonzero address replaces the Local APIC address.
pub open spec fn madt_record(m: Seq<u8>, off: int, cpus: Seq<CpuInfo>, a: ApicAddrs) -> (Seq<CpuInfo>, ApicAddrs) {
    let t = m[off];
    if t == 0 {
        if le16(m, off + 4) % 2 == 1 && cpus.len() < MAX_CORES {
            (cpus.push(CpuInfo { apic_id: m[off + 3] as u32, core_id: cpus.len() as usize, is_bsp: cpus.len() == 0 }), a)
        } else {
            (cpus, a)
        }
    } else if t == 1 {
        (cpus, ApicAddrs { local_apic_addr: a.local_apic_addr, io_apic_addr: le32(m, off + 4) as u32, io_apic_gsi_base: le32(m, off + 8) as u32 })
    } else if t == 5 && le64(m, off + 4) != 0 {
        (cpus, ApicAddrs { local_apic_addr: (le64(m, off + 4) % 0x1_0000_0000) as u32, io_apic_addr: a.io_apic_addr, io_apic_gsi_base: a.io_apic_gsi_base })
    } else {
        (cpus, a)
    }
}

/// The records of MADT `m` from `off`, up to the table's length `len` or a
/// record shorter than 2 bytes.
pub open spec fn madt_walk(m: Seq<u8>, len: int, off: int, cpus: Seq<CpuInfo>, a: ApicAddrs) -> (Seq<CpuInfo>, ApicAddrs)
    decreases (if off <= len { len - off } else { 0 }),
{
    let rl = m[off + 1] as int;
    if off + 2 > len || rl < 2 {
        (cpus, a)
    } else {
        let next = madt_record(m, off, cpus, a);
        madt_walk(m, len, off + rl, next.0, next.1)
    }
}

/// The enabled Local APIC records (type 0, flag bit 0 set) met by the walk
/// of the records of `m` from `off`.
pub open spec fn enabled_cores(m: Seq<u8>, len: int, off: int) -> nat
    decreases (if off <= len { len - off } else { 0 }),
{
    let rl = m[off + 1] as int;
    if off + 2 > len || rl < 2 {
        0
    } else {
        (if m[off] == 0 && le16(m, off + 4) % 2 == 1 { 1nat } else { 0nat }) + enabled_cores(m, len, off + rl)
    }
}

/// Core `c` comes from an enabled Processor Local APIC record (type 0,
/// flag bit 0 of the u16 at +4 set) at or after `off` and before `len`:
/// its APIC id is byte 3 of that record (byte 2 is the ACPI processor
/// UID, which is not the APIC id).
pub open spec fn from_lapic_record(m: Seq<u8>, off: int, len: int, c: CpuInfo) -> bool {
    exists|o: int| {
        &&& off <= o < len
        &&& #[trigger] m[o] == 0
        &&& le16(m, o + 4) % 2 == 1
        &&& c.apic_id == m[o + 3] as u32
    }
}

/// The cores the MADT adds: starting from `cpus` (at most MAX_CORES), the
/// walk keeps them and appends one core per enabled Local APIC record
/// until MAX_CORES are known; the core appended as the `k`-th has core
/// number `k` and is the bootstrap core exactly when `k` is 0.
pub proof fn law_madt_cores(m: Seq<u8>, len: int, off: int, cpus: Seq<CpuInfo>, a: ApicAddrs)
    requires
        cpus.len() <= MAX_CORES,
    ensures
        ({
            let r = madt_walk(m, len, off, cpus, a).0;
            let want = cpus.len() + enabled_cores(m, len, off);
            &&& r.len() == if want < MAX_CORES { want as int } else { MAX_CORES as int }
            &&& r.subrange(0, cpus.len() as int) == cpus
            &&& forall|k: int| cpus.len() <= k < r.len() ==> (#[trigger] r[k]).core_id == k && r[k].is_bsp == (k == 0)
            &&& forall|k: int| cpus.len() <= k < r.len() ==> from_lapic_record(m, off, len, #[trigger] r[k])
        }),
    decreases (if off <= len { len - off } else { 0 }),
{
    let rl = m[off + 1] as int;
    if !(off + 2 > len || rl < 2) {
        let next = madt_record(m, off, cpus, a);
        law_madt_cores(m, len, off + rl, next.0, next.1);
        let r = madt_walk(m, len, off, cpus, a).0;
        assert(r == madt_walk(m, len, off + rl, next.0, next.1).0);
        assert(next.0.subrange(0, cpus.len() as int) =~= cpus);
        assert(r.subrange(0, cpus.len() as int) =~= r.subrange(0, next.0.len() as int).subrange(0, cpus.len() as int));
        assert forall|k: int| cpus.len() <= k < r.len() implies (#[trigger] r[k]).core_id == k && r[k].is_bsp == (k == 0) by {
            if k < next.0.len() {
                assert(r[k] == r.subrange(0, next.0.len() as int)[k]);
                assert(next.0[k] == r[k]);
            }
        }
        assert forall|k: int| cpus.len() <= k < r.len() implies from_lapic_record(m, off, len, #[trigger] r[k]) by {
            if k < next.0.len() {
                assert(r[k] == r.subrange(0, next.0.len() as int)[k]);
                assert(next.0[k] == r[k]);
                assert(k == cpus.len() && next.0.len() == cpus.len() + 1);
                assert(m[off] == 0 && le16(m, off + 4) % 2 == 1);
                assert(next.0[k].apic_id == m[off + 3] as u32);
            } else {
                assert(from_lapic_record(m, off + rl, len, r[k]));
                let o = choose|o: int| {
                    &&& off + rl <= o < len
                    &&& #[trigger] m[o] == 0
                    &&& le16(m, o + 4) % 2 == 1
                    &&& r[k].apic_id == m[o + 3] as u32
                };
                assert(m[o] == 0);
            }
        }
    } else {
        assert(madt_walk(m, len, off, cpus, a).0.subrange(0, cpus.len() as int) =~= cpus);
    }
}

/// Read the MADT held by `madt` (the table, then at least 10 more bytes of
/// memory): the Local APIC address from its header, then each record.
/// The cores found are added to `cpus`.
pub fn parse_madt(madt: &[u8], cpus: &mut Vec<CpuInfo>, apic: &mut ApicAddrs)
    requires
        madt.len() >= 44,
        madt.len() >= le32(madt@, 4) + 10,
        old(cpus)@.len() <= MAX_CORES,
    ensures
        (final(cpus)@, *final(apic)) == madt_walk(madt@, le32(madt@, 4), 44, old(cpus)@,
            ApicAddrs { local_apic_addr: le32(madt@, 36) as u32, io_apic_addr: old(apic).io_apic_addr, io_apic_gsi_base: old(apic).io_apic_gsi_base }),
        final(cpus)@.len() <= MAX_CORES,
        forall|k: int| old(cpus)@.len() <= k < final(cpus)@.len() ==> #[trigger] final(cpus)@[k].core_id == k
            && from_lapic_record(madt@, 44, le32(madt@, 4), final(cpus)@[k]),
{
    proof {
        law_madt_cores(madt@, le32(madt@, 4), 44, old(cpus)@,
            ApicAddrs { local_apic_addr: le32(madt@, 36) as u32, io_apic_addr: old(apic).io_apic_addr, io_apic_gsi_base: old(apic).io_apic_gsi_base });
    }
    let madt_len = read_u32_le(madt, 4) as usize;
    apic.local_apic_addr = read_u32_le(madt, 36);
    let ghost start = (cpus@, *apic);
    let mut offset: usize = 44;
    while offset <= madt_len && madt_len - offset >= 2
        invariant_except_break
            madt_len == le32(madt@, 4),
            madt.len() >= madt_len + 10,
            cpus@.len() <= MAX_CORES,
            madt_walk(madt@, madt_len as int, 44, start.0, start.1) == madt_walk(madt@, madt_len as int, offset as int, cpus@, *apic),
            offset <= madt_len || offset == 44,
        ensures
            (cpus@, *apic) == madt_walk(madt@, madt_len as int, 44, start.0, start.1),
            cpus@.len() <= MAX_CORES,
        decreases madt_len + 44 - offset,
    {
        let rec_type = madt[offset];
        let rec_len = madt[offset + 1] as usize;
        if rec_len < 2 {
            break;
        }
        let ghost before = (cpus@, *apic);
        let ghost next = madt_record(madt@, offset as int, cpus@, *apic);
        if rec_type == 0 {
            let apic_id = madt[offset + 3] as u32;
            let flags = read_u16_le(madt, offset + 4) as u32;
            proof {
                assert((flags & 1 != 0) == (flags % 2 == 1)) by (bit_vector);
            }
            if flags & 1 != 0 {
                if cpus.len() < MAX_CORES {
                    let count = cpus.len();
                    cpus.push(CpuInfo { apic_id, core_id: count, is_bsp: count == 0 });
                }
            }
        } else if rec_type == 1 {
            apic.io_apic_addr = read_u32_le(madt, offset + 4);
            apic.io_apic_gsi_base = read_u32_le(madt, offset + 8);
        } else if rec_type == 5 {
            let override_addr = read_u64_le(madt, offset + 4);
            if override_addr != 0 {
                apic.local_apic_addr = (override_addr % 0x1_0000_0000) as u32;
            }
        }
        proof {
            assert((cpus@, *apic) == next);
            assert(madt_walk(madt@, madt_len as int, offset as int, before.0, before.1)
                == madt_walk(madt@, madt_len as int, offset + rec_len, next.0, next.1));
        }
        if rec_len > madt_len - offset {
            assert(madt_walk(madt@, madt_len as int, offset + rec_len, next.0, next.1) == next);
            break;
        }
        offset = offset + rec_len;
    }
}

/// The core table used when no MADT can be read: the bootstrap core alone.
pub fn bsp_only() -> (v: Vec<CpuInfo>)
    ensures
        v@ == seq![CpuInfo { apic_id: 0, core_id: 0, is_bsp: true }],
{
    let mut v: Vec<CpuInfo> = Vec::new();
    v.push(CpuInfo { apic_id: 0, core_id: 0, is_bsp: true });
    v
}

} // verus!
