//! GPT (GUID Partition Table): the header at LBA 1 and the partition
//! entries it points to.
use vstd::prelude::*;
use crate::bytes::{le32, le64, read_u32_le, read_u64_le};
use crate::drivers::ide::IdeDisk;

verus! {

/// "EFI PART"
pub open spec fn gpt_signature() -> Seq<u8> {
    seq![0x45u8, 0x46, 0x49, 0x20, 0x50, 0x41, 0x52, 0x54]
}

/// The GPT header fields the kernel uses.
#[derive(Clone, Copy)]
pub struct GptHeader {
    pub signature: [u8; 8],
    pub revision: u32,
    pub header_size: u32,
    pub header_crc32: u32,
    pub reserved: u32,
    pub my_lba: u64,
    pub alternate_lba: u64,
    pub first_usable_lba: u64,
    pub last_usable_lba: u64,
    pub disk_guid: [u8; 16],
    pub partition_entry_lba: u64,
    pub num_partition_entries: u32,
    pub partition_entry_size: u32,
    pub partition_entry_crc32: u32,
}

/// A GPT partition entry (128 bytes).
#[derive(Clone, Copy)]
pub struct GptPartitionEntry {
    pub type_guid: [u8; 16],
    pub unique_guid: [u8; 16],
    pub first_lba: u64,
    pub last_lba: u64,
    pub attributes: u64,
    pub name: [u8; 72],
}

/// A partition found in the table.
#[derive(Debug, Clone, Copy, PartialEq, Eq, Structural)]
pub struct Partition {
    pub index: usize,
    pub first_lba: u64,
    pub last_lba: u64,
    pub size_sectors: u64,
    pub first_byte: u64,
    pub size_bytes: u64,
}

fn copy_bytes<const N: usize>(src: &[u8], off: usize, dst: &mut [u8; N])
    requires
        off + N <= src@.len(),
    ensures
        final(dst)@ == src@.subrange(off as int, off + N),
{
    let n = src.len();
    let mut i: usize = 0;
    while i < N
        invariant
            off + N <= src@.len(),
            n == src@.len(),
            final_len(dst@.len(), N),
            0 <= i <= N,
            forall|k: int| 0 <= k < i ==> dst@[k] == src@[off + k],
        decreases N - i,
    {
        dst[i] = src[off + i];
        i = i + 1;
    }
    assert(dst@ =~= src@.subrange(off as int, off + N));
}

spec fn final_len(a: nat, n: usize) -> bool {
    a == n
}

/// The header fields as stored in `b`.
pub open spec fn header_fields(h: GptHeader, b: Seq<u8>) -> bool {
    &&& h.signature@ == b.subrange(0, 8)
    &&& h.revision == le32(b, 8)
    &&& h.header_size == le32(b, 12)
    &&& h.header_crc32 == le32(b, 16)
    &&& h.reserved == le32(b, 20)
    &&& h.my_lba == le64(b, 24)
    &&& h.alternate_lba == le64(b, 32)
    &&& h.first_usable_lba == le64(b, 40)
    &&& h.last_usable_lba == le64(b, 48)
    &&& h.disk_guid@ == b.subrange(56, 72)
    &&& h.partition_entry_lba == le64(b, 72)
    &&& h.num_partition_entries == le32(b, 80)
    &&& h.partition_entry_size == le32(b, 84)
    &&& h.partition_entry_crc32 == le32(b, 88)
}

/// The entry fields as stored in `b` from `o`.
pub open spec fn entry_fields(e: GptPartitionEntry, b: Seq<u8>, o: int) -> bool {
    &&& e.type_guid@ == b.subrange(o, o + 16)
    &&& e.unique_guid@ == b.subrange(o + 16, o + 32)
    &&& e.first_lba == le64(b, o + 32)
    &&& e.last_lba == le64(b, o + 40)
    &&& e.attributes == le64(b, o + 48)
    &&& e.name@ == b.subrange(o + 56, o + 128)
}

impl GptHeader {
    /// Decode a header from the start of a sector.
    pub fn from_bytes(b: &[u8; 512]) -> (h: Self)
        ensures
            header_fields(h, b@),
    {
        let s = b.as_slice();
        let mut signature = [0u8; 8];
        copy_bytes(s, 0, &mut signature);
        let mut disk_guid = [0u8; 16];
        copy_bytes(s, 56, &mut disk_guid);
        GptHeader {
            signature,
            revision: read_u32_le(s, 8),
            header_size: read_u32_le(s, 12),
            header_crc32: read_u32_le(s, 16),
            reserved: read_u32_le(s, 20),
            my_lba: read_u64_le(s, 24),
            alternate_lba: read_u64_le(s, 32),
            first_usable_lba: read_u64_le(s, 40),
            last_usable_lba: read_u64_le(s, 48),
            disk_guid,
            partition_entry_lba: read_u64_le(s, 72),
            num_partition_entries: read_u32_le(s, 80),
            partition_entry_size: read_u32_le(s, 84),
            partition_entry_crc32: read_u32_le(s, 88),
        }
    }
}

impl GptPartitionEntry {
    /// Decode an entry stored in `b` from `o`.
    pub fn from_bytes(b: &[u8], o: usize) -> (e: Self)
        requires
            o + 128 <= b@.len(),
        ensures
            entry_fields(e, b@, o as int),
    {
        let _n = b.len();
        let mut type_guid = [0u8; 16];
        copy_bytes(b, o, &mut type_guid);
        let mut unique_guid = [0u8; 16];
        copy_bytes(b, o + 16, &mut unique_guid);
        let mut name = [0u8; 72];
        copy_bytes(b, o + 56, &mut name);
        GptPartitionEntry {
            type_guid,
            unique_guid,
            first_lba: read_u64_le(b, o + 32),
            last_lba: read_u64_le(b, o + 40),
            attributes: read_u64_le(b, o + 48),
            name,
        }
    }
}

/// What the header sector `b` (LBA 1) says: the header, or why there is
/// no usable table.
pub open spec fn header_outcome(b: Seq<u8>) -> Result<(), &'static str> {
    if b.subrange(0, 8) != gpt_signature() {
        Err("no GPT partition table found")
    } else if le32(b, 12) < 92 {
        Err("invalid GPT header size")
    } else {
        Ok(())
    }
}

/// Read and check the GPT header at LBA 1.
pub fn read_gpt_header(disk: &IdeDisk) -> (r: Result<GptHeader, &'static str>)
    requires
        disk.wf(),
    ensures
        disk.total_view() <= 1 ==> r == Err::<GptHeader, &'static str>("LBA out of range"),
        disk.total_view() > 1 ==> match header_outcome(disk.sector(1)) {
            Ok(()) => r matches Ok(h) && header_fields(h, disk.sector(1)),
            Err(e) => r == Err::<GptHeader, &'static str>(e),
        },
{
    let mut buf = [0u8; 512];
    match disk.read_sector(1, &mut buf) {
        Err(e) => {
            return Err(e);
        },
        Ok(()) => {},
    }
    let header = GptHeader::from_bytes(&buf);
    let sig: [u8; 8] = [0x45, 0x46, 0x49, 0x20, 0x50, 0x41, 0x52, 0x54];
    let mut i: usize = 0;
    while i < 8
        invariant
            0 <= i <= 8,
            header.signature@ == buf@.subrange(0, 8),
            buf@ == disk.sector(1),
            disk.total_view() > 1,
            sig@ == gpt_signature(),
            forall|k: int| 0 <= k < i ==> header.signature@[k] == sig@[k],
        decreases 8 - i,
    {
        if header.signature[i] != sig[i] {
            assert(buf@.subrange(0, 8)[i as int] != gpt_signature()[i as int]);
            return Err("no GPT partition table found");
        }
        i = i + 1;
    }
    assert(buf@.subrange(0, 8) =~= gpt_signature());
    if header.header_size < 92 {
        return Err("invalid GPT header size");
    }
    Ok(header)
}

/// The partition an entry describes: present when its first LBA is not 0
/// and its last LBA is not before the first.
pub open spec fn partition_of(index: usize, first: u64, last: u64) -> Option<Partition> {
    if first == 0 || last < first {
        None
    } else {
        let size = (last - first + 1) as u64;
        Some(Partition {
            index,
            first_lba: first,
            last_lba: last,
            size_sectors: size,
            first_byte: (first * 512) as u64,
            size_bytes: (size * 512) as u64,
        })
    }
}

/// The partition described by an entry, if it is in use.
pub fn partition_from_entry(index: usize, e: &GptPartitionEntry) -> (r: Option<Partition>)
    requires
        (e.first_lba != 0 && e.last_lba >= e.first_lba) ==> e.first_lba * 512 <= u64::MAX && e.last_lba - e.first_lba + 1
            <= u64::MAX / 512,
    ensures
        r == partition_of(index, e.first_lba, e.last_lba),
{
    if e.first_lba == 0 || e.last_lba < e.first_lba {
        return None;
    }
    let size_sectors = e.last_lba - e.first_lba + 1;
    Some(Partition {
        index,
        first_lba: e.first_lba,
        last_lba: e.last_lba,
        size_sectors,
        first_byte: e.first_lba * 512,
        size_bytes: size_sectors * 512,
    })
}

/// Where entry `index` of the table described by header sector `hb` is:
/// the LBA of its sector (the entry LBA truncated to 32 bits, plus whole
/// sectors of entries before it) and its byte offset there.
pub open spec fn entry_location(hb: Seq<u8>, index: int) -> (int, int) {
    let size = le32(hb, 84);
    let per_sector = 512int / size;
    (le64(hb, 72) % 0x1_0000_0000 + index / per_sector, (index % per_sector) * size)
}

/// The table behind header sector `hb` can be read at entry `index`
/// without overflow or reading past the sector, and the entry's sizes fit.
pub open spec fn entry_readable(disk: &IdeDisk, index: int) -> bool {
    let hb = disk.sector(1);
    let size = le32(hb, 84);
    let (lba, off) = entry_location(hb, index);
    &&& 128 <= size <= 512
    &&& index / (512int / size) <= u32::MAX
    &&& lba <= u32::MAX
    &&& lba < disk.total_view() ==> {
        let sec = disk.sector(lba);
        let first = le64(sec, off + 32);
        let last = le64(sec, off + 40);
        (first != 0 && last >= first) ==> first * 512 <= u64::MAX && last - first + 1 <= u64::MAX / 512
    }
}

/// Partition `index` of the disk's GPT.
pub fn get_partition(disk: &IdeDisk, index: usize) -> (r: Result<Partition, &'static str>)
    requires
        disk.wf(),
        (disk.total_view() > 1 && header_outcome(disk.sector(1)) is Ok) ==> entry_readable(disk, index as int),
    ensures
        disk.total_view() <= 1 ==> r == Err::<Partition, &'static str>("LBA out of range"),
        disk.total_view() > 1 ==> match header_outcome(disk.sector(1)) {
            Err(e) => r == Err::<Partition, &'static str>(e),
            Ok(()) => {
                let (lba, off) = entry_location(disk.sector(1), index as int);
                if lba >= disk.total_view() {
                    r == Err::<Partition, &'static str>("LBA out of range")
                } else {
                    let sec = disk.sector(lba);
                    match partition_of(index, le64(sec, off + 32) as u64, le64(sec, off + 40) as u64) {
                        Some(p) => r == Ok::<Partition, &'static str>(p),
                        None => r == Err::<Partition, &'static str>("partition not found"),
                    }
                }
            },
        },
{
    let header = match read_gpt_header(disk) {
        Ok(h) => h,
        Err(e) => {
            return Err(e);
        },
    };
    let size = header.partition_entry_size as usize;
    let per_sector = 512usize / size;
    proof {
        assert(1 <= per_sector <= 4) by (nonlinear_arith)
            requires
                128 <= size <= 512,
                per_sector == 512usize / size,
        ;
    }
    let sector_offset = index / per_sector;
    let entry_offset = index % per_sector;
    let elba = header.partition_entry_lba;
    proof {
        assert((elba as u32) == elba % 0x1_0000_0000) by (bit_vector);
    }
    let lba = (elba as u32) + (sector_offset as u32);
    let mut buf = [0u8; 512];
    match disk.read_sector(lba, &mut buf) {
        Err(e) => {
            return Err(e);
        },
        Ok(()) => {},
    }
    proof {
        assert(entry_offset * size + size <= 512) by (nonlinear_arith)
            requires
                entry_offset < per_sector,
                per_sector == 512int / (size as int),
                size >= 128,
        ;
    }
    let entry = GptPartitionEntry::from_bytes(buf.as_slice(), entry_offset * size);
    match partition_from_entry(index, &entry) {
        Some(p) => Ok(p),
        None => Err("partition not found"),
    }
}

} // verus!
