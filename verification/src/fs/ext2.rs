//! ext2 on an IDE disk, read only: the superblock, block group
//! descriptors, inodes, file data through direct and single indirect
//! blocks, and directory entries.
use vstd::prelude::*;
use crate::bytes::{le16, le32, read_u16_le, read_u32_le, zeroed_vec};
use crate::drivers::ide::{IdeDisk, sector_bytes};
use crate::text::{str_from_utf8, sub_slice};
use vstd::string::StringSliceAdditionalSpecFns;
use vstd::utf8::{valid_utf8, decode_utf8, encode_utf8_decode_utf8};

verus! {

/// The ext2 magic number.
pub const EXT2_MAGIC: u16 = 0xEF53;

/// The ext2 superblock (1024 bytes into the partition).
#[derive(Clone, Copy)]
pub struct Ext2Superblock {
    pub inodes_count: u32,
    pub blocks_count: u32,
    pub r_blocks_count: u32,
    pub free_blocks_count: u32,
    pub free_inodes_count: u32,
    pub first_data_block: u32,
    pub log_block_size: u32,
    pub log_frag_size: i32,
    pub blocks_per_group: u32,
    pub frags_per_group: u32,
    pub inodes_per_group: u32,
    pub mtime: u32,
    pub wtime: u32,
    pub mnt_count: u16,
    pub max_mnt_count: u16,
    pub magic: u16,
    pub state: u16,
    pub errors: u16,
    pub minor_rev_level: u16,
    pub lastcheck: u32,
    pub checkinterval: u32,
    pub creator_os: u32,
    pub rev_level: u32,
    pub def_resuid: u16,
    pub def_resgid: u16,
    pub first_ino: u32,
    pub inode_size: u16,
    pub block_group_nr: u16,
    pub feature_compat: u32,
    pub feature_incompat: u32,
    pub feature_ro_compat: u32,
    pub uuid: [u8; 16],
    pub volume_name: [u8; 16],
    pub algo_bitmap: u32,
}

/// A block group descriptor (32 bytes).
#[derive(Clone, Copy, PartialEq, Eq, Structural)]
pub struct Ext2GroupDesc {
    pub block_bitmap: u32,
    pub inode_bitmap: u32,
    pub inode_table: u32,
    pub free_blocks_count: u16,
    pub free_inodes_count: u16,
    pub dirs_count: u16,
}

/// An inode (the first 128 bytes of its slot).
#[derive(Clone, Copy)]
pub struct Ext2Inode {
    pub mode: u16,
    pub uid: u16,
    pub size: u32,
    pub atime: u32,
    pub ctime: u32,
    pub mtime: u32,
    pub dtime: u32,
    pub gid: u16,
    pub links_count: u16,
    pub blocks: u32,
    pub flags: u32,
    pub osd1: u32,
    pub block: [u32; 15],
    pub generation: u32,
    pub file_acl: u32,
    pub dir_acl: u32,
    pub faddr: u32,
}

/// A directory entry.
#[derive(Clone)]
pub struct Ext2DirEntry {
    pub inode: u32,
    pub name: String,
    pub file_type: u8,
}

/// A mounted ext2 volume.
pub struct Ext2Fs {
    block_size: u32,
    inodes_per_group: u32,
    blocks_per_group: u32,
    pub num_block_groups: u32,
    inode_size: u32,
    group_desc_table: Vec<Ext2GroupDesc>,
    partition_offset: u32,
}

/// Sixteen bytes of `s` from `o`.
fn bytes16(s: &[u8], o: usize) -> (a: [u8; 16])
    requires
        o + 16 <= s.len(),
    ensures
        a@ == s@.subrange(o as int, o + 16),
{
    let mut a = [0u8; 16];
    let mut i: usize = 0;
    while i < 16
        invariant
            0 <= i <= 16,
            o + 16 <= s.len(),
            a@.len() == 16,
            forall|k: int| 0 <= k < i ==> #[trigger] a@[k] == s@[o + k],
        decreases 16 - i,
    {
        a[i] = s[o + i];
        i = i + 1;
    }
    assert(a@ =~= s@.subrange(o as int, o + 16));
    a
}

impl Ext2Superblock {
    /// Decode the superblock from its first 512 bytes `b`.
    pub fn from_bytes(b: &[u8; 512]) -> (sb: Self)
        ensures
            sb.inodes_count == le32(b@, 0),
            sb.blocks_count == le32(b@, 4),
            sb.log_block_size == le32(b@, 24),
            sb.blocks_per_group == le32(b@, 32),
            sb.inodes_per_group == le32(b@, 40),
            sb.magic == le16(b@, 56),
            sb.rev_level == le32(b@, 76),
            sb.inode_size == le16(b@, 88),
    {
        let s = b.as_slice();
        Ext2Superblock {
            inodes_count: read_u32_le(s, 0),
            blocks_count: read_u32_le(s, 4),
            r_blocks_count: read_u32_le(s, 8),
            free_blocks_count: read_u32_le(s, 12),
            free_inodes_count: read_u32_le(s, 16),
            first_data_block: read_u32_le(s, 20),
            log_block_size: read_u32_le(s, 24),
            log_frag_size: read_u32_le(s, 28) as i32,
            blocks_per_group: read_u32_le(s, 32),
            frags_per_group: read_u32_le(s, 36),
            inodes_per_group: read_u32_le(s, 40),
            mtime: read_u32_le(s, 44),
            wtime: read_u32_le(s, 48),
            mnt_count: read_u16_le(s, 52),
            max_mnt_count: read_u16_le(s, 54),
            magic: read_u16_le(s, 56),
            state: read_u16_le(s, 58),
            errors: read_u16_le(s, 60),
            minor_rev_level: read_u16_le(s, 62),
            lastcheck: read_u32_le(s, 64),
            checkinterval: read_u32_le(s, 68),
            creator_os: read_u32_le(s, 72),
            rev_level: read_u32_le(s, 76),
            def_resuid: read_u16_le(s, 80),
            def_resgid: read_u16_le(s, 82),
            first_ino: read_u32_le(s, 84),
            inode_size: read_u16_le(s, 88),
            block_group_nr: read_u16_le(s, 90),
            feature_compat: read_u32_le(s, 92),
            feature_incompat: read_u32_le(s, 96),
            feature_ro_compat: read_u32_le(s, 100),
            uuid: bytes16(s, 104),
            volume_name: bytes16(s, 120),
            algo_bitmap: read_u32_le(s, 200),
        }
    }
}

/// The group descriptor at byte `o` of `s`.
pub open spec fn group_desc_at(s: Seq<u8>, o: int) -> Ext2GroupDesc {
    Ext2GroupDesc {
        block_bitmap: le32(s, o) as u32,
        inode_bitmap: le32(s, o + 4) as u32,
        inode_table: le32(s, o + 8) as u32,
        free_blocks_count: le16(s, o + 12) as u16,
        free_inodes_count: le16(s, o + 14) as u16,
        dirs_count: le16(s, o + 16) as u16,
    }
}

impl Ext2GroupDesc {
    /// Decode the descriptor at byte `o` of `s`.
    pub fn from_bytes(s: &[u8], o: usize) -> (d: Self)
        requires
            o + 32 <= s.len(),
        ensures
            d == group_desc_at(s@, o as int),
    {
        Ext2GroupDesc {
            block_bitmap: read_u32_le(s, o),
            inode_bitmap: read_u32_le(s, o + 4),
            inode_table: read_u32_le(s, o + 8),
            free_blocks_count: read_u16_le(s, o + 12),
            free_inodes_count: read_u16_le(s, o + 14),
            dirs_count: read_u16_le(s, o + 16),
        }
    }
}

/// Whether `n` is the inode stored at byte `o` of `s`.
pub open spec fn inode_decodes(n: Ext2Inode, s: Seq<u8>, o: int) -> bool {
    &&& n.mode == le16(s, o)
    &&& n.uid == le16(s, o + 2)
    &&& n.size == le32(s, o + 4)
    &&& n.atime == le32(s, o + 8)
    &&& n.ctime == le32(s, o + 12)
    &&& n.mtime == le32(s, o + 16)
    &&& n.dtime == le32(s, o + 20)
    &&& n.gid == le16(s, o + 24)
    &&& n.links_count == le16(s, o + 26)
    &&& n.blocks == le32(s, o + 28)
    &&& n.flags == le32(s, o + 32)
    &&& n.osd1 == le32(s, o + 36)
    &&& n.block@.len() == 15
    &&& forall|i: int| 0 <= i < 15 ==> #[trigger] n.block@[i] == le32(s, o + 40 + 4 * i)
    &&& n.generation == le32(s, o + 100)
    &&& n.file_acl == le32(s, o + 104)
    &&& n.dir_acl == le32(s, o + 108)
    &&& n.faddr == le32(s, o + 112)
}

impl Ext2Inode {
    /// Decode the inode at byte `o` of `s`.
    pub fn from_bytes(s: &[u8], o: usize) -> (n: Self)
        requires
            o + 128 <= s.len(),
        ensures
            inode_decodes(n, s@, o as int),
    {
        let mut block = [0u32; 15];
        let mut i: usize = 0;
        while i < 15
            invariant
                0 <= i <= 15,
                o + 128 <= s.len(),
                block@.len() == 15,
                forall|k: int| 0 <= k < i ==> #[trigger] block@[k] == le32(s@, o + 40 + 4 * k),
            decreases 15 - i,
        {
            block[i] = read_u32_le(s, o + 40 + 4 * i);
            i = i + 1;
        }
        Ext2Inode {
            mode: read_u16_le(s, o),
            uid: read_u16_le(s, o + 2),
            size: read_u32_le(s, o + 4),
            atime: read_u32_le(s, o + 8),
            ctime: read_u32_le(s, o + 12),
            mtime: read_u32_le(s, o + 16),
            dtime: read_u32_le(s, o + 20),
            gid: read_u16_le(s, o + 24),
            links_count: read_u16_le(s, o + 26),
            blocks: read_u32_le(s, o + 28),
            flags: read_u32_le(s, o + 32),
            osd1: read_u32_le(s, o + 36),
            block,
            generation: read_u32_le(s, o + 100),
            file_acl: read_u32_le(s, o + 104),
            dir_acl: read_u32_le(s, o + 108),
            faddr: read_u32_le(s, o + 112),
        }
    }
}

impl Ext2Fs {
    /// Block size in bytes.
    pub closed spec fn bs(&self) -> u32 {
        self.block_size
    }

    /// Inodes per block group.
    pub closed spec fn ipg(&self) -> u32 {
        self.inodes_per_group
    }

    /// Blocks per block group.
    pub closed spec fn bpg(&self) -> u32 {
        self.blocks_per_group
    }

    /// Bytes per inode slot.
    pub closed spec fn isz(&self) -> u32 {
        self.inode_size
    }

    /// The block group descriptors.
    pub closed spec fn groups(&self) -> Seq<Ext2GroupDesc> {
        self.group_desc_table@
    }

    /// Number of block groups.
    pub closed spec fn ngroups(&self) -> u32 {
        self.num_block_groups
    }

    /// First sector of the partition.
    pub closed spec fn poff(&self) -> u32 {
        self.partition_offset
    }

    /// Block size in bytes.
    pub fn block_size(&self) -> (r: u32)
        ensures
            r == self.bs(),
    {
        self.block_size
    }
}

/// The block size that superblock `b` gives.
pub open spec fn sb_block_size(b: Seq<u8>) -> u32 {
    1024u32 << (le32(b, 24) as u32)
}

/// The number of block groups that superblock `b` gives.
pub open spec fn sb_groups(b: Seq<u8>) -> int {
    (le32(b, 4) + le32(b, 32) - 1) / le32(b, 32)
}

/// First sector of the block group descriptor table.
pub open spec fn gdt_start(b: Seq<u8>, off: int) -> int {
    if sb_block_size(b) == 1024 { off + 4 } else { off + sb_block_size(b) / 512 }
}

/// Sectors the block group descriptor table takes.
pub open spec fn gdt_sectors(b: Seq<u8>) -> int {
    (sb_groups(b) * 32 + 511) / 512
}

/// Mounting the superblock `b` of a partition at `off` works without a
/// shift, sum or product that overflows, or a division by zero.
pub open spec fn sb_computable(b: Seq<u8>, off: int) -> bool {
    le16(b, 56) == EXT2_MAGIC ==> {
        &&& le32(b, 24) < 32
        &&& le32(b, 32) > 0
        &&& le32(b, 4) + le32(b, 32) <= u32::MAX
        &&& sb_groups(b) * 32 + 511 <= usize::MAX
        &&& gdt_start(b, off) + gdt_sectors(b) <= u32::MAX + 1
        &&& gdt_start(b, off) <= u32::MAX
        &&& gdt_sectors(b) * 512 <= usize::MAX
    }
}

/// A block size made by shifting 1024 is a whole number of sectors.
proof fn lemma_shift_block_size(x: u32)
    requires
        x < 32,
    ensures
        (1024u32 << x) % 512 == 0,
{
    assert((1024u32 << x) % 512 == 0) by (bit_vector)
        requires
            x < 32,
    ;
}

impl Ext2Fs {
    /// The geometry this driver relies on: whole sectors per block.
    pub open spec fn wf(&self) -> bool {
        self.bs() % 512 == 0
    }

    /// Read the superblock of the partition starting at `partition_offset`
    /// and its block group descriptors.
    pub fn init(disk: &IdeDisk, partition_offset: u32) -> (r: Result<Self, &'static str>)
        requires
            disk.wf(),
            partition_offset + 2 <= u32::MAX,
            partition_offset + 2 < disk.total_view() ==> sb_computable(disk.sector(partition_offset + 2), partition_offset as int),
        ensures
            partition_offset + 2 >= disk.total_view() ==> r == Err::<Ext2Fs, &'static str>("LBA out of range"),
            partition_offset + 2 < disk.total_view() ==> ({
                let b = disk.sector(partition_offset + 2);
                let start = gdt_start(b, partition_offset as int);
                let n = sb_groups(b);
                if le16(b, 56) != EXT2_MAGIC {
                    r == Err::<Ext2Fs, &'static str>("not ext2 (bad magic)")
                } else if gdt_sectors(b) > 0 && start + gdt_sectors(b) > disk.total_view() {
                    r == Err::<Ext2Fs, &'static str>("LBA out of range")
                } else {
                    &&& r is Ok
                    &&& r.unwrap().wf()
                    &&& r.unwrap().bs() == sb_block_size(b)
                    &&& r.unwrap().ipg() == le32(b, 40)
                    &&& r.unwrap().bpg() == le32(b, 32)
                    &&& r.unwrap().ngroups() == n
                    &&& r.unwrap().isz() == (if le32(b, 76) >= 1 { le16(b, 88) } else { 128 })
                    &&& r.unwrap().poff() == partition_offset
                    &&& r.unwrap().groups().len() == n
                    &&& forall|i: int| 0 <= i < n ==> #[trigger] r.unwrap().groups()[i]
                        == group_desc_at(disk.contents(), start * 512 + 32 * i)
                }
            }),
    {
        let sb_sector = partition_offset + 2;
        let mut buf = [0u8; 512];
        match disk.read_sector(sb_sector, &mut buf) {
            Err(e) => {
                return Err(e);
            },
            Ok(()) => {},
        }
        let sb = Ext2Superblock::from_bytes(&buf);
        if sb.magic != EXT2_MAGIC {
            return Err("not ext2 (bad magic)");
        }
        proof {
            assert(sb_computable(buf@, partition_offset as int));
            assert(le16(buf@, 56) == EXT2_MAGIC);
        }
        let block_size = 1024u32 << sb.log_block_size;
        let inode_size = if sb.rev_level >= 1 { sb.inode_size as u32 } else { 128 };
        let total_blocks = sb.blocks_count;
        let blocks_per_group = sb.blocks_per_group;
        let num_block_groups = (total_blocks + blocks_per_group - 1) / blocks_per_group;
        let bgdt_start_sector = if block_size == 1024 { partition_offset + 4 } else { partition_offset + block_size / 512 };
        let bgdt_sectors = ((num_block_groups as usize) * 32 + 511) / 512;
        proof {
            lemma_shift_block_size(sb.log_block_size);
            assert(bgdt_sectors * 512 >= num_block_groups * 32) by (nonlinear_arith)
                requires
                    bgdt_sectors == (num_block_groups * 32 + 511) / 512,
            ;
        }
        let mut bgdt_buf: Vec<u8> = Vec::new();
        let mut i: usize = 0;
        while i < bgdt_sectors
            invariant
                disk.wf(),
                buf@ == disk.sector(partition_offset + 2),
                block_size == sb_block_size(buf@),
                block_size % 512 == 0,
                num_block_groups == sb_groups(buf@),
                inode_size == (if le32(buf@, 76) >= 1 { le16(buf@, 88) } else { 128 }),
                sb.inodes_per_group == le32(buf@, 40),
                blocks_per_group == le32(buf@, 32),
                partition_offset + 2 < disk.total_view(),
                le16(buf@, 56) == EXT2_MAGIC,
                bgdt_start_sector == gdt_start(buf@, partition_offset as int),
                bgdt_sectors == gdt_sectors(buf@),
                0 <= i <= bgdt_sectors,
                bgdt_start_sector + bgdt_sectors <= u32::MAX + 1,
                bgdt_buf@.len() == i * 512,
                i > 0 ==> bgdt_start_sector + i <= disk.total_view(),
                forall|j: int| 0 <= j < i * 512 ==> #[trigger] bgdt_buf@[j] == disk.contents()[bgdt_start_sector * 512 + j],
            decreases bgdt_sectors - i,
        {
            let mut sec = [0u8; 512];
            match disk.read_sector(bgdt_start_sector + i as u32, &mut sec) {
                Err(e) => {
                    return Err(e);
                },
                Ok(()) => {},
            }
            let ghost before = bgdt_buf@;
            let mut k: usize = 0;
            while k < 512
                invariant
                    0 <= k <= 512,
                    bgdt_buf@.len() == i * 512 + k,
                    bgdt_buf@.subrange(0, i * 512) == before,
                    sec@ == disk.sector(bgdt_start_sector + i),
                    forall|j: int| i * 512 <= j < i * 512 + k ==> #[trigger] bgdt_buf@[j] == sec@[j - i * 512],
                decreases 512 - k,
            {
                bgdt_buf.push(sec[k]);
                k = k + 1;
                assert(bgdt_buf@.subrange(0, i * 512) =~= before);
            }
            proof {
                assert((bgdt_start_sector + i) * 512 + 512 <= disk.contents().len()) by (nonlinear_arith)
                    requires
                        bgdt_start_sector + i < disk.total_view(),
                        disk.contents().len() == disk.total_view() * 512,
                ;
                assert forall|j: int| 0 <= j < (i + 1) * 512 implies #[trigger] bgdt_buf@[j] == disk.contents()[bgdt_start_sector * 512 + j] by {
                    if j < i * 512 {
                        assert(bgdt_buf@[j] == bgdt_buf@.subrange(0, i * 512)[j]);
                    } else {
                        assert((bgdt_start_sector + i) * 512 + (j - i * 512) == bgdt_start_sector * 512 + j) by (nonlinear_arith);
                    }
                }
            }
            i = i + 1;
        }
        let mut group_descs: Vec<Ext2GroupDesc> = Vec::new();
        let mut g: usize = 0;
        while g < num_block_groups as usize
            invariant
                buf@ == disk.sector(partition_offset + 2),
                block_size == sb_block_size(buf@),
                block_size % 512 == 0,
                num_block_groups == sb_groups(buf@),
                inode_size == (if le32(buf@, 76) >= 1 { le16(buf@, 88) } else { 128 }),
                sb.inodes_per_group == le32(buf@, 40),
                blocks_per_group == le32(buf@, 32),
                bgdt_sectors == gdt_sectors(buf@),
                0 <= g <= num_block_groups,
                num_block_groups * 32 + 511 <= usize::MAX,
                bgdt_buf@.len() == bgdt_sectors * 512,
                bgdt_sectors * 512 >= num_block_groups * 32,
                group_descs@.len() == g,
                forall|j: int| 0 <= j < bgdt_sectors * 512 ==> #[trigger] bgdt_buf@[j] == disk.contents()[bgdt_start_sector * 512 + j],
                forall|q: int| 0 <= q < g ==> #[trigger] group_descs@[q] == group_desc_at(disk.contents(), bgdt_start_sector * 512 + 32 * q),
            decreases num_block_groups - g,
        {
            if g * 32 + 32 <= bgdt_buf.len() {
                let d = Ext2GroupDesc::from_bytes(bgdt_buf.as_slice(), g * 32);
                proof {
                    let base = bgdt_start_sector * 512 + 32 * g;
                    assert(bgdt_buf@[g * 32 + 0] == disk.contents()[base + 0]);
                    assert forall|t: int| 0 <= t < 32 implies #[trigger] bgdt_buf@[g * 32 + t] == disk.contents()[base + t] by {}
                    assert(d == group_desc_at(disk.contents(), base));
                }
                group_descs.push(d);
            }
            g = g + 1;
        }
        Ok(Ext2Fs {
            block_size,
            inodes_per_group: sb.inodes_per_group,
            blocks_per_group,
            num_block_groups,
            inode_size,
            group_desc_table: group_descs,
            partition_offset,
        })
    }
}

/// First sector of block `b`.
pub open spec fn block_lba(fs: &Ext2Fs, b: int) -> int {
    fs.poff() + b * (fs.bs() / 512)
}

/// Whether block `b` can be read whole from a disk of `total` sectors;
/// `None` where one of its sector numbers does not fit in 32 bits.
pub open spec fn block_ok(fs: &Ext2Fs, total: int, b: int) -> Option<bool> {
    let spb = fs.bs() / 512;
    if block_lba(fs, b) > u32::MAX || (spb > 0 && block_lba(fs, b) + spb - 1 > u32::MAX) {
        None
    } else {
        Some(spb == 0 || block_lba(fs, b) + spb <= total)
    }
}

impl Ext2Fs {
    /// Read block `block` into `buf`, sector by sector, copying the sectors
    /// that fit in `buf`; a sector past the disk stops it with "LBA out of
    /// range".
    pub fn read_block(&self, disk: &IdeDisk, block: u32, buf: &mut [u8]) -> (r: Result<(), &'static str>)
        requires
            self.wf(),
            disk.wf(),
            block_ok(self, disk.total_view() as int, block as int) is Some,
        ensures
            final(buf)@.len() == old(buf)@.len(),
            ({
                let spb = self.bs() / 512;
                let start = block_lba(self, block as int);
                let stop = if start < disk.total_view() { if spb < disk.total_view() - start { spb as int } else { disk.total_view() - start } } else { 0 };
                let k = if stop < old(buf)@.len() / 512 { stop } else { old(buf)@.len() as int / 512 };
                &&& forall|j: int| 0 <= j < k * 512 ==> #[trigger] final(buf)@[j] == disk.contents()[start * 512 + j]
                &&& forall|j: int| k * 512 <= j < old(buf)@.len() ==> #[trigger] final(buf)@[j] == old(buf)@[j]
                &&& stop == spb ==> r is Ok
                &&& stop < spb ==> r == Err::<(), &'static str>("LBA out of range")
            }),
    {
        let spb = self.block_size / 512;
        let start_sector = self.partition_offset + block * spb;
        let ghost b0 = buf@;
        let ghost total = disk.total_view() as int;
        let ghost stop: int = if start_sector < total { if spb < total - start_sector { spb as int } else { total - start_sector } } else { 0 };
        let ghost k: int = if stop < b0.len() / 512 { stop } else { b0.len() as int / 512 };
        let mut s: u32 = 0;
        while s < spb
            invariant
                disk.wf(),
                total == disk.total_view(),
                spb == self.bs() / 512,
                start_sector == block_lba(self, block as int),
                spb > 0 ==> start_sector + spb - 1 <= u32::MAX,
                stop == (if start_sector < total { if spb < total - start_sector { spb as int } else { total - start_sector } } else { 0 }),
                k == (if stop < b0.len() / 512 { stop } else { b0.len() as int / 512 }),
                0 <= s <= spb,
                s <= stop,
                buf@.len() == b0.len(),
                b0 == old(buf)@,
                forall|j: int| 0 <= j < (if s < b0.len() / 512 { s as int } else { b0.len() as int / 512 }) * 512
                    ==> #[trigger] buf@[j] == disk.contents()[start_sector * 512 + j],
                forall|j: int| (if s < b0.len() / 512 { s as int } else { b0.len() as int / 512 }) * 512 <= j < b0.len()
                    ==> #[trigger] buf@[j] == b0[j],
            decreases spb - s,
        {
            let mut sector = [0u8; 512];
            match disk.read_sector(start_sector + s, &mut sector) {
                Err(e) => {
                    return Err(e);
                },
                Ok(()) => {},
            }
            let offset = (s as usize) * 512;
            if offset + 512 <= buf.len() {
                proof {
                    assert(s < b0.len() / 512) by (nonlinear_arith)
                        requires
                            offset == s * 512,
                            offset + 512 <= b0.len(),
                    ;
                    assert((start_sector + s) * 512 + 512 <= disk.contents().len()) by (nonlinear_arith)
                        requires
                            start_sector + s < disk.total_view(),
                            disk.contents().len() == disk.total_view() * 512,
                    ;
                }
                let ghost mid = buf@;
                let mut q: usize = 0;
                while q < 512
                    invariant
                        0 <= q <= 512,
                        offset + 512 <= buf.len(),
                        offset == s * 512,
                        buf@.len() == mid.len(),
                        sector@ == disk.sector(start_sector + s),
                        forall|j: int| 0 <= j < buf@.len() && !(offset <= j < offset + q) ==> #[trigger] buf@[j] == mid[j],
                        forall|j: int| offset <= j < offset + q ==> #[trigger] buf@[j] == sector@[j - offset],
                    decreases 512 - q,
                {
                    buf[offset + q] = sector[q];
                    q = q + 1;
                }
                proof {
                    assert forall|j: int| offset <= j < offset + 512 implies #[trigger] buf@[j] == disk.contents()[start_sector * 512 + j] by {
                        assert((start_sector + s) * 512 + (j - offset) == start_sector * 512 + j) by (nonlinear_arith)
                            requires
                                offset == s * 512,
                        ;
                    }
                }
            } else {
                proof {
                    assert(s >= b0.len() / 512) by (nonlinear_arith)
                        requires
                            offset == s * 512,
                            offset + 512 > b0.len(),
                    ;
                }
            }
            s = s + 1;
        }
        Ok(())
    }
}

/// Where inode `n` is stored: its sector and byte in that sector, or why
/// it has none. `None` where the inodes per group are zero, a sector
/// number or byte offset does not fit in 32 bits, or the inode would run
/// past its sector.
pub open spec fn inode_loc(fs: &Ext2Fs, n: int) -> Option<Result<(int, int), &'static str>> {
    if n == 0 {
        Some(Err("invalid inode 0"))
    } else if fs.ipg() == 0 {
        None
    } else {
        let idx = n - 1;
        let group = idx / fs.ipg() as int;
        let in_group = idx % fs.ipg() as int;
        if group >= fs.groups().len() {
            Some(Err("inode group out of range"))
        } else {
            let table = fs.groups()[group].inode_table * (fs.bs() / 512);
            let its = fs.poff() + table;
            let bo = in_group * fs.isz();
            if its > u32::MAX || bo > u32::MAX || its + bo / 512 > u32::MAX || bo % 512 + 128 > 512 {
                None
            } else {
                Some(Ok((its + bo / 512, bo % 512)))
            }
        }
    }
}

/// Where inode `n` lies: in the inode table of block group
/// `(n - 1) / inodes_per_group` (whose first block the group descriptor
/// gives), at byte `((n - 1) % inodes_per_group) * inode_size` of that
/// table, where the inode size is the superblock's on revision 1 and later
/// volumes and 128 on revision 0 (as `init` records it).
pub proof fn law_inode_location(fs: &Ext2Fs, n: int)
    requires
        n >= 1,
    ensures
        inode_loc(fs, n) matches Some(Ok((sec, b))) ==> {
            let ipg = fs.ipg() as int;
            let g = (n - 1) / ipg;
            &&& 0 <= b < 512
            &&& 0 <= g < fs.groups().len()
            &&& sec * 512 + b == (fs.poff() + fs.groups()[g].inode_table * (fs.bs() / 512)) * 512
                + ((n - 1) % ipg) * fs.isz()
        },
{
    if fs.ipg() != 0 {
        let idx = n - 1;
        let ipg = fs.ipg() as int;
        let group = idx / ipg;
        let in_group = idx % ipg;
        if group < fs.groups().len() {
            let its = fs.poff() + fs.groups()[group].inode_table * (fs.bs() / 512);
            let at = in_group * fs.isz();
            assert(at >= 0) by (nonlinear_arith)
                requires
                    in_group >= 0,
                    at == in_group * fs.isz(),
            ;
            let q = at / 512;
            let rem = at % 512;
            assert(q * 512 + rem == at);
            assert((its + q) * 512 + rem == its * 512 + at);
            assert(group >= 0);
        }
    }
}

impl Ext2Fs {
    /// Read inode `inode_num` (numbered from 1) from its block group's
    /// inode table.
    pub fn read_inode(&self, disk: &IdeDisk, inode_num: u32) -> (r: Result<Ext2Inode, &'static str>)
        requires
            disk.wf(),
            inode_loc(self, inode_num as int) is Some,
        ensures
            match inode_loc(self, inode_num as int).unwrap() {
                Err(e) => r == Err::<Ext2Inode, &'static str>(e),
                Ok(loc) => if loc.0 >= disk.total_view() {
                    r == Err::<Ext2Inode, &'static str>("LBA out of range")
                } else {
                    r is Ok && inode_decodes(r.unwrap(), disk.contents(), loc.0 * 512 + loc.1)
                },
            },
    {
        if inode_num == 0 {
            return Err("invalid inode 0");
        }
        let inode_index = inode_num - 1;
        let group = inode_index / self.inodes_per_group;
        let index_in_group = inode_index % self.inodes_per_group;
        if group as usize >= self.group_desc_table.len() {
            return Err("inode group out of range");
        }
        let desc = self.group_desc_table[group as usize];
        let inode_table_sector = self.partition_offset + desc.inode_table * (self.block_size / 512);
        let byte_offset = index_in_group * self.inode_size;
        let sector_offset = byte_offset / 512;
        let byte_in_sector = (byte_offset % 512) as usize;
        let mut buf = [0u8; 512];
        match disk.read_sector(inode_table_sector + sector_offset, &mut buf) {
            Err(e) => {
                return Err(e);
            },
            Ok(()) => {},
        }
        let inode = Ext2Inode::from_bytes(buf.as_slice(), byte_in_sector);
        proof {
            let sec = inode_table_sector + sector_offset;
            assert(sec * 512 + 512 <= disk.contents().len()) by (nonlinear_arith)
                requires
                    sec < disk.total_view(),
                    disk.contents().len() == disk.total_view() * 512,
            ;
            assert(inode_decodes(inode, disk.sector(sec as int), byte_in_sector as int));
            assert forall|t: int| 0 <= t < 128 implies #[trigger] buf@[byte_in_sector + t] == disk.contents()[sec * 512 + byte_in_sector + t] by {}
            assert forall|i: int| 0 <= i < 15 implies #[trigger] inode.block@[i] == le32(disk.contents(), sec * 512 + byte_in_sector + 40 + 4 * i) by {
                assert(buf@[byte_in_sector + 40 + 4 * i] == disk.contents()[sec * 512 + byte_in_sector + 40 + 4 * i]);
                assert(buf@[byte_in_sector + 40 + 4 * i + 1] == disk.contents()[sec * 512 + byte_in_sector + 40 + 4 * i + 1]);
                assert(buf@[byte_in_sector + 40 + 4 * i + 2] == disk.contents()[sec * 512 + byte_in_sector + 40 + 4 * i + 2]);
                assert(buf@[byte_in_sector + 40 + 4 * i + 3] == disk.contents()[sec * 512 + byte_in_sector + 40 + 4 * i + 3]);
            }
        }
        Ok(inode)
    }

    /// Read the root directory's inode (inode 2).
    pub fn root_inode(&self, disk: &IdeDisk) -> (r: Result<Ext2Inode, &'static str>)
        requires
            disk.wf(),
            inode_loc(self, 2) is Some,
        ensures
            match inode_loc(self, 2).unwrap() {
                Err(e) => r == Err::<Ext2Inode, &'static str>(e),
                Ok(loc) => if loc.0 >= disk.total_view() {
                    r == Err::<Ext2Inode, &'static str>("LBA out of range")
                } else {
                    r is Ok && inode_decodes(r.unwrap(), disk.contents(), loc.0 * 512 + loc.1)
                },
            },
    {
        self.read_inode(disk, 2)
    }
}

/// Reading the blocks listed in `bl` from index `i`, with `got` of `want`
/// bytes already read: each nonzero block gives up to a block of bytes,
/// until `want` are read. The bytes read and the error that stopped the
/// reading, if one did; `None` where a sector number does not fit in 32
/// bits.
pub open spec fn read_listed(fs: &Ext2Fs, img: Seq<u8>, total: int, bl: Seq<u32>, i: int, want: int, got: int)
    -> Option<(Seq<u8>, Option<&'static str>)>
    decreases bl.len() - i,
{
    if i < 0 || i >= bl.len() || got >= want {
        Some((Seq::empty(), None))
    } else if bl[i] == 0 {
        read_listed(fs, img, total, bl, i + 1, want, got)
    } else {
        match block_ok(fs, total, bl[i] as int) {
            None => None,
            Some(ok) => if !ok {
                Some((Seq::empty(), Some("LBA out of range")))
            } else {
                let take = if want - got < fs.bs() { want - got } else { fs.bs() as int };
                let a = block_lba(fs, bl[i] as int) * 512;
                match read_listed(fs, img, total, bl, i + 1, want, got + take) {
                    None => None,
                    Some(rest) => Some((Seq::new(take as nat, |j: int| img[a + j]) + rest.0, rest.1)),
                }
            },
        }
    }
}

/// The block numbers stored in indirect block `ind` of `bs` bytes.
pub open spec fn indirect_list(ind: Seq<u8>, bs: int) -> Seq<u32> {
    Seq::new((bs / 4) as nat, |i: int| le32(ind, 4 * i) as u32)
}

/// Reading `want` bytes of the file with inode `n`: its twelve direct
/// blocks, then the blocks its single indirect block lists.
pub open spec fn ext2_file_read(fs: &Ext2Fs, img: Seq<u8>, total: int, n: Ext2Inode, want: int) -> Option<(Seq<u8>, Option<&'static str>)> {
    match read_listed(fs, img, total, n.block@.subrange(0, 12), 0, want, 0) {
        None => None,
        Some(d) => if d.1 is Some || d.0.len() >= want || n.block@[12] == 0 {
            Some(d)
        } else {
            match block_ok(fs, total, n.block@[12] as int) {
                None => None,
                Some(ok) => if !ok {
                    Some((d.0, Some("LBA out of range")))
                } else {
                    let a = block_lba(fs, n.block@[12] as int) * 512;
                    let ind = Seq::new(fs.bs() as nat, |j: int| img[a + j]);
                    match read_listed(fs, img, total, indirect_list(ind, fs.bs() as int), 0, want, d.0.len() as int) {
                        None => None,
                        Some(d2) => Some((d.0 + d2.0, d2.1)),
                    }
                },
            }
        },
    }
}

/// A list read never gives more than the bytes still wanted.
pub proof fn lemma_read_listed_len(fs: &Ext2Fs, img: Seq<u8>, total: int, bl: Seq<u32>, i: int, want: int, got: int)
    requires
        read_listed(fs, img, total, bl, i, want, got) is Some,
    ensures
        got + read_listed(fs, img, total, bl, i, want, got).unwrap().0.len() <= (if got < want { want } else { got }),
    decreases bl.len() - i,
{
    if 0 <= i < bl.len() && got < want {
        if bl[i] == 0 {
            lemma_read_listed_len(fs, img, total, bl, i + 1, want, got);
        } else if block_ok(fs, total, bl[i] as int) == Some(true) {
            let take = if want - got < fs.bs() { want - got } else { fs.bs() as int };
            lemma_read_listed_len(fs, img, total, bl, i + 1, want, got + take);
        }
    }
}

impl Ext2Fs {
    /// Read the listed blocks into `buf` from `offset`, up to `want` bytes.
    fn read_blocks(&self, disk: &IdeDisk, bl: &Vec<u32>, want: usize, buf: &mut [u8], offset: usize, block_buf: &mut Vec<u8>) -> (r: Result<usize, &'static str>)
        requires
            self.wf(),
            disk.wf(),
            old(block_buf)@.len() == self.bs(),
            offset <= want <= old(buf)@.len(),
            read_listed(self, disk.contents(), disk.total_view() as int, bl@, 0, want as int, offset as int) is Some,
        ensures
            final(block_buf)@.len() == self.bs(),
            final(buf)@.len() == old(buf)@.len(),
            ({
                let o = read_listed(self, disk.contents(), disk.total_view() as int, bl@, 0, want as int, offset as int).unwrap();
                &&& offset + o.0.len() <= want
                &&& final(buf)@ == old(buf)@.subrange(0, offset as int) + o.0 + old(buf)@.subrange(offset + o.0.len(), old(buf)@.len() as int)
                &&& r == (match o.1 {
                    None => Ok::<usize, &'static str>((offset + o.0.len()) as usize),
                    Some(e) => Err(e),
                })
            }),
    {
        let ghost img = disk.contents();
        let ghost total = disk.total_view() as int;
        let ghost b0 = buf@;
        let ghost whole = read_listed(self, img, total, bl@, 0, want as int, offset as int);
        proof {
            lemma_read_listed_len(self, img, total, bl@, 0, want as int, offset as int);
        }
        let bs = self.block_size as usize;
        let mut pos = offset;
        let mut i: usize = 0;
        while i < bl.len() && pos < want
            invariant
                self.wf(),
                disk.wf(),
                img == disk.contents(),
                total == disk.total_view(),
                bs == self.bs(),
                block_buf@.len() == bs,
                offset <= pos <= want,
                want <= b0.len(),
                buf@.len() == b0.len(),
                0 <= i <= bl.len(),
                b0 == old(buf)@,
                buf@.subrange(0, offset as int) == b0.subrange(0, offset as int),
                buf@.subrange(pos as int, b0.len() as int) == b0.subrange(pos as int, b0.len() as int),
                read_listed(self, img, total, bl@, i as int, want as int, pos as int) is Some,
                whole == read_listed(self, img, total, bl@, 0, want as int, offset as int),
                whole == (match read_listed(self, img, total, bl@, i as int, want as int, pos as int) {
                    None => None,
                    Some(rest) => Some((buf@.subrange(offset as int, pos as int) + rest.0, rest.1)),
                }),
            decreases bl.len() - i,
        {
            let block = bl[i];
            if block != 0 {
                match self.read_block(disk, block, block_buf.as_mut_slice()) {
                    Err(e) => {
                        proof {
                            assert(read_listed(self, img, total, bl@, i as int, want as int, pos as int)
                                == Some((Seq::<u8>::empty(), Some::<&'static str>("LBA out of range"))));
                            assert(e == "LBA out of range");
                            assert(whole == Some((buf@.subrange(offset as int, pos as int), Some::<&'static str>("LBA out of range"))));
                            assert(buf@.subrange(offset as int, pos as int) + Seq::<u8>::empty() =~= buf@.subrange(offset as int, pos as int));
                            assert(buf@ =~= b0.subrange(0, offset as int) + buf@.subrange(offset as int, pos as int) + b0.subrange(pos as int, b0.len() as int));
                        }
                        return Err(e);
                    },
                    Ok(()) => {},
                }
                let to_copy = if want - pos < bs { want - pos } else { bs };
                let ghost a = block_lba(self, block as int) * 512;
                proof {
                    let spb = self.bs() / 512;
                    assert(block_buf@.len() / 512 == spb) by (nonlinear_arith)
                        requires
                            block_buf@.len() == self.bs(),
                            self.bs() % 512 == 0,
                            spb == self.bs() / 512,
                    ;
                    assert(spb * 512 == self.bs()) by (nonlinear_arith)
                        requires
                            self.bs() % 512 == 0,
                            spb == self.bs() / 512,
                    ;
                }
                let ghost before = buf@;
                let mut k: usize = 0;
                while k < to_copy
                    invariant
                        0 <= k <= to_copy,
                        to_copy <= bs,
                        pos + to_copy <= want,
                        want <= buf.len(),
                        block_buf@.len() == bs,
                        buf@.len() == before.len(),
                        forall|j: int| 0 <= j < bs ==> #[trigger] block_buf@[j] == img[a + j],
                        forall|j: int| 0 <= j < buf@.len() && !(pos <= j < pos + k) ==> #[trigger] buf@[j] == before[j],
                        forall|j: int| pos <= j < pos + k ==> #[trigger] buf@[j] == img[a + (j - pos)],
                    decreases to_copy - k,
                {
                    buf[pos + k] = block_buf[k];
                    k = k + 1;
                }
                proof {
                    let piece = Seq::new(to_copy as nat, |j: int| img[a + j]);
                    assert(buf@.subrange(offset as int, pos + to_copy) =~= before.subrange(offset as int, pos as int) + piece);
                    assert(buf@.subrange(0, offset as int) =~= before.subrange(0, offset as int));
                    assert(buf@.subrange(pos + to_copy, b0.len() as int) =~= b0.subrange(pos + to_copy, b0.len() as int)) by {
                        assert forall|j: int| pos + to_copy <= j < b0.len() implies buf@[j] == b0[j] by {
                            assert(before.subrange(pos as int, b0.len() as int)[j - pos] == b0.subrange(pos as int, b0.len() as int)[j - pos]);
                        }
                    }
                    let rr = read_listed(self, img, total, bl@, i + 1, want as int, pos + to_copy);
                    match rr {
                        Some(x) => {
                            assert(before.subrange(offset as int, pos as int) + (piece + x.0)
                                =~= before.subrange(offset as int, pos as int) + piece + x.0);
                        },
                        None => {},
                    }
                }
                pos = pos + to_copy;
            }
            i = i + 1;
        }
        proof {
            assert(buf@.subrange(offset as int, pos as int) + Seq::<u8>::empty() =~= buf@.subrange(offset as int, pos as int));
            assert(buf@ =~= b0.subrange(0, offset as int) + buf@.subrange(offset as int, pos as int) + b0.subrange(pos as int, b0.len() as int));
        }
        Ok(pos)
    }
}

impl Ext2Fs {
    /// Read up to `size` bytes of the file with inode `inode` into `buf`
    /// (no more than it holds): its direct blocks, then the blocks its
    /// single indirect block lists; block number 0 is passed over.
    pub fn read_file_data(&self, disk: &IdeDisk, inode: &Ext2Inode, size: u32, buf: &mut [u8]) -> (r: Result<usize, &'static str>)
        requires
            self.wf(),
            disk.wf(),
            ext2_file_read(self, disk.contents(), disk.total_view() as int, *inode,
                if old(buf)@.len() < size { old(buf)@.len() as int } else { size as int }) is Some,
        ensures
            final(buf)@.len() == old(buf)@.len(),
            ({
                let want = if old(buf)@.len() < size { old(buf)@.len() as int } else { size as int };
                let o = ext2_file_read(self, disk.contents(), disk.total_view() as int, *inode, want).unwrap();
                &&& o.0.len() <= want
                &&& final(buf)@ == o.0 + old(buf)@.subrange(o.0.len() as int, old(buf)@.len() as int)
                &&& r == (match o.1 {
                    None => Ok::<usize, &'static str>(o.0.len() as usize),
                    Some(e) => Err(e),
                })
            }),
    {
        let ghost img = disk.contents();
        let ghost total = disk.total_view() as int;
        let ghost b0 = buf@;
        let want = if buf.len() < size as usize { buf.len() } else { size as usize };
        let bs = self.block_size as usize;
        let mut block_buf = zeroed_vec(bs);
        let mut direct: Vec<u32> = Vec::new();
        let mut i: usize = 0;
        while i < 12
            invariant
                0 <= i <= 12,
                inode.block@.len() == 15,
                direct@ == inode.block@.subrange(0, i as int),
            decreases 12 - i,
        {
            direct.push(inode.block[i]);
            i = i + 1;
            assert(direct@ =~= inode.block@.subrange(0, i as int));
        }
        let offset = match self.read_blocks(disk, &direct, want, buf, 0, &mut block_buf) {
            Err(e) => {
                proof {
                    assert(b0.subrange(0, 0) + read_listed(self, img, total, direct@, 0, want as int, 0).unwrap().0
                        =~= read_listed(self, img, total, direct@, 0, want as int, 0).unwrap().0);
                }
                return Err(e);
            },
            Ok(n) => n,
        };
        let ghost d1 = read_listed(self, img, total, direct@, 0, want as int, 0).unwrap();
        proof {
            assert(b0.subrange(0, 0) + d1.0 =~= d1.0);
        }
        if offset < buf.len() && offset < size as usize && inode.block[12] != 0 {
            let mut indirect_buf = zeroed_vec(bs);
            match self.read_block(disk, inode.block[12], indirect_buf.as_mut_slice()) {
                Err(e) => {
                    return Err(e);
                },
                Ok(()) => {},
            }
            let ghost a = block_lba(self, inode.block@[12] as int) * 512;
            proof {
                let spb = self.bs() / 512;
                assert(indirect_buf@.len() / 512 == spb && spb * 512 == self.bs()) by (nonlinear_arith)
                    requires
                        indirect_buf@.len() == self.bs(),
                        self.bs() % 512 == 0,
                        spb == self.bs() / 512,
                ;
                if spb > 0 {
                    assert(a + self.bs() <= img.len()) by (nonlinear_arith)
                        requires
                            a == block_lba(self, inode.block@[12] as int) * 512,
                            block_lba(self, inode.block@[12] as int) + spb <= total,
                            self.bs() == spb * 512,
                            img.len() == total * 512,
                    ;
                    assert(block_lba(self, inode.block@[12] as int) * 512 >= 0) by (nonlinear_arith)
                        requires
                            block_lba(self, inode.block@[12] as int) >= 0,
                    ;
                }
                assert(indirect_buf@ =~= Seq::new(self.bs() as nat, |q: int| img[a + q]));
            }
            let epb = bs / 4;
            let mut list: Vec<u32> = Vec::new();
            let mut j: usize = 0;
            while j < epb
                invariant
                    0 <= j <= epb,
                    epb == bs / 4,
                    indirect_buf@.len() == bs,
                    list@.len() == j,
                    forall|q: int| 0 <= q < j ==> #[trigger] list@[q] == le32(indirect_buf@, 4 * q) as u32,
                decreases epb - j,
            {
                list.push(read_u32_le(indirect_buf.as_slice(), 4 * j));
                j = j + 1;
            }
            proof {
                assert(list@ =~= indirect_list(indirect_buf@, self.bs() as int));
            }
            let ghost b1 = buf@;
            let r2 = self.read_blocks(disk, &list, want, buf, offset, &mut block_buf);
            proof {
                let d2 = read_listed(self, img, total, list@, 0, want as int, offset as int).unwrap();
                assert(b1.subrange(0, offset as int) =~= d1.0);
                assert(b1.subrange(offset + d2.0.len(), b1.len() as int) =~= b0.subrange(offset + d2.0.len(), b0.len() as int));
                assert(buf@ =~= d1.0 + d2.0 + b0.subrange((d1.0.len() + d2.0.len()) as int, b0.len() as int));
            }
            return r2;
        }
        Ok(offset)
    }
}

/// A directory entry name: the bytes as UTF-8, or "?" when they are not.
pub open spec fn entry_name(b: Seq<u8>) -> Seq<char> {
    if valid_utf8(b) { decode_utf8(b) } else { seq!['?'] }
}

/// The entries of directory contents `d` of `size` bytes from byte `pos`:
/// inode, name, file type. A record with inode 0 or length 0 ends the
/// listing; one with an empty name is passed over. `None` where a name
/// runs past the contents.
pub open spec fn ext2_dir_walk(d: Seq<u8>, size: int, pos: int) -> Option<Seq<(u32, Seq<char>, u8)>>
    decreases (if pos < size { size - pos } else { 0 }),
{
    if pos < 0 || pos >= size || pos + 8 > d.len() {
        Some(Seq::empty())
    } else {
        let ino = le32(d, pos);
        let el = le16(d, pos + 4);
        let nl = d[pos + 6] as int;
        if ino == 0 || el == 0 {
            Some(Seq::empty())
        } else if nl > 0 && pos + 8 + nl > d.len() {
            None
        } else {
            let here = if nl > 0 {
                seq![(ino as u32, entry_name(d.subrange(pos + 8, pos + 8 + nl)), d[pos + 7])]
            } else {
                Seq::empty()
            };
            match ext2_dir_walk(d, size, pos + el) {
                None => None,
                Some(rest) => Some(here + rest),
            }
        }
    }
}

/// The plain values of a listed entry.
pub open spec fn ext2_entry_view(e: Ext2DirEntry) -> (u32, Seq<char>, u8) {
    (e.inode, e.name@, e.file_type)
}

/// What a directory holds for listing: the bytes its file read gives, the
/// rest up to its size zero.
pub open spec fn dir_contents(o: (Seq<u8>, Option<&'static str>), size: int) -> Seq<u8> {
    o.0 + Seq::new((size - o.0.len()) as nat, |i: int| 0u8)
}

/// The name in `b`, as a string.
pub(crate) fn name_string(b: &[u8]) -> (s: String)
    ensures
        s@ == entry_name(b@),
{
    match str_from_utf8(b) {
        Some(t) => {
            proof {
                encode_utf8_decode_utf8(t@);
            }
            t.to_owned()
        },
        None => {
            proof {
                reveal_strlit("?");
            }
            "?".to_owned()
        },
    }
}

impl Ext2Fs {
    /// List the directory with inode `inode`.
    pub fn readdir(&self, disk: &IdeDisk, inode: &Ext2Inode) -> (r: Result<Vec<Ext2DirEntry>, &'static str>)
        requires
            self.wf(),
            disk.wf(),
            ext2_file_read(self, disk.contents(), disk.total_view() as int, *inode, inode.size as int) is Some,
            ({
                let o = ext2_file_read(self, disk.contents(), disk.total_view() as int, *inode, inode.size as int).unwrap();
                o.1 is None ==> ext2_dir_walk(dir_contents(o, inode.size as int), inode.size as int, 0) is Some
            }),
        ensures
            ({
                let o = ext2_file_read(self, disk.contents(), disk.total_view() as int, *inode, inode.size as int).unwrap();
                match o.1 {
                    Some(e) => r == Err::<Vec<Ext2DirEntry>, &'static str>(e),
                    None => r is Ok && r.unwrap()@.map_values(|e: Ext2DirEntry| ext2_entry_view(e))
                        == ext2_dir_walk(dir_contents(o, inode.size as int), inode.size as int, 0).unwrap(),
                }
            }),
    {
        let dir_size = inode.size as usize;
        let mut dir_buf = zeroed_vec(dir_size);
        let ghost z = dir_buf@;
        match self.read_file_data(disk, inode, inode.size, dir_buf.as_mut_slice()) {
            Err(e) => {
                return Err(e);
            },
            Ok(_) => {},
        }
        let ghost o = ext2_file_read(self, disk.contents(), disk.total_view() as int, *inode, inode.size as int).unwrap();
        proof {
            assert(dir_buf@ =~= dir_contents(o, inode.size as int));
        }
        let ghost d = dir_buf@;
        let mut entries: Vec<Ext2DirEntry> = Vec::new();
        let mut pos: usize = 0;
        while pos < dir_size
            invariant_except_break
                d == dir_buf@,
                dir_buf@.len() == dir_size,
                ext2_dir_walk(d, dir_size as int, pos as int) is Some,
                ext2_dir_walk(d, dir_size as int, 0) == match ext2_dir_walk(d, dir_size as int, pos as int) {
                    None => None,
                    Some(rest) => Some(entries@.map_values(|e: Ext2DirEntry| ext2_entry_view(e)) + rest),
                },
            ensures
                ext2_dir_walk(d, dir_size as int, 0) == Some(entries@.map_values(|e: Ext2DirEntry| ext2_entry_view(e))),
            decreases dir_size - pos,
        {
            let ghost view0 = entries@.map_values(|e: Ext2DirEntry| ext2_entry_view(e));
            if dir_buf.len() - pos < 8 {
                assert(view0 + Seq::<(u32, Seq<char>, u8)>::empty() =~= view0);
                break;
            }
            let entry_inode = read_u32_le(dir_buf.as_slice(), pos);
            let entry_len = read_u16_le(dir_buf.as_slice(), pos + 4) as usize;
            let name_len = dir_buf[pos + 6] as usize;
            let file_type = dir_buf[pos + 7];
            if entry_inode == 0 || entry_len == 0 {
                assert(view0 + Seq::<(u32, Seq<char>, u8)>::empty() =~= view0);
                break;
            }
            if name_len > 0 && name_len <= 255 {
                let name = name_string(sub_slice(dir_buf.as_slice(), pos + 8, pos + 8 + name_len));
                let e = Ext2DirEntry { inode: entry_inode, name, file_type };
                entries.push(e);
                proof {
                    assert(entries@.map_values(|e: Ext2DirEntry| ext2_entry_view(e)) =~= view0.push(ext2_entry_view(e)));
                }
            }
            proof {
                let here = if name_len > 0 {
                    seq![(entry_inode, entry_name(d.subrange(pos + 8, pos + 8 + name_len)), d[pos + 7])]
                } else {
                    Seq::<(u32, Seq<char>, u8)>::empty()
                };
                assert(entries@.map_values(|e: Ext2DirEntry| ext2_entry_view(e)) =~= view0 + here);
                match ext2_dir_walk(d, dir_size as int, pos + entry_len) {
                    Some(rest) => {
                        assert(view0 + (here + rest) =~= view0 + here + rest);
                    },
                    None => {},
                }
            }
            if entry_len >= dir_size - pos {
                proof {
                    let v = entries@.map_values(|e: Ext2DirEntry| ext2_entry_view(e));
                    assert(v + Seq::<(u32, Seq<char>, u8)>::empty() =~= v);
                }
                break;
            }
            pos = pos + entry_len;
        }
        Ok(entries)
    }
}

} // verus!
