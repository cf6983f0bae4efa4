//! FAT32 on an IDE disk: the boot sector, the file allocation table
//! (cluster chains), clusters of data, and 8.3 directory entries.
use vstd::prelude::*;
use crate::bytes::{le16, le32, enc32, read_u16_le, read_u32_le, lemma_le32_enc, put_u32_le};
use crate::drivers::ide::{IdeDisk, SECTOR_SIZE, sector_bytes, with_sector, run_stop};

verus! {

/// FAT entries at or above this mark the end of a chain.
pub const FAT_EOC: u32 = 0x0FFF_FFF8;
/// A bad cluster.
pub const FAT_BAD: u32 = 0x0FFF_FFF7;
/// FAT32 entries use the low 28 bits.
pub const FAT_MASK: u32 = 0x0FFF_FFFF;

/// The boot sector's BIOS parameter block.
#[derive(Clone, Copy)]
pub struct Fat32Bpb {
    pub bytes_per_sector: u16,
    pub sectors_per_cluster: u8,
    pub reserved_sectors: u16,
    pub num_fats: u8,
    pub root_entry_count: u16,
    pub total_sectors_16: u16,
    pub media_type: u8,
    pub fat_size_16: u16,
    pub sectors_per_track: u16,
    pub num_heads: u16,
    pub hidden_sectors: u32,
    pub total_sectors_32: u32,
    pub fat_size_32: u32,
    pub ext_flags: u16,
    pub fs_version: u16,
    pub root_cluster: u32,
    pub fs_info_sector: u16,
    pub backup_boot_sector: u16,
    pub drive_number: u8,
    pub boot_signature: u8,
    pub volume_id: u32,
}

/// A 32-byte short directory entry.
#[derive(Clone, Copy)]
pub struct Fat32DirEntry {
    pub name: [u8; 8],
    pub ext: [u8; 3],
    pub attributes: u8,
    pub create_time_tenth: u8,
    pub create_time: u16,
    pub create_date: u16,
    pub access_date: u16,
    pub cluster_high: u16,
    pub modify_time: u16,
    pub modify_date: u16,
    pub cluster_low: u16,
    pub file_size: u32,
}

/// A 32-byte long-name directory entry.
#[derive(Clone, Copy)]
pub struct Fat32LongEntry {
    pub order: u8,
    pub name1: [u8; 10],
    pub attributes: u8,
    pub checksum: u8,
    pub name2: [u8; 12],
    pub name3: [u8; 4],
}

/// A mounted FAT32 volume's geometry.
#[derive(Clone, Copy, PartialEq, Eq, Structural)]
pub struct Fat32Fs {
    pub bytes_per_sector: u32,
    pub sectors_per_cluster: u32,
    pub reserved_sectors: u32,
    pub num_fats: u32,
    pub fat_size: u32,
    pub root_cluster: u32,
    pub data_start: u32,
    pub total_clusters: u32,
}

/// A directory listing entry.
#[derive(Clone, Debug)]
pub struct DirEntry32 {
    pub name: String,
    pub cluster: u32,
    pub size: u32,
    pub is_dir: bool,
}

/// Total sectors as the boot sector `b` gives them.
pub open spec fn bpb_total(b: Seq<u8>) -> int {
    if le32(b, 32) != 0 { le32(b, 32) } else { le16(b, 19) }
}

/// First data sector as the boot sector `b` gives it.
pub open spec fn bpb_data_start(b: Seq<u8>) -> int {
    le16(b, 14) + b[16] * le32(b, 36)
}

/// The geometry can be computed from boot sector `b` without overflow or
/// division by zero.
pub open spec fn bpb_computable(b: Seq<u8>) -> bool {
    (le16(b, 22) == 0 && le32(b, 36) != 0) ==> {
        &&& bpb_data_start(b) <= u32::MAX
        &&& bpb_total(b) >= bpb_data_start(b)
        &&& b[13] != 0
    }
}

/// The volume described by boot sector `b`, or why it is not FAT32.
pub open spec fn mount_outcome(b: Seq<u8>) -> Result<Fat32Fs, &'static str> {
    if le16(b, 22) != 0 {
        Err("not FAT32 (FAT12/16 detected)")
    } else if le32(b, 36) == 0 {
        Err("invalid FAT32: fat_size_32 is 0")
    } else {
        Ok(Fat32Fs {
            bytes_per_sector: le16(b, 11) as u32,
            sectors_per_cluster: b[13] as u32,
            reserved_sectors: le16(b, 14) as u32,
            num_fats: b[16] as u32,
            fat_size: le32(b, 36) as u32,
            root_cluster: le32(b, 44) as u32,
            data_start: bpb_data_start(b) as u32,
            total_clusters: ((bpb_total(b) - bpb_data_start(b)) / (b[13] as int)) as u32,
        })
    }
}

impl Fat32Bpb {
    /// Decode the parameter block of boot sector `b`.
    pub fn from_bytes(b: &[u8; 512]) -> (p: Self)
        ensures
            p.bytes_per_sector == le16(b@, 11),
            p.sectors_per_cluster == b@[13],
            p.reserved_sectors == le16(b@, 14),
            p.num_fats == b@[16],
            p.total_sectors_16 == le16(b@, 19),
            p.fat_size_16 == le16(b@, 22),
            p.total_sectors_32 == le32(b@, 32),
            p.fat_size_32 == le32(b@, 36),
            p.root_cluster == le32(b@, 44),
    {
        let s = b.as_slice();
        Fat32Bpb {
            bytes_per_sector: read_u16_le(s, 11),
            sectors_per_cluster: s[13],
            reserved_sectors: read_u16_le(s, 14),
            num_fats: s[16],
            root_entry_count: read_u16_le(s, 17),
            total_sectors_16: read_u16_le(s, 19),
            media_type: s[21],
            fat_size_16: read_u16_le(s, 22),
            sectors_per_track: read_u16_le(s, 24),
            num_heads: read_u16_le(s, 26),
            hidden_sectors: read_u32_le(s, 28),
            total_sectors_32: read_u32_le(s, 32),
            fat_size_32: read_u32_le(s, 36),
            ext_flags: read_u16_le(s, 40),
            fs_version: read_u16_le(s, 42),
            root_cluster: read_u32_le(s, 44),
            fs_info_sector: read_u16_le(s, 48),
            backup_boot_sector: read_u16_le(s, 50),
            drive_number: s[64],
            boot_signature: s[66],
            volume_id: read_u32_le(s, 67),
        }
    }
}

/// Byte position on the disk of the FAT entry of cluster `c` (first FAT).
pub open spec fn fat_pos(fs: Fat32Fs, c: int) -> int {
    fs.reserved_sectors * 512 + c * 4
}

/// The raw FAT entry of cluster `c` in disk image `img`.
pub open spec fn fat_raw(fs: Fat32Fs, img: Seq<u8>, c: int) -> int {
    le32(img, fat_pos(fs, c))
}

/// What following the chain from cluster `c` gives: 0 at the end of the
/// chain, the next cluster, or an error.
pub open spec fn next_of(fs: Fat32Fs, img: Seq<u8>, total: int, c: int) -> Result<u32, &'static str> {
    if fat_pos(fs, c) / 512 >= total {
        Err("LBA out of range")
    } else {
        let raw = fat_raw(fs, img, c);
        if raw >= FAT_EOC {
            Ok(0u32)
        } else if raw == FAT_BAD {
            Err("bad cluster")
        } else {
            Ok((raw as u32) & FAT_MASK)
        }
    }
}

/// First sector of cluster `c`.
pub open spec fn cluster_lba(fs: Fat32Fs, c: int) -> int {
    fs.data_start + (c - 2) * fs.sectors_per_cluster
}

impl Fat32Fs {
    /// The geometry this driver handles: 512-byte sectors, at least one
    /// sector per cluster and one FAT, data after the FATs, and a FAT
    /// large enough for every cluster, all with 32-bit sector numbers.
    pub open spec fn wf(&self) -> bool {
        &&& self.bytes_per_sector == 512
        &&& 1 <= self.sectors_per_cluster <= 255
        &&& self.num_fats >= 1
        &&& self.fat_size >= 1
        &&& self.data_start == self.reserved_sectors + self.num_fats * self.fat_size
        &&& self.total_clusters <= self.fat_size * 128
        &&& self.fat_size * 128 <= u32::MAX
        &&& self.reserved_sectors * 512 + self.fat_size * 512 <= u32::MAX
        &&& self.data_start + self.total_clusters * self.sectors_per_cluster <= u32::MAX
    }

    /// Read the boot sector of `disk` and take the volume's geometry.
    pub fn init(disk: &IdeDisk) -> (r: Result<Self, &'static str>)
        requires
            disk.wf(),
            disk.total_view() > 0 ==> bpb_computable(disk.sector(0)),
        ensures
            disk.total_view() == 0 ==> r == Err::<Fat32Fs, &'static str>("LBA out of range"),
            disk.total_view() > 0 ==> r == mount_outcome(disk.sector(0)),
    {
        let mut buf = [0u8; 512];
        match disk.read_sector(0, &mut buf) {
            Err(e) => {
                return Err(e);
            },
            Ok(()) => {},
        }
        let bpb = Fat32Bpb::from_bytes(&buf);
        if bpb.fat_size_16 != 0 {
            return Err("not FAT32 (FAT12/16 detected)");
        }
        if bpb.fat_size_32 == 0 {
            return Err("invalid FAT32: fat_size_32 is 0");
        }
        let bytes_per_sector = bpb.bytes_per_sector as u32;
        let sectors_per_cluster = bpb.sectors_per_cluster as u32;
        let reserved_sectors = bpb.reserved_sectors as u32;
        let num_fats = bpb.num_fats as u32;
        let fat_size = bpb.fat_size_32;
        let root_cluster = bpb.root_cluster;
        proof {
            assert(num_fats * fat_size <= bpb_data_start(buf@));
        }
        let data_start = reserved_sectors + (num_fats * fat_size);
        let total_sectors = if bpb.total_sectors_32 != 0 { bpb.total_sectors_32 } else { bpb.total_sectors_16 as u32 };
        let total_clusters = (total_sectors - data_start) / sectors_per_cluster;
        Ok(Fat32Fs {
            bytes_per_sector,
            sectors_per_cluster,
            reserved_sectors,
            num_fats,
            fat_size,
            root_cluster,
            data_start,
            total_clusters,
        })
    }

    /// Sectors per cluster.
    pub(crate) fn sectors_per_sector(&self) -> (r: u32)
        ensures
            r == self.sectors_per_cluster,
    {
        self.sectors_per_cluster
    }

    /// Number of clusters.
    pub fn total_clusters(&self) -> (r: u32)
        ensures
            r == self.total_clusters,
    {
        self.total_clusters
    }

    /// The root directory's first cluster.
    pub fn root_cluster(&self) -> (r: u32)
        ensures
            r == self.root_cluster,
    {
        self.root_cluster
    }

    /// Cluster size in bytes.
    pub fn cluster_size(&self) -> (r: u32)
        requires
            self.sectors_per_cluster * self.bytes_per_sector <= u32::MAX,
        ensures
            r == self.sectors_per_cluster * self.bytes_per_sector,
    {
        self.sectors_per_cluster * self.bytes_per_sector
    }

    /// The next cluster of the chain through `cluster`: 0 at its end, an
    /// error for a bad cluster or a FAT sector past the disk.
    pub fn next_cluster(&self, disk: &IdeDisk, cluster: u32) -> (r: Result<u32, &'static str>)
        requires
            self.wf(),
            disk.wf(),
            fat_pos(*self, cluster as int) + 4 <= u32::MAX,
        ensures
            r == next_of(*self, disk.contents(), disk.total_view() as int, cluster as int),
    {
        let fat_offset = self.reserved_sectors * self.bytes_per_sector + cluster * 4;
        let fat_sector = fat_offset / self.bytes_per_sector;
        let byte_in_sector = (fat_offset % self.bytes_per_sector) as usize;
        let mut buf = [0u8; 512];
        match disk.read_sector(fat_sector, &mut buf) {
            Err(e) => {
                return Err(e);
            },
            Ok(()) => {},
        }
        proof {
            assert(byte_in_sector + 4 <= 512) by (nonlinear_arith)
                requires
                    byte_in_sector == fat_offset % 512,
                    fat_offset == self.reserved_sectors * 512 + cluster * 4,
            ;
            assert(fat_sector * 512 + byte_in_sector == fat_offset) by (nonlinear_arith)
                requires
                    fat_sector == fat_offset / 512,
                    byte_in_sector == fat_offset % 512,
            ;
            lemma_le32_in_sector(disk.contents(), fat_sector as int, byte_in_sector as int, disk.total_view() as int);
        }
        let entry = read_u32_le(buf.as_slice(), byte_in_sector);
        if entry >= FAT_EOC {
            Ok(0)
        } else if entry == FAT_BAD {
            Err("bad cluster")
        } else {
            Ok(entry & FAT_MASK)
        }
    }
}

/// A u32 read from a sector at offset `o` is the one at the matching
/// position of the whole image.
proof fn lemma_le32_in_sector(img: Seq<u8>, lba: int, o: int, total: int)
    requires
        0 <= lba < total,
        img.len() == total * 512,
        0 <= o,
        o + 4 <= 512,
    ensures
        le32(sector_bytes(img, lba), o) == le32(img, lba * 512 + o),
{
    assert(lba * 512 + 512 <= img.len()) by (nonlinear_arith)
        requires
            0 <= lba < total,
            img.len() == total * 512,
    ;
}

/// `img` with `data` written to each of the first `n` FAT copies' sector
/// that corresponds to `s0` in the first copy.
pub open spec fn write_copies(img: Seq<u8>, s0: int, fat_size: int, data: Seq<u8>, n: int) -> Seq<u8>
    decreases n,
{
    if n <= 0 {
        img
    } else {
        with_sector(write_copies(img, s0, fat_size, data, n - 1), s0 + (n - 1) * fat_size, data)
    }
}

/// The first FAT's sector holding cluster `c`'s entry, with the entry set
/// to `v` (its low 28 bits).
pub open spec fn entry_sector_after(fs: Fat32Fs, img: Seq<u8>, c: int, v: u32) -> Seq<u8> {
    let s0 = fat_pos(fs, c) / 512;
    let b = fat_pos(fs, c) % 512;
    let old_s = sector_bytes(img, s0);
    old_s.subrange(0, b) + enc32((v & FAT_MASK) as int) + old_s.subrange(b + 4, 512)
}

/// The disk after setting cluster `c`'s entry to `v` in every FAT copy.
pub open spec fn fat_set(fs: Fat32Fs, img: Seq<u8>, c: int, v: u32) -> Seq<u8> {
    write_copies(img, fat_pos(fs, c) / 512, fs.fat_size as int, entry_sector_after(fs, img, c, v), fs.num_fats as int)
}

/// The bytes `write_cluster` puts in a cluster of `cs` bytes: the data,
/// cut to the cluster, then zeros.
pub open spec fn cluster_image(data: Seq<u8>, cs: int) -> Seq<u8> {
    let n = if data.len() < cs { data.len() as int } else { cs };
    data.subrange(0, n) + Seq::new((cs - n) as nat, |i: int| 0u8)
}

/// Writing `data` (cut to the cluster, zero-filled) to cluster `c` on a
/// disk of `total` sectors: the disk afterwards and the outcome. The
/// sectors are written in order; the first one past the disk stops the
/// write.
pub open spec fn cluster_write(fs: Fat32Fs, img: Seq<u8>, total: int, c: int, data: Seq<u8>) -> (Seq<u8>, Result<(), &'static str>) {
    let first = cluster_lba(fs, c);
    let spc = fs.sectors_per_cluster as int;
    let stop = run_stop(spc * 512, first, spc, total);
    let a = first * 512;
    (
        if stop <= 0 {
            img
        } else {
            img.subrange(0, a) + cluster_image(data, spc * 512).subrange(0, stop * 512) + img.subrange(a + stop * 512, img.len() as int)
        },
        if stop == spc { Ok(()) } else { Err("LBA out of range") },
    )
}

/// The lowest free cluster (FAT entry 0 in its low 28 bits) in `[c, hi)`
/// that is at least 2 and below `total`.
pub open spec fn free_cluster_from(fs: Fat32Fs, img: Seq<u8>, c: int, hi: int) -> Option<u32>
    decreases hi - c,
{
    if c >= hi {
        None
    } else if (fat_raw(fs, img, c) as u32) & FAT_MASK == 0 && 2 <= c < fs.total_clusters {
        Some(c as u32)
    } else {
        free_cluster_from(fs, img, c + 1, hi)
    }
}

/// How many sectors of the first FAT lie on a disk of `total` sectors.
pub open spec fn fat_sectors_on(fs: Fat32Fs, total: int) -> int {
    if total <= fs.reserved_sectors {
        0
    } else if total - fs.reserved_sectors < fs.fat_size {
        total - fs.reserved_sectors
    } else {
        fs.fat_size as int
    }
}

/// What allocating a cluster on disk contents `img` of `total` sectors
/// gives: scanning the first FAT sector by sector, the lowest free
/// cluster; the read error of the first FAT sector past the end of the
/// disk when the scan reaches one; "no free clusters" when the whole FAT
/// holds none.
pub open spec fn alloc_outcome(fs: Fat32Fs, img: Seq<u8>, total: int) -> Result<u32, &'static str> {
    let on = fat_sectors_on(fs, total);
    match free_cluster_from(fs, img, 0, on * 128) {
        Some(c) => Ok(c),
        None => if on < fs.fat_size { Err("LBA out of range") } else { Err("no free clusters") },
    }
}

/// A free cluster found lies in `[2, total_clusters)`.
pub proof fn lemma_free_cluster_range(fs: Fat32Fs, img: Seq<u8>, c: int, hi: int)
    ensures
        free_cluster_from(fs, img, c, hi) matches Some(x) ==> 2 <= x < fs.total_clusters,
    decreases hi - c,
{
    if c < hi && !((fat_raw(fs, img, c) as u32) & FAT_MASK == 0 && 2 <= c < fs.total_clusters) {
        lemma_free_cluster_range(fs, img, c + 1, hi);
    }
}

impl Fat32Fs {
    /// Read cluster `cluster` into `buf`: "invalid cluster" below 2, "buffer
    /// too small for cluster" when `buf` cannot hold it; else its sectors
    /// in order, stopping with "LBA out of range" at the first past the
    /// disk.
    pub fn read_cluster(&self, disk: &IdeDisk, cluster: u32, buf: &mut [u8]) -> (r: Result<(), &'static str>)
        requires
            self.wf(),
            disk.wf(),
            cluster >= 2 ==> cluster_lba(*self, cluster as int) + self.sectors_per_cluster <= u32::MAX + 1,
        ensures
            final(buf)@.len() == old(buf)@.len(),
            cluster < 2 ==> r == Err::<(), &'static str>("invalid cluster") && final(buf)@ == old(buf)@,
            cluster >= 2 && old(buf)@.len() < self.sectors_per_cluster * 512 ==> r == Err::<(), &'static str>("buffer too small for cluster")
                && final(buf)@ == old(buf)@,
            cluster >= 2 && old(buf)@.len() >= self.sectors_per_cluster * 512 ==> {
                let first = cluster_lba(*self, cluster as int);
                let stop = run_stop(old(buf)@.len() as int, first, self.sectors_per_cluster as int, disk.total_view() as int);
                &&& forall|j: int| 0 <= j < stop * 512 ==> #[trigger] final(buf)@[j] == disk.contents()[first * 512 + j]
                &&& forall|j: int| stop * 512 <= j < old(buf)@.len() ==> #[trigger] final(buf)@[j] == old(buf)@[j]
                &&& stop == self.sectors_per_cluster ==> r is Ok
                &&& stop < self.sectors_per_cluster ==> r == Err::<(), &'static str>("LBA out of range")
            },
    {
        if cluster < 2 {
            return Err("invalid cluster");
        }
        let cluster_size = self.sectors_per_sector() * (SECTOR_SIZE as u32);
        if buf.len() < cluster_size as usize {
            return Err("buffer too small for cluster");
        }
        let first_sector = self.data_start + (cluster - 2) * self.sectors_per_cluster;
        let ghost blen = buf@.len();
        proof {
            assert(blen / 512 >= self.sectors_per_cluster) by (nonlinear_arith)
                requires
                    blen >= self.sectors_per_cluster * 512,
            ;
        }
        disk.read_sectors(first_sector, self.sectors_per_cluster, buf)
    }

    /// Write `data` (cut to a cluster, zero-filled) to cluster `cluster`,
    /// sector by sector, stopping with "LBA out of range" at the first
    /// sector past the disk.
    pub fn write_cluster(&self, disk: &mut IdeDisk, cluster: u32, data: &[u8]) -> (r: Result<(), &'static str>)
        requires
            self.wf(),
            old(disk).wf(),
            cluster >= 2,
            cluster_lba(*self, cluster as int) + self.sectors_per_cluster <= u32::MAX + 1,
        ensures
            final(disk).wf(),
            final(disk).total_view() == old(disk).total_view(),
            ({
                let cs = self.sectors_per_cluster * 512;
                let w = cluster_image(data@, cs as int);
                let first = cluster_lba(*self, cluster as int);
                let stop = run_stop(cs as int, first, self.sectors_per_cluster as int, old(disk).total_view() as int);
                &&& final(disk).contents().len() == old(disk).contents().len()
                &&& forall|j: int| 0 <= j < stop * 512 ==> #[trigger] final(disk).contents()[first * 512 + j] == w[j]
                &&& forall|j: int| 0 <= j < old(disk).contents().len() && !(first * 512 <= j < (first + stop) * 512)
                    ==> #[trigger] final(disk).contents()[j] == old(disk).contents()[j]
                &&& stop == self.sectors_per_cluster ==> r is Ok
                &&& stop < self.sectors_per_cluster ==> r == Err::<(), &'static str>("LBA out of range")
            }),
            (final(disk).contents(), r) == cluster_write(*self, old(disk).contents(), old(disk).total_view() as int, cluster as int, data@),
    {
        let first_sector = self.data_start + (cluster - 2) * self.sectors_per_cluster;
        let cs = (self.sectors_per_cluster as usize) * SECTOR_SIZE;
        let to_write = if data.len() < cs { data.len() } else { cs };
        let mut w: Vec<u8> = Vec::new();
        let mut i: usize = 0;
        while i < cs
            invariant
                0 <= i <= cs,
                to_write <= cs,
                to_write <= data@.len(),
                to_write == (if data@.len() < cs { data@.len() as int } else { cs as int }),
                w@.len() == i,
                forall|k: int| 0 <= k < i ==> #[trigger] w@[k] == (if k < to_write { data@[k] } else { 0u8 }),
            decreases cs - i,
        {
            if i < to_write {
                w.push(data[i]);
            } else {
                w.push(0);
            }
            i = i + 1;
        }
        assert(w@ =~= cluster_image(data@, cs as int));
        let ghost img = disk.contents();
        let ghost total = disk.total_view() as int;
        let res = disk.write_sectors(first_sector, self.sectors_per_cluster, w.as_slice());
        proof {
            let spc = self.sectors_per_cluster as int;
            let stop = run_stop(spc * 512, first_sector as int, spc, total);
            assert((spc * 512) / 512 == spc) by (nonlinear_arith);
            if stop > 0 {
                let a = first_sector * 512;
                assert(a + stop * 512 <= img.len()) by (nonlinear_arith)
                    requires
                        a == first_sector * 512,
                        stop <= total - first_sector,
                        img.len() == total * 512,
                ;
                assert(a + stop * 512 == (first_sector + stop) * 512) by (nonlinear_arith)
                    requires
                        a == first_sector * 512,
                ;
                let expect = cluster_write(*self, img, total, cluster as int, data@).0;
                assert forall|p: int| 0 <= p < img.len() implies disk.contents()[p] == expect[p] by {
                    if a <= p < a + stop * 512 {
                        let j = p - a;
                        assert(disk.contents()[first_sector * 512 + j] == w@[j]);
                    }
                }
                assert(disk.contents() =~= expect);
            } else {
                assert(disk.contents() =~= img);
            }
        }
        match res {
            Ok(()) => Ok(()),
            Err(e) => Err(e),
        }
    }
}

/// The first FAT ends where the data starts or before.
proof fn lemma_first_fat_on_disk(fs: Fat32Fs)
    requires
        fs.wf(),
    ensures
        fs.reserved_sectors + fs.fat_size <= fs.data_start,
{
    assert(fs.fat_size <= fs.num_fats * fs.fat_size) by (nonlinear_arith)
        requires
            fs.num_fats >= 1,
    ;
}

proof fn lemma_with_sector_at(img: Seq<u8>, lba: int, data: Seq<u8>, p: int)
    requires
        0 <= lba,
        lba * 512 + 512 <= img.len(),
        data.len() == 512,
        0 <= p < img.len(),
    ensures
        with_sector(img, lba, data).len() == img.len(),
        with_sector(img, lba, data)[p] == (if lba * 512 <= p < lba * 512 + 512 { data[p - lba * 512] } else { img[p] }),
{
}

/// Writing the FAT copies changes, inside the first FAT, only sector `s0`.
proof fn lemma_copies_in_first_fat(fs: Fat32Fs, img: Seq<u8>, s0: int, data: Seq<u8>, n: int, p: int)
    requires
        fs.wf(),
        fs.reserved_sectors <= s0 < fs.reserved_sectors + fs.fat_size,
        0 <= n <= fs.num_fats,
        (s0 + (fs.num_fats - 1) * fs.fat_size) * 512 + 512 <= img.len(),
        data.len() == 512,
        fs.reserved_sectors * 512 <= p < (fs.reserved_sectors + fs.fat_size) * 512,
        p < img.len(),
    ensures
        write_copies(img, s0, fs.fat_size as int, data, n).len() == img.len(),
        write_copies(img, s0, fs.fat_size as int, data, n)[p] == (if n > 0 && s0 * 512 <= p < s0 * 512 + 512 {
            data[p - s0 * 512]
        } else {
            img[p]
        }),
    decreases n,
{
    lemma_first_fat_on_disk(fs);
    if n > 0 {
        lemma_copies_in_first_fat(fs, img, s0, data, n - 1, p);
        let t = s0 + (n - 1) * fs.fat_size;
        assert(t * 512 + 512 <= img.len()) by (nonlinear_arith)
            requires
                t == s0 + (n - 1) * fs.fat_size,
                1 <= n <= fs.num_fats,
                fs.fat_size >= 1,
                (s0 + (fs.num_fats - 1) * fs.fat_size) * 512 + 512 <= img.len(),
        ;
        lemma_with_sector_at(write_copies(img, s0, fs.fat_size as int, data, n - 1), t, data, p);
        if n > 1 {
            assert(t * 512 >= (fs.reserved_sectors + fs.fat_size) * 512) by (nonlinear_arith)
                requires
                    t == s0 + (n - 1) * fs.fat_size,
                    s0 >= fs.reserved_sectors,
                    n >= 2,
            ;
        } else {
            assert(t == s0);
        }
    }
}

/// Whether every FAT copy of the sector holding cluster `c`'s entry lies
/// on a disk of `total` sectors.
pub open spec fn copies_on(fs: Fat32Fs, c: int, total: int) -> bool {
    fat_pos(fs, c) / 512 + (fs.num_fats - 1) * fs.fat_size < total
}

/// When setting an entry reports success, every copy of its sector was on
/// the disk.
pub proof fn lemma_set_ok_copies_on(fs: Fat32Fs, img: Seq<u8>, total: int, c: int, v: u32)
    requires
        fs.wf(),
        fat_set_outcome(fs, img, total, c, v).1 is Ok,
    ensures
        copies_on(fs, c, total),
        fat_set_outcome(fs, img, total, c, v).0 == fat_set(fs, img, c, v),
{
    let s0 = fat_pos(fs, c) / 512;
    lemma_first_off_last(s0, fs.fat_size as int, total, 0, fs.num_fats as int);
}

proof fn lemma_first_off_last(s0: int, fat_size: int, total: int, f: int, n: int)
    requires
        0 <= f < n,
        first_off(s0, fat_size, total, f, n) == n,
    ensures
        s0 + (n - 1) * fat_size < total,
    decreases n - f,
{
    if f + 1 < n {
        lemma_first_off_last(s0, fat_size, total, f + 1, n);
    }
}

/// After setting cluster `c`'s entry to `v`, the first FAT gives `v`'s
/// low 28 bits for `c` and the old entry for every other cluster.
pub proof fn law_fat_set_reads_back(fs: Fat32Fs, img: Seq<u8>, total: int, c: int, v: u32, c2: int)
    requires
        fs.wf(),
        img.len() == total * 512,
        copies_on(fs, c, total),
        0 <= c < fs.fat_size * 128,
        0 <= c2 < fs.fat_size * 128,
        fat_pos(fs, c2) / 512 < total,
    ensures
        fat_set(fs, img, c, v).len() == img.len(),
        fat_raw(fs, fat_set(fs, img, c, v), c2) == (if c2 == c { (v & FAT_MASK) as int } else { fat_raw(fs, img, c2) }),
{
    lemma_first_fat_on_disk(fs);
    let s0 = fat_pos(fs, c) / 512;
    let b = fat_pos(fs, c) % 512;
    let data = entry_sector_after(fs, img, c, v);
    let w = fat_set(fs, img, c, v);
    assert(s0 == fs.reserved_sectors + (c * 4) / 512 && b == (c * 4) % 512) by (nonlinear_arith)
        requires
            s0 == fat_pos(fs, c) / 512,
            b == fat_pos(fs, c) % 512,
            fat_pos(fs, c) == fs.reserved_sectors * 512 + c * 4,
    ;
    assert((c * 4) / 512 < fs.fat_size && b + 4 <= 512 && b % 4 == 0) by (nonlinear_arith)
        requires
            0 <= c < fs.fat_size * 128,
            b == (c * 4) % 512,
    ;
    assert((s0 + (fs.num_fats - 1) * fs.fat_size) * 512 + 512 <= img.len()) by (nonlinear_arith)
        requires
            img.len() == total * 512,
            s0 + (fs.num_fats - 1) * fs.fat_size < total,
    ;
    assert(s0 * 512 + 512 <= img.len()) by (nonlinear_arith)
        requires
            (s0 + (fs.num_fats - 1) * fs.fat_size) * 512 + 512 <= img.len(),
            fs.num_fats >= 1,
            fs.fat_size >= 1,
    ;
    let p2 = fat_pos(fs, c2);
    assert(p2 + 4 <= img.len()) by (nonlinear_arith)
        requires
            p2 == fs.reserved_sectors * 512 + c2 * 4,
            p2 / 512 < total,
            img.len() == total * 512,
    ;
    assert(fs.reserved_sectors * 512 <= p2 && p2 + 4 <= (fs.reserved_sectors + fs.fat_size) * 512) by (nonlinear_arith)
        requires
            p2 == fs.reserved_sectors * 512 + c2 * 4,
            0 <= c2 < fs.fat_size * 128,
    ;
    lemma_copies_in_first_fat(fs, img, s0, data, fs.num_fats as int, p2);
    lemma_copies_in_first_fat(fs, img, s0, data, fs.num_fats as int, p2 + 1);
    lemma_copies_in_first_fat(fs, img, s0, data, fs.num_fats as int, p2 + 2);
    lemma_copies_in_first_fat(fs, img, s0, data, fs.num_fats as int, p2 + 3);
    let sb = sector_bytes(img, s0);
    if c2 == c {
        assert(w.subrange(p2, p2 + 4) =~= enc32((v & FAT_MASK) as int));
        lemma_le32_enc(w, p2, (v & FAT_MASK) as int);
    } else {
        assert(p2 % 4 == 0 && s0 * 512 % 4 == 0) by (nonlinear_arith)
            requires
                p2 == fs.reserved_sectors * 512 + c2 * 4,
        ;
        assert forall|j: int| p2 <= j < p2 + 4 implies #[trigger] w[j] == img[j] by {
            if s0 * 512 <= j < s0 * 512 + 512 {
                let q = j - s0 * 512;
                assert(q < b || q >= b + 4) by (nonlinear_arith)
                    requires
                        q == j - s0 * 512,
                        p2 <= j < p2 + 4,
                        p2 == fs.reserved_sectors * 512 + c2 * 4,
                        s0 * 512 + b == fs.reserved_sectors * 512 + c * 4,
                        c2 != c,
                ;
                assert(data[q] == sb[q]);
            }
        }
        assert(w[p2] == img[p2] && w[p2 + 1] == img[p2 + 1] && w[p2 + 2] == img[p2 + 2] && w[p2 + 3] == img[p2 + 3]);
    }
}

/// The index of the first FAT copy, from `f` on, whose sector for sector
/// `s0` of the first FAT is past a disk of `total` sectors; `n` when all are
/// on it.
pub open spec fn first_off(s0: int, fat_size: int, total: int, f: int, n: int) -> int
    decreases n - f,
{
    if f >= n {
        n
    } else if s0 + f * fat_size >= total {
        f
    } else {
        first_off(s0, fat_size, total, f + 1, n)
    }
}

/// Setting cluster `c`'s entry to `v`: the disk afterwards and the outcome.
/// The first FAT's sector is read and, changed, written to each copy in
/// turn; a sector past the disk stops it with "LBA out of range".
pub open spec fn fat_set_outcome(fs: Fat32Fs, img: Seq<u8>, total: int, c: int, v: u32) -> (Seq<u8>, Result<(), &'static str>) {
    let s0 = fat_pos(fs, c) / 512;
    if s0 >= total {
        (img, Err("LBA out of range"))
    } else {
        let k = first_off(s0, fs.fat_size as int, total, 0, fs.num_fats as int);
        (
            write_copies(img, s0, fs.fat_size as int, entry_sector_after(fs, img, c, v), k),
            if k == fs.num_fats { Ok(()) } else { Err("LBA out of range") },
        )
    }
}

impl Fat32Fs {
    /// Set cluster `cluster`'s FAT entry to `value` (low 28 bits) in every
    /// FAT copy: the first FAT's sector is read, changed, and written to
    /// each copy in turn.
    pub fn set_fat_entry(&self, disk: &mut IdeDisk, cluster: u32, value: u32) -> (r: Result<(), &'static str>)
        requires
            self.wf(),
            old(disk).wf(),
            cluster * 4 <= u32::MAX,
            fat_pos(*self, cluster as int) / 512 + (self.num_fats - 1) * self.fat_size <= u32::MAX,
        ensures
            final(disk).wf(),
            final(disk).total_view() == old(disk).total_view(),
            (final(disk).contents(), r) == fat_set_outcome(*self, old(disk).contents(), old(disk).total_view() as int, cluster as int, value),
    {
        let fat_start = self.reserved_sectors;
        let fat_offset = cluster * 4;
        let sector = fat_start + (fat_offset / self.bytes_per_sector);
        let byte_in_sector = (fat_offset % self.bytes_per_sector) as usize;
        proof {
            assert(sector == fat_pos(*self, cluster as int) / 512 && byte_in_sector == fat_pos(*self, cluster as int) % 512) by (nonlinear_arith)
                requires
                    sector == self.reserved_sectors + fat_offset / 512,
                    byte_in_sector == fat_offset % 512,
                    fat_offset == cluster * 4,
            ;
            assert(byte_in_sector + 4 <= 512) by (nonlinear_arith)
                requires
                    byte_in_sector == fat_offset % 512,
                    fat_offset == cluster * 4,
            ;
        }
        let mut buf = [0u8; 512];
        match disk.read_sector(sector, &mut buf) {
            Err(e) => {
                return Err(e);
            },
            Ok(()) => {},
        }
        put_u32_le(&mut buf, byte_in_sector, value & FAT_MASK);
        let ghost img0 = disk.contents();
        let ghost total = disk.total_view() as int;
        let ghost n = self.num_fats as int;
        let mut f: u32 = 0;
        while f < self.num_fats
            invariant
                self.wf(),
                disk.wf(),
                disk.total_view() == old(disk).total_view(),
                total == disk.total_view(),
                n == self.num_fats,
                img0 == old(disk).contents(),
                sector == fat_pos(*self, cluster as int) / 512,
                sector < total,
                sector + (self.num_fats - 1) * self.fat_size <= u32::MAX,
                buf@ == entry_sector_after(*self, img0, cluster as int, value),
                0 <= f <= self.num_fats,
                first_off(sector as int, self.fat_size as int, total, 0, n) == first_off(sector as int, self.fat_size as int, total, f as int, n),
                disk.contents() == write_copies(img0, sector as int, self.fat_size as int, buf@, f as int),
            decreases self.num_fats - f,
        {
            proof {
                assert(sector + f * self.fat_size <= sector + (self.num_fats - 1) * self.fat_size) by (nonlinear_arith)
                    requires
                        f < self.num_fats,
                ;
            }
            let target = sector + f * self.fat_size;
            match disk.write_sector(target, &buf) {
                Err(e) => {
                    return Err(e);
                },
                Ok(()) => {},
            }
            f = f + 1;
        }
        Ok(())
    }

    /// Mark cluster `cluster` as the end of its chain.
    pub fn mark_eoc(&self, disk: &mut IdeDisk, cluster: u32) -> (r: Result<(), &'static str>)
        requires
            self.wf(),
            old(disk).wf(),
            cluster * 4 <= u32::MAX,
            fat_pos(*self, cluster as int) / 512 + (self.num_fats - 1) * self.fat_size <= u32::MAX,
        ensures
            final(disk).wf(),
            final(disk).total_view() == old(disk).total_view(),
            (final(disk).contents(), r) == fat_set_outcome(*self, old(disk).contents(), old(disk).total_view() as int, cluster as int, FAT_EOC),
    {
        self.set_fat_entry(disk, cluster, FAT_EOC)
    }

    /// Free cluster `cluster` (entry 0).
    pub fn free_cluster(&self, disk: &mut IdeDisk, cluster: u32) -> (r: Result<(), &'static str>)
        requires
            self.wf(),
            old(disk).wf(),
            cluster * 4 <= u32::MAX,
            fat_pos(*self, cluster as int) / 512 + (self.num_fats - 1) * self.fat_size <= u32::MAX,
        ensures
            final(disk).wf(),
            final(disk).total_view() == old(disk).total_view(),
            (final(disk).contents(), r) == fat_set_outcome(*self, old(disk).contents(), old(disk).total_view() as int, cluster as int, 0),
    {
        self.set_fat_entry(disk, cluster, 0)
    }

    /// The lowest free cluster: scanning the first FAT sector by sector,
    /// the first entry that is 0 in its low 28 bits and names a cluster
    /// from 2 up to the cluster count; the read error when the scan comes
    /// to a FAT sector past the end of the disk; "no free clusters" when
    /// none is.
    pub fn alloc_cluster(&self, disk: &IdeDisk) -> (r: Result<u32, &'static str>)
        requires
            self.wf(),
            disk.wf(),
        ensures
            r == alloc_outcome(*self, disk.contents(), disk.total_view() as int),
            r matches Ok(c) ==> 2 <= c < self.total_clusters,
    {
        let fat_start = self.reserved_sectors;
        let fat_sectors = self.fat_size;
        let entries_per_sector: u32 = self.bytes_per_sector / 4;
        let ghost img = disk.contents();
        let ghost total = disk.total_view() as int;
        let ghost on = fat_sectors_on(*self, total);
        let ghost hi = on * 128;
        proof {
            lemma_first_fat_on_disk(*self);
            lemma_free_cluster_range(*self, img, 0, hi);
        }
        let mut sec: u32 = 0;
        while sec < fat_sectors
            invariant
                self.wf(),
                disk.wf(),
                img == disk.contents(),
                total == disk.total_view(),
                on == fat_sectors_on(*self, total),
                fat_start == self.reserved_sectors,
                fat_sectors == self.fat_size,
                entries_per_sector == 128,
                hi == on * 128,
                0 <= sec <= on,
                self.reserved_sectors + self.fat_size <= self.data_start,
                free_cluster_from(*self, img, 0, hi) == free_cluster_from(*self, img, sec * 128, hi),
            decreases fat_sectors - sec,
        {
            let sector = fat_start + sec;
            let mut buf = [0u8; 512];
            match disk.read_sector(sector, &mut buf) {
                Err(e) => {
                    proof {
                        assert(sec == on);
                        assert(free_cluster_from(*self, img, sec * 128, hi) is None);
                    }
                    return Err(e);
                },
                Ok(()) => {},
            }
            let mut i: u32 = 0;
            while i < entries_per_sector
                invariant
                    self.wf(),
                    disk.wf(),
                    img == disk.contents(),
                    entries_per_sector == 128,
                    sector == self.reserved_sectors + sec,
                    sec < self.fat_size,
                    sec < on,
                    on == fat_sectors_on(*self, total),
                    total == disk.total_view(),
                    sector < disk.total_view(),
                    buf@ == disk.sector(sector as int),
                    hi == on * 128,
                    0 <= i <= 128,
                    free_cluster_from(*self, img, 0, hi) == free_cluster_from(*self, img, sec * 128 + i, hi),
                decreases 128 - i,
            {
                let offset = (i as usize) * 4;
                let raw = read_u32_le(buf.as_slice(), offset);
                let entry = raw & FAT_MASK;
                proof {
                    let c = sec * 128 + i;
                    assert(fat_pos(*self, c) == sector * 512 + offset) by (nonlinear_arith)
                        requires
                            c == sec * 128 + i,
                            sector == self.reserved_sectors + sec,
                            offset == i * 4,
                    ;
                    lemma_le32_in_sector(img, sector as int, offset as int, disk.total_view() as int);
                    assert(c < hi) by (nonlinear_arith)
                        requires
                            c == sec * 128 + i,
                            sec < on,
                            i < 128,
                            hi == on * 128,
                    ;
                }
                if entry == 0 {
                    let cluster = sec * entries_per_sector + i;
                    if cluster >= 2 && cluster < self.total_clusters {
                        proof {
                            assert(free_cluster_from(*self, img, sec * 128 + i, hi) == Some(cluster));
                            assert(alloc_outcome(*self, img, total) == Ok::<u32, &'static str>(cluster));
                        }
                        return Ok(cluster);
                    }
                }
                i = i + 1;
            }
            sec = sec + 1;
        }
        proof {
            assert(on <= self.fat_size);
            assert(on == self.fat_size);
            assert(free_cluster_from(*self, img, sec * 128, hi) is None);
        }
        Err("no free clusters")
    }
}

} // verus!
