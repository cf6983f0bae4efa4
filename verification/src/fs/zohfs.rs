//! ZohFS, a small filesystem of this kernel: a superblock, a block
//! bitmap, a table of 32 inodes, and one root directory; files use up to
//! ten direct 4 KiB blocks. The mounted state is kept in memory and
//! written back through the buffer cache.
use vstd::prelude::*;
use vstd::string::StringSliceAdditionalSpecFns;
use vstd::utf8::valid_utf8;
use crate::text::{str_from_utf8, bytes_eq, sub_slice};
use crate::fs::ext2::{entry_name, name_string};
use crate::bytes::{le16, le32, le64, enc16, enc32, enc64, push_u16_le, push_u32_le, push_u64_le, read_u16_le, read_u32_le, read_u64_le};
use crate::drivers::ide::{IdeDisk, run_stop, with_sector};
use crate::fs::bcache::{BufferCache, cached_read, cached_read_sectors, cached_write, cached_write_sectors};

verus! {

pub const ZOHFS_MAGIC: u32 = 0x5A4F_4853;
pub const ZOHFS_VERSION: u32 = 1;
pub const BLOCK_SIZE: usize = 4096;
pub const SECTORS_PER_BLOCK: u32 = 8;
pub const MAX_INODES: u32 = 32;
pub const DIRECT_BLOCKS: usize = 10;
pub const ROOT_INODE: u32 = 1;

/// Directory bit of an inode mode.
pub const MODE_DIR: u16 = 0o40000;
/// Regular-file bit of an inode mode.
pub const MODE_FILE: u16 = 0o100000;

/// The superblock (sector 0).
#[derive(Clone, Copy)]
pub struct Superblock {
    pub magic: u32,
    pub version: u32,
    pub block_size: u32,
    pub total_blocks: u32,
    pub inode_count: u32,
    pub free_blocks: u32,
    pub root_inode: u32,
    pub bitmap_start_sector: u32,
    pub inode_start_sector: u32,
    pub data_start_sector: u32,
    pub _reserved: [u32; 3],
}

/// An inode: mode, size, and the blocks holding the data.
#[derive(Clone, Copy)]
pub struct Inode {
    pub mode: u16,
    pub size: u32,
    pub block_count: u32,
    pub direct_blocks: [u32; 10],
    pub indirect_block: u32,
    pub _reserved: [u32; 2],
}

/// Whether `i` is a free inode: everything zero.
pub open spec fn inode_cleared(i: Inode) -> bool {
    &&& i.mode == 0 && i.size == 0 && i.block_count == 0 && i.indirect_block == 0
    &&& forall|k: int| 0 <= k < DIRECT_BLOCKS ==> #[trigger] i.direct_blocks@[k] == 0
    &&& forall|k: int| 0 <= k < 2 ==> #[trigger] i._reserved@[k] == 0
}

impl Inode {
    /// A free inode: everything zero.
    pub fn empty() -> (i: Self)
        ensures
            inode_cleared(i),
    {
        Inode { mode: 0, size: 0, block_count: 0, direct_blocks: [0; 10], indirect_block: 0, _reserved: [0; 2] }
    }

    /// Is the directory bit set?
    pub fn is_dir(&self) -> (r: bool)
        ensures
            r == (self.mode & MODE_DIR != 0),
    {
        self.mode & MODE_DIR != 0
    }

    /// Is the regular-file bit set?
    pub fn is_file(&self) -> (r: bool)
        ensures
            r == (self.mode & MODE_FILE != 0),
    {
        self.mode & MODE_FILE != 0
    }

    /// Make it a directory, mode rwxr-xr-x.
    pub fn set_dir(&mut self)
        ensures
            *final(self) == (Inode { mode: 0o40755, ..*old(self) }),
    {
        self.mode = 0o40755;
    }

    /// Make it a regular file, mode rw-r--r--.
    pub fn set_file(&mut self)
        ensures
            *final(self) == (Inode { mode: 0o100644, ..*old(self) }),
    {
        self.mode = 0o100644;
    }
}

/// After `set_dir` an inode is a directory and not a file; after
/// `set_file` it is a file and not a directory.
pub proof fn law_mode_kinds()
    ensures
        0o40755u16 & MODE_DIR != 0 && 0o40755u16 & MODE_FILE == 0,
        0o100644u16 & MODE_FILE != 0 && 0o100644u16 & MODE_DIR == 0,
{
    assert(0o40755u16 & 0o40000u16 != 0 && 0o40755u16 & 0o100000u16 == 0) by (bit_vector);
    assert(0o100644u16 & 0o100000u16 != 0 && 0o100644u16 & 0o40000u16 == 0) by (bit_vector);
}

/// A directory entry: inode number, NUL-padded name, type.
#[derive(Clone, Copy)]
pub struct DirEntry {
    pub inode: u32,
    pub name: [u8; 56],
    pub entry_type: u16,
    pub _reserved: u16,
}

/// Whether `e` is an unused directory slot: everything zero.
pub open spec fn dirent_cleared(e: DirEntry) -> bool {
    &&& e.inode == 0 && e.entry_type == 0 && e._reserved == 0
    &&& forall|k: int| 0 <= k < 56 ==> #[trigger] e.name@[k] == 0
}

impl DirEntry {
    /// An unused directory slot.
    pub fn zeroed() -> (e: Self)
        ensures
            dirent_cleared(e),
    {
        DirEntry { inode: 0, name: [0; 56], entry_type: 0, _reserved: 0 }
    }
}

/// Number of 64-bit words of the block bitmap.
pub const BITMAP_WORDS: usize = 64;

/// Slots of the root directory.
pub const ROOT_SLOTS: usize = 64;

/// The mounted state: superblock, block bitmap, inode table and root
/// directory, as kept in memory.
pub struct ZohFs {
    pub sb: Superblock,
    pub mounted: bool,
    pub bitmap: Vec<u64>,
    pub inodes: Vec<Inode>,
    pub root_dir: Vec<DirEntry>,
    pub root_dir_count: usize,
}

/// Whether bit `i` of the block bitmap `bm` is set (block `i` in use).
pub open spec fn block_used(bm: Seq<u64>, i: int) -> bool {
    bm[i / 64] & (1u64 << ((i % 64) as u64)) != 0
}

/// The lowest free block in `[i, total)`.
pub open spec fn first_free_block(bm: Seq<u64>, i: int, total: int) -> Option<int>
    decreases total - i,
{
    if i < 0 || i >= total {
        None
    } else if !block_used(bm, i) {
        Some(i)
    } else {
        first_free_block(bm, i + 1, total)
    }
}

/// The lowest free inode number from `i` (an inode is free when its mode
/// is 0).
pub open spec fn first_free_inode(inodes: Seq<Inode>, i: int) -> Option<u32>
    decreases MAX_INODES - i,
{
    if i < 0 || i >= MAX_INODES || i >= inodes.len() {
        None
    } else if inodes[i].mode == 0 {
        Some(i as u32)
    } else {
        first_free_inode(inodes, i + 1)
    }
}

/// The bytes of a stored name, up to its first NUL.
pub open spec fn until_nul(name: Seq<u8>, i: int) -> Seq<u8>
    decreases name.len() - i,
{
    if i < 0 || i >= name.len() || name[i] == 0 {
        Seq::empty()
    } else {
        seq![name[i]] + until_nul(name, i + 1)
    }
}

/// Whether directory entry `e` is named `name` (its stored name, read as
/// UTF-8, or the empty name when it is not valid UTF-8).
pub open spec fn name_matches(e: DirEntry, name: Seq<u8>) -> bool {
    let nb = until_nul(e.name@, 0);
    if valid_utf8(nb) { nb == name } else { name.len() == 0 }
}

/// The first used root slot below `count` from `i` named `name`.
pub open spec fn find_root(dir: Seq<DirEntry>, count: int, i: int, name: Seq<u8>) -> Option<int>
    decreases count - i,
{
    if i < 0 || i >= count || i >= dir.len() {
        None
    } else if dir[i].inode != 0 && name_matches(dir[i], name) {
        Some(i)
    } else {
        find_root(dir, count, i + 1, name)
    }
}

/// The listing of the root directory's used slots below `count` from
/// `i`: name, inode, whether a directory.
pub open spec fn root_listing(dir: Seq<DirEntry>, count: int, i: int) -> Seq<(Seq<char>, u32, bool)>
    decreases count - i,
{
    if i < 0 || i >= count || i >= dir.len() {
        Seq::empty()
    } else if dir[i].inode != 0 {
        seq![(entry_name(until_nul(dir[i].name@, 0)), dir[i].inode, dir[i].entry_type == 1)] + root_listing(dir, count, i + 1)
    } else {
        root_listing(dir, count, i + 1)
    }
}

/// The bytes of a stored name up to its first NUL.
fn stored_name(name: &[u8; 56]) -> (r: &[u8])
    ensures
        r@ == until_nul(name@, 0),
{
    let mut end: usize = 0;
    while end < 56 && name[end] != 0
        invariant
            0 <= end <= 56,
            forall|k: int| 0 <= k < end ==> #[trigger] name@[k] != 0,
        decreases 56 - end,
    {
        end = end + 1;
    }
    proof {
        lemma_until_nul(name@, 0, end as int);
    }
    sub_slice(name.as_slice(), 0, end)
}

proof fn lemma_until_nul(name: Seq<u8>, i: int, end: int)
    requires
        0 <= i <= end <= name.len(),
        forall|k: int| i <= k < end ==> #[trigger] name[k] != 0,
        end == name.len() || name[end] == 0,
    ensures
        until_nul(name, i) == name.subrange(i, end),
    decreases end - i,
{
    if i < end {
        lemma_until_nul(name, i + 1, end);
        assert(seq![name[i]] + name.subrange(i + 1, end) =~= name.subrange(i, end));
    } else {
        assert(name.subrange(i, end) =~= Seq::<u8>::empty());
    }
}

impl ZohFs {
    /// The sizes of the in-memory tables.
    pub open spec fn wf(&self) -> bool {
        &&& self.bitmap@.len() == BITMAP_WORDS
        &&& self.inodes@.len() == MAX_INODES
        &&& self.root_dir@.len() == ROOT_SLOTS
        &&& self.root_dir_count <= ROOT_SLOTS
    }

    /// Nothing mounted: everything zero.
    pub fn new() -> (f: Self)
        ensures
            f.wf(),
            !f.mounted,
            f.root_dir_count == 0,
            f.sb.magic == 0 && f.sb.total_blocks == 0 && f.sb.free_blocks == 0 && f.sb.data_start_sector == 0,
            forall|k: int| 0 <= k < BITMAP_WORDS ==> #[trigger] f.bitmap@[k] == 0,
            forall|k: int| 0 <= k < MAX_INODES ==> #[trigger] inode_cleared(f.inodes@[k]),
            forall|k: int| 0 <= k < ROOT_SLOTS ==> #[trigger] dirent_cleared(f.root_dir@[k]),
    {
        let mut bitmap: Vec<u64> = Vec::new();
        let mut i: usize = 0;
        while i < BITMAP_WORDS
            invariant
                0 <= i <= BITMAP_WORDS,
                bitmap@.len() == i,
                forall|k: int| 0 <= k < i ==> #[trigger] bitmap@[k] == 0,
            decreases BITMAP_WORDS - i,
        {
            bitmap.push(0);
            i = i + 1;
        }
        let mut inodes: Vec<Inode> = Vec::new();
        let mut j: usize = 0;
        while j < MAX_INODES as usize
            invariant
                0 <= j <= MAX_INODES,
                inodes@.len() == j,
                forall|k: int| 0 <= k < j ==> #[trigger] inode_cleared(inodes@[k]),
            decreases MAX_INODES - j,
        {
            inodes.push(Inode::empty());
            j = j + 1;
        }
        let mut root_dir: Vec<DirEntry> = Vec::new();
        let mut d: usize = 0;
        while d < ROOT_SLOTS
            invariant
                0 <= d <= ROOT_SLOTS,
                root_dir@.len() == d,
                forall|k: int| 0 <= k < d ==> #[trigger] dirent_cleared(root_dir@[k]),
            decreases ROOT_SLOTS - d,
        {
            root_dir.push(DirEntry::zeroed());
            d = d + 1;
        }
        let sb = Superblock {
            magic: 0,
            version: 0,
            block_size: 0,
            total_blocks: 0,
            inode_count: 0,
            free_blocks: 0,
            root_inode: 0,
            bitmap_start_sector: 0,
            inode_start_sector: 0,
            data_start_sector: 0,
            _reserved: [0; 3],
        };
        ZohFs { sb, mounted: false, bitmap, inodes, root_dir, root_dir_count: 0 }
    }

    /// Whether a ZohFS volume is mounted.
    pub fn is_mounted(&self) -> (r: bool)
        ensures
            r == self.mounted,
    {
        self.mounted
    }

    /// The lowest free inode number from 1.
    pub fn alloc_inode(&self) -> (r: Result<u32, &'static str>)
        requires
            self.wf(),
        ensures
            r == (match first_free_inode(self.inodes@, 1) {
                Some(i) => Ok::<u32, &'static str>(i),
                None => Err("no free inodes"),
            }),
    {
        let mut i: usize = 1;
        while i < MAX_INODES as usize
            invariant
                1 <= i <= MAX_INODES,
                self.inodes@.len() == MAX_INODES,
                first_free_inode(self.inodes@, 1) == first_free_inode(self.inodes@, i as int),
            decreases MAX_INODES - i,
        {
            if self.inodes[i].mode == 0 {
                return Ok(i as u32);
            }
            i = i + 1;
        }
        Err("no free inodes")
    }

    /// Clear inode `inode`.
    pub fn free_inode(&mut self, inode: u32) -> (r: Result<(), &'static str>)
        requires
            old(self).wf(),
        ensures
            final(self).wf(),
            final(self).sb == old(self).sb && final(self).mounted == old(self).mounted,
            final(self).bitmap@ == old(self).bitmap@ && final(self).root_dir@ == old(self).root_dir@,
            final(self).root_dir_count == old(self).root_dir_count,
            inode == 0 || inode >= MAX_INODES ==> r == Err::<(), &'static str>("invalid inode") && final(self).inodes@ == old(self).inodes@,
            !(inode == 0 || inode >= MAX_INODES) ==> r is Ok
                && inode_cleared(final(self).inodes@[inode as int])
                && forall|k: int| 0 <= k < MAX_INODES && k != inode ==> #[trigger] final(self).inodes@[k] == old(self).inodes@[k],
    {
        if inode == 0 || inode >= MAX_INODES {
            return Err("invalid inode");
        }
        self.inodes.set(inode as usize, Inode::empty());
        Ok(())
    }

    /// Take the lowest free block: set its bit and count one block fewer
    /// free (not below zero).
    pub fn alloc_block(&mut self) -> (r: Result<u32, &'static str>)
        requires
            old(self).wf(),
            old(self).sb.total_blocks <= 4096 || first_free_block(old(self).bitmap@, 0, 4096) is Some,
        ensures
            final(self).wf(),
            final(self).mounted == old(self).mounted,
            final(self).inodes@ == old(self).inodes@ && final(self).root_dir@ == old(self).root_dir@,
            final(self).root_dir_count == old(self).root_dir_count,
            match first_free_block(old(self).bitmap@, 0, old(self).sb.total_blocks as int) {
                Some(i) => {
                    &&& r == Ok::<u32, &'static str>(i as u32)
                    &&& final(self).bitmap@ == old(self).bitmap@.update(i / 64, old(self).bitmap@[i / 64] | (1u64 << ((i % 64) as u64)))
                    &&& final(self).sb == (Superblock {
                        free_blocks: if old(self).sb.free_blocks > 0 { (old(self).sb.free_blocks - 1) as u32 } else { 0 },
                        ..old(self).sb
                    })
                },
                None => r == Err::<u32, &'static str>("no free blocks") && final(self).bitmap@ == old(self).bitmap@
                    && final(self).sb == old(self).sb,
            },
    {
        let total = self.sb.total_blocks as usize;
        let mut i: usize = 0;
        while i < total
            invariant
                self.wf(),
                self == old(self),
                total == self.sb.total_blocks,
                0 <= i <= total,
                self.sb.total_blocks <= 4096 || first_free_block(self.bitmap@, 0, 4096) is Some,
                first_free_block(self.bitmap@, 0, total as int) == first_free_block(self.bitmap@, i as int, total as int),
                total > 4096 ==> i <= 4096 && first_free_block(self.bitmap@, 0, 4096) == first_free_block(self.bitmap@, i as int, 4096),
            decreases total - i,
        {
            proof {
                if total > 4096 && i == 4096 {
                    assert(first_free_block(self.bitmap@, i as int, 4096) is None);
                }
            }
            let word = self.bitmap[i / 64];
            let bit = 1u64 << ((i % 64) as u64);
            if word & bit == 0 {
                self.bitmap.set(i / 64, word | bit);
                self.sb.free_blocks = if self.sb.free_blocks > 0 { self.sb.free_blocks - 1 } else { 0 };
                return Ok(i as u32);
            }
            i = i + 1;
        }
        Err("no free blocks")
    }
}

/// How many of `blocks[i..n)` are nonzero.
pub open spec fn nonzero_count(blocks: Seq<u32>, i: int, n: int) -> int
    decreases n - i,
{
    if i >= n { 0 } else { (if blocks[i] > 0 { 1int } else { 0int }) + nonzero_count(blocks, i + 1, n) }
}

proof fn lemma_nonzero_count_nonneg(blocks: Seq<u32>, i: int, n: int)
    ensures
        nonzero_count(blocks, i, n) >= 0,
    decreases n - i,
{
    if i < n {
        lemma_nonzero_count_nonneg(blocks, i + 1, n);
    }
}

/// Clearing the bitmap bits of the nonzero blocks among `blocks[i..n)`,
/// counting each as free again: the bitmap and free count afterwards.
pub open spec fn clear_blocks(bm: Seq<u64>, free: int, blocks: Seq<u32>, i: int, n: int) -> (Seq<u64>, int)
    decreases n - i,
{
    if i >= n {
        (bm, free)
    } else {
        let b = blocks[i] as int;
        if b > 0 {
            clear_blocks(bm.update(b / 64, bm[b / 64] & !(1u64 << ((b % 64) as u64))), free + 1, blocks, i + 1, n)
        } else {
            clear_blocks(bm, free, blocks, i + 1, n)
        }
    }
}

/// The direct blocks an inode uses: its block count, at most ten.
pub open spec fn used_direct(n: Inode) -> int {
    if n.block_count < 10 { n.block_count as int } else { 10 }
}

impl ZohFs {
    /// Give back the blocks of inode `inode_num`: each nonzero direct block
    /// among the first `block_count` has its bit cleared and counts as
    /// free again.
    pub fn free_inode_blocks(&mut self, inode_num: u32) -> (r: Result<(), &'static str>)
        requires
            old(self).wf(),
            0 < inode_num < MAX_INODES ==> {
                let n = old(self).inodes@[inode_num as int];
                &&& forall|k: int| 0 <= k < used_direct(n) ==> #[trigger] n.direct_blocks@[k] < 4096
                &&& old(self).sb.free_blocks + nonzero_count(n.direct_blocks@, 0, used_direct(n)) <= u32::MAX
            },
        ensures
            final(self).wf(),
            final(self).mounted == old(self).mounted,
            final(self).inodes@ == old(self).inodes@ && final(self).root_dir@ == old(self).root_dir@,
            final(self).root_dir_count == old(self).root_dir_count,
            inode_num == 0 || inode_num >= MAX_INODES ==> r == Err::<(), &'static str>("invalid inode")
                && final(self).bitmap@ == old(self).bitmap@ && final(self).sb == old(self).sb,
            !(inode_num == 0 || inode_num >= MAX_INODES) ==> r is Ok && ({
                let n = old(self).inodes@[inode_num as int];
                let c = clear_blocks(old(self).bitmap@, old(self).sb.free_blocks as int, n.direct_blocks@, 0, used_direct(n));
                &&& final(self).bitmap@ == c.0
                &&& final(self).sb == (Superblock { free_blocks: c.1 as u32, ..old(self).sb })
            }),
    {
        if inode_num == 0 || inode_num >= MAX_INODES {
            return Err("invalid inode");
        }
        let inode = self.inodes[inode_num as usize];
        let count = if inode.block_count < 10 { inode.block_count as usize } else { 10 };
        let ghost n = inode;
        let ghost whole = clear_blocks(old(self).bitmap@, old(self).sb.free_blocks as int, n.direct_blocks@, 0, used_direct(n));
        let mut i: usize = 0;
        while i < count
            invariant
                self.wf(),
                count == used_direct(n),
                n == inode,
                0 <= i <= count,
                self.mounted == old(self).mounted,
                self.inodes@ == old(self).inodes@ && self.root_dir@ == old(self).root_dir@,
                self.root_dir_count == old(self).root_dir_count,
                forall|k: int| 0 <= k < count ==> #[trigger] n.direct_blocks@[k] < 4096,
                self.sb.free_blocks + nonzero_count(n.direct_blocks@, i as int, count as int) <= u32::MAX,
                self.sb == (Superblock { free_blocks: self.sb.free_blocks, ..old(self).sb }),
                whole == clear_blocks(self.bitmap@, self.sb.free_blocks as int, n.direct_blocks@, i as int, count as int),
            decreases count - i,
        {
            let block = inode.direct_blocks[i];
            proof {
                lemma_nonzero_count_nonneg(n.direct_blocks@, i + 1, count as int);
            }
            if block > 0 {
                let w = (block as usize) / 64;
                let bit = 1u64 << (((block as usize) % 64) as u64);
                let word = self.bitmap[w];
                self.bitmap.set(w, word & !bit);
                self.sb.free_blocks = self.sb.free_blocks + 1;
            }
            i = i + 1;
        }
        Ok(())
    }

    /// The root slot below the entry count that is in use and named `name`.
    pub fn find_in_root(&self, name: &str) -> (r: Option<usize>)
        requires
            self.wf(),
        ensures
            r == (match find_root(self.root_dir@, self.root_dir_count as int, 0, name.spec_bytes()) {
                Some(i) => Some(i as usize),
                None => None::<usize>,
            }),
    {
        let nb = name.as_bytes();
        let mut i: usize = 0;
        while i < self.root_dir_count
            invariant
                self.wf(),
                nb@ == name.spec_bytes(),
                0 <= i <= self.root_dir_count,
                find_root(self.root_dir@, self.root_dir_count as int, 0, nb@) == find_root(self.root_dir@, self.root_dir_count as int, i as int, nb@),
            decreases self.root_dir_count - i,
        {
            let e = &self.root_dir[i];
            if e.inode != 0 {
                let stored = stored_name(&e.name);
                let same = match str_from_utf8(stored) {
                    Some(_) => bytes_eq(stored, nb),
                    None => nb.len() == 0,
                };
                if same {
                    return Some(i);
                }
            }
            i = i + 1;
        }
        None
    }

    /// The inode of the root entry named `name`.
    pub fn find_file(&self, name: &str) -> (r: Option<u32>)
        requires
            self.wf(),
        ensures
            r == (match find_root(self.root_dir@, self.root_dir_count as int, 0, name.spec_bytes()) {
                Some(i) => Some(self.root_dir@[i].inode),
                None => None::<u32>,
            }),
    {
        proof {
            lemma_find_root_bounds(self.root_dir@, self.root_dir_count as int, 0, name.spec_bytes());
        }
        match self.find_in_root(name) {
            Some(i) => Some(self.root_dir[i].inode),
            None => None,
        }
    }

    /// The root directory's used entries: name, inode, whether a directory.
    pub fn readdir_root(&self) -> (v: Vec<(String, u32, bool)>)
        requires
            self.wf(),
        ensures
            v@.map_values(|e: (String, u32, bool)| (e.0@, e.1, e.2)) == root_listing(self.root_dir@, self.root_dir_count as int, 0),
    {
        let mut entries: Vec<(String, u32, bool)> = Vec::new();
        let mut i: usize = 0;
        while i < self.root_dir_count
            invariant
                self.wf(),
                0 <= i <= self.root_dir_count,
                root_listing(self.root_dir@, self.root_dir_count as int, 0)
                    == entries@.map_values(|e: (String, u32, bool)| (e.0@, e.1, e.2)) + root_listing(self.root_dir@, self.root_dir_count as int, i as int),
            decreases self.root_dir_count - i,
        {
            let ghost v0 = entries@.map_values(|e: (String, u32, bool)| (e.0@, e.1, e.2));
            let e = &self.root_dir[i];
            if e.inode != 0 {
                let name = name_string(stored_name(&e.name));
                let item = (name, e.inode, e.entry_type == 1);
                entries.push(item);
                proof {
                    assert(entries@.map_values(|e: (String, u32, bool)| (e.0@, e.1, e.2)) =~= v0.push((item.0@, item.1, item.2)));
                    assert(v0.push((item.0@, item.1, item.2)) + root_listing(self.root_dir@, self.root_dir_count as int, i + 1)
                        =~= v0 + root_listing(self.root_dir@, self.root_dir_count as int, i as int));
                }
            }
            i = i + 1;
        }
        proof {
            let v = entries@.map_values(|e: (String, u32, bool)| (e.0@, e.1, e.2));
            assert(v + Seq::<(Seq<char>, u32, bool)>::empty() =~= v);
        }
        entries
    }
}

/// A slot found lies below the entry count.
pub proof fn lemma_find_root_bounds(dir: Seq<DirEntry>, count: int, i: int, name: Seq<u8>)
    ensures
        find_root(dir, count, i, name) matches Some(k) ==> i <= k < count && k < dir.len() && k >= 0,
    decreases count - i,
{
    if 0 <= i < count && i < dir.len() && !(dir[i].inode != 0 && name_matches(dir[i], name)) {
        lemma_find_root_bounds(dir, count, i + 1, name);
    }
}

/// Where a root entry found at slot `r` sits once slot `idx` has been taken
/// out of the table.
pub open spec fn shifted(r: Option<int>, idx: int) -> Option<int> {
    match r {
        None => None,
        Some(j) => Some(if j < idx { j } else { j - 1 }),
    }
}

proof fn lemma_find_after_removed_tail(old: Seq<DirEntry>, new: Seq<DirEntry>, idx: int, c: int, n: Seq<u8>, i: int)
    requires
        root_slot_removed(old, new, idx, c),
        0 <= idx < c <= old.len(),
        idx <= i,
    ensures
        find_root(new, c - 1, i, n) == shifted(find_root(old, c, i + 1, n), idx),
    decreases c - i,
{
    if i < c - 1 {
        assert(new[i] == old[i + 1]);
        lemma_find_after_removed_tail(old, new, idx, c, n, i + 1);
    }
}

proof fn lemma_find_after_removed_head(old: Seq<DirEntry>, new: Seq<DirEntry>, idx: int, c: int, n: Seq<u8>, i: int)
    requires
        root_slot_removed(old, new, idx, c),
        0 <= idx < c <= old.len(),
        0 <= i <= idx,
        !(old[idx].inode != 0 && name_matches(old[idx], n)),
    ensures
        find_root(new, c - 1, i, n) == shifted(find_root(old, c, i, n), idx),
    decreases idx - i,
{
    if i == idx {
        lemma_find_after_removed_tail(old, new, idx, c, n, idx);
    } else {
        assert(new[i] == old[i]);
        lemma_find_after_removed_head(old, new, idx, c, n, i + 1);
    }
}

/// Deleting one root entry leaves the others: after the entry first named
/// `gone` is taken out of the table, looking up any other name finds the
/// same entry as before, one slot lower when it sat after the removed one.
pub proof fn law_delete_keeps_others(old: Seq<DirEntry>, new: Seq<DirEntry>, c: int, gone: Seq<u8>, other: Seq<u8>)
    requires
        c <= old.len(),
        find_root(old, c, 0, gone) is Some,
        root_slot_removed(old, new, find_root(old, c, 0, gone)->0, c),
        other != gone,
    ensures
        find_root(new, c - 1, 0, other) == shifted(find_root(old, c, 0, other), find_root(old, c, 0, gone)->0),
{
    let idx = find_root(old, c, 0, gone)->0;
    lemma_find_root_bounds(old, c, 0, gone);
    lemma_find_root_matches(old, c, 0, gone);
    if other.len() == 0 && gone.len() == 0 {
        assert(other =~= gone);
    }
    lemma_find_after_removed_head(old, new, idx, c, other, 0);
}

proof fn lemma_find_root_matches(dir: Seq<DirEntry>, count: int, i: int, name: Seq<u8>)
    ensures
        find_root(dir, count, i, name) matches Some(k) ==> dir[k].inode != 0 && name_matches(dir[k], name),
    decreases count - i,
{
    if 0 <= i < count && i < dir.len() && !(dir[i].inode != 0 && name_matches(dir[i], name)) {
        lemma_find_root_matches(dir, count, i + 1, name);
    }
}

/// `n` zero bytes.
pub open spec fn zeros(n: int) -> Seq<u8> {
    Seq::new(n as nat, |i: int| 0u8)
}

/// The superblock as stored in sector 0.
pub open spec fn sb_bytes(sb: Superblock) -> Seq<u8> {
    enc32(sb.magic as int) + enc32(sb.version as int) + enc32(sb.block_size as int) + enc32(sb.total_blocks as int)
        + enc32(sb.inode_count as int) + enc32(sb.free_blocks as int) + enc32(sb.root_inode as int)
        + enc32(sb.bitmap_start_sector as int) + enc32(sb.inode_start_sector as int) + enc32(sb.data_start_sector as int)
        + enc32(sb._reserved@[0] as int) + enc32(sb._reserved@[1] as int) + enc32(sb._reserved@[2] as int) + zeros(460)
}

/// The first `n` bitmap words, little-endian.
pub open spec fn words_bytes(bm: Seq<u64>, n: int) -> Seq<u8>
    decreases n,
{
    if n <= 0 { Seq::empty() } else { words_bytes(bm, n - 1) + enc64(bm[n - 1] as int) }
}

/// The bitmap as stored in sectors 1 to 7.
pub open spec fn bitmap_bytes(bm: Seq<u64>) -> Seq<u8> {
    words_bytes(bm, BITMAP_WORDS as int) + zeros(3072)
}

/// The ten direct block numbers, little-endian.
pub open spec fn direct_bytes(d: Seq<u32>, n: int) -> Seq<u8>
    decreases n,
{
    if n <= 0 { Seq::empty() } else { direct_bytes(d, n - 1) + enc32(d[n - 1] as int) }
}

/// An inode as stored (64 bytes).
pub open spec fn inode_bytes(n: Inode) -> Seq<u8> {
    enc16(n.mode as int) + zeros(2) + enc32(n.size as int) + enc32(n.block_count as int) + direct_bytes(n.direct_blocks@, 10)
        + enc32(n.indirect_block as int) + enc32(n._reserved@[0] as int) + enc32(n._reserved@[1] as int)
}

/// The first `n` inodes, each in a 1024-byte slot.
pub open spec fn inode_slots(ins: Seq<Inode>, n: int) -> Seq<u8>
    decreases n,
{
    if n <= 0 { Seq::empty() } else { inode_slots(ins, n - 1) + inode_bytes(ins[n - 1]) + zeros(960) }
}

/// The inode table as stored in sectors 8 to 71.
pub open spec fn inode_table_bytes(ins: Seq<Inode>) -> Seq<u8> {
    inode_slots(ins, MAX_INODES as int)
}

/// A directory entry as stored (64 bytes).
pub open spec fn dirent_bytes(e: DirEntry) -> Seq<u8> {
    enc32(e.inode as int) + e.name@ + enc16(e.entry_type as int) + enc16(e._reserved as int)
}

/// The first `n` root entries.
pub open spec fn dirents_bytes(dir: Seq<DirEntry>, n: int) -> Seq<u8>
    decreases n,
{
    if n <= 0 { Seq::empty() } else { dirents_bytes(dir, n - 1) + dirent_bytes(dir[n - 1]) }
}

/// The root directory's first sector: up to eight entries, then zeros.
pub open spec fn root_block_bytes(dir: Seq<DirEntry>, count: int) -> Seq<u8> {
    let m = if count < 8 { count } else { 8 };
    dirents_bytes(dir, m) + zeros(512 - 64 * m)
}

/// Writing `count` sectors of `data` from sector `start` on a disk of
/// `total` sectors: the disk afterwards and the outcome; the sectors are
/// written in order and the first past the disk stops the writing.
pub open spec fn run_write(img: Seq<u8>, total: int, start: int, count: int, data: Seq<u8>) -> (Seq<u8>, Result<(), &'static str>) {
    let stop = run_stop(data.len() as int, start, count, total);
    (
        if stop <= 0 { img } else { img.subrange(0, start * 512) + data.subrange(0, stop * 512) + img.subrange((start + stop) * 512, img.len() as int) },
        if stop == count { Ok(()) } else { Err("LBA out of range") },
    )
}

/// Write `count` sectors of `buf` from `start` through the cache.
fn write_run(cache: &mut BufferCache, disk: &mut IdeDisk, start: u32, count: u32, buf: &[u8]) -> (r: Result<(), &'static str>)
    requires
        old(cache).coherent(old(disk)),
        old(disk).wf(),
        count > 0,
        start + count - 1 <= u32::MAX,
        count * 512 + 512 <= usize::MAX,
        buf@.len() >= count * 512,
    ensures
        final(cache).coherent(final(disk)),
        final(disk).wf(),
        final(disk).total_view() == old(disk).total_view(),
        (final(disk).contents(), r) == run_write(old(disk).contents(), old(disk).total_view() as int, start as int, count as int, buf@),
{
    let ghost img = disk.contents();
    let ghost total = disk.total_view() as int;
    let res = cached_write_sectors(cache, disk, start, count, buf);
    proof {
        let stop = run_stop(buf@.len() as int, start as int, count as int, total);
        assert(buf@.len() / 512 >= count) by (nonlinear_arith)
            requires
                buf@.len() >= count * 512,
        ;
        if stop > 0 {
            assert((start + stop) * 512 <= img.len()) by (nonlinear_arith)
                requires
                    stop <= total - start,
                    img.len() == total * 512,
            ;
            assert(start * 512 + stop * 512 == (start + stop) * 512) by (nonlinear_arith);
            let expect = run_write(img, total, start as int, count as int, buf@).0;
            assert forall|p: int| 0 <= p < img.len() implies disk.contents()[p] == expect[p] by {
                if start * 512 <= p < (start + stop) * 512 {
                    let j = p - start * 512;
                    assert(disk.contents()[start * 512 + j] == buf@[j]);
                }
            }
            assert(disk.contents() =~= expect);
        } else {
            assert(disk.contents() =~= img);
        }
    }
    match res {
        Ok(()) => Ok(()),
        Err(e) => Err(e),
    }
}

/// Write one sector through the cache.
fn write_one(cache: &mut BufferCache, disk: &mut IdeDisk, sector: u32, buf: &[u8; 512]) -> (r: Result<(), &'static str>)
    requires
        old(cache).coherent(old(disk)),
        old(disk).wf(),
    ensures
        final(cache).coherent(final(disk)),
        final(disk).wf(),
        final(disk).total_view() == old(disk).total_view(),
        (final(disk).contents(), r) == run_write(old(disk).contents(), old(disk).total_view() as int, sector as int, 1, buf@),
{
    let ghost img = disk.contents();
    let res = cached_write(cache, disk, sector, buf);
    proof {
        if sector < disk.total_view() {
            assert(disk.contents() =~= run_write(img, disk.total_view() as int, sector as int, 1, buf@).0);
        }
    }
    match res {
        Ok(()) => Ok(()),
        Err(e) => Err(e),
    }
}

/// A sector buffer holding `v`.
fn to_sector(v: &Vec<u8>) -> (a: [u8; 512])
    requires
        v@.len() == 512,
    ensures
        a@ == v@,
{
    let mut a = [0u8; 512];
    let mut i: usize = 0;
    while i < 512
        invariant
            0 <= i <= 512,
            v@.len() == 512,
            a@.len() == 512,
            forall|k: int| 0 <= k < i ==> #[trigger] a@[k] == v@[k],
        decreases 512 - i,
    {
        a[i] = v[i];
        i = i + 1;
    }
    assert(a@ =~= v@);
    a
}

/// Append `n` zero bytes.
fn push_zeros(v: &mut Vec<u8>, n: usize)
    ensures
        final(v)@ == old(v)@ + zeros(n as int),
{
    let mut i: usize = 0;
    while i < n
        invariant
            0 <= i <= n,
            v@ == old(v)@ + zeros(i as int),
        decreases n - i,
    {
        v.push(0);
        i = i + 1;
        assert(v@ =~= old(v)@ + zeros(i as int));
    }
}

/// Sector 0: the superblock.
fn sb_sector(sb: &Superblock) -> (a: [u8; 512])
    ensures
        a@ == sb_bytes(*sb),
{
    let mut v: Vec<u8> = Vec::new();
    push_u32_le(&mut v, sb.magic);
    assert(v@ =~= enc32(sb.magic as int));
    push_u32_le(&mut v, sb.version);
    push_u32_le(&mut v, sb.block_size);
    push_u32_le(&mut v, sb.total_blocks);
    push_u32_le(&mut v, sb.inode_count);
    push_u32_le(&mut v, sb.free_blocks);
    push_u32_le(&mut v, sb.root_inode);
    push_u32_le(&mut v, sb.bitmap_start_sector);
    push_u32_le(&mut v, sb.inode_start_sector);
    push_u32_le(&mut v, sb.data_start_sector);
    push_u32_le(&mut v, sb._reserved[0]);
    push_u32_le(&mut v, sb._reserved[1]);
    push_u32_le(&mut v, sb._reserved[2]);
    push_zeros(&mut v, 460);
    proof {
        crate::bytes::lemma_enc_lens();
    }
    to_sector(&v)
}

/// Sectors 1 to 7: the bitmap.
fn bitmap_sectors(bm: &Vec<u64>) -> (v: Vec<u8>)
    requires
        bm@.len() == BITMAP_WORDS,
    ensures
        v@ == bitmap_bytes(bm@),
{
    let mut v: Vec<u8> = Vec::new();
    let mut i: usize = 0;
    while i < BITMAP_WORDS
        invariant
            0 <= i <= BITMAP_WORDS,
            bm@.len() == BITMAP_WORDS,
            v@ == words_bytes(bm@, i as int),
        decreases BITMAP_WORDS - i,
    {
        push_u64_le(&mut v, bm[i]);
        i = i + 1;
    }
    push_zeros(&mut v, 3072);
    v
}

/// An inode's 64 stored bytes, appended.
fn push_inode(v: &mut Vec<u8>, n: &Inode)
    ensures
        final(v)@ == old(v)@ + inode_bytes(*n),
{
    push_u16_le(v, n.mode);
    push_zeros(v, 2);
    push_u32_le(v, n.size);
    push_u32_le(v, n.block_count);
    let ghost before = v@;
    let mut i: usize = 0;
    while i < 10
        invariant
            0 <= i <= 10,
            n.direct_blocks@.len() == 10,
            v@ == before + direct_bytes(n.direct_blocks@, i as int),
        decreases 10 - i,
    {
        push_u32_le(v, n.direct_blocks[i]);
        i = i + 1;
        assert(v@ =~= before + direct_bytes(n.direct_blocks@, i as int));
    }
    push_u32_le(v, n.indirect_block);
    push_u32_le(v, n._reserved[0]);
    push_u32_le(v, n._reserved[1]);
    assert(v@ =~= old(v)@ + inode_bytes(*n));
}

/// Sectors 8 to 71: the inode table.
fn inode_sectors(ins: &Vec<Inode>) -> (v: Vec<u8>)
    requires
        ins@.len() == MAX_INODES,
    ensures
        v@ == inode_table_bytes(ins@),
{
    let mut v: Vec<u8> = Vec::new();
    let mut i: usize = 0;
    while i < MAX_INODES as usize
        invariant
            0 <= i <= MAX_INODES,
            ins@.len() == MAX_INODES,
            v@ == inode_slots(ins@, i as int),
        decreases MAX_INODES - i,
    {
        push_inode(&mut v, &ins[i]);
        push_zeros(&mut v, 960);
        i = i + 1;
    }
    v
}

/// The root directory's sector.
fn root_sector(dir: &Vec<DirEntry>, count: usize) -> (a: [u8; 512])
    requires
        dir@.len() == ROOT_SLOTS,
    ensures
        a@ == root_block_bytes(dir@, count as int),
{
    let m = if count < 8 { count } else { 8 };
    let mut v: Vec<u8> = Vec::new();
    let mut i: usize = 0;
    while i < m
        invariant
            0 <= i <= m,
            m <= 8,
            dir@.len() == ROOT_SLOTS,
            v@ == dirents_bytes(dir@, i as int),
        decreases m - i,
    {
        let e = &dir[i];
        let ghost before = v@;
        push_u32_le(&mut v, e.inode);
        let mut k: usize = 0;
        while k < 56
            invariant
                0 <= k <= 56,
                e.name@.len() == 56,
                v@ == before + enc32(e.inode as int) + e.name@.subrange(0, k as int),
            decreases 56 - k,
        {
            v.push(e.name[k]);
            k = k + 1;
            assert(v@ =~= before + enc32(e.inode as int) + e.name@.subrange(0, k as int));
        }
        push_u16_le(&mut v, e.entry_type);
        push_u16_le(&mut v, e._reserved);
        assert(e.name@.subrange(0, 56) =~= e.name@);
        assert(v@ =~= before + dirent_bytes(*e));
        i = i + 1;
    }
    proof {
        lemma_dirents_len(dir@, m as int);
    }
    push_zeros(&mut v, 512 - 64 * m);
    proof {
        crate::bytes::lemma_enc_lens();
    }
    to_sector(&v)
}

proof fn lemma_dirents_len(dir: Seq<DirEntry>, n: int)
    requires
        0 <= n,
        forall|k: int| 0 <= k < n ==> #[trigger] dir[k].name@.len() == 56,
    ensures
        dirents_bytes(dir, n).len() == 64 * n,
    decreases n,
{
    if n > 0 {
        lemma_dirents_len(dir, n - 1);
    }
}

/// The first sector of data block `b` (blocks are numbered from 1).
pub open spec fn block_sector(sb: Superblock, b: int) -> int {
    sb.data_start_sector + (b - 1) * SECTORS_PER_BLOCK
}

/// Writing the in-memory state back: the root directory's first sector
/// (when the root inode has a first block), the superblock, the bitmap and
/// the inode table, in that order; the first write that fails stops it.
pub open spec fn flush_outcome(f: &ZohFs, img: Seq<u8>, total: int) -> (Seq<u8>, Result<(), &'static str>) {
    let block = f.inodes@[ROOT_INODE as int].direct_blocks@[0];
    if block == 0 {
        (img, Ok(()))
    } else {
        let w1 = run_write(img, total, block_sector(f.sb, block as int), 1, root_block_bytes(f.root_dir@, f.root_dir_count as int));
        if w1.1 is Err {
            w1
        } else {
            let w2 = run_write(w1.0, total, 0, 1, sb_bytes(f.sb));
            if w2.1 is Err {
                w2
            } else {
                let w3 = run_write(w2.0, total, 1, 7, bitmap_bytes(f.bitmap@));
                if w3.1 is Err {
                    w3
                } else {
                    run_write(w3.0, total, 8, 64, inode_table_bytes(f.inodes@))
                }
            }
        }
    }
}

/// Flushing needs no sector number past 32 bits.
pub open spec fn flush_computable(f: &ZohFs) -> bool {
    let block = f.inodes@[ROOT_INODE as int].direct_blocks@[0];
    block != 0 ==> block_sector(f.sb, block as int) <= u32::MAX
}

/// Whether `e` is slot `old_e` given the name `name`, inode `inode` and
/// type: the name's first 55 bytes, a NUL, and the slot's old bytes after.
pub open spec fn entry_named(e: DirEntry, old_e: DirEntry, name: Seq<u8>, inode: u32, is_dir: bool) -> bool {
    let len = if name.len() < 55 { name.len() as int } else { 55 };
    &&& e.inode == inode
    &&& e.entry_type == (if is_dir { 1u16 } else { 0u16 })
    &&& e._reserved == 0
    &&& e.name@ == name.subrange(0, len) + seq![0u8] + old_e.name@.subrange(len + 1, 56)
}

/// The count on success, the error otherwise.
pub open spec fn with_value(r: Result<(), &'static str>, v: u32) -> Result<u32, &'static str> {
    match r {
        Ok(_) => Ok(v),
        Err(e) => Err(e),
    }
}

impl ZohFs {
    /// Write the root directory, superblock, bitmap and inode table back.
    pub fn flush_root_dir(&self, cache: &mut BufferCache, disk: &mut IdeDisk) -> (r: Result<(), &'static str>)
        requires
            self.wf(),
            old(cache).coherent(old(disk)),
            old(disk).wf(),
            flush_computable(self),
        ensures
            final(cache).coherent(final(disk)),
            final(disk).wf(),
            final(disk).total_view() == old(disk).total_view(),
            (final(disk).contents(), r) == flush_outcome(self, old(disk).contents(), old(disk).total_view() as int),
    {
        let block = self.inodes[ROOT_INODE as usize].direct_blocks[0];
        if block == 0 {
            return Ok(());
        }
        let sector = self.sb.data_start_sector + (block - 1) * SECTORS_PER_BLOCK;
        let dir_buf = root_sector(&self.root_dir, self.root_dir_count);
        match write_one(cache, disk, sector, &dir_buf) {
            Err(e) => {
                return Err(e);
            },
            Ok(()) => {},
        }
        let sb_buf = sb_sector(&self.sb);
        match write_one(cache, disk, 0, &sb_buf) {
            Err(e) => {
                return Err(e);
            },
            Ok(()) => {},
        }
        let bitmap_buf = bitmap_sectors(&self.bitmap);
        proof {
            crate::bytes::lemma_enc_lens();
            lemma_words_len(self.bitmap@, 64);
        }
        match write_run(cache, disk, 1, 7, bitmap_buf.as_slice()) {
            Err(e) => {
                return Err(e);
            },
            Ok(()) => {},
        }
        let inode_buf = inode_sectors(&self.inodes);
        proof {
            lemma_inode_slots_len(self.inodes@, 32);
        }
        write_run(cache, disk, 8, 64, inode_buf.as_slice())
    }

    /// Add entry `name` for inode `inode_num` at the end of the root
    /// directory, grow the root inode's size, and write the state back.
    pub fn add_to_root(&mut self, name: &str, inode_num: u32, is_dir: bool, cache: &mut BufferCache, disk: &mut IdeDisk) -> (r: Result<u32, &'static str>)
        requires
            old(self).wf(),
            old(cache).coherent(old(disk)),
            old(disk).wf(),
            flush_computable(old(self)),
        ensures
            final(self).wf(),
            final(cache).coherent(final(disk)),
            final(disk).wf(),
            final(disk).total_view() == old(disk).total_view(),
            final(self).sb == old(self).sb && final(self).mounted == old(self).mounted && final(self).bitmap@ == old(self).bitmap@,
            old(self).root_dir_count >= ROOT_SLOTS ==> r == Err::<u32, &'static str>("root directory full") && *final(self) == *old(self)
                && final(disk).contents() == old(disk).contents(),
            old(self).root_dir_count < ROOT_SLOTS ==> {
                let c = old(self).root_dir_count as int;
                &&& final(self).root_dir_count == c + 1
                &&& entry_named(final(self).root_dir@[c], old(self).root_dir@[c], name.spec_bytes(), inode_num, is_dir)
                &&& forall|k: int| 0 <= k < ROOT_SLOTS && k != c ==> #[trigger] final(self).root_dir@[k] == old(self).root_dir@[k]
                &&& final(self).inodes@ == old(self).inodes@.update(ROOT_INODE as int,
                    Inode { size: ((c + 1) * 64) as u32, ..old(self).inodes@[ROOT_INODE as int] })
                &&& (final(disk).contents(), r) == ({
                    let fl = flush_outcome(final(self), old(disk).contents(), old(disk).total_view() as int);
                    (fl.0, with_value(fl.1, inode_num))
                })
            },
    {
        if self.root_dir_count >= ROOT_SLOTS {
            return Err("root directory full");
        }
        let c = self.root_dir_count;
        let mut entry = self.root_dir[c];
        let nb = name.as_bytes();
        let len = if nb.len() < 55 { nb.len() } else { 55 };
        let ghost old_name = entry.name@;
        let mut i: usize = 0;
        while i < len
            invariant
                0 <= i <= len,
                len <= 55,
                len <= nb.len(),
                entry.name@.len() == 56,
                forall|k: int| 0 <= k < i ==> #[trigger] entry.name@[k] == nb@[k],
                forall|k: int| i <= k < 56 ==> #[trigger] entry.name@[k] == old_name[k],
            decreases len - i,
        {
            entry.name[i] = nb[i];
            i = i + 1;
        }
        entry.name[len] = 0;
        entry.inode = inode_num;
        entry.entry_type = if is_dir { 1 } else { 0 };
        entry._reserved = 0;
        proof {
            assert(entry.name@ =~= nb@.subrange(0, len as int) + seq![0u8] + old_name.subrange(len + 1, 56));
        }
        self.root_dir.set(c, entry);
        self.root_dir_count = c + 1;
        let mut root_inode = self.inodes[ROOT_INODE as usize];
        root_inode.size = ((c + 1) * 64) as u32;
        self.inodes.set(ROOT_INODE as usize, root_inode);
        match self.flush_root_dir(cache, disk) {
            Err(e) => Err(e),
            Ok(()) => Ok(inode_num),
        }
    }
}

proof fn lemma_words_len(bm: Seq<u64>, n: int)
    requires
        0 <= n,
    ensures
        words_bytes(bm, n).len() == 8 * n,
    decreases n,
{
    crate::bytes::lemma_enc_lens();
    if n > 0 {
        lemma_words_len(bm, n - 1);
    }
}

proof fn lemma_inode_slots_len(ins: Seq<Inode>, n: int)
    requires
        0 <= n,
        forall|k: int| 0 <= k < n ==> #[trigger] ins[k].direct_blocks@.len() == 10,
    ensures
        inode_slots(ins, n).len() == 1024 * n,
    decreases n,
{
    crate::bytes::lemma_enc_lens();
    if n > 0 {
        lemma_inode_slots_len(ins, n - 1);
        lemma_direct_len(ins[n - 1].direct_blocks@, 10);
    }
}

proof fn lemma_direct_len(d: Seq<u32>, n: int)
    requires
        0 <= n,
    ensures
        direct_bytes(d, n).len() == 4 * n,
    decreases n,
{
    crate::bytes::lemma_enc_lens();
    if n > 0 {
        lemma_direct_len(d, n - 1);
    }
}

/// What creating entry `name_b` with a fresh inode of mode `mode` does:
/// from state `o` and disk `img` to state `f`, disk `img2` and result `r`.
/// The checks come in order: mounted, name free, a free inode; the inode's
/// mode is set before the root directory is found full, if it is.
pub open spec fn create_effect(o: &ZohFs, f: &ZohFs, img: Seq<u8>, total: int, img2: Seq<u8>, r: Result<u32, &'static str>,
    name_b: Seq<u8>, mode: u16, is_dir: bool, exists: &'static str) -> bool
{
    let c = o.root_dir_count as int;
    if !o.mounted {
        r == Err::<u32, &'static str>("filesystem not mounted") && *f == *o && img2 == img
    } else if find_root(o.root_dir@, c, 0, name_b) is Some {
        r == Err::<u32, &'static str>(exists) && *f == *o && img2 == img
    } else if first_free_inode(o.inodes@, 1) is None {
        r == Err::<u32, &'static str>("no free inodes") && *f == *o && img2 == img
    } else {
        let i = first_free_inode(o.inodes@, 1).unwrap() as int;
        let mid = o.inodes@.update(i, Inode { mode: mode, size: 0, ..o.inodes@[i] });
        if c >= ROOT_SLOTS {
            &&& r == Err::<u32, &'static str>("root directory full")
            &&& f.inodes@ == mid
            &&& f.root_dir@ == o.root_dir@ && f.root_dir_count == o.root_dir_count
            &&& img2 == img
        } else {
            &&& f.root_dir_count == c + 1
            &&& entry_named(f.root_dir@[c], o.root_dir@[c], name_b, i as u32, is_dir)
            &&& forall|k: int| 0 <= k < ROOT_SLOTS && k != c ==> #[trigger] f.root_dir@[k] == o.root_dir@[k]
            &&& f.inodes@ == mid.update(ROOT_INODE as int, Inode { size: ((c + 1) * 64) as u32, ..mid[ROOT_INODE as int] })
            &&& (img2, r) == ({
                let fl = flush_outcome(f, img, total);
                (fl.0, with_value(fl.1, i as u32))
            })
        }
    }
}

impl ZohFs {
    /// Create entry `name` in the root directory with a fresh inode of
    /// mode `mode` (file or directory), refusing a name already there.
    fn create_entry(&mut self, name: &str, mode: u16, is_dir: bool, exists: &'static str, cache: &mut BufferCache, disk: &mut IdeDisk)
        -> (r: Result<u32, &'static str>)
        requires
            old(self).wf(),
            old(cache).coherent(old(disk)),
            old(disk).wf(),
            flush_computable(old(self)),
        ensures
            final(self).wf(),
            final(cache).coherent(final(disk)),
            final(disk).wf(),
            final(disk).total_view() == old(disk).total_view(),
            final(self).sb == old(self).sb && final(self).mounted == old(self).mounted && final(self).bitmap@ == old(self).bitmap@,
            create_effect(old(self), final(self), old(disk).contents(), old(disk).total_view() as int, final(disk).contents(), r,
                name.spec_bytes(), mode, is_dir, exists),
    {
        if !self.mounted {
            return Err("filesystem not mounted");
        }
        if self.find_in_root(name).is_some() {
            return Err(exists);
        }
        let inode_num = match self.alloc_inode() {
            Err(e) => {
                return Err(e);
            },
            Ok(n) => n,
        };
        proof {
            lemma_first_free_inode_range(self.inodes@, 1);
        }
        let mut node = self.inodes[inode_num as usize];
        node.mode = mode;
        node.size = 0;
        self.inodes.set(inode_num as usize, node);
        self.add_to_root(name, inode_num, is_dir, cache, disk)
    }

    /// Create an empty regular file `name` in the root directory.
    pub fn create_file(&mut self, name: &str, cache: &mut BufferCache, disk: &mut IdeDisk) -> (r: Result<u32, &'static str>)
        requires
            old(self).wf(),
            old(cache).coherent(old(disk)),
            old(disk).wf(),
            flush_computable(old(self)),
        ensures
            final(self).wf(),
            final(cache).coherent(final(disk)),
            final(disk).wf(),
            final(disk).total_view() == old(disk).total_view(),
            final(self).sb == old(self).sb && final(self).mounted == old(self).mounted && final(self).bitmap@ == old(self).bitmap@,
            create_effect(old(self), final(self), old(disk).contents(), old(disk).total_view() as int, final(disk).contents(), r,
                name.spec_bytes(), 0o100644, false, "file exists"),
    {
        self.create_entry(name, 0o100644, false, "file exists", cache, disk)
    }

    /// Create an empty directory `name` in the root directory.
    pub fn create_dir(&mut self, name: &str, cache: &mut BufferCache, disk: &mut IdeDisk) -> (r: Result<u32, &'static str>)
        requires
            old(self).wf(),
            old(cache).coherent(old(disk)),
            old(disk).wf(),
            flush_computable(old(self)),
        ensures
            final(self).wf(),
            final(cache).coherent(final(disk)),
            final(disk).wf(),
            final(disk).total_view() == old(disk).total_view(),
            final(self).sb == old(self).sb && final(self).mounted == old(self).mounted && final(self).bitmap@ == old(self).bitmap@,
            create_effect(old(self), final(self), old(disk).contents(), old(disk).total_view() as int, final(disk).contents(), r,
                name.spec_bytes(), 0o40755, true, "directory exists"),
    {
        self.create_entry(name, 0o40755, true, "directory exists", cache, disk)
    }
}

/// A free inode found lies in `[i, MAX_INODES)`.
pub proof fn lemma_first_free_inode_range(inodes: Seq<Inode>, i: int)
    ensures
        first_free_inode(inodes, i) matches Some(k) ==> i <= k < MAX_INODES && k < inodes.len(),
    decreases MAX_INODES - i,
{
    if 0 <= i < MAX_INODES && i < inodes.len() && inodes[i].mode != 0 {
        lemma_first_free_inode_range(inodes, i + 1);
    }
}

/// `new` is the root table `old` (of `c` entries in use) with entry `idx`
/// taken out: the later entries move down one slot, keeping their order,
/// and the slot freed at the end is cleared.
pub open spec fn root_slot_removed(old: Seq<DirEntry>, new: Seq<DirEntry>, idx: int, c: int) -> bool {
    &&& new.len() == old.len()
    &&& forall|k: int| 0 <= k < idx ==> #[trigger] new[k] == old[k]
    &&& forall|k: int| idx <= k < c - 1 ==> #[trigger] new[k] == old[k + 1]
    &&& dirent_cleared(new[c - 1])
    &&& forall|k: int| c <= k < old.len() ==> #[trigger] new[k] == old[k]
}

/// What deleting root entry `name_b` does: from state `o` and disk `img`
/// to state `f`, disk `img2` and result `r`. The entry is taken out of the
/// root table (the later entries move down) and the entry count lowered
/// by one, the root inode's size follows, then the
/// entry's inode gives back its blocks and is cleared, and the state is
/// written back.
pub open spec fn delete_effect(o: &ZohFs, f: &ZohFs, img: Seq<u8>, total: int, img2: Seq<u8>, r: Result<(), &'static str>, name_b: Seq<u8>)
    -> bool
{
    let c = o.root_dir_count as int;
    if !o.mounted {
        r == Err::<(), &'static str>("filesystem not mounted") && *f == *o && img2 == img
    } else {
        match find_root(o.root_dir@, c, 0, name_b) {
            None => r == Err::<(), &'static str>("file not found") && *f == *o && img2 == img,
            Some(idx) => {
                let ino = o.root_dir@[idx].inode as int;
                let mid = o.inodes@.update(ROOT_INODE as int, Inode { size: ((c - 1) * 64) as u32, ..o.inodes@[ROOT_INODE as int] });
                &&& root_slot_removed(o.root_dir@, f.root_dir@, idx, c)
                &&& f.root_dir_count == c - 1
                &&& f.mounted == o.mounted
                &&& if ino == 0 || ino >= MAX_INODES {
                    r == Err::<(), &'static str>("invalid inode") && f.inodes@ == mid && f.bitmap@ == o.bitmap@ && f.sb == o.sb
                        && img2 == img
                } else {
                    let cb = clear_blocks(o.bitmap@, o.sb.free_blocks as int, mid[ino].direct_blocks@, 0, used_direct(mid[ino]));
                    &&& f.bitmap@ == cb.0
                    &&& f.sb == (Superblock { free_blocks: cb.1 as u32, ..o.sb })
                    &&& inode_cleared(f.inodes@[ino])
                    &&& forall|k: int| 0 <= k < MAX_INODES && k != ino ==> #[trigger] f.inodes@[k] == mid[k]
                    &&& (img2, r) == flush_outcome(f, img, total)
                }
            },
        }
    }
}

/// Deleting needs the entry's blocks to have bitmap bits and the free
/// count not to pass 32 bits.
pub open spec fn delete_computable(o: &ZohFs, name_b: Seq<u8>) -> bool {
    match find_root(o.root_dir@, o.root_dir_count as int, 0, name_b) {
        None => true,
        Some(idx) => {
            let ino = o.root_dir@[idx].inode as int;
            0 < ino < MAX_INODES ==> {
                let n = o.inodes@[ino];
                &&& forall|k: int| 0 <= k < used_direct(n) ==> #[trigger] n.direct_blocks@[k] < 4096
                &&& o.sb.free_blocks + nonzero_count(n.direct_blocks@, 0, used_direct(n)) <= u32::MAX
            }
        },
    }
}

impl ZohFs {
    /// Take root entry `idx` (below the entry count) out of the table: the
    /// later entries in use move down one slot and the last one is cleared.
    fn remove_root_slot(&mut self, idx: usize)
        requires
            old(self).wf(),
            idx < old(self).root_dir_count,
        ensures
            final(self).wf(),
            root_slot_removed(old(self).root_dir@, final(self).root_dir@, idx as int, old(self).root_dir_count as int),
            final(self).root_dir_count == old(self).root_dir_count,
            final(self).sb == old(self).sb,
            final(self).mounted == old(self).mounted,
            final(self).bitmap@ == old(self).bitmap@,
            final(self).inodes@ == old(self).inodes@,
    {
        let c = self.root_dir_count;
        let mut k = idx;
        while k + 1 < c
            invariant
                self.wf(),
                idx <= k < c,
                c == old(self).root_dir_count,
                self.root_dir_count == c,
                self.sb == old(self).sb,
                self.mounted == old(self).mounted,
                self.bitmap@ == old(self).bitmap@,
                self.inodes@ == old(self).inodes@,
                forall|j: int| 0 <= j < idx ==> #[trigger] self.root_dir@[j] == old(self).root_dir@[j],
                forall|j: int| idx <= j < k ==> #[trigger] self.root_dir@[j] == old(self).root_dir@[j + 1],
                forall|j: int| k <= j < ROOT_SLOTS ==> #[trigger] self.root_dir@[j] == old(self).root_dir@[j],
            decreases c - k,
        {
            let next = self.root_dir[k + 1];
            self.root_dir.set(k, next);
            k = k + 1;
        }
        self.root_dir.set(k, DirEntry::zeroed());
    }

    /// Delete the root entry named `name` and free its inode and blocks.
    pub fn delete_file(&mut self, name: &str, cache: &mut BufferCache, disk: &mut IdeDisk) -> (r: Result<(), &'static str>)
        requires
            old(self).wf(),
            old(cache).coherent(old(disk)),
            old(disk).wf(),
            flush_computable(old(self)),
            delete_computable(old(self), name.spec_bytes()),
        ensures
            final(self).wf(),
            final(cache).coherent(final(disk)),
            final(disk).wf(),
            final(disk).total_view() == old(disk).total_view(),
            delete_effect(old(self), final(self), old(disk).contents(), old(disk).total_view() as int, final(disk).contents(), r,
                name.spec_bytes()),
    {
        if !self.mounted {
            return Err("filesystem not mounted");
        }
        let entry_idx = match self.find_in_root(name) {
            None => {
                return Err("file not found");
            },
            Some(i) => i,
        };
        proof {
            lemma_find_root_bounds(self.root_dir@, self.root_dir_count as int, 0, name.spec_bytes());
        }
        let inode_num = self.root_dir[entry_idx].inode;
        self.remove_root_slot(entry_idx);
        self.root_dir_count = self.root_dir_count - 1;
        let mut root_inode = self.inodes[ROOT_INODE as usize];
        root_inode.size = (self.root_dir_count * 64) as u32;
        self.inodes.set(ROOT_INODE as usize, root_inode);
        match self.free_inode_blocks(inode_num) {
            Err(e) => {
                return Err(e);
            },
            Ok(()) => {},
        }
        match self.free_inode(inode_num) {
            Err(e) => {
                return Err(e);
            },
            Ok(()) => {},
        }
        self.flush_root_dir(cache, disk)
    }
}

/// First data sector of a freshly made volume.
pub const MKFS_DATA_START: u32 = 72;

/// The blocks of a freshly made volume on a disk of `ts` sectors.
pub open spec fn mkfs_blocks(ts: int) -> int {
    (if ts > 72 { ts - 72 } else { 0 }) / 8
}

/// The superblock a fresh volume on a disk of `ts` sectors gets, as
/// stored: nine blocks (the system area) are not free.
pub open spec fn mkfs_sb_bytes(ts: int) -> Seq<u8> {
    enc32(ZOHFS_MAGIC as int) + enc32(ZOHFS_VERSION as int) + enc32(BLOCK_SIZE as int) + enc32(mkfs_blocks(ts))
        + enc32(MAX_INODES as int) + enc32(mkfs_blocks(ts) - 9) + enc32(ROOT_INODE as int)
        + enc32(1) + enc32(8) + enc32(MKFS_DATA_START as int) + enc32(0) + enc32(0) + enc32(0) + zeros(460)
}

/// Whether `n` is the root inode of a fresh volume: a directory with
/// block 1 as its one block.
pub open spec fn fresh_root(n: Inode) -> bool {
    &&& n.mode == 0o40755 && n.size == 0 && n.block_count == 1 && n.indirect_block == 0
    &&& n.direct_blocks@[0] == 1
    &&& forall|k: int| 1 <= k < DIRECT_BLOCKS ==> #[trigger] n.direct_blocks@[k] == 0
    &&& forall|k: int| 0 <= k < 2 ==> #[trigger] n._reserved@[k] == 0
}

impl ZohFs {
    /// Make a fresh volume on `disk`: write its superblock, a bitmap with
    /// the first ten blocks in use, an inode table holding only the root
    /// directory, and an empty root directory block. The in-memory tables
    /// are reset to match; the in-memory superblock and mount state stay.
    pub fn mkfs(&mut self, cache: &mut BufferCache, disk: &mut IdeDisk) -> (r: Result<(), &'static str>)
        requires
            old(self).wf(),
            old(cache).coherent(old(disk)),
            old(disk).wf(),
            old(disk).total_view() == 0 || old(disk).total_view() >= 144,
        ensures
            final(self).wf(),
            final(cache).coherent(final(disk)),
            final(disk).wf(),
            final(disk).total_view() == old(disk).total_view(),
            old(disk).total_view() == 0 ==> r == Err::<(), &'static str>("no disk present") && *final(self) == *old(self)
                && final(disk).contents() == old(disk).contents(),
            old(disk).total_view() > 0 ==> {
                let img = old(disk).contents();
                let total = old(disk).total_view() as int;
                &&& final(self).sb == old(self).sb && final(self).mounted == old(self).mounted
                &&& final(self).bitmap@[0] == 0x3FF
                &&& forall|k: int| 1 <= k < BITMAP_WORDS ==> #[trigger] final(self).bitmap@[k] == 0
                &&& fresh_root(final(self).inodes@[ROOT_INODE as int])
                &&& forall|k: int| 0 <= k < MAX_INODES && k != ROOT_INODE ==> #[trigger] inode_cleared(final(self).inodes@[k])
                &&& forall|k: int| 0 <= k < ROOT_SLOTS ==> #[trigger] dirent_cleared(final(self).root_dir@[k])
                &&& final(self).root_dir_count == 0
                &&& (final(disk).contents(), r) == ({
                    let w1 = run_write(img, total, 0, 1, mkfs_sb_bytes(total));
                    if w1.1 is Err {
                        w1
                    } else {
                        let w2 = run_write(w1.0, total, 1, 7, bitmap_bytes(final(self).bitmap@));
                        if w2.1 is Err {
                            w2
                        } else {
                            let w3 = run_write(w2.0, total, 8, 64, inode_table_bytes(final(self).inodes@));
                            if w3.1 is Err {
                                w3
                            } else {
                                run_write(w3.0, total, MKFS_DATA_START as int, 1, zeros(512))
                            }
                        }
                    }
                })
            },
    {
        if !disk.is_present() {
            return Err("no disk present");
        }
        let total_sectors = disk.total_sectors();
        let data_start: u32 = MKFS_DATA_START;
        let total_blocks = (if total_sectors > data_start { total_sectors - data_start } else { 0 }) / SECTORS_PER_BLOCK;
        let sb = Superblock {
            magic: ZOHFS_MAGIC,
            version: ZOHFS_VERSION,
            block_size: BLOCK_SIZE as u32,
            total_blocks,
            inode_count: MAX_INODES,
            free_blocks: total_blocks - data_start / SECTORS_PER_BLOCK,
            root_inode: ROOT_INODE,
            bitmap_start_sector: 1,
            inode_start_sector: 8,
            data_start_sector: data_start,
            _reserved: [0; 3],
        };
        let mut w: usize = 0;
        while w < BITMAP_WORDS
            invariant
                self.wf(),
                0 <= w <= BITMAP_WORDS,
                forall|k: int| 0 <= k < w ==> #[trigger] self.bitmap@[k] == 0,
                self.sb == old(self).sb && self.mounted == old(self).mounted,
                self.inodes@ == old(self).inodes@ && self.root_dir@ == old(self).root_dir@,
                self.root_dir_count == old(self).root_dir_count,
            decreases BITMAP_WORDS - w,
        {
            self.bitmap.set(w, 0);
            w = w + 1;
        }
        self.bitmap.set(0, 0x3FF);
        let mut i: usize = 0;
        while i < MAX_INODES as usize
            invariant
                self.wf(),
                0 <= i <= MAX_INODES,
                forall|k: int| 0 <= k < i ==> #[trigger] inode_cleared(self.inodes@[k]),
                self.bitmap@[0] == 0x3FF,
                forall|k: int| 1 <= k < BITMAP_WORDS ==> #[trigger] self.bitmap@[k] == 0,
                self.sb == old(self).sb && self.mounted == old(self).mounted,
            decreases MAX_INODES - i,
        {
            self.inodes.set(i, Inode::empty());
            i = i + 1;
        }
        let mut root = Inode::empty();
        root.set_dir();
        root.block_count = 1;
        root.direct_blocks[0] = 1;
        root.size = 0;
        self.inodes.set(ROOT_INODE as usize, root);
        let bit_word = self.bitmap[0] | (1u64 << 1u64);
        assert(0x3FFu64 | (1u64 << 1u64) == 0x3FFu64) by (bit_vector);
        self.bitmap.set(0, bit_word);
        let mut d: usize = 0;
        while d < ROOT_SLOTS
            invariant
                self.wf(),
                0 <= d <= ROOT_SLOTS,
                forall|k: int| 0 <= k < d ==> #[trigger] dirent_cleared(self.root_dir@[k]),
                fresh_root(self.inodes@[ROOT_INODE as int]),
                forall|k: int| 0 <= k < MAX_INODES && k != ROOT_INODE ==> #[trigger] inode_cleared(self.inodes@[k]),
                self.bitmap@[0] == 0x3FF,
                forall|k: int| 1 <= k < BITMAP_WORDS ==> #[trigger] self.bitmap@[k] == 0,
                self.sb == old(self).sb && self.mounted == old(self).mounted,
            decreases ROOT_SLOTS - d,
        {
            self.root_dir.set(d, DirEntry::zeroed());
            d = d + 1;
        }
        self.root_dir_count = 0;
        let sb_buf = sb_sector(&sb);
        proof {
            assert(sb_bytes(sb) =~= mkfs_sb_bytes(total_sectors as int));
        }
        match write_one(cache, disk, 0, &sb_buf) {
            Err(e) => {
                return Err(e);
            },
            Ok(()) => {},
        }
        let bitmap_buf = bitmap_sectors(&self.bitmap);
        proof {
            crate::bytes::lemma_enc_lens();
            lemma_words_len(self.bitmap@, 64);
        }
        match write_run(cache, disk, 1, 7, bitmap_buf.as_slice()) {
            Err(e) => {
                return Err(e);
            },
            Ok(()) => {},
        }
        let inode_buf = inode_sectors(&self.inodes);
        proof {
            lemma_inode_slots_len(self.inodes@, 32);
        }
        match write_run(cache, disk, 8, 64, inode_buf.as_slice()) {
            Err(e) => {
                return Err(e);
            },
            Ok(()) => {},
        }
        let empty = [0u8; 512];
        assert(empty@ =~= zeros(512));
        write_one(cache, disk, data_start, &empty)
    }
}

/// Whether `sb` is the superblock stored at the start of `b`.
pub open spec fn sb_decodes(sb: Superblock, b: Seq<u8>) -> bool {
    &&& sb.magic == le32(b, 0) && sb.version == le32(b, 4) && sb.block_size == le32(b, 8)
    &&& sb.total_blocks == le32(b, 12) && sb.inode_count == le32(b, 16) && sb.free_blocks == le32(b, 20)
    &&& sb.root_inode == le32(b, 24) && sb.bitmap_start_sector == le32(b, 28) && sb.inode_start_sector == le32(b, 32)
    &&& sb.data_start_sector == le32(b, 36)
    &&& sb._reserved@[0] == le32(b, 40) && sb._reserved@[1] == le32(b, 44) && sb._reserved@[2] == le32(b, 48)
}

/// Whether `n` is the inode stored at byte `o` of `b`.
pub open spec fn zinode_decodes(n: Inode, b: Seq<u8>, o: int) -> bool {
    &&& n.mode == le16(b, o) && n.size == le32(b, o + 4) && n.block_count == le32(b, o + 8)
    &&& forall|k: int| 0 <= k < DIRECT_BLOCKS ==> #[trigger] n.direct_blocks@[k] == le32(b, o + 12 + 4 * k)
    &&& n.indirect_block == le32(b, o + 52)
    &&& n._reserved@[0] == le32(b, o + 56) && n._reserved@[1] == le32(b, o + 60)
}

/// Whether `e` is the directory entry stored at byte `o` of `b`.
pub open spec fn dirent_decodes(e: DirEntry, b: Seq<u8>, o: int) -> bool {
    &&& e.inode == le32(b, o)
    &&& e.name@ == b.subrange(o + 4, o + 60)
    &&& e.entry_type == le16(b, o + 60) && e._reserved == le16(b, o + 62)
}

impl Superblock {
    /// Decode the superblock at the start of `b`.
    pub fn from_bytes(b: &[u8]) -> (sb: Self)
        requires
            b.len() >= 52,
        ensures
            sb_decodes(sb, b@),
    {
        Superblock {
            magic: read_u32_le(b, 0),
            version: read_u32_le(b, 4),
            block_size: read_u32_le(b, 8),
            total_blocks: read_u32_le(b, 12),
            inode_count: read_u32_le(b, 16),
            free_blocks: read_u32_le(b, 20),
            root_inode: read_u32_le(b, 24),
            bitmap_start_sector: read_u32_le(b, 28),
            inode_start_sector: read_u32_le(b, 32),
            data_start_sector: read_u32_le(b, 36),
            _reserved: [read_u32_le(b, 40), read_u32_le(b, 44), read_u32_le(b, 48)],
        }
    }
}

impl Inode {
    /// Decode the inode stored at byte `o` of `b`.
    pub fn from_bytes(b: &[u8], o: usize) -> (n: Self)
        requires
            o + 64 <= b.len(),
        ensures
            zinode_decodes(n, b@, o as int),
    {
        let mut direct = [0u32; 10];
        let mut k: usize = 0;
        while k < 10
            invariant
                0 <= k <= 10,
                o + 64 <= b.len(),
                direct@.len() == 10,
                forall|q: int| 0 <= q < k ==> #[trigger] direct@[q] == le32(b@, o + 12 + 4 * q),
            decreases 10 - k,
        {
            direct[k] = read_u32_le(b, o + 12 + 4 * k);
            k = k + 1;
        }
        Inode {
            mode: read_u16_le(b, o),
            size: read_u32_le(b, o + 4),
            block_count: read_u32_le(b, o + 8),
            direct_blocks: direct,
            indirect_block: read_u32_le(b, o + 52),
            _reserved: [read_u32_le(b, o + 56), read_u32_le(b, o + 60)],
        }
    }
}

impl DirEntry {
    /// Decode the directory entry stored at byte `o` of `b`.
    pub fn from_bytes(b: &[u8], o: usize) -> (e: Self)
        requires
            o + 64 <= b.len(),
        ensures
            dirent_decodes(e, b@, o as int),
    {
        let mut name = [0u8; 56];
        let mut k: usize = 0;
        while k < 56
            invariant
                0 <= k <= 56,
                o + 64 <= b.len(),
                name@.len() == 56,
                forall|q: int| 0 <= q < k ==> #[trigger] name@[q] == b@[o + 4 + q],
            decreases 56 - k,
        {
            name[k] = b[o + 4 + k];
            k = k + 1;
        }
        assert(name@ =~= b@.subrange(o + 4, o + 64 - 4));
        DirEntry { inode: read_u32_le(b, o), name, entry_type: read_u16_le(b, o + 60), _reserved: read_u16_le(b, o + 62) }
    }
}

/// Reading the root inode's first block needs a sector number that fits
/// in 32 bits, and the stored entry count (from the root size) may ask for
/// no more entries than that one sector holds.
pub open spec fn mount_computable(img: Seq<u8>, total: int) -> bool {
    let root = 4096 + 1024 * ROOT_INODE;
    (total >= 72 && le32(img, 0) == ZOHFS_MAGIC && le32(img, root + 8) > 0 && le32(img, root + 12) > 0) ==> {
        &&& le32(img, 36) + (le32(img, root + 12) - 1) * 8 <= u32::MAX
        &&& le32(img, root + 4) / 64 <= 8
    }
}

/// What mounting does from state `o` to `f` given disk image `img` of
/// `total` sectors, and its result `r`: no disk or no ZohFS magic leaves
/// all as it was; else the superblock is taken and the volume counts as
/// mounted, then the bitmap, the inode table and the root directory's
/// entries are read, a read past the disk stopping it.
pub open spec fn mount_effect(o: &ZohFs, f: &ZohFs, img: Seq<u8>, total: int, r: Result<(), &'static str>) -> bool {
    if total == 0 || le32(img, 0) != ZOHFS_MAGIC {
        r is Ok && *f == *o
    } else {
        &&& f.mounted
        &&& sb_decodes(f.sb, img)
        &&& if total < 8 {
            r == Err::<(), &'static str>("LBA out of range") && f.bitmap@ == o.bitmap@ && f.inodes@ == o.inodes@
                && f.root_dir@ == o.root_dir@ && f.root_dir_count == o.root_dir_count
        } else {
            &&& forall|i: int| 0 <= i < BITMAP_WORDS ==> #[trigger] f.bitmap@[i] == le64(img, 512 + 8 * i)
            &&& if total < 72 {
                r == Err::<(), &'static str>("LBA out of range") && f.inodes@ == o.inodes@ && f.root_dir@ == o.root_dir@
                    && f.root_dir_count == o.root_dir_count
            } else {
                &&& forall|i: int| 0 <= i < MAX_INODES ==> #[trigger] zinode_decodes(f.inodes@[i], img, 4096 + 1024 * i)
                &&& ({
                    let n1 = f.inodes@[ROOT_INODE as int];
                    if n1.block_count > 0 && n1.direct_blocks@[0] > 0 {
                        let sector = block_sector(f.sb, n1.direct_blocks@[0] as int);
                        if sector >= total {
                            r == Err::<(), &'static str>("LBA out of range") && f.root_dir@ == o.root_dir@
                                && f.root_dir_count == o.root_dir_count
                        } else {
                            let count = if n1.size / 64 < 64 { n1.size / 64 } else { 64 };
                            &&& r is Ok
                            &&& f.root_dir_count == count
                            &&& forall|i: int| 0 <= i < count ==> #[trigger] dirent_decodes(f.root_dir@[i], img, sector * 512 + 64 * i)
                            &&& forall|i: int| count <= i < ROOT_SLOTS ==> #[trigger] f.root_dir@[i] == o.root_dir@[i]
                        }
                    } else {
                        r is Ok && f.root_dir@ == o.root_dir@ && f.root_dir_count == o.root_dir_count
                    }
                })
            }
        }
    }
}

impl ZohFs {
    /// Mount the ZohFS volume on `disk`, if it holds one.
    pub fn init(&mut self, cache: &mut BufferCache, disk: &mut IdeDisk) -> (r: Result<(), &'static str>)
        requires
            old(self).wf(),
            old(cache).coherent(old(disk)),
            old(disk).wf(),
            mount_computable(old(disk).contents(), old(disk).total_view() as int),
        ensures
            final(self).wf(),
            final(cache).coherent(final(disk)),
            final(disk).wf(),
            final(disk).total_view() == old(disk).total_view(),
            final(disk).contents() == old(disk).contents(),
            mount_effect(old(self), final(self), old(disk).contents(), old(disk).total_view() as int, r),
    {
        let ghost img = disk.contents();
        let ghost total = disk.total_view() as int;
        if !disk.is_present() {
            return Ok(());
        }
        let mut buf = [0u8; 512];
        match cached_read(cache, disk, 0, &mut buf) {
            Err(e) => {
                return Err(e);
            },
            Ok(()) => {},
        }
        let sb = Superblock::from_bytes(buf.as_slice());
        proof {
            assert(sb_decodes(sb, img)) by {
                assert forall|k: int| 0 <= k < 52 implies #[trigger] buf@[k] == img[k] by {}
            }
        }
        if sb.magic != ZOHFS_MAGIC {
            return Ok(());
        }
        self.sb = sb;
        self.mounted = true;
        let mut bitmap_buf = crate::bytes::zeroed_vec(3584);
        match cached_read_sectors(cache, disk, 1, 7, bitmap_buf.as_mut_slice()) {
            Err(e) => {
                return Err(e);
            },
            Ok(()) => {},
        }
        proof {
            assert(bitmap_buf@.len() / 512 == 7);
        }
        let mut i: usize = 0;
        while i < BITMAP_WORDS
            invariant
                self.wf(),
                0 <= i <= BITMAP_WORDS,
                bitmap_buf@.len() == 3584,
                total >= 8,
                forall|j: int| 0 <= j < 3584 ==> #[trigger] bitmap_buf@[j] == img[512 + j],
                forall|k: int| 0 <= k < i ==> #[trigger] self.bitmap@[k] == le64(img, 512 + 8 * k),
                self.mounted && sb_decodes(self.sb, img),
                self.inodes@ == old(self).inodes@ && self.root_dir@ == old(self).root_dir@,
                self.root_dir_count == old(self).root_dir_count,
            decreases BITMAP_WORDS - i,
        {
            let word = read_u64_le(bitmap_buf.as_slice(), 8 * i);
            proof {
                assert forall|t: int| 0 <= t < 8 implies #[trigger] bitmap_buf@[8 * i + t] == img[512 + 8 * i + t] by {}
            }
            self.bitmap.set(i, word);
            i = i + 1;
        }
        let mut inode_buf = crate::bytes::zeroed_vec(32 * 1024);
        match cached_read_sectors(cache, disk, 8, 64, inode_buf.as_mut_slice()) {
            Err(e) => {
                return Err(e);
            },
            Ok(()) => {},
        }
        let mut k: usize = 0;
        while k < MAX_INODES as usize
            invariant
                self.wf(),
                0 <= k <= MAX_INODES,
                inode_buf@.len() == 32768,
                total >= 72,
                forall|j: int| 0 <= j < 32768 ==> #[trigger] inode_buf@[j] == img[4096 + j],
                forall|q: int| 0 <= q < k ==> #[trigger] zinode_decodes(self.inodes@[q], img, 4096 + 1024 * q),
                forall|q: int| 0 <= q < BITMAP_WORDS ==> #[trigger] self.bitmap@[q] == le64(img, 512 + 8 * q),
                self.mounted && sb_decodes(self.sb, img),
                self.root_dir@ == old(self).root_dir@,
                self.root_dir_count == old(self).root_dir_count,
            decreases MAX_INODES - k,
        {
            let n = Inode::from_bytes(inode_buf.as_slice(), k * 1024);
            proof {
                assert forall|t: int| 0 <= t < 64 implies #[trigger] inode_buf@[k * 1024 + t] == img[4096 + 1024 * k + t] by {}
                assert(zinode_decodes(n, img, 4096 + 1024 * k)) by {
                    assert forall|q: int| 0 <= q < DIRECT_BLOCKS implies #[trigger] n.direct_blocks@[q] == le32(img, 4096 + 1024 * k + 12 + 4 * q) by {
                        assert(inode_buf@[k * 1024 + 12 + 4 * q] == img[4096 + 1024 * k + 12 + 4 * q]);
                        assert(inode_buf@[k * 1024 + 12 + 4 * q + 1] == img[4096 + 1024 * k + 12 + 4 * q + 1]);
                        assert(inode_buf@[k * 1024 + 12 + 4 * q + 2] == img[4096 + 1024 * k + 12 + 4 * q + 2]);
                        assert(inode_buf@[k * 1024 + 12 + 4 * q + 3] == img[4096 + 1024 * k + 12 + 4 * q + 3]);
                    }
                }
            }
            self.inodes.set(k, n);
            k = k + 1;
        }
        let root = self.inodes[ROOT_INODE as usize];
        if root.block_count > 0 {
            let block = root.direct_blocks[0];
            if block > 0 {
                proof {
                    assert(zinode_decodes(self.inodes@[ROOT_INODE as int], img, 4096 + 1024 * ROOT_INODE));
                    assert(root.direct_blocks@[0] == le32(img, 4096 + 1024 * ROOT_INODE + 12 + 4 * 0));
                    assert(mount_computable(img, total));
                    assert(le32(img, 0) == ZOHFS_MAGIC);
                }
                let sector = self.sb.data_start_sector + (block - 1) * SECTORS_PER_BLOCK;
                let mut dir_buf = [0u8; 512];
                match cached_read(cache, disk, sector, &mut dir_buf) {
                    Err(e) => {
                        return Err(e);
                    },
                    Ok(()) => {},
                }
                let count = if (root.size as usize) / 64 < 64 { (root.size as usize) / 64 } else { 64 };
                self.root_dir_count = count;
                let mut d: usize = 0;
                while d < count
                    invariant
                        self.wf(),
                        0 <= d <= count,
                        count <= 8,
                        self.root_dir_count == count,
                        total >= 72,
                        root == self.inodes@[ROOT_INODE as int],
                        root.block_count > 0 && root.direct_blocks@[0] > 0,
                        sector == block_sector(self.sb, root.direct_blocks@[0] as int),
                        count == (if root.size / 64 < 64 { root.size / 64 } else { 64 }),
                        dir_buf@ == disk.sector(sector as int),
                        sector < total,
                        img == disk.contents(),
                        img.len() == total * 512,
                        forall|q: int| 0 <= q < d ==> #[trigger] dirent_decodes(self.root_dir@[q], img, sector * 512 + 64 * q),
                        forall|q: int| d <= q < ROOT_SLOTS ==> #[trigger] self.root_dir@[q] == old(self).root_dir@[q],
                        forall|q: int| 0 <= q < MAX_INODES ==> #[trigger] zinode_decodes(self.inodes@[q], img, 4096 + 1024 * q),
                        forall|q: int| 0 <= q < BITMAP_WORDS ==> #[trigger] self.bitmap@[q] == le64(img, 512 + 8 * q),
                        self.mounted && sb_decodes(self.sb, img),
                    decreases count - d,
                {
                    let e = DirEntry::from_bytes(dir_buf.as_slice(), d * 64);
                    proof {
                        assert(sector * 512 + 512 <= img.len()) by (nonlinear_arith)
                            requires
                                sector < total,
                                img.len() == total * 512,
                        ;
                        assert(e.name@ =~= img.subrange(sector * 512 + 64 * d + 4, sector * 512 + 64 * d + 60));
                    }
                    self.root_dir.set(d, e);
                    d = d + 1;
                }
            }
        }
        Ok(())
    }
}

/// Reading file bytes from byte `pos`, `got` of `want` already read,
/// through the inode's direct blocks `n`: the bytes and the error that
/// stopped the reading, if one did. A block index past the ten direct
/// blocks or a zero block number ends the file. `None` where a sector
/// number does not fit in 32 bits.
pub open spec fn zoh_read_from(sb: Superblock, n: Inode, img: Seq<u8>, total: int, pos: int, got: int, want: int)
    -> Option<(Seq<u8>, Option<&'static str>)>
    decreases want - got,
{
    if got >= want || pos < 0 {
        Some((Seq::empty(), None))
    } else {
        let bi = pos / 4096;
        if bi >= DIRECT_BLOCKS {
            Some((Seq::empty(), None))
        } else {
            let b = n.direct_blocks@[bi] as int;
            if b == 0 {
                Some((Seq::empty(), None))
            } else {
                let sector = block_sector(sb, b);
                if sector + 7 > u32::MAX {
                    None
                } else if sector + 8 > total {
                    Some((Seq::empty(), Some("LBA out of range")))
                } else {
                    let bo = pos % 4096;
                    let k = if want - got < 4096 - bo { want - got } else { 4096 - bo };
                    let data = img.subrange(sector * 512 + bo, sector * 512 + bo + k);
                    match zoh_read_from(sb, n, img, total, pos + k, got + k, want) {
                        None => None,
                        Some(rest) => Some((data + rest.0, rest.1)),
                    }
                }
            }
        }
    }
}

proof fn lemma_zoh_read_len(sb: Superblock, n: Inode, img: Seq<u8>, total: int, pos: int, got: int, want: int)
    requires
        zoh_read_from(sb, n, img, total, pos, got, want) is Some,
        img.len() == total * 512,
        got <= want,
    ensures
        got + zoh_read_from(sb, n, img, total, pos, got, want).unwrap().0.len() <= want,
    decreases want - got,
{
    if got < want && pos >= 0 && pos / 4096 < DIRECT_BLOCKS && n.direct_blocks@[pos / 4096] != 0 {
        let b = n.direct_blocks@[pos / 4096] as int;
        let sector = block_sector(sb, b);
        if sector + 8 <= total {
            let bo = pos % 4096;
            let k = if want - got < 4096 - bo { want - got } else { 4096 - bo };
            assert(sector >= 0);
            assert(sector * 512 + 4096 <= img.len()) by (nonlinear_arith)
                requires
                    sector + 8 <= total,
                    img.len() == total * 512,
            ;
            lemma_zoh_read_len(sb, n, img, total, pos + k, got + k, want);
        }
    }
}

impl ZohFs {
    /// Read bytes of file `inode_num` from byte `offset` into `buf`, as far
    /// as the file's size and `buf` go.
    pub fn read_file_data(&self, inode_num: u32, offset: usize, buf: &mut [u8], cache: &mut BufferCache, disk: &mut IdeDisk)
        -> (r: Result<usize, &'static str>)
        requires
            self.wf(),
            old(cache).coherent(old(disk)),
            old(disk).wf(),
            self.mounted && 0 < inode_num < MAX_INODES && self.inodes@[inode_num as int].mode & MODE_FILE != 0
                && offset < self.inodes@[inode_num as int].size ==> ({
                let n = self.inodes@[inode_num as int];
                let want = if old(buf)@.len() < n.size - offset { old(buf)@.len() as int } else { n.size - offset };
                zoh_read_from(self.sb, n, old(disk).contents(), old(disk).total_view() as int, offset as int, 0, want) is Some
            }),
        ensures
            final(cache).coherent(final(disk)),
            final(disk).contents() == old(disk).contents(),
            final(disk).total_view() == old(disk).total_view(),
            final(buf)@.len() == old(buf)@.len(),
            !self.mounted ==> r == Err::<usize, &'static str>("filesystem not mounted") && final(buf)@ == old(buf)@,
            self.mounted && (inode_num == 0 || inode_num >= MAX_INODES) ==> r == Err::<usize, &'static str>("invalid inode")
                && final(buf)@ == old(buf)@,
            self.mounted && 0 < inode_num < MAX_INODES ==> ({
                let n = self.inodes@[inode_num as int];
                if n.mode & MODE_FILE == 0 {
                    r == Err::<usize, &'static str>("not a file") && final(buf)@ == old(buf)@
                } else if offset >= n.size {
                    r == Ok::<usize, &'static str>(0) && final(buf)@ == old(buf)@
                } else {
                    let want = if old(buf)@.len() < n.size - offset { old(buf)@.len() as int } else { n.size - offset };
                    let o = zoh_read_from(self.sb, n, old(disk).contents(), old(disk).total_view() as int, offset as int, 0, want).unwrap();
                    &&& o.0.len() <= want
                    &&& final(buf)@ == o.0 + old(buf)@.subrange(o.0.len() as int, old(buf)@.len() as int)
                    &&& r == (match o.1 {
                        None => Ok::<usize, &'static str>(o.0.len() as usize),
                        Some(e) => Err(e),
                    })
                }
            }),
    {
        if !self.mounted {
            return Err("filesystem not mounted");
        }
        if inode_num == 0 || inode_num >= MAX_INODES {
            return Err("invalid inode");
        }
        let inode = self.inodes[inode_num as usize];
        if !inode.is_file() {
            return Err("not a file");
        }
        let file_size = inode.size as usize;
        if offset >= file_size {
            return Ok(0);
        }
        let ghost img = disk.contents();
        let ghost total = disk.total_view() as int;
        let ghost b0 = buf@;
        let available = file_size - offset;
        let to_read = if buf.len() < available { buf.len() } else { available };
        proof {
            lemma_zoh_read_len(self.sb, inode, img, total, offset as int, 0, to_read as int);
        }
        let ghost whole = zoh_read_from(self.sb, inode, img, total, offset as int, 0, to_read as int);
        let mut bytes_read: usize = 0;
        let mut pos = offset;
        let mut block_buf = crate::bytes::zeroed_vec(BLOCK_SIZE);
        while bytes_read < to_read
            invariant
                cache.coherent(disk),
                disk.wf(),
                img == disk.contents(),
                total == disk.total_view(),
                img == old(disk).contents(),
                total == old(disk).total_view(),
                self.wf(),
                self.mounted,
                0 < inode_num < MAX_INODES,
                inode == self.inodes@[inode_num as int],
                inode.mode & MODE_FILE != 0,
                offset < inode.size,
                to_read == (if b0.len() < inode.size - offset { b0.len() as int } else { inode.size - offset }),
                whole == zoh_read_from(self.sb, inode, img, total, offset as int, 0, to_read as int),
                b0 == old(buf)@,
                buf@.len() == b0.len(),
                block_buf@.len() == BLOCK_SIZE,
                to_read <= b0.len(),
                pos == offset + bytes_read,
                offset + to_read <= file_size,
                file_size == inode.size,
                bytes_read <= to_read,
                buf@.subrange(bytes_read as int, b0.len() as int) == b0.subrange(bytes_read as int, b0.len() as int),
                zoh_read_from(self.sb, inode, img, total, pos as int, bytes_read as int, to_read as int) is Some,
                whole == after_bytes(buf@.subrange(0, bytes_read as int), zoh_read_from(self.sb, inode, img, total, pos as int, bytes_read as int, to_read as int)),
            decreases to_read - bytes_read,
        {
            let block_idx = pos / BLOCK_SIZE;
            if block_idx >= DIRECT_BLOCKS {
                proof {
                    assert(buf@.subrange(0, bytes_read as int) + Seq::<u8>::empty() =~= buf@.subrange(0, bytes_read as int));
                    assert(buf@ =~= buf@.subrange(0, bytes_read as int) + b0.subrange(bytes_read as int, b0.len() as int));
                }
                return Ok(bytes_read);
            }
            let block_num = inode.direct_blocks[block_idx];
            if block_num == 0 {
                proof {
                    assert(buf@.subrange(0, bytes_read as int) + Seq::<u8>::empty() =~= buf@.subrange(0, bytes_read as int));
                    assert(buf@ =~= buf@.subrange(0, bytes_read as int) + b0.subrange(bytes_read as int, b0.len() as int));
                }
                return Ok(bytes_read);
            }
            let block_offset = pos % BLOCK_SIZE;
            let sector = self.sb.data_start_sector + (block_num - 1) * SECTORS_PER_BLOCK;
            match cached_read_sectors(cache, disk, sector, SECTORS_PER_BLOCK, block_buf.as_mut_slice()) {
                Err(e) => {
                    proof {
                        assert(buf@.subrange(0, bytes_read as int) + Seq::<u8>::empty() =~= buf@.subrange(0, bytes_read as int));
                        assert(buf@ =~= buf@.subrange(0, bytes_read as int) + b0.subrange(bytes_read as int, b0.len() as int));
                    }
                    return Err(e);
                },
                Ok(()) => {},
            }
            let n = if to_read - bytes_read < BLOCK_SIZE - block_offset { to_read - bytes_read } else { BLOCK_SIZE - block_offset };
            let ghost before = buf@;
            let mut k: usize = 0;
            while k < n
                invariant
                    0 <= k <= n,
                    bytes_read + n <= to_read,
                    to_read <= buf.len(),
                    block_offset + n <= BLOCK_SIZE,
                    block_buf@.len() == BLOCK_SIZE,
                    buf@.len() == before.len(),
                    forall|j: int| 0 <= j < BLOCK_SIZE ==> #[trigger] block_buf@[j] == img[sector * 512 + j],
                    forall|j: int| 0 <= j < buf@.len() && !(bytes_read <= j < bytes_read + k) ==> #[trigger] buf@[j] == before[j],
                    forall|j: int| bytes_read <= j < bytes_read + k ==> #[trigger] buf@[j] == img[sector * 512 + block_offset + (j - bytes_read)],
                decreases n - k,
            {
                buf[bytes_read + k] = block_buf[block_offset + k];
                k = k + 1;
            }
            proof {
                let piece = img.subrange(sector * 512 + block_offset, sector * 512 + block_offset + n);
                assert(sector * 512 + 4096 <= img.len()) by (nonlinear_arith)
                    requires
                        sector + 8 <= total,
                        img.len() == total * 512,
                ;
                assert(buf@.subrange(0, bytes_read + n) =~= before.subrange(0, bytes_read as int) + piece);
                assert(buf@.subrange(bytes_read + n, b0.len() as int) =~= b0.subrange(bytes_read + n, b0.len() as int)) by {
                    assert forall|j: int| bytes_read + n <= j < b0.len() implies buf@[j] == b0[j] by {
                        assert(before.subrange(bytes_read as int, b0.len() as int)[j - bytes_read] == b0.subrange(bytes_read as int, b0.len() as int)[j - bytes_read]);
                    }
                }
                match zoh_read_from(self.sb, inode, img, total, pos + n, bytes_read + n, to_read as int) {
                    Some(x) => {
                        assert(before.subrange(0, bytes_read as int) + (piece + x.0) =~= before.subrange(0, bytes_read as int) + piece + x.0);
                    },
                    None => {},
                }
            }
            bytes_read = bytes_read + n;
            pos = pos + n;
        }
        proof {
            assert(buf@.subrange(0, bytes_read as int) + Seq::<u8>::empty() =~= buf@.subrange(0, bytes_read as int));
            assert(buf@ =~= buf@.subrange(0, bytes_read as int) + b0.subrange(bytes_read as int, b0.len() as int));
        }
        Ok(bytes_read)
    }
}

/// `p` put in front of the bytes of a read outcome.
pub open spec fn after_bytes(p: Seq<u8>, o: Option<(Seq<u8>, Option<&'static str>)>) -> Option<(Seq<u8>, Option<&'static str>)> {
    match o {
        None => None,
        Some(x) => Some((p + x.0, x.1)),
    }
}

/// The state a file write works on: superblock, bitmap, the file's
/// direct blocks and block count, and the disk.
pub type WriteState = (Superblock, Seq<u64>, Seq<u32>, u32, Seq<u8>);

/// Writing `data` from byte `written` on at file byte `pos`: a missing
/// direct block is taken with `alloc_block` first, then the block is
/// read, changed and written back. Block indexes past the ten direct
/// blocks end the write. The state afterwards and the result; `None` where
/// the allocation would scan past the bitmap, a block number is 0, or a
/// sector number does not fit in 32 bits.
pub open spec fn zoh_write_from(st: WriteState, total: int, pos: int, data: Seq<u8>, written: int)
    -> Option<(WriteState, Result<usize, &'static str>)>
    decreases data.len() - written,
{
    let (sb, bm, direct, bc, img) = st;
    if written >= data.len() || pos < 0 || written < 0 {
        Some((st, Ok(written as usize)))
    } else {
        let bi = pos / 4096;
        if bi >= DIRECT_BLOCKS {
            Some((st, Ok(written as usize)))
        } else {
            let fresh = direct[bi] == 0;
            let alloc = first_free_block(bm, 0, sb.total_blocks as int);
            if fresh && !(sb.total_blocks <= 4096 || first_free_block(bm, 0, 4096) is Some) {
                None
            } else if fresh && alloc is None {
                Some((st, Err("no free blocks")))
            } else {
                let b = if fresh { alloc.unwrap() } else { direct[bi] as int };
                let sb1 = if fresh {
                    Superblock { free_blocks: if sb.free_blocks > 0 { (sb.free_blocks - 1) as u32 } else { 0 }, ..sb }
                } else {
                    sb
                };
                let bm1 = if fresh { bm.update(b / 64, bm[b / 64] | (1u64 << ((b % 64) as u64))) } else { bm };
                let direct1 = if fresh { direct.update(bi, b as u32) } else { direct };
                let bc1 = if fresh { (bi + 1) as u32 } else { bc };
                if b == 0 || block_sector(sb1, b) + 7 > u32::MAX {
                    None
                } else {
                    let sector = block_sector(sb1, b);
                    if sector + 8 > total {
                        Some(((sb1, bm1, direct1, bc1, img), Err("LBA out of range")))
                    } else {
                        let bo = pos % 4096;
                        let k = if data.len() - written < 4096 - bo { data.len() - written } else { 4096 - bo };
                        let blk = img.subrange(sector * 512, sector * 512 + 4096);
                        let nb = blk.subrange(0, bo) + data.subrange(written, written + k) + blk.subrange(bo + k, 4096);
                        let img1 = run_write(img, total, sector, 8, nb).0;
                        zoh_write_from((sb1, bm1, direct1, bc1, img1), total, pos + k, data, written + k)
                    }
                }
            }
        }
    }
}

/// A free block found lies in `[i, total)`.
pub proof fn lemma_first_free_block_range(bm: Seq<u64>, i: int, total: int)
    ensures
        first_free_block(bm, i, total) matches Some(k) ==> i <= k < total,
    decreases total - i,
{
    if 0 <= i < total && block_used(bm, i) {
        lemma_first_free_block_range(bm, i + 1, total);
    }
}

impl ZohFs {
    /// One step of a file write at byte `pos`: take the block if missing,
    /// then read it, put the data in and write it back. The count of bytes
    /// put in this block.
    fn write_step(&mut self, inode: &mut Inode, pos: usize, data: &[u8], written: usize, block_buf: &mut Vec<u8>,
        cache: &mut BufferCache, disk: &mut IdeDisk) -> (r: Result<usize, &'static str>)
        requires
            old(self).wf(),
            old(cache).coherent(old(disk)),
            old(disk).wf(),
            old(block_buf)@.len() == BLOCK_SIZE,
            written < data@.len(),
            pos + (data@.len() - written) <= usize::MAX,
            pos / 4096 < DIRECT_BLOCKS,
            zoh_write_from((old(self).sb, old(self).bitmap@, old(inode).direct_blocks@, old(inode).block_count, old(disk).contents()),
                old(disk).total_view() as int, pos as int, data@, written as int) is Some,
        ensures
            final(self).wf(),
            final(cache).coherent(final(disk)),
            final(disk).wf(),
            final(disk).total_view() == old(disk).total_view(),
            final(block_buf)@.len() == BLOCK_SIZE,
            final(self).mounted == old(self).mounted,
            final(self).inodes@ == old(self).inodes@,
            final(self).root_dir@ == old(self).root_dir@ && final(self).root_dir_count == old(self).root_dir_count,
            final(inode).mode == old(inode).mode && final(inode).size == old(inode).size,
            final(inode).indirect_block == old(inode).indirect_block && final(inode)._reserved == old(inode)._reserved,
            ({
                let before = zoh_write_from((old(self).sb, old(self).bitmap@, old(inode).direct_blocks@, old(inode).block_count, old(disk).contents()),
                    old(disk).total_view() as int, pos as int, data@, written as int);
                let st = (final(self).sb, final(self).bitmap@, final(inode).direct_blocks@, final(inode).block_count, final(disk).contents());
                match r {
                    Ok(k) => 0 < k && written + k <= data@.len()
                        && before == zoh_write_from(st, old(disk).total_view() as int, pos + k, data@, written + k),
                    Err(e) => before == Some((st, Err::<usize, &'static str>(e))),
                }
            }),
    {
        let ghost total = disk.total_view() as int;
        let ghost st0 = (self.sb, self.bitmap@, inode.direct_blocks@, inode.block_count, disk.contents());
        let block_idx = pos / BLOCK_SIZE;
        if inode.direct_blocks[block_idx] == 0 {
            proof {
                lemma_first_free_block_range(self.bitmap@, 0, self.sb.total_blocks as int);
            }
            let block_num = match self.alloc_block() {
                Err(e) => {
                    return Err(e);
                },
                Ok(b) => b,
            };
            inode.direct_blocks[block_idx] = block_num;
            inode.block_count = (block_idx + 1) as u32;
        }
        let block_num = inode.direct_blocks[block_idx];
        proof {
            let bi = block_idx as int;
            let fresh = st0.2[bi] == 0;
            let alloc = first_free_block(st0.1, 0, st0.0.total_blocks as int);
            let b = if fresh { alloc.unwrap() } else { st0.2[bi] as int };
            assert(block_num == b);
            assert(self.sb.data_start_sector == st0.0.data_start_sector);
            assert(b != 0 && block_sector(self.sb, b) + 7 <= u32::MAX);
        }
        let block_offset = pos % BLOCK_SIZE;
        let sector = self.sb.data_start_sector + (block_num - 1) * SECTORS_PER_BLOCK;
        let ghost img = disk.contents();
        match cached_read_sectors(cache, disk, sector, SECTORS_PER_BLOCK, block_buf.as_mut_slice()) {
            Err(e) => {
                return Err(e);
            },
            Ok(()) => {},
        }
        let n = if data.len() - written < BLOCK_SIZE - block_offset { data.len() - written } else { BLOCK_SIZE - block_offset };
        let ghost blk = block_buf@;
        let mut k: usize = 0;
        while k < n
            invariant
                0 <= k <= n,
                block_offset + n <= BLOCK_SIZE,
                written + n <= data.len(),
                block_buf@.len() == BLOCK_SIZE,
                forall|j: int| 0 <= j < BLOCK_SIZE && !(block_offset <= j < block_offset + k) ==> #[trigger] block_buf@[j] == blk[j],
                forall|j: int| block_offset <= j < block_offset + k ==> #[trigger] block_buf@[j] == data@[written + (j - block_offset)],
            decreases n - k,
        {
            block_buf.set(block_offset + k, data[written + k]);
            k = k + 1;
        }
        proof {
            assert(sector * 512 + 4096 <= img.len()) by (nonlinear_arith)
                requires
                    sector + 8 <= total,
                    img.len() == total * 512,
            ;
            assert(blk =~= img.subrange(sector * 512, sector * 512 + 4096));
            assert(block_buf@ =~= blk.subrange(0, block_offset as int) + data@.subrange(written as int, written + n)
                + blk.subrange(block_offset + n, 4096));
        }
        match write_run(cache, disk, sector, SECTORS_PER_BLOCK, block_buf.as_slice()) {
            Err(e) => {
                return Err(e);
            },
            Ok(()) => {},
        }
        Ok(n)
    }
}

impl ZohFs {
    /// Write `data` into file `inode_num` from byte `offset`, taking
    /// blocks as needed; the file grows to cover what was written.
    pub fn write_file_data(&mut self, inode_num: u32, offset: usize, data: &[u8], cache: &mut BufferCache, disk: &mut IdeDisk)
        -> (r: Result<usize, &'static str>)
        requires
            old(self).wf(),
            old(cache).coherent(old(disk)),
            old(disk).wf(),
            offset + data@.len() <= usize::MAX,
            old(self).mounted && 0 < inode_num < MAX_INODES && old(self).inodes@[inode_num as int].mode & MODE_FILE != 0 ==> ({
                let n = old(self).inodes@[inode_num as int];
                zoh_write_from((old(self).sb, old(self).bitmap@, n.direct_blocks@, n.block_count, old(disk).contents()),
                    old(disk).total_view() as int, offset as int, data@, 0) is Some
            }),
        ensures
            final(self).wf(),
            final(cache).coherent(final(disk)),
            final(disk).wf(),
            final(disk).total_view() == old(disk).total_view(),
            final(self).mounted == old(self).mounted,
            final(self).root_dir@ == old(self).root_dir@ && final(self).root_dir_count == old(self).root_dir_count,
            !old(self).mounted ==> r == Err::<usize, &'static str>("filesystem not mounted") && *final(self) == *old(self)
                && final(disk).contents() == old(disk).contents(),
            old(self).mounted && (inode_num == 0 || inode_num >= MAX_INODES) ==> r == Err::<usize, &'static str>("invalid inode")
                && *final(self) == *old(self) && final(disk).contents() == old(disk).contents(),
            old(self).mounted && 0 < inode_num < MAX_INODES ==> ({
                let n = old(self).inodes@[inode_num as int];
                if n.mode & MODE_FILE == 0 {
                    r == Err::<usize, &'static str>("not a file") && *final(self) == *old(self)
                        && final(disk).contents() == old(disk).contents()
                } else {
                    let o = zoh_write_from((old(self).sb, old(self).bitmap@, n.direct_blocks@, n.block_count, old(disk).contents()),
                        old(disk).total_view() as int, offset as int, data@, 0).unwrap();
                    &&& final(self).sb == o.0.0
                    &&& final(self).bitmap@ == o.0.1
                    &&& final(disk).contents() == o.0.4
                    &&& r == o.1
                    &&& match o.1 {
                        Ok(w) => {
                            let m = final(self).inodes@[inode_num as int];
                            &&& m.direct_blocks@ == o.0.2
                            &&& m.block_count == o.0.3
                            &&& m.size == (if offset + w > n.size { (offset + w) as u32 } else { n.size })
                            &&& m.mode == n.mode && m.indirect_block == n.indirect_block && m._reserved == n._reserved
                            &&& forall|k: int| 0 <= k < MAX_INODES && k != inode_num ==> #[trigger] final(self).inodes@[k] == old(self).inodes@[k]
                        },
                        Err(_) => final(self).inodes@ == old(self).inodes@,
                    }
                }
            }),
    {
        if !self.mounted {
            return Err("filesystem not mounted");
        }
        if inode_num == 0 || inode_num >= MAX_INODES {
            return Err("invalid inode");
        }
        let mut inode = self.inodes[inode_num as usize];
        if !inode.is_file() {
            return Err("not a file");
        }
        let ghost n0 = inode;
        let ghost total = disk.total_view() as int;
        let ghost answer = zoh_write_from((self.sb, self.bitmap@, n0.direct_blocks@, n0.block_count, disk.contents()), total, offset as int, data@, 0);
        let mut pos = offset;
        let mut written: usize = 0;
        let mut block_buf = crate::bytes::zeroed_vec(BLOCK_SIZE);
        while written < data.len()
            invariant_except_break
                zoh_write_from((self.sb, self.bitmap@, inode.direct_blocks@, inode.block_count, disk.contents()), total, pos as int, data@, written as int)
                    is Some,
                answer == zoh_write_from((self.sb, self.bitmap@, inode.direct_blocks@, inode.block_count, disk.contents()), total,
                    pos as int, data@, written as int),
            invariant
                self.wf(),
                cache.coherent(disk),
                disk.wf(),
                total == disk.total_view(),
                total == old(disk).total_view(),
                self.mounted == old(self).mounted,
                self.mounted,
                0 < inode_num < MAX_INODES,
                n0 == old(self).inodes@[inode_num as int],
                n0.mode & MODE_FILE != 0,
                answer == zoh_write_from((old(self).sb, old(self).bitmap@, n0.direct_blocks@, n0.block_count, old(disk).contents()), total,
                    offset as int, data@, 0),
                self.inodes@ == old(self).inodes@,
                self.root_dir@ == old(self).root_dir@ && self.root_dir_count == old(self).root_dir_count,
                inode.mode == n0.mode && inode.size == n0.size && inode.indirect_block == n0.indirect_block && inode._reserved == n0._reserved,
                block_buf@.len() == BLOCK_SIZE,
                pos == offset + written,
                written <= data.len(),
                offset + data@.len() <= usize::MAX,
            ensures
                answer == Some(((self.sb, self.bitmap@, inode.direct_blocks@, inode.block_count, disk.contents()), Ok::<usize, &'static str>(written))),
            decreases data.len() - written,
        {
            let block_idx = pos / BLOCK_SIZE;
            if block_idx >= DIRECT_BLOCKS {
                break;
            }
            let n = match self.write_step(&mut inode, pos, data, written, &mut block_buf, cache, disk) {
                Err(e) => {
                    return Err(e);
                },
                Ok(n) => n,
            };
            written = written + n;
            pos = pos + n;
        }
        let new_size = offset + written;
        if new_size > inode.size as usize {
            inode.size = new_size as u32;
        }
        self.inodes.set(inode_num as usize, inode);
        Ok(written)
    }
}

} // verus!
