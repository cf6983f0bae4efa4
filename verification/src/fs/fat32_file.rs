//! FAT32 file contents: following a file's cluster chain to read it.
use vstd::prelude::*;
use crate::bytes::zeroed_vec;
use crate::drivers::ide::IdeDisk;
use crate::fs::fat32::{Fat32Fs, FAT_EOC, cluster_image, cluster_lba, cluster_write, fat_set_outcome, free_cluster_from, alloc_outcome, lemma_free_cluster_range, fat_pos, fat_raw, fat_set, next_of, law_fat_set_reads_back};

verus! {

/// The first `n` bytes of cluster `c` in disk image `img`.
pub open spec fn cluster_prefix(fs: Fat32Fs, img: Seq<u8>, c: int, n: int) -> Seq<u8> {
    img.subrange(cluster_lba(fs, c) * 512, cluster_lba(fs, c) * 512 + n)
}

/// Disk image `img` with cluster `c` holding `data`, cut to the cluster
/// and zero-filled.
pub open spec fn with_cluster(fs: Fat32Fs, img: Seq<u8>, c: int, data: Seq<u8>) -> Seq<u8> {
    let a = cluster_lba(fs, c) * 512;
    let cs = fs.sectors_per_cluster * 512;
    img.subrange(0, a) + cluster_image(data, cs as int) + img.subrange(a + cs, img.len() as int)
}

/// Reading `want` bytes of the file whose chain starts at cluster `c`:
/// the bytes copied and the error that stopped the read, if one did.
/// `None` where a sector number or FAT offset on the way does not fit in
/// 32 bits.
pub open spec fn file_read(fs: Fat32Fs, img: Seq<u8>, total: int, c: int, want: int) -> Option<(Seq<u8>, Option<&'static str>)>
    decreases want,
{
    if want <= 0 {
        Some((Seq::empty(), None))
    } else if c < 2 {
        Some((Seq::empty(), Some("invalid cluster")))
    } else if fs.sectors_per_cluster == 0 || cluster_lba(fs, c) + fs.sectors_per_cluster > u32::MAX + 1 {
        None
    } else if cluster_lba(fs, c) + fs.sectors_per_cluster > total {
        Some((Seq::empty(), Some("LBA out of range")))
    } else if fat_pos(fs, c) + 4 > u32::MAX {
        None
    } else {
        let cs = fs.sectors_per_cluster * 512;
        let take = if want < cs { want } else { cs as int };
        let here = cluster_prefix(fs, img, c, take);
        match next_of(fs, img, total, c) {
            Err(e) => Some((here, Some(e))),
            Ok(n) => if n == 0 {
                Some((here, None))
            } else {
                match file_read(fs, img, total, n as int, want - take) {
                    None => None,
                    Some(rest) => Some((here + rest.0, rest.1)),
                }
            },
        }
    }
}

/// A read never copies more than it was asked for.
pub proof fn lemma_file_read_len(fs: Fat32Fs, img: Seq<u8>, total: int, c: int, want: int)
    requires
        file_read(fs, img, total, c, want) is Some,
        img.len() == total * 512,
    ensures
        file_read(fs, img, total, c, want).unwrap().0.len() <= (if want < 0 { 0 } else { want }),
    decreases want,
{
    if want > 0 && c >= 2 && fs.sectors_per_cluster != 0 {
        let cs = fs.sectors_per_cluster * 512;
        let take = if want < cs { want } else { cs as int };
        if cluster_lba(fs, c) + fs.sectors_per_cluster <= total && fat_pos(fs, c) + 4 <= u32::MAX {
            let a = cluster_lba(fs, c) * 512;
            assert(0 <= a && a + take <= img.len()) by (nonlinear_arith)
                requires
                    a == cluster_lba(fs, c) * 512,
                    cluster_lba(fs, c) == fs.data_start + (c - 2) * fs.sectors_per_cluster,
                    c >= 2,
                    cluster_lba(fs, c) + fs.sectors_per_cluster <= total,
                    img.len() == total * 512,
                    0 < take <= fs.sectors_per_cluster * 512,
            ;
            assert(cluster_prefix(fs, img, c, take).len() == take);
            match next_of(fs, img, total, c) {
                Ok(n) => if n != 0 {
                    lemma_file_read_len(fs, img, total, n as int, want - take);
                },
                Err(_) => {},
            }
        }
    }
}

/// `p` put in front of the bytes of a read outcome.
pub open spec fn after_prefix(p: Seq<u8>, o: Option<(Seq<u8>, Option<&'static str>)>) -> Option<(Seq<u8>, Option<&'static str>)> {
    match o {
        None => None,
        Some(x) => Some((p + x.0, x.1)),
    }
}

impl Fat32Fs {
    /// Read up to `size` bytes of the file starting at `start_cluster` into
    /// `buf` (no more than it holds), cluster after cluster along the
    /// chain. Returns the count of bytes copied; an error ends the read
    /// with the bytes before it already copied.
    pub fn read_file_data(&self, disk: &IdeDisk, start_cluster: u32, size: u32, buf: &mut [u8]) -> (r: Result<usize, &'static str>)
        requires
            self.wf(),
            disk.wf(),
            file_read(*self, disk.contents(), disk.total_view() as int, start_cluster as int,
                if old(buf)@.len() < size { old(buf)@.len() as int } else { size as int }) is Some,
        ensures
            final(buf)@.len() == old(buf)@.len(),
            ({
                let want = if old(buf)@.len() < size { old(buf)@.len() as int } else { size as int };
                let o = file_read(*self, disk.contents(), disk.total_view() as int, start_cluster as int, want).unwrap();
                &&& o.0.len() <= want
                &&& final(buf)@ == o.0 + old(buf)@.subrange(o.0.len() as int, old(buf)@.len() as int)
                &&& r == (match o.1 {
                    None => Ok::<usize, &'static str>(o.0.len() as usize),
                    Some(e) => Err(e),
                })
            }),
    {
        let ghost img = disk.contents();
        let ghost total = disk.total_view() as int;
        let ghost b0 = buf@;
        let ghost want: int = if b0.len() < size { b0.len() as int } else { size as int };
        proof {
            lemma_file_read_len(*self, img, total, start_cluster as int, want);
        }
        let cs = (self.sectors_per_sector() as usize) * 512;
        let mut cluster = start_cluster;
        let mut offset: usize = 0;
        let mut cluster_buf = zeroed_vec(cs);
        loop
            invariant
                self.wf(),
                disk.wf(),
                img == disk.contents(),
                total == disk.total_view(),
                b0 == old(buf)@,
                want == (if b0.len() < size { b0.len() as int } else { size as int }),
                cs == self.sectors_per_cluster * 512,
                cluster_buf@.len() == cs,
                0 <= offset <= want,
                buf@.len() == b0.len(),
                buf@.subrange(offset as int, b0.len() as int) == b0.subrange(offset as int, b0.len() as int),
                file_read(*self, img, total, start_cluster as int, want)
                    == after_prefix(buf@.subrange(0, offset as int), file_read(*self, img, total, cluster as int, want - offset)),
                file_read(*self, img, total, cluster as int, want - offset) is Some,
            decreases want - offset,
        {
            if !(offset < buf.len() && offset < size as usize) {
                proof {
                    assert(buf@.subrange(0, offset as int) + Seq::<u8>::empty() =~= buf@.subrange(0, offset as int));
                    assert(buf@ =~= buf@.subrange(0, offset as int) + b0.subrange(offset as int, b0.len() as int));
                }
                return Ok(offset);
            }
            let ghost rest_want = want - offset;
            match self.read_cluster(disk, cluster, cluster_buf.as_mut_slice()) {
                Err(e) => {
                    proof {
                        assert(buf@.subrange(0, offset as int) + Seq::<u8>::empty() =~= buf@.subrange(0, offset as int));
                        assert(buf@ =~= buf@.subrange(0, offset as int) + b0.subrange(offset as int, b0.len() as int));
                    }
                    return Err(e);
                },
                Ok(()) => {},
            }
            let remaining = if size as usize - offset < cs { size as usize - offset } else { cs };
            let to_copy = if remaining < buf.len() - offset { remaining } else { buf.len() - offset };
            let ghost first = cluster_lba(*self, cluster as int);
            proof {
                assert(to_copy as int == (if rest_want < cs { rest_want } else { cs as int }));
            }
            let ghost before = buf@;
            let mut k: usize = 0;
            while k < to_copy
                invariant
                    0 <= k <= to_copy,
                    offset + to_copy <= b0.len(),
                    offset + to_copy <= buf.len(),
                    to_copy <= cs,
                    cluster_buf@.len() == cs,
                    buf@.len() == b0.len(),
                    forall|j: int| 0 <= j < cs ==> #[trigger] cluster_buf@[j] == img[first * 512 + j],
                    forall|j: int| 0 <= j < b0.len() && !(offset <= j < offset + k) ==> #[trigger] buf@[j] == before[j],
                    forall|j: int| offset <= j < offset + k ==> #[trigger] buf@[j] == img[first * 512 + (j - offset)],
                decreases to_copy - k,
            {
                buf[offset + k] = cluster_buf[k];
                k = k + 1;
            }
            let ghost here = cluster_prefix(*self, img, cluster as int, to_copy as int);
            let ghost pre = before.subrange(0, offset as int);
            proof {
                assert(buf@.subrange(0, offset + to_copy) =~= pre + here);
                assert(buf@.subrange(offset + to_copy, b0.len() as int) =~= b0.subrange(offset + to_copy, b0.len() as int)) by {
                    assert forall|j: int| offset + to_copy <= j < b0.len() implies buf@[j] == b0[j] by {
                        assert(before.subrange(offset as int, b0.len() as int)[j - offset] == b0.subrange(offset as int, b0.len() as int)[j - offset]);
                    }
                }
            }
            offset = offset + to_copy;
            let next = self.next_cluster(disk, cluster);
            match next {
                Err(e) => {
                    proof {
                        assert(file_read(*self, img, total, cluster as int, rest_want) == Some((here, Some(e))));
                        assert(buf@ =~= buf@.subrange(0, offset as int) + b0.subrange(offset as int, b0.len() as int));
                    }
                    return Err(e);
                },
                Ok(n) => {
                    if n == 0 {
                        proof {
                            assert(file_read(*self, img, total, cluster as int, rest_want) == Some((here, None::<&'static str>)));
                            assert(buf@ =~= buf@.subrange(0, offset as int) + b0.subrange(offset as int, b0.len() as int));
                        }
                        return Ok(offset);
                    }
                    proof {
                        let fr = file_read(*self, img, total, n as int, want - offset);
                        assert(file_read(*self, img, total, cluster as int, rest_want) == after_prefix(here, fr));
                        match fr {
                            Some(x) => {
                                assert(pre + here + x.0 =~= pre + (here + x.0));
                            },
                            None => {},
                        }
                    }
                    cluster = n;
                },
            }
        }
    }
}

/// Following the chain from cluster `c` for at most `fuel` links: the
/// cluster whose entry ends the chain, or the error met on the way.
/// `None` when the fuel runs out or a FAT offset does not fit in 32 bits.
pub open spec fn last_of(fs: Fat32Fs, img: Seq<u8>, total: int, c: int, fuel: nat) -> Option<Result<u32, &'static str>>
    decreases fuel,
{
    if fuel == 0 || fat_pos(fs, c) + 4 > u32::MAX {
        None
    } else {
        match next_of(fs, img, total, c) {
            Err(e) => Some(Err(e)),
            Ok(n) => if n == 0 {
                Some(Ok(c as u32))
            } else {
                last_of(fs, img, total, n as int, (fuel - 1) as nat)
            },
        }
    }
}

/// Any two fuels that reach the end of the chain give the same answer.
pub proof fn lemma_last_of_unique(fs: Fat32Fs, img: Seq<u8>, total: int, c: int, f1: nat, f2: nat)
    requires
        last_of(fs, img, total, c, f1) is Some,
        last_of(fs, img, total, c, f2) is Some,
    ensures
        last_of(fs, img, total, c, f1) == last_of(fs, img, total, c, f2),
    decreases f1,
{
    match next_of(fs, img, total, c) {
        Ok(n) => if n != 0 {
            lemma_last_of_unique(fs, img, total, n as int, (f1 - 1) as nat, (f2 - 1) as nat);
        },
        Err(_) => {},
    }
}

impl Fat32Fs {
    /// The last cluster of the chain through `start_cluster`: the one
    /// whose FAT entry ends the chain.
    pub fn last_cluster(&self, disk: &IdeDisk, start_cluster: u32) -> (r: Result<u32, &'static str>)
        requires
            self.wf(),
            disk.wf(),
            exists|k: nat| #[trigger] last_of(*self, disk.contents(), disk.total_view() as int, start_cluster as int, k) is Some,
        ensures
            forall|k: nat| #[trigger] last_of(*self, disk.contents(), disk.total_view() as int, start_cluster as int, k) is Some
                ==> r == last_of(*self, disk.contents(), disk.total_view() as int, start_cluster as int, k).unwrap(),
    {
        let ghost img = disk.contents();
        let ghost total = disk.total_view() as int;
        let ghost k0: nat = choose|k: nat| #[trigger] last_of(*self, img, total, start_cluster as int, k) is Some;
        let ghost mut fuel: nat = k0;
        let ghost answer = last_of(*self, img, total, start_cluster as int, k0);
        proof {
            assert forall|k: nat| #[trigger] last_of(*self, img, total, start_cluster as int, k) is Some implies
                last_of(*self, img, total, start_cluster as int, k) == answer by {
                lemma_last_of_unique(*self, img, total, start_cluster as int, k, k0);
            }
        }
        let mut cluster = start_cluster;
        loop
            invariant
                self.wf(),
                disk.wf(),
                img == disk.contents(),
                total == disk.total_view(),
                last_of(*self, img, total, cluster as int, fuel) is Some,
                last_of(*self, img, total, cluster as int, fuel) == answer,
                forall|k: nat| #[trigger] last_of(*self, img, total, start_cluster as int, k) is Some ==>
                    last_of(*self, img, total, start_cluster as int, k) == answer,
            decreases fuel,
        {
            match self.next_cluster(disk, cluster) {
                Err(e) => {
                    return Err(e);
                },
                Ok(next) => {
                    if next == 0 {
                        return Ok(cluster);
                    }
                    cluster = next;
                    proof {
                        fuel = (fuel - 1) as nat;
                    }
                },
            }
        }
    }
}

/// Whether following cluster `d`'s entry leads to another cluster.
pub open spec fn links_on(fs: Fat32Fs, img: Seq<u8>, total: int, d: int) -> bool {
    next_of(fs, img, total, d) matches Ok(n) && n != 0
}

/// How many clusters in `[lo, hi)` link on to another.
pub open spec fn live_count(fs: Fat32Fs, img: Seq<u8>, total: int, lo: int, hi: int) -> nat
    decreases hi - lo,
{
    if lo >= hi {
        0
    } else {
        (if links_on(fs, img, total, lo) { 1nat } else { 0nat }) + live_count(fs, img, total, lo + 1, hi)
    }
}

/// Freeing a cluster that linked on leaves one fewer such cluster.
pub proof fn lemma_live_drop(fs: Fat32Fs, img: Seq<u8>, total: int, c: int, lo: int, hi: int)
    requires
        fs.wf(),
        img.len() == total * 512,
        crate::fs::fat32::copies_on(fs, c, total),
        0 <= c < fs.fat_size * 128,
        0 <= lo,
        hi <= fs.fat_size * 128,
        links_on(fs, img, total, c),
    ensures
        live_count(fs, fat_set(fs, img, c, 0), total, lo, hi) + (if lo <= c < hi { 1int } else { 0int })
            == live_count(fs, img, total, lo, hi),
    decreases hi - lo,
{
    if lo < hi {
        lemma_live_drop(fs, img, total, c, lo + 1, hi);
        let img2 = fat_set(fs, img, c, 0);
        if fat_pos(fs, lo) / 512 >= total {
            assert(!links_on(fs, img2, total, lo) && !links_on(fs, img, total, lo));
            assert(lo != c) by (nonlinear_arith)
                requires
                    fat_pos(fs, lo) / 512 >= total,
                    fat_pos(fs, c) / 512 + (fs.num_fats - 1) * fs.fat_size < total,
                    fat_pos(fs, lo) == fs.reserved_sectors * 512 + lo * 4,
                    fat_pos(fs, c) == fs.reserved_sectors * 512 + c * 4,
                    fs.num_fats >= 1,
                    fs.fat_size >= 1,
            ;
        } else {
            law_fat_set_reads_back(fs, img, total, c, 0, lo);
            if lo == c {
                assert(0u32 & 0x0FFF_FFFFu32 == 0u32) by (bit_vector);
                assert(fat_raw(fs, img2, c) == 0);
                assert(!links_on(fs, img2, total, lo));
            } else {
                assert(next_of(fs, img2, total, lo) == next_of(fs, img, total, lo));
            }
        }
    }
}

/// Freeing the chain from cluster `c`: the disk image afterwards and the
/// outcome. Clusters outside `[2, total_clusters)` end the walk.
pub open spec fn chain_freed(fs: Fat32Fs, img: Seq<u8>, total: int, c: int) -> (Seq<u8>, Result<(), &'static str>)
    decreases live_count(fs, img, total, 2, fs.total_clusters as int),
{
    if !(fs.wf() && img.len() == total * 512) || c < 2 || c >= fs.total_clusters {
        (img, Ok(()))
    } else {
        match next_of(fs, img, total, c) {
            Err(e) => (img, Err(e)),
            Ok(n) => {
                let s = fat_set_outcome(fs, img, total, c, 0);
                if s.1 is Err {
                    s
                } else if n == 0 || n >= FAT_EOC {
                    s
                } else {
                    proof {
                        crate::fs::fat32::lemma_set_ok_copies_on(fs, img, total, c, 0);
                        lemma_live_drop(fs, img, total, c, 2, fs.total_clusters as int);
                    }
                    chain_freed(fs, s.0, total, n as int)
                }
            },
        }
    }
}

impl Fat32Fs {
    /// Free every cluster of the chain from `start_cluster`, following
    /// links while they stay within `[2, total_clusters)`.
    pub fn free_cluster_chain(&self, disk: &mut IdeDisk, start_cluster: u32) -> (r: Result<(), &'static str>)
        requires
            self.wf(),
            old(disk).wf(),
        ensures
            final(disk).wf(),
            final(disk).total_view() == old(disk).total_view(),
            (final(disk).contents(), r) == chain_freed(*self, old(disk).contents(), old(disk).total_view() as int, start_cluster as int),
    {
        let ghost total = disk.total_view() as int;
        let mut cluster = start_cluster;
        loop
            invariant
                self.wf(),
                disk.wf(),
                total == disk.total_view(),
                total == old(disk).total_view(),
                chain_freed(*self, old(disk).contents(), total, start_cluster as int)
                    == chain_freed(*self, disk.contents(), total, cluster as int),
            decreases live_count(*self, disk.contents(), total, 2, self.total_clusters as int),
        {
            if cluster < 2 || cluster >= self.total_clusters {
                return Ok(());
            }
            let ghost img = disk.contents();
            let next = match self.next_cluster(disk, cluster) {
                Err(e) => {
                    return Err(e);
                },
                Ok(n) => n,
            };
            proof {
                assert(fat_pos(*self, cluster as int) / 512 + (self.num_fats - 1) * self.fat_size <= self.data_start) by (nonlinear_arith)
                    requires
                        fat_pos(*self, cluster as int) == self.reserved_sectors * 512 + cluster * 4,
                        cluster < self.fat_size * 128,
                        self.data_start == self.reserved_sectors + self.num_fats * self.fat_size,
                        self.num_fats >= 1,
                ;
            }
            match self.free_cluster(disk, cluster) {
                Err(e) => {
                    return Err(e);
                },
                Ok(()) => {},
            }
            if next == 0 || next >= FAT_EOC {
                return Ok(());
            }
            proof {
                crate::fs::fat32::lemma_set_ok_copies_on(*self, img, total, cluster as int, 0);
                lemma_live_drop(*self, img, total, cluster as int, 2, self.total_clusters as int);
            }
            cluster = next;
        }
    }
}

/// Walking the chain from cluster `c` to the cluster holding byte `pos`:
/// that cluster and the byte's place in it, or the error met. `None`
/// where a FAT offset does not fit in 32 bits.
pub open spec fn seek(fs: Fat32Fs, img: Seq<u8>, total: int, c: int, pos: int) -> Option<Result<(int, int), &'static str>>
    decreases pos,
{
    let cs = fs.sectors_per_cluster * 512;
    if cs == 0 {
        None
    } else if pos < cs {
        Some(Ok((c, pos)))
    } else if fat_pos(fs, c) + 4 > u32::MAX {
        None
    } else {
        match next_of(fs, img, total, c) {
            Err(e) => Some(Err(e)),
            Ok(n) => if n == 0 {
                Some(Err("offset beyond file"))
            } else {
                seek(fs, img, total, n as int, pos - cs)
            },
        }
    }
}

/// The count on success, the error otherwise.
pub open spec fn lift_count(r: Result<(), &'static str>, n: usize) -> Result<usize, &'static str> {
    match r {
        Ok(_) => Ok(n),
        Err(e) => Err(e),
    }
}

/// Writing `data` from byte `written` on into the chain, at byte `pos` of
/// cluster `c`: each cluster is read, changed and written back; at the
/// end of the chain the lowest free cluster is linked after it and marked
/// as the end. The disk afterwards and the outcome; `None` where a sector
/// number or FAT offset does not fit in 32 bits.
pub open spec fn write_from(fs: Fat32Fs, img: Seq<u8>, total: int, c: int, pos: int, data: Seq<u8>, written: int)
    -> Option<(Seq<u8>, Result<usize, &'static str>)>
    decreases data.len() - written,
{
    let cs = fs.sectors_per_cluster * 512;
    if written >= data.len() || written < 0 {
        Some((img, Ok(written as usize)))
    } else if c < 2 {
        Some((img, Err("invalid cluster")))
    } else if cs == 0 || pos < 0 || pos >= cs || cluster_lba(fs, c) + fs.sectors_per_cluster > u32::MAX + 1 {
        None
    } else if cluster_lba(fs, c) + fs.sectors_per_cluster > total {
        Some((img, Err("LBA out of range")))
    } else {
        let d = cluster_prefix(fs, img, c, cs as int);
        let n = if data.len() - written < cs - pos { data.len() - written } else { cs - pos };
        let nd = d.subrange(0, pos) + data.subrange(written, written + n) + d.subrange(pos + n, cs as int);
        let w = cluster_write(fs, img, total, c, nd);
        let wr = written + n;
        if w.1 is Err {
            Some((w.0, lift_count(w.1, 0)))
        } else if wr >= data.len() {
            Some((w.0, Ok(wr as usize)))
        } else if fat_pos(fs, c) + 4 > u32::MAX {
            None
        } else {
            match next_of(fs, w.0, total, c) {
                Err(e) => Some((w.0, Err(e))),
                Ok(nx) => if nx != 0 {
                    write_from(fs, w.0, total, nx as int, 0, data, wr)
                } else {
                    match append_outcome(fs, w.0, total, c) {
                        None => None,
                        Some(x) => match x.1 {
                            Err(e) => Some((x.0, Err(e))),
                            Ok(nc) => write_from(fs, x.0, total, nc as int, 0, data, wr),
                        },
                    }
                },
            }
        }
    }
}

/// Adding a cluster after cluster `c`, the end of its chain: the lowest
/// free cluster is linked after `c` and marked as the end. The disk
/// afterwards and the new cluster, or the error; `None` where a FAT offset
/// of `c` does not fit in 32 bits.
pub open spec fn append_outcome(fs: Fat32Fs, img: Seq<u8>, total: int, c: int) -> Option<(Seq<u8>, Result<u32, &'static str>)> {
    match alloc_outcome(fs, img, total) {
        Err(e) => Some((img, Err(e))),
        Ok(nc) => if c * 4 > u32::MAX || fat_pos(fs, c) / 512 + (fs.num_fats - 1) * fs.fat_size > u32::MAX {
            None
        } else {
            let s2 = fat_set_outcome(fs, img, total, c, nc);
            match s2.1 {
                Err(e) => Some((s2.0, Err(e))),
                Ok(_) => {
                    let s3 = fat_set_outcome(fs, s2.0, total, nc as int, FAT_EOC);
                    match s3.1 {
                        Err(e) => Some((s3.0, Err(e))),
                        Ok(_) => Some((s3.0, Ok(nc))),
                    }
                },
            }
        },
    }
}

/// Writing `data` at byte `offset` of the file whose chain starts at
/// `start`: the disk afterwards and the count written or the error.
pub open spec fn fat_write(fs: Fat32Fs, img: Seq<u8>, total: int, start: int, offset: int, data: Seq<u8>)
    -> Option<(Seq<u8>, Result<usize, &'static str>)>
{
    match seek(fs, img, total, start, offset) {
        None => None,
        Some(Err(e)) => Some((img, Err(e))),
        Some(Ok(at)) => write_from(fs, img, total, at.0, at.1, data, 0),
    }
}

impl Fat32Fs {
    /// Link a new cluster (the lowest free one) after `c`, the end of its
    /// chain, and mark it as the end.
    fn append_cluster(&self, disk: &mut IdeDisk, c: u32) -> (r: Result<u32, &'static str>)
        requires
            self.wf(),
            old(disk).wf(),
            append_outcome(*self, old(disk).contents(), old(disk).total_view() as int, c as int) is Some,
        ensures
            final(disk).wf(),
            final(disk).total_view() == old(disk).total_view(),
            Some((final(disk).contents(), r)) == append_outcome(*self, old(disk).contents(), old(disk).total_view() as int, c as int),
            r matches Ok(nc) ==> 2 <= nc < self.total_clusters,
    {
        let ghost img1 = disk.contents();
        let new_cluster = match self.alloc_cluster(disk) {
            Err(e) => {
                return Err(e);
            },
            Ok(c) => c,
        };
        proof {
            lemma_free_cluster_range(*self, img1, 0, self.fat_size * 128);
        }
        match self.set_fat_entry(disk, c, new_cluster) {
            Err(e) => {
                return Err(e);
            },
            Ok(()) => {},
        }
        proof {
            assert(new_cluster * 4 <= u32::MAX && fat_pos(*self, new_cluster as int) / 512 + (self.num_fats - 1) * self.fat_size <= self.data_start)
                by (nonlinear_arith)
                requires
                    new_cluster < self.total_clusters,
                    self.total_clusters <= self.fat_size * 128,
                    self.reserved_sectors * 512 + self.fat_size * 512 <= u32::MAX,
                    fat_pos(*self, new_cluster as int) == self.reserved_sectors * 512 + new_cluster * 4,
                    self.data_start == self.reserved_sectors + self.num_fats * self.fat_size,
                    self.num_fats >= 1,
            ;
        }
        match self.mark_eoc(disk, new_cluster) {
            Err(e) => {
                return Err(e);
            },
            Ok(()) => {},
        }
        Ok(new_cluster)
    }

    /// Write `data` at byte `offset` of the file whose chain starts at
    /// `start_cluster`, adding clusters to the chain as needed. Returns
    /// the count of bytes written.
    #[verifier::rlimit(60)]
    pub fn write_file_data(&self, disk: &mut IdeDisk, start_cluster: u32, offset: usize, data: &[u8]) -> (r: Result<usize, &'static str>)
        requires
            self.wf(),
            old(disk).wf(),
            fat_write(*self, old(disk).contents(), old(disk).total_view() as int, start_cluster as int, offset as int, data@) is Some,
        ensures
            final(disk).wf(),
            final(disk).total_view() == old(disk).total_view(),
            Some((final(disk).contents(), r))
                == fat_write(*self, old(disk).contents(), old(disk).total_view() as int, start_cluster as int, offset as int, data@),
    {
        let ghost img0 = disk.contents();
        let ghost total = disk.total_view() as int;
        let ghost answer = fat_write(*self, img0, total, start_cluster as int, offset as int, data@);
        let cs = (self.sectors_per_sector() as usize) * 512;
        let mut cluster = start_cluster;
        let mut pos = offset;
        let mut written: usize = 0;
        while pos >= cs
            invariant
                self.wf(),
                disk.wf(),
                img0 == disk.contents(),
                total == disk.total_view(),
                cs == self.sectors_per_cluster * 512,
                seek(*self, img0, total, cluster as int, pos as int) is Some,
                seek(*self, img0, total, start_cluster as int, offset as int) == seek(*self, img0, total, cluster as int, pos as int),
                answer == fat_write(*self, img0, total, start_cluster as int, offset as int, data@),
            decreases pos,
        {
            match self.next_cluster(disk, cluster) {
                Err(e) => {
                    return Err(e);
                },
                Ok(next) => {
                    if next == 0 {
                        return Err("offset beyond file");
                    }
                    cluster = next;
                    pos = pos - cs;
                },
            }
        }
        while written < data.len()
            invariant
                self.wf(),
                disk.wf(),
                total == disk.total_view(),
                total == old(disk).total_view(),
                img0 == old(disk).contents(),
                cs == self.sectors_per_cluster * 512,
                pos < cs,
                written <= data.len(),
                write_from(*self, disk.contents(), total, cluster as int, pos as int, data@, written as int) is Some,
                answer == write_from(*self, disk.contents(), total, cluster as int, pos as int, data@, written as int),
                answer == fat_write(*self, img0, total, start_cluster as int, offset as int, data@),
            decreases data.len() - written,
        {
            let ghost img = disk.contents();
            let mut cluster_buf = zeroed_vec(cs);
            match self.read_cluster(disk, cluster, cluster_buf.as_mut_slice()) {
                Err(e) => {
                    return Err(e);
                },
                Ok(()) => {},
            }
            let ghost d = cluster_buf@;
            proof {
                assert(d =~= cluster_prefix(*self, img, cluster as int, cs as int));
            }
            let n = if data.len() - written < cs - pos { data.len() - written } else { cs - pos };
            let mut k: usize = 0;
            while k < n
                invariant
                    0 <= k <= n,
                    pos + n <= cs,
                    written + n <= data.len(),
                    cluster_buf@.len() == cs,
                    forall|j: int| 0 <= j < cs && !(pos <= j < pos + k) ==> #[trigger] cluster_buf@[j] == d[j],
                    forall|j: int| pos <= j < pos + k ==> #[trigger] cluster_buf@[j] == data@[written + (j - pos)],
                decreases n - k,
            {
                cluster_buf.set(pos + k, data[written + k]);
                k = k + 1;
            }
            proof {
                assert(cluster_buf@ =~= d.subrange(0, pos as int) + data@.subrange(written as int, written + n) + d.subrange(pos + n, cs as int));
            }
            match self.write_cluster(disk, cluster, cluster_buf.as_slice()) {
                Err(e) => {
                    return Err(e);
                },
                Ok(()) => {},
            }
            written = written + n;
            pos = 0;
            if written < data.len() {
                match self.next_cluster(disk, cluster) {
                    Err(e) => {
                        return Err(e);
                    },
                    Ok(next) => {
                        if next == 0 {
                            let new_cluster = match self.append_cluster(disk, cluster) {
                                Err(e) => {
                                    return Err(e);
                                },
                                Ok(c) => c,
                            };
                            cluster = new_cluster;
                        } else {
                            cluster = next;
                        }
                    },
                }
            }
        }
        Ok(written)
    }
}

} // verus!
