//! Buffer cache: a direct-mapped cache of disk sectors (sector n lives in
//! slot n % CACHE_SIZE). Writes go through to the disk, so every valid
//! slot holds exactly what the disk holds.
use vstd::prelude::*;
use crate::drivers::ide::{IdeDisk, SECTOR_SIZE, sector_bytes, with_sector};

verus! {

/// Number of cached sectors.
pub const CACHE_SIZE: usize = 64;

/// Metadata of one cache slot.
#[derive(Clone, Copy, PartialEq, Eq, Structural)]
pub struct CacheEntry {
    /// The sector held (u32::MAX when empty).
    pub sector: u32,
    pub valid: bool,
    /// Needs writing back before the slot is reused.
    pub dirty: bool,
}

pub open spec fn empty_entry() -> CacheEntry {
    CacheEntry { sector: u32::MAX, valid: false, dirty: false }
}

impl CacheEntry {
    /// An empty slot.
    pub fn empty() -> (e: Self)
        ensures
            e == empty_entry(),
    {
        CacheEntry { sector: u32::MAX, valid: false, dirty: false }
    }
}

/// Slot of sector `sector`.
pub open spec fn slot_of(sector: u32) -> int {
    sector as int % (CACHE_SIZE as int)
}

/// The sector cache and its counters.
pub struct BufferCache {
    data: Vec<u8>,
    entries: Vec<CacheEntry>,
    hits: usize,
    misses: usize,
    writes: usize,
}

impl BufferCache {
    pub closed spec fn entries_view(&self) -> Seq<CacheEntry> {
        self.entries@
    }

    /// The 512 bytes held in slot `s`.
    pub closed spec fn slot_data(&self, s: int) -> Seq<u8> {
        self.data@.subrange(s * 512, s * 512 + 512)
    }

    pub closed spec fn hits_view(&self) -> usize {
        self.hits
    }

    pub closed spec fn misses_view(&self) -> usize {
        self.misses
    }

    pub closed spec fn writes_view(&self) -> usize {
        self.writes
    }

    /// The buffers have their sizes, and no slot waits for a write-back:
    /// every write goes through to the disk at once.
    pub closed spec fn wf(&self) -> bool {
        &&& self.data@.len() == CACHE_SIZE * 512
        &&& self.entries@.len() == CACHE_SIZE
        &&& forall|s: int| 0 <= s < CACHE_SIZE ==> !(#[trigger] self.entries@[s]).dirty
    }

    /// Whether slot `s` waits for a write-back.
    pub open spec fn dirty_slot(&self, s: int) -> bool {
        self.entries_view()[s].valid && self.entries_view()[s].dirty
    }

    /// Every valid slot holds a sector of `disk` that maps to it, clean,
    /// with the disk's bytes.
    pub open spec fn coherent(&self, disk: &IdeDisk) -> bool {
        &&& self.wf()
        &&& disk.wf()
        &&& forall|s: int| 0 <= s < CACHE_SIZE && #[trigger] self.entries_view()[s].valid ==> {
            let e = self.entries_view()[s];
            &&& e.sector < disk.total_view()
            &&& slot_of(e.sector) == s
            &&& !e.dirty
            &&& self.slot_data(s) == disk.sector(e.sector as int)
        }
    }

    /// Whether the slot for `sector` holds it.
    pub open spec fn holds(&self, sector: u32) -> bool {
        self.entries_view()[slot_of(sector)].valid && self.entries_view()[slot_of(sector)].sector == sector
    }

    /// An empty cache.
    pub fn new() -> (c: Self)
        ensures
            c.wf(),
            forall|s: int| 0 <= s < CACHE_SIZE ==> #[trigger] c.entries_view()[s] == empty_entry(),
            c.hits_view() == 0 && c.misses_view() == 0 && c.writes_view() == 0,
    {
        let mut data: Vec<u8> = Vec::new();
        let mut i: usize = 0;
        while i < CACHE_SIZE * SECTOR_SIZE
            invariant
                0 <= i <= CACHE_SIZE * 512,
                data@.len() == i,
            decreases CACHE_SIZE * 512 - i,
        {
            data.push(0);
            i = i + 1;
        }
        let mut entries: Vec<CacheEntry> = Vec::new();
        let mut j: usize = 0;
        while j < CACHE_SIZE
            invariant
                0 <= j <= CACHE_SIZE,
                entries@.len() == j,
                forall|s: int| 0 <= s < j ==> #[trigger] entries@[s] == empty_entry(),
            decreases CACHE_SIZE - j,
        {
            entries.push(CacheEntry::empty());
            j = j + 1;
        }
        BufferCache { data, entries, hits: 0, misses: 0, writes: 0 }
    }

    /// Copy `buf` into slot `slot` and record it as holding `sector`, clean.
    fn fill_slot(&mut self, slot: usize, sector: u32, buf: &[u8; 512])
        requires
            old(self).wf(),
            slot < CACHE_SIZE,
        ensures
            final(self).wf(),
            final(self).entries_view() == old(self).entries_view().update(slot as int, CacheEntry { sector, valid: true, dirty: false }),
            final(self).slot_data(slot as int) == buf@,
            forall|s: int| 0 <= s < CACHE_SIZE && s != slot ==> #[trigger] final(self).slot_data(s) == old(self).slot_data(s),
            final(self).hits_view() == old(self).hits_view(),
            final(self).misses_view() == old(self).misses_view(),
            final(self).writes_view() == old(self).writes_view(),
    {
        let base = slot * SECTOR_SIZE;
        let mut i: usize = 0;
        while i < SECTOR_SIZE
            invariant
                base == slot * 512,
                slot < CACHE_SIZE,
                self.data@.len() == CACHE_SIZE * 512,
                self.entries@ == old(self).entries@,
                self.hits == old(self).hits && self.misses == old(self).misses && self.writes == old(self).writes,
                0 <= i <= 512,
                forall|k: int| 0 <= k < base ==> self.data@[k] == old(self).data@[k],
                forall|k: int| 0 <= k < i ==> self.data@[base + k] == buf@[k],
                forall|k: int| base + i <= k < CACHE_SIZE * 512 ==> self.data@[k] == old(self).data@[k],
            decreases 512 - i,
        {
            self.data.set(base + i, buf[i]);
            i = i + 1;
        }
        self.entries.set(slot, CacheEntry { sector, valid: true, dirty: false });
        assert(self.slot_data(slot as int) =~= buf@);
        assert forall|s: int| 0 <= s < CACHE_SIZE && s != slot implies #[trigger] self.slot_data(s) == old(self).slot_data(s) by {
            if s < slot {
                assert(s * 512 + 512 <= base) by (nonlinear_arith)
                    requires
                        s < slot,
                        base == slot * 512,
                ;
            } else {
                assert(base + 512 <= s * 512) by (nonlinear_arith)
                    requires
                        s > slot,
                        base == slot * 512,
                ;
            }
            assert(self.slot_data(s) =~= old(self).slot_data(s));
        }
    }

    /// Copy slot `slot` out into `buf`.
    fn copy_slot(&self, slot: usize, buf: &mut [u8; 512])
        requires
            self.wf(),
            slot < CACHE_SIZE,
        ensures
            final(buf)@ == self.slot_data(slot as int),
    {
        let base = slot * SECTOR_SIZE;
        let mut i: usize = 0;
        while i < SECTOR_SIZE
            invariant
                base == slot * 512,
                slot < CACHE_SIZE,
                self.wf(),
                buf@.len() == 512,
                0 <= i <= 512,
                forall|k: int| 0 <= k < i ==> buf@[k] == self.data@[base + k],
            decreases 512 - i,
        {
            buf[i] = self.data[base + i];
            i = i + 1;
        }
        assert(buf@ =~= self.slot_data(slot as int));
    }

    /// A well-formed cache has no slot waiting for a write-back.
    pub proof fn lemma_no_dirty_slot(&self)
        requires
            self.wf(),
        ensures
            forall|s: int| 0 <= s < CACHE_SIZE ==> !#[trigger] self.dirty_slot(s),
    {
        assert forall|s: int| 0 <= s < CACHE_SIZE implies !#[trigger] self.dirty_slot(s) by {
            assert(!self.entries@[s].dirty);
        }
    }

    /// Hit/miss/write counters.
    pub fn stats(&self) -> (r: (usize, usize, usize))
        ensures
            r == (self.hits_view(), self.misses_view(), self.writes_view()),
    {
        (self.hits, self.misses, self.writes)
    }

    /// Forget every cached sector.
    pub fn invalidate(&mut self)
        requires
            old(self).wf(),
        ensures
            final(self).wf(),
            forall|s: int| 0 <= s < CACHE_SIZE ==> #[trigger] final(self).entries_view()[s] == empty_entry(),
            forall|s: int| 0 <= s < CACHE_SIZE ==> #[trigger] final(self).slot_data(s) == old(self).slot_data(s),
            final(self).hits_view() == old(self).hits_view(),
            final(self).misses_view() == old(self).misses_view(),
            final(self).writes_view() == old(self).writes_view(),
    {
        let mut i: usize = 0;
        while i < CACHE_SIZE
            invariant
                self.wf(),
                self.data@ == old(self).data@,
                self.hits == old(self).hits && self.misses == old(self).misses && self.writes == old(self).writes,
                0 <= i <= CACHE_SIZE,
                forall|s: int| 0 <= s < i ==> #[trigger] self.entries@[s] == empty_entry(),
            decreases CACHE_SIZE - i,
        {
            self.entries.set(i, CacheEntry::empty());
            i = i + 1;
        }
    }
}

proof fn lemma_slot_bound(sector: u32)
    ensures
        0 <= slot_of(sector) < CACHE_SIZE,
{
}

/// Read sector `sector`: from the cache when it holds it, else from the
/// disk, keeping a copy. The bytes are always the disk's.
pub fn cached_read(cache: &mut BufferCache, disk: &mut IdeDisk, sector: u32, buf: &mut [u8; 512]) -> (r: Result<(), &'static str>)
    requires
        old(cache).coherent(old(disk)),
    ensures
        final(cache).coherent(final(disk)),
        final(disk).contents() == old(disk).contents(),
        final(disk).total_view() == old(disk).total_view(),
        sector < old(disk).total_view() ==> r is Ok && final(buf)@ == old(disk).sector(sector as int),
        sector >= old(disk).total_view() ==> r == Err::<(), &'static str>("LBA out of range") && final(buf)@ == old(buf)@,
        final(cache).hits_view() == if old(cache).holds(sector) {
            if old(cache).hits_view() == usize::MAX { 0 } else { (old(cache).hits_view() + 1) as usize }
        } else {
            old(cache).hits_view()
        },
        final(cache).misses_view() == old(cache).misses_view(),
        final(cache).writes_view() == old(cache).writes_view(),
{
    let slot = (sector as usize) % CACHE_SIZE;
    let e = cache.entries[slot];
    if e.valid && e.sector == sector {
        proof {
            assert(e == old(cache).entries_view()[slot as int]);
            assert(old(cache).entries_view()[slot as int].valid);
        }
        cache.copy_slot(slot, buf);
        let ghost c0 = *cache;
        cache.hits = cache.hits.wrapping_add(1);
        proof {
            assert forall|s: int| 0 <= s < CACHE_SIZE && #[trigger] cache.entries_view()[s].valid implies {
                let e2 = cache.entries_view()[s];
                &&& e2.sector < disk.total_view()
                &&& slot_of(e2.sector) == s
                &&& !e2.dirty
                &&& cache.slot_data(s) == disk.sector(e2.sector as int)
            } by {
                assert(cache.entries_view()[s] == c0.entries_view()[s]);
                assert(c0.entries_view()[s].valid);
            }
        }
        return Ok(());
    }
    match disk.read_sector(sector, buf) {
        Err(er) => {
            return Err(er);
        },
        Ok(()) => {},
    }
    if e.dirty && e.valid {
        let mut old_data = [0u8; 512];
        cache.copy_slot(slot, &mut old_data);
        match disk.write_sector(e.sector, &old_data) {
            Err(er) => {
                return Err(er);
            },
            Ok(()) => {},
        }
        cache.writes = cache.writes.wrapping_add(1);
    }
    let ghost c0 = *cache;
    cache.fill_slot(slot, sector, buf);
    proof {
        assert forall|s: int| 0 <= s < CACHE_SIZE && #[trigger] cache.entries_view()[s].valid implies {
            let e2 = cache.entries_view()[s];
            &&& e2.sector < disk.total_view()
            &&& slot_of(e2.sector) == s
            &&& !e2.dirty
            &&& cache.slot_data(s) == disk.sector(e2.sector as int)
        } by {
            if s != slot {
                assert(cache.entries_view()[s] == c0.entries_view()[s]);
                assert(cache.slot_data(s) == c0.slot_data(s));
            }
        }
    }
    Ok(())
}

/// Write `buf` to sector `sector` on the disk and keep it in the cache.
pub fn cached_write(cache: &mut BufferCache, disk: &mut IdeDisk, sector: u32, buf: &[u8; 512]) -> (r: Result<(), &'static str>)
    requires
        old(cache).coherent(old(disk)),
    ensures
        final(cache).coherent(final(disk)),
        final(disk).total_view() == old(disk).total_view(),
        sector < old(disk).total_view() ==> r is Ok && final(disk).contents() == with_sector(old(disk).contents(), sector as int, buf@),
        sector >= old(disk).total_view() ==> r == Err::<(), &'static str>("LBA out of range") && final(disk).contents() == old(disk).contents()
            && *final(cache) == *old(cache),
{
    match disk.write_sector(sector, buf) {
        Err(e) => {
            return Err(e);
        },
        Ok(()) => {},
    }
    cache.writes = cache.writes.wrapping_add(1);
    let slot = (sector as usize) % CACHE_SIZE;
    let ghost c0 = *cache;
    cache.fill_slot(slot, sector, buf);
    proof {
        let total = disk.total_view() as int;
        assert forall|s: int| 0 <= s < CACHE_SIZE && #[trigger] cache.entries_view()[s].valid implies {
            let e2 = cache.entries_view()[s];
            &&& e2.sector < disk.total_view()
            &&& slot_of(e2.sector) == s
            &&& !e2.dirty
            &&& cache.slot_data(s) == disk.sector(e2.sector as int)
        } by {
            if s != slot {
                let e0 = old(cache).entries_view()[s];
                assert(cache.entries_view()[s] == c0.entries_view()[s]);
                assert(c0.entries_view()[s] == e0);
                assert(old(cache).entries_view()[s].valid);
                assert(slot_of(e0.sector) == s);
                assert(e0.sector != sector);
                assert(cache.slot_data(s) == old(cache).slot_data(s));
                crate::drivers::ide::law_write_keeps_other_sectors(old(disk).contents(), total, sector as int, buf@, e0.sector as int);
            } else {
                crate::drivers::ide::law_read_back_sector(old(disk).contents(), total, sector as int, buf@);
            }
        }
    }
    Ok(())
}

/// Write back every dirty slot. Writes go through to the disk at once, so
/// a well-formed cache has none: nothing is written, nothing changes, and
/// the result is `Ok`.
pub fn flush(cache: &mut BufferCache, disk: &mut IdeDisk) -> (r: Result<(), &'static str>)
    requires
        old(cache).wf(),
    ensures
        forall|s: int| 0 <= s < CACHE_SIZE ==> !#[trigger] old(cache).dirty_slot(s),
        r == Ok::<(), &'static str>(()),
        *final(cache) == *old(cache),
        *final(disk) == *old(disk),
{
    proof {
        old(cache).lemma_no_dirty_slot();
    }
    let mut i: usize = 0;
    while i < CACHE_SIZE
        invariant
            cache.wf(),
            *cache == *old(cache),
            *disk == *old(disk),
            0 <= i <= CACHE_SIZE,
        decreases CACHE_SIZE - i,
    {
        let e = cache.entries[i];
        if e.dirty && e.valid {
            proof {
                assert(e == cache.entries@[i as int]);
                assert(false);
            }
            let mut old_data = [0u8; 512];
            cache.copy_slot(i, &mut old_data);
            match disk.write_sector(e.sector, &old_data) {
                Err(er) => {
                    return Err(er);
                },
                Ok(()) => {},
            }
            let mut clean = e;
            clean.dirty = false;
            cache.entries.set(i, clean);
            cache.writes = cache.writes.wrapping_add(1);
        }
        i = i + 1;
    }
    Ok(())
}

/// Read `count` sectors from `start` into `buf` through the cache; stops
/// with an error at the first sector that does not fit in `buf` or is
/// past the disk, the sectors before it already copied.
pub fn cached_read_sectors(cache: &mut BufferCache, disk: &mut IdeDisk, start: u32, count: u32, buf: &mut [u8]) -> (r: Result<(), &'static str>)
    requires
        old(cache).coherent(old(disk)),
        count == 0 || start + count - 1 <= u32::MAX,
        count * 512 + 512 <= usize::MAX,
    ensures
        final(cache).coherent(final(disk)),
        final(disk).contents() == old(disk).contents(),
        final(disk).total_view() == old(disk).total_view(),
        final(buf)@.len() == old(buf)@.len(),
        ({
            let stop = crate::drivers::ide::run_stop(old(buf)@.len() as int, start as int, count as int, old(disk).total_view() as int);
            &&& forall|j: int| 0 <= j < stop * 512 ==> #[trigger] final(buf)@[j] == old(disk).contents()[start * 512 + j]
            &&& forall|j: int| stop * 512 <= j < old(buf)@.len() ==> #[trigger] final(buf)@[j] == old(buf)@[j]
            &&& stop == count ==> r is Ok
            &&& stop < count && stop == old(buf)@.len() / 512 ==> r == Err::<(), &'static str>("buffer too small")
            &&& stop < count && stop != old(buf)@.len() / 512 ==> r == Err::<(), &'static str>("LBA out of range")
        }),
{
    let ghost b0 = buf@;
    let ghost total = disk.total_view() as int;
    let ghost img = disk.contents();
    let ghost stop = crate::drivers::ide::run_stop(b0.len() as int, start as int, count as int, total);
    let mut i: u32 = 0;
    while i < count
        invariant
            cache.coherent(disk),
            disk.contents() == img,
            img == old(disk).contents(),
            total == disk.total_view(),
            total == old(disk).total_view(),
            stop == crate::drivers::ide::run_stop(b0.len() as int, start as int, count as int, total),
            count == 0 || start + count - 1 <= u32::MAX,
            count * 512 + 512 <= usize::MAX,
            0 <= i <= count,
            i <= stop,
            buf@.len() == b0.len(),
            b0 == old(buf)@,
            forall|j: int| 0 <= j < i * 512 ==> #[trigger] buf@[j] == img[start * 512 + j],
            forall|j: int| i * 512 <= j < b0.len() ==> #[trigger] buf@[j] == b0[j],
        decreases count - i,
    {
        let offset = (i as usize) * SECTOR_SIZE;
        if offset + SECTOR_SIZE > buf.len() {
            proof {
                assert(stop == i) by (nonlinear_arith)
                    requires
                        offset == i * 512,
                        offset + 512 > b0.len(),
                        i <= stop,
                        stop <= b0.len() / 512,
                ;
            }
            return Err("buffer too small");
        }
        let mut sector = [0u8; 512];
        match cached_read(cache, disk, start + i, &mut sector) {
            Err(e) => {
                proof {
                    assert(stop == i);
                    assert(i != b0.len() / 512) by (nonlinear_arith)
                        requires
                            offset == i * 512,
                            offset + 512 <= b0.len(),
                    ;
                }
                return Err(e);
            },
            Ok(()) => {},
        }
        let ghost before = buf@;
        let mut k: usize = 0;
        while k < SECTOR_SIZE
            invariant
                offset == i * 512,
                offset + 512 <= buf@.len(),
                buf@.len() == before.len(),
                0 <= k <= 512,
                forall|j: int| 0 <= j < offset ==> buf@[j] == before[j],
                forall|j: int| 0 <= j < k ==> buf@[offset + j] == sector@[j],
                forall|j: int| offset + k <= j < buf@.len() ==> buf@[j] == before[j],
            decreases 512 - k,
        {
            buf[offset + k] = sector[k];
            k = k + 1;
        }
        proof {
            assert(i + 1 <= stop) by (nonlinear_arith)
                requires
                    offset == i * 512,
                    offset + 512 <= b0.len(),
                    start + i < total,
                    i < count,
                    stop == crate::drivers::ide::run_stop(b0.len() as int, start as int, count as int, total),
            ;
            let lo = start * 512;
            assert forall|j: int| 0 <= j < (i + 1) * 512 implies #[trigger] buf@[j] == img[lo + j] by {
                if j < offset {
                    assert(buf@[j] == before[j]);
                } else {
                    assert(buf@[j] == sector@[j - offset]);
                    assert(lo + j == (start + i) * 512 + (j - offset)) by (nonlinear_arith)
                        requires
                            lo == start * 512,
                            offset == i * 512,
                    ;
                }
            }
            assert forall|j: int| (i + 1) * 512 <= j < b0.len() implies #[trigger] buf@[j] == b0[j] by {
                assert(buf@[j] == before[j]);
            }
        }
        i = i + 1;
    }
    Ok(())
}

/// Write `count` sectors from `buf` to the disk from `start` through the
/// cache; stops with an error at the first sector not covered by `buf` or
/// past the disk, the sectors before it already written.
pub fn cached_write_sectors(cache: &mut BufferCache, disk: &mut IdeDisk, start: u32, count: u32, buf: &[u8]) -> (r: Result<(), &'static str>)
    requires
        old(cache).coherent(old(disk)),
        count == 0 || start + count - 1 <= u32::MAX,
        count * 512 + 512 <= usize::MAX,
    ensures
        final(cache).coherent(final(disk)),
        final(disk).total_view() == old(disk).total_view(),
        ({
            let stop = crate::drivers::ide::run_stop(buf@.len() as int, start as int, count as int, old(disk).total_view() as int);
            &&& final(disk).contents().len() == old(disk).contents().len()
            &&& forall|j: int| 0 <= j < stop * 512 ==> #[trigger] final(disk).contents()[start * 512 + j] == buf@[j]
            &&& forall|j: int| 0 <= j < old(disk).contents().len() && !(start * 512 <= j < (start + stop) * 512)
                ==> #[trigger] final(disk).contents()[j] == old(disk).contents()[j]
            &&& stop == count ==> r is Ok
            &&& stop < count && stop == buf@.len() / 512 ==> r == Err::<(), &'static str>("buffer too small")
            &&& stop < count && stop != buf@.len() / 512 ==> r == Err::<(), &'static str>("LBA out of range")
        }),
{
    let ghost total = disk.total_view() as int;
    let ghost img0 = disk.contents();
    let ghost stop = crate::drivers::ide::run_stop(buf@.len() as int, start as int, count as int, total);
    let mut i: u32 = 0;
    while i < count
        invariant
            cache.coherent(disk),
            img0 == old(disk).contents(),
            total == disk.total_view(),
            total == old(disk).total_view(),
            stop == crate::drivers::ide::run_stop(buf@.len() as int, start as int, count as int, total),
            count == 0 || start + count - 1 <= u32::MAX,
            count * 512 + 512 <= usize::MAX,
            0 <= i <= count,
            i <= stop,
            disk.contents().len() == img0.len(),
            forall|j: int| 0 <= j < i * 512 ==> #[trigger] disk.contents()[start * 512 + j] == buf@[j],
            forall|j: int| 0 <= j < img0.len() && !(start * 512 <= j < (start + i) * 512) ==> #[trigger] disk.contents()[j] == img0[j],
        decreases count - i,
    {
        let offset = (i as usize) * SECTOR_SIZE;
        if offset + SECTOR_SIZE > buf.len() {
            proof {
                assert(stop == i) by (nonlinear_arith)
                    requires
                        offset == i * 512,
                        offset + 512 > buf@.len(),
                        i <= stop,
                        stop <= buf@.len() / 512,
                ;
            }
            return Err("buffer too small");
        }
        let mut sector = [0u8; 512];
        let mut k: usize = 0;
        while k < SECTOR_SIZE
            invariant
                offset == i * 512,
                offset + 512 <= buf@.len(),
                sector@.len() == 512,
                0 <= k <= 512,
                forall|j: int| 0 <= j < k ==> sector@[j] == buf@[offset + j],
            decreases 512 - k,
        {
            sector[k] = buf[offset + k];
            k = k + 1;
        }
        let ghost d0 = disk.contents();
        match cached_write(cache, disk, start + i, &sector) {
            Err(e) => {
                proof {
                    assert(stop == i);
                    assert(i != buf@.len() / 512) by (nonlinear_arith)
                        requires
                            offset == i * 512,
                            offset + 512 <= buf@.len(),
                    ;
                }
                return Err(e);
            },
            Ok(()) => {},
        }
        proof {
            assert(i + 1 <= stop) by (nonlinear_arith)
                requires
                    offset == i * 512,
                    offset + 512 <= buf@.len(),
                    start + i < total,
                    i < count,
                    stop == crate::drivers::ide::run_stop(buf@.len() as int, start as int, count as int, total),
            ;
            let lba = (start + i) as int;
            let lo = start * 512;
            assert(lba * 512 + 512 <= d0.len()) by (nonlinear_arith)
                requires
                    lba < total,
                    d0.len() == total * 512,
            ;
            assert(lba * 512 == lo + offset) by (nonlinear_arith)
                requires
                    lo == start * 512,
                    offset == i * 512,
                    lba == start + i,
            ;
            assert forall|j: int| 0 <= j < (i + 1) * 512 implies #[trigger] disk.contents()[lo + j] == buf@[j] by {
                if j < offset {
                    assert(disk.contents()[lo + j] == d0[lo + j]);
                } else {
                    assert(disk.contents()[lo + j] == sector@[j - offset]);
                }
            }
            assert forall|j: int| 0 <= j < img0.len() && !(lo <= j < (start + i + 1) * 512) implies #[trigger] disk.contents()[j] == img0[j] by {
                assert((start + i + 1) * 512 == lo + offset + 512) by (nonlinear_arith)
                    requires
                        lo == start * 512,
                        offset == i * 512,
                ;
                assert(disk.contents()[j] == d0[j]);
            }
        }
        i = i + 1;
    }
    Ok(())
}

} // verus!
