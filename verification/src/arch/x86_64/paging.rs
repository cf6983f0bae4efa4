//! x86_64 4-level paging: the entry encodings, and the walks that look
//! up, add and split mappings in page tables held in physical memory.
use vstd::prelude::*;
use crate::physmem::{PhysMem, alloc_table, zero_frame_of, frame_in, frame_free, covers, word_at, store_of, grew};
use crate::frame::{FrameAllocator, marks_only, frame_used, MAX_FRAME_COUNT};
use crate::stats::KernelStats;

verus! {

/// A page table: 512 entries.
pub struct Table {
    pub entries: [u64; 512],
}

pub const P_PRESENT: u64 = 0x1;
pub const P_WRITE: u64 = 0x2;
pub const P_USER: u64 = 0x4;
/// Page cache disable (bit 4).
pub const P_PCD: u64 = 0x10;
/// Large page (2 MiB in a PD entry).
pub const P_SIZE: u64 = 0x80;
/// No-execute (bit 63).
pub const P_NX: u64 = 0x8000_0000_0000_0000;

/// An entry pointing at the next-level table, supervisor read/write.
pub fn table_entry(pa: u64) -> (r: u64)
    ensures
        r == pa | P_PRESENT | P_WRITE,
{
    pa | P_PRESENT | P_WRITE
}

/// An entry pointing at the next-level table, user read/write.
pub fn table_entry_user(pa: u64) -> (r: u64)
    ensures
        r == pa | P_PRESENT | P_WRITE | P_USER,
{
    pa | P_PRESENT | P_WRITE | P_USER
}

/// A 2 MiB supervisor read/write page.
pub fn page_2mb(pa: u64) -> (r: u64)
    ensures
        r == pa | P_PRESENT | P_WRITE | P_SIZE,
{
    pa | P_PRESENT | P_WRITE | P_SIZE
}

/// Flags of a 4 KiB page.
pub open spec fn page_flags(writable: bool, user: bool, executable: bool) -> u64 {
    P_PRESENT | (if writable { P_WRITE } else { 0 }) | (if user { P_USER } else { 0 }) | (if executable { 0 } else { P_NX })
}

/// A 4 KiB page for `pa`.
pub fn page_4k(pa: u64, writable: bool, user: bool, executable: bool) -> (r: u64)
    ensures
        r == pa | page_flags(writable, user, executable),
{
    let mut f = P_PRESENT;
    if writable {
        f = f | P_WRITE;
    }
    if user {
        f = f | P_USER;
    }
    if !executable {
        f = f | P_NX;
    }
    let w: u64 = if writable { P_WRITE } else { 0 };
    let u: u64 = if user { P_USER } else { 0 };
    let x: u64 = if executable { 0 } else { P_NX };
    assert(f == P_PRESENT | w | u | x) by (bit_vector)
        requires
            f == (if x == 0 { if u == 0 { if w == 0 { P_PRESENT } else { P_PRESENT | w } } else { if w == 0 { P_PRESENT | u } else { (P_PRESENT | w) | u } } } else {
                if u == 0 { if w == 0 { P_PRESENT | x } else { (P_PRESENT | w) | x } } else { if w == 0 { (P_PRESENT | u) | x } else { ((P_PRESENT | w) | u) | x } }
            }),
    ;
    pa | f
}

/// A 4 KiB uncacheable supervisor read/write page (for MMIO).
pub fn page_4k_uc(pa: u64) -> (r: u64)
    ensures
        r == pa | P_PRESENT | P_WRITE | P_PCD,
{
    pa | P_PRESENT | P_WRITE | P_PCD
}

/// The physical address bits of a table or 4 KiB page entry.
pub const ADDR_MASK: u64 = 0x000F_FFFF_FFFF_F000;

/// The physical address bits of a 2 MiB page entry.
pub const ADDR_MASK_2M: u64 = 0x000F_FFFF_FFE0_0000;

/// Index into the PML4, PDPT, PD and PT for virtual address `v`.
pub open spec fn i4(v: u64) -> int { ((v >> 39u64) & 0x1FFu64) as int }
pub open spec fn i3(v: u64) -> int { ((v >> 30u64) & 0x1FFu64) as int }
pub open spec fn i2(v: u64) -> int { ((v >> 21u64) & 0x1FFu64) as int }
pub open spec fn i1(v: u64) -> int { ((v >> 12u64) & 0x1FFu64) as int }

/// Entry `idx` of the table at physical address `t`.
pub open spec fn entry_at(m: Seq<u64>, t: u64, idx: int) -> u64 {
    m[t / 8 + idx]
}

pub open spec fn present(e: u64) -> bool { e & P_PRESENT != 0 }
pub open spec fn large(e: u64) -> bool { e & P_SIZE != 0 }
pub open spec fn user(e: u64) -> bool { e & P_USER != 0 }

/// The table or page an entry points at.
pub open spec fn next(e: u64) -> u64 { e & ADDR_MASK }

/// The tables a lookup of `v` from `pml4` reads lie in memory.
pub open spec fn walk_ok(m: Seq<u64>, pml4: u64, v: u64) -> bool {
    let e1 = entry_at(m, pml4, i4(v));
    let e2 = entry_at(m, next(e1), i3(v));
    let e3 = entry_at(m, next(e2), i2(v));
    &&& frame_in(m, pml4 as int)
    &&& present(e1) ==> frame_in(m, next(e1) as int)
    &&& present(e1) && present(e2) ==> frame_in(m, next(e2) as int)
    &&& present(e1) && present(e2) && present(e3) && !large(e3) ==> frame_in(m, next(e3) as int)
}

/// Whether user mode may reach `v` through the tables at `pml4`: every
/// level present, and the user bit on the 2 MiB page or the 4 KiB page.
pub open spec fn user_mapped(m: Seq<u64>, pml4: u64, v: u64) -> bool {
    let e1 = entry_at(m, pml4, i4(v));
    let e2 = entry_at(m, next(e1), i3(v));
    let e3 = entry_at(m, next(e2), i2(v));
    let e4 = entry_at(m, next(e3), i1(v));
    present(e1) && present(e2) && present(e3) && if large(e3) { user(e3) } else { present(e4) && user(e4) }
}

/// The 4 KiB page entry that maps `v`, when every level down to it is
/// present and the PD entry is not a 2 MiB page.
pub open spec fn leaf_entry(m: Seq<u64>, pml4: u64, v: u64) -> Option<u64> {
    let e1 = entry_at(m, pml4, i4(v));
    let e2 = entry_at(m, next(e1), i3(v));
    let e3 = entry_at(m, next(e2), i2(v));
    if present(e1) && present(e2) && present(e3) && !large(e3) {
        Some(entry_at(m, next(e3), i1(v)))
    } else {
        None
    }
}

/// The indices of a virtual address are table indices.
pub proof fn lemma_indices(v: u64)
    ensures
        0 <= i4(v) < 512 && 0 <= i3(v) < 512 && 0 <= i2(v) < 512 && 0 <= i1(v) < 512,
{
    assert((v >> 39u64) & 0x1FFu64 < 512 && (v >> 30u64) & 0x1FFu64 < 512 && (v >> 21u64) & 0x1FFu64 < 512
        && (v >> 12u64) & 0x1FFu64 < 512) by (bit_vector);
}

/// Entry addresses are frame aligned.
pub proof fn lemma_next_aligned(e: u64)
    ensures
        next(e) % 4096 == 0,
        (e & ADDR_MASK_2M) % 4096 == 0,
{
    assert((e & ADDR_MASK) % 4096 == 0 && (e & ADDR_MASK_2M) % 4096 == 0) by (bit_vector);
}

/// A table entry made for an aligned frame below 2^52 is present, not a
/// large page, and points at the frame.
pub proof fn lemma_table_entry(pa: u64)
    requires
        pa % 4096 == 0,
        pa < 0x10_0000_0000_0000,
    ensures
        present(pa | P_PRESENT | P_WRITE) && !large(pa | P_PRESENT | P_WRITE) && next(pa | P_PRESENT | P_WRITE) == pa,
        present(pa | (P_PRESENT | P_WRITE)) && !large(pa | (P_PRESENT | P_WRITE)) && next(pa | (P_PRESENT | P_WRITE)) == pa,
        present(pa | (P_PRESENT | P_WRITE | P_USER)) && !large(pa | (P_PRESENT | P_WRITE | P_USER))
            && next(pa | (P_PRESENT | P_WRITE | P_USER)) == pa,
        user(pa | (P_PRESENT | P_WRITE | P_USER)),
{
    assert(pa % 4096 == 0 && pa < 0x10_0000_0000_0000 ==> (((pa | 1u64) | 2u64) & 1u64 != 0
        && ((pa | 1u64) | 2u64) & 0x80u64 == 0 && ((pa | 1u64) | 2u64) & 0x000F_FFFF_FFFF_F000u64 == pa
        && (pa | 3u64) & 1u64 != 0 && (pa | 3u64) & 0x80u64 == 0 && (pa | 3u64) & 0x000F_FFFF_FFFF_F000u64 == pa
        && (pa | 7u64) & 1u64 != 0 && (pa | 7u64) & 4u64 != 0 && (pa | 7u64) & 0x80u64 == 0
        && (pa | 7u64) & 0x000F_FFFF_FFFF_F000u64 == pa && 1u64 | 2u64 == 3u64 && (1u64 | 2u64) | 4u64 == 7u64)) by (bit_vector);
}

/// Entry addresses are at most the address mask.
pub proof fn lemma_next_small(e: u64)
    ensures
        next(e) <= ADDR_MASK,
{
    assert(e & ADDR_MASK <= 0x000F_FFFF_FFFF_F000u64) by (bit_vector);
}

/// A cleared entry is not present.
pub proof fn lemma_zero_entry()
    ensures
        !present(0u64),
{
    assert(0u64 & P_PRESENT == 0) by (bit_vector);
}

/// A frame the allocator hands out lies below 2^52.
pub proof fn lemma_fresh_small(a: FrameAllocator, m: Seq<u64>, t: u64)
    requires
        a.wf(),
        fresh_table(a, m, t),
    ensures
        t < 0x10_0000_0000_0000,
{
    a.lemma_wf();
}

/// Look up whether user mode may reach `virt` through the tables at
/// `pml4_pa`.
pub fn is_user_mapped(mem: &PhysMem, pml4_pa: usize, virt: usize) -> (r: bool)
    requires
        walk_ok(mem@, pml4_pa as u64, virt as u64),
    ensures
        r == user_mapped(mem@, pml4_pa as u64, virt as u64),
{
    let v = virt as u64;
    let pml4 = pml4_pa as u64;
    proof {
        lemma_indices(v);
    }
    let e1 = mem.read_u64(pml4 + 8 * ((v >> 39) & 0x1FF));
    if e1 & P_PRESENT == 0 {
        return false;
    }
    let e2 = mem.read_u64((e1 & ADDR_MASK) + 8 * ((v >> 30) & 0x1FF));
    if e2 & P_PRESENT == 0 {
        return false;
    }
    let e3 = mem.read_u64((e2 & ADDR_MASK) + 8 * ((v >> 21) & 0x1FF));
    if e3 & P_PRESENT == 0 {
        return false;
    }
    if e3 & P_SIZE != 0 {
        return e3 & P_USER != 0;
    }
    let e4 = mem.read_u64((e3 & ADDR_MASK) + 8 * ((v >> 12) & 0x1FF));
    if e4 & P_PRESENT == 0 {
        return false;
    }
    e4 & P_USER != 0
}

/// One level down from entry `idx` of `table`: the table it points at,
/// or, when it is not present, the table `fresh`, cleared and linked in.
pub open spec fn step_table(m: Seq<u64>, table: u64, idx: int, fresh: u64) -> (Seq<u64>, u64) {
    let e = entry_at(m, table, idx);
    if present(e) {
        (m, next(e))
    } else {
        (zero_frame_of(m, fresh as int).update(table / 8 + idx, fresh | P_PRESENT | P_WRITE), fresh)
    }
}

/// The table at `pt` filled with the 512 supervisor read/write 4 KiB
/// pages that together map the same memory as the 2 MiB page at `base`.
pub open spec fn split_of(m: Seq<u64>, pt: u64, base: u64) -> Seq<u64> {
    Seq::new(m.len(), |k: int| if pt / 8 <= k < pt / 8 + 512 {
        ((base + (k - pt / 8) * 4096) as u64) | page_flags(true, false, true)
    } else {
        m[k]
    })
}

/// From entry `idx` of PD `pd` down to a PT: the PT it points at; for a
/// 2 MiB page, the table `fresh` holding the same mapping as 4 KiB pages
/// and linked in with the link bits `link`; when not present, `fresh`
/// cleared and linked in.
pub open spec fn step_pd(m: Seq<u64>, pd: u64, idx: int, fresh: u64, link: u64) -> (Seq<u64>, u64) {
    let e = entry_at(m, pd, idx);
    if present(e) && large(e) {
        (split_of(m, fresh, e & ADDR_MASK_2M).update(pd / 8 + idx, fresh | link), fresh)
    } else if present(e) {
        (m, next(e))
    } else {
        (zero_frame_of(m, fresh as int).update(pd / 8 + idx, fresh | P_PRESENT | P_WRITE), fresh)
    }
}

/// Whether taking frame `t` for a new table is allowed: an aligned frame,
/// free in `a`, and in memory `m`.
pub open spec fn fresh_table(a: FrameAllocator, m: Seq<u64>, t: u64) -> bool {
    t % 4096 == 0 && frame_free(a, (t / 4096) as int) && frame_in(m, t as int)
}

/// How an allocator changed when a step that `needed` a frame took `t`.
pub open spec fn took(before: FrameAllocator, after: FrameAllocator, needed: bool, t: u64) -> bool {
    &&& after.wf()
    &&& after.frame_count() == before.frame_count()
    &&& after.total_ram_view() == before.total_ram_view()
    &&& needed ==> t % 4096 == 0 && frame_free(before, (t / 4096) as int)
        && marks_only(before.bitmap_view(), after.bitmap_view(), (t / 4096) as int, true)
    &&& !needed ==> after.bitmap_view() == before.bitmap_view()
}

/// Go one level down from entry `idx` of `table`, taking and linking in
/// a cleared table when the entry is not present.
fn descend(mem: &mut PhysMem, frames: &mut FrameAllocator, stats: &mut KernelStats, table: u64, idx: u64)
    -> (r: Result<u64, &'static str>)
    requires
        old(frames).wf(),
        covers(old(mem)@, *old(frames)),
        frame_in(old(mem)@, table as int),
        idx < 512,
    ensures
        final(mem)@.len() == old(mem)@.len(),
        final(frames).wf(),
        final(frames).frame_count() == old(frames).frame_count(),
        final(frames).total_ram_view() == old(frames).total_ram_view(),
        match r {
            Ok(t) => {
                &&& (final(mem)@, t) == step_table(old(mem)@, table, idx as int, t)
                &&& took(*old(frames), *final(frames), !present(entry_at(old(mem)@, table, idx as int)), t)
                &&& !present(entry_at(old(mem)@, table, idx as int)) ==> frame_in(old(mem)@, t as int)
                    && fresh_table(*old(frames), old(mem)@, t)
            },
            Err(e) => {
                &&& e == "out of frames for page tables"
                &&& forall|g: int| 0 <= g < final(frames).frame_count() ==> #[trigger] final(frames).used(g)
                &&& final(frames).bitmap_view() == old(frames).bitmap_view()
            },
        },
{
    let e = mem.read_u64(table + 8 * idx);
    if e & P_PRESENT != 0 {
        return Ok(e & ADDR_MASK);
    }
    let ghost before = *frames;
    let t = match alloc_table(mem, frames, stats) {
        Ok(t) => t,
        Err(er) => {
            proof {
                assert forall|g: int| 0 <= g < frames.frame_count() implies #[trigger] frames.used(g) by {
                    assert(before.used(g));
                }
            }
            return Err(er);
        },
    };
    let link = table_entry(t);
    mem.write_u64(table + 8 * idx, link);
    Ok(t)
}

/// Replace the 2 MiB page in entry `idx` of PD `pd` by a new table of
/// 4 KiB pages mapping the same memory, linked in with `link`.
fn split_large(mem: &mut PhysMem, frames: &mut FrameAllocator, stats: &mut KernelStats, pd: u64, idx: u64, link: u64)
    -> (r: Result<u64, &'static str>)
    requires
        old(frames).wf(),
        covers(old(mem)@, *old(frames)),
        pd % 4096 == 0,
        idx < 512,
        link == P_PRESENT | P_WRITE || link == P_PRESENT | P_WRITE | P_USER,
        large(word_at(old(mem)@, (pd + 8 * idx) as u64)),
    ensures
        final(mem)@.len() == old(mem)@.len(),
        final(frames).wf(),
        final(frames).frame_count() == old(frames).frame_count(),
        final(frames).total_ram_view() == old(frames).total_ram_view(),
        match r {
            Ok(t) => {
                &&& final(mem)@ == store_of(split_of(old(mem)@, t, word_at(old(mem)@, (pd + 8 * idx) as u64) & ADDR_MASK_2M),
                    (pd + 8 * idx) as u64, t | link)
                &&& took(*old(frames), *final(frames), true, t)
                &&& fresh_table(*old(frames), old(mem)@, t)
            },
            Err(e) => {
                &&& e == "out of frames for page tables"
                &&& forall|g: int| 0 <= g < final(frames).frame_count() ==> #[trigger] final(frames).used(g)
                &&& final(frames).bitmap_view() == old(frames).bitmap_view()
                &&& final(mem)@ == old(mem)@
            },
        },
{
    let e = mem.load(pd + 8 * idx);
    let base = e & ADDR_MASK_2M;
    proof {
        assert(e & ADDR_MASK_2M <= 0x000F_FFFF_FFE0_0000u64) by (bit_vector);
    }
    let ghost before = *frames;
    let t = match alloc_table(mem, frames, stats) {
        Ok(t) => t,
        Err(er) => {
            proof {
                assert forall|g: int| 0 <= g < frames.frame_count() implies #[trigger] frames.used(g) by {
                    assert(before.used(g));
                }
            }
            return Err(er);
        },
    };
    let ghost zeroed = mem@;
    let mut i: u64 = 0;
    while i < 512
        invariant
            0 <= i <= 512,
            frame_in(zeroed, t as int),
            base <= 0x000F_FFFF_FFE0_0000u64,
            mem@.len() == zeroed.len(),
            forall|k: int| 0 <= k < zeroed.len() ==> #[trigger] mem@[k] == (if t / 8 <= k < t / 8 + i {
                ((base + (k - t / 8) * 4096) as u64) | page_flags(true, false, true)
            } else {
                zeroed[k]
            }),
        decreases 512 - i,
    {
        let pte = page_4k(base + i * 0x1000, true, false, true);
        mem.write_u64(t + 8 * i, pte);
        i = i + 1;
    }
    proof {
        assert(mem@ =~= split_of(old(mem)@, t, base));
    }
    mem.store(pd + 8 * idx, t | link);
    Ok(t)
}

/// Go from entry `idx` of PD `pd` down to a PT: splitting a 2 MiB page,
/// or taking and linking in a cleared table when the entry is not present.
fn descend_pd(mem: &mut PhysMem, frames: &mut FrameAllocator, stats: &mut KernelStats, pd: u64, idx: u64)
    -> (r: Result<u64, &'static str>)
    requires
        old(frames).wf(),
        covers(old(mem)@, *old(frames)),
        frame_in(old(mem)@, pd as int),
        idx < 512,
    ensures
        final(mem)@.len() == old(mem)@.len(),
        final(frames).wf(),
        final(frames).frame_count() == old(frames).frame_count(),
        final(frames).total_ram_view() == old(frames).total_ram_view(),
        match r {
            Ok(t) => {
                let e = entry_at(old(mem)@, pd, idx as int);
                &&& (final(mem)@, t) == step_pd(old(mem)@, pd, idx as int, t, P_PRESENT | P_WRITE)
                &&& took(*old(frames), *final(frames), !(present(e) && !large(e)), t)
                &&& !(present(e) && !large(e)) ==> fresh_table(*old(frames), old(mem)@, t)
            },
            Err(e) => {
                &&& e == "out of frames for page tables"
                &&& forall|g: int| 0 <= g < final(frames).frame_count() ==> #[trigger] final(frames).used(g)
                &&& final(frames).bitmap_view() == old(frames).bitmap_view()
            },
        },
{
    let e = mem.read_u64(pd + 8 * idx);
    if e & P_PRESENT != 0 {
        if e & P_SIZE != 0 {
            proof {
                assert(word_at(old(mem)@, (pd + 8 * idx) as u64) == e);
            }
            return split_large(mem, frames, stats, pd, idx, P_PRESENT | P_WRITE);
        }
        return Ok(e & ADDR_MASK);
    }
    descend(mem, frames, stats, pd, idx)
}

/// The memory after mapping `v` from `pml4` to the page entry `leaf`,
/// where the walk goes through the tables `t1` (PDPT), `t2` (PD) and `t3`
/// (PT), each taken fresh where its level was missing, and the PT made
/// from a 2 MiB page where the PD held one.
pub open spec fn map_effect(m: Seq<u64>, pml4: u64, v: u64, leaf: u64, t1: u64, t2: u64, t3: u64) -> Seq<u64> {
    let (m1, a) = step_table(m, pml4, i4(v), t1);
    let (m2, b) = step_table(m1, t1, i3(v), t2);
    let (m3, c) = step_pd(m2, t2, i2(v), t3, P_PRESENT | P_WRITE);
    m3.update(t3 / 8 + i1(v), leaf)
}

/// Which of the three levels below `pml4` need a new table when mapping
/// `v` through `t1` and `t2`.
pub open spec fn map_needs(m: Seq<u64>, pml4: u64, v: u64, t1: u64, t2: u64) -> (bool, bool, bool) {
    let (m1, a) = step_table(m, pml4, i4(v), t1);
    let (m2, b) = step_table(m1, t1, i3(v), t2);
    let e3 = entry_at(m2, t2, i2(v));
    (!present(entry_at(m, pml4, i4(v))), !present(entry_at(m1, t1, i3(v))), !(present(e3) && !large(e3)))
}

/// The tables `t1`, `t2`, `t3` of a mapping walk: those that were new
/// were free frames of `a` in `m`, and are distinct.
pub open spec fn fresh_tables(a: FrameAllocator, m: Seq<u64>, pml4: u64, v: u64, t1: u64, t2: u64, t3: u64) -> bool {
    let (n1, n2, n3) = map_needs(m, pml4, v, t1, t2);
    &&& n1 ==> fresh_table(a, m, t1)
    &&& n2 ==> fresh_table(a, m, t2)
    &&& n3 ==> fresh_table(a, m, t3)
    &&& n1 && n2 ==> t1 != t2
    &&& n1 && n3 ==> t1 != t3
    &&& n2 && n3 ==> t2 != t3
}

/// Frame `g` is one that a mapping walk took.
pub open spec fn map_took(m: Seq<u64>, pml4: u64, v: u64, t1: u64, t2: u64, t3: u64, g: int) -> bool {
    let (n1, n2, n3) = map_needs(m, pml4, v, t1, t2);
    (n1 && g == t1 / 4096) || (n2 && g == t2 / 4096) || (n3 && g == t3 / 4096)
}

/// What a mapping walk from the PDPT `t1` reads lies in memory.
pub open spec fn walk_ok_from_pdpt(m: Seq<u64>, t1: u64, v: u64) -> bool {
    let e2 = entry_at(m, t1, i3(v));
    let e3 = entry_at(m, next(e2), i2(v));
    &&& frame_in(m, t1 as int)
    &&& present(e2) ==> frame_in(m, next(e2) as int)
    &&& present(e2) && present(e3) && !large(e3) ==> frame_in(m, next(e3) as int)
}

/// What a mapping walk from the PD `t2` reads lies in memory.
pub open spec fn walk_ok_from_pd(m: Seq<u64>, t2: u64, v: u64) -> bool {
    let e3 = entry_at(m, t2, i2(v));
    &&& frame_in(m, t2 as int)
    &&& present(e3) && !large(e3) ==> frame_in(m, next(e3) as int)
}

/// After the PML4 step, the rest of the walk reads memory.
proof fn lemma_walk_after_pml4(a: FrameAllocator, m: Seq<u64>, pml4: u64, v: u64, t1: u64, m1: Seq<u64>)
    requires
        a.wf(),
        walk_ok(m, pml4, v),
        (m1, t1) == step_table(m, pml4, i4(v), t1),
        !present(entry_at(m, pml4, i4(v))) ==> fresh_table(a, m, t1),
    ensures
        walk_ok_from_pdpt(m1, t1, v),
        m1.len() == m.len(),
{
    lemma_indices(v);
    lemma_zero_entry();
    if !present(entry_at(m, pml4, i4(v))) {
        lemma_fresh_small(a, m, t1);
        lemma_table_entry(t1);
        let link = t1 | P_PRESENT | P_WRITE;
        assert(m1 == zero_frame_of(m, t1 as int).update(pml4 / 8 + i4(v), link));
        let e2 = entry_at(m1, t1, i3(v));
        assert(e2 == 0u64 || e2 == link);
        if present(e2) {
            assert(e2 == link);
            let e3 = entry_at(m1, t1, i2(v));
            assert(e3 == 0u64 || e3 == link);
        }
    }
}

/// After the PDPT step, the rest of the walk reads memory.
proof fn lemma_walk_after_pdpt(a: FrameAllocator, m1: Seq<u64>, t1: u64, v: u64, t2: u64, m2: Seq<u64>)
    requires
        a.wf(),
        walk_ok_from_pdpt(m1, t1, v),
        (m2, t2) == step_table(m1, t1, i3(v), t2),
        !present(entry_at(m1, t1, i3(v))) ==> fresh_table(a, m1, t2),
    ensures
        walk_ok_from_pd(m2, t2, v),
        m2.len() == m1.len(),
{
    lemma_indices(v);
    lemma_zero_entry();
    if !present(entry_at(m1, t1, i3(v))) {
        lemma_fresh_small(a, m1, t2);
        lemma_table_entry(t2);
        let link = t2 | P_PRESENT | P_WRITE;
        let e3 = entry_at(m2, t2, i2(v));
        assert(e3 == 0u64 || e3 == link);
    }
}

/// The tables `t1`, `t2`, `t3` are the ones a mapping walk of `v` from
/// `pml4` goes through: those the entries point at, where present.
pub open spec fn walk_tables(m: Seq<u64>, pml4: u64, v: u64, t1: u64, t2: u64, t3: u64) -> bool {
    let (m1, a) = step_table(m, pml4, i4(v), t1);
    let (m2, b) = step_table(m1, t1, i3(v), t2);
    let (m3, c) = step_pd(m2, t2, i2(v), t3, P_PRESENT | P_WRITE);
    a == t1 && b == t2 && c == t3
}

/// The tables a lookup of `v` from `pml4` passes through are allocated
/// frames (none free in `a`) and distinct.
pub open spec fn path_reserved(m: Seq<u64>, a: FrameAllocator, pml4: u64, v: u64) -> bool {
    let e1 = entry_at(m, pml4, i4(v));
    let e2 = entry_at(m, next(e1), i3(v));
    let e3 = entry_at(m, next(e2), i2(v));
    &&& !frame_free(a, (pml4 / 4096) as int)
    &&& present(e1) ==> !frame_free(a, (next(e1) / 4096) as int) && next(e1) != pml4
    &&& present(e1) && present(e2) ==> !frame_free(a, (next(e2) / 4096) as int) && next(e2) != pml4 && next(e2) != next(e1)
    &&& present(e1) && present(e2) && present(e3) && !large(e3) ==> !frame_free(a, (next(e3) / 4096) as int)
        && next(e3) != pml4 && next(e3) != next(e1) && next(e3) != next(e2)
}

/// Entries of two different frames are different words.
pub proof fn lemma_frames_apart(a: u64, b: u64, i: int, j: int)
    requires
        a % 4096 == 0,
        b % 4096 == 0,
        a != b,
        0 <= i < 512,
        0 <= j < 512,
    ensures
        a / 8 + i != b / 8 + j,
        !(b / 8 <= a / 8 + i < b / 8 + 512),
{
}

/// Three steps that may each take a frame: the frames taken were free at
/// the start and are distinct, and exactly they are now in use.
proof fn lemma_took_chain(a0: FrameAllocator, a1: FrameAllocator, a2: FrameAllocator, a3: FrameAllocator,
    n1: bool, n2: bool, n3: bool, t1: u64, t2: u64, t3: u64)
    requires
        a0.wf(),
        took(a0, a1, n1, t1),
        took(a1, a2, n2, t2),
        took(a2, a3, n3, t3),
    ensures
        n1 ==> frame_free(a0, (t1 / 4096) as int),
        n2 ==> frame_free(a0, (t2 / 4096) as int),
        n3 ==> frame_free(a0, (t3 / 4096) as int),
        n1 && n2 ==> t1 != t2,
        n1 && n3 ==> t1 != t3,
        n2 && n3 ==> t2 != t3,
        forall|g: int| 0 <= g < MAX_FRAME_COUNT ==> #[trigger] a3.used(g)
            == (a0.used(g) || (n1 && g == t1 / 4096) || (n2 && g == t2 / 4096) || (n3 && g == t3 / 4096)),
{
    a0.lemma_wf();
    a1.lemma_wf();
    a2.lemma_wf();
    a3.lemma_wf();
    assert forall|g: int| 0 <= g < MAX_FRAME_COUNT implies #[trigger] a3.used(g)
        == (a0.used(g) || (n1 && g == t1 / 4096) || (n2 && g == t2 / 4096) || (n3 && g == t3 / 4096)) by {
        assert(a1.used(g) == (a0.used(g) || (n1 && g == t1 / 4096)));
        assert(a2.used(g) == (a1.used(g) || (n2 && g == t2 / 4096)));
        assert(a3.used(g) == (a2.used(g) || (n3 && g == t3 / 4096)));
    }
    if n2 {
        let f = (t2 / 4096) as int;
        assert(a1.used(f) == (a0.used(f) || (n1 && f == t1 / 4096)));
    }
    if n3 {
        let f = (t3 / 4096) as int;
        assert(a1.used(f) == (a0.used(f) || (n1 && f == t1 / 4096)));
        assert(a2.used(f) == (a1.used(f) || (n2 && f == t2 / 4096)));
    }
}

/// Map `v` from `pml4` to the page entry `leaf`; the tables walked.
#[verifier::rlimit(40)]
fn map_leaf(mem: &mut PhysMem, frames: &mut FrameAllocator, stats: &mut KernelStats, pml4: u64, v: u64, leaf: u64)
    -> (r: Result<(u64, u64, u64), &'static str>)
    requires
        old(frames).wf(),
        covers(old(mem)@, *old(frames)),
        walk_ok(old(mem)@, pml4, v),
    ensures
        final(mem)@.len() == old(mem)@.len(),
        final(frames).wf(),
        final(frames).frame_count() == old(frames).frame_count(),
        final(frames).total_ram_view() == old(frames).total_ram_view(),
        match r {
            Ok((t1, t2, t3)) => {
                &&& final(mem)@ == map_effect(old(mem)@, pml4, v, leaf, t1, t2, t3)
                &&& walk_tables(old(mem)@, pml4, v, t1, t2, t3)
                &&& fresh_tables(*old(frames), old(mem)@, pml4, v, t1, t2, t3)
                &&& forall|g: int| 0 <= g < MAX_FRAME_COUNT ==> #[trigger] final(frames).used(g)
                    == (old(frames).used(g) || map_took(old(mem)@, pml4, v, t1, t2, t3, g))
            },
            Err(e) => {
                &&& e == "out of frames for page tables"
                &&& forall|g: int| 0 <= g < final(frames).frame_count() ==> #[trigger] final(frames).used(g)
            },
        },
{
    proof {
        lemma_indices(v);
    }
    let ghost m0 = mem@;
    let ghost a0 = *frames;
    let t1 = match descend(mem, frames, stats, pml4, (v >> 39) & 0x1FF) {
        Ok(t) => t,
        Err(e) => {
            return Err(e);
        },
    };
    let ghost m1 = mem@;
    let ghost a1 = *frames;
    proof {
        lemma_walk_after_pml4(a0, m0, pml4, v, t1, m1);
    }
    let t2 = match descend(mem, frames, stats, t1, (v >> 30) & 0x1FF) {
        Ok(t) => t,
        Err(e) => {
            return Err(e);
        },
    };
    let ghost m2 = mem@;
    let ghost a2 = *frames;
    proof {
        lemma_walk_after_pdpt(a1, m1, t1, v, t2, m2);
    }
    let t3 = match descend_pd(mem, frames, stats, t2, (v >> 21) & 0x1FF) {
        Ok(t) => t,
        Err(e) => {
            return Err(e);
        },
    };
    proof {
        lemma_next_aligned(entry_at(m2, t2, i2(v)));
        let e3 = entry_at(m2, t2, i2(v));
        lemma_took_chain(a0, a1, a2, *frames, !present(entry_at(m0, pml4, i4(v))), !present(entry_at(m1, t1, i3(v))),
            !(present(e3) && !large(e3)), t1, t2, t3);
    }
    mem.write_u64(t3 + 8 * ((v >> 12) & 0x1FF), leaf);
    Ok((t1, t2, t3))
}

/// Mapping a page makes it reachable: after `v` is mapped from `pml4` to
/// the page entry `leaf` through the tables `t1`, `t2`, `t3` (those that
/// were missing taken from the free frames of `a`), a lookup of `v` finds
/// `leaf`, when the tables already on the way were allocated and distinct.
pub proof fn law_mapped_page_is_found(m: Seq<u64>, a: FrameAllocator, pml4: u64, v: u64, leaf: u64, t1: u64, t2: u64, t3: u64)
    requires
        a.wf(),
        walk_ok(m, pml4, v),
        path_reserved(m, a, pml4, v),
        walk_tables(m, pml4, v, t1, t2, t3),
        fresh_tables(a, m, pml4, v, t1, t2, t3),
    ensures
        leaf_entry(map_effect(m, pml4, v, leaf, t1, t2, t3), pml4, v) == Some(leaf),
{
    lemma_indices(v);
    lemma_zero_entry();
    let e1 = entry_at(m, pml4, i4(v));
    let (m1, x1) = step_table(m, pml4, i4(v), t1);
    let (m2, x2) = step_table(m1, t1, i3(v), t2);
    let (m3, x3) = step_pd(m2, t2, i2(v), t3, P_PRESENT | P_WRITE);
    let big = m3.update(t3 / 8 + i1(v), leaf);
    let (n1, n2, n3) = map_needs(m, pml4, v, t1, t2);
    lemma_next_aligned(e1);
    if n1 {
        lemma_fresh_small(a, m, t1);
        lemma_table_entry(t1);
    }
    assert(t1 % 4096 == 0 && t1 != pml4);
    let e2 = entry_at(m1, t1, i3(v));
    lemma_next_aligned(e2);
    if n1 {
        lemma_frames_apart(t1, pml4, i3(v), i4(v));
        assert(e2 == 0u64);
    }
    assert(!n2 ==> !n1);
    if n2 {
        lemma_fresh_small(a, m, t2);
        lemma_table_entry(t2);
    }
    assert(t2 % 4096 == 0 && t2 != pml4 && t2 != t1);
    let e3 = entry_at(m2, t2, i2(v));
    lemma_next_aligned(e3);
    if n2 {
        lemma_frames_apart(t2, t1, i2(v), i3(v));
        assert(e3 == 0u64);
    }
    assert(!n3 ==> !n2);
    if n3 {
        lemma_fresh_small(a, m, t3);
        lemma_table_entry(t3);
    }
    assert(t3 % 4096 == 0 && t3 != pml4 && t3 != t1 && t3 != t2);
    // Each level's entry survives the later writes.
    lemma_frames_apart(pml4, t1, i4(v), 0);
    lemma_frames_apart(pml4, t2, i4(v), 0);
    lemma_frames_apart(pml4, t3, i4(v), 0);
    lemma_frames_apart(t1, t2, i3(v), 0);
    lemma_frames_apart(t1, t3, i3(v), 0);
    lemma_frames_apart(t2, t3, i2(v), 0);
    lemma_frames_apart(pml4, t1, i4(v), i3(v));
    lemma_frames_apart(pml4, t2, i4(v), i2(v));
    lemma_frames_apart(pml4, t3, i4(v), i1(v));
    lemma_frames_apart(t1, t2, i3(v), i2(v));
    lemma_frames_apart(t1, t3, i3(v), i1(v));
    lemma_frames_apart(t2, t3, i2(v), i1(v));
    let l1 = entry_at(m1, pml4, i4(v));
    assert(present(l1) && next(l1) == t1);
    assert(entry_at(big, pml4, i4(v)) == l1);
    assert(present(e2) ==> next(e2) == t2);
    let l2 = entry_at(m2, t1, i3(v));
    assert(present(l2) && next(l2) == t2);
    assert(entry_at(big, t1, i3(v)) == l2);
    let l3 = entry_at(m3, t2, i2(v));
    assert(present(l3) && !large(l3) && next(l3) == t3);
    assert(entry_at(big, t2, i2(v)) == l3);
    assert(entry_at(big, t3, i1(v)) == leaf);
}

/// Identity-map the 4 KiB page at `virt` in the kernel tables at
/// `kernel_pml4` with the page entry `leaf`, taking tables for missing
/// levels and splitting a 2 MiB page that covers it.
fn map_kernel_page(mem: &mut PhysMem, frames: &mut FrameAllocator, stats: &mut KernelStats, kernel_pml4: usize, virt: usize, leaf: u64)
    -> (r: Result<(), &'static str>)
    requires
        old(frames).wf(),
        covers(old(mem)@, *old(frames)),
        walk_ok(old(mem)@, kernel_pml4 as u64, virt as u64),
    ensures
        final(mem)@.len() == old(mem)@.len(),
        final(frames).wf(),
        final(frames).frame_count() == old(frames).frame_count(),
        final(frames).total_ram_view() == old(frames).total_ram_view(),
        r is Ok ==> exists|t1: u64, t2: u64, t3: u64| #![trigger map_effect(old(mem)@, kernel_pml4 as u64, virt as u64, leaf, t1, t2, t3)] {
            &&& final(mem)@ == map_effect(old(mem)@, kernel_pml4 as u64, virt as u64, leaf, t1, t2, t3)
            &&& walk_tables(old(mem)@, kernel_pml4 as u64, virt as u64, t1, t2, t3)
            &&& fresh_tables(*old(frames), old(mem)@, kernel_pml4 as u64, virt as u64, t1, t2, t3)
            &&& forall|g: int| 0 <= g < MAX_FRAME_COUNT ==> #[trigger] final(frames).used(g)
                == (old(frames).used(g) || map_took(old(mem)@, kernel_pml4 as u64, virt as u64, t1, t2, t3, g))
        },
        r is Ok && path_reserved(old(mem)@, *old(frames), kernel_pml4 as u64, virt as u64)
            ==> leaf_entry(final(mem)@, kernel_pml4 as u64, virt as u64) == Some(leaf),
        r is Err ==> r == Err::<(), &'static str>("out of frames for page tables")
            && forall|g: int| 0 <= g < final(frames).frame_count() ==> #[trigger] final(frames).used(g),
{
    let ghost m0 = mem@;
    let ghost a0 = *frames;
    match map_leaf(mem, frames, stats, kernel_pml4 as u64, virt as u64, leaf) {
        Ok((t1, t2, t3)) => {
            proof {
                if path_reserved(m0, a0, kernel_pml4 as u64, virt as u64) {
                    law_mapped_page_is_found(m0, a0, kernel_pml4 as u64, virt as u64, leaf, t1, t2, t3);
                }
            }
            Ok(())
        },
        Err(e) => Err(e),
    }
}

/// Identity-map the 4 KiB page at `virt` (page aligned) as supervisor
/// read/write memory in the kernel tables at `kernel_pml4`; the caller
/// then flushes the TLB entry. Fails only when a needed table cannot be
/// had because every frame is in use.
pub fn map_page(mem: &mut PhysMem, frames: &mut FrameAllocator, stats: &mut KernelStats, kernel_pml4: usize, virt: usize)
    -> (r: Result<(), &'static str>)
    requires
        old(frames).wf(),
        covers(old(mem)@, *old(frames)),
        walk_ok(old(mem)@, kernel_pml4 as u64, virt as u64),
        virt % 4096 == 0,
    ensures
        final(mem)@.len() == old(mem)@.len(),
        final(frames).wf(),
        final(frames).frame_count() == old(frames).frame_count(),
        final(frames).total_ram_view() == old(frames).total_ram_view(),
        r is Ok ==> exists|t1: u64, t2: u64, t3: u64| #![trigger map_effect(old(mem)@, kernel_pml4 as u64, virt as u64,
            (virt as u64) | page_flags(true, false, true), t1, t2, t3)] {
            &&& final(mem)@ == map_effect(old(mem)@, kernel_pml4 as u64, virt as u64, (virt as u64) | page_flags(true, false, true), t1, t2, t3)
            &&& walk_tables(old(mem)@, kernel_pml4 as u64, virt as u64, t1, t2, t3)
            &&& fresh_tables(*old(frames), old(mem)@, kernel_pml4 as u64, virt as u64, t1, t2, t3)
            &&& forall|g: int| 0 <= g < MAX_FRAME_COUNT ==> #[trigger] final(frames).used(g)
                == (old(frames).used(g) || map_took(old(mem)@, kernel_pml4 as u64, virt as u64, t1, t2, t3, g))
        },
        r is Ok && path_reserved(old(mem)@, *old(frames), kernel_pml4 as u64, virt as u64)
            ==> leaf_entry(final(mem)@, kernel_pml4 as u64, virt as u64) == Some((virt as u64) | page_flags(true, false, true)),
        r is Err ==> r == Err::<(), &'static str>("out of frames for page tables")
            && forall|g: int| 0 <= g < final(frames).frame_count() ==> #[trigger] final(frames).used(g),
{
    let leaf = page_4k(virt as u64, true, false, true);
    map_kernel_page(mem, frames, stats, kernel_pml4, virt, leaf)
}

/// Identity-map the 4 KiB page at `virt` (page aligned) as uncacheable
/// supervisor read/write memory, for MMIO, as `map_page` does.
pub fn map_page_uc(mem: &mut PhysMem, frames: &mut FrameAllocator, stats: &mut KernelStats, kernel_pml4: usize, virt: usize)
    -> (r: Result<(), &'static str>)
    requires
        old(frames).wf(),
        covers(old(mem)@, *old(frames)),
        walk_ok(old(mem)@, kernel_pml4 as u64, virt as u64),
        virt % 4096 == 0,
    ensures
        final(mem)@.len() == old(mem)@.len(),
        final(frames).wf(),
        final(frames).frame_count() == old(frames).frame_count(),
        final(frames).total_ram_view() == old(frames).total_ram_view(),
        r is Ok ==> exists|t1: u64, t2: u64, t3: u64| #![trigger map_effect(old(mem)@, kernel_pml4 as u64, virt as u64,
            (virt as u64) | P_PRESENT | P_WRITE | P_PCD, t1, t2, t3)] {
            &&& final(mem)@ == map_effect(old(mem)@, kernel_pml4 as u64, virt as u64, (virt as u64) | P_PRESENT | P_WRITE | P_PCD, t1, t2, t3)
            &&& walk_tables(old(mem)@, kernel_pml4 as u64, virt as u64, t1, t2, t3)
            &&& fresh_tables(*old(frames), old(mem)@, kernel_pml4 as u64, virt as u64, t1, t2, t3)
            &&& forall|g: int| 0 <= g < MAX_FRAME_COUNT ==> #[trigger] final(frames).used(g)
                == (old(frames).used(g) || map_took(old(mem)@, kernel_pml4 as u64, virt as u64, t1, t2, t3, g))
        },
        r is Ok && path_reserved(old(mem)@, *old(frames), kernel_pml4 as u64, virt as u64)
            ==> leaf_entry(final(mem)@, kernel_pml4 as u64, virt as u64) == Some((virt as u64) | P_PRESENT | P_WRITE | P_PCD),
        r is Err ==> r == Err::<(), &'static str>("out of frames for page tables")
            && forall|g: int| 0 <= g < final(frames).frame_count() ==> #[trigger] final(frames).used(g),
{
    let leaf = page_4k_uc(virt as u64);
    map_kernel_page(mem, frames, stats, kernel_pml4, virt, leaf)
}

/// Entry `idx` of the table at `t`, 0 past the end of memory.
pub open spec fn entry_tot(m: Seq<u64>, t: u64, idx: int) -> u64 {
    word_at(m, (t + 8 * idx) as u64)
}

/// The PT for `v` in a task's tables at `pml4`: the one the PD entry
/// points at, or, for a 2 MiB page, the new table `fresh` holding it as
/// 4 KiB supervisor pages and linked in as a user table.
pub open spec fn user_pt_step(m: Seq<u64>, pml4: u64, v: u64, fresh: u64) -> (Seq<u64>, u64) {
    let pd = next(entry_tot(m, next(entry_tot(m, pml4, i4(v))), i3(v)));
    let e = entry_tot(m, pd, i2(v));
    if large(e) {
        (store_of(split_of(m, fresh, e & ADDR_MASK_2M), (pd + 8 * i2(v)) as u64, fresh | (P_PRESENT | P_WRITE | P_USER)), fresh)
    } else {
        (m, next(e))
    }
}

/// Whether the PD entry for `v` in a task's tables at `pml4` is a 2 MiB
/// page, which the lookup of its PT breaks up.
pub open spec fn user_pt_splits(m: Seq<u64>, pml4: u64, v: u64) -> bool {
    let pd = next(entry_tot(m, next(entry_tot(m, pml4, i4(v))), i3(v)));
    large(entry_tot(m, pd, i2(v)))
}

/// The PT that maps `virt` in a task's tables at `pml4_pa` (page
/// aligned), following the PML4 and PDPT entries as they are: a 2 MiB
/// page in the PD is broken into a new table of 4 KiB pages with the same
/// mapping. Fails only when that table cannot be had because every frame
/// is in use.
pub fn map_user_page(mem: &mut PhysMem, frames: &mut FrameAllocator, stats: &mut KernelStats, pml4_pa: usize, virt: usize)
    -> (r: Result<u64, &'static str>)
    requires
        old(frames).wf(),
        covers(old(mem)@, *old(frames)),
        pml4_pa % 4096 == 0,
    ensures
        final(mem)@.len() == old(mem)@.len(),
        final(frames).wf(),
        final(frames).frame_count() == old(frames).frame_count(),
        final(frames).total_ram_view() == old(frames).total_ram_view(),
        match r {
            Ok(t) => {
                let split = user_pt_splits(old(mem)@, pml4_pa as u64, virt as u64);
                &&& (final(mem)@, t) == user_pt_step(old(mem)@, pml4_pa as u64, virt as u64, t)
                &&& took(*old(frames), *final(frames), split, t)
                &&& split ==> fresh_table(*old(frames), old(mem)@, t)
                &&& t % 4096 == 0
                &&& t <= ADDR_MASK
            },
            Err(e) => {
                &&& e == "out of frames for page tables"
                &&& forall|g: int| 0 <= g < final(frames).frame_count() ==> #[trigger] final(frames).used(g)
                &&& final(frames).bitmap_view() == old(frames).bitmap_view()
                &&& final(mem)@ == old(mem)@
            },
        },
{
    let v = virt as u64;
    let pml4 = pml4_pa as u64;
    proof {
        lemma_indices(v);
    }
    let e1 = mem.load(pml4 + 8 * ((v >> 39) & 0x1FF));
    let pdpt = e1 & ADDR_MASK;
    proof {
        lemma_next_aligned(e1);
        lemma_next_small(e1);
    }
    let e2 = mem.load(pdpt + 8 * ((v >> 30) & 0x1FF));
    let pd = e2 & ADDR_MASK;
    proof {
        lemma_next_aligned(e2);
        lemma_next_small(e2);
    }
    let idx = (v >> 21) & 0x1FF;
    let e = mem.load(pd + 8 * idx);
    if e & P_SIZE != 0 {
        let ghost a0 = *frames;
        let r = split_large(mem, frames, stats, pd, idx, P_PRESENT | P_WRITE | P_USER);
        proof {
            if r is Ok {
                lemma_fresh_small(a0, old(mem)@, r.unwrap());
            }
        }
        return r;
    }
    proof {
        lemma_next_aligned(e);
        lemma_next_small(e);
    }
    Ok(e & ADDR_MASK)
}

} // verus!
