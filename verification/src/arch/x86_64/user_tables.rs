//! Page tables for a user task: the kernel's identity map below 512 GiB
//! cloned into new tables, and the task's pages mapped to fresh frames.
use vstd::prelude::*;
use crate::physmem::{PhysMem, alloc_table, zero_frame_of, frame_in, frame_free, covers, word_at, store_of, grew};
use crate::frame::{FrameAllocator, marks_only, MAX_FRAME_COUNT};
use crate::stats::KernelStats;
use crate::arch::x86_64::paging::{P_PRESENT, P_WRITE, P_USER, present, large, next, entry_tot, i1, user_pt_step,
    user_pt_splits, page_flags, took, fresh_table, lemma_next_aligned, lemma_indices, table_entry_user, page_4k, map_user_page,
    ADDR_MASK};
use crate::physmem::{lemma_grew_one, lemma_grew_chain};

verus! {

/// The table at `dst` holding a copy of the 512 entries of the table at
/// `src` (0 for entries past the end of memory).
pub open spec fn copy_table(m: Seq<u64>, dst: u64, src: u64) -> Seq<u64> {
    Seq::new(m.len(), |k: int| if dst / 8 <= k < dst / 8 + 512 { word_at(m, (src + 8 * (k - dst / 8)) as u64) } else { m[k] })
}

/// Entry `j` of the kernel PDPT `kpdpt` cloned into the task's PDPT
/// `npdpt`: absent stays absent, a 1 GiB page is copied, and a PD is
/// copied into the new table `pd`, linked in as a user table.
pub open spec fn clone_step(m: Seq<u64>, kpdpt: u64, npdpt: u64, j: int, pd: u64) -> Seq<u64> {
    let ke = entry_tot(m, kpdpt, j);
    if !present(ke) {
        m
    } else if large(ke) {
        m.update(npdpt / 8 + j, ke)
    } else {
        copy_table(zero_frame_of(m, pd as int), pd, next(ke)).update(npdpt / 8 + j, pd | P_PRESENT | P_WRITE | P_USER)
    }
}

/// Whether cloning entry `j` takes a new PD.
pub open spec fn clone_needs(m: Seq<u64>, kpdpt: u64, j: int) -> bool {
    let ke = entry_tot(m, kpdpt, j);
    present(ke) && !large(ke)
}

/// The first `pds.len()` entries of the kernel PDPT cloned, with `pds[j]`
/// the PD taken for entry `j` where one is.
pub open spec fn clone_fold(m: Seq<u64>, kpdpt: u64, npdpt: u64, pds: Seq<u64>) -> Seq<u64>
    decreases pds.len(),
{
    if pds.len() == 0 {
        m
    } else {
        clone_step(clone_fold(m, kpdpt, npdpt, pds.drop_last()), kpdpt, npdpt, pds.len() - 1, pds.last())
    }
}

/// The PDs that cloning took, in order.
pub open spec fn clone_taken(m: Seq<u64>, kpdpt: u64, npdpt: u64, pds: Seq<u64>) -> Seq<u64>
    decreases pds.len(),
{
    if pds.len() == 0 {
        Seq::empty()
    } else {
        let before = clone_fold(m, kpdpt, npdpt, pds.drop_last());
        clone_taken(m, kpdpt, npdpt, pds.drop_last()) + if clone_needs(before, kpdpt, pds.len() - 1) {
            seq![pds.last()]
        } else {
            Seq::empty()
        }
    }
}

/// A user page: its address, and whether it is writable and executable.
pub type UserPage = (u64, bool, bool);

/// The user page `p` mapped in the task tables at `pml4` to the data
/// frame `data`, cleared, through the PT the lookup gives (`split` where
/// a 2 MiB page is broken up).
pub open spec fn page_step(m: Seq<u64>, pml4: u64, p: UserPage, data: u64, split: u64) -> Seq<u64> {
    let z = zero_frame_of(m, data as int);
    let (m2, pt) = user_pt_step(z, pml4, p.0, split);
    store_of(m2, (pt + 8 * i1(p.0)) as u64, data | page_flags(p.1, true, p.2))
}

/// The frames mapping the user page `p` takes: its data frame, and the
/// table a broken-up 2 MiB page needs.
pub open spec fn page_taken(m: Seq<u64>, pml4: u64, p: UserPage, data: u64, split: u64) -> Seq<u64> {
    seq![data] + if user_pt_splits(zero_frame_of(m, data as int), pml4, p.0) { seq![split] } else { Seq::empty() }
}

/// The pages `pages` mapped one after the other.
pub open spec fn pages_fold(m: Seq<u64>, pml4: u64, pages: Seq<UserPage>, datas: Seq<u64>, splits: Seq<u64>) -> Seq<u64>
    decreases pages.len(),
{
    if pages.len() == 0 || datas.len() != pages.len() || splits.len() != pages.len() {
        m
    } else {
        page_step(pages_fold(m, pml4, pages.drop_last(), datas.drop_last(), splits.drop_last()), pml4, pages.last(),
            datas.last(), splits.last())
    }
}

/// The frames that mapping the pages took, in order.
pub open spec fn pages_taken(m: Seq<u64>, pml4: u64, pages: Seq<UserPage>, datas: Seq<u64>, splits: Seq<u64>) -> Seq<u64>
    decreases pages.len(),
{
    if pages.len() == 0 || datas.len() != pages.len() || splits.len() != pages.len() {
        Seq::empty()
    } else {
        let before = pages_fold(m, pml4, pages.drop_last(), datas.drop_last(), splits.drop_last());
        pages_taken(m, pml4, pages.drop_last(), datas.drop_last(), splits.drop_last())
            + page_taken(before, pml4, pages.last(), datas.last(), splits.last())
    }
}

/// Copy the 512 entries of the table at `src` into the table at `dst`.
fn copy_table_into(mem: &mut PhysMem, dst: u64, src: u64)
    requires
        frame_in(old(mem)@, dst as int),
        src % 4096 == 0,
    ensures
        final(mem)@ == copy_table(old(mem)@, dst, src),
{
    let ghost m0 = mem@;
    let mut i: u64 = 0;
    while i < 512
        invariant
            0 <= i <= 512,
            frame_in(m0, dst as int),
            src % 4096 == 0,
            mem@.len() == m0.len(),
            forall|k: int| 0 <= k < m0.len() ==> #[trigger] mem@[k] == (if dst / 8 <= k < dst / 8 + i {
                word_at(m0, (src + 8 * (k - dst / 8)) as u64)
            } else {
                m0[k]
            }),
        decreases 512 - i,
    {
        let w = mem.load(src + 8 * i);
        proof {
            assert(w == word_at(m0, (src + 8 * i) as u64));
        }
        mem.write_u64(dst + 8 * i, w);
        i = i + 1;
    }
    assert(mem@ =~= copy_table(m0, dst, src));
}

/// The PD that cloning entry `j` takes, if it takes one.
pub open spec fn clone_step_taken(m: Seq<u64>, kpdpt: u64, j: int, pd: u64) -> Seq<u64> {
    if clone_needs(m, kpdpt, j) { seq![pd] } else { Seq::empty() }
}

/// Clone entry `j` of the kernel PDPT `kpdpt` into the task's PDPT
/// `npdpt`; the PD taken, if any.
fn clone_entry(mem: &mut PhysMem, frames: &mut FrameAllocator, stats: &mut KernelStats, kpdpt: u64, npdpt: u64, j: u64)
    -> (r: Result<Ghost<u64>, &'static str>)
    requires
        old(frames).wf(),
        covers(old(mem)@, *old(frames)),
        kpdpt % 4096 == 0,
        frame_in(old(mem)@, npdpt as int),
        j < 512,
    ensures
        final(mem)@.len() == old(mem)@.len(),
        final(frames).wf(),
        final(frames).frame_count() == old(frames).frame_count(),
        final(frames).total_ram_view() == old(frames).total_ram_view(),
        match r {
            Ok(pd) => {
                &&& final(mem)@ == clone_step(old(mem)@, kpdpt, npdpt, j as int, pd@)
                &&& grew(*old(frames), *final(frames), old(mem)@, clone_step_taken(old(mem)@, kpdpt, j as int, pd@))
            },
            Err(e) => {
                &&& e == "out of frames for page tables"
                &&& forall|g: int| 0 <= g < final(frames).frame_count() ==> #[trigger] final(frames).used(g)
            },
        },
{
    let ghost m0 = mem@;
    let ghost a0 = *frames;
    let ke = mem.load(kpdpt + 8 * j);
    if ke & P_PRESENT == 0 {
        proof {
            assert(grew(a0, *frames, m0, Seq::empty()));
        }
        return Ok(Ghost(0u64));
    }
    if ke & 0x80 != 0 {
        mem.write_u64(npdpt + 8 * j, ke);
        proof {
            assert(grew(a0, *frames, m0, Seq::empty()));
        }
        return Ok(Ghost(0u64));
    }
    let pd = match alloc_table(mem, frames, stats) {
        Ok(t) => t,
        Err(e) => {
            proof {
                assert forall|g: int| 0 <= g < frames.frame_count() implies #[trigger] frames.used(g) by {
                    assert(a0.used(g));
                }
            }
            return Err(e);
        },
    };
    proof {
        lemma_next_aligned(ke);
        lemma_grew_one(a0, *frames, m0, pd);
    }
    copy_table_into(mem, pd, ke & 0x000F_FFFF_FFFF_F000);
    let link = table_entry_user(pd);
    mem.write_u64(npdpt + 8 * j, link);
    Ok(Ghost(pd))
}

/// Clone the 512 entries of the kernel PDPT `kpdpt` into the task's PDPT
/// `npdpt`; the PDs taken, one slot per entry.
fn clone_kernel_pdpt(mem: &mut PhysMem, frames: &mut FrameAllocator, stats: &mut KernelStats, kpdpt: u64, npdpt: u64)
    -> (r: Result<Ghost<Seq<u64>>, &'static str>)
    requires
        old(frames).wf(),
        covers(old(mem)@, *old(frames)),
        kpdpt % 4096 == 0,
        frame_in(old(mem)@, npdpt as int),
    ensures
        final(mem)@.len() == old(mem)@.len(),
        final(frames).wf(),
        final(frames).frame_count() == old(frames).frame_count(),
        final(frames).total_ram_view() == old(frames).total_ram_view(),
        match r {
            Ok(pds) => {
                &&& pds@.len() == 512
                &&& final(mem)@ == clone_fold(old(mem)@, kpdpt, npdpt, pds@)
                &&& grew(*old(frames), *final(frames), old(mem)@, clone_taken(old(mem)@, kpdpt, npdpt, pds@))
            },
            Err(e) => {
                &&& e == "out of frames for page tables"
                &&& forall|g: int| 0 <= g < final(frames).frame_count() ==> #[trigger] final(frames).used(g)
            },
        },
{
    let ghost m0 = mem@;
    let ghost a0 = *frames;
    let ghost mut pds: Seq<u64> = Seq::empty();
    proof {
        assert(grew(a0, *frames, m0, Seq::empty()));
    }
    let mut j: u64 = 0;
    while j < 512
        invariant
            0 <= j <= 512,
            pds.len() == j,
            m0 == old(mem)@,
            a0 == *old(frames),
            a0.wf(),
            frames.wf(),
            frames.frame_count() == a0.frame_count(),
            frames.total_ram_view() == a0.total_ram_view(),
            mem@.len() == m0.len(),
            covers(m0, a0),
            kpdpt % 4096 == 0,
            frame_in(m0, npdpt as int),
            mem@ == clone_fold(m0, kpdpt, npdpt, pds),
            grew(a0, *frames, m0, clone_taken(m0, kpdpt, npdpt, pds)),
        decreases 512 - j,
    {
        let ghost cur = mem@;
        let ghost a1 = *frames;
        let pd = match clone_entry(mem, frames, stats, kpdpt, npdpt, j) {
            Ok(p) => p,
            Err(e) => {
                return Err(e);
            },
        };
        proof {
            let piece = clone_step_taken(cur, kpdpt, j as int, pd@);
            assert(grew(a1, *frames, m0, piece));
            lemma_grew_chain(a0, a1, *frames, m0, clone_taken(m0, kpdpt, npdpt, pds), piece);
            let p2 = pds.push(pd@);
            assert(p2.drop_last() =~= pds);
            assert(clone_taken(m0, kpdpt, npdpt, p2) =~= clone_taken(m0, kpdpt, npdpt, pds) + piece);
            pds = p2;
        }
        j = j + 1;
    }
    Ok(Ghost(pds))
}

/// Map the user page `addr` in the task tables at `pml4` to a new cleared
/// frame with the given access: the frame, and the table taken if a 2 MiB
/// page had to be broken up.
fn map_data_page(mem: &mut PhysMem, frames: &mut FrameAllocator, stats: &mut KernelStats, pml4: usize, addr: usize, w: bool, x: bool)
    -> (r: Result<(u64, Ghost<u64>), &'static str>)
    requires
        old(frames).wf(),
        covers(old(mem)@, *old(frames)),
        pml4 % 4096 == 0,
    ensures
        final(mem)@.len() == old(mem)@.len(),
        final(frames).wf(),
        final(frames).frame_count() == old(frames).frame_count(),
        final(frames).total_ram_view() == old(frames).total_ram_view(),
        match r {
            Ok((data, split)) => {
                &&& final(mem)@ == page_step(old(mem)@, pml4 as u64, (addr as u64, w, x), data, split@)
                &&& grew(*old(frames), *final(frames), old(mem)@, page_taken(old(mem)@, pml4 as u64, (addr as u64, w, x), data, split@))
            },
            Err(e) => {
                &&& e == "out of frames for page tables"
                &&& forall|g: int| 0 <= g < final(frames).frame_count() ==> #[trigger] final(frames).used(g)
            },
        },
{
    let ghost m0 = mem@;
    let ghost a0 = *frames;
    let data = match alloc_table(mem, frames, stats) {
        Ok(t) => t,
        Err(e) => {
            proof {
                assert forall|g: int| 0 <= g < frames.frame_count() implies #[trigger] frames.used(g) by {
                    assert(a0.used(g));
                }
            }
            return Err(e);
        },
    };
    let ghost z = mem@;
    let ghost a1 = *frames;
    proof {
        lemma_grew_one(a0, a1, m0, data);
    }
    let pt = match map_user_page(mem, frames, stats, pml4, addr) {
        Ok(t) => t,
        Err(e) => {
            return Err(e);
        },
    };
    let v = addr as u64;
    proof {
        lemma_indices(v);
        let split = user_pt_splits(z, pml4 as u64, v);
        if split {
            lemma_grew_one(a1, *frames, m0, pt);
            lemma_grew_chain(a0, a1, *frames, m0, seq![data], seq![pt]);
        } else {
            a1.lemma_wf();
            frames.lemma_wf();
            assert(grew(a1, *frames, m0, Seq::empty()));
            lemma_grew_chain(a0, a1, *frames, m0, seq![data], Seq::empty());
            assert(seq![data] + Seq::<u64>::empty() =~= seq![data]);
        }
    }
    let pte = page_4k(data, w, true, x);
    mem.store(pt + 8 * ((v >> 12) & 0x1FF), pte);
    Ok((data, Ghost(pt)))
}

/// Where user programs are loaded.
pub const USER_BASE_VA: usize = 0x40_0000;

/// The user stack page: 1 MiB above the load address.
pub const USER_STACK_VA: usize = 0x50_0000;

/// An ELF segment as the loader passes it: virtual address, offset of its
/// data in the file, size in the file, size in memory, flags (1 execute,
/// 2 write).
pub type SegmentInfo = (usize, usize, usize, usize, u32);

/// The pages from the one holding `start` up to `end`, with the access
/// given.
pub open spec fn range_pages(start: int, end: int, w: bool, x: bool) -> Seq<UserPage> {
    let base = start - start % 4096;
    Seq::new(if base < end { ((end - base + 4095) / 4096) as nat } else { 0 }, |k: int| ((base + 4096 * k) as u64, w, x))
}

/// The pages of the segments, in order; empty segments have none.
pub open spec fn segment_pages(segs: Seq<SegmentInfo>) -> Seq<UserPage>
    decreases segs.len(),
{
    if segs.len() == 0 {
        Seq::empty()
    } else {
        let s = segs.last();
        segment_pages(segs.drop_last()) + if s.3 == 0 {
            Seq::<UserPage>::empty()
        } else {
            range_pages(s.0 as int, s.0 + s.3, s.4 & 2 != 0, s.4 & 1 != 0)
        }
    }
}

/// A task's pages: those of its segments, then its stack page
/// (writable, not executable).
pub open spec fn task_pages(segs: Seq<SegmentInfo>) -> Seq<UserPage> {
    segment_pages(segs).push((USER_STACK_VA as u64, true, false))
}

/// The memory after building a task's tables at `pml4` from the kernel
/// tables at `kpml4`: a new PDPT `pdpt` with the kernel's PDPT entries
/// cloned (PDs copied into `pds`), linked as PML4 entry 0, then each page
/// mapped to its data frame.
pub open spec fn task_tables(m: Seq<u64>, kpml4: u64, pages: Seq<UserPage>, pml4: u64, pdpt: u64, pds: Seq<u64>,
    datas: Seq<u64>, splits: Seq<u64>) -> Seq<u64> {
    let m1 = zero_frame_of(m, pml4 as int);
    let kpdpt = next(word_at(m1, kpml4));
    let m2 = zero_frame_of(m1, pdpt as int);
    let m3 = clone_fold(m2, kpdpt, pdpt, pds);
    let m4 = m3.update((pml4 / 8) as int, pdpt | P_PRESENT | P_WRITE | P_USER);
    pages_fold(m4, pml4, pages, datas, splits)
}

/// The frames building a task's tables takes, in order.
pub open spec fn task_taken(m: Seq<u64>, kpml4: u64, pages: Seq<UserPage>, pml4: u64, pdpt: u64, pds: Seq<u64>,
    datas: Seq<u64>, splits: Seq<u64>) -> Seq<u64> {
    let m1 = zero_frame_of(m, pml4 as int);
    let kpdpt = next(word_at(m1, kpml4));
    let m2 = zero_frame_of(m1, pdpt as int);
    let m3 = clone_fold(m2, kpdpt, pdpt, pds);
    let m4 = m3.update((pml4 / 8) as int, pdpt | P_PRESENT | P_WRITE | P_USER);
    seq![pml4, pdpt] + clone_taken(m2, kpdpt, pdpt, pds) + pages_taken(m4, pml4, pages, datas, splits)
}

/// The (address, size, frame) records of the mapped pages.
pub open spec fn page_records(pages: Seq<UserPage>, datas: Seq<u64>) -> Seq<(usize, usize, usize)> {
    Seq::new(pages.len(), |i: int| (pages[i].0 as usize, 4096usize, datas[i] as usize))
}

/// The segments' pages stay below the end of the address space.
pub open spec fn segments_fit(segs: Seq<SegmentInfo>) -> bool {
    forall|i: int| 0 <= i < segs.len() ==> #[trigger] segs[i].0 + segs[i].3 + 4096 <= usize::MAX
}

/// Counting the pages of `[base, end)` 4 KiB at a time.
proof fn lemma_page_count(base: int, end: int, k: int)
    requires
        base < end,
        0 <= k <= (end - base + 4095) / 4096,
    ensures
        base + 4096 * k < end ==> k + 1 <= (end - base + 4095) / 4096,
        base + 4096 * k >= end ==> k == (end - base + 4095) / 4096,
{
    assert(base + 4096 * k < end ==> k + 1 <= (end - base + 4095) / 4096) by (nonlinear_arith)
        requires
            base < end,
            0 <= k,
    ;
    assert(base + 4096 * k >= end ==> k >= (end - base + 4095) / 4096) by (nonlinear_arith)
        requires
            base < end,
            0 <= k,
    ;
}

/// A frame the allocator hands out has an address that fits a `usize`.
proof fn lemma_frame_fits(a: FrameAllocator, t: u64)
    requires
        a.wf(),
        frame_free(a, (t / 4096) as int),
    ensures
        t <= usize::MAX,
{
    a.lemma_wf();
}

/// One more page mapped: the fold, the frames taken and the records grow
/// by it.
proof fn lemma_pages_push(m: Seq<u64>, pml4: u64, pages: Seq<UserPage>, datas: Seq<u64>, splits: Seq<u64>, p: UserPage, d: u64, sp: u64)
    requires
        datas.len() == pages.len(),
        splits.len() == pages.len(),
    ensures
        pages_fold(m, pml4, pages.push(p), datas.push(d), splits.push(sp))
            == page_step(pages_fold(m, pml4, pages, datas, splits), pml4, p, d, sp),
        pages_taken(m, pml4, pages.push(p), datas.push(d), splits.push(sp))
            == pages_taken(m, pml4, pages, datas, splits) + page_taken(pages_fold(m, pml4, pages, datas, splits), pml4, p, d, sp),
        page_records(pages.push(p), datas.push(d)) == page_records(pages, datas).push((p.0 as usize, 4096usize, d as usize)),
{
    assert(pages.push(p).drop_last() =~= pages);
    assert(datas.push(d).drop_last() =~= datas);
    assert(splits.push(sp).drop_last() =~= splits);
    assert(page_records(pages.push(p), datas.push(d)) =~= page_records(pages, datas).push((p.0 as usize, 4096usize, d as usize)));
}

/// The pages of the first `i + 1` segments are those of the first `i`,
/// then those of segment `i`.
proof fn lemma_segment_pages_step(segs: Seq<SegmentInfo>, i: int)
    requires
        0 <= i < segs.len(),
    ensures
        segment_pages(segs.subrange(0, i + 1)) == segment_pages(segs.subrange(0, i)) + if segs[i].3 == 0 {
            Seq::<UserPage>::empty()
        } else {
            range_pages(segs[i].0 as int, segs[i].0 + segs[i].3, segs[i].4 & 2 != 0, segs[i].4 & 1 != 0)
        },
{
    assert(segs.subrange(0, i + 1).drop_last() =~= segs.subrange(0, i));
    assert(segs.subrange(0, i + 1).last() == segs[i]);
}

/// Map each page of the segments, then the stack page, in the task
/// tables at `pml4` to a new cleared frame: the records of the pages,
/// and the data frames and split tables taken.
fn map_task_pages(mem: &mut PhysMem, frames: &mut FrameAllocator, stats: &mut KernelStats, pml4: usize, elf_segments: &[SegmentInfo])
    -> (r: Result<(Vec<(usize, usize, usize)>, Ghost<(Seq<u64>, Seq<u64>)>), &'static str>)
    requires
        old(frames).wf(),
        covers(old(mem)@, *old(frames)),
        pml4 % 4096 == 0,
        segments_fit(elf_segments@),
    ensures
        final(mem)@.len() == old(mem)@.len(),
        final(frames).wf(),
        final(frames).frame_count() == old(frames).frame_count(),
        final(frames).total_ram_view() == old(frames).total_ram_view(),
        match r {
            Ok((recs, g)) => {
                let (datas, splits) = g@;
                &&& datas.len() == task_pages(elf_segments@).len()
                &&& splits.len() == task_pages(elf_segments@).len()
                &&& final(mem)@ == pages_fold(old(mem)@, pml4 as u64, task_pages(elf_segments@), datas, splits)
                &&& grew(*old(frames), *final(frames), old(mem)@, pages_taken(old(mem)@, pml4 as u64, task_pages(elf_segments@), datas, splits))
                &&& recs@ == page_records(task_pages(elf_segments@), datas)
                &&& forall|i: int| 0 <= i < datas.len() ==> #[trigger] datas[i] % 4096 == 0
            },
            Err(e) => {
                &&& e == "out of frames for page tables"
                &&& forall|g: int| 0 <= g < final(frames).frame_count() ==> #[trigger] final(frames).used(g)
            },
        },
{
    let ghost m0 = mem@;
    let ghost a0 = *frames;
    let ghost pm = pml4 as u64;
    let mut recs: Vec<(usize, usize, usize)> = Vec::new();
    let ghost mut done: Seq<UserPage> = Seq::empty();
    let ghost mut datas: Seq<u64> = Seq::empty();
    let ghost mut splits: Seq<u64> = Seq::empty();
    proof {
        assert(pages_taken(m0, pm, done, datas, splits) =~= Seq::<u64>::empty());
        assert(page_records(done, datas) =~= recs@);
        assert(grew(a0, *frames, m0, Seq::empty()));
    }
    let mut i: usize = 0;
    while i < elf_segments.len()
        invariant
            0 <= i <= elf_segments.len(),
            segments_fit(elf_segments@),
            a0 == *old(frames),
            m0 == old(mem)@,
            pm == pml4 as u64,
            a0.wf(),
            covers(m0, a0),
            frames.wf(),
            frames.frame_count() == a0.frame_count(),
            frames.total_ram_view() == a0.total_ram_view(),
            mem@.len() == m0.len(),
            pml4 % 4096 == 0,
            done == segment_pages(elf_segments@.subrange(0, i as int)),
            datas.len() == done.len(),
            splits.len() == done.len(),
            mem@ == pages_fold(m0, pm, done, datas, splits),
            grew(a0, *frames, m0, pages_taken(m0, pm, done, datas, splits)),
            recs@ == page_records(done, datas),
            forall|k: int| 0 <= k < datas.len() ==> #[trigger] datas[k] % 4096 == 0,
        decreases elf_segments.len() - i,
    {
        let (vaddr, _data_off, _filesz, memsz, flags) = elf_segments[i];
        proof {
            lemma_segment_pages_step(elf_segments@, i as int);
            assert(elf_segments@[i as int].0 + elf_segments@[i as int].3 + 4096 <= usize::MAX);
        }
        if memsz != 0 {
            let w = flags & 2 != 0;
            let x = flags & 1 != 0;
            let end = vaddr + memsz;
            let mut addr = vaddr & !0xFFF;
            proof {
                assert(vaddr & !0xFFFusize == vaddr - vaddr % 4096) by (bit_vector);
            }
            let ghost base = vaddr - vaddr % 4096;
            let ghost seg = range_pages(vaddr as int, end as int, w, x);
            let ghost first = done;
            let ghost mut k: int = 0;
            proof {
                assert(first + seg.subrange(0, 0) =~= first);
            }
            while addr < end
                invariant
                    a0 == *old(frames),
                    m0 == old(mem)@,
                    pm == pml4 as u64,
                    a0.wf(),
                    covers(m0, a0),
                    frames.wf(),
                    frames.frame_count() == a0.frame_count(),
                    frames.total_ram_view() == a0.total_ram_view(),
                    mem@.len() == m0.len(),
                    pml4 % 4096 == 0,
                    base < end,
                    end + 4096 <= usize::MAX,
                    seg == range_pages(vaddr as int, end as int, w, x),
                    base == vaddr - vaddr % 4096,
                    0 <= k <= seg.len(),
                    addr == base + 4096 * k,
                    done == first + seg.subrange(0, k),
                    datas.len() == done.len(),
                    splits.len() == done.len(),
                    mem@ == pages_fold(m0, pm, done, datas, splits),
                    grew(a0, *frames, m0, pages_taken(m0, pm, done, datas, splits)),
                    recs@ == page_records(done, datas),
                    forall|k: int| 0 <= k < datas.len() ==> #[trigger] datas[k] % 4096 == 0,
                ensures
                    k == seg.len(),
                    frames.wf(),
                    frames.frame_count() == a0.frame_count(),
                    frames.total_ram_view() == a0.total_ram_view(),
                    mem@.len() == m0.len(),
                    done == first + seg,
                    datas.len() == done.len(),
                    splits.len() == done.len(),
                    mem@ == pages_fold(m0, pm, done, datas, splits),
                    grew(a0, *frames, m0, pages_taken(m0, pm, done, datas, splits)),
                    recs@ == page_records(done, datas),
                    forall|k: int| 0 <= k < datas.len() ==> #[trigger] datas[k] % 4096 == 0,
                decreases if addr < end { end - addr } else { 0 },
            {
                proof {
                    lemma_page_count(base as int, end as int, k);
                }
                let ghost mb = mem@;
                let ghost ab = *frames;
                let (d, sp) = match map_data_page(mem, frames, stats, pml4, addr, w, x) {
                    Ok(v) => v,
                    Err(e) => {
                        return Err(e);
                    },
                };
                let ghost p: UserPage = (addr as u64, w, x);
                proof {
                    let pt = page_taken(mb, pm, p, d, sp@);
                    assert(grew(ab, *frames, m0, pt));
                    assert(pt[0] == d);
                    lemma_grew_chain(a0, ab, *frames, m0, pages_taken(m0, pm, done, datas, splits), pt);
                    lemma_frame_fits(ab, d);
                    lemma_pages_push(m0, pm, done, datas, splits, p, d, sp@);
                }
                recs.push((addr, 4096, d as usize));
                proof {
                    assert(seg[k] == p);
                    assert(first + seg.subrange(0, k + 1) =~= done.push(p));
                    done = done.push(p);
                    datas = datas.push(d);
                    splits = splits.push(sp@);
                    k = k + 1;
                }
                addr = addr + 0x1000;
            }
            proof {
                lemma_page_count(base as int, end as int, k);
                assert(seg.subrange(0, k) =~= seg);
            }
        } else {
            proof {
                assert(done + Seq::<UserPage>::empty() =~= done);
            }
        }
        i = i + 1;
    }
    proof {
        assert(elf_segments@.subrange(0, elf_segments@.len() as int) =~= elf_segments@);
    }
    let ghost mb = mem@;
    let ghost ab = *frames;
    let (d, sp) = match map_data_page(mem, frames, stats, pml4, USER_STACK_VA, true, false) {
        Ok(v) => v,
        Err(e) => {
            return Err(e);
        },
    };
    let ghost p: UserPage = (USER_STACK_VA as u64, true, false);
    proof {
        let pt = page_taken(mb, pm, p, d, sp@);
        assert(grew(ab, *frames, m0, pt));
        assert(pt[0] == d);
        lemma_grew_chain(a0, ab, *frames, m0, pages_taken(m0, pm, done, datas, splits), pt);
        lemma_frame_fits(ab, d);
        lemma_pages_push(m0, pm, done, datas, splits, p, d, sp@);
    }
    recs.push((USER_STACK_VA, 4096, d as usize));
    Ok((recs, Ghost((datas.push(d), splits.push(sp@)))))
}

/// Whether `m1` and `a1` are memory `m0` and allocator `a0` after the
/// tables of a task with segments `segs` were built at `pml4` from the
/// kernel tables at `kpml4`, recorded in `recs`: for some PDPT, PDs, data
/// frames and split tables taken in the building.
pub open spec fn task_built(m0: Seq<u64>, a0: FrameAllocator, m1: Seq<u64>, a1: FrameAllocator, kpml4: u64, segs: Seq<SegmentInfo>,
    pml4: u64, recs: Seq<(usize, usize, usize)>) -> bool {
    exists|pdpt: u64, pds: Seq<u64>, datas: Seq<u64>, splits: Seq<u64>|
        #![trigger task_tables(m0, kpml4, task_pages(segs), pml4, pdpt, pds, datas, splits)] {
        &&& m1 == task_tables(m0, kpml4, task_pages(segs), pml4, pdpt, pds, datas, splits)
        &&& grew(a0, a1, m0, task_taken(m0, kpml4, task_pages(segs), pml4, pdpt, pds, datas, splits))
        &&& recs == page_records(task_pages(segs), datas)
        &&& pds.len() == 512
        &&& datas.len() == task_pages(segs).len()
        &&& splits.len() == task_pages(segs).len()
        &&& pml4 % 4096 == 0
        &&& forall|i: int| 0 <= i < datas.len() ==> #[trigger] datas[i] % 4096 == 0
    }
}

/// The frames taken for the first `k` pages are the start of those taken
/// for all of them.
proof fn lemma_pages_taken_prefix(m: Seq<u64>, pml4: u64, pages: Seq<UserPage>, datas: Seq<u64>, splits: Seq<u64>, k: int)
    requires
        datas.len() == pages.len(),
        splits.len() == pages.len(),
        0 <= k <= pages.len(),
    ensures
        ({
            let all = pages_taken(m, pml4, pages, datas, splits);
            let pre = pages_taken(m, pml4, pages.subrange(0, k), datas.subrange(0, k), splits.subrange(0, k));
            pre.len() <= all.len() && all.subrange(0, pre.len() as int) == pre
        }),
    decreases pages.len(),
{
    let all = pages_taken(m, pml4, pages, datas, splits);
    if k == pages.len() {
        assert(pages.subrange(0, k) =~= pages);
        assert(datas.subrange(0, k) =~= datas);
        assert(splits.subrange(0, k) =~= splits);
        assert(all.subrange(0, all.len() as int) =~= all);
    } else {
        lemma_pages_taken_prefix(m, pml4, pages.drop_last(), datas.drop_last(), splits.drop_last(), k);
        assert(pages.drop_last().subrange(0, k) =~= pages.subrange(0, k));
        assert(datas.drop_last().subrange(0, k) =~= datas.subrange(0, k));
        assert(splits.drop_last().subrange(0, k) =~= splits.subrange(0, k));
        let rest = pages_taken(m, pml4, pages.drop_last(), datas.drop_last(), splits.drop_last());
        let pre = pages_taken(m, pml4, pages.subrange(0, k), datas.subrange(0, k), splits.subrange(0, k));
        assert(all.subrange(0, pre.len() as int) =~= rest.subrange(0, pre.len() as int));
    }
}

/// The data frame of page `k` is taken right after the frames of the
/// pages before it.
proof fn lemma_pages_taken_data(m: Seq<u64>, pml4: u64, pages: Seq<UserPage>, datas: Seq<u64>, splits: Seq<u64>, k: int)
    requires
        datas.len() == pages.len(),
        splits.len() == pages.len(),
        0 <= k < pages.len(),
    ensures
        ({
            let all = pages_taken(m, pml4, pages, datas, splits);
            let at = pages_taken(m, pml4, pages.subrange(0, k), datas.subrange(0, k), splits.subrange(0, k)).len();
            let next = pages_taken(m, pml4, pages.subrange(0, k + 1), datas.subrange(0, k + 1), splits.subrange(0, k + 1)).len();
            &&& at < next <= all.len()
            &&& all[at as int] == datas[k]
        }),
{
    lemma_pages_taken_prefix(m, pml4, pages, datas, splits, k + 1);
    let p1 = pages.subrange(0, k + 1);
    let d1 = datas.subrange(0, k + 1);
    let s1 = splits.subrange(0, k + 1);
    assert(p1.drop_last() =~= pages.subrange(0, k));
    assert(d1.drop_last() =~= datas.subrange(0, k));
    assert(s1.drop_last() =~= splits.subrange(0, k));
    let all = pages_taken(m, pml4, pages, datas, splits);
    let q = pages_taken(m, pml4, p1, d1, s1);
    let at = pages_taken(m, pml4, pages.subrange(0, k), datas.subrange(0, k), splits.subrange(0, k)).len();
    assert(q[at as int] == datas[k]);
    assert(all.subrange(0, q.len() as int)[at as int] == q[at as int]);
}

/// A frame taken was free and aligned before and is in use after.
proof fn lemma_taken_at(a0: FrameAllocator, a1: FrameAllocator, m: Seq<u64>, taken: Seq<u64>, j: int)
    requires
        grew(a0, a1, m, taken),
        0 <= j < taken.len(),
    ensures
        taken[j] % 4096 == 0,
        frame_free(a0, (taken[j] / 4096) as int),
        a1.used((taken[j] / 4096) as int),
{
    let g = (taken[j] / 4096) as int;
    assert(taken[j] % 4096 == 0 && frame_free(a0, g) && frame_in(m, taken[j] as int));
    a1.lemma_wf();
    assert(g < MAX_FRAME_COUNT);
    assert(0 <= j < taken.len() && g == taken[j] / 4096);
    assert(a1.used(g) == (a0.used(g) || exists|q: int| 0 <= q < taken.len() && g == #[trigger] taken[q] / 4096));
}

/// The page records of a task's new tables: one per page of its segments
/// and then the stack page, each of 4 KiB, in that order; each page's
/// frame was a free, aligned frame before, is in use after, and differs
/// from every other page's frame.
#[verifier::rlimit(40)]
pub proof fn law_task_records(m0: Seq<u64>, a0: FrameAllocator, m1: Seq<u64>, a1: FrameAllocator, kpml4: u64, segs: Seq<SegmentInfo>,
    pml4: u64, recs: Seq<(usize, usize, usize)>)
    requires
        task_built(m0, a0, m1, a1, kpml4, segs, pml4, recs),
    ensures
        recs.len() == task_pages(segs).len(),
        recs.len() >= 1 && recs.last().0 == USER_STACK_VA,
        forall|k: int| 0 <= k < recs.len() ==> (#[trigger] recs[k]).0 == task_pages(segs)[k].0 as usize && recs[k].1 == 4096,
        exists|datas: Seq<u64>| {
            &&& datas.len() == recs.len()
            &&& forall|k: int| 0 <= k < recs.len() ==> #[trigger] recs[k].2 == datas[k] as usize && datas[k] % 4096 == 0
                && frame_free(a0, (datas[k] / 4096) as int) && a1.used((datas[k] / 4096) as int)
            &&& forall|k: int, l: int| 0 <= k < l < recs.len() ==> #[trigger] datas[k] != #[trigger] datas[l]
        },
{
    let tp = task_pages(segs);
    let (pdpt, pds, datas, splits) = choose|pdpt: u64, pds: Seq<u64>, datas: Seq<u64>, splits: Seq<u64>|
        #![trigger task_tables(m0, kpml4, tp, pml4, pdpt, pds, datas, splits)] {
        &&& m1 == task_tables(m0, kpml4, tp, pml4, pdpt, pds, datas, splits)
        &&& grew(a0, a1, m0, task_taken(m0, kpml4, tp, pml4, pdpt, pds, datas, splits))
        &&& recs == page_records(tp, datas)
        &&& pds.len() == 512
        &&& datas.len() == tp.len()
        &&& splits.len() == tp.len()
        &&& pml4 % 4096 == 0
        &&& forall|i: int| 0 <= i < datas.len() ==> #[trigger] datas[i] % 4096 == 0
    };
    let m1x = zero_frame_of(m0, pml4 as int);
    let kpdpt = next(word_at(m1x, kpml4));
    let m2 = zero_frame_of(m1x, pdpt as int);
    let m3 = clone_fold(m2, kpdpt, pdpt, pds);
    let m4 = m3.update((pml4 / 8) as int, pdpt | P_PRESENT | P_WRITE | P_USER);
    let head = seq![pml4, pdpt] + clone_taken(m2, kpdpt, pdpt, pds);
    let taken = task_taken(m0, kpml4, tp, pml4, pdpt, pds, datas, splits);
    let pt = pages_taken(m4, pml4, tp, datas, splits);
    assert(taken == head + pt);
    assert(tp.len() == segment_pages(segs).len() + 1);
    assert(tp.last() == (USER_STACK_VA as u64, true, false));
    let pos = |k: int| (head.len() + pages_taken(m4, pml4, tp.subrange(0, k), datas.subrange(0, k), splits.subrange(0, k)).len()) as int;
    assert forall|k: int| 0 <= k < tp.len() implies pos(k) < taken.len() && #[trigger] taken[pos(k)] == datas[k] by {
        lemma_pages_taken_data(m4, pml4, tp, datas, splits, k);
    }
    assert forall|k: int| 0 <= k < recs.len() implies #[trigger] recs[k].2 == datas[k] as usize && datas[k] % 4096 == 0
        && frame_free(a0, (datas[k] / 4096) as int) && a1.used((datas[k] / 4096) as int) by {
        lemma_pages_taken_data(m4, pml4, tp, datas, splits, k);
        lemma_taken_at(a0, a1, m0, taken, pos(k));
    }
    assert forall|k: int, l: int| 0 <= k < l < recs.len() implies #[trigger] datas[k] != #[trigger] datas[l] by {
        lemma_pages_taken_data(m4, pml4, tp, datas, splits, k);
        lemma_pages_taken_data(m4, pml4, tp, datas, splits, l);
        lemma_pages_taken_prefix(m4, pml4, tp.subrange(0, l), datas.subrange(0, l), splits.subrange(0, l), k + 1);
        assert(tp.subrange(0, l).subrange(0, k + 1) =~= tp.subrange(0, k + 1));
        assert(datas.subrange(0, l).subrange(0, k + 1) =~= datas.subrange(0, k + 1));
        assert(splits.subrange(0, l).subrange(0, k + 1) =~= splits.subrange(0, k + 1));
        assert(pos(k) < pos(l));
        assert(taken[pos(k)] != taken[pos(l)]);
    }
}

/// Build the page tables of a user task from the kernel tables at
/// `kernel_pml4`: a new PML4 whose entry 0 leads to a new PDPT cloning
/// the kernel's (each PD copied into a new table, supervisor only), then
/// each page of the segments, and the stack page, mapped to a new cleared
/// frame as a user page. Gives the new PML4 and, for each page, its
/// address, size and frame. Fails only when a frame cannot be had
/// because every frame is in use.
pub fn create_user_page_tables(mem: &mut PhysMem, frames: &mut FrameAllocator, stats: &mut KernelStats, kernel_pml4: usize,
    elf_segments: &[SegmentInfo]) -> (r: Result<(usize, Vec<(usize, usize, usize)>), &'static str>)
    requires
        old(frames).wf(),
        covers(old(mem)@, *old(frames)),
        kernel_pml4 % 8 == 0,
        segments_fit(elf_segments@),
    ensures
        final(mem)@.len() == old(mem)@.len(),
        final(frames).wf(),
        final(frames).frame_count() == old(frames).frame_count(),
        final(frames).total_ram_view() == old(frames).total_ram_view(),
        match r {
            Ok((pml4, recs)) => task_built(old(mem)@, *old(frames), final(mem)@, *final(frames), kernel_pml4 as u64, elf_segments@,
                pml4 as u64, recs@) && forall|k: int| 0 <= k < recs@.len() ==> (#[trigger] recs@[k]).1 == 4096,
            Err(e) => {
                &&& e == "out of frames for page tables"
                &&& forall|g: int| 0 <= g < final(frames).frame_count() ==> #[trigger] final(frames).used(g)
            },
        },
{
    let ghost m0 = mem@;
    let ghost a0 = *frames;
    let pml4 = match alloc_table(mem, frames, stats) {
        Ok(t) => t,
        Err(e) => {
            proof {
                assert forall|g: int| 0 <= g < frames.frame_count() implies #[trigger] frames.used(g) by {
                    assert(a0.used(g));
                }
            }
            return Err(e);
        },
    };
    let ghost a1 = *frames;
    proof {
        lemma_grew_one(a0, a1, m0, pml4);
    }
    let kentry = mem.load(kernel_pml4 as u64);
    let kpdpt = kentry & ADDR_MASK;
    proof {
        lemma_next_aligned(kentry);
    }
    let pdpt = match alloc_table(mem, frames, stats) {
        Ok(t) => t,
        Err(e) => {
            proof {
                assert forall|g: int| 0 <= g < frames.frame_count() implies #[trigger] frames.used(g) by {
                    assert(a1.used(g));
                }
            }
            return Err(e);
        },
    };
    let ghost m2 = mem@;
    let ghost a2 = *frames;
    proof {
        lemma_grew_one(a1, a2, m0, pdpt);
        lemma_grew_chain(a0, a1, a2, m0, seq![pml4], seq![pdpt]);
        assert(seq![pml4] + seq![pdpt] =~= seq![pml4, pdpt]);
    }
    let pds = match clone_kernel_pdpt(mem, frames, stats, kpdpt, pdpt) {
        Ok(p) => p,
        Err(e) => {
            return Err(e);
        },
    };
    let ghost a3 = *frames;
    let ghost pre = seq![pml4, pdpt] + clone_taken(m2, kpdpt, pdpt, pds@);
    proof {
        lemma_grew_chain(a0, a2, a3, m0, seq![pml4, pdpt], clone_taken(m2, kpdpt, pdpt, pds@));
    }
    mem.write_u64(pml4, table_entry_user(pdpt));
    let ghost m4 = mem@;
    proof {
        lemma_frame_fits(a0, pml4);
    }
    let pml4_us = pml4 as usize;
    let (recs, g) = match map_task_pages(mem, frames, stats, pml4_us, elf_segments) {
        Ok(v) => v,
        Err(e) => {
            return Err(e);
        },
    };
    proof {
        let (datas, splits) = g@;
        let tp = task_pages(elf_segments@);
        let pt = pages_taken(m4, pml4, tp, datas, splits);
        lemma_grew_chain(a0, a3, *frames, m0, pre, pt);
        assert(task_taken(m0, kernel_pml4 as u64, tp, pml4, pdpt, pds@, datas, splits) =~= pre + pt);
        assert(mem@ == task_tables(old(mem)@, kernel_pml4 as u64, tp, pml4_us as u64, pdpt, pds@, datas, splits));
        assert(task_built(old(mem)@, *old(frames), mem@, *frames, kernel_pml4 as u64, elf_segments@, pml4_us as u64, recs@));
        assert(recs@ == page_records(tp, datas));
    }
    Ok((pml4_us, recs))
}

} // verus!
