//! Tearing down a user task's page tables: every table the task's PML4
//! leads to that is not shared with the kernel goes back to the frame
//! allocator.
use vstd::prelude::*;
use crate::physmem::{PhysMem, released, lemma_released_one, lemma_released_chain};
use crate::frame::{FrameAllocator, PhysFrame};
use crate::stats::KernelStats;
use crate::arch::x86_64::paging::{P_PRESENT, P_SIZE, ADDR_MASK, present, large, next, entry_tot};

verus! {

/// The frame number of the table or page at `a`.
pub open spec fn frame_of(a: u64) -> int {
    ((a / 4096) as usize) as int
}

/// The PTs that entries `0..k` of the PD at `pd` point at.
pub open spec fn pt_frames(m: Seq<u64>, pd: u64, k: int) -> Seq<int>
    decreases k,
{
    if k <= 0 {
        Seq::empty()
    } else {
        let e = entry_tot(m, pd, k - 1);
        pt_frames(m, pd, k - 1) + if present(e) && !large(e) { seq![frame_of(next(e))] } else { Seq::empty() }
    }
}

/// The PDs that entries `0..j` of the PDPT at `pdpt` point at, each after
/// its PTs.
pub open spec fn pd_frames(m: Seq<u64>, pdpt: u64, j: int) -> Seq<int>
    decreases j,
{
    if j <= 0 {
        Seq::empty()
    } else {
        let e = entry_tot(m, pdpt, j - 1);
        pd_frames(m, pdpt, j - 1) + if present(e) && !large(e) {
            pt_frames(m, next(e), 512) + seq![frame_of(next(e))]
        } else {
            Seq::empty()
        }
    }
}

/// The PDPTs that entries `0..i` of the task PML4 at `pml4` point at,
/// each after its PDs and PTs, skipping entries equal to the kernel
/// PML4's at `kpml4`.
pub open spec fn pml4_frames(m: Seq<u64>, kpml4: u64, pml4: u64, i: int) -> Seq<int>
    decreases i,
{
    if i <= 0 {
        Seq::empty()
    } else {
        let ue = entry_tot(m, pml4, i - 1);
        let ke = entry_tot(m, kpml4, i - 1);
        pml4_frames(m, kpml4, pml4, i - 1) + if present(ue) && ue != ke {
            pd_frames(m, next(ue), 512) + seq![frame_of(next(ue))]
        } else {
            Seq::empty()
        }
    }
}

/// The frames of a task's page tables, in the order they are given back.
pub open spec fn task_table_frames(m: Seq<u64>, kpml4: u64, pml4: u64) -> Seq<int> {
    pml4_frames(m, kpml4, pml4, 512) + seq![frame_of(pml4)]
}

/// Give back frame `a`'s frame.
fn release_frame(frames: &mut FrameAllocator, stats: &mut KernelStats, a: u64)
    requires
        old(frames).wf(),
    ensures
        released(*old(frames), *final(frames), seq![frame_of(a)]),
{
    let f = PhysFrame { number: (a / 4096) as usize };
    let ghost before = *frames;
    frames.deallocate_frame(f, stats);
    proof {
        lemma_released_one(before, *frames, f.number as int);
    }
}

/// Give back the PTs the PD at `pd` points at.
fn free_pts(mem: &PhysMem, frames: &mut FrameAllocator, stats: &mut KernelStats, pd: u64)
    requires
        old(frames).wf(),
        pd % 4096 == 0,
    ensures
        released(*old(frames), *final(frames), pt_frames(mem@, pd, 512)),
{
    let ghost a0 = *frames;
    let mut k: u64 = 0;
    proof {
        assert(released(a0, *frames, Seq::empty()));
    }
    while k < 512
        invariant
            0 <= k <= 512,
            a0 == *old(frames),
            a0.wf(),
            pd % 4096 == 0,
            released(a0, *frames, pt_frames(mem@, pd, k as int)),
        decreases 512 - k,
    {
        let ghost a1 = *frames;
        let e = mem.load(pd + 8 * k);
        if e & P_PRESENT != 0 && e & P_SIZE == 0 {
            release_frame(frames, stats, e & ADDR_MASK);
            proof {
                lemma_released_chain(a0, a1, *frames, pt_frames(mem@, pd, k as int), seq![frame_of(next(e))]);
            }
        } else {
            proof {
                assert(pt_frames(mem@, pd, k + 1) =~= pt_frames(mem@, pd, k as int));
            }
        }
        k = k + 1;
    }
}

/// What entry `j` of the PDPT at `pdpt` gives back: the PD it points at,
/// after that PD's PTs.
pub open spec fn pd_entry_frames(m: Seq<u64>, pdpt: u64, j: int) -> Seq<int> {
    let e = entry_tot(m, pdpt, j);
    if present(e) && !large(e) { pt_frames(m, next(e), 512) + seq![frame_of(next(e))] } else { Seq::empty() }
}

/// Give back what entry `j` of the PDPT at `pdpt` points at.
fn free_pd_entry(mem: &PhysMem, frames: &mut FrameAllocator, stats: &mut KernelStats, pdpt: u64, j: u64)
    requires
        old(frames).wf(),
        pdpt % 4096 == 0,
        j < 512,
    ensures
        released(*old(frames), *final(frames), pd_entry_frames(mem@, pdpt, j as int)),
{
    let ghost a0 = *frames;
    let e = mem.load(pdpt + 8 * j);
    if e & P_PRESENT != 0 && e & P_SIZE == 0 {
        let pd = e & ADDR_MASK;
        proof {
            crate::arch::x86_64::paging::lemma_next_aligned(e);
        }
        free_pts(mem, frames, stats, pd);
        let ghost a1 = *frames;
        release_frame(frames, stats, pd);
        proof {
            lemma_released_chain(a0, a1, *frames, pt_frames(mem@, pd, 512), seq![frame_of(pd)]);
        }
    } else {
        proof {
            assert(released(a0, *frames, Seq::empty()));
        }
    }
}

/// Give back the PDs the PDPT at `pdpt` points at, each after its PTs.
fn free_pds(mem: &PhysMem, frames: &mut FrameAllocator, stats: &mut KernelStats, pdpt: u64)
    requires
        old(frames).wf(),
        pdpt % 4096 == 0,
    ensures
        released(*old(frames), *final(frames), pd_frames(mem@, pdpt, 512)),
{
    let ghost a0 = *frames;
    let mut j: u64 = 0;
    proof {
        assert(released(a0, *frames, Seq::empty()));
    }
    while j < 512
        invariant
            0 <= j <= 512,
            a0 == *old(frames),
            a0.wf(),
            pdpt % 4096 == 0,
            released(a0, *frames, pd_frames(mem@, pdpt, j as int)),
        decreases 512 - j,
    {
        let ghost a1 = *frames;
        free_pd_entry(mem, frames, stats, pdpt, j);
        proof {
            lemma_released_chain(a0, a1, *frames, pd_frames(mem@, pdpt, j as int), pd_entry_frames(mem@, pdpt, j as int));
            assert(pd_frames(mem@, pdpt, j + 1) =~= pd_frames(mem@, pdpt, j as int) + pd_entry_frames(mem@, pdpt, j as int));
        }
        j = j + 1;
    }
}

/// What entry `i` of the task PML4 at `pml4` gives back, unless it is
/// the kernel PML4's: the PDPT it points at, after its PDs and PTs.
pub open spec fn pml4_entry_frames(m: Seq<u64>, kpml4: u64, pml4: u64, i: int) -> Seq<int> {
    let ue = entry_tot(m, pml4, i);
    let ke = entry_tot(m, kpml4, i);
    if present(ue) && ue != ke { pd_frames(m, next(ue), 512) + seq![frame_of(next(ue))] } else { Seq::empty() }
}

/// Give back what entry `i` of the task PML4 at `pml4` points at.
fn free_pml4_entry(mem: &PhysMem, frames: &mut FrameAllocator, stats: &mut KernelStats, kpml4: u64, pml4: u64, i: u64)
    requires
        old(frames).wf(),
        pml4 % 4096 == 0,
        kpml4 % 4096 == 0,
        i < 512,
    ensures
        released(*old(frames), *final(frames), pml4_entry_frames(mem@, kpml4, pml4, i as int)),
{
    let ghost a0 = *frames;
    let ue = mem.load(pml4 + 8 * i);
    let ke = mem.load(kpml4 + 8 * i);
    if ue & P_PRESENT != 0 && ue != ke {
        let pdpt = ue & ADDR_MASK;
        proof {
            crate::arch::x86_64::paging::lemma_next_aligned(ue);
        }
        free_pds(mem, frames, stats, pdpt);
        let ghost a1 = *frames;
        release_frame(frames, stats, pdpt);
        proof {
            lemma_released_chain(a0, a1, *frames, pd_frames(mem@, pdpt, 512), seq![frame_of(pdpt)]);
        }
    } else {
        proof {
            assert(released(a0, *frames, Seq::empty()));
        }
    }
}

/// Give back a task's page tables: for each PML4 entry that is present
/// and not the kernel's, its PDPT after the PDs and PTs below it; then
/// the PML4 itself. Entries equal to the kernel PML4's are shared and
/// kept.
pub fn free_user_page_tables(mem: &PhysMem, frames: &mut FrameAllocator, stats: &mut KernelStats, kernel_pml4: usize, pml4_pa: usize)
    requires
        old(frames).wf(),
        kernel_pml4 % 4096 == 0,
        pml4_pa % 4096 == 0,
    ensures
        released(*old(frames), *final(frames), task_table_frames(mem@, kernel_pml4 as u64, pml4_pa as u64)),
{
    let pml4 = pml4_pa as u64;
    let kpml4 = kernel_pml4 as u64;
    let ghost a0 = *frames;
    let mut i: u64 = 0;
    proof {
        assert(released(a0, *frames, Seq::empty()));
    }
    while i < 512
        invariant
            0 <= i <= 512,
            a0 == *old(frames),
            a0.wf(),
            pml4 % 4096 == 0,
            kpml4 % 4096 == 0,
            pml4 == pml4_pa as u64,
            kpml4 == kernel_pml4 as u64,
            released(a0, *frames, pml4_frames(mem@, kpml4, pml4, i as int)),
        decreases 512 - i,
    {
        let ghost a1 = *frames;
        free_pml4_entry(mem, frames, stats, kpml4, pml4, i);
        proof {
            lemma_released_chain(a0, a1, *frames, pml4_frames(mem@, kpml4, pml4, i as int), pml4_entry_frames(mem@, kpml4, pml4, i as int));
            assert(pml4_frames(mem@, kpml4, pml4, i + 1) =~= pml4_frames(mem@, kpml4, pml4, i as int) + pml4_entry_frames(mem@, kpml4, pml4, i as int));
        }
        i = i + 1;
    }
    let ghost a1 = *frames;
    release_frame(frames, stats, pml4);
    proof {
        lemma_released_chain(a0, a1, *frames, pml4_frames(mem@, kpml4, pml4, 512), seq![frame_of(pml4)]);
    }
}

} // verus!
