//! Giving a user task a new program: its old pages and tables go back,
//! new tables are built for the program's segments, the segments' bytes
//! are copied into their frames, the stack page is mapped and cleared,
//! and the task's first frame is rebuilt to enter the program.
use vstd::prelude::*;
use crate::elf::{ElfImage, ElfSegment};
use crate::arch::x86_64::user_tables::SegmentInfo;
use crate::physmem::{PhysMem, frame_in, frame_with_bytes, released, lemma_released_one, lemma_released_chain, frame_free, covers};
use crate::task::{Task, Scheduler, MAX_USER_FRAMES, MAX_TASKS, nonzero};
use crate::frame::{FrameAllocator, PhysFrame, marks_only};
use crate::stats::KernelStats;
use crate::arch::x86_64::teardown::{free_user_page_tables, task_table_frames};
use crate::arch::x86_64::user_tables::{USER_STACK_VA, create_user_page_tables, task_built, segments_fit};
use crate::arch::x86_64::paging::{map_user_page, user_pt_step, user_pt_splits, took};
use crate::physmem::store_of;
use crate::task_frames::{rebuild_userspace_frame, build_userspace_frame, words_at, iret_frame, FRAME_BYTES, USER_CS, USER_SS};
use crate::task::{first_unused_from, lemma_first_unused_range};
use crate::arch::x86_64::user_tables::USER_BASE_VA;
use crate::elf::parse_elf;
use crate::elf_builder::{build_flat_elf, flat_elf_spec, flat_segment, lemma_flat_elf_parses};
use crate::text::sub_slice;

verus! {

/// The segments of `img` as the table builder takes them.
pub open spec fn image_segments(img: ElfImage) -> Seq<SegmentInfo> {
    img.loaded().map_values(|s: ElfSegment| (s.vaddr, s.data_offset, s.filesz, s.memsz, s.flags))
}

/// The loadable segments of `image`.
pub fn segments_of(image: &ElfImage) -> (v: Vec<SegmentInfo>)
    requires
        image.segment_count <= 8,
    ensures
        v@ == image_segments(*image),
{
    let mut v: Vec<SegmentInfo> = Vec::new();
    let mut i: usize = 0;
    while i < image.segment_count
        invariant
            0 <= i <= image.segment_count <= 8,
            v@ == image_segments(*image).subrange(0, i as int),
        decreases image.segment_count - i,
    {
        let s = image.segments[i];
        v.push((s.vaddr, s.data_offset, s.filesz, s.memsz, s.flags));
        proof {
            assert(v@ =~= image_segments(*image).subrange(0, i + 1));
        }
        i = i + 1;
    }
    assert(image_segments(*image).subrange(0, i as int) =~= image_segments(*image));
    v
}

/// The bytes of `seg` in the ELF file `elf`, or none when they lie past
/// its end.
pub open spec fn seg_bytes(elf: Seq<u8>, seg: ElfSegment) -> Seq<u8> {
    if seg.data_offset + seg.filesz <= elf.len() { elf.subrange(seg.data_offset as int, seg.data_offset + seg.filesz) } else { Seq::empty() }
}

/// The bytes of segment `seg` in the ELF file `elf`.
pub fn elf_bytes_for_seg(elf: &[u8], seg: &ElfSegment) -> (r: Vec<u8>)
    requires
        seg.data_offset + seg.filesz <= usize::MAX,
    ensures
        r@ == seg_bytes(elf@, *seg),
{
    if seg.data_offset + seg.filesz <= elf.len() {
        vstd::slice::slice_to_vec(vstd::slice::slice_subrange(elf, seg.data_offset, seg.data_offset + seg.filesz))
    } else {
        Vec::new()
    }
}

/// Whether the page at `vaddr` lies in segment `seg`.
pub open spec fn seg_covers(seg: ElfSegment, vaddr: usize) -> bool {
    seg.vaddr <= vaddr < seg.vaddr + seg.memsz
}

/// The part of the file to copy into the page at `vaddr` of `seg`: from
/// where and how much, when the page holds file data that lies within
/// the file of `elf_len` bytes.
pub open spec fn copy_of(seg: ElfSegment, vaddr: usize, elf_len: int) -> Option<(int, int)> {
    let off = vaddr - seg.vaddr;
    if off < seg.filesz {
        let start = seg.data_offset + off;
        let len = if 4096 < seg.filesz - off { 4096 } else { seg.filesz - off };
        if start + len <= elf_len { Some((start, len)) } else { None }
    } else {
        None
    }
}

/// Walking the page records `recs` (address, size, frame) against the
/// segments from segment `si` and record `fi`: each segment takes the
/// records that follow while they lie in it. Gives the copies to make
/// (frame, file offset, length), the frames taken, and the first record
/// left over.
pub open spec fn copy_walk(segs: Seq<ElfSegment>, recs: Seq<(usize, usize, usize)>, elf_len: int, si: int, fi: int)
    -> (Seq<(usize, int, int)>, Seq<usize>, int)
    decreases segs.len() - si, recs.len() - fi,
{
    if si < 0 || si >= segs.len() || fi < 0 {
        (Seq::empty(), Seq::empty(), fi)
    } else if fi >= recs.len() || !seg_covers(segs[si], recs[fi].0) {
        copy_walk(segs, recs, elf_len, si + 1, fi)
    } else {
        let (c, t, f) = copy_walk(segs, recs, elf_len, si, fi + 1);
        let here = match copy_of(segs[si], recs[fi].0, elf_len) {
            Some((start, len)) => seq![(recs[fi].2, start, len)],
            None => Seq::empty(),
        };
        (here + c, seq![recs[fi].2] + t, f)
    }
}

/// The copies made one after the other.
pub open spec fn apply_copies(m: Seq<u64>, elf: Seq<u8>, copies: Seq<(usize, int, int)>) -> Seq<u64>
    decreases copies.len(),
{
    if copies.len() == 0 {
        m
    } else {
        let (pa, start, len) = copies.last();
        let before = apply_copies(m, elf, copies.drop_last());
        if frame_in(before, pa as int) { frame_with_bytes(before, pa as int, elf.subrange(start, start + len)) } else { before }
    }
}

proof fn lemma_apply_copies_len(m: Seq<u64>, elf: Seq<u8>, copies: Seq<(usize, int, int)>)
    ensures
        apply_copies(m, elf, copies).len() == m.len(),
    decreases copies.len(),
{
    if copies.len() > 0 {
        lemma_apply_copies_len(m, elf, copies.drop_last());
    }
}

/// The segments' sizes and file offsets leave room below the end of the
/// address space.
pub open spec fn image_fits(img: ElfImage) -> bool {
    &&& img.segment_count <= 8
    &&& forall|i: int| 0 <= i < img.segment_count ==> #[trigger] img.segments@[i].vaddr + img.segments@[i].memsz + 4096 <= usize::MAX
        && img.segments@[i].data_offset + img.segments@[i].memsz + 4096 <= usize::MAX
        && img.segments@[i].data_offset + img.segments@[i].filesz <= usize::MAX
}

/// Copy each segment's file bytes into the frames of its pages, the rest
/// of each such frame cleared: the frames taken, and the first record
/// left over.
pub fn copy_segments(mem: &mut PhysMem, image: &ElfImage, elf_data: &[u8], recs: &Vec<(usize, usize, usize)>)
    -> (r: (Vec<usize>, usize))
    requires
        image_fits(*image),
    ensures
        ({
            let (c, t, f) = copy_walk(image.loaded(), recs@, elf_data@.len() as int, 0, 0);
            &&& final(mem)@ == apply_copies(old(mem)@, elf_data@, c)
            &&& r.0@ == t
            &&& r.1 == f
        }),
{
    let ghost segs = image.loaded();
    let ghost elen = elf_data@.len() as int;
    let ghost whole = copy_walk(segs, recs@, elen, 0, 0);
    let ghost m0 = mem@;
    let ghost mut copies: Seq<(usize, int, int)> = Seq::empty();
    let mut taken: Vec<usize> = Vec::new();
    let mut frame_idx: usize = 0;
    let mut seg_i: usize = 0;
    while seg_i < image.segment_count
        invariant
            image_fits(*image),
            segs == image.loaded(),
            elen == elf_data@.len(),
            whole == copy_walk(segs, recs@, elen, 0, 0),
            0 <= seg_i <= image.segment_count,
            0 <= frame_idx <= recs@.len(),
            whole.0 == copies + copy_walk(segs, recs@, elen, seg_i as int, frame_idx as int).0,
            whole.1 == taken@ + copy_walk(segs, recs@, elen, seg_i as int, frame_idx as int).1,
            whole.2 == copy_walk(segs, recs@, elen, seg_i as int, frame_idx as int).2,
            mem@ == apply_copies(m0, elf_data@, copies),
        decreases image.segment_count - seg_i,
    {
        let seg = image.segments[seg_i];
        proof {
            assert(segs[seg_i as int] == seg);
            assert(image.segments@[seg_i as int] == seg);
        }
        while frame_idx < recs.len()
            invariant_except_break
                image_fits(*image),
                segs == image.loaded(),
                elen == elf_data@.len(),
                whole == copy_walk(segs, recs@, elen, 0, 0),
                0 <= seg_i < image.segment_count,
                seg == segs[seg_i as int],
                seg.vaddr + seg.memsz + 4096 <= usize::MAX,
                seg.data_offset + seg.memsz + 4096 <= usize::MAX,
                0 <= frame_idx <= recs@.len(),
                whole.0 == copies + copy_walk(segs, recs@, elen, seg_i as int, frame_idx as int).0,
                whole.1 == taken@ + copy_walk(segs, recs@, elen, seg_i as int, frame_idx as int).1,
                whole.2 == copy_walk(segs, recs@, elen, seg_i as int, frame_idx as int).2,
                mem@ == apply_copies(m0, elf_data@, copies),
            ensures
                0 <= frame_idx <= recs@.len(),
                whole.0 == copies + copy_walk(segs, recs@, elen, seg_i + 1, frame_idx as int).0,
                whole.1 == taken@ + copy_walk(segs, recs@, elen, seg_i + 1, frame_idx as int).1,
                whole.2 == copy_walk(segs, recs@, elen, seg_i + 1, frame_idx as int).2,
                mem@ == apply_copies(m0, elf_data@, copies),
            decreases recs.len() - frame_idx,
        {
            let (vaddr, _size, phys) = recs[frame_idx];
            if vaddr < seg.vaddr || vaddr >= seg.vaddr + seg.memsz {
                break;
            }
            let ghost rest = copy_walk(segs, recs@, elen, seg_i as int, frame_idx + 1);
            let offset_in_seg = vaddr - seg.vaddr;
            let ghost here: Seq<(usize, int, int)> = Seq::empty();
            if offset_in_seg < seg.filesz {
                let copy_start = seg.data_offset + offset_in_seg;
                let copy_len = if 4096 < seg.filesz - offset_in_seg { 4096 } else { seg.filesz - offset_in_seg };
                if copy_start + copy_len <= elf_data.len() {
                    let ghost before = mem@;
                    let bytes = vstd::slice::slice_subrange(elf_data, copy_start, copy_start + copy_len);
                    mem.fill_frame(phys as u64, bytes);
                    proof {
                        here = seq![(phys, copy_start as int, copy_len as int)];
                        let c2 = copies.push((phys, copy_start as int, copy_len as int));
                        assert(c2.drop_last() =~= copies);
                        assert(mem@ == apply_copies(m0, elf_data@, c2));
                        copies = c2;
                    }
                }
            }
            proof {
                assert(copy_walk(segs, recs@, elen, seg_i as int, frame_idx as int) == (here + rest.0, seq![phys] + rest.1, rest.2));
                assert(copies + rest.0 =~= (copies.subrange(0, copies.len() - here.len()) + here) + rest.0);
            }
            taken.push(phys);
            proof {
                assert(whole.0 =~= copies + rest.0);
                assert(whole.1 =~= taken@ + rest.1);
            }
            frame_idx = frame_idx + 1;
        }
        seg_i = seg_i + 1;
    }
    proof {
        assert(copy_walk(segs, recs@, elen, seg_i as int, frame_idx as int).0 =~= Seq::<(usize, int, int)>::empty());
        assert(copy_walk(segs, recs@, elen, seg_i as int, frame_idx as int).1 =~= Seq::<usize>::empty());
        assert(whole.0 =~= copies);
        assert(whole.1 =~= taken@);
    }
    (taken, frame_idx)
}

/// The frame records `(frames, count)` with the frames `list` added while
/// there is room.
pub open spec fn with_tracked(frames: Seq<usize>, count: usize, list: Seq<usize>) -> (Seq<usize>, usize)
    decreases list.len(),
{
    if list.len() == 0 {
        (frames, count)
    } else {
        let (f, c) = with_tracked(frames, count, list.drop_last());
        if c < MAX_USER_FRAMES { (f.update(c as int, list.last()), (c + 1) as usize) } else { (f, c) }
    }
}

/// Task `t` with only its frame records changed, to `rec`.
pub open spec fn records_now(old_t: Task, t: Task, rec: (Seq<usize>, usize)) -> bool {
    &&& t.user_data_frames@ == rec.0
    &&& t.user_data_frame_count == rec.1
    &&& t.saved_sp == old_t.saved_sp && t.state == old_t.state && t.page_table_root == old_t.page_table_root
    &&& t.wake_tick == old_t.wake_tick && t.user_id == old_t.user_id
}

/// Add the frames `list` to task `t`'s records while there is room.
pub fn track_frames(t: &mut Task, list: &Vec<usize>)
    requires
        old(t).user_data_frame_count <= MAX_USER_FRAMES,
    ensures
        records_now(*old(t), *final(t), with_tracked(old(t).user_data_frames@, old(t).user_data_frame_count, list@)),
        final(t).user_data_frame_count <= MAX_USER_FRAMES,
{
    let ghost t0 = *t;
    let mut i: usize = 0;
    while i < list.len()
        invariant
            0 <= i <= list.len(),
            t0 == *old(t),
            t0.user_data_frame_count <= MAX_USER_FRAMES,
            records_now(t0, *t, with_tracked(t0.user_data_frames@, t0.user_data_frame_count, list@.subrange(0, i as int))),
            t.user_data_frame_count <= MAX_USER_FRAMES,
            t.user_data_frames@.len() == MAX_USER_FRAMES,
        decreases list.len() - i,
    {
        proof {
            assert(list@.subrange(0, i + 1).drop_last() =~= list@.subrange(0, i as int));
            assert(list@.subrange(0, i + 1).last() == list@[i as int]);
        }
        if t.user_data_frame_count < MAX_USER_FRAMES {
            let c = t.user_data_frame_count;
            t.user_data_frames[c] = list[i];
            t.user_data_frame_count = c + 1;
        }
        i = i + 1;
    }
    assert(list@.subrange(0, i as int) =~= list@);
}

/// The frame numbers of the data frames task `t` records.
pub open spec fn data_frame_numbers(t: Task) -> Seq<int> {
    nonzero(t.user_data_frames@.subrange(0, t.user_data_frame_count as int)).map_values(|pa: usize| pa as int / 4096)
}

/// Whether task `t` owns tables of its own, apart from the kernel's at
/// `kernel_root`.
pub open spec fn owns_tables(t: Task, kernel_root: usize) -> bool {
    t.page_table_root != kernel_root && t.page_table_root != 0
}

/// Task slot `idx` of `s0` after its old pages and tables went back (when
/// it owns tables): its records cleared, the allocator `a0` become `a1`.
pub open spec fn old_space_freed(s0: Seq<Task>, idx: int, m: Seq<u64>, a0: FrameAllocator, a1: FrameAllocator, s1: Seq<Task>, kpml4: u64) -> bool {
    let t = s0[idx];
    if owns_tables(t, s0[0].page_table_root) {
        &&& released(a0, a1, data_frame_numbers(t) + task_table_frames(m, kpml4, t.page_table_root as u64))
        &&& s1 == s0.update(idx, Task { user_data_frame_count: 0, ..t })
    } else {
        &&& a1.wf() && a1.frame_count() == a0.frame_count() && a1.total_ram_view() == a0.total_ram_view()
        &&& a1.bitmap_view() == a0.bitmap_view()
        &&& s1 == s0
    }
}

/// Give back the data frames that task `t` records.
fn free_data_frames(frames: &mut FrameAllocator, stats: &mut KernelStats, t: &Task)
    requires
        old(frames).wf(),
        t.user_data_frame_count <= MAX_USER_FRAMES,
    ensures
        released(*old(frames), *final(frames), data_frame_numbers(*t)),
{
    let ghost a0 = *frames;
    let ghost list = t.user_data_frames@;
    let mut i: usize = 0;
    proof {
        assert(nonzero(list.subrange(0, 0)) =~= Seq::<usize>::empty());
        assert(nonzero(list.subrange(0, 0)).map_values(|pa: usize| pa as int / 4096) =~= Seq::<int>::empty());
        assert(released(a0, *frames, Seq::empty()));
    }
    while i < t.user_data_frame_count
        invariant
            0 <= i <= t.user_data_frame_count <= MAX_USER_FRAMES,
            list == t.user_data_frames@,
            a0 == *old(frames),
            a0.wf(),
            released(a0, *frames, nonzero(list.subrange(0, i as int)).map_values(|pa: usize| pa as int / 4096)),
        decreases t.user_data_frame_count - i,
    {
        let pa = t.user_data_frames[i];
        let ghost a1 = *frames;
        let ghost prev = nonzero(list.subrange(0, i as int)).map_values(|pa: usize| pa as int / 4096);
        proof {
            assert(list.subrange(0, i + 1).drop_last() =~= list.subrange(0, i as int));
            assert(list.subrange(0, i + 1).last() == pa);
        }
        if pa != 0 {
            let f = PhysFrame::from_addr(pa);
            frames.deallocate_frame(f, stats);
            proof {
                lemma_released_one(a1, *frames, f.number as int);
                lemma_released_chain(a0, a1, *frames, prev, seq![f.number as int]);
                assert(nonzero(list.subrange(0, i + 1)).map_values(|pa: usize| pa as int / 4096) =~= prev + seq![f.number as int]);
            }
        } else {
            proof {
                assert(nonzero(list.subrange(0, i + 1)) == nonzero(list.subrange(0, i as int)));
            }
        }
        i = i + 1;
    }
    proof {
        assert(list.subrange(0, i as int) =~= t.user_data_frames@.subrange(0, t.user_data_frame_count as int));
    }
}

/// Give back task `idx`'s old data frames and tables when it owns
/// tables, clearing its records.
fn free_old_space(sched: &mut Scheduler, mem: &PhysMem, frames: &mut FrameAllocator, stats: &mut KernelStats, kernel_pml4: usize, idx: usize)
    requires
        old(sched).wf(),
        old(frames).wf(),
        0 < idx < MAX_TASKS,
        kernel_pml4 % 4096 == 0,
        owns_tables(old(sched).tasks_view()[idx as int], old(sched).tasks_view()[0].page_table_root)
            ==> old(sched).tasks_view()[idx as int].page_table_root % 4096 == 0,
    ensures
        final(sched).wf(),
        final(sched).current_view() == old(sched).current_view(),
        final(sched).ticks_view() == old(sched).ticks_view(),
        old_space_freed(old(sched).tasks_view(), idx as int, mem@, *old(frames), *final(frames), final(sched).tasks_view(), kernel_pml4 as u64),
{
    let t = sched.task(idx);
    let kernel_root = sched.task(0).page_table_root;
    if t.page_table_root != kernel_root && t.page_table_root != 0 {
        let ghost a0 = *frames;
        free_data_frames(frames, stats, &t);
        let ghost a1 = *frames;
        free_user_page_tables(mem, frames, stats, kernel_pml4, t.page_table_root);
        proof {
            lemma_released_chain(a0, a1, *frames, data_frame_numbers(t), task_table_frames(mem@, kernel_pml4 as u64, t.page_table_root as u64));
        }
        let mut t2 = t;
        t2.user_data_frame_count = 0;
        sched.put_task(idx, t2);
    }
}


/// Where a started program's stack pointer points: the top of its stack
/// page.
pub const USER_STACK_TOP: usize = 0x50_1000;

/// Index of the stack page's entry in its page table.
pub open spec fn stack_pt_index() -> int {
    ((USER_STACK_VA as int) / 4096) % 512
}

/// Memory `m` with the frame at `pa` cleared, when it lies in `m`.
pub open spec fn cleared_frame(m: Seq<u64>, pa: u64) -> Seq<u64> {
    if frame_in(m, pa as int) { frame_with_bytes(m, pa as int, Seq::empty()) } else { m }
}

/// One way the stack phase can go: the page table of the stack page is
/// looked up twice in the tables at `pml4` (from `m0`, `a0` to `m1`,
/// `a_mid`, then to `m2`, `a1`, giving tables `t1` and `t2`), the entry
/// for the stack page in `t2` is set to `page` (user, writable, present),
/// and the page is cleared, giving `m3`.
pub open spec fn stack_steps(m0: Seq<u64>, a0: FrameAllocator, pml4: u64, page: u64, m1: Seq<u64>, a_mid: FrameAllocator,
    t1: u64, m2: Seq<u64>, a1: FrameAllocator, t2: u64, m3: Seq<u64>) -> bool {
    &&& (m1, t1) == user_pt_step(m0, pml4, USER_STACK_VA as u64, t1)
    &&& took(a0, a_mid, user_pt_splits(m0, pml4, USER_STACK_VA as u64), t1)
    &&& (m2, t2) == user_pt_step(m1, pml4, USER_STACK_VA as u64, t2)
    &&& took(a_mid, a1, user_pt_splits(m1, pml4, USER_STACK_VA as u64), t2)
    &&& t2 % 4096 == 0
    &&& m3 == cleared_frame(store_of(m2, (t2 + 8 * stack_pt_index()) as u64, page | 0x07), page)
}

/// The stack phase took memory `m0` and allocator `a0` to `m3` and `a1`.
pub open spec fn stack_mapped(m0: Seq<u64>, a0: FrameAllocator, m3: Seq<u64>, a1: FrameAllocator, pml4: u64, page: u64) -> bool {
    exists|m1: Seq<u64>, a_mid: FrameAllocator, t1: u64, m2: Seq<u64>, t2: u64|
        #[trigger] stack_steps(m0, a0, pml4, page, m1, a_mid, t1, m2, a1, t2, m3)
}

/// Map the stack page `page` at USER_STACK_VA in the task tables at `pml4`
/// (user, writable) and clear it.
pub fn set_up_stack(mem: &mut PhysMem, frames: &mut FrameAllocator, stats: &mut KernelStats, pml4: usize, page: usize)
    -> (r: Result<(), &'static str>)
    requires
        old(frames).wf(),
        covers(old(mem)@, *old(frames)),
        pml4 % 4096 == 0,
    ensures
        final(mem)@.len() == old(mem)@.len(),
        final(frames).wf(),
        final(frames).frame_count() == old(frames).frame_count(),
        final(frames).total_ram_view() == old(frames).total_ram_view(),
        r is Ok ==> stack_mapped(old(mem)@, *old(frames), final(mem)@, *final(frames), pml4 as u64, page as u64),
        r is Err ==> r == Err::<(), &'static str>("out of frames for page tables")
            && forall|g: int| 0 <= g < final(frames).frame_count() ==> #[trigger] final(frames).used(g),
{
    let ghost m0 = mem@;
    let ghost a0 = *frames;
    let t1 = match map_user_page(mem, frames, stats, pml4, USER_STACK_VA) {
        Ok(t) => t,
        Err(e) => {
            return Err(e);
        },
    };
    let ghost m1 = mem@;
    let ghost a_mid = *frames;
    let t2 = match map_user_page(mem, frames, stats, pml4, USER_STACK_VA) {
        Ok(t) => t,
        Err(e) => {
            return Err(e);
        },
    };
    let ghost m2 = mem@;
    let pt_index: u64 = ((USER_STACK_VA >> 12) & 0x1FF) as u64;
    assert(((0x50_0000usize >> 12usize) & 0x1FFusize) == 256usize) by (bit_vector);
    assert(stack_pt_index() == 256);
    mem.store(t2 + 8 * pt_index, (page as u64) | 0x07);
    mem.fill_frame(page as u64, &[]);
    proof {
        assert(stack_steps(m0, a0, pml4 as u64, page as u64, m1, a_mid, t1, m2, *frames, t2, mem@));
    }
    Ok(())
}

/// What giving task `idx` the program `image` (file bytes `elf`) did,
/// from task table `s0`, memory `m0` and allocator `a0` to `s1`, `m1` and
/// `a1`: its old space went back (giving `sf`, `af`); the new tables were
/// built at `pml4` with page records `recs` (giving `mb`, `ab`); each
/// segment's bytes were copied into its frames; the stack page `page` was
/// mapped and cleared; the register frame to enter the program at its
/// entry point with the stack pointer at USER_STACK_TOP was laid out
/// under `kstack_top`; and the task now runs on the new tables from that
/// frame, its records listing the frames taken (and a fresh stack frame
/// when one was needed).
pub open spec fn replaced_with(s0: Seq<Task>, m0: Seq<u64>, a0: FrameAllocator, s1: Seq<Task>, m1: Seq<u64>, a1: FrameAllocator,
    kpml4: u64, kstack_top: u64, idx: int, image: ElfImage, elf: Seq<u8>,
    sf: Seq<Task>, af: FrameAllocator, pml4: u64, recs: Seq<(usize, usize, usize)>, mb: Seq<u64>, ab: FrameAllocator,
    page: u64, a_stack: FrameAllocator, ms: Seq<u64>) -> bool {
    let walk = copy_walk(image.loaded(), recs, elf.len() as int, 0, 0);
    let mc = apply_copies(mb, elf, walk.0);
    let t0 = sf[idx];
    let kept = with_tracked(t0.user_data_frames@, t0.user_data_frame_count, walk.1);
    let fresh = walk.2 >= recs.len();
    let rec = if fresh { with_tracked(kept.0, kept.1, seq![page as usize]) } else { kept };
    let sp = (kstack_top - FRAME_BYTES) as u64;
    &&& old_space_freed(s0, idx, m0, a0, af, sf, kpml4)
    &&& task_built(m0, af, mb, ab, kpml4, image_segments(image), pml4, recs)
    &&& (if fresh {
        &&& page % 4096 == 0 && frame_free(ab, (page / 4096) as int)
        &&& marks_only(ab.bitmap_view(), a_stack.bitmap_view(), (page / 4096) as int, true)
        &&& a_stack.wf() && a_stack.frame_count() == ab.frame_count() && a_stack.total_ram_view() == ab.total_ram_view()
    } else {
        &&& page == recs[walk.2].2 as u64
        &&& a_stack == ab
    })
    &&& stack_mapped(mc, a_stack, ms, a1, pml4, page)
    &&& m1 == words_at(ms, sp, iret_frame(image.entry_point as u64, USER_CS, USER_STACK_TOP as u64, USER_SS))
    &&& s1 == sf.update(idx, Task {
        page_table_root: pml4 as usize,
        saved_sp: sp as usize,
        user_data_frames: s1[idx].user_data_frames,
        user_data_frame_count: rec.1,
        ..t0
    })
    &&& s1[idx].user_data_frames@ == rec.0
}

/// Task `idx` was given the program `image` (file bytes `elf`), taking the
/// task table, memory and allocator from `s0`, `m0`, `a0` to `s1`, `m1`,
/// `a1`, through some intermediate states as `replaced_with` describes.
pub open spec fn program_replaced(s0: Seq<Task>, m0: Seq<u64>, a0: FrameAllocator, s1: Seq<Task>, m1: Seq<u64>, a1: FrameAllocator,
    kpml4: u64, kstack_top: u64, idx: int, image: ElfImage, elf: Seq<u8>) -> bool {
    exists|sf: Seq<Task>, af: FrameAllocator, pml4: u64, recs: Seq<(usize, usize, usize)>, mb: Seq<u64>, ab: FrameAllocator,
        page: u64, a_stack: FrameAllocator, ms: Seq<u64>|
        #[trigger] replaced_with(s0, m0, a0, s1, m1, a1, kpml4, kstack_top, idx, image, elf, sf, af, pml4, recs, mb, ab, page,
            a_stack, ms)
}

/// Give task `idx` a new program: the ELF image `image`, parsed from the
/// file bytes `elf_data`. Its old user pages and tables go back, new
/// tables are built for the program's segments, the segments' bytes are
/// copied in, the stack page is mapped and cleared, and the task's
/// register frame (on its kernel stack, whose top is `kstack_top`) is
/// rebuilt to enter the program. Gives the new user stack pointer.
pub fn replace_address_space(sched: &mut Scheduler, mem: &mut PhysMem, frames: &mut FrameAllocator, stats: &mut KernelStats,
    kernel_pml4: usize, kstack_top: u64, task_idx: usize, image: &ElfImage, elf_data: &[u8]) -> (r: Result<usize, &'static str>)
    requires
        old(sched).wf(),
        old(frames).wf(),
        covers(old(mem)@, *old(frames)),
        image_fits(*image),
        kernel_pml4 % 4096 == 0,
        kstack_top % 8 == 0,
        FRAME_BYTES <= kstack_top,
        0 < task_idx < MAX_TASKS && owns_tables(old(sched).tasks_view()[task_idx as int], old(sched).tasks_view()[0].page_table_root)
            ==> old(sched).tasks_view()[task_idx as int].page_table_root % 4096 == 0,
    ensures
        final(sched).wf(),
        final(frames).wf(),
        final(mem)@.len() == old(mem)@.len(),
        final(sched).current_view() == old(sched).current_view(),
        final(sched).ticks_view() == old(sched).ticks_view(),
        task_idx == 0 || task_idx >= MAX_TASKS ==> r == Err::<usize, &'static str>("invalid task index")
            && *final(sched) == *old(sched) && final(mem)@ == old(mem)@ && *final(frames) == *old(frames),
        r is Ok ==> r == Ok::<usize, &'static str>(USER_STACK_TOP) && program_replaced(old(sched).tasks_view(), old(mem)@,
            *old(frames), final(sched).tasks_view(), final(mem)@, *final(frames), kernel_pml4 as u64, kstack_top,
            task_idx as int, *image, elf_data@),
        0 < task_idx < MAX_TASKS && r is Err ==> (r == Err::<usize, &'static str>("out of frames for page tables")
            || r == Err::<usize, &'static str>("no free frames for stack"))
            && forall|g: int| 0 <= g < final(frames).frame_count() ==> #[trigger] final(frames).used(g),
{
    if task_idx == 0 || task_idx >= MAX_TASKS {
        return Err("invalid task index");
    }
    let ghost s0 = sched.tasks_view();
    let ghost m0 = mem@;
    let ghost a0 = *frames;
    free_old_space(sched, mem, frames, stats, kernel_pml4, task_idx);
    let ghost sf = sched.tasks_view();
    let ghost af = *frames;
    let segs = segments_of(image);
    proof {
        assert forall|i: int| 0 <= i < segs@.len() implies #[trigger] segs@[i].0 + segs@[i].3 + 4096 <= usize::MAX by {
            assert(segs@[i] == (image.segments@[i].vaddr, image.segments@[i].data_offset, image.segments@[i].filesz,
                image.segments@[i].memsz, image.segments@[i].flags));
        }
        assert(segments_fit(segs@));
    }
    let (pml4, recs) = match create_user_page_tables(mem, frames, stats, kernel_pml4, segs.as_slice()) {
        Ok(v) => v,
        Err(e) => {
            return Err(e);
        },
    };
    let ghost mb = mem@;
    let ghost ab = *frames;
    let (taken, frame_idx) = copy_segments(mem, image, elf_data, &recs);
    proof {
        lemma_apply_copies_len(mb, elf_data@, copy_walk(image.loaded(), recs@, elf_data@.len() as int, 0, 0).0);
    }
    let mut t = sched.task(task_idx);
    let ghost t0 = t;
    let ghost walk = copy_walk(image.loaded(), recs@, elf_data@.len() as int, 0, 0);
    let ghost kept = with_tracked(t0.user_data_frames@, t0.user_data_frame_count, walk.1);
    proof {
        assert(t0 == sf[task_idx as int]);
        assert(t0.user_data_frame_count <= MAX_USER_FRAMES);
    }
    track_frames(&mut t, &taken);
    assert(records_now(t0, t, kept));
    let page: usize;
    if frame_idx < recs.len() {
        page = recs[frame_idx].2;
    } else {
        let ghost start = if frames.next_free_view() < (frames.frame_count() + 63) / 64 {
            frames.next_free_view() as int
        } else {
            (frames.frame_count() + 63) / 64
        };
        let ghost a_before = *frames;
        match frames.allocate_frame(stats) {
            Some(f) => {
                proof {
                    a_before.lemma_wf();
                }
                page = f.start_address();
                let one = vec![page];
                assert(one@ =~= seq![page]);
                track_frames(&mut t, &one);
                assert(records_now(t0, t, with_tracked(kept.0, kept.1, seq![page])));
            },
            None => {
                proof {
                    crate::physmem::lemma_alloc_none(a_before.bitmap_view(), a_before.frame_count() as int, start);
                }
                return Err("no free frames for stack");
            },
        }
    }
    let ghost rec = if walk.2 >= recs@.len() { with_tracked(kept.0, kept.1, seq![page as usize]) } else { kept };
    assert(records_now(t0, t, rec));
    let ghost a_stack = *frames;
    let ghost mc = mem@;
    match set_up_stack(mem, frames, stats, pml4, page) {
        Ok(()) => {},
        Err(e) => {
            return Err(e);
        },
    }
    let ghost ms = mem@;
    let saved_sp = rebuild_userspace_frame(mem, kstack_top, image.entry_point as u64, USER_STACK_TOP as u64);
    t.page_table_root = pml4;
    t.saved_sp = saved_sp as usize;
    sched.put_task(task_idx, t);
    proof {
        assert(replaced_with(s0, m0, a0, sched.tasks_view(), mem@, *frames, kernel_pml4 as u64, kstack_top, task_idx as int,
            *image, elf_data@, sf, af, pml4 as u64, recs@, mb, ab, page as u64, a_stack, ms));
    }
    Ok(USER_STACK_TOP)
}


/// The first segment of `segs` from `i` on that starts at `vaddr`.
pub open spec fn seg_starting_at(segs: Seq<SegmentInfo>, vaddr: usize, i: int) -> Option<SegmentInfo>
    decreases segs.len() - i,
{
    if i < 0 || i >= segs.len() {
        None
    } else if segs[i].0 == vaddr {
        Some(segs[i])
    } else {
        seg_starting_at(segs, vaddr, i + 1)
    }
}

/// The copy a new task's page record `r` gets: when a segment with file
/// bytes starts at the page, its first bytes, as many as the page takes.
pub open spec fn start_copy(segs: Seq<SegmentInfo>, r: (usize, usize, usize)) -> Seq<(usize, int, int)> {
    match seg_starting_at(segs, r.0, 0) {
        Some(s) => if s.2 > 0 && r.1 > 0 {
            seq![(r.2, s.1 as int, if r.1 < s.2 { r.1 as int } else { s.2 as int })]
        } else {
            Seq::empty()
        },
        None => Seq::empty(),
    }
}

/// The copies made for the page records `recs`, in order.
pub open spec fn start_copies(segs: Seq<SegmentInfo>, recs: Seq<(usize, usize, usize)>) -> Seq<(usize, int, int)>
    decreases recs.len(),
{
    if recs.len() == 0 {
        Seq::empty()
    } else {
        start_copies(segs, recs.drop_last()) + start_copy(segs, recs.last())
    }
}

proof fn lemma_apply_copies_append(m: Seq<u64>, elf: Seq<u8>, c: Seq<(usize, int, int)>, x: Seq<(usize, int, int)>)
    requires
        x.len() <= 1,
    ensures
        apply_copies(m, elf, c + x) == (if x.len() == 0 { apply_copies(m, elf, c) } else {
            let before = apply_copies(m, elf, c);
            if frame_in(before, x[0].0 as int) { frame_with_bytes(before, x[0].0 as int, elf.subrange(x[0].1, x[0].1 + x[0].2)) } else { before }
        }),
{
    if x.len() == 0 {
        assert(c + x =~= c);
    } else {
        assert((c + x).drop_last() =~= c);
        assert((c + x).last() == x[0]);
    }
}

/// The segment of a flat image of `n` code bytes at USER_BASE_VA, as the
/// table builder takes it.
pub open spec fn flat_info(n: usize) -> SegmentInfo {
    (USER_BASE_VA, 120usize, n, n, 7u32)
}

/// What starting the flat program `code` as a new task in slot `i` did,
/// from memory `m0`, allocator `a0` and task table `s0` to `m1`, `a1` and
/// `s1`: tables built at `pml4` with page records `recs` (memory `mb`),
/// the code copied into the first page, the register frame to enter it at
/// USER_BASE_VA with the stack pointer at USER_STACK_TOP laid out under
/// `kstack_top`, and the slot holding the Ready task with those tables,
/// its frames recorded (the first MAX_USER_FRAMES).
pub open spec fn flat_spawned_with(m0: Seq<u64>, a0: FrameAllocator, s0: Seq<Task>, m1: Seq<u64>, a1: FrameAllocator,
    s1: Seq<Task>, kpml4: u64, kstack_top: u64, code: Seq<u8>, i: int, pml4: u64, recs: Seq<(usize, usize, usize)>,
    mb: Seq<u64>) -> bool {
    let segs = seq![flat_info(code.len() as usize)];
    let elf = flat_elf_spec(code, USER_BASE_VA as int);
    let sp = (kstack_top - FRAME_BYTES) as u64;
    let pas = recs.map_values(|r: (usize, usize, usize)| r.2);
    let n = if pas.len() < MAX_USER_FRAMES { pas.len() as int } else { MAX_USER_FRAMES as int };
    let t = s1[i];
    &&& task_built(m0, a0, mb, a1, kpml4, segs, pml4, recs)
    &&& m1 == words_at(apply_copies(mb, elf, start_copies(segs, recs)), sp, iret_frame(USER_BASE_VA as u64, USER_CS, USER_STACK_TOP as u64, USER_SS))
    &&& s1.len() == s0.len()
    &&& forall|j: int| 0 <= j < MAX_TASKS && j != i ==> #[trigger] s1[j] == s0[j]
    &&& t.state == crate::task::TaskState::Ready
    &&& t.page_table_root == pml4
    &&& t.saved_sp == sp as usize
    &&& t.user_data_frame_count == n
    &&& t.user_data_frames@.subrange(0, n) == pas.subrange(0, n)
    &&& t.wake_tick == s0[i].wake_tick
    &&& t.user_id == s0[i].user_id
}

/// Start the flat program `code` (machine code to run at USER_BASE_VA) as
/// a new user task: a free slot is needed first; the code is wrapped in an
/// ELF image and parsed, tables are built for its segment and the stack,
/// the code is copied into its page, and the task is made Ready with its
/// first register frame on its kernel stack (the stack of slot `i` ends at
/// `kstack_tops[i]`). Gives the task's slot.
pub fn spawn_userspace_task(sched: &mut Scheduler, mem: &mut PhysMem, frames: &mut FrameAllocator, stats: &mut KernelStats,
    kernel_pml4: usize, kstack_tops: &[u64], code: &[u8]) -> (r: Result<usize, &'static str>)
    requires
        old(sched).wf(),
        old(frames).wf(),
        covers(old(mem)@, *old(frames)),
        kernel_pml4 % 8 == 0,
        code.len() + USER_BASE_VA + 4096 <= usize::MAX,
        kstack_tops@.len() == MAX_TASKS,
        forall|i: int| 0 <= i < MAX_TASKS ==> #[trigger] kstack_tops@[i] % 8 == 0 && kstack_tops@[i] >= FRAME_BYTES,
    ensures
        final(sched).wf(),
        final(frames).wf(),
        final(sched).current_view() == old(sched).current_view(),
        final(sched).ticks_view() == old(sched).ticks_view(),
        match first_unused_from(old(sched).tasks_view(), 1) {
            None => r == Err::<usize, &'static str>("out of task slots") && *final(sched) == *old(sched)
                && final(mem)@ == old(mem)@ && *final(frames) == *old(frames),
            Some(i) => match r {
                Ok(k) => k == i && exists|pml4: u64, recs: Seq<(usize, usize, usize)>, mb: Seq<u64>|
                    #[trigger] flat_spawned_with(old(mem)@, *old(frames), old(sched).tasks_view(), final(mem)@, *final(frames),
                        final(sched).tasks_view(), kernel_pml4 as u64, kstack_tops@[i as int], code@, i as int, pml4, recs, mb),
                Err(e) => e == "out of frames for page tables" && final(sched).tasks_view() == old(sched).tasks_view()
                    && forall|g: int| 0 <= g < final(frames).frame_count() ==> #[trigger] final(frames).used(g),
            },
        },
{
    if !sched.has_free_slot() {
        return Err("out of task slots");
    }
    let elf_bytes = build_flat_elf(code, USER_BASE_VA);
    proof {
        lemma_flat_elf_parses(code@, USER_BASE_VA);
    }
    let image = match parse_elf(elf_bytes.as_slice()) {
        Ok(img) => img,
        Err(_) => {
            proof {
                assert(false);
            }
            return Err("ELF parse failed");
        },
    };
    if image.segment_count == 0 {
        proof {
            assert(image.loaded().len() == 1);
            assert(false);
        }
        return Err("no loadable segments");
    }
    proof {
        assert(image.loaded()[0] == image.segments@[0]);
        assert(image.segments@[0] == flat_segment(USER_BASE_VA, code.len() as usize));
        assert(image.segments@[0].data_offset + image.segments@[0].filesz <= elf_bytes@.len());
    }
    let segs = segments_of(&image);
    let ghost segs_spec = seq![flat_info(code.len() as usize)];
    proof {
        assert(segs@ =~= segs_spec);
        assert(segments_fit(segs@));
    }
    let ghost m0 = mem@;
    let ghost a0 = *frames;
    let (pml4, recs) = match create_user_page_tables(mem, frames, stats, kernel_pml4, segs.as_slice()) {
        Ok(v) => v,
        Err(e) => {
            return Err(e);
        },
    };
    let ghost mb = mem@;
    let ghost elf = elf_bytes@;
    let mut k: usize = 0;
    while k < recs.len()
        invariant
            0 <= k <= recs@.len(),
            segs_spec == seq![flat_info(code.len() as usize)],
            segs@ == segs_spec,
            elf == elf_bytes@,
            120 + code@.len() <= elf_bytes@.len(),
            forall|j: int| 0 <= j < recs@.len() ==> (#[trigger] recs@[j]).1 == 4096,
            mem@ == apply_copies(mb, elf, start_copies(segs_spec, recs@.subrange(0, k as int))),
        decreases recs.len() - k,
    {
        let (vaddr, size, pa) = recs[k];
        let ghost before = mem@;
        proof {
            assert(recs@.subrange(0, k + 1).drop_last() =~= recs@.subrange(0, k as int));
            assert(recs@.subrange(0, k + 1).last() == recs@[k as int]);
        }
        let mut j: usize = 0;
        let mut found = false;
        while j < segs.len()
            invariant_except_break
                !found,
            invariant
                0 <= j <= segs@.len(),
                segs_spec == seq![flat_info(code.len() as usize)],
                segs@ == segs_spec,
                seg_starting_at(segs@, vaddr, 0) == seg_starting_at(segs@, vaddr, j as int),
            ensures
                found ==> j < segs@.len() && seg_starting_at(segs@, vaddr, 0) == Some(segs@[j as int]),
                !found ==> seg_starting_at(segs@, vaddr, 0) is None,
            decreases segs.len() - j,
        {
            if segs[j].0 == vaddr {
                found = true;
                break;
            }
            j = j + 1;
        }
        let ghost here = start_copy(segs_spec, recs@[k as int]);
        proof {
            if found {
                assert(j == 0);
                assert(segs@[j as int] == flat_info(code.len() as usize));
            }
        }
        if found {
            let (_sv, file_offset, sfilesz, _smemsz, _sflags) = segs[j];
            if sfilesz > 0 && size > 0 {
                let copy_len = if size < sfilesz { size } else { sfilesz };
                let src = sub_slice(elf_bytes.as_slice(), file_offset, file_offset + copy_len);
                mem.fill_frame(pa as u64, src);
                proof {
                    assert(here == seq![(pa, file_offset as int, copy_len as int)]);
                }
            }
        }
        proof {
            lemma_apply_copies_append(mb, elf, start_copies(segs_spec, recs@.subrange(0, k as int)), here);
        }
        k = k + 1;
    }
    proof {
        assert(recs@.subrange(0, k as int) =~= recs@);
    }
    let ghost mc = mem@;
    let mut pas: Vec<usize> = Vec::new();
    let mut q: usize = 0;
    while q < recs.len()
        invariant
            0 <= q <= recs@.len(),
            pas@ == recs@.subrange(0, q as int).map_values(|r: (usize, usize, usize)| r.2),
        decreases recs.len() - q,
    {
        pas.push(recs[q].2);
        proof {
            assert(pas@ =~= recs@.subrange(0, q + 1).map_values(|r: (usize, usize, usize)| r.2));
        }
        q = q + 1;
    }
    proof {
        assert(recs@.subrange(0, q as int) =~= recs@);
    }
    let ghost s0 = sched.tasks_view();
    proof {
        lemma_first_unused_range(s0, 1);
    }
    let slot = match sched.spawn_userspace(pml4, pas.as_slice()) {
        Ok(i) => i,
        Err(e) => {
            proof {
                assert(false);
            }
            return Err(e);
        },
    };
    let sp = build_userspace_frame(mem, kstack_tops[slot], image.entry_point as u64, USER_STACK_TOP as u64);
    sched.set_saved_sp(slot, sp as usize);
    proof {
        assert(flat_spawned_with(m0, a0, old(sched).tasks_view(), mem@, *frames, sched.tasks_view(), kernel_pml4 as u64,
            kstack_tops@[slot as int], code@, slot as int, pml4 as u64, recs@, mb));
    }
    Ok(slot)
}

} // verus!
