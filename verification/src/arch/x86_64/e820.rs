//! The BIOS memory map as a Multiboot loader hands it over: how much RAM
//! there is, and which ranges below it must not be handed out as frames.
//! The Multiboot information block and the map are read from memory by
//! the caller and given here as bytes.
use vstd::prelude::*;
use crate::bytes::{le32, le64, read_u32_le, read_u64_le};
use crate::frame::{FrameAllocator, frame_number};

verus! {

/// The value a Multiboot-compliant loader leaves in EAX.
pub const MULTIBOOT_MAGIC: u32 = 0x2BAD_B002;

/// The RAM size assumed when no usable memory map is found (1 GiB).
pub const DEFAULT_RAM: usize = 0x4000_0000;

/// Bytes of the Multiboot information block that are read.
pub const MB_INFO_LEN: usize = 52;

/// Offset of the entry after the one at `off`: its size field does not
/// count itself, and a zero size is taken as the usual 20.
pub open spec fn e820_next(mmap: Seq<u8>, off: int) -> int {
    let size = le32(mmap, off);
    if size > 0 { off + size + 4 } else { off + 24 }
}

/// The next entry starts after this one.
pub proof fn lemma_next_advances(mmap: Seq<u8>, off: int)
    requires
        0 <= off,
        off + 24 <= mmap.len(),
    ensures
        e820_next(mmap, off) > off,
{
    assert(0 <= mmap[off] && 0 <= mmap[off + 1] && 0 <= mmap[off + 2] && 0 <= mmap[off + 3]);
}

/// Base of the entry at `off`.
pub open spec fn e820_base(mmap: Seq<u8>, off: int) -> usize {
    le64(mmap, off + 4) as usize
}

/// Length of the entry at `off`.
pub open spec fn e820_len(mmap: Seq<u8>, off: int) -> usize {
    le64(mmap, off + 12) as usize
}

/// End of the entry at `off`, saturating.
pub open spec fn e820_end(mmap: Seq<u8>, off: int) -> usize {
    let e = e820_base(mmap, off) + e820_len(mmap, off);
    if e > usize::MAX { usize::MAX } else { e as usize }
}

/// Type of the entry at `off`: 1 usable, 2 reserved, 3 and 4 ACPI.
pub open spec fn e820_type(mmap: Seq<u8>, off: int) -> int {
    le32(mmap, off + 20)
}

/// The running end of usable RAM after the entry at `off`.
pub open spec fn e820_step_total(mmap: Seq<u8>, off: int, t: usize) -> usize {
    if e820_type(mmap, off) == 1 && e820_end(mmap, off) > t { e820_end(mmap, off) } else { t }
}

/// The end of the highest usable range, walking the entries from `off`
/// with `t` as the end found so far.
pub open spec fn e820_total(mmap: Seq<u8>, off: int, t: usize) -> usize
    decreases if off <= mmap.len() { mmap.len() - off } else { 0 },
{
    if off < 0 || off + 24 > mmap.len() {
        t
    } else {
        proof {
            lemma_next_advances(mmap, off);
        }
        e820_total(mmap, e820_next(mmap, off), e820_step_total(mmap, off, t))
    }
}

/// Whether the entry at `off`, seen with `t` as the end of usable RAM so
/// far, is one whose range is reserved: a reserved or ACPI range that
/// starts below `t`.
pub open spec fn e820_reserves(mmap: Seq<u8>, off: int, t: usize) -> bool {
    let ty = e820_type(mmap, off);
    (ty == 2 || ty == 3 || ty == 4) && e820_len(mmap, off) > 0 && e820_base(mmap, off) < t
}

/// Whether frame `g` of an allocator with `ram` bytes and `fc` frames
/// lies in `[start, end)`, as marking that range in use takes it.
pub open spec fn marks_frame(start: usize, end: usize, ram: usize, fc: usize, g: int) -> bool {
    end > start && start < ram && frame_number(start) <= g && g <= frame_number((end - 1) as usize) && g < fc
}

/// Whether an entry from `off` on reserves frame `g`.
pub open spec fn e820_marks(mmap: Seq<u8>, off: int, t: usize, ram: usize, fc: usize, g: int) -> bool
    decreases if off <= mmap.len() { mmap.len() - off } else { 0 },
{
    if off < 0 || off + 24 > mmap.len() {
        false
    } else {
        proof {
            lemma_next_advances(mmap, off);
        }
        (e820_reserves(mmap, off, t) && marks_frame(e820_base(mmap, off), e820_end(mmap, off), ram, fc, g))
            || e820_marks(mmap, e820_next(mmap, off), e820_step_total(mmap, off, t), ram, fc, g)
    }
}

/// Whether the loader's information block `info` announces a memory map
/// that is there: Multiboot magic, a non-null block, the map flag (bit
/// 6), and a nonzero map address and length.
pub open spec fn has_memory_map(mb_magic: u32, info_addr: u32, info: Seq<u8>) -> bool {
    &&& mb_magic == MULTIBOOT_MAGIC
    &&& info_addr != 0
    &&& (le32(info, 0) as u32) & 0x40 != 0
    &&& le32(info, 48) != 0
    &&& le32(info, 44) != 0
}

/// The RAM size the memory map gives: the end of the highest usable
/// range, or 1 GiB when there is no map or it lists no usable RAM.
pub open spec fn ram_size(mb_magic: u32, info_addr: u32, info: Seq<u8>, mmap: Seq<u8>) -> usize {
    if !has_memory_map(mb_magic, info_addr, info) {
        DEFAULT_RAM
    } else {
        let t = e820_total(mmap, 0, 0);
        if t == 0 { DEFAULT_RAM } else { t }
    }
}

/// Walk the memory map `mmap` (the bytes at the map address, as many as
/// the block's map length) that the loader described in `info` (the
/// first 52 bytes of its information block at `info_addr`, read only
/// when that is not null): mark reserved and ACPI ranges in `frames`
/// and give the RAM size.
pub fn detect_memory(mb_magic: u32, info_addr: u32, info: &[u8], mmap: &[u8], frames: &mut FrameAllocator) -> (r: usize)
    requires
        old(frames).wf(),
        old(frames).total_ram_view() == 0 || old(frames).frame_count() > 0,
        mb_magic == MULTIBOOT_MAGIC && info_addr != 0 ==> info.len() >= MB_INFO_LEN,
        has_memory_map(mb_magic, info_addr, info@) ==> mmap.len() == le32(info@, 44),
    ensures
        r == ram_size(mb_magic, info_addr, info@, mmap@),
        final(frames).wf(),
        final(frames).frame_count() == old(frames).frame_count(),
        final(frames).total_ram_view() == old(frames).total_ram_view(),
        final(frames).next_free_view() == old(frames).next_free_view(),
        final(frames).alloc_count_view() == old(frames).alloc_count_view(),
        forall|g: int| 0 <= g < crate::frame::MAX_FRAME_COUNT ==> #[trigger] final(frames).used(g) == (old(frames).used(g)
            || (has_memory_map(mb_magic, info_addr, info@) && e820_marks(mmap@, 0, 0,
                old(frames).total_ram_view(), old(frames).frame_count(), g))),
{
    if mb_magic != MULTIBOOT_MAGIC || info_addr == 0 {
        return DEFAULT_RAM;
    }
    let flags = read_u32_le(info, 0);
    if flags & 0x40 == 0 {
        return DEFAULT_RAM;
    }
    let mmap_addr = read_u32_le(info, 48);
    let mmap_len = read_u32_le(info, 44) as usize;
    if mmap_addr == 0 || mmap_len == 0 {
        return DEFAULT_RAM;
    }
    let ghost old_frames = *frames;
    let ghost ram = frames.total_ram_view();
    let ghost fc = frames.frame_count();
    let ghost mut done: spec_fn(int) -> bool = |g: int| false;
    let mut total_usable: usize = 0;
    let mut offset: u64 = 0;
    while offset + 24 <= mmap_len as u64
        invariant
            frames.wf(),
            frames.total_ram_view() == 0 || frames.frame_count() > 0,
            ram == frames.total_ram_view(),
            fc == frames.frame_count(),
            ram == old_frames.total_ram_view() && fc == old_frames.frame_count(),
            frames.next_free_view() == old_frames.next_free_view(),
            frames.alloc_count_view() == old_frames.alloc_count_view(),
            mmap_len == mmap.len(),
            mmap_len <= u32::MAX,
            offset <= mmap_len + 0x1_0000_0004,
            e820_total(mmap@, 0, 0) == e820_total(mmap@, offset as int, total_usable),
            forall|g: int| 0 <= g < crate::frame::MAX_FRAME_COUNT ==> #[trigger] e820_marks(mmap@, 0, 0, ram, fc, g) == (
                done(g) || e820_marks(mmap@, offset as int, total_usable, ram, fc, g)),
            forall|g: int| 0 <= g < crate::frame::MAX_FRAME_COUNT ==> #[trigger] frames.used(g) == (old_frames.used(g) || done(g)),
        decreases mmap_len + 0x1_0000_0004 - offset,
    {
        let o = offset as usize;
        let entry_size = read_u32_le(mmap, o) as u64;
        let base = read_u64_le(mmap, o + 4) as usize;
        let len = read_u64_le(mmap, o + 12) as usize;
        let typ = read_u32_le(mmap, o + 20);
        let end = base.saturating_add(len);
        let ghost before = *frames;
        let ghost t0 = total_usable;
        if typ == 1 {
            if end > total_usable {
                total_usable = end;
            }
        } else if typ == 2 || typ == 3 || typ == 4 {
            if len > 0 && base < total_usable {
                frames.mark_used(base, end);
            }
        }
        proof {
            let d0 = done;
            let here = e820_reserves(mmap@, offset as int, t0);
            let (b0, e0) = (e820_base(mmap@, offset as int), e820_end(mmap@, offset as int));
            done = |g: int| d0(g) || (here && marks_frame(b0, e0, ram, fc, g));
            assert(e820_total(mmap@, offset as int, t0) == e820_total(mmap@, e820_next(mmap@, offset as int), total_usable));
            assert forall|g: int| 0 <= g < crate::frame::MAX_FRAME_COUNT implies #[trigger] e820_marks(mmap@, 0, 0, ram, fc, g) == (
                done(g) || e820_marks(mmap@, e820_next(mmap@, offset as int), total_usable, ram, fc, g)) by {
                assert(e820_marks(mmap@, offset as int, t0, ram, fc, g) == ((e820_reserves(mmap@, offset as int, t0)
                    && marks_frame(e820_base(mmap@, offset as int), e820_end(mmap@, offset as int), ram, fc, g))
                    || e820_marks(mmap@, e820_next(mmap@, offset as int), total_usable, ram, fc, g)));
            }
            assert forall|g: int| 0 <= g < crate::frame::MAX_FRAME_COUNT implies #[trigger] frames.used(g) == (old_frames.used(g)
                || done(g)) by {
                assert(frames.used(g) == (before.used(g) || (here && marks_frame(b0, e0, ram, fc, g))));
            }
        }
        offset = if entry_size > 0 { offset + entry_size + 4 } else { offset + 24 };
    }
    if total_usable == 0 {
        return DEFAULT_RAM;
    }
    total_usable
}

} // verus!
