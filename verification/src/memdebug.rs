//! Memory diagnostics: a snapshot of the frame allocator and heap counters.
use vstd::prelude::*;
use crate::frame::{FrameAllocator, FRAME_SIZE, count_free};
use crate::stats::KernelStats;

verus! {

/// Size of the fixed kernel heap in bytes.
pub const HEAP_SIZE: usize = 65536;

/// Memory diagnostic counters.
pub struct MemStats {
    pub heap_total: usize,
    pub heap_used: usize,
    pub heap_free: usize,
    pub kernel_pages: usize,
    pub user_pages: usize,
    pub reserved_pages: usize,
    pub total_frames: usize,
    pub free_frames: usize,
    pub used_frames: usize,
    pub alloc_count: usize,
    pub free_count: usize,
}

impl MemStats {
    /// Take a snapshot: frame totals from `frames`, allocation counters
    /// from `stats`; heap usage and page kinds are not tracked (0).
    pub fn new(frames: &FrameAllocator, stats: &KernelStats) -> (m: Self)
        requires
            frames.wf(),
        ensures
            m.heap_total == HEAP_SIZE,
            m.heap_used == 0,
            m.heap_free == HEAP_SIZE,
            m.kernel_pages == 0 && m.user_pages == 0 && m.reserved_pages == 0,
            m.total_frames == frames.total_ram_view() / FRAME_SIZE,
            m.free_frames == count_free(frames.bitmap_view(), frames.frame_count() as int),
            m.used_frames == m.total_frames - m.free_frames,
            m.alloc_count == stats.frame_allocs,
            m.free_count == stats.frame_frees,
    {
        let total = frames.total_ram() / FRAME_SIZE;
        let free = frames.free_frame_count();
        proof {
            frames.lemma_wf();
            crate::frame::lemma_count_free_bound(frames.bitmap_view(), frames.frame_count() as int);
        }
        let used = total - free;
        MemStats {
            heap_total: HEAP_SIZE,
            heap_used: 0,
            heap_free: HEAP_SIZE,
            kernel_pages: 0,
            user_pages: 0,
            reserved_pages: 0,
            total_frames: total,
            free_frames: free,
            used_frames: used,
            alloc_count: stats.frame_allocs,
            free_count: stats.frame_frees,
        }
    }
}

} // verus!
