//! Physical frame allocator: a bitmap with one bit per 4 KiB frame of RAM
//! (set = in use). The bitmap has room for 8 GiB; only the frames of the
//! detected RAM size are managed.
use vstd::prelude::*;
use crate::stats::{KernelStats, bump, count_frame_alloc, count_frame_free};

verus! {

pub const FRAME_SIZE: usize = 4096;

/// Physical address of the first frame (x86_64: RAM starts at 0).
pub const RAM_BASE: usize = 0;

/// Words of the bitmap: 8 GiB / 4 KiB / 64.
pub const MAX_WORDS: usize = 32768;

/// Frames the bitmap can track.
pub const MAX_FRAME_COUNT: usize = 2097152;

/// A physical frame, by number.
#[derive(Debug, Clone, Copy, PartialEq, Eq, Structural)]
pub struct PhysFrame {
    pub number: usize,
}

impl PhysFrame {
    /// The frame holding address `addr`.
    pub fn from_addr(addr: usize) -> (f: Self)
        ensures
            f.number == addr / FRAME_SIZE,
    {
        PhysFrame { number: (addr - RAM_BASE) / FRAME_SIZE }
    }

    /// Physical address of the frame's first byte.
    pub fn start_address(&self) -> (r: usize)
        requires
            self.number * FRAME_SIZE <= usize::MAX,
        ensures
            r == self.number * FRAME_SIZE,
    {
        RAM_BASE + self.number * FRAME_SIZE
    }
}

/// Frame number of the frame holding `addr`.
pub open spec fn frame_number(addr: usize) -> int {
    (addr as int) / (FRAME_SIZE as int)
}

/// Bit `j` of `word`.
pub open spec fn bit_of(word: u64, j: int) -> bool {
    (word >> (j as u64)) & 1u64 == 1u64
}

/// Is frame `f` marked in use?
pub open spec fn frame_used(bm: Seq<u64>, f: int) -> bool {
    bit_of(bm[f / 64], f % 64)
}

/// The lowest free frame in `[lo, hi)`.
pub open spec fn first_free_in(bm: Seq<u64>, lo: int, hi: int) -> Option<usize>
    decreases hi - lo,
{
    if lo >= hi {
        None
    } else if !frame_used(bm, lo) {
        Some(lo as usize)
    } else {
        first_free_in(bm, lo + 1, hi)
    }
}

/// Number of free frames in `[0, n)`.
pub open spec fn count_free(bm: Seq<u64>, n: int) -> nat
    decreases n,
{
    if n <= 0 {
        0
    } else {
        count_free(bm, n - 1) + if frame_used(bm, n - 1) { 0nat } else { 1nat }
    }
}

/// There are no more free frames in `[0, n)` than frames.
pub proof fn lemma_count_free_bound(bm: Seq<u64>, n: int)
    requires
        n >= 0,
    ensures
        count_free(bm, n) <= n,
    decreases n,
{
    if n > 0 {
        lemma_count_free_bound(bm, n - 1);
    }
}

/// The frame an allocation takes: scanning from word `start`, the lowest
/// free frame at or after frame `start * 64`, else the lowest free frame
/// before it.
pub open spec fn alloc_target(bm: Seq<u64>, count: int, start: int) -> Option<usize> {
    match first_free_in(bm, start * 64, count) {
        Some(f) => Some(f),
        None => first_free_in(bm, 0, if start * 64 < count { start * 64 } else { count }),
    }
}

/// The bitmap with the bit of frame `f` set to `used`, all else kept.
pub open spec fn marks_only(before: Seq<u64>, after: Seq<u64>, f: int, used: bool) -> bool {
    &&& after.len() == before.len()
    &&& frame_used(after, f) == used
    &&& forall|g: int| 0 <= g < before.len() * 64 && g != f ==> #[trigger] frame_used(after, g) == frame_used(before, g)
}

/// Free-frame counts: marking one frame `f` below `n` used (or free)
/// changes nothing else, so the count of free frames among the first `n`
/// drops by one when a free frame is taken and rises by one when a used
/// frame is given back.
pub proof fn law_mark_counts(b0: Seq<u64>, b1: Seq<u64>, f: int, used: bool, n: int)
    requires
        0 <= f < n <= b0.len() * 64,
        marks_only(b0, b1, f, used),
    ensures
        count_free(b1, n) + (if frame_used(b1, f) { 1int } else { 0int }) == count_free(b0, n) + (if frame_used(b0, f) { 1int } else { 0int }),
        used && !frame_used(b0, f) ==> count_free(b1, n) + 1 == count_free(b0, n),
        !used && frame_used(b0, f) ==> count_free(b1, n) == count_free(b0, n) + 1,
{
    lemma_mark_counts(b0, b1, f, used, n);
}

proof fn lemma_mark_counts(b0: Seq<u64>, b1: Seq<u64>, f: int, used: bool, n: int)
    requires
        0 <= f < b0.len() * 64,
        0 <= n <= b0.len() * 64,
        marks_only(b0, b1, f, used),
    ensures
        count_free(b1, n) + (if f < n && frame_used(b1, f) { 1int } else { 0int }) == count_free(b0, n) + (if f < n
            && frame_used(b0, f) { 1int } else { 0int }),
    decreases n,
{
    if n > 0 {
        lemma_mark_counts(b0, b1, f, used, n - 1);
        if n - 1 != f {
            assert(frame_used(b1, n - 1) == frame_used(b0, n - 1));
        }
    }
}

/// The frame allocator's state.
pub struct FrameAllocator {
    bitmap: Vec<u64>,
    actual_words: usize,
    actual_frame_count: usize,
    total_ram: usize,
    next_free: usize,
    alloc_count: usize,
}

proof fn lemma_frame_index(w: int, j: int)
    requires
        0 <= w,
        0 <= j < 64,
    ensures
        (w * 64 + j) / 64 == w,
        (w * 64 + j) % 64 == j,
{
    vstd::arithmetic::div_mod::lemma_fundamental_div_mod_converse(w * 64 + j, 64, w, j);
}

proof fn lemma_bit_set(word: u64, b: u64, j: u64)
    requires
        b < 64,
        j < 64,
    ensures
        ((word | (1u64 << b)) >> j) & 1u64 == (if j == b { 1u64 } else { (word >> j) & 1u64 }),
{
    assert(b < 64 && j < 64 ==> ((word | (1u64 << b)) >> j) & 1u64 == (if j == b { 1u64 } else { (word >> j) & 1u64 })) by (bit_vector);
}

proof fn lemma_bit_clear(word: u64, b: u64, j: u64)
    requires
        b < 64,
        j < 64,
    ensures
        ((word & !(1u64 << b)) >> j) & 1u64 == (if j == b { 0u64 } else { (word >> j) & 1u64 }),
{
    assert(b < 64 && j < 64 ==> ((word & !(1u64 << b)) >> j) & 1u64 == (if j == b { 0u64 } else { (word >> j) & 1u64 })) by (bit_vector);
}

proof fn lemma_bits_all(j: u64)
    requires
        j < 64,
    ensures
        (0xffff_ffff_ffff_ffffu64 >> j) & 1u64 == 1u64,
        (0u64 >> j) & 1u64 == 0u64,
{
    assert(j < 64 ==> (0xffff_ffff_ffff_ffffu64 >> j) & 1u64 == 1u64) by (bit_vector);
    assert((0u64 >> j) & 1u64 == 0u64) by (bit_vector);
}

/// Skipping frames that are all in use does not change the first free one.
proof fn lemma_skip_used(bm: Seq<u64>, lo: int, mid: int, hi: int)
    requires
        lo <= mid,
        forall|g: int| lo <= g < mid && g < hi ==> #[trigger] frame_used(bm, g),
    ensures
        first_free_in(bm, lo, hi) == first_free_in(bm, if mid < hi { mid } else { hi }, hi),
    decreases mid - lo,
{
    if lo < mid && lo < hi {
        lemma_skip_used(bm, lo + 1, mid, hi);
    }
}

proof fn lemma_first_free_found(bm: Seq<u64>, lo: int, hi: int)
    requires
        0 <= lo,
        hi <= MAX_FRAME_COUNT,
    ensures
        first_free_in(bm, lo, hi) matches Some(f) ==> lo <= f < hi && !frame_used(bm, f as int),
        first_free_in(bm, lo, hi) is None ==> forall|g: int| lo <= g < hi ==> #[trigger] frame_used(bm, g),
    decreases hi - lo,
{
    if lo < hi {
        lemma_first_free_found(bm, lo + 1, hi);
    }
}

/// Setting or clearing the bit of frame `f` in its word.
proof fn lemma_mark(before: Seq<u64>, after: Seq<u64>, f: int, used: bool)
    requires
        0 <= f < before.len() * 64,
        after.len() == before.len(),
        forall|i: int| 0 <= i < before.len() && i != f / 64 ==> after[i] == before[i],
        used ==> after[f / 64] == before[f / 64] | (1u64 << ((f % 64) as u64)),
        !used ==> after[f / 64] == before[f / 64] & !(1u64 << ((f % 64) as u64)),
    ensures
        marks_only(before, after, f, used),
{
    assert forall|g: int| 0 <= g < before.len() * 64 && g != f implies #[trigger] frame_used(after, g) == frame_used(before, g) by {
        if g / 64 == f / 64 {
            if used {
                lemma_bit_set(before[f / 64], (f % 64) as u64, (g % 64) as u64);
            } else {
                lemma_bit_clear(before[f / 64], (f % 64) as u64, (g % 64) as u64);
            }
            vstd::arithmetic::div_mod::lemma_fundamental_div_mod(g, 64);
            vstd::arithmetic::div_mod::lemma_fundamental_div_mod(f, 64);
        }
    }
    if used {
        lemma_bit_set(before[f / 64], (f % 64) as u64, (f % 64) as u64);
    } else {
        lemma_bit_clear(before[f / 64], (f % 64) as u64, (f % 64) as u64);
    }
}

/// Allocating a free frame and then freeing it again leaves every frame
/// as it was.
pub proof fn law_alloc_free_restores(b0: Seq<u64>, b1: Seq<u64>, b2: Seq<u64>, f: int)
    requires
        0 <= f < b0.len() * 64,
        !frame_used(b0, f),
        marks_only(b0, b1, f, true),
        marks_only(b1, b2, f, false),
    ensures
        forall|g: int| 0 <= g < b0.len() * 64 ==> #[trigger] frame_used(b2, g) == frame_used(b0, g),
{
    assert forall|g: int| 0 <= g < b0.len() * 64 implies #[trigger] frame_used(b2, g) == frame_used(b0, g) by {
        if g != f {
            assert(frame_used(b1, g) == frame_used(b0, g));
        }
    }
}

/// A frame handed out is one that was free, and it is in use afterwards,
/// so a second allocation cannot return it before it is freed.
pub proof fn law_alloc_takes_free(b0: Seq<u64>, b1: Seq<u64>, count: int, start: int)
    requires
        b0.len() * 64 >= count,
        0 <= start,
        count <= MAX_FRAME_COUNT,
        alloc_target(b0, count, start) is Some,
        marks_only(b0, b1, alloc_target(b0, count, start)->Some_0 as int, true),
    ensures
        ({
            let f = alloc_target(b0, count, start)->Some_0 as int;
            &&& 0 <= f < count
            &&& !frame_used(b0, f)
            &&& frame_used(b1, f)
            &&& alloc_target(b1, count, start) != Some(f as usize)
        }),
{
    let f = alloc_target(b0, count, start)->Some_0 as int;
    lemma_first_free_found(b0, start * 64, count);
    let lim = if start * 64 < count { start * 64 } else { count };
    lemma_first_free_found(b0, 0, lim);
    lemma_first_free_found(b1, start * 64, count);
    lemma_first_free_found(b1, 0, lim);
}

impl FrameAllocator {
    pub closed spec fn bitmap_view(&self) -> Seq<u64> {
        self.bitmap@
    }

    /// Number of frames managed.
    pub closed spec fn frame_count(&self) -> usize {
        self.actual_frame_count
    }

    pub closed spec fn total_ram_view(&self) -> usize {
        self.total_ram
    }

    /// Word where the next allocation starts looking.
    pub closed spec fn next_free_view(&self) -> usize {
        self.next_free
    }

    pub closed spec fn alloc_count_view(&self) -> usize {
        self.alloc_count
    }

    /// Is frame `f` in use?
    pub open spec fn used(&self, f: int) -> bool {
        frame_used(self.bitmap_view(), f)
    }

    pub closed spec fn wf(&self) -> bool {
        &&& self.bitmap@.len() == MAX_WORDS
        &&& self.actual_frame_count <= MAX_FRAME_COUNT
        &&& self.actual_frame_count == (self.total_ram as int) / (FRAME_SIZE as int)
        &&& self.actual_words == (self.actual_frame_count + 63) / 64
    }

    pub proof fn lemma_wf(&self)
        requires
            self.wf(),
        ensures
            self.bitmap_view().len() == MAX_WORDS,
            self.frame_count() <= MAX_FRAME_COUNT,
            self.frame_count() == (self.total_ram_view() as int) / (FRAME_SIZE as int),
    {
    }

    /// An allocator that manages no RAM yet.
    pub fn new() -> (a: Self)
        ensures
            a.wf(),
            a.frame_count() == 0,
            a.total_ram_view() == 0,
            a.next_free_view() == 0,
            a.alloc_count_view() == 0,
            forall|i: int| 0 <= i < MAX_WORDS ==> #[trigger] a.bitmap_view()[i] == 0,
    {
        let mut bitmap: Vec<u64> = Vec::new();
        let mut i: usize = 0;
        while i < MAX_WORDS
            invariant
                0 <= i <= MAX_WORDS,
                bitmap@.len() == i,
                forall|k: int| 0 <= k < i ==> #[trigger] bitmap@[k] == 0,
            decreases MAX_WORDS - i,
        {
            bitmap.push(0);
            i = i + 1;
        }
        FrameAllocator { bitmap, actual_words: 0, actual_frame_count: 0, total_ram: 0, next_free: 0, alloc_count: 0 }
    }

    /// Set the RAM size to manage, capped at 8 GiB. The bitmap is kept.
    pub fn set_total_ram(&mut self, size: usize)
        requires
            old(self).wf(),
        ensures
            final(self).wf(),
            final(self).total_ram_view() == (if size < MAX_FRAME_COUNT * FRAME_SIZE { size as int } else { MAX_FRAME_COUNT * FRAME_SIZE }),
            final(self).frame_count() == (final(self).total_ram_view() as int) / (FRAME_SIZE as int),
            final(self).bitmap_view() == old(self).bitmap_view(),
            final(self).next_free_view() == old(self).next_free_view(),
            final(self).alloc_count_view() == old(self).alloc_count_view(),
    {
        let capped: usize = if (size as u64) < 8589934592u64 {
            size
        } else {
            MAX_FRAME_COUNT * FRAME_SIZE
        };
        self.total_ram = capped;
        self.actual_frame_count = capped / FRAME_SIZE;
        self.actual_words = (self.actual_frame_count + 63) / 64;
    }

    /// The RAM size managed, in bytes.
    pub fn total_ram(&self) -> (r: usize)
        ensures
            r == self.total_ram_view(),
    {
        self.total_ram
    }

    fn is_used(&self, f: usize) -> (r: bool)
        requires
            self.wf(),
            f < MAX_FRAME_COUNT,
        ensures
            r == self.used(f as int),
    {
        let w = self.bitmap[f / 64];
        (w >> ((f % 64) as u64)) & 1u64 == 1u64
    }

    /// Number of free frames among the managed ones.
    pub fn free_frame_count(&self) -> (r: usize)
        requires
            self.wf(),
        ensures
            r == count_free(self.bitmap_view(), self.frame_count() as int),
    {
        let count = self.actual_frame_count;
        let mut free: usize = 0;
        let mut f: usize = 0;
        while f < count
            invariant
                self.wf(),
                count == self.frame_count(),
                0 <= f <= count,
                free == count_free(self.bitmap_view(), f as int),
                free <= f,
            decreases count - f,
        {
            if !self.is_used(f) {
                free = free + 1;
            }
            f = f + 1;
        }
        free
    }

    /// Mark frame `frame` in use (nothing for a frame out of range).
    fn set_used(&mut self, frame: usize)
        requires
            old(self).wf(),
        ensures
            final(self).wf(),
            frame < old(self).frame_count() ==> marks_only(old(self).bitmap_view(), final(self).bitmap_view(), frame as int, true),
            frame >= old(self).frame_count() ==> final(self).bitmap_view() == old(self).bitmap_view(),
            final(self).frame_count() == old(self).frame_count(),
            final(self).total_ram_view() == old(self).total_ram_view(),
            final(self).next_free_view() == old(self).next_free_view(),
            final(self).alloc_count_view() == old(self).alloc_count_view(),
    {
        if frame >= self.actual_frame_count {
            return;
        }
        let w = self.bitmap[frame / 64];
        self.bitmap.set(frame / 64, w | (1u64 << ((frame % 64) as u64)));
        proof {
            lemma_mark(old(self).bitmap_view(), self.bitmap_view(), frame as int, true);
        }
    }

    /// Mark frame `frame` free (nothing for a frame out of range).
    fn set_free(&mut self, frame: usize)
        requires
            old(self).wf(),
        ensures
            final(self).wf(),
            frame < old(self).frame_count() ==> marks_only(old(self).bitmap_view(), final(self).bitmap_view(), frame as int, false),
            frame >= old(self).frame_count() ==> final(self).bitmap_view() == old(self).bitmap_view(),
            final(self).frame_count() == old(self).frame_count(),
            final(self).total_ram_view() == old(self).total_ram_view(),
            final(self).next_free_view() == old(self).next_free_view(),
            final(self).alloc_count_view() == old(self).alloc_count_view(),
    {
        if frame >= self.actual_frame_count {
            return;
        }
        let w = self.bitmap[frame / 64];
        self.bitmap.set(frame / 64, w & !(1u64 << ((frame % 64) as u64)));
        proof {
            lemma_mark(old(self).bitmap_view(), self.bitmap_view(), frame as int, false);
        }
    }

    /// Mark every managed frame overlapping `[start, end)` in use.
    pub fn mark_used(&mut self, start: usize, end: usize)
        requires
            old(self).wf(),
            old(self).frame_count() > 0 || end <= start || start >= old(self).total_ram_view(),
        ensures
            final(self).wf(),
            final(self).frame_count() == old(self).frame_count(),
            final(self).total_ram_view() == old(self).total_ram_view(),
            final(self).next_free_view() == old(self).next_free_view(),
            final(self).alloc_count_view() == old(self).alloc_count_view(),
            final(self).bitmap_view().len() == old(self).bitmap_view().len(),
            forall|g: int| 0 <= g < MAX_FRAME_COUNT ==> #[trigger] final(self).used(g) == (old(self).used(g) || (
                end > start && start < old(self).total_ram_view() && frame_number(start) <= g
                    && g <= frame_number((end - 1) as usize) && g < old(self).frame_count())),
    {
        let ram_end = RAM_BASE + self.total_ram;
        if end <= start || start >= ram_end {
            return;
        }
        let first = (start - RAM_BASE) / FRAME_SIZE;
        let by_end = (end - 1 - RAM_BASE) / FRAME_SIZE;
        let last = if by_end < self.actual_frame_count - 1 { by_end } else { self.actual_frame_count - 1 };
        let mut frame = first;
        while frame <= last
            invariant
                self.wf(),
                self.frame_count() == old(self).frame_count(),
                self.total_ram_view() == old(self).total_ram_view(),
                self.next_free_view() == old(self).next_free_view(),
                self.alloc_count_view() == old(self).alloc_count_view(),
                last < self.frame_count(),
                first <= frame <= last + 1,
                self.bitmap_view().len() == MAX_WORDS,
                forall|g: int| 0 <= g < MAX_FRAME_COUNT ==> #[trigger] frame_used(self.bitmap_view(), g) == (old(self).used(g) || (first <= g < frame)),
            decreases last + 1 - frame,
        {
            let ghost before = self.bitmap_view();
            self.set_used(frame);
            assert(frame < self.frame_count());
            assert(marks_only(before, self.bitmap_view(), frame as int, true));
            assert(before.len() * 64 == MAX_FRAME_COUNT);
            assert forall|g: int| 0 <= g < MAX_FRAME_COUNT implies #[trigger] frame_used(self.bitmap_view(), g) == (old(self).used(g) || (first <= g < frame + 1)) by {
                assert(frame_used(before, g) == (old(self).used(g) || (first <= g < frame)));
                if g != frame {
                    assert(frame_used(self.bitmap_view(), g) == frame_used(before, g));
                }
            }
            frame = frame + 1;
        }
        assert(first == frame_number(start));
        assert(by_end == frame_number((end - 1) as usize));
    }

    /// Clear the bitmap over the managed words and reserve the kernel image
    /// `[RAM_BASE, kernel_end)` and the first MiB. With no RAM size set,
    /// 1 GiB is assumed.
    pub fn init(&mut self, kernel_end: usize)
        requires
            old(self).wf(),
            old(self).total_ram_view() == 0 || old(self).frame_count() > 0,
        ensures
            final(self).wf(),
            final(self).total_ram_view() == (if old(self).total_ram_view() == 0 { 1073741824 } else { old(self).total_ram_view() as int }),
            final(self).alloc_count_view() == old(self).alloc_count_view(),
            final(self).next_free_view() == frame_number(kernel_end) / 64,
            forall|g: int| 0 <= g < final(self).frame_count() ==> #[trigger] final(self).used(g) == (
                (kernel_end > 0 && g <= frame_number((kernel_end - 1) as usize)) || g < 256),
    {
        if self.total_ram == 0 {
            self.set_total_ram(1073741824);
        }
        let words = self.actual_words;
        let mut i: usize = 0;
        while i < words
            invariant
                self.wf(),
                words == (self.frame_count() + 63) / 64,
                self.total_ram_view() == (if old(self).total_ram_view() == 0 { 1073741824 } else { old(self).total_ram_view() as int }),
                self.alloc_count_view() == old(self).alloc_count_view(),
                0 <= i <= words,
                words <= MAX_WORDS,
                self.frame_count() > 0,
                self.bitmap_view().len() == MAX_WORDS,
                forall|k: int| 0 <= k < i ==> #[trigger] self.bitmap_view()[k] == 0,
            decreases words - i,
        {
            self.bitmap.set(i, 0);
            i = i + 1;
        }
        proof {
            assert forall|g: int| 0 <= g < self.frame_count() implies !#[trigger] frame_used(self.bitmap_view(), g) by {
                vstd::arithmetic::div_mod::lemma_fundamental_div_mod(g, 64);
                vstd::arithmetic::div_mod::lemma_mod_bound(g, 64);
                assert(g / 64 < words);
                assert(self.bitmap_view()[g / 64] == 0);
                lemma_bits_all((g % 64) as u64);
            }
        }
        self.next_free = ((kernel_end - RAM_BASE) / FRAME_SIZE) / 64;
        let ghost s0 = self.bitmap_view();
        assert(self.total_ram_view() > 0);
        self.mark_used(RAM_BASE, kernel_end);
        let ghost s1 = self.bitmap_view();
        assert forall|g: int| 0 <= g < self.frame_count() implies #[trigger] frame_used(s1, g) == (kernel_end > 0 && g <= frame_number((kernel_end - 1) as usize)) by {
            assert(!frame_used(s0, g));
            assert(frame_number(0) == 0);
            assert(self.used(g) == frame_used(s1, g));
        }
        self.mark_used(0, 0x100000);
        assert(frame_number(0xfffff) == 255);
        assert forall|g: int| 0 <= g < self.frame_count() implies #[trigger] self.used(g) == ((kernel_end > 0 && g <= frame_number((kernel_end - 1) as usize)) || g < 256) by {
            assert(frame_used(s1, g) == (kernel_end > 0 && g <= frame_number((kernel_end - 1) as usize)));
            assert(self.used(g) == (frame_used(s1, g) || g <= 255));
        }
    }

    /// Allocate a frame: the lowest free frame at or after word
    /// `next_free` (capped at the managed words), else the lowest free frame
    /// before it. The allocation is counted here and in `stats`.
    pub fn allocate_frame(&mut self, stats: &mut KernelStats) -> (r: Option<PhysFrame>)
        requires
            old(self).wf(),
        ensures
            final(self).wf(),
            final(self).frame_count() == old(self).frame_count(),
            final(self).total_ram_view() == old(self).total_ram_view(),
            ({
                let start = if old(self).next_free_view() < (old(self).frame_count() + 63) / 64 {
                    old(self).next_free_view() as int
                } else {
                    (old(self).frame_count() + 63) / 64
                };
                match alloc_target(old(self).bitmap_view(), old(self).frame_count() as int, start) {
                    Some(f) => {
                        &&& r == Some(PhysFrame { number: f })
                        &&& f < old(self).frame_count()
                        &&& !old(self).used(f as int)
                        &&& marks_only(old(self).bitmap_view(), final(self).bitmap_view(), f as int, true)
                        &&& final(self).next_free_view() == f / 64
                        &&& final(self).alloc_count_view() == bump(old(self).alloc_count_view())
                        &&& *final(stats) == (KernelStats { frame_allocs: bump(old(stats).frame_allocs), ..*old(stats) })
                    },
                    None => {
                        &&& r is None
                        &&& final(self).bitmap_view() == old(self).bitmap_view()
                        &&& final(self).next_free_view() == old(self).next_free_view()
                        &&& final(self).alloc_count_view() == old(self).alloc_count_view()
                        &&& *final(stats) == *old(stats)
                    },
                }
            }),
    {
        let words = self.actual_words;
        let count = self.actual_frame_count;
        let start = if self.next_free < words { self.next_free } else { words };
        let ghost bm = self.bitmap_view();
        proof {
            assert(words * 64 >= count);
            assert(words * 64 < count + 64);
        }
        let mut w = start;
        while w < words
            invariant
                self.wf(),
                *self == *old(self),
                *stats == *old(stats),
                bm == self.bitmap_view(),
                start == (if old(self).next_free_view() < words { old(self).next_free_view() } else { words }),
                words == (count + 63) / 64,
                count == self.frame_count(),
                start <= w <= words,
                first_free_in(bm, start * 64, count as int) == first_free_in(bm, if w * 64 < count { w * 64 } else { count as int }, count as int),
            decreases words - w,
        {
            match self.scan_word(w) {
                Some(frame) => {
                    proof {
                        lemma_first_free_found(bm, start * 64, count as int);
                        assert(alloc_target(bm, count as int, start as int) == Some(frame));
                        assert(start as int == (if old(self).next_free_view() < (old(self).frame_count() + 63) / 64 {
                            old(self).next_free_view() as int
                        } else {
                            (old(self).frame_count() + 63) / 64
                        }));
                        assert(bm == old(self).bitmap_view());
                    }
                    self.take(frame, stats);
                    return Some(PhysFrame { number: frame });
                },
                None => {},
            }
            w = w + 1;
        }
        proof {
            lemma_first_free_found(bm, count as int, count as int);
        }
        let lim: usize = if start * 64 < count { start * 64 } else { count };
        let mut w2: usize = 0;
        while w2 < start
            invariant
                self.wf(),
                *self == *old(self),
                *stats == *old(stats),
                bm == self.bitmap_view(),
                start == (if old(self).next_free_view() < words { old(self).next_free_view() } else { words }),
                words == (count + 63) / 64,
                count == self.frame_count(),
                start <= words,
                lim == (if start * 64 < count { start * 64 } else { count as int }),
                first_free_in(bm, start * 64, count as int) is None,
                0 <= w2 <= start,
                first_free_in(bm, 0, lim as int) == first_free_in(bm, if w2 * 64 < lim { w2 * 64 } else { lim as int }, lim as int),
            decreases start - w2,
        {
            match self.scan_word_below(w2, lim) {
                Some(frame) => {
                    proof {
                        lemma_first_free_found(bm, 0, lim as int);
                        assert(alloc_target(bm, count as int, start as int) == Some(frame));
                        assert(start as int == (if old(self).next_free_view() < (old(self).frame_count() + 63) / 64 {
                            old(self).next_free_view() as int
                        } else {
                            (old(self).frame_count() + 63) / 64
                        }));
                        assert(bm == old(self).bitmap_view());
                    }
                    self.take(frame, stats);
                    return Some(PhysFrame { number: frame });
                },
                None => {},
            }
            w2 = w2 + 1;
        }
        proof {
            lemma_first_free_found(bm, lim as int, lim as int);
        }
        None
    }

    /// The lowest free frame of word `w`, when it is below the frame count;
    /// None when the frames of the word below the count are all in use.
    fn scan_word(&self, w: usize) -> (r: Option<usize>)
        requires
            self.wf(),
            w < (self.frame_count() + 63) / 64,
        ensures
            ({
                let count = self.frame_count() as int;
                let lo = w * 64;
                let next = if (w + 1) * 64 < count { (w + 1) * 64 } else { count };
                match r {
                    Some(f) => first_free_in(self.bitmap_view(), lo, count) == Some(f) && f / 64 == w,
                    None => first_free_in(self.bitmap_view(), lo, count) == first_free_in(self.bitmap_view(), next, count),
                }
            }),
    {
        self.scan_word_below(w, self.actual_frame_count)
    }

    /// Like `scan_word`, with frames counted only below `hi`.
    fn scan_word_below(&self, w: usize, hi: usize) -> (r: Option<usize>)
        requires
            self.wf(),
            w < (self.frame_count() + 63) / 64,
            hi <= self.frame_count(),
            w * 64 < hi || hi == self.frame_count(),
        ensures
            ({
                let lo = w * 64;
                let next = if (w + 1) * 64 < hi { (w + 1) * 64 } else { hi as int };
                match r {
                    Some(f) => first_free_in(self.bitmap_view(), lo, hi as int) == Some(f) && f / 64 == w && f < hi,
                    None => first_free_in(self.bitmap_view(), lo, hi as int) == first_free_in(self.bitmap_view(), next, hi as int),
                }
            }),
    {
        let bits = self.bitmap[w];
        let bm = Ghost(self.bitmap_view());
        if bits != 0xffff_ffff_ffff_ffffu64 {
            let bit = bits.trailing_ones() as usize;
            proof {
                vstd::std_specs::bits::axiom_u64_trailing_ones(bits);
            }
            let frame = w * 64 + bit;
            proof {
                assert forall|g: int| w * 64 <= g < frame implies #[trigger] frame_used(bm@, g) by {
                    lemma_frame_index(w as int, g - w * 64);
                    assert(((bits >> ((g - w * 64) as u64)) & 1u64) == 1u64);
                }
                lemma_skip_used(bm@, w * 64, frame as int, hi as int);
            }
            if frame < hi {
                proof {
                    lemma_frame_index(w as int, bit as int);
                    lemma_first_free_found(bm@, frame as int, hi as int);
                }
                return Some(frame);
            }
            proof {
                lemma_skip_used(bm@, w * 64, (w + 1) * 64, hi as int);
            }
            return None;
        }
        proof {
            assert forall|g: int| w * 64 <= g < (w + 1) * 64 implies #[trigger] frame_used(bm@, g) by {
                lemma_frame_index(w as int, g - w * 64);
                lemma_bits_all((g - w * 64) as u64);
            }
            lemma_skip_used(bm@, w * 64, (w + 1) * 64, hi as int);
        }
        None
    }

    /// Take free frame `frame`: mark it used, remember its word, count it.
    fn take(&mut self, frame: usize, stats: &mut KernelStats)
        requires
            old(self).wf(),
            frame < old(self).frame_count(),
        ensures
            final(self).wf(),
            marks_only(old(self).bitmap_view(), final(self).bitmap_view(), frame as int, true),
            final(self).frame_count() == old(self).frame_count(),
            final(self).total_ram_view() == old(self).total_ram_view(),
            final(self).next_free_view() == frame / 64,
            final(self).alloc_count_view() == bump(old(self).alloc_count_view()),
            *final(stats) == (KernelStats { frame_allocs: bump(old(stats).frame_allocs), ..*old(stats) }),
    {
        self.set_used(frame);
        self.next_free = frame / 64;
        self.alloc_count = self.alloc_count.wrapping_add(1);
        count_frame_alloc(stats);
    }

    /// Number of frames allocated so far (wrapping).
    pub fn alloc_count(&self) -> (r: usize)
        ensures
            r == self.alloc_count_view(),
    {
        self.alloc_count
    }

    /// Give frame `frame` back (nothing for a frame out of range); the
    /// release is counted in `stats`.
    pub fn deallocate_frame(&mut self, frame: PhysFrame, stats: &mut KernelStats)
        requires
            old(self).wf(),
        ensures
            final(self).wf(),
            final(self).frame_count() == old(self).frame_count(),
            final(self).total_ram_view() == old(self).total_ram_view(),
            final(self).next_free_view() == old(self).next_free_view(),
            final(self).alloc_count_view() == old(self).alloc_count_view(),
            frame.number < old(self).frame_count() ==> marks_only(old(self).bitmap_view(), final(self).bitmap_view(), frame.number as int, false)
                && *final(stats) == (KernelStats { frame_frees: bump(old(stats).frame_frees), ..*old(stats) }),
            frame.number >= old(self).frame_count() ==> final(self).bitmap_view() == old(self).bitmap_view() && *final(stats) == *old(stats),
    {
        if frame.number >= self.actual_frame_count {
            return;
        }
        self.set_free(frame.number);
        count_frame_free(stats);
    }
}

} // verus!
