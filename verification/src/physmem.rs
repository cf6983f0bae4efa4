//! Physical memory as the paging code sees it: 64-bit words from address
//! 0, read and written at 8-byte aligned addresses, with 4 KiB frames
//! taken from the frame allocator for new page tables. Past the end of
//! RAM a load gives 0 and a store changes nothing.
use vstd::prelude::*;
use crate::frame::{FrameAllocator, FRAME_SIZE, first_free_in, alloc_target, marks_only, frame_used};
use crate::stats::KernelStats;
use crate::bytes::le64;

verus! {

/// Words in a frame.
pub const FRAME_WORDS: usize = 512;

/// Physical memory, word by word.
pub struct PhysMem {
    words: Vec<u64>,
}

/// `m` with the 512 words of the frame at byte address `pa` set to zero.
pub open spec fn zero_frame_of(m: Seq<u64>, pa: int) -> Seq<u64> {
    Seq::new(m.len(), |k: int| if pa / 8 <= k < pa / 8 + 512 { 0u64 } else { m[k] })
}

/// The word at byte address `pa`, or 0 past the end of `m`.
pub open spec fn word_at(m: Seq<u64>, pa: u64) -> u64 {
    if (pa / 8) < m.len() { m[(pa / 8) as int] } else { 0 }
}

/// `m` with `v` stored at byte address `pa`, unchanged past its end.
pub open spec fn store_of(m: Seq<u64>, pa: u64, v: u64) -> Seq<u64> {
    if (pa / 8) < m.len() { m.update((pa / 8) as int, v) } else { m }
}

/// `bytes` followed by zeros up to a whole 4 KiB frame.
pub open spec fn padded_frame(bytes: Seq<u8>) -> Seq<u8> {
    bytes + Seq::new((4096 - bytes.len()) as nat, |i: int| 0u8)
}

/// `m` with the frame at byte address `pa` holding `bytes`, then zeros.
pub open spec fn frame_with_bytes(m: Seq<u64>, pa: int, bytes: Seq<u8>) -> Seq<u64> {
    Seq::new(m.len(), |k: int| if pa / 8 <= k < pa / 8 + 512 { le64(padded_frame(bytes), 8 * (k - pa / 8)) as u64 } else { m[k] })
}

/// Whether the frame at byte address `pa` lies in `m`.
pub open spec fn frame_in(m: Seq<u64>, pa: int) -> bool {
    pa >= 0 && pa % 4096 == 0 && pa / 8 + 512 <= m.len()
}

/// Whether frame `f` is managed and free in `a`.
pub open spec fn frame_free(a: FrameAllocator, f: int) -> bool {
    0 <= f < a.frame_count() && !a.used(f)
}

/// Whether every frame `a` manages lies in memory `m`.
pub open spec fn covers(m: Seq<u64>, a: FrameAllocator) -> bool {
    a.frame_count() * 512 <= m.len()
}

impl PhysMem {
    /// The words of memory.
    pub closed spec fn view(&self) -> Seq<u64> {
        self.words@
    }

    /// `size` bytes of zeroed memory (rounded down to whole words).
    pub fn new(size: usize) -> (m: Self)
        ensures
            m@.len() == size / 8,
            forall|k: int| 0 <= k < size / 8 ==> #[trigger] m@[k] == 0,
    {
        let n = size / 8;
        let mut words: Vec<u64> = Vec::new();
        let mut i: usize = 0;
        while i < n
            invariant
                0 <= i <= n,
                words@.len() == i,
                forall|k: int| 0 <= k < i ==> #[trigger] words@[k] == 0,
            decreases n - i,
        {
            words.push(0);
            i = i + 1;
        }
        PhysMem { words }
    }

    /// Size in bytes.
    pub fn size(&self) -> (r: usize)
        requires
            self@.len() * 8 <= usize::MAX,
        ensures
            r == self@.len() * 8,
    {
        self.words.len() * 8
    }

    /// The word at byte address `pa`.
    pub fn read_u64(&self, pa: u64) -> (r: u64)
        requires
            pa % 8 == 0,
            pa / 8 < self@.len(),
        ensures
            r == self@[(pa / 8) as int],
    {
        let n = self.words.len();
        assert(pa / 8 < n);
        self.words[(pa / 8) as usize]
    }

    /// Store `v` at byte address `pa`.
    pub fn write_u64(&mut self, pa: u64, v: u64)
        requires
            pa % 8 == 0,
            pa / 8 < old(self)@.len(),
        ensures
            final(self)@ == old(self)@.update((pa / 8) as int, v),
    {
        let n = self.words.len();
        assert(pa / 8 < n);
        self.words.set((pa / 8) as usize, v);
    }

    /// The word at byte address `pa`, 0 past the end of memory.
    pub fn load(&self, pa: u64) -> (r: u64)
        requires
            pa % 8 == 0,
        ensures
            r == word_at(self@, pa),
    {
        let n = self.words.len();
        if pa / 8 < n as u64 {
            self.words[(pa / 8) as usize]
        } else {
            0
        }
    }

    /// Store `v` at byte address `pa`; nothing past the end of memory.
    pub fn store(&mut self, pa: u64, v: u64)
        requires
            pa % 8 == 0,
        ensures
            final(self)@ == store_of(old(self)@, pa, v),
    {
        let n = self.words.len();
        if pa / 8 < n as u64 {
            self.words.set((pa / 8) as usize, v);
        }
    }

    /// Fill the frame at byte address `pa` with `bytes` (at most 4 KiB),
    /// then zeros.
    pub fn write_frame_bytes(&mut self, pa: u64, bytes: &[u8])
        requires
            frame_in(old(self)@, pa as int),
            bytes.len() <= 4096,
        ensures
            final(self)@ == frame_with_bytes(old(self)@, pa as int, bytes@),
    {
        let ghost m0 = self@;
        let ghost page = padded_frame(bytes@);
        let n = self.words.len();
        assert(pa / 8 + 512 <= n);
        let w = (pa / 8) as usize;
        let mut k: usize = 0;
        while k < FRAME_WORDS
            invariant
                0 <= k <= 512,
                w == pa / 8,
                frame_in(m0, pa as int),
                bytes.len() <= 4096,
                page == padded_frame(bytes@),
                self@.len() == m0.len(),
                forall|j: int| 0 <= j < m0.len() ==> #[trigger] self@[j] == (if w <= j < w + k {
                    le64(page, 8 * (j - w)) as u64
                } else {
                    m0[j]
                }),
            decreases 512 - k,
        {
            let mut word: u64 = 0;
            let mut b: usize = 8;
            while b > 0
                invariant
                    0 <= b <= 8,
                    k < 512,
                    bytes.len() <= 4096,
                    page == padded_frame(bytes@),
                    word as int == le_tail(page, 8 * k as int, b as int),
                decreases b,
            {
                b = b - 1;
                let i = 8 * k + b;
                let byte: u8 = if i < bytes.len() { bytes[i] } else { 0 };
                proof {
                    assert(byte == page[i as int]);
                    lemma_le_tail_step(page, 8 * k as int, b as int);
                }
                word = word * 256 + byte as u64;
            }
            proof {
                lemma_le_tail_full(page, 8 * k as int);
            }
            self.words.set(w + k, word);
            k = k + 1;
        }
        assert(self@ =~= frame_with_bytes(m0, pa as int, bytes@));
    }

    /// Fill the frame at byte address `pa` with `bytes` then zeros, when
    /// that frame lies in memory.
    pub fn fill_frame(&mut self, pa: u64, bytes: &[u8])
        requires
            bytes.len() <= 4096,
        ensures
            final(self)@ == (if frame_in(old(self)@, pa as int) { frame_with_bytes(old(self)@, pa as int, bytes@) } else { old(self)@ }),
    {
        let n = self.words.len();
        if pa % 4096 == 0 && pa / 8 <= n as u64 && n as u64 - pa / 8 >= 512 {
            self.write_frame_bytes(pa, bytes);
        }
    }

    /// Clear the frame at byte address `pa`.
    pub fn zero_frame(&mut self, pa: u64)
        requires
            frame_in(old(self)@, pa as int),
        ensures
            final(self)@ == zero_frame_of(old(self)@, pa as int),
    {
        let n = self.words.len();
        assert(pa / 8 < n);
        let w = (pa / 8) as usize;
        let mut i: usize = 0;
        while i < FRAME_WORDS
            invariant
                0 <= i <= 512,
                w == pa / 8,
                frame_in(old(self)@, pa as int),
                self@.len() == old(self)@.len(),
                forall|k: int| 0 <= k < self@.len() ==> #[trigger] self@[k] == (if w <= k < w + i { 0u64 } else { old(self)@[k] }),
            decreases 512 - i,
        {
            self.words.set(w + i, 0);
            i = i + 1;
        }
        assert(self@ =~= zero_frame_of(old(self)@, pa as int));
    }
}

/// With no free frame from `lo` to `hi`, every frame there is in use.
proof fn lemma_none_free(bm: Seq<u64>, lo: int, hi: int)
    requires
        first_free_in(bm, lo, hi) is None,
    ensures
        forall|g: int| lo <= g < hi ==> #[trigger] frame_used(bm, g),
    decreases hi - lo,
{
    if lo < hi {
        lemma_none_free(bm, lo + 1, hi);
    }
}

/// When an allocation finds nothing, every managed frame is in use.
pub(crate) proof fn lemma_alloc_none(bm: Seq<u64>, count: int, start: int)
    requires
        alloc_target(bm, count, start) is None,
        0 <= start * 64,
    ensures
        forall|g: int| 0 <= g < count ==> #[trigger] frame_used(bm, g),
{
    lemma_none_free(bm, start * 64, count);
    lemma_none_free(bm, 0, if start * 64 < count { start * 64 } else { count });
    assert forall|g: int| 0 <= g < count implies #[trigger] frame_used(bm, g) by {
        if g < start * 64 {
        } else {
        }
    }
}

/// Take a frame for a page table and clear it: its address, or an error
/// when every managed frame is in use.
pub fn alloc_table(mem: &mut PhysMem, frames: &mut FrameAllocator, stats: &mut KernelStats) -> (r: Result<u64, &'static str>)
    requires
        old(frames).wf(),
        covers(old(mem)@, *old(frames)),
    ensures
        final(frames).wf(),
        final(frames).frame_count() == old(frames).frame_count(),
        final(frames).total_ram_view() == old(frames).total_ram_view(),
        match r {
            Ok(pa) => {
                &&& pa % 4096 == 0
                &&& frame_free(*old(frames), (pa / 4096) as int)
                &&& marks_only(old(frames).bitmap_view(), final(frames).bitmap_view(), (pa / 4096) as int, true)
                &&& final(mem)@ == zero_frame_of(old(mem)@, pa as int)
                &&& frame_in(old(mem)@, pa as int)
            },
            Err(e) => {
                &&& e == "out of frames for page tables"
                &&& forall|g: int| 0 <= g < old(frames).frame_count() ==> #[trigger] old(frames).used(g)
                &&& final(frames).bitmap_view() == old(frames).bitmap_view()
                &&& final(mem)@ == old(mem)@
            },
        },
{
    let ghost start = if old(frames).next_free_view() < (old(frames).frame_count() + 63) / 64 {
        old(frames).next_free_view() as int
    } else {
        (old(frames).frame_count() + 63) / 64
    };
    match frames.allocate_frame(stats) {
        None => {
            proof {
                lemma_alloc_none(old(frames).bitmap_view(), old(frames).frame_count() as int, start);
            }
            Err("out of frames for page tables")
        },
        Some(f) => {
            proof {
                old(frames).lemma_wf();
            }
            let pa = f.start_address() as u64;
            mem.zero_frame(pa);
            Ok(pa)
        },
    }
}

/// `after` is `before` with the frames at the addresses `taken` newly in
/// use: each was a free, aligned frame in memory `m`, no two are the
/// same, and nothing else changed.
pub open spec fn grew(before: FrameAllocator, after: FrameAllocator, m: Seq<u64>, taken: Seq<u64>) -> bool {
    &&& after.wf()
    &&& after.frame_count() == before.frame_count()
    &&& after.total_ram_view() == before.total_ram_view()
    &&& forall|k: int| 0 <= k < taken.len() ==> #[trigger] taken[k] % 4096 == 0 && frame_free(before, (taken[k] / 4096) as int)
        && frame_in(m, taken[k] as int)
    &&& forall|k: int, l: int| 0 <= k < l < taken.len() ==> #[trigger] taken[k] != #[trigger] taken[l]
    &&& forall|g: int| 0 <= g < crate::frame::MAX_FRAME_COUNT ==> #[trigger] after.used(g)
        == (before.used(g) || exists|k: int| 0 <= k < taken.len() && g == #[trigger] taken[k] / 4096)
}

/// Nothing taken: the allocator is as it was.
pub proof fn lemma_grew_none(a: FrameAllocator, m: Seq<u64>)
    requires
        a.wf(),
    ensures
        grew(a, a, m, Seq::empty()),
{
}

/// One allocation is a growth by one frame.
pub proof fn lemma_grew_one(before: FrameAllocator, after: FrameAllocator, m: Seq<u64>, t: u64)
    requires
        before.wf(),
        after.wf(),
        after.frame_count() == before.frame_count(),
        after.total_ram_view() == before.total_ram_view(),
        t % 4096 == 0,
        frame_free(before, (t / 4096) as int),
        frame_in(m, t as int),
        marks_only(before.bitmap_view(), after.bitmap_view(), (t / 4096) as int, true),
    ensures
        grew(before, after, m, seq![t]),
{
    before.lemma_wf();
    after.lemma_wf();
    let s = seq![t];
    assert forall|g: int| 0 <= g < crate::frame::MAX_FRAME_COUNT implies #[trigger] after.used(g)
        == (before.used(g) || exists|k: int| 0 <= k < s.len() && g == #[trigger] s[k] / 4096) by {
        if g == t / 4096 {
            assert(s[0] / 4096 == g);
        }
    }
}

/// Growths compose: the frames taken by the first, then the second.
pub proof fn lemma_grew_chain(a0: FrameAllocator, a1: FrameAllocator, a2: FrameAllocator, m: Seq<u64>, s1: Seq<u64>, s2: Seq<u64>)
    requires
        a0.wf(),
        grew(a0, a1, m, s1),
        grew(a1, a2, m, s2),
    ensures
        grew(a0, a2, m, s1 + s2),
{
    let s = s1 + s2;
    a0.lemma_wf();
    a1.lemma_wf();
    a2.lemma_wf();
    assert forall|k: int| 0 <= k < s.len() implies #[trigger] s[k] % 4096 == 0 && frame_free(a0, (s[k] / 4096) as int)
        && frame_in(m, s[k] as int) by {
        if k >= s1.len() {
            let f = (s2[k - s1.len()] / 4096) as int;
            assert(a1.used(f) == (a0.used(f) || exists|i: int| 0 <= i < s1.len() && f == #[trigger] s1[i] / 4096));
        }
    }
    assert forall|k: int, l: int| 0 <= k < l < s.len() implies #[trigger] s[k] != #[trigger] s[l] by {
        if k < s1.len() && l >= s1.len() {
            let f = (s2[l - s1.len()] / 4096) as int;
            assert(s1[k] / 4096 == (s1[k] / 4096) as int);
            assert(a1.used(f) == (a0.used(f) || exists|i: int| 0 <= i < s1.len() && f == #[trigger] s1[i] / 4096));
            if s[k] == s[l] {
                assert(f == s1[k] / 4096);
            }
        }
    }
    assert forall|g: int| 0 <= g < crate::frame::MAX_FRAME_COUNT implies #[trigger] a2.used(g)
        == (a0.used(g) || exists|k: int| 0 <= k < s.len() && g == #[trigger] s[k] / 4096) by {
        assert(a1.used(g) == (a0.used(g) || exists|i: int| 0 <= i < s1.len() && g == #[trigger] s1[i] / 4096));
        assert(a2.used(g) == (a1.used(g) || exists|i: int| 0 <= i < s2.len() && g == #[trigger] s2[i] / 4096));
        if exists|i: int| 0 <= i < s1.len() && g == #[trigger] s1[i] / 4096 {
            let i = choose|i: int| 0 <= i < s1.len() && g == #[trigger] s1[i] / 4096;
            assert(s[i] == s1[i]);
        }
        if exists|i: int| 0 <= i < s2.len() && g == #[trigger] s2[i] / 4096 {
            let i = choose|i: int| 0 <= i < s2.len() && g == #[trigger] s2[i] / 4096;
            assert(s[s1.len() + i] == s2[i]);
        }
        if exists|k: int| 0 <= k < s.len() && g == #[trigger] s[k] / 4096 {
            let k = choose|k: int| 0 <= k < s.len() && g == #[trigger] s[k] / 4096;
            if k < s1.len() {
                assert(s1[k] == s[k]);
            } else {
                assert(s2[k - s1.len()] == s[k]);
            }
        }
    }
}

/// `after` is `before` with the frames numbered in `freed` given back
/// (those it manages), and nothing else changed.
pub open spec fn released(before: FrameAllocator, after: FrameAllocator, freed: Seq<int>) -> bool {
    &&& after.wf()
    &&& after.frame_count() == before.frame_count()
    &&& after.total_ram_view() == before.total_ram_view()
    &&& forall|g: int| 0 <= g < crate::frame::MAX_FRAME_COUNT ==> #[trigger] after.used(g)
        == (before.used(g) && !(g < before.frame_count() && freed.contains(g)))
}

/// Giving back one frame.
pub proof fn lemma_released_one(before: FrameAllocator, after: FrameAllocator, f: int)
    requires
        before.wf(),
        after.wf(),
        after.frame_count() == before.frame_count(),
        after.total_ram_view() == before.total_ram_view(),
        f >= 0,
        f < before.frame_count() ==> marks_only(before.bitmap_view(), after.bitmap_view(), f, false),
        f >= before.frame_count() ==> after.bitmap_view() == before.bitmap_view(),
    ensures
        released(before, after, seq![f]),
{
    before.lemma_wf();
    after.lemma_wf();
    let s = seq![f];
    assert forall|g: int| 0 <= g < crate::frame::MAX_FRAME_COUNT implies #[trigger] after.used(g)
        == (before.used(g) && !(g < before.frame_count() && s.contains(g))) by {
        if g == f {
            assert(s[0] == g);
        } else {
            assert(!s.contains(g)) by {
                if s.contains(g) {
                    let k = choose|k: int| 0 <= k < s.len() && s[k] == g;
                }
            }
        }
    }
}

/// Giving back nothing.
pub proof fn lemma_released_none(a: FrameAllocator)
    requires
        a.wf(),
    ensures
        released(a, a, Seq::empty()),
{
}

/// Releases compose.
pub proof fn lemma_released_chain(a0: FrameAllocator, a1: FrameAllocator, a2: FrameAllocator, s1: Seq<int>, s2: Seq<int>)
    requires
        released(a0, a1, s1),
        released(a1, a2, s2),
    ensures
        released(a0, a2, s1 + s2),
{
    let s = s1 + s2;
    assert forall|g: int| 0 <= g < crate::frame::MAX_FRAME_COUNT implies #[trigger] a2.used(g)
        == (a0.used(g) && !(g < a0.frame_count() && s.contains(g))) by {
        assert(a1.used(g) == (a0.used(g) && !(g < a0.frame_count() && s1.contains(g))));
        assert(a2.used(g) == (a1.used(g) && !(g < a1.frame_count() && s2.contains(g))));
        if s1.contains(g) {
            let k = choose|k: int| 0 <= k < s1.len() && s1[k] == g;
            assert(s[k] == g);
        }
        if s2.contains(g) {
            let k = choose|k: int| 0 <= k < s2.len() && s2[k] == g;
            assert(s[s1.len() + k] == g);
        }
        if s.contains(g) {
            let k = choose|k: int| 0 <= k < s.len() && s[k] == g;
            if k < s1.len() {
                assert(s1[k] == g);
            } else {
                assert(s2[k - s1.len()] == g);
            }
        }
    }
}

/// The little-endian value of bytes `b..8` of the 8 at `o`.
pub open spec fn le_tail(s: Seq<u8>, o: int, b: int) -> int
    decreases 8 - b,
{
    if b >= 8 || b < 0 { 0 } else { s[o + b] + 256 * le_tail(s, o, b + 1) }
}

/// One more byte taken from the top.
proof fn lemma_le_tail_step(s: Seq<u8>, o: int, b: int)
    requires
        0 <= b < 8,
    ensures
        le_tail(s, o, b) == s[o + b] + 256 * le_tail(s, o, b + 1),
        le_tail(s, o, b + 1) * 256 + 255 < 0x1_0000_0000_0000_0000,
{
    lemma_le_tail_bound(s, o, b + 1);
    assert(pow256(7 - b) * 256 <= 0x1_0000_0000_0000_0000);
}

/// 256 to the power `b`, for b at most 8.
pub open spec fn pow256(b: int) -> int {
    if b <= 0 { 1 } else if b == 1 { 256 } else if b == 2 { 65536 } else if b == 3 { 0x100_0000 } else if b == 4 { 0x1_0000_0000 }
    else if b == 5 { 0x100_0000_0000 } else if b == 6 { 0x1_0000_0000_0000 } else if b == 7 { 0x100_0000_0000_0000 }
    else { 0x1_0000_0000_0000_0000 }
}

/// The tail's value fits its bytes.
proof fn lemma_le_tail_bound(s: Seq<u8>, o: int, b: int)
    requires
        0 <= b <= 8,
    ensures
        0 <= le_tail(s, o, b) < pow256(8 - b),
    decreases 8 - b,
{
    if b < 8 {
        lemma_le_tail_bound(s, o, b + 1);
    }
}

/// All eight bytes: the little-endian u64.
proof fn lemma_le_tail_full(s: Seq<u8>, o: int)
    ensures
        le_tail(s, o, 0) == le64(s, o),
{
    reveal_with_fuel(le_tail, 9);
}

} // verus!
