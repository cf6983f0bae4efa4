//! Kernel heap allocators: a bump allocator over one region, and a
//! fixed-size block allocator with a free list per block size that falls
//! back on the bump allocator. Addresses are plain integers; 0 stands for
//! a failed allocation.
use vstd::prelude::*;

verus! {

/// A power of two.
pub open spec fn is_pow2(a: usize) -> bool {
    a > 0 && a & ((a - 1) as usize) == 0
}

/// `x` rounded up to a multiple of `align` (a power of two).
pub open spec fn align_up(x: usize, align: usize) -> usize {
    ((x + align - 1) as usize) & !((align - 1) as usize)
}

proof fn lemma_align_up(x: usize, align: usize)
    requires
        is_pow2(align),
        x + align - 1 <= usize::MAX,
    ensures
        align_up(x, align) >= x,
        align_up(x, align) & ((align - 1) as usize) == 0,
        align_up(x, align) <= x + align - 1,
{
    let y = (x + align - 1) as usize;
    let m = (align - 1) as usize;
    assert((y & !m) & m == 0) by (bit_vector);
    assert((y & !m) <= y) by (bit_vector);
    assert(y & m <= m) by (bit_vector);
    assert((y & !m) + (y & m) == y) by (bit_vector);
}

/// A bump allocator: hands out `[next, end)` front to back, never frees.
pub struct BumpAllocator {
    pub next: usize,
    pub end: usize,
}

/// Where a bump allocation of `size` bytes aligned to `align` would end.
pub open spec fn bump_end(next: usize, size: usize, align: usize) -> int {
    align_up(next, align) + size
}

impl BumpAllocator {
    /// An allocator with an empty region.
    pub fn new() -> (b: Self)
        ensures
            b.next == 0 && b.end == 0,
    {
        BumpAllocator { next: 0, end: 0 }
    }

    /// Hand out the region `[start, start + size)`.
    pub fn init(&mut self, start: usize, size: usize)
        requires
            start + size <= usize::MAX,
        ensures
            final(self).next == start,
            final(self).end == start + size,
    {
        self.next = start;
        self.end = start + size;
    }

    /// Allocate `size` bytes aligned to `align`: the aligned start, or 0
    /// (and nothing taken) when the region is too small.
    pub fn allocate(&mut self, size: usize, align: usize) -> (r: usize)
        requires
            is_pow2(align),
            old(self).next + align <= usize::MAX,
            bump_end(old(self).next, size, align) <= usize::MAX,
        ensures
            bump_end(old(self).next, size, align) > old(self).end ==> r == 0 && *final(self) == *old(self),
            bump_end(old(self).next, size, align) <= old(self).end ==> {
                &&& r == align_up(old(self).next, align)
                &&& final(self).next == bump_end(old(self).next, size, align)
                &&& final(self).end == old(self).end
            },
    {
        let next = self.next;
        let end = self.end;
        let aligned_start = (next + align - 1) & !(align - 1);
        let allocated_end = aligned_start + size;
        if allocated_end > end {
            return 0;
        }
        self.next = allocated_end;
        aligned_start
    }

    /// Freeing is a no-op for a bump allocator.
    pub fn dealloc(&mut self, _ptr: usize, _size: usize, _align: usize)
        ensures
            *final(self) == *old(self),
    {
    }
}

/// A bump allocation lies inside the region, aligned, past what was
/// handed out before, and the next one starts after it.
pub proof fn law_bump_alloc_in_region(next: usize, end: usize, size: usize, align: usize)
    requires
        is_pow2(align),
        next + align <= usize::MAX,
        bump_end(next, size, align) <= end,
    ensures
        next <= align_up(next, align),
        align_up(next, align) & ((align - 1) as usize) == 0,
        align_up(next, align) + size <= end,
{
    lemma_align_up(next, align);
}

/// Number of block sizes.
pub const NUM_BLOCK_SIZES: usize = 9;

/// Block size of class `i`: 8, 16, 32, ..., 2048.
pub open spec fn block_size_spec(i: int) -> usize {
    if i == 0 { 8 } else if i == 1 { 16 } else if i == 2 { 32 } else if i == 3 { 64 } else if i == 4 { 128 }
    else if i == 5 { 256 } else if i == 6 { 512 } else if i == 7 { 1024 } else { 2048 }
}

fn block_size(i: usize) -> (r: usize)
    requires
        i < NUM_BLOCK_SIZES,
    ensures
        r == block_size_spec(i as int),
        is_pow2(r),
{
    let r: usize = if i == 0 { 8 } else if i == 1 { 16 } else if i == 2 { 32 } else if i == 3 { 64 }
        else if i == 4 { 128 } else if i == 5 { 256 } else if i == 6 { 512 } else if i == 7 { 1024 } else { 2048 };
    assert(r == 8 ==> r & ((r - 1) as usize) == 0) by (bit_vector);
    assert(r == 16 ==> r & ((r - 1) as usize) == 0) by (bit_vector);
    assert(r == 32 ==> r & ((r - 1) as usize) == 0) by (bit_vector);
    assert(r == 64 ==> r & ((r - 1) as usize) == 0) by (bit_vector);
    assert(r == 128 ==> r & ((r - 1) as usize) == 0) by (bit_vector);
    assert(r == 256 ==> r & ((r - 1) as usize) == 0) by (bit_vector);
    assert(r == 512 ==> r & ((r - 1) as usize) == 0) by (bit_vector);
    assert(r == 1024 ==> r & ((r - 1) as usize) == 0) by (bit_vector);
    assert(r == 2048 ==> r & ((r - 1) as usize) == 0) by (bit_vector);
    r
}

/// The first class from `i` on whose blocks hold `required` bytes.
pub open spec fn class_from(required: usize, i: int) -> Option<usize>
    decreases NUM_BLOCK_SIZES - i,
{
    if i >= NUM_BLOCK_SIZES {
        None
    } else if block_size_spec(i) >= required {
        Some(i as usize)
    } else {
        class_from(required, i + 1)
    }
}

/// The class that serves a request: the smallest block size covering
/// both the size and the alignment.
pub open spec fn block_class(size: usize, align: usize) -> Option<usize> {
    class_from(if size >= align { size } else { align }, 0)
}

/// Fixed-size block allocator: a free list (last freed, first reused) per
/// block size; requests too large for any block go to the bump allocator
/// and are never reused.
pub struct FixedBlockAllocator {
    free_lists: Vec<Vec<usize>>,
    bump: BumpAllocator,
}

impl FixedBlockAllocator {
    /// The free blocks of each class, the top of each list last.
    pub closed spec fn lists(&self) -> Seq<Seq<usize>> {
        Seq::new(self.free_lists@.len(), |i: int| self.free_lists@[i]@)
    }

    /// The bump allocator behind the free lists.
    pub closed spec fn bump_state(&self) -> BumpAllocator {
        self.bump
    }

    pub open spec fn wf(&self) -> bool {
        self.lists().len() == NUM_BLOCK_SIZES
    }

    /// Empty free lists and an empty bump region.
    pub fn new() -> (a: Self)
        ensures
            a.wf(),
            forall|i: int| 0 <= i < NUM_BLOCK_SIZES ==> #[trigger] a.lists()[i].len() == 0,
            a.bump_state().next == 0 && a.bump_state().end == 0,
    {
        let mut free_lists: Vec<Vec<usize>> = Vec::new();
        let mut i: usize = 0;
        while i < NUM_BLOCK_SIZES
            invariant
                0 <= i <= NUM_BLOCK_SIZES,
                free_lists@.len() == i,
                forall|k: int| 0 <= k < i ==> #[trigger] free_lists@[k]@.len() == 0,
            decreases NUM_BLOCK_SIZES - i,
        {
            free_lists.push(Vec::new());
            i = i + 1;
        }
        FixedBlockAllocator { free_lists, bump: BumpAllocator::new() }
    }

    /// Give the bump allocator the heap `[heap_start, heap_start + heap_size)`.
    pub fn init(&mut self, heap_start: usize, heap_size: usize)
        requires
            heap_start + heap_size <= usize::MAX,
        ensures
            final(self).lists() == old(self).lists(),
            final(self).bump_state().next == heap_start,
            final(self).bump_state().end == heap_start + heap_size,
    {
        self.bump.init(heap_start, heap_size);
    }

    /// The class serving a request of `size` bytes aligned to `align`.
    pub fn get_block_index(size: usize, align: usize) -> (r: Option<usize>)
        ensures
            r == block_class(size, align),
            r matches Some(i) ==> i < NUM_BLOCK_SIZES,
    {
        let required = if size >= align { size } else { align };
        let mut i: usize = 0;
        while i < NUM_BLOCK_SIZES
            invariant
                0 <= i <= NUM_BLOCK_SIZES,
                required == (if size >= align { size } else { align }),
                class_from(required, 0) == class_from(required, i as int),
            decreases NUM_BLOCK_SIZES - i,
        {
            if block_size(i) >= required {
                return Some(i);
            }
            i = i + 1;
        }
        None
    }

    /// Whether serving the request cannot overflow the bump allocator's
    /// arithmetic.
    pub open spec fn fits(&self, size: usize, align: usize) -> bool {
        match block_class(size, align) {
            Some(i) => self.lists()[i as int].len() > 0 || (self.bump_state().next + block_size_spec(i as int) <= usize::MAX
                && bump_end(self.bump_state().next, block_size_spec(i as int), block_size_spec(i as int)) <= usize::MAX),
            None => self.bump_state().next + align <= usize::MAX && bump_end(self.bump_state().next, size, align) <= usize::MAX,
        }
    }

    /// Allocate for `size` bytes aligned to `align`: the most recently
    /// freed block of the serving class, else a fresh block of that size
    /// from the bump allocator; a request larger than every block goes to
    /// the bump allocator as it is. 0 when the heap is exhausted.
    pub fn allocate(&mut self, size: usize, align: usize) -> (r: usize)
        requires
            old(self).wf(),
            is_pow2(align),
            old(self).fits(size, align),
        ensures
            final(self).wf(),
            match block_class(size, align) {
                Some(i) => if old(self).lists()[i as int].len() > 0 {
                    &&& r == old(self).lists()[i as int].last()
                    &&& final(self).lists() == old(self).lists().update(i as int, old(self).lists()[i as int].drop_last())
                    &&& final(self).bump_state() == old(self).bump_state()
                } else {
                    let bs = block_size_spec(i as int);
                    &&& final(self).lists() == old(self).lists()
                    &&& bump_end(old(self).bump_state().next, bs, bs) > old(self).bump_state().end ==> r == 0 && final(self).bump_state() == old(self).bump_state()
                    &&& bump_end(old(self).bump_state().next, bs, bs) <= old(self).bump_state().end ==> r == align_up(old(self).bump_state().next, bs)
                        && final(self).bump_state().next == bump_end(old(self).bump_state().next, bs, bs)
                        && final(self).bump_state().end == old(self).bump_state().end
                },
                None => {
                    &&& final(self).lists() == old(self).lists()
                    &&& bump_end(old(self).bump_state().next, size, align) > old(self).bump_state().end ==> r == 0 && final(self).bump_state() == old(self).bump_state()
                    &&& bump_end(old(self).bump_state().next, size, align) <= old(self).bump_state().end ==> r == align_up(old(self).bump_state().next, align)
                        && final(self).bump_state().next == bump_end(old(self).bump_state().next, size, align)
                        && final(self).bump_state().end == old(self).bump_state().end
                },
            },
    {
        match Self::get_block_index(size, align) {
            Some(index) => {
                if self.free_lists[index].len() > 0 {
                    let mut list: Vec<usize> = Vec::new();
                    std::mem::swap(&mut list, &mut self.free_lists[index]);
                    let top = list.pop();
                    std::mem::swap(&mut list, &mut self.free_lists[index]);
                    proof {
                        assert(self.lists() =~= old(self).lists().update(index as int, old(self).lists()[index as int].drop_last()));
                    }
                    match top {
                        Some(p) => p,
                        None => 0,
                    }
                } else {
                    let bs = block_size(index);
                    self.bump.allocate(bs, bs)
                }
            },
            None => self.bump.allocate(size, align),
        }
    }

    /// Give back the block at `ptr` allocated for `size` bytes aligned to
    /// `align`: it goes on top of its class's free list; memory from a
    /// too-large request is not reused.
    pub fn dealloc(&mut self, ptr: usize, size: usize, align: usize)
        requires
            old(self).wf(),
        ensures
            final(self).wf(),
            final(self).bump_state() == old(self).bump_state(),
            match block_class(size, align) {
                Some(i) => final(self).lists() == old(self).lists().update(i as int, old(self).lists()[i as int].push(ptr)),
                None => final(self).lists() == old(self).lists(),
            },
    {
        match Self::get_block_index(size, align) {
            Some(index) => {
                let mut list: Vec<usize> = Vec::new();
                std::mem::swap(&mut list, &mut self.free_lists[index]);
                list.push(ptr);
                std::mem::swap(&mut list, &mut self.free_lists[index]);
                proof {
                    assert(self.lists() =~= old(self).lists().update(index as int, old(self).lists()[index as int].push(ptr)));
                }
            },
            None => {},
        }
    }
}

} // verus!
