//! Bump allocator: a single monotonically increasing cursor over the heap
//! region, with whole-region reclamation once every allocation has been
//! returned.
use vstd::prelude::*;

verus! {

use crate::allocator::{align_up, spec_align_up};

/// Bump allocator bookkeeping: a cursor `next` that only moves forward, and a
/// count of outstanding allocations. The region is reclaimed as a whole when
/// the count reaches zero; partial space is never reused.
pub struct Allocator {
    pub heap_start: u64,
    pub heap_end: u64,
    pub next: u64,
    pub allocations: u64,
}

impl Allocator {
    /// The bookkeeping is consistent: the cursor lies within the heap region.
    pub open spec fn wf(&self) -> bool {
        self.heap_start <= self.next <= self.heap_end
    }

    /// An empty allocator over the degenerate region `[0, 0)`.
    pub fn new() -> (r: Self)
        ensures
            r.wf(),
            r.heap_start == 0,
            r.heap_end == 0,
            r.next == 0,
            r.allocations == 0,
    {
        Self { heap_start: 0, heap_end: 0, next: 0, allocations: 0 }
    }

    /// Hand the allocator its heap region; to be called exactly once, before
    /// the first allocation.
    pub fn init(&mut self, heap_start: u64, heap_size: u64)
        requires
            heap_start + heap_size <= u64::MAX,
        ensures
            final(self).wf(),
            final(self).heap_start == heap_start,
            final(self).heap_end == heap_start + heap_size,
            final(self).next == heap_start,
            final(self).allocations == old(self).allocations,
    {
        self.heap_start = heap_start;
        self.heap_end = heap_start + heap_size;
        self.next = heap_start;
    }

    /// Allocate `size` bytes aligned to `align`: align the cursor up, advance
    /// it past the new allocation, and fail with `None` exactly when the
    /// aligned allocation would not fit below `heap_end`.
    pub fn allocate(&mut self, size: u64, align: u64) -> (r: Option<u64>)
        requires
            old(self).wf(),
            align > 0,
            old(self).allocations < u64::MAX,
        ensures
            final(self).wf(),
            final(self).heap_start == old(self).heap_start,
            final(self).heap_end == old(self).heap_end,
            r is Some <==> spec_align_up(old(self).next as int, align as int) + size <= old(
                self,
            ).heap_end,
            r matches Some(start) ==> {
                &&& start == spec_align_up(old(self).next as int, align as int)
                &&& start % align == 0
                &&& start >= old(self).next
                &&& start + size <= old(self).heap_end
                &&& final(self).next == start + size
                &&& final(self).allocations == old(self).allocations + 1
            },
            r is None ==> *final(self) == *old(self),
    {
        let ghost aligned = spec_align_up(self.next as int, align as int);
        proof {
            assert(aligned >= self.next && aligned < self.next + align);
        }
        // The aligned cursor exceeds u64 only if it already exceeds heap_end,
        // in which case the allocation cannot fit; report failure directly.
        if self.next % align != 0 && align - self.next % align > u64::MAX - self.next {
            proof {
                assert(aligned > u64::MAX >= self.heap_end);
            }
            return None;
        }
        let alloc_start = align_up(self.next, align);
        if size > u64::MAX - alloc_start {
            proof {
                assert(aligned + size > u64::MAX >= self.heap_end);
            }
            return None;
        }
        let alloc_end = alloc_start + size;
        if alloc_end > self.heap_end {
            None
        } else {
            self.next = alloc_end;
            self.allocations = self.allocations + 1;
            Some(alloc_start)
        }
    }

    /// Return one allocation: decrement the outstanding count, and rewind the
    /// cursor to `heap_start` exactly when the count reaches zero. The count
    /// is a counter, not a stack: out-of-order returns are fully supported.
    pub fn deallocate(&mut self)
        requires
            old(self).wf(),
            old(self).allocations > 0,
        ensures
            final(self).wf(),
            final(self).heap_start == old(self).heap_start,
            final(self).heap_end == old(self).heap_end,
            final(self).allocations == old(self).allocations - 1,
            final(self).next == if final(self).allocations == 0 {
                old(self).heap_start
            } else {
                old(self).next
            },
            final(self).next == old(self).heap_start <==> (final(self).allocations == 0 || old(
                self,
            ).next == old(self).heap_start),
    {
        self.allocations = self.allocations - 1;
        if self.allocations == 0 {
            self.next = self.heap_start;
        }
    }
}

} // verus!
