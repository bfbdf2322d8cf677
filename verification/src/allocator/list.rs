//! Linked-list allocator: free spans are kept as a list of (address, size)
//! nodes; allocation walks the list first-fit and splits the remainder back
//! in; deallocation prepends the freed span. Adjacent free spans are never
//! merged, an explicit fragmentation trade-off.
use vstd::prelude::*;

verus! {

use crate::allocator::{spec_align_up, try_align_up, align_up};

/// Size in bytes of the bookkeeping record written into a free span. A span
/// smaller than this cannot be tracked.
pub const NODE_SIZE: u64 = 16;

/// Alignment in bytes that every tracked free span must have.
pub const NODE_ALIGN: u64 = 8;

/// A free span `[addr, addr + size)` of the heap.
#[derive(Clone, Copy, Debug, PartialEq, Eq, Structural)]
pub struct Node {
    pub addr: u64,
    pub size: u64,
}

impl Node {
    /// A free span of `size` bytes starting at `addr`.
    pub fn new(addr: u64, size: u64) -> (r: Self)
        ensures
            r.addr == addr,
            r.size == size,
    {
        Self { addr, size }
    }

    /// First byte of the span.
    pub fn start_addr(&self) -> (r: u64)
        ensures
            r == self.addr,
    {
        self.addr
    }

    /// One past the last byte of the span.
    pub fn end_addr(&self) -> (r: u64)
        requires
            self.addr + self.size <= u64::MAX,
        ensures
            r == self.addr + self.size,
    {
        self.addr + self.size
    }
}

/// An allocation request as the list allocator sees it: alignment raised to at
/// least `NODE_ALIGN`, size padded to a multiple of that alignment and to at
/// least `NODE_SIZE`, so that whatever is later freed can host a node.
pub open spec fn spec_size_align(size: int, align: int) -> (int, int) {
    let a2 = if align > NODE_ALIGN { align } else { NODE_ALIGN as int };
    let padded = spec_align_up(size, a2);
    let s2 = if padded > NODE_SIZE { padded } else { NODE_SIZE as int };
    (s2, a2)
}

/// The alignment argument is sane for this allocator: positive, and
/// commensurable with `NODE_ALIGN` (every power of two is).
pub open spec fn valid_align(align: int) -> bool {
    &&& align > 0
    &&& align <= NODE_ALIGN ==> (NODE_ALIGN as int) % align == 0
    &&& align > NODE_ALIGN ==> align % (NODE_ALIGN as int) == 0
}

/// Where an allocation of `size` bytes at alignment `align` would start
/// inside the free span `r`.
pub open spec fn spec_fit_start(r: Node, align: int) -> int {
    spec_align_up(r.addr as int, align)
}

/// Whether the free span `r` can serve an allocation of `size` bytes at
/// alignment `align`: the aligned allocation lies inside the span, and the
/// excess tail is either empty or large enough to host a node.
pub open spec fn spec_fit(r: Node, size: int, align: int) -> bool {
    let s = spec_fit_start(r, align);
    let e = s + size;
    let excess = r.addr + r.size - e;
    &&& e <= r.addr + r.size
    &&& (excess == 0 || excess >= NODE_SIZE)
}

/// The free list after a successful allocation of `size2` bytes at alignment
/// `align2` out of the span at index `i`: the span is removed, and the excess
/// tail, if any, is prepended as a new free span.
pub open spec fn spec_after_alloc(regions: Seq<Node>, i: int, size2: int, align2: int) -> Seq<
    Node,
> {
    let r = regions[i];
    let s = spec_fit_start(r, align2);
    let e = s + size2;
    let excess = r.addr + r.size - e;
    if excess > 0 {
        seq![Node { addr: e as u64, size: excess as u64 }] + regions.remove(i)
    } else {
        regions.remove(i)
    }
}

/// How a successful or failed allocation relates the free list before (`pre`)
/// and after (`post`) the call, for the raw request `(size, align)`: on
/// `None`, nothing changed and no span fits the padded request; on `Some(p)`,
/// the first fitting span was taken out at its aligned start `p` and the
/// excess tail, if any, was prepended.
pub open spec fn spec_alloc_post(
    pre: Seq<Node>,
    post: Seq<Node>,
    r: Option<u64>,
    size: int,
    align: int,
) -> bool {
    let size2 = spec_size_align(size, align).0;
    let align2 = spec_size_align(size, align).1;
    match r {
        None => post == pre && (forall|i: int|
            0 <= i < pre.len() ==> !spec_fit(#[trigger] pre[i], size2, align2)),
        Some(p) => exists|i: int|
            {
                &&& 0 <= i < pre.len()
                &&& p == spec_fit_start(#[trigger] pre[i], align2)
                &&& spec_fit(pre[i], size2, align2)
                &&& (forall|j: int| 0 <= j < i ==> !spec_fit(#[trigger] pre[j], size2, align2))
                &&& post == spec_after_alloc(pre, i, size2, align2)
                &&& (p as int) % align == 0
                &&& p + size2 <= u64::MAX
            },
    }
}

/// First-fit linked-list allocator. The free spans are held head-first: index
/// 0 is the head of the list, and freed spans are prepended.
pub struct Allocator {
    pub head: Vec<Node>,
}

impl Allocator {
    /// Every tracked free span can host its own bookkeeping record and lies
    /// within the address space.
    pub open spec fn wf(&self) -> bool {
        forall|i: int|
            0 <= i < self.head@.len() ==> {
                &&& (#[trigger] self.head@[i]).size >= NODE_SIZE
                &&& (self.head@[i].addr as int) % (NODE_ALIGN as int) == 0
                &&& self.head@[i].addr + self.head@[i].size <= u64::MAX
            }
    }

    /// An allocator with no free spans.
    pub fn new() -> (r: Self)
        ensures
            r.wf(),
            r.head@ == Seq::<Node>::empty(),
    {
        Self { head: Vec::new() }
    }

    /// Hand the allocator its heap region as one initial free span; to be
    /// called exactly once, before the first allocation.
    pub fn init(&mut self, heap_start: u64, heap_size: u64)
        requires
            old(self).wf(),
            heap_start % NODE_ALIGN == 0,
            heap_size >= NODE_SIZE,
            heap_start + heap_size <= u64::MAX,
        ensures
            final(self).wf(),
            final(self).head@ == seq![Node { addr: heap_start, size: heap_size }] + old(
                self,
            ).head@,
    {
        self.add_free_region(heap_start, heap_size);
    }

    /// Prepend the span `[addr, addr + size)` to the free list. The span must
    /// be able to host a node: aligned to `NODE_ALIGN` and at least
    /// `NODE_SIZE` bytes.
    pub fn add_free_region(&mut self, addr: u64, size: u64)
        requires
            old(self).wf(),
            addr % NODE_ALIGN == 0,
            size >= NODE_SIZE,
            addr + size <= u64::MAX,
        ensures
            final(self).wf(),
            final(self).head@ == seq![Node { addr, size }] + old(self).head@,
    {
        self.head.insert(0, Node::new(addr, size));
    }

    /// Whether `region` can serve an allocation of `size` bytes at alignment
    /// `align`, and if so, at which address the allocation would start.
    pub fn alloc_from_region(region: &Node, size: u64, align: u64) -> (r: Result<u64, ()>)
        requires
            align > 0,
            region.addr + region.size <= u64::MAX,
        ensures
            r matches Ok(s) ==> s == spec_fit_start(*region, align as int) && spec_fit(
                *region,
                size as int,
                align as int,
            ),
            r is Err <==> !spec_fit(*region, size as int, align as int),
    {
        let end = region.addr + region.size;
        let alloc_start = match try_align_up(region.start_addr(), align) {
            Some(s) => s,
            None => {
                return Err(());
            },
        };
        if size > u64::MAX - alloc_start {
            return Err(());
        }
        let alloc_end = alloc_start + size;
        if alloc_end > end {
            return Err(());
        }
        let excess_size = end - alloc_end;
        if excess_size > 0 && excess_size < NODE_SIZE {
            // The tail left over by this allocation could not host a node, so
            // it could not be tracked; the region is unsuitable.
            return Err(());
        }
        Ok(alloc_start)
    }

    /// Walk the free list in order and take out the first span that can serve
    /// the request, returning it with the address where the allocation starts.
    pub fn find_region(&mut self, size: u64, align: u64) -> (r: Option<(Node, u64)>)
        requires
            old(self).wf(),
            align > 0,
        ensures
            final(self).wf(),
            r is None ==> *final(self) == *old(self) && forall|i: int|
                0 <= i < old(self).head@.len() ==> !spec_fit(
                    #[trigger] old(self).head@[i],
                    size as int,
                    align as int,
                ),
            r matches Some((node, start)) ==> exists|i: int|
                {
                    &&& 0 <= i < old(self).head@.len()
                    &&& old(self).head@[i] == node
                    &&& #[trigger] final(self).head@ == old(self).head@.remove(i)
                    &&& spec_fit(node, size as int, align as int)
                    &&& start == spec_fit_start(node, align as int)
                    &&& forall|j: int|
                        0 <= j < i ==> !spec_fit(
                            #[trigger] old(self).head@[j],
                            size as int,
                            align as int,
                        )
                },
    {
        let mut j: usize = 0;
        while j < self.head.len()
            invariant
                self == old(self),
                old(self).wf(),
                align > 0,
                j <= self.head@.len(),
                forall|k: int|
                    0 <= k < j ==> !spec_fit(
                        #[trigger] self.head@[k],
                        size as int,
                        align as int,
                    ),
            decreases self.head@.len() - j,
        {
            match Self::alloc_from_region(&self.head[j], size, align) {
                Ok(alloc_start) => {
                    let node = self.head.remove(j);
                    return Some((node, alloc_start));
                },
                Err(_) => {
                    j = j + 1;
                },
            }
        }
        None
    }

    /// Pad the request as the allocator requires: alignment at least
    /// `NODE_ALIGN`, size a multiple of the alignment and at least
    /// `NODE_SIZE`.
    pub fn size_align(size: u64, align: u64) -> (r: (u64, u64))
        requires
            valid_align(align as int),
            spec_size_align(size as int, align as int).0 <= u64::MAX,
        ensures
            r.0 == spec_size_align(size as int, align as int).0,
            r.1 == spec_size_align(size as int, align as int).1,
    {
        let a2 = if align > NODE_ALIGN {
            align
        } else {
            NODE_ALIGN
        };
        let padded = align_up(size, a2);
        let s2 = if padded > NODE_SIZE {
            padded
        } else {
            NODE_SIZE
        };
        (s2, a2)
    }

    /// Allocate `size` bytes at alignment `align`: pad the request, take the
    /// first fitting span off the free list, and prepend the excess tail, if
    /// any, back onto it. Fails with `None` exactly when no span fits the
    /// padded request.
    pub fn allocate(&mut self, size: u64, align: u64) -> (r: Option<u64>)
        requires
            old(self).wf(),
            valid_align(align as int),
            spec_size_align(size as int, align as int).0 <= u64::MAX,
        ensures
            final(self).wf(),
            spec_alloc_post(old(self).head@, final(self).head@, r, size as int, align as int),
    {
        let (size2, align2) = Self::size_align(size, align);
        proof {
            let g = align as int;
            let a2 = align2 as int;
            let node_align = NODE_ALIGN as int;
            if g > node_align {
                vstd::arithmetic::div_mod::lemma_mod_self_0(g);
            } else {
                vstd::arithmetic::div_mod::lemma_mod_self_0(node_align);
            }
            assert(a2 % g == 0 && a2 % node_align == 0);
            let padded = spec_align_up(size as int, a2);
            crate::allocator::lemma_align_up_props(size as int, a2);
            crate::allocator::lemma_mod_trans(padded, a2, node_align);
            assert((size2 as int) % node_align == 0 && size2 >= NODE_SIZE);
        }
        match self.find_region(size2, align2) {
            Some((region, alloc_start)) => {
                let ghost i = choose|i: int|
                    {
                        &&& 0 <= i < old(self).head@.len()
                        &&& old(self).head@[i] == region
                        &&& #[trigger] self.head@ == old(self).head@.remove(i)
                        &&& spec_fit(region, size2 as int, align2 as int)
                        &&& alloc_start == spec_fit_start(region, align2 as int)
                        &&& forall|j: int|
                            0 <= j < i ==> !spec_fit(
                                #[trigger] old(self).head@[j],
                                size2 as int,
                                align2 as int,
                            )
                    };
                let alloc_end = alloc_start + size2;
                let excess_size = region.end_addr() - alloc_end;
                proof {
                    let g = align as int;
                    let a2 = align2 as int;
                    let node_align = NODE_ALIGN as int;
                    crate::allocator::lemma_align_up_props(region.addr as int, a2);
                    assert((alloc_start as int) % a2 == 0);
                    crate::allocator::lemma_mod_trans(alloc_start as int, a2, g);
                    crate::allocator::lemma_mod_trans(alloc_start as int, a2, node_align);
                    crate::allocator::lemma_mod_sum_zero(
                        alloc_start as int,
                        size2 as int,
                        node_align,
                    );
                    assert((alloc_end as int) % node_align == 0);
                }
                if excess_size > 0 {
                    self.add_free_region(alloc_end, excess_size);
                }
                Some(alloc_start)
            },
            None => None,
        }
    }

    /// Return the allocation that started at `ptr` with the given request:
    /// the padded span is prepended to the free list as one free span.
    pub fn deallocate(&mut self, ptr: u64, size: u64, align: u64)
        requires
            old(self).wf(),
            valid_align(align as int),
            ptr % NODE_ALIGN == 0,
            ptr + spec_size_align(size as int, align as int).0 <= u64::MAX,
        ensures
            final(self).wf(),
            final(self).head@ == seq![
                Node {
                    addr: ptr,
                    size: spec_size_align(size as int, align as int).0 as u64,
                },
            ] + old(self).head@,
    {
        let (size2, _) = Self::size_align(size, align);
        proof {
            let a2 = spec_size_align(size as int, align as int).1;
            let padded = spec_align_up(size as int, a2);
            assert(size2 >= NODE_SIZE);
        }
        self.add_free_region(ptr, size2);
    }
}

/// Whether byte `b` lies in the free span `n`.
pub open spec fn in_span(n: Node, b: int) -> bool {
    n.addr <= b < n.addr + n.size
}

/// Whether some span of the free list covers byte `b`.
pub open spec fn covers(regions: Seq<Node>, b: int) -> bool {
    exists|i: int| 0 <= i < regions.len() && in_span(#[trigger] regions[i], b)
}

/// The set of heap bytes the free list tracks as free.
pub open spec fn free_bytes(regions: Seq<Node>) -> Set<int> {
    Set::new(|b: int| covers(regions, b))
}

/// Allocating a padded span of `size2` bytes out of the span at index `i`
/// (with no alignment gap at its head) and immediately freeing it restores
/// exactly one free span covering the allocated `[p, p + size2)`: that span
/// stands at the head of the list, it does not overlap the split-back excess
/// span, and no byte of free space is lost or gained over the whole cycle.
pub proof fn lemma_alloc_dealloc_restores(regions: Seq<Node>, i: int, size2: int, align2: int)
    requires
        0 <= i < regions.len(),
        align2 > 0,
        size2 > 0,
        regions[i].addr + regions[i].size <= u64::MAX,
        spec_fit(regions[i], size2, align2),
        spec_fit_start(regions[i], align2) == regions[i].addr,
    ensures
        ({
            let p = regions[i].addr;
            let after = seq![Node { addr: p, size: size2 as u64 }] + spec_after_alloc(
                regions,
                i,
                size2,
                align2,
            );
            &&& after[0] == (Node { addr: p, size: size2 as u64 })
            &&& free_bytes(after) == free_bytes(regions)
            &&& regions[i].addr + regions[i].size - (p + size2) > 0 ==> forall|b: int|
                in_span(after[0], b) ==> !in_span(#[trigger] after[1], b)
        }),
{
    let p = regions[i].addr;
    let e = p + size2;
    let end = regions[i].addr + regions[i].size;
    let excess = end - e;
    let freed = Node { addr: p, size: size2 as u64 };
    let after = seq![freed] + spec_after_alloc(regions, i, size2, align2);
    let off: int = if excess > 0 {
        2
    } else {
        1
    };
    assert forall|b: int| covers(after, b) implies covers(regions, b) by {
        let k = choose|k: int| 0 <= k < after.len() && in_span(#[trigger] after[k], b);
        if k < off {
            assert(in_span(regions[i], b));
        } else {
            let j = if k - off < i {
                k - off
            } else {
                k - off + 1
            };
            assert(after[k] == regions[j]);
            assert(in_span(regions[j], b));
        }
    }
    assert forall|b: int| covers(regions, b) implies covers(after, b) by {
        let j = choose|j: int| 0 <= j < regions.len() && in_span(#[trigger] regions[j], b);
        if j == i {
            if b < e {
                assert(in_span(after[0], b));
            } else {
                assert(excess > 0);
                assert(in_span(after[1], b));
            }
        } else {
            let k = if j < i {
                j + off
            } else {
                j - 1 + off
            };
            assert(after[k] == regions[j]);
            assert(in_span(after[k], b));
        }
    }
    assert(free_bytes(after) =~= free_bytes(regions));
}

} // verus!
