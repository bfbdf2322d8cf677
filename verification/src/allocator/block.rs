//! Fixed-size-block allocator: one free list per size class from a fixed
//! ascending table, with a linked-list allocator as fallback. Class hits are
//! O(1) pushes and pops; misses carve a fresh block of exactly the class size
//! out of the fallback; requests past the largest class bypass classing. Like
//! every allocator of this family, the fallback never merges adjacent free
//! spans — no coalescing is promised anywhere in this design.
use vstd::prelude::*;

verus! {

use crate::allocator::{is_pow2, lemma_pow2_divides, lemma_mod_trans, spec_align_up};
use crate::allocator::list;
use crate::allocator::list::{spec_size_align, spec_alloc_post, valid_align, Node, NODE_ALIGN};

/// Number of size classes in the block table.
pub const BLOCK_SIZES_LEN: usize = 9;

/// The fixed ascending table of block sizes. Each is a power of two, large
/// enough to host the free-list record written into a freed block, and each
/// block is aligned to its own size.
pub open spec fn spec_block_sizes() -> Seq<int> {
    seq![8, 16, 32, 64, 128, 256, 512, 1024, 2048]
}

/// The block size of class `index`.
pub fn block_size(index: usize) -> (r: u64)
    requires
        index < BLOCK_SIZES_LEN,
    ensures
        r == spec_block_sizes()[index as int],
        8 <= r <= 2048,
        is_pow2(r as int),
{
    proof {
        vstd::arithmetic::power2::lemma2_to64();
        assert(8 == vstd::arithmetic::power2::pow2(3));
        assert(16 == vstd::arithmetic::power2::pow2(4));
        assert(32 == vstd::arithmetic::power2::pow2(5));
        assert(64 == vstd::arithmetic::power2::pow2(6));
        assert(128 == vstd::arithmetic::power2::pow2(7));
        assert(256 == vstd::arithmetic::power2::pow2(8));
        assert(512 == vstd::arithmetic::power2::pow2(9));
        assert(1024 == vstd::arithmetic::power2::pow2(10));
        assert(2048 == vstd::arithmetic::power2::pow2(11));
    }
    if index == 0 {
        8
    } else if index == 1 {
        16
    } else if index == 2 {
        32
    } else if index == 3 {
        64
    } else if index == 4 {
        128
    } else if index == 5 {
        256
    } else if index == 6 {
        512
    } else if index == 7 {
        1024
    } else {
        2048
    }
}

/// The block a request needs must be as large as its size and, because each
/// block is aligned to its own size, as large as its alignment.
pub open spec fn spec_required_size(size: int, align: int) -> int {
    if size > align {
        size
    } else {
        align
    }
}

/// The class that serves a request, if any: the one block-size table position
/// whose size is at least `max(size, align)` while all earlier ones are
/// smaller. The table being strictly ascending, this is the smallest tabled
/// size that fits the request.
pub open spec fn is_class_of(idx: int, size: int, align: int) -> bool {
    &&& 0 <= idx < BLOCK_SIZES_LEN
    &&& spec_block_sizes()[idx] >= spec_required_size(size, align)
    &&& forall|j: int| 0 <= j < idx ==> spec_block_sizes()[j] < spec_required_size(size, align)
}

/// The class chosen for a request, or `None` when even the largest class is
/// too small.
pub fn list_index(size: u64, align: u64) -> (r: Option<usize>)
    ensures
        r matches Some(idx) ==> is_class_of(idx as int, size as int, align as int),
        r is None <==> spec_required_size(size as int, align as int) > 2048,
{
    let required_block_size = if size > align {
        size
    } else {
        align
    };
    let mut i: usize = 0;
    while i < BLOCK_SIZES_LEN
        invariant
            i <= BLOCK_SIZES_LEN,
            required_block_size == spec_required_size(size as int, align as int),
            forall|j: int| 0 <= j < i ==> spec_block_sizes()[j] < required_block_size,
        decreases BLOCK_SIZES_LEN - i,
    {
        if block_size(i) >= required_block_size {
            return Some(i);
        }
        i = i + 1;
    }
    proof {
        assert(spec_block_sizes()[8] < required_block_size);
    }
    None
}

/// The block table is strictly ascending: the class chosen by `list_index` is
/// therefore the unique smallest tabled size that fits the request.
pub proof fn lemma_block_sizes_increasing()
    ensures
        forall|i: int, j: int|
            0 <= i < j < BLOCK_SIZES_LEN ==> spec_block_sizes()[i] < spec_block_sizes()[j],
{
}

/// Fixed-size-block allocator: one LIFO free list of block addresses per
/// class, and a first-fit list allocator to carve fresh blocks from.
pub struct Allocator {
    pub list_heads: Vec<Vec<u64>>,
    pub fallback_allocator: list::Allocator,
}

impl Allocator {
    /// The per-class free lists, as sequences of block addresses, most
    /// recently freed last.
    pub open spec fn classes(&self) -> Seq<Seq<u64>> {
        Seq::new(self.list_heads@.len() as nat, |i: int| self.list_heads@[i]@)
    }

    /// One free list per class; every address on the list of class `i` is
    /// aligned to that class's block size and leaves room below `u64::MAX`;
    /// the fallback allocator is itself well-formed.
    pub open spec fn wf(&self) -> bool {
        &&& self.fallback_allocator.wf()
        &&& self.classes().len() == BLOCK_SIZES_LEN
        &&& forall|i: int, j: int|
            0 <= i < BLOCK_SIZES_LEN && 0 <= j < self.classes()[i].len() ==> {
                &&& (#[trigger] self.classes()[i][j]) as int % spec_block_sizes()[i] == 0
                &&& self.classes()[i][j] + spec_block_sizes()[i] <= u64::MAX
            }
    }

    /// An allocator with empty class lists and an empty fallback.
    pub fn new() -> (r: Self)
        ensures
            r.wf(),
            forall|i: int| 0 <= i < BLOCK_SIZES_LEN ==> (#[trigger] r.classes()[i]).len() == 0,
            r.fallback_allocator.head@ == Seq::<Node>::empty(),
    {
        let mut list_heads: Vec<Vec<u64>> = Vec::new();
        let mut i: usize = 0;
        while i < BLOCK_SIZES_LEN
            invariant
                i <= BLOCK_SIZES_LEN,
                list_heads@.len() == i,
                forall|k: int| 0 <= k < i ==> (#[trigger] list_heads@[k])@.len() == 0,
            decreases BLOCK_SIZES_LEN - i,
        {
            list_heads.push(Vec::new());
            i = i + 1;
        }
        Self { list_heads, fallback_allocator: list::Allocator::new() }
    }

    /// Hand the allocator its heap region, which goes wholly to the fallback;
    /// to be called exactly once, before the first allocation.
    pub fn init(&mut self, heap_start: u64, heap_size: u64)
        requires
            old(self).wf(),
            heap_start % NODE_ALIGN == 0,
            heap_size >= 16,
            heap_start + heap_size <= u64::MAX,
        ensures
            final(self).wf(),
            final(self).classes() == old(self).classes(),
            final(self).fallback_allocator.head@ == seq![
                Node { addr: heap_start, size: heap_size },
            ] + old(self).fallback_allocator.head@,
    {
        self.fallback_allocator.init(heap_start, heap_size);
    }

    /// Serve a request from the fallback list allocator.
    pub fn fallback_alloc(&mut self, size: u64, align: u64) -> (r: Option<u64>)
        requires
            old(self).wf(),
            valid_align(align as int),
            spec_size_align(size as int, align as int).0 <= u64::MAX,
        ensures
            final(self).wf(),
            final(self).classes() == old(self).classes(),
            spec_alloc_post(
                old(self).fallback_allocator.head@,
                final(self).fallback_allocator.head@,
                r,
                size as int,
                align as int,
            ),
    {
        self.fallback_allocator.allocate(size, align)
    }

    /// Allocate a block for `(size, align)`. A classed request pops its
    /// class's free list when that list is non-empty — the fallback is left
    /// untouched — and otherwise carves a fresh block of exactly the class
    /// size from the fallback. A request past the largest class goes to the
    /// fallback with its own size and alignment. Returns `None` exactly when
    /// the fallback was consulted and had no fitting span.
    pub fn allocate(&mut self, size: u64, align: u64) -> (r: Option<u64>)
        requires
            old(self).wf(),
            is_pow2(align as int),
            spec_size_align(size as int, align as int).0 <= u64::MAX,
        ensures
            final(self).wf(),
            ({
                let req = spec_required_size(size as int, align as int);
                &&& (forall|idx: int|
                    is_class_of(idx, size as int, align as int) && old(self).classes()[idx].len()
                        > 0 ==> {
                        &&& r == Some(old(self).classes()[idx].last())
                        &&& #[trigger] final(self).classes() == old(self).classes().update(
                            idx,
                            old(self).classes()[idx].drop_last(),
                        )
                        &&& final(self).fallback_allocator == old(self).fallback_allocator
                    })
                &&& (forall|idx: int|
                    is_class_of(idx, size as int, align as int) && old(self).classes()[idx].len()
                        == 0 ==> {
                        &&& #[trigger] final(self).classes() == old(self).classes()
                        &&& spec_alloc_post(
                            old(self).fallback_allocator.head@,
                            final(self).fallback_allocator.head@,
                            r,
                            spec_block_sizes()[idx],
                            spec_block_sizes()[idx],
                        )
                    })
                &&& (req > 2048 ==> {
                    &&& final(self).classes() == old(self).classes()
                    &&& spec_alloc_post(
                        old(self).fallback_allocator.head@,
                        final(self).fallback_allocator.head@,
                        r,
                        size as int,
                        align as int,
                    )
                })
            }),
            r matches Some(p) ==> (p as int) % (align as int) == 0,
    {
        match list_index(size, align) {
            Some(index) => {
                let bs = block_size(index);
                proof {
                    // The request's alignment divides the class size: both are
                    // powers of two and the class size is at least `align`.
                    lemma_pow2_divides(align as int, bs as int);
                    lemma_block_sizes_increasing();
                }
                let class_len = self.list_heads[index].len();
                if class_len > 0 {
                    let list = &mut self.list_heads[index];
                    let node_addr_opt = list.pop();
                    match node_addr_opt {
                        Some(addr) => {
                            proof {
                                assert(old(self).classes()[index as int].last() == addr);
                                lemma_mod_trans(addr as int, bs as int, align as int);
                                assert(self.classes() =~= old(self).classes().update(
                                    index as int,
                                    old(self).classes()[index as int].drop_last(),
                                ));
                            }
                            Some(addr)
                        },
                        None => {
                            proof {
                                assert(false);
                            }
                            None
                        },
                    }
                } else {
                    // The class list is empty: carve a fresh block of exactly
                    // the class size, aligned to itself, from the fallback.
                    proof {
                        assert(8 == vstd::arithmetic::power2::pow2(3)) by {
                            vstd::arithmetic::power2::lemma2_to64();
                        }
                        lemma_pow2_divides(8, bs as int);
                        assert(valid_align(bs as int));
                        assert(spec_size_align(bs as int, bs as int).0 <= 2048) by {
                            vstd::arithmetic::div_mod::lemma_mod_self_0(bs as int);
                            assert(spec_align_up(bs as int, bs as int) == bs);
                        }
                    }
                    let result = self.fallback_alloc(bs, bs);
                    if let Some(p) = result {
                        proof {
                            lemma_mod_trans(p as int, bs as int, align as int);
                        }
                    }
                    result
                }
            },
            None => {
                proof {
                    assert(8 == vstd::arithmetic::power2::pow2(3)) by {
                        vstd::arithmetic::power2::lemma2_to64();
                    }
                    if (align as int) <= 8 {
                        lemma_pow2_divides(align as int, 8);
                    } else {
                        lemma_pow2_divides(8, align as int);
                    }
                    assert(valid_align(align as int));
                }
                self.fallback_alloc(size, align)
            },
        }
    }

    /// Return the allocation that started at `ptr`. A classed request is
    /// pushed onto its class's free list — the fallback is left untouched, so
    /// freed class blocks are never returned to it — and a request past the
    /// largest class goes back to the fallback as a free span.
    pub fn deallocate(&mut self, ptr: u64, size: u64, align: u64)
        requires
            old(self).wf(),
            is_pow2(align as int),
            forall|idx: int|
                #[trigger] is_class_of(idx, size as int, align as int) ==> (ptr as int)
                    % spec_block_sizes()[idx] == 0 && ptr + spec_block_sizes()[idx] <= u64::MAX,
            spec_required_size(size as int, align as int) > 2048 ==> ptr % NODE_ALIGN == 0 && ptr
                + spec_size_align(size as int, align as int).0 <= u64::MAX && spec_size_align(
                size as int,
                align as int,
            ).0 <= u64::MAX,
        ensures
            final(self).wf(),
            forall|idx: int|
                #[trigger] is_class_of(idx, size as int, align as int) ==> {
                    &&& final(self).classes() == old(self).classes().update(
                        idx,
                        old(self).classes()[idx].push(ptr),
                    )
                    &&& final(self).fallback_allocator == old(self).fallback_allocator
                },
            spec_required_size(size as int, align as int) > 2048 ==> final(self).classes() == old(
                self,
            ).classes() && final(self).fallback_allocator.head@ == seq![
                (Node { addr: ptr, size: (spec_size_align(size as int, align as int).0 as u64) }),
            ] + old(self).fallback_allocator.head@,
    {
        match list_index(size, align) {
            Some(index) => {
                // A freed block of any class can host the free-list record
                // written into it: the smallest class is no smaller than the
                // record's size and alignment.
                proof {
                    lemma_block_sizes_increasing();
                }
                let list = &mut self.list_heads[index];
                list.push(ptr);
                proof {
                    assert(self.classes() =~= old(self).classes().update(
                        index as int,
                        old(self).classes()[index as int].push(ptr),
                    ));
                }
            },
            None => {
                proof {
                    assert(8 == vstd::arithmetic::power2::pow2(3)) by {
                        vstd::arithmetic::power2::lemma2_to64();
                    }
                    if (align as int) <= 8 {
                        lemma_pow2_divides(align as int, 8);
                    } else {
                        lemma_pow2_divides(8, align as int);
                    }
                    assert(valid_align(align as int));
                }
                self.fallback_allocator.deallocate(ptr, size, align);
                proof {
                    assert(self.classes() =~= old(self).classes());
                }
            },
        }
    }
}

/// Freeing a classed block and allocating the same class again reuses exactly
/// that block: after the free, the class list is non-empty with the freed
/// address on top, and popping it restores the lists — so by `allocate`'s
/// contract the reallocation returns the freed address and leaves the
/// fallback allocator untouched. Fallback usage therefore never grows past
/// the peak number of outstanding blocks of a class.
pub proof fn lemma_block_free_then_alloc_reuses(lists: Seq<Seq<u64>>, idx: int, ptr: u64)
    requires
        0 <= idx < lists.len(),
    ensures
        ({
            let after_free = lists.update(idx, lists[idx].push(ptr));
            &&& after_free[idx].len() > 0
            &&& after_free[idx].last() == ptr
            &&& after_free.update(idx, after_free[idx].drop_last()) == lists
        }),
{
    let after_free = lists.update(idx, lists[idx].push(ptr));
    assert(after_free[idx].drop_last() =~= lists[idx]);
    assert(after_free.update(idx, after_free[idx].drop_last()) =~= lists);
}

} // verus!
