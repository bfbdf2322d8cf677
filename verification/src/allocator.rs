//! Heap allocators: a bump allocator, a first-fit linked-list allocator, and a
//! fixed-size-block allocator with a linked-list fallback, all bookkeeping over
//! a fixed virtual heap region.
//!
//! Exclusive access comes from `&mut`: the mutual-exclusion wrapper that
//! serializes concurrent call sites on hardware — taken with interrupts
//! disabled wherever an interrupt handler could reach the same lock — stays
//! with the driver around this library.
use vstd::prelude::*;

pub mod bump;
pub mod list;
pub mod block;

verus! {

use crate::memory::FRAME_SIZE;

/// Kernel heap start address.
pub const HEAP_START: u64 = 0x4444_4444_0000;

/// Kernel heap size: 100 KiB.
pub const HEAP_SIZE: u64 = 100 * 1024;

/// Number of pages that back the kernel heap.
pub const HEAP_PAGES: u64 = 25;

/// The heap pages are consecutive, so no two of them resolve through the same
/// page-table slots.
proof fn lemma_heap_pages_distinct(k: u64, j: u64)
    requires
        k < HEAP_PAGES,
        j < HEAP_PAGES,
        k != j,
    ensures
        !crate::paging::same_page_slot(((HEAP_START + k * FRAME_SIZE) as u64), ((HEAP_START + j * FRAME_SIZE) as u64)),
        ((HEAP_START + k * FRAME_SIZE) as u64) % FRAME_SIZE == 0,
{
    let a = (HEAP_START + k * FRAME_SIZE) as u64;
    let b = (HEAP_START + j * FRAME_SIZE) as u64;
    assert(((a >> 12) & 0x1ff) != ((b >> 12) & 0x1ff) && a % 4096 == 0) by (bit_vector)
        requires
            a == 0x4444_4444_0000u64 + k * 4096,
            b == 0x4444_4444_0000u64 + j * 4096,
            k < 25,
            j < 25,
            k != j,
    ;
}

/// Map the heap's virtual page range — taking one frame per page, and more
/// for missing intermediate tables, from the frame allocator — and then hand
/// the heap region to the block allocator, exactly once during bring-up.
/// Fails with the first mapping error; the heap allocator is then untouched.
/// Success is owed whenever the heap range is wholly unmapped and the frame
/// allocator holds at least four frames per heap page.
pub fn init(
    mapper: &mut crate::paging::PageMapper,
    frame_allocator: &mut crate::memory::BootInfoFrameAllocator,
    heap: &mut crate::allocator::block::Allocator,
) -> (r: Result<(), crate::paging::MapError>)
    requires
        old(mapper).wf(),
        old(heap).wf(),
        old(frame_allocator).next + 4 * HEAP_PAGES <= usize::MAX,
    ensures
        final(mapper).wf(),
        final(heap).wf(),
        final(frame_allocator).memory_map@ == old(frame_allocator).memory_map@,
        r is Ok ==> forall|k: u64|
            k < HEAP_PAGES ==> (#[trigger] final(mapper).spec_translate_page(
                ((HEAP_START + k * FRAME_SIZE) as u64),
            )) is Mapped,
        r is Ok ==> final(heap).classes() == old(heap).classes()
            && final(heap).fallback_allocator.head@ == seq![
            (crate::allocator::list::Node { addr: HEAP_START, size: HEAP_SIZE }),
        ] + old(heap).fallback_allocator.head@,
        r is Err ==> *final(heap) == *old(heap),
        (forall|k: u64|
            k < HEAP_PAGES ==> (#[trigger] old(mapper).spec_translate_page(
                ((HEAP_START + k * FRAME_SIZE) as u64),
            )) is Unmapped) && old(frame_allocator).frames_left() >= 4 * HEAP_PAGES ==> r is Ok,
    {
        let flags = crate::paging::PageTableFlags { present: true, writable: true };
        let ghost all_unmapped = forall|k: u64|
            k < HEAP_PAGES ==> (#[trigger] old(mapper).spec_translate_page(
                ((HEAP_START + k * FRAME_SIZE) as u64),
            )) is Unmapped;
        let ghost enough = old(frame_allocator).frames_left() >= 4 * HEAP_PAGES;
        let mut j: u64 = 0;
        while j < HEAP_PAGES
            invariant
                j <= HEAP_PAGES,
                mapper.wf(),
                *heap == *old(heap),
                old(heap).wf(),
                flags == (crate::paging::PageTableFlags { present: true, writable: true }),
                frame_allocator.memory_map@ == old(frame_allocator).memory_map@,
                frame_allocator.next <= old(frame_allocator).next + 4 * j,
                old(frame_allocator).next + 4 * HEAP_PAGES <= usize::MAX,
                all_unmapped == (forall|k: u64|
                    k < HEAP_PAGES ==> (#[trigger] old(mapper).spec_translate_page(
                        ((HEAP_START + k * FRAME_SIZE) as u64),
                    )) is Unmapped),
                enough == (old(frame_allocator).frames_left() >= 4 * HEAP_PAGES),
                forall|k: u64|
                    k < j ==> (#[trigger] mapper.spec_translate_page(
                        ((HEAP_START + k * FRAME_SIZE) as u64),
                    )) is Mapped,
                all_unmapped && enough ==> {
                    &&& forall|k: u64|
                        j <= k < HEAP_PAGES ==> (#[trigger] mapper.spec_translate_page(
                            ((HEAP_START + k * FRAME_SIZE) as u64),
                        )) is Unmapped
                    &&& frame_allocator.frames_left() >= old(frame_allocator).frames_left() - 4
                        * j
                },
            decreases HEAP_PAGES - j,
        {
            let page = HEAP_START + j * FRAME_SIZE;
            proof {
                assert(page % FRAME_SIZE == 0) by (bit_vector)
                    requires
                        page == 0x4444_4444_0000u64 + j * 4096,
                        j < 25,
                ;
            }
            let ghost mapper_before = *mapper;
            let ghost fa_before = *frame_allocator;
            let frame = match frame_allocator.allocate_frame() {
                Some(f) => f,
                None => {
                    proof {
                        if all_unmapped && enough {
                            assert(fa_before.frames_left() >= 4 * HEAP_PAGES - 4 * j > 0);
                            assert(false);
                        }
                    }
                    return Err(crate::paging::MapError::FrameAllocationFailed);
                },
            };
            let ghost fa_mid = *frame_allocator;
            match mapper.map(page, frame, flags, frame_allocator) {
                Ok(()) => {},
                Err(e) => {
                    proof {
                        if all_unmapped && enough {
                            assert(mapper_before.spec_translate_page(page) is Unmapped);
                            assert(fa_mid.frames_left() >= 4 * HEAP_PAGES - 4 * j - 1 >= 3);
                            assert(mapper_before.spec_missing_tables(page) <= 3);
                            assert(false);
                        }
                    }
                    return Err(e);
                },
            }
            proof {
                assert forall|k: u64| k < j + 1 implies (#[trigger] mapper.spec_translate_page(
                    ((HEAP_START + k * FRAME_SIZE) as u64),
                )) is Mapped by {
                    if k < j {
                        lemma_heap_pages_distinct(k, j);
                        assert(mapper.spec_translate_page(((HEAP_START + k * FRAME_SIZE) as u64))
                            == mapper_before.spec_translate_page(((HEAP_START + k * FRAME_SIZE) as u64)));
                    }
                }
                if all_unmapped && enough {
                    assert forall|k: u64| j + 1 <= k < HEAP_PAGES implies (
                    #[trigger] mapper.spec_translate_page(
                        ((HEAP_START + k * FRAME_SIZE) as u64),
                    )) is Unmapped by {
                        lemma_heap_pages_distinct(k, j);
                        assert(mapper.spec_translate_page(((HEAP_START + k * FRAME_SIZE) as u64))
                            == mapper_before.spec_translate_page(((HEAP_START + k * FRAME_SIZE) as u64)));
                    }
                }
            }
            j = j + 1;
        }
        proof {
            assert(HEAP_START % crate::allocator::list::NODE_ALIGN == 0);
        }
        heap.init(HEAP_START, HEAP_SIZE);
        Ok(())
    }

/// The smallest address aligned to `align` that is at least `addr`.
pub open spec fn spec_align_up(addr: int, align: int) -> int
    recommends
        align > 0,
{
    if addr % align == 0 {
        addr
    } else {
        addr + align - addr % align
    }
}

/// Round `addr` up to the next multiple of `align`.
pub fn align_up(addr: u64, align: u64) -> (r: u64)
    requires
        align > 0,
        spec_align_up(addr as int, align as int) <= u64::MAX,
    ensures
        r == spec_align_up(addr as int, align as int),
        r >= addr,
        r % align == 0,
        r < addr + align,
{
    let rem = addr % align;
    if rem == 0 {
        addr
    } else {
        proof {
            let a = addr as int;
            let g = align as int;
            assert(rem <= a && (a - (a % g) + g) % g == 0) by (nonlinear_arith)
                requires
                    g > 0,
                    a >= 0,
                    rem == a % g,
            ;
        }
        addr - rem + align
    }
}

/// Round `addr` up to the next multiple of `align`, reporting `None` when the
/// result would not fit in a `u64`.
pub fn try_align_up(addr: u64, align: u64) -> (r: Option<u64>)
    requires
        align > 0,
    ensures
        r matches Some(v) ==> v == spec_align_up(addr as int, align as int),
        r is None <==> spec_align_up(addr as int, align as int) > u64::MAX,
{
    let rem = addr % align;
    if rem == 0 {
        Some(addr)
    } else {
        proof {
            let a = addr as int;
            let g = align as int;
            assert(rem <= a && (a - (a % g) + g) % g == 0) by (nonlinear_arith)
                requires
                    g > 0,
                    a >= 0,
                    rem == a % g,
            ;
        }
        if align - rem > u64::MAX - addr {
            None
        } else {
            Some(addr - rem + align)
        }
    }
}

/// Rounding up to a multiple of `align` lands on a multiple of `align`,
/// at most `align - 1` bytes further on.
pub proof fn lemma_align_up_props(x: int, align: int)
    requires
        align > 0,
        x >= 0,
    ensures
        spec_align_up(x, align) % align == 0,
        x <= spec_align_up(x, align) < x + align,
{
    if x % align != 0 {
        assert((x - (x % align) + align) % align == 0) by (nonlinear_arith)
            requires
                align > 0,
                x >= 0,
        ;
    }
}

/// Divisibility is transitive: a multiple of `a` is a multiple of every
/// divisor `b` of `a`.
pub proof fn lemma_mod_trans(x: int, a: int, b: int)
    requires
        a > 0,
        b > 0,
        x % a == 0,
        a % b == 0,
    ensures
        x % b == 0,
{
    vstd::arithmetic::div_mod::lemma_fundamental_div_mod(x, a);
    vstd::arithmetic::div_mod::lemma_fundamental_div_mod(a, b);
    let k = (a / b) * (x / a);
    assert(x == k * b) by (nonlinear_arith)
        requires
            x == a * (x / a) + x % a,
            x % a == 0,
            a == b * (a / b) + a % b,
            a % b == 0,
            k == (a / b) * (x / a),
    ;
    vstd::arithmetic::div_mod::lemma_mod_multiples_basic(k, b);
}

/// Whether `a` is a power of two. Alignments of allocation requests always
/// are.
pub open spec fn is_pow2(a: int) -> bool {
    exists|e: nat| a == vstd::arithmetic::power2::pow2(e)
}

/// A smaller power of two divides a larger one; powers of two are positive.
pub proof fn lemma_pow2_divides(a: int, b: int)
    requires
        is_pow2(a),
        is_pow2(b),
        a <= b,
    ensures
        b % a == 0,
        a > 0,
{
    let ea = choose|e: nat| a == vstd::arithmetic::power2::pow2(e);
    let eb = choose|e: nat| b == vstd::arithmetic::power2::pow2(e);
    vstd::arithmetic::power2::lemma_pow2_pos(ea);
    if eb < ea {
        vstd::arithmetic::power2::lemma_pow2_strictly_increases(eb, ea);
    }
    vstd::arithmetic::power2::lemma_pow2_adds((eb - ea) as nat, ea);
    vstd::arithmetic::div_mod::lemma_mod_multiples_basic(
        vstd::arithmetic::power2::pow2((eb - ea) as nat) as int,
        a,
    );
}

/// The sum of two multiples of `b` is a multiple of `b`.
pub proof fn lemma_mod_sum_zero(x: int, y: int, b: int)
    requires
        b > 0,
        x % b == 0,
        y % b == 0,
    ensures
        (x + y) % b == 0,
{
    vstd::arithmetic::div_mod::lemma_fundamental_div_mod(x, b);
    vstd::arithmetic::div_mod::lemma_fundamental_div_mod(y, b);
    let k = x / b + y / b;
    assert(x + y == k * b) by (nonlinear_arith)
        requires
            x == b * (x / b) + x % b,
            y == b * (y / b) + y % b,
            x % b == 0,
            y % b == 0,
            k == x / b + y / b,
    ;
    vstd::arithmetic::div_mod::lemma_mod_multiples_basic(k, b);
}

} // verus!
