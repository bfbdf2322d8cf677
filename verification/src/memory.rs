//! Physical frame accounting: the boot-supplied memory map is filtered to its
//! usable regions and flattened into 4096-byte frames, which are handed out by
//! advancing a cursor — once issued, a frame is never returned.
use vstd::prelude::*;

verus! {

/// Size in bytes of a physical frame and of a virtual page.
pub const FRAME_SIZE: u64 = 4096;

/// Classification of a boot memory region.
#[derive(Clone, Copy, Debug, PartialEq, Eq, Structural)]
pub enum RegionKind {
    /// Free for the kernel to use.
    Usable,
    /// Owned by firmware, devices, or the kernel image; never handed out.
    Reserved,
}

/// One region `[start, end)` of the boot-supplied physical memory map.
#[derive(Clone, Copy, Debug, PartialEq, Eq, Structural)]
pub struct MemoryRegion {
    pub start: u64,
    pub end: u64,
    pub kind: RegionKind,
}

/// How many frames the region contributes: none unless it is usable and
/// non-empty, else one frame per started 4096-byte step from its start.
pub open spec fn spec_region_frame_count(r: MemoryRegion) -> int {
    if r.kind is Usable && r.end > r.start {
        (r.end - r.start + FRAME_SIZE - 1) / (FRAME_SIZE as int)
    } else {
        0
    }
}

/// The base address of the `i`-th frame of the region: the `i`-th 4096-byte
/// step from its start, aligned down to a frame boundary.
pub open spec fn spec_region_frame(r: MemoryRegion, i: int) -> u64 {
    (((r.start + FRAME_SIZE * i) / (FRAME_SIZE as int)) * (FRAME_SIZE as int)) as u64
}

/// The frames of one region, in address order.
pub open spec fn spec_region_frames(r: MemoryRegion) -> Seq<u64> {
    Seq::new(spec_region_frame_count(r) as nat, |i: int| spec_region_frame(r, i))
}

/// Every usable frame of the memory map, region by region in map order.
pub open spec fn spec_usable_frames(regions: Seq<MemoryRegion>) -> Seq<u64>
    decreases regions.len(),
{
    if regions.len() == 0 {
        Seq::empty()
    } else {
        spec_region_frames(regions[0]) + spec_usable_frames(regions.drop_first())
    }
}

/// Splitting the flattened frame sequence at a region boundary.
proof fn lemma_usable_frames_skip(regions: Seq<MemoryRegion>, j: int)
    requires
        0 <= j < regions.len(),
    ensures
        spec_usable_frames(regions.skip(j)) == spec_region_frames(regions[j])
            + spec_usable_frames(regions.skip(j + 1)),
    decreases regions.len() - j,
{
    let s = regions.skip(j);
    assert(s.len() > 0);
    assert(s[0] == regions[j]);
    assert(s.drop_first() =~= regions.skip(j + 1));
}

/// The boot memory map is well formed: every region starts on a frame
/// boundary, covers a non-negative range, and the regions come in address
/// order, pairwise disjoint. Boot hand-off protocols provide maps of this
/// shape.
pub open spec fn wf_memory_map(regions: Seq<MemoryRegion>) -> bool {
    &&& forall|i: int|
        0 <= i < regions.len() ==> ((#[trigger] regions[i]).start as int) % (FRAME_SIZE as int)
            == 0
    &&& forall|i: int| 0 <= i < regions.len() ==> (#[trigger] regions[i]).start <= regions[i].end
    &&& forall|i: int, j: int|
        0 <= i < j < regions.len() ==> (#[trigger] regions[i]).end <= (#[trigger] regions[j]).start
}

/// In a frame-aligned region the frames are exactly the 4096-byte steps from
/// its start, each inside the region.
proof fn lemma_region_frame_values(r: MemoryRegion)
    requires
        (r.start as int) % (FRAME_SIZE as int) == 0,
    ensures
        forall|i: int|
            0 <= i < spec_region_frame_count(r) ==> (#[trigger] spec_region_frame(r, i)) as int
                == r.start + FRAME_SIZE * i && r.start <= spec_region_frame(r, i)
                && spec_region_frame(r, i) < r.end,
{
    assert forall|i: int| 0 <= i < spec_region_frame_count(r) implies (#[trigger] spec_region_frame(
        r,
        i,
    )) as int == r.start + FRAME_SIZE * i && r.start <= spec_region_frame(r, i)
        && spec_region_frame(r, i) < r.end by {
        let count = spec_region_frame_count(r);
        assert(r.kind is Usable && r.end > r.start);
        assert(FRAME_SIZE * i <= FRAME_SIZE * (count - 1) < r.end - r.start) by (nonlinear_arith)
            requires
                0 <= i <= count - 1,
                count == (r.end - r.start + FRAME_SIZE - 1) / (FRAME_SIZE as int),
                r.end > r.start,
                FRAME_SIZE == 4096,
        ;
        let x = r.start + FRAME_SIZE * i;
        vstd::arithmetic::div_mod::lemma_mod_multiples_basic(i, FRAME_SIZE as int);
        crate::allocator::lemma_mod_sum_zero(
            r.start as int,
            (FRAME_SIZE as int) * i,
            FRAME_SIZE as int,
        );
        assert(x % (FRAME_SIZE as int) == 0);
        vstd::arithmetic::div_mod::lemma_fundamental_div_mod(x, FRAME_SIZE as int);
        assert((x / (FRAME_SIZE as int)) * (FRAME_SIZE as int) == x);
    }
}

/// Every frame of a well-formed map whose regions all start at or above `b`
/// lies at or above `b`.
proof fn lemma_frames_lower_bound(regions: Seq<MemoryRegion>, b: int)
    requires
        wf_memory_map(regions),
        forall|i: int| 0 <= i < regions.len() ==> b <= (#[trigger] regions[i]).start,
    ensures
        forall|k: int|
            0 <= k < spec_usable_frames(regions).len() ==> b <= (#[trigger] spec_usable_frames(
                regions,
            )[k]) as int,
    decreases regions.len(),
{
    if regions.len() > 0 {
        let r0 = regions[0];
        let rest = regions.drop_first();
        lemma_region_frame_values(r0);
        assert(wf_memory_map(rest)) by {
            assert(forall|i: int| 0 <= i < rest.len() ==> #[trigger] rest[i] == regions[i + 1]);
        }
        assert(forall|i: int| 0 <= i < rest.len() ==> b <= (#[trigger] rest[i]).start) by {
            assert(forall|i: int| 0 <= i < rest.len() ==> #[trigger] rest[i] == regions[i + 1]);
        }
        lemma_frames_lower_bound(rest, b);
        let c0 = spec_region_frame_count(r0);
        assert forall|k: int| 0 <= k < spec_usable_frames(regions).len() implies b <= (
        #[trigger] spec_usable_frames(regions)[k]) as int by {
            if k < c0 {
                assert(spec_usable_frames(regions)[k] == spec_region_frame(r0, k));
            } else {
                assert(spec_usable_frames(regions)[k] == spec_usable_frames(rest)[k - c0]);
            }
        }
    }
}

/// Over a well-formed memory map the flattened usable-frame sequence is
/// strictly increasing — no frame appears twice. Together with
/// `allocate_frame`'s contract, which pins each result to one position of
/// that sequence, two successful `allocate_frame` calls on one allocator
/// never hand out the same frame: consumption is monotonic, and no reissue
/// or reclamation exists in this design.
pub proof fn lemma_frames_never_reissued(regions: Seq<MemoryRegion>)
    requires
        wf_memory_map(regions),
    ensures
        forall|k1: int, k2: int|
            0 <= k1 < k2 < spec_usable_frames(regions).len() ==> (#[trigger] spec_usable_frames(
                regions,
            )[k1]) < (#[trigger] spec_usable_frames(regions)[k2]),
    decreases regions.len(),
{
    if regions.len() > 0 {
        let r0 = regions[0];
        let rest = regions.drop_first();
        lemma_region_frame_values(r0);
        assert(wf_memory_map(rest)) by {
            assert(forall|i: int| 0 <= i < rest.len() ==> #[trigger] rest[i] == regions[i + 1]);
        }
        lemma_frames_never_reissued(rest);
        assert(forall|i: int|
            0 <= i < rest.len() ==> r0.end as int <= (#[trigger] rest[i]).start) by {
            assert(forall|i: int| 0 <= i < rest.len() ==> #[trigger] rest[i] == regions[i + 1]);
        }
        lemma_frames_lower_bound(rest, r0.end as int);
        let c0 = spec_region_frame_count(r0);
        assert forall|k1: int, k2: int|
            0 <= k1 < k2 < spec_usable_frames(regions).len() implies (#[trigger] spec_usable_frames(
            regions,
        )[k1]) < (#[trigger] spec_usable_frames(regions)[k2]) by {
            if k2 < c0 {
                assert(spec_usable_frames(regions)[k1] == spec_region_frame(r0, k1));
                assert(spec_usable_frames(regions)[k2] == spec_region_frame(r0, k2));
                assert(r0.start + FRAME_SIZE * k1 < r0.start + FRAME_SIZE * k2) by (
                nonlinear_arith)
                    requires
                        0 <= k1 < k2,
                        FRAME_SIZE == 4096,
                ;
            } else if k1 < c0 {
                assert(spec_usable_frames(regions)[k1] == spec_region_frame(r0, k1));
                assert(spec_usable_frames(regions)[k2] == spec_usable_frames(rest)[k2 - c0]);
                assert((spec_region_frame(r0, k1) as int) < r0.end as int);
            } else {
                assert(spec_usable_frames(regions)[k1] == spec_usable_frames(rest)[k1 - c0]);
                assert(spec_usable_frames(regions)[k2] == spec_usable_frames(rest)[k2 - c0]);
            }
        }
    }
}

/// Physical frame allocator over the boot memory map: `next` counts the
/// frames already issued; frames are never reclaimed.
pub struct BootInfoFrameAllocator {
    pub memory_map: Vec<MemoryRegion>,
    pub next: usize,
}

impl BootInfoFrameAllocator {
    /// The sequence of usable frames this allocator draws from.
    pub open spec fn frames(&self) -> Seq<u64> {
        spec_usable_frames(self.memory_map@)
    }

    /// How many usable frames have not been issued yet.
    pub open spec fn frames_left(&self) -> int {
        self.frames().len() - self.next
    }

    /// Create a frame allocator over the given memory map. The caller
    /// guarantees that every region marked usable is really unused.
    pub fn init(memory_map: Vec<MemoryRegion>) -> (r: Self)
        ensures
            r.memory_map@ == memory_map@,
            r.next == 0,
    {
        Self { memory_map, next: 0 }
    }

    /// Hand out the next not-yet-issued usable frame, advancing the cursor;
    /// `None` exactly when the usable regions are exhausted.
    pub fn allocate_frame(&mut self) -> (r: Option<u64>)
        requires
            old(self).next < usize::MAX,
        ensures
            final(self).memory_map@ == old(self).memory_map@,
            final(self).next == old(self).next + 1,
            r matches Some(f) ==> old(self).next < old(self).frames().len() && f == old(
                self,
            ).frames()[old(self).next as int] && f % FRAME_SIZE == 0,
            r is None <==> old(self).next >= old(self).frames().len(),
    {
        let frame = self.nth_usable_frame(self.next);
        self.next = self.next + 1;
        frame
    }

    /// Walk the memory map and return the `n`-th usable frame, if the map has
    /// that many.
    fn nth_usable_frame(&self, n: usize) -> (r: Option<u64>)
        ensures
            r matches Some(f) ==> n < self.frames().len() && f == self.frames()[n as int] && f
                % FRAME_SIZE == 0,
            r is None <==> n >= self.frames().len(),
    {
        let ghost full = self.frames();
        let mut j: usize = 0;
        let mut remaining: u64 = n as u64;
        let ghost taken: Seq<u64> = Seq::empty();
        proof {
            assert(self.memory_map@.skip(0) =~= self.memory_map@);
        }
        while j < self.memory_map.len()
            invariant
                j <= self.memory_map@.len(),
                full == spec_usable_frames(self.memory_map@),
                full == taken + spec_usable_frames(self.memory_map@.skip(j as int)),
                taken.len() == n - remaining,
                remaining <= n,
            decreases self.memory_map@.len() - j,
        {
            let region = self.memory_map[j];
            proof {
                lemma_usable_frames_skip(self.memory_map@, j as int);
            }
            let count: u64 = if matches!(region.kind, RegionKind::Usable) && region.end
                > region.start {
                ((region.end - region.start) - 1) / FRAME_SIZE + 1
            } else {
                0
            };
            proof {
                assert(count == spec_region_frame_count(region)) by (nonlinear_arith)
                    requires
                        count == if region.kind is Usable && region.end > region.start {
                            ((region.end - region.start - 1) / (FRAME_SIZE as int)) + 1
                        } else {
                            0
                        },
                        region.end <= u64::MAX,
                        FRAME_SIZE == 4096,
                ;
            }
            if remaining < count {
                proof {
                    assert(FRAME_SIZE * (remaining as int) <= FRAME_SIZE * (count - 1)
                        < region.end - region.start) by (nonlinear_arith)
                        requires
                            remaining < count,
                            count == (region.end - region.start + FRAME_SIZE - 1) / (
                            FRAME_SIZE as int),
                            region.end > region.start,
                            FRAME_SIZE == 4096,
                    ;
                }
                let frame = ((region.start + FRAME_SIZE * remaining) / FRAME_SIZE) * FRAME_SIZE;
                proof {
                    assert(frame == spec_region_frame(region, remaining as int));
                    assert(full[n as int] == spec_region_frames(region)[remaining as int]);
                    vstd::arithmetic::div_mod::lemma_mod_multiples_basic(
                        (region.start + FRAME_SIZE * remaining) as int / (FRAME_SIZE as int),
                        FRAME_SIZE as int,
                    );
                }
                return Some(frame);
            }
            proof {
                taken = taken + spec_region_frames(region);
            }
            remaining = remaining - count;
            j = j + 1;
        }
        proof {
            assert(self.memory_map@.skip(self.memory_map@.len() as int) =~= Seq::<
                MemoryRegion,
            >::empty());
            assert(full.len() == taken.len());
        }
        None
    }
}

} // verus!
