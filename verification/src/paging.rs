//! Virtual-memory mapping: a model of the 4-level page-table hierarchy as an
//! arena of tables addressed by handles, with `translate` walking levels 4
//! down to 1 and `map` extending the hierarchy, consuming a physical frame
//! from the frame allocator for every missing intermediate table.
use vstd::prelude::*;

verus! {

use crate::memory::{BootInfoFrameAllocator, FRAME_SIZE};

/// Access flags of a mapping.
#[derive(Clone, Copy, Debug, PartialEq, Eq, Structural)]
pub struct PageTableFlags {
    pub present: bool,
    pub writable: bool,
}

/// One page-table entry. In an intermediate table a present entry points at
/// its child table (`child`) and records the physical frame backing it
/// (`addr`); in a level-1 table a present entry maps a frame at `addr` and
/// carries no child.
#[derive(Clone, Copy, Debug, PartialEq, Eq, Structural)]
pub struct PageTableEntry {
    pub present: bool,
    pub writable: bool,
    pub huge: bool,
    pub addr: u64,
    pub child: Option<usize>,
}

/// One page table: 512 entries, at a fixed level of the hierarchy (4 for the
/// root down to 1 for the tables whose entries map frames).
pub struct PageTable {
    pub level: u8,
    pub entries: Vec<PageTableEntry>,
}

/// What `translate` finds for an address.
#[derive(Clone, Copy, Debug, PartialEq, Eq, Structural)]
pub enum TranslateResult {
    /// Mapped to this physical address.
    Mapped(u64),
    /// Some entry on the walk is not present.
    Unmapped,
    /// A huge-page entry stands on the walk, which this mapper does not
    /// support; the caller treats this as fatal.
    HugePage,
}

/// Why a `map` call failed.
#[derive(Clone, Copy, Debug, PartialEq, Eq, Structural)]
pub enum MapError {
    /// The frame allocator ran out while extending the hierarchy.
    FrameAllocationFailed,
    /// A huge-page entry stands where an intermediate table is needed.
    ParentEntryHugePage,
    /// The page already has a live mapping.
    PageAlreadyMapped,
}

/// Index into the level-4 table: bits 39..48 of the address.
pub open spec fn spec_l4_index(va: u64) -> int {
    ((va >> 39) & 0x1ff) as int
}

/// Index into a level-3 table: bits 30..39.
pub open spec fn spec_l3_index(va: u64) -> int {
    ((va >> 30) & 0x1ff) as int
}

/// Index into a level-2 table: bits 21..30.
pub open spec fn spec_l2_index(va: u64) -> int {
    ((va >> 21) & 0x1ff) as int
}

/// Index into a level-1 table: bits 12..21.
pub open spec fn spec_l1_index(va: u64) -> int {
    ((va >> 12) & 0x1ff) as int
}

/// Every level index is a valid table index.
pub proof fn lemma_index_bounds(va: u64)
    ensures
        0 <= spec_l4_index(va) < 512,
        0 <= spec_l3_index(va) < 512,
        0 <= spec_l2_index(va) < 512,
        0 <= spec_l1_index(va) < 512,
{
    assert(((va >> 39) & 0x1ff) < 512 && ((va >> 30) & 0x1ff) < 512 && ((va >> 21) & 0x1ff) < 512
        && ((va >> 12) & 0x1ff) < 512) by (bit_vector);
}

/// Two addresses resolve through the same page-table slots: all four level
/// indices agree. Addresses of one page always do; so do addresses that agree
/// on bits 12..48.
pub open spec fn same_page_slot(a: u64, b: u64) -> bool {
    &&& spec_l4_index(a) == spec_l4_index(b)
    &&& spec_l3_index(a) == spec_l3_index(b)
    &&& spec_l2_index(a) == spec_l2_index(b)
    &&& spec_l1_index(a) == spec_l1_index(b)
}

/// The 4-level page-table hierarchy: an arena of tables, entered at `root`.
pub struct PageMapper {
    pub tables: Vec<PageTable>,
    pub root: usize,
}

impl PageMapper {
    /// The entries of arena table `t`.
    pub open spec fn table_at(&self, t: int) -> Seq<PageTableEntry> {
        self.tables@[t].entries@
    }

    /// The level of arena table `t`.
    pub open spec fn level_of(&self, t: int) -> int {
        self.tables@[t].level as int
    }

    /// The hierarchy is well-formed: the root is a level-4 table; every table
    /// has 512 entries; every present non-huge entry of a table above level 1
    /// points at a table one level down and records a frame-aligned backing
    /// address; level-1 entries carry no child and map frame-aligned
    /// addresses; no two entries point at the same table, and none points at
    /// the root — the hierarchy is a tree.
    pub open spec fn wf(&self) -> bool {
        &&& self.root < self.tables@.len()
        &&& self.level_of(self.root as int) == 4
        &&& forall|t: int|
            0 <= t < self.tables@.len() ==> (#[trigger] self.table_at(t)).len() == 512
        &&& forall|t: int, i: int|
            0 <= t < self.tables@.len() && 0 <= i < 512 && (#[trigger] self.table_at(t)[i]).present
                ==> {
                &&& (self.table_at(t)[i].addr as int) % (FRAME_SIZE as int) == 0
                &&& (self.level_of(t) >= 2 && !self.table_at(t)[i].huge
                    ==> self.table_at(t)[i].child is Some)
                &&& (self.level_of(t) == 1 ==> self.table_at(t)[i].child is None
                    && !self.table_at(t)[i].huge)
                &&& (self.table_at(t)[i].child matches Some(c) ==> c < self.tables@.len()
                    && self.level_of(c as int) == self.level_of(t) - 1 && c != self.root)
            }
        &&& forall|t: int, i: int, t2: int, i2: int|
            0 <= t < self.tables@.len() && 0 <= i < 512 && 0 <= t2 < self.tables@.len() && 0 <= i2
                < 512 && (#[trigger] self.table_at(t)[i]).present && (#[trigger] self.table_at(
                t2,
            )[i2]).present && self.table_at(t)[i].child is Some && self.table_at(t)[i].child
                == self.table_at(t2)[i2].child ==> t == t2 && i == i2
    }

    /// What the hierarchy maps the page of `va` to: walk levels 4 down to 1
    /// by the address-derived indices, stopping at the first entry that is
    /// not present, and reporting a huge-page entry as such.
    pub open spec fn spec_translate_page(&self, va: u64) -> TranslateResult {
        let e4 = self.table_at(self.root as int)[spec_l4_index(va)];
        if !e4.present {
            TranslateResult::Unmapped
        } else if e4.huge {
            TranslateResult::HugePage
        } else if e4.child is None {
            TranslateResult::Unmapped
        } else {
            let e3 = self.table_at(e4.child->0 as int)[spec_l3_index(va)];
            if !e3.present {
                TranslateResult::Unmapped
            } else if e3.huge {
                TranslateResult::HugePage
            } else if e3.child is None {
                TranslateResult::Unmapped
            } else {
                let e2 = self.table_at(e3.child->0 as int)[spec_l2_index(va)];
                if !e2.present {
                    TranslateResult::Unmapped
                } else if e2.huge {
                    TranslateResult::HugePage
                } else if e2.child is None {
                    TranslateResult::Unmapped
                } else {
                    let e1 = self.table_at(e2.child->0 as int)[spec_l1_index(va)];
                    if !e1.present {
                        TranslateResult::Unmapped
                    } else if e1.huge {
                        TranslateResult::HugePage
                    } else {
                        TranslateResult::Mapped(e1.addr)
                    }
                }
            }
        }
    }

    /// What the hierarchy maps `va` itself to: the mapped frame plus the
    /// offset of `va` within its page.
    pub open spec fn spec_translate_addr(&self, va: u64) -> TranslateResult {
        match self.spec_translate_page(va) {
            TranslateResult::Mapped(f) => TranslateResult::Mapped((f + (va & 0xfff)) as u64),
            r => r,
        }
    }

    /// A hierarchy with one empty level-4 table.
    pub fn new() -> (r: Self)
        ensures
            r.wf(),
            forall|va: u64| r.spec_translate_page(va) == TranslateResult::Unmapped,
    {
        let root_table = PageTable { level: 4, entries: empty_entries() };
        let tables = vec![root_table];
        let r = Self { tables, root: 0 };
        proof {
            assert forall|va: u64| r.spec_translate_page(va) == TranslateResult::Unmapped by {
                lemma_index_bounds(va);
            }
        }
        r
    }

    /// Translate a virtual address, walking the hierarchy levels 4 down to 1.
    pub fn translate_addr(&self, va: u64) -> (r: TranslateResult)
        requires
            self.wf(),
        ensures
            r == self.spec_translate_addr(va),
    {
        proof {
            lemma_index_bounds(va);
        }
        let i4 = ((va >> 39) & 0x1ff) as usize;
        let i3 = ((va >> 30) & 0x1ff) as usize;
        let i2 = ((va >> 21) & 0x1ff) as usize;
        let i1 = ((va >> 12) & 0x1ff) as usize;
        let e4 = self.tables[self.root].entries[i4];
        if !e4.present {
            return TranslateResult::Unmapped;
        }
        if e4.huge {
            return TranslateResult::HugePage;
        }
        let t3 = match e4.child {
            Some(c) => c,
            None => {
                return TranslateResult::Unmapped;
            },
        };
        let e3 = self.tables[t3].entries[i3];
        if !e3.present {
            return TranslateResult::Unmapped;
        }
        if e3.huge {
            return TranslateResult::HugePage;
        }
        let t2 = match e3.child {
            Some(c) => c,
            None => {
                return TranslateResult::Unmapped;
            },
        };
        let e2 = self.tables[t2].entries[i2];
        if !e2.present {
            return TranslateResult::Unmapped;
        }
        if e2.huge {
            return TranslateResult::HugePage;
        }
        let t1 = match e2.child {
            Some(c) => c,
            None => {
                return TranslateResult::Unmapped;
            },
        };
        let e1 = self.tables[t1].entries[i1];
        if !e1.present {
            return TranslateResult::Unmapped;
        }
        if e1.huge {
            return TranslateResult::HugePage;
        }
        let frame_addr = e1.addr;
        proof {
            assert((frame_addr & 0xfff) == 0 ==> frame_addr + (va & 0xfff) <= u64::MAX) by (
            bit_vector);
            assert((frame_addr as int) % 4096 == 0 ==> (frame_addr & 0xfff) == 0) by (bit_vector);
        }
        TranslateResult::Mapped(frame_addr + (va & 0xfff))
    }

    /// Walk one level down from entry `i` of table `t`, creating the missing
    /// child table if need be: a fresh frame is taken from the frame
    /// allocator to back it, and the entry is written to point at it. No
    /// translation changes: a fresh child table is empty.
    fn ensure_child_table(&mut self, t: usize, i: usize, fa: &mut BootInfoFrameAllocator) -> (r:
        Result<usize, MapError>)
        requires
            old(self).wf(),
            t < old(self).tables@.len(),
            i < 512,
            old(self).level_of(t as int) >= 2,
            old(fa).next < usize::MAX,
        ensures
            final(self).wf(),
            final(self).root == old(self).root,
            final(fa).memory_map@ == old(fa).memory_map@,
            final(fa).next >= old(fa).next,
            forall|q: u64|
                #[trigger] final(self).spec_translate_page(q) == old(self).spec_translate_page(q),
            match r {
                Ok(c) => {
                    &&& c < final(self).tables@.len()
                    &&& final(self).table_at(t as int)[i as int].present
                    &&& !final(self).table_at(t as int)[i as int].huge
                    &&& final(self).table_at(t as int)[i as int].child == Some(c)
                    &&& final(self).level_of(c as int) == old(self).level_of(t as int) - 1
                    &&& (old(self).table_at(t as int)[i as int].present ==> *final(self) == *old(
                        self,
                    ) && *final(fa) == *old(fa))
                    &&& (!old(self).table_at(t as int)[i as int].present ==> {
                        &&& final(self).tables@.len() == old(self).tables@.len() + 1
                        &&& c == old(self).tables@.len()
                        &&& (forall|k: int|
                            0 <= k < 512 ==> !(#[trigger] final(self).table_at(c as int)[k]).present)
                        &&& (forall|t2: int|
                            0 <= t2 < old(self).tables@.len() && t2 != t
                                ==> #[trigger] final(self).tables@[t2] == old(self).tables@[t2])
                        &&& (forall|i2: int|
                            0 <= i2 < 512 && i2 != i ==> #[trigger] final(self).table_at(
                                t as int,
                            )[i2] == old(self).table_at(t as int)[i2])
                        &&& (forall|t2: int|
                            0 <= t2 < old(self).tables@.len() ==> #[trigger] final(self).level_of(
                                t2,
                            ) == old(self).level_of(t2))
                        &&& final(fa).next == old(fa).next + 1
                        &&& old(fa).frames_left() > 0
                    })
                },
                Err(e) => {
                    &&& (e == MapError::ParentEntryHugePage <==> old(self).table_at(t as int)[
                        i as int].present && old(self).table_at(t as int)[i as int].huge)
                    &&& (e == MapError::FrameAllocationFailed <==> !old(self).table_at(t as int)[
                        i as int].present && old(self).frames_left_none(old(fa)))
                    &&& e != MapError::PageAlreadyMapped
                    &&& *final(self) == *old(self)
                },
            },
    {
        let entry = self.tables[t].entries[i];
        if entry.present {
            if entry.huge {
                return Err(MapError::ParentEntryHugePage);
            }
            match entry.child {
                Some(c) => Ok(c),
                None => {
                    proof {
                        assert(false);
                    }
                    Err(MapError::PageAlreadyMapped)
                },
            }
        } else {
            match fa.allocate_frame() {
                None => Err(MapError::FrameAllocationFailed),
                Some(frame) => {
                    let c = self.tables.len();
                    let level_below = self.tables[t].level - 1;
                    let new_table = PageTable { level: level_below, entries: empty_entries() };
                    self.tables.push(new_table);
                    let tbl = &mut self.tables[t];
                    tbl.entries[i] = PageTableEntry {
                        present: true,
                        writable: true,
                        huge: false,
                        addr: frame,
                        child: Some(c),
                    };
                    proof {
                        let pre = *old(self);
                        let post = *self;
                        assert(post.table_at(t as int) =~= pre.table_at(t as int).update(
                            i as int,
                            post.table_at(t as int)[i as int],
                        ));
                        assert(post.wf()) by {
                            assert forall|t2: int|
                                0 <= t2 < post.tables@.len() implies (#[trigger] post.table_at(
                                t2,
                            )).len() == 512 by {
                                if t2 < pre.tables@.len() && t2 != t {
                                    assert(pre.table_at(t2) == post.table_at(t2));
                                }
                            }
                            assert forall|ta: int, ia: int, tb: int, ib: int|
                                0 <= ta < post.tables@.len() && 0 <= ia < 512 && 0 <= tb
                                    < post.tables@.len() && 0 <= ib < 512 && (
                                #[trigger] post.table_at(ta)[ia]).present && (
                                #[trigger] post.table_at(tb)[ib]).present && post.table_at(ta)[
                                ia].child is Some && post.table_at(ta)[ia].child == post.table_at(
                                tb,
                            )[ib].child implies ta == tb && ia == ib by {
                                if ta == t as int && ia == i as int {
                                    if !(tb == t as int && ib == i as int) {
                                        assert(tb < pre.tables@.len() || !post.table_at(
                                            tb,
                                        )[ib].present);
                                        if tb < pre.tables@.len() {
                                            assert(post.table_at(tb)[ib] == pre.table_at(tb)[ib]);
                                        }
                                    }
                                } else if tb == t as int && ib == i as int {
                                    if ta < pre.tables@.len() {
                                        assert(post.table_at(ta)[ia] == pre.table_at(ta)[ia]);
                                    }
                                } else {
                                    if ta < pre.tables@.len() && tb < pre.tables@.len() {
                                        assert(post.table_at(ta)[ia] == pre.table_at(ta)[ia]);
                                        assert(post.table_at(tb)[ib] == pre.table_at(tb)[ib]);
                                    }
                                }
                            }
                            assert forall|t2: int, i2: int|
                                0 <= t2 < post.tables@.len() && 0 <= i2 < 512 && (
                                #[trigger] post.table_at(t2)[i2]).present implies {
                                &&& (post.table_at(t2)[i2].addr as int) % (FRAME_SIZE as int) == 0
                                &&& (post.level_of(t2) >= 2 && !post.table_at(t2)[i2].huge
                                    ==> post.table_at(t2)[i2].child is Some)
                                &&& (post.level_of(t2) == 1 ==> post.table_at(t2)[i2].child is None
                                    && !post.table_at(t2)[i2].huge)
                                &&& (post.table_at(t2)[i2].child matches Some(c2) ==> c2
                                    < post.tables@.len() && post.level_of(c2 as int)
                                    == post.level_of(t2) - 1 && c2 != post.root)
                            } by {
                                if t2 == t && i2 == i {
                                } else if t2 < pre.tables@.len() {
                                    assert(pre.table_at(t2)[i2] == post.table_at(t2)[i2]);
                                }
                            }
                        }
                        assert forall|q: u64|
                            #[trigger] post.spec_translate_page(q) == pre.spec_translate_page(
                                q,
                            ) by {
                            lemma_index_bounds(q);
                            lemma_step_preserves_walk(pre, post, t as int, i as int, c as int, q);
                        }
                    }
                    Ok(c)
                },
            }
        }
    }

    /// Whether the frame allocator has no frame left for this mapper to take.
    pub open spec fn frames_left_none(&self, fa: &BootInfoFrameAllocator) -> bool {
        fa.frames_left() <= 0
    }

    /// How many intermediate tables are missing on the walk to `va`'s page:
    /// the levels below the first absent entry. Meaningful only when the walk
    /// meets no huge entry.
    pub open spec fn spec_missing_tables(&self, va: u64) -> int {
        let e4 = self.table_at(self.root as int)[spec_l4_index(va)];
        if !e4.present {
            3
        } else if e4.huge || e4.child is None {
            0
        } else {
            let e3 = self.table_at(e4.child->0 as int)[spec_l3_index(va)];
            if !e3.present {
                2
            } else if e3.huge || e3.child is None {
                0
            } else {
                let e2 = self.table_at(e3.child->0 as int)[spec_l2_index(va)];
                if !e2.present {
                    1
                } else {
                    0
                }
            }
        }
    }

    /// Install the mapping `page -> frame` with the given flags, extending
    /// the hierarchy with a fresh table — backed by a frame taken from the
    /// frame allocator — for every missing intermediate level. Succeeds
    /// exactly when the page is unmapped and enough frames are left; fails
    /// with the typed error naming the obstruction otherwise. No other
    /// page's translation changes.
    #[verifier::rlimit(100)]
    #[verifier::spinoff_prover]
    pub fn map(
        &mut self,
        page: u64,
        frame: u64,
        flags: PageTableFlags,
        fa: &mut BootInfoFrameAllocator,
    ) -> (r: Result<(), MapError>)
        requires
            old(self).wf(),
            page % FRAME_SIZE == 0,
            frame % FRAME_SIZE == 0,
            flags.present,
            old(fa).next + 3 <= usize::MAX,
        ensures
            final(self).wf(),
            final(self).root == old(self).root,
            final(fa).memory_map@ == old(fa).memory_map@,
            final(fa).next >= old(fa).next,
            r is Ok <==> old(self).spec_translate_page(page) is Unmapped && (old(
                self,
            ).spec_missing_tables(page) == 0 || old(self).spec_missing_tables(page) <= old(
                fa,
            ).frames_left()),
            r == Result::<(), MapError>::Err(MapError::ParentEntryHugePage) <==> old(self).spec_translate_page(
                page,
            ) is HugePage,
            r == Result::<(), MapError>::Err(MapError::PageAlreadyMapped) <==> old(self).spec_translate_page(
                page,
            ) is Mapped,
            r == Result::<(), MapError>::Err(MapError::FrameAllocationFailed) <==> (old(
                self,
            ).spec_translate_page(page) is Unmapped && old(self).spec_missing_tables(page) > 0
                && old(self).spec_missing_tables(page) > old(fa).frames_left()),
            r is Ok ==> final(self).spec_translate_page(page) == TranslateResult::Mapped(frame),
            r is Ok ==> final(fa).next == old(fa).next + old(self).spec_missing_tables(page),
            r is Ok ==> forall|q: u64|
                !same_page_slot(q, page) ==> #[trigger] final(self).spec_translate_page(q) == old(
                    self,
                ).spec_translate_page(q),
            r is Err ==> forall|q: u64|
                #[trigger] final(self).spec_translate_page(q) == old(self).spec_translate_page(q),
    {
        proof {
            lemma_index_bounds(page);
        }
        let i4 = ((page >> 39) & 0x1ff) as usize;
        let i3 = ((page >> 30) & 0x1ff) as usize;
        let i2 = ((page >> 21) & 0x1ff) as usize;
        let i1 = ((page >> 12) & 0x1ff) as usize;
        let ghost s0 = *self;
        let ghost f0 = *fa;
        let root = self.root;
        let t3 = match self.ensure_child_table(root, i4, fa) {
            Ok(c) => c,
            Err(e) => {
                return Err(e);
            },
        };
        let ghost s1 = *self;
        let ghost f1 = *fa;
        proof {
            assert(s1.spec_translate_page(page) == s0.spec_translate_page(page));
            if !s0.table_at(root as int)[i4 as int].present {
                assert(f1.next == f0.next + 1 && f0.frames_left() > 0);
                assert(forall|k: int|
                    0 <= k < 512 ==> !(#[trigger] s1.table_at(t3 as int)[k]).present);
            } else {
                assert(s1 == s0 && f1 == f0);
            }
        }
        let t2 = match self.ensure_child_table(t3, i3, fa) {
            Ok(c) => c,
            Err(e) => {
                proof {
                    assert(s1.table_at(root as int)[i4 as int].child == Some(t3));
                    if e == MapError::ParentEntryHugePage {
                        assert(s0.table_at(root as int)[i4 as int].present);
                        assert(s0.spec_translate_page(page) is HugePage);
                    } else {
                        assert(s0.spec_translate_page(page) is Unmapped);
                        if s0.table_at(root as int)[i4 as int].present {
                            assert(s0.spec_missing_tables(page) == 2);
                            assert(f1.frames_left() == f0.frames_left());
                        } else {
                            assert(s0.spec_missing_tables(page) == 3);
                            assert(f1.frames_left() == f0.frames_left() - 1);
                        }
                        assert(s0.spec_missing_tables(page) > f0.frames_left());
                    }
                }
                return Err(e);
            },
        };
        let ghost s2 = *self;
        let ghost f2 = *fa;
        proof {
            assert(s2.spec_translate_page(page) == s0.spec_translate_page(page));
            assert(t3 != root) by {
                assert(s1.table_at(root as int)[i4 as int].child == Some(t3));
            }
            assert(s2.table_at(root as int)[i4 as int] == s1.table_at(root as int)[i4 as int]);
            if !s1.table_at(t3 as int)[i3 as int].present {
                assert(f2.next == f1.next + 1 && f1.frames_left() > 0);
                assert(forall|k: int|
                    0 <= k < 512 ==> !(#[trigger] s2.table_at(t2 as int)[k]).present);
            } else {
                assert(s2 == s1 && f2 == f1);
            }
        }
        let t1 = match self.ensure_child_table(t2, i2, fa) {
            Ok(c) => c,
            Err(e) => {
                proof {
                    assert(s2.table_at(root as int)[i4 as int].child == Some(t3));
                    assert(s2.table_at(t3 as int)[i3 as int].child == Some(t2));
                    if e == MapError::ParentEntryHugePage {
                        assert(s2.table_at(t2 as int)[i2 as int].present && s2.table_at(
                            t2 as int,
                        )[i2 as int].huge);
                        assert(s0.table_at(root as int)[i4 as int].present) by {
                            if !s0.table_at(root as int)[i4 as int].present {
                                assert(!s1.table_at(t3 as int)[i3 as int].present);
                                assert(forall|k: int|
                                    0 <= k < 512 ==> !(#[trigger] s2.table_at(
                                        t2 as int,
                                    )[k]).present);
                            }
                        }
                        assert(s0.table_at(t3 as int)[i3 as int].present) by {
                            if !s1.table_at(t3 as int)[i3 as int].present {
                                assert(forall|k: int|
                                    0 <= k < 512 ==> !(#[trigger] s2.table_at(
                                        t2 as int,
                                    )[k]).present);
                            }
                        }
                        assert(s0.spec_translate_page(page) is HugePage);
                    } else {
                        assert(!s2.table_at(t2 as int)[i2 as int].present);
                        assert(s0.spec_translate_page(page) is Unmapped);
                        if s0.table_at(root as int)[i4 as int].present && s0.table_at(
                            t3 as int,
                        )[i3 as int].present {
                            assert(s0.spec_missing_tables(page) == 1);
                            assert(f2.frames_left() == f0.frames_left());
                        } else if s0.table_at(root as int)[i4 as int].present {
                            assert(s0.spec_missing_tables(page) == 2);
                            assert(f2.frames_left() == f0.frames_left() - 1);
                        } else {
                            assert(!s1.table_at(t3 as int)[i3 as int].present);
                            assert(s0.spec_missing_tables(page) == 3);
                            assert(f2.frames_left() == f0.frames_left() - 2);
                        }
                        assert(s0.spec_missing_tables(page) > f0.frames_left());
                    }
                }
                return Err(e);
            },
        };
        let ghost s3 = *self;
        let ghost f3 = *fa;
        proof {
            assert(s3.spec_translate_page(page) == s0.spec_translate_page(page));
            assert(t3 != root && t2 != root) by {
                assert(s1.table_at(root as int)[i4 as int].child == Some(t3));
                assert(s2.table_at(t3 as int)[i3 as int].child == Some(t2));
            }
            assert((t2 as int, i2 as int) != (t3 as int, i3 as int)) by {
                if t2 == t3 {
                    assert(s2.table_at(t3 as int)[i3 as int].child == Some(t2));
                    assert(s2.level_of(t2 as int) == s2.level_of(t3 as int) - 1);
                }
            }
            assert(s3.table_at(root as int)[i4 as int] == s2.table_at(root as int)[i4 as int]);
            assert(s3.table_at(t3 as int)[i3 as int] == s2.table_at(t3 as int)[i3 as int]);
            if !s2.table_at(t2 as int)[i2 as int].present {
                assert(f3.next == f2.next + 1 && f2.frames_left() > 0);
                assert(forall|k: int|
                    0 <= k < 512 ==> !(#[trigger] s3.table_at(t1 as int)[k]).present);
            } else {
                assert(s3 == s2 && f3 == f2);
            }
            assert(s3.level_of(t1 as int) == 1);
        }
        let entry1 = self.tables[t1].entries[i1];
        if entry1.present {
            proof {
                assert(s3.table_at(t1 as int)[i1 as int].present);
                assert(!s3.table_at(t1 as int)[i1 as int].huge);
                assert(s3.table_at(root as int)[i4 as int].child == Some(t3));
                assert(s3.table_at(t3 as int)[i3 as int].child == Some(t2));
                assert(s3.table_at(t2 as int)[i2 as int].child == Some(t1));
                assert(s3.spec_translate_page(page) is Mapped);
                assert(s0.spec_translate_page(page) is Mapped);
            }
            return Err(MapError::PageAlreadyMapped);
        }
        proof {
            assert(s3.table_at(root as int)[i4 as int].child == Some(t3));
            assert(s3.table_at(t3 as int)[i3 as int].child == Some(t2));
            assert(s3.table_at(t2 as int)[i2 as int].child == Some(t1));
            assert(s3.spec_translate_page(page) is Unmapped);
            assert(s0.spec_translate_page(page) is Unmapped);
            // Frame accounting: the tables created so far are exactly the
            // levels that were missing, each paid for with one frame.
            if s0.table_at(root as int)[i4 as int].present {
                if s0.table_at(t3 as int)[i3 as int].present {
                    if s0.table_at(t2 as int)[i2 as int].present {
                        assert(s0.spec_missing_tables(page) == 0);
                        assert(f3.next == f0.next);
                    } else {
                        assert(s0.spec_missing_tables(page) == 1);
                        assert(f3.next == f0.next + 1 && f0.frames_left() >= 1);
                    }
                } else {
                    assert(!s1.table_at(t3 as int)[i3 as int].present);
                    assert(s0.spec_missing_tables(page) == 2);
                    assert(f3.next == f0.next + 2 && f0.frames_left() >= 2);
                }
            } else {
                assert(!s1.table_at(t3 as int)[i3 as int].present);
                assert(!s2.table_at(t2 as int)[i2 as int].present);
                assert(s0.spec_missing_tables(page) == 3);
                assert(f3.next == f0.next + 3 && f0.frames_left() >= 3);
            }
        }
        let tbl = &mut self.tables[t1];
        tbl.entries[i1] = PageTableEntry {
            present: flags.present,
            writable: flags.writable,
            huge: false,
            addr: frame,
            child: None,
        };
        proof {
            let post = *self;
            assert(post.table_at(t1 as int) =~= s3.table_at(t1 as int).update(
                i1 as int,
                post.table_at(t1 as int)[i1 as int],
            ));
            lemma_leaf_write_wf(s3, post, t1 as int, i1 as int);
            assert(post.spec_translate_page(page) == TranslateResult::Mapped(frame)) by {
                assert(post.table_at(root as int)[i4 as int] == s3.table_at(root as int)[
                    i4 as int]);
                assert(post.table_at(t3 as int)[i3 as int] == s3.table_at(t3 as int)[i3 as int]);
                assert(post.table_at(t2 as int)[i2 as int] == s3.table_at(t2 as int)[i2 as int]);
            }
            assert forall|q: u64| !same_page_slot(q, page) implies #[trigger] post
                .spec_translate_page(q) == s0.spec_translate_page(q) by {
                lemma_leaf_preserves_other_walks(s3, post, t1 as int, i1 as int, page, q);
            }
        }
        Ok(())
    }
}

/// A mapping covers its whole page: once the page of `page` translates to the
/// frame `frame`, every address `page + offset` within the page translates to
/// `frame + offset`.
pub proof fn lemma_mapped_translation(m: &PageMapper, page: u64, frame: u64, offset: u64)
    requires
        m.wf(),
        m.spec_translate_page(page) == TranslateResult::Mapped(frame),
        page % FRAME_SIZE == 0,
        offset < FRAME_SIZE,
    ensures
        page + offset <= u64::MAX,
        frame + offset <= u64::MAX,
        m.spec_translate_addr((page + offset) as u64) == TranslateResult::Mapped(
            (frame + offset) as u64,
        ),
{
    lemma_index_bounds(page);
    let p = page;
    let o = offset;
    assert(p <= 0xFFFF_FFFF_FFFF_F000u64) by (bit_vector)
        requires
            p % 4096 == 0,
    ;
    let va = (page + offset) as u64;
    let v = va;
    assert((v >> 39) & 0x1ff == (p >> 39) & 0x1ff && (v >> 30) & 0x1ff == (p >> 30) & 0x1ff && (v
        >> 21) & 0x1ff == (p >> 21) & 0x1ff && (v >> 12) & 0x1ff == (p >> 12) & 0x1ff && (v
        & 0xfff) == o) by (bit_vector)
        requires
            p % 4096 == 0,
            o < 4096,
            p <= 0xFFFF_FFFF_FFFF_F000u64,
            v == p + o,
    ;
    assert(same_page_slot(va, page));
    assert(m.spec_translate_page(va) == m.spec_translate_page(page));
    // The mapped frame is frame-aligned, so adding the page offset stays
    // within the address space.
    let root = m.root as int;
    let e4 = m.table_at(root)[spec_l4_index(page)];
    let e3 = m.table_at(e4.child->0 as int)[spec_l3_index(page)];
    let e2 = m.table_at(e3.child->0 as int)[spec_l2_index(page)];
    let e1 = m.table_at(e2.child->0 as int)[spec_l1_index(page)];
    assert(e1.present && e1.addr == frame);
    let f = frame;
    assert(f % 4096 == 0 ==> f <= 0xFFFF_FFFF_FFFF_F000u64) by (bit_vector);
}

/// Writing one level-1 entry — present, not huge, childless, mapping a
/// frame-aligned address — into a well-formed hierarchy keeps it well-formed.
proof fn lemma_leaf_write_wf(pre: PageMapper, post: PageMapper, t1: int, i1: int)
    requires
        pre.wf(),
        0 <= t1 < pre.tables@.len(),
        0 <= i1 < 512,
        pre.level_of(t1) == 1,
        post.root == pre.root,
        post.tables@.len() == pre.tables@.len(),
        forall|t2: int|
            0 <= t2 < pre.tables@.len() && t2 != t1 ==> #[trigger] post.tables@[t2]
                == pre.tables@[t2],
        forall|i2: int|
            0 <= i2 < 512 && i2 != i1 ==> #[trigger] post.table_at(t1)[i2] == pre.table_at(
                t1,
            )[i2],
        post.table_at(t1).len() == 512,
        post.level_of(t1) == pre.level_of(t1),
        post.table_at(t1)[i1].child is None,
        !post.table_at(t1)[i1].huge,
        (post.table_at(t1)[i1].addr as int) % (FRAME_SIZE as int) == 0,
    ensures
        post.wf(),
{
    assert forall|t2x: int|
        0 <= t2x < post.tables@.len() implies (#[trigger] post.table_at(t2x)).len() == 512 by {
        if t2x != t1 {
            assert(post.table_at(t2x) == pre.table_at(t2x));
        }
    }
    assert forall|tx: int, ix: int|
        0 <= tx < post.tables@.len() && 0 <= ix < 512 && (#[trigger] post.table_at(
            tx,
        )[ix]).present implies {
        &&& (post.table_at(tx)[ix].addr as int) % (FRAME_SIZE as int) == 0
        &&& (post.level_of(tx) >= 2 && !post.table_at(tx)[ix].huge ==> post.table_at(tx)[ix].child
            is Some)
        &&& (post.level_of(tx) == 1 ==> post.table_at(tx)[ix].child is None && !post.table_at(
            tx,
        )[ix].huge)
        &&& (post.table_at(tx)[ix].child matches Some(cx) ==> cx < post.tables@.len()
            && post.level_of(cx as int) == post.level_of(tx) - 1 && cx != post.root)
    } by {
        if !(tx == t1 && ix == i1) {
            if tx != t1 {
                assert(post.table_at(tx) == pre.table_at(tx));
            } else {
                assert(post.table_at(tx)[ix] == pre.table_at(tx)[ix]);
            }
        }
    }
    assert forall|ta: int, ia: int, tb: int, ib: int|
        0 <= ta < post.tables@.len() && 0 <= ia < 512 && 0 <= tb < post.tables@.len() && 0 <= ib
            < 512 && (#[trigger] post.table_at(ta)[ia]).present && (#[trigger] post.table_at(
            tb,
        )[ib]).present && post.table_at(ta)[ia].child is Some && post.table_at(ta)[ia].child
            == post.table_at(tb)[ib].child implies ta == tb && ia == ib by {
        assert(!(ta == t1 && ia == i1));
        if ta != t1 {
            assert(post.table_at(ta)[ia] == pre.table_at(ta)[ia]);
        } else {
            assert(post.table_at(ta)[ia] == pre.table_at(ta)[ia]);
        }
        if !(tb == t1 && ib == i1) {
            if tb != t1 {
                assert(post.table_at(tb)[ib] == pre.table_at(tb)[ib]);
            } else {
                assert(post.table_at(tb)[ib] == pre.table_at(tb)[ib]);
            }
        } else {
            assert(post.table_at(tb)[ib].child is None);
        }
    }
}

/// Writing one level-1 entry changes no translation but its own page's: any
/// other walk either never reads the written entry, or — were it to read it —
/// would, the hierarchy being a tree, have followed the very same path and
/// slot indices.
proof fn lemma_leaf_preserves_other_walks(
    pre: PageMapper,
    post: PageMapper,
    t1: int,
    i1: int,
    page: u64,
    q: u64,
)
    requires
        pre.wf(),
        0 <= t1 < pre.tables@.len(),
        0 <= i1 < 512,
        pre.level_of(t1) == 1,
        post.root == pre.root,
        post.tables@.len() == pre.tables@.len(),
        forall|t2: int|
            0 <= t2 < pre.tables@.len() && t2 != t1 ==> #[trigger] post.tables@[t2]
                == pre.tables@[t2],
        forall|i2: int|
            0 <= i2 < 512 && i2 != i1 ==> #[trigger] post.table_at(t1)[i2] == pre.table_at(
                t1,
            )[i2],
        post.level_of(t1) == pre.level_of(t1),
        i1 == spec_l1_index(page),
        pre.table_at(pre.root as int)[spec_l4_index(page)].present,
        !pre.table_at(pre.root as int)[spec_l4_index(page)].huge,
        pre.table_at(pre.root as int)[spec_l4_index(page)].child is Some,
        pre.table_at(pre.table_at(pre.root as int)[spec_l4_index(page)].child->0 as int)[
            spec_l3_index(page)].present,
        !pre.table_at(pre.table_at(pre.root as int)[spec_l4_index(page)].child->0 as int)[
            spec_l3_index(page)].huge,
        pre.table_at(pre.table_at(pre.root as int)[spec_l4_index(page)].child->0 as int)[
            spec_l3_index(page)].child is Some,
        ({
            let c4 = pre.table_at(pre.root as int)[spec_l4_index(page)].child->0 as int;
            let e3 = pre.table_at(c4)[spec_l3_index(page)];
            let e2 = pre.table_at(e3.child->0 as int)[spec_l2_index(page)];
            e2.present && !e2.huge && e2.child == Some(t1 as usize)
        }),
        !same_page_slot(q, page),
    ensures
        post.spec_translate_page(q) == pre.spec_translate_page(q),
{
    lemma_index_bounds(q);
    lemma_index_bounds(page);
    let root = pre.root as int;
    let c4p = pre.table_at(root)[spec_l4_index(page)].child->0 as int;
    let c3p = pre.table_at(c4p)[spec_l3_index(page)].child->0 as int;
    // The root and every intermediate table sit above level 1, so none is the
    // written table; the entries a walk reads before its last step are
    // untouched.
    assert(root != t1);
    let e4q = pre.table_at(root)[spec_l4_index(q)];
    assert(post.table_at(root) == pre.table_at(root));
    if e4q.present && !e4q.huge && e4q.child is Some {
        let c4q = e4q.child->0 as int;
        assert(pre.level_of(c4q) == 3);
        assert(c4q != t1);
        assert(post.table_at(c4q) == pre.table_at(c4q));
        let e3q = pre.table_at(c4q)[spec_l3_index(q)];
        if e3q.present && !e3q.huge && e3q.child is Some {
            let c3q = e3q.child->0 as int;
            assert(pre.level_of(c3q) == 2);
            assert(c3q != t1);
            assert(post.table_at(c3q) == pre.table_at(c3q));
            let e2q = pre.table_at(c3q)[spec_l2_index(q)];
            if e2q.present && !e2q.huge && e2q.child is Some {
                let c2q = e2q.child->0 as int;
                assert(pre.level_of(c2q) == 1);
                if c2q == t1 {
                    // The hierarchy is a tree: a second path into the written
                    // table would need a second entry pointing at it, or at
                    // one of its ancestors — excluded by injectivity.
                    let e2p = pre.table_at(c3p)[spec_l2_index(page)];
                    assert(e2p.child == Some(t1 as usize));
                    assert(e2q.child == Some(t1 as usize));
                    assert(c3q == c3p && spec_l2_index(q) == spec_l2_index(page));
                    let e3p = pre.table_at(c4p)[spec_l3_index(page)];
                    assert(e3p.child == Some(c3p as usize));
                    assert(e3q.child == Some(c3q as usize));
                    assert(c4q == c4p && spec_l3_index(q) == spec_l3_index(page));
                    let e4p = pre.table_at(root)[spec_l4_index(page)];
                    assert(e4p.child == Some(c4p as usize));
                    assert(e4q.child == Some(c4q as usize));
                    assert(spec_l4_index(q) == spec_l4_index(page));
                    assert(spec_l1_index(q) != spec_l1_index(page));
                    assert(post.table_at(t1)[spec_l1_index(q)] == pre.table_at(t1)[spec_l1_index(
                        q,
                    )]);
                } else {
                    assert(post.table_at(c2q) == pre.table_at(c2q));
                }
            }
        }
    }
}

/// Creating a fresh, empty child table and pointing one absent entry at it
/// changes no translation: a walk that reads the written entry used to stop
/// there, and now stops one level further down, in the empty table.
proof fn lemma_step_preserves_walk(
    pre: PageMapper,
    post: PageMapper,
    t: int,
    i: int,
    c: int,
    q: u64,
)
    requires
        pre.wf(),
        0 <= t < pre.tables@.len(),
        0 <= i < 512,
        2 <= pre.level_of(t),
        !pre.table_at(t)[i].present,
        c == pre.tables@.len(),
        c <= usize::MAX,
        post.root == pre.root,
        post.tables@.len() == pre.tables@.len() + 1,
        post.level_of(c) == pre.level_of(t) - 1,
        forall|k: int| 0 <= k < 512 ==> !(#[trigger] post.table_at(c)[k]).present,
        post.table_at(c).len() == 512,
        forall|t2: int|
            0 <= t2 < pre.tables@.len() && t2 != t ==> #[trigger] post.tables@[t2]
                == pre.tables@[t2],
        forall|i2: int|
            0 <= i2 < 512 && i2 != i ==> #[trigger] post.table_at(t)[i2] == pre.table_at(t)[i2],
        forall|t2: int|
            0 <= t2 < pre.tables@.len() ==> #[trigger] post.level_of(t2) == pre.level_of(t2),
        post.table_at(t)[i].present,
        !post.table_at(t)[i].huge,
        post.table_at(t)[i].child == Some(c as usize),
    ensures
        post.spec_translate_page(q) == pre.spec_translate_page(q),
{
    lemma_index_bounds(q);
    let root = pre.root as int;
    let i4 = spec_l4_index(q);
    let i3 = spec_l3_index(q);
    let i2q = spec_l2_index(q);
    let e4_pre = pre.table_at(root)[i4];
    let e4_post = post.table_at(root)[i4];
    // The root has level 4, the written table level 2 or more: the walk can
    // read the written entry only at the position matching its level, and
    // below the written entry it finds only the empty fresh table.
    if root == t && i4 == i {
        assert(pre.level_of(t) == 4);
        assert(!e4_pre.present);
        assert(e4_post.child == Some(c as usize));
        assert(!post.table_at(c)[i3].present);
        assert(pre.spec_translate_page(q) == TranslateResult::Unmapped);
        assert(post.spec_translate_page(q) == TranslateResult::Unmapped);
    } else {
        assert(e4_pre == e4_post);
        if e4_pre.present && !e4_pre.huge && e4_pre.child is Some {
            let c4 = e4_pre.child->0 as int;
            assert(pre.level_of(c4) == 3);
            assert(c4 != c);
            let e3_pre = pre.table_at(c4)[i3];
            let e3_post = post.table_at(c4)[i3];
            if c4 == t && i3 == i {
                assert(pre.level_of(t) == 3);
                assert(!e3_pre.present);
                assert(!post.table_at(c)[i2q].present);
                assert(pre.spec_translate_page(q) == TranslateResult::Unmapped);
                assert(post.spec_translate_page(q) == TranslateResult::Unmapped);
            } else {
                assert(e3_pre == e3_post);
                if e3_pre.present && !e3_pre.huge && e3_pre.child is Some {
                    let c3 = e3_pre.child->0 as int;
                    assert(pre.level_of(c3) == 2);
                    assert(c3 != c);
                    let e2_pre = pre.table_at(c3)[i2q];
                    let e2_post = post.table_at(c3)[i2q];
                    if c3 == t && i2q == i {
                        assert(pre.level_of(t) == 2);
                        assert(!e2_pre.present);
                        assert(!post.table_at(c)[spec_l1_index(q)].present);
                        assert(pre.spec_translate_page(q) == TranslateResult::Unmapped);
                        assert(post.spec_translate_page(q) == TranslateResult::Unmapped);
                    } else {
                        assert(e2_pre == e2_post);
                        if e2_pre.present && !e2_pre.huge && e2_pre.child is Some {
                            let c2 = e2_pre.child->0 as int;
                            assert(pre.level_of(c2) == 1);
                            // The written table has level 2 or more: the
                            // level-1 read cannot hit it.
                            assert(c2 != t);
                            assert(c2 != c);
                            assert(pre.table_at(c2)[spec_l1_index(q)] == post.table_at(c2)[
                                spec_l1_index(q)]);
                            assert(post.spec_translate_page(q) == pre.spec_translate_page(q));
                        } else {
                            assert(post.spec_translate_page(q) == pre.spec_translate_page(q));
                        }
                    }
                }
            }
        }
    }
}

/// A fresh table of 512 entries, none of them present.
fn empty_entries() -> (r: Vec<PageTableEntry>)
    ensures
        r@.len() == 512,
        forall|i: int| 0 <= i < 512 ==> !(#[trigger] r@[i]).present,
{
    let blank = PageTableEntry {
        present: false,
        writable: false,
        huge: false,
        addr: 0,
        child: None,
    };
    let mut entries: Vec<PageTableEntry> = Vec::new();
    let mut i: usize = 0;
    while i < 512
        invariant
            i <= 512,
            !blank.present,
            entries@.len() == i,
            forall|k: int| 0 <= k < i ==> !(#[trigger] entries@[k]).present,
        decreases 512 - i,
    {
        entries.push(blank);
        i = i + 1;
    }
    entries
}

} // verus!
