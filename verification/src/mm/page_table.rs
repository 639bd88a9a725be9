//! The kernel's 4-level page-table walker (PML4 -> PDPT -> PD -> PT):
//! translating addresses and mapping 4 KiB pages, with missing tables
//! allocated from the frame allocator and linked present, writable and
//! user-accessible.

use vstd::prelude::*;
use crate::frame_alloc::{bit_set, first_free_from, lemma_first_free_is_free};
use crate::arch::tables::{nth_free, taken_bits, lemma_taken_bits_zero, lemma_taken_bits_next, lemma_taken_bits_step};
use crate::mm::frame_allocator::FrameAllocator;
use crate::mm::phys::{
    PhysMem, ENTRIES, index, frame_of, zeroed, index_of, lemma_frames_disjoint, lemma_frame_of_entry, lemma_linked,
    lemma_written, copied, lemma_fixed_entries,
};

verus! {

pub const PAGE_PRESENT: u64 = 0x1;
pub const PAGE_WRITABLE: u64 = 0x2;
pub const PAGE_USER: u64 = 0x4;
/// The no-execute bit (when EFER.NXE is set).
pub const PAGE_EXECUTE: u64 = 0x8000_0000_0000_0000;
/// How a table created on the way is linked: present, writable, user.
pub const TABLE_FLAGS: u64 = 0x7;

/// A top-level page table: the physical address of its PML4.
pub struct PageTable {
    pub root: u64,
}

/// Frame `t` is one the allocator manages and it is in use.
pub open spec fn managed_in_use(a: FrameAllocator, t: int) -> bool {
    let i = (t - a.first()) / 4096;
    &&& a.first() <= t
    &&& (t - a.first()) % 4096 == 0
    &&& i < 64 * a.words()
    &&& a.is_used(i)
}

/// The page-table entry for `v`: following present entries from the PML4 at
/// `root` through tables in memory; `None` when a level is missing.
pub open spec fn table_walk(m: PhysMem, root: int, v: u64) -> Option<u64> {
    let e4 = m.ent(root, index(v, 39));
    let t3 = frame_of(e4);
    let e3 = m.ent(t3, index(v, 30));
    let t2 = frame_of(e3);
    let e2 = m.ent(t2, index(v, 21));
    let t1 = frame_of(e2);
    if m.holds(root) && e4 & PAGE_PRESENT != 0 && m.holds(t3) && e3 & PAGE_PRESENT != 0 && m.holds(t2) && e2
        & PAGE_PRESENT != 0 && m.holds(t1) {
        Some(m.ent(t1, index(v, 12)))
    } else {
        None
    }
}

/// The physical address `v` translates to: the frame of its present page
/// entry plus `v`'s offset in the page.
pub open spec fn translation(m: PhysMem, root: int, v: u64) -> Option<u64> {
    match table_walk(m, root, v) {
        Some(e) => if e & PAGE_PRESENT != 0 {
            Some((e & !0xFFFu64) | (v & 0xFFF))
        } else {
            None
        },
        None => None,
    }
}

/// The tables already present on `v`'s walk are distinct frames the
/// allocator holds in use (so tables it creates cannot land on them).
pub open spec fn walk_ok(m: PhysMem, a: FrameAllocator, root: int, v: u64) -> bool {
    let e4 = m.ent(root, index(v, 39));
    let t3 = frame_of(e4);
    let e3 = m.ent(t3, index(v, 30));
    let t2 = frame_of(e3);
    let e2 = m.ent(t2, index(v, 21));
    let t1 = frame_of(e2);
    &&& managed_in_use(a, root)
    &&& (m.holds(root) && e4 & PAGE_PRESENT != 0) ==> managed_in_use(a, t3) && t3 != root
    &&& (m.holds(root) && e4 & PAGE_PRESENT != 0 && m.holds(t3) && e3 & PAGE_PRESENT != 0) ==> managed_in_use(a, t2)
        && t2 != root && t2 != t3
    &&& (m.holds(root) && e4 & PAGE_PRESENT != 0 && m.holds(t3) && e3 & PAGE_PRESENT != 0 && m.holds(t2) && e2
        & PAGE_PRESENT != 0) ==> managed_in_use(a, t1) && t1 != root && t1 != t3 && t1 != t2
}

/// The allocator's next frame is one it manages and lies in `m`: taking a
/// table frame from it succeeds.
pub open spec fn pt_alloc_ok(m: PhysMem, a: FrameAllocator) -> bool {
    let z = first_free_from(a.bits(), 0);
    z < a.count() && m.holds(a.first() + z * 4096)
}

/// How many tables mapping `v` under `root` creates: one for each level from
/// the first entry on its walk that is not present.
pub open spec fn pt_tables_needed(m: PhysMem, root: int, v: u64) -> nat {
    let e4 = m.ent(root, index(v, 39));
    let e3 = m.ent(frame_of(e4), index(v, 30));
    let e2 = m.ent(frame_of(e3), index(v, 21));
    if e4 & PAGE_PRESENT == 0 {
        3
    } else if e3 & PAGE_PRESENT == 0 {
        2
    } else if e2 & PAGE_PRESENT == 0 {
        1
    } else {
        0
    }
}

/// The next `n` frames the allocator hands out are ones it manages and lie in `m`.
pub open spec fn pt_frames_ready(m: PhysMem, a: FrameAllocator, n: nat) -> bool {
    forall|k: nat| k < n ==> #[trigger] nth_free(a.bits(), k) < a.count() && m.holds(a.first() + nth_free(a.bits(), k) * 4096)
}

/// Mapping a page at `v` under `root` can complete: the root and the present
/// tables on the walk lie in `m`, and so do the frames taken for the new tables.
pub open spec fn pt_map_ready(m: PhysMem, a: FrameAllocator, root: int, v: u64) -> bool {
    let e4 = m.ent(root, index(v, 39));
    let e3 = m.ent(frame_of(e4), index(v, 30));
    let e2 = m.ent(frame_of(e3), index(v, 21));
    &&& m.holds(root)
    &&& e4 & PAGE_PRESENT != 0 ==> m.holds(frame_of(e4)) && (e3 & PAGE_PRESENT != 0 ==> m.holds(frame_of(e3)) && (e2
        & PAGE_PRESENT != 0 ==> m.holds(frame_of(e2))))
    &&& pt_frames_ready(m, a, pt_tables_needed(m, root, v))
}

/// Whether the next table frame can be had depends only on which frames
/// were taken so far.
proof fn lemma_pt_alloc_ok(m0: PhysMem, a0: FrameAllocator, m: PhysMem, a: FrameAllocator, c: nat)
    requires
        taken_bits(a0.bits(), a.bits(), c),
        a.first() == a0.first(),
        a.count() == a0.count(),
        m.base == m0.base,
        m.words@.len() == m0.words@.len(),
    ensures
        pt_alloc_ok(m, a) == (nth_free(a0.bits(), c) < a0.count() && m0.holds(a0.first() + nth_free(a0.bits(), c) * 4096)),
        first_free_from(a.bits(), 0) == nth_free(a0.bits(), c),
{
    lemma_taken_bits_next(a0.bits(), a.bits(), c);
}

/// The page table rooted at `cr3`, if there is one.
pub fn page_table_root(cr3: u64) -> (r: Option<PageTable>)
    ensures
        r == if cr3 == 0 { None } else { Some(PageTable { root: cr3 }) },
{
    if cr3 == 0 {
        return None;
    }
    Some(PageTable { root: cr3 })
}

/// The frame the allocator hands out next, before it is taken.
proof fn lemma_fresh(a: FrameAllocator, z: int, t: int)
    requires
        a.wf(),
        z == first_free_from(a.bits(), 0),
        z < 64 * a.words(),
        t == a.first() + z * 4096,
    ensures
        !managed_in_use(a, t),
        (t - a.first()) / 4096 == z,
        (t - a.first()) % 4096 == 0,
{
    a.lemma_shape();
    lemma_first_free_is_free(a.bits(), 0);
}

impl PageTable {
    /// The address to load into CR3.
    pub fn cr3(&self) -> (r: u64)
        ensures
            r == self.root,
    {
        self.root
    }

    /// The physical address `virt` maps to, if it is mapped.
    pub fn translate(&self, mem: &PhysMem, virt: u64) -> (r: Option<u64>)
        requires
            mem.wf(),
        ensures
            r == translation(*mem, self.root as int, virt),
    {
        if !mem.holds_frame(self.root) {
            return None;
        }
        let e4 = mem.read(self.root, index_of(virt, 39));
        if e4 & PAGE_PRESENT == 0 {
            return None;
        }
        let t3 = e4 & !0xFFF;
        if !mem.holds_frame(t3) {
            return None;
        }
        let e3 = mem.read(t3, index_of(virt, 30));
        if e3 & PAGE_PRESENT == 0 {
            return None;
        }
        let t2 = e3 & !0xFFF;
        if !mem.holds_frame(t2) {
            return None;
        }
        let e2 = mem.read(t2, index_of(virt, 21));
        if e2 & PAGE_PRESENT == 0 {
            return None;
        }
        let t1 = e2 & !0xFFF;
        if !mem.holds_frame(t1) {
            return None;
        }
        let entry = mem.read(t1, index_of(virt, 12));
        if entry & PAGE_PRESENT == 0 {
            return None;
        }
        Some((entry & !0xFFF) | (virt & 0xFFF))
    }

    /// The table entry `index` of `table` points at when it is present;
    /// otherwise, with `create`, a fresh zeroed table linked there.
    fn next_table(mem: &mut PhysMem, alloc: &mut FrameAllocator, table: u64, index: usize, create: bool) -> (r: Option<u64>)
        requires
            old(mem).wf(),
            old(mem).holds(table as int),
            index < ENTRIES,
            old(alloc).wf(),
        ensures
            final(mem).wf(),
            final(mem).base == old(mem).base,
            final(mem).words@.len() == old(mem).words@.len(),
            final(alloc).wf(),
            final(alloc).first() == old(alloc).first(),
            final(alloc).count() == old(alloc).count(),
            final(alloc).words() == old(alloc).words(),
            forall|g: int| 0 <= g < 64 * old(alloc).words() && old(alloc).is_used(g) ==> #[trigger] final(alloc).is_used(g),
            ({
                let e = old(mem).ent(table as int, index as int);
                if e & PAGE_PRESENT != 0 || !create {
                    &&& final(mem).words@ == old(mem).words@
                    &&& *final(alloc) == *old(alloc)
                    &&& r == if e & PAGE_PRESENT != 0 && old(mem).holds(frame_of(e)) {
                        Some(frame_of(e) as u64)
                    } else {
                        None::<u64>
                    }
                } else {
                    match r {
                        Some(t) => {
                            let z = first_free_from(old(alloc).bits(), 0);
                            &&& final(mem).holds(t as int)
                            &&& !managed_in_use(*old(alloc), t as int)
                            &&& managed_in_use(*final(alloc), t as int)
                            &&& final(mem).words@ == zeroed(old(mem).words@, old(mem).slot(t as int, 0)).update(
                                old(mem).slot(table as int, index as int),
                                t | TABLE_FLAGS,
                            )
                            &&& t as int == old(alloc).first() + z * 4096
                            &&& final(alloc).is_used(z)
                            &&& forall|g: int| 0 <= g < 64 * old(alloc).words() && g != z ==> #[trigger] final(alloc).is_used(g)
                                == old(alloc).is_used(g)
                        },
                        None => final(mem).words@ == old(mem).words@,
                    }
                }
            }),
            r is Some <==> {
                let e = old(mem).ent(table as int, index as int);
                if e & PAGE_PRESENT != 0 {
                    old(mem).holds(frame_of(e))
                } else {
                    create && pt_alloc_ok(*old(mem), *old(alloc))
                }
            },
    {
        let value = mem.read(table, index);
        if value & PAGE_PRESENT != 0 {
            let t = value & !0xFFF;
            if mem.holds_frame(t) {
                return Some(t);
            }
            return None;
        }
        if !create {
            return None;
        }
        let ghost a0 = *alloc;
        let ghost z = first_free_from(alloc.bits(), 0);
        proof {
            alloc.lemma_shape();
        }
        let frame = match crate::mm::frame_allocator::allocate(alloc) {
            Some(f) => f,
            None => return None,
        };
        proof {
            a0.lemma_shape();
            lemma_first_free_is_free(a0.bits(), 0);
            assert(z < a0.count());
            assert(a0.first() + z * 4096 <= a0.first() + a0.count() * 4096) by (nonlinear_arith)
                requires z < a0.count(), 0 <= z;
            assert(frame as int == a0.first() + z * 4096);
            lemma_fresh(a0, z, frame as int);
        }
        if !mem.holds_frame(frame) {
            let ghost a1 = *alloc;
            crate::mm::frame_allocator::free(alloc, frame);
            assert forall|g: int| 0 <= g < 64 * a0.words() && a0.is_used(g) implies #[trigger] alloc.is_used(g) by {
                assert(g != z);
                assert(a1.is_used(g));
            }
            return None;
        }
        let ghost m0 = *mem;
        mem.zero_frame(frame);
        assert(mem.words@ =~= zeroed(m0.words@, m0.slot(frame as int, 0)));
        mem.write(table, index, frame | TABLE_FLAGS);
        Some(frame)
    }

    /// A new top-level table in a fresh zeroed frame; when the kernel's
    /// table `kernel_cr3` is known (non-zero) all its entries are copied in,
    /// so the kernel stays mapped. `None` when no frame is free, or the
    /// kernel's table is not in memory.
    pub fn new(mem: &mut PhysMem, alloc: &mut FrameAllocator, kernel_cr3: u64) -> (r: Option<PageTable>)
        requires
            old(mem).wf(),
            old(alloc).wf(),
        ensures
            final(mem).wf(),
            final(mem).base == old(mem).base,
            final(alloc).wf(),
            final(alloc).first() == old(alloc).first(),
            final(alloc).count() == old(alloc).count(),
            final(alloc).words() == old(alloc).words(),
            forall|g: int| 0 <= g < 64 * old(alloc).words() && old(alloc).is_used(g) ==> #[trigger] final(alloc).is_used(g),
            kernel_cr3 != 0 && !old(mem).holds(kernel_cr3 as int) ==> r is None,
            match r {
                Some(pt) => {
                    let t = pt.root as int;
                    &&& final(mem).holds(t)
                    &&& !managed_in_use(*old(alloc), t)
                    &&& managed_in_use(*final(alloc), t)
                    &&& forall|s: int, i: int| old(mem).holds(s) && s != t && 0 <= i < 512 ==> #[trigger] final(mem).ent(s, i)
                        == old(mem).ent(s, i)
                    &&& kernel_cr3 == 0 ==> forall|i: int| 0 <= i < 512 ==> #[trigger] final(mem).ent(t, i) == 0u64
                    &&& kernel_cr3 != 0 && managed_in_use(*old(alloc), kernel_cr3 as int) ==> forall|i: int|
                        0 <= i < 512 ==> #[trigger] final(mem).ent(t, i) == old(mem).ent(kernel_cr3 as int, i)
                },
                None => final(mem).words@ == old(mem).words@,
            },
            r is Some <==> (kernel_cr3 == 0 || old(mem).holds(kernel_cr3 as int)) && pt_alloc_ok(*old(mem), *old(alloc)),
    {
        if kernel_cr3 != 0 && !mem.holds_frame(kernel_cr3) {
            return None;
        }
        let ghost a0 = *alloc;
        let ghost z = first_free_from(alloc.bits(), 0);
        proof {
            alloc.lemma_shape();
        }
        let root = match crate::mm::frame_allocator::allocate(alloc) {
            Some(f) => f,
            None => return None,
        };
        proof {
            a0.lemma_shape();
            lemma_first_free_is_free(a0.bits(), 0);
            assert(a0.first() + z * 4096 <= a0.first() + a0.count() * 4096) by (nonlinear_arith)
                requires z < a0.count(), 0 <= z;
            lemma_fresh(a0, z, root as int);
        }
        if !mem.holds_frame(root) {
            let ghost a1 = *alloc;
            crate::mm::frame_allocator::free(alloc, root);
            assert forall|g: int| 0 <= g < 64 * a0.words() && a0.is_used(g) implies #[trigger] alloc.is_used(g) by {
                assert(g != z);
                assert(a1.is_used(g));
            }
            return None;
        }
        let ghost m0 = *mem;
        mem.zero_frame(root);
        let ghost m1 = *mem;
        proof {
            assert forall|s: int, i: int| m0.holds(s) && s != root && 0 <= i < 512 implies #[trigger] m1.ent(s, i) == m0.ent(
                s,
                i,
            ) by {
                lemma_frames_disjoint(m0, s, root as int);
            }
        }
        if kernel_cr3 != 0 {
            mem.copy_frame(kernel_cr3, root);
            proof {
                assert forall|s: int, i: int| m0.holds(s) && s != root && 0 <= i < 512 implies #[trigger] mem.ent(s, i)
                    == m0.ent(s, i) by {
                    lemma_frames_disjoint(m0, s, root as int);
                }
                if managed_in_use(a0, kernel_cr3 as int) {
                    assert(kernel_cr3 != root);
                    assert forall|i: int| 0 <= i < 512 implies #[trigger] mem.ent(root as int, i) == m0.ent(kernel_cr3 as int, i) by {
                        lemma_frames_disjoint(m0, kernel_cr3 as int, root as int);
                    }
                }
            }
        }
        Some(PageTable { root })
    }

    /// Map the 4 KiB page at `virt` to the frame `phys` with `flags` (and
    /// present), creating missing tables on the way. Returns whether it did:
    /// not when a frame for a table is unavailable, or an entry points
    /// outside memory.
    pub fn map(&mut self, mem: &mut PhysMem, alloc: &mut FrameAllocator, virt: u64, phys: u64, flags: u64) -> (r: bool)
        requires
            old(mem).wf(),
            old(alloc).wf(),
        ensures
            final(self).root == old(self).root,
            final(mem).wf(),
            final(mem).base == old(mem).base,
            final(mem).words@.len() == old(mem).words@.len(),
            final(alloc).wf(),
            final(alloc).first() == old(alloc).first(),
            final(alloc).count() == old(alloc).count(),
            final(alloc).words() == old(alloc).words(),
            forall|g: int| 0 <= g < 64 * old(alloc).words() && old(alloc).is_used(g) ==> #[trigger] final(alloc).is_used(g),
            !old(mem).holds(old(self).root as int) ==> !r && final(mem).words@ == old(mem).words@,
            r ==> (walk_ok(*old(mem), *old(alloc), old(self).root as int, virt) ==> {
                &&& table_walk(*final(mem), old(self).root as int, virt) == Some(phys | flags | PAGE_PRESENT)
                &&& translation(*final(mem), old(self).root as int, virt) == Some(
                    ((phys | flags | PAGE_PRESENT) & !0xFFFu64) | (virt & 0xFFF),
                )
            }),
            walk_ok(*old(mem), *old(alloc), old(self).root as int, virt) ==> (r <==> pt_map_ready(
                *old(mem),
                *old(alloc),
                old(self).root as int,
                virt,
            )),
    {
        let root = self.root;
        if !mem.holds_frame(root) {
            return false;
        }
        let i4 = index_of(virt, 39);
        let i3 = index_of(virt, 30);
        let i2 = index_of(virt, 21);
        let i1 = index_of(virt, 12);
        let ghost m0 = *mem;
        let ghost a0 = *alloc;
        let ghost b0 = a0.bits();
        let ghost r0 = root as int;
        let ghost wk = walk_ok(m0, a0, r0, virt);
        let ghost s4 = m0.ent(r0, i4 as int);
        let ghost s3 = m0.ent(frame_of(s4), i3 as int);
        let ghost s2 = m0.ent(frame_of(s3), i2 as int);
        let ghost k = pt_tables_needed(m0, r0, virt);
        proof {
            lemma_fixed_entries();
            lemma_taken_bits_zero(b0);
            lemma_pt_alloc_ok(m0, a0, m0, a0, 0);
            a0.lemma_shape();
        }
        let t3 = match Self::next_table(mem, alloc, root, i4, true) {
            Some(t) => t,
            None => return false,
        };
        let ghost m1 = *mem;
        let ghost a1 = *alloc;
        let ghost y4 = s4 & PAGE_PRESENT != 0;
        let ghost c1: nat = if y4 { 0 } else { 1 };
        proof {
            a1.lemma_shape();
            if !y4 {
                assert forall|g: int| 0 <= g < 64 * a0.bits().len() && g != nth_free(b0, 0) implies #[trigger] bit_set(a1.bits(), g)
                    == bit_set(a0.bits(), g) by {
                    assert(a1.is_used(g) == a0.is_used(g));
                }
                lemma_taken_bits_step(b0, b0, a1.bits(), 0);
                if wk {
                    lemma_linked_once(m0, m1, r0, i4 as int, t3, t3 | TABLE_FLAGS);
                }
            }
            lemma_pt_alloc_ok(m0, a0, m1, a1, c1);
        }
        let ghost e3 = m1.ent(t3 as int, i3 as int);
        proof {
            if wk {
                if y4 {
                    assert(e3 == s3);
                } else {
                    assert(e3 == 0);
                }
            }
        }
        let t2 = match Self::next_table(mem, alloc, t3, i3, true) {
            Some(t) => t,
            None => return false,
        };
        let ghost m2 = *mem;
        let ghost a2 = *alloc;
        let ghost y3 = e3 & PAGE_PRESENT != 0;
        let ghost c2: nat = if y3 { c1 } else { c1 + 1 };
        proof {
            a2.lemma_shape();
            if !y3 {
                assert forall|g: int| 0 <= g < 64 * a1.bits().len() && g != nth_free(b0, c1) implies #[trigger] bit_set(a2.bits(), g)
                    == bit_set(a1.bits(), g) by {
                    assert(a2.is_used(g) == a1.is_used(g));
                }
                lemma_taken_bits_step(b0, a1.bits(), a2.bits(), c1);
                if wk {
                    assert(managed_in_use(a1, t3 as int));
                    lemma_linked_once(m1, m2, t3 as int, i3 as int, t2, t2 | TABLE_FLAGS);
                }
            }
            lemma_pt_alloc_ok(m0, a0, m2, a2, c2);
        }
        let ghost e2 = m2.ent(t2 as int, i2 as int);
        proof {
            if wk {
                if y4 && y3 {
                    assert(e2 == s2);
                } else {
                    assert(e2 == 0);
                }
            }
        }
        let t1 = match Self::next_table(mem, alloc, t2, i2, true) {
            Some(t) => t,
            None => return false,
        };
        let ghost m3 = *mem;
        let ghost a3 = *alloc;
        proof {
            let y2 = e2 & PAGE_PRESENT != 0;
            let c3: nat = if y2 { c2 } else { c2 + 1 };
            a3.lemma_shape();
            if !y2 {
                assert forall|g: int| 0 <= g < 64 * a2.bits().len() && g != nth_free(b0, c2) implies #[trigger] bit_set(a3.bits(), g)
                    == bit_set(a2.bits(), g) by {
                    assert(a3.is_used(g) == a2.is_used(g));
                }
                lemma_taken_bits_step(b0, a2.bits(), a3.bits(), c2);
            }
            if wk {
                assert(c3 == k);
                assert(pt_frames_ready(m0, a0, k)) by {
                    assert forall|j: nat| j < k implies #[trigger] nth_free(a0.bits(), j) < a0.count() && m0.holds(
                        a0.first() + nth_free(a0.bits(), j) * 4096) by {
                        if j == c2 && c2 < c3 {
                        } else if j == c1 && c1 < c2 {
                        } else {
                        }
                    }
                }
                assert(pt_map_ready(m0, a0, r0, virt));
            }
        }
        let v = phys | flags | PAGE_PRESENT;
        mem.write(t1, i1, v);
        proof {
            if walk_ok(m0, a0, root as int, virt) {
                assert(descended(m0, a0, m1, a1, root as int, i4 as int, t3));
                assert(descended(m1, a1, m2, a2, t3 as int, i3 as int, t2));
                assert(descended(m2, a2, m3, a3, t2 as int, i2 as int, t1));
                lemma_map_walk(m0, a0, m1, a1, m2, a2, m3, a3, *mem, root, virt, t3, t2, t1, v);
                assert(v & PAGE_PRESENT != 0) by (bit_vector)
                    requires v == phys | flags | 1;
            }
        }
        true
    }

    /// Map `pages` consecutive pages from `virt_base` to consecutive frames
    /// from `phys_base`; stops at the first page that cannot be mapped.
    pub fn map_region(
        &mut self,
        mem: &mut PhysMem,
        alloc: &mut FrameAllocator,
        virt_base: u64,
        phys_base: u64,
        pages: usize,
        flags: u64,
    ) -> (r: bool)
        requires
            old(mem).wf(),
            old(alloc).wf(),
            virt_base + pages * 4096 <= u64::MAX,
            phys_base + pages * 4096 <= u64::MAX,
        ensures
            final(self).root == old(self).root,
            final(mem).wf(),
            final(mem).base == old(mem).base,
            final(alloc).wf(),
            final(alloc).first() == old(alloc).first(),
            final(alloc).count() == old(alloc).count(),
            final(alloc).words() == old(alloc).words(),
            forall|g: int| 0 <= g < 64 * old(alloc).words() && old(alloc).is_used(g) ==> #[trigger] final(alloc).is_used(g),
            pages == 0 ==> r && final(mem).words@ == old(mem).words@,
            pages > 0 && !old(mem).holds(old(self).root as int) ==> !r && final(mem).words@ == old(mem).words@,
    {
        let mut i: u64 = 0;
        let n = pages as u64;
        while i < n
            invariant
                n == pages,
                i <= n,
                virt_base + n * 4096 <= u64::MAX,
                phys_base + n * 4096 <= u64::MAX,
                self.root == old(self).root,
                mem.wf(),
                mem.base == old(mem).base,
                mem.words@.len() == old(mem).words@.len(),
                alloc.wf(),
                alloc.first() == old(alloc).first(),
                alloc.count() == old(alloc).count(),
                alloc.words() == old(alloc).words(),
                forall|g: int| 0 <= g < 64 * old(alloc).words() && old(alloc).is_used(g) ==> #[trigger] alloc.is_used(g),
                !old(mem).holds(old(self).root as int) ==> mem.words@ == old(mem).words@ && i == 0,
                i == 0 ==> mem.words@ == old(mem).words@,
            decreases n - i,
        {
            assert(i * 4096 <= n * 4096) by (nonlinear_arith)
                requires i <= n;
            if !self.map(mem, alloc, virt_base + i * 4096, phys_base + i * 4096, flags) {
                return false;
            }
            i = i + 1;
        }
        true
    }
}

/// `lemma_linked` for a table linked once (zeroed before the entry is set).
proof fn lemma_linked_once(m: PhysMem, m2: PhysMem, table: int, idx: int, t: u64, v: u64)
    requires
        m.wf(),
        m.holds(table),
        m.holds(t as int),
        t as int != table,
        0 <= idx < 512,
        m2.base == m.base,
        m2.words@ == zeroed(m.words@, m.slot(t as int, 0)).update(m.slot(table, idx), v),
    ensures
        m2.words@.len() == m.words@.len(),
        m2.ent(table, idx) == v,
        forall|i: int| 0 <= i < 512 ==> #[trigger] m2.ent(t as int, i) == 0,
        forall|s: int, i: int|
            m.holds(s) && s != t && 0 <= i < 512 && !(s == table && i == idx) ==> #[trigger] m2.ent(s, i) == m.ent(s, i),
{
    let m3 = PhysMem { base: m.base, words: m2.words };
    lemma_frames_disjoint(m, table, t as int);
    assert(zeroed(zeroed(m.words@, m.slot(t as int, 0)).update(m.slot(table, idx), v), m.slot(t as int, 0)) =~= m2.words@);
    lemma_linked(m, m2, table, idx, t, v);
}

/// One step down the walk: `t` is the table entry `idx` of `table` led to,
/// either already present (nothing changed) or freshly allocated, zeroed and
/// linked.
pub open spec fn descended(
    m: PhysMem,
    a: FrameAllocator,
    m2: PhysMem,
    a2: FrameAllocator,
    table: int,
    idx: int,
    t: u64,
) -> bool {
    let e = m.ent(table, idx);
    &&& m2.base == m.base
    &&& m2.wf()
    &&& a2.first() == a.first()
    &&& a2.words() == a.words()
    &&& forall|g: int| 0 <= g < 64 * a.words() && a.is_used(g) ==> #[trigger] a2.is_used(g)
    &&& if e & PAGE_PRESENT != 0 {
        &&& m2.words@ == m.words@
        &&& t == frame_of(e)
        &&& m.holds(t as int)
    } else {
        &&& m2.holds(t as int)
        &&& !managed_in_use(a, t as int)
        &&& managed_in_use(a2, t as int)
        &&& m2.words@ == zeroed(m.words@, m.slot(t as int, 0)).update(m.slot(table, idx), t | TABLE_FLAGS)
    }
}

/// Three steps down the walk and the page entry written: the walk of
/// `virt` ends at the written entry, provided the tables that were already
/// there were distinct and in use.
#[verifier::rlimit(40)]
proof fn lemma_map_walk(
    m0: PhysMem,
    a0: FrameAllocator,
    m1: PhysMem,
    a1: FrameAllocator,
    m2: PhysMem,
    a2: FrameAllocator,
    m3: PhysMem,
    a3: FrameAllocator,
    m4: PhysMem,
    root: u64,
    virt: u64,
    t3: u64,
    t2: u64,
    t1: u64,
    v: u64,
)
    requires
        m0.wf(),
        m0.holds(root as int),
        walk_ok(m0, a0, root as int, virt),
        descended(m0, a0, m1, a1, root as int, index(virt, 39), t3),
        descended(m1, a1, m2, a2, t3 as int, index(virt, 30), t2),
        descended(m2, a2, m3, a3, t2 as int, index(virt, 21), t1),
        m4.base == m0.base,
        m3.holds(t1 as int),
        m4.words@ == m3.words@.update(m3.slot(t1 as int, index(virt, 12)), v),
        0 <= index(virt, 12) < 512,
        0 <= index(virt, 21) < 512,
        0 <= index(virt, 30) < 512,
        0 <= index(virt, 39) < 512,
    ensures
        table_walk(m4, root as int, virt) == Some(v),
{
    let r = root as int;
    let i4 = index(virt, 39);
    let i3 = index(virt, 30);
    let i2 = index(virt, 21);
    let i1 = index(virt, 12);
    lemma_fixed_entries();
    let e4 = m0.ent(r, i4);
    if e4 & PAGE_PRESENT == 0 {
        lemma_linked_once(m0, m1, r, i4, t3, t3 | TABLE_FLAGS);
        lemma_frame_of_entry(t3, TABLE_FLAGS);
    }
    assert(t3 as int != r);
    assert(frame_of(m1.ent(r, i4)) == t3 && m1.ent(r, i4) & PAGE_PRESENT != 0);
    assert(managed_in_use(a1, r) && managed_in_use(a1, t3 as int));
    let e3 = m1.ent(t3 as int, i3);
    if e3 & PAGE_PRESENT == 0 {
        lemma_linked_once(m1, m2, t3 as int, i3, t2, t2 | TABLE_FLAGS);
        lemma_frame_of_entry(t2, TABLE_FLAGS);
    } else {
        assert(m2.words@ == m1.words@);
        assert(m2.ent(t3 as int, i3) == e3);
        assert(m2.ent(r, i4) == m1.ent(r, i4));
    }
    assert(t2 as int != r && t2 != t3);
    assert(m2.ent(r, i4) == m1.ent(r, i4));
    assert(frame_of(m2.ent(t3 as int, i3)) == t2 && m2.ent(t3 as int, i3) & PAGE_PRESENT != 0);
    assert(managed_in_use(a2, r) && managed_in_use(a2, t3 as int) && managed_in_use(a2, t2 as int));
    let e2 = m2.ent(t2 as int, i2);
    if e2 & PAGE_PRESENT == 0 {
        lemma_linked_once(m2, m3, t2 as int, i2, t1, t1 | TABLE_FLAGS);
        lemma_frame_of_entry(t1, TABLE_FLAGS);
    } else {
        assert(m3.words@ == m2.words@);
        assert(m3.ent(t2 as int, i2) == e2);
        assert(m3.ent(r, i4) == m2.ent(r, i4));
        assert(m3.ent(t3 as int, i3) == m2.ent(t3 as int, i3));
    }
    assert(t1 as int != r && t1 != t3 && t1 != t2);
    assert(m3.ent(r, i4) == m1.ent(r, i4));
    assert(m3.ent(t3 as int, i3) == m2.ent(t3 as int, i3));
    assert(frame_of(m3.ent(t2 as int, i2)) == t1 && m3.ent(t2 as int, i2) & PAGE_PRESENT != 0);
    lemma_written(m3, m4, t1 as int, i1, v);
    assert(m4.ent(r, i4) == m3.ent(r, i4));
    assert(m4.ent(t3 as int, i3) == m3.ent(t3 as int, i3));
    assert(m4.ent(t2 as int, i2) == m3.ent(t2 as int, i2));
}

} // verus!
