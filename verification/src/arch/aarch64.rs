//! AArch64 paging: the kernel's tables and per-task 4-level tables
//! (L0 -> L1 -> L2 -> L3), mapping and unmapping user pages. At L1 and L2 an
//! entry whose low two bits are not 0b11 is a block, not a table.

use vstd::prelude::*;
use crate::frame_alloc::{FrameAllocator, PAGE_SIZE, first_free_from, lemma_first_free_is_free, lemma_frame_addr_fits};
use crate::arch::tables::{
    in_use, alloc_pt_page, leads_on, descend, entry_walk, leaf_table, path_distinct, map_ready, tables_needed, walk_held,
    frames_ready, nth_free, taken, alloc_ok, lemma_taken_zero, lemma_alloc_ok_taken, lemma_alloc_step,
};
use crate::mm::phys::{
    PhysMem, ENTRIES, index, frame_of, index_of, lemma_frames_disjoint, lemma_frame_of_entry, lemma_linked, lemma_written,
    lemma_fixed_entries,
};

verus! {

pub const PTE_VALID: u64 = 0x1;
/// Low bits of a table descriptor (a block descriptor has 0b01).
pub const PTE_TABLE: u64 = 0x3;
/// AP[2:1] = 10: read-only at EL0 and EL1.
pub const PTE_AP_RO: u64 = 0x80;
/// AP[2:1] = 00: read/write at EL0 and EL1.
pub const PTE_AP_RW: u64 = 0x0;
/// AP[2:1] = 01: read/write at EL1, no access at EL0.
pub const PTE_AP_KERNEL: u64 = 0x40;
pub const PTE_SH_INNER: u64 = 0x300;
pub const PTE_AF: u64 = 0x400;
pub const PTE_NG: u64 = 0x800;
pub const PTE_XN: u64 = 0x40_0000_0000_0000;
/// A kernel table descriptor.
pub const PTE_KERNEL_RW: u64 = 0x743;
/// A kernel 1 GiB block.
pub const PTE_KERNEL_BLOCK: u64 = 0x741;
/// A user table descriptor.
pub const PTE_USER_RW: u64 = 0x703;
/// A user read/write page.
pub const PTE_USER_PAGE: u64 = 0x701;
/// A user read-only page.
pub const PTE_USER_PAGE_RO: u64 = 0x781;

/// Where the kernel runs; mapped by the 1 GiB block at L1 index 1.
pub const KERNEL_VADDR: u64 = 0x4000_0000;
pub const FB_START: u64 = 0xF000_0000;
pub const MMIO_START: u64 = 0x0800_0000;

/// Root of a task's page tables: the physical address of its L0 table
/// (memory is identity mapped, so it is also its address).
#[derive(Clone, Copy)]
pub struct TaskPageTables {
    pub ttbr0_phys: usize,
}

/// The L3 entry for `v`, walking from the L0 table at `root` through
/// non-zero entries that are table descriptors at L1 and L2.
pub open spec fn user_walk(m: PhysMem, root: int, v: u64) -> Option<u64> {
    let e0 = m.ent(root, index(v, 39));
    let t1 = frame_of(e0);
    let e1 = m.ent(t1, index(v, 30));
    let t2 = frame_of(e1);
    let e2 = m.ent(t2, index(v, 21));
    let t3 = frame_of(e2);
    if m.holds(root) && leads_on(e0, false) && m.holds(t1) && leads_on(e1, true) && m.holds(t2) && leads_on(e2, true)
        && m.holds(t3) {
        Some(m.ent(t3, index(v, 12)))
    } else {
        None
    }
}

/// The tables already on `v`'s walk are distinct frames the allocator holds
/// in use.
pub open spec fn user_path_ok(m: PhysMem, a: FrameAllocator, root: int, v: u64) -> bool {
    let e0 = m.ent(root, index(v, 39));
    let t1 = frame_of(e0);
    let e1 = m.ent(t1, index(v, 30));
    let t2 = frame_of(e1);
    let e2 = m.ent(t2, index(v, 21));
    let t3 = frame_of(e2);
    &&& in_use(a, root)
    &&& (m.holds(root) && leads_on(e0, false)) ==> in_use(a, t1) && t1 != root
    &&& (m.holds(root) && leads_on(e0, false) && m.holds(t1) && leads_on(e1, true)) ==> in_use(a, t2) && t2 != root && t2
        != t1
    &&& (m.holds(root) && leads_on(e0, false) && m.holds(t1) && leads_on(e1, true) && m.holds(t2) && leads_on(e2, true))
        ==> in_use(a, t3) && t3 != root && t3 != t1 && t3 != t2
}

/// The L3 entry flags of a user page.
pub open spec fn user_flags(writable: bool) -> u64 {
    if writable { PTE_USER_PAGE } else { PTE_USER_PAGE_RO }
}

/// A fresh table linked with `PTE_USER_RW` leads on, to itself.
proof fn lemma_user_link(t: u64)
    requires
        t % 4096 == 0,
    ensures
        leads_on(t | PTE_USER_RW, true),
        leads_on(t | PTE_USER_RW, false),
        frame_of(t | PTE_USER_RW) == t,
{
    lemma_frame_of_entry(t, PTE_USER_RW);
    assert((t | 0x703u64) & 3 == 3) by (bit_vector);
}

/// Map a fresh frame at user address `vaddr` in a task's tables, creating
/// L1, L2 and L3 tables on the way where an entry is empty or (at L1 and L2)
/// a block; returns the frame. `None` when the allocator runs dry or an
/// entry points outside memory.
#[verifier::rlimit(60)]
pub fn map_user_page(
    task: &TaskPageTables,
    mem: &mut PhysMem,
    alloc: &mut FrameAllocator,
    vaddr: u64,
    writable: bool,
) -> (r: Option<usize>)
    requires
        old(mem).wf(),
        old(alloc).wf(),
        old(alloc).used_count() + 4 <= usize::MAX,
    ensures
        final(mem).wf(),
        final(mem).base == old(mem).base,
        final(mem).words@.len() == old(mem).words@.len(),
        final(alloc).wf(),
        final(alloc).total() == old(alloc).total(),
        final(alloc).capacity() == old(alloc).capacity(),
        forall|g: int| 0 <= g < old(alloc).capacity() && old(alloc).is_used(g) ==> #[trigger] final(alloc).is_used(g),
        r matches Some(f) ==> !in_use(*old(alloc), f as int) && in_use(*final(alloc), f as int),
        r matches Some(f) ==> (user_path_ok(*old(mem), *old(alloc), task.ttbr0_phys as int, vaddr) ==> user_walk(
            *final(mem),
            task.ttbr0_phys as int,
            vaddr,
        ) == Some((f as u64) | user_flags(writable))),
        r is Some <==> map_ready(*old(mem), *old(alloc), task.ttbr0_phys as int, vaddr, true),
{
    let root = task.ttbr0_phys as u64;
    if !mem.holds_frame(root) {
        return None;
    }
    let i0 = index_of(vaddr, 39);
    let i1 = index_of(vaddr, 30);
    let i2 = index_of(vaddr, 21);
    let i3 = index_of(vaddr, 12);
    let ghost m0 = *mem;
    let ghost a0 = *alloc;
    let ghost r0 = root as int;
    let ghost s0 = m0.ent(r0, i0 as int);
    let ghost s1 = m0.ent(frame_of(s0), i1 as int);
    let ghost s2 = m0.ent(frame_of(s1), i2 as int);
    let ghost k = tables_needed(m0, r0, vaddr, true);
    proof {
        lemma_taken_zero(a0);
        lemma_alloc_ok_taken(m0, a0, m0, a0, 0);
    }
    let t1 = match descend(mem, alloc, root, i0, PTE_USER_RW, false) {
        Some(t) => t,
        None => return None,
    };
    let ghost m1 = *mem;
    let ghost a1 = *alloc;
    let ghost c1: nat = if leads_on(s0, false) { 0 } else { 1 };
    proof {
        if !leads_on(s0, false) {
            lemma_alloc_step(a0, a0, a1, 0, t1);
            assert(m1.ent(t1 as int, i1 as int) == 0);
        }
        lemma_alloc_ok_taken(m0, a0, m1, a1, c1);
    }
    let t2 = match descend(mem, alloc, t1, i1, PTE_USER_RW, true) {
        Some(t) => t,
        None => return None,
    };
    let ghost m2 = *mem;
    let ghost a2 = *alloc;
    let ghost c2: nat = if leads_on(s0, false) && leads_on(s1, true) { 0 } else { c1 + 1 };
    proof {
        if !(leads_on(s0, false) && leads_on(s1, true)) {
            lemma_alloc_step(a0, a1, a2, c1, t2);
            assert(m2.ent(t2 as int, i2 as int) == 0);
        }
        lemma_alloc_ok_taken(m0, a0, m2, a2, c2);
    }
    let t3 = match descend(mem, alloc, t2, i2, PTE_USER_RW, true) {
        Some(t) => t,
        None => return None,
    };
    let ghost m3 = *mem;
    let ghost a3 = *alloc;
    let ghost c3: nat = if leads_on(s0, false) && leads_on(s1, true) && leads_on(s2, true) { 0 } else { c2 + 1 };
    proof {
        if !(leads_on(s0, false) && leads_on(s1, true) && leads_on(s2, true)) {
            lemma_alloc_step(a0, a2, a3, c2, t3);
        }
        lemma_alloc_ok_taken(m0, a0, m3, a3, c3);
        assert(c3 == k);
        assert(walk_held(m0, r0, vaddr, true));
        assert(frames_ready(m0, a0, k)) by {
            assert forall|j: nat| j < k implies #[trigger] nth_free(a0.bits(), j) < a0.capacity() && m0.holds(
                nth_free(a0.bits(), j) * 4096) by {
                if j == c2 && c2 < c3 {
                } else if j == c1 && c1 < c2 {
                } else {
                }
            }
        }
    }
    proof {
        lemma_first_free_is_free(alloc.bits(), 0);
        let ff = first_free_from(alloc.bits(), 0);
        if ff < alloc.capacity() {
            lemma_frame_addr_fits(*alloc, ff);
        }
    }
    let ghost f0 = first_free_from(alloc.bits(), 0);
    let frame = match alloc.alloc_frame() {
        Some(f) => f,
        None => return None,
    };
    assert(frame / PAGE_SIZE == f0) by (nonlinear_arith)
        requires frame == f0 * 4096, PAGE_SIZE == 4096, f0 >= 0;
    assert(!a3.is_used(f0));
    assert(!a0.is_used(f0)) by {
        if a0.is_used(f0) {
            assert(a1.is_used(f0));
            assert(a2.is_used(f0));
        }
    }
    let flags = if writable { PTE_USER_PAGE } else { PTE_USER_PAGE_RO };
    mem.write(t3, i3, frame as u64 | flags);
    proof {
        let v = frame as u64 | flags;
        assert(!leads_on(0u64, true) && !leads_on(0u64, false));
        if user_path_ok(m0, a0, root as int, vaddr) {
            let r = root as int;
            let e0 = m0.ent(r, i0 as int);
            if !leads_on(e0, false) {
                lemma_linked(m0, m1, r, i0 as int, t1, t1 | PTE_USER_RW);
                lemma_user_link(t1);
            }
            assert(t1 as int != r);
            assert(frame_of(m1.ent(r, i0 as int)) == t1 && leads_on(m1.ent(r, i0 as int), false));
            assert(in_use(a1, r) && in_use(a1, t1 as int));
            let e1 = m1.ent(t1 as int, i1 as int);
            if !leads_on(e1, true) {
                lemma_linked(m1, m2, t1 as int, i1 as int, t2, t2 | PTE_USER_RW);
                lemma_user_link(t2);
            } else {
                assert(leads_on(e0, false));
            }
            assert(t2 as int != r && t2 != t1);
            assert(m2.ent(r, i0 as int) == m1.ent(r, i0 as int));
            assert(frame_of(m2.ent(t1 as int, i1 as int)) == t2 && leads_on(m2.ent(t1 as int, i1 as int), true));
            assert(in_use(a2, r) && in_use(a2, t1 as int) && in_use(a2, t2 as int));
            let e2 = m2.ent(t2 as int, i2 as int);
            if !leads_on(e2, true) {
                lemma_linked(m2, m3, t2 as int, i2 as int, t3, t3 | PTE_USER_RW);
                lemma_user_link(t3);
            } else {
                assert(leads_on(e1, true) && leads_on(e0, false));
            }
            assert(t3 as int != r && t3 != t1 && t3 != t2);
            assert(m3.ent(r, i0 as int) == m1.ent(r, i0 as int));
            assert(m3.ent(t1 as int, i1 as int) == m2.ent(t1 as int, i1 as int));
            assert(frame_of(m3.ent(t2 as int, i2 as int)) == t3 && leads_on(m3.ent(t2 as int, i2 as int), true));
            lemma_written(m3, *mem, t3 as int, i3 as int, v);
            assert(mem.ent(r, i0 as int) == m3.ent(r, i0 as int));
            assert(mem.ent(t1 as int, i1 as int) == m3.ent(t1 as int, i1 as int));
            assert(mem.ent(t2 as int, i2 as int) == m3.ent(t2 as int, i2 as int));
            assert(mem.ent(t3 as int, i3 as int) == v);
        }
    }
    Some(frame)
}

/// Unmap user address `vaddr`: when its walk reaches a non-zero page
/// entry, the entry is cleared and the frame it names is freed; otherwise
/// nothing changes.
pub fn unmap_user_page(task: &TaskPageTables, mem: &mut PhysMem, alloc: &mut FrameAllocator, vaddr: u64)
    requires
        old(mem).wf(),
        old(alloc).wf(),
        entry_walk(*old(mem), task.ttbr0_phys as int, vaddr) matches Some(e) ==> (e != 0 && ((e & !0xFFFu64) as usize)
            / PAGE_SIZE < old(alloc).total() ==> old(alloc).used_count() > 0),
    ensures
        final(mem).wf(),
        final(mem).base == old(mem).base,
        final(alloc).wf(),
        final(alloc).total() == old(alloc).total(),
        final(alloc).capacity() == old(alloc).capacity(),
        match entry_walk(*old(mem), task.ttbr0_phys as int, vaddr) {
            Some(e) => if e != 0 {
                let f = ((e & !0xFFFu64) as usize) / PAGE_SIZE;
                &&& final(mem).words@ == old(mem).words@.update(
                    old(mem).slot(leaf_table(*old(mem), task.ttbr0_phys as int, vaddr), index(vaddr, 12)),
                    0,
                )
                &&& f < old(alloc).total() ==> !final(alloc).is_used(f as int)
                &&& forall|g: int| 0 <= g < old(alloc).capacity() && g != f ==> #[trigger] final(alloc).is_used(g)
                    == old(alloc).is_used(g)
                &&& path_distinct(*old(mem), task.ttbr0_phys as int, vaddr) ==> entry_walk(
                    *final(mem),
                    task.ttbr0_phys as int,
                    vaddr,
                ) == Some(0u64)
            } else {
                &&& final(mem).words@ == old(mem).words@
                &&& *final(alloc) == *old(alloc)
            },
            None => {
                &&& final(mem).words@ == old(mem).words@
                &&& *final(alloc) == *old(alloc)
            },
        },
{
    let root = task.ttbr0_phys as u64;
    if !mem.holds_frame(root) {
        return;
    }
    let i4 = index_of(vaddr, 39);
    let e4 = mem.read(root, i4);
    if e4 == 0 {
        return;
    }
    let t3 = e4 & !0xFFF;
    if !mem.holds_frame(t3) {
        return;
    }
    let i3 = index_of(vaddr, 30);
    let e3 = mem.read(t3, i3);
    if e3 == 0 {
        return;
    }
    let t2 = e3 & !0xFFF;
    if !mem.holds_frame(t2) {
        return;
    }
    let i2 = index_of(vaddr, 21);
    let e2 = mem.read(t2, i2);
    if e2 == 0 {
        return;
    }
    let t1 = e2 & !0xFFF;
    if !mem.holds_frame(t1) {
        return;
    }
    let i1 = index_of(vaddr, 12);
    let e1 = mem.read(t1, i1);
    if e1 != 0 {
        let phys = (e1 & !0xFFF) as usize;
        alloc.free_frame(phys);
        let ghost m0 = *mem;
        mem.write(t1, i1, 0);
        proof {
            lemma_written(m0, *mem, t1 as int, i1 as int, 0);
        }
    }
}

/// A task's L0 table: a fresh frame with all the kernel's L0 entries copied
/// in. `None` when no frame is free or the kernel table is not in memory.
pub fn create_task_page_tables(kernel_ttbr0_phys: usize, mem: &mut PhysMem, alloc: &mut FrameAllocator) -> (r: Option<
    TaskPageTables,
>)
    requires
        old(mem).wf(),
        old(alloc).wf(),
        old(alloc).used_count() < usize::MAX,
    ensures
        final(mem).wf(),
        final(mem).base == old(mem).base,
        final(alloc).wf(),
        final(alloc).total() == old(alloc).total(),
        final(alloc).capacity() == old(alloc).capacity(),
        forall|g: int| 0 <= g < old(alloc).capacity() && old(alloc).is_used(g) ==> #[trigger] final(alloc).is_used(g),
        !old(mem).holds(kernel_ttbr0_phys as int) ==> r is None && final(mem).words@ == old(mem).words@,
        match r {
            Some(t) => {
                let p = t.ttbr0_phys as int;
                &&& final(mem).holds(p)
                &&& !in_use(*old(alloc), p)
                &&& in_use(*final(alloc), p)
                &&& forall|s: int, i: int| old(mem).holds(s) && s != p && 0 <= i < 512 ==> #[trigger] final(mem).ent(s, i)
                    == old(mem).ent(s, i)
                &&& in_use(*old(alloc), kernel_ttbr0_phys as int) ==> forall|i: int|
                    0 <= i < 512 ==> #[trigger] final(mem).ent(p, i) == old(mem).ent(kernel_ttbr0_phys as int, i)
            },
            None => final(mem).words@ == old(mem).words@,
        },
        r is Some <==> old(mem).holds(kernel_ttbr0_phys as int) && alloc_ok(*old(mem), *old(alloc)),
{
    let kernel = kernel_ttbr0_phys as u64;
    if !mem.holds_frame(kernel) {
        return None;
    }
    let ghost m0 = *mem;
    let l0 = match alloc_pt_page(mem, alloc) {
        Some(t) => t,
        None => return None,
    };
    let ghost m1 = *mem;
    proof {
        assert forall|s: int, i: int| m0.holds(s) && s != l0 && 0 <= i < 512 implies #[trigger] m1.ent(s, i) == m0.ent(
            s,
            i,
        ) by {
            lemma_frames_disjoint(m0, s, l0 as int);
        }
        assert forall|i: int| 0 <= i < 512 implies #[trigger] m1.ent(l0 as int, i) == 0 by {}
    }
    let mut i: usize = 0;
    while i < ENTRIES
        invariant
            i <= ENTRIES,
            mem.wf(),
            mem.base == m1.base,
            mem.words@.len() == m1.words@.len(),
            m1.wf(),
            m1.holds(kernel as int),
            m1.holds(l0 as int),
            forall|s: int, j: int| m1.holds(s) && s != l0 && 0 <= j < 512 ==> #[trigger] mem.ent(s, j) == m1.ent(s, j),
            forall|j: int|
                0 <= j < 512 ==> #[trigger] mem.ent(l0 as int, j) == if j < i { m1.ent(kernel as int, j) } else {
                    m1.ent(l0 as int, j)
                },
            kernel as int != l0 ==> forall|j: int| 0 <= j < 512 ==> #[trigger] mem.ent(kernel as int, j) == m1.ent(kernel as int, j),
        decreases ENTRIES - i,
    {
        let v = mem.read(kernel, i);
        let ghost mb = *mem;
        mem.write(l0, i, v);
        proof {
            lemma_written(mb, *mem, l0 as int, i as int, v);
            if kernel as int == l0 {
                assert(v == m1.ent(kernel as int, i as int));
            }
        }
        i = i + 1;
    }
    Some(TaskPageTables { ttbr0_phys: l0 as usize })
}


/// The kernel's tables rooted at `p`: L0 entry 0 points at an L1 table
/// whose entry 1 is a 1 GiB kernel block at physical 0 (the virtual
/// gigabyte from `KERNEL_VADDR`); all else is empty.
pub open spec fn kernel_tables(m: PhysMem, p: int) -> bool {
    let l1 = frame_of(m.ent(p, 0));
    &&& m.holds(p) && m.holds(l1) && p != l1
    &&& forall|i: int| 0 <= i < 512 ==> #[trigger] m.ent(p, i) == if i == 0 { (l1 as u64) | PTE_TABLE } else { 0u64 }
    &&& forall|i: int| 0 <= i < 512 ==> #[trigger] m.ent(l1, i) == if i == 1 { PTE_KERNEL_BLOCK } else { 0u64 }
}

/// Build the kernel's tables (see `kernel_tables`) in two fresh frames;
/// returns the L0 table's address, or `None` when frames run out. The
/// framebuffer and device ranges share L0 entry 0 with the kernel, which is
/// taken by then, so they get no mapping of their own.
pub fn setup_kernel_page_tables(mem: &mut PhysMem, alloc: &mut FrameAllocator) -> (r: Option<u64>)
    requires
        old(mem).wf(),
        old(alloc).wf(),
        old(alloc).used_count() + 4 <= usize::MAX,
    ensures
        final(mem).wf(),
        final(mem).base == old(mem).base,
        final(alloc).wf(),
        final(alloc).total() == old(alloc).total(),
        final(alloc).capacity() == old(alloc).capacity(),
        forall|g: int| 0 <= g < old(alloc).capacity() && old(alloc).is_used(g) ==> #[trigger] final(alloc).is_used(g),
        r matches Some(p) ==> {
            let l1 = frame_of(final(mem).ent(p as int, 0));
            &&& kernel_tables(*final(mem), p as int)
            &&& !in_use(*old(alloc), p as int) && !in_use(*old(alloc), l1)
            &&& in_use(*final(alloc), p as int) && in_use(*final(alloc), l1)
            &&& forall|s: int, i: int| old(mem).holds(s) && s != p && s != l1 && 0 <= i < 512 ==> #[trigger] final(mem).ent(s, i)
                == old(mem).ent(s, i)
        },
        r is Some <==> frames_ready(*old(mem), *old(alloc), 2),
{
    let ghost m0 = *mem;
    let ghost a0 = *alloc;
    proof {
        lemma_taken_zero(a0);
        lemma_alloc_ok_taken(m0, a0, m0, a0, 0);
    }
    let l0 = match alloc_pt_page(mem, alloc) {
        Some(t) => t,
        None => return None,
    };
    proof {
        lemma_alloc_step(a0, a0, *alloc, 0, l0);
        lemma_alloc_ok_taken(m0, a0, *mem, *alloc, 1);
    }
    let l0_idx = index_of(KERNEL_VADDR, 39);
    assert(l0_idx == 0) by {
        lemma_fixed_entries();
    }
    let l1 = match alloc_pt_page(mem, alloc) {
        Some(t) => t,
        None => return None,
    };
    let ghost m2 = *mem;
    assert(l1 != l0);
    proof {
        assert forall|j: nat| j < 2 implies #[trigger] nth_free(a0.bits(), j) < a0.capacity() && m0.holds(
            nth_free(a0.bits(), j) * 4096) by {
            if j == 0 {
            } else {
            }
        }
    }
    mem.write(l0, l0_idx, l1 | PTE_TABLE);
    let ghost m3 = *mem;
    let l1_idx = index_of(KERNEL_VADDR, 30);
    assert(l1_idx == 1) by {
        lemma_fixed_entries();
    }
    proof {
        lemma_fixed_entries();
    }
    mem.write(l1, l1_idx, 0u64 | PTE_KERNEL_BLOCK);
    let ghost m4 = *mem;
    proof {
        lemma_frames_disjoint(m0, l0 as int, l1 as int);
        lemma_written(m2, m3, l0 as int, 0, l1 | PTE_TABLE);
        lemma_written(m3, m4, l1 as int, 1, PTE_KERNEL_BLOCK);
        lemma_frame_of_entry(l1, PTE_TABLE);
        assert((l1 | PTE_TABLE) != 0) by (bit_vector);
    }
    let fb_l0_idx = index_of(FB_START, 39);
    assert(fb_l0_idx == 0) by {
        lemma_fixed_entries();
    }
    if mem.read(l0, fb_l0_idx) == 0 {
        let fb_l1 = match alloc_pt_page(mem, alloc) {
            Some(t) => t,
            None => return None,
        };
        mem.write(l0, fb_l0_idx, fb_l1 | PTE_TABLE);
        mem.write(fb_l1, index_of(FB_START, 30), FB_START | PTE_KERNEL_BLOCK);
    }
    let mmio_l0_idx = index_of(MMIO_START, 39);
    assert(mmio_l0_idx == 0) by {
        lemma_fixed_entries();
    }
    if mem.read(l0, mmio_l0_idx) == 0 {
        let mmio_l1 = match alloc_pt_page(mem, alloc) {
            Some(t) => t,
            None => return None,
        };
        mem.write(l0, mmio_l0_idx, mmio_l1 | PTE_TABLE);
        mem.write(mmio_l1, index_of(MMIO_START, 30), MMIO_START | PTE_KERNEL_BLOCK);
    }
    proof {
        assert forall|s: int, i: int| m0.holds(s) && s != l0 && s != l1 && 0 <= i < 512 implies #[trigger] mem.ent(s, i)
            == m0.ent(s, i) by {
            lemma_frames_disjoint(m0, s, l0 as int);
            lemma_frames_disjoint(m0, s, l1 as int);
        }
        assert forall|i: int| 0 <= i < 512 implies #[trigger] mem.ent(l0 as int, i) == if i == 0 {
            l1 | PTE_TABLE
        } else {
            0u64
        } by {
            lemma_frames_disjoint(m0, l0 as int, l1 as int);
        }
        assert forall|i: int| 0 <= i < 512 implies #[trigger] mem.ent(l1 as int, i) == if i == 1 {
            PTE_KERNEL_BLOCK
        } else {
            0u64
        } by {
            lemma_frames_disjoint(m0, l0 as int, l1 as int);
        }
    }
    Some(l0)
}

} // verus!
