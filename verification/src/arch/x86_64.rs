//! x86_64 paging: the kernel's identity map, per-task 4-level page tables
//! (PML4 -> PDPT -> PD -> PT), mapping and unmapping user pages, and
//! copy-on-write faults. Tables live in `PhysMem`; their frames come from
//! the bitmap frame allocator.

use vstd::prelude::*;
use crate::frame_alloc::{FrameAllocator, PAGE_SIZE, first_free_from, lemma_first_free_is_free, lemma_frame_addr_fits};
use crate::arch::tables::{
    in_use, alloc_pt_page, leads_on, descend, entry_walk, leaf_table, path_distinct, map_ready, tables_needed, walk_held,
    frames_ready, nth_free, taken, alloc_ok, lemma_taken_zero, lemma_alloc_ok_taken, lemma_alloc_step,
};
use crate::mm::phys::{
    PhysMem, ENTRIES, index, frame_of, zeroed, index_of, lemma_frames_disjoint, lemma_frame_of_entry, lemma_linked,
    lemma_written, copied, lemma_fixed_entries,
};

verus! {

pub const PTE_PRESENT: u64 = 0x1;
pub const PTE_WRITABLE: u64 = 0x2;
pub const PTE_USER: u64 = 0x4;
pub const PTE_ACCESSED: u64 = 0x20;
pub const PTE_DIRTY: u64 = 0x40;
/// A 2 MiB (PD) or 1 GiB (PDPT) page rather than a table.
pub const PTE_HUGE: u64 = 0x80;
pub const PTE_GLOBAL: u64 = 0x100;
/// Software bit: the page is shared copy-on-write.
pub const PTE_COW: u64 = 0x200;
/// Present, writable, accessed, dirty, global.
pub const PTE_KERNEL: u64 = 0x163;
/// Present, writable, user, accessed, dirty.
pub const PTE_USER_RW: u64 = 0x67;
/// Present, user, accessed.
pub const PTE_USER_RO: u64 = 0x25;
/// The physical-address bits of an entry.
pub const PTE_ADDR_MASK: u64 = 0x000F_FFFF_FFFF_F000;

/// Where the kernel image is mapped, and how much of it.
pub const KERNEL_VADDR: u64 = 0x1000_0000;
pub const KERNEL_SIZE: usize = 0x400_0000;
/// Device memory (framebuffer, local APIC) mapped 1:1 with 1 GiB pages.
pub const MMIO_START: u64 = 0xC000_0000;
pub const MMIO_END: u64 = 0x1_0000_0000;

/// Root of a task's page tables: the physical address of its PML4
/// (physical memory is identity mapped, so it is also its address).
#[derive(Clone, Copy)]
pub struct TaskPageTables {
    pub pml4_phys: usize,
}

/// The tables already on `v`'s walk are distinct frames the allocator
/// holds in use (so fresh frames cannot land on them).
pub open spec fn user_path_ok(m: PhysMem, a: FrameAllocator, root: int, v: u64) -> bool {
    let e4 = m.ent(root, index(v, 39));
    let t3 = frame_of(e4);
    let e3 = m.ent(t3, index(v, 30));
    let t2 = frame_of(e3);
    let e2 = m.ent(t2, index(v, 21));
    let t1 = frame_of(e2);
    &&& in_use(a, root)
    &&& (m.holds(root) && e4 != 0) ==> in_use(a, t3) && t3 != root
    &&& (m.holds(root) && e4 != 0 && m.holds(t3) && e3 != 0) ==> in_use(a, t2) && t2 != root && t2 != t3
    &&& (m.holds(root) && e4 != 0 && m.holds(t3) && e3 != 0 && m.holds(t2) && e2 != 0) ==> in_use(a, t1) && t1
        != root && t1 != t3 && t1 != t2
}

/// The leaf entry flags for a user page.
pub open spec fn user_flags(writable: bool) -> u64 {
    if writable { PTE_USER_RW } else { PTE_USER_RO }
}

/// Map a fresh frame at user address `vaddr` in a task's tables, creating
/// the PDPT, PD and PT on the way where their entries are empty; returns
/// the frame. `None` when the allocator runs dry or an entry points outside
/// memory.
pub fn map_user_page(
    task: &TaskPageTables,
    mem: &mut PhysMem,
    alloc: &mut FrameAllocator,
    vaddr: u64,
    writable: bool,
) -> (r: Option<usize>)
    requires
        old(mem).wf(),
        old(alloc).wf(),
        old(alloc).used_count() + 4 <= usize::MAX,
    ensures
        final(mem).wf(),
        final(mem).base == old(mem).base,
        final(mem).words@.len() == old(mem).words@.len(),
        final(alloc).wf(),
        final(alloc).total() == old(alloc).total(),
        final(alloc).capacity() == old(alloc).capacity(),
        forall|g: int| 0 <= g < old(alloc).capacity() && old(alloc).is_used(g) ==> #[trigger] final(alloc).is_used(g),
        r matches Some(f) ==> !in_use(*old(alloc), f as int) && in_use(*final(alloc), f as int),
        r matches Some(f) ==> (user_path_ok(*old(mem), *old(alloc), task.pml4_phys as int, vaddr) ==> entry_walk(
            *final(mem),
            task.pml4_phys as int,
            vaddr,
        ) == Some((f as u64) | user_flags(writable)) && path_distinct(*final(mem), task.pml4_phys as int, vaddr)),
        r is Some <==> map_ready(*old(mem), *old(alloc), task.pml4_phys as int, vaddr, false),
{
    let root = task.pml4_phys as u64;
    if !mem.holds_frame(root) {
        return None;
    }
    let i4 = index_of(vaddr, 39);
    let i3 = index_of(vaddr, 30);
    let i2 = index_of(vaddr, 21);
    let i1 = index_of(vaddr, 12);
    let ghost m0 = *mem;
    let ghost a0 = *alloc;
    let ghost r0 = root as int;
    let ghost s0 = m0.ent(r0, i4 as int);
    let ghost s1 = m0.ent(frame_of(s0), i3 as int);
    let ghost s2 = m0.ent(frame_of(s1), i2 as int);
    let ghost k = tables_needed(m0, r0, vaddr, false);
    proof {
        lemma_taken_zero(a0);
        lemma_alloc_ok_taken(m0, a0, m0, a0, 0);
    }
    let t3 = match descend(mem, alloc, root, i4, PTE_USER_RW, false) {
        Some(t) => t,
        None => return None,
    };
    let ghost m1 = *mem;
    let ghost a1 = *alloc;
    let ghost c1: nat = if leads_on(s0, false) { 0 } else { 1 };
    proof {
        if !leads_on(s0, false) {
            lemma_alloc_step(a0, a0, a1, 0, t3);
            assert(m1.ent(t3 as int, i3 as int) == 0);
        }
        lemma_alloc_ok_taken(m0, a0, m1, a1, c1);
    }
    let t2 = match descend(mem, alloc, t3, i3, PTE_USER_RW, false) {
        Some(t) => t,
        None => return None,
    };
    let ghost m2 = *mem;
    let ghost a2 = *alloc;
    let ghost c2: nat = if leads_on(s0, false) && leads_on(s1, false) { 0 } else { c1 + 1 };
    proof {
        if !(leads_on(s0, false) && leads_on(s1, false)) {
            lemma_alloc_step(a0, a1, a2, c1, t2);
            assert(m2.ent(t2 as int, i2 as int) == 0);
        }
        lemma_alloc_ok_taken(m0, a0, m2, a2, c2);
    }
    let t1 = match descend(mem, alloc, t2, i2, PTE_USER_RW, false) {
        Some(t) => t,
        None => return None,
    };
    let ghost m3 = *mem;
    let ghost a3 = *alloc;
    let ghost c3: nat = if leads_on(s0, false) && leads_on(s1, false) && leads_on(s2, false) { 0 } else { c2 + 1 };
    proof {
        if !(leads_on(s0, false) && leads_on(s1, false) && leads_on(s2, false)) {
            lemma_alloc_step(a0, a2, a3, c2, t1);
        }
        lemma_alloc_ok_taken(m0, a0, m3, a3, c3);
        assert(c3 == k);
        assert(walk_held(m0, r0, vaddr, false));
        assert(frames_ready(m0, a0, k)) by {
            assert forall|j: nat| j < k implies #[trigger] nth_free(a0.bits(), j) < a0.capacity() && m0.holds(
                nth_free(a0.bits(), j) * 4096) by {
                if j == c2 && c2 < c3 {
                } else if j == c1 && c1 < c2 {
                } else {
                }
            }
        }
        lemma_first_free_is_free(alloc.bits(), 0);
        let ff = first_free_from(alloc.bits(), 0);
        if ff < alloc.capacity() {
            lemma_frame_addr_fits(*alloc, ff);
        }
    }
    let ghost f0 = first_free_from(alloc.bits(), 0);
    let frame = match alloc.alloc_frame() {
        Some(f) => f,
        None => return None,
    };
    assert(frame / PAGE_SIZE == f0) by (nonlinear_arith)
        requires frame == f0 * 4096, PAGE_SIZE == 4096, f0 >= 0;
    assert(!a3.is_used(f0));
    assert(!a0.is_used(f0)) by {
        if a0.is_used(f0) {
            assert(a1.is_used(f0));
            assert(a2.is_used(f0));
        }
    }
    let flags = if writable { PTE_USER_RW } else { PTE_USER_RO };
    mem.write(t1, i1, frame as u64 | flags);
    proof {
        let v = frame as u64 | flags;
        if user_path_ok(m0, a0, root as int, vaddr) {
            let r = root as int;
            let e4 = m0.ent(r, i4 as int);
            // The PDPT.
            if e4 == 0 {
                lemma_linked(m0, m1, r, i4 as int, t3, t3 | PTE_USER_RW);
                lemma_frame_of_entry(t3, PTE_USER_RW);
            }
            assert(t3 as int != r);
            assert(frame_of(m1.ent(r, i4 as int)) == t3 && m1.ent(r, i4 as int) != 0);
            assert(in_use(a1, r) && in_use(a1, t3 as int));
            // The PD.
            let e3 = m1.ent(t3 as int, i3 as int);
            if e3 == 0 {
                lemma_linked(m1, m2, t3 as int, i3 as int, t2, t2 | PTE_USER_RW);
                lemma_frame_of_entry(t2, PTE_USER_RW);
            } else {
                assert(e4 != 0);
            }
            assert(t2 as int != r && t2 != t3);
            assert(m2.ent(r, i4 as int) == m1.ent(r, i4 as int));
            assert(frame_of(m2.ent(t3 as int, i3 as int)) == t2 && m2.ent(t3 as int, i3 as int) != 0);
            assert(in_use(a2, r) && in_use(a2, t3 as int) && in_use(a2, t2 as int));
            // The PT.
            let e2 = m2.ent(t2 as int, i2 as int);
            if e2 == 0 {
                lemma_linked(m2, m3, t2 as int, i2 as int, t1, t1 | PTE_USER_RW);
                lemma_frame_of_entry(t1, PTE_USER_RW);
            } else {
                assert(e3 != 0 && e4 != 0);
            }
            assert(t1 as int != r && t1 != t3 && t1 != t2);
            assert(m3.ent(r, i4 as int) == m1.ent(r, i4 as int));
            assert(m3.ent(t3 as int, i3 as int) == m2.ent(t3 as int, i3 as int));
            assert(frame_of(m3.ent(t2 as int, i2 as int)) == t1 && m3.ent(t2 as int, i2 as int) != 0);
            // The page.
            lemma_written(m3, *mem, t1 as int, i1 as int, v);
            assert(mem.ent(r, i4 as int) == m3.ent(r, i4 as int));
            assert(mem.ent(t3 as int, i3 as int) == m3.ent(t3 as int, i3 as int));
            assert(mem.ent(t2 as int, i2 as int) == m3.ent(t2 as int, i2 as int));
            assert(mem.ent(t1 as int, i1 as int) == v);
        }
    }
    Some(frame)
}

/// Unmap user address `vaddr`: when its walk reaches a non-zero page
/// entry, the entry is cleared and the frame it names is freed; otherwise
/// nothing changes.
pub fn unmap_user_page(task: &TaskPageTables, mem: &mut PhysMem, alloc: &mut FrameAllocator, vaddr: u64)
    requires
        old(mem).wf(),
        old(alloc).wf(),
        entry_walk(*old(mem), task.pml4_phys as int, vaddr) matches Some(e) ==> (e != 0 && ((e & !0xFFFu64) as usize)
            / PAGE_SIZE < old(alloc).total() ==> old(alloc).used_count() > 0),
    ensures
        final(mem).wf(),
        final(mem).base == old(mem).base,
        final(alloc).wf(),
        final(alloc).total() == old(alloc).total(),
        final(alloc).capacity() == old(alloc).capacity(),
        match entry_walk(*old(mem), task.pml4_phys as int, vaddr) {
            Some(e) => if e != 0 {
                let f = ((e & !0xFFFu64) as usize) / PAGE_SIZE;
                &&& final(mem).words@ == old(mem).words@.update(
                    old(mem).slot(leaf_table(*old(mem), task.pml4_phys as int, vaddr), index(vaddr, 12)),
                    0,
                )
                &&& f < old(alloc).total() ==> !final(alloc).is_used(f as int)
                &&& forall|g: int| 0 <= g < old(alloc).capacity() && g != f ==> #[trigger] final(alloc).is_used(g)
                    == old(alloc).is_used(g)
                &&& path_distinct(*old(mem), task.pml4_phys as int, vaddr) ==> entry_walk(
                    *final(mem),
                    task.pml4_phys as int,
                    vaddr,
                ) == Some(0u64)
            } else {
                &&& final(mem).words@ == old(mem).words@
                &&& *final(alloc) == *old(alloc)
            },
            None => {
                &&& final(mem).words@ == old(mem).words@
                &&& *final(alloc) == *old(alloc)
            },
        },
{
    let root = task.pml4_phys as u64;
    if !mem.holds_frame(root) {
        return;
    }
    let i4 = index_of(vaddr, 39);
    let e4 = mem.read(root, i4);
    if e4 == 0 {
        return;
    }
    let t3 = e4 & !0xFFF;
    if !mem.holds_frame(t3) {
        return;
    }
    let i3 = index_of(vaddr, 30);
    let e3 = mem.read(t3, i3);
    if e3 == 0 {
        return;
    }
    let t2 = e3 & !0xFFF;
    if !mem.holds_frame(t2) {
        return;
    }
    let i2 = index_of(vaddr, 21);
    let e2 = mem.read(t2, i2);
    if e2 == 0 {
        return;
    }
    let t1 = e2 & !0xFFF;
    if !mem.holds_frame(t1) {
        return;
    }
    let i1 = index_of(vaddr, 12);
    let e1 = mem.read(t1, i1);
    if e1 != 0 {
        let phys = (e1 & !0xFFF) as usize;
        alloc.free_frame(phys);
        let ghost m0 = *mem;
        mem.write(t1, i1, 0);
        proof {
            lemma_written(m0, *mem, t1 as int, i1 as int, 0);
        }
    }
}

/// A task's top-level table: a fresh zeroed PML4 whose upper half (entries
/// 256..512) is copied from the kernel's, so the kernel stays mapped in
/// every task. `None` when no frame is free or the kernel table is not in
/// memory.
pub fn create_task_page_tables(kernel_pml4_phys: usize, mem: &mut PhysMem, alloc: &mut FrameAllocator) -> (r: Option<
    TaskPageTables,
>)
    requires
        old(mem).wf(),
        old(alloc).wf(),
        old(alloc).used_count() < usize::MAX,
    ensures
        final(mem).wf(),
        final(mem).base == old(mem).base,
        final(alloc).wf(),
        final(alloc).total() == old(alloc).total(),
        final(alloc).capacity() == old(alloc).capacity(),
        forall|g: int| 0 <= g < old(alloc).capacity() && old(alloc).is_used(g) ==> #[trigger] final(alloc).is_used(g),
        !old(mem).holds(kernel_pml4_phys as int) ==> r is None && final(mem).words@ == old(mem).words@,
        match r {
            Some(t) => {
                let p = t.pml4_phys as int;
                &&& final(mem).holds(p)
                &&& !in_use(*old(alloc), p)
                &&& in_use(*final(alloc), p)
                &&& forall|s: int, i: int| old(mem).holds(s) && s != p && 0 <= i < 512 ==> #[trigger] final(mem).ent(s, i)
                    == old(mem).ent(s, i)
                &&& in_use(*old(alloc), kernel_pml4_phys as int) ==> forall|i: int|
                    0 <= i < 512 ==> #[trigger] final(mem).ent(p, i) == if i >= 256 {
                        old(mem).ent(kernel_pml4_phys as int, i)
                    } else {
                        0u64
                    }
            },
            None => final(mem).words@ == old(mem).words@,
        },
        r is Some <==> old(mem).holds(kernel_pml4_phys as int) && alloc_ok(*old(mem), *old(alloc)),
{
    let kernel = kernel_pml4_phys as u64;
    if !mem.holds_frame(kernel) {
        return None;
    }
    let ghost m0 = *mem;
    let l0 = match alloc_pt_page(mem, alloc) {
        Some(t) => t,
        None => return None,
    };
    let ghost m1 = *mem;
    proof {
        assert forall|s: int, i: int| m0.holds(s) && s != l0 && 0 <= i < 512 implies #[trigger] m1.ent(s, i) == m0.ent(
            s,
            i,
        ) by {
            lemma_frames_disjoint(m0, s, l0 as int);
        }
        assert forall|i: int| 0 <= i < 512 implies #[trigger] m1.ent(l0 as int, i) == 0 by {}
    }
    let mut i: usize = 256;
    while i < ENTRIES
        invariant
            256 <= i <= ENTRIES,
            mem.wf(),
            mem.base == m1.base,
            mem.words@.len() == m1.words@.len(),
            m1.wf(),
            m1.holds(kernel as int),
            m1.holds(l0 as int),
            forall|s: int, j: int| m1.holds(s) && s != l0 && 0 <= j < 512 ==> #[trigger] mem.ent(s, j) == m1.ent(s, j),
            forall|j: int|
                0 <= j < 512 ==> #[trigger] mem.ent(l0 as int, j) == if 256 <= j < i { m1.ent(kernel as int, j) } else {
                    m1.ent(l0 as int, j)
                },
            kernel as int != l0 ==> forall|j: int| 0 <= j < 512 ==> #[trigger] mem.ent(kernel as int, j) == m1.ent(kernel as int, j),
        decreases ENTRIES - i,
    {
        let v = mem.read(kernel, i);
        let ghost mb = *mem;
        mem.write(l0, i, v);
        proof {
            lemma_written(mb, *mem, l0 as int, i as int, v);
            if kernel as int == l0 {
                assert(v == m1.ent(kernel as int, i as int));
            }
        }
        i = i + 1;
    }
    Some(TaskPageTables { pml4_phys: l0 as usize })
}

/// The kernel's identity tables rooted at `p`: PML4 entry 0 points at the
/// PDPT; PDPT entry 0 points at one PD mapping the kernel image with 2 MiB
/// pages (PD entry `i` maps `KERNEL_VADDR + i * 2 MiB`), and PDPT entry 3
/// maps the 1 GiB of device memory at `MMIO_START`; all else is empty.
pub open spec fn kernel_tables(m: PhysMem, p: int) -> bool {
    let pdpt = frame_of(m.ent(p, 0));
    let pd = frame_of(m.ent(pdpt, 0));
    &&& m.holds(p) && m.holds(pdpt) && m.holds(pd)
    &&& p != pdpt && p != pd && pdpt != pd
    &&& forall|i: int| 0 <= i < 512 ==> #[trigger] m.ent(p, i) == if i == 0 { (pdpt as u64) | PTE_KERNEL } else { 0u64 }
    &&& forall|i: int|
        0 <= i < 512 ==> #[trigger] m.ent(pdpt, i) == if i == 0 {
            (pd as u64) | PTE_KERNEL
        } else if i == 3 {
            MMIO_START | PTE_KERNEL | PTE_HUGE
        } else {
            0u64
        }
    &&& forall|i: int|
        0 <= i < 512 ==> #[trigger] m.ent(pd, i) == if i < 32 {
            ((KERNEL_VADDR + i * 0x20_0000) as u64) | PTE_KERNEL | PTE_HUGE
        } else {
            0u64
        }
}

/// Build the kernel's page tables (see `kernel_tables`) in three fresh
/// frames; returns the PML4's address, or `None` when frames run out.
#[verifier::rlimit(50)]
pub fn setup_kernel_page_tables(mem: &mut PhysMem, alloc: &mut FrameAllocator) -> (r: Option<u64>)
    requires
        old(mem).wf(),
        old(alloc).wf(),
        old(alloc).used_count() + 3 <= usize::MAX,
    ensures
        final(mem).wf(),
        final(mem).base == old(mem).base,
        final(alloc).wf(),
        final(alloc).total() == old(alloc).total(),
        final(alloc).capacity() == old(alloc).capacity(),
        forall|g: int| 0 <= g < old(alloc).capacity() && old(alloc).is_used(g) ==> #[trigger] final(alloc).is_used(g),
        r matches Some(p) ==> {
            let pdpt = frame_of(final(mem).ent(p as int, 0));
            let pd = frame_of(final(mem).ent(pdpt, 0));
            &&& kernel_tables(*final(mem), p as int)
            &&& !in_use(*old(alloc), p as int) && !in_use(*old(alloc), pdpt) && !in_use(*old(alloc), pd)
            &&& in_use(*final(alloc), p as int) && in_use(*final(alloc), pdpt) && in_use(*final(alloc), pd)
            &&& forall|s: int, i: int|
                old(mem).holds(s) && s != p && s != pdpt && s != pd && 0 <= i < 512 ==> #[trigger] final(mem).ent(s, i)
                    == old(mem).ent(s, i)
        },
        r is Some <==> frames_ready(*old(mem), *old(alloc), 3),
{
    let ghost m0 = *mem;
    let ghost a0 = *alloc;
    proof {
        lemma_taken_zero(a0);
        lemma_alloc_ok_taken(m0, a0, m0, a0, 0);
    }
    let pml4 = match alloc_pt_page(mem, alloc) {
        Some(t) => t,
        None => return None,
    };
    let ghost m1 = *mem;
    let ghost a1 = *alloc;
    proof {
        lemma_alloc_step(a0, a0, a1, 0, pml4);
        lemma_alloc_ok_taken(m0, a0, m1, a1, 1);
    }
    let pml4_idx = index_of(KERNEL_VADDR, 39);
    assert(pml4_idx == 0) by {
        lemma_fixed_entries();
    }
    let pdpt = match alloc_pt_page(mem, alloc) {
        Some(t) => t,
        None => return None,
    };
    let ghost m2 = *mem;
    let ghost a2 = *alloc;
    proof {
        lemma_alloc_step(a0, a1, a2, 1, pdpt);
    }
    assert(pdpt != pml4);
    mem.write(pml4, pml4_idx, pdpt | PTE_KERNEL);
    let ghost m3 = *mem;
    proof {
        lemma_frames_disjoint(m0, pml4 as int, pdpt as int);
        lemma_written(m2, m3, pml4 as int, 0, pdpt | PTE_KERNEL);
        lemma_frame_of_entry(pdpt, PTE_KERNEL);
        assert forall|s: int, i: int| m0.holds(s) && s != pml4 && s != pdpt && 0 <= i < 512 implies #[trigger] m3.ent(s, i)
            == m0.ent(s, i) by {
            lemma_frames_disjoint(m0, s, pml4 as int);
            lemma_frames_disjoint(m0, s, pdpt as int);
        }
        assert forall|i: int| 0 <= i < 512 implies #[trigger] m3.ent(pml4 as int, i) == if i == 0 {
            pdpt | PTE_KERNEL
        } else {
            0u64
        } by {
            lemma_frames_disjoint(m0, pml4 as int, pdpt as int);
        }
        assert forall|i: int| 0 <= i < 512 implies #[trigger] m3.ent(pdpt as int, i) == 0u64 by {}
    }
    let pdpt_idx = index_of(KERNEL_VADDR, 30);
    assert(pdpt_idx == 0) by {
        lemma_fixed_entries();
    }
    let mut remaining: usize = KERNEL_SIZE;
    let mut pd_idx = pdpt_idx;
    let mut off: usize = 0;
    let ghost mut pd_frame: u64 = 0;
    while remaining > 0
        invariant
            m0 == *old(mem),
            a0 == *old(alloc),
            a0.used_count() + 3 <= usize::MAX,
            m3.wf(),
            m3.base == m0.base,
            m3.words@.len() == m0.words@.len(),
            forall|s: int, i: int| m0.holds(s) && s != pml4 && s != pdpt && 0 <= i < 512 ==> #[trigger] m3.ent(s, i) == m0.ent(s, i),
            forall|i: int| 0 <= i < 512 ==> #[trigger] m3.ent(pml4 as int, i) == if i == 0 { pdpt | PTE_KERNEL } else { 0u64 },
            forall|i: int| 0 <= i < 512 ==> #[trigger] m3.ent(pdpt as int, i) == 0u64,
            mem.wf(),
            mem.base == m0.base,
            mem.words@.len() == m0.words@.len(),
            alloc.wf(),
            alloc.total() == a0.total(),
            alloc.capacity() == a0.capacity(),
            forall|g: int| 0 <= g < a0.capacity() && a0.is_used(g) ==> #[trigger] alloc.is_used(g),
            in_use(*alloc, pml4 as int) && in_use(*alloc, pdpt as int),
            !in_use(a0, pml4 as int) && !in_use(a0, pdpt as int),
            m0.holds(pml4 as int) && m0.holds(pdpt as int) && pml4 != pdpt,
            m0.wf(),
            nth_free(a0.bits(), 0) < a0.capacity() && m0.holds(nth_free(a0.bits(), 0) * 4096),
            nth_free(a0.bits(), 1) < a0.capacity() && m0.holds(nth_free(a0.bits(), 1) * 4096),
            remaining == KERNEL_SIZE ==> taken(a0, *alloc, 2),
            remaining != KERNEL_SIZE ==> nth_free(a0.bits(), 2) < a0.capacity() && m0.holds(nth_free(a0.bits(), 2) * 4096),
            remaining == KERNEL_SIZE ==> {
                &&& pd_idx == 0 && off == 0
                &&& *mem == m3
                &&& alloc.used_count() <= a0.used_count() + 2
            },
            remaining != KERNEL_SIZE ==> {
                &&& remaining == 0 && pd_idx == 1 && off == 0x400_0000
                &&& m0.holds(pd_frame as int) && pd_frame != pml4 && pd_frame != pdpt
                &&& in_use(*alloc, pd_frame as int) && !in_use(a0, pd_frame as int)
                &&& forall|s: int, i: int|
                    m0.holds(s) && s != pml4 && s != pdpt && s != pd_frame && 0 <= i < 512 ==> #[trigger] mem.ent(s, i)
                        == m0.ent(s, i)
                &&& forall|i: int| 0 <= i < 512 ==> #[trigger] mem.ent(pml4 as int, i) == if i == 0 { pdpt | PTE_KERNEL } else { 0u64 }
                &&& forall|i: int| 0 <= i < 512 ==> #[trigger] mem.ent(pdpt as int, i) == if i == 0 { pd_frame | PTE_KERNEL } else { 0u64 }
                &&& forall|i: int|
                    0 <= i < 512 ==> #[trigger] mem.ent(pd_frame as int, i) == if i < 32 {
                        ((KERNEL_VADDR + i * 0x20_0000) as u64) | PTE_KERNEL | PTE_HUGE
                    } else {
                        0u64
                    }
            },
        decreases remaining,
    {
        let ghost a4 = *alloc;
        assert(remaining == KERNEL_SIZE);
        assert(alloc.used_count() < usize::MAX);
        proof {
            lemma_alloc_ok_taken(m0, a0, *mem, *alloc, 2);
        }
        let pd = match alloc_pt_page(mem, alloc) {
            Some(t) => t,
            None => return None,
        };
        proof {
            lemma_alloc_step(a0, a4, *alloc, 2, pd);
        }
        let ghost m4 = *mem;
        assert(pd != pml4 && pd != pdpt);
        assert(!in_use(a0, pd as int)) by {
            if in_use(a0, pd as int) {
                assert(a4.is_used(pd as int / 4096));
            }
        }
        mem.write(pdpt, pd_idx, pd | PTE_KERNEL);
        let ghost m5 = *mem;
        proof {
            lemma_written(m4, m5, pdpt as int, 0, pd | PTE_KERNEL);
            assert forall|s: int, i: int| m0.holds(s) && s != pd && 0 <= i < 512 implies #[trigger] m4.ent(s, i) == m3.ent(s, i) by {
                lemma_frames_disjoint(m0, s, pd as int);
            }
        }
        let needed = (remaining + 0x1F_FFFF) / 0x20_0000;
        let use_n = if needed < 512 { needed } else { 512 };
        assert(use_n == 32);
        let mut i: usize = 0;
        while i < use_n
            invariant
                use_n == 32,
                off == 0,
                i <= use_n,
                mem.wf(),
                mem.base == m0.base,
                mem.words@.len() == m0.words@.len(),
                m0.wf(),
                m0.holds(pd as int),
                forall|s: int, j: int| m0.holds(s) && s != pd && 0 <= j < 512 ==> #[trigger] mem.ent(s, j) == m5.ent(s, j),
                forall|j: int|
                    0 <= j < 512 ==> #[trigger] mem.ent(pd as int, j) == if j < i {
                        ((KERNEL_VADDR + j * 0x20_0000) as u64) | PTE_KERNEL | PTE_HUGE
                    } else {
                        0u64
                    },
            decreases use_n - i,
        {
            let page_phys = KERNEL_VADDR as usize + off + i * 0x20_0000;
            let ghost mb = *mem;
            mem.write(pd, i, page_phys as u64 | PTE_KERNEL | PTE_HUGE);
            proof {
                lemma_written(mb, *mem, pd as int, i as int, page_phys as u64 | PTE_KERNEL | PTE_HUGE);
                assert forall|s: int, j: int| m0.holds(s) && s != pd && 0 <= j < 512 implies #[trigger] mem.ent(s, j)
                    == m5.ent(s, j) by {
                    assert(mem.ent(s, j) == mb.ent(s, j));
                }
            }
            i = i + 1;
        }
        proof {
            pd_frame = pd;
        }
        pd_idx = pd_idx + 1;
        off = off + use_n * 0x20_0000;
        remaining = remaining.saturating_sub(use_n * 0x20_0000);
        assert(remaining == 0 && pd_idx == 1 && off == 0x400_0000);
        assert(m0.holds(pd_frame as int) && pd_frame != pml4 && pd_frame != pdpt);
        assert(in_use(*alloc, pd_frame as int) && !in_use(a0, pd_frame as int));
        assert(forall|i: int| 0 <= i < 512 ==> #[trigger] mem.ent(pml4 as int, i) == if i == 0 { pdpt | PTE_KERNEL } else { 0u64 });
        assert(forall|i: int| 0 <= i < 512 ==> #[trigger] mem.ent(pdpt as int, i) == if i == 0 { pd_frame | PTE_KERNEL } else { 0u64 });
    }
    let ghost m6 = *mem;
    let mmio_pml4_idx = index_of(MMIO_START, 39);
    assert(mmio_pml4_idx == 0) by {
        lemma_fixed_entries();
    }
    let e = mem.read(pml4, mmio_pml4_idx);
    assert(e == pdpt | PTE_KERNEL);
    proof {
        lemma_frame_of_entry(pdpt, PTE_KERNEL);
    }
    let mmio_pdpt = if e != 0 {
        let t = e & !0xFFF;
        if !mem.holds_frame(t) {
            return None;
        }
        t
    } else {
        return None;
    };
    assert(mmio_pdpt == pdpt);
    let first = index_of(MMIO_START, 30);
    let last = index_of(MMIO_END - 1, 30);
    assert(first == 3 && last == 3) by {
        lemma_fixed_entries();
    }
    let mut k = first;
    while k <= last
        invariant
            first == 3 && last == 3,
            mmio_pdpt == pdpt,
            m6.ent(pdpt as int, 3) == 0u64,
            3 <= k <= 4,
            mem.wf(),
            mem.base == m0.base,
            mem.words@.len() == m0.words@.len(),
            m0.wf(),
            m0.holds(pdpt as int),
            forall|s: int, j: int| m0.holds(s) && s != pdpt && 0 <= j < 512 ==> #[trigger] mem.ent(s, j) == m6.ent(s, j),
            forall|j: int|
                0 <= j < 512 ==> #[trigger] mem.ent(pdpt as int, j) == if j == 3 && k == 4 {
                    MMIO_START | PTE_KERNEL | PTE_HUGE
                } else {
                    m6.ent(pdpt as int, j)
                },
        decreases 4 - k,
    {
        if k < 512 && mem.read(mmio_pdpt, k) == 0 {
            let phys_1gb = (k as u64) << 30;
            assert(phys_1gb == MMIO_START) by {
                lemma_fixed_entries();
            }
            let ghost mb = *mem;
            mem.write(mmio_pdpt, k, phys_1gb | PTE_KERNEL | PTE_HUGE);
            proof {
                lemma_written(mb, *mem, pdpt as int, 3, phys_1gb | PTE_KERNEL | PTE_HUGE);
            }
        }
        k = k + 1;
    }
    proof {
        lemma_frame_of_entry(pd_frame, PTE_KERNEL);
        assert forall|j: nat| j < 3 implies #[trigger] nth_free(a0.bits(), j) < a0.capacity() && m0.holds(
            nth_free(a0.bits(), j) * 4096) by {
            if j == 0 {
            } else if j == 1 {
            } else {
            }
        }
    }
    Some(pml4)
}

/// The page table and entry a fault at `v` under the tables at `cr3`
/// lands on, when every level is present (and no large page), and the
/// entry is marked copy-on-write.
pub open spec fn cow_leaf(m: PhysMem, cr3: u64, v: u64) -> Option<(int, u64)> {
    let root = frame_of(cr3);
    let e4 = m.ent(root, index(v, 39));
    let t3 = frame_of(e4);
    let e3 = m.ent(t3, index(v, 30));
    let t2 = frame_of(e3);
    let e2 = m.ent(t2, index(v, 21));
    let t1 = frame_of(e2);
    let e1 = m.ent(t1, index(v, 12));
    if m.holds(root) && e4 & PTE_PRESENT != 0 && m.holds(t3) && e3 & PTE_PRESENT != 0 && e3 & PTE_HUGE == 0 && m.holds(t2)
        && e2 & PTE_PRESENT != 0 && e2 & PTE_HUGE == 0 && m.holds(t1) && e1 & PTE_COW != 0 {
        Some((t1, e1))
    } else {
        None
    }
}

/// Resolve a page fault at `cr2` (error code `err`) as a copy-on-write
/// fault: for a write to a present page whose entry is marked COW, copy
/// the page into a fresh frame and map that frame writable in its place.
/// Returns whether the fault was resolved; any other fault is left to the
/// caller.
pub fn resolve_cow_fault(mem: &mut PhysMem, alloc: &mut FrameAllocator, cr3: u64, cr2: u64, err: u64) -> (r: bool)
    requires
        old(mem).wf(),
        old(alloc).wf(),
        old(alloc).used_count() < usize::MAX,
    ensures
        final(mem).wf(),
        final(mem).base == old(mem).base,
        final(alloc).wf(),
        final(alloc).total() == old(alloc).total(),
        final(alloc).capacity() == old(alloc).capacity(),
        ({
            let f = first_free_from(old(alloc).bits(), 0);
            let leaf = cow_leaf(*old(mem), cr3, cr2);
            let (pt, pte) = match leaf {
                Some(l) => l,
                None => (0int, 0u64),
            };
            &&& r == (err & 3 == 3 && leaf is Some && old(mem).holds((pte & PTE_ADDR_MASK) as int) && f
                < old(alloc).capacity() && old(mem).holds(f * 4096))
            &&& r ==> {
                &&& final(mem).words@ == copied(*old(mem), (pte & PTE_ADDR_MASK) as int, f * 4096).update(
                    old(mem).slot(pt, index(cr2, 12)),
                    ((f * 4096) as u64) | PTE_USER_RW,
                )
                &&& final(alloc).is_used(f)
                &&& forall|g: int| 0 <= g < old(alloc).capacity() && g != f ==> #[trigger] final(alloc).is_used(g)
                    == old(alloc).is_used(g)
            }
            &&& !r ==> final(mem).words@ == old(mem).words@
        }),
{
    if err & 2 == 0 || err & 1 == 0 {
        assert(err & 3 != 3) by (bit_vector)
            requires err & 2 == 0 || err & 1 == 0;
        return false;
    }
    assert(err & 3 == 3) by (bit_vector)
        requires err & 2 != 0 && err & 1 != 0;
    let root = cr3 & !0xFFF;
    if !mem.holds_frame(root) {
        return false;
    }
    let e4 = mem.read(root, index_of(cr2, 39));
    if e4 & PTE_PRESENT == 0 {
        return false;
    }
    let t3 = e4 & !0xFFF;
    if !mem.holds_frame(t3) {
        return false;
    }
    let e3 = mem.read(t3, index_of(cr2, 30));
    if e3 & PTE_PRESENT == 0 || e3 & PTE_HUGE != 0 {
        return false;
    }
    let t2 = e3 & !0xFFF;
    if !mem.holds_frame(t2) {
        return false;
    }
    let e2 = mem.read(t2, index_of(cr2, 21));
    if e2 & PTE_PRESENT == 0 || e2 & PTE_HUGE != 0 {
        return false;
    }
    let t1 = e2 & !0xFFF;
    if !mem.holds_frame(t1) {
        return false;
    }
    let i1 = index_of(cr2, 12);
    let pte = mem.read(t1, i1);
    if pte & PTE_COW == 0 {
        return false;
    }
    let old_frame = pte & PTE_ADDR_MASK;
    if !mem.holds_frame(old_frame) {
        return false;
    }
    let ghost f = first_free_from(alloc.bits(), 0);
    proof {
        lemma_first_free_is_free(alloc.bits(), 0);
        if f < alloc.capacity() {
            lemma_frame_addr_fits(*alloc, f);
        }
    }
    let ghost used0 = alloc.used_count();
    let new_frame = match alloc.alloc_frame() {
        Some(p) => p,
        None => return false,
    };
    assert(new_frame / PAGE_SIZE == f) by (nonlinear_arith)
        requires new_frame == f * 4096, PAGE_SIZE == 4096, f >= 0;
    let nf = new_frame as u64;
    if !mem.holds_frame(nf) {
        let ghost a1 = *alloc;
        alloc.free_frame(new_frame);
        return false;
    }
    let ghost m0 = *mem;
    mem.copy_frame(old_frame, nf);
    assert(mem.words@ =~= copied(m0, old_frame as int, nf as int));
    mem.write(t1, i1, nf | PTE_USER_RW);
    true
}

/// An interrupt descriptor: where its handler is, which code segment it
/// runs in, and its type and attributes.
#[derive(Clone, Copy, Debug, PartialEq, Eq, Structural)]
pub struct IdtEntry {
    pub offset_low: u16,
    pub selector: u16,
    pub ist: u8,
    pub flags: u8,
    pub offset_mid: u16,
    pub offset_high: u32,
    pub reserved: u32,
}

/// The handler address a gate points at.
pub open spec fn gate_target(e: IdtEntry) -> u64 {
    (e.offset_low as u64) | ((e.offset_mid as u64) << 16u64) | ((e.offset_high as u64) << 32u64)
}

/// The descriptor for `handler`: its address in 16, 16 and 32-bit parts,
/// with no separate stack and the reserved bits zero.
pub fn idt_entry(handler: u64, selector: u16, flags: u8) -> (e: IdtEntry)
    ensures
        e.offset_low == handler & 0xFFFF,
        e.offset_mid == (handler >> 16u64) & 0xFFFF,
        e.offset_high == (handler >> 32u64) & 0xFFFF_FFFF,
        e.selector == selector,
        e.flags == flags,
        e.ist == 0,
        e.reserved == 0,
        gate_target(e) == handler,
{
    assert((handler & 0xFFFF) <= 0xFFFF && ((handler >> 16) & 0xFFFF) <= 0xFFFF && ((handler >> 32) & 0xFFFF_FFFF)
        <= 0xFFFF_FFFF) by (bit_vector);
    let lo = (handler & 0xFFFF) as u16;
    let mid = ((handler >> 16) & 0xFFFF) as u16;
    let high = ((handler >> 32) & 0xFFFF_FFFF) as u32;
    assert(((lo as u64) | ((mid as u64) << 16u64) | ((high as u64) << 32u64)) == handler) by (bit_vector)
        requires
            lo == (handler & 0xFFFF) as u16,
            mid == ((handler >> 16) & 0xFFFF) as u16,
            high == ((handler >> 32) & 0xFFFF_FFFF) as u32;
    IdtEntry { offset_low: lo, selector, ist: 0, flags, offset_mid: mid, offset_high: high, reserved: 0 }
}

} // verus!
