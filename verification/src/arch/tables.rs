//! Steps shared by the page-table builders: taking a zeroed frame for a
//! table from the bitmap frame allocator, and going down one level,
//! creating the next table when the entry does not lead on.

use vstd::prelude::*;
use crate::frame_alloc::{FrameAllocator, PAGE_SIZE, bit_set, first_free_from, lemma_capacity, lemma_first_free_is_free, lemma_frame_addr_fits};
use crate::mm::phys::{PhysMem, ENTRIES, index, frame_of, zeroed};

verus! {

/// The allocator hands out frame `t` no more: it is one of its frames and in use.
pub open spec fn in_use(a: FrameAllocator, t: int) -> bool {
    0 <= t / 4096 < a.capacity() && a.is_used(t / 4096)
}

/// The allocator's next frame exists and lies in `m`: taking a table frame
/// from it succeeds.
pub open spec fn alloc_ok(m: PhysMem, a: FrameAllocator) -> bool {
    let f = first_free_from(a.bits(), 0);
    f < a.capacity() && m.holds(f * 4096)
}

/// The `k`-th frame (from 0) the allocator hands out when frames are taken
/// one after another from the bitmap `bm`.
pub open spec fn nth_free(bm: Seq<u64>, k: nat) -> int
    decreases k,
{
    if k == 0 {
        first_free_from(bm, 0)
    } else {
        first_free_from(bm, nth_free(bm, (k - 1) as nat) + 1)
    }
}

/// The next `n` frames the allocator hands out exist and lie in `m`.
pub open spec fn frames_ready(m: PhysMem, a: FrameAllocator, n: nat) -> bool {
    forall|k: nat| k < n ==> #[trigger] nth_free(a.bits(), k) < a.capacity() && m.holds(nth_free(a.bits(), k) * 4096)
}

/// `a` is `a0` after its first `c` frames were taken.
pub open spec fn taken(a0: FrameAllocator, a: FrameAllocator, c: nat) -> bool {
    &&& a.bits().len() == a0.bits().len()
    &&& forall|g: int| 0 <= g < 64 * a0.bits().len() ==> #[trigger] a.is_used(g) == (a0.is_used(g) || g < nth_free(a0.bits(), c))
}

/// The tables that `v`'s walk from `root` already passes through lie in
/// `m` (level 0 entries lead on when non-zero; the lower ones as `table_bits` says).
pub open spec fn walk_held(m: PhysMem, root: int, v: u64, table_bits: bool) -> bool {
    let e0 = m.ent(root, index(v, 39));
    let e1 = m.ent(frame_of(e0), index(v, 30));
    let e2 = m.ent(frame_of(e1), index(v, 21));
    leads_on(e0, false) ==> m.holds(frame_of(e0)) && (leads_on(e1, table_bits) ==> m.holds(frame_of(e1)) && (
    leads_on(e2, table_bits) ==> m.holds(frame_of(e2))))
}

/// How many tables mapping `v` creates: one for each level from the first
/// entry on its walk that does not lead on.
pub open spec fn tables_needed(m: PhysMem, root: int, v: u64, table_bits: bool) -> nat {
    let e0 = m.ent(root, index(v, 39));
    let e1 = m.ent(frame_of(e0), index(v, 30));
    let e2 = m.ent(frame_of(e1), index(v, 21));
    if !leads_on(e0, false) {
        3
    } else if !leads_on(e1, table_bits) {
        2
    } else if !leads_on(e2, table_bits) {
        1
    } else {
        0
    }
}

/// Mapping a fresh page at `v` under the tables at `root` can complete: the
/// root and the tables its walk passes through lie in `m`, the frames taken
/// for new tables lie in `m`, and one more frame is left for the page.
pub open spec fn map_ready(m: PhysMem, a: FrameAllocator, root: int, v: u64, table_bits: bool) -> bool {
    let k = tables_needed(m, root, v, table_bits);
    &&& m.holds(root)
    &&& walk_held(m, root, v, table_bits)
    &&& frames_ready(m, a, k)
    &&& nth_free(a.bits(), k) < a.capacity()
}

pub(crate) proof fn lemma_first_free_at(bm: Seq<u64>, a: int, x: int)
    requires
        0 <= a <= x < 64 * bm.len(),
        !bit_set(bm, x),
        forall|g: int| a <= g < x ==> #[trigger] bit_set(bm, g),
    ensures
        first_free_from(bm, a) == x,
    decreases x - a,
{
    if a < x {
        lemma_first_free_at(bm, a + 1, x);
    }
}

/// Shape of the frames taken one after another.
pub proof fn lemma_nth_free(bm: Seq<u64>, c: nat)
    ensures
        0 <= nth_free(bm, c) <= 64 * bm.len(),
        nth_free(bm, c) < 64 * bm.len() ==> !bit_set(bm, nth_free(bm, c)),
        c == 0 ==> forall|g: int| 0 <= g < nth_free(bm, c) ==> #[trigger] bit_set(bm, g),
        c > 0 && nth_free(bm, c) < 64 * bm.len() ==> {
            &&& nth_free(bm, (c - 1) as nat) < nth_free(bm, c)
            &&& forall|g: int| nth_free(bm, (c - 1) as nat) < g < nth_free(bm, c) ==> #[trigger] bit_set(bm, g)
        },
    decreases c,
{
    if c == 0 {
        lemma_first_free_is_free(bm, 0);
    } else {
        lemma_nth_free(bm, (c - 1) as nat);
        let y = nth_free(bm, (c - 1) as nat) + 1;
        if y <= 64 * bm.len() {
            lemma_first_free_is_free(bm, y);
        }
    }
}

/// Before any frame is taken, `a0` is itself.
pub proof fn lemma_taken_zero(a0: FrameAllocator)
    ensures
        taken(a0, a0, 0),
{
    lemma_nth_free(a0.bits(), 0);
}

/// After `c` frames were taken, the next one handed out is the `c`-th.
pub proof fn lemma_taken_next(a0: FrameAllocator, a: FrameAllocator, c: nat)
    requires
        taken(a0, a, c),
    ensures
        first_free_from(a.bits(), 0) == nth_free(a0.bits(), c),
{
    let b0 = a0.bits();
    let n = nth_free(b0, c);
    lemma_nth_free(b0, c);
    if n >= 64 * b0.len() {
        lemma_first_free_is_free(a.bits(), 0);
        let f = first_free_from(a.bits(), 0);
        if f < 64 * a.bits().len() {
            assert(a.is_used(f));
        }
        return;
    }
    assert(!a.is_used(n));
    assert forall|g: int| 0 <= g < n implies #[trigger] bit_set(a.bits(), g) by {
        assert(a.is_used(g));
    }
    lemma_first_free_at(a.bits(), 0, n);
}

/// Taking the `c`-th frame leaves `c + 1` taken.
pub proof fn lemma_taken_step(a0: FrameAllocator, a: FrameAllocator, a2: FrameAllocator, c: nat)
    requires
        taken(a0, a, c),
        nth_free(a0.bits(), c) < 64 * a0.bits().len(),
        a2.bits().len() == a.bits().len(),
        a2.is_used(nth_free(a0.bits(), c)),
        forall|g: int| 0 <= g < 64 * a.bits().len() && g != nth_free(a0.bits(), c) ==> #[trigger] a2.is_used(g)
            == a.is_used(g),
    ensures
        taken(a0, a2, c + 1),
{
    let b0 = a0.bits();
    lemma_nth_free(b0, c + 1);
    lemma_nth_free(b0, c);
    let n = nth_free(b0, c);
    let n2 = nth_free(b0, c + 1);
    assert(n2 == first_free_from(b0, n + 1));
    lemma_first_free_is_free(b0, n + 1);
    assert forall|g: int| 0 <= g < 64 * a0.bits().len() implies #[trigger] a2.is_used(g) == (a0.is_used(g) || g
        < n2) by {
        if g == n {
        } else if n < g && g < n2 {
            assert(bit_set(b0, g));
            assert(a.is_used(g) == (a0.is_used(g) || g < n));
        } else {
            assert(a.is_used(g) == (a0.is_used(g) || g < n));
        }
    }
}

/// With the next `n` frames ready and fewer than `n` taken, taking one more
/// succeeds.
pub proof fn lemma_ready_alloc(m0: PhysMem, a0: FrameAllocator, m: PhysMem, a: FrameAllocator, c: nat, n: nat)
    requires
        a0.wf(),
        a.wf(),
        taken(a0, a, c),
        c < n,
        frames_ready(m0, a0, n),
        m.base == m0.base,
        m.words@.len() == m0.words@.len(),
    ensures
        alloc_ok(m, a),
        first_free_from(a.bits(), 0) == nth_free(a0.bits(), c),
{
    lemma_capacity(a0);
    lemma_capacity(a);
    assert(nth_free(a0.bits(), c) < a0.capacity());
    lemma_taken_next(a0, a, c);
}

/// The bitmap `b` is `b0` after its first `c` free frames were taken.
pub open spec fn taken_bits(b0: Seq<u64>, b: Seq<u64>, c: nat) -> bool {
    &&& b.len() == b0.len()
    &&& forall|g: int| 0 <= g < 64 * b0.len() ==> #[trigger] bit_set(b, g) == (bit_set(b0, g) || g < nth_free(b0, c))
}

/// Before any frame is taken, a bitmap is itself.
pub proof fn lemma_taken_bits_zero(b0: Seq<u64>)
    ensures
        taken_bits(b0, b0, 0),
{
    lemma_nth_free(b0, 0);
}

/// After `c` frames were taken, the next free one is the `c`-th.
pub proof fn lemma_taken_bits_next(b0: Seq<u64>, b: Seq<u64>, c: nat)
    requires
        taken_bits(b0, b, c),
    ensures
        first_free_from(b, 0) == nth_free(b0, c),
{
    let n = nth_free(b0, c);
    lemma_nth_free(b0, c);
    if n >= 64 * b0.len() {
        lemma_first_free_is_free(b, 0);
        let f = first_free_from(b, 0);
        if f < 64 * b.len() {
            assert(bit_set(b, f));
        }
        return;
    }
    assert(!bit_set(b, n));
    assert forall|g: int| 0 <= g < n implies #[trigger] bit_set(b, g) by {
        assert(bit_set(b, g) == (bit_set(b0, g) || g < n));
    }
    lemma_first_free_at(b, 0, n);
}

/// Taking the `c`-th frame leaves `c + 1` taken.
pub proof fn lemma_taken_bits_step(b0: Seq<u64>, b: Seq<u64>, b2: Seq<u64>, c: nat)
    requires
        taken_bits(b0, b, c),
        nth_free(b0, c) < 64 * b0.len(),
        b2.len() == b.len(),
        bit_set(b2, nth_free(b0, c)),
        forall|g: int| 0 <= g < 64 * b.len() && g != nth_free(b0, c) ==> #[trigger] bit_set(b2, g) == bit_set(b, g),
    ensures
        taken_bits(b0, b2, c + 1),
{
    lemma_nth_free(b0, c + 1);
    lemma_nth_free(b0, c);
    let n = nth_free(b0, c);
    let n2 = nth_free(b0, c + 1);
    lemma_first_free_is_free(b0, n + 1);
    assert forall|g: int| 0 <= g < 64 * b0.len() implies #[trigger] bit_set(b2, g) == (bit_set(b0, g) || g < n2) by {
        if g == n {
        } else if n < g && g < n2 {
            assert(bit_set(b0, g));
            assert(bit_set(b, g) == (bit_set(b0, g) || g < n));
        } else {
            assert(bit_set(b, g) == (bit_set(b0, g) || g < n));
        }
    }
}

/// Whether the next table frame can be had depends only on which frames
/// were taken so far.
pub proof fn lemma_alloc_ok_taken(m0: PhysMem, a0: FrameAllocator, m: PhysMem, a: FrameAllocator, c: nat)
    requires
        taken(a0, a, c),
        m.base == m0.base,
        m.words@.len() == m0.words@.len(),
    ensures
        alloc_ok(m, a) == (nth_free(a0.bits(), c) < a0.capacity() && m0.holds(nth_free(a0.bits(), c) * 4096)),
        first_free_from(a.bits(), 0) == nth_free(a0.bits(), c),
{
    lemma_capacity(a0);
    lemma_capacity(a);
    lemma_taken_next(a0, a, c);
}

/// A table frame taken after `c` others leaves `c + 1` taken.
pub proof fn lemma_alloc_step(a0: FrameAllocator, a: FrameAllocator, a2: FrameAllocator, c: nat, t: u64)
    requires
        taken(a0, a, c),
        a2.capacity() == a.capacity(),
        t / 4096 == first_free_from(a.bits(), 0),
        in_use(a2, t as int),
        forall|g: int| 0 <= g < a.capacity() && g != t / 4096 ==> #[trigger] a2.is_used(g) == a.is_used(g),
    ensures
        taken(a0, a2, c + 1),
        nth_free(a0.bits(), c) == t / 4096,
        nth_free(a0.bits(), c) < a0.capacity(),
{
    lemma_capacity(a0);
    lemma_capacity(a);
    lemma_capacity(a2);
    lemma_taken_next(a0, a, c);
    lemma_taken_step(a0, a, a2, c);
}

/// Allocate a zeroed frame for a page table. A frame outside the memory the
/// tables live in is given back and counts as a failure.
pub(crate) fn alloc_pt_page(mem: &mut PhysMem, alloc: &mut FrameAllocator) -> (r: Option<u64>)
    requires
        old(mem).wf(),
        old(alloc).wf(),
        old(alloc).used_count() < usize::MAX,
    ensures
        final(mem).wf(),
        final(mem).base == old(mem).base,
        final(mem).words@.len() == old(mem).words@.len(),
        final(alloc).wf(),
        final(alloc).total() == old(alloc).total(),
        final(alloc).capacity() == old(alloc).capacity(),
        final(alloc).used_count() <= old(alloc).used_count() + 1,
        forall|g: int| 0 <= g < old(alloc).capacity() && old(alloc).is_used(g) ==> #[trigger] final(alloc).is_used(g),
        match r {
            Some(t) => {
                &&& final(mem).holds(t as int)
                &&& t <= usize::MAX
                &&& t / 4096 == first_free_from(old(alloc).bits(), 0)
                &&& !in_use(*old(alloc), t as int)
                &&& in_use(*final(alloc), t as int)
                &&& forall|g: int| 0 <= g < old(alloc).capacity() && g != t / 4096 ==> #[trigger] final(alloc).is_used(g)
                    == old(alloc).is_used(g)
                &&& final(mem).words@ == zeroed(old(mem).words@, old(mem).slot(t as int, 0))
            },
            None => {
                let f = first_free_from(old(alloc).bits(), 0);
                &&& final(mem).words@ == old(mem).words@
                &&& forall|g: int| 0 <= g < old(alloc).capacity() && g != f ==> #[trigger] final(alloc).is_used(g)
                    == old(alloc).is_used(g)
                &&& f < old(alloc).total() ==> !final(alloc).is_used(f)
            },
        },
        r is Some <==> alloc_ok(*old(mem), *old(alloc)),
{
    proof {
        lemma_first_free_is_free(alloc.bits(), 0);
        lemma_capacity(*alloc);
    }
    let ghost f = first_free_from(alloc.bits(), 0);
    let ghost cap = alloc.capacity();
    let ghost used0 = alloc.used_count();
    let phys = match alloc.alloc_frame() {
        Some(p) => p,
        None => return None,
    };
    assert(f < cap);
    proof {
        lemma_frame_addr_fits(*old(alloc), f);
    }
    assert(phys == f * 4096);
    assert(phys / PAGE_SIZE == f) by (nonlinear_arith)
        requires phys == f * 4096, PAGE_SIZE == 4096, f >= 0;
    assert(alloc.used_count() == used0 + 1);
    let t = phys as u64;
    if !mem.holds_frame(t) {
        let ghost a1 = *alloc;
        alloc.free_frame(phys);
        assert forall|g: int| 0 <= g < old(alloc).capacity() && old(alloc).is_used(g) implies #[trigger] alloc.is_used(g) by {
            assert(g != f);
            assert(a1.is_used(g));
        }
        assert forall|g: int| 0 <= g < old(alloc).capacity() && g != f implies #[trigger] alloc.is_used(g)
            == old(alloc).is_used(g) by {
            assert(a1.is_used(g) == old(alloc).is_used(g));
        }
        assert(!old(mem).holds(f * 4096));
        return None;
    }
    let ghost w0 = mem.words@;
    mem.zero_frame(t);
    assert(mem.words@ =~= zeroed(w0, old(mem).slot(t as int, 0)));
    Some(t)
}

/// Whether entry `e` leads on to a next-level table: it is non-zero and,
/// where table descriptors are told apart by their low bits, it is one.
pub open spec fn leads_on(e: u64, table_bits: bool) -> bool {
    e != 0 && (!table_bits || e & 3 == 3)
}

/// Find the table entry `idx` of `table` points at, creating a zeroed one
/// linked with `link` when the entry does not lead on (see `leads_on`).
pub(crate) fn descend(
    mem: &mut PhysMem,
    alloc: &mut FrameAllocator,
    table: u64,
    idx: usize,
    link: u64,
    table_bits: bool,
) -> (r: Option<u64>)
    requires
        old(mem).wf(),
        old(mem).holds(table as int),
        idx < ENTRIES,
        old(alloc).wf(),
        old(alloc).used_count() < usize::MAX,
    ensures
        final(mem).wf(),
        final(mem).base == old(mem).base,
        final(mem).words@.len() == old(mem).words@.len(),
        final(alloc).wf(),
        final(alloc).total() == old(alloc).total(),
        final(alloc).capacity() == old(alloc).capacity(),
        final(alloc).used_count() <= old(alloc).used_count() + 1,
        forall|g: int| 0 <= g < old(alloc).capacity() && old(alloc).is_used(g) ==> #[trigger] final(alloc).is_used(g),
        ({
            let e = old(mem).ent(table as int, idx as int);
            if leads_on(e, table_bits) {
                &&& final(mem).words@ == old(mem).words@
                &&& *final(alloc) == *old(alloc)
                &&& r == if old(mem).holds(frame_of(e)) { Some(frame_of(e) as u64) } else { None::<u64> }
            } else {
                match r {
                    Some(t) => {
                        &&& final(mem).holds(t as int)
                        &&& t / 4096 == first_free_from(old(alloc).bits(), 0)
                        &&& !in_use(*old(alloc), t as int)
                        &&& in_use(*final(alloc), t as int)
                        &&& forall|g: int|
                            0 <= g < old(alloc).capacity() && g != t / 4096 ==> #[trigger] final(alloc).is_used(g)
                                == old(alloc).is_used(g)
                        &&& final(mem).words@ == zeroed(
                            zeroed(old(mem).words@, old(mem).slot(t as int, 0)).update(
                                old(mem).slot(table as int, idx as int),
                                t | link,
                            ),
                            old(mem).slot(t as int, 0),
                        )
                    },
                    None => final(mem).words@ == old(mem).words@,
                }
            }
        }),
        r is Some <==> if leads_on(old(mem).ent(table as int, idx as int), table_bits) {
            old(mem).holds(frame_of(old(mem).ent(table as int, idx as int)))
        } else {
            alloc_ok(*old(mem), *old(alloc))
        },
{
    let e = mem.read(table, idx);
    if e != 0 && (!table_bits || e & 3 == 3) {
        let t = e & !0xFFF;
        if mem.holds_frame(t) {
            return Some(t);
        } else {
            return None;
        }
    }
    let t = match alloc_pt_page(mem, alloc) {
        Some(t) => t,
        None => return None,
    };
    let ghost w1 = mem.words@;
    mem.write(table, idx, t | link);
    let ghost w2 = mem.words@;
    mem.zero_frame(t);
    assert(mem.words@ =~= zeroed(w2, old(mem).slot(t as int, 0)));
    Some(t)
}

/// The entry for `v` in its page table, following non-zero entries from
/// the PML4 at `root` through tables in memory.
pub open spec fn entry_walk(m: PhysMem, root: int, v: u64) -> Option<u64> {
    let e4 = m.ent(root, index(v, 39));
    let t3 = frame_of(e4);
    let e3 = m.ent(t3, index(v, 30));
    let t2 = frame_of(e3);
    let e2 = m.ent(t2, index(v, 21));
    let t1 = frame_of(e2);
    if !m.holds(root) || e4 == 0 || !m.holds(t3) || e3 == 0 || !m.holds(t2) || e2 == 0 || !m.holds(t1) {
        None
    } else {
        Some(m.ent(t1, index(v, 12)))
    }
}

/// The page table (last level) on `v`'s walk from `root`.
pub open spec fn leaf_table(m: PhysMem, root: int, v: u64) -> int {
    frame_of(m.ent(frame_of(m.ent(frame_of(m.ent(root, index(v, 39))), index(v, 30))), index(v, 21)))
}

/// The four tables on `v`'s walk are different frames.
pub open spec fn path_distinct(m: PhysMem, root: int, v: u64) -> bool {
    let t3 = frame_of(m.ent(root, index(v, 39)));
    let t2 = frame_of(m.ent(t3, index(v, 30)));
    let t1 = frame_of(m.ent(t2, index(v, 21)));
    &&& t3 != root
    &&& t2 != root && t2 != t3
    &&& t1 != root && t1 != t3 && t1 != t2
}

} // verus!
