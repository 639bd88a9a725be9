//! Physical memory as the page-table code sees it: 64-bit words from
//! physical address `base` on, read and written one table entry at a time.

use vstd::prelude::*;

verus! {

/// Entries in one 4 KiB page table.
pub const ENTRIES: usize = 512;

/// Physical memory from `base` (page aligned), one `u64` per 8 bytes.
pub struct PhysMem {
    pub base: u64,
    pub words: Vec<u64>,
}

impl PhysMem {
    /// Addresses stay below 2^64 and frames are page aligned.
    pub open spec fn wf(&self) -> bool {
        &&& self.base % 4096 == 0
        &&& self.base + 8 * self.words@.len() <= u64::MAX
    }

    /// The page at `t` is page aligned and lies in this memory.
    pub open spec fn holds(&self, t: int) -> bool {
        &&& t % 4096 == 0
        &&& self.base <= t
        &&& t + 4096 <= self.base + 8 * self.words@.len()
    }

    /// Word index of entry `i` of the table at `t`.
    pub open spec fn slot(&self, t: int, i: int) -> int {
        (t - self.base) / 8 + i
    }

    /// Entry `i` of the table at `t`.
    pub open spec fn ent(&self, t: int, i: int) -> u64 {
        self.words@[self.slot(t, i)]
    }

    pub fn new(base: u64, words: Vec<u64>) -> (m: PhysMem)
        ensures
            m.base == base,
            m.words@ == words@,
    {
        PhysMem { base, words }
    }

    /// Whether the page at `t` lies in this memory.
    pub fn holds_frame(&self, t: u64) -> (b: bool)
        requires
            self.wf(),
        ensures
            b == self.holds(t as int),
    {
        let n = self.words.len() as u64;
        t % 4096 == 0 && self.base <= t && (t - self.base) / 8 <= n && n - (t - self.base) / 8 >= 512
    }

    /// Word index of the first entry of the table at `t`.
    fn start_of(&self, t: u64) -> (k: usize)
        requires
            self.wf(),
            self.holds(t as int),
        ensures
            k == self.slot(t as int, 0),
            k + 512 <= self.words@.len() <= usize::MAX,
            k % 512 == 0,
    {
        let n = self.words.len();
        let d = (t - self.base) / 8;
        assert(d + 512 <= n);
        assert(d % 512 == 0) by {
            assert((t - self.base) % 4096 == 0);
        }
        d as usize
    }

    /// Entry `i` of the table at `t`.
    pub fn read(&self, t: u64, i: usize) -> (v: u64)
        requires
            self.wf(),
            self.holds(t as int),
            i < ENTRIES,
        ensures
            0 <= self.slot(t as int, i as int) < self.words@.len(),
            v == self.ent(t as int, i as int),
    {
        let k = self.start_of(t) + i;
        self.words[k]
    }

    /// Set entry `i` of the table at `t`.
    pub fn write(&mut self, t: u64, i: usize, v: u64)
        requires
            old(self).wf(),
            old(self).holds(t as int),
            i < ENTRIES,
        ensures
            final(self).base == old(self).base,
            0 <= old(self).slot(t as int, i as int) < old(self).words@.len(),
            final(self).words@ == old(self).words@.update(old(self).slot(t as int, i as int), v),
    {
        let k = self.start_of(t) + i;
        self.words.set(k, v);
    }

    /// Zero the page at `t`.
    pub fn zero_frame(&mut self, t: u64)
        requires
            old(self).wf(),
            old(self).holds(t as int),
        ensures
            final(self).base == old(self).base,
            final(self).words@.len() == old(self).words@.len(),
            forall|k: int|
                0 <= k < old(self).words@.len() ==> #[trigger] final(self).words@[k] == if old(self).slot(t as int, 0)
                    <= k < old(self).slot(t as int, 512) {
                    0u64
                } else {
                    old(self).words@[k]
                },
    {
        let start = self.start_of(t);
        let ghost w0 = self.words@;
        let mut i: usize = 0;
        while i < ENTRIES
            invariant
                i <= ENTRIES,
                start + 512 <= self.words@.len() <= usize::MAX,
                start == old(self).slot(t as int, 0),
                self.base == old(self).base,
                self.words@.len() == w0.len(),
                w0 == old(self).words@,
                forall|k: int|
                    0 <= k < w0.len() ==> #[trigger] self.words@[k] == if start <= k < start + i { 0u64 } else { w0[k] },
            decreases ENTRIES - i,
        {
            self.words.set(start + i, 0);
            i = i + 1;
        }
    }

    /// Copy the page at `from` over the page at `to`.
    pub fn copy_frame(&mut self, from: u64, to: u64)
        requires
            old(self).wf(),
            old(self).holds(from as int),
            old(self).holds(to as int),
        ensures
            final(self).base == old(self).base,
            final(self).words@.len() == old(self).words@.len(),
            forall|k: int|
                0 <= k < old(self).words@.len() ==> #[trigger] final(self).words@[k] == if old(self).slot(to as int, 0)
                    <= k < old(self).slot(to as int, 512) {
                    old(self).words@[old(self).slot(from as int, k - old(self).slot(to as int, 0))]
                } else {
                    old(self).words@[k]
                },
    {
        let src = self.start_of(from);
        let dst = self.start_of(to);
        let ghost w0 = self.words@;
        let mut i: usize = 0;
        while i < ENTRIES
            invariant
                i <= ENTRIES,
                src + 512 <= w0.len() <= usize::MAX,
                dst + 512 <= w0.len(),
                src == old(self).slot(from as int, 0),
                dst == old(self).slot(to as int, 0),
                src == dst || src + 512 <= dst || dst + 512 <= src,
                self.base == old(self).base,
                self.words@.len() == w0.len(),
                w0 == old(self).words@,
                forall|k: int|
                    0 <= k < w0.len() ==> #[trigger] self.words@[k] == if dst <= k < dst + i { w0[src + (k - dst)] } else { w0[k] },
            decreases ENTRIES - i,
        {
            let v = self.words[src + i];
            self.words.set(dst + i, v);
            i = i + 1;
        }
    }
}

/// The 9-bit table index of `v` at the level whose index starts at bit `shift`.
pub open spec fn index(v: u64, shift: u64) -> int {
    ((v >> shift) & 0x1FF) as int
}

/// The table (or frame) an entry points at.
pub open spec fn frame_of(e: u64) -> int {
    (e & !0xFFFu64) as int
}

/// The words after copying the page at `from` over the page at `to`.
pub open spec fn copied(m: PhysMem, from: int, to: int) -> Seq<u64> {
    Seq::new(
        m.words@.len(),
        |k: int|
            if m.slot(to, 0) <= k < m.slot(to, 0) + 512 {
                m.words@[m.slot(from, k - m.slot(to, 0))]
            } else {
                m.words@[k]
            },
    )
}

/// Words `s .. s + 512` set to zero.
pub open spec fn zeroed(w: Seq<u64>, s: int) -> Seq<u64> {
    Seq::new(w.len(), |k: int| if s <= k < s + 512 { 0u64 } else { w[k] })
}

/// The table index of `v` at the level starting at bit `shift`.
pub(crate) fn index_of(v: u64, shift: u64) -> (i: usize)
    requires
        shift < 64,
    ensures
        i == index(v, shift),
        i < ENTRIES,
{
    let i = (v >> shift) & 0x1FF;
    assert(i < 512) by (bit_vector)
        requires i == (v >> shift) & 0x1FF;
    i as usize
}

/// Distinct page-aligned frames hold disjoint words.
pub(crate) proof fn lemma_frames_disjoint(m: PhysMem, s: int, t: int)
    requires
        m.wf(),
        m.holds(s),
        m.holds(t),
        s != t,
    ensures
        m.slot(s, 0) + 512 <= m.slot(t, 0) || m.slot(t, 0) + 512 <= m.slot(s, 0),
{
    assert((s - m.base) % 4096 == 0 && (t - m.base) % 4096 == 0);
}

/// `t | flags` points at `t` when `t` is page aligned and the flags fit in
/// the low 12 bits.
pub(crate) proof fn lemma_frame_of_entry(t: u64, flags: u64)
    requires
        t % 4096 == 0,
        flags < 4096,
    ensures
        frame_of(t | flags) == t,
        (t | flags) != 0 || flags == 0,
        flags & 1 == 1 ==> (t | flags) != 0,
        (t | flags) & 1 == flags & 1,
{
    assert((t | flags) & !0xFFFu64 == t && (flags & 1 == 1 ==> (t | flags) != 0) && ((t | flags) != 0 || flags == 0)
        && (t | flags) & 1 == flags & 1) by (bit_vector)
        requires t % 4096 == 0, flags < 4096;
}

/// After a fresh table `t` is linked from entry `idx` of `table`: `t`
/// reads as zeros, the entry is `v`, every other entry is as before.
pub(crate) proof fn lemma_linked(m: PhysMem, m2: PhysMem, table: int, idx: int, t: u64, v: u64)
    requires
        m.wf(),
        m.holds(table),
        m.holds(t as int),
        t as int != table,
        0 <= idx < 512,
        m2.base == m.base,
        m2.words@ == zeroed(zeroed(m.words@, m.slot(t as int, 0)).update(m.slot(table, idx), v), m.slot(t as int, 0)),
    ensures
        m2.words@.len() == m.words@.len(),
        m2.ent(table, idx) == v,
        forall|i: int| 0 <= i < 512 ==> #[trigger] m2.ent(t as int, i) == 0,
        forall|s: int, i: int|
            m.holds(s) && s != t && 0 <= i < 512 && !(s == table && i == idx) ==> #[trigger] m2.ent(s, i) == m.ent(s, i),
{
    lemma_frames_disjoint(m, table, t as int);
    assert forall|s: int, i: int|
        m.holds(s) && s != t && 0 <= i < 512 && !(s == table && i == idx) implies #[trigger] m2.ent(s, i) == m.ent(s, i) by {
        lemma_frames_disjoint(m, s, t as int);
        if s != table {
            lemma_frames_disjoint(m, s, table);
        }
    }
}

/// After entry `i1` of `t1` is set to `v`, every other entry is as before.
pub(crate) proof fn lemma_written(m: PhysMem, m2: PhysMem, t1: int, i1: int, v: u64)
    requires
        m.wf(),
        m.holds(t1),
        0 <= i1 < 512,
        m2.base == m.base,
        m2.words@ == m.words@.update(m.slot(t1, i1), v),
    ensures
        m2.ent(t1, i1) == v,
        forall|s: int, i: int| m.holds(s) && 0 <= i < 512 && !(s == t1 && i == i1) ==> #[trigger] m2.ent(s, i) == m.ent(s, i),
{
    assert forall|s: int, i: int| m.holds(s) && 0 <= i < 512 && !(s == t1 && i == i1) implies #[trigger] m2.ent(s, i)
        == m.ent(s, i) by {
        if s != t1 {
            lemma_frames_disjoint(m, s, t1);
        }
    }
}

/// Table indices and entries of the fixed addresses the kernel maps.
pub(crate) proof fn lemma_fixed_entries()
    by (bit_vector)
    ensures
        (0x1000_0000u64 >> 39u64) & 0x1FF == 0,
        (0x1000_0000u64 >> 30u64) & 0x1FF == 0,
        (0xC000_0000u64 >> 39u64) & 0x1FF == 0,
        (0xC000_0000u64 >> 30u64) & 0x1FF == 3,
        (0xFFFF_FFFFu64 >> 30u64) & 0x1FF == 3,
        (3u64 << 30u64) == 0xC000_0000u64,
        (0x4000_0000u64 >> 39u64) & 0x1FF == 0,
        (0x4000_0000u64 >> 30u64) & 0x1FF == 1,
        (0xF000_0000u64 >> 39u64) & 0x1FF == 0,
        (0x0800_0000u64 >> 39u64) & 0x1FF == 0,
        0u64 | 0x741u64 == 0x741u64,
        0u64 & 1u64 == 0u64,
        7u64 & 1u64 == 1u64,
{
}

} // verus!
