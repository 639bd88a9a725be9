//! Bitmap-based physical frame allocator: one bit per 4 KiB frame, 1 = in use.

use vstd::prelude::*;
use crate::common::{MemoryRegion, MemoryRegionKind};

verus! {

pub const PAGE_SIZE: usize = 4096;

/// Bit `f` of the bitmap (frame `f` is in use).
pub open spec fn bit_set(bm: Seq<u64>, f: int) -> bool {
    (bm[f / 64] >> ((f % 64) as u64)) & 1u64 == 1u64
}

/// First frame at or after `f` whose bit is clear (`64 * bm.len()` if none).
pub open spec fn first_free_from(bm: Seq<u64>, f: int) -> int
    decreases 64 * bm.len() - f,
{
    if f < 0 || f >= 64 * bm.len() {
        64 * bm.len() as int
    } else if !bit_set(bm, f) {
        f
    } else {
        first_free_from(bm, f + 1)
    }
}

/// Frames `s .. s + n` all lie below `limit` and are clear.
pub open spec fn run_free(bm: Seq<u64>, s: int, n: int, limit: int) -> bool {
    &&& 0 <= s
    &&& s + n <= limit
    &&& forall|g: int| s <= g < s + n ==> !#[trigger] bit_set(bm, g)
}

/// Bitmap-based physical frame allocator.
pub struct FrameAllocator {
    bitmap: Vec<u64>,
    total_frames: usize,
    used_frames: usize,
    base_frame: usize,
}

pub(crate) proof fn lemma_word_bits(w: u64, j: u64, b: u64)
    requires
        j < 64,
        b < 64,
    ensures
        ((w | (1u64 << b)) >> j) & 1u64 == (if j == b { 1u64 } else { (w >> j) & 1u64 }),
        ((w & !(1u64 << b)) >> j) & 1u64 == (if j == b { 0u64 } else { (w >> j) & 1u64 }),
        w == !0u64 ==> (w >> j) & 1u64 == 1u64,
        (w >> j) & 1u64 == 1u64 || (w >> j) & 1u64 == 0u64,
{
    assert(((w | (1u64 << b)) >> j) & 1u64 == (if j == b { 1u64 } else { (w >> j) & 1u64 }))
        by (bit_vector)
        requires j < 64, b < 64;
    assert(((w & !(1u64 << b)) >> j) & 1u64 == (if j == b { 0u64 } else { (w >> j) & 1u64 }))
        by (bit_vector)
        requires j < 64, b < 64;
    assert(w == !0u64 ==> (w >> j) & 1u64 == 1u64) by (bit_vector)
        requires j < 64;
    assert((w >> j) & 1u64 == 1u64 || (w >> j) & 1u64 == 0u64) by (bit_vector);
}

/// Setting bit `f` changes no other bit of the bitmap.
pub(crate) proof fn lemma_set_bit(bm: Seq<u64>, f: int, nb: Seq<u64>, set: bool)
    requires
        0 <= f < 64 * bm.len(),
        nb.len() == bm.len(),
        forall|i: int| 0 <= i < bm.len() && i != f / 64 ==> nb[i] == bm[i],
        set ==> nb[f / 64] == bm[f / 64] | (1u64 << ((f % 64) as u64)),
        !set ==> nb[f / 64] == bm[f / 64] & !(1u64 << ((f % 64) as u64)),
    ensures
        bit_set(nb, f) == set,
        forall|g: int| 0 <= g < 64 * bm.len() && g != f ==> #[trigger] bit_set(nb, g) == bit_set(bm, g),
{
    lemma_word_bits(bm[f / 64], (f % 64) as u64, (f % 64) as u64);
    assert forall|g: int| 0 <= g < 64 * bm.len() && g != f implies #[trigger] bit_set(nb, g) == bit_set(bm, g) by {
        if g / 64 == f / 64 {
            lemma_word_bits(bm[f / 64], (g % 64) as u64, (f % 64) as u64);
        }
    }
}

/// Skipping frames that are all in use does not move the first free frame.
pub(crate) proof fn lemma_skip_used(bm: Seq<u64>, a: int, b: int)
    requires
        0 <= a <= b <= 64 * bm.len(),
        forall|g: int| a <= g < b ==> #[trigger] bit_set(bm, g),
    ensures
        first_free_from(bm, a) == first_free_from(bm, b),
    decreases b - a,
{
    if a < b {
        lemma_skip_used(bm, a + 1, b);
    }
}

pub(crate) proof fn lemma_first_free_is_free(bm: Seq<u64>, a: int)
    requires
        0 <= a <= 64 * bm.len(),
    ensures
        a <= first_free_from(bm, a) <= 64 * bm.len(),
        first_free_from(bm, a) < 64 * bm.len() ==> !bit_set(bm, first_free_from(bm, a)),
        forall|g: int| a <= g < first_free_from(bm, a) ==> #[trigger] bit_set(bm, g),
    decreases 64 * bm.len() - a,
{
    if a < 64 * bm.len() && bit_set(bm, a) {
        lemma_first_free_is_free(bm, a + 1);
    }
}

impl FrameAllocator {
    pub closed spec fn bits(&self) -> Seq<u64> {
        self.bitmap@
    }

    /// Number of frames the bitmap can describe.
    pub closed spec fn capacity(&self) -> int {
        64 * self.bitmap@.len() as int
    }

    pub closed spec fn total(&self) -> int {
        self.total_frames as int
    }

    pub closed spec fn used_count(&self) -> int {
        self.used_frames as int
    }

    /// Frame `f` is in use.
    pub open spec fn is_used(&self, f: int) -> bool {
        bit_set(self.bits(), f)
    }

    pub closed spec fn wf(&self) -> bool {
        &&& 64 * self.bitmap@.len() * PAGE_SIZE <= usize::MAX
        &&& self.total_frames <= 64 * self.bitmap@.len()
    }

    /// Build an allocator for the memory map: every frame below the highest
    /// usable address starts out in use, then the frames of usable regions are
    /// released. Returns the allocator and the number of set bits.
    pub fn init(memory_map: &[MemoryRegion]) -> (r: (Self, usize))
        requires
            forall|i: int| 0 <= i < memory_map@.len() && memory_map@[i].kind == MemoryRegionKind::Usable
                ==> memory_map@[i].base + memory_map@[i].length <= usize::MAX - 0x4_0000,
        ensures
            r.0.wf(),
            r.0.used_count() == 0,
            r.1 == set_count(r.0.bits(), r.0.capacity()),
            forall|f: int| 0 <= f < r.0.capacity() ==> (#[trigger] r.0.is_used(f) <==> !(f < r.0.total()
                && exists|i: int| 0 <= i < memory_map@.len() && #[trigger] region_holds(memory_map@[i], f))),
    {
        let mut max_phys: u64 = 0;
        let mut k: usize = 0;
        while k < memory_map.len()
            invariant
                k <= memory_map@.len(),
                max_phys <= usize::MAX - 0x4_0000,
                forall|i: int| 0 <= i < memory_map@.len() && memory_map@[i].kind == MemoryRegionKind::Usable
                    ==> memory_map@[i].base + memory_map@[i].length <= usize::MAX - 0x4_0000,
            decreases memory_map@.len() - k,
        {
            let region = memory_map[k];
            if region.kind == MemoryRegionKind::Usable {
                let end = region.base + region.length;
                if end > max_phys {
                    max_phys = end;
                }
            }
            k += 1;
        }
        let total_frames = (max_phys / PAGE_SIZE as u64) as usize;
        let bitmap_words = (total_frames + 63) / 64;
        let mut bitmap: Vec<u64> = Vec::new();
        let mut w: usize = 0;
        while w < bitmap_words
            invariant
                w <= bitmap_words,
                bitmap@.len() == w,
                forall|i: int| 0 <= i < w ==> bitmap@[i] == !0u64,
            decreases bitmap_words - w,
        {
            bitmap.push(!0u64);
            w += 1;
        }
        proof {
            assert forall|f: int| 0 <= f < 64 * bitmap@.len() implies #[trigger] bit_set(bitmap@, f) by {
                lemma_word_bits(bitmap@[f / 64], (f % 64) as u64, 0);
            }
        }
        // Mark usable regions as free.
        let mut k: usize = 0;
        while k < memory_map.len()
            invariant
                k <= memory_map@.len(),
                bitmap@.len() == bitmap_words,
                bitmap_words * 64 >= total_frames,
                64 * bitmap_words * 4096 <= usize::MAX,
                forall|i: int| 0 <= i < memory_map@.len() && memory_map@[i].kind == MemoryRegionKind::Usable
                    ==> memory_map@[i].base + memory_map@[i].length <= usize::MAX - 0x4_0000,
                forall|f: int| 0 <= f < 64 * bitmap@.len() ==> (!#[trigger] bit_set(bitmap@, f) <==> (f
                    < total_frames && exists|i: int| 0 <= i < k && #[trigger] region_holds(memory_map@[i], f))),
            decreases memory_map@.len() - k,
        {
            let region = memory_map[k];
            if region.kind == MemoryRegionKind::Usable {
                let start_frame = (region.base / PAGE_SIZE as u64) as usize;
                let num_frames = (region.length / PAGE_SIZE as u64) as usize;
                let mut i: usize = 0;
                while i < num_frames
                    invariant
                        i <= num_frames,
                        start_frame + num_frames <= usize::MAX / 4096,
                        region == memory_map@[k as int],
                        region.kind == MemoryRegionKind::Usable,
                        start_frame == region.base / 4096,
                        num_frames == region.length / 4096,
                        bitmap@.len() == bitmap_words,
                        bitmap_words * 64 >= total_frames,
                        forall|f: int| 0 <= f < 64 * bitmap@.len() ==> (!#[trigger] bit_set(bitmap@, f) <==> (f
                            < total_frames && ((exists|j: int| 0 <= j < k && #[trigger] region_holds(memory_map@[j], f))
                            || start_frame <= f < start_frame + i))),
                    decreases num_frames - i,
                {
                    let frame = start_frame + i;
                    if frame < total_frames {
                        let word = frame / 64;
                        let bit = frame % 64;
                        let ghost old_bm = bitmap@;
                        let cur = bitmap[word];
                        bitmap.set(word, cur & !(1u64 << bit));
                        proof {
                            lemma_set_bit(old_bm, frame as int, bitmap@, false);
                        }
                    }
                    i += 1;
                }
                assert forall|f: int| 0 <= f < 64 * bitmap@.len() implies (!#[trigger] bit_set(bitmap@, f) <==> (f
                    < total_frames && exists|i: int| 0 <= i < k + 1 && #[trigger] region_holds(memory_map@[i], f))) by {
                    if start_frame <= f < start_frame + num_frames {
                        assert(region_holds(memory_map@[k as int], f));
                    }
                    if exists|i: int| 0 <= i < k + 1 && #[trigger] region_holds(memory_map@[i], f) {
                        let i = choose|i: int| 0 <= i < k + 1 && #[trigger] region_holds(memory_map@[i], f);
                        if i == k {
                            assert(start_frame <= f < start_frame + num_frames);
                        }
                    }
                }
            } else {
                assert forall|f: int| 0 <= f < 64 * bitmap@.len() implies (!#[trigger] bit_set(bitmap@, f) <==> (f
                    < total_frames && exists|i: int| 0 <= i < k + 1 && #[trigger] region_holds(memory_map@[i], f))) by {
                    if exists|i: int| 0 <= i < k + 1 && #[trigger] region_holds(memory_map@[i], f) {
                        let i = choose|i: int| 0 <= i < k + 1 && #[trigger] region_holds(memory_map@[i], f);
                        assert(i != k);
                    }
                }
            }
            k += 1;
        }
        let alloc = FrameAllocator { bitmap, total_frames, used_frames: 0, base_frame: 0 };
        assert(alloc.wf());
        let set_bits = alloc.count_free();
        (alloc, set_bits)
    }

    /// Count the set bits of the bitmap.
    fn count_free(&self) -> (r: usize)
        requires
            self.wf(),
        ensures
            r == set_count(self.bits(), self.capacity()),
    {
        let mut count: usize = 0;
        let mut i: usize = 0;
        while i < self.bitmap.len()
            invariant
                i <= self.bitmap@.len(),
                self.wf(),
                count == set_count(self.bitmap@, 64 * i),
                count <= 64 * i,
            decreases self.bitmap@.len() - i,
        {
            let word = self.bitmap[i];
            let mut j: u64 = 0;
            while j < 64
                invariant
                    j <= 64,
                    i < self.bitmap@.len(),
                    word == self.bitmap@[i as int],
                    self.wf(),
                    count == set_count(self.bitmap@, 64 * i + j),
                    count <= 64 * i + j,
                decreases 64 - j,
            {
                proof {
                    assert((64 * i + j) / 64 == i && (64 * i + j) % 64 == j);
                }
                if (word >> j) & 1u64 == 1u64 {
                    count += 1;
                }
                j += 1;
            }
            i += 1;
        }
        count
    }

    /// Allocate a single physical frame; returns its physical address.
    /// The lowest frame whose bit is clear is taken.
    pub fn alloc_frame(&mut self) -> (r: Option<usize>)
        requires
            old(self).wf(),
            old(self).used_count() < usize::MAX,
        ensures
            final(self).wf(),
            final(self).total() == old(self).total(),
            final(self).capacity() == old(self).capacity(),
            ({
                let f = first_free_from(old(self).bits(), 0);
                if f < old(self).capacity() {
                    &&& r == Some((f * PAGE_SIZE) as usize)
                    &&& final(self).is_used(f)
                    &&& forall|g: int| 0 <= g < old(self).capacity() && g != f ==> #[trigger] final(self).is_used(g)
                        == old(self).is_used(g)
                    &&& final(self).used_count() == old(self).used_count() + 1
                } else {
                    &&& r is None
                    &&& final(self).bits() == old(self).bits()
                    &&& final(self).used_count() == old(self).used_count()
                }
            }),
    {
        let ghost bm = self.bitmap@;
        let mut i: usize = 0;
        while i < self.bitmap.len()
            invariant
                self.bitmap@ == bm,
                bm == old(self).bitmap@,
                self.total_frames == old(self).total_frames,
                self.used_frames == old(self).used_frames,
                self.used_frames < usize::MAX,
                i <= bm.len(),
                first_free_from(bm, 0) == first_free_from(bm, 64 * i),
                self.wf(),
            decreases bm.len() - i,
        {
            let word = self.bitmap[i];
            if word != !0u64 {
                let bit = word.trailing_ones() as usize;
                proof {
                    vstd::std_specs::bits::axiom_u64_trailing_ones(word);
                    assert(!0u64 == 0xffff_ffff_ffff_ffffu64) by (bit_vector);
                    assert(bit < 64);
                    assert forall|g: int| 64 * i <= g < 64 * i + bit implies #[trigger] bit_set(bm, g) by {
                        assert(g / 64 == i);
                        let j = (g % 64) as u64;
                        assert(j < vstd::std_specs::bits::u64_trailing_ones(word));
                    }
                    lemma_skip_used(bm, 64 * i, 64 * i + bit);
                    assert((64 * i + bit) / 64 == i);
                    assert(!bit_set(bm, 64 * i + bit));
                }
                let frame = i * 64 + bit;
                self.bitmap.set(i, word | (1u64 << bit));
                proof {
                    lemma_set_bit(bm, frame as int, self.bitmap@, true);
                    lemma_mul_bound(frame as int, 64 * bm.len() as int);
                }
                self.used_frames += 1;
                return Some(frame * PAGE_SIZE);
            }
            proof {
                assert forall|g: int| 64 * i <= g < 64 * i + 64 implies #[trigger] bit_set(bm, g) by {
                    assert(g / 64 == i);
                    lemma_word_bits(word, (g % 64) as u64, 0);
                }
                lemma_skip_used(bm, 64 * i, 64 * i + 64);
            }
            i += 1;
        }
        None
    }

    /// Allocate `count` contiguous frames below `total_frames`; returns the first
    /// frame's physical address. The lowest such run is taken.
    pub fn alloc_frames(&mut self, count: usize) -> (r: Option<usize>)
        requires
            old(self).wf(),
            any_run(old(self).bits(), window(count), old(self).total()) ==> old(self).used_count() + count
                <= usize::MAX,
        ensures
            final(self).wf(),
            final(self).total() == old(self).total(),
            final(self).capacity() == old(self).capacity(),
            match r {
                Some(a) => exists|s: int| {
                    &&& a == s * PAGE_SIZE
                    &&& #[trigger] is_first_run(old(self).bits(), s, window(count), old(self).total())
                    &&& forall|g: int| 0 <= g < old(self).capacity() ==> #[trigger] final(self).is_used(g)
                        == (if s <= g < s + count { true } else { old(self).is_used(g) })
                    &&& final(self).used_count() == old(self).used_count() + count
                },
                None => {
                    &&& forall|s: int| !#[trigger] run_free(old(self).bits(), s, window(count), old(self).total())
                    &&& final(self).bits() == old(self).bits()
                    &&& final(self).used_count() == old(self).used_count()
                },
            },
    {
        let ghost bm = self.bitmap@;
        let ghost n = window(count);
        let ghost total = self.total_frames as int;
        let mut consecutive: usize = 0;
        let mut start_frame: Option<usize> = None;
        let mut i: usize = 0;
        while i < self.bitmap.len()
            invariant
                self.bitmap@ == bm,
                bm == old(self).bitmap@,
                self.total_frames == old(self).total_frames,
                self.used_frames == old(self).used_frames,
                total == self.total_frames,
                n == window(count),
                any_run(bm, n, total) ==> self.used_frames + count <= usize::MAX,
                self.wf(),
                i <= bm.len(),
                consecutive < n,
                (consecutive == 0) == (start_frame is None),
                forall|s: int| s < scan_floor(start_frame, 64 * i) ==> !#[trigger] run_free(bm, s, n, total),
                start_frame matches Some(s0) ==> {
                    &&& s0 + consecutive == min_int(64 * i, total)
                    &&& run_free(bm, s0 as int, consecutive as int, total)
                },
            decreases bm.len() - i,
        {
            let word = self.bitmap[i];
            if word == !0u64 {
                proof {
                    assert forall|s: int| s < 64 * i + 64 implies !#[trigger] run_free(bm, s, n, total) by {
                        if s >= scan_floor(start_frame, 64 * i) {
                            if s + n <= total {
                                let g = if s <= 64 * i { 64 * i } else { s };
                                assert(g / 64 == i);
                                lemma_word_bits(word, (g % 64) as u64, 0);
                                assert(bit_set(bm, g));
                            }
                        }
                    }
                }
                consecutive = 0;
                start_frame = None;
                i += 1;
                continue;
            }
            let mut bit: usize = 0;
            while bit < 64
                invariant
                    self.bitmap@ == bm,
                    bm == old(self).bitmap@,
                    self.total_frames == old(self).total_frames,
                    self.used_frames == old(self).used_frames,
                    total == self.total_frames,
                    n == window(count),
                    any_run(bm, n, total) ==> self.used_frames + count <= usize::MAX,
                    self.wf(),
                    i < bm.len(),
                    word == bm[i as int],
                    bit <= 64,
                    consecutive < n,
                    (consecutive == 0) == (start_frame is None),
                    forall|s: int| s < scan_floor(start_frame, 64 * i + bit) ==> !#[trigger] run_free(bm, s, n, total),
                    start_frame matches Some(s0) ==> {
                        &&& s0 + consecutive == min_int(64 * i + bit, total)
                        &&& run_free(bm, s0 as int, consecutive as int, total)
                    },
                ensures
                    self.bitmap@ == bm,
                    self.used_frames == old(self).used_frames,
                    self.total_frames == old(self).total_frames,
                    consecutive < n,
                    (consecutive == 0) == (start_frame is None),
                    forall|s: int| s < scan_floor(start_frame, 64 * i + 64) ==> !#[trigger] run_free(bm, s, n, total),
                    start_frame matches Some(s0) ==> {
                        &&& s0 + consecutive == min_int(64 * i + 64, total)
                        &&& run_free(bm, s0 as int, consecutive as int, total)
                    },
                decreases 64 - bit,
            {
                let frame = i * 64 + bit;
                if frame >= self.total_frames {
                    proof {
                        assert forall|s: int| s < scan_floor(start_frame, 64 * i + 64) implies !#[trigger] run_free(bm, s, n, total) by {
                            if s >= scan_floor(start_frame, 64 * i + bit) {
                                assert(s + n > total);
                            }
                        }
                    }
                    break;
                }
                proof {
                    assert(frame / 64 == i && frame % 64 == bit);
                    lemma_word_bits(word, bit as u64, 0);
                }
                let is_free = (word & (1u64 << bit)) == 0;
                proof {
                    assert(((word & (1u64 << (bit as u64))) == 0u64) == ((word >> (bit as u64)) & 1u64 == 0u64)) by (bit_vector)
                        requires bit < 64;
                }
                if is_free {
                    if start_frame.is_none() {
                        start_frame = Some(frame);
                    }
                    consecutive += 1;
                    if consecutive >= count {
                        let s0 = match start_frame {
                            Some(v) => v,
                            None => frame,
                        };
                        proof {
                            assert(run_free(bm, s0 as int, n, total));
                            assert(is_first_run(bm, s0 as int, n, total));
                            assert(any_run(bm, n, total));
                            lemma_mul_bound(s0 as int, 64 * bm.len() as int);
                        }
                        // Mark all frames as used.
                        let mut j: usize = 0;
                        while j < count
                            invariant
                                j <= count,
                                s0 + count <= total,
                                total <= 64 * bm.len(),
                                self.bitmap@.len() == bm.len(),
                                self.total_frames == old(self).total_frames,
                                self.used_frames == old(self).used_frames,
                                self.wf(),
                                forall|g: int| 0 <= g < 64 * bm.len() ==> #[trigger] bit_set(self.bitmap@, g)
                                    == (if s0 <= g < s0 + j { true } else { bit_set(bm, g) }),
                            decreases count - j,
                        {
                            let f = s0 + j;
                            let w = f / 64;
                            let b = f % 64;
                            let ghost before = self.bitmap@;
                            let cur = self.bitmap[w];
                            self.bitmap.set(w, cur | (1u64 << b));
                            proof {
                                lemma_set_bit(before, f as int, self.bitmap@, true);
                            }
                            j += 1;
                        }
                        self.used_frames += count;
                        assert(is_first_run(old(self).bits(), s0 as int, window(count), old(self).total()));
                        return Some(s0 * PAGE_SIZE);
                    }
                } else {
                    proof {
                        assert forall|s: int| s < frame + 1 implies !#[trigger] run_free(bm, s, n, total) by {
                            if s >= scan_floor(start_frame, 64 * i + bit) && s + n <= total {
                                assert(s <= frame < s + n);
                                assert(bit_set(bm, frame as int));
                            }
                        }
                    }
                    consecutive = 0;
                    start_frame = None;
                }
                bit += 1;
            }
            i += 1;
        }
        proof {
            assert forall|s: int| !#[trigger] run_free(bm, s, n, total) by {
                if s >= scan_floor(start_frame, 64 * bm.len() as int) {
                    assert(s + n > total);
                }
            }
        }
        None
    }

    /// Free a physical frame. Addresses beyond the managed frames are ignored.
    pub fn free_frame(&mut self, phys_addr: usize)
        requires
            old(self).wf(),
            phys_addr / PAGE_SIZE < old(self).total() ==> old(self).used_count() > 0,
        ensures
            final(self).wf(),
            final(self).total() == old(self).total(),
            final(self).capacity() == old(self).capacity(),
            ({
                let f = (phys_addr / PAGE_SIZE) as int;
                if f < old(self).total() {
                    &&& !final(self).is_used(f)
                    &&& forall|g: int| 0 <= g < old(self).capacity() && g != f ==> #[trigger] final(self).is_used(g)
                        == old(self).is_used(g)
                    &&& final(self).used_count() == old(self).used_count() - 1
                } else {
                    &&& final(self).bits() == old(self).bits()
                    &&& final(self).used_count() == old(self).used_count()
                }
            }),
    {
        let frame = phys_addr / PAGE_SIZE;
        if frame < self.total_frames {
            let word = frame / 64;
            let bit = frame % 64;
            let ghost bm = self.bitmap@;
            let cur = self.bitmap[word];
            self.bitmap.set(word, cur & !(1u64 << bit));
            proof {
                lemma_set_bit(bm, frame as int, self.bitmap@, false);
            }
            self.used_frames -= 1;
        }
    }

    /// Free `count` contiguous frames starting at `phys_addr`.
    pub fn free_frames(&mut self, phys_addr: usize, count: usize)
        requires
            old(self).wf(),
            phys_addr + count * PAGE_SIZE <= usize::MAX,
            old(self).used_count() >= freed_in((phys_addr / PAGE_SIZE) as int, count as int, old(self).total()),
        ensures
            final(self).wf(),
            final(self).total() == old(self).total(),
            final(self).capacity() == old(self).capacity(),
            forall|g: int| 0 <= g < old(self).capacity() ==> #[trigger] final(self).is_used(g) == (if (phys_addr
                / PAGE_SIZE) as int <= g < (phys_addr / PAGE_SIZE) + count && g < old(self).total() {
                false
            } else {
                old(self).is_used(g)
            }),
            final(self).used_count() == old(self).used_count() - freed_in(
                (phys_addr / PAGE_SIZE) as int,
                count as int,
                old(self).total(),
            ),
    {
        let ghost p = (phys_addr / PAGE_SIZE) as int;
        let mut i: usize = 0;
        while i < count
            invariant
                i <= count,
                self.wf(),
                phys_addr + count * PAGE_SIZE <= usize::MAX,
                p == phys_addr / PAGE_SIZE,
                self.total_frames == old(self).total_frames,
                self.bitmap@.len() == old(self).bitmap@.len(),
                self.used_frames == old(self).used_frames - freed_in(p, i as int, self.total_frames as int),
                old(self).used_frames >= freed_in(p, count as int, self.total_frames as int),
                forall|g: int| 0 <= g < old(self).capacity() ==> #[trigger] bit_set(self.bitmap@, g) == (if p <= g
                    < p + i && g < self.total_frames {
                    false
                } else {
                    bit_set(old(self).bitmap@, g)
                }),
            decreases count - i,
        {
            let addr = phys_addr + i * PAGE_SIZE;
            assert(addr / PAGE_SIZE == p + i);
            let ghost before = *self;
            self.free_frame(addr);
            proof {
                assert forall|g: int| 0 <= g < old(self).capacity() implies #[trigger] bit_set(self.bitmap@, g)
                    == (if p <= g < p + i + 1 && g < self.total_frames {
                    false
                } else {
                    bit_set(old(self).bitmap@, g)
                }) by {
                    if g != p + i {
                        assert(self.is_used(g) == before.is_used(g));
                    } else if g < self.total_frames {
                        assert(!self.is_used(g));
                    } else {
                        assert(self.bits() == before.bits());
                    }
                }
            }
            i += 1;
        }
    }

    /// Total number of frames below the highest usable address.
    pub fn total_frames(&self) -> (r: usize)
        ensures
            r == self.total(),
    {
        self.total_frames
    }
}

/// Frames requested by a contiguous allocation (a request for none still takes one free frame).
pub open spec fn window(count: usize) -> int {
    if count == 0 {
        1
    } else {
        count as int
    }
}

/// Some run of `n` free frames lies below `limit`.
pub open spec fn any_run(bm: Seq<u64>, n: int, limit: int) -> bool {
    exists|s: int| run_free(bm, s, n, limit)
}

/// `s` starts the lowest free run of `n` frames below `limit`.
pub open spec fn is_first_run(bm: Seq<u64>, s: int, n: int, limit: int) -> bool {
    &&& run_free(bm, s, n, limit)
    &&& forall|t: int| t < s ==> !#[trigger] run_free(bm, t, n, limit)
}

pub open spec fn min_int(a: int, b: int) -> int {
    if a < b {
        a
    } else {
        b
    }
}

/// No free run of the requested size starts below this frame.
pub open spec fn scan_floor(start: Option<usize>, pos: int) -> int {
    match start {
        Some(s) => s as int,
        None => pos,
    }
}

/// Frames of `first .. first + count` that lie below `total`.
pub open spec fn freed_in(first: int, count: int, total: int) -> int {
    if first >= total {
        0
    } else if first + count <= total {
        count
    } else {
        total - first
    }
}

/// Number of set bits among frames `0 .. n`.
pub open spec fn set_count(bm: Seq<u64>, n: int) -> int
    decreases n,
{
    if n <= 0 {
        0
    } else {
        set_count(bm, n - 1) + (if bit_set(bm, n - 1) { 1int } else { 0 })
    }
}

/// Frame `f` lies inside usable region `r`.
pub open spec fn region_holds(r: MemoryRegion, f: int) -> bool {
    r.kind == MemoryRegionKind::Usable && r.base / 4096 <= f < r.base / 4096 + r.length / 4096
}

/// Every frame the allocator manages has an address that fits in a `usize`.
pub(crate) proof fn lemma_frame_addr_fits(a: FrameAllocator, f: int)
    requires
        a.wf(),
        0 <= f < a.capacity(),
    ensures
        f * PAGE_SIZE <= usize::MAX,
        0 <= a.used_count(),
        a.capacity() == 64 * a.bits().len(),
{
    assert(f * 4096 <= 64 * a.bitmap@.len() * 4096) by (nonlinear_arith)
        requires 0 <= f < 64 * a.bitmap@.len();
}

/// The allocator describes 64 frames per bitmap word, and manages no more
/// frames than it describes.
pub proof fn lemma_capacity(a: FrameAllocator)
    ensures
        a.capacity() == 64 * a.bits().len(),
        a.wf() ==> a.total() <= a.capacity(),
{
}

proof fn lemma_mul_bound(f: int, cap: int)
    requires
        0 <= f < cap,
        cap * 4096 <= usize::MAX,
    ensures
        f * 4096 <= usize::MAX,
{
}

// ── The kernel-wide allocator, present once memory has been initialised ─────

/// Allocate a single physical frame, if the allocator is initialised.
pub fn alloc_frame(allocator: &mut Option<FrameAllocator>) -> (r: Option<usize>)
    requires
        (*old(allocator)) matches Some(a) ==> a.wf() && a.used_count() < usize::MAX,
    ensures
        (*old(allocator)) is None ==> r is None && *final(allocator) == *old(allocator),
        (*old(allocator)) matches Some(a) ==> (*final(allocator)) matches Some(b) && {
            let f = first_free_from(a.bits(), 0);
            &&& b.wf()
            &&& b.total() == a.total()
            &&& b.capacity() == a.capacity()
            &&& if f < a.capacity() {
                &&& r == Some((f * PAGE_SIZE) as usize)
                &&& b.is_used(f)
                &&& forall|g: int| 0 <= g < a.capacity() && g != f ==> #[trigger] b.is_used(g) == a.is_used(g)
                &&& b.used_count() == a.used_count() + 1
            } else {
                &&& r is None
                &&& b.bits() == a.bits()
                &&& b.used_count() == a.used_count()
            }
        },
{
    match allocator {
        Some(a) => a.alloc_frame(),
        None => None,
    }
}

/// Allocate `count` contiguous frames, if the allocator is initialised.
pub fn alloc_frames(allocator: &mut Option<FrameAllocator>, count: usize) -> (r: Option<usize>)
    requires
        (*old(allocator)) matches Some(a) ==> a.wf() && (any_run(a.bits(), window(count), a.total())
            ==> a.used_count() + count <= usize::MAX),
    ensures
        (*old(allocator)) is None ==> r is None && *final(allocator) == *old(allocator),
        (*old(allocator)) matches Some(a) ==> (*final(allocator)) matches Some(b) && b.wf() && match r {
            Some(addr) => exists|s: int| addr == s * PAGE_SIZE && #[trigger] is_first_run(a.bits(), s, window(count), a.total()),
            None => !any_run(a.bits(), window(count), a.total()),
        },
{
    match allocator {
        Some(a) => {
            let r = a.alloc_frames(count);
            proof {
                if r is None {
                    if any_run(a.bits(), window(count), a.total()) {
                        let s = choose|s: int| run_free(a.bits(), s, window(count), a.total());
                        assert(run_free(a.bits(), s, window(count), a.total()));
                    }
                }
            }
            r
        },
        None => None,
    }
}

/// Free a physical frame. The allocator must be initialised.
pub fn free_frame(allocator: &mut Option<FrameAllocator>, phys_addr: usize)
    requires
        (*old(allocator)) matches Some(a) && a.wf() && (phys_addr / PAGE_SIZE < a.total() ==> a.used_count() > 0),
    ensures
        (*final(allocator)) matches Some(b) && {
            let a = (*old(allocator))->Some_0;
            let f = (phys_addr / PAGE_SIZE) as int;
            &&& b.wf()
            &&& b.total() == a.total()
            &&& b.capacity() == a.capacity()
            &&& if f < a.total() {
                &&& !b.is_used(f)
                &&& forall|g: int| 0 <= g < a.capacity() && g != f ==> #[trigger] b.is_used(g) == a.is_used(g)
                &&& b.used_count() == a.used_count() - 1
            } else {
                &&& b.bits() == a.bits()
                &&& b.used_count() == a.used_count()
            }
        },
{
    match allocator {
        Some(a) => a.free_frame(phys_addr),
        None => {},
    }
}

/// Free `count` contiguous frames starting at `phys_addr`. The allocator must be initialised.
pub fn free_frames(allocator: &mut Option<FrameAllocator>, phys_addr: usize, count: usize)
    requires
        (*old(allocator)) matches Some(a) && a.wf() && phys_addr + count * PAGE_SIZE <= usize::MAX
            && a.used_count() >= freed_in((phys_addr / PAGE_SIZE) as int, count as int, a.total()),
    ensures
        (*final(allocator)) matches Some(b) && b.wf(),
        forall|g: int| (phys_addr / PAGE_SIZE) as int <= g < (phys_addr / PAGE_SIZE) + count && g
            < (*old(allocator))->Some_0.total() ==> !#[trigger] (*final(allocator))->Some_0.is_used(g),
{
    match allocator {
        Some(a) => a.free_frames(phys_addr, count),
        None => {},
    }
}

} // verus!
