//! Bitmap-based physical frame allocator over the firmware memory map.
//!
//! One bit per 4 KiB frame, 1 = in use, for the frames between the first and
//! the last page-aligned address of usable memory. The bitmap is placed at the
//! start of that range (`bitmap_addr`), and the frames it occupies stay
//! reserved.

use vstd::prelude::*;
use crate::boot_info::{MemoryRegion, MemoryRegionKind};
use crate::frame_alloc::{bit_set, first_free_from, lemma_set_bit, lemma_skip_used, lemma_word_bits};

verus! {

pub const FRAME_SIZE: u64 = 4096;
pub const BITMAP_WORD_BITS: usize = 64;

/// `a` rounded up to a multiple of `align`.
pub open spec fn round_up(a: int, align: int) -> int {
    ((a + align - 1) / align) * align
}

/// `a` rounded down to a multiple of `align`.
pub open spec fn round_down(a: int, align: int) -> int {
    (a / align) * align
}

pub open spec fn is_usable(r: MemoryRegion) -> bool {
    r.kind == MemoryRegionKind::Usable
}

/// The lowest start of a usable region among the first `k` (`u64::MAX` if none).
pub open spec fn usable_start(rs: Seq<MemoryRegion>, k: int) -> int
    decreases k,
{
    if k <= 0 {
        u64::MAX as int
    } else {
        let m = usable_start(rs, k - 1);
        if is_usable(rs[k - 1]) && rs[k - 1].start < m {
            rs[k - 1].start as int
        } else {
            m
        }
    }
}

/// The highest end of a usable region among the first `k` (0 if none).
pub open spec fn usable_end(rs: Seq<MemoryRegion>, k: int) -> int
    decreases k,
{
    if k <= 0 {
        0
    } else {
        let m = usable_end(rs, k - 1);
        if is_usable(rs[k - 1]) && rs[k - 1].end > m {
            rs[k - 1].end as int
        } else {
            m
        }
    }
}

/// The total size of the usable regions among the first `k`.
pub open spec fn usable_total(rs: Seq<MemoryRegion>, k: int) -> int
    decreases k,
{
    if k <= 0 {
        0
    } else {
        usable_total(rs, k - 1) + if is_usable(rs[k - 1]) {
            rs[k - 1].end - rs[k - 1].start
        } else {
            0
        }
    }
}

/// The whole pages of usable region `r` include the page at address `f`.
pub open spec fn region_pages(r: MemoryRegion, f: int) -> bool {
    is_usable(r) && round_up(r.start as int, 4096) <= f < round_down(r.end as int, 4096)
}

/// One of the first `k` regions is usable for the whole page at `f`.
pub open spec fn covered(rs: Seq<MemoryRegion>, k: int, f: int) -> bool
    decreases k,
{
    k > 0 && (covered(rs, k - 1, f) || region_pages(rs[k - 1], f))
}

/// The memory map has usable memory, its usable regions are well formed,
/// and the frame range they span can be described.
pub open spec fn map_fits(rs: Seq<MemoryRegion>) -> bool {
    let s = usable_start(rs, rs.len() as int);
    let e = usable_end(rs, rs.len() as int);
    &&& forall|j: int|
        0 <= j < rs.len() && is_usable(#[trigger] rs[j]) ==> rs[j].start <= rs[j].end && rs[j].start + 4095
            <= u64::MAX
    &&& s + 4095 <= u64::MAX
    &&& usable_total(rs, rs.len() as int) <= u64::MAX
    &&& round_up(s, 4096) <= round_down(e, 4096)
    &&& (round_down(e, 4096) - round_up(s, 4096)) / 4096 + 63 <= usize::MAX
}

/// A frame allocator backed by a bitmap.
pub struct FrameAllocator {
    first_frame: u64,
    frame_count: usize,
    bitmap: Vec<u64>,
    bitmap_addr: u64,
    bitmap_words: usize,
}

/// `addr` rounded up to a multiple of `align` (4096 or 8).
fn align_up(addr: u64, align: u64) -> (r: u64)
    requires
        align == 4096 || align == 8,
        addr + align - 1 <= u64::MAX,
    ensures
        r == round_up(addr as int, align as int),
        r % align == 0,
        addr <= r,
{
    let a = addr + (align - 1);
    let r = a & !(align - 1);
    if align == 4096 {
        assert(a & !4095u64 == (a / 4096) * 4096) by (bit_vector);
    } else {
        assert(a & !7u64 == (a / 8) * 8) by (bit_vector);
    }
    let ghost al = align as int;
    assert(r % align == 0 && addr <= r) by (nonlinear_arith)
        requires r == ((addr + al - 1) / al) * al, al == align, al > 0;
    r
}

/// `addr` rounded down to a multiple of 4096.
fn align_down(addr: u64, align: u64) -> (r: u64)
    requires
        align == 4096,
    ensures
        r == round_down(addr as int, 4096),
        r % 4096 == 0,
        r <= addr,
{
    let r = addr & !(align - 1);
    assert(addr & !4095u64 == (addr / 4096) * 4096) by (bit_vector);
    assert(r % 4096 == 0 && r <= addr) by (nonlinear_arith)
        requires r == (addr / 4096) * 4096;
    r
}

proof fn lemma_total_mono(rs: Seq<MemoryRegion>, k: int, n: int)
    requires
        0 <= k <= n <= rs.len(),
        forall|j: int| 0 <= j < rs.len() && is_usable(#[trigger] rs[j]) ==> rs[j].start <= rs[j].end,
    ensures
        usable_total(rs, k) <= usable_total(rs, n),
    decreases n - k,
{
    if k < n {
        lemma_total_mono(rs, k, n - 1);
    }
}

/// The lowest usable start, the highest usable end, and the usable total.
fn compute_usable_range(regions: &[MemoryRegion]) -> (r: (u64, u64, u64))
    requires
        forall|j: int|
            0 <= j < regions@.len() && is_usable(#[trigger] regions@[j]) ==> regions@[j].start <= regions@[j].end,
        usable_total(regions@, regions@.len() as int) <= u64::MAX,
    ensures
        r.0 == usable_start(regions@, regions@.len() as int),
        r.1 == usable_end(regions@, regions@.len() as int),
        r.2 == usable_total(regions@, regions@.len() as int),
{
    let mut start = u64::MAX;
    let mut end = 0u64;
    let mut total = 0u64;
    let mut k: usize = 0;
    while k < regions.len()
        invariant
            k <= regions@.len(),
            forall|j: int|
                0 <= j < regions@.len() && is_usable(#[trigger] regions@[j]) ==> regions@[j].start
                    <= regions@[j].end,
            usable_total(regions@, regions@.len() as int) <= u64::MAX,
            start == usable_start(regions@, k as int),
            end == usable_end(regions@, k as int),
            total == usable_total(regions@, k as int),
        decreases regions.len() - k,
    {
        let region = regions[k];
        if region.kind == MemoryRegionKind::Usable {
            if region.start < start {
                start = region.start;
            }
            if region.end > end {
                end = region.end;
            }
            proof {
                lemma_total_mono(regions@, k + 1, regions@.len() as int);
            }
            total = total + (region.end - region.start);
        }
        k = k + 1;
    }
    (start, end, total)
}

/// Set (`used`) or clear bit `index` of the bitmap.
fn mark_bit(bm: &mut Vec<u64>, index: usize, used: bool)
    requires
        index < 64 * old(bm)@.len(),
    ensures
        final(bm)@.len() == old(bm)@.len(),
        bit_set(final(bm)@, index as int) == used,
        forall|g: int| 0 <= g < 64 * old(bm)@.len() && g != index ==> #[trigger] bit_set(final(bm)@, g) == bit_set(
            old(bm)@,
            g,
        ),
{
    let word = index / BITMAP_WORD_BITS;
    let bit = index % BITMAP_WORD_BITS;
    let mask = 1u64 << bit;
    let cur = bm[word];
    let ghost before = bm@;
    if used {
        bm.set(word, cur | mask);
    } else {
        bm.set(word, cur & !mask);
    }
    proof {
        lemma_set_bit(before, index as int, bm@, used);
    }
}

/// The page at index `(frame - first) / 4096` is the page at `frame`.
proof fn lemma_page_index(first: int, frame: int)
    requires
        first % 4096 == 0,
        frame % 4096 == 0,
        first <= frame,
    ensures
        first + ((frame - first) / 4096) * 4096 == frame,
{
    assert(first + ((frame - first) / 4096) * 4096 == frame) by (nonlinear_arith)
        requires first % 4096 == 0, frame % 4096 == 0, first <= frame;
}

/// The only page index whose page lies in `[frame, frame + 4096)` is the
/// page of `frame`.
proof fn lemma_page_step(first: int, frame: int, g: int)
    requires
        first % 4096 == 0,
        frame % 4096 == 0,
        first <= frame,
        0 <= g,
    ensures
        (frame <= first + g * 4096 < frame + 4096) <==> g == (frame - first) / 4096,
{
    assert((frame <= first + g * 4096 < frame + 4096) <==> g == (frame - first) / 4096) by (nonlinear_arith)
        requires first % 4096 == 0, frame % 4096 == 0, first <= frame, 0 <= g;
}

/// No page index lies below the first frame.
proof fn lemma_below_first(first: int, frame: int, g: int)
    requires
        first % 4096 == 0,
        frame % 4096 == 0,
        frame < first,
        0 <= g,
    ensures
        !(frame <= first + g * 4096 < frame + 4096),
{
    assert(frame + 4096 <= first) by (nonlinear_arith)
        requires first % 4096 == 0, frame % 4096 == 0, frame < first;
}

impl FrameAllocator {
    pub closed spec fn first(&self) -> int {
        self.first_frame as int
    }

    /// Number of frames managed.
    pub closed spec fn count(&self) -> int {
        self.frame_count as int
    }

    pub closed spec fn bits(&self) -> Seq<u64> {
        self.bitmap@
    }

    pub closed spec fn words(&self) -> int {
        self.bitmap_words as int
    }

    /// Physical address of the bitmap.
    pub closed spec fn bitmap_at(&self) -> int {
        self.bitmap_addr as int
    }

    /// Bit `i` is set: frame `i` is in use (or, past the last frame, a
    /// padding bit of the last word was taken).
    pub open spec fn is_used(&self, i: int) -> bool {
        bit_set(self.bits(), i)
    }

    /// The frame at index `i` overlaps the bitmap.
    pub open spec fn in_bitmap(&self, i: int) -> bool {
        let f = self.first() + i * 4096;
        self.bitmap_at() <= f < self.bitmap_at() + self.words() * 8
    }

    /// The bitmap has one bit per frame, rounded up to whole words, and the
    /// frames' addresses fit.
    pub closed spec fn wf(&self) -> bool {
        &&& self.bitmap@.len() == self.bitmap_words
        &&& self.bitmap_words == (self.frame_count + 63) / 64
        &&& self.first_frame + self.frame_count * 4096 <= u64::MAX
        &&& self.bitmap_addr + self.bitmap_words * 8 <= u64::MAX
    }

    /// The bitmap has one word per 64 frames, and frame addresses fit.
    pub(crate) proof fn lemma_shape(&self)
        requires
            self.wf(),
        ensures
            self.bits().len() == self.words(),
            self.count() <= 64 * self.words(),
            self.first() + self.count() * 4096 <= u64::MAX,
            0 <= self.first(),
            0 <= self.count(),
    {
    }

    /// An allocator managing no frames.
    pub fn new() -> (a: FrameAllocator)
        ensures
            a.wf(),
            a.count() == 0,
            a.words() == 0,
    {
        FrameAllocator { first_frame: 0, frame_count: 0, bitmap: Vec::new(), bitmap_addr: 0, bitmap_words: 0 }
    }

    /// First and one-past-last frame index reserved for the bitmap: from
    /// its first frame to one past the frame holding its end.
    pub open spec fn reserved_from(&self) -> int {
        (self.bitmap_at() - self.first()) / 4096
    }

    pub open spec fn reserved_to(&self) -> int {
        let last = (self.bitmap_at() + self.words() * 8 - self.first()) / 4096 + 1;
        if last < self.count() { last } else { self.count() }
    }

    /// The allocator is laid out for the memory map `rs`: its frames run
    /// from the first to the last page-aligned address of usable memory;
    /// a frame is in use unless a usable region holds its whole page, and
    /// the frames holding the bitmap stay in use.
    pub open spec fn laid_out(&self, rs: Seq<MemoryRegion>) -> bool {
        let first = round_up(usable_start(rs, rs.len() as int), 4096);
        let count = (round_down(usable_end(rs, rs.len() as int), 4096) - first) / 4096;
        &&& self.first() == first
        &&& self.count() == count
        &&& self.words() == (count + 63) / 64
        &&& self.bitmap_at() == round_up(first, 8)
        &&& forall|g: int|
            0 <= g < 64 * self.words() ==> #[trigger] self.is_used(g) == (g < count && ((self.reserved_from() <= g
                < self.reserved_to()) || !covered(rs, rs.len() as int, first + g * 4096) || self.in_bitmap(g)))
    }

    /// Lay the allocator out for a memory map (see `laid_out`).
    #[verifier::spinoff_prover]
    #[verifier::rlimit(50)]
    pub fn init(&mut self, regions: &[MemoryRegion])
        requires
            map_fits(regions@),
        ensures
            final(self).wf(),
            final(self).laid_out(regions@),
    {
        let ghost rs = regions@;
        let (usable_start, usable_end, _total) = compute_usable_range(regions);
        let first_frame = align_up(usable_start, FRAME_SIZE);
        let last_frame = align_down(usable_end, FRAME_SIZE);
        let frame_count = ((last_frame - first_frame) / FRAME_SIZE) as usize;
        let bitmap_words = (frame_count + (BITMAP_WORD_BITS - 1)) / BITMAP_WORD_BITS;
        assert(bitmap_words * 8 <= frame_count + 63) by (nonlinear_arith)
            requires bitmap_words == (frame_count + 63) / 64;
        let bitmap_bytes = bitmap_words * 8;
        let bitmap_addr = align_up(first_frame, 8);
        assert(bitmap_addr == first_frame) by (nonlinear_arith)
            requires first_frame % 4096 == 0, bitmap_addr == ((first_frame + 7) / 8) * 8;
        assert(first_frame + frame_count * 4096 <= last_frame) by (nonlinear_arith)
            requires frame_count == (last_frame - first_frame) / 4096, first_frame <= last_frame;
        assert(frame_count > 0 ==> frame_count + 63 <= frame_count * 4096) by (nonlinear_arith);
        let mut bitmap: Vec<u64> = Vec::new();
        while bitmap.len() < bitmap_words
            invariant
                bitmap.len() <= bitmap_words,
                forall|w: int| 0 <= w < bitmap@.len() ==> #[trigger] bitmap@[w] == 0,
            decreases bitmap_words - bitmap.len(),
        {
            bitmap.push(0);
        }
        self.first_frame = first_frame;
        self.frame_count = frame_count;
        self.bitmap = bitmap;
        self.bitmap_addr = bitmap_addr;
        self.bitmap_words = bitmap_words;
        let ghost first = first_frame as int;
        let ghost count = frame_count as int;
        let ghost cap = 64 * bitmap_words as int;
        proof {
            assert forall|g: int| 0 <= g < cap implies !#[trigger] bit_set(self.bits(), g) by {
                let w = self.bitmap@[g / 64];
                assert(w == 0);
                let j = (g % 64) as u64;
                assert((0u64 >> j) & 1u64 == 0u64) by (bit_vector);
            }
        }
        // Every frame starts in use.
        let mut i: usize = 0;
        while i < frame_count
            invariant
                self.wf(),
                self.first_frame == first_frame,
                self.frame_count == frame_count,
                self.bitmap_addr == bitmap_addr,
                self.bitmap_words == bitmap_words,
                cap == 64 * bitmap_words,
                frame_count <= cap,
                i <= frame_count,
                forall|g: int| 0 <= g < cap ==> #[trigger] bit_set(self.bits(), g) == (g < i),
            decreases frame_count - i,
        {
            self.mark(i, true);
            i = i + 1;
        }
        // Usable pages become free, but for the bitmap's own.
        let mut k: usize = 0;
        while k < regions.len()
            invariant
                self.wf(),
                rs == regions@,
                map_fits(rs),
                self.first_frame == first_frame,
                self.frame_count == frame_count,
                self.bitmap_addr == bitmap_addr,
                self.bitmap_words == bitmap_words,
                first == first_frame,
                first % 4096 == 0,
                count == frame_count,
                cap == 64 * bitmap_words,
                frame_count <= cap,
                first_frame + frame_count * 4096 <= u64::MAX,
                k <= regions@.len(),
                forall|g: int|
                    0 <= g < cap ==> #[trigger] bit_set(self.bits(), g) == (g < count && !(covered(rs, k as int, first + g
                        * 4096) && !self.in_bitmap(g))),
            decreases regions.len() - k,
        {
            let region = regions[k];
            if region.kind == MemoryRegionKind::Usable {
                assert(is_usable(rs[k as int]));
                let region_first = align_up(region.start, FRAME_SIZE);
                let region_last = align_down(region.end, FRAME_SIZE);
                let mut frame = region_first;
                while frame < region_last
                    invariant
                        self.wf(),
                        self.first_frame == first_frame,
                        self.frame_count == frame_count,
                        self.bitmap_addr == bitmap_addr,
                        self.bitmap_words == bitmap_words,
                        first == first_frame,
                        first % 4096 == 0,
                        count == frame_count,
                        cap == 64 * bitmap_words,
                        frame_count <= cap,
                        first_frame + frame_count * 4096 <= u64::MAX,
                        region_first % 4096 == 0,
                        region_last % 4096 == 0,
                        frame % 4096 == 0,
                        region_first <= frame,
                        frame <= region_last || frame == region_first,
                        forall|g: int|
                            0 <= g < cap ==> #[trigger] bit_set(self.bits(), g) == (g < count && !((covered(
                                rs,
                                k as int,
                                first + g * 4096,
                            ) || (region_first <= first + g * 4096 < frame)) && !self.in_bitmap(g))),
                    decreases region_last - frame,
                {
                    let ghost before = self.bits();
                    if frame >= first_frame {
                        let index = (frame - first_frame) / FRAME_SIZE;
                        proof {
                            lemma_page_index(first, frame as int);
                        }
                        if index < frame_count as u64 && !self.is_bitmap_frame(index as usize) {
                            self.mark(index as usize, false);
                        }
                        proof {
                            assert forall|g: int| 0 <= g < cap implies #[trigger] bit_set(self.bits(), g) == (g < count
                                && !((covered(rs, k as int, first + g * 4096) || (region_first <= first + g * 4096
                                < frame + 4096)) && !self.in_bitmap(g))) by {
                                lemma_page_step(first, frame as int, g);
                            }
                        }
                    } else {
                        proof {
                            assert forall|g: int| 0 <= g < cap implies #[trigger] bit_set(self.bits(), g) == (g < count
                                && !((covered(rs, k as int, first + g * 4096) || (region_first <= first + g * 4096
                                < frame + 4096)) && !self.in_bitmap(g))) by {
                                lemma_below_first(first, frame as int, g);
                            }
                        }
                    }
                    frame = frame + FRAME_SIZE;
                }
                proof {
                    assert(frame >= region_last);
                    assert(region_first <= region_last ==> frame == region_last);
                }
            }
            proof {
                assert forall|g: int| 0 <= g < cap implies #[trigger] bit_set(self.bits(), g) == (g < count && !(covered(
                    rs,
                    k + 1,
                    first + g * 4096,
                ) && !self.in_bitmap(g))) by {
                    assert(covered(rs, k + 1, first + g * 4096) == (covered(rs, k as int, first + g * 4096)
                        || region_pages(rs[k as int], first + g * 4096)));
                }
            }
            k = k + 1;
        }
        // The bitmap's frames stay in use.
        let bitmap_first = (bitmap_addr - first_frame) / FRAME_SIZE;
        let bitmap_last = ((bitmap_addr + bitmap_bytes as u64 - first_frame) / FRAME_SIZE) + 1;
        let end = if bitmap_last < frame_count as u64 { bitmap_last } else { frame_count as u64 };
        let mut i = bitmap_first;
        while i < end
            invariant
                self.wf(),
                self.first_frame == first_frame,
                self.frame_count == frame_count,
                self.bitmap_addr == bitmap_addr,
                self.bitmap_words == bitmap_words,
                first == first_frame,
                count == frame_count,
                cap == 64 * bitmap_words,
                frame_count <= cap,
                end <= frame_count,
                bitmap_first <= i,
                i <= end || i == bitmap_first,
                forall|g: int|
                    0 <= g < cap ==> #[trigger] bit_set(self.bits(), g) == (g < count && ((bitmap_first <= g < i) || !(
                    covered(rs, rs.len() as int, first + g * 4096) && !self.in_bitmap(g)))),
            decreases end - i,
        {
            self.mark(i as usize, true);
            i = i + 1;
        }
        proof {
            assert(self.reserved_from() == bitmap_first);
            assert(self.reserved_to() == end);
        }
    }

    fn mark(&mut self, index: usize, used: bool)
        requires
            old(self).wf(),
            index < 64 * old(self).words(),
        ensures
            final(self).wf(),
            final(self).first_frame == old(self).first_frame,
            final(self).frame_count == old(self).frame_count,
            final(self).bitmap_addr == old(self).bitmap_addr,
            final(self).bitmap_words == old(self).bitmap_words,
            bit_set(final(self).bits(), index as int) == used,
            forall|g: int| 0 <= g < 64 * old(self).words() && g != index ==> #[trigger] bit_set(final(self).bits(), g)
                == bit_set(old(self).bits(), g),
    {
        mark_bit(&mut self.bitmap, index, used);
    }

    /// The frame at index `index` overlaps the bitmap.
    fn is_bitmap_frame(&self, index: usize) -> (b: bool)
        requires
            self.wf(),
            index < self.frame_count,
        ensures
            b == self.in_bitmap(index as int),
    {
        let frame_addr = self.first_frame + index as u64 * FRAME_SIZE;
        frame_addr >= self.bitmap_addr && frame_addr < self.bitmap_addr + (self.bitmap_words * 8) as u64
    }

    /// Allocate a 4 KiB frame: the lowest clear bit is set; its frame's
    /// address is returned when it is a frame (not a padding bit past the last).
    pub fn allocate_frame(&mut self) -> (r: Option<u64>)
        requires
            old(self).wf(),
        ensures
            final(self).wf(),
            final(self).first() == old(self).first(),
            final(self).count() == old(self).count(),
            final(self).words() == old(self).words(),
            final(self).bitmap_at() == old(self).bitmap_at(),
            ({
                let z = first_free_from(old(self).bits(), 0);
                if z < 64 * old(self).words() {
                    &&& final(self).is_used(z)
                    &&& forall|g: int| 0 <= g < 64 * old(self).words() && g != z ==> #[trigger] final(self).is_used(g)
                        == old(self).is_used(g)
                    &&& r == (if z < old(self).count() {
                        Some((old(self).first() + z * 4096) as u64)
                    } else {
                        None::<u64>
                    })
                } else {
                    &&& r is None
                    &&& final(self).bits() == old(self).bits()
                }
            }),
    {
        let ghost bm = self.bitmap@;
        let mut word: usize = 0;
        while word < self.bitmap_words
            invariant
                self.wf(),
                self.bitmap@ == bm,
                bm == old(self).bitmap@,
                self.first_frame == old(self).first_frame,
                self.frame_count == old(self).frame_count,
                self.bitmap_addr == old(self).bitmap_addr,
                self.bitmap_words == old(self).bitmap_words,
                word <= self.bitmap_words,
                first_free_from(bm, 0) == first_free_from(bm, 64 * word),
            decreases self.bitmap_words - word,
        {
            let value = self.bitmap[word];
            if value != u64::MAX {
                let bit = value.trailing_ones() as usize;
                proof {
                    vstd::std_specs::bits::axiom_u64_trailing_ones(value);
                    assert(bit < 64);
                    assert forall|g: int| 64 * word <= g < 64 * word + bit implies #[trigger] bit_set(bm, g) by {
                        assert(g / 64 == word);
                        let j = (g % 64) as u64;
                        assert(j < vstd::std_specs::bits::u64_trailing_ones(value));
                    }
                    lemma_skip_used(bm, 64 * word, 64 * word + bit);
                    assert((64 * word + bit) / 64 == word);
                    assert(!bit_set(bm, 64 * word + bit));
                }
                let index = word * BITMAP_WORD_BITS + bit;
                self.mark(index, true);
                if index < self.frame_count {
                    return Some(self.first_frame + index as u64 * FRAME_SIZE);
                }
                // A padding bit past the last frame: no frame follows it.
                return None;
            }
            proof {
                assert forall|g: int| 64 * word <= g < 64 * word + 64 implies #[trigger] bit_set(bm, g) by {
                    assert(g / 64 == word);
                    lemma_word_bits(value, (g % 64) as u64, 0);
                }
                lemma_skip_used(bm, 64 * word, 64 * word + 64);
            }
            word = word + 1;
        }
        None
    }

    /// Free the frame at address `frame`; addresses outside the managed
    /// frames are ignored.
    pub fn free_frame(&mut self, frame: u64)
        requires
            old(self).wf(),
        ensures
            final(self).wf(),
            final(self).first() == old(self).first(),
            final(self).count() == old(self).count(),
            final(self).words() == old(self).words(),
            final(self).bitmap_at() == old(self).bitmap_at(),
            ({
                let i = (frame - old(self).first()) / 4096;
                if frame >= old(self).first() && i < old(self).count() {
                    &&& !final(self).is_used(i)
                    &&& forall|g: int| 0 <= g < 64 * old(self).words() && g != i ==> #[trigger] final(self).is_used(g)
                        == old(self).is_used(g)
                } else {
                    final(self).bits() == old(self).bits()
                }
            }),
    {
        if frame < self.first_frame {
            return;
        }
        let index = (frame - self.first_frame) / FRAME_SIZE;
        if index >= self.frame_count as u64 {
            return;
        }
        self.mark(index as usize, false);
    }

    /// Number of frames managed.
    pub fn total_frames(&self) -> (n: usize)
        ensures
            n == self.count(),
    {
        self.frame_count
    }
}

/// Every free frame of `a` is one of its frames, a usable region of `rs`
/// holds its whole page, and it holds none of the bitmap; frames start on a
/// page boundary.
pub open spec fn frees_usable(a: FrameAllocator, rs: Seq<MemoryRegion>) -> bool {
    &&& a.first() % 4096 == 0
    &&& forall|g: int|
        0 <= g < a.count() && !#[trigger] a.is_used(g) ==> {
            &&& covered(rs, rs.len() as int, a.first() + g * 4096)
            &&& !(a.reserved_from() <= g < a.reserved_to())
            &&& !a.in_bitmap(g)
        }
}

/// Freeing `frame` gives back a frame that could have been handed out: one
/// a usable region holds, outside the bitmap (or an address the allocator
/// does not manage, which is ignored).
pub open spec fn may_free(a: FrameAllocator, rs: Seq<MemoryRegion>, frame: u64) -> bool {
    let i = (frame - a.first()) / 4096;
    frame >= a.first() && i < a.count() ==> {
        &&& covered(rs, rs.len() as int, a.first() + i * 4096)
        &&& !(a.reserved_from() <= i < a.reserved_to())
        &&& !a.in_bitmap(i)
    }
}

/// Freeing the frame an allocation just took leaves every frame as it was
/// before the allocation: the frame taken was free.
pub proof fn free_undoes_allocate(a: FrameAllocator, b: FrameAllocator, c: FrameAllocator)
    requires
        a.wf(),
        first_free_from(a.bits(), 0) < a.count(),
        b.words() == a.words(),
        b.is_used(first_free_from(a.bits(), 0)),
        forall|g: int|
            0 <= g < 64 * a.words() && g != first_free_from(a.bits(), 0) ==> #[trigger] b.is_used(g) == a.is_used(g),
        !c.is_used(first_free_from(a.bits(), 0)),
        forall|g: int|
            0 <= g < 64 * a.words() && g != first_free_from(a.bits(), 0) ==> #[trigger] c.is_used(g) == b.is_used(g),
    ensures
        forall|g: int| 0 <= g < 64 * a.words() ==> #[trigger] c.is_used(g) == a.is_used(g),
{
    crate::frame_alloc::lemma_first_free_is_free(a.bits(), 0);
    assert(64 * a.bits().len() == 64 * a.words());
}

/// Lay out the allocator for a memory map.
pub fn init(alloc: &mut FrameAllocator, regions: &[MemoryRegion])
    requires
        map_fits(regions@),
    ensures
        final(alloc).wf(),
        final(alloc).laid_out(regions@),
        frees_usable(*final(alloc), regions@),
{
    alloc.init(regions);
    proof {
        let a = *alloc;
        let rs = regions@;
        assert forall|g: int| 0 <= g < a.count() && !#[trigger] a.is_used(g) implies {
            &&& covered(rs, rs.len() as int, a.first() + g * 4096)
            &&& !(a.reserved_from() <= g < a.reserved_to())
            &&& !a.in_bitmap(g)
        } by {
            assert(a.count() <= 64 * a.words()) by (nonlinear_arith)
                requires a.words() == (a.count() + 63) / 64;
        }
        lemma_round_up_page(usable_start(rs, rs.len() as int));
    }
}

/// Allocate a 4 KiB frame (see `FrameAllocator::allocate_frame`).
pub fn allocate(alloc: &mut FrameAllocator) -> (r: Option<u64>)
    requires
        old(alloc).wf(),
    ensures
        final(alloc).wf(),
        final(alloc).first() == old(alloc).first(),
        final(alloc).count() == old(alloc).count(),
        final(alloc).words() == old(alloc).words(),
        ({
            let z = first_free_from(old(alloc).bits(), 0);
            if z < 64 * old(alloc).words() {
                &&& final(alloc).is_used(z)
                &&& forall|g: int| 0 <= g < 64 * old(alloc).words() && g != z ==> #[trigger] final(alloc).is_used(g)
                    == old(alloc).is_used(g)
                &&& r == (if z < old(alloc).count() {
                    Some((old(alloc).first() + z * 4096) as u64)
                } else {
                    None::<u64>
                })
            } else {
                &&& r is None
                &&& final(alloc).bits() == old(alloc).bits()
            }
        }),
        final(alloc).bitmap_at() == old(alloc).bitmap_at(),
        forall|rs: Seq<MemoryRegion>| #[trigger] frees_usable(*old(alloc), rs) ==> {
            &&& frees_usable(*final(alloc), rs)
            &&& r matches Some(addr) ==> {
                let i = (addr - old(alloc).first()) / 4096;
                &&& addr % 4096 == 0
                &&& addr == old(alloc).first() + i * 4096
                &&& !old(alloc).is_used(i)
                &&& final(alloc).is_used(i)
                &&& covered(rs, rs.len() as int, addr as int)
                &&& !old(alloc).in_bitmap(i)
            }
        },
{
    let r = alloc.allocate_frame();
    proof {
        let a = *old(alloc);
        let b = *alloc;
        let z = first_free_from(a.bits(), 0);
        crate::frame_alloc::lemma_first_free_is_free(a.bits(), 0);
        assert forall|rs: Seq<MemoryRegion>| #[trigger] frees_usable(a, rs) implies {
            &&& frees_usable(b, rs)
            &&& r matches Some(addr) ==> {
                let i = (addr - a.first()) / 4096;
                &&& addr % 4096 == 0
                &&& addr == a.first() + i * 4096
                &&& !a.is_used(i)
                &&& b.is_used(i)
                &&& covered(rs, rs.len() as int, addr as int)
                &&& !a.in_bitmap(i)
            }
        } by {
            assert(64 * a.bits().len() == 64 * a.words());
            assert forall|g: int| 0 <= g < b.count() && !#[trigger] b.is_used(g) implies {
                &&& covered(rs, rs.len() as int, b.first() + g * 4096)
                &&& !(b.reserved_from() <= g < b.reserved_to())
                &&& !b.in_bitmap(g)
            } by {
                a.lemma_shape();
                assert(!a.is_used(g));
            }
            if z < 64 * a.words() {
                if let Some(addr) = r {
                    lemma_frame_addr(a.first() as int, z);
                }
            }
        }
    }
    r
}

/// Free a 4 KiB frame (see `FrameAllocator::free_frame`).
pub fn free(alloc: &mut FrameAllocator, frame: u64)
    requires
        old(alloc).wf(),
    ensures
        final(alloc).wf(),
        final(alloc).first() == old(alloc).first(),
        final(alloc).count() == old(alloc).count(),
        final(alloc).words() == old(alloc).words(),
        ({
            let i = (frame - old(alloc).first()) / 4096;
            if frame >= old(alloc).first() && i < old(alloc).count() {
                &&& !final(alloc).is_used(i)
                &&& forall|g: int| 0 <= g < 64 * old(alloc).words() && g != i ==> #[trigger] final(alloc).is_used(g)
                    == old(alloc).is_used(g)
            } else {
                final(alloc).bits() == old(alloc).bits()
            }
        }),
        final(alloc).bitmap_at() == old(alloc).bitmap_at(),
        forall|rs: Seq<MemoryRegion>|
            #[trigger] frees_usable(*old(alloc), rs) && may_free(*old(alloc), rs, frame) ==> frees_usable(
                *final(alloc),
                rs,
            ),
{
    alloc.free_frame(frame);
    proof {
        let a = *old(alloc);
        let b = *alloc;
        assert forall|rs: Seq<MemoryRegion>| #[trigger] frees_usable(a, rs) && may_free(a, rs, frame) implies frees_usable(
            b,
            rs,
        ) by {
            a.lemma_shape();
            assert forall|g: int| 0 <= g < b.count() && !#[trigger] b.is_used(g) implies {
                &&& covered(rs, rs.len() as int, b.first() + g * 4096)
                &&& !(b.reserved_from() <= g < b.reserved_to())
                &&& !b.in_bitmap(g)
            } by {
                let i = (frame - a.first()) / 4096;
                if g != i || !(frame >= a.first() && i < a.count()) {
                    assert(!a.is_used(g));
                }
            }
        }
    }
}

/// Number of frames managed.
pub fn total(alloc: &FrameAllocator) -> (n: usize)
    ensures
        n == alloc.count(),
{
    alloc.total_frames()
}

/// The page index of an address `first + z * 4096` on a page boundary.
proof fn lemma_frame_addr(first: int, z: int)
    requires
        first % 4096 == 0,
        0 <= z,
        0 <= first,
    ensures
        ((first + z * 4096) - first) / 4096 == z,
        (first + z * 4096) % 4096 == 0,
{
    assert((first + z * 4096) % 4096 == 0) by (nonlinear_arith)
        requires first % 4096 == 0, 0 <= z, 0 <= first;
    assert((z * 4096) / 4096 == z) by (nonlinear_arith)
        requires 0 <= z;
}

/// Rounding up to a page boundary lands on one.
proof fn lemma_round_up_page(a: int)
    ensures
        round_up(a, 4096) % 4096 == 0,
{
    assert(((a + 4095) / 4096 * 4096) % 4096 == 0) by (nonlinear_arith);
}

} // verus!
