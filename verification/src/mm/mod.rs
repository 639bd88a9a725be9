//! Early memory management: the bump allocator for the early kernel heap and
//! the count of usable frames in the firmware memory map.

use vstd::prelude::*;
use crate::boot_info::{MemoryRegion, MemoryRegionKind};

pub mod frame_allocator;
pub mod phys;
pub mod page_table;

verus! {

pub const FRAME_SIZE: u64 = 4096;

/// Bump allocator over `[base, limit)`; `next` is the first free byte.
pub struct BumpAllocator {
    pub base: u64,
    pub next: u64,
    pub limit: u64,
}

impl BumpAllocator {
    pub fn new() -> (b: BumpAllocator)
        ensures
            b == (BumpAllocator { base: 0, next: 0, limit: 0 }),
    {
        BumpAllocator { base: 0, next: 0, limit: 0 }
    }

    /// Carve `size` bytes aligned to `align` (a power of two) off the heap;
    /// returns the address, or `None` when the heap is exhausted.
    pub fn allocate(&mut self, size: usize, align: usize) -> (r: Option<u64>)
        requires
            align > 0,
            old(self).next + align - 1 <= u64::MAX,
        ensures
            ({
                let aligned = ((old(self).next + align - 1) as u64) & !((align - 1) as u64);
                if aligned + size <= old(self).limit {
                    &&& r == Some(aligned)
                    &&& final(self).next == aligned + size
                } else {
                    &&& r is None
                    &&& final(self).next == old(self).next
                }
            }),
            final(self).base == old(self).base,
            final(self).limit == old(self).limit,
    {
        let aligned = (self.next + (align as u64 - 1)) & !(align as u64 - 1);
        let end = match aligned.checked_add(size as u64) {
            Some(e) => e,
            None => {
                return None;
            },
        };
        if end > self.limit {
            return None;
        }
        self.next = end;
        Some(aligned)
    }
}

/// Early memory state: the heap and the number of usable frames found.
pub struct MmState {
    pub bump: BumpAllocator,
    pub total_frames: usize,
}

/// An empty heap and no frames counted yet.
pub fn init() -> (m: MmState)
    ensures
        m.bump == (BumpAllocator { base: 0, next: 0, limit: 0 }),
        m.total_frames == 0,
{
    MmState { bump: BumpAllocator::new(), total_frames: 0 }
}

/// Use `[start, end)` as the early heap.
pub fn init_heap(mm: &mut MmState, start: u64, end: u64)
    ensures
        final(mm).bump == (BumpAllocator { base: start, next: start, limit: end }),
        final(mm).total_frames == old(mm).total_frames,
{
    mm.bump.base = start;
    mm.bump.next = start;
    mm.bump.limit = end;
}

/// Allocate `size` bytes with `align` alignment from the early heap.
pub fn alloc_early(mm: &mut MmState, size: usize, align: usize) -> (r: Option<u64>)
    requires
        align > 0,
        old(mm).bump.next + align - 1 <= u64::MAX,
    ensures
        ({
            let aligned = ((old(mm).bump.next + align - 1) as u64) & !((align - 1) as u64);
            if aligned + size <= old(mm).bump.limit {
                r == Some(aligned) && final(mm).bump.next == aligned + size
            } else {
                r is None && final(mm).bump.next == old(mm).bump.next
            }
        }),
        final(mm).bump.base == old(mm).bump.base,
        final(mm).bump.limit == old(mm).bump.limit,
        final(mm).total_frames == old(mm).total_frames,
{
    mm.bump.allocate(size, align)
}

/// Whole 4 KiB frames in the usable regions among the first `k`.
pub open spec fn usable_frames(regions: Seq<MemoryRegion>, k: int) -> int
    decreases k,
{
    if k <= 0 {
        0
    } else {
        let r = regions[k - 1];
        usable_frames(regions, k - 1) + if r.kind == MemoryRegionKind::Usable {
            (r.end - r.start) / (FRAME_SIZE as int)
        } else {
            0
        }
    }
}

/// Every usable region is well formed and the frame count fits.
pub open spec fn regions_countable(regions: Seq<MemoryRegion>) -> bool {
    &&& forall|i: int|
        0 <= i < regions.len() && (#[trigger] regions[i]).kind == MemoryRegionKind::Usable ==> regions[i].start
            <= regions[i].end
    &&& forall|k: int| 0 <= k <= regions.len() ==> #[trigger] usable_frames(regions, k) <= usize::MAX
}

/// Count the usable 4 KiB frames in the memory map and remember the count.
pub fn count_usable_frames(mm: &mut MmState, regions: &[MemoryRegion]) -> (n: usize)
    requires
        regions_countable(regions@),
    ensures
        n == usable_frames(regions@, regions@.len() as int),
        final(mm).total_frames == n,
        final(mm).bump == old(mm).bump,
{
    let mut count: usize = 0;
    let mut i: usize = 0;
    while i < regions.len()
        invariant
            i <= regions@.len(),
            regions_countable(regions@),
            count == usable_frames(regions@, i as int),
        decreases regions.len() - i,
    {
        let region = regions[i];
        assert(usable_frames(regions@, i + 1) <= usize::MAX);
        if region.kind == MemoryRegionKind::Usable {
            count = count + ((region.end - region.start) / FRAME_SIZE) as usize;
        }
        i = i + 1;
    }
    mm.total_frames = count;
    count
}

/// The number of usable 4 KiB frames counted.
pub fn total_frames(mm: &MmState) -> (n: usize)
    ensures
        n == mm.total_frames,
{
    mm.total_frames
}

/// Set up the physical frame allocator from the firmware memory map.
pub fn init_physical_allocator(alloc: &mut frame_allocator::FrameAllocator, regions: &[MemoryRegion])
    requires
        frame_allocator::map_fits(regions@),
    ensures
        final(alloc).wf(),
        final(alloc).laid_out(regions@),
{
    frame_allocator::init(alloc, regions);
}

} // verus!
