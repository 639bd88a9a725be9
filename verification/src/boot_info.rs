//! Boot information types independent of the bootloader: physical memory
//! regions and the framebuffer description.

use vstd::prelude::*;

verus! {

/// Kind of memory region.
#[derive(Clone, Copy, Debug, PartialEq, Eq, Structural)]
pub enum MemoryRegionKind {
    Usable,
    Reserved,
    Bootloader,
    Unknown,
}

/// Physical memory region `[start, end)` reported by the firmware.
#[derive(Clone, Copy, Debug, PartialEq, Eq, Structural)]
pub struct MemoryRegion {
    pub start: u64,
    pub end: u64,
    pub kind: MemoryRegionKind,
}

impl Default for MemoryRegion {
    /// An empty reserved region.
    fn default() -> (r: MemoryRegion)
        ensures
            r == (MemoryRegion { start: 0, end: 0, kind: MemoryRegionKind::Reserved }),
    {
        MemoryRegion { start: 0, end: 0, kind: MemoryRegionKind::Reserved }
    }
}

/// Pixel format of the framebuffer.
#[derive(Clone, Copy, Debug, PartialEq, Eq, Structural)]
pub enum PixelFormat {
    Rgb,
    Bgr,
    U8,
    Unknown { red_position: u8, green_position: u8, blue_position: u8 },
}

/// Framebuffer metadata.
#[derive(Clone, Copy, Debug, PartialEq, Eq, Structural)]
pub struct FrameBufferInfo {
    pub width: usize,
    pub height: usize,
    pub stride: usize,
    pub bytes_per_pixel: usize,
    pub pixel_format: PixelFormat,
}

} // verus!
