//! Boot information shared between the UEFI loader and the kernel.

use vstd::prelude::*;

verus! {

#[derive(Debug, Clone, Copy, PartialEq, Eq, Structural)]
pub enum MemoryRegionKind {
    Usable,
    Reserved,
    Bootloader,
    Kernel,
}

#[derive(Debug, Clone, Copy, PartialEq, Eq, Structural)]
pub struct MemoryRegion {
    pub base: u64,
    pub length: u64,
    pub kind: MemoryRegionKind,
}

#[derive(Debug, Clone, Copy)]
pub struct FramebufferInfo {
    pub addr: u64,
    pub width: u32,
    pub height: u32,
    pub pitch: u32,
    pub bpp: u8,
}

/// What the loader hands to the kernel: the memory map, the framebuffer
/// description and the firmware table addresses.
pub struct BootInfo {
    pub memory_map: Vec<MemoryRegion>,
    pub framebuffer: Option<FramebufferInfo>,
    pub rsdp: u64,
    pub device_tree: u64,
}

} // verus!
