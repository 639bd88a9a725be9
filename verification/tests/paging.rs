use aperture::arch::x86_64::{
    create_task_page_tables, map_user_page, resolve_cow_fault, setup_kernel_page_tables, unmap_user_page, TaskPageTables,
    PTE_COW, PTE_USER_RO, PTE_USER_RW,
};
use aperture::arch::aarch64;
use aperture::boot_info;
use aperture::common::{MemoryRegion, MemoryRegionKind};
use aperture::frame_alloc::FrameAllocator;
use aperture::mm::frame_allocator;
use aperture::mm::page_table::{page_table_root, PageTable};
use aperture::mm::phys::PhysMem;

/// 64 frames of zeroed memory from address 0.
fn memory() -> PhysMem {
    PhysMem::new(0, vec![0u64; 512 * 64])
}

/// Frames 16..64 free.
fn bitmap_allocator() -> FrameAllocator {
    let (a, _) = FrameAllocator::init(&[MemoryRegion { base: 0x10000, length: 0x30000, kind: MemoryRegionKind::Usable }]);
    a
}

fn entry(m: &PhysMem, table: u64, i: usize) -> u64 {
    m.words[(table / 8) as usize + i]
}

#[test]
fn kernel_tables_map_the_image_and_devices() {
    let mut m = memory();
    let mut a = bitmap_allocator();
    let pml4 = setup_kernel_page_tables(&mut m, &mut a).unwrap();
    assert_eq!(pml4, 0x10000);
    assert_eq!(entry(&m, 0x10000, 0), 0x11000 | 0x163);
    assert_eq!(entry(&m, 0x11000, 0), 0x12000 | 0x163);
    assert_eq!(entry(&m, 0x11000, 3), 0xC000_0000 | 0x163 | 0x80);
    assert_eq!(entry(&m, 0x11000, 1), 0);
    assert_eq!(entry(&m, 0x12000, 0), 0x1000_0000 | 0x1E3);
    assert_eq!(entry(&m, 0x12000, 31), (0x1000_0000 + 31 * 0x20_0000) | 0x1E3);
    assert_eq!(entry(&m, 0x12000, 32), 0);
}

#[test]
fn task_tables_share_the_kernel_half() {
    let mut m = memory();
    let mut a = bitmap_allocator();
    let kernel = setup_kernel_page_tables(&mut m, &mut a).unwrap();
    m.write(kernel, 300, 0xDEAD_B000 | 0x163);
    let task = create_task_page_tables(kernel as usize, &mut m, &mut a).unwrap();
    assert_eq!(task.pml4_phys, 0x13000);
    assert_eq!(entry(&m, 0x13000, 300), 0xDEAD_B000 | 0x163);
    // The lower half starts empty, even where the kernel has entries.
    assert_eq!(entry(&m, 0x13000, 0), 0);
    assert!(create_task_page_tables(0x99_0000, &mut m, &mut a).is_none());
}

#[test]
fn mapping_a_user_page_builds_its_tables() {
    let mut m = memory();
    let mut a = bitmap_allocator();
    let task = TaskPageTables { pml4_phys: 0x10000 };
    a.alloc_frame();
    let vaddr = 0x0000_0080_0000_3000u64;
    let frame = map_user_page(&task, &mut m, &mut a, vaddr, true).unwrap();
    assert_eq!(frame, 0x14000);
    assert_eq!(entry(&m, 0x10000, 1), 0x11000 | PTE_USER_RW);
    assert_eq!(entry(&m, 0x11000, 0), 0x12000 | PTE_USER_RW);
    assert_eq!(entry(&m, 0x12000, 0), 0x13000 | PTE_USER_RW);
    assert_eq!(entry(&m, 0x13000, 3), 0x14000 | PTE_USER_RW);
    // A second page in the same table reuses it.
    let ro = map_user_page(&task, &mut m, &mut a, vaddr + 0x1000, false).unwrap();
    assert_eq!(ro, 0x15000);
    assert_eq!(entry(&m, 0x13000, 4), 0x15000 | PTE_USER_RO);
}

#[test]
fn unmapping_clears_the_entry_and_frees_the_frame() {
    let mut m = memory();
    let mut a = bitmap_allocator();
    let task = TaskPageTables { pml4_phys: 0x10000 };
    a.alloc_frame();
    let vaddr = 0x0000_0080_0000_3000u64;
    let frame = map_user_page(&task, &mut m, &mut a, vaddr, true).unwrap();
    unmap_user_page(&task, &mut m, &mut a, vaddr);
    assert_eq!(entry(&m, 0x13000, 3), 0);
    assert_eq!(entry(&m, 0x10000, 1), 0x11000 | PTE_USER_RW);
    assert_eq!(a.alloc_frame(), Some(frame as usize));
    // Unmapping an address with no tables changes nothing.
    let before = m.words.clone();
    unmap_user_page(&task, &mut m, &mut a, 0x0000_7000_0000_0000);
    assert_eq!(m.words, before);
}

#[test]
fn copy_on_write_fault_copies_the_page() {
    let mut m = memory();
    let mut a = bitmap_allocator();
    let task = TaskPageTables { pml4_phys: 0x10000 };
    a.alloc_frame();
    let vaddr = 0x0000_0080_0000_3000u64;
    let frame = map_user_page(&task, &mut m, &mut a, vaddr, false).unwrap() as u64;
    m.write(frame, 7, 0x1234_5678);
    m.write(0x13000, 3, frame | PTE_USER_RO | PTE_COW);
    // A read fault, or a write to a non-present page, is not copy-on-write.
    assert!(!resolve_cow_fault(&mut m, &mut a, 0x10000, vaddr + 8, 1));
    assert!(!resolve_cow_fault(&mut m, &mut a, 0x10000, vaddr + 8, 2));
    assert!(resolve_cow_fault(&mut m, &mut a, 0x10000, vaddr + 8, 3));
    let copy = entry(&m, 0x13000, 3) & !0xFFF;
    assert_eq!(copy, 0x15000);
    assert_eq!(entry(&m, 0x13000, 3), 0x15000 | PTE_USER_RW);
    assert_eq!(entry(&m, copy, 7), 0x1234_5678);
    // The new entry is no longer copy-on-write.
    assert!(!resolve_cow_fault(&mut m, &mut a, 0x10000, vaddr + 8, 3));
}

/// Frames 0x21000.. free (0x20000 holds the bitmap).
fn mm_allocator() -> frame_allocator::FrameAllocator {
    let mut fa = frame_allocator::FrameAllocator::new();
    fa.init(&[boot_info::MemoryRegion {
        start: 0x20000,
        end: 0x40000,
        kind: boot_info::MemoryRegionKind::Usable,
    }]);
    fa
}

#[test]
fn page_table_root_needs_an_address() {
    assert!(page_table_root(0).is_none());
    assert_eq!(page_table_root(0x5000).unwrap().cr3(), 0x5000);
}

#[test]
fn map_then_translate() {
    let mut m = memory();
    let mut fa = mm_allocator();
    let mut pt = PageTable::new(&mut m, &mut fa, 0).unwrap();
    assert_eq!(pt.cr3(), 0x21000);
    assert_eq!(pt.translate(&m, 0x1234_5010), None);
    assert!(pt.map(&mut m, &mut fa, 0x1234_5000, 0xABC000, 2));
    assert_eq!(pt.translate(&m, 0x1234_5010), Some(0xABC010));
    assert_eq!(pt.translate(&m, 0x1234_6010), None);
    // Tables created on the way are present, writable and user.
    assert_eq!(entry(&m, 0x21000, 0), 0x22000 | 7);
    assert!(pt.map_region(&mut m, &mut fa, 0x4000_0000, 0x10_0000, 3, 0));
    assert_eq!(pt.translate(&m, 0x4000_2FFF), Some(0x10_2FFF));
    assert!(pt.map_region(&mut m, &mut fa, 0x4000_0000, 0x10_0000, 0, 0));
    // A table outside memory cannot be walked.
    let mut lost = PageTable { root: 0x80_0000 };
    assert!(!lost.map(&mut m, &mut fa, 0, 0, 0));
    assert_eq!(lost.translate(&m, 0), None);
}

#[test]
fn new_tables_copy_the_kernel_table() {
    let mut m = memory();
    let mut fa = mm_allocator();
    let mut kernel = PageTable::new(&mut m, &mut fa, 0).unwrap();
    assert!(kernel.map(&mut m, &mut fa, 0xFFFF_8000_0000_0000, 0x5000, 2));
    let task = PageTable::new(&mut m, &mut fa, kernel.cr3()).unwrap();
    assert_ne!(task.cr3(), kernel.cr3());
    assert_eq!(task.translate(&m, 0xFFFF_8000_0000_0123), Some(0x5123));
    assert!(PageTable::new(&mut m, &mut fa, 0x80_0000).is_none());
}

#[test]
fn arm_kernel_tables_map_the_kernel_gigabyte() {
    let mut m = memory();
    let mut a = bitmap_allocator();
    let l0 = aarch64::setup_kernel_page_tables(&mut m, &mut a).unwrap();
    assert_eq!(l0, 0x10000);
    assert_eq!(entry(&m, 0x10000, 0), 0x11000 | 3);
    assert_eq!(entry(&m, 0x10000, 1), 0);
    assert_eq!(entry(&m, 0x11000, 1), aarch64::PTE_KERNEL_BLOCK);
    assert_eq!(entry(&m, 0x11000, 3), 0);
    // Nothing else was allocated for the framebuffer or devices.
    assert_eq!(a.alloc_frame(), Some(0x12000));
}

#[test]
fn arm_user_pages_replace_blocks_with_tables() {
    let mut m = memory();
    let mut a = bitmap_allocator();
    let kernel = aarch64::setup_kernel_page_tables(&mut m, &mut a).unwrap();
    let task = aarch64::create_task_page_tables(kernel as usize, &mut m, &mut a).unwrap();
    assert_eq!(task.ttbr0_phys, 0x12000);
    // Every L0 entry is shared with the kernel.
    assert_eq!(entry(&m, 0x12000, 0), 0x11000 | 3);
    let frame = aarch64::map_user_page(&task, &mut m, &mut a, 0x4000_5000, true).unwrap();
    // L1 entry 1 was a block: it now points at a new L2 table.
    assert_eq!(entry(&m, 0x11000, 1), 0x13000 | aarch64::PTE_USER_RW);
    assert_eq!(entry(&m, 0x13000, 0), 0x14000 | aarch64::PTE_USER_RW);
    assert_eq!(frame, 0x15000);
    assert_eq!(entry(&m, 0x14000, 5), 0x15000 | aarch64::PTE_USER_PAGE);
    let ro = aarch64::map_user_page(&task, &mut m, &mut a, 0x4000_6000, false).unwrap();
    assert_eq!(entry(&m, 0x14000, 6), (ro as u64) | aarch64::PTE_USER_PAGE_RO);
    aarch64::unmap_user_page(&task, &mut m, &mut a, 0x4000_5000);
    assert_eq!(entry(&m, 0x14000, 5), 0);
    assert_eq!(a.alloc_frame(), Some(0x15000));
}

#[test]
fn interrupt_gates_split_the_handler_address() {
    let e = aperture::arch::x86_64::idt_entry(0x1234_5678_9ABC_DEF0, 0x08, 0x8E);
    assert_eq!(e.offset_low, 0xDEF0);
    assert_eq!(e.offset_mid, 0x9ABC);
    assert_eq!(e.offset_high, 0x1234_5678);
    assert_eq!((e.selector, e.flags, e.ist, e.reserved), (0x08, 0x8E, 0, 0));
}
