use aperture::bootloader::{
    check_segments_fit, copy_segments, identity_tables, kind_from_efi, load_span, parse_elf, Elf64Phdr, PT_LOAD,
};
use aperture::common::MemoryRegionKind;

fn put(d: &mut [u8], off: usize, v: u64, n: usize) {
    for i in 0..n {
        d[off + i] = (v >> (8 * i)) as u8;
    }
}

/// An ELF64 image with one loadable segment of 4 file bytes and 16 memory bytes.
fn image() -> Vec<u8> {
    let mut d = vec![0u8; 124];
    d[..6].copy_from_slice(&[0x7f, b'E', b'L', b'F', 2, 1]);
    put(&mut d, 16, 2, 2);
    put(&mut d, 24, 0x4000_1240, 8);
    put(&mut d, 32, 64, 8);
    put(&mut d, 54, 56, 2);
    put(&mut d, 56, 1, 2);
    put(&mut d, 64, 1, 4);
    put(&mut d, 68, 5, 4);
    put(&mut d, 72, 120, 8);
    put(&mut d, 80, 0x4000_1234, 8);
    put(&mut d, 88, 0x4000_1234, 8);
    put(&mut d, 96, 4, 8);
    put(&mut d, 104, 16, 8);
    put(&mut d, 112, 0x1000, 8);
    d[120..124].copy_from_slice(&[0xDE, 0xAD, 0xBE, 0xEF]);
    d
}

#[test]
fn parses_entry_and_program_headers() {
    let (entry, phdrs) = parse_elf(&image()).unwrap();
    assert_eq!(entry, 0x4000_1240);
    assert_eq!(phdrs.len(), 1);
    assert_eq!(
        phdrs[0],
        Elf64Phdr {
            p_type: PT_LOAD,
            p_flags: 5,
            p_offset: 120,
            p_vaddr: 0x4000_1234,
            p_paddr: 0x4000_1234,
            p_filesz: 4,
            p_memsz: 16,
            p_align: 0x1000,
        }
    );
}

#[test]
fn rejects_bad_magic_class_type_and_short_tables() {
    let mut d = image();
    d[1] = b'X';
    assert!(parse_elf(&d).is_none());
    let mut d = image();
    d[4] = 1;
    assert!(parse_elf(&d).is_none());
    let mut d = image();
    put(&mut d, 16, 3, 2);
    assert!(parse_elf(&d).is_none());
    let mut d = image();
    put(&mut d, 56, 2, 2);
    assert!(parse_elf(&d).is_none());
    assert!(parse_elf(&image()[..40]).is_none());
}

#[test]
fn span_covers_the_loadable_pages() {
    let (_, phdrs) = parse_elf(&image()).unwrap();
    assert_eq!(load_span(&phdrs), Some((0x4000_1000, 0x4000_2000, 1)));
    let mut two = phdrs.clone();
    two.push(Elf64Phdr { p_type: 4, p_vaddr: 0, p_memsz: 0x10_0000, ..phdrs[0] });
    two.push(Elf64Phdr { p_vaddr: 0x4000_3000, p_memsz: 0x1001, ..phdrs[0] });
    assert_eq!(load_span(&two), Some((0x4000_1000, 0x4000_5000, 4)));
    assert_eq!(load_span(&[]), None);
    let over = Elf64Phdr { p_vaddr: u64::MAX - 10, ..phdrs[0] };
    assert_eq!(load_span(&[over]), None);
}

#[test]
fn segments_are_copied_and_zero_filled() {
    let raw = image();
    let (_, phdrs) = parse_elf(&raw).unwrap();
    let mut dest = vec![0xAAu8; 0x1000];
    assert!(check_segments_fit(&phdrs, 0x4000_1000, dest.len(), raw.len()));
    assert!(!check_segments_fit(&phdrs, 0x4000_1000, 0x240, raw.len()));
    assert!(!check_segments_fit(&phdrs, 0x4000_2000, dest.len(), raw.len()));
    copy_segments(&mut dest, 0x4000_1000, &phdrs, &raw);
    assert_eq!(&dest[0x234..0x238], &[0xDE, 0xAD, 0xBE, 0xEF]);
    assert!(dest[0x238..0x244].iter().all(|b| *b == 0));
    assert_eq!(dest[0x233], 0xAA);
    assert_eq!(dest[0x244], 0xAA);
}

#[test]
fn identity_map_uses_gigabyte_blocks() {
    let (l0, l1) = identity_tables(0x8_0000);
    assert_eq!(l0, 0x8_0003);
    assert_eq!(l1.len(), 512);
    assert_eq!(l1[0], 0x743);
    assert_eq!(l1[1], 0x4000_0743);
    assert_eq!(l1[511], (511u64 << 30) | 0x743);
}

#[test]
fn uefi_memory_types_map_to_region_kinds() {
    assert_eq!(kind_from_efi(7), MemoryRegionKind::Usable);
    assert_eq!(kind_from_efi(1), MemoryRegionKind::Bootloader);
    assert_eq!(kind_from_efi(4), MemoryRegionKind::Bootloader);
    assert_eq!(kind_from_efi(5), MemoryRegionKind::Reserved);
    assert_eq!(kind_from_efi(9), MemoryRegionKind::Reserved);
    assert_eq!(kind_from_efi(0), MemoryRegionKind::Reserved);
}
