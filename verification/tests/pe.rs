use aperture::pe::{
    data_directory, parse_import_directory, parse_pe, parse_section_header, read_rva_string, MachineType,
};

fn put(data: &mut [u8], off: usize, bytes: &[u8]) {
    data[off..off + bytes.len()].copy_from_slice(bytes);
}

/// A minimal valid PE32+ executable header.
fn make_pe64() -> Vec<u8> {
    let mut data = vec![0u8; 0x2000];
    put(&mut data, 0, b"MZ");
    put(&mut data, 0x3C, &0x40u32.to_le_bytes());
    put(&mut data, 0x40, b"PE\0\0");
    put(&mut data, 0x44, &0x8664u16.to_le_bytes());
    put(&mut data, 0x46, &1u16.to_le_bytes());
    put(&mut data, 0x54, &0xF0u16.to_le_bytes());
    put(&mut data, 0x58, &0x20Bu16.to_le_bytes());
    put(&mut data, 0x68, &0x1000u32.to_le_bytes());
    put(&mut data, 0x70, &0x10000u32.to_le_bytes());
    put(&mut data, 0x70, &0x1_4000_0000u64.to_le_bytes());
    put(&mut data, 0x90, &0x2000u32.to_le_bytes());
    put(&mut data, 0x58 + 0x68, &16u32.to_le_bytes());
    data
}

/// The kernel loader's fixture image: one `.text` section of 512 bytes at
/// file offset 0x200, mapped at RVA 0x1000.
fn kernel_loader_fixture() -> Vec<u8> {
    let mut data = make_pe64();
    data.truncate(0x400);
    let section = 0x58 + 0xF0;
    put(&mut data, section, b".text\0\0\0");
    put(&mut data, section + 8, &0x1000u32.to_le_bytes());
    put(&mut data, section + 12, &0x1000u32.to_le_bytes());
    put(&mut data, section + 16, &512u32.to_le_bytes());
    put(&mut data, section + 20, &0x200u32.to_le_bytes());
    for b in data[0x200..0x400].iter_mut() {
        *b = 0xC3;
    }
    data
}

#[test]
fn rejects_too_small() {
    assert!(parse_pe(&[0u8; 10]).is_none());
}

#[test]
fn rejects_invalid_mz() {
    let mut data = vec![0u8; 0x100];
    data[0..2].copy_from_slice(b"XX");
    assert!(parse_pe(&data).is_none());
}

#[test]
fn parses_minimal_pe64() {
    let image = parse_pe(&make_pe64()).expect("valid PE64");
    assert_eq!(image.machine, MachineType::Amd64);
    assert_eq!(image.image_base, 0x1_4000_0000);
    assert_eq!(image.entry_point, 0x1_4000_1000);
    assert_eq!(image.image_size, 0x2000);
    assert!(!image.is_dll);
    assert_eq!(image.num_sections, 1);
}

#[test]
fn parses_kernel_loader_fixture() {
    let data = kernel_loader_fixture();
    let image = parse_pe(&data).expect("valid fixture PE64");
    assert_eq!(image.machine, MachineType::Amd64);
    assert_eq!(image.image_base, 0x1_4000_0000);
    assert_eq!(image.entry_point, 0x1_4000_1000);
    assert_eq!(image.image_size, 0x2000);
    assert!(!image.is_dll);
    assert_eq!(image.num_sections, 1);

    let section = parse_section_header(&data, image.section_table_offset).expect("text section");
    assert_eq!(section.name_str(), ".text");
    assert_eq!(section.virtual_address, 0x1000);
    assert_eq!(section.virtual_size, 0x1000);
    assert_eq!(section.raw_offset, 0x200);
    assert_eq!(section.raw_size, 512);
}

#[test]
fn parses_data_directories() {
    let mut data = make_pe64();
    let image = parse_pe(&data).unwrap();
    assert_eq!(image.num_data_directories, 16);
    for i in 0..16 {
        let dir = data_directory(&data, &image, i).expect("directory in bounds");
        assert_eq!(dir.rva, 0);
        assert_eq!(dir.size, 0);
    }

    let import_rva = 0x2000u32;
    let import_size = 20u32;
    let dir_offset = image.data_directory_offset + 1 * 8;
    data[dir_offset..dir_offset + 4].copy_from_slice(&import_rva.to_le_bytes());
    data[dir_offset + 4..dir_offset + 8].copy_from_slice(&import_size.to_le_bytes());

    let section_offset = image.section_table_offset;
    data[section_offset..section_offset + 8].copy_from_slice(b".idata\0\0");
    data[section_offset + 8..section_offset + 12].copy_from_slice(&0x1000u32.to_le_bytes());
    data[section_offset + 12..section_offset + 16].copy_from_slice(&import_rva.to_le_bytes());
    data[section_offset + 16..section_offset + 20].copy_from_slice(&0x1000u32.to_le_bytes());
    data[section_offset + 20..section_offset + 24].copy_from_slice(&0x300u32.to_le_bytes());

    let desc_offset = 0x300;
    let iat_rva = 0x2100u32;
    let name_rva = 0x2200u32;
    data[desc_offset + 12..desc_offset + 16].copy_from_slice(&iat_rva.to_le_bytes());
    data[desc_offset + 16..desc_offset + 20].copy_from_slice(&name_rva.to_le_bytes());

    let name_offset = 0x500;
    data[name_offset..name_offset + 12].copy_from_slice(b"kernel32.dll");

    let image = parse_pe(&data).unwrap();
    let dirs = parse_import_directory(&data, &image);
    assert!(dirs[0].is_some());
    let desc = dirs[0].unwrap();
    assert_eq!(desc.iat_rva, iat_rva);
    assert_eq!(desc.name_rva, name_rva);
    assert_eq!(read_rva_string(&data, &image, name_rva), Some("kernel32.dll"));
    assert!(dirs[1].is_none());
}

#[test]
fn data_directory_out_of_range_is_none() {
    let data = make_pe64();
    let image = parse_pe(&data).unwrap();
    assert!(data_directory(&data, &image, 16).is_none());
}

#[test]
fn unmapped_rva_has_no_string() {
    let data = make_pe64();
    let image = parse_pe(&data).unwrap();
    assert_eq!(read_rva_string(&data, &image, 0x9000), None);
}

#[test]
fn truncated_optional_header_is_rejected() {
    let mut d = [0u8; 0x60];
    d[0] = b'M';
    d[1] = b'Z';
    d[0x3C] = 0x40;
    d[0x40..0x44].copy_from_slice(b"PE\0\0");
    d[0x44] = 0x64;
    d[0x45] = 0x86;
    d[0x58] = 0x0B;
    d[0x59] = 0x02;
    assert!(parse_pe(&d).is_none());
}
