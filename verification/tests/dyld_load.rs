use aperture::dyld::{DyldState, LIB_BASE};
use aperture::dyld_load::{
    elf_relocations, library_format, link_image, load_dylib, load_shared_library, macho_binds, macho_rebases, parse_elf_so, parse_macho_dylib, LibFormat,
    MachoImage,
};

fn put(d: &mut [u8], off: usize, bytes: &[u8]) {
    d[off..off + bytes.len()].copy_from_slice(bytes);
}

fn put64(d: &mut [u8], off: usize, v: u64) {
    put(d, off, &v.to_le_bytes());
}

/// A small x86-64 shared object exporting `my_func` at 0x1234, with a lazy
/// binding table and a two-slot init array.
fn sample_so() -> Vec<u8> {
    let mut d = vec![0u8; 0x200];
    put(&mut d, 0, &[0x7f, b'E', b'L', b'F', 2, 1]);
    put(&mut d, 16, &3u16.to_le_bytes());
    put(&mut d, 18, &62u16.to_le_bytes());
    put64(&mut d, 24, 0x1000);
    put64(&mut d, 32, 64);
    put(&mut d, 54, &56u16.to_le_bytes());
    put(&mut d, 56, &2u16.to_le_bytes());
    // PT_LOAD covering the file, 0x1800 bytes in memory.
    put(&mut d, 64, &1u32.to_le_bytes());
    put64(&mut d, 64 + 32, 0x200);
    put64(&mut d, 64 + 40, 0x1800);
    // PT_DYNAMIC at 0x100.
    put(&mut d, 120, &2u32.to_le_bytes());
    put64(&mut d, 120 + 8, 0x100);
    put64(&mut d, 120 + 32, 0x70);
    let dynamic: [(u64, u64); 6] = [(6, 0x180), (5, 0x1e0), (10, 0x20), (23, 0), (25, 0x800), (27, 16)];
    for (k, (tag, val)) in dynamic.iter().enumerate() {
        put64(&mut d, 0x100 + 16 * k, *tag);
        put64(&mut d, 0x100 + 16 * k + 8, *val);
    }
    // Symbol 1: "my_func", global function in section 1.
    put(&mut d, 0x198, &1u32.to_le_bytes());
    d[0x198 + 4] = 0x12;
    put(&mut d, 0x198 + 6, &1u16.to_le_bytes());
    put64(&mut d, 0x198 + 8, 0x1234);
    put(&mut d, 0x1e0, b"\0my_func\0");
    d
}

#[test]
fn formats_are_told_by_magic() {
    assert_eq!(library_format(&sample_so()), Some(LibFormat::Elf));
    assert_eq!(library_format(&[0xcf, 0xfa, 0xed, 0xfe, 0]), Some(LibFormat::MachO));
    assert_eq!(library_format(&sample_macho()), Some(LibFormat::MachO));
    assert_eq!(library_format(&[1, 2, 3]), None);
    assert_eq!(library_format(b"MZ\0\0"), None);
}

#[test]
fn elf_shared_object_is_parsed() {
    let img = parse_elf_so(&sample_so()).expect("a shared object");
    assert_eq!(img.entry, 0x1000);
    assert_eq!((img.lo, img.hi), (0, 0x2000));
    assert_eq!(img.phdrs.len(), 2);
    assert_eq!(img.dynamic.symtab, Some(0x180));
    assert_eq!(img.exports.len(), 1);
    assert_eq!(img.exports[0].0, "my_func");
    assert_eq!((img.exports[0].1, img.exports[0].2), (0x1234, 0x12));
    let mut bad = sample_so();
    bad[18] = 183;
    assert!(parse_elf_so(&bad).is_none());
}

#[test]
fn elf_library_is_loaded_and_its_exports_resolve() {
    let mut st = DyldState::new();
    st.register_libc_symbols();
    let idx = load_shared_library(&sample_so(), "libfoo.so", &mut st).expect("loaded");
    assert_eq!(idx, 0);
    assert_eq!(st.lib_count(), 1);
    let lib = st.get_lib(0).unwrap();
    assert_eq!(lib.name, "libfoo.so");
    assert_eq!(lib.base_addr, LIB_BASE);
    assert_eq!(lib.entry, 0x1000);
    assert!(lib.has_lazy);
    assert_eq!(lib.init_funcs, vec![LIB_BASE + 0x800, LIB_BASE + 0x808]);
    assert_eq!(st.resolve_symbol_checked("my_func"), Some(LIB_BASE + 0x1234));
    assert_eq!(st.resolve_symbol("my_func"), Some(LIB_BASE + 0x1234));
    assert_eq!(st.next_base(), LIB_BASE + 0x40_0000);
    // A second copy goes to the next base.
    assert_eq!(load_shared_library(&sample_so(), "libbar.so", &mut st), Some(1));
    assert_eq!(st.get_lib(1).unwrap().base_addr, LIB_BASE + 0x40_0000);
    assert_eq!(st.resolve_symbol_checked("my_func"), Some(LIB_BASE + 0x40_0000 + 0x1234));
}

#[test]
fn other_images_are_refused() {
    let mut st = DyldState::new();
    assert_eq!(load_shared_library(&[0xfe, 0xed, 0xfa, 0xcf, 0, 0, 0, 0], "x", &mut st), None);
    assert_eq!(load_shared_library(b"\0\0\0\0", "x", &mut st), None);
    assert_eq!(st.lib_count(), 0);
    assert!(!load_dylib("libc.dylib", &mut st));
}

#[test]
fn main_image_is_linked_to_its_entry() {
    assert_eq!(link_image(&sample_so()), Some(0x1000));
    assert_eq!(link_image(b"junk"), None);
}

/// A small x86-64 Mach-O image: one `__TEXT` segment at 0x1000 of 0x2000
/// bytes and an entry point at offset 0x40.
fn sample_macho() -> Vec<u8> {
    let mut d = vec![0u8; 0x100];
    put(&mut d, 0, &0xfeed_facfu32.to_le_bytes());
    put(&mut d, 4, &0x0100_0007u32.to_le_bytes());
    put(&mut d, 16, &2u32.to_le_bytes());
    put(&mut d, 32, &0x19u32.to_le_bytes());
    put(&mut d, 36, &72u32.to_le_bytes());
    put(&mut d, 40, b"__TEXT");
    put64(&mut d, 32 + 24, 0x1000);
    put64(&mut d, 32 + 32, 0x2000);
    put64(&mut d, 32 + 48, 0x100);
    put(&mut d, 104, &0x28u32.to_le_bytes());
    put(&mut d, 108, &24u32.to_le_bytes());
    put64(&mut d, 112, 0x40);
    d
}

#[test]
fn macho_library_is_loaded_and_linked() {
    let mut st = DyldState::new();
    assert_eq!(load_shared_library(&sample_macho(), "libm.dylib", &mut st), Some(0));
    let lib = st.get_lib(0).unwrap();
    assert_eq!(lib.name, "libm.dylib");
    assert_eq!(lib.base_addr, LIB_BASE);
    assert_eq!(lib.entry, LIB_BASE + 0x40);
    assert!(lib.init_funcs.is_empty());
    assert!(!lib.has_lazy);
    assert_eq!(st.next_base(), LIB_BASE + 0x40_0000);
    assert_eq!(link_image(&sample_macho()), Some(LIB_BASE + 0x40));
}

#[test]
fn macho_image_is_parsed() {
    let d = sample_macho();
    let img = parse_macho_dylib(&d).expect("a Mach-O image");
    assert_eq!(img.segments, vec![(0x1000, 0x2000, 0, 0x100)]);
    assert_eq!((img.lo, img.hi), (0x1000, 0x3000));
    assert_eq!(img.entry, Some(0x40));
    assert!(img.exports.is_empty());
    let mut zero = d.clone();
    put(&mut zero, 40, b"__PAGEZERO");
    assert!(parse_macho_dylib(&zero).is_none());
}

fn image_with_streams(bind: (u32, u32), lazy: (u32, u32)) -> MachoImage {
    MachoImage {
        segments: vec![(0x1000, 0x1000, 0, 0x1000)],
        lo: 0x1000,
        hi: 0x2000,
        symtab: None,
        dyld_info: Some((0, 0, bind.0, bind.1, lazy.0, lazy.1)),
        entry: None,
        exports: Vec::new(),
    }
}

#[test]
fn macho_bind_opcodes_are_interpreted() {
    let mut state = DyldState::new();
    state.register_builtin("puts", 0x5000);
    let bind: Vec<u8> = vec![
        0x40, b'p', b'u', b't', b's', 0, // symbol "puts"
        0x70, 0x10, // segment 0, offset 0x10
        0x60, 0x04, // addend 4
        0x90, // bind at 0x10
        0xB1, // bind at 0x18, then skip 16 bytes
        0xC0, 0x02, 0x08, // two binds 16 bytes apart, at 0x28 and 0x38
        0x40, b'g', b'o', b'n', b'e', 0, // a symbol nobody exports
        0x90, // no bind made
        0x00, // done
        0x90, // never reached
    ];
    let lazy: Vec<u8> = vec![0x40, b'p', b'u', b't', b's', 0, 0x70, 0x80, 0x02, 0x90, 0x00];
    let mut d = vec![0u8; 0x200];
    put(&mut d, 0x100, &bind);
    put(&mut d, 0x180, &lazy);
    let img = image_with_streams((0x100, bind.len() as u32), (0x180, lazy.len() as u32));
    let binds = macho_binds(&d, &img, 0x10_0000, &state);
    assert_eq!(
        binds,
        vec![
            (0x10_1010, 0x5004),
            (0x10_1018, 0x5004),
            (0x10_1028, 0x5004),
            (0x10_1038, 0x5004),
            (0x10_1100, 0x5000),
        ]
    );
}

#[test]
fn macho_bind_streams_outside_the_file_or_malformed_bind_nothing() {
    let mut state = DyldState::new();
    state.register_builtin("puts", 0x5000);
    let d = vec![0u8; 0x40];
    assert!(macho_binds(&d, &image_with_streams((0x30, 0x20), (0, 0)), 0, &state).is_empty());
    let mut stream = vec![0x40, b'p', b'u', b't', b's', 0, 0x75, 0x00, 0x90];
    let mut d = vec![0u8; 0x40];
    put(&mut d, 0, &stream);
    assert!(macho_binds(&d, &image_with_streams((0, stream.len() as u32), (0, 0)), 0, &state).is_empty());
    stream = vec![0x40, b'p', b'u', b't', b's', 0, 0x70];
    stream.extend_from_slice(&[0x80; 11]);
    stream.extend_from_slice(&[0x00, 0x90]);
    let mut d = vec![0u8; 0x40];
    put(&mut d, 0, &stream);
    assert!(macho_binds(&d, &image_with_streams((0, stream.len() as u32), (0, 0)), 0, &state).is_empty());
}

#[test]
fn elf_relative_relocations_are_computed() {
    let mut d = sample_so();
    d.resize(0x300, 0);
    put64(&mut d, 120 + 32, 0x80);
    let dynamic: [(u64, u64); 7] = [(6, 0x180), (5, 0x1e0), (10, 0x20), (23, 0x260), (7, 0x200), (8, 48), (2, 24)];
    for (k, (tag, val)) in dynamic.iter().enumerate() {
        put64(&mut d, 0x100 + 16 * k, *tag);
        put64(&mut d, 0x100 + 16 * k + 8, *val);
    }
    // .rela.dyn: a relative relocation, then a symbol one.
    put64(&mut d, 0x200, 0x3000);
    put64(&mut d, 0x208, 8);
    put64(&mut d, 0x210, 0x40);
    put64(&mut d, 0x218, 0x3008);
    put64(&mut d, 0x220, (1 << 32) | 6);
    // .rela.plt: an AArch64 relative relocation.
    put64(&mut d, 0x260, 0x3010);
    put64(&mut d, 0x268, 0x403);
    put64(&mut d, 0x270, 0x80);
    let img = parse_elf_so(&d).expect("a shared object");
    assert_eq!(img.dynamic.rela, Some(0x200));
    assert_eq!(img.dynamic.pltrelsz, Some(24));
    assert_eq!(elf_relocations(&d, &img, 0x40_0000), vec![(0x40_3000, 0x40_0040), (0x40_3010, 0x40_0080)]);
    // A table reaching past the end of the file is skipped.
    let mut far = d.clone();
    put64(&mut far, 0x100 + 16 * 5 + 8, 0x1000);
    let img = parse_elf_so(&far).expect("a shared object");
    assert_eq!(elf_relocations(&far, &img, 0x40_0000), vec![(0x40_3010, 0x40_0080)]);
}

#[test]
fn macho_rebase_opcodes_move_pointers_by_the_slide() {
    let stream: Vec<u8> = vec![
        0x11, // pointer rebases
        0x20, 0x10, // segment 0, offset 0x10
        0x52, // two rebases: 0x10, 0x18
        0x40, 0x08, // skip to 0x28
        0x70, 0x08, // rebase at 0x28, then 16 bytes on
        0x80, 0x02, 0x08, // two rebases 16 bytes apart: 0x38, 0x48
        0x12, // a type that is not a pointer
        0x60, 0x01, // no write
        0x00, // done
        0x51, // never reached
    ];
    let mut d = vec![0u8; 0x80];
    put(&mut d, 0x20, &stream);
    let mut img = image_with_streams((0, 0), (0, 0));
    img.dyld_info = Some((0x20, stream.len() as u32, 0, 0, 0, 0));
    let slide = 0x10_0000 - 0x1000;
    assert_eq!(
        macho_rebases(&d, &img, 0x10_0000, slide),
        vec![
            (0x10_1010, 0x20_0010),
            (0x10_1018, 0x20_0018),
            (0x10_1028, 0x20_0028),
            (0x10_1038, 0x20_0038),
            (0x10_1048, 0x20_0048),
        ]
    );
    img.dyld_info = Some((0x70, 0x20, 0, 0, 0, 0));
    assert!(macho_rebases(&d, &img, 0x10_0000, slide).is_empty());
}
