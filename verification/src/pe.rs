//! Minimal PE/COFF parser.
//!
//! Supports x86 (`IMAGE_FILE_MACHINE_I386`), x86_64 (`IMAGE_FILE_MACHINE_AMD64`)
//! and AArch64 (`IMAGE_FILE_MACHINE_ARM64`) images.

use vstd::prelude::*;
use vstd::string::StringSliceAdditionalSpecFns;
use crate::bytes::{le16, le32, le64, read_u16, read_u32, read_u64, str_from_utf8};

verus! {

/// PE machine types relevant to Aperture OS.
#[derive(Clone, Copy, Debug, PartialEq, Eq, Structural)]
pub enum MachineType {
    I386,
    Amd64,
    Arm64,
}

/// A single data directory entry.
#[derive(Clone, Copy, Debug, PartialEq, Eq, Structural)]
pub struct DataDirectory {
    pub rva: u32,
    pub size: u32,
}

/// Result of parsing a PE image header.
#[derive(Clone, Copy, Debug, PartialEq, Eq, Structural)]
pub struct PeImage {
    pub machine: MachineType,
    pub entry_point: u64,
    pub image_base: u64,
    pub image_size: u64,
    pub is_dll: bool,
    pub num_sections: u16,
    pub section_table_offset: usize,
    pub data_directory_offset: usize,
    pub num_data_directories: u32,
}

/// Import directory descriptor (one per imported DLL).
#[derive(Clone, Copy, Debug, PartialEq, Eq, Structural)]
pub struct ImportDescriptor {
    pub int_rva: u32,
    pub iat_rva: u32,
    pub name_rva: u32,
}

/// PE section header.
#[derive(Clone, Copy, Debug, PartialEq, Eq)]
pub struct SectionHeader {
    pub name: [u8; 8],
    pub virtual_size: u32,
    pub virtual_address: u32,
    pub raw_size: u32,
    pub raw_offset: u32,
}

pub const MAX_IMPORT_DESCRIPTORS: usize = 32;
pub const MAX_IMPORT_THUNKS: usize = 64;

// ── Format definition ──────────────────────────────────────────────────────

/// Slices never exceed `isize::MAX` bytes.
pub open spec fn buffer_fits(d: Seq<u8>) -> bool {
    d.len() <= isize::MAX
}

/// File offset of the `PE\0\0` signature.
pub open spec fn pe_offset(d: Seq<u8>) -> int {
    le32(d, 0x3C)
}

/// File offset of the optional header.
pub open spec fn opt_offset(d: Seq<u8>) -> int {
    pe_offset(d) + 24
}

pub open spec fn spec_machine(code: int) -> Option<MachineType> {
    if code == 0x8664 {
        Some(MachineType::Amd64)
    } else if code == 0xAA64 {
        Some(MachineType::Arm64)
    } else if code == 0x014C {
        Some(MachineType::I386)
    } else {
        None
    }
}

/// The DOS stub, the PE signature, the machine type and the optional-header
/// magic are all acceptable, and the first 8 optional-header bytes exist.
pub open spec fn pe_headers_accepted(d: Seq<u8>) -> bool {
    let p = pe_offset(d);
    let o = opt_offset(d);
    &&& d.len() >= 0x40
    &&& d[0] == 0x4D && d[1] == 0x5A
    &&& p + 24 <= d.len()
    &&& d[p] == 0x50 && d[p + 1] == 0x45 && d[p + 2] == 0 && d[p + 3] == 0
    &&& spec_machine(le16(d, p + 4)) is Some
    &&& o + 8 <= d.len()
    &&& (le16(d, o) == 0x20B || le16(d, o) == 0x10B)
}

/// An accepted header whose optional header ends before the image-size field:
/// reading the fixed optional-header fields runs past the buffer.
pub open spec fn pe_optional_header_truncated(d: Seq<u8>) -> bool {
    pe_headers_accepted(d) && opt_offset(d) + 60 > d.len()
}

pub open spec fn spec_image_base(d: Seq<u8>) -> int {
    let o = opt_offset(d);
    if le16(d, o) == 0x20B {
        le64(d, o + 24)
    } else {
        le32(d, o + 28)
    }
}

pub open spec fn spec_num_data_directories(d: Seq<u8>) -> int {
    let o = opt_offset(d);
    if o + 0x6C + 4 <= d.len() {
        le32(d, o + 0x68)
    } else {
        0
    }
}

/// The image header described by `d`, or `None` when it is not a PE image
/// or its optional header is cut short.
pub open spec fn spec_parse_pe(d: Seq<u8>) -> Option<PeImage> {
    if !pe_headers_accepted(d) || pe_optional_header_truncated(d) {
        None
    } else {
        let p = pe_offset(d);
        let o = opt_offset(d);
        let base = spec_image_base(d);
        Some(
            PeImage {
                machine: spec_machine(le16(d, p + 4))->Some_0,
                entry_point: wrap64(base + le32(d, o + 16)),
                image_base: base as u64,
                image_size: le32(d, o + 56) as u64,
                is_dll: (le16(d, p + 22) as u16) & 0x2000u16 != 0,
                num_sections: le16(d, p + 6) as u16,
                section_table_offset: (o + le16(d, p + 20)) as usize,
                data_directory_offset: (o + 0x6C) as usize,
                num_data_directories: spec_num_data_directories(d) as u32,
            },
        )
    }
}

/// The header offsets are small enough that every table walk stays in `usize`.
pub open spec fn offsets_fit(image: PeImage) -> bool {
    &&& image.section_table_offset + 40 * 0x1_0001 <= usize::MAX
    &&& image.data_directory_offset + 16 <= usize::MAX
}

pub open spec fn spec_data_directory(d: Seq<u8>, image: PeImage, index: usize) -> Option<DataDirectory> {
    let off = image.data_directory_offset + index * 8;
    if (index as u32) >= image.num_data_directories {
        None
    } else if off + 8 > d.len() {
        None
    } else {
        Some(DataDirectory { rva: le32(d, off) as u32, size: le32(d, off + 4) as u32 })
    }
}

/// `x` reduced modulo 2^64, for sums of two 64-bit values.
pub open spec fn wrap64(x: int) -> u64 {
    if x > u64::MAX {
        (x - 0x1_0000_0000_0000_0000) as u64
    } else {
        x as u64
    }
}

/// File offset of `rva`, searching the section table from section `i` on.
/// The search gives up at the first section header that is cut off.
pub open spec fn rva_offset_from(d: Seq<u8>, image: PeImage, rva: int, i: int) -> Option<usize>
    decreases image.num_sections - i,
{
    if i < 0 || i >= image.num_sections {
        None
    } else {
        let off = image.section_table_offset + i * 40;
        if off + 40 > d.len() {
            None
        } else {
            let start = le32(d, off + 12);
            let raw_size = le32(d, off + 16);
            let raw_offset = le32(d, off + 20);
            if start <= rva && rva < start + raw_size {
                Some((rva - start + raw_offset) as usize)
            } else {
                rva_offset_from(d, image, rva, i + 1)
            }
        }
    }
}

pub open spec fn spec_rva_to_file_offset(d: Seq<u8>, image: PeImage, rva: int) -> Option<usize> {
    rva_offset_from(d, image, rva, 0)
}

/// Start of the import descriptor table in the file (0 when its RVA maps nowhere).
pub open spec fn import_table_offset(d: Seq<u8>, image: PeImage) -> int {
    let dir = spec_data_directory(d, image, 1)->Some_0;
    match spec_rva_to_file_offset(d, image, dir.rva as int) {
        Some(o) => o as int,
        None => 0,
    }
}

/// Descriptor slot `i` runs past the buffer or is the all-zero terminator.
pub open spec fn import_slot_ends(d: Seq<u8>, base: int, i: int) -> bool {
    let e = base + i * 20;
    e + 20 > d.len() || (le32(d, e) == 0 && le32(d, e + 12) == 0 && le32(d, e + 16) == 0)
}

pub open spec fn import_descriptor_at(d: Seq<u8>, e: int) -> ImportDescriptor {
    ImportDescriptor {
        int_rva: le32(d, e) as u32,
        iat_rva: le32(d, e + 12) as u32,
        name_rva: le32(d, e + 16) as u32,
    }
}

/// Slot `i` of the import table as `parse_import_directory` reports it.
pub open spec fn import_slot(d: Seq<u8>, image: PeImage, i: int) -> Option<ImportDescriptor> {
    let dir = spec_data_directory(d, image, 1);
    let base = import_table_offset(d, image);
    if dir is None || dir->Some_0.rva == 0 || dir->Some_0.size == 0 {
        None
    } else if exists|j: int| 0 <= j <= i && #[trigger] import_slot_ends(d, base, j) {
        None
    } else {
        Some(import_descriptor_at(d, base + i * 20))
    }
}

/// Thunk slot `i` runs past the buffer or holds the zero terminator.
pub open spec fn thunk_slot_ends(d: Seq<u8>, base: int, i: int) -> bool {
    let e = base + i * 8;
    e + 8 > d.len() || le64(d, e) == 0
}

pub open spec fn thunk_slot(d: Seq<u8>, image: PeImage, rva: int, i: int) -> Option<u64> {
    match spec_rva_to_file_offset(d, image, rva) {
        None => None,
        Some(base) => if exists|j: int| 0 <= j <= i && #[trigger] thunk_slot_ends(d, base as int, j) {
            None
        } else {
            Some(le64(d, base + i * 8) as u64)
        },
    }
}

/// Index of the first NUL byte at or after `k` (or the buffer length).
pub open spec fn cstr_end(d: Seq<u8>, k: int) -> int
    decreases d.len() - k,
{
    if k >= d.len() || k < 0 || d[k] == 0 {
        k
    } else {
        cstr_end(d, k + 1)
    }
}

// ── Parsers ────────────────────────────────────────────────────────────────

/// Parse a PE image in memory. Returns `None` if the header is invalid.
pub fn parse_pe(data: &[u8]) -> (r: Option<PeImage>)
    requires
        buffer_fits(data@),
    ensures
        r == spec_parse_pe(data@),
        r matches Some(image) ==> offsets_fit(image),
{
    if data.len() < 0x40 {
        return None;
    }
    if !(data[0] == 0x4D && data[1] == 0x5A) {
        return None;
    }
    let pe_off32 = read_u32(data, 0x3C);
    if pe_off32 as u64 + 24 > data.len() as u64 {
        return None;
    }
    let pe_off = pe_off32 as usize;
    if !(data[pe_off] == 0x50 && data[pe_off + 1] == 0x45 && data[pe_off + 2] == 0 && data[pe_off + 3] == 0) {
        return None;
    }
    let machine_code = read_u16(data, pe_off + 4);
    let num_sections = read_u16(data, pe_off + 6);
    let opt_header_size = read_u16(data, pe_off + 20) as usize;
    let characteristics = read_u16(data, pe_off + 22);

    let machine = if machine_code == 0x8664 {
        MachineType::Amd64
    } else if machine_code == 0xAA64 {
        MachineType::Arm64
    } else if machine_code == 0x014C {
        MachineType::I386
    } else {
        return None;
    };

    let is_dll = (characteristics & 0x2000) != 0;

    let opt_off = pe_off + 24;
    if opt_off + 8 > data.len() {
        return None;
    }
    let magic = read_u16(data, opt_off);
    if magic != 0x20B && magic != 0x10B {
        return None;
    }
    if opt_off + 60 > data.len() {
        // The optional header ends before its fixed fields do.
        return None;
    }
    let image_base = if magic == 0x20B {
        read_u64(data, opt_off + 24)
    } else if magic == 0x10B {
        read_u32(data, opt_off + 28) as u64
    } else {
        return None;
    };

    let entry_point = read_u32(data, opt_off + 16) as u64;
    let image_size = read_u32(data, opt_off + 56) as u64;

    let section_table_offset = opt_off + opt_header_size;

    let num_data_directories = if opt_off + 0x6C + 4 <= data.len() {
        read_u32(data, opt_off + 0x68)
    } else {
        0
    };
    let data_directory_offset = opt_off + 0x6C;

    Some(PeImage {
        machine,
        entry_point: image_base.wrapping_add(entry_point),
        image_base,
        image_size,
        is_dll,
        num_sections,
        section_table_offset,
        data_directory_offset,
        num_data_directories,
    })
}

/// Parse a single data directory at `index` (0-based). Returns `None` if the
/// directory does not exist or is truncated.
pub fn data_directory(data: &[u8], image: &PeImage, index: usize) -> (r: Option<DataDirectory>)
    requires
        (index as u32) < image.num_data_directories ==> image.data_directory_offset + index * 8 + 8 <= usize::MAX,
    ensures
        r == spec_data_directory(data@, *image, index),
{
    if index as u32 >= image.num_data_directories {
        return None;
    }
    let offset = image.data_directory_offset + index * 8;
    if offset + 8 > data.len() {
        return None;
    }
    let rva = read_u32(data, offset);
    let size = read_u32(data, offset + 4);
    Some(DataDirectory { rva, size })
}

/// Parse a single section header at `offset`.
pub fn parse_section_header(data: &[u8], offset: usize) -> (r: Option<SectionHeader>)
    ensures
        r is Some <==> offset + 40 <= data@.len(),
        r matches Some(h) ==> {
            &&& h.name@ == data@.subrange(offset as int, offset + 8)
            &&& h.virtual_size == le32(data@, offset + 8)
            &&& h.virtual_address == le32(data@, offset + 12)
            &&& h.raw_size == le32(data@, offset + 16)
            &&& h.raw_offset == le32(data@, offset + 20)
        },
{
    if offset > data.len() || data.len() - offset < 40 {
        return None;
    }
    let mut name = [0u8; 8];
    let mut k: usize = 0;
    proof { assert(data@.len() == data.len()); }
    while k < 8
        invariant
            k <= 8,
            offset + 40 <= data@.len(),
            data@.len() <= usize::MAX,
            forall|j: int| 0 <= j < k ==> name@[j] == data@[offset + j],
        decreases 8 - k,
    {
        name[k] = data[offset + k];
        k += 1;
    }
    assert(name@ =~= data@.subrange(offset as int, offset + 8));
    let virtual_size = read_u32(data, offset + 8);
    let virtual_address = read_u32(data, offset + 12);
    let raw_size = read_u32(data, offset + 16);
    let raw_offset = read_u32(data, offset + 20);

    Some(SectionHeader { name, virtual_size, virtual_address, raw_size, raw_offset })
}

/// Convert a virtual address to a file offset using section headers.
fn rva_to_file_offset(data: &[u8], image: &PeImage, rva: u64) -> (r: Option<usize>)
    requires
        offsets_fit(*image),
    ensures
        r == spec_rva_to_file_offset(data@, *image, rva as int),
        r matches Some(o) ==> o < 0x2_0000_0000,
{
    let n = image.num_sections as usize;
    let mut i: usize = 0;
    while i < n
        invariant
            i <= n,
            n == image.num_sections,
            offsets_fit(*image),
            rva_offset_from(data@, *image, rva as int, 0) == rva_offset_from(data@, *image, rva as int, i as int),
        decreases n - i,
    {
        let offset = image.section_table_offset + i * 40;
        let section = match parse_section_header(data, offset) {
            Some(s) => s,
            None => return None,
        };
        let start = section.virtual_address as u64;
        let end = start + section.raw_size as u64;
        if rva >= start && rva < end {
            return Some((rva - start + section.raw_offset as u64) as usize);
        }
        i += 1;
    }
    None
}

/// Parse the import directory and return up to `MAX_IMPORT_DESCRIPTORS`
/// entries. The returned array is terminated by the first `None` slot.
pub fn parse_import_directory(data: &[u8], image: &PeImage) -> (out: [Option<ImportDescriptor>; 32])
    requires
        offsets_fit(*image),
    ensures
        forall|i: int| 0 <= i < 32 ==> #[trigger] out@[i] == import_slot(data@, *image, i),
{
    let mut out: [Option<ImportDescriptor>; 32] = [None; 32];
    let dir = match data_directory(data, image, 1) {
        Some(d) => d,
        None => {
            assert forall|i: int| 0 <= i < 32 implies #[trigger] out@[i] == import_slot(data@, *image, i) by {}
            return out;
        },
    };
    if dir.rva == 0 || dir.size == 0 {
        assert forall|i: int| 0 <= i < 32 implies #[trigger] out@[i] == import_slot(data@, *image, i) by {}
        return out;
    }

    let dir_offset = match rva_to_file_offset(data, image, dir.rva as u64) {
        Some(o) => o,
        None => 0,
    };
    let ghost base = dir_offset as int;
    assert(base == import_table_offset(data@, *image));
    let mut i: usize = 0;
    while i < MAX_IMPORT_DESCRIPTORS
        invariant
            i <= 32,
            base == dir_offset,
            dir_offset < 0x2_0000_0000,
            base == import_table_offset(data@, *image),
            spec_data_directory(data@, *image, 1) == Some(dir),
            dir.rva != 0 && dir.size != 0,
            forall|j: int| 0 <= j < i ==> !import_slot_ends(data@, base, j),
            forall|j: int| 0 <= j < i ==> #[trigger] out@[j] == Some(import_descriptor_at(data@, base + j * 20)),
            forall|j: int| i <= j < 32 ==> #[trigger] out@[j] == None::<ImportDescriptor>,
        ensures
            i <= 32,
            forall|j: int| 0 <= j < i ==> !import_slot_ends(data@, base, j),
            forall|j: int| 0 <= j < i ==> #[trigger] out@[j] == Some(import_descriptor_at(data@, base + j * 20)),
            forall|j: int| i <= j < 32 ==> #[trigger] out@[j] == None::<ImportDescriptor>,
            i == 32 || import_slot_ends(data@, base, i as int),
        decreases 32 - i,
    {
        let entry_offset64 = dir_offset as u64 + i as u64 * 20;
        if entry_offset64 + 20 > data.len() as u64 {
            assert(import_slot_ends(data@, base, i as int));
            break;
        }
        let entry_offset = entry_offset64 as usize;
        let int_rva = read_u32(data, entry_offset);
        let iat_rva = read_u32(data, entry_offset + 12);
        let name_rva = read_u32(data, entry_offset + 16);
        // The terminator has zero fields.
        if int_rva == 0 && iat_rva == 0 && name_rva == 0 {
            assert(import_slot_ends(data@, base, i as int));
            break;
        }
        out[i] = Some(ImportDescriptor { int_rva, iat_rva, name_rva });
        i += 1;
    }
    assert forall|k: int| 0 <= k < 32 implies #[trigger] out@[k] == import_slot(data@, *image, k) by {
        if k < i {
            assert(!(exists|j: int| 0 <= j <= k && #[trigger] import_slot_ends(data@, base, j)));
        } else if i < 32 {
            assert(import_slot_ends(data@, base, i as int));
        }
    }
    out
}

/// Parse import thunks (PE32+ IAT/INT entries) at `rva`. Each entry is an
/// 8-byte RVA or ordinal. The array terminates at the first zero entry.
pub fn parse_import_thunks(data: &[u8], image: &PeImage, rva: u32) -> (out: [Option<u64>; 64])
    requires
        offsets_fit(*image),
    ensures
        forall|i: int| 0 <= i < 64 ==> #[trigger] out@[i] == thunk_slot(data@, *image, rva as int, i),
{
    let mut out: [Option<u64>; 64] = [None; 64];
    let offset = match rva_to_file_offset(data, image, rva as u64) {
        Some(o) => o,
        None => {
            assert forall|i: int| 0 <= i < 64 implies #[trigger] out@[i] == thunk_slot(data@, *image, rva as int, i) by {}
            return out;
        },
    };
    let ghost base = offset as int;
    let mut i: usize = 0;
    while i < MAX_IMPORT_THUNKS
        invariant
            i <= 64,
            base == offset,
            offset < 0x2_0000_0000,
            spec_rva_to_file_offset(data@, *image, rva as int) == Some(offset),
            forall|j: int| 0 <= j < i ==> !thunk_slot_ends(data@, base, j),
            forall|j: int| 0 <= j < i ==> #[trigger] out@[j] == Some(le64(data@, base + j * 8) as u64),
            forall|j: int| i <= j < 64 ==> #[trigger] out@[j] == None::<u64>,
        ensures
            i <= 64,
            forall|j: int| 0 <= j < i ==> !thunk_slot_ends(data@, base, j),
            forall|j: int| 0 <= j < i ==> #[trigger] out@[j] == Some(le64(data@, base + j * 8) as u64),
            forall|j: int| i <= j < 64 ==> #[trigger] out@[j] == None::<u64>,
            i == 64 || thunk_slot_ends(data@, base, i as int),
        decreases 64 - i,
    {
        let entry_offset64 = offset as u64 + i as u64 * 8;
        if entry_offset64 + 8 > data.len() as u64 {
            assert(thunk_slot_ends(data@, base, i as int));
            break;
        }
        let entry_offset = entry_offset64 as usize;
        let value = read_u64(data, entry_offset);
        if value == 0 {
            assert(thunk_slot_ends(data@, base, i as int));
            break;
        }
        out[i] = Some(value);
        i += 1;
    }
    assert forall|k: int| 0 <= k < 64 implies #[trigger] out@[k] == thunk_slot(data@, *image, rva as int, k) by {
        if k < i {
            assert(!(exists|j: int| 0 <= j <= k && #[trigger] thunk_slot_ends(data@, base, j)));
        } else if i < 64 {
            assert(thunk_slot_ends(data@, base, i as int));
        }
    }
    out
}

/// Read a null-terminated ASCII string at `rva` from the raw file.
pub fn read_rva_string<'a>(data: &'a [u8], image: &PeImage, rva: u32) -> (r: Option<&'a str>)
    requires
        offsets_fit(*image),
    ensures
        match spec_rva_to_file_offset(data@, *image, rva as int) {
            None => r is None,
            Some(off) => {
                let bytes = if off <= data@.len() {
                    data@.subrange(off as int, cstr_end(data@, off as int))
                } else {
                    Seq::empty()
                };
                &&& (r is Some <==> (off <= data@.len() && vstd::utf8::valid_utf8(bytes)))
                &&& (r matches Some(s) ==> s.spec_bytes() == bytes)
            },
        },
{
    let offset = match rva_to_file_offset(data, image, rva as u64) {
        Some(o) => o,
        None => return None,
    };
    if offset > data.len() {
        // The slice below would start past the end of the buffer.
        return None;
    }
    let mut len: usize = 0;
    proof { assert(data@.len() == data.len()); }
    while offset + len < data.len() && data[offset + len] != 0
        invariant
            offset <= data@.len(),
            offset + len <= data@.len(),
            data@.len() <= usize::MAX,
            cstr_end(data@, offset as int) == cstr_end(data@, (offset + len) as int),
        decreases data@.len() - offset - len,
    {
        len += 1;
    }
    str_from_utf8(&data[offset..offset + len])
}

impl SectionHeader {
    /// Return the section name as a `&str`, trimming trailing NUL bytes.
    pub fn name_str(&self) -> (r: &str)
        ensures
            ({
                let len = cstr_end(self.name@, 0);
                let bytes = self.name@.subrange(0, len);
                if vstd::utf8::valid_utf8(bytes) {
                    r.spec_bytes() == bytes
                } else {
                    r@.len() == 0
                }
            }),
    {
        let mut len: usize = 0;
        while len < 8 && self.name[len] != 0
            invariant
                len <= 8,
                self.name@.len() == 8,
                cstr_end(self.name@, 0) == cstr_end(self.name@, len as int),
            decreases 8 - len,
        {
            len += 1;
        }
        match str_from_utf8(&self.name.as_slice()[0..len]) {
            Some(s) => s,
            None => {
                proof { reveal_strlit(""); }
                ""
            },
        }
    }
}

/// A parsed image is a DLL exactly when the file header's characteristics
/// (the 16-bit word 22 bytes past the PE signature) have `IMAGE_FILE_DLL`
/// (0x2000), that is bit 5 of their high byte, set.
pub proof fn dll_flag_from_characteristics(d: Seq<u8>)
    requires
        spec_parse_pe(d) is Some,
    ensures
        spec_parse_pe(d)->0.is_dll == (d[le32(d, 0x3C) + 23] & 0x20u8 != 0),
{
    let p = le32(d, 0x3C);
    let lo = d[p + 22];
    let hi = d[p + 23];
    assert(((lo as int + 256 * hi as int) as u16) & 0x2000u16 != 0 <==> hi & 0x20u8 != 0) by (bit_vector);
}

/// What a parsed image says, read from the file's bytes: it starts with `MZ`
/// and has `PE\0\0` at the offset stored at 0x3C; the number of sections is
/// the file header's 16-bit count (6 bytes past the signature); the section
/// table follows the optional header (24 bytes past the signature, of the
/// size stored 20 bytes past it); the image size is the 32-bit word 56
/// bytes into the optional header; and the entry point is the image base
/// plus the entry RVA (16 bytes into the optional header), modulo 2^64.
pub proof fn parsed_header_fields(d: Seq<u8>)
    requires
        buffer_fits(d),
        spec_parse_pe(d) is Some,
    ensures
        ({
            let img = spec_parse_pe(d)->0;
            let p = d[0x3C] + 256 * d[0x3D] + 65536 * d[0x3E] + 16777216 * d[0x3F];
            let o = p + 24;
            &&& d[0] == 0x4D && d[1] == 0x5A
            &&& d[p] == 0x50 && d[p + 1] == 0x45 && d[p + 2] == 0 && d[p + 3] == 0
            &&& img.num_sections == d[p + 6] + 256 * d[p + 7]
            &&& img.section_table_offset == o + d[p + 20] + 256 * d[p + 21]
            &&& img.image_size == d[o + 56] + 256 * d[o + 57] + 65536 * d[o + 58] + 16777216 * d[o + 59]
            &&& img.entry_point == (img.image_base + (d[o + 16] + 256 * d[o + 17] + 65536 * d[o + 18] + 16777216
                * d[o + 19])) % 0x1_0000_0000_0000_0000
            &&& img.data_directory_offset == o + 0x6C
        }),
{
    let p = pe_offset(d);
    let o = opt_offset(d);
    let base = spec_image_base(d);
    assert(0 <= base <= u64::MAX);
    assert(0 <= le32(d, o + 16) <= u32::MAX);
    let x = base + le32(d, o + 16);
    assert(wrap64(x) == x % 0x1_0000_0000_0000_0000) by {
        if x > u64::MAX {
            assert(x - 0x1_0000_0000_0000_0000 == x % 0x1_0000_0000_0000_0000);
        }
    }
}

} // verus!
