//! The boot loader's logic: reading the kernel's ELF program headers, the
//! span of memory its loadable segments need, copying the segments into
//! that memory, the identity page tables for AArch64, and the firmware's
//! memory types.
//!
//! The firmware calls (file reads, page allocation, the memory map, exiting
//! boot services) and the jump into the kernel stay with the application.

use vstd::prelude::*;
use crate::bytes::{le16, le32, le64, read_u16, read_u32, read_u64};
use crate::common::MemoryRegionKind;

verus! {

pub const PT_LOAD: u32 = 1;

/// Size of an ELF64 file header.
pub const EHDR_SIZE: usize = 64;

/// Size of an ELF64 program header.
pub const PHDR_SIZE: usize = 56;

/// Page size the kernel's segments are rounded to.
pub const PAGE: u64 = 0x1000;

/// An ELF64 program header.
#[derive(Clone, Copy, Debug, PartialEq, Eq, Structural)]
pub struct Elf64Phdr {
    pub p_type: u32,
    pub p_flags: u32,
    pub p_offset: u64,
    pub p_vaddr: u64,
    pub p_paddr: u64,
    pub p_filesz: u64,
    pub p_memsz: u64,
    pub p_align: u64,
}

/// The program header stored at `off`.
pub open spec fn phdr_at(d: Seq<u8>, off: int) -> Elf64Phdr {
    Elf64Phdr {
        p_type: le32(d, off) as u32,
        p_flags: le32(d, off + 4) as u32,
        p_offset: le64(d, off + 8) as u64,
        p_vaddr: le64(d, off + 16) as u64,
        p_paddr: le64(d, off + 24) as u64,
        p_filesz: le64(d, off + 32) as u64,
        p_memsz: le64(d, off + 40) as u64,
        p_align: le64(d, off + 48) as u64,
    }
}

/// A little-endian 64-bit executable ELF file header.
pub open spec fn elf_header_ok(d: Seq<u8>) -> bool {
    &&& d.len() >= EHDR_SIZE
    &&& d[0] == 0x7f && d[1] == 0x45 && d[2] == 0x4c && d[3] == 0x46
    &&& d[4] == 2
    &&& d[5] == 1
    &&& le16(d, 16) == 2
}

/// The program header table (`phnum` entries from `phoff`) lies in the file,
/// both at its declared entry size and at the size of an ELF64 header.
pub open spec fn phdrs_fit(d: Seq<u8>) -> bool {
    let phoff = le64(d, 32);
    let phnum = le16(d, 56);
    &&& phoff + phnum * le16(d, 54) <= d.len()
    &&& phoff + phnum * PHDR_SIZE <= d.len()
}

/// Parse a kernel image: its entry address and program headers, or `None`
/// when it is not an executable ELF64 file whose header table fits.
pub fn parse_elf(data: &[u8]) -> (r: Option<(u64, Vec<Elf64Phdr>)>)
    ensures
        r is Some <==> elf_header_ok(data@) && phdrs_fit(data@),
        r matches Some(p) ==> {
            &&& p.0 as int == le64(data@, 24)
            &&& p.1@.len() == le16(data@, 56)
            &&& forall|i: int| 0 <= i < p.1@.len() ==> #[trigger] p.1@[i] == phdr_at(data@, le64(data@, 32) + i * PHDR_SIZE)
        },
{
    if data.len() < EHDR_SIZE {
        return None;
    }
    if data[0] != 0x7f || data[1] != 0x45 || data[2] != 0x4c || data[3] != 0x46 || data[4] != 2 || data[5] != 1 {
        return None;
    }
    if read_u16(data, 16) != 2 {
        return None;
    }
    let entry = read_u64(data, 24);
    let phoff = read_u64(data, 32);
    let phentsize = read_u16(data, 54) as u64;
    let phnum = read_u16(data, 56) as u64;
    let len = data.len() as u64;
    assert(phnum * phentsize <= 0xFFFF * 0xFFFFu64) by (nonlinear_arith)
        requires phnum <= 0xFFFF, phentsize <= 0xFFFF;
    if phoff > len || phnum * phentsize > len - phoff || phnum * (PHDR_SIZE as u64) > len - phoff {
        return None;
    }
    let mut phdrs: Vec<Elf64Phdr> = Vec::new();
    let mut i: u64 = 0;
    while i < phnum
        invariant
            i <= phnum,
            phnum == le16(data@, 56),
            phoff == le64(data@, 32),
            len == data@.len(),
            data@.len() == data.len(),
            phoff + phnum * 56 <= len,
            phdrs@.len() == i,
            forall|k: int| 0 <= k < i ==> #[trigger] phdrs@[k] == phdr_at(data@, phoff + k * 56),
        decreases phnum - i,
    {
        assert(phoff + i * 56 + 56 <= phoff + phnum * 56) by (nonlinear_arith)
            requires i < phnum;
        let off = (phoff + i * 56) as usize;
        let p = Elf64Phdr {
            p_type: read_u32(data, off),
            p_flags: read_u32(data, off + 4),
            p_offset: read_u64(data, off + 8),
            p_vaddr: read_u64(data, off + 16),
            p_paddr: read_u64(data, off + 24),
            p_filesz: read_u64(data, off + 32),
            p_memsz: read_u64(data, off + 40),
            p_align: read_u64(data, off + 48),
        };
        phdrs.push(p);
        i = i + 1;
    }
    Some((entry, phdrs))
}

/// First page of a segment.
pub open spec fn seg_start(p: Elf64Phdr) -> int {
    (p.p_vaddr & !0xFFFu64) as int
}

/// End of a segment's last page.
pub open spec fn seg_end(p: Elf64Phdr) -> int {
    (((p.p_vaddr + p.p_memsz + 0xFFF) as u64) & !0xFFFu64) as int
}

/// The lowest page of the loadable segments among the first `k` (`u64::MAX` if none).
pub open spec fn span_lo(ps: Seq<Elf64Phdr>, k: int) -> int
    decreases k,
{
    if k <= 0 {
        u64::MAX as int
    } else {
        let m = span_lo(ps, k - 1);
        if ps[k - 1].p_type == PT_LOAD && seg_start(ps[k - 1]) < m { seg_start(ps[k - 1]) } else { m }
    }
}

/// The highest page end of the loadable segments among the first `k` (0 if none).
pub open spec fn span_hi(ps: Seq<Elf64Phdr>, k: int) -> int
    decreases k,
{
    if k <= 0 {
        0
    } else {
        let m = span_hi(ps, k - 1);
        if ps[k - 1].p_type == PT_LOAD && seg_end(ps[k - 1]) > m { seg_end(ps[k - 1]) } else { m }
    }
}

/// No loadable segment's end overflows an address.
pub open spec fn ends_fit(ps: Seq<Elf64Phdr>, k: int) -> bool {
    forall|i: int| 0 <= i < k && (#[trigger] ps[i]).p_type == PT_LOAD ==> ps[i].p_vaddr + ps[i].p_memsz + 0xFFF <= u64::MAX
}

/// The memory the kernel's loadable segments span: their lowest page, the
/// end of their highest, and the number of pages between; `None` when there
/// is no loadable segment or a segment's end overflows.
pub fn load_span(phdrs: &[Elf64Phdr]) -> (r: Option<(u64, u64, usize)>)
    ensures
        r is Some <==> ends_fit(phdrs@, phdrs@.len() as int) && span_lo(phdrs@, phdrs@.len() as int) <= span_hi(
            phdrs@,
            phdrs@.len() as int,
        ) && (span_hi(phdrs@, phdrs@.len() as int) - span_lo(phdrs@, phdrs@.len() as int)) / 4096 <= usize::MAX,
        r matches Some(s) ==> {
            &&& s.0 == span_lo(phdrs@, phdrs@.len() as int)
            &&& s.1 == span_hi(phdrs@, phdrs@.len() as int)
            &&& s.2 == (s.1 - s.0) / 4096
        },
{
    let mut lowest: u64 = u64::MAX;
    let mut highest: u64 = 0;
    let mut k: usize = 0;
    while k < phdrs.len()
        invariant
            k <= phdrs@.len(),
            ends_fit(phdrs@, k as int),
            lowest == span_lo(phdrs@, k as int),
            highest == span_hi(phdrs@, k as int),
        decreases phdrs.len() - k,
    {
        let ph = phdrs[k];
        if ph.p_type == PT_LOAD {
            if ph.p_vaddr > u64::MAX - 0xFFF || ph.p_memsz > u64::MAX - 0xFFF - ph.p_vaddr {
                return None;
            }
            let vaddr = ph.p_vaddr & !0xFFF;
            let end = (ph.p_vaddr + ph.p_memsz + 0xFFF) & !0xFFF;
            if vaddr < lowest {
                lowest = vaddr;
            }
            if end > highest {
                highest = end;
            }
        }
        k = k + 1;
    }
    if lowest > highest {
        return None;
    }
    let pages = (highest - lowest) / 0x1000;
    if pages > usize::MAX as u64 {
        return None;
    }
    Some((lowest, highest, pages as usize))
}

proof fn lemma_span_bounds(ps: Seq<Elf64Phdr>, k: int, i: int)
    requires
        0 <= i < k <= ps.len(),
        ps[i].p_type == PT_LOAD,
    ensures
        span_lo(ps, k) <= seg_start(ps[i]),
        seg_end(ps[i]) <= span_hi(ps, k),
    decreases k,
{
    if i < k - 1 {
        lemma_span_bounds(ps, k - 1, i);
    }
}

/// The span `load_span` computes holds the memory of every loadable
/// segment: each starts at or after its first byte and ends within it.
pub proof fn span_covers_segments(ps: Seq<Elf64Phdr>)
    requires
        ends_fit(ps, ps.len() as int),
    ensures
        forall|i: int|
            0 <= i < ps.len() && (#[trigger] ps[i]).p_type == PT_LOAD ==> span_lo(ps, ps.len() as int) <= ps[i].p_vaddr
                && ps[i].p_vaddr + ps[i].p_memsz <= span_hi(ps, ps.len() as int),
{
    assert forall|i: int| 0 <= i < ps.len() && (#[trigger] ps[i]).p_type == PT_LOAD implies span_lo(
        ps,
        ps.len() as int,
    ) <= ps[i].p_vaddr && ps[i].p_vaddr + ps[i].p_memsz <= span_hi(ps, ps.len() as int) by {
        lemma_span_bounds(ps, ps.len() as int, i);
        let v = ps[i].p_vaddr;
        let m = ps[i].p_memsz;
        assert(v & !0xFFFu64 <= v) by (bit_vector);
        let e = (v + m + 0xFFF) as u64;
        assert(e & !0xFFFu64 >= e - 0xFFF) by (bit_vector)
            requires e >= 0xFFF;
    }
}

/// Memory after loading segment `p` at `d`, whose first byte is address
/// `lo`: its file bytes are copied when the file holds them, and the rest of
/// its memory size is zeroed.
pub open spec fn seg_loaded(d: Seq<u8>, p: Elf64Phdr, lo: int, raw: Seq<u8>) -> Seq<u8> {
    if p.p_type != PT_LOAD {
        d
    } else {
        let off = p.p_vaddr - lo;
        let d1 = if p.p_offset + p.p_filesz <= raw.len() {
            Seq::new(d.len(), |i: int| if off <= i < off + p.p_filesz { raw[p.p_offset + (i - off)] } else { d[i] })
        } else {
            d
        };
        if p.p_filesz < p.p_memsz {
            Seq::new(d1.len(), |i: int| if off + p.p_filesz <= i < off + p.p_memsz { 0u8 } else { d1[i] })
        } else {
            d1
        }
    }
}

/// Memory after loading the first `k` segments in order.
pub open spec fn segments_loaded(d: Seq<u8>, ps: Seq<Elf64Phdr>, k: int, lo: int, raw: Seq<u8>) -> Seq<u8>
    decreases k,
{
    if k <= 0 {
        d
    } else {
        seg_loaded(segments_loaded(d, ps, k - 1, lo, raw), ps[k - 1], lo, raw)
    }
}

/// Segment `p` lands inside `len` bytes from `lo`: its memory size, and its
/// file size when its file bytes are copied.
pub open spec fn seg_fits(p: Elf64Phdr, lo: int, len: int, raw_len: int) -> bool {
    p.p_type == PT_LOAD ==> {
        &&& lo <= p.p_vaddr
        &&& p.p_vaddr - lo + p.p_memsz <= len
        &&& (p.p_offset + p.p_filesz <= raw_len ==> p.p_vaddr - lo + p.p_filesz <= len)
    }
}

pub open spec fn segments_fit(ps: Seq<Elf64Phdr>, lo: int, len: int, raw_len: int) -> bool {
    forall|i: int| 0 <= i < ps.len() ==> seg_fits(#[trigger] ps[i], lo, len, raw_len)
}

/// Whether every segment lands inside `len` bytes from address `lo`.
pub fn check_segments_fit(phdrs: &[Elf64Phdr], lo: u64, len: usize, raw_len: usize) -> (b: bool)
    ensures
        b == segments_fit(phdrs@, lo as int, len as int, raw_len as int),
{
    let mut k: usize = 0;
    while k < phdrs.len()
        invariant
            k <= phdrs@.len(),
            forall|i: int| 0 <= i < k ==> seg_fits(#[trigger] phdrs@[i], lo as int, len as int, raw_len as int),
        decreases phdrs.len() - k,
    {
        let p = phdrs[k];
        if p.p_type == PT_LOAD {
            if p.p_vaddr < lo {
                return false;
            }
            let off = p.p_vaddr - lo;
            if p.p_memsz > len as u64 || off > len as u64 - p.p_memsz {
                return false;
            }
            if p.p_offset <= raw_len as u64 && p.p_filesz <= raw_len as u64 - p.p_offset {
                if p.p_filesz > len as u64 || off > len as u64 - p.p_filesz {
                    return false;
                }
            }
        }
        k = k + 1;
    }
    true
}

/// Load segment `p` into `dest`, whose first byte is address `lo`.
fn load_segment(dest: &mut [u8], lo: u64, p: Elf64Phdr, raw: &[u8])
    requires
        seg_fits(p, lo as int, old(dest)@.len() as int, raw@.len() as int),
    ensures
        final(dest)@ == seg_loaded(old(dest)@, p, lo as int, raw@),
{
    if p.p_type != PT_LOAD {
        return;
    }
    assert(dest@.len() == dest.len());
    assert(raw@.len() == raw.len());
    let off = (p.p_vaddr - lo) as usize;
    let ghost d0 = dest@;
    if p.p_offset <= raw.len() as u64 && p.p_filesz <= raw.len() as u64 - p.p_offset {
        let filesz = p.p_filesz as usize;
        let src = p.p_offset as usize;
        let mut j: usize = 0;
        while j < filesz
            invariant
                j <= filesz,
                off + filesz <= dest@.len(),
                src + filesz <= raw@.len(),
                dest@.len() == dest.len(),
                raw@.len() == raw.len(),
                dest@.len() == d0.len(),
                forall|i: int| 0 <= i < dest@.len() ==> #[trigger] dest@[i] == if off <= i < off + j {
                    raw@[src + (i - off)]
                } else {
                    d0[i]
                },
            decreases filesz - j,
        {
            dest[off + j] = raw[src + j];
            j = j + 1;
        }
    }
    let ghost d1 = dest@;
    assert(dest@.len() == dest.len());
    assert(d1 =~= (if p.p_offset + p.p_filesz <= raw@.len() {
        Seq::new(d0.len(), |i: int| if off <= i < off + p.p_filesz { raw@[p.p_offset + (i - off)] } else { d0[i] })
    } else {
        d0
    }));
    if p.p_filesz < p.p_memsz {
        let from = off + p.p_filesz as usize;
        let to = off + p.p_memsz as usize;
        let mut j = from;
        while j < to
            invariant
                from <= j <= to,
                to <= dest@.len(),
                dest@.len() == dest.len(),
                dest@.len() == d1.len(),
                forall|i: int| 0 <= i < dest@.len() ==> #[trigger] dest@[i] == if from <= i < j { 0u8 } else { d1[i] },
            decreases to - j,
        {
            dest[j] = 0;
            j = j + 1;
        }
        assert(dest@ =~= Seq::new(d1.len(), |i: int| if off + p.p_filesz <= i < off + p.p_memsz { 0u8 } else { d1[i] }));
    }
}

/// Copy the kernel's loadable segments into `dest`, the memory allocated for
/// its span starting at address `lo`: each segment's file bytes (when the
/// file holds them), then zeros up to its memory size.
pub fn copy_segments(dest: &mut [u8], lo: u64, phdrs: &[Elf64Phdr], raw: &[u8])
    requires
        segments_fit(phdrs@, lo as int, old(dest)@.len() as int, raw@.len() as int),
    ensures
        final(dest)@ == segments_loaded(old(dest)@, phdrs@, phdrs@.len() as int, lo as int, raw@),
{
    let mut k: usize = 0;
    while k < phdrs.len()
        invariant
            k <= phdrs@.len(),
            dest@.len() == old(dest)@.len(),
            segments_fit(phdrs@, lo as int, old(dest)@.len() as int, raw@.len() as int),
            dest@ == segments_loaded(old(dest)@, phdrs@, k as int, lo as int, raw@),
        decreases phdrs.len() - k,
    {
        assert(seg_fits(phdrs@[k as int], lo as int, old(dest)@.len() as int, raw@.len() as int));
        load_segment(dest, lo, phdrs[k], raw);
        k = k + 1;
    }
}

/// Block attributes of the AArch64 identity map: valid block, accessed,
/// read/write at EL0 and EL1, inner shareable.
pub const BLOCK_ATTR: u64 = 0x743;

/// The AArch64 identity page tables: the level-0 entry pointing at the level-1
/// table at `l1_table`, and the 512 level-1 entries mapping 1 GiB blocks onto
/// themselves.
pub fn identity_tables(l1_table: u64) -> (r: (u64, Vec<u64>))
    ensures
        r.0 == l1_table | 3,
        r.1@.len() == 512,
        forall|i: int| 0 <= i < 512 ==> #[trigger] r.1@[i] == ((i as u64) << 30u64) | BLOCK_ATTR,
{
    let mut l1: Vec<u64> = Vec::new();
    let mut i: u64 = 0;
    while i < 512
        invariant
            i <= 512,
            l1@.len() == i,
            forall|k: int| 0 <= k < i ==> #[trigger] l1@[k] == ((k as u64) << 30u64) | BLOCK_ATTR,
        decreases 512 - i,
    {
        l1.push((i << 30) | BLOCK_ATTR);
        i = i + 1;
    }
    (l1_table | 3, l1)
}

/// UEFI memory types the loader tells apart.
pub const EFI_LOADER_CODE: u32 = 1;
pub const EFI_LOADER_DATA: u32 = 2;
pub const EFI_BOOT_SERVICES_CODE: u32 = 3;
pub const EFI_BOOT_SERVICES_DATA: u32 = 4;
pub const EFI_RUNTIME_SERVICES_CODE: u32 = 5;
pub const EFI_RUNTIME_SERVICES_DATA: u32 = 6;
pub const EFI_CONVENTIONAL: u32 = 7;
pub const EFI_ACPI_RECLAIM: u32 = 9;
pub const EFI_ACPI_NON_VOLATILE: u32 = 10;

/// The kind of memory a UEFI memory type describes for the kernel: free
/// memory is usable, loader and boot-services memory belongs to the boot
/// loader, anything else is reserved.
pub fn kind_from_efi(ty: u32) -> (k: MemoryRegionKind)
    ensures
        k == if ty == EFI_CONVENTIONAL {
            MemoryRegionKind::Usable
        } else if ty == EFI_LOADER_CODE || ty == EFI_LOADER_DATA || ty == EFI_BOOT_SERVICES_CODE || ty
            == EFI_BOOT_SERVICES_DATA {
            MemoryRegionKind::Bootloader
        } else {
            MemoryRegionKind::Reserved
        },
{
    if ty == EFI_CONVENTIONAL {
        MemoryRegionKind::Usable
    } else if ty == EFI_LOADER_CODE || ty == EFI_LOADER_DATA {
        MemoryRegionKind::Bootloader
    } else if ty == EFI_BOOT_SERVICES_CODE || ty == EFI_BOOT_SERVICES_DATA {
        MemoryRegionKind::Bootloader
    } else if ty == EFI_RUNTIME_SERVICES_CODE || ty == EFI_RUNTIME_SERVICES_DATA {
        MemoryRegionKind::Reserved
    } else if ty == EFI_ACPI_RECLAIM || ty == EFI_ACPI_NON_VOLATILE {
        MemoryRegionKind::Reserved
    } else {
        MemoryRegionKind::Reserved
    }
}

} // verus!
