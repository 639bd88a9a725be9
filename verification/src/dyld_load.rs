//! Loading shared libraries into the dynamic linker's state: telling the
//! binary formats apart, parsing an ELF shared object (its loadable span and
//! program headers, its dynamic section, its exported functions) or a Mach-O
//! image (its segments, symbol table and dyld opcode streams), recording a
//! loaded library and its exports in `DyldState`, and computing the writes
//! that relocate and bind it: ELF relative relocations, Mach-O rebases and
//! Mach-O symbol binds, each an (address, value) pair. Mapping the segments'
//! pages into a task's address space and storing those writes there is left
//! to the caller.

use vstd::prelude::*;
use vstd::string::StrSliceExecFns;
use crate::bytes::{le16, le32, le64, read_u16, read_u32, read_u64, str_from_utf8};
use crate::bootloader::{Elf64Phdr, phdr_at, PT_LOAD, load_span, span_lo, span_hi, ends_fit};
use crate::pe::cstr_end;
use crate::dyld::{
    DyldState, LoadedLib, registered, LIB_ALIGN, BUILTIN, LIB_BASE, inserted_all, libc_table, lookup, resolved, uleb_from, sleb_from,
    leb_len, read_uleb128, read_sleb128,
};

verus! {

/// ELF file types a shared object may have: an executable or a shared object.
pub const ET_EXEC: u16 = 2;
pub const ET_DYN: u16 = 3;

/// The machine the linker loads for (x86-64).
pub const EM_X86_64: u16 = 62;

pub const PT_DYNAMIC: u32 = 2;

/// Dynamic section tags the loader reads.
pub const DT_NULL: u64 = 0;
pub const DT_STRTAB: u64 = 5;
pub const DT_SYMTAB: u64 = 6;
pub const DT_STRSZ: u64 = 10;
pub const DT_SYMENT: u64 = 11;
pub const DT_JMPREL: u64 = 23;
pub const DT_INIT_ARRAY: u64 = 25;
pub const DT_INIT_ARRAYSZ: u64 = 27;
pub const DT_PLTRELSZ: u64 = 2;
pub const DT_RELA: u64 = 7;
pub const DT_RELASZ: u64 = 8;

/// Size of an ELF64 symbol table entry.
pub const SYM_SIZE: u64 = 24;

/// Magic of a 64-bit Mach-O image.
pub const MH_MAGIC_64: u32 = 0xfeed_facf;

/// The binary formats the loader tells apart.
#[derive(Clone, Copy, Debug, PartialEq, Eq, Structural)]
pub enum LibFormat {
    Elf,
    MachO,
}

/// The format `d` announces: ELF when it starts with `\x7fELF`, Mach-O when
/// its first four bytes, read little-endian as the Mach-O header is, are
/// `MH_MAGIC_64`.
pub open spec fn spec_library_format(d: Seq<u8>) -> Option<LibFormat> {
    if d.len() >= 4 && d[0] == 0x7f && d[1] == 0x45 && d[2] == 0x4c && d[3] == 0x46 {
        Some(LibFormat::Elf)
    } else if d.len() >= 4 && d[0] == 0xcf && d[1] == 0xfa && d[2] == 0xed && d[3] == 0xfe {
        Some(LibFormat::MachO)
    } else {
        None
    }
}

/// The format of a library image, from its magic bytes.
pub fn library_format(data: &[u8]) -> (f: Option<LibFormat>)
    ensures
        f == spec_library_format(data@),
{
    if data.len() < 4 {
        return None;
    }
    if data[0] == 0x7f && data[1] == 0x45 && data[2] == 0x4c && data[3] == 0x46 {
        Some(LibFormat::Elf)
    } else if data[0] == 0xcf && data[1] == 0xfa && data[2] == 0xed && data[3] == 0xfe {
        Some(LibFormat::MachO)
    } else {
        None
    }
}

// ── ELF shared objects ─────────────────────────────────────────────────────

/// A 64-bit ELF file of type `ET_DYN` or `ET_EXEC` for x86-64.
pub open spec fn so_header_ok(d: Seq<u8>) -> bool {
    &&& d.len() >= 64
    &&& d[0] == 0x7f && d[1] == 0x45 && d[2] == 0x4c && d[3] == 0x46
    &&& d[4] == 2
    &&& (le16(d, 16) == ET_DYN || le16(d, 16) == ET_EXEC)
    &&& le16(d, 18) == EM_X86_64
}

/// File offset of program header `i` (entries `e_phentsize` apart).
pub open spec fn ph_off(d: Seq<u8>, i: int) -> int {
    le64(d, 32) + i * le16(d, 54)
}

/// Program header `i` lies in the file, both at the declared entry size and
/// at the size of an ELF64 program header.
pub open spec fn ph_fits(d: Seq<u8>, i: int) -> bool {
    ph_off(d, i) + le16(d, 54) <= d.len() && ph_off(d, i) + 56 <= d.len()
}

/// Index of the first program header from `i` on that is past the table's
/// end or does not lie in the file.
pub open spec fn ph_count_from(d: Seq<u8>, i: int) -> int
    decreases le16(d, 56) - i,
{
    if i < 0 || i >= le16(d, 56) || !ph_fits(d, i) {
        i
    } else {
        ph_count_from(d, i + 1)
    }
}

/// The program headers the loader reads: those up to the first one that does
/// not lie in the file.
pub open spec fn so_phdrs(d: Seq<u8>) -> Seq<Elf64Phdr> {
    Seq::new(ph_count_from(d, 0) as nat, |i: int| phdr_at(d, ph_off(d, i)))
}

proof fn lemma_ph_count(d: Seq<u8>, i: int)
    requires
        0 <= i,
    ensures
        i <= ph_count_from(d, i),
        ph_count_from(d, i) <= i || ph_count_from(d, i) <= le16(d, 56),
    decreases le16(d, 56) - i,
{
    if i < le16(d, 56) && ph_fits(d, i) {
        lemma_ph_count(d, i + 1);
    }
}

/// Whether program header `i` lies in the file (`phoff`, `ps`: table offset
/// and entry size; `len`: file size).
fn ph_fits_at(phoff: u64, ps: u64, len: u64, i: u64) -> (b: bool)
    requires
        i <= 0xFFFF,
        ps <= 0xFFFF,
    ensures
        b == (phoff + i * ps + ps <= len && phoff + i * ps + 56 <= len),
{
    assert(i * ps <= 0xFFFF * 0xFFFF) by (nonlinear_arith)
        requires i <= 0xFFFF, ps <= 0xFFFF;
    let step = i * ps;
    phoff <= len && step <= len - phoff && ps <= len - phoff - step && 56 <= len - phoff - step
}

/// Read the program headers up to the first one not in the file.
fn read_so_phdrs(data: &[u8]) -> (v: Vec<Elf64Phdr>)
    requires
        data@.len() >= 64,
    ensures
        v@ == so_phdrs(data@),
{
    let phoff = read_u64(data, 32);
    let ps = read_u16(data, 54) as u64;
    let phnum = read_u16(data, 56) as u64;
    let len = data.len() as u64;
    let ghost d = data@;
    let mut v: Vec<Elf64Phdr> = Vec::new();
    let mut i: u64 = 0;
    while i < phnum && ph_fits_at(phoff, ps, len, i)
        invariant
            i <= phnum,
            phnum == le16(d, 56),
            phnum <= 0xFFFF,
            ps <= 0xFFFF,
            phoff == le64(d, 32),
            ps == le16(d, 54),
            len == d.len(),
            d == data@,
            ph_count_from(d, 0) == ph_count_from(d, i as int),
            v@.len() == i,
            forall|k: int| 0 <= k < i ==> #[trigger] v@[k] == phdr_at(d, ph_off(d, k)),
        decreases phnum - i,
    {
        assert(i * ps <= 0xFFFF * 0xFFFF) by (nonlinear_arith)
            requires i <= 0xFFFF, ps <= 0xFFFF;
        assert(data@.len() == data.len());
        let off = (phoff + i * ps) as usize;
        let p = Elf64Phdr {
            p_type: read_u32(data, off),
            p_flags: read_u32(data, off + 4),
            p_offset: read_u64(data, off + 8),
            p_vaddr: read_u64(data, off + 16),
            p_paddr: read_u64(data, off + 24),
            p_filesz: read_u64(data, off + 32),
            p_memsz: read_u64(data, off + 40),
            p_align: read_u64(data, off + 48),
        };
        v.push(p);
        i = i + 1;
    }
    assert(ph_count_from(d, i as int) == i);
    assert(v@ =~= so_phdrs(d));
    v
}

/// The first `PT_DYNAMIC` header at or after `i`.
pub open spec fn first_dynamic(ps: Seq<Elf64Phdr>, i: int) -> Option<Elf64Phdr>
    decreases ps.len() - i,
{
    if i < 0 || i >= ps.len() {
        None
    } else if ps[i].p_type == PT_DYNAMIC {
        Some(ps[i])
    } else {
        first_dynamic(ps, i + 1)
    }
}

/// What the dynamic section says, as far as the loader uses it.
#[derive(Clone, Copy, Debug)]
pub struct DynInfo {
    pub symtab: Option<u64>,
    pub strtab: Option<u64>,
    pub strsz: Option<u64>,
    pub syment: Option<u64>,
    pub jmprel: Option<u64>,
    pub init_array: Option<u64>,
    pub init_arraysz: Option<u64>,
    pub rela: Option<u64>,
    pub relasz: Option<u64>,
    pub pltrelsz: Option<u64>,
}

pub open spec fn dyn_none() -> DynInfo {
    DynInfo {
        symtab: None,
        strtab: None,
        strsz: None,
        syment: None,
        jmprel: None,
        init_array: None,
        init_arraysz: None,
        rela: None,
        relasz: None,
        pltrelsz: None,
    }
}

/// The information after a dynamic entry with tag `tag` and value `val`
/// (a later entry with the same tag wins; other tags change nothing).
pub open spec fn dyn_update(info: DynInfo, tag: int, val: u64) -> DynInfo {
    if tag == DT_SYMTAB {
        DynInfo { symtab: Some(val), ..info }
    } else if tag == DT_STRTAB {
        DynInfo { strtab: Some(val), ..info }
    } else if tag == DT_STRSZ {
        DynInfo { strsz: Some(val), ..info }
    } else if tag == DT_SYMENT {
        DynInfo { syment: Some(val), ..info }
    } else if tag == DT_JMPREL {
        DynInfo { jmprel: Some(val), ..info }
    } else if tag == DT_INIT_ARRAY {
        DynInfo { init_array: Some(val), ..info }
    } else if tag == DT_INIT_ARRAYSZ {
        DynInfo { init_arraysz: Some(val), ..info }
    } else if tag == DT_RELA {
        DynInfo { rela: Some(val), ..info }
    } else if tag == DT_RELASZ {
        DynInfo { relasz: Some(val), ..info }
    } else if tag == DT_PLTRELSZ {
        DynInfo { pltrelsz: Some(val), ..info }
    } else {
        info
    }
}

/// The 16-byte dynamic entries from `pos`, while they lie before `end` and in
/// the file, up to a `DT_NULL` entry.
pub open spec fn dyn_scan(d: Seq<u8>, pos: int, end: int, info: DynInfo) -> DynInfo
    decreases d.len() - pos,
{
    if pos < 0 || pos + 16 > end || pos + 16 > d.len() {
        info
    } else if le64(d, pos) == DT_NULL {
        info
    } else {
        dyn_scan(d, pos + 16, end, dyn_update(info, le64(d, pos), le64(d, pos + 8) as u64))
    }
}

/// The dynamic information of an image: from its first `PT_DYNAMIC` segment,
/// or none.
pub open spec fn spec_dyn(d: Seq<u8>) -> DynInfo {
    match first_dynamic(so_phdrs(d), 0) {
        Some(p) => dyn_scan(d, p.p_offset as int, p.p_offset + p.p_filesz, dyn_none()),
        None => dyn_none(),
    }
}

/// Read the dynamic entries of `size` bytes from `off`.
fn parse_dynamic(data: &[u8], off: u64, size: u64) -> (r: DynInfo)
    ensures
        r == dyn_scan(data@, off as int, off + size, dyn_none()),
{
    let ghost d = data@;
    let len = data.len() as u64;
    let mut info = DynInfo {
        symtab: None,
        strtab: None,
        strsz: None,
        syment: None,
        jmprel: None,
        init_array: None,
        init_arraysz: None,
        rela: None,
        relasz: None,
        pltrelsz: None,
    };
    let mut pos = off;
    let mut go = len >= 16 && pos <= len - 16 && 16 <= size;
    while go
        invariant
            d == data@,
            len == d.len(),
            off <= pos,
            go ==> pos + 16 <= len && pos + 16 <= off + size,
            dyn_scan(d, off as int, off + size, dyn_none()) == if go {
                dyn_scan(d, pos as int, off + size, info)
            } else {
                info
            },
        decreases (if go { d.len() - pos + 1 } else { 0 }),
    {
        assert(data@.len() == data.len());
        let ghost info0 = info;
        let tag = read_u64(data, pos as usize);
        if tag == DT_NULL {
            go = false;
        } else {
            let val = read_u64(data, pos as usize + 8);
            assert(dyn_scan(d, pos as int, off + size, info0) == dyn_scan(d, pos + 16, off + size, dyn_update(info0, tag as int, val)));
            if tag == DT_SYMTAB {
                info.symtab = Some(val);
            } else if tag == DT_STRTAB {
                info.strtab = Some(val);
            } else if tag == DT_STRSZ {
                info.strsz = Some(val);
            } else if tag == DT_SYMENT {
                info.syment = Some(val);
            } else if tag == DT_JMPREL {
                info.jmprel = Some(val);
            } else if tag == DT_INIT_ARRAY {
                info.init_array = Some(val);
            } else if tag == DT_INIT_ARRAYSZ {
                info.init_arraysz = Some(val);
            } else if tag == DT_RELA {
                info.rela = Some(val);
            } else if tag == DT_RELASZ {
                info.relasz = Some(val);
            } else if tag == DT_PLTRELSZ {
                info.pltrelsz = Some(val);
            }
            assert(info == dyn_update(info0, tag as int, val));
            pos = pos + 16;
            go = pos <= len - 16 && pos - off + 16 <= size;
        }
    }
    info
}

/// Where `name` first occurs in an export table from `i` on.
pub open spec fn export_index(t: Seq<(Seq<char>, u64, u8)>, name: Seq<char>, i: int) -> Option<int>
    decreases t.len() - i,
{
    if i < 0 || i >= t.len() {
        None
    } else if t[i].0 == name {
        Some(i)
    } else {
        export_index(t, name, i + 1)
    }
}

/// An export table after recording `name` with value `v` and type `ty`: an
/// existing entry for the name is replaced, a new name is appended.
pub open spec fn export_ins(t: Seq<(Seq<char>, u64, u8)>, name: Seq<char>, v: u64, ty: u8) -> Seq<(Seq<char>, u64, u8)> {
    match export_index(t, name, 0) {
        Some(i) => t.update(i, (name, v, ty)),
        None => t.push((name, v, ty)),
    }
}

/// An export table as the specification sees it.
pub open spec fn export_view(v: Seq<(String, u64, u8)>) -> Seq<(Seq<char>, u64, u8)> {
    Seq::new(v.len(), |i: int| (v[i].0@, v[i].1, v[i].2))
}

proof fn lemma_export_index(t: Seq<(Seq<char>, u64, u8)>, name: Seq<char>, i: int)
    requires
        0 <= i,
    ensures
        export_index(t, name, i) matches Some(k) ==> i <= k < t.len() && t[k].0 == name,
    decreases t.len() - i,
{
    if i < t.len() && t[i].0 != name {
        lemma_export_index(t, name, i + 1);
    }
}

/// Record an export.
fn export_insert(exports: &mut Vec<(String, u64, u8)>, name: String, v: u64, ty: u8)
    ensures
        export_view(final(exports)@) == export_ins(export_view(old(exports)@), name@, v, ty),
{
    let ghost t = export_view(exports@);
    proof {
        lemma_export_index(t, name@, 0);
    }
    let mut i: usize = 0;
    while i < exports.len()
        invariant
            i <= exports@.len(),
            t == export_view(exports@),
            t == export_view(old(exports)@),
            export_index(t, name@, 0) == export_index(t, name@, i as int),
        decreases exports.len() - i,
    {
        if exports[i].0 == name {
            let ghost key = name@;
            exports.set(i, (name, v, ty));
            assert(export_view(exports@) =~= t.update(i as int, (key, v, ty)));
            return;
        }
        i = i + 1;
    }
    let ghost key = name@;
    exports.push((name, v, ty));
    assert(export_view(exports@) =~= t.push((key, v, ty)));
}

/// The characters of the NUL-terminated string at `start`: its bytes decoded
/// as UTF-8, or nothing when they are not valid UTF-8.
pub open spec fn cstr_chars(d: Seq<u8>, start: int) -> Seq<char> {
    let b = d.subrange(start, cstr_end(d, start));
    if vstd::utf8::valid_utf8(b) {
        vstd::utf8::decode_utf8(b)
    } else {
        Seq::empty()
    }
}

proof fn lemma_cstr_end(d: Seq<u8>, k: int)
    requires
        0 <= k <= d.len(),
    ensures
        k <= cstr_end(d, k) <= d.len(),
    decreases d.len() - k,
{
    if k < d.len() && d[k] != 0 {
        lemma_cstr_end(d, k + 1);
    }
}

/// The string at `start`, when its bytes are valid UTF-8.
fn str_at<'a>(data: &'a [u8], start: usize) -> (r: Option<&'a str>)
    requires
        start <= data@.len(),
    ensures
        r is Some <==> vstd::utf8::valid_utf8(data@.subrange(start as int, cstr_end(data@, start as int))),
        r matches Some(s) ==> s@ == cstr_chars(data@, start as int),
{
    let mut len: usize = 0;
    proof {
        assert(data@.len() == data.len());
    }
    while start + len < data.len() && data[start + len] != 0
        invariant
            start <= data@.len(),
            start + len <= data@.len(),
            data@.len() == data.len(),
            cstr_end(data@, start as int) == cstr_end(data@, (start + len) as int),
        decreases data@.len() - start - len,
    {
        len += 1;
    }
    let r = str_from_utf8(&data[start..start + len]);
    proof {
        if let Some(s) = r {
            vstd::utf8::encode_utf8_decode_utf8(s@);
        }
    }
    r
}

/// An ELF symbol entry at `pos` is an exported function: defined, global or
/// weak, of function type.
pub open spec fn sym_exported(d: Seq<u8>, pos: int) -> bool {
    let info = d[pos + 4];
    &&& le16(d, pos + 6) != 0
    &&& ((info >> 4u8) == 1 || (info >> 4u8) == 2)
    &&& (info & 0xFu8) == 2
}

/// The exports after the symbol entry at `pos`: an exported function whose
/// name (in the string table at `strtab`) lies in the file and is not empty is
/// recorded with its value and info byte.
pub open spec fn sym_step(d: Seq<u8>, pos: int, strtab: int, t: Seq<(Seq<char>, u64, u8)>) -> Seq<(Seq<char>, u64, u8)> {
    let name_off = strtab + le32(d, pos);
    if sym_exported(d, pos) && name_off < d.len() && cstr_chars(d, name_off).len() > 0 {
        export_ins(t, cstr_chars(d, name_off), le64(d, pos + 8) as u64, d[pos + 4])
    } else {
        t
    }
}

/// The exports gathered from the symbol entries `step` bytes apart from
/// `pos` while a whole entry lies in the file.
pub open spec fn exports_from(d: Seq<u8>, pos: int, strtab: int, step: int, t: Seq<(Seq<char>, u64, u8)>) -> Seq<(Seq<char>, u64, u8)>
    decreases d.len() - pos,
{
    if step <= 0 || pos < 0 || pos + SYM_SIZE > d.len() {
        t
    } else if pos + step > d.len() {
        sym_step(d, pos, strtab, t)
    } else {
        exports_from(d, pos + step, strtab, step, sym_step(d, pos, strtab, t))
    }
}

/// Look at the symbol entry at `pos`.
fn export_sym(data: &[u8], pos: usize, strtab: u64, exports: &mut Vec<(String, u64, u8)>)
    requires
        pos + SYM_SIZE <= data@.len(),
    ensures
        export_view(final(exports)@) == sym_step(data@, pos as int, strtab as int, export_view(old(exports)@)),
{
    proof {
        assert(data@.len() == data.len());
    }
    let st_name = read_u32(data, pos) as u64;
    let info = data[pos + 4];
    let shndx = read_u16(data, pos + 6);
    let value = read_u64(data, pos + 8);
    let bind = info >> 4;
    let ty = info & 0xF;
    if shndx != 0 && (bind == 1 || bind == 2) && ty == 2 {
        let len = data.len() as u64;
        if strtab < len && st_name < len - strtab {
            let start = (strtab + st_name) as usize;
            if let Some(s) = str_at(data, start) {
                if s.unicode_len() > 0 {
                    export_insert(exports, s.to_owned(), value, info);
                }
            }
        }
    }
}

/// The exported functions of the symbol table at `symtab` (entries `step`
/// bytes apart, names in the string table at `strtab`).
fn elf_exports(data: &[u8], symtab: u64, strtab: u64, step: u64) -> (v: Vec<(String, u64, u8)>)
    requires
        step > 0,
    ensures
        export_view(v@) == exports_from(data@, symtab as int, strtab as int, step as int, Seq::empty()),
{
    let ghost d = data@;
    let len = data.len() as u64;
    let mut v: Vec<(String, u64, u8)> = Vec::new();
    assert(export_view(v@) =~= Seq::<(Seq<char>, u64, u8)>::empty());
    let mut pos = symtab;
    let mut go = len >= SYM_SIZE && pos <= len - SYM_SIZE;
    while go
        invariant
            d == data@,
            len == d.len(),
            step > 0,
            go ==> pos + SYM_SIZE <= len,
            exports_from(d, symtab as int, strtab as int, step as int, Seq::empty()) == if go {
                exports_from(d, pos as int, strtab as int, step as int, export_view(v@))
            } else {
                export_view(v@)
            },
        decreases (if go { d.len() - pos + 1 } else { 0 }),
    {
        assert(data@.len() == data.len());
        let ghost t0 = export_view(v@);
        let ghost p0 = pos as int;
        export_sym(data, pos as usize, strtab, &mut v);
        assert(exports_from(d, p0, strtab as int, step as int, t0) == if p0 + step > d.len() {
            export_view(v@)
        } else {
            exports_from(d, p0 + step, strtab as int, step as int, export_view(v@))
        });
        if step > len - pos {
            go = false;
        } else {
            pos = pos + step;
            go = pos <= len - SYM_SIZE;
        }
    }
    v
}

/// An ELF shared object as the loader sees it.
pub struct ElfSoImage {
    /// The entry point from the file header.
    pub entry: u64,
    /// The lowest page of the loadable segments.
    pub lo: u64,
    /// The end of their highest page.
    pub hi: u64,
    /// The program headers (segments to map are the `PT_LOAD` ones).
    pub phdrs: Vec<Elf64Phdr>,
    pub dynamic: DynInfo,
    /// The exported functions: name, value, symbol info byte.
    pub exports: Vec<(String, u64, u8)>,
}

pub struct ElfSoView {
    pub entry: u64,
    pub lo: u64,
    pub hi: u64,
    pub phdrs: Seq<Elf64Phdr>,
    pub dynamic: DynInfo,
    pub exports: Seq<(Seq<char>, u64, u8)>,
}

impl View for ElfSoImage {
    type V = ElfSoView;

    open spec fn view(&self) -> ElfSoView {
        ElfSoView {
            entry: self.entry,
            lo: self.lo,
            hi: self.hi,
            phdrs: self.phdrs@,
            dynamic: self.dynamic,
            exports: export_view(self.exports@),
        }
    }
}

/// The exports a dynamic section describes: from its symbol table when the
/// symbol table, the string table and its size are all given.
pub open spec fn so_exports(d: Seq<u8>, di: DynInfo) -> Seq<(Seq<char>, u64, u8)> {
    match (di.symtab, di.strtab, di.strsz) {
        (Some(st), Some(strs), Some(_)) => {
            let step: u64 = match di.syment {
                Some(e) => e,
                None => SYM_SIZE,
            };
            exports_from(d, st as int, strs as int, step as int, Seq::empty())
        },
        _ => Seq::empty(),
    }
}

/// A zero symbol-entry size with a symbol table in the file: the symbol scan
/// would never advance.
pub open spec fn so_scan_stuck(d: Seq<u8>, di: DynInfo) -> bool {
    &&& di.symtab is Some && di.strtab is Some && di.strsz is Some
    &&& di.syment == Some(0u64)
    &&& di.symtab->0 + SYM_SIZE <= d.len()
}

/// The shared object `d` describes: `None` when it is not a 64-bit x86-64 ELF
/// executable or shared object, has no loadable segment or one whose end
/// overflows, or has a symbol table whose entries are zero bytes apart.
pub open spec fn spec_elf_so(d: Seq<u8>) -> Option<ElfSoView> {
    let ps = so_phdrs(d);
    let n = ps.len() as int;
    let di = spec_dyn(d);
    if !so_header_ok(d) {
        None
    } else if !(ends_fit(ps, n) && span_lo(ps, n) < span_hi(ps, n) && (span_hi(ps, n) - span_lo(ps, n)) / 4096
        <= usize::MAX) {
        None
    } else if so_scan_stuck(d, di) {
        None
    } else {
        Some(
            ElfSoView {
                entry: le64(d, 24) as u64,
                lo: span_lo(ps, n) as u64,
                hi: span_hi(ps, n) as u64,
                phdrs: ps,
                dynamic: di,
                exports: so_exports(d, di),
            },
        )
    }
}

/// Parse an ELF shared object.
pub fn parse_elf_so(data: &[u8]) -> (r: Option<ElfSoImage>)
    ensures
        match r {
            Some(img) => spec_elf_so(data@) == Some(img@),
            None => spec_elf_so(data@) is None,
        },
        r matches Some(img) ==> img.lo < img.hi,
{
    let ghost d = data@;
    if data.len() < 64 {
        return None;
    }
    if !(data[0] == 0x7f && data[1] == 0x45 && data[2] == 0x4c && data[3] == 0x46 && data[4] == 2) {
        return None;
    }
    let e_type = read_u16(data, 16);
    if e_type != ET_DYN && e_type != ET_EXEC {
        return None;
    }
    if read_u16(data, 18) != EM_X86_64 {
        return None;
    }
    let phdrs = read_so_phdrs(data);
    let (lo, hi) = match load_span(phdrs.as_slice()) {
        Some((lo, hi, _pages)) => (lo, hi),
        None => return None,
    };
    if lo >= hi {
        return None;
    }
    let ghost ps = phdrs@;
    let mut k: usize = 0;
    let mut dynamic = DynInfo {
        symtab: None,
        strtab: None,
        strsz: None,
        syment: None,
        jmprel: None,
        init_array: None,
        init_arraysz: None,
        rela: None,
        relasz: None,
        pltrelsz: None,
    };
    while k < phdrs.len()
        invariant_except_break
            k <= phdrs@.len(),
            ps == phdrs@,
            ps == so_phdrs(d),
            d == data@,
            first_dynamic(ps, 0) == first_dynamic(ps, k as int),
            dynamic == dyn_none(),
        ensures
            dynamic == spec_dyn(d),
        decreases phdrs.len() - k,
    {
        if phdrs[k].p_type == PT_DYNAMIC {
            let p = phdrs[k];
            dynamic = parse_dynamic(data, p.p_offset, p.p_filesz);
            break;
        }
        k = k + 1;
    }
    let exports = match (dynamic.symtab, dynamic.strtab, dynamic.strsz) {
        (Some(st), Some(strs), Some(_)) => {
            let step: u64 = match dynamic.syment {
                Some(e) => e,
                None => SYM_SIZE,
            };
            if step == 0 {
                if data.len() as u64 >= SYM_SIZE && st <= data.len() as u64 - SYM_SIZE {
                    return None;
                }
                let v: Vec<(String, u64, u8)> = Vec::new();
                assert(export_view(v@) =~= Seq::<(Seq<char>, u64, u8)>::empty());
                v
            } else {
                elf_exports(data, st, strs, step)
            }
        },
        _ => {
            let v: Vec<(String, u64, u8)> = Vec::new();
            assert(export_view(v@) =~= Seq::<(Seq<char>, u64, u8)>::empty());
            v
        },
    };
    Some(ElfSoImage { entry: read_u64(data, 24), lo, hi, phdrs, dynamic, exports })
}

/// Address space reserved for an image of `size` bytes: rounded up to
/// `LIB_ALIGN`.
pub open spec fn lib_reserve(size: int) -> int {
    (((size + LIB_ALIGN - 1) as u64) & !((LIB_ALIGN - 1) as u64)) as int
}

/// An image spanning `size` bytes can be placed at `next` without the
/// address space running out.
pub open spec fn lib_fits(next: u64, size: int) -> bool {
    size + LIB_ALIGN <= u64::MAX && next + lib_reserve(size) <= u64::MAX
}

/// The distance an image linked at `lo` moves when placed at `base`, modulo 2^64.
pub open spec fn slide(base: u64, lo: u64) -> int {
    if base >= lo { base - lo } else { base - lo + 0x1_0000_0000_0000_0000 }
}

/// The addresses of an image's initialisers: for each 8-byte slot of its
/// init array, the array's address in the placed image (taken modulo 2^64).
pub open spec fn so_init_funcs(v: ElfSoView, base: u64) -> Seq<u64> {
    match (v.dynamic.init_array, v.dynamic.init_arraysz) {
        (Some(off), Some(sz)) => Seq::new(
            (sz / 8) as nat,
            |i: int| ((base + off + slide(base, v.lo) % 4096 + 8 * i) % 0x1_0000_0000_0000_0000) as u64,
        ),
        _ => Seq::empty(),
    }
}

/// The initialiser addresses of `img` placed at `base`.
fn init_funcs(img: &ElfSoImage, base: u64) -> (v: Vec<u64>)
    ensures
        v@ == so_init_funcs(img@, base),
{
    match (img.dynamic.init_array, img.dynamic.init_arraysz) {
        (Some(off), Some(sz)) => {
            let sl = base.wrapping_sub(img.lo);
            assert(sl == slide(base, img.lo));
            let first: u128 = base as u128 + off as u128 + (sl % 4096) as u128;
            let n = sz / 8;
            let mut v: Vec<u64> = Vec::new();
            let mut i: u64 = 0;
            while i < n
                invariant
                    i <= n,
                    n == sz / 8,
                    first == base + off + slide(base, img.lo) % 4096,
                    img.dynamic.init_array == Some(off),
                    img.dynamic.init_arraysz == Some(sz),
                    v@.len() == i,
                    forall|k: int| 0 <= k < i ==> #[trigger] v@[k] == ((base + off + slide(base, img.lo) % 4096 + 8 * k)
                        % 0x1_0000_0000_0000_0000) as u64,
                decreases n - i,
            {
                let a = ((first + 8 * (i as u128)) % 0x1_0000_0000_0000_0000u128) as u64;
                v.push(a);
                i = i + 1;
            }
            assert(v@ =~= so_init_funcs(img@, base));
            v
        },
        _ => {
            let v: Vec<u64> = Vec::new();
            assert(v@ =~= so_init_funcs(img@, base));
            v
        },
    }
}

/// The library record of `img` placed at `base` under `name`.
pub open spec fn so_record_ok(lib: LoadedLib, v: ElfSoView, name: Seq<char>, base: u64) -> bool {
    &&& lib.name@ == name
    &&& lib.base_addr == base
    &&& lib.entry == v.entry
    &&& lib.export_table() == v.exports
    &&& lib.init_funcs@ == so_init_funcs(v, base)
    &&& lib.has_lazy == v.dynamic.jmprel is Some
}

/// Load an ELF shared object: place it at the next library base, record it
/// and enter its exports in the symbol table under its position. `None`
/// (the state unchanged) when it is not a loadable shared object, the
/// address space or the library positions run out.
fn load_elf_so(data: &[u8], name: &str, state: &mut DyldState) -> (r: Option<usize>)
    requires
        old(state).wf(),
    ensures
        final(state).wf(),
        r is Some <==> (spec_elf_so(data@) matches Some(v) && lib_fits(old(state).spec_next_base(), v.hi - v.lo)
            && old(state).spec_lib_count() < BUILTIN),
        r is None ==> *final(state) == *old(state),
        r matches Some(idx) ==> {
            let v = spec_elf_so(data@)->0;
            let base = old(state).spec_next_base();
            &&& idx == old(state).spec_lib_count()
            &&& final(state).spec_lib_count() == idx + 1
            &&& so_record_ok(final(state).lib_at(idx as int), v, name@, base)
            &&& forall|i: int| 0 <= i < idx ==> #[trigger] final(state).lib_at(i) == old(state).lib_at(i)
            &&& final(state).symbols() == registered(old(state).symbols(), v.exports, idx)
            &&& final(state).spec_next_base() == base + lib_reserve(v.hi - v.lo)
        },
{
    let img = match parse_elf_so(data) {
        Some(i) => i,
        None => return None,
    };
    let size = img.hi - img.lo;
    if size > u64::MAX - LIB_ALIGN {
        return None;
    }
    let reserve = (size + LIB_ALIGN - 1) & !(LIB_ALIGN - 1);
    if state.next_base() > u64::MAX - reserve {
        return None;
    }
    if state.lib_count() == BUILTIN {
        return None;
    }
    let base = state.allocate_base(size);
    let funcs = init_funcs(&img, base);
    let has_lazy = img.dynamic.jmprel.is_some();
    let ghost v = img@;
    let lib = LoadedLib {
        name: name.to_owned(),
        base_addr: base,
        entry: img.entry,
        exports: img.exports,
        init_funcs: funcs,
        has_lazy,
    };
    assert(lib.export_table() =~= v.exports);
    assert(so_record_ok(lib, v, name@, base));
    let idx = state.add_library(lib);
    Some(idx)
}

/// Load a shared library, its format told by its magic bytes: an ELF shared
/// object is loaded (see `load_elf_so`); a Mach-O image is handed to the
/// Mach-O loader; anything else is refused.
#[verifier::spinoff_prover]
#[verifier::rlimit(60)]
pub fn load_shared_library(data: &[u8], name: &str, state: &mut DyldState) -> (r: Option<usize>)
    requires
        old(state).wf(),
    ensures
        final(state).wf(),
        spec_library_format(data@) is None ==> r is None && *final(state) == *old(state),
        spec_library_format(data@) == Some(LibFormat::MachO) ==> {
            &&& r is Some <==> (spec_macho(data@) matches Some(v) && lib_fits(old(state).spec_next_base(), v.hi - v.lo)
                && old(state).spec_lib_count() < BUILTIN)
            &&& r is None ==> *final(state) == *old(state)
            &&& r matches Some(idx) ==> {
                let v = spec_macho(data@)->0;
                let base = old(state).spec_next_base();
                &&& idx == old(state).spec_lib_count()
                &&& final(state).spec_lib_count() == idx + 1
                &&& macho_record_ok(final(state).lib_at(idx as int), v, name@, base)
                &&& forall|i: int| 0 <= i < idx ==> #[trigger] final(state).lib_at(i) == old(state).lib_at(i)
                &&& final(state).symbols() == registered(old(state).symbols(), v.exports, idx)
                &&& final(state).spec_next_base() == base + lib_reserve(v.hi - v.lo)
            }
        },
        spec_library_format(data@) == Some(LibFormat::Elf) ==> {
            &&& r is Some <==> (spec_elf_so(data@) matches Some(v) && lib_fits(old(state).spec_next_base(), v.hi - v.lo)
                && old(state).spec_lib_count() < BUILTIN)
            &&& r is None ==> *final(state) == *old(state)
            &&& r matches Some(idx) ==> {
                let v = spec_elf_so(data@)->0;
                let base = old(state).spec_next_base();
                &&& idx == old(state).spec_lib_count()
                &&& final(state).spec_lib_count() == idx + 1
                &&& so_record_ok(final(state).lib_at(idx as int), v, name@, base)
                &&& forall|i: int| 0 <= i < idx ==> #[trigger] final(state).lib_at(i) == old(state).lib_at(i)
                &&& final(state).symbols() == registered(old(state).symbols(), v.exports, idx)
                &&& final(state).spec_next_base() == base + lib_reserve(v.hi - v.lo)
            }
        },
{
    match library_format(data) {
        Some(LibFormat::Elf) => load_elf_so(data, name, state),
        Some(LibFormat::MachO) => {
            match parse_macho_dylib(data) {
                Some(img) => load_macho_image(img, name, state),
                None => None,
            }
        },
        None => None,
    }
}

// ── Mach-O images ──────────────────────────────────────────────────────────

pub const CPU_TYPE_X86_64: u32 = 0x0100_0007;
pub const LC_SEGMENT_64: u32 = 0x19;
pub const LC_SYMTAB: u32 = 0x02;
pub const LC_DYLD_INFO: u32 = 0x21;
pub const LC_DYLD_INFO_ONLY: u32 = 0x22;
pub const LC_MAIN: u32 = 0x28;

/// What the load commands of a Mach-O image say, as far as the loader uses it.
pub struct MachoCmds {
    /// Mapped segments: address, size, file offset, file size.
    pub segments: Seq<(u64, u64, u64, u64)>,
    /// The lowest address of a segment with file contents (`u64::MAX` if none).
    pub lo: int,
    /// The highest segment end (0 if none).
    pub hi: int,
    /// A segment's end overflows an address.
    pub overflow: bool,
    /// Symbol table: offset, count, string table offset, string table size.
    pub symtab: Option<(u32, u32, u32, u32)>,
    /// Rebase, bind and lazy-bind opcode streams: offset and size of each.
    pub dyld_info: Option<(u32, u32, u32, u32, u32, u32)>,
    /// Entry point offset from `LC_MAIN`.
    pub entry: Option<u64>,
}

pub open spec fn cmds_none() -> MachoCmds {
    MachoCmds { segments: Seq::empty(), lo: u64::MAX as int, hi: 0, overflow: false, symtab: None, dyld_info: None, entry: None }
}

/// A segment named `__PAGEZ...` (the zero page) is not mapped.
pub open spec fn is_pagezero(d: Seq<u8>, off: int) -> bool {
    d[off + 8] == 0x5f && d[off + 9] == 0x5f && d[off + 10] == 0x50 && d[off + 11] == 0x41 && d[off + 12] == 0x47
        && d[off + 13] == 0x45 && d[off + 14] == 0x5a
}

/// The information after the load command at `off`.
pub open spec fn lc_step(d: Seq<u8>, off: int, c: MachoCmds) -> MachoCmds {
    let cmd = le32(d, off);
    if cmd == LC_SEGMENT_64 && off + 72 <= d.len() {
        let vmaddr = le64(d, off + 24);
        let vmsize = le64(d, off + 32);
        let fileoff = le64(d, off + 40);
        let filesize = le64(d, off + 48);
        if vmsize > 0 && !is_pagezero(d, off) {
            MachoCmds {
                segments: c.segments.push((vmaddr as u64, vmsize as u64, fileoff as u64, filesize as u64)),
                lo: if vmaddr < c.lo && filesize > 0 { vmaddr } else { c.lo },
                hi: if vmaddr + vmsize > c.hi { vmaddr + vmsize } else { c.hi },
                overflow: c.overflow || vmaddr + vmsize > u64::MAX,
                ..c
            }
        } else {
            c
        }
    } else if cmd == LC_SYMTAB && off + 24 <= d.len() {
        MachoCmds {
            symtab: Some((le32(d, off + 8) as u32, le32(d, off + 12) as u32, le32(d, off + 16) as u32, le32(d, off + 20) as u32)),
            ..c
        }
    } else if (cmd == LC_DYLD_INFO || cmd == LC_DYLD_INFO_ONLY) && off + 48 <= d.len() {
        MachoCmds {
            dyld_info: Some(
                (
                    le32(d, off + 8) as u32,
                    le32(d, off + 12) as u32,
                    le32(d, off + 16) as u32,
                    le32(d, off + 20) as u32,
                    le32(d, off + 32) as u32,
                    le32(d, off + 36) as u32,
                ),
            ),
            ..c
        }
    } else if cmd == LC_MAIN && off + 16 <= d.len() {
        MachoCmds { entry: Some(le64(d, off + 8) as u64), ..c }
    } else {
        c
    }
}

/// The load commands from number `i` of `n`, the current one at `off`, each
/// `cmdsize` bytes after the previous, while a command header lies in the file.
pub open spec fn lc_scan(d: Seq<u8>, i: int, n: int, off: int, c: MachoCmds) -> MachoCmds
    decreases n - i,
{
    if i >= n || off < 0 || off + 8 > d.len() {
        c
    } else {
        lc_scan(d, i + 1, n, off + le32(d, off + 4), lc_step(d, off, c))
    }
}

/// A 64-bit x86-64 Mach-O header.
pub open spec fn macho_header_ok(d: Seq<u8>) -> bool {
    d.len() >= 32 && le32(d, 0) == MH_MAGIC_64 && le32(d, 4) == CPU_TYPE_X86_64
}

/// A Mach-O image as the loader sees it.
pub struct MachoImage {
    pub segments: Vec<(u64, u64, u64, u64)>,
    pub lo: u64,
    pub hi: u64,
    pub symtab: Option<(u32, u32, u32, u32)>,
    pub dyld_info: Option<(u32, u32, u32, u32, u32, u32)>,
    pub entry: Option<u64>,
    pub exports: Vec<(String, u64, u8)>,
}

pub struct MachoView {
    pub segments: Seq<(u64, u64, u64, u64)>,
    pub lo: u64,
    pub hi: u64,
    pub symtab: Option<(u32, u32, u32, u32)>,
    pub dyld_info: Option<(u32, u32, u32, u32, u32, u32)>,
    pub entry: Option<u64>,
    pub exports: Seq<(Seq<char>, u64, u8)>,
}

impl View for MachoImage {
    type V = MachoView;

    open spec fn view(&self) -> MachoView {
        MachoView {
            segments: self.segments@,
            lo: self.lo,
            hi: self.hi,
            symtab: self.symtab,
            dyld_info: self.dyld_info,
            entry: self.entry,
            exports: export_view(self.exports@),
        }
    }
}

/// The exports after the `nlist_64` entry at `pos` (names in the string table
/// at `stroff`): a defined external symbol with a non-zero value whose name
/// lies in the file, is valid UTF-8, not empty and not `<redacted>` is recorded
/// with its value and type byte.
pub open spec fn nlist_step(d: Seq<u8>, pos: int, stroff: int, t: Seq<(Seq<char>, u64, u8)>) -> Seq<(Seq<char>, u64, u8)> {
    let ty = d[pos + 4];
    let name_off = stroff + le32(d, pos);
    let name = d.subrange(name_off, cstr_end(d, name_off));
    if ty & 1u8 != 0 && d[pos + 5] != 0 && le64(d, pos + 8) != 0 && name_off < d.len() && cstr_chars(d, name_off).len()
        > 0 && name != redacted() {
        export_ins(t, cstr_chars(d, name_off), le64(d, pos + 8) as u64, ty)
    } else {
        t
    }
}

/// The exports of symbols `i..n` of the table at `symoff`, stopping at the
/// first entry that does not lie in the file.
pub open spec fn nlist_scan(d: Seq<u8>, i: int, n: int, symoff: int, stroff: int, t: Seq<(Seq<char>, u64, u8)>) -> Seq<(Seq<char>, u64, u8)>
    decreases n - i,
{
    if i >= n || i < 0 || symoff + i * 16 + 16 > d.len() {
        t
    } else {
        nlist_scan(d, i + 1, n, symoff, stroff, nlist_step(d, symoff + i * 16, stroff, t))
    }
}

/// The Mach-O image `d` describes: `None` when it is not a 64-bit x86-64
/// Mach-O file, maps no segment with file contents, or a segment's end
/// overflows.
pub open spec fn spec_macho(d: Seq<u8>) -> Option<MachoView> {
    let c = lc_scan(d, 0, le32(d, 16), 32, cmds_none());
    if !macho_header_ok(d) || c.segments.len() == 0 || c.lo == u64::MAX || c.overflow || c.hi <= c.lo {
        None
    } else {
        Some(
            MachoView {
                segments: c.segments,
                lo: c.lo as u64,
                hi: c.hi as u64,
                symtab: c.symtab,
                dyld_info: c.dyld_info,
                entry: c.entry,
                exports: match c.symtab {
                    Some((symoff, nsyms, stroff, _)) => nlist_scan(d, 0, nsyms as int, symoff as int, stroff as int, Seq::empty()),
                    None => Seq::empty(),
                },
            },
        )
    }
}

/// The bytes of the name `<redacted>`, which stripped images give hidden symbols.
pub open spec fn redacted() -> Seq<u8> {
    seq![0x3cu8, 0x72, 0x65, 0x64, 0x61, 0x63, 0x74, 0x65, 0x64, 0x3e]
}

/// Record the `nlist_64` entry at `pos` when it is an exported symbol.
fn export_nlist(data: &[u8], pos: usize, stroff: u64, exports: &mut Vec<(String, u64, u8)>)
    requires
        pos + 16 <= data@.len(),
    ensures
        export_view(final(exports)@) == nlist_step(data@, pos as int, stroff as int, export_view(old(exports)@)),
{
    proof {
        assert(data@.len() == data.len());
    }
    let strx = read_u32(data, pos) as u64;
    let ty = data[pos + 4];
    let sect = data[pos + 5];
    let value = read_u64(data, pos + 8);
    let len = data.len() as u64;
    if ty & 1 != 0 && sect != 0 && value != 0 && stroff < len && strx < len - stroff {
        let start = (stroff + strx) as usize;
        proof {
            lemma_cstr_end(data@, start as int);
        }
        if let Some(s) = str_at(data, start) {
            if s.unicode_len() > 0 {
                let mut end = start;
                while end < data.len() && data[end] != 0
                    invariant
                        start <= end <= data@.len(),
                        data@.len() == data.len(),
                        cstr_end(data@, start as int) == cstr_end(data@, end as int),
                    decreases data@.len() - end,
                {
                    end += 1;
                }
                let hidden = end - start == 10 && data[start] == 0x3c && data[start + 1] == 0x72 && data[start + 2] == 0x65
                    && data[start + 3] == 0x64 && data[start + 4] == 0x61 && data[start + 5] == 0x63 && data[start + 6]
                    == 0x74 && data[start + 7] == 0x65 && data[start + 8] == 0x64 && data[start + 9] == 0x3e;
                proof {
                    let name = data@.subrange(start as int, end as int);
                    if hidden {
                        assert(name =~= redacted());
                    } else if end - start == 10 {
                        assert(name != redacted()) by {
                            if name == redacted() {
                                assert(name[0] == data@[start as int]);
                                assert(name[1] == data@[start + 1]);
                                assert(name[2] == data@[start + 2]);
                                assert(name[3] == data@[start + 3]);
                                assert(name[4] == data@[start + 4]);
                                assert(name[5] == data@[start + 5]);
                                assert(name[6] == data@[start + 6]);
                                assert(name[7] == data@[start + 7]);
                                assert(name[8] == data@[start + 8]);
                                assert(name[9] == data@[start + 9]);
                            }
                        }
                    } else {
                        assert(name.len() != redacted().len());
                    }
                }
                if !hidden {
                    export_insert(exports, s.to_owned(), value, ty);
                }
            }
        }
    }
}

/// Parse a Mach-O image: its mapped segments and their span, symbol table,
/// dyld opcode streams, entry point and exported symbols.
pub fn parse_macho_dylib(data: &[u8]) -> (r: Option<MachoImage>)
    ensures
        match r {
            Some(img) => spec_macho(data@) == Some(img@),
            None => spec_macho(data@) is None,
        },
        r matches Some(img) ==> img.lo < img.hi,
{
    let ghost d = data@;
    if data.len() < 32 {
        return None;
    }
    if read_u32(data, 0) != MH_MAGIC_64 || read_u32(data, 4) != CPU_TYPE_X86_64 {
        return None;
    }
    let ncmds = read_u32(data, 16) as u64;
    let len = data.len() as u64;
    let mut segments: Vec<(u64, u64, u64, u64)> = Vec::new();
    let mut lo: u64 = u64::MAX;
    let mut hi: u128 = 0;
    let mut overflow = false;
    let mut symtab: Option<(u32, u32, u32, u32)> = None;
    let mut dyld_info: Option<(u32, u32, u32, u32, u32, u32)> = None;
    let mut entry: Option<u64> = None;
    let mut i: u64 = 0;
    let mut off: u128 = 32;
    while i < ncmds && off <= len as u128 - 8
        invariant
            d == data@,
            len == d.len(),
            len >= 32,
            ncmds == le32(d, 16),
            i <= ncmds,
            hi <= 2 * (u64::MAX as int),
            !overflow ==> hi <= u64::MAX,
            lc_scan(d, 0, ncmds as int, 32, cmds_none()) == lc_scan(
                d,
                i as int,
                ncmds as int,
                off as int,
                MachoCmds { segments: segments@, lo: lo as int, hi: hi as int, overflow, symtab, dyld_info, entry },
            ),
        decreases ncmds - i,
    {
        assert(data@.len() == data.len());
        let o = off as usize;
        let cmd = read_u32(data, o);
        let size = read_u32(data, o + 4) as u64;
        let ghost c0 = MachoCmds { segments: segments@, lo: lo as int, hi: hi as int, overflow, symtab, dyld_info, entry };
        if cmd == LC_SEGMENT_64 && off + 72 <= len as u128 {
            let vmaddr = read_u64(data, o + 24);
            let vmsize = read_u64(data, o + 32);
            let fileoff = read_u64(data, o + 40);
            let filesize = read_u64(data, o + 48);
            let pz = data[o + 8] == 0x5f && data[o + 9] == 0x5f && data[o + 10] == 0x50 && data[o + 11] == 0x41
                && data[o + 12] == 0x47 && data[o + 13] == 0x45 && data[o + 14] == 0x5a;
            if vmsize > 0 && !pz {
                segments.push((vmaddr, vmsize, fileoff, filesize));
                if vmaddr < lo && filesize > 0 {
                    lo = vmaddr;
                }
                let end = vmaddr as u128 + vmsize as u128;
                if end > hi {
                    hi = end;
                }
                if end > u64::MAX as u128 {
                    overflow = true;
                }
            }
        } else if cmd == LC_SYMTAB && off + 24 <= len as u128 {
            symtab = Some((read_u32(data, o + 8), read_u32(data, o + 12), read_u32(data, o + 16), read_u32(data, o + 20)));
        } else if (cmd == LC_DYLD_INFO || cmd == LC_DYLD_INFO_ONLY) && off + 48 <= len as u128 {
            dyld_info = Some(
                (
                    read_u32(data, o + 8),
                    read_u32(data, o + 12),
                    read_u32(data, o + 16),
                    read_u32(data, o + 20),
                    read_u32(data, o + 32),
                    read_u32(data, o + 36),
                ),
            );
        } else if cmd == LC_MAIN && off + 16 <= len as u128 {
            entry = Some(read_u64(data, o + 8));
        }
        assert(MachoCmds { segments: segments@, lo: lo as int, hi: hi as int, overflow, symtab, dyld_info, entry }
            == lc_step(d, off as int, c0));
        off = off + size as u128;
        i = i + 1;
    }
    if segments.len() == 0 || lo == u64::MAX || overflow || hi <= lo as u128 {
        return None;
    }
    let mut exports: Vec<(String, u64, u8)> = Vec::new();
    assert(export_view(exports@) =~= Seq::<(Seq<char>, u64, u8)>::empty());
    if let Some((symoff, nsyms, stroff, _)) = symtab {
        let n = nsyms as u64;
        let so = symoff as u64;
        let mut k: u64 = 0;
        while k < n && so + k * 16 + 16 <= len
            invariant
                d == data@,
                len == d.len(),
                k <= n,
                n <= u32::MAX,
                so <= u32::MAX,
                nlist_scan(d, 0, n as int, so as int, stroff as int, Seq::empty()) == nlist_scan(
                    d,
                    k as int,
                    n as int,
                    so as int,
                    stroff as int,
                    export_view(exports@),
                ),
            decreases n - k,
        {
            let ghost t0 = export_view(exports@);
            assert(data@.len() == data.len());
            let pos = (so + k * 16) as usize;
            assert(pos as int == so + k * 16);
            export_nlist(data, pos, stroff as u64, &mut exports);
            assert(nlist_scan(d, k as int, n as int, so as int, stroff as int, t0) == nlist_scan(
                d,
                k + 1,
                n as int,
                so as int,
                stroff as int,
                nlist_step(d, so + k * 16, stroff as int, t0),
            ));
            k = k + 1;
        }
    }
    Some(MachoImage { segments, lo, hi: hi as u64, symtab, dyld_info, entry, exports })
}

/// Load a parsed Mach-O image: place it at the next library base, record it
/// with its entry point (when it has one) and enter its exports under its
/// position. `None` (the state unchanged) when the address space or the
/// library positions run out.
/// The record of a Mach-O image `v` loaded as `name` at `base`: its entry
/// point (0 without one) moved to `base` modulo 2^64, its exports, no init
/// functions, and lazy binding when it has bind information.
pub open spec fn macho_record_ok(lib: LoadedLib, v: MachoView, name: Seq<char>, base: u64) -> bool {
    &&& lib.name@ == name
    &&& lib.base_addr == base
    &&& lib.entry == match v.entry {
        Some(o) => ((base + o) % 0x1_0000_0000_0000_0000) as u64,
        None => 0,
    }
    &&& lib.export_table() == v.exports
    &&& lib.init_funcs@.len() == 0
    &&& lib.has_lazy == v.dyld_info is Some
}

fn load_macho_image(img: MachoImage, name: &str, state: &mut DyldState) -> (r: Option<usize>)
    requires
        old(state).wf(),
        img@.lo < img@.hi,
    ensures
        final(state).wf(),
        r is Some <==> lib_fits(old(state).spec_next_base(), img@.hi - img@.lo) && old(state).spec_lib_count() < BUILTIN,
        r is None ==> *final(state) == *old(state),
        r matches Some(idx) ==> {
            let base = old(state).spec_next_base();
            &&& idx == old(state).spec_lib_count()
            &&& final(state).spec_lib_count() == idx + 1
            &&& macho_record_ok(final(state).lib_at(idx as int), img@, name@, base)
            &&& forall|i: int| 0 <= i < idx ==> #[trigger] final(state).lib_at(i) == old(state).lib_at(i)
            &&& final(state).symbols() == registered(old(state).symbols(), img@.exports, idx)
            &&& final(state).spec_next_base() == base + lib_reserve(img@.hi - img@.lo)
        },
{
    let size = img.hi - img.lo;
    if size > u64::MAX - LIB_ALIGN {
        return None;
    }
    let reserve = (size + LIB_ALIGN - 1) & !(LIB_ALIGN - 1);
    if state.next_base() > u64::MAX - reserve {
        return None;
    }
    if state.lib_count() == BUILTIN {
        return None;
    }
    let base = state.allocate_base(size);
    let entry = match img.entry {
        Some(o) => ((base as u128 + o as u128) % 0x1_0000_0000_0000_0000u128) as u64,
        None => 0,
    };
    let has_lazy = img.dyld_info.is_some();
    let ghost v = img@;
    let lib = LoadedLib {
        name: name.to_owned(),
        base_addr: base,
        entry,
        exports: img.exports,
        init_funcs: Vec::new(),
        has_lazy,
    };
    assert(lib.export_table() =~= v.exports);
    let idx = state.add_library(lib);
    Some(idx)
}

/// Link the main image of a program: a fresh linker state with the libc
/// built-ins, the image loaded into it as `main`; its entry point. `None`
/// when the image cannot be loaded (see `load_shared_library`).
pub fn link_image(image_data: &[u8]) -> (r: Option<u64>)
    ensures
        r == if spec_library_format(image_data@) == Some(LibFormat::Elf) && spec_elf_so(image_data@) is Some
            && lib_fits(LIB_BASE, spec_elf_so(image_data@)->0.hi - spec_elf_so(image_data@)->0.lo) {
            Some(spec_elf_so(image_data@)->0.entry)
        } else if spec_library_format(image_data@) == Some(LibFormat::MachO) && spec_macho(image_data@) is Some
            && lib_fits(LIB_BASE, spec_macho(image_data@)->0.hi - spec_macho(image_data@)->0.lo) {
            Some(
                match spec_macho(image_data@)->0.entry {
                    Some(o) => ((LIB_BASE + o) % 0x1_0000_0000_0000_0000) as u64,
                    None => 0,
                },
            )
        } else {
            None::<u64>
        },
{
    let mut state = DyldState::new();
    state.register_libc_symbols();
    let idx = match load_shared_library(image_data, "main", &mut state) {
        Some(i) => i,
        None => return None,
    };
    match state.get_lib(idx) {
        Some(lib) => Some(lib.entry),
        None => None,
    }
}

/// Look for library `name` under `/lib/` and `/usr/lib/`. The linker has no
/// file system to read from, so no library is found and nothing is loaded.
pub fn load_dylib(name: &str, state: &mut DyldState) -> (found: bool)
    ensures
        !found,
        *final(state) == *old(state),
{
    false
}

// ── Mach-O bind opcodes ────────────────────────────────────────────────────

/// `a + b` modulo 2^64.
pub open spec fn wadd(a: u64, b: u64) -> u64 {
    if a + b > u64::MAX {
        (a + b - 0x1_0000_0000_0000_0000int) as u64
    } else {
        (a + b) as u64
    }
}

/// The bind interpreter's registers: position in the opcode stream, current
/// segment and offset in it, addend, symbol name, the binds made so far
/// (address to patch, value), and whether it stopped.
pub struct BindMachine {
    pub pos: int,
    pub seg: int,
    pub off: u64,
    pub addend: i64,
    pub name: Seq<char>,
    pub out: Seq<(u64, u64)>,
    pub stop: bool,
}

/// The bind interpreter before the first opcode.
pub open spec fn machine_start() -> BindMachine {
    BindMachine { pos: 0, seg: 0, off: 0, addend: 0, name: Seq::empty(), out: Seq::empty(), stop: false }
}

/// A LEB128 number at `p` longer than 10 bytes (more than 64 bits) ends
/// the interpretation.
pub open spec fn leb_long(d: Seq<u8>, p: int) -> bool {
    leb_len(d, p) > 10
}

/// The bind at offset `off` of segment `seg` of an image placed at `base`:
/// the address to patch and the symbol's address plus the addend. Nothing
/// when the segment does not exist or the symbol does not resolve.
pub open spec fn bind_at(
    base: u64,
    segs: Seq<(u64, u64, u64, u64)>,
    seg: int,
    off: u64,
    addend: i64,
    name: Seq<char>,
    st: DyldState,
) -> Seq<(u64, u64)> {
    if 0 <= seg < segs.len() {
        match resolved(st, name) {
            Some(v) => seq![(wadd(wadd(base, segs[seg].0), off), wadd(v, addend as u64))],
            None => Seq::empty(),
        }
    } else {
        Seq::empty()
    }
}

/// `count` binds, `step` bytes apart, from the machine's offset.
pub open spec fn bind_times(
    m: BindMachine,
    base: u64,
    segs: Seq<(u64, u64, u64, u64)>,
    st: DyldState,
    count: nat,
    step: u64,
) -> BindMachine
    decreases count,
{
    if count == 0 {
        m
    } else {
        bind_times(
            BindMachine {
                off: wadd(m.off, step),
                out: m.out + bind_at(base, segs, m.seg, m.off, m.addend, m.name, st),
                ..m
            },
            base,
            segs,
            st,
            (count - 1) as nat,
            step,
        )
    }
}

/// Where a threaded rebase list starting at `p` ends: after its zero delta,
/// or at the end of the stream; `-1` at an overlong number.
pub open spec fn threaded_end(d: Seq<u8>, p: int, fuel: nat) -> int
    decreases fuel,
{
    if fuel == 0 || p < 0 || p >= d.len() {
        p
    } else if leb_long(d, p) {
        -1
    } else if uleb_from(d, p, 0, 0).0 == 0 {
        uleb_from(d, p, 0, 0).1
    } else {
        threaded_end(d, uleb_from(d, p, 0, 0).1, (fuel - 1) as nat)
    }
}

/// The opcodes that read a LEB128 operand right after the opcode byte.
pub open spec fn reads_leb(op: u8, imm: u8, valid: bool) -> bool {
    op == 0x20 || op == 0x60 || op == 0x70 || op == 0x80 || op == 0xC0 || (op == 0xA0 && valid) || (op
        == 0xD0 && imm == 0)
}

/// One opcode of a bind stream.
pub open spec fn bind_step(d: Seq<u8>, m: BindMachine, base: u64, segs: Seq<(u64, u64, u64, u64)>, st: DyldState) -> BindMachine {
    let b = d[m.pos];
    let op = b & 0xF0u8;
    let imm = b & 0x0Fu8;
    let p = m.pos + 1;
    let valid = 0 <= m.seg < segs.len();
    let v = uleb_from(d, p, 0, 0).0;
    let q = uleb_from(d, p, 0, 0).1;
    let here = bind_at(base, segs, m.seg, m.off, m.addend, m.name, st);
    if op == 0x00 {
        BindMachine { stop: true, ..m }
    } else if reads_leb(op, imm, valid) {
        if leb_long(d, p) {
            BindMachine { stop: true, ..m }
        } else if op == 0x60 {
            BindMachine { pos: sleb_from(d, p, 0, 0, 0).1, addend: sleb_from(d, p, 0, 0, 0).0, ..m }
        } else if op == 0x70 {
            BindMachine { pos: q, seg: imm as int, off: v, ..m }
        } else if op == 0x80 {
            BindMachine { pos: q, off: wadd(m.off, v), ..m }
        } else if op == 0xA0 {
            BindMachine { pos: q, off: wadd(m.off, wadd(8, v)), out: m.out + here, ..m }
        } else if op == 0xC0 {
            if leb_long(d, q) {
                BindMachine { stop: true, ..m }
            } else if valid {
                bind_times(
                    BindMachine { pos: uleb_from(d, q, 0, 0).1, ..m },
                    base,
                    segs,
                    st,
                    v as nat,
                    wadd(8, uleb_from(d, q, 0, 0).0),
                )
            } else {
                BindMachine { pos: uleb_from(d, q, 0, 0).1, ..m }
            }
        } else {
            BindMachine { pos: q, ..m }
        }
    } else if op == 0x40 {
        BindMachine { pos: cstr_end(d, p) + 1, name: cstr_chars(d, p), ..m }
    } else if op == 0x90 && valid {
        BindMachine { pos: p, off: wadd(m.off, 8), out: m.out + here, ..m }
    } else if op == 0xB0 && valid {
        BindMachine { pos: p, off: wadd(m.off, (8 + imm * 8) as u64), out: m.out + here, ..m }
    } else if op == 0xD0 && imm == 1 {
        if threaded_end(d, p, d.len()) < 0 {
            BindMachine { stop: true, ..m }
        } else {
            BindMachine { pos: threaded_end(d, p, d.len()), ..m }
        }
    } else {
        BindMachine { pos: p, ..m }
    }
}

/// The machine after at most `fuel` opcodes, stopping at `DONE`, an overlong
/// number or the end of the stream.
pub open spec fn bind_run(
    d: Seq<u8>,
    m: BindMachine,
    base: u64,
    segs: Seq<(u64, u64, u64, u64)>,
    st: DyldState,
    fuel: nat,
) -> BindMachine
    decreases fuel,
{
    if fuel == 0 || m.stop || m.pos < 0 || m.pos >= d.len() {
        m
    } else {
        bind_run(d, bind_step(d, m, base, segs, st), base, segs, st, (fuel - 1) as nat)
    }
}

/// The binds a stream makes. Every opcode moves past at least one byte, so
/// a fuel of the stream's length runs it to its end.
pub open spec fn stream_binds(d: Seq<u8>, base: u64, segs: Seq<(u64, u64, u64, u64)>, st: DyldState) -> Seq<(u64, u64)> {
    bind_run(d, machine_start(), base, segs, st, d.len()).out
}

/// The stream of `size` bytes at `off`, when it is non-empty and lies in the file.
pub open spec fn stream_of(d: Seq<u8>, off: u32, size: u32) -> Option<Seq<u8>> {
    if size > 0 && off + size <= d.len() {
        Some(d.subrange(off as int, off + size))
    } else {
        None
    }
}

/// The binds of a stream of the file, or none when there is no such stream.
pub open spec fn binds_of(d: Seq<u8>, off: u32, size: u32, base: u64, segs: Seq<(u64, u64, u64, u64)>, st: DyldState) -> Seq<(u64, u64)> {
    match stream_of(d, off, size) {
        Some(s) => stream_binds(s, base, segs, st),
        None => Seq::empty(),
    }
}

/// The binds of an image placed at `base`: those of its bind stream, then
/// those of its lazy-bind stream (lazy binds are resolved up front).
pub open spec fn spec_binds(d: Seq<u8>, img: MachoView, base: u64, st: DyldState) -> Seq<(u64, u64)> {
    match img.dyld_info {
        Some((_, _, boff, bsize, loff, lsize)) => binds_of(d, boff, bsize, base, img.segments, st) + binds_of(
            d,
            loff,
            lsize,
            base,
            img.segments,
            st,
        ),
        None => Seq::empty(),
    }
}

proof fn lemma_uleb_pos(d: Seq<u8>, p: int, acc: u64, shift: u32)
    requires
        0 <= p,
    ensures
        uleb_from(d, p, acc, shift).1 >= p,
        p < d.len() ==> uleb_from(d, p, acc, shift).1 > p,
    decreases d.len() - p,
{
    if p < d.len() {
        let byte = d[p];
        let acc2 = acc | (((byte & 0x7F) as u64) << (shift as u64));
        if byte & 0x80 != 0 {
            lemma_uleb_pos(d, p + 1, acc2, (shift + 7) as u32);
        }
    }
}

proof fn lemma_sleb_pos(d: Seq<u8>, p: int, acc: i64, shift: u32, last: u8)
    requires
        0 <= p,
    ensures
        sleb_from(d, p, acc, shift, last).1 >= p,
    decreases d.len() - p,
{
    if p < d.len() {
        let byte = d[p];
        let acc2 = acc | (((byte & 0x7F) as i64) << (shift as i64));
        if byte & 0x80 != 0 {
            lemma_sleb_pos(d, p + 1, acc2, (shift + 7) as u32, byte);
        }
    }
}

proof fn lemma_threaded_end(d: Seq<u8>, p: int, fuel: nat)
    requires
        0 <= p,
    ensures
        threaded_end(d, p, fuel) < 0 || threaded_end(d, p, fuel) >= p,
        threaded_end(d, p, fuel) <= d.len() || threaded_end(d, p, fuel) == p,
    decreases fuel,
{
    if fuel > 0 && p < d.len() && !leb_long(d, p) {
        lemma_uleb_pos(d, p, 0, 0);
        lemma_uleb_le(d, p, 0, 0);
        if uleb_from(d, p, 0, 0).0 != 0 {
            lemma_threaded_end(d, uleb_from(d, p, 0, 0).1, (fuel - 1) as nat);
        }
    }
}

proof fn lemma_uleb_le(d: Seq<u8>, p: int, acc: u64, shift: u32)
    requires
        0 <= p <= d.len(),
    ensures
        uleb_from(d, p, acc, shift).1 <= d.len(),
    decreases d.len() - p,
{
    if p < d.len() {
        let byte = d[p];
        let acc2 = acc | (((byte & 0x7F) as u64) << (shift as u64));
        if byte & 0x80 != 0 {
            lemma_uleb_le(d, p + 1, acc2, (shift + 7) as u32);
        }
    }
}

/// Whether the LEB128 number at `pos` takes at most 10 bytes.
fn leb_fits(data: &[u8], pos: usize) -> (r: bool)
    ensures
        r == !leb_long(data@, pos as int),
{
    if pos >= data.len() {
        return true;
    }
    let mut k: usize = 0;
    while k < 10
        invariant
            pos < data@.len(),
            k <= 10,
            leb_len(data@, pos as int) == k + leb_len(data@, pos + k),
        decreases 10 - k,
    {
        if k >= data.len() - pos {
            return true;
        }
        if data[pos + k] & 0x80 == 0 {
            return true;
        }
        k = k + 1;
    }
    proof {
        crate::dyld::lemma_leb_len(data@, pos + 10);
    }
    data.len() - pos <= 10
}

/// Index of the NUL byte ending the string at `start` (or the length).
fn cstr_end_at(data: &[u8], start: usize) -> (e: usize)
    requires
        start <= data@.len(),
    ensures
        e as int == cstr_end(data@, start as int),
        e <= data@.len(),
{
    let mut e = start;
    while e < data.len() && data[e] != 0
        invariant
            start <= e <= data@.len(),
            cstr_end(data@, start as int) == cstr_end(data@, e as int),
        decreases data@.len() - e,
    {
        e += 1;
    }
    e
}

/// Skip a threaded rebase list at `p`: where it ends, or `None` at an
/// overlong number.
fn threaded_skip(data: &[u8], p: usize) -> (r: Option<usize>)
    requires
        p <= data@.len(),
    ensures
        match r {
            Some(e) => e as int == threaded_end(data@, p as int, data@.len()),
            None => threaded_end(data@, p as int, data@.len()) < 0,
        },
{
    let mut pos = p;
    let ghost mut fuel: nat = data@.len();
    while pos < data.len()
        invariant
            p <= pos <= data@.len(),
            fuel + pos >= data@.len(),
            threaded_end(data@, p as int, data@.len()) == threaded_end(data@, pos as int, fuel),
        decreases data@.len() - pos,
    {
        if !leb_fits(data, pos) {
            return None;
        }
        proof {
            lemma_uleb_pos(data@, pos as int, 0, 0);
            lemma_uleb_le(data@, pos as int, 0, 0);
        }
        let mut q = pos;
        let delta = read_uleb128(data, &mut q);
        if delta == 0 {
            return Some(q);
        }
        pos = q;
        proof {
            fuel = (fuel - 1) as nat;
        }
    }
    Some(pos)
}

/// Append the bind at the current place, if its symbol resolves.
fn push_bind(
    base: u64,
    segs: &Vec<(u64, u64, u64, u64)>,
    seg: usize,
    off: u64,
    addend: i64,
    name: &str,
    state: &DyldState,
    out: &mut Vec<(u64, u64)>,
)
    requires
        state.wf(),
    ensures
        final(out)@ == old(out)@ + bind_at(base, segs@, seg as int, off, addend, name@, *state),
{
    if seg < segs.len() {
        match state.resolve_symbol_checked(name) {
            Some(v) => {
                out.push((base.wrapping_add(segs[seg].0).wrapping_add(off), v.wrapping_add(addend as u64)));
            },
            None => {},
        }
    }
}

/// Run a bind stream from its start and collect the binds it makes.
#[verifier::rlimit(50)]
fn run_bind_stream(d: &[u8], base: u64, segs: &Vec<(u64, u64, u64, u64)>, state: &DyldState) -> (out: Vec<(u64, u64)>)
    requires
        state.wf(),
    ensures
        out@ == stream_binds(d@, base, segs@, *state),
{
    let ghost s = d@;
    let ghost sg = segs@;
    let mut pos: usize = 0;
    let mut seg: usize = 0;
    let mut off: u64 = 0;
    let mut addend: i64 = 0;
    let mut name: &str = "";
    let mut out: Vec<(u64, u64)> = Vec::new();
    let ghost mut fuel: nat = s.len();
    proof {
        reveal_strlit("");
        assert(name@ =~= Seq::<char>::empty());
        assert(out@ =~= Seq::<(u64, u64)>::empty());
    }
    while pos < d.len()
        invariant
            s == d@,
            sg == segs@,
            state.wf(),
            fuel + pos >= s.len(),
            bind_run(s, machine_start(), base, sg, *state, s.len()) == bind_run(
                s,
                BindMachine { pos: pos as int, seg: seg as int, off, addend, name: name@, out: out@, stop: false },
                base,
                sg,
                *state,
                fuel,
            ),
        decreases fuel,
    {
        let ghost m = BindMachine { pos: pos as int, seg: seg as int, off, addend, name: name@, out: out@, stop: false };
        let ghost f1 = (fuel - 1) as nat;
        assert(bind_run(s, m, base, sg, *state, fuel) == bind_run(s, bind_step(s, m, base, sg, *state), base, sg, *state, f1));
        let b = d[pos];
        let op = b & 0xF0u8;
        let imm = b & 0x0Fu8;
        let p = pos + 1;
        let valid = seg < segs.len();
        proof {
            lemma_uleb_pos(s, p as int, 0, 0);
            lemma_uleb_le(s, p as int, 0, 0);
        }
        if op == 0x00 {
            return out;
        } else if op == 0x20 || op == 0x60 || op == 0x70 || op == 0x80 || op == 0xC0 || (op == 0xA0 && valid) || (
        op == 0xD0 && imm == 0) {
            assert(reads_leb(op, imm, valid));
            if !leb_fits(d, p) {
                return out;
            }
            let mut q = p;
            if op == 0x60 {
                proof {
                    lemma_sleb_pos(s, p as int, 0, 0, 0);
                }
                addend = read_sleb128(d, &mut q);
                pos = q;
            } else {
                let v = read_uleb128(d, &mut q);
                if op == 0x70 {
                    seg = imm as usize;
                    off = v;
                    pos = q;
                } else if op == 0x80 {
                    off = off.wrapping_add(v);
                    pos = q;
                } else if op == 0xA0 {
                    push_bind(base, segs, seg, off, addend, name, state, &mut out);
                    off = off.wrapping_add(8u64.wrapping_add(v));
                    pos = q;
                } else if op == 0xC0 {
                    if !leb_fits(d, q) {
                        return out;
                    }
                    proof {
                        lemma_uleb_pos(s, q as int, 0, 0);
                        lemma_uleb_le(s, q as int, 0, 0);
                    }
                    let mut q2 = q;
                    let skip = read_uleb128(d, &mut q2);
                    pos = q2;
                    if valid {
                        let step = 8u64.wrapping_add(skip);
                        let ghost m2 = BindMachine { pos: pos as int, ..m };
                        let mut k: u64 = 0;
                        while k < v
                            invariant
                                k <= v,
                                sg == segs@,
                                seg < segs@.len(),
                                state.wf(),
                                m2.seg == seg as int,
                                m2.addend == addend,
                                m2.name == name@,
                                bind_times(m2, base, sg, *state, v as nat, step) == bind_times(
                                    BindMachine { off, out: out@, ..m2 },
                                    base,
                                    sg,
                                    *state,
                                    (v - k) as nat,
                                    step,
                                ),
                            decreases v - k,
                        {
                            assert(bind_times(BindMachine { off, out: out@, ..m2 }, base, sg, *state, (v - k) as nat, step)
                                == bind_times(
                                BindMachine {
                                    off: wadd(off, step),
                                    out: out@ + bind_at(base, sg, seg as int, off, addend, name@, *state),
                                    ..m2
                                },
                                base,
                                sg,
                                *state,
                                (v - k - 1) as nat,
                                step,
                            ));
                            push_bind(base, segs, seg, off, addend, name, state, &mut out);
                            off = off.wrapping_add(step);
                            k = k + 1;
                        }
                    }
                } else {
                    pos = q;
                }
            }
        } else if op == 0x40 {
            let e = cstr_end_at(d, p);
            proof {
                lemma_cstr_end(s, p as int);
            }
            if e >= d.len() {
                return out;
            }
            match str_at(d, p) {
                Some(t) => {
                    name = t;
                },
                None => {
                    name = "";
                    proof {
                        reveal_strlit("");
                        assert(name@ =~= cstr_chars(s, p as int));
                    }
                },
            }
            pos = e + 1;
        } else if op == 0x90 && valid {
            push_bind(base, segs, seg, off, addend, name, state, &mut out);
            off = off.wrapping_add(8);
            pos = p;
        } else if op == 0xB0 && valid {
            push_bind(base, segs, seg, off, addend, name, state, &mut out);
            off = off.wrapping_add(8 + (imm as u64) * 8);
            pos = p;
        } else if op == 0xD0 && imm == 1 {
            proof {
                lemma_threaded_end(s, p as int, s.len());
            }
            match threaded_skip(d, p) {
                Some(e) => {
                    pos = e;
                },
                None => {
                    return out;
                },
            }
        } else {
            pos = p;
        }
        proof {
            fuel = f1;
        }
    }
    out
}

/// The binds a Mach-O image placed at `base` makes against the symbols of
/// `state`: its bind stream's, then its lazy-bind stream's, each as
/// (address to patch, value).
pub fn macho_binds(data: &[u8], image: &MachoImage, base: u64, state: &DyldState) -> (b: Vec<(u64, u64)>)
    requires
        state.wf(),
    ensures
        b@ == spec_binds(data@, image@, base, *state),
{
    match image.dyld_info {
        Some((_, _, boff, bsize, loff, lsize)) => {
            let mut b = stream_binds_at(data, boff, bsize, base, &image.segments, state);
            let mut l = stream_binds_at(data, loff, lsize, base, &image.segments, state);
            b.append(&mut l);
            b
        },
        None => Vec::new(),
    }
}

/// The binds of the stream of `size` bytes at `off`, if it lies in the file.
fn stream_binds_at(
    data: &[u8],
    off: u32,
    size: u32,
    base: u64,
    segs: &Vec<(u64, u64, u64, u64)>,
    state: &DyldState,
) -> (r: Vec<(u64, u64)>)
    requires
        state.wf(),
    ensures
        r@ == binds_of(data@, off, size, base, segs@, *state),
{
    let o = off as usize;
    let n = size as usize;
    if n > 0 && o <= data.len() && n <= data.len() - o {
        let stream = &data[o..o + n];
        assert(stream@ == data@.subrange(off as int, off + size));
        run_bind_stream(stream, base, segs, state)
    } else {
        Vec::new()
    }
}

// ── ELF relocations ────────────────────────────────────────────────────────

pub const R_X86_64_RELATIVE: u32 = 8;
pub const R_AARCH64_RELATIVE: u32 = 0x403;

/// The write a 24-byte `Elf64_Rela` entry at `k` asks for, for a library
/// placed at `base`: a relative relocation stores `base + addend` at
/// `base + offset`. Other relocation types ask for no write.
pub open spec fn rela_write(t: Seq<u8>, k: int, base: u64) -> Seq<(u64, u64)> {
    let ty = le64(t, k + 8) as u32;
    if ty == R_X86_64_RELATIVE || ty == R_AARCH64_RELATIVE {
        seq![(wadd(base, le64(t, k) as u64), wadd(base, le64(t, k + 16) as u64))]
    } else {
        Seq::empty()
    }
}

/// The writes of the relocation entries of table `t` from byte `k` on.
pub open spec fn rela_writes(t: Seq<u8>, k: int, base: u64) -> Seq<(u64, u64)>
    decreases t.len() - k,
{
    if k < 0 || k + 24 > t.len() {
        Seq::empty()
    } else {
        rela_write(t, k, base) + rela_writes(t, k + 24, base)
    }
}

/// The table of `size` bytes at file offset `off`, when both are given and
/// it lies in the file.
pub open spec fn rela_table(d: Seq<u8>, off: Option<u64>, size: Option<u64>) -> Option<Seq<u8>> {
    match (off, size) {
        (Some(o), Some(n)) => if o + n <= d.len() {
            Some(d.subrange(o as int, o + n))
        } else {
            None
        },
        _ => None,
    }
}

/// The writes of a relocation table, or none when there is no such table.
pub open spec fn table_writes(d: Seq<u8>, off: Option<u64>, size: Option<u64>, base: u64) -> Seq<(u64, u64)> {
    match rela_table(d, off, size) {
        Some(t) => rela_writes(t, 0, base),
        None => Seq::empty(),
    }
}

/// The relocation writes of a shared object placed at `base`: those of
/// `.rela.dyn`, then those of `.rela.plt`.
pub open spec fn spec_elf_relocs(d: Seq<u8>, img: ElfSoView, base: u64) -> Seq<(u64, u64)> {
    table_writes(d, img.dynamic.rela, img.dynamic.relasz, base) + table_writes(
        d,
        img.dynamic.jmprel,
        img.dynamic.pltrelsz,
        base,
    )
}

/// The writes of one relocation table.
fn rela_table_writes(t: &[u8], base: u64) -> (out: Vec<(u64, u64)>)
    ensures
        out@ == rela_writes(t@, 0, base),
{
    let mut out: Vec<(u64, u64)> = Vec::new();
    let mut k: usize = 0;
    proof {
        assert(out@ + rela_writes(t@, 0, base) =~= rela_writes(t@, 0, base));
    }
    while k <= t.len() && 24 <= t.len() - k
        invariant
            k <= t@.len(),
            t@.len() == t.len(),
            out@ + rela_writes(t@, k as int, base) == rela_writes(t@, 0, base),
        decreases t@.len() - k,
    {
        let ty = read_u64(t, k + 8) as u32;
        let ghost before = out@;
        if ty == R_X86_64_RELATIVE || ty == R_AARCH64_RELATIVE {
            let off = read_u64(t, k);
            let addend = read_u64(t, k + 16);
            out.push((base.wrapping_add(off), base.wrapping_add(addend)));
        }
        assert(out@ + rela_writes(t@, k + 24, base) =~= before + rela_writes(t@, k as int, base));
        k = k + 24;
    }
    proof {
        assert(rela_writes(t@, k as int, base) =~= Seq::<(u64, u64)>::empty());
        assert(out@ =~= out@ + Seq::<(u64, u64)>::empty());
    }
    out
}

/// The writes of the table `off`/`size` name, if it lies in the file.
fn table_writes_at(data: &[u8], off: Option<u64>, size: Option<u64>, base: u64) -> (out: Vec<(u64, u64)>)
    ensures
        out@ == table_writes(data@, off, size, base),
{
    match (off, size) {
        (Some(o), Some(n)) => {
            if o <= data.len() as u64 && n <= data.len() as u64 - o {
                let t = &data[o as usize..(o + n) as usize];
                assert(t@ == data@.subrange(o as int, o + n));
                rela_table_writes(t, base)
            } else {
                Vec::new()
            }
        },
        _ => Vec::new(),
    }
}

/// The relocations a shared object placed at `base` asks for, as
/// (address, value) writes: each relative relocation of `.rela.dyn`, then
/// of `.rela.plt`, stores `base + addend` at `base + offset` (both modulo
/// 2^64). Symbol relocations are left to symbol binding.
pub fn elf_relocations(data: &[u8], image: &ElfSoImage, base: u64) -> (w: Vec<(u64, u64)>)
    ensures
        w@ == spec_elf_relocs(data@, image@, base),
{
    let mut w = table_writes_at(data, image.dynamic.rela, image.dynamic.relasz, base);
    let mut plt = table_writes_at(data, image.dynamic.jmprel, image.dynamic.pltrelsz, base);
    w.append(&mut plt);
    w
}

// ── Mach-O rebase opcodes ──────────────────────────────────────────────────

pub const REBASE_TYPE_POINTER: u8 = 1;

/// The rebase interpreter's registers: position in the opcode stream,
/// current segment and offset in it, rebase type, the writes made so far
/// (address, value), and whether it stopped.
pub struct RebaseMachine {
    pub pos: int,
    pub seg: int,
    pub off: u64,
    pub ty: u8,
    pub out: Seq<(u64, u64)>,
    pub stop: bool,
}

/// The rebase interpreter before the first opcode: rebases default to
/// pointers.
pub open spec fn rebase_start() -> RebaseMachine {
    RebaseMachine { pos: 0, seg: 0, off: 0, ty: REBASE_TYPE_POINTER, out: Seq::empty(), stop: false }
}

/// The write at offset `off` of segment `seg` of an image placed at `base`
/// and slid by `slide`: a pointer there is moved by the slide. Nothing for
/// other rebase types.
pub open spec fn rebase_at(base: u64, slide: u64, segs: Seq<(u64, u64, u64, u64)>, seg: int, off: u64, ty: u8) -> Seq<(u64, u64)> {
    let addr = wadd(wadd(base, segs[seg].0), off);
    if ty == REBASE_TYPE_POINTER {
        seq![(addr, wadd(addr, slide))]
    } else {
        Seq::empty()
    }
}

/// `count` rebases, `step` bytes apart, from the machine's offset (in an
/// existing segment).
pub open spec fn rebase_times(
    m: RebaseMachine,
    base: u64,
    slide: u64,
    segs: Seq<(u64, u64, u64, u64)>,
    count: nat,
    step: u64,
) -> RebaseMachine
    decreases count,
{
    if count == 0 {
        m
    } else {
        rebase_times(
            RebaseMachine {
                off: wadd(m.off, step),
                out: m.out + rebase_at(base, slide, segs, m.seg, m.off, m.ty),
                ..m
            },
            base,
            slide,
            segs,
            (count - 1) as nat,
            step,
        )
    }
}

/// One opcode of a rebase stream.
pub open spec fn rebase_step(d: Seq<u8>, m: RebaseMachine, base: u64, slide: u64, segs: Seq<(u64, u64, u64, u64)>) -> RebaseMachine {
    let b = d[m.pos];
    let op = b & 0xF0u8;
    let imm = b & 0x0Fu8;
    let p = m.pos + 1;
    let valid = 0 <= m.seg < segs.len();
    let v = uleb_from(d, p, 0, 0).0;
    let q = uleb_from(d, p, 0, 0).1;
    if op == 0x00 {
        RebaseMachine { stop: true, ..m }
    } else if op == 0x10 {
        RebaseMachine { pos: p, ty: imm, ..m }
    } else if op == 0x30 {
        RebaseMachine { pos: p, off: wadd(m.off, imm as u64), ..m }
    } else if op == 0x50 {
        let m2 = RebaseMachine { pos: p, ..m };
        if valid { rebase_times(m2, base, slide, segs, imm as nat, 8) } else { m2 }
    } else if op == 0x20 || op == 0x40 || op == 0x60 || op == 0x80 || (op == 0x70 && valid) {
        if leb_long(d, p) {
            RebaseMachine { stop: true, ..m }
        } else if op == 0x20 {
            RebaseMachine { pos: q, seg: imm as int, off: v, ..m }
        } else if op == 0x40 {
            RebaseMachine { pos: q, off: wadd(m.off, v), ..m }
        } else if op == 0x60 {
            let m2 = RebaseMachine { pos: q, ..m };
            if valid { rebase_times(m2, base, slide, segs, v as nat, 8) } else { m2 }
        } else if op == 0x70 {
            RebaseMachine {
                pos: q,
                off: wadd(m.off, wadd(8, v)),
                out: m.out + rebase_at(base, slide, segs, m.seg, m.off, m.ty),
                ..m
            }
        } else if leb_long(d, q) {
            RebaseMachine { stop: true, ..m }
        } else {
            let m2 = RebaseMachine { pos: uleb_from(d, q, 0, 0).1, ..m };
            if valid { rebase_times(m2, base, slide, segs, v as nat, wadd(8, uleb_from(d, q, 0, 0).0)) } else { m2 }
        }
    } else {
        RebaseMachine { pos: p, ..m }
    }
}

/// The machine after at most `fuel` opcodes, stopping at `DONE`, an overlong
/// number or the end of the stream.
pub open spec fn rebase_run(d: Seq<u8>, m: RebaseMachine, base: u64, slide: u64, segs: Seq<(u64, u64, u64, u64)>, fuel: nat) -> RebaseMachine
    decreases fuel,
{
    if fuel == 0 || m.stop || m.pos < 0 || m.pos >= d.len() {
        m
    } else {
        rebase_run(d, rebase_step(d, m, base, slide, segs), base, slide, segs, (fuel - 1) as nat)
    }
}

/// The writes a rebase stream makes.
pub open spec fn stream_rebases(d: Seq<u8>, base: u64, slide: u64, segs: Seq<(u64, u64, u64, u64)>) -> Seq<(u64, u64)> {
    rebase_run(d, rebase_start(), base, slide, segs, d.len()).out
}

/// The rebase writes of an image placed at `base` with slide `slide`: those
/// of its rebase stream, when it lies in the file.
pub open spec fn spec_rebases(d: Seq<u8>, img: MachoView, base: u64, slide: u64) -> Seq<(u64, u64)> {
    match img.dyld_info {
        Some((roff, rsize, _, _, _, _)) => match stream_of(d, roff, rsize) {
            Some(s) => stream_rebases(s, base, slide, img.segments),
            None => Seq::empty(),
        },
        None => Seq::empty(),
    }
}

/// Run `count` rebases `step` bytes apart.
fn push_rebases(
    base: u64,
    slide: u64,
    segs: &Vec<(u64, u64, u64, u64)>,
    seg: usize,
    off: &mut u64,
    ty: u8,
    count: u64,
    step: u64,
    out: &mut Vec<(u64, u64)>,
    Ghost(m): Ghost<RebaseMachine>,
)
    requires
        seg < segs@.len(),
        m.seg == seg as int,
        m.ty == ty,
        m.off == *old(off),
        m.out == old(out)@,
    ensures
        rebase_times(m, base, slide, segs@, count as nat, step) == (RebaseMachine {
            off: *final(off),
            out: final(out)@,
            ..m
        }),
{
    let mut k: u64 = 0;
    while k < count
        invariant
            k <= count,
            seg < segs@.len(),
            m.seg == seg as int,
            m.ty == ty,
            rebase_times(m, base, slide, segs@, count as nat, step) == rebase_times(
                RebaseMachine { off: *off, out: out@, ..m },
                base,
                slide,
                segs@,
                (count - k) as nat,
                step,
            ),
        decreases count - k,
    {
        assert(rebase_times(RebaseMachine { off: *off, out: out@, ..m }, base, slide, segs@, (count - k) as nat, step)
            == rebase_times(
            RebaseMachine {
                off: wadd(*off, step),
                out: out@ + rebase_at(base, slide, segs@, seg as int, *off, ty),
                ..m
            },
            base,
            slide,
            segs@,
            (count - k - 1) as nat,
            step,
        ));
        let ghost before = out@;
        let addr = base.wrapping_add(segs[seg].0).wrapping_add(*off);
        if ty == REBASE_TYPE_POINTER {
            out.push((addr, addr.wrapping_add(slide)));
        }
        assert(out@ =~= before + rebase_at(base, slide, segs@, seg as int, *off, ty));
        *off = off.wrapping_add(step);
        k = k + 1;
    }
}

/// Run a rebase stream from its start and collect its writes.
#[verifier::rlimit(50)]
fn run_rebase_stream(d: &[u8], base: u64, slide: u64, segs: &Vec<(u64, u64, u64, u64)>) -> (out: Vec<(u64, u64)>)
    ensures
        out@ == stream_rebases(d@, base, slide, segs@),
{
    let ghost s = d@;
    let ghost sg = segs@;
    let mut pos: usize = 0;
    let mut seg: usize = 0;
    let mut off: u64 = 0;
    let mut ty: u8 = REBASE_TYPE_POINTER;
    let mut out: Vec<(u64, u64)> = Vec::new();
    let ghost mut fuel: nat = s.len();
    proof {
        assert(out@ =~= Seq::<(u64, u64)>::empty());
    }
    while pos < d.len()
        invariant
            s == d@,
            sg == segs@,
            fuel + pos >= s.len(),
            rebase_run(s, rebase_start(), base, slide, sg, s.len()) == rebase_run(
                s,
                RebaseMachine { pos: pos as int, seg: seg as int, off, ty, out: out@, stop: false },
                base,
                slide,
                sg,
                fuel,
            ),
        decreases fuel,
    {
        let ghost m = RebaseMachine { pos: pos as int, seg: seg as int, off, ty, out: out@, stop: false };
        let ghost f1 = (fuel - 1) as nat;
        assert(rebase_run(s, m, base, slide, sg, fuel) == rebase_run(s, rebase_step(s, m, base, slide, sg), base, slide, sg, f1));
        let b = d[pos];
        let op = b & 0xF0u8;
        let imm = b & 0x0Fu8;
        let p = pos + 1;
        let valid = seg < segs.len();
        proof {
            lemma_uleb_pos(s, p as int, 0, 0);
            lemma_uleb_le(s, p as int, 0, 0);
        }
        if op == 0x00 {
            return out;
        } else if op == 0x10 {
            ty = imm;
            pos = p;
        } else if op == 0x30 {
            off = off.wrapping_add(imm as u64);
            pos = p;
        } else if op == 0x50 {
            pos = p;
            if valid {
                push_rebases(base, slide, segs, seg, &mut off, ty, imm as u64, 8, &mut out, Ghost(RebaseMachine { pos: pos as int, ..m }));
            }
        } else if op == 0x20 || op == 0x40 || op == 0x60 || op == 0x80 || (op == 0x70 && valid) {
            if !leb_fits(d, p) {
                return out;
            }
            let mut q = p;
            let v = read_uleb128(d, &mut q);
            if op == 0x20 {
                seg = imm as usize;
                off = v;
                pos = q;
            } else if op == 0x40 {
                off = off.wrapping_add(v);
                pos = q;
            } else if op == 0x60 {
                pos = q;
                if valid {
                    push_rebases(base, slide, segs, seg, &mut off, ty, v, 8, &mut out, Ghost(RebaseMachine { pos: pos as int, ..m }));
                }
            } else if op == 0x70 {
                let ghost before = out@;
                let addr = base.wrapping_add(segs[seg].0).wrapping_add(off);
                if ty == REBASE_TYPE_POINTER {
                    out.push((addr, addr.wrapping_add(slide)));
                }
                assert(out@ =~= before + rebase_at(base, slide, sg, seg as int, off, ty));
                off = off.wrapping_add(8u64.wrapping_add(v));
                pos = q;
            } else {
                if !leb_fits(d, q) {
                    return out;
                }
                proof {
                    lemma_uleb_pos(s, q as int, 0, 0);
                    lemma_uleb_le(s, q as int, 0, 0);
                }
                let mut q2 = q;
                let skip = read_uleb128(d, &mut q2);
                pos = q2;
                if valid {
                    push_rebases(
                        base,
                        slide,
                        segs,
                        seg,
                        &mut off,
                        ty,
                        v,
                        8u64.wrapping_add(skip),
                        &mut out,
                        Ghost(RebaseMachine { pos: pos as int, ..m }),
                    );
                }
            }
        } else {
            pos = p;
        }
        proof {
            fuel = f1;
        }
    }
    out
}

/// The pointer fixups a Mach-O image placed at `base` with slide `slide`
/// asks for, as (address, value) writes from its rebase stream: each pointer
/// slot is moved by the slide (modulo 2^64).
pub fn macho_rebases(data: &[u8], image: &MachoImage, base: u64, slide: u64) -> (w: Vec<(u64, u64)>)
    ensures
        w@ == spec_rebases(data@, image@, base, slide),
{
    match image.dyld_info {
        Some((roff, rsize, _, _, _, _)) => {
            let o = roff as usize;
            let n = rsize as usize;
            if n > 0 && o <= data.len() && n <= data.len() - o {
                let stream = &data[o..o + n];
                assert(stream@ == data@.subrange(roff as int, roff + rsize));
                run_rebase_stream(stream, base, slide, &image.segments)
            } else {
                Vec::new()
            }
        },
        None => Vec::new(),
    }
}

} // verus!
