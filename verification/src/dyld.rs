//! Dynamic linker core: the global symbol table, library base allocation and
//! the LEB128 decoders used by Mach-O bind and rebase opcodes.

use vstd::prelude::*;
use vstd::string::StringSliceAdditionalSpecFns;

verus! {

/// Base address for the first shared library in user address space (x86_64).
pub const LIB_BASE: u64 = 0x7FFF_F000_0000;

/// Gap between libraries (4 MiB alignment).
pub const LIB_ALIGN: u64 = 0x40_0000;

/// Maximum number of loaded shared libraries.
pub const MAX_LOADED_LIBS: usize = 64;

/// Base of the libc compatibility trampolines.
pub const LIBC_BASE: u64 = 0xFFFF_0000_0000_0000;

/// Library index of a built-in symbol, whose offset is an absolute address.
pub const BUILTIN: usize = usize::MAX;

/// A loaded shared library image.
#[derive(Debug)]
pub struct LoadedLib {
    /// Library name (e.g. "libc.so" or "/usr/lib/libSystem.dylib").
    pub name: String,
    /// Base virtual address where the library is mapped.
    pub base_addr: u64,
    /// Entry point (0 for shared libraries).
    pub entry: u64,
    /// Exported symbols: name, offset from base, type.
    pub exports: Vec<(String, u64, u8)>,
    /// Init array addresses.
    pub init_funcs: Vec<u64>,
    /// Whether the library needs lazy binding.
    pub has_lazy: bool,
}

/// State of all loaded libraries and the global symbol table.
pub struct DyldState {
    libs: Vec<LoadedLib>,
    next_base: u64,
    /// Symbol name, library index (`BUILTIN` for built-ins), offset.
    global_symbols: Vec<(String, usize, u64)>,
}

/// A symbol table entry as the specification sees it.
pub type SymEntry = (Seq<char>, usize, u64);

/// The first entry for `name` at or after `i`.
pub open spec fn lookup_from(t: Seq<SymEntry>, name: Seq<char>, i: int) -> Option<(usize, u64)>
    decreases t.len() - i,
{
    if i < 0 || i >= t.len() {
        None
    } else if t[i].0 == name {
        Some((t[i].1, t[i].2))
    } else {
        lookup_from(t, name, i + 1)
    }
}

/// What the table says about `name`.
pub open spec fn lookup(t: Seq<SymEntry>, name: Seq<char>) -> Option<(usize, u64)> {
    lookup_from(t, name, 0)
}

/// The address `name` resolves to in `st` when it fits in 64 bits.
pub open spec fn resolved(st: DyldState, name: Seq<char>) -> Option<u64> {
    match lookup(st.symbols(), name) {
        Some((lib, off)) => if lib == BUILTIN {
            Some(off)
        } else if st.lib_base(lib as int) + off <= u64::MAX {
            Some((st.lib_base(lib as int) + off) as u64)
        } else {
            None
        },
        None => None,
    }
}

/// Index of the entry for `name` at or after `i`.
pub open spec fn index_from(t: Seq<SymEntry>, name: Seq<char>, i: int) -> Option<int>
    decreases t.len() - i,
{
    if i < 0 || i >= t.len() {
        None
    } else if t[i].0 == name {
        Some(i)
    } else {
        index_from(t, name, i + 1)
    }
}

/// The table after recording `name -> (lib, off)`: an existing entry is
/// replaced in place, a new name is appended.
pub open spec fn inserted(t: Seq<SymEntry>, name: Seq<char>, lib: usize, off: u64) -> Seq<SymEntry> {
    match index_from(t, name, 0) {
        Some(i) => t.update(i, (name, lib, off)),
        None => t.push((name, lib, off)),
    }
}

/// The table after registering each `(name, address)` of `syms` in order as
/// a built-in.
pub open spec fn inserted_all(t: Seq<SymEntry>, syms: Seq<(Seq<char>, u64)>) -> Seq<SymEntry>
    decreases syms.len(),
{
    if syms.len() == 0 {
        t
    } else {
        inserted_all(inserted(t, syms[0].0, BUILTIN, syms[0].1), syms.drop_first())
    }
}

/// The libc symbols and their trampoline addresses.
pub open spec fn libc_table() -> Seq<(Seq<char>, u64)> {
    seq![
        ("_malloc"@, LIBC_BASE | 0x01),
        ("_free"@, LIBC_BASE | 0x02),
        ("_printf"@, LIBC_BASE | 0x03),
        ("_strlen"@, LIBC_BASE | 0x04),
        ("_memcpy"@, LIBC_BASE | 0x05),
        ("_memset"@, LIBC_BASE | 0x06),
        ("_exit"@, LIBC_BASE | 0x07),
        ("_write"@, LIBC_BASE | 0x08),
        ("_read"@, LIBC_BASE | 0x09),
        ("_open"@, LIBC_BASE | 0x0A),
        ("_close"@, LIBC_BASE | 0x0B),
        ("_mmap"@, LIBC_BASE | 0x0C),
        ("_munmap"@, LIBC_BASE | 0x0D),
        ("_NSLog"@, LIBC_BASE | 0x0E),
        ("_pthread_create"@, LIBC_BASE | 0x0F),
        ("_pthread_exit"@, LIBC_BASE | 0x10),
        ("_dlopen"@, LIBC_BASE | 0x11),
        ("_dlsym"@, LIBC_BASE | 0x12),
        ("_dlclose"@, LIBC_BASE | 0x13),
    ]
}

/// The table after recording each `(name, offset)` of `exports`, in order,
/// for library `lib`.
pub open spec fn registered(t: Seq<SymEntry>, exports: Seq<(Seq<char>, u64, u8)>, lib: usize) -> Seq<SymEntry>
    decreases exports.len(),
{
    if exports.len() == 0 {
        t
    } else {
        registered(inserted(t, exports[0].0, lib, exports[0].1), exports.drop_first(), lib)
    }
}

/// Every entry of `t` is a built-in or names one of the first `n` libraries.
pub open spec fn libs_below(t: Seq<SymEntry>, n: int) -> bool {
    forall|i: int| 0 <= i < t.len() ==> (#[trigger] t[i]).1 == BUILTIN || t[i].1 < n
}

proof fn lemma_inserted_libs_below(t: Seq<SymEntry>, name: Seq<char>, lib: usize, off: u64, n: int)
    requires
        libs_below(t, n),
        lib == BUILTIN || lib < n,
    ensures
        libs_below(inserted(t, name, lib, off), n),
{
    lemma_index_from(t, name, 0);
}

impl LoadedLib {
    /// The exported symbols: name, offset from the base, type.
    pub open spec fn export_table(&self) -> Seq<(Seq<char>, u64, u8)> {
        Seq::new(self.exports@.len(), |i: int| (self.exports@[i].0@, self.exports@[i].1, self.exports@[i].2))
    }
}

/// Record `name -> (lib, off)` in a symbol table: an existing entry is
/// replaced in place, a new name is appended.
fn table_insert(table: &mut Vec<(String, usize, u64)>, name: String, lib: usize, off: u64)
    ensures
        sym_view(final(table)@) == inserted(sym_view(old(table)@), name@, lib, off),
{
    let ghost t = sym_view(table@);
    proof {
        lemma_index_from(t, name@, 0);
    }
    let mut i: usize = 0;
    while i < table.len()
        invariant
            i <= table@.len(),
            t == sym_view(table@),
            t == sym_view(old(table)@),
            index_from(t, name@, 0) == index_from(t, name@, i as int),
        decreases table.len() - i,
    {
        if table[i].0 == name {
            let ghost key = name@;
            table.set(i, (name, lib, off));
            assert(sym_view(table@) =~= t.update(i as int, (key, lib, off)));
            return;
        }
        i = i + 1;
    }
    let ghost key = name@;
    table.push((name, lib, off));
    assert(sym_view(table@) =~= t.push((key, lib, off)));
}

/// A symbol table as the specification sees it.
pub open spec fn sym_view(v: Seq<(String, usize, u64)>) -> Seq<SymEntry> {
    Seq::new(v.len(), |i: int| (v[i].0@, v[i].1, v[i].2))
}

proof fn lemma_index_from(t: Seq<SymEntry>, name: Seq<char>, i: int)
    requires
        0 <= i,
    ensures
        index_from(t, name, i) matches Some(k) ==> i <= k < t.len() && t[k].0 == name && lookup_from(t, name, i)
            == Some((t[k].1, t[k].2)),
        index_from(t, name, i) is None ==> lookup_from(t, name, i) is None && forall|k: int|
            i <= k < t.len() ==> #[trigger] t[k].0 != name,
    decreases t.len() - i,
{
    if i < t.len() && t[i].0 != name {
        lemma_index_from(t, name, i + 1);
    }
}

/// Two tables agree on `other` from `j` on when they name it at the same
/// places with the same values, and the longer one has nothing more for it.
proof fn lemma_lookup_agree(t: Seq<SymEntry>, t2: Seq<SymEntry>, other: Seq<char>, j: int)
    requires
        0 <= j,
        t.len() <= t2.len(),
        forall|k: int| j <= k < t.len() ==> ((#[trigger] t2[k]).0 == other <==> t[k].0 == other),
        forall|k: int| j <= k < t.len() && t[k].0 == other ==> #[trigger] t2[k] == t[k],
        forall|k: int| t.len() <= k < t2.len() ==> (#[trigger] t2[k]).0 != other,
    ensures
        lookup_from(t2, other, j) == lookup_from(t, other, j),
    decreases t2.len() - j,
{
    if j < t2.len() {
        lemma_lookup_agree(t, t2, other, j + 1);
        if j < t.len() && t[j].0 == other {
            assert(t2[j] == t[j]);
        }
    }
}

/// The lookup finds the first entry for the name.
proof fn lemma_lookup_first(t: Seq<SymEntry>, name: Seq<char>, j: int, i: int)
    requires
        0 <= j <= i < t.len(),
        t[i].0 == name,
        forall|k: int| j <= k < i ==> (#[trigger] t[k]).0 != name,
    ensures
        lookup_from(t, name, j) == Some((t[i].1, t[i].2)),
    decreases i - j,
{
    if j < i {
        lemma_lookup_first(t, name, j + 1, i);
    }
}

/// Looking a name up after recording it gives what was recorded; other
/// names are unaffected.
pub proof fn lookup_inserted(t: Seq<SymEntry>, name: Seq<char>, lib: usize, off: u64, other: Seq<char>)
    ensures
        lookup(inserted(t, name, lib, off), name) == Some((lib, off)),
        other != name ==> lookup(inserted(t, name, lib, off), other) == lookup(t, other),
{
    lemma_index_from(t, name, 0);
    let t2 = inserted(t, name, lib, off);
    match index_from(t, name, 0) {
        Some(i) => {
            lemma_first_index(t, name, 0);
            lemma_lookup_first(t2, name, 0, i);
        },
        None => {
            lemma_lookup_first(t2, name, 0, t.len() as int);
        },
    }
    if other != name {
        lemma_lookup_agree(t, t2, other, 0);
    }
}

/// An entry found in a table whose entries name only built-ins and the first
/// `n` libraries names one of those.
proof fn lemma_lookup_lib(t: Seq<SymEntry>, name: Seq<char>, i: int, n: int)
    requires
        forall|k: int| 0 <= k < t.len() ==> (#[trigger] t[k]).1 == BUILTIN || t[k].1 < n,
    ensures
        lookup_from(t, name, i) matches Some((lib, _)) ==> lib == BUILTIN || lib < n,
    decreases t.len() - i,
{
    if 0 <= i < t.len() && t[i].0 != name {
        lemma_lookup_lib(t, name, i + 1, n);
    }
}

/// After a built-in is recorded, its name resolves to its address and every
/// other name resolves as before.
proof fn lemma_register_resolves(before: DyldState, after: DyldState, name: Seq<char>, addr: u64)
    requires
        before.wf(),
        after.symbols() == inserted(before.symbols(), name, BUILTIN, addr),
        after.spec_lib_count() == before.spec_lib_count(),
        forall|i: int| 0 <= i < before.spec_lib_count() ==> after.lib_base(i) == before.lib_base(i),
    ensures
        resolved(after, name) == Some(addr),
        forall|other: Seq<char>| other != name ==> #[trigger] resolved(after, other) == resolved(before, other),
{
    lookup_inserted(before.symbols(), name, BUILTIN, addr, name);
    assert forall|other: Seq<char>| other != name implies #[trigger] resolved(after, other) == resolved(before, other) by {
        lookup_inserted(before.symbols(), name, BUILTIN, addr, other);
        lemma_lookup_lib(before.symbols(), other, 0, before.spec_lib_count() as int);
    }
}

/// Nothing before the first entry for a name carries it.
proof fn lemma_first_index(t: Seq<SymEntry>, name: Seq<char>, j: int)
    requires
        0 <= j,
    ensures
        index_from(t, name, j) matches Some(i) ==> forall|k: int| j <= k < i ==> (#[trigger] t[k]).0 != name,
    decreases t.len() - j,
{
    if j < t.len() && t[j].0 != name {
        lemma_first_index(t, name, j + 1);
    }
}

impl DyldState {
    /// The symbol table, in insertion order.
    pub closed spec fn symbols(&self) -> Seq<SymEntry> {
        sym_view(self.global_symbols@)
    }

    /// The library loaded at position `i`.
    pub closed spec fn lib_at(&self, i: int) -> LoadedLib {
        self.libs@[i]
    }

    pub closed spec fn spec_lib_count(&self) -> nat {
        self.libs@.len()
    }

    pub closed spec fn lib_base(&self, i: int) -> u64 {
        self.libs@[i].base_addr
    }

    pub closed spec fn spec_next_base(&self) -> u64 {
        self.next_base
    }

    /// Every symbol is a built-in or names a loaded library.
    pub open spec fn wf(&self) -> bool {
        forall|i: int|
            0 <= i < self.symbols().len() ==> (#[trigger] self.symbols()[i]).1 == BUILTIN || self.symbols()[i].1
                < self.spec_lib_count()
    }

    /// The address `name` resolves to fits in 64 bits.
    pub open spec fn resolves_in_range(&self, name: Seq<char>) -> bool {
        match lookup(self.symbols(), name) {
            Some((lib, off)) => lib == BUILTIN || self.lib_base(lib as int) + off <= u64::MAX,
            None => true,
        }
    }

    /// No libraries, no symbols; libraries start at `LIB_BASE`.
    pub fn new() -> (s: DyldState)
        ensures
            s.wf(),
            s.symbols() == Seq::<SymEntry>::empty(),
            s.spec_lib_count() == 0,
            s.spec_next_base() == LIB_BASE,
    {
        let s = DyldState { libs: Vec::new(), next_base: LIB_BASE, global_symbols: Vec::new() };
        assert(s.symbols() =~= Seq::<SymEntry>::empty());
        s
    }

    /// Register a built-in symbol at an absolute address.
    pub fn register_builtin(&mut self, name: &str, addr: u64)
        requires
            old(self).wf(),
        ensures
            final(self).wf(),
            final(self).symbols() == inserted(old(self).symbols(), name@, BUILTIN, addr),
            final(self).spec_lib_count() == old(self).spec_lib_count(),
            forall|i: int| 0 <= i < old(self).spec_lib_count() ==> final(self).lib_base(i) == old(self).lib_base(i),
            final(self).spec_next_base() == old(self).spec_next_base(),
            resolved(*final(self), name@) == Some(addr),
            forall|other: Seq<char>| other != name@ ==> #[trigger] resolved(*final(self), other) == resolved(*old(self), other),
    {
        let ghost t = self.symbols();
        proof {
            lemma_index_from(t, name@, 0);
        }
        let key = name.to_owned();
        let mut i: usize = 0;
        while i < self.global_symbols.len()
            invariant
                i <= self.global_symbols@.len(),
                t == self.symbols(),
                t == old(self).symbols(),
                self.wf(),
                self.spec_lib_count() == old(self).spec_lib_count(),
                forall|k: int| 0 <= k < old(self).spec_lib_count() ==> self.lib_base(k) == old(self).lib_base(k),
                self.spec_next_base() == old(self).spec_next_base(),
                key@ == name@,
                index_from(t, name@, 0) == index_from(t, name@, i as int),
            decreases self.global_symbols.len() - i,
        {
            if self.global_symbols[i].0 == key {
                self.global_symbols.set(i, (key, BUILTIN, addr));
                assert(self.symbols() =~= t.update(i as int, (name@, BUILTIN, addr)));
                proof {
                    lemma_register_resolves(*old(self), *self, name@, addr);
                }
                return;
            }
            i = i + 1;
        }
        self.global_symbols.push((key, BUILTIN, addr));
        assert(self.symbols() =~= t.push((name@, BUILTIN, addr)));
        proof {
            lemma_register_resolves(*old(self), *self, name@, addr);
        }
    }

    /// Register every libc symbol as a built-in at its trampoline address.
    pub fn register_libc_symbols(&mut self)
        requires
            old(self).wf(),
        ensures
            final(self).wf(),
            final(self).symbols() == inserted_all(old(self).symbols(), libc_table()),
            final(self).spec_lib_count() == old(self).spec_lib_count(),
            forall|i: int| 0 <= i < old(self).spec_lib_count() ==> final(self).lib_base(i) == old(self).lib_base(i),
            final(self).spec_next_base() == old(self).spec_next_base(),
    {
        let syms: [(&str, u64); 19] = [
            ("_malloc", LIBC_BASE | 0x01),
            ("_free", LIBC_BASE | 0x02),
            ("_printf", LIBC_BASE | 0x03),
            ("_strlen", LIBC_BASE | 0x04),
            ("_memcpy", LIBC_BASE | 0x05),
            ("_memset", LIBC_BASE | 0x06),
            ("_exit", LIBC_BASE | 0x07),
            ("_write", LIBC_BASE | 0x08),
            ("_read", LIBC_BASE | 0x09),
            ("_open", LIBC_BASE | 0x0A),
            ("_close", LIBC_BASE | 0x0B),
            ("_mmap", LIBC_BASE | 0x0C),
            ("_munmap", LIBC_BASE | 0x0D),
            ("_NSLog", LIBC_BASE | 0x0E),
            ("_pthread_create", LIBC_BASE | 0x0F),
            ("_pthread_exit", LIBC_BASE | 0x10),
            ("_dlopen", LIBC_BASE | 0x11),
            ("_dlsym", LIBC_BASE | 0x12),
            ("_dlclose", LIBC_BASE | 0x13),
        ];
        let ghost table = Seq::new(19, |i: int| (syms@[i].0@, syms@[i].1));
        assert(table =~= libc_table());
        let ghost t0 = self.symbols();
        let ghost n0 = self.spec_lib_count();
        let ghost old_self = *self;
        let mut i: usize = 0;
        assert(table.subrange(0, 19) =~= table);
        while i < 19
            invariant
                i <= 19,
                self.wf(),
                table == Seq::new(19, |k: int| (syms@[k].0@, syms@[k].1)),
                inserted_all(t0, table) == inserted_all(self.symbols(), table.subrange(i as int, 19)),
                self.spec_lib_count() == n0,
                forall|k: int| 0 <= k < n0 ==> self.lib_base(k) == old_self.lib_base(k),
                self.spec_next_base() == old_self.spec_next_base(),
            decreases 19 - i,
        {
            proof {
                assert(table.subrange(i as int, 19).drop_first() =~= table.subrange(i + 1, 19));
            }
            let (name, addr) = syms[i];
            self.register_builtin(name, addr);
            i = i + 1;
        }
        assert(table.subrange(0, 19) =~= table);
        assert(table.subrange(19, 19) =~= Seq::<(Seq<char>, u64)>::empty());
    }

    /// The address of `name`: a built-in's own address, or its library's
    /// base plus its offset.
    pub fn resolve_symbol(&self, name: &str) -> (r: Option<u64>)
        requires
            self.wf(),
            self.resolves_in_range(name@),
        ensures
            match lookup(self.symbols(), name@) {
                Some((lib, off)) => r == Some(if lib == BUILTIN { off } else { (self.lib_base(lib as int) + off) as u64 }),
                None => r is None,
            },
    {
        let ghost t = self.symbols();
        proof {
            lemma_index_from(t, name@, 0);
        }
        let key = name.to_owned();
        let mut i: usize = 0;
        while i < self.global_symbols.len()
            invariant
                i <= self.global_symbols@.len(),
                t == self.symbols(),
                self.wf(),
                key@ == name@,
                lookup(t, name@) == lookup_from(t, name@, i as int),
                self.resolves_in_range(name@),
            decreases self.global_symbols.len() - i,
        {
            if self.global_symbols[i].0 == key {
                let lib_idx = self.global_symbols[i].1;
                let offset = self.global_symbols[i].2;
                assert(t[i as int].1 == lib_idx);
                if lib_idx == BUILTIN {
                    return Some(offset);
                }
                let lib = &self.libs[lib_idx];
                return Some(lib.base_addr + offset);
            }
            i = i + 1;
        }
        None
    }

    /// The address of `name` like `resolve_symbol`, but `None` where that
    /// address would not fit in 64 bits.
    pub fn resolve_symbol_checked(&self, name: &str) -> (r: Option<u64>)
        requires
            self.wf(),
        ensures
            match lookup(self.symbols(), name@) {
                Some((lib, off)) => r == if lib == BUILTIN {
                    Some(off)
                } else if self.lib_base(lib as int) + off <= u64::MAX {
                    Some((self.lib_base(lib as int) + off) as u64)
                } else {
                    None::<u64>
                },
                None => r is None,
            },
            self.resolves_in_range(name@) ==> r == (match lookup(self.symbols(), name@) {
                Some((lib, off)) => Some(if lib == BUILTIN { off } else { (self.lib_base(lib as int) + off) as u64 }),
                None => None::<u64>,
            }),
    {
        let ghost t = self.symbols();
        proof {
            lemma_index_from(t, name@, 0);
        }
        let key = name.to_owned();
        let mut i: usize = 0;
        while i < self.global_symbols.len()
            invariant
                i <= self.global_symbols@.len(),
                t == self.symbols(),
                self.wf(),
                key@ == name@,
                lookup(t, name@) == lookup_from(t, name@, i as int),
            decreases self.global_symbols.len() - i,
        {
            if self.global_symbols[i].0 == key {
                let lib_idx = self.global_symbols[i].1;
                let offset = self.global_symbols[i].2;
                assert(t[i as int].1 == lib_idx);
                if lib_idx == BUILTIN {
                    return Some(offset);
                }
                let lib = &self.libs[lib_idx];
                return lib.base_addr.checked_add(offset);
            }
            i = i + 1;
        }
        None
    }

    /// Number of loaded libraries.
    pub fn lib_count(&self) -> (n: usize)
        ensures
            n == self.spec_lib_count(),
    {
        self.libs.len()
    }

    /// The library loaded at position `idx`.
    pub fn get_lib(&self, idx: usize) -> (r: Option<&LoadedLib>)
        ensures
            r is Some <==> idx < self.spec_lib_count(),
            r matches Some(lib) ==> lib.base_addr == self.lib_base(idx as int) && *lib == self.lib_at(idx as int),
    {
        if idx < self.libs.len() {
            Some(&self.libs[idx])
        } else {
            None
        }
    }

    /// Load a library into the state: it takes the next position, and each
    /// of its exports is recorded in the symbol table under that position.
    pub fn add_library(&mut self, lib: LoadedLib) -> (idx: usize)
        requires
            old(self).wf(),
            old(self).spec_lib_count() < BUILTIN,
        ensures
            final(self).wf(),
            idx == old(self).spec_lib_count(),
            final(self).spec_lib_count() == old(self).spec_lib_count() + 1,
            final(self).lib_at(idx as int) == lib,
            final(self).lib_base(idx as int) == lib.base_addr,
            forall|i: int| 0 <= i < old(self).spec_lib_count() ==> #[trigger] final(self).lib_at(i) == old(self).lib_at(i)
                && final(self).lib_base(i) == old(self).lib_base(i),
            final(self).symbols() == registered(old(self).symbols(), lib.export_table(), idx),
            final(self).spec_next_base() == old(self).spec_next_base(),
    {
        let idx = self.libs.len();
        let ghost t0 = self.symbols();
        let ghost tab = lib.export_table();
        assert(tab.subrange(0, tab.len() as int) =~= tab);
        let mut k: usize = 0;
        while k < lib.exports.len()
            invariant
                k <= lib.exports@.len(),
                tab == lib.export_table(),
                idx == old(self).libs@.len(),
                self.libs@ == old(self).libs@,
                self.next_base == old(self).next_base,
                registered(t0, tab, idx) == registered(self.symbols(), tab.subrange(k as int, tab.len() as int), idx),
                libs_below(self.symbols(), idx + 1),
            decreases lib.exports.len() - k,
        {
            let key = lib.exports[k].0.clone();
            let off = lib.exports[k].1;
            proof {
                lemma_inserted_libs_below(self.symbols(), key@, idx, off, idx + 1);
                let rest = tab.subrange(k as int, tab.len() as int);
                assert(rest[0] == tab[k as int]);
                assert(rest.drop_first() =~= tab.subrange(k + 1, tab.len() as int));
            }
            table_insert(&mut self.global_symbols, key, idx, off);
            k = k + 1;
        }
        assert(tab.subrange(k as int, tab.len() as int) =~= Seq::<(Seq<char>, u64, u8)>::empty());
        self.libs.push(lib);
        assert(self.libs@[idx as int] == lib);
        idx
    }

    /// Where the next library will be placed.
    pub fn next_base(&self) -> (b: u64)
        ensures
            b == self.spec_next_base(),
    {
        self.next_base
    }

    /// Reserve address space for a library of `size` bytes, rounded up to
    /// `LIB_ALIGN`; returns its base.
    pub fn allocate_base(&mut self, size: u64) -> (base: u64)
        requires
            size + LIB_ALIGN <= u64::MAX,
            old(self).spec_next_base() + (((size + LIB_ALIGN - 1) as u64) & !((LIB_ALIGN - 1) as u64)) <= u64::MAX,
        ensures
            base == old(self).spec_next_base(),
            final(self).spec_next_base() == old(self).spec_next_base() + (((size + LIB_ALIGN - 1) as u64) & !(
            (LIB_ALIGN - 1) as u64)),
            final(self).symbols() == old(self).symbols(),
            final(self).spec_lib_count() == old(self).spec_lib_count(),
            forall|i: int| 0 <= i < old(self).spec_lib_count() ==> final(self).lib_base(i) == old(self).lib_base(i),
            forall|i: int| 0 <= i < old(self).spec_lib_count() ==> #[trigger] final(self).lib_at(i) == old(self).lib_at(i),
    {
        let base = self.next_base;
        let aligned_size = (size + LIB_ALIGN - 1) & !(LIB_ALIGN - 1);
        self.next_base = self.next_base + aligned_size;
        base
    }
}

/// `core::str` equality: two string slices are equal when their characters are.
#[verifier::external_body]
fn str_eq(a: &str, b: &str) -> (r: bool)
    ensures
        r == (a@ == b@),
{
    a == b
}

/// The names the legacy resolver knows.
pub open spec fn legacy_known(name: Seq<char>) -> bool {
    name == "_printf"@ || name == "_NSLog"@ || name == "_malloc"@ || name == "_free"@ || name
        == "_pthread_create"@ || name == "_strlen"@ || name == "_memcpy"@ || name == "_memset"@ || name
        == "_exit"@
}

/// Legacy resolver: a known libc name maps to the trampoline base combined
/// with the name's first byte.
pub fn resolve_symbol(lib: &str, name: &str) -> (r: Option<u64>)
    ensures
        legacy_known(name@) ==> r == Some(LIBC_BASE | name.spec_bytes()[0] as u64),
        !legacy_known(name@) ==> r is None,
{
    let known: [&str; 9] = [
        "_printf",
        "_NSLog",
        "_malloc",
        "_free",
        "_pthread_create",
        "_strlen",
        "_memcpy",
        "_memset",
        "_exit",
    ];
    let mut i: usize = 0;
    let mut found = false;
    while i < 9
        invariant
            i <= 9,
            found == exists|k: int| 0 <= k < i && #[trigger] known@[k]@ == name@,
        decreases 9 - i,
    {
        if str_eq(known[i], name) {
            found = true;
        }
        i = i + 1;
    }
    assert(found == legacy_known(name@)) by {
        if legacy_known(name@) {
            if name@ == "_printf"@ { assert(known@[0]@ == name@); }
            if name@ == "_NSLog"@ { assert(known@[1]@ == name@); }
            if name@ == "_malloc"@ { assert(known@[2]@ == name@); }
            if name@ == "_free"@ { assert(known@[3]@ == name@); }
            if name@ == "_pthread_create"@ { assert(known@[4]@ == name@); }
            if name@ == "_strlen"@ { assert(known@[5]@ == name@); }
            if name@ == "_memcpy"@ { assert(known@[6]@ == name@); }
            if name@ == "_memset"@ { assert(known@[7]@ == name@); }
            if name@ == "_exit"@ { assert(known@[8]@ == name@); }
        }
    }
    if found {
        proof {
            reveal_strlit("_printf");
            reveal_strlit("_NSLog");
            reveal_strlit("_malloc");
            reveal_strlit("_free");
            reveal_strlit("_pthread_create");
            reveal_strlit("_strlen");
            reveal_strlit("_memcpy");
            reveal_strlit("_memset");
            reveal_strlit("_exit");
        }
        let bytes = name.as_bytes();
        Some(LIBC_BASE | bytes[0] as u64)
    } else {
        None
    }
}

/// Entry of a dynamic Mach-O: the linker state is prepared with the libc
/// built-ins (binding itself happens when the image is loaded).
pub fn run_dyld_stub(entry: u64, base: u64, bind_data: &[u8]) -> (state: DyldState)
    ensures
        state.wf(),
        state.symbols() == inserted_all(Seq::empty(), libc_table()),
        state.spec_lib_count() == 0,
{
    let mut state = DyldState::new();
    state.register_libc_symbols();
    state
}

/// The value of an unsigned LEB128 number starting at `pos` whose digits so
/// far accumulate to `acc` at bit `shift`, and the position after it.
pub open spec fn uleb_from(data: Seq<u8>, pos: int, acc: u64, shift: u32) -> (u64, int)
    decreases data.len() - pos,
{
    if pos < 0 || pos >= data.len() {
        (acc, pos)
    } else {
        let byte = data[pos];
        let acc2 = acc | (((byte & 0x7F) as u64) << (shift as u64));
        if byte & 0x80 == 0 {
            (acc2, pos + 1)
        } else {
            uleb_from(data, pos + 1, acc2, (shift + 7) as u32)
        }
    }
}

/// Bytes an LEB128 number at `pos` occupies (up to the end of the data).
pub open spec fn leb_len(data: Seq<u8>, pos: int) -> int
    decreases data.len() - pos,
{
    if pos < 0 || pos >= data.len() {
        0
    } else if data[pos] & 0x80 == 0 {
        1
    } else {
        1 + leb_len(data, pos + 1)
    }
}

pub(crate) proof fn lemma_leb_len(data: Seq<u8>, pos: int)
    ensures
        leb_len(data, pos) >= 0,
        0 <= pos < data.len() ==> leb_len(data, pos) >= 1,
    decreases data.len() - pos,
{
    if 0 <= pos < data.len() && data[pos] & 0x80 != 0 {
        lemma_leb_len(data, pos + 1);
    }
}

/// Decode an unsigned LEB128 number at `*pos`, advancing past it.
pub fn read_uleb128(data: &[u8], pos: &mut usize) -> (r: u64)
    requires
        leb_len(data@, *old(pos) as int) <= 10,
    ensures
        (r, *final(pos) as int) == uleb_from(data@, *old(pos) as int, 0, 0),
{
    let ghost p0 = *pos as int;
    let mut result: u64 = 0;
    let mut shift: u32 = 0;
    let mut done = false;
    while !done && *pos < data.len()
        invariant
            *pos <= data@.len() || (*pos as int == p0 && p0 > data@.len()),
            shift == 7 * (*pos as int - p0) || done,
            !done ==> leb_len(data@, *pos as int) + (*pos as int - p0) <= 10 && uleb_from(data@, p0, 0, 0)
                == uleb_from(data@, *pos as int, result, shift),
            done ==> uleb_from(data@, p0, 0, 0) == (result, *pos as int),
            *pos as int >= p0,
        decreases data@.len() - *pos + (if done { 0int } else { 1int }),
    {
        proof {
            lemma_leb_len(data@, *pos as int);
            lemma_leb_len(data@, *pos + 1);
        }
        let byte = data[*pos];
        *pos = *pos + 1;
        result = result | (((byte & 0x7F) as u64) << (shift as u64));
        if byte & 0x80 == 0 {
            done = true;
        } else {
            shift = shift + 7;
        }
    }
    result
}

/// The value of a signed LEB128 number at `pos` with digits so far `acc`
/// up to bit `shift` (last byte `last`), and the position after it.
pub open spec fn sleb_from(data: Seq<u8>, pos: int, acc: i64, shift: u32, last: u8) -> (i64, int)
    decreases data.len() - pos,
{
    if pos < 0 || pos >= data.len() {
        (sign_extended(acc, shift, last), pos)
    } else {
        let byte = data[pos];
        let acc2 = acc | (((byte & 0x7F) as i64) << (shift as i64));
        if byte & 0x80 == 0 {
            (sign_extended(acc2, (shift + 7) as u32, byte), pos + 1)
        } else {
            sleb_from(data, pos + 1, acc2, (shift + 7) as u32, byte)
        }
    }
}

/// Fill the bits above `shift` with ones when the last byte's sign bit is set.
pub open spec fn sign_extended(v: i64, shift: u32, last: u8) -> i64 {
    if shift < 64 && last & 0x40 != 0 {
        v | (!0i64 << (shift as i64))
    } else {
        v
    }
}

/// Decode a signed LEB128 number at `*pos`, advancing past it.
pub fn read_sleb128(data: &[u8], pos: &mut usize) -> (r: i64)
    requires
        leb_len(data@, *old(pos) as int) <= 10,
    ensures
        (r, *final(pos) as int) == sleb_from(data@, *old(pos) as int, 0, 0, 0),
{
    let ghost p0 = *pos as int;
    let mut result: i64 = 0;
    let mut shift: u32 = 0;
    let mut byte: u8 = 0;
    let mut done = false;
    while !done && *pos < data.len()
        invariant
            *pos <= data@.len() || (*pos as int == p0 && p0 > data@.len()),
            shift == 7 * (*pos as int - p0),
            !done ==> leb_len(data@, *pos as int) + (*pos as int - p0) <= 10 && sleb_from(data@, p0, 0, 0, 0)
                == sleb_from(data@, *pos as int, result, shift, byte),
            done ==> sleb_from(data@, p0, 0, 0, 0) == (sign_extended(result, shift, byte), *pos as int),
            *pos as int >= p0,
        decreases data@.len() - *pos + (if done { 0int } else { 1int }),
    {
        proof {
            lemma_leb_len(data@, *pos as int);
            lemma_leb_len(data@, *pos + 1);
        }
        byte = data[*pos];
        *pos = *pos + 1;
        result = result | (((byte & 0x7F) as i64) << (shift as i64));
        shift = shift + 7;
        if byte & 0x80 == 0 {
            done = true;
        }
    }
    if shift < 64 && (byte & 0x40) != 0 {
        result = result | (!0i64 << (shift as i64));
    }
    result
}

} // verus!
