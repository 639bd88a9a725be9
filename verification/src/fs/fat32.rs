//! FAT32 file system driver (read-only), over a disk image in memory.
//!
//! The volume's geometry comes from the BIOS parameter block of its boot
//! sector. Directories and files are chains of clusters linked through the
//! file allocation table (FAT); directory records are 32 bytes, with VFAT
//! long-file-name (LFN) records before the short record they name.
//!
//! Every read is specified over the disk bytes. Where the disk is malformed
//! (a sector past its end, a cluster number below 2, a chain longer than the
//! FAT has entries, a zero sector size) the driver reports `IoError`.

use vstd::prelude::*;
use vstd::string::{StrSliceExecFns, StringExecFns};
use crate::bytes::{le16, le32, read_u16, read_u32};
use crate::fs::{FsError, FileType, DirEntry, FileHandle, FileSystem, Vfs};

verus! {

/// Offsets of the BIOS parameter block fields in the boot sector.
pub const BPB_BYTS_PER_SEC: usize = 0xB;
pub const BPB_SEC_PER_CLUS: usize = 0xD;
pub const BPB_RSVD_SEC_CNT: usize = 0xE;
pub const BPB_NUM_FATS: usize = 0x10;
pub const BPB_FAT_SZ32: usize = 0x24;
pub const BPB_ROOT_CLUS: usize = 0x2C;

pub const ATTR_READ_ONLY: u8 = 0x01;
pub const ATTR_HIDDEN: u8 = 0x02;
pub const ATTR_SYSTEM: u8 = 0x04;
pub const ATTR_VOLUME_ID: u8 = 0x08;
pub const ATTR_DIRECTORY: u8 = 0x10;
pub const ATTR_LFN: u8 = ATTR_READ_ONLY | ATTR_HIDDEN | ATTR_SYSTEM | ATTR_VOLUME_ID;

/// FAT entries at or above this mark the end of a chain.
pub const END_OF_CHAIN: u32 = 0x0FFF_FFF8;

/// Size of a directory record.
pub const DIR_ENTRY_SIZE: usize = 32;

/// A mounted FAT32 volume: the disk and the geometry read from its boot sector.
pub struct Fat32Fs<'a> {
    /// The whole volume, from its boot sector on.
    pub disk: &'a [u8],
    pub boot_sector: [u8; 512],
    pub bytes_per_sec: u16,
    pub sec_per_clus: u8,
    pub rsvd_sec_cnt: u16,
    pub num_fats: u8,
    pub fat_sz: u32,
    pub root_clus: u32,
}

/// A raw 32-byte directory record.
#[derive(Clone, Copy, Debug)]
pub struct RawDirEntry {
    pub bytes: [u8; 32],
}

/// The first cluster of the file a record describes: its high and low halves.
pub open spec fn first_cluster_of(rec: Seq<u8>) -> u32 {
    (le16(rec, 26) + 65536 * le16(rec, 20)) as u32
}

impl RawDirEntry {
    pub fn attr(&self) -> (a: u8)
        ensures
            a == self.bytes@[11],
    {
        self.bytes[11]
    }

    /// File size in bytes.
    pub fn size(&self) -> (s: u32)
        ensures
            s as int == le32(self.bytes@, 28),
    {
        read_u32(&self.bytes, 28)
    }

    pub fn first_cluster(&self) -> (c: u32)
        ensures
            c == first_cluster_of(self.bytes@),
    {
        let lo = read_u16(&self.bytes, 26);
        let hi = read_u16(&self.bytes, 20);
        lo as u32 + hi as u32 * 65536
    }

    pub fn is_directory(&self) -> (d: bool)
        ensures
            d == (self.bytes@[11] & ATTR_DIRECTORY != 0),
    {
        self.bytes[11] & ATTR_DIRECTORY != 0
    }
}

impl<'a> Fat32Fs<'a> {
    /// First sector of the FAT: it follows the reserved sectors.
    pub open spec fn first_fat(self) -> int {
        self.rsvd_sec_cnt as int
    }

    /// First data sector: after the reserved sectors and the FATs.
    pub open spec fn first_data(self) -> int {
        self.rsvd_sec_cnt + self.num_fats * self.fat_sz
    }

    pub open spec fn bps(self) -> int {
        self.bytes_per_sec as int
    }

    /// Sector `s` lies on the disk.
    pub open spec fn sector_on_disk(self, s: int) -> bool {
        &&& self.bytes_per_sec > 0
        &&& 0 <= s
        &&& (s + 1) * self.bps() <= self.disk@.len()
    }

    /// First sector of cluster `c` (data clusters are numbered from 2).
    pub open spec fn cluster_sector(self, c: int) -> int {
        self.first_data() + (c - 2) * self.sec_per_clus
    }

    /// The FAT entry of cluster `c` (its low 28 bits), when its sector is on
    /// the disk and the entry within the sector.
    pub open spec fn fat_entry(self, c: int) -> Option<u32> {
        if self.bytes_per_sec == 0 {
            None
        } else {
            let s = self.first_fat() + (4 * c) / self.bps();
            let off = (4 * c) % self.bps();
            if self.sector_on_disk(s) && off + 4 <= self.bps() {
                Some((le32(self.disk@, s * self.bps() + off) % 0x1000_0000) as u32)
            } else {
                None
            }
        }
    }

    /// The longest chain the FAT can describe without a loop: one cluster per entry.
    pub open spec fn chain_limit(self) -> nat {
        (self.fat_sz * self.bytes_per_sec / 4) as nat
    }

    /// Read the geometry from a boot sector.
    pub fn new(boot_sector: [u8; 512], disk: &'a [u8]) -> (fs: Fat32Fs<'a>)
        ensures
            fs.disk@ == disk@,
            fs.boot_sector == boot_sector,
            fs.bytes_per_sec as int == le16(boot_sector@, BPB_BYTS_PER_SEC as int),
            fs.sec_per_clus == boot_sector@[BPB_SEC_PER_CLUS as int],
            fs.rsvd_sec_cnt as int == le16(boot_sector@, BPB_RSVD_SEC_CNT as int),
            fs.num_fats == boot_sector@[BPB_NUM_FATS as int],
            fs.fat_sz as int == le32(boot_sector@, BPB_FAT_SZ32 as int),
            fs.root_clus as int == le32(boot_sector@, BPB_ROOT_CLUS as int),
    {
        let bytes_per_sec = read_u16(&boot_sector, BPB_BYTS_PER_SEC);
        let sec_per_clus = boot_sector[BPB_SEC_PER_CLUS];
        let rsvd_sec_cnt = read_u16(&boot_sector, BPB_RSVD_SEC_CNT);
        let num_fats = boot_sector[BPB_NUM_FATS];
        let fat_sz = read_u32(&boot_sector, BPB_FAT_SZ32);
        let root_clus = read_u32(&boot_sector, BPB_ROOT_CLUS);
        Fat32Fs {
            disk,
            boot_sector,
            bytes_per_sec,
            sec_per_clus,
            rsvd_sec_cnt,
            num_fats,
            fat_sz,
            root_clus,
        }
    }

    /// Whether sector `s` lies on the disk.
    fn sector_readable(&self, s: u64) -> (r: bool)
        requires
            s < 0x8000_0000_0000,
        ensures
            r == self.sector_on_disk(s as int),
    {
        let bps = self.bytes_per_sec as u64;
        if bps == 0 {
            return false;
        }
        assert((s + 1) * bps <= 0x8000_0000_0000 * 0x1_0000u64) by (nonlinear_arith)
            requires s < 0x8000_0000_0000u64, bps <= 0xFFFF;
        (s + 1) * bps <= self.disk.len() as u64
    }

    /// First sector of cluster `c`.
    pub fn clus_to_sector(&self, cluster: u32) -> (s: u64)
        requires
            cluster >= 2,
        ensures
            s as int == self.cluster_sector(cluster as int),
            s < 0x400_0000_0000,
    {
        let d = (cluster - 2) as u64;
        let spc = self.sec_per_clus as u64;
        assert(d * spc <= 0xFFFF_FFFFu64 * 0xFF) by (nonlinear_arith)
            requires d <= 0xFFFF_FFFFu64, spc <= 0xFF;
        let nf = self.num_fats as u64;
        let fz = self.fat_sz as u64;
        assert(nf * fz <= 0xFFu64 * 0xFFFF_FFFFu64) by (nonlinear_arith)
            requires nf <= 0xFF, fz <= 0xFFFF_FFFFu64;
        self.rsvd_sec_cnt as u64 + nf * fz + d * spc
    }

    /// The next cluster of a chain: the FAT entry of `cluster`.
    pub fn get_next_cluster(&self, cluster: u32) -> (r: Result<u32, FsError>)
        ensures
            r == (match self.fat_entry(cluster as int) {
                Some(n) => Ok(n),
                None => Err(FsError::IoError),
            }),
    {
        if self.bytes_per_sec == 0 {
            return Err(FsError::IoError);
        }
        let bps = self.bytes_per_sec as u64;
        let c4 = cluster as u64 * 4;
        let sector = self.rsvd_sec_cnt as u64 + c4 / bps;
        let off = c4 % bps;
        if off + 4 > bps {
            return Err(FsError::IoError);
        }
        assert(c4 / bps <= c4) by (nonlinear_arith)
            requires bps >= 1, c4 >= 0;
        if !self.sector_readable(sector) {
            return Err(FsError::IoError);
        }
        assert(sector * bps + off + 4 <= (sector + 1) * bps) by (nonlinear_arith)
            requires off + 4 <= bps;
        assert((sector + 1) * bps <= self.disk@.len());
        assert(self.disk@.len() == self.disk.len());
        let base = sector * bps + off;
        let v = read_u32(self.disk, base as usize);
        let n = v & 0x0FFF_FFFF;
        assert(v & 0x0FFF_FFFF == v % 0x1000_0000) by (bit_vector);
        Ok(n)
    }
}

/// The characters UTF-16 code units encode, each unpaired surrogate
/// replaced by U+FFFD: a high surrogate followed by a low one is one
/// supplementary character; any other surrogate is a replacement character;
/// every other unit is the character with its value.
pub open spec fn utf16_lossy(units: Seq<u16>) -> Seq<char>
    decreases units.len(),
{
    if units.len() == 0 {
        Seq::empty()
    } else if 0xD800 <= units[0] <= 0xDBFF && units.len() >= 2 && 0xDC00 <= units[1] <= 0xDFFF {
        let c = 0x10000 + (units[0] - 0xD800) * 0x400 + (units[1] - 0xDC00);
        seq![c as char] + utf16_lossy(units.subrange(2, units.len() as int))
    } else if 0xD800 <= units[0] <= 0xDFFF {
        seq!['\u{FFFD}'] + utf16_lossy(units.drop_first())
    } else {
        seq![units[0] as char] + utf16_lossy(units.drop_first())
    }
}

/// `String::from_utf16_lossy`: the string the UTF-16 units `units` encode,
/// invalid units replaced by U+FFFD (as `utf16_lossy` states); units outside
/// the surrogate range each decode to the character with their value.
#[verifier::external_body]
fn decode_utf16_lossy(units: &[u16]) -> (s: String)
    ensures
        s@ == utf16_lossy(units@),
        (forall|i: int| 0 <= i < units@.len() ==> !(0xD800 <= #[trigger] units@[i] <= 0xDFFF)) ==> s@.len()
            == units@.len() && forall|i: int| 0 <= i < units@.len() ==> #[trigger] s@[i] as int == units@[i] as int,
{
    String::from_utf16_lossy(units)
}

/// `String: FromIterator<char>`: the string of the characters `chars`.
#[verifier::external_body]
fn string_of(chars: &[char]) -> (s: String)
    ensures
        s@ == chars@,
{
    chars.iter().collect()
}

/// State of a directory scan: the entries found so far, and the long name
/// collected from LFN records for the next short record.
pub struct DirScan {
    pub entries: Seq<(Seq<char>, Seq<u8>)>,
    pub lfn_name: Seq<char>,
    pub lfn_seq: u8,
}

pub open spec fn scan_start() -> DirScan {
    DirScan { entries: Seq::empty(), lfn_name: Seq::empty(), lfn_seq: 0 }
}

/// The lowercase of a Latin-1 character, as `str::to_lowercase` gives it:
/// A-Z and U+00C0..U+00DE but the multiplication sign move 32 up.
pub open spec fn latin1_lower(b: u8) -> char {
    if (65 <= b <= 90) || (0xC0 <= b <= 0xDE && b != 0xD7) {
        (b + 32) as char
    } else {
        b as char
    }
}

/// Length of an 8.3 name: the 11 name bytes up to the first space.
pub open spec fn short_len(rec: Seq<u8>, i: int) -> int
    decreases 11 - i,
{
    if i >= 11 || rec[i] == 32 {
        i
    } else {
        short_len(rec, i + 1)
    }
}

/// The name of a short record: its name bytes up to the first space, lowercased.
pub open spec fn short_name(rec: Seq<u8>) -> Seq<char> {
    Seq::new(short_len(rec, 0) as nat, |i: int| latin1_lower(rec[i]))
}

/// The UTF-16 units of one name field of an LFN record (`n` units from
/// `off`), up to the first unit whose low byte is 0xFF.
pub open spec fn part_units(rec: Seq<u8>, off: int, n: nat) -> Seq<u16>
    decreases n,
{
    if n == 0 || rec[off] == 0xFF {
        Seq::empty()
    } else {
        seq![le16(rec, off) as u16] + part_units(rec, off + 2, (n - 1) as nat)
    }
}

/// The UTF-16 units of an LFN record's three name fields.
pub open spec fn lfn_units(rec: Seq<u8>) -> Seq<u16> {
    part_units(rec, 1, 5) + part_units(rec, 14, 6) + part_units(rec, 28, 2)
}

/// One directory record: `None` ends the directory (first byte 0); deleted
/// records (0xE5) and volume labels are skipped; an LFN record continuing the
/// sequence puts its part of the name in front; any other record is an entry,
/// named by the collected long name or else its short name.
pub open spec fn record_step(st: DirScan, rec: Seq<u8>) -> Option<DirScan> {
    if rec[0] == 0 {
        None
    } else if rec[0] == 0xE5 {
        Some(st)
    } else if rec[11] == ATTR_LFN {
        let seq = rec[0] & 0x1F;
        if seq == st.lfn_seq + 1 || st.lfn_seq == 0 {
            Some(DirScan { lfn_seq: seq, lfn_name: utf16_lossy(lfn_units(rec)) + st.lfn_name, ..st })
        } else {
            Some(st)
        }
    } else if rec[11] & ATTR_VOLUME_ID == 0 {
        let name = if st.lfn_name.len() > 0 { st.lfn_name } else { short_name(rec) };
        Some(DirScan { entries: st.entries.push((name, rec)), lfn_name: Seq::empty(), ..st })
    } else {
        Some(st)
    }
}

/// Names and raw bytes of scanned entries.
pub open spec fn entries_view(v: Seq<(String, RawDirEntry)>) -> Seq<(Seq<char>, Seq<u8>)> {
    Seq::new(v.len(), |i: int| (v[i].0@, v[i].1.bytes@))
}

impl<'a> Fat32Fs<'a> {
    /// The 32-byte record at disk offset `off`.
    pub open spec fn record_at(self, off: int) -> Seq<u8> {
        self.disk@.subrange(off, off + 32)
    }

    /// Scan the records of the sector at byte `base` from record `i`; the
    /// flag tells whether the directory ended.
    pub open spec fn scan_sector(self, base: int, i: nat, st: DirScan) -> (DirScan, bool)
        decreases self.bps() - 32 * i,
    {
        if 32 * i + 32 > self.bps() {
            (st, false)
        } else {
            match record_step(st, self.record_at(base + 32 * i)) {
                None => (st, true),
                Some(s2) => self.scan_sector(base, i + 1, s2),
            }
        }
    }

    /// Scan the sectors of a cluster from its `k`-th, starting at sector `first`.
    pub open spec fn scan_cluster(self, first: int, k: nat, st: DirScan) -> Result<(DirScan, bool), FsError>
        decreases self.sec_per_clus - k,
    {
        if k >= self.sec_per_clus {
            Ok((st, false))
        } else if !self.sector_on_disk(first + k) {
            Err(FsError::IoError)
        } else {
            let r = self.scan_sector((first + k) * self.bps(), 0, st);
            if r.1 {
                Ok(r)
            } else {
                self.scan_cluster(first, k + 1, r.0)
            }
        }
    }

    /// Scan a directory from cluster `c` along its chain, with at most `fuel`
    /// clusters left.
    pub open spec fn scan_chain(self, c: int, fuel: nat, st: DirScan) -> Result<Seq<(Seq<char>, Seq<u8>)>, FsError>
        decreases fuel,
    {
        if fuel == 0 || c < 2 {
            Err(FsError::IoError)
        } else {
            match self.scan_cluster(self.cluster_sector(c), 0, st) {
                Err(e) => Err(e),
                Ok(r) => if r.1 {
                    Ok(r.0.entries)
                } else {
                    match self.fat_entry(c) {
                        None => Err(FsError::IoError),
                        Some(n) => if n >= END_OF_CHAIN {
                            Ok(r.0.entries)
                        } else {
                            self.scan_chain(n as int, (fuel - 1) as nat, r.0)
                        },
                    }
                },
            }
        }
    }

    /// The entries (name, raw record) of the directory starting at cluster `c`.
    pub open spec fn dir_entries(self, c: int) -> Result<Seq<(Seq<char>, Seq<u8>)>, FsError> {
        self.scan_chain(c, self.chain_limit(), scan_start())
    }
}

/// The scan state while reading a directory.
struct ScanState {
    entries: Vec<(String, RawDirEntry)>,
    lfn_name: String,
    lfn_seq: u8,
}

impl View for ScanState {
    type V = DirScan;

    closed spec fn view(&self) -> DirScan {
        DirScan { entries: entries_view(self.entries@), lfn_name: self.lfn_name@, lfn_seq: self.lfn_seq }
    }
}

/// Append the units of one LFN name field.
fn lfn_part(rec: &RawDirEntry, off: usize, n: usize, units: &mut Vec<u16>)
    requires
        off + 2 * n <= 32,
    ensures
        final(units)@ == old(units)@ + part_units(rec.bytes@, off as int, n as nat),
    decreases n,
{
    if n == 0 || rec.bytes[off] == 0xFF {
        assert(old(units)@ + Seq::<u16>::empty() =~= old(units)@);
        return;
    }
    let u = read_u16(&rec.bytes, off);
    units.push(u);
    let ghost mid = units@;
    lfn_part(rec, off + 2, n - 1, units);
    assert(old(units)@ + part_units(rec.bytes@, off as int, n as nat) =~= mid + part_units(
        rec.bytes@,
        off + 2,
        (n - 1) as nat,
    ));
}

/// Lowercase a Latin-1 character.
fn lower_latin1(b: u8) -> (c: char)
    ensures
        c == latin1_lower(b),
{
    if (65 <= b && b <= 90) || (0xC0 <= b && b <= 0xDE && b != 0xD7) {
        (b + 32) as char
    } else {
        b as char
    }
}

/// The short name of a record.
fn short_name_of(rec: &RawDirEntry) -> (s: String)
    ensures
        s@ == short_name(rec.bytes@),
{
    let mut chars: Vec<char> = Vec::new();
    let mut i: usize = 0;
    while i < 11 && rec.bytes[i] != 32
        invariant
            i <= 11,
            short_len(rec.bytes@, 0) == short_len(rec.bytes@, i as int),
            chars@ =~= Seq::new(i as nat, |j: int| latin1_lower(rec.bytes@[j])),
        decreases 11 - i,
    {
        chars.push(lower_latin1(rec.bytes[i]));
        i = i + 1;
    }
    string_of(chars.as_slice())
}

/// Apply one record to the scan state; `true` when it ends the directory.
fn step_record(st: &mut ScanState, rec: RawDirEntry) -> (stop: bool)
    requires
        old(st).lfn_seq <= 31,
    ensures
        final(st).lfn_seq <= 31,
        stop <==> record_step(old(st)@, rec.bytes@) is None,
        stop ==> final(st)@ == old(st)@,
        !stop ==> final(st)@ == record_step(old(st)@, rec.bytes@)->Some_0,
{
    let first = rec.bytes[0];
    if first == 0 {
        return true;
    }
    if first == 0xE5 {
        return false;
    }
    if rec.bytes[11] == ATTR_LFN {
        let seq = first & 0x1F;
        assert(seq <= 31) by (bit_vector)
            requires seq == first & 0x1F;
        if seq == st.lfn_seq + 1 || st.lfn_seq == 0 {
            st.lfn_seq = seq;
            let mut units: Vec<u16> = Vec::new();
            lfn_part(&rec, 1, 5, &mut units);
            lfn_part(&rec, 14, 6, &mut units);
            lfn_part(&rec, 28, 2, &mut units);
            assert(units@ =~= lfn_units(rec.bytes@));
            let name = decode_utf16_lossy(units.as_slice());
            let rest = st.lfn_name.clone();
            st.lfn_name = name.concat(rest.as_str());
        }
        return false;
    }
    if rec.bytes[11] & ATTR_VOLUME_ID == 0 {
        let name = if !st.lfn_name.as_str().is_empty() {
            let n = st.lfn_name.clone();
            st.lfn_name = String::new();
            n
        } else {
            assert(st.lfn_name@ =~= Seq::<char>::empty());
            short_name_of(&rec)
        };
        let ghost before = st.entries@;
        st.entries.push((name, rec));
        assert(entries_view(st.entries@) =~= entries_view(before).push((name@, rec.bytes@)));
    }
    false
}

impl<'a> Fat32Fs<'a> {
    /// The 32-byte record at disk offset `off`.
    fn record(&self, off: u64) -> (r: RawDirEntry)
        requires
            off + 32 <= self.disk@.len(),
        ensures
            r.bytes@ == self.record_at(off as int),
    {
        let mut bytes = [0u8; 32];
        let mut j: usize = 0;
        while j < 32
            invariant
                j <= 32,
                off + 32 <= self.disk@.len(),
                self.disk@.len() == self.disk.len(),
                bytes@.len() == 32,
                forall|k: int| 0 <= k < j ==> bytes@[k] == self.disk@[off + k],
            decreases 32 - j,
        {
            bytes[j] = self.disk[off as usize + j];
            j = j + 1;
        }
        assert(bytes@ =~= self.record_at(off as int));
        RawDirEntry { bytes }
    }

    /// Scan the records of the sector at byte `base`.
    fn scan_sector_exec(&self, base: u64, st: &mut ScanState) -> (stop: bool)
        requires
            base + self.bps() <= self.disk@.len(),
            old(st).lfn_seq <= 31,
        ensures
            final(st).lfn_seq <= 31,
            (final(st)@, stop) == self.scan_sector(base as int, 0, old(st)@),
    {
        let bps = self.bytes_per_sec as u64;
        assert(self.disk@.len() == self.disk.len());
        let ghost target = self.scan_sector(base as int, 0, st@);
        let mut i: u64 = 0;
        while 32 * i + 32 <= bps
            invariant
                bps == self.bps(),
                base + bps <= self.disk@.len(),
                self.disk@.len() == self.disk.len(),
                32 * i <= bps,
                st.lfn_seq <= 31,
                target == self.scan_sector(base as int, i as nat, st@),
                target == self.scan_sector(base as int, 0, old(st)@),
            decreases bps - 32 * i,
        {
            let rec = self.record(base + 32 * i);
            if step_record(st, rec) {
                return true;
            }
            i = i + 1;
        }
        false
    }

    /// Scan the sectors of the cluster starting at sector `first`.
    fn scan_cluster_exec(&self, first: u64, st: &mut ScanState) -> (r: Result<bool, FsError>)
        requires
            first < 0x400_0000_0000,
            old(st).lfn_seq <= 31,
        ensures
            final(st).lfn_seq <= 31,
            match self.scan_cluster(first as int, 0, old(st)@) {
                Ok(p) => r == Ok::<bool, FsError>(p.1) && final(st)@ == p.0,
                Err(e) => r == Err::<bool, FsError>(e),
            },
    {
        let ghost target = self.scan_cluster(first as int, 0, st@);
        let mut k: u8 = 0;
        while k < self.sec_per_clus
            invariant
                first < 0x400_0000_0000,
                st.lfn_seq <= 31,
                target == self.scan_cluster(first as int, k as nat, st@),
                target == self.scan_cluster(first as int, 0, old(st)@),
            decreases self.sec_per_clus - k,
        {
            let sector = first + k as u64;
            if !self.sector_readable(sector) {
                return Err(FsError::IoError);
            }
            let bps = self.bytes_per_sec as u64;
            assert(sector * bps + bps == (sector + 1) * bps) by (nonlinear_arith);
            assert(self.disk@.len() == self.disk.len());
            if self.scan_sector_exec(sector * bps, st) {
                return Ok(true);
            }
            k = k + 1;
        }
        Ok(false)
    }

    /// The entries of the directory starting at `cluster`, following its chain.
    pub fn read_dir_entries(&self, cluster: u32) -> (r: Result<Vec<(String, RawDirEntry)>, FsError>)
        ensures
            match self.dir_entries(cluster as int) {
                Ok(es) => r is Ok && entries_view(r->Ok_0@) == es,
                Err(e) => r == Err::<Vec<(String, RawDirEntry)>, FsError>(e),
            },
    {
        assert(self.fat_sz as u64 * self.bytes_per_sec as u64 <= 0xFFFF_FFFFu64 * 0xFFFF) by (nonlinear_arith)
            requires self.fat_sz <= 0xFFFF_FFFFu32, self.bytes_per_sec <= 0xFFFF;
        let mut fuel: u64 = self.fat_sz as u64 * self.bytes_per_sec as u64 / 4;
        let mut current = cluster;
        let mut st = ScanState { entries: Vec::new(), lfn_name: String::new(), lfn_seq: 0 };
        proof {
            assert(st@.entries =~= scan_start().entries);
        }
        let ghost target = self.dir_entries(cluster as int);
        loop
            invariant
                st.lfn_seq <= 31,
                target == self.scan_chain(current as int, fuel as nat, st@),
                target == self.dir_entries(cluster as int),
            decreases fuel,
        {
            if fuel == 0 || current < 2 {
                return Err(FsError::IoError);
            }
            let first = self.clus_to_sector(current);
            match self.scan_cluster_exec(first, &mut st) {
                Err(e) => {
                    return Err(e);
                },
                Ok(stop) => {
                    if stop {
                        return Ok(st.entries);
                    }
                },
            }
            let next = match self.get_next_cluster(current) {
                Ok(n) => n,
                Err(e) => {
                    return Err(e);
                },
            };
            if next >= END_OF_CHAIN {
                return Ok(st.entries);
            }
            current = next;
            fuel = fuel - 1;
        }
    }
}

/// A character with ASCII letters folded to lowercase.
pub open spec fn ascii_fold(c: char) -> int {
    if 65 <= c as int <= 90 {
        c as int + 32
    } else {
        c as int
    }
}

/// Two names are equal but for the case of ASCII letters (as
/// `str::eq_ignore_ascii_case` compares them).
pub open spec fn eq_ignore_ascii_case(a: Seq<char>, b: Seq<char>) -> bool {
    &&& a.len() == b.len()
    &&& forall|i: int| 0 <= i < a.len() ==> #[trigger] ascii_fold(a[i]) == ascii_fold(b[i])
}

/// Index of the first character of `p` from `i` on that is not a '/'.
pub open spec fn leading_slashes(p: Seq<char>, i: int) -> int
    decreases p.len() - i,
{
    if 0 <= i < p.len() && p[i] == '/' {
        leading_slashes(p, i + 1)
    } else {
        i
    }
}

/// A path without its leading slashes.
pub open spec fn trimmed_path(p: Seq<char>) -> Seq<char> {
    p.subrange(leading_slashes(p, 0), p.len() as int)
}

/// The '/'-separated components of `p[i..]`, the first one starting with `cur`.
pub open spec fn split_acc(p: Seq<char>, i: int, cur: Seq<char>) -> Seq<Seq<char>>
    decreases p.len() - i,
{
    if i >= p.len() {
        seq![cur]
    } else if p[i] == '/' {
        seq![cur] + split_acc(p, i + 1, Seq::empty())
    } else {
        split_acc(p, i + 1, cur.push(p[i]))
    }
}

/// The components of a path, as `str::split('/')` gives them.
pub open spec fn path_parts(p: Seq<char>) -> Seq<Seq<char>> {
    split_acc(p, 0, Seq::empty())
}

/// Index of the first entry from `k` on named `name`, case aside.
pub open spec fn find_name(es: Seq<(Seq<char>, Seq<u8>)>, name: Seq<char>, k: int) -> Option<int>
    decreases es.len() - k,
{
    if k < 0 || k >= es.len() {
        None
    } else if eq_ignore_ascii_case(es[k].0, name) {
        Some(k)
    } else {
        find_name(es, name, k + 1)
    }
}

/// The data of a file as far as `total` bytes: the clusters of its chain
/// from `c`, with at most `fuel` clusters left, after the bytes `acc`.
pub open spec fn min_int(a: int, b: int) -> int {
    if a <= b { a } else { b }
}

/// The listing entry of a scanned record.
pub open spec fn listed(e: (Seq<char>, Seq<u8>)) -> (Seq<char>, FileType, u32) {
    (
        e.0,
        if e.1[11] & ATTR_DIRECTORY != 0 { FileType::Directory } else { FileType::File },
        le32(e.1, 28) as u32,
    )
}

pub open spec fn dir_entry_view(e: DirEntry) -> (Seq<char>, FileType, u32) {
    (e.name@, e.file_type, e.size)
}

impl<'a> Fat32Fs<'a> {
    /// Follow `parts` from component `i`, in the directory at cluster `clus`:
    /// empty components are skipped; the last one names the result; the
    /// ones before must name directories.
    pub open spec fn walk(self, parts: Seq<Seq<char>>, i: int, clus: u32) -> Result<(Seq<u8>, u32), FsError>
        decreases parts.len() - i,
    {
        if i < 0 || i >= parts.len() {
            Err(FsError::NotFound)
        } else if parts[i].len() == 0 {
            self.walk(parts, i + 1, clus)
        } else {
            match self.dir_entries(clus as int) {
                Err(e) => Err(e),
                Ok(es) => match find_name(es, parts[i], 0) {
                    None => Err(FsError::NotFound),
                    Some(k) => {
                        let rec = es[k].1;
                        if i == parts.len() - 1 {
                            Ok((rec, first_cluster_of(rec)))
                        } else if rec[11] & ATTR_DIRECTORY == 0 {
                            Err(FsError::NotADirectory)
                        } else {
                            self.walk(parts, i + 1, first_cluster_of(rec))
                        }
                    },
                },
            }
        }
    }

    /// The record a path names and its first cluster. An empty path (after
    /// its leading slashes) names the first entry of the root directory.
    pub open spec fn lookup(self, path: Seq<char>) -> Result<(Seq<u8>, u32), FsError> {
        let t = trimmed_path(path);
        if t.len() == 0 {
            match self.dir_entries(self.root_clus as int) {
                Err(e) => Err(e),
                Ok(es) => if es.len() == 0 {
                    Err(FsError::NotFound)
                } else {
                    Ok((es[0].1, first_cluster_of(es[0].1)))
                },
            }
        } else {
            self.walk(path_parts(t), 0, self.root_clus)
        }
    }

    /// The bytes of cluster `c`: its sectors, all on the disk.
    pub open spec fn cluster_bytes(self, c: int) -> Option<Seq<u8>> {
        let s0 = self.cluster_sector(c);
        if c < 2 || self.bytes_per_sec == 0 {
            None
        } else if self.sec_per_clus == 0 {
            Some(Seq::empty())
        } else if (s0 + self.sec_per_clus) * self.bps() <= self.disk@.len() {
            Some(self.disk@.subrange(s0 * self.bps(), (s0 + self.sec_per_clus) * self.bps()))
        } else {
            None
        }
    }

    /// Read a file's chain from cluster `c` (at most `fuel` clusters left)
    /// until `total` bytes are in, after the bytes `acc` already read.
    pub open spec fn file_chain(self, c: int, fuel: nat, acc: Seq<u8>, total: int) -> Result<Seq<u8>, FsError>
        decreases fuel,
    {
        if acc.len() >= total {
            Ok(acc)
        } else if fuel == 0 {
            Err(FsError::IoError)
        } else {
            match self.cluster_bytes(c) {
                None => Err(FsError::IoError),
                Some(d) => {
                    let acc2 = acc + d.take(min_int(total - acc.len(), d.len() as int));
                    match self.fat_entry(c) {
                        None => Err(FsError::IoError),
                        Some(n) => if n >= END_OF_CHAIN {
                            Ok(acc2)
                        } else {
                            self.file_chain(n as int, (fuel - 1) as nat, acc2, total)
                        },
                    }
                },
            }
        }
    }

    /// The first `min(size, cap)` bytes of the file starting at cluster
    /// `start` (fewer when its chain ends first).
    pub open spec fn file_data(self, start: u32, size: u32, cap: int) -> Result<Seq<u8>, FsError> {
        self.file_chain(start as int, self.chain_limit(), Seq::empty(), min_int(size as int, cap))
    }

}

impl<'a> Fat32Fs<'a> {
    /// A chain read never goes past `total` bytes.
    pub proof fn lemma_file_chain_len(self, c: int, fuel: nat, acc: Seq<u8>, total: int)
        requires
            acc.len() <= total,
        ensures
            self.file_chain(c, fuel, acc, total) is Ok ==> self.file_chain(c, fuel, acc, total)->Ok_0.len() <= total,
        decreases fuel,
    {
        if acc.len() < total && fuel > 0 {
            if let Some(d) = self.cluster_bytes(c) {
                let acc2 = acc + d.take(min_int(total - acc.len(), d.len() as int));
                if let Some(n) = self.fat_entry(c) {
                    if n < END_OF_CHAIN {
                        self.lemma_file_chain_len(n as int, (fuel - 1) as nat, acc2, total);
                    }
                }
            }
        }
    }
}

proof fn lemma_leading_shift(p: Seq<char>, i: int)
    requires
        0 <= i <= p.len(),
    ensures
        leading_slashes(seq!['/'] + p, i + 1) == leading_slashes(p, i) + 1,
    decreases p.len() - i,
{
    let q = seq!['/'] + p;
    assert(q.len() == p.len() + 1);
    if i < p.len() {
        assert(q[i + 1] == p[i]);
        if p[i] == '/' {
            lemma_leading_shift(p, i + 1);
        }
    }
}

proof fn lemma_leading_range(p: Seq<char>, i: int)
    requires
        0 <= i <= p.len(),
    ensures
        i <= leading_slashes(p, i) <= p.len(),
    decreases p.len() - i,
{
    if i < p.len() && p[i] == '/' {
        lemma_leading_range(p, i + 1);
    }
}

/// A path names the same file with one more leading slash.
pub proof fn leading_slash_ignored(fs: Fat32Fs, p: Seq<char>)
    ensures
        fs.lookup(seq!['/'] + p) == fs.lookup(p),
{
    let q = seq!['/'] + p;
    lemma_leading_shift(p, 0);
    lemma_leading_range(p, 0);
    assert(leading_slashes(q, 0) == leading_slashes(q, 1));
    let l = leading_slashes(p, 0);
    assert forall|j: int| 0 <= j < p.len() - l implies trimmed_path(q)[j] == trimmed_path(p)[j] by {
        assert(q[l + 1 + j] == p[l + j]);
    }
    assert(trimmed_path(q) =~= trimmed_path(p));
}

/// The characters of a string.
fn chars_of(s: &str) -> (v: Vec<char>)
    ensures
        v@ == s@,
{
    let n = s.unicode_len();
    let mut v: Vec<char> = Vec::new();
    let mut i: usize = 0;
    while i < n
        invariant
            n == s@.len(),
            i <= n,
            v@ =~= s@.subrange(0, i as int),
        decreases n - i,
    {
        v.push(s.get_char(i));
        i = i + 1;
    }
    v
}

/// The components of `t`, as `split('/')` gives them.
fn split_path(t: &Vec<char>) -> (parts: Vec<Vec<char>>)
    ensures
        parts@.len() == path_parts(t@).len(),
        forall|i: int| 0 <= i < parts@.len() ==> #[trigger] parts@[i]@ == path_parts(t@)[i],
{
    let mut parts: Vec<Vec<char>> = Vec::new();
    let mut cur: Vec<char> = Vec::new();
    let mut i: usize = 0;
    let ghost done: Seq<Seq<char>> = Seq::empty();
    while i < t.len()
        invariant
            i <= t@.len(),
            parts@.len() == done.len(),
            forall|j: int| 0 <= j < done.len() ==> #[trigger] parts@[j]@ == done[j],
            path_parts(t@) == done + split_acc(t@, i as int, cur@),
        decreases t.len() - i,
    {
        let c = t[i];
        if c == '/' {
            proof {
                assert(split_acc(t@, i as int, cur@) == seq![cur@] + split_acc(t@, i + 1, Seq::empty()));
                assert(done + split_acc(t@, i as int, cur@) =~= done.push(cur@) + split_acc(t@, i + 1, Seq::empty()));
                done = done.push(cur@);
            }
            parts.push(cur);
            cur = Vec::new();
        } else {
            cur.push(c);
        }
        i = i + 1;
    }
    proof {
        assert(path_parts(t@) =~= done.push(cur@));
        done = done.push(cur@);
    }
    parts.push(cur);
    parts
}

/// Whether `name` equals `part` but for the case of ASCII letters.
fn names_match(name: &String, part: &[char]) -> (b: bool)
    ensures
        b == eq_ignore_ascii_case(name@, part@),
{
    let s = name.as_str();
    let other = string_of(part);
    let t = other.as_str();
    let n = s.unicode_len();
    if n != t.unicode_len() {
        return false;
    }
    let mut i: usize = 0;
    while i < n
        invariant
            n == s@.len(),
            s@ == name@,
            t@ == part@,
            n == part@.len(),
            i <= n,
            forall|j: int| 0 <= j < i ==> #[trigger] ascii_fold(name@[j]) == ascii_fold(part@[j]),
        decreases n - i,
    {
        let a = s.get_char(i) as u32;
        let b = t.get_char(i) as u32;
        let fa = if 65 <= a && a <= 90 { a + 32 } else { a };
        let fb = if 65 <= b && b <= 90 { b + 32 } else { b };
        if fa != fb {
            assert(ascii_fold(name@[i as int]) != ascii_fold(part@[i as int]));
            return false;
        }
        assert(ascii_fold(name@[i as int]) == ascii_fold(part@[i as int]));
        i = i + 1;
    }
    true
}

/// A zero-filled buffer of `n` bytes.
pub(crate) fn zeros(n: usize) -> (v: Vec<u8>)
    ensures
        v@ == Seq::new(n as nat, |i: int| 0u8),
{
    let mut v: Vec<u8> = Vec::new();
    while v.len() < n
        invariant
            v.len() <= n,
            v@ =~= Seq::new(v.len() as nat, |i: int| 0u8),
        decreases n - v.len(),
    {
        v.push(0u8);
    }
    v
}

impl<'a> Fat32Fs<'a> {
    /// The index of the first entry named `part`, case aside.
    fn find_entry(entries: &Vec<(String, RawDirEntry)>, part: &Vec<char>) -> (k: Option<usize>)
        ensures
            match k {
                Some(i) => find_name(entries_view(entries@), part@, 0) == Some(i as int) && i < entries@.len(),
                None => find_name(entries_view(entries@), part@, 0) is None,
            },
    {
        let ghost es = entries_view(entries@);
        let mut k: usize = 0;
        while k < entries.len()
            invariant
                es == entries_view(entries@),
                k <= entries@.len(),
                find_name(es, part@, 0) == find_name(es, part@, k as int),
            decreases entries.len() - k,
        {
            if names_match(&entries[k].0, part.as_slice()) {
                return Some(k);
            }
            k = k + 1;
        }
        None
    }

    /// Resolve a path to its record and first cluster.
    pub fn find_path(&self, path: &str) -> (r: Result<(RawDirEntry, u32), FsError>)
        ensures
            match self.lookup(path@) {
                Ok(p) => r is Ok && r->Ok_0.0.bytes@ == p.0 && r->Ok_0.1 == p.1,
                Err(e) => r is Err && r->Err_0 == e,
            },
    {
        let chars = chars_of(path);
        let mut start: usize = 0;
        while start < chars.len() && chars[start] == '/'
            invariant
                start <= chars@.len(),
                leading_slashes(chars@, 0) == leading_slashes(chars@, start as int),
            decreases chars.len() - start,
        {
            start = start + 1;
        }
        let mut t: Vec<char> = Vec::new();
        let mut i = start;
        while i < chars.len()
            invariant
                start <= i <= chars@.len(),
                t@ =~= chars@.subrange(start as int, i as int),
            decreases chars.len() - i,
        {
            t.push(chars[i]);
            i = i + 1;
        }
        assert(t@ == trimmed_path(path@));
        if t.len() == 0 {
            let entries = match self.read_dir_entries(self.root_clus) {
                Ok(es) => es,
                Err(e) => {
                    return Err(e);
                },
            };
            if entries.len() == 0 {
                return Err(FsError::NotFound);
            }
            let entry = entries[0].1;
            return Ok((entry, entry.first_cluster()));
        }
        let parts = split_path(&t);
        let ghost ps = path_parts(t@);
        let mut current = self.root_clus;
        let mut i: usize = 0;
        let ghost target = self.lookup(path@);
        while i < parts.len()
            invariant
                parts@.len() == ps.len(),
                forall|j: int| 0 <= j < parts@.len() ==> #[trigger] parts@[j]@ == ps[j],
                i <= parts@.len(),
                target == self.walk(ps, i as int, current),
                target == self.lookup(path@),
            decreases parts.len() - i,
        {
            if parts[i].len() == 0 {
                i = i + 1;
                continue;
            }
            let entries = match self.read_dir_entries(current) {
                Ok(es) => es,
                Err(e) => {
                    return Err(e);
                },
            };
            let k = match Self::find_entry(&entries, &parts[i]) {
                Some(k) => k,
                None => {
                    return Err(FsError::NotFound);
                },
            };
            let entry = entries[k].1;
            proof {
                let es = entries_view(entries@);
                assert(self.dir_entries(current as int) == Ok::<Seq<(Seq<char>, Seq<u8>)>, FsError>(es));
                assert(find_name(es, ps[i as int], 0) == Some(k as int));
                assert(es[k as int].1 == entry.bytes@);
                assert(parts@[i as int]@ == ps[i as int]);
            }
            if i == parts.len() - 1 {
                return Ok((entry, entry.first_cluster()));
            }
            if !entry.is_directory() {
                return Err(FsError::NotADirectory);
            }
            current = entry.first_cluster();
            i = i + 1;
        }
        Err(FsError::NotFound)
    }

    /// Read a file's cluster chain from `start_clus` into `buf`, at most
    /// `size` bytes; the number of bytes read.
    pub fn read_file_clusters(&self, start_clus: u32, size: u32, buf: &mut [u8]) -> (r: Result<usize, FsError>)
        ensures
            final(buf)@.len() == old(buf)@.len(),
            match self.file_data(start_clus, size, old(buf)@.len() as int) {
                Ok(d) => r == Ok::<usize, FsError>(d.len() as usize) && final(buf)@ == d + old(buf)@.subrange(
                    d.len() as int,
                    old(buf)@.len() as int,
                ),
                Err(e) => r == Err::<usize, FsError>(e),
            },
    {
        let total: usize = if (size as usize) < buf.len() { size as usize } else { buf.len() };
        assert(self.fat_sz as u64 * self.bytes_per_sec as u64 <= 0xFFFF_FFFFu64 * 0xFFFF) by (nonlinear_arith)
            requires self.fat_sz <= 0xFFFF_FFFFu32, self.bytes_per_sec <= 0xFFFF;
        let mut fuel: u64 = self.fat_sz as u64 * self.bytes_per_sec as u64 / 4;
        let mut current = start_clus;
        let mut bytes_read: usize = 0;
        let ghost target = self.file_data(start_clus, size, buf@.len() as int);
        let ghost orig = buf@;
        assert(buf@.subrange(0, 0) =~= Seq::<u8>::empty());
        loop
            invariant
                total == min_int(size as int, orig.len() as int),
                orig == old(buf)@,
                buf@.len() == orig.len(),
                bytes_read <= total,
                target == self.file_data(start_clus, size, orig.len() as int),
                target == self.file_chain(current as int, fuel as nat, buf@.subrange(0, bytes_read as int), total as int),
                buf@.subrange(bytes_read as int, buf@.len() as int) == orig.subrange(bytes_read as int, orig.len() as int),
            decreases fuel,
        {
            if bytes_read >= total {
                assert(buf@ =~= buf@.subrange(0, bytes_read as int) + orig.subrange(bytes_read as int, orig.len() as int));
                return Ok(bytes_read);
            }
            if fuel == 0 || current < 2 || self.bytes_per_sec == 0 {
                return Err(FsError::IoError);
            }
            let s0 = self.clus_to_sector(current);
            let bps = self.bytes_per_sec as u64;
            let spc = self.sec_per_clus as u64;
            assert((s0 + spc) * bps <= 0x500_0000_0000u64 * 0x1_0000) by (nonlinear_arith)
                requires s0 < 0x400_0000_0000u64, spc <= 0xFF, bps <= 0xFFFF;
            assert(self.disk@.len() == self.disk.len());
            if spc > 0 && (s0 + spc) * bps > self.disk.len() as u64 {
                return Err(FsError::IoError);
            }
            assert(spc * bps <= 0xFF * 0xFFFFu64) by (nonlinear_arith)
                requires spc <= 0xFF, bps <= 0xFFFF;
            assert(s0 * bps <= 0x400_0000_0000u64 * 0xFFFF) by (nonlinear_arith)
                requires s0 < 0x400_0000_0000u64, bps <= 0xFFFF;
            let clus_size = spc * bps;
            let base = s0 * bps;
            assert(clus_size == (s0 + spc) * bps - s0 * bps) by (nonlinear_arith)
                requires clus_size == spc * bps, base == s0 * bps;
            assert(spc == 0 ==> clus_size == 0) by (nonlinear_arith)
                requires clus_size == spc * bps;
            let remaining = total - bytes_read;
            let to_copy: usize = if (remaining as u64) < clus_size { remaining } else { clus_size as usize };
            let ghost before = buf@;
            let mut j: usize = 0;
            while j < to_copy
                invariant
                    j <= to_copy,
                    bytes_read + to_copy <= total,
                    total <= buf@.len(),
                    buf@.len() == before.len(),
                    to_copy <= clus_size,
                    spc > 0 ==> base + clus_size <= self.disk@.len(),
                    spc == 0 ==> clus_size == 0,
                    self.disk@.len() == self.disk.len(),
                    forall|q: int| 0 <= q < bytes_read ==> buf@[q] == before[q],
                    forall|q: int| bytes_read + j <= q < buf@.len() ==> buf@[q] == before[q],
                    forall|q: int| bytes_read <= q < bytes_read + j ==> #[trigger] buf@[q] == self.disk@[base + q - bytes_read],
                decreases to_copy - j,
            {
                buf[bytes_read + j] = self.disk[base as usize + j];
                j = j + 1;
            }
            proof {
                assert forall|q: int| bytes_read + to_copy <= q < orig.len() implies buf@[q] == orig[q] by {
                    assert(before.subrange(bytes_read as int, before.len() as int)[q - bytes_read] == orig.subrange(
                        bytes_read as int,
                        orig.len() as int,
                    )[q - bytes_read]);
                }
                let d = self.cluster_bytes(current as int).unwrap();
                if spc > 0 {
                    assert(d =~= self.disk@.subrange(base as int, base + clus_size));
                }
                assert(d.len() == clus_size);
                assert(buf@.subrange(0, bytes_read + to_copy) =~= before.subrange(0, bytes_read as int) + d.take(
                    min_int(total - bytes_read, d.len() as int),
                ));
                assert(buf@.subrange(bytes_read + to_copy, buf@.len() as int) =~= orig.subrange(
                    bytes_read + to_copy,
                    orig.len() as int,
                ));
            }
            bytes_read = bytes_read + to_copy;
            let next = match self.get_next_cluster(current) {
                Ok(n) => n,
                Err(e) => {
                    return Err(e);
                },
            };
            if next >= END_OF_CHAIN {
                assert(buf@ =~= buf@.subrange(0, bytes_read as int) + orig.subrange(bytes_read as int, orig.len() as int));
                return Ok(bytes_read);
            }
            current = next;
            fuel = fuel - 1;
        }
    }
}

/// The data of a file of `size` bytes from cluster `ino`, zero-padded to its size.
pub open spec fn padded(d: Seq<u8>, size: u32) -> Seq<u8> {
    d + Seq::new((size - d.len()) as nat, |i: int| 0u8)
}

impl<'a> FileSystem for Fat32Fs<'a> {
    /// Open the file a path names: its first cluster, size and path.
    fn open(&self, path: &str) -> (r: Result<FileHandle, FsError>)
        ensures
            match self.lookup(path@) {
                Ok(p) => r is Ok && r->Ok_0.ino == p.1 && r->Ok_0.size as int == le32(p.0, 28) && r->Ok_0.path@
                    == path@,
                Err(e) => r is Err && r->Err_0 == e,
            },
    {
        let (entry, first_clus) = match self.find_path(path) {
            Ok(p) => p,
            Err(e) => {
                return Err(e);
            },
        };
        let size = entry.size();
        Ok(FileHandle { ino: first_clus, size, path: path.to_owned() })
    }

    /// List the directory starting at the cluster of the record a path names.
    fn read_dir(&self, path: &str) -> (r: Result<Vec<DirEntry>, FsError>)
        ensures
            match self.lookup(path@) {
                Err(e) => r is Err && r->Err_0 == e,
                Ok(p) => match self.dir_entries(p.1 as int) {
                    Err(e) => r is Err && r->Err_0 == e,
                    Ok(es) => r is Ok && r->Ok_0@.len() == es.len() && forall|i: int|
                        0 <= i < es.len() ==> #[trigger] dir_entry_view(r->Ok_0@[i]) == listed(es[i]),
                },
            },
    {
        let (_entry, clus) = match self.find_path(path) {
            Ok(p) => p,
            Err(e) => {
                return Err(e);
            },
        };
        let entries = match self.read_dir_entries(clus) {
            Ok(es) => es,
            Err(e) => {
                return Err(e);
            },
        };
        let ghost es = entries_view(entries@);
        let mut out: Vec<DirEntry> = Vec::new();
        let mut i: usize = 0;
        while i < entries.len()
            invariant
                es == entries_view(entries@),
                i <= entries@.len(),
                out@.len() == i,
                forall|j: int| 0 <= j < i ==> #[trigger] dir_entry_view(out@[j]) == listed(es[j]),
            decreases entries.len() - i,
        {
            let raw = entries[i].1;
            let name = entries[i].0.clone();
            let file_type = if raw.is_directory() { FileType::Directory } else { FileType::File };
            let e = DirEntry { name, file_type, size: raw.size() };
            assert(dir_entry_view(e) == listed(es[i as int]));
            out.push(e);
            i = i + 1;
        }
        Ok(out)
    }

    /// Read from an open file at `offset` into `buf`: as many bytes as fit,
    /// up to the end of the file. The file is read whole; the count returned
    /// is at most the bytes its chain held.
    fn read(&self, handle: &FileHandle, offset: u32, buf: &mut [u8]) -> (r: Result<usize, FsError>)
        ensures
            offset >= handle.size ==> r == Ok::<usize, FsError>(0) && final(buf)@ == old(buf)@,
            offset < handle.size ==> match self.file_data(handle.ino, handle.size, handle.size as int) {
                Err(e) => r == Err::<usize, FsError>(e) && final(buf)@ == old(buf)@,
                Ok(d) => {
                    let to_read = min_int(handle.size - offset, old(buf)@.len() as int);
                    &&& r == Ok::<usize, FsError>(min_int(to_read, d.len() as int) as usize)
                    &&& final(buf)@ == padded(d, handle.size).subrange(offset as int, offset + to_read)
                        + old(buf)@.subrange(to_read, old(buf)@.len() as int)
                },
            },
    {
        if offset >= handle.size {
            return Ok(0);
        }
        let avail = handle.size - offset;
        let to_read: usize = if (avail as usize) < buf.len() { avail as usize } else { buf.len() };
        let mut temp = zeros(handle.size as usize);
        let ghost z = temp@;
        let bytes_read = match self.read_file_clusters(handle.ino, handle.size, temp.as_mut_slice()) {
            Ok(n) => n,
            Err(e) => {
                return Err(e);
            },
        };
        let ghost d = self.file_data(handle.ino, handle.size, handle.size as int)->Ok_0;
        assert(temp@ =~= padded(d, handle.size));
        let ghost before = buf@;
        let mut j: usize = 0;
        while j < to_read
            invariant
                j <= to_read,
                to_read <= buf@.len(),
                buf@.len() == before.len(),
                offset + to_read <= temp@.len(),
                temp@.len() == temp.len(),
                forall|q: int| 0 <= q < j ==> #[trigger] buf@[q] == temp@[offset + q],
                forall|q: int| j <= q < buf@.len() ==> #[trigger] buf@[q] == before[q],
            decreases to_read - j,
        {
            buf[j] = temp[offset as usize + j];
            j = j + 1;
        }
        assert(buf@ =~= padded(d, handle.size).subrange(offset as int, offset + to_read) + before.subrange(
            to_read as int,
            before.len() as int,
        ));
        Ok(if to_read < bytes_read { to_read } else { bytes_read })
    }
}

/// `fs` is the volume on `disk`: its geometry read from the boot sector.
pub open spec fn mounted_on(fs: Fat32Fs, disk: Seq<u8>) -> bool {
    &&& fs.disk@ == disk
    &&& fs.boot_sector@ == disk.subrange(0, 512)
    &&& fs.bytes_per_sec as int == le16(disk, BPB_BYTS_PER_SEC as int)
    &&& fs.sec_per_clus == disk[BPB_SEC_PER_CLUS as int]
    &&& fs.rsvd_sec_cnt as int == le16(disk, BPB_RSVD_SEC_CNT as int)
    &&& fs.num_fats == disk[BPB_NUM_FATS as int]
    &&& fs.fat_sz as int == le32(disk, BPB_FAT_SZ32 as int)
    &&& fs.root_clus as int == le32(disk, BPB_ROOT_CLUS as int)
}

/// The disk starts with a boot sector carrying the 0xAA55 signature.
pub open spec fn has_boot_signature(disk: Seq<u8>) -> bool {
    disk.len() >= 512 && le16(disk, 0x1FE) == 0xAA55
}

/// Mount the FAT32 volume on `disk` in the file system registry, when its
/// boot sector carries the signature; otherwise leave the registry as it is.
pub fn init<'a>(vfs: &mut Vfs<'a>, disk: &'a [u8])
    ensures
        has_boot_signature(disk@) ==> final(vfs).fs is Some && mounted_on(final(vfs).fs->Some_0, disk@),
        !has_boot_signature(disk@) ==> *final(vfs) == *old(vfs),
{
    if disk.len() < 512 {
        return;
    }
    let signature = read_u16(disk, 0x1FE);
    if signature != 0xAA55 {
        return;
    }
    let mut boot = [0u8; 512];
    let mut i: usize = 0;
    while i < 512
        invariant
            i <= 512,
            disk@.len() >= 512,
            disk@.len() == disk.len(),
            boot@.len() == 512,
            forall|q: int| 0 <= q < i ==> #[trigger] boot@[q] == disk@[q],
        decreases 512 - i,
    {
        boot[i] = disk[i];
        i = i + 1;
    }
    assert(boot@ =~= disk@.subrange(0, 512));
    let fs = Fat32Fs::new(boot, disk);
    vfs.register_fs(fs);
}

/// Data clusters follow one another on the disk: cluster 2 starts right after
/// the reserved sectors and the FATs, and each next cluster starts
/// `sec_per_clus` sectors after the one before it, so no two clusters share
/// a sector.
pub proof fn clusters_are_consecutive<'a>(fs: Fat32Fs<'a>, c: int)
    requires
        c >= 2,
    ensures
        fs.cluster_sector(2) == fs.rsvd_sec_cnt + fs.num_fats * fs.fat_sz,
        fs.cluster_sector(c + 1) == fs.cluster_sector(c) + fs.sec_per_clus,
        fs.cluster_sector(c) >= fs.rsvd_sec_cnt + fs.num_fats * fs.fat_sz,
{
    let spc = fs.sec_per_clus as int;
    assert((c + 1 - 2) * spc == (c - 2) * spc + spc) by (nonlinear_arith);
    assert((c - 2) * spc >= 0) by (nonlinear_arith)
        requires c >= 2, spc >= 0;
}

/// A FAT entry is a 28-bit cluster number: the top four bits of the 32-bit
/// word are reserved and never part of a chain.
pub proof fn fat_entries_are_28_bit<'a>(fs: Fat32Fs<'a>, c: int)
    ensures
        fs.fat_entry(c) matches Some(n) ==> n < 0x1000_0000,
{
}

} // verus!
