//! Little-endian field access over byte buffers, shared by the binary-format parsers.

use vstd::prelude::*;
use vstd::string::StringSliceAdditionalSpecFns;

verus! {

/// Unsigned little-endian 16-bit value stored at `i`.
pub open spec fn le16(s: Seq<u8>, i: int) -> int {
    s[i] as int + 256 * s[i + 1] as int
}

/// Unsigned little-endian 32-bit value stored at `i`.
pub open spec fn le32(s: Seq<u8>, i: int) -> int {
    le16(s, i) + 65536 * le16(s, i + 2)
}

/// Unsigned little-endian 64-bit value stored at `i`.
pub open spec fn le64(s: Seq<u8>, i: int) -> int {
    le32(s, i) + 0x1_0000_0000 * le32(s, i + 4)
}

/// Read a little-endian `u16` at `off`.
pub fn read_u16(data: &[u8], off: usize) -> (r: u16)
    requires
        off + 2 <= data@.len(),
    ensures
        r as int == le16(data@, off as int),
{
    proof { assert(data@.len() == data.len()); }
    data[off] as u16 + (data[off + 1] as u16) * 256
}

/// Read a little-endian `u32` at `off`.
pub fn read_u32(data: &[u8], off: usize) -> (r: u32)
    requires
        off + 4 <= data@.len(),
    ensures
        r as int == le32(data@, off as int),
{
    proof { assert(data@.len() == data.len()); }
    let lo = read_u16(data, off);
    let hi = read_u16(data, off + 2);
    lo as u32 + (hi as u32) * 65536
}

/// Read a little-endian `u64` at `off`.
pub fn read_u64(data: &[u8], off: usize) -> (r: u64)
    requires
        off + 8 <= data@.len(),
    ensures
        r as int == le64(data@, off as int),
{
    proof { assert(data@.len() == data.len()); }
    let lo = read_u32(data, off);
    let hi = read_u32(data, off + 4);
    lo as u64 + (hi as u64) * 0x1_0000_0000
}

/// `core::str::from_utf8`, keeping only the success value.
#[verifier::external_body]
pub(crate) fn str_from_utf8<'a>(bytes: &'a [u8]) -> (r: Option<&'a str>)
    ensures
        r is Some <==> vstd::utf8::valid_utf8(bytes@),
        r matches Some(s) ==> s.spec_bytes() == bytes@,
{
    core::str::from_utf8(bytes).ok()
}

} // verus!
