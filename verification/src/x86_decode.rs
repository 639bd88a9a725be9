//! Minimal x86/x86_64 instruction-length decoder.
//!
//! Used to step through guest code in the interpreter and baseline JIT. Only
//! the most common instruction encodings are recognised.

use vstd::prelude::*;

verus! {

/// Result of decoding a single x86/x86_64 instruction.
#[derive(Clone, Copy, Debug, PartialEq, Eq, Structural)]
pub struct DecodedInsn {
    /// Total length of the instruction in bytes.
    pub len: usize,
    /// True if the instruction is a RET (near).
    pub is_ret: bool,
    /// True if the instruction is a relative JMP.
    pub is_jmp: bool,
    /// True if the instruction is a NOP.
    pub is_nop: bool,
    /// True if the instruction is a SYSCALL.
    pub is_syscall: bool,
    /// Relative jump offset, if `is_jmp` is true and the offset could be read.
    pub jmp_offset: Option<i64>,
}

pub open spec fn spec_invalid() -> DecodedInsn {
    DecodedInsn {
        len: 0,
        is_ret: false,
        is_jmp: false,
        is_nop: false,
        is_syscall: false,
        jmp_offset: None,
    }
}

/// Legacy prefixes skipped before the opcode.
pub open spec fn is_legacy_prefix(b: u8) -> bool {
    b == 0x66 || b == 0x67 || b == 0x2E || b == 0x3E || b == 0x26 || b == 0x64 || b == 0x65
        || b == 0x36 || b == 0xF0 || b == 0xF2 || b == 0xF3
}

/// Position of the first non-prefix byte at or after `pos`.
pub open spec fn prefix_end(code: Seq<u8>, pos: int) -> int
    decreases code.len() - pos,
{
    if 0 <= pos < code.len() && is_legacy_prefix(code[pos]) {
        prefix_end(code, pos + 1)
    } else {
        pos
    }
}

/// A byte read as a two's-complement 8-bit value.
pub open spec fn sext8(b: u8) -> i64 {
    if b >= 128 {
        (b - 256) as i64
    } else {
        b as i64
    }
}

/// A 32-bit word read as a two's-complement value.
pub open spec fn sext32(v: int) -> i64 {
    if v >= 0x8000_0000 {
        (v - 0x1_0000_0000) as i64
    } else {
        v as i64
    }
}

pub open spec fn le32_at(code: Seq<u8>, i: int) -> int {
    code[i] + 256 * code[i + 1] + 65536 * code[i + 2] + 16777216 * code[i + 3]
}

/// The instruction at the start of `code`.
pub open spec fn spec_decode(code: Seq<u8>) -> DecodedInsn {
    let p = prefix_end(code, 0);
    let n = p + 1;
    if p >= code.len() {
        spec_invalid()
    } else if code[p] == 0x90 {
        DecodedInsn { len: n as usize, is_nop: true, ..spec_invalid() }
    } else if code[p] == 0xC3 {
        DecodedInsn { len: n as usize, is_ret: true, ..spec_invalid() }
    } else if code[p] == 0xEB {
        if n >= code.len() {
            spec_invalid()
        } else {
            DecodedInsn {
                len: (n + 1) as usize,
                is_jmp: true,
                jmp_offset: Some(sext8(code[n])),
                ..spec_invalid()
            }
        }
    } else if code[p] == 0xE9 {
        if n + 4 > code.len() {
            spec_invalid()
        } else {
            DecodedInsn {
                len: (n + 4) as usize,
                is_jmp: true,
                jmp_offset: Some(sext32(le32_at(code, n))),
                ..spec_invalid()
            }
        }
    } else if code[p] == 0x0F {
        if n < code.len() && code[n] == 0x05 {
            DecodedInsn { len: (n + 1) as usize, is_syscall: true, ..spec_invalid() }
        } else {
            spec_invalid()
        }
    } else {
        spec_invalid()
    }
}

impl DecodedInsn {
    pub fn invalid() -> (r: Self)
        ensures
            r == spec_invalid(),
    {
        Self {
            len: 0,
            is_ret: false,
            is_jmp: false,
            is_nop: false,
            is_syscall: false,
            jmp_offset: None,
        }
    }
}

/// Decode the instruction at the start of `code`.
///
/// Returns `DecodedInsn::invalid()` with `len == 0` if the encoding is not
/// recognized or the buffer is too short.
pub fn decode(code: &[u8]) -> (r: DecodedInsn)
    ensures
        r == spec_decode(code@),
        r.len <= code@.len(),
{
    if code.is_empty() {
        return DecodedInsn::invalid();
    }

    let mut pos: usize = 0;
    let n = code.len();
    // Skip legacy prefixes.
    while pos < n && (code[pos] == 0x66 || code[pos] == 0x67 || code[pos] == 0x2E
        || code[pos] == 0x3E || code[pos] == 0x26 || code[pos] == 0x64 || code[pos] == 0x65
        || code[pos] == 0x36 || code[pos] == 0xF0 || code[pos] == 0xF2 || code[pos] == 0xF3)
        invariant
            pos <= n,
            n == code@.len(),
            prefix_end(code@, 0) == prefix_end(code@, pos as int),
        decreases n - pos,
    {
        pos += 1;
    }

    if pos >= n {
        return DecodedInsn::invalid();
    }

    let opcode = code[pos];
    pos += 1;

    if opcode == 0x90 {
        // NOP (XCHG rAX, rAX in 64-bit mode is effectively NOP)
        DecodedInsn { len: pos, is_nop: true, ..DecodedInsn::invalid() }
    } else if opcode == 0xC3 {
        // RET near
        DecodedInsn { len: pos, is_ret: true, ..DecodedInsn::invalid() }
    } else if opcode == 0xEB {
        // JMP rel8
        if pos >= n {
            return DecodedInsn::invalid();
        }
        let b = code[pos];
        let offset: i64 = if b >= 128 { b as i64 - 256 } else { b as i64 };
        DecodedInsn { len: pos + 1, is_jmp: true, jmp_offset: Some(offset), ..DecodedInsn::invalid() }
    } else if opcode == 0xE9 {
        // JMP rel32: the displacement is sign-extended to 64 bits.
        if pos > n || n - pos < 4 {
            return DecodedInsn::invalid();
        }
        let v: u64 = code[pos] as u64 + (code[pos + 1] as u64) * 256 + (code[pos + 2] as u64) * 65536
            + (code[pos + 3] as u64) * 16777216;
        let offset: i64 = if v >= 0x8000_0000 { v as i64 - 0x1_0000_0000 } else { v as i64 };
        DecodedInsn { len: pos + 4, is_jmp: true, jmp_offset: Some(offset), ..DecodedInsn::invalid() }
    } else if opcode == 0x0F {
        // Two-byte opcode escape.
        if pos >= n {
            return DecodedInsn::invalid();
        }
        let sub = code[pos];
        pos += 1;
        if sub == 0x05 {
            // SYSCALL (0F 05)
            DecodedInsn { len: pos, is_syscall: true, ..DecodedInsn::invalid() }
        } else {
            DecodedInsn::invalid()
        }
    } else {
        DecodedInsn::invalid()
    }
}

/// Advance `pc` by one instruction, returning the updated PC.
///
/// Returns `None` if the instruction could not be decoded.
pub fn step(pc: u64, code: &[u8]) -> (r: Option<u64>)
    ensures
        r == (if spec_decode(code@).len == 0 {
            None
        } else {
            Some(((pc + spec_decode(code@).len) % 0x1_0000_0000_0000_0000) as u64)
        }),
{
    let insn = decode(code);
    if insn.len == 0 {
        return None;
    }
    let r = pc.wrapping_add(insn.len as u64);
    assert(r == ((pc + insn.len) % 0x1_0000_0000_0000_0000) as u64);
    Some(r)
}

/// A `jmp rel32` (opcode 0xE9 after any prefixes) takes the four bytes after
/// the opcode as a little-endian two's-complement displacement: the offset
/// lies in [-2^31, 2^31) and is the unsigned value, less 2^32 when the top
/// bit (bit 7 of the last byte) is set.
pub proof fn jmp_rel32_is_sign_extended(code: Seq<u8>)
    requires
        code.len() <= usize::MAX,
        prefix_end(code, 0) + 5 <= code.len(),
        code[prefix_end(code, 0)] == 0xE9,
    ensures
        ({
            let p = prefix_end(code, 0);
            let u = code[p + 1] + 256 * code[p + 2] + 65536 * code[p + 3] + 16777216 * code[p + 4];
            let d = spec_decode(code);
            &&& d.is_jmp
            &&& d.len == p + 5
            &&& d.jmp_offset matches Some(o) && -0x8000_0000 <= o < 0x8000_0000 && o == (if code[p + 4] >= 0x80 {
                u - 0x1_0000_0000
            } else {
                u
            })
        }),
{
    let p = prefix_end(code, 0);
    lemma_prefix_end_nonneg(code, 0);
    let u = code[p + 1] + 256 * code[p + 2] + 65536 * code[p + 3] + 16777216 * code[p + 4];
    assert(u < 0x1_0000_0000);
    assert(code[p + 4] >= 0x80 <==> u >= 0x8000_0000);
    assert(le32_at(code, p + 1) == u);
    assert(spec_decode(code).jmp_offset == Some(sext32(u)));
}

proof fn lemma_prefix_end_nonneg(code: Seq<u8>, pos: int)
    requires
        0 <= pos,
    ensures
        prefix_end(code, pos) >= pos,
    decreases code.len() - pos,
{
    if 0 <= pos < code.len() && is_legacy_prefix(code[pos]) {
        lemma_prefix_end_nonneg(code, pos + 1);
    }
}

/// A `jmp rel8` (opcode 0xEB after any prefixes) takes the byte after the
/// opcode as a two's-complement displacement in [-128, 128).
pub proof fn jmp_rel8_is_sign_extended(code: Seq<u8>)
    requires
        code.len() <= usize::MAX,
        prefix_end(code, 0) + 2 <= code.len(),
        code[prefix_end(code, 0)] == 0xEB,
    ensures
        ({
            let p = prefix_end(code, 0);
            let d = spec_decode(code);
            &&& d.is_jmp
            &&& d.len == p + 2
            &&& d.jmp_offset matches Some(o) && -128 <= o < 128 && o == (if code[p + 1] >= 0x80 {
                code[p + 1] - 256
            } else {
                code[p + 1] as int
            })
        }),
{
    lemma_prefix_end_nonneg(code, 0);
}

/// A decoded instruction never reaches past the bytes given, and one that is
/// not recognised has length 0 and no kind.
pub proof fn decoded_length_fits(code: Seq<u8>)
    requires
        code.len() <= usize::MAX,
    ensures
        spec_decode(code).len <= code.len(),
        spec_decode(code).len == 0 ==> !spec_decode(code).is_jmp && !spec_decode(code).is_ret
            && !spec_decode(code).is_nop && !spec_decode(code).is_syscall && spec_decode(code).jmp_offset is None,
{
    lemma_prefix_end_nonneg(code, 0);
}

} // verus!
