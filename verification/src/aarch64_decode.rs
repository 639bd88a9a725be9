//! Minimal AArch64 instruction decoder.
//!
//! AArch64 instructions are fixed at 4 bytes. This decodes the subset needed by
//! the binary-translation layer: NOP, RET, SVC, BL, MOVZ and ADRP. Everything
//! else is reported as `Instruction::Unsupported`.

use vstd::prelude::*;

verus! {

/// Decoded AArch64 instruction.
#[derive(Clone, Copy, Debug, PartialEq, Eq, Structural)]
pub enum Instruction {
    /// No-operation.
    Nop,
    /// Return to the link register.
    Ret,
    /// Supervisor call.
    Svc { imm: u16 },
    /// Branch with link.
    Bl { offset: i64 },
    /// Move 16-bit immediate into a register (optionally shifted).
    Movz { reg: u8, imm: u16, shift: u8 },
    /// Compute PC-relative page address.
    Adrp { reg: u8, offset: i64 },
    /// Any instruction not decoded yet.
    Unsupported,
}

/// `v` read as a two's-complement number of `bits` bits.
pub open spec fn sign_extend(v: int, bits: nat) -> int {
    if v >= vstd::arithmetic::power2::pow2((bits - 1) as nat) {
        v - vstd::arithmetic::power2::pow2(bits)
    } else {
        v
    }
}

/// The instruction encoded by `opcode`.
pub open spec fn spec_decode(opcode: u32) -> Instruction {
    if opcode == 0xD503_201F {
        Instruction::Nop
    } else if opcode & 0xFFFF_FC00 == 0xD65F_0000 {
        Instruction::Ret
    } else if opcode & 0xFFE0_0000 == 0xD400_0000 {
        Instruction::Svc { imm: ((opcode >> 5) & 0xFFFF) as u16 }
    } else if opcode & 0xFC00_0000 == 0x9400_0000 {
        Instruction::Bl { offset: (sign_extend((opcode & 0x03FF_FFFF) as int, 26) * 4) as i64 }
    } else if opcode & 0x7F80_0000 == 0x5280_0000 {
        Instruction::Movz {
            reg: (opcode & 0x1F) as u8,
            imm: ((opcode >> 5) & 0xFFFF) as u16,
            shift: (((opcode >> 21) & 0x3) * 16) as u8,
        }
    } else if opcode & 0x9F00_0000 == 0x9000_0000 {
        let imm21 = ((opcode >> 5) & 0x7FFFF) * 4 + ((opcode >> 29) & 0x3);
        Instruction::Adrp { reg: (opcode & 0x1F) as u8, offset: (sign_extend(imm21, 21) * 4096) as i64 }
    } else {
        Instruction::Unsupported
    }
}

/// Decode a single 32-bit AArch64 opcode.
pub fn decode(opcode: u32) -> (r: Instruction)
    ensures
        r == spec_decode(opcode),
{
    proof {
        vstd::arithmetic::power2::lemma2_to64();
    }
    // NOP: 0xD503201F
    if opcode == 0xD503_201F {
        return Instruction::Nop;
    }
    // RET: bits 31..10 fixed.
    if (opcode & 0xFFFF_FC00) == 0xD65F_0000 {
        return Instruction::Ret;
    }
    // SVC: 0xD4000001 with a 16-bit immediate in bits 20..5.
    if (opcode & 0xFFE0_0000) == 0xD400_0000 {
        let imm = ((opcode >> 5) & 0xFFFF) as u16;
        return Instruction::Svc { imm };
    }
    // BL: 0x94000000 | imm26, sign bit at bit 25, scaled by 4.
    if (opcode & 0xFC00_0000) == 0x9400_0000 {
        let imm26 = (opcode & 0x03FF_FFFF) as i64;
        assert(0 <= imm26 < 0x400_0000) by (bit_vector)
            requires imm26 == (opcode & 0x03FF_FFFF) as i64;
        let signed: i64 = if imm26 >= 0x200_0000 { imm26 - 0x400_0000 } else { imm26 };
        let offset = signed * 4;
        return Instruction::Bl { offset };
    }
    // MOVZ: (shift << 21) | (imm16 << 5) | reg
    if (opcode & 0x7F80_0000) == 0x5280_0000 {
        let reg = (opcode & 0x1F) as u8;
        let imm = ((opcode >> 5) & 0xFFFF) as u16;
        let hw = (opcode >> 21) & 0x3;
        assert(hw <= 3) by (bit_vector)
            requires hw == (opcode >> 21) & 0x3;
        let shift = (hw * 16) as u8;
        return Instruction::Movz { reg, imm, shift };
    }
    // ADRP: immhi in bits 23..5, immlo in bits 30..29; 21-bit signed page offset.
    if (opcode & 0x9F00_0000) == 0x9000_0000 {
        let reg = (opcode & 0x1F) as u8;
        let immlo = (opcode >> 29) & 0x3;
        let immhi = (opcode >> 5) & 0x7FFFF;
        assert(immlo <= 3 && immhi <= 0x7FFFF) by (bit_vector)
            requires immlo == (opcode >> 29) & 0x3, immhi == (opcode >> 5) & 0x7FFFF;
        let imm21 = immhi as i64 * 4 + immlo as i64;
        let imm21_signed: i64 = if imm21 >= 0x10_0000 { imm21 - 0x20_0000 } else { imm21 };
        let offset = imm21_signed * 4096;
        return Instruction::Adrp { reg, offset };
    }
    Instruction::Unsupported
}

/// Decode the instruction at `pc` from `code` and return the next PC.
/// Returns `None` when the instruction is unsupported or the opcode is
/// truncated.
pub fn step(pc: u64, code: &[u8]) -> (r: Option<u64>)
    ensures
        pc + 4 > code@.len() ==> r is None,
        pc + 4 <= code@.len() ==> {
            let word = code@[pc as int] + 256 * code@[pc + 1] + 65536 * code@[pc + 2] + 16777216
                * code@[pc + 3];
            r == match spec_decode(word as u32) {
                Instruction::Unsupported => None,
                Instruction::Bl { offset } => Some(
                    ((pc + 4 + (offset as u64)) % 0x1_0000_0000_0000_0000) as u64,
                ),
                _ => Some((pc + 4) as u64),
            }
        },
{
    if pc > code.len() as u64 || code.len() as u64 - pc < 4 {
        return None;
    }
    let start = pc as usize;
    let opcode: u32 = code[start] as u32 + (code[start + 1] as u32) * 256 + (code[start + 2] as u32)
        * 65536 + (code[start + 3] as u32) * 16777216;
    let instr = decode(opcode);
    match instr {
        Instruction::Nop | Instruction::Ret => Some(pc + 4),
        Instruction::Bl { offset } => {
            let r = pc.wrapping_add(4).wrapping_add(offset as u64);
            assert(r == ((pc + 4 + (offset as u64)) % 0x1_0000_0000_0000_0000) as u64);
            Some(r)
        },
        Instruction::Svc { .. } => Some(pc + 4),
        Instruction::Movz { .. } => Some(pc + 4),
        Instruction::Adrp { .. } => Some(pc + 4),
        Instruction::Unsupported => None,
    }
}

} // verus!
