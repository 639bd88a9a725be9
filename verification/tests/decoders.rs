use aperture::aarch64_decode::{self, Instruction};
use aperture::x86_decode;

#[test]
fn decode_nop() {
    assert_eq!(aarch64_decode::decode(0xD5_03_20_1F), Instruction::Nop);
}

#[test]
fn decode_ret() {
    assert_eq!(aarch64_decode::decode(0xD6_5F_03_C0), Instruction::Ret);
}

#[test]
fn decode_svc() {
    assert_eq!(aarch64_decode::decode(0xD4_00_00_01), Instruction::Svc { imm: 0 });
    assert_eq!(aarch64_decode::decode(0xD4_00_04_21), Instruction::Svc { imm: 0x21 });
}

#[test]
fn decode_bl() {
    assert_eq!(aarch64_decode::decode(0x94_00_00_00), Instruction::Bl { offset: 0 });
    assert_eq!(aarch64_decode::decode(0x94_00_00_01), Instruction::Bl { offset: 4 });
    assert_eq!(aarch64_decode::decode(0x97_FF_FF_FE), Instruction::Bl { offset: -8 });
}

#[test]
fn decode_movz() {
    assert_eq!(aarch64_decode::decode(0xD2_82_46_80), Instruction::Movz { reg: 0, imm: 0x1234, shift: 0 });
    assert_eq!(aarch64_decode::decode(0xD2_B5_79_A5), Instruction::Movz { reg: 5, imm: 0xABCD, shift: 16 });
}

#[test]
fn decode_adrp() {
    assert_eq!(aarch64_decode::decode(0x90_00_00_00), Instruction::Adrp { reg: 0, offset: 0 });
}

#[test]
fn step_advances_pc() {
    let code = [0x1F, 0x20, 0x03, 0xD5, 0xC0, 0x03, 0x5F, 0xD6];
    assert_eq!(aarch64_decode::step(0, &code), Some(4));
    assert_eq!(aarch64_decode::step(4, &code), Some(8));
}

#[test]
fn lib_decode_nop() {
    let insn = x86_decode::decode(&[0x90]);
    assert_eq!(insn.len, 1);
    assert!(insn.is_nop);
}

#[test]
fn lib_decode_ret() {
    let insn = x86_decode::decode(&[0xC3]);
    assert_eq!(insn.len, 1);
    assert!(insn.is_ret);
}

#[test]
fn decode_jmp_rel8() {
    let insn = x86_decode::decode(&[0xEB, 0xFE]);
    assert_eq!(insn.len, 2);
    assert!(insn.is_jmp);
    assert_eq!(insn.jmp_offset, Some(-2));
}

#[test]
fn decode_jmp_rel32() {
    let insn = x86_decode::decode(&[0xE9, 0x00, 0x01, 0x00, 0x00]);
    assert_eq!(insn.len, 5);
    assert!(insn.is_jmp);
    assert_eq!(insn.jmp_offset, Some(0x100));
}

#[test]
fn decode_syscall() {
    let insn = x86_decode::decode(&[0x0F, 0x05]);
    assert_eq!(insn.len, 2);
    assert!(insn.is_syscall);
}

#[test]
fn decode_prefix_then_nop() {
    let insn = x86_decode::decode(&[0x66, 0x90]);
    assert_eq!(insn.len, 2);
    assert!(insn.is_nop);
}

#[test]
fn lib_step_advances_pc() {
    assert_eq!(x86_decode::step(0x1000, &[0x90, 0xC3]), Some(0x1001));
}

#[test]
fn aarch64_unknown_opcode_is_unsupported() {
    assert_eq!(aarch64_decode::decode(0), Instruction::Unsupported);
}

#[test]
fn x86_empty_input_is_invalid() {
    let insn = x86_decode::decode(&[]);
    assert_eq!(insn, x86_decode::DecodedInsn::invalid());
    assert_eq!(x86_decode::step(0x1000, &[]), None);
}

#[test]
fn aarch64_step_needs_four_bytes() {
    assert_eq!(aarch64_decode::step(0, &[0x1F, 0x20, 0x03]), None);
}
