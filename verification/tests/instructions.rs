use um32::isa::{u8x4_to_u32_big_endian, words_from_big_endian_bytes, Instruction, OpCode, Trap};

#[test]
fn from_byte_maps_every_opcode() {
    assert_eq!(OpCode::from_byte(0x0), Ok(OpCode::CMOV));
    assert_eq!(OpCode::from_byte(0x1), Ok(OpCode::LOAD));
    assert_eq!(OpCode::from_byte(0x2), Ok(OpCode::STORE));
    assert_eq!(OpCode::from_byte(0x3), Ok(OpCode::ADD));
    assert_eq!(OpCode::from_byte(0x4), Ok(OpCode::MUL));
    assert_eq!(OpCode::from_byte(0x5), Ok(OpCode::DIV));
    assert_eq!(OpCode::from_byte(0x6), Ok(OpCode::NAND));
    assert_eq!(OpCode::from_byte(0x7), Ok(OpCode::HALT));
    assert_eq!(OpCode::from_byte(0x8), Ok(OpCode::ALLOC));
    assert_eq!(OpCode::from_byte(0x9), Ok(OpCode::FREE));
    assert_eq!(OpCode::from_byte(0xA), Ok(OpCode::OUT));
    assert_eq!(OpCode::from_byte(0xB), Ok(OpCode::IN));
    assert_eq!(OpCode::from_byte(0xC), Ok(OpCode::CALL));
    assert_eq!(OpCode::from_byte(0xD), Ok(OpCode::CONST));
    assert_eq!(OpCode::from_byte(0xE), Err(Trap::MalformedInstruction));
    assert_eq!(OpCode::from_byte(0xF), Err(Trap::MalformedInstruction));
}

#[test]
fn decode_standard_word_operands() {
    // ADD, with a=5, b=3, c=7 in bits 8..0.
    let word: u32 = (0x3 << 28) | (5 << 6) | (3 << 3) | 7;
    let i = Instruction::decode(word).unwrap();
    assert_eq!(i.op_code, OpCode::ADD);
    assert_eq!(i.r_a, 5);
    assert_eq!(i.r_b, 3);
    assert_eq!(i.r_c, 7);
    assert_eq!(i.value, 0);
}

#[test]
fn decode_ignores_unused_bits() {
    // Bits 27..9 of a standard word must not matter, whatever they hold.
    let word: u32 = (0x6 << 28) | (0x7FFFF << 9) | (1 << 6) | (2 << 3) | 3;
    let i = Instruction::decode(word).unwrap();
    assert_eq!(i.op_code, OpCode::NAND);
    assert_eq!(i.r_a, 1);
    assert_eq!(i.r_b, 2);
    assert_eq!(i.r_c, 3);
}

#[test]
fn decode_load_immediate_word() {
    let i = Instruction::decode(0xD0000041).unwrap();
    assert_eq!(i.op_code, OpCode::CONST);
    assert_eq!(i.r_a, 0);
    assert_eq!(i.value, 0x41);
    // Highest register operand and largest immediate.
    let j = Instruction::decode(0xDFFFFFFF).unwrap();
    assert_eq!(j.op_code, OpCode::CONST);
    assert_eq!(j.r_a, 7);
    assert_eq!(j.value, 0x1FFFFFF);
}

#[test]
fn decode_rejects_high_opcodes() {
    assert_eq!(Instruction::decode(0xE0000000), Err(Trap::MalformedInstruction));
    assert_eq!(Instruction::decode(0xFFFFFFFF), Err(Trap::MalformedInstruction));
}

#[test]
fn big_endian_word_assembly() {
    assert_eq!(u8x4_to_u32_big_endian(&[0x12, 0x34, 0x56, 0x78]), 0x12345678);
    assert_eq!(u8x4_to_u32_big_endian(&[0xFF, 0xFF, 0xFF, 0xFF]), 0xFFFFFFFF);
    assert_eq!(u8x4_to_u32_big_endian(&[0x00, 0x00, 0x00, 0x01]), 1);
}

#[test]
fn program_image_to_words() {
    let bytes: Vec<u8> = vec![0x70, 0x00, 0x00, 0x00, 0x12, 0x34, 0x56, 0x78];
    let words = words_from_big_endian_bytes(&bytes);
    assert_eq!(words, vec![0x70000000, 0x12345678]);
    let empty: Vec<u8> = Vec::new();
    assert_eq!(words_from_big_endian_bytes(&empty).len(), 0);
}

#[test]
fn nand_is_symmetric_and_self_inverting() {
    // NAND r0 <- r1 NAND r2, then HALT; run it both ways round.
    let program: Vec<u32> = vec![(0x6 << 28) | (1 << 3) | 2, 0x70000000];
    let x: u32 = 0x0F0F_1234;
    let y: u32 = 0xFF00_00FF;
    let mut one = um32::cpu::CPU::new(program.clone());
    one.set_register(1, x);
    one.set_register(2, y);
    one.interpret().unwrap();
    let mut other = um32::cpu::CPU::new(program.clone());
    other.set_register(1, y);
    other.set_register(2, x);
    other.interpret().unwrap();
    assert_eq!(one.register(0), other.register(0));
    assert_eq!(one.register(0), !(x & y));
    // NAND of a value with itself is its bitwise negation.
    let mut same = um32::cpu::CPU::new(program);
    same.set_register(1, x);
    same.set_register(2, x);
    same.interpret().unwrap();
    assert_eq!(same.register(0), !x);
}
