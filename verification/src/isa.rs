//! Instruction-set definitions: opcodes, the decoded instruction record,
//! the word-level decoder, and the pure arithmetic the opcodes perform.

use vstd::prelude::*;

verus! {

/// The fourteen opcodes, identified by the high nibble of an instruction word.
#[derive(Clone, Copy, Debug, PartialEq, Eq, Structural)]
pub enum OpCode {
    CMOV,
    LOAD,
    STORE,
    ADD,
    MUL,
    DIV,
    NAND,
    HALT,
    ALLOC,
    FREE,
    OUT,
    IN,
    CALL,
    CONST,
}

/// The reasons execution terminates abnormally.
#[derive(Clone, Copy, Debug, PartialEq, Eq, Structural)]
pub enum Trap {
    /// The opcode nibble of a fetched word is above 0xD.
    MalformedInstruction,
    /// LOAD, STORE, or LOAD-PROGRAM (the carried opcode says which) named an
    /// identifier that is not active.
    InactiveArray(OpCode),
    /// FREE named identifier zero, the program array.
    FreeProgramArray,
    /// FREE named a non-zero identifier that is not active.
    DoubleFree,
    /// DIV with a zero divisor.
    DivisionByZero,
    /// OUT with a value above 255.
    OutputOutOfRange,
    /// The execution pointer points past the end of array zero.
    PointerOutOfRange,
    /// LOAD or STORE (the carried opcode says which) with an offset past the
    /// end of the named array.
    OffsetOutOfRange(OpCode),
    /// Every non-zero identifier is active, so none can be handed out.
    IdSpaceExhausted,
    /// A single run reached 2^64 - 1 executed steps, the interpreter's bound;
    /// no real machine reaches this count.
    StepLimitReached,
}

/// A byte zero-extended to a word: what IN writes for a byte it read.
pub open spec fn zero_ext(b: u8) -> u32 {
    b as u32
}

/// The opcode encoded by nibble `b`, for `b <= 0xD`.
pub open spec fn opcode_of(b: u8) -> OpCode
    recommends
        b <= 0xD,
{
    if b == 0x0 {
        OpCode::CMOV
    } else if b == 0x1 {
        OpCode::LOAD
    } else if b == 0x2 {
        OpCode::STORE
    } else if b == 0x3 {
        OpCode::ADD
    } else if b == 0x4 {
        OpCode::MUL
    } else if b == 0x5 {
        OpCode::DIV
    } else if b == 0x6 {
        OpCode::NAND
    } else if b == 0x7 {
        OpCode::HALT
    } else if b == 0x8 {
        OpCode::ALLOC
    } else if b == 0x9 {
        OpCode::FREE
    } else if b == 0xA {
        OpCode::OUT
    } else if b == 0xB {
        OpCode::IN
    } else if b == 0xC {
        OpCode::CALL
    } else {
        OpCode::CONST
    }
}

impl OpCode {
    /// Decodes an opcode nibble; values above 0xD are the malformed-instruction trap.
    pub fn from_byte(b: u8) -> (r: Result<OpCode, Trap>)
        ensures
            b <= 0xD <==> r is Ok,
            r matches Ok(op) ==> op == opcode_of(b),
            r matches Err(t) ==> t == Trap::MalformedInstruction,
    {
        match b {
            0x0 => Ok(OpCode::CMOV),
            0x1 => Ok(OpCode::LOAD),
            0x2 => Ok(OpCode::STORE),
            0x3 => Ok(OpCode::ADD),
            0x4 => Ok(OpCode::MUL),
            0x5 => Ok(OpCode::DIV),
            0x6 => Ok(OpCode::NAND),
            0x7 => Ok(OpCode::HALT),
            0x8 => Ok(OpCode::ALLOC),
            0x9 => Ok(OpCode::FREE),
            0xA => Ok(OpCode::OUT),
            0xB => Ok(OpCode::IN),
            0xC => Ok(OpCode::CALL),
            0xD => Ok(OpCode::CONST),
            _ => Err(Trap::MalformedInstruction),
        }
    }
}

/// The register operand of a load-immediate word: bits 27..25.
#[inline(always)]
fn upper_reg(data: u32) -> (r: u8)
    ensures
        r == ((data >> 25) & 0x7) as u8,
        r < 8,
{
    proof {
        assert((data >> 25) & 0x7 < 8) by (bit_vector);
    }
    ((data >> 25) & 0x7) as u8
}

/// The immediate operand of a load-immediate word: bits 24..0.
#[inline(always)]
fn upper_val(data: u32) -> (r: u32)
    ensures
        r == data & 0x1FFFFFF,
{
    data & 0x1FFFFFF
}

/// The opcode nibble of an instruction word: bits 31..28.
#[inline(always)]
fn upper_byte(data: u32) -> (r: u8)
    ensures
        r == (data >> 28) as u8,
        r == data >> 28,
{
    proof {
        assert(data >> 28 <= 0xF) by (bit_vector);
    }
    (data >> 28) as u8
}

/// Register operand A of a standard word: bits 8..6.
#[inline(always)]
fn parse_r_a(data: u32) -> (r: u8)
    ensures
        r == ((data >> 6) & 0x7) as u8,
        r < 8,
{
    proof {
        assert((data >> 6) & 0x7 < 8) by (bit_vector);
    }
    ((data >> 6) & 0x7) as u8
}

/// Register operand B of a standard word: bits 5..3.
#[inline(always)]
fn parse_r_b(data: u32) -> (r: u8)
    ensures
        r == ((data >> 3) & 0x7) as u8,
        r < 8,
{
    proof {
        assert((data >> 3) & 0x7 < 8) by (bit_vector);
    }
    ((data >> 3) & 0x7) as u8
}

/// Register operand C of a standard word: bits 2..0.
#[inline(always)]
fn parse_r_c(data: u32) -> (r: u8)
    ensures
        r == (data & 0x7) as u8,
        r < 8,
{
    proof {
        assert(data & 0x7 < 8) by (bit_vector);
    }
    (data & 0x7) as u8
}

/// A decoded instruction: the opcode, the three register operands of a
/// standard word (A, B, C), and the operand and immediate value of a
/// load-immediate word.
#[derive(Clone, Copy, Debug, PartialEq, Eq, Structural)]
pub struct Instruction {
    pub op_code: OpCode,
    pub r_a: u8,
    pub r_b: u8,
    pub r_c: u8,
    pub value: u32,
}

/// What a well-formed instruction word decodes to. The opcode is the high
/// nibble. A load-immediate word carries its register operand in bits 27..25
/// and its immediate in bits 24..0; every other word carries its three
/// register operands in bits 8..0, and bits 27..9 are ignored.
pub open spec fn decode_spec(w: u32) -> Instruction
    recommends
        w >> 28 <= 0xD,
{
    let op = opcode_of((w >> 28) as u8);
    if op == OpCode::CONST {
        Instruction { op_code: op, r_a: ((w >> 25) & 0x7) as u8, r_b: 0, r_c: 0, value: w & 0x1FFFFFF }
    } else {
        Instruction {
            op_code: op,
            r_a: ((w >> 6) & 0x7) as u8,
            r_b: ((w >> 3) & 0x7) as u8,
            r_c: (w & 0x7) as u8,
            value: 0,
        }
    }
}

impl Instruction {
    /// The register operands address the eight-entry register file.
    pub open spec fn wf(self) -> bool {
        self.r_a < 8 && self.r_b < 8 && self.r_c < 8
    }

    /// Decodes an instruction word; exactly the words whose opcode nibble is
    /// above 0xD are the malformed-instruction trap.
    pub fn decode(data: u32) -> (r: Result<Instruction, Trap>)
        ensures
            r is Ok <==> data >> 28 <= 0xD,
            r matches Ok(i) ==> i == decode_spec(data) && i.wf(),
            r matches Err(t) ==> t == Trap::MalformedInstruction,
    {
        let op = match OpCode::from_byte(upper_byte(data)) {
            Ok(op) => op,
            Err(t) => {
                return Err(t);
            },
        };
        match op {
            OpCode::CONST => Ok(
                Instruction {
                    op_code: op,
                    r_a: upper_reg(data),
                    r_b: 0,
                    r_c: 0,
                    value: upper_val(data),
                },
            ),
            _ => Ok(
                Instruction {
                    op_code: op,
                    r_a: parse_r_a(data),
                    r_b: parse_r_b(data),
                    r_c: parse_r_c(data),
                    value: 0,
                },
            ),
        }
    }
}

/// The sum of `x` and `y` modulo 2^32: what ADD writes.
pub open spec fn add_words(x: u32, y: u32) -> u32 {
    ((x + y) % 0x1_0000_0000) as u32
}

/// The product of `x` and `y` modulo 2^32: what MUL writes.
pub open spec fn mul_words(x: u32, y: u32) -> u32 {
    ((x * y) % 0x1_0000_0000) as u32
}

/// The unsigned quotient of `x` by `y`: what DIV writes when `y` is not zero.
pub open spec fn div_words(x: u32, y: u32) -> u32
    recommends
        y != 0,
{
    ((x as int) / (y as int)) as u32
}

/// The bitwise negation of the conjunction of `x` and `y`: what NAND writes.
pub open spec fn nand_words(x: u32, y: u32) -> u32 {
    !(x & y)
}

/// The opcodes whose only effect is to write a pure function of the values
/// read from registers B and C into register A.
pub open spec fn is_alu(op: OpCode) -> bool {
    op == OpCode::ADD || op == OpCode::MUL || op == OpCode::DIV || op == OpCode::NAND
}

/// What an arithmetic or logic opcode writes, from the two values it reads.
pub open spec fn alu(op: OpCode, x: u32, y: u32) -> u32
    recommends
        is_alu(op),
        op == OpCode::DIV ==> y != 0,
{
    match op {
        OpCode::ADD => add_words(x, y),
        OpCode::MUL => mul_words(x, y),
        OpCode::DIV => div_words(x, y),
        OpCode::NAND => nand_words(x, y),
        _ => 0,
    }
}

/// For every opcode that writes into register A a function of the values read
/// from registers B and C — the arithmetic and logic opcodes, LOAD, and CMOV
/// when its condition holds — the old value of register A is irrelevant as
/// long as A is not itself read: two register files that differ only there
/// end up equal. (When the written register coincides with a read one, the
/// reads still see the value from before the write: the result is a function
/// of the pre-state alone, as the `update` form of the executor's contract
/// states.)
pub proof fn lemma_written_register_irrelevant(
    regs1: Seq<u32>,
    regs2: Seq<u32>,
    f: spec_fn(u32, u32) -> u32,
    a: int,
    b: int,
    c: int,
)
    requires
        regs1.len() == 8,
        regs2.len() == 8,
        0 <= a < 8,
        0 <= b < 8,
        0 <= c < 8,
        a != b,
        a != c,
        forall|i: int| 0 <= i < 8 && i != a ==> regs1[i] == regs2[i],
    ensures
        regs1.update(a, f(regs1[b], regs1[c])) == regs2.update(a, f(regs2[b], regs2[c])),
{
    assert(regs1.update(a, f(regs1[b], regs1[c])) =~= regs2.update(a, f(regs2[b], regs2[c])));
}

/// ADD is addition modulo 2^32.
pub proof fn lemma_add_modular(x: u32, y: u32)
    ensures
        add_words(x, y) == (x + y) % 0x1_0000_0000,
{
}

/// MUL is multiplication modulo 2^32.
pub proof fn lemma_mul_modular(x: u32, y: u32)
    ensures
        mul_words(x, y) == (x * y) % 0x1_0000_0000,
{
}

/// NAND is symmetric, and NAND of a value with itself is its bitwise negation.
pub proof fn lemma_nand_laws(x: u32, y: u32)
    ensures
        nand_words(x, y) == nand_words(y, x),
        nand_words(x, x) == !x,
{
    assert(!(x & y) == !(y & x)) by (bit_vector);
    assert(!(x & x) == !x) by (bit_vector);
}

/// DIV by a non-zero divisor is the unsigned quotient. (DIV by zero never
/// writes: the executor's contract makes it the division-by-zero trap.)
pub proof fn lemma_div_quotient(x: u32, y: u32)
    requires
        y != 0,
    ensures
        div_words(x, y) == x as int / y as int,
{
}

/// The 32-bit word spelled big-endian by four bytes: `b0` is most significant.
pub open spec fn be_word(b0: u8, b1: u8, b2: u8, b3: u8) -> u32 {
    (b0 * 0x100_0000 + b1 * 0x1_0000 + b2 * 0x100 + b3) as u32
}

/// One big-endian word from the first four bytes of a group.
pub fn u8x4_to_u32_big_endian(u8s: &[u8]) -> (r: u32)
    requires
        u8s@.len() >= 4,
    ensures
        r == be_word(u8s@[0], u8s@[1], u8s@[2], u8s@[3]),
{
    let b0 = u8s[0];
    let b1 = u8s[1];
    let b2 = u8s[2];
    let b3 = u8s[3];
    proof {
        assert((b0 as u32) << 24 == b0 * 0x100_0000 && (b0 as u32) << 24 <= 0xFF00_0000) by (bit_vector);
        assert((b1 as u32) << 16 == b1 * 0x1_0000 && (b1 as u32) << 16 <= 0xFF_0000) by (bit_vector);
        assert((b2 as u32) << 8 == b2 * 0x100 && (b2 as u32) << 8 <= 0xFF00) by (bit_vector);
    }
    ((b0 as u32) << 24) + ((b1 as u32) << 16) + ((b2 as u32) << 8) + (b3 as u32)
}

/// The words of a program image: each group of four consecutive bytes,
/// big-endian, becomes one word, in order.
pub fn words_from_big_endian_bytes(bytes: &[u8]) -> (w: Vec<u32>)
    requires
        bytes@.len() % 4 == 0,
    ensures
        w@.len() == bytes@.len() / 4,
        forall|i: int|
            0 <= i < w@.len() ==> #[trigger] w@[i] == be_word(
                bytes@[4 * i],
                bytes@[4 * i + 1],
                bytes@[4 * i + 2],
                bytes@[4 * i + 3],
            ),
{
    let mut w: Vec<u32> = Vec::new();
    let mut j: usize = 0;
    while j < bytes.len()
        invariant
            j <= bytes@.len(),
            bytes@.len() % 4 == 0,
            j == 4 * w@.len(),
            forall|k: int|
                0 <= k < w@.len() ==> #[trigger] w@[k] == be_word(
                    bytes@[4 * k],
                    bytes@[4 * k + 1],
                    bytes@[4 * k + 2],
                    bytes@[4 * k + 3],
                ),
        decreases bytes@.len() - j,
    {
        let group = vstd::slice::slice_subrange(bytes, j, j + 4);
        w.push(u8x4_to_u32_big_endian(group));
        j = j + 4;
    }
    w
}

} // verus!
