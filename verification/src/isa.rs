//! The instruction set architecture shared by the assembler and the
//! emulator: the opcode enumeration, the five instruction-word shapes and
//! their bit layouts, packing of operand fields into a 16-bit word, and
//! extraction of those fields back out of a word.
//!
//! Word layout (most significant bit first): the opcode always occupies the
//! top 5 bits; `rd` sits at bit 8, `rs` at bit 5, `rc` at bit 2; immediates
//! sit at bit 0 (8 or 11 or 5 bits wide) or at bit 1 (4 bits wide); the
//! register count of a push or pop occupies the bottom 2 bits.

use vstd::prelude::*;

verus! {

/// The 29 opcodes, with numeric codes 0x00..=0x1C assigned densely in
/// declaration order (see `opcode_value`).
#[derive(Clone, Copy, PartialEq, Eq, Structural, Debug)]
pub enum Opcode {
    MovIm,
    MovRg,
    Load,
    LoadRg,
    Store,
    StrRg,
    Push,
    Pop,
    AddIm,
    AddRg,
    SubIm,
    SubRg,
    ShftL,
    ShftR,
    And,
    Or,
    Not,
    Jmp,
    Bln,
    Ret,
    CmpIm,
    CmpRg,
    Beq,
    Bne,
    Bgt,
    Bgtu,
    Blt,
    Bltu,
    Halt,
}

/// The 5-bit numeric code of each opcode.
pub open spec fn opcode_value(op: Opcode) -> u8 {
    match op {
        Opcode::MovIm => 0x00,
        Opcode::MovRg => 0x01,
        Opcode::Load => 0x02,
        Opcode::LoadRg => 0x03,
        Opcode::Store => 0x04,
        Opcode::StrRg => 0x05,
        Opcode::Push => 0x06,
        Opcode::Pop => 0x07,
        Opcode::AddIm => 0x08,
        Opcode::AddRg => 0x09,
        Opcode::SubIm => 0x0A,
        Opcode::SubRg => 0x0B,
        Opcode::ShftL => 0x0C,
        Opcode::ShftR => 0x0D,
        Opcode::And => 0x0E,
        Opcode::Or => 0x0F,
        Opcode::Not => 0x10,
        Opcode::Jmp => 0x11,
        Opcode::Bln => 0x12,
        Opcode::Ret => 0x13,
        Opcode::CmpIm => 0x14,
        Opcode::CmpRg => 0x15,
        Opcode::Beq => 0x16,
        Opcode::Bne => 0x17,
        Opcode::Bgt => 0x18,
        Opcode::Bgtu => 0x19,
        Opcode::Blt => 0x1A,
        Opcode::Bltu => 0x1B,
        Opcode::Halt => 0x1C,
    }
}

/// The opcode denoted by a 5-bit code, if any: total on 0x00..=0x1C,
/// undefined above.
pub open spec fn spec_opcode_from_u8(v: u8) -> Option<Opcode> {
    if v == 0x00 {
        Some(Opcode::MovIm)
    } else if v == 0x01 {
        Some(Opcode::MovRg)
    } else if v == 0x02 {
        Some(Opcode::Load)
    } else if v == 0x03 {
        Some(Opcode::LoadRg)
    } else if v == 0x04 {
        Some(Opcode::Store)
    } else if v == 0x05 {
        Some(Opcode::StrRg)
    } else if v == 0x06 {
        Some(Opcode::Push)
    } else if v == 0x07 {
        Some(Opcode::Pop)
    } else if v == 0x08 {
        Some(Opcode::AddIm)
    } else if v == 0x09 {
        Some(Opcode::AddRg)
    } else if v == 0x0A {
        Some(Opcode::SubIm)
    } else if v == 0x0B {
        Some(Opcode::SubRg)
    } else if v == 0x0C {
        Some(Opcode::ShftL)
    } else if v == 0x0D {
        Some(Opcode::ShftR)
    } else if v == 0x0E {
        Some(Opcode::And)
    } else if v == 0x0F {
        Some(Opcode::Or)
    } else if v == 0x10 {
        Some(Opcode::Not)
    } else if v == 0x11 {
        Some(Opcode::Jmp)
    } else if v == 0x12 {
        Some(Opcode::Bln)
    } else if v == 0x13 {
        Some(Opcode::Ret)
    } else if v == 0x14 {
        Some(Opcode::CmpIm)
    } else if v == 0x15 {
        Some(Opcode::CmpRg)
    } else if v == 0x16 {
        Some(Opcode::Beq)
    } else if v == 0x17 {
        Some(Opcode::Bne)
    } else if v == 0x18 {
        Some(Opcode::Bgt)
    } else if v == 0x19 {
        Some(Opcode::Bgtu)
    } else if v == 0x1A {
        Some(Opcode::Blt)
    } else if v == 0x1B {
        Some(Opcode::Bltu)
    } else if v == 0x1C {
        Some(Opcode::Halt)
    } else {
        None
    }
}

/// Numeric code of an opcode; inverse of `opcode_from_u8`.
pub fn opcode_to_u8(op: Opcode) -> (v: u8)
    ensures
        v == opcode_value(op),
        v <= 0x1C,
{
    match op {
        Opcode::MovIm => 0x00,
        Opcode::MovRg => 0x01,
        Opcode::Load => 0x02,
        Opcode::LoadRg => 0x03,
        Opcode::Store => 0x04,
        Opcode::StrRg => 0x05,
        Opcode::Push => 0x06,
        Opcode::Pop => 0x07,
        Opcode::AddIm => 0x08,
        Opcode::AddRg => 0x09,
        Opcode::SubIm => 0x0A,
        Opcode::SubRg => 0x0B,
        Opcode::ShftL => 0x0C,
        Opcode::ShftR => 0x0D,
        Opcode::And => 0x0E,
        Opcode::Or => 0x0F,
        Opcode::Not => 0x10,
        Opcode::Jmp => 0x11,
        Opcode::Bln => 0x12,
        Opcode::Ret => 0x13,
        Opcode::CmpIm => 0x14,
        Opcode::CmpRg => 0x15,
        Opcode::Beq => 0x16,
        Opcode::Bne => 0x17,
        Opcode::Bgt => 0x18,
        Opcode::Bgtu => 0x19,
        Opcode::Blt => 0x1A,
        Opcode::Bltu => 0x1B,
        Opcode::Halt => 0x1C,
    }
}

/// Decodes a 5-bit code into an opcode; `None` exactly on the values
/// 0x1D..=0xFF that denote no opcode.
pub fn opcode_from_u8(v: u8) -> (r: Option<Opcode>)
    ensures
        r == spec_opcode_from_u8(v),
        r is Some <==> v <= 0x1C,
        r is Some ==> opcode_value(r->Some_0) == v,
{
    let r = if v == 0x00 {
        Some(Opcode::MovIm)
    } else if v == 0x01 {
        Some(Opcode::MovRg)
    } else if v == 0x02 {
        Some(Opcode::Load)
    } else if v == 0x03 {
        Some(Opcode::LoadRg)
    } else if v == 0x04 {
        Some(Opcode::Store)
    } else if v == 0x05 {
        Some(Opcode::StrRg)
    } else if v == 0x06 {
        Some(Opcode::Push)
    } else if v == 0x07 {
        Some(Opcode::Pop)
    } else if v == 0x08 {
        Some(Opcode::AddIm)
    } else if v == 0x09 {
        Some(Opcode::AddRg)
    } else if v == 0x0A {
        Some(Opcode::SubIm)
    } else if v == 0x0B {
        Some(Opcode::SubRg)
    } else if v == 0x0C {
        Some(Opcode::ShftL)
    } else if v == 0x0D {
        Some(Opcode::ShftR)
    } else if v == 0x0E {
        Some(Opcode::And)
    } else if v == 0x0F {
        Some(Opcode::Or)
    } else if v == 0x10 {
        Some(Opcode::Not)
    } else if v == 0x11 {
        Some(Opcode::Jmp)
    } else if v == 0x12 {
        Some(Opcode::Bln)
    } else if v == 0x13 {
        Some(Opcode::Ret)
    } else if v == 0x14 {
        Some(Opcode::CmpIm)
    } else if v == 0x15 {
        Some(Opcode::CmpRg)
    } else if v == 0x16 {
        Some(Opcode::Beq)
    } else if v == 0x17 {
        Some(Opcode::Bne)
    } else if v == 0x18 {
        Some(Opcode::Bgt)
    } else if v == 0x19 {
        Some(Opcode::Bgtu)
    } else if v == 0x1A {
        Some(Opcode::Blt)
    } else if v == 0x1B {
        Some(Opcode::Bltu)
    } else if v == 0x1C {
        Some(Opcode::Halt)
    } else {
        None
    };
    r
}

// ------------------------- 16-bit reinterpretation -------------------------

/// The bit pattern of a signed 16-bit value, as an unsigned word.
pub open spec fn i16_bits(v: i16) -> u16 {
    if v >= 0 {
        v as u16
    } else {
        (v + 0x10000) as u16
    }
}

/// The signed 16-bit value a word's bit pattern denotes.
pub open spec fn bits_i16(w: u16) -> i16 {
    if w < 0x8000 {
        w as i16
    } else {
        (w - 0x10000) as i16
    }
}

/// An integer reduced modulo 2^16 to a word.
pub open spec fn wrap_u16(x: int) -> u16 {
    (((x % 0x10000) + 0x10000) % 0x10000) as u16
}

/// An integer reduced modulo 2^16 to a signed 16-bit value.
pub open spec fn wrap_i16(x: int) -> i16 {
    bits_i16(wrap_u16(x))
}

/// Reinterprets a signed 16-bit value as its unsigned bit pattern.
pub fn to_bits(v: i16) -> (r: u16)
    ensures
        r == i16_bits(v),
{
    if v >= 0 {
        v as u16
    } else {
        ((v as i32) + 0x10000) as u16
    }
}

/// Reinterprets a word as the signed 16-bit value of its bit pattern.
pub fn from_bits(w: u16) -> (r: i16)
    ensures
        r == bits_i16(w),
{
    if w < 0x8000 {
        w as i16
    } else {
        ((w as i32) - 0x10000) as i16
    }
}

// ------------------------- field extraction -------------------------

/// Opcode field: the top 5 bits of a word.
pub open spec fn word_op(w: u16) -> u16 {
    w >> 11
}

/// First register field, at bit 8.
pub open spec fn word_rd(w: u16) -> u16 {
    (w >> 8) & 0x7
}

/// Second register field, at bit 5.
pub open spec fn word_rs(w: u16) -> u16 {
    (w >> 5) & 0x7
}

/// Third register field, at bit 2.
pub open spec fn word_rc(w: u16) -> u16 {
    (w >> 2) & 0x7
}

/// 8-bit immediate at bit 0.
pub open spec fn word_imm8(w: u16) -> u16 {
    w & 0xFF
}

/// 11-bit immediate at bit 0.
pub open spec fn word_imm11(w: u16) -> u16 {
    w & 0x7FF
}

/// 5-bit immediate at bit 0 (memory offset, add/sub constant).
pub open spec fn word_imm5(w: u16) -> u16 {
    w & 0x1F
}

/// 4-bit immediate at bit 1 (shift amount).
pub open spec fn word_imm4(w: u16) -> u16 {
    (w >> 1) & 0xF
}

/// 2-bit register count of a push or pop, at bit 0.
pub open spec fn word_num2(w: u16) -> u16 {
    w & 0x3
}

/// The value of `size` bits whose leftmost bit lies `right_offset` bits
/// below the word's most significant bit.
pub open spec fn spec_extract_bits(w: u16, size: nat, right_offset: nat) -> u16
    recommends
        0 < size,
        size + right_offset <= 16,
{
    (w >> ((16 - right_offset - size) as u16)) & (((1u32 << (size as u32)) - 1) as u16)
}

/// Extracts the value of `size` bits offset `right_offset` bits down from
/// the word's most significant bit.
pub fn extract_bits(num: u16, size: usize, right_offset: usize) -> (r: usize)
    requires
        0 < size,
        size + right_offset <= 16,
    ensures
        r == spec_extract_bits(num, size as nat, right_offset as nat),
        r < (1usize << (size as usize)),
{
    let left_offset: usize = 16 - right_offset - size;
    proof {
        let s32 = size as u32;
        assert(1u32 <= (1u32 << s32) <= 0x10000 || s32 > 16) by (bit_vector);
    }
    let mask: u16 = ((1u32 << (size as u32)) - 1) as u16;
    let r = ((num >> (left_offset as u16)) & mask) as usize;
    proof {
        let s = size as u16;
        let lo = left_offset as u16;
        assert(((num >> lo) & (((1u32 << (s as u32)) - 1) as u16)) < (1u16 << s) || s >= 16)
            by (bit_vector);
        assert((1usize << (size as usize)) == (1u16 << s) || size >= 16) by (bit_vector)
            requires
                s == size as u16,
        ;
        if size == 16 {
            assert(r < (1usize << 16usize)) by (bit_vector)
                requires
                    r < 0x10000usize,
            ;
        }
    }
    r
}

// ------------------------- packing -------------------------

/// T1 word: op(5) rd(3) imm(8).
pub open spec fn pack_t1(op: u8, rd: u8, imm: u8) -> u16 {
    ((op as u16) << 11) | ((rd as u16) << 8) | (imm as u16)
}

/// T2 word: op(5) rd(3) rs(3) f(5). The `f` operand is carried as a full
/// byte and is simply or-ed over the low byte, exactly as emitted: a value
/// wider than 5 bits spills into the `rs` field.
pub open spec fn pack_t2(op: u8, rd: u8, rs: u8, f: u8) -> u16 {
    ((op as u16) << 11) | ((rd as u16) << 8) | (((rs as u16) << 5) | (f as u16))
}

/// T3 word: op(5) imm(11).
pub open spec fn pack_t3(op: u8, imm: u16) -> u16 {
    ((op as u16) << 11) | imm
}

/// T4 word: op(5) ra(3) rb(3) rc(3) num(2). The bottom two bits carry the
/// number of registers named by a push or pop.
pub open spec fn pack_t4(op: u8, ra: u8, rb: u8, rc: u8, num: u8) -> u16 {
    ((op as u16) << 11) | ((ra as u16) << 8) | (((rb as u16) << 5) | ((rc as u16) << 2) | (
    num as u16))
}

/// T5 word: op(5) rd(3) rs(3) imm(4) unused(1). The low byte keeps only
/// its bottom 8 bits, exactly as emitted: a shift amount wider than 4 bits
/// spills into the `rs` field and loses its top bit.
pub open spec fn pack_t5(op: u8, rd: u8, rs: u8, imm: u8) -> u16 {
    ((op as u16) << 11) | ((rd as u16) << 8) | ((((rs as u16) << 5) | ((imm as u16) << 1)) & 0xFF)
}

/// Big-endian byte pair of a word.
pub open spec fn word_bytes(w: u16) -> (u8, u8) {
    ((w >> 8) as u8, (w & 0xFF) as u8)
}

/// How a 16-bit instruction word is partitioned into operand fields; each
/// variant carries the opcode first, then the field values in layout order.
pub enum InstructionType {
    T1(u8, u8, u8),
    T2(u8, u8, u8, u8),
    T3(u8, u16),
    T4(u8, u8, u8, u8, u8),
    T5(u8, u8, u8, u8),
}

/// The word an instruction encodes to.
pub open spec fn spec_encode(instr: InstructionType) -> u16 {
    match instr {
        InstructionType::T1(op, rd, imm) => pack_t1(op, rd, imm),
        InstructionType::T2(op, rd, rs, f) => pack_t2(op, rd, rs, f),
        InstructionType::T3(op, imm) => pack_t3(op, imm),
        InstructionType::T4(op, ra, rb, rc, num) => pack_t4(op, ra, rb, rc, num),
        InstructionType::T5(op, rd, rs, imm) => pack_t5(op, rd, rs, imm),
    }
}

/// Packs the operand fields of an instruction into its word and splits the
/// word into its big-endian byte pair.
pub fn encode(instr: InstructionType) -> (r: [u8; 2])
    ensures
        r@[0] == word_bytes(spec_encode(instr)).0,
        r@[1] == word_bytes(spec_encode(instr)).1,
{
    let w: u16 = match instr {
        InstructionType::T1(op, rd, imm) => ((op as u16) << 11) | ((rd as u16) << 8) | (
        imm as u16),
        InstructionType::T2(op, rd, rs, f) => ((op as u16) << 11) | ((rd as u16) << 8) | (((
        rs as u16) << 5) | (f as u16)),
        InstructionType::T3(op, imm) => ((op as u16) << 11) | imm,
        InstructionType::T4(op, ra, rb, rc, num) => ((op as u16) << 11) | ((ra as u16) << 8) | (((
        rb as u16) << 5) | ((rc as u16) << 2) | (num as u16)),
        InstructionType::T5(op, rd, rs, imm) => ((op as u16) << 11) | ((rd as u16) << 8) | ((((
        rs as u16) << 5) | ((imm as u16) << 1)) & 0xFF),
    };
    let msb: u8 = (w >> 8) as u8;
    let lsb: u8 = (w & 0xFF) as u8;
    proof {
        assert((w >> 8) < 256 && (w & 0xFF) < 256) by (bit_vector);
    }
    [msb, lsb]
}

// ------------------------- round-trip laws -------------------------

/// Extracting the fields of a packed T1 word returns the packed operands:
/// encoding and field extraction are mutually inverse on this shape.
pub proof fn lemma_t1_round_trip(op: u8, rd: u8, imm: u8)
    by (bit_vector)
    requires
        op < 32,
        rd < 8,
    ensures
        word_op(pack_t1(op, rd, imm)) == op,
        word_rd(pack_t1(op, rd, imm)) == rd,
        word_imm8(pack_t1(op, rd, imm)) == imm,
{
}

/// Extracting the fields of a packed T2 word returns the packed operands,
/// provided the immediate fits its 5-bit field.
pub proof fn lemma_t2_round_trip(op: u8, rd: u8, rs: u8, f: u8)
    by (bit_vector)
    requires
        op < 32,
        rd < 8,
        rs < 8,
        f < 32,
    ensures
        word_op(pack_t2(op, rd, rs, f)) == op,
        word_rd(pack_t2(op, rd, rs, f)) == rd,
        word_rs(pack_t2(op, rd, rs, f)) == rs,
        word_imm5(pack_t2(op, rd, rs, f)) == f,
{
}

/// Extracting the fields of a packed T3 word returns the packed operands,
/// provided the immediate fits its 11-bit field.
pub proof fn lemma_t3_round_trip(op: u8, imm: u16)
    by (bit_vector)
    requires
        op < 32,
        imm < 2048,
    ensures
        word_op(pack_t3(op, imm)) == op,
        word_imm11(pack_t3(op, imm)) == imm,
{
}

/// Extracting the fields of a packed T4 word returns the packed operands.
pub proof fn lemma_t4_round_trip(op: u8, ra: u8, rb: u8, rc: u8, num: u8)
    by (bit_vector)
    requires
        op < 32,
        ra < 8,
        rb < 8,
        rc < 8,
        num < 4,
    ensures
        word_op(pack_t4(op, ra, rb, rc, num)) == op,
        word_rd(pack_t4(op, ra, rb, rc, num)) == ra,
        word_rs(pack_t4(op, ra, rb, rc, num)) == rb,
        word_rc(pack_t4(op, ra, rb, rc, num)) == rc,
        word_num2(pack_t4(op, ra, rb, rc, num)) == num,
{
}

/// Extracting the fields of a packed T5 word returns the packed operands,
/// provided the immediate fits its 4-bit field.
pub proof fn lemma_t5_round_trip(op: u8, rd: u8, rs: u8, imm: u8)
    by (bit_vector)
    requires
        op < 32,
        rd < 8,
        rs < 8,
        imm < 16,
    ensures
        word_op(pack_t5(op, rd, rs, imm)) == op,
        word_rd(pack_t5(op, rd, rs, imm)) == rd,
        word_rs(pack_t5(op, rd, rs, imm)) == rs,
        word_imm4(pack_t5(op, rd, rs, imm)) == imm,
{
}

/// A word reassembles from its big-endian byte pair.
pub proof fn lemma_word_bytes(w: u16)
    by (bit_vector)
    ensures
        ((word_bytes(w).0 as u16) << 8) | (word_bytes(w).1 as u16) == w,
{
}


/// The two bytes of a word are byte-sized.
pub proof fn lemma_split_word(w: u16)
    by (bit_vector)
    ensures
        (w >> 8) < 256,
        (w & 0xFF) < 256,
{
}

/// Setting bit 11 of a word sets bit 3 of its high byte, keeps its low
/// byte, and adds one to an even opcode field.
pub proof fn lemma_twin_word(w: u16)
    by (bit_vector)
    ensures
        ((w | 0x0800) >> 8) == (w >> 8) | 0x08,
        ((w | 0x0800) & 0xFF) == (w & 0xFF),
        (((w | 0x0800) >> 8) as u8) == ((w >> 8) as u8) | 0x08,
        (((w | 0x0800) & 0xFF) as u8) == ((w & 0xFF) as u8),
        word_op(w | 0x0800) == word_op(w) | 1,
        word_op(w) == 0x06 ==> word_op(w | 0x0800) == 0x07,
        word_op(w) == 0x0C ==> word_op(w | 0x0800) == 0x0D,
        word_op(w) == 0x0E ==> word_op(w | 0x0800) == 0x0F,
{
}

} // verus!
