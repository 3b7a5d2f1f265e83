//! The emulator: a fetch-decode-execute cycle over a register file and a
//! word-addressed memory, with one execute routine per opcode.
//!
//! Each routine's effect is stated against a ghost model of the register
//! file (`RegModel`) through a pure transition function, so that the
//! dispatching `execute` and the driving `step` can state the machine's
//! whole behaviour in one place (`spec_execute`, `spec_step`).
//!
//! Conventions settled here: a push or pop reads its register count from
//! the bottom two bits of the instruction word; `bln` saves the address of
//! the following instruction in the link register, so that `ret` returns
//! past the call; a conditional branch that is not taken reports a normal
//! program-counter increment; shifts are logical in both directions.

use vstd::prelude::*;
use crate::errors::EmuError;
use crate::isa::{
    word_op, word_rd, word_rs, word_rc, word_imm8, word_imm11, word_imm5, word_imm4, word_num2,
    spec_opcode_from_u8, opcode_from_u8, Opcode, i16_bits, bits_i16, wrap_u16, wrap_i16, to_bits,
    from_bits,
};
use crate::registers::{Registers, Flags, flag_set, flag_read, SP_PTR, LNR_PTR, MBR_PTR};
use core::ops::ControlFlow;

verus! {

// ------------------------- field access -------------------------

proof fn lemma_field_bounds(w: u16)
    by (bit_vector)
    ensures
        (w >> 8) & 0x7 < 8,
        (w >> 5) & 0x7 < 8,
        (w >> 2) & 0x7 < 8,
        w & 0xFF < 256,
        w & 0x7FF < 2048,
        w & 0x1F < 32,
        (w >> 1) & 0xF < 16,
        w & 0x3 < 4,
        w >> 11 < 32,
{
}

fn field_rd(w: u16) -> (r: usize)
    ensures
        r == word_rd(w) as int,
        r < 8,
{
    proof {
        lemma_field_bounds(w);
    }
    ((w >> 8) & 0x7) as usize
}

fn field_rs(w: u16) -> (r: usize)
    ensures
        r == word_rs(w) as int,
        r < 8,
{
    proof {
        lemma_field_bounds(w);
    }
    ((w >> 5) & 0x7) as usize
}

fn field_rc(w: u16) -> (r: usize)
    ensures
        r == word_rc(w) as int,
        r < 8,
{
    proof {
        lemma_field_bounds(w);
    }
    ((w >> 2) & 0x7) as usize
}

fn field_imm8(w: u16) -> (r: u16)
    ensures
        r == word_imm8(w),
        r < 256,
{
    proof {
        lemma_field_bounds(w);
    }
    w & 0xFF
}

fn field_imm11(w: u16) -> (r: u16)
    ensures
        r == word_imm11(w),
        r < 2048,
{
    proof {
        lemma_field_bounds(w);
    }
    w & 0x7FF
}

fn field_imm5(w: u16) -> (r: u16)
    ensures
        r == word_imm5(w),
        r < 32,
{
    proof {
        lemma_field_bounds(w);
    }
    w & 0x1F
}

fn field_imm4(w: u16) -> (r: u16)
    ensures
        r == word_imm4(w),
        r < 16,
{
    proof {
        lemma_field_bounds(w);
    }
    (w >> 1) & 0xF
}

fn field_num2(w: u16) -> (r: usize)
    ensures
        r == word_num2(w) as int,
        r < 4,
{
    proof {
        lemma_field_bounds(w);
    }
    (w & 0x3) as usize
}

// ------------------------- the register-file model -------------------------

/// A ghost mirror of the register file, with the register array as a
/// sequence, over which the transition of each instruction is stated.
#[verifier::ext_equal]
pub struct RegModel {
    pub gp: Seq<i16>,
    pub pc: u16,
    pub acc: i16,
    pub ir: u16,
    pub mar: u16,
    pub flags: u8,
}

/// The model of a concrete register file.
pub open spec fn rmodel(r: Registers) -> RegModel {
    RegModel { gp: r.gp@, pc: r.pc, acc: r.acc, ir: r.ir, mar: r.mar, flags: r.flags }
}

// ------------------------- flag outcomes -------------------------

/// Flags after a shift, a bitwise operation, or a successful addition:
/// overflow and carry cleared, zero and negative set from the result.
pub open spec fn flags_logic(f: u8, v: i16) -> u8 {
    flag_set(
        flag_set(flag_set(flag_set(f, Flags::OV, false), Flags::CA, false), Flags::ZR, v == 0),
        Flags::NG,
        v < 0,
    )
}

/// Flags after an addition that overflowed: overflow and carry set, the
/// rest untouched.
pub open spec fn flags_add_overflow(f: u8) -> u8 {
    flag_set(flag_set(f, Flags::OV, true), Flags::CA, true)
}

/// Flags after a successful subtraction or comparison: overflow cleared,
/// carry set exactly when the result is non-negative, zero and negative
/// set from the result.
pub open spec fn flags_sub_ok(f: u8, v: i16) -> u8 {
    flag_set(
        flag_set(flag_set(flag_set(f, Flags::OV, false), Flags::CA, v >= 0), Flags::ZR, v == 0),
        Flags::NG,
        v < 0,
    )
}

/// Flags after a subtraction or comparison that overflowed: overflow set,
/// the rest untouched.
pub open spec fn flags_sub_overflow(f: u8) -> u8 {
    flag_set(f, Flags::OV, true)
}

/// After a shift, bitwise operation or successful addition, the zero flag
/// reads as `result == 0`, the negative flag as `result < 0`, and the
/// overflow and carry flags read clear.
pub proof fn lemma_flags_logic(f: u8, v: i16)
    ensures
        flag_read(flags_logic(f, v), Flags::ZR) == (v == 0),
        flag_read(flags_logic(f, v), Flags::NG) == (v < 0),
        !flag_read(flags_logic(f, v), Flags::OV),
        !flag_read(flags_logic(f, v), Flags::CA),
{
    let f1 = flag_set(f, Flags::OV, false);
    let f2 = flag_set(f1, Flags::CA, false);
    let f3 = flag_set(f2, Flags::ZR, v == 0);
    crate::registers::lemma_flag_set_read(f3, Flags::NG, Flags::NG, v < 0);
    crate::registers::lemma_flag_set_read(f3, Flags::NG, Flags::ZR, v < 0);
    crate::registers::lemma_flag_set_read(f3, Flags::NG, Flags::OV, v < 0);
    crate::registers::lemma_flag_set_read(f3, Flags::NG, Flags::CA, v < 0);
    crate::registers::lemma_flag_set_read(f2, Flags::ZR, Flags::ZR, v == 0);
    crate::registers::lemma_flag_set_read(f2, Flags::ZR, Flags::OV, v == 0);
    crate::registers::lemma_flag_set_read(f2, Flags::ZR, Flags::CA, v == 0);
    crate::registers::lemma_flag_set_read(f1, Flags::CA, Flags::OV, false);
    crate::registers::lemma_flag_set_read(f1, Flags::CA, Flags::CA, false);
    crate::registers::lemma_flag_set_read(f, Flags::OV, Flags::OV, false);
}

/// After an addition that overflowed, the overflow and carry flags read
/// set and the zero and negative flags read as before.
pub proof fn lemma_flags_add_overflow(f: u8)
    ensures
        flag_read(flags_add_overflow(f), Flags::OV),
        flag_read(flags_add_overflow(f), Flags::CA),
        flag_read(flags_add_overflow(f), Flags::ZR) == flag_read(f, Flags::ZR),
        flag_read(flags_add_overflow(f), Flags::NG) == flag_read(f, Flags::NG),
{
    let f1 = flag_set(f, Flags::OV, true);
    crate::registers::lemma_flag_set_read(f1, Flags::CA, Flags::CA, true);
    crate::registers::lemma_flag_set_read(f1, Flags::CA, Flags::OV, true);
    crate::registers::lemma_flag_set_read(f1, Flags::CA, Flags::ZR, true);
    crate::registers::lemma_flag_set_read(f1, Flags::CA, Flags::NG, true);
    crate::registers::lemma_flag_set_read(f, Flags::OV, Flags::OV, true);
    crate::registers::lemma_flag_set_read(f, Flags::OV, Flags::ZR, true);
    crate::registers::lemma_flag_set_read(f, Flags::OV, Flags::NG, true);
}

/// After a successful subtraction or comparison, the zero flag reads as
/// `result == 0`, the negative flag as `result < 0`, the carry flag as
/// `result >= 0`, and the overflow flag reads clear.
pub proof fn lemma_flags_sub_ok(f: u8, v: i16)
    ensures
        flag_read(flags_sub_ok(f, v), Flags::ZR) == (v == 0),
        flag_read(flags_sub_ok(f, v), Flags::NG) == (v < 0),
        flag_read(flags_sub_ok(f, v), Flags::CA) == (v >= 0),
        !flag_read(flags_sub_ok(f, v), Flags::OV),
{
    let f1 = flag_set(f, Flags::OV, false);
    let f2 = flag_set(f1, Flags::CA, v >= 0);
    let f3 = flag_set(f2, Flags::ZR, v == 0);
    crate::registers::lemma_flag_set_read(f3, Flags::NG, Flags::NG, v < 0);
    crate::registers::lemma_flag_set_read(f3, Flags::NG, Flags::ZR, v < 0);
    crate::registers::lemma_flag_set_read(f3, Flags::NG, Flags::OV, v < 0);
    crate::registers::lemma_flag_set_read(f3, Flags::NG, Flags::CA, v < 0);
    crate::registers::lemma_flag_set_read(f2, Flags::ZR, Flags::ZR, v == 0);
    crate::registers::lemma_flag_set_read(f2, Flags::ZR, Flags::OV, v == 0);
    crate::registers::lemma_flag_set_read(f2, Flags::ZR, Flags::CA, v == 0);
    crate::registers::lemma_flag_set_read(f1, Flags::CA, Flags::OV, v >= 0);
    crate::registers::lemma_flag_set_read(f1, Flags::CA, Flags::CA, v >= 0);
    crate::registers::lemma_flag_set_read(f, Flags::OV, Flags::OV, false);
}

/// After a subtraction or comparison that overflowed, the overflow flag
/// reads set and the other three read as before.
pub proof fn lemma_flags_sub_overflow(f: u8)
    ensures
        flag_read(flags_sub_overflow(f), Flags::OV),
        flag_read(flags_sub_overflow(f), Flags::CA) == flag_read(f, Flags::CA),
        flag_read(flags_sub_overflow(f), Flags::ZR) == flag_read(f, Flags::ZR),
        flag_read(flags_sub_overflow(f), Flags::NG) == flag_read(f, Flags::NG),
{
    crate::registers::lemma_flag_set_read(f, Flags::OV, Flags::OV, true);
    crate::registers::lemma_flag_set_read(f, Flags::OV, Flags::CA, true);
    crate::registers::lemma_flag_set_read(f, Flags::OV, Flags::ZR, true);
    crate::registers::lemma_flag_set_read(f, Flags::OV, Flags::NG, true);
}

/// Sets or clears one condition flag in a flags byte.
fn set_flag(f: u8, flag: Flags, b: bool) -> (r: u8)
    ensures
        r == flag_set(f, flag, b),
{
    let pos: u8 = match flag {
        Flags::OV => 0,
        Flags::CA => 1,
        Flags::ZR => 2,
        Flags::NG => 3,
    };
    if b {
        f | (1u8 << pos)
    } else {
        f & !(1u8 << pos)
    }
}

fn exec_flags_logic(f: u8, v: i16) -> (r: u8)
    ensures
        r == flags_logic(f, v),
{
    let f1 = set_flag(f, Flags::OV, false);
    let f2 = set_flag(f1, Flags::CA, false);
    let f3 = set_flag(f2, Flags::ZR, v == 0);
    set_flag(f3, Flags::NG, v < 0)
}

fn exec_flags_sub_ok(f: u8, v: i16) -> (r: u8)
    ensures
        r == flags_sub_ok(f, v),
{
    let f1 = set_flag(f, Flags::OV, false);
    let f2 = set_flag(f1, Flags::CA, v >= 0);
    let f3 = set_flag(f2, Flags::ZR, v == 0);
    set_flag(f3, Flags::NG, v < 0)
}

// ------------------------- transitions: moves and memory -------------------------

/// Effect of `mov` immediate: the 8-bit constant, zero-extended, lands in
/// the destination register; no flag changes.
pub open spec fn spec_mov_im(m: RegModel) -> RegModel {
    RegModel { gp: m.gp.update(word_rd(m.ir) as int, word_imm8(m.ir) as i16), ..m }
}

/// Effect of `mov` with registers: the source register's value lands in
/// the destination register; no flag changes.
pub open spec fn spec_mov_rg(m: RegModel) -> RegModel {
    RegModel { gp: m.gp.update(word_rd(m.ir) as int, m.gp[word_rs(m.ir) as int]), ..m }
}

/// Effect of `lda`: the word at the 11-bit address lands in the memory
/// buffer register; out of bounds is fatal.
pub open spec fn spec_load(m: RegModel, mem: Seq<u16>) -> Result<RegModel, u16> {
    let a = word_imm11(m.ir);
    if a as int >= mem.len() {
        Err(a)
    } else {
        Ok(RegModel { gp: m.gp.update(MBR_PTR as int, bits_i16(mem[a as int])), ..m })
    }
}

/// The memory address an `ldr` or `strr` names: the address-register
/// field's index plus the 5-bit offset.
pub open spec fn reg_offset_addr(ir: u16) -> u16 {
    (word_rs(ir) + word_imm5(ir)) as u16
}

/// Effect of `ldr`: the word at the named address lands in the destination
/// register; out of bounds is fatal.
pub open spec fn spec_load_rg(m: RegModel, mem: Seq<u16>) -> Result<RegModel, u16> {
    let a = reg_offset_addr(m.ir);
    if a as int >= mem.len() {
        Err(a)
    } else {
        Ok(RegModel { gp: m.gp.update(word_rd(m.ir) as int, bits_i16(mem[a as int])), ..m })
    }
}

/// Effect of `stra`: the memory buffer register's bit pattern lands at the
/// 11-bit address; out of bounds is fatal. Registers are untouched.
pub open spec fn spec_store(m: RegModel, mem: Seq<u16>) -> Result<Seq<u16>, u16> {
    let a = word_imm11(m.ir);
    if a as int >= mem.len() {
        Err(a)
    } else {
        Ok(mem.update(a as int, i16_bits(m.gp[MBR_PTR as int])))
    }
}

/// Effect of `strr`: the source register's bit pattern lands at the named
/// address; out of bounds is fatal. Registers are untouched.
pub open spec fn spec_store_rg(m: RegModel, mem: Seq<u16>) -> Result<Seq<u16>, u16> {
    let a = reg_offset_addr(m.ir);
    if a as int >= mem.len() {
        Err(a)
    } else {
        Ok(mem.update(a as int, i16_bits(m.gp[word_rd(m.ir) as int])))
    }
}

/// The register index named by the i-th slot of a push or pop word.
pub open spec fn push_slot(ir: u16, i: int) -> int {
    if i == 0 {
        word_rd(ir) as int
    } else if i == 1 {
        word_rs(ir) as int
    } else {
        word_rc(ir) as int
    }
}

/// State after the first `k` slots of a push: for each slot in order, the
/// stack pointer is decremented, then the slot's register (the stack
/// pointer included, if named) is written to the word it points at. A
/// write outside memory, or below address zero, stops with that address
/// and leaves the earlier slots' effect in place.
pub open spec fn spec_push_upto(gp: Seq<i16>, mem: Seq<u16>, ir: u16, k: int) -> (
    Seq<i16>,
    Seq<u16>,
    Option<u16>,
)
    decreases k,
{
    if k <= 0 {
        (gp, mem, None)
    } else {
        let (g, mm, e) = spec_push_upto(gp, mem, ir, k - 1);
        if e is Some {
            (g, mm, e)
        } else {
            let sp = g[SP_PTR as int] as int - 1;
            if sp < 0 || sp >= mm.len() {
                (g, mm, Some(wrap_u16(sp)))
            } else {
                let g2 = g.update(SP_PTR as int, sp as i16);
                (g2, mm.update(sp, i16_bits(g2[push_slot(ir, k - 1)])), None)
            }
        }
    }
}

/// State after the first `k` slots of a pop: for each slot in order, the
/// word the stack pointer points at is read into the slot's register, then
/// the stack pointer (possibly just overwritten, if named) is incremented.
/// A read outside memory stops with that address.
pub open spec fn spec_pop_upto(gp: Seq<i16>, mem: Seq<u16>, ir: u16, k: int) -> (
    Seq<i16>,
    Option<u16>,
)
    decreases k,
{
    if k <= 0 {
        (gp, None)
    } else {
        let (g, e) = spec_pop_upto(gp, mem, ir, k - 1);
        if e is Some {
            (g, e)
        } else {
            let sp = g[SP_PTR as int] as int;
            if sp < 0 || sp >= mem.len() {
                (g, Some(wrap_u16(sp)))
            } else {
                let g2 = g.update(push_slot(ir, k - 1), bits_i16(mem[sp]));
                (g2.update(SP_PTR as int, wrap_i16(g2[SP_PTR as int] as int + 1)), None)
            }
        }
    }
}

proof fn lemma_push_error_stable(gp: Seq<i16>, mem: Seq<u16>, ir: u16, k1: int, k2: int)
    requires
        0 <= k1 <= k2,
        spec_push_upto(gp, mem, ir, k1).2 is Some,
    ensures
        spec_push_upto(gp, mem, ir, k2) == spec_push_upto(gp, mem, ir, k1),
    decreases k2 - k1,
{
    if k1 < k2 {
        lemma_push_error_stable(gp, mem, ir, k1, k2 - 1);
    }
}

proof fn lemma_pop_error_stable(gp: Seq<i16>, mem: Seq<u16>, ir: u16, k1: int, k2: int)
    requires
        0 <= k1 <= k2,
        spec_pop_upto(gp, mem, ir, k1).1 is Some,
    ensures
        spec_pop_upto(gp, mem, ir, k2) == spec_pop_upto(gp, mem, ir, k1),
    decreases k2 - k1,
{
    if k1 < k2 {
        lemma_pop_error_stable(gp, mem, ir, k1, k2 - 1);
    }
}

// ------------------------- executable: moves and memory -------------------------

/// Moves an immediate constant into a destination register.
pub fn mov_im(regs: &mut Registers)
    ensures
        rmodel(*final(regs)) =~= spec_mov_im(rmodel(*old(regs))),
{
    let rd = field_rd(regs.ir);
    let val = field_imm8(regs.ir);
    regs.gp[rd] = val as i16;
}

/// Moves the value of a source register into a destination register.
pub fn mov_rg(regs: &mut Registers)
    ensures
        rmodel(*final(regs)) =~= spec_mov_rg(rmodel(*old(regs))),
{
    let rd = field_rd(regs.ir);
    let rs = field_rs(regs.ir);
    regs.gp[rd] = regs.gp[rs];
}

/// Loads the word at the instruction's 11-bit address into the memory
/// buffer register.
pub fn load(regs: &mut Registers, mem: &Vec<u16>) -> (r: Result<(), EmuError>)
    ensures
        match spec_load(rmodel(*old(regs)), mem@) {
            Ok(m2) => rmodel(*final(regs)) =~= m2 && r is Ok,
            Err(a) => rmodel(*final(regs)) =~= rmodel(*old(regs)) && r == Err::<(), EmuError>(
                EmuError::OutOfBoundsMemory(a),
            ),
        },
{
    let label = field_imm11(regs.ir);
    if (label as usize) >= mem.len() {
        return Err(EmuError::OutOfBoundsMemory(label));
    }
    regs.gp[MBR_PTR] = from_bits(mem[label as usize]);
    Ok(())
}

/// Loads the word at the address named by the address-register field plus
/// offset into the destination register.
pub fn load_rg(regs: &mut Registers, mem: &Vec<u16>) -> (r: Result<(), EmuError>)
    ensures
        match spec_load_rg(rmodel(*old(regs)), mem@) {
            Ok(m2) => rmodel(*final(regs)) =~= m2 && r is Ok,
            Err(a) => rmodel(*final(regs)) =~= rmodel(*old(regs)) && r == Err::<(), EmuError>(
                EmuError::OutOfBoundsMemory(a),
            ),
        },
{
    let rd = field_rd(regs.ir);
    let radr = field_rs(regs.ir);
    let ofst = field_imm5(regs.ir);
    let addr: u16 = (radr as u16) + ofst;
    if (addr as usize) >= mem.len() {
        return Err(EmuError::OutOfBoundsMemory(addr));
    }
    regs.gp[rd] = from_bits(mem[addr as usize]);
    Ok(())
}

/// Stores the memory buffer register at the instruction's 11-bit address.
pub fn store(regs: &Registers, mem: &mut Vec<u16>) -> (r: Result<(), EmuError>)
    ensures
        match spec_store(rmodel(*regs), old(mem)@) {
            Ok(mm) => final(mem)@ =~= mm && r is Ok,
            Err(a) => final(mem)@ =~= old(mem)@ && r == Err::<(), EmuError>(
                EmuError::OutOfBoundsMemory(a),
            ),
        },
{
    let label = field_imm11(regs.ir);
    if (label as usize) >= mem.len() {
        return Err(EmuError::OutOfBoundsMemory(label));
    }
    let v = to_bits(regs.gp[MBR_PTR]);
    mem[label as usize] = v;
    Ok(())
}

/// Stores the source register at the address named by the address-register
/// field plus offset.
pub fn store_rg(regs: &Registers, mem: &mut Vec<u16>) -> (r: Result<(), EmuError>)
    ensures
        match spec_store_rg(rmodel(*regs), old(mem)@) {
            Ok(mm) => final(mem)@ =~= mm && r is Ok,
            Err(a) => final(mem)@ =~= old(mem)@ && r == Err::<(), EmuError>(
                EmuError::OutOfBoundsMemory(a),
            ),
        },
{
    let rs = field_rd(regs.ir);
    let radr = field_rs(regs.ir);
    let ofst = field_imm5(regs.ir);
    let addr: u16 = (radr as u16) + ofst;
    if (addr as usize) >= mem.len() {
        return Err(EmuError::OutOfBoundsMemory(addr));
    }
    let v = to_bits(regs.gp[rs]);
    mem[addr as usize] = v;
    Ok(())
}

/// Pushes the named registers onto the stack, in slot order: the stack
/// pointer is decremented before each write.
#[verifier::rlimit(40)]
pub fn push(regs: &mut Registers, mem: &mut Vec<u16>) -> (r: Result<(), EmuError>)
    ensures
        ({
            let (g, mm, e) = spec_push_upto(
                old(regs).gp@,
                old(mem)@,
                old(regs).ir,
                word_num2(old(regs).ir) as int,
            );
            final(regs).gp@ =~= g && final(mem)@ =~= mm && (match e {
                Some(a) => r == Err::<(), EmuError>(EmuError::OutOfBoundsMemory(a)),
                None => r is Ok,
            })
        }),
        final(regs).pc == old(regs).pc,
        final(regs).acc == old(regs).acc,
        final(regs).ir == old(regs).ir,
        final(regs).mar == old(regs).mar,
        final(regs).flags == old(regs).flags,
{
    let ir = regs.ir;
    let num = field_num2(ir);
    let mut i: usize = 0;
    while i < num
        invariant
            i <= num,
            num == word_num2(ir) as int,
            ir == regs.ir == old(regs).ir,
            regs.pc == old(regs).pc,
            regs.acc == old(regs).acc,
            regs.mar == old(regs).mar,
            regs.flags == old(regs).flags,
            spec_push_upto(old(regs).gp@, old(mem)@, ir, i as int) == (regs.gp@, mem@, Option::<
                u16,
            >::None),
        decreases num - i,
    {
        let slot: usize = if i == 0 {
            field_rd(ir)
        } else if i == 1 {
            field_rs(ir)
        } else {
            field_rc(ir)
        };
        let sp: i16 = regs.gp[SP_PTR];
        let sp1: i32 = (sp as i32) - 1;
        if sp1 < 0 || (sp1 as usize) >= mem.len() {
            let bad: u16 = (((sp1 % 0x10000) + 0x10000) % 0x10000) as u16;
            proof {
                assert(spec_push_upto(old(regs).gp@, old(mem)@, ir, i + 1).2 == Some(bad));
                lemma_push_error_stable(
                    old(regs).gp@,
                    old(mem)@,
                    ir,
                    i + 1,
                    word_num2(ir) as int,
                );
            }
            return Err(EmuError::OutOfBoundsMemory(bad));
        }
        regs.gp[SP_PTR] = sp1 as i16;
        let v = to_bits(regs.gp[slot]);
        mem[sp1 as usize] = v;
        i = i + 1;
    }
    Ok(())
}

/// Pops the named registers from the stack, in slot order: each register
/// is read from the stack top, then the stack pointer is incremented.
#[verifier::rlimit(40)]
pub fn pop(regs: &mut Registers, mem: &Vec<u16>) -> (r: Result<(), EmuError>)
    ensures
        ({
            let (g, e) = spec_pop_upto(
                old(regs).gp@,
                mem@,
                old(regs).ir,
                word_num2(old(regs).ir) as int,
            );
            final(regs).gp@ =~= g && (match e {
                Some(a) => r == Err::<(), EmuError>(EmuError::OutOfBoundsMemory(a)),
                None => r is Ok,
            })
        }),
        final(regs).pc == old(regs).pc,
        final(regs).acc == old(regs).acc,
        final(regs).ir == old(regs).ir,
        final(regs).mar == old(regs).mar,
        final(regs).flags == old(regs).flags,
{
    let ir = regs.ir;
    let num = field_num2(ir);
    let mut i: usize = 0;
    while i < num
        invariant
            i <= num,
            num == word_num2(ir) as int,
            ir == regs.ir == old(regs).ir,
            regs.pc == old(regs).pc,
            regs.acc == old(regs).acc,
            regs.mar == old(regs).mar,
            regs.flags == old(regs).flags,
            spec_pop_upto(old(regs).gp@, mem@, ir, i as int) == (regs.gp@, Option::<u16>::None),
        decreases num - i,
    {
        let slot: usize = if i == 0 {
            field_rd(ir)
        } else if i == 1 {
            field_rs(ir)
        } else {
            field_rc(ir)
        };
        let sp: i16 = regs.gp[SP_PTR];
        if sp < 0 || (sp as i32 as usize) >= mem.len() {
            let sp32: i32 = sp as i32;
            let bad: u16 = (((sp32 % 0x10000) + 0x10000) % 0x10000) as u16;
            proof {
                assert(spec_pop_upto(old(regs).gp@, mem@, ir, i + 1).1 == Some(bad));
                lemma_pop_error_stable(old(regs).gp@, mem@, ir, i + 1, word_num2(ir) as int);
            }
            return Err(EmuError::OutOfBoundsMemory(bad));
        }
        regs.gp[slot] = from_bits(mem[sp as usize]);
        let sp2: i16 = regs.gp[SP_PTR];
        let sp3: i32 = (sp2 as i32) + 1;
        let wrapped: i16 = if sp3 > 32767 {
            -32768
        } else {
            sp3 as i16
        };
        proof {
            assert(wrapped == wrap_i16(sp2 as int + 1)) by {
                if sp2 == 32767 {
                    assert(wrap_u16(32768) == 0x8000);
                } else {
                    assert(wrap_u16(sp2 as int + 1) == i16_bits((sp2 + 1) as i16));
                }
            }
        }
        regs.gp[SP_PTR] = wrapped;
        i = i + 1;
    }
    Ok(())
}

// ------------------------- transitions: arithmetic and logic -------------------------

/// Effect of `add` immediate: destination gets source plus the 5-bit
/// constant when that fits in 16 signed bits; on overflow the destination
/// is untouched and the overflow and carry flags are set.
pub open spec fn spec_add_im(m: RegModel) -> RegModel {
    let v = m.gp[word_rs(m.ir) as int] + word_imm5(m.ir);
    if i16::MIN <= v <= i16::MAX {
        RegModel {
            gp: m.gp.update(word_rd(m.ir) as int, v as i16),
            flags: flags_logic(m.flags, v as i16),
            ..m
        }
    } else {
        RegModel { flags: flags_add_overflow(m.flags), ..m }
    }
}

/// Effect of `add` with registers, as `spec_add_im` with the second
/// operand taken from a register.
pub open spec fn spec_add_rg(m: RegModel) -> RegModel {
    let v = m.gp[word_rs(m.ir) as int] + m.gp[word_rc(m.ir) as int];
    if i16::MIN <= v <= i16::MAX {
        RegModel {
            gp: m.gp.update(word_rd(m.ir) as int, v as i16),
            flags: flags_logic(m.flags, v as i16),
            ..m
        }
    } else {
        RegModel { flags: flags_add_overflow(m.flags), ..m }
    }
}

/// Effect of `sub` immediate: destination gets source minus the 5-bit
/// constant when that fits; on overflow the destination is untouched and
/// only the overflow flag is set.
pub open spec fn spec_sub_im(m: RegModel) -> RegModel {
    let v = m.gp[word_rs(m.ir) as int] - word_imm5(m.ir);
    if i16::MIN <= v <= i16::MAX {
        RegModel {
            gp: m.gp.update(word_rd(m.ir) as int, v as i16),
            flags: flags_sub_ok(m.flags, v as i16),
            ..m
        }
    } else {
        RegModel { flags: flags_sub_overflow(m.flags), ..m }
    }
}

/// Effect of `sub` with registers, as `spec_sub_im` with the second
/// operand taken from a register.
pub open spec fn spec_sub_rg(m: RegModel) -> RegModel {
    let v = m.gp[word_rs(m.ir) as int] - m.gp[word_rc(m.ir) as int];
    if i16::MIN <= v <= i16::MAX {
        RegModel {
            gp: m.gp.update(word_rd(m.ir) as int, v as i16),
            flags: flags_sub_ok(m.flags, v as i16),
            ..m
        }
    } else {
        RegModel { flags: flags_sub_overflow(m.flags), ..m }
    }
}

/// Effect of `shl`: a logical left shift of the source's bit pattern by
/// the 4-bit amount.
pub open spec fn spec_shift_l(m: RegModel) -> RegModel {
    let v = bits_i16(i16_bits(m.gp[word_rs(m.ir) as int]) << word_imm4(m.ir));
    RegModel { gp: m.gp.update(word_rd(m.ir) as int, v), flags: flags_logic(m.flags, v), ..m }
}

/// Effect of `shr`: a logical right shift of the source's bit pattern by
/// the 4-bit amount.
pub open spec fn spec_shift_r(m: RegModel) -> RegModel {
    let v = bits_i16(i16_bits(m.gp[word_rs(m.ir) as int]) >> word_imm4(m.ir));
    RegModel { gp: m.gp.update(word_rd(m.ir) as int, v), flags: flags_logic(m.flags, v), ..m }
}

/// Effect of `and`.
pub open spec fn spec_and(m: RegModel) -> RegModel {
    let v = m.gp[word_rs(m.ir) as int] & m.gp[word_rc(m.ir) as int];
    RegModel { gp: m.gp.update(word_rd(m.ir) as int, v), flags: flags_logic(m.flags, v), ..m }
}

/// Effect of `or`.
pub open spec fn spec_or(m: RegModel) -> RegModel {
    let v = m.gp[word_rs(m.ir) as int] | m.gp[word_rc(m.ir) as int];
    RegModel { gp: m.gp.update(word_rd(m.ir) as int, v), flags: flags_logic(m.flags, v), ..m }
}

/// Effect of `not`.
pub open spec fn spec_not(m: RegModel) -> RegModel {
    let v = !m.gp[word_rs(m.ir) as int];
    RegModel { gp: m.gp.update(word_rd(m.ir) as int, v), flags: flags_logic(m.flags, v), ..m }
}

/// Effect of `cmp` immediate: the flags of subtracting the 8-bit constant
/// from the first register; no register changes.
pub open spec fn spec_cmp_im(m: RegModel) -> RegModel {
    let v = m.gp[word_rd(m.ir) as int] - word_imm8(m.ir);
    if i16::MIN <= v <= i16::MAX {
        RegModel { flags: flags_sub_ok(m.flags, v as i16), ..m }
    } else {
        RegModel { flags: flags_sub_overflow(m.flags), ..m }
    }
}

/// Effect of `cmp` with registers.
pub open spec fn spec_cmp_rg(m: RegModel) -> RegModel {
    let v = m.gp[word_rd(m.ir) as int] - m.gp[word_rs(m.ir) as int];
    if i16::MIN <= v <= i16::MAX {
        RegModel { flags: flags_sub_ok(m.flags, v as i16), ..m }
    } else {
        RegModel { flags: flags_sub_overflow(m.flags), ..m }
    }
}

// ------------------------- transitions: branches -------------------------

/// Effect of `jmp`: the program counter becomes the 11-bit target.
pub open spec fn spec_jmp(m: RegModel) -> RegModel {
    RegModel { pc: word_imm11(m.ir), ..m }
}

/// Effect of `bln`: the link register receives the address of the
/// following instruction, then the program counter becomes the target.
pub open spec fn spec_bln(m: RegModel) -> RegModel {
    RegModel {
        gp: m.gp.update(LNR_PTR as int, bits_i16(wrap_u16(m.pc as int + 1))),
        pc: word_imm11(m.ir),
        ..m
    }
}

/// Effect of `ret`: the program counter becomes the link register's bit
/// pattern.
pub open spec fn spec_ret(m: RegModel) -> RegModel {
    RegModel { pc: i16_bits(m.gp[LNR_PTR as int]), ..m }
}

/// Effect of a conditional branch: the program counter becomes the target
/// exactly when the condition held.
pub open spec fn spec_branch(m: RegModel, taken: bool) -> RegModel {
    if taken {
        RegModel { pc: word_imm11(m.ir), ..m }
    } else {
        m
    }
}

/// The predicate each conditional branch computes on the flags byte.
pub open spec fn branch_predicate(op: Opcode, f: u8) -> bool {
    match op {
        Opcode::Beq => flag_read(f, Flags::ZR),
        Opcode::Bne => !flag_read(f, Flags::ZR),
        Opcode::Bgt => flag_read(f, Flags::NG) == flag_read(f, Flags::OV),
        Opcode::Bgtu => flag_read(f, Flags::CA) && !flag_read(f, Flags::ZR),
        Opcode::Blt => flag_read(f, Flags::NG) != flag_read(f, Flags::OV),
        Opcode::Bltu => !flag_read(f, Flags::CA),
        _ => false,
    }
}

// ------------------------- executable: arithmetic and logic -------------------------

/// Adds the 5-bit constant to a source register into the destination:
/// on success the zero and negative flags mirror the result and overflow
/// and carry are cleared; on overflow the destination is untouched and
/// overflow and carry are set.
pub fn add_im(regs: &mut Registers)
    ensures
        rmodel(*final(regs)) =~= spec_add_im(rmodel(*old(regs))),
        ({
            let m = rmodel(*old(regs));
            let v = m.gp[word_rs(m.ir) as int] + word_imm5(m.ir);
            if i16::MIN <= v <= i16::MAX {
                flag_read(final(regs).flags, Flags::ZR) == (v == 0) && flag_read(
                    final(regs).flags,
                    Flags::NG,
                ) == (v < 0) && !flag_read(final(regs).flags, Flags::OV) && !flag_read(
                    final(regs).flags,
                    Flags::CA,
                )
            } else {
                flag_read(final(regs).flags, Flags::OV) && flag_read(final(regs).flags, Flags::CA)
            }
        }),
{
    let rd = field_rd(regs.ir);
    let ra = field_rs(regs.ir);
    let val = field_imm5(regs.ir);
    let v32: i32 = (regs.gp[ra] as i32) + (val as i32);
    if -32768 <= v32 && v32 <= 32767 {
        let v = v32 as i16;
        regs.gp[rd] = v;
        regs.flags = exec_flags_logic(regs.flags, v);
        proof {
            lemma_flags_logic(old(regs).flags, v);
        }
    } else {
        let f1 = set_flag(regs.flags, Flags::OV, true);
        regs.flags = set_flag(f1, Flags::CA, true);
        proof {
            lemma_flags_add_overflow(old(regs).flags);
        }
    }
}

/// Adds two source registers into the destination, with the flag outcome
/// of `add_im`.
pub fn add_rg(regs: &mut Registers)
    ensures
        rmodel(*final(regs)) =~= spec_add_rg(rmodel(*old(regs))),
        ({
            let m = rmodel(*old(regs));
            let v = m.gp[word_rs(m.ir) as int] + m.gp[word_rc(m.ir) as int];
            if i16::MIN <= v <= i16::MAX {
                flag_read(final(regs).flags, Flags::ZR) == (v == 0) && flag_read(
                    final(regs).flags,
                    Flags::NG,
                ) == (v < 0) && !flag_read(final(regs).flags, Flags::OV) && !flag_read(
                    final(regs).flags,
                    Flags::CA,
                )
            } else {
                flag_read(final(regs).flags, Flags::OV) && flag_read(final(regs).flags, Flags::CA)
            }
        }),
{
    let rd = field_rd(regs.ir);
    let ra = field_rs(regs.ir);
    let rb = field_rc(regs.ir);
    let v32: i32 = (regs.gp[ra] as i32) + (regs.gp[rb] as i32);
    if -32768 <= v32 && v32 <= 32767 {
        let v = v32 as i16;
        regs.gp[rd] = v;
        regs.flags = exec_flags_logic(regs.flags, v);
        proof {
            lemma_flags_logic(old(regs).flags, v);
        }
    } else {
        let f1 = set_flag(regs.flags, Flags::OV, true);
        regs.flags = set_flag(f1, Flags::CA, true);
        proof {
            lemma_flags_add_overflow(old(regs).flags);
        }
    }
}

/// Subtracts the 5-bit constant from a source register into the
/// destination: on success the zero and negative flags mirror the result,
/// carry is set exactly when the result is non-negative and overflow is
/// cleared; on overflow the destination is untouched and overflow is set.
pub fn sub_im(regs: &mut Registers)
    ensures
        rmodel(*final(regs)) =~= spec_sub_im(rmodel(*old(regs))),
        ({
            let m = rmodel(*old(regs));
            let v = m.gp[word_rs(m.ir) as int] - word_imm5(m.ir);
            if i16::MIN <= v <= i16::MAX {
                flag_read(final(regs).flags, Flags::ZR) == (v == 0) && flag_read(
                    final(regs).flags,
                    Flags::NG,
                ) == (v < 0) && flag_read(final(regs).flags, Flags::CA) == (v >= 0) && !flag_read(
                    final(regs).flags,
                    Flags::OV,
                )
            } else {
                flag_read(final(regs).flags, Flags::OV)
            }
        }),
{
    let rd = field_rd(regs.ir);
    let ra = field_rs(regs.ir);
    let val = field_imm5(regs.ir);
    let v32: i32 = (regs.gp[ra] as i32) - (val as i32);
    if -32768 <= v32 && v32 <= 32767 {
        let v = v32 as i16;
        regs.gp[rd] = v;
        regs.flags = exec_flags_sub_ok(regs.flags, v);
        proof {
            lemma_flags_sub_ok(old(regs).flags, v);
        }
    } else {
        regs.flags = set_flag(regs.flags, Flags::OV, true);
        proof {
            lemma_flags_sub_overflow(old(regs).flags);
        }
    }
}

/// Subtracts a source register from another into the destination, with the
/// flag outcome of `sub_im`.
pub fn sub_rg(regs: &mut Registers)
    ensures
        rmodel(*final(regs)) =~= spec_sub_rg(rmodel(*old(regs))),
        ({
            let m = rmodel(*old(regs));
            let v = m.gp[word_rs(m.ir) as int] - m.gp[word_rc(m.ir) as int];
            if i16::MIN <= v <= i16::MAX {
                flag_read(final(regs).flags, Flags::ZR) == (v == 0) && flag_read(
                    final(regs).flags,
                    Flags::NG,
                ) == (v < 0) && flag_read(final(regs).flags, Flags::CA) == (v >= 0) && !flag_read(
                    final(regs).flags,
                    Flags::OV,
                )
            } else {
                flag_read(final(regs).flags, Flags::OV)
            }
        }),
{
    let rd = field_rd(regs.ir);
    let ra = field_rs(regs.ir);
    let rb = field_rc(regs.ir);
    let v32: i32 = (regs.gp[ra] as i32) - (regs.gp[rb] as i32);
    if -32768 <= v32 && v32 <= 32767 {
        let v = v32 as i16;
        regs.gp[rd] = v;
        regs.flags = exec_flags_sub_ok(regs.flags, v);
        proof {
            lemma_flags_sub_ok(old(regs).flags, v);
        }
    } else {
        regs.flags = set_flag(regs.flags, Flags::OV, true);
        proof {
            lemma_flags_sub_overflow(old(regs).flags);
        }
    }
}

/// Shifts the source's bit pattern left by the 4-bit amount into the
/// destination; the zero and negative flags mirror the result, overflow
/// and carry are cleared.
pub fn shift_l(regs: &mut Registers)
    ensures
        rmodel(*final(regs)) =~= spec_shift_l(rmodel(*old(regs))),
        ({
            let m = rmodel(*old(regs));
            let v = bits_i16(i16_bits(m.gp[word_rs(m.ir) as int]) << word_imm4(m.ir));
            flag_read(final(regs).flags, Flags::ZR) == (v == 0) && flag_read(
                final(regs).flags,
                Flags::NG,
            ) == (v < 0) && !flag_read(final(regs).flags, Flags::OV) && !flag_read(
                final(regs).flags,
                Flags::CA,
            )
        }),
{
    let rd = field_rd(regs.ir);
    let rs = field_rs(regs.ir);
    let val = field_imm4(regs.ir);
    let v = from_bits(to_bits(regs.gp[rs]) << val);
    regs.gp[rd] = v;
    regs.flags = exec_flags_logic(regs.flags, v);
    proof {
        lemma_flags_logic(old(regs).flags, v);
    }
}

/// Shifts the source's bit pattern right by the 4-bit amount into the
/// destination (logical: vacated bits are zero), with the flag outcome of
/// `shift_l`.
pub fn shift_r(regs: &mut Registers)
    ensures
        rmodel(*final(regs)) =~= spec_shift_r(rmodel(*old(regs))),
        ({
            let m = rmodel(*old(regs));
            let v = bits_i16(i16_bits(m.gp[word_rs(m.ir) as int]) >> word_imm4(m.ir));
            flag_read(final(regs).flags, Flags::ZR) == (v == 0) && flag_read(
                final(regs).flags,
                Flags::NG,
            ) == (v < 0) && !flag_read(final(regs).flags, Flags::OV) && !flag_read(
                final(regs).flags,
                Flags::CA,
            )
        }),
{
    let rd = field_rd(regs.ir);
    let rs = field_rs(regs.ir);
    let val = field_imm4(regs.ir);
    let v = from_bits(to_bits(regs.gp[rs]) >> val);
    regs.gp[rd] = v;
    regs.flags = exec_flags_logic(regs.flags, v);
    proof {
        lemma_flags_logic(old(regs).flags, v);
    }
}

/// Bitwise and of two source registers into the destination; the zero and
/// negative flags mirror the result, overflow and carry are cleared.
pub fn and(regs: &mut Registers)
    ensures
        rmodel(*final(regs)) =~= spec_and(rmodel(*old(regs))),
        ({
            let m = rmodel(*old(regs));
            let v = m.gp[word_rs(m.ir) as int] & m.gp[word_rc(m.ir) as int];
            flag_read(final(regs).flags, Flags::ZR) == (v == 0) && flag_read(
                final(regs).flags,
                Flags::NG,
            ) == (v < 0) && !flag_read(final(regs).flags, Flags::OV) && !flag_read(
                final(regs).flags,
                Flags::CA,
            )
        }),
{
    let rd = field_rd(regs.ir);
    let ra = field_rs(regs.ir);
    let rb = field_rc(regs.ir);
    let v = regs.gp[ra] & regs.gp[rb];
    regs.gp[rd] = v;
    regs.flags = exec_flags_logic(regs.flags, v);
    proof {
        lemma_flags_logic(old(regs).flags, v);
    }
}

/// Bitwise or of two source registers into the destination, with the flag
/// outcome of `and`.
pub fn or(regs: &mut Registers)
    ensures
        rmodel(*final(regs)) =~= spec_or(rmodel(*old(regs))),
        ({
            let m = rmodel(*old(regs));
            let v = m.gp[word_rs(m.ir) as int] | m.gp[word_rc(m.ir) as int];
            flag_read(final(regs).flags, Flags::ZR) == (v == 0) && flag_read(
                final(regs).flags,
                Flags::NG,
            ) == (v < 0) && !flag_read(final(regs).flags, Flags::OV) && !flag_read(
                final(regs).flags,
                Flags::CA,
            )
        }),
{
    let rd = field_rd(regs.ir);
    let ra = field_rs(regs.ir);
    let rb = field_rc(regs.ir);
    let v = regs.gp[ra] | regs.gp[rb];
    regs.gp[rd] = v;
    regs.flags = exec_flags_logic(regs.flags, v);
    proof {
        lemma_flags_logic(old(regs).flags, v);
    }
}

/// Bitwise inversion of the source register into the destination, with the
/// flag outcome of `and`.
pub fn not(regs: &mut Registers)
    ensures
        rmodel(*final(regs)) =~= spec_not(rmodel(*old(regs))),
        ({
            let m = rmodel(*old(regs));
            let v = !m.gp[word_rs(m.ir) as int];
            flag_read(final(regs).flags, Flags::ZR) == (v == 0) && flag_read(
                final(regs).flags,
                Flags::NG,
            ) == (v < 0) && !flag_read(final(regs).flags, Flags::OV) && !flag_read(
                final(regs).flags,
                Flags::CA,
            )
        }),
{
    let rd = field_rd(regs.ir);
    let rs = field_rs(regs.ir);
    let x = regs.gp[rs];
    let v = !x;
    proof {
        assert(v == !x);
        assert(!x == (-1 - x) as i16) by (bit_vector);
    }
    regs.gp[rd] = v;
    regs.flags = exec_flags_logic(regs.flags, v);
    proof {
        lemma_flags_logic(old(regs).flags, v);
    }
}

/// Compares a register against the 8-bit constant: the flags of the
/// subtraction, no register changes.
pub fn cmp_im(regs: &mut Registers)
    ensures
        rmodel(*final(regs)) =~= spec_cmp_im(rmodel(*old(regs))),
        ({
            let m = rmodel(*old(regs));
            let v = m.gp[word_rd(m.ir) as int] - word_imm8(m.ir);
            if i16::MIN <= v <= i16::MAX {
                flag_read(final(regs).flags, Flags::ZR) == (v == 0) && flag_read(
                    final(regs).flags,
                    Flags::NG,
                ) == (v < 0) && flag_read(final(regs).flags, Flags::CA) == (v >= 0) && !flag_read(
                    final(regs).flags,
                    Flags::OV,
                )
            } else {
                flag_read(final(regs).flags, Flags::OV)
            }
        }),
{
    let ra = field_rd(regs.ir);
    let val = field_imm8(regs.ir);
    let v32: i32 = (regs.gp[ra] as i32) - (val as i32);
    if -32768 <= v32 && v32 <= 32767 {
        let v = v32 as i16;
        regs.flags = exec_flags_sub_ok(regs.flags, v);
        proof {
            lemma_flags_sub_ok(old(regs).flags, v);
        }
    } else {
        regs.flags = set_flag(regs.flags, Flags::OV, true);
        proof {
            lemma_flags_sub_overflow(old(regs).flags);
        }
    }
}

/// Compares two registers: the flags of the subtraction, no register
/// changes.
pub fn cmp_rg(regs: &mut Registers)
    ensures
        rmodel(*final(regs)) =~= spec_cmp_rg(rmodel(*old(regs))),
        ({
            let m = rmodel(*old(regs));
            let v = m.gp[word_rd(m.ir) as int] - m.gp[word_rs(m.ir) as int];
            if i16::MIN <= v <= i16::MAX {
                flag_read(final(regs).flags, Flags::ZR) == (v == 0) && flag_read(
                    final(regs).flags,
                    Flags::NG,
                ) == (v < 0) && flag_read(final(regs).flags, Flags::CA) == (v >= 0) && !flag_read(
                    final(regs).flags,
                    Flags::OV,
                )
            } else {
                flag_read(final(regs).flags, Flags::OV)
            }
        }),
{
    let ra = field_rd(regs.ir);
    let rb = field_rs(regs.ir);
    let v32: i32 = (regs.gp[ra] as i32) - (regs.gp[rb] as i32);
    if -32768 <= v32 && v32 <= 32767 {
        let v = v32 as i16;
        regs.flags = exec_flags_sub_ok(regs.flags, v);
        proof {
            lemma_flags_sub_ok(old(regs).flags, v);
        }
    } else {
        regs.flags = set_flag(regs.flags, Flags::OV, true);
        proof {
            lemma_flags_sub_overflow(old(regs).flags);
        }
    }
}

// ------------------------- executable: branches -------------------------

/// Branches unconditionally to the 11-bit target.
pub fn jmp(regs: &mut Registers)
    ensures
        rmodel(*final(regs)) =~= spec_jmp(rmodel(*old(regs))),
{
    regs.pc = field_imm11(regs.ir);
}

/// Branches with link: saves the address of the following instruction in
/// the link register, then jumps to the target.
pub fn bln(regs: &mut Registers)
    ensures
        rmodel(*final(regs)) =~= spec_bln(rmodel(*old(regs))),
{
    let ret_addr: u16 = if regs.pc == 0xFFFF {
        0
    } else {
        regs.pc + 1
    };
    proof {
        assert(ret_addr == wrap_u16(old(regs).pc as int + 1));
    }
    regs.gp[LNR_PTR] = from_bits(ret_addr);
    regs.pc = field_imm11(regs.ir);
}

/// Returns from a branch with link: jumps to the link register's bit
/// pattern.
pub fn ret(regs: &mut Registers)
    ensures
        rmodel(*final(regs)) =~= spec_ret(rmodel(*old(regs))),
{
    regs.pc = to_bits(regs.gp[LNR_PTR]);
}

/// Jumps to the instruction's 11-bit target exactly when the condition
/// holds.
pub fn branch_on_condition(cond: bool, regs: &mut Registers)
    ensures
        rmodel(*final(regs)) =~= spec_branch(rmodel(*old(regs)), cond),
{
    if cond {
        regs.pc = field_imm11(regs.ir);
    }
}

/// Branch if equal: taken when the zero flag is set.
pub fn beq(regs: &mut Registers) -> (taken: bool)
    ensures
        taken == branch_predicate(Opcode::Beq, old(regs).flags),
        rmodel(*final(regs)) =~= spec_branch(rmodel(*old(regs)), taken),
{
    let t = regs.read_flag(Flags::ZR);
    branch_on_condition(t, regs);
    t
}

/// Branch if not equal: taken when the zero flag is clear.
pub fn bne(regs: &mut Registers) -> (taken: bool)
    ensures
        taken == branch_predicate(Opcode::Bne, old(regs).flags),
        rmodel(*final(regs)) =~= spec_branch(rmodel(*old(regs)), taken),
{
    let t = !regs.read_flag(Flags::ZR);
    branch_on_condition(t, regs);
    t
}

/// Branch if greater (signed): taken when the negative and overflow flags
/// agree.
pub fn bgt(regs: &mut Registers) -> (taken: bool)
    ensures
        taken == branch_predicate(Opcode::Bgt, old(regs).flags),
        rmodel(*final(regs)) =~= spec_branch(rmodel(*old(regs)), taken),
{
    let t = regs.read_flag(Flags::NG) == regs.read_flag(Flags::OV);
    branch_on_condition(t, regs);
    t
}

/// Branch if greater (unsigned): taken when carry is set and zero is
/// clear.
pub fn bgtu(regs: &mut Registers) -> (taken: bool)
    ensures
        taken == branch_predicate(Opcode::Bgtu, old(regs).flags),
        rmodel(*final(regs)) =~= spec_branch(rmodel(*old(regs)), taken),
{
    let t = regs.read_flag(Flags::CA) && !regs.read_flag(Flags::ZR);
    branch_on_condition(t, regs);
    t
}

/// Branch if less (signed): taken when the negative and overflow flags
/// disagree.
pub fn blt(regs: &mut Registers) -> (taken: bool)
    ensures
        taken == branch_predicate(Opcode::Blt, old(regs).flags),
        rmodel(*final(regs)) =~= spec_branch(rmodel(*old(regs)), taken),
{
    let t = regs.read_flag(Flags::NG) != regs.read_flag(Flags::OV);
    branch_on_condition(t, regs);
    t
}

/// Branch if less (unsigned): taken when carry is clear.
pub fn bltu(regs: &mut Registers) -> (taken: bool)
    ensures
        taken == branch_predicate(Opcode::Bltu, old(regs).flags),
        rmodel(*final(regs)) =~= spec_branch(rmodel(*old(regs)), taken),
{
    let t = !regs.read_flag(Flags::CA);
    branch_on_condition(t, regs);
    t
}

// ------------------------- the cycle -------------------------

/// The outcome of one execute dispatch: the machine state afterwards, the
/// control-flow signal handed to the cycle (`Continue` to skip the normal
/// program-counter increment, `Break` to halt, `None` to increment), and
/// the fault, if one stopped the instruction.
#[verifier::ext_equal]
pub struct ExecEffect {
    pub regs: RegModel,
    pub mem: Seq<u16>,
    pub flow: Option<ControlFlow<(), ()>>,
    pub fault: Option<EmuError>,
}

/// The effect of executing one decoded opcode on a machine state.
pub open spec fn spec_execute(op: Opcode, m: RegModel, mem: Seq<u16>) -> ExecEffect {
    match op {
        Opcode::MovIm => ExecEffect { regs: spec_mov_im(m), mem, flow: None, fault: None },
        Opcode::MovRg => ExecEffect { regs: spec_mov_rg(m), mem, flow: None, fault: None },
        Opcode::Load => match spec_load(m, mem) {
            Ok(m2) => ExecEffect { regs: m2, mem, flow: None, fault: None },
            Err(a) => ExecEffect {
                regs: m,
                mem,
                flow: None,
                fault: Some(EmuError::OutOfBoundsMemory(a)),
            },
        },
        Opcode::LoadRg => match spec_load_rg(m, mem) {
            Ok(m2) => ExecEffect { regs: m2, mem, flow: None, fault: None },
            Err(a) => ExecEffect {
                regs: m,
                mem,
                flow: None,
                fault: Some(EmuError::OutOfBoundsMemory(a)),
            },
        },
        Opcode::Store => match spec_store(m, mem) {
            Ok(mm) => ExecEffect { regs: m, mem: mm, flow: None, fault: None },
            Err(a) => ExecEffect {
                regs: m,
                mem,
                flow: None,
                fault: Some(EmuError::OutOfBoundsMemory(a)),
            },
        },
        Opcode::StrRg => match spec_store_rg(m, mem) {
            Ok(mm) => ExecEffect { regs: m, mem: mm, flow: None, fault: None },
            Err(a) => ExecEffect {
                regs: m,
                mem,
                flow: None,
                fault: Some(EmuError::OutOfBoundsMemory(a)),
            },
        },
        Opcode::Push => {
            let (g, mm, e) = spec_push_upto(m.gp, mem, m.ir, word_num2(m.ir) as int);
            ExecEffect {
                regs: RegModel { gp: g, ..m },
                mem: mm,
                flow: None,
                fault: match e {
                    Some(a) => Some(EmuError::OutOfBoundsMemory(a)),
                    None => None,
                },
            }
        },
        Opcode::Pop => {
            let (g, e) = spec_pop_upto(m.gp, mem, m.ir, word_num2(m.ir) as int);
            ExecEffect {
                regs: RegModel { gp: g, ..m },
                mem,
                flow: None,
                fault: match e {
                    Some(a) => Some(EmuError::OutOfBoundsMemory(a)),
                    None => None,
                },
            }
        },
        Opcode::AddIm => ExecEffect { regs: spec_add_im(m), mem, flow: None, fault: None },
        Opcode::AddRg => ExecEffect { regs: spec_add_rg(m), mem, flow: None, fault: None },
        Opcode::SubIm => ExecEffect { regs: spec_sub_im(m), mem, flow: None, fault: None },
        Opcode::SubRg => ExecEffect { regs: spec_sub_rg(m), mem, flow: None, fault: None },
        Opcode::ShftL => ExecEffect { regs: spec_shift_l(m), mem, flow: None, fault: None },
        Opcode::ShftR => ExecEffect { regs: spec_shift_r(m), mem, flow: None, fault: None },
        Opcode::And => ExecEffect { regs: spec_and(m), mem, flow: None, fault: None },
        Opcode::Or => ExecEffect { regs: spec_or(m), mem, flow: None, fault: None },
        Opcode::Not => ExecEffect { regs: spec_not(m), mem, flow: None, fault: None },
        Opcode::Jmp => ExecEffect {
            regs: spec_jmp(m),
            mem,
            flow: Some(ControlFlow::Continue(())),
            fault: None,
        },
        Opcode::Bln => ExecEffect {
            regs: spec_bln(m),
            mem,
            flow: Some(ControlFlow::Continue(())),
            fault: None,
        },
        Opcode::Ret => ExecEffect {
            regs: spec_ret(m),
            mem,
            flow: Some(ControlFlow::Continue(())),
            fault: None,
        },
        Opcode::CmpIm => ExecEffect { regs: spec_cmp_im(m), mem, flow: None, fault: None },
        Opcode::CmpRg => ExecEffect { regs: spec_cmp_rg(m), mem, flow: None, fault: None },
        Opcode::Beq | Opcode::Bne | Opcode::Bgt | Opcode::Bgtu | Opcode::Blt | Opcode::Bltu => {
            let t = branch_predicate(op, m.flags);
            ExecEffect {
                regs: spec_branch(m, t),
                mem,
                flow: if t {
                    Some(ControlFlow::Continue(()))
                } else {
                    None
                },
                fault: None,
            }
        },
        Opcode::Halt => ExecEffect {
            regs: m,
            mem,
            flow: Some(ControlFlow::Break(())),
            fault: None,
        },
    }
}

/// Matches a decoded opcode to its instruction and executes it. The result
/// carries the control-flow signal, or the fault that stopped the
/// instruction; a code above 0x1C denotes no opcode and is itself a fault.
pub fn execute(opcode: u8, regs: &mut Registers, mem: &mut Vec<u16>) -> (r: Result<
    Option<ControlFlow<(), ()>>,
    EmuError,
>)
    ensures
        match spec_opcode_from_u8(opcode) {
            None => rmodel(*final(regs)) =~= rmodel(*old(regs)) && final(mem)@ =~= old(mem)@ && r
                == Err::<Option<ControlFlow<(), ()>>, EmuError>(
                EmuError::UnrecognizedOpcode(opcode),
            ),
            Some(op) => ({
                let e = spec_execute(op, rmodel(*old(regs)), old(mem)@);
                rmodel(*final(regs)) =~= e.regs && final(mem)@ =~= e.mem && (match e.fault {
                    Some(f) => r == Err::<Option<ControlFlow<(), ()>>, EmuError>(f),
                    None => r == Ok::<Option<ControlFlow<(), ()>>, EmuError>(e.flow),
                })
            }),
        },
{
    let skip: Option<ControlFlow<(), ()>> = Some(ControlFlow::Continue(()));
    match opcode_from_u8(opcode) {
        None => Err(EmuError::UnrecognizedOpcode(opcode)),
        Some(op) => match op {
            Opcode::MovIm => {
                mov_im(regs);
                Ok(None)
            },
            Opcode::MovRg => {
                mov_rg(regs);
                Ok(None)
            },
            Opcode::Load => match load(regs, mem) {
                Ok(_) => Ok(None),
                Err(e) => Err(e),
            },
            Opcode::LoadRg => match load_rg(regs, mem) {
                Ok(_) => Ok(None),
                Err(e) => Err(e),
            },
            Opcode::Store => match store(regs, mem) {
                Ok(_) => Ok(None),
                Err(e) => Err(e),
            },
            Opcode::StrRg => match store_rg(regs, mem) {
                Ok(_) => Ok(None),
                Err(e) => Err(e),
            },
            Opcode::Push => match push(regs, mem) {
                Ok(_) => Ok(None),
                Err(e) => Err(e),
            },
            Opcode::Pop => match pop(regs, mem) {
                Ok(_) => Ok(None),
                Err(e) => Err(e),
            },
            Opcode::AddIm => {
                add_im(regs);
                Ok(None)
            },
            Opcode::AddRg => {
                add_rg(regs);
                Ok(None)
            },
            Opcode::SubIm => {
                sub_im(regs);
                Ok(None)
            },
            Opcode::SubRg => {
                sub_rg(regs);
                Ok(None)
            },
            Opcode::ShftL => {
                shift_l(regs);
                Ok(None)
            },
            Opcode::ShftR => {
                shift_r(regs);
                Ok(None)
            },
            Opcode::And => {
                and(regs);
                Ok(None)
            },
            Opcode::Or => {
                or(regs);
                Ok(None)
            },
            Opcode::Not => {
                not(regs);
                Ok(None)
            },
            Opcode::Jmp => {
                jmp(regs);
                Ok(skip)
            },
            Opcode::Bln => {
                bln(regs);
                Ok(skip)
            },
            Opcode::Ret => {
                ret(regs);
                Ok(skip)
            },
            Opcode::CmpIm => {
                cmp_im(regs);
                Ok(None)
            },
            Opcode::CmpRg => {
                cmp_rg(regs);
                Ok(None)
            },
            Opcode::Beq => {
                if beq(regs) {
                    Ok(skip)
                } else {
                    Ok(None)
                }
            },
            Opcode::Bne => {
                if bne(regs) {
                    Ok(skip)
                } else {
                    Ok(None)
                }
            },
            Opcode::Bgt => {
                if bgt(regs) {
                    Ok(skip)
                } else {
                    Ok(None)
                }
            },
            Opcode::Bgtu => {
                if bgtu(regs) {
                    Ok(skip)
                } else {
                    Ok(None)
                }
            },
            Opcode::Blt => {
                if blt(regs) {
                    Ok(skip)
                } else {
                    Ok(None)
                }
            },
            Opcode::Bltu => {
                if bltu(regs) {
                    Ok(skip)
                } else {
                    Ok(None)
                }
            },
            Opcode::Halt => Ok(Some(ControlFlow::Break(()))),
        },
    }
}

/// Returns the word in memory at the program counter's address.
pub fn fetch(pc: u16, ram: &Vec<u16>) -> (r: u16)
    requires
        (pc as int) < ram@.len(),
    ensures
        r == ram@[pc as int],
{
    ram[pc as usize]
}

/// The top 5 bits of the instruction register: the opcode's numeric code.
pub fn decode(ir_reg: u16) -> (r: u8)
    ensures
        r == word_op(ir_reg),
        r < 32,
{
    proof {
        lemma_field_bounds(ir_reg);
    }
    (ir_reg >> 11) as u8
}

/// The outcome of one whole fetch-decode-execute step.
#[verifier::ext_equal]
pub struct StepEffect {
    pub regs: RegModel,
    pub mem: Seq<u16>,
    pub halted: bool,
    pub fault: Option<EmuError>,
}

/// One whole cycle step on a machine state: fetch the word at the program
/// counter into the instruction register, decode its opcode, execute, and
/// advance the program counter unless the instruction directed otherwise.
pub open spec fn spec_step(m: RegModel, mem: Seq<u16>) -> StepEffect {
    if m.pc as int >= mem.len() {
        StepEffect { regs: m, mem, halted: false, fault: Some(EmuError::OutOfBoundsMemory(m.pc)) }
    } else {
        let m1 = RegModel { ir: mem[m.pc as int], ..m };
        let opv = word_op(m1.ir) as u8;
        match spec_opcode_from_u8(opv) {
            None => StepEffect {
                regs: m1,
                mem,
                halted: false,
                fault: Some(EmuError::UnrecognizedOpcode(opv)),
            },
            Some(op) => {
                let e = spec_execute(op, m1, mem);
                if e.fault is Some {
                    StepEffect { regs: e.regs, mem: e.mem, halted: false, fault: e.fault }
                } else {
                    match e.flow {
                        Some(ControlFlow::Break(_)) => StepEffect {
                            regs: e.regs,
                            mem: e.mem,
                            halted: true,
                            fault: None,
                        },
                        Some(ControlFlow::Continue(_)) => StepEffect {
                            regs: e.regs,
                            mem: e.mem,
                            halted: false,
                            fault: None,
                        },
                        None => StepEffect {
                            regs: RegModel { pc: wrap_u16(e.regs.pc as int + 1), ..e.regs },
                            mem: e.mem,
                            halted: false,
                            fault: None,
                        },
                    }
                }
            },
        }
    }
}

/// Performs one fetch-decode-execute step. `Ok(true)` reports a halt,
/// `Ok(false)` a step to go on from; a fault aborts the run.
pub fn step(regs: &mut Registers, mem: &mut Vec<u16>) -> (r: Result<bool, EmuError>)
    ensures
        ({
            let e = spec_step(rmodel(*old(regs)), old(mem)@);
            rmodel(*final(regs)) =~= e.regs && final(mem)@ =~= e.mem && (match e.fault {
                Some(f) => r == Err::<bool, EmuError>(f),
                None => r == Ok::<bool, EmuError>(e.halted),
            })
        }),
{
    if (regs.pc as usize) >= mem.len() {
        return Err(EmuError::OutOfBoundsMemory(regs.pc));
    }
    regs.ir = fetch(regs.pc, mem);
    let opcode = decode(regs.ir);
    match execute(opcode, regs, mem) {
        Err(e) => Err(e),
        Ok(Some(ControlFlow::Break(_))) => Ok(true),
        Ok(Some(ControlFlow::Continue(_))) => Ok(false),
        Ok(None) => {
            if regs.pc == 0xFFFF {
                regs.pc = 0;
            } else {
                regs.pc = regs.pc + 1;
            }
            proof {
                let m0 = rmodel(*old(regs));
                let m1 = RegModel { ir: old(mem)@[old(regs).pc as int], ..m0 };
                let e = spec_execute(spec_opcode_from_u8(opcode)->Some_0, m1, old(mem)@);
                assert(regs.pc == wrap_u16(e.regs.pc as int + 1));
            }
            Ok(false)
        },
    }
}

/// Size in words of the code region of a loaded image.
pub const CODE_SECTION_LENGTH: usize = 300;

/// Size in words of the stack region of a loaded image.
pub const STACK_LENGTH: usize = 50;

/// Builds the memory image of a binary: 350 words, the big-endian byte
/// pairs of the binary first, zero beyond them.
pub fn load_program(bytes: &Vec<u8>) -> (mem: Vec<u16>)
    requires
        bytes@.len() <= 700,
    ensures
        mem@.len() == 350,
        forall|i: int|
            0 <= i < bytes@.len() / 2 ==> mem@[i] == (bytes@[2 * i] as int) * 256 + bytes@[2 * i
                + 1],
        forall|i: int| bytes@.len() / 2 <= i < 350 ==> mem@[i] == 0,
{
    let mut mem: Vec<u16> = Vec::new();
    let mut j: usize = 0;
    while j < CODE_SECTION_LENGTH + STACK_LENGTH
        invariant
            j <= 350,
            mem@.len() == j,
            forall|i: int| 0 <= i < j ==> mem@[i] == 0,
        decreases 350 - j,
    {
        mem.push(0);
        j = j + 1;
    }
    let n = bytes.len() / 2;
    let mut idx: usize = 0;
    let mut w: usize = 0;
    while idx < n
        invariant
            n == bytes@.len() / 2,
            n * 2 <= bytes@.len(),
            idx <= n,
            w == 2 * idx,
            mem@.len() == 350,
            n <= 350,
            forall|i: int|
                0 <= i < idx ==> mem@[i] == (bytes@[2 * i] as int) * 256 + bytes@[2 * i + 1],
            forall|i: int| idx <= i < 350 ==> mem@[i] == 0,
        decreases n - idx,
    {
        let word: u16 = (bytes[w] as u16) * 256 + (bytes[w + 1] as u16);
        mem[idx] = word;
        w = w + 2;
        idx = idx + 1;
    }
    mem
}

} // verus!
