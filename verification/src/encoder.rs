//! Per-mnemonic encoders: each takes the argument tokens, the symbol
//! table and the line index, validates the arguments, and packs opcode and
//! operand fields into a 2-byte big-endian instruction word.
//!
//! The twin mnemonics `pop`, `shr` and `or` reuse the encoder of their
//! partner (`push`, `shl`, `and`) and then set bit 3 of the most
//! significant byte, which adds one to the even opcode.

use vstd::prelude::*;
use crate::errors::LineError;
use crate::isa::{
    pack_t1, pack_t2, pack_t3, pack_t4, pack_t5, word_bytes, InstructionType, encode, word_op,
    spec_opcode_from_u8,
};
use crate::lexer::{spec_parse_i8, is_digit_char};
use crate::symbols::{Symbols, tbl_lookup, smodel};

verus! {

// ------------------------- operand parsing -------------------------

/// The register index a token names, through the alias table: `r0`..`r7`
/// name slots 0..7, `fp` 4, `sp` 5, `lr` 6, `mbr` 7.
pub open spec fn spec_reg_index(s: Seq<char>) -> Option<u8> {
    if s.len() == 2 && s[0] == 'r' && is_digit_char(s[1]) && s[1] <= '7' {
        Some(((s[1] as u8) - 48) as u8)
    } else if s.len() == 2 && s[0] == 'f' && s[1] == 'p' {
        Some(4)
    } else if s.len() == 2 && s[0] == 's' && s[1] == 'p' {
        Some(5)
    } else if s.len() == 2 && s[0] == 'l' && s[1] == 'r' {
        Some(6)
    } else if s.len() == 3 && s[0] == 'm' && s[1] == 'b' && s[2] == 'r' {
        Some(7)
    } else {
        None
    }
}

/// The bit pattern of a signed 8-bit value, as a byte.
pub open spec fn i8_bits(v: i8) -> u8 {
    if v >= 0 {
        v as u8
    } else {
        (v + 0x100) as u8
    }
}

/// A token starts with the given character.
pub open spec fn starts_with(s: Seq<char>, c: char) -> bool {
    s.len() >= 1 && s[0] == c
}

/// The byte an immediate token (`#` and a signed 8-bit decimal) encodes
/// to: absent `#` and an unreadable number are told apart.
pub open spec fn spec_imm_u8(s: Seq<char>) -> Result<u8, EncFault> {
    if starts_with(s, '#') {
        match spec_parse_i8(s.skip(1)) {
            Some(v) => Ok(i8_bits(v)),
            None => Err(EncFault::Unrecognized(s)),
        }
    } else {
        Err(EncFault::StartWithHash)
    }
}

/// An argument fault of an encoder, with the offending text.
pub enum EncFault {
    WrongArgs(Seq<char>),
    StartWithHash,
    StartWithAmp,
    Unrecognized(Seq<char>),
}

/// An executable encoder error denotes a ghost fault at a line.
pub open spec fn enc_fault_matches(e: LineError, f: EncFault, ln: int) -> bool {
    match (e, f) {
        (LineError::WrongArgs(s, n), EncFault::WrongArgs(t)) => s@ == t && n == ln,
        (LineError::StartWithHash(n), EncFault::StartWithHash) => n == ln,
        (LineError::StartWithAmp(n), EncFault::StartWithAmp) => n == ln,
        (LineError::Unrecognized(s, n), EncFault::Unrecognized(t)) => s@ == t && n == ln,
        _ => false,
    }
}

/// An encoder result as the executable encoders return it: the word's
/// big-endian byte pair, or the error at the line.
pub open spec fn enc_result_matches(
    r: Result<[u8; 2], LineError>,
    s: Result<u16, EncFault>,
    ln: int,
) -> bool {
    match s {
        Ok(w) => r is Ok && r->Ok_0@ =~= seq![word_bytes(w).0, word_bytes(w).1],
        Err(f) => r is Err && enc_fault_matches(r->Err_0, f, ln),
    }
}

fn reg_index_of(s: &str) -> (r: Option<u8>)
    ensures
        r == spec_reg_index(s@),
        r is Some ==> r->Some_0 < 8,
{
    let n = s.unicode_len();
    if n == 2 {
        let c0 = s.get_char(0);
        let c1 = s.get_char(1);
        if c0 == 'r' && '0' <= c1 && c1 <= '7' {
            Some((c1 as u8) - 48)
        } else if c0 == 'f' && c1 == 'p' {
            Some(4)
        } else if c0 == 's' && c1 == 'p' {
            Some(5)
        } else if c0 == 'l' && c1 == 'r' {
            Some(6)
        } else {
            None
        }
    } else if n == 3 {
        if s.get_char(0) == 'm' && s.get_char(1) == 'b' && s.get_char(2) == 'r' {
            Some(7)
        } else {
            None
        }
    } else {
        None
    }
}

/// Resolves a register name through the alias table; an unknown name is
/// `Unrecognized`.
pub fn get_valid_reg(r: &str, line_num: usize) -> (res: Result<u8, LineError>)
    ensures
        match spec_reg_index(r@) {
            Some(v) => res == Ok::<u8, LineError>(v) && v < 8,
            None => res is Err && enc_fault_matches(
                res->Err_0,
                EncFault::Unrecognized(r@),
                line_num as int,
            ),
        },
{
    match reg_index_of(r) {
        Some(v) => Ok(v),
        None => Err(LineError::Unrecognized(r.to_owned(), line_num)),
    }
}

/// Reads an immediate token: a `#`, then a signed 8-bit decimal,
/// reinterpreted as a byte. A missing `#` is `StartWithHash`; an
/// unreadable number is `Unrecognized`.
pub fn get_valid_imm(c: &str, line_num: usize) -> (res: Result<u8, LineError>)
    ensures
        match spec_imm_u8(c@) {
            Ok(v) => res == Ok::<u8, LineError>(v),
            Err(f) => res is Err && enc_fault_matches(res->Err_0, f, line_num as int),
        },
{
    let n = s_len(c);
    if n >= 1 && c.get_char(0) == '#' {
        let body = c.substring_char(1, n);
        proof {
            assert(body@ =~= c@.skip(1));
        }
        match crate::lexer::parse_i8_tok(body) {
            Some(v) => {
                if v >= 0 {
                    Ok(v as u8)
                } else {
                    Ok(((v as i16) + 0x100) as u8)
                }
            },
            None => Err(LineError::Unrecognized(c.to_owned(), line_num)),
        }
    } else {
        Err(LineError::StartWithHash(line_num))
    }
}

fn s_len(s: &str) -> (n: usize)
    ensures
        n == s@.len(),
{
    s.unicode_len()
}

/// Looks a label operand up in the symbol table; an unknown label is
/// `Unrecognized`.
pub fn get_valid_label(label: &str, syms: &Symbols, line_num: usize) -> (res: Result<
    u16,
    LineError,
>)
    ensures
        match tbl_lookup(smodel(*syms).labels, label@) {
            Some(a) => res == Ok::<u16, LineError>(a),
            None => res is Err && enc_fault_matches(
                res->Err_0,
                EncFault::Unrecognized(label@),
                line_num as int,
            ),
        },
{
    let owned = label.to_owned();
    match syms.lookup(&owned) {
        Some(a) => Ok(a),
        None => Err(LineError::Unrecognized(owned, line_num)),
    }
}

/// Reports a wrong number of arguments for an operation unless the count
/// was found valid.
pub fn check_args_len(valid: bool, op: &str, line_num: usize) -> (res: Result<(), LineError>)
    ensures
        valid ==> res is Ok,
        !valid ==> res is Err && enc_fault_matches(
            res->Err_0,
            EncFault::WrongArgs(op@),
            line_num as int,
        ),
{
    if !valid {
        Err(LineError::WrongArgs(op.to_owned(), line_num))
    } else {
        Ok(())
    }
}

// ------------------------- per-mnemonic words -------------------------

/// The word a `mov` line encodes to: the immediate variant (opcode 0) on
/// a `#` second argument, the register variant (opcode 1) on a register
/// name, otherwise a fault.
pub open spec fn spec_mov(args: Seq<Seq<char>>) -> Result<u16, EncFault> {
    if args.len() != 2 {
        Err(EncFault::WrongArgs("mov"@))
    } else {
        match spec_reg_index(args[0]) {
            None => Err(EncFault::Unrecognized(args[0])),
            Some(rd) => if starts_with(args[1], '#') {
                match spec_parse_i8(args[1].skip(1)) {
                    Some(v) => Ok(pack_t1(0x00, rd, i8_bits(v))),
                    None => Err(EncFault::Unrecognized(args[1])),
                }
            } else {
                match spec_reg_index(args[1]) {
                    Some(rs) => Ok(pack_t2(0x01, rd, rs, 0)),
                    None => Err(EncFault::Unrecognized(args[1])),
                }
            },
        }
    }
}

/// The word of a one-label T3 instruction (`lda`, `stra`, `jmp`, `bln` and
/// the conditional branches): the label resolved through the symbol table
/// into the 11-bit field.
pub open spec fn spec_t3_label(
    op: u8,
    name: Seq<char>,
    args: Seq<Seq<char>>,
    tbl: Seq<(Seq<char>, u16)>,
) -> Result<u16, EncFault> {
    if args.len() != 1 {
        Err(EncFault::WrongArgs(name))
    } else {
        match tbl_lookup(tbl, args[0]) {
            Some(l) => Ok(pack_t3(op, l)),
            None => Err(EncFault::Unrecognized(args[0])),
        }
    }
}

/// The word of a no-argument T3 instruction (`ret`, `halt`).
pub open spec fn spec_t3_bare(op: u8, name: Seq<char>, args: Seq<Seq<char>>) -> Result<
    u16,
    EncFault,
> {
    if args.len() != 0 {
        Err(EncFault::WrongArgs(name))
    } else {
        Ok(pack_t3(op, 0))
    }
}

/// The word a memory-register line (`ldr`, `strr`) encodes to: a register,
/// an `&`-prefixed address register, and an optional `#` immediate offset;
/// a third argument without `#` is a fault.
pub open spec fn spec_mem_rg(op: u8, name: Seq<char>, args: Seq<Seq<char>>) -> Result<
    u16,
    EncFault,
> {
    if args.len() != 2 && args.len() != 3 {
        Err(EncFault::WrongArgs(name))
    } else {
        match spec_reg_index(args[0]) {
            None => Err(EncFault::Unrecognized(args[0])),
            Some(rd) => if starts_with(args[1], '&') {
                match spec_reg_index(args[1].skip(1)) {
                    None => Err(EncFault::Unrecognized(args[1].skip(1))),
                    Some(ra) => if args.len() == 3 {
                        if starts_with(args[2], '#') {
                            match spec_parse_i8(args[2].skip(1)) {
                                Some(v) => Ok(pack_t2(op, rd, ra, i8_bits(v))),
                                None => Err(EncFault::Unrecognized(args[2])),
                            }
                        } else {
                            Err(EncFault::StartWithHash)
                        }
                    } else {
                        Ok(pack_t2(op, rd, ra, 0))
                    },
                }
            } else {
                Err(EncFault::StartWithAmp)
            },
        }
    }
}

/// The word a `push` line encodes to: one to three registers in the T4
/// slots, their count in the bottom two bits.
pub open spec fn spec_push(args: Seq<Seq<char>>) -> Result<u16, EncFault> {
    if args.len() < 1 || args.len() > 3 {
        Err(EncFault::WrongArgs("push/pop operation"@))
    } else {
        match spec_reg_index(args[0]) {
            None => Err(EncFault::Unrecognized(args[0])),
            Some(ra) => if args.len() == 1 {
                Ok(pack_t4(0x06, ra, 0, 0, 1))
            } else {
                match spec_reg_index(args[1]) {
                    None => Err(EncFault::Unrecognized(args[1])),
                    Some(rb) => if args.len() == 2 {
                        Ok(pack_t4(0x06, ra, rb, 0, 2))
                    } else {
                        match spec_reg_index(args[2]) {
                            None => Err(EncFault::Unrecognized(args[2])),
                            Some(rc) => Ok(pack_t4(0x06, ra, rb, rc, 3)),
                        }
                    },
                }
            },
        }
    }
}

/// The word a twin mnemonic encodes to: its partner's word with bit 3 of
/// the most significant byte set, which adds one to the even opcode.
pub open spec fn spec_twin(base: Result<u16, EncFault>) -> Result<u16, EncFault> {
    match base {
        Ok(w) => Ok(w | 0x0800),
        Err(f) => Err(f),
    }
}

/// The word an `add` or `sub` line encodes to: the immediate variant (T2)
/// on a `#` third argument, the register variant (T4) on a register name.
pub open spec fn spec_arith(
    op_im: u8,
    op_rg: u8,
    name: Seq<char>,
    args: Seq<Seq<char>>,
) -> Result<u16, EncFault> {
    if args.len() != 3 {
        Err(EncFault::WrongArgs(name))
    } else {
        match spec_reg_index(args[0]) {
            None => Err(EncFault::Unrecognized(args[0])),
            Some(rd) => match spec_reg_index(args[1]) {
                None => Err(EncFault::Unrecognized(args[1])),
                Some(ra) => if starts_with(args[2], '#') {
                    match spec_parse_i8(args[2].skip(1)) {
                        Some(v) => Ok(pack_t2(op_im, rd, ra, i8_bits(v))),
                        None => Err(EncFault::Unrecognized(args[2])),
                    }
                } else {
                    match spec_reg_index(args[2]) {
                        Some(rb) => Ok(pack_t4(op_rg, rd, ra, rb, 0)),
                        None => Err(EncFault::Unrecognized(args[2])),
                    }
                },
            },
        }
    }
}

/// The word a `shl` line encodes to: destination, source, and a `#`
/// immediate shift amount in the T5 field.
pub open spec fn spec_shl(args: Seq<Seq<char>>) -> Result<u16, EncFault> {
    if args.len() != 3 {
        Err(EncFault::WrongArgs("shift"@))
    } else {
        match spec_reg_index(args[0]) {
            None => Err(EncFault::Unrecognized(args[0])),
            Some(rd) => match spec_reg_index(args[1]) {
                None => Err(EncFault::Unrecognized(args[1])),
                Some(rs) => if starts_with(args[2], '#') {
                    match spec_parse_i8(args[2].skip(1)) {
                        Some(v) => Ok(pack_t5(0x0C, rd, rs, i8_bits(v))),
                        None => Err(EncFault::Unrecognized(args[2])),
                    }
                } else {
                    Err(EncFault::StartWithHash)
                },
            },
        }
    }
}

/// The word an `and` line encodes to: three registers in the T4 slots.
pub open spec fn spec_and_enc(args: Seq<Seq<char>>) -> Result<u16, EncFault> {
    if args.len() != 3 {
        Err(EncFault::WrongArgs("logical operation"@))
    } else {
        match spec_reg_index(args[0]) {
            None => Err(EncFault::Unrecognized(args[0])),
            Some(rd) => match spec_reg_index(args[1]) {
                None => Err(EncFault::Unrecognized(args[1])),
                Some(ra) => match spec_reg_index(args[2]) {
                    None => Err(EncFault::Unrecognized(args[2])),
                    Some(rb) => Ok(pack_t4(0x0E, rd, ra, rb, 0)),
                },
            },
        }
    }
}

/// The word a `not` line encodes to: destination and source in a T2 word.
pub open spec fn spec_not_enc(args: Seq<Seq<char>>) -> Result<u16, EncFault> {
    if args.len() != 2 {
        Err(EncFault::WrongArgs("not"@))
    } else {
        match spec_reg_index(args[0]) {
            None => Err(EncFault::Unrecognized(args[0])),
            Some(rd) => match spec_reg_index(args[1]) {
                None => Err(EncFault::Unrecognized(args[1])),
                Some(rs) => Ok(pack_t2(0x10, rd, rs, 0)),
            },
        }
    }
}

/// The word a `cmp` line encodes to: the immediate variant (T1) on a `#`
/// second argument, the register variant (T2) on a register name.
pub open spec fn spec_cmp(args: Seq<Seq<char>>) -> Result<u16, EncFault> {
    if args.len() != 2 {
        Err(EncFault::WrongArgs("cmp"@))
    } else {
        match spec_reg_index(args[0]) {
            None => Err(EncFault::Unrecognized(args[0])),
            Some(ra) => if starts_with(args[1], '#') {
                match spec_parse_i8(args[1].skip(1)) {
                    Some(v) => Ok(pack_t1(0x14, ra, i8_bits(v))),
                    None => Err(EncFault::Unrecognized(args[1])),
                }
            } else {
                match spec_reg_index(args[1]) {
                    Some(rb) => Ok(pack_t2(0x15, ra, rb, 0)),
                    None => Err(EncFault::Unrecognized(args[1])),
                }
            },
        }
    }
}

// ------------------------- executable encoders -------------------------

fn word_out(w: u16) -> (r: [u8; 2])
    ensures
        r@ =~= seq![word_bytes(w).0, word_bytes(w).1],
{
    proof {
        crate::isa::lemma_split_word(w);
    }
    [(w >> 8) as u8, (w & 0xFF) as u8]
}

/// Encodes `mov`: immediate variant on a `#` second argument, register
/// variant on a register name.
pub fn mov(args: Vec<String>, _syms: &Symbols, line_num: usize) -> (r: Result<[u8; 2], LineError>)
    ensures
        enc_result_matches(r, spec_mov(args.deep_view()), line_num as int),
{
    check_args_len(args.len() == 2, "mov", line_num)?;
    proof {
        assert(args.deep_view()[0] == args@[0]@);
        assert(args.deep_view()[1] == args@[1]@);
    }
    let reg_dst = get_valid_reg(args[0].as_str(), line_num)?;
    let a1 = args[1].as_str();
    if s_len(a1) >= 1 && a1.get_char(0) == '#' {
        let constant = get_valid_imm(a1, line_num)?;
        Ok(word_out(
            encode_word(InstructionType::T1(0x00, reg_dst, constant)),
        ))
    } else {
        match reg_index_of(a1) {
            Some(reg_src) => Ok(word_out(
                encode_word(InstructionType::T2(0x01, reg_dst, reg_src, 0)),
            )),
            None => Err(LineError::Unrecognized(a1.to_owned(), line_num)),
        }
    }
}

fn encode_word(instr: InstructionType) -> (w: u16)
    ensures
        w == crate::isa::spec_encode(instr),
{
    let bytes = encode(instr);
    proof {
        crate::isa::lemma_word_bytes(crate::isa::spec_encode(instr));
    }
    ((bytes[0] as u16) << 8) | (bytes[1] as u16)
}

fn t3_label(op: u8, name: &str, args: &Vec<String>, syms: &Symbols, line_num: usize) -> (r: Result<
    [u8; 2],
    LineError,
>)
    ensures
        enc_result_matches(
            r,
            spec_t3_label(op, name@, args.deep_view(), smodel(*syms).labels),
            line_num as int,
        ),
{
    check_args_len(args.len() == 1, name, line_num)?;
    proof {
        assert(args.deep_view()[0] == args@[0]@);
    }
    let label = get_valid_label(args[0].as_str(), syms, line_num)?;
    Ok(word_out(encode_word(InstructionType::T3(op, label))))
}

fn t3_bare(op: u8, name: &str, args: &Vec<String>, line_num: usize) -> (r: Result<
    [u8; 2],
    LineError,
>)
    ensures
        enc_result_matches(r, spec_t3_bare(op, name@, args.deep_view()), line_num as int),
{
    check_args_len(args.len() == 0, name, line_num)?;
    Ok(word_out(encode_word(InstructionType::T3(op, 0))))
}

fn mem_rg(op: u8, name: &str, args: &Vec<String>, line_num: usize) -> (r: Result<
    [u8; 2],
    LineError,
>)
    ensures
        enc_result_matches(r, spec_mem_rg(op, name@, args.deep_view()), line_num as int),
{
    check_args_len(args.len() == 2 || args.len() == 3, name, line_num)?;
    proof {
        assert(args.deep_view()[0] == args@[0]@);
        assert(args.deep_view()[1] == args@[1]@);
        if args@.len() == 3 {
            assert(args.deep_view()[2] == args@[2]@);
        }
    }
    let reg_dst = get_valid_reg(args[0].as_str(), line_num)?;
    let a1 = args[1].as_str();
    if s_len(a1) >= 1 && a1.get_char(0) == '&' {
        let body = a1.substring_char(1, s_len(a1));
        proof {
            assert(body@ =~= a1@.skip(1));
        }
        let reg_adr = get_valid_reg(body, line_num)?;
        let mut offset: u8 = 0;
        if args.len() == 3 {
            offset = get_valid_imm(args[2].as_str(), line_num)?;
        }
        Ok(word_out(
            encode_word(InstructionType::T2(op, reg_dst, reg_adr, offset)),
        ))
    } else {
        Err(LineError::StartWithAmp(line_num))
    }
}

/// Encodes `lda`: the label's address into the 11-bit field of a T3 word.
pub fn lda(args: Vec<String>, syms: &Symbols, line_num: usize) -> (r: Result<[u8; 2], LineError>)
    ensures
        enc_result_matches(
            r,
            spec_t3_label(0x02, "lda"@, args.deep_view(), smodel(*syms).labels),
            line_num as int,
        ),
{
    t3_label(0x02, "lda", &args, syms, line_num)
}

/// Encodes `ldr`: destination, `&`-prefixed address register, optional
/// `#` offset; a third argument without `#` is a fault.
pub fn ldr(args: Vec<String>, _syms: &Symbols, line_num: usize) -> (r: Result<[u8; 2], LineError>)
    ensures
        enc_result_matches(
            r,
            spec_mem_rg(0x03, "ldr"@, args.deep_view()),
            line_num as int,
        ),
{
    mem_rg(0x03, "ldr", &args, line_num)
}

/// Encodes `stra`: the label's address into the 11-bit field of a T3
/// word.
pub fn stra(args: Vec<String>, syms: &Symbols, line_num: usize) -> (r: Result<[u8; 2], LineError>)
    ensures
        enc_result_matches(
            r,
            spec_t3_label(0x04, "stra"@, args.deep_view(), smodel(*syms).labels),
            line_num as int,
        ),
{
    t3_label(0x04, "stra", &args, syms, line_num)
}

/// Encodes `strr`: source, `&`-prefixed address register, optional `#`
/// offset; a third argument without `#` is a fault.
pub fn strr(args: Vec<String>, _syms: &Symbols, line_num: usize) -> (r: Result<[u8; 2], LineError>)
    ensures
        enc_result_matches(
            r,
            spec_mem_rg(0x05, "strr"@, args.deep_view()),
            line_num as int,
        ),
{
    mem_rg(0x05, "strr", &args, line_num)
}

/// Encodes `push`: one to three registers in the T4 slots, their count in
/// the bottom two bits.
pub fn push(args: Vec<String>, _syms: &Symbols, line_num: usize) -> (r: Result<[u8; 2], LineError>)
    ensures
        enc_result_matches(r, spec_push(args.deep_view()), line_num as int),
{
    check_args_len(args.len() >= 1 && args.len() <= 3, "push/pop operation", line_num)?;
    proof {
        assert(args.deep_view()[0] == args@[0]@);
        if args@.len() >= 2 {
            assert(args.deep_view()[1] == args@[1]@);
        }
        if args@.len() >= 3 {
            assert(args.deep_view()[2] == args@[2]@);
        }
    }
    let reg_a = get_valid_reg(args[0].as_str(), line_num)?;
    let mut reg_b: u8 = 0;
    let mut reg_c: u8 = 0;
    let mut num: u8 = 1;
    if args.len() == 2 {
        reg_b = get_valid_reg(args[1].as_str(), line_num)?;
        num = 2;
    } else if args.len() == 3 {
        reg_b = get_valid_reg(args[1].as_str(), line_num)?;
        reg_c = get_valid_reg(args[2].as_str(), line_num)?;
        num = 3;
    }
    Ok(word_out(
        encode_word(InstructionType::T4(0x06, reg_a, reg_b, reg_c, num)),
    ))
}

/// Encodes `pop` as `push` with bit 3 of the most significant byte set:
/// the opcode becomes 7.
pub fn pop(args: Vec<String>, _syms: &Symbols, line_num: usize) -> (r: Result<[u8; 2], LineError>)
    ensures
        enc_result_matches(r, spec_twin(spec_push(args.deep_view())), line_num as int),
{
    let ghost av = args.deep_view();
    let fresh = Symbols::new();
    let mut bytes = push(args, &fresh, line_num)?;
    proof {
        crate::isa::lemma_twin_word(spec_push(av)->Ok_0);
    }
    bytes[0] = bytes[0] | 0x08;
    Ok(bytes)
}

/// Encodes `add`: immediate variant (opcode 8, T2) on a `#` third
/// argument, register variant (opcode 9, T4) on a register name.
pub fn add(args: Vec<String>, _syms: &Symbols, line_num: usize) -> (r: Result<[u8; 2], LineError>)
    ensures
        enc_result_matches(r, spec_arith(0x08, 0x09, "add"@, args.deep_view()), line_num as int),
{
    arith(0x08, 0x09, "add", &args, line_num)
}

/// Encodes `sub`: immediate variant (opcode 10, T2) on a `#` third
/// argument, register variant (opcode 11, T4) on a register name.
pub fn sub(args: Vec<String>, _syms: &Symbols, line_num: usize) -> (r: Result<[u8; 2], LineError>)
    ensures
        enc_result_matches(r, spec_arith(0x0A, 0x0B, "sub"@, args.deep_view()), line_num as int),
{
    arith(0x0A, 0x0B, "sub", &args, line_num)
}

fn arith(op_im: u8, op_rg: u8, name: &str, args: &Vec<String>, line_num: usize) -> (r: Result<
    [u8; 2],
    LineError,
>)
    ensures
        enc_result_matches(
            r,
            spec_arith(op_im, op_rg, name@, args.deep_view()),
            line_num as int,
        ),
{
    check_args_len(args.len() == 3, name, line_num)?;
    proof {
        assert(args.deep_view()[0] == args@[0]@);
        assert(args.deep_view()[1] == args@[1]@);
        assert(args.deep_view()[2] == args@[2]@);
    }
    let reg_dst = get_valid_reg(args[0].as_str(), line_num)?;
    let reg_a = get_valid_reg(args[1].as_str(), line_num)?;
    let a2 = args[2].as_str();
    if s_len(a2) >= 1 && a2.get_char(0) == '#' {
        let constant = get_valid_imm(a2, line_num)?;
        Ok(word_out(
            encode_word(InstructionType::T2(op_im, reg_dst, reg_a, constant)),
        ))
    } else {
        match reg_index_of(a2) {
            Some(reg_b) => Ok(word_out(
                encode_word(InstructionType::T4(op_rg, reg_dst, reg_a, reg_b, 0)),
            )),
            None => Err(LineError::Unrecognized(a2.to_owned(), line_num)),
        }
    }
}

/// Encodes `shl`: destination, source, and a `#` shift amount into the
/// T5 field.
pub fn shl(args: Vec<String>, _syms: &Symbols, line_num: usize) -> (r: Result<[u8; 2], LineError>)
    ensures
        enc_result_matches(r, spec_shl(args.deep_view()), line_num as int),
{
    check_args_len(args.len() == 3, "shift", line_num)?;
    proof {
        assert(args.deep_view()[0] == args@[0]@);
        assert(args.deep_view()[1] == args@[1]@);
        assert(args.deep_view()[2] == args@[2]@);
    }
    let reg_dst = get_valid_reg(args[0].as_str(), line_num)?;
    let reg_src = get_valid_reg(args[1].as_str(), line_num)?;
    let a2 = args[2].as_str();
    if s_len(a2) >= 1 && a2.get_char(0) == '#' {
        let constant = get_valid_imm(a2, line_num)?;
        Ok(word_out(
            encode_word(InstructionType::T5(0x0C, reg_dst, reg_src, constant)),
        ))
    } else {
        Err(LineError::StartWithHash(line_num))
    }
}

/// Encodes `shr` as `shl` with bit 3 of the most significant byte set:
/// the opcode becomes 13.
pub fn shr(args: Vec<String>, _syms: &Symbols, line_num: usize) -> (r: Result<[u8; 2], LineError>)
    ensures
        enc_result_matches(r, spec_twin(spec_shl(args.deep_view())), line_num as int),
{
    let ghost av = args.deep_view();
    let fresh = Symbols::new();
    let mut bytes = shl(args, &fresh, line_num)?;
    proof {
        crate::isa::lemma_twin_word(spec_shl(av)->Ok_0);
    }
    bytes[0] = bytes[0] | 0x08;
    Ok(bytes)
}

/// Encodes `and`: three registers in the T4 slots.
pub fn and(args: Vec<String>, _syms: &Symbols, line_num: usize) -> (r: Result<[u8; 2], LineError>)
    ensures
        enc_result_matches(r, spec_and_enc(args.deep_view()), line_num as int),
{
    check_args_len(args.len() == 3, "logical operation", line_num)?;
    proof {
        assert(args.deep_view()[0] == args@[0]@);
        assert(args.deep_view()[1] == args@[1]@);
        assert(args.deep_view()[2] == args@[2]@);
    }
    let reg_dst = get_valid_reg(args[0].as_str(), line_num)?;
    let reg_a = get_valid_reg(args[1].as_str(), line_num)?;
    let reg_b = get_valid_reg(args[2].as_str(), line_num)?;
    Ok(word_out(
        encode_word(InstructionType::T4(0x0E, reg_dst, reg_a, reg_b, 0)),
    ))
}

/// Encodes `or` as `and` with bit 3 of the most significant byte set:
/// the opcode becomes 15.
pub fn or(args: Vec<String>, _syms: &Symbols, line_num: usize) -> (r: Result<[u8; 2], LineError>)
    ensures
        enc_result_matches(r, spec_twin(spec_and_enc(args.deep_view())), line_num as int),
{
    let ghost av = args.deep_view();
    let fresh = Symbols::new();
    let mut bytes = and(args, &fresh, line_num)?;
    proof {
        crate::isa::lemma_twin_word(spec_and_enc(av)->Ok_0);
    }
    bytes[0] = bytes[0] | 0x08;
    Ok(bytes)
}

/// Encodes `not`: destination and source in a T2 word.
pub fn not(args: Vec<String>, _syms: &Symbols, line_num: usize) -> (r: Result<[u8; 2], LineError>)
    ensures
        enc_result_matches(r, spec_not_enc(args.deep_view()), line_num as int),
{
    check_args_len(args.len() == 2, "not", line_num)?;
    proof {
        assert(args.deep_view()[0] == args@[0]@);
        assert(args.deep_view()[1] == args@[1]@);
    }
    let reg_dst = get_valid_reg(args[0].as_str(), line_num)?;
    let reg_src = get_valid_reg(args[1].as_str(), line_num)?;
    Ok(word_out(
        encode_word(InstructionType::T2(0x10, reg_dst, reg_src, 0)),
    ))
}

/// Encodes `jmp`: the label's address into the 11-bit field.
pub fn jmp(args: Vec<String>, syms: &Symbols, line_num: usize) -> (r: Result<[u8; 2], LineError>)
    ensures
        enc_result_matches(
            r,
            spec_t3_label(0x11, "jmp"@, args.deep_view(), smodel(*syms).labels),
            line_num as int,
        ),
{
    t3_label(0x11, "jmp", &args, syms, line_num)
}

/// Encodes `bln`: the label's address into the 11-bit field.
pub fn bln(args: Vec<String>, syms: &Symbols, line_num: usize) -> (r: Result<[u8; 2], LineError>)
    ensures
        enc_result_matches(
            r,
            spec_t3_label(0x12, "bln"@, args.deep_view(), smodel(*syms).labels),
            line_num as int,
        ),
{
    t3_label(0x12, "bln", &args, syms, line_num)
}

/// Encodes `ret`: a bare T3 word with opcode 19.
pub fn ret(args: Vec<String>, _syms: &Symbols, line_num: usize) -> (r: Result<[u8; 2], LineError>)
    ensures
        enc_result_matches(r, spec_t3_bare(0x13, "ret"@, args.deep_view()), line_num as int),
{
    t3_bare(0x13, "ret", &args, line_num)
}

/// Encodes `cmp`: immediate variant (opcode 20, T1) on a `#` second
/// argument, register variant (opcode 21, T2) on a register name.
pub fn cmp(args: Vec<String>, _syms: &Symbols, line_num: usize) -> (r: Result<[u8; 2], LineError>)
    ensures
        enc_result_matches(r, spec_cmp(args.deep_view()), line_num as int),
{
    check_args_len(args.len() == 2, "cmp", line_num)?;
    proof {
        assert(args.deep_view()[0] == args@[0]@);
        assert(args.deep_view()[1] == args@[1]@);
    }
    let reg_a = get_valid_reg(args[0].as_str(), line_num)?;
    let a1 = args[1].as_str();
    if s_len(a1) >= 1 && a1.get_char(0) == '#' {
        let constant = get_valid_imm(a1, line_num)?;
        Ok(word_out(
            encode_word(InstructionType::T1(0x14, reg_a, constant)),
        ))
    } else {
        match reg_index_of(a1) {
            Some(reg_b) => Ok(word_out(
                encode_word(InstructionType::T2(0x15, reg_a, reg_b, 0)),
            )),
            None => Err(LineError::Unrecognized(a1.to_owned(), line_num)),
        }
    }
}

/// Encodes `beq`: the label's address into the 11-bit field.
pub fn beq(args: Vec<String>, syms: &Symbols, line_num: usize) -> (r: Result<[u8; 2], LineError>)
    ensures
        enc_result_matches(
            r,
            spec_t3_label(0x16, "beq"@, args.deep_view(), smodel(*syms).labels),
            line_num as int,
        ),
{
    t3_label(0x16, "beq", &args, syms, line_num)
}

/// Encodes `bne`: the label's address into the 11-bit field.
pub fn bne(args: Vec<String>, syms: &Symbols, line_num: usize) -> (r: Result<[u8; 2], LineError>)
    ensures
        enc_result_matches(
            r,
            spec_t3_label(0x17, "bne"@, args.deep_view(), smodel(*syms).labels),
            line_num as int,
        ),
{
    t3_label(0x17, "bne", &args, syms, line_num)
}

/// Encodes `bgt`: the label's address into the 11-bit field.
pub fn bgt(args: Vec<String>, syms: &Symbols, line_num: usize) -> (r: Result<[u8; 2], LineError>)
    ensures
        enc_result_matches(
            r,
            spec_t3_label(0x18, "bgt"@, args.deep_view(), smodel(*syms).labels),
            line_num as int,
        ),
{
    t3_label(0x18, "bgt", &args, syms, line_num)
}

/// Encodes `bgtu`: the label's address into the 11-bit field.
pub fn bgtu(args: Vec<String>, syms: &Symbols, line_num: usize) -> (r: Result<[u8; 2], LineError>)
    ensures
        enc_result_matches(
            r,
            spec_t3_label(0x19, "bgtu"@, args.deep_view(), smodel(*syms).labels),
            line_num as int,
        ),
{
    t3_label(0x19, "bgtu", &args, syms, line_num)
}

/// Encodes `blt`: the label's address into the 11-bit field.
pub fn blt(args: Vec<String>, syms: &Symbols, line_num: usize) -> (r: Result<[u8; 2], LineError>)
    ensures
        enc_result_matches(
            r,
            spec_t3_label(0x1A, "blt"@, args.deep_view(), smodel(*syms).labels),
            line_num as int,
        ),
{
    t3_label(0x1A, "blt", &args, syms, line_num)
}

/// Encodes `bltu`: the label's address into the 11-bit field.
pub fn bltu(args: Vec<String>, syms: &Symbols, line_num: usize) -> (r: Result<[u8; 2], LineError>)
    ensures
        enc_result_matches(
            r,
            spec_t3_label(0x1B, "bltu"@, args.deep_view(), smodel(*syms).labels),
            line_num as int,
        ),
{
    t3_label(0x1B, "bltu", &args, syms, line_num)
}

/// Encodes `halt`: a bare T3 word with opcode 28.
pub fn halt(args: Vec<String>, _syms: &Symbols, line_num: usize) -> (r: Result<[u8; 2], LineError>)
    ensures
        enc_result_matches(r, spec_t3_bare(0x1C, "halt"@, args.deep_view()), line_num as int),
{
    t3_bare(0x1C, "halt", &args, line_num)
}

// ------------------------- the mnemonic table -------------------------

/// The word a classified instruction line encodes to, by mnemonic:
/// `None` for a name outside the mnemonic table.
pub open spec fn spec_encode_mnemonic(
    m: Seq<char>,
    args: Seq<Seq<char>>,
    tbl: Seq<(Seq<char>, u16)>,
) -> Option<Result<u16, EncFault>> {
    if m == "mov"@ {
        Some(spec_mov(args))
    } else if m == "lda"@ {
        Some(spec_t3_label(0x02, "lda"@, args, tbl))
    } else if m == "ldr"@ {
        Some(spec_mem_rg(0x03, "ldr"@, args))
    } else if m == "stra"@ {
        Some(spec_t3_label(0x04, "stra"@, args, tbl))
    } else if m == "strr"@ {
        Some(spec_mem_rg(0x05, "strr"@, args))
    } else if m == "push"@ {
        Some(spec_push(args))
    } else if m == "pop"@ {
        Some(spec_twin(spec_push(args)))
    } else if m == "add"@ {
        Some(spec_arith(0x08, 0x09, "add"@, args))
    } else if m == "sub"@ {
        Some(spec_arith(0x0A, 0x0B, "sub"@, args))
    } else if m == "shl"@ {
        Some(spec_shl(args))
    } else if m == "shr"@ {
        Some(spec_twin(spec_shl(args)))
    } else if m == "and"@ {
        Some(spec_and_enc(args))
    } else if m == "or"@ {
        Some(spec_twin(spec_and_enc(args)))
    } else if m == "not"@ {
        Some(spec_not_enc(args))
    } else if m == "jmp"@ {
        Some(spec_t3_label(0x11, "jmp"@, args, tbl))
    } else if m == "bln"@ {
        Some(spec_t3_label(0x12, "bln"@, args, tbl))
    } else if m == "ret"@ {
        Some(spec_t3_bare(0x13, "ret"@, args))
    } else if m == "cmp"@ {
        Some(spec_cmp(args))
    } else if m == "beq"@ {
        Some(spec_t3_label(0x16, "beq"@, args, tbl))
    } else if m == "bne"@ {
        Some(spec_t3_label(0x17, "bne"@, args, tbl))
    } else if m == "bgt"@ {
        Some(spec_t3_label(0x18, "bgt"@, args, tbl))
    } else if m == "bgtu"@ {
        Some(spec_t3_label(0x19, "bgtu"@, args, tbl))
    } else if m == "blt"@ {
        Some(spec_t3_label(0x1A, "blt"@, args, tbl))
    } else if m == "bltu"@ {
        Some(spec_t3_label(0x1B, "bltu"@, args, tbl))
    } else if m == "halt"@ {
        Some(spec_t3_bare(0x1C, "halt"@, args))
    } else {
        None
    }
}

fn str_eq(a: &str, b: &str) -> (r: bool)
    ensures
        r == (a@ == b@),
{
    let n = a.unicode_len();
    let m = b.unicode_len();
    if n != m {
        return false;
    }
    let mut i: usize = 0;
    while i < n
        invariant
            0 <= i <= n,
            n == a@.len(),
            n == b@.len(),
            forall|j: int| 0 <= j < i ==> a@[j] == b@[j],
        decreases n - i,
    {
        if a.get_char(i) != b.get_char(i) {
            return false;
        }
        i = i + 1;
    }
    proof {
        assert(a@ =~= b@);
    }
    true
}

/// Dispatches a classified instruction line to its encoder through the
/// mnemonic table; a name outside the table is `Unrecognized`.
pub fn encode_instruction(m: &String, args: Vec<String>, syms: &Symbols, line_num: usize) -> (r:
    Result<[u8; 2], LineError>)
    ensures
        match spec_encode_mnemonic(m@, args.deep_view(), smodel(*syms).labels) {
            None => r is Err && enc_fault_matches(
                r->Err_0,
                EncFault::Unrecognized(m@),
                line_num as int,
            ),
            Some(s) => enc_result_matches(r, s, line_num as int),
        },
{
    let ms = m.as_str();
    if str_eq(ms, "mov") {
        mov(args, syms, line_num)
    } else if str_eq(ms, "lda") {
        lda(args, syms, line_num)
    } else if str_eq(ms, "ldr") {
        ldr(args, syms, line_num)
    } else if str_eq(ms, "stra") {
        stra(args, syms, line_num)
    } else if str_eq(ms, "strr") {
        strr(args, syms, line_num)
    } else if str_eq(ms, "push") {
        push(args, syms, line_num)
    } else if str_eq(ms, "pop") {
        pop(args, syms, line_num)
    } else if str_eq(ms, "add") {
        crate::encoder::add(args, syms, line_num)
    } else if str_eq(ms, "sub") {
        crate::encoder::sub(args, syms, line_num)
    } else if str_eq(ms, "shl") {
        shl(args, syms, line_num)
    } else if str_eq(ms, "shr") {
        shr(args, syms, line_num)
    } else if str_eq(ms, "and") {
        and(args, syms, line_num)
    } else if str_eq(ms, "or") {
        or(args, syms, line_num)
    } else if str_eq(ms, "not") {
        not(args, syms, line_num)
    } else if str_eq(ms, "jmp") {
        jmp(args, syms, line_num)
    } else if str_eq(ms, "bln") {
        bln(args, syms, line_num)
    } else if str_eq(ms, "ret") {
        ret(args, syms, line_num)
    } else if str_eq(ms, "cmp") {
        cmp(args, syms, line_num)
    } else if str_eq(ms, "beq") {
        beq(args, syms, line_num)
    } else if str_eq(ms, "bne") {
        bne(args, syms, line_num)
    } else if str_eq(ms, "bgt") {
        bgt(args, syms, line_num)
    } else if str_eq(ms, "bgtu") {
        bgtu(args, syms, line_num)
    } else if str_eq(ms, "blt") {
        blt(args, syms, line_num)
    } else if str_eq(ms, "bltu") {
        bltu(args, syms, line_num)
    } else if str_eq(ms, "halt") {
        halt(args, syms, line_num)
    } else {
        Err(LineError::Unrecognized(m.clone(), line_num))
    }
}

// ------------------------- opcode decodability -------------------------

/// The opcode the mnemonic table declares for a line, respecting the
/// variant the arguments select.
pub open spec fn declared_opcode(m: Seq<char>, args: Seq<Seq<char>>) -> Option<u8> {
    if m == "mov"@ {
        Some(
            if args.len() == 2 && starts_with(args[1], '#') {
                0x00
            } else {
                0x01
            },
        )
    } else if m == "lda"@ {
        Some(0x02)
    } else if m == "ldr"@ {
        Some(0x03)
    } else if m == "stra"@ {
        Some(0x04)
    } else if m == "strr"@ {
        Some(0x05)
    } else if m == "push"@ {
        Some(0x06)
    } else if m == "pop"@ {
        Some(0x07)
    } else if m == "add"@ {
        Some(
            if args.len() == 3 && starts_with(args[2], '#') {
                0x08
            } else {
                0x09
            },
        )
    } else if m == "sub"@ {
        Some(
            if args.len() == 3 && starts_with(args[2], '#') {
                0x0A
            } else {
                0x0B
            },
        )
    } else if m == "shl"@ {
        Some(0x0C)
    } else if m == "shr"@ {
        Some(0x0D)
    } else if m == "and"@ {
        Some(0x0E)
    } else if m == "or"@ {
        Some(0x0F)
    } else if m == "not"@ {
        Some(0x10)
    } else if m == "jmp"@ {
        Some(0x11)
    } else if m == "bln"@ {
        Some(0x12)
    } else if m == "ret"@ {
        Some(0x13)
    } else if m == "cmp"@ {
        Some(
            if args.len() == 2 && starts_with(args[1], '#') {
                0x14
            } else {
                0x15
            },
        )
    } else if m == "beq"@ {
        Some(0x16)
    } else if m == "bne"@ {
        Some(0x17)
    } else if m == "bgt"@ {
        Some(0x18)
    } else if m == "bgtu"@ {
        Some(0x19)
    } else if m == "blt"@ {
        Some(0x1A)
    } else if m == "bltu"@ {
        Some(0x1B)
    } else if m == "halt"@ {
        Some(0x1C)
    } else {
        None
    }
}

proof fn lemma_t2_op(op: u8, rd: u8, rs: u8, f: u8)
    by (bit_vector)
    requires
        op < 32,
        rd < 8,
        rs < 8,
    ensures
        word_op(pack_t2(op, rd, rs, f)) == op,
{
}

proof fn lemma_t5_op(op: u8, rd: u8, rs: u8, imm: u8)
    by (bit_vector)
    requires
        op < 32,
        rd < 8,
        rs < 8,
    ensures
        word_op(pack_t5(op, rd, rs, imm)) == op,
{
}

proof fn lemma_reg_index_bound(s: Seq<char>)
    ensures
        spec_reg_index(s) is Some ==> spec_reg_index(s)->Some_0 < 8,
{
}

proof fn lemma_tbl_values_bound(t: Seq<(Seq<char>, u16)>, k: Seq<char>)
    requires
        forall|i: int| 0 <= i < t.len() ==> (#[trigger] t[i].1) < 2048,
    ensures
        tbl_lookup(t, k) is Some ==> tbl_lookup(t, k)->Some_0 < 2048,
    decreases t.len(),
{
    if t.len() > 0 && !(t[0].0 == k) {
        assert(forall|i: int|
            0 <= i < t.drop_first().len() ==> (#[trigger] t.drop_first()[i].1) < 2048) by {
            assert(forall|i: int|
                0 <= i < t.drop_first().len() ==> t.drop_first()[i] == t[i + 1]);
        }
        lemma_tbl_values_bound(t.drop_first(), k);
    }
}

proof fn lemma_t3_label_op(op: u8, name: Seq<char>, args: Seq<Seq<char>>, tbl: Seq<(Seq<char>,
    u16)>)
    requires
        op < 32,
        forall|i: int| 0 <= i < tbl.len() ==> (#[trigger] tbl[i].1) < 2048,
        spec_t3_label(op, name, args, tbl) is Ok,
    ensures
        word_op(spec_t3_label(op, name, args, tbl)->Ok_0) == op,
{
    lemma_tbl_values_bound(tbl, args[0]);
    crate::isa::lemma_t3_round_trip(op, tbl_lookup(tbl, args[0])->Some_0);
}

/// Every successfully encoded instruction word carries, in its top five
/// bits, exactly the opcode the mnemonic table declares for the line, and
/// that code denotes one of the 29 opcodes: what the assembler emits, the
/// emulator can decode. The symbol table is assumed to hold 11-bit
/// addresses, as the data model requires.
pub proof fn lemma_encoded_opcode_decodable(
    m: Seq<char>,
    args: Seq<Seq<char>>,
    tbl: Seq<(Seq<char>, u16)>,
)
    requires
        forall|i: int| 0 <= i < tbl.len() ==> (#[trigger] tbl[i].1) < 2048,
        spec_encode_mnemonic(m, args, tbl) matches Some(s) && s is Ok,
    ensures
        ({
            let w = spec_encode_mnemonic(m, args, tbl)->Some_0->Ok_0;
            &&& declared_opcode(m, args) is Some
            &&& word_op(w) == declared_opcode(m, args)->Some_0
            &&& word_op(w) <= 0x1C
            &&& spec_opcode_from_u8(word_op(w) as u8) is Some
        }),
{
    let w = spec_encode_mnemonic(m, args, tbl)->Some_0->Ok_0;
    if m == "mov"@ {
        lemma_reg_index_bound(args[0]);
        if starts_with(args[1], '#') {
            crate::isa::lemma_t1_round_trip(
                0x00,
                spec_reg_index(args[0])->Some_0,
                i8_bits(spec_parse_i8(args[1].skip(1))->Some_0),
            );
        } else {
            lemma_t2_op(0x01, spec_reg_index(args[0])->Some_0, spec_reg_index(args[1])->Some_0, 0);
        }
    } else if m == "lda"@ {
        lemma_t3_label_op(0x02, "lda"@, args, tbl);
    } else if m == "ldr"@ {
        lemma_mem_rg_op(0x03, "ldr"@, args);
    } else if m == "stra"@ {
        lemma_t3_label_op(0x04, "stra"@, args, tbl);
    } else if m == "strr"@ {
        lemma_mem_rg_op(0x05, "strr"@, args);
    } else if m == "push"@ {
        lemma_push_op(args);
    } else if m == "pop"@ {
        lemma_push_op(args);
        crate::isa::lemma_twin_word(spec_push(args)->Ok_0);
    } else if m == "add"@ {
        lemma_arith_op(0x08, 0x09, "add"@, args);
    } else if m == "sub"@ {
        lemma_arith_op(0x0A, 0x0B, "sub"@, args);
    } else if m == "shl"@ {
        lemma_shl_op(args);
    } else if m == "shr"@ {
        lemma_shl_op(args);
        crate::isa::lemma_twin_word(spec_shl(args)->Ok_0);
    } else if m == "and"@ {
        lemma_and_op(args);
    } else if m == "or"@ {
        lemma_and_op(args);
        crate::isa::lemma_twin_word(spec_and_enc(args)->Ok_0);
    } else if m == "not"@ {
        lemma_reg_index_bound(args[0]);
        lemma_reg_index_bound(args[1]);
        lemma_t2_op(0x10, spec_reg_index(args[0])->Some_0, spec_reg_index(args[1])->Some_0, 0);
    } else if m == "jmp"@ {
        lemma_t3_label_op(0x11, "jmp"@, args, tbl);
    } else if m == "bln"@ {
        lemma_t3_label_op(0x12, "bln"@, args, tbl);
    } else if m == "ret"@ {
        crate::isa::lemma_t3_round_trip(0x13, 0);
    } else if m == "cmp"@ {
        lemma_reg_index_bound(args[0]);
        if starts_with(args[1], '#') {
            crate::isa::lemma_t1_round_trip(
                0x14,
                spec_reg_index(args[0])->Some_0,
                i8_bits(spec_parse_i8(args[1].skip(1))->Some_0),
            );
        } else {
            lemma_reg_index_bound(args[1]);
            lemma_t2_op(0x15, spec_reg_index(args[0])->Some_0, spec_reg_index(args[1])->Some_0, 0);
        }
    } else if m == "beq"@ {
        lemma_t3_label_op(0x16, "beq"@, args, tbl);
    } else if m == "bne"@ {
        lemma_t3_label_op(0x17, "bne"@, args, tbl);
    } else if m == "bgt"@ {
        lemma_t3_label_op(0x18, "bgt"@, args, tbl);
    } else if m == "bgtu"@ {
        lemma_t3_label_op(0x19, "bgtu"@, args, tbl);
    } else if m == "blt"@ {
        lemma_t3_label_op(0x1A, "blt"@, args, tbl);
    } else if m == "bltu"@ {
        lemma_t3_label_op(0x1B, "bltu"@, args, tbl);
    } else if m == "halt"@ {
        crate::isa::lemma_t3_round_trip(0x1C, 0);
    }
}

proof fn lemma_mem_rg_op(op: u8, name: Seq<char>, args: Seq<Seq<char>>)
    requires
        op < 32,
        spec_mem_rg(op, name, args) is Ok,
    ensures
        word_op(spec_mem_rg(op, name, args)->Ok_0) == op,
{
    lemma_reg_index_bound(args[0]);
    lemma_reg_index_bound(args[1].skip(1));
    let rd = spec_reg_index(args[0])->Some_0;
    let ra = spec_reg_index(args[1].skip(1))->Some_0;
    if args.len() == 3 {
        lemma_t2_op(op, rd, ra, i8_bits(spec_parse_i8(args[2].skip(1))->Some_0));
    } else {
        lemma_t2_op(op, rd, ra, 0);
    }
}

proof fn lemma_push_op(args: Seq<Seq<char>>)
    requires
        spec_push(args) is Ok,
    ensures
        word_op(spec_push(args)->Ok_0) == 0x06,
{
    lemma_reg_index_bound(args[0]);
    let ra = spec_reg_index(args[0])->Some_0;
    if args.len() == 1 {
        crate::isa::lemma_t4_round_trip(0x06, ra, 0, 0, 1);
    } else {
        lemma_reg_index_bound(args[1]);
        let rb = spec_reg_index(args[1])->Some_0;
        if args.len() == 2 {
            crate::isa::lemma_t4_round_trip(0x06, ra, rb, 0, 2);
        } else {
            lemma_reg_index_bound(args[2]);
            crate::isa::lemma_t4_round_trip(0x06, ra, rb, spec_reg_index(args[2])->Some_0, 3);
        }
    }
}

proof fn lemma_arith_op(op_im: u8, op_rg: u8, name: Seq<char>, args: Seq<Seq<char>>)
    requires
        op_im < 32,
        op_rg < 32,
        spec_arith(op_im, op_rg, name, args) is Ok,
    ensures
        word_op(spec_arith(op_im, op_rg, name, args)->Ok_0) == if starts_with(args[2], '#') {
            op_im
        } else {
            op_rg
        },
{
    lemma_reg_index_bound(args[0]);
    lemma_reg_index_bound(args[1]);
    let rd = spec_reg_index(args[0])->Some_0;
    let ra = spec_reg_index(args[1])->Some_0;
    if starts_with(args[2], '#') {
        lemma_t2_op(op_im, rd, ra, i8_bits(spec_parse_i8(args[2].skip(1))->Some_0));
    } else {
        lemma_reg_index_bound(args[2]);
        crate::isa::lemma_t4_round_trip(op_rg, rd, ra, spec_reg_index(args[2])->Some_0, 0);
    }
}

proof fn lemma_shl_op(args: Seq<Seq<char>>)
    requires
        spec_shl(args) is Ok,
    ensures
        word_op(spec_shl(args)->Ok_0) == 0x0C,
{
    lemma_reg_index_bound(args[0]);
    lemma_reg_index_bound(args[1]);
    lemma_t5_op(
        0x0C,
        spec_reg_index(args[0])->Some_0,
        spec_reg_index(args[1])->Some_0,
        i8_bits(spec_parse_i8(args[2].skip(1))->Some_0),
    );
}

proof fn lemma_and_op(args: Seq<Seq<char>>)
    requires
        spec_and_enc(args) is Ok,
    ensures
        word_op(spec_and_enc(args)->Ok_0) == 0x0E,
{
    lemma_reg_index_bound(args[0]);
    lemma_reg_index_bound(args[1]);
    lemma_reg_index_bound(args[2]);
    crate::isa::lemma_t4_round_trip(
        0x0E,
        spec_reg_index(args[0])->Some_0,
        spec_reg_index(args[1])->Some_0,
        spec_reg_index(args[2])->Some_0,
        0,
    );
}

} // verus!
