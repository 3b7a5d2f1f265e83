//! The two-pass assembler over a source given as its lines. The first
//! pass collects labels with their instruction addresses and the code and
//! data section line ranges; the second walks the section ranges and
//! renders instructions and data literals as a big-endian byte stream.
//!
//! Both passes are specified by pure functions over the lines' characters
//! (`spec_parse_symbols`, `spec_assemble`), so the byte stream is a
//! function of the source text alone.

use vstd::prelude::*;
use crate::errors::LineError;
use crate::encoder::{
    spec_encode_mnemonic, encode_instruction, enc_fault_matches, EncFault, declared_opcode,
    lemma_encoded_opcode_decodable,
};
use crate::lexer::{
    classify_line, fault_matches, parse_line, trim_comments, spec_trim_comments, words_bytes,
    LineContent, LineKind, LineFault,
};
use crate::symbols::{
    Symbols, SymModel, smodel, tbl_lookup, spec_update_sections, spec_close_sections, spec_range,
};
use crate::isa::{word_bytes, word_op, spec_opcode_from_u8};

verus! {

// ------------------------- faults -------------------------

/// Everything that can stop assembly, each with the line it happened at.
pub enum AsmFault {
    /// A line that classifies to no content.
    Classify(LineFault, int),
    /// A label declared twice.
    LabelMultiple(int),
    /// A failed section check after the walk (data-only, or no section).
    SectionCheck(LineError),
    /// A data literal inside the code range, or an instruction inside the
    /// data range.
    Mismatch(int),
    /// An encoder argument fault.
    Encode(EncFault, int),
    /// A mnemonic outside the mnemonic table.
    UnknownMnemonic(Seq<char>, int),
}

/// An executable assembly error denotes a ghost fault.
pub open spec fn asm_err_matches(e: LineError, f: AsmFault) -> bool {
    match f {
        AsmFault::Classify(lf, ln) => fault_matches(e, lf, ln),
        AsmFault::LabelMultiple(ln) => match e {
            LineError::LabelMultiple(n) => n == ln,
            _ => false,
        },
        AsmFault::SectionCheck(le) => e == le,
        AsmFault::Mismatch(ln) => match e {
            LineError::SectionMismatch(n) => n == ln,
            _ => false,
        },
        AsmFault::Encode(ef, ln) => enc_fault_matches(e, ef, ln),
        AsmFault::UnknownMnemonic(t, ln) => match e {
            LineError::Unrecognized(s, n) => s@ == t && n == ln,
            _ => false,
        },
    }
}

// ------------------------- first pass -------------------------

/// The running state of the first pass.
#[verifier::ext_equal]
pub struct FpState {
    pub labels: Seq<(Seq<char>, u16)>,
    pub addr: u16,
    pub code: (Option<int>, Option<int>),
    pub data: (Option<int>, Option<int>),
}

/// An address advanced by a word count, modulo the 16-bit address space.
pub open spec fn addr_add(a: u16, k: int) -> u16
    recommends
        k >= 0,
{
    ((a + k) % 0x10000) as u16
}

/// One first-pass step: a label binds the current address, a section
/// declaration updates the ranges, a data literal advances the address by
/// its word count, an instruction by one.
pub open spec fn fp_step(st: FpState, line: Seq<char>, idx: int) -> Result<FpState, AsmFault> {
    match classify_line(line) {
        Err(f) => Err(AsmFault::Classify(f, idx)),
        Ok(k) => match k {
            LineKind::Blank => Ok(st),
            LineKind::LabelDecl(name) => if tbl_lookup(st.labels, name) is Some {
                Err(AsmFault::LabelMultiple(idx))
            } else {
                Ok(FpState { labels: st.labels.push((name, st.addr)), ..st })
            },
            LineKind::SectionDecl(s) => {
                let (cs, ds) = spec_update_sections(st.code, st.data, s, idx);
                Ok(FpState { code: cs, data: ds, ..st })
            },
            LineKind::DataWords(ws) => Ok(FpState { addr: addr_add(st.addr, ws.len() as int), ..st }),
            LineKind::Instr(m, args) => Ok(FpState { addr: addr_add(st.addr, 1), ..st }),
        },
    }
}

/// The first pass over the first `n` lines.
pub open spec fn fp_run(lines: Seq<Seq<char>>, n: int) -> Result<FpState, AsmFault>
    decreases n,
{
    if n <= 0 {
        Ok(
            FpState {
                labels: Seq::empty(),
                addr: 0,
                code: (None, None),
                data: (None, None),
            },
        )
    } else {
        match fp_run(lines, n - 1) {
            Err(f) => Err(f),
            Ok(st) => fp_step(st, lines[n - 1], n - 1),
        }
    }
}

/// The whole first pass: the walk over all lines, then the section check
/// that closes the still-open section at the line count.
pub open spec fn spec_parse_symbols(lines: Seq<Seq<char>>) -> Result<SymModel, AsmFault> {
    match fp_run(lines, lines.len() as int) {
        Err(f) => Err(f),
        Ok(st) => match spec_close_sections(st.code, st.data, lines.len() as int) {
            Err(e) => Err(AsmFault::SectionCheck(e)),
            Ok((cs, ds)) => Ok(SymModel { labels: st.labels, code: cs, data: ds }),
        },
    }
}

proof fn lemma_fp_error_stable(lines: Seq<Seq<char>>, k1: int, k2: int)
    requires
        0 <= k1 <= k2,
        fp_run(lines, k1) is Err,
    ensures
        fp_run(lines, k2) == fp_run(lines, k1),
    decreases k2 - k1,
{
    if k1 < k2 {
        lemma_fp_error_stable(lines, k1, k2 - 1);
    }
}

proof fn lemma_sp_error_stable(lines: Seq<Seq<char>>, sm: SymModel, k1: int, k2: int)
    requires
        0 <= k1 <= k2,
        sp_run(lines, sm, k1) is Err,
    ensures
        sp_run(lines, sm, k2) == sp_run(lines, sm, k1),
    decreases k2 - k1,
{
    if k1 < k2 {
        lemma_sp_error_stable(lines, sm, k1, k2 - 1);
    }
}

proof fn lemma_words_bytes_len(ws: Seq<u16>)
    ensures
        words_bytes(ws).len() == 2 * ws.len(),
    decreases ws.len(),
{
    if ws.len() > 0 {
        lemma_words_bytes_len(ws.drop_last());
    }
}

/// The first pass: collects labels with their addresses and the section
/// line ranges, stopping at the first fault.
pub fn parse_symbols(lines: &Vec<String>) -> (r: Result<Symbols, LineError>)
    ensures
        match spec_parse_symbols(lines.deep_view()) {
            Ok(sm) => r is Ok && smodel(r->Ok_0) =~= sm,
            Err(f) => r is Err && asm_err_matches(r->Err_0, f),
        },
{
    let ghost lv = lines.deep_view();
    let mut symbols = Symbols::new();
    let mut address: u16 = 0;
    let mut line_idx: usize = 0;
    let n = lines.len();
    while line_idx < n
        invariant
            0 <= line_idx <= n,
            n == lv.len(),
            lv =~= lines.deep_view(),
            fp_run(lv, line_idx as int) == Ok::<FpState, AsmFault>(
                FpState {
                    labels: smodel(symbols).labels,
                    addr: address,
                    code: smodel(symbols).code,
                    data: smodel(symbols).data,
                },
            ),
        decreases n - line_idx,
    {
        proof {
            assert(lv[line_idx as int] == lines@[line_idx as int]@);
        }
        match parse_line(&lines[line_idx], line_idx) {
            Err(e) => {
                proof {
                    lemma_fp_error_stable(lv, line_idx + 1, n as int);
                }
                return Err(e);
            },
            Ok(content) => match content {
                LineContent::Label(k) => {
                    let dup = symbols.insert_label(k, address);
                    if dup {
                        proof {
                            lemma_fp_error_stable(lv, line_idx + 1, n as int);
                        }
                        return Err(LineError::LabelMultiple(line_idx));
                    }
                },
                LineContent::Section(s) => {
                    symbols.update_sections(s, line_idx);
                },
                LineContent::Data(d) => {
                    let w = d.len() / 2;
                    proof {
                        let ws = classify_line(lv[line_idx as int])->Ok_0->DataWords_0;
                        lemma_words_bytes_len(ws);
                        assert(w == ws.len());
                    }
                    address = (((address as usize) + w) % 65536) as u16;
                },
                LineContent::Instruction(m, args) => {
                    if address == 0xFFFF {
                        address = 0;
                    } else {
                        address = address + 1;
                    }
                },
                LineContent::NonRelevant => {},
            },
        }
        line_idx = line_idx + 1;
    }
    match symbols.check_sections_valid(line_idx) {
        Err(e) => Err(e),
        Ok(_) => Ok(symbols),
    }
}

// ------------------------- second pass -------------------------

/// A line index lies strictly inside a section's range: the boundary
/// lines, which hold the `.section` declarations, are skipped.
pub open spec fn in_section(sec: (Option<int>, Option<int>), i: int) -> bool {
    match spec_range(sec) {
        Some((s, e)) => s < i && i < e,
        None => false,
    }
}

/// The bytes one line contributes to the output: inside the code range an
/// instruction's 2-byte word (a data literal there is a fault), inside the
/// data range a literal's byte stream (an instruction there is a fault),
/// nothing anywhere else.
pub open spec fn sp_line(line: Seq<char>, idx: int, sm: SymModel) -> Result<Seq<u8>, AsmFault> {
    if in_section(sm.code, idx) {
        match classify_line(line) {
            Err(f) => Err(AsmFault::Classify(f, idx)),
            Ok(k) => match k {
                LineKind::Instr(m, args) => match spec_encode_mnemonic(
                    m,
                    spec_trim_comments(args),
                    sm.labels,
                ) {
                    None => Err(AsmFault::UnknownMnemonic(m, idx)),
                    Some(Err(ef)) => Err(AsmFault::Encode(ef, idx)),
                    Some(Ok(w)) => Ok(seq![word_bytes(w).0, word_bytes(w).1]),
                },
                LineKind::DataWords(ws) => Err(AsmFault::Mismatch(idx)),
                _ => Ok(Seq::empty()),
            },
        }
    } else if in_section(sm.data, idx) {
        match classify_line(line) {
            Err(f) => Err(AsmFault::Classify(f, idx)),
            Ok(k) => match k {
                LineKind::DataWords(ws) => Ok(words_bytes(ws)),
                LineKind::Instr(m, args) => Err(AsmFault::Mismatch(idx)),
                _ => Ok(Seq::empty()),
            },
        }
    } else {
        Ok(Seq::empty())
    }
}

/// The second pass over the first `n` lines: the concatenation of every
/// line's bytes, stopping at the first fault.
pub open spec fn sp_run(lines: Seq<Seq<char>>, sm: SymModel, n: int) -> Result<Seq<u8>, AsmFault>
    decreases n,
{
    if n <= 0 {
        Ok(Seq::empty())
    } else {
        match sp_run(lines, sm, n - 1) {
            Err(f) => Err(f),
            Ok(bs) => match sp_line(lines[n - 1], n - 1, sm) {
                Err(f) => Err(f),
                Ok(b2) => Ok(bs + b2),
            },
        }
    }
}

/// The whole second pass.
pub open spec fn spec_assemble(lines: Seq<Seq<char>>, sm: SymModel) -> Result<Seq<u8>, AsmFault> {
    sp_run(lines, sm, lines.len() as int)
}

/// The second pass: walks the section ranges and renders the program as
/// its big-endian byte stream, stopping at the first fault.
pub fn assemble_program(lines: &Vec<String>, syms: &Symbols) -> (r: Result<Vec<u8>, LineError>)
    ensures
        match spec_assemble(lines.deep_view(), smodel(*syms)) {
            Ok(bs) => r is Ok && r->Ok_0@ =~= bs,
            Err(f) => r is Err && asm_err_matches(r->Err_0, f),
        },
{
    let ghost lv = lines.deep_view();
    let ghost sm = smodel(*syms);
    let mut out: Vec<u8> = Vec::new();
    let n = lines.len();
    let mut idx: usize = 0;
    while idx < n
        invariant
            0 <= idx <= n,
            n == lv.len(),
            lv =~= lines.deep_view(),
            sm == smodel(*syms),
            sp_run(lv, sm, idx as int) == Ok::<Seq<u8>, AsmFault>(out@),
        decreases n - idx,
    {
        proof {
            assert(lv[idx as int] == lines@[idx as int]@);
        }
        let ghost prev = out@;
        let in_code = match syms.code_range() {
            Some((s, e)) => s < idx && idx < e,
            None => false,
        };
        let in_data = match syms.data_range() {
            Some((s, e)) => s < idx && idx < e,
            None => false,
        };
        if in_code {
            match parse_line(&lines[idx], idx) {
                Err(e) => {
                    proof {
                        lemma_sp_error_stable(lv, sm, idx + 1, n as int);
                    }
                    return Err(e);
                },
                Ok(content) => match content {
                    LineContent::Instruction(m, args) => {
                        let cleaned = trim_comments(args);
                        match encode_instruction(&m, cleaned, syms, idx) {
                            Err(e) => {
                                proof {
                                    lemma_sp_error_stable(lv, sm, idx + 1, n as int);
                                }
                                return Err(e);
                            },
                            Ok(bytes) => {
                                out.push(bytes[0]);
                                out.push(bytes[1]);
                            },
                        }
                    },
                    LineContent::Data(_) => {
                        proof {
                            lemma_sp_error_stable(lv, sm, idx + 1, n as int);
                        }
                        return Err(LineError::SectionMismatch(idx));
                    },
                    _ => {},
                },
            }
        } else if in_data {
            match parse_line(&lines[idx], idx) {
                Err(e) => {
                    proof {
                        lemma_sp_error_stable(lv, sm, idx + 1, n as int);
                    }
                    return Err(e);
                },
                Ok(content) => match content {
                    LineContent::Data(d) => {
                        out.extend_from_slice(d.as_slice());
                    },
                    LineContent::Instruction(m, args) => {
                        proof {
                            lemma_sp_error_stable(lv, sm, idx + 1, n as int);
                        }
                        return Err(LineError::SectionMismatch(idx));
                    },
                    _ => {},
                },
            }
        }
        proof {
            assert(in_code == in_section(sm.code, idx as int));
            assert(in_data == in_section(sm.data, idx as int));
            let step = sp_line(lv[idx as int], idx as int, sm);
            assert(step is Ok);
            assert(out@ =~= prev + step->Ok_0);
        }
        idx = idx + 1;
    }
    Ok(out)
}

// ------------------------- laws -------------------------

/// Running the first pass twice on the same source yields equal symbol
/// tables and equal section ranges: the pass is a pure function of the
/// lines, so any two results of it coincide.
pub proof fn lemma_first_pass_deterministic(lines: Seq<Seq<char>>, a: SymModel, b: SymModel)
    requires
        spec_parse_symbols(lines) == Ok::<SymModel, AsmFault>(a),
        spec_parse_symbols(lines) == Ok::<SymModel, AsmFault>(b),
    ensures
        a == b,
{
}

/// Any two byte streams assembled from the same source with the same
/// symbol table are equal byte for byte: the second pass is a pure
/// function of the lines and the table, so a conforming run reproduces
/// the reference binary exactly.
pub proof fn lemma_assembly_deterministic(
    lines: Seq<Seq<char>>,
    sm: SymModel,
    a: Seq<u8>,
    b: Seq<u8>,
)
    requires
        spec_assemble(lines, sm) == Ok::<Seq<u8>, AsmFault>(a),
        spec_assemble(lines, sm) == Ok::<Seq<u8>, AsmFault>(b),
    ensures
        a =~= b,
{
}

/// How many of the first `n` lines are instructions inside the code
/// range.
pub open spec fn instr_count(lines: Seq<Seq<char>>, sm: SymModel, n: int) -> int
    decreases n,
{
    if n <= 0 {
        0
    } else {
        instr_count(lines, sm, n - 1) + if in_section(sm.code, n - 1) && (classify_line(
            lines[n - 1],
        ) matches Ok(LineKind::Instr(m, args))) {
            1int
        } else {
            0int
        }
    }
}

/// How many data bytes the first `n` lines emit from the data range.
pub open spec fn data_byte_count(lines: Seq<Seq<char>>, sm: SymModel, n: int) -> int
    decreases n,
{
    if n <= 0 {
        0
    } else {
        data_byte_count(lines, sm, n - 1) + if in_section(sm.data, n - 1) && (classify_line(
            lines[n - 1],
        ) matches Ok(LineKind::DataWords(ws))) {
            2 * classify_line(lines[n - 1])->Ok_0->DataWords_0.len() as int
        } else {
            0int
        }
    }
}

proof fn lemma_output_length_upto(lines: Seq<Seq<char>>, sm: SymModel, n: int)
    requires
        0 <= n <= lines.len(),
        sp_run(lines, sm, n) is Ok,
    ensures
        sp_run(lines, sm, n)->Ok_0.len() == 2 * instr_count(lines, sm, n) + data_byte_count(
            lines,
            sm,
            n,
        ),
    decreases n,
{
    if n > 0 {
        lemma_output_length_upto(lines, sm, n - 1);
        let line = lines[n - 1];
        if in_section(sm.data, n - 1) && (classify_line(line) matches Ok(LineKind::DataWords(ws))) {
            lemma_words_bytes_len(classify_line(line)->Ok_0->DataWords_0);
        }
    }
}

/// For every source that assembles successfully, the output's byte length
/// equals twice the number of instruction lines in the code section plus
/// the number of data bytes emitted from the data section.
pub proof fn lemma_output_length(lines: Seq<Seq<char>>, sm: SymModel)
    requires
        spec_assemble(lines, sm) is Ok,
    ensures
        spec_assemble(lines, sm)->Ok_0.len() == 2 * instr_count(lines, sm, lines.len() as int)
            + data_byte_count(lines, sm, lines.len() as int),
{
    lemma_output_length_upto(lines, sm, lines.len() as int);
}

/// How many of the first `n` lines are instructions, in any section.
pub open spec fn plain_instr_count(lines: Seq<Seq<char>>, n: int) -> int
    decreases n,
{
    if n <= 0 {
        0
    } else {
        plain_instr_count(lines, n - 1) + if classify_line(lines[n - 1]) matches Ok(
            LineKind::Instr(m, args),
        ) {
            1int
        } else {
            0int
        }
    }
}

/// The words one line adds to the address counter: one for an
/// instruction, a data literal's word count, nothing for the rest.
pub open spec fn line_weight(line: Seq<char>) -> int {
    match classify_line(line) {
        Ok(LineKind::Instr(m, args)) => 1,
        Ok(LineKind::DataWords(ws)) => ws.len() as int,
        _ => 0,
    }
}

/// The address the first `n` lines reach: the sum of their weights.
pub open spec fn addr_weight(lines: Seq<Seq<char>>, n: int) -> int
    decreases n,
{
    if n <= 0 {
        0
    } else {
        addr_weight(lines, n - 1) + line_weight(lines[n - 1])
    }
}

proof fn lemma_addr_is_weight(lines: Seq<Seq<char>>, n: int)
    requires
        0 <= n <= lines.len(),
        fp_run(lines, n) is Ok,
    ensures
        addr_weight(lines, n) >= 0,
        fp_run(lines, n)->Ok_0.addr == (addr_weight(lines, n) % 0x10000) as u16,
    decreases n,
{
    if n > 0 {
        lemma_addr_is_weight(lines, n - 1);
        let a = fp_run(lines, n - 1)->Ok_0.addr;
        let c = addr_weight(lines, n - 1);
        let k = line_weight(lines[n - 1]);
        assert(((a + k) % 0x10000) as u16 == ((c + k) % 0x10000) as u16) by {
            vstd::arithmetic::div_mod::lemma_add_mod_noop(c, k, 0x10000);
            vstd::arithmetic::div_mod::lemma_add_mod_noop(c % 0x10000, k, 0x10000);
            vstd::arithmetic::div_mod::lemma_small_mod((c % 0x10000) as nat, 0x10000nat);
        }
    }
}

proof fn lemma_weight_counts_instructions(lines: Seq<Seq<char>>, n: int)
    requires
        0 <= n,
        forall|j: int|
            0 <= j < n ==> !(#[trigger] classify_line(lines[j]) matches Ok(
                LineKind::DataWords(ws),
            )),
    ensures
        addr_weight(lines, n) == plain_instr_count(lines, n),
    decreases n,
{
    if n > 0 {
        lemma_weight_counts_instructions(lines, n - 1);
    }
}

proof fn lemma_tbl_lookup_push(t: Seq<(Seq<char>, u16)>, k: Seq<char>, v: u16)
    requires
        tbl_lookup(t, k) is None,
    ensures
        tbl_lookup(t.push((k, v)), k) == Some(v),
    decreases t.len(),
{
    if t.len() == 0 {
        assert(t.push((k, v))[0] == (k, v));
    } else {
        assert(t.push((k, v)).drop_first() =~= t.drop_first().push((k, v)));
        lemma_tbl_lookup_push(t.drop_first(), k, v);
    }
}

/// For every label declaration the first pass accepts, the symbol table
/// binds the name to the address the preceding lines reach: one word per
/// preceding instruction line plus each preceding data literal's word
/// count, reduced modulo the 16-bit address space.
pub proof fn lemma_label_address(lines: Seq<Seq<char>>, i: int)
    requires
        0 <= i < lines.len(),
        fp_run(lines, i + 1) is Ok,
        classify_line(lines[i]) matches Ok(LineKind::LabelDecl(name)),
    ensures
        tbl_lookup(
            fp_run(lines, i + 1)->Ok_0.labels,
            classify_line(lines[i])->Ok_0->LabelDecl_0,
        ) == Some((addr_weight(lines, i) % 0x10000) as u16),
{
    lemma_addr_is_weight(lines, i);
    let st = fp_run(lines, i)->Ok_0;
    let name = classify_line(lines[i])->Ok_0->LabelDecl_0;
    lemma_tbl_lookup_push(st.labels, name, st.addr);
}

/// For a label declaration that no data literal precedes, the bound
/// address is exactly the count of the instruction lines before it
/// (reduced modulo the 16-bit address space).
pub proof fn lemma_label_address_counts_instructions(lines: Seq<Seq<char>>, i: int)
    requires
        0 <= i < lines.len(),
        fp_run(lines, i + 1) is Ok,
        classify_line(lines[i]) matches Ok(LineKind::LabelDecl(name)),
        forall|j: int|
            0 <= j < i ==> !(#[trigger] classify_line(lines[j]) matches Ok(
                LineKind::DataWords(ws),
            )),
    ensures
        tbl_lookup(
            fp_run(lines, i + 1)->Ok_0.labels,
            classify_line(lines[i])->Ok_0->LabelDecl_0,
        ) == Some((plain_instr_count(lines, i) % 0x10000) as u16),
{
    lemma_label_address(lines, i);
    lemma_weight_counts_instructions(lines, i);
}

/// Every instruction word the second pass emits is decodable: for a line
/// inside the code range whose bytes the pass accepts, the emitted
/// big-endian word carries, in its top five bits, exactly the opcode the
/// mnemonic table declares for the line's variant, and that code denotes
/// one of the 29 opcodes. The symbol table is assumed to hold 11-bit
/// addresses, as the data model requires.
pub proof fn lemma_emitted_word_decodable(lines: Seq<Seq<char>>, sm: SymModel, i: int)
    requires
        forall|j: int| 0 <= j < sm.labels.len() ==> (#[trigger] sm.labels[j].1) < 2048,
        0 <= i < lines.len(),
        in_section(sm.code, i),
        classify_line(lines[i]) matches Ok(LineKind::Instr(m, args)),
        sp_line(lines[i], i, sm) is Ok,
    ensures
        ({
            let b = sp_line(lines[i], i, sm)->Ok_0;
            let m = classify_line(lines[i])->Ok_0->Instr_0;
            let args = classify_line(lines[i])->Ok_0->Instr_1;
            let w = ((b[0] as u16) << 8) | (b[1] as u16);
            &&& b.len() == 2
            &&& word_op(w) == declared_opcode(m, spec_trim_comments(args))->Some_0
            &&& word_op(w) <= 0x1C
            &&& spec_opcode_from_u8(word_op(w) as u8) is Some
        }),
{
    let m = classify_line(lines[i])->Ok_0->Instr_0;
    let args = classify_line(lines[i])->Ok_0->Instr_1;
    let cleaned = spec_trim_comments(args);
    lemma_encoded_opcode_decodable(m, cleaned, sm.labels);
    let w0 = spec_encode_mnemonic(m, cleaned, sm.labels)->Some_0->Ok_0;
    crate::isa::lemma_word_bytes(w0);
}

} // verus!
