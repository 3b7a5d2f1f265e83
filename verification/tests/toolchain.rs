use isa16::assembler::{assemble_program, parse_symbols};
use isa16::encoder::{check_args_len, get_valid_imm, get_valid_reg, mov};
use isa16::errors::LineError;
use isa16::lexer::{parse_i16_tok, parse_line, to_lower, trim_comments, trim_str, LineContent};
use isa16::symbols::Symbols;

fn lines(src: &str) -> Vec<String> {
    src.split('\n').map(|s| s.to_string()).collect()
}

fn assemble(src: &str) -> Result<Vec<u8>, LineError> {
    let ls = lines(src);
    let syms = parse_symbols(&ls)?;
    assemble_program(&ls, &syms)
}

#[test]
fn mov_immediate_bytes() {
    let out = assemble(".section code\nmov r0 #5").unwrap();
    assert_eq!(out, vec![0x00, 0x05]);
}

#[test]
fn mov_register_bytes() {
    // Opcode 1 at bit 11 and rd = 1 at bit 8 give 0x0900.
    let out = assemble(".section code\nmov r1 r0").unwrap();
    assert_eq!(out, vec![0x09, 0x00]);
}

#[test]
fn add_register_bytes() {
    // Opcode 9, rd = 2 at bit 8, rA = 0 at bit 5, rB = 1 at bit 2.
    let out = assemble(".section code\nadd r2 r0 r1").unwrap();
    assert_eq!(out, vec![0x4A, 0x04]);
}

#[test]
fn halt_bytes() {
    let out = assemble(".section code\nhalt").unwrap();
    assert_eq!(out, vec![0xE0, 0x00]);
}

#[test]
fn loop_program_bytes_and_symbols() {
    let src = ".section code\nstart:\nmov r0 #0\njmp start\nhalt";
    let ls = lines(src);
    let syms = parse_symbols(&ls).unwrap();
    assert_eq!(syms.labels, vec![("start".to_string(), 0u16)]);
    let out = assemble_program(&ls, &syms).unwrap();
    assert_eq!(out, vec![0x00, 0x00, 0x88, 0x00, 0xE0, 0x00]);
}

#[test]
fn data_array_bytes() {
    // The data line alone already emits one big-endian word per number.
    match parse_line(&"1, 2, 3".to_string(), 0).unwrap() {
        LineContent::Data(d) => assert_eq!(d, vec![0x00, 0x01, 0x00, 0x02, 0x00, 0x03]),
        _ => panic!("expected data"),
    }
    let out = assemble(".section code\nhalt\n.section data\narr:\n1, 2, 3").unwrap();
    assert_eq!(out, vec![0xE0, 0x00, 0x00, 0x01, 0x00, 0x02, 0x00, 0x03]);
}

#[test]
fn data_string_bytes() {
    let out = assemble(".section code\nhalt\n.section data\nmsg:\n\"hi\\n\"").unwrap();
    assert_eq!(
        out,
        vec![0xE0, 0x00, 0x00, 0x68, 0x00, 0x69, 0x00, 0x0A, 0x00, 0x00]
    );
}

#[test]
fn negative_data_value_bytes() {
    let out = assemble(".section code\nhalt\n.section data\nv:\n1, -2").unwrap();
    assert_eq!(out, vec![0xE0, 0x00, 0x00, 0x01, 0xFF, 0xFE]);
}

#[test]
fn label_with_whitespace_rejected() {
    let err = assemble(".section code\nmy label:\nhalt").unwrap_err();
    match err {
        LineError::LabelWhitespace(name, line) => {
            assert_eq!(name, "my label");
            assert_eq!(line, 1);
        }
        _ => panic!("expected LabelWhitespace"),
    }
}

#[test]
fn empty_source_rejected() {
    match assemble("") {
        Err(LineError::NoSectionDecl) => {}
        _ => panic!("expected NoSectionDecl"),
    }
}

#[test]
fn source_without_section_rejected() {
    match assemble("mov r0 #1\nhalt") {
        Err(LineError::NoSectionDecl) => {}
        _ => panic!("expected NoSectionDecl"),
    }
}

#[test]
fn data_only_source_rejected() {
    match assemble(".section data\n1, 2") {
        Err(LineError::OnlyDataSection) => {}
        _ => panic!("expected OnlyDataSection"),
    }
}

#[test]
fn unknown_register_rejected() {
    let err = assemble(".section code\nmov r0 r8").unwrap_err();
    match err {
        LineError::Unrecognized(tok, line) => {
            assert_eq!(tok, "r8");
            assert_eq!(line, 1);
        }
        _ => panic!("expected Unrecognized"),
    }
}

#[test]
fn immediate_without_hash_rejected() {
    let err = assemble(".section code\nadd r0 r1 42").unwrap_err();
    match err {
        LineError::Unrecognized(tok, line) => {
            assert_eq!(tok, "42");
            assert_eq!(line, 1);
        }
        _ => panic!("expected Unrecognized"),
    }
}

#[test]
fn first_pass_idempotent() {
    let src = ".section code\nstart:\nmov r0 #1\nloop:\nadd r0 r0 #1\njmp loop\nhalt\n.section data\narr:\n1, 2, 3";
    let ls = lines(src);
    let a = parse_symbols(&ls).unwrap();
    let b = parse_symbols(&ls).unwrap();
    assert_eq!(a, b);
}

#[test]
fn reassembly_is_byte_exact() {
    let src = ".section code\nstart:\nmov r0 #1\nadd r1 r0 r0\ncmp r1 #2\nbeq start\nhalt";
    let first = assemble(src).unwrap();
    let second = assemble(src).unwrap();
    assert_eq!(first, second);
}

#[test]
fn output_length_counts_instructions_and_data() {
    let src = ".section code\nstart:\nmov r0 #1\nadd r1 r0 r0\nhalt\n.section data\narr:\n1, 2, 3\nmsg:\n\"a\"";
    let out = assemble(src).unwrap();
    // 3 instructions and 3 + 2 data words.
    assert_eq!(out.len(), 2 * 3 + 2 * 3 + 2 * 2);
}

#[test]
fn label_addresses_count_preceding_instructions() {
    let src = ".section code\nstart:\nmov r0 #1\nmov r1 #2\nmid:\nadd r2 r0 r1\nend:\nhalt";
    let ls = lines(src);
    let syms = parse_symbols(&ls).unwrap();
    assert_eq!(
        syms.labels,
        vec![
            ("start".to_string(), 0u16),
            ("mid".to_string(), 2u16),
            ("end".to_string(), 3u16)
        ]
    );
}

#[test]
fn section_ranges_recorded() {
    let src = ".section code\nhalt\n.section data\n1";
    let ls = lines(src);
    let syms = parse_symbols(&ls).unwrap();
    assert_eq!(syms.code_range(), Some((0, 2)));
    assert_eq!(syms.data_range(), Some((2, 4)));
}

#[test]
fn wrong_section_rejected() {
    let err = assemble(".section bss\nhalt").unwrap_err();
    match err {
        LineError::WrongSection(text, line) => {
            assert_eq!(text, ".section bss");
            assert_eq!(line, 0);
        }
        _ => panic!("expected WrongSection"),
    }
}

#[test]
fn double_colon_label_rejected() {
    let err = assemble(".section code\na:b:\nhalt").unwrap_err();
    match err {
        LineError::LabelMoreColon(text, line) => {
            assert_eq!(text, "a:b:");
            assert_eq!(line, 1);
        }
        _ => panic!("expected LabelMoreColon"),
    }
}

#[test]
fn duplicate_label_rejected() {
    let err = assemble(".section code\nx:\nhalt\nx:\nhalt").unwrap_err();
    match err {
        LineError::LabelMultiple(line) => assert_eq!(line, 3),
        _ => panic!("expected LabelMultiple"),
    }
}

#[test]
fn data_inside_code_rejected() {
    let err = assemble(".section code\n1, 2\nhalt").unwrap_err();
    match err {
        LineError::SectionMismatch(line) => assert_eq!(line, 1),
        _ => panic!("expected SectionMismatch"),
    }
}

#[test]
fn instruction_inside_data_rejected() {
    let err = assemble(".section code\nhalt\n.section data\nmov r0 #1").unwrap_err();
    match err {
        LineError::SectionMismatch(line) => assert_eq!(line, 3),
        _ => panic!("expected SectionMismatch"),
    }
}

#[test]
fn unknown_mnemonic_rejected() {
    let err = assemble(".section code\nfoo r0").unwrap_err();
    match err {
        LineError::Unrecognized(tok, line) => {
            assert_eq!(tok, "foo");
            assert_eq!(line, 1);
        }
        _ => panic!("expected Unrecognized"),
    }
}

#[test]
fn wrong_argument_count_rejected() {
    let err = assemble(".section code\nmov r0").unwrap_err();
    match err {
        LineError::WrongArgs(op, line) => {
            assert_eq!(op, "mov");
            assert_eq!(line, 1);
        }
        _ => panic!("expected WrongArgs"),
    }
}

#[test]
fn shift_without_hash_rejected() {
    let err = assemble(".section code\nshl r0 r1 5").unwrap_err();
    match err {
        LineError::StartWithHash(line) => assert_eq!(line, 1),
        _ => panic!("expected StartWithHash"),
    }
}

#[test]
fn load_register_without_amp_rejected() {
    let err = assemble(".section code\nldr r0 r1").unwrap_err();
    match err {
        LineError::StartWithAmp(line) => assert_eq!(line, 1),
        _ => panic!("expected StartWithAmp"),
    }
}

#[test]
fn twin_mnemonics_add_one_to_opcode() {
    let push_out = assemble(".section code\npush r1 r2").unwrap();
    let pop_out = assemble(".section code\npop r1 r2").unwrap();
    assert_eq!(push_out[0] | 0x08, pop_out[0]);
    assert_eq!(push_out[1], pop_out[1]);
    assert_eq!(push_out[0] >> 3, 0x06);
    assert_eq!(pop_out[0] >> 3, 0x07);

    let shl_out = assemble(".section code\nshl r0 r1 #2").unwrap();
    let shr_out = assemble(".section code\nshr r0 r1 #2").unwrap();
    assert_eq!(shl_out[0] | 0x08, shr_out[0]);

    let and_out = assemble(".section code\nand r0 r1 r2").unwrap();
    let or_out = assemble(".section code\nor r0 r1 r2").unwrap();
    assert_eq!(and_out[0] | 0x08, or_out[0]);
}

#[test]
fn comments_and_case_are_tolerated() {
    let src = "// leading comment\n.section code\nMOV r0 #5 // trailing words\n\nhalt";
    let out = assemble(src).unwrap();
    assert_eq!(out, vec![0x00, 0x05, 0xE0, 0x00]);
}

#[test]
fn memory_instructions_encode_offsets() {
    let out = assemble(".section code\nlbl:\nldr r1 &r2 #3\nstrr r1 &r2\nlda lbl\nstra lbl")
        .unwrap();
    // ldr: op 3, rd 1, radr 2, offset 3.
    assert_eq!(&out[0..2], &[0x19, 0x43]);
    // strr: op 5, rd 1, radr 2, offset 0.
    assert_eq!(&out[2..4], &[0x29, 0x40]);
    // lda/stra aim at address 0.
    assert_eq!(&out[4..6], &[0x10, 0x00]);
    assert_eq!(&out[6..8], &[0x20, 0x00]);
}

#[test]
fn negative_immediate_wraps_to_byte() {
    let out = assemble(".section code\nmov r0 #-1").unwrap();
    assert_eq!(out, vec![0x00, 0xFF]);
}

#[test]
fn encoder_helpers_validate_tokens() {
    assert_eq!(get_valid_reg("sp", 0).unwrap(), 5);
    assert_eq!(get_valid_reg("mbr", 0).unwrap(), 7);
    assert!(matches!(
        get_valid_reg("r9", 7),
        Err(LineError::Unrecognized(_, 7))
    ));
    assert_eq!(get_valid_imm("#-128", 0).unwrap(), 0x80);
    assert!(matches!(
        get_valid_imm("#128", 3),
        Err(LineError::Unrecognized(_, 3))
    ));
    assert!(matches!(
        get_valid_imm("12", 4),
        Err(LineError::StartWithHash(4))
    ));
    assert!(check_args_len(true, "mov", 0).is_ok());
    assert!(matches!(
        check_args_len(false, "mov", 9),
        Err(LineError::WrongArgs(_, 9))
    ));
}

#[test]
fn mov_encoder_called_directly() {
    let syms = Symbols::new();
    let bytes = mov(vec!["r3".to_string(), "#16".to_string()], &syms, 0).unwrap();
    assert_eq!(bytes, [0x03, 0x10]);
}

#[test]
fn lexer_helpers_behave() {
    assert_eq!(trim_str("  a b\t"), "a b");
    assert_eq!(to_lower("MoV"), "mov");
    assert_eq!(parse_i16_tok("-32768"), Some(-32768));
    assert_eq!(parse_i16_tok("32768"), None);
    assert_eq!(parse_i16_tok("+7"), Some(7));
    assert_eq!(parse_i16_tok(""), None);
    assert_eq!(parse_i16_tok("1x"), None);
    let toks = trim_comments(vec![
        "r0".to_string(),
        " ".to_string(),
        "//".to_string(),
        "rest".to_string(),
    ]);
    assert_eq!(toks, vec!["r0".to_string()]);
}

#[test]
fn label_name_is_the_line_without_its_last_character() {
    // A colon anywhere makes a label line; the name drops only the final
    // character.
    match parse_line(&"foo:bar".to_string(), 0).unwrap() {
        LineContent::Label(name) => assert_eq!(name, "foo:ba"),
        _ => panic!("expected label"),
    }
}

#[test]
fn empty_string_literal_emits_only_the_nul_word() {
    match parse_line(&"\"\"".to_string(), 0).unwrap() {
        LineContent::Data(d) => assert_eq!(d, vec![0x00, 0x00]),
        _ => panic!("expected data"),
    }
}

#[test]
fn register_aliases_name_their_slots() {
    let out = assemble(".section code\nmov fp r0\nmov lr sp\nmov mbr r1").unwrap();
    // rd = 4, 6, 7; rs = 0, 5, 1.
    assert_eq!(out, vec![0x0C, 0x00, 0x0E, 0xA0, 0x0F, 0x20]);
}

#[test]
fn store_offset_without_hash_rejected() {
    let err = assemble(".section code\nstrr r1 &r2 42").unwrap_err();
    match err {
        LineError::StartWithHash(line) => assert_eq!(line, 1),
        _ => panic!("expected StartWithHash"),
    }
    let err = assemble(".section code\nldr r1 &r2 42").unwrap_err();
    match err {
        LineError::StartWithHash(line) => assert_eq!(line, 1),
        _ => panic!("expected StartWithHash"),
    }
}

#[test]
fn data_labels_continue_the_address_count() {
    // Two instructions, then a two-word array, then a two-word string:
    // each data label binds the words reached before it.
    let src = ".section code\nmov r0 #1\nhalt\n.section data\na:\n1, 2\nb:\n\"x\"";
    let ls = lines(src);
    let syms = parse_symbols(&ls).unwrap();
    assert_eq!(
        syms.labels,
        vec![("a".to_string(), 2u16), ("b".to_string(), 4u16)]
    );
}
