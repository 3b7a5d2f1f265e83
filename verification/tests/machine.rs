use isa16::assembler::{assemble_program, parse_symbols};
use isa16::cpu::{decode, execute, fetch, load_program, step};
use isa16::isa::{from_bits, to_bits};
use isa16::errors::EmuError;
use isa16::isa::{extract_bits, opcode_from_u8, opcode_to_u8, Opcode};
use isa16::registers::{Flags, Registers};

fn boot(src: &str) -> (Registers, Vec<u16>) {
    let ls: Vec<String> = src.split('\n').map(|s| s.to_string()).collect();
    let syms = parse_symbols(&ls).unwrap();
    let bytes = assemble_program(&ls, &syms).unwrap();
    (Registers::new(), load_program(&bytes))
}

fn run_one(word: u16, regs: &mut Registers, mem: &mut Vec<u16>) {
    regs.ir = word;
    let op = decode(word);
    execute(op, regs, mem).unwrap();
}

#[test]
fn registers_start_zeroed() {
    let regs = Registers::new();
    assert_eq!(regs.gp, [0i16; 8]);
    assert_eq!(regs.pc, 0);
    assert_eq!(regs.ir, 0);
    assert_eq!(regs.flags, 0);
}

#[test]
fn flags_change_and_read() {
    let mut regs = Registers::new();
    regs.change_flags(vec![(Flags::OV, true), (Flags::ZR, true)]);
    assert!(regs.read_flag(Flags::OV));
    assert!(regs.read_flag(Flags::ZR));
    assert!(!regs.read_flag(Flags::CA));
    assert!(!regs.read_flag(Flags::NG));
    regs.change_flags(vec![(Flags::OV, false), (Flags::NG, true)]);
    assert!(!regs.read_flag(Flags::OV));
    assert!(regs.read_flag(Flags::ZR));
    assert!(regs.read_flag(Flags::NG));
}

#[test]
fn extract_bits_reads_fields() {
    // size = 3, right_offset = 5 on 0110 1[011] 1000 0110 yields 3.
    assert_eq!(extract_bits(0b0110_1011_1000_0110, 3, 5), 0b011);
    let w: u16 = 0x0900; // mov r1 r0
    assert_eq!(extract_bits(w, 5, 0), 0x01);
    assert_eq!(extract_bits(w, 3, 5), 1);
    assert_eq!(extract_bits(w, 3, 8), 0);
}

#[test]
fn opcode_codes_are_dense_and_bounded() {
    assert!(matches!(opcode_from_u8(0), Some(Opcode::MovIm)));
    assert!(matches!(opcode_from_u8(0x09), Some(Opcode::AddRg)));
    assert!(matches!(opcode_from_u8(0x1C), Some(Opcode::Halt)));
    for v in 0u8..=0x1C {
        let op = opcode_from_u8(v).unwrap();
        assert_eq!(opcode_to_u8(op), v);
    }
    for v in 0x1Du8..=0xFF {
        assert!(opcode_from_u8(v).is_none());
    }
}

#[test]
fn load_program_packs_words() {
    let mem = load_program(&vec![0x00, 0x05, 0xE0, 0x00]);
    assert_eq!(mem.len(), 350);
    assert_eq!(mem[0], 0x0005);
    assert_eq!(mem[1], 0xE000);
    assert_eq!(mem[2], 0);
    assert_eq!(mem[349], 0);
}

#[test]
fn fetch_and_decode_read_the_word() {
    let mem = load_program(&vec![0xE0, 0x00]);
    let w = fetch(0, &mem);
    assert_eq!(w, 0xE000);
    assert_eq!(decode(w), 0x1C);
}

#[test]
fn bit_pattern_reinterpretation_round_trips() {
    assert_eq!(from_bits(0xFFFF), -1);
    assert_eq!(to_bits(-1), 0xFFFF);
    assert_eq!(to_bits(from_bits(0x8000)), 0x8000);
    assert_eq!(from_bits(to_bits(-12345)), -12345);
}

#[test]
fn mov_add_halt_end_to_end() {
    let (mut regs, mut mem) = boot(".section code\nmov r0 #5\nmov r1 r0\nadd r2 r0 r1\nhalt");
    assert_eq!(step(&mut regs, &mut mem), Ok(false));
    assert_eq!(regs.gp[0], 5);
    assert_eq!(regs.flags, 0);
    assert_eq!(regs.pc, 1);
    assert_eq!(step(&mut regs, &mut mem), Ok(false));
    assert_eq!(regs.gp[1], 5);
    assert_eq!(step(&mut regs, &mut mem), Ok(false));
    assert_eq!(regs.gp[2], 10);
    assert!(!regs.read_flag(Flags::ZR));
    assert!(!regs.read_flag(Flags::NG));
    assert!(!regs.read_flag(Flags::OV));
    assert!(!regs.read_flag(Flags::CA));
    assert_eq!(step(&mut regs, &mut mem), Ok(true));
}

#[test]
fn mov_immediate_zero_extends() {
    let (mut regs, mut mem) = boot(".section code\nmov r0 #-1\nhalt");
    step(&mut regs, &mut mem).unwrap();
    // The 8-bit pattern 0xFF lands zero-extended in the register.
    assert_eq!(regs.gp[0], 255);
}

#[test]
fn loop_program_never_halts() {
    let (mut regs, mut mem) = boot(".section code\nstart:\nmov r0 #0\njmp start\nhalt");
    for _ in 0..100 {
        assert_eq!(step(&mut regs, &mut mem), Ok(false));
    }
    assert!(regs.pc <= 1);
}

#[test]
fn add_overflow_sets_flags_and_keeps_destination() {
    let mut regs = Registers::new();
    let mut mem = load_program(&Vec::new());
    regs.gp[0] = 32767;
    regs.gp[1] = 1;
    regs.gp[2] = -7;
    // add r2 r0 r1
    run_one(0x4A04, &mut regs, &mut mem);
    assert_eq!(regs.gp[2], -7);
    assert!(regs.read_flag(Flags::OV));
    assert!(regs.read_flag(Flags::CA));
}

#[test]
fn compare_sets_condition_flags() {
    let mut regs = Registers::new();
    let mut mem = load_program(&Vec::new());
    regs.gp[0] = 5;
    regs.gp[1] = 5;
    // cmp r0 r1: op 0x15, rA at bit 8, rB at bit 5.
    run_one(0xA820, &mut regs, &mut mem);
    assert!(regs.read_flag(Flags::ZR));
    assert!(regs.read_flag(Flags::CA));
    assert!(!regs.read_flag(Flags::NG));
    assert!(!regs.read_flag(Flags::OV));
    regs.gp[0] = 3;
    run_one(0xA820, &mut regs, &mut mem);
    assert!(!regs.read_flag(Flags::ZR));
    assert!(!regs.read_flag(Flags::CA));
    assert!(regs.read_flag(Flags::NG));
}

#[test]
fn shifts_are_logical() {
    let mut regs = Registers::new();
    let mut mem = load_program(&Vec::new());
    regs.gp[1] = 3;
    // shl r0 r1 #2: op 0x0C, rd 0, rs 1, imm 2 at bit 1.
    run_one(0x6024, &mut regs, &mut mem);
    assert_eq!(regs.gp[0], 12);
    regs.gp[1] = -2;
    // shr r0 r1 #1: vacated sign bits come in as zero.
    run_one(0x6822, &mut regs, &mut mem);
    assert_eq!(regs.gp[0], 32767);
    assert!(!regs.read_flag(Flags::NG));
}

#[test]
fn bitwise_instructions_update_result_flags() {
    let mut regs = Registers::new();
    let mut mem = load_program(&Vec::new());
    regs.gp[1] = 0b1100;
    regs.gp[2] = 0b0011;
    // and r0 r1 r2 -> 0, so the zero flag rises.
    run_one(0x7028, &mut regs, &mut mem);
    assert_eq!(regs.gp[0], 0);
    assert!(regs.read_flag(Flags::ZR));
    // or r0 r1 r2 -> 0b1111.
    run_one(0x7828, &mut regs, &mut mem);
    assert_eq!(regs.gp[0], 0b1111);
    assert!(!regs.read_flag(Flags::ZR));
    // not r0 r1 -> -13, so the negative flag rises.
    run_one(0x8020, &mut regs, &mut mem);
    assert_eq!(regs.gp[0], !0b1100);
    assert!(regs.read_flag(Flags::NG));
}

#[test]
fn push_then_pop_restores_values() {
    let mut regs = Registers::new();
    let mut mem = load_program(&Vec::new());
    regs.gp[0] = 7;
    regs.gp[1] = 9;
    regs.gp[5] = 340;
    // push r0 r1: slots r0, r1, count 2.
    run_one(0x3022, &mut regs, &mut mem);
    assert_eq!(regs.gp[5], 338);
    assert_eq!(mem[339], 7);
    assert_eq!(mem[338], 9);
    // pop r2 r3: r2 takes the top (9), then r3 takes 7.
    run_one(0x3A62, &mut regs, &mut mem);
    assert_eq!(regs.gp[2], 9);
    assert_eq!(regs.gp[3], 7);
    assert_eq!(regs.gp[5], 340);
}

#[test]
fn call_returns_past_the_call_site() {
    // bln sub; halt; sub: ret
    let mut regs = Registers::new();
    let mut mem = load_program(&Vec::new());
    mem[0] = 0x9002; // bln 2
    mem[1] = 0xE000; // halt
    mem[2] = 0x9800; // ret
    assert_eq!(step(&mut regs, &mut mem), Ok(false));
    assert_eq!(regs.gp[6], 1);
    assert_eq!(regs.pc, 2);
    assert_eq!(step(&mut regs, &mut mem), Ok(false));
    assert_eq!(regs.pc, 1);
    assert_eq!(step(&mut regs, &mut mem), Ok(true));
}

#[test]
fn branch_not_taken_advances_normally() {
    let mut regs = Registers::new();
    let mut mem = load_program(&Vec::new());
    mem[0] = 0xB005; // beq 5
    mem[1] = 0xE000; // halt
    assert_eq!(step(&mut regs, &mut mem), Ok(false));
    assert_eq!(regs.pc, 1);
    let mut regs2 = Registers::new();
    regs2.change_flags(vec![(Flags::ZR, true)]);
    assert_eq!(step(&mut regs2, &mut mem), Ok(false));
    assert_eq!(regs2.pc, 5);
}

#[test]
fn unsigned_branch_predicates_consult_carry() {
    let mut regs = Registers::new();
    let mut mem = load_program(&Vec::new());
    // bltu 4 is taken exactly when carry is clear.
    mem[0] = 0xD804; // bltu 4
    assert_eq!(step(&mut regs, &mut mem), Ok(false));
    assert_eq!(regs.pc, 4);
    let mut regs2 = Registers::new();
    regs2.change_flags(vec![(Flags::CA, true)]);
    assert_eq!(step(&mut regs2, &mut mem), Ok(false));
    assert_eq!(regs2.pc, 1);
}

#[test]
fn unknown_opcode_is_a_fault() {
    let mut regs = Registers::new();
    let mut mem = load_program(&Vec::new());
    mem[0] = 0xE800; // code 29 names no opcode
    assert_eq!(
        step(&mut regs, &mut mem),
        Err(EmuError::UnrecognizedOpcode(29))
    );
}

#[test]
fn memory_faults_are_reported_with_the_address() {
    let mut regs = Registers::new();
    let mut mem = load_program(&Vec::new());
    // lda 700 reaches past the 350-word image.
    mem[0] = 0x12BC;
    assert_eq!(
        step(&mut regs, &mut mem),
        Err(EmuError::OutOfBoundsMemory(700))
    );
    let mut regs2 = Registers::new();
    regs2.pc = 350;
    assert_eq!(
        step(&mut regs2, &mut mem),
        Err(EmuError::OutOfBoundsMemory(350))
    );
}

#[test]
fn store_and_load_round_trip_through_memory() {
    let mut regs = Registers::new();
    let mut mem = load_program(&Vec::new());
    regs.gp[7] = -3; // mbr
    // stra 20 writes mbr's bit pattern, lda 20 reads it back.
    run_one(0x2014, &mut regs, &mut mem);
    assert_eq!(mem[20], 0xFFFD);
    regs.gp[7] = 0;
    run_one(0x1014, &mut regs, &mut mem);
    assert_eq!(regs.gp[7], -3);
}

#[test]
fn add_and_sub_immediates_move_flags() {
    let mut regs = Registers::new();
    let mut mem = load_program(&Vec::new());
    regs.gp[1] = 7;
    // add r0 r1 #5: op 8, rd 0, rs 1, 5-bit constant 5.
    run_one(0x4025, &mut regs, &mut mem);
    assert_eq!(regs.gp[0], 12);
    assert!(!regs.read_flag(Flags::ZR));
    // sub r0 r1 #7: op 10, result 0 raises zero and carry.
    run_one(0x5027, &mut regs, &mut mem);
    assert_eq!(regs.gp[0], 0);
    assert!(regs.read_flag(Flags::ZR));
    assert!(regs.read_flag(Flags::CA));
    // sub r0 r1 #9: result -2 raises negative, drops carry.
    run_one(0x5029, &mut regs, &mut mem);
    assert_eq!(regs.gp[0], -2);
    assert!(regs.read_flag(Flags::NG));
    assert!(!regs.read_flag(Flags::CA));
}

#[test]
fn sub_register_variant_subtracts() {
    let mut regs = Registers::new();
    let mut mem = load_program(&Vec::new());
    regs.gp[1] = 3;
    regs.gp[2] = 10;
    // sub r0 r1 r2: op 11 -> -7.
    run_one(0x5828, &mut regs, &mut mem);
    assert_eq!(regs.gp[0], -7);
    assert!(regs.read_flag(Flags::NG));
}

#[test]
fn cmp_immediate_variant_consults_the_byte() {
    let mut regs = Registers::new();
    let mut mem = load_program(&Vec::new());
    regs.gp[3] = 200;
    // cmp r3 #200: op 0x14, rA 3, 8-bit constant 200.
    run_one(0xA3C8, &mut regs, &mut mem);
    assert!(regs.read_flag(Flags::ZR));
}

#[test]
fn signed_branch_predicates_consult_negative_and_overflow() {
    let mut mem = load_program(&Vec::new());
    mem[0] = 0xC003; // bgt 3: taken when NG == OV
    let mut regs = Registers::new();
    assert_eq!(step(&mut regs, &mut mem), Ok(false));
    assert_eq!(regs.pc, 3);
    let mut regs2 = Registers::new();
    regs2.change_flags(vec![(Flags::NG, true)]);
    assert_eq!(step(&mut regs2, &mut mem), Ok(false));
    assert_eq!(regs2.pc, 1);
    mem[0] = 0xD003; // blt 3: taken when NG != OV
    let mut regs3 = Registers::new();
    regs3.change_flags(vec![(Flags::NG, true)]);
    assert_eq!(step(&mut regs3, &mut mem), Ok(false));
    assert_eq!(regs3.pc, 3);
}

#[test]
fn push_below_the_stack_floor_is_a_fault() {
    let mut regs = Registers::new();
    let mut mem = load_program(&Vec::new());
    regs.gp[5] = 0;
    // push r0 with the stack pointer at zero would write below memory.
    run_one_err(0x3001, &mut regs, &mut mem, EmuError::OutOfBoundsMemory(0xFFFF));
}

fn run_one_err(word: u16, regs: &mut Registers, mem: &mut Vec<u16>, want: EmuError) {
    regs.ir = word;
    let op = decode(word);
    assert_eq!(execute(op, regs, mem), Err(want));
}

#[test]
fn load_and_store_through_address_registers() {
    let mut regs = Registers::new();
    let mut mem = load_program(&Vec::new());
    regs.gp[1] = 77;
    // strr r1 &r2 #3 stores at address 2 + 3 = 5 (register index plus offset).
    run_one(0x2943, &mut regs, &mut mem);
    assert_eq!(mem[5], 77);
    // ldr r0 &r2 #3 reads it back.
    run_one(0x1843, &mut regs, &mut mem);
    assert_eq!(regs.gp[0], 77);
}
