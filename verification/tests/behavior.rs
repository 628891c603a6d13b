use aruvi_emulator::Custom32Emulator;

fn load(source: &str) -> Custom32Emulator {
    let mut emu = Custom32Emulator::default();
    emu.load_assembly_text(source).expect("parse failed");
    emu
}

fn run(source: &str) -> Custom32Emulator {
    let mut emu = load(source);
    emu.run(10_000, false).expect("run failed");
    emu
}

#[test]
fn loading_twice_gives_identical_program() {
    let src = "START: LOADI R1, #5\n ADD R2, R1, R1 ; comment\nEND: HALT\n";
    let mut a = Custom32Emulator::default();
    a.load_assembly_text(src).unwrap();
    let mut b = Custom32Emulator::new(64);
    b.load_assembly_text(src).unwrap();
    b.load_assembly_text(src).unwrap();
    assert_eq!(a.instructions.len(), b.instructions.len());
    for (x, y) in a.instructions.iter().zip(b.instructions.iter()) {
        assert_eq!(x.op, y.op);
        assert_eq!(x.args, y.args);
        assert_eq!(x.line_no, y.line_no);
        assert_eq!(x.raw, y.raw);
    }
    assert_eq!(a.labels, b.labels);
}

#[test]
fn comment_and_directive_lines_do_not_change_behaviour() {
    let plain = "LOADI R1, #3\nLOOP: SUBI R1, R1, #1\nJNZ LOOP\nHALT\n";
    let padded = "; a comment\nLOADI R1, #3\n\n.text\nLOOP: SUBI R1, R1, #1\n   ; another\nJNZ LOOP\n.align 4\nHALT\n";
    let a = {
        let mut e = load(plain);
        e.run(1_000, false).unwrap();
        e
    };
    let b = {
        let mut e = load(padded);
        e.run(1_000, false).unwrap();
        e
    };
    assert_eq!(a.registers, b.registers);
    assert_eq!(a.flags, b.flags);
    assert_eq!(a.instruction_count, b.instruction_count);
    let la = load(plain);
    let lb = load(padded);
    assert_eq!(la.labels.len(), lb.labels.len());
    for ((n1, t1), (n2, t2)) in la.labels.iter().zip(lb.labels.iter()) {
        assert_eq!(n1, n2);
        assert_eq!(t1, t2);
    }
}

#[test]
fn cmp_and_sub_set_identical_flags() {
    for (a, b) in [(5u32, 3u32), (3, 5), (7, 7), (0, 0xFFFF_FFFF), (0x8000_0000, 1)] {
        let asm_cmp = format!("LOADI R1, #0x{a:X}\nLOADI R2, #0x{b:X}\nCMP R1, R2\nHALT\n");
        let asm_sub = format!("LOADI R1, #0x{a:X}\nLOADI R2, #0x{b:X}\nSUB R3, R1, R2\nHALT\n");
        let ec = run(&asm_cmp);
        let es = run(&asm_sub);
        assert_eq!(ec.flags, es.flags, "flags differ for {a} {b}");
    }
}

#[test]
fn arithmetic_flags_match_wide_reference() {
    // reference computation with 64-bit arithmetic
    for (a, b) in [
        (0u32, 0u32),
        (1, 1),
        (0xFFFF_FFFF, 1),
        (0x7FFF_FFFF, 1),
        (0x8000_0000, 0x8000_0000),
        (123456, 654321),
    ] {
        let source = format!("LOADI R1, #0x{a:X}\nLOADI R2, #0x{b:X}\nADD R3, R1, R2\nHALT\n");
        let e = run(&source);
        let full = a as u64 + b as u64;
        let result = (full & 0xFFFF_FFFF) as u32;
        assert_eq!(e.registers[3], result);
        assert_eq!(e.flags.carry, full > 0xFFFF_FFFF);
        assert_eq!(e.flags.zero, result == 0);
        assert_eq!(e.flags.negative, result & 0x8000_0000 != 0);
        let signed = (a as i32 as i64) + (b as i32 as i64);
        assert_eq!(e.flags.overflow, signed != result as i32 as i64);
    }
}

#[test]
fn memory_word_round_trip_via_accessors() {
    let mut emu = Custom32Emulator::new(4096);
    for (a, v) in [(0u32, 0u32), (4, 0xDEAD_BEEF), (4092, 0xFFFF_FFFF)] {
        emu.write_word(a, v).unwrap();
        assert_eq!(emu.read_word(a).unwrap(), v);
    }
}

#[test]
fn unaligned_and_out_of_range_words_are_rejected() {
    let mut emu = Custom32Emulator::new(64);
    assert!(emu.read_word(2).unwrap_err().message().contains("Unaligned LOAD"));
    assert!(emu.read_word(64).unwrap_err().message().contains("LOAD out of range"));
    assert!(emu.write_word(61, 1).unwrap_err().message().contains("Unaligned STORE"));
    assert!(emu.write_word(64, 1).unwrap_err().message().contains("STORE out of range"));
    // a failed store leaves memory unchanged
    emu.write_word(0, 0x11223344).unwrap();
    let _ = emu.write_word(64, 5);
    assert_eq!(emu.read_word(0).unwrap(), 0x11223344);
}

#[test]
fn register_token_errors_carry_the_token() {
    let err = Custom32Emulator::parse_register("R32").unwrap_err();
    assert!(err.message().contains("Register out of range: R32"));
    let err = Custom32Emulator::parse_register("Rx").unwrap_err();
    assert!(err.message().contains("Invalid register 'RX'"));
    let err = Custom32Emulator::parse_register("17").unwrap_err();
    assert!(err.message().contains("Expected register token, got '17'"));
    assert_eq!(Custom32Emulator::parse_register(" r9 ").unwrap(), 9);
}

#[test]
fn immediates_cover_decimal_and_hex_forms() {
    assert_eq!(Custom32Emulator::parse_imm("#123").unwrap(), 123);
    assert_eq!(Custom32Emulator::parse_imm("-5").unwrap(), -5);
    assert_eq!(Custom32Emulator::parse_imm("0x1A").unwrap(), 0x1A);
    assert_eq!(Custom32Emulator::parse_imm("-0x1A").unwrap(), -0x1A);
    assert_eq!(Custom32Emulator::parse_imm("#-0x10").unwrap(), -16);
    assert!(
        Custom32Emulator::parse_imm("zebra").unwrap_err().message().contains(
            "Invalid immediate 'zebra'"
        )
    );
    assert!(Custom32Emulator::parse_imm("").is_err());
}

#[test]
fn negative_immediate_loads_wrap_to_u32() {
    let emu = run("LOADI R1, #-0x10\nHALT\n");
    assert_eq!(emu.registers[1], 0xFFFF_FFF0);
}

#[test]
fn negative_jump_target_is_an_error() {
    let mut emu = load("JMP #-1\nHALT\n");
    let err = emu.run(10, false).unwrap_err();
    assert!(err.message().contains("Negative jump target: -1"));
}

#[test]
fn running_off_the_end_reports_pc_out_of_range() {
    let mut emu = load("LOADI R1, #1\n");
    let err = emu.run(10, false).unwrap_err();
    assert!(err.message().contains("PC out of range: 1"));
}

#[test]
fn exhausted_budget_reports_no_halt() {
    let mut emu = load("LOOP: JMP LOOP\n");
    let err = emu.run(7, false).unwrap_err();
    assert!(err.message().contains("Execution did not halt after 7 steps"));
    assert_eq!(emu.instruction_count, 7);
    assert!(!emu.halted);
}

#[test]
fn halted_machine_steps_are_no_ops() {
    let mut emu = run("LOADI R1, #9\nHALT\n");
    assert!(emu.halted);
    let count = emu.instruction_count;
    emu.step(false).unwrap();
    emu.step(false).unwrap();
    assert_eq!(emu.instruction_count, count);
    assert!(emu.halted);
    assert_eq!(emu.registers[1], 9);
}

#[test]
fn faulted_step_does_not_advance() {
    let mut emu = load("STORE R1, #0x3\nHALT\n");
    let before_pc = emu.pc;
    let err = emu.step(false).unwrap_err();
    assert!(err.message().contains("Unaligned STORE"));
    assert_eq!(emu.pc, before_pc);
    assert_eq!(emu.instruction_count, 0);
    assert!(!emu.halted);
}

#[test]
fn chained_labels_bind_to_the_same_instruction() {
    let emu = load("A:B: LOADI R1, #1\nC: HALT\n");
    assert_eq!(emu.labels.len(), 3);
    let find = |n: &str| emu.labels.iter().find(|(k, _)| k == n).unwrap().1;
    assert_eq!(find("A"), 0);
    assert_eq!(find("B"), 0);
    assert_eq!(find("C"), 1);
}

#[test]
fn trailing_label_binds_past_the_end() {
    let emu = load("HALT\nEND:\n");
    let t = emu.labels.iter().find(|(k, _)| k == "END").unwrap().1;
    assert_eq!(t, 1);
}

#[test]
fn label_can_serve_as_store_address() {
    // the label TARGET resolves to instruction index 4, a multiple of 4
    let emu = run(
        "LOADI R1, #0xAB\nSTORE R1, TARGET\nJMP SKIP\nHALT\nTARGET: HALT\nSKIP: HALT\n",
    );
    assert_eq!(emu.read_word(4).unwrap(), 0xAB);
}

#[test]
fn reload_preserves_memory_and_registers() {
    let mut emu = run("LOADI R1, #7\nSTORE R1, #0x40\nHALT\n");
    assert!(emu.halted);
    emu.load_assembly_text("ADD R2, R1, R1\nHALT\n").unwrap();
    assert_eq!(emu.pc, 0);
    assert!(!emu.halted);
    assert_eq!(emu.instruction_count, 0);
    assert_eq!(emu.registers[1], 7);
    assert_eq!(emu.read_word(0x40).unwrap(), 7);
    emu.run(100, false).unwrap();
    assert_eq!(emu.registers[2], 14);
}

#[test]
fn loadi_sets_zero_flag_for_zero_immediate() {
    let emu = run("LOADI R1, #0\nHALT\n");
    assert!(emu.flags.zero);
    assert!(!emu.flags.carry);
    assert!(!emu.flags.overflow);
}

#[test]
fn summary_reports_state_and_registers() {
    let emu = run("LOADI R1, #16\nLOADI R3, #255\nHALT\n");
    let s = emu.summary();
    assert_eq!(
        s,
        "halted=true steps=3 pc=3 flags(C=0 Z=0 N=0 V=0) R1=0x00000010 R3=0x000000FF"
    );
}

#[test]
fn summary_elides_beyond_twelve_registers() {
    let mut source = String::new();
    for i in 1..=14 {
        source.push_str(&format!("LOADI R{i}, #{i}\n"));
    }
    source.push_str("HALT\n");
    let emu = run(&source);
    let s = emu.summary();
    assert!(s.ends_with(" ..."));
    assert!(s.contains("R12=0x0000000C"));
    assert!(!s.contains("R13=0x0000000D"));
}

#[test]
fn summary_of_fresh_machine_has_no_registers_listed() {
    let emu = Custom32Emulator::new(16);
    assert_eq!(emu.summary(), "halted=false steps=0 pc=0 flags(C=0 Z=0 N=0 V=0) ");
}

#[test]
fn carry_flag_follows_unsigned_overflow() {
    let emu = run("LOADI R1, #0xFFFFFFFF\nLOADI R2, #1\nADD R3, R1, R2\nHALT\n");
    assert!(emu.flags.carry);
    assert!(emu.flags.zero);
    assert_eq!(emu.registers[3], 0);
}

#[test]
fn overflow_flag_follows_signed_overflow() {
    let emu = run("LOADI R1, #0x7FFFFFFF\nLOADI R2, #1\nADD R3, R1, R2\nHALT\n");
    assert!(emu.flags.overflow);
    assert!(emu.flags.negative);
    assert!(!emu.flags.carry);
}

#[test]
fn empty_operands_between_commas_are_dropped() {
    let emu = run("LOADI R1, , #5\nHALT\n");
    assert_eq!(emu.registers[1], 5);
}
