use aruvi_emulator::Custom32Emulator;

fn run_program(source: &str, max_steps: usize) -> Custom32Emulator {
    let mut emu = Custom32Emulator::default();
    emu.load_assembly_text(source).expect("parse failed");
    emu.run(max_steps, false).expect("run failed");
    emu
}

#[test]
fn sum_loop() {
    let emu = run_program(
        r#"
            LOADI R1, #10
            LOADI R2, #0
        LOOP:
            ADD R2, R2, R1
            SUBI R1, R1, #1
            JNZ LOOP
            STORE R2, #0x2000
            HALT
            "#,
        10_000,
    );
    assert_eq!(emu.read_word(0x2000).unwrap(), 55);
}

#[test]
fn memory_roundtrip() {
    let emu = run_program(
        r#"
            LOADI R4, #0x12345678
            STORE R4, #0x2100
            LOADI R5, #0
            LOAD R5, #0x2100
            HALT
            "#,
        10_000,
    );
    assert_eq!(emu.registers[5], 0x12345678);
}

#[test]
fn r0_hardwired_zero() {
    let emu = run_program(
        r#"
            LOADI R0, #12345
            ADDI R0, R0, #1
            HALT
            "#,
        10_000,
    );
    assert_eq!(emu.registers[0], 0);
}

#[test]
fn loadi_works() {
    let emu = run_program(
        r#"
            LOADI R1, #123
            HALT
            "#,
        20_000,
    );
    assert_eq!(emu.registers[1], 123);
}

#[test]
fn add_and_addi_work() {
    let emu = run_program(
        r#"
            LOADI R1, #10
            LOADI R2, #20
            ADD R3, R1, R2
            ADDI R4, R3, #5
            HALT
            "#,
        20_000,
    );
    assert_eq!(emu.registers[3], 30);
    assert_eq!(emu.registers[4], 35);
}

#[test]
fn sub_and_subi_work() {
    let emu = run_program(
        r#"
            LOADI R1, #50
            LOADI R2, #8
            SUB R3, R1, R2
            SUBI R4, R3, #2
            HALT
            "#,
        20_000,
    );
    assert_eq!(emu.registers[3], 42);
    assert_eq!(emu.registers[4], 40);
}

#[test]
fn and_or_xor_work() {
    let emu = run_program(
        r#"
            LOADI R1, #0xF0
            LOADI R2, #0xCC
            AND R3, R1, R2
            OR R4, R1, R2
            XOR R5, R1, R2
            HALT
            "#,
        20_000,
    );
    assert_eq!(emu.registers[3], 0xC0);
    assert_eq!(emu.registers[4], 0xFC);
    assert_eq!(emu.registers[5], 0x3C);
}

#[test]
fn shl_and_shr_work() {
    let emu = run_program(
        r#"
            LOADI R1, #1
            SHL R2, R1, #5
            SHR R3, R2, #2
            HALT
            "#,
        20_000,
    );
    assert_eq!(emu.registers[2], 32);
    assert_eq!(emu.registers[3], 8);
}

#[test]
fn load_and_store_work() {
    let emu = run_program(
        r#"
            LOADI R7, #0x11223344
            STORE R7, #0x300
            LOADI R8, #0
            LOAD R8, #0x300
            HALT
            "#,
        20_000,
    );
    assert_eq!(emu.registers[8], 0x11223344);
    assert_eq!(emu.read_word(0x300).unwrap(), 0x11223344);
}

#[test]
fn jmp_works() {
    let emu = run_program(
        r#"
            JMP SKIP
            LOADI R1, #999
        SKIP:
            LOADI R1, #55
            HALT
            "#,
        20_000,
    );
    assert_eq!(emu.registers[1], 55);
}

#[test]
fn cmp_and_jz_work() {
    let emu = run_program(
        r#"
            LOADI R1, #42
            LOADI R2, #42
            CMP R1, R2
            JZ EQUAL
            LOADI R3, #0
            JMP END
        EQUAL:
            LOADI R3, #1
        END:
            HALT
            "#,
        20_000,
    );
    assert_eq!(emu.registers[3], 1);
}

#[test]
fn jnz_works() {
    let emu = run_program(
        r#"
            LOADI R1, #7
            LOADI R2, #8
            CMP R1, R2
            JNZ NEQ
            LOADI R3, #0
            JMP END
        NEQ:
            LOADI R3, #1
        END:
            HALT
            "#,
        20_000,
    );
    assert_eq!(emu.registers[3], 1);
}

#[test]
fn jc_and_jnc_work() {
    let emu = run_program(
        r#"
            LOADI R1, #5
            LOADI R2, #3
            CMP R1, R2
            JC HAS_CARRY
            LOADI R3, #0
            JMP CHECK_JNC
        HAS_CARRY:
            LOADI R3, #1

        CHECK_JNC:
            CMP R2, R1
            JNC NO_CARRY
            LOADI R4, #0
            JMP END
        NO_CARRY:
            LOADI R4, #1
        END:
            HALT
            "#,
        20_000,
    );
    assert_eq!(emu.registers[3], 1);
    assert_eq!(emu.registers[4], 1);
}

#[test]
fn jlt_jge_jle_work() {
    let emu = run_program(
        r#"
            LOADI R1, #1
            LOADI R2, #2
            CMP R1, R2
            JLT LESS
            LOADI R10, #0
            JMP CHECK_JGE
        LESS:
            LOADI R10, #1

        CHECK_JGE:
            CMP R2, R1
            JGE GE_TRUE
            LOADI R11, #0
            JMP CHECK_JLE
        GE_TRUE:
            LOADI R11, #1

        CHECK_JLE:
            CMP R1, R1
            JLE LE_TRUE
            LOADI R12, #0
            JMP END
        LE_TRUE:
            LOADI R12, #1
        END:
            HALT
            "#,
        20_000,
    );
    assert_eq!(emu.registers[10], 1);
    assert_eq!(emu.registers[11], 1);
    assert_eq!(emu.registers[12], 1);
}

#[test]
fn directives_are_ignored() {
    let emu = run_program(
        r#"
            .org 0x8000
            .text
            LOADI R1, #77
            HALT
            "#,
        20_000,
    );
    assert_eq!(emu.registers[1], 77);
}

#[test]
fn unaligned_memory_errors() {
    let mut emu = Custom32Emulator::default();
    emu.load_assembly_text(
        r#"
            LOADI R1, #1
            STORE R1, #0x101
            HALT
            "#,
    )
    .unwrap();

    let err = emu.run(100, false).unwrap_err();
    let msg = err.message().to_string();
    assert!(msg.contains("Unaligned STORE"));
}

#[test]
fn add_sets_zero_flag_when_result_zero() {
    let emu = run_program(
        r#"
            LOADI R1, #0
            LOADI R2, #0
            ADD R3, R1, R2
            HALT
            "#,
        50_000,
    );
    assert_eq!(emu.registers[3], 0);
    assert!(emu.flags.zero);
}

#[test]
fn subi_wraps_underflow_and_sets_negative() {
    let emu = run_program(
        r#"
            LOADI R1, #0
            SUBI R2, R1, #1
            HALT
            "#,
        50_000,
    );
    assert_eq!(emu.registers[2], 0xFFFF_FFFF);
    assert!(emu.flags.negative);
}

#[test]
fn shl_masks_shift_amount_to_31() {
    let emu = run_program(
        r#"
            LOADI R1, #1
            SHL R2, R1, #33
            HALT
            "#,
        50_000,
    );
    assert_eq!(emu.registers[2], 2);
}

#[test]
fn shr_masks_shift_amount_to_31() {
    let emu = run_program(
        r#"
            LOADI R1, #8
            SHR R2, R1, #34
            HALT
            "#,
        50_000,
    );
    assert_eq!(emu.registers[2], 2);
}

#[test]
fn jmp_immediate_instruction_index_works() {
    let emu = run_program(
        r#"
            JMP #2
            LOADI R1, #999
            LOADI R1, #42
            HALT
            "#,
        50_000,
    );
    assert_eq!(emu.registers[1], 42);
}

#[test]
fn load_store_with_register_based_addressing() {
    let emu = run_program(
        r#"
            LOADI R1, #0x4444
            LOADI R10, #0x340
            STORE R1, R10
            LOADI R2, #0
            LOAD R2, R10
            HALT
            "#,
        50_000,
    );
    assert_eq!(emu.registers[2], 0x4444);
}

#[test]
fn duplicate_label_is_rejected() {
    let mut emu = Custom32Emulator::default();
    let err = emu
        .load_assembly_text(
            r#"
                A:
                LOADI R1, #1
                A:
                HALT
                "#,
        )
        .unwrap_err();
    assert!(err.message().contains("Duplicate label"));
}

#[test]
fn unsupported_opcode_is_rejected() {
    let mut emu = Custom32Emulator::default();
    emu.load_assembly_text(
        r#"
            MUL R1, R2, R3
            HALT
            "#,
    )
    .unwrap();
    let err = emu.run(100, false).unwrap_err();
    assert!(err.message().contains("Unsupported opcode"));
}

#[test]
fn wrong_argument_count_is_rejected() {
    let mut emu = Custom32Emulator::default();
    emu.load_assembly_text(
        r#"
            ADD R1, R2
            HALT
            "#,
    )
    .unwrap();
    let err = emu.run(100, false).unwrap_err();
    assert!(err.message().contains("Wrong arg count"));
}

#[test]
fn table_driven_logic_cases() {
    let cases = [
        ("AND", 0xAAu32, 0xCCu32, 0x88u32),
        ("OR", 0xAAu32, 0xCCu32, 0xEEu32),
        ("XOR", 0xAAu32, 0xCCu32, 0x66u32),
    ];

    for (op, a, b, expected) in cases {
        let source = format!("\nLOADI R1, #{a}\nLOADI R2, #{b}\n{op} R3, R1, R2\nHALT\n");
        let emu = run_program(&source, 50_000);
        assert_eq!(emu.registers[3], expected, "failed case for {op}");
    }
}
