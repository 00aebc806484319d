use qtv_vm::assembler::{assemble, AsmError};
use qtv_vm::interp::Interpreter;
use qtv_vm::isa::{decode, Instr};

#[test]
fn assembles_and_computes() {
    let code = assemble(
        "
        LDI r0, 5
        LDI r1, 7
        ADD r2, r0, r1
        HALT
        ",
    )
    .expect("assemble");
    let out = Interpreter::new(&code, &[], 100).run().expect("halt");
    assert_eq!(out.regs[2], 12);
}

#[test]
fn hex_immediate() {
    let code = assemble("LDI r0, 255\nHALT").expect("assemble");
    let out = Interpreter::new(&code, &[], 100).run().expect("halt");
    assert_eq!(out.regs[0], 255);
}

#[test]
fn labels_resolve_for_loops() {
    let code = assemble(
        "
        LDI r0, 3    # counter
        LDI r1, 0    # accumulator
        LDI r2, 1
        loop:
        SUBW r0, r0, r2
        ADDW r1, r1, r2
        JNZ r0, loop
        HALT
        ",
    )
    .expect("assemble");
    let out = Interpreter::new(&code, &[], 1000).run().expect("halt");
    assert_eq!(out.regs[1], 3);
}

#[test]
fn unknown_mnemonic_errors() {
    assert_eq!(assemble("FOO r0"), Err(AsmError::UnknownMnemonic(1, "FOO".to_string())));
}

#[test]
fn bad_register_errors() {
    assert_eq!(assemble("LDI r99, 1\nHALT"), Err(AsmError::BadRegister(1, "r99".to_string())));
}

#[test]
fn unknown_label_errors() {
    assert_eq!(assemble("JMP nowhere\nHALT"), Err(AsmError::UnknownLabel(1, "nowhere".to_string())));
}

#[test]
fn forward_labels_resolve_to_the_next_instruction() {
    let code = assemble("JMP end\nLDI r0, 1\nend:\nHALT").expect("assemble");
    let mut want = Vec::new();
    Instr::Jmp { target: 15 }.encode(&mut want);
    Instr::Ldi { d: 0, imm: 1 }.encode(&mut want);
    Instr::Halt.encode(&mut want);
    assert_eq!(code, want);
}

#[test]
fn mnemonics_are_case_insensitive_and_commas_optional() {
    let a = assemble("ldi R1 42\nadd r2,r1,  r1\nhalt").expect("assemble");
    let b = assemble("LDI r1, 42\nADD r2, r1, r1\nHALT").expect("assemble");
    assert_eq!(a, b);
    assert_eq!(decode(&a, 0), Ok((Instr::Ldi { d: 1, imm: 42 }, 10)));
}

#[test]
fn comments_and_blank_lines_keep_their_line_numbers() {
    assert_eq!(
        assemble("# header\n\n  HALT  \r\nPOP q1\n"),
        Err(AsmError::BadRegister(4, "q1".to_string()))
    );
}

#[test]
fn each_error_names_its_line() {
    assert_eq!(assemble("HALT\nADD r0, r1"), Err(AsmError::WrongOperands(2, "ADD r0, r1".to_string())));
    assert_eq!(assemble("LDC r0, 65536"), Err(AsmError::BadNumber(1, "65536".to_string())));
    assert_eq!(assemble("LDI r0, 18446744073709551616"), Err(AsmError::BadNumber(1, "18446744073709551616".to_string())));
    assert_eq!(assemble("JMP 4294967296"), Err(AsmError::BadNumber(1, "4294967296".to_string())));
    assert_eq!(assemble("a:\nHALT\n a :"), Err(AsmError::DuplicateLabel(3, "a".to_string())));
    assert_eq!(assemble("frob r0"), Err(AsmError::UnknownMnemonic(1, "FROB".to_string())));
    assert_eq!(assemble(","), Err(AsmError::UnknownMnemonic(1, ",".to_string())));
}

#[test]
fn numbers_take_an_optional_plus() {
    let code = assemble("LDI r0, +7\nLDC r1, 65535\nHALT").expect("assemble");
    assert_eq!(decode(&code, 0), Ok((Instr::Ldi { d: 0, imm: 7 }, 10)));
    assert_eq!(decode(&code, 10), Ok((Instr::Ldc { d: 1, idx: 65535 }, 4)));
    assert_eq!(assemble("PUSH r+3\nHALT").expect("assemble")[1], 3);
}

#[test]
fn an_empty_program_assembles_to_nothing() {
    assert_eq!(assemble(""), Ok(vec![]));
    assert_eq!(assemble("  # only a comment\n\n"), Ok(vec![]));
}
