use qtv_vm::isa::{decode, DecodeError, Instr, OpCode};

fn sample_set() -> Vec<Instr> {
    vec![
        Instr::Halt,
        Instr::Nop,
        Instr::Ret,
        Instr::Mov { d: 1, a: 2 },
        Instr::Ldi { d: 3, imm: 0x0102_0304_0506_0708 },
        Instr::Ldc { d: 4, idx: 0x1234 },
        Instr::Add { d: 5, a: 6, b: 7 },
        Instr::Sub { d: 5, a: 6, b: 7 },
        Instr::Mul { d: 5, a: 6, b: 7 },
        Instr::Div { d: 5, a: 6, b: 7 },
        Instr::Rem { d: 5, a: 6, b: 7 },
        Instr::AddW { d: 5, a: 6, b: 7 },
        Instr::SubW { d: 5, a: 6, b: 7 },
        Instr::MulW { d: 5, a: 6, b: 7 },
        Instr::And { d: 8, a: 9, b: 10 },
        Instr::Or { d: 8, a: 9, b: 10 },
        Instr::Xor { d: 8, a: 9, b: 10 },
        Instr::Not { d: 8, a: 9 },
        Instr::Shl { d: 8, a: 9, b: 10 },
        Instr::Shr { d: 8, a: 9, b: 10 },
        Instr::Eq { d: 11, a: 12, b: 13 },
        Instr::LtU { d: 11, a: 12, b: 13 },
        Instr::GtU { d: 11, a: 12, b: 13 },
        Instr::Push { a: 14 },
        Instr::Pop { d: 15 },
        Instr::MLoad { d: 0, a: 1 },
        Instr::MStore { a: 0, b: 1 },
        Instr::Jmp { target: 0xdead_beef },
        Instr::Jz { a: 2, target: 0x00c0_ffee },
        Instr::Jnz { a: 2, target: 0x00c0_ffee },
        Instr::Call { target: 0x0000_1000 },
        Instr::SLoad { d: 3, a: 4 },
        Instr::SStore { a: 3, b: 4 },
        Instr::Send { a: 1, b: 2, c: 3 },
        Instr::Hash { a: 1, b: 2, c: 3 },
        Instr::VerifyMl { a: 1, b: 2, c: 3 },
        Instr::VerifySlh { a: 1, b: 2, c: 3 },
        Instr::MerkleVerify { a: 1, b: 2, c: 3 },
        Instr::Kem { a: 1, b: 2, c: 3 },
    ]
}

#[test]
fn round_trip_each_opcode() {
    for instr in sample_set() {
        let mut bytes = Vec::new();
        instr.encode(&mut bytes);
        assert_eq!(bytes.len(), instr.encoded_len());
        let (decoded, used) = decode(&bytes, 0).expect("decode");
        assert_eq!(decoded, instr);
        assert_eq!(used, bytes.len());
        assert_eq!(decoded.opcode(), instr.opcode());
    }
}

#[test]
fn round_trip_within_stream() {
    let mut bytes = Vec::new();
    let program = sample_set();
    for instr in &program {
        instr.encode(&mut bytes);
    }
    let mut pc = 0usize;
    for instr in &program {
        let (decoded, used) = decode(&bytes, pc).expect("decode");
        assert_eq!(&decoded, instr);
        pc += used;
    }
    assert_eq!(pc, bytes.len());
}

#[test]
fn unknown_opcode_faults() {
    assert_eq!(decode(&[0xff], 0), Err(DecodeError::UnknownOpcode(0xff)));
}

#[test]
fn truncated_faults() {
    assert_eq!(decode(&[OpCode::Add.to_byte(), 1, 2], 0), Err(DecodeError::Truncated));
    assert_eq!(decode(&[], 0), Err(DecodeError::Truncated));
}

#[test]
fn bad_register_faults() {
    assert_eq!(decode(&[OpCode::Mov.to_byte(), 16, 0], 0), Err(DecodeError::BadRegister(16)));
}

#[test]
fn wide_and_effect_instructions_round_trip() {
    let wide = [
        Instr::MulHi { d: 1, a: 2, b: 3 },
        Instr::DivW { dlo: 0, dhi: 1, alo: 2, ahi: 3, blo: 4, bhi: 5 },
        Instr::RemW { dlo: 15, dhi: 14, alo: 13, ahi: 12, blo: 11, bhi: 10 },
        Instr::Emit { a: 1, b: 2, c: 3 },
        Instr::Addr { a: 4, b: 5, c: 6 },
    ];
    for instr in wide {
        let mut bytes = vec![0xaa];
        instr.encode(&mut bytes);
        bytes.push(0xbb);
        let (decoded, used) = decode(&bytes, 1).expect("decode");
        assert_eq!(decoded, instr);
        assert_eq!(used, instr.encoded_len());
    }
}

#[test]
fn encoding_is_opcode_then_registers_then_big_endian_immediate() {
    let mut bytes = Vec::new();
    Instr::Ldi { d: 3, imm: 0x0102_0304_0506_0708 }.encode(&mut bytes);
    assert_eq!(bytes, vec![0x03, 3, 1, 2, 3, 4, 5, 6, 7, 8]);
    let mut bytes = Vec::new();
    Instr::Jz { a: 2, target: 0x00c0_ffee }.encode(&mut bytes);
    assert_eq!(bytes, vec![0x41, 2, 0x00, 0xc0, 0xff, 0xee]);
}

#[test]
fn every_opcode_byte_names_its_opcode() {
    for b in 0..=255u8 {
        if let Some(op) = OpCode::from_byte(b) {
            assert_eq!(op.to_byte(), b);
        }
    }
    assert_eq!(OpCode::from_byte(0x10), Some(OpCode::Add));
    assert_eq!(OpCode::from_byte(0x74), None);
}
