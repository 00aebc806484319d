use qtv_vm::gas::cost;
use qtv_vm::isa::{Instr, OpCode};

fn every_opcode() -> Vec<OpCode> {
    [
        Instr::Halt,
        Instr::Nop,
        Instr::Mov { d: 0, a: 0 },
        Instr::Ldi { d: 0, imm: 0 },
        Instr::Ldc { d: 0, idx: 0 },
        Instr::Add { d: 0, a: 0, b: 0 },
        Instr::Sub { d: 0, a: 0, b: 0 },
        Instr::Mul { d: 0, a: 0, b: 0 },
        Instr::Div { d: 0, a: 0, b: 0 },
        Instr::Rem { d: 0, a: 0, b: 0 },
        Instr::AddW { d: 0, a: 0, b: 0 },
        Instr::SubW { d: 0, a: 0, b: 0 },
        Instr::MulW { d: 0, a: 0, b: 0 },
        Instr::MulHi { d: 0, a: 0, b: 0 },
        Instr::And { d: 0, a: 0, b: 0 },
        Instr::Or { d: 0, a: 0, b: 0 },
        Instr::Xor { d: 0, a: 0, b: 0 },
        Instr::Not { d: 0, a: 0 },
        Instr::Shl { d: 0, a: 0, b: 0 },
        Instr::Shr { d: 0, a: 0, b: 0 },
        Instr::Eq { d: 0, a: 0, b: 0 },
        Instr::LtU { d: 0, a: 0, b: 0 },
        Instr::GtU { d: 0, a: 0, b: 0 },
        Instr::Push { a: 0 },
        Instr::Pop { d: 0 },
        Instr::MLoad { d: 0, a: 0 },
        Instr::MStore { a: 0, b: 0 },
        Instr::Jmp { target: 0 },
        Instr::Jz { a: 0, target: 0 },
        Instr::Jnz { a: 0, target: 0 },
        Instr::Call { target: 0 },
        Instr::Ret,
        Instr::SLoad { d: 0, a: 0 },
        Instr::SStore { a: 0, b: 0 },
        Instr::Send { a: 0, b: 0, c: 0 },
        Instr::Emit { a: 0, b: 0, c: 0 },
        Instr::Hash { a: 0, b: 0, c: 0 },
        Instr::VerifyMl { a: 0, b: 0, c: 0 },
        Instr::VerifySlh { a: 0, b: 0, c: 0 },
        Instr::MerkleVerify { a: 0, b: 0, c: 0 },
        Instr::Kem { a: 0, b: 0, c: 0 },
    ]
    .iter()
    .map(Instr::opcode)
    .collect()
}

#[test]
fn gas_only_halt_is_free() {
    for op in every_opcode() {
        if op == OpCode::Halt {
            assert_eq!(cost(op), 0);
        } else {
            assert!(cost(op) >= 1, "{op:?} must charge at least one gas");
        }
    }
}

#[test]
fn gas_schedule_values() {
    assert_eq!(cost(OpCode::Ldi), 1);
    assert_eq!(cost(OpCode::Add), 2);
    assert_eq!(cost(OpCode::SStore), 500);
    assert_eq!(cost(OpCode::Hash), 32);
    assert_eq!(cost(OpCode::VerifySlh), 64_000);
}
