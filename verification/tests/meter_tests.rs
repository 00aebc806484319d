use qtv_vm::isa::{Instr, OpCode};
use qtv_vm::meter::{
    cost, hash_variable, merkle_variable, message_variable, EVENT_RECORD_METER, HASH_BLOCK,
    KECCAK_RATE, KEYED_SLOT_METER, LEAF_ROOT_BUDGET_MS, LEAF_ROOT_MICROS, MERKLE_LEVEL,
    VERIFY_MESSAGE_BLOCK,
};

const BLOCK_METER_BUDGET: u64 = 50_000_000;

#[test]
fn a_full_block_of_fresh_leaves_roots_inside_its_budget() {
    let leaves = BLOCK_METER_BUDGET / KEYED_SLOT_METER;
    let micros = leaves * LEAF_ROOT_MICROS;
    assert!(
        micros <= LEAF_ROOT_BUDGET_MS * 1_000,
        "{leaves} fresh leaves root in {micros} us, past the {LEAF_ROOT_BUDGET_MS} ms budget"
    );
}

#[test]
fn a_full_block_of_event_records_stays_bounded() {
    let records = BLOCK_METER_BUDGET / EVENT_RECORD_METER;
    assert!(records <= 8_192, "one block buys {records} durable event records");
}

fn every_instr() -> Vec<Instr> {
    vec![
        Instr::Halt,
        Instr::Nop,
        Instr::Mov { d: 0, a: 0 },
        Instr::Ldi { d: 0, imm: 0 },
        Instr::Ldc { d: 0, idx: 0 },
        Instr::Add { d: 0, a: 0, b: 0 },
        Instr::Sub { d: 0, a: 0, b: 0 },
        Instr::Mul { d: 0, a: 0, b: 0 },
        Instr::Div { d: 0, a: 0, b: 0 },
        Instr::Rem { d: 0, a: 0, b: 0 },
        Instr::AddW { d: 0, a: 0, b: 0 },
        Instr::SubW { d: 0, a: 0, b: 0 },
        Instr::MulW { d: 0, a: 0, b: 0 },
        Instr::MulHi { d: 0, a: 0, b: 0 },
        Instr::DivW { dlo: 0, dhi: 0, alo: 0, ahi: 0, blo: 0, bhi: 0 },
        Instr::RemW { dlo: 0, dhi: 0, alo: 0, ahi: 0, blo: 0, bhi: 0 },
        Instr::And { d: 0, a: 0, b: 0 },
        Instr::Or { d: 0, a: 0, b: 0 },
        Instr::Xor { d: 0, a: 0, b: 0 },
        Instr::Not { d: 0, a: 0 },
        Instr::Shl { d: 0, a: 0, b: 0 },
        Instr::Shr { d: 0, a: 0, b: 0 },
        Instr::Eq { d: 0, a: 0, b: 0 },
        Instr::LtU { d: 0, a: 0, b: 0 },
        Instr::GtU { d: 0, a: 0, b: 0 },
        Instr::Push { a: 0 },
        Instr::Pop { d: 0 },
        Instr::MLoad { d: 0, a: 0 },
        Instr::MStore { a: 0, b: 0 },
        Instr::Jmp { target: 0 },
        Instr::Jz { a: 0, target: 0 },
        Instr::Jnz { a: 0, target: 0 },
        Instr::Call { target: 0 },
        Instr::Ret,
        Instr::SLoad { d: 0, a: 0 },
        Instr::SStore { a: 0, b: 0 },
        Instr::Send { a: 0, b: 0, c: 0 },
        Instr::Emit { a: 0, b: 0, c: 0 },
        Instr::Hash { a: 0, b: 0, c: 0 },
        Instr::VerifyMl { a: 0, b: 0, c: 0 },
        Instr::VerifySlh { a: 0, b: 0, c: 0 },
        Instr::MerkleVerify { a: 0, b: 0, c: 0 },
        Instr::Kem { a: 0, b: 0, c: 0 },
        Instr::Addr { a: 0, b: 0, c: 0 },
    ]
}

fn every_opcode() -> Vec<OpCode> {
    every_instr().iter().map(Instr::opcode).collect()
}

#[test]
fn the_free_instruction_check_walks_every_instruction_in_the_isa() {
    let listed = every_opcode();
    assert_eq!(
        listed.len(),
        44,
        "every_opcode no longer matches the instruction set, so only_halt_is_free is \
         walking a partial list and a new free instruction would go unnoticed"
    );
    let mut bytes: Vec<u8> = listed.iter().map(|op| op.to_byte()).collect();
    bytes.sort();
    bytes.dedup();
    assert_eq!(bytes.len(), 44);
    let defined = (0..=255u8).filter(|b| OpCode::from_byte(*b).is_some()).count();
    assert_eq!(defined, 44);
}

#[test]
fn meter_only_halt_is_free() {
    for op in every_opcode() {
        if op == OpCode::Halt {
            assert_eq!(cost(op), 0);
        } else {
            assert!(cost(op) >= 1, "{op:?} must charge at least one meter");
        }
    }
}

#[test]
fn variable_charges_count_absorbed_blocks() {
    assert_eq!(hash_variable(0), HASH_BLOCK);
    assert_eq!(hash_variable(KECCAK_RATE - 1), HASH_BLOCK);
    assert_eq!(hash_variable(KECCAK_RATE), 2 * HASH_BLOCK);
    assert_eq!(hash_variable(40000), (40000 / 136 + 1) * 40);
    assert_eq!(message_variable(30), VERIFY_MESSAGE_BLOCK);
    assert_eq!(message_variable(272), 3 * VERIFY_MESSAGE_BLOCK);
    assert_eq!(merkle_variable(64), 2 * MERKLE_LEVEL);
    assert_eq!(merkle_variable(63), MERKLE_LEVEL);
    assert_eq!(hash_variable(u64::MAX), (u64::MAX / 136 + 1) * 40);
}

#[test]
fn a_longer_hash_never_costs_less() {
    let mut last = 0;
    for len in (0..5000u64).step_by(17) {
        let c = hash_variable(len);
        assert!(c >= last);
        last = c;
    }
}

#[test]
fn meter_schedule_values() {
    assert_eq!(cost(OpCode::Ldi), 1);
    assert_eq!(cost(OpCode::DivW), 8);
    assert_eq!(cost(OpCode::Addr), 4000);
    assert_eq!(cost(OpCode::VerifySlh), 160_000);
}
