use ml_dsa::{MlDsa65, SigningKey as MlSigningKey};
use ml_kem::{DecapsulationKey768, KeyExport as _};
use qtv_vm::abi::scalar_key;
use qtv_vm::assembler::assemble;
use qtv_vm::container::{selector, Container, Entry, StateAccess, SELECTOR_BYTES};
use qtv_vm::crypto;
use qtv_vm::interp::{Effect, Fault, Interpreter};
use qtv_vm::isa::{DecodeError, Instr, OpCode};
use qtv_vm::meter;
use qtv_vm::primitives::{ML_DSA_PUBLIC_KEY_BYTES, ML_DSA_SIGNATURE_BYTES};
use qtv_vm::storage::{Storage, STORAGE_KEY_BYTES};
use sha3::{Digest, Sha3_256};
use slh_dsa::{Shake192f, SigningKey as SlhSigningKey};

fn sha3_256(data: &[u8]) -> [u8; 32] {
    Sha3_256::digest(data).into()
}

fn ml_keygen(seed: u8) -> (Vec<u8>, MlSigningKey<MlDsa65>) {
    let sk = MlSigningKey::<MlDsa65>::from_seed(&ml_dsa::B32::from([seed; 32]));
    let pk = sk.expanded_key().verifying_key().encode().to_vec();
    (pk, sk)
}

fn ml_sign(sk: &MlSigningKey<MlDsa65>, msg: &[u8]) -> Vec<u8> {
    sk.expanded_key().sign_deterministic(msg, &[]).expect("sign").encode().to_vec()
}

fn slh_keygen() -> (SlhSigningKey<Shake192f>, Vec<u8>) {
    let sk = SlhSigningKey::<Shake192f>::slh_keygen_internal(&[1u8; 24], &[2u8; 24], &[3u8; 24]);
    let vk: &slh_dsa::VerifyingKey<Shake192f> = sk.as_ref();
    let pk = vk.to_bytes().to_vec();
    (sk, pk)
}

fn slh_sign(sk: &SlhSigningKey<Shake192f>, msg: &[u8]) -> Vec<u8> {
    sk.try_sign_with_context(msg, &[], Some(&[4u8; 24])).expect("sign").to_bytes().to_vec()
}

fn kem_ek() -> Vec<u8> {
    let mut seed = [4u8; 64];
    seed[32..].copy_from_slice(&[5u8; 32]);
    let dk = DecapsulationKey768::from_seed(ml_kem::Seed::from(seed));
    dk.encapsulation_key().to_bytes().to_vec()
}

fn program(instrs: &[Instr]) -> Vec<u8> {
    let mut code = Vec::new();
    for i in instrs {
        i.encode(&mut code);
    }
    code
}

#[test]
fn halts_cleanly() {
    let code = program(&[Instr::Nop, Instr::Halt]);
    let out = Interpreter::new(&code, &[], 100).run().expect("halt");
    assert_eq!(out.meter_used, 1);
}

#[test]
fn missing_halt_faults() {
    let code = program(&[Instr::Nop]);
    let err = Interpreter::new(&code, &[], 100).run().unwrap_err();
    assert_eq!(err, Fault::Decode(DecodeError::Truncated));
}

#[test]
fn computes_value_and_reports_meter() {
    let code = program(&[
        Instr::Ldi { d: 0, imm: 5 },
        Instr::Ldi { d: 1, imm: 7 },
        Instr::Add { d: 2, a: 0, b: 1 },
        Instr::Halt,
    ]);
    let out = Interpreter::new(&code, &[], 100).run().expect("halt");
    assert_eq!(out.regs[2], 12);
    assert_eq!(out.meter_used, 1 + 1 + 2);
}

#[test]
fn mulhi_gives_the_high_half() {
    let code = program(&[
        Instr::Ldi { d: 0, imm: 1u64 << 32 },
        Instr::Ldi { d: 1, imm: 1u64 << 32 },
        Instr::MulHi { d: 2, a: 0, b: 1 },
        Instr::MulW { d: 3, a: 0, b: 1 },
        Instr::Halt,
    ]);
    let out = Interpreter::new(&code, &[], 100).run().expect("halt");
    assert_eq!(out.regs[2], 1);
    assert_eq!(out.regs[3], 0);
}

#[test]
fn loads_from_constant_pool() {
    let code = program(&[Instr::Ldc { d: 0, idx: 1 }, Instr::Halt]);
    let out = Interpreter::new(&code, &[10, 20], 100).run().expect("halt");
    assert_eq!(out.regs[0], 20);
}

#[test]
fn overflow_faults() {
    let code = program(&[
        Instr::Ldi {
            d: 0,
            imm: u64::MAX,
        },
        Instr::Ldi { d: 1, imm: 1 },
        Instr::Add { d: 2, a: 0, b: 1 },
        Instr::Halt,
    ]);
    assert_eq!(
        Interpreter::new(&code, &[], 100).run(),
        Err(Fault::Overflow)
    );
}

#[test]
fn divide_by_zero_faults() {
    let code = program(&[
        Instr::Ldi { d: 0, imm: 10 },
        Instr::Ldi { d: 1, imm: 0 },
        Instr::Div { d: 2, a: 0, b: 1 },
        Instr::Halt,
    ]);
    assert_eq!(
        Interpreter::new(&code, &[], 100).run(),
        Err(Fault::DivByZero)
    );
}

#[test]
fn wrapping_add_wraps() {
    let code = program(&[
        Instr::Ldi {
            d: 0,
            imm: u64::MAX,
        },
        Instr::Ldi { d: 1, imm: 1 },
        Instr::AddW { d: 2, a: 0, b: 1 },
        Instr::Halt,
    ]);
    let out = Interpreter::new(&code, &[], 100).run().expect("halt");
    assert_eq!(out.regs[2], 0);
}

#[test]
fn logic_and_shift() {
    let code = program(&[
        Instr::Ldi { d: 0, imm: 0b1100 },
        Instr::Ldi { d: 1, imm: 0b1010 },
        Instr::And { d: 2, a: 0, b: 1 },
        Instr::Or { d: 3, a: 0, b: 1 },
        Instr::Xor { d: 4, a: 0, b: 1 },
        Instr::Ldi { d: 5, imm: 2 },
        Instr::Shl { d: 6, a: 0, b: 5 },
        Instr::Shr { d: 7, a: 0, b: 5 },
        Instr::Halt,
    ]);
    let out = Interpreter::new(&code, &[], 100).run().expect("halt");
    assert_eq!(out.regs[2], 0b1000);
    assert_eq!(out.regs[3], 0b1110);
    assert_eq!(out.regs[4], 0b0110);
    assert_eq!(out.regs[6], 0b110000);
    assert_eq!(out.regs[7], 0b11);
}

#[test]
fn shift_amount_is_masked() {
    let code = program(&[
        Instr::Ldi { d: 0, imm: 1 },
        Instr::Ldi { d: 1, imm: 64 },
        Instr::Shl { d: 2, a: 0, b: 1 },
        Instr::Halt,
    ]);
    let out = Interpreter::new(&code, &[], 100).run().expect("halt");
    assert_eq!(out.regs[2], 1);
}

#[test]
fn compare_produces_flags() {
    let code = program(&[
        Instr::Ldi { d: 0, imm: 3 },
        Instr::Ldi { d: 1, imm: 9 },
        Instr::Eq { d: 2, a: 0, b: 1 },
        Instr::LtU { d: 3, a: 0, b: 1 },
        Instr::GtU { d: 4, a: 0, b: 1 },
        Instr::Halt,
    ]);
    let out = Interpreter::new(&code, &[], 100).run().expect("halt");
    assert_eq!(out.regs[2], 0);
    assert_eq!(out.regs[3], 1);
    assert_eq!(out.regs[4], 0);
}

#[test]
fn stack_push_pop() {
    let code = program(&[
        Instr::Ldi { d: 0, imm: 77 },
        Instr::Push { a: 0 },
        Instr::Pop { d: 1 },
        Instr::Halt,
    ]);
    let out = Interpreter::new(&code, &[], 100).run().expect("halt");
    assert_eq!(out.regs[1], 77);
}

#[test]
fn pop_empty_faults() {
    let code = program(&[Instr::Pop { d: 0 }, Instr::Halt]);
    assert_eq!(
        Interpreter::new(&code, &[], 100).run(),
        Err(Fault::StackUnderflow)
    );
}

#[test]
fn memory_store_then_load() {
    let code = program(&[
        Instr::Ldi { d: 0, imm: 16 },
        Instr::Ldi { d: 1, imm: 43981 },
        Instr::MStore { a: 0, b: 1 },
        Instr::MLoad { d: 2, a: 0 },
        Instr::Halt,
    ]);
    let out = Interpreter::new(&code, &[], 100).run().expect("halt");
    assert_eq!(out.regs[2], 43981);
}

#[test]
fn memory_out_of_bounds_faults() {
    let code = program(&[
        Instr::Ldi {
            d: 0,
            imm: u64::MAX,
        },
        Instr::Ldi { d: 1, imm: 1 },
        Instr::MStore { a: 0, b: 1 },
        Instr::Halt,
    ]);
    assert_eq!(
        Interpreter::new(&code, &[], 100).run(),
        Err(Fault::BadMemory)
    );
}

#[test]
fn backward_branch_loop() {
    let code = program(&[
        Instr::Ldi { d: 0, imm: 3 },
        Instr::Ldi { d: 1, imm: 0 },
        Instr::Ldi { d: 2, imm: 1 },
        Instr::SubW { d: 0, a: 0, b: 2 },
        Instr::AddW { d: 1, a: 1, b: 2 },
        Instr::Jnz { a: 0, target: 30 },
        Instr::Halt,
    ]);
    let out = Interpreter::new(&code, &[], 1000).run().expect("halt");
    assert_eq!(out.regs[0], 0);
    assert_eq!(out.regs[1], 3);
}

#[test]
fn call_and_return() {
    let code = program(&[
        Instr::Call { target: 6 },
        Instr::Halt,
        Instr::Ldi { d: 0, imm: 42 },
        Instr::Ret,
    ]);
    let out = Interpreter::new(&code, &[], 1000).run().expect("halt");
    assert_eq!(out.regs[0], 42);
}

#[test]
fn out_of_meter_faults() {
    let code = program(&[Instr::Jmp { target: 0 }]);
    assert_eq!(Interpreter::new(&code, &[], 10).run(), Err(Fault::OutOfMeter));
}

#[test]
fn jump_out_of_range_faults() {
    let code = program(&[Instr::Jmp { target: 9999 }]);
    assert_eq!(Interpreter::new(&code, &[], 100).run(), Err(Fault::BadJump));
}

#[test]
fn storage_store_then_load() {
    let key = scalar_key(7);
    let code = program(&[
        Instr::Ldi { d: 0, imm: 0 },
        Instr::Ldi { d: 1, imm: 99 },
        Instr::SStore { a: 0, b: 1 },
        Instr::SLoad { d: 2, a: 0 },
        Instr::Halt,
    ]);
    let out = Interpreter::new(&code, &[], 2000)
        .with_memory(&key)
        .run()
        .expect("halt");
    assert_eq!(out.regs[2], 99);
    assert_eq!(out.storage.get(&key), Some(&99));
}

#[test]
fn keys_differing_past_the_leading_word_do_not_share_a_slot() {
    let mut a = [7u8; 32];
    let mut b = [7u8; 32];
    a[16] = 1;
    b[16] = 2;
    let mut mem = Vec::new();
    mem.extend_from_slice(&a);
    mem.extend_from_slice(&b);
    let code = program(&[
        Instr::Ldi { d: 0, imm: 0 },
        Instr::Ldi { d: 1, imm: 100 },
        Instr::SStore { a: 0, b: 1 },
        Instr::Ldi { d: 2, imm: 32 },
        Instr::Ldi { d: 3, imm: 200 },
        Instr::SStore { a: 2, b: 3 },
        Instr::Halt,
    ]);
    let out = Interpreter::new(&code, &[], 4000)
        .with_memory(&mem)
        .run()
        .expect("halt");
    assert_eq!(out.storage.get(&a), Some(&100));
    assert_eq!(out.storage.get(&b), Some(&200));
    assert_eq!(out.storage.len(), 2, "the two keys are distinct slots");
}

#[test]
fn fault_rolls_back_storage() {
    let key = scalar_key(5);
    let mut persistent = Storage::new();
    persistent.insert(key, 1);
    let code = program(&[
        Instr::Ldi { d: 0, imm: 0 },
        Instr::Ldi { d: 1, imm: 123 },
        Instr::SStore { a: 0, b: 1 },
        Instr::Ldi {
            d: 2,
            imm: u64::MAX,
        },
        Instr::Ldi { d: 3, imm: 1 },
        Instr::Add { d: 4, a: 2, b: 3 },
        Instr::Halt,
    ]);
    let res = Interpreter::new(&code, &[], 2000)
        .with_storage(persistent.clone())
        .with_memory(&key)
        .run();
    assert_eq!(res, Err(Fault::Overflow));
    assert_eq!(persistent.get(&key), Some(&1));
}

#[test]
fn send_records_transfer_effect() {
    let account = [171u8; 32];
    let code = assemble("LDI r0, 0\nLDI r1, 32\nLDI r2, 1000\nSEND r0, r1, r2\nHALT")
        .expect("assemble");
    let out = Interpreter::new(&code, &[], 1000)
        .with_memory(&account)
        .run()
        .expect("halt");
    assert_eq!(
        out.effects,
        vec![Effect::Transfer {
            to: account.to_vec(),
            amount: 1000,
        }]
    );
    assert_eq!(
        out.meter_used,
        3 * meter::cost(OpCode::Ldi)
            + meter::cost(OpCode::Send)
            + 32 * meter::EFFECT_BYTE
            + meter::cost(OpCode::Halt)
    );
}

#[test]
fn send_out_of_bounds_target_faults() {
    let code = program(&[
        Instr::Ldi {
            d: 0,
            imm: u64::MAX,
        },
        Instr::Ldi { d: 1, imm: 32 },
        Instr::Ldi { d: 2, imm: 1 },
        Instr::Send { a: 0, b: 1, c: 2 },
        Instr::Halt,
    ]);
    assert_eq!(
        Interpreter::new(&code, &[], 1000).run(),
        Err(Fault::BadMemory)
    );
}

#[test]
fn clean_run_records_no_effects() {
    let code = program(&[Instr::Ldi { d: 0, imm: 1 }, Instr::Halt]);
    let out = Interpreter::new(&code, &[], 100).run().expect("halt");
    assert!(out.effects.is_empty());
}

#[test]
fn emit_records_event_effect() {
    let payload = [7u8; 16];
    let selector: u32 = 2882343476;
    let code = assemble(&format!(
        "LDI r0, 0\nLDI r1, 16\nLDI r2, {selector}\nEMIT r0, r1, r2\nHALT"
    ))
    .expect("assemble");
    let out = Interpreter::new(&code, &[], 1000)
        .with_memory(&payload)
        .run()
        .expect("halt");
    assert_eq!(
        out.effects,
        vec![Effect::Event {
            selector: selector.to_be_bytes(),
            data: payload.to_vec(),
        }]
    );
}

#[test]
fn emit_out_of_bounds_payload_faults() {
    let code = program(&[
        Instr::Ldi {
            d: 0,
            imm: u64::MAX,
        },
        Instr::Ldi { d: 1, imm: 16 },
        Instr::Ldi { d: 2, imm: 1 },
        Instr::Emit { a: 0, b: 1, c: 2 },
        Instr::Halt,
    ]);
    assert_eq!(
        Interpreter::new(&code, &[], 1000).run(),
        Err(Fault::BadMemory)
    );
}

#[test]
fn emit_charges_per_byte_and_a_small_event_is_priced_sanely() {
    let payload = [9u8; 64];
    let code = assemble("LDI r0, 0\nLDI r1, 64\nLDI r2, 1\nEMIT r0, r1, r2\nHALT")
        .expect("assemble");
    let out = Interpreter::new(&code, &[], 10_000)
        .with_memory(&payload)
        .run()
        .expect("halt");
    assert_eq!(out.effects.len(), 1);
    assert_eq!(
        out.meter_used,
        3 * meter::cost(OpCode::Ldi)
            + meter::cost(OpCode::Emit)
            + 64 * meter::EFFECT_BYTE
            + meter::cost(OpCode::Halt)
    );
}

#[test]
fn emit_loop_over_full_memory_faults_at_the_effects_cap() {
    let code = assemble(
        "LDI r0, 0\nLDI r1, 65536\nLDI r2, 1\nloop:\nEMIT r0, r1, r2\nJMP loop\nHALT",
    )
    .expect("assemble");
    let res = Interpreter::new(&code, &[], u64::MAX).run();
    assert_eq!(res, Err(Fault::EffectsTooLarge));
}

#[test]
fn emit_loop_runs_out_of_meter_at_the_proportional_cost() {
    let code = assemble(
        "LDI r0, 0\nLDI r1, 65536\nLDI r2, 1\nloop:\nEMIT r0, r1, r2\nJMP loop\nHALT",
    )
    .expect("assemble");
    let res = Interpreter::new(&code, &[], 500_000).run();
    assert_eq!(res, Err(Fault::OutOfMeter));
}

#[test]
fn an_over_cap_emit_surfaces_no_effects_and_rolls_back_state() {
    let key = scalar_key(5);
    let mut persistent = Storage::new();
    persistent.insert(key, 1);
    let code = assemble(
        "LDI r0, 0\nLDI r1, 123\nSSTORE r0, r1\nLDI r2, 65536\nLDI r3, 1\nloop:\nEMIT r0, r2, r3\nJMP loop\nHALT",
    )
    .expect("assemble");
    let res = Interpreter::new(&code, &[], u64::MAX)
        .with_storage(persistent.clone())
        .with_memory(&key)
        .run();
    assert_eq!(res, Err(Fault::EffectsTooLarge));
    assert_eq!(persistent.get(&key), Some(&1));
}

#[test]
fn send_charges_per_byte_and_is_bounded_by_the_effects_cap() {
    let code = assemble(
        "LDI r0, 0\nLDI r1, 65536\nLDI r2, 1\nloop:\nSEND r0, r1, r2\nJMP loop\nHALT",
    )
    .expect("assemble");
    let res = Interpreter::new(&code, &[], u64::MAX).run();
    assert_eq!(res, Err(Fault::EffectsTooLarge));
}

#[test]
fn hash_opcode_runs_metered() {
    let word: u64 = 72623859790382856;
    let code = program(&[
        Instr::Ldi { d: 0, imm: 0 },
        Instr::Ldi { d: 1, imm: word },
        Instr::MStore { a: 0, b: 1 },
        Instr::Ldi { d: 3, imm: 8 },
        Instr::Ldi { d: 4, imm: 64 },
        Instr::Hash { a: 0, b: 3, c: 4 },
        Instr::MLoad { d: 5, a: 4 },
        Instr::Halt,
    ]);
    let out = Interpreter::new(&code, &[], 1000).run().expect("halt");
    let digest = sha3_256(&word.to_be_bytes());
    let first = u64::from_be_bytes(digest[..8].try_into().unwrap());
    assert_eq!(out.regs[5], first);
    assert_eq!(
        out.meter_used,
        1 + 1 + 3 + 1 + 1 + meter::cost(OpCode::Hash) + meter::hash_variable(8) + 3
    );
}

#[test]
fn hand_assembled_hash_and_verify_runs_metered() {
    let (pk, sk) = ml_keygen(9);
    let message = b"quantova hand assembled milestone";
    let signature = ml_sign(&sk, message);

    let mut region = Vec::new();
    region.extend_from_slice(&pk);
    region.extend_from_slice(&signature);
    region.extend_from_slice(message);

    let msg_off = ML_DSA_PUBLIC_KEY_BYTES + ML_DSA_SIGNATURE_BYTES;
    let msg_len = message.len();
    let region_len = region.len();
    let digest_off = 32768;

    let src = format!(
        "LDI r0, {msg_off}\n\
         LDI r1, {msg_len}\n\
         LDI r2, {digest_off}\n\
         HASH r0, r1, r2\n\
         MLOAD r6, r2\n\
         LDI r3, 0\n\
         LDI r4, {region_len}\n\
         VERIFYML r3, r4, r5\n\
         HALT"
    );
    let code = assemble(&src).expect("assemble");
    let out = Interpreter::new(&code, &[], 100_000)
        .with_memory(&region)
        .run()
        .expect("halt");

    assert_eq!(out.regs[5], 1, "signature must verify");
    let digest = sha3_256(message);
    let first = u64::from_be_bytes(digest[..8].try_into().unwrap());
    assert_eq!(out.regs[6], first, "hash must match the crypto crate");
    let expected = 5 * meter::cost(OpCode::Ldi)
        + meter::cost(OpCode::Hash)
        + meter::hash_variable(msg_len as u64)
        + meter::cost(OpCode::MLoad)
        + meter::cost(OpCode::VerifyMl)
        + meter::message_variable(msg_len as u64)
        + meter::cost(OpCode::Halt);
    assert_eq!(out.meter_used, expected);
}

fn run_verify(mnemonic: &str, region: &[u8]) -> (u64, u64) {
    let src = format!(
        "LDI r0, 0\nLDI r1, {}\n{} r0, r1, r2\nHALT",
        region.len(),
        mnemonic
    );
    let code = assemble(&src).expect("assemble");
    let out = Interpreter::new(&code, &[], 200_000)
        .with_memory(region)
        .run()
        .expect("halt");
    (out.regs[2], out.meter_used)
}

fn verify_meter(op: OpCode, variable: u64) -> u64 {
    2 * meter::cost(OpCode::Ldi)
        + meter::cost(op)
        + variable
        + meter::cost(OpCode::Halt)
}

fn merkle_leaf(data: &[u8; 32]) -> [u8; 32] {
    let mut buf = [0u8; 33];
    buf[0] = 0x00;
    buf[1..].copy_from_slice(data);
    sha3_256(&buf)
}

fn merkle_node(left: &[u8; 32], right: &[u8; 32]) -> [u8; 32] {
    let mut buf = [0u8; 65];
    buf[0] = 0x01;
    buf[1..33].copy_from_slice(left);
    buf[33..].copy_from_slice(right);
    sha3_256(&buf)
}

#[test]
fn slh_verify_opcode_runs_metered() {
    let (sk, pk) = slh_keygen();
    let message = b"quantova slh metered";
    let sig = slh_sign(&sk, message);
    let mut region = Vec::new();
    region.extend_from_slice(&pk);
    region.extend_from_slice(&sig);
    region.extend_from_slice(message);
    let (result, meter) = run_verify("VERIFYSLH", &region);
    assert_eq!(result, 1);
    assert_eq!(
        meter,
        verify_meter(
            OpCode::VerifySlh,
            meter::message_variable(message.len() as u64)
        )
    );
}

#[test]
fn merkle_verify_opcode_runs_metered() {
    let data: Vec<[u8; 32]> = (0..4u8).map(|i| sha3_256(&[i])).collect();
    let tagged: Vec<[u8; 32]> = data.iter().map(merkle_leaf).collect();
    let p01 = merkle_node(&tagged[0], &tagged[1]);
    let p23 = merkle_node(&tagged[2], &tagged[3]);
    let root = merkle_node(&p01, &p23);
    let index: u64 = 2;
    let mut region = Vec::new();
    region.extend_from_slice(&root);
    region.extend_from_slice(&index.to_be_bytes());
    region.extend_from_slice(&data[2]);
    region.extend_from_slice(&tagged[3]);
    region.extend_from_slice(&p01);
    let path_bytes = (region.len() as u64) - crypto::MERKLE_HEADER;
    let (result, meter) = run_verify("MERKLEVERIFY", &region);
    assert_eq!(result, 1);
    assert_eq!(
        meter,
        verify_meter(OpCode::MerkleVerify, meter::merkle_variable(path_bytes))
    );
}

#[test]
fn a_hash_scales_with_the_length_it_absorbs() {
    let short = assemble("LDI r0, 0\nLDI r1, 8\nLDI r2, 40000\nHASH r0, r1, r2\nHALT")
        .expect("assemble");
    let long = assemble("LDI r0, 0\nLDI r1, 40000\nLDI r2, 40000\nHASH r0, r1, r2\nHALT")
        .expect("assemble");
    let short_meter = Interpreter::new(&short, &[], 1_000_000)
        .run()
        .expect("halt")
        .meter_used;
    let long_meter = Interpreter::new(&long, &[], 1_000_000)
        .run()
        .expect("halt")
        .meter_used;
    assert_eq!(
        long_meter - short_meter,
        meter::hash_variable(40000) - meter::hash_variable(8)
    );
    assert!(long_meter > short_meter);
}

#[test]
fn a_hash_loop_over_full_memory_runs_out_of_meter() {
    let code = assemble(
        "LDI r0, 0\nLDI r1, 65536\nLDI r2, 0\nloop:\nHASH r0, r1, r2\nJMP loop\nHALT",
    )
    .expect("assemble");
    let res = Interpreter::new(&code, &[], 500_000).run();
    assert_eq!(res, Err(Fault::OutOfMeter));
}

#[test]
fn a_dispatched_entry_may_only_write_declared_slots() {
    let code = assemble("LDI r0, 0\nLDI r1, 55\nSSTORE r0, r1\nHALT").expect("assemble");
    let sel = selector("store()");
    let container = Container::new(
        code,
        vec![],
        vec![Entry {
            selector: sel,
            offset: 0,
            access: StateAccess {
                reads: vec![],
                writes: vec![7],
                ..Default::default()
            },
        }],
    );
    let key7 = scalar_key(7);
    let out = Interpreter::for_entry(&container, sel, 5000)
        .expect("entry")
        .with_memory(&key7)
        .run()
        .expect("halt");
    assert_eq!(out.storage.get(&key7), Some(&55));

    let key8 = scalar_key(8);
    let res = Interpreter::for_entry(&container, sel, 5000)
        .expect("entry")
        .with_memory(&key8)
        .run();
    assert_eq!(res, Err(Fault::UndeclaredSlot));
}

#[test]
fn a_declared_map_base_authorises_its_whole_keyspace() {
    let base: u64 = 1 << 40;
    let mut mem = Vec::new();
    mem.extend_from_slice(&base.to_be_bytes());
    mem.extend_from_slice(&0x00AB_CDEFu64.to_be_bytes());
    let want = sha3_256(&mem);
    let code = assemble(
        "LDI r0, 0\nLDI r1, 16\nLDI r2, 64\nHASH r0, r1, r2\nLDI r3, 64\nLDI r4, 99\nSSTORE r3, r4\nHALT",
    )
    .expect("assemble");
    let sel = selector("credit()");
    let container = Container::new(
        code,
        vec![],
        vec![Entry {
            selector: sel,
            offset: 0,
            access: StateAccess {
                keyed_writes: vec![base],
                ..Default::default()
            },
        }],
    );
    let out = Interpreter::for_entry(&container, sel, 50_000)
        .expect("entry")
        .with_memory(&mem)
        .run()
        .expect("halt");
    let mut key = [0u8; STORAGE_KEY_BYTES];
    key.copy_from_slice(&want);
    assert_eq!(
        out.storage.get(&key),
        Some(&99),
        "a declared map base authorises writing that map at any key"
    );
}

#[test]
fn an_undeclared_map_still_faults_on_a_keyed_write() {
    let written: u64 = 1 << 40;
    let declared: u64 = (1 << 40) + (1 << 32);
    let mut mem = Vec::new();
    mem.extend_from_slice(&written.to_be_bytes());
    mem.extend_from_slice(&0x00AB_CDEFu64.to_be_bytes());
    let code = assemble(
        "LDI r0, 0\nLDI r1, 16\nLDI r2, 64\nHASH r0, r1, r2\nLDI r3, 64\nLDI r4, 99\nSSTORE r3, r4\nHALT",
    )
    .expect("assemble");
    let sel = selector("credit()");
    let container = Container::new(
        code,
        vec![],
        vec![Entry {
            selector: sel,
            offset: 0,
            access: StateAccess {
                keyed_writes: vec![declared],
                ..Default::default()
            },
        }],
    );
    let res = Interpreter::for_entry(&container, sel, 50_000)
        .expect("entry")
        .with_memory(&mem)
        .run();
    assert_eq!(
        res,
        Err(Fault::UndeclaredSlot),
        "writing a map the entry did not declare must still fault"
    );
}

#[test]
fn a_dispatched_entry_may_only_read_declared_slots() {
    let code = assemble("LDI r0, 0\nSLOAD r2, r0\nHALT").expect("assemble");
    let sel = selector("look()");
    let container = Container::new(
        code,
        vec![],
        vec![Entry {
            selector: sel,
            offset: 0,
            access: StateAccess {
                reads: vec![7],
                writes: vec![],
                ..Default::default()
            },
        }],
    );
    let key7 = scalar_key(7);
    Interpreter::for_entry(&container, sel, 5000)
        .expect("entry")
        .with_memory(&key7)
        .run()
        .expect("halt");

    let key8 = scalar_key(8);
    let res = Interpreter::for_entry(&container, sel, 5000)
        .expect("entry")
        .with_memory(&key8)
        .run();
    assert_eq!(res, Err(Fault::UndeclaredSlot));
}

#[test]
fn a_computed_jump_off_a_boundary_faults_under_dispatch() {
    let code = assemble("LDI r0, 3\nPUSH r0\nRET").expect("assemble");
    let sel = selector("jump()");
    let container = Container::new(
        code,
        vec![],
        vec![Entry {
            selector: sel,
            offset: 0,
            access: StateAccess::default(),
        }],
    );
    let res = Interpreter::for_entry(&container, sel, 5000).expect("entry").run();
    assert_eq!(res, Err(Fault::BadJump));
}

#[test]
fn a_call_and_return_between_boundaries_still_runs_under_dispatch() {
    let code = assemble("CALL fn\nHALT\nfn:\nLDI r0, 9\nRET").expect("assemble");
    let sel = selector("go()");
    let container = Container::new(
        code,
        vec![],
        vec![Entry {
            selector: sel,
            offset: 0,
            access: StateAccess::default(),
        }],
    );
    let out = Interpreter::for_entry(&container, sel, 5000)
        .expect("entry")
        .run()
        .expect("halt");
    assert_eq!(out.regs[0], 9);
}

#[test]
fn kem_opcode_runs_metered() {
    let ek = kem_ek();
    let msg = [6u8; 32];
    let mut region = Vec::new();
    region.extend_from_slice(&ek);
    region.extend_from_slice(&msg);
    let src = format!(
        "LDI r0, 0\nLDI r1, {}\nLDI r2, 8192\nKEM r0, r1, r2\nMLOAD r3, r2\nHALT",
        region.len()
    );
    let code = assemble(&src).expect("assemble");
    let out = Interpreter::new(&code, &[], 100_000)
        .with_memory(&region)
        .run()
        .expect("halt");
    let key = ml_kem::EncapsulationKey768::new(&ml_kem::array::Array::try_from(&ek[..]).unwrap()).unwrap();
    let (_ct, want_ss) = key.encapsulate_deterministic(&ml_kem::B32::from(msg));
    let first = u64::from_be_bytes(want_ss[..8].try_into().unwrap());
    assert_eq!(out.regs[3], first);
    let expected = 3 * meter::cost(OpCode::Ldi)
        + meter::cost(OpCode::Kem)
        + meter::cost(OpCode::MLoad)
        + meter::cost(OpCode::Halt);
    assert_eq!(out.meter_used, expected);
}

#[test]
fn addr_opcode_derives_the_account_address_metered() {

    let (pk, _sk) = ml_keygen(5);
    let out_off = 40000u64;
    let src = format!(
        "LDI r0, 0\nLDI r1, {}\nLDI r2, {out_off}\nADDR r0, r1, r2\nMLOAD r3, r2\nHALT",
        crypto::SCHEME_ML_DSA
    );
    let code = assemble(&src).expect("assemble");
    let out = Interpreter::new(&code, &[], 100_000)
        .with_memory(&pk)
        .run()
        .expect("halt");

    let mut preimage = vec![crypto::SCHEME_ML_DSA as u8];
    preimage.extend_from_slice(&pk);
    let want = sha3_256(&preimage);
    let first = u64::from_be_bytes(want[..8].try_into().unwrap());
    assert_eq!(out.regs[3], first, "address matches the account model digest");
    let expected = 3 * meter::cost(OpCode::Ldi)
        + meter::cost(OpCode::Addr)
        + meter::cost(OpCode::MLoad)
        + meter::cost(OpCode::Halt);
    assert_eq!(out.meter_used, expected);
}

#[test]
fn out_of_meter_rolls_back_storage() {
    let key = scalar_key(5);
    let mut persistent = Storage::new();
    persistent.insert(key, 1);
    let code = program(&[
        Instr::Ldi { d: 0, imm: 0 },
        Instr::Ldi { d: 1, imm: 123 },
        Instr::SStore { a: 0, b: 1 },
        Instr::Jmp { target: 23 },
    ]);
    let res = Interpreter::new(&code, &[], 520)
        .with_storage(persistent.clone())
        .with_memory(&key)
        .run();
    assert_eq!(res, Err(Fault::OutOfMeter));
    assert_eq!(persistent.get(&key), Some(&1));
}

fn two_entry_container() -> (
    Container,
    [u8; SELECTOR_BYTES],
    [u8; SELECTOR_BYTES],
) {
    let first = program(&[Instr::Ldi { d: 0, imm: 111 }, Instr::Halt]);
    let second = program(&[Instr::Ldi { d: 0, imm: 222 }, Instr::Halt]);
    let offset = first.len() as u32;
    let mut code = first;
    code.extend_from_slice(&second);
    let alpha = selector("alpha()");
    let beta = selector("beta()");
    let container = Container::new(
        code,
        vec![],
        vec![
            Entry {
                selector: alpha,
                offset: 0,
                access: StateAccess::default(),
            },
            Entry {
                selector: beta,
                offset,
                access: StateAccess::default(),
            },
        ],
    );
    (container, alpha, beta)
}

#[test]
fn dispatch_enters_entry_named_by_selector() {
    let (container, alpha, beta) = two_entry_container();
    let a = Interpreter::for_entry(&container, alpha, 1000)
        .expect("known selector")
        .run()
        .expect("halt");
    assert_eq!(a.regs[0], 111);
    let b = Interpreter::for_entry(&container, beta, 1000)
        .expect("known selector")
        .run()
        .expect("halt");
    assert_eq!(b.regs[0], 222);
    assert_eq!(
        b.meter_used,
        meter::DISPATCH + meter::cost(OpCode::Ldi) + meter::cost(OpCode::Halt)
    );
}

#[test]
fn unknown_selector_reverts() {
        let (container, _alpha, _beta) = two_entry_container();
    let res = Interpreter::for_entry(&container, selector("missing()"), 1000);
    assert!(matches!(res, Err(Fault::UnknownSelector)));
}

#[test]
fn dispatch_over_the_limit_runs_out_of_meter() {
    let (container, alpha, _beta) = two_entry_container();
    let res = Interpreter::for_entry(&container, alpha, meter::DISPATCH - 1);
    assert!(matches!(res, Err(Fault::OutOfMeter)));
}

#[test]
fn single_entry_path_enters_at_offset_zero() {
    let code = program(&[Instr::Ldi { d: 0, imm: 7 }, Instr::Halt]);
    let out = Interpreter::new(&code, &[], 100).run().expect("halt");
    assert_eq!(out.regs[0], 7);
}
