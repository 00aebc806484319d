use sha3::Digest as _;
use qtv_vm::abi::scalar_key;
use qtv_vm::assembler::assemble;
use qtv_vm::container::{selector, Container, Entry, StateAccess};
use qtv_vm::interp::{Fault, Interpreter};
use qtv_vm::isa::{decode, Instr};
use qtv_vm::storage::Storage;

#[test]
fn a_run_halts_exactly_at_its_meter_limit_and_not_one_below() {
    let code = assemble("LDI r0, 5\nLDI r1, 7\nADD r2, r0, r1\nHALT").expect("assemble");
    let out = Interpreter::new(&code, &[], 4).run().expect("halt");
    assert_eq!(out.meter_used, 4);
    assert_eq!(Interpreter::new(&code, &[], 3).run(), Err(Fault::OutOfMeter));
}

#[test]
fn an_entry_without_keyed_writes_leaves_undeclared_slots_alone() {
    let code = assemble("LDI r0, 0\nLDI r1, 55\nSSTORE r0, r1\nHALT").expect("assemble");
    let sel = selector("store()");
    let container = Container::new(
        code,
        vec![],
        vec![Entry {
            selector: sel,
            offset: 0,
            access: StateAccess { writes: vec![7], ..Default::default() },
        }],
    );
    let key7 = scalar_key(7);
    let key9 = scalar_key(9);
    let mut storage = Storage::new();
    storage.insert(key9, 4);
    let out = Interpreter::for_entry(&container, sel, 5000)
        .expect("entry")
        .with_storage(storage)
        .with_memory(&key7)
        .run()
        .expect("halt");
    assert_eq!(out.storage.get(&key7), Some(&55));
    assert_eq!(out.storage.get(&key9), Some(&4));
    assert_eq!(out.storage.len(), 2);
}

#[test]
fn a_verified_container_dispatches_at_each_entry() {
    let code = assemble("LDI r0, 1\nHALT\nsecond:\nLDI r0, 2\nHALT").expect("assemble");
    let container = Container::new(
        code,
        vec![],
        vec![
            Entry { selector: selector("a()"), offset: 0, access: StateAccess::default() },
            Entry { selector: selector("b()"), offset: 11, access: StateAccess::default() },
        ],
    );
    assert_eq!(container.verify(), Ok(()));
    let a = Interpreter::for_entry(&container, selector("a()"), 100).expect("a").run().expect("halt");
    let b = Interpreter::for_entry(&container, selector("b()"), 100).expect("b").run().expect("halt");
    assert_eq!(a.regs[0], 1);
    assert_eq!(b.regs[0], 2);
}

#[test]
fn assembled_code_decodes_back_to_its_instructions() {
    let code = assemble("top:\nLDC r3, 9\nMULHI r1, r2, r3\nJZ r1, top\nEMIT r0, r1, r2\nHALT")
        .expect("assemble");
    let want = [
        Instr::Ldc { d: 3, idx: 9 },
        Instr::MulHi { d: 1, a: 2, b: 3 },
        Instr::Jz { a: 1, target: 0 },
        Instr::Emit { a: 0, b: 1, c: 2 },
        Instr::Halt,
    ];
    let mut pc = 0usize;
    for instr in want {
        let (got, used) = decode(&code, pc).expect("decode");
        assert_eq!(got, instr);
        pc += used;
    }
    assert_eq!(pc, code.len());
}

#[test]
fn the_same_run_twice_gives_the_same_outcome() {
    let code = assemble("LDI r0, 0\nLDI r1, 32\nHASH r0, r1, r1\nMLOAD r2, r1\nHALT").expect("assemble");
    let a = Interpreter::new(&code, &[], 10_000).with_memory(&[7u8; 32]).run();
    let b = Interpreter::new(&code, &[], 10_000).with_memory(&[7u8; 32]).run();
    assert_eq!(a, b);
    assert!(a.is_ok());
}

#[test]
fn an_entry_sees_nothing_of_storage_outside_its_declared_slots() {
    let code = assemble("LDI r0, 0\nSLOAD r2, r0\nLDI r3, 1\nADDW r2, r2, r3\nSSTORE r0, r2\nHALT")
        .expect("assemble");
    let sel = selector("bump()");
    let container = Container::new(
        code,
        vec![],
        vec![Entry {
            selector: sel,
            offset: 0,
            access: StateAccess { reads: vec![7], writes: vec![7], ..Default::default() },
        }],
    );
    let key7 = scalar_key(7);
    let run = |other: u64| {
        let mut storage = Storage::new();
        storage.insert(key7, 40);
        storage.insert(scalar_key(9), other);
        Interpreter::for_entry(&container, sel, 5000)
            .expect("entry")
            .with_storage(storage)
            .with_memory(&key7)
            .run()
            .expect("halt")
    };
    let a = run(1);
    let b = run(123456);
    assert_eq!(a.regs, b.regs);
    assert_eq!(a.meter_used, b.meter_used);
    assert_eq!(a.storage.get(&key7), Some(&41));
    assert_eq!(b.storage.get(&key7), Some(&41));
    assert_eq!(b.storage.get(&scalar_key(9)), Some(&123456));
}

#[test]
fn a_hash_the_meter_cannot_cover_faults_before_it_runs() {
    let code = assemble("LDI r0, 0\nLDI r1, 40000\nLDI r2, 0\nHASH r0, r1, r2\nHALT").expect("assemble");
    let need = 3 + qtv_vm::meter::cost(qtv_vm::isa::OpCode::Hash) + qtv_vm::meter::hash_variable(40000);
    assert_eq!(Interpreter::new(&code, &[], need - 1).run(), Err(Fault::OutOfMeter));
    assert_eq!(Interpreter::new(&code, &[], need).run().expect("halt").meter_used, need);
}

#[test]
fn unbounded_recursion_overflows_the_stack() {
    let code = assemble("top:\nCALL top").expect("assemble");
    assert_eq!(Interpreter::new(&code, &[], 1_000_000).run(), Err(Fault::StackOverflow));
}

#[test]
fn a_constant_index_past_the_pool_faults() {
    let code = assemble("LDC r0, 2\nHALT").expect("assemble");
    assert_eq!(Interpreter::new(&code, &[5, 6], 100).run(), Err(Fault::BadConst));
    assert_eq!(Interpreter::new(&code, &[5, 6, 7], 100).run().expect("halt").regs[0], 7);
}

#[test]
fn an_invalid_encapsulation_key_is_a_crypto_fault() {
    let mut region = vec![0xffu8; qtv_vm::primitives::ML_KEM_ENCAPS_KEY_BYTES];
    region.extend_from_slice(&[6u8; 32]);
    let src = format!("LDI r0, 0\nLDI r1, {}\nLDI r2, 8192\nKEM r0, r1, r2\nHALT", region.len());
    let code = assemble(&src).expect("assemble");
    let res = Interpreter::new(&code, &[], 100_000).with_memory(&region).run();
    assert_eq!(res, Err(Fault::CryptoFault));
}

#[test]
fn a_faulting_run_surfaces_only_its_fault() {
    let code = assemble("LDI r0, 0\nLDI r1, 55\nSSTORE r0, r1\nSEND r0, r1, r1\nLDI r2, 0\nDIV r3, r1, r2\nHALT")
        .expect("assemble");
    let key = scalar_key(0);
    let mut storage = Storage::new();
    storage.insert(key, 9);
    let r = Interpreter::new(&code, &[], 100_000).with_storage(storage.clone()).with_memory(&key).run();
    assert_eq!(r, Err(Fault::DivByZero));
    assert_eq!(storage.get(&key), Some(&9));
    assert_eq!(storage.len(), 1);
}

#[test]
fn a_keyed_entry_changes_only_its_declared_and_derived_slots() {
    let base: u64 = 1 << 40;
    let mut mem = Vec::new();
    mem.extend_from_slice(&base.to_be_bytes());
    mem.extend_from_slice(&7u64.to_be_bytes());
    let derived: [u8; 32] = sha3::Sha3_256::digest(&mem).into();
    let code = assemble(
        "LDI r0, 0\nLDI r1, 16\nLDI r2, 64\nHASH r0, r1, r2\nLDI r3, 64\nLDI r4, 99\nSSTORE r3, r4\nHALT",
    )
    .expect("assemble");
    let sel = selector("credit()");
    let container = Container::new(
        code,
        vec![],
        vec![Entry {
            selector: sel,
            offset: 0,
            access: StateAccess { keyed_writes: vec![base], ..Default::default() },
        }],
    );
    let other = scalar_key(3);
    let mut storage = Storage::new();
    storage.insert(other, 5);
    let out = Interpreter::for_entry(&container, sel, 50_000)
        .expect("entry")
        .with_storage(storage)
        .with_memory(&mem)
        .run()
        .expect("halt");
    assert_eq!(out.storage.get(&derived), Some(&99));
    assert_eq!(out.storage.get(&other), Some(&5));
    assert_eq!(out.storage.len(), 2);
}

#[test]
fn a_digest_written_over_its_preimage_head_is_keyed_by_the_overlaid_word() {
    let base: u64 = 1 << 40;
    let mut mem = Vec::new();
    mem.extend_from_slice(&base.to_be_bytes());
    mem.extend_from_slice(&7u64.to_be_bytes());
    // The digest lands on the preimage itself, so the leading word read after the hash is the
    // digest's, not the base: no key is derived and the write is refused.
    let code = assemble(
        "LDI r0, 0\nLDI r1, 16\nLDI r2, 0\nHASH r0, r1, r2\nLDI r3, 0\nLDI r4, 99\nSSTORE r3, r4\nHALT",
    )
    .expect("assemble");
    let sel = selector("credit()");
    let container = Container::new(
        code,
        vec![],
        vec![Entry {
            selector: sel,
            offset: 0,
            access: StateAccess { keyed_writes: vec![base], ..Default::default() },
        }],
    );
    let res = Interpreter::for_entry(&container, sel, 50_000).expect("entry").with_memory(&mem).run();
    assert_eq!(res, Err(Fault::UndeclaredSlot));
}
