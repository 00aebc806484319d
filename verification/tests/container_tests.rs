use qtv_vm::assembler::assemble;
use qtv_vm::container::{
    selector, Container, Entry, StateAccess, VerifyError, FORMAT_TAG, MAX_CODE_BYTES,
};
use qtv_vm::isa::OpCode;
use sha3::{Digest, Sha3_256};

fn sample() -> Container {
    Container::new(
        vec![0, 1, 2],
        vec![10, 20],
        vec![Entry {
            selector: selector("transfer(Address,u64)"),
            offset: 0,
            access: StateAccess { reads: vec![1], writes: vec![2, 3], ..Default::default() },
        }],
    )
}

#[test]
fn identifier_is_deterministic() {
    assert_eq!(sample().identifier(), sample().identifier());
}

#[test]
fn code_change_changes_identifier() {
    let a = sample();
    let mut b = sample();
    b.code.push(3);
    assert_ne!(a.identifier(), b.identifier());
}

#[test]
fn manifest_change_changes_identifier() {
    let a = sample();
    let mut b = sample();
    b.entries[0].access.writes.push(9);
    assert_ne!(a.identifier(), b.identifier());
}

#[test]
fn entry_offset_change_changes_identifier() {
    let a = sample();
    let mut b = sample();
    b.entries[0].offset = 16;
    assert_ne!(a.identifier(), b.identifier());
}

#[test]
fn selector_is_deterministic() {
    assert_eq!(selector("mint(u64)"), selector("mint(u64)"));
    assert_ne!(selector("mint(u64)"), selector("burn(u64)"));
}

#[test]
fn entry_offset_resolves_by_selector() {
    let container = Container::new(
        vec![],
        vec![],
        vec![
            Entry { selector: selector("mint(u64)"), offset: 0, access: StateAccess::default() },
            Entry { selector: selector("burn(u64)"), offset: 24, access: StateAccess::default() },
        ],
    );
    assert_eq!(container.entry_offset(&selector("mint(u64)")), Some(0));
    assert_eq!(container.entry_offset(&selector("burn(u64)")), Some(24));
    assert_eq!(container.entry_offset(&selector("pause()")), None);
}

fn one_entry(code: Vec<u8>, offset: u32) -> Container {
    Container::new(
        code,
        vec![],
        vec![Entry { selector: selector("run()"), offset, access: StateAccess::default() }],
    )
}

#[test]
fn verify_accepts_a_well_formed_container() {
    let code = assemble("LDI r0, 1\nJMP done\ndone:\nHALT").expect("assemble");
    assert_eq!(one_entry(code, 0).verify(), Ok(()));
}

#[test]
fn verify_rejects_a_jump_into_the_middle_of_an_instruction() {
    let code = assemble("LDI r0, 1\nJMP 3\nHALT").expect("assemble");
    assert_eq!(one_entry(code, 0).verify(), Err(VerifyError::MisalignedTarget(3)));
}

#[test]
fn verify_rejects_an_entry_offset_off_a_boundary() {
    let code = assemble("LDI r0, 1\nHALT").expect("assemble");
    let container = one_entry(code, 3);
    assert_eq!(container.verify(), Err(VerifyError::EntryOffsetMisaligned(selector("run()"))));
}

#[test]
fn verify_rejects_a_truncated_tail() {
    let mut code = assemble("LDI r0, 1\nHALT").expect("assemble");
    code.push(OpCode::Add.to_byte());
    let container = one_entry(code, 0);
    assert!(matches!(container.verify(), Err(VerifyError::UndecodableCode(_))));
}

#[test]
fn verify_rejects_oversize_code() {
    let code = vec![OpCode::Nop.to_byte(); MAX_CODE_BYTES + 1];
    assert_eq!(one_entry(code, 0).verify(), Err(VerifyError::CodeTooLarge));
}

#[test]
fn verify_rejects_a_const_index_past_the_pool() {
    let code = assemble("LDC r0, 5\nHALT").expect("assemble");
    let container = Container::new(
        code,
        vec![1, 2],
        vec![Entry { selector: selector("run()"), offset: 0, access: StateAccess::default() }],
    );
    assert_eq!(container.verify(), Err(VerifyError::ConstIndexOutOfRange(5)));
}

#[test]
fn verify_rejects_duplicate_selectors() {
    let code = assemble("HALT").expect("assemble");
    let sel = selector("dup()");
    let container = Container::new(
        code,
        vec![],
        vec![
            Entry { selector: sel, offset: 0, access: StateAccess::default() },
            Entry { selector: sel, offset: 0, access: StateAccess::default() },
        ],
    );
    assert_eq!(container.verify(), Err(VerifyError::DuplicateSelector(sel)));
}

#[test]
fn canonical_bytes_are_length_prefixed() {
    let bytes = sample().canonical_bytes();
    let mut want = FORMAT_TAG.to_vec();
    want.extend_from_slice(&[0, 0, 0, 3, 0, 1, 2]);
    want.extend_from_slice(&[0, 0, 0, 2]);
    want.extend_from_slice(&10u64.to_be_bytes());
    want.extend_from_slice(&20u64.to_be_bytes());
    want.extend_from_slice(&[0, 0, 0, 1]);
    want.extend_from_slice(&selector("transfer(Address,u64)"));
    want.extend_from_slice(&[0, 0, 0, 0]);
    want.extend_from_slice(&[0, 0, 0, 1]);
    want.extend_from_slice(&1u64.to_be_bytes());
    want.extend_from_slice(&[0, 0, 0, 2]);
    want.extend_from_slice(&2u64.to_be_bytes());
    want.extend_from_slice(&3u64.to_be_bytes());
    want.extend_from_slice(&[0, 0, 0, 0, 0, 0, 0, 0]);
    assert_eq!(bytes, want);
}

#[test]
fn identifier_is_the_digest_of_the_canonical_bytes() {
    let c = sample();
    let want: [u8; 32] = Sha3_256::digest(c.canonical_bytes()).into();
    assert_eq!(c.identifier(), want);
    assert_ne!(c.identifier().to_vec(), c.canonical_bytes()[..32].to_vec());
}

#[test]
fn selector_is_the_leading_bytes_of_the_signature_digest() {
    let digest = Sha3_256::digest(b"mint(u64)");
    assert_eq!(selector("mint(u64)"), [digest[0], digest[1], digest[2], digest[3]]);
}

#[test]
fn keyed_manifest_changes_the_canonical_bytes() {
    let a = sample();
    let mut b = sample();
    b.entries[0].access.keyed_reads.push(1 << 40);
    assert_ne!(a.canonical_bytes(), b.canonical_bytes());
}

#[test]
fn verify_rejects_oversize_pools() {
    let c = Container::new(vec![], vec![0; 4097], vec![]);
    assert_eq!(c.verify(), Err(VerifyError::ConstsTooLarge));
    let entries: Vec<Entry> = (0..257u32)
        .map(|i| Entry { selector: i.to_be_bytes(), offset: 0, access: StateAccess::default() })
        .collect();
    assert_eq!(Container::new(vec![], vec![], entries).verify(), Err(VerifyError::EntriesTooLarge));
}
