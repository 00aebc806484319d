use ml_dsa::{MlDsa65, SigningKey as MlSigningKey};
use ml_kem::{Decapsulate as _, DecapsulationKey768, KeyExport as _};
use qtv_vm::crypto::{address, hash, kem, merkle_verify, verify_ml, verify_slh, SCHEME_ML_DSA, SCHEME_SLH_DSA};
use qtv_vm::interp::Fault;
use qtv_vm::primitives::{ML_KEM_CIPHERTEXT_BYTES, ML_KEM_SHARED_SECRET_BYTES};
use qtv_vm::state::{Machine, MEM_BYTES};
use sha3::{Digest, Sha3_256};
use slh_dsa::{Shake192f, SigningKey as SlhSigningKey};

fn sha3_256(data: &[u8]) -> [u8; 32] {
    Sha3_256::digest(data).into()
}

fn ml_keygen(seed: u8) -> (Vec<u8>, MlSigningKey<MlDsa65>) {
    let sk = MlSigningKey::<MlDsa65>::from_seed(&ml_dsa::B32::from([seed; 32]));
    let pk = sk.expanded_key().verifying_key().encode().to_vec();
    (pk, sk)
}

fn ml_sign(sk: &MlSigningKey<MlDsa65>, msg: &[u8]) -> Vec<u8> {
    sk.expanded_key().sign_deterministic(msg, &[]).expect("sign").encode().to_vec()
}

fn slh_keygen() -> (SlhSigningKey<Shake192f>, Vec<u8>) {
    let sk = SlhSigningKey::<Shake192f>::slh_keygen_internal(&[1u8; 24], &[2u8; 24], &[3u8; 24]);
    let vk: &slh_dsa::VerifyingKey<Shake192f> = sk.as_ref();
    let pk = vk.to_bytes().to_vec();
    (sk, pk)
}

fn slh_sign(sk: &SlhSigningKey<Shake192f>, msg: &[u8]) -> Vec<u8> {
    sk.try_sign_with_context(msg, &[], Some(&[4u8; 24])).expect("sign").to_bytes().to_vec()
}

fn kem_keygen() -> (Vec<u8>, DecapsulationKey768) {
    let mut seed = [4u8; 64];
    seed[32..].copy_from_slice(&[5u8; 32]);
    let dk = DecapsulationKey768::from_seed(ml_kem::Seed::from(seed));
    let ek = dk.encapsulation_key().to_bytes().to_vec();
    (ek, dk)
}

fn expected_address(scheme: u8, public_key: &[u8]) -> [u8; 32] {
    let mut input = Vec::with_capacity(1 + public_key.len());
    input.push(scheme);
    input.extend_from_slice(public_key);
    sha3_256(&input)
}

#[test]
fn address_matches_the_account_model_for_ml_dsa() {
    let (pk, _sk) = ml_keygen(7);
    let mut region = pk.clone();
    region.extend_from_slice(b"signature and message follow the key");
    let mut m = Machine::new();
    assert!(m.mem_write(0, &region));
    m.set_reg(0, 0);
    m.set_reg(1, SCHEME_ML_DSA);
    m.set_reg(2, 40000);
    address(&mut m, 0, 1, 2).expect("derive");
    assert_eq!(m.mem_region(40000, 32).unwrap(), &expected_address(1, &pk)[..]);
}

#[test]
fn address_matches_the_account_model_for_slh_dsa() {
    let (_sk, pk) = slh_keygen();
    let mut m = Machine::new();
    assert!(m.mem_write(0, &pk));
    m.set_reg(0, 0);
    m.set_reg(1, SCHEME_SLH_DSA);
    m.set_reg(2, 40000);
    address(&mut m, 0, 1, 2).expect("derive");
    assert_eq!(m.mem_region(40000, 32).unwrap(), &expected_address(2, &pk)[..]);
}

#[test]
fn a_different_public_key_derives_a_different_address() {
    let (pk_a, _) = ml_keygen(1);
    let (pk_b, _) = ml_keygen(2);
    let derive = |pk: &[u8]| {
        let mut m = Machine::new();
        assert!(m.mem_write(0, pk));
        m.set_reg(0, 0);
        m.set_reg(1, SCHEME_ML_DSA);
        m.set_reg(2, 40000);
        address(&mut m, 0, 1, 2).expect("derive");
        m.mem_region(40000, 32).unwrap().to_vec()
    };
    assert_ne!(derive(&pk_a), derive(&pk_b));
}

#[test]
fn an_unknown_scheme_faults() {
    let (pk, _) = ml_keygen(9);
    let mut m = Machine::new();
    assert!(m.mem_write(0, &pk));
    m.set_reg(0, 0);
    m.set_reg(1, 3);
    m.set_reg(2, 40000);
    assert_eq!(address(&mut m, 0, 1, 2), Err(Fault::BadScheme));
}

#[test]
fn a_region_too_short_for_the_public_key_faults() {
    let mut m = Machine::new();
    m.set_reg(0, 0);
    m.set_reg(1, SCHEME_ML_DSA);
    m.set_reg(2, 40000);
    m.set_reg(0, (MEM_BYTES - 16) as u64);
    assert_eq!(address(&mut m, 0, 1, 2), Err(Fault::BadMemory));
}

fn machine_with(region: &[u8], at: u64) -> Machine {
    let mut m = Machine::new();
    assert!(m.mem_write(at, region));
    m
}

#[test]
fn hash_reproduces_the_crypto_crate_digest() {
    let input = b"quantova hash opcode over a region";
    let mut m = machine_with(input, 0);
    m.set_reg(0, 0);
    m.set_reg(1, input.len() as u64);
    m.set_reg(2, 4096);
    hash(&mut m, 0, 1, 2).expect("hash");
    let want = sha3_256(input);
    assert_eq!(m.mem_region(4096, 32).unwrap(), &want[..]);
}

#[test]
fn hash_of_empty_region_is_defined() {
    let mut m = Machine::new();
    m.set_reg(0, 0);
    m.set_reg(1, 0);
    m.set_reg(2, 0);
    hash(&mut m, 0, 1, 2).expect("hash");
    assert_eq!(m.mem_region(0, 32).unwrap(), &sha3_256(b"")[..]);
}

#[test]
fn hash_rejects_out_of_bounds_output() {
    let mut m = Machine::new();
    m.set_reg(0, 0);
    m.set_reg(1, 8);
    m.set_reg(2, u64::MAX);
    assert_eq!(hash(&mut m, 0, 1, 2), Err(Fault::BadMemory));
}

fn load_ml(m: &mut Machine, pk: &[u8], sig: &[u8], msg: &[u8]) -> u64 {
    let mut region = Vec::new();
    region.extend_from_slice(pk);
    region.extend_from_slice(sig);
    region.extend_from_slice(msg);
    assert!(m.mem_write(0, &region));
    m.set_reg(0, 0);
    m.set_reg(1, region.len() as u64);
    region.len() as u64
}

#[test]
fn verify_ml_accepts_valid_and_rejects_tampered() {
    let (pk, sk) = ml_keygen(7);
    let msg = b"quantova ml-dsa verify opcode";
    let sig = ml_sign(&sk, msg);

    let mut m = Machine::new();
    load_ml(&mut m, &pk, &sig, msg);
    verify_ml(&mut m, 0, 1, 2).expect("verify");
    assert_eq!(m.reg(2), 1);

    let mut bad = sig;
    bad[0] ^= 1;
    let mut m = Machine::new();
    load_ml(&mut m, &pk, &bad, msg);
    verify_ml(&mut m, 0, 1, 2).expect("verify");
    assert_eq!(m.reg(2), 0);
}

#[test]
fn verify_ml_rejects_short_region() {
    let mut m = Machine::new();
    m.set_reg(0, 0);
    m.set_reg(1, 16);
    assert_eq!(verify_ml(&mut m, 0, 1, 2), Err(Fault::BadMemory));
}

fn load_region(m: &mut Machine, parts: &[&[u8]]) {
    let mut region = Vec::new();
    for part in parts {
        region.extend_from_slice(part);
    }
    assert!(m.mem_write(0, &region));
    m.set_reg(0, 0);
    m.set_reg(1, region.len() as u64);
}

#[test]
fn verify_slh_accepts_valid_and_rejects_tampered() {
    let (sk, pk) = slh_keygen();
    let msg = b"quantova slh-dsa verify opcode";
    let sig = slh_sign(&sk, msg);

    let mut m = Machine::new();
    load_region(&mut m, &[&pk, &sig, msg]);
    verify_slh(&mut m, 0, 1, 2).expect("verify");
    assert_eq!(m.reg(2), 1);

    let mut bad = sig;
    bad[0] ^= 1;
    let mut m = Machine::new();
    load_region(&mut m, &[&pk, &bad, msg]);
    verify_slh(&mut m, 0, 1, 2).expect("verify");
    assert_eq!(m.reg(2), 0);
}

#[test]
fn verify_slh_rejects_short_region() {
    let mut m = Machine::new();
    m.set_reg(0, 0);
    m.set_reg(1, 64);
    assert_eq!(verify_slh(&mut m, 0, 1, 2), Err(Fault::BadMemory));
}

fn merkle_leaf(leaf: &[u8; 32]) -> [u8; 32] {
    let mut buf = [0u8; 33];
    buf[0] = 0x00;
    buf[1..].copy_from_slice(leaf);
    sha3_256(&buf)
}

fn merkle_node(left: &[u8; 32], right: &[u8; 32]) -> [u8; 32] {
    let mut buf = [0u8; 65];
    buf[0] = 0x01;
    buf[1..33].copy_from_slice(left);
    buf[33..].copy_from_slice(right);
    sha3_256(&buf)
}

fn merkle_region(root: &[u8], index: u64, leaf: &[u8], path: &[[u8; 32]]) -> Vec<u8> {
    let mut region = Vec::new();
    region.extend_from_slice(root);
    region.extend_from_slice(&index.to_be_bytes());
    region.extend_from_slice(leaf);
    for sibling in path {
        region.extend_from_slice(sibling);
    }
    region
}

#[test]
fn merkle_verify_accepts_valid_and_rejects_tampered() {
    let data: Vec<[u8; 32]> = (0..4u8).map(|i| sha3_256(&[i])).collect();
    let tagged: Vec<[u8; 32]> = data.iter().map(merkle_leaf).collect();
    let p01 = merkle_node(&tagged[0], &tagged[1]);
    let p23 = merkle_node(&tagged[2], &tagged[3]);
    let root = merkle_node(&p01, &p23);

    let path = [tagged[3], p01];
    let region = merkle_region(&root, 2, &data[2], &path);

    let mut m = Machine::new();
    assert!(m.mem_write(0, &region));
    m.set_reg(0, 0);
    m.set_reg(1, region.len() as u64);
    merkle_verify(&mut m, 0, 1, 2).expect("merkle");
    assert_eq!(m.reg(2), 1);

    let mut bad = region;
    bad[0] ^= 1;
    let mut m = Machine::new();
    assert!(m.mem_write(0, &bad));
    m.set_reg(0, 0);
    m.set_reg(1, bad.len() as u64);
    merkle_verify(&mut m, 0, 1, 2).expect("merkle");
    assert_eq!(m.reg(2), 0);
}

#[test]
fn merkle_verify_rejects_misshaped_region() {
    let mut m = Machine::new();
    m.set_reg(0, 0);
    m.set_reg(1, (2 * 32 + 8 + 5) as u64);
    assert_eq!(merkle_verify(&mut m, 0, 1, 2), Err(Fault::BadMemory));
    m.set_reg(1, 8);
    assert_eq!(merkle_verify(&mut m, 0, 1, 2), Err(Fault::BadMemory));
}

#[test]
fn merkle_verify_rejects_an_internal_node_presented_as_a_leaf() {
    let data: Vec<[u8; 32]> = (0..4u8).map(|i| sha3_256(&[i])).collect();
    let tagged: Vec<[u8; 32]> = data.iter().map(merkle_leaf).collect();
    let p01 = merkle_node(&tagged[0], &tagged[1]);
    let p23 = merkle_node(&tagged[2], &tagged[3]);
    let root = merkle_node(&p01, &p23);

    let path = [p23];
    let region = merkle_region(&root, 0, &p01, &path);
    let mut m = Machine::new();
    assert!(m.mem_write(0, &region));
    m.set_reg(0, 0);
    m.set_reg(1, region.len() as u64);
    merkle_verify(&mut m, 0, 1, 2).expect("merkle");
    assert_eq!(m.reg(2), 0, "an internal node must not verify as a leaf");
}

#[test]
fn merkle_verify_rejects_a_zero_length_path() {
    let root = sha3_256(b"a committed root");
    let region = merkle_region(&root, 0, &root, &[]);
    let mut m = Machine::new();
    assert!(m.mem_write(0, &region));
    m.set_reg(0, 0);
    m.set_reg(1, region.len() as u64);
    merkle_verify(&mut m, 0, 1, 2).expect("merkle");
    assert_eq!(m.reg(2), 0, "a proof with no siblings must not verify");
}

#[test]
fn merkle_verify_accepts_the_left_leaf_of_a_pair() {
    let data: Vec<[u8; 32]> = (0..2u8).map(|i| sha3_256(&[i])).collect();
    let tagged: Vec<[u8; 32]> = data.iter().map(merkle_leaf).collect();
    let root = merkle_node(&tagged[0], &tagged[1]);
    let region = merkle_region(&root, 0, &data[0], &[tagged[1]]);
    let mut m = Machine::new();
    assert!(m.mem_write(0, &region));
    m.set_reg(0, 0);
    m.set_reg(1, region.len() as u64);
    merkle_verify(&mut m, 0, 1, 2).expect("merkle");
    assert_eq!(m.reg(2), 1);
    let region = merkle_region(&root, 1, &data[0], &[tagged[1]]);
    let mut m = Machine::new();
    assert!(m.mem_write(0, &region));
    m.set_reg(0, 0);
    m.set_reg(1, region.len() as u64);
    merkle_verify(&mut m, 0, 1, 2).expect("merkle");
    assert_eq!(m.reg(2), 0, "the index picks the side of each sibling");
}

#[test]
fn kem_encapsulates_and_matches_decapsulation() {
    let (ek, dk) = kem_keygen();
    let msg = [6u8; 32];

    let mut region = Vec::new();
    region.extend_from_slice(&ek);
    region.extend_from_slice(&msg);
    let mut m = Machine::new();
    assert!(m.mem_write(0, &region));
    m.set_reg(0, 0);
    m.set_reg(1, region.len() as u64);
    m.set_reg(2, 4096);
    kem(&mut m, 0, 1, 2).expect("kem");

    let total = ML_KEM_SHARED_SECRET_BYTES + ML_KEM_CIPHERTEXT_BYTES;
    let out = m.mem_region(4096, total as u64).unwrap().to_vec();
    let shared = &out[..ML_KEM_SHARED_SECRET_BYTES];
    let ciphertext = ml_kem::ml_kem_768::Ciphertext::try_from(&out[ML_KEM_SHARED_SECRET_BYTES..]).unwrap();
    assert_eq!(&dk.decapsulate(&ciphertext)[..], shared);
    let key = ml_kem::EncapsulationKey768::new(&ml_kem::array::Array::try_from(&ek[..]).unwrap()).unwrap();
    let (want_ct, want_ss) = key.encapsulate_deterministic(&ml_kem::B32::from(msg));
    assert_eq!(shared, &want_ss[..]);
    assert_eq!(&out[ML_KEM_SHARED_SECRET_BYTES..], &want_ct[..]);
}

#[test]
fn kem_rejects_short_region() {
    let mut m = Machine::new();
    m.set_reg(0, 0);
    m.set_reg(1, 100);
    m.set_reg(2, 4096);
    assert_eq!(kem(&mut m, 0, 1, 2), Err(Fault::BadMemory));
}

#[test]
fn kem_rejects_out_of_bounds_output() {
    let (ek, _dk) = kem_keygen();
    let mut region = Vec::new();
    region.extend_from_slice(&ek);
    region.extend_from_slice(&[6u8; 32]);
    let mut m = Machine::new();
    assert!(m.mem_write(0, &region));
    m.set_reg(0, 0);
    m.set_reg(1, region.len() as u64);
    m.set_reg(2, u64::MAX);
    assert_eq!(kem(&mut m, 0, 1, 2), Err(Fault::BadMemory));
}
