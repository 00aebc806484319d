use qtv_vm::abi::{
    scalar_key, ML_DSA_PUBLIC_KEY_BYTES, ML_DSA_SIGNATURE_BYTES, SCHEME_ML_DSA, SCHEME_SLH_DSA,
    SLH_DSA_PUBLIC_KEY_BYTES, SLH_DSA_SIGNATURE_BYTES,
};

#[test]
fn scheme_identifiers_are_the_ones_the_opcodes_dispatch_on() {
    assert_eq!(SCHEME_ML_DSA, 1);
    assert_eq!(SCHEME_SLH_DSA, 2);
}

#[test]
fn the_region_lengths_are_non_zero() {
    assert!(ML_DSA_PUBLIC_KEY_BYTES > 0 && ML_DSA_SIGNATURE_BYTES > 0);
    assert!(SLH_DSA_PUBLIC_KEY_BYTES > 0 && SLH_DSA_SIGNATURE_BYTES > 0);
}

#[test]
fn scalar_key_is_the_slot_big_endian_in_the_trailing_word() {
    let k = scalar_key(0x0102_0304_0506_0708);
    assert_eq!(&k[..24], &[0u8; 24][..]);
    assert_eq!(&k[24..], &[1, 2, 3, 4, 5, 6, 7, 8][..]);
    assert_ne!(scalar_key(7), scalar_key(8));
}
