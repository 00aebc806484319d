//! The post-quantum primitives the crypto opcodes run: SHA3-256, ML-DSA-65 and
//! SLH-DSA-SHAKE-192f verification, ML-KEM-768 encapsulation. Each is a call into the
//! crate that implements the standard; their results are named, not proved.
use vstd::prelude::*;

verus! {

/// Bytes of an ML-DSA-65 public key.
pub const ML_DSA_PUBLIC_KEY_BYTES: usize = 1952;

/// Bytes of an ML-DSA-65 signature.
pub const ML_DSA_SIGNATURE_BYTES: usize = 3309;

/// Bytes of an SLH-DSA-SHAKE-192f public key.
pub const SLH_DSA_PUBLIC_KEY_BYTES: usize = 48;

/// Bytes of an SLH-DSA-SHAKE-192f signature.
pub const SLH_DSA_SIGNATURE_BYTES: usize = 35664;

/// Bytes of an ML-KEM-768 encapsulation key.
pub const ML_KEM_ENCAPS_KEY_BYTES: usize = 1184;

/// Bytes of the message an ML-KEM encapsulation is derived from.
pub const ML_KEM_SEED_BYTES: usize = 32;

/// Bytes of an ML-KEM shared secret.
pub const ML_KEM_SHARED_SECRET_BYTES: usize = 32;

/// Bytes of an ML-KEM-768 ciphertext.
pub const ML_KEM_CIPHERTEXT_BYTES: usize = 1088;

/// The SHA3-256 digest of `data`, 32 bytes.
pub uninterp spec fn sha3_256_of(data: Seq<u8>) -> [u8; 32];

/// Whether `sig` is a valid ML-DSA-65 signature of `msg`, with an empty context, under `pk`.
pub uninterp spec fn ml_dsa_65_accepts(pk: Seq<u8>, msg: Seq<u8>, sig: Seq<u8>) -> bool;

/// Whether `sig` is a valid SLH-DSA-SHAKE-192f signature of `msg`, with an empty context,
/// under `pk`.
pub uninterp spec fn slh_dsa_192f_accepts(pk: Seq<u8>, msg: Seq<u8>, sig: Seq<u8>) -> bool;

/// The ciphertext and the shared secret, in that order, of the deterministic ML-KEM-768
/// encapsulation of `m` to `ek`, `None` when `ek` is not a valid encapsulation key.
pub uninterp spec fn ml_kem_768_encaps(ek: Seq<u8>, m: Seq<u8>) -> Option<(Seq<u8>, Seq<u8>)>;

/// Calls `sha3::Sha3_256::digest`. Trusted: the result is the digest named by `sha3_256_of`.
#[verifier::external_body]
pub(crate) fn sha3_256(data: &[u8]) -> (r: [u8; 32])
    ensures
        r == sha3_256_of(data@),
{
    <sha3::Sha3_256 as sha3::Digest>::digest(data).into()
}

/// Calls `ml_dsa::VerifyingKey::<MlDsa65>::verify_with_context` with an empty context, after
/// `ml_dsa::VerifyingKey::decode` and `ml_dsa::Signature::decode` (a signature that does not
/// decode is rejected). Trusted: the result is the verdict named by `ml_dsa_65_accepts`.
#[verifier::external_body]
pub(crate) fn ml_dsa_verify(pk: &[u8], msg: &[u8], sig: &[u8]) -> (r: bool)
    requires
        pk@.len() == ML_DSA_PUBLIC_KEY_BYTES,
        sig@.len() == ML_DSA_SIGNATURE_BYTES,
    ensures
        r == ml_dsa_65_accepts(pk@, msg@, sig@),
{
    let pk = ml_dsa::EncodedVerifyingKey::<ml_dsa::MlDsa65>::try_from(pk).unwrap();
    let sig = ml_dsa::EncodedSignature::<ml_dsa::MlDsa65>::try_from(sig).unwrap();
    let key = ml_dsa::VerifyingKey::<ml_dsa::MlDsa65>::decode(&pk);
    match ml_dsa::Signature::<ml_dsa::MlDsa65>::decode(&sig) {
        Some(s) => key.verify_with_context(msg, &[], &s),
        None => false,
    }
}

/// Calls `slh_dsa::VerifyingKey::<Shake192f>::try_verify_with_context` with an empty context,
/// after `TryFrom<&[u8]>` for the key and the signature (a signature that does not parse is
/// rejected). Trusted: the result is the verdict named by `slh_dsa_192f_accepts`.
#[verifier::external_body]
pub(crate) fn slh_dsa_verify(pk: &[u8], msg: &[u8], sig: &[u8]) -> (r: bool)
    requires
        pk@.len() == SLH_DSA_PUBLIC_KEY_BYTES,
        sig@.len() == SLH_DSA_SIGNATURE_BYTES,
    ensures
        r == slh_dsa_192f_accepts(pk@, msg@, sig@),
{
    let key = slh_dsa::VerifyingKey::<slh_dsa::Shake192f>::try_from(pk).unwrap();
    match slh_dsa::Signature::<slh_dsa::Shake192f>::try_from(sig) {
        Ok(s) => key.try_verify_with_context(msg, &[], &s).is_ok(),
        Err(_) => false,
    }
}

/// Calls `ml_kem::EncapsulationKey768::new` and `encapsulate_deterministic`. Trusted: the
/// result is the ciphertext and the shared secret named by `ml_kem_768_encaps`, in the order
/// the crate returns them; their lengths, `ML_KEM_CIPHERTEXT_BYTES` and
/// `ML_KEM_SHARED_SECRET_BYTES`, are the sizes of the two arrays.
#[verifier::external_body]
pub(crate) fn ml_kem_encaps(ek: &[u8], m: &[u8]) -> (r: Option<(Vec<u8>, Vec<u8>)>)
    requires
        ek@.len() == ML_KEM_ENCAPS_KEY_BYTES,
        m@.len() == ML_KEM_SEED_BYTES,
    ensures
        match r {
            Some((ct, ss)) => ml_kem_768_encaps(ek@, m@) == Some((ct@, ss@))
                && ct@.len() == ML_KEM_CIPHERTEXT_BYTES && ss@.len() == ML_KEM_SHARED_SECRET_BYTES,
            None => ml_kem_768_encaps(ek@, m@) is None,
        },
{
    let key = ml_kem::array::Array::try_from(ek).unwrap();
    let m = ml_kem::B32::try_from(m).unwrap();
    match ml_kem::EncapsulationKey768::new(&key) {
        Ok(key) => {
            let (ct, ss) = key.encapsulate_deterministic(&m);
            Some((ct.as_slice().to_vec(), ss.as_slice().to_vec()))
        },
        Err(_) => None,
    }
}

} // verus!
