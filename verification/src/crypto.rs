//! The crypto opcode group. Each operation reads its inputs from a memory region named by
//! registers, runs one primitive, and writes a digest or sets a result register.
use vstd::prelude::*;
use crate::bytes::{be64, word64};
use crate::interp::Fault;
use crate::isa::{Reg, NUM_REGS};
use crate::primitives::{
    sha3_256, sha3_256_of, ml_dsa_verify, ml_dsa_65_accepts, slh_dsa_verify, slh_dsa_192f_accepts,
    ml_kem_encaps, ml_kem_768_encaps, ML_DSA_PUBLIC_KEY_BYTES, ML_DSA_SIGNATURE_BYTES,
    SLH_DSA_PUBLIC_KEY_BYTES, SLH_DSA_SIGNATURE_BYTES, ML_KEM_ENCAPS_KEY_BYTES, ML_KEM_SEED_BYTES,
};
use crate::state::{Machine, MachineState, write_bytes};

verus! {

/// Scheme number of ML-DSA-65 in an address derivation.
pub const SCHEME_ML_DSA: u64 = 1;

/// Scheme number of SLH-DSA-SHAKE-192f in an address derivation.
pub const SCHEME_SLH_DSA: u64 = 2;

/// Bytes ahead of the message in an ML-DSA verify region: public key, then signature.
pub const ML_DSA_SIGNED_BYTES: u64 = 5261;

/// Bytes ahead of the message in an SLH-DSA verify region: public key, then signature.
pub const SLH_DSA_SIGNED_BYTES: u64 = 35712;

/// Bytes ahead of the path in a Merkle verify region: root, index, leaf.
pub const MERKLE_HEADER: u64 = 72;

/// Domain tag hashed ahead of a leaf.
pub const MERKLE_LEAF_TAG: u8 = 0x00;

/// Domain tag hashed ahead of two children.
pub const MERKLE_NODE_TAG: u8 = 0x01;

/// The bytes of memory at `[ptr, ptr + len)`, when they lie in memory.
pub open spec fn region(m: MachineState, ptr: u64, len: u64) -> Option<Seq<u8>> {
    if ptr + len <= m.mem.len() {
        Some(m.mem.subrange(ptr as int, ptr + len))
    } else {
        None
    }
}

/// `m` with `bytes` written at `out`, or a memory fault when they do not fit.
pub open spec fn write_out(m: MachineState, out: u64, bytes: Seq<u8>) -> Result<MachineState, Fault> {
    if out + bytes.len() <= m.mem.len() {
        Ok(MachineState { mem: write_bytes(m.mem, out as int, bytes), ..m })
    } else {
        Err(Fault::BadMemory)
    }
}

/// `m` with register `r` set to `v`.
pub open spec fn with_reg(m: MachineState, r: Reg, v: u64) -> MachineState {
    MachineState { regs: m.regs.update(r as int, v), ..m }
}

/// HASH: the SHA3-256 digest of the region `(regs[a], regs[b])` written at `regs[c]`.
pub open spec fn hash_op(m: MachineState, a: Reg, b: Reg, c: Reg) -> Result<MachineState, Fault> {
    match region(m, m.regs[a as int], m.regs[b as int]) {
        None => Err(Fault::BadMemory),
        Some(data) => write_out(m, m.regs[c as int], sha3_256_of(data)@),
    }
}

/// VERIFYML: the region `(regs[a], regs[b])` is a public key, a signature and the message;
/// `regs[c]` becomes 1 when the signature verifies, 0 when not.
pub open spec fn verify_ml_op(m: MachineState, a: Reg, b: Reg, c: Reg) -> Result<MachineState, Fault> {
    let pk = ML_DSA_PUBLIC_KEY_BYTES as int;
    let sig = ML_DSA_SIGNATURE_BYTES as int;
    match region(m, m.regs[a as int], m.regs[b as int]) {
        None => Err(Fault::BadMemory),
        Some(r) => if r.len() < pk + sig {
            Err(Fault::BadMemory)
        } else {
            let ok = ml_dsa_65_accepts(
                r.subrange(0, pk),
                r.subrange(pk + sig, r.len() as int),
                r.subrange(pk, pk + sig),
            );
            Ok(with_reg(m, c, if ok { 1 } else { 0 }))
        },
    }
}

/// VERIFYSLH: as VERIFYML, for SLH-DSA-SHAKE-192f.
pub open spec fn verify_slh_op(m: MachineState, a: Reg, b: Reg, c: Reg) -> Result<MachineState, Fault> {
    let pk = SLH_DSA_PUBLIC_KEY_BYTES as int;
    let sig = SLH_DSA_SIGNATURE_BYTES as int;
    match region(m, m.regs[a as int], m.regs[b as int]) {
        None => Err(Fault::BadMemory),
        Some(r) => if r.len() < pk + sig {
            Err(Fault::BadMemory)
        } else {
            let ok = slh_dsa_192f_accepts(
                r.subrange(0, pk),
                r.subrange(pk + sig, r.len() as int),
                r.subrange(pk, pk + sig),
            );
            Ok(with_reg(m, c, if ok { 1 } else { 0 }))
        },
    }
}

/// The hash of a tagged leaf.
pub open spec fn leaf_hash(leaf: Seq<u8>) -> Seq<u8> {
    sha3_256_of(seq![MERKLE_LEAF_TAG] + leaf)@
}

/// The hash of a tagged pair of children.
pub open spec fn node_hash(left: Seq<u8>, right: Seq<u8>) -> Seq<u8> {
    sha3_256_of(seq![MERKLE_NODE_TAG] + left + right)@
}

/// Whether the running node is the left child at `level`: bit `level` of the index is clear,
/// and past the sixty-fourth level it always is.
pub open spec fn node_on_left(index: u64, level: nat) -> bool {
    level >= 64 || (index >> (level as u64)) & 1u64 == 0
}

/// The root reached from `node` at `level` by climbing the 32-byte siblings in `path`.
pub open spec fn merkle_climb(node: Seq<u8>, index: u64, path: Seq<u8>, level: nat) -> Seq<u8>
    decreases path.len(),
{
    if path.len() < 32 {
        node
    } else {
        let sib = path.subrange(0, 32);
        let next = if node_on_left(index, level) {
            node_hash(node, sib)
        } else {
            node_hash(sib, node)
        };
        merkle_climb(next, index, path.subrange(32, path.len() as int), level + 1)
    }
}

/// MERKLEVERIFY: the region `(regs[a], regs[b])` is a root, a big-endian index, a leaf and a
/// whole number of siblings; `regs[c]` becomes 1 when climbing from the leaf reaches the root.
/// A proof with no siblings never verifies.
pub open spec fn merkle_verify_op(m: MachineState, a: Reg, b: Reg, c: Reg) -> Result<MachineState, Fault> {
    match region(m, m.regs[a as int], m.regs[b as int]) {
        None => Err(Fault::BadMemory),
        Some(r) => if r.len() < MERKLE_HEADER || (r.len() - MERKLE_HEADER) % 32 != 0 {
            Err(Fault::BadMemory)
        } else {
            let root = r.subrange(0, 32);
            let index = word64(r.subrange(32, 40));
            let leaf = r.subrange(40, 72);
            let path = r.subrange(72, r.len() as int);
            if path.len() == 0 {
                Ok(with_reg(m, c, 0))
            } else {
                let reached = merkle_climb(leaf_hash(leaf), index, path, 0);
                Ok(with_reg(m, c, if reached == root { 1 } else { 0 }))
            }
        },
    }
}

/// KEM: the region `(regs[a], regs[b])` starts with an encapsulation key and a message; the
/// shared secret, then the ciphertext right after it, are written at `regs[c]`. A key that is
/// not a valid encapsulation key is a crypto fault.
pub open spec fn kem_op(m: MachineState, a: Reg, b: Reg, c: Reg) -> Result<MachineState, Fault> {
    let ek = ML_KEM_ENCAPS_KEY_BYTES as int;
    let msg = ML_KEM_SEED_BYTES as int;
    match region(m, m.regs[a as int], m.regs[b as int]) {
        None => Err(Fault::BadMemory),
        Some(r) => if r.len() < ek + msg {
            Err(Fault::BadMemory)
        } else {
            match ml_kem_768_encaps(r.subrange(0, ek), r.subrange(ek, ek + msg)) {
                None => Err(Fault::CryptoFault),
                Some((ct, ss)) => write_out(m, m.regs[c as int], ss + ct),
            }
        },
    }
}

/// Length of the public key of an address scheme, `None` for an unknown scheme.
pub open spec fn scheme_key_len(scheme: u64) -> Option<nat> {
    if scheme == SCHEME_ML_DSA {
        Some(ML_DSA_PUBLIC_KEY_BYTES as nat)
    } else if scheme == SCHEME_SLH_DSA {
        Some(SLH_DSA_PUBLIC_KEY_BYTES as nat)
    } else {
        None
    }
}

/// The account address of a public key: the digest of the scheme byte then the key.
pub open spec fn account_address(scheme: u64, pk: Seq<u8>) -> Seq<u8> {
    sha3_256_of(seq![scheme as u8] + pk)@
}

/// ADDR: `regs[b]` names the scheme and `regs[a]` the public key; the account address is
/// written at `regs[c]`.
pub open spec fn address_op(m: MachineState, a: Reg, b: Reg, c: Reg) -> Result<MachineState, Fault> {
    let scheme = m.regs[b as int];
    match scheme_key_len(scheme) {
        None => Err(Fault::BadScheme),
        Some(n) => match region(m, m.regs[a as int], n as u64) {
            None => Err(Fault::BadMemory),
            Some(pk) => write_out(m, m.regs[c as int], account_address(scheme, pk)),
        },
    }
}

/// The registers name only the general registers.
pub open spec fn regs_ok(a: Reg, b: Reg, c: Reg) -> bool {
    a < NUM_REGS && b < NUM_REGS && c < NUM_REGS
}

/// The result of an operation matches its specification: success with exactly the specified
/// state, or the specified fault with the machine left as it was.
pub open spec fn matches_spec(
    r: Result<(), Fault>,
    before: MachineState,
    after: MachineState,
    spec: Result<MachineState, Fault>,
) -> bool {
    match spec {
        Ok(s) => r is Ok && after == s,
        Err(f) => r == Err::<(), Fault>(f) && after == before,
    }
}

fn write_or_fault(m: &mut Machine, out: u64, bytes: &[u8]) -> (r: Result<(), Fault>)
    ensures
        matches_spec(r, old(m)@, final(m)@, write_out(old(m)@, out, bytes@)),
{
    if m.mem_write(out, bytes) {
        Ok(())
    } else {
        Err(Fault::BadMemory)
    }
}

/// Runs HASH on `m`.
pub fn hash(m: &mut Machine, a: Reg, b: Reg, c: Reg) -> (r: Result<(), Fault>)
    requires
        regs_ok(a, b, c),
    ensures
        matches_spec(r, old(m)@, final(m)@, hash_op(old(m)@, a, b, c)),
{
    let ptr = m.reg(a);
    let len = m.reg(b);
    let out = m.reg(c);
    let digest = match m.mem_region(ptr, len) {
        Some(data) => sha3_256(data),
        None => return Err(Fault::BadMemory),
    };
    write_or_fault(m, out, &digest)
}

/// Runs VERIFYML on `m`.
pub fn verify_ml(m: &mut Machine, a: Reg, b: Reg, c: Reg) -> (r: Result<(), Fault>)
    requires
        regs_ok(a, b, c),
    ensures
        matches_spec(r, old(m)@, final(m)@, verify_ml_op(old(m)@, a, b, c)),
{
    let ptr = m.reg(a);
    let len = m.reg(b);
    let ok = match m.mem_region(ptr, len) {
        None => return Err(Fault::BadMemory),
        Some(region) => {
            let n = region.len();
            if n < ML_DSA_PUBLIC_KEY_BYTES + ML_DSA_SIGNATURE_BYTES {
                return Err(Fault::BadMemory);
            }
            let split = ML_DSA_PUBLIC_KEY_BYTES + ML_DSA_SIGNATURE_BYTES;
            ml_dsa_verify(
                &region[0..ML_DSA_PUBLIC_KEY_BYTES],
                &region[split..n],
                &region[ML_DSA_PUBLIC_KEY_BYTES..split],
            )
        },
    };
    m.set_reg(c, if ok { 1 } else { 0 });
    Ok(())
}

/// Runs VERIFYSLH on `m`.
pub fn verify_slh(m: &mut Machine, a: Reg, b: Reg, c: Reg) -> (r: Result<(), Fault>)
    requires
        regs_ok(a, b, c),
    ensures
        matches_spec(r, old(m)@, final(m)@, verify_slh_op(old(m)@, a, b, c)),
{
    let ptr = m.reg(a);
    let len = m.reg(b);
    let ok = match m.mem_region(ptr, len) {
        None => return Err(Fault::BadMemory),
        Some(region) => {
            let n = region.len();
            if n < SLH_DSA_PUBLIC_KEY_BYTES + SLH_DSA_SIGNATURE_BYTES {
                return Err(Fault::BadMemory);
            }
            let split = SLH_DSA_PUBLIC_KEY_BYTES + SLH_DSA_SIGNATURE_BYTES;
            slh_dsa_verify(
                &region[0..SLH_DSA_PUBLIC_KEY_BYTES],
                &region[split..n],
                &region[SLH_DSA_PUBLIC_KEY_BYTES..split],
            )
        },
    };
    m.set_reg(c, if ok { 1 } else { 0 });
    Ok(())
}

fn merkle_leaf(leaf: &[u8]) -> (r: [u8; 32])
    ensures
        r@ == leaf_hash(leaf@),
{
    let mut buf: Vec<u8> = Vec::new();
    buf.push(MERKLE_LEAF_TAG);
    append(&mut buf, leaf);
    assert(buf@ =~= seq![MERKLE_LEAF_TAG] + leaf@);
    sha3_256(buf.as_slice())
}

fn merkle_node(left: &[u8], right: &[u8]) -> (r: [u8; 32])
    ensures
        r@ == node_hash(left@, right@),
{
    let mut buf: Vec<u8> = Vec::new();
    buf.push(MERKLE_NODE_TAG);
    append(&mut buf, left);
    append(&mut buf, right);
    assert(buf@ =~= seq![MERKLE_NODE_TAG] + left@ + right@);
    sha3_256(buf.as_slice())
}

/// Appends `bytes` to `out`.
pub fn append(out: &mut Vec<u8>, bytes: &[u8])
    ensures
        final(out)@ == old(out)@ + bytes@,
{
    let mut j: usize = 0;
    while j < bytes.len()
        invariant
            j <= bytes@.len(),
            out@ =~= old(out)@ + bytes@.subrange(0, j as int),
        decreases bytes@.len() - j,
    {
        out.push(bytes[j]);
        j = j + 1;
    }
    assert(bytes@.subrange(0, bytes@.len() as int) =~= bytes@);
}

fn bit_clear(index: u64, level: u64) -> (r: bool)
    requires
        level < 64,
    ensures
        r == ((index >> level) & 1u64 == 0),
{
    (index >> level) & 1u64 == 0
}

/// Runs MERKLEVERIFY on `m`.
pub fn merkle_verify(m: &mut Machine, a: Reg, b: Reg, c: Reg) -> (r: Result<(), Fault>)
    requires
        regs_ok(a, b, c),
    ensures
        matches_spec(r, old(m)@, final(m)@, merkle_verify_op(old(m)@, a, b, c)),
{
    let ptr = m.reg(a);
    let len = m.reg(b);
    let verdict: u64 = match m.mem_region(ptr, len) {
        None => return Err(Fault::BadMemory),
        Some(region) => {
            let n = region.len();
            if n < 72 || (n - 72) % 32 != 0 {
                return Err(Fault::BadMemory);
            }
            if n == 72 {
                assert(region@.subrange(72, region@.len() as int).len() == 0);
                0
            } else {
                let index = crate::bytes::read_be64(region, 32);
                let mut node = merkle_leaf(&region[40..72]);
                let mut at: usize = 72;
                let mut level: u64 = 0;
                let ghost path = region@.subrange(72, n as int);
                let ghost leaf = region@.subrange(40, 72);
                assert(region@.subrange(32, 40) =~= region@.subrange(32, 40));
                while at < n
                    invariant
                        72 <= at <= n,
                        n == region@.len(),
                        (at - 72) % 32 == 0,
                        (n - 72) % 32 == 0,
                        level == (at - 72) / 32,
                        merkle_climb(leaf_hash(leaf), index, path, 0) == merkle_climb(
                            node@,
                            index,
                            region@.subrange(at as int, n as int),
                            level as nat,
                        ),
                    decreases n - at,
                {
                    let ghost rest = region@.subrange(at as int, n as int);
                    let sib = &region[at..at + 32];
                    let left = level >= 64 || bit_clear(index, level);
                    assert(left == node_on_left(index, level as nat));
                    node = if left {
                        merkle_node(&node, sib)
                    } else {
                        merkle_node(sib, &node)
                    };
                    assert(rest.subrange(0, 32) =~= sib@);
                    assert(rest.subrange(32, rest.len() as int) =~= region@.subrange(
                        at + 32,
                        n as int,
                    ));
                    at = at + 32;
                    level = level + 1;
                }
                let root = &region[0..32];
                if eq_bytes(&node, root) {
                    1
                } else {
                    0
                }
            }
        },
    };
    m.set_reg(c, verdict);
    Ok(())
}

/// Whether two byte strings are equal.
pub fn eq_bytes(x: &[u8], y: &[u8]) -> (r: bool)
    ensures
        r == (x@ == y@),
{
    if x.len() != y.len() {
        return false;
    }
    let mut j: usize = 0;
    while j < x.len()
        invariant
            x@.len() == y@.len(),
            j <= x@.len(),
            forall|i: int| 0 <= i < j ==> x@[i] == y@[i],
        decreases x@.len() - j,
    {
        if x[j] != y[j] {
            return false;
        }
        j = j + 1;
    }
    assert(x@ =~= y@);
    true
}

/// Runs KEM on `m`.
pub fn kem(m: &mut Machine, a: Reg, b: Reg, c: Reg) -> (r: Result<(), Fault>)
    requires
        regs_ok(a, b, c),
    ensures
        matches_spec(r, old(m)@, final(m)@, kem_op(old(m)@, a, b, c)),
{
    let ptr = m.reg(a);
    let len = m.reg(b);
    let out = m.reg(c);
    let output = match m.mem_region(ptr, len) {
        None => return Err(Fault::BadMemory),
        Some(region) => {
            if region.len() < ML_KEM_ENCAPS_KEY_BYTES + ML_KEM_SEED_BYTES {
                return Err(Fault::BadMemory);
            }
            match ml_kem_encaps(
                &region[0..ML_KEM_ENCAPS_KEY_BYTES],
                &region[ML_KEM_ENCAPS_KEY_BYTES..ML_KEM_ENCAPS_KEY_BYTES + ML_KEM_SEED_BYTES],
            ) {
                None => return Err(Fault::CryptoFault),
                Some((ct, ss)) => {
                    let mut v = ss;
                    append(&mut v, ct.as_slice());
                    v
                },
            }
        },
    };
    write_or_fault(m, out, output.as_slice())
}

/// Runs ADDR on `m`.
pub fn address(m: &mut Machine, a: Reg, b: Reg, c: Reg) -> (r: Result<(), Fault>)
    requires
        regs_ok(a, b, c),
    ensures
        matches_spec(r, old(m)@, final(m)@, address_op(old(m)@, a, b, c)),
{
    let ptr = m.reg(a);
    let scheme = m.reg(b);
    let out = m.reg(c);
    let pk_len: usize = if scheme == SCHEME_ML_DSA {
        ML_DSA_PUBLIC_KEY_BYTES
    } else if scheme == SCHEME_SLH_DSA {
        SLH_DSA_PUBLIC_KEY_BYTES
    } else {
        return Err(Fault::BadScheme);
    };
    let digest = match m.mem_region(ptr, pk_len as u64) {
        None => return Err(Fault::BadMemory),
        Some(pk) => {
            let mut input: Vec<u8> = Vec::new();
            input.push(scheme as u8);
            append(&mut input, pk);
            assert(input@ =~= seq![scheme as u8] + pk@);
            sha3_256(input.as_slice())
        },
    };
    write_or_fault(m, out, &digest)
}

} // verus!

verus! {

/// Level `l` of the Merkle tree over `leaves`: at level 0 the SHA3-256 digest of each leaf
/// behind the leaf tag 0x00; each level up, the digest of each adjacent pair behind the node
/// tag 0x01, left child first.
pub open spec fn tree_level(leaves: Seq<Seq<u8>>, l: nat) -> Seq<Seq<u8>>
    decreases l,
{
    if l == 0 {
        Seq::new(leaves.len(), |k: int| sha3_256_of(seq![0x00u8] + leaves[k])@)
    } else {
        let below = tree_level(leaves, (l - 1) as nat);
        Seq::new(
            below.len() / 2,
            |k: int| sha3_256_of(seq![0x01u8] + below[2 * k] + below[2 * k + 1])@,
        )
    }
}

/// The other child of the pair that position `k` of a level belongs to.
pub open spec fn partner(k: nat) -> int {
    if k % 2 == 0 {
        k as int + 1
    } else {
        k as int - 1
    }
}

/// The authentication path of leaf `index` through the lowest `depth` levels: at each level
/// from the bottom, the partner of the leaf's ancestor at that level, 32 bytes each, joined.
pub open spec fn auth_path(leaves: Seq<Seq<u8>>, index: nat, depth: nat) -> Seq<u8>
    decreases depth,
{
    if depth == 0 {
        Seq::empty()
    } else {
        let l = (depth - 1) as nat;
        auth_path(leaves, index, l) + tree_level(leaves, l)[partner(
            index / vstd::arithmetic::power2::pow2(l),
        ) as int]
    }
}

proof fn lemma_partner_below(k: nat, h: nat)
    requires
        k < 2 * h,
    ensures
        0 <= partner(k) < 2 * h,
{
    assert(k % 2 == 0 ==> k + 1 < 2 * h) by (nonlinear_arith)
        requires
            k < 2 * h,
    ;
}

proof fn lemma_index_bound(i: nat, l: nat, depth: nat)
    requires
        i < vstd::arithmetic::power2::pow2(depth),
        l <= depth,
    ensures
        i / vstd::arithmetic::power2::pow2(l) < vstd::arithmetic::power2::pow2((depth - l) as nat),
{
    let p = vstd::arithmetic::power2::pow2(l);
    let q = vstd::arithmetic::power2::pow2((depth - l) as nat);
    vstd::arithmetic::power2::lemma_pow2_adds(l, (depth - l) as nat);
    vstd::arithmetic::power2::lemma_pow2_pos(l);
    assert(i / p < q) by (nonlinear_arith)
        requires
            i < p * q,
            p > 0,
    ;
}

proof fn lemma_level_len(leaves: Seq<Seq<u8>>, depth: nat, l: nat)
    requires
        leaves.len() == vstd::arithmetic::power2::pow2(depth),
        l <= depth,
    ensures
        tree_level(leaves, l).len() == vstd::arithmetic::power2::pow2((depth - l) as nat),
        forall|k: int| 0 <= k < tree_level(leaves, l).len() ==> #[trigger] tree_level(leaves, l)[k].len() == 32,
    decreases l,
{
    if l > 0 {
        lemma_level_len(leaves, depth, (l - 1) as nat);
        vstd::arithmetic::power2::lemma_pow2_unfold((depth - l + 1) as nat);
    }
}

proof fn lemma_path(leaves: Seq<Seq<u8>>, index: nat, depth: nat, top: nat)
    requires
        leaves.len() == vstd::arithmetic::power2::pow2(top),
        index < vstd::arithmetic::power2::pow2(top),
        depth <= top,
    ensures
        auth_path(leaves, index, depth).len() == 32 * depth,
        forall|l: int| 0 <= l < depth ==> #[trigger] auth_path(leaves, index, depth).subrange(32 * l, 32 * l + 32)
            == tree_level(leaves, l as nat)[partner(index / vstd::arithmetic::power2::pow2(l as nat)) as int],
    decreases depth,
{
    if depth > 0 {
        let l0 = (depth - 1) as nat;
        lemma_path(leaves, index, l0, top);
        lemma_level_len(leaves, top, l0);
        lemma_index_bound(index, l0, top);
        vstd::arithmetic::power2::lemma_pow2_unfold((top - l0) as nat);
        let k = index / vstd::arithmetic::power2::pow2(l0);
        let h = vstd::arithmetic::power2::pow2((top - l0 - 1) as nat);
        assert(tree_level(leaves, l0).len() == 2 * h);
        lemma_partner_below(k, h);
        let node = tree_level(leaves, l0)[partner(k) as int];
        assert(node.len() == 32);
        let prev = auth_path(leaves, index, l0);
        let whole = auth_path(leaves, index, depth);
        assert(whole == prev + node);
        assert forall|l: int| 0 <= l < depth implies #[trigger] whole.subrange(32 * l, 32 * l + 32)
            == tree_level(leaves, l as nat)[partner(index / vstd::arithmetic::power2::pow2(l as nat)) as int] by {
            if l < l0 {
                assert(prev.subrange(32 * l, 32 * l + 32) == tree_level(leaves, l as nat)[partner(
                    index / vstd::arithmetic::power2::pow2(l as nat),
                ) as int]);
                assert(whole.subrange(32 * l, 32 * l + 32) =~= prev.subrange(32 * l, 32 * l + 32));
            } else {
                assert(whole.subrange(32 * l, 32 * l + 32) =~= node);
            }
        }
    }
}

proof fn lemma_climb_from(leaves: Seq<Seq<u8>>, depth: nat, index: u64, l: nat)
    requires
        depth <= 64,
        leaves.len() == vstd::arithmetic::power2::pow2(depth),
        index < vstd::arithmetic::power2::pow2(depth),
        l <= depth,
    ensures
        merkle_climb(
            tree_level(leaves, l)[(index as nat / vstd::arithmetic::power2::pow2(l)) as int],
            index,
            auth_path(leaves, index as nat, depth).subrange(32 * (l as int), 32 * (depth as int)),
            l,
        ) == tree_level(leaves, depth)[0],
    decreases depth - l,
{
    let pow = vstd::arithmetic::power2::pow2(l);
    let k = index as nat / pow;
    let path = auth_path(leaves, index as nat, depth);
    let p = path.subrange(32 * (l as int), 32 * (depth as int));
    lemma_path(leaves, index as nat, depth, depth);
    lemma_level_len(leaves, depth, l);
    lemma_index_bound(index as nat, l, depth);
    vstd::arithmetic::power2::lemma_pow2_pos(l);
    if l == depth {
        assert(vstd::arithmetic::power2::pow2(0) == 1) by {
            vstd::arithmetic::power2::lemma2_to64();
        }
        assert(p.len() == 0);
    } else {
        let lvl = tree_level(leaves, l);
        let up = tree_level(leaves, l + 1);
        lemma_level_len(leaves, depth, l + 1);
        vstd::arithmetic::power2::lemma_pow2_unfold((depth - l) as nat);
        vstd::arithmetic::power2::lemma_pow2_unfold(l + 1);
        assert(p.subrange(0, 32) =~= path.subrange(32 * (l as int), 32 * (l as int) + 32));
        assert(p.subrange(32, p.len() as int) =~= path.subrange(32 * (l as int + 1), 32 * (depth as int)));
        let sib = p.subrange(0, 32);
        assert(sib == lvl[partner(k) as int]);
        assert(node_on_left(index, l) == (k % 2 == 0)) by {
            vstd::bits::lemma_u64_shr_is_div(index, l as u64);
            let y = index >> (l as u64);
            assert((y & 1u64 == 0) == (y % 2 == 0)) by (bit_vector);
        }
        vstd::arithmetic::div_mod::lemma_div_denominator(index as int, pow as int, 2);
        assert(k / 2 == index as nat / vstd::arithmetic::power2::pow2(l + 1));
        let next = if node_on_left(index, l) {
            node_hash(lvl[k as int], sib)
        } else {
            node_hash(sib, lvl[k as int])
        };
        assert(k / 2 < up.len());
        assert(next == up[(k / 2) as int]);
        lemma_climb_from(leaves, depth, index, l + 1);
    }
}

/// Completeness of MERKLEVERIFY's climb: in a tree of any depth up to 64, the authentication
/// path of leaf `index` (at each level the partner of its ancestor, the ancestor being the
/// left child exactly when bit `level` of the index is clear) climbs from the tagged hash of
/// that leaf to the tree's root.
pub proof fn law_merkle_path_verifies(leaves: Seq<Seq<u8>>, depth: nat, index: u64)
    requires
        depth <= 64,
        leaves.len() == vstd::arithmetic::power2::pow2(depth),
        index < leaves.len(),
    ensures
        merkle_climb(
            sha3_256_of(seq![0x00u8] + leaves[index as int])@,
            index,
            auth_path(leaves, index as nat, depth),
            0,
        ) == tree_level(leaves, depth)[0],
{
    lemma_climb_from(leaves, depth, index, 0);
    lemma_path(leaves, index as nat, depth, depth);
    assert(vstd::arithmetic::power2::pow2(0) == 1) by {
        vstd::arithmetic::power2::lemma2_to64();
    }
    let path = auth_path(leaves, index as nat, depth);
    assert(path.subrange(0, 32 * (depth as int)) =~= path);
}

/// MERKLEVERIFY accepts every honest proof: when the region holds the root of a tree of depth
/// 1 to 64 over 32-byte leaves, then a leaf's index big-endian, the leaf, and its
/// authentication path, the result register becomes 1.
pub proof fn law_merkle_verify_accepts_paths(
    m: MachineState,
    a: Reg,
    b: Reg,
    c: Reg,
    leaves: Seq<Seq<u8>>,
    depth: nat,
    index: u64,
)
    requires
        1 <= depth <= 64,
        leaves.len() == vstd::arithmetic::power2::pow2(depth),
        index < leaves.len(),
        leaves[index as int].len() == 32,
        region(m, m.regs[a as int], m.regs[b as int]) == Some(
            tree_level(leaves, depth)[0] + be64(index) + leaves[index as int] + auth_path(
                leaves,
                index as nat,
                depth,
            ),
        ),
    ensures
        merkle_verify_op(m, a, b, c) == Ok::<MachineState, Fault>(with_reg(m, c, 1)),
{
    law_merkle_path_verifies(leaves, depth, index);
    lemma_path(leaves, index as nat, depth, depth);
    lemma_level_len(leaves, depth, depth);
    vstd::arithmetic::power2::lemma_pow2_pos(0);
    assert(vstd::arithmetic::power2::pow2(0) == 1) by {
        vstd::arithmetic::power2::lemma2_to64();
    }
    crate::bytes::lemma_word64_be64(index);
    let root = tree_level(leaves, depth)[0];
    let leaf = leaves[index as int];
    let path = auth_path(leaves, index as nat, depth);
    let r = root + be64(index) + leaf + path;
    assert(r.subrange(0, 32) =~= root);
    assert(r.subrange(32, 40) =~= be64(index));
    assert(r.subrange(40, 72) =~= leaf);
    assert(r.subrange(72, r.len() as int) =~= path);
    assert(leaf_hash(leaf) == sha3_256_of(seq![0x00u8] + leaf)@);
}

} // verus!
